//! Cycles: from a date to the cycle that holds it, and from an identifier to
//! the cycle it names.
use crate::calendar::{
    day_in_range, days_before_year, lemma_next_year,
    lemma_year_unique, lemma_years_ordered, parsed_day_number, year_holds, ymd_day_number, Date,
    MAX_YEAR,
};
use crate::error::{AiracError, AiracErrorKind};
use vstd::prelude::*;

verus! {

/// Year of the epoch, 1901-01-10, from which all cycles are counted.
pub const EPOCH_YEAR: i32 = 1901;

pub const EPOCH_MONTH: u32 = 1;

pub const EPOCH_DAY: u32 = 10;

/// A two-digit year `yy` names the year `1900 + yy`, unless that is this year
/// or earlier: then it names `2000 + yy`.
pub const CENTURY_CUTOFF: u16 = 1963;

/// The largest identifier: two two-digit parts.
pub const MAX_IDENTIFIER: u16 = 9999;

/// The longest cycle, in weeks, for which the start of every cycle that an
/// identifier names lies within the calendar's range.
pub const MAX_WEEK_CYCLE: i64 = 100000;

/// Day number of the epoch.
pub open spec fn epoch_day_number() -> int {
    ymd_day_number(EPOCH_YEAR as int, EPOCH_MONTH as int, EPOCH_DAY as int)
}

/// Division that rounds towards zero.
pub open spec fn trunc_div(a: int, b: int) -> int {
    if a >= 0 { a / b } else { -((-a) / b) }
}

/// The number of whole cycles of `len` days from the epoch to day `n`,
/// rounded towards zero.
pub open spec fn cycle_index(n: int, len: int) -> int {
    trunc_div(n - epoch_day_number(), len)
}

/// The start of the cycle that holds day `n`.
pub open spec fn cycle_start(n: int, len: int) -> int {
    epoch_day_number() + cycle_index(n, len) * len
}

/// The year that a two-digit year fragment names.
pub open spec fn century_year(fragment: int) -> int {
    if fragment + 1900 <= CENTURY_CUTOFF { fragment + 2000 } else { fragment + 1900 }
}

/// The start of the cycle that identifier `id` names: counted from the last
/// cycle that starts by 31 December of the year before.
pub open spec fn identifier_start(id: int, len: int) -> int {
    let year = century_year(id / 100);
    epoch_day_number() + (cycle_index(days_before_year(year), len) + id % 100) * len
}

/// The decimal digit `d`, for `0 <= d < 10`.
pub open spec fn digit_char(d: int) -> char {
    if d == 0 { '0' }
    else if d == 1 { '1' }
    else if d == 2 { '2' }
    else if d == 3 { '3' }
    else if d == 4 { '4' }
    else if d == 5 { '5' }
    else if d == 6 { '6' }
    else if d == 7 { '7' }
    else if d == 8 { '8' }
    else { '9' }
}

/// The four decimal digits of `v`, zero-padded on the left.
pub open spec fn identifier_text(v: int) -> Seq<char> {
    seq![digit_char(v / 1000 % 10), digit_char(v / 100 % 10), digit_char(v / 10 % 10), digit_char(v % 10)]
}

fn digit_str(d: u16) -> (r: &'static str)
    requires
        d < 10,
    ensures
        r@ == seq![digit_char(d as int)],
{
    if d == 0 {
        proof { reveal_strlit("0"); }
        "0"
    } else if d == 1 {
        proof { reveal_strlit("1"); }
        "1"
    } else if d == 2 {
        proof { reveal_strlit("2"); }
        "2"
    } else if d == 3 {
        proof { reveal_strlit("3"); }
        "3"
    } else if d == 4 {
        proof { reveal_strlit("4"); }
        "4"
    } else if d == 5 {
        proof { reveal_strlit("5"); }
        "5"
    } else if d == 6 {
        proof { reveal_strlit("6"); }
        "6"
    } else if d == 7 {
        proof { reveal_strlit("7"); }
        "7"
    } else if d == 8 {
        proof { reveal_strlit("8"); }
        "8"
    } else {
        proof { reveal_strlit("9"); }
        "9"
    }
}

/// The last two digits of `year`, counted forwards also before year 0.
fn year_of_century(year: i32) -> (r: u16)
    ensures
        r == year as int % 100,
{
    if year >= 0 {
        (year % 100) as u16
    } else {
        let r = ((-(year as i64)) % 100) as u16;
        if r == 0 { 0 } else { 100 - r }
    }
}

/// Whole cycles of `len` days in `a` days cover no more than `a`.
proof fn lemma_whole_cycles(a: int, len: int)
    requires
        0 <= a,
        0 < len,
    ensures
        0 <= (a / len) * len <= a,
        a - len < (a / len) * len,
{
    vstd::arithmetic::div_mod::lemma_fundamental_div_mod(a, len);
    vstd::arithmetic::div_mod::lemma_mod_pos_bound(a, len);
    let q = a / len;
    let r = a % len;
    assert(q * len == a - r) by (nonlinear_arith)
        requires
            a == len * q + r,
    {
    }
    assert(q >= 0) by (nonlinear_arith)
        requires
            q * len > -len,
            len > 0,
    {
    }
    assert(q * len >= 0) by (nonlinear_arith)
        requires
            q >= 0,
            len > 0,
    {
    }
}

/// One cycle: the day it starts, the year that holds that day, the cycle's
/// ordinal within that year, and its identifier `YYOO`.
#[derive(Clone, Copy, Debug, PartialEq, Eq, Structural)]
pub struct Airac {
    pub effective: Date,
    pub year: i32,
    pub ordinal: u8,
    pub value: u16,
}

impl Airac {
    /// This is the record of the cycle of `len` days that starts on day `e`.
    /// The ordinal counts cycles of `len` days from 1 January of the year.
    pub open spec fn describes(&self, e: int, len: int) -> bool {
        &&& self.effective@ == e
        &&& year_holds(self.year as int, e)
        &&& self.ordinal as int == (e - days_before_year(self.year as int) - 1) / len + 1
        &&& self.value as int == (self.year as int % 100) * 100 + self.ordinal as int
    }

    /// The cycle of `week_cycle` weeks that holds the date written in `date`
    /// as `YYYY-MM-DD`.
    pub fn from_date_str(date: &str, week_cycle: i64) -> (r: Result<Airac, AiracError>)
        requires
            1 <= week_cycle <= i64::MAX / 7,
        ensures
            parsed_day_number(date@) is None ==> (r matches Err(e) && e.kind == AiracErrorKind::ParseError),
            parsed_day_number(date@) matches Some(n) ==> (r matches Ok(a) && a.describes(
                cycle_start(n, 7 * week_cycle),
                7 * week_cycle,
            )),
    {
        match Date::parse(date) {
            Ok(d) => Ok(Airac::for_date(d, week_cycle)),
            Err(_) => Err(AiracError::new(AiracErrorKind::ParseError, "invalid date")),
        }
    }

    /// The cycle of `week_cycle` weeks that holds `date`: the one that starts
    /// on the epoch plus a whole number of cycles, that number taken from the
    /// distance of `date` to the epoch and rounded towards zero.
    pub fn for_date(date: Date, week_cycle: i64) -> (r: Airac)
        requires
            date.wf(),
            1 <= week_cycle <= i64::MAX / 7,
        ensures
            r.describes(cycle_start(date@, 7 * week_cycle), 7 * week_cycle),
    {
        let len: i64 = 7 * week_cycle;
        let epoch = Airac::epoch();
        let diff: i64 = date.day_number() as i64 - epoch.day_number() as i64;
        let shift: i64 = if diff >= 0 {
            let k: u64 = diff as u64 / len as u64;
            proof {
                lemma_whole_cycles(diff as int, len as int);
            }
            assert(k * len == cycle_index(date@, len as int) * len);
            (k * len as u64) as i64
        } else {
            let k: u64 = (-diff) as u64 / len as u64;
            proof {
                lemma_whole_cycles(-diff, len as int);
                assert(-(k * len) == (-(k as int)) * len) by (nonlinear_arith);
            }
            -((k * len as u64) as i64)
        };
        assert(shift == cycle_index(date@, len as int) * len);
        let effective: i64 = epoch.day_number() as i64 + shift;
        Airac::from_date(effective as i32, len)
    }

    /// The year and the ordinal that identifier `yyoo` names: the two
    /// high-order digits give the year, by the century rule, and the two
    /// low-order digits the ordinal.
    pub fn get_identifiers(yyoo: u16) -> (r: Result<(u16, u8), AiracError>)
        ensures
            r is Ok == (yyoo <= MAX_IDENTIFIER),
            r matches Ok((y, o)) ==> y == century_year(yyoo as int / 100) && o == yyoo % 100,
            r matches Err(e) ==> e.kind == AiracErrorKind::InvalidIdentifier(yyoo),
    {
        if yyoo > MAX_IDENTIFIER {
            return Err(AiracError::new(AiracErrorKind::InvalidIdentifier(yyoo), "illegal AIRAC id"));
        }
        let mut year: u16 = yyoo / 100 + 1900;
        if year <= CENTURY_CUTOFF {
            year = year + 100;
        }
        let ordinal: u8 = (yyoo % 100) as u8;
        Ok((year, ordinal))
    }

    /// The cycle of `week_cycle` weeks that identifier `yyoo` names: the
    /// ordinal counts cycles on from the last one that starts by 31 December
    /// of the year before.
    pub fn from_airac_str(yyoo: u16, week_cycle: i64) -> (r: Result<Airac, AiracError>)
        requires
            1 <= week_cycle <= MAX_WEEK_CYCLE,
        ensures
            r is Ok == (yyoo <= MAX_IDENTIFIER),
            r matches Err(e) ==> e.kind == AiracErrorKind::InvalidIdentifier(yyoo),
            r matches Ok(a) ==> a.describes(identifier_start(yyoo as int, 7 * week_cycle), 7 * week_cycle),
    {
        let len: i64 = 7 * week_cycle;
        let (year, ordinal) = match Airac::get_identifiers(yyoo) {
            Ok(p) => p,
            Err(e) => return Err(e),
        };
        let epoch = Airac::epoch();
        proof {
            lemma_next_year(year - 1);
            lemma_years_ordered(1964, year as int);
            lemma_years_ordered(year as int, 2063);
        }
        let last = Date::from_ymd(year as i32 - 1, 12, 31).unwrap();
        let diff: i64 = last.day_number() as i64 - epoch.day_number() as i64;
        let k: u64 = diff as u64 / len as u64;
        proof {
            lemma_whole_cycles(diff as int, len as int);
            assert(last@ <= days_before_year(2063));
            assert(diff <= 60000);
            assert((k + ordinal) * len <= diff + 99 * len) by (nonlinear_arith)
                requires
                    k * len <= diff,
                    0 <= ordinal <= 99,
                    0 < len,
            {
            }
        }
        let shift: u64 = (k + ordinal as u64) * len as u64;
        let effective: i64 = epoch.day_number() as i64 + shift as i64;
        proof {
            lemma_years_ordered(2063, MAX_YEAR + 1);
        }
        Ok(Airac::from_date(effective as i32, len))
    }

    /// The identifier as four digits, zero-padded: `0301` for the first
    /// cycle of 2003.
    pub fn identifier(&self) -> (r: String)
        ensures
            r@ == identifier_text(self.value as int),
    {
        let v: u16 = self.value;
        let mut text = String::new();
        text.append(digit_str(v / 1000 % 10));
        text.append(digit_str(v / 100 % 10));
        text.append(digit_str(v / 10 % 10));
        text.append(digit_str(v % 10));
        assert(text@ =~= identifier_text(v as int));
        text
    }

    fn epoch() -> (r: Date)
        ensures
            r.wf(),
            r@ == epoch_day_number(),
    {
        Date::from_ymd(EPOCH_YEAR, EPOCH_MONTH, EPOCH_DAY).unwrap()
    }

    /// The record of the cycle of `len` days that starts on day `effective`.
    fn from_date(effective: i32, len: i64) -> (r: Airac)
        requires
            day_in_range(effective as int),
            7 <= len,
        ensures
            r.describes(effective as int, len as int),
    {
        let date = Date::from_days(effective);
        let (year, day) = date.year_and_ordinal();
        proof {
            lemma_next_year(year as int);
            assert(1 <= day <= 366);
        }
        let q: u64 = (day - 1) as u64 / len as u64;
        proof {
            let d = (day - 1) as int;
            let l = len as int;
            assert(q as int == d / l);
            vstd::arithmetic::div_mod::lemma_fundamental_div_mod(d, l);
            vstd::arithmetic::div_mod::lemma_mod_pos_bound(d, l);
            assert(d / l <= 52) by (nonlinear_arith)
                requires
                    0 <= d <= 365,
                    7 <= l,
                    l * (d / l) <= d,
                    d / l >= 0,
            {
            }
        }
        let ordinal = (q + 1) as u8;
        let century_part = year_of_century(year);
        Airac { effective: date, year, ordinal, value: century_part * 100 + ordinal as u16 }
    }
}

/// A cycle's record is determined by the day it starts and its length.
pub proof fn lemma_describes_unique(a: Airac, b: Airac, e: int, len: int)
    requires
        a.describes(e, len),
        b.describes(e, len),
    ensures
        a == b,
{
    lemma_year_unique(a.year as int, b.year as int, e);
    Date::lemma_view_eq(a.effective, b.effective);
}

/// For a date on or after the epoch, its cycle starts on the epoch plus a
/// whole, non-negative number of cycles, and the date lies within that cycle:
/// on or after its start and before the start of the next one.
pub proof fn lemma_grid_alignment(d: Date, week_cycle: int)
    requires
        d.wf(),
        1 <= week_cycle,
        epoch_day_number() <= d@,
    ensures
        exists|k: int| k >= 0 && cycle_start(d@, 7 * week_cycle) == epoch_day_number() + #[trigger] (k * (7 * week_cycle)),
        cycle_start(d@, 7 * week_cycle) <= d@ < cycle_start(d@, 7 * week_cycle) + 7 * week_cycle,
{
    let len = 7 * week_cycle;
    lemma_whole_cycles(d@ - epoch_day_number(), len);
    let k = cycle_index(d@, len);
    assert(k >= 0) by (nonlinear_arith)
        requires
            k * len >= 0,
            len > 0,
    {
    }
    assert(cycle_start(d@, len) == epoch_day_number() + k * len);
}

/// Within a year, the ordinal of a cycle of `len` days is between 1 and
/// `365 / len + 1` (at most 14 for cycles of 28 days), and the identifier's
/// two low-order digits are the ordinal, its two high-order digits the year's.
pub proof fn lemma_ordinal_bounds(rec: Airac, e: int, len: int)
    requires
        rec.describes(e, len),
        7 <= len,
    ensures
        1 <= rec.ordinal <= 365int / len + 1,
        len == 28 ==> rec.ordinal <= 14,
        rec.value % 100 == rec.ordinal,
        rec.value / 100 == rec.year % 100,
{
    let day = e - days_before_year(rec.year as int);
    lemma_next_year(rec.year as int);
    vstd::arithmetic::div_mod::lemma_div_is_ordered(0, day - 1, len);
    vstd::arithmetic::div_mod::lemma_div_is_ordered(day - 1, 365, len);
    vstd::arithmetic::div_mod::lemma_fundamental_div_mod(365, len);
    vstd::arithmetic::div_mod::lemma_mod_pos_bound(365, len);
    assert(365int / len <= 52) by (nonlinear_arith)
        requires
            7 <= len,
            len * (365int / len) <= 365,
    {
    }
    if len == 28 {
        assert(365int / 28 == 13);
    }
}

/// A later date never falls in an earlier cycle.
pub proof fn lemma_monotone(d1: Date, d2: Date, week_cycle: int)
    requires
        d1@ < d2@,
        1 <= week_cycle,
    ensures
        cycle_start(d1@, 7 * week_cycle) <= cycle_start(d2@, 7 * week_cycle),
{
    let len = 7 * week_cycle;
    let a = d1@ - epoch_day_number();
    let b = d2@ - epoch_day_number();
    if a >= 0 {
        vstd::arithmetic::div_mod::lemma_div_is_ordered(a, b, len);
    } else if b < 0 {
        vstd::arithmetic::div_mod::lemma_div_is_ordered(-b, -a, len);
    } else {
        vstd::arithmetic::div_mod::lemma_div_is_ordered(0, -a, len);
        vstd::arithmetic::div_mod::lemma_div_is_ordered(0, b, len);
    }
    vstd::arithmetic::mul::lemma_mul_inequality(cycle_index(d1@, len), cycle_index(d2@, len), len);
}

/// The identifier of the cycle that holds a date names that same cycle again,
/// wherever the cycle starts in 1964 to 2063, the years that a two-digit year
/// names.
pub proof fn lemma_round_trip(d: Date, week_cycle: int, rec: Airac)
    requires
        d.wf(),
        1 <= week_cycle,
        rec.describes(cycle_start(d@, 7 * week_cycle), 7 * week_cycle),
        1964 <= rec.year <= 2063,
    ensures
        rec.value <= MAX_IDENTIFIER,
        identifier_start(rec.value as int, 7 * week_cycle) == rec.effective@,
        forall|other: Airac| #[trigger]
            other.describes(identifier_start(rec.value as int, 7 * week_cycle), 7 * week_cycle)
                ==> other == rec,
{
    let len = 7 * week_cycle;
    let y = rec.year as int;
    let e = rec.effective@;
    let c = cycle_index(d@, len);
    lemma_ordinal_bounds(rec, e, len);
    lemma_years_ordered(1964, y);
    assert(rec.value / 100 == y % 100);
    assert(century_year(rec.value as int / 100) == y);
    let kp = cycle_index(days_before_year(y), len);
    let base = days_before_year(y) - epoch_day_number();
    vstd::arithmetic::div_mod::lemma_fundamental_div_mod(base, len);
    vstd::arithmetic::div_mod::lemma_mod_pos_bound(base, len);
    let r = base % len;
    assert(base == kp * len + r) by (nonlinear_arith)
        requires
            base == len * kp + r,
    {
    }
    assert(e - days_before_year(y) - 1 == (c - kp - 1) * len + (len - r - 1)) by (nonlinear_arith)
        requires
            e == epoch_day_number() + c * len,
            base == kp * len + r,
            base == days_before_year(y) - epoch_day_number(),
    {
    }
    vstd::arithmetic::div_mod::lemma_fundamental_div_mod_converse(
        e - days_before_year(y) - 1,
        len,
        c - kp - 1,
        len - r - 1,
    );
    assert(rec.ordinal == c - kp);
    assert(rec.value as int % 100 == rec.ordinal);
    assert forall|other: Airac| #[trigger]
        other.describes(identifier_start(rec.value as int, len), len) implies other == rec by {
        lemma_describes_unique(other, rec, e, len);
    }
}

} // verus!

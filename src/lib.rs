//! Conversion between calendar dates and AIRAC cycle identifiers.
//!
//! Cycles are a whole number of weeks long and are counted from the epoch
//! 1901-01-10. A cycle is named by a four-digit identifier `YYOO`: the last two
//! digits of the year in which the cycle starts, and the cycle's ordinal
//! within that year.
use vstd::prelude::*;

pub mod calendar;
pub mod cycle;
pub mod error;

pub use calendar::Date;
pub use cycle::Airac;
pub use error::{AiracError, AiracErrorKind};

verus! {

} // verus!

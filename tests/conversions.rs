use airac::{Airac, Date};

fn ymd(year: i32, month: u32, day: u32) -> Date {
    Date::from_ymd(year, month, day).unwrap()
}

struct AiracTest {
    date: String,
    value: u16,
}

#[test]
fn get_identifiers() {
    let (year, ordinal) = Airac::get_identifiers(2001).unwrap();
    assert_eq!(year, 2020);
    assert_eq!(ordinal, 1);
}

#[test]
fn from_string_month() {
    let airac = Airac::from_airac_str(1913, 4).unwrap();
    assert_eq!(airac.effective, ymd(2019, 12, 05));
}

#[test]
fn from_string_week() {
    let airac = Airac::from_airac_str(2001, 1).unwrap();
    assert_eq!(airac.effective, ymd(2020, 01, 02));
    let airac = Airac::from_airac_str(2005, 1).unwrap();
    assert_eq!(airac.effective, ymd(2020, 01, 30));
}

#[test]
fn from_date_week() {
    let airac = Airac::from_date_str("2020-01-02", 1).unwrap();
    assert_eq!(airac.ordinal, 1);

    let airac = Airac::from_date_str("2020-01-30", 1).unwrap();
    assert_eq!(airac.ordinal, 5);
}

#[test]
fn from_date_month() {
    let mut airac_tests: Vec<AiracTest> = Vec::new();
    airac_tests.push(AiracTest { date: "1998-01-29".to_string(), value: 9802 });
    airac_tests.push(AiracTest { date: "2003-01-23".to_string(), value: 0301 });

    airac_tests.push(AiracTest { date: "2004-01-21".to_string(), value: 0313 });
    airac_tests.push(AiracTest { date: "2004-01-22".to_string(), value: 0401 });

    airac_tests.push(AiracTest { date: "2005-01-19".to_string(), value: 0413 });
    airac_tests.push(AiracTest { date: "2005-01-20".to_string(), value: 0501 });

    airac_tests.push(AiracTest { date: "2006-01-18".to_string(), value: 0513 });
    airac_tests.push(AiracTest { date: "2006-01-19".to_string(), value: 0601 });

    airac_tests.push(AiracTest { date: "2007-01-17".to_string(), value: 0613 });
    airac_tests.push(AiracTest { date: "2007-01-18".to_string(), value: 0701 });

    airac_tests.push(AiracTest { date: "2008-01-16".to_string(), value: 0713 });
    airac_tests.push(AiracTest { date: "2008-01-17".to_string(), value: 0801 });

    airac_tests.push(AiracTest { date: "2009-01-14".to_string(), value: 0813 });
    airac_tests.push(AiracTest { date: "2009-01-15".to_string(), value: 0901 });

    airac_tests.push(AiracTest { date: "2010-01-13".to_string(), value: 0913 });
    airac_tests.push(AiracTest { date: "2010-01-14".to_string(), value: 1001 });

    airac_tests.push(AiracTest { date: "2011-01-12".to_string(), value: 1013 });
    airac_tests.push(AiracTest { date: "2011-01-13".to_string(), value: 1101 });

    airac_tests.push(AiracTest { date: "2012-01-11".to_string(), value: 1113 });
    airac_tests.push(AiracTest { date: "2012-01-12".to_string(), value: 1201 });

    airac_tests.push(AiracTest { date: "2013-01-09".to_string(), value: 1213 });
    airac_tests.push(AiracTest { date: "2013-01-10".to_string(), value: 1301 });

    airac_tests.push(AiracTest { date: "2020-01-01".to_string(), value: 1913 });
    airac_tests.push(AiracTest { date: "2020-01-02".to_string(), value: 2001 });

    for airac_test in airac_tests {
        let airac = Airac::from_date_str(airac_test.date.as_str(), 4).unwrap();
        assert_eq!(airac.value, airac_test.value);
    }
}

use chrono::NaiveDate;
use symbology::calendar::{is_day_in_month_and_year, is_leap_year};

#[test]
fn calendar_agrees_with_chrono() {
    for year in 1890..2410 {
        assert_eq!(
            is_leap_year(year),
            NaiveDate::from_ymd_opt(year, 2, 29).is_some(),
            "{}",
            year
        );
        for month in 1..=12 {
            for day in 0..=32 {
                assert_eq!(
                    is_day_in_month_and_year(year, month, day),
                    NaiveDate::from_ymd_opt(year, month as u32, day as u32).is_some(),
                    "{}-{}-{}",
                    year,
                    month,
                    day
                );
            }
        }
    }
}

#[test]
fn calendar_boundaries() {
    assert!(is_day_in_month_and_year(2000, 2, 29));
    assert!(!is_day_in_month_and_year(2001, 2, 29));
    assert!(!is_day_in_month_and_year(2000, 2, 30));
    assert!(!is_day_in_month_and_year(2000, 4, 31));
    assert!(is_day_in_month_and_year(2001, 8, 31));
    assert!(is_day_in_month_and_year(1900, 2, 28));
    assert!(!is_day_in_month_and_year(1900, 2, 29));
    assert!(!is_day_in_month_and_year(2001, 8, i32::MAX));
    assert!(!is_day_in_month_and_year(2001, 8, i32::MIN));
    assert!(is_day_in_month_and_year(i32::MIN, i32::MIN, 30));
    assert!(is_leap_year(2000));
    assert!(!is_leap_year(2100));
    assert!(is_leap_year(2004));
    assert!(!is_leap_year(2021));
}

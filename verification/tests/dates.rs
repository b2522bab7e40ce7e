use dao_contracts::dates::{days_from_ymd, days_since_unix_epoch, is_leap};

#[test]
fn leap_years() {
    assert!(is_leap(2000));
    assert!(is_leap(2024));
    assert!(!is_leap(1900));
    assert!(!is_leap(2023));
}

#[test]
fn days_from_ymd_known_dates() {
    assert_eq!(days_from_ymd(1970, 0, 1), 0);
    assert_eq!(days_from_ymd(1970, 1, 1), 31);
    assert_eq!(days_from_ymd(2000, 0, 1), 10957);
    assert_eq!(days_from_ymd(2020, 1, 29), 18321);
    assert_eq!(days_from_ymd(2021, 2, 1), 18687);
}

#[test]
fn days_since_epoch_truncates() {
    assert_eq!(days_since_unix_epoch(0), 0);
    assert_eq!(days_since_unix_epoch(86399), 0);
    assert_eq!(days_since_unix_epoch(1000000), 11);
}

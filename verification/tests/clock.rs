use kg::clock::{days_to_date, is_leap_year};

#[test]
fn leap_years_follow_the_gregorian_rule_for_every_year() {
    assert!(is_leap_year(2024));
    assert!(!is_leap_year(1900));
    assert!(is_leap_year(2000));
    assert!(is_leap_year(-4));
    assert!(!is_leap_year(-100));
    assert!(is_leap_year(-400));
    assert!(!is_leap_year(-1));
    assert!(is_leap_year(i64::MIN));
}

#[test]
fn days_before_1970_count_in_january_1970() {
    assert_eq!(days_to_date(0), (1970, 1, 1));
    assert_eq!(days_to_date(59), (1970, 3, 1));
    assert_eq!(days_to_date(-3), (1970, 1, (-2i64) as u32));
}

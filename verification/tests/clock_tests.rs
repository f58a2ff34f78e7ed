use openco::clock::{days_to_ymd, is_leap, iso_timestamp, now_iso};
use openco::history::{exchange_entries, new_history_entry};

#[test]
fn test_iso_timestamp() {
    let ts = now_iso();
    assert!(ts.contains('T'));
    assert!(ts.ends_with('Z'));
}

#[test]
fn epoch_is_first_of_january_1970() {
    assert_eq!(days_to_ymd(0), (1970, 1, 1));
    assert_eq!(iso_timestamp(0), "1970-01-01T00:00:00Z");
}

#[test]
fn year_and_month_boundaries() {
    assert_eq!(days_to_ymd(364), (1970, 12, 31));
    assert_eq!(days_to_ymd(365), (1971, 1, 1));
    assert_eq!(days_to_ymd(31), (1970, 2, 1));
    // 1972 is a leap year: day 59 of it is February 29
    assert_eq!(days_to_ymd(730 + 59), (1972, 2, 29));
    assert_eq!(days_to_ymd(730 + 60), (1972, 3, 1));
}

#[test]
fn leap_years_follow_the_gregorian_rule() {
    assert!(is_leap(2000));
    assert!(!is_leap(1900));
    assert!(is_leap(2024));
    assert!(!is_leap(2023));
}

#[test]
fn timestamps_of_known_instants() {
    assert_eq!(iso_timestamp(951782400), "2000-02-29T00:00:00Z");
    assert_eq!(iso_timestamp(1725029869), "2024-08-30T14:57:49Z");
    assert_eq!(iso_timestamp(86399), "1970-01-01T23:59:59Z");
}

#[test]
fn far_future_year_keeps_all_digits() {
    // 10000-01-01 is 2932897 days after the epoch
    assert_eq!(iso_timestamp(2932897 * 86400), "10000-01-01T00:00:00Z");
}

#[test]
fn history_entries_are_stamped() {
    let e = new_history_entry("user", "hi");
    assert_eq!(e.role, "user");
    assert_eq!(e.content, "hi");
    let t = e.timestamp.unwrap();
    assert!(t.ends_with('Z') && t.len() == 20);
    let (u, a) = exchange_entries("question", "answer");
    assert_eq!(u.role, "user");
    assert_eq!(u.content, "question");
    assert_eq!(a.role, "assistant");
    assert_eq!(a.content, "answer");
}

use cidre::iso8601::{Date, Iso8601DateFormatter};

#[test]
fn iso_8601_date_formatter_basics() {
    let date = Date::new();
    let formatter = Iso8601DateFormatter::new();
    let str = formatter.string_from_date(&date);
    assert!(!str.is_empty());
}

fn fmt(secs: i64) -> String {
    Iso8601DateFormatter::new().string_from_date(&Date::with_secs(secs))
}

#[test]
fn the_reference_date() {
    assert_eq!(fmt(0), "2001-01-01T00:00:00Z");
}

#[test]
fn one_second_before_the_reference_date() {
    assert_eq!(fmt(-1), "2000-12-31T23:59:59Z");
}

#[test]
fn a_leap_day() {
    assert_eq!(fmt(1154 * 86400 + 3600 + 2 * 60 + 3), "2004-02-29T01:02:03Z");
}

#[test]
fn the_unix_epoch() {
    assert_eq!(fmt(-978307200), "1970-01-01T00:00:00Z");
}

#[test]
fn centuries_without_a_leap_day() {
    // 2100-03-01: 99 years of 2001.. plus January and February of a common year
    let days: i64 = 365 * 99 + 24 + 31 + 28;
    assert_eq!(fmt(days * 86400), "2100-03-01T00:00:00Z");
    assert_eq!(fmt(days * 86400 - 1), "2100-02-28T23:59:59Z");
}

#[test]
fn far_dates() {
    assert_eq!(fmt(i64::MIN).chars().next(), Some('-'));
    assert!(fmt(i64::MAX).ends_with('Z'));
    let ar = Iso8601DateFormatter::new().string_from_date_ar(&Date::with_secs(0));
    assert_eq!(ar, "2001-01-01T00:00:00Z");
}

#[test]
fn now_is_after_the_unix_epoch() {
    assert!(Date::new().secs >= -978307200);
}

use cmux::timestamp::{civil_date, utc_timestamp};

#[test]
fn timestamps_are_utc_iso_8601() {
    assert_eq!(utc_timestamp(0), "1970-01-01T00:00:00Z");
    assert_eq!(utc_timestamp(951_782_400), "2000-02-29T00:00:00Z");
    assert_eq!(utc_timestamp(1_709_211_909), "2024-02-29T13:05:09Z");
    assert_eq!(utc_timestamp(4_102_444_799), "2099-12-31T23:59:59Z");
    assert_eq!(utc_timestamp(253_402_300_799), "9999-12-31T23:59:59Z");
    assert_eq!(utc_timestamp(253_402_300_800), "10000-01-01T00:00:00Z");
}

#[test]
fn civil_dates_cross_century_leap_rules() {
    assert_eq!(civil_date(0), (1970, 1, 1));
    assert_eq!(civil_date(10_957), (2000, 1, 1));
    assert_eq!(civil_date(11_016), (2000, 2, 29));
    assert_eq!(civil_date(47_541), (2100, 3, 1));
    assert_eq!(civil_date(47_540), (2100, 2, 28));
    assert_eq!(civil_date(146_097), (2370, 1, 1));
    assert!(utc_timestamp(u64::MAX).ends_with("Z"));
}

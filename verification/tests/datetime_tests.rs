use iactive::datetime::parse_rfc3339;
use iactive::datetime::parse_store;
use iactive::datetime::format_store;
use iactive::datetime::DateTime;

fn dt(year: u32, month: u32, day: u32, hour: u32, minute: u32, second: u32) -> DateTime {
    DateTime { year, month, day, hour, minute, second }
}

#[test]
fn store_format_parses_back() {
    let t = dt(2024, 5, 1, 10, 30, 59);
    let s = format_store(&t);
    assert_eq!(s, "2024-05-01 10:30:59");
    assert_eq!(parse_store(&s), Some(t));
}

#[test]
fn store_parse_rejects_bad_shapes() {
    assert_eq!(parse_store(""), None);
    assert_eq!(parse_store("2024-05-01T10:30:59"), None);
    assert_eq!(parse_store("2024-13-01 00:00:00"), None);
    assert_eq!(parse_store("2024-00-01 00:00:00"), None);
    assert_eq!(parse_store("2024-05-32 00:00:00"), None);
    assert_eq!(parse_store("2024-05-01 24:00:00"), None);
    assert_eq!(parse_store("2024-05-01 00:60:00"), None);
    assert_eq!(parse_store("2024-05-0a 00:00:00"), None);
}

#[test]
fn leap_years() {
    assert_eq!(parse_store("2024-02-29 00:00:00"), Some(dt(2024, 2, 29, 0, 0, 0)));
    assert_eq!(parse_store("2023-02-29 00:00:00"), None);
    assert_eq!(parse_store("1900-02-29 00:00:00"), None);
    assert_eq!(parse_store("2000-02-29 00:00:00"), Some(dt(2000, 2, 29, 0, 0, 0)));
}

#[test]
fn rfc3339_utc() {
    assert_eq!(parse_rfc3339("2099-01-01T00:00:00Z"), Some(dt(2099, 1, 1, 0, 0, 0)));
    assert_eq!(parse_rfc3339("2099-01-01t23:59:59z"), Some(dt(2099, 1, 1, 23, 59, 59)));
}

#[test]
fn rfc3339_fraction_truncates() {
    assert_eq!(parse_rfc3339("2024-06-01T12:00:00.123Z"), Some(dt(2024, 6, 1, 12, 0, 0)));
    assert_eq!(parse_rfc3339("2024-06-01T12:00:00.Z"), None);
}

#[test]
fn rfc3339_offsets_convert_to_utc() {
    assert_eq!(
        parse_rfc3339("2024-01-01T00:30:00+05:30"),
        Some(dt(2023, 12, 31, 19, 0, 0))
    );
    assert_eq!(
        parse_rfc3339("2024-12-31T23:30:00-01:00"),
        Some(dt(2025, 1, 1, 0, 30, 0))
    );
    assert_eq!(
        parse_rfc3339("2024-03-01T00:00:00+00:01"),
        Some(dt(2024, 2, 29, 23, 59, 0))
    );
}

#[test]
fn rfc3339_rejects_bad_shapes() {
    assert_eq!(parse_rfc3339("2024-06-01 12:00:00Z"), None);
    assert_eq!(parse_rfc3339("2024-06-01T12:00:00"), None);
    assert_eq!(parse_rfc3339("2024-06-01T12:00:00+24:00"), None);
    assert_eq!(parse_rfc3339("2024-06-01T12:00:00+05:60"), None);
    assert_eq!(parse_rfc3339("2024-06-01T25:00:00Z"), None);
    assert_eq!(parse_rfc3339("2024-06-01T12:00:00Zx"), None);
}

#[test]
fn ordering_is_chronological() {
    let a = dt(2024, 5, 1, 10, 0, 0);
    let b = dt(2024, 5, 1, 10, 0, 1);
    let c = dt(2025, 1, 1, 0, 0, 0);
    assert!(a.is_before(&b));
    assert!(b.is_before(&c));
    assert!(!b.is_before(&a));
    assert!(!a.is_before(&a));
}

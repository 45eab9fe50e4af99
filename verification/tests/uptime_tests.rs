use uptime::duration::{decompose, format_duration};
use uptime::shorthand::parse_for_shorthand_time;
use uptime::ErrorKind;

#[test]
fn test_format_duration() {
    assert_eq!(format_duration(864000000).len() == 65, true);
    assert_eq!(
        format_duration(864000000)
            == String::from("27 years, 4 months, 16 days, 11 hours, 45 minutes, and 36 seconds"),
        true
    );
    println!("{}", format_duration(864000000));
    println!("len = {}", format_duration(864000000).len());
}

#[test]
fn test_format_duration_zero() {
    assert_eq!(format_duration(0), "0 seconds");
}

#[test]
fn test_format_duration_one_second() {
    assert_eq!(format_duration(1), "1 second");
}

#[test]
fn test_format_duration_one_minute_one_second() {
    assert_eq!(format_duration(61), "1 minute, and 1 second");
}

#[test]
fn test_format_duration_hour_minute_second() {
    assert_eq!(format_duration(3661), "1 hour, 1 minute, and 1 second");
}

#[test]
fn test_bridged_zero_hours() {
    // Days are present and seconds follow, so a literal "0 hour" clause
    // bridges the gap, singular because the plural check is `> 1`.
    assert_eq!(format_duration(86401), "1 day, 0 hour, and 1 second");
}

#[test]
fn test_bridged_zero_minutes() {
    assert_eq!(format_duration(3601), "1 hour, 0 minute, and 1 second");
}

#[test]
fn test_no_bridge_without_finer_unit() {
    assert_eq!(format_duration(86400), "1 day");
    assert_eq!(format_duration(3600), "1 hour");
}

#[test]
fn test_pluralization() {
    assert_eq!(format_duration(60), "1 minute");
    assert_eq!(format_duration(120), "2 minutes");
    assert_eq!(format_duration(63115200), "2 years");
    assert_eq!(format_duration(59), "59 seconds");
}

#[test]
fn test_conjunction_count() {
    assert_eq!(format_duration(1).matches("and ").count(), 0);
    assert_eq!(format_duration(61).matches("and ").count(), 1);
    assert_eq!(format_duration(864000000).matches("and ").count(), 1);
}

#[test]
fn test_no_stray_separators_large_input() {
    let p = format_duration(u64::MAX);
    assert!(p.chars().next().unwrap().is_ascii_digit());
    assert!(!p.ends_with(", "));
    assert!(!p.ends_with(' '));
    assert!(!p.ends_with(','));
    assert!(!p.starts_with(", "));
}

#[test]
fn test_decompose_round_trip() {
    for s in [0u64, 1, 59, 60, 61, 3599, 3600, 86399, 86400, 864000000, 9999999999, u64::MAX] {
        let u = decompose(s);
        let sum = u
            .years
            .checked_mul(31557600)
            .unwrap()
            .checked_add(u.months * 2630016)
            .unwrap()
            .checked_add(u.days * 86400)
            .unwrap()
            .checked_add(u.hours * 3600)
            .unwrap()
            .checked_add(u.minutes * 60)
            .unwrap()
            .checked_add(u.seconds)
            .unwrap();
        assert_eq!(sum, s);
    }
}

#[test]
fn test_decompose_exact_fields() {
    let u = decompose(864000000);
    assert_eq!(u.years, 27);
    assert_eq!(u.months, 4);
    assert_eq!(u.days, 16);
    assert_eq!(u.hours, 11);
    assert_eq!(u.minutes, 45);
    assert_eq!(u.seconds, 36);
}

#[test]
fn test_shorthand_full_phrase() {
    let full = String::from("27 years, 4 months, 16 days, 11 hours, 45 minutes, and 36 seconds");
    // "month" has no abbreviation; "and" and the numerals stay untouched.
    assert_eq!(
        parse_for_shorthand_time(full),
        "27 y, 4 months, 16 d, 11 h, 45 m, and 36 s"
    );
}

#[test]
fn test_shorthand_singular() {
    assert_eq!(
        parse_for_shorthand_time(String::from("1 year, and 1 day")),
        "1 y, and 1 d"
    );
    assert_eq!(
        parse_for_shorthand_time(String::from("1 hour, 1 minute, and 1 second")),
        "1 h, 1 m, and 1 s"
    );
}

#[test]
fn test_shorthand_idempotent() {
    for s in [0u64, 1, 61, 3661, 86401, 864000000, u64::MAX] {
        let once = parse_for_shorthand_time(format_duration(s));
        let twice = parse_for_shorthand_time(once.clone());
        assert_eq!(twice, once);
    }
}

#[test]
fn test_uptime_entry_point() {
    assert_eq!(uptime::uptime(61, false), "1 minute, and 1 second");
    assert_eq!(uptime::uptime(61, true), "1 m, and 1 s");
    assert_eq!(uptime::uptime(0, false), "0 seconds");
    assert_eq!(uptime::uptime(0, true), "0 s");
}

#[test]
fn test_error_kind_message() {
    let e = ErrorKind::SystemQueryFailed;
    assert_eq!(e.message(), "system uptime query failed");
    assert_eq!(e, ErrorKind::SystemQueryFailed);
}

use aurora_backend::uptime::decimal_text;
use aurora_backend::uptime::format_uptime;

#[test]
fn under_a_minute_is_just_now() {
    assert_eq!(format_uptime(0), "just now");
    assert_eq!(format_uptime(59), "just now");
}

#[test]
fn singular_units() {
    assert_eq!(format_uptime(60), "1 minute");
    assert_eq!(format_uptime(3600), "1 hour");
    assert_eq!(format_uptime(86400), "1 day");
    assert_eq!(format_uptime(90061), "1 day, 1 hour, 1 minute");
}

#[test]
fn plural_units() {
    assert_eq!(format_uptime(2 * 86400 + 2 * 3600 + 120), "2 days, 2 hours, 2 minutes");
    assert_eq!(format_uptime(10 * 86400 + 5 * 60 + 59), "10 days, 5 minutes");
}

#[test]
fn largest_uptime() {
    assert_eq!(format_uptime(u64::MAX), "213503982334601 days, 7 hours");
}

#[test]
fn decimal_digits() {
    assert_eq!(decimal_text(0), "0");
    assert_eq!(decimal_text(907), "907");
    assert_eq!(decimal_text(u64::MAX), u64::MAX.to_string());
}

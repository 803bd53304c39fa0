use timetracker::timefmt::format_duration;

#[test]
fn one_hour_one_minute_one_second() {
    assert_eq!(format_duration(3661), "01:01:01");
}

#[test]
fn zero_seconds() {
    assert_eq!(format_duration(0), "00:00:00");
}

#[test]
fn under_a_minute() {
    assert_eq!(format_duration(59), "00:00:59");
}

#[test]
fn exactly_one_hour() {
    assert_eq!(format_duration(3600), "01:00:00");
}

#[test]
fn last_second_of_a_day() {
    assert_eq!(format_duration(86399), "23:59:59");
}

#[test]
fn hours_run_past_twenty_four() {
    assert_eq!(format_duration(90061), "25:01:01");
}

#[test]
fn hour_field_widens_past_two_digits() {
    assert_eq!(format_duration(100 * 3600 + 61), "100:01:01");
}

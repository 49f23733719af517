use countdown::clock::format_time;

#[test]
fn under_an_hour() {
    assert_eq!(format_time(0), "00:00");
    assert_eq!(format_time(5), "00:05");
    assert_eq!(format_time(59), "00:59");
    assert_eq!(format_time(60), "01:00");
    assert_eq!(format_time(61), "01:01");
    assert_eq!(format_time(1800), "30:00");
    assert_eq!(format_time(3599), "59:59");
}

#[test]
fn hours() {
    assert_eq!(format_time(3600), "1:00:00");
    assert_eq!(format_time(5400), "1:30:00");
    assert_eq!(format_time(3661), "1:01:01");
    assert_eq!(format_time(36000), "10:00:00");
    assert_eq!(format_time(359999), "99:59:59");
    assert_eq!(format_time(360000), "100:00:00");
}

#[test]
fn largest_value() {
    let secs = u64::MAX;
    let expected = format!("{}:{:02}:{:02}", secs / 3600, (secs % 3600) / 60, secs % 60);
    assert_eq!(format_time(secs), expected);
}

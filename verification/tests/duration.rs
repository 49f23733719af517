use countdown::duration::{parse_duration, parse_would_overflow};

#[test]
fn plain_number_is_minutes() {
    assert_eq!(parse_duration("45"), Some(2700));
    assert_eq!(parse_duration("1"), Some(60));
    assert_eq!(parse_duration("+5"), Some(300));
    assert_eq!(parse_duration("007"), Some(420));
}

#[test]
fn zero_as_plain_number_is_accepted() {
    assert_eq!(parse_duration("0"), Some(0));
}

#[test]
fn unit_sequences() {
    assert_eq!(parse_duration("30m"), Some(1800));
    assert_eq!(parse_duration("1h30m"), Some(5400));
    assert_eq!(parse_duration("90s"), Some(90));
    assert_eq!(parse_duration("2H"), Some(7200));
    assert_eq!(parse_duration("1h1m1s"), Some(3661));
    assert_eq!(parse_duration("1M30S"), Some(90));
    assert_eq!(parse_duration("10s10s"), Some(20));
}

#[test]
fn trailing_digits_are_minutes() {
    assert_eq!(parse_duration("1h30"), Some(5400));
    assert_eq!(parse_duration("10s2"), Some(130));
}

#[test]
fn surrounding_white_space_is_ignored() {
    assert_eq!(parse_duration("  45 "), Some(2700));
    assert_eq!(parse_duration("\t1h30m\n"), Some(5400));
    assert_eq!(parse_duration("\u{3000}10s\u{a0}"), Some(10));
}

#[test]
fn rejected_inputs() {
    assert_eq!(parse_duration(""), None);
    assert_eq!(parse_duration("   "), None);
    assert_eq!(parse_duration("0m"), None);
    assert_eq!(parse_duration("0h0m0s"), None);
    assert_eq!(parse_duration("m"), None);
    assert_eq!(parse_duration("h30m"), None);
    assert_eq!(parse_duration("1x"), None);
    assert_eq!(parse_duration("1h 30m"), None);
    assert_eq!(parse_duration("-5"), None);
    assert_eq!(parse_duration("+"), None);
    assert_eq!(parse_duration("1.5"), None);
    assert_eq!(parse_duration("1hh"), None);
}

#[test]
fn numbers_past_u64_are_rejected_not_overflowed() {
    assert!(!parse_would_overflow("99999999999999999999"));
    assert_eq!(parse_duration("99999999999999999999"), None);
    assert!(!parse_would_overflow("99999999999999999999s"));
    assert_eq!(parse_duration("99999999999999999999s"), None);
}

#[test]
fn overflowing_totals_are_detected() {
    // u64::MAX / 60 = 307445734561825860
    assert!(!parse_would_overflow("307445734561825860"));
    assert_eq!(parse_duration("307445734561825860"), Some(307445734561825860 * 60));
    assert!(parse_would_overflow("307445734561825861"));
    // u64::MAX / 3600 = 5124095576030431
    assert!(!parse_would_overflow("5124095576030431h"));
    assert!(parse_would_overflow("5124095576030432h"));
    assert!(parse_would_overflow("18446744073709551615s1s"));
    assert!(!parse_would_overflow("18446744073709551615s"));
    assert_eq!(parse_duration("18446744073709551615s"), Some(u64::MAX));
    // the overflow happens before the bad letter is reached
    assert!(parse_would_overflow("5124095576030432hx"));
    assert!(!parse_would_overflow("1x5124095576030432h"));
    assert!(!parse_would_overflow("30m"));
}

#[test]
fn unit_sequences_add_up() {
    let a = parse_duration("1h").unwrap();
    let b = parse_duration("30m").unwrap();
    assert_eq!(parse_duration("1h30m"), Some(a + b));
    let c = parse_duration("15s").unwrap();
    assert_eq!(parse_duration("30m15s"), Some(b + c));
}

#[test]
fn letter_case_is_ignored() {
    for s in ["1H30M", "90S", "2h15M10s", "1X", " 5M ", "45", "1h30", "0H", "Hm"] {
        assert_eq!(parse_duration(s), parse_duration(&s.to_ascii_lowercase()), "{}", s);
        assert_eq!(parse_would_overflow(s), parse_would_overflow(&s.to_ascii_lowercase()), "{}", s);
    }
    assert!(parse_would_overflow("5124095576030432H"));
}

use aurora_core::xmltv::parse_time;

#[test]
fn epoch_is_correct() {
    assert_eq!(parse_time("19700101000000 +0000"), Some(0));
    assert_eq!(parse_time("20240115120000 +0000"), Some(1_705_320_000));
}

/// `1..=31` accepted 31 February, and `days_from_civil` happily answers for it —
/// so a guide with a typo silently produced a programme three days later, sitting
/// in the middle of real ones rather than being skipped and counted.
#[test]
fn an_impossible_date_is_rejected_rather_than_rolled_over() {
    for bad in [
        "20250231000000 +0000", // February has 28 days in 2025
        "20250230000000 +0000",
        "20250431000000 +0000", // April has 30
        "20250631000000 +0000",
        "20250931000000 +0000",
        "20251131000000 +0000",
        "20250100000000 +0000", // day zero
        "20251301000000 +0000", // month thirteen
        "20250001000000 +0000", // month zero
    ] {
        assert_eq!(parse_time(bad), None, "{bad} should not parse");
    }
}

#[test]
fn leap_years_are_worked_out_rather_than_guessed() {
    // Divisible by four: a leap year.
    assert!(parse_time("20240229120000 +0000").is_some());
    // Not divisible by four.
    assert_eq!(parse_time("20250229120000 +0000"), None);
    // Divisible by 100 but not 400: not a leap year.
    assert_eq!(parse_time("19000229120000 +0000"), None);
    // Divisible by 400: a leap year.
    assert!(parse_time("20000229120000 +0000").is_some());
}

#[test]
fn the_last_day_of_every_month_still_parses() {
    for (date, _) in [
        ("20250131", 31),
        ("20250228", 28),
        ("20250331", 31),
        ("20250430", 30),
        ("20250630", 30),
        ("20250930", 30),
        ("20251130", 30),
        ("20251231", 31),
    ] {
        assert!(
            parse_time(&format!("{date}120000 +0000")).is_some(),
            "{date} is a real date"
        );
    }
}

#[test]
fn applies_the_utc_offset() {
    let utc = parse_time("20240115120000 +0000").unwrap();
    assert_eq!(parse_time("20240115130000 +0100"), Some(utc));
    assert_eq!(parse_time("20240115070000 -0500"), Some(utc));
}

#[test]
fn accepts_short_and_colon_forms() {
    assert!(parse_time("20240115").is_some());
    assert!(parse_time("202401151200").is_some());
    assert_eq!(
        parse_time("20240115130000 +01:00"),
        parse_time("20240115120000 +0000")
    );
}

#[test]
fn rejects_nonsense_timestamps() {
    assert_eq!(parse_time(""), None);
    assert_eq!(parse_time("not-a-time"), None);
    assert_eq!(parse_time("20241332000000"), None);
}

#[test]
fn an_offset_is_taken_off_or_added_as_its_sign_says() {
    let u = parse_time("20240115120000").unwrap();
    assert_eq!(parse_time("20240115120000 +0100"), Some(u - 3600));
    assert_eq!(parse_time("20240115120000 -0530"), Some(u + 5 * 3600 + 30 * 60));
    assert_eq!(parse_time("20240115120000 +01:00"), parse_time("20240115120000 +0100"));
    assert_eq!(parse_time("20240115120000 +0000"), Some(u));
    assert_eq!(parse_time("20240115130000 +0100"), Some(1_705_320_000));
    assert_eq!(parse_time("20240115070000 -0500"), Some(1_705_320_000));
}

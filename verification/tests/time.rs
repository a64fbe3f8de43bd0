use wiz_cli::time::{format_timestamp, parse_duration, seconds_to_timestamp, unix_now};

#[test]
fn formats_known_timestamps() {
    assert_eq!(format_timestamp(0), "1970-01-01T00:00:00Z");
    assert_eq!(format_timestamp(1_700_000_000), "2023-11-14T22:13:20Z");
    assert_eq!(format_timestamp(1_709_164_800), "2024-02-29T00:00:00Z");
}

#[test]
fn parses_supported_durations() {
    assert_eq!(parse_duration("30m"), Ok(1_800));
    assert_eq!(parse_duration("12h"), Ok(43_200));
    assert_eq!(parse_duration("7d"), Ok(604_800));
    assert_eq!(parse_duration("2w"), Ok(1_209_600));
}

#[test]
fn rejects_malformed_duration() {
    assert!(parse_duration("one day").is_err());
}

#[test]
fn rejects_zero_negative_empty_and_unknown_units() {
    let message = |input: &str| {
        format!("invalid duration '{input}'; use a positive value such as 30m, 12h, 7d, or 2w")
    };
    assert_eq!(parse_duration("0d"), Err(message("0d")));
    assert_eq!(parse_duration("-3h"), Err(message("-3h")));
    assert_eq!(parse_duration(""), Err(message("")));
    assert_eq!(parse_duration("5y"), Err(message("5y")));
    assert_eq!(parse_duration("d"), Err(message("d")));
    assert_eq!(parse_duration("+2m"), Ok(120));
}

#[test]
fn refuses_a_duration_that_overflows() {
    assert_eq!(
        parse_duration("9223372036854775807w"),
        Err("duration '9223372036854775807w' is too large".to_string())
    );
    assert!(parse_duration("99999999999999999999d").is_err());
}

#[test]
fn formats_before_the_epoch_and_far_years() {
    assert_eq!(format_timestamp(-1), "1969-12-31T23:59:59Z");
    assert_eq!(format_timestamp(951_782_400), "2000-02-29T00:00:00Z");
    assert_eq!(format_timestamp(-62_135_596_800), "0001-01-01T00:00:00Z");
    assert_eq!(format_timestamp(253_402_300_800), "10000-01-01T00:00:00Z");
    assert_eq!(format_timestamp(-62_167_219_201), "-001-12-31T23:59:59Z");
}

#[test]
fn formats_the_extreme_timestamps_without_panicking() {
    assert!(format_timestamp(i64::MIN).ends_with("Z"));
    assert!(format_timestamp(i64::MAX).ends_with("Z"));
}

#[test]
fn converts_clock_seconds() {
    assert_eq!(seconds_to_timestamp(42), Ok(42));
    assert_eq!(
        seconds_to_timestamp(u64::MAX),
        Err("current Unix timestamp is too large".to_string())
    );
    assert!(unix_now().unwrap() > 1_600_000_000);
}

#[test]
fn formats_only_real_dates() {
    assert_eq!(format_timestamp(1_709_251_200), "2024-03-01T00:00:00Z");
    assert_eq!(format_timestamp(951_782_400), "2000-02-29T00:00:00Z");
    assert_eq!(format_timestamp(4_107_456_000), "2100-02-28T00:00:00Z");
    assert_eq!(format_timestamp(4_107_542_400), "2100-03-01T00:00:00Z");
    assert_eq!(format_timestamp(-2_203_891_200), "1900-03-01T00:00:00Z");
    assert_eq!(format_timestamp(-2_203_891_201), "1900-02-28T23:59:59Z");
}

#[test]
fn rejects_a_duration_ending_in_a_wide_character() {
    assert_eq!(
        parse_duration("5é"),
        Err("invalid duration '5é'; use a positive value such as 30m, 12h, 7d, or 2w".to_string())
    );
    assert!(parse_duration("é").is_err());
}

#[test]
fn timestamps_of_four_digit_years_are_twenty_characters() {
    assert_eq!(format_timestamp(253_402_300_799), "9999-12-31T23:59:59Z");
    assert_eq!(format_timestamp(-1), "1969-12-31T23:59:59Z");
    for t in [0i64, 86_399, 1_700_000_000, 253_402_300_799] {
        assert_eq!(format_timestamp(t).len(), 20);
    }
}

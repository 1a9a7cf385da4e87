use weathercast::fixed::{celsius_to_fahrenheit, fahrenheit_to_celsius, mps_to_kmh, mps_to_mph};
use weathercast::text::{parse_decimal_milli, parse_hhmm, parse_percent_milli, parse_ymd};
use weathercast::timerange::{TimeRange, TimeRangeError};

#[test]
fn decimal_parsing_in_milli_units() {
    assert_eq!(parse_decimal_milli("0"), Some(0));
    assert_eq!(parse_decimal_milli("12"), Some(12_000));
    assert_eq!(parse_decimal_milli("-3"), Some(-3_000));
    assert_eq!(parse_decimal_milli("12.5"), Some(12_500));
    assert_eq!(parse_decimal_milli("12.345"), Some(12_345));
    assert_eq!(parse_decimal_milli("-0.25"), Some(-250));
    // digits past the stored resolution are ignored
    assert_eq!(parse_decimal_milli("1.23456"), Some(1_234));
    assert_eq!(parse_decimal_milli("999999999"), Some(999_999_999_000));
}

#[test]
fn decimal_rejections() {
    assert_eq!(parse_decimal_milli(""), None);
    assert_eq!(parse_decimal_milli("-"), None);
    assert_eq!(parse_decimal_milli("12."), None);
    assert_eq!(parse_decimal_milli(".5"), None);
    assert_eq!(parse_decimal_milli("1e3"), None);
    assert_eq!(parse_decimal_milli("1 2"), None);
    assert_eq!(parse_decimal_milli("1000000000"), None);
}

#[test]
fn time_parsing() {
    assert_eq!(parse_hhmm("00:00"), Some(0));
    assert_eq!(parse_hhmm("08:30"), Some(8 * 60 + 30));
    assert_eq!(parse_hhmm("23:59"), Some(23 * 60 + 59));
    assert_eq!(parse_hhmm("24:00"), None);
    assert_eq!(parse_hhmm("12:60"), None);
    assert_eq!(parse_hhmm("8:00"), None);
    assert_eq!(parse_hhmm("ab:cd"), None);
}

#[test]
fn date_parsing_validates_the_calendar() {
    let d = parse_ymd("2023-05-01").unwrap();
    assert_eq!((d.year, d.month, d.day), (2023, 5, 1));
    assert!(parse_ymd("2024-02-29").is_some());
    assert!(parse_ymd("2023-02-29").is_none());
    assert!(parse_ymd("2100-02-29").is_none());
    assert!(parse_ymd("2000-02-29").is_some());
    assert!(parse_ymd("2023-13-01").is_none());
    assert!(parse_ymd("2023-00-01").is_none());
    assert!(parse_ymd("2023-04-31").is_none());
    assert!(parse_ymd("2023-4-1").is_none());
    assert!(parse_ymd("yesterday").is_none());
}

#[test]
fn percent_fields() {
    assert_eq!(parse_percent_milli("95%", false), Some(95_000));
    assert_eq!(parse_percent_milli(" 95% ", false), Some(95_000));
    // a trailing marker-less field reads as zero
    assert_eq!(parse_percent_milli("95", false), Some(0));
    assert_eq!(parse_percent_milli("", false), Some(0));
    // the below-threshold marker reads as zero only where allowed
    assert_eq!(parse_percent_milli("&lt;5%", true), Some(0));
    assert_eq!(parse_percent_milli("&lt;5%", false), None);
    assert_eq!(parse_percent_milli("wet%", true), None);
}

#[test]
fn temperature_conversion_values() {
    assert_eq!(celsius_to_fahrenheit(0), 32_000);
    assert_eq!(celsius_to_fahrenheit(12_500), 54_500);
    assert_eq!(celsius_to_fahrenheit(-40_000), -40_000);
    assert_eq!(fahrenheit_to_celsius(32_000), 0);
}

#[test]
fn temperature_round_trip_recovers_celsius() {
    for c in [-40_000i64, -3_210, 0, 1, 999, 12_500, 100_000] {
        assert_eq!(fahrenheit_to_celsius(celsius_to_fahrenheit(c)), c);
    }
}

#[test]
fn speed_conversion_values() {
    assert_eq!(mps_to_kmh(5_000), 18_000);
    assert_eq!(mps_to_mph(5_000), 11_185);
    assert_eq!(mps_to_kmh(1_000), 3_600);
    assert_eq!(mps_to_mph(1_000), 2_237);
}

#[test]
fn time_range_parsing() {
    let tr = TimeRange::from_str("0:3:8").unwrap();
    assert_eq!((tr.start, tr.step, tr.count), (0, 3, 8));
    let tr = TimeRange::from_str("23:0:24").unwrap();
    assert_eq!((tr.start, tr.step, tr.count), (23, 0, 24));
    assert_eq!(TimeRange::from_str("12:4:4"), Err(TimeRangeError::OverlapsNextDay));
    assert_eq!(TimeRange::from_str("24:1:1"), Err(TimeRangeError::BadFormat));
    assert_eq!(TimeRange::from_str("1:25:1"), Err(TimeRangeError::BadFormat));
    assert_eq!(TimeRange::from_str("0:3"), Err(TimeRangeError::BadFormat));
    assert_eq!(TimeRange::from_str("a:b:c"), Err(TimeRangeError::BadFormat));
    assert_eq!(TimeRange::from_str(""), Err(TimeRangeError::BadFormat));
}

#[test]
fn time_range_enumerates_minutes() {
    let tr = TimeRange::from_str("0:4:6").unwrap();
    let times = tr.times();
    assert_eq!(times, vec![0, 240, 480, 720, 960, 1200]);
    let tr = TimeRange::from_str("9:2:0").unwrap();
    assert!(tr.times().is_empty());
}

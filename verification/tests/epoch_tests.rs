//! Epoch arithmetic and epoch-string parsing.

use gnss_constellation::epoch::day_of_year;
use gnss_constellation::epoch::doy_and_year_to_unix;
use gnss_constellation::epoch::is_leap_year;
use gnss_constellation::epoch::parse_epoch;
use gnss_constellation::epoch::parse_epoch_doy;
use gnss_constellation::epoch::parse_epoch_iso;
use gnss_constellation::epoch::years_to_unix;
use gnss_constellation::epoch::ParsedEpoch;

/// Fractional day-of-year reconstructed from the integer fields.
fn frac_doy(e: &ParsedEpoch) -> f64 {
    e.doy as f64 + e.nanos_of_day as f64 / 86_400_000_000_000.0
}

#[test]
fn test_leap_year() {
    assert!(is_leap_year(2000));
    assert!(is_leap_year(2024));
    assert!(!is_leap_year(1900));
    assert!(!is_leap_year(2023));
}

#[test]
fn test_day_of_year() {
    // Jan 1 = day 1
    assert_eq!(day_of_year(2024, 1, 1), Some(1));
    // Mar 1 in leap year 2024: 31 (Jan) + 29 (Feb) + 1 = 61
    assert_eq!(day_of_year(2024, 3, 1), Some(61));
    // Mar 1 in non-leap year 2023: 31 + 28 + 1 = 60
    assert_eq!(day_of_year(2023, 3, 1), Some(60));
    // Dec 31 in non-leap year
    assert_eq!(day_of_year(2023, 12, 31), Some(365));
}

#[test]
fn test_day_of_year_bad_month() {
    assert_eq!(day_of_year(2024, 0, 1), None);
    assert_eq!(day_of_year(2024, 13, 1), None);
}

#[test]
fn test_years_to_unix() {
    // 1970 Jan 1 = Unix 0
    assert_eq!(years_to_unix(1970), Some(0));
    // 1971 Jan 1 = 365 days * 86400
    assert_eq!(years_to_unix(1971), Some(365 * 86400));
}

#[test]
fn test_years_to_unix_range() {
    assert_eq!(years_to_unix(1969), None);
    assert_eq!(years_to_unix(2101), None);
    // 2100 is in range and is not a leap year (century, not divisible by 400)
    assert!(years_to_unix(2100).is_some());
    assert!(!is_leap_year(2100));
    // 2024 Jan 1: 54 years, 13 of them leap
    assert_eq!(years_to_unix(2024), Some((54 * 365 + 13) * 86400));
}

#[test]
fn test_parse_epoch_doy() {
    // "2024-001.50000000" -> day 1.5 of 2024
    let result = parse_epoch("2024-001.50000000");
    assert!(result.is_some());
    let e = result.unwrap();
    assert_eq!(e.year2, 24);
    let doy = frac_doy(&e);
    assert!((doy - 1.5).abs() < 1e-6);
}

#[test]
fn test_parse_epoch_iso() {
    // "2024-01-15T12:00:00" -> Jan 15 noon = day 15.5
    let result = parse_epoch("2024-01-15T12:00:00");
    assert!(result.is_some());
    let e = result.unwrap();
    assert_eq!(e.year2, 24);
    // Jan 15 noon = day 15 + 0.5 = 15.5
    let doy = frac_doy(&e);
    assert!((doy - 15.5).abs() < 1e-6, "doy was {doy}");
}

#[test]
fn test_parse_epoch_doy_unix_value() {
    // Half a day past 2024-01-01 00:00:00 (Unix 1704067200)
    let e = parse_epoch("2024-001.50000000").unwrap();
    assert_eq!(e.unix_secs, 1704067200 + 43200);
    assert_eq!(e.unix_nanos, 0);
    assert_eq!(e.doy, 1);
    assert_eq!(e.nanos_of_day, 43_200_000_000_000);
}

#[test]
fn test_parse_epoch_doy_whole_day() {
    // No fractional part at all
    let e = parse_epoch("2024-001").unwrap();
    assert_eq!(e.unix_secs, 1704067200);
    assert_eq!(e.unix_nanos, 0);
    // Trailing dot with no digits reads the same way
    let d = parse_epoch("2024-002.").unwrap();
    assert_eq!(d.unix_secs, 1704067200 + 86400);
}

#[test]
fn test_parse_epoch_iso_unix_value() {
    // 2024-01-15 12:00:00 UTC = 1704067200 + 14*86400 + 43200
    let e = parse_epoch("2024-01-15T12:00:00").unwrap();
    assert_eq!(e.unix_secs, 1705320000);
    assert_eq!(e.unix_nanos, 0);
}

#[test]
fn test_parse_epoch_iso_fractional_seconds() {
    let e = parse_epoch("2024-01-15T12:00:00.500").unwrap();
    assert_eq!(e.unix_secs, 1705320000);
    assert_eq!(e.unix_nanos, 500_000_000);
}

#[test]
fn test_parse_epoch_iso_missing_seconds() {
    // "HH:MM" reads as zero seconds
    let e = parse_epoch("2024-01-15T12:30").unwrap();
    assert_eq!(e.unix_secs, 1705320000 + 30 * 60);
}

#[test]
fn test_parse_epoch_trims_whitespace() {
    let a = parse_epoch("  2024-001.50000000  ").unwrap();
    let b = parse_epoch("2024-001.50000000").unwrap();
    assert_eq!(a, b);
}

#[test]
fn test_parse_epoch_rejects_malformed() {
    assert_eq!(parse_epoch(""), None);
    assert_eq!(parse_epoch("garbage"), None);
    assert_eq!(parse_epoch("2024"), None);
    // Two-digit years fall outside the supported 1970..=2100 span
    assert_eq!(parse_epoch("24-001.50000000"), None);
    assert_eq!(parse_epoch("1969-001.00000000"), None);
    assert_eq!(parse_epoch("2101-001.00000000"), None);
    // A date without a time is not a valid ISO epoch here
    assert_eq!(parse_epoch("2024-01-15"), None);
    // Month out of range
    assert_eq!(parse_epoch("2024-13-01T00:00:00"), None);
    assert_eq!(parse_epoch("2024-00-01T00:00:00"), None);
    // Non-digit fields
    assert_eq!(parse_epoch("2024-0x1.5"), None);
    assert_eq!(parse_epoch("2024-01-15Tnoon"), None);
}

#[test]
fn test_parse_epoch_doy_direct() {
    let e = parse_epoch_doy("2023-060.25000000").unwrap();
    assert_eq!(e.year2, 23);
    assert_eq!(e.doy, 60);
    // 2023-03-01 06:00:00
    assert_eq!(e.unix_secs, years_to_unix(2023).unwrap() + 59 * 86400 + 21600);
}

#[test]
fn test_parse_epoch_iso_direct() {
    let e = parse_epoch_iso("2000-02-29T23:59:59").unwrap();
    assert_eq!(e.year2, 0);
    assert_eq!(e.doy, 60);
    assert_eq!(e.unix_secs, years_to_unix(2000).unwrap() + 59 * 86400 + 86399);
    // The day-of-year grammar is not accepted by the ISO entry point
    assert_eq!(parse_epoch_iso("2024-001.50000000"), None);
}

#[test]
fn test_doy_and_year_to_unix_values() {
    // Day 1 at midnight is the year boundary itself
    assert_eq!(doy_and_year_to_unix(2024, 1, 0), Some((1704067200, 0)));
    // A nanosecond remainder is split off the whole seconds
    assert_eq!(
        doy_and_year_to_unix(2024, 1, 1_500_000_000),
        Some((1704067201, 500_000_000))
    );
    assert_eq!(doy_and_year_to_unix(1969, 1, 0), None);
    assert_eq!(doy_and_year_to_unix(2101, 1, 0), None);
}

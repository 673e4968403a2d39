//! The date cascade and the spreadsheet serial-date epoch.

use halo_action_importer::textparse::{parse_action_date, parse_u32_text};
use halo_action_importer::datetime::{Timestamp, serial_to_timestamp, to_utc};

#[test]
fn date_cascade_agrees_across_accepted_shapes() {
    let a = parse_action_date("2024-01-05T10:00:00.500Z").unwrap().unwrap();
    let b = parse_action_date("2024-01-05T10:00:00").unwrap().unwrap();
    let c = parse_action_date("2024-01-05 10:00:00").unwrap().unwrap();
    let expected = Timestamp { year: 2024, month: 1, day: 5, hour: 10, minute: 0, second: 0 };
    assert_eq!(a, expected);
    assert_eq!(b, expected);
    assert_eq!(c, expected);
}

#[test]
fn blank_date_is_no_timestamp_not_an_error() {
    assert_eq!(parse_action_date(""), Ok(None));
    assert_eq!(parse_action_date("   "), Ok(None));
    assert_eq!(parse_action_date("\t \n"), Ok(None));
}

#[test]
fn malformed_dates_are_errors() {
    assert!(parse_action_date("2024-13-05T10:00:00").is_err());
    assert!(parse_action_date("2024-02-30T10:00:00").is_err());
    assert!(parse_action_date("2024-01-05T24:00:00").is_err());
    assert!(parse_action_date("05/01/2024").is_err());
    assert!(parse_action_date("2024-01-05").is_err());
    assert!(parse_action_date("2024-01-05T10:00").is_err());
}

#[test]
fn date_cascade_strips_zone_markers_and_whitespace() {
    let expected = Timestamp { year: 2024, month: 2, day: 29, hour: 23, minute: 59, second: 59 };
    let b = parse_action_date("  2024-02-29 23:59:59Z ").unwrap().unwrap();
    assert_eq!(b, expected);
    // every trailing Z is stripped first, then every trailing z
    let c = parse_action_date("2024-02-29 23:59:59zZ").unwrap().unwrap();
    assert_eq!(c, expected);
    // a Z guarded by a later z survives the stripping and spoils the shape
    assert!(parse_action_date("2024-02-29 23:59:59Zz2").is_err());
}

#[test]
fn serial_date_matches_the_epoch() {
    // 45000 days past 1899-12-30, plus half a day.
    let t = serial_to_timestamp(45000, 43200).unwrap();
    assert_eq!(t, Timestamp { year: 2023, month: 3, day: 15, hour: 12, minute: 0, second: 0 });
}

#[test]
fn serial_epoch_base_cases() {
    assert_eq!(
        serial_to_timestamp(0, 0).unwrap(),
        Timestamp { year: 1899, month: 12, day: 30, hour: 0, minute: 0, second: 0 }
    );
    assert_eq!(
        serial_to_timestamp(2, 0).unwrap(),
        Timestamp { year: 1900, month: 1, day: 1, hour: 0, minute: 0, second: 0 }
    );
    assert_eq!(
        serial_to_timestamp(2958465, 86399).unwrap(),
        Timestamp { year: 9999, month: 12, day: 31, hour: 23, minute: 59, second: 59 }
    );
    assert!(serial_to_timestamp(2958466, 0).is_none());
    assert!(serial_to_timestamp(-1, 0).is_none());
    assert!(serial_to_timestamp(1, 86400).is_none());
}

#[test]
fn utc_shift_adds_seven_hours() {
    let t = Timestamp { year: 2024, month: 2, day: 29, hour: 18, minute: 15, second: 3 };
    let u = to_utc(&t).unwrap();
    assert_eq!(u, Timestamp { year: 2024, month: 3, day: 1, hour: 1, minute: 15, second: 3 });
    let last = Timestamp { year: 9999, month: 12, day: 31, hour: 17, minute: 0, second: 0 };
    assert!(to_utc(&last).is_none());
}

#[test]
fn unsigned_parse_accepts_plus_and_rejects_overflow() {
    assert_eq!(parse_u32_text("123"), Some(123));
    assert_eq!(parse_u32_text("+123"), Some(123));
    assert_eq!(parse_u32_text("4294967295"), Some(u32::MAX));
    assert_eq!(parse_u32_text("4294967296"), None);
    assert_eq!(parse_u32_text(""), None);
    assert_eq!(parse_u32_text("+"), None);
    assert_eq!(parse_u32_text("12a"), None);
    assert_eq!(parse_u32_text(" 12"), None);
}

//! The canonical record: construction, defaults, and its JSON wire shape.

use halo_action_importer::record::{ActionId, ActionObject, default_outcome, default_is_import};
use halo_action_importer::wire::{render_record, submission_body};
use halo_action_importer::datetime::Timestamp;

#[test]
fn serialize_action_object() {
    let action_object = ActionObject::new(
        123,
        None,
        None,
        "testing..".to_string(),
        "tester".to_string(),
        ActionId::new("456".to_string()),
    );
    let custom_field_id: u32 = 42;
    let rendered = render_record(&action_object, custom_field_id).unwrap();
    let serialized: serde_json::Value = serde_json::from_str(&rendered).unwrap();
    let expected: serde_json::Value = serde_json::from_str(
        "{\"ticket_id\":123,\"actiondate\":null,\"note\":\"testing..\",\"outcome\":\"Imported Note\",\
         \"actionwho\":\"tester\",\"customfields\":[{\"id\":42,\"value\":\"456\"}],\"_isimport\":true}",
    )
    .unwrap();
    assert_eq!(serialized, expected);
}

#[test]
fn defaults_are_fixed() {
    assert_eq!(default_outcome(), "Imported Note");
    assert!(default_is_import());
    let a = ActionObject::new(
        1,
        None,
        None,
        "".to_string(),
        "w".to_string(),
        ActionId::new("9".to_string()),
    );
    assert_eq!(a.outcome, "Imported Note");
    assert!(a._isimport);
    assert_eq!(a.action_id(), "9");
}

#[test]
fn explicit_outcome_is_kept() {
    let a = ActionObject::new(
        1,
        None,
        Some("Resolved".to_string()),
        "n".to_string(),
        "w".to_string(),
        ActionId::new("9".to_string()),
    );
    assert_eq!(a.outcome, "Resolved");
}

#[test]
fn render_shifts_timestamp_to_utc() {
    let t = Timestamp { year: 2024, month: 1, day: 5, hour: 10, minute: 0, second: 0 };
    let a = ActionObject::new(
        7,
        Some(t),
        None,
        "n".to_string(),
        "w".to_string(),
        ActionId::new("1".to_string()),
    );
    let rendered = render_record(&a, 5).unwrap();
    let v: serde_json::Value = serde_json::from_str(&rendered).unwrap();
    assert_eq!(
        v.get("actiondate").unwrap().as_str().unwrap(),
        "2024-01-05T17:00:00.000Z"
    );
}

#[test]
fn render_shift_crosses_midnight_and_year() {
    let t = Timestamp { year: 2023, month: 12, day: 31, hour: 20, minute: 30, second: 1 };
    let a = ActionObject::new(
        7,
        Some(t),
        None,
        "n".to_string(),
        "w".to_string(),
        ActionId::new("1".to_string()),
    );
    let rendered = render_record(&a, 5).unwrap();
    let v: serde_json::Value = serde_json::from_str(&rendered).unwrap();
    assert_eq!(
        v.get("actiondate").unwrap().as_str().unwrap(),
        "2024-01-01T03:30:01.000Z"
    );
}

#[test]
fn render_escapes_note_text() {
    let a = ActionObject::new(
        7,
        None,
        None,
        "a \"quoted\" line\nand a\ttab \\ done".to_string(),
        "w".to_string(),
        ActionId::new("1".to_string()),
    );
    let rendered = render_record(&a, 5).unwrap();
    let v: serde_json::Value = serde_json::from_str(&rendered).unwrap();
    assert_eq!(
        v.get("note").unwrap().as_str().unwrap(),
        "a \"quoted\" line\nand a\ttab \\ done"
    );
}

#[test]
fn render_rejects_date_past_representable_years() {
    let t = Timestamp { year: 9999, month: 12, day: 31, hour: 23, minute: 0, second: 0 };
    let a = ActionObject::new(
        7,
        Some(t),
        None,
        "n".to_string(),
        "w".to_string(),
        ActionId::new("1".to_string()),
    );
    assert!(render_record(&a, 5).is_err());
}

#[test]
fn submission_body_is_single_element_batch() {
    let a = ActionObject::new(
        2997,
        None,
        None,
        "rusty note".to_string(),
        "rusty who".to_string(),
        ActionId::new("897".to_string()),
    );
    let body = submission_body(&a, 11).unwrap();
    let v: serde_json::Value = serde_json::from_str(&body).unwrap();
    let arr = v.as_array().unwrap();
    assert_eq!(arr.len(), 1);
    assert_eq!(arr[0].get("ticket_id").unwrap().as_u64().unwrap(), 2997);
    assert_eq!(
        arr[0].get("customfields").unwrap().as_array().unwrap()[0]
            .get("value")
            .unwrap()
            .as_str()
            .unwrap(),
        "897"
    );
}

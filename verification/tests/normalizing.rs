//! The two adapters' row normalization: header aliases, typing heuristics,
//! blank rows, per-row errors, and determinism.

use halo_action_importer::normalize::{
    SheetCell, RowOutcome, RowError, FieldKind, normalize_sheet_row, normalize_delimited_row,
    canonical_field, is_date_header, is_numeric_header,
};
use halo_action_importer::delimited::normalize_delimited_text;
use halo_action_importer::datetime::Timestamp;

fn headers(names: &[&str]) -> Vec<String> {
    names.iter().map(|n| n.to_string()).collect()
}

fn text_cells(values: &[&str]) -> Vec<SheetCell> {
    values.iter().map(|v| SheetCell::Text(v.to_string())).collect()
}

#[test]
fn sheet_row_normalizes_with_aliased_headers() {
    let h = headers(&["RequestID", "ActionDate", "Note", "actionWho", "cfActionId"]);
    let c = text_cells(&["123", "2024-01-05T10:00:00", "hello", "who", "456"]);
    match normalize_sheet_row(&h, &c) {
        RowOutcome::Record(a) => {
            assert_eq!(a.ticket_id, 123);
            assert_eq!(
                a.actiondate,
                Some(Timestamp { year: 2024, month: 1, day: 5, hour: 10, minute: 0, second: 0 })
            );
            assert_eq!(a.note, "hello");
            assert_eq!(a.actionwho, "who");
            assert_eq!(a.action_id(), "456");
            assert_eq!(a.outcome, "Imported Note");
            assert!(a._isimport);
        },
        _ => panic!("expected a record"),
    }
}

#[test]
fn sheet_serial_text_in_date_column_becomes_timestamp() {
    let h = headers(&["requestid", "actiondate", "note", "actionwho", "cfactionid"]);
    let c = text_cells(&["1", "45000.5", "n", "w", "9"]);
    match normalize_sheet_row(&h, &c) {
        RowOutcome::Record(a) => {
            assert_eq!(
                a.actiondate,
                Some(Timestamp { year: 2023, month: 3, day: 15, hour: 12, minute: 0, second: 0 })
            );
        },
        _ => panic!("expected a record"),
    }
}

#[test]
fn sheet_numeric_cell_feeds_ticket_id() {
    let h = headers(&["requestid", "note", "actionwho", "cfactionid"]);
    let c = vec![
        SheetCell::Number { days: 0, secs: 0, whole: 777, text: "777".to_string() },
        SheetCell::Text("n".to_string()),
        SheetCell::Text("w".to_string()),
        SheetCell::Text("9".to_string()),
    ];
    match normalize_sheet_row(&h, &c) {
        RowOutcome::Record(a) => assert_eq!(a.ticket_id, 777),
        _ => panic!("expected a record"),
    }
}

#[test]
fn blank_sheet_row_is_silently_skipped() {
    let h = headers(&["requestid", "actiondate", "note"]);
    let c = vec![
        SheetCell::Empty,
        SheetCell::Text("   ".to_string()),
        SheetCell::Empty,
    ];
    assert!(matches!(normalize_sheet_row(&h, &c), RowOutcome::Blank));
    // a short row pads with empty cells and stays blank
    let c2: Vec<SheetCell> = Vec::new();
    assert!(matches!(normalize_sheet_row(&h, &c2), RowOutcome::Blank));
    // data beyond the headers does not make the row data
    let c3 = vec![
        SheetCell::Empty,
        SheetCell::Empty,
        SheetCell::Empty,
        SheetCell::Text("stray".to_string()),
    ];
    assert!(matches!(normalize_sheet_row(&h, &c3), RowOutcome::Blank));
}

#[test]
fn sheet_row_with_data_but_missing_fields_is_an_error() {
    let h = headers(&["requestid", "note"]);
    let c = text_cells(&["5", "hello"]);
    match normalize_sheet_row(&h, &c) {
        RowOutcome::Invalid(RowError::MissingField(FieldKind::ActionWho)) => {},
        other => panic!("unexpected outcome: {:?}", other),
    }
}

#[test]
fn sheet_duplicate_aliases_are_an_error_but_exact_repeats_keep_the_last() {
    let h = headers(&["note", "Note", "requestid", "actionwho", "cfactionid"]);
    let c = text_cells(&["a", "b", "1", "w", "9"]);
    match normalize_sheet_row(&h, &c) {
        RowOutcome::Invalid(RowError::DuplicateField(FieldKind::Note)) => {},
        other => panic!("unexpected outcome: {:?}", other),
    }
    let h2 = headers(&["note", "note", "requestid", "actionwho", "cfactionid"]);
    let c2 = text_cells(&["first", "second", "1", "w", "9"]);
    match normalize_sheet_row(&h2, &c2) {
        RowOutcome::Record(a) => assert_eq!(a.note, "second"),
        other => panic!("unexpected outcome: {:?}", other),
    }
}

#[test]
fn sheet_unparseable_ticket_text_is_an_error() {
    let h = headers(&["requestid", "note", "actionwho", "cfactionid"]);
    let c = text_cells(&["12x", "n", "w", "9"]);
    match normalize_sheet_row(&h, &c) {
        RowOutcome::Invalid(RowError::InvalidType(FieldKind::TicketId)) => {},
        other => panic!("unexpected outcome: {:?}", other),
    }
}

#[test]
fn sheet_bad_date_text_is_an_error_and_blank_date_is_none() {
    let h = headers(&["requestid", "actiondate", "note", "actionwho", "cfactionid"]);
    let bad = text_cells(&["1", "yesterday", "n", "w", "9"]);
    assert!(matches!(
        normalize_sheet_row(&h, &bad),
        RowOutcome::Invalid(RowError::InvalidDate)
    ));
    let blank = text_cells(&["1", "  ", "n", "w", "9"]);
    match normalize_sheet_row(&h, &blank) {
        RowOutcome::Record(a) => assert!(a.actiondate.is_none()),
        other => panic!("unexpected outcome: {:?}", other),
    }
}

#[test]
fn sheet_out_of_range_serial_in_date_cell_is_no_timestamp() {
    let h = headers(&["requestid", "actiondate", "note", "actionwho", "cfactionid"]);
    let c = vec![
        SheetCell::Text("1".to_string()),
        SheetCell::Number { days: 3000000, secs: 0, whole: 0, text: "3000000".to_string() },
        SheetCell::Text("n".to_string()),
        SheetCell::Text("w".to_string()),
        SheetCell::Text("9".to_string()),
    ];
    match normalize_sheet_row(&h, &c) {
        RowOutcome::Record(a) => assert!(a.actiondate.is_none()),
        other => panic!("unexpected outcome: {:?}", other),
    }
}

#[test]
fn normalization_is_deterministic_on_identical_rows() {
    let h = headers(&["requestid", "actiondate", "note", "actionwho", "cfactionid"]);
    let c = text_cells(&["1", "2024-01-05 10:00:00", "n", "w", "9"]);
    let first = normalize_sheet_row(&h, &c);
    let second = normalize_sheet_row(&h, &c);
    match (first, second) {
        (RowOutcome::Record(a), RowOutcome::Record(b)) => {
            assert_eq!(a.ticket_id, b.ticket_id);
            assert_eq!(a.actiondate, b.actiondate);
            assert_eq!(a.outcome, b.outcome);
            assert_eq!(a.note, b.note);
            assert_eq!(a.actionwho, b.actionwho);
            assert_eq!(a.action_id(), b.action_id());
        },
        _ => panic!("expected records both times"),
    }
}

#[test]
fn delimited_row_parses_ticket_and_import_flag_from_text() {
    let h = headers(&["ticket_id", "note", "actionwho", "action_id", "_isimport"]);
    let f = headers(&["42", "n", "w", "77", "false"]);
    let a = normalize_delimited_row(&h, &f).unwrap();
    assert_eq!(a.ticket_id, 42);
    assert!(!a._isimport);
    let bad = headers(&["x42", "n", "w", "77", "false"]);
    assert!(matches!(
        normalize_delimited_row(&h, &bad),
        Err(RowError::InvalidNumber(FieldKind::TicketId))
    ));
}

#[test]
fn delimited_ticket_accepts_hex_prefix() {
    let h = headers(&["ticket_id", "note", "actionwho", "action_id"]);
    let f = headers(&["0x1A", "n", "w", "77"]);
    let a = normalize_delimited_row(&h, &f).unwrap();
    assert_eq!(a.ticket_id, 26);
    let too_big = headers(&["0x100000000", "n", "w", "77"]);
    assert!(normalize_delimited_row(&h, &too_big).is_err());
}

#[test]
fn delimited_row_length_mismatch_is_an_error() {
    let h = headers(&["ticket_id", "note"]);
    let f = headers(&["42"]);
    assert!(matches!(normalize_delimited_row(&h, &f), Err(RowError::RowShape)));
}

#[test]
fn delimited_text_parses_quoted_fields() {
    let text = "ticket_id,note,actionwho,action_id\n1,\"a, quoted\nnote\",who,456\n";
    let rows = normalize_delimited_text(text).unwrap();
    assert_eq!(rows.len(), 1);
    match &rows[0] {
        RowOutcome::Record(a) => {
            assert_eq!(a.ticket_id, 1);
            assert_eq!(a.note, "a, quoted\nnote");
            assert_eq!(a.action_id(), "456");
        },
        other => panic!("unexpected outcome: {:?}", other),
    }
}

#[test]
fn delimited_text_reports_row_errors_without_aborting() {
    let text = "ticket_id,note,actionwho,action_id\nbad,n,w,1\n2,n,w,2\n";
    let rows = normalize_delimited_text(text).unwrap();
    assert_eq!(rows.len(), 2);
    assert!(matches!(rows[0], RowOutcome::Invalid(_)));
    assert!(matches!(rows[1], RowOutcome::Record(_)));
}

#[test]
fn header_tables_are_exact_and_case_folded() {
    assert_eq!(canonical_field("ticket_id"), Some(FieldKind::TicketId));
    assert_eq!(canonical_field("REQUESTID"), Some(FieldKind::TicketId));
    assert_eq!(canonical_field("cdactionId"), Some(FieldKind::ActionIdField));
    assert_eq!(canonical_field("Ticket_Id"), None);
    assert_eq!(canonical_field("_isimport"), Some(FieldKind::IsImport));
    assert!(is_date_header("ACTIONDATE"));
    assert!(is_date_header("Action_Date"));
    assert!(!is_date_header("date"));
    assert!(is_numeric_header("RequestId"));
    assert!(is_numeric_header("request_id"));
    assert!(!is_numeric_header("ticket_id"));
}

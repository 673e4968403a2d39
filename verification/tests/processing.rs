//! The orchestrator's sweep: skip decisions and per-file counts.

use halo_action_importer::idset::IdSet;
use halo_action_importer::normalize::{SheetCell, RowOutcome, normalize_sheet_row};
use halo_action_importer::process::{RecordPlan, plan_record, classify_rows, ProcessingStats};
use halo_action_importer::strings::format_number;

fn headers(names: &[&str]) -> Vec<String> {
    names.iter().map(|n| n.to_string()).collect()
}

fn record_row(existing_headers: &Vec<String>, ticket: &str, id: &str) -> RowOutcome {
    let cells = vec![
        SheetCell::Text(ticket.to_string()),
        SheetCell::Text("n".to_string()),
        SheetCell::Text("w".to_string()),
        SheetCell::Text(id.to_string()),
    ];
    normalize_sheet_row(existing_headers, &cells)
}

#[test]
fn known_identifier_skips_and_new_one_submits() {
    let mut existing = IdSet::new();
    existing.insert("456".to_string());
    assert_eq!(plan_record(&existing, "456"), RecordPlan::Skip);
    assert_eq!(plan_record(&existing, "789"), RecordPlan::Submit);
}

#[test]
fn three_records_one_known_one_new_one_blank() {
    let h = headers(&["requestid", "note", "actionwho", "cfactionid"]);
    let mut existing = IdSet::new();
    existing.insert("456".to_string());
    let rows = vec![
        record_row(&h, "1", "456"),
        record_row(&h, "2", "789"),
        normalize_sheet_row(&h, &vec![SheetCell::Empty, SheetCell::Empty, SheetCell::Empty, SheetCell::Empty]),
    ];
    assert!(matches!(rows[0], RowOutcome::Record(_)));
    assert!(matches!(rows[1], RowOutcome::Record(_)));
    assert!(matches!(rows[2], RowOutcome::Blank));
    let stats = classify_rows(&existing, &rows);
    // exactly one skip and exactly one would-be submission; the blank row
    // is excluded from both processed and failed counts
    assert_eq!(stats.processed, 2);
    assert_eq!(stats.skipped, 1);
    assert_eq!(stats.imported, 1);
    assert_eq!(stats.failed.len(), 0);
}

#[test]
fn row_errors_are_collected_without_counting_as_processed() {
    let h = headers(&["requestid", "note", "actionwho", "cfactionid"]);
    let existing = IdSet::new();
    let rows = vec![
        record_row(&h, "not a number", "1"),
        record_row(&h, "2", "2"),
    ];
    let stats = classify_rows(&existing, &rows);
    assert_eq!(stats.processed, 1);
    assert_eq!(stats.imported, 1);
    assert_eq!(stats.skipped, 0);
    assert_eq!(stats.failed.len(), 1);
    assert_eq!(stats.failed[0].0, "unknown");
}

#[test]
fn stats_note_methods_count_each_outcome() {
    let mut stats = ProcessingStats::new();
    stats.note_imported();
    stats.note_skipped();
    stats.note_skipped();
    stats.note_submit_failed("9".to_string(), "rejected".to_string());
    stats.note_row_failed("unknown".to_string(), "bad row".to_string());
    assert_eq!(stats.processed, 4);
    assert_eq!(stats.imported, 1);
    assert_eq!(stats.skipped, 2);
    assert_eq!(stats.failed.len(), 2);
    assert_eq!(stats.failed[0], ("9".to_string(), "rejected".to_string()));
}

#[test]
fn format_number_groups_thousands() {
    assert_eq!(format_number(0), "0");
    assert_eq!(format_number(7), "7");
    assert_eq!(format_number(999), "999");
    assert_eq!(format_number(1000), "1,000");
    assert_eq!(format_number(1234567), "1,234,567");
    assert_eq!(format_number(12345678), "12,345,678");
}

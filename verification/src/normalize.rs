//! The record normalizer: turns one raw tabular row — from the delimited-text
//! adapter or the spreadsheet adapter — into a canonical record, a per-row
//! error, or (for spreadsheets) a silent blank-row skip.
//!
//! Both adapters accept a fixed table of header spellings per logical field,
//! and coerce loosely-typed source values into the canonical shape.

use vstd::prelude::*;
use crate::datetime::{Timestamp, spec_serial_to_timestamp, serial_to_timestamp};
use crate::textparse::{
    trimmed, trim_chars, chars_of, u32_text_value, parse_u32_text, ticket_text_value,
    parse_ticket_text, serial_text_value,
    parse_serial_text, date_text_value, parse_date_fields, action_date_value, parse_action_date,
    lower, lower_chars, chars_eq_str,
};
use crate::record::{ActionObject, ActionId, RecordView, default_outcome_text, default_outcome};
use crate::strings::{int_dec, i64_to_string};

verus! {

/// The logical fields of a canonical record, one per column kind the
/// normalizer recognizes.
#[derive(Clone, Copy, PartialEq, Eq, Structural, Debug)]
pub enum FieldKind {
    TicketId,
    ActionDate,
    Outcome,
    Note,
    ActionWho,
    ActionIdField,
    IsImport,
}

/// Why one row failed to assemble into a canonical record.
#[derive(Clone, Copy, PartialEq, Eq, Structural, Debug)]
pub enum RowError {
    /// A required field has no column.
    MissingField(FieldKind),
    /// Two columns map to the same logical field.
    DuplicateField(FieldKind),
    /// A numeric field's text does not parse as an unsigned integer.
    InvalidNumber(FieldKind),
    /// A field's value has a type the field cannot take.
    InvalidType(FieldKind),
    /// A date field's text fits none of the accepted shapes.
    InvalidDate,
    /// The row has a different number of fields than the header row.
    RowShape,
    /// The row could not be read from the delimited text at all.
    Unreadable,
}

/// The fixed description of each row error.
pub open spec fn spec_row_error_text(e: RowError) -> Seq<char> {
    match e {
        RowError::MissingField(_) => "a required field has no column"@,
        RowError::DuplicateField(_) => "two columns map to the same field"@,
        RowError::InvalidNumber(_) => "a numeric field does not parse"@,
        RowError::InvalidType(_) => "a field holds a value of the wrong type"@,
        RowError::InvalidDate => "a date field fits no accepted shape"@,
        RowError::RowShape => "the row and the header row differ in length"@,
        RowError::Unreadable => "the row could not be read"@,
    }
}

impl RowError {
    /// A short description of the failure.
    pub fn describe(&self) -> (r: String)
        ensures r@ == spec_row_error_text(*self),
    {
        match self {
            RowError::MissingField(_) => "a required field has no column".to_owned(),
            RowError::DuplicateField(_) => "two columns map to the same field".to_owned(),
            RowError::InvalidNumber(_) => "a numeric field does not parse".to_owned(),
            RowError::InvalidType(_) => "a field holds a value of the wrong type".to_owned(),
            RowError::InvalidDate => "a date field fits no accepted shape".to_owned(),
            RowError::RowShape => "the row and the header row differ in length".to_owned(),
            RowError::Unreadable => "the row could not be read".to_owned(),
        }
    }
}

/// The exact header spellings accepted for each logical field.
pub open spec fn spec_canonical_field(h: Seq<char>) -> Option<FieldKind> {
    if h == "ticket_id"@ || h == "requestId"@ || h == "requestID"@ || h == "RequestId"@
        || h == "RequestID"@ || h == "requestid"@ || h == "REQUESTID"@ {
        Some(FieldKind::TicketId)
    } else if h == "actiondate"@ || h == "actionDate"@ || h == "ActionDate"@ || h == "ACTIONDATE"@ {
        Some(FieldKind::ActionDate)
    } else if h == "outcome"@ {
        Some(FieldKind::Outcome)
    } else if h == "note"@ || h == "Note"@ || h == "NOTE"@ {
        Some(FieldKind::Note)
    } else if h == "actionwho"@ || h == "actionWho"@ || h == "ActionWho"@ {
        Some(FieldKind::ActionWho)
    } else if h == "action_id"@ || h == "cfactionid"@ || h == "CFACTIONID"@ || h == "CfActionId"@
        || h == "cfActionId"@ || h == "CFactionId"@ || h == "CFActionID"@ || h == "cfactionId"@
        || h == "cfActionID"@ || h == "cfactionID"@ || h == "cdactionId"@ {
        Some(FieldKind::ActionIdField)
    } else if h == "_isimport"@ {
        Some(FieldKind::IsImport)
    } else {
        None
    }
}

/// Case-folded spellings that mark a spreadsheet column as date-typed.
pub open spec fn spec_is_date_header(h: Seq<char>) -> bool {
    lower(h) == "actiondate"@ || lower(h) == "action_date"@
}

/// Case-folded spellings that mark a spreadsheet column as numeric-typed.
pub open spec fn spec_is_numeric_header(h: Seq<char>) -> bool {
    lower(h) == "requestid"@ || lower(h) == "request_id"@
}

/// The logical field a header names, if any.
pub fn canonical_field(h: &str) -> (r: Option<FieldKind>)
    ensures r == spec_canonical_field(h@),
{
    let v = chars_of(h);
    if chars_eq_str(&v, "ticket_id") || chars_eq_str(&v, "requestId") || chars_eq_str(&v, "requestID")
        || chars_eq_str(&v, "RequestId") || chars_eq_str(&v, "RequestID")
        || chars_eq_str(&v, "requestid") || chars_eq_str(&v, "REQUESTID") {
        Some(FieldKind::TicketId)
    } else if chars_eq_str(&v, "actiondate") || chars_eq_str(&v, "actionDate")
        || chars_eq_str(&v, "ActionDate") || chars_eq_str(&v, "ACTIONDATE") {
        Some(FieldKind::ActionDate)
    } else if chars_eq_str(&v, "outcome") {
        Some(FieldKind::Outcome)
    } else if chars_eq_str(&v, "note") || chars_eq_str(&v, "Note") || chars_eq_str(&v, "NOTE") {
        Some(FieldKind::Note)
    } else if chars_eq_str(&v, "actionwho") || chars_eq_str(&v, "actionWho")
        || chars_eq_str(&v, "ActionWho") {
        Some(FieldKind::ActionWho)
    } else if chars_eq_str(&v, "action_id") || chars_eq_str(&v, "cfactionid")
        || chars_eq_str(&v, "CFACTIONID") || chars_eq_str(&v, "CfActionId")
        || chars_eq_str(&v, "cfActionId") || chars_eq_str(&v, "CFactionId")
        || chars_eq_str(&v, "CFActionID") || chars_eq_str(&v, "cfactionId")
        || chars_eq_str(&v, "cfActionID") || chars_eq_str(&v, "cfactionID")
        || chars_eq_str(&v, "cdactionId") {
        Some(FieldKind::ActionIdField)
    } else if chars_eq_str(&v, "_isimport") {
        Some(FieldKind::IsImport)
    } else {
        None
    }
}

/// Whether a spreadsheet header marks its column date-typed.
pub fn is_date_header(h: &str) -> (r: bool)
    ensures r == spec_is_date_header(h@),
{
    let v = chars_of(h);
    let l = lower_chars(&v);
    chars_eq_str(&l, "actiondate") || chars_eq_str(&l, "action_date")
}

/// Whether a spreadsheet header marks its column numeric-typed.
pub fn is_numeric_header(h: &str) -> (r: bool)
    ensures r == spec_is_numeric_header(h@),
{
    let v = chars_of(h);
    let l = lower_chars(&v);
    chars_eq_str(&l, "requestid") || chars_eq_str(&l, "request_id")
}

/// One spreadsheet cell, as plain values: what the grid loader read, with the
/// floating-point projections (whole days, seconds of day, saturated integer,
/// display text) computed at the boundary.
#[derive(Debug, Clone)]
pub enum SheetCell {
    /// An empty cell.
    Empty,
    /// A text cell.
    Text(String),
    /// A numeric cell: its serial-date reading, its reading as an unsigned
    /// integer (saturated), and its display text.
    Number { days: i64, secs: u32, whole: u32, text: String },
    /// An integer cell.
    Int(i64),
    /// A boolean cell.
    Bool(bool),
    /// A native date/time cell: its serial-date reading and display text.
    DateTime { days: i64, secs: u32, text: String },
    /// An ISO-formatted date/time cell.
    DateTimeIso(String),
    /// An ISO-formatted duration cell.
    DurationIso(String),
    /// An error cell, carrying its description.
    ErrorText(String),
}

/// The mathematical shape of a spreadsheet cell.
pub ghost enum CellView {
    Empty,
    Text(Seq<char>),
    Number { days: int, secs: int, whole: u32, text: Seq<char> },
    Int(int),
    Bool(bool),
    DateTime { days: int, secs: int, text: Seq<char> },
    DateTimeIso(Seq<char>),
    DurationIso(Seq<char>),
    ErrorText(Seq<char>),
}

impl View for SheetCell {
    type V = CellView;

    open spec fn view(&self) -> CellView {
        match self {
            SheetCell::Empty => CellView::Empty,
            SheetCell::Text(s) => CellView::Text(s@),
            SheetCell::Number { days, secs, whole, text } => CellView::Number {
                days: *days as int, secs: *secs as int, whole: *whole, text: text@,
            },
            SheetCell::Int(i) => CellView::Int(*i as int),
            SheetCell::Bool(b) => CellView::Bool(*b),
            SheetCell::DateTime { days, secs, text } => CellView::DateTime {
                days: *days as int, secs: *secs as int, text: text@,
            },
            SheetCell::DateTimeIso(s) => CellView::DateTimeIso(s@),
            SheetCell::DurationIso(s) => CellView::DurationIso(s@),
            SheetCell::ErrorText(s) => CellView::ErrorText(s@),
        }
    }
}

/// A cell's value once typed against its header: nothing, text, an unsigned
/// number, or a parsed timestamp.
#[derive(Debug, Clone)]
pub enum FieldValue {
    Null,
    Text(String),
    Num(u32),
    Stamp(Timestamp),
}

/// The mathematical shape of a typed cell value.
pub ghost enum FieldView {
    Null,
    Text(Seq<char>),
    Num(u32),
    Stamp(Timestamp),
}

impl View for FieldValue {
    type V = FieldView;

    open spec fn view(&self) -> FieldView {
        match self {
            FieldValue::Null => FieldView::Null,
            FieldValue::Text(s) => FieldView::Text(s@),
            FieldValue::Num(n) => FieldView::Num(*n),
            FieldValue::Stamp(t) => FieldView::Stamp(*t),
        }
    }
}

/// What a date-typed cell's serial reading becomes: a timestamp, or nothing
/// where the serial names no representable instant.
pub open spec fn serial_field(days: int, secs: int) -> FieldView {
    match spec_serial_to_timestamp(days, secs) {
        Some(t) => FieldView::Stamp(t),
        None => FieldView::Null,
    }
}

/// How one spreadsheet cell is typed against its header: date-typed columns
/// go through the serial-number and date-shape readings, numeric-typed
/// columns are coerced to unsigned integers where parseable, everything else
/// becomes text.
pub open spec fn spec_cell_value(h: Seq<char>, c: CellView) -> FieldView {
    let date = spec_is_date_header(h);
    let num = spec_is_numeric_header(h);
    match c {
        CellView::Empty => if date { FieldView::Null } else { FieldView::Text(Seq::empty()) },
        CellView::Text(s) => {
            if date {
                if trimmed(s).len() == 0 {
                    FieldView::Null
                } else {
                    match serial_text_value(trimmed(s)) {
                        Some((d, sec)) => match spec_serial_to_timestamp(d, sec) {
                            Some(t) => FieldView::Stamp(t),
                            None => FieldView::Text(s),
                        },
                        None => FieldView::Text(s),
                    }
                }
            } else if num {
                match u32_text_value(trimmed(s)) {
                    Some(n) => FieldView::Num(n),
                    None => FieldView::Text(s),
                }
            } else {
                FieldView::Text(s)
            }
        },
        CellView::Number { days, secs, whole, text } => {
            if date { serial_field(days, secs) }
            else if num { FieldView::Num(whole) }
            else { FieldView::Text(text) }
        },
        CellView::Int(i) => {
            if num {
                if 0 <= i <= u32::MAX { FieldView::Num(i as u32) } else { FieldView::Text(int_dec(i)) }
            } else {
                FieldView::Text(int_dec(i))
            }
        },
        CellView::Bool(b) => FieldView::Text(if b { "true"@ } else { "false"@ }),
        CellView::DateTime { days, secs, text } => {
            if date { serial_field(days, secs) } else { FieldView::Text(text) }
        },
        CellView::DateTimeIso(s) => {
            if date {
                match date_text_value(s) {
                    Some(t) => FieldView::Stamp(t),
                    None => FieldView::Text(s),
                }
            } else {
                FieldView::Text(s)
            }
        },
        CellView::DurationIso(s) => FieldView::Text(s),
        CellView::ErrorText(s) => FieldView::Text(s),
    }
}

/// Whether a cell counts as holding data; a row of data-free cells is blank.
pub open spec fn cell_has_data(c: CellView) -> bool {
    match c {
        CellView::Empty => false,
        CellView::Text(s) => trimmed(s).len() > 0,
        _ => true,
    }
}

/// Types one spreadsheet cell against its header.
pub fn cell_value(h: &str, c: &SheetCell) -> (r: FieldValue)
    ensures r@ == spec_cell_value(h@, c@),
{
    let date = is_date_header(h);
    let num = is_numeric_header(h);
    match c {
        SheetCell::Empty => if date { FieldValue::Null } else { FieldValue::Text(String::new()) },
        SheetCell::Text(s) => {
            if date {
                let t = trim_chars(&chars_of(s.as_str()));
                if t.len() == 0 {
                    FieldValue::Null
                } else {
                    match parse_serial_text(&t) {
                        Some((d, sec)) => {
                            match serial_to_timestamp(d as i64, (if sec < 86400 { sec } else { 86400 }) as u32) {
                                Some(ts) => FieldValue::Stamp(ts),
                                None => FieldValue::Text(s.clone()),
                            }
                        },
                        None => FieldValue::Text(s.clone()),
                    }
                }
            } else if num {
                let t = trim_chars(&chars_of(s.as_str()));
                let mut joined = String::new();
                crate::strings::append_chars(&mut joined, &t);
                match parse_u32_text(joined.as_str()) {
                    Some(n) => FieldValue::Num(n),
                    None => FieldValue::Text(s.clone()),
                }
            } else {
                FieldValue::Text(s.clone())
            }
        },
        SheetCell::Number { days, secs, whole, text } => {
            if date {
                match serial_to_timestamp(*days, *secs) {
                    Some(ts) => FieldValue::Stamp(ts),
                    None => FieldValue::Null,
                }
            } else if num {
                FieldValue::Num(*whole)
            } else {
                FieldValue::Text(text.clone())
            }
        },
        SheetCell::Int(i) => {
            if num && *i >= 0 && *i <= u32::MAX as i64 {
                FieldValue::Num(*i as u32)
            } else {
                FieldValue::Text(i64_to_string(*i))
            }
        },
        SheetCell::Bool(b) => {
            if *b { FieldValue::Text("true".to_owned()) } else { FieldValue::Text("false".to_owned()) }
        },
        SheetCell::DateTime { days, secs, text } => {
            if date {
                match serial_to_timestamp(*days, *secs) {
                    Some(ts) => FieldValue::Stamp(ts),
                    None => FieldValue::Null,
                }
            } else {
                FieldValue::Text(text.clone())
            }
        },
        SheetCell::DateTimeIso(s) => {
            if date {
                match parse_date_fields(&chars_of(s.as_str())) {
                    Some(ts) => FieldValue::Stamp(ts),
                    None => FieldValue::Text(s.clone()),
                }
            } else {
                FieldValue::Text(s.clone())
            }
        },
        SheetCell::DurationIso(s) => FieldValue::Text(s.clone()),
        SheetCell::ErrorText(s) => FieldValue::Text(s.clone()),
    }
}

/// Whether a cell holds data.
pub fn cell_has_data_x(c: &SheetCell) -> (r: bool)
    ensures r == cell_has_data(c@),
{
    match c {
        SheetCell::Empty => false,
        SheetCell::Text(s) => {
            let t = trim_chars(&chars_of(s.as_str()));
            t.len() > 0
        },
        _ => true,
    }
}

/// The cell under column `i`, a short row read as padded with empty cells.
pub open spec fn cell_at(cells: Seq<CellView>, i: int) -> CellView {
    if 0 <= i < cells.len() { cells[i] } else { CellView::Empty }
}

/// The typed entries of one spreadsheet row: each header paired with its
/// typed cell.
pub open spec fn sheet_entries(headers: Seq<Seq<char>>, cells: Seq<CellView>)
    -> Seq<(Seq<char>, FieldView)>
{
    Seq::new(headers.len(), |i: int| (headers[i], spec_cell_value(headers[i], cell_at(cells, i))))
}

/// Whether any cell under a header holds data; trailing cells without a
/// header do not count.
pub open spec fn row_has_data(headers: Seq<Seq<char>>, cells: Seq<CellView>) -> bool {
    exists|i: int| 0 <= i < headers.len() && cell_has_data(#[trigger] cell_at(cells, i))
}

/// Whether some entry at or after `from` carries `key`.
pub open spec fn has_key(entries: Seq<(Seq<char>, FieldView)>, from: int, key: Seq<char>) -> bool {
    exists|j: int| from <= j < entries.len() && (#[trigger] entries[j]).0 == key
}

/// Repeated spellings of one header collapse to a single entry holding the
/// last value, as a keyed object holds them.
pub open spec fn dedup_from(entries: Seq<(Seq<char>, FieldView)>, i: int)
    -> Seq<(Seq<char>, FieldView)>
    decreases entries.len() - i when 0 <= i <= entries.len()
{
    if i >= entries.len() {
        Seq::empty()
    } else if has_key(entries, i + 1, entries[i].0) {
        dedup_from(entries, i + 1)
    } else {
        seq![entries[i]] + dedup_from(entries, i + 1)
    }
}

/// The partially-filled logical fields while one row is decoded.
pub ghost struct SlotsView {
    pub tid: Option<u32>,
    pub date: Option<Option<Timestamp>>,
    pub outcome: Option<Seq<char>>,
    pub note: Option<Seq<char>>,
    pub who: Option<Seq<char>>,
    pub aid: Option<Seq<char>>,
    pub import: Option<bool>,
}

pub open spec fn empty_slots() -> SlotsView {
    SlotsView {
        tid: None, date: None, outcome: None, note: None, who: None, aid: None, import: None,
    }
}

pub open spec fn field_set(s: SlotsView, k: FieldKind) -> bool {
    match k {
        FieldKind::TicketId => s.tid is Some,
        FieldKind::ActionDate => s.date is Some,
        FieldKind::Outcome => s.outcome is Some,
        FieldKind::Note => s.note is Some,
        FieldKind::ActionWho => s.who is Some,
        FieldKind::ActionIdField => s.aid is Some,
        FieldKind::IsImport => s.import is Some,
    }
}

/// Stores one typed value into its logical field.  A field seen twice is a
/// duplicate; each field takes only the value types it can: the ticket
/// identifier an unsigned number (in the lenient mode of the delimited
/// adapter, also its text), the date a timestamp, nothing, or a text put
/// through the cascade, the free-text fields text, the import flag (lenient
/// mode only) the words `true` or `false`.
pub open spec fn spec_fill(s: SlotsView, k: FieldKind, v: FieldView, lenient: bool)
    -> Result<SlotsView, RowError>
{
    if field_set(s, k) {
        Err(RowError::DuplicateField(k))
    } else {
        match k {
            FieldKind::TicketId => match v {
                FieldView::Num(n) => Ok(SlotsView { tid: Some(n), ..s }),
                FieldView::Text(t) => if lenient {
                    match ticket_text_value(t) {
                        Some(n) => Ok(SlotsView { tid: Some(n), ..s }),
                        None => Err(RowError::InvalidNumber(FieldKind::TicketId)),
                    }
                } else {
                    Err(RowError::InvalidType(FieldKind::TicketId))
                },
                _ => Err(RowError::InvalidType(FieldKind::TicketId)),
            },
            FieldKind::ActionDate => match v {
                FieldView::Null => Ok(SlotsView { date: Some(None), ..s }),
                FieldView::Stamp(t) => Ok(SlotsView { date: Some(Some(t)), ..s }),
                FieldView::Text(t) => match action_date_value(t) {
                    Ok(o) => Ok(SlotsView { date: Some(o), ..s }),
                    Err(_) => Err(RowError::InvalidDate),
                },
                FieldView::Num(_) => Err(RowError::InvalidType(FieldKind::ActionDate)),
            },
            FieldKind::Outcome => match v {
                FieldView::Text(t) => Ok(SlotsView { outcome: Some(t), ..s }),
                _ => Err(RowError::InvalidType(FieldKind::Outcome)),
            },
            FieldKind::Note => match v {
                FieldView::Text(t) => Ok(SlotsView { note: Some(t), ..s }),
                _ => Err(RowError::InvalidType(FieldKind::Note)),
            },
            FieldKind::ActionWho => match v {
                FieldView::Text(t) => Ok(SlotsView { who: Some(t), ..s }),
                _ => Err(RowError::InvalidType(FieldKind::ActionWho)),
            },
            FieldKind::ActionIdField => match v {
                FieldView::Text(t) => Ok(SlotsView { aid: Some(t), ..s }),
                _ => Err(RowError::InvalidType(FieldKind::ActionIdField)),
            },
            FieldKind::IsImport => match v {
                FieldView::Text(t) => if lenient && t == "true"@ {
                    Ok(SlotsView { import: Some(true), ..s })
                } else if lenient && t == "false"@ {
                    Ok(SlotsView { import: Some(false), ..s })
                } else {
                    Err(RowError::InvalidType(FieldKind::IsImport))
                },
                _ => Err(RowError::InvalidType(FieldKind::IsImport)),
            },
        }
    }
}

/// Builds the record once every entry is decoded: the ticket identifier, the
/// note, the actor and the external identifier are required; a missing
/// outcome falls back to the sentinel, a missing date means no timestamp, and
/// a missing import flag is true.
pub open spec fn spec_assemble(s: SlotsView) -> Result<RecordView, RowError> {
    match s.tid {
        None => Err(RowError::MissingField(FieldKind::TicketId)),
        Some(tid) => match s.note {
            None => Err(RowError::MissingField(FieldKind::Note)),
            Some(note) => match s.who {
                None => Err(RowError::MissingField(FieldKind::ActionWho)),
                Some(who) => match s.aid {
                    None => Err(RowError::MissingField(FieldKind::ActionIdField)),
                    Some(aid) => Ok(RecordView {
                        ticket_id: tid,
                        actiondate: match s.date { Some(o) => o, None => None },
                        outcome: match s.outcome { Some(o) => o, None => default_outcome_text() },
                        note,
                        actionwho: who,
                        action_id: aid,
                        is_import: match s.import { Some(b) => b, None => true },
                    }),
                },
            },
        },
    }
}

/// Decodes typed entries into a record: unrecognized headers are ignored,
/// recognized ones fill their field in order, the first failure wins.
pub open spec fn spec_decode(
    entries: Seq<(Seq<char>, FieldView)>,
    i: int,
    s: SlotsView,
    lenient: bool,
) -> Result<RecordView, RowError>
    decreases entries.len() - i when 0 <= i <= entries.len()
{
    if i >= entries.len() {
        spec_assemble(s)
    } else {
        match spec_canonical_field(entries[i].0) {
            None => spec_decode(entries, i + 1, s, lenient),
            Some(k) => match spec_fill(s, k, entries[i].1, lenient) {
                Ok(s2) => spec_decode(entries, i + 1, s2, lenient),
                Err(e) => Err(e),
            },
        }
    }
}

/// What normalizing one spreadsheet row yields.
pub ghost enum RowOutcomeView {
    /// Every cell is blank: the row is not data and not an error.
    Blank,
    /// The row assembled into a canonical record.
    Record(RecordView),
    /// The row holds data but no valid record.
    Invalid(RowError),
}

/// One spreadsheet row, normalized.
#[derive(Debug, Clone)]
pub enum RowOutcome {
    Blank,
    Record(ActionObject),
    Invalid(RowError),
}

impl View for RowOutcome {
    type V = RowOutcomeView;

    open spec fn view(&self) -> RowOutcomeView {
        match self {
            RowOutcome::Blank => RowOutcomeView::Blank,
            RowOutcome::Record(a) => RowOutcomeView::Record(a@),
            RowOutcome::Invalid(e) => RowOutcomeView::Invalid(*e),
        }
    }
}

pub open spec fn strs_view(s: Seq<String>) -> Seq<Seq<char>> {
    s.map_values(|h: String| h@)
}

pub open spec fn cells_view(s: Seq<SheetCell>) -> Seq<CellView> {
    s.map_values(|c: SheetCell| c@)
}

/// What normalizing a spreadsheet row means: a row of blank cells is skipped
/// silently; otherwise its cells are typed against the headers, spellings of
/// one header collapse to the last value, and the entries decode to a record
/// or a row error.
pub open spec fn spec_normalize_sheet_row(headers: Seq<Seq<char>>, cells: Seq<CellView>)
    -> RowOutcomeView
{
    if !row_has_data(headers, cells) {
        RowOutcomeView::Blank
    } else {
        match spec_decode(dedup_from(sheet_entries(headers, cells), 0), 0, empty_slots(), false) {
            Ok(r) => RowOutcomeView::Record(r),
            Err(e) => RowOutcomeView::Invalid(e),
        }
    }
}

/// What normalizing a delimited-text row means: every field is text, each
/// header is visited in order (a repeated header is a duplicate), and the
/// entries decode leniently.
pub open spec fn spec_normalize_delimited_row(headers: Seq<Seq<char>>, fields: Seq<Seq<char>>)
    -> Result<RecordView, RowError>
{
    if headers.len() != fields.len() {
        Err(RowError::RowShape)
    } else {
        spec_decode(
            Seq::new(headers.len(), |i: int| (headers[i], FieldView::Text(fields[i]))),
            0,
            empty_slots(),
            true,
        )
    }
}

/// The partially-filled logical fields, executable.
struct Slots {
    tid: Option<u32>,
    date: Option<Option<Timestamp>>,
    outcome: Option<String>,
    note: Option<String>,
    who: Option<String>,
    aid: Option<String>,
    import: Option<bool>,
}

impl View for Slots {
    type V = SlotsView;

    closed spec fn view(&self) -> SlotsView {
        SlotsView {
            tid: self.tid,
            date: self.date,
            outcome: match self.outcome { Some(ref o) => Some(o@), None => None },
            note: match self.note { Some(ref o) => Some(o@), None => None },
            who: match self.who { Some(ref o) => Some(o@), None => None },
            aid: match self.aid { Some(ref o) => Some(o@), None => None },
            import: self.import,
        }
    }
}

/// Stores one typed value into its logical field.
fn fill(s: &mut Slots, k: FieldKind, v: FieldValue, lenient: bool) -> (r: Result<(), RowError>)
    ensures
        match r {
            Ok(()) => spec_fill(old(s)@, k, v@, lenient) == Ok::<SlotsView, RowError>(final(s)@),
            Err(e) => spec_fill(old(s)@, k, v@, lenient) == Err::<SlotsView, RowError>(e),
        },
{
    let filled = match k {
        FieldKind::TicketId => s.tid.is_some(),
        FieldKind::ActionDate => s.date.is_some(),
        FieldKind::Outcome => s.outcome.is_some(),
        FieldKind::Note => s.note.is_some(),
        FieldKind::ActionWho => s.who.is_some(),
        FieldKind::ActionIdField => s.aid.is_some(),
        FieldKind::IsImport => s.import.is_some(),
    };
    if filled {
        return Err(RowError::DuplicateField(k));
    }
    match k {
        FieldKind::TicketId => match v {
            FieldValue::Num(n) => { s.tid = Some(n); Ok(()) },
            FieldValue::Text(t) => if lenient {
                match parse_ticket_text(t.as_str()) {
                    Some(n) => { s.tid = Some(n); Ok(()) },
                    None => Err(RowError::InvalidNumber(FieldKind::TicketId)),
                }
            } else {
                Err(RowError::InvalidType(FieldKind::TicketId))
            },
            _ => Err(RowError::InvalidType(FieldKind::TicketId)),
        },
        FieldKind::ActionDate => match v {
            FieldValue::Null => { s.date = Some(None); Ok(()) },
            FieldValue::Stamp(t) => { s.date = Some(Some(t)); Ok(()) },
            FieldValue::Text(t) => match parse_action_date(t.as_str()) {
                Ok(o) => { s.date = Some(o); Ok(()) },
                Err(_) => Err(RowError::InvalidDate),
            },
            FieldValue::Num(_) => Err(RowError::InvalidType(FieldKind::ActionDate)),
        },
        FieldKind::Outcome => match v {
            FieldValue::Text(t) => { s.outcome = Some(t); Ok(()) },
            _ => Err(RowError::InvalidType(FieldKind::Outcome)),
        },
        FieldKind::Note => match v {
            FieldValue::Text(t) => { s.note = Some(t); Ok(()) },
            _ => Err(RowError::InvalidType(FieldKind::Note)),
        },
        FieldKind::ActionWho => match v {
            FieldValue::Text(t) => { s.who = Some(t); Ok(()) },
            _ => Err(RowError::InvalidType(FieldKind::ActionWho)),
        },
        FieldKind::ActionIdField => match v {
            FieldValue::Text(t) => { s.aid = Some(t); Ok(()) },
            _ => Err(RowError::InvalidType(FieldKind::ActionIdField)),
        },
        FieldKind::IsImport => match v {
            FieldValue::Text(t) => {
                let tv = chars_of(t.as_str());
                if lenient && chars_eq_str(&tv, "true") {
                    s.import = Some(true);
                    Ok(())
                } else if lenient && chars_eq_str(&tv, "false") {
                    s.import = Some(false);
                    Ok(())
                } else {
                    Err(RowError::InvalidType(FieldKind::IsImport))
                }
            },
            _ => Err(RowError::InvalidType(FieldKind::IsImport)),
        },
    }
}

pub open spec fn entries_view(e: Seq<(String, FieldValue)>) -> Seq<(Seq<char>, FieldView)> {
    e.map_values(|p: (String, FieldValue)| (p.0@, p.1@))
}

/// Decodes entries into a record, from a fresh set of fields.
#[verifier::loop_isolation(false)]
fn decode_entries(entries: Vec<(String, FieldValue)>, lenient: bool)
    -> (r: Result<ActionObject, RowError>)
    ensures
        match r {
            Ok(a) => spec_decode(entries_view(entries@), 0, empty_slots(), lenient)
                == Ok::<RecordView, RowError>(a@),
            Err(e) => spec_decode(entries_view(entries@), 0, empty_slots(), lenient)
                == Err::<RecordView, RowError>(e),
        },
{
    let ghost ev = entries_view(entries@);
    let mut slots = Slots {
        tid: None, date: None, outcome: None, note: None, who: None, aid: None, import: None,
    };
    let mut entries = entries;
    let ghost n = ev.len();
    while entries.len() > 0
        invariant
            entries@.len() <= n == ev.len(),
            entries_view(entries@) =~= ev.subrange(n - entries@.len(), n as int),
            spec_decode(ev, 0, empty_slots(), lenient)
                == spec_decode(ev, n - entries@.len(), slots@, lenient),
        decreases entries@.len(),
    {
        let ghost i = n - entries@.len();
        let ghost prev = entries@;
        let (h, v) = entries.remove(0);
        proof {
            assert(entries_view(prev)[0] == (h@, v@));
            assert(entries_view(prev) =~= ev.subrange(i, n as int));
            assert(ev[i] == (h@, v@));
            let cur = entries@;
            assert(cur =~= prev.remove(0));
            assert forall|k: int| 0 <= k < cur.len() implies
                #[trigger] entries_view(cur)[k] == ev.subrange(i + 1, n as int)[k] by {
                assert(cur[k] == prev[k + 1]);
                assert(entries_view(cur)[k] == (cur[k].0@, cur[k].1@));
                assert(entries_view(prev)[k + 1] == (prev[k + 1].0@, prev[k + 1].1@));
                assert(entries_view(prev)[k + 1] == ev.subrange(i, n as int)[k + 1]);
            }
            assert(entries_view(cur) =~= ev.subrange(i + 1, n as int));
        }
        match canonical_field(h.as_str()) {
            None => {},
            Some(k) => {
                match fill(&mut slots, k, v, lenient) {
                    Ok(()) => {},
                    Err(e) => {
                        return Err(e);
                    },
                }
            },
        }
    }
    proof {
        assert(spec_decode(ev, n as int, slots@, lenient) == spec_assemble(slots@));
    }
    let Slots { tid, date, outcome, note, who, aid, import } = slots;
    let tid = match tid {
        Some(t) => t,
        None => { return Err(RowError::MissingField(FieldKind::TicketId)); },
    };
    let note = match note {
        Some(t) => t,
        None => { return Err(RowError::MissingField(FieldKind::Note)); },
    };
    let who = match who {
        Some(t) => t,
        None => { return Err(RowError::MissingField(FieldKind::ActionWho)); },
    };
    let aid = match aid {
        Some(t) => t,
        None => { return Err(RowError::MissingField(FieldKind::ActionIdField)); },
    };
    let outcome = match outcome {
        Some(o) => o,
        None => default_outcome(),
    };
    let a = ActionObject {
        ticket_id: tid,
        actiondate: match date { Some(o) => o, None => None },
        outcome,
        note,
        actionwho: who,
        action_id: ActionId::new(aid),
        _isimport: match import { Some(b) => b, None => true },
    };
    Ok(a)
}

/// Collapses repeated spellings of one header to the entry of the last.
#[verifier::loop_isolation(false)]
fn dedup_entries(entries: Vec<(String, FieldValue)>) -> (r: Vec<(String, FieldValue)>)
    ensures entries_view(r@) == dedup_from(entries_view(entries@), 0),
{
    let ghost ev = entries_view(entries@);
    let ghost n = ev.len();
    let mut entries = entries;
    let mut out: Vec<(String, FieldValue)> = Vec::new();
    while entries.len() > 0
        invariant
            entries@.len() <= n == ev.len(),
            entries_view(entries@) =~= ev.subrange(n - entries@.len(), n as int),
            dedup_from(ev, 0) == entries_view(out@) + dedup_from(ev, n - entries@.len()),
        decreases entries@.len(),
    {
        let ghost i = n - entries@.len();
        let ghost prev = entries@;
        let (h, v) = entries.remove(0);
        proof {
            assert(entries_view(prev)[0] == (h@, v@));
            assert(entries_view(prev) =~= ev.subrange(i, n as int));
            assert(ev[i] == (h@, v@));
            let cur = entries@;
            assert(cur =~= prev.remove(0));
            assert forall|k: int| 0 <= k < cur.len() implies
                #[trigger] entries_view(cur)[k] == ev.subrange(i + 1, n as int)[k] by {
                assert(cur[k] == prev[k + 1]);
                assert(entries_view(cur)[k] == (cur[k].0@, cur[k].1@));
                assert(entries_view(prev)[k + 1] == (prev[k + 1].0@, prev[k + 1].1@));
                assert(entries_view(prev)[k + 1] == ev.subrange(i, n as int)[k + 1]);
            }
            assert(entries_view(cur) =~= ev.subrange(i + 1, n as int));
        }
        let mut dup = false;
        let mut j: usize = 0;
        while j < entries.len()
            invariant
                j <= entries@.len(),
                entries@.len() < n,
                i == n - entries@.len() - 1,
                entries_view(entries@) =~= ev.subrange(i + 1, n as int),
                h@ == ev[i].0,
                dup <==> exists|q: int| 0 <= q < j && (#[trigger] entries_view(entries@)[q]).0 == h@,
            decreases entries@.len() - j,
        {
            if entries[j].0 == h {
                proof {
                    assert(entries_view(entries@)[j as int].0 == h@);
                }
                dup = true;
            }
            j += 1;
        }
        proof {
            if dup {
                let q = choose|q: int| 0 <= q < entries@.len()
                    && (#[trigger] entries_view(entries@)[q]).0 == h@;
                assert(ev[i + 1 + q].0 == h@);
                assert(has_key(ev, i + 1, ev[i].0));
            } else {
                if has_key(ev, i + 1, ev[i].0) {
                    let q = choose|q: int| i + 1 <= q < ev.len() && (#[trigger] ev[q]).0 == ev[i].0;
                    assert(entries_view(entries@)[q - i - 1].0 == h@);
                    assert(false);
                }
            }
        }
        if !dup {
            out.push((h, v));
            proof {
                assert(entries_view(out@) =~= entries_view(out@.drop_last()) + seq![(h@, v@)]) by {
                    assert(forall|k: int| 0 <= k < out@.len() - 1 ==>
                        entries_view(out@)[k] == #[trigger] entries_view(out@.drop_last())[k]);
                    assert(entries_view(out@)[out@.len() - 1] == (h@, v@));
                }
                assert(dedup_from(ev, i) == seq![ev[i]] + dedup_from(ev, i + 1));
                assert(entries_view(out@) + dedup_from(ev, i + 1)
                    =~= (entries_view(out@.drop_last()) + seq![(h@, v@)]) + dedup_from(ev, i + 1));
                assert((entries_view(out@.drop_last()) + seq![ev[i]]) + dedup_from(ev, i + 1)
                    =~= entries_view(out@.drop_last()) + (seq![ev[i]] + dedup_from(ev, i + 1)));
            }
        }
    }
    proof {
        assert(dedup_from(ev, n as int) =~= Seq::<(Seq<char>, FieldView)>::empty());
        assert(entries_view(out@) + dedup_from(ev, n as int) =~= entries_view(out@));
    }
    out
}

/// Types every cell of one row against the headers, and reports whether any
/// cell under a header holds data.
#[verifier::loop_isolation(false)]
fn build_sheet_entries(headers: &Vec<String>, cells: &Vec<SheetCell>)
    -> (r: (Vec<(String, FieldValue)>, bool))
    ensures
        entries_view(r.0@) == sheet_entries(strs_view(headers@), cells_view(cells@)),
        r.1 == row_has_data(strs_view(headers@), cells_view(cells@)),
{
    let ghost hs = strs_view(headers@);
    let ghost cs = cells_view(cells@);
    let empty_cell = SheetCell::Empty;
    let mut out: Vec<(String, FieldValue)> = Vec::new();
    let mut has = false;
    let mut i: usize = 0;
    while i < headers.len()
        invariant
            i <= headers@.len(),
            hs == strs_view(headers@),
            cs == cells_view(cells@),
            hs.len() == headers@.len(),
            cs.len() == cells@.len(),
            entries_view(out@) =~= sheet_entries(hs, cs).subrange(0, i as int),
            has <==> exists|q: int| 0 <= q < i && cell_has_data(#[trigger] cell_at(cs, q)),
        decreases headers@.len() - i,
    {
        let h = &headers[i];
        let c: &SheetCell = if i < cells.len() { &cells[i] } else { &empty_cell };
        proof {
            assert(hs[i as int] == headers@[i as int]@);
            if i < cells@.len() {
                assert(cs[i as int] == cells@[i as int]@);
            }
            assert(c@ == cell_at(cs, i as int));
        }
        let v = cell_value(h.as_str(), c);
        if cell_has_data_x(c) {
            has = true;
        }
        let ghost before = out@;
        out.push((h.clone(), v));
        proof {
            let cur = out@;
            assert(cur.len() == before.len() + 1);
            assert forall|k: int| 0 <= k < cur.len() implies
                #[trigger] entries_view(cur)[k] == sheet_entries(hs, cs).subrange(0, i + 1)[k] by {
                assert(entries_view(cur)[k] == (cur[k].0@, cur[k].1@));
                if k < cur.len() - 1 {
                    assert(cur[k] == before[k]);
                    assert(entries_view(before)[k] == (before[k].0@, before[k].1@));
                    assert(entries_view(before)[k] == sheet_entries(hs, cs).subrange(0, i as int)[k]);
                } else {
                    assert(cur[k].0@ == h@ && cur[k].1@ == v@);
                    assert(sheet_entries(hs, cs)[i as int] == (hs[i as int],
                        spec_cell_value(hs[i as int], cell_at(cs, i as int))));
                }
            }
            assert(entries_view(cur) =~= sheet_entries(hs, cs).subrange(0, i + 1));
        }
        i += 1;
    }
    proof {
        assert(sheet_entries(hs, cs).subrange(0, hs.len() as int) =~= sheet_entries(hs, cs));
    }
    (out, has)
}

/// Normalizes one spreadsheet row: a silent skip for blank rows, a canonical
/// record, or a per-row error.
pub fn normalize_sheet_row(headers: &Vec<String>, cells: &Vec<SheetCell>) -> (r: RowOutcome)
    ensures r@ == spec_normalize_sheet_row(strs_view(headers@), cells_view(cells@)),
{
    let (entries, has) = build_sheet_entries(headers, cells);
    if has == false {
        return RowOutcome::Blank;
    }
    let dd = dedup_entries(entries);
    match decode_entries(dd, false) {
        Ok(a) => RowOutcome::Record(a),
        Err(e) => RowOutcome::Invalid(e),
    }
}

/// Normalizes one delimited-text row against its header row.
#[verifier::loop_isolation(false)]
pub fn normalize_delimited_row(headers: &Vec<String>, fields: &Vec<String>)
    -> (r: Result<ActionObject, RowError>)
    ensures
        match r {
            Ok(a) => spec_normalize_delimited_row(strs_view(headers@), strs_view(fields@))
                == Ok::<RecordView, RowError>(a@),
            Err(e) => spec_normalize_delimited_row(strs_view(headers@), strs_view(fields@))
                == Err::<RecordView, RowError>(e),
        },
{
    let ghost hs = strs_view(headers@);
    let ghost fs = strs_view(fields@);
    if headers.len() != fields.len() {
        return Err(RowError::RowShape);
    }
    let ghost target = Seq::new(hs.len(), |i: int| (hs[i], FieldView::Text(fs[i])));
    let mut entries: Vec<(String, FieldValue)> = Vec::new();
    let mut i: usize = 0;
    while i < headers.len()
        invariant
            i <= headers@.len(),
            headers@.len() == fields@.len(),
            hs == strs_view(headers@),
            fs == strs_view(fields@),
            hs.len() == headers@.len(),
            fs.len() == fields@.len(),
            target == Seq::new(hs.len(), |q: int| (hs[q], FieldView::Text(fs[q]))),
            entries_view(entries@) =~= target.subrange(0, i as int),
        decreases headers@.len() - i,
    {
        let h = headers[i].clone();
        let f = fields[i].clone();
        let ghost before = entries@;
        entries.push((h, FieldValue::Text(f)));
        proof {
            let cur = entries@;
            assert forall|k: int| 0 <= k < cur.len() implies
                #[trigger] entries_view(cur)[k] == target.subrange(0, i + 1)[k] by {
                assert(entries_view(cur)[k] == (cur[k].0@, cur[k].1@));
                if k < cur.len() - 1 {
                    assert(cur[k] == before[k]);
                    assert(entries_view(before)[k] == (before[k].0@, before[k].1@));
                    assert(entries_view(before)[k] == target.subrange(0, i as int)[k]);
                } else {
                    assert(cur[k].0@ == headers@[i as int]@
                        && cur[k].1@ == FieldView::Text(fields@[i as int]@));
                    assert(target[i as int] == (hs[i as int], FieldView::Text(fs[i as int])));
                    assert(hs[i as int] == headers@[i as int]@);
                    assert(fs[i as int] == fields@[i as int]@);
                }
            }
            assert(entries_view(cur) =~= target.subrange(0, i + 1));
        }
        i += 1;
    }
    proof { assert(target.subrange(0, target.len() as int) =~= target); }
    decode_entries(entries, true)
}

} // verus!

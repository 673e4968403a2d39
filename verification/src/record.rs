//! The canonical record every input row is normalized into, and its
//! deduplication key.

use vstd::prelude::*;
use crate::datetime::Timestamp;

verus! {

/// The deduplication key of a record: a stable external identifier, distinct
/// from the ticket identifier, carried as opaque text.
#[derive(Debug, Clone)]
pub struct ActionId(String);

impl View for ActionId {
    type V = Seq<char>;

    closed spec fn view(&self) -> Seq<char> {
        self.0@
    }
}

impl ActionId {
    pub fn value(&self) -> (r: &str)
        ensures r@ == self@,
    {
        self.0.as_str()
    }

    pub fn new(id: String) -> (r: Self)
        ensures r@ == id@,
    {
        ActionId(id)
    }
}

/// The mathematical shape of a canonical record.
pub ghost struct RecordView {
    pub ticket_id: u32,
    pub actiondate: Option<Timestamp>,
    pub outcome: Seq<char>,
    pub note: Seq<char>,
    pub actionwho: Seq<char>,
    pub action_id: Seq<char>,
    pub is_import: bool,
}

/// The canonical unit of work: one action to exist on a ticket remotely.
#[derive(Debug, Clone)]
pub struct ActionObject {
    /// Positive identifier of the parent ticket in the remote system.
    pub ticket_id: u32,
    /// Optional point in time of the action; absent means no dated event.
    pub actiondate: Option<Timestamp>,
    /// Free text; a fixed sentinel when the source supplies none.
    pub outcome: String,
    /// Free text, required though possibly empty.
    pub note: String,
    /// Who performed the action.
    pub actionwho: String,
    /// The deduplication key.
    pub action_id: ActionId,
    /// Fixed to true: the record arrived by bulk import.
    pub _isimport: bool,
}

impl View for ActionObject {
    type V = RecordView;

    open spec fn view(&self) -> RecordView {
        RecordView {
            ticket_id: self.ticket_id,
            actiondate: self.actiondate,
            outcome: self.outcome@,
            note: self.note@,
            actionwho: self.actionwho@,
            action_id: self.action_id@,
            is_import: self._isimport,
        }
    }
}

/// The sentinel outcome of a record whose source supplies none.
pub open spec fn default_outcome_text() -> Seq<char> {
    "Imported Note"@
}

/// The outcome used when the source supplies none.
pub fn default_outcome() -> (r: String)
    ensures r@ == default_outcome_text(),
{
    "Imported Note".to_owned()
}

/// Records built here always carry the bulk-import flag.
pub fn default_is_import() -> (r: bool)
    ensures r == true,
{
    true
}

impl ActionObject {
    /// Builds a record; a missing outcome falls back to the sentinel, and the
    /// import flag is always set.
    pub fn new(
        ticket_id: u32,
        actiondate: Option<Timestamp>,
        outcome: Option<String>,
        note: String,
        actionwho: String,
        action_id: ActionId,
    ) -> (r: Self)
        ensures
            r@ == (RecordView {
                ticket_id,
                actiondate,
                outcome: match outcome {
                    Some(o) => o@,
                    None => default_outcome_text(),
                },
                note: note@,
                actionwho: actionwho@,
                action_id: action_id@,
                is_import: true,
            }),
    {
        let outcome = match outcome {
            Some(o) => o,
            None => default_outcome(),
        };
        ActionObject {
            ticket_id,
            actiondate,
            outcome,
            note,
            actionwho,
            action_id,
            _isimport: true,
        }
    }

    /// The deduplication key as text.
    pub fn action_id(&self) -> (r: &str)
        ensures r@ == self@.action_id,
    {
        self.action_id.value()
    }
}

} // verus!

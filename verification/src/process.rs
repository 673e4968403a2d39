//! The orchestrator's decisions: skip a record whose identifier is already
//! known, submit the rest, and count per-file outcomes — strictly in input
//! order, one record at a time.

use vstd::prelude::*;
use crate::idset::IdSet;
use crate::normalize::{RowOutcome, RowOutcomeView, RowError, spec_row_error_text,
    spec_normalize_sheet_row, row_has_data, cell_has_data, cell_at, CellView};
use crate::record::ActionObject;

verus! {

/// What to do with one normalized record.
#[derive(Clone, Copy, PartialEq, Eq, Structural, Debug)]
pub enum RecordPlan {
    /// The identifier is already known remotely: do not submit.
    Skip,
    /// The identifier is new: submit the record.
    Submit,
}

/// The skip decision: a record is skipped exactly when its identifier is in
/// the reconciled set.
pub open spec fn spec_plan(existing: Set<Seq<char>>, id: Seq<char>) -> RecordPlan {
    if existing.contains(id) { RecordPlan::Skip } else { RecordPlan::Submit }
}

/// Decides whether one record is skipped or submitted.
pub fn plan_record(existing: &IdSet, action_id: &str) -> (r: RecordPlan)
    ensures r == spec_plan(existing@, action_id@),
{
    if existing.contains(action_id) {
        RecordPlan::Skip
    } else {
        RecordPlan::Submit
    }
}

/// The mathematical shape of per-file processing counts.
pub ghost struct StatsView {
    pub processed: int,
    pub imported: int,
    pub skipped: int,
    pub failed: Seq<(Seq<char>, Seq<char>)>,
}

/// Per-file processing counts: records processed, imported and skipped, and
/// the failures as (identifier, message) pairs.
#[derive(Debug)]
pub struct ProcessingStats {
    pub processed: usize,
    pub imported: usize,
    pub skipped: usize,
    pub failed: Vec<(String, String)>,
}

impl View for ProcessingStats {
    type V = StatsView;

    open spec fn view(&self) -> StatsView {
        StatsView {
            processed: self.processed as int,
            imported: self.imported as int,
            skipped: self.skipped as int,
            failed: self.failed@.map_values(|p: (String, String)| (p.0@, p.1@)),
        }
    }
}

pub open spec fn empty_stats() -> StatsView {
    StatsView { processed: 0, imported: 0, skipped: 0, failed: Seq::empty() }
}

impl ProcessingStats {
    /// Fresh counts.
    pub fn new() -> (r: Self)
        ensures r@ == empty_stats(),
    {
        let r = ProcessingStats { processed: 0, imported: 0, skipped: 0, failed: Vec::new() };
        proof {
            assert(r@.failed =~= empty_stats().failed);
        }
        r
    }

    /// Counts one record skipped because its identifier is already known.
    pub fn note_skipped(&mut self)
        requires old(self).processed < usize::MAX, old(self).skipped < usize::MAX,
        ensures
            final(self)@ == (StatsView {
                processed: old(self)@.processed + 1,
                skipped: old(self)@.skipped + 1,
                ..old(self)@
            }),
    {
        self.processed = self.processed + 1;
        self.skipped = self.skipped + 1;
    }

    /// Counts one record successfully imported.
    pub fn note_imported(&mut self)
        requires old(self).processed < usize::MAX, old(self).imported < usize::MAX,
        ensures
            final(self)@ == (StatsView {
                processed: old(self)@.processed + 1,
                imported: old(self)@.imported + 1,
                ..old(self)@
            }),
    {
        self.processed = self.processed + 1;
        self.imported = self.imported + 1;
    }

    /// Records one failed submission, counted as processed.
    pub fn note_submit_failed(&mut self, id: String, message: String)
        requires old(self).processed < usize::MAX,
        ensures
            final(self)@ == (StatsView {
                processed: old(self)@.processed + 1,
                failed: old(self)@.failed.push((id@, message@)),
                ..old(self)@
            }),
    {
        self.processed = self.processed + 1;
        self.failed.push((id, message));
        proof {
            lemma_pairs_view_push(old(self).failed@, (id, message));
        }
    }

    /// Records one row that never became a record; not counted as processed.
    pub fn note_row_failed(&mut self, id: String, message: String)
        ensures
            final(self)@ == (StatsView {
                failed: old(self)@.failed.push((id@, message@)),
                ..old(self)@
            }),
    {
        self.failed.push((id, message));
        proof {
            lemma_pairs_view_push(old(self).failed@, (id, message));
        }
    }
}

proof fn lemma_pairs_view_push(s: Seq<(String, String)>, p: (String, String))
    ensures
        s.push(p).map_values(|q: (String, String)| (q.0@, q.1@))
            == s.map_values(|q: (String, String)| (q.0@, q.1@)).push((p.0@, p.1@)),
{
    let f = |q: (String, String)| (q.0@, q.1@);
    assert forall|k: int| 0 <= k < s.len() + 1 implies
        #[trigger] s.push(p).map_values(f)[k] == s.map_values(f).push(f(p))[k] by {
        if k < s.len() {
            assert(s.push(p)[k] == s[k]);
        } else {
            assert(s.push(p)[k] == p);
        }
    }
    assert(s.push(p).map_values(f) =~= s.map_values(f).push(f(p)));
}

/// How one normalized row moves the counts, in the mode that only parses and
/// plans: a blank row changes nothing; a row error is recorded without
/// counting the row as processed; a record is processed, and skipped or
/// (would-be) imported by the skip decision.
pub open spec fn tally_step(existing: Set<Seq<char>>, acc: StatsView, row: RowOutcomeView) -> StatsView {
    match row {
        RowOutcomeView::Blank => acc,
        RowOutcomeView::Invalid(e) => StatsView {
            failed: acc.failed.push(("unknown"@, spec_row_error_text(e))),
            ..acc
        },
        RowOutcomeView::Record(rv) => {
            if existing.contains(rv.action_id) {
                StatsView { processed: acc.processed + 1, skipped: acc.skipped + 1, ..acc }
            } else {
                StatsView { processed: acc.processed + 1, imported: acc.imported + 1, ..acc }
            }
        },
    }
}

pub open spec fn spec_tally(
    existing: Set<Seq<char>>,
    rows: Seq<RowOutcomeView>,
    i: int,
    acc: StatsView,
) -> StatsView
    decreases rows.len() - i when 0 <= i <= rows.len()
{
    if i >= rows.len() {
        acc
    } else {
        spec_tally(existing, rows, i + 1, tally_step(existing, acc, rows[i]))
    }
}

pub open spec fn rows_view(rows: Seq<RowOutcome>) -> Seq<RowOutcomeView> {
    rows.map_values(|r: RowOutcome| r@)
}

/// Tallies a file's normalized rows against the existing-identifier set
/// without submitting: what the parse-only sweep reports.
#[verifier::loop_isolation(false)]
pub fn classify_rows(existing: &IdSet, rows: &Vec<RowOutcome>) -> (r: ProcessingStats)
    ensures r@ == spec_tally(existing@, rows_view(rows@), 0, empty_stats()),
{
    let ghost all = rows_view(rows@);
    let mut stats = ProcessingStats::new();
    let mut i: usize = 0;
    while i < rows.len()
        invariant
            i <= all.len(),
            all.len() == rows@.len(),
            stats.processed <= i,
            stats.imported <= i,
            stats.skipped <= i,
            spec_tally(existing@, all, 0, empty_stats())
                == spec_tally(existing@, all, i as int, stats@),
        decreases all.len() - i,
    {
        proof { assert(all[i as int] == rows@[i as int]@); }
        match &rows[i] {
            RowOutcome::Blank => {},
            RowOutcome::Invalid(e) => {
                stats.note_row_failed("unknown".to_owned(), e.describe());
            },
            RowOutcome::Record(a) => {
                match plan_record(existing, a.action_id()) {
                    RecordPlan::Skip => { stats.note_skipped(); },
                    RecordPlan::Submit => { stats.note_imported(); },
                }
            },
        }
        i += 1;
    }
    stats
}

/// Normalization is deterministic in both adapters: the outcome of a row is
/// a function of the headers and the raw row alone, so identical raw rows
/// yield identical records, errors, or skips.
pub proof fn lemma_normalization_deterministic(
    h1: Seq<Seq<char>>, c1: Seq<CellView>, f1: Seq<Seq<char>>,
    h2: Seq<Seq<char>>, c2: Seq<CellView>, f2: Seq<Seq<char>>,
)
    requires h1 == h2, c1 == c2, f1 == f2,
    ensures
        spec_normalize_sheet_row(h1, c1) == spec_normalize_sheet_row(h2, c2),
        crate::normalize::spec_normalize_delimited_row(h1, f1)
            == crate::normalize::spec_normalize_delimited_row(h2, f2),
{
}

/// A spreadsheet row whose every cell is blank is excluded from both the
/// processed and the failed counts: it normalizes to the blank outcome, and
/// the blank outcome moves no count.
pub proof fn lemma_blank_row_uncounted(
    headers: Seq<Seq<char>>,
    cells: Seq<CellView>,
    existing: Set<Seq<char>>,
    acc: StatsView,
)
    requires
        forall|i: int| 0 <= i < headers.len() ==> !cell_has_data(#[trigger] cell_at(cells, i)),
    ensures
        spec_normalize_sheet_row(headers, cells) == RowOutcomeView::Blank,
        tally_step(existing, acc, RowOutcomeView::Blank) == acc,
{
    assert(!row_has_data(headers, cells));
}

/// With one record's identifier already known and another's not, exactly the
/// known one is skipped and exactly the other is submitted.
pub proof fn lemma_skip_versus_submit(existing: Set<Seq<char>>, known: Seq<char>, unknown: Seq<char>)
    requires existing.contains(known), !existing.contains(unknown),
    ensures
        spec_plan(existing, known) == RecordPlan::Skip,
        spec_plan(existing, unknown) == RecordPlan::Submit,
{
}

} // verus!

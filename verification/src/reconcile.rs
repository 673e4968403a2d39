//! Existing-identifier reconciliation: the verified core of fetching the
//! identifiers already present remotely.  The network sits outside; what
//! stands here decides what each response means — retry after a gateway
//! timeout, retry once on an expired token, fail, or take the identifiers —
//! and unions the comma-delimited identifier lists into the run's set.

use vstd::prelude::*;
use crate::idset::IdSet;
use crate::textparse::{trimmed, trim_chars};
use crate::strings::append_chars;

verus! {

/// How many gateway-timeout retries one resource may take before the run
/// fails; the cooldown between tries sits beside it.
pub const MAX_GATEWAY_RETRIES: u32 = 100;

/// Seconds to wait after a gateway timeout before the same resource is tried
/// again.
pub const GATEWAY_COOLDOWN_SECS: u64 = 60;

/// A terminal failure of the reconciliation phase, which aborts the run
/// before any submission: skip decisions would otherwise be unsound.
#[derive(Debug, Clone)]
pub enum ReconcileError {
    /// A second unauthorized response for one resource.
    AuthExpired,
    /// Any other non-success status, with the response body.
    Remote { status: u16, body: String },
    /// A response body that does not parse as report rows.
    Protocol,
    /// A resource that returned no rows.
    EmptyReport,
    /// Gateway timeouts past the retry ceiling.
    GatewayExhausted,
}

/// What to do after one response from a report resource.
#[derive(Debug, Clone)]
pub enum ReconcileStep {
    /// Wait the cooldown, take a fresh token, and try the resource again.
    RetryAfterCooldown,
    /// Take a fresh token and try the resource once more.
    RetryWithFreshToken,
    /// The resource is finished; its identifiers are in the accumulator.
    Done,
    /// The run fails.
    Fail(ReconcileError),
}

/// The identifiers one segment of a comma-delimited list contributes: its
/// trimmed text, unless blank.
pub open spec fn seg_set(seg: Seq<char>) -> Set<Seq<char>> {
    if trimmed(seg).len() > 0 { set![trimmed(seg)] } else { Set::empty() }
}

/// The identifiers of `s[i..]`, with `cur` the segment read so far.
pub open spec fn row_ids_acc(s: Seq<char>, i: int, cur: Seq<char>) -> Set<Seq<char>>
    decreases s.len() - i when 0 <= i <= s.len()
{
    if i >= s.len() {
        seg_set(cur)
    } else if s[i] == ',' {
        seg_set(cur).union(row_ids_acc(s, i + 1, Seq::empty()))
    } else {
        row_ids_acc(s, i + 1, cur.push(s[i]))
    }
}

/// The identifiers in one comma-delimited list: split on commas, trim each
/// piece, drop the blanks.
pub open spec fn row_ids(s: Seq<char>) -> Set<Seq<char>> {
    row_ids_acc(s, 0, Seq::empty())
}

/// The identifiers of a whole report: the union over its rows.
pub open spec fn rows_ids(rows: Seq<Seq<char>>) -> Set<Seq<char>>
    decreases rows.len()
{
    if rows.len() == 0 {
        Set::empty()
    } else {
        row_ids(rows[0]).union(rows_ids(rows.drop_first()))
    }
}

/// Unions the identifiers of one comma-delimited list into the accumulator.
#[verifier::loop_isolation(false)]
pub fn add_row_ids(acc: &mut IdSet, row: &str)
    requires old(acc).wf(),
    ensures
        final(acc)@ == old(acc)@.union(row_ids(row@)),
        final(acc).wf(),
{
    let v = crate::textparse::chars_of(row);
    let ghost s = v@;
    let mut cur: Vec<char> = Vec::new();
    let mut i: usize = 0;
    while i < v.len()
        invariant
            i <= s.len(),
            acc.wf(),
            old(acc)@.union(row_ids(s)) == acc@.union(row_ids_acc(s, i as int, cur@)),
        decreases s.len() - i,
    {
        let c = v[i];
        if c == ',' {
            proof {
                assert(row_ids_acc(s, i as int, cur@)
                    == seg_set(cur@).union(row_ids_acc(s, i + 1, Seq::empty())));
            }
            flush_segment(acc, &cur);
            proof {
                assert(acc@.union(row_ids_acc(s, i + 1, Seq::empty()))
                    =~= old(acc)@.union(row_ids(s)));
            }
            cur = Vec::new();
        } else {
            cur.push(c);
            proof {
                assert(s[i as int] == c);
            }
        }
        i += 1;
    }
    proof {
        assert(row_ids_acc(s, s.len() as int, cur@) == seg_set(cur@));
    }
    flush_segment(acc, &cur);
    proof {
        assert(final(acc)@ =~= old(acc)@.union(row_ids(s)));
    }
}

/// Adds one segment's trimmed identifier, unless blank.
fn flush_segment(acc: &mut IdSet, cur: &Vec<char>)
    requires old(acc).wf(),
    ensures
        final(acc)@ == old(acc)@.union(seg_set(cur@)),
        final(acc).wf(),
{
    let t = trim_chars(cur);
    if t.len() > 0 {
        let mut id = String::new();
        append_chars(&mut id, &t);
        acc.insert(id);
        proof {
            assert(final(acc)@ =~= old(acc)@.union(seg_set(cur@)));
        }
    } else {
        proof {
            assert(old(acc)@.union(seg_set(cur@)) =~= old(acc)@);
        }
    }
}

/// Unions the identifiers of every row of a report into the accumulator.
#[verifier::loop_isolation(false)]
pub fn add_report_rows(acc: &mut IdSet, rows: &Vec<String>)
    requires old(acc).wf(),
    ensures
        final(acc)@ == old(acc)@.union(rows_ids(rows.deep_view())),
        final(acc).wf(),
{
    let ghost all = rows.deep_view();
    proof { assert(all.skip(0) =~= all); }
    let mut i: usize = 0;
    while i < rows.len()
        invariant
            i <= all.len(),
            all.len() == rows@.len(),
            acc.wf(),
            old(acc)@.union(rows_ids(all)) == acc@.union(rows_ids(all.skip(i as int))),
        decreases all.len() - i,
    {
        proof {
            let rest = all.skip(i as int);
            assert(rest[0] == all[i as int]);
            assert(rest.drop_first() =~= all.skip(i + 1));
            assert(rows_ids(rest) == row_ids(all[i as int]).union(rows_ids(all.skip(i + 1))));
            assert(all[i as int] == rows@[i as int]@);
        }
        add_row_ids(acc, rows[i].as_str());
        proof {
            assert(acc@.union(rows_ids(all.skip(i + 1))) =~= old(acc)@.union(rows_ids(all)));
        }
        i += 1;
    }
    proof {
        assert(all.skip(all.len() as int) =~= Seq::<Seq<char>>::empty());
        assert(final(acc)@.union(rows_ids(all.skip(all.len() as int))) =~= final(acc)@);
    }
}

/// The identifier lists a report body parses to, one per row, or nothing
/// where the body is not a report.
pub uninterp spec fn report_rows_of(body: Seq<char>) -> Option<Seq<Seq<char>>>;

/// Relies on serde_json::from_str: the body must be a JSON array of objects,
/// each holding the strings `group_num` and `action_ids`; the result is the
/// `action_ids` text of each row, in order, a pure function of the body.
#[verifier::external_body]
fn parse_report_rows(body: &str) -> (r: Option<Vec<String>>)
    ensures
        match r {
            Some(v) => report_rows_of(body@) == Some(v.deep_view()),
            None => report_rows_of(body@) is None,
        },
{
    let rows: Vec<serde_json::Value> = serde_json::from_str(body).ok()?;
    rows.iter()
        .map(|row| {
            row.get("group_num")?.as_str()?;
            Some(row.get("action_ids")?.as_str()?.to_string())
        })
        .collect::<Option<Vec<String>>>()
}

/// Decides what one response from a report resource means, and on success
/// unions its identifiers into the accumulator.
///
/// A gateway timeout asks for a cooldown and a retry, up to the ceiling; the
/// first unauthorized response asks for one retry under a fresh token and a
/// second is terminal; any other non-success status is terminal; a body that
/// is not a report, or an empty report, is terminal; otherwise the resource
/// is done and its identifiers are in the accumulator.
pub fn reconcile_response(
    status: u16,
    auth_retried: bool,
    gateway_retries: u32,
    body: &str,
    acc: &mut IdSet,
) -> (r: ReconcileStep)
    requires old(acc).wf(),
    ensures
        final(acc).wf(),
        status == 504 && gateway_retries < MAX_GATEWAY_RETRIES ==>
            (r matches ReconcileStep::RetryAfterCooldown && final(acc)@ == old(acc)@),
        status == 504 && gateway_retries >= MAX_GATEWAY_RETRIES ==>
            (r matches ReconcileStep::Fail(ReconcileError::GatewayExhausted)
                && final(acc)@ == old(acc)@),
        status == 401 && !auth_retried ==>
            (r matches ReconcileStep::RetryWithFreshToken && final(acc)@ == old(acc)@),
        status == 401 && auth_retried ==>
            (r matches ReconcileStep::Fail(ReconcileError::AuthExpired) && final(acc)@ == old(acc)@),
        status != 504 && status != 401 && !(200 <= status < 300) ==>
            (r matches ReconcileStep::Fail(ReconcileError::Remote { status: st, body: b })
                && st == status && b@ == body@)
                && final(acc)@ == old(acc)@,
        200 <= status < 300 ==> match report_rows_of(body@) {
            None => (r matches ReconcileStep::Fail(ReconcileError::Protocol)
                && final(acc)@ == old(acc)@),
            Some(rows) => if rows.len() == 0 {
                (r matches ReconcileStep::Fail(ReconcileError::EmptyReport)
                    && final(acc)@ == old(acc)@)
            } else {
                (r matches ReconcileStep::Done
                    && final(acc)@ == old(acc)@.union(rows_ids(rows)))
            },
        },
{
    if status == 504 {
        if gateway_retries < MAX_GATEWAY_RETRIES {
            return ReconcileStep::RetryAfterCooldown;
        }
        return ReconcileStep::Fail(ReconcileError::GatewayExhausted);
    }
    if status == 401 {
        if !auth_retried {
            return ReconcileStep::RetryWithFreshToken;
        }
        return ReconcileStep::Fail(ReconcileError::AuthExpired);
    }
    if !(200 <= status && status < 300) {
        return ReconcileStep::Fail(ReconcileError::Remote { status, body: body.to_owned() });
    }
    let rows = match parse_report_rows(body) {
        Some(rows) => rows,
        None => { return ReconcileStep::Fail(ReconcileError::Protocol); },
    };
    if rows.len() == 0 {
        proof { assert(rows.deep_view().len() == 0); }
        return ReconcileStep::Fail(ReconcileError::EmptyReport);
    }
    add_report_rows(acc, &rows);
    ReconcileStep::Done
}

/// Reconciliation unions the identifiers of every configured resource, and
/// as a set union it collapses duplicates and heeds no order: taking two
/// reports one after the other, from any starting set, yields the starting
/// set joined with both reports' identifiers, however the two overlap.
pub proof fn lemma_reconcile_union(acc0: Set<Seq<char>>, rows1: Seq<Seq<char>>, rows2: Seq<Seq<char>>)
    ensures
        acc0.union(rows_ids(rows1)).union(rows_ids(rows2))
            == acc0.union(rows_ids(rows1).union(rows_ids(rows2))),
        acc0.union(rows_ids(rows1)).union(rows_ids(rows2))
            == acc0.union(rows_ids(rows2)).union(rows_ids(rows1)),
{
    assert(acc0.union(rows_ids(rows1)).union(rows_ids(rows2))
        =~= acc0.union(rows_ids(rows1).union(rows_ids(rows2))));
    assert(acc0.union(rows_ids(rows1)).union(rows_ids(rows2))
        =~= acc0.union(rows_ids(rows2)).union(rows_ids(rows1)));
}

} // verus!

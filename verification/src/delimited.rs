//! The delimited-text adapter: a file's text parses into a header row and
//! field rows, and each row normalizes into a canonical record or a per-row
//! error without aborting the rest.

use vstd::prelude::*;
use crate::normalize::{
    RowOutcome, RowOutcomeView, RowError, normalize_delimited_row, spec_normalize_delimited_row,
};
use crate::process::rows_view;

verus! {

/// The table a delimited text parses to: the header row, then each data
/// row's fields — or nothing for a row that cannot be read.  `None` where
/// the text has no readable header row.
pub uninterp spec fn csv_table_of(text: Seq<char>) -> Option<(Seq<Seq<char>>, Seq<Option<Seq<Seq<char>>>>)>;

/// Relies on csv::ReaderBuilder and csv::StringRecord: parses
/// comma-separated text whose first row is the header row; each later row
/// yields its fields, or nothing where the reader refuses it; a pure
/// function of the text.
#[verifier::external_body]
fn parse_csv_table(text: &str) -> (r: Option<(Vec<String>, Vec<Option<Vec<String>>>)>)
    ensures
        match r {
            Some(t) => csv_table_of(text@) == Some((t.0.deep_view(), t.1.deep_view())),
            None => csv_table_of(text@) is None,
        },
{
    let mut rdr = csv::ReaderBuilder::new().has_headers(true).from_reader(text.as_bytes());
    let headers: Vec<String> = rdr.headers().ok()?.iter().map(String::from).collect();
    let rows: Vec<Option<Vec<String>>> = rdr
        .records()
        .map(|rec| rec.ok().map(|row| row.iter().map(String::from).collect()))
        .collect();
    Some((headers, rows))
}

/// What each row of a parsed table normalizes to: an unreadable row is a row
/// error, every other row goes through the delimited-row normalizer.
pub open spec fn spec_delimited_outcomes(
    headers: Seq<Seq<char>>,
    rows: Seq<Option<Seq<Seq<char>>>>,
) -> Seq<RowOutcomeView> {
    rows.map_values(|row: Option<Seq<Seq<char>>>| match row {
        None => RowOutcomeView::Invalid(RowError::Unreadable),
        Some(fields) => match spec_normalize_delimited_row(headers, fields) {
            Ok(rv) => RowOutcomeView::Record(rv),
            Err(e) => RowOutcomeView::Invalid(e),
        },
    })
}

/// Normalizes a whole delimited text: `None` where no header row can be
/// read, otherwise one outcome per data row, in order.
#[verifier::loop_isolation(false)]
pub fn normalize_delimited_text(text: &str) -> (r: Option<Vec<RowOutcome>>)
    ensures
        match r {
            Some(v) => (csv_table_of(text@) matches Some(t)
                && rows_view(v@) == spec_delimited_outcomes(t.0, t.1)),
            None => csv_table_of(text@) is None,
        },
{
    let (headers, rows) = match parse_csv_table(text) {
        Some(t) => t,
        None => { return None; },
    };
    let ghost hs = headers.deep_view();
    let ghost rs = rows.deep_view();
    let ghost target = spec_delimited_outcomes(hs, rs);
    proof {
        assert(crate::normalize::strs_view(headers@) =~= hs);
    }
    let mut out: Vec<RowOutcome> = Vec::new();
    let mut i: usize = 0;
    while i < rows.len()
        invariant
            i <= rs.len(),
            rs.len() == rows@.len(),
            rows_view(out@) =~= target.subrange(0, i as int),
        decreases rs.len() - i,
    {
        proof {
            match rows@[i as int] {
                Some(ref fields) => {
                    assert(rs[i as int] == Some(fields.deep_view()));
                },
                None => {
                    assert(rs[i as int] is None);
                },
            }
        }
        let outcome = match &rows[i] {
            None => RowOutcome::Invalid(RowError::Unreadable),
            Some(fields) => {
                proof {
                    assert(crate::normalize::strs_view(fields@) =~= rs[i as int].unwrap());
                }
                match normalize_delimited_row(&headers, fields) {
                    Ok(a) => RowOutcome::Record(a),
                    Err(e) => RowOutcome::Invalid(e),
                }
            },
        };
        out.push(outcome);
        proof {
            let cur = out@;
            assert forall|k: int| 0 <= k < cur.len() implies
                #[trigger] rows_view(cur)[k] == target.subrange(0, i + 1)[k] by {
                if k < cur.len() - 1 {
                    assert(cur[k] == out@.drop_last()[k]);
                    assert(rows_view(out@.drop_last())[k] == target.subrange(0, i as int)[k]);
                }
            }
            assert(rows_view(cur) =~= target.subrange(0, i + 1));
        }
        i += 1;
    }
    proof { assert(target.subrange(0, target.len() as int) =~= target); }
    Some(out)
}

} // verus!

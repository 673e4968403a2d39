//! The JSON wire shape of a canonical record, rendered and proved against a
//! character-exact specification: field order fixed, text escaped, the
//! timestamp shifted from the fixed UTC-minus-7 civil time to UTC.

use vstd::prelude::*;
use vstd::string::StringExecFns;
use crate::datetime::{Timestamp, spec_to_utc, to_utc_checked};
use crate::record::{ActionObject, RecordView};
use crate::strings::{digit_char, dec_digits, u64_to_string, push_char};

verus! {

/// JSON escaping of one character, as strict JSON emitters write strings.
pub open spec fn esc_char(c: char) -> Seq<char> {
    if c == '"' { seq!['\\', '"'] }
    else if c == '\\' { seq!['\\', '\\'] }
    else if c == '\u{8}' { seq!['\\', 'b'] }
    else if c == '\u{c}' { seq!['\\', 'f'] }
    else if c == '\n' { seq!['\\', 'n'] }
    else if c == '\r' { seq!['\\', 'r'] }
    else if c == '\t' { seq!['\\', 't'] }
    else if (c as u32) < 0x20 {
        seq!['\\', 'u', '0', '0',
            digit_char(((c as u32) / 16) as int),
            hex_char(((c as u32) % 16) as int)]
    }
    else { seq![c] }
}

pub open spec fn hex_char(d: int) -> char {
    if d < 10 { digit_char(d) }
    else if d == 10 { 'a' } else if d == 11 { 'b' } else if d == 12 { 'c' }
    else if d == 13 { 'd' } else if d == 14 { 'e' } else { 'f' }
}

pub open spec fn json_escaped_from(s: Seq<char>, i: int) -> Seq<char>
    decreases s.len() - i when 0 <= i <= s.len()
{
    if i >= s.len() { Seq::empty() } else { esc_char(s[i]) + json_escaped_from(s, i + 1) }
}

/// The body of a JSON string holding the text `s`.
pub open spec fn json_escaped(s: Seq<char>) -> Seq<char> {
    json_escaped_from(s, 0)
}

/// A JSON string holding the text `s`.
pub open spec fn quoted(s: Seq<char>) -> Seq<char> {
    seq!['"'] + json_escaped(s) + seq!['"']
}

/// `n` in decimal, zero-padded to exactly `w` digits (the low `w` digits).
pub open spec fn pad_dec(n: nat, w: nat) -> Seq<char>
    decreases w
{
    if w == 0 { Seq::empty() } else { pad_dec(n / 10, (w - 1) as nat) + seq![digit_char((n % 10) as int)] }
}

/// A UTC instant on the wire: date, `T`, time, and a fixed `.000Z` tail at
/// the millisecond precision the wire asks for.
pub open spec fn utc_render(t: Timestamp) -> Seq<char> {
    pad_dec(t.year as nat, 4) + seq!['-'] + pad_dec(t.month as nat, 2) + seq!['-']
        + pad_dec(t.day as nat, 2) + seq!['T'] + pad_dec(t.hour as nat, 2) + seq![':']
        + pad_dec(t.minute as nat, 2) + seq![':'] + pad_dec(t.second as nat, 2) + ".000Z"@
}

/// The JSON object of one record, given the rendered date value.
pub open spec fn record_json(r: RecordView, cfid: u32, date_txt: Seq<char>) -> Seq<char> {
    "{\"ticket_id\":"@ + dec_digits(r.ticket_id as nat)
        + ",\"actiondate\":"@ + date_txt
        + ",\"note\":"@ + quoted(r.note)
        + ",\"outcome\":"@ + quoted(r.outcome)
        + ",\"actionwho\":"@ + quoted(r.actionwho)
        + ",\"customfields\":[{\"id\":"@ + dec_digits(cfid as nat)
        + ",\"value\":"@ + quoted(r.action_id)
        + "}],\"_isimport\":"@ + (if r.is_import { "true"@ } else { "false"@ })
        + "}"@
}

/// What one record serializes to: its JSON object, with the timestamp — if
/// any — converted from the fixed UTC-minus-7 civil time to UTC.  `None`
/// exactly where that shift passes the end of the representable years.
pub open spec fn spec_render_record(r: RecordView, cfid: u32) -> Option<Seq<char>> {
    match r.actiondate {
        None => Some(record_json(r, cfid, "null"@)),
        Some(t) => if t.wf() {
            match spec_to_utc(t) {
                Some(u) => Some(record_json(r, cfid, quoted(utc_render(u)))),
                None => None,
            }
        } else {
            None
        },
    }
}

/// Appends the JSON escaping of `t` to `out`.
#[verifier::loop_isolation(false)]
fn append_escaped(out: &mut String, t: &str)
    ensures final(out)@ == old(out)@ + json_escaped(t@),
{
    let v = crate::textparse::chars_of(t);
    let ghost s = v@;
    let mut i: usize = 0;
    while i < v.len()
        invariant
            i <= s.len(),
            out@ + json_escaped_from(s, i as int) == old(out)@ + json_escaped(s),
        decreases s.len() - i,
    {
        let c = v[i];
        proof {
            assert(json_escaped_from(s, i as int) == esc_char(s[i as int]) + json_escaped_from(s, i + 1));
        }
        if c == '"' {
            out.append("\\\"");
            proof { reveal_strlit("\\\""); assert("\\\""@ =~= esc_char(c)); }
        } else if c == '\\' {
            out.append("\\\\");
            proof { reveal_strlit("\\\\"); assert("\\\\"@ =~= esc_char(c)); }
        } else if c == '\u{8}' {
            out.append("\\b");
            proof { reveal_strlit("\\b"); assert("\\b"@ =~= esc_char(c)); }
        } else if c == '\u{c}' {
            out.append("\\f");
            proof { reveal_strlit("\\f"); assert("\\f"@ =~= esc_char(c)); }
        } else if c == '\n' {
            out.append("\\n");
            proof { reveal_strlit("\\n"); assert("\\n"@ =~= esc_char(c)); }
        } else if c == '\r' {
            out.append("\\r");
            proof { reveal_strlit("\\r"); assert("\\r"@ =~= esc_char(c)); }
        } else if c == '\t' {
            out.append("\\t");
            proof { reveal_strlit("\\t"); assert("\\t"@ =~= esc_char(c)); }
        } else if (c as u32) < 0x20 {
            out.append("\\u00");
            let hi = crate::strings::digit_to_char(((c as u32) / 16) as u8);
            push_char(out, hi);
            let lo = hex_char_x(((c as u32) % 16) as u8);
            push_char(out, lo);
            proof {
                reveal_strlit("\\u00");
                assert("\\u00"@ + seq![hi] + seq![lo] =~= esc_char(c));
            }
        } else {
            push_char(out, c);
            proof { assert(seq![c] =~= esc_char(c)); }
        }
        proof {
            assert(out@ + json_escaped_from(s, i + 1) =~= old(out)@ + json_escaped(s));
        }
        i += 1;
    }
    proof { assert(json_escaped_from(s, s.len() as int) =~= Seq::<char>::empty()); }
}

fn hex_char_x(d: u8) -> (c: char)
    requires d <= 15,
    ensures c == hex_char(d as int),
{
    if d < 10 { crate::strings::digit_to_char(d) }
    else if d == 10 { 'a' } else if d == 11 { 'b' } else if d == 12 { 'c' }
    else if d == 13 { 'd' } else if d == 14 { 'e' } else { 'f' }
}

/// Appends a JSON string holding `t`.
fn append_quoted(out: &mut String, t: &str)
    ensures final(out)@ == old(out)@ + quoted(t@),
{
    push_char(out, '"');
    append_escaped(out, t);
    push_char(out, '"');
    proof { assert(final(out)@ =~= old(out)@ + quoted(t@)); }
}

/// Appends `n` zero-padded to `w` digits.
fn append_padded(out: &mut String, n: u32, w: usize)
    ensures final(out)@ == old(out)@ + pad_dec(n as nat, w as nat),
    decreases w,
{
    if w == 0 {
        proof { assert(old(out)@ + pad_dec(n as nat, 0) =~= old(out)@); }
        return;
    }
    append_padded(out, n / 10, w - 1);
    push_char(out, crate::strings::digit_to_char((n % 10) as u8));
    proof { assert(final(out)@ =~= old(out)@ + pad_dec(n as nat, w as nat)); }
}

/// Appends the wire form of a UTC instant.
fn append_utc(out: &mut String, t: &Timestamp)
    ensures final(out)@ == old(out)@ + utc_render(*t),
{
    append_padded(out, t.year, 4);
    push_char(out, '-');
    append_padded(out, t.month, 2);
    push_char(out, '-');
    append_padded(out, t.day, 2);
    push_char(out, 'T');
    append_padded(out, t.hour, 2);
    push_char(out, ':');
    append_padded(out, t.minute, 2);
    push_char(out, ':');
    append_padded(out, t.second, 2);
    out.append(".000Z");
    proof {
        reveal_strlit(".000Z");
        assert(final(out)@ =~= old(out)@ + utc_render(*t));
    }
}

/// Why a record cannot be put on the wire.
#[derive(Clone, Copy, PartialEq, Eq, Structural, Debug)]
pub enum WireError {
    /// The timestamp's UTC shift passes the end of the representable years.
    DateOutOfRange,
}

/// Renders one record as its JSON object for submission, under the
/// configured custom-field identifier.
pub fn render_record(rec: &ActionObject, cfid: u32) -> (r: Result<String, WireError>)
    ensures
        match r {
            Ok(s) => spec_render_record(rec@, cfid) == Some(s@),
            Err(_) => spec_render_record(rec@, cfid) is None,
        },
{
    let date_txt: Option<Option<Timestamp>> = match &rec.actiondate {
        None => Some(None),
        Some(t) => {
            if !crate::datetime::timestamp_wf(t) {
                None
            } else {
                match to_utc_checked(t) {
                    Some(u) => Some(Some(u)),
                    None => None,
                }
            }
        },
    };
    let shifted = match date_txt {
        Some(o) => o,
        None => { return Err(WireError::DateOutOfRange); },
    };
    let mut out = String::new();
    out.append("{\"ticket_id\":");
    let tid = u64_to_string(rec.ticket_id as u64);
    out.append(tid.as_str());
    out.append(",\"actiondate\":");
    match &shifted {
        None => { out.append("null"); },
        Some(u) => { append_quoted_utc(&mut out, u); },
    }
    out.append(",\"note\":");
    append_quoted(&mut out, rec.note.as_str());
    out.append(",\"outcome\":");
    append_quoted(&mut out, rec.outcome.as_str());
    out.append(",\"actionwho\":");
    append_quoted(&mut out, rec.actionwho.as_str());
    out.append(",\"customfields\":[{\"id\":");
    let cf = u64_to_string(cfid as u64);
    out.append(cf.as_str());
    out.append(",\"value\":");
    append_quoted(&mut out, rec.action_id());
    out.append("}],\"_isimport\":");
    if rec._isimport {
        out.append("true");
    } else {
        out.append("false");
    }
    out.append("}");
    proof {
        reveal_strlit("{\"ticket_id\":");
        reveal_strlit(",\"actiondate\":");
        reveal_strlit(",\"note\":");
        reveal_strlit(",\"outcome\":");
        reveal_strlit(",\"actionwho\":");
        reveal_strlit(",\"customfields\":[{\"id\":");
        reveal_strlit(",\"value\":");
        reveal_strlit("}],\"_isimport\":");
        reveal_strlit("true");
        reveal_strlit("false");
        reveal_strlit("null");
        reveal_strlit("}");
        match rec@.actiondate {
            None => {
                assert(out@ =~= record_json(rec@, cfid, "null"@));
            },
            Some(t) => {
                let u = spec_to_utc(t).unwrap();
                assert(out@ =~= record_json(rec@, cfid, quoted(utc_render(u))));
            },
        }
    }
    Ok(out)
}

/// Appends a quoted UTC instant.
fn append_quoted_utc(out: &mut String, u: &Timestamp)
    ensures final(out)@ == old(out)@ + quoted(utc_render(*u)),
{
    let mut inner = String::new();
    append_utc(&mut inner, u);
    append_quoted(out, inner.as_str());
}

/// The submission envelope: a JSON array holding exactly the one record.
pub open spec fn spec_submission_body(r: RecordView, cfid: u32) -> Option<Seq<char>> {
    match spec_render_record(r, cfid) {
        Some(s) => Some(seq!['['] + s + seq![']']),
        None => None,
    }
}

/// Wraps one rendered record in the single-element batch the remote action
/// resource expects.
pub fn submission_body(rec: &ActionObject, cfid: u32) -> (r: Result<String, WireError>)
    ensures
        match r {
            Ok(s) => spec_submission_body(rec@, cfid) == Some(s@),
            Err(_) => spec_submission_body(rec@, cfid) is None,
        },
{
    let inner = match render_record(rec, cfid) {
        Ok(s) => s,
        Err(e) => { return Err(e); },
    };
    let mut out = String::new();
    push_char(&mut out, '[');
    out.append(inner.as_str());
    push_char(&mut out, ']');
    proof {
        assert(out@ =~= seq!['['] + inner@ + seq![']']);
    }
    Ok(out)
}

} // verus!

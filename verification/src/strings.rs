//! Small verified helpers over strings of decimal digits.

use vstd::prelude::*;
use vstd::string::StringExecFns;

verus! {

/// The decimal digit character for `d`.
pub open spec fn digit_char(d: int) -> char
    recommends 0 <= d <= 9
{
    if d == 0 { '0' } else if d == 1 { '1' } else if d == 2 { '2' }
    else if d == 3 { '3' } else if d == 4 { '4' } else if d == 5 { '5' }
    else if d == 6 { '6' } else if d == 7 { '7' } else if d == 8 { '8' }
    else { '9' }
}

/// Decimal rendering of a natural number, without leading zeros.
pub open spec fn dec_digits(n: nat) -> Seq<char>
    decreases n
{
    if n < 10 {
        seq![digit_char(n as int)]
    } else {
        dec_digits(n / 10) + seq![digit_char((n % 10) as int)]
    }
}

/// `dec_digits(n)` grouped from the right in threes with `,` between groups.
pub open spec fn grouped(s: Seq<char>) -> Seq<char>
    decreases s.len()
{
    if s.len() <= 3 {
        s
    } else {
        grouped(s.subrange(0, s.len() - 3)) + seq![','] + s.subrange(s.len() - 3, s.len() as int)
    }
}

/// Renders `n` in decimal with `,` every three digits: 1234567 becomes "1,234,567".
pub fn format_number(n: usize) -> (r: String)
    ensures
        r@ == grouped(dec_digits(n as nat)),
{
    let digits = dec_digit_chars(n as u64);
    let ghost all = digits@;
    let mut out = String::new();
    let mut i: usize = 0;
    while i < digits.len()
        invariant
            i <= digits.len(),
            digits@ == all,
            all == dec_digits(n as nat),
            out@ == grouped_prefix(all, i as int),
        decreases digits.len() - i,
    {
        proof {
            lemma_grouped_prefix_step(all, i as int);
        }
        if i > 0 && (digits.len() - i) % 3 == 0 {
            out.append(",");
            proof {
                reveal_strlit(",");
                assert(","@ =~= seq![',']);
            }
        }
        let c = digits[i];
        push_char(&mut out, c);
        proof {
            assert(out@ =~= grouped_prefix(all, i + 1));
        }
        i += 1;
    }
    proof {
        lemma_grouped_prefix_full(all);
    }
    out
}

/// The first `i` digits of `s`, grouped as they will stand in `grouped(s)`.
pub open spec fn grouped_prefix(s: Seq<char>, i: int) -> Seq<char>
    decreases i
{
    if i <= 0 {
        Seq::<char>::empty()
    } else {
        grouped_prefix(s, i - 1)
            + (if i - 1 > 0 && (s.len() - (i - 1)) % 3 == 0 { seq![','] } else { Seq::<char>::empty() })
            + seq![s[i - 1]]
    }
}

proof fn lemma_grouped_prefix_step(s: Seq<char>, i: int)
    requires 0 <= i < s.len(),
    ensures
        grouped_prefix(s, i + 1) ==
            grouped_prefix(s, i)
            + (if i > 0 && (s.len() - i) % 3 == 0 { seq![','] } else { Seq::<char>::empty() })
            + seq![s[i]],
{
}

proof fn lemma_grouped_prefix_full(s: Seq<char>)
    ensures grouped_prefix(s, s.len() as int) == grouped(s),
    decreases s.len(),
{
    if s.len() <= 3 {
        lemma_grouped_prefix_is_prefix(s, s.len() as int);
        assert(grouped_prefix(s, s.len() as int) =~= s);
    } else {
        let head = s.subrange(0, s.len() - 3);
        lemma_grouped_prefix_full(head);
        lemma_grouped_prefix_head(s, s.len() - 3);
        assert(grouped_prefix(s, s.len() as int) =~=
            grouped(head) + seq![','] + s.subrange(s.len() - 3, s.len() as int));
    }
}

/// For `i` in the leading (ungrouped-so-far) part nothing but plain digits stand.
proof fn lemma_grouped_prefix_is_prefix(s: Seq<char>, i: int)
    requires 0 <= i <= s.len(), s.len() <= 3,
    ensures grouped_prefix(s, i) == s.subrange(0, i),
    decreases i,
{
    if i > 0 {
        lemma_grouped_prefix_is_prefix(s, i - 1);
        assert(grouped_prefix(s, i) =~= s.subrange(0, i));
    } else {
        assert(grouped_prefix(s, 0) =~= s.subrange(0, 0));
    }
}

/// Walking a prefix of `s` and the same prefix of its own head agree until the cut.
proof fn lemma_grouped_prefix_head(s: Seq<char>, cut: int)
    requires 0 < cut, cut + 3 == s.len(),
    ensures
        grouped_prefix(s, s.len() as int) ==
            grouped_prefix(s.subrange(0, cut), cut) + seq![','] + s.subrange(cut, s.len() as int),
    decreases s.len(),
{
    lemma_grouped_prefix_align(s, cut, cut);
    let head = s.subrange(0, cut);
    assert(grouped_prefix(s, cut + 1) =~= grouped_prefix(s, cut) + seq![','] + seq![s[cut]]);
    assert(grouped_prefix(s, cut + 2) =~=
        grouped_prefix(s, cut) + seq![','] + seq![s[cut], s[cut + 1]]);
    assert(grouped_prefix(s, cut + 3) =~=
        grouped_prefix(s, cut) + seq![','] + seq![s[cut], s[cut + 1], s[cut + 2]]);
    assert(s.subrange(cut, s.len() as int) =~= seq![s[cut], s[cut + 1], s[cut + 2]]);
}

/// Up to the cut three from the end, grouping of `s` and of its head coincide.
proof fn lemma_grouped_prefix_align(s: Seq<char>, cut: int, i: int)
    requires 0 < cut, cut + 3 == s.len(), 0 <= i <= cut,
    ensures grouped_prefix(s, i) == grouped_prefix(s.subrange(0, cut), i),
    decreases i,
{
    let head = s.subrange(0, cut);
    if i > 0 {
        lemma_grouped_prefix_align(s, cut, i - 1);
        assert(head.len() - (i - 1) == s.len() - 3 - (i - 1));
        assert(((s.len() - (i - 1)) % 3 == 0) == ((head.len() - (i - 1)) % 3 == 0)) by {
            assert(s.len() - (i - 1) == (head.len() - (i - 1)) + 3);
        };
        assert(grouped_prefix(s, i) =~= grouped_prefix(head, i));
    } else {
        assert(grouped_prefix(s, 0) =~= grouped_prefix(head, 0));
    }
}

/// The decimal digits of `n`, most significant first.
pub fn dec_digit_chars(n: u64) -> (r: Vec<char>)
    ensures r@ == dec_digits(n as nat),
    decreases n,
{
    if n < 10 {
        let c = digit_to_char((n % 10) as u8);
        let mut v: Vec<char> = Vec::new();
        v.push(c);
        proof { assert(v@ =~= dec_digits(n as nat)); }
        v
    } else {
        let mut v = dec_digit_chars(n / 10);
        let c = digit_to_char((n % 10) as u8);
        v.push(c);
        proof { assert(v@ =~= dec_digits(n as nat)); }
        v
    }
}

/// The character for one digit.
pub fn digit_to_char(d: u8) -> (c: char)
    requires d <= 9,
    ensures c == digit_char(d as int),
{
    if d == 0 { '0' } else if d == 1 { '1' } else if d == 2 { '2' }
    else if d == 3 { '3' } else if d == 4 { '4' } else if d == 5 { '5' }
    else if d == 6 { '6' } else if d == 7 { '7' } else if d == 8 { '8' }
    else { '9' }
}

/// Appends one character to a string.
pub fn push_char(s: &mut String, c: char)
    ensures final(s)@ == old(s)@ + seq![c],
{
    let mut tail = String::new();
    let v: Vec<char> = vec![c];
    append_chars(&mut tail, &v);
    s.append(tail.as_str());
}

/// Appends every character of `v` to `s`.
pub fn append_chars(s: &mut String, v: &Vec<char>)
    ensures final(s)@ == old(s)@ + v@,
{
    let mut i: usize = 0;
    while i < v.len()
        invariant i <= v.len(), s@ == old(s)@ + v@.subrange(0, i as int),
        decreases v.len() - i,
    {
        char_append(s, v[i]);
        proof { assert(old(s)@ + v@.subrange(0, i + 1) =~= s@); }
        i += 1;
    }
    proof { assert(old(s)@ + v@.subrange(0, v@.len() as int) =~= old(s)@ + v@); }
}

/// Relies on String::push from std: appends exactly the one character.
#[verifier::external_body]
fn char_append(s: &mut String, c: char)
    ensures final(s)@ == old(s)@ + seq![c],
{
    s.push(c);
}

/// Decimal rendering of a signed integer.
pub open spec fn int_dec(i: int) -> Seq<char> {
    if i < 0 { seq!['-'] + dec_digits((-i) as nat) } else { dec_digits(i as nat) }
}

/// Renders a signed 64-bit integer in decimal.
pub fn i64_to_string(i: i64) -> (r: String)
    ensures r@ == int_dec(i as int),
{
    if i >= 0 {
        let v = dec_digit_chars(i as u64);
        let mut s = String::new();
        append_chars(&mut s, &v);
        s
    } else {
        let mag: u64 = if i == i64::MIN { 9223372036854775808u64 } else { (-i) as u64 };
        let v = dec_digit_chars(mag);
        let mut s = String::new();
        push_char(&mut s, '-');
        append_chars(&mut s, &v);
        proof { assert(s@ =~= int_dec(i as int)); }
        s
    }
}

/// Renders an unsigned 64-bit integer in decimal.
pub fn u64_to_string(n: u64) -> (r: String)
    ensures r@ == dec_digits(n as nat),
{
    let v = dec_digit_chars(n);
    let mut s = String::new();
    append_chars(&mut s, &v);
    s
}

} // verus!

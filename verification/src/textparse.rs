//! Verified parsing of the textual shapes the normalizer accepts: whitespace
//! trimming, unsigned decimal numbers, spreadsheet serial numbers with a
//! decimal fraction, and the ISO-like date/time cascade.

use vstd::prelude::*;
use vstd::string::StrSliceExecFns;
use crate::datetime::{Timestamp, valid_date};

verus! {

pub open spec fn is_space(c: char) -> bool {
    c == ' ' || c == '\t' || c == '\n' || c == '\r' || c == '\u{b}' || c == '\u{c}'
}

pub open spec fn is_digit(c: char) -> bool {
    '0' <= c && c <= '9'
}

pub open spec fn digit_val(c: char) -> int {
    c as int - '0' as int
}

pub open spec fn all_digits(s: Seq<char>) -> bool {
    forall|i: int| 0 <= i < s.len() ==> is_digit(#[trigger] s[i])
}

/// The value of a sequence of decimal digits.
pub open spec fn digits_value(s: Seq<char>) -> int
    decreases s.len()
{
    if s.len() == 0 {
        0
    } else {
        digits_value(s.drop_last()) * 10 + digit_val(s.last())
    }
}

pub open spec fn trim_front(s: Seq<char>) -> Seq<char>
    decreases s.len()
{
    if s.len() > 0 && is_space(s[0]) { trim_front(s.drop_first()) } else { s }
}

pub open spec fn trim_back(s: Seq<char>) -> Seq<char>
    decreases s.len()
{
    if s.len() > 0 && is_space(s.last()) { trim_back(s.drop_last()) } else { s }
}

/// `s` with leading and trailing whitespace removed.
pub open spec fn trimmed(s: Seq<char>) -> Seq<char> {
    trim_back(trim_front(s))
}

/// `s` with every trailing occurrence of `c` removed.
pub open spec fn strip_trailing(s: Seq<char>, c: char) -> Seq<char>
    decreases s.len()
{
    if s.len() > 0 && s.last() == c { strip_trailing(s.drop_last(), c) } else { s }
}

/// The characters of a string as a vector.
pub fn chars_of(s: &str) -> (v: Vec<char>)
    ensures v@ == s@,
{
    let len = s.unicode_len();
    let mut v: Vec<char> = Vec::new();
    let mut i: usize = 0;
    while i < len
        invariant i <= len, len == s@.len(), v@ == s@.subrange(0, i as int),
        decreases len - i,
    {
        v.push(s.get_char(i));
        proof { assert(v@ =~= s@.subrange(0, i + 1)); }
        i += 1;
    }
    proof { assert(s@.subrange(0, s@.len() as int) =~= s@); }
    v
}

/// A copy of `v[lo..hi]`.
pub fn subvec(v: &Vec<char>, lo: usize, hi: usize) -> (r: Vec<char>)
    requires lo <= hi <= v@.len(),
    ensures r@ == v@.subrange(lo as int, hi as int),
{
    let mut r: Vec<char> = Vec::new();
    let mut i: usize = lo;
    while i < hi
        invariant lo <= i <= hi, hi <= v@.len(), r@ == v@.subrange(lo as int, i as int),
        decreases hi - i,
    {
        r.push(v[i]);
        proof { assert(r@ =~= v@.subrange(lo as int, i + 1)); }
        i += 1;
    }
    r
}

pub fn is_space_x(c: char) -> (r: bool)
    ensures r == is_space(c),
{
    c == ' ' || c == '\t' || c == '\n' || c == '\r' || c == '\u{b}' || c == '\u{c}'
}

pub fn is_digit_x(c: char) -> (r: bool)
    ensures r == is_digit(c),
{
    '0' <= c && c <= '9'
}

/// A prefix of spaces ending at a non-space (or the end) trims away exactly.
proof fn lemma_trim_front_at(s: Seq<char>, lo: int)
    requires
        0 <= lo <= s.len(),
        forall|i: int| 0 <= i < lo ==> is_space(#[trigger] s[i]),
        lo == s.len() || !is_space(s[lo]),
    ensures trim_front(s) == s.subrange(lo, s.len() as int),
    decreases lo,
{
    if lo == 0 {
        if s.len() > 0 && is_space(s[0]) {
            assert(false);
        }
        assert(s.subrange(0, s.len() as int) =~= s);
    } else {
        assert(is_space(s[0]));
        let t = s.drop_first();
        assert(forall|i: int| 0 <= i < lo - 1 ==> is_space(#[trigger] t[i]));
        lemma_trim_front_at(t, lo - 1);
        assert(t.subrange(lo - 1, t.len() as int) =~= s.subrange(lo, s.len() as int));
    }
}

/// Removes leading and trailing whitespace.
pub fn trim_chars(v: &Vec<char>) -> (r: Vec<char>)
    ensures r@ == trimmed(v@),
{
    let mut lo: usize = 0;
    while lo < v.len() && is_space_x(v[lo])
        invariant
            lo <= v@.len(),
            forall|i: int| 0 <= i < lo ==> is_space(#[trigger] v@[i]),
        decreases v@.len() - lo,
    {
        lo += 1;
    }
    proof { lemma_trim_front_at(v@, lo as int); }
    let ghost f = v@.subrange(lo as int, v@.len() as int);
    let mut hi: usize = v.len();
    while hi > lo && is_space_x(v[hi - 1])
        invariant
            lo <= hi <= v@.len(),
            f == trim_front(v@),
            f == v@.subrange(lo as int, v@.len() as int),
            trim_back(f) == trim_back(v@.subrange(lo as int, hi as int)),
        decreases hi,
    {
        proof {
            let cur = v@.subrange(lo as int, hi as int);
            assert(cur.last() == v@[hi - 1]);
            assert(cur.drop_last() =~= v@.subrange(lo as int, hi - 1));
        }
        hi -= 1;
    }
    proof {
        let cur = v@.subrange(lo as int, hi as int);
        assert(trim_back(cur) == cur);
    }
    subvec(v, lo, hi)
}

/// Removes every trailing occurrence of `c`.
pub fn strip_trailing_chars(v: &Vec<char>, c: char) -> (r: Vec<char>)
    ensures r@ == strip_trailing(v@, c),
{
    let mut hi: usize = v.len();
    proof { assert(v@.subrange(0, v@.len() as int) =~= v@); }
    while hi > 0 && v[hi - 1] == c
        invariant
            hi <= v@.len(),
            strip_trailing(v@, c) == strip_trailing(v@.subrange(0, hi as int), c),
        decreases hi,
    {
        proof {
            let cur = v@.subrange(0, hi as int);
            assert(cur.last() == v@[hi - 1]);
            assert(cur.drop_last() =~= v@.subrange(0, hi - 1));
        }
        hi -= 1;
    }
    proof {
        let cur = v@.subrange(0, hi as int);
        assert(strip_trailing(cur, c) == cur);
    }
    subvec(v, 0, hi)
}

/// Peeling one digit off the end of a digit prefix.
proof fn lemma_digits_value_extend(s: Seq<char>, j: int)
    requires 0 <= j < s.len(),
    ensures digits_value(s.subrange(0, j + 1)) == digits_value(s.subrange(0, j)) * 10 + digit_val(s[j]),
{
    let t = s.subrange(0, j + 1);
    assert(t.drop_last() =~= s.subrange(0, j));
    assert(t.last() == s[j]);
}

/// The value of a digit string is at least the value of any of its prefixes.
proof fn lemma_digits_value_mono(s: Seq<char>, j: int)
    requires 0 <= j <= s.len(), all_digits(s),
    ensures
        digits_value(s.subrange(0, j)) <= digits_value(s),
        digits_value(s) >= 0,
    decreases s.len() - j,
{
    if j == s.len() {
        assert(s.subrange(0, j) =~= s);
        lemma_digits_value_nonneg(s);
    } else {
        lemma_digits_value_extend(s, j);
        lemma_digits_value_nonneg(s.subrange(0, j));
        lemma_digits_value_mono(s, j + 1);
    }
}

proof fn lemma_digits_value_nonneg(s: Seq<char>)
    requires all_digits(s),
    ensures digits_value(s) >= 0,
    decreases s.len(),
{
    if s.len() > 0 {
        assert(all_digits(s.drop_last())) by {
            assert(forall|i: int| 0 <= i < s.len() - 1 ==> s.drop_last()[i] == #[trigger] s[i]);
        }
        lemma_digits_value_nonneg(s.drop_last());
        assert(is_digit(s.last()));
    }
}

/// Ten to the `n`.
pub open spec fn pow10(n: nat) -> int
    decreases n
{
    if n == 0 { 1 } else { 10 * pow10((n - 1) as nat) }
}

/// Reads the decimal value of `v[start..start+count]`, which must be digits.
pub fn read_num(v: &Vec<char>, start: usize, count: usize) -> (r: u32)
    requires
        start + count <= v@.len(),
        count <= 4,
        all_digits(v@.subrange(start as int, (start + count) as int)),
    ensures r == digits_value(v@.subrange(start as int, (start + count) as int)),
{
    let ghost s = v@.subrange(start as int, (start + count) as int);
    let n = v.len();
    let mut acc: u32 = 0;
    let mut i: usize = 0;
    while i < count
        invariant
            i <= count,
            start + count <= n == v@.len(),
            count <= 4,
            s == v@.subrange(start as int, (start + count) as int),
            all_digits(s),
            acc == digits_value(s.subrange(0, i as int)),
            acc <= 9999,
        decreases count - i,
    {
        proof {
            lemma_digits_value_extend(s, i as int);
            lemma_digits_value_nonneg(s.subrange(0, i as int));
            assert(s[i as int] == v@[start + i]);
            lemma_digits_small(s, i + 1);
            assert(pow10(0) == 1);
            assert(pow10(1) == 10);
            assert(pow10(2) == 100);
            assert(pow10(3) == 1000);
            assert(pow10(4) == 10000);
            assert(digits_value(s.subrange(0, i + 1)) < pow10((i + 1) as nat));
            lemma_pow10_mono((i + 1) as nat, 4);
        }
        let c = v[start + i];
        acc = acc * 10 + (c as u32 - '0' as u32);
        i += 1;
    }
    proof { assert(s.subrange(0, count as int) =~= s); }
    acc
}

/// A string of `j` digits has value below ten to the `j`.
proof fn lemma_digits_small(s: Seq<char>, j: int)
    requires 0 <= j <= s.len(), all_digits(s),
    ensures digits_value(s.subrange(0, j)) < pow10(j as nat),
    decreases j,
{
    if j == 0 {
        assert(s.subrange(0, 0) =~= Seq::<char>::empty());
    } else {
        lemma_digits_small(s, j - 1);
        lemma_digits_value_extend(s, j - 1);
        assert(is_digit(s[j - 1]));
    }
}

proof fn lemma_pow10_mono(a: nat, b: nat)
    requires a <= b,
    ensures pow10(a) <= pow10(b), pow10(a) >= 1,
    decreases b,
{
    if a < b {
        lemma_pow10_mono(a, (b - 1) as nat);
    } else if b > 0 {
        lemma_pow10_mono((a - 1) as nat, (b - 1) as nat);
    }
}

/// The shape of an unsigned decimal with an optional leading `+`, as the
/// delimited-text adapter coerces ticket identifiers: `None` when the text is
/// not all digits or its value passes `u32::MAX`.
pub open spec fn u32_text_body(s: Seq<char>) -> Seq<char> {
    if s.len() > 0 && s[0] == '+' { s.drop_first() } else { s }
}

pub open spec fn u32_text_value(s: Seq<char>) -> Option<u32> {
    let body = u32_text_body(s);
    if body.len() > 0 && all_digits(body) && digits_value(body) <= u32::MAX {
        Some(digits_value(body) as u32)
    } else {
        None
    }
}

/// Parses an unsigned decimal with optional leading `+` into a `u32`.
pub fn parse_u32_text(s: &str) -> (r: Option<u32>)
    ensures r == u32_text_value(s@),
{
    let v = chars_of(s);
    let start: usize = if v.len() > 0 && v[0] == '+' { 1 } else { 0 };
    let ghost body = u32_text_body(s@);
    proof { assert(body =~= v@.subrange(start as int, v@.len() as int)); }
    if v.len() == start {
        return None;
    }
    let mut acc: u32 = 0;
    let mut i: usize = start;
    while i < v.len()
        invariant
            start <= i <= v@.len(),
            v@ == s@,
            body == u32_text_body(s@),
            body == v@.subrange(start as int, v@.len() as int),
            all_digits(v@.subrange(start as int, i as int)),
            acc == digits_value(v@.subrange(start as int, i as int)),
        decreases v@.len() - i,
    {
        let c = v[i];
        if !is_digit_x(c) {
            proof {
                assert(0 <= i - start < body.len());
                assert(body[i - start] == v@[i as int]);
                assert(!is_digit(body[i - start]));
                assert(!all_digits(body));
            }
            return None;
        }
        let d = c as u32 - '0' as u32;
        proof {
            let pre = v@.subrange(start as int, i as int);
            let post = v@.subrange(start as int, i + 1);
            assert(post.drop_last() =~= pre);
            assert(post.last() == v@[i as int]);
            lemma_digits_value_nonneg(pre);
        }
        if acc > (u32::MAX - d) / 10 {
            proof {
                assert(acc * 10 + d > u32::MAX) by (nonlinear_arith)
                    requires acc > ((u32::MAX - d) as int) / 10, d <= 9,
                ;
                let post = v@.subrange(start as int, i + 1);
                assert(digits_value(post) == acc * 10 + d);
                if all_digits(body) {
                    assert(post =~= body.subrange(0, i + 1 - start));
                    lemma_digits_value_mono(body, i + 1 - start);
                    assert(digits_value(body) > u32::MAX);
                }
            }
            return None;
        }
        acc = acc * 10 + d;
        i += 1;
    }
    proof { assert(v@.subrange(start as int, v@.len() as int) =~= body); }
    Some(acc)
}


pub open spec fn first_dot(s: Seq<char>) -> int
    decreases s.len()
{
    if s.len() == 0 {
        -1
    } else if s[0] == '.' {
        0
    } else {
        let r = first_dot(s.drop_first());
        if r < 0 { -1 } else { r + 1 }
    }
}

pub open spec fn serial_int_part(s: Seq<char>) -> Seq<char> {
    if first_dot(s) < 0 { s } else { s.subrange(0, first_dot(s)) }
}

pub open spec fn serial_frac_part(s: Seq<char>) -> Seq<char> {
    if first_dot(s) < 0 { Seq::empty() } else { s.subrange(first_dot(s) + 1, s.len() as int) }
}

/// The first nine fraction digits: further digits cannot move the whole
/// second the fraction rounds down to.
pub open spec fn serial_frac9(s: Seq<char>) -> Seq<char> {
    let f = serial_frac_part(s);
    if f.len() <= 9 { f } else { f.subrange(0, 9) }
}

/// The shape of a spreadsheet serial date written as text: digits with an
/// optional decimal fraction.  Yields the whole days and the seconds of the
/// day the fraction denotes, rounded down.  Day counts past 99 999 999 are
/// treated as malformed, as no representable date lies there.
pub open spec fn serial_text_value(s: Seq<char>) -> Option<(int, int)> {
    let ip = serial_int_part(s);
    let fp = serial_frac_part(s);
    if ip.len() > 0 && all_digits(ip) && (first_dot(s) < 0 || (fp.len() > 0 && all_digits(fp)))
        && digits_value(ip) <= 99_999_999
    {
        Some((digits_value(ip), digits_value(serial_frac9(s)) * 86400 / pow10(serial_frac9(s).len())))
    } else {
        None
    }
}

/// If no dot stands before `j`, and `j` is a dot or the end, `j` locates it.
proof fn lemma_first_dot_at(s: Seq<char>, j: int)
    requires
        0 <= j <= s.len(),
        forall|i: int| 0 <= i < j ==> #[trigger] s[i] != '.',
        j == s.len() || s[j] == '.',
    ensures first_dot(s) == if j == s.len() { -1int } else { j },
    decreases j,
{
    if j == 0 {
    } else {
        let t = s.drop_first();
        assert(forall|i: int| 0 <= i < j - 1 ==> #[trigger] t[i] != '.');
        lemma_first_dot_at(t, j - 1);
    }
}

/// A sequence with a dot nowhere has no first dot.
proof fn lemma_first_dot_none(s: Seq<char>)
    requires forall|k: int| 0 <= k < s.len() ==> #[trigger] s[k] != '.',
    ensures first_dot(s) == -1,
    decreases s.len(),
{
    if s.len() > 0 {
        let t = s.drop_first();
        assert(forall|k: int| 0 <= k < t.len() ==> #[trigger] t[k] != '.');
        lemma_first_dot_none(t);
    }
}

/// Finds the first `.` in `v`, as an index, or `v.len()` if none.
fn find_dot(v: &Vec<char>) -> (r: usize)
    ensures
        r <= v@.len(),
        first_dot(v@) == if r == v@.len() { -1int } else { r as int },
{
    let mut i: usize = 0;
    while i < v.len()
        invariant
            i <= v@.len(),
            forall|k: int| 0 <= k < i ==> #[trigger] v@[k] != '.',
        decreases v@.len() - i,
    {
        if v[i] == '.' {
            proof { lemma_first_dot_at(v@, i as int); }
            return i;
        }
        i += 1;
    }
    proof { lemma_first_dot_none(v@); }
    v.len()
}

/// Whether `v[lo..hi]` consists of decimal digits only.
pub fn all_digits_range(v: &Vec<char>, lo: usize, hi: usize) -> (r: bool)
    requires lo <= hi <= v@.len(),
    ensures r == all_digits(v@.subrange(lo as int, hi as int)),
{
    let ghost s = v@.subrange(lo as int, hi as int);
    let mut i: usize = lo;
    while i < hi
        invariant
            lo <= i <= hi <= v@.len(),
            s == v@.subrange(lo as int, hi as int),
            forall|k: int| 0 <= k < i - lo ==> is_digit(#[trigger] s[k]),
        decreases hi - i,
    {
        if !is_digit_x(v[i]) {
            proof { assert(s[i - lo] == v@[i as int]); }
            return false;
        }
        i += 1;
    }
    true
}

/// Reads the value of the digit range `v[lo..hi]`, refusing values over `cap`.
fn digits_value_capped(v: &Vec<char>, lo: usize, hi: usize, cap: u64) -> (r: Option<u64>)
    requires
        lo <= hi <= v@.len(),
        all_digits(v@.subrange(lo as int, hi as int)),
        9 <= cap <= 0xFFFF_FFFF,
    ensures
        match r {
            Some(n) => n == digits_value(v@.subrange(lo as int, hi as int)) && n <= cap,
            None => digits_value(v@.subrange(lo as int, hi as int)) > cap,
        },
{
    let ghost s = v@.subrange(lo as int, hi as int);
    let n = v.len();
    let mut acc: u64 = 0;
    let mut i: usize = lo;
    while i < hi
        invariant
            lo <= i <= hi <= n == v@.len(),
            9 <= cap <= 0xFFFF_FFFF,
            s == v@.subrange(lo as int, hi as int),
            all_digits(s),
            acc == digits_value(s.subrange(0, i - lo)),
            acc <= cap,
        decreases hi - i,
    {
        let c = v[i];
        proof {
            assert(s[i - lo] == v@[i as int]);
            assert(is_digit(s[i - lo]));
            lemma_digits_value_extend(s, i - lo);
        }
        let d = (c as u64) - ('0' as u64);
        if acc > (cap - d) / 10 {
            proof {
                assert(acc * 10 + d > cap) by (nonlinear_arith)
                    requires acc > ((cap - d) as int) / 10, d <= 9, cap >= d,
                ;
                lemma_digits_value_mono(s, i + 1 - lo);
            }
            return None;
        }
        acc = acc * 10 + d;
        i += 1;
    }
    proof { assert(s.subrange(0, hi - lo) =~= s); }
    Some(acc)
}

/// Ten to the `n`, executable for small `n`.
fn pow10_x(n: usize) -> (r: u64)
    requires n <= 9,
    ensures r == pow10(n as nat), r >= 1,
{
    proof { lemma_pow10_values(); }
    if n == 0 { 1 } else if n == 1 { 10 } else if n == 2 { 100 }
    else if n == 3 { 1000 } else if n == 4 { 10000 } else if n == 5 { 100000 }
    else if n == 6 { 1000000 } else if n == 7 { 10000000 } else if n == 8 { 100000000 }
    else { 1000000000 }
}

/// The small powers of ten, spelled out.
proof fn lemma_pow10_values()
    ensures
        pow10(0) == 1, pow10(1) == 10, pow10(2) == 100, pow10(3) == 1000,
        pow10(4) == 10000, pow10(5) == 100000, pow10(6) == 1000000,
        pow10(7) == 10000000, pow10(8) == 100000000, pow10(9) == 1000000000,
{
    assert(pow10(0) == 1);
    assert(pow10(1) == 10);
    assert(pow10(2) == 100);
    assert(pow10(3) == 1000);
    assert(pow10(4) == 10000);
    assert(pow10(5) == 100000);
    assert(pow10(6) == 1000000);
    assert(pow10(7) == 10000000);
    assert(pow10(8) == 100000000);
    assert(pow10(9) == 1000000000);
}

/// A bounded numerator keeps the fraction's seconds under a day.
proof fn lemma_frac_secs_bound(a: int, b: int)
    requires 0 <= a < b,
    ensures 0 <= a * 86400 / b < 86400,
{
    vstd::arithmetic::div_mod::lemma_fundamental_div_mod(a * 86400, b);
    vstd::arithmetic::div_mod::lemma_mod_bound(a * 86400, b);
    let q = a * 86400 / b;
    let r = a * 86400 % b;
    assert(a * 86400 <= (b - 1) * 86400) by (nonlinear_arith)
        requires a < b,
    ;
    if q >= 86400 {
        assert(b * q >= b * 86400) by (nonlinear_arith)
            requires q >= 86400, b >= 1,
        ;
        assert(b * 86400 == (b - 1) * 86400 + 86400);
        assert(false);
    }
    if q < 0 {
        assert(b * q <= -b) by (nonlinear_arith)
            requires q <= -1, b >= 1,
        ;
        assert(a * 86400 >= 0) by (nonlinear_arith)
            requires a >= 0,
        ;
        assert(false);
    }
}

/// Parses a textual spreadsheet serial date into whole days and seconds of
/// the day.
pub fn parse_serial_text(v: &Vec<char>) -> (r: Option<(u64, u32)>)
    ensures
        match r {
            Some((d, sec)) => serial_text_value(v@) == Some((d as int, sec as int)) && sec < 86400,
            None => serial_text_value(v@) is None,
        },
{
    let dot = find_dot(v);
    let ghost ip = serial_int_part(v@);
    let ghost fp = serial_frac_part(v@);
    proof {
        if dot == v@.len() {
            assert(ip =~= v@);
        } else {
            assert(fp =~= v@.subrange(dot + 1, v@.len() as int));
        }
        assert(ip =~= v@.subrange(0, dot as int));
    }
    if dot == 0 {
        return None;
    }
    if !all_digits_range(v, 0, dot) {
        return None;
    }
    let days = match digits_value_capped(v, 0, dot, 99_999_999) {
        Some(d) => d,
        None => { return None; },
    };
    if dot == v.len() {
        proof {
            assert(serial_frac9(v@) =~= Seq::<char>::empty());
            lemma_pow10_values();
        }
        return Some((days, 0));
    }
    let flen = v.len() - dot - 1;
    if flen == 0 {
        return None;
    }
    if !all_digits_range(v, dot + 1, v.len()) {
        return None;
    }
    let f9: usize = if flen <= 9 { flen } else { 9 };
    let ghost f9s = serial_frac9(v@);
    proof {
        if flen <= 9 {
            assert(f9s =~= v@.subrange(dot + 1, dot + 1 + f9));
        } else {
            assert(f9s =~= v@.subrange(dot + 1, dot + 1 + f9));
        }
        assert(all_digits(f9s)) by {
            assert(forall|k: int| 0 <= k < f9s.len() ==> f9s[k] == #[trigger] fp[k]);
        }
        lemma_digits_small(f9s, f9s.len() as int);
        lemma_pow10_values();
        lemma_pow10_mono(f9s.len(), 9);
    }
    let fv = match digits_value_capped(v, dot + 1, dot + 1 + f9, 0xFFFF_FFFF) {
        Some(x) => x,
        None => {
            proof {
                assert(f9s.subrange(0, f9s.len() as int) =~= f9s);
                assert(false);
            }
            return None;
        },
    };
    let p = pow10_x(f9);
    proof {
        lemma_digits_small(f9s, f9s.len() as int);
        assert(f9s.subrange(0, f9s.len() as int) =~= f9s);
        assert(fv < p);
        lemma_frac_secs_bound(fv as int, p as int);
        assert(fv * 86400 <= 999999999u64 * 86400) by (nonlinear_arith)
            requires fv <= 999999999u64,
        ;
    }
    let secs = fv * 86400 / p;
    Some((days, secs as u32))
}


/// The accepted date/time shape after trimming and zone-marker stripping:
/// `YYYY-MM-DD`, then `T` or a space, then `HH:MM:SS`, optionally followed by
/// a dot and fraction digits (which whole-second precision rounds away).
pub open spec fn date_fields_ok(s: Seq<char>) -> bool {
    &&& s.len() >= 19
    &&& all_digits(s.subrange(0, 4))
    &&& s[4] == '-'
    &&& all_digits(s.subrange(5, 7))
    &&& s[7] == '-'
    &&& all_digits(s.subrange(8, 10))
    &&& (s[10] == 'T' || s[10] == ' ')
    &&& all_digits(s.subrange(11, 13))
    &&& s[13] == ':'
    &&& all_digits(s.subrange(14, 16))
    &&& s[16] == ':'
    &&& all_digits(s.subrange(17, 19))
    &&& (s.len() == 19 || (s.len() >= 21 && s[19] == '.' && all_digits(s.subrange(20, s.len() as int))))
}

pub open spec fn date_fields(s: Seq<char>) -> Timestamp {
    Timestamp {
        year: digits_value(s.subrange(0, 4)) as u32,
        month: digits_value(s.subrange(5, 7)) as u32,
        day: digits_value(s.subrange(8, 10)) as u32,
        hour: digits_value(s.subrange(11, 13)) as u32,
        minute: digits_value(s.subrange(14, 16)) as u32,
        second: digits_value(s.subrange(17, 19)) as u32,
    }
}

/// The timestamp a date/time text denotes, or `None` where the text does not
/// have the accepted shape or its fields name no real instant.
pub open spec fn date_text_value(s: Seq<char>) -> Option<Timestamp> {
    if date_fields_ok(s) && date_fields(s).wf() { Some(date_fields(s)) } else { None }
}

/// The full cascade for a date field's text: blank means no timestamp, any
/// trailing `Z` (then `z`) markers are stripped, and the rest must be an
/// accepted date/time shape.
pub open spec fn action_date_value(s: Seq<char>) -> Result<Option<Timestamp>, ()> {
    let t = trimmed(s);
    if t.len() == 0 {
        Ok(None)
    } else {
        let c = strip_trailing(strip_trailing(t, 'Z'), 'z');
        match date_text_value(c) {
            Some(ts) => Ok(Some(ts)),
            None => Err(()),
        }
    }
}

/// Parses an already-isolated date/time text of the accepted shape.
pub fn parse_date_fields(v: &Vec<char>) -> (r: Option<Timestamp>)
    ensures r == date_text_value(v@),
{
    if v.len() < 19 {
        return None;
    }
    if !(all_digits_range(v, 0, 4) && all_digits_range(v, 5, 7) && all_digits_range(v, 8, 10)
        && all_digits_range(v, 11, 13) && all_digits_range(v, 14, 16)
        && all_digits_range(v, 17, 19))
    {
        return None;
    }
    if !(v[4] == '-' && v[7] == '-' && (v[10] == 'T' || v[10] == ' ') && v[13] == ':'
        && v[16] == ':')
    {
        return None;
    }
    if v.len() != 19 {
        if v.len() < 21 || v[19] != '.' || !all_digits_range(v, 20, v.len()) {
            return None;
        }
    }
    let t = Timestamp {
        year: read_num(v, 0, 4),
        month: read_num(v, 5, 2),
        day: read_num(v, 8, 2),
        hour: read_num(v, 11, 2),
        minute: read_num(v, 14, 2),
        second: read_num(v, 17, 2),
    };
    proof {
        assert(t == date_fields(v@));
        let ys = v@.subrange(0, 4);
        lemma_digits_small(ys, 4);
        assert(ys.subrange(0, 4) =~= ys);
        lemma_pow10_values();
        assert(t.year <= 9999);
    }
    if t.month < 1 || t.month > 12 {
        return None;
    }
    if t.day < 1 || t.day > crate::datetime::days_in_month_x(t.year, t.month) {
        return None;
    }
    if t.hour > 23 || t.minute > 59 || t.second > 59 {
        return None;
    }
    proof { assert(valid_date(t.year as int, t.month as int, t.day as int)); }
    Some(t)
}

/// Parses a date field's text through the cascade: `Ok(None)` on blank text,
/// `Ok(Some(_))` on an accepted date/time, `Err(())` on anything else.
pub fn parse_action_date(s: &str) -> (r: Result<Option<Timestamp>, ()>)
    ensures r == action_date_value(s@),
{
    let v = chars_of(s);
    let t = trim_chars(&v);
    if t.len() == 0 {
        return Ok(None);
    }
    let c0 = strip_trailing_chars(&t, 'Z');
    let c = strip_trailing_chars(&c0, 'z');
    match parse_date_fields(&c) {
        Some(ts) => Ok(Some(ts)),
        None => Err(()),
    }
}

/// ASCII case folding of one character.
pub open spec fn lower_char(c: char) -> char {
    if c == 'A' { 'a' } else if c == 'B' { 'b' } else if c == 'C' { 'c' }
    else if c == 'D' { 'd' } else if c == 'E' { 'e' } else if c == 'F' { 'f' }
    else if c == 'G' { 'g' } else if c == 'H' { 'h' } else if c == 'I' { 'i' }
    else if c == 'J' { 'j' } else if c == 'K' { 'k' } else if c == 'L' { 'l' }
    else if c == 'M' { 'm' } else if c == 'N' { 'n' } else if c == 'O' { 'o' }
    else if c == 'P' { 'p' } else if c == 'Q' { 'q' } else if c == 'R' { 'r' }
    else if c == 'S' { 's' } else if c == 'T' { 't' } else if c == 'U' { 'u' }
    else if c == 'V' { 'v' } else if c == 'W' { 'w' } else if c == 'X' { 'x' }
    else if c == 'Y' { 'y' } else if c == 'Z' { 'z' } else { c }
}

/// ASCII case folding of a whole string.
pub open spec fn lower(s: Seq<char>) -> Seq<char> {
    s.map_values(|c: char| lower_char(c))
}

pub fn lower_char_x(c: char) -> (r: char)
    ensures r == lower_char(c),
{
    if c == 'A' { 'a' } else if c == 'B' { 'b' } else if c == 'C' { 'c' }
    else if c == 'D' { 'd' } else if c == 'E' { 'e' } else if c == 'F' { 'f' }
    else if c == 'G' { 'g' } else if c == 'H' { 'h' } else if c == 'I' { 'i' }
    else if c == 'J' { 'j' } else if c == 'K' { 'k' } else if c == 'L' { 'l' }
    else if c == 'M' { 'm' } else if c == 'N' { 'n' } else if c == 'O' { 'o' }
    else if c == 'P' { 'p' } else if c == 'Q' { 'q' } else if c == 'R' { 'r' }
    else if c == 'S' { 's' } else if c == 'T' { 't' } else if c == 'U' { 'u' }
    else if c == 'V' { 'v' } else if c == 'W' { 'w' } else if c == 'X' { 'x' }
    else if c == 'Y' { 'y' } else if c == 'Z' { 'z' } else { c }
}

/// ASCII case folding applied to every character.
pub fn lower_chars(v: &Vec<char>) -> (r: Vec<char>)
    ensures r@ == lower(v@),
{
    let mut r: Vec<char> = Vec::new();
    let mut i: usize = 0;
    while i < v.len()
        invariant i <= v@.len(), r@ == lower(v@.subrange(0, i as int)),
        decreases v@.len() - i,
    {
        r.push(lower_char_x(v[i]));
        proof {
            assert(r@ =~= lower(v@.subrange(0, i + 1))) by {
                assert(lower(v@.subrange(0, i + 1)).len() == i + 1);
                assert(forall|k: int| 0 <= k < i + 1 ==>
                    #[trigger] lower(v@.subrange(0, i + 1))[k]
                        == lower_char(v@.subrange(0, i + 1)[k]));
            }
        }
        i += 1;
    }
    proof { assert(v@.subrange(0, v@.len() as int) =~= v@); }
    r
}

/// Compares a character vector against a string.
pub fn chars_eq_str(v: &Vec<char>, s: &str) -> (r: bool)
    ensures r == (v@ == s@),
{
    let w = chars_of(s);
    if v.len() != w.len() {
        return false;
    }
    let mut i: usize = 0;
    while i < v.len()
        invariant
            i <= v@.len(),
            v@.len() == w@.len(),
            w@ == s@,
            forall|k: int| 0 <= k < i ==> v@[k] == w@[k],
        decreases v@.len() - i,
    {
        if v[i] != w[i] {
            return false;
        }
        i += 1;
    }
    proof { assert(v@ =~= w@); }
    true
}


pub open spec fn is_hex_digit(c: char) -> bool {
    is_digit(c) || ('a' <= c && c <= 'f') || ('A' <= c && c <= 'F')
}

pub open spec fn hex_digit_val(c: char) -> int {
    if is_digit(c) { digit_val(c) }
    else if 'a' <= c && c <= 'f' { c as int - 'a' as int + 10 }
    else { c as int - 'A' as int + 10 }
}

pub open spec fn all_hex_digits(s: Seq<char>) -> bool {
    forall|i: int| 0 <= i < s.len() ==> is_hex_digit(#[trigger] s[i])
}

/// The value of a sequence of hexadecimal digits.
pub open spec fn hex_value(s: Seq<char>) -> int
    decreases s.len()
{
    if s.len() == 0 {
        0
    } else {
        hex_value(s.drop_last()) * 16 + hex_digit_val(s.last())
    }
}

proof fn lemma_hex_value_nonneg(s: Seq<char>)
    requires all_hex_digits(s),
    ensures hex_value(s) >= 0,
    decreases s.len(),
{
    if s.len() > 0 {
        assert(all_hex_digits(s.drop_last())) by {
            assert(forall|i: int| 0 <= i < s.len() - 1 ==> s.drop_last()[i] == #[trigger] s[i]);
        }
        lemma_hex_value_nonneg(s.drop_last());
        assert(is_hex_digit(s.last()));
    }
}

/// The value of a hex string is at least the value of any of its prefixes.
proof fn lemma_hex_value_mono(s: Seq<char>, j: int)
    requires 0 <= j <= s.len(), all_hex_digits(s),
    ensures
        hex_value(s.subrange(0, j)) <= hex_value(s),
        hex_value(s) >= 0,
    decreases s.len() - j,
{
    if j == s.len() {
        assert(s.subrange(0, j) =~= s);
        lemma_hex_value_nonneg(s);
    } else {
        let pre = s.subrange(0, j);
        let post = s.subrange(0, j + 1);
        assert(post.drop_last() =~= pre);
        assert(post.last() == s[j]);
        lemma_hex_value_nonneg(pre);
        lemma_hex_value_mono(s, j + 1);
    }
}

/// The shape of a hexadecimal integer body (after a `0x` prefix), with the
/// optional leading `+` such parsers take: `None` when the text is not all
/// hex digits or its value passes `u32::MAX`.
pub open spec fn hex_text_body(s: Seq<char>) -> Seq<char> {
    if s.len() > 0 && s[0] == '+' { s.drop_first() } else { s }
}

pub open spec fn hex_text_value(s: Seq<char>) -> Option<u32> {
    let body = hex_text_body(s);
    if body.len() > 0 && all_hex_digits(body) && hex_value(body) <= u32::MAX {
        Some(hex_value(body) as u32)
    } else {
        None
    }
}

fn is_hex_digit_x(c: char) -> (r: bool)
    ensures r == is_hex_digit(c),
{
    is_digit_x(c) || ('a' <= c && c <= 'f') || ('A' <= c && c <= 'F')
}

fn hex_digit_val_x(c: char) -> (r: u32)
    requires is_hex_digit(c),
    ensures r == hex_digit_val(c), r <= 15,
{
    if is_digit_x(c) {
        c as u32 - '0' as u32
    } else if 'a' <= c && c <= 'f' {
        c as u32 - 'a' as u32 + 10
    } else {
        c as u32 - 'A' as u32 + 10
    }
}

/// Parses the body of a hexadecimal unsigned integer into a `u32`.
#[verifier::loop_isolation(false)]
pub fn parse_hex_u32(v: &Vec<char>) -> (r: Option<u32>)
    ensures r == hex_text_value(v@),
{
    let start: usize = if v.len() > 0 && v[0] == '+' { 1 } else { 0 };
    let ghost body = hex_text_body(v@);
    proof { assert(body =~= v@.subrange(start as int, v@.len() as int)); }
    if v.len() == start {
        return None;
    }
    let mut acc: u32 = 0;
    let mut i: usize = start;
    while i < v.len()
        invariant
            start <= i <= v@.len(),
            body == v@.subrange(start as int, v@.len() as int),
            all_hex_digits(v@.subrange(start as int, i as int)),
            acc == hex_value(v@.subrange(start as int, i as int)),
        decreases v@.len() - i,
    {
        let c = v[i];
        if !is_hex_digit_x(c) {
            proof {
                assert(body[i - start] == v@[i as int]);
                assert(!all_hex_digits(body));
            }
            return None;
        }
        let d = hex_digit_val_x(c);
        proof {
            let pre = v@.subrange(start as int, i as int);
            let post = v@.subrange(start as int, i + 1);
            assert(post.drop_last() =~= pre);
            assert(post.last() == v@[i as int]);
            lemma_hex_value_nonneg(pre);
        }
        if acc > (u32::MAX - d) / 16 {
            proof {
                assert(acc * 16 + d > u32::MAX) by (nonlinear_arith)
                    requires acc > ((u32::MAX - d) as int) / 16, d <= 15,
                ;
                let post = v@.subrange(start as int, i + 1);
                assert(hex_value(post) == acc * 16 + d);
                if all_hex_digits(body) {
                    assert(post =~= body.subrange(0, i + 1 - start));
                    lemma_hex_value_mono(body, i + 1 - start);
                    assert(hex_value(body) > u32::MAX);
                }
            }
            return None;
        }
        acc = acc * 16 + d;
        i += 1;
    }
    proof { assert(v@.subrange(start as int, v@.len() as int) =~= body); }
    Some(acc)
}

/// The coercion the delimited adapter applies to a ticket identifier's text:
/// a `0x` prefix reads the rest as hexadecimal, anything else as decimal.
pub open spec fn ticket_text_value(s: Seq<char>) -> Option<u32> {
    if s.len() >= 2 && s[0] == '0' && s[1] == 'x' {
        hex_text_value(s.skip(2))
    } else {
        u32_text_value(s)
    }
}

/// Parses a ticket identifier's text, decimal or `0x`-prefixed hexadecimal.
pub fn parse_ticket_text(s: &str) -> (r: Option<u32>)
    ensures r == ticket_text_value(s@),
{
    let v = chars_of(s);
    if v.len() >= 2 && v[0] == '0' && v[1] == 'x' {
        let body = subvec(&v, 2, v.len());
        proof { assert(body@ =~= s@.skip(2)); }
        parse_hex_u32(&body)
    } else {
        parse_u32_text(s)
    }
}

} // verus!

//! Parsing the scene description language into a tree of nodes.
//!
//! The grammar is line-oriented: `//` starts a comment running to the
//! end of the line, blank lines are skipped, a line `NAME NUMBER*`
//! yields a node, a trailing `{` opens a child block, and a leading `}`
//! closes the innermost open block.
//!
//! Tokens are split on ASCII whitespace. A number token is an optional
//! sign, then decimal digits with at most one dot among them — no
//! exponent notation — and at most [`MAX_NUMBER_DIGITS`] digits in all,
//! so that every accepted number has an exact fixed-point value.

use vstd::prelude::*;
use vstd::string::StringSliceAdditionalSpecFns;
use crate::error::{Error, ErrorKind, plain_err};
use crate::fixed::Fixed;
use crate::sdl::{
    Node,
    NodeV,
    children_view,
    values_view,
    lemma_children_view_len,
    lemma_children_view_index,
    lemma_children_view_push,
    lemma_children_view_drop_last,
};

verus! {

/// ASCII whitespace, as the tokenizer skips it.
pub open spec fn is_space(b: u8) -> bool {
    b == 32 || b == 9 || b == 10 || b == 11 || b == 12 || b == 13
}

/// The first index at or after `i` holding a space, or the end.
pub open spec fn token_end(s: Seq<u8>, i: int) -> int
    decreases s.len() - i,
{
    if i < 0 || i >= s.len() {
        s.len() as int
    } else if is_space(s[i]) {
        i
    } else {
        token_end(s, i + 1)
    }
}

pub proof fn lemma_token_end_range(s: Seq<u8>, i: int)
    requires
        0 <= i <= s.len(),
    ensures
        i <= token_end(s, i) <= s.len(),
    decreases s.len() - i,
{
    if i < s.len() && !is_space(s[i]) {
        lemma_token_end_range(s, i + 1);
    }
}

/// The whitespace-separated tokens of `s`, from index `i` on.
pub open spec fn tokens_from(s: Seq<u8>, i: int) -> Seq<Seq<u8>>
    decreases s.len() - i, s.len() - i + 1,
        via tokens_from_decreases
{
    if i < 0 || i >= s.len() {
        Seq::empty()
    } else if is_space(s[i]) {
        tokens_from(s, i + 1)
    } else {
        seq![s.subrange(i, token_end(s, i))] + tokens_from(s, token_end(s, i))
    }
}

#[via_fn]
proof fn tokens_from_decreases(s: Seq<u8>, i: int) {
    if 0 <= i < s.len() && !is_space(s[i]) {
        lemma_token_end_range(s, i + 1);
        assert(token_end(s, i) == token_end(s, i + 1));
    }
}

/// All the tokens of `s`.
pub open spec fn tokens(s: Seq<u8>) -> Seq<Seq<u8>> {
    tokens_from(s, 0)
}

/// The models of a list of tokens.
pub open spec fn toks_view(ts: Seq<Vec<u8>>) -> Seq<Seq<u8>> {
    Seq::new(ts.len(), |i: int| ts[i]@)
}

/// Split `s` into its whitespace-separated tokens.
pub fn tokenize(s: &Vec<u8>) -> (toks: Vec<Vec<u8>>)
    ensures
        toks_view(toks@) == tokens(s@),
{
    let n = s.len();
    let mut toks: Vec<Vec<u8>> = Vec::new();
    let mut i: usize = 0;
    proof {
        assert(toks_view(toks@) + tokens_from(s@, 0) =~= tokens_from(s@, 0));
    }
    while i < n
        invariant
            n == s@.len(),
            0 <= i <= n,
            tokens(s@) == toks_view(toks@) + tokens_from(s@, i as int),
        decreases n - i,
    {
        if is_space_exec(s[i]) {
            i = i + 1;
        } else {
            let ghost start = i as int;
            let mut tok: Vec<u8> = Vec::new();
            while i < n && !is_space_exec(s[i])
                invariant
                    n == s@.len(),
                    0 <= start <= i <= n,
                    tok@ == s@.subrange(start, i as int),
                    token_end(s@, start) == token_end(s@, i as int),
                    forall|k: int| start <= k < i ==> !is_space(s@[k]),
                decreases n - i,
            {
                tok.push(s[i]);
                proof {
                    assert(tok@ =~= s@.subrange(start, i + 1));
                }
                i = i + 1;
            }
            proof {
                assert(token_end(s@, i as int) == i as int);
                assert(tok@ == s@.subrange(start, token_end(s@, start)));
                let prev = toks_view(toks@);
                assert(toks_view(toks@.push(tok)) =~= prev + seq![tok@]);
                assert(tokens_from(s@, start) == seq![tok@] + tokens_from(s@, i as int));
                assert((prev + seq![tok@]) + tokens_from(s@, i as int) =~= prev + (seq![tok@]
                    + tokens_from(s@, i as int)));
            }
            toks.push(tok);
        }
    }
    proof {
        assert(toks_view(toks@) + tokens_from(s@, n as int) =~= toks_view(toks@));
    }
    toks
}

fn is_space_exec(b: u8) -> (r: bool)
    ensures
        r == is_space(b),
{
    b == 32 || b == 9 || b == 10 || b == 11 || b == 12 || b == 13
}

/// A decimal digit.
pub open spec fn is_digit(b: u8) -> bool {
    48 <= b <= 57
}

pub open spec fn all_digits(s: Seq<u8>) -> bool {
    forall|i: int| 0 <= i < s.len() ==> is_digit(#[trigger] s[i])
}

/// The value of a sequence of decimal digits.
pub open spec fn digits_to_int(s: Seq<u8>) -> int
    decreases s.len(),
{
    if s.len() == 0 {
        0
    } else {
        digits_to_int(s.drop_last()) * 10 + (s.last() - 48)
    }
}

pub open spec fn pow10(k: nat) -> int
    decreases k,
{
    if k == 0 {
        1
    } else {
        10 * pow10((k - 1) as nat)
    }
}

/// The first index at or after `i` holding a dot, or the end.
pub open spec fn dot_index(s: Seq<u8>, i: int) -> int
    decreases s.len() - i,
{
    if i < 0 || i >= s.len() {
        s.len() as int
    } else if s[i] == 46 {
        i
    } else {
        dot_index(s, i + 1)
    }
}

pub proof fn lemma_dot_index_range(s: Seq<u8>, i: int)
    requires
        0 <= i <= s.len(),
    ensures
        i <= dot_index(s, i) <= s.len(),
    decreases s.len() - i,
{
    if i < s.len() && s[i] != 46 {
        lemma_dot_index_range(s, i + 1);
    }
}

/// How many digits a numeric token may hold, so that its fixed-point
/// value is exact and bounded.
pub const MAX_NUMBER_DIGITS: usize = 12;

/// The fixed-point reading of a numeric token: an optional sign, then
/// decimal digits with at most one dot among them, at least one digit
/// in all and at most `MAX_NUMBER_DIGITS`. The value is the signed
/// integer-and-fraction magnitude scaled to raw units, rounded toward
/// zero.
pub open spec fn parse_number(t: Seq<u8>) -> Option<int> {
    let negative = t.len() > 0 && t[0] == 45;
    let u = if t.len() > 0 && (t[0] == 45 || t[0] == 43) {
        t.drop_first()
    } else {
        t
    };
    let d = dot_index(u, 0);
    let ip = u.subrange(0, d);
    let fp = if d < u.len() {
        u.subrange(d + 1, u.len() as int)
    } else {
        Seq::empty()
    };
    if ip.len() + fp.len() == 0 || ip.len() + fp.len() > MAX_NUMBER_DIGITS as int {
        None
    } else if !(all_digits(ip) && all_digits(fp)) {
        None
    } else {
        let m = digits_to_int(ip + fp);
        let raw = (m * 65536) / pow10(fp.len());
        if negative {
            Some(-raw)
        } else {
            Some(raw)
        }
    }
}

/// A digit string's value is bounded by the power of ten of its length.
pub proof fn lemma_digits_bound(s: Seq<u8>)
    requires
        all_digits(s),
    ensures
        0 <= digits_to_int(s) < pow10(s.len()),
    decreases s.len(),
{
    if s.len() > 0 {
        assert(all_digits(s.drop_last())) by {
            assert(forall|i: int|
                0 <= i < s.len() - 1 ==> #[trigger] s.drop_last()[i] == s[i]);
        }
        lemma_digits_bound(s.drop_last());
        assert(is_digit(s.last()));
    }
}

fn pow10_exec(k: usize) -> (r: u64)
    requires
        k <= MAX_NUMBER_DIGITS,
    ensures
        r as int == pow10(k as nat),
{
    proof {
        reveal_with_fuel(pow10, 14);
    }
    match k {
        0 => 1,
        1 => 10,
        2 => 100,
        3 => 1000,
        4 => 10000,
        5 => 100000,
        6 => 1000000,
        7 => 10000000,
        8 => 100000000,
        9 => 1000000000,
        10 => 10000000000,
        11 => 100000000000,
        _ => 1000000000000,
    }
}

pub open spec fn opt_num(r: Option<i64>) -> Option<int> {
    match r {
        Some(v) => Some(v as int),
        None => None,
    }
}

/// Read one numeric token into raw fixed-point units.
#[verifier::loop_isolation(false)]
#[verifier::rlimit(100)]
pub fn parse_number_token(t: &Vec<u8>) -> (r: Option<i64>)
    ensures
        opt_num(r) == parse_number(t@),
{
    let n = t.len();
    if n == 0 {
        return None;
    }
    let negative = t[0] == 45;
    let j: usize = if t[0] == 45 || t[0] == 43 {
        1
    } else {
        0
    };
    let ghost u = if t@[0] == 45 || t@[0] == 43 {
        t@.drop_first()
    } else {
        t@
    };
    proof {
        assert(u =~= t@.subrange(j as int, n as int));
    }
    // Find the dot, mirroring `dot_index`.
    let mut d: usize = j;
    while d < n && t[d] != 46
        invariant
            n == t@.len(),
            j <= d <= n,
            u == t@.subrange(j as int, n as int),
            dot_index(u, 0) == dot_index(u, (d - j) as int),
        decreases n - d,
    {
        proof {
            assert(u[(d - j) as int] == t@[d as int]);
        }
        d = d + 1;
    }
    proof {
        if d < n {
            assert(u[(d - j) as int] == t@[d as int]);
            assert(dot_index(u, (d - j) as int) == d - j);
        } else {
            assert(dot_index(u, (d - j) as int) == u.len());
        }
        lemma_dot_index_range(u, 0);
    }
    let ghost dp = dot_index(u, 0);
    let ghost ip = u.subrange(0, dp);
    let ghost fp = if dp < u.len() {
        u.subrange(dp + 1, u.len() as int)
    } else {
        Seq::<u8>::empty()
    };
    let ip_len: usize = d - j;
    let fp_len: usize = if d < n {
        n - d - 1
    } else {
        0
    };
    proof {
        assert(ip.len() == ip_len);
        assert(fp.len() == fp_len);
    }
    if ip_len + fp_len == 0 || ip_len + fp_len > MAX_NUMBER_DIGITS {
        return None;
    }
    // Integer part.
    let mut m: u64 = 0;
    let mut i: usize = j;
    proof {
        assert(ip.subrange(0, 0) =~= Seq::<u8>::empty());
    }
    while i < d
        invariant
            n == t@.len(),
            j <= i <= d <= n,
            d - j == ip.len(),
            u == t@.subrange(j as int, n as int),
            ip == u.subrange(0, ip.len() as int),
            ip.len() + fp.len() <= MAX_NUMBER_DIGITS,
            all_digits(ip.subrange(0, (i - j) as int)),
            m == digits_to_int(ip.subrange(0, (i - j) as int)),
        decreases d - i,
    {
        let b = t[i];
        proof {
            assert(ip[(i - j) as int] == t@[i as int]);
        }
        if !(48 <= b && b <= 57) {
            proof {
                assert(!is_digit(ip[(i - j) as int]));
                assert(!all_digits(ip));
            }
            return None;
        }
        let ghost pref = ip.subrange(0, (i - j) as int);
        proof {
            lemma_digits_bound(pref);
            assert(pref.len() <= MAX_NUMBER_DIGITS);
            lemma_pow10_le_cap(pref.len());
            assert(ip.subrange(0, (i - j) as int + 1) =~= pref.push(t@[i as int]));
            assert(ip.subrange(0, (i - j) as int + 1).drop_last() =~= pref);
        }
        m = m * 10 + ((b - 48) as u64);
        i = i + 1;
    }
    proof {
        assert(ip.subrange(0, ip.len() as int) =~= ip);
    }
    // Fraction part.
    let ghost digs = ip + fp;
    let mut k: usize = 0;
    proof {
        assert(digs.subrange(0, ip.len() as int) =~= ip);
    }
    while k < fp_len
        invariant
            n == t@.len(),
            j <= d <= n,
            d < n || fp_len == 0,
            fp_len == fp.len(),
            0 <= k <= fp_len,
            d - j == ip.len(),
            u == t@.subrange(j as int, n as int),
            fp.len() > 0 ==> fp == u.subrange(ip.len() as int + 1, u.len() as int),
            digs == ip + fp,
            all_digits(ip),
            ip.len() + fp.len() <= MAX_NUMBER_DIGITS,
            all_digits(digs.subrange(0, ip.len() + k)),
            m == digits_to_int(digs.subrange(0, ip.len() + k)),
        decreases fp_len - k,
    {
        let b = t[d + 1 + k];
        proof {
            assert(fp[k as int] == u[ip.len() + 1 + k]);
            assert(u[ip.len() + 1 + k] == t@[(d + 1 + k) as int]);
            assert(digs[ip.len() + k] == fp[k as int]);
        }
        if !(48 <= b && b <= 57) {
            proof {
                assert(!is_digit(fp[k as int]));
                assert(!all_digits(fp));
            }
            return None;
        }
        let ghost pref = digs.subrange(0, ip.len() + k);
        proof {
            lemma_digits_bound(pref);
            lemma_pow10_le_cap(pref.len());
            assert(digs.subrange(0, ip.len() + k + 1) =~= pref.push(digs[ip.len() + k]));
            assert(digs.subrange(0, ip.len() + k + 1).drop_last() =~= pref);
        }
        m = m * 10 + ((b - 48) as u64);
        k = k + 1;
    }
    proof {
        assert(digs.subrange(0, digs.len() as int) =~= digs);
        assert(all_digits(digs));
        assert forall|q: int| 0 <= q < ip.len() implies is_digit(#[trigger] ip[q]) by {
            assert(ip[q] == digs[q]);
        }
        assert(all_digits(ip));
        assert forall|q: int| 0 <= q < fp.len() implies is_digit(#[trigger] fp[q]) by {
            assert(fp[q] == digs[ip.len() + q]);
        }
        assert(all_digits(fp));
        lemma_digits_bound(digs);
        lemma_pow10_le_cap(digs.len());
    }
    let p10 = pow10_exec(fp_len);
    proof {
        lemma_pow10_pos(fp.len());
        vstd::arithmetic::div_mod::lemma_div_nonincreasing((m as int) * 65536, pow10(fp.len()));
        vstd::arithmetic::div_mod::lemma_div_pos_is_pos((m as int) * 65536, pow10(fp.len()));
    }
    let raw: u64 = (m * 65536) / p10;
    if negative {
        Some(-(raw as i64))
    } else {
        Some(raw as i64)
    }
}

/// Ten to a bounded power stays within the digit cap's value.
pub proof fn lemma_pow10_le_cap(k: nat)
    requires
        k <= MAX_NUMBER_DIGITS,
    ensures
        pow10(k) <= 1000000000000,
{
    reveal_with_fuel(pow10, 14);
    if k == 0 {
        assert(pow10(0) == 1);
    } else if k == 1 {
        assert(pow10(1) == 10);
    } else if k == 2 {
        assert(pow10(2) == 100);
    } else if k == 3 {
        assert(pow10(3) == 1000);
    } else if k == 4 {
        assert(pow10(4) == 10000);
    } else if k == 5 {
        assert(pow10(5) == 100000);
    } else if k == 6 {
        assert(pow10(6) == 1000000);
    } else if k == 7 {
        assert(pow10(7) == 10000000);
    } else if k == 8 {
        assert(pow10(8) == 100000000);
    } else if k == 9 {
        assert(pow10(9) == 1000000000);
    } else if k == 10 {
        assert(pow10(10) == 10000000000);
    } else if k == 11 {
        assert(pow10(11) == 100000000000);
    } else {
        assert(pow10(12) == 1000000000000);
    }
}

pub proof fn lemma_pow10_pos(k: nat)
    ensures
        pow10(k) >= 1,
    decreases k,
{
    if k > 0 {
        lemma_pow10_pos((k - 1) as nat);
    }
}

/// The first index at or after `i` where a `//` comment begins, or the end.
pub open spec fn comment_start(s: Seq<u8>, i: int) -> int
    decreases s.len() - i,
{
    if i < 0 || i + 1 >= s.len() {
        s.len() as int
    } else if s[i] == 47 && s[i + 1] == 47 {
        i
    } else {
        comment_start(s, i + 1)
    }
}

pub proof fn lemma_comment_start_range(s: Seq<u8>, i: int)
    requires
        0 <= i <= s.len(),
    ensures
        i <= comment_start(s, i) <= s.len(),
    decreases s.len() - i,
{
    if i + 1 < s.len() && !(s[i] == 47 && s[i + 1] == 47) {
        lemma_comment_start_range(s, i + 1);
    }
}

/// A line with its comment removed.
pub open spec fn strip_comment(s: Seq<u8>) -> Seq<u8> {
    s.subrange(0, comment_start(s, 0))
}

/// Remove everything from the first `//` on.
#[verifier::loop_isolation(false)]
pub fn strip_comment_exec(line: &Vec<u8>) -> (r: Vec<u8>)
    ensures
        r@ == strip_comment(line@),
{
    let n = line.len();
    let mut i: usize = 0;
    while i < n && n > 0 && i < n - 1 && !(line[i] == 47 && line[i + 1] == 47)
        invariant
            0 <= i <= n,
            comment_start(line@, 0) == comment_start(line@, i as int),
        decreases n - i,
    {
        i = i + 1;
    }
    let cut: usize = if n > 0 && i < n - 1 {
        i
    } else {
        n
    };
    proof {
        lemma_comment_start_range(line@, 0);
        assert(cut as int == comment_start(line@, 0));
    }
    let mut out: Vec<u8> = Vec::new();
    let mut k: usize = 0;
    while k < cut
        invariant
            0 <= k <= cut <= n,
            out@ == line@.subrange(0, k as int),
        decreases cut - k,
    {
        out.push(line[k]);
        proof {
            assert(out@ =~= line@.subrange(0, k + 1));
        }
        k = k + 1;
    }
    out
}

/// The first index at or after `i` holding a newline, or the end.
pub open spec fn line_end(s: Seq<u8>, i: int) -> int
    decreases s.len() - i,
{
    if i < 0 || i >= s.len() {
        s.len() as int
    } else if s[i] == 10 {
        i
    } else {
        line_end(s, i + 1)
    }
}

pub proof fn lemma_line_end_range(s: Seq<u8>, i: int)
    requires
        0 <= i <= s.len(),
    ensures
        i <= line_end(s, i) <= s.len(),
    decreases s.len() - i,
{
    if i < s.len() && s[i] != 10 {
        lemma_line_end_range(s, i + 1);
    }
}

/// The newline-separated lines of `s`, from index `i` on.
pub open spec fn lines_from(s: Seq<u8>, i: int) -> Seq<Seq<u8>>
    decreases s.len() - i + 1,
        via lines_from_decreases
{
    if i < 0 || i >= s.len() {
        Seq::empty()
    } else {
        seq![s.subrange(i, line_end(s, i))] + lines_from(s, line_end(s, i) + 1)
    }
}

#[via_fn]
proof fn lines_from_decreases(s: Seq<u8>, i: int) {
    if 0 <= i < s.len() {
        lemma_line_end_range(s, i);
    }
}

/// Split a text into its lines.
#[verifier::loop_isolation(false)]
pub fn split_lines(s: &Vec<u8>) -> (lines: Vec<Vec<u8>>)
    ensures
        toks_view(lines@) == lines_from(s@, 0),
{
    let n = s.len();
    let mut lines: Vec<Vec<u8>> = Vec::new();
    let mut i: usize = 0;
    proof {
        assert(toks_view(lines@) + lines_from(s@, 0) =~= lines_from(s@, 0));
    }
    while i < n
        invariant
            0 <= i <= n,
            lines_from(s@, 0) == toks_view(lines@) + lines_from(s@, i as int),
        decreases n - i,
    {
        let ghost start = i as int;
        let mut line: Vec<u8> = Vec::new();
        while i < n && s[i] != 10
            invariant
                0 <= start <= i <= n,
                line@ == s@.subrange(start, i as int),
                line_end(s@, start) == line_end(s@, i as int),
            decreases n - i,
        {
            line.push(s[i]);
            proof {
                assert(line@ =~= s@.subrange(start, i + 1));
            }
            i = i + 1;
        }
        proof {
            assert(line_end(s@, i as int) == i as int);
            let prev = toks_view(lines@);
            assert(toks_view(lines@.push(line)) =~= prev + seq![line@]);
            assert(lines_from(s@, start) == seq![line@] + lines_from(s@, i + 1)) by {
                assert(line_end(s@, start) == i as int);
            }
            assert((prev + seq![line@]) + lines_from(s@, i + 1) =~= prev + (seq![line@]
                + lines_from(s@, i + 1)));
            if i == n {
                assert(lines_from(s@, i + 1) =~= Seq::<Seq<u8>>::empty());
                assert(lines_from(s@, i as int) =~= Seq::<Seq<u8>>::empty());
            }
        }
        lines.push(line);
        if i < n {
            i = i + 1;
        }
    }
    proof {
        assert(lines_from(s@, i as int) =~= Seq::<Seq<u8>>::empty());
        assert(toks_view(lines@) + lines_from(s@, i as int) =~= toks_view(lines@));
    }
    lines
}

/// A character a node name may hold: ASCII alphanumerics, `-` and `_`.
pub open spec fn valid_name_char(b: u8) -> bool {
    (48 <= b <= 57) || (65 <= b <= 90) || (97 <= b <= 122) || b == 45 || b == 95
}

/// A valid node name does not start with a digit and holds only name
/// characters.
pub open spec fn valid_name(s: Seq<u8>) -> bool {
    &&& (s.len() > 0 ==> !(48 <= s[0] <= 57))
    &&& forall|i: int| 0 <= i < s.len() ==> valid_name_char(#[trigger] s[i])
}

#[verifier::loop_isolation(false)]
fn valid_name_bytes(s: &Vec<u8>) -> (r: bool)
    ensures
        r == valid_name(s@),
{
    let n = s.len();
    if n > 0 && 48 <= s[0] && s[0] <= 57 {
        return false;
    }
    let mut i: usize = 0;
    while i < n
        invariant
            0 <= i <= n,
            forall|k: int| 0 <= k < i ==> valid_name_char(#[trigger] s@[k]),
        decreases n - i,
    {
        let b = s[i];
        if !((48 <= b && b <= 57) || (65 <= b && b <= 90) || (97 <= b && b <= 122) || b == 45
            || b == 95) {
            return false;
        }
        i = i + 1;
    }
    true
}

/// Whether `name` may stand as a node name.
pub fn is_valid_name(name: &str) -> (r: bool)
    ensures
        r == valid_name(name.spec_bytes()),
{
    let bytes = vstd::slice::slice_to_vec(name.as_bytes());
    valid_name_bytes(&bytes)
}

/// A node with one more child appended.
pub open spec fn node_with_child(p: NodeV, c: NodeV) -> NodeV {
    NodeV { name: p.name, values: p.values, children: p.children.push(c) }
}

/// The values of a line's value tokens, left to right, or `None` at
/// the first token that is not a number.
pub open spec fn read_values(vals: Seq<Seq<u8>>) -> Option<Seq<int>>
    decreases vals.len(),
{
    if vals.len() == 0 {
        Some(Seq::empty())
    } else {
        match parse_number(vals[0]) {
            None => None,
            Some(v) => match read_values(vals.drop_first()) {
                None => None,
                Some(rest) => Some(seq![v] + rest),
            },
        }
    }
}

/// What one line does to the stack of open nodes. A blank line is
/// skipped; a leading `}` closes the innermost open node and appends it
/// to its parent; otherwise the line yields a node, pushed as a new
/// open context when the line ends with `{`, else appended to the
/// innermost open node's children.
pub open spec fn line_step(stack: Seq<NodeV>, line: Seq<u8>) -> Result<Seq<NodeV>, Error> {
    let toks = tokens(strip_comment(line));
    if toks.len() == 0 {
        Ok(stack)
    } else if toks[0] == seq![125u8] {
        if stack.len() >= 2 {
            let top = stack.last();
            let parent = stack[stack.len() - 2];
            Ok(stack.drop_last().drop_last().push(node_with_child(parent, top)))
        } else {
            Err(plain_err(ErrorKind::UnmatchedClose))
        }
    } else if !valid_name(toks[0]) {
        Err(plain_err(ErrorKind::InvalidName))
    } else {
        let open_block = toks.len() > 1 && toks.last() == seq![123u8];
        let vals = if open_block {
            toks.subrange(1, toks.len() - 1)
        } else {
            toks.subrange(1, toks.len() as int)
        };
        match read_values(vals) {
            None => Err(plain_err(ErrorKind::InvalidNumber)),
            Some(nums) => {
                let node = NodeV { name: toks[0], values: nums, children: Seq::empty() };
                if open_block {
                    Ok(stack.push(node))
                } else {
                    Ok(stack.update(stack.len() - 1, node_with_child(stack.last(), node)))
                }
            },
        }
    }
}

/// Run the lines from index `i` on over the stack, stopping at the
/// first failing line.
pub open spec fn run_lines(stack: Seq<NodeV>, lines: Seq<Seq<u8>>, i: int) -> Result<
    Seq<NodeV>,
    Error,
>
    decreases lines.len() - i,
{
    if i < 0 || i >= lines.len() {
        Ok(stack)
    } else {
        match line_step(stack, lines[i]) {
            Ok(s2) => run_lines(s2, lines, i + 1),
            Err(e) => Err(e),
        }
    }
}

/// The sentinel context that collects top-level nodes.
pub open spec fn sentinel() -> NodeV {
    NodeV { name: Seq::empty(), values: Seq::empty(), children: Seq::empty() }
}

/// The reading of a whole document: run every line over a stack holding
/// the sentinel; at the end exactly the sentinel must remain, holding
/// exactly one child, which is the document's root node.
pub open spec fn spec_parse(text: Seq<u8>) -> Result<NodeV, Error> {
    match run_lines(seq![sentinel()], lines_from(text, 0), 0) {
        Err(e) => Err(e),
        Ok(stack) => if stack.len() != 1 {
            Err(plain_err(ErrorKind::UnclosedBlocks { open: (stack.len() - 1) as usize }))
        } else if stack[0].children.len() != 1 {
            Err(plain_err(ErrorKind::RootCount { found: stack[0].children.len() as usize }))
        } else {
            Ok(stack[0].children[0])
        },
    }
}

pub open spec fn parse_result_view(r: Result<Node, Error>) -> Result<NodeV, Error> {
    match r {
        Ok(n) => Ok(n@),
        Err(e) => Err(e),
    }
}

/// Parse a scene description text. The result is the single top-level
/// node of a well-formed document, or the first error: an invalid name
/// or number token, an unmatched `}`, blocks left open at the end, or a
/// top-level node count other than one.
#[verifier::loop_isolation(false)]
#[verifier::rlimit(100)]
pub fn parse(text: &str) -> (r: Result<Node, Error>)
    ensures
        parse_result_view(r) == spec_parse(text.spec_bytes()),
{
    let bytes = vstd::slice::slice_to_vec(text.as_bytes());
    let lines = split_lines(&bytes);
    let ghost lv = toks_view(lines@);

    let mut stack: Vec<Node> = Vec::new();
    stack.push(Node { name: Vec::new(), values: Vec::new(), children: Vec::new() });
    proof {
        assert(children_view(Seq::<Node>::empty()) =~= Seq::<NodeV>::empty());
        lemma_children_view_push(Seq::<Node>::empty(), stack@[0]);
        assert(values_view(Seq::<Fixed>::empty()) =~= Seq::<int>::empty());
        assert(stack@[0]@ == sentinel());
        assert(children_view(stack@) =~= seq![sentinel()]);
    }

    let nlines = lines.len();
    let mut i: usize = 0;
    while i < nlines
        invariant
            stack@.len() >= 1,
            run_lines(seq![sentinel()], lv, 0) == run_lines(children_view(stack@), lv, i as int),
        decreases nlines - i,
    {
        let ghost s0 = stack@;
        let ghost sv = children_view(stack@);
        proof {
            lemma_children_view_len(s0);
            assert(lv[i as int] == lines@[i as int]@);
        }
        let stripped = strip_comment_exec(&lines[i]);
        let toks = tokenize(&stripped);
        let ghost tv = tokens(strip_comment(lv[i as int]));
        proof {
            assert(toks_view(toks@) == tv);
        }
        if toks.len() == 0 {
            proof {
                assert(line_step(sv, lv[i as int]) == Ok::<Seq<NodeV>, Error>(sv));
            }
        } else {
            proof {
                assert(tv[0] == toks@[0]@);
            }
            let first_is_close = toks[0].len() == 1 && toks[0][0] == 125;
            proof {
                if first_is_close {
                    assert(tv[0] =~= seq![125u8]);
                } else {
                    assert(tv[0] != seq![125u8]) by {
                        if tv[0] == seq![125u8] {
                            assert(tv[0].len() == 1 && tv[0][0] == 125);
                        }
                    }
                }
            }
            if first_is_close {
                if stack.len() >= 2 {
                    let top = match stack.pop() {
                        Some(t) => t,
                        None => Node { name: Vec::new(), values: Vec::new(), children: Vec::new() },
                    };
                    let mut parent = match stack.pop() {
                        Some(p) => p,
                        None => Node { name: Vec::new(), values: Vec::new(), children: Vec::new() },
                    };
                    let ghost parent0 = parent;
                    parent.children.push(top);
                    proof {
                        lemma_children_view_push(parent0.children@, top);
                        assert(parent@ == node_with_child(parent0@, top@));
                    }
                    let ghost s2 = stack@;
                    stack.push(parent);
                    proof {
                        lemma_children_view_drop_last(s0);
                        lemma_children_view_drop_last(s0.drop_last());
                        lemma_children_view_push(s2, parent);
                        lemma_children_view_index(s0, s0.len() - 1);
                        lemma_children_view_index(s0, s0.len() - 2);
                        lemma_children_view_index(s0.drop_last(), s0.len() - 2);
                        assert(top@ == sv.last());
                        assert(parent0@ == sv[sv.len() - 2]);
                        assert(children_view(stack@) == sv.drop_last().drop_last().push(
                            node_with_child(sv[sv.len() - 2], sv.last())));
                        assert(line_step(sv, lv[i as int]) == Ok::<Seq<NodeV>, Error>(
                            children_view(stack@)));
                    }
                } else {
                    proof {
                        assert(line_step(sv, lv[i as int]) == Err::<Seq<NodeV>, Error>(
                            plain_err(ErrorKind::UnmatchedClose)));
                        assert(run_lines(sv, lv, i as int) == Err::<Seq<NodeV>, Error>(
                            plain_err(ErrorKind::UnmatchedClose)));
                    }
                    return Err(Error::new(ErrorKind::UnmatchedClose));
                }
            } else if !valid_name_bytes(&toks[0]) {
                proof {
                    assert(line_step(sv, lv[i as int]) == Err::<Seq<NodeV>, Error>(
                        plain_err(ErrorKind::InvalidName)));
                    assert(run_lines(sv, lv, i as int) == Err::<Seq<NodeV>, Error>(
                        plain_err(ErrorKind::InvalidName)));
                }
                return Err(Error::new(ErrorKind::InvalidName));
            } else {
                let ntoks = toks.len();
                let last_opens = ntoks > 1 && toks[ntoks - 1].len() == 1 && toks[ntoks - 1][0]
                    == 123;
                proof {
                    assert(tv.last() == toks@[ntoks - 1]@);
                    if last_opens {
                        assert(tv.last() =~= seq![123u8]);
                    } else if ntoks > 1 {
                        assert(tv.last() != seq![123u8]) by {
                            if tv.last() == seq![123u8] {
                                assert(tv.last().len() == 1 && tv.last()[0] == 123);
                            }
                        }
                    }
                    assert(last_opens == (tv.len() > 1 && tv.last() == seq![123u8]));
                }
                let nvals = if last_opens {
                    ntoks - 1
                } else {
                    ntoks
                };
                let ghost vals = if last_opens {
                    tv.subrange(1, tv.len() - 1)
                } else {
                    tv.subrange(1, tv.len() as int)
                };
                proof {
                    assert(vals.len() == nvals - 1);
                }
                let mut values: Vec<Fixed> = Vec::new();
                let mut q: usize = 1;
                proof {
                    assert(vals.skip(0) =~= vals);
                    assert(values_view(values@) =~= Seq::<int>::empty());
                    if read_values(vals) is Some {
                        assert(read_values(vals) == Some(
                            values_view(values@) + read_values(vals)->Some_0,
                        )) by {
                            assert(values_view(values@) + read_values(vals)->Some_0
                                =~= read_values(vals)->Some_0);
                        }
                    }
                }
                while q < nvals
                    invariant
                        1 <= q <= nvals <= toks@.len(),
                        nvals - 1 == vals.len(),
                        forall|t: int| 0 <= t < vals.len() ==> #[trigger] vals[t] == toks@[t + 1]@,
                        values@.len() == q - 1,
                        match read_values(vals.skip(q - 1)) {
                            None => read_values(vals) is None,
                            Some(rest) => read_values(vals) == Some(values_view(values@) + rest),
                        },
                    decreases nvals - q,
                {
                    let ghost sk = vals.skip(q - 1);
                    proof {
                        assert(sk[0] == vals[q - 1]);
                        assert(sk[0] == toks@[q as int]@);
                        assert(sk.drop_first() =~= vals.skip(q as int));
                    }
                    match parse_number_token(&toks[q]) {
                        Some(v) => {
                            let ghost vprev = values@;
                            values.push(Fixed::from_raw(v));
                            proof {
                                assert(parse_number(sk[0]) == Some(v as int));
                                assert(values_view(values@) =~= values_view(vprev) + seq![
                                    v as int,
                                ]);
                                match read_values(vals.skip(q as int)) {
                                    None => {
                                        assert(read_values(sk) is None);
                                    },
                                    Some(rest2) => {
                                        assert(read_values(sk) == Some(seq![v as int] + rest2));
                                        assert((values_view(vprev) + (seq![v as int] + rest2))
                                            =~= (values_view(vprev) + seq![v as int]) + rest2);
                                    },
                                }
                            }
                        },
                        None => {
                            proof {
                                assert(parse_number(sk[0]) is None);
                                assert(read_values(sk) is None);
                                assert(read_values(vals) is None);
                                assert(line_step(sv, lv[i as int]) == Err::<Seq<NodeV>, Error>(
                                    plain_err(ErrorKind::InvalidNumber)));
                                assert(run_lines(sv, lv, i as int) == Err::<Seq<NodeV>, Error>(
                                    plain_err(ErrorKind::InvalidNumber)));
                            }
                            return Err(Error::new(ErrorKind::InvalidNumber));
                        },
                    }
                    q = q + 1;
                }
                let name = copy_bytes(&toks[0]);
                let node = Node { name, values, children: Vec::new() };
                proof {
                    assert(vals.skip(nvals - 1) =~= Seq::<Seq<u8>>::empty());
                    assert(read_values(vals.skip(nvals - 1)) == Some(Seq::<int>::empty()));
                    assert(read_values(vals) == Some(
                        values_view(node.values@) + Seq::<int>::empty(),
                    ));
                    assert(values_view(node.values@) + Seq::<int>::empty() =~= values_view(
                        node.values@,
                    ));
                    assert(children_view(node.children@) =~= Seq::<NodeV>::empty());
                }
                let ghost nodev = NodeV {
                    name: tv[0],
                    values: values_view(node.values@),
                    children: Seq::empty(),
                };
                proof {
                    assert(node@ == nodev);
                    assert(read_values(vals) == Some(nodev.values));
                }
                if last_opens {
                    stack.push(node);
                    proof {
                        lemma_children_view_push(s0, node);
                        assert(line_step(sv, lv[i as int]) == Ok::<Seq<NodeV>, Error>(
                            children_view(stack@)));
                    }
                } else {
                    let mut top = match stack.pop() {
                        Some(t) => t,
                        None => Node { name: Vec::new(), values: Vec::new(), children: Vec::new() },
                    };
                    let ghost top0 = top;
                    top.children.push(node);
                    proof {
                        lemma_children_view_push(top0.children@, node);
                        assert(top@ == node_with_child(top0@, nodev));
                    }
                    let ghost s2 = stack@;
                    stack.push(top);
                    proof {
                        lemma_children_view_drop_last(s0);
                        lemma_children_view_push(s2, top);
                        lemma_children_view_index(s0, s0.len() - 1);
                        assert(top0@ == sv.last());
                        assert(children_view(stack@) =~= sv.update(
                            sv.len() - 1,
                            node_with_child(sv.last(), nodev),
                        ));
                        assert(line_step(sv, lv[i as int]) == Ok::<Seq<NodeV>, Error>(
                            children_view(stack@)));
                    }
                }
            }
        }
        i = i + 1;
    }
    proof {
        assert(run_lines(children_view(stack@), lv, nlines as int) == Ok::<Seq<NodeV>, Error>(
            children_view(stack@)));
        lemma_children_view_len(stack@);
    }
    let ghost sfin = stack@;
    if stack.len() != 1 {
        return Err(Error::new(ErrorKind::UnclosedBlocks { open: stack.len() - 1 }));
    }
    let mut root = match stack.pop() {
        Some(r) => r,
        None => Node { name: Vec::new(), values: Vec::new(), children: Vec::new() },
    };
    proof {
        assert(root == sfin[0]);
        lemma_children_view_index(sfin, 0);
        assert(root@ == children_view(sfin)[0]);
    }
    let ghost rootv = root@;
    let ghost rc0 = root.children@;
    proof {
        lemma_children_view_len(rc0);
    }
    if root.children.len() != 1 {
        return Err(Error::new(ErrorKind::RootCount { found: root.children.len() }));
    }
    let child = match root.children.pop() {
        Some(c) => c,
        None => Node { name: Vec::new(), values: Vec::new(), children: Vec::new() },
    };
    proof {
        lemma_children_view_index(rc0, 0);
        assert(child@ == rootv.children[0]);
    }
    Ok(child)
}

fn copy_bytes(v: &Vec<u8>) -> (r: Vec<u8>)
    ensures
        r@ == v@,
{
    let n = v.len();
    let mut r: Vec<u8> = Vec::new();
    let mut i: usize = 0;
    while i < n
        invariant
            n == v@.len(),
            0 <= i <= n,
            r@ == v@.subrange(0, i as int),
        decreases n - i,
    {
        r.push(v[i]);
        proof {
            assert(r@ =~= v@.subrange(0, i + 1));
        }
        i = i + 1;
    }
    proof {
        assert(v@.subrange(0, n as int) =~= v@);
    }
    r
}

} // verus!

//! Splitting character sequences into trimmed parts, delimited words,
//! and lines.

use vstd::prelude::*;
use crate::native::is_unicode_ws;

verus! {

/// Number of leading characters of `s` satisfying `p`.
pub open spec fn lead_count(s: Seq<char>, p: spec_fn(char) -> bool) -> int
    decreases s.len(),
{
    if s.len() == 0 {
        0
    } else if !p(s[0]) {
        0
    } else {
        1 + lead_count(s.drop_first(), p)
    }
}

/// Number of trailing characters of `s` satisfying `p`.
pub open spec fn trail_count(s: Seq<char>, p: spec_fn(char) -> bool) -> int
    decreases s.len(),
{
    if s.len() == 0 {
        0
    } else if !p(s.last()) {
        0
    } else {
        1 + trail_count(s.drop_last(), p)
    }
}

/// Number of leading characters of `s` failing `p`.
pub open spec fn lead_count_not(s: Seq<char>, p: spec_fn(char) -> bool) -> int
    decreases s.len(),
{
    if s.len() == 0 {
        0
    } else if p(s[0]) {
        0
    } else {
        1 + lead_count_not(s.drop_first(), p)
    }
}

/// `lead_count_not` lies between zero and the sequence's length.
pub proof fn lemma_lead_count_not_bounds(s: Seq<char>, p: spec_fn(char) -> bool)
    ensures
        0 <= lead_count_not(s, p) <= s.len(),
    decreases s.len(),
{
    if s.len() != 0 && !p(s[0]) {
        lemma_lead_count_not_bounds(s.drop_first(), p);
    }
}

/// A scan that stops at the first character satisfying `p` has found
/// `lead_count_not`.
pub proof fn lemma_lead_count_not_scan(s: Seq<char>, p: spec_fn(char) -> bool, j: int)
    requires
        0 <= j <= s.len(),
        forall|k: int| 0 <= k < j ==> !p(s[k]),
        j == s.len() || p(s[j]),
    ensures
        lead_count_not(s, p) == j,
    decreases s.len(),
{
    if j == 0 {
    } else {
        assert(!p(s[0]));
        lemma_lead_count_not_scan(s.drop_first(), p, j - 1);
    }
}

/// `lead_count` lies between zero and the sequence's length.
pub proof fn lemma_lead_count_bounds(s: Seq<char>, p: spec_fn(char) -> bool)
    ensures
        0 <= lead_count(s, p) <= s.len(),
    decreases s.len(),
{
    if s.len() != 0 && p(s[0]) {
        lemma_lead_count_bounds(s.drop_first(), p);
    }
}

/// A scan that stops at the first character failing `p` has found
/// `lead_count`.
pub proof fn lemma_lead_count_scan(s: Seq<char>, p: spec_fn(char) -> bool, j: int)
    requires
        0 <= j <= s.len(),
        forall|k: int| 0 <= k < j ==> p(s[k]),
        j == s.len() || !p(s[j]),
    ensures
        lead_count(s, p) == j,
    decreases s.len(),
{
    if j == 0 {
    } else {
        assert(p(s[0]));
        lemma_lead_count_scan(s.drop_first(), p, j - 1);
    }
}

/// A scan that stops at the last character failing `p` has found
/// `trail_count`.
pub proof fn lemma_trail_count_scan(s: Seq<char>, p: spec_fn(char) -> bool, j: int)
    requires
        0 <= j <= s.len(),
        forall|k: int| j <= k < s.len() ==> p(s[k]),
        j == 0 || !p(s[j - 1]),
    ensures
        trail_count(s, p) == s.len() - j,
    decreases s.len(),
{
    if j == s.len() {
    } else {
        assert(p(s.last()));
        assert(forall|k: int| j <= k < s.drop_last().len() ==> p(s.drop_last()[k]));
        lemma_trail_count_scan(s.drop_last(), p, j);
    }
}

/// Number of leading whitespace characters of `s`.
pub open spec fn ws_lead(s: Seq<char>) -> int {
    lead_count(s, |c: char| is_unicode_ws(c))
}

/// Number of trailing whitespace characters of `s`.
pub open spec fn ws_trail(s: Seq<char>) -> int {
    trail_count(s, |c: char| is_unicode_ws(c))
}

/// `s` with its leading whitespace removed.
pub open spec fn trim_start_chars(s: Seq<char>) -> Seq<char> {
    s.skip(ws_lead(s))
}

/// `s` with its trailing whitespace removed.
pub open spec fn trim_end_chars(s: Seq<char>) -> Seq<char> {
    s.take(s.len() - ws_trail(s))
}

/// `s` with leading and trailing whitespace removed.
pub open spec fn trim_chars(s: Seq<char>) -> Seq<char> {
    trim_end_chars(trim_start_chars(s))
}

/// The maximal runs of characters failing `ws` in `s`, in order: the
/// words of `s` when `ws` tests for a delimiter.
pub open spec fn split_on(s: Seq<char>, ws: spec_fn(char) -> bool) -> Seq<Seq<char>>
    decreases s.len(),
    via split_on_dec
{
    let k = lead_count(s, ws);
    let t = s.skip(k);
    if t.len() == 0 {
        seq![]
    } else {
        let m = lead_count_not(t, ws);
        seq![t.take(m)] + split_on(t.skip(m), ws)
    }
}

#[via_fn]
proof fn split_on_dec(s: Seq<char>, ws: spec_fn(char) -> bool) {
    lemma_lead_count_bounds(s, ws);
    let k = lead_count(s, ws);
    let t = s.skip(k);
    if t.len() != 0 {
        lemma_lead_count_not_bounds(t, ws);
        if k < s.len() {
            // the whitespace run stopped, so the token is nonempty
            lemma_lead_count_stop(s, ws);
            assert(!ws(t[0]));
            lemma_lead_count_not_bounds(t.drop_first(), ws);
            assert(lead_count_not(t, ws) >= 1);
        }
    }
}

/// When the leading run stops before the end, the next character fails
/// `p`.
pub proof fn lemma_lead_count_stop(s: Seq<char>, p: spec_fn(char) -> bool)
    requires
        lead_count(s, p) < s.len(),
    ensures
        !p(s[lead_count(s, p)]),
    decreases s.len(),
{
    lemma_lead_count_bounds(s, p);
    if s.len() != 0 && p(s[0]) {
        lemma_lead_count_stop(s.drop_first(), p);
        lemma_lead_count_bounds(s.drop_first(), p);
    }
}

/// `line` with one trailing carriage return removed, if it ends in one.
pub open spec fn chomp_cr(line: Seq<char>) -> Seq<char> {
    if line.len() > 0 && line.last() == '\r' {
        line.drop_last()
    } else {
        line
    }
}

/// The lines of `s`: pieces delimited by a line feed, each with one
/// carriage return before the line feed removed; a final piece without
/// a line feed stands unchanged, and a trailing line feed opens no
/// further line.
pub open spec fn lines_of(s: Seq<char>) -> Seq<Seq<char>>
    decreases s.len(),
    via lines_of_dec
{
    if s.len() == 0 {
        seq![]
    } else {
        let k = lead_count(s, |c: char| c != '\n');
        if k >= s.len() {
            seq![s]
        } else {
            seq![chomp_cr(s.take(k))] + lines_of(s.skip(k + 1))
        }
    }
}

#[via_fn]
proof fn lines_of_dec(s: Seq<char>) {
    if s.len() != 0 {
        lemma_lead_count_bounds(s, |c: char| c != '\n');
    }
}

/// True when `c` is ASCII whitespace: space, tab, line feed, form feed
/// or carriage return.
pub open spec fn is_ascii_ws(c: char) -> bool {
    c == ' ' || c == '\t' || c == '\n' || c == '\u{c}' || c == '\r'
}

/// Decide ASCII whitespace.
pub fn is_ascii_ws_char(c: char) -> (r: bool)
    ensures
        r == is_ascii_ws(c),
{
    c == ' ' || c == '\t' || c == '\n' || c == '\u{c}' || c == '\r'
}

} // verus!

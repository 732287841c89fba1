//! ASCII case folding on characters and character sequences.

use vstd::prelude::*;
use crate::width::byte_len;
use crate::width::char_width;
use crate::width::lemma_byte_len_push;

verus! {

/// `c` with an ASCII uppercase letter mapped to lowercase; any other
/// character is unchanged.
pub open spec fn ascii_lower_char(c: char) -> char {
    if 'A' <= c && c <= 'Z' {
        ((c as u32) + 32) as char
    } else {
        c
    }
}

/// `c` with an ASCII lowercase letter mapped to uppercase; any other
/// character is unchanged.
pub open spec fn ascii_upper_char(c: char) -> char {
    if 'a' <= c && c <= 'z' {
        ((c as u32) - 32) as char
    } else {
        c
    }
}

/// `s` with every ASCII uppercase letter mapped to lowercase.
pub open spec fn ascii_lower_seq(s: Seq<char>) -> Seq<char> {
    s.map_values(|c: char| ascii_lower_char(c))
}

/// `s` with every ASCII lowercase letter mapped to uppercase.
pub open spec fn ascii_upper_seq(s: Seq<char>) -> Seq<char> {
    s.map_values(|c: char| ascii_upper_char(c))
}

/// True when `a` and `b` agree character by character up to ASCII case.
pub open spec fn eq_ignore_ascii_case_chars(a: Seq<char>, b: Seq<char>) -> bool {
    a.map_values(|c: char| ascii_lower_char(c)) == b.map_values(|c: char| ascii_lower_char(c))
}

/// ASCII case folding never changes a character's encoded width.
pub proof fn lemma_ascii_lower_width(c: char)
    ensures
        char_width(ascii_lower_char(c)) == char_width(c),
{
}

/// ASCII case folding never changes a character's encoded width.
pub proof fn lemma_ascii_upper_width(c: char)
    ensures
        char_width(ascii_upper_char(c)) == char_width(c),
{
}

/// ASCII case folding never changes a sequence's byte length.
pub proof fn lemma_ascii_lower_seq_byte_len(s: Seq<char>)
    ensures
        ascii_lower_seq(s).len() == s.len(),
        byte_len(ascii_lower_seq(s)) == byte_len(s),
    decreases s.len(),
{
    if s.len() == 0 {
        assert(ascii_lower_seq(s) =~= Seq::<char>::empty());
    } else {
        let t = s.drop_last();
        lemma_ascii_lower_seq_byte_len(t);
        assert(s =~= t.push(s.last()));
        assert(ascii_lower_seq(s) =~= ascii_lower_seq(t).push(ascii_lower_char(s.last())));
        lemma_byte_len_push(t, s.last());
        lemma_byte_len_push(ascii_lower_seq(t), ascii_lower_char(s.last()));
        lemma_ascii_lower_width(s.last());
    }
}

/// ASCII case folding never changes a sequence's byte length.
pub proof fn lemma_ascii_upper_seq_byte_len(s: Seq<char>)
    ensures
        ascii_upper_seq(s).len() == s.len(),
        byte_len(ascii_upper_seq(s)) == byte_len(s),
    decreases s.len(),
{
    if s.len() == 0 {
        assert(ascii_upper_seq(s) =~= Seq::<char>::empty());
    } else {
        let t = s.drop_last();
        lemma_ascii_upper_seq_byte_len(t);
        assert(s =~= t.push(s.last()));
        assert(ascii_upper_seq(s) =~= ascii_upper_seq(t).push(ascii_upper_char(s.last())));
        lemma_byte_len_push(t, s.last());
        lemma_byte_len_push(ascii_upper_seq(t), ascii_upper_char(s.last()));
        lemma_ascii_upper_width(s.last());
    }
}

} // verus!

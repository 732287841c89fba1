//! The width-conversion layer: the byte-length model of character
//! sequences, character boundaries, and the checked conversions between
//! the native size type and the 32-bit domain.
//!
//! The content of a string is modelled as a `Seq<char>`; its size in
//! memory is the length of the UTF-8 encoding of that sequence, given by
//! [`byte_len`]. All byte offsets that the string types accept are
//! measured against this encoding.

use vstd::prelude::*;
use vstd::utf8::encode_scalar;
use vstd::utf8::encode_utf8;
use vstd::utf8::encode_utf8_decode_utf8;
use vstd::utf8::encode_utf8_first_scalar;
use vstd::utf8::encode_utf8_valid_utf8;
use vstd::utf8::is_char_boundary;
use vstd::utf8::length_of_first_scalar;
use vstd::utf8::pop_first_scalar;

verus! {

/// Number of bytes in the UTF-8 encoding of `s`.
pub open spec fn byte_len(s: Seq<char>) -> nat {
    encode_utf8(s).len()
}

/// Number of bytes in the UTF-8 encoding of the single character `c`.
pub open spec fn char_width(c: char) -> nat {
    encode_scalar(c as u32).len()
}

/// True when byte offset `off` falls on a character boundary of the
/// UTF-8 encoding of `s` (the start of a character's encoding, or the
/// end of the whole encoding).
pub open spec fn at_char_boundary(s: Seq<char>, off: int) -> bool {
    is_char_boundary(encode_utf8(s), off)
}

/// Index of the character whose encoding starts at byte offset `off`,
/// meaningful when `off` is a character boundary of `s`.
pub open spec fn char_index_of(s: Seq<char>, off: int) -> int
    decreases s.len(),
{
    if off <= 0 || s.len() == 0 {
        0
    } else {
        1 + char_index_of(s.drop_first(), off - char_width(s[0]))
    }
}

/// Every character encodes to between 1 and 4 bytes.
pub proof fn lemma_char_width_bounds(c: char)
    ensures
        1 <= char_width(c) <= 4,
{
}

/// The encoding of a concatenation is the concatenation of the encodings.
pub proof fn lemma_encode_concat(a: Seq<char>, b: Seq<char>)
    ensures
        encode_utf8(a + b) == encode_utf8(a) + encode_utf8(b),
    decreases a.len(),
{
    if a.len() == 0 {
        assert(a + b =~= b);
        assert(encode_utf8(a) + encode_utf8(b) =~= encode_utf8(b));
    } else {
        assert((a + b)[0] == a[0]);
        assert((a + b).drop_first() =~= a.drop_first() + b);
        lemma_encode_concat(a.drop_first(), b);
        assert(encode_utf8(a + b) =~= encode_utf8(a) + encode_utf8(b));
    }
}

/// Byte length distributes over concatenation.
pub proof fn lemma_byte_len_concat(a: Seq<char>, b: Seq<char>)
    ensures
        byte_len(a + b) == byte_len(a) + byte_len(b),
{
    lemma_encode_concat(a, b);
}

/// The encoding of a single character is the encoding of its scalar value.
pub proof fn lemma_encode_singleton(c: char)
    ensures
        encode_utf8(seq![c]) == encode_scalar(c as u32),
        byte_len(seq![c]) == char_width(c),
{
    let one = seq![c];
    assert(one.drop_first() =~= Seq::<char>::empty());
    assert(encode_utf8(Seq::<char>::empty()) =~= Seq::<u8>::empty());
    assert(one[0] == c);
    assert(encode_utf8(one) == encode_scalar(c as u32) + encode_utf8(one.drop_first()));
    assert(encode_scalar(c as u32) + Seq::<u8>::empty() =~= encode_scalar(c as u32));
}

/// Appending one character adds its width to the byte length.
pub proof fn lemma_byte_len_push(s: Seq<char>, c: char)
    ensures
        byte_len(s.push(c)) == byte_len(s) + char_width(c),
{
    assert(s.push(c) =~= s + seq![c]);
    lemma_byte_len_concat(s, seq![c]);
    lemma_encode_singleton(c);
}

/// The byte length of a sequence lies between its character count and
/// four times its character count.
pub proof fn lemma_byte_len_bounds(s: Seq<char>)
    ensures
        s.len() <= byte_len(s) <= 4 * s.len(),
    decreases s.len(),
{
    if s.len() == 0 {
    } else {
        lemma_char_width_bounds(s[0]);
        lemma_byte_len_bounds(s.drop_first());
    }
}

/// Splitting a sequence at a character index splits its byte length.
pub proof fn lemma_byte_len_take_skip(s: Seq<char>, i: int)
    requires
        0 <= i <= s.len(),
    ensures
        byte_len(s) == byte_len(s.take(i)) + byte_len(s.skip(i)),
{
    assert(s =~= s.take(i) + s.skip(i));
    lemma_byte_len_concat(s.take(i), s.skip(i));
}

/// One more character in a prefix adds that character's width to the
/// prefix's byte length.
pub proof fn lemma_byte_len_take_succ(s: Seq<char>, i: int)
    requires
        0 <= i < s.len(),
    ensures
        byte_len(s.take(i + 1)) == byte_len(s.take(i)) + char_width(s[i]),
{
    assert(s.take(i + 1) =~= s.take(i).push(s[i]));
    lemma_byte_len_push(s.take(i), s[i]);
}

/// Byte lengths of prefixes grow strictly with the character index.
pub proof fn lemma_byte_len_take_mono(s: Seq<char>, i: int, j: int)
    requires
        0 <= i <= j <= s.len(),
    ensures
        byte_len(s.take(i)) + (j - i) <= byte_len(s.take(j)),
        byte_len(s.take(j)) <= byte_len(s),
{
    assert(s.take(j) =~= s.take(i) + s.take(j).skip(i));
    lemma_byte_len_concat(s.take(i), s.take(j).skip(i));
    lemma_byte_len_bounds(s.take(j).skip(i));
    assert(s =~= s.take(j) + s.skip(j));
    lemma_byte_len_concat(s.take(j), s.skip(j));
}

/// A contiguous part of a sequence encodes to no more bytes than the
/// whole sequence.
pub proof fn lemma_byte_len_subrange(s: Seq<char>, a: int, b: int)
    requires
        0 <= a <= b <= s.len(),
    ensures
        byte_len(s.subrange(a, b)) <= byte_len(s),
{
    assert(s =~= s.subrange(0, a) + s.subrange(a, b) + s.subrange(b, s.len() as int));
    lemma_byte_len_concat(s.subrange(0, a) + s.subrange(a, b), s.subrange(b, s.len() as int));
    lemma_byte_len_concat(s.subrange(0, a), s.subrange(a, b));
}

/// Two prefixes with the same byte length are the same prefix.
pub proof fn lemma_take_byte_len_unique(s: Seq<char>, i: int, j: int)
    requires
        0 <= i <= s.len(),
        0 <= j <= s.len(),
        byte_len(s.take(i)) == byte_len(s.take(j)),
    ensures
        i == j,
{
    if i < j {
        lemma_byte_len_take_mono(s, i, j);
    } else if j < i {
        lemma_byte_len_take_mono(s, j, i);
    }
}

/// UTF-8 encoding is injective on character sequences.
pub proof fn lemma_encode_injective(a: Seq<char>, b: Seq<char>)
    requires
        encode_utf8(a) == encode_utf8(b),
    ensures
        a == b,
{
    encode_utf8_decode_utf8(a);
    encode_utf8_decode_utf8(b);
}

/// A character boundary determines a unique character index: the prefix
/// of `s` up to `char_index_of(s, off)` encodes to exactly `off` bytes.
pub proof fn lemma_boundary_char_index(s: Seq<char>, off: int)
    requires
        at_char_boundary(s, off),
    ensures
        0 <= off <= byte_len(s),
        0 <= char_index_of(s, off) <= s.len(),
        byte_len(s.take(char_index_of(s, off))) == off,
        off < byte_len(s) ==> char_index_of(s, off) < s.len(),
        off > 0 ==> char_index_of(s, off) > 0,
    decreases s.len(),
{
    let bytes = encode_utf8(s);
    encode_utf8_valid_utf8(s);
    if off == 0 {
        assert(s.take(0) =~= Seq::<char>::empty());
    } else {
        // `is_char_boundary` is false outside `[0, bytes.len()]`,
        // so the requires pins `0 < off <= byte_len(s)`.
        assert(0 < off <= bytes.len());
        if s.len() == 0 {
            assert(false);
        } else {
            encode_utf8_first_scalar(s);
            let w = char_width(s[0]);
            assert(length_of_first_scalar(bytes) == w);
            assert(pop_first_scalar(bytes) =~= encode_utf8(s.drop_first()));
            assert(is_char_boundary(encode_utf8(s.drop_first()), off - w));
            lemma_boundary_char_index(s.drop_first(), off - w);
            let i = char_index_of(s.drop_first(), off - w);
            assert(char_index_of(s, off) == 1 + i);
            assert(s.take(1 + i) =~= seq![s[0]] + s.drop_first().take(i));
            lemma_byte_len_concat(seq![s[0]], s.drop_first().take(i));
            lemma_encode_singleton(s[0]);
            assert(byte_len(s) == w + byte_len(s.drop_first())) by {
                assert(s =~= seq![s[0]] + s.drop_first());
                lemma_byte_len_concat(seq![s[0]], s.drop_first());
            }
        }
    }
}

/// The byte length of any character-index prefix is a character boundary.
pub proof fn lemma_char_prefix_is_boundary(s: Seq<char>, i: int)
    requires
        0 <= i <= s.len(),
    ensures
        at_char_boundary(s, byte_len(s.take(i)) as int),
    decreases i,
{
    let bytes = encode_utf8(s);
    encode_utf8_valid_utf8(s);
    if i == 0 {
        assert(s.take(0) =~= Seq::<char>::empty());
        assert(is_char_boundary(bytes, 0));
    } else {
        let off = byte_len(s.take(i)) as int;
        encode_utf8_first_scalar(s);
        let w = char_width(s[0]);
        assert(length_of_first_scalar(bytes) == w);
        assert(pop_first_scalar(bytes) =~= encode_utf8(s.drop_first()));
        assert(s.take(i) =~= seq![s[0]] + s.drop_first().take(i - 1));
        lemma_byte_len_concat(seq![s[0]], s.drop_first().take(i - 1));
        lemma_encode_singleton(s[0]);
        assert(off == w + byte_len(s.drop_first().take(i - 1)));
        lemma_char_prefix_is_boundary(s.drop_first(), i - 1);
        lemma_byte_len_take_mono(s, 0, i);
        assert(s.take(0) =~= Seq::<char>::empty());
        assert(off > 0);
        lemma_byte_len_take_mono(s, i, s.len() as int);
        assert(s.take(s.len() as int) =~= s);
        assert(off <= bytes.len());
    }
}

/// Splitting the encoding of `s` at byte offset `mid` splits `s` at the
/// matching character index.
pub proof fn lemma_encoding_split(s: Seq<char>, p: Seq<char>, q: Seq<char>, mid: int)
    requires
        0 <= mid <= byte_len(s),
        encode_utf8(p) == encode_utf8(s).subrange(0, mid),
        encode_utf8(q) == encode_utf8(s).subrange(mid, byte_len(s) as int),
    ensures
        p + q == s,
        byte_len(p) == mid,
        p == s.take(p.len() as int),
        q == s.skip(p.len() as int),
        at_char_boundary(s, mid) ==> p.len() == char_index_of(s, mid),
{
    lemma_encode_concat(p, q);
    assert(encode_utf8(p) + encode_utf8(q) =~= encode_utf8(s));
    lemma_encode_injective(p + q, s);
    assert(p =~= s.take(p.len() as int));
    assert(q =~= s.skip(p.len() as int));
    if at_char_boundary(s, mid) {
        lemma_boundary_char_index(s, mid);
        lemma_take_byte_len_unique(s, p.len() as int, char_index_of(s, mid));
    }
}

/// Compute the number of bytes the UTF-8 encoding of `c` occupies.
pub fn char_utf8_width(c: char) -> (w: u32)
    ensures
        w == char_width(c),
{
    proof {
        vstd::utf8::char_is_scalar(c);
    }
    let u = c as u32;
    if u < 0x80 {
        1
    } else if u < 0x800 {
        2
    } else if u < 0x10000 {
        3
    } else {
        4
    }
}

/// Checked conversion from the native size type into the 32-bit domain:
/// succeeds exactly when the value fits.
pub fn checked_u32(n: usize) -> (r: Option<u32>)
    ensures
        n <= u32::MAX ==> r == Some(n as u32),
        n > u32::MAX ==> r is None,
{
    if n <= u32::MAX as usize {
        Some(n as u32)
    } else {
        None
    }
}

/// Conversion from the 32-bit domain back to the native size type;
/// always succeeds, since the 32-bit domain is a subset of the native
/// domain on all supported platforms.
pub fn to_usize(n: u32) -> (r: usize)
    ensures
        r == n as usize,
        r == n as nat,
{
    n as usize
}

} // verus!

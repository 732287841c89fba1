//! Library-wide laws: facts that relate the byte-level picture of a
//! bounded string to its character content.

use vstd::prelude::*;
use vstd::utf8::decode_utf8;
use vstd::utf8::encode_utf8;
use vstd::utf8::encode_utf8_decode_utf8;
use vstd::utf8::encode_utf8_valid_utf8;
use vstd::utf8::is_char_boundary;
use vstd::utf8::length_of_first_scalar;
use vstd::utf8::pop_first_scalar;
use vstd::utf8::valid_first_scalar;
use vstd::utf8::valid_utf8;
use vstd::utf8::valid_utf8_split;
use crate::width::at_char_boundary;
use crate::width::byte_len;
use crate::width::lemma_encode_injective;

verus! {

/// Two strings or views hold equal UTF-8 bytes exactly when they hold
/// equal characters. With `==` on the bounded types meaning equal
/// content, equal bytes and equal values coincide, as they do for the
/// native string types.
pub proof fn lemma_bytes_eq_iff_content_eq(a: Seq<char>, b: Seq<char>)
    ensures
        encode_utf8(a) == encode_utf8(b) <==> a == b,
{
    if encode_utf8(a) == encode_utf8(b) {
        lemma_encode_injective(a, b);
    }
}

/// Round trip: the bytes of any content that fits the 32-bit domain are
/// accepted back by the UTF-8 constructor and decode to that content,
/// so converting a bounded string to its bytes or its native string and
/// back yields the original.
pub proof fn lemma_bytes_round_trip(c: Seq<char>)
    requires
        byte_len(c) <= u32::MAX,
    ensures
        valid_utf8(encode_utf8(c)),
        encode_utf8(c).len() <= u32::MAX,
        decode_utf8(encode_utf8(c)) == c,
{
    encode_utf8_valid_utf8(c);
    encode_utf8_decode_utf8(c);
}

/// Boundary safety: cutting the UTF-8 encoding of a string at a byte
/// offset leaves two decodable byte sequences exactly when the offset
/// falls on a character boundary. A cut inside a multi-byte character
/// cannot produce valid UTF-8, so every splitting operation demands a
/// boundary.
pub proof fn lemma_boundary_iff_pieces_valid(s: Seq<char>, mid: int)
    requires
        0 <= mid <= byte_len(s),
    ensures
        at_char_boundary(s, mid) <==> (valid_utf8(encode_utf8(s).subrange(0, mid)) && valid_utf8(
            encode_utf8(s).subrange(mid, byte_len(s) as int),
        )),
{
    let bytes = encode_utf8(s);
    encode_utf8_valid_utf8(s);
    if at_char_boundary(s, mid) {
        valid_utf8_split(bytes, mid);
    }
    if valid_utf8(bytes.subrange(0, mid)) {
        lemma_valid_prefix_is_boundary(bytes, mid);
    }
}

/// When a prefix of a valid UTF-8 byte sequence is itself valid UTF-8,
/// its end falls on a character boundary of the whole sequence.
proof fn lemma_valid_prefix_is_boundary(bytes: Seq<u8>, mid: int)
    requires
        valid_utf8(bytes),
        0 <= mid <= bytes.len(),
        valid_utf8(bytes.subrange(0, mid)),
    ensures
        is_char_boundary(bytes, mid),
    decreases bytes.len(),
{
    if mid == 0 {
    } else {
        let pre = bytes.subrange(0, mid);
        let w = length_of_first_scalar(bytes);
        assert(pre[0] == bytes[0]);
        // the width of the first scalar is read off the leading byte
        // alone, and the leading-byte classes are disjoint, so a valid
        // prefix holds the whole first scalar
        assert(valid_first_scalar(pre));
        assert(length_of_first_scalar(pre) == w);
        assert(mid >= w);
        assert(pop_first_scalar(pre) =~= pop_first_scalar(bytes).subrange(0, mid - w));
        lemma_valid_prefix_is_boundary(pop_first_scalar(bytes), mid - w);
    }
}

} // verus!

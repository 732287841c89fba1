//! The native string delegations this library relies on without proof.
//!
//! Every item here either gives a specification to a `std` function that
//! `vstd` leaves unspecified, or wraps one call into `std` whose result
//! is named by an uninterpreted specification function. Each contract
//! states only what the standard library documents of the call.

use vstd::prelude::*;
use vstd::utf8::decode_utf8;
use vstd::utf8::encode_utf8;
use vstd::utf8::valid_utf8;
use crate::casefold::ascii_lower_char;
use crate::casefold::ascii_upper_char;

verus! {

/// Relies on `str::len`: the length of a slice in bytes. A slice never
/// holds more bytes than the native size type can count, so the result
/// is the exact byte length of the content.
#[verifier::external_body]
pub(crate) fn str_len(s: &str) -> (r: usize)
    ensures
        r == encode_utf8(s@).len(),
{
    s.len()
}

/// Relies on `String::push`: appends the given character to the end of
/// the string.
pub assume_specification[ String::push ](s: &mut String, ch: char)
    ensures
        final(s)@ == old(s)@.push(ch),
;

/// Relies on `String::pop`: removes the last character and returns it,
/// or returns `None` when the string is empty.
pub assume_specification[ String::pop ](s: &mut String) -> (r: Option<char>)
    ensures
        old(s)@.len() == 0 ==> r is None && final(s)@ == old(s)@,
        old(s)@.len() > 0 ==> r == Some(old(s)@.last()) && final(s)@ == old(s)@.drop_last(),
;

/// Relies on `String::with_capacity`: creates an empty string with at
/// least the given capacity in bytes.
pub assume_specification[ String::with_capacity ](capacity: usize) -> (r: String)
    ensures
        r@ == Seq::<char>::empty(),
;

/// Relies on `String::capacity`: the capacity is measured in bytes and
/// is at least the string's byte length.
pub assume_specification[ String::capacity ](s: &String) -> (r: usize)
    ensures
        r >= encode_utf8(s@).len(),
;

/// Relies on `String::reserve`: reserves capacity for at least
/// `additional` more bytes; the content is unchanged. The call panics
/// when the new capacity overflows the native size type, so that input
/// is excluded.
pub assume_specification[ String::reserve ](s: &mut String, additional: usize)
    requires
        encode_utf8(old(s)@).len() + additional <= usize::MAX,
    ensures
        final(s)@ == old(s)@,
;

/// Relies on `String::reserve_exact`: reserves capacity for exactly
/// `additional` more bytes; the content is unchanged. The call panics
/// when the new capacity overflows the native size type, so that input
/// is excluded.
pub assume_specification[ String::reserve_exact ](s: &mut String, additional: usize)
    requires
        encode_utf8(old(s)@).len() + additional <= usize::MAX,
    ensures
        final(s)@ == old(s)@,
;

/// Relies on `String::shrink_to_fit`: shrinks the capacity to match the
/// length; the content is unchanged.
pub assume_specification[ String::shrink_to_fit ](s: &mut String)
    ensures
        final(s)@ == old(s)@,
;

/// Relies on `String::clear`: empties the string, keeping its buffer.
pub assume_specification[ String::clear ](s: &mut String)
    ensures
        final(s)@ == Seq::<char>::empty(),
;

/// Relies on `char::to_ascii_lowercase`: maps an ASCII uppercase letter
/// to its lowercase equivalent and returns any other character unchanged.
pub assume_specification[ char::to_ascii_lowercase ](c: &char) -> (r: char)
    ensures
        r == ascii_lower_char(*c),
;

/// Relies on `char::to_ascii_uppercase`: maps an ASCII lowercase letter
/// to its uppercase equivalent and returns any other character unchanged.
pub assume_specification[ char::to_ascii_uppercase ](c: &char) -> (r: char)
    ensures
        r == ascii_upper_char(*c),
;

/// The characters with the Unicode `White_Space` property, as tested by
/// `char::is_whitespace`. The property is a fixed function of the
/// character alone.
pub uninterp spec fn is_unicode_ws(c: char) -> bool;

/// Relies on `char::is_whitespace`: true exactly for characters with
/// the Unicode `White_Space` property.
#[verifier::external_body]
pub(crate) fn char_is_whitespace(c: char) -> (r: bool)
    ensures
        r == is_unicode_ws(c),
{
    c.is_whitespace()
}

/// The lowercase form of a character sequence, as produced by
/// `str::to_lowercase`. The result depends on the characters alone.
pub uninterp spec fn unicode_lower(s: Seq<char>) -> Seq<char>;

/// Relies on `str::to_lowercase`: the result is the Unicode lowercase
/// form of the input and depends on the input characters alone.
#[verifier::external_body]
pub(crate) fn str_to_lowercase(s: &str) -> (r: String)
    ensures
        r@ == unicode_lower(s@),
        s@.len() == 0 ==> r@.len() == 0,
{
    s.to_lowercase()
}

/// The uppercase form of a character sequence, as produced by
/// `str::to_uppercase`. The result depends on the characters alone.
pub uninterp spec fn unicode_upper(s: Seq<char>) -> Seq<char>;

/// Relies on `str::to_uppercase`: the result is the Unicode uppercase
/// form of the input and depends on the input characters alone.
#[verifier::external_body]
pub(crate) fn str_to_uppercase(s: &str) -> (r: String)
    ensures
        r@ == unicode_upper(s@),
        s@.len() == 0 ==> r@.len() == 0,
{
    s.to_uppercase()
}

/// Relies on `String::from_utf8`: succeeds exactly on valid UTF-8 and
/// returns the string holding those bytes; on failure,
/// `FromUtf8Error::into_bytes` hands back the input buffer unchanged.
#[verifier::external_body]
pub(crate) fn string_from_utf8(v: Vec<u8>) -> (r: Result<String, Vec<u8>>)
    ensures
        r matches Ok(s) ==> valid_utf8(v@) && s@ == decode_utf8(v@),
        r matches Err(w) ==> !valid_utf8(v@) && w@ == v@,
{
    match String::from_utf8(v) {
        Ok(s) => Ok(s),
        Err(e) => Err(e.into_bytes()),
    }
}

/// The character sequence a UTF-16 unit sequence decodes to, or nothing
/// when the units are not valid UTF-16; as computed by
/// `String::from_utf16`. The result depends on the units alone.
pub uninterp spec fn utf16_decoded(units: Seq<u16>) -> Option<Seq<char>>;

/// Relies on `String::from_utf16`: succeeds exactly on valid UTF-16 and
/// returns its decoding.
#[verifier::external_body]
pub(crate) fn string_from_utf16(v: &[u16]) -> (r: Option<String>)
    ensures
        r matches Some(s) ==> utf16_decoded(v@) == Some(s@),
        r is None ==> utf16_decoded(v@) is None,
{
    String::from_utf16(v).ok()
}

/// The character sequence the lossy UTF-16 decoding produces, with
/// invalid units replaced by the replacement character; as computed by
/// `String::from_utf16_lossy`. The result depends on the units alone.
pub uninterp spec fn utf16_lossy_decoded(units: Seq<u16>) -> Seq<char>;

/// Relies on `String::from_utf16_lossy`: decodes the units, replacing
/// invalid data with the replacement character.
#[verifier::external_body]
pub(crate) fn string_from_utf16_lossy(v: &[u16]) -> (r: String)
    ensures
        r@ == utf16_lossy_decoded(v@),
{
    String::from_utf16_lossy(v)
}

} // verus!

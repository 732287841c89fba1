//! The typed overflow and decoding errors of the conversion layer.

use vstd::prelude::*;
use vstd::string::StringExecFns;

verus! {

/// The error returned when converting an owned value into the 32-bit
/// domain would require a buffer larger than `u32::MAX` bytes. It
/// retains the rejected value, so the caller can reclaim it.
#[derive(Debug, Clone, PartialEq, Eq)]
pub struct TryFromStringError<T>(T);

impl<T> TryFromStringError<T> {
    /// The rejected value carried by this error.
    pub closed spec fn spec_inner(self) -> T {
        self.0
    }

    /// Wrap a rejected value. Only the conversion layer builds these.
    pub(crate) fn wrap(value: T) -> (r: Self)
        ensures
            r.spec_inner() == value,
    {
        TryFromStringError(value)
    }

    /// Return the value that was unable to be converted.
    pub fn into_inner(self) -> (r: T)
        ensures
            r == self.spec_inner(),
    {
        self.0
    }

    /// A description of the failure.
    pub fn message(&self) -> (r: String)
        ensures
            r@ == "string too large for u32-indexed buffer"@,
    {
        String::from_str("string too large for u32-indexed buffer")
    }
}

/// The error returned when converting a borrowed string slice into the
/// 32-bit domain would require a buffer larger than `u32::MAX` bytes.
/// The borrowed source cannot be handed back by value, so the error is
/// stateless.
#[derive(Debug, Copy, Clone, PartialEq, Eq)]
pub struct TryFromStrError;

impl TryFromStrError {
    /// A description of the failure.
    pub fn message(&self) -> (r: String)
        ensures
            r@ == "string too large for u32-indexed buffer"@,
    {
        String::from_str("string too large for u32-indexed buffer")
    }
}

/// The error returned when decoding a byte buffer fails: either the
/// bytes are not valid UTF-8, or the decoded content exceeds the 32-bit
/// domain. Both cases retain the input buffer for the caller.
#[derive(Debug, Clone, PartialEq, Eq)]
pub enum FromUtf8Error {
    /// The bytes are not valid UTF-8; carries the rejected buffer.
    Invalid(Vec<u8>),
    /// The bytes are valid UTF-8 but hold more than `u32::MAX` of them;
    /// carries the rejected buffer.
    TooLong(Vec<u8>),
}

impl FromUtf8Error {
    /// The rejected byte buffer carried by this error.
    pub closed spec fn spec_bytes(self) -> Seq<u8> {
        match self {
            FromUtf8Error::Invalid(v) => v@,
            FromUtf8Error::TooLong(v) => v@,
        }
    }

    /// Return the byte buffer that was unable to be decoded.
    pub fn into_bytes(self) -> (r: Vec<u8>)
        ensures
            r@ == self.spec_bytes(),
    {
        match self {
            FromUtf8Error::Invalid(v) => v,
            FromUtf8Error::TooLong(v) => v,
        }
    }
}

/// The error returned when decoding a UTF-16 slice fails: either the
/// units are not valid UTF-16, or the decoded content exceeds the
/// 32-bit domain.
#[derive(Debug, Copy, Clone, PartialEq, Eq)]
pub enum FromUtf16Error {
    /// The units are not valid UTF-16.
    Invalid,
    /// The decoded content holds more than `u32::MAX` bytes of UTF-8.
    TooLong,
}

} // verus!

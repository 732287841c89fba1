//! Strings indexed by `u32` instead of `usize`.
//!
//! [`String32`] is a growable, heap-backed, UTF-8 string whose length is
//! bounded by `u32::MAX` bytes; [`Str32`] is the matching borrowed view.
//! Every length, capacity and byte offset in the public interface is a
//! `u32`, and the conversions from the native-width types check the bound
//! and report a typed overflow error when it does not hold.

pub mod casefold;
pub mod charindices;
pub mod errors;
pub mod laws;
pub mod native;
pub mod segment;
pub mod str32;
pub mod string32;
pub mod width;

pub use charindices::CharIndices;
pub use errors::FromUtf16Error;
pub use errors::FromUtf8Error;
pub use errors::TryFromStrError;
pub use errors::TryFromStringError;
pub use str32::Str32;
pub use string32::String32;

pub use width::byte_len;
pub use width::char_width;
pub use width::at_char_boundary;
pub use width::char_index_of;

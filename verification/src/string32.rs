//! The owned bounded string.

use vstd::prelude::*;
use vstd::string::StrSliceExecFns;
use vstd::string::StringExecFns;
use vstd::utf8::decode_utf8;
use vstd::utf8::decode_utf8_encode_utf8;
use vstd::utf8::encode_utf8;
use vstd::utf8::valid_utf8;
use crate::casefold::ascii_lower_char;
use crate::casefold::ascii_lower_seq;
use crate::casefold::ascii_upper_char;
use crate::casefold::ascii_upper_seq;
use crate::casefold::lemma_ascii_lower_seq_byte_len;
use crate::casefold::lemma_ascii_upper_seq_byte_len;
use crate::errors::FromUtf16Error;
use crate::errors::FromUtf8Error;
use crate::errors::TryFromStrError;
use crate::errors::TryFromStringError;
use crate::native::utf16_decoded;
use crate::native::utf16_lossy_decoded;
use crate::str32::str_split;
use crate::str32::Str32;
use crate::width::at_char_boundary;
use crate::width::byte_len;
use crate::width::checked_u32;
use crate::width::char_index_of;
use crate::width::char_utf8_width;
use crate::width::char_width;
use crate::width::lemma_boundary_char_index;
use crate::width::lemma_byte_len_bounds;
use crate::width::lemma_byte_len_concat;
use crate::width::lemma_byte_len_push;
use crate::width::lemma_byte_len_take_mono;
use crate::width::lemma_byte_len_take_skip;
use crate::width::lemma_byte_len_take_succ;
use crate::width::lemma_char_prefix_is_boundary;
use crate::width::lemma_take_byte_len_unique;
use crate::width::to_usize;

verus! {

/// A growable, heap-backed, UTF-8 string whose length and capacity are
/// bounded by `u32::MAX` bytes.
///
/// Its abstract content is the sequence of characters it holds; the
/// space the content occupies is the byte length of that sequence's
/// UTF-8 encoding, which the type keeps within the 32-bit domain.
#[derive(Debug, Hash)]
pub struct String32 {
    s: String,
}

impl View for String32 {
    type V = Seq<char>;

    closed spec fn view(&self) -> Seq<char> {
        self.s@
    }
}

impl String32 {
    #[verifier::type_invariant]
    pub(crate) open spec fn fits(self) -> bool {
        byte_len(self@) <= u32::MAX
    }

    /// Wrap a native string already known to fit the 32-bit domain.
    pub(crate) fn wrap(s: String) -> (r: String32)
        requires
            byte_len(s@) <= u32::MAX,
        ensures
            r@ == s@,
    {
        String32 { s }
    }

    /// Create an empty string.
    pub fn new() -> (r: String32)
        ensures
            r@ == Seq::<char>::empty(),
    {
        String32 { s: String::new() }
    }

    /// Create an empty string with enough capacity reserved to hold
    /// `cap` bytes. The capacity argument is already in the 32-bit
    /// domain by type, so the construction always succeeds.
    pub fn with_capacity(cap: u32) -> (r: String32)
        ensures
            r@ == Seq::<char>::empty(),
    {
        String32 { s: String::with_capacity(to_usize(cap)) }
    }

    /// Convert an owned native string. Succeeds exactly when the byte
    /// length fits the 32-bit domain; on failure the error hands the
    /// input back unchanged.
    pub fn try_from_string(s: String) -> (r: Result<String32, TryFromStringError<String>>)
        ensures
            r is Ok <==> byte_len(s@) <= u32::MAX,
            r matches Ok(v) ==> v@ == s@,
            r matches Err(e) ==> e.spec_inner() == s,
    {
        match checked_u32(crate::native::str_len(s.as_str())) {
            Some(_) => Ok(String32 { s }),
            None => Err(TryFromStringError::wrap(s)),
        }
    }

    /// Convert a native string slice, copying it. Succeeds exactly when
    /// the byte length fits the 32-bit domain.
    pub fn try_from_str(s: &str) -> (r: Result<String32, TryFromStrError>)
        ensures
            r is Ok <==> byte_len(s@) <= u32::MAX,
            r matches Ok(v) ==> v@ == s@,
    {
        match checked_u32(crate::native::str_len(s)) {
            Some(_) => Ok(String32 { s: String::from_str(s) }),
            None => Err(TryFromStrError),
        }
    }

    /// The length of the string in bytes.
    pub fn len(&self) -> (r: u32)
        ensures
            r == byte_len(self@),
    {
        proof {
            use_type_invariant(&*self);
        }
        self.s.as_str().len() as u32
    }

    /// Whether the string is empty.
    pub fn is_empty(&self) -> (r: bool)
        ensures
            r <==> self@.len() == 0,
            r <==> byte_len(self@) == 0,
    {
        proof {
            lemma_byte_len_bounds(self@);
        }
        self.s.as_str().is_empty()
    }

    /// The capacity of the string in bytes: at least the byte length of
    /// the content. A capacity beyond `u32::MAX` is reported as
    /// `u32::MAX`.
    pub fn capacity(&self) -> (r: u32)
        ensures
            r >= byte_len(self@),
    {
        proof {
            use_type_invariant(&*self);
        }
        let c = self.s.capacity();
        if c > u32::MAX as usize {
            u32::MAX
        } else {
            c as u32
        }
    }

    /// Convert to a native string slice holding the same characters.
    pub fn as_str(&self) -> (r: &str)
        ensures
            r@ == self@,
    {
        self.s.as_str()
    }

    /// The borrowed bounded view of this string.
    pub fn as_str32(&self) -> (r: Str32<'_>)
        ensures
            r@ == self@,
    {
        proof {
            use_type_invariant(&*self);
        }
        Str32::wrap(self.s.as_str())
    }

    /// The UTF-8 bytes of the string, borrowed.
    pub fn as_bytes(&self) -> (r: &[u8])
        ensures
            r@ == encode_utf8(self@),
            r@.len() == byte_len(self@),
    {
        self.s.as_str().as_bytes()
    }

    /// Convert into the native string, transferring the content.
    pub fn into_string(self) -> (r: String)
        ensures
            r@ == self@,
    {
        self.s
    }

    /// Convert into the UTF-8 bytes of the content.
    pub fn into_bytes(self) -> (r: Vec<u8>)
        ensures
            r@ == encode_utf8(self@),
            r@.len() == byte_len(self@),
    {
        self.s.as_str().as_bytes_vec()
    }

    /// Push a character to the end of the string. The new content must
    /// still fit the 32-bit domain.
    pub fn push(&mut self, ch: char)
        requires
            byte_len(old(self)@) + char_width(ch) <= u32::MAX,
        ensures
            final(self)@ == old(self)@.push(ch),
    {
        proof {
            use_type_invariant(&*self);
        }
        let mut tmp = String::new();
        core::mem::swap(&mut tmp, &mut self.s);
        tmp.push(ch);
        proof {
            lemma_byte_len_push(old(self)@, ch);
        }
        self.s = tmp;
    }

    /// Append a string slice to the end of the string. The new content
    /// must still fit the 32-bit domain.
    pub fn push_str(&mut self, other: &str)
        requires
            byte_len(old(self)@) + byte_len(other@) <= u32::MAX,
        ensures
            final(self)@ == old(self)@ + other@,
    {
        proof {
            use_type_invariant(&*self);
        }
        let mut tmp = String::new();
        core::mem::swap(&mut tmp, &mut self.s);
        tmp.append(other);
        proof {
            lemma_byte_len_concat(old(self)@, other@);
        }
        self.s = tmp;
    }

    /// Pop the last character from the string, or return nothing when
    /// it is empty.
    pub fn pop(&mut self) -> (r: Option<char>)
        ensures
            old(self)@.len() == 0 ==> r is None && final(self)@ == old(self)@,
            old(self)@.len() > 0 ==> r == Some(old(self)@.last()) && final(self)@ == old(
                self,
            )@.drop_last(),
    {
        proof {
            use_type_invariant(&*self);
        }
        let mut tmp = String::new();
        core::mem::swap(&mut tmp, &mut self.s);
        let r = tmp.pop();
        proof {
            if old(self)@.len() > 0 {
                assert(old(self)@.drop_last() =~= old(self)@.take(old(self)@.len() - 1));
                lemma_byte_len_take_mono(old(self)@, old(self)@.len() - 1, old(self)@.len() as int);
                assert(old(self)@.take(old(self)@.len() as int) =~= old(self)@);
            }
        }
        self.s = tmp;
        r
    }

    /// Empty the string, keeping its buffer.
    pub fn clear(&mut self)
        ensures
            final(self)@ == Seq::<char>::empty(),
    {
        let mut tmp = String::new();
        core::mem::swap(&mut tmp, &mut self.s);
        tmp.clear();
        self.s = tmp;
    }

    /// Reserve space for at least `additional` more bytes; the content
    /// is unchanged.
    pub fn reserve(&mut self, additional: u32)
        requires
            byte_len(old(self)@) + additional <= usize::MAX,
        ensures
            final(self)@ == old(self)@,
    {
        proof {
            use_type_invariant(&*self);
        }
        let mut tmp = String::new();
        core::mem::swap(&mut tmp, &mut self.s);
        tmp.reserve(to_usize(additional));
        self.s = tmp;
    }

    /// Reserve space for exactly `additional` more bytes; the content
    /// is unchanged.
    pub fn reserve_exact(&mut self, additional: u32)
        requires
            byte_len(old(self)@) + additional <= usize::MAX,
        ensures
            final(self)@ == old(self)@,
    {
        proof {
            use_type_invariant(&*self);
        }
        let mut tmp = String::new();
        core::mem::swap(&mut tmp, &mut self.s);
        tmp.reserve_exact(to_usize(additional));
        self.s = tmp;
    }

    /// Remove the character whose encoding starts at byte offset `idx`
    /// and return it. The offset must fall on a character boundary
    /// strictly inside the content.
    pub fn remove(&mut self, idx: u32) -> (r: char)
        requires
            at_char_boundary(old(self)@, idx as int),
            idx < byte_len(old(self)@),
        ensures
            ({
                let i = char_index_of(old(self)@, idx as int);
                r == old(self)@[i] && final(self)@ == old(self)@.remove(i)
            }),
    {
        proof {
            use_type_invariant(&*self);
            lemma_boundary_char_index(self@, idx as int);
        }
        let ghost s0 = self@;
        let ghost i = char_index_of(s0, idx as int);
        let parts = str_split(self.s.as_str(), to_usize(idx));
        let pre = parts.0;
        let post = parts.1;
        let c = post.get_char(0);
        let w = char_utf8_width(c);
        proof {
            assert(post@.take(0) =~= Seq::<char>::empty());
            lemma_byte_len_take_succ(post@, 0);
            lemma_char_prefix_is_boundary(post@, 1);
            lemma_boundary_char_index(post@, w as int);
            lemma_take_byte_len_unique(post@, char_index_of(post@, w as int), 1);
        }
        let parts2 = str_split(post, w as usize);
        let rest = parts2.1;
        let mut out = pre.to_owned();
        out.append(rest);
        proof {
            assert(rest@ =~= post@.drop_first());
            lemma_byte_len_concat(pre@, rest@);
            lemma_byte_len_concat(pre@, post@);
            lemma_byte_len_take_skip(post@, 1);
            assert(post@.skip(1) =~= post@.drop_first());
            assert(out@ =~= s0.remove(i));
        }
        self.s = out;
        c
    }

    /// Insert a character so that its encoding starts at byte offset
    /// `idx`, which must fall on a character boundary. The new content
    /// must still fit the 32-bit domain.
    pub fn insert(&mut self, idx: u32, ch: char)
        requires
            at_char_boundary(old(self)@, idx as int),
            byte_len(old(self)@) + char_width(ch) <= u32::MAX,
        ensures
            final(self)@ == old(self)@.insert(char_index_of(old(self)@, idx as int), ch),
    {
        proof {
            use_type_invariant(&*self);
            lemma_boundary_char_index(self@, idx as int);
        }
        let ghost s0 = self@;
        let ghost i = char_index_of(s0, idx as int);
        let parts = str_split(self.s.as_str(), to_usize(idx));
        let mut out = parts.0.to_owned();
        out.push(ch);
        out.append(parts.1);
        proof {
            lemma_byte_len_push(parts.0@, ch);
            lemma_byte_len_concat(parts.0@.push(ch), parts.1@);
            lemma_byte_len_concat(parts.0@, parts.1@);
            assert(out@ =~= s0.insert(i, ch));
        }
        self.s = out;
    }

    /// Insert a string slice at byte offset `idx`, which must fall on a
    /// character boundary. The new content must still fit the 32-bit
    /// domain.
    pub fn insert_str(&mut self, idx: u32, other: &str)
        requires
            at_char_boundary(old(self)@, idx as int),
            byte_len(old(self)@) + byte_len(other@) <= u32::MAX,
        ensures
            ({
                let i = char_index_of(old(self)@, idx as int);
                final(self)@ == old(self)@.take(i) + other@ + old(self)@.skip(i)
            }),
    {
        proof {
            use_type_invariant(&*self);
            lemma_boundary_char_index(self@, idx as int);
        }
        let parts = str_split(self.s.as_str(), to_usize(idx));
        let mut out = parts.0.to_owned();
        out.append(other);
        out.append(parts.1);
        proof {
            lemma_byte_len_concat(parts.0@, other@);
            lemma_byte_len_concat(parts.0@ + other@, parts.1@);
            lemma_byte_len_concat(parts.0@, parts.1@);
        }
        self.s = out;
    }

    /// Shorten the string to `new_len` bytes. A length at or beyond the
    /// current one leaves the string unchanged; a shorter one must fall
    /// on a character boundary.
    pub fn truncate(&mut self, new_len: u32)
        requires
            new_len < byte_len(old(self)@) ==> at_char_boundary(old(self)@, new_len as int),
        ensures
            new_len >= byte_len(old(self)@) ==> final(self)@ == old(self)@,
            new_len < byte_len(old(self)@) ==> final(self)@ == old(self)@.take(
                char_index_of(old(self)@, new_len as int),
            ) && byte_len(final(self)@) == new_len,
    {
        proof {
            use_type_invariant(&*self);
        }
        let n = self.s.as_str().len();
        if to_usize(new_len) < n {
            let parts = str_split(self.s.as_str(), to_usize(new_len));
            let out = parts.0.to_owned();
            self.s = out;
        }
    }

    /// Split the string in two at byte offset `at`, which must fall on
    /// a character boundary: the first `at` bytes stay, the remainder is
    /// returned as a new string.
    pub fn split_off(&mut self, at: u32) -> (r: String32)
        requires
            at_char_boundary(old(self)@, at as int),
        ensures
            ({
                let i = char_index_of(old(self)@, at as int);
                final(self)@ == old(self)@.take(i) && r@ == old(self)@.skip(i) && byte_len(
                    final(self)@,
                ) == at
            }),
    {
        proof {
            use_type_invariant(&*self);
            lemma_boundary_char_index(self@, at as int);
        }
        let parts = str_split(self.s.as_str(), to_usize(at));
        let a = parts.0.to_owned();
        let b = parts.1.to_owned();
        proof {
            lemma_byte_len_concat(parts.0@, parts.1@);
        }
        self.s = a;
        String32 { s: b }
    }

    /// Decode a UTF-8 byte buffer. Succeeds exactly when the bytes are
    /// valid UTF-8 and fit the 32-bit domain; on failure the error hands
    /// the buffer back unchanged.
    pub fn from_utf8(v: Vec<u8>) -> (r: Result<String32, FromUtf8Error>)
        ensures
            match r {
                Ok(s) => valid_utf8(v@) && v@.len() <= u32::MAX && s@ == decode_utf8(v@),
                Err(FromUtf8Error::Invalid(w)) => !valid_utf8(v@) && w@ == v@,
                Err(FromUtf8Error::TooLong(w)) => valid_utf8(v@) && v@.len() > u32::MAX && w@
                    == v@,
            },
    {
        match crate::native::string_from_utf8(v) {
            Err(w) => Err(FromUtf8Error::Invalid(w)),
            Ok(s) => {
                proof {
                    decode_utf8_encode_utf8(v@);
                }
                match checked_u32(crate::native::str_len(s.as_str())) {
                    Some(_) => Ok(String32 { s }),
                    None => Err(FromUtf8Error::TooLong(s.as_str().as_bytes_vec())),
                }
            },
        }
    }

    /// Decode a UTF-16 unit slice. Succeeds exactly when the units are
    /// valid UTF-16 and the decoded content fits the 32-bit domain.
    pub fn from_utf16(v: &[u16]) -> (r: Result<String32, FromUtf16Error>)
        ensures
            match r {
                Ok(s) => utf16_decoded(v@) == Some(s@) && byte_len(s@) <= u32::MAX,
                Err(FromUtf16Error::Invalid) => utf16_decoded(v@) is None,
                Err(FromUtf16Error::TooLong) => utf16_decoded(v@) matches Some(c) && byte_len(c)
                    > u32::MAX,
            },
    {
        match crate::native::string_from_utf16(v) {
            None => Err(FromUtf16Error::Invalid),
            Some(s) => {
                match checked_u32(crate::native::str_len(s.as_str())) {
                    Some(_) => Ok(String32 { s }),
                    None => Err(FromUtf16Error::TooLong),
                }
            },
        }
    }

    /// Decode a UTF-16 unit slice, replacing invalid data with the
    /// replacement character. Succeeds exactly when the decoded content
    /// fits the 32-bit domain; on failure the error hands the decoded
    /// native string back.
    pub fn from_utf16_lossy(v: &[u16]) -> (r: Result<String32, TryFromStringError<String>>)
        ensures
            match r {
                Ok(s) => s@ == utf16_lossy_decoded(v@) && byte_len(s@) <= u32::MAX,
                Err(e) => e.spec_inner()@ == utf16_lossy_decoded(v@) && byte_len(
                    utf16_lossy_decoded(v@),
                ) > u32::MAX,
            },
    {
        String32::try_from_string(crate::native::string_from_utf16_lossy(v))
    }

    /// Map every ASCII uppercase letter of the content to lowercase, in
    /// place; other characters are unchanged.
    pub fn make_ascii_lowercase(&mut self)
        ensures
            final(self)@ == ascii_lower_seq(old(self)@),
    {
        proof {
            use_type_invariant(&*self);
        }
        let n = self.s.as_str().unicode_len();
        let mut out = String::new();
        let mut i: usize = 0;
        while i < n
            invariant
                self@ == old(self)@,
                n == old(self)@.len(),
                0 <= i <= n,
                out@ == ascii_lower_seq(old(self)@.take(i as int)),
            decreases n - i,
        {
            let c = self.s.as_str().get_char(i);
            let lc = c.to_ascii_lowercase();
            out.push(lc);
            proof {
                assert(old(self)@.take(i as int + 1) =~= old(self)@.take(i as int).push(
                    old(self)@[i as int],
                ));
                assert(ascii_lower_seq(old(self)@.take(i as int + 1)) =~= ascii_lower_seq(
                    old(self)@.take(i as int),
                ).push(ascii_lower_char(old(self)@[i as int])));
            }
            i = i + 1;
        }
        proof {
            assert(old(self)@.take(n as int) =~= old(self)@);
            lemma_ascii_lower_seq_byte_len(old(self)@);
        }
        self.s = out;
    }

    /// Map every ASCII lowercase letter of the content to uppercase, in
    /// place; other characters are unchanged.
    pub fn make_ascii_uppercase(&mut self)
        ensures
            final(self)@ == ascii_upper_seq(old(self)@),
    {
        proof {
            use_type_invariant(&*self);
        }
        let n = self.s.as_str().unicode_len();
        let mut out = String::new();
        let mut i: usize = 0;
        while i < n
            invariant
                self@ == old(self)@,
                n == old(self)@.len(),
                0 <= i <= n,
                out@ == ascii_upper_seq(old(self)@.take(i as int)),
            decreases n - i,
        {
            let c = self.s.as_str().get_char(i);
            let uc = c.to_ascii_uppercase();
            out.push(uc);
            proof {
                assert(old(self)@.take(i as int + 1) =~= old(self)@.take(i as int).push(
                    old(self)@[i as int],
                ));
                assert(ascii_upper_seq(old(self)@.take(i as int + 1)) =~= ascii_upper_seq(
                    old(self)@.take(i as int),
                ).push(ascii_upper_char(old(self)@[i as int])));
            }
            i = i + 1;
        }
        proof {
            assert(old(self)@.take(n as int) =~= old(self)@);
            lemma_ascii_upper_seq_byte_len(old(self)@);
        }
        self.s = out;
    }

    /// Shrink the capacity of the string to match its length; the
    /// content is unchanged.
    pub fn shrink_to_fit(&mut self)
        ensures
            final(self)@ == old(self)@,
    {
        proof {
            use_type_invariant(&*self);
        }
        let mut tmp = String::new();
        core::mem::swap(&mut tmp, &mut self.s);
        tmp.shrink_to_fit();
        self.s = tmp;
    }
}

impl PartialEq for String32 {
    /// Strings are equal exactly when they hold the same characters, as
    /// the native strings are.
    fn eq(&self, other: &String32) -> (r: bool) {
        self.s == other.s
    }
}

impl vstd::std_specs::cmp::PartialEqSpecImpl for String32 {
    open spec fn obeys_eq_spec() -> bool {
        true
    }

    open spec fn eq_spec(&self, other: &String32) -> bool {
        self@ == other@
    }
}

impl Default for String32 {
    /// The empty string.
    fn default() -> (r: String32)
        ensures
            r@ == Seq::<char>::empty(),
    {
        String32::new()
    }
}

} // verus!

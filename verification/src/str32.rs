//! The borrowed bounded string view.

use vstd::prelude::*;
use vstd::string::StringExecFns;
use vstd::string::StrSliceExecFns;
use vstd::utf8::encode_utf8;
use crate::casefold::ascii_lower_char;
use crate::casefold::ascii_lower_seq;
use crate::casefold::ascii_upper_seq;
use crate::casefold::eq_ignore_ascii_case_chars;
use crate::errors::TryFromStrError;
use crate::errors::TryFromStringError;
use crate::native::is_unicode_ws;
use crate::native::unicode_lower;
use crate::native::unicode_upper;
use crate::segment::is_ascii_ws;
use crate::segment::is_ascii_ws_char;
use crate::segment::lemma_lead_count_not_scan;
use crate::segment::lemma_lead_count_scan;
use crate::segment::lemma_trail_count_scan;
use crate::segment::lines_of;
use crate::segment::chomp_cr;
use crate::segment::split_on;
use crate::segment::trim_chars;
use crate::segment::trim_end_chars;
use crate::segment::trim_start_chars;
use crate::string32::String32;
use crate::width::at_char_boundary;
use crate::width::byte_len;
use crate::width::char_index_of;
use crate::width::char_utf8_width;
use crate::width::lemma_boundary_char_index;
use crate::width::lemma_byte_len_bounds;
use crate::width::lemma_byte_len_concat;
use crate::width::lemma_byte_len_subrange;
use crate::width::lemma_byte_len_take_mono;
use crate::width::lemma_byte_len_take_skip;
use crate::width::lemma_byte_len_take_succ;
use crate::width::lemma_encoding_split;

verus! {

/// A borrowed view over valid UTF-8 bytes whose length fits the 32-bit
/// domain.
///
/// This is a thin wrapper around a native string slice, with the
/// convenience of an interface built around `u32` offsets instead of
/// `usize` offsets. Its abstract content is the sequence of characters
/// of the slice it wraps.
#[derive(Debug, Clone, Copy, Hash)]
pub struct Str32<'a> {
    s: &'a str,
}

impl<'a> View for Str32<'a> {
    type V = Seq<char>;

    closed spec fn view(&self) -> Seq<char> {
        self.s@
    }
}

/// The character sequences of a sequence of views, in order.
pub open spec fn views_of<'a>(v: Seq<Str32<'a>>) -> Seq<Seq<char>> {
    v.map_values(|t: Str32<'a>| t@)
}

/// `n` copies of `s`, concatenated.
pub open spec fn repeat_chars(s: Seq<char>, n: nat) -> Seq<char>
    decreases n,
{
    if n == 0 {
        Seq::empty()
    } else {
        repeat_chars(s, (n - 1) as nat) + s
    }
}

/// Repeating a sequence multiplies its length and its byte length.
pub proof fn lemma_repeat_byte_len(s: Seq<char>, n: nat)
    ensures
        repeat_chars(s, n).len() == n * s.len(),
        byte_len(repeat_chars(s, n)) == n * byte_len(s),
    decreases n,
{
    if n == 0 {
        assert(n * s.len() == 0);
        assert(n * byte_len(s) == 0);
    } else {
        lemma_repeat_byte_len(s, (n - 1) as nat);
        lemma_byte_len_concat(repeat_chars(s, (n - 1) as nat), s);
        assert((n - 1) * s.len() + s.len() == n * s.len()) by (nonlinear_arith);
        assert((n - 1) * byte_len(s) + byte_len(s) == n * byte_len(s)) by (nonlinear_arith);
    }
}

/// Compare two byte slices for equality.
fn bytes_eq(a: &[u8], b: &[u8]) -> (r: bool)
    ensures
        r == (a@ == b@),
{
    if a.len() != b.len() {
        return false;
    }
    let mut i: usize = 0;
    while i < a.len()
        invariant
            a@.len() == b@.len(),
            0 <= i <= a@.len(),
            forall|j: int| 0 <= j < i ==> a@[j] == b@[j],
        decreases a@.len() - i,
    {
        if a[i] != b[i] {
            return false;
        }
        i = i + 1;
    }
    proof {
        assert(a@ =~= b@);
    }
    true
}

impl<'a> PartialEq for Str32<'a> {
    /// Views are equal exactly when they hold the same characters, as
    /// the native string slices are.
    fn eq(&self, other: &Str32<'a>) -> (r: bool) {
        let r = bytes_eq(self.s.as_bytes(), other.s.as_bytes());
        proof {
            if encode_utf8(self@) == encode_utf8(other@) {
                crate::width::lemma_encode_injective(self@, other@);
            }
        }
        r
    }
}

impl<'a> vstd::std_specs::cmp::PartialEqSpecImpl for Str32<'a> {
    open spec fn obeys_eq_spec() -> bool {
        true
    }

    open spec fn eq_spec(&self, other: &Str32<'a>) -> bool {
        self@ == other@
    }
}

/// Split a native string slice at a byte offset on a character boundary,
/// relating the two halves to the character sequence of the whole.
pub(crate) fn str_split<'a>(s: &'a str, mid: usize) -> (r: (&'a str, &'a str))
    requires
        at_char_boundary(s@, mid as int),
    ensures
        r.0@ + r.1@ == s@,
        byte_len(r.0@) == mid,
        r.0@ == s@.take(char_index_of(s@, mid as int)),
        r.1@ == s@.skip(char_index_of(s@, mid as int)),
{
    let parts = s.split_at(mid);
    proof {
        lemma_boundary_char_index(s@, mid as int);
        lemma_encoding_split(s@, parts.0@, parts.1@, mid as int);
    }
    parts
}

impl<'a> Str32<'a> {
    #[verifier::type_invariant]
    pub(crate) open spec fn fits(self) -> bool {
        byte_len(self@) <= u32::MAX
    }

    /// Wrap a native string slice already known to fit the 32-bit
    /// domain.
    pub(crate) fn wrap(s: &'a str) -> (r: Str32<'a>)
        requires
            byte_len(s@) <= u32::MAX,
        ensures
            r@ == s@,
    {
        Str32 { s }
    }

    /// Convert a native string slice into a bounded view. Succeeds
    /// exactly when the slice's byte length fits the 32-bit domain.
    pub fn try_from_str(s: &'a str) -> (r: Result<Str32<'a>, TryFromStrError>)
        ensures
            r is Ok <==> byte_len(s@) <= u32::MAX,
            r matches Ok(v) ==> v@ == s@,
    {
        match crate::width::checked_u32(crate::native::str_len(s)) {
            Some(_) => Ok(Str32 { s }),
            None => Err(TryFromStrError),
        }
    }

    /// Convert this view to a native string slice holding the same
    /// characters.
    pub fn as_str(&self) -> (r: &'a str)
        ensures
            r@ == self@,
    {
        self.s
    }

    /// The length of the view in bytes.
    pub fn len(&self) -> (r: u32)
        ensures
            r == byte_len(self@),
    {
        proof {
            use_type_invariant(&*self);
        }
        self.s.len() as u32
    }

    /// Whether the view is empty.
    pub fn is_empty(&self) -> (r: bool)
        ensures
            r <==> self@.len() == 0,
            r <==> byte_len(self@) == 0,
    {
        proof {
            lemma_byte_len_bounds(self@);
        }
        self.s.is_empty()
    }

    /// The UTF-8 bytes of the view, borrowed.
    pub fn as_bytes(&self) -> (r: &'a [u8])
        ensures
            r@ == encode_utf8(self@),
            r@.len() == byte_len(self@),
    {
        self.s.as_bytes()
    }

    /// The UTF-8 bytes of the view, copied out.
    pub fn bytes(&self) -> (r: Vec<u8>)
        ensures
            r@ == encode_utf8(self@),
            r@.len() == byte_len(self@),
    {
        self.s.as_bytes_vec()
    }

    /// The characters of the view, copied out in order.
    pub fn chars(&self) -> (r: Vec<char>)
        ensures
            r@ == self@,
    {
        let n = self.s.unicode_len();
        let mut v: Vec<char> = Vec::new();
        let mut i: usize = 0;
        while i < n
            invariant
                n == self@.len(),
                0 <= i <= n,
                v@ == self@.take(i as int),
            decreases n - i,
        {
            let c = self.s.get_char(i);
            v.push(c);
            i = i + 1;
            proof {
                assert(self@.take(i as int) =~= self@.take(i as int - 1).push(self@[i as int - 1]));
            }
        }
        proof {
            assert(self@.take(n as int) =~= self@);
        }
        v
    }

    /// The characters of the view in order, each paired with the byte
    /// offset at which its encoding starts.
    pub fn char_indices(&self) -> (r: Vec<(u32, char)>)
        ensures
            r@.len() == self@.len(),
            forall|i: int|
                0 <= i < self@.len() ==> r@[i] == ((byte_len(self@.take(i)) as u32, self@[i])),
    {
        proof {
            use_type_invariant(&*self);
        }
        let n = self.s.unicode_len();
        let mut v: Vec<(u32, char)> = Vec::new();
        let mut i: usize = 0;
        let mut off: u32 = 0;
        while i < n
            invariant
                n == self@.len(),
                0 <= i <= n,
                byte_len(self@) <= u32::MAX,
                off == byte_len(self@.take(i as int)),
                v@.len() == i,
                forall|j: int|
                    0 <= j < i ==> v@[j] == ((byte_len(self@.take(j)) as u32, self@[j])),
            decreases n - i,
        {
            let c = self.s.get_char(i);
            proof {
                lemma_byte_len_take_succ(self@, i as int);
                lemma_byte_len_take_mono(self@, i as int + 1, n as int);
                assert(self@.take(n as int) =~= self@);
            }
            let w = char_utf8_width(c);
            v.push((off, c));
            off = off + w;
            i = i + 1;
        }
        v
    }

    /// Whether byte offset `index` falls on a character boundary (the
    /// start of a character's encoding, or the end of the view).
    pub fn is_char_boundary(&self, index: u32) -> (r: bool)
        ensures
            r == at_char_boundary(self@, index as int),
    {
        self.s.is_char_boundary(crate::width::to_usize(index))
    }

    /// Split the view in two at the given byte offset, which must fall
    /// on a character boundary.
    pub fn split_at(&self, mid: u32) -> (r: (Str32<'a>, Str32<'a>))
        requires
            at_char_boundary(self@, mid as int),
        ensures
            r.0@ + r.1@ == self@,
            byte_len(r.0@) == mid,
            r.0@ == self@.take(char_index_of(self@, mid as int)),
            r.1@ == self@.skip(char_index_of(self@, mid as int)),
    {
        proof {
            use_type_invariant(&*self);
        }
        let parts = str_split(self.s, crate::width::to_usize(mid));
        proof {
            lemma_byte_len_concat(parts.0@, parts.1@);
        }
        (Str32 { s: parts.0 }, Str32 { s: parts.1 })
    }

    /// An owned bounded string holding a copy of this view's content.
    pub fn to_string32(&self) -> (r: String32)
        ensures
            r@ == self@,
    {
        proof {
            use_type_invariant(&*self);
        }
        String32::wrap(String::from_str(self.s))
    }

    /// Whether the two views hold the same characters up to ASCII case.
    pub fn eq_ignore_ascii_case(&self, other: &Str32) -> (r: bool)
        ensures
            r == eq_ignore_ascii_case_chars(self@, other@),
    {
        let n = self.s.unicode_len();
        let m = other.s.unicode_len();
        if n != m {
            proof {
                assert(ascii_lower_seq(self@).len() == self@.len());
                assert(ascii_lower_seq(other@).len() == other@.len());
            }
            return false;
        }
        let mut i: usize = 0;
        while i < n
            invariant
                n == self@.len(),
                n == other@.len(),
                0 <= i <= n,
                forall|j: int|
                    0 <= j < i ==> ascii_lower_char(self@[j]) == ascii_lower_char(other@[j]),
            decreases n - i,
        {
            let a = self.s.get_char(i).to_ascii_lowercase();
            let b = other.s.get_char(i).to_ascii_lowercase();
            if a != b {
                proof {
                    assert(ascii_lower_seq(self@)[i as int] != ascii_lower_seq(other@)[i as int]);
                }
                return false;
            }
            i = i + 1;
        }
        proof {
            assert(ascii_lower_seq(self@) =~= ascii_lower_seq(other@));
        }
        true
    }

    /// A view of this one with its leading whitespace removed.
    pub fn trim_start(&self) -> (r: Str32<'a>)
        ensures
            r@ == trim_start_chars(self@),
    {
        proof {
            use_type_invariant(&*self);
        }
        let n = self.s.unicode_len();
        let mut i: usize = 0;
        loop
            invariant
                n == self@.len(),
                byte_len(self@) <= u32::MAX,
                0 <= i <= n,
                forall|k: int| 0 <= k < i ==> is_unicode_ws(self@[k]),
            ensures
                0 <= i <= n,
                forall|k: int| 0 <= k < i ==> is_unicode_ws(self@[k]),
                i == n || !is_unicode_ws(self@[i as int]),
            decreases n - i,
        {
            if i == n {
                break;
            }
            if !crate::native::char_is_whitespace(self.s.get_char(i)) {
                break;
            }
            i = i + 1;
        }
        proof {
            lemma_lead_count_scan(self@, |c: char| is_unicode_ws(c), i as int);
            lemma_byte_len_take_skip(self@, i as int);
        }
        Str32 { s: self.s.substring_char(i, n) }
    }

    /// A view of this one with its trailing whitespace removed.
    pub fn trim_end(&self) -> (r: Str32<'a>)
        ensures
            r@ == trim_end_chars(self@),
    {
        proof {
            use_type_invariant(&*self);
        }
        let n = self.s.unicode_len();
        let mut j: usize = n;
        loop
            invariant
                n == self@.len(),
                byte_len(self@) <= u32::MAX,
                0 <= j <= n,
                forall|k: int| j <= k < n ==> is_unicode_ws(self@[k]),
            ensures
                0 <= j <= n,
                forall|k: int| j <= k < n ==> is_unicode_ws(self@[k]),
                j == 0 || !is_unicode_ws(self@[j as int - 1]),
            decreases j,
        {
            if j == 0 {
                break;
            }
            if !crate::native::char_is_whitespace(self.s.get_char(j - 1)) {
                break;
            }
            j = j - 1;
        }
        proof {
            lemma_trail_count_scan(self@, |c: char| is_unicode_ws(c), j as int);
            assert(self@.take(j as int) =~= self@.subrange(0, j as int));
            lemma_byte_len_subrange(self@, 0, j as int);
        }
        Str32 { s: self.s.substring_char(0, j) }
    }

    /// A view of this one with leading and trailing whitespace removed.
    pub fn trim(&self) -> (r: Str32<'a>)
        ensures
            r@ == trim_chars(self@),
    {
        proof {
            use_type_invariant(&*self);
        }
        let n = self.s.unicode_len();
        let mut i: usize = 0;
        loop
            invariant
                n == self@.len(),
                byte_len(self@) <= u32::MAX,
                0 <= i <= n,
                forall|k: int| 0 <= k < i ==> is_unicode_ws(self@[k]),
            ensures
                0 <= i <= n,
                forall|k: int| 0 <= k < i ==> is_unicode_ws(self@[k]),
                i == n || !is_unicode_ws(self@[i as int]),
            decreases n - i,
        {
            if i == n {
                break;
            }
            if !crate::native::char_is_whitespace(self.s.get_char(i)) {
                break;
            }
            i = i + 1;
        }
        let mut j: usize = n;
        loop
            invariant
                n == self@.len(),
                i <= j <= n,
                forall|k: int| j <= k < n ==> is_unicode_ws(self@[k]),
            ensures
                i <= j <= n,
                forall|k: int| j <= k < n ==> is_unicode_ws(self@[k]),
                j == i || !is_unicode_ws(self@[j as int - 1]),
            decreases j,
        {
            if j == i {
                break;
            }
            if !crate::native::char_is_whitespace(self.s.get_char(j - 1)) {
                break;
            }
            j = j - 1;
        }
        proof {
            lemma_lead_count_scan(self@, |c: char| is_unicode_ws(c), i as int);
            let t = self@.skip(i as int);
            assert(forall|k: int| j - i <= k < t.len() ==> is_unicode_ws(#[trigger] t[k]));
            lemma_trail_count_scan(t, |c: char| is_unicode_ws(c), j - i);
            assert(t.take(j - i) =~= self@.subrange(i as int, j as int));
            lemma_byte_len_subrange(self@, i as int, j as int);
        }
        Str32 { s: self.s.substring_char(i, j) }
    }

    /// The whitespace-delimited words of the view, in order.
    pub fn split_whitespace(&self) -> (r: Vec<Str32<'a>>)
        ensures
            views_of(r@) == split_on(self@, |c: char| is_unicode_ws(c)),
    {
        proof {
            use_type_invariant(&*self);
        }
        let ghost p = |c: char| is_unicode_ws(c);
        let n = self.s.unicode_len();
        let mut out: Vec<Str32<'a>> = Vec::new();
        let mut i: usize = 0;
        proof {
            assert(views_of(out@) =~= Seq::<Seq<char>>::empty());
            assert(self@.skip(0) =~= self@);
            assert(views_of(out@) + split_on(self@.skip(0), p) =~= split_on(self@, p));
        }
        while i < n
            invariant
                n == self@.len(),
                byte_len(self@) <= u32::MAX,
                0 <= i <= n,
                p == (|c: char| is_unicode_ws(c)),
                views_of(out@) + split_on(self@.skip(i as int), p) == split_on(self@, p),
            decreases n - i,
        {
            let mut j: usize = i;
            loop
                invariant
                    n == self@.len(),
                    i <= j <= n,
                    forall|k: int| i <= k < j ==> is_unicode_ws(self@[k]),
                ensures
                    i <= j <= n,
                    forall|k: int| i <= k < j ==> is_unicode_ws(self@[k]),
                    j == n || !is_unicode_ws(self@[j as int]),
                decreases n - j,
            {
                if j == n {
                    break;
                }
                if !crate::native::char_is_whitespace(self.s.get_char(j)) {
                    break;
                }
                j = j + 1;
            }
            let ghost u = self@.skip(i as int);
            proof {
                assert(forall|k: int| 0 <= k < j - i ==> p(#[trigger] u[k]));
                lemma_lead_count_scan(u, p, j - i);
            }
            if j == n {
                proof {
                    assert(u.skip(j - i).len() == 0);
                    assert(split_on(u, p) =~= Seq::<Seq<char>>::empty());
                    assert(views_of(out@) + split_on(u, p) =~= views_of(out@));
                    assert(self@.skip(n as int).len() == 0);
                    assert(split_on(self@.skip(n as int), p) =~= Seq::<Seq<char>>::empty());
                    assert(views_of(out@) + split_on(self@.skip(n as int), p) =~= views_of(out@));
                }
                i = n;
            } else {
                let mut k2: usize = j;
                loop
                    invariant
                        n == self@.len(),
                        j <= k2 <= n,
                        forall|k: int| j <= k < k2 ==> !is_unicode_ws(self@[k]),
                    ensures
                        j <= k2 <= n,
                        forall|k: int| j <= k < k2 ==> !is_unicode_ws(self@[k]),
                        k2 == n || is_unicode_ws(self@[k2 as int]),
                    decreases n - k2,
                {
                    if k2 == n {
                        break;
                    }
                    if crate::native::char_is_whitespace(self.s.get_char(k2)) {
                        break;
                    }
                    k2 = k2 + 1;
                }
                let piece = self.s.substring_char(j, k2);
                proof {
                    let t = u.skip(j - i);
                    assert(t =~= self@.skip(j as int));
                    assert(forall|k: int| 0 <= k < k2 - j ==> !p(#[trigger] t[k]));
                    lemma_lead_count_not_scan(t, p, k2 - j);
                    assert(t.take(k2 - j) =~= self@.subrange(j as int, k2 as int));
                    assert(t.skip(k2 - j) =~= self@.skip(k2 as int));
                    assert(split_on(u, p) == seq![self@.subrange(j as int, k2 as int)] + split_on(
                        self@.skip(k2 as int),
                        p,
                    ));
                    lemma_byte_len_subrange(self@, j as int, k2 as int);
                }
                let ghost out0 = out@;
                let w = Str32 { s: piece };
                out.push(w);
                proof {
                    assert(views_of(out@) =~= views_of(out0).push(piece@));
                    assert(views_of(out0).push(piece@) + split_on(self@.skip(k2 as int), p)
                        =~= views_of(out0) + split_on(u, p));
                }
                i = k2;
            }
        }
        proof {
            assert(self@.skip(n as int).len() == 0);
            assert(split_on(self@.skip(n as int), p) =~= Seq::<Seq<char>>::empty());
            assert(views_of(out@) + split_on(self@.skip(n as int), p) =~= views_of(out@));
        }
        out
    }

    /// The ASCII-whitespace-delimited words of the view, in order.
    pub fn split_ascii_whitespace(&self) -> (r: Vec<Str32<'a>>)
        ensures
            views_of(r@) == split_on(self@, |c: char| is_ascii_ws(c)),
    {
        proof {
            use_type_invariant(&*self);
        }
        let ghost p = |c: char| is_ascii_ws(c);
        let n = self.s.unicode_len();
        let mut out: Vec<Str32<'a>> = Vec::new();
        let mut i: usize = 0;
        proof {
            assert(views_of(out@) =~= Seq::<Seq<char>>::empty());
            assert(self@.skip(0) =~= self@);
            assert(views_of(out@) + split_on(self@.skip(0), p) =~= split_on(self@, p));
        }
        while i < n
            invariant
                n == self@.len(),
                byte_len(self@) <= u32::MAX,
                0 <= i <= n,
                p == (|c: char| is_ascii_ws(c)),
                views_of(out@) + split_on(self@.skip(i as int), p) == split_on(self@, p),
            decreases n - i,
        {
            let mut j: usize = i;
            loop
                invariant
                    n == self@.len(),
                    i <= j <= n,
                    forall|k: int| i <= k < j ==> is_ascii_ws(self@[k]),
                ensures
                    i <= j <= n,
                    forall|k: int| i <= k < j ==> is_ascii_ws(self@[k]),
                    j == n || !is_ascii_ws(self@[j as int]),
                decreases n - j,
            {
                if j == n {
                    break;
                }
                if !is_ascii_ws_char(self.s.get_char(j)) {
                    break;
                }
                j = j + 1;
            }
            let ghost u = self@.skip(i as int);
            proof {
                assert forall|k: int| 0 <= k < j - i implies p(#[trigger] u[k]) by {
                    assert(u[k] == self@[i + k]);
                    assert(is_ascii_ws(self@[i + k]));
                }
                if j < n {
                    assert(u[j - i] == self@[j as int]);
                    assert(!p(u[j - i]));
                }
                lemma_lead_count_scan(u, p, j - i);
            }
            if j == n {
                proof {
                    assert(u.skip(j - i).len() == 0);
                    assert(split_on(u, p) =~= Seq::<Seq<char>>::empty());
                    assert(views_of(out@) + split_on(u, p) =~= views_of(out@));
                    assert(self@.skip(n as int).len() == 0);
                    assert(split_on(self@.skip(n as int), p) =~= Seq::<Seq<char>>::empty());
                    assert(views_of(out@) + split_on(self@.skip(n as int), p) =~= views_of(out@));
                }
                i = n;
            } else {
                let mut k2: usize = j;
                loop
                    invariant
                        n == self@.len(),
                        j <= k2 <= n,
                        forall|k: int| j <= k < k2 ==> !is_ascii_ws(self@[k]),
                    ensures
                        j <= k2 <= n,
                        forall|k: int| j <= k < k2 ==> !is_ascii_ws(self@[k]),
                        k2 == n || is_ascii_ws(self@[k2 as int]),
                    decreases n - k2,
                {
                    if k2 == n {
                        break;
                    }
                    if is_ascii_ws_char(self.s.get_char(k2)) {
                        break;
                    }
                    k2 = k2 + 1;
                }
                let piece = self.s.substring_char(j, k2);
                proof {
                    let t = u.skip(j - i);
                    assert(t =~= self@.skip(j as int));
                    assert forall|k: int| 0 <= k < k2 - j implies !p(#[trigger] t[k]) by {
                        assert(t[k] == self@[j + k]);
                        assert(!is_ascii_ws(self@[j + k]));
                    }
                    if k2 < n {
                        assert(t[k2 - j] == self@[k2 as int]);
                        assert(p(t[k2 - j]));
                    }
                    lemma_lead_count_not_scan(t, p, k2 - j);
                    assert(t.take(k2 - j) =~= self@.subrange(j as int, k2 as int));
                    assert(t.skip(k2 - j) =~= self@.skip(k2 as int));
                    assert(split_on(u, p) == seq![self@.subrange(j as int, k2 as int)] + split_on(
                        self@.skip(k2 as int),
                        p,
                    ));
                    lemma_byte_len_subrange(self@, j as int, k2 as int);
                }
                let ghost out0 = out@;
                let w = Str32 { s: piece };
                out.push(w);
                proof {
                    assert(views_of(out@) =~= views_of(out0).push(piece@));
                    assert(views_of(out0).push(piece@) + split_on(self@.skip(k2 as int), p)
                        =~= views_of(out0) + split_on(u, p));
                }
                i = k2;
            }
        }
        proof {
            assert(self@.skip(n as int).len() == 0);
            assert(split_on(self@.skip(n as int), p) =~= Seq::<Seq<char>>::empty());
            assert(views_of(out@) + split_on(self@.skip(n as int), p) =~= views_of(out@));
        }
        out
    }

    /// The lines of the view, in order: pieces delimited by a line feed,
    /// each with one carriage return before the line feed removed. A
    /// final piece without a line feed stands unchanged; a trailing line
    /// feed opens no further line.
    pub fn lines(&self) -> (r: Vec<Str32<'a>>)
        ensures
            views_of(r@) == lines_of(self@),
    {
        proof {
            use_type_invariant(&*self);
        }
        let ghost q = |c: char| c != '\n';
        let n = self.s.unicode_len();
        let mut out: Vec<Str32<'a>> = Vec::new();
        let mut i: usize = 0;
        proof {
            assert(views_of(out@) =~= Seq::<Seq<char>>::empty());
            assert(self@.skip(0) =~= self@);
            assert(views_of(out@) + lines_of(self@.skip(0)) =~= lines_of(self@));
        }
        while i < n
            invariant
                n == self@.len(),
                byte_len(self@) <= u32::MAX,
                0 <= i <= n,
                q == (|c: char| c != '\n'),
                views_of(out@) + lines_of(self@.skip(i as int)) == lines_of(self@),
            decreases n - i,
        {
            let mut j: usize = i;
            loop
                invariant
                    n == self@.len(),
                    i <= j <= n,
                    forall|k: int| i <= k < j ==> self@[k] != '\n',
                ensures
                    i <= j <= n,
                    forall|k: int| i <= k < j ==> self@[k] != '\n',
                    j == n || self@[j as int] == '\n',
                decreases n - j,
            {
                if j == n {
                    break;
                }
                if self.s.get_char(j) == '\n' {
                    break;
                }
                j = j + 1;
            }
            let ghost u = self@.skip(i as int);
            proof {
                assert forall|k: int| 0 <= k < j - i implies q(#[trigger] u[k]) by {
                    assert(u[k] == self@[i + k]);
                    assert(self@[i + k] != '\n');
                }
                if j < n {
                    assert(u[j - i] == self@[j as int]);
                    assert(!q(u[j - i]));
                }
                lemma_lead_count_scan(u, q, j - i);
            }
            if j == n {
                let piece = self.s.substring_char(i, n);
                proof {
                    assert(piece@ =~= u);
                    assert(lines_of(u) == seq![u]);
                    lemma_byte_len_subrange(self@, i as int, n as int);
                    assert(views_of(out@.push(Str32 { s: piece })) =~= views_of(out@).push(u));
                    assert(self@.skip(n as int).len() == 0);
                    assert(lines_of(self@.skip(n as int)) =~= Seq::<Seq<char>>::empty());
                    assert(views_of(out@).push(u) + lines_of(self@.skip(n as int)) =~= views_of(
                        out@,
                    ) + lines_of(u));
                }
                out.push(Str32 { s: piece });
                i = n;
            } else {
                let end = if j > i && self.s.get_char(j - 1) == '\r' {
                    j - 1
                } else {
                    j
                };
                let piece = self.s.substring_char(i, end);
                proof {
                    assert(u.take(j - i) =~= self@.subrange(i as int, j as int));
                    assert(piece@ =~= chomp_cr(u.take(j - i))) by {
                        if j > i && self@[j as int - 1] == '\r' {
                            assert(u.take(j - i).last() == '\r');
                            assert(u.take(j - i).drop_last() =~= self@.subrange(
                                i as int,
                                j as int - 1,
                            ));
                        } else {
                            if j - i > 0 {
                                assert(u.take(j - i).last() == self@[j as int - 1]);
                            }
                        }
                    }
                    assert(u.skip(j - i + 1) =~= self@.skip(j as int + 1));
                    assert(lines_of(u) == seq![chomp_cr(u.take(j - i))] + lines_of(
                        self@.skip(j as int + 1),
                    ));
                    lemma_byte_len_subrange(self@, i as int, end as int);
                    assert(views_of(out@.push(Str32 { s: piece })) =~= views_of(out@).push(piece@));
                    assert(views_of(out@).push(piece@) + lines_of(self@.skip(j as int + 1))
                        =~= views_of(out@) + lines_of(u));
                }
                out.push(Str32 { s: piece });
                i = j + 1;
            }
        }
        proof {
            assert(self@.skip(n as int).len() == 0);
            assert(lines_of(self@.skip(n as int)) =~= Seq::<Seq<char>>::empty());
            assert(views_of(out@) + lines_of(self@.skip(n as int)) =~= views_of(out@));
        }
        out
    }

    /// A new owned string with every ASCII uppercase letter of the
    /// content mapped to lowercase.
    pub fn to_ascii_lowercase(&self) -> (r: String32)
        ensures
            r@ == ascii_lower_seq(self@),
    {
        let mut o = self.to_string32();
        o.make_ascii_lowercase();
        o
    }

    /// A new owned string with every ASCII lowercase letter of the
    /// content mapped to uppercase.
    pub fn to_ascii_uppercase(&self) -> (r: String32)
        ensures
            r@ == ascii_upper_seq(self@),
    {
        let mut o = self.to_string32();
        o.make_ascii_uppercase();
        o
    }

    /// The Unicode lowercase form of the content as a new owned string.
    /// Succeeds exactly when that form fits the 32-bit domain; on
    /// failure the error hands the native lowercase string back.
    pub fn to_lowercase(&self) -> (r: Result<String32, TryFromStringError<String>>)
        ensures
            match r {
                Ok(v) => v@ == unicode_lower(self@) && byte_len(v@) <= u32::MAX,
                Err(e) => e.spec_inner()@ == unicode_lower(self@) && byte_len(unicode_lower(self@))
                    > u32::MAX,
            },
    {
        String32::try_from_string(crate::native::str_to_lowercase(self.s))
    }

    /// The Unicode uppercase form of the content as a new owned string.
    /// Succeeds exactly when that form fits the 32-bit domain; on
    /// failure the error hands the native uppercase string back.
    pub fn to_uppercase(&self) -> (r: Result<String32, TryFromStringError<String>>)
        ensures
            match r {
                Ok(v) => v@ == unicode_upper(self@) && byte_len(v@) <= u32::MAX,
                Err(e) => e.spec_inner()@ == unicode_upper(self@) && byte_len(unicode_upper(self@))
                    > u32::MAX,
            },
    {
        String32::try_from_string(crate::native::str_to_uppercase(self.s))
    }

    /// A new owned string formed by `n` repetitions of the content. The
    /// result must fit the 32-bit domain.
    pub fn repeat(&self, n: u32) -> (r: String32)
        requires
            n * byte_len(self@) <= u32::MAX,
        ensures
            r@ == repeat_chars(self@, n as nat),
            byte_len(r@) == n * byte_len(self@),
    {
        proof {
            lemma_repeat_byte_len(self@, n as nat);
        }
        proof {
            use_type_invariant(&*self);
        }
        let mut out = String::new();
        let mut i: u32 = 0;
        while i < n
            invariant
                0 <= i <= n,
                n * byte_len(self@) <= u32::MAX,
                out@ == repeat_chars(self@, i as nat),
                byte_len(out@) == i * byte_len(self@),
            decreases n - i,
        {
            out.append(self.s);
            proof {
                lemma_byte_len_concat(repeat_chars(self@, i as nat), self@);
                assert((i + 1) * byte_len(self@) == i * byte_len(self@) + byte_len(self@))
                    by (nonlinear_arith);
            }
            i = i + 1;
        }
        proof {
            assert(i * byte_len(self@) <= n * byte_len(self@)) by (nonlinear_arith)
                requires
                    i <= n,
                    byte_len(self@) >= 0,
            ;
        }
        String32::wrap(out)
    }
}

} // verus!

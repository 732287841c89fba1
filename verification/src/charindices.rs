//! The character-index adapter: a cursor over a view's characters and
//! the byte offsets at which their encodings start.

use vstd::prelude::*;
use vstd::string::StrSliceExecFns;
use crate::str32::Str32;
use crate::width::byte_len;
use crate::width::char_utf8_width;
use crate::width::lemma_byte_len_take_mono;
use crate::width::lemma_byte_len_take_succ;

verus! {

/// A cursor yielding, in order, each character of a view paired with
/// the byte offset at which its encoding starts. It is produced on
/// demand and consumed by walking it forward; it is not restartable.
#[derive(Debug)]
pub struct CharIndices<'a> {
    s: &'a str,
    pos: usize,
    off: u32,
}

impl<'a> CharIndices<'a> {
    /// The characters the cursor walks over.
    pub closed spec fn chars(self) -> Seq<char> {
        self.s@
    }

    /// The character index the cursor stands at.
    pub closed spec fn at(self) -> int {
        self.pos as int
    }

    #[verifier::type_invariant]
    spec fn inv(self) -> bool {
        &&& self.pos <= self.s@.len()
        &&& byte_len(self.s@) <= u32::MAX
        &&& self.off == byte_len(self.s@.take(self.pos as int))
    }

    /// A cursor over the characters of `v`, standing at the start.
    pub fn new(v: Str32<'a>) -> (r: CharIndices<'a>)
        ensures
            r.chars() == v@,
            r.at() == 0,
    {
        proof {
            use_type_invariant(&v);
        }
        let s = v.as_str();
        proof {
            assert(s@.take(0) =~= Seq::<char>::empty());
        }
        CharIndices { s, pos: 0, off: 0 }
    }

    /// The next character and the byte offset of its encoding, or
    /// nothing when the cursor has reached the end.
    pub fn next(&mut self) -> (r: Option<(u32, char)>)
        ensures
            final(self).chars() == old(self).chars(),
            old(self).at() < old(self).chars().len() ==> final(self).at() == old(self).at() + 1
                && r == Some(
                (
                    byte_len(old(self).chars().take(old(self).at())) as u32,
                    old(self).chars()[old(self).at()],
                ),
            ),
            old(self).at() >= old(self).chars().len() ==> r is None && final(self).at() == old(
                self,
            ).at(),
    {
        proof {
            use_type_invariant(&*self);
        }
        let n = self.s.unicode_len();
        if self.pos < n {
            let c = self.s.get_char(self.pos);
            let w = char_utf8_width(c);
            let off0 = self.off;
            proof {
                lemma_byte_len_take_succ(self.s@, self.pos as int);
                lemma_byte_len_take_mono(self.s@, self.pos as int + 1, n as int);
                assert(self.s@.take(n as int) =~= self.s@);
            }
            let next_pos = self.pos + 1;
            let next_off = off0 + w;
            *self = CharIndices { s: self.s, pos: next_pos, off: next_off };
            Some((off0, c))
        } else {
            None
        }
    }
}

} // verus!

//! [`Drain`], the characters removed from a [`DeString`] by [`DeString::drain`].
use vstd::prelude::*;
use vstd::utf8::*;

use crate::destring::DeString;
use crate::laws::law_utf8_length_bounds;

verus! {

/// The characters that [`DeString::drain`] removed, handed out one at a time from the
/// front. It holds their UTF-8 bytes and decodes one character per call of [`Drain::next`].
pub struct Drain {
    rest: DeString,
}

impl View for Drain {
    type V = Seq<char>;

    /// The characters not yet handed out.
    closed spec fn view(&self) -> Seq<char> {
        self.rest@
    }
}

impl Drain {
    /// The drain's internal consistency: the bytes not yet handed out are valid UTF-8.
    pub closed spec fn wf(&self) -> bool {
        self.rest.wf()
    }

    /// The number of bytes not yet handed out.
    pub closed spec fn remaining_bytes(&self) -> nat {
        self.rest.bytes().len()
    }

    /// A drain that hands out the characters of `rest`.
    pub(crate) fn new(rest: DeString) -> (r: Drain)
        ensures
            r.wf(),
            r@ == rest@,
            r.remaining_bytes() == rest.bytes().len(),
    {
        proof {
            use_type_invariant(&rest);
        }
        Drain { rest }
    }

    /// Hands out the next character, if there is one left.
    pub fn next(&mut self) -> (r: Option<char>)
        ensures
            old(self)@.len() == 0 ==> r is None && final(self)@ == old(self)@,
            old(self)@.len() == 0 ==> final(self).remaining_bytes() == old(self).remaining_bytes(),
            old(self)@.len() > 0 ==> r == Some(old(self)@[0]) && final(self)@ == old(
                self,
            )@.drop_first() && old(self).remaining_bytes() == encode_scalar(old(self)@[0] as u32).len()
                + final(self).remaining_bytes(),
    {
        self.rest.pop_front()
    }

    /// The bytes not yet handed out are the UTF-8 encoding of the characters not yet handed
    /// out.
    pub proof fn lemma_remaining_bytes(&self)
        requires
            self.wf(),
        ensures
            self.remaining_bytes() == encode_utf8(self@).len(),
    {
        self.rest.lemma_wf();
    }

    /// Bounds on the number of characters left: each takes one to four bytes, so there
    /// are at least a quarter of the remaining bytes, rounded up, and at most as many as
    /// there are remaining bytes.
    pub fn size_hint(&self) -> (r: (usize, Option<usize>))
        ensures
            r.1 == Some(self.remaining_bytes() as usize),
            r.0 * 4 >= self.remaining_bytes(),
            r.0 * 4 < self.remaining_bytes() + 4,
            r.0 <= self@.len() <= self.remaining_bytes(),
    {
        let rem = self.rest.len();
        let low = rem / 4 + if rem % 4 != 0 {
            1
        } else {
            0
        };
        proof {
            use_type_invariant(&self.rest);
            self.rest.lemma_wf();
            law_utf8_length_bounds(self.rest@);
        }
        (low, Some(rem))
    }
}

} // verus!

//! [`DeString`], a UTF-8 string that uses a [`DeVec`] internally.
use vstd::prelude::*;
use vstd::utf8::*;

use crate::codec::{
    decode_char_at,
    encode_char,
    is_whitespace,
    is_whitespace_char,
    lemma_decode_concat,
    lemma_decode_empty,
    lemma_decode_first,
    lemma_encode_concat,
    lemma_encode_single,
    lemma_scalar_decodes,
};
use crate::devec::{max_alloc, DeVec};
use crate::drain::Drain;
use crate::std_calls::{str_from_utf8, utf8_error_of};

verus! {

broadcast use vstd::seq::group_seq_axioms;

/// A string type that keeps its UTF-8 bytes in a [`DeVec`], so that characters and strings
/// can be pushed and popped at both ends while the contents stay one contiguous string slice.
pub struct DeString {
    devec: DeVec,
}

/// `s` without its leading characters that have the Unicode `White_Space` property.
pub open spec fn trim_start_chars(s: Seq<char>) -> Seq<char>
    decreases s.len(),
{
    if s.len() > 0 && is_whitespace_char(s[0]) {
        trim_start_chars(s.drop_first())
    } else {
        s
    }
}

/// `s` without its trailing characters that have the Unicode `White_Space` property.
pub open spec fn trim_end_chars(s: Seq<char>) -> Seq<char>
    decreases s.len(),
{
    if s.len() > 0 && is_whitespace_char(s.last()) {
        trim_end_chars(s.drop_last())
    } else {
        s
    }
}

/// The lexicographic comparison of two byte sequences, as -1, 0 or 1: they are compared at
/// the first position where they differ, and a proper prefix comes first.
pub open spec fn lex_sign(a: Seq<u8>, b: Seq<u8>) -> int
    decreases a.len(),
{
    if a.len() == 0 {
        if b.len() == 0 {
            0
        } else {
            -1
        }
    } else if b.len() == 0 {
        1
    } else if a[0] < b[0] {
        -1
    } else if a[0] > b[0] {
        1
    } else {
        lex_sign(a.drop_first(), b.drop_first())
    }
}

/// The characters of `parts`, one string after the other.
pub open spec fn concat_chars(parts: Seq<DeString>) -> Seq<char>
    decreases parts.len(),
{
    if parts.len() == 0 {
        Seq::empty()
    } else {
        concat_chars(parts.drop_last()) + parts.last()@
    }
}

/// The number of bytes of `parts`, all together.
pub open spec fn concat_len(parts: Seq<DeString>) -> nat
    decreases parts.len(),
{
    if parts.len() == 0 {
        0
    } else {
        concat_len(parts.drop_last()) + parts.last().bytes().len()
    }
}

/// The bytes of a prefix of `parts` are no more than those of all of them.
proof fn lemma_concat_len_prefix(parts: Seq<DeString>, i: int)
    requires
        0 <= i <= parts.len(),
    ensures
        concat_len(parts.subrange(0, i)) <= concat_len(parts),
    decreases parts.len() - i,
{
    if i < parts.len() {
        lemma_concat_len_prefix(parts, i + 1);
        assert(parts.subrange(0, i + 1).drop_last() =~= parts.subrange(0, i));
    } else {
        assert(parts.subrange(0, i) =~= parts);
    }
}

/// One end of a range of byte positions, as `std::ops::Bound<usize>` gives it.
#[derive(Clone, Copy, Debug)]
pub enum RangeBound {
    /// The position itself belongs to the range.
    Included(usize),
    /// The range stops short of the position.
    Excluded(usize),
    /// The range is open on this side.
    Unbounded,
}

/// The first byte position of a range whose start is `b`.
pub open spec fn start_index(b: RangeBound) -> int {
    match b {
        RangeBound::Included(s) => s as int,
        RangeBound::Excluded(s) => s + 1,
        RangeBound::Unbounded => 0,
    }
}

/// The byte position just past a range whose end is `b`, in a string of `len` bytes.
pub open spec fn end_index(b: RangeBound, len: int) -> int {
    match b {
        RangeBound::Included(e) => e + 1,
        RangeBound::Excluded(e) => e as int,
        RangeBound::Unbounded => len,
    }
}

/// The half-open byte positions `start..end` that the bounds `start` and `end` describe in a
/// string of `len` bytes.
pub fn range_indices(start: RangeBound, end: RangeBound, len: usize) -> (r: (usize, usize))
    requires
        start_index(start) <= usize::MAX,
        end_index(end, len as int) <= usize::MAX,
    ensures
        r.0 == start_index(start),
        r.1 == end_index(end, len as int),
{
    let s = match start {
        RangeBound::Included(s) => s,
        RangeBound::Excluded(s) => s + 1,
        RangeBound::Unbounded => 0,
    };
    let e = match end {
        RangeBound::Included(e) => e + 1,
        RangeBound::Excluded(e) => e,
        RangeBound::Unbounded => len,
    };
    (s, e)
}

impl View for DeString {
    type V = Seq<char>;

    /// The characters of the string.
    closed spec fn view(&self) -> Seq<char> {
        decode_utf8(self.devec@)
    }
}

/// True when `b` has the bit pattern of a UTF-8 continuation byte.
fn is_continuation(b: u8) -> (r: bool)
    ensures
        r == is_continuation_byte(b),
{
    0x80 <= b && b <= 0xbf
}

/// Appends the bytes of `enc`, the encoding of `c`, at the back of the valid UTF-8 in `dv`.
fn push_encoded_back(dv: &mut DeVec, enc: &Vec<u8>, Ghost(c): Ghost<char>)
    requires
        valid_utf8(old(dv)@),
        enc@ == encode_scalar(c as u32),
        old(dv)@.len() + enc@.len() <= max_alloc(),
    ensures
        valid_utf8(final(dv)@),
        final(dv)@ == old(dv)@ + enc@,
        decode_utf8(final(dv)@) == decode_utf8(old(dv)@).push(c),
        old(dv).back_room() >= enc@.len() ==> final(dv).spec_capacity() == old(
            dv,
        ).spec_capacity() && final(dv).back_room() == old(dv).back_room() - enc@.len()
            && final(dv).front_room() == old(dv).front_room(),
{
    let ghost b0 = dv@;
    let ghost d0 = *dv;
    let mut i: usize = 0;
    while i < enc.len()
        invariant
            i <= enc@.len(),
            dv@ == b0 + enc@.subrange(0, i as int),
            b0.len() + enc@.len() <= max_alloc(),
            d0.back_room() >= enc@.len() ==> dv.spec_capacity() == d0.spec_capacity()
                && dv.back_room() == d0.back_room() - i && dv.front_room() == d0.front_room(),
        decreases enc@.len() - i,
    {
        let ghost before = dv@;
        dv.push_back(enc[i]);
        assert(b0 + enc@.subrange(0, i + 1) =~= before.push(enc@[i as int]));
        i = i + 1;
    }
    assert(enc@.subrange(0, enc@.len() as int) =~= enc@);
    proof {
        lemma_scalar_decodes(c);
        lemma_decode_concat(b0, enc@);
    }
}

/// Prepends the bytes of `enc`, the encoding of `c`, at the front of the valid UTF-8 in `dv`.
fn push_encoded_front(dv: &mut DeVec, enc: &Vec<u8>, Ghost(c): Ghost<char>)
    requires
        valid_utf8(old(dv)@),
        enc@ == encode_scalar(c as u32),
        old(dv)@.len() + enc@.len() <= max_alloc(),
    ensures
        valid_utf8(final(dv)@),
        final(dv)@ == enc@ + old(dv)@,
        decode_utf8(final(dv)@) == seq![c] + decode_utf8(old(dv)@),
        old(dv).front_room() >= enc@.len() ==> final(dv).spec_capacity() == old(
            dv,
        ).spec_capacity() && final(dv).front_room() == old(dv).front_room() - enc@.len()
            && final(dv).back_room() == old(dv).back_room(),
{
    let ghost b0 = dv@;
    let ghost d0 = *dv;
    let mut i: usize = enc.len();
    while i > 0
        invariant
            i <= enc@.len(),
            dv@ == enc@.subrange(i as int, enc@.len() as int) + b0,
            b0.len() + enc@.len() <= max_alloc(),
            d0.front_room() >= enc@.len() ==> dv.spec_capacity() == d0.spec_capacity()
                && dv.front_room() == d0.front_room() - (enc@.len() - i) && dv.back_room()
                == d0.back_room(),
        decreases i,
    {
        let ghost before = dv@;
        dv.push_front(enc[i - 1]);
        assert(enc@.subrange(i - 1, enc@.len() as int) + b0 =~= seq![enc@[i - 1]] + before);
        i = i - 1;
    }
    assert(enc@.subrange(0, enc@.len() as int) =~= enc@);
    proof {
        lemma_scalar_decodes(c);
        lemma_decode_concat(enc@, b0);
    }
}

/// Splitting valid UTF-8 at two character boundaries gives three valid pieces whose
/// decodings, one after the other, are the decoding of the whole.
proof fn lemma_split_three(b: Seq<u8>, s: int, e: int)
    requires
        valid_utf8(b),
        0 <= s <= e <= b.len(),
        is_char_boundary(b, s),
        is_char_boundary(b, e),
    ensures
        valid_utf8(b.subrange(0, s)),
        valid_utf8(b.subrange(s, e)),
        valid_utf8(b.subrange(e, b.len() as int)),
        decode_utf8(b) == decode_utf8(b.subrange(0, s)) + decode_utf8(b.subrange(s, e))
            + decode_utf8(b.subrange(e, b.len() as int)),
{
    valid_utf8_split(b, e);
    decode_utf8_split(b, e);
    let pre = b.subrange(0, e);
    is_char_boundary_start_end_of_seq(pre);
    if 0 < s < e {
        is_char_boundary_iff_not_is_continuation_byte(b, s);
        is_char_boundary_iff_not_is_continuation_byte(pre, s);
        assert(pre[s] == b[s]);
    }
    assert(is_char_boundary(pre, s));
    valid_utf8_split(pre, s);
    decode_utf8_split(pre, s);
    assert(pre.subrange(0, s) =~= b.subrange(0, s));
    assert(pre.subrange(s, pre.len() as int) =~= b.subrange(s, e));
}

impl DeString {
    /// The string's internal consistency, which every `DeString` keeps: its bytes are valid
    /// UTF-8.
    #[verifier::type_invariant]
    pub closed spec fn wf(&self) -> bool {
        valid_utf8(self.devec@)
    }

    /// The UTF-8 bytes of the string.
    pub closed spec fn bytes(&self) -> Seq<u8> {
        self.devec@
    }

    /// The number of bytes the buffer can hold without reallocating.
    pub closed spec fn spec_capacity(&self) -> nat {
        self.devec.spec_capacity()
    }

    /// The number of bytes that can be pushed at the front without reallocating.
    pub closed spec fn front_room(&self) -> nat {
        self.devec.front_room()
    }

    /// The number of bytes that can be pushed at the back without reallocating.
    pub closed spec fn back_room(&self) -> nat {
        self.devec.back_room()
    }

    /// The bytes of a well-formed string are valid UTF-8, they are the encoding of its
    /// characters, and they fit in its buffer.
    pub proof fn lemma_wf(&self)
        requires
            self.wf(),
        ensures
            valid_utf8(self.bytes()),
            self.bytes() == encode_utf8(self@),
            self@ == decode_utf8(self.bytes()),
            (self@.len() == 0) == (self.bytes().len() == 0),
    {
        broadcast use decode_utf8_encode_utf8;

        lemma_decode_empty(self.devec@);
    }

    /// Creates a new empty `DeString`.
    pub fn new() -> (r: DeString)
        ensures
            r.wf(),
            r@ == Seq::<char>::empty(),
            r.bytes() == Seq::<u8>::empty(),
            r.spec_capacity() == 0,
    {
        let r = DeString { devec: DeVec::new() };
        proof {
            lemma_decode_empty(r.devec@);
        }
        r
    }

    /// Creates a new empty `DeString` with room for `cap` bytes.
    pub fn with_capacity(cap: usize) -> (r: DeString)
        ensures
            r.wf(),
            r@ == Seq::<char>::empty(),
            r.bytes() == Seq::<u8>::empty(),
            r.spec_capacity() == cap,
            r.front_room() == cap / 2,
            r.back_room() == cap - cap / 2,
    {
        let r = DeString { devec: DeVec::with_capacity(cap) };
        proof {
            lemma_decode_empty(r.devec@);
        }
        r
    }

    /// Takes the buffer out of the string, leaving the string empty.
    fn take_devec(&mut self) -> (dv: DeVec)
        ensures
            dv@ == old(self).bytes(),
            dv.spec_capacity() == old(self).spec_capacity(),
            dv.front_room() == old(self).front_room(),
            dv.back_room() == old(self).back_room(),
            valid_utf8(dv@),
    {
        proof {
            use_type_invariant(&*self);
        }
        let mut dv = DeVec::new();
        std::mem::swap(&mut self.devec, &mut dv);
        dv
    }

    /// Appends a character to the end of the `DeString`.
    pub fn push_char_back(&mut self, c: char)
        requires
            old(self).bytes().len() + 4 <= max_alloc(),
        ensures
            final(self)@ == old(self)@.push(c),
            final(self).bytes() == old(self).bytes() + encode_scalar(c as u32),
            old(self).back_room() >= 4 ==> final(self).spec_capacity() == old(
                self,
            ).spec_capacity() && final(self).back_room() == old(self).back_room()
                - encode_scalar(c as u32).len() && final(self).front_room() == old(
                self,
            ).front_room(),
    {
        let mut dv = self.take_devec();
        dv.reserve_back(4);
        let enc = encode_char(c);
        push_encoded_back(&mut dv, &enc, Ghost(c));
        self.devec = dv;
    }

    /// Prepends a character to the front of the `DeString`.
    pub fn push_char_front(&mut self, c: char)
        requires
            old(self).bytes().len() + 4 <= max_alloc(),
        ensures
            final(self)@ == seq![c] + old(self)@,
            final(self).bytes() == encode_scalar(c as u32) + old(self).bytes(),
            old(self).front_room() >= 4 ==> final(self).spec_capacity() == old(
                self,
            ).spec_capacity() && final(self).front_room() == old(self).front_room()
                - encode_scalar(c as u32).len() && final(self).back_room() == old(
                self,
            ).back_room(),
    {
        let mut dv = self.take_devec();
        dv.reserve_front(4);
        let enc = encode_char(c);
        push_encoded_front(&mut dv, &enc, Ghost(c));
        self.devec = dv;
    }

    /// The last character and the number of bytes its encoding takes, if there is one.
    fn back_char(&self) -> (r: Option<(char, usize)>)
        ensures
            r is None <==> self@.len() == 0,
            r matches Some((c, w)) ==> {
                &&& 1 <= w <= self.bytes().len()
                &&& c == self@.last()
                &&& valid_utf8(self.bytes().subrange(0, self.bytes().len() - w))
                &&& decode_utf8(self.bytes().subrange(0, self.bytes().len() - w))
                    == self@.drop_last()
            },
    {
        proof {
            use_type_invariant(self);
        }
        proof {
            lemma_decode_empty(self.devec@);
        }
        let n = self.devec.len();
        if n == 0 {
            return None;
        }
        let ghost bytes = self.devec@;
        proof {
            lemma_decode_first(bytes);
        }
        let mut j: usize = n - 1;
        while j > 0 && is_continuation(self.devec.get(j))
            invariant
                self.wf(),
                bytes == self.devec@,
                n == bytes.len(),
                j < n,
                forall|k: int| j < k < n ==> is_continuation_byte(#[trigger] bytes[k]),
            decreases j,
        {
            j = j - 1;
        }
        proof {
            assert(!is_continuation_byte(bytes[j as int]));
            is_char_boundary_iff_not_is_continuation_byte(bytes, j as int);
            valid_utf8_split(bytes, j as int);
            decode_utf8_split(bytes, j as int);
            let p = bytes.subrange(0, j as int);
            let s = bytes.subrange(j as int, n as int);
            lemma_decode_first(s);
            let rest = pop_first_scalar(s);
            if rest.len() > 0 {
                lemma_decode_first(rest);
                let l = length_of_first_scalar(s);
                assert(rest[0] == bytes[j + l]);
                assert(is_continuation_byte(bytes[j + l]));
            }
            assert(rest =~= Seq::<u8>::empty());
            lemma_decode_empty(rest);
            assert(decode_utf8(s) =~= seq![decode_first_scalar(s) as char]);
            assert(self@ =~= decode_utf8(p).push(decode_first_scalar(s) as char));
            assert(bytes.subrange(0, n - (n - j)) =~= p);
        }
        let (c, w) = decode_char_at(&self.devec, j, n);
        Some((c, w))
    }

    /// The first character and the number of bytes its encoding takes, if there is one.
    fn front_char(&self) -> (r: Option<(char, usize)>)
        ensures
            r is None <==> self@.len() == 0,
            r matches Some((c, w)) ==> {
                &&& 1 <= w <= self.bytes().len()
                &&& c == self@[0]
                &&& valid_utf8(self.bytes().subrange(w as int, self.bytes().len() as int))
                &&& decode_utf8(self.bytes().subrange(w as int, self.bytes().len() as int))
                    == self@.drop_first()
            },
    {
        proof {
            use_type_invariant(self);
        }
        proof {
            lemma_decode_empty(self.devec@);
        }
        let n = self.devec.len();
        if n == 0 {
            return None;
        }
        let ghost bytes = self.devec@;
        proof {
            lemma_decode_first(bytes);
            assert(bytes.subrange(0, n as int) =~= bytes);
            assert(self@.drop_first() =~= decode_utf8(pop_first_scalar(bytes)));
        }
        let (c, w) = decode_char_at(&self.devec, 0, n);
        Some((c, w))
    }

    /// Removes the last character from the `DeString` and returns it, if it exists.
    pub fn pop_back(&mut self) -> (r: Option<char>)
        ensures
            final(self).spec_capacity() == old(self).spec_capacity(),
            old(self)@.len() == 0 ==> r is None && final(self)@ == old(self)@ && final(self).bytes()
                == old(self).bytes(),
            old(self)@.len() > 0 ==> r == Some(old(self)@.last()) && final(self)@ == old(
                self,
            )@.drop_last() && old(self).bytes() == final(self).bytes() + encode_scalar(
                old(self)@.last() as u32,
            ),
    {
        proof {
            use_type_invariant(&*self);
        }
        match self.back_char() {
            Some((c, w)) => {
                let mut dv = self.take_devec();
                dv.remove_back(w);
                self.devec = dv;
                proof {
                    use_type_invariant(&*self);
                    let v = old(self)@;
                    self.lemma_wf();
                    old(self).lemma_wf();
                    lemma_encode_concat(v.drop_last(), seq![v.last()]);
                    lemma_encode_single(v.last());
                    assert(v.drop_last() + seq![v.last()] =~= v);
                }
                Some(c)
            },
            None => None,
        }
    }

    /// Removes the first character from the `DeString` and returns it, if it exists.
    pub fn pop_front(&mut self) -> (r: Option<char>)
        ensures
            final(self).spec_capacity() == old(self).spec_capacity(),
            old(self)@.len() == 0 ==> r is None && final(self)@ == old(self)@ && final(self).bytes()
                == old(self).bytes(),
            old(self)@.len() > 0 ==> r == Some(old(self)@[0]) && final(self)@ == old(
                self,
            )@.drop_first() && old(self).bytes() == encode_scalar(old(self)@[0] as u32)
                + final(self).bytes(),
    {
        proof {
            use_type_invariant(&*self);
        }
        match self.front_char() {
            Some((c, w)) => {
                let mut dv = self.take_devec();
                dv.remove_front(w);
                self.devec = dv;
                proof {
                    use_type_invariant(&*self);
                    let v = old(self)@;
                    self.lemma_wf();
                    old(self).lemma_wf();
                    lemma_encode_concat(seq![v[0]], v.drop_first());
                    lemma_encode_single(v[0]);
                    assert(seq![v[0]] + v.drop_first() =~= v);
                }
                Some(c)
            },
            None => None,
        }
    }

    /// Appends the contents of a string to the end of the `DeString`.
    pub fn push_str_back(&mut self, s: &str)
        requires
            old(self).bytes().len() + encode_utf8(s@).len() <= max_alloc(),
        ensures
            final(self)@ == old(self)@ + s@,
            final(self).bytes() == old(self).bytes() + encode_utf8(s@),
            old(self).back_room() >= encode_utf8(s@).len() ==> final(self).spec_capacity() == old(
                self,
            ).spec_capacity() && final(self).back_room() == old(self).back_room()
                - encode_utf8(s@).len() && final(self).front_room() == old(self).front_room(),
    {
        let bytes = s.as_bytes();
        let mut dv = self.take_devec();
        let n = bytes.len();
        let ghost d_in = dv;
        dv.reserve_back(n);
        let ghost b0 = dv@;
        let ghost d0 = dv;
        let mut i: usize = 0;
        while i < n
            invariant
                n == bytes@.len(),
                i <= n,
                dv@ == b0 + bytes@.subrange(0, i as int),
                b0.len() + n <= max_alloc(),
                d_in.back_room() >= n ==> d0 == d_in,
                d0.back_room() >= n,
                dv.spec_capacity() == d0.spec_capacity() && dv.back_room() == d0.back_room() - i
                    && dv.front_room() == d0.front_room(),
            decreases n - i,
        {
            let ghost before = dv@;
            dv.push_back(bytes[i]);
            assert(b0 + bytes@.subrange(0, i + 1) =~= before.push(bytes@[i as int]));
            i = i + 1;
        }
        assert(bytes@.subrange(0, n as int) =~= bytes@);
        proof {
            broadcast use encode_utf8_valid_utf8, encode_utf8_decode_utf8;

            lemma_decode_concat(b0, bytes@);
        }
        self.devec = dv;
    }

    /// Prepends the contents of a string to the front of the `DeString`.
    pub fn push_str_front(&mut self, s: &str)
        requires
            old(self).bytes().len() + encode_utf8(s@).len() <= max_alloc(),
        ensures
            final(self)@ == s@ + old(self)@,
            final(self).bytes() == encode_utf8(s@) + old(self).bytes(),
            old(self).front_room() >= encode_utf8(s@).len() ==> final(self).spec_capacity()
                == old(self).spec_capacity() && final(self).front_room() == old(self).front_room()
                - encode_utf8(s@).len() && final(self).back_room() == old(self).back_room(),
    {
        let bytes = s.as_bytes();
        let mut dv = self.take_devec();
        let n = bytes.len();
        let ghost d_in = dv;
        dv.reserve_front(n);
        let ghost b0 = dv@;
        let ghost d0 = dv;
        let mut i: usize = n;
        while i > 0
            invariant
                n == bytes@.len(),
                i <= n,
                dv@ == bytes@.subrange(i as int, n as int) + b0,
                b0.len() + n <= max_alloc(),
                d_in.front_room() >= n ==> d0 == d_in,
                d0.front_room() >= n,
                dv.spec_capacity() == d0.spec_capacity() && dv.front_room() == d0.front_room() - (n
                    - i) && dv.back_room() == d0.back_room(),
            decreases i,
        {
            let ghost before = dv@;
            dv.push_front(bytes[i - 1]);
            assert(bytes@.subrange(i - 1, n as int) + b0 =~= seq![bytes@[i - 1]] + before);
            i = i - 1;
        }
        assert(bytes@.subrange(0, n as int) =~= bytes@);
        proof {
            broadcast use encode_utf8_valid_utf8, encode_utf8_decode_utf8;

            lemma_decode_concat(bytes@, b0);
        }
        self.devec = dv;
    }

    /// Returns the number of bytes in the `DeString`.
    pub fn len(&self) -> (n: usize)
        ensures
            n == self.bytes().len(),
            n == encode_utf8(self@).len(),
    {
        proof {
            use_type_invariant(self);
        }
        proof {
            self.lemma_wf();
        }
        self.devec.len()
    }

    /// Returns the number of bytes that can be stored in the `DeString` without
    /// reallocating, assuming perfect pushing to both sides.
    pub fn capacity(&self) -> (n: usize)
        ensures
            n == self.spec_capacity(),
            n == self.bytes().len() + self.front_room() + self.back_room(),
            n >= self.bytes().len(),
    {
        proof {
            use_type_invariant(self);
        }
        self.devec.capacity()
    }

    /// Returns true if the `DeString` is empty.
    pub fn is_empty(&self) -> (b: bool)
        ensures
            b == (self@.len() == 0),
            b == (self.bytes().len() == 0),
    {
        proof {
            use_type_invariant(self);
        }
        proof {
            lemma_decode_empty(self.devec@);
        }
        self.devec.is_empty()
    }

    /// Removes all bytes from the `DeString`; the allocation is kept.
    pub fn clear(&mut self)
        ensures
            final(self)@ == Seq::<char>::empty(),
            final(self).bytes() == Seq::<u8>::empty(),
            final(self).spec_capacity() == old(self).spec_capacity(),
            final(self).front_room() == final(self).spec_capacity() / 2,
    {
        proof {
            use_type_invariant(&*self);
        }
        let mut dv = self.take_devec();
        dv.clear();
        proof {
            lemma_decode_empty(dv@);
        }
        self.devec = dv;
    }

    /// Returns the string slice that the `DeString` manages.
    pub fn as_str(&self) -> (s: &str)
        ensures
            s@ == self@,
    {
        proof {
            use_type_invariant(self);
        }
        match str_from_utf8(self.devec.as_slice()) {
            Ok(s) => s,
            Err(_) => {
                proof {
                    assert(false);
                }
                ""
            },
        }
    }

    /// Returns the bytes of the `DeString`, as one contiguous slice.
    pub fn as_bytes(&self) -> (b: &[u8])
        ensures
            b@ == self.bytes(),
            b@ == encode_utf8(self@),
    {
        proof {
            use_type_invariant(self);
        }
        proof {
            self.lemma_wf();
        }
        self.devec.as_slice()
    }

    /// Mutates the `DeString` by removing leading whitespace, in place.
    pub fn mut_trim_front(&mut self)
        ensures
            final(self)@ == trim_start_chars(old(self)@),
            final(self).spec_capacity() == old(self).spec_capacity(),
            final(self).bytes().len() <= old(self).bytes().len(),
    {
        proof {
            use_type_invariant(&*self);
        }
        loop
            invariant
                self.wf(),
                trim_start_chars(self@) == trim_start_chars(old(self)@),
                self.spec_capacity() == old(self).spec_capacity(),
                self.bytes().len() <= old(self).bytes().len(),
            ensures
                self.wf(),
                self@ == trim_start_chars(old(self)@),
                self.spec_capacity() == old(self).spec_capacity(),
                self.bytes().len() <= old(self).bytes().len(),
            decreases self.devec@.len(),
        {
            match self.front_char() {
                Some((c, w)) => {
                    if is_whitespace(c) {
                        let mut dv = self.take_devec();
                        dv.remove_front(w);
                        self.devec = dv;
                    } else {
                        break ;
                    }
                },
                None => {
                    break ;
                },
            }
        }
    }

    /// Mutates the `DeString` by removing trailing whitespace, in place.
    pub fn mut_trim_back(&mut self)
        ensures
            final(self)@ == trim_end_chars(old(self)@),
            final(self).spec_capacity() == old(self).spec_capacity(),
            final(self).bytes().len() <= old(self).bytes().len(),
    {
        proof {
            use_type_invariant(&*self);
        }
        loop
            invariant
                self.wf(),
                trim_end_chars(self@) == trim_end_chars(old(self)@),
                self.spec_capacity() == old(self).spec_capacity(),
                self.bytes().len() <= old(self).bytes().len(),
            ensures
                self.wf(),
                self@ == trim_end_chars(old(self)@),
                self.spec_capacity() == old(self).spec_capacity(),
                self.bytes().len() <= old(self).bytes().len(),
            decreases self.devec@.len(),
        {
            match self.back_char() {
                Some((c, w)) => {
                    if is_whitespace(c) {
                        let mut dv = self.take_devec();
                        dv.remove_back(w);
                        self.devec = dv;
                    } else {
                        break ;
                    }
                },
                None => {
                    break ;
                },
            }
        }
    }

    /// Mutates the `DeString` by removing leading and trailing whitespace, in place.
    pub fn mut_trim(&mut self)
        ensures
            final(self)@ == trim_end_chars(trim_start_chars(old(self)@)),
            final(self).spec_capacity() == old(self).spec_capacity(),
            final(self).bytes().len() <= old(self).bytes().len(),
    {
        proof {
            use_type_invariant(&*self);
        }
        self.mut_trim_front();
        self.mut_trim_back();
    }

    /// Takes a [`DeVec`] as the bytes of a `DeString`, provided that they are valid UTF-8;
    /// otherwise returns the error that `std::str::from_utf8` gives for them
    /// ([`utf8_error_of`](crate::std_calls::utf8_error_of)).
    pub fn from_utf8(devec: DeVec) -> (r: Result<DeString, std::str::Utf8Error>)
        ensures
            r is Ok <==> valid_utf8(devec@),
            r matches Ok(d) ==> d.wf() && d.bytes() == devec@ && d@ == decode_utf8(devec@),
            r matches Err(e) ==> e == utf8_error_of(devec@),
    {
        match str_from_utf8(devec.as_slice()) {
            Ok(_) => {},
            Err(e) => {
                return Err(e);
            },
        }
        Ok(DeString { devec })
    }

    /// Takes a [`DeVec`] whose bytes are known to be valid UTF-8 as the bytes of a
    /// `DeString`, without checking them again.
    pub fn from_utf8_unchecked(devec: DeVec) -> (r: DeString)
        requires
            valid_utf8(devec@),
        ensures
            r.wf(),
            r.bytes() == devec@,
            r@ == decode_utf8(devec@),
    {
        DeString { devec }
    }

    /// Removes the bytes at positions `start..end`, which must lie on character
    /// boundaries, and returns a [`Drain`] that yields the characters they encoded, in order.
    pub fn drain(&mut self, start: usize, end: usize) -> (r: Drain)
        requires
            start <= end <= old(self).bytes().len(),
            is_char_boundary(old(self).bytes(), start as int),
            is_char_boundary(old(self).bytes(), end as int),
        ensures
            final(self).spec_capacity() == old(self).spec_capacity(),
            final(self).bytes() == old(self).bytes().subrange(0, start as int) + old(
                self,
            ).bytes().subrange(end as int, old(self).bytes().len() as int),
            r.wf(),
            r.remaining_bytes() == end - start,
            r@ == decode_utf8(old(self).bytes().subrange(start as int, end as int)),
            final(self)@ == decode_utf8(old(self).bytes().subrange(0, start as int))
                + decode_utf8(
                old(self).bytes().subrange(end as int, old(self).bytes().len() as int),
            ),
            old(self)@ == decode_utf8(old(self).bytes().subrange(0, start as int)) + r@
                + decode_utf8(
                old(self).bytes().subrange(end as int, old(self).bytes().len() as int),
            ),
    {
        proof {
            use_type_invariant(&*self);
        }
        let ghost bytes = self.devec@;
        let ghost n = bytes.len() as int;
        proof {
            lemma_split_three(bytes, start as int, end as int);
        }
        let mut removed: Vec<u8> = Vec::new();
        let mut i: usize = start;
        while i < end
            invariant
                bytes == self.devec@,
                start <= i <= end <= bytes.len(),
                removed@ == bytes.subrange(start as int, i as int),
            decreases end - i,
        {
            removed.push(self.devec.get(i));
            i = i + 1;
            assert(removed@ =~= bytes.subrange(start as int, i as int));
        }
        proof {
            lemma_decode_concat(bytes.subrange(0, start as int), bytes.subrange(end as int, n));
        }
        let mut dv = self.take_devec();
        dv.remove_range(start, end);
        self.devec = dv;
        let rest = DeString::from_utf8_unchecked(DeVec::from_vec(removed));
        Drain::new(rest)
    }

    /// Removes the bytes in the range that `start` and `end` describe, which must lie on
    /// character boundaries, and returns a [`Drain`] that yields the characters they
    /// encoded; the same as [`DeString::drain`] on the positions that the bounds stand for.
    pub fn drain_range(&mut self, start: RangeBound, end: RangeBound) -> (r: Drain)
        requires
            start_index(start) <= end_index(end, old(self).bytes().len() as int) <= old(
                self,
            ).bytes().len(),
            is_char_boundary(old(self).bytes(), start_index(start)),
            is_char_boundary(old(self).bytes(), end_index(end, old(self).bytes().len() as int)),
        ensures
            ({
                let b = old(self).bytes();
                let s = start_index(start);
                let e = end_index(end, b.len() as int);
                &&& final(self).spec_capacity() == old(self).spec_capacity()
                &&& final(self).bytes() == b.subrange(0, s) + b.subrange(e, b.len() as int)
                &&& r.wf()
                &&& r.remaining_bytes() == e - s
                &&& r@ == decode_utf8(b.subrange(s, e))
                &&& final(self)@ == decode_utf8(b.subrange(0, s)) + decode_utf8(
                    b.subrange(e, b.len() as int),
                )
                &&& old(self)@ == decode_utf8(b.subrange(0, s)) + r@ + decode_utf8(
                    b.subrange(e, b.len() as int),
                )
            }),
    {
        proof {
            use_type_invariant(&*self);
        }
        let len = self.len();
        let (s, e) = range_indices(start, end, len);
        self.drain(s, e)
    }

    /// Creates a `DeString` holding a copy of `s`, with its bytes at the very front of an
    /// allocation that has exactly their size.
    pub fn from_str_slice(s: &str) -> (r: DeString)
        ensures
            r.wf(),
            r@ == s@,
            r.bytes() == encode_utf8(s@),
            r.spec_capacity() == encode_utf8(s@).len(),
            r.front_room() == 0,
            r.back_room() == 0,
    {
        let v = vstd::slice::slice_to_vec(s.as_bytes());
        proof {
            broadcast use encode_utf8_valid_utf8, encode_utf8_decode_utf8;

        }
        DeString { devec: DeVec::from_vec(v) }
    }

    /// Creates a `DeString` holding the characters of `s`.
    pub fn from_string(s: String) -> (r: DeString)
        ensures
            r.wf(),
            r@ == s@,
    {
        DeString::from_str_slice(s.as_str())
    }

    /// A `String` holding the characters of the `DeString`.
    pub fn to_string(&self) -> (s: String)
        ensures
            s@ == self@,
    {
        proof {
            use_type_invariant(self);
        }
        self.as_str().to_owned()
    }

    /// Turns the `DeString` into a `String` holding the same characters.
    pub fn into_string(self) -> (s: String)
        ensures
            s@ == self@,
    {
        self.to_string()
    }

    /// Creates a `DeString` holding the given characters, in order.
    pub fn from_chars(chars: &[char]) -> (r: DeString)
        requires
            encode_utf8(chars@).len() <= max_alloc(),
        ensures
            r.wf(),
            r@ == chars@,
            r.bytes() == encode_utf8(chars@),
    {
        let mut dv = DeVec::new();
        let n = chars.len();
        let mut i: usize = 0;
        proof {
            lemma_decode_empty(dv@);
            assert(chars@.subrange(0, 0) =~= Seq::<char>::empty());
        }
        while i < n
            invariant
                valid_utf8(dv@),
                n == chars@.len(),
                i <= n,
                decode_utf8(dv@) == chars@.subrange(0, i as int),
                dv@ == encode_utf8(chars@.subrange(0, i as int)),
                encode_utf8(chars@).len() <= max_alloc(),
            decreases n - i,
        {
            let c = chars[i];
            let enc = encode_char(c);
            proof {
                let pre = chars@.subrange(0, i as int);
                let next = chars@.subrange(0, i + 1);
                assert(next =~= pre + seq![c]);
                lemma_encode_concat(pre, seq![c]);
                lemma_encode_single(c);
                assert(next + chars@.subrange(i + 1, n as int) =~= chars@);
                lemma_encode_concat(next, chars@.subrange(i + 1, n as int));
            }
            push_encoded_back(&mut dv, &enc, Ghost(c));
            i = i + 1;
            assert(decode_utf8(dv@) =~= chars@.subrange(0, i as int));
        }
        assert(chars@.subrange(0, n as int) =~= chars@);
        DeString { devec: dv }
    }

    /// Creates a `DeString` holding the characters of all of `parts`, one after the other.
    pub fn concat(parts: &Vec<DeString>) -> (r: DeString)
        requires
            concat_len(parts@) <= max_alloc(),
        ensures
            r.wf(),
            r@ == concat_chars(parts@),
            r.bytes().len() == concat_len(parts@),
    {
        let mut r = DeString::new();
        let n = parts.len();
        let mut i: usize = 0;
        while i < n
            invariant
                n == parts@.len(),
                i <= n,
                r@ == concat_chars(parts@.subrange(0, i as int)),
                r.bytes().len() == concat_len(parts@.subrange(0, i as int)),
                concat_len(parts@) <= max_alloc(),
            decreases n - i,
        {
            let part = &parts[i];
            let s = part.as_str();
            proof {
                let next = parts@.subrange(0, i + 1);
                assert(next.drop_last() =~= parts@.subrange(0, i as int));
                lemma_concat_len_prefix(parts@, i + 1);
                use_type_invariant(part);
                part.lemma_wf();
            }
            r.push_str_back(s);
            i = i + 1;
        }
        assert(parts@.subrange(0, n as int) =~= parts@);
        proof {
            use_type_invariant(&r);
        }
        r
    }

    /// Compares the bytes of two strings lexicographically: -1, 0 or 1.
    pub fn compare_bytes(&self, other: &DeString) -> (r: i8)
        ensures
            r == lex_sign(self.bytes(), other.bytes()),
    {
        proof {
            use_type_invariant(self);
        }
        let ghost a = self.devec@;
        let ghost b = other.devec@;
        let n = self.devec.len();
        let m = other.devec.len();
        let mut i: usize = 0;
        assert(a.subrange(0, n as int) =~= a);
        assert(b.subrange(0, m as int) =~= b);
        while i < n && i < m
            invariant
                a == self.devec@,
                b == other.devec@,
                n == a.len(),
                m == b.len(),
                i <= n,
                i <= m,
                lex_sign(a, b) == lex_sign(
                    a.subrange(i as int, n as int),
                    b.subrange(i as int, m as int),
                ),
            decreases n - i,
        {
            let x = self.devec.get(i);
            let y = other.devec.get(i);
            if x < y {
                return -1;
            }
            if x > y {
                return 1;
            }
            assert(a.subrange(i as int, n as int).drop_first() =~= a.subrange(i + 1, n as int));
            assert(b.subrange(i as int, m as int).drop_first() =~= b.subrange(i + 1, m as int));
            i = i + 1;
        }
        if i < n {
            1
        } else if i < m {
            -1
        } else {
            0
        }
    }

    /// Compares the string with a string slice: equal exactly when its bytes are the
    /// slice's UTF-8 bytes, that is, when both hold the same characters.
    pub fn eq_str(&self, s: &str) -> (b: bool)
        ensures
            b == (self.bytes() == encode_utf8(s@)),
            b == (self@ == s@),
    {
        proof {
            use_type_invariant(self);
        }
        let other = s.as_bytes();
        let n = self.devec.len();
        let mut same = n == other.len();
        let mut i: usize = 0;
        while same && i < n
            invariant
                other@ == encode_utf8(s@),
                n == self.devec@.len(),
                same ==> n == other@.len(),
                i <= n,
                same ==> forall|k: int| 0 <= k < i ==> self.devec@[k] == other@[k],
                !same ==> self.devec@ != other@,
            decreases n - i, (if same { 1int } else { 0int }),
        {
            if self.devec.get(i) != other[i] {
                same = false;
            } else {
                i = i + 1;
            }
        }
        if same {
            assert(self.devec@ =~= other@);
        }
        proof {
            self.lemma_wf();
            crate::laws::law_encoding_is_injective_chars(self@, s@);
        }
        same
    }

    /// Compares the contents of two strings; they are equal exactly when their bytes are.
    fn eq_bytes(&self, other: &DeString) -> (b: bool)
        ensures
            b == (self.bytes() == other.bytes()),
    {
        proof {
            use_type_invariant(self);
        }
        let n = self.devec.len();
        if n != other.devec.len() {
            return false;
        }
        let mut i: usize = 0;
        while i < n
            invariant
                n == self.devec@.len(),
                n == other.devec@.len(),
                i <= n,
                forall|k: int| 0 <= k < i ==> self.devec@[k] == other.devec@[k],
            decreases n - i,
        {
            if self.devec.get(i) != other.devec.get(i) {
                return false;
            }
            i = i + 1;
        }
        assert(self.devec@ =~= other.devec@);
        true
    }
}

impl Default for DeString {
    /// Creates a new empty `DeString`.
    fn default() -> (r: DeString)
        ensures
            r.wf(),
            r@ == Seq::<char>::empty(),
    {
        DeString::new()
    }
}

impl std::str::FromStr for DeString {
    type Err = std::string::ParseError;

    /// Parses any string slice as a `DeString` holding its characters; never fails.
    fn from_str(s: &str) -> (res: Result<DeString, std::string::ParseError>)
        ensures
            res is Ok,
            (match res {
                Ok(d) => d.wf() && d@ == s@ && d.bytes() == encode_utf8(s@),
                Err(_) => false,
            }),
    {
        Ok(DeString::from_str_slice(s))
    }
}

impl PartialEq for DeString {
    /// Two strings are equal when they hold the same bytes.
    fn eq(&self, other: &DeString) -> (b: bool) {
        self.eq_bytes(other)
    }
}

impl Eq for DeString {

}

impl vstd::std_specs::cmp::PartialEqSpecImpl for DeString {
    open spec fn obeys_eq_spec() -> bool {
        true
    }

    open spec fn eq_spec(&self, other: &DeString) -> bool {
        self.bytes() == other.bytes()
    }
}

impl<'a> PartialEq<&'a str> for DeString {
    /// A string equals a string slice when its bytes are the slice's UTF-8 bytes.
    fn eq(&self, other: &&'a str) -> (b: bool) {
        self.eq_str(*other)
    }
}

impl<'a> vstd::std_specs::cmp::PartialEqSpecImpl<&'a str> for DeString {
    open spec fn obeys_eq_spec() -> bool {
        true
    }

    open spec fn eq_spec(&self, other: &&'a str) -> bool {
        self.bytes() == encode_utf8(other@)
    }
}

impl std::ops::Deref for DeString {
    type Target = str;

    /// The string slice that the `DeString` manages.
    fn deref(&self) -> (s: &str)
        ensures
            s@ == self@,
    {
        self.as_str()
    }
}

impl<'a> From<&'a str> for DeString {
    /// Creates a `DeString` holding a copy of `s`; see [`DeString::from_str_slice`].
    fn from(s: &'a str) -> (r: DeString)
        ensures
            r@ == s@,
            r.bytes() == encode_utf8(s@),
            r.spec_capacity() == encode_utf8(s@).len(),
    {
        DeString::from_str_slice(s)
    }
}

impl<'a> vstd::std_specs::convert::FromSpecImpl<&'a str> for DeString {
    /// A `DeString` is not pinned down by the slice as a whole value (its buffer may differ
    /// from any other with the same contents); what `from` gives is stated by its own
    /// `ensures`.
    open spec fn obeys_from_spec() -> bool {
        false
    }

    open spec fn from_spec(v: &'a str) -> DeString {
        choose|d: DeString| d@ == v@
    }
}

impl From<String> for DeString {
    /// Creates a `DeString` holding the characters of `s`; see [`DeString::from_string`].
    fn from(s: String) -> (r: DeString)
        ensures
            r@ == s@,
    {
        DeString::from_string(s)
    }
}

impl vstd::std_specs::convert::FromSpecImpl<String> for DeString {
    /// What `from` gives is stated by its own `ensures`, not as a whole value.
    open spec fn obeys_from_spec() -> bool {
        false
    }

    open spec fn from_spec(v: String) -> DeString {
        choose|d: DeString| d@ == v@
    }
}

impl From<DeString> for String {
    /// A `String` holding the characters of the `DeString`; see [`DeString::into_string`].
    fn from(d: DeString) -> (s: String)
        ensures
            s@ == d@,
    {
        d.into_string()
    }
}

impl vstd::std_specs::convert::FromSpecImpl<DeString> for String {
    /// What `from` gives is stated by its own `ensures`, not as a whole value.
    open spec fn obeys_from_spec() -> bool {
        false
    }

    open spec fn from_spec(v: DeString) -> String {
        choose|s: String| s@ == v@
    }
}

impl PartialEq<str> for DeString {
    /// A string equals a string slice when its bytes are the slice's UTF-8 bytes.
    fn eq(&self, other: &str) -> (b: bool) {
        self.eq_str(other)
    }
}

impl vstd::std_specs::cmp::PartialEqSpecImpl<str> for DeString {
    open spec fn obeys_eq_spec() -> bool {
        true
    }

    open spec fn eq_spec(&self, other: &str) -> bool {
        self.bytes() == encode_utf8(other@)
    }
}

impl PartialEq<String> for DeString {
    /// A string equals a `String` when its bytes are the `String`'s UTF-8 bytes.
    fn eq(&self, other: &String) -> (b: bool) {
        self.eq_str(other.as_str())
    }
}

impl vstd::std_specs::cmp::PartialEqSpecImpl<String> for DeString {
    open spec fn obeys_eq_spec() -> bool {
        true
    }

    open spec fn eq_spec(&self, other: &String) -> bool {
        self.bytes() == encode_utf8(other@)
    }
}

} // verus!

//! [`DeVec`], the double-ended byte buffer that backs a [`DeString`](crate::DeString).
//!
//! The live bytes occupy one contiguous region `buf[start..end]` of the allocation.
//! Free space is kept on both sides of that region, so bytes can be added or removed at
//! either end without shifting the others. When one side runs out of room the buffer is
//! reallocated and the live region is placed in the middle of the new allocation.
use vstd::prelude::*;
use vstd::slice::slice_subrange;

verus! {

/// A double-ended buffer of bytes with one contiguous live region.
pub struct DeVec {
    buf: Vec<u8>,
    start: usize,
    end: usize,
}

/// The largest number of bytes a single allocation may hold.
pub open spec fn max_alloc() -> int {
    isize::MAX as int
}

/// Where the live region starts after a reallocation to `new_cap` bytes that must leave
/// `front` free bytes before and `back` free bytes after `len` live bytes: the region,
/// with its required room, is centred in the allocation.
pub open spec fn middle_start(new_cap: int, len: int, front: int, back: int) -> int {
    front + (new_cap - (len + front + back)) / 2
}

impl View for DeVec {
    type V = Seq<u8>;

    closed spec fn view(&self) -> Seq<u8> {
        self.buf@.subrange(self.start as int, self.end as int)
    }
}

impl DeVec {
    /// The buffer's internal consistency: the live region lies inside the allocation.
    #[verifier::type_invariant]
    spec fn inv(self) -> bool {
        &&& self.start <= self.end <= self.buf@.len()
        &&& self.buf@.len() <= usize::MAX
    }

    /// The number of bytes in the allocation.
    pub closed spec fn spec_capacity(&self) -> nat {
        self.buf@.len()
    }

    /// The number of free bytes before the live region.
    pub closed spec fn front_room(&self) -> nat {
        self.start as nat
    }

    /// The number of free bytes after the live region.
    pub closed spec fn back_room(&self) -> nat {
        (self.buf@.len() - self.end) as nat
    }

    /// Creates an empty buffer that owns no allocation.
    pub fn new() -> (r: DeVec)
        ensures
            r@ == Seq::<u8>::empty(),
            r.spec_capacity() == 0,
    {
        let r = DeVec { buf: Vec::new(), start: 0, end: 0 };
        assert(r@ =~= Seq::<u8>::empty());
        r
    }

    /// Creates an empty buffer with room for `cap` bytes, half of it on each side.
    pub fn with_capacity(cap: usize) -> (r: DeVec)
        ensures
            r@ == Seq::<u8>::empty(),
            r.spec_capacity() == cap,
            r.front_room() == cap / 2,
            r.back_room() == cap - cap / 2,
    {
        let buf = vec![0u8; cap];
        let mid = cap / 2;
        let r = DeVec { buf, start: mid, end: mid };
        assert(r@ =~= Seq::<u8>::empty());
        r
    }

    /// Takes over the bytes of a vector; they become the live region, with no free room
    /// before it.
    pub fn from_vec(v: Vec<u8>) -> (r: DeVec)
        ensures
            r@ == v@,
            r.front_room() == 0,
            r.back_room() == 0,
            r.spec_capacity() == v@.len(),
    {
        let n = v.len();
        let r = DeVec { buf: v, start: 0, end: n };
        assert(r@ =~= v@);
        r
    }

    /// The number of live bytes.
    pub fn len(&self) -> (n: usize)
        ensures
            n == self@.len(),
            n <= self.spec_capacity(),
    {
        proof {
            use_type_invariant(self);
        }
        self.end - self.start
    }

    /// True when there are no live bytes.
    pub fn is_empty(&self) -> (b: bool)
        ensures
            b == (self@.len() == 0),
    {
        proof {
            use_type_invariant(self);
        }
        self.end == self.start
    }

    /// The number of bytes in the allocation.
    pub fn capacity(&self) -> (n: usize)
        ensures
            n == self.spec_capacity(),
            self@.len() + self.front_room() + self.back_room() == n,
    {
        proof {
            use_type_invariant(self);
        }
        self.buf.len()
    }

    /// The live bytes as one contiguous slice.
    pub fn as_slice(&self) -> (s: &[u8])
        ensures
            s@ == self@,
    {
        proof {
            use_type_invariant(self);
        }
        slice_subrange(self.buf.as_slice(), self.start, self.end)
    }

    /// The live byte at position `i`.
    pub fn get(&self, i: usize) -> (b: u8)
        requires
            i < self@.len(),
        ensures
            b == self@[i as int],
    {
        proof {
            use_type_invariant(self);
        }
        self.buf[self.start + i]
    }

    /// Takes the allocation and the bounds of the live region out of the buffer, leaving
    /// it empty.
    fn take_parts(&mut self) -> (r: (Vec<u8>, usize, usize))
        ensures
            r.1 <= r.2 <= r.0@.len(),
            r.0@.len() <= usize::MAX,
            r.0@.subrange(r.1 as int, r.2 as int) == old(self)@,
            r.0@.len() == old(self).spec_capacity(),
            r.1 == old(self).front_room(),
            r.0@.len() - r.2 == old(self).back_room(),
    {
        let mut tmp = DeVec::new();
        std::mem::swap(self, &mut tmp);
        proof {
            use_type_invariant(&tmp);
        }
        let DeVec { buf, start, end } = tmp;
        (buf, start, end)
    }

    /// Moves the live bytes into a new allocation with at least `front` free bytes before
    /// them and `back` free bytes after them, centring the region in the allocation.
    fn reallocate(&mut self, front: usize, back: usize)
        requires
            old(self)@.len() + front + back <= max_alloc(),
        ensures
            final(self)@ == old(self)@,
            final(self).front_room() >= front,
            final(self).back_room() >= back,
            final(self).front_room() == middle_start(
                final(self).spec_capacity() as int,
                old(self)@.len() as int,
                front as int,
                back as int,
            ),
    {
        proof {
            use_type_invariant(&*self);
        }
        let len = self.end - self.start;
        let needed = len + front + back;
        let new_cap: usize = if needed <= (isize::MAX as usize) / 2 {
            2 * needed
        } else {
            isize::MAX as usize
        };
        let new_start = front + (new_cap - needed) / 2;
        let mut new_buf = vec![0u8; new_cap];
        let mut i: usize = 0;
        while i < len
            invariant
                self.start <= self.end <= self.buf@.len(),
                len == self.end - self.start,
                i <= len,
                new_buf@.len() == new_cap,
                new_start + len <= new_cap,
                forall|k: int|
                    new_start <= k < new_start + i ==> #[trigger] new_buf@[k] == self.buf@[self.start
                        + k - new_start],
            decreases len - i,
        {
            new_buf[new_start + i] = self.buf[self.start + i];
            i = i + 1;
        }
        let ghost old_view = self@;
        *self = DeVec { buf: new_buf, start: new_start, end: new_start + len };
        assert(self@ =~= old_view);
    }

    /// Makes sure that at least `additional` bytes can be added at the back without
    /// reallocating.
    pub fn reserve_back(&mut self, additional: usize)
        requires
            old(self)@.len() + additional <= max_alloc(),
        ensures
            final(self)@ == old(self)@,
            final(self).back_room() >= additional,
            old(self).back_room() >= additional ==> *final(self) == *old(self),
    {
        proof {
            use_type_invariant(&*self);
        }
        if self.buf.len() - self.end < additional {
            self.reallocate(0, additional);
        }
    }

    /// Makes sure that at least `additional` bytes can be added at the front without
    /// reallocating.
    pub fn reserve_front(&mut self, additional: usize)
        requires
            old(self)@.len() + additional <= max_alloc(),
        ensures
            final(self)@ == old(self)@,
            final(self).front_room() >= additional,
            old(self).front_room() >= additional ==> *final(self) == *old(self),
    {
        proof {
            use_type_invariant(&*self);
        }
        if self.start < additional {
            self.reallocate(additional, 0);
        }
    }

    /// Appends a byte at the back.
    pub fn push_back(&mut self, b: u8)
        requires
            old(self)@.len() + 1 <= max_alloc(),
        ensures
            final(self)@ == old(self)@.push(b),
            old(self).back_room() >= 1 ==> final(self).spec_capacity() == old(self).spec_capacity()
                && final(self).back_room() == old(self).back_room() - 1
                && final(self).front_room() == old(self).front_room(),
    {
        proof {
            use_type_invariant(&*self);
        }
        self.reserve_back(1);
        let ghost before = self@;
        let (mut buf, start, end) = self.take_parts();
        buf[end] = b;
        *self = DeVec { buf, start, end: end + 1 };
        assert(self@ =~= before.push(b));
    }

    /// Prepends a byte at the front.
    pub fn push_front(&mut self, b: u8)
        requires
            old(self)@.len() + 1 <= max_alloc(),
        ensures
            final(self)@ == seq![b] + old(self)@,
            old(self).front_room() >= 1 ==> final(self).spec_capacity() == old(self).spec_capacity()
                && final(self).front_room() == old(self).front_room() - 1
                && final(self).back_room() == old(self).back_room(),
    {
        proof {
            use_type_invariant(&*self);
        }
        self.reserve_front(1);
        let ghost before = self@;
        let (mut buf, start, end) = self.take_parts();
        buf[start - 1] = b;
        *self = DeVec { buf, start: start - 1, end };
        assert(self@ =~= seq![b] + before);
    }

    /// Removes the first `n` live bytes; the space they held becomes room at the front.
    pub fn remove_front(&mut self, n: usize)
        requires
            n <= old(self)@.len(),
        ensures
            final(self)@ == old(self)@.subrange(n as int, old(self)@.len() as int),
            final(self).spec_capacity() == old(self).spec_capacity(),
    {
        proof {
            use_type_invariant(&*self);
        }
        let ghost before = self@;
        self.start = self.start + n;
        assert(self@ =~= before.subrange(n as int, before.len() as int));
    }

    /// Removes the last `n` live bytes; the space they held becomes room at the back.
    pub fn remove_back(&mut self, n: usize)
        requires
            n <= old(self)@.len(),
        ensures
            final(self)@ == old(self)@.subrange(0, old(self)@.len() - n),
            final(self).spec_capacity() == old(self).spec_capacity(),
    {
        proof {
            use_type_invariant(&*self);
        }
        let ghost before = self@;
        self.end = self.end - n;
        assert(self@ =~= before.subrange(0, before.len() - n));
    }

    /// Removes the last live byte and returns it, if there is one.
    pub fn pop_back(&mut self) -> (r: Option<u8>)
        ensures
            old(self)@.len() == 0 ==> r is None && final(self)@ == old(self)@,
            old(self)@.len() > 0 ==> r == Some(old(self)@.last()) && final(self)@ == old(
                self,
            )@.drop_last(),
            final(self).spec_capacity() == old(self).spec_capacity(),
    {
        proof {
            use_type_invariant(&*self);
        }
        if self.end == self.start {
            return None;
        }
        let b = self.buf[self.end - 1];
        self.remove_back(1);
        Some(b)
    }

    /// Removes the first live byte and returns it, if there is one.
    pub fn pop_front(&mut self) -> (r: Option<u8>)
        ensures
            old(self)@.len() == 0 ==> r is None && final(self)@ == old(self)@,
            old(self)@.len() > 0 ==> r == Some(old(self)@[0]) && final(self)@ == old(
                self,
            )@.drop_first(),
            final(self).spec_capacity() == old(self).spec_capacity(),
    {
        proof {
            use_type_invariant(&*self);
        }
        if self.end == self.start {
            return None;
        }
        let b = self.buf[self.start];
        self.remove_front(1);
        Some(b)
    }

    /// Removes the live bytes at positions `from..to`, closing the gap by moving the
    /// bytes after it towards the front.
    pub fn remove_range(&mut self, from: usize, to: usize)
        requires
            from <= to <= old(self)@.len(),
        ensures
            final(self)@ == old(self)@.subrange(0, from as int) + old(self)@.subrange(
                to as int,
                old(self)@.len() as int,
            ),
            final(self).spec_capacity() == old(self).spec_capacity(),
    {
        proof {
            use_type_invariant(&*self);
        }
        let ghost before = self@;
        let (mut buf, start, end) = self.take_parts();
        let ghost old_buf = buf@;
        let dst0 = start + from;
        let src0 = start + to;
        let tail = end - src0;
        let mut i: usize = 0;
        while i < tail
            invariant
                old_buf.len() == buf@.len(),
                old_buf.len() <= usize::MAX,
                dst0 <= src0,
                src0 + tail <= old_buf.len(),
                i <= tail,
                forall|k: int| 0 <= k < dst0 ==> buf@[k] == old_buf[k],
                forall|k: int|
                    dst0 <= k < dst0 + i ==> #[trigger] buf@[k] == old_buf[k + src0 - dst0],
                forall|k: int| dst0 + i <= k < old_buf.len() ==> buf@[k] == old_buf[k],
            decreases tail - i,
        {
            let b = buf[src0 + i];
            buf[dst0 + i] = b;
            i = i + 1;
        }
        *self = DeVec { buf, start, end: dst0 + tail };
        assert(self@ =~= before.subrange(0, from as int) + before.subrange(
            to as int,
            before.len() as int,
        ));
    }

    /// Removes every live byte; the allocation is kept and its room is split evenly
    /// between the two sides.
    pub fn clear(&mut self)
        ensures
            final(self)@ == Seq::<u8>::empty(),
            final(self).spec_capacity() == old(self).spec_capacity(),
            final(self).front_room() == final(self).spec_capacity() / 2,
            final(self).back_room() == final(self).spec_capacity() - final(self).spec_capacity() / 2,
    {
        proof {
            use_type_invariant(&*self);
        }
        let (buf, _, _) = self.take_parts();
        let mid = buf.len() / 2;
        *self = DeVec { buf, start: mid, end: mid };
        assert(self@ =~= Seq::<u8>::empty());
    }
}

} // verus!

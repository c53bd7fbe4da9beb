//! An in-memory byte source: a buffer and a position in it.

use vstd::prelude::*;
use vstd::slice::slice_subrange;

verus! {

/// A buffer that is read from front to back. Its view is the part that has
/// not been read yet.
#[derive(Debug)]
pub struct Cursor {
    data: Vec<u8>,
    pos: usize,
}

impl View for Cursor {
    type V = Seq<u8>;

    closed spec fn view(&self) -> Seq<u8> {
        if self.pos <= self.data@.len() {
            self.data@.skip(self.pos as int)
        } else {
            Seq::empty()
        }
    }
}

impl Cursor {
    #[verifier::type_invariant]
    spec fn inv(self) -> bool {
        self.pos <= self.data@.len()
    }

    /// What is left of a buffer fits the size type.
    pub proof fn lemma_len(&self)
        ensures
            self@.len() <= usize::MAX,
    {
        assert(self.data.len() <= usize::MAX);
    }

    /// The cursor after `amt` bytes have been passed over, or all that are
    /// left if those are fewer.
    pub closed spec fn consumed(self, amt: usize) -> Cursor {
        if self.pos <= self.data@.len() {
            Cursor {
                data: self.data,
                pos: (self.pos + vstd::math::min(amt as int, self.data@.len() - self.pos)) as usize,
            }
        } else {
            self
        }
    }

    /// Passing over bytes takes them away from what is left.
    pub proof fn lemma_consumed(self, amt: usize)
        ensures
            self.consumed(amt)@ == self@.skip(vstd::math::min(amt as int, self@.len() as int)),
    {
        assert(self.data.len() <= usize::MAX);
        assert(self.consumed(amt)@ =~= self@.skip(vstd::math::min(amt as int, self@.len() as int)));
    }

    /// A cursor at the start of `data`.
    pub fn new(data: Vec<u8>) -> (c: Cursor)
        ensures
            c@ == data@,
    {
        Cursor { data, pos: 0 }
    }

    /// The number of bytes that are left.
    pub fn remaining(&self) -> (n: usize)
        ensures
            n == self@.len(),
    {
        proof {
            use_type_invariant(self);
        }
        self.data.len() - self.pos
    }

    /// Copies the next bytes into `buf`, as many as fit and are left, and
    /// moves past them. Returns their number.
    pub fn read(&mut self, buf: &mut [u8]) -> (n: usize)
        ensures
            n == vstd::math::min(old(buf)@.len() as int, old(self)@.len() as int),
            final(buf)@ == old(self)@.take(n as int) + old(buf)@.skip(n as int),
            final(self)@ == old(self)@.skip(n as int),
            *final(self) == old(self).consumed(old(buf)@.len() as usize),
    {
        proof {
            use_type_invariant(&*self);
        }
        let avail: usize = self.data.len() - self.pos;
        let n: usize = if buf.len() <= avail {
            buf.len()
        } else {
            avail
        };
        let mut i: usize = 0;
        while i < n
            invariant
                i <= n,
                n <= buf@.len(),
                buf@.len() == old(buf)@.len(),
                self.pos + n <= self.data@.len() <= usize::MAX,
                *self == *old(self),
                forall|j: int| 0 <= j < i ==> buf@[j] == self.data@[self.pos + j],
                forall|j: int| i <= j < buf@.len() ==> buf@[j] == old(buf)@[j],
            decreases n - i,
        {
            buf[i] = self.data[self.pos + i];
            i += 1;
        }
        self.pos = self.pos + n;
        assert(buf@ =~= old(self)@.take(n as int) + old(buf)@.skip(n as int));
        assert(self@ =~= old(self)@.skip(n as int));
        n
    }

    /// The bytes that are left, without moving.
    pub fn fill_buf(&self) -> (out: &[u8])
        ensures
            out@ == self@,
    {
        proof {
            use_type_invariant(self);
        }
        let out = slice_subrange(self.data.as_slice(), self.pos, self.data.len());
        assert(out@ =~= self@);
        out
    }

    /// Moves past `amt` bytes, or past all that are left if those are fewer.
    pub fn consume(&mut self, amt: usize)
        ensures
            *final(self) == old(self).consumed(amt),
            final(self)@ == old(self)@.skip(vstd::math::min(amt as int, old(self)@.len() as int)),
    {
        proof {
            use_type_invariant(&*self);
        }
        let avail: usize = self.data.len() - self.pos;
        let k: usize = if amt <= avail {
            amt
        } else {
            avail
        };
        self.pos = self.pos + k;
        assert(self@ =~= old(self)@.skip(k as int));
    }
}

} // verus!

//! A read position over an immutable byte slice.
use vstd::prelude::*;

use crate::error::Error;

verus! {

/// A read-only view over a byte slice with a read position that only moves forward.
pub struct Cursor<'a> {
    data: &'a [u8],
    pos: usize,
}

impl<'a> Cursor<'a> {
    /// The bytes the cursor reads from.
    pub closed spec fn data(&self) -> Seq<u8> {
        self.data@
    }

    /// How many bytes have been read so far.
    pub closed spec fn pos(&self) -> nat {
        self.pos as nat
    }

    /// The bytes that are still to be read.
    pub open spec fn rest(&self) -> Seq<u8> {
        self.data().subrange(self.pos() as int, self.data().len() as int)
    }

    /// The read position never passes the end of the data.
    #[verifier::type_invariant]
    pub open spec fn inv(&self) -> bool {
        self.pos() <= self.data().len()
    }

    /// A cursor at the start of `data`.
    pub fn new(data: &'a [u8]) -> (r: Cursor<'a>)
        ensures
            r.data() == data@,
            r.pos() == 0,
    {
        Cursor { data, pos: 0 }
    }

    /// The current read position.
    pub fn position(&self) -> (r: usize)
        ensures
            r == self.pos(),
    {
        self.pos
    }

    /// The number of bytes left to read.
    pub fn remaining(&self) -> (r: usize)
        ensures
            r == self.rest().len(),
    {
        proof {
            use_type_invariant(self);
        }
        self.data.len() - self.pos
    }

    /// The bytes read since position `start`.
    pub fn read_since(&self, start: usize) -> (r: &'a [u8])
        requires
            start <= self.pos(),
        ensures
            r@ == self.data().subrange(start as int, self.pos() as int),
    {
        proof {
            use_type_invariant(self);
        }
        vstd::slice::slice_subrange(self.data, start, self.pos)
    }

    /// Reads exactly `n` bytes, or fails without moving when fewer are left.
    pub fn read_exact(&mut self, n: usize) -> (r: Result<&'a [u8], Error>)
        ensures
            final(self).data() == old(self).data(),
            n <= old(self).rest().len() ==> r is Ok
                && r->Ok_0@ == old(self).rest().take(n as int)
                && final(self).pos() == old(self).pos() + n,
            n > old(self).rest().len() ==> r == Err::<&'a [u8], Error>(
                Error::UnexpectedEof,
            ) && final(self).pos() == old(self).pos(),
    {
        proof {
            use_type_invariant(&*self);
        }
        if n > self.data.len() - self.pos {
            return Err(Error::UnexpectedEof);
        }
        let start = self.pos;
        let out = vstd::slice::slice_subrange(self.data, start, start + n);
        self.pos = start + n;
        assert(out@ =~= old(self).rest().take(n as int));
        Ok(out)
    }
}

} // verus!

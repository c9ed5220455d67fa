//! Big-endian (network order) encoding and decoding of structured values.
//!
//! A value is written to a growable byte sink by [`ToNetworkOrder`] and read back from a
//! [`cursor::Cursor`] by [`FromNetworkOrder`]. The destination of a decode is pre-shaped:
//! its current value tells how many bytes the rule consumes.
use vstd::prelude::*;

mod additional;
pub mod composed;
pub mod cursor;
pub mod endian;
pub mod error;
pub mod generics;
pub mod laws;
pub mod primitive;
pub mod union;

use crate::cursor::Cursor;
use crate::error::Error;

verus! {

/// Copies a value to a network-order byte buffer.
pub trait ToNetworkOrder {
    /// The bytes that represent this value on the wire. An impl that does not state them
    /// leaves them unknown.
    open spec fn wire(&self) -> Seq<u8> {
        arbitrary()
    }

    /// Appends the value's bytes to `buffer` and returns how many were written.
    fn serialize_to(&self, buffer: &mut Vec<u8>) -> (r: Result<usize, Error>)
        ensures
            final(buffer)@ == old(buffer)@ + self.wire(),
            r == Ok::<usize, Error>(self.wire().len() as usize),
    ;
}

/// Reads a value from a network-order byte stream into a pre-shaped destination.
pub trait FromNetworkOrder: Sized {
    /// Decoding `input` into a destination shaped as `self` can give `v`, taking the first
    /// `n` bytes of `input`. An impl that does not state this relation leaves it unknown.
    open spec fn decodes_to(&self, input: Seq<u8>, v: Self, n: nat) -> bool {
        arbitrary()
    }

    /// Decoding `input` into a destination shaped as `self` can fail with `e`, leaving the
    /// destination as `v` after taking the first `n` bytes of `input`. An impl that does not
    /// state this relation leaves it unknown.
    open spec fn fails_with(&self, input: Seq<u8>, e: Error, v: Self, n: nat) -> bool {
        arbitrary()
    }

    /// Overwrites `self` with the value read from `buffer`, advancing it past the bytes used.
    /// The read position only moves forward, on failure too.
    fn deserialize_from(&mut self, buffer: &mut Cursor) -> (r: Result<(), Error>)
        ensures
            final(buffer).data() == old(buffer).data(),
            r is Ok ==> old(buffer).pos() <= final(buffer).pos() && old(self).decodes_to(
                old(buffer).rest(),
                *final(self),
                (final(buffer).pos() - old(buffer).pos()) as nat,
            ),
            r is Err ==> old(buffer).pos() <= final(buffer).pos() && old(self).fails_with(
                old(buffer).rest(),
                r->Err_0,
                *final(self),
                (final(buffer).pos() - old(buffer).pos()) as nat,
            ),
    ;
}

} // verus!

//! Rules for types of the `either` and `bytes` crates.
use bytes::Bytes;
use either::Either;
use vstd::prelude::*;

use crate::error::Error;
use crate::endian::append_bytes;
use crate::ToNetworkOrder;

verus! {

#[verifier::external_type_specification]
#[verifier::reject_recursive_types(L)]
#[verifier::reject_recursive_types(R)]
pub struct ExEither<L, R>(Either<L, R>);

#[verifier::external_type_specification]
#[verifier::external_body]
pub struct ExBytes(Bytes);

/// The bytes that a `Bytes` buffer holds, in order.
pub uninterp spec fn bytes_held(b: Bytes) -> Seq<u8>;

/// Relies on `<Bytes as AsRef<[u8]>>::as_ref`: a slice over the bytes the buffer holds.
#[verifier::external_body]
fn bytes_as_slice(b: &Bytes) -> (r: &[u8])
    ensures
        r@ == bytes_held(*b),
{
    b.as_ref()
}

/// Only the active side is written, by its own rule; nothing says which side it is.
impl<L: ToNetworkOrder, R: ToNetworkOrder> ToNetworkOrder for Either<L, R> {
    open spec fn wire(&self) -> Seq<u8> {
        match self {
            Either::Left(l) => l.wire(),
            Either::Right(r) => r.wire(),
        }
    }

    fn serialize_to(&self, buffer: &mut Vec<u8>) -> (r: Result<usize, Error>) {
        match self {
            Either::Left(l) => l.serialize_to(buffer),
            Either::Right(r) => r.serialize_to(buffer),
        }
    }
}

/// The bytes are written as they are, with no length in front of them.
impl ToNetworkOrder for Bytes {
    open spec fn wire(&self) -> Seq<u8> {
        bytes_held(*self)
    }

    fn serialize_to(&self, buffer: &mut Vec<u8>) -> (r: Result<usize, Error>) {
        let bytes = bytes_as_slice(self);
        append_bytes(buffer, bytes);
        Ok(bytes.len())
    }
}

} // verus!

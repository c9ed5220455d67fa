//! Rules for fixed-width scalars, code points, and encode-only text and byte runs.
use vstd::prelude::*;
use vstd::utf8::{encode_utf8, is_scalar};

use crate::cursor::Cursor;
use crate::endian::{
    append_bytes, be_bytes, be_value, lemma_be_bytes_len, lemma_be_value_bound, lemma_pow256_widths,
    lemma_signed_of_range, put_signed, put_unsigned, signed_of, take_signed,
    take_unsigned, twos,
};
use crate::error::Error;
use crate::{FromNetworkOrder, ToNetworkOrder};

verus! {

/// `input` starts with `width` bytes that hold the unsigned number `v`, and `n` is `width`.
pub open spec fn reads_unsigned(input: Seq<u8>, width: nat, v: int, n: nat) -> bool {
    &&& width <= input.len()
    &&& n == width
    &&& v == be_value(input.take(width as int))
}

/// `input` starts with `width` bytes that hold the two's-complement number `v`, and `n` is
/// `width`.
pub open spec fn reads_signed(input: Seq<u8>, width: nat, v: int, n: nat) -> bool {
    &&& width <= input.len()
    &&& n == width
    &&& v == signed_of(be_value(input.take(width as int)), width)
}

/// `input` is shorter than `width` bytes and `e` says that the input ran out. A scalar
/// destination is then left as it was and nothing is taken.
pub open spec fn too_short(input: Seq<u8>, width: nat, e: Error) -> bool {
    input.len() < width && e == Error::UnexpectedEof
}

impl ToNetworkOrder for u8 {
    open spec fn wire(&self) -> Seq<u8> {
        be_bytes(*self as nat, 1)
    }

    fn serialize_to(&self, buffer: &mut Vec<u8>) -> (r: Result<usize, Error>) {
        proof {
            lemma_pow256_widths();
            lemma_be_bytes_len(*self as nat, 1);
        }
        put_unsigned(buffer, *self as u128, 1);
        Ok(1)
    }
}

impl FromNetworkOrder for u8 {
    open spec fn decodes_to(&self, input: Seq<u8>, v: u8, n: nat) -> bool {
        reads_unsigned(input, 1, v as int, n)
    }

    open spec fn fails_with(&self, input: Seq<u8>, e: Error, v: u8, n: nat) -> bool {
        too_short(input, 1, e) && v == *self && n == 0
    }

    fn deserialize_from(&mut self, buffer: &mut Cursor) -> (r: Result<(), Error>) {
        proof {
            lemma_pow256_widths();
        }
        match take_unsigned(buffer, 1) {
            Ok(u) => {
                proof {
                    lemma_be_value_bound(old(buffer).rest().take(1));
                }
                *self = u as u8;
                Ok(())
            },
            Err(e) => Err(e),
        }
    }
}

impl ToNetworkOrder for u16 {
    open spec fn wire(&self) -> Seq<u8> {
        be_bytes(*self as nat, 2)
    }

    fn serialize_to(&self, buffer: &mut Vec<u8>) -> (r: Result<usize, Error>) {
        proof {
            lemma_pow256_widths();
            lemma_be_bytes_len(*self as nat, 2);
        }
        put_unsigned(buffer, *self as u128, 2);
        Ok(2)
    }
}

impl FromNetworkOrder for u16 {
    open spec fn decodes_to(&self, input: Seq<u8>, v: u16, n: nat) -> bool {
        reads_unsigned(input, 2, v as int, n)
    }

    open spec fn fails_with(&self, input: Seq<u8>, e: Error, v: u16, n: nat) -> bool {
        too_short(input, 2, e) && v == *self && n == 0
    }

    fn deserialize_from(&mut self, buffer: &mut Cursor) -> (r: Result<(), Error>) {
        proof {
            lemma_pow256_widths();
        }
        match take_unsigned(buffer, 2) {
            Ok(u) => {
                proof {
                    lemma_be_value_bound(old(buffer).rest().take(2));
                }
                *self = u as u16;
                Ok(())
            },
            Err(e) => Err(e),
        }
    }
}

impl ToNetworkOrder for u32 {
    open spec fn wire(&self) -> Seq<u8> {
        be_bytes(*self as nat, 4)
    }

    fn serialize_to(&self, buffer: &mut Vec<u8>) -> (r: Result<usize, Error>) {
        proof {
            lemma_pow256_widths();
            lemma_be_bytes_len(*self as nat, 4);
        }
        put_unsigned(buffer, *self as u128, 4);
        Ok(4)
    }
}

impl FromNetworkOrder for u32 {
    open spec fn decodes_to(&self, input: Seq<u8>, v: u32, n: nat) -> bool {
        reads_unsigned(input, 4, v as int, n)
    }

    open spec fn fails_with(&self, input: Seq<u8>, e: Error, v: u32, n: nat) -> bool {
        too_short(input, 4, e) && v == *self && n == 0
    }

    fn deserialize_from(&mut self, buffer: &mut Cursor) -> (r: Result<(), Error>) {
        proof {
            lemma_pow256_widths();
        }
        match take_unsigned(buffer, 4) {
            Ok(u) => {
                proof {
                    lemma_be_value_bound(old(buffer).rest().take(4));
                }
                *self = u as u32;
                Ok(())
            },
            Err(e) => Err(e),
        }
    }
}

impl ToNetworkOrder for u64 {
    open spec fn wire(&self) -> Seq<u8> {
        be_bytes(*self as nat, 8)
    }

    fn serialize_to(&self, buffer: &mut Vec<u8>) -> (r: Result<usize, Error>) {
        proof {
            lemma_pow256_widths();
            lemma_be_bytes_len(*self as nat, 8);
        }
        put_unsigned(buffer, *self as u128, 8);
        Ok(8)
    }
}

impl FromNetworkOrder for u64 {
    open spec fn decodes_to(&self, input: Seq<u8>, v: u64, n: nat) -> bool {
        reads_unsigned(input, 8, v as int, n)
    }

    open spec fn fails_with(&self, input: Seq<u8>, e: Error, v: u64, n: nat) -> bool {
        too_short(input, 8, e) && v == *self && n == 0
    }

    fn deserialize_from(&mut self, buffer: &mut Cursor) -> (r: Result<(), Error>) {
        proof {
            lemma_pow256_widths();
        }
        match take_unsigned(buffer, 8) {
            Ok(u) => {
                proof {
                    lemma_be_value_bound(old(buffer).rest().take(8));
                }
                *self = u as u64;
                Ok(())
            },
            Err(e) => Err(e),
        }
    }
}

impl ToNetworkOrder for u128 {
    open spec fn wire(&self) -> Seq<u8> {
        be_bytes(*self as nat, 16)
    }

    fn serialize_to(&self, buffer: &mut Vec<u8>) -> (r: Result<usize, Error>) {
        proof {
            lemma_pow256_widths();
            lemma_be_bytes_len(*self as nat, 16);
        }
        put_unsigned(buffer, *self as u128, 16);
        Ok(16)
    }
}

impl FromNetworkOrder for u128 {
    open spec fn decodes_to(&self, input: Seq<u8>, v: u128, n: nat) -> bool {
        reads_unsigned(input, 16, v as int, n)
    }

    open spec fn fails_with(&self, input: Seq<u8>, e: Error, v: u128, n: nat) -> bool {
        too_short(input, 16, e) && v == *self && n == 0
    }

    fn deserialize_from(&mut self, buffer: &mut Cursor) -> (r: Result<(), Error>) {
        proof {
            lemma_pow256_widths();
        }
        match take_unsigned(buffer, 16) {
            Ok(u) => {
                proof {
                    lemma_be_value_bound(old(buffer).rest().take(16));
                }
                *self = u as u128;
                Ok(())
            },
            Err(e) => Err(e),
        }
    }
}

impl ToNetworkOrder for i8 {
    open spec fn wire(&self) -> Seq<u8> {
        be_bytes(twos(*self as int, 1), 1)
    }

    fn serialize_to(&self, buffer: &mut Vec<u8>) -> (r: Result<usize, Error>) {
        proof {
            lemma_pow256_widths();
            lemma_be_bytes_len(twos(*self as int, 1), 1);
        }
        put_signed(buffer, *self as i128, 1);
        Ok(1)
    }
}

impl FromNetworkOrder for i8 {
    open spec fn decodes_to(&self, input: Seq<u8>, v: i8, n: nat) -> bool {
        reads_signed(input, 1, v as int, n)
    }

    open spec fn fails_with(&self, input: Seq<u8>, e: Error, v: i8, n: nat) -> bool {
        too_short(input, 1, e) && v == *self && n == 0
    }

    fn deserialize_from(&mut self, buffer: &mut Cursor) -> (r: Result<(), Error>) {
        proof {
            lemma_pow256_widths();
        }
        match take_signed(buffer, 1) {
            Ok(v) => {
                proof {
                    let u = be_value(old(buffer).rest().take(1));
                    lemma_be_value_bound(old(buffer).rest().take(1));
                    lemma_signed_of_range(u, 1);
                }
                *self = v as i8;
                Ok(())
            },
            Err(e) => Err(e),
        }
    }
}

impl ToNetworkOrder for i16 {
    open spec fn wire(&self) -> Seq<u8> {
        be_bytes(twos(*self as int, 2), 2)
    }

    fn serialize_to(&self, buffer: &mut Vec<u8>) -> (r: Result<usize, Error>) {
        proof {
            lemma_pow256_widths();
            lemma_be_bytes_len(twos(*self as int, 2), 2);
        }
        put_signed(buffer, *self as i128, 2);
        Ok(2)
    }
}

impl FromNetworkOrder for i16 {
    open spec fn decodes_to(&self, input: Seq<u8>, v: i16, n: nat) -> bool {
        reads_signed(input, 2, v as int, n)
    }

    open spec fn fails_with(&self, input: Seq<u8>, e: Error, v: i16, n: nat) -> bool {
        too_short(input, 2, e) && v == *self && n == 0
    }

    fn deserialize_from(&mut self, buffer: &mut Cursor) -> (r: Result<(), Error>) {
        proof {
            lemma_pow256_widths();
        }
        match take_signed(buffer, 2) {
            Ok(v) => {
                proof {
                    let u = be_value(old(buffer).rest().take(2));
                    lemma_be_value_bound(old(buffer).rest().take(2));
                    lemma_signed_of_range(u, 2);
                }
                *self = v as i16;
                Ok(())
            },
            Err(e) => Err(e),
        }
    }
}

impl ToNetworkOrder for i32 {
    open spec fn wire(&self) -> Seq<u8> {
        be_bytes(twos(*self as int, 4), 4)
    }

    fn serialize_to(&self, buffer: &mut Vec<u8>) -> (r: Result<usize, Error>) {
        proof {
            lemma_pow256_widths();
            lemma_be_bytes_len(twos(*self as int, 4), 4);
        }
        put_signed(buffer, *self as i128, 4);
        Ok(4)
    }
}

impl FromNetworkOrder for i32 {
    open spec fn decodes_to(&self, input: Seq<u8>, v: i32, n: nat) -> bool {
        reads_signed(input, 4, v as int, n)
    }

    open spec fn fails_with(&self, input: Seq<u8>, e: Error, v: i32, n: nat) -> bool {
        too_short(input, 4, e) && v == *self && n == 0
    }

    fn deserialize_from(&mut self, buffer: &mut Cursor) -> (r: Result<(), Error>) {
        proof {
            lemma_pow256_widths();
        }
        match take_signed(buffer, 4) {
            Ok(v) => {
                proof {
                    let u = be_value(old(buffer).rest().take(4));
                    lemma_be_value_bound(old(buffer).rest().take(4));
                    lemma_signed_of_range(u, 4);
                }
                *self = v as i32;
                Ok(())
            },
            Err(e) => Err(e),
        }
    }
}

impl ToNetworkOrder for i64 {
    open spec fn wire(&self) -> Seq<u8> {
        be_bytes(twos(*self as int, 8), 8)
    }

    fn serialize_to(&self, buffer: &mut Vec<u8>) -> (r: Result<usize, Error>) {
        proof {
            lemma_pow256_widths();
            lemma_be_bytes_len(twos(*self as int, 8), 8);
        }
        put_signed(buffer, *self as i128, 8);
        Ok(8)
    }
}

impl FromNetworkOrder for i64 {
    open spec fn decodes_to(&self, input: Seq<u8>, v: i64, n: nat) -> bool {
        reads_signed(input, 8, v as int, n)
    }

    open spec fn fails_with(&self, input: Seq<u8>, e: Error, v: i64, n: nat) -> bool {
        too_short(input, 8, e) && v == *self && n == 0
    }

    fn deserialize_from(&mut self, buffer: &mut Cursor) -> (r: Result<(), Error>) {
        proof {
            lemma_pow256_widths();
        }
        match take_signed(buffer, 8) {
            Ok(v) => {
                proof {
                    let u = be_value(old(buffer).rest().take(8));
                    lemma_be_value_bound(old(buffer).rest().take(8));
                    lemma_signed_of_range(u, 8);
                }
                *self = v as i64;
                Ok(())
            },
            Err(e) => Err(e),
        }
    }
}

impl ToNetworkOrder for i128 {
    open spec fn wire(&self) -> Seq<u8> {
        be_bytes(twos(*self as int, 16), 16)
    }

    fn serialize_to(&self, buffer: &mut Vec<u8>) -> (r: Result<usize, Error>) {
        proof {
            lemma_pow256_widths();
            lemma_be_bytes_len(twos(*self as int, 16), 16);
        }
        put_signed(buffer, *self as i128, 16);
        Ok(16)
    }
}

impl FromNetworkOrder for i128 {
    open spec fn decodes_to(&self, input: Seq<u8>, v: i128, n: nat) -> bool {
        reads_signed(input, 16, v as int, n)
    }

    open spec fn fails_with(&self, input: Seq<u8>, e: Error, v: i128, n: nat) -> bool {
        too_short(input, 16, e) && v == *self && n == 0
    }

    fn deserialize_from(&mut self, buffer: &mut Cursor) -> (r: Result<(), Error>) {
        proof {
            lemma_pow256_widths();
        }
        match take_signed(buffer, 16) {
            Ok(v) => {
                proof {
                    let u = be_value(old(buffer).rest().take(16));
                    lemma_be_value_bound(old(buffer).rest().take(16));
                    lemma_signed_of_range(u, 16);
                }
                *self = v as i128;
                Ok(())
            },
            Err(e) => Err(e),
        }
    }
}

/// Relies on `char::from_u32`: `Some` exactly when `u` is a Unicode scalar value, and then the
/// character with that value.
#[verifier::external_body]
fn char_from_scalar(u: u32) -> (r: Option<char>)
    ensures
        r is Some <==> is_scalar(u),
        r is Some ==> r->Some_0 as u32 == u,
{
    char::from_u32(u)
}

/// A code point is written as its 32-bit scalar value.
impl ToNetworkOrder for char {
    open spec fn wire(&self) -> Seq<u8> {
        be_bytes((*self as u32) as nat, 4)
    }

    fn serialize_to(&self, buffer: &mut Vec<u8>) -> (r: Result<usize, Error>) {
        proof {
            lemma_pow256_widths();
            lemma_be_bytes_len((*self as u32) as nat, 4);
        }
        let u = *self as u32;
        put_unsigned(buffer, u as u128, 4);
        Ok(4)
    }
}

/// A code point is read as a 32-bit number, which has to be a Unicode scalar value. A number
/// that is none is still taken from the input.
impl FromNetworkOrder for char {
    open spec fn decodes_to(&self, input: Seq<u8>, v: char, n: nat) -> bool {
        reads_unsigned(input, 4, (v as u32) as int, n)
    }

    open spec fn fails_with(&self, input: Seq<u8>, e: Error, v: char, n: nat) -> bool {
        &&& v == *self
        &&& {
            ||| too_short(input, 4, e) && n == 0
            ||| {
                &&& 4 <= input.len()
                &&& !is_scalar(be_value(input.take(4)) as u32)
                &&& e == Error::InvalidCodePoint(be_value(input.take(4)) as u32)
                &&& n == 4
            }
        }
    }

    fn deserialize_from(&mut self, buffer: &mut Cursor) -> (r: Result<(), Error>) {
        proof {
            lemma_pow256_widths();
        }
        match take_unsigned(buffer, 4) {
            Ok(u) => {
                proof {
                    lemma_be_value_bound(old(buffer).rest().take(4));
                }
                let u = u as u32;
                match char_from_scalar(u) {
                    Some(c) => {
                        *self = c;
                        Ok(())
                    },
                    None => Err(Error::InvalidCodePoint(u)),
                }
            },
            Err(e) => Err(e),
        }
    }
}

/// A byte run is written as it is, with no length and no terminator.
impl ToNetworkOrder for [u8] {
    open spec fn wire(&self) -> Seq<u8> {
        self@
    }

    fn serialize_to(&self, buffer: &mut Vec<u8>) -> (r: Result<usize, Error>) {
        append_bytes(buffer, self);
        Ok(self.len())
    }
}

/// Text is written as its UTF-8 bytes, with no length and no terminator.
impl<'a> ToNetworkOrder for &'a str {
    open spec fn wire(&self) -> Seq<u8> {
        encode_utf8(self@)
    }

    fn serialize_to(&self, buffer: &mut Vec<u8>) -> (r: Result<usize, Error>) {
        let bytes = self.as_bytes();
        append_bytes(buffer, bytes);
        Ok(bytes.len())
    }
}

/// Text is written as its UTF-8 bytes, with no length and no terminator.
impl ToNetworkOrder for String {
    open spec fn wire(&self) -> Seq<u8> {
        encode_utf8(self@)
    }

    fn serialize_to(&self, buffer: &mut Vec<u8>) -> (r: Result<usize, Error>) {
        let bytes = self.as_str().as_bytes();
        append_bytes(buffer, bytes);
        Ok(bytes.len())
    }
}

/// The unit value has no bytes.
impl ToNetworkOrder for () {
    open spec fn wire(&self) -> Seq<u8> {
        Seq::empty()
    }

    fn serialize_to(&self, buffer: &mut Vec<u8>) -> (r: Result<usize, Error>) {
        assert(buffer@ =~= buffer@ + Seq::<u8>::empty());
        Ok(0)
    }
}

} // verus!

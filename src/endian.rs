//! Big-endian byte strings of unsigned and two's-complement numbers.
use vstd::prelude::*;
use byteorder::{BigEndian, ByteOrder};

use crate::cursor::Cursor;
use crate::error::Error;

verus! {

/// 256 to the power `width`: the number of values that `width` bytes can hold.
pub open spec fn pow256(width: nat) -> nat
    decreases width,
{
    if width == 0 {
        1
    } else {
        256 * pow256((width - 1) as nat)
    }
}

/// The low `width` bytes of `n`, most significant first.
pub open spec fn be_bytes(n: nat, width: nat) -> Seq<u8>
    decreases width,
{
    if width == 0 {
        Seq::empty()
    } else {
        be_bytes(n / 256, (width - 1) as nat).push((n % 256) as u8)
    }
}

/// The number that the bytes `s` hold, most significant first.
pub open spec fn be_value(s: Seq<u8>) -> nat
    decreases s.len(),
{
    if s.len() == 0 {
        0
    } else {
        (be_value(s.drop_last()) * 256 + s.last()) as nat
    }
}

/// The two's-complement pattern of `v` in `width` bytes, as an unsigned number.
pub open spec fn twos(v: int, width: nat) -> nat {
    if v >= 0 {
        v as nat
    } else {
        (v + pow256(width)) as nat
    }
}

/// The signed number whose `width`-byte two's-complement pattern is `u`.
pub open spec fn signed_of(u: nat, width: nat) -> int {
    if 2 * u < pow256(width) {
        u as int
    } else {
        u - pow256(width)
    }
}

/// Some value always fits: `pow256` is positive.
pub proof fn lemma_pow256_pos(width: nat)
    ensures
        pow256(width) >= 1,
    decreases width,
{
    if width > 0 {
        lemma_pow256_pos((width - 1) as nat);
    }
}

/// The bytes of a number in `width` bytes are `width` bytes long.
pub proof fn lemma_be_bytes_len(n: nat, width: nat)
    ensures
        be_bytes(n, width).len() == width,
    decreases width,
{
    if width > 0 {
        lemma_be_bytes_len(n / 256, (width - 1) as nat);
    }
}

/// The bytes of a number read back give the number, reduced to what the width holds.
pub proof fn lemma_be_value_of_bytes(n: nat, width: nat)
    ensures
        be_value(be_bytes(n, width)) == n % pow256(width),
    decreases width,
{
    lemma_be_bytes_len(n, width);
    if width > 0 {
        let w1 = (width - 1) as nat;
        lemma_be_value_of_bytes(n / 256, w1);
        lemma_pow256_pos(w1);
        assert(be_bytes(n, width).drop_last() =~= be_bytes(n / 256, w1));
        vstd::arithmetic::div_mod::lemma_breakdown(n as int, 256, pow256(w1) as int);
    } else {
        assert(n % 1 == 0) by (nonlinear_arith);
    }
}

/// A number read from `width` bytes is below `pow256(width)`.
pub proof fn lemma_be_value_bound(s: Seq<u8>)
    ensures
        be_value(s) < pow256(s.len()),
    decreases s.len(),
{
    if s.len() > 0 {
        let p = pow256((s.len() - 1) as nat);
        lemma_be_value_bound(s.drop_last());
        let v = be_value(s.drop_last());
        assert(v * 256 + s.last() < p * 256) by (nonlinear_arith)
            requires v < p, s.last() < 256;
    }
}

/// Writing back the number that bytes hold gives the same bytes.
pub proof fn lemma_be_bytes_of_value(s: Seq<u8>)
    ensures
        be_bytes(be_value(s), s.len()) == s,
    decreases s.len(),
{
    if s.len() > 0 {
        let v = be_value(s.drop_last());
        lemma_be_bytes_of_value(s.drop_last());
        let n = v * 256 + s.last();
        assert(n / 256 == v && n % 256 == s.last()) by (nonlinear_arith)
            requires n == v * 256 + s.last(), s.last() < 256, v >= 0;
        assert(be_bytes(be_value(s), s.len()) =~= s);
    }
}

/// Relies on byteorder's `BigEndian::write_uint128`: it stores the low `width` bytes of `n`,
/// most significant first; `n` has to fit in them.
#[verifier::external_body]
fn write_be(n: u128, width: usize) -> (r: Vec<u8>)
    requires
        1 <= width <= 16,
        n < pow256(width as nat),
    ensures
        r@ == be_bytes(n as nat, width as nat),
{
    let mut buf = vec![0u8; width];
    BigEndian::write_uint128(&mut buf, n, width);
    buf
}

/// Relies on byteorder's `BigEndian::read_uint128`: the number held by the bytes of `b`,
/// most significant first.
#[verifier::external_body]
fn read_be(b: &[u8]) -> (r: u128)
    requires
        1 <= b@.len() <= 16,
    ensures
        r == be_value(b@),
{
    BigEndian::read_uint128(b, b.len())
}

/// Appends the low `width` bytes of `n` to `buffer`, most significant first.
pub fn put_unsigned(buffer: &mut Vec<u8>, n: u128, width: usize)
    requires
        1 <= width <= 16,
        n < pow256(width as nat),
    ensures
        final(buffer)@ == old(buffer)@ + be_bytes(n as nat, width as nat),
{
    let bytes = write_be(n, width);
    append_bytes(buffer, bytes.as_slice());
}

/// Appends the bytes of `bytes` to `buffer`.
pub fn append_bytes(buffer: &mut Vec<u8>, bytes: &[u8])
    ensures
        final(buffer)@ == old(buffer)@ + bytes@,
{
    let ghost start = buffer@;
    let mut i: usize = 0;
    while i < bytes.len()
        invariant
            i <= bytes@.len(),
            buffer@ == start + bytes@.take(i as int),
        decreases bytes@.len() - i,
    {
        buffer.push(bytes[i]);
        i = i + 1;
        assert(bytes@.take(i as int) =~= bytes@.take(i - 1).push(bytes@[i - 1]));
    }
    assert(bytes@.take(i as int) =~= bytes@);
}

/// The values of `pow256` at the widths of the integer types.
pub proof fn lemma_pow256_widths()
    ensures
        pow256(1) == 0x100,
        pow256(2) == 0x1_0000,
        pow256(4) == 0x1_0000_0000,
        pow256(8) == 0x1_0000_0000_0000_0000,
        pow256(16) == 0x1_0000_0000_0000_0000_0000_0000_0000_0000,
{
    reveal_with_fuel(pow256, 17);
}

/// More bytes hold more values.
pub proof fn lemma_pow256_monotone(a: nat, b: nat)
    requires
        a <= b,
    ensures
        pow256(a) <= pow256(b),
    decreases b,
{
    if a < b {
        lemma_pow256_monotone(a, (b - 1) as nat);
        lemma_pow256_pos((b - 1) as nat);
    }
}

/// A two's-complement pattern of `width` bytes gives a number that fits in them.
pub proof fn lemma_signed_of_range(u: nat, width: nat)
    requires
        u < pow256(width),
    ensures
        -pow256(width) <= 2 * signed_of(u, width) < pow256(width),
{
}

/// The largest number that `width` bytes hold.
fn max_of_width(width: usize) -> (r: u128)
    requires
        width <= 16,
    ensures
        r == pow256(width as nat) - 1,
{
    proof {
        lemma_pow256_widths();
    }
    let mut m: u128 = 0;
    let mut i: usize = 0;
    while i < width
        invariant
            i <= width <= 16,
            m == pow256(i as nat) - 1,
            pow256(16) == 0x1_0000_0000_0000_0000_0000_0000_0000_0000,
        decreases width - i,
    {
        proof {
            lemma_pow256_monotone((i + 1) as nat, 16);
        }
        m = m * 256 + 255;
        i = i + 1;
    }
    m
}

/// Appends the `width`-byte two's-complement pattern of `v` to `buffer`.
pub fn put_signed(buffer: &mut Vec<u8>, v: i128, width: usize)
    requires
        1 <= width <= 16,
        -pow256(width as nat) <= 2 * v < pow256(width as nat),
    ensures
        final(buffer)@ == old(buffer)@ + be_bytes(twos(v as int, width as nat), width as nat),
{
    if v >= 0 {
        put_unsigned(buffer, v as u128, width);
    } else {
        let top = max_of_width(width);
        let m = (-(v + 1)) as u128;
        put_unsigned(buffer, top - m, width);
    }
}

/// Reads `width` bytes from `buffer` as an unsigned number, most significant first.
pub fn take_unsigned(buffer: &mut Cursor, width: usize) -> (r: Result<u128, Error>)
    requires
        1 <= width <= 16,
    ensures
        final(buffer).data() == old(buffer).data(),
        width <= old(buffer).rest().len() ==> r == Ok::<u128, Error>(
            be_value(old(buffer).rest().take(width as int)) as u128,
        ) && final(buffer).pos() == old(buffer).pos() + width,
        width > old(buffer).rest().len() ==> r == Err::<u128, Error>(Error::UnexpectedEof)
            && final(buffer).pos() == old(buffer).pos(),
{
    match buffer.read_exact(width) {
        Ok(bytes) => {
            proof {
                lemma_be_value_bound(bytes@);
                lemma_pow256_monotone(width as nat, 16);
                lemma_pow256_widths();
            }
            Ok(read_be(bytes))
        },
        Err(e) => Err(e),
    }
}

/// Reads `width` bytes from `buffer` as a two's-complement number.
pub fn take_signed(buffer: &mut Cursor, width: usize) -> (r: Result<i128, Error>)
    requires
        1 <= width <= 16,
    ensures
        final(buffer).data() == old(buffer).data(),
        width <= old(buffer).rest().len() ==> r == Ok::<i128, Error>(
            signed_of(be_value(old(buffer).rest().take(width as int)), width as nat) as i128,
        ) && final(buffer).pos() == old(buffer).pos() + width,
        width > old(buffer).rest().len() ==> r == Err::<i128, Error>(Error::UnexpectedEof)
            && final(buffer).pos() == old(buffer).pos(),
{
    match take_unsigned(buffer, width) {
        Ok(u) => {
            let top = max_of_width(width);
            proof {
                lemma_be_value_bound(old(buffer).rest().take(width as int));
                lemma_pow256_monotone(width as nat, 16);
                lemma_pow256_widths();
            }
            if u <= top / 2 {
                Ok(u as i128)
            } else {
                Ok(-((top - u) as i128) - 1)
            }
        },
        Err(e) => Err(e),
    }
}

} // verus!

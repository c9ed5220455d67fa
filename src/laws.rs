//! Laws that relate the encoding and decoding rules.
use vstd::prelude::*;
use vstd::utf8::{char_is_scalar, char_u32_cast};

use crate::endian::{
    be_bytes, be_value, lemma_be_bytes_len, lemma_be_bytes_of_value, lemma_be_value_bound,
    lemma_be_value_of_bytes, lemma_pow256_widths, pow256, signed_of, twos,
};
use crate::error::Error;
use crate::generics::{decodes_all, decodes_steps, fails_all, lemma_wires_step, step_decodes, wires};
use crate::composed::{head_decodes, TLV};
use crate::union::discriminant_fails;
use crate::{FromNetworkOrder, ToNetworkOrder};

verus! {

/// Decoding the bytes of `v`, followed by any `rest`, into the destination `dest` succeeds,
/// gives exactly `v`, and takes exactly the bytes of `v`.
pub open spec fn round_trips<T: ToNetworkOrder + FromNetworkOrder>(dest: T, v: T, rest: Seq<u8>) -> bool {
    &&& dest.decodes_to(v.wire() + rest, v, v.wire().len())
    &&& forall|u: T, n: nat| #[trigger] dest.decodes_to(v.wire() + rest, u, n) ==> u == v && n == v.wire().len()
    &&& forall|e: Error, u: T, n: nat| !#[trigger] dest.fails_with(v.wire() + rest, e, u, n)
}

/// Every decode of a `T` takes exactly `w` bytes.
pub open spec fn fixed_width<T: FromNetworkOrder>(w: nat) -> bool {
    forall|dest: T, input: Seq<u8>, v: T, n: nat| #[trigger] dest.decodes_to(input, v, n) ==> n == w
}

/// The first `w` bytes of the bytes of `u`, followed by `rest`, hold `u` again.
proof fn lemma_prefix_value(u: nat, w: nat, rest: Seq<u8>)
    requires
        u < pow256(w),
    ensures
        w <= (be_bytes(u, w) + rest).len(),
        be_value((be_bytes(u, w) + rest).take(w as int)) == u,
{
    lemma_be_bytes_len(u, w);
    lemma_be_value_of_bytes(u, w);
    assert((be_bytes(u, w) + rest).take(w as int) =~= be_bytes(u, w));
    assert(u % pow256(w) == u) by {
        vstd::arithmetic::div_mod::lemma_small_mod(u, pow256(w));
    }
}

/// Two's complement in `w` bytes, read back, gives the number again.
proof fn lemma_twos_round_trip(v: int, w: nat)
    requires
        -pow256(w) <= 2 * v < pow256(w),
    ensures
        twos(v, w) < pow256(w),
        signed_of(twos(v, w), w) == v,
{
}

/// Decoding the bytes of a `u8`, whatever follows them, gives that `u8` back.
pub proof fn law_round_trip_u8(dest: u8, v: u8, rest: Seq<u8>)
    ensures
        round_trips(dest, v, rest),
{
    lemma_pow256_widths();
    lemma_prefix_value(v as nat, 1, rest);
    lemma_be_bytes_len(v as nat, 1);
}

/// Decoding the bytes of a `u16`, whatever follows them, gives that `u16` back.
pub proof fn law_round_trip_u16(dest: u16, v: u16, rest: Seq<u8>)
    ensures
        round_trips(dest, v, rest),
{
    lemma_pow256_widths();
    lemma_prefix_value(v as nat, 2, rest);
    lemma_be_bytes_len(v as nat, 2);
}

/// Decoding the bytes of a `u32`, whatever follows them, gives that `u32` back.
pub proof fn law_round_trip_u32(dest: u32, v: u32, rest: Seq<u8>)
    ensures
        round_trips(dest, v, rest),
{
    lemma_pow256_widths();
    lemma_prefix_value(v as nat, 4, rest);
    lemma_be_bytes_len(v as nat, 4);
}

/// Decoding the bytes of a `u64`, whatever follows them, gives that `u64` back.
pub proof fn law_round_trip_u64(dest: u64, v: u64, rest: Seq<u8>)
    ensures
        round_trips(dest, v, rest),
{
    lemma_pow256_widths();
    lemma_prefix_value(v as nat, 8, rest);
    lemma_be_bytes_len(v as nat, 8);
}

/// Decoding the bytes of a `u128`, whatever follows them, gives that `u128` back.
pub proof fn law_round_trip_u128(dest: u128, v: u128, rest: Seq<u8>)
    ensures
        round_trips(dest, v, rest),
{
    lemma_pow256_widths();
    lemma_prefix_value(v as nat, 16, rest);
    lemma_be_bytes_len(v as nat, 16);
}

/// Decoding the bytes of an `i8`, whatever follows them, gives that `i8` back.
pub proof fn law_round_trip_i8(dest: i8, v: i8, rest: Seq<u8>)
    ensures
        round_trips(dest, v, rest),
{
    lemma_pow256_widths();
    lemma_twos_round_trip(v as int, 1);
    lemma_prefix_value(twos(v as int, 1), 1, rest);
    lemma_be_bytes_len(twos(v as int, 1), 1);
}

/// Decoding the bytes of an `i16`, whatever follows them, gives that `i16` back.
pub proof fn law_round_trip_i16(dest: i16, v: i16, rest: Seq<u8>)
    ensures
        round_trips(dest, v, rest),
{
    lemma_pow256_widths();
    lemma_twos_round_trip(v as int, 2);
    lemma_prefix_value(twos(v as int, 2), 2, rest);
    lemma_be_bytes_len(twos(v as int, 2), 2);
}

/// Decoding the bytes of an `i32`, whatever follows them, gives that `i32` back.
pub proof fn law_round_trip_i32(dest: i32, v: i32, rest: Seq<u8>)
    ensures
        round_trips(dest, v, rest),
{
    lemma_pow256_widths();
    lemma_twos_round_trip(v as int, 4);
    lemma_prefix_value(twos(v as int, 4), 4, rest);
    lemma_be_bytes_len(twos(v as int, 4), 4);
}

/// Decoding the bytes of an `i64`, whatever follows them, gives that `i64` back.
pub proof fn law_round_trip_i64(dest: i64, v: i64, rest: Seq<u8>)
    ensures
        round_trips(dest, v, rest),
{
    lemma_pow256_widths();
    lemma_twos_round_trip(v as int, 8);
    lemma_prefix_value(twos(v as int, 8), 8, rest);
    lemma_be_bytes_len(twos(v as int, 8), 8);
}

/// Decoding the bytes of an `i128`, whatever follows them, gives that `i128` back.
pub proof fn law_round_trip_i128(dest: i128, v: i128, rest: Seq<u8>)
    ensures
        round_trips(dest, v, rest),
{
    lemma_pow256_widths();
    lemma_twos_round_trip(v as int, 16);
    lemma_prefix_value(twos(v as int, 16), 16, rest);
    lemma_be_bytes_len(twos(v as int, 16), 16);
}

/// Decoding the bytes of a `char`, whatever follows them, gives that `char` back.
pub proof fn law_round_trip_char(dest: char, v: char, rest: Seq<u8>)
    ensures
        round_trips(dest, v, rest),
{
    lemma_pow256_widths();
    let u = v as u32;
    lemma_prefix_value(u as nat, 4, rest);
    lemma_be_bytes_len(u as nat, 4);
    char_is_scalar(v);
    assert forall|c: char, n: nat| #[trigger] dest.decodes_to(v.wire() + rest, c, n) implies c == v
        && n == v.wire().len() by {
        char_u32_cast(c, c as u32);
        char_u32_cast(v, u);
    }
}

/// A scalar is always written in the width of its type, whatever its value.
pub proof fn law_scalar_widths()
    ensures
        forall|v: u8| #[trigger] v.wire().len() == 1,
        forall|v: u16| #[trigger] v.wire().len() == 2,
        forall|v: u32| #[trigger] v.wire().len() == 4,
        forall|v: u64| #[trigger] v.wire().len() == 8,
        forall|v: u128| #[trigger] v.wire().len() == 16,
        forall|v: i8| #[trigger] v.wire().len() == 1,
        forall|v: i16| #[trigger] v.wire().len() == 2,
        forall|v: i32| #[trigger] v.wire().len() == 4,
        forall|v: i64| #[trigger] v.wire().len() == 8,
        forall|v: i128| #[trigger] v.wire().len() == 16,
        forall|v: char| #[trigger] v.wire().len() == 4,
{
    assert forall|v: u8| #[trigger] v.wire().len() == 1 by {
        lemma_be_bytes_len(v as nat, 1);
    }
    assert forall|v: u16| #[trigger] v.wire().len() == 2 by {
        lemma_be_bytes_len(v as nat, 2);
    }
    assert forall|v: u32| #[trigger] v.wire().len() == 4 by {
        lemma_be_bytes_len(v as nat, 4);
    }
    assert forall|v: u64| #[trigger] v.wire().len() == 8 by {
        lemma_be_bytes_len(v as nat, 8);
    }
    assert forall|v: u128| #[trigger] v.wire().len() == 16 by {
        lemma_be_bytes_len(v as nat, 16);
    }
    assert forall|v: i8| #[trigger] v.wire().len() == 1 by {
        lemma_be_bytes_len(twos(v as int, 1), 1);
    }
    assert forall|v: i16| #[trigger] v.wire().len() == 2 by {
        lemma_be_bytes_len(twos(v as int, 2), 2);
    }
    assert forall|v: i32| #[trigger] v.wire().len() == 4 by {
        lemma_be_bytes_len(twos(v as int, 4), 4);
    }
    assert forall|v: i64| #[trigger] v.wire().len() == 8 by {
        lemma_be_bytes_len(twos(v as int, 8), 8);
    }
    assert forall|v: i128| #[trigger] v.wire().len() == 16 by {
        lemma_be_bytes_len(twos(v as int, 16), 16);
    }
    assert forall|v: char| #[trigger] v.wire().len() == 4 by {
        lemma_be_bytes_len((v as u32) as nat, 4);
    }
}

/// An absent value is written as no bytes and a present one as the bytes of its content.
/// Decoding into an absent destination always succeeds, stays absent, and takes no bytes,
/// whatever the input holds.
pub proof fn law_optional_asymmetry<T: ToNetworkOrder + FromNetworkOrder>(v: T, input: Seq<u8>)
    ensures
        None::<T>.wire() == Seq::<u8>::empty(),
        Some(v).wire() == v.wire(),
        None::<T>.decodes_to(input, None, 0),
        forall|u: Option<T>, n: nat| #[trigger] None::<T>.decodes_to(input, u, n) ==> u is None && n == 0,
        forall|e: Error, u: Option<T>, n: nat| !#[trigger] None::<T>.fails_with(input, e, u, n),
{
}

/// A decode of values that each take `w` bytes ends `w` bytes after the previous one.
proof fn lemma_fixed_ends<T: FromNetworkOrder>(
    w: nat,
    shapes: Seq<T>,
    input: Seq<u8>,
    out: Seq<T>,
    ends: Seq<nat>,
    i: int,
)
    requires
        fixed_width::<T>(w),
        decodes_steps(shapes, input, out, ends),
        0 <= i <= shapes.len(),
    ensures
        ends[i] == w * i,
    decreases i,
{
    if i > 0 {
        lemma_fixed_ends(w, shapes, input, out, ends, i - 1);
        assert(step_decodes(shapes, input, out, ends, i - 1));
        assert(w * (i - 1) + w == w * i) by (nonlinear_arith);
    }
}

/// Decoding `k` values that each take `w` bytes into a sequence takes exactly `k * w` bytes,
/// however many more bytes follow.
pub proof fn law_presized_consumption<T: FromNetworkOrder>(
    w: nat,
    shapes: Seq<T>,
    input: Seq<u8>,
    out: Seq<T>,
    n: nat,
)
    requires
        fixed_width::<T>(w),
        decodes_all(shapes, input, out, n),
    ensures
        out.len() == shapes.len(),
        n == shapes.len() * w,
{
    let ends = choose|ends: Seq<nat>| #[trigger] decodes_steps(shapes, input, out, ends) && ends.last() == n;
    lemma_fixed_ends(w, shapes, input, out, ends, shapes.len() as int);
    assert(w * shapes.len() == shapes.len() * w) by (nonlinear_arith);
}

/// Each scalar type decodes in the width of its type.
pub proof fn law_scalar_fixed_widths()
    ensures
        fixed_width::<u8>(1),
        fixed_width::<u16>(2),
        fixed_width::<u32>(4),
        fixed_width::<u64>(8),
        fixed_width::<u128>(16),
        fixed_width::<i8>(1),
        fixed_width::<i16>(2),
        fixed_width::<i32>(4),
        fixed_width::<i64>(8),
        fixed_width::<i128>(16),
        fixed_width::<char>(4),
{
}

/// Every decode of a `T` takes exactly the bytes of the value it gives.
pub open spec fn takes_own_bytes<T: ToNetworkOrder + FromNetworkOrder>() -> bool {
    forall|dest: T, input: Seq<u8>, v: T, n: nat|
        #[trigger] dest.decodes_to(input, v, n) ==> n <= input.len() && input.take(n as int)
            == v.wire()
}

/// The first `w` bytes of `input`, read as a number and written back, are the same bytes.
proof fn lemma_bytes_of_prefix(input: Seq<u8>, w: nat)
    requires
        w <= input.len(),
    ensures
        be_bytes(be_value(input.take(w as int)), w) == input.take(w as int),
{
    lemma_be_bytes_of_value(input.take(w as int));
}

/// The two's-complement pattern of the number read from a pattern is that pattern.
proof fn lemma_twos_of_signed(u: nat, w: nat)
    requires
        u < pow256(w),
    ensures
        twos(signed_of(u, w), w) == u,
{
}

/// A decode into a sequence takes exactly the bytes of the values it gives, one after the
/// other, when each value's own decode does.
pub proof fn law_sequence_takes_own_bytes<T: ToNetworkOrder + FromNetworkOrder>(
    shapes: Seq<T>,
    input: Seq<u8>,
    out: Seq<T>,
    n: nat,
)
    requires
        takes_own_bytes::<T>(),
        decodes_all(shapes, input, out, n),
    ensures
        n <= input.len(),
        input.take(n as int) == wires(out),
{
    let ends = choose|ends: Seq<nat>| #[trigger] decodes_steps(shapes, input, out, ends) && ends.last() == n;
    lemma_own_bytes_prefix(shapes, input, out, ends, shapes.len() as int);
    assert(out.take(out.len() as int) =~= out);
}

proof fn lemma_own_bytes_prefix<T: ToNetworkOrder + FromNetworkOrder>(
    shapes: Seq<T>,
    input: Seq<u8>,
    out: Seq<T>,
    ends: Seq<nat>,
    i: int,
)
    requires
        takes_own_bytes::<T>(),
        decodes_steps(shapes, input, out, ends),
        0 <= i <= shapes.len(),
    ensures
        ends[i] <= input.len(),
        input.take(ends[i] as int) == wires(out.take(i)),
    decreases i,
{
    if i == 0 {
        assert(input.take(0) =~= Seq::<u8>::empty());
        assert(out.take(0) =~= Seq::<T>::empty());
    } else {
        lemma_own_bytes_prefix(shapes, input, out, ends, i - 1);
        assert(step_decodes(shapes, input, out, ends, i - 1));
        let a = ends[i - 1] as int;
        let b = ends[i] as int;
        let rest = input.skip(a);
        assert(shapes[i - 1].decodes_to(rest, out[i - 1], (b - a) as nat));
        assert(rest.take(b - a) == out[i - 1].wire());
        lemma_wires_step(out, i - 1);
        assert(input.take(b) =~= input.take(a) + rest.take(b - a));
    }
}

/// Each scalar type's decode takes exactly the bytes of the value it gives.
pub proof fn law_scalars_take_own_bytes()
    ensures
        takes_own_bytes::<u8>(),
        takes_own_bytes::<u16>(),
        takes_own_bytes::<u32>(),
        takes_own_bytes::<u64>(),
        takes_own_bytes::<u128>(),
        takes_own_bytes::<i8>(),
        takes_own_bytes::<i16>(),
        takes_own_bytes::<i32>(),
        takes_own_bytes::<i64>(),
        takes_own_bytes::<i128>(),
        takes_own_bytes::<char>(),
{
    lemma_pow256_widths();
    assert forall|dest: u8, input: Seq<u8>, v: u8, n: nat| #[trigger] dest.decodes_to(input, v, n) implies n
        <= input.len() && input.take(n as int) == v.wire() by {
        lemma_bytes_of_prefix(input, 1);
    }
    assert forall|dest: u16, input: Seq<u8>, v: u16, n: nat| #[trigger] dest.decodes_to(input, v, n) implies n
        <= input.len() && input.take(n as int) == v.wire() by {
        lemma_bytes_of_prefix(input, 2);
    }
    assert forall|dest: u32, input: Seq<u8>, v: u32, n: nat| #[trigger] dest.decodes_to(input, v, n) implies n
        <= input.len() && input.take(n as int) == v.wire() by {
        lemma_bytes_of_prefix(input, 4);
    }
    assert forall|dest: u64, input: Seq<u8>, v: u64, n: nat| #[trigger] dest.decodes_to(input, v, n) implies n
        <= input.len() && input.take(n as int) == v.wire() by {
        lemma_bytes_of_prefix(input, 8);
    }
    assert forall|dest: u128, input: Seq<u8>, v: u128, n: nat| #[trigger] dest.decodes_to(input, v, n) implies n
        <= input.len() && input.take(n as int) == v.wire() by {
        lemma_bytes_of_prefix(input, 16);
    }
    assert forall|dest: i8, input: Seq<u8>, v: i8, n: nat| #[trigger] dest.decodes_to(input, v, n) implies n
        <= input.len() && input.take(n as int) == v.wire() by {
        lemma_bytes_of_prefix(input, 1);
        lemma_be_value_bound(input.take(1));
        lemma_twos_of_signed(be_value(input.take(1)), 1);
    }
    assert forall|dest: i16, input: Seq<u8>, v: i16, n: nat| #[trigger] dest.decodes_to(input, v, n) implies n
        <= input.len() && input.take(n as int) == v.wire() by {
        lemma_bytes_of_prefix(input, 2);
        lemma_be_value_bound(input.take(2));
        lemma_twos_of_signed(be_value(input.take(2)), 2);
    }
    assert forall|dest: i32, input: Seq<u8>, v: i32, n: nat| #[trigger] dest.decodes_to(input, v, n) implies n
        <= input.len() && input.take(n as int) == v.wire() by {
        lemma_bytes_of_prefix(input, 4);
        lemma_be_value_bound(input.take(4));
        lemma_twos_of_signed(be_value(input.take(4)), 4);
    }
    assert forall|dest: i64, input: Seq<u8>, v: i64, n: nat| #[trigger] dest.decodes_to(input, v, n) implies n
        <= input.len() && input.take(n as int) == v.wire() by {
        lemma_bytes_of_prefix(input, 8);
        lemma_be_value_bound(input.take(8));
        lemma_twos_of_signed(be_value(input.take(8)), 8);
    }
    assert forall|dest: i128, input: Seq<u8>, v: i128, n: nat| #[trigger] dest.decodes_to(input, v, n) implies n
        <= input.len() && input.take(n as int) == v.wire() by {
        lemma_bytes_of_prefix(input, 16);
        lemma_be_value_bound(input.take(16));
        lemma_twos_of_signed(be_value(input.take(16)), 16);
    }
    assert forall|dest: char, input: Seq<u8>, v: char, n: nat| #[trigger] dest.decodes_to(input, v, n) implies n
        <= input.len() && input.take(n as int) == v.wire() by {
        lemma_bytes_of_prefix(input, 4);
    }
}

/// Reading an integer discriminant fails only when the input is shorter than its width, and
/// then because the input ran out, taking nothing: under a total mapping every value of that
/// width gives a variant.
pub proof fn law_discriminant_read_fails_only_when_short(input: Seq<u8>, e: Error, n: nat)
    ensures
        discriminant_fails::<u8>(input, e, n) ==> input.len() < 1 && e == Error::UnexpectedEof && n == 0,
        discriminant_fails::<u16>(input, e, n) ==> input.len() < 2 && e == Error::UnexpectedEof && n == 0,
        discriminant_fails::<u32>(input, e, n) ==> input.len() < 4 && e == Error::UnexpectedEof && n == 0,
        discriminant_fails::<u64>(input, e, n) ==> input.len() < 8 && e == Error::UnexpectedEof && n == 0,
        discriminant_fails::<u128>(input, e, n) ==> input.len() < 16 && e == Error::UnexpectedEof && n == 0,
        discriminant_fails::<i8>(input, e, n) ==> input.len() < 1 && e == Error::UnexpectedEof && n == 0,
        discriminant_fails::<i16>(input, e, n) ==> input.len() < 2 && e == Error::UnexpectedEof && n == 0,
        discriminant_fails::<i32>(input, e, n) ==> input.len() < 4 && e == Error::UnexpectedEof && n == 0,
        discriminant_fails::<i64>(input, e, n) ==> input.len() < 8 && e == Error::UnexpectedEof && n == 0,
        discriminant_fails::<i128>(input, e, n) ==> input.len() < 16 && e == Error::UnexpectedEof && n == 0,
{
}

/// An absent value round-trips into an absent destination, and a present value into a
/// present destination whenever its content round-trips into the destination's content.
pub proof fn law_round_trip_option<T: ToNetworkOrder + FromNetworkOrder>(dest: T, v: T, rest: Seq<u8>)
    requires
        round_trips(dest, v, rest),
    ensures
        round_trips(None::<T>, None::<T>, rest),
        round_trips(Some(dest), Some(v), rest),
{
    assert(None::<T>.wire() + rest =~= rest);
    assert forall|u: Option<T>, n: nat| #[trigger] Some(dest).decodes_to(Some(v).wire() + rest, u, n) implies u
        == Some(v) && n == Some(v).wire().len() by {
        assert(dest.decodes_to(v.wire() + rest, u->Some_0, n));
    }
}

/// A tag-length-value record round-trips into a destination when each part round-trips
/// into the destination's part, followed by the bytes of the parts after it.
pub proof fn law_round_trip_tlv<
    T: ToNetworkOrder + FromNetworkOrder,
    L: ToNetworkOrder + FromNetworkOrder,
    V: ToNetworkOrder + FromNetworkOrder,
>(dest: TLV<T, L, V>, v: TLV<T, L, V>, rest: Seq<u8>)
    requires
        round_trips(dest.tag, v.tag, v.length.wire() + v.value.wire() + rest),
        round_trips(dest.length, v.length, v.value.wire() + rest),
        round_trips(dest.value, v.value, rest),
    ensures
        round_trips(dest, v, rest),
{
    let tw = v.tag.wire();
    let lw = v.length.wire();
    let vw = v.value.wire();
    let input = v.wire() + rest;
    let n1 = tw.len();
    let n2 = lw.len();
    assert(input =~= tw + (lw + vw + rest));
    assert(input.skip(n1 as int) =~= lw + (vw + rest));
    assert(input.skip((n1 + n2) as int) =~= vw + rest);
    assert(lw + vw + rest =~= lw + (vw + rest));
    assert(head_decodes(dest.tag, dest.length, input, v.tag, v.length, n1, n2));
    assert(dest.decodes_to(input, v, v.wire().len()));
    assert forall|u: TLV<T, L, V>, n: nat| #[trigger] dest.decodes_to(input, u, n) implies u == v && n
        == v.wire().len() by {
        let (m1, m2) = choose|m1: nat, m2: nat|
            {
                &&& m1 + m2 <= n
                &&& #[trigger] head_decodes(dest.tag, dest.length, input, u.tag, u.length, m1, m2)
                &&& dest.value.decodes_to(input.skip((m1 + m2) as int), u.value, (n - m1 - m2) as nat)
            };
        assert(dest.tag.decodes_to(tw + (lw + vw + rest), u.tag, m1));
        assert(dest.length.decodes_to(lw + (vw + rest), u.length, m2));
        assert(dest.value.decodes_to(vw + rest, u.value, (n - m1 - m2) as nat));
    }
    assert forall|e: Error, u: TLV<T, L, V>, n: nat| !#[trigger] dest.fails_with(input, e, u, n) by {
        assert(!dest.tag.fails_with(tw + (lw + vw + rest), e, u.tag, n));
        if exists|m1: nat| #[trigger] dest.tag.decodes_to(input, u.tag, m1) && m1 <= n
            && dest.length.fails_with(input.skip(m1 as int), e, u.length, (n - m1) as nat) {
            let m1 = choose|m1: nat| #[trigger] dest.tag.decodes_to(input, u.tag, m1) && m1 <= n
                && dest.length.fails_with(input.skip(m1 as int), e, u.length, (n - m1) as nat);
            assert(dest.tag.decodes_to(tw + (lw + vw + rest), u.tag, m1));
            assert(!dest.length.fails_with(lw + (vw + rest), e, u.length, (n - m1) as nat));
        }
        if exists|m1: nat, m2: nat| #[trigger] head_decodes(dest.tag, dest.length, input, u.tag, u.length, m1, m2)
            && m1 + m2 <= n && dest.value.fails_with(input.skip((m1 + m2) as int), e, u.value, (n - m1 - m2) as nat) {
            let (m1, m2) = choose|m1: nat, m2: nat| #[trigger] head_decodes(
                dest.tag,
                dest.length,
                input,
                u.tag,
                u.length,
                m1,
                m2,
            ) && m1 + m2 <= n && dest.value.fails_with(input.skip((m1 + m2) as int), e, u.value, (n - m1 - m2) as nat);
            assert(dest.tag.decodes_to(tw + (lw + vw + rest), u.tag, m1));
            assert(dest.length.decodes_to(lw + (vw + rest), u.length, m2));
            assert(!dest.value.fails_with(vw + rest, e, u.value, (n - m1 - m2) as nat));
        }
    }
}

/// The bytes of two sequences of values, one after the other, are those of the joined
/// sequence.
proof fn lemma_wires_concat<T: ToNetworkOrder>(a: Seq<T>, b: Seq<T>)
    ensures
        wires(a + b) == wires(a) + wires(b),
    decreases b.len(),
{
    if b.len() == 0 {
        assert(a + b =~= a);
        assert(wires(a) + wires(b) =~= wires(a));
    } else {
        lemma_wires_concat(a, b.drop_last());
        assert((a + b).drop_last() =~= a + b.drop_last());
        assert((a + b).last() == b.last());
        assert(wires(a) + wires(b.drop_last()) + b.last().wire() =~= wires(a) + (wires(
            b.drop_last(),
        ) + b.last().wire()));
    }
}

/// The bytes of the values from position `i` on are those of value `i` followed by those of
/// the values after it.
proof fn lemma_wires_from<T: ToNetworkOrder>(vs: Seq<T>, i: int)
    requires
        0 <= i < vs.len(),
    ensures
        wires(vs.skip(i)) == vs[i].wire() + wires(vs.skip(i + 1)),
        wires(vs) == wires(vs.take(i)) + wires(vs.skip(i)),
{
    assert(vs.skip(i) =~= seq![vs[i]] + vs.skip(i + 1));
    lemma_wires_concat(seq![vs[i]], vs.skip(i + 1));
    let one = seq![vs[i]];
    assert(one.drop_last() =~= Seq::<T>::empty());
    assert(wires(one.drop_last()) =~= Seq::<u8>::empty());
    assert(wires(one) =~= vs[i].wire());
    assert(vs =~= vs.take(i) + vs.skip(i));
    lemma_wires_concat(vs.take(i), vs.skip(i));
}

/// Each value of `vs` round-trips into the destination at its position, followed by the
/// bytes of the values after it and then `rest`.
pub open spec fn each_round_trips<T: ToNetworkOrder + FromNetworkOrder>(
    shapes: Seq<T>,
    vs: Seq<T>,
    rest: Seq<u8>,
) -> bool {
    &&& shapes.len() == vs.len()
    &&& forall|i: int|
        0 <= i < vs.len() ==> #[trigger] round_trips(shapes[i], vs[i], wires(vs.skip(i + 1)) + rest)
}

/// Where each value round-trips, the input from the end of the first `i` values on is the
/// bytes of value `i`, then of the values after it, then `rest`.
proof fn lemma_input_at<T: ToNetworkOrder + FromNetworkOrder>(vs: Seq<T>, rest: Seq<u8>, i: int)
    requires
        0 <= i < vs.len(),
    ensures
        wires(vs.take(i)).len() <= wires(vs).len(),
        (wires(vs) + rest).skip(wires(vs.take(i)).len() as int) == vs[i].wire() + (wires(
            vs.skip(i + 1),
        ) + rest),
        wires(vs.take(i + 1)).len() == wires(vs.take(i)).len() + vs[i].wire().len(),
{
    lemma_wires_from(vs, i);
    lemma_wires_step(vs, i);
    let input = wires(vs) + rest;
    assert(input =~= wires(vs.take(i)) + (vs[i].wire() + (wires(vs.skip(i + 1)) + rest)));
    assert(input.skip(wires(vs.take(i)).len() as int) =~= vs[i].wire() + (wires(vs.skip(i + 1))
        + rest));
}

/// Any decode of the bytes of `vs` into the first `k` destinations gives the first `k`
/// values, each ending where its bytes end.
proof fn lemma_steps_unique<T: ToNetworkOrder + FromNetworkOrder>(
    shapes: Seq<T>,
    vs: Seq<T>,
    rest: Seq<u8>,
    out: Seq<T>,
    ends: Seq<nat>,
    k: int,
    j: int,
)
    requires
        each_round_trips(shapes, vs, rest),
        0 <= j <= k <= shapes.len(),
        decodes_steps(shapes.take(k), wires(vs) + rest, out, ends),
    ensures
        ends[j] == wires(vs.take(j)).len(),
        out.take(j) == vs.take(j),
    decreases j,
{
    if j == 0 {
        assert(vs.take(0) =~= Seq::<T>::empty());
        assert(out.take(0) =~= Seq::<T>::empty());
    } else {
        let i = j - 1;
        lemma_steps_unique(shapes, vs, rest, out, ends, k, i);
        lemma_input_at(vs, rest, i);
        let input = wires(vs) + rest;
        assert(step_decodes(shapes.take(k), input, out, ends, i));
        assert(shapes.take(k)[i] == shapes[i]);
        assert(round_trips(shapes[i], vs[i], wires(vs.skip(i + 1)) + rest));
        assert(shapes[i].decodes_to(
            vs[i].wire() + (wires(vs.skip(i + 1)) + rest),
            out[i],
            (ends[i + 1] - ends[i]) as nat,
        ));
        assert(out.take(j) =~= out.take(i).push(out[i]));
        assert(vs.take(j) =~= vs.take(i).push(vs[i]));
    }
}

/// A sequence of values round-trips into destinations of the same count when each value
/// round-trips into its destination, followed by the bytes of the values after it.
pub proof fn law_round_trip_sequence<T: ToNetworkOrder + FromNetworkOrder>(
    shapes: Seq<T>,
    vs: Seq<T>,
    rest: Seq<u8>,
)
    requires
        each_round_trips(shapes, vs, rest),
    ensures
        decodes_all(shapes, wires(vs) + rest, vs, wires(vs).len()),
        forall|out: Seq<T>, n: nat| #[trigger] decodes_all(shapes, wires(vs) + rest, out, n) ==> out == vs
            && n == wires(vs).len(),
        forall|e: Error, out: Seq<T>, n: nat| !#[trigger] fails_all(shapes, wires(vs) + rest, e, out, n),
{
    let input = wires(vs) + rest;
    let ends = Seq::new((vs.len() + 1) as nat, |i: int| wires(vs.take(i)).len());
    assert(vs.take(0) =~= Seq::<T>::empty());
    assert forall|i: int| 0 <= i < shapes.len() implies #[trigger] step_decodes(shapes, input, vs, ends, i) by {
        lemma_input_at(vs, rest, i);
        assert(round_trips(shapes[i], vs[i], wires(vs.skip(i + 1)) + rest));
    }
    assert(vs.take(vs.len() as int) =~= vs);
    assert(decodes_steps(shapes, input, vs, ends));
    assert forall|out: Seq<T>, n: nat| #[trigger] decodes_all(shapes, input, out, n) implies out == vs
        && n == wires(vs).len() by {
        let e2 = choose|e2: Seq<nat>| #[trigger] decodes_steps(shapes, input, out, e2) && e2.last() == n;
        assert(shapes.take(shapes.len() as int) =~= shapes);
        lemma_steps_unique(shapes, vs, rest, out, e2, shapes.len() as int, shapes.len() as int);
        assert(out.take(out.len() as int) =~= out);
    }
    assert forall|e: Error, out: Seq<T>, n: nat| !#[trigger] fails_all(shapes, input, e, out, n) by {
        if fails_all(shapes, input, e, out, n) {
            let (i, e2) = choose|i: int, e2: Seq<nat>|
                {
                    &&& 0 <= i < shapes.len()
                    &&& out.len() == shapes.len()
                    &&& #[trigger] decodes_steps(shapes.take(i), input, out.take(i), e2)
                    &&& e2.last() <= n
                    &&& shapes[i].fails_with(input.skip(e2.last() as int), e, out[i], (n - e2.last()) as nat)
                    &&& out.skip(i + 1) == shapes.skip(i + 1)
                };
            lemma_steps_unique(shapes, vs, rest, out.take(i), e2, i, i);
            lemma_input_at(vs, rest, i);
            assert(round_trips(shapes[i], vs[i], wires(vs.skip(i + 1)) + rest));
        }
    }
}

/// An array round-trips into a destination array when each element round-trips into the
/// destination's element at its position, followed by the bytes of the elements after it.
pub proof fn law_round_trip_array<T: ToNetworkOrder + FromNetworkOrder, const N: usize>(
    dest: [T; N],
    v: [T; N],
    rest: Seq<u8>,
)
    requires
        each_round_trips(dest@, v@, rest),
    ensures
        round_trips(dest, v, rest),
{
    law_round_trip_sequence(dest@, v@, rest);
    assert forall|u: [T; N], n: nat| #[trigger] dest.decodes_to(v.wire() + rest, u, n) implies u == v
        && n == v.wire().len() by {
        assert(u@ == v@);
        assert(u =~= v);
    }
}

/// A two-field record round-trips into a destination when its first field round-trips into
/// the destination's first field, followed by the second field's bytes, and its second
/// field into the destination's second.
pub proof fn law_round_trip_pair<A: ToNetworkOrder + FromNetworkOrder, B: ToNetworkOrder + FromNetworkOrder>(
    dest: (A, B),
    v: (A, B),
    rest: Seq<u8>,
)
    requires
        round_trips(dest.0, v.0, v.1.wire() + rest),
        round_trips(dest.1, v.1, rest),
    ensures
        round_trips(dest, v, rest),
{
    let aw = v.0.wire();
    let bw = v.1.wire();
    let input = v.wire() + rest;
    assert(input =~= aw + (bw + rest));
    assert(input.skip(aw.len() as int) =~= bw + rest);
    assert(dest.0.decodes_to(input, v.0, aw.len()));
    assert(dest.decodes_to(input, v, v.wire().len()));
    assert forall|u: (A, B), n: nat| #[trigger] dest.decodes_to(input, u, n) implies u == v && n
        == v.wire().len() by {
        let m1 = choose|m1: nat|
            {
                &&& m1 <= n
                &&& #[trigger] dest.0.decodes_to(input, u.0, m1)
                &&& dest.1.decodes_to(input.skip(m1 as int), u.1, (n - m1) as nat)
            };
        assert(dest.0.decodes_to(aw + (bw + rest), u.0, m1));
        assert(dest.1.decodes_to(bw + rest, u.1, (n - m1) as nat));
    }
    assert forall|e: Error, u: (A, B), n: nat| !#[trigger] dest.fails_with(input, e, u, n) by {
        assert(!dest.0.fails_with(aw + (bw + rest), e, u.0, n));
        if exists|m1: nat| #[trigger] dest.0.decodes_to(input, u.0, m1) && m1 <= n
            && dest.1.fails_with(input.skip(m1 as int), e, u.1, (n - m1) as nat) {
            let m1 = choose|m1: nat| #[trigger] dest.0.decodes_to(input, u.0, m1) && m1 <= n
                && dest.1.fails_with(input.skip(m1 as int), e, u.1, (n - m1) as nat);
            assert(dest.0.decodes_to(aw + (bw + rest), u.0, m1));
            assert(!dest.1.fails_with(bw + rest, e, u.1, (n - m1) as nat));
        }
    }
}

} // verus!

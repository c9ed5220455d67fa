//! Rules for tagged unions whose variants carry no fields. Such a union is written as the
//! discriminant of its active variant, a scalar of the width the union declares, and read
//! back through the union's `From` (a total mapping, where a catch-all variant keeps the
//! values that name no other variant) or `TryFrom` (a partial mapping) of that scalar.
//!
//! A union whose variants carry fields has no discriminant on the wire: its rule writes the
//! fields of the active variant in order, by their own rules.
use vstd::prelude::*;

use crate::cursor::Cursor;
use crate::error::Error;
use crate::FromNetworkOrder;

verus! {

/// Reading a discriminant from `input` into a fresh `D::default()` gives `d`, taking `n`
/// bytes.
pub open spec fn reads_discriminant<D: FromNetworkOrder + Default>(input: Seq<u8>, d: D, n: nat) -> bool {
    exists|shape: D|
        #![trigger shape.decodes_to(input, d, n)]
        call_ensures(D::default, (), shape) && shape.decodes_to(input, d, n)
}

/// Reading a discriminant from `input` into a fresh `D::default()` fails with `e`, taking
/// `n` bytes.
pub open spec fn discriminant_fails<D: FromNetworkOrder + Default>(input: Seq<u8>, e: Error, n: nat) -> bool {
    exists|shape: D, x: D|
        #![trigger shape.fails_with(input, e, x, n)]
        call_ensures(D::default, (), shape) && shape.fails_with(input, e, x, n)
}

/// Reads a discriminant of type `D` and maps it to a variant by `U::from`. Every value of
/// `D` gives a variant: this fails only where reading the discriminant itself fails, and
/// then leaves the destination as it was.
pub fn deserialize_fallback<U: From<D>, D: FromNetworkOrder + Default>(
    dest: &mut U,
    buffer: &mut Cursor,
) -> (r: Result<(), Error>)
    ensures
        final(buffer).data() == old(buffer).data(),
        old(buffer).pos() <= final(buffer).pos(),
        r is Ok ==> exists|d: D|
            #![trigger reads_discriminant(old(buffer).rest(), d, (final(buffer).pos() - old(buffer).pos()) as nat)]
            {
                &&& reads_discriminant(
                    old(buffer).rest(),
                    d,
                    (final(buffer).pos() - old(buffer).pos()) as nat,
                )
                &&& call_ensures(U::from, (d,), *final(dest))
            },
        r is Err ==> discriminant_fails::<D>(
            old(buffer).rest(),
            r->Err_0,
            (final(buffer).pos() - old(buffer).pos()) as nat,
        ) && *final(dest) == *old(dest),
{
    let mut d = D::default();
    let ghost shape = d;
    match d.deserialize_from(buffer) {
        Ok(()) => {
            let v = U::from(d);
            assert(reads_discriminant(old(buffer).rest(), d, (buffer.pos() - old(buffer).pos()) as nat));
            *dest = v;
            Ok(())
        },
        Err(e) => {
            proof {
                assert(shape.fails_with(old(buffer).rest(), e, d, (buffer.pos() - old(buffer).pos()) as nat));
            }
            Err(e)
        },
    }
}

/// Reads a discriminant of type `D` and maps it to a variant by `U::try_from`. A value that
/// names no variant fails with an error that holds the bytes of the discriminant and
/// `union_name`. On any failure the destination is left as it was.
pub fn deserialize_strict<U: TryFrom<D>, D: FromNetworkOrder + Default>(
    dest: &mut U,
    buffer: &mut Cursor,
    union_name: &str,
) -> (r: Result<(), Error>)
    ensures
        final(buffer).data() == old(buffer).data(),
        old(buffer).pos() <= final(buffer).pos(),
        r is Ok ==> exists|d: D|
            #![trigger reads_discriminant(old(buffer).rest(), d, (final(buffer).pos() - old(buffer).pos()) as nat)]
            {
                &&& reads_discriminant(
                    old(buffer).rest(),
                    d,
                    (final(buffer).pos() - old(buffer).pos()) as nat,
                )
                &&& call_ensures(U::try_from, (d,), Ok::<U, <U as TryFrom<D>>::Error>(*final(dest)))
            },
        r is Err ==> *final(dest) == *old(dest) && {
            ||| discriminant_fails::<D>(
                old(buffer).rest(),
                r->Err_0,
                (final(buffer).pos() - old(buffer).pos()) as nat,
            )
            ||| exists|d: D, rejected: <U as TryFrom<D>>::Error|
                #![trigger reads_discriminant(old(buffer).rest(), d, (final(buffer).pos() - old(buffer).pos()) as nat), call_ensures(U::try_from, (d,), Err::<U, <U as TryFrom<D>>::Error>(rejected))]
                {
                    &&& reads_discriminant(
                        old(buffer).rest(),
                        d,
                        (final(buffer).pos() - old(buffer).pos()) as nat,
                    )
                    &&& call_ensures(U::try_from, (d,), Err::<U, <U as TryFrom<D>>::Error>(rejected))
                    &&& r->Err_0 is UnknownDiscriminant
                    &&& r->Err_0->discriminant@ == old(buffer).rest().take(
                        final(buffer).pos() - old(buffer).pos(),
                    )
                    &&& r->Err_0->union_name@ == union_name@
                }
        },
{
    let mut d = D::default();
    let ghost shape = d;
    let start = buffer.position();
    match d.deserialize_from(buffer) {
        Ok(()) => {
            let ghost n = (buffer.pos() - start) as nat;
            proof {
                assert(shape.decodes_to(old(buffer).rest(), d, n));
                assert(reads_discriminant(old(buffer).rest(), d, n));
            }
            match U::try_from(d) {
                Ok(v) => {
                    *dest = v;
                    Ok(())
                },
                Err(rejected) => {
                    let bytes = buffer.read_since(start);
                    proof {
                        use_type_invariant(&*buffer);
                        assert(bytes@ =~= old(buffer).rest().take(n as int));
                    }
                    let discriminant = vstd::slice::slice_to_vec(bytes);
                    Err(Error::UnknownDiscriminant { discriminant, union_name: union_name.to_string() })
                },
            }
        },
        Err(e) => {
            proof {
                assert(shape.fails_with(old(buffer).rest(), e, d, (buffer.pos() - start) as nat));
            }
            Err(e)
        },
    }
}

} // verus!

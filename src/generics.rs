//! Rules for optional values, fixed arrays, dynamic sequences and owned indirections.
use std::marker::PhantomData;
use vstd::prelude::*;

use crate::cursor::Cursor;
use crate::error::Error;
use crate::endian::append_bytes;
use crate::{FromNetworkOrder, ToNetworkOrder};

verus! {

/// The bytes of the values of `s`, one after the other.
pub open spec fn wires<T: ToNetworkOrder>(s: Seq<T>) -> Seq<u8>
    decreases s.len(),
{
    if s.len() == 0 {
        Seq::empty()
    } else {
        wires(s.drop_last()) + s.last().wire()
    }
}

/// Decoding `input` into the destinations `shapes`, one after the other, gives `out`, where
/// value `i` is read from the bytes between offsets `ends[i]` and `ends[i + 1]` of `input`.
pub open spec fn decodes_steps<T: FromNetworkOrder>(
    shapes: Seq<T>,
    input: Seq<u8>,
    out: Seq<T>,
    ends: Seq<nat>,
) -> bool {
    &&& out.len() == shapes.len()
    &&& ends.len() == shapes.len() + 1
    &&& ends[0] == 0
    &&& forall|i: int| 0 <= i < shapes.len() ==> #[trigger] step_decodes(shapes, input, out, ends, i)
}

/// Destination `i` of `shapes` decodes to `out[i]` from the bytes of `input` between offsets
/// `ends[i]` and `ends[i + 1]`.
pub open spec fn step_decodes<T: FromNetworkOrder>(
    shapes: Seq<T>,
    input: Seq<u8>,
    out: Seq<T>,
    ends: Seq<nat>,
    i: int,
) -> bool {
    &&& ends[i] <= ends[i + 1]
    &&& shapes[i].decodes_to(input.skip(ends[i] as int), out[i], (ends[i + 1] - ends[i]) as nat)
}

/// Decoding `input` into the destinations `shapes`, one after the other, can give `out`,
/// taking the first `n` bytes of `input`.
pub open spec fn decodes_all<T: FromNetworkOrder>(
    shapes: Seq<T>,
    input: Seq<u8>,
    out: Seq<T>,
    n: nat,
) -> bool {
    exists|ends: Seq<nat>| #[trigger] decodes_steps(shapes, input, out, ends) && ends.last() == n
}

/// Decoding `input` into the destinations `shapes` in place, one after the other, can fail
/// with `e`, leaving them as `out` after taking the first `n` bytes: the destinations before
/// some position `i` decode, the one at `i` fails, and those after it are not touched.
pub open spec fn fails_all<T: FromNetworkOrder>(
    shapes: Seq<T>,
    input: Seq<u8>,
    e: Error,
    out: Seq<T>,
    n: nat,
) -> bool {
    exists|i: int, ends: Seq<nat>|
        #![trigger decodes_steps(shapes.take(i), input, out.take(i), ends)]
        {
            &&& 0 <= i < shapes.len()
            &&& out.len() == shapes.len()
            &&& decodes_steps(shapes.take(i), input, out.take(i), ends)
            &&& ends.last() <= n
            &&& shapes[i].fails_with(
                input.skip(ends.last() as int),
                e,
                out[i],
                (n - ends.last()) as nat,
            )
            &&& out.skip(i + 1) == shapes.skip(i + 1)
        }
}

/// Decoding `input` into the fresh destinations `shapes`, one after the other, and keeping
/// the values that decode can fail with `e` after taking the first `n` bytes: the values
/// kept are `out`, and the destination after them fails.
pub open spec fn fails_appending<T: FromNetworkOrder>(
    shapes: Seq<T>,
    input: Seq<u8>,
    e: Error,
    out: Seq<T>,
    n: nat,
) -> bool {
    exists|ends: Seq<nat>|
        #![trigger decodes_steps(shapes.take(out.len() as int), input, out, ends)]
        {
            &&& out.len() < shapes.len()
            &&& decodes_steps(shapes.take(out.len() as int), input, out, ends)
            &&& ends.last() <= n
            &&& exists|x: T|
                #[trigger] shapes[out.len() as int].fails_with(
                    input.skip(ends.last() as int),
                    e,
                    x,
                    (n - ends.last()) as nat,
                )
        }
}

/// One more destination that decodes extends the steps by its end offset.
pub proof fn lemma_steps_push<T: FromNetworkOrder>(
    shapes: Seq<T>,
    input: Seq<u8>,
    out: Seq<T>,
    ends: Seq<nat>,
    i: int,
    v: T,
    k: nat,
)
    requires
        0 <= i < shapes.len(),
        decodes_steps(shapes.take(i), input, out, ends),
        ends.last() <= k,
        shapes[i].decodes_to(input.skip(ends.last() as int), v, (k - ends.last()) as nat),
    ensures
        decodes_steps(shapes.take(i + 1), input, out.push(v), ends.push(k)),
{
    let sh = shapes.take(i + 1);
    let o2 = out.push(v);
    let e2 = ends.push(k);
    assert(e2[0] == ends[0]);
    assert forall|j: int| 0 <= j < sh.len() implies #[trigger] step_decodes(sh, input, o2, e2, j) by {
        if j < i {
            assert(step_decodes(shapes.take(i), input, out, ends, j));
            assert(shapes.take(i)[j] == sh[j]);
            assert(e2[j] == ends[j] && e2[j + 1] == ends[j + 1] && o2[j] == out[j]);
        } else {
            assert(e2[j] == ends.last() && e2[j + 1] == k && o2[j] == v && sh[j] == shapes[i]);
        }
    }
}

/// Nothing is written for an absent value; a present one is written by its own rule.
impl<T: ToNetworkOrder> ToNetworkOrder for Option<T> {
    open spec fn wire(&self) -> Seq<u8> {
        match self {
            None => Seq::empty(),
            Some(x) => x.wire(),
        }
    }

    fn serialize_to(&self, buffer: &mut Vec<u8>) -> (r: Result<usize, Error>) {
        match self {
            None => {
                assert(buffer@ =~= buffer@ + Seq::<u8>::empty());
                Ok(0)
            },
            Some(x) => x.serialize_to(buffer),
        }
    }
}

/// An absent destination reads nothing; a present one is decoded in place by its own rule.
impl<T: FromNetworkOrder> FromNetworkOrder for Option<T> {
    open spec fn decodes_to(&self, input: Seq<u8>, v: Option<T>, n: nat) -> bool {
        match self {
            None => v is None && n == 0,
            Some(x) => v is Some && x.decodes_to(input, v->Some_0, n),
        }
    }

    open spec fn fails_with(&self, input: Seq<u8>, e: Error, v: Option<T>, n: nat) -> bool {
        match self {
            None => false,
            Some(x) => v is Some && x.fails_with(input, e, v->Some_0, n),
        }
    }

    fn deserialize_from(&mut self, buffer: &mut Cursor) -> (r: Result<(), Error>) {
        match self {
            None => Ok(()),
            Some(x) => x.deserialize_from(buffer),
        }
    }
}

/// The bytes of the first `i + 1` values are those of the first `i` followed by value `i`.
pub proof fn lemma_wires_step<T: ToNetworkOrder>(s: Seq<T>, i: int)
    requires
        0 <= i < s.len(),
    ensures
        wires(s.take(i + 1)) == wires(s.take(i)) + s[i].wire(),
{
    assert(s.take(i + 1).drop_last() =~= s.take(i));
}

/// The `N` elements are written in order, with no count in front of them.
impl<T: ToNetworkOrder, const N: usize> ToNetworkOrder for [T; N] {
    open spec fn wire(&self) -> Seq<u8> {
        wires(self@)
    }

    fn serialize_to(&self, buffer: &mut Vec<u8>) -> (r: Result<usize, Error>) {
        let ghost start = buffer@;
        let start_len = buffer.len();
        let mut i: usize = 0;
        while i < N
            invariant
                i <= N,
                self@.len() == N,
                buffer@ == start + wires(self@.take(i as int)),
                start_len == start.len(),
            decreases N - i,
        {
            // each element is encoded on its own before it is appended
            let mut element: Vec<u8> = Vec::new();
            self[i].serialize_to(&mut element)?;
            append_bytes(buffer, element.as_slice());
            proof {
                lemma_wires_step(self@, i as int);
                assert(element@ =~= Seq::<u8>::empty() + self@[i as int].wire());
            }
            i = i + 1;
        }
        assert(self@.take(N as int) =~= self@);
        Ok(buffer.len() - start_len)
    }
}

/// The `N` destination slots are decoded in place, in order.
impl<T: FromNetworkOrder, const N: usize> FromNetworkOrder for [T; N] {
    open spec fn decodes_to(&self, input: Seq<u8>, v: [T; N], n: nat) -> bool {
        decodes_all(self@, input, v@, n)
    }

    open spec fn fails_with(&self, input: Seq<u8>, e: Error, v: [T; N], n: nat) -> bool {
        fails_all(self@, input, e, v@, n)
    }

    fn deserialize_from(&mut self, buffer: &mut Cursor) -> (r: Result<(), Error>) {
        let ghost input = buffer.rest();
        let ghost shapes = self@;
        let ghost start = buffer.pos();
        let ghost mut ends: Seq<nat> = seq![0nat];
        proof {
            use_type_invariant(&*buffer);
            assert(decodes_steps(shapes.take(0), input, self@.take(0), ends));
        }
        let mut i: usize = 0;
        while i < N
            invariant
                i <= N,
                self@.len() == N,
                shapes.len() == N,
                shapes == old(self)@,
                buffer.data() == old(buffer).data(),
                start == old(buffer).pos(),
                input == old(buffer).rest(),
                start <= buffer.pos() <= buffer.data().len(),
                buffer.rest() == input.skip(buffer.pos() - start),
                self@.skip(i as int) == shapes.skip(i as int),
                decodes_steps(shapes.take(i as int), input, self@.take(i as int), ends),
                ends.last() == buffer.pos() - start,
            decreases N - i,
        {
            let ghost before = *buffer;
            let ghost prev = self@;
            let res = self[i].deserialize_from(buffer);
            proof {
                use_type_invariant(&*buffer);
                assert(shapes[i as int] == prev[i as int]) by {
                    assert(prev.skip(i as int)[0] == shapes.skip(i as int)[0]);
                }
                assert(before.rest() =~= input.skip(ends.last() as int));
            }
            match res {
                Ok(()) => {
                    proof {
                        let k = (buffer.pos() - start) as nat;
                        lemma_steps_push(shapes, input, prev.take(i as int), ends, i as int, self@[i as int], k);
                        assert(prev.take(i as int).push(self@[i as int]) =~= self@.take(i + 1));
                        ends = ends.push(k);
                        assert(buffer.rest() =~= input.skip(k as int));
                        assert(self@.skip(i + 1) =~= shapes.skip(i + 1)) by {
                            assert(self@.skip(i + 1) =~= prev.skip(i + 1));
                            assert(prev.skip(i + 1) =~= prev.skip(i as int).skip(1));
                            assert(shapes.skip(i + 1) =~= shapes.skip(i as int).skip(1));
                        }
                    }
                },
                Err(e) => {
                    proof {
                        let n = (buffer.pos() - start) as nat;
                        assert(self@.take(i as int) =~= prev.take(i as int));
                        assert(decodes_steps(shapes.take(i as int), input, self@.take(i as int), ends));
                        assert(self@.skip(i + 1) =~= shapes.skip(i + 1)) by {
                            assert(self@.skip(i + 1) =~= prev.skip(i + 1));
                            assert(prev.skip(i + 1) =~= prev.skip(i as int).skip(1));
                            assert(shapes.skip(i + 1) =~= shapes.skip(i as int).skip(1));
                        }
                        assert(shapes[i as int].fails_with(
                            input.skip(ends.last() as int),
                            e,
                            self@[i as int],
                            (n - ends.last()) as nat,
                        ));
                        assert(fails_all(shapes, input, e, self@, n));
                    }
                    return Err(e);
                },
            }
            i = i + 1;
        }
        proof {
            assert(shapes.take(N as int) =~= shapes);
            assert(self@.take(N as int) =~= self@);
            assert(decodes_steps(shapes, input, self@, ends));
        }
        Ok(())
    }
}

/// Every value of `shapes` is one that `T::default()` can return.
pub open spec fn all_default<T: Default>(shapes: Seq<T>) -> bool {
    forall|i: int| 0 <= i < shapes.len() ==> call_ensures(T::default, (), #[trigger] shapes[i])
}

/// The elements are written in order, with no count in front of them.
impl<T: ToNetworkOrder> ToNetworkOrder for Vec<T> {
    open spec fn wire(&self) -> Seq<u8> {
        wires(self@)
    }

    fn serialize_to(&self, buffer: &mut Vec<u8>) -> (r: Result<usize, Error>) {
        let ghost start = buffer@;
        let start_len = buffer.len();
        let mut i: usize = 0;
        while i < self.len()
            invariant
                i <= self@.len(),
                buffer@ == start + wires(self@.take(i as int)),
                start_len == start.len(),
            decreases self@.len() - i,
        {
            self[i].serialize_to(buffer)?;
            proof {
                lemma_wires_step(self@, i as int);
                assert(start + wires(self@.take(i as int)) + self@[i as int].wire() =~= start + (
                wires(self@.take(i as int)) + self@[i as int].wire()));
            }
            i = i + 1;
        }
        assert(self@.take(self@.len() as int) =~= self@);
        Ok(buffer.len() - start_len)
    }
}

/// Relies on `Vec::capacity`: the number of elements the vector can hold without
/// reallocating, which is never less than its length.
#[verifier::external_body]
fn capacity_of<T>(v: &Vec<T>) -> (r: usize)
    ensures
        r >= v@.len(),
{
    v.capacity()
}

/// Replaces the elements of `v` with `count` values read from `buffer`, each decoded into a
/// fresh `T::default()`. Nothing but `count` says how many values are read.
pub fn deserialize_presized<T: FromNetworkOrder + Default>(
    v: &mut Vec<T>,
    count: usize,
    buffer: &mut Cursor,
) -> (r: Result<(), Error>)
    ensures
        final(buffer).data() == old(buffer).data(),
        r is Ok ==> {
            &&& old(buffer).pos() <= final(buffer).pos()
            &&& final(v)@.len() == count
            &&& exists|shapes: Seq<T>|
                #![trigger decodes_all(shapes, old(buffer).rest(), final(v)@, (final(buffer).pos() - old(buffer).pos()) as nat)]
                {
                    &&& shapes.len() == count
                    &&& all_default(shapes)
                    &&& decodes_all(
                        shapes,
                        old(buffer).rest(),
                        final(v)@,
                        (final(buffer).pos() - old(buffer).pos()) as nat,
                    )
                }
        },
        r is Err ==> {
            &&& old(buffer).pos() <= final(buffer).pos()
            &&& final(v)@.len() < count
            &&& exists|shapes: Seq<T>|
                #![trigger fails_appending(shapes, old(buffer).rest(), r->Err_0, final(v)@, (final(buffer).pos() - old(buffer).pos()) as nat)]
                {
                    &&& shapes.len() <= count
                    &&& all_default(shapes)
                    &&& fails_appending(
                        shapes,
                        old(buffer).rest(),
                        r->Err_0,
                        final(v)@,
                        (final(buffer).pos() - old(buffer).pos()) as nat,
                    )
                }
        },
{
    let ghost input = buffer.rest();
    let ghost start = buffer.pos();
    let ghost mut shapes: Seq<T> = Seq::empty();
    let ghost mut ends: Seq<nat> = seq![0nat];
    v.clear();
    proof {
        use_type_invariant(&*buffer);
        assert(decodes_steps(shapes.take(0), input, v@, ends));
    }
    let mut i: usize = 0;
    while i < count
        invariant
            i <= count,
            v@.len() == i,
            shapes.len() == i,
            all_default(shapes),
            buffer.data() == old(buffer).data(),
            start == old(buffer).pos(),
            input == old(buffer).rest(),
            start <= buffer.pos() <= buffer.data().len(),
            buffer.rest() == input.skip(buffer.pos() - start),
            decodes_steps(shapes, input, v@, ends),
            ends.last() == buffer.pos() - start,
        decreases count - i,
    {
        let mut x = T::default();
        let ghost fresh = x;
        let ghost before = *buffer;
        let res = x.deserialize_from(buffer);
        proof {
            use_type_invariant(&*buffer);
            assert(before.rest() =~= input.skip(ends.last() as int));
            assert(shapes.push(fresh).take(i as int) =~= shapes);
        }
        match res {
            Ok(()) => {
                proof {
                    let k = (buffer.pos() - start) as nat;
                    lemma_steps_push(shapes.push(fresh), input, v@, ends, i as int, x, k);
                    assert(shapes.push(fresh).take(i + 1) =~= shapes.push(fresh));
                    ends = ends.push(k);
                    shapes = shapes.push(fresh);
                    assert(buffer.rest() =~= input.skip(k as int));
                }
                v.push(x);
            },
            Err(e) => {
                proof {
                    let sh = shapes.push(fresh);
                    let n = (buffer.pos() - start) as nat;
                    assert(decodes_steps(sh.take(i as int), input, v@, ends));
                    assert(sh[i as int] == fresh);
                    assert(sh[v@.len() as int].fails_with(
                        input.skip(ends.last() as int),
                        e,
                        x,
                        (n - ends.last()) as nat,
                    ));
                    assert(fails_appending(sh, input, e, v@, n));
                    assert(all_default(sh));
                }
                return Err(e);
            },
        }
        i = i + 1;
    }
    proof {
        assert(shapes.take(shapes.len() as int) =~= shapes);
        assert(decodes_steps(shapes, input, v@, ends));
        assert(decodes_all(shapes, input, v@, (buffer.pos() - start) as nat));
    }
    Ok(())
}

/// The destination's capacity, taken when the decode starts, says how many elements are
/// read; each is decoded into a fresh `T::default()` and the decoded elements replace those
/// the destination held. No count is read from the stream. On a failure the destination
/// holds the elements decoded before it. For an element type with no size, whose capacity
/// is `usize::MAX`, use `deserialize_presized` with the intended count instead.
impl<T: FromNetworkOrder + Default> FromNetworkOrder for Vec<T> {
    open spec fn decodes_to(&self, input: Seq<u8>, v: Vec<T>, n: nat) -> bool {
        exists|shapes: Seq<T>|
            #![trigger decodes_all(shapes, input, v@, n)]
            {
                &&& shapes.len() >= self@.len()
                &&& all_default(shapes)
                &&& decodes_all(shapes, input, v@, n)
            }
    }

    open spec fn fails_with(&self, input: Seq<u8>, e: Error, v: Vec<T>, n: nat) -> bool {
        exists|shapes: Seq<T>|
            #![trigger fails_appending(shapes, input, e, v@, n)]
            all_default(shapes) && fails_appending(shapes, input, e, v@, n)
    }

    fn deserialize_from(&mut self, buffer: &mut Cursor) -> (r: Result<(), Error>) {
        let count = capacity_of(self);
        deserialize_presized(self, count, buffer)
    }
}

/// A box adds no bytes: its content is written by its own rule. This covers a boxed trait
/// object, whose rule is that of the concrete value behind it.
impl<T: ToNetworkOrder + ?Sized> ToNetworkOrder for Box<T> {
    open spec fn wire(&self) -> Seq<u8> {
        (**self).wire()
    }

    fn serialize_to(&self, buffer: &mut Vec<u8>) -> (r: Result<usize, Error>) {
        (**self).serialize_to(buffer)
    }
}

/// A box adds no bytes: its content is decoded in place by its own rule.
impl<T: FromNetworkOrder> FromNetworkOrder for Box<T> {
    open spec fn decodes_to(&self, input: Seq<u8>, v: Box<T>, n: nat) -> bool {
        (**self).decodes_to(input, *v, n)
    }

    open spec fn fails_with(&self, input: Seq<u8>, e: Error, v: Box<T>, n: nat) -> bool {
        (**self).fails_with(input, e, *v, n)
    }

    fn deserialize_from(&mut self, buffer: &mut Cursor) -> (r: Result<(), Error>) {
        (**self).deserialize_from(buffer)
    }
}

/// A marker with no data has no bytes.
impl<T> ToNetworkOrder for PhantomData<T> {
    open spec fn wire(&self) -> Seq<u8> {
        Seq::empty()
    }

    fn serialize_to(&self, buffer: &mut Vec<u8>) -> (r: Result<usize, Error>) {
        assert(buffer@ =~= buffer@ + Seq::<u8>::empty());
        Ok(0)
    }
}

/// A marker with no data reads no bytes.
impl<T> FromNetworkOrder for PhantomData<T> {
    open spec fn decodes_to(&self, input: Seq<u8>, v: PhantomData<T>, n: nat) -> bool {
        n == 0
    }

    open spec fn fails_with(&self, input: Seq<u8>, e: Error, v: PhantomData<T>, n: nat) -> bool {
        false
    }

    fn deserialize_from(&mut self, buffer: &mut Cursor) -> (r: Result<(), Error>) {
        Ok(())
    }
}

} // verus!

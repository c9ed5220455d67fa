//! Records: a pair of fields, and the tag-length-value record, whose parts are encoded
//! independently in a fixed order.
use vstd::prelude::*;

use crate::cursor::Cursor;
use crate::error::Error;
use crate::{FromNetworkOrder, ToNetworkOrder};

verus! {

/// A tag, a length and a value, each written and read by its own rule, in that order. The
/// length is not checked against the bytes the value takes: that is left to the caller.
pub struct TLV<T, L, V> {
    pub tag: T,
    pub length: L,
    pub value: V,
}

impl<T, L, V> TLV<T, L, V> {
    /// A record of the three parts.
    pub fn new(tag: T, length: L, value: V) -> (r: TLV<T, L, V>)
        ensures
            r.tag == tag,
            r.length == length,
            r.value == value,
    {
        TLV { tag, length, value }
    }
}

impl<T: ToNetworkOrder, L: ToNetworkOrder, V: ToNetworkOrder> ToNetworkOrder for TLV<T, L, V> {
    open spec fn wire(&self) -> Seq<u8> {
        self.tag.wire() + self.length.wire() + self.value.wire()
    }

    fn serialize_to(&self, buffer: &mut Vec<u8>) -> (r: Result<usize, Error>) {
        let start_len = buffer.len();
        self.tag.serialize_to(buffer)?;
        self.length.serialize_to(buffer)?;
        self.value.serialize_to(buffer)?;
        assert(buffer@ =~= old(buffer)@ + self.wire());
        Ok(buffer.len() - start_len)
    }
}

/// The tag decodes from `input` to `t` in `n1` bytes, then the length from what follows to
/// `l` in `n2` bytes.
pub open spec fn head_decodes<T: FromNetworkOrder, L: FromNetworkOrder>(
    tag: T,
    length: L,
    input: Seq<u8>,
    t: T,
    l: L,
    n1: nat,
    n2: nat,
) -> bool {
    &&& tag.decodes_to(input, t, n1)
    &&& length.decodes_to(input.skip(n1 as int), l, n2)
}

impl<
    T: FromNetworkOrder,
    L: FromNetworkOrder,
    V: FromNetworkOrder,
> FromNetworkOrder for TLV<T, L, V> {
    open spec fn decodes_to(&self, input: Seq<u8>, v: TLV<T, L, V>, n: nat) -> bool {
        exists|n1: nat, n2: nat|
            #![trigger head_decodes(self.tag, self.length, input, v.tag, v.length, n1, n2)]
            {
                &&& n1 + n2 <= n
                &&& head_decodes(self.tag, self.length, input, v.tag, v.length, n1, n2)
                &&& self.value.decodes_to(input.skip((n1 + n2) as int), v.value, (n - n1 - n2) as nat)
            }
    }

    /// The first part that fails gives the error; the parts before it keep their decoded
    /// values and the parts after it are not read.
    open spec fn fails_with(&self, input: Seq<u8>, e: Error, v: TLV<T, L, V>, n: nat) -> bool {
        ||| {
            &&& self.tag.fails_with(input, e, v.tag, n)
            &&& v.length == self.length
            &&& v.value == self.value
        }
        ||| exists|n1: nat|
            #![trigger self.tag.decodes_to(input, v.tag, n1)]
            {
                &&& n1 <= n
                &&& self.tag.decodes_to(input, v.tag, n1)
                &&& self.length.fails_with(input.skip(n1 as int), e, v.length, (n - n1) as nat)
                &&& v.value == self.value
            }
        ||| exists|n1: nat, n2: nat|
            #![trigger head_decodes(self.tag, self.length, input, v.tag, v.length, n1, n2)]
            {
                &&& n1 + n2 <= n
                &&& head_decodes(self.tag, self.length, input, v.tag, v.length, n1, n2)
                &&& self.value.fails_with(
                    input.skip((n1 + n2) as int),
                    e,
                    v.value,
                    (n - n1 - n2) as nat,
                )
            }
    }

    fn deserialize_from(&mut self, buffer: &mut Cursor) -> (r: Result<(), Error>) {
        let ghost input = buffer.rest();
        let ghost start = buffer.pos();
        let ghost old_self = *self;
        proof {
            use_type_invariant(&*buffer);
        }
        match self.tag.deserialize_from(buffer) {
            Ok(()) => {},
            Err(e) => {
                return Err(e);
            },
        }
        let ghost after_tag = buffer.pos();
        proof {
            use_type_invariant(&*buffer);
            assert(buffer.rest() =~= input.skip(after_tag - start));
        }
        match self.length.deserialize_from(buffer) {
            Ok(()) => {},
            Err(e) => {
                proof {
                    use_type_invariant(&*buffer);
                    let n = (buffer.pos() - start) as nat;
                    let n1 = (after_tag - start) as nat;
                    assert(old_self.tag.decodes_to(input, self.tag, n1));
                    assert(old_self.length.fails_with(input.skip(n1 as int), e, self.length, (n - n1) as nat));
                }
                return Err(e);
            },
        }
        let ghost after_length = buffer.pos();
        proof {
            use_type_invariant(&*buffer);
            assert(buffer.rest() =~= input.skip(after_length - start));
            assert(input.skip(after_tag - start).skip(after_length - after_tag) =~= input.skip(after_length - start));
            assert(head_decodes(
                old_self.tag,
                old_self.length,
                input,
                self.tag,
                self.length,
                (after_tag - start) as nat,
                (after_length - after_tag) as nat,
            ));
        }
        match self.value.deserialize_from(buffer) {
            Ok(()) => {},
            Err(e) => {
                proof {
                    assert(head_decodes(
                        old_self.tag,
                        old_self.length,
                        input,
                        self.tag,
                        self.length,
                        (after_tag - start) as nat,
                        (after_length - after_tag) as nat,
                    ));
                }
                return Err(e);
            },
        }
        proof {
            assert(head_decodes(
                old_self.tag,
                old_self.length,
                input,
                self.tag,
                self.length,
                (after_tag - start) as nat,
                (after_length - after_tag) as nat,
            ));
        }
        Ok(())
    }
}

/// A record of two fields is written as the first field's bytes, then the second's.
impl<A: ToNetworkOrder, B: ToNetworkOrder> ToNetworkOrder for (A, B) {
    open spec fn wire(&self) -> Seq<u8> {
        self.0.wire() + self.1.wire()
    }

    fn serialize_to(&self, buffer: &mut Vec<u8>) -> (r: Result<usize, Error>) {
        let start_len = buffer.len();
        self.0.serialize_to(buffer)?;
        self.1.serialize_to(buffer)?;
        assert(buffer@ =~= old(buffer)@ + self.wire());
        Ok(buffer.len() - start_len)
    }
}

/// A record of two fields is read field by field, in place, stopping at the first failure.
impl<A: FromNetworkOrder, B: FromNetworkOrder> FromNetworkOrder for (A, B) {
    open spec fn decodes_to(&self, input: Seq<u8>, v: (A, B), n: nat) -> bool {
        exists|n1: nat|
            #![trigger self.0.decodes_to(input, v.0, n1)]
            {
                &&& n1 <= n
                &&& self.0.decodes_to(input, v.0, n1)
                &&& self.1.decodes_to(input.skip(n1 as int), v.1, (n - n1) as nat)
            }
    }

    open spec fn fails_with(&self, input: Seq<u8>, e: Error, v: (A, B), n: nat) -> bool {
        ||| self.0.fails_with(input, e, v.0, n) && v.1 == self.1
        ||| exists|n1: nat|
            #![trigger self.0.decodes_to(input, v.0, n1)]
            {
                &&& n1 <= n
                &&& self.0.decodes_to(input, v.0, n1)
                &&& self.1.fails_with(input.skip(n1 as int), e, v.1, (n - n1) as nat)
            }
    }

    fn deserialize_from(&mut self, buffer: &mut Cursor) -> (r: Result<(), Error>) {
        let ghost input = buffer.rest();
        let ghost start = buffer.pos();
        let ghost old_self = *self;
        match self.0.deserialize_from(buffer) {
            Ok(()) => {},
            Err(e) => {
                return Err(e);
            },
        }
        let ghost after_first = buffer.pos();
        proof {
            use_type_invariant(&*buffer);
            assert(buffer.rest() =~= input.skip(after_first - start));
            assert(old_self.0.decodes_to(input, self.0, (after_first - start) as nat));
        }
        let res = self.1.deserialize_from(buffer);
        proof {
            use_type_invariant(&*buffer);
            let n1 = (after_first - start) as nat;
            let n = (buffer.pos() - start) as nat;
            assert(old_self.0.decodes_to(input, self.0, n1));
            assert(input.skip(n1 as int) =~= old(buffer).rest().skip(n1 as int));
        }
        res
    }
}

} // verus!

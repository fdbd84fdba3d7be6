//! Big-endian byte framing shared by the canonical encoders.

use vstd::prelude::*;

verus! {

/// Canonical encoding failure.
#[derive(Clone, Copy, Debug, PartialEq, Eq, Structural)]
pub enum EncodeError {
    /// A length does not fit its fixed-width length prefix.
    LengthOverflow,
}

/// Appends a 32-bit big-endian collection length.
pub fn put_length(output: &mut Vec<u8>, length: usize) -> (result: Result<(), EncodeError>)
    ensures
        result is Ok <==> length <= u32::MAX,
        result is Ok ==> final(output)@ == old(output)@ + be32(length as u32),
        result is Err ==> final(output)@ == old(output)@,
{
    if length > u32::MAX as usize {
        return Err(EncodeError::LengthOverflow);
    }
    put_u32(output, length as u32);
    Ok(())
}

/// Appends a 16-bit big-endian length followed by the bytes.
pub fn put_u16_blob(output: &mut Vec<u8>, bytes: &[u8]) -> (result: Result<(), EncodeError>)
    ensures
        result is Ok <==> bytes@.len() <= u16::MAX,
        result is Ok ==> final(output)@ == old(output)@ + be16(bytes@.len() as u16) + bytes@,
        result is Err ==> final(output)@ == old(output)@,
{
    if bytes.len() > u16::MAX as usize {
        return Err(EncodeError::LengthOverflow);
    }
    put_u16(output, bytes.len() as u16);
    put_bytes(output, bytes);
    Ok(())
}

/// Appends a 32-bit big-endian length followed by the bytes.
pub fn put_u32_blob(output: &mut Vec<u8>, bytes: &[u8]) -> (result: Result<(), EncodeError>)
    ensures
        result is Ok <==> bytes@.len() <= u32::MAX,
        result is Ok ==> final(output)@ == old(output)@ + be32(bytes@.len() as u32) + bytes@,
        result is Err ==> final(output)@ == old(output)@,
{
    if bytes.len() > u32::MAX as usize {
        return Err(EncodeError::LengthOverflow);
    }
    put_u32(output, bytes.len() as u32);
    put_bytes(output, bytes);
    Ok(())
}

/// Big-endian bytes of a 16-bit word.
pub open spec fn be16(x: u16) -> Seq<u8> {
    seq![(x >> 8u16) as u8, x as u8]
}

/// Big-endian bytes of a 32-bit word.
pub open spec fn be32(x: u32) -> Seq<u8> {
    seq![(x >> 24u32) as u8, (x >> 16u32) as u8, (x >> 8u32) as u8, x as u8]
}

/// A byte string behind its 32-bit big-endian length.
pub open spec fn blob(bytes: Seq<u8>) -> Seq<u8> {
    be32(bytes.len() as u32) + bytes
}

/// Big-endian bytes of a 64-bit word.
pub open spec fn be64(x: u64) -> Seq<u8> {
    seq![
        (x >> 56u64) as u8,
        (x >> 48u64) as u8,
        (x >> 40u64) as u8,
        (x >> 32u64) as u8,
        (x >> 24u64) as u8,
        (x >> 16u64) as u8,
        (x >> 8u64) as u8,
        x as u8,
    ]
}

/// Big-endian bytes of a 128-bit word.
pub open spec fn be128(x: u128) -> Seq<u8> {
    be64((x >> 64u128) as u64) + be64(x as u64)
}

/// Appends one byte.
pub fn put_u8(output: &mut Vec<u8>, value: u8)
    ensures
        final(output)@ == old(output)@.push(value),
{
    output.push(value);
}

/// Appends a big-endian 16-bit word.
pub fn put_u16(output: &mut Vec<u8>, value: u16)
    ensures
        final(output)@ == old(output)@ + be16(value),
{
    output.push((value >> 8u16) as u8);
    output.push(value as u8);
    assert(output@ =~= old(output)@ + be16(value));
}

/// Appends a big-endian 32-bit word.
pub fn put_u32(output: &mut Vec<u8>, value: u32)
    ensures
        final(output)@ == old(output)@ + be32(value),
{
    output.push((value >> 24u32) as u8);
    output.push((value >> 16u32) as u8);
    output.push((value >> 8u32) as u8);
    output.push(value as u8);
    assert(output@ =~= old(output)@ + be32(value));
}

/// Appends a big-endian 64-bit word.
pub fn put_u64(output: &mut Vec<u8>, value: u64)
    ensures
        final(output)@ == old(output)@ + be64(value),
{
    output.push((value >> 56u64) as u8);
    output.push((value >> 48u64) as u8);
    output.push((value >> 40u64) as u8);
    output.push((value >> 32u64) as u8);
    output.push((value >> 24u64) as u8);
    output.push((value >> 16u64) as u8);
    output.push((value >> 8u64) as u8);
    output.push(value as u8);
    assert(output@ =~= old(output)@ + be64(value));
}

/// Appends a big-endian 128-bit word.
pub fn put_u128(output: &mut Vec<u8>, value: u128)
    ensures
        final(output)@ == old(output)@ + be128(value),
{
    put_u64(output, (value >> 64u128) as u64);
    put_u64(output, value as u64);
    assert(output@ =~= old(output)@ + be128(value));
}

/// Appends raw bytes.
pub fn put_bytes(output: &mut Vec<u8>, bytes: &[u8])
    ensures
        final(output)@ == old(output)@ + bytes@,
{
    let mut index: usize = 0;
    while index < bytes.len()
        invariant
            index <= bytes@.len(),
            output@ == old(output)@ + bytes@.subrange(0, index as int),
        decreases bytes@.len() - index,
    {
        output.push(bytes[index]);
        index = index + 1;
        assert(output@ =~= old(output)@ + bytes@.subrange(0, index as int));
    }
    assert(bytes@.subrange(0, bytes@.len() as int) =~= bytes@);
}

/// Distinct 16-bit words have distinct encodings.
pub proof fn lemma_be16_injective(a: u16, b: u16)
    requires
        be16(a) == be16(b),
    ensures
        a == b,
{
    assert(be16(a)[0] == be16(b)[0] && be16(a)[1] == be16(b)[1]);
    assert(((a >> 8u16) as u8 == (b >> 8u16) as u8 && a as u8 == b as u8) ==> a == b)
        by (bit_vector);
}

/// Distinct 32-bit words have distinct encodings.
pub proof fn lemma_be32_injective(a: u32, b: u32)
    requires
        be32(a) == be32(b),
    ensures
        a == b,
{
    assert(be32(a)[0] == be32(b)[0] && be32(a)[1] == be32(b)[1]);
    assert(be32(a)[2] == be32(b)[2] && be32(a)[3] == be32(b)[3]);
    assert(((a >> 24u32) as u8 == (b >> 24u32) as u8 && (a >> 16u32) as u8 == (b >> 16u32) as u8
        && (a >> 8u32) as u8 == (b >> 8u32) as u8 && a as u8 == b as u8) ==> a == b)
        by (bit_vector);
}

/// Distinct 64-bit words have distinct encodings.
pub proof fn lemma_be64_injective(a: u64, b: u64)
    requires
        be64(a) == be64(b),
    ensures
        a == b,
{
    assert(be64(a)[0] == be64(b)[0] && be64(a)[1] == be64(b)[1]);
    assert(be64(a)[2] == be64(b)[2] && be64(a)[3] == be64(b)[3]);
    assert(be64(a)[4] == be64(b)[4] && be64(a)[5] == be64(b)[5]);
    assert(be64(a)[6] == be64(b)[6] && be64(a)[7] == be64(b)[7]);
    assert(((a >> 56u64) as u8 == (b >> 56u64) as u8 && (a >> 48u64) as u8 == (b >> 48u64) as u8
        && (a >> 40u64) as u8 == (b >> 40u64) as u8 && (a >> 32u64) as u8 == (b >> 32u64) as u8
        && (a >> 24u64) as u8 == (b >> 24u64) as u8 && (a >> 16u64) as u8 == (b >> 16u64) as u8
        && (a >> 8u64) as u8 == (b >> 8u64) as u8 && a as u8 == b as u8) ==> a == b)
        by (bit_vector);
}

} // verus!

verus! {

/// A value with one canonical byte encoding.
pub trait Encodable {
    /// The canonical bytes of the value.
    spec fn spec_encoding(&self) -> Seq<u8>;

    /// Appends the canonical bytes of the value.
    fn encode_to(&self, output: &mut Vec<u8>)
        ensures
            final(output)@ == old(output)@ + self.spec_encoding(),
    ;
}

/// Concatenated canonical encodings of a sequence of values.
pub open spec fn encode_all<T: Encodable>(values: Seq<T>) -> Seq<u8>
    decreases values.len(),
{
    if values.len() == 0 {
        Seq::empty()
    } else {
        encode_all(values.drop_last()) + values.last().spec_encoding()
    }
}

/// The concatenation read from the front: the first value's bytes, then the rest.
pub proof fn lemma_encode_all_first<T: Encodable>(values: Seq<T>)
    requires
        values.len() > 0,
    ensures
        encode_all(values) == values[0].spec_encoding() + encode_all(values.drop_first()),
    decreases values.len(),
{
    if values.len() == 1 {
        assert(values.drop_last().len() == 0);
        assert(values.drop_first().len() == 0);
        assert(encode_all(values.drop_last()) == Seq::<u8>::empty());
        assert(encode_all(values.drop_first()) == Seq::<u8>::empty());
        assert(values.last() == values[0]);
        assert(Seq::<u8>::empty() + values[0].spec_encoding() =~= values[0].spec_encoding());
        assert(values[0].spec_encoding() + Seq::<u8>::empty() =~= values[0].spec_encoding());
    } else {
        lemma_encode_all_first(values.drop_last());
        assert(values.drop_last().drop_first() =~= values.drop_first().drop_last());
        assert(values.drop_first().last() == values.last());
        assert(values.drop_last()[0] == values[0]);
        assert(encode_all(values) =~= values[0].spec_encoding() + encode_all(values.drop_first()));
    }
}

/// Two byte strings that agree and split at the same length agree part by part.
pub proof fn lemma_split_equal(p: Seq<u8>, x: Seq<u8>, q: Seq<u8>, y: Seq<u8>)
    requires
        p + x == q + y,
        p.len() == q.len(),
    ensures
        p == q,
        x == y,
{
    assert(p =~= (p + x).subrange(0, p.len() as int));
    assert(q =~= (q + y).subrange(0, q.len() as int));
    assert(x =~= (p + x).subrange(p.len() as int, (p + x).len() as int));
    assert(y =~= (q + y).subrange(q.len() as int, (q + y).len() as int));
}

/// A 64-bit word read off the front of a byte string.
pub proof fn lemma_be64_prefix(a: u64, x: Seq<u8>, b: u64, y: Seq<u8>)
    requires
        be64(a) + x == be64(b) + y,
    ensures
        a == b,
        x == y,
{
    lemma_split_equal(be64(a), x, be64(b), y);
    lemma_be64_injective(a, b);
}

/// A 32-bit word read off the front of a byte string.
pub proof fn lemma_be32_prefix(a: u32, x: Seq<u8>, b: u32, y: Seq<u8>)
    requires
        be32(a) + x == be32(b) + y,
    ensures
        a == b,
        x == y,
{
    lemma_split_equal(be32(a), x, be32(b), y);
    lemma_be32_injective(a, b);
}

/// A 16-bit word read off the front of a byte string.
pub proof fn lemma_be16_prefix(a: u16, x: Seq<u8>, b: u16, y: Seq<u8>)
    requires
        be16(a) + x == be16(b) + y,
    ensures
        a == b,
        x == y,
{
    lemma_split_equal(be16(a), x, be16(b), y);
    lemma_be16_injective(a, b);
}

/// One byte read off the front of a byte string.
pub proof fn lemma_byte_prefix(a: u8, x: Seq<u8>, b: u8, y: Seq<u8>)
    requires
        seq![a] + x == seq![b] + y,
    ensures
        a == b,
        x == y,
{
    lemma_split_equal(seq![a], x, seq![b], y);
    assert(seq![a][0] == seq![b][0]);
}

/// Appends the canonical encodings of every value in order.
pub fn encode_each<T: Encodable>(values: &[T], output: &mut Vec<u8>)
    ensures
        final(output)@ == old(output)@ + encode_all(values@),
{
    let mut index: usize = 0;
    while index < values.len()
        invariant
            index <= values@.len(),
            output@ == old(output)@ + encode_all(values@.subrange(0, index as int)),
        decreases values@.len() - index,
    {
        let ghost before = output@;
        values[index].encode_to(output);
        proof {
            let prefix = values@.subrange(0, index + 1);
            assert(prefix.drop_last() =~= values@.subrange(0, index as int));
            assert(prefix.last() == values@[index as int]);
        }
        index = index + 1;
        assert(output@ =~= old(output)@ + encode_all(values@.subrange(0, index as int)));
    }
    assert(values@.subrange(0, values@.len() as int) =~= values@);
}

/// Concatenated length-prefixed canonical encodings of a sequence of values.
pub open spec fn blob_all<T: Encodable>(values: Seq<T>) -> Seq<u8>
    decreases values.len(),
{
    if values.len() == 0 {
        Seq::empty()
    } else {
        blob_all(values.drop_last()) + blob(values.last().spec_encoding())
    }
}

/// Appends the length-prefixed canonical encoding of every value in order.
pub fn put_blob_each<T: Encodable>(values: &[T], output: &mut Vec<u8>)
    requires
        forall|i: int| 0 <= i < values@.len() ==> #[trigger] values@[i].spec_encoding().len() <= u32::MAX,
    ensures
        final(output)@ == old(output)@ + blob_all(values@),
{
    let mut index: usize = 0;
    while index < values.len()
        invariant
            index <= values@.len(),
            forall|i: int| 0 <= i < values@.len() ==> #[trigger] values@[i].spec_encoding().len() <= u32::MAX,
            output@ == old(output)@ + blob_all(values@.subrange(0, index as int)),
        decreases values@.len() - index,
    {
        let mut item: Vec<u8> = Vec::new();
        values[index].encode_to(&mut item);
        assert(item@ =~= values@[index as int].spec_encoding());
        put_u32(output, item.len() as u32);
        put_bytes(output, item.as_slice());
        proof {
            let prefix = values@.subrange(0, index + 1);
            assert(prefix.drop_last() =~= values@.subrange(0, index as int));
            assert(prefix.last() == values@[index as int]);
        }
        index = index + 1;
        assert(output@ =~= old(output)@ + blob_all(values@.subrange(0, index as int)));
    }
    assert(values@.subrange(0, values@.len() as int) =~= values@);
}

impl Encodable for u64 {
    open spec fn spec_encoding(&self) -> Seq<u8> {
        be64(*self)
    }

    fn encode_to(&self, output: &mut Vec<u8>) {
        put_u64(output, *self);
    }
}

} // verus!

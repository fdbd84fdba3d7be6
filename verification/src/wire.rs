//! Bounds-checked reading of big-endian wire fields from a byte string.

use vstd::prelude::*;

use crate::commit::Hash32;
use crate::encode::{be128, be16, be32, be64, blob};

verus! {

/// Why a field could not be read.
#[derive(Clone, Copy, Debug, PartialEq, Eq, Structural)]
pub enum WireError {
    /// The end offset of the field does not fit a machine word.
    LengthOverflow,
    /// The input ended before the field was complete.
    UnexpectedEnd {
        /// Offset of the field.
        offset: usize,
        /// Bytes the field needs.
        requested: usize,
    },
}

/// Where a field of `count` bytes at `offset` ends in an input of `len`
/// bytes, or why it cannot be read.
pub open spec fn field_end(len: int, offset: int, count: int) -> Result<int, WireError> {
    if offset + count > usize::MAX {
        Err(WireError::LengthOverflow)
    } else if offset + count > len {
        Err(WireError::UnexpectedEnd { offset: offset as usize, requested: count as usize })
    } else {
        Ok(offset + count)
    }
}

/// The end of a field of `count` bytes at `offset`.
pub fn take(bytes: &[u8], offset: usize, count: usize) -> (end: Result<usize, WireError>)
    requires
        offset <= bytes@.len(),
    ensures
        match field_end(bytes@.len() as int, offset as int, count as int) {
            Ok(e) => end == Ok::<usize, WireError>(e as usize),
            Err(e) => end == Err::<usize, WireError>(e),
        },
{
    if count > usize::MAX - offset {
        return Err(WireError::LengthOverflow);
    }
    let end = offset + count;
    if end > bytes.len() {
        return Err(WireError::UnexpectedEnd { offset, requested: count });
    }
    Ok(end)
}

/// Reads one byte.
pub fn read_u8(bytes: &[u8], offset: usize) -> (read: Result<(u8, usize), WireError>)
    requires
        offset <= bytes@.len(),
    ensures
        match field_end(bytes@.len() as int, offset as int, 1) {
            Ok(e) => read matches Ok((v, end)) && end == e && v == bytes@[offset as int],
            Err(e) => read == Err::<(u8, usize), WireError>(e),
        },
{
    let end = match take(bytes, offset, 1) {
        Ok(end) => end,
        Err(error) => return Err(error),
    };
    Ok((bytes[offset], end))
}

/// Reads a big-endian 16-bit word.
pub fn read_u16(bytes: &[u8], offset: usize) -> (read: Result<(u16, usize), WireError>)
    requires
        offset <= bytes@.len(),
    ensures
        match field_end(bytes@.len() as int, offset as int, 2) {
            Ok(e) => read matches Ok((v, end)) && end == e && be16(v) == bytes@.subrange(offset as int, e),
            Err(e) => read == Err::<(u16, usize), WireError>(e),
        },
{
    let end = match take(bytes, offset, 2) {
        Ok(end) => end,
        Err(error) => return Err(error),
    };
    let b0 = bytes[offset];
    let b1 = bytes[offset + 1];
    let v: u16 = ((b0 as u16) << 8u16) | (b1 as u16);
    assert((v >> 8u16) as u8 == b0 && v as u8 == b1) by (bit_vector)
        requires
            v == ((b0 as u16) << 8u16) | (b1 as u16),
    ;
    assert(be16(v) =~= bytes@.subrange(offset as int, end as int));
    Ok((v, end))
}

/// Reads a big-endian 32-bit word.
pub fn read_u32(bytes: &[u8], offset: usize) -> (read: Result<(u32, usize), WireError>)
    requires
        offset <= bytes@.len(),
    ensures
        match field_end(bytes@.len() as int, offset as int, 4) {
            Ok(e) => read matches Ok((v, end)) && end == e && be32(v) == bytes@.subrange(offset as int, e),
            Err(e) => read == Err::<(u32, usize), WireError>(e),
        },
{
    let end = match take(bytes, offset, 4) {
        Ok(end) => end,
        Err(error) => return Err(error),
    };
    let b0 = bytes[offset];
    let b1 = bytes[offset + 1];
    let b2 = bytes[offset + 2];
    let b3 = bytes[offset + 3];
    let v: u32 = ((b0 as u32) << 24u32) | ((b1 as u32) << 16u32) | ((b2 as u32) << 8u32) | (b3 as u32);
    assert((v >> 24u32) as u8 == b0 && (v >> 16u32) as u8 == b1 && (v >> 8u32) as u8 == b2 && v as u8 == b3)
        by (bit_vector)
        requires
            v == ((b0 as u32) << 24u32) | ((b1 as u32) << 16u32) | ((b2 as u32) << 8u32) | (b3 as u32),
    ;
    assert(be32(v) =~= bytes@.subrange(offset as int, end as int));
    Ok((v, end))
}

/// Reads a big-endian 64-bit word.
pub fn read_u64(bytes: &[u8], offset: usize) -> (read: Result<(u64, usize), WireError>)
    requires
        offset <= bytes@.len(),
    ensures
        match field_end(bytes@.len() as int, offset as int, 8) {
            Ok(e) => read matches Ok((v, end)) && end == e && be64(v) == bytes@.subrange(offset as int, e),
            Err(e) => read == Err::<(u64, usize), WireError>(e),
        },
{
    match take(bytes, offset, 8) {
        Ok(_) => {},
        Err(error) => return Err(error),
    }
    let (high, middle) = match read_u32(bytes, offset) {
        Ok(read) => read,
        Err(error) => return Err(error),
    };
    let (low, end) = match read_u32(bytes, middle) {
        Ok(read) => read,
        Err(error) => return Err(error),
    };
    let v: u64 = ((high as u64) << 32u64) | (low as u64);
    assert((v >> 56u64) as u8 == (high >> 24u32) as u8 && (v >> 48u64) as u8 == (high >> 16u32) as u8 && (v
        >> 40u64) as u8 == (high >> 8u32) as u8 && (v >> 32u64) as u8 == high as u8 && (v >> 24u64) as u8 == (low
        >> 24u32) as u8 && (v >> 16u64) as u8 == (low >> 16u32) as u8 && (v >> 8u64) as u8 == (low >> 8u32) as u8
        && v as u8 == low as u8) by (bit_vector)
        requires
            v == ((high as u64) << 32u64) | (low as u64),
    ;
    assert(be64(v) =~= be32(high) + be32(low));
    assert(bytes@.subrange(offset as int, end as int) =~= bytes@.subrange(offset as int, middle as int)
        + bytes@.subrange(middle as int, end as int));
    Ok((v, end))
}

/// Reads a big-endian 128-bit word.
pub fn read_u128(bytes: &[u8], offset: usize) -> (read: Result<(u128, usize), WireError>)
    requires
        offset <= bytes@.len(),
    ensures
        match field_end(bytes@.len() as int, offset as int, 16) {
            Ok(e) => read matches Ok((v, end)) && end == e && be128(v) == bytes@.subrange(offset as int, e),
            Err(e) => read == Err::<(u128, usize), WireError>(e),
        },
{
    match take(bytes, offset, 16) {
        Ok(_) => {},
        Err(error) => return Err(error),
    }
    let (high, middle) = match read_u64(bytes, offset) {
        Ok(read) => read,
        Err(error) => return Err(error),
    };
    let (low, end) = match read_u64(bytes, middle) {
        Ok(read) => read,
        Err(error) => return Err(error),
    };
    let v: u128 = ((high as u128) << 64u128) | (low as u128);
    assert((v >> 64u128) as u64 == high && v as u64 == low) by (bit_vector)
        requires
            v == ((high as u128) << 64u128) | (low as u128),
    ;
    assert(bytes@.subrange(offset as int, end as int) =~= bytes@.subrange(offset as int, middle as int)
        + bytes@.subrange(middle as int, end as int));
    Ok((v, end))
}

/// Reads a 32-byte commitment.
pub fn read_hash(bytes: &[u8], offset: usize) -> (read: Result<(Hash32, usize), WireError>)
    requires
        offset <= bytes@.len(),
    ensures
        match field_end(bytes@.len() as int, offset as int, 32) {
            Ok(e) => read matches Ok((h, end)) && end == e && h.spec_bytes() == bytes@.subrange(offset as int, e),
            Err(e) => read == Err::<(Hash32, usize), WireError>(e),
        },
{
    let end = match take(bytes, offset, 32) {
        Ok(end) => end,
        Err(error) => return Err(error),
    };
    let mut raw = [0u8; 32];
    let mut index: usize = 0;
    while index < 32
        invariant
            index <= 32,
            end == offset + 32,
            end <= bytes@.len(),
            raw@.len() == 32,
            forall|i: int| 0 <= i < index ==> raw@[i] == bytes@[offset + i],
        decreases 32 - index,
    {
        raw[index] = bytes[offset + index];
        index = index + 1;
    }
    let hash = Hash32::new(raw);
    assert(hash.spec_bytes() =~= bytes@.subrange(offset as int, end as int));
    Ok((hash, end))
}

/// Reads a 32-bit length and returns where the content it announces starts
/// and ends.
pub fn read_blob(bytes: &[u8], offset: usize) -> (read: Result<(usize, usize), WireError>)
    requires
        offset <= bytes@.len(),
    ensures
        match field_end(bytes@.len() as int, offset as int, 4) {
            Err(e) => read == Err::<(usize, usize), WireError>(e),
            Ok(start) => {
                let length = blob_length(bytes@, offset as int);
                match field_end(bytes@.len() as int, start, length as int) {
                    Err(e) => read == Err::<(usize, usize), WireError>(e),
                    Ok(end) => read == Ok::<(usize, usize), WireError>((start as usize, end as usize)),
                }
            },
        },
        read matches Ok((start, end)) ==> start == offset + 4 && start <= end <= bytes@.len() && bytes@.subrange(
            offset as int,
            end as int,
        ) == be32((end - start) as u32) + bytes@.subrange(start as int, end as int),
{
    let (length, start) = match read_u32(bytes, offset) {
        Ok(read) => read,
        Err(error) => return Err(error),
    };
    proof {
        lemma_be32_value(bytes@, offset as int, length);
    }
    let end = match take(bytes, start, length as usize) {
        Ok(end) => end,
        Err(error) => return Err(error),
    };
    assert(bytes@.subrange(offset as int, end as int) =~= bytes@.subrange(offset as int, start as int)
        + bytes@.subrange(start as int, end as int));
    Ok((start, end))
}

/// The 32-bit big-endian length stored at `offset`.
pub open spec fn blob_length(bytes: Seq<u8>, offset: int) -> u32 {
    choose|v: u32| be32(v) == bytes.subrange(offset, offset + 4)
}

/// The length read at `offset` is the word whose bytes stand there.
pub proof fn lemma_be32_value(bytes: Seq<u8>, offset: int, v: u32)
    requires
        0 <= offset,
        offset + 4 <= bytes.len(),
        be32(v) == bytes.subrange(offset, offset + 4),
    ensures
        blob_length(bytes, offset) == v,
{
    let w = blob_length(bytes, offset);
    assert(be32(w) == bytes.subrange(offset, offset + 4));
    crate::encode::lemma_be32_injective(v, w);
}

/// A blob of `content` at `offset`: its length reads back and the content
/// follows it.
pub proof fn lemma_blob_fits(bytes: Seq<u8>, offset: int, content: Seq<u8>)
    requires
        0 <= offset,
        offset + 4 + content.len() <= bytes.len(),
        bytes.subrange(offset, offset + 4 + content.len()) == blob(content),
        content.len() <= u32::MAX,
    ensures
        blob_length(bytes, offset) == content.len(),
        bytes.subrange(offset + 4, offset + 4 + content.len()) == content,
{
    let whole = bytes.subrange(offset, offset + 4 + content.len());
    assert(bytes.subrange(offset, offset + 4) =~= whole.subrange(0, 4));
    assert(blob(content).subrange(0, 4) =~= be32(content.len() as u32));
    lemma_be32_value(bytes, offset, content.len() as u32);
    assert(bytes.subrange(offset + 4, offset + 4 + content.len()) =~= whole.subrange(4, 4 + content.len() as int));
    assert(blob(content).subrange(4, 4 + content.len() as int) =~= content);
}

/// Whether two byte strings are equal.
pub fn bytes_equal(left: &[u8], right: &[u8]) -> (equal: bool)
    ensures
        equal == (left@ == right@),
{
    if left.len() != right.len() {
        return false;
    }
    let mut index: usize = 0;
    while index < left.len()
        invariant
            index <= left@.len(),
            left@.len() == right@.len(),
            forall|i: int| 0 <= i < index ==> left@[i] == right@[i],
        decreases left@.len() - index,
    {
        if left[index] != right[index] {
            return false;
        }
        index = index + 1;
    }
    assert(left@ =~= right@);
    true
}

} // verus!

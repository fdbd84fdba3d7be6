//! Strict, bounded decoding of canonical value bytes.
//!
//! A decoded value re-encodes to exactly the bytes it was read from: tags,
//! flags and counts are checked, records and maps must already be in
//! canonical order, text must be UTF-8, and nothing may trail the value.
//! Depth, collection length, node count, payload bytes and input size are
//! bounded by explicit limits.

use vstd::prelude::*;

use vstd::utf8::{encode_utf8, valid_utf8};

use crate::encode::{be128, be16, be32, be64};
use crate::value::{
    entries_ordered, fields_ordered,
    encoding, encodings, entry_encodings, entry_models, field_encodings, field_models, lemma_entry_models,
    lemma_field_models, lemma_models, models, Field, MapEntry, Value, ValueError, ValueModel,
};
use crate::wire::{field_end, read_u128, read_u16, read_u32, read_u64, read_u8, take, WireError};

verus! {

/// Default bound on the bytes of one encoded value.
pub const DEFAULT_MAX_INPUT_BYTES: u64 = 16777216;

/// Structural bounds on one decoded value.
#[derive(Clone, Copy, Debug, PartialEq, Eq, Structural)]
pub struct ValueLimits {
    /// Deepest admitted nesting; the root is at depth zero.
    pub max_depth: u32,
    /// Longest admitted collection.
    pub max_collection_len: u64,
    /// Most admitted value nodes.
    pub max_nodes: u64,
    /// Most admitted byte-string and text payload bytes.
    pub max_payload_bytes: u64,
}

impl Default for ValueLimits {
    fn default() -> (limits: Self)
        ensures
            limits.max_depth == 64,
            limits.max_collection_len == 65536,
            limits.max_nodes == 1000000,
            limits.max_payload_bytes == 16777216,
    {
        ValueLimits { max_depth: 64, max_collection_len: 65536, max_nodes: 1000000, max_payload_bytes: 16777216 }
    }
}

/// Bounds on one decoding call.
#[derive(Clone, Copy, Debug, PartialEq, Eq, Structural)]
pub struct DecodeLimits {
    /// Most admitted input bytes.
    pub max_input_bytes: u64,
    /// Structural bounds on the value.
    pub value: ValueLimits,
}

impl Default for DecodeLimits {
    fn default() -> (limits: Self)
        ensures
            limits.max_input_bytes == DEFAULT_MAX_INPUT_BYTES,
            limits.value.max_depth == 64,
            limits.value.max_collection_len == 65536,
            limits.value.max_nodes == 1000000,
            limits.value.max_payload_bytes == 16777216,
    {
        DecodeLimits { max_input_bytes: DEFAULT_MAX_INPUT_BYTES, value: ValueLimits::default() }
    }
}

/// Node and payload counts of a decoded value.
#[derive(Clone, Copy, Debug, PartialEq, Eq, Structural)]
pub struct ValueMetrics {
    /// Value nodes.
    pub nodes: u64,
    /// Byte-string and text payload bytes.
    pub payload_bytes: u64,
}

/// Strict value decoding failure.
#[derive(Clone, Copy, Debug, PartialEq, Eq, Structural)]
pub enum DecodeError {
    /// The input exceeds its byte limit.
    InputLimit {
        /// Configured limit.
        limit: u64,
        /// Actual input bytes.
        actual: u64,
    },
    /// An offset or length does not fit a machine word.
    LengthOverflow,
    /// The input ended inside a field.
    UnexpectedEnd {
        /// Offset of the field.
        offset: usize,
        /// Bytes the field needs.
        requested: usize,
    },
    /// A value tag outside the closed algebra.
    UnknownTag(u8),
    /// A boolean or presence byte other than 0 or 1.
    InvalidFlag(u8),
    /// Text bytes are not UTF-8.
    InvalidUtf8,
    /// Nesting exceeds the depth limit.
    DepthLimit {
        /// Configured limit.
        limit: u32,
    },
    /// A collection exceeds the length limit.
    CollectionLimit {
        /// Configured limit.
        limit: u64,
        /// Declared length.
        attempted: u64,
    },
    /// The value holds too many nodes.
    NodeLimit {
        /// Configured limit.
        limit: u64,
        /// Attempted node count.
        attempted: u64,
    },
    /// The value holds too many payload bytes.
    PayloadLimit {
        /// Configured limit.
        limit: u64,
        /// Attempted payload bytes.
        attempted: u64,
    },
    /// Bytes follow the complete value.
    TrailingBytes {
        /// Offset of the first trailing byte.
        offset: usize,
    },
    /// A record or map is not in canonical order.
    InvalidValue(ValueError),
}

fn wire_error(error: WireError) -> (mapped: DecodeError)
    ensures
        mapped == decode_wire_error(error),
{
    match error {
        WireError::LengthOverflow => DecodeError::LengthOverflow,
        WireError::UnexpectedEnd { offset, requested } => DecodeError::UnexpectedEnd { offset, requested },
    }
}

/// A wire failure as a decoding failure.
pub open spec fn decode_wire_error(error: WireError) -> DecodeError {
    match error {
        WireError::LengthOverflow => DecodeError::LengthOverflow,
        WireError::UnexpectedEnd { offset, requested } => DecodeError::UnexpectedEnd { offset, requested },
    }
}

// ---------------------------------------------------------------------------
// Metrics of value models.
// ---------------------------------------------------------------------------

/// The number of value nodes.
pub open spec fn node_count(value: ValueModel) -> nat
    decreases value,
{
    match value {
        ValueModel::Tuple(items) => 1 + item_nodes(items),
        ValueModel::Vector(items) => 1 + item_nodes(items),
        ValueModel::Record(fields) => 1 + field_nodes(fields),
        ValueModel::Mapping(entries) => 1 + entry_nodes(entries),
        ValueModel::Sum { payload, .. } => match payload {
            Some(child) => 1 + node_count(*child),
            None => 1,
        },
        _ => 1,
    }
}

/// The nodes of values.
pub open spec fn item_nodes(items: Seq<ValueModel>) -> nat
    decreases items,
{
    if items.len() == 0 {
        0
    } else {
        item_nodes(items.drop_last()) + node_count(items.last())
    }
}

/// The nodes of record fields.
pub open spec fn field_nodes(fields: Seq<(u16, ValueModel)>) -> nat
    decreases fields,
{
    if fields.len() == 0 {
        0
    } else {
        field_nodes(fields.drop_last()) + node_count(fields.last().1)
    }
}

/// The nodes of map entries.
pub open spec fn entry_nodes(entries: Seq<(ValueModel, ValueModel)>) -> nat
    decreases entries,
{
    if entries.len() == 0 {
        0
    } else {
        entry_nodes(entries.drop_last()) + node_count(entries.last().0) + node_count(entries.last().1)
    }
}

/// The byte-string and text payload bytes.
pub open spec fn payload_size(value: ValueModel) -> nat
    decreases value,
{
    match value {
        ValueModel::Bytes(bytes) => bytes.len(),
        ValueModel::Text(chars) => encode_utf8(chars).len(),
        ValueModel::Tuple(items) => item_payload(items),
        ValueModel::Vector(items) => item_payload(items),
        ValueModel::Record(fields) => field_payload(fields),
        ValueModel::Mapping(entries) => entry_payload(entries),
        ValueModel::Sum { payload, .. } => match payload {
            Some(child) => payload_size(*child),
            None => 0,
        },
        _ => 0,
    }
}

/// The payload bytes of values.
pub open spec fn item_payload(items: Seq<ValueModel>) -> nat
    decreases items,
{
    if items.len() == 0 {
        0
    } else {
        item_payload(items.drop_last()) + payload_size(items.last())
    }
}

/// The payload bytes of record fields.
pub open spec fn field_payload(fields: Seq<(u16, ValueModel)>) -> nat
    decreases fields,
{
    if fields.len() == 0 {
        0
    } else {
        field_payload(fields.drop_last()) + payload_size(fields.last().1)
    }
}

/// The payload bytes of map entries.
pub open spec fn entry_payload(entries: Seq<(ValueModel, ValueModel)>) -> nat
    decreases entries,
{
    if entries.len() == 0 {
        0
    } else {
        entry_payload(entries.drop_last()) + payload_size(entries.last().0) + payload_size(entries.last().1)
    }
}

/// Nesting from `depth` down stays within `max_depth`, and every collection
/// within `max_len`.
pub open spec fn shape_fits(value: ValueModel, depth: nat, max_depth: nat, max_len: nat) -> bool
    decreases value,
{
    depth <= max_depth && match value {
        ValueModel::Tuple(items) => items.len() <= max_len && items_fit(items, depth + 1, max_depth, max_len),
        ValueModel::Vector(items) => items.len() <= max_len && items_fit(items, depth + 1, max_depth, max_len),
        ValueModel::Record(fields) => fields.len() <= max_len && fields_fit(fields, depth + 1, max_depth, max_len),
        ValueModel::Mapping(entries) => entries.len() <= max_len && entries_fit(
            entries,
            depth + 1,
            max_depth,
            max_len,
        ),
        ValueModel::Sum { payload, .. } => match payload {
            Some(child) => shape_fits(*child, depth + 1, max_depth, max_len),
            None => true,
        },
        _ => true,
    }
}

/// Every value fits at the depth.
pub open spec fn items_fit(items: Seq<ValueModel>, depth: nat, max_depth: nat, max_len: nat) -> bool
    decreases items,
{
    items.len() == 0 || (items_fit(items.drop_last(), depth, max_depth, max_len) && shape_fits(
        items.last(),
        depth,
        max_depth,
        max_len,
    ))
}

/// Every field value fits at the depth.
pub open spec fn fields_fit(fields: Seq<(u16, ValueModel)>, depth: nat, max_depth: nat, max_len: nat) -> bool
    decreases fields,
{
    fields.len() == 0 || (fields_fit(fields.drop_last(), depth, max_depth, max_len) && shape_fits(
        fields.last().1,
        depth,
        max_depth,
        max_len,
    ))
}

/// Every entry key and value fits at the depth.
pub open spec fn entries_fit(entries: Seq<(ValueModel, ValueModel)>, depth: nat, max_depth: nat, max_len: nat) -> bool
    decreases entries,
{
    entries.len() == 0 || (entries_fit(entries.drop_last(), depth, max_depth, max_len) && shape_fits(
        entries.last().0,
        depth,
        max_depth,
        max_len,
    ) && shape_fits(entries.last().1, depth, max_depth, max_len))
}

/// Record fields are strictly ordered and map keys strictly increase,
/// at every level of the value.
pub open spec fn value_canonical(value: ValueModel) -> bool
    decreases value,
{
    match value {
        ValueModel::Tuple(items) => items_canonical(items),
        ValueModel::Vector(items) => items_canonical(items),
        ValueModel::Record(fields) => fields_ordered(fields) && fields_canonical(fields),
        ValueModel::Mapping(entries) => entries_ordered(entries) && entries_canonical(entries),
        ValueModel::Sum { payload, .. } => match payload {
            Some(child) => value_canonical(*child),
            None => true,
        },
        _ => true,
    }
}

/// Every value is canonical.
pub open spec fn items_canonical(items: Seq<ValueModel>) -> bool
    decreases items,
{
    items.len() == 0 || (items_canonical(items.drop_last()) && value_canonical(items.last()))
}

/// Every field value is canonical.
pub open spec fn fields_canonical(fields: Seq<(u16, ValueModel)>) -> bool
    decreases fields,
{
    fields.len() == 0 || (fields_canonical(fields.drop_last()) && value_canonical(fields.last().1))
}

/// Every entry key and value is canonical.
pub open spec fn entries_canonical(entries: Seq<(ValueModel, ValueModel)>) -> bool
    decreases entries,
{
    entries.len() == 0 || (entries_canonical(entries.drop_last()) && value_canonical(entries.last().0)
        && value_canonical(entries.last().1))
}

/// The leading tag of a value's encoding.
pub open spec fn value_tag(value: ValueModel) -> u8 {
    match value {
        ValueModel::Unit => 0,
        ValueModel::Bool(_) => 1,
        ValueModel::U128(_) => 2,
        ValueModel::I128(_) => 3,
        ValueModel::Bytes(_) => 4,
        ValueModel::Text(_) => 5,
        ValueModel::Enum { .. } => 6,
        ValueModel::Tuple(_) => 7,
        ValueModel::Record(_) => 8,
        ValueModel::Sum { .. } => 9,
        ValueModel::Vector(_) => 10,
        ValueModel::Mapping(_) => 11,
    }
}

proof fn lemma_be128_injective(a: u128, b: u128)
    requires
        be128(a) == be128(b),
    ensures
        a == b,
{
    let x = be128(a);
    let y = be128(b);
    assert(x.subrange(0, 8) =~= be64((a >> 64u128) as u64) && y.subrange(0, 8) =~= be64((b >> 64u128) as u64));
    assert(x.subrange(8, 16) =~= be64(a as u64) && y.subrange(8, 16) =~= be64(b as u64));
    crate::encode::lemma_be64_injective((a >> 64u128) as u64, (b >> 64u128) as u64);
    crate::encode::lemma_be64_injective(a as u64, b as u64);
    assert(((a >> 64u128) as u64 == (b >> 64u128) as u64 && a as u64 == b as u64) ==> a == b) by (bit_vector);
}

/// Where the parts of a value lie in its encoding.
proof fn lemma_layout(bytes: Seq<u8>, pos: int, v: ValueModel)
    requires
        0 <= pos,
        pos + encoding(v).len() <= bytes.len(),
        bytes.subrange(pos, pos + encoding(v).len()) == encoding(v),
    ensures
        encoding(v).len() >= 1,
        bytes[pos] == value_tag(v),
        node_count(v) >= 1,
        match v {
            ValueModel::Unit => encoding(v).len() == 1,
            ValueModel::Bool(b) => encoding(v).len() == 2 && bytes[pos + 1] == (if b {
                1u8
            } else {
                0u8
            }),
            ValueModel::U128(x) => encoding(v).len() == 17 && bytes.subrange(pos + 1, pos + 17) == be128(x),
            ValueModel::I128(x) => encoding(v).len() == 17 && bytes.subrange(pos + 1, pos + 17) == be128(x as u128),
            ValueModel::Bytes(b) => encoding(v).len() == 9 + b.len() && bytes.subrange(pos + 1, pos + 9) == be64(
                b.len() as u64,
            ) && bytes.subrange(pos + 9, pos + 9 + b.len()) == b,
            ValueModel::Text(c) => encoding(v).len() == 9 + encode_utf8(c).len() && bytes.subrange(pos + 1, pos + 9)
                == be64(encode_utf8(c).len() as u64) && bytes.subrange(pos + 9, pos + 9 + encode_utf8(c).len())
                == encode_utf8(c),
            ValueModel::Enum { type_id, variant } => encoding(v).len() == 7 && bytes.subrange(pos + 1, pos + 5)
                == be32(type_id) && bytes.subrange(pos + 5, pos + 7) == be16(variant),
            ValueModel::Tuple(items) => encoding(v).len() == 9 + encodings(items).len() && bytes.subrange(
                pos + 1,
                pos + 9,
            ) == be64(items.len() as u64) && bytes.subrange(pos + 9, pos + 9 + encodings(items).len())
                == encodings(items),
            ValueModel::Vector(items) => encoding(v).len() == 9 + encodings(items).len() && bytes.subrange(
                pos + 1,
                pos + 9,
            ) == be64(items.len() as u64) && bytes.subrange(pos + 9, pos + 9 + encodings(items).len())
                == encodings(items),
            ValueModel::Record(fields) => encoding(v).len() == 9 + field_encodings(fields).len() && bytes.subrange(
                pos + 1,
                pos + 9,
            ) == be64(fields.len() as u64) && bytes.subrange(pos + 9, pos + 9 + field_encodings(fields).len())
                == field_encodings(fields),
            ValueModel::Mapping(entries) => encoding(v).len() == 9 + entry_encodings(entries).len()
                && bytes.subrange(pos + 1, pos + 9) == be64(entries.len() as u64) && bytes.subrange(
                pos + 9,
                pos + 9 + entry_encodings(entries).len(),
            ) == entry_encodings(entries),
            ValueModel::Sum { type_id, variant, payload } => bytes.subrange(pos + 1, pos + 5) == be32(type_id)
                && bytes.subrange(pos + 5, pos + 7) == be16(variant) && match payload {
                None => encoding(v).len() == 8 && bytes[pos + 7] == 0,
                Some(child) => encoding(v).len() == 8 + encoding(*child).len() && bytes[pos + 7] == 1
                    && bytes.subrange(pos + 8, pos + 8 + encoding(*child).len()) == encoding(*child),
            },
        },
{
    let e = encoding(v);
    assert(bytes[pos] == e[0]);
    match v {
        ValueModel::Bool(b) => {
            assert(bytes[pos + 1] == e[1]);
        },
        ValueModel::Sum { type_id, variant, payload } => {
            assert(bytes[pos + 7] == e[7]);
            assert(bytes.subrange(pos + 1, pos + 5) =~= e.subrange(1, 5));
            assert(bytes.subrange(pos + 5, pos + 7) =~= e.subrange(5, 7));
            if let Some(child) = payload {
                assert(bytes.subrange(pos + 8, pos + 8 + encoding(*child).len()) =~= e.subrange(8, e.len() as int));
            }
        },
        ValueModel::Enum { .. } => {
            assert(bytes.subrange(pos + 1, pos + 5) =~= e.subrange(1, 5));
            assert(bytes.subrange(pos + 5, pos + 7) =~= e.subrange(5, 7));
        },
        ValueModel::U128(_) => {
            assert(bytes.subrange(pos + 1, pos + 17) =~= e.subrange(1, 17));
        },
        ValueModel::I128(_) => {
            assert(bytes.subrange(pos + 1, pos + 17) =~= e.subrange(1, 17));
        },
        ValueModel::Unit => {},
        _ => {
            assert(bytes.subrange(pos + 1, pos + 9) =~= e.subrange(1, 9));
            assert(bytes.subrange(pos + 9, pos + e.len()) =~= e.subrange(9, e.len() as int));
        },
    }
}

/// A prefix of the values encodes to a prefix of their encodings, with
/// no more nodes or payload.
proof fn lemma_items_prefix(s: Seq<ValueModel>, k: int)
    requires
        0 <= k <= s.len(),
    ensures
        encodings(s.take(k)).len() <= encodings(s).len(),
        encodings(s).subrange(0, encodings(s.take(k)).len() as int) == encodings(s.take(k)),
        item_nodes(s.take(k)) <= item_nodes(s),
        item_payload(s.take(k)) <= item_payload(s),
    decreases s.len(),
{
    if k == s.len() {
        assert(s.take(k) =~= s);
    } else {
        lemma_items_prefix(s.drop_last(), k);
        assert(s.drop_last().take(k) =~= s.take(k));
        assert(encodings(s).subrange(0, encodings(s.take(k)).len() as int) =~= encodings(s.drop_last()).subrange(
            0,
            encodings(s.take(k)).len() as int,
        ));
    }
}

/// Each of the values fits and is canonical when all do and are.
proof fn lemma_items_member(s: Seq<ValueModel>, k: int, depth: nat, max_depth: nat, max_len: nat)
    requires
        0 <= k < s.len(),
    ensures
        items_fit(s, depth, max_depth, max_len) ==> shape_fits(s[k], depth, max_depth, max_len),
        items_canonical(s) ==> value_canonical(s[k]),
    decreases s.len(),
{
    if k < s.len() - 1 {
        lemma_items_member(s.drop_last(), k, depth, max_depth, max_len);
    }
}

proof fn lemma_fields_prefix(s: Seq<(u16, ValueModel)>, k: int)
    requires
        0 <= k <= s.len(),
    ensures
        field_encodings(s.take(k)).len() <= field_encodings(s).len(),
        field_encodings(s).subrange(0, field_encodings(s.take(k)).len() as int) == field_encodings(s.take(k)),
        field_nodes(s.take(k)) <= field_nodes(s),
        field_payload(s.take(k)) <= field_payload(s),
    decreases s.len(),
{
    if k == s.len() {
        assert(s.take(k) =~= s);
    } else {
        lemma_fields_prefix(s.drop_last(), k);
        assert(s.drop_last().take(k) =~= s.take(k));
        assert(field_encodings(s).subrange(0, field_encodings(s.take(k)).len() as int)
            =~= field_encodings(s.drop_last()).subrange(0, field_encodings(s.take(k)).len() as int));
    }
}

proof fn lemma_fields_member(s: Seq<(u16, ValueModel)>, k: int, depth: nat, max_depth: nat, max_len: nat)
    requires
        0 <= k < s.len(),
    ensures
        fields_fit(s, depth, max_depth, max_len) ==> shape_fits(s[k].1, depth, max_depth, max_len),
        fields_canonical(s) ==> value_canonical(s[k].1),
    decreases s.len(),
{
    if k < s.len() - 1 {
        lemma_fields_member(s.drop_last(), k, depth, max_depth, max_len);
    }
}

proof fn lemma_entries_prefix(s: Seq<(ValueModel, ValueModel)>, k: int)
    requires
        0 <= k <= s.len(),
    ensures
        entry_encodings(s.take(k)).len() <= entry_encodings(s).len(),
        entry_encodings(s).subrange(0, entry_encodings(s.take(k)).len() as int) == entry_encodings(s.take(k)),
        entry_nodes(s.take(k)) <= entry_nodes(s),
        entry_payload(s.take(k)) <= entry_payload(s),
    decreases s.len(),
{
    if k == s.len() {
        assert(s.take(k) =~= s);
    } else {
        lemma_entries_prefix(s.drop_last(), k);
        assert(s.drop_last().take(k) =~= s.take(k));
        assert(entry_encodings(s).subrange(0, entry_encodings(s.take(k)).len() as int)
            =~= entry_encodings(s.drop_last()).subrange(0, entry_encodings(s.take(k)).len() as int));
    }
}

proof fn lemma_entries_member(s: Seq<(ValueModel, ValueModel)>, k: int, depth: nat, max_depth: nat, max_len: nat)
    requires
        0 <= k < s.len(),
    ensures
        entries_fit(s, depth, max_depth, max_len) ==> shape_fits(s[k].0, depth, max_depth, max_len) && shape_fits(
            s[k].1,
            depth,
            max_depth,
            max_len,
        ),
        entries_canonical(s) ==> value_canonical(s[k].0) && value_canonical(s[k].1),
    decreases s.len(),
{
    if k < s.len() - 1 {
        lemma_entries_member(s.drop_last(), k, depth, max_depth, max_len);
    }
}

/// A value model within every structural limit, with its counts.
pub open spec fn within_limits(value: ValueModel, limits: ValueLimits) -> bool {
    &&& shape_fits(value, 0, limits.max_depth as nat, limits.max_collection_len as nat)
    &&& node_count(value) <= limits.max_nodes
    &&& payload_size(value) <= limits.max_payload_bytes
}

// ---------------------------------------------------------------------------
// Calls into std.
// ---------------------------------------------------------------------------

/// Calls `String::from_utf8`, which accepts exactly the well-formed UTF-8
/// byte strings and keeps their bytes as the string's encoding.
#[verifier::external_body]
pub(crate) fn utf8_string(bytes: Vec<u8>) -> (text: Option<String>)
    ensures
        text is Some <==> valid_utf8(bytes@),
        text matches Some(s) ==> encode_utf8(s@) == bytes@,
{
    match String::from_utf8(bytes) {
        Ok(text) => Some(text),
        Err(_) => None,
    }
}

pub(crate) fn copy_range(bytes: &[u8], start: usize, end: usize) -> (copy: Vec<u8>)
    requires
        start <= end <= bytes@.len(),
    ensures
        copy@ == bytes@.subrange(start as int, end as int),
{
    let mut copy: Vec<u8> = Vec::new();
    let mut index = start;
    while index < end
        invariant
            start <= index <= end <= bytes@.len(),
            copy@ == bytes@.subrange(start as int, index as int),
        decreases end - index,
    {
        copy.push(bytes[index]);
        index = index + 1;
        assert(copy@ =~= bytes@.subrange(start as int, index as int));
    }
    copy
}

// ---------------------------------------------------------------------------
// Decoding.
// ---------------------------------------------------------------------------

/// Running counts of one decoding call.
struct Counts {
    nodes: u64,
    payload: u64,
}

/// What a successful decoding of one node guarantees: the bytes it spans are
/// the canonical encoding of the value, which fits below the depth, and the
/// counts grew by exactly its nodes and payload within the limits.
spec fn node_decoded(
    bytes: Seq<u8>,
    pos: int,
    depth: nat,
    limits: ValueLimits,
    before: Counts,
    after: Counts,
    value: ValueModel,
    end: int,
) -> bool {
    &&& pos < end <= bytes.len()
    &&& bytes.subrange(pos, end) == encoding(value)
    &&& shape_fits(value, depth, limits.max_depth as nat, limits.max_collection_len as nat)
    &&& after.nodes == before.nodes + node_count(value)
    &&& after.payload == before.payload + payload_size(value)
}

/// Counts within the limits.
spec fn counts_fit(counts: Counts, limits: ValueLimits) -> bool {
    counts.nodes <= limits.max_nodes && counts.payload <= limits.max_payload_bytes
}

fn count_node(counts: &mut Counts, limits: &ValueLimits) -> (counted: Result<(), DecodeError>)
    requires
        counts_fit(*old(counts), *limits),
    ensures
        counts_fit(*final(counts), *limits),
        counted is Ok <==> old(counts).nodes < limits.max_nodes,
        counted is Ok ==> final(counts).nodes == old(counts).nodes + 1 && final(counts).payload == old(
            counts,
        ).payload && counts_fit(*final(counts), *limits),
        counted is Err ==> *final(counts) == *old(counts) && counted == Err::<(), DecodeError>(
            DecodeError::NodeLimit {
                limit: limits.max_nodes,
                attempted: if old(counts).nodes < u64::MAX {
                    (old(counts).nodes + 1) as u64
                } else {
                    u64::MAX
                },
            },
        ),
{
    if counts.nodes >= limits.max_nodes {
        let attempted = if counts.nodes < u64::MAX {
            counts.nodes + 1
        } else {
            u64::MAX
        };
        return Err(DecodeError::NodeLimit { limit: limits.max_nodes, attempted });
    }
    counts.nodes = counts.nodes + 1;
    Ok(())
}

fn count_payload(counts: &mut Counts, limits: &ValueLimits, length: u64) -> (counted: Result<(), DecodeError>)
    requires
        counts_fit(*old(counts), *limits),
    ensures
        counts_fit(*final(counts), *limits),
        counted is Ok <==> old(counts).payload + length <= limits.max_payload_bytes,
        counted is Ok ==> final(counts).payload == old(counts).payload + length && final(counts).nodes == old(
            counts,
        ).nodes && counts_fit(*final(counts), *limits),
        counted is Err ==> *final(counts) == *old(counts) && counted == Err::<(), DecodeError>(
            DecodeError::PayloadLimit {
                limit: limits.max_payload_bytes,
                attempted: if old(counts).payload + length <= u64::MAX {
                    (old(counts).payload + length) as u64
                } else {
                    u64::MAX
                },
            },
        ),
{
    if length > limits.max_payload_bytes - counts.payload {
        let attempted = if length <= u64::MAX - counts.payload {
            counts.payload + length
        } else {
            u64::MAX
        };
        return Err(DecodeError::PayloadLimit { limit: limits.max_payload_bytes, attempted });
    }
    counts.payload = counts.payload + length;
    Ok(())
}

/// The unsigned integer eight big-endian bytes spell.
pub open spec fn be64_of(bytes: Seq<u8>) -> u64 {
    choose|v: u64| be64(v) == bytes
}

proof fn lemma_be64_of(v: u64, bytes: Seq<u8>)
    requires
        be64(v) == bytes,
    ensures
        be64_of(bytes) == v,
{
    let w = be64_of(bytes);
    assert(be64(w) == bytes);
    crate::encode::lemma_be64_injective(v, w);
}

/// Reads a 64-bit count or byte length and the end of the content it announces.
fn read_span(bytes: &[u8], offset: usize) -> (read: Result<(u64, usize, usize), DecodeError>)
    requires
        offset <= bytes@.len(),
    ensures
        read matches Ok((length, start, end)) ==> start == offset + 8 && end == start + length && end
            <= bytes@.len() && be64(length) == bytes@.subrange(offset as int, start as int),
        match field_end(bytes@.len() as int, offset as int, 8) {
            Err(e) => read == Err::<(u64, usize, usize), DecodeError>(decode_wire_error(e)),
            Ok(start) => {
                let length = be64_of(bytes@.subrange(offset as int, start));
                if length > usize::MAX {
                    read == Err::<(u64, usize, usize), DecodeError>(DecodeError::LengthOverflow)
                } else {
                    match field_end(bytes@.len() as int, start, length as int) {
                        Err(e) => read == Err::<(u64, usize, usize), DecodeError>(decode_wire_error(e)),
                        Ok(end) => read == Ok::<(u64, usize, usize), DecodeError>(
                            (length, start as usize, end as usize),
                        ),
                    }
                }
            },
        },
{
    let (length, start) = match read_u64(bytes, offset) {
        Ok(read) => read,
        Err(error) => return Err(wire_error(error)),
    };
    proof {
        lemma_be64_of(length, bytes@.subrange(offset as int, start as int));
    }
    if length > usize::MAX as u64 {
        return Err(DecodeError::LengthOverflow);
    }
    let end = match take(bytes, start, length as usize) {
        Ok(end) => end,
        Err(error) => return Err(wire_error(error)),
    };
    Ok((length, start, end))
}

/// Reads a 64-bit collection count within the limit.
fn read_count(bytes: &[u8], offset: usize, limits: &ValueLimits) -> (read: Result<(u64, usize), DecodeError>)
    requires
        offset <= bytes@.len(),
    ensures
        read matches Ok((count, next)) ==> next == offset + 8 && next <= bytes@.len() && count
            <= limits.max_collection_len && be64(count) == bytes@.subrange(offset as int, next as int),
        match field_end(bytes@.len() as int, offset as int, 8) {
            Err(e) => read == Err::<(u64, usize), DecodeError>(decode_wire_error(e)),
            Ok(next) => {
                let count = be64_of(bytes@.subrange(offset as int, next));
                if count > limits.max_collection_len {
                    read == Err::<(u64, usize), DecodeError>(
                        DecodeError::CollectionLimit { limit: limits.max_collection_len, attempted: count },
                    )
                } else {
                    read == Ok::<(u64, usize), DecodeError>((count, next as usize))
                }
            },
        },
{
    let (count, next) = match read_u64(bytes, offset) {
        Ok(read) => read,
        Err(error) => return Err(wire_error(error)),
    };
    proof {
        lemma_be64_of(count, bytes@.subrange(offset as int, next as int));
    }
    if count > limits.max_collection_len {
        return Err(DecodeError::CollectionLimit { limit: limits.max_collection_len, attempted: count });
    }
    Ok((count, next))
}

/// The bytes at `pos` are the canonical encoding of `v`, which fits below
/// the depth and, counted from `counts`, within the limits.
spec fn node_fits(bytes: Seq<u8>, pos: int, depth: nat, limits: ValueLimits, counts: Counts, v: ValueModel) -> bool {
    &&& 0 <= pos
    &&& pos + encoding(v).len() <= bytes.len()
    &&& bytes.subrange(pos, pos + encoding(v).len()) == encoding(v)
    &&& shape_fits(v, depth, limits.max_depth as nat, limits.max_collection_len as nat)
    &&& counts.nodes + node_count(v) <= limits.max_nodes
    &&& counts.payload + payload_size(v) <= limits.max_payload_bytes
    &&& value_canonical(v)
}

/// The values of a tuple or vector.
spec fn seq_items(v: ValueModel) -> Seq<ValueModel> {
    match v {
        ValueModel::Tuple(items) => items,
        ValueModel::Vector(items) => items,
        _ => Seq::empty(),
    }
}

/// The next value of a fitting tuple or vector fits where the decoder has got to.
proof fn lemma_item_fits(
    bytes: Seq<u8>,
    pos: int,
    depth: nat,
    limits: ValueLimits,
    before: Counts,
    at: Counts,
    m: ValueModel,
    k: int,
    cur: int,
)
    requires
        node_fits(bytes, pos, depth, limits, before, m),
        m is Tuple || m is Vector,
        0 <= k < seq_items(m).len(),
        cur == pos + 9 + encodings(seq_items(m).take(k)).len(),
        at.nodes == before.nodes + 1 + item_nodes(seq_items(m).take(k)),
        at.payload == before.payload + item_payload(seq_items(m).take(k)),
    ensures
        node_fits(bytes, cur, depth + 1, limits, at, seq_items(m)[k]),
        encodings(seq_items(m).take(k + 1)) == encodings(seq_items(m).take(k)) + encoding(seq_items(m)[k]),
        item_nodes(seq_items(m).take(k + 1)) == item_nodes(seq_items(m).take(k)) + node_count(seq_items(m)[k]),
        item_payload(seq_items(m).take(k + 1)) == item_payload(seq_items(m).take(k)) + payload_size(seq_items(m)[k]),
{
    let items = seq_items(m);
    lemma_layout(bytes, pos, m);
    assert(items.take(k + 1).drop_last() =~= items.take(k));
    assert(items.take(k + 1).last() == items[k]);
    lemma_items_prefix(items, k + 1);
    lemma_items_member(items, k, depth + 1, limits.max_depth as nat, limits.max_collection_len as nat);
    let e = encodings(items);
    let pre = encodings(items.take(k));
    let item = encoding(items[k]);
    assert(e.subrange(0, (pre.len() + item.len()) as int) == pre + item);
    assert(bytes.subrange(pos + 9, pos + 9 + e.len()) == e);
    assert(bytes.subrange(cur, cur + item.len()) =~= (pre + item).subrange(pre.len() as int, (pre.len() + item.len()) as int));
    assert(bytes.subrange(cur, cur + item.len()) =~= item);
}

/// The fields of a record.
spec fn record_fields(v: ValueModel) -> Seq<(u16, ValueModel)> {
    match v {
        ValueModel::Record(fields) => fields,
        _ => Seq::empty(),
    }
}

/// The next field of a fitting record lies where the decoder has got to.
proof fn lemma_field_fits(
    bytes: Seq<u8>,
    pos: int,
    depth: nat,
    limits: ValueLimits,
    before: Counts,
    at: Counts,
    m: ValueModel,
    k: int,
    cur: int,
)
    requires
        node_fits(bytes, pos, depth, limits, before, m),
        m is Record,
        0 <= k < record_fields(m).len(),
        cur == pos + 9 + field_encodings(record_fields(m).take(k)).len(),
        at.nodes == before.nodes + 1 + field_nodes(record_fields(m).take(k)),
        at.payload == before.payload + field_payload(record_fields(m).take(k)),
    ensures
        cur + 2 <= bytes.len(),
        bytes.subrange(cur, cur + 2) == be16(record_fields(m)[k].0),
        node_fits(bytes, cur + 2, depth + 1, limits, at, record_fields(m)[k].1),
        field_encodings(record_fields(m).take(k + 1)) == field_encodings(record_fields(m).take(k)) + be16(
            record_fields(m)[k].0,
        ) + encoding(record_fields(m)[k].1),
        field_nodes(record_fields(m).take(k + 1)) == field_nodes(record_fields(m).take(k)) + node_count(
            record_fields(m)[k].1,
        ),
        field_payload(record_fields(m).take(k + 1)) == field_payload(record_fields(m).take(k)) + payload_size(
            record_fields(m)[k].1,
        ),
{
    let fields = record_fields(m);
    lemma_layout(bytes, pos, m);
    assert(node_count(m) == 1 + field_nodes(fields));
    assert(payload_size(m) == field_payload(fields));
    assert(fields_fit(fields, depth + 1, limits.max_depth as nat, limits.max_collection_len as nat));
    assert(fields_canonical(fields));
    assert(fields.take(k + 1).drop_last() =~= fields.take(k));
    assert(fields.take(k + 1).last() == fields[k]);
    lemma_fields_prefix(fields, k + 1);
    lemma_fields_member(fields, k, depth + 1, limits.max_depth as nat, limits.max_collection_len as nat);
    let e = field_encodings(fields);
    let pre = field_encodings(fields.take(k));
    let id = be16(fields[k].0);
    let item = encoding(fields[k].1);
    let whole = pre + id + item;
    assert(e.subrange(0, whole.len() as int) == whole);
    assert(bytes.subrange(pos + 9, pos + 9 + e.len()) == e);
    assert(bytes.subrange(cur, cur + 2) =~= whole.subrange(pre.len() as int, pre.len() + 2int));
    assert(bytes.subrange(cur + 2, cur + 2 + item.len()) =~= whole.subrange(pre.len() + 2int, whole.len() as int));
    assert(cur + 2 + item.len() <= bytes.len());
    assert(bytes.subrange(cur + 2, cur + 2 + item.len()) == item);
    assert(shape_fits(fields[k].1, depth + 1, limits.max_depth as nat, limits.max_collection_len as nat));
    assert(at.nodes + node_count(fields[k].1) <= limits.max_nodes);
    assert(at.payload + payload_size(fields[k].1) <= limits.max_payload_bytes);
    assert(value_canonical(fields[k].1));
}

/// The entries of a map.
spec fn map_entries(v: ValueModel) -> Seq<(ValueModel, ValueModel)> {
    match v {
        ValueModel::Mapping(entries) => entries,
        _ => Seq::empty(),
    }
}

/// The next key of a fitting map lies where the decoder has got to, and
/// its value right after it.
#[verifier::rlimit(60)]
proof fn lemma_entry_fits(
    bytes: Seq<u8>,
    pos: int,
    depth: nat,
    limits: ValueLimits,
    before: Counts,
    at: Counts,
    m: ValueModel,
    k: int,
    cur: int,
)
    requires
        node_fits(bytes, pos, depth, limits, before, m),
        m is Mapping,
        0 <= k < map_entries(m).len(),
        cur == pos + 9 + entry_encodings(map_entries(m).take(k)).len(),
        at.nodes == before.nodes + 1 + entry_nodes(map_entries(m).take(k)),
        at.payload == before.payload + entry_payload(map_entries(m).take(k)),
    ensures
        node_fits(bytes, cur, depth + 1, limits, at, map_entries(m)[k].0),
        node_fits(
            bytes,
            cur + encoding(map_entries(m)[k].0).len(),
            depth + 1,
            limits,
            Counts {
                nodes: (at.nodes + node_count(map_entries(m)[k].0)) as u64,
                payload: (at.payload + payload_size(map_entries(m)[k].0)) as u64,
            },
            map_entries(m)[k].1,
        ),
        entry_encodings(map_entries(m).take(k + 1)) == entry_encodings(map_entries(m).take(k)) + encoding(
            map_entries(m)[k].0,
        ) + encoding(map_entries(m)[k].1),
        entry_nodes(map_entries(m).take(k + 1)) == entry_nodes(map_entries(m).take(k)) + node_count(
            map_entries(m)[k].0,
        ) + node_count(map_entries(m)[k].1),
        entry_payload(map_entries(m).take(k + 1)) == entry_payload(map_entries(m).take(k)) + payload_size(
            map_entries(m)[k].0,
        ) + payload_size(map_entries(m)[k].1),
{
    let entries = map_entries(m);
    lemma_layout(bytes, pos, m);
    assert(node_count(m) == 1 + entry_nodes(entries));
    assert(payload_size(m) == entry_payload(entries));
    assert(entries_fit(entries, depth + 1, limits.max_depth as nat, limits.max_collection_len as nat));
    assert(entries_canonical(entries));
    assert(entries.take(k + 1).drop_last() =~= entries.take(k));
    assert(entries.take(k + 1).last() == entries[k]);
    lemma_entries_prefix(entries, k + 1);
    lemma_entries_member(entries, k, depth + 1, limits.max_depth as nat, limits.max_collection_len as nat);
    let e = entry_encodings(entries);
    let pre = entry_encodings(entries.take(k));
    let key = encoding(entries[k].0);
    let item = encoding(entries[k].1);
    let whole = pre + key + item;
    assert(e.subrange(0, whole.len() as int) == whole);
    assert(bytes.subrange(pos + 9, pos + 9 + e.len()) == e);
    assert(bytes.subrange(cur, cur + key.len()) =~= whole.subrange(pre.len() as int, (pre.len() + key.len()) as int));
    assert(bytes.subrange(cur + key.len(), cur + key.len() + item.len()) =~= whole.subrange(
        (pre.len() + key.len()) as int,
        whole.len() as int,
    ));
    assert(cur + key.len() + item.len() <= bytes.len());
    assert(bytes.subrange(cur, cur + key.len()) == key);
    assert(bytes.subrange(cur + key.len(), cur + key.len() + item.len()) == item);
    assert(shape_fits(entries[k].0, depth + 1, limits.max_depth as nat, limits.max_collection_len as nat));
    assert(shape_fits(entries[k].1, depth + 1, limits.max_depth as nat, limits.max_collection_len as nat));
    assert(at.nodes + node_count(entries[k].0) + node_count(entries[k].1) <= limits.max_nodes);
    assert(at.payload + payload_size(entries[k].0) + payload_size(entries[k].1) <= limits.max_payload_bytes);
    assert(value_canonical(entries[k].0) && value_canonical(entries[k].1));
    assert(node_fits(bytes, cur, depth + 1, limits, at, entries[k].0));
}

#[verifier::rlimit(80)]
#[verifier::spinoff_prover]
fn decode_node(bytes: &[u8], pos: usize, depth: u32, limits: &ValueLimits, counts: &mut Counts) -> (decoded:
    Result<(Value, usize), DecodeError>)
    requires
        pos <= bytes@.len(),
        counts_fit(*old(counts), *limits),
    ensures
        counts_fit(*final(counts), *limits),
        decoded matches Ok((v, end)) ==> node_decoded(
            bytes@,
            pos as int,
            depth as nat,
            *limits,
            *old(counts),
            *final(counts),
            v@,
            end as int,
        ),
        forall|v: ValueModel| #[trigger] node_fits(bytes@, pos as int, depth as nat, *limits, *old(counts), v) ==> (
        decoded matches Ok((w, end)) && w@ == v && end == pos + encoding(v).len()),
    decreases bytes@.len() - pos, 1int,
{
    let total = bytes.len();
    assert(bytes@.len() == total);
    let ghost before = *counts;
    if depth > limits.max_depth {
                proof {
                    assert forall|v: ValueModel| !#[trigger] node_fits(bytes@, pos as int, depth as nat, *limits, before, v) by {
                        if node_fits(bytes@, pos as int, depth as nat, *limits, before, v) {
                            lemma_layout(bytes@, pos as int, v);
                        }
                    }
                }
        return Err(DecodeError::DepthLimit { limit: limits.max_depth });
    }
    match count_node(counts, limits) {
        Ok(()) => {},
        Err(error) => {
                    proof {
                        assert forall|v: ValueModel| !#[trigger] node_fits(bytes@, pos as int, depth as nat, *limits, before, v) by {
                            if node_fits(bytes@, pos as int, depth as nat, *limits, before, v) {
                                lemma_layout(bytes@, pos as int, v);
                            }
                        }
                    }
            return Err(error);
        },
    }
    let (tag, p) = match read_u8(bytes, pos) {
        Ok(read) => read,
        Err(error) => {
                    proof {
                        assert forall|v: ValueModel| !#[trigger] node_fits(bytes@, pos as int, depth as nat, *limits, before, v) by {
                            if node_fits(bytes@, pos as int, depth as nat, *limits, before, v) {
                                lemma_layout(bytes@, pos as int, v);
                            }
                        }
                    }
            return Err(wire_error(error));
        },
    };
    assert(bytes@.subrange(pos as int, p as int) =~= seq![tag]);
    if tag == 0 {
        assert(bytes@.subrange(pos as int, p as int) =~= encoding(ValueModel::Unit));
        proof {
            assert forall|v: ValueModel| #[trigger] node_fits(bytes@, pos as int, depth as nat, *limits, before, v)
                implies v == ValueModel::Unit && encoding(v).len() == 1 by {
                lemma_layout(bytes@, pos as int, v);
            }
        }
        return Ok((Value::Unit, p));
    }
    if tag == 1 {
        let (flag, end) = match read_u8(bytes, p) {
            Ok(read) => read,
            Err(error) => {
                        proof {
                            assert forall|v: ValueModel| !#[trigger] node_fits(bytes@, pos as int, depth as nat, *limits, before, v) by {
                                if node_fits(bytes@, pos as int, depth as nat, *limits, before, v) {
                                    lemma_layout(bytes@, pos as int, v);
                                }
                            }
                        }
                return Err(wire_error(error));
            },
        };
        if flag > 1 {
                    proof {
                        assert forall|v: ValueModel| !#[trigger] node_fits(bytes@, pos as int, depth as nat, *limits, before, v) by {
                            if node_fits(bytes@, pos as int, depth as nat, *limits, before, v) {
                                lemma_layout(bytes@, pos as int, v);
                            }
                        }
                    }
            return Err(DecodeError::InvalidFlag(flag));
        }
        let v = Value::Bool(flag == 1);
        assert(bytes@.subrange(pos as int, end as int) =~= encoding(v@));
        proof {
            assert forall|m: ValueModel| #[trigger] node_fits(bytes@, pos as int, depth as nat, *limits, before, m)
                implies m == v@ && end == pos + encoding(m).len() by {
                lemma_layout(bytes@, pos as int, m);
            }
        }
        return Ok((v, end));
    }
    if tag == 2 || tag == 3 {
        let (x, end) = match read_u128(bytes, p) {
            Ok(read) => read,
            Err(error) => {
                        proof {
                            assert forall|v: ValueModel| !#[trigger] node_fits(bytes@, pos as int, depth as nat, *limits, before, v) by {
                                if node_fits(bytes@, pos as int, depth as nat, *limits, before, v) {
                                    lemma_layout(bytes@, pos as int, v);
                                }
                            }
                        }
                return Err(wire_error(error));
            },
        };
        assert(bytes@.subrange(pos as int, end as int) =~= seq![tag] + bytes@.subrange(p as int, end as int));
        if tag == 2 {
            let v = Value::U128(x);
            assert(bytes@.subrange(pos as int, end as int) =~= encoding(v@));
            proof {
                assert forall|m: ValueModel| #[trigger] node_fits(bytes@, pos as int, depth as nat, *limits, before, m)
                    implies m == v@ && end == pos + encoding(m).len() by {
                    lemma_layout(bytes@, pos as int, m);
                    if let ValueModel::U128(y) = m {
                        lemma_be128_injective(x, y);
                    }
                }
            }
            return Ok((v, end));
        }
        let y = #[verifier::truncate] (x as i128);
        assert(y as u128 == x) by (bit_vector)
            requires
                y == x as i128,
        ;
        let v = Value::I128(y);
        assert(bytes@.subrange(pos as int, end as int) =~= encoding(v@));
        proof {
            assert forall|m: ValueModel| #[trigger] node_fits(bytes@, pos as int, depth as nat, *limits, before, m)
                implies m == v@ && end == pos + encoding(m).len() by {
                lemma_layout(bytes@, pos as int, m);
                if let ValueModel::I128(z) = m {
                    lemma_be128_injective(x, z as u128);
                    assert(z as u128 == x && y as u128 == x ==> z == y) by (bit_vector);
                }
            }
        }
        return Ok((v, end));
    }
    if tag == 4 || tag == 5 {
        let (length, start, end) = match read_span(bytes, p) {
            Ok(read) => read,
            Err(error) => {
                    proof {
                        assert forall|v: ValueModel| !#[trigger] node_fits(bytes@, pos as int, depth as nat, *limits, before, v) by {
                            if node_fits(bytes@, pos as int, depth as nat, *limits, before, v) {
                                lemma_layout(bytes@, pos as int, v);
                                if let ValueModel::Bytes(b) = v {
                                    lemma_be64_of(b.len() as u64, bytes@.subrange(pos + 1, pos + 9));
                                }
                                if let ValueModel::Text(c) = v {
                                    lemma_be64_of(encode_utf8(c).len() as u64, bytes@.subrange(pos + 1, pos + 9));
                                }
                            }
                        }
                    }
                return Err(error);
            },
        };
        proof {
            assert forall|m: ValueModel| #[trigger] node_fits(bytes@, pos as int, depth as nat, *limits, before, m)
                implies end == pos + encoding(m).len() && length == payload_size(m) by {
                lemma_layout(bytes@, pos as int, m);
                if let ValueModel::Bytes(b) = m {
                    lemma_be64_of(b.len() as u64, bytes@.subrange(pos + 1, pos + 9));
                }
                if let ValueModel::Text(c) = m {
                    lemma_be64_of(encode_utf8(c).len() as u64, bytes@.subrange(pos + 1, pos + 9));
                }
            }
        }
        let raw = copy_range(bytes, start, end);
        let ghost after_node = *counts;
        match count_payload(counts, limits, length) {
            Ok(()) => {},
            Err(error) => {
                        proof {
                            assert forall|v: ValueModel| !#[trigger] node_fits(bytes@, pos as int, depth as nat, *limits, before, v) by {
                                if node_fits(bytes@, pos as int, depth as nat, *limits, before, v) {
                                    lemma_layout(bytes@, pos as int, v);
                                }
                            }
                        }
                return Err(error);
            },
        }
        assert(bytes@.subrange(pos as int, end as int) =~= seq![tag] + bytes@.subrange(p as int, start as int)
            + bytes@.subrange(start as int, end as int));
        if tag == 4 {
            let v = Value::Bytes(raw);
            assert(bytes@.subrange(pos as int, end as int) =~= encoding(v@));
            proof {
                assert forall|m: ValueModel| #[trigger] node_fits(bytes@, pos as int, depth as nat, *limits, before, m)
                    implies m == v@ by {
                    lemma_layout(bytes@, pos as int, m);
                }
            }
            return Ok((v, end));
        }
        let ghost raw_bytes = raw@;
        let text = match utf8_string(raw) {
            Some(text) => text,
            None => {
                    proof {
                        assert forall|v: ValueModel| !#[trigger] node_fits(bytes@, pos as int, depth as nat, *limits, before, v) by {
                            if node_fits(bytes@, pos as int, depth as nat, *limits, before, v) {
                                lemma_layout(bytes@, pos as int, v);
                                if let ValueModel::Text(c) = v {
                                    vstd::utf8::encode_utf8_valid_utf8(c);
                                }
                            }
                        }
                    }
                return Err(DecodeError::InvalidUtf8);
            },
        };
        let v = Value::Text(text);
        assert(bytes@.subrange(pos as int, end as int) =~= encoding(v@));
        proof {
            assert forall|m: ValueModel| #[trigger] node_fits(bytes@, pos as int, depth as nat, *limits, before, m)
                implies m == v@ by {
                lemma_layout(bytes@, pos as int, m);
                if let ValueModel::Text(c) = m {
                    vstd::utf8::encode_utf8_decode_utf8(c);
                    vstd::utf8::encode_utf8_decode_utf8(v@->Text_0);
                }
            }
        }
        return Ok((v, end));
    }
    if tag == 6 {
        let (type_id, q) = match read_u32(bytes, p) {
            Ok(read) => read,
            Err(error) => {
                        proof {
                            assert forall|v: ValueModel| !#[trigger] node_fits(bytes@, pos as int, depth as nat, *limits, before, v) by {
                                if node_fits(bytes@, pos as int, depth as nat, *limits, before, v) {
                                    lemma_layout(bytes@, pos as int, v);
                                }
                            }
                        }
                return Err(wire_error(error));
            },
        };
        let (variant, end) = match read_u16(bytes, q) {
            Ok(read) => read,
            Err(error) => {
                        proof {
                            assert forall|v: ValueModel| !#[trigger] node_fits(bytes@, pos as int, depth as nat, *limits, before, v) by {
                                if node_fits(bytes@, pos as int, depth as nat, *limits, before, v) {
                                    lemma_layout(bytes@, pos as int, v);
                                }
                            }
                        }
                return Err(wire_error(error));
            },
        };
        let v = Value::Enum { type_id, variant };
        assert(bytes@.subrange(pos as int, end as int) =~= seq![tag] + bytes@.subrange(p as int, q as int)
            + bytes@.subrange(q as int, end as int));
        assert(bytes@.subrange(pos as int, end as int) =~= encoding(v@));
        proof {
            assert forall|m: ValueModel| #[trigger] node_fits(bytes@, pos as int, depth as nat, *limits, before, m)
                implies m == v@ && end == pos + encoding(m).len() by {
                lemma_layout(bytes@, pos as int, m);
                if let ValueModel::Enum { type_id: t, variant: w } = m {
                    crate::encode::lemma_be32_injective(type_id, t);
                    crate::encode::lemma_be16_injective(variant, w);
                }
            }
        }
        return Ok((v, end));
    }
    if tag == 9 {
        return decode_sum(bytes, pos, depth, limits, counts, Ghost(before));
    }
    if tag == 7 || tag == 10 {
        return decode_sequence(bytes, pos, depth, limits, counts, Ghost(before));
    }
    if tag == 8 {
        return decode_record(bytes, pos, depth, limits, counts, Ghost(before));
    }
    if tag == 11 {
        return decode_mapping(bytes, pos, depth, limits, counts, Ghost(before));
    }
            proof {
                assert forall|v: ValueModel| !#[trigger] node_fits(bytes@, pos as int, depth as nat, *limits, before, v) by {
                    if node_fits(bytes@, pos as int, depth as nat, *limits, before, v) {
                        lemma_layout(bytes@, pos as int, v);
                    }
                }
            }
    Err(DecodeError::UnknownTag(tag))
}

#[verifier::rlimit(60)]
#[verifier::spinoff_prover]
fn decode_sum(bytes: &[u8], pos: usize, depth: u32, limits: &ValueLimits, counts: &mut Counts, Ghost(before): Ghost<
    Counts,
>) -> (decoded: Result<(Value, usize), DecodeError>)
    requires
        pos < bytes@.len(),
        bytes@[pos as int] == 9,
        depth <= limits.max_depth,
        counts_fit(*old(counts), *limits),
        old(counts).nodes == before.nodes + 1,
        old(counts).payload == before.payload,
    ensures
        counts_fit(*final(counts), *limits),
        decoded matches Ok((v, end)) ==> node_decoded(
            bytes@,
            pos as int,
            depth as nat,
            *limits,
            before,
            *final(counts),
            v@,
            end as int,
        ),
        forall|v: ValueModel| #[trigger] node_fits(bytes@, pos as int, depth as nat, *limits, before, v) ==> (
        decoded matches Ok((w, end)) && w@ == v && end == pos + encoding(v).len()),
    decreases bytes@.len() - pos, 0int,
{
    let total = bytes.len();
    assert(bytes@.len() == total);
    let (type_id, q) = match read_u32(bytes, pos + 1) {
        Ok(read) => read,
        Err(error) => {
                    proof {
                        assert forall|v: ValueModel| !#[trigger] node_fits(bytes@, pos as int, depth as nat, *limits, before, v) by {
                            if node_fits(bytes@, pos as int, depth as nat, *limits, before, v) {
                                lemma_layout(bytes@, pos as int, v);
                            }
                        }
                    }
            return Err(wire_error(error));
        },
    };
    let (variant, r) = match read_u16(bytes, q) {
        Ok(read) => read,
        Err(error) => {
                    proof {
                        assert forall|v: ValueModel| !#[trigger] node_fits(bytes@, pos as int, depth as nat, *limits, before, v) by {
                            if node_fits(bytes@, pos as int, depth as nat, *limits, before, v) {
                                lemma_layout(bytes@, pos as int, v);
                            }
                        }
                    }
            return Err(wire_error(error));
        },
    };
    let (flag, t) = match read_u8(bytes, r) {
        Ok(read) => read,
        Err(error) => {
                    proof {
                        assert forall|v: ValueModel| !#[trigger] node_fits(bytes@, pos as int, depth as nat, *limits, before, v) by {
                            if node_fits(bytes@, pos as int, depth as nat, *limits, before, v) {
                                lemma_layout(bytes@, pos as int, v);
                            }
                        }
                    }
            return Err(wire_error(error));
        },
    };
    proof {
        assert forall|m: ValueModel| #[trigger] node_fits(bytes@, pos as int, depth as nat, *limits, before, m)
            implies m matches ValueModel::Sum { type_id: tt, variant: vv, payload } && tt == type_id && vv == variant
            && (payload is None <==> flag == 0) by {
            lemma_layout(bytes@, pos as int, m);
            if let ValueModel::Sum { type_id: tt, variant: vv, payload } = m {
                crate::encode::lemma_be32_injective(type_id, tt);
                crate::encode::lemma_be16_injective(variant, vv);
            }
        }
    }
    assert(bytes@.subrange(pos as int, t as int) =~= seq![9u8] + be32(type_id) + be16(variant) + seq![flag]);
    if flag == 0 {
        let v = Value::Sum { type_id, variant, payload: None };
        assert(bytes@.subrange(pos as int, t as int) =~= encoding(v@));
        proof {
            assert forall|m: ValueModel| #[trigger] node_fits(bytes@, pos as int, depth as nat, *limits, before, m)
                implies m == v@ && t == pos + encoding(m).len() by {
                lemma_layout(bytes@, pos as int, m);
            }
        }
        return Ok((v, t));
    }
    if flag != 1 {
                proof {
                    assert forall|v: ValueModel| !#[trigger] node_fits(bytes@, pos as int, depth as nat, *limits, before, v) by {
                        if node_fits(bytes@, pos as int, depth as nat, *limits, before, v) {
                            lemma_layout(bytes@, pos as int, v);
                        }
                    }
                }
        return Err(DecodeError::InvalidFlag(flag));
    }
    if depth >= limits.max_depth {
        proof {
            assert forall|v: ValueModel| !#[trigger] node_fits(bytes@, pos as int, depth as nat, *limits, before, v) by {
                if node_fits(bytes@, pos as int, depth as nat, *limits, before, v) {
                    lemma_layout(bytes@, pos as int, v);
                    let c = *v->Sum_payload->Some_0;
                    assert(shape_fits(c, (depth + 1) as nat, limits.max_depth as nat, limits.max_collection_len as nat));
                }
            }
        }
        return Err(DecodeError::DepthLimit { limit: limits.max_depth });
    }
    let ghost at_child = *counts;
    proof {
        assert forall|m: ValueModel| #[trigger] node_fits(bytes@, pos as int, depth as nat, *limits, before, m)
            implies node_fits(bytes@, t as int, (depth + 1) as nat, *limits, at_child, *m->Sum_payload->Some_0) by {
            lemma_layout(bytes@, pos as int, m);
        }
    }
    let (child, end) = match decode_node(bytes, t, depth + 1, limits, counts) {
        Ok(read) => read,
        Err(error) => {
                    proof {
                        assert forall|v: ValueModel| !#[trigger] node_fits(bytes@, pos as int, depth as nat, *limits, before, v) by {
                            if node_fits(bytes@, pos as int, depth as nat, *limits, before, v) {
                                lemma_layout(bytes@, pos as int, v);
                                assert(node_fits(bytes@, t as int, (depth + 1) as nat, *limits, at_child, *v->Sum_payload->Some_0));
                            }
                        }
                    }
            return Err(error);
        },
    };
    let v = Value::Sum { type_id, variant, payload: Some(Box::new(child)) };
    assert(bytes@.subrange(pos as int, end as int) =~= bytes@.subrange(pos as int, t as int) + bytes@.subrange(
        t as int,
        end as int,
    ));
    assert(bytes@.subrange(pos as int, end as int) =~= encoding(v@));
    proof {
        assert forall|m: ValueModel| #[trigger] node_fits(bytes@, pos as int, depth as nat, *limits, before, m)
            implies m == v@ && end == pos + encoding(m).len() by {
            lemma_layout(bytes@, pos as int, m);
            assert(node_fits(bytes@, t as int, (depth + 1) as nat, *limits, at_child, *m->Sum_payload->Some_0));
        }
    }
    Ok((v, end))
}

#[verifier::rlimit(80)]
#[verifier::spinoff_prover]
fn decode_sequence(
    bytes: &[u8],
    pos: usize,
    depth: u32,
    limits: &ValueLimits,
    counts: &mut Counts,
    Ghost(before): Ghost<Counts>,
) -> (decoded: Result<(Value, usize), DecodeError>)
    requires
        pos < bytes@.len(),
        bytes@[pos as int] == 7 || bytes@[pos as int] == 10,
        depth <= limits.max_depth,
        counts_fit(*old(counts), *limits),
        old(counts).nodes == before.nodes + 1,
        old(counts).payload == before.payload,
    ensures
        counts_fit(*final(counts), *limits),
        decoded matches Ok((v, end)) ==> node_decoded(
            bytes@,
            pos as int,
            depth as nat,
            *limits,
            before,
            *final(counts),
            v@,
            end as int,
        ),
        forall|v: ValueModel| #[trigger] node_fits(bytes@, pos as int, depth as nat, *limits, before, v) ==> (
        decoded matches Ok((w, end)) && w@ == v && end == pos + encoding(v).len()),
    decreases bytes@.len() - pos, 0int,
{
    let total = bytes.len();
    assert(bytes@.len() == total);
    let tag = bytes[pos];
    let (count, start) = match read_count(bytes, pos + 1, limits) {
        Ok(read) => read,
        Err(error) => {
                    proof {
                        assert forall|v: ValueModel| !#[trigger] node_fits(bytes@, pos as int, depth as nat, *limits, before, v) by {
                            if node_fits(bytes@, pos as int, depth as nat, *limits, before, v) {
                                lemma_layout(bytes@, pos as int, v);
                                lemma_be64_of(seq_items(v).len() as u64, bytes@.subrange(pos + 1, pos + 9));
                            }
                        }
                    }
            return Err(error);
        },
    };
    proof {
        assert forall|m: ValueModel| #[trigger] node_fits(bytes@, pos as int, depth as nat, *limits, before, m)
            implies (m is Tuple || m is Vector) && count == seq_items(m).len() && value_tag(m) == tag by {
            lemma_layout(bytes@, pos as int, m);
            lemma_be64_of(seq_items(m).len() as u64, bytes@.subrange(pos + 1, pos + 9));
        }
    }
    if count > 0 && depth >= limits.max_depth {
                proof {
                    assert forall|v: ValueModel| !#[trigger] node_fits(bytes@, pos as int, depth as nat, *limits, before, v) by {
                        if node_fits(bytes@, pos as int, depth as nat, *limits, before, v) {
                            lemma_layout(bytes@, pos as int, v);
                            lemma_be64_of(seq_items(v).len() as u64, bytes@.subrange(pos + 1, pos + 9));
                            lemma_items_member(seq_items(v), 0, (depth + 1) as nat, limits.max_depth as nat, limits.max_collection_len as nat);
                            assert(shape_fits(seq_items(v)[0], (depth + 1) as nat, limits.max_depth as nat, limits.max_collection_len as nat));
                        }
                    }
                }
        return Err(DecodeError::DepthLimit { limit: limits.max_depth });
    }
    let mut items: Vec<Value> = Vec::new();
    let mut cur = start;
    let mut index: u64 = 0;
    assert(bytes@.subrange(start as int, cur as int) =~= encodings(models(items@)));
    proof {
        assert forall|m: ValueModel| #[trigger] node_fits(bytes@, pos as int, depth as nat, *limits, before, m)
            implies models(items@) == seq_items(m).take(0) by {
            assert(models(items@) =~= seq_items(m).take(0));
        }
    }
    while index < count
        invariant
            pos < start <= cur <= bytes@.len(),
            start == pos + 9,
            bytes@.len() == total,
            index <= count,
            count <= limits.max_collection_len,
            count > 0 ==> depth < limits.max_depth,
            items@.len() == index,
            bytes@.subrange(start as int, cur as int) == encodings(models(items@)),
            items_fit(models(items@), depth as nat + 1, limits.max_depth as nat, limits.max_collection_len as nat),
            counts.nodes == before.nodes + 1 + item_nodes(models(items@)),
            counts.payload == before.payload + item_payload(models(items@)),
            counts_fit(*counts, *limits),
            forall|m: ValueModel| #[trigger] node_fits(bytes@, pos as int, depth as nat, *limits, before, m) ==> {
                &&& m is Tuple || m is Vector
                &&& count == seq_items(m).len()
                &&& models(items@) == seq_items(m).take(index as int)
                &&& cur == pos + 9 + encodings(seq_items(m).take(index as int)).len()
            },
        decreases count - index,
    {
        let ghost previous = items@;
        let ghost at = *counts;
        let (item, next) = match decode_node(bytes, cur, depth + 1, limits, counts) {
            Ok(read) => read,
            Err(error) => {
                proof {
                    assert forall|v: ValueModel| !#[trigger] node_fits(bytes@, pos as int, depth as nat, *limits, before, v) by {
                        if node_fits(bytes@, pos as int, depth as nat, *limits, before, v) {
                            lemma_item_fits(bytes@, pos as int, depth as nat, *limits, before, at, v, index as int, cur as int);
                        }
                    }
                }
                return Err(error);
            },
        };
        items.push(item);
        proof {
            assert(items@.drop_last() =~= previous);
            assert(models(items@) =~= models(previous).push(item@));
            assert(models(items@).drop_last() =~= models(previous));
            assert(bytes@.subrange(start as int, next as int) =~= bytes@.subrange(start as int, cur as int)
                + bytes@.subrange(cur as int, next as int));
            assert forall|m: ValueModel| #[trigger] node_fits(bytes@, pos as int, depth as nat, *limits, before, m)
                implies models(items@) == seq_items(m).take(index + 1) && next == pos + 9 + encodings(
                seq_items(m).take(index + 1),
            ).len() by {
                lemma_item_fits(bytes@, pos as int, depth as nat, *limits, before, at, m, index as int, cur as int);
                assert(seq_items(m).take(index + 1) =~= seq_items(m).take(index as int).push(seq_items(m)[index as int]));
            }
        }
        cur = next;
        index = index + 1;
    }
    proof {
        lemma_models(items@);
        assert(bytes@.subrange(pos as int, cur as int) =~= seq![tag] + bytes@.subrange(pos + 1, start as int)
            + bytes@.subrange(start as int, cur as int));
        assert forall|m: ValueModel| #[trigger] node_fits(bytes@, pos as int, depth as nat, *limits, before, m)
            implies models(items@) == seq_items(m) by {
            assert(seq_items(m).take(count as int) =~= seq_items(m));
        }
    }
    if tag == 7 {
        let v = Value::Tuple(items);
        assert(bytes@.subrange(pos as int, cur as int) =~= encoding(v@));
        proof {
            assert forall|m: ValueModel| #[trigger] node_fits(bytes@, pos as int, depth as nat, *limits, before, m)
                implies m == v@ && cur == pos + encoding(m).len() by {
                lemma_layout(bytes@, pos as int, m);
                assert(seq_items(m).take(count as int) =~= seq_items(m));
            }
        }
        Ok((v, cur))
    } else {
        let v = Value::Vector(items);
        assert(bytes@.subrange(pos as int, cur as int) =~= encoding(v@));
        proof {
            assert forall|m: ValueModel| #[trigger] node_fits(bytes@, pos as int, depth as nat, *limits, before, m)
                implies m == v@ && cur == pos + encoding(m).len() by {
                lemma_layout(bytes@, pos as int, m);
                assert(seq_items(m).take(count as int) =~= seq_items(m));
            }
        }
        Ok((v, cur))
    }
}

#[verifier::rlimit(80)]
#[verifier::spinoff_prover]
fn decode_record(
    bytes: &[u8],
    pos: usize,
    depth: u32,
    limits: &ValueLimits,
    counts: &mut Counts,
    Ghost(before): Ghost<Counts>,
) -> (decoded: Result<(Value, usize), DecodeError>)
    requires
        pos < bytes@.len(),
        bytes@[pos as int] == 8,
        depth <= limits.max_depth,
        counts_fit(*old(counts), *limits),
        old(counts).nodes == before.nodes + 1,
        old(counts).payload == before.payload,
    ensures
        counts_fit(*final(counts), *limits),
        decoded matches Ok((v, end)) ==> node_decoded(
            bytes@,
            pos as int,
            depth as nat,
            *limits,
            before,
            *final(counts),
            v@,
            end as int,
        ),
        forall|v: ValueModel| #[trigger] node_fits(bytes@, pos as int, depth as nat, *limits, before, v) ==> (
        decoded matches Ok((w, end)) && w@ == v && end == pos + encoding(v).len()),
    decreases bytes@.len() - pos, 0int,
{
    let total = bytes.len();
    assert(bytes@.len() == total);
    let (count, start) = match read_count(bytes, pos + 1, limits) {
        Ok(read) => read,
        Err(error) => {
                    proof {
                        assert forall|v: ValueModel| !#[trigger] node_fits(bytes@, pos as int, depth as nat, *limits, before, v) by {
                            if node_fits(bytes@, pos as int, depth as nat, *limits, before, v) {
                                lemma_layout(bytes@, pos as int, v);
                                lemma_be64_of(record_fields(v).len() as u64, bytes@.subrange(pos + 1, pos + 9));
                            }
                        }
                    }
            return Err(error);
        },
    };
    proof {
        assert forall|m: ValueModel| #[trigger] node_fits(bytes@, pos as int, depth as nat, *limits, before, m)
            implies m is Record && count == record_fields(m).len() by {
            lemma_layout(bytes@, pos as int, m);
            lemma_be64_of(record_fields(m).len() as u64, bytes@.subrange(pos + 1, pos + 9));
        }
    }
    if count > 0 && depth >= limits.max_depth {
                proof {
                    assert forall|v: ValueModel| !#[trigger] node_fits(bytes@, pos as int, depth as nat, *limits, before, v) by {
                        if node_fits(bytes@, pos as int, depth as nat, *limits, before, v) {
                            lemma_layout(bytes@, pos as int, v);
                            lemma_be64_of(record_fields(v).len() as u64, bytes@.subrange(pos + 1, pos + 9));
                            lemma_fields_member(record_fields(v), 0, (depth + 1) as nat, limits.max_depth as nat, limits.max_collection_len as nat);
                            assert(fields_fit(record_fields(v), (depth + 1) as nat, limits.max_depth as nat, limits.max_collection_len as nat));
                            assert(shape_fits(record_fields(v)[0].1, (depth + 1) as nat, limits.max_depth as nat, limits.max_collection_len as nat));
                        }
                    }
                }
        return Err(DecodeError::DepthLimit { limit: limits.max_depth });
    }
    let mut fields: Vec<Field> = Vec::new();
    let mut cur = start;
    let mut index: u64 = 0;
    assert(bytes@.subrange(start as int, cur as int) =~= field_encodings(field_models(fields@)));
    proof {
        assert forall|m: ValueModel| #[trigger] node_fits(bytes@, pos as int, depth as nat, *limits, before, m)
            implies field_models(fields@) == record_fields(m).take(0) by {
            assert(field_models(fields@) =~= record_fields(m).take(0));
        }
    }
    while index < count
        invariant
            pos < start <= cur <= bytes@.len(),
            start == pos + 9,
            bytes@.len() == total,
            index <= count,
            count <= limits.max_collection_len,
            count > 0 ==> depth < limits.max_depth,
            fields@.len() == index,
            bytes@.subrange(start as int, cur as int) == field_encodings(field_models(fields@)),
            fields_fit(
                field_models(fields@),
                depth as nat + 1,
                limits.max_depth as nat,
                limits.max_collection_len as nat,
            ),
            counts.nodes == before.nodes + 1 + field_nodes(field_models(fields@)),
            counts.payload == before.payload + field_payload(field_models(fields@)),
            counts_fit(*counts, *limits),
            forall|m: ValueModel| #[trigger] node_fits(bytes@, pos as int, depth as nat, *limits, before, m) ==> {
                &&& m is Record
                &&& count == record_fields(m).len()
                &&& field_models(fields@) == record_fields(m).take(index as int)
                &&& cur == pos + 9 + field_encodings(record_fields(m).take(index as int)).len()
            },
        decreases count - index,
    {
        let ghost previous = fields@;
        let ghost at = *counts;
        let (id, value_pos) = match read_u16(bytes, cur) {
            Ok(read) => read,
            Err(error) => {
                proof {
                    assert forall|v: ValueModel| !#[trigger] node_fits(bytes@, pos as int, depth as nat, *limits, before, v) by {
                        if node_fits(bytes@, pos as int, depth as nat, *limits, before, v) {
                            lemma_field_fits(bytes@, pos as int, depth as nat, *limits, before, at, v, index as int, cur as int);
                        }
                    }
                }
                return Err(wire_error(error));
            },
        };
        proof {
            assert forall|m: ValueModel| #[trigger] node_fits(bytes@, pos as int, depth as nat, *limits, before, m)
                implies id == record_fields(m)[index as int].0 && value_pos == cur + 2 by {
                lemma_field_fits(bytes@, pos as int, depth as nat, *limits, before, at, m, index as int, cur as int);
                crate::encode::lemma_be16_injective(id, record_fields(m)[index as int].0);
            }
        }
        let (value, next) = match decode_node(bytes, value_pos, depth + 1, limits, counts) {
            Ok(read) => read,
            Err(error) => {
                proof {
                    assert forall|v: ValueModel| !#[trigger] node_fits(bytes@, pos as int, depth as nat, *limits, before, v) by {
                        if node_fits(bytes@, pos as int, depth as nat, *limits, before, v) {
                            lemma_field_fits(bytes@, pos as int, depth as nat, *limits, before, at, v, index as int, cur as int);
                        }
                    }
                }
                return Err(error);
            },
        };
        let field = Field::new(id, value);
        fields.push(field);
        proof {
            assert(fields@.drop_last() =~= previous);
            assert(field_models(fields@) =~= field_models(previous).push((id, field.value@)));
            assert(field_models(fields@).drop_last() =~= field_models(previous));
            assert(bytes@.subrange(start as int, next as int) =~= bytes@.subrange(start as int, cur as int)
                + bytes@.subrange(cur as int, value_pos as int) + bytes@.subrange(value_pos as int, next as int));
            assert forall|m: ValueModel| #[trigger] node_fits(bytes@, pos as int, depth as nat, *limits, before, m)
                implies field_models(fields@) == record_fields(m).take(index + 1) && next == pos + 9 + field_encodings(
                record_fields(m).take(index + 1),
            ).len() by {
                lemma_field_fits(bytes@, pos as int, depth as nat, *limits, before, at, m, index as int, cur as int);
                assert(record_fields(m).take(index + 1) =~= record_fields(m).take(index as int).push(
                    record_fields(m)[index as int],
                ));
            }
        }
        cur = next;
        index = index + 1;
    }
    proof {
        lemma_field_models(fields@);
        assert(bytes@.subrange(pos as int, cur as int) =~= seq![8u8] + bytes@.subrange(pos + 1, start as int)
            + bytes@.subrange(start as int, cur as int));
        assert forall|m: ValueModel| #[trigger] node_fits(bytes@, pos as int, depth as nat, *limits, before, m)
            implies field_models(fields@) == record_fields(m) by {
            assert(record_fields(m).take(count as int) =~= record_fields(m));
        }
    }
    let ghost modeled = field_models(fields@);
    match Value::record_canonical(fields) {
        Ok(v) => {
            assert(bytes@.subrange(pos as int, cur as int) =~= encoding(v@));
            proof {
                assert forall|m: ValueModel| #[trigger] node_fits(bytes@, pos as int, depth as nat, *limits, before, m)
                    implies m == v@ && cur == pos + encoding(m).len() by {
                    lemma_layout(bytes@, pos as int, m);
                }
            }
            Ok((v, cur))
        },
        Err(error) => {
                    proof {
                        assert forall|v: ValueModel| !#[trigger] node_fits(bytes@, pos as int, depth as nat, *limits, before, v) by {
                            if node_fits(bytes@, pos as int, depth as nat, *limits, before, v) {
                                lemma_layout(bytes@, pos as int, v);
                            }
                        }
                    }
            Err(DecodeError::InvalidValue(error))
        },
    }
}

#[verifier::rlimit(80)]
#[verifier::spinoff_prover]
fn decode_mapping(
    bytes: &[u8],
    pos: usize,
    depth: u32,
    limits: &ValueLimits,
    counts: &mut Counts,
    Ghost(before): Ghost<Counts>,
) -> (decoded: Result<(Value, usize), DecodeError>)
    requires
        pos < bytes@.len(),
        bytes@[pos as int] == 11,
        depth <= limits.max_depth,
        counts_fit(*old(counts), *limits),
        old(counts).nodes == before.nodes + 1,
        old(counts).payload == before.payload,
    ensures
        counts_fit(*final(counts), *limits),
        decoded matches Ok((v, end)) ==> node_decoded(
            bytes@,
            pos as int,
            depth as nat,
            *limits,
            before,
            *final(counts),
            v@,
            end as int,
        ),
        forall|v: ValueModel| #[trigger] node_fits(bytes@, pos as int, depth as nat, *limits, before, v) ==> (
        decoded matches Ok((w, end)) && w@ == v && end == pos + encoding(v).len()),
    decreases bytes@.len() - pos, 0int,
{
    let total = bytes.len();
    assert(bytes@.len() == total);
    let (count, start) = match read_count(bytes, pos + 1, limits) {
        Ok(read) => read,
        Err(error) => {
                    proof {
                        assert forall|v: ValueModel| !#[trigger] node_fits(bytes@, pos as int, depth as nat, *limits, before, v) by {
                            if node_fits(bytes@, pos as int, depth as nat, *limits, before, v) {
                                lemma_layout(bytes@, pos as int, v);
                                lemma_be64_of(map_entries(v).len() as u64, bytes@.subrange(pos + 1, pos + 9));
                            }
                        }
                    }
            return Err(error);
        },
    };
    proof {
        assert forall|m: ValueModel| #[trigger] node_fits(bytes@, pos as int, depth as nat, *limits, before, m)
            implies m is Mapping && count == map_entries(m).len() by {
            lemma_layout(bytes@, pos as int, m);
            lemma_be64_of(map_entries(m).len() as u64, bytes@.subrange(pos + 1, pos + 9));
        }
    }
    if count > 0 && depth >= limits.max_depth {
                proof {
                    assert forall|v: ValueModel| !#[trigger] node_fits(bytes@, pos as int, depth as nat, *limits, before, v) by {
                        if node_fits(bytes@, pos as int, depth as nat, *limits, before, v) {
                            lemma_layout(bytes@, pos as int, v);
                            lemma_be64_of(map_entries(v).len() as u64, bytes@.subrange(pos + 1, pos + 9));
                            lemma_entries_member(map_entries(v), 0, (depth + 1) as nat, limits.max_depth as nat, limits.max_collection_len as nat);
                            assert(entries_fit(map_entries(v), (depth + 1) as nat, limits.max_depth as nat, limits.max_collection_len as nat));
                            assert(shape_fits(map_entries(v)[0].0, (depth + 1) as nat, limits.max_depth as nat, limits.max_collection_len as nat));
                        }
                    }
                }
        return Err(DecodeError::DepthLimit { limit: limits.max_depth });
    }
    let mut entries: Vec<MapEntry> = Vec::new();
    let mut cur = start;
    let mut index: u64 = 0;
    assert(bytes@.subrange(start as int, cur as int) =~= entry_encodings(entry_models(entries@)));
    proof {
        assert forall|m: ValueModel| #[trigger] node_fits(bytes@, pos as int, depth as nat, *limits, before, m)
            implies entry_models(entries@) == map_entries(m).take(0) by {
            assert(entry_models(entries@) =~= map_entries(m).take(0));
        }
    }
    while index < count
        invariant
            pos < start <= cur <= bytes@.len(),
            start == pos + 9,
            bytes@.len() == total,
            index <= count,
            count <= limits.max_collection_len,
            count > 0 ==> depth < limits.max_depth,
            entries@.len() == index,
            bytes@.subrange(start as int, cur as int) == entry_encodings(entry_models(entries@)),
            entries_fit(
                entry_models(entries@),
                depth as nat + 1,
                limits.max_depth as nat,
                limits.max_collection_len as nat,
            ),
            counts.nodes == before.nodes + 1 + entry_nodes(entry_models(entries@)),
            counts.payload == before.payload + entry_payload(entry_models(entries@)),
            counts_fit(*counts, *limits),
            forall|m: ValueModel| #[trigger] node_fits(bytes@, pos as int, depth as nat, *limits, before, m) ==> {
                &&& m is Mapping
                &&& count == map_entries(m).len()
                &&& entry_models(entries@) == map_entries(m).take(index as int)
                &&& cur == pos + 9 + entry_encodings(map_entries(m).take(index as int)).len()
            },
        decreases count - index,
    {
        let ghost previous = entries@;
        let ghost at = *counts;
        let (key, value_pos) = match decode_node(bytes, cur, depth + 1, limits, counts) {
            Ok(read) => read,
            Err(error) => {
                proof {
                    assert forall|v: ValueModel| !#[trigger] node_fits(bytes@, pos as int, depth as nat, *limits, before, v) by {
                        if node_fits(bytes@, pos as int, depth as nat, *limits, before, v) {
                            lemma_entry_fits(bytes@, pos as int, depth as nat, *limits, before, at, v, index as int, cur as int);
                        }
                    }
                }
                return Err(error);
            },
        };
        let ghost at2 = *counts;
        proof {
            assert forall|m: ValueModel| #[trigger] node_fits(bytes@, pos as int, depth as nat, *limits, before, m)
                implies node_fits(bytes@, value_pos as int, (depth + 1) as nat, *limits, at2, map_entries(m)[index as int].1)
                && key@ == map_entries(m)[index as int].0 by {
                lemma_entry_fits(bytes@, pos as int, depth as nat, *limits, before, at, m, index as int, cur as int);
                assert(at2 == Counts {
                    nodes: (at.nodes + node_count(map_entries(m)[index as int].0)) as u64,
                    payload: (at.payload + payload_size(map_entries(m)[index as int].0)) as u64,
                });
            }
        }
        let (value, next) = match decode_node(bytes, value_pos, depth + 1, limits, counts) {
            Ok(read) => read,
            Err(error) => {
                proof {
                    assert forall|v: ValueModel| !#[trigger] node_fits(bytes@, pos as int, depth as nat, *limits, before, v) by {
                        if node_fits(bytes@, pos as int, depth as nat, *limits, before, v) {
                            assert(node_fits(bytes@, value_pos as int, (depth + 1) as nat, *limits, at2, map_entries(v)[index as int].1));
                        }
                    }
                }
                return Err(error);
            },
        };
        let entry = MapEntry::new(key, value);
        entries.push(entry);
        proof {
            assert(entries@.drop_last() =~= previous);
            assert(entry_models(entries@) =~= entry_models(previous).push((entry.key@, entry.value@)));
            assert(entry_models(entries@).drop_last() =~= entry_models(previous));
            assert(bytes@.subrange(start as int, next as int) =~= bytes@.subrange(start as int, cur as int)
                + bytes@.subrange(cur as int, value_pos as int) + bytes@.subrange(value_pos as int, next as int));
            assert forall|m: ValueModel| #[trigger] node_fits(bytes@, pos as int, depth as nat, *limits, before, m)
                implies entry_models(entries@) == map_entries(m).take(index + 1) && next == pos + 9 + entry_encodings(
                map_entries(m).take(index + 1),
            ).len() by {
                lemma_entry_fits(bytes@, pos as int, depth as nat, *limits, before, at, m, index as int, cur as int);
                assert(node_fits(bytes@, value_pos as int, (depth + 1) as nat, *limits, at2, map_entries(m)[index as int].1));
                assert(map_entries(m).take(index + 1) =~= map_entries(m).take(index as int).push(
                    map_entries(m)[index as int],
                ));
            }
        }
        cur = next;
        index = index + 1;
    }
    proof {
        lemma_entry_models(entries@);
        assert(bytes@.subrange(pos as int, cur as int) =~= seq![11u8] + bytes@.subrange(pos + 1, start as int)
            + bytes@.subrange(start as int, cur as int));
        assert forall|m: ValueModel| #[trigger] node_fits(bytes@, pos as int, depth as nat, *limits, before, m)
            implies entry_models(entries@) == map_entries(m) by {
            assert(map_entries(m).take(count as int) =~= map_entries(m));
        }
    }
    match Value::map_canonical(entries) {
        Ok(v) => {
            assert(bytes@.subrange(pos as int, cur as int) =~= encoding(v@));
            proof {
                assert forall|m: ValueModel| #[trigger] node_fits(bytes@, pos as int, depth as nat, *limits, before, m)
                    implies m == v@ && cur == pos + encoding(m).len() by {
                    lemma_layout(bytes@, pos as int, m);
                }
            }
            Ok((v, cur))
        },
        Err(error) => {
                    proof {
                        assert forall|v: ValueModel| !#[trigger] node_fits(bytes@, pos as int, depth as nat, *limits, before, v) by {
                            if node_fits(bytes@, pos as int, depth as nat, *limits, before, v) {
                                lemma_layout(bytes@, pos as int, v);
                            }
                        }
                    }
            Err(DecodeError::InvalidValue(error))
        },
    }
}

/// The bytes are exactly the canonical encoding of a canonical value
/// within every limit.
pub open spec fn value_admitted(v: ValueModel, bytes: Seq<u8>, limits: DecodeLimits) -> bool {
    &&& encoding(v) == bytes
    &&& bytes.len() <= limits.max_input_bytes
    &&& value_canonical(v)
    &&& within_limits(v, limits.value)
}

/// Strictly decodes one complete canonical value and reports its node and
/// payload counts.
///
/// A decoded value's canonical encoding is exactly the input, and the value
/// is within every structural limit.
pub fn decode_value_with_metrics(bytes: &[u8], limits: DecodeLimits) -> (decoded: Result<
    (Value, ValueMetrics),
    DecodeError,
>)
    ensures
        bytes@.len() > limits.max_input_bytes ==> decoded == Err::<(Value, ValueMetrics), DecodeError>(
            DecodeError::InputLimit { limit: limits.max_input_bytes, actual: bytes@.len() as u64 },
        ),
        decoded matches Ok((v, m)) ==> encoding(v@) == bytes@ && within_limits(v@, limits.value) && m.nodes
            == node_count(v@) && m.payload_bytes == payload_size(v@),
        forall|v: ValueModel| #[trigger] value_admitted(v, bytes@, limits) ==> (decoded matches Ok((w, m)) && w@ == v),
{
    let actual = bytes.len() as u64;
    if actual > limits.max_input_bytes {
        return Err(DecodeError::InputLimit { limit: limits.max_input_bytes, actual });
    }
    let mut counts = Counts { nodes: 0, payload: 0 };
    let ghost before = counts;
    proof {
        assert forall|v: ValueModel| #[trigger] value_admitted(v, bytes@, limits) implies node_fits(
            bytes@,
            0,
            0,
            limits.value,
            before,
            v,
        ) by {
            assert(bytes@.subrange(0, encoding(v).len() as int) =~= bytes@);
        }
    }
    let (value, end) = match decode_node(bytes, 0, 0, &limits.value, &mut counts) {
        Ok(read) => read,
        Err(error) => return Err(error),
    };
    if end != bytes.len() {
        proof {
            assert forall|v: ValueModel| !#[trigger] value_admitted(v, bytes@, limits) by {
                if value_admitted(v, bytes@, limits) {
                    assert(node_fits(bytes@, 0, 0, limits.value, before, v));
                }
            }
        }
        return Err(DecodeError::TrailingBytes { offset: end });
    }
    assert(bytes@.subrange(0, end as int) =~= bytes@);
    Ok((value, ValueMetrics { nodes: counts.nodes, payload_bytes: counts.payload }))
}

/// Strictly decodes one complete canonical value.
///
/// A decoded value's canonical encoding is exactly the input, and the value
/// is within every structural limit.
pub fn decode_value(bytes: &[u8], limits: DecodeLimits) -> (decoded: Result<Value, DecodeError>)
    ensures
        bytes@.len() > limits.max_input_bytes ==> decoded == Err::<Value, DecodeError>(
            DecodeError::InputLimit { limit: limits.max_input_bytes, actual: bytes@.len() as u64 },
        ),
        decoded matches Ok(v) ==> encoding(v@) == bytes@ && within_limits(v@, limits.value),
        forall|v: ValueModel| #[trigger] value_admitted(v, bytes@, limits) ==> (decoded matches Ok(w) && w@ == v),
{
    match decode_value_with_metrics(bytes, limits) {
        Ok((value, _)) => Ok(value),
        Err(error) => Err(error),
    }
}

} // verus!

//! Preconditioned canonical patches over the value algebra.
//!
//! A patch binds its expected pre-root, orders operations by canonical path
//! bytes, rejects duplicate or overlapping paths, and checks each old value
//! before constructing a successor. Application is pure and all-or-nothing.

use vstd::prelude::*;

pub mod merge;
pub use merge::{ConflictModel, PatchMergeConflict, PatchMergeError, PatchOperationConflictKind};

use crate::commit::{commitment_preimage, CommitmentHasher, Domain, Hash32};
use crate::encode::{be16, be32, blob, lemma_be16_injective, lemma_be32_injective, put_bytes, put_length, put_u16, put_u32, put_u32_blob, put_u8, EncodeError};
use crate::value::{
    bytes_less, bytes_lt, duplicate_entries, duplicate_fields, duplicate_values, encoding,
    entries_ordered, entry_models, field_models, fields_ordered, lemma_entry_models,
    lemma_field_models, lemma_models, models, Field, MapEntry, Value, ValueError, ValueModel,
};

use crate::decode::{node_count, payload_size, value_admitted, copy_range, decode_value_with_metrics, DecodeError, DecodeLimits, DEFAULT_MAX_INPUT_BYTES};
use crate::wire::{blob_length, bytes_equal, lemma_blob_fits, read_blob, read_hash, read_u16, read_u32, read_u8, WireError};

verus! {

/// One stable navigation step inside a closed value.
#[derive(Debug, PartialEq, Eq)]
pub enum PathSegment {
    /// Stable record field identifier.
    Field(u16),
    /// Fixed tuple position.
    TupleIndex(u32),
    /// Vector position.
    VectorIndex(u32),
    /// Payload of the current sum variant.
    SumPayload,
    /// Canonical encoded map key.
    MapKey(Vec<u8>),
}

/// The content of a path segment.
pub enum SegmentModel {
    /// Stable record field identifier.
    Field(u16),
    /// Fixed tuple position.
    TupleIndex(u32),
    /// Vector position.
    VectorIndex(u32),
    /// Payload of the current sum variant.
    SumPayload,
    /// Canonical encoded map key.
    MapKey(Seq<u8>),
}

impl View for PathSegment {
    type V = SegmentModel;

    open spec fn view(&self) -> SegmentModel {
        match self {
            PathSegment::Field(id) => SegmentModel::Field(*id),
            PathSegment::TupleIndex(i) => SegmentModel::TupleIndex(*i),
            PathSegment::VectorIndex(i) => SegmentModel::VectorIndex(*i),
            PathSegment::SumPayload => SegmentModel::SumPayload,
            PathSegment::MapKey(key) => SegmentModel::MapKey(key@),
        }
    }
}

impl PathSegment {
    /// A copy of the segment.
    pub fn duplicate(&self) -> (copy: PathSegment)
        ensures
            copy@ == self@,
    {
        match self {
            PathSegment::Field(id) => PathSegment::Field(*id),
            PathSegment::TupleIndex(i) => PathSegment::TupleIndex(*i),
            PathSegment::VectorIndex(i) => PathSegment::VectorIndex(*i),
            PathSegment::SumPayload => PathSegment::SumPayload,
            PathSegment::MapKey(key) => {
                let copy = key.clone();
                assert(copy@ =~= key@);
                PathSegment::MapKey(copy)
            },
        }
    }

    /// Whether two segments are the same step.
    pub fn same_as(&self, other: &PathSegment) -> (same: bool)
        ensures
            same == (self@ == other@),
    {
        match (self, other) {
            (PathSegment::Field(a), PathSegment::Field(b)) => *a == *b,
            (PathSegment::TupleIndex(a), PathSegment::TupleIndex(b)) => *a == *b,
            (PathSegment::VectorIndex(a), PathSegment::VectorIndex(b)) => *a == *b,
            (PathSegment::SumPayload, PathSegment::SumPayload) => true,
            (PathSegment::MapKey(a), PathSegment::MapKey(b)) => same_bytes(a.as_slice(), b.as_slice()),
            _ => false,
        }
    }
}

impl Clone for PathSegment {
    fn clone(&self) -> (copy: Self)
        ensures
            copy@ == self@,
    {
        self.duplicate()
    }
}

/// Whether two byte strings are equal.
pub fn same_bytes(a: &[u8], b: &[u8]) -> (same: bool)
    ensures
        same == (a@ == b@),
{
    if a.len() != b.len() {
        return false;
    }
    let mut index: usize = 0;
    while index < a.len()
        invariant
            index <= a@.len(),
            a@.len() == b@.len(),
            forall|i: int| 0 <= i < index ==> a@[i] == b@[i],
        decreases a@.len() - index,
    {
        if a[index] != b[index] {
            return false;
        }
        index = index + 1;
    }
    assert(a@ =~= b@);
    true
}

/// The models of path segments.
pub open spec fn segment_models(segments: Seq<PathSegment>) -> Seq<SegmentModel> {
    Seq::new(segments.len(), |i: int| segments[i]@)
}

/// An immutable nested value path.
#[derive(Debug, PartialEq, Eq)]
pub struct ValuePath {
    segments: Vec<PathSegment>,
}

impl View for ValuePath {
    type V = Seq<SegmentModel>;

    closed spec fn view(&self) -> Seq<SegmentModel> {
        segment_models(self.segments@)
    }
}

/// The first `count` segments form a prefix of the path.
pub open spec fn is_prefix(prefix: Seq<SegmentModel>, path: Seq<SegmentModel>) -> bool {
    prefix.len() <= path.len() && path.take(prefix.len() as int) == prefix
}

fn duplicate_segments(segments: &Vec<PathSegment>, count: usize) -> (copy: Vec<PathSegment>)
    requires
        count <= segments@.len(),
    ensures
        segment_models(copy@) == segment_models(segments@).take(count as int),
{
    let mut copy: Vec<PathSegment> = Vec::new();
    let mut index: usize = 0;
    while index < count
        invariant
            index <= count,
            count <= segments@.len(),
            copy@.len() == index,
            forall|i: int| 0 <= i < index ==> copy@[i]@ == segments@[i]@,
        decreases count - index,
    {
        copy.push(segments[index].duplicate());
        index = index + 1;
    }
    assert(segment_models(copy@) =~= segment_models(segments@).take(count as int));
    copy
}

impl ValuePath {
    /// Creates a path. The empty path addresses the complete state value.
    pub fn new(segments: Vec<PathSegment>) -> (path: Self)
        ensures
            path@ == segment_models(segments@),
    {
        ValuePath { segments }
    }

    /// Returns path segments.
    pub fn segments(&self) -> (segments: &[PathSegment])
        ensures
            segment_models(segments@) == self@,
    {
        self.segments.as_slice()
    }

    /// Returns whether this path is a strict or equal prefix of another path.
    pub fn is_prefix_of(&self, other: &Self) -> (prefix: bool)
        ensures
            prefix == is_prefix(self@, other@),
    {
        if self.segments.len() > other.segments.len() {
            return false;
        }
        let mut index: usize = 0;
        while index < self.segments.len()
            invariant
                index <= self.segments@.len(),
                self.segments@.len() <= other.segments@.len(),
                forall|i: int| 0 <= i < index ==> self.segments@[i]@ == other.segments@[i]@,
            decreases self.segments@.len() - index,
        {
            if !self.segments[index].same_as(&other.segments[index]) {
                assert(other@.take(self@.len() as int)[index as int] == other.segments@[index as int]@);
                return false;
            }
            index = index + 1;
        }
        assert(other@.take(self@.len() as int) =~= self@);
        true
    }

    /// Whether two paths are the same.
    pub fn same_as(&self, other: &Self) -> (same: bool)
        ensures
            same == (self@ == other@),
    {
        if self.segments.len() != other.segments.len() {
            proof {
                if self@ == other@ {
                    assert(self@.len() == other@.len());
                }
            }
            return false;
        }
        let prefix = self.is_prefix_of(other);
        proof {
            assert(self@.len() == other@.len());
            if prefix {
                assert(other@.take(self@.len() as int) =~= other@);
            }
            if self@ == other@ {
                assert(other@.take(self@.len() as int) =~= self@);
            }
        }
        prefix
    }

    /// A copy of the path.
    pub fn duplicate(&self) -> (copy: ValuePath)
        ensures
            copy@ == self@,
    {
        let segments = duplicate_segments(&self.segments, self.segments.len());
        proof {
            assert(segment_models(self.segments@).take(self.segments@.len() as int) =~= segment_models(
                self.segments@,
            ));
        }
        ValuePath { segments }
    }

    /// The longest common prefix of two paths.
    pub fn common_prefix(&self, other: &Self) -> (common: ValuePath)
        ensures
            is_prefix(common@, self@),
            is_prefix(common@, other@),
            common@.len() == self@.len() || common@.len() == other@.len() || self@[common@.len() as int]
                != other@[common@.len() as int],
    {
        let mut index: usize = 0;
        while index < self.segments.len() && index < other.segments.len() && self.segments[index].same_as(
            &other.segments[index],
        )
            invariant
                index <= self.segments@.len(),
                index <= other.segments@.len(),
                forall|i: int| 0 <= i < index ==> self.segments@[i]@ == other.segments@[i]@,
            decreases self.segments@.len() - index,
        {
            index = index + 1;
        }
        let segments = duplicate_segments(&self.segments, index);
        let common = ValuePath { segments };
        assert(self@.take(index as int) =~= common@);
        assert(other@.take(index as int) =~= common@);
        common
    }
}

impl Clone for ValuePath {
    fn clone(&self) -> (copy: Self)
        ensures
            copy@ == self@,
    {
        self.duplicate()
    }
}

/// Path segment tags on the wire.
pub open spec fn segment_encoding(segment: SegmentModel) -> Seq<u8> {
    match segment {
        SegmentModel::Field(id) => seq![0u8] + be16(id),
        SegmentModel::TupleIndex(i) => seq![1u8] + be32(i),
        SegmentModel::VectorIndex(i) => seq![2u8] + be32(i),
        SegmentModel::SumPayload => seq![3u8],
        SegmentModel::MapKey(key) => seq![4u8] + be32(key.len() as u32) + key,
    }
}

/// Every length on the wire fits its 32-bit prefix.
pub open spec fn path_encodable(path: Seq<SegmentModel>) -> bool {
    &&& path.len() <= u32::MAX
    &&& forall|i: int| 0 <= i < path.len() ==> (#[trigger] path[i] matches SegmentModel::MapKey(key) ==> key.len() <= u32::MAX)
}

/// Concatenated encodings of segments.
pub open spec fn segments_encoding(path: Seq<SegmentModel>) -> Seq<u8>
    decreases path.len(),
{
    if path.len() == 0 {
        Seq::empty()
    } else {
        segments_encoding(path.drop_last()) + segment_encoding(path.last())
    }
}

/// Canonical bytes of a path: the segment count, then each segment.
pub open spec fn path_encoding(path: Seq<SegmentModel>) -> Seq<u8> {
    be32(path.len() as u32) + segments_encoding(path)
}

impl ValuePath {
    /// The canonical bytes of the path, when every length fits the wire.
    pub fn canonical_bytes(&self) -> (bytes: Result<Vec<u8>, EncodeError>)
        ensures
            bytes is Ok <==> path_encodable(self@),
            bytes matches Ok(b) ==> b@ == path_encoding(self@),
            bytes matches Err(e) ==> e == EncodeError::LengthOverflow,
    {
        if self.segments.len() > 0xffff_ffffusize {
            return Err(EncodeError::LengthOverflow);
        }
        let mut output: Vec<u8> = Vec::new();
        put_u32(&mut output, self.segments.len() as u32);
        let mut index: usize = 0;
        while index < self.segments.len()
            invariant
                index <= self.segments@.len(),
                self.segments@.len() <= u32::MAX,
                output@ == be32(self.segments@.len() as u32) + segments_encoding(self@.take(index as int)),
                forall|i: int| 0 <= i < index ==> (#[trigger] self@[i] matches SegmentModel::MapKey(key) ==> key.len() <= u32::MAX),
            decreases self.segments@.len() - index,
        {
            let ghost before = output@;
            match &self.segments[index] {
                PathSegment::Field(id) => {
                    put_u8(&mut output, 0);
                    put_u16(&mut output, *id);
                },
                PathSegment::TupleIndex(i) => {
                    put_u8(&mut output, 1);
                    put_u32(&mut output, *i);
                },
                PathSegment::VectorIndex(i) => {
                    put_u8(&mut output, 2);
                    put_u32(&mut output, *i);
                },
                PathSegment::SumPayload => put_u8(&mut output, 3),
                PathSegment::MapKey(key) => {
                    if key.len() > 0xffff_ffffusize {
                        assert(self@[index as int] == self.segments@[index as int]@);
                        return Err(EncodeError::LengthOverflow);
                    }
                    put_u8(&mut output, 4);
                    put_u32(&mut output, key.len() as u32);
                    put_bytes(&mut output, key.as_slice());
                },
            }
            proof {
                let prefix = self@.take(index + 1);
                assert(prefix.drop_last() =~= self@.take(index as int));
                assert(prefix.last() == self.segments@[index as int]@);
                assert(output@ =~= before + segment_encoding(self.segments@[index as int]@));
            }
            index = index + 1;
        }
        assert(self@.take(self@.len() as int) =~= self@);
        Ok(output)
    }
}


/// Patch construction or application failure.
#[derive(Clone, Debug, PartialEq, Eq)]
pub enum PatchError {
    /// Canonical encoding failed.
    Encode(EncodeError),
    /// A closed value failed validation.
    InvalidValue(ValueError),
    /// Operations target the same path or an ancestor/descendant pair.
    OverlappingPaths,
    /// A root insert is not meaningful.
    InsertAtRoot,
    /// A root delete is not meaningful.
    DeleteRoot,
    /// A map insert omitted its semantic key.
    MissingMapKey,
    /// A non-map insert unexpectedly carried a map key.
    UnexpectedMapKey,
    /// The semantic map key does not match the path's encoded key.
    MapKeyMismatch,
    /// The selected insert destination is unsupported.
    UnsupportedInsertTarget,
    /// The selected delete destination is unsupported.
    UnsupportedDeleteTarget,
    /// A path segment does not match the encountered value kind.
    PathTypeMismatch,
    /// The path does not exist.
    PathNotFound,
    /// An index could not be represented on this platform.
    IndexOverflow,
    /// Insert expected an absent destination but found a value.
    ExpectedAbsent,
    /// The state root does not match the patch precondition.
    PreRootMismatch {
        /// Expected root.
        expected: Hash32,
        /// Actual root.
        actual: Hash32,
    },
    /// An existing value does not match the operation precondition.
    OldValueMismatch {
        /// Target path.
        path: ValuePath,
        /// Expected old value commitment.
        expected: Hash32,
        /// Actual old value commitment.
        actual: Hash32,
    },
}

impl PatchError {
    /// Returns the human-readable description.
    pub fn message(&self) -> (text: &'static str)
        ensures
            text == (match *self {
                PatchError::Encode(_) => "patch encoding failed",
                PatchError::InvalidValue(_) => "patched value is not canonical",
                PatchError::OverlappingPaths => "patch paths overlap",
                PatchError::InsertAtRoot => "cannot insert the root",
                PatchError::DeleteRoot => "cannot delete the root",
                PatchError::MissingMapKey => "map insert is missing its semantic key",
                PatchError::UnexpectedMapKey => "non-map insert carries a map key",
                PatchError::MapKeyMismatch => "semantic map key does not match encoded key",
                PatchError::UnsupportedInsertTarget => "unsupported insert target",
                PatchError::UnsupportedDeleteTarget => "unsupported delete target",
                PatchError::PathTypeMismatch => "path segment does not match value kind",
                PatchError::PathNotFound => "patch path not found",
                PatchError::IndexOverflow => "path index overflow",
                PatchError::ExpectedAbsent => "insert destination is not absent",
                PatchError::PreRootMismatch { .. } => "pre-root mismatch",
                PatchError::OldValueMismatch { .. } => "old-value mismatch",
            }),
    {
        match self {
            PatchError::Encode(_) => "patch encoding failed",
            PatchError::InvalidValue(_) => "patched value is not canonical",
            PatchError::OverlappingPaths => "patch paths overlap",
            PatchError::InsertAtRoot => "cannot insert the root",
            PatchError::DeleteRoot => "cannot delete the root",
            PatchError::MissingMapKey => "map insert is missing its semantic key",
            PatchError::UnexpectedMapKey => "non-map insert carries a map key",
            PatchError::MapKeyMismatch => "semantic map key does not match encoded key",
            PatchError::UnsupportedInsertTarget => "unsupported insert target",
            PatchError::UnsupportedDeleteTarget => "unsupported delete target",
            PatchError::PathTypeMismatch => "path segment does not match value kind",
            PatchError::PathNotFound => "patch path not found",
            PatchError::IndexOverflow => "path index overflow",
            PatchError::ExpectedAbsent => "insert destination is not absent",
            PatchError::PreRootMismatch { .. } => "pre-root mismatch",
            PatchError::OldValueMismatch { .. } => "old-value mismatch",
        }
    }
}

/// A value result as models.
pub open spec fn outcome(result: Result<Value, PatchError>) -> Result<ValueModel, PatchError> {
    match result {
        Ok(value) => Ok(value@),
        Err(error) => Err(error),
    }
}

/// A borrowed value result as models.
pub open spec fn outcome_ref(result: Result<&Value, PatchError>) -> Result<ValueModel, PatchError> {
    match result {
        Ok(value) => Ok(value@),
        Err(error) => Err(error),
    }
}

/// The position of the first field with an identifier.
pub open spec fn first_field(fields: Seq<(u16, ValueModel)>, id: u16) -> Option<int> {
    if exists|i: int| 0 <= i < fields.len() && fields[i].0 == id {
        Some(
            choose|i: int|
                0 <= i < fields.len() && fields[i].0 == id && forall|j: int| 0 <= j < i ==> fields[j].0 != id,
        )
    } else {
        None
    }
}

/// The position of the first entry whose encoded key is `key`.
pub open spec fn first_entry(entries: Seq<(ValueModel, ValueModel)>, key: Seq<u8>) -> Option<int> {
    if exists|i: int| 0 <= i < entries.len() && encoding(entries[i].0) == key {
        Some(
            choose|i: int|
                0 <= i < entries.len() && encoding(entries[i].0) == key && forall|j: int|
                    0 <= j < i ==> encoding(entries[j].0) != key,
        )
    } else {
        None
    }
}

/// Where a new field goes: before the first field with a larger identifier.
pub open spec fn field_slot(fields: Seq<(u16, ValueModel)>, id: u16) -> int {
    if exists|i: int| 0 <= i < fields.len() && fields[i].0 > id && forall|j: int| 0 <= j < i ==> fields[j].0 <= id {
        choose|i: int| 0 <= i < fields.len() && fields[i].0 > id && forall|j: int| 0 <= j < i ==> fields[j].0 <= id
    } else {
        fields.len() as int
    }
}

/// Where a new entry goes: before the first entry whose encoded key follows `key`.
pub open spec fn entry_slot(entries: Seq<(ValueModel, ValueModel)>, key: Seq<u8>) -> int {
    if exists|i: int|
        0 <= i < entries.len() && bytes_lt(key, encoding(entries[i].0)) && forall|j: int|
            0 <= j < i ==> !bytes_lt(key, encoding(entries[j].0)) {
        choose|i: int|
            0 <= i < entries.len() && bytes_lt(key, encoding(entries[i].0)) && forall|j: int|
                0 <= j < i ==> !bytes_lt(key, encoding(entries[j].0))
    } else {
        entries.len() as int
    }
}

/// A record, when its fields are in canonical order.
pub open spec fn canonical_record(fields: Seq<(u16, ValueModel)>) -> Result<ValueModel, PatchError> {
    if fields_ordered(fields) {
        Ok(ValueModel::Record(fields))
    } else {
        Err(PatchError::InvalidValue(ValueError::UnorderedRecordFields))
    }
}

/// A map, when its entries are in canonical order.
pub open spec fn canonical_map(entries: Seq<(ValueModel, ValueModel)>) -> Result<ValueModel, PatchError> {
    if entries_ordered(entries) {
        Ok(ValueModel::Mapping(entries))
    } else {
        Err(PatchError::InvalidValue(ValueError::UnorderedMapKeys))
    }
}

/// The child one segment below a value.
pub open spec fn child_at(value: ValueModel, segment: SegmentModel) -> Result<ValueModel, PatchError> {
    match (segment, value) {
        (SegmentModel::Field(id), ValueModel::Record(fields)) => match first_field(fields, id) {
            Some(i) => Ok(fields[i].1),
            None => Err(PatchError::PathNotFound),
        },
        (SegmentModel::TupleIndex(i), ValueModel::Tuple(items)) => if i < items.len() {
            Ok(items[i as int])
        } else {
            Err(PatchError::PathNotFound)
        },
        (SegmentModel::VectorIndex(i), ValueModel::Vector(items)) => if i < items.len() {
            Ok(items[i as int])
        } else {
            Err(PatchError::PathNotFound)
        },
        (SegmentModel::SumPayload, ValueModel::Sum { payload, .. }) => match payload {
            Some(child) => Ok(*child),
            None => Err(PatchError::PathNotFound),
        },
        (SegmentModel::MapKey(key), ValueModel::Mapping(entries)) => match first_entry(entries, key) {
            Some(i) => Ok(entries[i].1),
            None => Err(PatchError::PathNotFound),
        },
        _ => Err(PatchError::PathTypeMismatch),
    }
}

/// The value with its child one segment below replaced (where `child_at` succeeds).
pub open spec fn with_child(value: ValueModel, segment: SegmentModel, child: ValueModel) -> Result<ValueModel, PatchError> {
    match (segment, value) {
        (SegmentModel::Field(id), ValueModel::Record(fields)) => canonical_record(
            fields.update(first_field(fields, id).unwrap(), (id, child)),
        ),
        (SegmentModel::TupleIndex(i), ValueModel::Tuple(items)) => Ok(ValueModel::Tuple(items.update(i as int, child))),
        (SegmentModel::VectorIndex(i), ValueModel::Vector(items)) => Ok(
            ValueModel::Vector(items.update(i as int, child)),
        ),
        (SegmentModel::SumPayload, ValueModel::Sum { type_id, variant, .. }) => Ok(
            ValueModel::Sum { type_id, variant, payload: Some(Box::new(child)) },
        ),
        (SegmentModel::MapKey(key), ValueModel::Mapping(entries)) => {
            let i = first_entry(entries, key).unwrap();
            canonical_map(entries.update(i, (entries[i].0, child)))
        },
        _ => Err(PatchError::PathTypeMismatch),
    }
}

/// The value at a path.
pub open spec fn lookup_path(value: ValueModel, path: Seq<SegmentModel>) -> Result<ValueModel, PatchError>
    decreases path.len(),
{
    if path.len() == 0 {
        Ok(value)
    } else {
        match child_at(value, path[0]) {
            Ok(child) => lookup_path(child, path.drop_first()),
            Err(error) => Err(error),
        }
    }
}

/// The value with the value at a path replaced.
pub open spec fn replace_path(value: ValueModel, path: Seq<SegmentModel>, replacement: ValueModel) -> Result<ValueModel, PatchError>
    decreases path.len(),
{
    if path.len() == 0 {
        Ok(replacement)
    } else {
        match child_at(value, path[0]) {
            Err(error) => Err(error),
            Ok(child) => match replace_path(child, path.drop_first(), replacement) {
                Err(error) => Err(error),
                Ok(updated) => with_child(value, path[0], updated),
            },
        }
    }
}

/// Inserts an absent record field or map entry directly below a value.
pub open spec fn insert_here(value: ValueModel, segment: SegmentModel, map_key: Option<ValueModel>, inserted: ValueModel) -> Result<ValueModel, PatchError> {
    match (segment, value) {
        (SegmentModel::Field(id), ValueModel::Record(fields)) => if first_field(fields, id) is Some {
            Err(PatchError::ExpectedAbsent)
        } else {
            canonical_record(fields.insert(field_slot(fields, id), (id, inserted)))
        },
        (SegmentModel::MapKey(key), ValueModel::Mapping(entries)) => match map_key {
            None => Err(PatchError::MissingMapKey),
            Some(semantic) => if first_entry(entries, key) is Some {
                Err(PatchError::ExpectedAbsent)
            } else if encoding(semantic) != key {
                Err(PatchError::MapKeyMismatch)
            } else {
                canonical_map(entries.insert(entry_slot(entries, key), (semantic, inserted)))
            },
        },
        _ => Err(PatchError::UnsupportedInsertTarget),
    }
}

/// The value with an absent record field or map entry inserted at a path.
pub open spec fn insert_path(value: ValueModel, path: Seq<SegmentModel>, map_key: Option<ValueModel>, inserted: ValueModel) -> Result<ValueModel, PatchError>
    decreases path.len(),
{
    if path.len() == 0 {
        Err(PatchError::InsertAtRoot)
    } else if path.len() == 1 {
        insert_here(value, path[0], map_key, inserted)
    } else {
        match child_at(value, path[0]) {
            Err(error) => Err(error),
            Ok(child) => match insert_path(child, path.drop_first(), map_key, inserted) {
                Err(error) => Err(error),
                Ok(updated) => with_child(value, path[0], updated),
            },
        }
    }
}

/// Deletes an existing record field or map entry directly below a value.
pub open spec fn delete_here(value: ValueModel, segment: SegmentModel) -> Result<ValueModel, PatchError> {
    match (segment, value) {
        (SegmentModel::Field(id), ValueModel::Record(fields)) => match first_field(fields, id) {
            None => Err(PatchError::PathNotFound),
            Some(i) => canonical_record(fields.remove(i)),
        },
        (SegmentModel::MapKey(key), ValueModel::Mapping(entries)) => match first_entry(entries, key) {
            None => Err(PatchError::PathNotFound),
            Some(i) => canonical_map(entries.remove(i)),
        },
        _ => Err(PatchError::UnsupportedDeleteTarget),
    }
}

/// The value with an existing record field or map entry at a path deleted.
pub open spec fn delete_path(value: ValueModel, path: Seq<SegmentModel>) -> Result<ValueModel, PatchError>
    decreases path.len(),
{
    if path.len() == 0 {
        Err(PatchError::DeleteRoot)
    } else if path.len() == 1 {
        delete_here(value, path[0])
    } else {
        match child_at(value, path[0]) {
            Err(error) => Err(error),
            Ok(child) => match delete_path(child, path.drop_first()) {
                Err(error) => Err(error),
                Ok(updated) => with_child(value, path[0], updated),
            },
        }
    }
}


#[verifier::spinoff_prover]
#[verifier::rlimit(40)]
fn find_field_index(fields: &Vec<Field>, id: u16) -> (found: Option<usize>)
    ensures
        found matches Some(i) ==> first_field(field_models(fields@), id) == Some(i as int) && i < fields@.len(),
        found is None ==> first_field(field_models(fields@), id) is None,
{
    proof {
        lemma_field_models(fields@);
    }
    let ghost modeled = field_models(fields@);
    let mut index: usize = 0;
    while index < fields.len()
        invariant
            index <= fields@.len(),
            modeled == field_models(fields@),
            modeled.len() == fields@.len(),
            forall|j: int| 0 <= j < fields@.len() ==> #[trigger] modeled[j] == (fields@[j].id, model_of_field(fields@[j])),
            forall|j: int| 0 <= j < index ==> modeled[j].0 != id,
        decreases fields@.len() - index,
    {
        if fields[index].id == id {
            proof {
                assert(modeled[index as int].0 == id);
                let k = choose|k: int|
                    0 <= k < modeled.len() && modeled[k].0 == id && forall|j: int| 0 <= j < k ==> modeled[j].0 != id;
                if k < index as int {
                } else if k > index as int {
                    assert(modeled[index as int].0 != id);
                }
            }
            return Some(index);
        }
        index = index + 1;
    }
    None
}

/// The model of a field's value.
pub open spec fn model_of_field(field: Field) -> ValueModel {
    field.value@
}

fn find_entry_index(entries: &Vec<MapEntry>, key: &[u8]) -> (found: Option<usize>)
    ensures
        found matches Some(i) ==> first_entry(entry_models(entries@), key@) == Some(i as int) && i < entries@.len(),
        found is None ==> first_entry(entry_models(entries@), key@) is None,
{
    proof {
        lemma_entry_models(entries@);
    }
    let ghost modeled = entry_models(entries@);
    let mut index: usize = 0;
    while index < entries.len()
        invariant
            index <= entries@.len(),
            modeled == entry_models(entries@),
            modeled.len() == entries@.len(),
            forall|j: int| 0 <= j < entries@.len() ==> #[trigger] modeled[j] == (entries@[j].key@, entries@[j].value@),
            forall|j: int| 0 <= j < index ==> encoding(modeled[j].0) != key@,
        decreases entries@.len() - index,
    {
        let encoded = entries[index].encoded_key();
        if same_bytes(encoded.as_slice(), key) {
            proof {
                assert(encoding(modeled[index as int].0) == key@);
                let k = choose|k: int|
                    0 <= k < modeled.len() && encoding(modeled[k].0) == key@ && forall|j: int|
                        0 <= j < k ==> encoding(modeled[j].0) != key@;
                if k < index as int {
                } else if k > index as int {
                    assert(encoding(modeled[index as int].0) != key@);
                }
            }
            return Some(index);
        }
        index = index + 1;
    }
    None
}

fn field_slot_index(fields: &Vec<Field>, id: u16) -> (slot: usize)
    ensures
        slot as int == field_slot(field_models(fields@), id),
        slot <= fields@.len(),
{
    proof {
        lemma_field_models(fields@);
    }
    let ghost modeled = field_models(fields@);
    let mut index: usize = 0;
    while index < fields.len()
        invariant
            index <= fields@.len(),
            modeled == field_models(fields@),
            modeled.len() == fields@.len(),
            forall|j: int| 0 <= j < fields@.len() ==> #[trigger] modeled[j] == (fields@[j].id, model_of_field(fields@[j])),
            forall|j: int| 0 <= j < index ==> modeled[j].0 <= id,
        decreases fields@.len() - index,
    {
        if fields[index].id > id {
            proof {
                assert(modeled[index as int].0 > id);
                let k = choose|k: int|
                    0 <= k < modeled.len() && modeled[k].0 > id && forall|j: int| 0 <= j < k ==> modeled[j].0 <= id;
                if k < index as int {
                } else if k > index as int {
                    assert(modeled[index as int].0 <= id);
                }
            }
            return index;
        }
        index = index + 1;
    }
    index
}

fn entry_slot_index(entries: &Vec<MapEntry>, key: &[u8]) -> (slot: usize)
    ensures
        slot as int == entry_slot(entry_models(entries@), key@),
        slot <= entries@.len(),
{
    proof {
        lemma_entry_models(entries@);
    }
    let ghost modeled = entry_models(entries@);
    let mut index: usize = 0;
    while index < entries.len()
        invariant
            index <= entries@.len(),
            modeled == entry_models(entries@),
            modeled.len() == entries@.len(),
            forall|j: int| 0 <= j < entries@.len() ==> #[trigger] modeled[j] == (entries@[j].key@, entries@[j].value@),
            forall|j: int| 0 <= j < index ==> !bytes_lt(key@, encoding(modeled[j].0)),
        decreases entries@.len() - index,
    {
        let encoded = entries[index].encoded_key();
        if bytes_less(key, encoded.as_slice()) {
            proof {
                assert(bytes_lt(key@, encoding(modeled[index as int].0)));
                let k = choose|k: int|
                    0 <= k < modeled.len() && bytes_lt(key@, encoding(modeled[k].0)) && forall|j: int|
                        0 <= j < k ==> !bytes_lt(key@, encoding(modeled[j].0));
                if k < index as int {
                } else if k > index as int {
                    assert(!bytes_lt(key@, encoding(modeled[index as int].0)));
                }
            }
            return index;
        }
        index = index + 1;
    }
    index
}


fn record_child(fields: &Vec<Field>, id: u16) -> (child: Result<&Value, PatchError>)
    ensures
        outcome_ref(child) == match first_field(field_models(fields@), id) {
            Some(i) => Ok(field_models(fields@)[i].1),
            None => Err(PatchError::PathNotFound),
        },
{
    match find_field_index(fields, id) {
        Some(index) => {
            proof {
                lemma_field_models(fields@);
            }
            Ok(&fields[index].value)
        },
        None => Err(PatchError::PathNotFound),
    }
}

fn item_child(items: &Vec<Value>, index: u32) -> (child: Result<&Value, PatchError>)
    ensures
        outcome_ref(child) == if index < models(items@).len() {
            Ok(models(items@)[index as int])
        } else {
            Err::<ValueModel, PatchError>(PatchError::PathNotFound)
        },
{
    proof {
        lemma_models(items@);
    }
    if (index as usize) < items.len() {
        Ok(&items[index as usize])
    } else {
        Err(PatchError::PathNotFound)
    }
}

fn entry_child<'a>(entries: &'a Vec<MapEntry>, key: &[u8]) -> (child: Result<&'a Value, PatchError>)
    ensures
        outcome_ref(child) == match first_entry(entry_models(entries@), key@) {
            Some(i) => Ok(entry_models(entries@)[i].1),
            None => Err(PatchError::PathNotFound),
        },
{
    match find_entry_index(entries, key) {
        Some(index) => {
            proof {
                lemma_entry_models(entries@);
            }
            Ok(&entries[index].value)
        },
        None => Err(PatchError::PathNotFound),
    }
}

/// The child one segment below a value.
fn child_ref<'a>(value: &'a Value, segment: &PathSegment) -> (child: Result<&'a Value, PatchError>)
    ensures
        outcome_ref(child) == child_at(value@, segment@),
{
    match (segment, value) {
        (PathSegment::Field(id), Value::Record(fields)) => record_child(fields, *id),
        (PathSegment::TupleIndex(index), Value::Tuple(items)) => item_child(items, *index),
        (PathSegment::VectorIndex(index), Value::Vector(items)) => item_child(items, *index),
        (PathSegment::SumPayload, Value::Sum { payload, .. }) => match payload {
            Some(child) => Ok(&**child),
            None => Err(PatchError::PathNotFound),
        },
        (PathSegment::MapKey(key), Value::Mapping(entries)) => entry_child(entries, key.as_slice()),
        _ => Err(PatchError::PathTypeMismatch),
    }
}

fn rebuild_record(fields: &Vec<Field>, id: u16, child: Value) -> (rebuilt: Result<Value, PatchError>)
    requires
        first_field(field_models(fields@), id) is Some,
    ensures
        outcome(rebuilt) == canonical_record(
            field_models(fields@).update(first_field(field_models(fields@), id).unwrap(), (id, child@)),
        ),
{
    let index = match find_field_index(fields, id) {
        Some(index) => index,
        None => return Err(PatchError::PathNotFound),
    };
    let mut next = duplicate_fields(fields);
    let ghost before = next@;
    next.set(index, Field::new(id, child));
    proof {
        lemma_field_models(next@);
        lemma_field_models(before);
        let target = field_models(fields@).update(index as int, (id, child@));
        assert forall|j: int| 0 <= j < target.len() implies field_models(next@)[j] == target[j] by {
            if j != index as int {
                assert(next@[j] == before[j]);
                assert(field_models(before)[j] == field_models(fields@)[j]);
            }
        }
        assert(field_models(next@) =~= target);
    }
    match Value::record_canonical(next) {
        Ok(record) => Ok(record),
        Err(error) => Err(PatchError::InvalidValue(error)),
    }
}

fn rebuild_items(items: &Vec<Value>, index: u32, child: Value) -> (rebuilt: Vec<Value>)
    requires
        index < models(items@).len(),
    ensures
        models(rebuilt@) == models(items@).update(index as int, child@),
{
    proof {
        lemma_models(items@);
    }
    let mut next = duplicate_values(items);
    let ghost before = next@;
    next.set(index as usize, child);
    proof {
        lemma_models(next@);
        lemma_models(before);
        let target = models(items@).update(index as int, child@);
        assert forall|j: int| 0 <= j < target.len() implies models(next@)[j] == target[j] by {
            if j != index as int {
                assert(next@[j] == before[j]);
                assert(models(before)[j] == models(items@)[j]);
            }
        }
        assert(models(next@) =~= target);
    }
    next
}

proof fn rebuilt_entries_model(
    entries: Seq<MapEntry>,
    before: Seq<MapEntry>,
    next: Seq<MapEntry>,
    index: int,
    child: ValueModel,
)
    requires
        0 <= index < entries.len(),
        entry_models(before) == entry_models(entries),
        before.len() == entries.len(),
        next == before.update(index, next[index]),
        next[index].key@ == entries[index].key@,
        next[index].value@ == child,
    ensures
        entry_models(next) == entry_models(entries).update(index, (entry_models(entries)[index].0, child)),
{
    lemma_entry_models(next);
    lemma_entry_models(before);
    lemma_entry_models(entries);
    let target = entry_models(entries).update(index, (entry_models(entries)[index].0, child));
    assert forall|j: int| 0 <= j < target.len() implies entry_models(next)[j] == target[j] by {
        if j != index {
            assert(next[j] == before[j]);
            assert(entry_models(before)[j] == entry_models(entries)[j]);
        }
    }
    assert(entry_models(next) =~= target);
}

fn rebuild_entries(entries: &Vec<MapEntry>, key: &[u8], child: Value) -> (rebuilt: Result<Value, PatchError>)
    requires
        first_entry(entry_models(entries@), key@) is Some,
    ensures
        ({
            let modeled = entry_models(entries@);
            let i = first_entry(modeled, key@).unwrap();
            outcome(rebuilt) == canonical_map(modeled.update(i, (modeled[i].0, child@)))
        }),
{
    let index = match find_entry_index(entries, key) {
        Some(index) => index,
        None => return Err(PatchError::PathNotFound),
    };
    let mut next = duplicate_entries(entries);
    let ghost before = next@;
    let entry_key = entries[index].key.duplicate();
    next.set(index, MapEntry::new(entry_key, child));
    proof {
        rebuilt_entries_model(entries@, before, next@, index as int, child@);
    }
    match Value::map_canonical(next) {
        Ok(map) => Ok(map),
        Err(error) => Err(PatchError::InvalidValue(error)),
    }
}

/// The value with its child one segment below replaced.
fn rebuild(value: &Value, segment: &PathSegment, child: Value) -> (rebuilt: Result<Value, PatchError>)
    requires
        child_at(value@, segment@) is Ok,
    ensures
        outcome(rebuilt) == with_child(value@, segment@, child@),
{
    match (segment, value) {
        (PathSegment::Field(id), Value::Record(fields)) => rebuild_record(fields, *id, child),
        (PathSegment::TupleIndex(index), Value::Tuple(items)) => Ok(Value::Tuple(rebuild_items(items, *index, child))),
        (PathSegment::VectorIndex(index), Value::Vector(items)) => Ok(
            Value::Vector(rebuild_items(items, *index, child)),
        ),
        (PathSegment::SumPayload, Value::Sum { type_id, variant, .. }) => Ok(
            Value::Sum { type_id: *type_id, variant: *variant, payload: Some(Box::new(child)) },
        ),
        (PathSegment::MapKey(key), Value::Mapping(entries)) => rebuild_entries(entries, key.as_slice(), child),
        _ => Err(PatchError::PathTypeMismatch),
    }
}


proof fn lemma_skip_step(segments: Seq<PathSegment>, start: int)
    requires
        0 <= start < segments.len(),
    ensures
        segment_models(segments).skip(start).len() > 0,
        segment_models(segments).skip(start)[0] == segments[start]@,
        segment_models(segments).skip(start).drop_first() == segment_models(segments).skip(start + 1),
        segment_models(segments).skip(start).len() == segments.len() - start,
{
    assert(segment_models(segments).skip(start).drop_first() =~= segment_models(segments).skip(start + 1));
}

/// Resolves the path `segments[start..]` below a value.
fn lookup_from<'a>(value: &'a Value, segments: &[PathSegment], start: usize) -> (found: Result<&'a Value, PatchError>)
    requires
        start <= segments@.len(),
    ensures
        outcome_ref(found) == lookup_path(value@, segment_models(segments@).skip(start as int)),
    decreases segments@.len() - start,
{
    if start == segments.len() {
        assert(segment_models(segments@).skip(start as int).len() == 0);
        return Ok(value);
    }
    proof {
        lemma_skip_step(segments@, start as int);
    }
    let child = match child_ref(value, &segments[start]) {
        Ok(child) => child,
        Err(error) => return Err(error),
    };
    lookup_from(child, segments, start + 1)
}

/// Replaces the value at `segments[start..]` below a value.
fn replace_from(value: &Value, segments: &[PathSegment], start: usize, replacement: Value) -> (replaced: Result<Value, PatchError>)
    requires
        start <= segments@.len(),
    ensures
        outcome(replaced) == replace_path(value@, segment_models(segments@).skip(start as int), replacement@),
    decreases segments@.len() - start,
{
    if start == segments.len() {
        assert(segment_models(segments@).skip(start as int).len() == 0);
        return Ok(replacement);
    }
    proof {
        lemma_skip_step(segments@, start as int);
    }
    let child = match child_ref(value, &segments[start]) {
        Ok(child) => child,
        Err(error) => return Err(error),
    };
    let updated = match replace_from(child, segments, start + 1, replacement) {
        Ok(updated) => updated,
        Err(error) => return Err(error),
    };
    rebuild(value, &segments[start], updated)
}

/// The model of an optional borrowed value.
pub open spec fn optional_model(value: Option<&Value>) -> Option<ValueModel> {
    match value {
        Some(v) => Some(v@),
        None => None,
    }
}

fn insert_field(fields: &Vec<Field>, id: u16, inserted: Value) -> (result: Result<Value, PatchError>)
    ensures
        outcome(result) == if first_field(field_models(fields@), id) is Some {
            Err::<ValueModel, PatchError>(PatchError::ExpectedAbsent)
        } else {
            canonical_record(
                field_models(fields@).insert(field_slot(field_models(fields@), id), (id, inserted@)),
            )
        },
{
    if find_field_index(fields, id).is_some() {
        return Err(PatchError::ExpectedAbsent);
    }
    let slot = field_slot_index(fields, id);
    let mut next = duplicate_fields(fields);
    let ghost before = next@;
    next.insert(slot, Field::new(id, inserted));
    proof {
        lemma_field_models(next@);
        lemma_field_models(before);
        lemma_field_models(fields@);
        let target = field_models(fields@).insert(slot as int, (id, inserted@));
        assert forall|j: int| 0 <= j < target.len() implies field_models(next@)[j] == target[j] by {
            if j < slot as int {
                assert(next@[j] == before[j]);
                assert(field_models(before)[j] == field_models(fields@)[j]);
            } else if j > slot as int {
                assert(next@[j] == before[j - 1]);
                assert(field_models(before)[j - 1] == field_models(fields@)[j - 1]);
            }
        }
        assert(field_models(next@) =~= target);
    }
    match Value::record_canonical(next) {
        Ok(record) => Ok(record),
        Err(error) => Err(PatchError::InvalidValue(error)),
    }
}

proof fn inserted_entries_model(
    entries: Seq<MapEntry>,
    before: Seq<MapEntry>,
    next: Seq<MapEntry>,
    slot: int,
    entry: (ValueModel, ValueModel),
)
    requires
        0 <= slot <= entries.len(),
        entry_models(before) == entry_models(entries),
        before.len() == entries.len(),
        next == before.insert(slot, next[slot]),
        (next[slot].key@, next[slot].value@) == entry,
    ensures
        entry_models(next) == entry_models(entries).insert(slot, entry),
{
    lemma_entry_models(next);
    lemma_entry_models(before);
    lemma_entry_models(entries);
    let target = entry_models(entries).insert(slot, entry);
    assert forall|j: int| 0 <= j < target.len() implies entry_models(next)[j] == target[j] by {
        if j < slot {
            assert(next[j] == before[j]);
            assert(entry_models(before)[j] == entry_models(entries)[j]);
        } else if j > slot {
            assert(next[j] == before[j - 1]);
            assert(entry_models(before)[j - 1] == entry_models(entries)[j - 1]);
        }
    }
    assert(entry_models(next) =~= target);
}

fn insert_entry(entries: &Vec<MapEntry>, key: &[u8], map_key: Option<&Value>, inserted: Value) -> (result: Result<Value, PatchError>)
    ensures
        outcome(result) == match optional_model(map_key) {
            None => Err(PatchError::MissingMapKey),
            Some(semantic) => if first_entry(entry_models(entries@), key@) is Some {
                Err(PatchError::ExpectedAbsent)
            } else if encoding(semantic) != key@ {
                Err(PatchError::MapKeyMismatch)
            } else {
                canonical_map(
                    entry_models(entries@).insert(entry_slot(entry_models(entries@), key@), (semantic, inserted@)),
                )
            },
        },
{
    let semantic = match map_key {
        Some(semantic) => semantic,
        None => return Err(PatchError::MissingMapKey),
    };
    if find_entry_index(entries, key).is_some() {
        return Err(PatchError::ExpectedAbsent);
    }
    let slot = entry_slot_index(entries, key);
    let entry = MapEntry::new(semantic.duplicate(), inserted);
    let encoded = entry.encoded_key();
    if !same_bytes(encoded.as_slice(), key) {
        return Err(PatchError::MapKeyMismatch);
    }
    let mut next = duplicate_entries(entries);
    let ghost before = next@;
    next.insert(slot, entry);
    proof {
        inserted_entries_model(entries@, before, next@, slot as int, (semantic@, inserted@));
    }
    match Value::map_canonical(next) {
        Ok(map) => Ok(map),
        Err(error) => Err(PatchError::InvalidValue(error)),
    }
}

#[verifier::spinoff_prover]
#[verifier::rlimit(40)]
fn insert_directly(value: &Value, segment: &PathSegment, map_key: Option<&Value>, inserted: Value) -> (result: Result<Value, PatchError>)
    ensures
        outcome(result) == insert_here(value@, segment@, optional_model(map_key), inserted@),
{
    match (segment, value) {
        (PathSegment::Field(id), Value::Record(fields)) => insert_field(fields, *id, inserted),
        (PathSegment::MapKey(key), Value::Mapping(entries)) => insert_entry(entries, key.as_slice(), map_key, inserted),
        _ => Err(PatchError::UnsupportedInsertTarget),
    }
}

/// Inserts at `segments[start..]` below a value.
fn insert_from(value: &Value, segments: &[PathSegment], start: usize, map_key: Option<&Value>, inserted: Value) -> (result: Result<Value, PatchError>)
    requires
        start <= segments@.len(),
    ensures
        outcome(result) == insert_path(value@, segment_models(segments@).skip(start as int), optional_model(map_key), inserted@),
    decreases segments@.len() - start,
{
    if start == segments.len() {
        assert(segment_models(segments@).skip(start as int).len() == 0);
        return Err(PatchError::InsertAtRoot);
    }
    proof {
        lemma_skip_step(segments@, start as int);
    }
    if start + 1 == segments.len() {
        return insert_directly(value, &segments[start], map_key, inserted);
    }
    let child = match child_ref(value, &segments[start]) {
        Ok(child) => child,
        Err(error) => return Err(error),
    };
    let updated = match insert_from(child, segments, start + 1, map_key, inserted) {
        Ok(updated) => updated,
        Err(error) => return Err(error),
    };
    rebuild(value, &segments[start], updated)
}

#[verifier::spinoff_prover]
#[verifier::rlimit(40)]
fn delete_field(fields: &Vec<Field>, id: u16) -> (result: Result<Value, PatchError>)
    ensures
        outcome(result) == match first_field(field_models(fields@), id) {
            None => Err(PatchError::PathNotFound),
            Some(i) => canonical_record(field_models(fields@).remove(i)),
        },
{
    let index = match find_field_index(fields, id) {
        Some(index) => index,
        None => return Err(PatchError::PathNotFound),
    };
    let mut next = duplicate_fields(fields);
    let ghost before = next@;
    next.remove(index);
    proof {
        lemma_field_models(next@);
        lemma_field_models(before);
        lemma_field_models(fields@);
        let target = field_models(fields@).remove(index as int);
        assert forall|j: int| 0 <= j < target.len() implies field_models(next@)[j] == target[j] by {
            if j < index as int {
                assert(next@[j] == before[j]);
                assert(field_models(before)[j] == field_models(fields@)[j]);
            } else {
                assert(next@[j] == before[j + 1]);
                assert(field_models(before)[j + 1] == field_models(fields@)[j + 1]);
            }
        }
        assert(field_models(next@) =~= target);
    }
    match Value::record_canonical(next) {
        Ok(record) => Ok(record),
        Err(error) => Err(PatchError::InvalidValue(error)),
    }
}

proof fn removed_entries_model(entries: Seq<MapEntry>, before: Seq<MapEntry>, next: Seq<MapEntry>, index: int)
    requires
        0 <= index < entries.len(),
        entry_models(before) == entry_models(entries),
        before.len() == entries.len(),
        next == before.remove(index),
    ensures
        entry_models(next) == entry_models(entries).remove(index),
{
    lemma_entry_models(next);
    lemma_entry_models(before);
    lemma_entry_models(entries);
    let target = entry_models(entries).remove(index);
    assert forall|j: int| 0 <= j < target.len() implies entry_models(next)[j] == target[j] by {
        if j < index {
            assert(next[j] == before[j]);
            assert(entry_models(before)[j] == entry_models(entries)[j]);
        } else {
            assert(next[j] == before[j + 1]);
            assert(entry_models(before)[j + 1] == entry_models(entries)[j + 1]);
        }
    }
    assert(entry_models(next) =~= target);
}

fn delete_entry(entries: &Vec<MapEntry>, key: &[u8]) -> (result: Result<Value, PatchError>)
    ensures
        outcome(result) == match first_entry(entry_models(entries@), key@) {
            None => Err(PatchError::PathNotFound),
            Some(i) => canonical_map(entry_models(entries@).remove(i)),
        },
{
    let index = match find_entry_index(entries, key) {
        Some(index) => index,
        None => return Err(PatchError::PathNotFound),
    };
    let mut next = duplicate_entries(entries);
    let ghost before = next@;
    next.remove(index);
    proof {
        removed_entries_model(entries@, before, next@, index as int);
    }
    match Value::map_canonical(next) {
        Ok(map) => Ok(map),
        Err(error) => Err(PatchError::InvalidValue(error)),
    }
}

#[verifier::spinoff_prover]
#[verifier::rlimit(30)]
fn delete_directly(value: &Value, segment: &PathSegment) -> (result: Result<Value, PatchError>)
    ensures
        outcome(result) == delete_here(value@, segment@),
{
    match (segment, value) {
        (PathSegment::Field(id), Value::Record(fields)) => delete_field(fields, *id),
        (PathSegment::MapKey(key), Value::Mapping(entries)) => delete_entry(entries, key.as_slice()),
        _ => Err(PatchError::UnsupportedDeleteTarget),
    }
}

/// Deletes at `segments[start..]` below a value.
fn delete_from(value: &Value, segments: &[PathSegment], start: usize) -> (result: Result<Value, PatchError>)
    requires
        start <= segments@.len(),
    ensures
        outcome(result) == delete_path(value@, segment_models(segments@).skip(start as int)),
    decreases segments@.len() - start,
{
    if start == segments.len() {
        assert(segment_models(segments@).skip(start as int).len() == 0);
        return Err(PatchError::DeleteRoot);
    }
    proof {
        lemma_skip_step(segments@, start as int);
    }
    if start + 1 == segments.len() {
        return delete_directly(value, &segments[start]);
    }
    let child = match child_ref(value, &segments[start]) {
        Ok(child) => child,
        Err(error) => return Err(error),
    };
    let updated = match delete_from(child, segments, start + 1) {
        Ok(updated) => updated,
        Err(error) => return Err(error),
    };
    rebuild(value, &segments[start], updated)
}


proof fn lemma_first_field_same_ids(fields: Seq<(u16, ValueModel)>, other: Seq<(u16, ValueModel)>, id: u16)
    requires
        fields.len() == other.len(),
        forall|j: int| 0 <= j < fields.len() ==> #[trigger] fields[j].0 == other[j].0,
    ensures
        first_field(fields, id) == first_field(other, id),
{
    if exists|i: int| 0 <= i < fields.len() && fields[i].0 == id {
        let a = choose|i: int|
            0 <= i < fields.len() && fields[i].0 == id && forall|j: int| 0 <= j < i ==> fields[j].0 != id;
        let b = choose|i: int|
            0 <= i < other.len() && other[i].0 == id && forall|j: int| 0 <= j < i ==> other[j].0 != id;
        lemma_first_field_exists(fields, id);
        lemma_first_field_exists(other, id);
        assert(other[a].0 == id);
        assert(fields[b].0 == id);
        if a < b {
            assert(other[a].0 != id);
        } else if b < a {
            assert(fields[b].0 != id);
        }
    } else {
        assert forall|i: int| 0 <= i < other.len() implies other[i].0 != id by {
            assert(fields[i].0 == other[i].0);
        }
    }
}

/// When some field has the identifier, the first one exists.
proof fn lemma_first_field_exists(fields: Seq<(u16, ValueModel)>, id: u16)
    requires
        exists|i: int| 0 <= i < fields.len() && fields[i].0 == id,
    ensures
        exists|i: int|
            0 <= i < fields.len() && fields[i].0 == id && forall|j: int| 0 <= j < i ==> fields[j].0 != id,
    decreases fields.len(),
{
    let last = fields.len() - 1;
    if exists|i: int| 0 <= i < last && fields[i].0 == id {
        let w = choose|i: int| 0 <= i < last && fields[i].0 == id;
        assert(fields.drop_last()[w].0 == id);
        lemma_first_field_exists(fields.drop_last(), id);
        let i = choose|i: int|
            0 <= i < fields.drop_last().len() && fields.drop_last()[i].0 == id && forall|j: int|
                0 <= j < i ==> fields.drop_last()[j].0 != id;
        assert(fields[i].0 == id);
        assert forall|j: int| 0 <= j < i implies fields[j].0 != id by {
            assert(fields.drop_last()[j] == fields[j]);
        }
    } else {
        assert(fields[last].0 == id);
    }
}

/// When some entry has the encoded key, the first one exists.
proof fn lemma_first_entry_exists(entries: Seq<(ValueModel, ValueModel)>, key: Seq<u8>)
    requires
        exists|i: int| 0 <= i < entries.len() && encoding(entries[i].0) == key,
    ensures
        exists|i: int|
            0 <= i < entries.len() && encoding(entries[i].0) == key && forall|j: int|
                0 <= j < i ==> encoding(entries[j].0) != key,
    decreases entries.len(),
{
    let last = entries.len() - 1;
    if exists|i: int| 0 <= i < last && encoding(entries[i].0) == key {
        let w = choose|i: int| 0 <= i < last && encoding(entries[i].0) == key;
        assert(encoding(entries.drop_last()[w].0) == key);
        lemma_first_entry_exists(entries.drop_last(), key);
        let i = choose|i: int|
            0 <= i < entries.drop_last().len() && encoding(entries.drop_last()[i].0) == key && forall|j: int|
                0 <= j < i ==> encoding(entries.drop_last()[j].0) != key;
        assert(encoding(entries[i].0) == key);
        assert forall|j: int| 0 <= j < i implies encoding(entries[j].0) != key by {
            assert(entries.drop_last()[j] == entries[j]);
        }
    } else {
        assert(encoding(entries[last].0) == key);
    }
}

proof fn lemma_first_entry_same_keys(entries: Seq<(ValueModel, ValueModel)>, other: Seq<(ValueModel, ValueModel)>, key: Seq<u8>)
    requires
        entries.len() == other.len(),
        forall|j: int| 0 <= j < entries.len() ==> #[trigger] entries[j].0 == other[j].0,
    ensures
        first_entry(entries, key) == first_entry(other, key),
{
    if exists|i: int| 0 <= i < entries.len() && encoding(entries[i].0) == key {
        lemma_first_entry_exists(entries, key);
        lemma_first_entry_exists(other, key);
        let a = choose|i: int|
            0 <= i < entries.len() && encoding(entries[i].0) == key && forall|j: int|
                0 <= j < i ==> encoding(entries[j].0) != key;
        let b = choose|i: int|
            0 <= i < other.len() && encoding(other[i].0) == key && forall|j: int|
                0 <= j < i ==> encoding(other[j].0) != key;
        assert(other[a].0 == entries[a].0);
        assert(entries[b].0 == other[b].0);
        if a < b {
            assert(encoding(other[a].0) != key);
        } else if b < a {
            assert(encoding(entries[b].0) != key);
        }
    } else {
        assert forall|i: int| 0 <= i < other.len() implies encoding(other[i].0) != key by {
            assert(entries[i].0 == other[i].0);
        }
    }
}

/// Rebuilding a value around a new child puts exactly that child back under the segment.
proof fn lemma_child_of_rebuilt(value: ValueModel, segment: SegmentModel, child: ValueModel)
    requires
        child_at(value, segment) is Ok,
        with_child(value, segment, child) is Ok,
    ensures
        child_at(with_child(value, segment, child).unwrap(), segment) == Ok::<ValueModel, PatchError>(child),
{
    match (segment, value) {
        (SegmentModel::Field(id), ValueModel::Record(fields)) => {
            let i = first_field(fields, id).unwrap();
            let updated = fields.update(i, (id, child));
            lemma_first_field_exists(fields, id);
            assert forall|j: int| 0 <= j < fields.len() implies #[trigger] fields[j].0 == updated[j].0 by {}
            lemma_first_field_same_ids(fields, updated, id);
        },
        (SegmentModel::MapKey(key), ValueModel::Mapping(entries)) => {
            let i = first_entry(entries, key).unwrap();
            let updated = entries.update(i, (entries[i].0, child));
            lemma_first_entry_exists(entries, key);
            assert forall|j: int| 0 <= j < entries.len() implies #[trigger] entries[j].0 == updated[j].0 by {}
            lemma_first_entry_same_keys(entries, updated, key);
        },
        _ => {},
    }
}

/// Reading a path after writing it gives back what was written.
pub proof fn lemma_lookup_after_replace(value: ValueModel, path: Seq<SegmentModel>, replacement: ValueModel)
    requires
        replace_path(value, path, replacement) is Ok,
    ensures
        lookup_path(replace_path(value, path, replacement).unwrap(), path) == Ok::<ValueModel, PatchError>(replacement),
    decreases path.len(),
{
    if path.len() > 0 {
        let child = child_at(value, path[0]).unwrap();
        let updated = replace_path(child, path.drop_first(), replacement).unwrap();
        lemma_lookup_after_replace(child, path.drop_first(), replacement);
        lemma_child_of_rebuilt(value, path[0], updated);
    }
}


proof fn lemma_first_field_at_slot(fields: Seq<(u16, ValueModel)>, id: u16, inserted: ValueModel)
    requires
        first_field(fields, id) is None,
    ensures
        0 <= field_slot(fields, id) <= fields.len(),
        first_field(fields.insert(field_slot(fields, id), (id, inserted)), id) == Some(field_slot(fields, id)),
{
    let slot = field_slot(fields, id);
    let next = fields.insert(slot, (id, inserted));
    assert(0 <= slot <= fields.len());
    assert(next[slot].0 == id);
    lemma_first_field_exists(next, id);
    let k = choose|i: int| 0 <= i < next.len() && next[i].0 == id && forall|j: int| 0 <= j < i ==> next[j].0 != id;
    if k < slot {
        assert(next[k] == fields[k]);
        assert(fields[k].0 != id);
    } else if k > slot {
        assert(next[slot].0 != id);
    }
}

#[verifier::rlimit(30)]
proof fn lemma_first_entry_at_slot(entries: Seq<(ValueModel, ValueModel)>, key: Seq<u8>, semantic: ValueModel, inserted: ValueModel)
    requires
        first_entry(entries, key) is None,
        encoding(semantic) == key,
    ensures
        0 <= entry_slot(entries, key) <= entries.len(),
        first_entry(entries.insert(entry_slot(entries, key), (semantic, inserted)), key) == Some(entry_slot(entries, key)),
{
    let slot = entry_slot(entries, key);
    let next = entries.insert(slot, (semantic, inserted));
    assert(0 <= slot <= entries.len());
    assert(encoding(next[slot].0) == key);
    lemma_first_entry_exists(next, key);
    let k = choose|i: int|
        0 <= i < next.len() && encoding(next[i].0) == key && forall|j: int| 0 <= j < i ==> encoding(next[j].0) != key;
    if k < slot {
        assert(next[k] == entries[k]);
        assert(encoding(entries[k].0) != key);
    } else if k > slot {
        assert(encoding(next[slot].0) != key);
    }
}

/// Inserting directly below a value puts the inserted value under the segment.
proof fn lemma_child_of_inserted(value: ValueModel, segment: SegmentModel, map_key: Option<ValueModel>, inserted: ValueModel)
    requires
        insert_here(value, segment, map_key, inserted) is Ok,
    ensures
        child_at(insert_here(value, segment, map_key, inserted).unwrap(), segment) == Ok::<ValueModel, PatchError>(inserted),
{
    match (segment, value) {
        (SegmentModel::Field(id), ValueModel::Record(fields)) => {
            lemma_first_field_at_slot(fields, id, inserted);
            let next = fields.insert(field_slot(fields, id), (id, inserted));
            assert(next[field_slot(fields, id)].1 == inserted);
        },
        (SegmentModel::MapKey(key), ValueModel::Mapping(entries)) => {
            let semantic = map_key.unwrap();
            lemma_first_entry_at_slot(entries, key, semantic, inserted);
            let next = entries.insert(entry_slot(entries, key), (semantic, inserted));
            assert(next[entry_slot(entries, key)].1 == inserted);
        },
        _ => {},
    }
}

/// Reading a path after inserting at it gives back the inserted value.
pub proof fn lemma_lookup_after_insert(value: ValueModel, path: Seq<SegmentModel>, map_key: Option<ValueModel>, inserted: ValueModel)
    requires
        insert_path(value, path, map_key, inserted) is Ok,
    ensures
        lookup_path(insert_path(value, path, map_key, inserted).unwrap(), path) == Ok::<ValueModel, PatchError>(inserted),
    decreases path.len(),
{
    let rest = path.drop_first();
    if path.len() == 1 {
        lemma_child_of_inserted(value, path[0], map_key, inserted);
        let result = insert_path(value, path, map_key, inserted).unwrap();
        assert(rest.len() == 0);
        assert(lookup_path(inserted, rest) == Ok::<ValueModel, PatchError>(inserted));
        assert(lookup_path(result, path) == lookup_path(inserted, rest));
    } else if path.len() > 1 {
        let child = child_at(value, path[0]).unwrap();
        let updated = insert_path(child, rest, map_key, inserted).unwrap();
        lemma_lookup_after_insert(child, rest, map_key, inserted);
        lemma_child_of_rebuilt(value, path[0], updated);
        let result = insert_path(value, path, map_key, inserted).unwrap();
        assert(result == with_child(value, path[0], updated).unwrap());
        assert(lookup_path(result, path) == lookup_path(updated, rest));
    }
}


/// No byte string precedes itself.
pub proof fn lemma_bytes_lt_irreflexive(a: Seq<u8>)
    ensures
        !bytes_lt(a, a),
{
}

/// Lexicographic order on byte strings is transitive.
pub proof fn lemma_bytes_lt_transitive(a: Seq<u8>, b: Seq<u8>, c: Seq<u8>)
    requires
        bytes_lt(a, b),
        bytes_lt(b, c),
    ensures
        bytes_lt(a, c),
{
    let k1 = choose|k: int|
        0 <= k <= a.len() && k <= b.len() && #[trigger] a.take(k) == b.take(k) && ((k == a.len() && k < b.len())
            || (k < a.len() && k < b.len() && a[k] < b[k]));
    let k2 = choose|k: int|
        0 <= k <= b.len() && k <= c.len() && #[trigger] b.take(k) == c.take(k) && ((k == b.len() && k < c.len())
            || (k < b.len() && k < c.len() && b[k] < c[k]));
    let k = if k1 <= k2 { k1 } else { k2 };
    assert forall|i: int| 0 <= i < k implies a[i] == c[i] by {
        assert(a.take(k1)[i] == b.take(k1)[i]);
        assert(b.take(k2)[i] == c.take(k2)[i]);
    }
    assert(a.take(k) =~= c.take(k));
    if k1 < k2 {
        assert(b.take(k2)[k1] == c.take(k2)[k1]);
    } else if k2 < k1 {
        assert(a.take(k1)[k2] == b.take(k1)[k2]);
    }
}

/// Adjacently ordered entries are ordered pairwise.
proof fn lemma_entries_ordered_pairwise(entries: Seq<(ValueModel, ValueModel)>, i: int, j: int)
    requires
        entries_ordered(entries),
        0 <= i < j < entries.len(),
    ensures
        bytes_lt(encoding(entries[i].0), encoding(entries[j].0)),
    decreases j - i,
{
    if j > i + 1 {
        lemma_entries_ordered_pairwise(entries, i, j - 1);
        assert(bytes_lt(encoding(entries[j - 1].0), encoding(entries[j].0)));
        lemma_bytes_lt_transitive(encoding(entries[i].0), encoding(entries[j - 1].0), encoding(entries[j].0));
    }
}

/// The record or map that holds items is in canonical order.
pub open spec fn node_ordered(value: ValueModel) -> bool {
    match value {
        ValueModel::Record(fields) => fields_ordered(fields),
        ValueModel::Mapping(entries) => entries_ordered(entries),
        _ => true,
    }
}

proof fn lemma_child_of_deleted(value: ValueModel, segment: SegmentModel)
    requires
        delete_here(value, segment) is Ok,
        node_ordered(value),
    ensures
        child_at(delete_here(value, segment).unwrap(), segment) == Err::<ValueModel, PatchError>(PatchError::PathNotFound),
{
    match (segment, value) {
        (SegmentModel::Field(id), ValueModel::Record(fields)) => {
            lemma_first_field_exists(fields, id);
            let i = first_field(fields, id).unwrap();
            let next = fields.remove(i);
            assert forall|j: int| 0 <= j < next.len() implies next[j].0 != id by {
                if j < i {
                    assert(next[j] == fields[j]);
                } else {
                    assert(next[j] == fields[j + 1]);
                    assert(fields[i].0 < fields[j + 1].0);
                }
            }
        },
        (SegmentModel::MapKey(key), ValueModel::Mapping(entries)) => {
            lemma_first_entry_exists(entries, key);
            let i = first_entry(entries, key).unwrap();
            let next = entries.remove(i);
            assert forall|j: int| 0 <= j < next.len() implies encoding(next[j].0) != key by {
                if j < i {
                    assert(next[j] == entries[j]);
                } else {
                    assert(next[j] == entries[j + 1]);
                    lemma_entries_ordered_pairwise(entries, i, j + 1);
                    lemma_bytes_lt_irreflexive(key);
                }
            }
        },
        _ => {},
    }
}

/// After deleting the item at a path, the path no longer resolves, provided
/// the record or map that held the item was in canonical order.
pub proof fn lemma_lookup_after_delete(value: ValueModel, path: Seq<SegmentModel>)
    requires
        delete_path(value, path) is Ok,
        node_ordered(lookup_path(value, path.drop_last()).unwrap()),
    ensures
        lookup_path(delete_path(value, path).unwrap(), path) == Err::<ValueModel, PatchError>(PatchError::PathNotFound),
    decreases path.len(),
{
    let rest = path.drop_first();
    if path.len() == 1 {
        assert(path.drop_last().len() == 0);
        lemma_child_of_deleted(value, path[0]);
    } else if path.len() > 1 {
        let child = child_at(value, path[0]).unwrap();
        assert(path.drop_last().drop_first() =~= rest.drop_last());
        assert(path.drop_last()[0] == path[0]);
        assert(lookup_path(value, path.drop_last()) == lookup_path(child, rest.drop_last()));
        let updated = delete_path(child, rest).unwrap();
        lemma_lookup_after_delete(child, rest);
        lemma_child_of_rebuilt(value, path[0], updated);
        let result = delete_path(value, path).unwrap();
        assert(result == with_child(value, path[0], updated).unwrap());
        assert(lookup_path(result, path) == lookup_path(updated, rest));
    }
}


/// One preconditioned state operation.
#[derive(Debug, PartialEq, Eq)]
pub enum PatchOp {
    /// Inserts an absent record field or map entry.
    Insert {
        /// Absent destination path.
        path: ValuePath,
        /// Semantic map key when the last path segment is `MapKey`.
        map_key: Option<Value>,
        /// Inserted value.
        value: Value,
    },
    /// Replaces an existing value with an exact old-value hash precondition.
    Update {
        /// Existing destination path.
        path: ValuePath,
        /// Expected old value commitment.
        expected_old_hash: Hash32,
        /// Replacement value.
        value: Value,
    },
    /// Deletes an existing record field or map entry.
    Delete {
        /// Existing destination path.
        path: ValuePath,
        /// Expected old value commitment.
        expected_old_hash: Hash32,
    },
}

/// The content of a patch operation.
pub enum OpModel {
    /// Inserts an absent record field or map entry.
    Insert { path: Seq<SegmentModel>, map_key: Option<ValueModel>, value: ValueModel },
    /// Replaces an existing value.
    Update { path: Seq<SegmentModel>, expected_old_hash: Seq<u8>, value: ValueModel },
    /// Deletes an existing record field or map entry.
    Delete { path: Seq<SegmentModel>, expected_old_hash: Seq<u8> },
}

impl OpModel {
    /// The target path.
    pub open spec fn path(self) -> Seq<SegmentModel> {
        match self {
            OpModel::Insert { path, .. } => path,
            OpModel::Update { path, .. } => path,
            OpModel::Delete { path, .. } => path,
        }
    }
}

impl View for PatchOp {
    type V = OpModel;

    open spec fn view(&self) -> OpModel {
        match self {
            PatchOp::Insert { path, map_key, value } => OpModel::Insert {
                path: path@,
                map_key: match map_key {
                    Some(key) => Some(key@),
                    None => None,
                },
                value: value@,
            },
            PatchOp::Update { path, expected_old_hash, value } => OpModel::Update {
                path: path@,
                expected_old_hash: expected_old_hash.spec_bytes(),
                value: value@,
            },
            PatchOp::Delete { path, expected_old_hash } => OpModel::Delete {
                path: path@,
                expected_old_hash: expected_old_hash.spec_bytes(),
            },
        }
    }
}

impl PatchOp {
    /// Returns the target path.
    pub fn path(&self) -> (path: &ValuePath)
        ensures
            path@ == self@.path(),
    {
        match self {
            PatchOp::Insert { path, .. } => path,
            PatchOp::Update { path, .. } => path,
            PatchOp::Delete { path, .. } => path,
        }
    }

    /// A copy of the operation.
    pub fn duplicate(&self) -> (copy: PatchOp)
        ensures
            copy@ == self@,
    {
        match self {
            PatchOp::Insert { path, map_key, value } => PatchOp::Insert {
                path: path.duplicate(),
                map_key: match map_key {
                    Some(key) => Some(key.duplicate()),
                    None => None,
                },
                value: value.duplicate(),
            },
            PatchOp::Update { path, expected_old_hash, value } => PatchOp::Update {
                path: path.duplicate(),
                expected_old_hash: *expected_old_hash,
                value: value.duplicate(),
            },
            PatchOp::Delete { path, expected_old_hash } => PatchOp::Delete {
                path: path.duplicate(),
                expected_old_hash: *expected_old_hash,
            },
        }
    }
}

impl Clone for PatchOp {
    fn clone(&self) -> (copy: Self)
        ensures
            copy@ == self@,
    {
        self.duplicate()
    }
}

/// The models of operations.
pub open spec fn op_models(ops: Seq<PatchOp>) -> Seq<OpModel> {
    Seq::new(ops.len(), |i: int| ops[i]@)
}

/// Why an insert has an unusable shape, if it has one.
pub open spec fn insert_shape_error(op: OpModel) -> Option<PatchError> {
    match op {
        OpModel::Insert { path, map_key, .. } => if path.len() == 0 {
            Some(PatchError::InsertAtRoot)
        } else {
            match path.last() {
                SegmentModel::Field(_) => if map_key is Some {
                    Some(PatchError::UnexpectedMapKey)
                } else {
                    None
                },
                SegmentModel::MapKey(key) => match map_key {
                    None => Some(PatchError::MissingMapKey),
                    Some(semantic) => if encoding(semantic) != key {
                        Some(PatchError::MapKeyMismatch)
                    } else {
                        None
                    },
                },
                _ => Some(PatchError::UnsupportedInsertTarget),
            }
        },
        _ => None,
    }
}

fn validate_insert_shape(operation: &PatchOp) -> (result: Result<(), PatchError>)
    ensures
        match insert_shape_error(operation@) {
            Some(error) => result == Err::<(), PatchError>(error),
            None => result is Ok,
        },
{
    match operation {
        PatchOp::Insert { path, map_key, .. } => {
            let segments = path.segments();
            if segments.len() == 0 {
                return Err(PatchError::InsertAtRoot);
            }
            let last = &segments[segments.len() - 1];
            assert(path@.last() == last@);
            match last {
                PathSegment::Field(_) => {
                    if map_key.is_some() {
                        return Err(PatchError::UnexpectedMapKey);
                    }
                    Ok(())
                },
                PathSegment::MapKey(encoded_key) => match map_key {
                    None => Err(PatchError::MissingMapKey),
                    Some(key) => {
                        let actual = key.canonical_bytes();
                        if !same_bytes(actual.as_slice(), encoded_key.as_slice()) {
                            return Err(PatchError::MapKeyMismatch);
                        }
                        Ok(())
                    },
                },
                _ => Err(PatchError::UnsupportedInsertTarget),
            }
        },
        _ => Ok(()),
    }
}

/// The first shape error among operations, in the supplied order.
pub open spec fn first_shape_error(ops: Seq<OpModel>) -> Option<PatchError>
    decreases ops.len(),
{
    if ops.len() == 0 {
        None
    } else {
        match first_shape_error(ops.drop_last()) {
            Some(error) => Some(error),
            None => insert_shape_error(ops.last()),
        }
    }
}

/// Some two operations target the same path or an ancestor and its descendant.
pub open spec fn paths_overlap(ops: Seq<OpModel>) -> bool {
    exists|i: int, j: int| 0 <= i < ops.len() && 0 <= j < ops.len() && i != j && is_prefix(ops[i].path(), ops[j].path())
}

/// Every path fits the wire.
pub open spec fn paths_encodable(ops: Seq<OpModel>) -> bool {
    forall|i: int| 0 <= i < ops.len() ==> path_encodable(#[trigger] ops[i].path())
}

/// Operations are in canonical path-byte order.
pub open spec fn ops_in_path_order(ops: Seq<OpModel>) -> bool {
    forall|i: int| 0 <= i < ops.len() - 1 ==> !bytes_lt(path_encoding(#[trigger] ops[i + 1].path()), path_encoding(ops[i].path()))
}

/// Why a list of operations is refused as a patch, if it is.
pub open spec fn patch_error(ops: Seq<OpModel>) -> Option<PatchError> {
    match first_shape_error(ops) {
        Some(error) => Some(error),
        None => if !paths_encodable(ops) {
            Some(PatchError::Encode(EncodeError::LengthOverflow))
        } else if paths_overlap(ops) {
            Some(PatchError::OverlappingPaths)
        } else {
            None
        },
    }
}


/// No operation has an unusable insert shape.
pub open spec fn ops_well_shaped(ops: Seq<OpModel>) -> bool {
    forall|i: int| 0 <= i < ops.len() ==> #[trigger] insert_shape_error(ops[i]) is None
}

proof fn lemma_first_shape_error(ops: Seq<OpModel>)
    ensures
        first_shape_error(ops) is None <==> ops_well_shaped(ops),
    decreases ops.len(),
{
    if ops.len() > 0 {
        lemma_first_shape_error(ops.drop_last());
        if first_shape_error(ops) is None {
            assert forall|i: int| 0 <= i < ops.len() implies #[trigger] insert_shape_error(ops[i]) is None by {
                if i < ops.len() - 1 {
                    assert(ops.drop_last()[i] == ops[i]);
                }
            }
        }
        if ops_well_shaped(ops) {
            assert forall|i: int| 0 <= i < ops.drop_last().len() implies #[trigger] insert_shape_error(
                ops.drop_last()[i],
            ) is None by {
                assert(ops.drop_last()[i] == ops[i]);
                assert(insert_shape_error(ops[i]) is None);
            }
            assert(insert_shape_error(ops[ops.len() - 1]) is None);
        }
    }
}

/// A list of distinct positions below `n`, one for each position below `n`.
pub open spec fn is_reordering(perm: Seq<int>, n: nat) -> bool {
    &&& perm.len() == n
    &&& forall|k: int| 0 <= k < n ==> 0 <= #[trigger] perm[k] < n
    &&& forall|a: int, b: int| 0 <= a < b < n ==> perm[a] != perm[b]
}

/// `out` lists the elements of `inp` in some order, each once.
pub open spec fn reorders(out: Seq<OpModel>, inp: Seq<OpModel>) -> bool {
    exists|perm: Seq<int>|
        is_reordering(perm, inp.len()) && out.len() == inp.len() && forall|k: int|
            0 <= k < out.len() ==> #[trigger] out[k] == inp[perm[k]]
}

/// No two operations target the same path or an ancestor and its descendant.
pub open spec fn paths_disjoint(ops: Seq<OpModel>) -> bool {
    forall|i: int, j: int| 0 <= i < ops.len() && 0 <= j < ops.len() && i != j ==> !is_prefix(#[trigger] ops[i].path(), #[trigger] ops[j].path())
}

proof fn lemma_reorder_keeps(out: Seq<OpModel>, inp: Seq<OpModel>)
    requires
        reorders(out, inp),
        ops_well_shaped(inp),
        paths_encodable(inp),
        !paths_overlap(inp),
    ensures
        ops_well_shaped(out),
        paths_encodable(out),
        paths_disjoint(out),
{
    let perm = choose|perm: Seq<int>|
        is_reordering(perm, inp.len()) && out.len() == inp.len() && forall|k: int|
            0 <= k < out.len() ==> #[trigger] out[k] == inp[perm[k]];
    assert forall|i: int| 0 <= i < out.len() implies #[trigger] insert_shape_error(out[i]) is None by {
        assert(out[i] == inp[perm[i]]);
        assert(insert_shape_error(inp[perm[i]]) is None);
    }
    assert forall|i: int| 0 <= i < out.len() implies path_encodable(#[trigger] out[i].path()) by {
        assert(out[i] == inp[perm[i]]);
        assert(path_encodable(inp[perm[i]].path()));
    }
    assert forall|i: int, j: int| 0 <= i < out.len() && 0 <= j < out.len() && i != j implies !is_prefix(
        #[trigger] out[i].path(),
        #[trigger] out[j].path(),
    ) by {
        assert(out[i] == inp[perm[i]]);
        assert(out[j] == inp[perm[j]]);
        if i < j {
            assert(perm[i] != perm[j]);
        } else {
            assert(perm[j] != perm[i]);
        }
        if is_prefix(inp[perm[i]].path(), inp[perm[j]].path()) {
            assert(paths_overlap(inp));
        }
    }
}

/// Orders operations by their path keys, smallest first.
/// The operations' path encodings strictly increase.
pub open spec fn strictly_path_ordered(ops: Seq<OpModel>) -> bool {
    forall|i: int, j: int|
        0 <= i < j < ops.len() ==> bytes_lt(path_encoding(#[trigger] ops[i].path()), path_encoding(#[trigger] ops[j].path()))
}

fn sort_by_path(operations: &Vec<PatchOp>, keys: &Vec<Vec<u8>>) -> (sorted: Vec<PatchOp>)
    requires
        keys@.len() == operations@.len(),
        forall|t: int| 0 <= t < keys@.len() ==> #[trigger] keys@[t]@ == path_encoding(operations@[t]@.path()),
    ensures
        reorders(op_models(sorted@), op_models(operations@)),
        ops_in_path_order(op_models(sorted@)),
        strictly_path_ordered(op_models(operations@)) ==> op_models(sorted@) == op_models(operations@),
{
    let ghost ordered = strictly_path_ordered(op_models(operations@));
    let ghost n = operations@.len();
    let ghost inp = op_models(operations@);
    let mut remaining: Vec<usize> = Vec::new();
    let mut index: usize = 0;
    while index < operations.len()
        invariant
            index <= operations@.len(),
            remaining@.len() == index,
            forall|k: int| 0 <= k < index ==> remaining@[k] == k,
        decreases operations@.len() - index,
    {
        remaining.push(index);
        index = index + 1;
    }
    let mut sorted: Vec<PatchOp> = Vec::new();
    let ghost mut perm: Seq<int> = Seq::empty();
    while remaining.len() > 0
        invariant
            n == operations@.len(),
            inp == op_models(operations@),
            keys@.len() == n,
            forall|t: int| 0 <= t < keys@.len() ==> #[trigger] keys@[t]@ == path_encoding(operations@[t]@.path()),
            perm.len() + remaining@.len() == n,
            sorted@.len() == perm.len(),
            forall|k: int| 0 <= k < perm.len() ==> 0 <= #[trigger] perm[k] < n,
            forall|a: int, b: int| 0 <= a < b < perm.len() ==> perm[a] != perm[b],
            forall|k: int| 0 <= k < remaining@.len() ==> #[trigger] remaining@[k] < n,
            forall|a: int, b: int| 0 <= a < b < remaining@.len() ==> remaining@[a] != remaining@[b],
            forall|a: int, b: int| 0 <= a < perm.len() && 0 <= b < remaining@.len() ==> perm[a] != remaining@[b] as int,
            forall|k: int| 0 <= k < sorted@.len() ==> #[trigger] sorted@[k]@ == inp[perm[k]],
            forall|k: int| 0 <= k < sorted@.len() - 1 ==> !bytes_lt(
                path_encoding(#[trigger] sorted@[k + 1]@.path()),
                path_encoding(sorted@[k]@.path()),
            ),
            sorted@.len() > 0 ==> forall|r: int| 0 <= r < remaining@.len() ==> !bytes_lt(
                path_encoding(operations@[#[trigger] remaining@[r] as int]@.path()),
                path_encoding(sorted@[sorted@.len() - 1]@.path()),
            ),
            ordered == strictly_path_ordered(inp),
            ordered ==> forall|k: int| 0 <= k < perm.len() ==> #[trigger] perm[k] == k,
            ordered ==> forall|k: int| 0 <= k < remaining@.len() ==> #[trigger] remaining@[k] == perm.len() + k,
        decreases remaining@.len(),
    {
        let mut best: usize = 0;
        let mut scan: usize = 1;
        while scan < remaining.len()
            invariant
                0 <= best < remaining@.len(),
                1 <= scan <= remaining@.len(),
                best < scan,
                keys@.len() == n,
                forall|k: int| 0 <= k < remaining@.len() ==> #[trigger] remaining@[k] < n,
                forall|j: int| 0 <= j < scan ==> !bytes_lt(
                    keys@[#[trigger] remaining@[j] as int]@,
                    keys@[remaining@[best as int] as int]@,
                ),
                n == operations@.len(),
                inp == op_models(operations@),
                forall|t: int| 0 <= t < keys@.len() ==> #[trigger] keys@[t]@ == path_encoding(operations@[t]@.path()),
                ordered == strictly_path_ordered(inp),
                ordered ==> best == 0,
                ordered ==> forall|k: int| 0 <= k < remaining@.len() ==> #[trigger] remaining@[k] == perm.len() + k,
            decreases remaining@.len() - scan,
        {
            proof {
                if ordered {
                    let low = remaining@[0] as int;
                    let high = remaining@[scan as int] as int;
                    assert(inp[low] == operations@[low]@);
                    assert(inp[high] == operations@[high]@);
                    assert(bytes_lt(keys@[low]@, keys@[high]@));
                    if bytes_lt(keys@[high]@, keys@[low]@) {
                        lemma_bytes_lt_transitive(keys@[low]@, keys@[high]@, keys@[low]@);
                        lemma_bytes_lt_irreflexive(keys@[low]@);
                    }
                }
            }
            if bytes_less(keys[remaining[scan]].as_slice(), keys[remaining[best]].as_slice()) {
                proof {
                    assert forall|j: int| 0 <= j < scan + 1 implies !bytes_lt(
                        keys@[#[trigger] remaining@[j] as int]@,
                        keys@[remaining@[scan as int] as int]@,
                    ) by {
                        if j < scan as int {
                            assert(!bytes_lt(keys@[remaining@[j] as int]@, keys@[remaining@[best as int] as int]@));
                            if bytes_lt(keys@[remaining@[j] as int]@, keys@[remaining@[scan as int] as int]@) {
                                lemma_bytes_lt_transitive(
                                    keys@[remaining@[j] as int]@,
                                    keys@[remaining@[scan as int] as int]@,
                                    keys@[remaining@[best as int] as int]@,
                                );
                            }
                        } else {
                            lemma_bytes_lt_irreflexive(keys@[remaining@[scan as int] as int]@);
                        }
                    }
                }
                best = scan;
            }
            scan = scan + 1;
        }
        let chosen = remaining[best];
        let ghost old_remaining = remaining@;
        let ghost old_sorted = sorted@;
        sorted.push(operations[chosen].duplicate());
        remaining.remove(best);
        proof {
            assert(keys@[chosen as int]@ == path_encoding(operations@[chosen as int]@.path()));
            assert forall|r: int| 0 <= r < remaining@.len() implies !bytes_lt(
                path_encoding(operations@[#[trigger] remaining@[r] as int]@.path()),
                path_encoding(sorted@[sorted@.len() - 1]@.path()),
            ) by {
                let position = if r < best as int { r } else { r + 1 };
                assert(remaining@[r] == old_remaining[position]);
                assert(keys@[old_remaining[position] as int]@ == path_encoding(operations@[old_remaining[position] as int]@.path()));
            }
            if old_sorted.len() > 0 {
                assert(sorted@[sorted@.len() - 2] == old_sorted[old_sorted.len() - 1]);
                assert(old_remaining[best as int] == chosen);
            }
            assert forall|k: int| 0 <= k < sorted@.len() - 1 implies !bytes_lt(
                path_encoding(#[trigger] sorted@[k + 1]@.path()),
                path_encoding(sorted@[k]@.path()),
            ) by {
                if k < sorted@.len() - 2 {
                    assert(sorted@[k] == old_sorted[k]);
                    assert(sorted@[k + 1] == old_sorted[k + 1]);
                }
            }
            let new_perm = perm.push(chosen as int);
            assert forall|a: int, b: int| 0 <= a < b < new_perm.len() implies new_perm[a] != new_perm[b] by {
                if b == new_perm.len() - 1 {
                    assert(old_remaining[best as int] == chosen);
                }
            }
            assert forall|a: int, b: int| 0 <= a < remaining@.len() && 0 <= b < remaining@.len() && a < b implies remaining@[a] != remaining@[b] by {
                let pa = if a < best as int { a } else { a + 1 };
                let pb = if b < best as int { b } else { b + 1 };
                assert(remaining@[a] == old_remaining[pa]);
                assert(remaining@[b] == old_remaining[pb]);
            }
            assert forall|a: int, b: int| 0 <= a < new_perm.len() && 0 <= b < remaining@.len() implies new_perm[a] != remaining@[b] as int by {
                let pb = if b < best as int { b } else { b + 1 };
                assert(remaining@[b] == old_remaining[pb]);
                if a == new_perm.len() - 1 {
                    assert(pb != best as int);
                }
            }
            assert forall|k: int| 0 <= k < remaining@.len() implies #[trigger] remaining@[k] < n by {
                let pk = if k < best as int { k } else { k + 1 };
                assert(remaining@[k] == old_remaining[pk]);
            }
            assert forall|k: int| 0 <= k < sorted@.len() implies #[trigger] sorted@[k]@ == inp[new_perm[k]] by {
                if k < old_sorted.len() {
                    assert(sorted@[k] == old_sorted[k]);
                }
            }
            perm = new_perm;
            if ordered {
                assert forall|k: int| 0 <= k < remaining@.len() implies #[trigger] remaining@[k] == perm.len() + k by {
                    assert(remaining@[k] == old_remaining[k + 1]);
                }
            }
        }
    }
    proof {
        let out = op_models(sorted@);
        assert(is_reordering(perm, inp.len()));
        assert forall|k: int| 0 <= k < out.len() implies #[trigger] out[k] == inp[perm[k]] by {
            assert(sorted@[k]@ == inp[perm[k]]);
        }
        if ordered {
            assert(out =~= inp);
        }
        assert forall|k: int| 0 <= k < out.len() - 1 implies !bytes_lt(
            path_encoding(#[trigger] out[k + 1].path()),
            path_encoding(out[k].path()),
        ) by {
            assert(out[k + 1] == sorted@[k + 1]@);
            assert(out[k] == sorted@[k]@);
        }
    }
    sorted
}


/// A canonical, pre-root-bound, non-overlapping patch.
#[derive(Debug, PartialEq, Eq)]
pub struct CanonicalPatch {
    state_type: u32,
    expected_pre_root: Hash32,
    operations: Vec<PatchOp>,
}

impl CanonicalPatch {
    /// Operations are well shaped, encodable, pairwise non-overlapping and in
    /// canonical path order.
    #[verifier::type_invariant]
    spec fn canonical(self) -> bool {
        &&& ops_well_shaped(op_models(self.operations@))
        &&& paths_encodable(op_models(self.operations@))
        &&& paths_disjoint(op_models(self.operations@))
        &&& ops_in_path_order(op_models(self.operations@))
    }

    /// The state type identifier.
    pub closed spec fn spec_state_type(self) -> u32 {
        self.state_type
    }

    /// The required pre-root.
    pub closed spec fn spec_expected_pre_root(self) -> Hash32 {
        self.expected_pre_root
    }

    /// The operations in canonical order.
    pub closed spec fn spec_operations(self) -> Seq<OpModel> {
        op_models(self.operations@)
    }

    /// Normalizes operations into canonical path order and rejects overlap.
    pub fn try_new(state_type: u32, expected_pre_root: Hash32, operations: Vec<PatchOp>) -> (patch: Result<Self, PatchError>)
        ensures
            match patch_error(op_models(operations@)) {
                Some(error) => patch == Err::<Self, PatchError>(error),
                None => patch matches Ok(p) && p.spec_state_type() == state_type && p.spec_expected_pre_root()
                    == expected_pre_root && reorders(p.spec_operations(), op_models(operations@))
                    && ops_in_path_order(p.spec_operations()),
            },
            patch_error(op_models(operations@)) is None && strictly_path_ordered(op_models(operations@)) ==> (
            patch matches Ok(p) && p.spec_operations() == op_models(operations@)),
    {
        let ghost inp = op_models(operations@);
        let mut index: usize = 0;
        assert(inp.take(0) =~= Seq::<OpModel>::empty());
        while index < operations.len()
            invariant
                index <= operations@.len(),
                inp == op_models(operations@),
                first_shape_error(inp.take(index as int)) is None,
            decreases operations@.len() - index,
        {
            let checked = validate_insert_shape(&operations[index]);
            proof {
                let prefix = inp.take(index + 1);
                assert(prefix.drop_last() =~= inp.take(index as int));
                assert(prefix.last() == operations@[index as int]@);
            }
            match checked {
                Ok(()) => {},
                Err(error) => {
                    proof {
                        lemma_first_shape_prefix(inp, index + 1);
                    }
                    return Err(error);
                },
            }
            index = index + 1;
        }
        assert(inp.take(inp.len() as int) =~= inp);
        proof {
            lemma_first_shape_error(inp);
        }
        let mut keys: Vec<Vec<u8>> = Vec::new();
        let mut index: usize = 0;
        while index < operations.len()
            invariant
                index <= operations@.len(),
                inp == op_models(operations@),
                keys@.len() == index,
                first_shape_error(inp) is None,
                forall|t: int| 0 <= t < index ==> #[trigger] keys@[t]@ == path_encoding(operations@[t]@.path()),
                forall|t: int| 0 <= t < index ==> path_encodable(#[trigger] inp[t].path()),
            decreases operations@.len() - index,
        {
            match operations[index].path().canonical_bytes() {
                Ok(bytes) => keys.push(bytes),
                Err(error) => {
                    assert(!path_encodable(inp[index as int].path()));
                    return Err(PatchError::Encode(error));
                },
            }
            index = index + 1;
        }
        assert(paths_encodable(inp));
        let mut i: usize = 0;
        while i < operations.len()
            invariant
                i <= operations@.len(),
                inp == op_models(operations@),
                first_shape_error(inp) is None,
                paths_encodable(inp),
                forall|a: int, b: int| 0 <= a < i && 0 <= b < inp.len() && a != b ==> !is_prefix(#[trigger] inp[a].path(), #[trigger] inp[b].path()),
            decreases operations@.len() - i,
        {
            let mut j: usize = 0;
            while j < operations.len()
                invariant
                    i < operations@.len(),
                    j <= operations@.len(),
                    inp == op_models(operations@),
                    first_shape_error(inp) is None,
                    paths_encodable(inp),
                    forall|a: int, b: int| 0 <= a < i && 0 <= b < inp.len() && a != b ==> !is_prefix(#[trigger] inp[a].path(), #[trigger] inp[b].path()),
                    forall|b: int| 0 <= b < j && b != i ==> !is_prefix(inp[i as int].path(), #[trigger] inp[b].path()),
                decreases operations@.len() - j,
            {
                if i != j && operations[i].path().is_prefix_of(operations[j].path()) {
                    assert(is_prefix(inp[i as int].path(), inp[j as int].path()));
                    return Err(PatchError::OverlappingPaths);
                }
                j = j + 1;
            }
            i = i + 1;
        }
        assert(!paths_overlap(inp));
        let sorted = sort_by_path(&operations, &keys);
        proof {
            lemma_reorder_keeps(op_models(sorted@), inp);
        }
        Ok(CanonicalPatch { state_type, expected_pre_root, operations: sorted })
    }

    /// Returns the state type identifier.
    pub fn state_type(&self) -> (state_type: u32)
        ensures
            state_type == self.spec_state_type(),
    {
        self.state_type
    }

    /// Returns the required pre-root.
    pub fn expected_pre_root(&self) -> (root: Hash32)
        ensures
            root == self.spec_expected_pre_root(),
    {
        self.expected_pre_root
    }

    /// Returns canonical operations.
    pub fn operations(&self) -> (operations: &[PatchOp])
        ensures
            op_models(operations@) == self.spec_operations(),
            ops_well_shaped(self.spec_operations()),
            paths_encodable(self.spec_operations()),
            paths_disjoint(self.spec_operations()),
            ops_in_path_order(self.spec_operations()),
    {
        proof {
            use_type_invariant(self);
        }
        self.operations.as_slice()
    }
}

proof fn lemma_first_shape_prefix(ops: Seq<OpModel>, count: int)
    requires
        0 < count <= ops.len(),
        first_shape_error(ops.take(count - 1)) is None,
        insert_shape_error(ops[count - 1]) is Some,
    ensures
        first_shape_error(ops) == insert_shape_error(ops[count - 1]),
    decreases ops.len() - count,
{
    let prefix = ops.take(count);
    assert(prefix.drop_last() =~= ops.take(count - 1));
    if count < ops.len() {
        assert(ops.take(count + 1).drop_last() =~= ops.take(count));
        lemma_first_shape_take(ops, count + 1);
        lemma_first_shape_prefix_some(ops, count);
    } else {
        assert(ops.take(count) =~= ops);
    }
}

proof fn lemma_first_shape_take(ops: Seq<OpModel>, count: int)
    requires
        0 <= count <= ops.len(),
    ensures
        ops.take(count).len() == count,
{
}

proof fn lemma_first_shape_prefix_some(ops: Seq<OpModel>, count: int)
    requires
        0 < count <= ops.len(),
        first_shape_error(ops.take(count)) is Some,
    ensures
        first_shape_error(ops) == first_shape_error(ops.take(count)),
    decreases ops.len() - count,
{
    if count < ops.len() {
        let next = ops.take(count + 1);
        assert(next.drop_last() =~= ops.take(count));
        lemma_first_shape_prefix_some(ops, count + 1);
    } else {
        assert(ops.take(count) =~= ops);
    }
}


/// The label of the domain under which old values are committed.
pub open spec fn precondition_label() -> Seq<u8> {
    seq![122u8, 101u8, 110u8, 111u8, 45u8, 102u8, 99u8, 105u8, 115u8, 47u8, 118u8, 97u8, 108u8, 117u8, 101u8]
}

/// The bytes that a value commitment under a domain hashes.
pub fn value_commitment_bytes(domain: &Domain, value: &Value) -> (bytes: Vec<u8>)
    ensures
        bytes@ == commitment_preimage(domain.spec_name(), domain.spec_version(), encoding(value@)),
{
    let encoded = value.canonical_bytes();
    domain.frame(encoded.as_slice())
}

/// The bytes that the old-value commitment of update and delete preconditions hashes.
pub fn precondition_bytes(value: &Value) -> (bytes: Vec<u8>)
    ensures
        bytes@ == commitment_preimage(precondition_label(), 1, encoding(value@)),
{
    let label: Vec<u8> = vec![122u8, 101u8, 110u8, 111u8, 45u8, 102u8, 99u8, 105u8, 115u8, 47u8, 118u8, 97u8, 108u8, 117u8, 101u8];
    assert(label@ =~= precondition_label());
    let encoded = value.canonical_bytes();
    crate::commit::frame_commitment(label.as_slice(), 1, encoded.as_slice())
}

/// The commitment of a value under a state domain: the hash of the framed
/// canonical encoding.
pub open spec fn value_root<H: CommitmentHasher>(name: Seq<u8>, version: u16, value: ValueModel) -> Hash32 {
    H::spec_hash(commitment_preimage(name, version, encoding(value)))
}

/// Computes the canonical value commitment under an explicit state domain:
/// the hash of exactly the bytes that `value_commitment_bytes` returns.
pub fn hash_value<H: CommitmentHasher>(domain: &Domain, value: &Value) -> (hash: Result<Hash32, PatchError>)
    ensures
        hash == Ok::<Hash32, PatchError>(value_root::<H>(domain.spec_name(), domain.spec_version(), value@)),
{
    let preimage = value_commitment_bytes(domain, value);
    Ok(H::hash(preimage.as_slice()))
}

/// Computes the protocol-defined old-value commitment used by update and
/// deletion preconditions: the hash of exactly the bytes that
/// `precondition_bytes` returns.
pub fn hash_precondition_value<H: CommitmentHasher>(value: &Value) -> (hash: Result<Hash32, PatchError>)
    ensures
        hash == Ok::<Hash32, PatchError>(H::spec_hash(commitment_preimage(precondition_label(), 1, encoding(value@)))),
{
    let preimage = precondition_bytes(value);
    Ok(H::hash(preimage.as_slice()))
}

/// Resolves one immutable value path without applying a patch.
///
/// The empty path returns the complete supplied value. Map navigation uses the
/// exact encoded key bytes carried by the path.
pub fn value_at<'a>(value: &'a Value, path: &ValuePath) -> (found: Result<&'a Value, PatchError>)
    ensures
        outcome_ref(found) == lookup_path(value@, path@),
{
    let segments = path.segments();
    assert(segment_models(segments@).skip(0) =~= path@);
    lookup_from(value, segments, 0)
}

/// One operation applied to a state once its preconditions hold: an update
/// or delete first resolves its path.
#[verifier::opaque]
pub open spec fn apply_op(op: OpModel, state: ValueModel) -> Result<ValueModel, PatchError> {
    match op {
        OpModel::Insert { path, map_key, value } => insert_path(state, path, map_key, value),
        OpModel::Update { path, value, .. } => match lookup_path(state, path) {
            Err(error) => Err(error),
            Ok(_) => replace_path(state, path, value),
        },
        OpModel::Delete { path, .. } => match lookup_path(state, path) {
            Err(error) => Err(error),
            Ok(_) => delete_path(state, path),
        },
    }
}

/// Operations applied in order once their preconditions hold; the first
/// failure stops application.
pub open spec fn apply_ops(ops: Seq<OpModel>, state: ValueModel) -> Result<ValueModel, PatchError>
    decreases ops.len(),
{
    if ops.len() == 0 {
        Ok(state)
    } else {
        match apply_ops(ops.drop_last(), state) {
            Err(error) => Err(error),
            Ok(current) => apply_op(ops.last(), current),
        }
    }
}

/// The hash precondition an operation carries, if any.
pub open spec fn expected_hash(op: OpModel) -> Option<Seq<u8>> {
    match op {
        OpModel::Insert { .. } => None,
        OpModel::Update { expected_old_hash, .. } => Some(expected_old_hash),
        OpModel::Delete { expected_old_hash, .. } => Some(expected_old_hash),
    }
}

/// What an application failure says about the patch and the state.
pub open spec fn application_failure(ops: Seq<OpModel>, expected_pre_root: Hash32, state: ValueModel, error: PatchError) -> bool {
    match error {
        PatchError::PreRootMismatch { expected, actual } => expected == expected_pre_root && actual.spec_bytes()
            != expected.spec_bytes(),
        PatchError::OldValueMismatch { path, expected, actual } => exists|k: int|
            0 <= k < ops.len() && #[trigger] ops[k].path() == path@ && expected_hash(ops[k]) == Some(expected.spec_bytes())
                && actual.spec_bytes() != expected.spec_bytes() && apply_ops(ops.take(k), state) is Ok
                && lookup_path(apply_ops(ops.take(k), state).unwrap(), path@) is Ok,
        _ => exists|k: int|
            0 <= k < ops.len() && apply_ops(ops.take(k), state) is Ok && #[trigger] apply_op(
                ops[k],
                apply_ops(ops.take(k), state).unwrap(),
            ) == Err::<ValueModel, PatchError>(error),
    }
}

/// The commitment an old-value precondition compares against.
pub open spec fn old_value_hash<H: CommitmentHasher>(value: ValueModel) -> Hash32 {
    H::spec_hash(commitment_preimage(precondition_label(), 1, encoding(value)))
}

/// The operation's old-value precondition, if it carries one, holds on the
/// state: the value at its path commits to the expected bytes.
pub open spec fn precondition_holds<H: CommitmentHasher>(op: OpModel, state: ValueModel) -> bool {
    match (expected_hash(op), lookup_path(state, op.path())) {
        (Some(expected), Ok(old)) => old_value_hash::<H>(old).spec_bytes() == expected,
        _ => true,
    }
}

/// Every operation's old-value precondition holds on the state the earlier
/// operations produce.
pub open spec fn preconditions_hold<H: CommitmentHasher>(ops: Seq<OpModel>, state: ValueModel) -> bool {
    forall|k: int|
        0 <= k < ops.len() && #[trigger] apply_ops(ops.take(k), state) is Ok ==> precondition_holds::<H>(
            ops[k],
            apply_ops(ops.take(k), state).unwrap(),
        )
}

/// Once a prefix fails, the whole list fails.
proof fn lemma_apply_ops_prefix_err(ops: Seq<OpModel>, state: ValueModel, k: int)
    requires
        0 <= k < ops.len(),
        apply_ops(ops.take(k + 1), state) is Err,
    ensures
        apply_ops(ops, state) is Err,
    decreases ops.len(),
{
    if k + 1 == ops.len() {
        assert(ops.take(k + 1) =~= ops);
    } else {
        assert(ops.drop_last().take(k + 1) =~= ops.take(k + 1));
        lemma_apply_ops_prefix_err(ops.drop_last(), state, k);
    }
}

/// Successful pure patch application.
#[derive(Debug, PartialEq, Eq)]
pub struct AppliedPatch {
    state: Value,
    post_root: Hash32,
}

impl AppliedPatch {
    /// The successor state.
    pub closed spec fn spec_state(self) -> ValueModel {
        self.state@
    }

    /// The successor root.
    pub closed spec fn spec_post_root(self) -> Hash32 {
        self.post_root
    }

    /// Returns the successor state.
    pub fn state(&self) -> (state: &Value)
        ensures
            state@ == self.spec_state(),
    {
        &self.state
    }

    /// Returns the successor root.
    pub fn post_root(&self) -> (root: Hash32)
        ensures
            root == self.spec_post_root(),
    {
        self.post_root
    }

    /// Consumes the result.
    pub fn into_parts(self) -> (parts: (Value, Hash32))
        ensures
            parts.0@ == self.spec_state(),
            parts.1 == self.spec_post_root(),
    {
        (self.state, self.post_root)
    }
}

fn apply_insert(path: &ValuePath, map_key: &Option<Value>, value: &Value, current: &Value) -> (next: Result<Value, PatchError>)
    ensures
        outcome(next) == insert_path(
            current@,
            path@,
            match map_key {
                Some(key) => Some(key@),
                None => None,
            },
            value@,
        ),
{
    let segments = path.segments();
    assert(segment_models(segments@).skip(0) =~= path@);
    let key = match map_key {
        Some(key) => Some(key),
        None => None,
    };
    insert_from(current, segments, 0, key, value.duplicate())
}

fn apply_replace(path: &ValuePath, value: &Value, current: &Value) -> (next: Result<Value, PatchError>)
    ensures
        outcome(next) == replace_path(current@, path@, value@),
{
    let segments = path.segments();
    assert(segment_models(segments@).skip(0) =~= path@);
    replace_from(current, segments, 0, value.duplicate())
}

fn apply_delete(path: &ValuePath, current: &Value) -> (next: Result<Value, PatchError>)
    ensures
        outcome(next) == delete_path(current@, path@),
{
    let segments = path.segments();
    assert(segment_models(segments@).skip(0) =~= path@);
    delete_from(current, segments, 0)
}

/// Checks an old-value precondition against the value the path resolves to.
fn check_old_value<H: CommitmentHasher>(path: &ValuePath, expected_old_hash: Hash32, current: &Value) -> (checked: Result<(), PatchError>)
    ensures
        lookup_path(current@, path@) is Err ==> checked == Err::<(), PatchError>(lookup_path(current@, path@)->Err_0),
        lookup_path(current@, path@) is Ok ==> match checked {
            Ok(()) => true,
            Err(e) => e matches PatchError::OldValueMismatch { path: p, expected, actual } && p@ == path@ && expected
                == expected_old_hash && actual.spec_bytes() != expected.spec_bytes(),
        },
        lookup_path(current@, path@) is Ok ==> (checked is Ok <==> old_value_hash::<H>(
            lookup_path(current@, path@).unwrap(),
        ).spec_bytes() == expected_old_hash.spec_bytes()),
{
    let old = match value_at(current, path) {
        Ok(old) => old,
        Err(error) => return Err(error),
    };
    let actual = match hash_precondition_value::<H>(old) {
        Ok(actual) => actual,
        Err(error) => return Err(error),
    };
    if actual != expected_old_hash {
        return Err(PatchError::OldValueMismatch { path: path.duplicate(), expected: expected_old_hash, actual });
    }
    Ok(())
}

/// What an operation's failure on a state says.
pub open spec fn step_failure(op: OpModel, state: ValueModel, error: PatchError) -> bool {
    match error {
        PatchError::OldValueMismatch { path, expected, actual } => path@ == op.path() && expected_hash(op) == Some(
            expected.spec_bytes(),
        ) && actual.spec_bytes() != expected.spec_bytes() && lookup_path(state, path@) is Ok,
        PatchError::PreRootMismatch { .. } => false,
        _ => apply_op(op, state) == Err::<ValueModel, PatchError>(error),
    }
}

proof fn lemma_apply_insert(path: Seq<SegmentModel>, map_key: Option<ValueModel>, value: ValueModel, state: ValueModel)
    ensures
        apply_op(OpModel::Insert { path, map_key, value }, state) == insert_path(state, path, map_key, value),
{
    reveal(apply_op);
}

proof fn lemma_apply_update(path: Seq<SegmentModel>, expected_old_hash: Seq<u8>, value: ValueModel, state: ValueModel)
    ensures
        apply_op(OpModel::Update { path, expected_old_hash, value }, state) == match lookup_path(state, path) {
            Err(error) => Err(error),
            Ok(_) => replace_path(state, path, value),
        },
{
    reveal(apply_op);
}

proof fn lemma_apply_delete(path: Seq<SegmentModel>, expected_old_hash: Seq<u8>, state: ValueModel)
    ensures
        apply_op(OpModel::Delete { path, expected_old_hash }, state) == match lookup_path(state, path) {
            Err(error) => Err(error),
            Ok(_) => delete_path(state, path),
        },
{
    reveal(apply_op);
}

fn apply_insert_op(operation: &PatchOp, current: &Value) -> (next: Result<Value, PatchError>)
    requires
        operation is Insert,
    ensures
        next matches Ok(value) ==> apply_op(operation@, current@) == Ok::<ValueModel, PatchError>(value@),
        next matches Err(error) ==> step_failure(operation@, current@, error),
{
    match operation {
        PatchOp::Insert { path, map_key, value } => {
            proof {
                lemma_apply_insert(path@, operation@->Insert_map_key, value@, current@);
            }
            let next = apply_insert(path, map_key, value, current);
            proof {
                if next is Err {
                    let error = next->Err_0;
                    assert(!(error is OldValueMismatch) && !(error is PreRootMismatch)) by {
                        lemma_insert_errors(current@, path@, operation@->Insert_map_key, value@);
                    }
                }
            }
            next
        },
        _ => Err(PatchError::UnsupportedInsertTarget),
    }
}

fn apply_update_op<H: CommitmentHasher>(operation: &PatchOp, current: &Value) -> (next: Result<Value, PatchError>)
    requires
        operation is Update,
    ensures
        next matches Ok(value) ==> apply_op(operation@, current@) == Ok::<ValueModel, PatchError>(value@),
        next matches Err(error) ==> step_failure(operation@, current@, error),
        next is Ok ==> precondition_holds::<H>(operation@, current@),
        next matches Err(error) && error is OldValueMismatch ==> !precondition_holds::<H>(operation@, current@),
{
    match operation {
        PatchOp::Update { path, expected_old_hash, value } => {
            proof {
                lemma_apply_update(path@, expected_old_hash.spec_bytes(), value@, current@);
                lemma_lookup_errors(current@, path@);
            }
            match check_old_value::<H>(path, *expected_old_hash, current) {
                Ok(()) => {},
                Err(error) => return Err(error),
            }
            let next = apply_replace(path, value, current);
            proof {
                if next is Err {
                    let error = next->Err_0;
                    assert(!(error is OldValueMismatch) && !(error is PreRootMismatch)) by {
                        lemma_replace_errors(current@, path@, value@);
                    }
                }
            }
            next
        },
        _ => Err(PatchError::UnsupportedInsertTarget),
    }
}

fn apply_delete_op<H: CommitmentHasher>(operation: &PatchOp, current: &Value) -> (next: Result<Value, PatchError>)
    requires
        operation is Delete,
    ensures
        next matches Ok(value) ==> apply_op(operation@, current@) == Ok::<ValueModel, PatchError>(value@),
        next matches Err(error) ==> step_failure(operation@, current@, error),
        next is Ok ==> precondition_holds::<H>(operation@, current@),
        next matches Err(error) && error is OldValueMismatch ==> !precondition_holds::<H>(operation@, current@),
{
    match operation {
        PatchOp::Delete { path, expected_old_hash } => {
            proof {
                lemma_apply_delete(path@, expected_old_hash.spec_bytes(), current@);
                lemma_lookup_errors(current@, path@);
            }
            match check_old_value::<H>(path, *expected_old_hash, current) {
                Ok(()) => {},
                Err(error) => return Err(error),
            }
            let next = apply_delete(path, current);
            proof {
                if next is Err {
                    let error = next->Err_0;
                    assert(!(error is OldValueMismatch) && !(error is PreRootMismatch)) by {
                        lemma_delete_errors(current@, path@);
                    }
                }
            }
            next
        },
        _ => Err(PatchError::UnsupportedDeleteTarget),
    }
}

/// A navigation error: neither of the two commitment mismatches.
pub open spec fn navigation_error(error: PatchError) -> bool {
    !(error is OldValueMismatch) && !(error is PreRootMismatch)
}

proof fn lemma_child_errors(value: ValueModel, segment: SegmentModel, child: ValueModel)
    ensures
        child_at(value, segment) matches Err(e) ==> navigation_error(e),
        with_child(value, segment, child) matches Err(e) ==> navigation_error(e),
        insert_here(value, segment, None, child) matches Err(e) ==> navigation_error(e),
        delete_here(value, segment) matches Err(e) ==> navigation_error(e),
{
}

proof fn lemma_insert_here_errors(value: ValueModel, segment: SegmentModel, map_key: Option<ValueModel>, child: ValueModel)
    ensures
        insert_here(value, segment, map_key, child) matches Err(e) ==> navigation_error(e),
{
}

proof fn lemma_lookup_errors(value: ValueModel, path: Seq<SegmentModel>)
    ensures
        lookup_path(value, path) matches Err(e) ==> navigation_error(e),
    decreases path.len(),
{
    if path.len() > 0 {
        lemma_child_errors(value, path[0], value);
        if let Ok(child) = child_at(value, path[0]) {
            lemma_lookup_errors(child, path.drop_first());
        }
    }
}

proof fn lemma_replace_errors(value: ValueModel, path: Seq<SegmentModel>, replacement: ValueModel)
    ensures
        replace_path(value, path, replacement) matches Err(e) ==> navigation_error(e),
    decreases path.len(),
{
    if path.len() > 0 {
        if let Ok(child) = child_at(value, path[0]) {
            lemma_replace_errors(child, path.drop_first(), replacement);
            if let Ok(updated) = replace_path(child, path.drop_first(), replacement) {
                lemma_child_errors(value, path[0], updated);
            }
        } else {
            lemma_child_errors(value, path[0], value);
        }
    }
}

proof fn lemma_insert_errors(value: ValueModel, path: Seq<SegmentModel>, map_key: Option<ValueModel>, inserted: ValueModel)
    ensures
        insert_path(value, path, map_key, inserted) matches Err(e) ==> navigation_error(e),
    decreases path.len(),
{
    if path.len() == 1 {
        lemma_insert_here_errors(value, path[0], map_key, inserted);
    } else if path.len() > 1 {
        if let Ok(child) = child_at(value, path[0]) {
            lemma_insert_errors(child, path.drop_first(), map_key, inserted);
            if let Ok(updated) = insert_path(child, path.drop_first(), map_key, inserted) {
                lemma_child_errors(value, path[0], updated);
            }
        } else {
            lemma_child_errors(value, path[0], value);
        }
    }
}

proof fn lemma_delete_errors(value: ValueModel, path: Seq<SegmentModel>)
    ensures
        delete_path(value, path) matches Err(e) ==> navigation_error(e),
    decreases path.len(),
{
    if path.len() == 1 {
        lemma_child_errors(value, path[0], value);
    } else if path.len() > 1 {
        if let Ok(child) = child_at(value, path[0]) {
            lemma_delete_errors(child, path.drop_first());
            if let Ok(updated) = delete_path(child, path.drop_first()) {
                lemma_child_errors(value, path[0], updated);
            }
        } else {
            lemma_child_errors(value, path[0], value);
        }
    }
}

fn apply_one<H: CommitmentHasher>(operation: &PatchOp, current: &Value) -> (next: Result<Value, PatchError>)
    ensures
        next matches Ok(value) ==> apply_op(operation@, current@) == Ok::<ValueModel, PatchError>(value@),
        next matches Err(error) ==> step_failure(operation@, current@, error),
        next is Ok ==> precondition_holds::<H>(operation@, current@),
        next matches Err(error) && error is OldValueMismatch ==> !precondition_holds::<H>(operation@, current@),
{
    match operation {
        PatchOp::Insert { .. } => apply_insert_op(operation, current),
        PatchOp::Update { .. } => apply_update_op::<H>(operation, current),
        PatchOp::Delete { .. } => apply_delete_op::<H>(operation, current),
    }
}

impl CanonicalPatch {
    /// Purely applies the complete patch or returns without a successor.
    ///
    /// A successor is exactly what the operations produce in canonical order;
    /// every failure names its cause: a root or an old value whose commitment
    /// differs from the expected one, or the first operation that cannot apply.
    pub fn apply<H: CommitmentHasher>(&self, state: &Value, state_domain: &Domain) -> (applied: Result<AppliedPatch, PatchError>)
        ensures
            applied matches Ok(a) ==> apply_ops(self.spec_operations(), state@) == Ok::<ValueModel, PatchError>(a.spec_state()),
            applied matches Err(error) ==> application_failure(
                self.spec_operations(),
                self.spec_expected_pre_root(),
                state@,
                error,
            ),
            applied matches Err(PatchError::PreRootMismatch { actual, .. }) ==> actual == value_root::<H>(
                state_domain.spec_name(),
                state_domain.spec_version(),
                state@,
            ),
            applied matches Err(PatchError::OldValueMismatch { .. }) ==> !preconditions_hold::<H>(
                self.spec_operations(),
                state@,
            ),
            value_root::<H>(state_domain.spec_name(), state_domain.spec_version(), state@)
                == self.spec_expected_pre_root() && apply_ops(self.spec_operations(), state@) is Ok
                && preconditions_hold::<H>(self.spec_operations(), state@) ==> applied is Ok,
            applied matches Ok(a) ==> a.spec_post_root() == value_root::<H>(
                state_domain.spec_name(),
                state_domain.spec_version(),
                a.spec_state(),
            ) && value_root::<H>(state_domain.spec_name(), state_domain.spec_version(), state@)
                == self.spec_expected_pre_root() && preconditions_hold::<H>(self.spec_operations(), state@),
    {
        let actual_pre_root = match hash_value::<H>(state_domain, state) {
            Ok(root) => root,
            Err(error) => return Err(error),
        };
        if actual_pre_root != self.expected_pre_root {
            return Err(PatchError::PreRootMismatch { expected: self.expected_pre_root, actual: actual_pre_root });
        }
        proof {
            actual_pre_root.lemma_bytes_injective(self.expected_pre_root);
        }
        let ghost ops = self.spec_operations();
        let mut current = state.duplicate();
        let mut index: usize = 0;
        assert(ops.take(0) =~= Seq::<OpModel>::empty());
        while index < self.operations.len()
            invariant
                index <= self.operations@.len(),
                ops == op_models(self.operations@),
                ops == self.spec_operations(),
                apply_ops(ops.take(index as int), state@) == Ok::<ValueModel, PatchError>(current@),
                forall|k: int|
                    0 <= k < index && #[trigger] apply_ops(ops.take(k), state@) is Ok ==> precondition_holds::<H>(
                        ops[k],
                        apply_ops(ops.take(k), state@).unwrap(),
                    ),
                value_root::<H>(state_domain.spec_name(), state_domain.spec_version(), state@)
                    == self.expected_pre_root,
            decreases self.operations@.len() - index,
        {
            let next = apply_one::<H>(&self.operations[index], &current);
            proof {
                let prefix = ops.take(index + 1);
                assert(prefix.drop_last() =~= ops.take(index as int));
                assert(prefix.last() == self.operations@[index as int]@);
                assert(ops[index as int] == self.operations@[index as int]@);
            }
            proof {
                if next is Ok {
                    assert(precondition_holds::<H>(ops[index as int], current@));
                }
            }
            match next {
                Ok(value) => current = value,
                Err(error) => {
                    proof {
                        let k = index as int;
                        assert(apply_ops(ops.take(k), state@).unwrap() == current@);
                        if error is OldValueMismatch {
                            assert(!precondition_holds::<H>(ops[k], apply_ops(ops.take(k), state@).unwrap()));
                        } else {
                            assert(apply_op(ops[k], current@) is Err);
                            assert(apply_ops(ops.take(k + 1), state@) is Err) by {
                                let prefix = ops.take(k + 1);
                                assert(prefix.drop_last() =~= ops.take(k));
                                assert(prefix.last() == ops[k]);
                            }
                            lemma_apply_ops_prefix_err(ops, state@, k);
                        }
                        match error {
                            PatchError::OldValueMismatch { .. } => {
                                assert(ops[k].path() == ops[k].path());
                            },
                            PatchError::PreRootMismatch { .. } => {},
                            _ => {
                                assert(apply_op(ops[k], apply_ops(ops.take(k), state@).unwrap()) == Err::<ValueModel, PatchError>(error));
                            },
                        }
                    }
                    return Err(error);
                },
            }
            index = index + 1;
        }
        assert(ops.take(ops.len() as int) =~= ops);
        let post_root = match hash_value::<H>(state_domain, &current) {
            Ok(root) => root,
            Err(error) => return Err(error),
        };
        Ok(AppliedPatch { state: current, post_root })
    }
}


// ---------------------------------------------------------------------------
// Canonical patch bytes.
// ---------------------------------------------------------------------------

/// Canonical bytes of one operation: its tag, the length-prefixed path, then
/// the map-key flag and key, the old-value commitment and the value, as the
/// operation carries them.
pub open spec fn op_encoding(op: OpModel) -> Seq<u8> {
    match op {
        OpModel::Insert { path, map_key, value } => seq![0u8] + blob(path_encoding(path)) + match map_key {
            None => seq![0u8],
            Some(key) => seq![1u8] + blob(encoding(key)),
        } + blob(encoding(value)),
        OpModel::Update { path, expected_old_hash, value } => seq![1u8] + blob(path_encoding(path))
            + expected_old_hash + blob(encoding(value)),
        OpModel::Delete { path, expected_old_hash } => seq![2u8] + blob(path_encoding(path)) + expected_old_hash,
    }
}

/// Every length prefix inside the operation's encoding fits 32 bits.
pub open spec fn op_parts_fit(op: OpModel) -> bool {
    &&& path_encodable(op.path())
    &&& path_encoding(op.path()).len() <= u32::MAX
    &&& match op {
        OpModel::Insert { map_key, value, .. } => encoding(value).len() <= u32::MAX && match map_key {
            None => true,
            Some(key) => encoding(key).len() <= u32::MAX,
        },
        OpModel::Update { value, .. } => encoding(value).len() <= u32::MAX,
        OpModel::Delete { .. } => true,
    }
}

/// The operation encodes, and its encoding fits its own prefix in a patch.
pub open spec fn op_encodable(op: OpModel) -> bool {
    op_parts_fit(op) && op_encoding(op).len() <= u32::MAX
}

/// The length-prefixed encodings of the operations, in order.
pub open spec fn op_blobs(ops: Seq<OpModel>) -> Seq<u8>
    decreases ops.len(),
{
    if ops.len() == 0 {
        Seq::empty()
    } else {
        op_blobs(ops.drop_last()) + blob(op_encoding(ops.last()))
    }
}

/// Every length prefix of a patch with these operations fits 32 bits.
pub open spec fn ops_encodable(ops: Seq<OpModel>) -> bool {
    &&& ops.len() <= u32::MAX
    &&& forall|i: int| 0 <= i < ops.len() ==> #[trigger] op_encodable(ops[i])
}

/// Canonical bytes of a patch: state type, expected pre-root, operation
/// count, then each operation's length-prefixed encoding.
pub open spec fn patch_encoding(state_type: u32, expected_pre_root: Seq<u8>, ops: Seq<OpModel>) -> Seq<u8> {
    be32(state_type) + expected_pre_root + be32(ops.len() as u32) + op_blobs(ops)
}

impl PatchOp {
    /// The canonical bytes of the operation; fails when a length does not fit its prefix.
    pub fn canonical_bytes(&self) -> (bytes: Result<Vec<u8>, EncodeError>)
        ensures
            bytes is Ok <==> op_parts_fit(self@),
            bytes matches Ok(b) ==> b@ == op_encoding(self@),
    {
        let mut output: Vec<u8> = Vec::new();
        match self {
            PatchOp::Insert { path, map_key, value } => {
                put_u8(&mut output, 0);
                let path_bytes = match path.canonical_bytes() {
                    Ok(bytes) => bytes,
                    Err(error) => return Err(error),
                };
                match put_u32_blob(&mut output, path_bytes.as_slice()) {
                    Ok(()) => {},
                    Err(error) => return Err(error),
                }
                let ghost after_path = output@;
                match map_key {
                    None => put_u8(&mut output, 0),
                    Some(key) => {
                        put_u8(&mut output, 1);
                        let key_bytes = key.canonical_bytes();
                        match put_u32_blob(&mut output, key_bytes.as_slice()) {
                            Ok(()) => {},
                            Err(error) => return Err(error),
                        }
                    },
                }
                let ghost after_key = output@;
                let value_bytes = value.canonical_bytes();
                match put_u32_blob(&mut output, value_bytes.as_slice()) {
                    Ok(()) => {},
                    Err(error) => return Err(error),
                }
                assert(output@ =~= op_encoding(self@));
            },
            PatchOp::Update { path, expected_old_hash, value } => {
                put_u8(&mut output, 1);
                let path_bytes = match path.canonical_bytes() {
                    Ok(bytes) => bytes,
                    Err(error) => return Err(error),
                };
                match put_u32_blob(&mut output, path_bytes.as_slice()) {
                    Ok(()) => {},
                    Err(error) => return Err(error),
                }
                put_bytes(&mut output, expected_old_hash.as_bytes());
                let value_bytes = value.canonical_bytes();
                match put_u32_blob(&mut output, value_bytes.as_slice()) {
                    Ok(()) => {},
                    Err(error) => return Err(error),
                }
                assert(output@ =~= op_encoding(self@));
            },
            PatchOp::Delete { path, expected_old_hash } => {
                put_u8(&mut output, 2);
                let path_bytes = match path.canonical_bytes() {
                    Ok(bytes) => bytes,
                    Err(error) => return Err(error),
                };
                match put_u32_blob(&mut output, path_bytes.as_slice()) {
                    Ok(()) => {},
                    Err(error) => return Err(error),
                }
                put_bytes(&mut output, expected_old_hash.as_bytes());
                assert(output@ =~= op_encoding(self@));
            },
        }
        Ok(output)
    }
}

impl CanonicalPatch {
    /// The canonical bytes of the patch.
    pub open spec fn spec_encoding(self) -> Seq<u8> {
        patch_encoding(self.spec_state_type(), self.spec_expected_pre_root().spec_bytes(), self.spec_operations())
    }

    /// The canonical bytes of the patch; fails when a length does not fit its prefix.
    pub fn canonical_bytes(&self) -> (bytes: Result<Vec<u8>, EncodeError>)
        ensures
            bytes is Ok <==> ops_encodable(self.spec_operations()),
            bytes matches Ok(b) ==> b@ == self.spec_encoding(),
    {
        let mut output: Vec<u8> = Vec::new();
        put_u32(&mut output, self.state_type);
        put_bytes(&mut output, self.expected_pre_root.as_bytes());
        match put_length(&mut output, self.operations.len()) {
            Ok(()) => {},
            Err(error) => return Err(error),
        }
        let ghost ops = op_models(self.operations@);
        let ghost head = be32(self.state_type) + self.expected_pre_root.spec_bytes() + be32(ops.len() as u32);
        assert(output@ =~= head);
        let mut index: usize = 0;
        while index < self.operations.len()
            invariant
                index <= ops.len(),
                ops == op_models(self.operations@),
                ops.len() <= u32::MAX,
                output@ == head + op_blobs(ops.subrange(0, index as int)),
                forall|i: int| 0 <= i < index ==> #[trigger] op_encodable(ops[i]),
            decreases ops.len() - index,
        {
            let encoded = match self.operations[index].canonical_bytes() {
                Ok(encoded) => encoded,
                Err(error) => {
                    proof {
                        assert(!op_encodable(ops[index as int]));
                    }
                    return Err(error);
                },
            };
            match put_u32_blob(&mut output, encoded.as_slice()) {
                Ok(()) => {},
                Err(error) => {
                    proof {
                        assert(!op_encodable(ops[index as int]));
                    }
                    return Err(error);
                },
            }
            proof {
                assert(ops.subrange(0, index + 1).drop_last() =~= ops.subrange(0, index as int));
                assert(ops.subrange(0, index + 1).last() == ops[index as int]);
            }
            index = index + 1;
            assert(output@ =~= head + op_blobs(ops.subrange(0, index as int)));
        }
        assert(ops.subrange(0, ops.len() as int) =~= ops);
        Ok(output)
    }
}

// ---------------------------------------------------------------------------
// Strict decoding.
// ---------------------------------------------------------------------------

/// Resource bounds for strict canonical patch decoding.
#[derive(Clone, Copy, Debug, PartialEq, Eq, Structural)]
pub struct PatchDecodeLimits {
    /// Most bytes in the complete encoded patch.
    pub max_input_bytes: u64,
    /// Most operations in the patch.
    pub max_operations: u32,
    /// Most segments in any one path.
    pub max_path_segments: u32,
    /// Most bytes in one encoded map-key segment.
    pub max_map_key_bytes: u64,
    /// Most value nodes across payloads and map keys.
    pub max_value_nodes: u64,
    /// Most byte-string and text payload bytes across payloads and map keys.
    pub max_value_payload_bytes: u64,
    /// Per-value decoding limits.
    pub value: DecodeLimits,
}

impl Default for PatchDecodeLimits {
    fn default() -> (limits: Self)
        ensures
            limits.max_input_bytes == DEFAULT_MAX_INPUT_BYTES,
            limits.max_operations == 4096,
            limits.max_path_segments == 256,
            limits.max_map_key_bytes == 65536,
            limits.max_value_nodes == 1000000,
            limits.max_value_payload_bytes == 67108864,
    {
        PatchDecodeLimits {
            max_input_bytes: DEFAULT_MAX_INPUT_BYTES,
            max_operations: 4096,
            max_path_segments: 256,
            max_map_key_bytes: 65536,
            max_value_nodes: 1000000,
            max_value_payload_bytes: 67108864,
            value: DecodeLimits::default(),
        }
    }
}

/// Strict canonical patch decoding failure.
#[derive(Clone, Debug, PartialEq, Eq)]
pub enum PatchDecodeError {
    /// The complete input exceeds its byte limit.
    InputLimit {
        /// Configured limit.
        limit: u64,
        /// Actual input bytes.
        actual: u64,
    },
    /// The operation count exceeds its limit.
    OperationLimit {
        /// Configured limit.
        limit: u32,
        /// Declared operation count.
        actual: u32,
    },
    /// A path's segment count exceeds its limit.
    PathSegmentLimit {
        /// Configured limit.
        limit: u32,
        /// Declared segment count.
        actual: u32,
    },
    /// An encoded map key exceeds its byte limit.
    MapKeyLimit {
        /// Configured limit.
        limit: u64,
        /// Actual encoded bytes.
        actual: u64,
    },
    /// Decoded value nodes exceed their aggregate limit.
    ValueNodeLimit {
        /// Configured limit.
        limit: u64,
        /// Attempted aggregate nodes.
        actual: u64,
    },
    /// Decoded value payload bytes exceed their aggregate limit.
    ValuePayloadLimit {
        /// Configured limit.
        limit: u64,
        /// Attempted aggregate payload bytes.
        actual: u64,
    },
    /// A length or counter overflowed.
    LengthOverflow,
    /// The input ended inside a field.
    UnexpectedEnd {
        /// Offset where decoding stopped.
        offset: usize,
        /// Requested bytes.
        requested: usize,
    },
    /// Bytes remained after a complete item.
    TrailingBytes {
        /// First trailing byte offset within the current item.
        offset: usize,
    },
    /// A path segment tag outside the format.
    UnknownPathTag(u8),
    /// An operation tag outside the format.
    UnknownOperationTag(u8),
    /// An insert map-key flag other than 0 or 1.
    InvalidMapKeyFlag(u8),
    /// A nested value failed strict decoding.
    Value(DecodeError),
    /// The rebuilt patch failed its invariants.
    Patch(PatchError),
    /// Canonical re-encoding failed.
    Encode(EncodeError),
    /// The rebuilt canonical bytes differ from the input.
    NonCanonical,
}

impl PatchDecodeError {
    /// A short description of the failure.
    pub fn message(&self) -> (text: &'static str)
        ensures
            text == (match *self {
                PatchDecodeError::InputLimit { .. } => "patch input exceeds its byte limit",
                PatchDecodeError::OperationLimit { .. } => "patch operations exceed their limit",
                PatchDecodeError::PathSegmentLimit { .. } => "path segments exceed their limit",
                PatchDecodeError::MapKeyLimit { .. } => "encoded map key exceeds its limit",
                PatchDecodeError::ValueNodeLimit { .. } => "decoded patch value nodes exceed their limit",
                PatchDecodeError::ValuePayloadLimit { .. } => "decoded patch value payload bytes exceed their limit",
                PatchDecodeError::LengthOverflow => "patch decode length overflow",
                PatchDecodeError::UnexpectedEnd { .. } => "patch input ended early",
                PatchDecodeError::TrailingBytes { .. } => "trailing patch bytes",
                PatchDecodeError::UnknownPathTag(_) => "unknown path segment tag",
                PatchDecodeError::UnknownOperationTag(_) => "unknown patch operation tag",
                PatchDecodeError::InvalidMapKeyFlag(_) => "invalid map-key flag",
                PatchDecodeError::Value(_) => "nested patch value is not canonical",
                PatchDecodeError::Patch(_) => "decoded patch is invalid",
                PatchDecodeError::Encode(_) => "patch re-encoding failed",
                PatchDecodeError::NonCanonical => "noncanonical patch encoding",
            }),
    {
        match self {
            PatchDecodeError::InputLimit { .. } => "patch input exceeds its byte limit",
            PatchDecodeError::OperationLimit { .. } => "patch operations exceed their limit",
            PatchDecodeError::PathSegmentLimit { .. } => "path segments exceed their limit",
            PatchDecodeError::MapKeyLimit { .. } => "encoded map key exceeds its limit",
            PatchDecodeError::ValueNodeLimit { .. } => "decoded patch value nodes exceed their limit",
            PatchDecodeError::ValuePayloadLimit { .. } => "decoded patch value payload bytes exceed their limit",
            PatchDecodeError::LengthOverflow => "patch decode length overflow",
            PatchDecodeError::UnexpectedEnd { .. } => "patch input ended early",
            PatchDecodeError::TrailingBytes { .. } => "trailing patch bytes",
            PatchDecodeError::UnknownPathTag(_) => "unknown path segment tag",
            PatchDecodeError::UnknownOperationTag(_) => "unknown patch operation tag",
            PatchDecodeError::InvalidMapKeyFlag(_) => "invalid map-key flag",
            PatchDecodeError::Value(_) => "nested patch value is not canonical",
            PatchDecodeError::Patch(_) => "decoded patch is invalid",
            PatchDecodeError::Encode(_) => "patch re-encoding failed",
            PatchDecodeError::NonCanonical => "noncanonical patch encoding",
        }
    }
}

/// How many items to reserve room for: the declared count, but no more than
/// the remaining bytes could hold at the least wire size per item. A zero
/// item size is refused.
pub fn initial_collection_capacity(
    count: u32,
    remaining_wire_bytes: usize,
    minimum_wire_bytes_per_item: usize,
) -> (capacity: Result<usize, PatchDecodeError>)
    ensures
        minimum_wire_bytes_per_item == 0 ==> capacity == Err::<usize, PatchDecodeError>(
            PatchDecodeError::LengthOverflow,
        ),
        minimum_wire_bytes_per_item > 0 ==> capacity == Ok::<usize, PatchDecodeError>(
            if count as int <= remaining_wire_bytes as int / minimum_wire_bytes_per_item as int {
                count as usize
            } else {
                (remaining_wire_bytes / minimum_wire_bytes_per_item) as usize
            },
        ),
{
    if minimum_wire_bytes_per_item == 0 {
        return Err(PatchDecodeError::LengthOverflow);
    }
    let wire_bound = remaining_wire_bytes / minimum_wire_bytes_per_item;
    let declared = count as usize;
    if declared <= wire_bound {
        Ok(declared)
    } else {
        Ok(wire_bound)
    }
}

fn patch_wire_error(error: WireError) -> PatchDecodeError {
    match error {
        WireError::LengthOverflow => PatchDecodeError::LengthOverflow,
        WireError::UnexpectedEnd { offset, requested } => PatchDecodeError::UnexpectedEnd { offset, requested },
    }
}

/// Aggregate value counts of one patch decoding.
struct PatchDecodeState {
    value_nodes: u64,
    value_payload_bytes: u64,
}

fn decode_patch_value(bytes: &[u8], limits: &PatchDecodeLimits, state: &mut PatchDecodeState) -> (decoded: Result<
    Value,
    PatchDecodeError,
>)
    ensures
        decoded matches Ok(v) ==> encoding(v@) == bytes@,
        decoded matches Ok(v) ==> final(state).value_nodes == old(state).value_nodes + node_count(v@)
            && final(state).value_payload_bytes == old(state).value_payload_bytes + payload_size(v@),
        forall|v: ValueModel| #[trigger] value_admitted(v, bytes@, limits.value) ==> ((old(state).value_nodes
            + node_count(v) <= limits.max_value_nodes && old(state).value_payload_bytes + payload_size(v)
            <= limits.max_value_payload_bytes) <==> (decoded matches Ok(w) && w@ == v)),
{
    let (value, metrics) = match decode_value_with_metrics(bytes, limits.value) {
        Ok(decoded) => decoded,
        Err(error) => return Err(PatchDecodeError::Value(error)),
    };
    if metrics.nodes > u64::MAX - state.value_nodes {
        return Err(PatchDecodeError::LengthOverflow);
    }
    state.value_nodes = state.value_nodes + metrics.nodes;
    if state.value_nodes > limits.max_value_nodes {
        return Err(PatchDecodeError::ValueNodeLimit { limit: limits.max_value_nodes, actual: state.value_nodes });
    }
    if metrics.payload_bytes > u64::MAX - state.value_payload_bytes {
        return Err(PatchDecodeError::LengthOverflow);
    }
    state.value_payload_bytes = state.value_payload_bytes + metrics.payload_bytes;
    if state.value_payload_bytes > limits.max_value_payload_bytes {
        return Err(
            PatchDecodeError::ValuePayloadLimit {
                limit: limits.max_value_payload_bytes,
                actual: state.value_payload_bytes,
            },
        );
    }
    Ok(value)
}

/// Value nodes decoded for segment `seg`: those of its map key's value.
pub open spec fn segment_nodes(seg: SegmentModel, key: ValueModel) -> int {
    if seg is MapKey {
        node_count(key) as int
    } else {
        0
    }
}

/// Value payload bytes decoded for segment `seg`.
pub open spec fn segment_payload(seg: SegmentModel, key: ValueModel) -> int {
    if seg is MapKey {
        payload_size(key) as int
    } else {
        0
    }
}

/// Value nodes of the map keys among the first `n` segments of `path`, the
/// key at segment `i` counted by its decoded value `keys[i]`.
pub open spec fn key_nodes(path: Seq<SegmentModel>, keys: Seq<ValueModel>, n: nat) -> int
    decreases n,
{
    if n == 0 {
        0
    } else {
        key_nodes(path, keys, (n - 1) as nat) + segment_nodes(path[n - 1], keys[n - 1])
    }
}

/// Value payload bytes of the map keys among the first `n` segments.
pub open spec fn key_payload(path: Seq<SegmentModel>, keys: Seq<ValueModel>, n: nat) -> int
    decreases n,
{
    if n == 0 {
        0
    } else {
        key_payload(path, keys, (n - 1) as nat) + segment_payload(path[n - 1], keys[n - 1])
    }
}

/// Whether a map key segment is within the wire and key limits and holds the
/// canonical encoding of the admitted value `key`.
pub open spec fn segment_key_admitted(seg: SegmentModel, key: ValueModel, limits: PatchDecodeLimits) -> bool {
    seg matches SegmentModel::MapKey(k) ==> k.len() <= u32::MAX && k.len() <= limits.max_map_key_bytes
        && value_admitted(key, k, limits.value)
}

/// Every map key of `path` is admitted, the key at segment `i` as `keys[i]`.
pub open spec fn path_keys_admitted(path: Seq<SegmentModel>, keys: Seq<ValueModel>, limits: PatchDecodeLimits) -> bool {
    &&& keys.len() == path.len()
    &&& forall|i: int| 0 <= i < path.len() ==> #[trigger] segment_key_admitted(path[i], keys[i], limits)
}

/// `bytes` are the canonical encoding of `path`, whose map keys decode to
/// `keys`, and the path fits every limit when `nodes` value nodes and
/// `payload` value payload bytes were decoded before it.
pub open spec fn path_decodable(
    bytes: Seq<u8>,
    path: Seq<SegmentModel>,
    keys: Seq<ValueModel>,
    limits: PatchDecodeLimits,
    nodes: int,
    payload: int,
) -> bool {
    &&& path_encoding(path) == bytes
    &&& path.len() <= limits.max_path_segments
    &&& path_keys_admitted(path, keys, limits)
    &&& nodes + key_nodes(path, keys, path.len()) <= limits.max_value_nodes
    &&& payload + key_payload(path, keys, path.len()) <= limits.max_value_payload_bytes
}

/// The encoding of `seg` stands at `offset`, its map key is admitted as
/// `key`, and the key's counts fit after `nodes` and `payload`.
pub open spec fn segment_fits(
    bytes: Seq<u8>,
    offset: int,
    seg: SegmentModel,
    key: ValueModel,
    limits: PatchDecodeLimits,
    nodes: int,
    payload: int,
) -> bool {
    &&& 0 <= offset
    &&& offset + segment_encoding(seg).len() <= bytes.len()
    &&& bytes.subrange(offset, offset + segment_encoding(seg).len()) == segment_encoding(seg)
    &&& segment_key_admitted(seg, key, limits)
    &&& nodes + segment_nodes(seg, key) <= limits.max_value_nodes
    &&& payload + segment_payload(seg, key) <= limits.max_value_payload_bytes
}

proof fn lemma_key_counts_grow(path: Seq<SegmentModel>, keys: Seq<ValueModel>, i: nat, j: nat)
    requires
        i <= j,
    ensures
        key_nodes(path, keys, i) <= key_nodes(path, keys, j),
        key_payload(path, keys, i) <= key_payload(path, keys, j),
    decreases j,
{
    if i < j {
        lemma_key_counts_grow(path, keys, i, (j - 1) as nat);
    }
}

/// The encoding of the first `j` segments is a prefix of the encoding of all.
proof fn lemma_segments_prefix(path: Seq<SegmentModel>, j: int)
    requires
        0 <= j <= path.len(),
    ensures
        segments_encoding(path.take(j)).len() <= segments_encoding(path).len(),
        segments_encoding(path).subrange(0, segments_encoding(path.take(j)).len() as int) == segments_encoding(
            path.take(j),
        ),
    decreases path.len(),
{
    if j == path.len() {
        assert(path.take(j) =~= path);
    } else {
        let rest = path.drop_last();
        assert(rest.take(j) =~= path.take(j));
        lemma_segments_prefix(rest, j);
        assert(segments_encoding(path).subrange(0, segments_encoding(path.take(j)).len() as int) =~= segments_encoding(
            rest,
        ).subrange(0, segments_encoding(path.take(j)).len() as int));
    }
}

/// Segment `i` of a canonically encoded path stands right after the first
/// `i` segments.
proof fn lemma_segment_at(bytes: Seq<u8>, path: Seq<SegmentModel>, i: int)
    requires
        bytes == path_encoding(path),
        0 <= i < path.len(),
    ensures
        segments_encoding(path.take(i + 1)) == segments_encoding(path.take(i)) + segment_encoding(path[i]),
        4 + segments_encoding(path.take(i + 1)).len() <= bytes.len(),
        bytes.subrange(
            4 + segments_encoding(path.take(i)).len() as int,
            4 + segments_encoding(path.take(i + 1)).len() as int,
        ) == segment_encoding(path[i]),
{
    assert(path.take(i + 1).drop_last() =~= path.take(i));
    lemma_segments_prefix(path, i + 1);
    let a = segments_encoding(path.take(i)).len() as int;
    let b = segments_encoding(path.take(i + 1)).len() as int;
    assert(bytes.subrange(4 + a, 4 + b) =~= segments_encoding(path).subrange(0, b).subrange(a, b));
    assert(segments_encoding(path.take(i + 1)).subrange(a, b) =~= segment_encoding(path[i]));
}

/// The first byte of a segment's encoding names its kind, and the kind fixes
/// the encoding's length.
proof fn lemma_segment_shape(seg: SegmentModel)
    ensures
        segment_encoding(seg).len() >= 1,
        seg is Field <==> segment_encoding(seg)[0] == 0,
        (seg is TupleIndex || seg is VectorIndex) <==> (segment_encoding(seg)[0] == 1 || segment_encoding(seg)[0]
            == 2),
        seg is SumPayload <==> segment_encoding(seg)[0] == 3,
        seg is MapKey <==> segment_encoding(seg)[0] == 4,
        seg is Field ==> segment_encoding(seg).len() == 3,
        (seg is TupleIndex || seg is VectorIndex) ==> segment_encoding(seg).len() == 5,
        seg is SumPayload ==> segment_encoding(seg).len() == 1,
        seg matches SegmentModel::MapKey(k) ==> segment_encoding(seg).len() == 5 + k.len(),
{
    match seg {
        SegmentModel::Field(id) => assert((seq![0u8] + be16(id))[0] == 0u8),
        SegmentModel::TupleIndex(i) => assert((seq![1u8] + be32(i))[0] == 1u8),
        SegmentModel::VectorIndex(i) => assert((seq![2u8] + be32(i))[0] == 2u8),
        SegmentModel::SumPayload => {},
        SegmentModel::MapKey(k) => assert((seq![4u8] + be32(k.len() as u32) + k)[0] == 4u8),
    }
}

/// Reads one path segment at `offset`; a map key must be the canonical
/// encoding of a value within the limits. Any segment `seg` whose encoding
/// stands there, with its key decoding to `key`, is what comes back.
#[verifier::rlimit(30)]
fn decode_path_segment(
    bytes: &[u8],
    offset: usize,
    limits: &PatchDecodeLimits,
    state: &mut PatchDecodeState,
    Ghost(seg): Ghost<SegmentModel>,
    Ghost(key): Ghost<ValueModel>,
) -> (decoded: Result<(PathSegment, usize), PatchDecodeError>)
    requires
        offset <= bytes@.len(),
    ensures
        decoded matches Ok((segment, next)) ==> offset < next <= bytes@.len() && bytes@.subrange(
            offset as int,
            next as int,
        ) == segment_encoding(segment@),
        segment_fits(
            bytes@,
            offset as int,
            seg,
            key,
            *limits,
            old(state).value_nodes as int,
            old(state).value_payload_bytes as int,
        ) ==> (decoded matches Ok((segment, next)) && segment@ == seg && next == offset + segment_encoding(seg).len()
            && final(state).value_nodes == old(state).value_nodes + segment_nodes(seg, key)
            && final(state).value_payload_bytes == old(state).value_payload_bytes + segment_payload(seg, key)),
{
    let ghost fits = segment_fits(
        bytes@,
        offset as int,
        seg,
        key,
        *limits,
        old(state).value_nodes as int,
        old(state).value_payload_bytes as int,
    );
    let ghost enc = segment_encoding(seg);
    let total: usize = bytes.len();
    proof {
        lemma_segment_shape(seg);
        if fits {
            assert(bytes@[offset as int] == bytes@.subrange(offset as int, offset + enc.len())[0]);
        }
    }
    let (tag, p) = match read_u8(bytes, offset) {
        Ok(read) => read,
        Err(error) => return Err(patch_wire_error(error)),
    };
    if tag == 0 {
        let (id, next) = match read_u16(bytes, p) {
            Ok(read) => read,
            Err(error) => return Err(patch_wire_error(error)),
        };
        proof {
            if fits {
                let id0 = choose|k: u16| seg == SegmentModel::Field(k);
                assert(bytes@.subrange(p as int, p + 2) =~= enc.subrange(1, 3));
                assert(enc.subrange(1, 3) =~= be16(id0));
                lemma_be16_injective(id, id0);
            }
        }
        assert(bytes@.subrange(offset as int, next as int) =~= seq![tag] + bytes@.subrange(p as int, next as int));
        Ok((PathSegment::Field(id), next))
    } else if tag == 1 || tag == 2 {
        let (position, next) = match read_u32(bytes, p) {
            Ok(read) => read,
            Err(error) => return Err(patch_wire_error(error)),
        };
        proof {
            if fits {
                let i0 = choose|k: u32| seg == SegmentModel::TupleIndex(k) || seg == SegmentModel::VectorIndex(k);
                assert(bytes@.subrange(p as int, p + 4) =~= enc.subrange(1, 5));
                assert(enc.subrange(1, 5) =~= be32(i0));
                lemma_be32_injective(position, i0);
            }
        }
        assert(bytes@.subrange(offset as int, next as int) =~= seq![tag] + bytes@.subrange(p as int, next as int));
        if tag == 1 {
            Ok((PathSegment::TupleIndex(position), next))
        } else {
            Ok((PathSegment::VectorIndex(position), next))
        }
    } else if tag == 3 {
        assert(bytes@.subrange(offset as int, p as int) =~= seq![tag]);
        Ok((PathSegment::SumPayload, p))
    } else if tag == 4 {
        let ghost key0 = choose|k: Seq<u8>| seg == SegmentModel::MapKey(k);
        proof {
            if fits {
                assert(bytes@.subrange(p as int, p + 4 + key0.len()) =~= enc.subrange(1, 5 + key0.len() as int));
                assert(enc.subrange(1, 5 + key0.len() as int) =~= blob(key0));
                lemma_blob_fits(bytes@, p as int, key0);
            }
        }
        let (start, end) = match read_blob(bytes, p) {
            Ok(read) => read,
            Err(error) => return Err(patch_wire_error(error)),
        };
        let actual = (end - start) as u64;
        if actual > limits.max_map_key_bytes {
            return Err(PatchDecodeError::MapKeyLimit { limit: limits.max_map_key_bytes, actual });
        }
        let encoded_key = vstd::slice::slice_subrange(bytes, start, end);
        proof {
            if fits {
                assert(encoded_key@ == key0);
                assert(value_admitted(key, encoded_key@, limits.value));
            }
        }
        match decode_patch_value(encoded_key, limits, state) {
            Ok(_) => {},
            Err(error) => return Err(error),
        }
        assert(bytes@.subrange(offset as int, end as int) =~= seq![tag] + bytes@.subrange(p as int, end as int));
        Ok((PathSegment::MapKey(copy_range(bytes, start, end)), end))
    } else {
        Err(PatchDecodeError::UnknownPathTag(tag))
    }
}

/// Strictly decodes a value path. Any path `target.0` whose canonical
/// encoding the bytes are, its map keys decoding to `target.1` within the
/// limits, is what comes back.
fn decode_value_path(
    bytes: &[u8],
    limits: &PatchDecodeLimits,
    state: &mut PatchDecodeState,
    Ghost(target): Ghost<(Seq<SegmentModel>, Seq<ValueModel>)>,
) -> (decoded: Result<ValuePath, PatchDecodeError>)
    ensures
        decoded matches Ok(path) ==> path_encoding(path@) == bytes@,
        path_decodable(
            bytes@,
            target.0,
            target.1,
            *limits,
            old(state).value_nodes as int,
            old(state).value_payload_bytes as int,
        ) ==> (decoded matches Ok(path) && path@ == target.0 && final(state).value_nodes == old(state).value_nodes
            + key_nodes(target.0, target.1, target.0.len()) && final(state).value_payload_bytes
            == old(state).value_payload_bytes + key_payload(target.0, target.1, target.0.len())),
{
    let ghost good = path_decodable(
        bytes@,
        target.0,
        target.1,
        *limits,
        old(state).value_nodes as int,
        old(state).value_payload_bytes as int,
    );
    let ghost tp = target.0;
    let ghost tk = target.1;
    let total: usize = bytes.len();
    let (count, first) = match read_u32(bytes, 0) {
        Ok(read) => read,
        Err(error) => return Err(patch_wire_error(error)),
    };
    proof {
        if good {
            assert(bytes@.subrange(0, 4) =~= be32(tp.len() as u32));
            lemma_be32_injective(count, tp.len() as u32);
        }
    }
    if count > limits.max_path_segments {
        return Err(PatchDecodeError::PathSegmentLimit { limit: limits.max_path_segments, actual: count });
    }
    let capacity = match initial_collection_capacity(count, total - first, 1) {
        Ok(capacity) => capacity,
        Err(error) => return Err(error),
    };
    let mut segments: Vec<PathSegment> = Vec::with_capacity(capacity);
    let mut cur = first;
    let mut index: u32 = 0;
    assert(bytes@.subrange(first as int, first as int) =~= segments_encoding(segment_models(segments@)));
    assert(segment_models(segments@) =~= tp.take(0));
    while index < count
        invariant
            first == 4,
            total == bytes@.len(),
            first <= cur <= bytes@.len(),
            index <= count,
            segments@.len() == index,
            bytes@.subrange(first as int, cur as int) == segments_encoding(segment_models(segments@)),
            good == path_decodable(
                bytes@,
                tp,
                tk,
                *limits,
                old(state).value_nodes as int,
                old(state).value_payload_bytes as int,
            ),
            tp == target.0,
            tk == target.1,
            good ==> count == tp.len(),
            good ==> segment_models(segments@) == tp.take(index as int),
            good ==> cur == 4 + segments_encoding(tp.take(index as int)).len(),
            good ==> state.value_nodes == old(state).value_nodes + key_nodes(tp, tk, index as nat),
            good ==> state.value_payload_bytes == old(state).value_payload_bytes + key_payload(tp, tk, index as nat),
        decreases count - index,
    {
        let ghost before = cur;
        let ghost old_segments = segments@;
        proof {
            if good {
                lemma_segment_at(bytes@, tp, index as int);
                lemma_key_counts_grow(tp, tk, (index + 1) as nat, tp.len());
                assert(segment_key_admitted(tp[index as int], tk[index as int], *limits));
                assert(segment_fits(
                    bytes@,
                    cur as int,
                    tp[index as int],
                    tk[index as int],
                    *limits,
                    state.value_nodes as int,
                    state.value_payload_bytes as int,
                ));
            }
        }
        let (segment, next) = match decode_path_segment(
            bytes,
            cur,
            limits,
            state,
            Ghost(tp[index as int]),
            Ghost(tk[index as int]),
        ) {
            Ok(decoded) => decoded,
            Err(error) => return Err(error),
        };
        cur = next;
        segments.push(segment);
        proof {
            let models = segment_models(segments@);
            assert(models.drop_last() =~= segment_models(old_segments));
            assert(models.last() == segment@);
            assert(bytes@.subrange(first as int, cur as int) =~= bytes@.subrange(first as int, before as int)
                + bytes@.subrange(before as int, cur as int));
            if good {
                assert(models =~= tp.take(index + 1));
            }
        }
        index = index + 1;
    }
    proof {
        if good {
            assert(tp.take(tp.len() as int) =~= tp);
        }
    }
    if cur != total {
        return Err(PatchDecodeError::TrailingBytes { offset: cur });
    }
    let path = ValuePath::new(segments);
    assert(bytes@ =~= bytes@.subrange(0, first as int) + bytes@.subrange(first as int, cur as int));
    assert(path_encoding(path@) =~= bytes@);
    Ok(path)
}

/// Value nodes decoded for an operation: its path's map keys, its map key
/// and its value.
pub open spec fn op_nodes(op: OpModel, path_keys: Seq<ValueModel>) -> int {
    key_nodes(op.path(), path_keys, op.path().len()) + match op {
        OpModel::Insert { map_key, value, .. } => (match map_key {
            Some(key) => node_count(key) as int,
            None => 0,
        }) + node_count(value) as int,
        OpModel::Update { value, .. } => node_count(value) as int,
        OpModel::Delete { .. } => 0,
    }
}

/// Value payload bytes decoded for an operation.
pub open spec fn op_payload(op: OpModel, path_keys: Seq<ValueModel>) -> int {
    key_payload(op.path(), path_keys, op.path().len()) + match op {
        OpModel::Insert { map_key, value, .. } => (match map_key {
            Some(key) => payload_size(key) as int,
            None => 0,
        }) + payload_size(value) as int,
        OpModel::Update { value, .. } => payload_size(value) as int,
        OpModel::Delete { .. } => 0,
    }
}

/// `bytes` are the canonical encoding of `op`, whose path's map keys decode
/// to `path_keys`, every value in it is admitted, and its counts fit the
/// limits after `nodes` value nodes and `payload` value payload bytes.
pub open spec fn op_decodable(
    bytes: Seq<u8>,
    op: OpModel,
    path_keys: Seq<ValueModel>,
    limits: PatchDecodeLimits,
    nodes: int,
    payload: int,
) -> bool {
    &&& op_encoding(op) == bytes
    &&& op_parts_fit(op)
    &&& path_decodable(path_encoding(op.path()), op.path(), path_keys, limits, nodes, payload)
    &&& match op {
        OpModel::Insert { map_key, value, .. } => value_admitted(value, encoding(value), limits.value) && (match map_key {
            Some(key) => value_admitted(key, encoding(key), limits.value),
            None => true,
        }),
        OpModel::Update { expected_old_hash, value, .. } => expected_old_hash.len() == 32 && value_admitted(
            value,
            encoding(value),
            limits.value,
        ),
        OpModel::Delete { expected_old_hash, .. } => expected_old_hash.len() == 32,
    }
    &&& nodes + op_nodes(op, path_keys) <= limits.max_value_nodes
    &&& payload + op_payload(op, path_keys) <= limits.max_value_payload_bytes
}

/// Where the parts of an encoded operation stand.
proof fn lemma_op_layout(bytes: Seq<u8>, op: OpModel)
    requires
        bytes == op_encoding(op),
        op_parts_fit(op),
        op matches OpModel::Update { expected_old_hash, .. } ==> expected_old_hash.len() == 32,
        op matches OpModel::Delete { expected_old_hash, .. } ==> expected_old_hash.len() == 32,
    ensures
        ({
            let pe = path_encoding(op.path());
            let path_end = 5 + pe.len() as int;
            &&& path_end <= bytes.len()
            &&& bytes[0] == match op {
                OpModel::Insert { .. } => 0u8,
                OpModel::Update { .. } => 1u8,
                OpModel::Delete { .. } => 2u8,
            }
            &&& bytes.subrange(1, path_end) == blob(pe)
            &&& match op {
                OpModel::Insert { map_key, value, .. } => {
                    let r = match map_key {
                        None => path_end + 1,
                        Some(key) => path_end + 5 + encoding(key).len(),
                    };
                    &&& r + 4 + encoding(value).len() == bytes.len()
                    &&& bytes[path_end] == if map_key is Some {
                        1u8
                    } else {
                        0u8
                    }
                    &&& (map_key matches Some(key) ==> bytes.subrange(path_end + 1, r) == blob(encoding(key)))
                    &&& bytes.subrange(r, bytes.len() as int) == blob(encoding(value))
                },
                OpModel::Update { expected_old_hash, value, .. } => {
                    &&& path_end + 36 + encoding(value).len() == bytes.len()
                    &&& bytes.subrange(path_end, path_end + 32) == expected_old_hash
                    &&& bytes.subrange(path_end + 32, bytes.len() as int) == blob(encoding(value))
                },
                OpModel::Delete { expected_old_hash, .. } => {
                    &&& path_end + 32 == bytes.len()
                    &&& bytes.subrange(path_end, path_end + 32) == expected_old_hash
                },
            }
        }),
{
    let pe = path_encoding(op.path());
    let path_end = 5 + pe.len() as int;
    let head = seq![bytes[0]] + blob(pe);
    assert(bytes.subrange(0, path_end) =~= head) by {
        match op {
            OpModel::Insert { .. } => {},
            OpModel::Update { .. } => {},
            OpModel::Delete { .. } => {},
        }
    }
    assert(bytes.subrange(1, path_end) =~= head.subrange(1, path_end));
    match op {
        OpModel::Insert { map_key, value, .. } => {
            let mk = match map_key {
                None => seq![0u8],
                Some(key) => seq![1u8] + blob(encoding(key)),
            };
            let r = path_end + mk.len() as int;
            assert(bytes =~= head + mk + blob(encoding(value)));
            assert(bytes.subrange(path_end, r) =~= mk);
            assert(bytes[path_end] == mk[0]);
            match map_key {
                Some(key) => assert(bytes.subrange(path_end + 1, r) =~= mk.subrange(1, mk.len() as int)),
                None => {},
            }
            assert(bytes.subrange(r, bytes.len() as int) =~= blob(encoding(value)));
        },
        OpModel::Update { expected_old_hash, value, .. } => {
            assert(bytes =~= head + expected_old_hash + blob(encoding(value)));
            assert(bytes.subrange(path_end, path_end + 32) =~= expected_old_hash);
            assert(bytes.subrange(path_end + 32, bytes.len() as int) =~= blob(encoding(value)));
        },
        OpModel::Delete { expected_old_hash, .. } => {
            assert(bytes =~= head + expected_old_hash);
            assert(bytes.subrange(path_end, path_end + 32) =~= expected_old_hash);
        },
    }
}

/// Strictly decodes one operation. Any operation `target.0` whose canonical
/// encoding the bytes are, its path's map keys decoding to `target.1` and
/// every value within the limits, is what comes back.
#[verifier::rlimit(100)]
#[verifier::spinoff_prover]
fn decode_patch_operation(
    bytes: &[u8],
    limits: &PatchDecodeLimits,
    state: &mut PatchDecodeState,
    Ghost(target): Ghost<(OpModel, Seq<ValueModel>)>,
) -> (decoded: Result<PatchOp, PatchDecodeError>)
    ensures
        decoded matches Ok(op) ==> op_encoding(op@) == bytes@,
        op_decodable(
            bytes@,
            target.0,
            target.1,
            *limits,
            old(state).value_nodes as int,
            old(state).value_payload_bytes as int,
        ) ==> (decoded matches Ok(op) && op@ == target.0 && final(state).value_nodes == old(state).value_nodes
            + op_nodes(target.0, target.1) && final(state).value_payload_bytes == old(state).value_payload_bytes
            + op_payload(target.0, target.1)),
{
    let ghost good = op_decodable(
        bytes@,
        target.0,
        target.1,
        *limits,
        old(state).value_nodes as int,
        old(state).value_payload_bytes as int,
    );
    let ghost to = target.0;
    let ghost pe = path_encoding(to.path());
    let total: usize = bytes.len();
    proof {
        if good {
            lemma_op_layout(bytes@, to);
            lemma_blob_fits(bytes@, 1, pe);
            lemma_key_counts_grow(to.path(), target.1, to.path().len(), to.path().len());
        }
    }
    let (tag, p) = match read_u8(bytes, 0) {
        Ok(read) => read,
        Err(error) => return Err(patch_wire_error(error)),
    };
    if tag > 2 {
        return Err(PatchDecodeError::UnknownOperationTag(tag));
    }
    let (path_start, path_end) = match read_blob(bytes, p) {
        Ok(read) => read,
        Err(error) => return Err(patch_wire_error(error)),
    };
    let path = match decode_value_path(
        vstd::slice::slice_subrange(bytes, path_start, path_end),
        limits,
        state,
        Ghost((to.path(), target.1)),
    ) {
        Ok(path) => path,
        Err(error) => return Err(error),
    };
    let ghost after_path_nodes = state.value_nodes;
    let ghost after_path_payload = state.value_payload_bytes;
    assert(bytes@.subrange(0, path_end as int) =~= seq![tag] + blob(path_encoding(path@)));
    let (operation, end) = if tag == 0 {
        let (flag, q) = match read_u8(bytes, path_end) {
            Ok(read) => read,
            Err(error) => return Err(patch_wire_error(error)),
        };
        let (map_key, r) = if flag == 0 {
            assert(bytes@.subrange(path_end as int, q as int) =~= seq![0u8]);
            (None, q)
        } else if flag == 1 {
            proof {
                if good {
                    match to {
                        OpModel::Insert { map_key: Some(key), .. } => lemma_blob_fits(bytes@, q as int, encoding(key)),
                        _ => {},
                    }
                }
            }
            let (key_start, key_end) = match read_blob(bytes, q) {
                Ok(read) => read,
                Err(error) => return Err(patch_wire_error(error)),
            };
            let key = match decode_patch_value(vstd::slice::slice_subrange(bytes, key_start, key_end), limits, state) {
                Ok(key) => key,
                Err(error) => return Err(error),
            };
            assert(bytes@.subrange(path_end as int, key_end as int) =~= seq![1u8] + blob(encoding(key@)));
            (Some(key), key_end)
        } else {
            return Err(PatchDecodeError::InvalidMapKeyFlag(flag));
        };
        proof {
            if good {
                match to {
                    OpModel::Insert { value, .. } => lemma_blob_fits(bytes@, r as int, encoding(value)),
                    _ => {},
                }
            }
        }
        let (value_start, value_end) = match read_blob(bytes, r) {
            Ok(read) => read,
            Err(error) => return Err(patch_wire_error(error)),
        };
        let value = match decode_patch_value(vstd::slice::slice_subrange(bytes, value_start, value_end), limits, state) {
            Ok(value) => value,
            Err(error) => return Err(error),
        };
        let op = PatchOp::Insert { path, map_key, value };
        assert(bytes@.subrange(path_end as int, r as int) == match op@ {
            OpModel::Insert { map_key, .. } => match map_key {
                None => seq![0u8],
                Some(key) => seq![1u8] + blob(encoding(key)),
            },
            _ => Seq::empty(),
        });
        assert(bytes@.subrange(0, value_end as int) =~= bytes@.subrange(0, path_end as int) + bytes@.subrange(
            path_end as int,
            r as int,
        ) + bytes@.subrange(r as int, value_end as int));
        assert(bytes@.subrange(0, value_end as int) =~= op_encoding(op@));
        (op, value_end)
    } else if tag == 1 {
        let (expected_old_hash, q) = match read_hash(bytes, path_end) {
            Ok(read) => read,
            Err(error) => return Err(patch_wire_error(error)),
        };
        proof {
            if good {
                match to {
                    OpModel::Update { value, .. } => lemma_blob_fits(bytes@, q as int, encoding(value)),
                    _ => {},
                }
            }
        }
        let (value_start, value_end) = match read_blob(bytes, q) {
            Ok(read) => read,
            Err(error) => return Err(patch_wire_error(error)),
        };
        let value = match decode_patch_value(vstd::slice::slice_subrange(bytes, value_start, value_end), limits, state) {
            Ok(value) => value,
            Err(error) => return Err(error),
        };
        let op = PatchOp::Update { path, expected_old_hash, value };
        assert(bytes@.subrange(0, value_end as int) =~= bytes@.subrange(0, path_end as int) + bytes@.subrange(
            path_end as int,
            q as int,
        ) + bytes@.subrange(q as int, value_end as int));
        assert(bytes@.subrange(0, value_end as int) =~= op_encoding(op@));
        (op, value_end)
    } else {
        let (expected_old_hash, q) = match read_hash(bytes, path_end) {
            Ok(read) => read,
            Err(error) => return Err(patch_wire_error(error)),
        };
        let op = PatchOp::Delete { path, expected_old_hash };
        assert(bytes@.subrange(0, q as int) =~= bytes@.subrange(0, path_end as int) + bytes@.subrange(
            path_end as int,
            q as int,
        ));
        assert(bytes@.subrange(0, q as int) =~= op_encoding(op@));
        (op, q)
    };
    if end != total {
        return Err(PatchDecodeError::TrailingBytes { offset: end });
    }
    assert(bytes@.subrange(0, end as int) =~= bytes@);
    Ok(operation)
}

/// Value nodes decoded for the first `n` operations, their path keys given
/// by `keys`.
pub open spec fn patch_nodes(ops: Seq<OpModel>, keys: Seq<Seq<ValueModel>>, n: nat) -> int
    decreases n,
{
    if n == 0 {
        0
    } else {
        patch_nodes(ops, keys, (n - 1) as nat) + op_nodes(ops[n - 1], keys[n - 1])
    }
}

/// Value payload bytes decoded for the first `n` operations.
pub open spec fn patch_payload(ops: Seq<OpModel>, keys: Seq<Seq<ValueModel>>, n: nat) -> int
    decreases n,
{
    if n == 0 {
        0
    } else {
        patch_payload(ops, keys, (n - 1) as nat) + op_payload(ops[n - 1], keys[n - 1])
    }
}

/// `bytes` are the canonical encoding of a valid patch whose operations are
/// `ops` in strictly increasing path order, the path keys of operation `i`
/// decoding to `keys[i]`, and every operation fits the limits after those
/// before it.
#[verifier::opaque]
pub open spec fn patch_fits(
    bytes: Seq<u8>,
    state_type: u32,
    expected_pre_root: Hash32,
    ops: Seq<OpModel>,
    keys: Seq<Seq<ValueModel>>,
    limits: PatchDecodeLimits,
) -> bool {
    &&& patch_encoding(state_type, expected_pre_root.spec_bytes(), ops) == bytes
    &&& bytes.len() <= limits.max_input_bytes
    &&& ops.len() <= limits.max_operations
    &&& keys.len() == ops.len()
    &&& ops_encodable(ops)
    &&& patch_error(ops) is None
    &&& strictly_path_ordered(ops)
    &&& ops_decodable(ops, keys, limits)
}

/// Every operation decodes within the limits after those before it, its
/// path keys decoding to `keys[i]`.
#[verifier::opaque]
pub open spec fn ops_decodable(ops: Seq<OpModel>, keys: Seq<Seq<ValueModel>>, limits: PatchDecodeLimits) -> bool {
    forall|i: int|
        0 <= i < ops.len() ==> op_decodable(
            op_encoding(#[trigger] ops[i]),
            ops[i],
            keys[i],
            limits,
            patch_nodes(ops, keys, i as nat),
            patch_payload(ops, keys, i as nat),
        )
}

/// The blobs of the first `j` operations are a prefix of the blobs of all.
proof fn lemma_op_blobs_prefix(ops: Seq<OpModel>, j: int)
    requires
        0 <= j <= ops.len(),
    ensures
        op_blobs(ops.take(j)).len() <= op_blobs(ops).len(),
        op_blobs(ops).subrange(0, op_blobs(ops.take(j)).len() as int) == op_blobs(ops.take(j)),
    decreases ops.len(),
{
    if j == ops.len() {
        assert(ops.take(j) =~= ops);
    } else {
        let rest = ops.drop_last();
        assert(rest.take(j) =~= ops.take(j));
        lemma_op_blobs_prefix(rest, j);
        assert(op_blobs(ops).subrange(0, op_blobs(ops.take(j)).len() as int) =~= op_blobs(rest).subrange(
            0,
            op_blobs(ops.take(j)).len() as int,
        ));
    }
}

/// The blob of operation `i` stands right after the blobs of the operations
/// before it, behind the 40-byte patch header.
proof fn lemma_op_at(bytes: Seq<u8>, ops: Seq<OpModel>, i: int)
    requires
        bytes.len() >= 40,
        bytes.subrange(40, bytes.len() as int) == op_blobs(ops),
        0 <= i < ops.len(),
    ensures
        op_blobs(ops.take(i + 1)) == op_blobs(ops.take(i)) + blob(op_encoding(ops[i])),
        40 + op_blobs(ops.take(i + 1)).len() <= bytes.len(),
        bytes.subrange(40 + op_blobs(ops.take(i)).len() as int, 40 + op_blobs(ops.take(i + 1)).len() as int)
            == blob(op_encoding(ops[i])),
{
    assert(ops.take(i + 1).drop_last() =~= ops.take(i));
    lemma_op_blobs_prefix(ops, i + 1);
    let a = op_blobs(ops.take(i)).len() as int;
    let b = op_blobs(ops.take(i + 1)).len() as int;
    assert(bytes.subrange(40 + a, 40 + b) =~= op_blobs(ops).subrange(0, b).subrange(a, b));
    assert(op_blobs(ops.take(i + 1)).subrange(a, b) =~= blob(op_encoding(ops[i])));
}

/// The header of a fitting patch: its length, the count and the blobs.
#[verifier::rlimit(40)]
proof fn lemma_patch_header(
    bytes: Seq<u8>,
    state_type: u32,
    expected_pre_root: Hash32,
    ops: Seq<OpModel>,
    keys: Seq<Seq<ValueModel>>,
    limits: PatchDecodeLimits,
)
    requires
        patch_fits(bytes, state_type, expected_pre_root, ops, keys, limits),
    ensures
        bytes.len() >= 40,
        bytes.len() <= limits.max_input_bytes,
        bytes.subrange(36, 40) == be32(ops.len() as u32),
        bytes.subrange(40, bytes.len() as int) == op_blobs(ops),
        ops.len() <= limits.max_operations,
        ops.len() <= u32::MAX,
        keys.len() == ops.len(),
        ops_encodable(ops),
        patch_error(ops) is None,
        strictly_path_ordered(ops),
        ops_decodable(ops, keys, limits),
{
    reveal(patch_fits);
    expected_pre_root.lemma_len();
    assert(bytes.subrange(40, bytes.len() as int) =~= op_blobs(ops));
    assert(bytes.subrange(36, 40) =~= be32(ops.len() as u32));
}

/// What a fitting patch says of the operation at `index`: its blob stands
/// where the blobs before it end, it is encodable and it decodes.
#[verifier::rlimit(40)]
proof fn lemma_patch_step(
    bytes: Seq<u8>,
    state_type: u32,
    expected_pre_root: Hash32,
    ops: Seq<OpModel>,
    keys: Seq<Seq<ValueModel>>,
    limits: PatchDecodeLimits,
    index: int,
)
    requires
        patch_fits(bytes, state_type, expected_pre_root, ops, keys, limits),
        0 <= index < ops.len(),
    ensures
        op_blobs(ops.take(index + 1)) == op_blobs(ops.take(index)) + blob(op_encoding(ops[index])),
        40 + op_blobs(ops.take(index + 1)).len() <= bytes.len(),
        bytes.subrange(
            40 + op_blobs(ops.take(index)).len() as int,
            40 + op_blobs(ops.take(index + 1)).len() as int,
        ) == blob(op_encoding(ops[index])),
        op_encoding(ops[index]).len() <= u32::MAX,
        op_decodable(
            op_encoding(ops[index]),
            ops[index],
            keys[index],
            limits,
            patch_nodes(ops, keys, index as nat),
            patch_payload(ops, keys, index as nat),
        ),
{
    lemma_patch_header(bytes, state_type, expected_pre_root, ops, keys, limits);
    lemma_op_at(bytes, ops, index);
    assert(op_encodable(ops[index]));
    assert(op_decodable(
        op_encoding(ops[index]),
        ops[index],
        keys[index],
        limits,
        patch_nodes(ops, keys, index as nat),
        patch_payload(ops, keys, index as nat),
    )) by {
        reveal(ops_decodable);
    }
}

/// Rebuilds a patch from decoded operations and checks that its canonical
/// bytes are exactly the input.
fn rebuild_patch(bytes: &[u8], state_type: u32, expected_pre_root: Hash32, operations: Vec<PatchOp>) -> (decoded:
    Result<CanonicalPatch, PatchDecodeError>)
    ensures
        decoded matches Ok(patch) ==> patch.spec_encoding() == bytes@ && ops_encodable(patch.spec_operations())
            && patch.spec_operations().len() == operations@.len(),
        bytes@ == patch_encoding(state_type, expected_pre_root.spec_bytes(), op_models(operations@)) && patch_error(
            op_models(operations@),
        ) is None && strictly_path_ordered(op_models(operations@)) && ops_encodable(op_models(operations@))
            ==> decoded is Ok,
{
    let ghost models = op_models(operations@);
    let patch = match CanonicalPatch::try_new(state_type, expected_pre_root, operations) {
        Ok(patch) => patch,
        Err(error) => return Err(PatchDecodeError::Patch(error)),
    };
    let encoded = match patch.canonical_bytes() {
        Ok(encoded) => encoded,
        Err(error) => return Err(PatchDecodeError::Encode(error)),
    };
    if !bytes_equal(encoded.as_slice(), bytes) {
        return Err(PatchDecodeError::NonCanonical);
    }
    Ok(patch)
}

/// Strictly decodes one canonical patch under explicit bounds.
///
/// Every path, map key and value passes the strict decoders, the operations
/// are rebuilt through `CanonicalPatch::try_new`, and the rebuilt patch's
/// canonical bytes must equal the complete input: another operation order,
/// overlapping paths, malformed tags or flags, truncation and trailing bytes
/// all fail. Every canonical encoding of a valid patch within the limits
/// decodes.
#[verifier::rlimit(50)]
#[verifier::spinoff_prover]
pub fn decode_canonical_patch(bytes: &[u8], limits: PatchDecodeLimits) -> (decoded: Result<
    CanonicalPatch,
    PatchDecodeError,
>)
    ensures
        bytes@.len() > limits.max_input_bytes ==> decoded == Err::<CanonicalPatch, PatchDecodeError>(
            PatchDecodeError::InputLimit { limit: limits.max_input_bytes, actual: bytes@.len() as u64 },
        ),
        decoded matches Ok(patch) ==> patch.spec_encoding() == bytes@ && ops_encodable(patch.spec_operations())
            && patch.spec_operations().len() <= limits.max_operations,
        (exists|state_type: u32, root: Hash32, ops: Seq<OpModel>, keys: Seq<Seq<ValueModel>>|
            #[trigger] patch_fits(bytes@, state_type, root, ops, keys, limits)) ==> decoded is Ok,
{
    let ghost fits = exists|state_type: u32, root: Hash32, ops: Seq<OpModel>, keys: Seq<Seq<ValueModel>>|
        #[trigger] patch_fits(bytes@, state_type, root, ops, keys, limits);
    let ghost target = choose|state_type: u32, root: Hash32, ops: Seq<OpModel>, keys: Seq<Seq<ValueModel>>|
        #[trigger] patch_fits(bytes@, state_type, root, ops, keys, limits);
    let ghost tops = target.2;
    let ghost tkeys = target.3;
    let total: usize = bytes.len();
    proof {
        if fits {
            lemma_patch_header(bytes@, target.0, target.1, tops, tkeys, limits);
        }
    }
    let actual = bytes.len() as u64;
    if actual > limits.max_input_bytes {
        return Err(PatchDecodeError::InputLimit { limit: limits.max_input_bytes, actual });
    }
    let (state_type, p) = match read_u32(bytes, 0) {
        Ok(read) => read,
        Err(error) => return Err(patch_wire_error(error)),
    };
    let (expected_pre_root, q) = match read_hash(bytes, p) {
        Ok(read) => read,
        Err(error) => return Err(patch_wire_error(error)),
    };
    let (count, first) = match read_u32(bytes, q) {
        Ok(read) => read,
        Err(error) => return Err(patch_wire_error(error)),
    };
    proof {
        if fits {
            crate::encode::lemma_be32_injective(count, tops.len() as u32);
        }
    }
    if count > limits.max_operations {
        return Err(PatchDecodeError::OperationLimit { limit: limits.max_operations, actual: count });
    }
    let capacity = match initial_collection_capacity(count, total - first, 4) {
        Ok(capacity) => capacity,
        Err(error) => return Err(error),
    };
    let mut state = PatchDecodeState { value_nodes: 0, value_payload_bytes: 0 };
    let mut operations: Vec<PatchOp> = Vec::with_capacity(capacity);
    let mut cur = first;
    let mut index: u32 = 0;
    while index < count
        invariant
            first == 40,
            cur <= bytes@.len(),
            total == bytes@.len(),
            index <= count,
            operations@.len() == index,
            bytes@.len() <= limits.max_input_bytes,
            fits == exists|state_type: u32, root: Hash32, ops: Seq<OpModel>, keys: Seq<Seq<ValueModel>>|
                #[trigger] patch_fits(bytes@, state_type, root, ops, keys, limits),
            tops == target.2,
            tkeys == target.3,
            fits ==> patch_fits(bytes@, target.0, target.1, tops, tkeys, limits),
            fits ==> count == tops.len(),
            fits ==> cur == 40 + op_blobs(tops.take(index as int)).len(),
            fits ==> state.value_nodes == patch_nodes(tops, tkeys, index as nat),
            fits ==> state.value_payload_bytes == patch_payload(tops, tkeys, index as nat),
            fits ==> op_models(operations@) == tops.take(index as int),
        decreases count - index,
    {
        let ghost t = tops[index as int];
        let ghost before = operations@;
        proof {
            if fits {
                lemma_patch_step(bytes@, target.0, target.1, tops, tkeys, limits, index as int);
                crate::wire::lemma_blob_fits(bytes@, cur as int, op_encoding(t));
            }
        }
        let (start, end) = match read_blob(bytes, cur) {
            Ok(read) => read,
            Err(error) => return Err(patch_wire_error(error)),
        };
        proof {
            if fits {
                assert(bytes@.subrange(start as int, end as int) == op_encoding(t));
            }
        }
        let operation = match decode_patch_operation(
            vstd::slice::slice_subrange(bytes, start, end),
            &limits,
            &mut state,
            Ghost((t, tkeys[index as int])),
        ) {
            Ok(operation) => operation,
            Err(error) => return Err(error),
        };
        operations.push(operation);
        proof {
            if fits {
                assert(tops.take(index + 1).drop_last() =~= tops.take(index as int));
                assert(op_models(operations@) =~= tops.take(index + 1));
            }
        }
        cur = end;
        index = index + 1;
    }
    proof {
        if fits {
            assert(tops.take(tops.len() as int) =~= tops);
            lemma_patch_header(bytes@, target.0, target.1, tops, tkeys, limits);
        }
    }
    if cur != total {
        return Err(PatchDecodeError::TrailingBytes { offset: cur });
    }
    proof {
        if fits {
            assert(bytes@ =~= bytes@.subrange(0, 4) + bytes@.subrange(4, 36) + bytes@.subrange(36, 40)
                + bytes@.subrange(40, bytes@.len() as int));
            assert(bytes@ == patch_encoding(state_type, expected_pre_root.spec_bytes(), op_models(operations@)));
        }
    }
    rebuild_patch(bytes, state_type, expected_pre_root, operations)
}

impl CanonicalPatch {
    /// A copy of the patch.
    pub fn duplicate(&self) -> (copy: Self)
        ensures
            copy.spec_state_type() == self.spec_state_type(),
            copy.spec_expected_pre_root() == self.spec_expected_pre_root(),
            copy.spec_operations() == self.spec_operations(),
    {
        proof {
            use_type_invariant(self);
        }
        let mut operations: Vec<PatchOp> = Vec::new();
        let mut index: usize = 0;
        while index < self.operations.len()
            invariant
                index <= self.operations@.len(),
                operations@.len() == index,
                forall|i: int| 0 <= i < index ==> #[trigger] operations@[i]@ == self.operations@[i]@,
            decreases self.operations@.len() - index,
        {
            operations.push(self.operations[index].duplicate());
            index = index + 1;
        }
        assert(op_models(operations@) =~= op_models(self.operations@));
        CanonicalPatch { state_type: self.state_type, expected_pre_root: self.expected_pre_root, operations }
    }
}

impl Clone for CanonicalPatch {
    fn clone(&self) -> (copy: Self)
        ensures
            copy.spec_state_type() == self.spec_state_type(),
            copy.spec_expected_pre_root() == self.spec_expected_pre_root(),
            copy.spec_operations() == self.spec_operations(),
    {
        self.duplicate()
    }
}

} // verus!

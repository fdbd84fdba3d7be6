//! Merging compatible patches under one unchanged pre-state.
//!
//! Two patches merge when they bind the same state type and pre-root and no
//! operation of one targets the path of a different operation of the other,
//! or an ancestor or descendant of it. A refused merge names one canonical
//! witness: the conflict whose canonical key is least.

use vstd::prelude::*;

use crate::commit::Hash32;
use crate::encode::{be16, be32, blob, put_u32_blob, put_u8, EncodeError};
use crate::value::{bytes_less, bytes_lt, Value};

use super::{
    is_prefix, op_encodable, op_encoding, segment_encoding, segments_encoding, op_models, op_parts_fit, path_encodable, path_encoding, reorders,
    ops_in_path_order, ops_well_shaped, patch_error, is_reordering, strictly_path_ordered, paths_disjoint, paths_encodable, paths_overlap, CanonicalPatch, OpModel, PatchError, PatchOp, SegmentModel, ValuePath,
};

verus! {

broadcast use Hash32::lemma_len;

/// Why two patch operations cannot coexist.
#[derive(Clone, Copy, Debug, PartialEq, Eq, Structural, PartialOrd, Ord, Hash)]
pub enum PatchOperationConflictKind {
    /// Two different operations target the same path.
    SamePathDifferentOperation,
    /// One operation targets an ancestor of the other's path.
    AncestorDescendantOverlap,
}

impl PatchOperationConflictKind {
    /// The stable wire tag.
    pub open spec fn spec_tag(self) -> u8 {
        match self {
            PatchOperationConflictKind::SamePathDifferentOperation => 0u8,
            PatchOperationConflictKind::AncestorDescendantOverlap => 1u8,
        }
    }

    /// Returns the stable wire tag.
    pub fn tag(self) -> (tag: u8)
        ensures
            tag == self.spec_tag(),
    {
        match self {
            PatchOperationConflictKind::SamePathDifferentOperation => 0,
            PatchOperationConflictKind::AncestorDescendantOverlap => 1,
        }
    }
}

/// The canonical witness of a refused merge.
#[derive(Clone, Debug, PartialEq, Eq)]
pub enum PatchMergeConflict {
    /// The patches describe different state types.
    StateTypeMismatch {
        /// The smaller state type.
        first: u32,
        /// The larger state type.
        second: u32,
    },
    /// The patches are bound to different pre-states.
    ExpectedPreRootMismatch {
        /// The smaller pre-root.
        first: Hash32,
        /// The larger pre-root.
        second: Hash32,
    },
    /// Two operations cannot coexist.
    Operation {
        /// How their paths conflict.
        kind: PatchOperationConflictKind,
        /// Their longest common path prefix.
        common_prefix: ValuePath,
        /// The operation with the smaller canonical bytes.
        first: PatchOp,
        /// The other operation.
        second: PatchOp,
    },
}

/// The content of a merge conflict.
pub enum ConflictModel {
    /// See [`PatchMergeConflict::StateTypeMismatch`].
    StateTypeMismatch { first: u32, second: u32 },
    /// See [`PatchMergeConflict::ExpectedPreRootMismatch`].
    ExpectedPreRootMismatch { first: Hash32, second: Hash32 },
    /// See [`PatchMergeConflict::Operation`].
    Operation {
        kind: PatchOperationConflictKind,
        common_prefix: Seq<SegmentModel>,
        first: OpModel,
        second: OpModel,
    },
}

impl View for PatchMergeConflict {
    type V = ConflictModel;

    open spec fn view(&self) -> ConflictModel {
        match self {
            PatchMergeConflict::StateTypeMismatch { first, second } => ConflictModel::StateTypeMismatch {
                first: *first,
                second: *second,
            },
            PatchMergeConflict::ExpectedPreRootMismatch { first, second } => ConflictModel::ExpectedPreRootMismatch {
                first: *first,
                second: *second,
            },
            PatchMergeConflict::Operation { kind, common_prefix, first, second } => ConflictModel::Operation {
                kind: *kind,
                common_prefix: common_prefix@,
                first: first@,
                second: second@,
            },
        }
    }
}

/// Why a merge was refused.
#[derive(Debug, PartialEq, Eq)]
pub enum PatchMergeError {
    /// A canonical witness does not fit the wire format.
    Encode(EncodeError),
    /// Building the merged patch failed.
    Patch(PatchError),
    /// The patches are incompatible.
    Conflict(Box<PatchMergeConflict>),
}

impl PatchMergeError {
    /// A short description of the failure.
    pub fn message(&self) -> (text: &'static str)
        ensures
            text == (match *self {
                PatchMergeError::Encode(_) => "merge witness exceeds the wire format",
                PatchMergeError::Patch(_) => "merged patch construction failed",
                PatchMergeError::Conflict(conflict) => match *conflict {
                    PatchMergeConflict::StateTypeMismatch { .. } => "patch state types differ",
                    PatchMergeConflict::ExpectedPreRootMismatch { .. } => "patch pre-roots differ",
                    PatchMergeConflict::Operation { kind, .. } => match kind {
                        PatchOperationConflictKind::SamePathDifferentOperation => {
                            "different patch operations target the same path"
                        },
                        PatchOperationConflictKind::AncestorDescendantOverlap => "patch operation paths overlap",
                    },
                },
            }),
    {
        match self {
            PatchMergeError::Encode(_) => "merge witness exceeds the wire format",
            PatchMergeError::Patch(_) => "merged patch construction failed",
            PatchMergeError::Conflict(conflict) => match &**conflict {
                PatchMergeConflict::StateTypeMismatch { .. } => "patch state types differ",
                PatchMergeConflict::ExpectedPreRootMismatch { .. } => "patch pre-roots differ",
                PatchMergeConflict::Operation { kind, .. } => match kind {
                    PatchOperationConflictKind::SamePathDifferentOperation => {
                        "different patch operations target the same path"
                    },
                    PatchOperationConflictKind::AncestorDescendantOverlap => "patch operation paths overlap",
                },
            },
        }
    }
}

// ---------------------------------------------------------------------------
// What conflicts, and which conflict is named.
// ---------------------------------------------------------------------------

/// The segments both paths begin with, as many as they share.
pub open spec fn shares_exactly(a: Seq<SegmentModel>, b: Seq<SegmentModel>, k: int) -> bool {
    &&& 0 <= k <= a.len()
    &&& k <= b.len()
    &&& a.take(k) == b.take(k)
    &&& (k == a.len() || k == b.len() || a[k] != b[k])
}

/// The longest common prefix of two paths.
pub open spec fn common_path(a: Seq<SegmentModel>, b: Seq<SegmentModel>) -> Seq<SegmentModel> {
    a.take(choose|k: int| shares_exactly(a, b, k))
}

/// Exactly one length is shared exactly, and it gives the common path.
pub proof fn lemma_common_path(a: Seq<SegmentModel>, b: Seq<SegmentModel>, k: int)
    requires
        shares_exactly(a, b, k),
    ensures
        common_path(a, b) == a.take(k),
        common_path(a, b) == b.take(k),
{
    let c = choose|k: int| shares_exactly(a, b, k);
    assert(shares_exactly(a, b, c));
    if c < k {
        assert(a.take(k)[c] == a[c]);
        assert(b.take(k)[c] == b[c]);
    } else if k < c {
        assert(a.take(c)[k] == a[k]);
        assert(b.take(c)[k] == b[k]);
    }
}

/// Some length is shared exactly.
proof fn lemma_shared_length(a: Seq<SegmentModel>, b: Seq<SegmentModel>, k: int) -> (n: int)
    requires
        0 <= k <= a.len(),
        k <= b.len(),
        a.take(k) == b.take(k),
    ensures
        shares_exactly(a, b, n),
    decreases a.len() - k,
{
    if k < a.len() && k < b.len() && a[k] == b[k] {
        assert(a.take(k + 1) =~= a.take(k).push(a[k]));
        assert(b.take(k + 1) =~= b.take(k).push(b[k]));
        lemma_shared_length(a, b, k + 1)
    } else {
        k
    }
}

/// The common path does not depend on the order of the two paths.
pub proof fn lemma_common_path_symmetric(a: Seq<SegmentModel>, b: Seq<SegmentModel>)
    ensures
        common_path(a, b) == common_path(b, a),
{
    assert(a.take(0) =~= b.take(0));
    let k = lemma_shared_length(a, b, 0);
    assert(shares_exactly(b, a, k));
    lemma_common_path(a, b, k);
    lemma_common_path(b, a, k);
}

/// How two operations conflict, if they do.
pub open spec fn op_conflict(left: OpModel, right: OpModel) -> Option<PatchOperationConflictKind> {
    if left.path() == right.path() {
        if left != right {
            Some(PatchOperationConflictKind::SamePathDifferentOperation)
        } else {
            None
        }
    } else if is_prefix(left.path(), right.path()) || is_prefix(right.path(), left.path()) {
        Some(PatchOperationConflictKind::AncestorDescendantOverlap)
    } else {
        None
    }
}

/// The operation whose canonical bytes are not greater.
pub open spec fn first_of(left: OpModel, right: OpModel) -> OpModel {
    if bytes_lt(op_encoding(right), op_encoding(left)) {
        right
    } else {
        left
    }
}

/// The other operation.
pub open spec fn second_of(left: OpModel, right: OpModel) -> OpModel {
    if bytes_lt(op_encoding(right), op_encoding(left)) {
        left
    } else {
        right
    }
}

/// The witness of two conflicting operations.
pub open spec fn operation_witness(kind: PatchOperationConflictKind, left: OpModel, right: OpModel) -> ConflictModel {
    ConflictModel::Operation {
        kind,
        common_prefix: common_path(first_of(left, right).path(), second_of(left, right).path()),
        first: first_of(left, right),
        second: second_of(left, right),
    }
}

/// A witness of two conflicting operations fits the wire format.
pub open spec fn witness_encodable(left: OpModel, right: OpModel) -> bool {
    &&& op_encodable(left)
    &&& op_encodable(right)
    &&& path_encodable(common_path(first_of(left, right).path(), second_of(left, right).path()))
}

/// The key that orders witnesses: the common prefix, the kind, then both
/// length-prefixed operations.
pub open spec fn witness_key(kind: PatchOperationConflictKind, left: OpModel, right: OpModel) -> Seq<u8> {
    path_encoding(common_path(first_of(left, right).path(), second_of(left, right).path())) + seq![kind.spec_tag()]
        + blob(op_encoding(first_of(left, right))) + blob(op_encoding(second_of(left, right)))
}

/// Operation `i` of the first patch and `j` of the second conflict.
pub open spec fn conflicts_at(a: Seq<OpModel>, b: Seq<OpModel>, i: int, j: int) -> bool {
    0 <= i < a.len() && 0 <= j < b.len() && op_conflict(a[i], b[j]) is Some
}

/// The key of the conflict at `(i, j)`.
pub open spec fn key_at(a: Seq<OpModel>, b: Seq<OpModel>, i: int, j: int) -> Seq<u8> {
    witness_key(op_conflict(a[i], b[j])->0, a[i], b[j])
}

/// Some pair of operations conflicts.
pub open spec fn some_conflict(a: Seq<OpModel>, b: Seq<OpModel>) -> bool {
    exists|i: int, j: int| #[trigger] conflicts_at(a, b, i, j)
}

/// Some conflicting pair has a witness that does not fit the wire format.
pub open spec fn unencodable_conflict(a: Seq<OpModel>, b: Seq<OpModel>) -> bool {
    exists|i: int, j: int| #[trigger] conflicts_at(a, b, i, j) && !witness_encodable(a[i], b[j])
}

/// Pair `(p, q)` comes before pair `(i, j)` when the first patch's
/// operations are taken in turn against each of the second's.
pub open spec fn pair_before(p: int, q: int, i: int, j: int) -> bool {
    p < i || (p == i && q < j)
}

/// The conflict at `(i, j)` is the one named: its key is least, and no
/// earlier conflict has the same key.
pub open spec fn named_conflict(a: Seq<OpModel>, b: Seq<OpModel>, i: int, j: int) -> bool {
    &&& conflicts_at(a, b, i, j)
    &&& forall|p: int, q: int| #[trigger] conflicts_at(a, b, p, q) ==> !bytes_lt(key_at(a, b, p, q), key_at(a, b, i, j))
    &&& forall|p: int, q: int| #[trigger] conflicts_at(a, b, p, q) && pair_before(p, q, i, j) ==> key_at(a, b, p, q)
        != key_at(a, b, i, j)
}

/// The operations of a merge: the first patch's, then each of the
/// second's not already among them.
pub open spec fn merged_ops(a: Seq<OpModel>, b: Seq<OpModel>) -> Seq<OpModel>
    decreases b.len(),
{
    if b.len() == 0 {
        a
    } else {
        let prev = merged_ops(a, b.drop_last());
        if prev.contains(b.last()) {
            prev
        } else {
            prev.push(b.last())
        }
    }
}

/// The smaller and larger of two state types.
pub open spec fn state_type_witness(a: u32, b: u32) -> ConflictModel {
    if a <= b {
        ConflictModel::StateTypeMismatch { first: a, second: b }
    } else {
        ConflictModel::StateTypeMismatch { first: b, second: a }
    }
}

/// The smaller and larger of two pre-roots.
pub open spec fn pre_root_witness(a: Hash32, b: Hash32) -> ConflictModel {
    if a.spec_key() <= b.spec_key() {
        ConflictModel::ExpectedPreRootMismatch { first: a, second: b }
    } else {
        ConflictModel::ExpectedPreRootMismatch { first: b, second: a }
    }
}

/// The witness a refused merge carries, if it is refused for a conflict.
pub open spec fn conflict_of(result: Result<CanonicalPatch, PatchMergeError>) -> Option<ConflictModel> {
    match result {
        Err(PatchMergeError::Conflict(c)) => Some(c@),
        _ => None,
    }
}

// ---------------------------------------------------------------------------
// Executable steps.
// ---------------------------------------------------------------------------

impl PatchOp {
    /// Whether two operations are the same.
    pub fn same_as(&self, other: &PatchOp) -> (same: bool)
        ensures
            same == (self@ == other@),
    {
        match (self, other) {
            (
                PatchOp::Insert { path: p1, map_key: k1, value: v1 },
                PatchOp::Insert { path: p2, map_key: k2, value: v2 },
            ) => {
                if !p1.same_as(p2) || !v1.same_as(v2) {
                    return false;
                }
                match (k1, k2) {
                    (None, None) => true,
                    (Some(a), Some(b)) => a.same_as(b),
                    _ => false,
                }
            },
            (
                PatchOp::Update { path: p1, expected_old_hash: h1, value: v1 },
                PatchOp::Update { path: p2, expected_old_hash: h2, value: v2 },
            ) => {
                let same_hash = crate::receipt::same_hash(*h1, *h2);
                proof {
                    if h1.spec_bytes() == h2.spec_bytes() {
                        h1.lemma_bytes_injective(*h2);
                    }
                }
                p1.same_as(p2) && same_hash && v1.same_as(v2)
            },
            (
                PatchOp::Delete { path: p1, expected_old_hash: h1 },
                PatchOp::Delete { path: p2, expected_old_hash: h2 },
            ) => {
                let same_hash = crate::receipt::same_hash(*h1, *h2);
                proof {
                    if h1.spec_bytes() == h2.spec_bytes() {
                        h1.lemma_bytes_injective(*h2);
                    }
                }
                p1.same_as(p2) && same_hash
            },
            _ => false,
        }
    }
}

fn conflict_kind(left: &PatchOp, right: &PatchOp) -> (kind: Option<PatchOperationConflictKind>)
    ensures
        kind == op_conflict(left@, right@),
{
    if left.path().same_as(right.path()) {
        if !left.same_as(right) {
            Some(PatchOperationConflictKind::SamePathDifferentOperation)
        } else {
            None
        }
    } else if left.path().is_prefix_of(right.path()) || right.path().is_prefix_of(left.path()) {
        Some(PatchOperationConflictKind::AncestorDescendantOverlap)
    } else {
        None
    }
}

fn ordered_ops(left: &PatchOp, right: &PatchOp, left_bytes: Vec<u8>, right_bytes: Vec<u8>) -> (ordered: (
    PatchOp,
    PatchOp,
    Vec<u8>,
    Vec<u8>,
))
    requires
        left_bytes@ == op_encoding(left@),
        right_bytes@ == op_encoding(right@),
    ensures
        ordered.0@ == first_of(left@, right@),
        ordered.1@ == second_of(left@, right@),
        ordered.2@ == op_encoding(first_of(left@, right@)),
        ordered.3@ == op_encoding(second_of(left@, right@)),
{
    if !bytes_less(right_bytes.as_slice(), left_bytes.as_slice()) {
        (left.duplicate(), right.duplicate(), left_bytes, right_bytes)
    } else {
        (right.duplicate(), left.duplicate(), right_bytes, left_bytes)
    }
}

fn witness_key_bytes(
    kind: PatchOperationConflictKind,
    common_prefix: &ValuePath,
    first_bytes: &[u8],
    second_bytes: &[u8],
) -> (key: Result<Vec<u8>, EncodeError>)
    ensures
        key is Ok <==> path_encodable(common_prefix@) && first_bytes@.len() <= u32::MAX && second_bytes@.len()
            <= u32::MAX,
        key matches Ok(k) ==> k@ == path_encoding(common_prefix@) + seq![kind.spec_tag()] + blob(first_bytes@) + blob(
            second_bytes@,
        ),
{
    let mut key = match common_prefix.canonical_bytes() {
        Ok(b) => b,
        Err(e) => return Err(e),
    };
    put_u8(&mut key, kind.tag());
    match put_u32_blob(&mut key, first_bytes) {
        Ok(()) => {},
        Err(e) => return Err(e),
    }
    match put_u32_blob(&mut key, second_bytes) {
        Ok(()) => {},
        Err(e) => return Err(e),
    }
    Ok(key)
}

fn operation_witness_of(kind: PatchOperationConflictKind, left: &PatchOp, right: &PatchOp) -> (witness: Result<
    (Vec<u8>, PatchMergeConflict),
    EncodeError,
>)
    ensures
        witness is Ok <==> witness_encodable(left@, right@),
        witness matches Ok((key, c)) ==> key@ == witness_key(kind, left@, right@) && c@ == operation_witness(
            kind,
            left@,
            right@,
        ),
{
    let left_bytes = match left.canonical_bytes() {
        Ok(b) => b,
        Err(e) => return Err(e),
    };
    let right_bytes = match right.canonical_bytes() {
        Ok(b) => b,
        Err(e) => return Err(e),
    };
    let (first, second, first_bytes, second_bytes) = ordered_ops(left, right, left_bytes, right_bytes);
    let common_prefix = first.path().common_prefix(second.path());
    proof {
        lemma_common_path(first@.path(), second@.path(), common_prefix@.len() as int);
    }
    let key = match witness_key_bytes(kind, &common_prefix, first_bytes.as_slice(), second_bytes.as_slice()) {
        Ok(k) => k,
        Err(e) => return Err(e),
    };
    Ok((key, PatchMergeConflict::Operation { kind, common_prefix, first, second }))
}

/// Finds the named conflict between two operation lists, if any.
fn find_conflict(left: &[PatchOp], right: &[PatchOp]) -> (found: Result<Option<PatchMergeConflict>, EncodeError>)
    ensures
        found is Err <==> unencodable_conflict(op_models(left@), op_models(right@)),
        found matches Ok(None) ==> !some_conflict(op_models(left@), op_models(right@)),
        found matches Ok(Some(c)) ==> exists|i: int, j: int|
            named_conflict(op_models(left@), op_models(right@), i, j) && c@ == operation_witness(
                op_conflict(op_models(left@)[i], op_models(right@)[j])->0,
                op_models(left@)[i],
                op_models(right@)[j],
            ),
{
    let ghost a = op_models(left@);
    let ghost b = op_models(right@);
    let mut best: Option<(Vec<u8>, PatchMergeConflict)> = None;
    let ghost mut bi: int = 0;
    let ghost mut bj: int = 0;
    let mut i: usize = 0;
    while i < left.len()
        invariant
            i <= left@.len(),
            a == op_models(left@),
            b == op_models(right@),
            forall|p: int, q: int| #[trigger] conflicts_at(a, b, p, q) && p < i ==> witness_encodable(a[p], b[q]),
            best is None ==> forall|p: int, q: int| #[trigger] conflicts_at(a, b, p, q) ==> p >= i,
            best matches Some((key, c)) ==> {
                &&& conflicts_at(a, b, bi, bj)
                &&& bi < i
                &&& key@ == key_at(a, b, bi, bj)
                &&& c@ == operation_witness(op_conflict(a[bi], b[bj])->0, a[bi], b[bj])
                &&& forall|p: int, q: int| #[trigger] conflicts_at(a, b, p, q) && p < i ==> !bytes_lt(
                    key_at(a, b, p, q),
                    key@,
                )
                &&& forall|p: int, q: int| #[trigger] conflicts_at(a, b, p, q) && pair_before(p, q, bi, bj)
                    ==> key_at(a, b, p, q) != key@
            },
        decreases left@.len() - i,
    {
        let mut j: usize = 0;
        while j < right.len()
            invariant
                i < left@.len(),
                j <= right@.len(),
                a == op_models(left@),
                b == op_models(right@),
                forall|p: int, q: int| #[trigger] conflicts_at(a, b, p, q) && pair_before(p, q, i as int, j as int)
                    ==> witness_encodable(a[p], b[q]),
                best is None ==> forall|p: int, q: int| #[trigger] conflicts_at(a, b, p, q) ==> !pair_before(
                    p,
                    q,
                    i as int,
                    j as int,
                ),
                best matches Some((key, c)) ==> {
                    &&& conflicts_at(a, b, bi, bj)
                    &&& pair_before(bi, bj, i as int, j as int)
                    &&& key@ == key_at(a, b, bi, bj)
                    &&& c@ == operation_witness(op_conflict(a[bi], b[bj])->0, a[bi], b[bj])
                    &&& forall|p: int, q: int| #[trigger] conflicts_at(a, b, p, q) && pair_before(
                        p,
                        q,
                        i as int,
                        j as int,
                    ) ==> !bytes_lt(key_at(a, b, p, q), key@)
                    &&& forall|p: int, q: int| #[trigger] conflicts_at(a, b, p, q) && pair_before(p, q, bi, bj)
                        ==> key_at(a, b, p, q) != key@
                },
            decreases right@.len() - j,
        {
            assert(a[i as int] == left@[i as int]@);
            assert(b[j as int] == right@[j as int]@);
            match conflict_kind(&left[i], &right[j]) {
                None => {
                    assert(!conflicts_at(a, b, i as int, j as int));
                },
                Some(kind) => {
                    assert(conflicts_at(a, b, i as int, j as int));
                    let (key, conflict) = match operation_witness_of(kind, &left[i], &right[j]) {
                        Ok(w) => w,
                        Err(e) => {
                            assert(conflicts_at(a, b, i as int, j as int) && !witness_encodable(
                                a[i as int],
                                b[j as int],
                            ));
                            return Err(e);
                        },
                    };
                    let replace = match &best {
                        None => true,
                        Some((best_key, _)) => bytes_less(key.as_slice(), best_key.as_slice()),
                    };
                    if replace {
                        proof {
                            match best {
                                None => {},
                                Some((old_key, _)) => {
                                    assert forall|p: int, q: int| #[trigger]
                                        conflicts_at(a, b, p, q) && pair_before(p, q, i as int, j as int)
                                        implies !bytes_lt(key_at(a, b, p, q), key@) by {
                                        if bytes_lt(key_at(a, b, p, q), key@) {
                                            crate::patch::lemma_bytes_lt_transitive(
                                                key_at(a, b, p, q),
                                                key@,
                                                old_key@,
                                            );
                                        }
                                    }
                                    assert forall|p: int, q: int| #[trigger]
                                        conflicts_at(a, b, p, q) && pair_before(p, q, i as int, j as int)
                                        implies key_at(a, b, p, q) != key@ by {
                                        if key_at(a, b, p, q) == key@ {
                                            assert(bytes_lt(key_at(a, b, p, q), old_key@));
                                        }
                                    }
                                },
                            }
                            bi = i as int;
                            bj = j as int;
                        }
                        best = Some((key, conflict));
                    }
                },
            }
            j = j + 1;
        }
        i = i + 1;
    }
    match best {
        None => Ok(None),
        Some((key, conflict)) => {
            assert(named_conflict(a, b, bi, bj));
            Ok(Some(conflict))
        },
    }
}

fn contains_op(ops: &Vec<PatchOp>, op: &PatchOp) -> (found: bool)
    ensures
        found == op_models(ops@).contains(op@),
{
    let mut index: usize = 0;
    while index < ops.len()
        invariant
            index <= ops@.len(),
            forall|k: int| 0 <= k < index ==> ops@[k]@ != op@,
        decreases ops@.len() - index,
    {
        if ops[index].same_as(op) {
            assert(op_models(ops@)[index as int] == op@);
            return true;
        }
        index = index + 1;
    }
    proof {
        if op_models(ops@).contains(op@) {
            let k = choose|k: int| 0 <= k < op_models(ops@).len() && op_models(ops@)[k] == op@;
            assert(ops@[k]@ == op@);
        }
    }
    false
}

fn merged_operations(left: &[PatchOp], right: &[PatchOp]) -> (merged: Vec<PatchOp>)
    ensures
        op_models(merged@) == merged_ops(op_models(left@), op_models(right@)),
{
    let ghost a = op_models(left@);
    let ghost b = op_models(right@);
    let mut merged: Vec<PatchOp> = Vec::new();
    let mut index: usize = 0;
    while index < left.len()
        invariant
            index <= left@.len(),
            merged@.len() == index,
            op_models(merged@) == a.take(index as int),
            a == op_models(left@),
        decreases left@.len() - index,
    {
        let ghost before = merged@;
        merged.push(left[index].duplicate());
        assert(merged@[index as int]@ == a[index as int]);
        assert forall|k: int| 0 <= k < index implies merged@[k]@ == a[k] by {
            assert(merged@[k] == before[k]);
            assert(op_models(before)[k] == a.take(index as int)[k]);
        }
        index = index + 1;
        assert(op_models(merged@) =~= a.take(index as int));
    }
    assert(a.take(a.len() as int) =~= a);
    let mut index: usize = 0;
    while index < right.len()
        invariant
            index <= right@.len(),
            a == op_models(left@),
            b == op_models(right@),
            op_models(merged@) == merged_ops(a, b.take(index as int)),
        decreases right@.len() - index,
    {
        proof {
            let next = b.take(index + 1);
            assert(next.drop_last() =~= b.take(index as int));
            assert(next.last() == right@[index as int]@);
        }
        if !contains_op(&merged, &right[index]) {
            let ghost before = op_models(merged@);
            merged.push(right[index].duplicate());
            assert(op_models(merged@) =~= before.push(right@[index as int]@));
        }
        index = index + 1;
    }
    assert(b.take(b.len() as int) =~= b);
    merged
}

impl CanonicalPatch {
    /// Merges compatible operations under one unchanged pre-state.
    ///
    /// Different state types, then different pre-roots, are refused with
    /// the pair in canonical order. Otherwise every pair of conflicting
    /// operations is considered; if a witness of one does not fit the wire
    /// format the merge fails to encode, and otherwise the witness with the
    /// least key is named. Compatible patches merge into the canonical
    /// patch of the first's operations and the second's new ones. Merging
    /// creates data only and grants no authority.
    pub fn merge(&self, other: &Self) -> (merged: Result<Self, PatchMergeError>)
        ensures
            self.spec_state_type() != other.spec_state_type() ==> conflict_of(merged) == Some(
                state_type_witness(self.spec_state_type(), other.spec_state_type()),
            ),
            self.spec_state_type() == other.spec_state_type() && self.spec_expected_pre_root()
                != other.spec_expected_pre_root() ==> conflict_of(merged) == Some(
                pre_root_witness(self.spec_expected_pre_root(), other.spec_expected_pre_root()),
            ),
            self.spec_state_type() == other.spec_state_type() && self.spec_expected_pre_root()
                == other.spec_expected_pre_root() ==> {
                let a = self.spec_operations();
                let b = other.spec_operations();
                &&& unencodable_conflict(a, b) ==> merged == Err::<Self, PatchMergeError>(
                    PatchMergeError::Encode(EncodeError::LengthOverflow),
                )
                &&& !unencodable_conflict(a, b) && some_conflict(a, b) ==> exists|i: int, j: int|
                    named_conflict(a, b, i, j) && conflict_of(merged) == Some(
                        operation_witness(op_conflict(a[i], b[j])->0, a[i], b[j]),
                    )
                &&& !some_conflict(a, b) ==> match patch_error(merged_ops(a, b)) {
                    Some(e) => merged == Err::<Self, PatchMergeError>(PatchMergeError::Patch(e)),
                    None => merged matches Ok(p) && p.spec_state_type() == self.spec_state_type()
                        && p.spec_expected_pre_root() == self.spec_expected_pre_root() && reorders(
                        p.spec_operations(),
                        merged_ops(a, b),
                    ) && ops_in_path_order(p.spec_operations()),
                }
            },
    {
        if self.state_type != other.state_type {
            let (first, second) = if self.state_type <= other.state_type {
                (self.state_type, other.state_type)
            } else {
                (other.state_type, self.state_type)
            };
            return Err(PatchMergeError::Conflict(Box::new(PatchMergeConflict::StateTypeMismatch { first, second })));
        }
        if !crate::receipt::same_hash(self.expected_pre_root, other.expected_pre_root) {
            let (first, second) = if !other.expected_pre_root.key_less(&self.expected_pre_root) {
                (self.expected_pre_root, other.expected_pre_root)
            } else {
                (other.expected_pre_root, self.expected_pre_root)
            };
            return Err(
                PatchMergeError::Conflict(Box::new(PatchMergeConflict::ExpectedPreRootMismatch { first, second })),
            );
        }
        match find_conflict(self.operations(), other.operations()) {
            Err(e) => {
                assert(e == EncodeError::LengthOverflow);
                return Err(PatchMergeError::Encode(e));
            },
            Ok(Some(conflict)) => {
                return Err(PatchMergeError::Conflict(Box::new(conflict)));
            },
            Ok(None) => {},
        }
        let operations = merged_operations(self.operations(), other.operations());
        match CanonicalPatch::try_new(self.state_type, self.expected_pre_root, operations) {
            Ok(p) => Ok(p),
            Err(e) => Err(PatchMergeError::Patch(e)),
        }
    }
}

// ---------------------------------------------------------------------------
// Symmetry of conflict witnesses.
// ---------------------------------------------------------------------------

proof fn lemma_first_difference(a: Seq<u8>, b: Seq<u8>, i: int)
    requires
        a != b,
        0 <= i <= a.len(),
        i <= b.len(),
        a.take(i) == b.take(i),
    ensures
        bytes_lt(a, b) || bytes_lt(b, a),
    decreases a.len() - i,
{
    if i == a.len() && i == b.len() {
        assert(a =~= a.take(i));
        assert(b =~= b.take(i));
    } else if i == a.len() {
        assert(a.take(i) == b.take(i));
    } else if i == b.len() {
        assert(b.take(i) == a.take(i));
    } else if a[i] != b[i] {
        assert(a.take(i) == b.take(i));
        assert(b.take(i) == a.take(i));
    } else {
        assert(a.take(i + 1) =~= a.take(i).push(a[i]));
        assert(b.take(i + 1) =~= b.take(i).push(b[i]));
        lemma_first_difference(a, b, i + 1);
    }
}

/// Distinct byte strings are ordered one way or the other.
pub proof fn lemma_bytes_lt_total(a: Seq<u8>, b: Seq<u8>)
    requires
        a != b,
    ensures
        bytes_lt(a, b) || bytes_lt(b, a),
{
    assert(a.take(0) =~= b.take(0));
    lemma_first_difference(a, b, 0);
}

/// A state-type conflict names the same two state types whichever patch
/// comes first.
pub proof fn lemma_state_type_witness_symmetric(a: u32, b: u32)
    ensures
        state_type_witness(a, b) == state_type_witness(b, a),
{
}

/// A pre-root conflict names the same two roots whichever patch comes first.
pub proof fn lemma_pre_root_witness_symmetric(a: Hash32, b: Hash32)
    ensures
        pre_root_witness(a, b) == pre_root_witness(b, a),
{
    if a.spec_key() == b.spec_key() {
        a.lemma_key_injective(b);
    }
}

/// Two operations conflict in the same way whichever comes first, and when
/// their encodings differ their conflict names the same witness.
pub proof fn lemma_operation_witness_symmetric(left: OpModel, right: OpModel)
    requires
        op_encoding(left) != op_encoding(right),
    ensures
        op_conflict(left, right) == op_conflict(right, left),
        op_conflict(left, right) matches Some(kind) ==> operation_witness(kind, left, right) == operation_witness(
            kind,
            right,
            left,
        ),
{
    lemma_bytes_lt_total(op_encoding(left), op_encoding(right));
    if bytes_lt(op_encoding(left), op_encoding(right)) && bytes_lt(op_encoding(right), op_encoding(left)) {
        crate::patch::lemma_bytes_lt_transitive(op_encoding(left), op_encoding(right), op_encoding(left));
        crate::patch::lemma_bytes_lt_irreflexive(op_encoding(left));
    }
    assert(first_of(left, right) == first_of(right, left));
    assert(second_of(left, right) == second_of(right, left));
}

proof fn lemma_merged_ops_known(a: Seq<OpModel>, b: Seq<OpModel>)
    requires
        forall|k: int| 0 <= k < b.len() ==> a.contains(#[trigger] b[k]),
    ensures
        merged_ops(a, b) == a,
    decreases b.len(),
{
    if b.len() > 0 {
        lemma_merged_ops_known(a, b.drop_last());
        assert(a.contains(b[b.len() - 1]));
    }
}

/// Merging a canonical patch's operations with themselves finds no conflict
/// and keeps exactly those operations, which form a valid patch.
pub proof fn lemma_merge_self(ops: Seq<OpModel>)
    requires
        ops_well_shaped(ops),
        paths_encodable(ops),
        paths_disjoint(ops),
    ensures
        !some_conflict(ops, ops),
        !unencodable_conflict(ops, ops),
        merged_ops(ops, ops) == ops,
        patch_error(ops) is None,
{
    assert forall|i: int, j: int| !#[trigger] conflicts_at(ops, ops, i, j) by {
        if 0 <= i < ops.len() && 0 <= j < ops.len() && i != j {
            assert(!is_prefix(ops[i].path(), ops[j].path()));
            assert(!is_prefix(ops[j].path(), ops[i].path()));
            if ops[i].path() == ops[j].path() {
                assert(ops[i].path().take(ops[i].path().len() as int) =~= ops[i].path());
            }
        }
    }
    assert forall|k: int| 0 <= k < ops.len() implies ops.contains(#[trigger] ops[k]) by {
    }
    lemma_merged_ops_known(ops, ops);
    super::lemma_first_shape_error(ops);
    assert(!paths_overlap(ops));
}

/// Two operations conflict in the same way whichever comes first.
pub proof fn lemma_op_conflict_symmetric(left: OpModel, right: OpModel)
    ensures
        op_conflict(left, right) == op_conflict(right, left),
{
}

/// A conflict witness fits the wire format whichever operation comes first.
pub proof fn lemma_witness_encodable_symmetric(left: OpModel, right: OpModel)
    ensures
        witness_encodable(left, right) == witness_encodable(right, left),
{
    lemma_common_path_symmetric(left.path(), right.path());
    if op_encoding(left) != op_encoding(right) {
        lemma_operation_witness_symmetric(left, right);
        lemma_bytes_lt_total(op_encoding(left), op_encoding(right));
        if bytes_lt(op_encoding(left), op_encoding(right)) && bytes_lt(op_encoding(right), op_encoding(left)) {
            crate::patch::lemma_bytes_lt_transitive(op_encoding(left), op_encoding(right), op_encoding(left));
            crate::patch::lemma_bytes_lt_irreflexive(op_encoding(left));
        }
        assert(first_of(left, right) == first_of(right, left));
        assert(second_of(left, right) == second_of(right, left));
    } else {
        crate::patch::lemma_bytes_lt_irreflexive(op_encoding(left));
    }
}

/// Whether two patches' operations conflict, and whether some conflict does
/// not fit the wire format, does not depend on which patch is merged into
/// which.
pub proof fn lemma_conflict_detection_symmetric(a: Seq<OpModel>, b: Seq<OpModel>)
    ensures
        some_conflict(a, b) == some_conflict(b, a),
        unencodable_conflict(a, b) == unencodable_conflict(b, a),
{
    assert forall|i: int, j: int| #[trigger] conflicts_at(a, b, i, j) implies conflicts_at(b, a, j, i) by {
        lemma_op_conflict_symmetric(a[i], b[j]);
    }
    assert forall|j: int, i: int| #[trigger] conflicts_at(b, a, j, i) implies conflicts_at(a, b, i, j) by {
        lemma_op_conflict_symmetric(b[j], a[i]);
    }
    if some_conflict(a, b) {
        let (i, j) = choose|i: int, j: int| #[trigger] conflicts_at(a, b, i, j);
        assert(conflicts_at(b, a, j, i));
    }
    if some_conflict(b, a) {
        let (j, i) = choose|j: int, i: int| #[trigger] conflicts_at(b, a, j, i);
        assert(conflicts_at(a, b, i, j));
    }
    if unencodable_conflict(a, b) {
        let (i, j) = choose|i: int, j: int| #[trigger] conflicts_at(a, b, i, j) && !witness_encodable(a[i], b[j]);
        lemma_witness_encodable_symmetric(a[i], b[j]);
        assert(conflicts_at(b, a, j, i) && !witness_encodable(b[j], a[i]));
    }
    if unencodable_conflict(b, a) {
        let (j, i) = choose|j: int, i: int| #[trigger] conflicts_at(b, a, j, i) && !witness_encodable(b[j], a[i]);
        lemma_witness_encodable_symmetric(b[j], a[i]);
        assert(conflicts_at(a, b, i, j) && !witness_encodable(a[i], b[j]));
    }
}

/// The operations of a merge are exactly those of either patch.
pub proof fn lemma_merged_ops_members(a: Seq<OpModel>, b: Seq<OpModel>, op: OpModel)
    ensures
        merged_ops(a, b).contains(op) <==> (a.contains(op) || b.contains(op)),
    decreases b.len(),
{
    if b.len() > 0 {
        lemma_merged_ops_members(a, b.drop_last(), op);
        let prev = merged_ops(a, b.drop_last());
        if b.drop_last().contains(op) {
            let k = choose|k: int| 0 <= k < b.drop_last().len() && b.drop_last()[k] == op;
            assert(b[k] == op);
        }
        if b.contains(op) && op != b.last() {
            let k = choose|k: int| 0 <= k < b.len() && b[k] == op;
            assert(b.drop_last()[k] == op);
        }
        if !prev.contains(b.last()) {
            if prev.contains(op) {
                let k = choose|k: int| 0 <= k < prev.len() && prev[k] == op;
                assert(prev.push(b.last())[k] == op);
            }
            assert(prev.push(b.last())[prev.len() as int] == b.last());
            if prev.push(b.last()).contains(op) && op != b.last() {
                let k = choose|k: int| 0 <= k < prev.push(b.last()).len() && prev.push(b.last())[k] == op;
                assert(prev[k] == op);
            }
        }
        assert(b[b.len() - 1] == b.last());
    }
}

/// Merging either way round gathers the same operations.
pub proof fn lemma_merged_ops_same_members(a: Seq<OpModel>, b: Seq<OpModel>, op: OpModel)
    ensures
        merged_ops(a, b).contains(op) <==> merged_ops(b, a).contains(op),
{
    lemma_merged_ops_members(a, b, op);
    lemma_merged_ops_members(b, a, op);
}

/// The leading tag byte of a segment's canonical bytes.
spec fn segment_tag(segment: SegmentModel) -> u8 {
    match segment {
        SegmentModel::Field(_) => 0,
        SegmentModel::TupleIndex(_) => 1,
        SegmentModel::VectorIndex(_) => 2,
        SegmentModel::SumPayload => 3,
        SegmentModel::MapKey(_) => 4,
    }
}

/// The bytes after a segment's tag, followed by `x`.
spec fn segment_body_then(segment: SegmentModel, x: Seq<u8>) -> Seq<u8> {
    match segment {
        SegmentModel::Field(id) => be16(id) + x,
        SegmentModel::TupleIndex(i) => be32(i) + x,
        SegmentModel::VectorIndex(i) => be32(i) + x,
        SegmentModel::SumPayload => x,
        SegmentModel::MapKey(key) => be32(key.len() as u32) + (key + x),
    }
}

/// The segment's key, when it has one, fits its 32-bit length.
spec fn segment_fits(segment: SegmentModel) -> bool {
    segment matches SegmentModel::MapKey(key) ==> key.len() <= u32::MAX
}

proof fn lemma_segment_split(segment: SegmentModel, x: Seq<u8>)
    ensures
        segment_encoding(segment) + x == seq![segment_tag(segment)] + segment_body_then(segment, x),
{
    match segment {
        SegmentModel::Field(_) => {
            assert(segment_encoding(segment) + x =~= seq![0u8] + segment_body_then(segment, x));
        },
        SegmentModel::TupleIndex(_) => {
            assert(segment_encoding(segment) + x =~= seq![1u8] + segment_body_then(segment, x));
        },
        SegmentModel::VectorIndex(_) => {
            assert(segment_encoding(segment) + x =~= seq![2u8] + segment_body_then(segment, x));
        },
        SegmentModel::SumPayload => {
            assert(segment_encoding(segment) + x =~= seq![3u8] + segment_body_then(segment, x));
        },
        SegmentModel::MapKey(_) => {
            assert(segment_encoding(segment) + x =~= seq![4u8] + segment_body_then(segment, x));
        },
    }
}

/// One segment read off the front of a byte string.
proof fn lemma_segment_parse(a: SegmentModel, x: Seq<u8>, b: SegmentModel, y: Seq<u8>)
    requires
        segment_fits(a),
        segment_fits(b),
        segment_encoding(a) + x == segment_encoding(b) + y,
    ensures
        a == b,
        x == y,
{
    lemma_segment_split(a, x);
    lemma_segment_split(b, y);
    crate::encode::lemma_byte_prefix(segment_tag(a), segment_body_then(a, x), segment_tag(b), segment_body_then(b, y));
    match (a, b) {
        (SegmentModel::Field(i1), SegmentModel::Field(i2)) => {
            crate::encode::lemma_be16_prefix(i1, x, i2, y);
        },
        (SegmentModel::TupleIndex(i1), SegmentModel::TupleIndex(i2)) => {
            crate::encode::lemma_be32_prefix(i1, x, i2, y);
        },
        (SegmentModel::VectorIndex(i1), SegmentModel::VectorIndex(i2)) => {
            crate::encode::lemma_be32_prefix(i1, x, i2, y);
        },
        (SegmentModel::MapKey(k1), SegmentModel::MapKey(k2)) => {
            crate::encode::lemma_be32_prefix(k1.len() as u32, k1 + x, k2.len() as u32, k2 + y);
            crate::encode::lemma_split_equal(k1, x, k2, y);
        },
        _ => {},
    }
}

proof fn lemma_segments_first(path: Seq<SegmentModel>)
    requires
        path.len() > 0,
    ensures
        segments_encoding(path) == segment_encoding(path[0]) + segments_encoding(path.drop_first()),
    decreases path.len(),
{
    if path.len() == 1 {
        assert(path.drop_last().len() == 0);
        assert(path.drop_first().len() == 0);
        assert(segments_encoding(path.drop_last()) == Seq::<u8>::empty());
        assert(segments_encoding(path.drop_first()) == Seq::<u8>::empty());
        assert(path.last() == path[0]);
        assert(Seq::<u8>::empty() + segment_encoding(path[0]) =~= segment_encoding(path[0]));
        assert(segment_encoding(path[0]) + Seq::<u8>::empty() =~= segment_encoding(path[0]));
    } else {
        lemma_segments_first(path.drop_last());
        assert(path.drop_last().drop_first() =~= path.drop_first().drop_last());
        assert(path.drop_first().last() == path.last());
        assert(path.drop_last()[0] == path[0]);
        assert(segments_encoding(path) =~= segment_encoding(path[0]) + segments_encoding(path.drop_first()));
    }
}

/// Segment lists of one length read off the front of a byte string.
proof fn lemma_segments_parse(s: Seq<SegmentModel>, x: Seq<u8>, t: Seq<SegmentModel>, y: Seq<u8>)
    requires
        segments_encoding(s) + x == segments_encoding(t) + y,
        s.len() == t.len(),
        forall|i: int| 0 <= i < s.len() ==> segment_fits(#[trigger] s[i]),
        forall|i: int| 0 <= i < t.len() ==> segment_fits(#[trigger] t[i]),
    ensures
        s == t,
        x == y,
    decreases s.len(),
{
    if s.len() == 0 {
        assert(segments_encoding(s) + x =~= x);
        assert(segments_encoding(t) + y =~= y);
        assert(s =~= t);
    } else {
        lemma_segments_first(s);
        lemma_segments_first(t);
        assert(segments_encoding(s) + x =~= segment_encoding(s[0]) + (segments_encoding(s.drop_first()) + x));
        assert(segments_encoding(t) + y =~= segment_encoding(t[0]) + (segments_encoding(t.drop_first()) + y));
        assert(segment_fits(s[0]) && segment_fits(t[0]));
        lemma_segment_parse(s[0], segments_encoding(s.drop_first()) + x, t[0], segments_encoding(t.drop_first()) + y);
        assert forall|i: int| 0 <= i < s.drop_first().len() implies segment_fits(#[trigger] s.drop_first()[i]) by {
            assert(s.drop_first()[i] == s[i + 1]);
        }
        assert forall|i: int| 0 <= i < t.drop_first().len() implies segment_fits(#[trigger] t.drop_first()[i]) by {
            assert(t.drop_first()[i] == t[i + 1]);
        }
        lemma_segments_parse(s.drop_first(), x, t.drop_first(), y);
        assert forall|i: int| 0 <= i < s.len() implies s[i] == t[i] by {
            if i > 0 {
                assert(s[i] == s.drop_first()[i - 1]);
                assert(t[i] == t.drop_first()[i - 1]);
            }
        }
        assert(s =~= t);
    }
}

/// Paths that fit the wire have distinct canonical bytes.
pub proof fn lemma_path_encoding_injective(a: Seq<SegmentModel>, b: Seq<SegmentModel>)
    requires
        path_encodable(a),
        path_encodable(b),
        path_encoding(a) == path_encoding(b),
    ensures
        a == b,
{
    crate::encode::lemma_be32_prefix(a.len() as u32, segments_encoding(a), b.len() as u32, segments_encoding(b));
    assert forall|i: int| 0 <= i < a.len() implies segment_fits(#[trigger] a[i]) by {
        assert(a[i] matches SegmentModel::MapKey(key) ==> key.len() <= u32::MAX);
    }
    assert forall|i: int| 0 <= i < b.len() implies segment_fits(#[trigger] b[i]) by {
        assert(b[i] matches SegmentModel::MapKey(key) ==> key.len() <= u32::MAX);
    }
    assert(segments_encoding(a) + Seq::<u8>::empty() =~= segments_encoding(a));
    assert(segments_encoding(b) + Seq::<u8>::empty() =~= segments_encoding(b));
    lemma_segments_parse(a, Seq::<u8>::empty(), b, Seq::<u8>::empty());
}

/// Distinct positions of a list with disjoint paths hold distinct operations.
proof fn lemma_disjoint_no_duplicates(ops: Seq<OpModel>)
    requires
        paths_disjoint(ops),
    ensures
        ops.no_duplicates(),
{
    assert forall|i: int, j: int| 0 <= i < ops.len() && 0 <= j < ops.len() && i != j implies ops[i] != ops[j] by {
        if ops[i] == ops[j] {
            assert(ops[i].path().take(ops[i].path().len() as int) =~= ops[i].path());
            assert(is_prefix(ops[i].path(), ops[j].path()));
        }
    }
}

/// Disjoint, encodable paths in path order are in strict path order.
proof fn lemma_disjoint_strict(ops: Seq<OpModel>)
    requires
        paths_disjoint(ops),
        paths_encodable(ops),
        ops_in_path_order(ops),
    ensures
        strictly_path_ordered(ops),
{
    assert forall|i: int| 0 <= i < ops.len() - 1 implies bytes_lt(
        path_encoding(#[trigger] ops[i].path()),
        path_encoding(ops[i + 1].path()),
    ) by {
        let p = ops[i].path();
        let q = ops[i + 1].path();
        if path_encoding(p) == path_encoding(q) {
            assert(path_encodable(p) && path_encodable(q));
            lemma_path_encoding_injective(p, q);
            assert(p.take(p.len() as int) =~= p);
            assert(is_prefix(ops[i].path(), ops[i + 1].path()));
        }
        lemma_bytes_lt_total(path_encoding(p), path_encoding(q));
    }
    assert forall|i: int, j: int| 0 <= i < j < ops.len() implies bytes_lt(
        path_encoding(#[trigger] ops[i].path()),
        path_encoding(#[trigger] ops[j].path()),
    ) by {
        lemma_chain(ops, i, j);
    }
}

proof fn lemma_chain(ops: Seq<OpModel>, i: int, j: int)
    requires
        0 <= i < j < ops.len(),
        forall|k: int| 0 <= k < ops.len() - 1 ==> bytes_lt(
            path_encoding(#[trigger] ops[k].path()),
            path_encoding(ops[k + 1].path()),
        ),
    ensures
        bytes_lt(path_encoding(ops[i].path()), path_encoding(ops[j].path())),
    decreases j - i,
{
    if j > i + 1 {
        lemma_chain(ops, i, j - 1);
        assert(bytes_lt(path_encoding(ops[j - 1].path()), path_encoding(ops[j].path())));
        crate::patch::lemma_bytes_lt_transitive(
            path_encoding(ops[i].path()),
            path_encoding(ops[j - 1].path()),
            path_encoding(ops[j].path()),
        );
    }
}

/// Two lists in strict path order with the same members are the same list.
proof fn lemma_sorted_unique(s: Seq<OpModel>, t: Seq<OpModel>)
    requires
        strictly_path_ordered(s),
        strictly_path_ordered(t),
        forall|x: OpModel| s.contains(x) <==> t.contains(x),
    ensures
        s == t,
    decreases s.len(),
{
    if s.len() == 0 {
        if t.len() > 0 {
            assert(t.contains(t[0]));
        }
        assert(s =~= t);
    } else {
        assert(s.contains(s[0]));
        assert(t.contains(s[0]));
        assert(t.len() > 0);
        assert(t.contains(t[0]));
        assert(s.contains(t[0]));
        let j = choose|j: int| 0 <= j < t.len() && t[j] == s[0];
        let i = choose|i: int| 0 <= i < s.len() && s[i] == t[0];
        if j > 0 {
            assert(bytes_lt(path_encoding(t[0].path()), path_encoding(t[j].path())));
            if i > 0 {
                assert(bytes_lt(path_encoding(s[0].path()), path_encoding(s[i].path())));
                crate::patch::lemma_bytes_lt_transitive(
                    path_encoding(t[0].path()),
                    path_encoding(s[0].path()),
                    path_encoding(t[0].path()),
                );
            }
            crate::patch::lemma_bytes_lt_irreflexive(path_encoding(t[0].path()));
        }
        assert(s[0] == t[0]);
        let s1 = s.drop_first();
        let t1 = t.drop_first();
        assert forall|x: OpModel| s1.contains(x) <==> (s.contains(x) && x != s[0]) by {
            if s1.contains(x) {
                let k = choose|k: int| 0 <= k < s1.len() && s1[k] == x;
                assert(s[k + 1] == x);
                assert(bytes_lt(path_encoding(s[0].path()), path_encoding(s[k + 1].path())));
                crate::patch::lemma_bytes_lt_irreflexive(path_encoding(s[0].path()));
            }
            if s.contains(x) && x != s[0] {
                let k = choose|k: int| 0 <= k < s.len() && s[k] == x;
                assert(s1[k - 1] == x);
            }
        }
        assert forall|x: OpModel| t1.contains(x) <==> (t.contains(x) && x != t[0]) by {
            if t1.contains(x) {
                let k = choose|k: int| 0 <= k < t1.len() && t1[k] == x;
                assert(t[k + 1] == x);
                assert(bytes_lt(path_encoding(t[0].path()), path_encoding(t[k + 1].path())));
                crate::patch::lemma_bytes_lt_irreflexive(path_encoding(t[0].path()));
            }
            if t.contains(x) && x != t[0] {
                let k = choose|k: int| 0 <= k < t.len() && t[k] == x;
                assert(t1[k - 1] == x);
            }
        }
        assert forall|a: int, b: int| 0 <= a < b < s1.len() implies bytes_lt(
            path_encoding(#[trigger] s1[a].path()),
            path_encoding(#[trigger] s1[b].path()),
        ) by {
            assert(s1[a] == s[a + 1] && s1[b] == s[b + 1]);
        }
        assert forall|a: int, b: int| 0 <= a < b < t1.len() implies bytes_lt(
            path_encoding(#[trigger] t1[a].path()),
            path_encoding(#[trigger] t1[b].path()),
        ) by {
            assert(t1[a] == t[a + 1] && t1[b] == t[b + 1]);
        }
        lemma_sorted_unique(s1, t1);
        assert forall|k: int| 0 <= k < s.len() implies s[k] == t[k] by {
            if k > 0 {
                assert(s[k] == s1[k - 1]);
                assert(t[k] == t1[k - 1]);
            }
        }
        assert(s =~= t);
    }
}

/// A reordering has exactly the members of what it reorders.
proof fn lemma_reorders_members(out: Seq<OpModel>, inp: Seq<OpModel>, x: OpModel)
    requires
        reorders(out, inp),
    ensures
        out.contains(x) <==> inp.contains(x),
{
    let perm = choose|perm: Seq<int>|
        is_reordering(perm, inp.len()) && out.len() == inp.len() && forall|k: int|
            0 <= k < out.len() ==> #[trigger] out[k] == inp[perm[k]];
    let n = inp.len() as int;
    if out.contains(x) {
        let k = choose|k: int| 0 <= k < out.len() && out[k] == x;
        assert(out[k] == inp[perm[k]]);
        assert(0 <= perm[k] < n);
    }
    if inp.contains(x) {
        let k = choose|k: int| 0 <= k < inp.len() && inp[k] == x;
        assert forall|p: int, q: int| 0 <= p < perm.len() && 0 <= q < perm.len() && p != q implies perm[p] != perm[q] by {
            if p < q {
                assert(perm[p] != perm[q]);
            } else {
                assert(perm[q] != perm[p]);
            }
        }
        assert(perm.no_duplicates());
        perm.unique_seq_to_set();
        vstd::set_lib::lemma_int_range(0, n);
        assert(perm.to_set().subset_of(vstd::set_lib::set_int_range(0, n))) by {
            assert forall|v: int| perm.to_set().contains(v) implies vstd::set_lib::set_int_range(0, n).contains(v) by {
                assert(perm.contains(v));
                let p = choose|p: int| 0 <= p < perm.len() && perm[p] == v;
                assert(0 <= perm[p] < n);
            }
        }
        vstd::seq_lib::seq_to_set_is_finite(perm);
        vstd::set_lib::lemma_subset_equality(perm.to_set(), vstd::set_lib::set_int_range(0, n));
        assert(vstd::set_lib::set_int_range(0, n).contains(k));
        assert(perm.to_set().contains(k));
        assert(perm.contains(k));
        let p = choose|p: int| 0 <= p < perm.len() && perm[p] == k;
        assert(out[p] == inp[perm[p]]);
        assert(out.contains(x));
    }
}

/// A merge keeps its first list's distinct members distinct.
proof fn lemma_merged_no_duplicates(a: Seq<OpModel>, b: Seq<OpModel>)
    requires
        a.no_duplicates(),
    ensures
        merged_ops(a, b).no_duplicates(),
    decreases b.len(),
{
    if b.len() > 0 {
        lemma_merged_no_duplicates(a, b.drop_last());
        let prev = merged_ops(a, b.drop_last());
        if !prev.contains(b.last()) {
            let m = prev.push(b.last());
            assert forall|i: int, j: int| 0 <= i < m.len() && 0 <= j < m.len() && i != j implies m[i] != m[j] by {
                if i == prev.len() {
                    if m[i] == m[j] {
                        assert(prev[j] == b.last());
                    }
                } else if j == prev.len() {
                    if m[i] == m[j] {
                        assert(prev[i] == b.last());
                    }
                } else {
                    assert(m[i] == prev[i] && m[j] == prev[j]);
                }
            }
        }
    }
}

/// Without a conflict, the gathered operations of two patches do not overlap.
proof fn lemma_merged_disjoint(a: Seq<OpModel>, b: Seq<OpModel>)
    requires
        paths_disjoint(a),
        paths_disjoint(b),
        !some_conflict(a, b),
    ensures
        !paths_overlap(merged_ops(a, b)),
{
    let m = merged_ops(a, b);
    lemma_disjoint_no_duplicates(a);
    lemma_merged_no_duplicates(a, b);
    if paths_overlap(m) {
        let (i, j) = choose|i: int, j: int|
            0 <= i < m.len() && 0 <= j < m.len() && i != j && is_prefix(m[i].path(), m[j].path());
        let x = m[i];
        let y = m[j];
        assert(x != y);
        assert(m.contains(x) && m.contains(y));
        lemma_merged_ops_members(a, b, x);
        lemma_merged_ops_members(a, b, y);
        if a.contains(x) && a.contains(y) {
            let p = choose|p: int| 0 <= p < a.len() && a[p] == x;
            let q = choose|q: int| 0 <= q < a.len() && a[q] == y;
            assert(!is_prefix(a[p].path(), a[q].path()));
        } else if b.contains(x) && b.contains(y) {
            let p = choose|p: int| 0 <= p < b.len() && b[p] == x;
            let q = choose|q: int| 0 <= q < b.len() && b[q] == y;
            assert(!is_prefix(b[p].path(), b[q].path()));
        } else if a.contains(x) {
            let p = choose|p: int| 0 <= p < a.len() && a[p] == x;
            let q = choose|q: int| 0 <= q < b.len() && b[q] == y;
            assert(op_conflict(a[p], b[q]) is Some);
            assert(conflicts_at(a, b, p, q));
        } else {
            let p = choose|p: int| 0 <= p < a.len() && a[p] == y;
            let q = choose|q: int| 0 <= q < b.len() && b[q] == x;
            assert(op_conflict(a[p], b[q]) is Some);
            assert(conflicts_at(a, b, p, q));
        }
    }
}

/// Without a conflict, the gathered operations of two valid patches form a
/// valid patch.
proof fn lemma_merged_valid(a: Seq<OpModel>, b: Seq<OpModel>)
    requires
        ops_well_shaped(a),
        paths_encodable(a),
        paths_disjoint(a),
        ops_well_shaped(b),
        paths_encodable(b),
        paths_disjoint(b),
        !some_conflict(a, b),
    ensures
        ops_well_shaped(merged_ops(a, b)),
        paths_encodable(merged_ops(a, b)),
        !paths_overlap(merged_ops(a, b)),
        patch_error(merged_ops(a, b)) is None,
{
    let m = merged_ops(a, b);
    assert forall|i: int| 0 <= i < m.len() implies #[trigger] super::insert_shape_error(m[i]) is None
        && path_encodable(m[i].path()) by {
        assert(m.contains(m[i]));
        lemma_merged_ops_members(a, b, m[i]);
        if a.contains(m[i]) {
            let p = choose|p: int| 0 <= p < a.len() && a[p] == m[i];
            assert(super::insert_shape_error(a[p]) is None);
            assert(path_encodable(a[p].path()));
        } else {
            let p = choose|p: int| 0 <= p < b.len() && b[p] == m[i];
            assert(super::insert_shape_error(b[p]) is None);
            assert(path_encodable(b[p].path()));
        }
    }
    assert forall|i: int| 0 <= i < m.len() implies path_encodable(#[trigger] m[i].path()) by {
        assert(super::insert_shape_error(m[i]) is None && path_encodable(m[i].path()));
    }
    lemma_merged_disjoint(a, b);
    super::lemma_first_shape_error(m);
}

/// Merging is commutative: when two valid patches do not conflict, merging
/// either into the other succeeds, and the operations of the two results,
/// each the gathered operations put in path order, are the same list.
pub proof fn lemma_merge_commutative(a: Seq<OpModel>, b: Seq<OpModel>, out1: Seq<OpModel>, out2: Seq<OpModel>)
    requires
        ops_well_shaped(a),
        paths_encodable(a),
        paths_disjoint(a),
        ops_well_shaped(b),
        paths_encodable(b),
        paths_disjoint(b),
        !some_conflict(a, b),
        reorders(out1, merged_ops(a, b)),
        ops_in_path_order(out1),
        reorders(out2, merged_ops(b, a)),
        ops_in_path_order(out2),
    ensures
        !some_conflict(b, a),
        patch_error(merged_ops(a, b)) is None,
        patch_error(merged_ops(b, a)) is None,
        out1 == out2,
{
    lemma_conflict_detection_symmetric(a, b);
    lemma_merged_valid(a, b);
    lemma_merged_valid(b, a);
    super::lemma_reorder_keeps(out1, merged_ops(a, b));
    super::lemma_reorder_keeps(out2, merged_ops(b, a));
    lemma_disjoint_strict(out1);
    lemma_disjoint_strict(out2);
    assert forall|x: OpModel| out1.contains(x) <==> out2.contains(x) by {
        lemma_reorders_members(out1, merged_ops(a, b), x);
        lemma_reorders_members(out2, merged_ops(b, a), x);
        lemma_merged_ops_same_members(a, b, x);
    }
    lemma_sorted_unique(out1, out2);
}

/// Merging is idempotent: a valid patch in path order merged with itself
/// succeeds, and the result's operations, put in path order, are its own.
pub proof fn lemma_merge_idempotent(ops: Seq<OpModel>, out: Seq<OpModel>)
    requires
        ops_well_shaped(ops),
        paths_encodable(ops),
        paths_disjoint(ops),
        ops_in_path_order(ops),
        reorders(out, merged_ops(ops, ops)),
        ops_in_path_order(out),
    ensures
        !some_conflict(ops, ops),
        patch_error(merged_ops(ops, ops)) is None,
        out == ops,
{
    lemma_merge_self(ops);
    super::lemma_reorder_keeps(out, ops);
    lemma_disjoint_strict(out);
    lemma_disjoint_strict(ops);
    assert forall|x: OpModel| out.contains(x) <==> ops.contains(x) by {
        lemma_reorders_members(out, ops, x);
    }
    lemma_sorted_unique(out, ops);
}

/// The operations of a valid patch: well shaped, encodable and disjoint.
pub open spec fn ops_valid(ops: Seq<OpModel>) -> bool {
    &&& ops_well_shaped(ops)
    &&& paths_encodable(ops)
    &&& paths_disjoint(ops)
}

/// `merged` is what merging `second` into `first` returns when they agree on
/// state type and pre-root and do not conflict.
pub open spec fn merge_result(first: CanonicalPatch, second: CanonicalPatch, merged: CanonicalPatch) -> bool {
    &&& merged.spec_state_type() == first.spec_state_type()
    &&& merged.spec_expected_pre_root() == first.spec_expected_pre_root()
    &&& reorders(merged.spec_operations(), merged_ops(first.spec_operations(), second.spec_operations()))
    &&& ops_in_path_order(merged.spec_operations())
}

/// Merging two valid, non-conflicting patches gives the same patch in either
/// order: equal state type, pre-root and operations, hence equal canonical
/// bytes.
pub proof fn lemma_merge_results_commute(
    p: CanonicalPatch,
    q: CanonicalPatch,
    pq: CanonicalPatch,
    qp: CanonicalPatch,
)
    requires
        ops_valid(p.spec_operations()),
        ops_valid(q.spec_operations()),
        p.spec_state_type() == q.spec_state_type(),
        p.spec_expected_pre_root() == q.spec_expected_pre_root(),
        !some_conflict(p.spec_operations(), q.spec_operations()),
        merge_result(p, q, pq),
        merge_result(q, p, qp),
    ensures
        pq.spec_state_type() == qp.spec_state_type(),
        pq.spec_expected_pre_root() == qp.spec_expected_pre_root(),
        pq.spec_operations() == qp.spec_operations(),
        pq.spec_encoding() == qp.spec_encoding(),
{
    lemma_merge_commutative(p.spec_operations(), q.spec_operations(), pq.spec_operations(), qp.spec_operations());
}

/// Merging a valid patch with itself gives the patch back: equal state type,
/// pre-root and operations, hence equal canonical bytes.
pub proof fn lemma_merge_result_self(p: CanonicalPatch, pp: CanonicalPatch)
    requires
        ops_valid(p.spec_operations()),
        ops_in_path_order(p.spec_operations()),
        merge_result(p, p, pp),
    ensures
        pp.spec_state_type() == p.spec_state_type(),
        pp.spec_expected_pre_root() == p.spec_expected_pre_root(),
        pp.spec_operations() == p.spec_operations(),
        pp.spec_encoding() == p.spec_encoding(),
{
    lemma_merge_idempotent(p.spec_operations(), pp.spec_operations());
}

} // verus!

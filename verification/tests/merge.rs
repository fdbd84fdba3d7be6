use zeno_fcis::commit::{CommitmentHasher, Domain, Hash32};
use zeno_fcis::encode::EncodeError;
use zeno_fcis::patch::{
    hash_precondition_value, hash_value, CanonicalPatch, PatchMergeConflict, PatchMergeError, PatchOp,
    PatchOperationConflictKind, PathSegment, ValuePath,
};
use zeno_fcis::value::{Field, Value};

struct TestHasher;

impl CommitmentHasher for TestHasher {
    fn algorithm_id() -> &'static str {
        "test/fold/v1"
    }

    fn hash(bytes: &[u8]) -> Hash32 {
        let mut output = [0_u8; 32];
        for (index, byte) in bytes.iter().copied().enumerate() {
            let slot = index % 32;
            output[slot] = output[slot].wrapping_add(byte).rotate_left(3);
        }
        Hash32::new(output)
    }
}

fn state_domain() -> Domain {
    Domain::new("test/state", 1).unwrap_or_else(|error| panic!("invalid test domain: {error:?}"))
}

fn field_update(field: u16, value: Value) -> PatchOp {
    PatchOp::Update {
        path: ValuePath::new(vec![PathSegment::Field(field)]),
        expected_old_hash: Hash32::zero(),
        value,
    }
}

fn patch_of(operations: Vec<PatchOp>) -> CanonicalPatch {
    CanonicalPatch::try_new(1, Hash32::zero(), operations)
        .unwrap_or_else(|error| panic!("patch construction failed: {error:?}"))
}

#[test]
fn compatible_merge_is_commutative_idempotent_and_associative() {
    let patch = |field, value| patch_of(vec![field_update(field, Value::U128(value))]);
    let first = patch(1, 11);
    let second = patch(2, 22);
    let third = patch(3, 33);

    let first_second = first.merge(&second).unwrap_or_else(|error| panic!("compatible merge failed: {error:?}"));
    let second_first = second.merge(&first).unwrap_or_else(|error| panic!("compatible merge failed: {error:?}"));
    assert_eq!(first_second, second_first);
    assert_eq!(first.merge(&first).unwrap_or_else(|error| panic!("idempotent merge failed: {error:?}")), first);

    let left = first_second.merge(&third).unwrap_or_else(|error| panic!("compatible merge failed: {error:?}"));
    let second_third = second.merge(&third).unwrap_or_else(|error| panic!("compatible merge failed: {error:?}"));
    let right = first.merge(&second_third).unwrap_or_else(|error| panic!("compatible merge failed: {error:?}"));
    assert_eq!(left, right);
}

#[test]
fn merged_patch_checks_one_prestate_and_applies_both_operations() {
    let state = Value::record_canonical(vec![Field::new(1, Value::U128(10)), Field::new(2, Value::U128(20))])
        .unwrap_or_else(|error| panic!("invalid state: {error:?}"));
    let original = state.clone();
    let pre_root =
        hash_value::<TestHasher>(&state_domain(), &state).unwrap_or_else(|error| panic!("state hash failed: {error:?}"));
    let first_old = hash_precondition_value::<TestHasher>(&Value::U128(10))
        .unwrap_or_else(|error| panic!("value hash failed: {error:?}"));
    let second_old = hash_precondition_value::<TestHasher>(&Value::U128(20))
        .unwrap_or_else(|error| panic!("value hash failed: {error:?}"));
    let first = CanonicalPatch::try_new(
        1,
        pre_root,
        vec![PatchOp::Update {
            path: ValuePath::new(vec![PathSegment::Field(1)]),
            expected_old_hash: first_old,
            value: Value::U128(11),
        }],
    )
    .unwrap_or_else(|error| panic!("patch construction failed: {error:?}"));
    let second = CanonicalPatch::try_new(
        1,
        pre_root,
        vec![PatchOp::Update {
            path: ValuePath::new(vec![PathSegment::Field(2)]),
            expected_old_hash: second_old,
            value: Value::U128(22),
        }],
    )
    .unwrap_or_else(|error| panic!("patch construction failed: {error:?}"));

    let merged = first.merge(&second).unwrap_or_else(|error| panic!("compatible merge failed: {error:?}"));
    let applied = merged
        .apply::<TestHasher>(&state, &state_domain())
        .unwrap_or_else(|error| panic!("merged application failed: {error:?}"));
    let expected = Value::record_canonical(vec![Field::new(1, Value::U128(11)), Field::new(2, Value::U128(22))])
        .unwrap_or_else(|error| panic!("invalid expected state: {error:?}"));
    assert_eq!(applied.state(), &expected);
    assert_eq!(state, original);
}

#[test]
fn same_path_conflict_witness_is_operand_order_independent() {
    let first = patch_of(vec![field_update(1, Value::U128(1))]);
    let second = patch_of(vec![field_update(1, Value::U128(2))]);

    let left = first.merge(&second);
    let right = second.merge(&first);
    assert_eq!(left, right);
    let Err(PatchMergeError::Conflict(conflict)) = left else {
        panic!("expected a same-path conflict");
    };
    assert!(matches!(
        conflict.as_ref(),
        PatchMergeConflict::Operation { kind: PatchOperationConflictKind::SamePathDifferentOperation, .. }
    ));
}

#[test]
fn ancestor_conflict_witness_retains_exact_common_prefix() {
    let ancestor = patch_of(vec![field_update(1, Value::U128(1))]);
    let descendant = patch_of(vec![PatchOp::Update {
        path: ValuePath::new(vec![PathSegment::Field(1), PathSegment::Field(2)]),
        expected_old_hash: Hash32::zero(),
        value: Value::U128(2),
    }]);

    let left = ancestor.merge(&descendant);
    let right = descendant.merge(&ancestor);
    assert_eq!(left, right);
    let Err(PatchMergeError::Conflict(conflict)) = left else {
        panic!("expected an ancestor/descendant conflict");
    };
    let PatchMergeConflict::Operation { kind, common_prefix, .. } = conflict.as_ref() else {
        panic!("expected an operation conflict");
    };
    assert_eq!(*kind, PatchOperationConflictKind::AncestorDescendantOverlap);
    assert_eq!(*common_prefix, ValuePath::new(vec![PathSegment::Field(1)]));
}

#[test]
fn metadata_conflicts_are_canonical_under_operand_reversal() {
    let operation = || vec![field_update(1, Value::U128(1))];
    let first = CanonicalPatch::try_new(3, Hash32::new([2; 32]), operation())
        .unwrap_or_else(|error| panic!("patch construction failed: {error:?}"));
    let different_type = CanonicalPatch::try_new(1, Hash32::new([2; 32]), operation())
        .unwrap_or_else(|error| panic!("patch construction failed: {error:?}"));
    let different_root = CanonicalPatch::try_new(3, Hash32::new([1; 32]), operation())
        .unwrap_or_else(|error| panic!("patch construction failed: {error:?}"));

    assert_eq!(first.merge(&different_type), different_type.merge(&first));
    assert_eq!(first.merge(&different_root), different_root.merge(&first));
    assert_eq!(
        first.merge(&different_type),
        Err(PatchMergeError::Conflict(Box::new(PatchMergeConflict::StateTypeMismatch { first: 1, second: 3 })))
    );
    assert_eq!(
        first.merge(&different_root),
        Err(PatchMergeError::Conflict(Box::new(PatchMergeConflict::ExpectedPreRootMismatch {
            first: Hash32::new([1; 32]),
            second: Hash32::new([2; 32]),
        })))
    );
}

// Further cases of this library's own.

#[test]
fn least_key_conflict_is_named_among_several() {
    let left = patch_of(vec![field_update(3, Value::U128(1)), field_update(1, Value::U128(1))]);
    let right = patch_of(vec![field_update(3, Value::U128(2)), field_update(1, Value::U128(2))]);
    let Err(PatchMergeError::Conflict(conflict)) = left.merge(&right) else {
        panic!("expected a conflict");
    };
    let PatchMergeConflict::Operation { first, second, common_prefix, .. } = conflict.as_ref() else {
        panic!("expected an operation conflict");
    };
    assert_eq!(*common_prefix, ValuePath::new(vec![PathSegment::Field(1)]));
    assert_eq!(*first, field_update(1, Value::U128(1)));
    assert_eq!(*second, field_update(1, Value::U128(2)));
    assert_eq!(left.merge(&right), right.merge(&left));
}

#[test]
fn identical_operations_merge_once() {
    let left = patch_of(vec![field_update(1, Value::U128(1)), field_update(2, Value::U128(2))]);
    let right = patch_of(vec![field_update(2, Value::U128(2)), field_update(4, Value::U128(4))]);
    let merged = left.merge(&right).unwrap_or_else(|error| panic!("compatible merge failed: {error:?}"));
    assert_eq!(merged.operations().len(), 3);
    assert_eq!(merged.operations()[2], field_update(4, Value::U128(4)));
}

#[test]
fn merge_error_messages_name_the_reason() {
    assert_eq!(PatchMergeError::Encode(EncodeError::LengthOverflow).message(), "merge witness exceeds the wire format");
    let conflict = PatchMergeError::Conflict(Box::new(PatchMergeConflict::StateTypeMismatch { first: 1, second: 2 }));
    assert_eq!(conflict.message(), "patch state types differ");
}

use zeno_fcis::commit::{CommitmentHasher, Domain, Hash32};
use zeno_fcis::patch::{
    hash_precondition_value, hash_value, value_at, CanonicalPatch, PatchError, PatchOp,
    PathSegment, ValuePath,
};
use zeno_fcis::value::{Field, MapEntry, Value, ValueError};

struct TestHasher;

impl CommitmentHasher for TestHasher {
    fn algorithm_id() -> &'static str {
        "test/fold/v1"
    }

    fn hash(bytes: &[u8]) -> Hash32 {
        let mut output = [0_u8; 32];
        for (index, byte) in bytes.iter().copied().enumerate() {
            let slot = index % 32;
            output[slot] = output[slot].wrapping_add(byte);
        }
        Hash32::new(output)
    }
}

fn state_domain() -> Domain {
    match Domain::new("test/state", 1) {
        Ok(domain) => domain,
        Err(error) => panic!("invalid test domain: {error:?}"),
    }
}

fn field_update(field: u16, value: Value) -> PatchOp {
    PatchOp::Update {
        path: ValuePath::new(vec![PathSegment::Field(field)]),
        expected_old_hash: Hash32::zero(),
        value,
    }
}

#[test]
fn update_checks_pre_root_and_old_value() {
    let state = match Value::record_canonical(vec![Field::new(1, Value::U128(7))]) {
        Ok(state) => state,
        Err(error) => panic!("invalid state: {error:?}"),
    };
    let pre_root = match hash_value::<TestHasher>(&state_domain(), &state) {
        Ok(root) => root,
        Err(error) => panic!("hash failed: {error:?}"),
    };
    let old_hash = match hash_precondition_value::<TestHasher>(&Value::U128(7)) {
        Ok(root) => root,
        Err(error) => panic!("hash failed: {error:?}"),
    };
    let patch = CanonicalPatch::try_new(
        1,
        pre_root,
        vec![PatchOp::Update {
            path: ValuePath::new(vec![PathSegment::Field(1)]),
            expected_old_hash: old_hash,
            value: Value::U128(8),
        }],
    );
    assert!(patch.is_ok());
    let applied = patch.and_then(|value| value.apply::<TestHasher>(&state, &state_domain()));
    assert!(applied.is_ok());
}

#[test]
fn value_at_resolves_nested_paths_without_mutation() {
    let state = Value::record_canonical(vec![Field::new(
        1,
        Value::Tuple(vec![Value::Bool(false), Value::U128(7)]),
    )])
    .unwrap_or_else(|error| panic!("invalid state: {error:?}"));
    let original = state.clone();
    let path = ValuePath::new(vec![PathSegment::Field(1), PathSegment::TupleIndex(1)]);

    assert_eq!(value_at(&state, &path), Ok(&Value::U128(7)));
    assert_eq!(state, original);
}

#[test]
fn overlapping_paths_are_rejected() {
    let patch = CanonicalPatch::try_new(
        1,
        Hash32::zero(),
        vec![
            PatchOp::Update {
                path: ValuePath::new(vec![PathSegment::Field(1)]),
                expected_old_hash: Hash32::zero(),
                value: Value::U128(1),
            },
            PatchOp::Update {
                path: ValuePath::new(vec![PathSegment::Field(1), PathSegment::Field(2)]),
                expected_old_hash: Hash32::zero(),
                value: Value::U128(2),
            },
        ],
    );
    assert_eq!(patch, Err(PatchError::OverlappingPaths));
}

#[test]
fn non_adjacent_overlapping_paths_are_rejected() {
    let patch = CanonicalPatch::try_new(
        1,
        Hash32::zero(),
        vec![
            PatchOp::Update {
                path: ValuePath::new(vec![PathSegment::Field(1)]),
                expected_old_hash: Hash32::zero(),
                value: Value::U128(1),
            },
            PatchOp::Update {
                path: ValuePath::new(vec![PathSegment::Field(0), PathSegment::Field(0)]),
                expected_old_hash: Hash32::zero(),
                value: Value::U128(2),
            },
            PatchOp::Update {
                path: ValuePath::new(vec![PathSegment::Field(1), PathSegment::Field(0)]),
                expected_old_hash: Hash32::zero(),
                value: Value::U128(3),
            },
        ],
    );
    assert_eq!(patch, Err(PatchError::OverlappingPaths));
}

#[test]
fn record_insert_and_delete_are_pure() {
    let state = Value::Record(Vec::<Field>::new());
    let pre_root = hash_value::<TestHasher>(&state_domain(), &state).unwrap_or(Hash32::zero());
    let insert = CanonicalPatch::try_new(
        1,
        pre_root,
        vec![PatchOp::Insert {
            path: ValuePath::new(vec![PathSegment::Field(1)]),
            map_key: None,
            value: Value::U128(9),
        }],
    );
    assert!(insert.is_ok());
    let inserted = insert.and_then(|value| value.apply::<TestHasher>(&state, &state_domain()));
    assert!(inserted.is_ok());
    assert_eq!(state, Value::Record(Vec::<Field>::new()));
}

// Additional scenarios.

fn root(state: &Value) -> Hash32 {
    hash_value::<TestHasher>(&state_domain(), state).unwrap_or_else(|error| panic!("{error:?}"))
}

fn old_hash(value: &Value) -> Hash32 {
    hash_precondition_value::<TestHasher>(value).unwrap_or_else(|error| panic!("{error:?}"))
}

#[test]
fn insert_then_delete_round_trips_a_record() {
    let state = Value::record_canonical(vec![Field::new(2, Value::U128(20))])
        .unwrap_or_else(|error| panic!("{error:?}"));
    let insert = CanonicalPatch::try_new(
        1,
        root(&state),
        vec![PatchOp::Insert {
            path: ValuePath::new(vec![PathSegment::Field(1)]),
            map_key: None,
            value: Value::U128(10),
        }],
    )
    .unwrap_or_else(|error| panic!("{error:?}"));
    let applied = insert
        .apply::<TestHasher>(&state, &state_domain())
        .unwrap_or_else(|error| panic!("{error:?}"));
    let expected = Value::record_canonical(vec![
        Field::new(1, Value::U128(10)),
        Field::new(2, Value::U128(20)),
    ])
    .unwrap_or_else(|error| panic!("{error:?}"));
    assert_eq!(applied.state(), &expected);
    assert_eq!(applied.post_root(), root(&expected));

    let delete = CanonicalPatch::try_new(
        1,
        root(&expected),
        vec![PatchOp::Delete {
            path: ValuePath::new(vec![PathSegment::Field(1)]),
            expected_old_hash: old_hash(&Value::U128(10)),
        }],
    )
    .unwrap_or_else(|error| panic!("{error:?}"));
    let (after, post_root) = delete
        .apply::<TestHasher>(&expected, &state_domain())
        .unwrap_or_else(|error| panic!("{error:?}"))
        .into_parts();
    assert_eq!(after, state);
    assert_eq!(post_root, root(&state));
}

#[test]
fn map_insert_requires_matching_semantic_key() {
    let state = Value::Mapping(Vec::new());
    let key = Value::Text(String::from("alpha"));
    let encoded = key.canonical_bytes();
    let missing = CanonicalPatch::try_new(
        1,
        root(&state),
        vec![PatchOp::Insert {
            path: ValuePath::new(vec![PathSegment::MapKey(encoded.clone())]),
            map_key: None,
            value: Value::Unit,
        }],
    );
    assert_eq!(missing, Err(PatchError::MissingMapKey));
    let mismatch = CanonicalPatch::try_new(
        1,
        root(&state),
        vec![PatchOp::Insert {
            path: ValuePath::new(vec![PathSegment::MapKey(encoded.clone())]),
            map_key: Some(Value::Text(String::from("beta"))),
            value: Value::Unit,
        }],
    );
    assert_eq!(mismatch, Err(PatchError::MapKeyMismatch));
    let patch = CanonicalPatch::try_new(
        1,
        root(&state),
        vec![PatchOp::Insert {
            path: ValuePath::new(vec![PathSegment::MapKey(encoded.clone())]),
            map_key: Some(key.clone()),
            value: Value::Bool(true),
        }],
    )
    .unwrap_or_else(|error| panic!("{error:?}"));
    let applied = patch
        .apply::<TestHasher>(&state, &state_domain())
        .unwrap_or_else(|error| panic!("{error:?}"));
    let path = ValuePath::new(vec![PathSegment::MapKey(encoded)]);
    assert_eq!(value_at(applied.state(), &path), Ok(&Value::Bool(true)));
    assert_eq!(
        applied.state(),
        &Value::map_canonical(vec![MapEntry::new(key, Value::Bool(true))])
            .unwrap_or_else(|error| panic!("{error:?}"))
    );
}

#[test]
fn preconditions_fail_closed() {
    let state = Value::record_canonical(vec![Field::new(1, Value::U128(7))])
        .unwrap_or_else(|error| panic!("{error:?}"));
    let stale = CanonicalPatch::try_new(1, Hash32::zero(), vec![field_update(1, Value::U128(8))])
        .unwrap_or_else(|error| panic!("{error:?}"));
    assert_eq!(
        stale.apply::<TestHasher>(&state, &state_domain()),
        Err(PatchError::PreRootMismatch { expected: Hash32::zero(), actual: root(&state) })
    );
    let wrong_old = CanonicalPatch::try_new(1, root(&state), vec![field_update(1, Value::U128(8))])
        .unwrap_or_else(|error| panic!("{error:?}"));
    assert_eq!(
        wrong_old.apply::<TestHasher>(&state, &state_domain()),
        Err(PatchError::OldValueMismatch {
            path: ValuePath::new(vec![PathSegment::Field(1)]),
            expected: Hash32::zero(),
            actual: old_hash(&Value::U128(7)),
        })
    );
    let missing = CanonicalPatch::try_new(1, root(&state), vec![field_update(2, Value::U128(8))])
        .unwrap_or_else(|error| panic!("{error:?}"));
    assert_eq!(
        missing.apply::<TestHasher>(&state, &state_domain()),
        Err(PatchError::PathNotFound)
    );
    let kind = CanonicalPatch::try_new(
        1,
        root(&state),
        vec![PatchOp::Update {
            path: ValuePath::new(vec![PathSegment::TupleIndex(0)]),
            expected_old_hash: Hash32::zero(),
            value: Value::Unit,
        }],
    )
    .unwrap_or_else(|error| panic!("{error:?}"));
    assert_eq!(
        kind.apply::<TestHasher>(&state, &state_domain()),
        Err(PatchError::PathTypeMismatch)
    );
}

#[test]
fn insert_shapes_and_order_are_canonical() {
    assert_eq!(
        CanonicalPatch::try_new(
            1,
            Hash32::zero(),
            vec![PatchOp::Insert { path: ValuePath::new(Vec::new()), map_key: None, value: Value::Unit }]
        ),
        Err(PatchError::InsertAtRoot)
    );
    assert_eq!(
        CanonicalPatch::try_new(
            1,
            Hash32::zero(),
            vec![PatchOp::Insert {
                path: ValuePath::new(vec![PathSegment::VectorIndex(0)]),
                map_key: None,
                value: Value::Unit,
            }]
        ),
        Err(PatchError::UnsupportedInsertTarget)
    );
    let forward = CanonicalPatch::try_new(
        1,
        Hash32::zero(),
        vec![field_update(2, Value::U128(2)), field_update(1, Value::U128(1))],
    )
    .unwrap_or_else(|error| panic!("{error:?}"));
    let backward = CanonicalPatch::try_new(
        1,
        Hash32::zero(),
        vec![field_update(1, Value::U128(1)), field_update(2, Value::U128(2))],
    )
    .unwrap_or_else(|error| panic!("{error:?}"));
    assert_eq!(forward, backward);
    assert_eq!(forward.operations()[0].path().segments(), &[PathSegment::Field(1)]);
    assert_eq!(
        Value::record_canonical(vec![Field::new(2, Value::Unit), Field::new(1, Value::Unit)]),
        Err(ValueError::UnorderedRecordFields)
    );
}

use zeno_fcis::decode::DecodeError;
use zeno_fcis::patch::{decode_canonical_patch, initial_collection_capacity, PatchDecodeError, PatchDecodeLimits};

fn encode_patch_unchecked(operations: &[PatchOp]) -> Vec<u8> {
    let mut output = Vec::new();
    output.extend_from_slice(&1_u32.to_be_bytes());
    output.extend_from_slice(Hash32::zero().as_bytes());
    output.extend_from_slice(&(operations.len() as u32).to_be_bytes());
    for operation in operations {
        let encoded = operation.canonical_bytes().unwrap_or_else(|error| panic!("operation encoding failed: {error:?}"));
        output.extend_from_slice(&(encoded.len() as u32).to_be_bytes());
        output.extend_from_slice(&encoded);
    }
    output
}

fn canonical_patch_bytes(operations: Vec<PatchOp>) -> (CanonicalPatch, Vec<u8>) {
    let patch = CanonicalPatch::try_new(1, Hash32::zero(), operations)
        .unwrap_or_else(|error| panic!("patch construction failed: {error:?}"));
    let bytes = patch.canonical_bytes().unwrap_or_else(|error| panic!("patch encoding failed: {error:?}"));
    (patch, bytes)
}

#[test]
fn strict_decoder_round_trips_and_accepts_exact_outer_limits() {
    let (patch, bytes) = canonical_patch_bytes(vec![field_update(1, Value::U128(8))]);
    let byte_count = bytes.len() as u64;
    let limits = PatchDecodeLimits {
        max_input_bytes: byte_count,
        max_operations: 1,
        max_path_segments: 1,
        max_value_nodes: 1,
        ..PatchDecodeLimits::default()
    };

    let decoded = decode_canonical_patch(&bytes, limits);
    assert_eq!(decoded, Ok(patch.clone()));
    let reencoded = decoded.and_then(|value| value.canonical_bytes().map_err(PatchDecodeError::Encode));
    assert_eq!(reencoded, Ok(bytes.clone()));

    assert_eq!(
        decode_canonical_patch(&bytes, PatchDecodeLimits { max_input_bytes: byte_count.saturating_sub(1), ..limits }),
        Err(PatchDecodeError::InputLimit { limit: byte_count.saturating_sub(1), actual: byte_count })
    );
    assert_eq!(
        decode_canonical_patch(&bytes, PatchDecodeLimits { max_operations: 0, ..limits }),
        Err(PatchDecodeError::OperationLimit { limit: 0, actual: 1 })
    );
}

#[test]
fn truncated_large_operation_declaration_is_rejected() {
    let mut bytes = Vec::new();
    bytes.extend_from_slice(&1_u32.to_be_bytes());
    bytes.extend_from_slice(Hash32::zero().as_bytes());
    bytes.extend_from_slice(&4_096_u32.to_be_bytes());
    assert!(matches!(
        decode_canonical_patch(&bytes, PatchDecodeLimits::default()),
        Err(PatchDecodeError::UnexpectedEnd { .. })
    ));
}

#[test]
fn strict_decoder_enforces_path_and_aggregate_value_limits() {
    let operation = PatchOp::Update {
        path: ValuePath::new(vec![PathSegment::Field(1), PathSegment::TupleIndex(0)]),
        expected_old_hash: Hash32::zero(),
        value: Value::Bytes(vec![1_u8, 2]),
    };
    let (_, bytes) = canonical_patch_bytes(vec![operation]);
    let limits = PatchDecodeLimits {
        max_path_segments: 2,
        max_value_nodes: 1,
        max_value_payload_bytes: 2,
        ..PatchDecodeLimits::default()
    };
    assert!(decode_canonical_patch(&bytes, limits).is_ok());
    assert_eq!(
        decode_canonical_patch(&bytes, PatchDecodeLimits { max_path_segments: 1, ..limits }),
        Err(PatchDecodeError::PathSegmentLimit { limit: 1, actual: 2 })
    );
    assert_eq!(
        decode_canonical_patch(&bytes, PatchDecodeLimits { max_value_nodes: 0, ..limits }),
        Err(PatchDecodeError::ValueNodeLimit { limit: 0, actual: 1 })
    );
    assert_eq!(
        decode_canonical_patch(&bytes, PatchDecodeLimits { max_value_payload_bytes: 1, ..limits }),
        Err(PatchDecodeError::ValuePayloadLimit { limit: 1, actual: 2 })
    );
}

#[test]
fn strict_decoder_validates_canonical_map_keys_and_their_exact_bound() {
    let key = Value::U128(7);
    let encoded_key = key.canonical_bytes();
    let operation = PatchOp::Insert {
        path: ValuePath::new(vec![PathSegment::MapKey(encoded_key.clone())]),
        map_key: Some(key),
        value: Value::Bool(true),
    };
    let (_, bytes) = canonical_patch_bytes(vec![operation]);
    let key_bytes = encoded_key.len() as u64;
    let limits = PatchDecodeLimits { max_map_key_bytes: key_bytes, max_value_nodes: 3, ..PatchDecodeLimits::default() };
    assert!(decode_canonical_patch(&bytes, limits).is_ok());
    assert_eq!(
        decode_canonical_patch(&bytes, PatchDecodeLimits { max_map_key_bytes: key_bytes.saturating_sub(1), ..limits }),
        Err(PatchDecodeError::MapKeyLimit { limit: key_bytes.saturating_sub(1), actual: key_bytes })
    );
}

#[test]
fn strict_decoder_rejects_noncanonical_order_overlap_and_key_mismatch() {
    let reversed = encode_patch_unchecked(&[field_update(2, Value::U128(2)), field_update(1, Value::U128(1))]);
    assert_eq!(decode_canonical_patch(&reversed, PatchDecodeLimits::default()), Err(PatchDecodeError::NonCanonical));

    let overlapping = encode_patch_unchecked(&[
        field_update(1, Value::U128(1)),
        PatchOp::Update {
            path: ValuePath::new(vec![PathSegment::Field(1), PathSegment::Field(2)]),
            expected_old_hash: Hash32::zero(),
            value: Value::U128(2),
        },
    ]);
    assert_eq!(
        decode_canonical_patch(&overlapping, PatchDecodeLimits::default()),
        Err(PatchDecodeError::Patch(PatchError::OverlappingPaths))
    );

    let encoded_path_key = Value::U128(1).canonical_bytes();
    let mismatched = encode_patch_unchecked(&[PatchOp::Insert {
        path: ValuePath::new(vec![PathSegment::MapKey(encoded_path_key)]),
        map_key: Some(Value::U128(2)),
        value: Value::Bool(true),
    }]);
    assert_eq!(
        decode_canonical_patch(&mismatched, PatchDecodeLimits::default()),
        Err(PatchDecodeError::Patch(PatchError::MapKeyMismatch))
    );
}

#[test]
fn strict_decoder_propagates_nested_zcve_limits() {
    let (_, bytes) = canonical_patch_bytes(vec![field_update(1, Value::Vector(vec![Value::Unit, Value::Unit]))]);
    let mut limits = PatchDecodeLimits::default();
    limits.value.value.max_collection_len = 1;
    assert_eq!(
        decode_canonical_patch(&bytes, limits),
        Err(PatchDecodeError::Value(DecodeError::CollectionLimit { limit: 1, attempted: 2 }))
    );
}

#[test]
fn strict_decoder_rejects_malformed_tags_flags_trailing_bytes_and_truncation() {
    let (_, update_bytes) = canonical_patch_bytes(vec![field_update(1, Value::U128(8))]);

    let mut unknown_operation = update_bytes.clone();
    unknown_operation[44] = u8::MAX;
    assert_eq!(
        decode_canonical_patch(&unknown_operation, PatchDecodeLimits::default()),
        Err(PatchDecodeError::UnknownOperationTag(u8::MAX))
    );

    let mut unknown_path = update_bytes.clone();
    unknown_path[53] = u8::MAX;
    assert_eq!(
        decode_canonical_patch(&unknown_path, PatchDecodeLimits::default()),
        Err(PatchDecodeError::UnknownPathTag(u8::MAX))
    );

    let insert_path = ValuePath::new(vec![PathSegment::Field(1)]);
    let encoded_path = insert_path.canonical_bytes().unwrap_or_else(|error| panic!("path encoding failed: {error:?}"));
    let insert = PatchOp::Insert { path: insert_path, map_key: None, value: Value::Bool(true) };
    let (_, mut invalid_flag) = canonical_patch_bytes(vec![insert]);
    let flag_offset = 44 + 1 + 4 + encoded_path.len();
    invalid_flag[flag_offset] = 2;
    assert_eq!(
        decode_canonical_patch(&invalid_flag, PatchDecodeLimits::default()),
        Err(PatchDecodeError::InvalidMapKeyFlag(2))
    );

    let mut trailing = update_bytes.clone();
    trailing.push(0);
    assert!(matches!(
        decode_canonical_patch(&trailing, PatchDecodeLimits::default()),
        Err(PatchDecodeError::TrailingBytes { .. })
    ));

    let mut truncated = update_bytes;
    let _ = truncated.pop();
    assert!(matches!(
        decode_canonical_patch(&truncated, PatchDecodeLimits::default()),
        Err(PatchDecodeError::UnexpectedEnd { .. })
    ));
}

#[test]
fn collection_reservation_is_bounded_by_remaining_wire_bytes() {
    assert_eq!(initial_collection_capacity(4_096, 0, 4), Ok(0));
    assert_eq!(initial_collection_capacity(4_096, 15, 4), Ok(3));
    assert_eq!(initial_collection_capacity(64, 7, 1), Ok(7));
    assert_eq!(initial_collection_capacity(2, 100, 4), Ok(2));
    assert_eq!(initial_collection_capacity(1, 1, 0), Err(PatchDecodeError::LengthOverflow));
}

use zeno_fcis::commit::{CommitmentHasher, Hash32};
use zeno_fcis::plan::{CommitPlan, Effect, OutboxEntry, OutboxPlan, PlanError};
use zeno_fcis::value::Value;

struct TestHasher;

impl CommitmentHasher for TestHasher {
    fn algorithm_id() -> &'static str {
        "test/fold/v1"
    }

    fn hash(bytes: &[u8]) -> Hash32 {
        let mut output = [0_u8; 32];
        for (index, byte) in bytes.iter().copied().enumerate() {
            let slot = index % 32;
            output[slot] = output[slot].wrapping_add(byte);
        }
        Hash32::new(output)
    }
}

fn effect(ordinal: u32, payload: Value) -> Effect {
    Effect::new(ordinal, 10, Hash32::zero(), Hash32::zero(), payload)
}

#[test]
fn effect_order_is_canonical() {
    let effects = vec![
        Effect::new(2, 10, Hash32::zero(), Hash32::zero(), Value::U128(2)),
        Effect::new(1, 10, Hash32::zero(), Hash32::zero(), Value::U128(1)),
    ];
    let plan = CommitPlan::try_new(effects);
    assert!(plan.is_ok());
    let plan = match plan {
        Ok(plan) => plan,
        Err(error) => panic!("unexpected plan error: {error:?}"),
    };
    assert_eq!(plan.effects()[0].ordinal(), 1);
}

#[test]
fn duplicate_outbox_ordinals_fail_closed() {
    let entries = vec![
        OutboxEntry::new(1, 1, Value::Unit, Value::Bool(true)),
        OutboxEntry::new(1, 2, Value::Unit, Value::Bool(false)),
    ];
    assert_eq!(OutboxPlan::try_new(entries), Err(PlanError::DuplicateOutboxOrdinal(1)));
}

#[test]
fn duplicate_effect_ordinal_reports_the_least_duplicate() {
    let effects = vec![effect(9, Value::Unit), effect(4, Value::Unit), effect(9, Value::Unit), effect(4, Value::Unit)];
    assert_eq!(CommitPlan::try_new(effects), Err(PlanError::DuplicateEffectOrdinal(4)));
}

#[test]
fn plan_order_does_not_depend_on_input_order() {
    let first = CommitPlan::try_new(vec![effect(3, Value::U128(3)), effect(1, Value::U128(1)), effect(2, Value::U128(2))])
        .unwrap_or_else(|error| panic!("{error:?}"));
    let second = CommitPlan::try_new(vec![effect(2, Value::U128(2)), effect(3, Value::U128(3)), effect(1, Value::U128(1))])
        .unwrap_or_else(|error| panic!("{error:?}"));
    assert_eq!(first.canonical_bytes(), second.canonical_bytes());
    let ordinals: Vec<u32> = first.effects().iter().map(|e| e.ordinal()).collect();
    assert_eq!(ordinals, vec![1, 2, 3]);
}

#[test]
fn effect_and_plan_encodings_are_exact() {
    let payload = Value::Unit;
    let payload_bytes = payload.canonical_bytes();
    let effect = Effect::new(1, 2, Hash32::new([3; 32]), Hash32::new([4; 32]), payload);
    let mut expected = vec![0, 0, 0, 1, 0, 0, 0, 2];
    expected.extend_from_slice(&[3; 32]);
    expected.extend_from_slice(&[4; 32]);
    expected.extend_from_slice(&(payload_bytes.len() as u32).to_be_bytes());
    expected.extend_from_slice(&payload_bytes);
    assert_eq!(effect.canonical_bytes(), Ok(expected.clone()));

    let plan = CommitPlan::try_new(vec![effect]).unwrap_or_else(|error| panic!("{error:?}"));
    let mut plan_bytes = vec![0, 0, 0, 1];
    plan_bytes.extend_from_slice(&(expected.len() as u32).to_be_bytes());
    plan_bytes.extend_from_slice(&expected);
    assert_eq!(plan.canonical_bytes(), Ok(plan_bytes));
    assert_eq!(CommitPlan::empty().canonical_bytes(), Ok(vec![0, 0, 0, 0]));
    assert_eq!(OutboxPlan::empty().canonical_bytes(), Ok(vec![0, 0, 0, 0]));
}

#[test]
fn delivery_identity_binds_candidate_and_entry() {
    let entry = OutboxEntry::new(5, 6, Value::U128(7), Value::Bool(true));
    let encoded = entry.canonical_bytes().unwrap_or_else(|error| panic!("{error:?}"));
    let destination = Value::U128(7).canonical_bytes();
    let payload = Value::Bool(true).canonical_bytes();
    let mut expected = vec![0, 0, 0, 5, 0, 0, 0, 6];
    expected.extend_from_slice(&(destination.len() as u32).to_be_bytes());
    expected.extend_from_slice(&destination);
    expected.extend_from_slice(&(payload.len() as u32).to_be_bytes());
    expected.extend_from_slice(&payload);
    assert_eq!(encoded, expected);

    let candidate = Hash32::new([1; 32]);
    let preimage = entry.delivery_id_bytes(candidate).unwrap_or_else(|error| panic!("{error:?}"));
    let label = b"zeno-fcis/delivery";
    let mut frame = vec![0, label.len() as u8];
    frame.extend_from_slice(label);
    frame.extend_from_slice(&[0, 1]);
    frame.extend_from_slice(&((32 + encoded.len()) as u64).to_be_bytes());
    frame.extend_from_slice(&[1; 32]);
    frame.extend_from_slice(&encoded);
    assert_eq!(preimage, frame);
    assert_eq!(entry.delivery_id::<TestHasher>(candidate), Ok(TestHasher::hash(&frame)));
    assert_ne!(
        entry.delivery_id::<TestHasher>(candidate),
        entry.delivery_id::<TestHasher>(Hash32::new([2; 32]))
    );
}

use zeno_fcis::decode::DecodeError;
use zeno_fcis::plan::{decode_commit_plan, decode_outbox_plan, PlanDecodeError, PlanDecodeLimits};

fn outbox_entry(ordinal: u32, destination: Value, payload: Value) -> OutboxEntry {
    OutboxEntry::new(ordinal, 20, destination, payload)
}

fn encode_raw_items(items: &[Vec<u8>]) -> Vec<u8> {
    let mut bytes = Vec::new();
    bytes.extend_from_slice(&(items.len() as u32).to_be_bytes());
    for encoded in items {
        bytes.extend_from_slice(&(encoded.len() as u32).to_be_bytes());
        bytes.extend_from_slice(encoded);
    }
    bytes
}

fn encode_effects(items: &[Effect]) -> Vec<u8> {
    let encoded: Vec<Vec<u8>> = items
        .iter()
        .map(|item| item.canonical_bytes().unwrap_or_else(|error| panic!("test item encoding: {error:?}")))
        .collect();
    encode_raw_items(&encoded)
}

fn encode_entries(items: &[OutboxEntry]) -> Vec<u8> {
    let encoded: Vec<Vec<u8>> = items
        .iter()
        .map(|item| item.canonical_bytes().unwrap_or_else(|error| panic!("test item encoding: {error:?}")))
        .collect();
    encode_raw_items(&encoded)
}

#[test]
fn strict_decoders_round_trip_complete_canonical_plans() {
    let commit = CommitPlan::try_new(vec![effect(2, Value::Bool(true)), effect(1, Value::U128(7))])
        .unwrap_or_else(|error| panic!("commit plan: {error:?}"));
    let outbox = OutboxPlan::try_new(vec![
        outbox_entry(2, Value::U128(9), Value::Bool(false)),
        outbox_entry(1, Value::Unit, Value::Bool(true)),
    ])
    .unwrap_or_else(|error| panic!("outbox plan: {error:?}"));
    let commit_bytes = commit.canonical_bytes().unwrap_or_else(|error| panic!("commit bytes: {error:?}"));
    let outbox_bytes = outbox.canonical_bytes().unwrap_or_else(|error| panic!("outbox bytes: {error:?}"));

    assert_eq!(decode_commit_plan(&commit_bytes, PlanDecodeLimits::default()), Ok(commit));
    assert_eq!(decode_outbox_plan(&outbox_bytes, PlanDecodeLimits::default()), Ok(outbox));
    assert_eq!(
        decode_commit_plan(&4_097_u32.to_be_bytes(), PlanDecodeLimits::default()),
        Err(PlanDecodeError::EffectLimit { limit: 4_096, actual: 4_097 })
    );
    assert_eq!(decode_commit_plan(&0_u32.to_be_bytes(), PlanDecodeLimits::default()), Ok(CommitPlan::empty()));
    assert_eq!(decode_outbox_plan(&0_u32.to_be_bytes(), PlanDecodeLimits::default()), Ok(OutboxPlan::empty()));
}

#[test]
fn input_and_cardinality_limits_are_exact() {
    let commit_bytes = encode_effects(&[effect(1, Value::Unit)]);
    let outbox_bytes = encode_entries(&[outbox_entry(1, Value::Unit, Value::Bool(true))]);
    let commit_length = commit_bytes.len() as u64;

    let exact = PlanDecodeLimits { max_input_bytes: commit_length, max_effects: 1, ..PlanDecodeLimits::default() };
    assert!(decode_commit_plan(&commit_bytes, exact).is_ok());
    assert_eq!(
        decode_commit_plan(&commit_bytes, PlanDecodeLimits { max_input_bytes: commit_length - 1, ..exact }),
        Err(PlanDecodeError::InputLimit { limit: commit_length - 1, actual: commit_length })
    );
    assert_eq!(
        decode_commit_plan(&commit_bytes, PlanDecodeLimits { max_effects: 0, ..exact }),
        Err(PlanDecodeError::EffectLimit { limit: 0, actual: 1 })
    );

    let outbox_exact = PlanDecodeLimits { max_outbox_entries: 1, ..PlanDecodeLimits::default() };
    assert!(decode_outbox_plan(&outbox_bytes, outbox_exact).is_ok());
    assert_eq!(
        decode_outbox_plan(&outbox_bytes, PlanDecodeLimits { max_outbox_entries: 0, ..outbox_exact }),
        Err(PlanDecodeError::OutboxEntryLimit { limit: 0, actual: 1 })
    );
}

#[test]
fn aggregate_value_limits_cover_complete_outbox_plans() {
    let bytes = encode_entries(&[outbox_entry(1, Value::Bytes(vec![1_u8, 2]), Value::Bytes(vec![3_u8, 4, 5]))]);
    let exact = PlanDecodeLimits { max_value_nodes: 2, max_value_payload_bytes: 5, ..PlanDecodeLimits::default() };
    assert!(decode_outbox_plan(&bytes, exact).is_ok());
    assert_eq!(
        decode_outbox_plan(&bytes, PlanDecodeLimits { max_value_nodes: 1, ..exact }),
        Err(PlanDecodeError::ValueNodeLimit { limit: 1, actual: 2 })
    );
    assert_eq!(
        decode_outbox_plan(&bytes, PlanDecodeLimits { max_value_payload_bytes: 4, ..exact }),
        Err(PlanDecodeError::ValuePayloadLimit { limit: 4, actual: 5 })
    );
}

#[test]
fn nested_value_limits_propagate_without_partial_plans() {
    let bytes = encode_effects(&[effect(1, Value::Vector(vec![Value::Unit, Value::Unit]))]);
    let mut limits = PlanDecodeLimits::default();
    limits.value.value.max_collection_len = 1;
    assert_eq!(
        decode_commit_plan(&bytes, limits),
        Err(PlanDecodeError::Value(DecodeError::CollectionLimit { limit: 1, attempted: 2 }))
    );

    let unit_bytes = encode_effects(&[effect(1, Value::Unit)]);
    limits = PlanDecodeLimits::default();
    limits.value.max_input_bytes = 1;
    assert!(decode_commit_plan(&unit_bytes, limits).is_ok());
    limits.value.max_input_bytes = 0;
    assert_eq!(
        decode_commit_plan(&unit_bytes, limits),
        Err(PlanDecodeError::Value(DecodeError::InputLimit { limit: 0, actual: 1 }))
    );
}

#[test]
fn alternate_item_order_is_rejected_for_both_plan_kinds() {
    let commit = encode_effects(&[effect(2, Value::Bool(false)), effect(1, Value::Bool(true))]);
    let outbox = encode_entries(&[
        outbox_entry(2, Value::Unit, Value::Bool(false)),
        outbox_entry(1, Value::Unit, Value::Bool(true)),
    ]);
    assert_eq!(decode_commit_plan(&commit, PlanDecodeLimits::default()), Err(PlanDecodeError::NonCanonical));
    assert_eq!(decode_outbox_plan(&outbox, PlanDecodeLimits::default()), Err(PlanDecodeError::NonCanonical));
}

#[test]
fn duplicate_ordinals_are_rejected_during_reconstruction() {
    let commit = encode_effects(&[effect(1, Value::Unit), effect(1, Value::Bool(true))]);
    let outbox = encode_entries(&[
        outbox_entry(1, Value::Unit, Value::Bool(false)),
        outbox_entry(1, Value::Unit, Value::Bool(true)),
    ]);
    assert_eq!(
        decode_commit_plan(&commit, PlanDecodeLimits::default()),
        Err(PlanDecodeError::Plan(PlanError::DuplicateEffectOrdinal(1)))
    );
    assert_eq!(
        decode_outbox_plan(&outbox, PlanDecodeLimits::default()),
        Err(PlanDecodeError::Plan(PlanError::DuplicateOutboxOrdinal(1)))
    );
}

#[test]
fn malformed_nested_and_item_bytes_fail_closed() {
    let mut encoded_effect = effect(1, Value::Unit).canonical_bytes().unwrap_or_else(|error| panic!("{error:?}"));
    encoded_effect.push(0);
    let nested_trailing = encode_raw_items(&[encoded_effect]);
    assert!(matches!(
        decode_commit_plan(&nested_trailing, PlanDecodeLimits::default()),
        Err(PlanDecodeError::TrailingBytes { .. })
    ));

    let mut invalid_value_effect =
        effect(1, Value::Unit).canonical_bytes().unwrap_or_else(|error| panic!("{error:?}"));
    let payload_offset = 4 + 4 + 32 + 32 + 4;
    invalid_value_effect[payload_offset] = u8::MAX;
    let invalid_value = encode_raw_items(&[invalid_value_effect]);
    assert!(matches!(
        decode_commit_plan(&invalid_value, PlanDecodeLimits::default()),
        Err(PlanDecodeError::Value(DecodeError::UnknownTag(u8::MAX)))
    ));
}

#[test]
fn top_level_trailing_and_truncated_inputs_fail_closed() {
    let bytes = encode_effects(&[effect(1, Value::Unit)]);
    let mut trailing = bytes.clone();
    trailing.push(0);
    assert!(matches!(
        decode_commit_plan(&trailing, PlanDecodeLimits::default()),
        Err(PlanDecodeError::TrailingBytes { .. })
    ));

    let mut truncated = bytes;
    let _ = truncated.pop();
    assert!(matches!(
        decode_commit_plan(&truncated, PlanDecodeLimits::default()),
        Err(PlanDecodeError::UnexpectedEnd { .. })
    ));
}

use zeno_fcis::commit::{CommitmentHasher, Domain, Hash32};
use zeno_fcis::patch::{hash_value, CanonicalPatch, PatchError, PatchOp, PathSegment, ValuePath};
use zeno_fcis::plan::{CommitPlan, Effect, OutboxEntry, OutboxPlan};
use zeno_fcis::receipt::{
    CandidateBindings, CandidateBuilder, CommitBundle, ReasonCode, RejectReceipt, SealError, TextError,
};
use zeno_fcis::refine::DecisionKind;
use zeno_fcis::value::{Field, Value};

struct TestHasher;

impl CommitmentHasher for TestHasher {
    fn algorithm_id() -> &'static str {
        "test/fold/v1"
    }

    fn hash(bytes: &[u8]) -> Hash32 {
        let mut output = [0_u8; 32];
        for (index, byte) in bytes.iter().copied().enumerate() {
            let slot = index % 32;
            output[slot] = output[slot].wrapping_add(byte);
        }
        Hash32::new(output)
    }
}

fn domain() -> Domain {
    Domain::new("test/state", 1).unwrap_or_else(|error| panic!("domain: {error:?}"))
}

fn bindings() -> CandidateBindings {
    CandidateBindings {
        profile_hash: Hash32::new([1; 32]),
        command_hash: Hash32::new([2; 32]),
        context_hash: Hash32::new([3; 32]),
        precedence_hash: Hash32::new([4; 32]),
        algorithm_hash: Hash32::new([5; 32]),
        budget_hash: Hash32::new([6; 32]),
    }
}

fn empty_state() -> Value {
    Value::Record(Vec::<Field>::new())
}

fn insert_patch(state: &Value) -> CanonicalPatch {
    let pre_root = hash_value::<TestHasher>(&domain(), state).unwrap_or(Hash32::zero());
    CanonicalPatch::try_new(
        1,
        pre_root,
        vec![PatchOp::Insert {
            path: ValuePath::new(vec![PathSegment::Field(1)]),
            map_key: None,
            value: Value::U128(9),
        }],
    )
    .unwrap_or_else(|error| panic!("patch: {error:?}"))
}

fn candidate_bundle() -> CommitBundle {
    let state = empty_state();
    let commit_plan = CommitPlan::try_new(vec![Effect::new(
        0,
        7,
        Hash32::new([7; 32]),
        Hash32::new([8; 32]),
        Value::U128(9),
    )])
    .unwrap_or_else(|error| panic!("commit plan: {error:?}"));
    let outbox_plan = OutboxPlan::try_new(vec![OutboxEntry::new(0, 3, Value::U128(4), Value::U128(5))])
        .unwrap_or_else(|error| panic!("outbox plan: {error:?}"));
    CandidateBuilder::seal::<TestHasher>(
        &state,
        &domain(),
        DecisionKind::Accept,
        None,
        bindings(),
        insert_patch(&state),
        commit_plan,
        outbox_plan,
    )
    .unwrap_or_else(|error| panic!("seal: {error:?}"))
}

#[test]
fn candidate_seals_patch_plan_receipt_and_bundle_together() {
    let state = empty_state();
    let bundle = CandidateBuilder::seal::<TestHasher>(
        &state,
        &domain(),
        DecisionKind::Accept,
        None,
        bindings(),
        insert_patch(&state),
        CommitPlan::empty(),
        OutboxPlan::empty(),
    );
    assert!(bundle.is_ok());
    let bundle = bundle.unwrap_or_else(|error| panic!("seal: {error:?}"));
    assert_eq!(bundle.receipt().candidate_id(), bundle.candidate_id());
    assert_eq!(bundle.validate::<TestHasher>(&state, &domain()), Ok(()));
}

#[test]
fn committed_failure_requires_a_reason() {
    let state = Value::Unit;
    let root = hash_value::<TestHasher>(&domain(), &state).unwrap_or(Hash32::zero());
    let patch = CanonicalPatch::try_new(1, root, Vec::new()).unwrap_or_else(|error| panic!("patch: {error:?}"));
    let result = CandidateBuilder::seal::<TestHasher>(
        &state,
        &domain(),
        DecisionKind::CommittedFailure,
        None,
        bindings(),
        patch,
        CommitPlan::empty(),
        OutboxPlan::empty(),
    );
    assert_eq!(result, Err(SealError::MissingFailureReason));
}

#[test]
fn reject_receipt_is_unchanged_state_only() {
    let receipt = RejectReceipt::new(bindings(), Hash32::new([9; 32]), "invalid_command");
    assert!(receipt.is_ok());
    let receipt = receipt.unwrap_or_else(|error| panic!("receipt: {error:?}"));
    assert_eq!(receipt.pre_root(), receipt.post_root());
}

fn seal_with(kind: DecisionKind, reason: Option<&str>) -> Result<CommitBundle, SealError> {
    let state = Value::Unit;
    let root = hash_value::<TestHasher>(&domain(), &state).unwrap_or(Hash32::zero());
    let patch = CanonicalPatch::try_new(1, root, Vec::new()).unwrap_or_else(|error| panic!("patch: {error:?}"));
    CandidateBuilder::seal::<TestHasher>(
        &state,
        &domain(),
        kind,
        reason,
        bindings(),
        patch,
        CommitPlan::empty(),
        OutboxPlan::empty(),
    )
}

#[test]
fn decision_and_reason_pairs_follow_the_candidate_rules() {
    assert!(seal_with(DecisionKind::Accept, None).is_ok());
    assert!(seal_with(DecisionKind::CommittedFailure, Some("failed")).is_ok());
    assert_eq!(seal_with(DecisionKind::Reject, None).err(), Some(SealError::RejectCannotBeCandidate));
    assert_eq!(seal_with(DecisionKind::Reject, Some("reason")).err(), Some(SealError::RejectCannotBeCandidate));
    assert_eq!(seal_with(DecisionKind::Accept, Some("reason")).err(), Some(SealError::AcceptHasFailureReason));
    assert_eq!(
        seal_with(DecisionKind::CommittedFailure, Some("é")).err(),
        Some(SealError::ReasonCode(TextError::NonAscii))
    );
    let long = "x".repeat(97);
    assert_eq!(
        seal_with(DecisionKind::CommittedFailure, Some(&long)).err(),
        Some(SealError::ReasonCode(TextError::TooLong))
    );
    assert!(seal_with(DecisionKind::CommittedFailure, Some(&"x".repeat(96))).is_ok());
}

#[test]
fn sealing_fails_when_the_patch_does_not_apply() {
    let state = empty_state();
    let patch = insert_patch(&state);
    let result = CandidateBuilder::seal::<TestHasher>(
        &Value::Unit,
        &domain(),
        DecisionKind::Accept,
        None,
        bindings(),
        patch,
        CommitPlan::empty(),
        OutboxPlan::empty(),
    );
    assert!(matches!(result, Err(SealError::Patch(PatchError::PreRootMismatch { .. }))));
}

#[test]
fn validation_rejects_another_pre_state_and_returns_the_successor() {
    let bundle = candidate_bundle();
    let applied = bundle
        .validate_and_apply::<TestHasher>(&empty_state(), &domain())
        .unwrap_or_else(|error| panic!("validate: {error:?}"));
    let expected = Value::record_canonical(vec![Field::new(1, Value::U128(9))]).unwrap_or_else(|error| panic!("{error:?}"));
    assert_eq!(applied.state(), &expected);
    assert_eq!(applied.post_root(), bundle.body().post_root());
    assert!(matches!(
        bundle.validate::<TestHasher>(&Value::Unit, &domain()),
        Err(SealError::Patch(PatchError::PreRootMismatch { .. }))
    ));
    let other = Domain::new("test/other", 1).unwrap_or_else(|error| panic!("{error:?}"));
    assert!(matches!(
        bundle.validate::<TestHasher>(&empty_state(), &other),
        Err(SealError::Patch(PatchError::PreRootMismatch { .. }))
    ));
}

#[test]
fn bundle_and_receipt_encodings_share_one_body() {
    let bundle = candidate_bundle();
    let body = bundle.body().canonical_bytes().unwrap_or_else(|error| panic!("{error:?}"));
    assert_eq!(body[0], 0);
    assert_eq!(body[1], 0);
    assert_eq!(body.len(), 2 + 6 * 32 + 5 * 32);
    let receipt = bundle.receipt().canonical_bytes().unwrap_or_else(|error| panic!("{error:?}"));
    let mut expected = bundle.candidate_id().hash().as_bytes().to_vec();
    expected.extend_from_slice(&(body.len() as u32).to_be_bytes());
    expected.extend_from_slice(&body);
    assert_eq!(receipt, expected);
    let bytes = bundle.canonical_bytes().unwrap_or_else(|error| panic!("{error:?}"));
    assert_eq!(&bytes[..32], bundle.candidate_id().hash().as_bytes());
    assert!(bytes.ends_with(&receipt));
}

#[test]
fn reason_codes_are_bounded_ascii() {
    assert!(ReasonCode::try_from_string("ok".to_string()).is_ok());
    assert_eq!(ReasonCode::try_from_string("é".to_string()), Err(TextError::NonAscii));
    assert_eq!(ReasonCode::try_from_string("y".repeat(97)), Err(TextError::TooLong));
    let receipt = RejectReceipt::new(bindings(), Hash32::new([9; 32]), "invalid_command")
        .unwrap_or_else(|error| panic!("{error:?}"));
    let bytes = receipt.canonical_bytes().unwrap_or_else(|error| panic!("{error:?}"));
    assert_eq!(bytes.len(), 6 * 32 + 32 + 4 + 15);
    assert!(bytes.ends_with(b"invalid_command"));
}

use zeno_fcis::patch::{PatchDecodeError, PatchDecodeLimits};
use zeno_fcis::plan::PlanDecodeLimits;
use zeno_fcis::receipt::{
    decode_commit_bundle, decode_receipt, decode_reject_receipt, BundleDecodeLimits, ReceiptDecodeError,
    ReceiptDecodeLimits,
};

#[test]
fn strict_decoders_round_trip_complete_artifacts_at_exact_limits() {
    let bundle = candidate_bundle();
    let bundle_bytes = bundle.canonical_bytes().unwrap_or_else(|error| panic!("bundle bytes: {error:?}"));
    let receipt_bytes = bundle.receipt().canonical_bytes().unwrap_or_else(|error| panic!("receipt bytes: {error:?}"));
    let receipt_limits = ReceiptDecodeLimits {
        max_input_bytes: receipt_bytes.len() as u64,
        max_body_bytes: bundle.body().canonical_bytes().unwrap_or_default().len() as u64,
    };
    let decoded_receipt = decode_receipt::<TestHasher>(&receipt_bytes, receipt_limits);
    assert_eq!(decoded_receipt, Ok(bundle.receipt().clone()));

    let limits = BundleDecodeLimits {
        max_input_bytes: bundle_bytes.len() as u64,
        receipt: receipt_limits,
        patch: PatchDecodeLimits {
            max_input_bytes: bundle.patch().canonical_bytes().unwrap_or_default().len() as u64,
            ..PatchDecodeLimits::default()
        },
        commit_plan: PlanDecodeLimits {
            max_input_bytes: bundle.commit_plan().canonical_bytes().unwrap_or_default().len() as u64,
            ..PlanDecodeLimits::default()
        },
        outbox_plan: PlanDecodeLimits {
            max_input_bytes: bundle.outbox_plan().canonical_bytes().unwrap_or_default().len() as u64,
            ..PlanDecodeLimits::default()
        },
    };
    let decoded = decode_commit_bundle::<TestHasher>(&bundle_bytes, &empty_state(), &domain(), limits);
    assert_eq!(decoded, Ok(bundle));
}

#[test]
fn strict_bundle_decoder_rejects_candidate_receipt_and_state_substitution() {
    let bundle = candidate_bundle();
    let bytes = bundle.canonical_bytes().unwrap_or_else(|error| panic!("bundle bytes: {error:?}"));
    let mut changed_candidate = bytes.clone();
    changed_candidate[0] ^= 1;
    assert_eq!(
        decode_commit_bundle::<TestHasher>(&changed_candidate, &empty_state(), &domain(), BundleDecodeLimits::default()),
        Err(ReceiptDecodeError::CandidateMismatch)
    );

    let mut changed_receipt = bytes.clone();
    let last = changed_receipt.len() - 1;
    changed_receipt[last] ^= 1;
    assert!(matches!(
        decode_commit_bundle::<TestHasher>(&changed_receipt, &empty_state(), &domain(), BundleDecodeLimits::default()),
        Err(ReceiptDecodeError::CandidateMismatch)
            | Err(ReceiptDecodeError::ReceiptMismatch)
            | Err(ReceiptDecodeError::NonCanonical)
    ));

    assert!(matches!(
        decode_commit_bundle::<TestHasher>(&bytes, &Value::Unit, &domain(), BundleDecodeLimits::default()),
        Err(ReceiptDecodeError::Seal(SealError::Patch(_)))
    ));
}

#[test]
fn strict_bundle_decoder_enforces_nested_and_outer_bounds() {
    let bundle = candidate_bundle();
    let bytes = bundle.canonical_bytes().unwrap_or_else(|error| panic!("bundle bytes: {error:?}"));
    let actual = bytes.len() as u64;
    assert_eq!(
        decode_commit_bundle::<TestHasher>(
            &bytes,
            &empty_state(),
            &domain(),
            BundleDecodeLimits { max_input_bytes: actual - 1, ..BundleDecodeLimits::default() },
        ),
        Err(ReceiptDecodeError::InputLimit { limit: actual - 1, actual })
    );
    assert!(matches!(
        decode_commit_bundle::<TestHasher>(
            &bytes,
            &empty_state(),
            &domain(),
            BundleDecodeLimits {
                patch: PatchDecodeLimits { max_operations: 0, ..PatchDecodeLimits::default() },
                ..BundleDecodeLimits::default()
            },
        ),
        Err(ReceiptDecodeError::Patch(PatchDecodeError::OperationLimit { .. }))
    ));
}

#[test]
fn strict_decoders_reject_malformed_flags_trailing_bytes_and_truncation() {
    let bundle = candidate_bundle();
    let mut receipt = bundle.receipt().canonical_bytes().unwrap_or_else(|error| panic!("receipt bytes: {error:?}"));
    let body_offset = 32 + 4;
    receipt[body_offset + 1] = 2;
    assert_eq!(
        decode_receipt::<TestHasher>(&receipt, ReceiptDecodeLimits::default()),
        Err(ReceiptDecodeError::InvalidReasonFlag(2))
    );

    let mut trailing = bundle.canonical_bytes().unwrap_or_else(|error| panic!("bundle bytes: {error:?}"));
    trailing.push(0);
    assert!(matches!(
        decode_commit_bundle::<TestHasher>(&trailing, &empty_state(), &domain(), BundleDecodeLimits::default()),
        Err(ReceiptDecodeError::TrailingBytes { .. })
    ));
    trailing.truncate(31);
    assert!(matches!(
        decode_commit_bundle::<TestHasher>(&trailing, &empty_state(), &domain(), BundleDecodeLimits::default()),
        Err(ReceiptDecodeError::UnexpectedEnd { .. })
    ));
}

#[test]
fn strict_reject_receipt_decoder_round_trips_and_rejects_non_ascii() {
    let receipt = RejectReceipt::new(bindings(), Hash32::new([9; 32]), "invalid_command")
        .unwrap_or_else(|error| panic!("receipt: {error:?}"));
    let bytes = receipt.canonical_bytes().unwrap_or_else(|error| panic!("receipt bytes: {error:?}"));
    assert_eq!(decode_reject_receipt(&bytes, ReceiptDecodeLimits::default()), Ok(receipt));
    let mut invalid = bytes;
    let last = invalid.len() - 1;
    invalid[last] = 0xff;
    assert_eq!(
        decode_reject_receipt(&invalid, ReceiptDecodeLimits::default()),
        Err(ReceiptDecodeError::InvalidReasonText)
    );
}

use zeno_fcis::commit::{CommitmentHasher, Domain, Hash32};
use zeno_fcis::patch::{hash_precondition_value, hash_value, CanonicalPatch, PatchError, PatchOp, PathSegment, ValuePath};
use zeno_fcis::plan::{CommitPlan, Effect, OutboxEntry, OutboxPlan};
use zeno_fcis::receipt::{
    decode_commit_bundle, BundleDecodeLimits, CandidateBindings, CandidateBuilder, CommitBundle, SealError, TextError,
};
use zeno_fcis::refine::DecisionKind;
use zeno_fcis::value::{Field, Value};

// Deliberately colliding: structural checks must not rest on collision resistance.
struct ConstantHasher;

impl CommitmentHasher for ConstantHasher {
    fn algorithm_id() -> &'static str {
        "test/constant"
    }

    fn hash(_: &[u8]) -> Hash32 {
        Hash32::new([7; 32])
    }
}

struct FoldHasher;

impl CommitmentHasher for FoldHasher {
    fn algorithm_id() -> &'static str {
        "test/fold"
    }

    fn hash(bytes: &[u8]) -> Hash32 {
        let mut output = [0_u8; 32];
        for (index, byte) in bytes.iter().copied().enumerate() {
            let slot = index % 32;
            output[slot] = output[slot].wrapping_mul(31).wrapping_add(byte);
        }
        Hash32::new(output)
    }
}

fn checked<T, E: std::fmt::Debug>(result: Result<T, E>) -> T {
    result.unwrap_or_else(|error| panic!("test construction: {error:?}"))
}

fn domain() -> Domain {
    checked(Domain::new("test/validation", 1))
}

fn bindings() -> CandidateBindings {
    CandidateBindings {
        profile_hash: Hash32::new([1; 32]),
        command_hash: Hash32::new([2; 32]),
        context_hash: Hash32::new([3; 32]),
        precedence_hash: Hash32::new([4; 32]),
        algorithm_hash: Hash32::new([5; 32]),
        budget_hash: Hash32::new([6; 32]),
    }
}

fn plans(count: u32) -> (CommitPlan, OutboxPlan) {
    (
        checked(CommitPlan::try_new(
            (0..count)
                .map(|i| {
                    Effect::new(
                        i,
                        7,
                        Hash32::new([8; 32]),
                        Hash32::new([9; 32]),
                        Value::Vector(vec![Value::U128(u128::from(i)), Value::U128(42)]),
                    )
                })
                .collect(),
        )),
        checked(OutboxPlan::try_new(
            (0..count).map(|i| OutboxEntry::new(i, 3, Value::U128(4), Value::U128(u128::from(i)))).collect(),
        )),
    )
}

fn cases<H: CommitmentHasher>() -> Vec<(Value, CanonicalPatch)> {
    let mut result = Vec::new();
    for count in [0_u16, 1, 8, 32] {
        let state = checked(Value::record_canonical(
            (0..count).map(|i| Field::new(i, Value::I128(i128::from(i)))).collect(),
        ));
        let root = checked(hash_value::<H>(&domain(), &state));
        for changed in 0..=count.min(4) {
            let mut operations = Vec::new();
            for i in 0..changed {
                let path = ValuePath::new(vec![PathSegment::Field(i)]);
                let old = checked(hash_precondition_value::<H>(&Value::I128(i128::from(i))));
                operations.push(if i % 2 == 0 {
                    PatchOp::Update { path, expected_old_hash: old, value: Value::U128(u128::MAX) }
                } else {
                    PatchOp::Delete { path, expected_old_hash: old }
                });
            }
            operations.push(PatchOp::Insert {
                path: ValuePath::new(vec![PathSegment::Field(count)]),
                map_key: None,
                value: Value::Tuple(vec![Value::Bool(true), Value::I128(i128::MIN)]),
            });
            result.push((state.clone(), checked(CanonicalPatch::try_new(1, root, operations))));
        }
    }
    for state in [
        Value::Unit,
        Value::Bool(false),
        Value::U128(u128::MAX),
        Value::I128(i128::MIN),
        Value::Bytes(vec![0, 255]),
        Value::Text("abc".to_string()),
        Value::Enum { type_id: 42, variant: 9 },
        Value::Tuple(vec![Value::Unit, Value::Bool(true)]),
        Value::Sum { type_id: 3, variant: 2, payload: Some(Box::new(Value::I128(-1))) },
        Value::Vector(vec![Value::Unit]),
        Value::Mapping(Vec::new()),
    ] {
        let root = checked(hash_value::<H>(&domain(), &state));
        result.push((state.clone(), checked(CanonicalPatch::try_new(1, root, Vec::new()))));
        let patch = checked(CanonicalPatch::try_new(
            1,
            root,
            vec![PatchOp::Update {
                path: ValuePath::new(Vec::new()),
                expected_old_hash: checked(hash_precondition_value::<H>(&state)),
                value: Value::Vector(vec![Value::I128(i128::MIN), Value::I128(i128::MAX)]),
            }],
        ));
        result.push((state, patch));
    }
    result
}

/// The validation of a sealed bundle: it applies under its own pre-state and
/// domain, and, under a hasher without collisions, refuses another state or
/// another domain.
fn check_validation<H: CommitmentHasher>(bundle: &CommitBundle, state: &Value) {
    let applied = checked(bundle.validate_and_apply::<H>(state, &domain()));
    assert_eq!(applied.post_root(), bundle.body().post_root());
    if H::hash(b"a") == H::hash(b"b") {
        return;
    }
    assert!(matches!(
        bundle.validate_and_apply::<H>(&Value::Bool(true), &domain()),
        Err(SealError::Patch(_))
    ));
    assert!(bundle.validate_and_apply::<H>(state, &checked(Domain::new("test/other", 1))).is_err());
    assert!(bundle.validate_and_apply::<H>(state, &checked(Domain::new("test/validation", 2))).is_err());
}

fn expected_reason_error(kind: DecisionKind, reason: Option<&str>) -> Option<SealError> {
    match (kind, reason) {
        (DecisionKind::Accept, None) => None,
        (DecisionKind::Accept, Some(_)) => Some(SealError::AcceptHasFailureReason),
        (DecisionKind::Reject, _) => Some(SealError::RejectCannotBeCandidate),
        (DecisionKind::CommittedFailure, None) => Some(SealError::MissingFailureReason),
        (DecisionKind::CommittedFailure, Some(text)) if text.is_ascii() => None,
        (DecisionKind::CommittedFailure, Some(_)) => Some(SealError::ReasonCode(TextError::NonAscii)),
    }
}

fn check_sealing_and_validation<H: CommitmentHasher>() {
    for (state, patch) in cases::<H>() {
        for count in [0, 1, 4] {
            for (kind, reason) in [
                (DecisionKind::Accept, None),
                (DecisionKind::CommittedFailure, Some("failed")),
                (DecisionKind::Reject, None),
                (DecisionKind::Reject, Some("reason")),
                (DecisionKind::Accept, Some("reason")),
                (DecisionKind::CommittedFailure, None),
                (DecisionKind::CommittedFailure, Some("")),
                (DecisionKind::CommittedFailure, Some("é")),
            ] {
                let (commit, outbox) = plans(count);
                let sealed = CandidateBuilder::seal::<H>(
                    &state,
                    &domain(),
                    kind,
                    reason,
                    bindings(),
                    patch.clone(),
                    commit,
                    outbox,
                );
                match expected_reason_error(kind, reason) {
                    Some(error) => assert_eq!(sealed, Err(error)),
                    None => {
                        let bundle = checked(sealed);
                        assert_eq!(bundle.patch(), &patch);
                        assert_eq!(bundle.body().pre_root(), patch.expected_pre_root());
                        check_validation::<H>(&bundle, &state);
                        let bytes = checked(bundle.canonical_bytes());
                        let decoded = checked(decode_commit_bundle::<H>(
                            &bytes,
                            &state,
                            &domain(),
                            BundleDecodeLimits::default(),
                        ));
                        assert_eq!(decoded, bundle);
                        check_validation::<H>(&decoded, &state);
                    },
                }
            }
        }
    }
}

fn blob(output: &mut Vec<u8>, bytes: &[u8]) {
    output.extend_from_slice(&(bytes.len() as u32).to_be_bytes());
    output.extend_from_slice(bytes);
}

/// Bundle bytes assembled from separately encoded parts.
fn assemble(id: &[u8], body: &[u8], patch: &[u8], commit: &[u8], outbox: &[u8], receipt: &[u8]) -> Vec<u8> {
    let mut output = id.to_vec();
    blob(&mut output, body);
    blob(&mut output, patch);
    blob(&mut output, commit);
    blob(&mut output, outbox);
    blob(&mut output, receipt);
    output
}

/// Offsets of the body fields of an acceptance body, which carries no reason.
const BODY_FIELDS: [usize; 13] = [194, 226, 258, 290, 322, 2, 34, 66, 98, 130, 162, 1, 0];

fn check_field_mutations<H: CommitmentHasher>() {
    for (state, patch) in cases::<H>() {
        let (commit, outbox) = plans(1);
        let bundle = checked(CandidateBuilder::seal::<H>(
            &state,
            &domain(),
            DecisionKind::Accept,
            None,
            bindings(),
            patch,
            commit,
            outbox,
        ));
        let id = bundle.candidate_id().hash().as_bytes().to_vec();
        let body = checked(bundle.body().canonical_bytes());
        let patch_bytes = checked(bundle.patch().canonical_bytes());
        let commit_bytes = checked(bundle.commit_plan().canonical_bytes());
        let outbox_bytes = checked(bundle.outbox_plan().canonical_bytes());
        let receipt = checked(bundle.receipt().canonical_bytes());
        let original = assemble(&id, &body, &patch_bytes, &commit_bytes, &outbox_bytes, &receipt);
        assert_eq!(original, checked(bundle.canonical_bytes()));
        let decode = |bytes: &[u8]| decode_commit_bundle::<H>(bytes, &state, &domain(), BundleDecodeLimits::default());
        assert_eq!(checked(decode(&original)), bundle);

        let mut mutations = Vec::new();
        let mut changed_id = id.clone();
        changed_id[0] ^= 0x5a;
        mutations.push(assemble(&changed_id, &body, &patch_bytes, &commit_bytes, &outbox_bytes, &receipt));
        let mut changed_receipt = receipt.clone();
        changed_receipt[0] ^= 0x5a;
        mutations.push(assemble(&id, &body, &patch_bytes, &commit_bytes, &outbox_bytes, &changed_receipt));
        for offset in BODY_FIELDS {
            let mut changed_body = body.clone();
            changed_body[offset] ^= if offset < 2 { 1 } else { 0x5a };
            mutations.push(assemble(&id, &changed_body, &patch_bytes, &commit_bytes, &outbox_bytes, &receipt));
            let mut changed_receipt = receipt.clone();
            changed_receipt[36 + offset] ^= if offset < 2 { 1 } else { 0x5a };
            mutations.push(assemble(&id, &body, &patch_bytes, &commit_bytes, &outbox_bytes, &changed_receipt));
        }
        let colliding = H::hash(b"a") == H::hash(b"b");
        for changed in &mutations {
            assert!(decode(changed).is_err());
        }
        if colliding {
            continue;
        }
        let empty_commit = checked(CommitPlan::empty().canonical_bytes());
        mutations.push(assemble(&id, &body, &patch_bytes, &empty_commit, &outbox_bytes, &receipt));
        let empty_outbox = checked(OutboxPlan::empty().canonical_bytes());
        mutations.push(assemble(&id, &body, &patch_bytes, &commit_bytes, &empty_outbox, &receipt));
        let other_patch = checked(checked(CanonicalPatch::try_new(1, Hash32::zero(), Vec::new())).canonical_bytes());
        mutations.push(assemble(&id, &body, &other_patch, &commit_bytes, &outbox_bytes, &receipt));
        for changed in mutations {
            assert!(decode(&changed).is_err());
            assert!(decode_commit_bundle::<H>(
                &changed,
                &Value::Text("é".to_string()),
                &domain(),
                BundleDecodeLimits::default(),
            )
            .is_err());
        }
    }
}

fn check_error_precedence<H: CommitmentHasher>() {
    let state = Value::Unit;
    let patch = checked(CanonicalPatch::try_new(1, checked(hash_value::<H>(&domain(), &state)), Vec::new()));
    let (commit, outbox) = plans(1);
    let bundle = checked(CandidateBuilder::seal::<H>(
        &state,
        &domain(),
        DecisionKind::Accept,
        None,
        bindings(),
        patch,
        commit,
        outbox,
    ));
    assert!(bundle.validate_and_apply::<H>(&state, &domain()).is_ok());
    for bad_reason in [false, true] {
        for other_state in [false, true] {
            let pre_state = if other_state { Value::Text("é".to_string()) } else { state.clone() };
            let reason = if bad_reason { Some("failed") } else { None };
            let resealed = CandidateBuilder::seal::<H>(
                &pre_state,
                &domain(),
                DecisionKind::Accept,
                reason,
                bindings(),
                bundle.patch().clone(),
                plans(1).0,
                plans(1).1,
            );
            if bad_reason {
                assert_eq!(resealed, Err(SealError::AcceptHasFailureReason));
            } else if other_state && H::hash(b"a") != H::hash(b"b") {
                assert!(matches!(resealed, Err(SealError::Patch(PatchError::PreRootMismatch { .. }))));
            } else if other_state {
                assert!(resealed.is_ok());
            } else {
                assert_eq!(checked(resealed), bundle);
            }
        }
    }
}

#[test]
fn sealing_and_validation_match_released_results_and_bytes() {
    check_sealing_and_validation::<FoldHasher>();
    check_sealing_and_validation::<ConstantHasher>();
}

#[test]
fn every_body_identity_and_receipt_field_retains_its_check() {
    check_field_mutations::<FoldHasher>();
    check_field_mutations::<ConstantHasher>();
}

#[test]
fn simultaneous_failures_keep_the_released_first_error() {
    check_error_precedence::<FoldHasher>();
    check_error_precedence::<ConstantHasher>();
}

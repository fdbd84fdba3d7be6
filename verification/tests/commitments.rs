use zeno_fcis::commit::{CommitmentHasher, Domain, Hash32};
use zeno_fcis::patch::{hash_value, CanonicalPatch, PatchError, PatchOp, PathSegment, ValuePath};
use zeno_fcis::plan::{CommitPlan, OutboxPlan};
use zeno_fcis::receipt::{candidate_bytes, candidate_id, CandidateBindings, CandidateBuilder, SealError};
use zeno_fcis::refine::DecisionKind;
use zeno_fcis::security::{DeploymentContract, Mitigation};
use zeno_fcis::value::{Field, Value};

struct FoldHasher;

impl CommitmentHasher for FoldHasher {
    fn algorithm_id() -> &'static str {
        "test/fold"
    }

    fn hash(bytes: &[u8]) -> Hash32 {
        let mut output = [0_u8; 32];
        for (index, byte) in bytes.iter().copied().enumerate() {
            let slot = index % 32;
            output[slot] = output[slot].wrapping_mul(31).wrapping_add(byte);
        }
        Hash32::new(output)
    }
}

fn checked<T, E: std::fmt::Debug>(result: Result<T, E>) -> T {
    result.unwrap_or_else(|error| panic!("test construction: {error:?}"))
}

fn domain() -> Domain {
    checked(Domain::new("test/commitments", 1))
}

fn state() -> Value {
    checked(Value::record_canonical(vec![Field::new(0, Value::U128(1)), Field::new(1, Value::U128(2))]))
}

fn insert_patch(root: Hash32) -> CanonicalPatch {
    checked(CanonicalPatch::try_new(
        1,
        root,
        vec![PatchOp::Insert {
            path: ValuePath::new(vec![PathSegment::Field(2)]),
            map_key: None,
            value: Value::Bool(true),
        }],
    ))
}

fn bindings() -> CandidateBindings {
    CandidateBindings {
        profile_hash: Hash32::new([1; 32]),
        command_hash: Hash32::new([2; 32]),
        context_hash: Hash32::new([3; 32]),
        precedence_hash: Hash32::new([4; 32]),
        algorithm_hash: Hash32::new([5; 32]),
        budget_hash: Hash32::new([6; 32]),
    }
}

#[test]
fn pre_root_mismatch_reports_the_state_root() {
    let root = checked(hash_value::<FoldHasher>(&domain(), &state()));
    let patch = insert_patch(Hash32::new([9; 32]));
    match patch.apply::<FoldHasher>(&state(), &domain()) {
        Err(PatchError::PreRootMismatch { expected, actual }) => {
            assert_eq!(expected, Hash32::new([9; 32]));
            assert_eq!(actual, root);
        },
        other => panic!("expected a pre-root mismatch, got {other:?}"),
    }
}

#[test]
fn applied_post_root_is_the_root_of_the_successor() {
    let root = checked(hash_value::<FoldHasher>(&domain(), &state()));
    let applied = checked(insert_patch(root).apply::<FoldHasher>(&state(), &domain()));
    assert_eq!(applied.post_root(), checked(hash_value::<FoldHasher>(&domain(), applied.state())));
    assert_ne!(applied.post_root(), root);
}

#[test]
fn sealed_identity_is_the_hash_of_the_candidate_preimage() {
    let root = checked(hash_value::<FoldHasher>(&domain(), &state()));
    let bundle = checked(CandidateBuilder::seal::<FoldHasher>(
        &state(),
        &domain(),
        DecisionKind::Accept,
        None,
        bindings(),
        insert_patch(root),
        checked(CommitPlan::try_new(Vec::new())),
        checked(OutboxPlan::try_new(Vec::new())),
    ));
    let expected = FoldHasher::hash(&candidate_bytes(bundle.body()));
    assert_eq!(bundle.candidate_id().hash(), expected);
    assert_eq!(candidate_id::<FoldHasher>(bundle.body()).hash(), expected);
    assert_ne!(expected, Hash32::zero());
}

#[test]
fn sealing_a_patch_for_another_root_fails_with_that_root() {
    let root = checked(hash_value::<FoldHasher>(&domain(), &state()));
    let sealed = CandidateBuilder::seal::<FoldHasher>(
        &state(),
        &domain(),
        DecisionKind::Accept,
        None,
        bindings(),
        insert_patch(Hash32::new([9; 32])),
        checked(CommitPlan::try_new(Vec::new())),
        checked(OutboxPlan::try_new(Vec::new())),
    );
    assert_eq!(
        sealed,
        Err(SealError::Patch(PatchError::PreRootMismatch { expected: Hash32::new([9; 32]), actual: root }))
    );
}

#[test]
fn deployment_commitment_hashes_its_commitment_bytes() {
    let deployment = checked(DeploymentContract::try_new(
        Hash32::new([1; 32]),
        Hash32::new([2; 32]),
        Hash32::new([3; 32]),
        Hash32::new([4; 32]),
        Hash32::new([5; 32]),
        Hash32::new([6; 32]),
        vec![Mitigation::FixedWork],
    ));
    assert_eq!(
        checked(deployment.commitment::<FoldHasher>()),
        FoldHasher::hash(&deployment.commitment_bytes())
    );
}

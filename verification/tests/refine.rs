use zeno_fcis::commit::Hash32;
use zeno_fcis::refine::{
    compare_exact, DecisionArtifacts, DecisionKind, Mismatch, NormalizedDecision, PromotionPolicy,
    RefineError, ToolEvidence, ToolKind,
};

fn hash(byte: u8) -> Hash32 {
    Hash32::new([byte; 32])
}

fn artifacts(reason: &str) -> DecisionArtifacts {
    DecisionArtifacts {
        kind: DecisionKind::Reject,
        reason_code: Some(reason.to_string()),
        profile_hash: hash(1),
        command_hash: hash(2),
        context_hash: hash(3),
        precedence_hash: hash(4),
        algorithm_hash: hash(5),
        budget_hash: hash(6),
        pre_root: hash(7),
        post_root: hash(7),
        candidate_id: None,
        patch_bytes: None,
        commit_plan_bytes: None,
        outbox_plan_bytes: None,
        receipt_bytes: vec![1],
        bundle_bytes: None,
    }
}

fn rejection(reason: &str) -> NormalizedDecision {
    NormalizedDecision::try_new(artifacts(reason)).unwrap_or_else(|error| panic!("decision: {error:?}"))
}

#[test]
fn exact_comparison_reports_artifact_differences() {
    let left = rejection("reason_a");
    let right = rejection("reason_b");
    assert_eq!(compare_exact(&left, &right).mismatches(), [Mismatch::ReasonCode]);
}

#[test]
fn a_decision_refines_itself_exactly() {
    let fabricated = rejection("fabricated");
    assert!(compare_exact(&fabricated, &fabricated).is_exact());
}

#[test]
fn decision_admission_checks_each_rule() {
    let mut accepted_with_reason = artifacts("reason");
    accepted_with_reason.kind = DecisionKind::Accept;
    assert_eq!(NormalizedDecision::try_new(accepted_with_reason), Err(RefineError::InvalidReasonCode));
    let mut empty = artifacts("reason");
    empty.reason_code = Some(String::new());
    assert_eq!(NormalizedDecision::try_new(empty), Err(RefineError::InvalidReasonCode));
    let mut long = artifacts("reason");
    long.reason_code = Some("r".repeat(97));
    assert_eq!(NormalizedDecision::try_new(long), Err(RefineError::InvalidReasonCode));
    let mut non_ascii = artifacts("reason");
    non_ascii.reason_code = Some("r\u{e9}".to_string());
    assert_eq!(NormalizedDecision::try_new(non_ascii), Err(RefineError::InvalidReasonCode));
    let mut changed = artifacts("reason");
    changed.post_root = hash(8);
    assert_eq!(NormalizedDecision::try_new(changed), Err(RefineError::RejectedStateChanged));
    let mut carried = artifacts("reason");
    carried.patch_bytes = Some(vec![1]);
    assert_eq!(NormalizedDecision::try_new(carried), Err(RefineError::RejectedCandidatePresent));
    let mut missing = artifacts("reason");
    missing.kind = DecisionKind::CommittedFailure;
    missing.candidate_id = Some(hash(9));
    assert_eq!(NormalizedDecision::try_new(missing), Err(RefineError::CommittedArtifactMissing));
    let mut oversized = artifacts("reason");
    oversized.receipt_bytes = vec![0; 64 * 1024 * 1024 + 1];
    assert_eq!(NormalizedDecision::try_new(oversized), Err(RefineError::ArtifactTooLarge));
    let mut accepted = artifacts("reason");
    accepted.kind = DecisionKind::Accept;
    accepted.reason_code = None;
    accepted.post_root = hash(8);
    accepted.candidate_id = Some(hash(9));
    accepted.patch_bytes = Some(vec![1]);
    accepted.commit_plan_bytes = Some(vec![2]);
    accepted.outbox_plan_bytes = Some(vec![3]);
    accepted.bundle_bytes = Some(vec![4]);
    let accepted = NormalizedDecision::try_new(accepted).unwrap();
    let rejected = rejection("reason");
    let report = compare_exact(&accepted, &rejected);
    assert_eq!(
        report.mismatches(),
        [
            Mismatch::DecisionKind,
            Mismatch::ReasonCode,
            Mismatch::PostRoot,
            Mismatch::CandidateId,
            Mismatch::PatchBytes,
            Mismatch::CommitPlanBytes,
            Mismatch::OutboxPlanBytes,
            Mismatch::BundleBytes,
        ]
    );
    assert!(!report.is_exact());
}

#[test]
fn promotion_policies_are_canonical_and_duplicate_free() {
    let policy = PromotionPolicy::try_new(vec![ToolKind::Lean, ToolKind::Z3, ToolKind::Kani], false).unwrap();
    assert_eq!(policy.required_tools(), [ToolKind::Z3, ToolKind::Lean, ToolKind::Kani]);
    assert!(!policy.require_exact_cases());
    assert_eq!(
        PromotionPolicy::try_new(vec![ToolKind::Lean, ToolKind::Lean], true),
        Err(RefineError::InvalidPromotionPolicy)
    );
    assert_eq!(
        PromotionPolicy::try_new(vec![ToolKind::Z3; 65], true),
        Err(RefineError::InvalidPromotionPolicy)
    );
    let mut bytes = Vec::new();
    policy.encode_to(&mut bytes);
    assert_eq!(bytes, vec![0, 0, 0, 3, 0, 2, 3, 0]);
}

#[test]
fn tool_evidence_encoding_binds_every_commitment() {
    let evidence = ToolEvidence::new(ToolKind::Kani, hash(1), hash(2), hash(3));
    assert_eq!(evidence.kind(), ToolKind::Kani);
    assert_eq!(evidence.claim(), hash(1));
    let mut bytes = Vec::new();
    evidence.encode_to(&mut bytes);
    assert_eq!(bytes.len(), 97);
    assert_eq!(bytes[0], 3);
    assert_eq!(&bytes[1..33], &[1; 32]);
    assert_eq!(&bytes[65..97], &[3; 32]);
}

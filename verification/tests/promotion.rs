use zeno_fcis::commit::{CommitmentHasher, Domain, Hash32};
use zeno_fcis::patch::{hash_value, CanonicalPatch, PatchOp, PathSegment, ValuePath};
use zeno_fcis::plan::{CommitPlan, OutboxPlan};
use zeno_fcis::receipt::{CandidateBindings, CandidateBuilder, RejectReceipt};
use zeno_fcis::refine::promotion::{
    evaluate_promotion, evaluate_validated_promotion, exhaustive_coverage_claim, exhaustive_coverage_claim_bytes,
    legacy_promotion_report, validated_promotion_blockers, CoverageMode, PromotionBlocker, PromotionEvaluationContext,
    PromotionEvidence, ProofVerifier, ValidatedCoverage, ValidatedPromotionEvidence,
};
use zeno_fcis::refine::validated::{
    ApprovedCommitmentProvider, ApprovedProviderId, DecisionValidationLimits, ExhaustiveDomainManifest,
    RefinementCase, ValidatedNormalizedDecision, ValidatedRefinementCase,
};
use zeno_fcis::refine::{
    compare_exact, DecisionArtifacts, DecisionKind, Mismatch, NormalizedDecision, PromotionPolicy, RefineError,
    ToolEvidence, ToolKind,
};
use zeno_fcis::value::{Field, Value};

/// A deterministic mixing hasher standing in for an approved digest.
struct TestProvider;

impl CommitmentHasher for TestProvider {
    fn algorithm_id() -> &'static str {
        "test/mix/v1"
    }

    fn hash(bytes: &[u8]) -> Hash32 {
        mix(bytes, 0)
    }
}

impl ApprovedCommitmentProvider for TestProvider {
    fn provider_id() -> ApprovedProviderId {
        ApprovedProviderId::new(1)
    }
}

/// The same digest under another approved identity.
struct OtherProvider;

impl CommitmentHasher for OtherProvider {
    fn algorithm_id() -> &'static str {
        "test/mix/v1"
    }

    fn hash(bytes: &[u8]) -> Hash32 {
        mix(bytes, 0)
    }
}

impl ApprovedCommitmentProvider for OtherProvider {
    fn provider_id() -> ApprovedProviderId {
        ApprovedProviderId::new(2)
    }
}

fn mix(bytes: &[u8], seed: u64) -> Hash32 {
    let mut state: [u64; 4] = [
        0x9e37_79b9_7f4a_7c15 ^ seed,
        0xc2b2_ae3d_27d4_eb4f,
        0x1656_67b1_9e37_79f9,
        0x27d4_eb2f_1656_67c5,
    ];
    for (index, byte) in bytes.iter().enumerate() {
        let lane = index % 4;
        state[lane] = (state[lane] ^ u64::from(*byte)).wrapping_mul(0x0000_0100_0000_01b3).rotate_left(7);
        let next = (lane + 1) % 4;
        state[next] ^= state[lane];
    }
    let mut output = [0_u8; 32];
    for (lane, word) in state.iter().enumerate() {
        output[lane * 8..lane * 8 + 8].copy_from_slice(&word.to_be_bytes());
    }
    Hash32::new(output)
}

struct ExactVerifier(Hash32);

impl ProofVerifier for ExactVerifier {
    fn verifier_hash(&self) -> Hash32 {
        self.0
    }

    fn verify(&self, evidence: ToolEvidence) -> bool {
        evidence.claim() == evidence.artifact() && evidence.toolchain() != Hash32::zero()
    }
}

fn hash(byte: u8) -> Hash32 {
    Hash32::new([byte; 32])
}

fn domain() -> Domain {
    Domain::new("test/refine-state", 1).unwrap_or_else(|error| panic!("domain: {error:?}"))
}

fn state() -> Value {
    Value::Record(Vec::<Field>::new())
}

fn bindings(command: u8) -> CandidateBindings {
    CandidateBindings {
        profile_hash: hash(1),
        command_hash: hash(command),
        context_hash: hash(3),
        precedence_hash: hash(4),
        algorithm_hash: hash(5),
        budget_hash: hash(6),
    }
}

fn rejection_artifacts(profile: Hash32, reason: &str) -> DecisionArtifacts {
    DecisionArtifacts {
        kind: DecisionKind::Reject,
        reason_code: Some(reason.to_string()),
        profile_hash: profile,
        command_hash: hash(2),
        context_hash: hash(3),
        precedence_hash: hash(4),
        algorithm_hash: hash(5),
        budget_hash: hash(6),
        pre_root: hash(7),
        post_root: hash(7),
        candidate_id: None,
        patch_bytes: None,
        commit_plan_bytes: None,
        outbox_plan_bytes: None,
        receipt_bytes: vec![1],
        bundle_bytes: None,
    }
}

fn rejection(profile: Hash32, reason: &str) -> NormalizedDecision {
    NormalizedDecision::try_new(rejection_artifacts(profile, reason))
        .unwrap_or_else(|error| panic!("decision: {error:?}"))
}

fn admitted_rejection(command: u8, reason: &str) -> NormalizedDecision {
    let pre_root = hash_value::<TestProvider>(&domain(), &state()).unwrap_or_else(|error| panic!("root: {error:?}"));
    let receipt =
        RejectReceipt::new(bindings(command), pre_root, reason).unwrap_or_else(|error| panic!("receipt: {error:?}"));
    NormalizedDecision::from_reject(&receipt).unwrap_or_else(|error| panic!("normalize: {error:?}"))
}

fn validate_rejection(command: u8, reason: &str) -> ValidatedNormalizedDecision {
    ValidatedNormalizedDecision::try_from_untrusted::<TestProvider>(
        admitted_rejection(command, reason),
        &state(),
        &domain(),
        bindings(command),
        DecisionValidationLimits::default(),
    )
    .unwrap_or_else(|error| panic!("validate: {error:?}"))
}

fn validated_case(command: u8, runtime_reason: &str) -> ValidatedRefinementCase {
    ValidatedRefinementCase::try_new::<TestProvider>(
        validate_rejection(command, "model_reason"),
        validate_rejection(command, runtime_reason),
    )
    .unwrap_or_else(|error| panic!("case: {error:?}"))
}

fn admitted_bundle() -> (NormalizedDecision, CandidateBindings, Value) {
    let pre_state = state();
    let exact_bindings = bindings(2);
    let pre_root = hash_value::<TestProvider>(&domain(), &pre_state).unwrap_or_else(|error| panic!("root: {error:?}"));
    let patch = CanonicalPatch::try_new(
        1,
        pre_root,
        vec![PatchOp::Insert {
            path: ValuePath::new(vec![PathSegment::Field(1)]),
            map_key: None,
            value: Value::U128(9),
        }],
    )
    .unwrap_or_else(|error| panic!("patch: {error:?}"));
    let bundle = CandidateBuilder::seal::<TestProvider>(
        &pre_state,
        &domain(),
        DecisionKind::Accept,
        None,
        exact_bindings,
        patch,
        CommitPlan::empty(),
        OutboxPlan::empty(),
    )
    .unwrap_or_else(|error| panic!("bundle: {error:?}"));
    (
        NormalizedDecision::from_bundle(&bundle).unwrap_or_else(|error| panic!("normalize: {error:?}")),
        exact_bindings,
        pre_state,
    )
}

fn exact_policy() -> PromotionPolicy {
    PromotionPolicy::try_new(vec![ToolKind::DomainEnumeration], true).unwrap_or_else(|error| panic!("policy: {error:?}"))
}

fn manifest(inputs: Vec<Hash32>, empty_claim: Option<Hash32>) -> Result<ExhaustiveDomainManifest, RefineError> {
    ExhaustiveDomainManifest::try_new::<TestProvider>(hash(1), hash(80), hash(81), hash(82), inputs, empty_claim)
}

fn context(source: Hash32, importer: Hash32) -> PromotionEvaluationContext {
    PromotionEvaluationContext::try_new(source, importer).unwrap_or_else(|error| panic!("context: {error:?}"))
}

fn exhaustive_report(
    source_revision: Hash32,
    importer_hash: Hash32,
    verifier: &ExactVerifier,
) -> zeno_fcis::refine::promotion::ValidatedPromotionReport {
    let cases = vec![validated_case(2, "model_reason")];
    let manifest = manifest(vec![cases[0].input_hash()], None).unwrap_or_else(|error| panic!("manifest: {error:?}"));
    let context = context(source_revision, importer_hash);
    let claim = exhaustive_coverage_claim::<TestProvider>(&manifest, &cases, context, verifier.verifier_hash())
        .unwrap_or_else(|error| panic!("claim: {error:?}"));
    let evidence = ValidatedPromotionEvidence::try_new(
        hash(1),
        ValidatedCoverage::Exhaustive {
            manifest: Box::new(manifest),
            coverage_evidence: ToolEvidence::new(ToolKind::DomainEnumeration, claim, claim, hash(82)),
        },
        cases,
        Vec::new(),
    )
    .unwrap_or_else(|error| panic!("evidence: {error:?}"));
    evaluate_validated_promotion::<TestProvider, _>(&exact_policy(), &evidence, context, verifier)
        .unwrap_or_else(|error| panic!("promotion: {error:?}"))
}

#[test]
fn rejected_decisions_cannot_carry_candidates() {
    let mut artifacts = rejection_artifacts(hash(1), "bad");
    artifacts.candidate_id = Some(hash(8));
    let error = NormalizedDecision::try_new(artifacts);
    assert_eq!(error, Err(RefineError::RejectedCandidatePresent));
}

#[test]
fn strict_reconstruction_rejects_fabricated_equal_decisions() {
    let fabricated = rejection(hash(1), "fabricated");
    assert!(compare_exact(&fabricated, &fabricated).is_exact());
    let validated = ValidatedNormalizedDecision::try_from_untrusted::<TestProvider>(
        fabricated,
        &state(),
        &domain(),
        bindings(2),
        DecisionValidationLimits::default(),
    );
    assert!(matches!(validated, Err(RefineError::UnexpectedPreRoot)));
}

#[test]
fn strict_reconstruction_binds_exact_invocation_and_domain() {
    assert!(ValidatedNormalizedDecision::try_from_untrusted::<TestProvider>(
        admitted_rejection(2, "denied"),
        &state(),
        &domain(),
        bindings(2),
        DecisionValidationLimits::default(),
    )
    .is_ok());
    assert!(matches!(
        ValidatedNormalizedDecision::try_from_untrusted::<TestProvider>(
            admitted_rejection(2, "denied"),
            &state(),
            &domain(),
            bindings(9),
            DecisionValidationLimits::default(),
        ),
        Err(RefineError::InvocationBindingMismatch)
    ));
    let wrong_domain = Domain::new("test/other-state", 1).unwrap_or_else(|error| panic!("domain: {error:?}"));
    assert!(matches!(
        ValidatedNormalizedDecision::try_from_untrusted::<TestProvider>(
            admitted_rejection(2, "denied"),
            &state(),
            &wrong_domain,
            bindings(2),
            DecisionValidationLimits::default(),
        ),
        Err(RefineError::UnexpectedPreRoot)
    ));
}

#[test]
fn every_committed_artifact_substitution_fails_reconstruction() {
    let (decision, exact_bindings, pre_state) = admitted_bundle();
    let original = decision.artifacts().clone();
    assert!(ValidatedNormalizedDecision::try_from_untrusted::<TestProvider>(
        decision,
        &pre_state,
        &domain(),
        exact_bindings,
        DecisionValidationLimits::default(),
    )
    .is_ok());

    let mut mutations = Vec::new();
    let mut candidate = original.clone();
    candidate.candidate_id = Some(hash(99));
    mutations.push(candidate);
    let mut pre_root = original.clone();
    pre_root.pre_root = hash(99);
    mutations.push(pre_root);
    let mut post_root = original.clone();
    post_root.post_root = hash(99);
    mutations.push(post_root);
    for select in 0..5 {
        let mut artifact = original.clone();
        let bytes = match select {
            0 => artifact.patch_bytes.as_mut(),
            1 => artifact.commit_plan_bytes.as_mut(),
            2 => artifact.outbox_plan_bytes.as_mut(),
            3 => Some(&mut artifact.receipt_bytes),
            _ => artifact.bundle_bytes.as_mut(),
        }
        .unwrap_or_else(|| panic!("artifact {select}"));
        let last = bytes.len().saturating_sub(1);
        bytes[last] ^= 1;
        mutations.push(artifact);
    }

    for mutation in mutations {
        let untrusted =
            NormalizedDecision::try_new(mutation).unwrap_or_else(|error| panic!("untrusted shape: {error:?}"));
        assert!(ValidatedNormalizedDecision::try_from_untrusted::<TestProvider>(
            untrusted,
            &pre_state,
            &domain(),
            exact_bindings,
            DecisionValidationLimits::default(),
        )
        .is_err());
    }
}

#[test]
fn legacy_bounded_evidence_remains_diagnostic_only() {
    let profile = hash(1);
    let case = RefinementCase::new(hash(2), hash(3), rejection(profile, "reason"), rejection(profile, "reason"));
    let tools = vec![ToolEvidence::new(ToolKind::RuntimeRefinement, hash(4), hash(4), hash(5))];
    let evidence = PromotionEvidence::try_new(profile, CoverageMode::Bounded { case_budget: 1 }, vec![case], tools)
        .unwrap_or_else(|error| panic!("evidence: {error:?}"));
    let policy = PromotionPolicy::try_new(vec![ToolKind::RuntimeRefinement], true)
        .unwrap_or_else(|error| panic!("policy: {error:?}"));
    assert_eq!(
        evaluate_promotion(&policy, &evidence, &ExactVerifier(hash(90))).blockers(),
        [PromotionBlocker::UnvalidatedDecisionArtifacts]
    );
}

#[test]
fn legacy_cardinality_only_exhaustive_coverage_fails_closed() {
    let case = RefinementCase::new(hash(2), hash(3), rejection(hash(1), "reason"), rejection(hash(1), "reason"));
    let evidence = PromotionEvidence::try_new(
        hash(1),
        CoverageMode::Exhaustive { domain_hash: hash(44), cardinality: 1 },
        vec![case],
        Vec::new(),
    )
    .unwrap_or_else(|error| panic!("evidence: {error:?}"));
    assert!(matches!(
        evaluate_promotion(
            &PromotionPolicy::try_new(Vec::new(), true).unwrap_or_else(|error| panic!("policy: {error:?}")),
            &evidence,
            &ExactVerifier(hash(90)),
        )
        .blockers(),
        [PromotionBlocker::UnvalidatedDecisionArtifacts, PromotionBlocker::UnverifiedLegacyExhaustiveCoverage,]
    ));
}

#[test]
fn duplicate_inputs_fail_even_when_derived_case_ids_differ() {
    let exact = validated_case(2, "model_reason");
    let mismatch = validated_case(2, "different_runtime_reason");
    assert_ne!(exact.case_id(), mismatch.case_id());
    assert_eq!(exact.input_hash(), mismatch.input_hash());
    assert!(matches!(
        ValidatedPromotionEvidence::try_new(
            hash(1),
            ValidatedCoverage::Bounded { case_budget: 2 },
            vec![exact, mismatch],
            Vec::new(),
        ),
        Err(RefineError::DuplicateCaseInput)
    ));
}

#[test]
fn validated_cases_cannot_cross_approved_provider_bindings() {
    let model = validate_rejection(2, "model_reason");
    let runtime = validate_rejection(2, "model_reason");
    assert!(matches!(
        ValidatedRefinementCase::try_new::<OtherProvider>(model, runtime),
        Err(RefineError::ProviderBindingMismatch)
    ));
}

#[test]
fn exhaustive_manifest_rejects_duplicate_and_reordered_members() {
    assert!(matches!(manifest(vec![hash(10), hash(10)], None), Err(RefineError::InvalidDomainManifest)));
    assert!(matches!(manifest(vec![hash(11), hash(10)], None), Err(RefineError::InvalidDomainManifest)));
}

#[test]
fn exhaustive_evidence_rejects_missing_and_extra_members() {
    let cases = || vec![validated_case(2, "model_reason"), validated_case(7, "model_reason")];
    let mut exact_inputs = cases().iter().map(ValidatedRefinementCase::input_hash).collect::<Vec<_>>();
    exact_inputs.sort_by(|a, b| a.as_bytes().cmp(b.as_bytes()));
    let missing = manifest(vec![exact_inputs[0]], None).unwrap_or_else(|error| panic!("manifest: {error:?}"));
    assert!(matches!(
        ValidatedPromotionEvidence::try_new(
            hash(1),
            ValidatedCoverage::Exhaustive {
                manifest: Box::new(missing),
                coverage_evidence: ToolEvidence::new(ToolKind::DomainEnumeration, hash(1), hash(1), hash(82)),
            },
            cases(),
            Vec::new(),
        ),
        Err(RefineError::DomainCaseMismatch)
    ));

    let mut extra_inputs = exact_inputs;
    extra_inputs.push(hash(200));
    extra_inputs.sort_by(|a, b| a.as_bytes().cmp(b.as_bytes()));
    let extra = manifest(extra_inputs, None).unwrap_or_else(|error| panic!("manifest: {error:?}"));
    assert!(matches!(
        ValidatedPromotionEvidence::try_new(
            hash(1),
            ValidatedCoverage::Exhaustive {
                manifest: Box::new(extra),
                coverage_evidence: ToolEvidence::new(ToolKind::DomainEnumeration, hash(1), hash(1), hash(82)),
            },
            cases(),
            Vec::new(),
        ),
        Err(RefineError::DomainCaseMismatch)
    ));
}

#[test]
fn exhaustive_promotion_requires_exact_independent_coverage_evidence() {
    let verifier = ExactVerifier(hash(90));
    let report = exhaustive_report(hash(91), hash(92), &verifier);
    assert!(report.is_promotable());

    let cases = vec![validated_case(2, "model_reason")];
    let manifest = manifest(vec![cases[0].input_hash()], None).unwrap_or_else(|error| panic!("manifest: {error:?}"));
    let evidence = ValidatedPromotionEvidence::try_new(
        hash(1),
        ValidatedCoverage::Exhaustive {
            manifest: Box::new(manifest),
            coverage_evidence: ToolEvidence::new(ToolKind::DomainEnumeration, hash(93), hash(93), hash(82)),
        },
        cases,
        Vec::new(),
    )
    .unwrap_or_else(|error| panic!("evidence: {error:?}"));
    let rejected =
        evaluate_validated_promotion::<TestProvider, _>(&exact_policy(), &evidence, context(hash(91), hash(92)), &verifier)
            .unwrap_or_else(|error| panic!("promotion: {error:?}"));
    assert!(rejected.blockers().contains(&PromotionBlocker::MissingCoverageEvidence));
}

#[test]
fn empty_domain_requires_explicit_verified_declaration() {
    assert!(matches!(manifest(Vec::new(), None), Err(RefineError::InvalidDomainManifest)));
    let manifest = manifest(Vec::new(), Some(hash(83))).unwrap_or_else(|error| panic!("manifest: {error:?}"));
    let verifier = ExactVerifier(hash(90));
    let context = context(hash(91), hash(92));
    let claim = exhaustive_coverage_claim::<TestProvider>(&manifest, &[], context, verifier.verifier_hash())
        .unwrap_or_else(|error| panic!("claim: {error:?}"));
    let evidence = ValidatedPromotionEvidence::try_new(
        hash(1),
        ValidatedCoverage::Exhaustive {
            manifest: Box::new(manifest),
            coverage_evidence: ToolEvidence::new(ToolKind::DomainEnumeration, claim, claim, hash(82)),
        },
        Vec::new(),
        Vec::new(),
    )
    .unwrap_or_else(|error| panic!("evidence: {error:?}"));
    let report = evaluate_validated_promotion::<TestProvider, _>(&exact_policy(), &evidence, context, &verifier)
        .unwrap_or_else(|error| panic!("promotion: {error:?}"));
    assert!(report.is_promotable());
}

#[test]
fn report_identity_binds_source_importer_and_verifier() {
    let first = exhaustive_report(hash(91), hash(92), &ExactVerifier(hash(90)));
    let changed_source = exhaustive_report(hash(93), hash(92), &ExactVerifier(hash(90)));
    let changed_importer = exhaustive_report(hash(91), hash(94), &ExactVerifier(hash(90)));
    let changed_verifier = exhaustive_report(hash(91), hash(92), &ExactVerifier(hash(95)));
    assert_ne!(first.report_id(), changed_source.report_id());
    assert_ne!(first.report_id(), changed_importer.report_id());
    assert_ne!(first.report_id(), changed_verifier.report_id());
}

#[test]
fn unidentified_verifier_cannot_issue_a_promotion_report() {
    let manifest = manifest(Vec::new(), Some(hash(83))).unwrap_or_else(|error| panic!("manifest: {error:?}"));
    let evidence = ValidatedPromotionEvidence::try_new(
        hash(1),
        ValidatedCoverage::Exhaustive {
            manifest: Box::new(manifest),
            coverage_evidence: ToolEvidence::new(ToolKind::DomainEnumeration, hash(84), hash(84), hash(82)),
        },
        Vec::new(),
        Vec::new(),
    )
    .unwrap_or_else(|error| panic!("evidence: {error:?}"));
    assert!(matches!(
        evaluate_validated_promotion::<TestProvider, _>(
            &exact_policy(),
            &evidence,
            context(hash(91), hash(92)),
            &ExactVerifier(Hash32::zero()),
        ),
        Err(RefineError::InvalidVerifierIdentity)
    ));
}

#[test]
fn proof_assisted_promotion_requires_theorem_evidence() {
    let evidence =
        PromotionEvidence::try_new(hash(1), CoverageMode::ProofAssisted { theorem_claim: hash(9) }, Vec::new(), Vec::new())
            .unwrap_or_else(|error| panic!("evidence: {error:?}"));
    let policy = PromotionPolicy::try_new(Vec::new(), false).unwrap_or_else(|error| panic!("policy: {error:?}"));
    assert!(matches!(
        evaluate_promotion(&policy, &evidence, &ExactVerifier(hash(90))).blockers(),
        [PromotionBlocker::UnvalidatedDecisionArtifacts, PromotionBlocker::MissingTheoremEvidence,]
    ));
}

// Further cases of this library's own.

#[test]
fn promotion_context_refuses_zero_identities() {
    assert_eq!(PromotionEvaluationContext::try_new(Hash32::zero(), hash(2)), Err(RefineError::InvalidPromotionContext));
    assert_eq!(PromotionEvaluationContext::try_new(hash(1), Hash32::zero()), Err(RefineError::InvalidPromotionContext));
    let context = context(hash(1), hash(2));
    assert_eq!(context.source_revision(), hash(1));
    assert_eq!(context.importer_hash(), hash(2));
}

#[test]
fn legacy_report_lists_profile_mismatch_refinement_mismatch_and_missing_tools_in_order() {
    let case = RefinementCase::new(hash(2), hash(3), rejection(hash(1), "reason_a"), rejection(hash(8), "reason_b"));
    let evidence = PromotionEvidence::try_new(hash(1), CoverageMode::Bounded { case_budget: 0 }, vec![case], Vec::new())
        .unwrap_or_else(|error| panic!("evidence: {error:?}"));
    let policy =
        PromotionPolicy::try_new(vec![ToolKind::Lean, ToolKind::Z3], true).unwrap_or_else(|error| panic!("policy: {error:?}"));
    let report = legacy_promotion_report(&policy, &evidence, &[]);
    assert!(!report.is_promotable());
    assert_eq!(
        report.blockers(),
        [
            PromotionBlocker::UnvalidatedDecisionArtifacts,
            PromotionBlocker::CaseProfileMismatch { case_id: hash(2) },
            PromotionBlocker::RefinementMismatch {
                case_id: hash(2),
                mismatches: vec![Mismatch::ReasonCode, Mismatch::ProfileHash],
            },
            PromotionBlocker::InvalidBoundedCoverage,
            PromotionBlocker::MissingToolEvidence { kind: ToolKind::Z3 },
            PromotionBlocker::MissingToolEvidence { kind: ToolKind::Lean },
        ]
    );
}

#[test]
fn legacy_verdicts_decide_theorem_and_tool_blockers() {
    let tools = vec![ToolEvidence::new(ToolKind::Lean, hash(9), hash(10), hash(11))];
    let evidence =
        PromotionEvidence::try_new(hash(1), CoverageMode::ProofAssisted { theorem_claim: hash(9) }, Vec::new(), tools)
            .unwrap_or_else(|error| panic!("evidence: {error:?}"));
    let policy = PromotionPolicy::try_new(vec![ToolKind::Lean], false).unwrap_or_else(|error| panic!("policy: {error:?}"));
    assert_eq!(legacy_promotion_report(&policy, &evidence, &[true]).blockers(), [PromotionBlocker::UnvalidatedDecisionArtifacts]);
    assert_eq!(
        legacy_promotion_report(&policy, &evidence, &[false]).blockers(),
        [
            PromotionBlocker::UnvalidatedDecisionArtifacts,
            PromotionBlocker::MissingTheoremEvidence,
            PromotionBlocker::MissingToolEvidence { kind: ToolKind::Lean },
        ]
    );
}

#[test]
fn validated_blockers_follow_claim_and_coverage_verdict() {
    let cases = vec![validated_case(2, "other_reason")];
    let manifest = manifest(vec![cases[0].input_hash()], None).unwrap_or_else(|error| panic!("manifest: {error:?}"));
    let evidence = ValidatedPromotionEvidence::try_new(
        hash(1),
        ValidatedCoverage::Exhaustive {
            manifest: Box::new(manifest),
            coverage_evidence: ToolEvidence::new(ToolKind::DomainEnumeration, hash(50), hash(50), hash(82)),
        },
        cases,
        Vec::new(),
    )
    .unwrap_or_else(|error| panic!("evidence: {error:?}"));
    let accepted = validated_promotion_blockers(&exact_policy(), &evidence, hash(50), true, &[]);
    assert_eq!(accepted.len(), 1);
    assert!(matches!(accepted[0], PromotionBlocker::RefinementMismatch { .. }));
    let refused = validated_promotion_blockers(&exact_policy(), &evidence, hash(51), false, &[]);
    assert_eq!(refused.len(), 3);
    assert_eq!(refused[1], PromotionBlocker::MissingCoverageEvidence);
    assert_eq!(refused[2], PromotionBlocker::MissingToolEvidence { kind: ToolKind::DomainEnumeration });
}

#[test]
fn coverage_claim_refuses_foreign_provider_and_zero_verifier() {
    let case = validated_case(2, "model_reason");
    let input = case.input_hash();
    let exact = manifest(vec![input], None).unwrap_or_else(|error| panic!("manifest: {error:?}"));
    let cases = vec![case];
    let context = context(hash(91), hash(92));
    assert_eq!(
        exhaustive_coverage_claim::<TestProvider>(&exact, &cases, context, Hash32::zero()),
        Err(RefineError::InvalidVerifierIdentity)
    );
    assert_eq!(
        exhaustive_coverage_claim::<OtherProvider>(&exact, &cases, context, hash(90)),
        Err(RefineError::ProviderBindingMismatch)
    );
    let other = manifest(vec![hash(70)], None).unwrap_or_else(|error| panic!("manifest: {error:?}"));
    assert_eq!(
        exhaustive_coverage_claim::<TestProvider>(&other, &cases, context, hash(90)),
        Err(RefineError::DomainCaseMismatch)
    );
    let bytes = exhaustive_coverage_claim_bytes(&exact, &cases, context, ApprovedProviderId::new(1), hash(90))
        .unwrap_or_else(|error| panic!("bytes: {error:?}"));
    let claim = exhaustive_coverage_claim::<TestProvider>(&exact, &cases, context, hash(90))
        .unwrap_or_else(|error| panic!("claim: {error:?}"));
    let frame = Domain::new("zeno-fcis/exhaustive-coverage-claim", 1)
        .unwrap_or_else(|error| panic!("domain: {error:?}"))
        .frame(&bytes);
    assert_eq!(claim, mix(&frame, 0));
    assert_eq!(&bytes[0..2], &[0, 1]);
    assert_eq!(&bytes[bytes.len() - 32..], hash(90).as_bytes());
}

#[test]
fn validated_report_bytes_start_with_its_identity() {
    let report = exhaustive_report(hash(91), hash(92), &ExactVerifier(hash(90)));
    let bytes = report.canonical_bytes().unwrap_or_else(|error| panic!("bytes: {error:?}"));
    assert_eq!(&bytes[0..32], report.report_id().as_bytes());
    assert_eq!(report.source_revision(), hash(91));
    assert_eq!(report.importer_hash(), hash(92));
    assert_eq!(report.verifier_hash(), hash(90));
    assert_eq!(report.provider_id(), ApprovedProviderId::new(1));
}

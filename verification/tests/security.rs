use zeno_fcis::commit::{CommitmentHasher, Hash32};
use zeno_fcis::security::{
    compare_traces, evaluate_security_promotion, CapacityEvidence, ChannelClass, CompartmentId,
    Declassification, DeploymentContract, LeakageBlocker, LeakagePolicy, LeakageRule, Mitigation,
    Observation, ObservationKind, ObservationTrace, ObserverClearance, RuleMode, SecurityDomainId,
    SecurityError, SecurityEvidence, SecurityEvidenceKind, SecurityLabel, SecurityPromotionBlocker,
    SecurityPromotionPolicy, MAX_SECURITY_EVIDENCE,
};

#[derive(Clone, Copy, Debug)]
struct TestHasher;

impl CommitmentHasher for TestHasher {
    fn algorithm_id() -> &'static str {
        "test-only/1"
    }

    fn hash(bytes: &[u8]) -> Hash32 {
        let mut output = [0_u8; 32];
        for (index, byte) in bytes.iter().enumerate() {
            let slot = index % output.len();
            output[slot] = output[slot]
                .wrapping_add(*byte)
                .rotate_left((index % 8) as u32);
        }
        Hash32::new(output)
    }
}

fn hash(byte: u8) -> Hash32 {
    Hash32::new([byte; 32])
}

fn domain(value: u32) -> SecurityDomainId {
    SecurityDomainId::try_new(value).unwrap_or_else(|error| panic!("domain: {error:?}"))
}

fn compartment(value: u32) -> CompartmentId {
    CompartmentId::try_new(value).unwrap_or_else(|error| panic!("compartment: {error:?}"))
}

fn label(confidentiality: u16, integrity: u16, compartments: Vec<CompartmentId>) -> SecurityLabel {
    SecurityLabel::try_new(confidentiality, integrity, compartments)
        .unwrap_or_else(|error| panic!("label: {error:?}"))
}

fn deployment() -> DeploymentContract {
    DeploymentContract::try_new(
        hash(1),
        hash(2),
        hash(3),
        hash(4),
        hash(5),
        hash(6),
        vec![
            Mitigation::ConstantTimeControlFlow,
            Mitigation::SecretIndependentMemoryAccess,
            Mitigation::FixedOutputSize,
        ],
    )
    .unwrap_or_else(|error| panic!("deployment: {error:?}"))
}

fn deployment_hash() -> Hash32 {
    deployment()
        .commitment::<TestHasher>()
        .unwrap_or_else(|error| panic!("deployment hash: {error:?}"))
}

fn policy(mode: RuleMode, channel: ChannelClass) -> LeakagePolicy {
    LeakagePolicy::try_new(
        hash(10),
        deployment_hash(),
        64,
        vec![ObserverClearance::new(domain(1), label(10, 0, vec![compartment(1)]))],
        vec![LeakageRule::try_new(domain(1), ObservationKind::OutputLength, channel, mode)
            .unwrap_or_else(|error| panic!("rule: {error:?}"))],
        vec![
            Mitigation::ConstantTimeControlFlow,
            Mitigation::SecretIndependentMemoryAccess,
            Mitigation::FixedOutputSize,
        ],
    )
    .unwrap_or_else(|error| panic!("policy: {error:?}"))
}

fn observation(
    value_byte: u8,
    quantity: u64,
    bits: u32,
    channel: ChannelClass,
    declassification: Option<Declassification>,
) -> Observation {
    Observation::try_new(
        domain(1),
        ObservationKind::OutputLength,
        channel,
        label(1, 5, vec![compartment(1)]),
        hash(value_byte),
        quantity,
        bits,
        declassification,
    )
    .unwrap_or_else(|error| panic!("observation: {error:?}"))
}

fn trace(secret_byte: u8, observation: Observation) -> ObservationTrace {
    ObservationTrace::try_new(hash(20), hash(secret_byte), vec![observation])
        .unwrap_or_else(|error| panic!("trace: {error:?}"))
}

#[test]
fn information_flow_lattice_is_explicit() {
    let low = label(1, 10, vec![compartment(1)]);
    let high = label(2, 5, vec![compartment(1), compartment(2)]);
    assert!(low.can_flow_to(&high));
    assert!(!high.can_flow_to(&low));
}

#[test]
fn policy_construction_is_history_independent() {
    let first = LeakageRule::try_new(
        domain(1),
        ObservationKind::OutputLength,
        ChannelClass::Side,
        RuleMode::Exact,
    )
    .unwrap_or_else(|error| panic!("first: {error:?}"));
    let second = LeakageRule::try_new(
        domain(1),
        ObservationKind::Termination,
        ChannelClass::Side,
        RuleMode::Exact,
    )
    .unwrap_or_else(|error| panic!("second: {error:?}"));
    let make = |rules| {
        LeakagePolicy::try_new(
            hash(10),
            deployment_hash(),
            0,
            vec![ObserverClearance::new(domain(1), label(10, 0, vec![compartment(1)]))],
            rules,
            vec![Mitigation::FixedOutputSize, Mitigation::FixedWork],
        )
        .unwrap_or_else(|error| panic!("policy: {error:?}"))
    };
    let left = make(vec![first, second]);
    let right = make(vec![second, first]);
    assert_eq!(left, right);
    assert_eq!(left.canonical_bytes(), right.canonical_bytes());
}

#[test]
fn exact_rule_detects_output_length_channel() {
    let policy = policy(RuleMode::Exact, ChannelClass::Side);
    let left = trace(21, observation(30, 64, 0, ChannelClass::Side, None));
    let right = trace(22, observation(30, 96, 0, ChannelClass::Side, None));
    let report = compare_traces::<TestHasher>(&policy, &deployment(), &left, &right);
    assert!(matches!(report.blockers(), [LeakageBlocker::QuantityMismatch { .. }]));
}

#[test]
fn bounded_declassification_is_explicit() {
    let release = Declassification::try_new(hash(40), hash(41), 8)
        .unwrap_or_else(|error| panic!("declassification: {error:?}"));
    let policy = policy(
        RuleMode::Declassified { authority_hash: hash(40), purpose_hash: hash(41), max_bits: 8 },
        ChannelClass::Intended,
    );
    let left = trace(21, observation(30, 1, 8, ChannelClass::Intended, Some(release)));
    let right = trace(22, observation(31, 1, 8, ChannelClass::Intended, Some(release)));
    let report = compare_traces::<TestHasher>(&policy, &deployment(), &left, &right);
    assert!(report.is_secure());
    assert_eq!(report.declassified_bits(), 8);
}

#[test]
fn missing_deployment_mitigation_fails_closed() {
    let policy = policy(RuleMode::Exact, ChannelClass::Side);
    let weak = DeploymentContract::try_new(
        hash(1),
        hash(2),
        hash(3),
        hash(4),
        hash(5),
        hash(6),
        vec![Mitigation::FixedOutputSize],
    )
    .unwrap_or_else(|error| panic!("weak deployment: {error:?}"));
    let left = trace(21, observation(30, 64, 0, ChannelClass::Side, None));
    let right = trace(22, observation(30, 64, 0, ChannelClass::Side, None));
    let report = compare_traces::<TestHasher>(&policy, &weak, &left, &right);
    assert!(report
        .blockers()
        .iter()
        .any(|item| matches!(item, LeakageBlocker::MissingMitigation(_))));
}

#[test]
fn covert_capacity_is_a_promotion_gate() {
    let leakage_policy = policy(RuleMode::Exact, ChannelClass::Covert);
    let left = trace(21, observation(30, 64, 0, ChannelClass::Covert, None));
    let right = trace(22, observation(30, 64, 0, ChannelClass::Covert, None));
    let report = compare_traces::<TestHasher>(&leakage_policy, &deployment(), &left, &right);
    assert!(report.is_secure());

    let promotion = SecurityPromotionPolicy::try_new(
        deployment_hash(),
        hash(10),
        vec![SecurityEvidenceKind::NoninterferenceProof, SecurityEvidenceKind::CovertChannelCapacity],
        100,
        990_000,
    )
    .unwrap_or_else(|error| panic!("promotion: {error:?}"));
    let evidence = vec![
        SecurityEvidence::try_new(
            SecurityEvidenceKind::NoninterferenceProof,
            hash(50),
            hash(51),
            hash(52),
            deployment_hash(),
        )
        .unwrap_or_else(|error| panic!("proof: {error:?}")),
        SecurityEvidence::try_new(
            SecurityEvidenceKind::CovertChannelCapacity,
            hash(53),
            hash(54),
            hash(55),
            deployment_hash(),
        )
        .unwrap_or_else(|error| panic!("capacity evidence: {error:?}")),
    ];
    let capacity = CapacityEvidence::try_new(
        domain(1),
        ObservationKind::OutputLength,
        ChannelClass::Covert,
        deployment_hash(),
        101,
        999_000,
        hash(60),
        hash(61),
    )
    .unwrap_or_else(|error| panic!("capacity: {error:?}"));
    let result =
        evaluate_security_promotion(&promotion, &leakage_policy, &[report], evidence, vec![capacity]);
    assert!(matches!(result.blockers(), [SecurityPromotionBlocker::CapacityExceeded { .. }]));
}

#[test]
fn promotion_binds_threat_model_and_input_bounds() {
    let leakage_policy = policy(RuleMode::Exact, ChannelClass::Side);
    let promotion = SecurityPromotionPolicy::try_new(
        deployment_hash(),
        hash(99),
        vec![SecurityEvidenceKind::NoninterferenceProof],
        100,
        990_000,
    )
    .unwrap_or_else(|error| panic!("promotion: {error:?}"));
    let item = SecurityEvidence::try_new(
        SecurityEvidenceKind::NoninterferenceProof,
        hash(50),
        hash(51),
        hash(52),
        deployment_hash(),
    )
    .unwrap_or_else(|error| panic!("evidence: {error:?}"));
    let result = evaluate_security_promotion(
        &promotion,
        &leakage_policy,
        &[],
        vec![item; MAX_SECURITY_EVIDENCE + 1],
        Vec::new(),
    );
    assert!(result
        .blockers()
        .iter()
        .any(|item| matches!(item, SecurityPromotionBlocker::ThreatModelMismatch)));
    assert!(result
        .blockers()
        .iter()
        .any(|item| matches!(item, SecurityPromotionBlocker::MissingLeakageReport)));
    assert!(result
        .blockers()
        .iter()
        .any(|item| matches!(item, SecurityPromotionBlocker::TooManyEvidenceItems { .. })));
}

#[test]
fn promotion_succeeds_only_with_complete_deployment_evidence() {
    let leakage_policy = policy(RuleMode::Exact, ChannelClass::Side);
    let left = trace(21, observation(30, 64, 0, ChannelClass::Side, None));
    let right = trace(22, observation(30, 64, 0, ChannelClass::Side, None));
    let report = compare_traces::<TestHasher>(&leakage_policy, &deployment(), &left, &right);

    let promotion = SecurityPromotionPolicy::try_new(
        deployment_hash(),
        hash(10),
        vec![SecurityEvidenceKind::NoninterferenceProof],
        100,
        990_000,
    )
    .unwrap_or_else(|error| panic!("promotion: {error:?}"));
    let evidence = vec![SecurityEvidence::try_new(
        SecurityEvidenceKind::NoninterferenceProof,
        hash(50),
        hash(51),
        hash(52),
        deployment_hash(),
    )
    .unwrap_or_else(|error| panic!("proof: {error:?}"))];
    let capacity = CapacityEvidence::try_new(
        domain(1),
        ObservationKind::OutputLength,
        ChannelClass::Side,
        deployment_hash(),
        0,
        999_000,
        hash(60),
        hash(61),
    )
    .unwrap_or_else(|error| panic!("capacity: {error:?}"));
    let result =
        evaluate_security_promotion(&promotion, &leakage_policy, &[report], evidence, vec![capacity]);
    assert!(result.is_promoted());
}

// Additional scenarios.

#[test]
fn identifiers_reject_zero() {
    assert_eq!(SecurityDomainId::try_new(0), Err(SecurityError::ZeroIdentifier));
    assert_eq!(CompartmentId::try_new(0), Err(SecurityError::ZeroIdentifier));
    assert_eq!(domain(7).get(), 7);
}

#[test]
fn label_flow_requires_compartment_subset() {
    let a = label(1, 5, vec![compartment(2)]);
    let b = label(3, 1, vec![compartment(1)]);
    assert!(!a.can_flow_to(&b));
    assert!(a.can_flow_to(&a));
    let sorted = label(1, 1, vec![compartment(3), compartment(1), compartment(3)]);
    assert_eq!(sorted.compartments().len(), 2);
    assert_eq!(sorted.compartments()[0].get(), 1);
}

#[test]
fn trace_length_and_same_secret_are_blockers() {
    let policy = policy(RuleMode::Exact, ChannelClass::Side);
    let left = ObservationTrace::try_new(
        hash(20),
        hash(21),
        vec![
            observation(30, 64, 0, ChannelClass::Side, None),
            observation(30, 64, 0, ChannelClass::Side, None),
        ],
    )
    .unwrap_or_else(|error| panic!("trace: {error:?}"));
    let right = trace(21, observation(30, 64, 0, ChannelClass::Side, None));
    let report = compare_traces::<TestHasher>(&policy, &deployment(), &left, &right);
    assert_eq!(
        report.blockers(),
        &[LeakageBlocker::SameSecretVariant, LeakageBlocker::TraceLengthMismatch { left: 2, right: 1 }]
    );
    assert_eq!(report.deployment_hash(), deployment_hash());
}

#[test]
fn bounded_quantity_reports_delta() {
    let policy = policy(RuleMode::BoundedQuantity { max_delta: 10 }, ChannelClass::Side);
    let left = trace(21, observation(30, 64, 0, ChannelClass::Side, None));
    let right = trace(22, observation(30, 80, 0, ChannelClass::Side, None));
    let report = compare_traces::<TestHasher>(&policy, &deployment(), &left, &right);
    assert_eq!(
        report.blockers(),
        &[LeakageBlocker::QuantityDeltaExceeded { index: 0, delta: 16, maximum: 10 }]
    );
    let near = trace(22, observation(30, 70, 0, ChannelClass::Side, None));
    let report = compare_traces::<TestHasher>(&policy, &deployment(), &left, &near);
    assert!(report.is_secure());
}

#[test]
fn declassification_over_budget_is_reported() {
    let release = Declassification::try_new(hash(40), hash(41), 8)
        .unwrap_or_else(|error| panic!("declassification: {error:?}"));
    let policy = policy(
        RuleMode::Declassified { authority_hash: hash(40), purpose_hash: hash(41), max_bits: 8 },
        ChannelClass::Intended,
    );
    let left = trace(21, observation(30, 1, 9, ChannelClass::Intended, Some(release)));
    let right = trace(22, observation(31, 1, 3, ChannelClass::Intended, Some(release)));
    let report = compare_traces::<TestHasher>(&policy, &deployment(), &left, &right);
    assert_eq!(
        report.blockers(),
        &[LeakageBlocker::DeclassificationBitsExceeded { index: 0, observed: 9, maximum: 8 }]
    );
    assert_eq!(report.declassified_bits(), 9);
    let missing = trace(22, observation(31, 1, 3, ChannelClass::Intended, None));
    let report = compare_traces::<TestHasher>(&policy, &deployment(), &left, &missing);
    assert_eq!(report.blockers(), &[LeakageBlocker::DeclassificationMismatch { index: 0 }]);
    assert_eq!(report.declassified_bits(), 0);
}

#[test]
fn prohibited_and_unclassified_observations() {
    let policy = policy(RuleMode::Prohibit, ChannelClass::Side);
    let left = trace(21, observation(30, 64, 0, ChannelClass::Side, None));
    let right = trace(22, observation(30, 64, 0, ChannelClass::Side, None));
    let report = compare_traces::<TestHasher>(&policy, &deployment(), &left, &right);
    assert_eq!(report.blockers(), &[LeakageBlocker::ProhibitedObservation { index: 0 }]);
    let covert_left = trace(21, observation(30, 64, 0, ChannelClass::Covert, None));
    let covert_right = trace(22, observation(30, 64, 0, ChannelClass::Covert, None));
    let report = compare_traces::<TestHasher>(&policy, &deployment(), &covert_left, &covert_right);
    assert_eq!(report.blockers(), &[LeakageBlocker::UnclassifiedObservation { index: 0 }]);
    let report = compare_traces::<TestHasher>(&policy, &deployment(), &left, &covert_right);
    assert_eq!(report.blockers(), &[LeakageBlocker::ObservationShapeMismatch { index: 0 }]);
}

#[test]
fn capacity_and_promotion_inputs_are_validated() {
    assert_eq!(
        CapacityEvidence::try_new(
            domain(1),
            ObservationKind::OutputLength,
            ChannelClass::Intended,
            hash(1),
            0,
            1,
            hash(2),
            hash(3),
        ),
        Err(SecurityError::CapacityForIntendedChannel)
    );
    assert_eq!(
        CapacityEvidence::try_new(
            domain(1),
            ObservationKind::OutputLength,
            ChannelClass::Side,
            hash(1),
            0,
            1_000_001,
            hash(2),
            hash(3),
        ),
        Err(SecurityError::InvalidConfidence)
    );
    assert_eq!(
        SecurityPromotionPolicy::try_new(hash(1), hash(2), Vec::new(), 0, 1),
        Err(SecurityError::EmptySecurityEvidencePolicy)
    );
    assert_eq!(
        SecurityPromotionPolicy::try_new(
            Hash32::zero(),
            hash(2),
            vec![SecurityEvidenceKind::DeploymentAudit],
            0,
            1
        ),
        Err(SecurityError::ZeroHash)
    );
    assert_eq!(
        SecurityEvidence::try_new(
            SecurityEvidenceKind::DeploymentAudit,
            hash(1),
            Hash32::zero(),
            hash(3),
            hash(4)
        ),
        Err(SecurityError::ZeroHash)
    );
}

#[test]
fn duplicate_and_missing_evidence_are_blockers() {
    let leakage_policy = policy(RuleMode::Exact, ChannelClass::Side);
    let left = trace(21, observation(30, 64, 0, ChannelClass::Side, None));
    let right = trace(22, observation(30, 64, 0, ChannelClass::Side, None));
    let report = compare_traces::<TestHasher>(&leakage_policy, &deployment(), &left, &right);
    let promotion = SecurityPromotionPolicy::try_new(
        deployment_hash(),
        hash(10),
        vec![SecurityEvidenceKind::DeploymentAudit, SecurityEvidenceKind::NoninterferenceProof],
        100,
        990_000,
    )
    .unwrap_or_else(|error| panic!("promotion: {error:?}"));
    let item = SecurityEvidence::try_new(
        SecurityEvidenceKind::NoninterferenceProof,
        hash(50),
        hash(51),
        hash(52),
        deployment_hash(),
    )
    .unwrap_or_else(|error| panic!("evidence: {error:?}"));
    let result =
        evaluate_security_promotion(&promotion, &leakage_policy, &[report], vec![item, item], Vec::new());
    assert_eq!(
        result.blockers(),
        &[
            SecurityPromotionBlocker::DuplicateEvidence(SecurityEvidenceKind::NoninterferenceProof),
            SecurityPromotionBlocker::MissingEvidence(SecurityEvidenceKind::DeploymentAudit),
            SecurityPromotionBlocker::MissingCapacityEvidence {
                observer: domain(1),
                kind: ObservationKind::OutputLength,
                channel: ChannelClass::Side,
            },
        ]
    );
}

//! Fail-closed production promotion: leakage reports, deployment-bound
//! security evidence and side/covert-channel capacity measurements.

use vstd::prelude::*;

use crate::commit::Hash32;
use crate::encode::{
    be16, be32, be64, blob_all, encode_all, encode_each, put_blob_each, put_bytes, put_length, put_u16, put_u32,
    put_u64, put_u8, EncodeError, Encodable,
};
use crate::sort::{canonical_set, has_key, sort_dedup, strictly_sorted_by_key, Keyed};

use super::{
    observation_key, observation_key_of, ChannelClass, LeakagePolicy, LeakageReport, LeakageRule,
    ObservationKind, SecurityDomainId, SecurityError, SecurityEvidenceKind, MAX_CAPACITY_EVIDENCE,
    MAX_LEAKAGE_REPORTS, MAX_SECURITY_EVIDENCE,
};

verus! {

/// The largest confidence, one million parts per million.
pub const FULL_CONFIDENCE_PPM: u32 = 1_000_000;

/// A confidence in parts per million is positive and at most one million.
pub open spec fn valid_confidence(confidence_ppm: u32) -> bool {
    0 < confidence_ppm <= FULL_CONFIDENCE_PPM
}

/// Content-bound security evidence.
#[derive(Clone, Copy, Debug, PartialEq, Eq)]
pub struct SecurityEvidence {
    kind: SecurityEvidenceKind,
    claim_hash: Hash32,
    artifact_hash: Hash32,
    toolchain_hash: Hash32,
    deployment_hash: Hash32,
}

impl SecurityEvidence {
    /// The evidence kind.
    pub closed spec fn spec_kind(self) -> SecurityEvidenceKind {
        self.kind
    }

    /// The claim, artifact, toolchain and deployment commitments, in that order.
    pub closed spec fn spec_hashes(self) -> Seq<Hash32> {
        seq![self.claim_hash, self.artifact_hash, self.toolchain_hash, self.deployment_hash]
    }

    /// The deployment commitment.
    pub open spec fn spec_deployment_hash(self) -> Hash32 {
        self.spec_hashes()[3]
    }

    /// Creates deployment-bound evidence; every commitment must be nonzero.
    pub fn try_new(
        kind: SecurityEvidenceKind,
        claim_hash: Hash32,
        artifact_hash: Hash32,
        toolchain_hash: Hash32,
        deployment_hash: Hash32,
    ) -> (evidence: Result<Self, SecurityError>)
        ensures
            (claim_hash.spec_is_zero() || artifact_hash.spec_is_zero() || toolchain_hash.spec_is_zero()
                || deployment_hash.spec_is_zero()) ==> evidence == Err::<Self, SecurityError>(
                SecurityError::ZeroHash,
            ),
            !(claim_hash.spec_is_zero() || artifact_hash.spec_is_zero() || toolchain_hash.spec_is_zero()
                || deployment_hash.spec_is_zero()) ==> (evidence matches Ok(e) && e.spec_kind() == kind
                && e.spec_hashes() == seq![claim_hash, artifact_hash, toolchain_hash, deployment_hash]),
    {
        if claim_hash.is_zero() || artifact_hash.is_zero() || toolchain_hash.is_zero() || deployment_hash.is_zero() {
            return Err(SecurityError::ZeroHash);
        }
        let evidence = SecurityEvidence { kind, claim_hash, artifact_hash, toolchain_hash, deployment_hash };
        assert(evidence.spec_hashes() =~= seq![claim_hash, artifact_hash, toolchain_hash, deployment_hash]);
        Ok(evidence)
    }

    /// Returns the evidence kind.
    pub fn kind(self) -> (kind: SecurityEvidenceKind)
        ensures
            kind == self.spec_kind(),
    {
        self.kind
    }

    /// Returns the deployment commitment.
    pub fn deployment_hash(self) -> (hash: Hash32)
        ensures
            hash == self.spec_deployment_hash(),
    {
        self.deployment_hash
    }
}

/// Empirical upper bound for one side/covert-channel rule.
#[derive(Clone, Copy, Debug, PartialEq, Eq)]
pub struct CapacityEvidence {
    observer: SecurityDomainId,
    kind: ObservationKind,
    channel: ChannelClass,
    deployment_hash: Hash32,
    upper_bound_millibits_per_second: u64,
    confidence_ppm: u32,
    artifact_hash: Hash32,
    toolchain_hash: Hash32,
}

impl CapacityEvidence {
    /// The measured observer.
    pub closed spec fn spec_observer(self) -> SecurityDomainId {
        self.observer
    }

    /// The measured observation kind.
    pub closed spec fn spec_kind(self) -> ObservationKind {
        self.kind
    }

    /// The measured channel.
    pub closed spec fn spec_channel(self) -> ChannelClass {
        self.channel
    }

    /// The deployment commitment.
    pub closed spec fn spec_deployment_hash(self) -> Hash32 {
        self.deployment_hash
    }

    /// The measured upper bound in millibits per second.
    pub closed spec fn spec_upper_bound(self) -> u64 {
        self.upper_bound_millibits_per_second
    }

    /// The confidence in parts per million.
    pub closed spec fn spec_confidence_ppm(self) -> u32 {
        self.confidence_ppm
    }

    /// The artifact and toolchain commitments, in that order.
    pub closed spec fn spec_provenance(self) -> Seq<Hash32> {
        seq![self.artifact_hash, self.toolchain_hash]
    }

    /// Creates an empirical channel-capacity bound. Intended channels carry
    /// no capacity; commitments must be nonzero; the confidence must be valid.
    pub fn try_new(
        observer: SecurityDomainId,
        kind: ObservationKind,
        channel: ChannelClass,
        deployment_hash: Hash32,
        upper_bound_millibits_per_second: u64,
        confidence_ppm: u32,
        artifact_hash: Hash32,
        toolchain_hash: Hash32,
    ) -> (evidence: Result<Self, SecurityError>)
        ensures
            channel == ChannelClass::Intended ==> evidence == Err::<Self, SecurityError>(
                SecurityError::CapacityForIntendedChannel,
            ),
            channel != ChannelClass::Intended && (deployment_hash.spec_is_zero() || artifact_hash.spec_is_zero()
                || toolchain_hash.spec_is_zero()) ==> evidence == Err::<Self, SecurityError>(SecurityError::ZeroHash),
            channel != ChannelClass::Intended && !(deployment_hash.spec_is_zero() || artifact_hash.spec_is_zero()
                || toolchain_hash.spec_is_zero()) && !valid_confidence(confidence_ppm) ==> evidence == Err::<
                Self,
                SecurityError,
            >(SecurityError::InvalidConfidence),
            channel != ChannelClass::Intended && !(deployment_hash.spec_is_zero() || artifact_hash.spec_is_zero()
                || toolchain_hash.spec_is_zero()) && valid_confidence(confidence_ppm) ==> (evidence matches Ok(e)
                && e.spec_observer() == observer && e.spec_kind() == kind && e.spec_channel() == channel
                && e.spec_deployment_hash() == deployment_hash && e.spec_upper_bound()
                == upper_bound_millibits_per_second && e.spec_confidence_ppm() == confidence_ppm
                && e.spec_provenance() == seq![artifact_hash, toolchain_hash]),
    {
        if channel == ChannelClass::Intended {
            return Err(SecurityError::CapacityForIntendedChannel);
        }
        if deployment_hash.is_zero() || artifact_hash.is_zero() || toolchain_hash.is_zero() {
            return Err(SecurityError::ZeroHash);
        }
        if confidence_ppm == 0 || confidence_ppm > FULL_CONFIDENCE_PPM {
            return Err(SecurityError::InvalidConfidence);
        }
        let evidence = CapacityEvidence {
            observer,
            kind,
            channel,
            deployment_hash,
            upper_bound_millibits_per_second,
            confidence_ppm,
            artifact_hash,
            toolchain_hash,
        };
        assert(evidence.spec_provenance() =~= seq![artifact_hash, toolchain_hash]);
        Ok(evidence)
    }

    /// Returns the upper capacity bound.
    pub fn upper_bound_millibits_per_second(self) -> (bound: u64)
        ensures
            bound == self.spec_upper_bound(),
    {
        self.upper_bound_millibits_per_second
    }

    /// Returns the confidence in parts per million.
    pub fn confidence_ppm(self) -> (confidence: u32)
        ensures
            confidence == self.spec_confidence_ppm(),
    {
        self.confidence_ppm
    }
}

impl Keyed for CapacityEvidence {
    open spec fn spec_key(&self) -> int {
        observation_key(self.spec_observer(), self.spec_kind(), self.spec_channel())
    }

    fn key_lt(&self, other: &Self) -> bool {
        observation_key_of(self.observer, self.kind, self.channel) < observation_key_of(
            other.observer,
            other.kind,
            other.channel,
        )
    }

    fn key_eq(&self, other: &Self) -> bool {
        observation_key_of(self.observer, self.kind, self.channel) == observation_key_of(
            other.observer,
            other.kind,
            other.channel,
        )
    }
}

/// Fail-closed production security policy.
#[derive(Debug, PartialEq, Eq)]
pub struct SecurityPromotionPolicy {
    deployment_hash: Hash32,
    threat_model_hash: Hash32,
    required_evidence: Vec<SecurityEvidenceKind>,
    max_capacity_millibits_per_second: u64,
    min_capacity_confidence_ppm: u32,
}

impl SecurityPromotionPolicy {
    /// Required evidence kinds are listed once each in canonical order, at
    /// least one and at most `MAX_SECURITY_EVIDENCE`; the confidence is valid.
    #[verifier::type_invariant]
    spec fn canonical(self) -> bool {
        &&& 1 <= self.required_evidence@.len() <= MAX_SECURITY_EVIDENCE
        &&& strictly_sorted_by_key(self.required_evidence@)
        &&& valid_confidence(self.min_capacity_confidence_ppm)
    }

    /// The exact deployment commitment.
    pub closed spec fn spec_deployment_hash(self) -> Hash32 {
        self.deployment_hash
    }

    /// The exact threat-model commitment.
    pub closed spec fn spec_threat_model_hash(self) -> Hash32 {
        self.threat_model_hash
    }

    /// Required evidence kinds in canonical order.
    pub closed spec fn spec_required_evidence(self) -> Seq<SecurityEvidenceKind> {
        self.required_evidence@
    }

    /// The largest admitted channel capacity.
    pub closed spec fn spec_max_capacity(self) -> u64 {
        self.max_capacity_millibits_per_second
    }

    /// The smallest admitted measurement confidence.
    pub closed spec fn spec_min_confidence(self) -> u32 {
        self.min_capacity_confidence_ppm
    }

    /// Creates a canonical promotion policy.
    pub fn try_new(
        deployment_hash: Hash32,
        threat_model_hash: Hash32,
        required_evidence: Vec<SecurityEvidenceKind>,
        max_capacity_millibits_per_second: u64,
        min_capacity_confidence_ppm: u32,
    ) -> (policy: Result<Self, SecurityError>)
        ensures
            deployment_hash.spec_is_zero() || threat_model_hash.spec_is_zero() ==> policy == Err::<
                Self,
                SecurityError,
            >(SecurityError::ZeroHash),
            !(deployment_hash.spec_is_zero() || threat_model_hash.spec_is_zero()) && required_evidence@.len() == 0
                ==> policy == Err::<Self, SecurityError>(SecurityError::EmptySecurityEvidencePolicy),
            !(deployment_hash.spec_is_zero() || threat_model_hash.spec_is_zero()) && required_evidence@.len()
                > MAX_SECURITY_EVIDENCE ==> policy == Err::<Self, SecurityError>(
                SecurityError::TooManySecurityEvidence,
            ),
            !(deployment_hash.spec_is_zero() || threat_model_hash.spec_is_zero()) && 1 <= required_evidence@.len()
                <= MAX_SECURITY_EVIDENCE && !valid_confidence(min_capacity_confidence_ppm) ==> policy == Err::<
                Self,
                SecurityError,
            >(SecurityError::InvalidConfidence),
            !(deployment_hash.spec_is_zero() || threat_model_hash.spec_is_zero()) && 1 <= required_evidence@.len()
                <= MAX_SECURITY_EVIDENCE && valid_confidence(min_capacity_confidence_ppm) ==> (policy matches Ok(p)
                && p.spec_deployment_hash() == deployment_hash && p.spec_threat_model_hash() == threat_model_hash
                && p.spec_required_evidence() == canonical_set(required_evidence@) && p.spec_max_capacity()
                == max_capacity_millibits_per_second && p.spec_min_confidence() == min_capacity_confidence_ppm),
    {
        if deployment_hash.is_zero() || threat_model_hash.is_zero() {
            return Err(SecurityError::ZeroHash);
        }
        if required_evidence.len() == 0 {
            return Err(SecurityError::EmptySecurityEvidencePolicy);
        }
        if required_evidence.len() > MAX_SECURITY_EVIDENCE {
            return Err(SecurityError::TooManySecurityEvidence);
        }
        if min_capacity_confidence_ppm == 0 || min_capacity_confidence_ppm > FULL_CONFIDENCE_PPM {
            return Err(SecurityError::InvalidConfidence);
        }
        let ghost declared = required_evidence@;
        let required_evidence = sort_dedup(required_evidence);
        assert(declared.contains(declared[0]));
        assert(required_evidence@.contains(declared[0]));
        Ok(SecurityPromotionPolicy {
            deployment_hash,
            threat_model_hash,
            required_evidence,
            max_capacity_millibits_per_second,
            min_capacity_confidence_ppm,
        })
    }

    /// Returns the exact deployment commitment.
    pub fn deployment_hash(&self) -> (hash: Hash32)
        ensures
            hash == self.spec_deployment_hash(),
    {
        self.deployment_hash
    }

    /// Returns the exact threat-model commitment.
    pub fn threat_model_hash(&self) -> (hash: Hash32)
        ensures
            hash == self.spec_threat_model_hash(),
    {
        self.threat_model_hash
    }
}


impl Clone for SecurityPromotionPolicy {
    fn clone(&self) -> (copy: Self)
        ensures
            copy.spec_deployment_hash() == self.spec_deployment_hash(),
            copy.spec_threat_model_hash() == self.spec_threat_model_hash(),
            copy.spec_required_evidence() == self.spec_required_evidence(),
            copy.spec_max_capacity() == self.spec_max_capacity(),
            copy.spec_min_confidence() == self.spec_min_confidence(),
    {
        proof {
            use_type_invariant(self);
        }
        let mut required_evidence: Vec<SecurityEvidenceKind> = Vec::new();
        let mut index: usize = 0;
        while index < self.required_evidence.len()
            invariant
                index <= self.required_evidence@.len(),
                required_evidence@ == self.required_evidence@.take(index as int),
            decreases self.required_evidence@.len() - index,
        {
            required_evidence.push(self.required_evidence[index]);
            index = index + 1;
            assert(required_evidence@ =~= self.required_evidence@.take(index as int));
        }
        assert(required_evidence@ =~= self.required_evidence@);
        SecurityPromotionPolicy {
            deployment_hash: self.deployment_hash,
            threat_model_hash: self.threat_model_hash,
            required_evidence,
            max_capacity_millibits_per_second: self.max_capacity_millibits_per_second,
            min_capacity_confidence_ppm: self.min_capacity_confidence_ppm,
        }
    }
}

/// Production-security promotion blocker.
#[derive(Clone, Copy, Debug, PartialEq, Eq)]
pub enum SecurityPromotionBlocker {
    /// A trace comparison found a modeled leak.
    LeakageReportFailed {
        /// Report index.
        index: u32,
    },
    /// A trace report belongs to another deployment.
    LeakageDeploymentMismatch {
        /// Report index.
        index: u32,
    },
    /// Leakage-policy deployment differs from the promotion policy.
    LeakagePolicyDeploymentMismatch,
    /// Leakage-policy threat model differs from the promotion policy.
    ThreatModelMismatch,
    /// A production decision supplied no leakage comparison.
    MissingLeakageReport,
    /// Leakage-report count exceeds the deterministic evaluation bound.
    TooManyLeakageReports {
        /// Supplied report count.
        observed: u32,
        /// Maximum evaluated report count.
        maximum: u32,
    },
    /// Security-evidence count exceeds the deterministic evaluation bound.
    TooManyEvidenceItems {
        /// Supplied evidence count.
        observed: u32,
        /// Maximum evaluated evidence count.
        maximum: u32,
    },
    /// Capacity-evidence count exceeds the deterministic evaluation bound.
    TooManyCapacityItems {
        /// Supplied capacity count.
        observed: u32,
        /// Maximum evaluated capacity count.
        maximum: u32,
    },
    /// Required evidence is absent.
    MissingEvidence(SecurityEvidenceKind),
    /// Two evidence items use the same required kind.
    DuplicateEvidence(SecurityEvidenceKind),
    /// Evidence is bound to another deployment.
    EvidenceDeploymentMismatch(SecurityEvidenceKind),
    /// A side/covert-channel rule has no capacity measurement.
    MissingCapacityEvidence {
        /// Observer.
        observer: SecurityDomainId,
        /// Observation kind.
        kind: ObservationKind,
        /// Channel class.
        channel: ChannelClass,
    },
    /// Duplicate capacity evidence exists for one rule.
    DuplicateCapacityEvidence,
    /// Capacity evidence is bound to another deployment.
    CapacityDeploymentMismatch,
    /// Measured capacity exceeds the policy.
    CapacityExceeded {
        /// Observed upper bound.
        observed: u64,
        /// Allowed upper bound.
        maximum: u64,
    },
    /// Measurement confidence is too low.
    CapacityConfidenceTooLow {
        /// Observed confidence.
        observed: u32,
        /// Required confidence.
        minimum: u32,
    },
}

/// The single blocker when the condition holds, otherwise nothing.
pub open spec fn flag_when(condition: bool, blocker: SecurityPromotionBlocker) -> Seq<SecurityPromotionBlocker> {
    if condition {
        seq![blocker]
    } else {
        Seq::empty()
    }
}

fn flag(blockers: &mut Vec<SecurityPromotionBlocker>, condition: bool, blocker: SecurityPromotionBlocker)
    ensures
        final(blockers)@ == old(blockers)@ + flag_when(condition, blocker),
{
    if condition {
        blockers.push(blocker);
    }
    assert(blockers@ =~= old(blockers)@ + flag_when(condition, blocker));
}

/// A count as reported in a blocker: saturated to 32 bits.
pub open spec fn saturated(count: nat) -> u32 {
    if count <= u32::MAX {
        count as u32
    } else {
        u32::MAX
    }
}

fn saturate(count: usize) -> (value: u32)
    ensures
        value == saturated(count as nat),
{
    if count <= 0xffff_ffffusize {
        count as u32
    } else {
        u32::MAX
    }
}

/// The shorter of a length and an evaluation bound.
pub open spec fn evaluated(count: nat, bound: nat) -> nat {
    if count <= bound {
        count
    } else {
        bound
    }
}

/// Blockers for the first `reports.len()` leakage reports.
pub open spec fn report_blockers(reports: Seq<LeakageReport>, deployment_hash: Hash32) -> Seq<SecurityPromotionBlocker>
    decreases reports.len(),
{
    if reports.len() == 0 {
        Seq::empty()
    } else {
        let index = (reports.len() - 1) as u32;
        let report = reports.last();
        report_blockers(reports.drop_last(), deployment_hash) + flag_when(
            report.spec_deployment_hash().spec_bytes() != deployment_hash.spec_bytes(),
            SecurityPromotionBlocker::LeakageDeploymentMismatch { index },
        ) + flag_when(report.spec_blockers().len() != 0, SecurityPromotionBlocker::LeakageReportFailed { index })
    }
}

/// The evidence kind with a given wire tag (tags run from 0 to 9).
pub open spec fn evidence_kind_with_tag(tag: nat) -> SecurityEvidenceKind {
    if tag == 0 {
        SecurityEvidenceKind::NoninterferenceProof
    } else if tag == 1 {
        SecurityEvidenceKind::ConstantTimeSymbolic
    } else if tag == 2 {
        SecurityEvidenceKind::ConstantTimeDynamic
    } else if tag == 3 {
        SecurityEvidenceKind::TimingStatistical
    } else if tag == 4 {
        SecurityEvidenceKind::MicroarchitecturalExperiment
    } else if tag == 5 {
        SecurityEvidenceKind::StorageChannelAnalysis
    } else if tag == 6 {
        SecurityEvidenceKind::CovertChannelCapacity
    } else if tag == 7 {
        SecurityEvidenceKind::TranslationValidation
    } else if tag == 8 {
        SecurityEvidenceKind::DeploymentAudit
    } else {
        SecurityEvidenceKind::HardwareAttestation
    }
}

fn evidence_kind_from_tag(tag: u8) -> (kind: SecurityEvidenceKind)
    ensures
        kind == evidence_kind_with_tag(tag as nat),
{
    match tag {
        0 => SecurityEvidenceKind::NoninterferenceProof,
        1 => SecurityEvidenceKind::ConstantTimeSymbolic,
        2 => SecurityEvidenceKind::ConstantTimeDynamic,
        3 => SecurityEvidenceKind::TimingStatistical,
        4 => SecurityEvidenceKind::MicroarchitecturalExperiment,
        5 => SecurityEvidenceKind::StorageChannelAnalysis,
        6 => SecurityEvidenceKind::CovertChannelCapacity,
        7 => SecurityEvidenceKind::TranslationValidation,
        8 => SecurityEvidenceKind::DeploymentAudit,
        _ => SecurityEvidenceKind::HardwareAttestation,
    }
}

/// How many evidence items are of a kind.
pub open spec fn kind_count(evidence: Seq<SecurityEvidence>, kind: SecurityEvidenceKind) -> nat
    decreases evidence.len(),
{
    if evidence.len() == 0 {
        0
    } else {
        kind_count(evidence.drop_last(), kind) + if evidence.last().spec_kind() == kind {
            1nat
        } else {
            0nat
        }
    }
}

/// One duplicate blocker per evidence item beyond the first of its kind, for
/// the kinds whose tags are below `tags`, in tag order.
pub open spec fn duplicate_evidence_blockers(evidence: Seq<SecurityEvidence>, tags: nat) -> Seq<SecurityPromotionBlocker>
    decreases tags,
{
    if tags == 0 {
        Seq::empty()
    } else {
        let kind = evidence_kind_with_tag((tags - 1) as nat);
        let count = kind_count(evidence, kind);
        let extra: nat = if count == 0 {
            0
        } else {
            (count - 1) as nat
        };
        duplicate_evidence_blockers(evidence, (tags - 1) as nat) + Seq::new(
            extra,
            |i: int| SecurityPromotionBlocker::DuplicateEvidence(kind),
        )
    }
}

/// The first evidence item of a kind, in the supplied order.
pub open spec fn first_of_kind(evidence: Seq<SecurityEvidence>, kind: SecurityEvidenceKind) -> Option<SecurityEvidence>
    decreases evidence.len(),
{
    if evidence.len() == 0 {
        None
    } else {
        match first_of_kind(evidence.drop_last(), kind) {
            Some(found) => Some(found),
            None => if evidence.last().spec_kind() == kind {
                Some(evidence.last())
            } else {
                None
            },
        }
    }
}

/// Blockers for the required evidence kinds: each is present, and its first
/// item is bound to the deployment.
pub open spec fn required_evidence_blockers(
    required: Seq<SecurityEvidenceKind>,
    evidence: Seq<SecurityEvidence>,
    deployment_hash: Hash32,
) -> Seq<SecurityPromotionBlocker>
    decreases required.len(),
{
    if required.len() == 0 {
        Seq::empty()
    } else {
        let kind = required.last();
        required_evidence_blockers(required.drop_last(), evidence, deployment_hash) + match first_of_kind(
            evidence,
            kind,
        ) {
            None => seq![SecurityPromotionBlocker::MissingEvidence(kind)],
            Some(item) => flag_when(
                item.spec_deployment_hash().spec_bytes() != deployment_hash.spec_bytes(),
                SecurityPromotionBlocker::EvidenceDeploymentMismatch(kind),
            ),
        }
    }
}

/// How many capacity measurements repeat the key of an earlier one.
pub open spec fn repeated_capacity_count(capacities: Seq<CapacityEvidence>) -> nat
    decreases capacities.len(),
{
    if capacities.len() == 0 {
        0
    } else {
        repeated_capacity_count(capacities.drop_last()) + if has_key(
            capacities.drop_last(),
            capacities.last().spec_key(),
        ) {
            1nat
        } else {
            0nat
        }
    }
}

/// The first capacity measurement with a key, in the supplied order.
pub open spec fn first_capacity(capacities: Seq<CapacityEvidence>, key: int) -> Option<CapacityEvidence>
    decreases capacities.len(),
{
    if capacities.len() == 0 {
        None
    } else {
        match first_capacity(capacities.drop_last(), key) {
            Some(found) => Some(found),
            None => if capacities.last().spec_key() == key {
                Some(capacities.last())
            } else {
                None
            },
        }
    }
}

/// Blockers for one measured capacity under a promotion policy.
pub open spec fn capacity_blockers(capacity: CapacityEvidence, policy: SecurityPromotionPolicy) -> Seq<
    SecurityPromotionBlocker,
> {
    flag_when(
        capacity.spec_deployment_hash().spec_bytes() != policy.spec_deployment_hash().spec_bytes(),
        SecurityPromotionBlocker::CapacityDeploymentMismatch,
    ) + flag_when(
        capacity.spec_upper_bound() > policy.spec_max_capacity(),
        SecurityPromotionBlocker::CapacityExceeded {
            observed: capacity.spec_upper_bound(),
            maximum: policy.spec_max_capacity(),
        },
    ) + flag_when(
        capacity.spec_confidence_ppm() < policy.spec_min_confidence(),
        SecurityPromotionBlocker::CapacityConfidenceTooLow {
            observed: capacity.spec_confidence_ppm(),
            minimum: policy.spec_min_confidence(),
        },
    )
}

/// Blockers for the side and covert rules: each has a capacity measurement,
/// and its first measurement meets the policy.
pub open spec fn rule_capacity_blockers(
    rules: Seq<LeakageRule>,
    capacities: Seq<CapacityEvidence>,
    policy: SecurityPromotionPolicy,
) -> Seq<SecurityPromotionBlocker>
    decreases rules.len(),
{
    if rules.len() == 0 {
        Seq::empty()
    } else {
        let rule = rules.last();
        rule_capacity_blockers(rules.drop_last(), capacities, policy) + if rule.spec_channel()
            == ChannelClass::Intended {
            Seq::empty()
        } else {
            match first_capacity(capacities, rule.spec_key()) {
                None => seq![
                    SecurityPromotionBlocker::MissingCapacityEvidence {
                        observer: rule.spec_observer(),
                        kind: rule.spec_kind(),
                        channel: rule.spec_channel(),
                    },
                ],
                Some(capacity) => capacity_blockers(capacity, policy),
            }
        }
    }
}

/// Blockers for a missing or oversized input.
pub open spec fn promotion_count_blockers(reports: nat, evidence: nat, capacities: nat) -> Seq<SecurityPromotionBlocker> {
    flag_when(reports == 0, SecurityPromotionBlocker::MissingLeakageReport) + flag_when(
        reports > MAX_LEAKAGE_REPORTS,
        SecurityPromotionBlocker::TooManyLeakageReports {
            observed: saturated(reports),
            maximum: MAX_LEAKAGE_REPORTS as u32,
        },
    ) + flag_when(
        evidence > MAX_SECURITY_EVIDENCE,
        SecurityPromotionBlocker::TooManyEvidenceItems {
            observed: saturated(evidence),
            maximum: MAX_SECURITY_EVIDENCE as u32,
        },
    ) + flag_when(
        capacities > MAX_CAPACITY_EVIDENCE,
        SecurityPromotionBlocker::TooManyCapacityItems {
            observed: saturated(capacities),
            maximum: MAX_CAPACITY_EVIDENCE as u32,
        },
    )
}

/// Every promotion blocker, in evaluation order. Only the first
/// `MAX_LEAKAGE_REPORTS` reports, `MAX_SECURITY_EVIDENCE` evidence items and
/// `MAX_CAPACITY_EVIDENCE` measurements are evaluated.
pub open spec fn promotion_blockers(
    policy: SecurityPromotionPolicy,
    leakage_policy: LeakagePolicy,
    reports: Seq<LeakageReport>,
    evidence: Seq<SecurityEvidence>,
    capacities: Seq<CapacityEvidence>,
) -> Seq<SecurityPromotionBlocker> {
    let kept_reports = reports.take(evaluated(reports.len(), MAX_LEAKAGE_REPORTS as nat) as int);
    let kept_evidence = evidence.take(evaluated(evidence.len(), MAX_SECURITY_EVIDENCE as nat) as int);
    let kept_capacities = capacities.take(evaluated(capacities.len(), MAX_CAPACITY_EVIDENCE as nat) as int);
    flag_when(
        leakage_policy.spec_deployment_contract_hash().spec_bytes() != policy.spec_deployment_hash().spec_bytes(),
        SecurityPromotionBlocker::LeakagePolicyDeploymentMismatch,
    ) + flag_when(
        leakage_policy.spec_threat_model_hash().spec_bytes() != policy.spec_threat_model_hash().spec_bytes(),
        SecurityPromotionBlocker::ThreatModelMismatch,
    ) + promotion_count_blockers(reports.len(), evidence.len(), capacities.len()) + report_blockers(
        kept_reports,
        policy.spec_deployment_hash(),
    ) + duplicate_evidence_blockers(kept_evidence, 10) + required_evidence_blockers(
        policy.spec_required_evidence(),
        kept_evidence,
        policy.spec_deployment_hash(),
    ) + Seq::new(
        repeated_capacity_count(kept_capacities),
        |i: int| SecurityPromotionBlocker::DuplicateCapacityEvidence,
    ) + rule_capacity_blockers(leakage_policy.spec_rules(), kept_capacities, policy)
}

/// Security-promotion evaluation.
#[derive(Clone, Debug, PartialEq, Eq)]
pub struct SecurityPromotionReport {
    blockers: Vec<SecurityPromotionBlocker>,
}

impl SecurityPromotionReport {
    /// Blockers in deterministic order.
    pub closed spec fn spec_blockers(self) -> Seq<SecurityPromotionBlocker> {
        self.blockers@
    }

    /// Returns true only when every security gate passed.
    pub fn is_promoted(&self) -> (promoted: bool)
        ensures
            promoted == (self.spec_blockers().len() == 0),
    {
        self.blockers.len() == 0
    }

    /// Returns blockers in deterministic order.
    pub fn blockers(&self) -> (blockers: &[SecurityPromotionBlocker])
        ensures
            blockers@ == self.spec_blockers(),
    {
        self.blockers.as_slice()
    }
}

fn note_reports(
    reports: &[LeakageReport],
    count: usize,
    deployment_hash: Hash32,
    blockers: &mut Vec<SecurityPromotionBlocker>,
)
    requires
        count <= reports@.len(),
        count <= MAX_LEAKAGE_REPORTS,
    ensures
        final(blockers)@ == old(blockers)@ + report_blockers(reports@.take(count as int), deployment_hash),
{
    let ghost start = old(blockers)@;
    let mut index: usize = 0;
    assert(reports@.take(0) =~= Seq::<LeakageReport>::empty());
    assert(start + Seq::<SecurityPromotionBlocker>::empty() =~= start);
    while index < count
        invariant
            index <= count,
            count <= reports@.len(),
            count <= MAX_LEAKAGE_REPORTS,
            blockers@ == start + report_blockers(reports@.take(index as int), deployment_hash),
        decreases count - index,
    {
        let report = &reports[index];
        let ghost before = report_blockers(reports@.take(index as int), deployment_hash);
        flag(
            blockers,
            report.deployment_hash() != deployment_hash,
            SecurityPromotionBlocker::LeakageDeploymentMismatch { index: index as u32 },
        );
        flag(blockers, !report.is_secure(), SecurityPromotionBlocker::LeakageReportFailed { index: index as u32 });
        proof {
            let next = reports@.take(index + 1);
            assert(next.drop_last() =~= reports@.take(index as int));
            assert(next.last() == reports@[index as int]);
            assert(report_blockers(next, deployment_hash) == before + flag_when(
                report.spec_deployment_hash().spec_bytes() != deployment_hash.spec_bytes(),
                SecurityPromotionBlocker::LeakageDeploymentMismatch { index: index as u32 },
            ) + flag_when(
                report.spec_blockers().len() != 0,
                SecurityPromotionBlocker::LeakageReportFailed { index: index as u32 },
            ));
            assert(blockers@ =~= start + report_blockers(next, deployment_hash));
        }
        index = index + 1;
    }
}

fn count_kind(evidence: &Vec<SecurityEvidence>, count: usize, kind: SecurityEvidenceKind) -> (found: usize)
    requires
        count <= evidence@.len(),
    ensures
        found == kind_count(evidence@.take(count as int), kind),
        found <= count,
{
    let mut found: usize = 0;
    let mut index: usize = 0;
    assert(evidence@.take(0) =~= Seq::<SecurityEvidence>::empty());
    while index < count
        invariant
            index <= count,
            count <= evidence@.len(),
            found == kind_count(evidence@.take(index as int), kind),
            found <= index,
        decreases count - index,
    {
        proof {
            assert(evidence@.take(index + 1).drop_last() =~= evidence@.take(index as int));
        }
        if evidence[index].kind == kind {
            found = found + 1;
        }
        index = index + 1;
    }
    found
}

fn note_duplicate_evidence(evidence: &Vec<SecurityEvidence>, count: usize, blockers: &mut Vec<SecurityPromotionBlocker>)
    requires
        count <= evidence@.len(),
    ensures
        final(blockers)@ == old(blockers)@ + duplicate_evidence_blockers(evidence@.take(count as int), 10),
{
    let ghost start = old(blockers)@;
    let ghost kept = evidence@.take(count as int);
    assert(start + Seq::<SecurityPromotionBlocker>::empty() =~= start);
    let mut tag: u8 = 0;
    while tag < 10
        invariant
            tag <= 10,
            count <= evidence@.len(),
            kept == evidence@.take(count as int),
            blockers@ == start + duplicate_evidence_blockers(kept, tag as nat),
        decreases 10 - tag,
    {
        let kind = evidence_kind_from_tag(tag);
        let found = count_kind(evidence, count, kind);
        let extra: usize = if found == 0 {
            0
        } else {
            found - 1
        };
        let ghost before = blockers@;
        let mut pushed: usize = 0;
        while pushed < extra
            invariant
                pushed <= extra,
                blockers@ == before + Seq::new(pushed as nat, |i: int| SecurityPromotionBlocker::DuplicateEvidence(kind)),
            decreases extra - pushed,
        {
            blockers.push(SecurityPromotionBlocker::DuplicateEvidence(kind));
            pushed = pushed + 1;
            assert(blockers@ =~= before + Seq::new(
                pushed as nat,
                |i: int| SecurityPromotionBlocker::DuplicateEvidence(kind),
            ));
        }
        proof {
            assert(((tag + 1) as nat - 1) as nat == tag as nat);
            assert(blockers@ =~= start + duplicate_evidence_blockers(kept, (tag + 1) as nat));
        }
        tag = tag + 1;
    }
}

fn find_first_of_kind(evidence: &Vec<SecurityEvidence>, count: usize, kind: SecurityEvidenceKind) -> (found: Option<
    SecurityEvidence,
>)
    requires
        count <= evidence@.len(),
    ensures
        found == first_of_kind(evidence@.take(count as int), kind),
{
    let mut found: Option<SecurityEvidence> = None;
    let mut index: usize = 0;
    assert(evidence@.take(0) =~= Seq::<SecurityEvidence>::empty());
    while index < count
        invariant
            index <= count,
            count <= evidence@.len(),
            found == first_of_kind(evidence@.take(index as int), kind),
        decreases count - index,
    {
        proof {
            assert(evidence@.take(index + 1).drop_last() =~= evidence@.take(index as int));
        }
        if found.is_none() && evidence[index].kind == kind {
            found = Some(evidence[index]);
        }
        index = index + 1;
    }
    found
}

fn note_required_evidence(
    policy: &SecurityPromotionPolicy,
    evidence: &Vec<SecurityEvidence>,
    count: usize,
    blockers: &mut Vec<SecurityPromotionBlocker>,
)
    requires
        count <= evidence@.len(),
    ensures
        final(blockers)@ == old(blockers)@ + required_evidence_blockers(
            policy.spec_required_evidence(),
            evidence@.take(count as int),
            policy.spec_deployment_hash(),
        ),
{
    let ghost start = old(blockers)@;
    let ghost kept = evidence@.take(count as int);
    let ghost required = policy.spec_required_evidence();
    let deployment_hash = policy.deployment_hash;
    assert(start + Seq::<SecurityPromotionBlocker>::empty() =~= start);
    assert(required.take(0) =~= Seq::<SecurityEvidenceKind>::empty());
    let mut index: usize = 0;
    while index < policy.required_evidence.len()
        invariant
            index <= required.len(),
            required == policy.required_evidence@,
            count <= evidence@.len(),
            kept == evidence@.take(count as int),
            deployment_hash == policy.spec_deployment_hash(),
            blockers@ == start + required_evidence_blockers(required.take(index as int), kept, deployment_hash),
        decreases required.len() - index,
    {
        let kind = policy.required_evidence[index];
        let ghost before = blockers@;
        match find_first_of_kind(evidence, count, kind) {
            None => blockers.push(SecurityPromotionBlocker::MissingEvidence(kind)),
            Some(item) => flag(
                blockers,
                item.deployment_hash != deployment_hash,
                SecurityPromotionBlocker::EvidenceDeploymentMismatch(kind),
            ),
        }
        proof {
            let next = required.take(index + 1);
            assert(next.drop_last() =~= required.take(index as int));
            assert(next.last() == kind);
            assert(blockers@ =~= start + required_evidence_blockers(next, kept, deployment_hash));
        }
        index = index + 1;
    }
    assert(required.take(required.len() as int) =~= required);
}

fn has_capacity_key(capacities: &Vec<CapacityEvidence>, count: usize, key: u64) -> (found: bool)
    requires
        count <= capacities@.len(),
    ensures
        found == has_key(capacities@.take(count as int), key as int),
{
    let mut index: usize = 0;
    while index < count
        invariant
            index <= count,
            count <= capacities@.len(),
            forall|j: int| 0 <= j < index ==> capacities@[j].spec_key() != key,
        decreases count - index,
    {
        let item = capacities[index];
        if observation_key_of(item.observer, item.kind, item.channel) == key {
            assert(capacities@.take(count as int)[index as int] == item);
            return true;
        }
        index = index + 1;
    }
    false
}

fn count_repeated_capacities(capacities: &Vec<CapacityEvidence>, count: usize) -> (repeated: usize)
    requires
        count <= capacities@.len(),
    ensures
        repeated == repeated_capacity_count(capacities@.take(count as int)),
        repeated <= count,
{
    let mut repeated: usize = 0;
    let mut index: usize = 0;
    assert(capacities@.take(0) =~= Seq::<CapacityEvidence>::empty());
    while index < count
        invariant
            index <= count,
            count <= capacities@.len(),
            repeated == repeated_capacity_count(capacities@.take(index as int)),
            repeated <= index,
        decreases count - index,
    {
        let item = capacities[index];
        let key = observation_key_of(item.observer, item.kind, item.channel);
        let seen = has_capacity_key(capacities, index, key);
        proof {
            let next = capacities@.take(index + 1);
            assert(next.drop_last() =~= capacities@.take(index as int));
            assert(next.last() == item);
        }
        if seen {
            repeated = repeated + 1;
        }
        index = index + 1;
    }
    repeated
}

fn find_first_capacity(capacities: &Vec<CapacityEvidence>, count: usize, key: u64) -> (found: Option<CapacityEvidence>)
    requires
        count <= capacities@.len(),
    ensures
        found == first_capacity(capacities@.take(count as int), key as int),
{
    let mut found: Option<CapacityEvidence> = None;
    let mut index: usize = 0;
    assert(capacities@.take(0) =~= Seq::<CapacityEvidence>::empty());
    while index < count
        invariant
            index <= count,
            count <= capacities@.len(),
            found == first_capacity(capacities@.take(index as int), key as int),
        decreases count - index,
    {
        proof {
            assert(capacities@.take(index + 1).drop_last() =~= capacities@.take(index as int));
        }
        let item = capacities[index];
        if found.is_none() && observation_key_of(item.observer, item.kind, item.channel) == key {
            found = Some(item);
        }
        index = index + 1;
    }
    found
}

fn note_capacity(capacity: CapacityEvidence, policy: &SecurityPromotionPolicy, blockers: &mut Vec<SecurityPromotionBlocker>)
    ensures
        final(blockers)@ == old(blockers)@ + capacity_blockers(capacity, *policy),
{
    flag(
        blockers,
        capacity.deployment_hash != policy.deployment_hash,
        SecurityPromotionBlocker::CapacityDeploymentMismatch,
    );
    flag(
        blockers,
        capacity.upper_bound_millibits_per_second > policy.max_capacity_millibits_per_second,
        SecurityPromotionBlocker::CapacityExceeded {
            observed: capacity.upper_bound_millibits_per_second,
            maximum: policy.max_capacity_millibits_per_second,
        },
    );
    flag(
        blockers,
        capacity.confidence_ppm < policy.min_capacity_confidence_ppm,
        SecurityPromotionBlocker::CapacityConfidenceTooLow {
            observed: capacity.confidence_ppm,
            minimum: policy.min_capacity_confidence_ppm,
        },
    );
    assert(blockers@ =~= old(blockers)@ + capacity_blockers(capacity, *policy));
}

fn note_rule_capacities(
    policy: &SecurityPromotionPolicy,
    leakage_policy: &LeakagePolicy,
    capacities: &Vec<CapacityEvidence>,
    count: usize,
    blockers: &mut Vec<SecurityPromotionBlocker>,
)
    requires
        count <= capacities@.len(),
    ensures
        final(blockers)@ == old(blockers)@ + rule_capacity_blockers(
            leakage_policy.spec_rules(),
            capacities@.take(count as int),
            *policy,
        ),
{
    let ghost start = old(blockers)@;
    let ghost kept = capacities@.take(count as int);
    let rules = leakage_policy.rules();
    let ghost all = leakage_policy.spec_rules();
    assert(start + Seq::<SecurityPromotionBlocker>::empty() =~= start);
    assert(all.take(0) =~= Seq::<LeakageRule>::empty());
    let mut index: usize = 0;
    while index < rules.len()
        invariant
            index <= all.len(),
            rules@ == all,
            count <= capacities@.len(),
            kept == capacities@.take(count as int),
            blockers@ == start + rule_capacity_blockers(all.take(index as int), kept, *policy),
        decreases all.len() - index,
    {
        let rule = rules[index];
        let ghost before = blockers@;
        if rule.channel() != ChannelClass::Intended {
            let key = observation_key_of(rule.observer(), rule.kind(), rule.channel());
            match find_first_capacity(capacities, count, key) {
                None => blockers.push(
                    SecurityPromotionBlocker::MissingCapacityEvidence {
                        observer: rule.observer(),
                        kind: rule.kind(),
                        channel: rule.channel(),
                    },
                ),
                Some(capacity) => note_capacity(capacity, policy, blockers),
            }
        }
        proof {
            let next = all.take(index + 1);
            assert(next.drop_last() =~= all.take(index as int));
            assert(next.last() == rule);
            assert(blockers@ =~= start + rule_capacity_blockers(next, kept, *policy));
        }
        index = index + 1;
    }
    assert(all.take(all.len() as int) =~= all);
}

/// Evaluates deployment-bound side/covert-channel promotion evidence.
///
/// Only the first `MAX_LEAKAGE_REPORTS` reports, `MAX_SECURITY_EVIDENCE`
/// evidence items and `MAX_CAPACITY_EVIDENCE` measurements are evaluated;
/// larger inputs are themselves blockers.
pub fn evaluate_security_promotion(
    policy: &SecurityPromotionPolicy,
    leakage_policy: &LeakagePolicy,
    reports: &[LeakageReport],
    evidence: Vec<SecurityEvidence>,
    capacities: Vec<CapacityEvidence>,
) -> (report: SecurityPromotionReport)
    ensures
        report.spec_blockers() == promotion_blockers(*policy, *leakage_policy, reports@, evidence@, capacities@),
{
    let mut blockers: Vec<SecurityPromotionBlocker> = Vec::new();
    let ghost p1 = flag_when(
        leakage_policy.spec_deployment_contract_hash().spec_bytes() != policy.spec_deployment_hash().spec_bytes(),
        SecurityPromotionBlocker::LeakagePolicyDeploymentMismatch,
    );
    let ghost p2 = flag_when(
        leakage_policy.spec_threat_model_hash().spec_bytes() != policy.spec_threat_model_hash().spec_bytes(),
        SecurityPromotionBlocker::ThreatModelMismatch,
    );
    flag(
        &mut blockers,
        leakage_policy.deployment_contract_hash() != policy.deployment_hash,
        SecurityPromotionBlocker::LeakagePolicyDeploymentMismatch,
    );
    flag(
        &mut blockers,
        leakage_policy.threat_model_hash() != policy.threat_model_hash,
        SecurityPromotionBlocker::ThreatModelMismatch,
    );
    flag(&mut blockers, reports.len() == 0, SecurityPromotionBlocker::MissingLeakageReport);
    flag(
        &mut blockers,
        reports.len() > MAX_LEAKAGE_REPORTS,
        SecurityPromotionBlocker::TooManyLeakageReports {
            observed: saturate(reports.len()),
            maximum: MAX_LEAKAGE_REPORTS as u32,
        },
    );
    flag(
        &mut blockers,
        evidence.len() > MAX_SECURITY_EVIDENCE,
        SecurityPromotionBlocker::TooManyEvidenceItems {
            observed: saturate(evidence.len()),
            maximum: MAX_SECURITY_EVIDENCE as u32,
        },
    );
    flag(
        &mut blockers,
        capacities.len() > MAX_CAPACITY_EVIDENCE,
        SecurityPromotionBlocker::TooManyCapacityItems {
            observed: saturate(capacities.len()),
            maximum: MAX_CAPACITY_EVIDENCE as u32,
        },
    );
    let ghost header = blockers@;
    assert(header =~= p1 + p2 + promotion_count_blockers(
        reports@.len(),
        evidence@.len(),
        capacities@.len(),
    ));
    let report_count = if reports.len() <= MAX_LEAKAGE_REPORTS {
        reports.len()
    } else {
        MAX_LEAKAGE_REPORTS
    };
    let evidence_count = if evidence.len() <= MAX_SECURITY_EVIDENCE {
        evidence.len()
    } else {
        MAX_SECURITY_EVIDENCE
    };
    let capacity_count = if capacities.len() <= MAX_CAPACITY_EVIDENCE {
        capacities.len()
    } else {
        MAX_CAPACITY_EVIDENCE
    };
    note_reports(reports, report_count, policy.deployment_hash, &mut blockers);
    note_duplicate_evidence(&evidence, evidence_count, &mut blockers);
    note_required_evidence(policy, &evidence, evidence_count, &mut blockers);
    let repeated = count_repeated_capacities(&capacities, capacity_count);
    let ghost before_repeated = blockers@;
    let mut pushed: usize = 0;
    while pushed < repeated
        invariant
            pushed <= repeated,
            blockers@ == before_repeated + Seq::new(
                pushed as nat,
                |i: int| SecurityPromotionBlocker::DuplicateCapacityEvidence,
            ),
        decreases repeated - pushed,
    {
        blockers.push(SecurityPromotionBlocker::DuplicateCapacityEvidence);
        pushed = pushed + 1;
        assert(blockers@ =~= before_repeated + Seq::new(
            pushed as nat,
            |i: int| SecurityPromotionBlocker::DuplicateCapacityEvidence,
        ));
    }
    note_rule_capacities(policy, leakage_policy, &capacities, capacity_count, &mut blockers);
    assert(blockers@ =~= promotion_blockers(*policy, *leakage_policy, reports@, evidence@, capacities@));
    SecurityPromotionReport { blockers }
}


// ---------------------------------------------------------------------------
// Canonical bytes.
// ---------------------------------------------------------------------------

impl Encodable for SecurityEvidence {
    open spec fn spec_encoding(&self) -> Seq<u8> {
        seq![self.spec_kind().spec_tag()] + self.spec_hashes()[0].spec_bytes() + self.spec_hashes()[1].spec_bytes()
            + self.spec_hashes()[2].spec_bytes() + self.spec_hashes()[3].spec_bytes()
    }

    fn encode_to(&self, output: &mut Vec<u8>) {
        put_u8(output, self.kind.tag());
        put_bytes(output, self.claim_hash.as_bytes());
        put_bytes(output, self.artifact_hash.as_bytes());
        put_bytes(output, self.toolchain_hash.as_bytes());
        put_bytes(output, self.deployment_hash.as_bytes());
        assert(output@ =~= old(output)@ + self.spec_encoding());
    }
}

impl Encodable for CapacityEvidence {
    open spec fn spec_encoding(&self) -> Seq<u8> {
        be32(self.spec_observer().spec_get()) + seq![self.spec_kind().spec_tag(), self.spec_channel().spec_tag()]
            + self.spec_deployment_hash().spec_bytes() + be64(self.spec_upper_bound()) + be32(
            self.spec_confidence_ppm(),
        ) + self.spec_provenance()[0].spec_bytes() + self.spec_provenance()[1].spec_bytes()
    }

    fn encode_to(&self, output: &mut Vec<u8>) {
        put_u32(output, self.observer.get());
        put_u8(output, self.kind.tag());
        put_u8(output, self.channel.tag());
        put_bytes(output, self.deployment_hash.as_bytes());
        put_u64(output, self.upper_bound_millibits_per_second);
        put_u32(output, self.confidence_ppm);
        put_bytes(output, self.artifact_hash.as_bytes());
        put_bytes(output, self.toolchain_hash.as_bytes());
        assert(output@ =~= old(output)@ + self.spec_encoding());
    }
}

impl SecurityPromotionPolicy {
    /// Canonical bytes: the deployment and threat-model commitments, the
    /// required evidence kinds behind a 16-bit count, the capacity bound and
    /// the minimum confidence.
    pub open spec fn spec_encoding(self) -> Seq<u8> {
        self.spec_deployment_hash().spec_bytes() + self.spec_threat_model_hash().spec_bytes() + be16(
            self.spec_required_evidence().len() as u16,
        ) + encode_all(self.spec_required_evidence()) + be64(self.spec_max_capacity()) + be32(
            self.spec_min_confidence(),
        )
    }

    /// The canonical bytes of the policy.
    pub fn canonical_bytes(&self) -> (bytes: Vec<u8>)
        ensures
            bytes@ == self.spec_encoding(),
    {
        let mut output: Vec<u8> = Vec::new();
        put_bytes(&mut output, self.deployment_hash.as_bytes());
        put_bytes(&mut output, self.threat_model_hash.as_bytes());
        put_u16(&mut output, self.required_evidence.len() as u16);
        encode_each(self.required_evidence.as_slice(), &mut output);
        put_u64(&mut output, self.max_capacity_millibits_per_second);
        put_u32(&mut output, self.min_capacity_confidence_ppm);
        assert(output@ =~= self.spec_encoding());
        output
    }
}

impl Encodable for SecurityPromotionBlocker {
    open spec fn spec_encoding(&self) -> Seq<u8> {
        match *self {
            SecurityPromotionBlocker::LeakageReportFailed { index } => seq![0u8] + be32(index),
            SecurityPromotionBlocker::LeakageDeploymentMismatch { index } => seq![1u8] + be32(index),
            SecurityPromotionBlocker::MissingEvidence(kind) => seq![2u8, kind.spec_tag()],
            SecurityPromotionBlocker::DuplicateEvidence(kind) => seq![3u8, kind.spec_tag()],
            SecurityPromotionBlocker::EvidenceDeploymentMismatch(kind) => seq![4u8, kind.spec_tag()],
            SecurityPromotionBlocker::MissingCapacityEvidence { observer, kind, channel } => seq![5u8] + be32(
                observer.spec_get(),
            ) + seq![kind.spec_tag(), channel.spec_tag()],
            SecurityPromotionBlocker::DuplicateCapacityEvidence => seq![6u8],
            SecurityPromotionBlocker::CapacityDeploymentMismatch => seq![7u8],
            SecurityPromotionBlocker::CapacityExceeded { observed, maximum } => seq![8u8] + be64(observed) + be64(
                maximum,
            ),
            SecurityPromotionBlocker::CapacityConfidenceTooLow { observed, minimum } => seq![9u8] + be32(observed)
                + be32(minimum),
            SecurityPromotionBlocker::LeakagePolicyDeploymentMismatch => seq![10u8],
            SecurityPromotionBlocker::ThreatModelMismatch => seq![11u8],
            SecurityPromotionBlocker::MissingLeakageReport => seq![12u8],
            SecurityPromotionBlocker::TooManyLeakageReports { observed, maximum } => seq![13u8] + be32(observed)
                + be32(maximum),
            SecurityPromotionBlocker::TooManyEvidenceItems { observed, maximum } => seq![14u8] + be32(observed)
                + be32(maximum),
            SecurityPromotionBlocker::TooManyCapacityItems { observed, maximum } => seq![15u8] + be32(observed)
                + be32(maximum),
        }
    }

    fn encode_to(&self, output: &mut Vec<u8>) {
        match self {
            SecurityPromotionBlocker::LeakageReportFailed { index } => {
                put_u8(output, 0);
                put_u32(output, *index);
            },
            SecurityPromotionBlocker::LeakageDeploymentMismatch { index } => {
                put_u8(output, 1);
                put_u32(output, *index);
            },
            SecurityPromotionBlocker::MissingEvidence(kind) => {
                put_u8(output, 2);
                put_u8(output, kind.tag());
            },
            SecurityPromotionBlocker::DuplicateEvidence(kind) => {
                put_u8(output, 3);
                put_u8(output, kind.tag());
            },
            SecurityPromotionBlocker::EvidenceDeploymentMismatch(kind) => {
                put_u8(output, 4);
                put_u8(output, kind.tag());
            },
            SecurityPromotionBlocker::MissingCapacityEvidence { observer, kind, channel } => {
                put_u8(output, 5);
                put_u32(output, observer.get());
                put_u8(output, kind.tag());
                put_u8(output, channel.tag());
            },
            SecurityPromotionBlocker::DuplicateCapacityEvidence => put_u8(output, 6),
            SecurityPromotionBlocker::CapacityDeploymentMismatch => put_u8(output, 7),
            SecurityPromotionBlocker::CapacityExceeded { observed, maximum } => {
                put_u8(output, 8);
                put_u64(output, *observed);
                put_u64(output, *maximum);
            },
            SecurityPromotionBlocker::CapacityConfidenceTooLow { observed, minimum } => {
                put_u8(output, 9);
                put_u32(output, *observed);
                put_u32(output, *minimum);
            },
            SecurityPromotionBlocker::LeakagePolicyDeploymentMismatch => put_u8(output, 10),
            SecurityPromotionBlocker::ThreatModelMismatch => put_u8(output, 11),
            SecurityPromotionBlocker::MissingLeakageReport => put_u8(output, 12),
            SecurityPromotionBlocker::TooManyLeakageReports { observed, maximum } => {
                put_u8(output, 13);
                put_u32(output, *observed);
                put_u32(output, *maximum);
            },
            SecurityPromotionBlocker::TooManyEvidenceItems { observed, maximum } => {
                put_u8(output, 14);
                put_u32(output, *observed);
                put_u32(output, *maximum);
            },
            SecurityPromotionBlocker::TooManyCapacityItems { observed, maximum } => {
                put_u8(output, 15);
                put_u32(output, *observed);
                put_u32(output, *maximum);
            },
        }
        assert(output@ =~= old(output)@ + self.spec_encoding());
    }
}

impl SecurityPromotionBlocker {
    /// The canonical encoding is at most 17 bytes long.
    pub proof fn lemma_encoding_len(self)
        ensures
            self.spec_encoding().len() <= 17,
    {
    }
}

impl SecurityPromotionReport {
    /// Canonical bytes: the blocker count, then each blocker's
    /// length-prefixed encoding.
    pub open spec fn spec_encoding(self) -> Seq<u8> {
        be32(self.spec_blockers().len() as u32) + blob_all(self.spec_blockers())
    }

    /// The canonical bytes of the report; fails only when the blocker count
    /// does not fit 32 bits.
    pub fn canonical_bytes(&self) -> (bytes: Result<Vec<u8>, EncodeError>)
        ensures
            bytes is Ok <==> self.spec_blockers().len() <= u32::MAX,
            bytes matches Ok(b) ==> b@ == self.spec_encoding(),
            bytes is Err ==> bytes == Err::<Vec<u8>, EncodeError>(EncodeError::LengthOverflow),
    {
        let mut output: Vec<u8> = Vec::new();
        match put_length(&mut output, self.blockers.len()) {
            Ok(()) => {},
            Err(error) => return Err(error),
        }
        proof {
            assert forall|i: int| 0 <= i < self.blockers@.len() implies #[trigger] self.blockers@[i].spec_encoding().len()
                <= u32::MAX by {
                self.blockers@[i].lemma_encoding_len();
            }
        }
        put_blob_each(self.blockers.as_slice(), &mut output);
        assert(output@ =~= self.spec_encoding());
        Ok(output)
    }
}

} // verus!


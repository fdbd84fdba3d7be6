//! Project-neutral information-flow, side-channel, and covert-channel policy values.
//!
//! Physical leakage is a property of the deployed software, compiler, operating
//! system, hardware, and workload, so this module separates an information-flow
//! lattice, closed observation traces, explicit declassification,
//! side/covert-channel rules, deployment mitigation contracts, security
//! evidence, and fail-closed promotion decisions. Source-level equality is not
//! claimed to imply physical constant-time execution.

use vstd::prelude::*;

pub mod promotion;

pub use promotion::{
    evaluate_security_promotion, CapacityEvidence, SecurityEvidence, SecurityPromotionBlocker,
    SecurityPromotionPolicy, SecurityPromotionReport,
};

use crate::commit::{commitment_preimage, frame_commitment, CommitmentHasher, Hash32};
use crate::encode::{
    be16, be32, be64, blob_all, encode_all, encode_each, put_blob_each, put_bytes, put_length, put_u16, put_u32,
    put_u64, put_u8, EncodeError, Encodable,
};
use crate::sort::{
    canonical_order, canonical_set, find_key, first_adjacent_duplicate, has_duplicate_key, has_key,
    lemma_canonical_order, lemma_duplicate_key_multiset, same_members, sort_by_key, sort_dedup,
    strictly_sorted_by_key, KeyIdentifies, Keyed, U64Keyed,
};

verus! {

/// Maximum compartments attached to one information-flow label.
pub const MAX_COMPARTMENTS: usize = 64;

/// Maximum observations retained in one trace.
pub const MAX_OBSERVATIONS: usize = 16384;

/// Maximum observer clearances in one policy.
pub const MAX_OBSERVERS: usize = 4096;

/// Maximum observation rules in one policy.
pub const MAX_LEAKAGE_RULES: usize = 4096;

/// Maximum required mitigations in one policy or deployment.
pub const MAX_MITIGATIONS: usize = 128;

/// Maximum security evidence items evaluated at once.
pub const MAX_SECURITY_EVIDENCE: usize = 128;

/// Maximum capacity measurements evaluated at once.
pub const MAX_CAPACITY_EVIDENCE: usize = 4096;

/// Maximum leakage reports evaluated by one promotion decision.
pub const MAX_LEAKAGE_REPORTS: usize = 4096;

/// Maximum leakage blockers retained in one report.
pub const MAX_LEAKAGE_BLOCKERS: usize = 16384;

/// Security model construction or commitment failure.
#[derive(Clone, Copy, Debug, PartialEq, Eq, Structural)]
pub enum SecurityError {
    /// A stable numeric identifier was zero.
    ZeroIdentifier,
    /// A required commitment was zero.
    ZeroHash,
    /// A label exceeded the compartment bound.
    TooManyCompartments,
    /// A trace exceeded the observation bound.
    TooManyObservations,
    /// A policy exceeded the observer bound.
    TooManyObservers,
    /// A leakage policy contained no rules.
    EmptyLeakagePolicy,
    /// A policy exceeded the leakage-rule bound.
    TooManyLeakageRules,
    /// Two observer clearances share one identifier.
    DuplicateObserver,
    /// Two rules classify the same observer/channel tuple.
    DuplicateLeakageRule,
    /// A declassification bound was zero.
    ZeroDeclassificationBudget,
    /// A policy or deployment exceeded the mitigation bound.
    TooManyMitigations,
    /// Capacity evidence was supplied for an intended channel.
    CapacityForIntendedChannel,
    /// A confidence value was zero or above one million parts per million.
    InvalidConfidence,
    /// A promotion policy required no evidence.
    EmptySecurityEvidencePolicy,
    /// A promotion policy exceeded the evidence bound.
    TooManySecurityEvidence,
    /// Canonical encoding failed.
    Encode(EncodeError),
}

impl SecurityError {
    /// Returns the human-readable description.
    pub fn message(&self) -> (text: &'static str)
        ensures
            text == (match *self {
                SecurityError::ZeroIdentifier => "security identifier is zero",
                SecurityError::ZeroHash => "security commitment is zero",
                SecurityError::TooManyCompartments => "too many security compartments",
                SecurityError::TooManyObservations => "too many observations",
                SecurityError::TooManyObservers => "too many observer clearances",
                SecurityError::EmptyLeakagePolicy => "leakage policy has no rules",
                SecurityError::TooManyLeakageRules => "too many leakage rules",
                SecurityError::DuplicateObserver => "duplicate observer clearance",
                SecurityError::DuplicateLeakageRule => "duplicate leakage rule",
                SecurityError::ZeroDeclassificationBudget => "declassification bit budget is zero",
                SecurityError::TooManyMitigations => "too many mitigations",
                SecurityError::CapacityForIntendedChannel => "capacity evidence is only for side or covert channels",
                SecurityError::InvalidConfidence => "invalid confidence in parts per million",
                SecurityError::EmptySecurityEvidencePolicy => "security promotion policy requires no evidence",
                SecurityError::TooManySecurityEvidence => "too many security evidence kinds",
                SecurityError::Encode(_) => "security encoding failed",
            }),
    {
        match self {
            SecurityError::ZeroIdentifier => "security identifier is zero",
            SecurityError::ZeroHash => "security commitment is zero",
            SecurityError::TooManyCompartments => "too many security compartments",
            SecurityError::TooManyObservations => "too many observations",
            SecurityError::TooManyObservers => "too many observer clearances",
            SecurityError::EmptyLeakagePolicy => "leakage policy has no rules",
            SecurityError::TooManyLeakageRules => "too many leakage rules",
            SecurityError::DuplicateObserver => "duplicate observer clearance",
            SecurityError::DuplicateLeakageRule => "duplicate leakage rule",
            SecurityError::ZeroDeclassificationBudget => "declassification bit budget is zero",
            SecurityError::TooManyMitigations => "too many mitigations",
            SecurityError::CapacityForIntendedChannel => "capacity evidence is only for side or covert channels",
            SecurityError::InvalidConfidence => "invalid confidence in parts per million",
            SecurityError::EmptySecurityEvidencePolicy => "security promotion policy requires no evidence",
            SecurityError::TooManySecurityEvidence => "too many security evidence kinds",
            SecurityError::Encode(_) => "security encoding failed",
        }
    }
}

/// Stable nonzero security-domain identity.
#[derive(Clone, Copy, Debug, PartialEq, Eq, Structural, Hash, PartialOrd, Ord)]
pub struct SecurityDomainId(u32);

impl SecurityDomainId {
    /// Identifiers are nonzero.
    #[verifier::type_invariant]
    spec fn nonzero(self) -> bool {
        self.0 != 0
    }

    /// The raw stable identifier.
    pub closed spec fn spec_get(self) -> u32 {
        self.0
    }

    /// Creates a nonzero identity.
    pub fn try_new(value: u32) -> (id: Result<Self, SecurityError>)
        ensures
            id is Ok <==> value != 0,
            id matches Ok(i) ==> i.spec_get() == value,
            id matches Err(e) ==> e == SecurityError::ZeroIdentifier,
    {
        if value == 0 {
            Err(SecurityError::ZeroIdentifier)
        } else {
            Ok(SecurityDomainId(value))
        }
    }

    /// Returns the raw stable identifier.
    pub fn get(self) -> (value: u32)
        ensures
            value == self.spec_get(),
            value != 0,
    {
        proof {
            use_type_invariant(self);
        }
        self.0
    }

    /// Identifiers are determined by their raw value.
    pub proof fn lemma_get_injective(self, other: Self)
        requires
            self.spec_get() == other.spec_get(),
        ensures
            self == other,
    {
    }
}

impl Keyed for SecurityDomainId {
    open spec fn spec_key(&self) -> int {
        self.spec_get() as int
    }

    fn key_lt(&self, other: &Self) -> bool {
        self.get() < other.get()
    }

    fn key_eq(&self, other: &Self) -> bool {
        self.get() == other.get()
    }
}

impl U64Keyed for SecurityDomainId {
    fn key_u64(&self) -> u64 {
        self.get() as u64
    }
}

impl KeyIdentifies for SecurityDomainId {
    proof fn lemma_key_identifies(a: Self, b: Self) {
        a.lemma_get_injective(b);
    }
}

impl Encodable for SecurityDomainId {
    open spec fn spec_encoding(&self) -> Seq<u8> {
        be32(self.spec_get())
    }

    fn encode_to(&self, output: &mut Vec<u8>) {
        put_u32(output, self.get());
    }
}

/// Stable nonzero information compartment.
#[derive(Clone, Copy, Debug, PartialEq, Eq, Structural, Hash, PartialOrd, Ord)]
pub struct CompartmentId(u32);

impl CompartmentId {
    /// Identifiers are nonzero.
    #[verifier::type_invariant]
    spec fn nonzero(self) -> bool {
        self.0 != 0
    }

    /// The raw stable identifier.
    pub closed spec fn spec_get(self) -> u32 {
        self.0
    }

    /// Creates a nonzero identity.
    pub fn try_new(value: u32) -> (id: Result<Self, SecurityError>)
        ensures
            id is Ok <==> value != 0,
            id matches Ok(i) ==> i.spec_get() == value,
            id matches Err(e) ==> e == SecurityError::ZeroIdentifier,
    {
        if value == 0 {
            Err(SecurityError::ZeroIdentifier)
        } else {
            Ok(CompartmentId(value))
        }
    }

    /// Returns the raw stable identifier.
    pub fn get(self) -> (value: u32)
        ensures
            value == self.spec_get(),
            value != 0,
    {
        proof {
            use_type_invariant(self);
        }
        self.0
    }

    /// Identifiers are determined by their raw value.
    pub proof fn lemma_get_injective(self, other: Self)
        requires
            self.spec_get() == other.spec_get(),
        ensures
            self == other,
    {
    }
}

impl Keyed for CompartmentId {
    open spec fn spec_key(&self) -> int {
        self.spec_get() as int
    }

    fn key_lt(&self, other: &Self) -> bool {
        self.get() < other.get()
    }

    fn key_eq(&self, other: &Self) -> bool {
        self.get() == other.get()
    }
}

impl U64Keyed for CompartmentId {
    fn key_u64(&self) -> u64 {
        self.get() as u64
    }
}

impl KeyIdentifies for CompartmentId {
    proof fn lemma_key_identifies(a: Self, b: Self) {
        a.lemma_get_injective(b);
    }
}

impl Encodable for CompartmentId {
    open spec fn spec_encoding(&self) -> Seq<u8> {
        be32(self.spec_get())
    }

    fn encode_to(&self, output: &mut Vec<u8>) {
        put_u32(output, self.get());
    }
}

/// Observable surface through which information may leak.
#[derive(Clone, Copy, Debug, PartialEq, Eq, Structural, Hash, PartialOrd, Ord)]
pub enum ObservationKind {
    /// Intended protocol output.
    ExplicitOutput,
    /// Error or rejection classification.
    ErrorClass,
    /// Termination, crash, or completion behavior.
    Termination,
    /// Output or response size.
    OutputLength,
    /// Deterministic logical work or instruction class.
    LogicalWork,
    /// Allocation count or allocation-size class.
    AllocationClass,
    /// Secret-dependent branch class.
    BranchClass,
    /// Secret-dependent memory-address class.
    MemoryAccessClass,
    /// Scheduling, queueing, or wakeup behavior.
    Scheduling,
    /// Explicit shared state or persistent storage.
    Storage,
    /// Cache, TLB, predictor, or other microarchitectural state.
    Microarchitecture,
    /// Network packet count, framing, or timing.
    Network,
    /// Logs, traces, diagnostics, or metrics.
    Log,
    /// Power consumption.
    Power,
    /// Electromagnetic emanations.
    Electromagnetic,
}

impl ObservationKind {
    /// The stable wire tag.
    pub open spec fn spec_tag(self) -> u8 {
        match self {
            ObservationKind::ExplicitOutput => 0u8,
            ObservationKind::ErrorClass => 1u8,
            ObservationKind::Termination => 2u8,
            ObservationKind::OutputLength => 3u8,
            ObservationKind::LogicalWork => 4u8,
            ObservationKind::AllocationClass => 5u8,
            ObservationKind::BranchClass => 6u8,
            ObservationKind::MemoryAccessClass => 7u8,
            ObservationKind::Scheduling => 8u8,
            ObservationKind::Storage => 9u8,
            ObservationKind::Microarchitecture => 10u8,
            ObservationKind::Network => 11u8,
            ObservationKind::Log => 12u8,
            ObservationKind::Power => 13u8,
            ObservationKind::Electromagnetic => 14u8,
        }
    }

    /// Returns the stable wire tag.
    pub fn tag(self) -> (tag: u8)
        ensures
            tag == self.spec_tag(),
    {
        match self {
            ObservationKind::ExplicitOutput => 0,
            ObservationKind::ErrorClass => 1,
            ObservationKind::Termination => 2,
            ObservationKind::OutputLength => 3,
            ObservationKind::LogicalWork => 4,
            ObservationKind::AllocationClass => 5,
            ObservationKind::BranchClass => 6,
            ObservationKind::MemoryAccessClass => 7,
            ObservationKind::Scheduling => 8,
            ObservationKind::Storage => 9,
            ObservationKind::Microarchitecture => 10,
            ObservationKind::Network => 11,
            ObservationKind::Log => 12,
            ObservationKind::Power => 13,
            ObservationKind::Electromagnetic => 14,
        }
    }

    /// Distinct values carry distinct tags.
    pub proof fn lemma_tag_injective(self, other: Self)
        requires
            self.spec_tag() == other.spec_tag(),
        ensures
            self == other,
    {
    }
}

/// Security classification of one observation channel.
#[derive(Clone, Copy, Debug, PartialEq, Eq, Structural, Hash, PartialOrd, Ord)]
pub enum ChannelClass {
    /// Intended, reviewed communication channel.
    Intended,
    /// Incidental side channel observed by an attacker.
    Side,
    /// Channel an untrusted component may actively modulate.
    Covert,
}

impl ChannelClass {
    /// The stable wire tag.
    pub open spec fn spec_tag(self) -> u8 {
        match self {
            ChannelClass::Intended => 0u8,
            ChannelClass::Side => 1u8,
            ChannelClass::Covert => 2u8,
        }
    }

    /// Returns the stable wire tag.
    pub fn tag(self) -> (tag: u8)
        ensures
            tag == self.spec_tag(),
    {
        match self {
            ChannelClass::Intended => 0,
            ChannelClass::Side => 1,
            ChannelClass::Covert => 2,
        }
    }

    /// Distinct values carry distinct tags.
    pub proof fn lemma_tag_injective(self, other: Self)
        requires
            self.spec_tag() == other.spec_tag(),
        ensures
            self == other,
    {
    }
}

/// Deployment mitigation required by a leakage policy.
#[derive(Clone, Copy, Debug, PartialEq, Eq, Structural, Hash, PartialOrd, Ord)]
pub enum Mitigation {
    /// Secret values do not influence control flow.
    ConstantTimeControlFlow,
    /// Secret values do not influence memory addresses.
    SecretIndependentMemoryAccess,
    /// Observer-visible output sizes are padded.
    FixedOutputSize,
    /// Logical work is padded or otherwise secret independent.
    FixedWork,
    /// Termination and error behavior is normalized.
    FixedTermination,
    /// Responses or events are rate limited.
    RateLimit,
    /// Queues are not shared across security domains.
    QueuePartition,
    /// Processor cores are dedicated or time partitioned.
    CorePartition,
    /// Cache/TLB resources are partitioned.
    CachePartition,
    /// Physical memory is partitioned.
    MemoryPartition,
    /// DMA is constrained by an IOMMU or equivalent.
    IommuIsolation,
    /// Microarchitectural state is reset at security-domain switches.
    FlushMicroarchitecture,
    /// Scheduling is deterministic with respect to secret state.
    DeterministicScheduling,
    /// Logs and diagnostics are redacted.
    LogRedaction,
    /// Core dumps and comparable memory snapshots are disabled.
    CoreDumpDisabled,
    /// Secret buffers are zeroized on release.
    SecretZeroization,
    /// Security domains do not share mutable state without a reviewed channel.
    NoSharedMutableState,
    /// Compiler output is translation validated or otherwise independently checked.
    VerifiedCompilation,
}

impl Mitigation {
    /// The stable wire tag.
    pub open spec fn spec_tag(self) -> u8 {
        match self {
            Mitigation::ConstantTimeControlFlow => 0u8,
            Mitigation::SecretIndependentMemoryAccess => 1u8,
            Mitigation::FixedOutputSize => 2u8,
            Mitigation::FixedWork => 3u8,
            Mitigation::FixedTermination => 4u8,
            Mitigation::RateLimit => 5u8,
            Mitigation::QueuePartition => 6u8,
            Mitigation::CorePartition => 7u8,
            Mitigation::CachePartition => 8u8,
            Mitigation::MemoryPartition => 9u8,
            Mitigation::IommuIsolation => 10u8,
            Mitigation::FlushMicroarchitecture => 11u8,
            Mitigation::DeterministicScheduling => 12u8,
            Mitigation::LogRedaction => 13u8,
            Mitigation::CoreDumpDisabled => 14u8,
            Mitigation::SecretZeroization => 15u8,
            Mitigation::NoSharedMutableState => 16u8,
            Mitigation::VerifiedCompilation => 17u8,
        }
    }

    /// Returns the stable wire tag.
    pub fn tag(self) -> (tag: u8)
        ensures
            tag == self.spec_tag(),
    {
        match self {
            Mitigation::ConstantTimeControlFlow => 0,
            Mitigation::SecretIndependentMemoryAccess => 1,
            Mitigation::FixedOutputSize => 2,
            Mitigation::FixedWork => 3,
            Mitigation::FixedTermination => 4,
            Mitigation::RateLimit => 5,
            Mitigation::QueuePartition => 6,
            Mitigation::CorePartition => 7,
            Mitigation::CachePartition => 8,
            Mitigation::MemoryPartition => 9,
            Mitigation::IommuIsolation => 10,
            Mitigation::FlushMicroarchitecture => 11,
            Mitigation::DeterministicScheduling => 12,
            Mitigation::LogRedaction => 13,
            Mitigation::CoreDumpDisabled => 14,
            Mitigation::SecretZeroization => 15,
            Mitigation::NoSharedMutableState => 16,
            Mitigation::VerifiedCompilation => 17,
        }
    }

    /// Distinct values carry distinct tags.
    pub proof fn lemma_tag_injective(self, other: Self)
        requires
            self.spec_tag() == other.spec_tag(),
        ensures
            self == other,
    {
    }
}

impl Keyed for Mitigation {
    open spec fn spec_key(&self) -> int {
        self.spec_tag() as int
    }

    fn key_lt(&self, other: &Self) -> bool {
        self.tag() < other.tag()
    }

    fn key_eq(&self, other: &Self) -> bool {
        self.tag() == other.tag()
    }
}

impl U64Keyed for Mitigation {
    fn key_u64(&self) -> u64 {
        self.tag() as u64
    }
}

impl KeyIdentifies for Mitigation {
    proof fn lemma_key_identifies(a: Self, b: Self) {
        a.lemma_tag_injective(b);
    }
}

impl Encodable for Mitigation {
    open spec fn spec_encoding(&self) -> Seq<u8> {
        seq![self.spec_tag()]
    }

    fn encode_to(&self, output: &mut Vec<u8>) {
        put_u8(output, self.tag());
        assert(output@ =~= old(output)@ + self.spec_encoding());
    }
}

/// Security evidence class required by a production policy.
#[derive(Clone, Copy, Debug, PartialEq, Eq, Structural, Hash, PartialOrd, Ord)]
pub enum SecurityEvidenceKind {
    /// Source-level information-flow or noninterference proof.
    NoninterferenceProof,
    /// Symbolic constant-time analysis of compiled code.
    ConstantTimeSymbolic,
    /// Dynamic branch/memory constant-time analysis.
    ConstantTimeDynamic,
    /// Statistical timing analysis.
    TimingStatistical,
    /// Cache/TLB/predictor channel experiment.
    MicroarchitecturalExperiment,
    /// Storage-channel and authority-graph analysis.
    StorageChannelAnalysis,
    /// Active covert-channel capacity experiment.
    CovertChannelCapacity,
    /// Compiler or binary translation validation.
    TranslationValidation,
    /// Deployment configuration audit.
    DeploymentAudit,
    /// Hardware/firmware measurement or attestation.
    HardwareAttestation,
}

impl SecurityEvidenceKind {
    /// The stable wire tag.
    pub open spec fn spec_tag(self) -> u8 {
        match self {
            SecurityEvidenceKind::NoninterferenceProof => 0u8,
            SecurityEvidenceKind::ConstantTimeSymbolic => 1u8,
            SecurityEvidenceKind::ConstantTimeDynamic => 2u8,
            SecurityEvidenceKind::TimingStatistical => 3u8,
            SecurityEvidenceKind::MicroarchitecturalExperiment => 4u8,
            SecurityEvidenceKind::StorageChannelAnalysis => 5u8,
            SecurityEvidenceKind::CovertChannelCapacity => 6u8,
            SecurityEvidenceKind::TranslationValidation => 7u8,
            SecurityEvidenceKind::DeploymentAudit => 8u8,
            SecurityEvidenceKind::HardwareAttestation => 9u8,
        }
    }

    /// Returns the stable wire tag.
    pub fn tag(self) -> (tag: u8)
        ensures
            tag == self.spec_tag(),
    {
        match self {
            SecurityEvidenceKind::NoninterferenceProof => 0,
            SecurityEvidenceKind::ConstantTimeSymbolic => 1,
            SecurityEvidenceKind::ConstantTimeDynamic => 2,
            SecurityEvidenceKind::TimingStatistical => 3,
            SecurityEvidenceKind::MicroarchitecturalExperiment => 4,
            SecurityEvidenceKind::StorageChannelAnalysis => 5,
            SecurityEvidenceKind::CovertChannelCapacity => 6,
            SecurityEvidenceKind::TranslationValidation => 7,
            SecurityEvidenceKind::DeploymentAudit => 8,
            SecurityEvidenceKind::HardwareAttestation => 9,
        }
    }

    /// Distinct values carry distinct tags.
    pub proof fn lemma_tag_injective(self, other: Self)
        requires
            self.spec_tag() == other.spec_tag(),
        ensures
            self == other,
    {
    }
}

impl Keyed for SecurityEvidenceKind {
    open spec fn spec_key(&self) -> int {
        self.spec_tag() as int
    }

    fn key_lt(&self, other: &Self) -> bool {
        self.tag() < other.tag()
    }

    fn key_eq(&self, other: &Self) -> bool {
        self.tag() == other.tag()
    }
}

impl U64Keyed for SecurityEvidenceKind {
    fn key_u64(&self) -> u64 {
        self.tag() as u64
    }
}

impl KeyIdentifies for SecurityEvidenceKind {
    proof fn lemma_key_identifies(a: Self, b: Self) {
        a.lemma_tag_injective(b);
    }
}

impl Encodable for SecurityEvidenceKind {
    open spec fn spec_encoding(&self) -> Seq<u8> {
        seq![self.spec_tag()]
    }

    fn encode_to(&self, output: &mut Vec<u8>) {
        put_u8(output, self.tag());
        assert(output@ =~= old(output)@ + self.spec_encoding());
    }
}

/// Information may flow from `source` to `target`: confidentiality does not
/// decrease, integrity does not increase, and every source compartment is a
/// target compartment.
pub open spec fn label_flows(source: SecurityLabel, target: SecurityLabel) -> bool {
    &&& source.spec_confidentiality() <= target.spec_confidentiality()
    &&& source.spec_integrity() >= target.spec_integrity()
    &&& forall|c: CompartmentId| source.spec_compartments().contains(c) ==> target.spec_compartments().contains(c)
}

/// Confidentiality/integrity label with canonical compartments.
///
/// Larger confidentiality values are more restrictive. Larger integrity values
/// are more trusted.
#[derive(Debug, PartialEq, Eq, Hash, PartialOrd, Ord)]
pub struct SecurityLabel {
    confidentiality: u16,
    integrity: u16,
    compartments: Vec<CompartmentId>,
}

impl SecurityLabel {
    /// Compartments are few and listed once each in identifier order.
    #[verifier::type_invariant]
    spec fn canonical(self) -> bool {
        self.compartments@.len() <= MAX_COMPARTMENTS && strictly_sorted_by_key(self.compartments@)
    }

    /// The confidentiality level.
    pub closed spec fn spec_confidentiality(self) -> u16 {
        self.confidentiality
    }

    /// The integrity level.
    pub closed spec fn spec_integrity(self) -> u16 {
        self.integrity
    }

    /// Compartments in canonical order.
    pub closed spec fn spec_compartments(self) -> Seq<CompartmentId> {
        self.compartments@
    }

    /// Creates a canonical information-flow label: compartments are sorted and
    /// repeated ones dropped.
    pub fn try_new(confidentiality: u16, integrity: u16, compartments: Vec<CompartmentId>) -> (label:
        Result<Self, SecurityError>)
        ensures
            compartments@.len() > MAX_COMPARTMENTS ==> label == Err::<Self, SecurityError>(
                SecurityError::TooManyCompartments,
            ),
            compartments@.len() <= MAX_COMPARTMENTS ==> (label matches Ok(l)
                && l.spec_confidentiality() == confidentiality && l.spec_integrity() == integrity
                && l.spec_compartments() == canonical_set(compartments@)),
    {
        if compartments.len() > MAX_COMPARTMENTS {
            return Err(SecurityError::TooManyCompartments);
        }
        let compartments = sort_dedup(compartments);
        Ok(SecurityLabel { confidentiality, integrity, compartments })
    }

    /// Returns the confidentiality level.
    pub fn confidentiality(&self) -> (level: u16)
        ensures
            level == self.spec_confidentiality(),
    {
        self.confidentiality
    }

    /// Returns the integrity level.
    pub fn integrity(&self) -> (level: u16)
        ensures
            level == self.spec_integrity(),
    {
        self.integrity
    }

    /// Returns compartments in canonical order.
    pub fn compartments(&self) -> (compartments: &[CompartmentId])
        ensures
            compartments@ == self.spec_compartments(),
            strictly_sorted_by_key(compartments@),
            compartments@.len() <= MAX_COMPARTMENTS,
    {
        proof {
            use_type_invariant(self);
        }
        self.compartments.as_slice()
    }

    /// Returns whether information with this label may flow to `target`.
    pub fn can_flow_to(&self, target: &Self) -> (flows: bool)
        ensures
            flows == label_flows(*self, *target),
    {
        proof {
            use_type_invariant(self);
            use_type_invariant(target);
        }
        if !(self.confidentiality <= target.confidentiality && self.integrity >= target.integrity) {
            return false;
        }
        let mut index: usize = 0;
        while index < self.compartments.len()
            invariant
                index <= self.compartments@.len(),
                strictly_sorted_by_key(target.compartments@),
                self.confidentiality <= target.confidentiality,
                self.integrity >= target.integrity,
                forall|i: int| 0 <= i < index ==> target.compartments@.contains(#[trigger] self.compartments@[i]),
            decreases self.compartments@.len() - index,
        {
            let compartment = self.compartments[index];
            match find_key(&target.compartments, compartment.get() as u64) {
                None => {
                    proof {
                        if target.compartments@.contains(compartment) {
                            let j = choose|j: int| 0 <= j < target.compartments@.len() && target.compartments@[j] == compartment;
                            assert(target.compartments@[j].spec_key() == compartment.spec_key());
                            assert(has_key(target.compartments@, compartment.spec_key()));
                        }
                        assert(!target.compartments@.contains(compartment));
                        assert(self.compartments@.contains(compartment));
                        assert(!label_flows(*self, *target)) by {
                            assert(self.spec_compartments().contains(compartment));
                            assert(!target.spec_compartments().contains(compartment));
                        }
                    }
                    return false;
                },
                Some(position) => {
                    proof {
                        target.compartments@[position as int].lemma_get_injective(compartment);
                        assert(target.compartments@.contains(compartment));
                    }
                },
            }
            index = index + 1;
        }
        proof {
            assert forall|c: CompartmentId| self.compartments@.contains(c) implies target.compartments@.contains(c) by {
                let i = choose|i: int| 0 <= i < self.compartments@.len() && self.compartments@[i] == c;
                assert(target.compartments@.contains(self.compartments@[i]));
            }
        }
        true
    }

    /// Canonical bytes: both levels, then the length-prefixed compartments.
    pub open spec fn spec_encoding(self) -> Seq<u8> {
        be16(self.spec_confidentiality()) + be16(self.spec_integrity()) + be16(
            self.spec_compartments().len() as u16,
        ) + encode_all(self.spec_compartments())
    }

    /// Appends the canonical bytes of the label.
    pub fn encode_to(&self, output: &mut Vec<u8>)
        ensures
            final(output)@ == old(output)@ + self.spec_encoding(),
    {
        put_u16(output, self.confidentiality);
        put_u16(output, self.integrity);
        put_u16(output, self.compartments.len() as u16);
        encode_each(self.compartments.as_slice(), output);
        assert(output@ =~= old(output)@ + self.spec_encoding());
    }

    /// Compares two labels.
    pub fn same_as(&self, other: &Self) -> (same: bool)
        ensures
            same == (self.spec_confidentiality() == other.spec_confidentiality()
                && self.spec_integrity() == other.spec_integrity() && self.spec_compartments()
                == other.spec_compartments()),
    {
        if self.confidentiality != other.confidentiality || self.integrity != other.integrity
            || self.compartments.len() != other.compartments.len() {
            return false;
        }
        let mut index: usize = 0;
        while index < self.compartments.len()
            invariant
                index <= self.compartments@.len(),
                self.compartments@.len() == other.compartments@.len(),
                forall|i: int| 0 <= i < index ==> self.compartments@[i] == other.compartments@[i],
            decreases self.compartments@.len() - index,
        {
            if self.compartments[index] != other.compartments[index] {
                return false;
            }
            index = index + 1;
        }
        assert(self.compartments@ =~= other.compartments@);
        true
    }
}

impl Clone for SecurityLabel {
    fn clone(&self) -> (copy: Self)
        ensures
            copy.spec_confidentiality() == self.spec_confidentiality(),
            copy.spec_integrity() == self.spec_integrity(),
            copy.spec_compartments() == self.spec_compartments(),
    {
        proof {
            use_type_invariant(self);
        }
        let mut compartments: Vec<CompartmentId> = Vec::new();
        let mut index: usize = 0;
        while index < self.compartments.len()
            invariant
                index <= self.compartments@.len(),
                compartments@ == self.compartments@.subrange(0, index as int),
            decreases self.compartments@.len() - index,
        {
            compartments.push(self.compartments[index]);
            index = index + 1;
            assert(compartments@ =~= self.compartments@.subrange(0, index as int));
        }
        assert(compartments@ =~= self.compartments@);
        SecurityLabel { confidentiality: self.confidentiality, integrity: self.integrity, compartments }
    }
}

/// Two labels admitted with the same levels from compartment lists with the
/// same members, in any order and with any repetition, are the same label:
/// equal compartments and equal canonical bytes.
pub proof fn lemma_security_label_reordered(
    a: SecurityLabel,
    b: SecurityLabel,
    compartments: Seq<CompartmentId>,
    reordered: Seq<CompartmentId>,
)
    requires
        same_members(compartments, reordered),
        a.spec_compartments() == canonical_set(compartments),
        b.spec_compartments() == canonical_set(reordered),
        a.spec_confidentiality() == b.spec_confidentiality(),
        a.spec_integrity() == b.spec_integrity(),
    ensures
        a.spec_compartments() == b.spec_compartments(),
        a.spec_encoding() == b.spec_encoding(),
{
    crate::sort::lemma_canonical_set_members(compartments, reordered);
}

/// Every label may flow to itself.
pub proof fn lemma_label_flow_reflexive(label: SecurityLabel)
    ensures
        label_flows(label, label),
{
}

/// Flow composes: what may flow to a middle label and on to a target may flow
/// directly to the target.
pub proof fn lemma_label_flow_transitive(a: SecurityLabel, b: SecurityLabel, c: SecurityLabel)
    requires
        label_flows(a, b),
        label_flows(b, c),
    ensures
        label_flows(a, c),
{
}

/// Canonical labels that flow both ways carry the same levels and compartments.
pub proof fn lemma_label_flow_antisymmetric(a: SecurityLabel, b: SecurityLabel)
    requires
        strictly_sorted_by_key(a.spec_compartments()),
        strictly_sorted_by_key(b.spec_compartments()),
        label_flows(a, b),
        label_flows(b, a),
    ensures
        a.spec_confidentiality() == b.spec_confidentiality(),
        a.spec_integrity() == b.spec_integrity(),
        a.spec_compartments() == b.spec_compartments(),
{
    crate::sort::lemma_strictly_sorted_members_unique(a.spec_compartments(), b.spec_compartments());
}

/// Observer clearance used by the information-flow check.
#[derive(Debug, PartialEq, Eq)]
pub struct ObserverClearance {
    observer: SecurityDomainId,
    clearance: SecurityLabel,
}

impl ObserverClearance {
    /// The observer.
    pub closed spec fn spec_observer(self) -> SecurityDomainId {
        self.observer
    }

    /// The clearance label.
    pub closed spec fn spec_clearance(self) -> SecurityLabel {
        self.clearance
    }

    /// Creates one observer clearance.
    pub fn new(observer: SecurityDomainId, clearance: SecurityLabel) -> (entry: Self)
        ensures
            entry.spec_observer() == observer,
            entry.spec_clearance() == clearance,
    {
        ObserverClearance { observer, clearance }
    }

    /// Returns the observer.
    pub fn observer(&self) -> (observer: SecurityDomainId)
        ensures
            observer == self.spec_observer(),
    {
        self.observer
    }

    /// Returns the clearance label.
    pub fn clearance(&self) -> (clearance: &SecurityLabel)
        ensures
            *clearance == self.spec_clearance(),
    {
        &self.clearance
    }

    /// Canonical bytes: the observer, then the length-prefixed clearance label.
    pub open spec fn spec_encoding(self) -> Seq<u8> {
        be32(self.spec_observer().spec_get()) + blob(self.spec_clearance().spec_encoding())
    }
}

impl Clone for ObserverClearance {
    fn clone(&self) -> (copy: Self)
        ensures
            copy.spec_observer() == self.spec_observer(),
            copy.spec_clearance().spec_confidentiality() == self.spec_clearance().spec_confidentiality(),
            copy.spec_clearance().spec_integrity() == self.spec_clearance().spec_integrity(),
            copy.spec_clearance().spec_compartments() == self.spec_clearance().spec_compartments(),
    {
        ObserverClearance { observer: self.observer, clearance: self.clearance.clone() }
    }
}

impl Keyed for ObserverClearance {
    open spec fn spec_key(&self) -> int {
        self.spec_observer().spec_get() as int
    }

    fn key_lt(&self, other: &Self) -> bool {
        self.observer.get() < other.observer.get()
    }

    fn key_eq(&self, other: &Self) -> bool {
        self.observer.get() == other.observer.get()
    }
}

impl U64Keyed for ObserverClearance {
    fn key_u64(&self) -> u64 {
        self.observer.get() as u64
    }
}

impl Encodable for ObserverClearance {
    open spec fn spec_encoding(&self) -> Seq<u8> {
        blob(ObserverClearance::spec_encoding(*self))
    }

    fn encode_to(&self, output: &mut Vec<u8>) {
        let mut bytes: Vec<u8> = Vec::new();
        put_u32(&mut bytes, self.observer.get());
        let mut label: Vec<u8> = Vec::new();
        self.clearance.encode_to(&mut label);
        assert(label@ =~= self.clearance.spec_encoding());
        put_blob(&mut bytes, &label);
        assert(bytes@ =~= ObserverClearance::spec_encoding(*self));
        put_blob(output, &bytes);
    }
}

/// A 32-bit length followed by the bytes.
pub open spec fn blob(bytes: Seq<u8>) -> Seq<u8> {
    be32(bytes.len() as u32) + bytes
}

fn put_blob(output: &mut Vec<u8>, bytes: &Vec<u8>)
    ensures
        final(output)@ == old(output)@ + blob(bytes@),
{
    put_u32(output, bytes.len() as u32);
    put_bytes(output, bytes.as_slice());
    assert(output@ =~= old(output)@ + blob(bytes@));
}

/// Explicit authority for a bounded information release.
#[derive(Clone, Copy, Debug, PartialEq, Eq)]
pub struct Declassification {
    authority_hash: Hash32,
    purpose_hash: Hash32,
    max_bits: u32,
}

impl Declassification {
    /// The declassification-authority commitment.
    pub closed spec fn spec_authority_hash(self) -> Hash32 {
        self.authority_hash
    }

    /// The reviewed purpose commitment.
    pub closed spec fn spec_purpose_hash(self) -> Hash32 {
        self.purpose_hash
    }

    /// The maximum authorized released bits.
    pub closed spec fn spec_max_bits(self) -> u32 {
        self.max_bits
    }

    /// The release with exactly these parts.
    pub closed spec fn spec_new(authority_hash: Hash32, purpose_hash: Hash32, max_bits: u32) -> Self {
        Declassification { authority_hash, purpose_hash, max_bits }
    }

    /// Creates an explicit bounded declassification.
    pub fn try_new(authority_hash: Hash32, purpose_hash: Hash32, max_bits: u32) -> (release: Result<
        Self,
        SecurityError,
    >)
        ensures
            authority_hash.spec_is_zero() || purpose_hash.spec_is_zero() ==> release
                == Err::<Self, SecurityError>(SecurityError::ZeroHash),
            !(authority_hash.spec_is_zero() || purpose_hash.spec_is_zero()) && max_bits == 0
                ==> release == Err::<Self, SecurityError>(SecurityError::ZeroDeclassificationBudget),
            !(authority_hash.spec_is_zero() || purpose_hash.spec_is_zero()) && max_bits != 0
                ==> release == Ok::<Self, SecurityError>(Self::spec_new(authority_hash, purpose_hash, max_bits)),
    {
        if authority_hash.is_zero() || purpose_hash.is_zero() {
            return Err(SecurityError::ZeroHash);
        }
        if max_bits == 0 {
            return Err(SecurityError::ZeroDeclassificationBudget);
        }
        Ok(Declassification { authority_hash, purpose_hash, max_bits })
    }

    /// Returns the declassification-authority commitment.
    pub fn authority_hash(self) -> (hash: Hash32)
        ensures
            hash == self.spec_authority_hash(),
    {
        self.authority_hash
    }

    /// Returns the reviewed purpose commitment.
    pub fn purpose_hash(self) -> (hash: Hash32)
        ensures
            hash == self.spec_purpose_hash(),
    {
        self.purpose_hash
    }

    /// Returns the maximum authorized released bits.
    pub fn max_bits(self) -> (bits: u32)
        ensures
            bits == self.spec_max_bits(),
    {
        self.max_bits
    }

    /// Compares two releases.
    pub fn same_as(&self, other: &Self) -> (same: bool)
        ensures
            same == (self.spec_authority_hash().spec_bytes() == other.spec_authority_hash().spec_bytes()
                && self.spec_purpose_hash().spec_bytes() == other.spec_purpose_hash().spec_bytes()
                && self.spec_max_bits() == other.spec_max_bits()),
    {
        self.authority_hash == other.authority_hash && self.purpose_hash == other.purpose_hash
            && self.max_bits == other.max_bits
    }

    /// Canonical bytes: both commitments, then the bit bound.
    pub open spec fn spec_encoding(self) -> Seq<u8> {
        self.spec_authority_hash().spec_bytes() + self.spec_purpose_hash().spec_bytes() + be32(
            self.spec_max_bits(),
        )
    }

    fn encode_to(&self, output: &mut Vec<u8>)
        ensures
            final(output)@ == old(output)@ + self.spec_encoding(),
    {
        put_bytes(output, self.authority_hash.as_bytes());
        put_bytes(output, self.purpose_hash.as_bytes());
        put_u32(output, self.max_bits);
        assert(output@ =~= old(output)@ + self.spec_encoding());
    }
}

/// One normalized observer-visible event.
#[derive(Clone, Debug, PartialEq, Eq)]
pub struct Observation {
    observer: SecurityDomainId,
    kind: ObservationKind,
    channel: ChannelClass,
    label: SecurityLabel,
    value_hash: Hash32,
    quantity: u64,
    leakage_bits_upper_bound: u32,
    declassification: Option<Declassification>,
}

impl Observation {
    /// The observer.
    pub closed spec fn spec_observer(self) -> SecurityDomainId {
        self.observer
    }

    /// The observation kind.
    pub closed spec fn spec_kind(self) -> ObservationKind {
        self.kind
    }

    /// The channel classification.
    pub closed spec fn spec_channel(self) -> ChannelClass {
        self.channel
    }

    /// The information label.
    pub closed spec fn spec_label(self) -> SecurityLabel {
        self.label
    }

    /// The observed-value commitment.
    pub closed spec fn spec_value_hash(self) -> Hash32 {
        self.value_hash
    }

    /// The channel-specific public quantity.
    pub closed spec fn spec_quantity(self) -> u64 {
        self.quantity
    }

    /// The claimed upper bound on released bits.
    pub closed spec fn spec_leakage_bits_upper_bound(self) -> u32 {
        self.leakage_bits_upper_bound
    }

    /// The explicit declassification, when present.
    pub closed spec fn spec_declassification(self) -> Option<Declassification> {
        self.declassification
    }

    /// Creates a bounded observation.
    pub fn try_new(
        observer: SecurityDomainId,
        kind: ObservationKind,
        channel: ChannelClass,
        label: SecurityLabel,
        value_hash: Hash32,
        quantity: u64,
        leakage_bits_upper_bound: u32,
        declassification: Option<Declassification>,
    ) -> (observation: Result<Self, SecurityError>)
        ensures
            observation is Ok <==> !value_hash.spec_is_zero(),
            observation matches Err(e) ==> e == SecurityError::ZeroHash,
            observation matches Ok(o) ==> o.spec_observer() == observer && o.spec_kind() == kind
                && o.spec_channel() == channel && o.spec_label() == label && o.spec_value_hash()
                == value_hash && o.spec_quantity() == quantity && o.spec_leakage_bits_upper_bound()
                == leakage_bits_upper_bound && o.spec_declassification() == declassification,
    {
        if value_hash.is_zero() {
            return Err(SecurityError::ZeroHash);
        }
        Ok(Observation {
            observer,
            kind,
            channel,
            label,
            value_hash,
            quantity,
            leakage_bits_upper_bound,
            declassification,
        })
    }

    /// Returns the observer.
    pub fn observer(&self) -> (observer: SecurityDomainId)
        ensures
            observer == self.spec_observer(),
    {
        self.observer
    }

    /// Returns the observation kind.
    pub fn kind(&self) -> (kind: ObservationKind)
        ensures
            kind == self.spec_kind(),
    {
        self.kind
    }

    /// Returns the channel classification.
    pub fn channel(&self) -> (channel: ChannelClass)
        ensures
            channel == self.spec_channel(),
    {
        self.channel
    }

    /// Returns the information label.
    pub fn label(&self) -> (label: &SecurityLabel)
        ensures
            *label == self.spec_label(),
    {
        &self.label
    }

    /// Returns the observed-value commitment.
    pub fn value_hash(&self) -> (hash: Hash32)
        ensures
            hash == self.spec_value_hash(),
    {
        self.value_hash
    }

    /// Returns the channel-specific public quantity.
    pub fn quantity(&self) -> (quantity: u64)
        ensures
            quantity == self.spec_quantity(),
    {
        self.quantity
    }

    /// Returns the claimed upper bound on released bits.
    pub fn leakage_bits_upper_bound(&self) -> (bits: u32)
        ensures
            bits == self.spec_leakage_bits_upper_bound(),
    {
        self.leakage_bits_upper_bound
    }

    /// Returns explicit declassification, when present.
    pub fn declassification(&self) -> (release: Option<Declassification>)
        ensures
            release == self.spec_declassification(),
    {
        self.declassification
    }

    /// Canonical bytes of the observation.
    pub open spec fn spec_encoding(self) -> Seq<u8> {
        be32(self.spec_observer().spec_get()) + seq![self.spec_kind().spec_tag()] + seq![
            self.spec_channel().spec_tag(),
        ] + blob(self.spec_label().spec_encoding()) + self.spec_value_hash().spec_bytes() + be64(
            self.spec_quantity(),
        ) + be32(self.spec_leakage_bits_upper_bound()) + match self.spec_declassification() {
            None => seq![0u8],
            Some(release) => seq![1u8] + release.spec_encoding(),
        }
    }
}

impl Encodable for Observation {
    open spec fn spec_encoding(&self) -> Seq<u8> {
        blob(Observation::spec_encoding(*self))
    }

    fn encode_to(&self, output: &mut Vec<u8>) {
        let mut bytes: Vec<u8> = Vec::new();
        put_u32(&mut bytes, self.observer.get());
        put_u8(&mut bytes, self.kind.tag());
        put_u8(&mut bytes, self.channel.tag());
        let mut label: Vec<u8> = Vec::new();
        self.label.encode_to(&mut label);
        assert(label@ =~= self.label.spec_encoding());
        put_blob(&mut bytes, &label);
        put_bytes(&mut bytes, self.value_hash.as_bytes());
        put_u64(&mut bytes, self.quantity);
        put_u32(&mut bytes, self.leakage_bits_upper_bound);
        match self.declassification {
            None => put_u8(&mut bytes, 0),
            Some(release) => {
                put_u8(&mut bytes, 1);
                release.encode_to(&mut bytes);
            },
        }
        assert(bytes@ =~= Observation::spec_encoding(*self));
        put_blob(output, &bytes);
    }
}

/// The magic prefix of canonical trace bytes.
pub open spec fn trace_magic() -> Seq<u8> {
    seq![
        90u8, 70u8, 67u8, 73u8, 83u8, 45u8, 83u8, 69u8, 67u8, 85u8, 82u8, 73u8, 84u8, 89u8, 45u8,
        84u8, 82u8, 65u8, 67u8, 69u8, 0u8,
    ]
}

/// Closed observation trace for one secret variant and one public input.
#[derive(Debug, PartialEq, Eq)]
pub struct ObservationTrace {
    public_input_hash: Hash32,
    secret_variant_hash: Hash32,
    observations: Vec<Observation>,
}

impl ObservationTrace {
    /// A trace holds a bounded number of observations.
    #[verifier::type_invariant]
    spec fn bounded(self) -> bool {
        self.observations@.len() <= MAX_OBSERVATIONS
    }

    /// The public-input commitment.
    pub closed spec fn spec_public_input_hash(self) -> Hash32 {
        self.public_input_hash
    }

    /// The secret-variant commitment.
    pub closed spec fn spec_secret_variant_hash(self) -> Hash32 {
        self.secret_variant_hash
    }

    /// Observations in semantic order.
    pub closed spec fn spec_observations(self) -> Seq<Observation> {
        self.observations@
    }

    /// Creates a bounded trace; observation order remains semantic.
    pub fn try_new(public_input_hash: Hash32, secret_variant_hash: Hash32, observations: Vec<Observation>) -> (trace:
        Result<Self, SecurityError>)
        ensures
            public_input_hash.spec_is_zero() || secret_variant_hash.spec_is_zero() ==> trace
                == Err::<Self, SecurityError>(SecurityError::ZeroHash),
            !(public_input_hash.spec_is_zero() || secret_variant_hash.spec_is_zero())
                && observations@.len() > MAX_OBSERVATIONS ==> trace == Err::<Self, SecurityError>(
                SecurityError::TooManyObservations,
            ),
            !(public_input_hash.spec_is_zero() || secret_variant_hash.spec_is_zero())
                && observations@.len() <= MAX_OBSERVATIONS ==> (trace matches Ok(t)
                && t.spec_public_input_hash() == public_input_hash && t.spec_secret_variant_hash()
                == secret_variant_hash && t.spec_observations() == observations@),
    {
        if public_input_hash.is_zero() || secret_variant_hash.is_zero() {
            return Err(SecurityError::ZeroHash);
        }
        if observations.len() > MAX_OBSERVATIONS {
            return Err(SecurityError::TooManyObservations);
        }
        Ok(ObservationTrace { public_input_hash, secret_variant_hash, observations })
    }

    /// Returns the public-input commitment.
    pub fn public_input_hash(&self) -> (hash: Hash32)
        ensures
            hash == self.spec_public_input_hash(),
    {
        self.public_input_hash
    }

    /// Returns the secret-variant commitment.
    pub fn secret_variant_hash(&self) -> (hash: Hash32)
        ensures
            hash == self.spec_secret_variant_hash(),
    {
        self.secret_variant_hash
    }

    /// Returns observations in semantic order.
    pub fn observations(&self) -> (observations: &[Observation])
        ensures
            observations@ == self.spec_observations(),
            observations@.len() <= MAX_OBSERVATIONS,
    {
        proof {
            use_type_invariant(self);
        }
        self.observations.as_slice()
    }

    /// Canonical bytes: magic, both commitments, then the length-prefixed observations.
    pub open spec fn spec_encoding(self) -> Seq<u8> {
        trace_magic() + self.spec_public_input_hash().spec_bytes()
            + self.spec_secret_variant_hash().spec_bytes() + be32(
            self.spec_observations().len() as u32,
        ) + encode_all(self.spec_observations())
    }

    /// Canonical bytes of the trace.
    pub fn canonical_bytes(&self) -> (bytes: Result<Vec<u8>, SecurityError>)
        ensures
            bytes matches Ok(b) && b@ == self.spec_encoding(),
    {
        let mut output: Vec<u8> = vec![
            90u8, 70u8, 67u8, 73u8, 83u8, 45u8, 83u8, 69u8, 67u8, 85u8, 82u8, 73u8, 84u8, 89u8,
            45u8, 84u8, 82u8, 65u8, 67u8, 69u8, 0u8,
        ];
        assert(output@ =~= trace_magic());
        put_bytes(&mut output, self.public_input_hash.as_bytes());
        put_bytes(&mut output, self.secret_variant_hash.as_bytes());
        put_u32(&mut output, self.observations.len() as u32);
        encode_each(self.observations.as_slice(), &mut output);
        assert(output@ =~= self.spec_encoding());
        Ok(output)
    }

    /// The bytes the trace commitment hashes.
    pub fn commitment_bytes(&self) -> (bytes: Vec<u8>)
        ensures
            bytes@ == commitment_preimage(security_domain(SecurityDomainLabel::Trace), 1, self.spec_encoding()),
    {
        let encoded = match self.canonical_bytes() {
            Ok(bytes) => bytes,
            Err(_) => Vec::new(),
        };
        let label = security_domain_label(SecurityDomainLabel::Trace);
        frame_commitment(label.as_slice(), 1, encoded.as_slice())
    }

    /// Computes the trace commitment: the hash of exactly the bytes that
    /// `commitment_bytes` returns.
    pub fn commitment<H: CommitmentHasher>(&self) -> (hash: Result<Hash32, SecurityError>)
        ensures
            hash == Ok::<Hash32, SecurityError>(H::spec_hash(commitment_preimage(security_domain(SecurityDomainLabel::Trace), 1, self.spec_encoding()))),
    {
        let bytes = self.commitment_bytes();
        Ok(H::hash(bytes.as_slice()))
    }
}

/// The commitment domains of security artifacts.
#[derive(Clone, Copy, Debug, PartialEq, Eq, Structural)]
pub enum SecurityDomainLabel {
    /// Observation traces.
    Trace,
    /// Deployment contracts.
    Deployment,
    /// Leakage policies.
    Policy,
}

/// The bytes of a security commitment domain label.
pub open spec fn security_domain(which: SecurityDomainLabel) -> Seq<u8> {
    let prefix = seq![
        122u8, 101u8, 110u8, 111u8, 45u8, 102u8, 99u8, 105u8, 115u8, 47u8, 115u8, 101u8, 99u8,
        117u8, 114u8, 105u8, 116u8, 121u8, 45u8,
    ];
    match which {
        SecurityDomainLabel::Trace => prefix + seq![116u8, 114u8, 97u8, 99u8, 101u8],
        SecurityDomainLabel::Deployment => prefix + seq![
            100u8, 101u8, 112u8, 108u8, 111u8, 121u8, 109u8, 101u8, 110u8, 116u8,
        ],
        SecurityDomainLabel::Policy => prefix + seq![112u8, 111u8, 108u8, 105u8, 99u8, 121u8],
    }
}

fn security_domain_label(which: SecurityDomainLabel) -> (label: Vec<u8>)
    ensures
        label@ == security_domain(which),
{
    let mut label: Vec<u8> = vec![
        122u8, 101u8, 110u8, 111u8, 45u8, 102u8, 99u8, 105u8, 115u8, 47u8, 115u8, 101u8, 99u8,
        117u8, 114u8, 105u8, 116u8, 121u8, 45u8,
    ];
    let suffix: Vec<u8> = match which {
        SecurityDomainLabel::Trace => vec![116u8, 114u8, 97u8, 99u8, 101u8],
        SecurityDomainLabel::Deployment => vec![
            100u8, 101u8, 112u8, 108u8, 111u8, 121u8, 109u8, 101u8, 110u8, 116u8,
        ],
        SecurityDomainLabel::Policy => vec![112u8, 111u8, 108u8, 105u8, 99u8, 121u8],
    };
    put_bytes(&mut label, suffix.as_slice());
    assert(label@ =~= security_domain(which));
    label
}

/// The ordering key of an observer, observation kind and channel class.
pub open spec fn observation_key(observer: SecurityDomainId, kind: ObservationKind, channel: ChannelClass) -> int {
    observer.spec_get() as int * 65536 + kind.spec_tag() as int * 256 + channel.spec_tag() as int
}

/// Equal observation keys name the same observer, kind and channel.
pub proof fn lemma_observation_key_injective(
    observer: SecurityDomainId,
    kind: ObservationKind,
    channel: ChannelClass,
    other_observer: SecurityDomainId,
    other_kind: ObservationKind,
    other_channel: ChannelClass,
)
    requires
        observation_key(observer, kind, channel) == observation_key(other_observer, other_kind, other_channel),
    ensures
        observer == other_observer,
        kind == other_kind,
        channel == other_channel,
{
    assert(kind.spec_tag() < 15 && other_kind.spec_tag() < 15);
    assert(channel.spec_tag() < 3 && other_channel.spec_tag() < 3);
    observer.lemma_get_injective(other_observer);
    kind.lemma_tag_injective(other_kind);
    channel.lemma_tag_injective(other_channel);
}

fn observation_key_of(observer: SecurityDomainId, kind: ObservationKind, channel: ChannelClass) -> (key: u64)
    ensures
        key == observation_key(observer, kind, channel),
{
    observer.get() as u64 * 65536 + kind.tag() as u64 * 256 + channel.tag() as u64
}

/// Admitted relation between two traces for one observation class.
#[derive(Clone, Copy, Debug, PartialEq, Eq)]
pub enum RuleMode {
    /// This observation must not occur.
    Prohibit,
    /// Value, quantity, shape, and declassification absence must be identical.
    Exact,
    /// Value and shape must be identical; quantity may differ by a public bound.
    BoundedQuantity {
        /// Maximum absolute quantity difference.
        max_delta: u64,
    },
    /// Value differences are permitted only under this exact declassification.
    Declassified {
        /// Required release authority.
        authority_hash: Hash32,
        /// Required release purpose.
        purpose_hash: Hash32,
        /// Maximum bits released by one observation.
        max_bits: u32,
    },
}

impl RuleMode {
    /// Canonical bytes: a mode tag, then its parameters.
    pub open spec fn spec_encoding(self) -> Seq<u8> {
        match self {
            RuleMode::Prohibit => seq![0u8],
            RuleMode::Exact => seq![1u8],
            RuleMode::BoundedQuantity { max_delta } => seq![2u8] + be64(max_delta),
            RuleMode::Declassified { authority_hash, purpose_hash, max_bits } => seq![3u8]
                + authority_hash.spec_bytes() + purpose_hash.spec_bytes() + be32(max_bits),
        }
    }

    fn encode_to(&self, output: &mut Vec<u8>)
        ensures
            final(output)@ == old(output)@ + self.spec_encoding(),
    {
        match self {
            RuleMode::Prohibit => put_u8(output, 0),
            RuleMode::Exact => put_u8(output, 1),
            RuleMode::BoundedQuantity { max_delta } => {
                put_u8(output, 2);
                put_u64(output, *max_delta);
            },
            RuleMode::Declassified { authority_hash, purpose_hash, max_bits } => {
                put_u8(output, 3);
                put_bytes(output, authority_hash.as_bytes());
                put_bytes(output, purpose_hash.as_bytes());
                put_u32(output, *max_bits);
            },
        }
        assert(output@ =~= old(output)@ + self.spec_encoding());
    }
}

/// Why a rule mode is refused, if it is: a declassification needs nonzero
/// commitments and a nonzero bit budget.
pub open spec fn rule_mode_error(mode: RuleMode) -> Option<SecurityError> {
    match mode {
        RuleMode::Declassified { authority_hash, purpose_hash, max_bits } => if authority_hash.spec_is_zero()
            || purpose_hash.spec_is_zero() {
            Some(SecurityError::ZeroHash)
        } else if max_bits == 0 {
            Some(SecurityError::ZeroDeclassificationBudget)
        } else {
            None
        },
        _ => None,
    }
}

/// One observer/channel leakage rule.
#[derive(Clone, Copy, Debug, PartialEq, Eq)]
pub struct LeakageRule {
    observer: SecurityDomainId,
    kind: ObservationKind,
    channel: ChannelClass,
    mode: RuleMode,
}

impl LeakageRule {
    /// The observer.
    pub closed spec fn spec_observer(self) -> SecurityDomainId {
        self.observer
    }

    /// The observation kind.
    pub closed spec fn spec_kind(self) -> ObservationKind {
        self.kind
    }

    /// The channel classification.
    pub closed spec fn spec_channel(self) -> ChannelClass {
        self.channel
    }

    /// The admitted relation.
    pub closed spec fn spec_mode(self) -> RuleMode {
        self.mode
    }

    /// Creates a leakage rule.
    pub fn try_new(observer: SecurityDomainId, kind: ObservationKind, channel: ChannelClass, mode: RuleMode) -> (rule:
        Result<Self, SecurityError>)
        ensures
            match rule_mode_error(mode) {
                Some(e) => rule == Err::<Self, SecurityError>(e),
                None => rule matches Ok(r) && r.spec_observer() == observer && r.spec_kind() == kind
                    && r.spec_channel() == channel && r.spec_mode() == mode,
            },
    {
        match mode {
            RuleMode::Declassified { authority_hash, purpose_hash, max_bits } => {
                if authority_hash.is_zero() || purpose_hash.is_zero() {
                    return Err(SecurityError::ZeroHash);
                }
                if max_bits == 0 {
                    return Err(SecurityError::ZeroDeclassificationBudget);
                }
            },
            _ => {},
        }
        Ok(LeakageRule { observer, kind, channel, mode })
    }

    /// Returns the observer.
    pub fn observer(self) -> (observer: SecurityDomainId)
        ensures
            observer == self.spec_observer(),
    {
        self.observer
    }

    /// Returns the observation kind.
    pub fn kind(self) -> (kind: ObservationKind)
        ensures
            kind == self.spec_kind(),
    {
        self.kind
    }

    /// Returns the channel classification.
    pub fn channel(self) -> (channel: ChannelClass)
        ensures
            channel == self.spec_channel(),
    {
        self.channel
    }

    /// Returns the admitted relation.
    pub fn mode(self) -> (mode: RuleMode)
        ensures
            mode == self.spec_mode(),
    {
        self.mode
    }
}

impl Keyed for LeakageRule {
    open spec fn spec_key(&self) -> int {
        observation_key(self.spec_observer(), self.spec_kind(), self.spec_channel())
    }

    fn key_lt(&self, other: &Self) -> bool {
        self.key_u64() < other.key_u64()
    }

    fn key_eq(&self, other: &Self) -> bool {
        self.key_u64() == other.key_u64()
    }
}

impl U64Keyed for LeakageRule {
    fn key_u64(&self) -> u64 {
        observation_key_of(self.observer, self.kind, self.channel)
    }
}

impl Encodable for LeakageRule {
    open spec fn spec_encoding(&self) -> Seq<u8> {
        blob(
            be32(self.spec_observer().spec_get()) + seq![self.spec_kind().spec_tag()] + seq![
                self.spec_channel().spec_tag(),
            ] + self.spec_mode().spec_encoding(),
        )
    }

    fn encode_to(&self, output: &mut Vec<u8>) {
        let mut bytes: Vec<u8> = Vec::new();
        put_u32(&mut bytes, self.observer.get());
        put_u8(&mut bytes, self.kind.tag());
        put_u8(&mut bytes, self.channel.tag());
        self.mode.encode_to(&mut bytes);
        assert(bytes@ =~= be32(self.spec_observer().spec_get()) + seq![self.spec_kind().spec_tag()] + seq![
            self.spec_channel().spec_tag(),
        ] + self.spec_mode().spec_encoding());
        put_blob(output, &bytes);
    }
}

/// The magic prefix of canonical deployment-contract bytes.
pub open spec fn deployment_magic() -> Seq<u8> {
    seq![90u8, 70u8, 67u8, 73u8, 83u8, 45u8, 83u8, 69u8, 67u8, 85u8, 82u8, 73u8, 84u8, 89u8, 45u8, 68u8, 69u8, 80u8, 76u8, 79u8, 89u8, 77u8, 69u8, 78u8, 84u8, 0u8]
}

/// Exact deployed target and its claimed mitigations.
#[derive(Debug, PartialEq, Eq)]
pub struct DeploymentContract {
    target_hash: Hash32,
    hardware_hash: Hash32,
    operating_system_hash: Hash32,
    compiler_hash: Hash32,
    topology_hash: Hash32,
    scheduler_hash: Hash32,
    mitigations: Vec<Mitigation>,
}

impl DeploymentContract {
    /// Mitigations are listed once each in canonical order.
    #[verifier::type_invariant]
    spec fn well_formed(self) -> bool {
        self.mitigations@.len() <= MAX_MITIGATIONS && strictly_sorted_by_key(self.mitigations@)
    }

    /// The six deployment commitments in declaration order.
    pub closed spec fn spec_hashes(self) -> Seq<Hash32> {
        seq![
            self.target_hash,
            self.hardware_hash,
            self.operating_system_hash,
            self.compiler_hash,
            self.topology_hash,
            self.scheduler_hash,
        ]
    }

    /// Declared mitigations in canonical order.
    pub closed spec fn spec_mitigations(self) -> Seq<Mitigation> {
        self.mitigations@
    }

    /// Creates a content-bound deployment contract.
    pub fn try_new(
        target_hash: Hash32,
        hardware_hash: Hash32,
        operating_system_hash: Hash32,
        compiler_hash: Hash32,
        topology_hash: Hash32,
        scheduler_hash: Hash32,
        mitigations: Vec<Mitigation>,
    ) -> (contract: Result<Self, SecurityError>)
        ensures
            ({
                let hashes = seq![
                    target_hash,
                    hardware_hash,
                    operating_system_hash,
                    compiler_hash,
                    topology_hash,
                    scheduler_hash,
                ];
                if exists|i: int| 0 <= i < 6 && #[trigger] hashes[i].spec_is_zero() {
                    contract == Err::<Self, SecurityError>(SecurityError::ZeroHash)
                } else if mitigations@.len() > MAX_MITIGATIONS {
                    contract == Err::<Self, SecurityError>(SecurityError::TooManyMitigations)
                } else {
                    contract matches Ok(c) && c.spec_hashes() == hashes && c.spec_mitigations()
                        == canonical_set(mitigations@)
                }
            }),
    {
        let ghost hashes = seq![
            target_hash,
            hardware_hash,
            operating_system_hash,
            compiler_hash,
            topology_hash,
            scheduler_hash,
        ];
        if target_hash.is_zero() || hardware_hash.is_zero() || operating_system_hash.is_zero()
            || compiler_hash.is_zero() || topology_hash.is_zero() || scheduler_hash.is_zero() {
            proof {
                if target_hash.spec_is_zero() {
                    assert(hashes[0].spec_is_zero());
                } else if hardware_hash.spec_is_zero() {
                    assert(hashes[1].spec_is_zero());
                } else if operating_system_hash.spec_is_zero() {
                    assert(hashes[2].spec_is_zero());
                } else if compiler_hash.spec_is_zero() {
                    assert(hashes[3].spec_is_zero());
                } else if topology_hash.spec_is_zero() {
                    assert(hashes[4].spec_is_zero());
                } else {
                    assert(hashes[5].spec_is_zero());
                }
            }
            return Err(SecurityError::ZeroHash);
        }
        proof {
            assert forall|i: int| 0 <= i < 6 implies !#[trigger] hashes[i].spec_is_zero() by {
                if i == 0 {
                } else if i == 1 {
                } else if i == 2 {
                } else if i == 3 {
                } else if i == 4 {
                } else {
                }
            }
        }
        if mitigations.len() > MAX_MITIGATIONS {
            return Err(SecurityError::TooManyMitigations);
        }
        let mitigations = sort_dedup(mitigations);
        let contract = DeploymentContract {
            target_hash,
            hardware_hash,
            operating_system_hash,
            compiler_hash,
            topology_hash,
            scheduler_hash,
            mitigations,
        };
        assert(contract.spec_hashes() =~= hashes);
        Ok(contract)
    }

    /// Returns the deployment target commitment.
    pub fn target_hash(&self) -> (hash: Hash32)
        ensures
            hash == self.spec_hashes()[0],
    {
        self.target_hash
    }

    /// Returns declared mitigations in canonical order.
    pub fn mitigations(&self) -> (mitigations: &[Mitigation])
        ensures
            mitigations@ == self.spec_mitigations(),
            strictly_sorted_by_key(mitigations@),
    {
        proof {
            use_type_invariant(self);
        }
        self.mitigations.as_slice()
    }

    /// Returns whether the deployment declares a mitigation.
    pub fn has_mitigation(&self, mitigation: Mitigation) -> (declared: bool)
        ensures
            declared == self.spec_mitigations().contains(mitigation),
    {
        proof {
            use_type_invariant(self);
        }
        match find_key(&self.mitigations, mitigation.tag() as u64) {
            Some(index) => {
                proof {
                    self.mitigations@[index as int].lemma_tag_injective(mitigation);
                }
                true
            },
            None => {
                proof {
                    if self.mitigations@.contains(mitigation) {
                        let j = choose|j: int| 0 <= j < self.mitigations@.len() && self.mitigations@[j] == mitigation;
                        assert(has_key(self.mitigations@, mitigation.spec_key()));
                    }
                }
                false
            },
        }
    }

    /// Canonical bytes: magic, the six commitments, then the length-prefixed mitigations.
    pub open spec fn spec_encoding(self) -> Seq<u8> {
        let h = self.spec_hashes();
        deployment_magic() + h[0].spec_bytes() + h[1].spec_bytes() + h[2].spec_bytes() + h[3].spec_bytes()
            + h[4].spec_bytes() + h[5].spec_bytes() + be16(self.spec_mitigations().len() as u16)
            + encode_all(self.spec_mitigations())
    }

    /// Canonical bytes of the contract.
    pub fn canonical_bytes(&self) -> (bytes: Result<Vec<u8>, SecurityError>)
        ensures
            bytes matches Ok(b) && b@ == self.spec_encoding(),
    {
        let mut output: Vec<u8> = vec![90u8, 70u8, 67u8, 73u8, 83u8, 45u8, 83u8, 69u8, 67u8, 85u8, 82u8, 73u8, 84u8, 89u8, 45u8, 68u8, 69u8, 80u8, 76u8, 79u8, 89u8, 77u8, 69u8, 78u8, 84u8, 0u8];
        assert(output@ =~= deployment_magic());
        put_bytes(&mut output, self.target_hash.as_bytes());
        put_bytes(&mut output, self.hardware_hash.as_bytes());
        put_bytes(&mut output, self.operating_system_hash.as_bytes());
        put_bytes(&mut output, self.compiler_hash.as_bytes());
        put_bytes(&mut output, self.topology_hash.as_bytes());
        put_bytes(&mut output, self.scheduler_hash.as_bytes());
        put_u16(&mut output, self.mitigations.len() as u16);
        encode_each(self.mitigations.as_slice(), &mut output);
        assert(output@ =~= self.spec_encoding());
        Ok(output)
    }

    /// The bytes the deployment commitment hashes.
    pub fn commitment_bytes(&self) -> (bytes: Vec<u8>)
        ensures
            bytes@ == commitment_preimage(security_domain(SecurityDomainLabel::Deployment), 1, self.spec_encoding()),
    {
        let encoded = match self.canonical_bytes() {
            Ok(bytes) => bytes,
            Err(_) => Vec::new(),
        };
        let label = security_domain_label(SecurityDomainLabel::Deployment);
        frame_commitment(label.as_slice(), 1, encoded.as_slice())
    }

    /// Computes the deployment-contract commitment: the hash of exactly the
    /// bytes that `commitment_bytes` returns.
    pub fn commitment<H: CommitmentHasher>(&self) -> (hash: Result<Hash32, SecurityError>)
        ensures
            hash == Ok::<Hash32, SecurityError>(H::spec_hash(commitment_preimage(security_domain(SecurityDomainLabel::Deployment), 1, self.spec_encoding()))),
    {
        let bytes = self.commitment_bytes();
        Ok(H::hash(bytes.as_slice()))
    }
}

impl Clone for DeploymentContract {
    fn clone(&self) -> (copy: Self)
        ensures
            copy.spec_hashes() == self.spec_hashes(),
            copy.spec_mitigations() == self.spec_mitigations(),
    {
        proof {
            use_type_invariant(self);
        }
        let mut mitigations: Vec<Mitigation> = Vec::new();
        let mut index: usize = 0;
        while index < self.mitigations.len()
            invariant
                index <= self.mitigations@.len(),
                mitigations@ == self.mitigations@.subrange(0, index as int),
            decreases self.mitigations@.len() - index,
        {
            mitigations.push(self.mitigations[index]);
            index = index + 1;
            assert(mitigations@ =~= self.mitigations@.subrange(0, index as int));
        }
        assert(mitigations@ =~= self.mitigations@);
        DeploymentContract {
            target_hash: self.target_hash,
            hardware_hash: self.hardware_hash,
            operating_system_hash: self.operating_system_hash,
            compiler_hash: self.compiler_hash,
            topology_hash: self.topology_hash,
            scheduler_hash: self.scheduler_hash,
            mitigations,
        }
    }
}

/// Why a leakage policy declaration is refused, if it is.
pub open spec fn leakage_policy_error(
    threat_model_hash: Hash32,
    deployment_contract_hash: Hash32,
    observers: Seq<ObserverClearance>,
    rules: Seq<LeakageRule>,
    required_mitigations: Seq<Mitigation>,
) -> Option<SecurityError> {
    if threat_model_hash.spec_is_zero() || deployment_contract_hash.spec_is_zero() {
        Some(SecurityError::ZeroHash)
    } else if observers.len() > MAX_OBSERVERS {
        Some(SecurityError::TooManyObservers)
    } else if rules.len() == 0 {
        Some(SecurityError::EmptyLeakagePolicy)
    } else if rules.len() > MAX_LEAKAGE_RULES {
        Some(SecurityError::TooManyLeakageRules)
    } else if required_mitigations.len() > MAX_MITIGATIONS {
        Some(SecurityError::TooManyMitigations)
    } else if has_duplicate_key(observers) {
        Some(SecurityError::DuplicateObserver)
    } else if has_duplicate_key(rules) {
        Some(SecurityError::DuplicateLeakageRule)
    } else {
        None
    }
}

/// The magic prefix of canonical leakage-policy bytes.
pub open spec fn policy_magic() -> Seq<u8> {
    seq![90u8, 70u8, 67u8, 73u8, 83u8, 45u8, 83u8, 69u8, 67u8, 85u8, 82u8, 73u8, 84u8, 89u8, 45u8, 80u8, 79u8, 76u8, 73u8, 67u8, 89u8, 0u8]
}

/// Complete project/deployment leakage policy.
#[derive(Debug, PartialEq, Eq)]
pub struct LeakagePolicy {
    threat_model_hash: Hash32,
    deployment_contract_hash: Hash32,
    max_total_declassified_bits: u64,
    observers: Vec<ObserverClearance>,
    rules: Vec<LeakageRule>,
    required_mitigations: Vec<Mitigation>,
}

impl LeakagePolicy {
    /// Observers, rules and mitigations are bounded and listed once each in
    /// canonical order; there is at least one rule.
    #[verifier::type_invariant]
    spec fn canonical(self) -> bool {
        &&& self.observers@.len() <= MAX_OBSERVERS
        &&& 1 <= self.rules@.len() <= MAX_LEAKAGE_RULES
        &&& self.required_mitigations@.len() <= MAX_MITIGATIONS
        &&& strictly_sorted_by_key(self.observers@)
        &&& strictly_sorted_by_key(self.rules@)
        &&& strictly_sorted_by_key(self.required_mitigations@)
    }

    /// The threat-model commitment.
    pub closed spec fn spec_threat_model_hash(self) -> Hash32 {
        self.threat_model_hash
    }

    /// The required deployment-contract commitment.
    pub closed spec fn spec_deployment_contract_hash(self) -> Hash32 {
        self.deployment_contract_hash
    }

    /// The aggregate declassification bound.
    pub closed spec fn spec_max_total_declassified_bits(self) -> u64 {
        self.max_total_declassified_bits
    }

    /// Observer clearances in identifier order.
    pub closed spec fn spec_observers(self) -> Seq<ObserverClearance> {
        self.observers@
    }

    /// Leakage rules in key order.
    pub closed spec fn spec_rules(self) -> Seq<LeakageRule> {
        self.rules@
    }

    /// Required mitigations in canonical order.
    pub closed spec fn spec_required_mitigations(self) -> Seq<Mitigation> {
        self.required_mitigations@
    }

    /// Creates a canonical fail-closed leakage policy.
    pub fn try_new(
        threat_model_hash: Hash32,
        deployment_contract_hash: Hash32,
        max_total_declassified_bits: u64,
        observers: Vec<ObserverClearance>,
        rules: Vec<LeakageRule>,
        required_mitigations: Vec<Mitigation>,
    ) -> (policy: Result<Self, SecurityError>)
        ensures
            match leakage_policy_error(
                threat_model_hash,
                deployment_contract_hash,
                observers@,
                rules@,
                required_mitigations@,
            ) {
                Some(e) => policy == Err::<Self, SecurityError>(e),
                None => policy matches Ok(p) && p.spec_threat_model_hash() == threat_model_hash
                    && p.spec_deployment_contract_hash() == deployment_contract_hash
                    && p.spec_max_total_declassified_bits() == max_total_declassified_bits
                    && p.spec_observers() == canonical_order(observers@) && p.spec_rules()
                    == canonical_order(rules@) && p.spec_required_mitigations() == canonical_set(
                    required_mitigations@,
                ),
            },
    {
        if threat_model_hash.is_zero() || deployment_contract_hash.is_zero() {
            return Err(SecurityError::ZeroHash);
        }
        if observers.len() > MAX_OBSERVERS {
            return Err(SecurityError::TooManyObservers);
        }
        if rules.len() == 0 {
            return Err(SecurityError::EmptyLeakagePolicy);
        }
        if rules.len() > MAX_LEAKAGE_RULES {
            return Err(SecurityError::TooManyLeakageRules);
        }
        if required_mitigations.len() > MAX_MITIGATIONS {
            return Err(SecurityError::TooManyMitigations);
        }
        let ghost declared_observers = observers@;
        let ghost declared_rules = rules@;
        let observers = sort_by_key(observers);
        proof {
            lemma_duplicate_key_multiset(observers@, declared_observers);
        }
        if first_adjacent_duplicate(&observers).is_some() {
            return Err(SecurityError::DuplicateObserver);
        }
        let rules = sort_by_key(rules);
        proof {
            lemma_duplicate_key_multiset(rules@, declared_rules);
        }
        if first_adjacent_duplicate(&rules).is_some() {
            return Err(SecurityError::DuplicateLeakageRule);
        }
        proof {
            lemma_canonical_order(declared_observers, observers@);
            lemma_canonical_order(declared_rules, rules@);
        }
        let required_mitigations = sort_dedup(required_mitigations);
        Ok(LeakagePolicy {
            threat_model_hash,
            deployment_contract_hash,
            max_total_declassified_bits,
            observers,
            rules,
            required_mitigations,
        })
    }

    /// Returns the threat-model commitment.
    pub fn threat_model_hash(&self) -> (hash: Hash32)
        ensures
            hash == self.spec_threat_model_hash(),
    {
        self.threat_model_hash
    }

    /// Returns the required deployment-contract commitment.
    pub fn deployment_contract_hash(&self) -> (hash: Hash32)
        ensures
            hash == self.spec_deployment_contract_hash(),
    {
        self.deployment_contract_hash
    }

    /// Returns leakage rules in canonical order.
    pub fn rules(&self) -> (rules: &[LeakageRule])
        ensures
            rules@ == self.spec_rules(),
            strictly_sorted_by_key(rules@),
    {
        proof {
            use_type_invariant(self);
        }
        self.rules.as_slice()
    }

    /// Returns required mitigations.
    pub fn required_mitigations(&self) -> (mitigations: &[Mitigation])
        ensures
            mitigations@ == self.spec_required_mitigations(),
    {
        self.required_mitigations.as_slice()
    }

    /// Canonical bytes of the policy.
    pub open spec fn spec_encoding(self) -> Seq<u8> {
        policy_magic() + self.spec_threat_model_hash().spec_bytes()
            + self.spec_deployment_contract_hash().spec_bytes() + be64(
            self.spec_max_total_declassified_bits(),
        ) + be16(self.spec_observers().len() as u16) + encode_all(self.spec_observers()) + be32(self.spec_rules().len() as u32) + encode_all(self.spec_rules()) + be16(
            self.spec_required_mitigations().len() as u16,
        ) + encode_all(self.spec_required_mitigations())
    }

    /// Canonical bytes of the policy.
    pub fn canonical_bytes(&self) -> (bytes: Result<Vec<u8>, SecurityError>)
        ensures
            bytes matches Ok(b) && b@ == self.spec_encoding(),
    {
        let mut output: Vec<u8> = vec![90u8, 70u8, 67u8, 73u8, 83u8, 45u8, 83u8, 69u8, 67u8, 85u8, 82u8, 73u8, 84u8, 89u8, 45u8, 80u8, 79u8, 76u8, 73u8, 67u8, 89u8, 0u8];
        assert(output@ =~= policy_magic());
        put_bytes(&mut output, self.threat_model_hash.as_bytes());
        put_bytes(&mut output, self.deployment_contract_hash.as_bytes());
        put_u64(&mut output, self.max_total_declassified_bits);
        put_u16(&mut output, self.observers.len() as u16);
        encode_each(self.observers.as_slice(), &mut output);
        put_u32(&mut output, self.rules.len() as u32);
        encode_each(self.rules.as_slice(), &mut output);
        put_u16(&mut output, self.required_mitigations.len() as u16);
        encode_each(self.required_mitigations.as_slice(), &mut output);
        assert(output@ =~= self.spec_encoding());
        Ok(output)
    }

    /// The bytes the policy commitment hashes.
    pub fn commitment_bytes(&self) -> (bytes: Vec<u8>)
        ensures
            bytes@ == commitment_preimage(security_domain(SecurityDomainLabel::Policy), 1, self.spec_encoding()),
    {
        let encoded = match self.canonical_bytes() {
            Ok(bytes) => bytes,
            Err(_) => Vec::new(),
        };
        let label = security_domain_label(SecurityDomainLabel::Policy);
        frame_commitment(label.as_slice(), 1, encoded.as_slice())
    }

    /// Computes the policy commitment: the hash of exactly the bytes that
    /// `commitment_bytes` returns.
    pub fn commitment<H: CommitmentHasher>(&self) -> (hash: Result<Hash32, SecurityError>)
        ensures
            hash == Ok::<Hash32, SecurityError>(H::spec_hash(commitment_preimage(security_domain(SecurityDomainLabel::Policy), 1, self.spec_encoding()))),
    {
        let bytes = self.commitment_bytes();
        Ok(H::hash(bytes.as_slice()))
    }

    /// The rule for an observer, kind and channel, if the policy has one.
    fn rule(&self, observer: SecurityDomainId, kind: ObservationKind, channel: ChannelClass) -> (rule:
        Option<LeakageRule>)
        ensures
            rule is Some <==> has_key(self.spec_rules(), observation_key(observer, kind, channel)),
            rule matches Some(r) ==> r == policy_rule(*self, observation_key(observer, kind, channel)),
    {
        proof {
            use_type_invariant(self);
        }
        match find_key(&self.rules, observation_key_of(observer, kind, channel)) {
            Some(index) => {
                let rule = self.rules[index];
                proof {
                    let key = observation_key(observer, kind, channel);
                    let j = choose|i: int| 0 <= i < self.rules@.len() && self.rules@[i].spec_key() == key;
                    assert(0 <= index < self.rules@.len() && self.rules@[index as int].spec_key() == key);
                    if j < index as int {
                        assert(self.rules@[j].spec_key() < self.rules@[index as int].spec_key());
                    } else if j > index as int {
                        assert(self.rules@[index as int].spec_key() < self.rules@[j].spec_key());
                    }
                }
                Some(rule)
            },
            None => None,
        }
    }

    /// The clearance declared for an observer, if any.
    fn clearance(&self, observer: SecurityDomainId) -> (clearance: Option<&SecurityLabel>)
        ensures
            clearance is Some <==> has_key(self.spec_observers(), observer.spec_get() as int),
            clearance matches Some(c) ==> *c == policy_clearance(*self, observer),
    {
        proof {
            use_type_invariant(self);
        }
        match find_key(&self.observers, observer.get() as u64) {
            Some(index) => {
                let found = self.observers[index].clearance();
                proof {
                    let key = observer.spec_get() as int;
                    let j = choose|i: int| 0 <= i < self.observers@.len() && self.observers@[i].spec_key() == key;
                    assert(0 <= index < self.observers@.len() && self.observers@[index as int].spec_key() == key);
                    if j < index as int {
                        assert(self.observers@[j].spec_key() < self.observers@[index as int].spec_key());
                    } else if j > index as int {
                        assert(self.observers@[index as int].spec_key() < self.observers@[j].spec_key());
                    }
                }
                Some(found)
            },
            None => None,
        }
    }
}

/// Declaration order never changes a leakage policy: two orderings of the same
/// observers and rules, with the same required mitigations, are refused for
/// the same reason or admitted with the same canonical lists.
pub proof fn lemma_leakage_policy_history_independent(
    threat_model_hash: Hash32,
    deployment_contract_hash: Hash32,
    observers: Seq<ObserverClearance>,
    reordered_observers: Seq<ObserverClearance>,
    rules: Seq<LeakageRule>,
    reordered_rules: Seq<LeakageRule>,
    mitigations: Seq<Mitigation>,
    reordered_mitigations: Seq<Mitigation>,
)
    requires
        observers.to_multiset() == reordered_observers.to_multiset(),
        rules.to_multiset() == reordered_rules.to_multiset(),
        mitigations.to_multiset() == reordered_mitigations.to_multiset(),
    ensures
        leakage_policy_error(threat_model_hash, deployment_contract_hash, observers, rules, mitigations)
            == leakage_policy_error(
            threat_model_hash,
            deployment_contract_hash,
            reordered_observers,
            reordered_rules,
            reordered_mitigations,
        ),
        canonical_order(observers) == canonical_order(reordered_observers),
        canonical_order(rules) == canonical_order(reordered_rules),
        canonical_set(mitigations) == canonical_set(reordered_mitigations),
{
    broadcast use vstd::seq_lib::group_to_multiset_ensures;

    assert(observers.to_multiset().len() == observers.len());
    assert(reordered_observers.to_multiset().len() == reordered_observers.len());
    assert(rules.to_multiset().len() == rules.len());
    assert(reordered_rules.to_multiset().len() == reordered_rules.len());
    assert(mitigations.to_multiset().len() == mitigations.len());
    assert(reordered_mitigations.to_multiset().len() == reordered_mitigations.len());
    lemma_duplicate_key_multiset(observers, reordered_observers);
    lemma_duplicate_key_multiset(rules, reordered_rules);
    crate::sort::lemma_canonical_order_multiset(observers, reordered_observers);
    crate::sort::lemma_canonical_order_multiset(rules, reordered_rules);
    assert forall|m: Mitigation| mitigations.contains(m) <==> reordered_mitigations.contains(m) by {
        if mitigations.contains(m) {
            let i = choose|i: int| 0 <= i < mitigations.len() && mitigations[i] == m;
            crate::sort::lemma_member_moves(mitigations, reordered_mitigations, i);
        }
        if reordered_mitigations.contains(m) {
            let i = choose|i: int| 0 <= i < reordered_mitigations.len() && reordered_mitigations[i] == m;
            crate::sort::lemma_member_moves(reordered_mitigations, mitigations, i);
        }
    }
    crate::sort::lemma_canonical_set_members(mitigations, reordered_mitigations);
}

/// One fail-closed leakage-policy violation.
#[derive(Clone, Copy, Debug, PartialEq, Eq)]
pub enum LeakageBlocker {
    /// Traces do not bind the same public input.
    PublicInputMismatch,
    /// A comparison used the same secret variant twice.
    SameSecretVariant,
    /// Deployment commitment differs from the policy.
    DeploymentMismatch,
    /// A required deployment mitigation is absent.
    MissingMitigation(Mitigation),
    /// Trace lengths differ.
    TraceLengthMismatch {
        /// Left observation count.
        left: u32,
        /// Right observation count.
        right: u32,
    },
    /// Observation key or label differs at one position.
    ObservationShapeMismatch {
        /// Observation index.
        index: u32,
    },
    /// No policy rule classifies an observation.
    UnclassifiedObservation {
        /// Observation index.
        index: u32,
    },
    /// An observer has no declared clearance.
    MissingObserverClearance {
        /// Observation index.
        index: u32,
    },
    /// Information label cannot flow to the observer.
    LabelFlowViolation {
        /// Observation index.
        index: u32,
    },
    /// A prohibited observation occurred.
    ProhibitedObservation {
        /// Observation index.
        index: u32,
    },
    /// Exact-policy value commitments differ.
    ValueMismatch {
        /// Observation index.
        index: u32,
    },
    /// Exact-policy quantities differ.
    QuantityMismatch {
        /// Observation index.
        index: u32,
    },
    /// A bounded quantity exceeded its delta.
    QuantityDeltaExceeded {
        /// Observation index.
        index: u32,
        /// Observed absolute delta.
        delta: u64,
        /// Allowed delta.
        maximum: u64,
    },
    /// Declassification appeared where it is not allowed.
    UnexpectedDeclassification {
        /// Observation index.
        index: u32,
    },
    /// Required declassification is missing or differs.
    DeclassificationMismatch {
        /// Observation index.
        index: u32,
    },
    /// Released bits exceed the per-observation rule.
    DeclassificationBitsExceeded {
        /// Observation index.
        index: u32,
        /// Observed bound.
        observed: u32,
        /// Allowed bound.
        maximum: u32,
    },
    /// Aggregate declassification exceeds the policy.
    TotalDeclassificationBitsExceeded {
        /// Observed aggregate bound.
        observed: u64,
        /// Allowed aggregate bound.
        maximum: u64,
    },
    /// Leakage-bit metadata was present without declassification.
    UnjustifiedLeakageBits {
        /// Observation index.
        index: u32,
    },
    /// Arithmetic overflowed while accumulating a leakage bound.
    ArithmeticOverflow,
}

impl Encodable for LeakageBlocker {
    open spec fn spec_encoding(&self) -> Seq<u8> {
        match *self {
            LeakageBlocker::PublicInputMismatch => seq![0u8],
            LeakageBlocker::SameSecretVariant => seq![1u8],
            LeakageBlocker::DeploymentMismatch => seq![2u8],
            LeakageBlocker::MissingMitigation(mitigation) => seq![3u8, mitigation.spec_tag()],
            LeakageBlocker::TraceLengthMismatch { left, right } => seq![4u8] + be32(left) + be32(right),
            LeakageBlocker::ObservationShapeMismatch { index } => seq![5u8] + be32(index),
            LeakageBlocker::UnclassifiedObservation { index } => seq![6u8] + be32(index),
            LeakageBlocker::MissingObserverClearance { index } => seq![7u8] + be32(index),
            LeakageBlocker::LabelFlowViolation { index } => seq![8u8] + be32(index),
            LeakageBlocker::ProhibitedObservation { index } => seq![9u8] + be32(index),
            LeakageBlocker::ValueMismatch { index } => seq![10u8] + be32(index),
            LeakageBlocker::QuantityMismatch { index } => seq![11u8] + be32(index),
            LeakageBlocker::UnexpectedDeclassification { index } => seq![13u8] + be32(index),
            LeakageBlocker::DeclassificationMismatch { index } => seq![14u8] + be32(index),
            LeakageBlocker::UnjustifiedLeakageBits { index } => seq![17u8] + be32(index),
            LeakageBlocker::QuantityDeltaExceeded { index, delta, maximum } => seq![12u8] + be32(index) + be64(delta)
                + be64(maximum),
            LeakageBlocker::DeclassificationBitsExceeded { index, observed, maximum } => seq![15u8] + be32(index)
                + be32(observed) + be32(maximum),
            LeakageBlocker::TotalDeclassificationBitsExceeded { observed, maximum } => seq![16u8] + be64(observed)
                + be64(maximum),
            LeakageBlocker::ArithmeticOverflow => seq![18u8],
        }
    }

    fn encode_to(&self, output: &mut Vec<u8>) {
        match self {
            LeakageBlocker::PublicInputMismatch => put_u8(output, 0),
            LeakageBlocker::SameSecretVariant => put_u8(output, 1),
            LeakageBlocker::DeploymentMismatch => put_u8(output, 2),
            LeakageBlocker::MissingMitigation(mitigation) => {
                put_u8(output, 3);
                put_u8(output, mitigation.tag());
            },
            LeakageBlocker::TraceLengthMismatch { left, right } => {
                put_u8(output, 4);
                put_u32(output, *left);
                put_u32(output, *right);
            },
            LeakageBlocker::ObservationShapeMismatch { index } => {
                put_u8(output, 5);
                put_u32(output, *index);
            },
            LeakageBlocker::UnclassifiedObservation { index } => {
                put_u8(output, 6);
                put_u32(output, *index);
            },
            LeakageBlocker::MissingObserverClearance { index } => {
                put_u8(output, 7);
                put_u32(output, *index);
            },
            LeakageBlocker::LabelFlowViolation { index } => {
                put_u8(output, 8);
                put_u32(output, *index);
            },
            LeakageBlocker::ProhibitedObservation { index } => {
                put_u8(output, 9);
                put_u32(output, *index);
            },
            LeakageBlocker::ValueMismatch { index } => {
                put_u8(output, 10);
                put_u32(output, *index);
            },
            LeakageBlocker::QuantityMismatch { index } => {
                put_u8(output, 11);
                put_u32(output, *index);
            },
            LeakageBlocker::UnexpectedDeclassification { index } => {
                put_u8(output, 13);
                put_u32(output, *index);
            },
            LeakageBlocker::DeclassificationMismatch { index } => {
                put_u8(output, 14);
                put_u32(output, *index);
            },
            LeakageBlocker::UnjustifiedLeakageBits { index } => {
                put_u8(output, 17);
                put_u32(output, *index);
            },
            LeakageBlocker::QuantityDeltaExceeded { index, delta, maximum } => {
                put_u8(output, 12);
                put_u32(output, *index);
                put_u64(output, *delta);
                put_u64(output, *maximum);
            },
            LeakageBlocker::DeclassificationBitsExceeded { index, observed, maximum } => {
                put_u8(output, 15);
                put_u32(output, *index);
                put_u32(output, *observed);
                put_u32(output, *maximum);
            },
            LeakageBlocker::TotalDeclassificationBitsExceeded { observed, maximum } => {
                put_u8(output, 16);
                put_u64(output, *observed);
                put_u64(output, *maximum);
            },
            LeakageBlocker::ArithmeticOverflow => put_u8(output, 18),
        }
        assert(output@ =~= old(output)@ + self.spec_encoding());
    }
}

impl LeakageBlocker {
    /// The canonical encoding is at most 21 bytes long.
    pub proof fn lemma_encoding_len(self)
        ensures
            self.spec_encoding().len() <= 21,
    {
    }
}

/// At most the first `MAX_LEAKAGE_BLOCKERS` blockers are retained.
pub open spec fn retained(blockers: Seq<LeakageBlocker>) -> Seq<LeakageBlocker> {
    if blockers.len() <= MAX_LEAKAGE_BLOCKERS {
        blockers
    } else {
        blockers.subrange(0, MAX_LEAKAGE_BLOCKERS as int)
    }
}

/// Truncating before appending retains the same blockers as truncating after.
proof fn lemma_retained_absorbs(first: Seq<LeakageBlocker>, rest: Seq<LeakageBlocker>)
    ensures
        retained(retained(first) + rest) == retained(first + rest),
{
    if first.len() > MAX_LEAKAGE_BLOCKERS {
        assert(retained(retained(first) + rest) =~= retained(first + rest));
    } else {
        assert(retained(first) == first);
    }
}

/// The single blocker when the condition holds, otherwise nothing.
pub open spec fn leak_when(condition: bool, blocker: LeakageBlocker) -> Seq<LeakageBlocker> {
    if condition {
        seq![blocker]
    } else {
        Seq::empty()
    }
}

fn note_leak(blockers: &mut Vec<LeakageBlocker>, condition: bool, blocker: LeakageBlocker)
    requires
        old(blockers)@.len() <= MAX_LEAKAGE_BLOCKERS,
    ensures
        final(blockers)@ == retained(old(blockers)@ + leak_when(condition, blocker)),
        final(blockers)@.len() <= MAX_LEAKAGE_BLOCKERS,
{
    if condition && blockers.len() < MAX_LEAKAGE_BLOCKERS {
        blockers.push(blocker);
    }
    assert(blockers@ =~= retained(old(blockers)@ + leak_when(condition, blocker)));
}

/// A count as reported in a blocker: saturated to 32 bits.
pub open spec fn saturated_count(count: nat) -> u32 {
    if count <= u32::MAX {
        count as u32
    } else {
        u32::MAX
    }
}

/// Blockers for every required mitigation the deployment does not declare, in order.
pub open spec fn missing_mitigations(required: Seq<Mitigation>, declared: Seq<Mitigation>) -> Seq<LeakageBlocker>
    decreases required.len(),
{
    if required.len() == 0 {
        Seq::empty()
    } else {
        missing_mitigations(required.drop_last(), declared) + leak_when(
            !declared.contains(required.last()),
            LeakageBlocker::MissingMitigation(required.last()),
        )
    }
}

/// Blockers that do not depend on individual observations.
pub open spec fn trace_header_blockers(
    policy: LeakagePolicy,
    deployment: DeploymentContract,
    deployment_hash: Hash32,
    left: ObservationTrace,
    right: ObservationTrace,
) -> Seq<LeakageBlocker> {
    leak_when(
        deployment_hash.spec_bytes() != policy.spec_deployment_contract_hash().spec_bytes(),
        LeakageBlocker::DeploymentMismatch,
    ) + missing_mitigations(policy.spec_required_mitigations(), deployment.spec_mitigations())
        + leak_when(
        left.spec_public_input_hash().spec_bytes() != right.spec_public_input_hash().spec_bytes(),
        LeakageBlocker::PublicInputMismatch,
    ) + leak_when(
        left.spec_secret_variant_hash().spec_bytes() == right.spec_secret_variant_hash().spec_bytes(),
        LeakageBlocker::SameSecretVariant,
    ) + leak_when(
        left.spec_observations().len() != right.spec_observations().len(),
        LeakageBlocker::TraceLengthMismatch {
            left: saturated_count(left.spec_observations().len()),
            right: saturated_count(right.spec_observations().len()),
        },
    )
}

/// The optional release is exactly the one the rule demands.
pub open spec fn is_release(release: Option<Declassification>, authority_hash: Hash32, purpose_hash: Hash32, max_bits: u32) -> bool {
    release matches Some(d) && d.spec_authority_hash().spec_bytes() == authority_hash.spec_bytes()
        && d.spec_purpose_hash().spec_bytes() == purpose_hash.spec_bytes() && d.spec_max_bits() == max_bits
}

/// Blockers for an undeclassified comparison: no release and no leakage bits.
pub open spec fn undeclassified_blockers(left: Observation, right: Observation, index: u32) -> Seq<LeakageBlocker> {
    leak_when(
        left.spec_declassification() is Some || right.spec_declassification() is Some,
        LeakageBlocker::UnexpectedDeclassification { index },
    ) + leak_when(
        left.spec_leakage_bits_upper_bound() != 0 || right.spec_leakage_bits_upper_bound() != 0,
        LeakageBlocker::UnjustifiedLeakageBits { index },
    )
}

/// The two observations differ in observer, kind, channel or label.
pub open spec fn shapes_differ(left: Observation, right: Observation) -> bool {
    left.spec_observer() != right.spec_observer() || left.spec_kind() != right.spec_kind()
        || left.spec_channel() != right.spec_channel() || left.spec_label().spec_confidentiality()
        != right.spec_label().spec_confidentiality() || left.spec_label().spec_integrity()
        != right.spec_label().spec_integrity() || left.spec_label().spec_compartments()
        != right.spec_label().spec_compartments()
}

/// The absolute difference of two quantities.
pub open spec fn quantity_delta(a: u64, b: u64) -> u64 {
    if a >= b {
        (a - b) as u64
    } else {
        (b - a) as u64
    }
}

/// The policy rule whose key is `key` (meaningful when the policy has one).
pub open spec fn policy_rule(policy: LeakagePolicy, key: int) -> LeakageRule {
    policy.spec_rules()[choose|i: int| 0 <= i < policy.spec_rules().len() && policy.spec_rules()[i].spec_key() == key]
}

/// The clearance declared for an observer (meaningful when the policy declares one).
pub open spec fn policy_clearance(policy: LeakagePolicy, observer: SecurityDomainId) -> SecurityLabel {
    policy.spec_observers()[choose|i: int|
        0 <= i < policy.spec_observers().len() && policy.spec_observers()[i].spec_key() == observer.spec_get() as int].spec_clearance()
}

/// Blockers for one observation position, and the aggregate released bits after it.
pub open spec fn observation_step(
    policy: LeakagePolicy,
    index: u32,
    left: Observation,
    right: Observation,
    bits: u64,
) -> (Seq<LeakageBlocker>, u64) {
    let key = observation_key(left.spec_observer(), left.spec_kind(), left.spec_channel());
    if shapes_differ(left, right) {
        (seq![LeakageBlocker::ObservationShapeMismatch { index }], bits)
    } else if !has_key(policy.spec_rules(), key) {
        (seq![LeakageBlocker::UnclassifiedObservation { index }], bits)
    } else if !has_key(policy.spec_observers(), left.spec_observer().spec_get() as int) {
        (seq![LeakageBlocker::MissingObserverClearance { index }], bits)
    } else {
        let rule = policy_rule(policy, key);
        let clearance = policy_clearance(policy, left.spec_observer());
        match rule.spec_mode() {
            RuleMode::Prohibit => (seq![LeakageBlocker::ProhibitedObservation { index }], bits),
            RuleMode::Exact => (common_blockers(left, right, index, clearance) + leak_when(
                left.spec_quantity() != right.spec_quantity(),
                LeakageBlocker::QuantityMismatch { index },
            ), bits),
            RuleMode::BoundedQuantity { max_delta } => (common_blockers(left, right, index, clearance) + leak_when(
                quantity_delta(left.spec_quantity(), right.spec_quantity()) > max_delta,
                LeakageBlocker::QuantityDeltaExceeded {
                    index,
                    delta: quantity_delta(left.spec_quantity(), right.spec_quantity()),
                    maximum: max_delta,
                },
            ), bits),
            RuleMode::Declassified { authority_hash, purpose_hash, max_bits } => declassified_step(
                left,
                right,
                index,
                authority_hash,
                purpose_hash,
                max_bits,
                bits,
            ),
        }
    }
}

/// Blockers shared by the exact and bounded rules: no release, no leakage
/// bits, a label that flows to the clearance, and equal values.
pub open spec fn common_blockers(left: Observation, right: Observation, index: u32, clearance: SecurityLabel) -> Seq<LeakageBlocker> {
    undeclassified_blockers(left, right, index) + leak_when(
        !label_flows(left.spec_label(), clearance),
        LeakageBlocker::LabelFlowViolation { index },
    ) + leak_when(
        left.spec_value_hash().spec_bytes() != right.spec_value_hash().spec_bytes(),
        LeakageBlocker::ValueMismatch { index },
    )
}

/// Blockers of a position under a declassifying rule, and the aggregate released bits after it.
pub open spec fn declassified_step(
    left: Observation,
    right: Observation,
    index: u32,
    authority_hash: Hash32,
    purpose_hash: Hash32,
    max_bits: u32,
    bits: u64,
) -> (Seq<LeakageBlocker>, u64) {
    if !is_release(left.spec_declassification(), authority_hash, purpose_hash, max_bits)
        || !is_release(right.spec_declassification(), authority_hash, purpose_hash, max_bits) {
        (seq![LeakageBlocker::DeclassificationMismatch { index }], bits)
    } else {
        let observed = if left.spec_leakage_bits_upper_bound() >= right.spec_leakage_bits_upper_bound() {
            left.spec_leakage_bits_upper_bound()
        } else {
            right.spec_leakage_bits_upper_bound()
        };
        let exceeded = leak_when(
            observed > max_bits,
            LeakageBlocker::DeclassificationBitsExceeded { index, observed, maximum: max_bits },
        );
        if bits + observed > u64::MAX {
            (exceeded + seq![LeakageBlocker::ArithmeticOverflow], bits)
        } else {
            (exceeded, (bits + observed) as u64)
        }
    }
}

/// Blockers for the first `count` positions, and the aggregate released bits.
pub open spec fn observation_fold(
    policy: LeakagePolicy,
    left: Seq<Observation>,
    right: Seq<Observation>,
    count: nat,
) -> (Seq<LeakageBlocker>, u64)
    decreases count,
{
    if count == 0 {
        (Seq::empty(), 0u64)
    } else {
        let (before, bits) = observation_fold(policy, left, right, (count - 1) as nat);
        let (step, after) = observation_step(
            policy,
            (count - 1) as u32,
            left[count - 1],
            right[count - 1],
            bits,
        );
        (before + step, after)
    }
}

/// Result of comparing two secret variants under one leakage policy.
#[derive(Clone, Debug, PartialEq, Eq)]
pub struct LeakageReport {
    deployment_hash: Hash32,
    declassified_bits: u64,
    blockers: Vec<LeakageBlocker>,
}

impl LeakageReport {
    /// The deployment commitment used by the comparison.
    pub closed spec fn spec_deployment_hash(self) -> Hash32 {
        self.deployment_hash
    }

    /// The aggregate explicit declassification bound.
    pub closed spec fn spec_declassified_bits(self) -> u64 {
        self.declassified_bits
    }

    /// Blockers in deterministic evaluation order.
    pub closed spec fn spec_blockers(self) -> Seq<LeakageBlocker> {
        self.blockers@
    }

    /// Returns true only when no blocker was found.
    pub fn is_secure(&self) -> (secure: bool)
        ensures
            secure == (self.spec_blockers().len() == 0),
    {
        self.blockers.len() == 0
    }

    /// Returns the deployment commitment used by the comparison.
    pub fn deployment_hash(&self) -> (hash: Hash32)
        ensures
            hash == self.spec_deployment_hash(),
    {
        self.deployment_hash
    }

    /// Returns the aggregate explicit declassification bound.
    pub fn declassified_bits(&self) -> (bits: u64)
        ensures
            bits == self.spec_declassified_bits(),
    {
        self.declassified_bits
    }

    /// Returns blockers in deterministic evaluation order.
    pub fn blockers(&self) -> (blockers: &[LeakageBlocker])
        ensures
            blockers@ == self.spec_blockers(),
    {
        self.blockers.as_slice()
    }

    /// Canonical bytes: the deployment commitment, the released bits, the
    /// blocker count, then each blocker's length-prefixed encoding.
    pub open spec fn spec_encoding(self) -> Seq<u8> {
        self.spec_deployment_hash().spec_bytes() + be64(self.spec_declassified_bits()) + be32(
            self.spec_blockers().len() as u32,
        ) + blob_all(self.spec_blockers())
    }

    /// The canonical bytes of the report; fails only when the blocker count
    /// does not fit 32 bits.
    pub fn canonical_bytes(&self) -> (bytes: Result<Vec<u8>, EncodeError>)
        ensures
            bytes is Ok <==> self.spec_blockers().len() <= u32::MAX,
            bytes matches Ok(b) ==> b@ == self.spec_encoding(),
            bytes is Err ==> bytes == Err::<Vec<u8>, EncodeError>(EncodeError::LengthOverflow),
    {
        let mut output: Vec<u8> = Vec::new();
        put_bytes(&mut output, self.deployment_hash.as_bytes());
        put_u64(&mut output, self.declassified_bits);
        match put_length(&mut output, self.blockers.len()) {
            Ok(()) => {},
            Err(error) => return Err(error),
        }
        proof {
            assert forall|i: int| 0 <= i < self.blockers@.len() implies #[trigger] self.blockers@[i].spec_encoding().len()
                <= u32::MAX by {
                self.blockers@[i].lemma_encoding_len();
            }
        }
        put_blob_each(self.blockers.as_slice(), &mut output);
        assert(output@ =~= self.spec_encoding());
        Ok(output)
    }
}


/// Whether an optional release is exactly the one a declassifying rule demands.
fn release_matches(release: Option<Declassification>, authority_hash: Hash32, purpose_hash: Hash32, max_bits: u32) -> (matches: bool)
    ensures
        matches == is_release(release, authority_hash, purpose_hash, max_bits),
{
    match release {
        Some(d) => d.authority_hash == authority_hash && d.purpose_hash == purpose_hash && d.max_bits == max_bits,
        None => false,
    }
}

/// Records the blockers shared by the exact and bounded rules.
fn note_common(
    left: &Observation,
    right: &Observation,
    index: u32,
    clearance: &SecurityLabel,
    blockers: &mut Vec<LeakageBlocker>,
)
    requires
        old(blockers)@.len() <= MAX_LEAKAGE_BLOCKERS,
    ensures
        final(blockers)@ == retained(old(blockers)@ + common_blockers(*left, *right, index, *clearance)),
        final(blockers)@.len() <= MAX_LEAKAGE_BLOCKERS,
{
    let ghost start = blockers@;
    let ghost p1 = leak_when(
        left.spec_declassification() is Some || right.spec_declassification() is Some,
        LeakageBlocker::UnexpectedDeclassification { index },
    );
    let ghost p2 = leak_when(
        left.spec_leakage_bits_upper_bound() != 0 || right.spec_leakage_bits_upper_bound() != 0,
        LeakageBlocker::UnjustifiedLeakageBits { index },
    );
    let ghost p3 = leak_when(!label_flows(left.spec_label(), *clearance), LeakageBlocker::LabelFlowViolation { index });
    let ghost p4 = leak_when(
        left.spec_value_hash().spec_bytes() != right.spec_value_hash().spec_bytes(),
        LeakageBlocker::ValueMismatch { index },
    );
    note_leak(
        blockers,
        left.declassification.is_some() || right.declassification.is_some(),
        LeakageBlocker::UnexpectedDeclassification { index },
    );
    note_leak(
        blockers,
        left.leakage_bits_upper_bound != 0 || right.leakage_bits_upper_bound != 0,
        LeakageBlocker::UnjustifiedLeakageBits { index },
    );
    proof {
        lemma_retained_absorbs(start + p1, p2);
    }
    note_leak(blockers, !left.label.can_flow_to(clearance), LeakageBlocker::LabelFlowViolation { index });
    proof {
        lemma_retained_absorbs(start + p1 + p2, p3);
    }
    note_leak(blockers, left.value_hash != right.value_hash, LeakageBlocker::ValueMismatch { index });
    proof {
        lemma_retained_absorbs(start + p1 + p2 + p3, p4);
        assert(start + common_blockers(*left, *right, index, *clearance) =~= start + p1 + p2 + p3 + p4);
    }
}

/// Records the blockers of a position under a declassifying rule and returns
/// the aggregate released bits after it.
fn note_declassified(
    left: &Observation,
    right: &Observation,
    index: u32,
    authority_hash: Hash32,
    purpose_hash: Hash32,
    max_bits: u32,
    bits: u64,
    blockers: &mut Vec<LeakageBlocker>,
) -> (after: u64)
    requires
        old(blockers)@.len() <= MAX_LEAKAGE_BLOCKERS,
    ensures
        final(blockers)@ == retained(
            old(blockers)@ + declassified_step(*left, *right, index, authority_hash, purpose_hash, max_bits, bits).0,
        ),
        after == declassified_step(*left, *right, index, authority_hash, purpose_hash, max_bits, bits).1,
        final(blockers)@.len() <= MAX_LEAKAGE_BLOCKERS,
{
    let ghost start = blockers@;
    if !release_matches(left.declassification, authority_hash, purpose_hash, max_bits)
        || !release_matches(right.declassification, authority_hash, purpose_hash, max_bits) {
        note_leak(blockers, true, LeakageBlocker::DeclassificationMismatch { index });
        return bits;
    }
    let observed = if left.leakage_bits_upper_bound >= right.leakage_bits_upper_bound {
        left.leakage_bits_upper_bound
    } else {
        right.leakage_bits_upper_bound
    };
    let ghost p1 = leak_when(
        observed > max_bits,
        LeakageBlocker::DeclassificationBitsExceeded { index, observed, maximum: max_bits },
    );
    note_leak(
        blockers,
        observed > max_bits,
        LeakageBlocker::DeclassificationBitsExceeded { index, observed, maximum: max_bits },
    );
    match bits.checked_add(observed as u64) {
        Some(total) => total,
        None => {
            note_leak(blockers, true, LeakageBlocker::ArithmeticOverflow);
            proof {
                lemma_retained_absorbs(start + p1, leak_when(true, LeakageBlocker::ArithmeticOverflow));
                assert(leak_when(true, LeakageBlocker::ArithmeticOverflow) =~= seq![LeakageBlocker::ArithmeticOverflow]);
                assert(start + (p1 + seq![LeakageBlocker::ArithmeticOverflow]) =~= start + p1 + seq![
                    LeakageBlocker::ArithmeticOverflow,
                ]);
            }
            bits
        },
    }
}

/// Records the blockers of one observation position and returns the aggregate
/// released bits after it.
fn compare_position(
    policy: &LeakagePolicy,
    index: u32,
    left: &Observation,
    right: &Observation,
    bits: u64,
    blockers: &mut Vec<LeakageBlocker>,
) -> (after: u64)
    requires
        old(blockers)@.len() <= MAX_LEAKAGE_BLOCKERS,
    ensures
        final(blockers)@ == retained(old(blockers)@ + observation_step(*policy, index, *left, *right, bits).0),
        after == observation_step(*policy, index, *left, *right, bits).1,
        final(blockers)@.len() <= MAX_LEAKAGE_BLOCKERS,
{
    let ghost start = blockers@;
    if left.observer != right.observer || left.kind != right.kind || left.channel != right.channel
        || !left.label.same_as(&right.label) {
        note_leak(blockers, true, LeakageBlocker::ObservationShapeMismatch { index });
        return bits;
    }
    let rule = match policy.rule(left.observer, left.kind, left.channel) {
        Some(rule) => rule,
        None => {
            note_leak(blockers, true, LeakageBlocker::UnclassifiedObservation { index });
            return bits;
        },
    };
    let clearance = match policy.clearance(left.observer) {
        Some(clearance) => clearance,
        None => {
            note_leak(blockers, true, LeakageBlocker::MissingObserverClearance { index });
            return bits;
        },
    };
    match rule.mode {
        RuleMode::Prohibit => {
            note_leak(blockers, true, LeakageBlocker::ProhibitedObservation { index });
            bits
        },
        RuleMode::Exact => {
            note_common(left, right, index, clearance, blockers);
            let ghost mid = start + common_blockers(*left, *right, index, *clearance);
            let ghost last = leak_when(left.spec_quantity() != right.spec_quantity(), LeakageBlocker::QuantityMismatch { index });
            note_leak(blockers, left.quantity != right.quantity, LeakageBlocker::QuantityMismatch { index });
            proof {
                lemma_retained_absorbs(mid, last);
                assert(start + (common_blockers(*left, *right, index, *clearance) + last) =~= mid + last);
            }
            bits
        },
        RuleMode::BoundedQuantity { max_delta } => {
            note_common(left, right, index, clearance, blockers);
            let delta = if left.quantity >= right.quantity {
                left.quantity - right.quantity
            } else {
                right.quantity - left.quantity
            };
            let ghost mid = start + common_blockers(*left, *right, index, *clearance);
            let ghost last = leak_when(
                delta > max_delta,
                LeakageBlocker::QuantityDeltaExceeded { index, delta, maximum: max_delta },
            );
            note_leak(
                blockers,
                delta > max_delta,
                LeakageBlocker::QuantityDeltaExceeded { index, delta, maximum: max_delta },
            );
            proof {
                lemma_retained_absorbs(mid, last);
                assert(start + (common_blockers(*left, *right, index, *clearance) + last) =~= mid + last);
            }
            bits
        },
        RuleMode::Declassified { authority_hash, purpose_hash, max_bits } => note_declassified(
            left,
            right,
            index,
            authority_hash,
            purpose_hash,
            max_bits,
            bits,
            blockers,
        ),
    }
}

/// Every blocker of a trace comparison, in evaluation order, before the
/// report's cap: header blockers, per-position blockers over the common
/// prefix, then the aggregate declassification bound.
pub open spec fn comparison_blockers(
    policy: LeakagePolicy,
    deployment: DeploymentContract,
    deployment_hash: Hash32,
    left: ObservationTrace,
    right: ObservationTrace,
) -> Seq<LeakageBlocker> {
    let count = if left.spec_observations().len() <= right.spec_observations().len() {
        left.spec_observations().len()
    } else {
        right.spec_observations().len()
    };
    let (found, bits) = observation_fold(policy, left.spec_observations(), right.spec_observations(), count);
    trace_header_blockers(policy, deployment, deployment_hash, left, right) + found + leak_when(
        bits > policy.spec_max_total_declassified_bits(),
        LeakageBlocker::TotalDeclassificationBitsExceeded {
            observed: bits,
            maximum: policy.spec_max_total_declassified_bits(),
        },
    )
}

/// Two observations of the same observer, kind, channel and label whose
/// policy rule compares values (exact or bounded quantity), with a declared
/// observer clearance, but whose observed value hashes differ.
pub open spec fn compared_values_differ(policy: LeakagePolicy, left: Observation, right: Observation) -> bool {
    &&& compared_under_rule(policy, left, right)
    &&& left.spec_value_hash().spec_bytes() != right.spec_value_hash().spec_bytes()
}

/// A position whose compared values differ blocks with a value mismatch for
/// that position, whatever the bits released before it.
pub proof fn lemma_value_mismatch_blocks_position(
    policy: LeakagePolicy,
    index: u32,
    left: Observation,
    right: Observation,
    bits: u64,
)
    requires
        compared_values_differ(policy, left, right),
    ensures
        observation_step(policy, index, left, right, bits).0.contains(LeakageBlocker::ValueMismatch { index }),
{
    let key = observation_key(left.spec_observer(), left.spec_kind(), left.spec_channel());
    let clearance = policy_clearance(policy, left.spec_observer());
    let head = undeclassified_blockers(left, right, index) + leak_when(
        !label_flows(left.spec_label(), clearance),
        LeakageBlocker::LabelFlowViolation { index },
    );
    let common = common_blockers(left, right, index, clearance);
    assert(common =~= head + seq![LeakageBlocker::ValueMismatch { index }]);
    assert(common[head.len() as int] == LeakageBlocker::ValueMismatch { index });
    let step = observation_step(policy, index, left, right, bits).0;
    assert(step[head.len() as int] == LeakageBlocker::ValueMismatch { index });
}

/// Two observations of the same shape, classified by a rule that compares
/// values (exact or bounded quantity), for an observer with a declared
/// clearance.
pub open spec fn compared_under_rule(policy: LeakagePolicy, left: Observation, right: Observation) -> bool {
    let key = observation_key(left.spec_observer(), left.spec_kind(), left.spec_channel());
    &&& left.spec_observer() == right.spec_observer()
    &&& left.spec_kind() == right.spec_kind()
    &&& left.spec_channel() == right.spec_channel()
    &&& left.spec_label().spec_confidentiality() == right.spec_label().spec_confidentiality()
    &&& left.spec_label().spec_integrity() == right.spec_label().spec_integrity()
    &&& left.spec_label().spec_compartments() == right.spec_label().spec_compartments()
    &&& has_key(policy.spec_rules(), key)
    &&& has_key(policy.spec_observers(), left.spec_observer().spec_get() as int)
    &&& (policy_rule(policy, key).spec_mode() is Exact || policy_rule(policy, key).spec_mode() is BoundedQuantity)
}

/// Under a rule that compares values, a position is blocked for every fault
/// it has: a declassification that the rule does not allow, leakage bits,
/// a label that cannot flow to the observer's clearance, differing values,
/// and, under an exact rule, differing quantities.
pub proof fn lemma_compared_position_blockers(
    policy: LeakagePolicy,
    index: u32,
    left: Observation,
    right: Observation,
    bits: u64,
)
    requires
        compared_under_rule(policy, left, right),
    ensures
        ({
            let step = observation_step(policy, index, left, right, bits).0;
            let key = observation_key(left.spec_observer(), left.spec_kind(), left.spec_channel());
            &&& (left.spec_declassification() is Some || right.spec_declassification() is Some) <==> step.contains(
                LeakageBlocker::UnexpectedDeclassification { index },
            )
            &&& (left.spec_leakage_bits_upper_bound() != 0 || right.spec_leakage_bits_upper_bound() != 0)
                <==> step.contains(LeakageBlocker::UnjustifiedLeakageBits { index })
            &&& !label_flows(left.spec_label(), policy_clearance(policy, left.spec_observer())) <==> step.contains(
                LeakageBlocker::LabelFlowViolation { index },
            )
            &&& (left.spec_value_hash().spec_bytes() != right.spec_value_hash().spec_bytes()) <==> step.contains(
                LeakageBlocker::ValueMismatch { index },
            )
            &&& (policy_rule(policy, key).spec_mode() is Exact && left.spec_quantity() != right.spec_quantity())
                <==> step.contains(LeakageBlocker::QuantityMismatch { index })
        }),
{
    let key = observation_key(left.spec_observer(), left.spec_kind(), left.spec_channel());
    let clearance = policy_clearance(policy, left.spec_observer());
    let step = observation_step(policy, index, left, right, bits).0;
    let p1 = leak_when(
        left.spec_declassification() is Some || right.spec_declassification() is Some,
        LeakageBlocker::UnexpectedDeclassification { index },
    );
    let p2 = leak_when(
        left.spec_leakage_bits_upper_bound() != 0 || right.spec_leakage_bits_upper_bound() != 0,
        LeakageBlocker::UnjustifiedLeakageBits { index },
    );
    let p3 = leak_when(!label_flows(left.spec_label(), clearance), LeakageBlocker::LabelFlowViolation { index });
    let p4 = leak_when(
        left.spec_value_hash().spec_bytes() != right.spec_value_hash().spec_bytes(),
        LeakageBlocker::ValueMismatch { index },
    );
    let p5 = match policy_rule(policy, key).spec_mode() {
        RuleMode::Exact => leak_when(
            left.spec_quantity() != right.spec_quantity(),
            LeakageBlocker::QuantityMismatch { index },
        ),
        RuleMode::BoundedQuantity { max_delta } => leak_when(
            quantity_delta(left.spec_quantity(), right.spec_quantity()) > max_delta,
            LeakageBlocker::QuantityDeltaExceeded {
                index,
                delta: quantity_delta(left.spec_quantity(), right.spec_quantity()),
                maximum: max_delta,
            },
        ),
        _ => Seq::empty(),
    };
    assert(step =~= p1 + p2 + p3 + p4 + p5);
    assert forall|k: int| 0 <= k < step.len() implies {
        let b = #[trigger] step[k];
        &&& b is UnexpectedDeclassification ==> k < p1.len()
        &&& b is UnjustifiedLeakageBits ==> p1.len() <= k < p1.len() + p2.len()
        &&& b is LabelFlowViolation ==> p1.len() + p2.len() <= k < p1.len() + p2.len() + p3.len()
        &&& b is ValueMismatch ==> p1.len() + p2.len() + p3.len() <= k < p1.len() + p2.len() + p3.len() + p4.len()
        &&& b is QuantityMismatch ==> p1.len() + p2.len() + p3.len() + p4.len() <= k && policy_rule(policy, key).spec_mode() is Exact
    } by {
        if k < p1.len() {
        } else if k < p1.len() + p2.len() {
            assert(step[k] == p2[k - p1.len()]);
        } else if k < p1.len() + p2.len() + p3.len() {
            assert(step[k] == p3[k - p1.len() - p2.len()]);
        } else if k < p1.len() + p2.len() + p3.len() + p4.len() {
            assert(step[k] == p4[k - p1.len() - p2.len() - p3.len()]);
        } else {
            assert(step[k] == p5[k - p1.len() - p2.len() - p3.len() - p4.len()]);
        }
    }
    if p1.len() > 0 {
        assert(step[0] == LeakageBlocker::UnexpectedDeclassification { index });
    }
    if p2.len() > 0 {
        assert(step[p1.len() as int] == LeakageBlocker::UnjustifiedLeakageBits { index });
    }
    if p3.len() > 0 {
        assert(step[(p1.len() + p2.len()) as int] == LeakageBlocker::LabelFlowViolation { index });
    }
    if p4.len() > 0 {
        assert(step[(p1.len() + p2.len() + p3.len()) as int] == LeakageBlocker::ValueMismatch { index });
    }
    if p5.len() > 0 && policy_rule(policy, key).spec_mode() is Exact {
        assert(step[(p1.len() + p2.len() + p3.len() + p4.len()) as int] == LeakageBlocker::QuantityMismatch { index });
    }
}

/// A position is blocked when the two observations differ in shape, when no
/// rule classifies it, when its observer has no clearance, and when its rule
/// prohibits it.
pub proof fn lemma_unmatched_position_blockers(
    policy: LeakagePolicy,
    index: u32,
    left: Observation,
    right: Observation,
    bits: u64,
)
    ensures
        ({
            let step = observation_step(policy, index, left, right, bits).0;
            let key = observation_key(left.spec_observer(), left.spec_kind(), left.spec_channel());
            let same_shape = left.spec_observer() == right.spec_observer() && left.spec_kind() == right.spec_kind()
                && left.spec_channel() == right.spec_channel() && left.spec_label().spec_confidentiality()
                == right.spec_label().spec_confidentiality() && left.spec_label().spec_integrity()
                == right.spec_label().spec_integrity() && left.spec_label().spec_compartments()
                == right.spec_label().spec_compartments();
            &&& !same_shape ==> step == seq![LeakageBlocker::ObservationShapeMismatch { index }]
            &&& same_shape && !has_key(policy.spec_rules(), key) ==> step == seq![
                LeakageBlocker::UnclassifiedObservation { index },
            ]
            &&& same_shape && has_key(policy.spec_rules(), key) && !has_key(
                policy.spec_observers(),
                left.spec_observer().spec_get() as int,
            ) ==> step == seq![LeakageBlocker::MissingObserverClearance { index }]
            &&& same_shape && has_key(policy.spec_rules(), key) && has_key(
                policy.spec_observers(),
                left.spec_observer().spec_get() as int,
            ) && policy_rule(policy, key).spec_mode() is Prohibit ==> step == seq![
                LeakageBlocker::ProhibitedObservation { index },
            ]
        }),
{
}

/// A blocker of a position within the fold is a blocker of the fold.
proof fn lemma_fold_keeps(
    policy: LeakagePolicy,
    left: Seq<Observation>,
    right: Seq<Observation>,
    count: nat,
    i: nat,
    blocker: LeakageBlocker,
)
    requires
        i < count,
        observation_step(policy, i as u32, left[i as int], right[i as int], observation_fold(policy, left, right, i).1).0.contains(
            blocker,
        ),
    ensures
        observation_fold(policy, left, right, count).0.contains(blocker),
    decreases count,
{
    let prev = observation_fold(policy, left, right, (count - 1) as nat);
    let step = observation_step(
        policy,
        (count - 1) as u32,
        left[count - 1],
        right[count - 1],
        prev.1,
    ).0;
    if i == count - 1 {
        let k = choose|k: int| 0 <= k < step.len() && step[k] == blocker;
        assert((prev.0 + step)[prev.0.len() + k] == blocker);
    } else {
        lemma_fold_keeps(policy, left, right, (count - 1) as nat, i, blocker);
        let k = choose|k: int| 0 <= k < prev.0.len() && prev.0[k] == blocker;
        assert((prev.0 + step)[k] == blocker);
    }
}

/// Every blocker a position of the common prefix yields is a blocker of the
/// comparison, and the report cannot then be secure: it lists that blocker
/// unless it is already full.
pub proof fn lemma_position_blocker_reported(
    policy: LeakagePolicy,
    deployment: DeploymentContract,
    deployment_hash: Hash32,
    left: ObservationTrace,
    right: ObservationTrace,
    i: int,
    blocker: LeakageBlocker,
)
    requires
        0 <= i < left.spec_observations().len(),
        i < right.spec_observations().len(),
        i <= u32::MAX,
        observation_step(
            policy,
            i as u32,
            left.spec_observations()[i],
            right.spec_observations()[i],
            observation_fold(policy, left.spec_observations(), right.spec_observations(), i as nat).1,
        ).0.contains(blocker),
    ensures
        comparison_blockers(policy, deployment, deployment_hash, left, right).contains(blocker),
        retained(comparison_blockers(policy, deployment, deployment_hash, left, right)).len() > 0,
        retained(comparison_blockers(policy, deployment, deployment_hash, left, right)).contains(blocker)
            || retained(comparison_blockers(policy, deployment, deployment_hash, left, right)).len()
            == MAX_LEAKAGE_BLOCKERS,
{
    let l = left.spec_observations();
    let r = right.spec_observations();
    let count: nat = if l.len() <= r.len() {
        l.len()
    } else {
        r.len()
    };
    lemma_fold_keeps(policy, l, r, count, i as nat, blocker);
    let found = observation_fold(policy, l, r, count);
    let header = trace_header_blockers(policy, deployment, deployment_hash, left, right);
    let tail = leak_when(
        found.1 > policy.spec_max_total_declassified_bits(),
        LeakageBlocker::TotalDeclassificationBitsExceeded {
            observed: found.1,
            maximum: policy.spec_max_total_declassified_bits(),
        },
    );
    let all = comparison_blockers(policy, deployment, deployment_hash, left, right);
    assert(all == header + found.0 + tail);
    let k = choose|k: int| 0 <= k < found.0.len() && found.0[k] == blocker;
    assert(all[header.len() + k] == blocker);
    let p = header.len() + k;
    if p < MAX_LEAKAGE_BLOCKERS {
        assert(retained(all)[p] == blocker);
    }
}

/// Whenever two traces differ in an observed value at a position whose rule
/// compares values, the comparison finds a value mismatch for that position,
/// and the report cannot be secure: it lists that blocker unless it is
/// already full.
pub proof fn lemma_value_mismatch_reported(
    policy: LeakagePolicy,
    deployment: DeploymentContract,
    deployment_hash: Hash32,
    left: ObservationTrace,
    right: ObservationTrace,
    i: int,
)
    requires
        0 <= i < left.spec_observations().len(),
        i < right.spec_observations().len(),
        i <= u32::MAX,
        compared_values_differ(policy, left.spec_observations()[i], right.spec_observations()[i]),
    ensures
        comparison_blockers(policy, deployment, deployment_hash, left, right).contains(
            LeakageBlocker::ValueMismatch { index: i as u32 },
        ),
        retained(comparison_blockers(policy, deployment, deployment_hash, left, right)).len() > 0,
        retained(comparison_blockers(policy, deployment, deployment_hash, left, right)).contains(
            LeakageBlocker::ValueMismatch { index: i as u32 },
        ) || retained(comparison_blockers(policy, deployment, deployment_hash, left, right)).len()
            == MAX_LEAKAGE_BLOCKERS,
{
    let l = left.spec_observations();
    let r = right.spec_observations();
    lemma_value_mismatch_blocks_position(policy, i as u32, l[i], r[i], observation_fold(policy, l, r, i as nat).1);
    lemma_position_blocker_reported(
        policy,
        deployment,
        deployment_hash,
        left,
        right,
        i,
        LeakageBlocker::ValueMismatch { index: i as u32 },
    );
}

/// The aggregate released bits over the common prefix of two traces.
pub open spec fn comparison_bits(policy: LeakagePolicy, left: ObservationTrace, right: ObservationTrace) -> u64 {
    let count = if left.spec_observations().len() <= right.spec_observations().len() {
        left.spec_observations().len()
    } else {
        right.spec_observations().len()
    };
    observation_fold(policy, left.spec_observations(), right.spec_observations(), count).1
}

/// Records one blocker per required mitigation that the deployment does not declare.
fn note_missing_mitigations(policy: &LeakagePolicy, deployment: &DeploymentContract, blockers: &mut Vec<LeakageBlocker>)
    requires
        old(blockers)@.len() <= MAX_LEAKAGE_BLOCKERS,
    ensures
        final(blockers)@ == retained(
            old(blockers)@ + missing_mitigations(policy.spec_required_mitigations(), deployment.spec_mitigations()),
        ),
        final(blockers)@.len() <= MAX_LEAKAGE_BLOCKERS,
{
    let ghost start = blockers@;
    let ghost required = policy.spec_required_mitigations();
    let ghost declared = deployment.spec_mitigations();
    let mut index: usize = 0;
    assert(missing_mitigations(required.take(0), declared) =~= Seq::empty());
    assert(start + Seq::<LeakageBlocker>::empty() =~= start);
    while index < policy.required_mitigations.len()
        invariant
            index <= required.len(),
            required == policy.required_mitigations@,
            declared == deployment.spec_mitigations(),
            blockers@ == retained(start + missing_mitigations(required.take(index as int), declared)),
            blockers@.len() <= MAX_LEAKAGE_BLOCKERS,
        decreases required.len() - index,
    {
        let mitigation = policy.required_mitigations[index];
        let ghost before = missing_mitigations(required.take(index as int), declared);
        let ghost step = leak_when(!declared.contains(mitigation), LeakageBlocker::MissingMitigation(mitigation));
        note_leak(blockers, !deployment.has_mitigation(mitigation), LeakageBlocker::MissingMitigation(mitigation));
        proof {
            lemma_retained_absorbs(start + before, step);
            assert(required.take(index + 1).drop_last() =~= required.take(index as int));
            assert(missing_mitigations(required.take(index + 1), declared) == before + step);
            assert(start + (before + step) =~= start + before + step);
        }
        index = index + 1;
    }
    assert(required.take(required.len() as int) =~= required);
}

/// Compares two executions of the same public input under different secret
/// variants.
///
/// The report carries the deployment commitment computed with `H` (the zero
/// commitment if it cannot be computed), the aggregate explicitly released
/// bits over the positions both traces share, and every blocker in
/// evaluation order, capped at `MAX_LEAKAGE_BLOCKERS`.
pub fn compare_traces<H: CommitmentHasher>(
    policy: &LeakagePolicy,
    deployment: &DeploymentContract,
    left: &ObservationTrace,
    right: &ObservationTrace,
) -> (report: LeakageReport)
    ensures
        report.spec_blockers() == retained(
            comparison_blockers(*policy, *deployment, report.spec_deployment_hash(), *left, *right),
        ),
        report.spec_declassified_bits() == comparison_bits(*policy, *left, *right),
        report.spec_deployment_hash() == H::spec_hash(
            commitment_preimage(security_domain(SecurityDomainLabel::Deployment), 1, deployment.spec_encoding()),
        ),
        forall|i: int|
            0 <= i < left.spec_observations().len() && i < right.spec_observations().len() && i <= u32::MAX
                && #[trigger] compared_values_differ(
                *policy,
                left.spec_observations()[i],
                right.spec_observations()[i],
            ) ==> report.spec_blockers().len() > 0 && (report.spec_blockers().contains(
            LeakageBlocker::ValueMismatch { index: i as u32 },
        ) || report.spec_blockers().len() == MAX_LEAKAGE_BLOCKERS),
{
    proof {
        use_type_invariant(left);
        use_type_invariant(right);
    }
    let deployment_hash = match deployment.commitment::<H>() {
        Ok(hash) => hash,
        Err(_) => Hash32::zero(),
    };
    let mut blockers: Vec<LeakageBlocker> = Vec::new();
    let ghost p1 = leak_when(
        deployment_hash.spec_bytes() != policy.spec_deployment_contract_hash().spec_bytes(),
        LeakageBlocker::DeploymentMismatch,
    );
    let ghost p2 = missing_mitigations(policy.spec_required_mitigations(), deployment.spec_mitigations());
    let ghost p3 = leak_when(
        left.spec_public_input_hash().spec_bytes() != right.spec_public_input_hash().spec_bytes(),
        LeakageBlocker::PublicInputMismatch,
    );
    let ghost p4 = leak_when(
        left.spec_secret_variant_hash().spec_bytes() == right.spec_secret_variant_hash().spec_bytes(),
        LeakageBlocker::SameSecretVariant,
    );
    note_leak(&mut blockers, deployment_hash != policy.deployment_contract_hash, LeakageBlocker::DeploymentMismatch);
    assert(Seq::<LeakageBlocker>::empty() + p1 =~= p1);
    note_missing_mitigations(policy, deployment, &mut blockers);
    proof {
        lemma_retained_absorbs(p1, p2);
    }
    note_leak(&mut blockers, left.public_input_hash != right.public_input_hash, LeakageBlocker::PublicInputMismatch);
    proof {
        lemma_retained_absorbs(p1 + p2, p3);
    }
    note_leak(&mut blockers, left.secret_variant_hash == right.secret_variant_hash, LeakageBlocker::SameSecretVariant);
    proof {
        lemma_retained_absorbs(p1 + p2 + p3, p4);
    }
    let left_count = left.observations.len();
    let right_count = right.observations.len();
    let ghost p5 = leak_when(
        left.spec_observations().len() != right.spec_observations().len(),
        LeakageBlocker::TraceLengthMismatch {
            left: saturated_count(left.spec_observations().len()),
            right: saturated_count(right.spec_observations().len()),
        },
    );
    note_leak(
        &mut blockers,
        left_count != right_count,
        LeakageBlocker::TraceLengthMismatch { left: left_count as u32, right: right_count as u32 },
    );
    let ghost header = trace_header_blockers(*policy, *deployment, deployment_hash, *left, *right);
    proof {
        lemma_retained_absorbs(p1 + p2 + p3 + p4, p5);
        assert(header =~= p1 + p2 + p3 + p4 + p5);
        assert(header + Seq::<LeakageBlocker>::empty() =~= header);
    }
    let count = if left_count <= right_count {
        left_count
    } else {
        right_count
    };
    let ghost lefts = left.spec_observations();
    let ghost rights = right.spec_observations();
    let mut bits: u64 = 0;
    let mut index: usize = 0;
    while index < count
        invariant
            index <= count,
            count <= lefts.len(),
            count <= rights.len(),
            count <= MAX_OBSERVATIONS,
            lefts == left.observations@,
            rights == right.observations@,
            blockers@ == retained(header + observation_fold(*policy, lefts, rights, index as nat).0),
            bits == observation_fold(*policy, lefts, rights, index as nat).1,
            blockers@.len() <= MAX_LEAKAGE_BLOCKERS,
        decreases count - index,
    {
        let ghost before = observation_fold(*policy, lefts, rights, index as nat).0;
        let ghost step = observation_step(*policy, index as u32, lefts[index as int], rights[index as int], bits);
        bits = compare_position(
            policy,
            index as u32,
            &left.observations[index],
            &right.observations[index],
            bits,
            &mut blockers,
        );
        proof {
            lemma_retained_absorbs(header + before, step.0);
            assert(observation_fold(*policy, lefts, rights, (index + 1) as nat).0 == before + step.0);
            assert(header + (before + step.0) =~= header + before + step.0);
        }
        index = index + 1;
    }
    let maximum = policy.max_total_declassified_bits;
    let ghost found = observation_fold(*policy, lefts, rights, count as nat).0;
    let ghost last = leak_when(bits > maximum, LeakageBlocker::TotalDeclassificationBitsExceeded { observed: bits, maximum });
    note_leak(
        &mut blockers,
        bits > maximum,
        LeakageBlocker::TotalDeclassificationBitsExceeded { observed: bits, maximum },
    );
    proof {
        lemma_retained_absorbs(header + found, last);
    }
    let report = LeakageReport { deployment_hash, declassified_bits: bits, blockers };
    proof {
        assert forall|i: int|
            0 <= i < left.spec_observations().len() && i < right.spec_observations().len() && i <= u32::MAX
                && #[trigger] compared_values_differ(
                *policy,
                left.spec_observations()[i],
                right.spec_observations()[i],
            ) implies report.spec_blockers().len() > 0 && (report.spec_blockers().contains(
            LeakageBlocker::ValueMismatch { index: i as u32 },
        ) || report.spec_blockers().len() == MAX_LEAKAGE_BLOCKERS) by {
            lemma_value_mismatch_reported(*policy, *deployment, deployment_hash, *left, *right, i);
        }
    }
    report
}

} // verus!

//! Exact runtime-to-model refinement reports and promotion policies.
//!
//! A mounted runtime is normalized into the same data-only decision surface as
//! the model, and refinement compares every authority-bearing artifact, not
//! merely the final state root.

use vstd::prelude::*;

pub mod promotion;
pub mod validated;
use vstd::string::StringSliceAdditionalSpecFns;
use vstd::utf8::{encode_utf8, is_ascii_chars};

use crate::commit::Hash32;
use crate::patch::PatchError;
use crate::receipt::{receipt_encoding, CommitBundle, ReceiptDecodeError, RejectReceipt};
use crate::encode::{
    be32, encode_all, encode_each, put_bytes, put_u32, put_u8, EncodeError, Encodable,
};
use crate::sort::{
    canonical_order, first_adjacent_duplicate, has_duplicate_key, lemma_canonical_order,
    lemma_duplicate_key_multiset, sort_by_key, strictly_sorted_by_key, Keyed,
};

verus! {

/// Longest admitted stable reason, in bytes.
pub const MAX_REASON_BYTES: usize = 96;

/// Largest admitted canonical artifact, in bytes.
pub const MAX_ARTIFACT_BYTES: usize = 67108864;

/// Most tool kinds one promotion policy may require.
pub const MAX_TOOL_EVIDENCE: usize = 64;

/// Semantic decision kind of one transition.
#[derive(Clone, Copy, Debug, PartialEq, Eq, Structural, Hash)]
pub enum DecisionKind {
    /// The command was accepted with a candidate.
    Accept,
    /// The command was rejected without any change.
    Reject,
    /// A failure was committed with a reason and a candidate.
    CommittedFailure,
}

/// Complete untrusted transport surface for one decision.
#[derive(Clone, Debug, PartialEq, Eq)]
pub struct DecisionArtifacts {
    /// Semantic decision kind.
    pub kind: DecisionKind,
    /// Stable rejection or committed-failure reason.
    pub reason_code: Option<String>,
    /// Protocol/profile identity.
    pub profile_hash: Hash32,
    /// Authenticated command commitment.
    pub command_hash: Hash32,
    /// Context, policy, and evidence commitment.
    pub context_hash: Hash32,
    /// Stable precedence profile.
    pub precedence_hash: Hash32,
    /// Algorithm and codec versions.
    pub algorithm_hash: Hash32,
    /// Deterministic budget limits and consumption.
    pub budget_hash: Hash32,
    /// Pre-state root.
    pub pre_root: Hash32,
    /// Post-state root.
    pub post_root: Hash32,
    /// Candidate identity for accepted or committed-failure decisions.
    pub candidate_id: Option<Hash32>,
    /// Canonical patch bytes.
    pub patch_bytes: Option<Vec<u8>>,
    /// Canonical authoritative plan bytes.
    pub commit_plan_bytes: Option<Vec<u8>>,
    /// Canonical outbox plan bytes.
    pub outbox_plan_bytes: Option<Vec<u8>>,
    /// Canonical receipt bytes.
    pub receipt_bytes: Vec<u8>,
    /// Canonical complete bundle bytes.
    pub bundle_bytes: Option<Vec<u8>>,
}

/// The characters of an optional text.
pub open spec fn text_view(text: Option<String>) -> Option<Seq<char>> {
    match text {
        Some(t) => Some(t@),
        None => None,
    }
}

/// The bytes of an optional byte string.
pub open spec fn bytes_view(bytes: Option<Vec<u8>>) -> Option<Seq<u8>> {
    match bytes {
        Some(b) => Some(b@),
        None => None,
    }
}

/// The bytes of an optional commitment.
pub open spec fn hash_view(hash: Option<Hash32>) -> Option<Seq<u8>> {
    match hash {
        Some(h) => Some(h.spec_bytes()),
        None => None,
    }
}

/// An optional byte string within the artifact bound.
pub open spec fn artifact_fits(bytes: Option<Seq<u8>>) -> bool {
    match bytes {
        Some(b) => b.len() <= MAX_ARTIFACT_BYTES,
        None => true,
    }
}

/// A reason is nonempty ASCII of at most 96 bytes.
pub open spec fn is_reason_text(reason: Seq<char>) -> bool {
    is_ascii_chars(reason) && reason.len() >= 1 && encode_utf8(reason).len() <= MAX_REASON_BYTES
}

/// Acceptances carry no reason; rejections and committed failures carry a
/// well-formed one.
pub open spec fn reason_admissible(kind: DecisionKind, reason: Option<Seq<char>>) -> bool {
    match reason {
        Some(r) => is_reason_text(r) && kind != DecisionKind::Accept,
        None => kind == DecisionKind::Accept,
    }
}

/// Failure of decision normalization or promotion-evidence construction.
#[derive(Clone, Debug, PartialEq, Eq)]
pub enum RefineError {
    /// Reason is absent, present in the wrong decision, non-ASCII, empty, or too long.
    InvalidReasonCode,
    /// Rejection changed state.
    RejectedStateChanged,
    /// Rejection carried candidate artifacts.
    RejectedCandidatePresent,
    /// Accepted or committed-failure decision omitted an authority artifact.
    CommittedArtifactMissing,
    /// One canonical artifact exceeds its bound.
    ArtifactTooLarge,
    /// Canonical encoding failed.
    Encode(EncodeError),
    /// Strict receipt or complete-bundle reconstruction failed.
    ReceiptDecode(ReceiptDecodeError),
    /// Exact pre-state root derivation failed.
    Patch(PatchError),
    /// The submitted artifact is not rooted in the supplied exact pre-state.
    UnexpectedPreRoot,
    /// Reconstructed candidate bindings differ from the external invocation.
    InvocationBindingMismatch,
    /// Strictly reconstructed artifacts do not equal the complete transport value.
    ArtifactReconstructionMismatch,
    /// Model and runtime decisions were validated for different invocations.
    ValidationBindingMismatch,
    /// A validated artifact was reused under another approved provider.
    ProviderBindingMismatch,
    /// Promotion policy has duplicate or excessive tool requirements.
    InvalidPromotionPolicy,
    /// Evidence exceeds its case or tool bound.
    EvidenceTooLarge,
    /// Case identifier is duplicated.
    DuplicateCase,
    /// More than one validated case represents the same exact input.
    DuplicateCaseInput,
    /// A validated case belongs to another profile.
    CaseProfileMismatch,
    /// The exact validated case set differs from the canonical domain manifest.
    DomainCaseMismatch,
    /// The finite-domain manifest is zero, excessive, duplicate, or noncanonical.
    InvalidDomainManifest,
    /// Bounded validated coverage is empty or exceeds its declared budget.
    InvalidBoundedCoverage,
    /// A proof-assisted claim is zero or otherwise inadmissible.
    InvalidProofClaim,
    /// Source revision or importer identity is absent.
    InvalidPromotionContext,
    /// The strict promotion profile identity is absent.
    InvalidPromotionProfile,
    /// The external proof verifier omitted its implementation identity.
    InvalidVerifierIdentity,
    /// More than one artifact claims the same evidence kind.
    DuplicateToolEvidence,
}

impl RefineError {
    /// Returns the human-readable description.
    pub fn message(&self) -> (text: &'static str)
        ensures
            text == (match *self {
                RefineError::InvalidReasonCode => "invalid decision reason code",
                RefineError::RejectedStateChanged => "rejected decision changed state",
                RefineError::RejectedCandidatePresent => "rejected decision carried candidate artifacts",
                RefineError::CommittedArtifactMissing => "committed decision omitted an authority artifact",
                RefineError::ArtifactTooLarge => "canonical authority artifact exceeds its bound",
                RefineError::Encode(_) => "canonical encoding failed",
                RefineError::ReceiptDecode(_) => "strict receipt or bundle reconstruction failed",
                RefineError::Patch(_) => "exact pre-state root derivation failed",
                RefineError::UnexpectedPreRoot => "decision is not rooted in the exact supplied pre-state",
                RefineError::InvocationBindingMismatch => "decision differs from the exact external invocation binding",
                RefineError::ArtifactReconstructionMismatch => "strictly reconstructed artifacts differ from the transport decision",
                RefineError::ValidationBindingMismatch => "model and runtime validation bindings differ",
                RefineError::ProviderBindingMismatch => "validated artifact provider binding differs",
                RefineError::InvalidPromotionPolicy => "invalid promotion policy",
                RefineError::EvidenceTooLarge => "promotion evidence exceeds its bound",
                RefineError::DuplicateCase => "refinement case is duplicated",
                RefineError::DuplicateCaseInput => "refinement input is duplicated",
                RefineError::CaseProfileMismatch => "validated refinement case belongs to another profile",
                RefineError::DomainCaseMismatch => "validated case set differs from the domain manifest",
                RefineError::InvalidDomainManifest => "invalid exhaustive-domain manifest",
                RefineError::InvalidBoundedCoverage => "invalid bounded validated coverage",
                RefineError::InvalidProofClaim => "invalid proof-assisted claim",
                RefineError::InvalidPromotionContext => "invalid promotion evaluation context",
                RefineError::InvalidPromotionProfile => "invalid promotion profile identity",
                RefineError::InvalidVerifierIdentity => "invalid proof-verifier identity",
                RefineError::DuplicateToolEvidence => "tool evidence kind is duplicated",
            }),
    {
        match self {
            RefineError::InvalidReasonCode => "invalid decision reason code",
            RefineError::RejectedStateChanged => "rejected decision changed state",
            RefineError::RejectedCandidatePresent => "rejected decision carried candidate artifacts",
            RefineError::CommittedArtifactMissing => "committed decision omitted an authority artifact",
            RefineError::ArtifactTooLarge => "canonical authority artifact exceeds its bound",
            RefineError::Encode(_) => "canonical encoding failed",
            RefineError::ReceiptDecode(_) => "strict receipt or bundle reconstruction failed",
            RefineError::Patch(_) => "exact pre-state root derivation failed",
            RefineError::UnexpectedPreRoot => "decision is not rooted in the exact supplied pre-state",
            RefineError::InvocationBindingMismatch => "decision differs from the exact external invocation binding",
            RefineError::ArtifactReconstructionMismatch => "strictly reconstructed artifacts differ from the transport decision",
            RefineError::ValidationBindingMismatch => "model and runtime validation bindings differ",
            RefineError::ProviderBindingMismatch => "validated artifact provider binding differs",
            RefineError::InvalidPromotionPolicy => "invalid promotion policy",
            RefineError::EvidenceTooLarge => "promotion evidence exceeds its bound",
            RefineError::DuplicateCase => "refinement case is duplicated",
            RefineError::DuplicateCaseInput => "refinement input is duplicated",
            RefineError::CaseProfileMismatch => "validated refinement case belongs to another profile",
            RefineError::DomainCaseMismatch => "validated case set differs from the domain manifest",
            RefineError::InvalidDomainManifest => "invalid exhaustive-domain manifest",
            RefineError::InvalidBoundedCoverage => "invalid bounded validated coverage",
            RefineError::InvalidProofClaim => "invalid proof-assisted claim",
            RefineError::InvalidPromotionContext => "invalid promotion evaluation context",
            RefineError::InvalidPromotionProfile => "invalid promotion profile identity",
            RefineError::InvalidVerifierIdentity => "invalid proof-verifier identity",
            RefineError::DuplicateToolEvidence => "tool evidence kind is duplicated",
        }
    }
}

/// The surface a sealed bundle normalizes to.
pub open spec fn bundle_artifacts(bundle: &CommitBundle, a: DecisionArtifacts) -> bool {
    let body = bundle.spec_body();
    &&& a.kind == body.decision_kind
    &&& text_view(a.reason_code) == body.reason_code
    &&& a.profile_hash == body.bindings.profile_hash
    &&& a.command_hash == body.bindings.command_hash
    &&& a.context_hash == body.bindings.context_hash
    &&& a.precedence_hash == body.bindings.precedence_hash
    &&& a.algorithm_hash == body.bindings.algorithm_hash
    &&& a.budget_hash == body.bindings.budget_hash
    &&& a.pre_root == body.pre_root
    &&& a.post_root == body.post_root
    &&& a.candidate_id == Some(bundle.spec_candidate_id().spec_hash())
    &&& bytes_view(a.patch_bytes) == Some(bundle.spec_patch().spec_encoding())
    &&& bytes_view(a.commit_plan_bytes) == Some(bundle.spec_commit_plan().spec_encoding())
    &&& bytes_view(a.outbox_plan_bytes) == Some(bundle.spec_outbox_plan().spec_encoding())
    &&& a.receipt_bytes@ == receipt_encoding(bundle.spec_candidate_id(), body)
    &&& bytes_view(a.bundle_bytes) == Some(bundle.spec_encoding())
}

/// The surface a rejection receipt normalizes to.
pub open spec fn reject_artifacts(receipt: &RejectReceipt, a: DecisionArtifacts) -> bool {
    let bindings = receipt.spec_bindings();
    &&& a.kind == DecisionKind::Reject
    &&& text_view(a.reason_code) == Some(receipt.spec_reason())
    &&& a.profile_hash == bindings.profile_hash
    &&& a.command_hash == bindings.command_hash
    &&& a.context_hash == bindings.context_hash
    &&& a.precedence_hash == bindings.precedence_hash
    &&& a.algorithm_hash == bindings.algorithm_hash
    &&& a.budget_hash == bindings.budget_hash
    &&& a.pre_root == receipt.spec_pre_root()
    &&& a.post_root == receipt.spec_pre_root()
    &&& a.candidate_id is None
    &&& a.patch_bytes is None
    &&& a.commit_plan_bytes is None
    &&& a.outbox_plan_bytes is None
    &&& a.receipt_bytes@ == receipt.spec_encoding()
    &&& a.bundle_bytes is None
}

/// Why a decision surface is refused, if it is: the reason, the artifact
/// bound, then the shape its kind demands.
pub open spec fn decision_error(a: DecisionArtifacts) -> Option<RefineError> {
    if !reason_admissible(a.kind, text_view(a.reason_code)) {
        Some(RefineError::InvalidReasonCode)
    } else if !(artifact_fits(bytes_view(a.patch_bytes)) && artifact_fits(
        bytes_view(a.commit_plan_bytes),
    ) && artifact_fits(bytes_view(a.outbox_plan_bytes)) && a.receipt_bytes@.len()
        <= MAX_ARTIFACT_BYTES && artifact_fits(bytes_view(a.bundle_bytes))) {
        Some(RefineError::ArtifactTooLarge)
    } else if a.kind == DecisionKind::Reject {
        if a.pre_root.spec_bytes() != a.post_root.spec_bytes() {
            Some(RefineError::RejectedStateChanged)
        } else if a.candidate_id is Some || a.patch_bytes is Some || a.commit_plan_bytes is Some
            || a.outbox_plan_bytes is Some || a.bundle_bytes is Some {
            Some(RefineError::RejectedCandidatePresent)
        } else {
            None
        }
    } else if a.candidate_id is None || a.patch_bytes is None || a.commit_plan_bytes is None
        || a.outbox_plan_bytes is None || a.bundle_bytes is None {
        Some(RefineError::CommittedArtifactMissing)
    } else {
        None
    }
}

fn check_reason(kind: DecisionKind, reason: &Option<String>) -> (admissible: bool)
    ensures
        admissible == reason_admissible(kind, text_view(*reason)),
{
    match reason {
        Some(owned) => {
            let text = owned.as_str();
            assert(text@ == owned@);
            let length = text.as_bytes().len();
            if !text.is_ascii() || length == 0 || length > MAX_REASON_BYTES {
                proof {
                    if is_reason_text(text@) {
                        vstd::utf8::is_ascii_chars_encode_utf8(text@);
                    }
                }
                return false;
            }
            proof {
                vstd::utf8::is_ascii_chars_encode_utf8(text@);
                assert(text_view(*reason) == Some(text@));
            }
            match kind {
                DecisionKind::Accept => false,
                _ => true,
            }
        },
        None => match kind {
            DecisionKind::Accept => true,
            _ => false,
        },
    }
}

fn optional_fits(bytes: &Option<Vec<u8>>) -> (fits: bool)
    ensures
        fits == artifact_fits(bytes_view(*bytes)),
{
    match bytes {
        Some(b) => b.len() <= MAX_ARTIFACT_BYTES,
        None => true,
    }
}

/// Bounded untrusted normalized decision suitable for diagnostic comparison.
#[derive(Debug, PartialEq, Eq)]
pub struct NormalizedDecision {
    artifacts: DecisionArtifacts,
}

impl NormalizedDecision {
    /// Every normalized decision passed the admission rules.
    #[verifier::type_invariant]
    spec fn admitted(self) -> bool {
        decision_error(self.artifacts) is None
    }

    /// The normalized artifacts.
    pub closed spec fn spec_artifacts(self) -> DecisionArtifacts {
        self.artifacts
    }

    /// Validates one normalized decision surface.
    pub fn try_new(artifacts: DecisionArtifacts) -> (decision: Result<Self, RefineError>)
        ensures
            match decision_error(artifacts) {
                Some(e) => decision == Err::<Self, RefineError>(e),
                None => decision matches Ok(d) && d.spec_artifacts() == artifacts,
            },
    {
        if !check_reason(artifacts.kind, &artifacts.reason_code) {
            return Err(RefineError::InvalidReasonCode);
        }
        if !(optional_fits(&artifacts.patch_bytes) && optional_fits(&artifacts.commit_plan_bytes)
            && optional_fits(&artifacts.outbox_plan_bytes) && artifacts.receipt_bytes.len()
            <= MAX_ARTIFACT_BYTES && optional_fits(&artifacts.bundle_bytes)) {
            return Err(RefineError::ArtifactTooLarge);
        }
        match artifacts.kind {
            DecisionKind::Reject => {
                if artifacts.pre_root != artifacts.post_root {
                    return Err(RefineError::RejectedStateChanged);
                }
                if artifacts.candidate_id.is_some() || artifacts.patch_bytes.is_some()
                    || artifacts.commit_plan_bytes.is_some() || artifacts.outbox_plan_bytes.is_some()
                    || artifacts.bundle_bytes.is_some() {
                    return Err(RefineError::RejectedCandidatePresent);
                }
            },
            _ => {
                if artifacts.candidate_id.is_none() || artifacts.patch_bytes.is_none()
                    || artifacts.commit_plan_bytes.is_none() || artifacts.outbox_plan_bytes.is_none()
                    || artifacts.bundle_bytes.is_none() {
                    return Err(RefineError::CommittedArtifactMissing);
                }
            },
        }
        Ok(NormalizedDecision { artifacts })
    }

    /// Normalizes one sealed accepted or committed-failure bundle: its body's
    /// kind, reason, bindings and roots, its identity, and the canonical
    /// bytes of every component, the receipt and the whole bundle.
    pub fn from_bundle(bundle: &CommitBundle) -> (decision: Result<Self, RefineError>)
        ensures
            !bundle.spec_encodable() ==> decision == Err::<Self, RefineError>(RefineError::Encode(EncodeError::LengthOverflow)),
            bundle.spec_encodable() ==> exists|a: DecisionArtifacts|
                #[trigger] bundle_artifacts(bundle, a) && match decision_error(a) {
                    Some(e) => decision == Err::<Self, RefineError>(e),
                    None => decision matches Ok(d) && d.spec_artifacts() == a,
                },
    {
        let body = bundle.body();
        let bindings = body.bindings();
        let receipt = bundle.receipt();
        let reason_code = match body.reason_code() {
            Some(code) => Some(code.as_str().to_owned()),
            None => None,
        };
        let patch_bytes = match bundle.patch().canonical_bytes() {
            Ok(bytes) => bytes,
            Err(error) => return Err(RefineError::Encode(error)),
        };
        let commit_plan_bytes = match bundle.commit_plan().canonical_bytes() {
            Ok(bytes) => bytes,
            Err(error) => return Err(RefineError::Encode(error)),
        };
        let outbox_plan_bytes = match bundle.outbox_plan().canonical_bytes() {
            Ok(bytes) => bytes,
            Err(error) => return Err(RefineError::Encode(error)),
        };
        let receipt_bytes = match receipt.canonical_bytes() {
            Ok(bytes) => bytes,
            Err(error) => return Err(RefineError::Encode(error)),
        };
        let bundle_bytes = match bundle.canonical_bytes() {
            Ok(bytes) => bytes,
            Err(error) => return Err(RefineError::Encode(error)),
        };
        let artifacts = DecisionArtifacts {
            kind: body.decision_kind(),
            reason_code,
            profile_hash: bindings.profile_hash,
            command_hash: bindings.command_hash,
            context_hash: bindings.context_hash,
            precedence_hash: bindings.precedence_hash,
            algorithm_hash: bindings.algorithm_hash,
            budget_hash: bindings.budget_hash,
            pre_root: body.pre_root(),
            post_root: body.post_root(),
            candidate_id: Some(bundle.candidate_id().hash()),
            patch_bytes: Some(patch_bytes),
            commit_plan_bytes: Some(commit_plan_bytes),
            outbox_plan_bytes: Some(outbox_plan_bytes),
            receipt_bytes,
            bundle_bytes: Some(bundle_bytes),
        };
        let ghost witness = artifacts;
        assert(bundle_artifacts(bundle, witness));
        Self::try_new(artifacts)
    }

    /// Normalizes an unchanged-state rejection receipt.
    pub fn from_reject(receipt: &RejectReceipt) -> (decision: Result<Self, RefineError>)
        ensures
            exists|a: DecisionArtifacts|
                #[trigger] reject_artifacts(receipt, a) && match decision_error(a) {
                    Some(e) => decision == Err::<Self, RefineError>(e),
                    None => decision matches Ok(d) && d.spec_artifacts() == a,
                },
    {
        let bindings = receipt.bindings();
        let receipt_bytes = match receipt.canonical_bytes() {
            Ok(bytes) => bytes,
            Err(error) => return Err(RefineError::Encode(error)),
        };
        let artifacts = DecisionArtifacts {
            kind: DecisionKind::Reject,
            reason_code: Some(receipt.reason_code().as_str().to_owned()),
            profile_hash: bindings.profile_hash,
            command_hash: bindings.command_hash,
            context_hash: bindings.context_hash,
            precedence_hash: bindings.precedence_hash,
            algorithm_hash: bindings.algorithm_hash,
            budget_hash: bindings.budget_hash,
            pre_root: receipt.pre_root(),
            post_root: receipt.post_root(),
            candidate_id: None,
            patch_bytes: None,
            commit_plan_bytes: None,
            outbox_plan_bytes: None,
            receipt_bytes,
            bundle_bytes: None,
        };
        let ghost witness = artifacts;
        assert(reject_artifacts(receipt, witness));
        Self::try_new(artifacts)
    }

    /// Returns normalized artifacts.
    pub fn artifacts(&self) -> (artifacts: &DecisionArtifacts)
        ensures
            *artifacts == self.spec_artifacts(),
            decision_error(*artifacts) is None,
    {
        proof {
            use_type_invariant(self);
        }
        &self.artifacts
    }
}

/// One exact runtime/model disagreement.
#[derive(Clone, Copy, Debug, PartialEq, Eq, Structural, Hash)]
pub enum Mismatch {
    /// Decision kind differs.
    DecisionKind,
    /// Stable reason differs.
    ReasonCode,
    /// Profile differs.
    ProfileHash,
    /// Command binding differs.
    CommandHash,
    /// Context binding differs.
    ContextHash,
    /// Precedence profile differs.
    PrecedenceHash,
    /// Algorithm profile differs.
    AlgorithmHash,
    /// Budget binding differs.
    BudgetHash,
    /// Pre-root differs.
    PreRoot,
    /// Post-root differs.
    PostRoot,
    /// Candidate identity differs.
    CandidateId,
    /// Patch bytes differ.
    PatchBytes,
    /// Commit-plan bytes differ.
    CommitPlanBytes,
    /// Outbox-plan bytes differ.
    OutboxPlanBytes,
    /// Receipt bytes differ.
    ReceiptBytes,
    /// Complete bundle bytes differ.
    BundleBytes,
}

/// The single mismatch when the artifacts differ, otherwise nothing.
pub open spec fn mismatch_when(differ: bool, mismatch: Mismatch) -> Seq<Mismatch> {
    if differ {
        seq![mismatch]
    } else {
        Seq::empty()
    }
}

/// Every differing artifact of two decision surfaces, in artifact order.
pub open spec fn artifact_mismatches(left: DecisionArtifacts, right: DecisionArtifacts) -> Seq<Mismatch> {
    mismatch_when(left.kind != right.kind, Mismatch::DecisionKind)
        + mismatch_when(text_view(left.reason_code) != text_view(right.reason_code), Mismatch::ReasonCode)
        + mismatch_when(left.profile_hash.spec_bytes() != right.profile_hash.spec_bytes(), Mismatch::ProfileHash)
        + mismatch_when(left.command_hash.spec_bytes() != right.command_hash.spec_bytes(), Mismatch::CommandHash)
        + mismatch_when(left.context_hash.spec_bytes() != right.context_hash.spec_bytes(), Mismatch::ContextHash)
        + mismatch_when(left.precedence_hash.spec_bytes() != right.precedence_hash.spec_bytes(), Mismatch::PrecedenceHash)
        + mismatch_when(left.algorithm_hash.spec_bytes() != right.algorithm_hash.spec_bytes(), Mismatch::AlgorithmHash)
        + mismatch_when(left.budget_hash.spec_bytes() != right.budget_hash.spec_bytes(), Mismatch::BudgetHash)
        + mismatch_when(left.pre_root.spec_bytes() != right.pre_root.spec_bytes(), Mismatch::PreRoot)
        + mismatch_when(left.post_root.spec_bytes() != right.post_root.spec_bytes(), Mismatch::PostRoot)
        + mismatch_when(hash_view(left.candidate_id) != hash_view(right.candidate_id), Mismatch::CandidateId)
        + mismatch_when(bytes_view(left.patch_bytes) != bytes_view(right.patch_bytes), Mismatch::PatchBytes)
        + mismatch_when(bytes_view(left.commit_plan_bytes) != bytes_view(right.commit_plan_bytes), Mismatch::CommitPlanBytes)
        + mismatch_when(bytes_view(left.outbox_plan_bytes) != bytes_view(right.outbox_plan_bytes), Mismatch::OutboxPlanBytes)
        + mismatch_when(left.receipt_bytes@ != right.receipt_bytes@, Mismatch::ReceiptBytes)
        + mismatch_when(bytes_view(left.bundle_bytes) != bytes_view(right.bundle_bytes), Mismatch::BundleBytes)
}

/// Exact refinement comparison result.
#[derive(Clone, Debug, PartialEq, Eq)]
pub struct RefinementReport {
    mismatches: Vec<Mismatch>,
}

impl RefinementReport {
    /// Every differing authority artifact.
    pub closed spec fn spec_mismatches(self) -> Seq<Mismatch> {
        self.mismatches@
    }

    /// Returns whether the runtime exactly refines the compared model result.
    pub fn is_exact(&self) -> (exact: bool)
        ensures
            exact == (self.spec_mismatches().len() == 0),
    {
        self.mismatches.len() == 0
    }

    /// Returns every differing authority artifact.
    pub fn mismatches(&self) -> (mismatches: &[Mismatch])
        ensures
            mismatches@ == self.spec_mismatches(),
    {
        self.mismatches.as_slice()
    }

    /// Takes the differing artifacts out of the report.
    pub(crate) fn into_mismatches(self) -> (mismatches: Vec<Mismatch>)
        ensures
            mismatches@ == self.spec_mismatches(),
    {
        self.mismatches
    }
}

fn same_bytes(left: &[u8], right: &[u8]) -> (same: bool)
    ensures
        same == (left@ == right@),
{
    if left.len() != right.len() {
        return false;
    }
    let mut index: usize = 0;
    while index < left.len()
        invariant
            left@.len() == right@.len(),
            index <= left@.len(),
            forall|i: int| 0 <= i < index ==> left@[i] == right@[i],
        decreases left@.len() - index,
    {
        if left[index] != right[index] {
            return false;
        }
        index = index + 1;
    }
    assert(left@ =~= right@);
    true
}

fn same_optional_bytes(left: &Option<Vec<u8>>, right: &Option<Vec<u8>>) -> (same: bool)
    ensures
        same == (bytes_view(*left) == bytes_view(*right)),
{
    match (left, right) {
        (Some(l), Some(r)) => same_bytes(l.as_slice(), r.as_slice()),
        (None, None) => true,
        _ => false,
    }
}

fn same_optional_text(left: &Option<String>, right: &Option<String>) -> (same: bool)
    ensures
        same == (text_view(*left) == text_view(*right)),
{
    match (left, right) {
        (Some(l), Some(r)) => *l == *r,
        (None, None) => true,
        _ => false,
    }
}

fn same_optional_hash(left: &Option<Hash32>, right: &Option<Hash32>) -> (same: bool)
    ensures
        same == (hash_view(*left) == hash_view(*right)),
{
    match (left, right) {
        (Some(l), Some(r)) => *l == *r,
        (None, None) => true,
        _ => false,
    }
}

fn note_mismatch(mismatches: &mut Vec<Mismatch>, same: bool, mismatch: Mismatch)
    ensures
        final(mismatches)@ == old(mismatches)@ + mismatch_when(!same, mismatch),
{
    if !same {
        mismatches.push(mismatch);
    }
    assert(mismatches@ =~= old(mismatches)@ + mismatch_when(!same, mismatch));
}

/// Compares the complete normalized decision surface.
pub fn compare_exact(model: &NormalizedDecision, runtime: &NormalizedDecision) -> (report:
    RefinementReport)
    ensures
        report.spec_mismatches() == artifact_mismatches(
            model.spec_artifacts(),
            runtime.spec_artifacts(),
        ),
{
    let left = model.artifacts();
    let right = runtime.artifacts();
    let mut mismatches: Vec<Mismatch> = Vec::new();
    note_mismatch(&mut mismatches, left.kind == right.kind, Mismatch::DecisionKind);
    note_mismatch(&mut mismatches, same_optional_text(&left.reason_code, &right.reason_code), Mismatch::ReasonCode);
    note_mismatch(&mut mismatches, left.profile_hash == right.profile_hash, Mismatch::ProfileHash);
    note_mismatch(&mut mismatches, left.command_hash == right.command_hash, Mismatch::CommandHash);
    note_mismatch(&mut mismatches, left.context_hash == right.context_hash, Mismatch::ContextHash);
    note_mismatch(&mut mismatches, left.precedence_hash == right.precedence_hash, Mismatch::PrecedenceHash);
    note_mismatch(&mut mismatches, left.algorithm_hash == right.algorithm_hash, Mismatch::AlgorithmHash);
    note_mismatch(&mut mismatches, left.budget_hash == right.budget_hash, Mismatch::BudgetHash);
    note_mismatch(&mut mismatches, left.pre_root == right.pre_root, Mismatch::PreRoot);
    note_mismatch(&mut mismatches, left.post_root == right.post_root, Mismatch::PostRoot);
    note_mismatch(&mut mismatches, same_optional_hash(&left.candidate_id, &right.candidate_id), Mismatch::CandidateId);
    note_mismatch(&mut mismatches, same_optional_bytes(&left.patch_bytes, &right.patch_bytes), Mismatch::PatchBytes);
    note_mismatch(&mut mismatches, same_optional_bytes(&left.commit_plan_bytes, &right.commit_plan_bytes), Mismatch::CommitPlanBytes);
    note_mismatch(&mut mismatches, same_optional_bytes(&left.outbox_plan_bytes, &right.outbox_plan_bytes), Mismatch::OutboxPlanBytes);
    note_mismatch(&mut mismatches, same_bytes(left.receipt_bytes.as_slice(), right.receipt_bytes.as_slice()), Mismatch::ReceiptBytes);
    note_mismatch(&mut mismatches, same_optional_bytes(&left.bundle_bytes, &right.bundle_bytes), Mismatch::BundleBytes);
    assert(mismatches@ =~= artifact_mismatches(*left, *right));
    RefinementReport { mismatches }
}

/// A decision always refines itself exactly.
pub proof fn lemma_compare_exact_reflexive(decision: DecisionArtifacts)
    ensures
        artifact_mismatches(decision, decision).len() == 0,
{
    assert(artifact_mismatches(decision, decision) =~= Seq::<Mismatch>::empty());
}

/// Comparison is symmetric: the same artifacts differ whichever side is the model.
pub proof fn lemma_compare_exact_symmetric(left: DecisionArtifacts, right: DecisionArtifacts)
    ensures
        artifact_mismatches(left, right) == artifact_mismatches(right, left),
{
    assert(artifact_mismatches(left, right) =~= artifact_mismatches(right, left));
}

/// A comparison is exact only when every compared artifact agrees.
#[verifier::spinoff_prover]
#[verifier::rlimit(40)]
pub proof fn lemma_exact_means_equal(left: DecisionArtifacts, right: DecisionArtifacts)
    requires
        artifact_mismatches(left, right).len() == 0,
    ensures
        left.kind == right.kind,
        text_view(left.reason_code) == text_view(right.reason_code),
        left.profile_hash == right.profile_hash,
        left.command_hash == right.command_hash,
        left.context_hash == right.context_hash,
        left.precedence_hash == right.precedence_hash,
        left.algorithm_hash == right.algorithm_hash,
        left.budget_hash == right.budget_hash,
        left.pre_root == right.pre_root,
        left.post_root == right.post_root,
        left.candidate_id == right.candidate_id,
        bytes_view(left.patch_bytes) == bytes_view(right.patch_bytes),
        bytes_view(left.commit_plan_bytes) == bytes_view(right.commit_plan_bytes),
        bytes_view(left.outbox_plan_bytes) == bytes_view(right.outbox_plan_bytes),
        left.receipt_bytes@ == right.receipt_bytes@,
        bytes_view(left.bundle_bytes) == bytes_view(right.bundle_bytes),
{
    let all = artifact_mismatches(left, right);
    assert(mismatch_when(left.kind != right.kind, Mismatch::DecisionKind).len() == 0);
    left.profile_hash.lemma_bytes_injective(right.profile_hash);
    left.command_hash.lemma_bytes_injective(right.command_hash);
    left.context_hash.lemma_bytes_injective(right.context_hash);
    left.precedence_hash.lemma_bytes_injective(right.precedence_hash);
    left.algorithm_hash.lemma_bytes_injective(right.algorithm_hash);
    left.budget_hash.lemma_bytes_injective(right.budget_hash);
    left.pre_root.lemma_bytes_injective(right.pre_root);
    left.post_root.lemma_bytes_injective(right.post_root);
    match (left.candidate_id, right.candidate_id) {
        (Some(l), Some(r)) => l.lemma_bytes_injective(r),
        _ => {},
    }
}

/// Every authority artifact of the two surfaces agrees: the same kind,
/// reason, commitments, roots, candidate identity and bytes.
pub open spec fn same_artifacts(left: DecisionArtifacts, right: DecisionArtifacts) -> bool {
    &&& left.kind == right.kind
    &&& text_view(left.reason_code) == text_view(right.reason_code)
    &&& left.profile_hash == right.profile_hash
    &&& left.command_hash == right.command_hash
    &&& left.context_hash == right.context_hash
    &&& left.precedence_hash == right.precedence_hash
    &&& left.algorithm_hash == right.algorithm_hash
    &&& left.budget_hash == right.budget_hash
    &&& left.pre_root == right.pre_root
    &&& left.post_root == right.post_root
    &&& left.candidate_id == right.candidate_id
    &&& bytes_view(left.patch_bytes) == bytes_view(right.patch_bytes)
    &&& bytes_view(left.commit_plan_bytes) == bytes_view(right.commit_plan_bytes)
    &&& bytes_view(left.outbox_plan_bytes) == bytes_view(right.outbox_plan_bytes)
    &&& left.receipt_bytes@ == right.receipt_bytes@
    &&& bytes_view(left.bundle_bytes) == bytes_view(right.bundle_bytes)
}

/// Refinement is exact, no artifact mismatching, exactly when every
/// authority artifact of the two surfaces agrees.
pub proof fn lemma_exact_iff_same(left: DecisionArtifacts, right: DecisionArtifacts)
    ensures
        (artifact_mismatches(left, right).len() == 0) <==> same_artifacts(left, right),
{
    if artifact_mismatches(left, right).len() == 0 {
        lemma_exact_means_equal(left, right);
    }
    if same_artifacts(left, right) {
        assert(artifact_mismatches(left, right) =~= Seq::<Mismatch>::empty());
    }
}

/// Formal or differential evidence kind.
#[derive(Clone, Copy, Debug, PartialEq, Eq, Structural, Hash, PartialOrd, Ord)]
pub enum ToolKind {
    /// Z3 theorem result.
    Z3,
    /// CVC5 theorem result.
    Cvc5,
    /// Lean-checked theorem.
    Lean,
    /// Kani bounded model-checking result.
    Kani,
    /// Translation-validation result.
    TranslationValidation,
    /// Cross-language canonical codec/root vectors.
    CodecVectors,
    /// Mounted runtime-to-model differential evidence.
    RuntimeRefinement,
    /// Independently checked exact finite-domain enumeration evidence.
    DomainEnumeration,
}

impl ToolKind {
    /// The stable wire tag.
    pub open spec fn spec_tag(self) -> u8 {
        match self {
            ToolKind::Z3 => 0u8,
            ToolKind::Cvc5 => 1u8,
            ToolKind::Lean => 2u8,
            ToolKind::Kani => 3u8,
            ToolKind::TranslationValidation => 4u8,
            ToolKind::CodecVectors => 5u8,
            ToolKind::RuntimeRefinement => 6u8,
            ToolKind::DomainEnumeration => 7u8,
        }
    }

    /// Returns the stable wire tag.
    pub fn tag(self) -> (tag: u8)
        ensures
            tag == self.spec_tag(),
    {
        match self {
            ToolKind::Z3 => 0,
            ToolKind::Cvc5 => 1,
            ToolKind::Lean => 2,
            ToolKind::Kani => 3,
            ToolKind::TranslationValidation => 4,
            ToolKind::CodecVectors => 5,
            ToolKind::RuntimeRefinement => 6,
            ToolKind::DomainEnumeration => 7,
        }
    }

    /// Distinct kinds carry distinct tags.
    pub proof fn lemma_tag_injective(self, other: Self)
        requires
            self.spec_tag() == other.spec_tag(),
        ensures
            self == other,
    {
    }
}

impl Keyed for ToolKind {
    open spec fn spec_key(&self) -> int {
        self.spec_tag() as int
    }

    fn key_lt(&self, other: &Self) -> bool {
        self.tag() < other.tag()
    }

    fn key_eq(&self, other: &Self) -> bool {
        self.tag() == other.tag()
    }
}

impl Encodable for ToolKind {
    open spec fn spec_encoding(&self) -> Seq<u8> {
        seq![self.spec_tag()]
    }

    fn encode_to(&self, output: &mut Vec<u8>) {
        put_u8(output, self.tag());
        assert(output@ =~= old(output)@ + self.spec_encoding());
    }
}

/// One tool-bound proof artifact.
#[derive(Clone, Copy, Debug, PartialEq, Eq, Hash)]
pub struct ToolEvidence {
    kind: ToolKind,
    claim: Hash32,
    artifact: Hash32,
    toolchain: Hash32,
}

impl ToolEvidence {
    /// The evidence kind.
    pub closed spec fn spec_kind(self) -> ToolKind {
        self.kind
    }

    /// The proved claim.
    pub closed spec fn spec_claim(self) -> Hash32 {
        self.claim
    }

    /// The artifact commitment.
    pub closed spec fn spec_artifact(self) -> Hash32 {
        self.artifact
    }

    /// The pinned toolchain commitment.
    pub closed spec fn spec_toolchain(self) -> Hash32 {
        self.toolchain
    }

    /// Creates a content-bound tool result.
    pub fn new(kind: ToolKind, claim: Hash32, artifact: Hash32, toolchain: Hash32) -> (evidence: Self)
        ensures
            evidence.spec_kind() == kind,
            evidence.spec_claim() == claim,
            evidence.spec_artifact() == artifact,
            evidence.spec_toolchain() == toolchain,
    {
        ToolEvidence { kind, claim, artifact, toolchain }
    }

    /// Returns the evidence kind.
    pub fn kind(self) -> (kind: ToolKind)
        ensures
            kind == self.spec_kind(),
    {
        self.kind
    }

    /// Returns the proved claim.
    pub fn claim(self) -> (claim: Hash32)
        ensures
            claim == self.spec_claim(),
    {
        self.claim
    }

    /// Returns the artifact commitment.
    pub fn artifact(self) -> (artifact: Hash32)
        ensures
            artifact == self.spec_artifact(),
    {
        self.artifact
    }

    /// Returns the pinned toolchain commitment.
    pub fn toolchain(self) -> (toolchain: Hash32)
        ensures
            toolchain == self.spec_toolchain(),
    {
        self.toolchain
    }

    /// Canonical bytes: the kind tag, then claim, artifact and toolchain.
    pub open spec fn spec_encoding(self) -> Seq<u8> {
        seq![self.spec_kind().spec_tag()] + self.spec_claim().spec_bytes()
            + self.spec_artifact().spec_bytes() + self.spec_toolchain().spec_bytes()
    }

    /// Appends the canonical bytes of the evidence.
    pub fn encode_to(&self, output: &mut Vec<u8>)
        ensures
            final(output)@ == old(output)@ + self.spec_encoding(),
    {
        put_u8(output, self.kind.tag());
        put_bytes(output, self.claim.as_bytes());
        put_bytes(output, self.artifact.as_bytes());
        put_bytes(output, self.toolchain.as_bytes());
        assert(output@ =~= old(output)@ + self.spec_encoding());
    }
}

/// The canonical required-tool list a policy admits, or `None` when the
/// request names too many tools or one tool twice.
pub open spec fn promotion_policy_tools(tools: Seq<ToolKind>) -> Option<Seq<ToolKind>> {
    if tools.len() > MAX_TOOL_EVIDENCE || has_duplicate_key(tools) {
        None
    } else {
        Some(canonical_order(tools))
    }
}

/// Fail-closed promotion requirements.
#[derive(Debug, PartialEq, Eq)]
pub struct PromotionPolicy {
    required_tools: Vec<ToolKind>,
    require_exact_cases: bool,
}

impl Clone for PromotionPolicy {
    fn clone(&self) -> (copy: Self)
        ensures
            copy.spec_required_tools() == self.spec_required_tools(),
            copy.spec_require_exact_cases() == self.spec_require_exact_cases(),
    {
        proof {
            use_type_invariant(self);
        }
        let mut tools: Vec<ToolKind> = Vec::new();
        let mut index: usize = 0;
        while index < self.required_tools.len()
            invariant
                index <= self.required_tools@.len(),
                tools@ == self.required_tools@.subrange(0, index as int),
            decreases self.required_tools@.len() - index,
        {
            tools.push(self.required_tools[index]);
            index = index + 1;
            assert(tools@ =~= self.required_tools@.subrange(0, index as int));
        }
        assert(tools@ =~= self.required_tools@);
        PromotionPolicy { required_tools: tools, require_exact_cases: self.require_exact_cases }
    }
}

impl PromotionPolicy {
    /// Required tools are few and listed once each in tag order.
    #[verifier::type_invariant]
    pub closed spec fn well_formed(self) -> bool {
        self.required_tools@.len() <= MAX_TOOL_EVIDENCE && strictly_sorted_by_key(
            self.required_tools@,
        )
    }

    /// Required evidence kinds in canonical order.
    pub closed spec fn spec_required_tools(self) -> Seq<ToolKind> {
        self.required_tools@
    }

    /// Whether every retained differential case must exactly match.
    pub closed spec fn spec_require_exact_cases(self) -> bool {
        self.require_exact_cases
    }

    /// Creates a policy with a canonical, duplicate-free required-tool set.
    pub fn try_new(required_tools: Vec<ToolKind>, require_exact_cases: bool) -> (policy: Result<
        Self,
        RefineError,
    >)
        ensures
            match promotion_policy_tools(required_tools@) {
                None => policy == Err::<Self, RefineError>(RefineError::InvalidPromotionPolicy),
                Some(tools) => policy matches Ok(p) && p.spec_required_tools() == tools
                    && p.spec_require_exact_cases() == require_exact_cases && p.well_formed(),
            },
    {
        let ghost requested = required_tools@;
        let sorted = sort_by_key(required_tools);
        proof {
            lemma_duplicate_key_multiset(sorted@, requested);
        }
        if sorted.len() > MAX_TOOL_EVIDENCE || first_adjacent_duplicate(&sorted).is_some() {
            return Err(RefineError::InvalidPromotionPolicy);
        }
        proof {
            lemma_canonical_order(requested, sorted@);
        }
        Ok(PromotionPolicy { required_tools: sorted, require_exact_cases })
    }

    /// Returns required evidence kinds.
    pub fn required_tools(&self) -> (tools: &[ToolKind])
        ensures
            tools@ == self.spec_required_tools(),
            tools@.len() <= MAX_TOOL_EVIDENCE,
            strictly_sorted_by_key(tools@),
    {
        proof {
            use_type_invariant(self);
        }
        self.required_tools.as_slice()
    }

    /// Returns whether every retained differential case must exactly match.
    pub fn require_exact_cases(&self) -> (exact: bool)
        ensures
            exact == self.spec_require_exact_cases(),
    {
        self.require_exact_cases
    }

    /// Canonical bytes: the length-prefixed tool tags, then the exactness flag.
    pub open spec fn spec_encoding(self) -> Seq<u8> {
        be32(self.spec_required_tools().len() as u32) + encode_all(self.spec_required_tools()) + seq![
            if self.spec_require_exact_cases() {
                1u8
            } else {
                0u8
            },
        ]
    }

    /// Appends the canonical bytes of the policy.
    pub fn encode_to(&self, output: &mut Vec<u8>)
        ensures
            final(output)@ == old(output)@ + self.spec_encoding(),
    {
        put_u32(output, self.required_tools.len() as u32);
        encode_each(self.required_tools.as_slice(), output);
        put_u8(output, if self.require_exact_cases { 1 } else { 0 });
        assert(output@ =~= old(output)@ + self.spec_encoding());
    }
}

/// The order in which required tools are listed never changes a policy.
pub proof fn lemma_promotion_policy_history_independent(
    tools: Seq<ToolKind>,
    reordered: Seq<ToolKind>,
)
    requires
        tools.to_multiset() == reordered.to_multiset(),
    ensures
        promotion_policy_tools(tools) == promotion_policy_tools(reordered),
{
    broadcast use vstd::seq_lib::group_to_multiset_ensures;

    assert(tools.to_multiset().len() == tools.len());
    assert(reordered.to_multiset().len() == reordered.len());
    lemma_duplicate_key_multiset(tools, reordered);
    crate::sort::lemma_canonical_order_multiset(tools, reordered);
}

/// Two policies admitted from rearrangements of the same tool list, with the
/// same exactness requirement, are the same policy: equal tools and equal
/// canonical bytes.
pub proof fn lemma_promotion_policy_reordered(
    a: PromotionPolicy,
    b: PromotionPolicy,
    tools: Seq<ToolKind>,
    reordered: Seq<ToolKind>,
)
    requires
        tools.to_multiset() == reordered.to_multiset(),
        promotion_policy_tools(tools) == Some(a.spec_required_tools()),
        promotion_policy_tools(reordered) == Some(b.spec_required_tools()),
        a.spec_require_exact_cases() == b.spec_require_exact_cases(),
    ensures
        a.spec_required_tools() == b.spec_required_tools(),
        a.spec_encoding() == b.spec_encoding(),
{
    lemma_promotion_policy_history_independent(tools, reordered);
}

} // verus!

//! Promotion evidence and its fail-closed evaluation.
//!
//! Legacy evidence over unvalidated decisions is diagnostic only. Production
//! promotion takes strictly reconstructed cases, exact coverage and an
//! external proof verifier, and yields a content-addressed report.

use vstd::prelude::*;

use crate::commit::{commitment_preimage, Hash32};
use crate::encode::{be16, be32, be64, blob, put_bytes, put_u16, put_u32, put_u32_blob, put_u64, put_u8, EncodeError};
use crate::sort::{
    canonical_order, first_adjacent_duplicate, has_duplicate_key, lemma_canonical_order, lemma_duplicate_key_multiset,
    lemma_member_moves, sort_by_key, strictly_sorted_by_key, Keyed,
};

use super::validated::{
    ApprovedCommitmentProvider, ApprovedProviderId, ExhaustiveDomainManifest, RefinementCase, ValidatedRefinementCase, MAX_CASES,
};
use super::{
    artifact_mismatches, Mismatch, PromotionPolicy, RefineError, RefinementReport, ToolEvidence, ToolKind,
    MAX_TOOL_EVIDENCE,
};

verus! {

broadcast use Hash32::lemma_len;

impl Keyed for ToolEvidence {
    open spec fn spec_key(&self) -> int {
        self.spec_kind().spec_tag() as int
    }

    fn key_lt(&self, other: &Self) -> bool {
        self.kind().tag() < other.kind().tag()
    }

    fn key_eq(&self, other: &Self) -> bool {
        self.kind().tag() == other.kind().tag()
    }
}

/// Declared coverage of legacy promotion evidence.
#[derive(Clone, Copy, Debug, PartialEq, Eq)]
pub enum CoverageMode {
    /// Every input of a finite domain was replayed.
    Exhaustive {
        /// Commitment of the enumerated domain definition.
        domain_hash: Hash32,
        /// Exact domain cardinality.
        cardinality: u64,
    },
    /// A bounded case set was replayed without a completeness claim.
    Bounded {
        /// Most admitted cases.
        case_budget: u64,
    },
    /// A theorem covers the domain beyond the retained cases.
    ProofAssisted {
        /// Exact theorem statement commitment.
        theorem_claim: Hash32,
    },
}

/// External verifier of tool-bound proof artifacts under pinned semantics.
pub trait ProofVerifier {
    /// The identity this verifier states for itself. A verifier verified
    /// against these contracts states its own.
    closed spec fn spec_verifier_hash(&self) -> Hash32 {
        arbitrary()
    }

    /// This verifier's verdict on an artifact. A verifier verified against
    /// these contracts states its own.
    closed spec fn spec_verdict(&self, evidence: ToolEvidence) -> bool {
        arbitrary()
    }

    /// The verifier implementation's identity.
    fn verifier_hash(&self) -> (hash: Hash32)
        ensures
            hash == self.spec_verifier_hash(),
    ;

    /// Whether the artifact establishes its claim.
    fn verify(&self, evidence: ToolEvidence) -> (verdict: bool)
        ensures
            verdict == self.spec_verdict(evidence),
    ;
}

/// The verifier's verdict on each tool artifact, in order.
pub open spec fn tool_verdicts<V: ProofVerifier>(verifier: &V, tools: Seq<ToolEvidence>) -> Seq<bool> {
    Seq::new(tools.len(), |i: int| verifier.spec_verdict(tools[i]))
}

/// Why legacy evidence is refused, if it is.
pub open spec fn evidence_error(cases: Seq<RefinementCase>, tools: Seq<ToolEvidence>) -> Option<RefineError> {
    if cases.len() > MAX_CASES || tools.len() > MAX_TOOL_EVIDENCE {
        Some(RefineError::EvidenceTooLarge)
    } else if has_duplicate_key(cases) {
        Some(RefineError::DuplicateCase)
    } else if has_duplicate_key(tools) {
        Some(RefineError::DuplicateToolEvidence)
    } else {
        None
    }
}

/// Legacy diagnostic evidence for bounded or theorem-assisted checks.
#[derive(Debug, PartialEq, Eq)]
pub struct PromotionEvidence {
    profile_hash: Hash32,
    coverage: CoverageMode,
    cases: Vec<RefinementCase>,
    tools: Vec<ToolEvidence>,
}

impl PromotionEvidence {
    /// Cases and tools are few and in canonical order, each key once.
    #[verifier::type_invariant]
    spec fn canonical(self) -> bool {
        &&& self.cases@.len() <= MAX_CASES
        &&& self.tools@.len() <= MAX_TOOL_EVIDENCE
        &&& strictly_sorted_by_key(self.cases@)
        &&& strictly_sorted_by_key(self.tools@)
    }

    /// The target profile.
    pub closed spec fn spec_profile_hash(self) -> Hash32 {
        self.profile_hash
    }

    /// The declared coverage.
    pub closed spec fn spec_coverage(self) -> CoverageMode {
        self.coverage
    }

    /// The cases in case-identifier order.
    pub closed spec fn spec_cases(self) -> Seq<RefinementCase> {
        self.cases@
    }

    /// The tool evidence in kind order.
    pub closed spec fn spec_tools(self) -> Seq<ToolEvidence> {
        self.tools@
    }

    /// Creates evidence; duplicate case identifiers or tool kinds are refused.
    pub fn try_new(
        profile_hash: Hash32,
        coverage: CoverageMode,
        cases: Vec<RefinementCase>,
        tools: Vec<ToolEvidence>,
    ) -> (evidence: Result<Self, RefineError>)
        ensures
            match evidence_error(cases@, tools@) {
                Some(e) => evidence == Err::<Self, RefineError>(e),
                None => evidence matches Ok(ev) && ev.spec_profile_hash() == profile_hash && ev.spec_coverage()
                    == coverage && ev.spec_cases() == canonical_order(cases@) && ev.spec_tools() == canonical_order(
                    tools@,
                ),
            },
    {
        if cases.len() > MAX_CASES || tools.len() > MAX_TOOL_EVIDENCE {
            return Err(RefineError::EvidenceTooLarge);
        }
        let ghost declared_cases = cases@;
        let ghost declared_tools = tools@;
        let sorted_cases = sort_by_key(cases);
        proof {
            lemma_duplicate_key_multiset(sorted_cases@, declared_cases);
        }
        if first_adjacent_duplicate(&sorted_cases).is_some() {
            return Err(RefineError::DuplicateCase);
        }
        let sorted_tools = sort_by_key(tools);
        proof {
            lemma_duplicate_key_multiset(sorted_tools@, declared_tools);
        }
        if first_adjacent_duplicate(&sorted_tools).is_some() {
            return Err(RefineError::DuplicateToolEvidence);
        }
        proof {
            lemma_canonical_order(declared_cases, sorted_cases@);
            lemma_canonical_order(declared_tools, sorted_tools@);
        }
        Ok(PromotionEvidence { profile_hash, coverage, cases: sorted_cases, tools: sorted_tools })
    }

    /// Returns the target profile.
    pub fn profile_hash(&self) -> (hash: Hash32)
        ensures
            hash == self.spec_profile_hash(),
    {
        self.profile_hash
    }

    /// Returns the declared coverage.
    pub fn coverage(&self) -> (coverage: CoverageMode)
        ensures
            coverage == self.spec_coverage(),
    {
        self.coverage
    }

    /// Returns the cases in case-identifier order.
    pub fn cases(&self) -> (cases: &[RefinementCase])
        ensures
            cases@ == self.spec_cases(),
            cases@.len() <= MAX_CASES,
    {
        proof {
            use_type_invariant(self);
        }
        self.cases.as_slice()
    }

    /// Returns the tool evidence in kind order.
    pub fn tools(&self) -> (tools: &[ToolEvidence])
        ensures
            tools@ == self.spec_tools(),
            tools@.len() <= MAX_TOOL_EVIDENCE,
    {
        proof {
            use_type_invariant(self);
        }
        self.tools.as_slice()
    }
}

// ---------------------------------------------------------------------------
// Validated evidence.
// ---------------------------------------------------------------------------

/// Coverage admitted by the strict promotion path.
#[derive(Debug, PartialEq, Eq)]
pub enum ValidatedCoverage {
    /// Every manifest input was replayed exactly once, and the enumeration
    /// claim has its own evidence.
    Exhaustive {
        /// The canonical finite-domain manifest.
        manifest: Box<ExhaustiveDomainManifest>,
        /// Evidence for the exact manifest/case enumeration claim.
        coverage_evidence: ToolEvidence,
    },
    /// A nonempty bounded case set without a completeness claim.
    Bounded {
        /// Most admitted cases.
        case_budget: u64,
    },
    /// A theorem covers behaviour outside the retained cases.
    ProofAssisted {
        /// Exact theorem statement commitment.
        theorem_claim: Hash32,
    },
}

/// The manifest's inputs are exactly the cases' inputs, in order.
pub open spec fn inputs_match(inputs: Seq<Hash32>, cases: Seq<ValidatedRefinementCase>) -> bool {
    inputs.len() == cases.len() && forall|i: int| 0 <= i < inputs.len() ==> inputs[i] == #[trigger] cases[i].spec_input_hash()
}

/// Some case was validated under another profile.
pub open spec fn some_case_off_profile(cases: Seq<ValidatedRefinementCase>, profile: Hash32) -> bool {
    exists|i: int| 0 <= i < cases.len() && #[trigger] cases[i].spec_validation().bindings.profile_hash != profile
}

/// Some case was validated under another provider.
pub open spec fn some_case_off_provider(cases: Seq<ValidatedRefinementCase>, provider: ApprovedProviderId) -> bool {
    exists|i: int| 0 <= i < cases.len() && #[trigger] cases[i].spec_validation().provider_id != provider
}

/// Why the coverage does not fit the canonically ordered cases, if it does not.
pub open spec fn coverage_error(profile: Hash32, coverage: ValidatedCoverage, cases: Seq<ValidatedRefinementCase>) -> Option<RefineError> {
    match coverage {
        ValidatedCoverage::Exhaustive { manifest, coverage_evidence } => if manifest.spec_profile_hash() != profile
            || some_case_off_provider(cases, manifest.spec_provider_id()) || coverage_evidence.spec_kind()
            != ToolKind::DomainEnumeration || !inputs_match(manifest.spec_input_hashes(), cases) {
            Some(RefineError::DomainCaseMismatch)
        } else {
            None
        },
        ValidatedCoverage::Bounded { case_budget } => if cases.len() == 0 || cases.len() > case_budget {
            Some(RefineError::InvalidBoundedCoverage)
        } else {
            None
        },
        ValidatedCoverage::ProofAssisted { theorem_claim } => if theorem_claim.spec_is_zero() {
            Some(RefineError::InvalidProofClaim)
        } else {
            None
        },
    }
}

/// Why validated evidence is refused, if it is: the profile, the bounds,
/// duplicate inputs, foreign profiles, duplicate tool kinds, then coverage.
pub open spec fn validated_evidence_error(
    profile: Hash32,
    coverage: ValidatedCoverage,
    cases: Seq<ValidatedRefinementCase>,
    tools: Seq<ToolEvidence>,
) -> Option<RefineError> {
    if profile.spec_is_zero() {
        Some(RefineError::InvalidPromotionProfile)
    } else if cases.len() > MAX_CASES || tools.len() > MAX_TOOL_EVIDENCE {
        Some(RefineError::EvidenceTooLarge)
    } else if has_duplicate_key(cases) {
        Some(RefineError::DuplicateCaseInput)
    } else if some_case_off_profile(cases, profile) {
        Some(RefineError::CaseProfileMismatch)
    } else if has_duplicate_key(tools) {
        Some(RefineError::DuplicateToolEvidence)
    } else {
        coverage_error(profile, coverage, canonical_order(cases))
    }
}

/// Strictly reconstructed promotion evidence in canonical order.
#[derive(Debug, PartialEq, Eq)]
pub struct ValidatedPromotionEvidence {
    profile_hash: Hash32,
    coverage: ValidatedCoverage,
    cases: Vec<ValidatedRefinementCase>,
    tools: Vec<ToolEvidence>,
}

fn slice_off_profile(cases: &[ValidatedRefinementCase], profile: Hash32) -> (found: bool)
    ensures
        found == some_case_off_profile(cases@, profile),
{
    let mut index: usize = 0;
    while index < cases.len()
        invariant
            index <= cases@.len(),
            forall|i: int| 0 <= i < index ==> #[trigger] cases@[i].spec_validation().bindings.profile_hash == profile,
        decreases cases@.len() - index,
    {
        if !crate::receipt::same_hash(cases[index].profile_hash(), profile) {
            return true;
        }
        index = index + 1;
    }
    false
}

fn slice_off_provider(cases: &[ValidatedRefinementCase], provider: ApprovedProviderId) -> (found: bool)
    ensures
        found == some_case_off_provider(cases@, provider),
{
    let mut index: usize = 0;
    while index < cases.len()
        invariant
            index <= cases@.len(),
            forall|i: int| 0 <= i < index ==> #[trigger] cases@[i].spec_validation().provider_id == provider,
        decreases cases@.len() - index,
    {
        if cases[index].provider_id() != provider {
            return true;
        }
        index = index + 1;
    }
    false
}

fn match_inputs(inputs: &[Hash32], cases: &[ValidatedRefinementCase]) -> (matched: bool)
    ensures
        matched == inputs_match(inputs@, cases@),
{
    if inputs.len() != cases.len() {
        return false;
    }
    let mut index: usize = 0;
    while index < inputs.len()
        invariant
            index <= inputs@.len(),
            inputs@.len() == cases@.len(),
            forall|i: int| 0 <= i < index ==> inputs@[i] == #[trigger] cases@[i].spec_input_hash(),
        decreases inputs@.len() - index,
    {
        if !crate::receipt::same_hash(inputs[index], cases[index].input_hash()) {
            return false;
        }
        index = index + 1;
    }
    true
}

proof fn lemma_off_profile_moves(a: Seq<ValidatedRefinementCase>, b: Seq<ValidatedRefinementCase>, profile: Hash32)
    requires
        a.to_multiset() == b.to_multiset(),
    ensures
        some_case_off_profile(a, profile) == some_case_off_profile(b, profile),
{
    if some_case_off_profile(a, profile) {
        let i = choose|i: int| 0 <= i < a.len() && #[trigger] a[i].spec_validation().bindings.profile_hash != profile;
        lemma_member_moves(a, b, i);
    }
    if some_case_off_profile(b, profile) {
        let i = choose|i: int| 0 <= i < b.len() && #[trigger] b[i].spec_validation().bindings.profile_hash != profile;
        lemma_member_moves(b, a, i);
    }
}

impl ValidatedPromotionEvidence {
    /// The evidence passed its admission rules, over its canonically
    /// ordered cases.
    #[verifier::type_invariant]
    spec fn admitted(self) -> bool {
        &&& self.cases@.len() <= MAX_CASES
        &&& self.tools@.len() <= MAX_TOOL_EVIDENCE
        &&& !self.profile_hash.spec_is_zero()
        &&& !some_case_off_profile(self.cases@, self.profile_hash)
        &&& coverage_error(self.profile_hash, self.coverage, self.cases@) is None
    }

    /// The target profile.
    pub closed spec fn spec_profile_hash(self) -> Hash32 {
        self.profile_hash
    }

    /// The declared coverage.
    pub closed spec fn spec_coverage(self) -> ValidatedCoverage {
        self.coverage
    }

    /// The cases in input order.
    pub closed spec fn spec_cases(self) -> Seq<ValidatedRefinementCase> {
        self.cases@
    }

    /// The tool evidence in kind order.
    pub closed spec fn spec_tools(self) -> Seq<ToolEvidence> {
        self.tools@
    }

    /// Creates evidence bound exactly to its profile, inputs and manifest.
    pub fn try_new(
        profile_hash: Hash32,
        coverage: ValidatedCoverage,
        cases: Vec<ValidatedRefinementCase>,
        tools: Vec<ToolEvidence>,
    ) -> (evidence: Result<Self, RefineError>)
        ensures
            match validated_evidence_error(profile_hash, coverage, cases@, tools@) {
                Some(e) => evidence == Err::<Self, RefineError>(e),
                None => evidence matches Ok(ev) && ev.spec_profile_hash() == profile_hash && ev.spec_coverage()
                    == coverage && ev.spec_cases() == canonical_order(cases@) && ev.spec_tools() == canonical_order(
                    tools@,
                ),
            },
    {
        if profile_hash.is_zero() {
            return Err(RefineError::InvalidPromotionProfile);
        }
        if cases.len() > MAX_CASES || tools.len() > MAX_TOOL_EVIDENCE {
            return Err(RefineError::EvidenceTooLarge);
        }
        let ghost declared_cases = cases@;
        let ghost declared_tools = tools@;
        let sorted_cases = sort_by_key(cases);
        proof {
            lemma_duplicate_key_multiset(sorted_cases@, declared_cases);
            lemma_off_profile_moves(sorted_cases@, declared_cases, profile_hash);
        }
        if first_adjacent_duplicate(&sorted_cases).is_some() {
            return Err(RefineError::DuplicateCaseInput);
        }
        if slice_off_profile(sorted_cases.as_slice(), profile_hash) {
            return Err(RefineError::CaseProfileMismatch);
        }
        let sorted_tools = sort_by_key(tools);
        proof {
            lemma_duplicate_key_multiset(sorted_tools@, declared_tools);
        }
        if first_adjacent_duplicate(&sorted_tools).is_some() {
            return Err(RefineError::DuplicateToolEvidence);
        }
        proof {
            lemma_canonical_order(declared_cases, sorted_cases@);
            lemma_canonical_order(declared_tools, sorted_tools@);
        }
        match &coverage {
            ValidatedCoverage::Exhaustive { manifest, coverage_evidence } => {
                if !crate::receipt::same_hash(manifest.profile_hash(), profile_hash) || slice_off_provider(
                    sorted_cases.as_slice(),
                    manifest.provider_id(),
                ) || coverage_evidence.kind() != ToolKind::DomainEnumeration || !match_inputs(
                    manifest.input_hashes(),
                    sorted_cases.as_slice(),
                ) {
                    return Err(RefineError::DomainCaseMismatch);
                }
            },
            ValidatedCoverage::Bounded { case_budget } => {
                if sorted_cases.len() == 0 || sorted_cases.len() as u64 > *case_budget {
                    return Err(RefineError::InvalidBoundedCoverage);
                }
            },
            ValidatedCoverage::ProofAssisted { theorem_claim } => {
                if theorem_claim.is_zero() {
                    return Err(RefineError::InvalidProofClaim);
                }
            },
        }
        Ok(ValidatedPromotionEvidence { profile_hash, coverage, cases: sorted_cases, tools: sorted_tools })
    }

    /// Returns the target profile.
    pub fn profile_hash(&self) -> (hash: Hash32)
        ensures
            hash == self.spec_profile_hash(),
    {
        self.profile_hash
    }

    /// Returns the declared coverage.
    pub fn coverage(&self) -> (coverage: &ValidatedCoverage)
        ensures
            *coverage == self.spec_coverage(),
            coverage_error(self.spec_profile_hash(), *coverage, self.spec_cases()) is None,
    {
        proof {
            use_type_invariant(self);
        }
        &self.coverage
    }

    /// Returns the cases in input order.
    pub fn cases(&self) -> (cases: &[ValidatedRefinementCase])
        ensures
            cases@ == self.spec_cases(),
            cases@.len() <= MAX_CASES,
            !some_case_off_profile(cases@, self.spec_profile_hash()),
    {
        proof {
            use_type_invariant(self);
        }
        self.cases.as_slice()
    }

    /// Returns the tool evidence in kind order.
    pub fn tools(&self) -> (tools: &[ToolEvidence])
        ensures
            tools@ == self.spec_tools(),
            tools@.len() <= MAX_TOOL_EVIDENCE,
    {
        proof {
            use_type_invariant(self);
        }
        self.tools.as_slice()
    }
}

// ---------------------------------------------------------------------------
// Evaluation context, blockers and reports.
// ---------------------------------------------------------------------------

/// Exact source and importer context of one strict promotion evaluation.
#[derive(Clone, Copy, Debug, PartialEq, Eq)]
pub struct PromotionEvaluationContext {
    source_revision: Hash32,
    importer_hash: Hash32,
}

impl PromotionEvaluationContext {
    /// The evaluated source revision.
    pub closed spec fn spec_source_revision(self) -> Hash32 {
        self.source_revision
    }

    /// The evidence importer identity.
    pub closed spec fn spec_importer_hash(self) -> Hash32 {
        self.importer_hash
    }

    /// Creates a context; both identities must be nonzero.
    pub fn try_new(source_revision: Hash32, importer_hash: Hash32) -> (context: Result<Self, RefineError>)
        ensures
            source_revision.spec_is_zero() || importer_hash.spec_is_zero() ==> context == Err::<Self, RefineError>(
                RefineError::InvalidPromotionContext,
            ),
            !source_revision.spec_is_zero() && !importer_hash.spec_is_zero() ==> (context matches Ok(c)
                && c.spec_source_revision() == source_revision && c.spec_importer_hash() == importer_hash),
    {
        if source_revision.is_zero() || importer_hash.is_zero() {
            return Err(RefineError::InvalidPromotionContext);
        }
        Ok(PromotionEvaluationContext { source_revision, importer_hash })
    }

    /// Returns the evaluated source revision.
    pub fn source_revision(self) -> (hash: Hash32)
        ensures
            hash == self.spec_source_revision(),
    {
        self.source_revision
    }

    /// Returns the evidence importer identity.
    pub fn importer_hash(self) -> (hash: Hash32)
        ensures
            hash == self.spec_importer_hash(),
    {
        self.importer_hash
    }

    /// Canonical bytes: the source revision, then the importer identity.
    pub open spec fn spec_encoding(self) -> Seq<u8> {
        self.spec_source_revision().spec_bytes() + self.spec_importer_hash().spec_bytes()
    }

    /// Appends the canonical bytes of the context.
    pub fn encode_to(&self, output: &mut Vec<u8>)
        ensures
            final(output)@ == old(output)@ + self.spec_encoding(),
    {
        put_bytes(output, self.source_revision.as_bytes());
        put_bytes(output, self.importer_hash.as_bytes());
        assert(output@ =~= old(output)@ + self.spec_encoding());
    }
}

/// One fail-closed reason a promotion is refused.
#[derive(Clone, Debug, PartialEq, Eq)]
pub enum PromotionBlocker {
    /// Legacy cases carry structurally normalized but unvalidated artifacts.
    UnvalidatedDecisionArtifacts,
    /// A case is bound to another profile.
    CaseProfileMismatch {
        /// Case identifier.
        case_id: Hash32,
    },
    /// Model and runtime differ for one case.
    RefinementMismatch {
        /// Case identifier.
        case_id: Hash32,
        /// Every differing artifact.
        mismatches: Vec<Mismatch>,
    },
    /// Exhaustive cardinality differs from the retained case count.
    ExhaustiveCardinalityMismatch,
    /// Legacy exhaustive evidence has no verified domain manifest.
    UnverifiedLegacyExhaustiveCoverage,
    /// Bounded evidence is empty or exceeds its budget.
    InvalidBoundedCoverage,
    /// No verified evidence establishes the theorem claim.
    MissingTheoremEvidence,
    /// Enumeration evidence is absent, mismatched or refused.
    MissingCoverageEvidence,
    /// Policy-required evidence is absent or refused.
    MissingToolEvidence {
        /// Required evidence kind.
        kind: ToolKind,
    },
}

/// What a blocker says, its mismatches as a sequence.
pub enum BlockerModel {
    /// See [`PromotionBlocker::UnvalidatedDecisionArtifacts`].
    UnvalidatedDecisionArtifacts,
    /// See [`PromotionBlocker::CaseProfileMismatch`].
    CaseProfileMismatch { case_id: Hash32 },
    /// See [`PromotionBlocker::RefinementMismatch`].
    RefinementMismatch { case_id: Hash32, mismatches: Seq<Mismatch> },
    /// See [`PromotionBlocker::ExhaustiveCardinalityMismatch`].
    ExhaustiveCardinalityMismatch,
    /// See [`PromotionBlocker::UnverifiedLegacyExhaustiveCoverage`].
    UnverifiedLegacyExhaustiveCoverage,
    /// See [`PromotionBlocker::InvalidBoundedCoverage`].
    InvalidBoundedCoverage,
    /// See [`PromotionBlocker::MissingTheoremEvidence`].
    MissingTheoremEvidence,
    /// See [`PromotionBlocker::MissingCoverageEvidence`].
    MissingCoverageEvidence,
    /// See [`PromotionBlocker::MissingToolEvidence`].
    MissingToolEvidence { kind: ToolKind },
}

impl View for PromotionBlocker {
    type V = BlockerModel;

    open spec fn view(&self) -> BlockerModel {
        match self {
            PromotionBlocker::UnvalidatedDecisionArtifacts => BlockerModel::UnvalidatedDecisionArtifacts,
            PromotionBlocker::CaseProfileMismatch { case_id } => BlockerModel::CaseProfileMismatch { case_id: *case_id },
            PromotionBlocker::RefinementMismatch { case_id, mismatches } => BlockerModel::RefinementMismatch {
                case_id: *case_id,
                mismatches: mismatches@,
            },
            PromotionBlocker::ExhaustiveCardinalityMismatch => BlockerModel::ExhaustiveCardinalityMismatch,
            PromotionBlocker::UnverifiedLegacyExhaustiveCoverage => BlockerModel::UnverifiedLegacyExhaustiveCoverage,
            PromotionBlocker::InvalidBoundedCoverage => BlockerModel::InvalidBoundedCoverage,
            PromotionBlocker::MissingTheoremEvidence => BlockerModel::MissingTheoremEvidence,
            PromotionBlocker::MissingCoverageEvidence => BlockerModel::MissingCoverageEvidence,
            PromotionBlocker::MissingToolEvidence { kind } => BlockerModel::MissingToolEvidence { kind: *kind },
        }
    }
}

/// The content of each blocker, in order.
pub open spec fn blocker_views(blockers: Seq<PromotionBlocker>) -> Seq<BlockerModel> {
    blockers.map_values(|b: PromotionBlocker| b@)
}

fn push_blocker(blockers: &mut Vec<PromotionBlocker>, blocker: PromotionBlocker)
    ensures
        blocker_views(final(blockers)@) == blocker_views(old(blockers)@).push(blocker@),
{
    let ghost model = blocker@;
    blockers.push(blocker);
    assert(blocker_views(blockers@) =~= blocker_views(old(blockers)@).push(model));
}

/// Promotion decision over legacy diagnostic evidence.
#[derive(Clone, Debug, PartialEq, Eq)]
pub struct PromotionReport {
    blockers: Vec<PromotionBlocker>,
}

impl PromotionReport {
    /// Every blocker, in the order found.
    pub closed spec fn spec_blockers(self) -> Seq<BlockerModel> {
        blocker_views(self.blockers@)
    }

    /// Returns whether nothing blocks promotion.
    pub fn is_promotable(&self) -> (promotable: bool)
        ensures
            promotable == (self.spec_blockers().len() == 0),
    {
        self.blockers.len() == 0
    }

    /// Returns every blocker, in the order found.
    pub fn blockers(&self) -> (blockers: &[PromotionBlocker])
        ensures
            blocker_views(blockers@) == self.spec_blockers(),
    {
        self.blockers.as_slice()
    }
}

// ---------------------------------------------------------------------------
// What the verifier's verdicts decide.
// ---------------------------------------------------------------------------

/// Some evidence for the claim was accepted by the verifier.
pub open spec fn claim_verified(tools: Seq<ToolEvidence>, verdicts: Seq<bool>, claim: Hash32) -> bool {
    exists|i: int| 0 <= i < tools.len() && #[trigger] tools[i].spec_claim() == claim && verdicts[i]
}

/// Some evidence of the kind was accepted by the verifier.
pub open spec fn kind_verified(tools: Seq<ToolEvidence>, verdicts: Seq<bool>, kind: ToolKind) -> bool {
    exists|i: int| 0 <= i < tools.len() && #[trigger] tools[i].spec_kind() == kind && verdicts[i]
}

/// One blocker for each required kind that neither the accepted coverage
/// evidence (`covered`) nor accepted tool evidence supplies.
pub open spec fn missing_tool_blockers(
    kinds: Seq<ToolKind>,
    tools: Seq<ToolEvidence>,
    verdicts: Seq<bool>,
    covered: Option<ToolKind>,
) -> Seq<BlockerModel>
    decreases kinds.len(),
{
    if kinds.len() == 0 {
        Seq::empty()
    } else {
        missing_tool_blockers(kinds.drop_last(), tools, verdicts, covered) + if covered == Some(kinds.last())
            || kind_verified(tools, verdicts, kinds.last()) {
            Seq::empty()
        } else {
            seq![BlockerModel::MissingToolEvidence { kind: kinds.last() }]
        }
    }
}

/// The blocker for a case whose model and runtime differ, when exactness is required.
pub open spec fn mismatch_blocker(case_id: Hash32, mismatches: Seq<Mismatch>, exact: bool) -> Seq<BlockerModel> {
    if exact && mismatches.len() > 0 {
        seq![BlockerModel::RefinementMismatch { case_id, mismatches }]
    } else {
        Seq::empty()
    }
}

/// Blockers of one legacy case: a foreign profile, then a mismatch.
pub open spec fn legacy_case_blockers(case: RefinementCase, profile: Hash32, exact: bool) -> Seq<BlockerModel> {
    (if case.spec_model().profile_hash != profile || case.spec_runtime().profile_hash != profile {
        seq![BlockerModel::CaseProfileMismatch { case_id: case.spec_case_id() }]
    } else {
        Seq::empty()
    }) + mismatch_blocker(case.spec_case_id(), artifact_mismatches(case.spec_model(), case.spec_runtime()), exact)
}

/// Blockers of the legacy cases, case by case.
pub open spec fn legacy_cases_blockers(cases: Seq<RefinementCase>, profile: Hash32, exact: bool) -> Seq<BlockerModel>
    decreases cases.len(),
{
    if cases.len() == 0 {
        Seq::empty()
    } else {
        legacy_cases_blockers(cases.drop_last(), profile, exact) + legacy_case_blockers(cases.last(), profile, exact)
    }
}

/// Each legacy case's own blockers are among those of the whole list.
proof fn lemma_legacy_cases_contain(cases: Seq<RefinementCase>, profile: Hash32, exact: bool, k: int, blocker: BlockerModel)
    requires
        0 <= k < cases.len(),
        legacy_case_blockers(cases[k], profile, exact).contains(blocker),
    ensures
        legacy_cases_blockers(cases, profile, exact).contains(blocker),
    decreases cases.len(),
{
    let before = legacy_cases_blockers(cases.drop_last(), profile, exact);
    let last = legacy_case_blockers(cases.last(), profile, exact);
    if k == cases.len() - 1 {
        let i = choose|i: int| 0 <= i < last.len() && last[i] == blocker;
        assert((before + last)[before.len() + i] == blocker);
    } else {
        assert(cases.drop_last()[k] == cases[k]);
        lemma_legacy_cases_contain(cases.drop_last(), profile, exact, k, blocker);
        let i = choose|i: int| 0 <= i < before.len() && before[i] == blocker;
        assert((before + last)[i] == blocker);
    }
}

/// A legacy case whose model or runtime decision was produced under a
/// profile other than the evidence's is always reported as a profile
/// mismatch of that case.
pub proof fn lemma_foreign_profile_case_reported(
    policy: PromotionPolicy,
    evidence: PromotionEvidence,
    verdicts: Seq<bool>,
    k: int,
)
    requires
        0 <= k < evidence.spec_cases().len(),
        evidence.spec_cases()[k].spec_model().profile_hash != evidence.spec_profile_hash()
            || evidence.spec_cases()[k].spec_runtime().profile_hash != evidence.spec_profile_hash(),
    ensures
        legacy_blockers(policy, evidence, verdicts).contains(
            BlockerModel::CaseProfileMismatch { case_id: evidence.spec_cases()[k].spec_case_id() },
        ),
{
    let case = evidence.spec_cases()[k];
    let b = BlockerModel::CaseProfileMismatch { case_id: case.spec_case_id() };
    let exact = policy.spec_require_exact_cases();
    assert(legacy_case_blockers(case, evidence.spec_profile_hash(), exact)[0] == b);
    lemma_legacy_cases_contain(evidence.spec_cases(), evidence.spec_profile_hash(), exact, k, b);
    let cases = legacy_cases_blockers(evidence.spec_cases(), evidence.spec_profile_hash(), exact);
    let i = choose|i: int| 0 <= i < cases.len() && cases[i] == b;
    let all = legacy_blockers(policy, evidence, verdicts);
    assert(all[1 + i] == b);
}

/// Legacy evidence is never promotable on its own: its report always
/// carries the unvalidated-artifact blocker; and when exactness is required,
/// a legacy case whose model and runtime decisions differ in any artifact is
/// reported as a refinement mismatch of that case.
pub proof fn lemma_legacy_refinement_mismatch_reported(
    policy: PromotionPolicy,
    evidence: PromotionEvidence,
    verdicts: Seq<bool>,
    k: int,
)
    requires
        0 <= k < evidence.spec_cases().len(),
        policy.spec_require_exact_cases(),
        !super::same_artifacts(evidence.spec_cases()[k].spec_model(), evidence.spec_cases()[k].spec_runtime()),
    ensures
        legacy_blockers(policy, evidence, verdicts)[0] == BlockerModel::UnvalidatedDecisionArtifacts,
        exists|mismatches: Seq<Mismatch>|
            mismatches.len() > 0 && legacy_blockers(policy, evidence, verdicts).contains(
                BlockerModel::RefinementMismatch { case_id: evidence.spec_cases()[k].spec_case_id(), mismatches },
            ),
{
    let case = evidence.spec_cases()[k];
    let m = artifact_mismatches(case.spec_model(), case.spec_runtime());
    super::lemma_exact_iff_same(case.spec_model(), case.spec_runtime());
    let b = BlockerModel::RefinementMismatch { case_id: case.spec_case_id(), mismatches: m };
    let exact = policy.spec_require_exact_cases();
    let own = legacy_case_blockers(case, evidence.spec_profile_hash(), exact);
    assert(own[own.len() - 1] == b);
    lemma_legacy_cases_contain(evidence.spec_cases(), evidence.spec_profile_hash(), exact, k, b);
    let cases = legacy_cases_blockers(evidence.spec_cases(), evidence.spec_profile_hash(), exact);
    let i = choose|i: int| 0 <= i < cases.len() && cases[i] == b;
    let all = legacy_blockers(policy, evidence, verdicts);
    assert(all[1 + i] == b);
}

proof fn lemma_seq_concat_contains<T>(a: Seq<T>, b: Seq<T>, x: T)
    ensures
        (a + b).contains(x) <==> a.contains(x) || b.contains(x),
{
    if (a + b).contains(x) {
        let k = choose|k: int| 0 <= k < (a + b).len() && (a + b)[k] == x;
        if k < a.len() {
            assert(a[k] == x);
        } else {
            assert(b[k - a.len()] == x);
        }
    }
    if a.contains(x) {
        let k = choose|k: int| 0 <= k < a.len() && a[k] == x;
        assert((a + b)[k] == x);
    }
    if b.contains(x) {
        let k = choose|k: int| 0 <= k < b.len() && b[k] == x;
        assert((a + b)[a.len() + k] == x);
    }
}

proof fn lemma_tool_blockers_only_tools(
    kinds: Seq<ToolKind>,
    tools: Seq<ToolEvidence>,
    verdicts: Seq<bool>,
    covered: Option<ToolKind>,
    x: BlockerModel,
)
    requires
        missing_tool_blockers(kinds, tools, verdicts, covered).contains(x),
    ensures
        x is MissingToolEvidence,
    decreases kinds.len(),
{
    if kinds.len() > 0 {
        let before = missing_tool_blockers(kinds.drop_last(), tools, verdicts, covered);
        let last = if covered == Some(kinds.last()) || kind_verified(tools, verdicts, kinds.last()) {
            Seq::<BlockerModel>::empty()
        } else {
            seq![BlockerModel::MissingToolEvidence { kind: kinds.last() }]
        };
        lemma_seq_concat_contains(before, last, x);
        if before.contains(x) {
            lemma_tool_blockers_only_tools(kinds.drop_last(), tools, verdicts, covered, x);
        }
    }
}

proof fn lemma_legacy_profile_cause(cases: Seq<RefinementCase>, profile: Hash32, exact: bool, case_id: Hash32)
    requires
        legacy_cases_blockers(cases, profile, exact).contains(BlockerModel::CaseProfileMismatch { case_id }),
    ensures
        exists|k: int|
            0 <= k < cases.len() && #[trigger] cases[k].spec_case_id() == case_id && (cases[k].spec_model().profile_hash
                != profile || cases[k].spec_runtime().profile_hash != profile),
    decreases cases.len(),
{
    let x = BlockerModel::CaseProfileMismatch { case_id };
    let before = legacy_cases_blockers(cases.drop_last(), profile, exact);
    let last = legacy_case_blockers(cases.last(), profile, exact);
    lemma_seq_concat_contains(before, last, x);
    if before.contains(x) {
        lemma_legacy_profile_cause(cases.drop_last(), profile, exact, case_id);
        let k = choose|k: int|
            0 <= k < cases.drop_last().len() && #[trigger] cases.drop_last()[k].spec_case_id() == case_id && (
            cases.drop_last()[k].spec_model().profile_hash != profile || cases.drop_last()[k].spec_runtime().profile_hash
                != profile);
        assert(cases[k] == cases.drop_last()[k]);
    } else {
        let c = cases.last();
        let head = if c.spec_model().profile_hash != profile || c.spec_runtime().profile_hash != profile {
            seq![BlockerModel::CaseProfileMismatch { case_id: c.spec_case_id() }]
        } else {
            Seq::<BlockerModel>::empty()
        };
        let tail = mismatch_blocker(c.spec_case_id(), artifact_mismatches(c.spec_model(), c.spec_runtime()), exact);
        lemma_seq_concat_contains(head, tail, x);
        assert(!tail.contains(x));
        assert(cases[cases.len() - 1] == c);
    }
}

/// A legacy report names a case as produced under a foreign profile only
/// when that case's model or runtime decision really carries another profile
/// than the evidence's.
pub proof fn lemma_profile_mismatch_has_cause(
    policy: PromotionPolicy,
    evidence: PromotionEvidence,
    verdicts: Seq<bool>,
    case_id: Hash32,
)
    requires
        legacy_blockers(policy, evidence, verdicts).contains(BlockerModel::CaseProfileMismatch { case_id }),
    ensures
        exists|k: int|
            0 <= k < evidence.spec_cases().len() && #[trigger] evidence.spec_cases()[k].spec_case_id() == case_id && (
            evidence.spec_cases()[k].spec_model().profile_hash != evidence.spec_profile_hash()
                || evidence.spec_cases()[k].spec_runtime().profile_hash != evidence.spec_profile_hash()),
{
    let x = BlockerModel::CaseProfileMismatch { case_id };
    let head = seq![BlockerModel::UnvalidatedDecisionArtifacts];
    let cases = legacy_cases_blockers(
        evidence.spec_cases(),
        evidence.spec_profile_hash(),
        policy.spec_require_exact_cases(),
    );
    let coverage = legacy_coverage_blockers(
        evidence.spec_coverage(),
        evidence.spec_cases().len(),
        evidence.spec_tools(),
        verdicts,
    );
    let tools = missing_tool_blockers(policy.spec_required_tools(), evidence.spec_tools(), verdicts, None);
    lemma_seq_concat_contains(head, cases, x);
    lemma_seq_concat_contains(head + cases, coverage, x);
    lemma_seq_concat_contains(head + cases + coverage, tools, x);
    assert(!head.contains(x));
    assert(!coverage.contains(x));
    if tools.contains(x) {
        lemma_tool_blockers_only_tools(policy.spec_required_tools(), evidence.spec_tools(), verdicts, None, x);
    }
    lemma_legacy_profile_cause(
        evidence.spec_cases(),
        evidence.spec_profile_hash(),
        policy.spec_require_exact_cases(),
        case_id,
    );
}

/// Blockers of legacy coverage: exhaustive claims always fail closed.
pub open spec fn legacy_coverage_blockers(
    coverage: CoverageMode,
    case_count: nat,
    tools: Seq<ToolEvidence>,
    verdicts: Seq<bool>,
) -> Seq<BlockerModel> {
    match coverage {
        CoverageMode::Exhaustive { cardinality, .. } => (if cardinality != case_count {
            seq![BlockerModel::ExhaustiveCardinalityMismatch]
        } else {
            Seq::empty()
        }) + seq![BlockerModel::UnverifiedLegacyExhaustiveCoverage],
        CoverageMode::Bounded { case_budget } => if case_count == 0 || case_count > case_budget {
            seq![BlockerModel::InvalidBoundedCoverage]
        } else {
            Seq::empty()
        },
        CoverageMode::ProofAssisted { theorem_claim } => if claim_verified(tools, verdicts, theorem_claim) {
            Seq::empty()
        } else {
            seq![BlockerModel::MissingTheoremEvidence]
        },
    }
}

/// Every blocker of legacy evidence, given the verifier's verdict on each
/// tool: the unvalidated-artifact blocker, case blockers, coverage
/// blockers, then missing required tools.
pub open spec fn legacy_blockers(policy: PromotionPolicy, evidence: PromotionEvidence, verdicts: Seq<bool>) -> Seq<
    BlockerModel,
> {
    seq![BlockerModel::UnvalidatedDecisionArtifacts] + legacy_cases_blockers(
        evidence.spec_cases(),
        evidence.spec_profile_hash(),
        policy.spec_require_exact_cases(),
    ) + legacy_coverage_blockers(
        evidence.spec_coverage(),
        evidence.spec_cases().len(),
        evidence.spec_tools(),
        verdicts,
    ) + missing_tool_blockers(policy.spec_required_tools(), evidence.spec_tools(), verdicts, None)
}

fn claim_checked(tools: &[ToolEvidence], verdicts: &[bool], claim: Hash32) -> (found: bool)
    requires
        verdicts@.len() == tools@.len(),
    ensures
        found == claim_verified(tools@, verdicts@, claim),
{
    let mut index: usize = 0;
    while index < tools.len()
        invariant
            index <= tools@.len(),
            verdicts@.len() == tools@.len(),
            forall|i: int| 0 <= i < index ==> !(#[trigger] tools@[i].spec_claim() == claim && verdicts@[i]),
        decreases tools@.len() - index,
    {
        if verdicts[index] && crate::receipt::same_hash(tools[index].claim(), claim) {
            return true;
        }
        index = index + 1;
    }
    false
}

fn kind_checked(tools: &[ToolEvidence], verdicts: &[bool], kind: ToolKind) -> (found: bool)
    requires
        verdicts@.len() == tools@.len(),
    ensures
        found == kind_verified(tools@, verdicts@, kind),
{
    let mut index: usize = 0;
    while index < tools.len()
        invariant
            index <= tools@.len(),
            verdicts@.len() == tools@.len(),
            forall|i: int| 0 <= i < index ==> !(#[trigger] tools@[i].spec_kind() == kind && verdicts@[i]),
        decreases tools@.len() - index,
    {
        if verdicts[index] && tools[index].kind() == kind {
            return true;
        }
        index = index + 1;
    }
    false
}

fn push_missing_tools(
    blockers: &mut Vec<PromotionBlocker>,
    kinds: &[ToolKind],
    tools: &[ToolEvidence],
    verdicts: &[bool],
    covered: Option<ToolKind>,
)
    requires
        verdicts@.len() == tools@.len(),
    ensures
        blocker_views(final(blockers)@) == blocker_views(old(blockers)@) + missing_tool_blockers(
            kinds@,
            tools@,
            verdicts@,
            covered,
        ),
{
    let mut index: usize = 0;
    while index < kinds.len()
        invariant
            index <= kinds@.len(),
            verdicts@.len() == tools@.len(),
            blocker_views(blockers@) == blocker_views(old(blockers)@) + missing_tool_blockers(
                kinds@.subrange(0, index as int),
                tools@,
                verdicts@,
                covered,
            ),
        decreases kinds@.len() - index,
    {
        let kind = kinds[index];
        let supplied = match covered {
            Some(c) => c == kind,
            None => false,
        } || kind_checked(tools, verdicts, kind);
        if !supplied {
            push_blocker(blockers, PromotionBlocker::MissingToolEvidence { kind });
        }
        proof {
            let next = kinds@.subrange(0, index + 1);
            assert(next.drop_last() =~= kinds@.subrange(0, index as int));
            assert(next.last() == kind);
        }
        index = index + 1;
        assert(blocker_views(blockers@) =~= blocker_views(old(blockers)@) + missing_tool_blockers(
            kinds@.subrange(0, index as int),
            tools@,
            verdicts@,
            covered,
        ));
    }
    assert(kinds@.subrange(0, kinds@.len() as int) =~= kinds@);
}

fn push_mismatch(blockers: &mut Vec<PromotionBlocker>, case_id: Hash32, report: RefinementReport, exact: bool)
    ensures
        blocker_views(final(blockers)@) == blocker_views(old(blockers)@) + mismatch_blocker(
            case_id,
            report.spec_mismatches(),
            exact,
        ),
{
    if exact && !report.is_exact() {
        let mismatches = report.into_mismatches();
        push_blocker(blockers, PromotionBlocker::RefinementMismatch { case_id, mismatches });
    }
    assert(blocker_views(blockers@) =~= blocker_views(old(blockers)@) + mismatch_blocker(
        case_id,
        report.spec_mismatches(),
        exact,
    ));
}

/// The legacy report the verifier's verdicts give, one verdict per tool.
pub fn legacy_promotion_report(
    policy: &PromotionPolicy,
    evidence: &PromotionEvidence,
    verdicts: &[bool],
) -> (report: PromotionReport)
    requires
        verdicts@.len() == evidence.spec_tools().len(),
    ensures
        report.spec_blockers() == legacy_blockers(*policy, *evidence, verdicts@),
        forall|k: int|
            0 <= k < evidence.spec_cases().len() && (#[trigger] evidence.spec_cases()[k].spec_model().profile_hash
                != evidence.spec_profile_hash() || evidence.spec_cases()[k].spec_runtime().profile_hash
                != evidence.spec_profile_hash()) ==> report.spec_blockers().contains(
                BlockerModel::CaseProfileMismatch { case_id: evidence.spec_cases()[k].spec_case_id() },
            ),
{
    proof {
        assert forall|k: int|
            0 <= k < evidence.spec_cases().len() && (#[trigger] evidence.spec_cases()[k].spec_model().profile_hash
                != evidence.spec_profile_hash() || evidence.spec_cases()[k].spec_runtime().profile_hash
                != evidence.spec_profile_hash()) implies legacy_blockers(*policy, *evidence, verdicts@).contains(
                BlockerModel::CaseProfileMismatch { case_id: evidence.spec_cases()[k].spec_case_id() },
            ) by {
            lemma_foreign_profile_case_reported(*policy, *evidence, verdicts@, k);
        }
    }
    let mut blockers: Vec<PromotionBlocker> = Vec::new();
    push_blocker(&mut blockers, PromotionBlocker::UnvalidatedDecisionArtifacts);
    let profile = evidence.profile_hash();
    let exact = policy.require_exact_cases();
    let cases = evidence.cases();
    let tools = evidence.tools();
    let ghost start = blocker_views(blockers@);
    let mut index: usize = 0;
    while index < cases.len()
        invariant
            index <= cases@.len(),
            cases@ == evidence.spec_cases(),
            profile == evidence.spec_profile_hash(),
            blocker_views(blockers@) == start + legacy_cases_blockers(cases@.subrange(0, index as int), profile, exact),
        decreases cases@.len() - index,
    {
        let case = &cases[index];
        let ghost before = blocker_views(blockers@);
        if !crate::receipt::same_hash(case.model().artifacts().profile_hash, profile)
            || !crate::receipt::same_hash(case.runtime().artifacts().profile_hash, profile) {
            push_blocker(&mut blockers, PromotionBlocker::CaseProfileMismatch { case_id: case.case_id() });
        }
        push_mismatch(&mut blockers, case.case_id(), case.report(), exact);
        proof {
            let next = cases@.subrange(0, index + 1);
            assert(next.drop_last() =~= cases@.subrange(0, index as int));
            assert(next.last() == cases@[index as int]);
            assert(blocker_views(blockers@) =~= before + legacy_case_blockers(cases@[index as int], profile, exact));
        }
        index = index + 1;
        assert(blocker_views(blockers@) =~= start + legacy_cases_blockers(cases@.subrange(0, index as int), profile, exact));
    }
    assert(cases@.subrange(0, cases@.len() as int) =~= cases@);
    let ghost after_cases = blocker_views(blockers@);
    match evidence.coverage() {
        CoverageMode::Exhaustive { cardinality, .. } => {
            if cardinality != cases.len() as u64 {
                push_blocker(&mut blockers, PromotionBlocker::ExhaustiveCardinalityMismatch);
            }
            push_blocker(&mut blockers, PromotionBlocker::UnverifiedLegacyExhaustiveCoverage);
        },
        CoverageMode::Bounded { case_budget } => {
            if cases.len() == 0 || cases.len() as u64 > case_budget {
                push_blocker(&mut blockers, PromotionBlocker::InvalidBoundedCoverage);
            }
        },
        CoverageMode::ProofAssisted { theorem_claim } => {
            if !claim_checked(tools, verdicts, theorem_claim) {
                push_blocker(&mut blockers, PromotionBlocker::MissingTheoremEvidence);
            }
        },
    }
    assert(blocker_views(blockers@) =~= after_cases + legacy_coverage_blockers(
        evidence.spec_coverage(),
        cases@.len(),
        tools@,
        verdicts@,
    ));
    push_missing_tools(&mut blockers, policy.required_tools(), tools, verdicts, None);
    let report = PromotionReport { blockers };
    assert(report.spec_blockers() =~= legacy_blockers(*policy, *evidence, verdicts@));
    report
}

fn collect_verdicts<V: ProofVerifier>(tools: &[ToolEvidence], verifier: &V) -> (verdicts: Vec<bool>)
    ensures
        verdicts@ == tool_verdicts(verifier, tools@),
{
    let mut verdicts: Vec<bool> = Vec::new();
    let mut index: usize = 0;
    while index < tools.len()
        invariant
            index <= tools@.len(),
            verdicts@ == tool_verdicts(verifier, tools@).subrange(0, index as int),
        decreases tools@.len() - index,
    {
        verdicts.push(verifier.verify(tools[index]));
        index = index + 1;
        assert(verdicts@ =~= tool_verdicts(verifier, tools@).subrange(0, index as int));
    }
    assert(verdicts@ =~= tool_verdicts(verifier, tools@));
    verdicts
}

/// Evaluates legacy diagnostic evidence.
///
/// The verifier is asked once about each tool artifact; what it answers is
/// its own affair, and the report is exactly what those answers give.
/// Legacy evidence always carries the unvalidated-artifact blocker, and
/// cardinality-only exhaustive claims always fail closed.
pub fn evaluate_promotion<V: ProofVerifier>(
    policy: &PromotionPolicy,
    evidence: &PromotionEvidence,
    verifier: &V,
) -> (report: PromotionReport)
    ensures
        report.spec_blockers() == legacy_blockers(*policy, *evidence, tool_verdicts(verifier, evidence.spec_tools())),
        forall|k: int|
            0 <= k < evidence.spec_cases().len() && (#[trigger] evidence.spec_cases()[k].spec_model().profile_hash
                != evidence.spec_profile_hash() || evidence.spec_cases()[k].spec_runtime().profile_hash
                != evidence.spec_profile_hash()) ==> report.spec_blockers().contains(
                BlockerModel::CaseProfileMismatch { case_id: evidence.spec_cases()[k].spec_case_id() },
            ),
{
    proof {
        assert forall|k: int|
            0 <= k < evidence.spec_cases().len() && (#[trigger] evidence.spec_cases()[k].spec_model().profile_hash
                != evidence.spec_profile_hash() || evidence.spec_cases()[k].spec_runtime().profile_hash
                != evidence.spec_profile_hash()) implies legacy_blockers(*policy, *evidence, tool_verdicts(verifier, evidence.spec_tools())).contains(
                BlockerModel::CaseProfileMismatch { case_id: evidence.spec_cases()[k].spec_case_id() },
            ) by {
            lemma_foreign_profile_case_reported(*policy, *evidence, tool_verdicts(verifier, evidence.spec_tools()), k);
        }
    }
    let verdicts = collect_verdicts(evidence.tools(), verifier);
    legacy_promotion_report(policy, evidence, verdicts.as_slice())
}

// ---------------------------------------------------------------------------
// Canonical bytes of validated evidence.
// ---------------------------------------------------------------------------

/// Canonical bytes of validated coverage: a tag, then the length-prefixed
/// manifest and the enumeration evidence, the budget, or the theorem claim.
pub open spec fn coverage_encoding(coverage: ValidatedCoverage) -> Seq<u8> {
    match coverage {
        ValidatedCoverage::Exhaustive { manifest, coverage_evidence } => seq![0u8] + blob(manifest.spec_encoding())
            + coverage_evidence.spec_encoding(),
        ValidatedCoverage::Bounded { case_budget } => seq![1u8] + be64(case_budget),
        ValidatedCoverage::ProofAssisted { theorem_claim } => seq![2u8] + theorem_claim.spec_bytes(),
    }
}

/// Each case's canonical bytes, length-prefixed, one after another.
pub open spec fn cases_encoding(cases: Seq<ValidatedRefinementCase>) -> Seq<u8>
    decreases cases.len(),
{
    if cases.len() == 0 {
        Seq::empty()
    } else {
        cases_encoding(cases.drop_last()) + blob(cases.last().spec_encoding())
    }
}

/// Each tool's canonical bytes, one after another.
pub open spec fn tools_encoding(tools: Seq<ToolEvidence>) -> Seq<u8>
    decreases tools.len(),
{
    if tools.len() == 0 {
        Seq::empty()
    } else {
        tools_encoding(tools.drop_last()) + tools.last().spec_encoding()
    }
}

fn encode_tools(output: &mut Vec<u8>, tools: &[ToolEvidence])
    ensures
        final(output)@ == old(output)@ + tools_encoding(tools@),
{
    let mut index: usize = 0;
    while index < tools.len()
        invariant
            index <= tools@.len(),
            output@ == old(output)@ + tools_encoding(tools@.subrange(0, index as int)),
        decreases tools@.len() - index,
    {
        tools[index].encode_to(output);
        proof {
            let next = tools@.subrange(0, index + 1);
            assert(next.drop_last() =~= tools@.subrange(0, index as int));
        }
        index = index + 1;
        assert(output@ =~= old(output)@ + tools_encoding(tools@.subrange(0, index as int)));
    }
    assert(tools@.subrange(0, tools@.len() as int) =~= tools@);
}

impl ValidatedCoverage {
    /// The canonical bytes of the coverage.
    pub fn canonical_bytes(&self) -> (bytes: Result<Vec<u8>, EncodeError>)
        ensures
            bytes matches Ok(b) && b@ == coverage_encoding(*self),
            coverage_encoding(*self).len() <= 33000000,
    {
        let mut output: Vec<u8> = Vec::new();
        match self {
            ValidatedCoverage::Exhaustive { manifest, coverage_evidence } => {
                put_u8(&mut output, 0);
                let hashes = manifest.input_hashes();
                let body = match manifest.canonical_bytes() {
                    Ok(b) => b,
                    Err(e) => return Err(e),
                };
                proof {
                    super::validated::lemma_hashes_encoding_len(hashes@);
                    assert(body@.len() <= 32000300);
                }
                match put_u32_blob(&mut output, body.as_slice()) {
                    Ok(()) => {},
                    Err(e) => return Err(e),
                }
                coverage_evidence.encode_to(&mut output);
            },
            ValidatedCoverage::Bounded { case_budget } => {
                put_u8(&mut output, 1);
                put_u64(&mut output, *case_budget);
            },
            ValidatedCoverage::ProofAssisted { theorem_claim } => {
                put_u8(&mut output, 2);
                put_bytes(&mut output, theorem_claim.as_bytes());
            },
        }
        assert(output@ =~= coverage_encoding(*self));
        Ok(output)
    }
}

impl ValidatedPromotionEvidence {
    /// Canonical bytes: protocol version, profile, length-prefixed
    /// coverage, the counted length-prefixed cases, the counted tools.
    pub open spec fn spec_encoding(self) -> Seq<u8> {
        be16(super::validated::REFINEMENT_PROTOCOL_VERSION) + self.spec_profile_hash().spec_bytes() + blob(
            coverage_encoding(self.spec_coverage()),
        ) + be32(self.spec_cases().len() as u32) + cases_encoding(self.spec_cases()) + be32(
            self.spec_tools().len() as u32,
        ) + tools_encoding(self.spec_tools())
    }

    /// The canonical bytes of the evidence.
    pub fn canonical_bytes(&self) -> (bytes: Result<Vec<u8>, EncodeError>)
        ensures
            bytes matches Ok(b) && b@ == self.spec_encoding(),
    {
        let mut output: Vec<u8> = Vec::new();
        put_u16(&mut output, super::validated::REFINEMENT_PROTOCOL_VERSION);
        put_bytes(&mut output, self.profile_hash.as_bytes());
        let coverage = match self.coverage.canonical_bytes() {
            Ok(b) => b,
            Err(e) => return Err(e),
        };
        match put_u32_blob(&mut output, coverage.as_slice()) {
            Ok(()) => {},
            Err(e) => return Err(e),
        }
        let cases = self.cases();
        put_u32(&mut output, cases.len() as u32);
        let ghost start = output@;
        let mut index: usize = 0;
        while index < cases.len()
            invariant
                index <= cases@.len(),
                output@ == start + cases_encoding(cases@.subrange(0, index as int)),
            decreases cases@.len() - index,
        {
            let bytes = match cases[index].canonical_bytes() {
                Ok(b) => b,
                Err(e) => return Err(e),
            };
            match put_u32_blob(&mut output, bytes.as_slice()) {
                Ok(()) => {},
                Err(e) => return Err(e),
            }
            proof {
                let next = cases@.subrange(0, index + 1);
                assert(next.drop_last() =~= cases@.subrange(0, index as int));
            }
            index = index + 1;
            assert(output@ =~= start + cases_encoding(cases@.subrange(0, index as int)));
        }
        assert(cases@.subrange(0, cases@.len() as int) =~= cases@);
        let tools = self.tools();
        put_u32(&mut output, tools.len() as u32);
        encode_tools(&mut output, tools);
        assert(output@ =~= self.spec_encoding());
        Ok(output)
    }
}

// ---------------------------------------------------------------------------
// The exhaustive coverage claim.
// ---------------------------------------------------------------------------

/// Each case's input commitment and identifier, one case after another.
pub open spec fn case_pairs_encoding(cases: Seq<ValidatedRefinementCase>) -> Seq<u8>
    decreases cases.len(),
{
    if cases.len() == 0 {
        Seq::empty()
    } else {
        case_pairs_encoding(cases.drop_last()) + cases.last().spec_input_hash().spec_bytes()
            + cases.last().spec_case_id().spec_bytes()
    }
}

/// The bytes an exhaustive coverage claim commits to: protocol version,
/// length-prefixed manifest, the counted case pairs, the context, the
/// provider code and the verifier identity.
pub open spec fn coverage_claim_encoding(
    manifest: ExhaustiveDomainManifest,
    cases: Seq<ValidatedRefinementCase>,
    context: PromotionEvaluationContext,
    provider: ApprovedProviderId,
    verifier_hash: Hash32,
) -> Seq<u8> {
    be16(super::validated::REFINEMENT_PROTOCOL_VERSION) + blob(manifest.spec_encoding()) + be32(cases.len() as u32)
        + case_pairs_encoding(cases) + context.spec_encoding() + be16(provider.spec_code())
        + verifier_hash.spec_bytes()
}

/// The bytes an exhaustive coverage claim commits to; refused when the
/// cases cannot be counted in 32 bits.
pub fn exhaustive_coverage_claim_bytes(
    manifest: &ExhaustiveDomainManifest,
    cases: &[ValidatedRefinementCase],
    context: PromotionEvaluationContext,
    provider: ApprovedProviderId,
    verifier_hash: Hash32,
) -> (bytes: Result<Vec<u8>, EncodeError>)
    ensures
        bytes is Ok <==> cases@.len() <= u32::MAX,
        bytes matches Ok(b) ==> b@ == coverage_claim_encoding(*manifest, cases@, context, provider, verifier_hash),
{
    let mut output: Vec<u8> = Vec::new();
    put_u16(&mut output, super::validated::REFINEMENT_PROTOCOL_VERSION);
    let hashes = manifest.input_hashes();
    let body = match manifest.canonical_bytes() {
        Ok(b) => b,
        Err(e) => return Err(e),
    };
    proof {
        super::validated::lemma_hashes_encoding_len(hashes@);
    }
    match put_u32_blob(&mut output, body.as_slice()) {
        Ok(()) => {},
        Err(e) => return Err(e),
    }
    match crate::encode::put_length(&mut output, cases.len()) {
        Ok(()) => {},
        Err(e) => return Err(e),
    }
    let ghost start = output@;
    let mut index: usize = 0;
    while index < cases.len()
        invariant
            index <= cases@.len(),
            output@ == start + case_pairs_encoding(cases@.subrange(0, index as int)),
        decreases cases@.len() - index,
    {
        put_bytes(&mut output, cases[index].input_hash().as_bytes());
        put_bytes(&mut output, cases[index].case_id().as_bytes());
        proof {
            let next = cases@.subrange(0, index + 1);
            assert(next.drop_last() =~= cases@.subrange(0, index as int));
        }
        index = index + 1;
        assert(output@ =~= start + case_pairs_encoding(cases@.subrange(0, index as int)));
    }
    assert(cases@.subrange(0, cases@.len() as int) =~= cases@);
    context.encode_to(&mut output);
    put_u16(&mut output, provider.code());
    put_bytes(&mut output, verifier_hash.as_bytes());
    assert(output@ =~= coverage_claim_encoding(*manifest, cases@, context, provider, verifier_hash));
    Ok(output)
}

/// The exhaustive coverage claim provider `H` derives: its hash of the claim
/// bytes under the coverage-claim domain.
pub open spec fn coverage_claim_commitment<H: ApprovedCommitmentProvider>(
    manifest: ExhaustiveDomainManifest,
    cases: Seq<ValidatedRefinementCase>,
    context: PromotionEvaluationContext,
    verifier_hash: Hash32,
) -> Hash32 {
    H::spec_hash(
        commitment_preimage(
            super::validated::exhaustive_coverage_claim_domain(),
            super::validated::REFINEMENT_PROTOCOL_VERSION,
            coverage_claim_encoding(manifest, cases, context, H::spec_provider_id(), verifier_hash),
        ),
    )
}

/// The claim strict evaluation checks coverage against: the derived claim
/// for exhaustive coverage, the zero placeholder otherwise.
pub open spec fn evidence_claim<H: ApprovedCommitmentProvider>(
    evidence: ValidatedPromotionEvidence,
    context: PromotionEvaluationContext,
    verifier_hash: Hash32,
) -> Hash32 {
    match evidence.spec_coverage() {
        ValidatedCoverage::Exhaustive { manifest, .. } => coverage_claim_commitment::<H>(
            *manifest,
            evidence.spec_cases(),
            context,
            verifier_hash,
        ),
        _ => Hash32::spec_zero(),
    }
}

/// Some case was validated under a provider other than the manifest's.
pub open spec fn some_case_off_manifest_provider(
    manifest: ExhaustiveDomainManifest,
    cases: Seq<ValidatedRefinementCase>,
) -> bool {
    some_case_off_provider(cases, manifest.spec_provider_id())
}

/// Some case was validated under a profile other than the manifest's.
pub open spec fn some_case_off_manifest_profile(
    manifest: ExhaustiveDomainManifest,
    cases: Seq<ValidatedRefinementCase>,
) -> bool {
    some_case_off_profile(cases, manifest.spec_profile_hash())
}

/// Derives the claim an enumeration checker must establish for exactly
/// these cases, this context, this provider and this verifier.
///
/// A zero verifier identity is refused first. Cases validated under
/// another provider than the manifest's are refused as a provider
/// mismatch; the provider itself is this crate's `H`, and a manifest or
/// case under another provider than `H` names is refused the same way.
/// Cases under another profile, or whose inputs are not exactly the
/// manifest's in order, are refused as a domain mismatch.
pub fn exhaustive_coverage_claim<H: ApprovedCommitmentProvider>(
    manifest: &ExhaustiveDomainManifest,
    cases: &[ValidatedRefinementCase],
    context: PromotionEvaluationContext,
    verifier_hash: Hash32,
) -> (claim: Result<Hash32, RefineError>)
    ensures
        verifier_hash.spec_is_zero() ==> claim == Err::<Hash32, RefineError>(RefineError::InvalidVerifierIdentity),
        !verifier_hash.spec_is_zero() && some_case_off_manifest_provider(*manifest, cases@) ==> claim == Err::<
            Hash32,
            RefineError,
        >(RefineError::ProviderBindingMismatch),
        claim matches Err(e) ==> (e is InvalidVerifierIdentity || e is ProviderBindingMismatch || (
        e is DomainCaseMismatch && (some_case_off_manifest_profile(*manifest, cases@) || !inputs_match(
            manifest.spec_input_hashes(),
            cases@,
        )))),
        claim is Ok ==> !verifier_hash.spec_is_zero() && !some_case_off_manifest_provider(*manifest, cases@)
            && !some_case_off_manifest_profile(*manifest, cases@) && inputs_match(manifest.spec_input_hashes(), cases@),
        !verifier_hash.spec_is_zero() && (manifest.spec_provider_id() != H::spec_provider_id() || some_case_off_provider(
            cases@,
            H::spec_provider_id(),
        )) ==> claim == Err::<Hash32, RefineError>(RefineError::ProviderBindingMismatch),
        claim == Err::<Hash32, RefineError>(RefineError::InvalidVerifierIdentity) ==> verifier_hash.spec_is_zero(),
        claim == Err::<Hash32, RefineError>(RefineError::ProviderBindingMismatch) ==> (manifest.spec_provider_id()
            != H::spec_provider_id() || some_case_off_provider(cases@, H::spec_provider_id())),
        claim matches Ok(c) ==> c == coverage_claim_commitment::<H>(*manifest, cases@, context, verifier_hash),
{
    if verifier_hash.is_zero() {
        return Err(RefineError::InvalidVerifierIdentity);
    }
    let provider = H::provider_id();
    if manifest.provider_id() != provider || slice_off_provider(cases, provider) {
        proof {
            if some_case_off_manifest_provider(*manifest, cases@) && manifest.spec_provider_id() == provider {
                assert(some_case_off_provider(cases@, provider));
            }
        }
        return Err(RefineError::ProviderBindingMismatch);
    }
    if slice_off_profile(cases, manifest.profile_hash()) || !match_inputs(manifest.input_hashes(), cases) {
        return Err(RefineError::DomainCaseMismatch);
    }
    let body = match exhaustive_coverage_claim_bytes(manifest, cases, context, provider, verifier_hash) {
        Ok(b) => b,
        Err(e) => return Err(RefineError::Encode(e)),
    };
    let label = super::validated::exhaustive_coverage_claim_label();
    Ok(super::validated::refinement_commitment::<H>(label.as_slice(), body.as_slice()))
}

// ---------------------------------------------------------------------------
// Strict promotion.
// ---------------------------------------------------------------------------

/// Blockers of the validated cases: each mismatch, case by case, when
/// exactness is required.
pub open spec fn validated_cases_blockers(cases: Seq<ValidatedRefinementCase>, exact: bool) -> Seq<BlockerModel>
    decreases cases.len(),
{
    if cases.len() == 0 {
        Seq::empty()
    } else {
        validated_cases_blockers(cases.drop_last(), exact) + mismatch_blocker(
            cases.last().spec_case_id(),
            artifact_mismatches(cases.last().spec_model(), cases.last().spec_runtime()),
            exact,
        )
    }
}

/// Blockers of validated coverage, given the claim derived for it and
/// the verifier's verdict on its enumeration evidence.
pub open spec fn validated_coverage_blockers(
    coverage: ValidatedCoverage,
    claim: Hash32,
    coverage_verdict: bool,
    tools: Seq<ToolEvidence>,
    verdicts: Seq<bool>,
) -> Seq<BlockerModel> {
    match coverage {
        ValidatedCoverage::Exhaustive { manifest, coverage_evidence } => if coverage_evidence.spec_kind()
            != ToolKind::DomainEnumeration || coverage_evidence.spec_claim() != claim
            || coverage_evidence.spec_toolchain() != manifest.spec_toolchain_hash()
            || coverage_evidence.spec_artifact().spec_is_zero() || !coverage_verdict {
            seq![BlockerModel::MissingCoverageEvidence]
        } else {
            Seq::empty()
        },
        ValidatedCoverage::Bounded { .. } => Seq::empty(),
        ValidatedCoverage::ProofAssisted { theorem_claim } => if claim_verified(tools, verdicts, theorem_claim) {
            Seq::empty()
        } else {
            seq![BlockerModel::MissingTheoremEvidence]
        },
    }
}

/// The kind the accepted enumeration evidence supplies, if any.
pub open spec fn covered_kind(coverage: ValidatedCoverage, coverage_verdict: bool) -> Option<ToolKind> {
    match coverage {
        ValidatedCoverage::Exhaustive { coverage_evidence, .. } => if coverage_verdict {
            Some(coverage_evidence.spec_kind())
        } else {
            None
        },
        _ => None,
    }
}

/// Every blocker of validated evidence, given the derived coverage claim
/// and the verifier's verdicts: case mismatches, coverage, then missing
/// required tools.
pub open spec fn validated_blockers(
    policy: PromotionPolicy,
    evidence: ValidatedPromotionEvidence,
    claim: Hash32,
    coverage_verdict: bool,
    verdicts: Seq<bool>,
) -> Seq<BlockerModel> {
    validated_cases_blockers(evidence.spec_cases(), policy.spec_require_exact_cases()) + validated_coverage_blockers(
        evidence.spec_coverage(),
        claim,
        coverage_verdict,
        evidence.spec_tools(),
        verdicts,
    ) + missing_tool_blockers(
        policy.spec_required_tools(),
        evidence.spec_tools(),
        verdicts,
        covered_kind(evidence.spec_coverage(), coverage_verdict),
    )
}

/// The blockers the derived coverage claim and the verifier's verdicts
/// give: one verdict on the enumeration evidence, one per tool.
pub fn validated_promotion_blockers(
    policy: &PromotionPolicy,
    evidence: &ValidatedPromotionEvidence,
    claim: Hash32,
    coverage_verdict: bool,
    verdicts: &[bool],
) -> (blockers: Vec<PromotionBlocker>)
    requires
        verdicts@.len() == evidence.spec_tools().len(),
    ensures
        blocker_views(blockers@) == validated_blockers(*policy, *evidence, claim, coverage_verdict, verdicts@),
{
    let mut blockers: Vec<PromotionBlocker> = Vec::new();
    let exact = policy.require_exact_cases();
    let cases = evidence.cases();
    let tools = evidence.tools();
    let mut index: usize = 0;
    while index < cases.len()
        invariant
            index <= cases@.len(),
            cases@ == evidence.spec_cases(),
            blocker_views(blockers@) == validated_cases_blockers(cases@.subrange(0, index as int), exact),
        decreases cases@.len() - index,
    {
        let case = &cases[index];
        push_mismatch(&mut blockers, case.case_id(), case.report(), exact);
        proof {
            let next = cases@.subrange(0, index + 1);
            assert(next.drop_last() =~= cases@.subrange(0, index as int));
            assert(next.last() == cases@[index as int]);
        }
        index = index + 1;
        assert(blocker_views(blockers@) =~= validated_cases_blockers(cases@.subrange(0, index as int), exact));
    }
    assert(cases@.subrange(0, cases@.len() as int) =~= cases@);
    let ghost after_cases = blocker_views(blockers@);
    let mut covered: Option<ToolKind> = None;
    match evidence.coverage() {
        ValidatedCoverage::Exhaustive { manifest, coverage_evidence } => {
            if coverage_evidence.kind() != ToolKind::DomainEnumeration || !crate::receipt::same_hash(
                coverage_evidence.claim(),
                claim,
            ) || !crate::receipt::same_hash(coverage_evidence.toolchain(), manifest.toolchain_hash())
                || coverage_evidence.artifact().is_zero() || !coverage_verdict {
                push_blocker(&mut blockers, PromotionBlocker::MissingCoverageEvidence);
            }
            if coverage_verdict {
                covered = Some(coverage_evidence.kind());
            }
        },
        ValidatedCoverage::Bounded { .. } => {},
        ValidatedCoverage::ProofAssisted { theorem_claim } => {
            if !claim_checked(tools, verdicts, *theorem_claim) {
                push_blocker(&mut blockers, PromotionBlocker::MissingTheoremEvidence);
            }
        },
    }
    assert(blocker_views(blockers@) =~= after_cases + validated_coverage_blockers(
        evidence.spec_coverage(),
        claim,
        coverage_verdict,
        tools@,
        verdicts@,
    ));
    push_missing_tools(&mut blockers, policy.required_tools(), tools, verdicts, covered);
    assert(blocker_views(blockers@) =~= validated_blockers(*policy, *evidence, claim, coverage_verdict, verdicts@));
    blockers
}

/// The stable wire tag of a mismatch.
pub open spec fn mismatch_tag(mismatch: Mismatch) -> u8 {
    match mismatch {
        Mismatch::DecisionKind => 0u8,
        Mismatch::ReasonCode => 1u8,
        Mismatch::ProfileHash => 2u8,
        Mismatch::CommandHash => 3u8,
        Mismatch::ContextHash => 4u8,
        Mismatch::PrecedenceHash => 5u8,
        Mismatch::AlgorithmHash => 6u8,
        Mismatch::BudgetHash => 7u8,
        Mismatch::PreRoot => 8u8,
        Mismatch::PostRoot => 9u8,
        Mismatch::CandidateId => 10u8,
        Mismatch::PatchBytes => 11u8,
        Mismatch::CommitPlanBytes => 12u8,
        Mismatch::OutboxPlanBytes => 13u8,
        Mismatch::ReceiptBytes => 14u8,
        Mismatch::BundleBytes => 15u8,
    }
}

fn mismatch_tag_of(mismatch: Mismatch) -> (tag: u8)
    ensures
        tag == mismatch_tag(mismatch),
{
    match mismatch {
        Mismatch::DecisionKind => 0,
        Mismatch::ReasonCode => 1,
        Mismatch::ProfileHash => 2,
        Mismatch::CommandHash => 3,
        Mismatch::ContextHash => 4,
        Mismatch::PrecedenceHash => 5,
        Mismatch::AlgorithmHash => 6,
        Mismatch::BudgetHash => 7,
        Mismatch::PreRoot => 8,
        Mismatch::PostRoot => 9,
        Mismatch::CandidateId => 10,
        Mismatch::PatchBytes => 11,
        Mismatch::CommitPlanBytes => 12,
        Mismatch::OutboxPlanBytes => 13,
        Mismatch::ReceiptBytes => 14,
        Mismatch::BundleBytes => 15,
    }
}

/// Canonical bytes of one blocker: a tag, then its fields.
pub open spec fn blocker_encoding(blocker: BlockerModel) -> Seq<u8> {
    match blocker {
        BlockerModel::CaseProfileMismatch { case_id } => seq![0u8] + case_id.spec_bytes(),
        BlockerModel::RefinementMismatch { case_id, mismatches } => seq![1u8] + case_id.spec_bytes() + be32(
            mismatches.len() as u32,
        ) + mismatches.map_values(|m: Mismatch| mismatch_tag(m)),
        BlockerModel::ExhaustiveCardinalityMismatch => seq![2u8],
        BlockerModel::UnverifiedLegacyExhaustiveCoverage => seq![3u8],
        BlockerModel::InvalidBoundedCoverage => seq![4u8],
        BlockerModel::MissingTheoremEvidence => seq![5u8],
        BlockerModel::MissingCoverageEvidence => seq![6u8],
        BlockerModel::MissingToolEvidence { kind } => seq![7u8, kind.spec_tag()],
        BlockerModel::UnvalidatedDecisionArtifacts => seq![8u8],
    }
}

/// The blockers' canonical bytes, one after another.
pub open spec fn blockers_encoding(blockers: Seq<BlockerModel>) -> Seq<u8>
    decreases blockers.len(),
{
    if blockers.len() == 0 {
        Seq::empty()
    } else {
        blockers_encoding(blockers.drop_last()) + blocker_encoding(blockers.last())
    }
}

/// Every count of the blockers fits its 32-bit prefix.
pub open spec fn blockers_fit(blockers: Seq<BlockerModel>) -> bool {
    &&& blockers.len() <= u32::MAX
    &&& forall|i: int| 0 <= i < blockers.len() ==> (#[trigger] blockers[i] matches BlockerModel::RefinementMismatch {
        mismatches,
        ..
    } ==> mismatches.len() <= u32::MAX)
}

/// The bytes a strict report's identity commits to: protocol version,
/// the five identities, the provider code and the counted blockers.
pub open spec fn report_body_encoding(
    policy_hash: Hash32,
    evidence_hash: Hash32,
    source_revision: Hash32,
    importer_hash: Hash32,
    verifier_hash: Hash32,
    provider: ApprovedProviderId,
    blockers: Seq<BlockerModel>,
) -> Seq<u8> {
    be16(super::validated::REFINEMENT_PROTOCOL_VERSION) + policy_hash.spec_bytes() + evidence_hash.spec_bytes()
        + source_revision.spec_bytes() + importer_hash.spec_bytes() + verifier_hash.spec_bytes() + be16(
        provider.spec_code(),
    ) + be32(blockers.len() as u32) + blockers_encoding(blockers)
}

fn encode_blocker(output: &mut Vec<u8>, blocker: &PromotionBlocker) -> (result: Result<(), EncodeError>)
    ensures
        result is Ok <==> (blocker@ matches BlockerModel::RefinementMismatch { mismatches, .. } ==> mismatches.len()
            <= u32::MAX),
        result is Ok ==> final(output)@ == old(output)@ + blocker_encoding(blocker@),
{
    match blocker {
        PromotionBlocker::CaseProfileMismatch { case_id } => {
            put_u8(output, 0);
            put_bytes(output, case_id.as_bytes());
        },
        PromotionBlocker::RefinementMismatch { case_id, mismatches } => {
            put_u8(output, 1);
            put_bytes(output, case_id.as_bytes());
            match crate::encode::put_length(output, mismatches.len()) {
                Ok(()) => {},
                Err(e) => return Err(e),
            }
            let ghost start = output@;
            let mut index: usize = 0;
            while index < mismatches.len()
                invariant
                    index <= mismatches@.len(),
                    output@ == start + mismatches@.subrange(0, index as int).map_values(|m: Mismatch| mismatch_tag(m)),
                decreases mismatches@.len() - index,
            {
                put_u8(output, mismatch_tag_of(mismatches[index]));
                index = index + 1;
                assert(output@ =~= start + mismatches@.subrange(0, index as int).map_values(
                    |m: Mismatch| mismatch_tag(m),
                ));
            }
            assert(mismatches@.subrange(0, mismatches@.len() as int) =~= mismatches@);
        },
        PromotionBlocker::ExhaustiveCardinalityMismatch => put_u8(output, 2),
        PromotionBlocker::UnverifiedLegacyExhaustiveCoverage => put_u8(output, 3),
        PromotionBlocker::InvalidBoundedCoverage => put_u8(output, 4),
        PromotionBlocker::MissingTheoremEvidence => put_u8(output, 5),
        PromotionBlocker::MissingCoverageEvidence => put_u8(output, 6),
        PromotionBlocker::MissingToolEvidence { kind } => {
            put_u8(output, 7);
            put_u8(output, kind.tag());
        },
        PromotionBlocker::UnvalidatedDecisionArtifacts => put_u8(output, 8),
    }
    assert(output@ =~= old(output)@ + blocker_encoding(blocker@));
    Ok(())
}

fn report_body(
    policy_hash: Hash32,
    evidence_hash: Hash32,
    source_revision: Hash32,
    importer_hash: Hash32,
    verifier_hash: Hash32,
    provider: ApprovedProviderId,
    blockers: &[PromotionBlocker],
) -> (body: Result<Vec<u8>, EncodeError>)
    ensures
        body is Ok <==> blockers_fit(blocker_views(blockers@)),
        body matches Ok(b) ==> b@ == report_body_encoding(
            policy_hash,
            evidence_hash,
            source_revision,
            importer_hash,
            verifier_hash,
            provider,
            blocker_views(blockers@),
        ),
{
    let ghost views = blocker_views(blockers@);
    let mut output: Vec<u8> = Vec::new();
    put_u16(&mut output, super::validated::REFINEMENT_PROTOCOL_VERSION);
    put_bytes(&mut output, policy_hash.as_bytes());
    put_bytes(&mut output, evidence_hash.as_bytes());
    put_bytes(&mut output, source_revision.as_bytes());
    put_bytes(&mut output, importer_hash.as_bytes());
    put_bytes(&mut output, verifier_hash.as_bytes());
    put_u16(&mut output, provider.code());
    match crate::encode::put_length(&mut output, blockers.len()) {
        Ok(()) => {},
        Err(e) => return Err(e),
    }
    let ghost start = output@;
    let mut index: usize = 0;
    while index < blockers.len()
        invariant
            index <= blockers@.len(),
            views == blocker_views(blockers@),
            blockers@.len() <= u32::MAX,
            output@ == start + blockers_encoding(views.subrange(0, index as int)),
            forall|i: int| 0 <= i < index ==> (#[trigger] views[i] matches BlockerModel::RefinementMismatch {
                mismatches,
                ..
            } ==> mismatches.len() <= u32::MAX),
        decreases blockers@.len() - index,
    {
        match encode_blocker(&mut output, &blockers[index]) {
            Ok(()) => {},
            Err(e) => {
                assert(!(views[index as int] matches BlockerModel::RefinementMismatch { mismatches, .. }
                    ==> mismatches.len() <= u32::MAX));
                return Err(e);
            },
        }
        proof {
            let next = views.subrange(0, index + 1);
            assert(next.drop_last() =~= views.subrange(0, index as int));
            assert(next.last() == blockers@[index as int]@);
        }
        index = index + 1;
        assert(output@ =~= start + blockers_encoding(views.subrange(0, index as int)));
    }
    assert(views.subrange(0, views.len() as int) =~= views);
    assert(output@ =~= report_body_encoding(
        policy_hash,
        evidence_hash,
        source_revision,
        importer_hash,
        verifier_hash,
        provider,
        views,
    ));
    Ok(output)
}

/// Content-addressed result of the strict promotion path.
#[derive(Debug, PartialEq, Eq)]
pub struct ValidatedPromotionReport {
    report_id: Hash32,
    policy_hash: Hash32,
    evidence_hash: Hash32,
    source_revision: Hash32,
    importer_hash: Hash32,
    verifier_hash: Hash32,
    provider_id: ApprovedProviderId,
    blockers: Vec<PromotionBlocker>,
}

impl ValidatedPromotionReport {
    /// Every count in the report fits its prefix.
    #[verifier::type_invariant]
    spec fn encodable(self) -> bool {
        blockers_fit(blocker_views(self.blockers@))
    }

    /// The content-addressed identity.
    pub closed spec fn spec_report_id(self) -> Hash32 {
        self.report_id
    }

    /// The promotion-policy identity.
    pub closed spec fn spec_policy_hash(self) -> Hash32 {
        self.policy_hash
    }

    /// The validated-evidence identity.
    pub closed spec fn spec_evidence_hash(self) -> Hash32 {
        self.evidence_hash
    }

    /// The evaluated source revision.
    pub closed spec fn spec_source_revision(self) -> Hash32 {
        self.source_revision
    }

    /// The importer identity.
    pub closed spec fn spec_importer_hash(self) -> Hash32 {
        self.importer_hash
    }

    /// The external verifier identity.
    pub closed spec fn spec_verifier_hash(self) -> Hash32 {
        self.verifier_hash
    }

    /// The approved provider.
    pub closed spec fn spec_provider_id(self) -> ApprovedProviderId {
        self.provider_id
    }

    /// Every blocker, in the order found.
    pub closed spec fn spec_blockers(self) -> Seq<BlockerModel> {
        blocker_views(self.blockers@)
    }

    /// The bytes the identity commits to.
    pub open spec fn spec_body(self) -> Seq<u8> {
        report_body_encoding(
            self.spec_policy_hash(),
            self.spec_evidence_hash(),
            self.spec_source_revision(),
            self.spec_importer_hash(),
            self.spec_verifier_hash(),
            self.spec_provider_id(),
            self.spec_blockers(),
        )
    }

    /// Canonical bytes: the identity, then the body.
    pub open spec fn spec_encoding(self) -> Seq<u8> {
        self.spec_report_id().spec_bytes() + self.spec_body()
    }

    /// Returns whether nothing blocks promotion.
    pub fn is_promotable(&self) -> (promotable: bool)
        ensures
            promotable == (self.spec_blockers().len() == 0),
    {
        self.blockers.len() == 0
    }

    /// Returns the content-addressed identity.
    pub fn report_id(&self) -> (hash: Hash32)
        ensures
            hash == self.spec_report_id(),
    {
        self.report_id
    }

    /// Returns the promotion-policy identity.
    pub fn policy_hash(&self) -> (hash: Hash32)
        ensures
            hash == self.spec_policy_hash(),
    {
        self.policy_hash
    }

    /// Returns the validated-evidence identity.
    pub fn evidence_hash(&self) -> (hash: Hash32)
        ensures
            hash == self.spec_evidence_hash(),
    {
        self.evidence_hash
    }

    /// Returns the evaluated source revision.
    pub fn source_revision(&self) -> (hash: Hash32)
        ensures
            hash == self.spec_source_revision(),
    {
        self.source_revision
    }

    /// Returns the importer identity.
    pub fn importer_hash(&self) -> (hash: Hash32)
        ensures
            hash == self.spec_importer_hash(),
    {
        self.importer_hash
    }

    /// Returns the external verifier identity.
    pub fn verifier_hash(&self) -> (hash: Hash32)
        ensures
            hash == self.spec_verifier_hash(),
    {
        self.verifier_hash
    }

    /// Returns the approved provider.
    pub fn provider_id(&self) -> (id: ApprovedProviderId)
        ensures
            id == self.spec_provider_id(),
    {
        self.provider_id
    }

    /// Returns every blocker, in the order found.
    pub fn blockers(&self) -> (blockers: &[PromotionBlocker])
        ensures
            blocker_views(blockers@) == self.spec_blockers(),
    {
        self.blockers.as_slice()
    }

    /// The canonical bytes of the report.
    pub fn canonical_bytes(&self) -> (bytes: Result<Vec<u8>, EncodeError>)
        ensures
            bytes matches Ok(b) && b@ == self.spec_encoding(),
    {
        proof {
            use_type_invariant(self);
        }
        let mut output: Vec<u8> = Vec::new();
        put_bytes(&mut output, self.report_id.as_bytes());
        let body = match report_body(
            self.policy_hash,
            self.evidence_hash,
            self.source_revision,
            self.importer_hash,
            self.verifier_hash,
            self.provider_id,
            self.blockers.as_slice(),
        ) {
            Ok(b) => b,
            Err(e) => return Err(e),
        };
        put_bytes(&mut output, body.as_slice());
        assert(output@ =~= self.spec_encoding());
        Ok(output)
    }
}

/// Every case was validated under the same provider.
pub open spec fn cases_share_provider(cases: Seq<ValidatedRefinementCase>, provider: ApprovedProviderId) -> bool {
    forall|i: int| 0 <= i < cases.len() ==> #[trigger] cases[i].spec_validation().provider_id == provider
}

/// Two cases were validated under different providers.
pub open spec fn cases_disagree_on_provider(cases: Seq<ValidatedRefinementCase>) -> bool {
    exists|i: int, j: int|
        0 <= i < cases.len() && 0 <= j < cases.len() && #[trigger] cases[i].spec_validation().provider_id
            != #[trigger] cases[j].spec_validation().provider_id
}

/// The provider of a validated evidence differs from `provider`: some case,
/// or the manifest of exhaustive coverage, names another.
pub open spec fn validated_provider_mismatch(evidence: ValidatedPromotionEvidence, provider: ApprovedProviderId) -> bool {
    some_case_off_provider(evidence.spec_cases(), provider) || (evidence.spec_coverage() matches ValidatedCoverage::Exhaustive {
        manifest,
        ..
    } && manifest.spec_provider_id() != provider)
}

/// The verifier's verdict on the enumeration evidence of exhaustive
/// coverage; other coverage has none.
pub open spec fn coverage_verdict_of<V: ProofVerifier>(verifier: &V, coverage: ValidatedCoverage) -> bool {
    match coverage {
        ValidatedCoverage::Exhaustive { coverage_evidence, .. } => verifier.spec_verdict(coverage_evidence),
        _ => false,
    }
}

/// What a strict report is for these blockers: a report with exactly them,
/// the context, the verifier and the provider when they fit their length
/// prefixes, otherwise the encoding error.
pub open spec fn validated_report_outcome(
    report: Result<ValidatedPromotionReport, RefineError>,
    blockers: Seq<BlockerModel>,
    context: PromotionEvaluationContext,
    verifier_hash: Hash32,
    provider: ApprovedProviderId,
) -> bool {
    &&& report is Ok <==> blockers_fit(blockers)
    &&& report matches Ok(r) ==> {
        &&& r.spec_blockers() == blockers
        &&& r.spec_source_revision() == context.spec_source_revision()
        &&& r.spec_importer_hash() == context.spec_importer_hash()
        &&& r.spec_verifier_hash() == verifier_hash
        &&& r.spec_provider_id() == provider
    }
    &&& report is Err ==> report == Err::<ValidatedPromotionReport, RefineError>(
        RefineError::Encode(EncodeError::LengthOverflow),
    )
}

/// The commitments a strict report of provider `H` carries: the policy and
/// evidence hashes of their canonical bytes, and the report identity of the
/// report body.
pub open spec fn validated_report_commitments<H: ApprovedCommitmentProvider>(
    report: ValidatedPromotionReport,
    policy: PromotionPolicy,
    evidence: ValidatedPromotionEvidence,
) -> bool {
    let version = super::validated::REFINEMENT_PROTOCOL_VERSION;
    &&& report.spec_policy_hash() == H::spec_hash(
        commitment_preimage(super::validated::promotion_policy_domain(), version, policy.spec_encoding()),
    )
    &&& report.spec_evidence_hash() == H::spec_hash(
        commitment_preimage(super::validated::promotion_evidence_domain(), version, evidence.spec_encoding()),
    )
    &&& report.spec_report_id() == H::spec_hash(
        commitment_preimage(
            super::validated::promotion_report_domain(),
            version,
            report_body_encoding(
                report.spec_policy_hash(),
                report.spec_evidence_hash(),
                report.spec_source_revision(),
                report.spec_importer_hash(),
                report.spec_verifier_hash(),
                report.spec_provider_id(),
                report.spec_blockers(),
            ),
        ),
    )
}

/// Builds the strict report for a derived coverage claim and the verifier's
/// identity and verdicts: exactly the blockers they give, with the policy,
/// evidence and report commitments of provider `H`.
pub fn validated_promotion_report<H: ApprovedCommitmentProvider>(
    policy: &PromotionPolicy,
    evidence: &ValidatedPromotionEvidence,
    context: PromotionEvaluationContext,
    verifier_hash: Hash32,
    claim: Hash32,
    coverage_verdict: bool,
    verdicts: &[bool],
) -> (report: Result<ValidatedPromotionReport, RefineError>)
    requires
        verdicts@.len() == evidence.spec_tools().len(),
    ensures
        validated_report_outcome(
            report,
            validated_blockers(*policy, *evidence, claim, coverage_verdict, verdicts@),
            context,
            verifier_hash,
            H::spec_provider_id(),
        ),
        report matches Ok(r) ==> validated_report_commitments::<H>(r, *policy, *evidence),
{
    let provider = H::provider_id();
    let blockers = validated_promotion_blockers(policy, evidence, claim, coverage_verdict, verdicts);
    let policy_bytes = {
        let mut bytes: Vec<u8> = Vec::new();
        policy.encode_to(&mut bytes);
        bytes
    };
    let policy_label = super::validated::promotion_policy_label();
    let policy_hash = super::validated::refinement_commitment::<H>(policy_label.as_slice(), policy_bytes.as_slice());
    let evidence_bytes = match evidence.canonical_bytes() {
        Ok(b) => b,
        Err(e) => return Err(RefineError::Encode(e)),
    };
    let evidence_label = super::validated::promotion_evidence_label();
    let evidence_hash = super::validated::refinement_commitment::<H>(
        evidence_label.as_slice(),
        evidence_bytes.as_slice(),
    );
    let body = match report_body(
        policy_hash,
        evidence_hash,
        context.source_revision(),
        context.importer_hash(),
        verifier_hash,
        provider,
        blockers.as_slice(),
    ) {
        Ok(b) => b,
        Err(e) => return Err(RefineError::Encode(e)),
    };
    let report_label = super::validated::promotion_report_label();
    let report_id = super::validated::refinement_commitment::<H>(report_label.as_slice(), body.as_slice());
    Ok(
        ValidatedPromotionReport {
            report_id,
            policy_hash,
            evidence_hash,
            source_revision: context.source_revision(),
            importer_hash: context.importer_hash(),
            verifier_hash,
            provider_id: provider,
            blockers,
        },
    )
}

/// Evaluates strictly reconstructed cases and independently checked
/// coverage.
///
/// The verifier names itself once and is asked once about the enumeration
/// evidence and once about each tool artifact; the provider is `H`. A zero
/// verifier identity is refused, then any case or manifest under another
/// provider. The report carries exactly the blockers those answers give,
/// its context, its verifier and its provider; the coverage claim it is
/// checked against is a commitment of `H`.
pub fn evaluate_validated_promotion<H: ApprovedCommitmentProvider, V: ProofVerifier>(
    policy: &PromotionPolicy,
    evidence: &ValidatedPromotionEvidence,
    context: PromotionEvaluationContext,
    verifier: &V,
) -> (report: Result<ValidatedPromotionReport, RefineError>)
    ensures
        verifier.spec_verifier_hash().spec_is_zero() ==> report == Err::<ValidatedPromotionReport, RefineError>(
            RefineError::InvalidVerifierIdentity,
        ),
        !verifier.spec_verifier_hash().spec_is_zero() && validated_provider_mismatch(*evidence, H::spec_provider_id())
            ==> report == Err::<ValidatedPromotionReport, RefineError>(RefineError::ProviderBindingMismatch),
        !verifier.spec_verifier_hash().spec_is_zero() && !validated_provider_mismatch(*evidence, H::spec_provider_id())
            ==> validated_report_outcome(
                report,
                validated_blockers(
                    *policy,
                    *evidence,
                    evidence_claim::<H>(*evidence, context, verifier.spec_verifier_hash()),
                    coverage_verdict_of(verifier, evidence.spec_coverage()),
                    tool_verdicts(verifier, evidence.spec_tools()),
                ),
                context,
                verifier.spec_verifier_hash(),
                H::spec_provider_id(),
            ),
        report matches Ok(r) ==> !r.spec_verifier_hash().spec_is_zero() && cases_share_provider(
            evidence.spec_cases(),
            r.spec_provider_id(),
        ),
        cases_disagree_on_provider(evidence.spec_cases()) ==> report is Err,
        report matches Ok(r) ==> validated_report_commitments::<H>(r, *policy, *evidence),
{
    let verifier_hash = verifier.verifier_hash();
    if verifier_hash.is_zero() {
        return Err(RefineError::InvalidVerifierIdentity);
    }
    let provider = H::provider_id();
    let cases = evidence.cases();
    if slice_off_provider(cases, provider) {
        return Err(RefineError::ProviderBindingMismatch);
    }
    proof {
        if cases_disagree_on_provider(cases@) {
            let (i, j) = choose|i: int, j: int|
                0 <= i < cases@.len() && 0 <= j < cases@.len() && #[trigger] cases@[i].spec_validation().provider_id
                    != #[trigger] cases@[j].spec_validation().provider_id;
            assert(cases@[i].spec_validation().provider_id == provider);
        }
    }
    let tools = evidence.tools();
    let verdicts = collect_verdicts(tools, verifier);
    let mut claim = Hash32::zero();
    let mut coverage_verdict = false;
    match evidence.coverage() {
        ValidatedCoverage::Exhaustive { manifest, coverage_evidence } => {
            claim = match exhaustive_coverage_claim::<H>(manifest, cases, context, verifier_hash) {
                Ok(c) => c,
                Err(e) => {
                    proof {
                        if e is ProviderBindingMismatch {
                            assert(manifest.spec_provider_id() != H::spec_provider_id());
                            assert(validated_provider_mismatch(*evidence, H::spec_provider_id()));
                        }
                        if e is DomainCaseMismatch {
                            if some_case_off_manifest_profile(**manifest, cases@) {
                                let i = choose|i: int|
                                    0 <= i < cases@.len() && #[trigger] cases@[i].spec_validation().bindings.profile_hash
                                        != manifest.spec_profile_hash();
                                assert(cases@[i].spec_validation().bindings.profile_hash == evidence.spec_profile_hash());
                            }
                        }
                    }
                    return Err(e);
                },
            };
            coverage_verdict = verifier.verify(*coverage_evidence);
        },
        _ => {},
    }
    assert(coverage_verdict == coverage_verdict_of(verifier, evidence.spec_coverage()));
    let report = validated_promotion_report::<H>(
        policy,
        evidence,
        context,
        verifier_hash,
        claim,
        coverage_verdict,
        verdicts.as_slice(),
    );
    proof {
        if report is Ok {
            assert(cases_share_provider(evidence.spec_cases(), report->Ok_0.spec_provider_id()));
        }
        assert(validated_report_outcome(
            report,
            validated_blockers(
                *policy,
                *evidence,
                claim,
                coverage_verdict_of(verifier, evidence.spec_coverage()),
                tool_verdicts(verifier, evidence.spec_tools()),
            ),
            context,
            verifier.spec_verifier_hash(),
            H::spec_provider_id(),
        ));
    }
    report
}

} // verus!

//! Decisions reconstructed against the exact invocation, state, domain and
//! approved commitment provider.
//!
//! A normalized decision is untrusted transport. A validated decision exists
//! only when strict decoding of its receipt or bundle, resealed against the
//! supplied pre-state, normalizes to exactly the same surface.

use vstd::prelude::*;

use vstd::string::StringSliceAdditionalSpecFns;
use vstd::utf8::encode_utf8;

use crate::commit::{commitment_preimage, CommitmentHasher, Domain, Hash32};
use crate::encode::{be16, blob, put_bytes, put_u16, put_u32, put_u8, EncodeError};
use crate::patch::{apply_ops, hash_value, value_root};
use crate::receipt::{
    same_bindings, same_hash, bindings_encoding, decision_tag, decode_commit_bundle, decode_reject_receipt, reject_fits,
    BundleDecodeLimits, CandidateBindings, CommitBundle, ReceiptDecodeLimits, RejectReceipt,
};
use crate::sort::{
    canonical_order, first_adjacent_duplicate, has_duplicate_key, lemma_canonical_order, lemma_duplicate_key_multiset,
    sort_by_key, strictly_sorted_by_key, Keyed,
};
use crate::value::Value;

use super::{
    artifact_mismatches, bundle_artifacts, bytes_view, compare_exact, decision_error, hash_view,
    lemma_exact_iff_same, lemma_exact_means_equal, reject_artifacts, same_artifacts, text_view, DecisionArtifacts, DecisionKind, NormalizedDecision,
    RefineError, RefinementReport, MAX_ARTIFACT_BYTES, MAX_REASON_BYTES,
};

verus! {

broadcast use Hash32::lemma_len;

/// Format version of refinement artifacts.
pub const REFINEMENT_PROTOCOL_VERSION: u16 = 1;

/// Nominal identity of an approved commitment provider.
#[derive(Clone, Copy, Debug, PartialEq, Eq, Structural, Hash)]
pub struct ApprovedProviderId(u16);

impl ApprovedProviderId {
    /// The numeric code.
    pub closed spec fn spec_code(self) -> u16 {
        self.0
    }

    /// An identity from its numeric code.
    pub fn new(code: u16) -> (id: Self)
        ensures
            id.spec_code() == code,
    {
        ApprovedProviderId(code)
    }

    /// Returns the numeric code.
    pub fn code(self) -> (code: u16)
        ensures
            code == self.spec_code(),
    {
        self.0
    }
}

/// A commitment provider a deployment approved, with its nominal identity.
pub trait ApprovedCommitmentProvider: CommitmentHasher {
    /// The approved identity this provider states for itself. A provider
    /// verified against these contracts states its own.
    closed spec fn spec_provider_id() -> ApprovedProviderId {
        arbitrary()
    }

    /// The approved identity of this provider.
    fn provider_id() -> (id: ApprovedProviderId)
        ensures
            id == Self::spec_provider_id(),
    ;
}

// ---------------------------------------------------------------------------
// Canonical bytes of normalized decisions.
// ---------------------------------------------------------------------------

/// An optional text: a presence byte, then the length-prefixed bytes.
pub open spec fn optional_text_encoding(text: Option<Seq<char>>) -> Seq<u8> {
    match text {
        None => seq![0u8],
        Some(chars) => seq![1u8] + blob(encode_utf8(chars)),
    }
}

/// An optional commitment: a presence byte, then the commitment.
pub open spec fn optional_hash_encoding(hash: Option<Hash32>) -> Seq<u8> {
    match hash {
        None => seq![0u8],
        Some(h) => seq![1u8] + h.spec_bytes(),
    }
}

/// An optional byte string: a presence byte, then the length-prefixed bytes.
pub open spec fn optional_blob_encoding(bytes: Option<Seq<u8>>) -> Seq<u8> {
    match bytes {
        None => seq![0u8],
        Some(b) => seq![1u8] + blob(b),
    }
}

/// Canonical bytes of a decision surface.
pub open spec fn decision_encoding(a: DecisionArtifacts) -> Seq<u8> {
    seq![decision_tag(a.kind)] + optional_text_encoding(text_view(a.reason_code)) + a.profile_hash.spec_bytes()
        + a.command_hash.spec_bytes() + a.context_hash.spec_bytes() + a.precedence_hash.spec_bytes()
        + a.algorithm_hash.spec_bytes() + a.budget_hash.spec_bytes() + a.pre_root.spec_bytes()
        + a.post_root.spec_bytes() + optional_hash_encoding(a.candidate_id) + optional_blob_encoding(
        bytes_view(a.patch_bytes),
    ) + optional_blob_encoding(bytes_view(a.commit_plan_bytes)) + optional_blob_encoding(
        bytes_view(a.outbox_plan_bytes),
    ) + blob(a.receipt_bytes@) + optional_blob_encoding(bytes_view(a.bundle_bytes))
}

fn put_optional_bytes(output: &mut Vec<u8>, bytes: &Option<Vec<u8>>)
    requires
        match bytes {
            Some(b) => b@.len() <= MAX_ARTIFACT_BYTES,
            None => true,
        },
    ensures
        final(output)@ == old(output)@ + optional_blob_encoding(bytes_view(*bytes)),
{
    match bytes {
        None => put_u8(output, 0),
        Some(b) => {
            put_u8(output, 1);
            put_u32(output, b.len() as u32);
            put_bytes(output, b.as_slice());
        },
    }
    assert(output@ =~= old(output)@ + optional_blob_encoding(bytes_view(*bytes)));
}

/// An admitted decision surface encodes in fewer than six maximal artifacts.
proof fn lemma_decision_encoding_len(a: DecisionArtifacts)
    requires
        decision_error(a) is None,
    ensures
        decision_encoding(a).len() <= 6 * MAX_ARTIFACT_BYTES,
{
    assert(optional_blob_encoding(bytes_view(a.patch_bytes)).len() <= 5 + MAX_ARTIFACT_BYTES);
    assert(optional_blob_encoding(bytes_view(a.commit_plan_bytes)).len() <= 5 + MAX_ARTIFACT_BYTES);
    assert(optional_blob_encoding(bytes_view(a.outbox_plan_bytes)).len() <= 5 + MAX_ARTIFACT_BYTES);
    assert(optional_blob_encoding(bytes_view(a.bundle_bytes)).len() <= 5 + MAX_ARTIFACT_BYTES);
    assert(blob(a.receipt_bytes@).len() <= 4 + MAX_ARTIFACT_BYTES);
    assert(optional_text_encoding(text_view(a.reason_code)).len() <= 5 + MAX_REASON_BYTES);
    assert(optional_hash_encoding(a.candidate_id).len() <= 33);
}

impl NormalizedDecision {
    /// The canonical bytes of the decision surface.
    pub fn canonical_bytes(&self) -> (bytes: Result<Vec<u8>, EncodeError>)
        ensures
            bytes matches Ok(b) && b@ == decision_encoding(self.spec_artifacts()),
            decision_encoding(self.spec_artifacts()).len() <= 6 * MAX_ARTIFACT_BYTES,
    {
        let a = self.artifacts();
        proof {
            lemma_decision_encoding_len(*a);
            if a.reason_code is Some {
                vstd::utf8::is_ascii_chars_encode_utf8(a.reason_code->Some_0@);
            }
        }
        let mut output: Vec<u8> = Vec::new();
        put_u8(&mut output, crate::receipt::decision_tag_of(a.kind));
        match &a.reason_code {
            None => put_u8(&mut output, 0),
            Some(text) => {
                let bytes = text.as_str().as_bytes();
                put_u8(&mut output, 1);
                put_u32(&mut output, bytes.len() as u32);
                put_bytes(&mut output, bytes);
            },
        }
        put_bytes(&mut output, a.profile_hash.as_bytes());
        put_bytes(&mut output, a.command_hash.as_bytes());
        put_bytes(&mut output, a.context_hash.as_bytes());
        put_bytes(&mut output, a.precedence_hash.as_bytes());
        put_bytes(&mut output, a.algorithm_hash.as_bytes());
        put_bytes(&mut output, a.budget_hash.as_bytes());
        put_bytes(&mut output, a.pre_root.as_bytes());
        put_bytes(&mut output, a.post_root.as_bytes());
        match a.candidate_id {
            None => put_u8(&mut output, 0),
            Some(hash) => {
                put_u8(&mut output, 1);
                put_bytes(&mut output, hash.as_bytes());
            },
        }
        put_optional_bytes(&mut output, &a.patch_bytes);
        put_optional_bytes(&mut output, &a.commit_plan_bytes);
        put_optional_bytes(&mut output, &a.outbox_plan_bytes);
        put_u32(&mut output, a.receipt_bytes.len() as u32);
        put_bytes(&mut output, a.receipt_bytes.as_slice());
        put_optional_bytes(&mut output, &a.bundle_bytes);
        assert(output@ =~= decision_encoding(self.spec_artifacts()));
        Ok(output)
    }
}

// ---------------------------------------------------------------------------
// Validated decisions.
// ---------------------------------------------------------------------------

/// Nested bounds for strict decision reconstruction.
#[derive(Clone, Copy, Debug, PartialEq, Eq, Structural)]
pub struct DecisionValidationLimits {
    /// Strict rejection-receipt limits.
    pub receipt: ReceiptDecodeLimits,
    /// Strict complete commit-bundle limits.
    pub bundle: BundleDecodeLimits,
}

impl Default for DecisionValidationLimits {
    fn default() -> (limits: Self)
        ensures
            limits.receipt.max_input_bytes == 65536,
            limits.bundle.max_input_bytes == 134217728,
    {
        DecisionValidationLimits { receipt: ReceiptDecodeLimits::default(), bundle: BundleDecodeLimits::default() }
    }
}

/// The exact invocation, state, domain and provider a decision was validated for.
#[derive(Debug, PartialEq, Eq)]
pub struct DecisionValidationBinding {
    bindings: CandidateBindings,
    pre_root: Hash32,
    state_domain_name: Vec<u8>,
    state_domain_version: u16,
    provider_id: ApprovedProviderId,
}

/// The content of a validation binding.
pub struct BindingModel {
    /// Candidate bindings the caller expected.
    pub bindings: CandidateBindings,
    /// Root of the exact supplied pre-state.
    pub pre_root: Hash32,
    /// State-domain label.
    pub state_domain_name: Seq<u8>,
    /// State-domain version.
    pub state_domain_version: u16,
    /// Approved provider.
    pub provider_id: ApprovedProviderId,
}

impl View for DecisionValidationBinding {
    type V = BindingModel;

    closed spec fn view(&self) -> BindingModel {
        BindingModel {
            bindings: self.bindings,
            pre_root: self.pre_root,
            state_domain_name: self.state_domain_name@,
            state_domain_version: self.state_domain_version,
            provider_id: self.provider_id,
        }
    }
}

/// Canonical bytes of a validation binding: protocol version, bindings,
/// pre-root, length-prefixed domain label, domain version, provider code.
pub open spec fn binding_encoding(b: BindingModel) -> Seq<u8> {
    be16(REFINEMENT_PROTOCOL_VERSION) + bindings_encoding(b.bindings) + b.pre_root.spec_bytes() + blob(
        b.state_domain_name,
    ) + be16(b.state_domain_version) + be16(b.provider_id.spec_code())
}

impl DecisionValidationBinding {
    /// The label fits its prefix.
    #[verifier::type_invariant]
    spec fn bounded(self) -> bool {
        self.state_domain_name@.len() <= u16::MAX
    }

    /// Returns the candidate bindings the caller expected.
    pub fn bindings(&self) -> (bindings: CandidateBindings)
        ensures
            bindings == self@.bindings,
    {
        self.bindings
    }

    /// Returns the root of the exact supplied pre-state.
    pub fn pre_root(&self) -> (root: Hash32)
        ensures
            root == self@.pre_root,
    {
        self.pre_root
    }

    /// Returns the state-domain label.
    pub fn state_domain_name(&self) -> (name: &[u8])
        ensures
            name@ == self@.state_domain_name,
    {
        self.state_domain_name.as_slice()
    }

    /// Returns the state-domain version.
    pub fn state_domain_version(&self) -> (version: u16)
        ensures
            version == self@.state_domain_version,
    {
        self.state_domain_version
    }

    /// Returns the approved provider.
    pub fn provider_id(&self) -> (id: ApprovedProviderId)
        ensures
            id == self@.provider_id,
    {
        self.provider_id
    }

    /// Whether two bindings hold the same content.
    pub fn same_as(&self, other: &Self) -> (same: bool)
        ensures
            same == (self@ == other@),
    {
        let names = crate::wire::bytes_equal(self.state_domain_name.as_slice(), other.state_domain_name.as_slice());
        let same = names && same_bindings(self.bindings, other.bindings) && same_hash(self.pre_root, other.pre_root)
            && self.state_domain_version == other.state_domain_version && self.provider_id.0 == other.provider_id.0;
        proof {
            if same {
                assert(self@ == other@);
            }
        }
        same
    }

    /// The canonical bytes of the binding.
    pub fn canonical_bytes(&self) -> (bytes: Result<Vec<u8>, EncodeError>)
        ensures
            bytes matches Ok(b) && b@ == binding_encoding(self@),
            binding_encoding(self@).len() <= u16::MAX + 240,
    {
        proof {
            use_type_invariant(self);
        }
        let mut output: Vec<u8> = Vec::new();
        put_u16(&mut output, REFINEMENT_PROTOCOL_VERSION);
        crate::receipt::encode_bindings(self.bindings, &mut output);
        put_bytes(&mut output, self.pre_root.as_bytes());
        put_u32(&mut output, self.state_domain_name.len() as u32);
        put_bytes(&mut output, self.state_domain_name.as_slice());
        put_u16(&mut output, self.state_domain_version);
        put_u16(&mut output, self.provider_id.0);
        assert(output@ =~= binding_encoding(self@));
        Ok(output)
    }
}

/// A normalized decision whose receipt or bundle strictly reconstructs it.
#[derive(Debug, PartialEq, Eq)]
pub struct ValidatedNormalizedDecision {
    decision: NormalizedDecision,
    validation: DecisionValidationBinding,
}

/// The untrusted surface is exactly what a canonical receipt or bundle for
/// the expected bindings normalizes to.
pub open spec fn reconstructs(a: DecisionArtifacts, expected: CandidateBindings, pre_state: crate::value::ValueModel) -> bool {
    if a.kind == DecisionKind::Reject {
        exists|r: RejectReceipt|
            #[trigger] reject_artifacts(&r, a) && r.spec_encoding() == a.receipt_bytes@ && r.spec_bindings()
                == expected
    } else {
        exists|b: CommitBundle|
            #[trigger] bundle_artifacts(&b, a) && bytes_view(a.bundle_bytes) == Some(b.spec_encoding())
                && b.spec_body().bindings == expected && apply_ops(b.spec_patch().spec_operations(), pre_state) is Ok
    }
}

/// A rejection surface whose receipt bytes are, within the receipt limit,
/// the canonical encoding of a rejection receipt for the expected bindings
/// that normalizes to exactly the surface.
pub open spec fn reject_decodes(a: DecisionArtifacts, expected: CandidateBindings, limits: DecisionValidationLimits) -> bool {
    &&& a.kind == DecisionKind::Reject
    &&& a.receipt_bytes@.len() <= limits.receipt.max_input_bytes
    &&& exists|r: RejectReceipt|
        #[trigger] reject_artifacts(&r, a) && r.spec_encoding() == a.receipt_bytes@ && r.spec_bindings() == expected
}

impl ValidatedNormalizedDecision {
    /// The reconstructed decision surface.
    pub closed spec fn spec_decision(self) -> DecisionArtifacts {
        self.decision.spec_artifacts()
    }

    /// The validation binding.
    pub closed spec fn spec_validation(self) -> BindingModel {
        self.validation@
    }

    /// Strictly reconstructs every authority-bearing artifact against an
    /// already computed pre-state commitment `expected_pre_root`, the state
    /// domain, the expected bindings and the approved provider.
    ///
    /// A surface whose pre-root differs is refused. A rejection whose receipt
    /// bytes are, within the limit, the canonical encoding of a rejection
    /// receipt for the expected bindings that normalizes to exactly the
    /// surface is accepted; any other decision needs bundle bytes.
    pub fn validate_at_root<H: ApprovedCommitmentProvider>(
        untrusted: NormalizedDecision,
        expected_pre_root: Hash32,
        pre_state: &Value,
        state_domain: &Domain,
        expected_bindings: CandidateBindings,
        limits: DecisionValidationLimits,
    ) -> (validated: Result<Self, RefineError>)
        ensures
            untrusted.spec_artifacts().pre_root != expected_pre_root ==> validated == Err::<Self, RefineError>(
                RefineError::UnexpectedPreRoot,
            ),
            untrusted.spec_artifacts().pre_root == expected_pre_root && reject_decodes(
                untrusted.spec_artifacts(),
                expected_bindings,
                limits,
            ) ==> (validated matches Ok(v) && v.spec_decision() == untrusted.spec_artifacts()),
            untrusted.spec_artifacts().pre_root == expected_pre_root && untrusted.spec_artifacts().kind
                != DecisionKind::Reject && untrusted.spec_artifacts().bundle_bytes is None ==> validated == Err::<
                Self,
                RefineError,
            >(RefineError::CommittedArtifactMissing),
            validated matches Ok(v) ==> v.spec_decision() == untrusted.spec_artifacts() && reconstructs(
                untrusted.spec_artifacts(),
                expected_bindings,
                pre_state@,
            ) && v.spec_validation().bindings == expected_bindings && v.spec_validation().pre_root
                == expected_pre_root && v.spec_validation().pre_root == untrusted.spec_artifacts().pre_root
                && v.spec_validation().state_domain_name == state_domain.spec_name()
                && v.spec_validation().state_domain_version == state_domain.spec_version()
                && v.spec_validation().provider_id == H::spec_provider_id(),
    {
        if !same_hash(untrusted.artifacts().pre_root, expected_pre_root) {
            return Err(RefineError::UnexpectedPreRoot);
        }
        let rebuilt = match untrusted.artifacts().kind {
            DecisionKind::Reject => {
                proof {
                    if reject_decodes(untrusted.spec_artifacts(), expected_bindings, limits) {
                        let r = choose|r: RejectReceipt|
                            #[trigger] reject_artifacts(&r, untrusted.spec_artifacts()) && r.spec_encoding()
                                == untrusted.spec_artifacts().receipt_bytes@ && r.spec_bindings() == expected_bindings;
                        vstd::utf8::is_ascii_chars_encode_utf8(r.spec_reason());
                        assert(reject_fits(
                            untrusted.spec_artifacts().receipt_bytes@,
                            r.spec_bindings(),
                            r.spec_pre_root(),
                            r.spec_reason(),
                        ));
                    }
                }
                let receipt = match decode_reject_receipt(untrusted.artifacts().receipt_bytes.as_slice(), limits.receipt) {
                    Ok(receipt) => receipt,
                    Err(error) => return Err(RefineError::ReceiptDecode(error)),
                };
                proof {
                    if reject_decodes(untrusted.spec_artifacts(), expected_bindings, limits) {
                        let r = choose|r: RejectReceipt|
                            #[trigger] reject_artifacts(&r, untrusted.spec_artifacts()) && r.spec_encoding()
                                == untrusted.spec_artifacts().receipt_bytes@ && r.spec_bindings() == expected_bindings;
                        vstd::utf8::is_ascii_chars_encode_utf8(r.spec_reason());
                        assert(reject_fits(
                            untrusted.spec_artifacts().receipt_bytes@,
                            r.spec_bindings(),
                            r.spec_pre_root(),
                            r.spec_reason(),
                        ));
                        assert(receipt.spec_bindings() == expected_bindings);
                        assert(receipt.spec_pre_root() == untrusted.spec_artifacts().pre_root);
                        assert(reject_artifacts(&receipt, untrusted.spec_artifacts()));
                    }
                }
                if !same_bindings(receipt.bindings(), expected_bindings) {
                    return Err(RefineError::InvocationBindingMismatch);
                }
                if !same_hash(receipt.pre_root(), expected_pre_root) {
                    return Err(RefineError::UnexpectedPreRoot);
                }
                let rebuilt = match NormalizedDecision::from_reject(&receipt) {
                    Ok(rebuilt) => rebuilt,
                    Err(error) => {
                        proof {
                            if reject_decodes(untrusted.spec_artifacts(), expected_bindings, limits) {
                                let a = choose|a: DecisionArtifacts|
                                    #[trigger] reject_artifacts(&receipt, a) && match decision_error(a) {
                                        Some(e) => Err::<NormalizedDecision, RefineError>(e) == Err::<
                                            NormalizedDecision,
                                            RefineError,
                                        >(e),
                                        None => true,
                                    };
                                assert(same_artifacts(a, untrusted.spec_artifacts()));
                                assert(decision_error(a) == decision_error(untrusted.spec_artifacts()));
                            }
                        }
                        return Err(error);
                    },
                };
                proof {
                    if reject_decodes(untrusted.spec_artifacts(), expected_bindings, limits) {
                        assert(same_artifacts(rebuilt.spec_artifacts(), untrusted.spec_artifacts()));
                        lemma_exact_iff_same(rebuilt.spec_artifacts(), untrusted.spec_artifacts());
                    }
                }
                let report = compare_exact(&rebuilt, &untrusted);
                if !report.is_exact() {
                    return Err(RefineError::ArtifactReconstructionMismatch);
                }
                proof {
                    let a = choose|a: DecisionArtifacts|
                        #[trigger] reject_artifacts(&receipt, a) && match decision_error(a) {
                            Some(e) => Err::<NormalizedDecision, RefineError>(e) == Err::<NormalizedDecision, RefineError>(e),
                            None => true,
                        } && rebuilt.spec_artifacts() == a;
                    lemma_exact_means_equal(rebuilt.spec_artifacts(), untrusted.spec_artifacts());
                    assert(reject_artifacts(&receipt, untrusted.spec_artifacts()));
                }
                rebuilt
            },
            _ => {
                let bundle_bytes = match &untrusted.artifacts().bundle_bytes {
                    Some(bytes) => bytes,
                    None => return Err(RefineError::CommittedArtifactMissing),
                };
                let bundle = match decode_commit_bundle::<H>(bundle_bytes.as_slice(), pre_state, state_domain, limits.bundle) {
                    Ok(bundle) => bundle,
                    Err(error) => return Err(RefineError::ReceiptDecode(error)),
                };
                if !same_bindings(bundle.body().bindings(), expected_bindings) {
                    return Err(RefineError::InvocationBindingMismatch);
                }
                let rebuilt = match NormalizedDecision::from_bundle(&bundle) {
                    Ok(rebuilt) => rebuilt,
                    Err(error) => return Err(error),
                };
                let report = compare_exact(&rebuilt, &untrusted);
                if !report.is_exact() {
                    return Err(RefineError::ArtifactReconstructionMismatch);
                }
                proof {
                    lemma_exact_means_equal(rebuilt.spec_artifacts(), untrusted.spec_artifacts());
                    assert(bundle_artifacts(&bundle, untrusted.spec_artifacts()));
                }
                rebuilt
            },
        };
        let validation = DecisionValidationBinding {
            bindings: expected_bindings,
            pre_root: expected_pre_root,
            state_domain_name: crate::decode::copy_range(state_domain.name(), 0, state_domain.name().len()),
            state_domain_version: state_domain.version(),
            provider_id: H::provider_id(),
        };
        Ok(ValidatedNormalizedDecision { decision: untrusted, validation })
    }

    /// Strictly reconstructs every authority-bearing artifact against the
    /// exact pre-state, state domain, expected bindings and approved provider.
    ///
    /// The pre-state commitment is the value root of `pre_state` under the
    /// state domain with provider `H`; the rest is `validate_at_root`.
    pub fn try_from_untrusted<H: ApprovedCommitmentProvider>(
        untrusted: NormalizedDecision,
        pre_state: &Value,
        state_domain: &Domain,
        expected_bindings: CandidateBindings,
        limits: DecisionValidationLimits,
    ) -> (validated: Result<Self, RefineError>)
        ensures
            untrusted.spec_artifacts().pre_root != value_root::<H>(
                state_domain.spec_name(),
                state_domain.spec_version(),
                pre_state@,
            ) ==> validated == Err::<Self, RefineError>(RefineError::UnexpectedPreRoot),
            untrusted.spec_artifacts().pre_root == value_root::<H>(
                state_domain.spec_name(),
                state_domain.spec_version(),
                pre_state@,
            ) && reject_decodes(untrusted.spec_artifacts(), expected_bindings, limits) ==> (validated matches Ok(v)
                && v.spec_decision() == untrusted.spec_artifacts()),
            untrusted.spec_artifacts().pre_root == value_root::<H>(
                state_domain.spec_name(),
                state_domain.spec_version(),
                pre_state@,
            ) && untrusted.spec_artifacts().kind != DecisionKind::Reject && untrusted.spec_artifacts().bundle_bytes
                is None ==> validated == Err::<Self, RefineError>(RefineError::CommittedArtifactMissing),
            validated matches Ok(v) ==> v.spec_decision() == untrusted.spec_artifacts() && reconstructs(
                untrusted.spec_artifacts(),
                expected_bindings,
                pre_state@,
            ) && v.spec_validation().bindings == expected_bindings && v.spec_validation().pre_root
                == untrusted.spec_artifacts().pre_root && v.spec_validation().state_domain_name
                == state_domain.spec_name() && v.spec_validation().state_domain_version
                == state_domain.spec_version(),
    {
        let expected_pre_root = match hash_value::<H>(state_domain, pre_state) {
            Ok(root) => root,
            Err(error) => return Err(RefineError::Patch(error)),
        };
        Self::validate_at_root::<H>(untrusted, expected_pre_root, pre_state, state_domain, expected_bindings, limits)
    }

    /// Returns the reconstructed decision.
    pub fn decision(&self) -> (decision: &NormalizedDecision)
        ensures
            decision.spec_artifacts() == self.spec_decision(),
    {
        &self.decision
    }

    /// Returns the validation binding.
    pub fn validation(&self) -> (validation: &DecisionValidationBinding)
        ensures
            validation@ == self.spec_validation(),
    {
        &self.validation
    }

    /// Canonical bytes: the length-prefixed binding, then the length-prefixed decision.
    pub open spec fn spec_encoding(self) -> Seq<u8> {
        blob(binding_encoding(self.spec_validation())) + blob(decision_encoding(self.spec_decision()))
    }

    /// The canonical bytes of the validated decision.
    pub fn canonical_bytes(&self) -> (bytes: Result<Vec<u8>, EncodeError>)
        ensures
            bytes matches Ok(b) && b@ == self.spec_encoding(),
            self.spec_encoding().len() <= 6 * MAX_ARTIFACT_BYTES + u16::MAX + 248,
    {
        let mut output: Vec<u8> = Vec::new();
        let binding = match self.validation.canonical_bytes() {
            Ok(binding) => binding,
            Err(error) => return Err(error),
        };
        match crate::encode::put_u32_blob(&mut output, binding.as_slice()) {
            Ok(()) => {},
            Err(error) => return Err(error),
        }
        let decision = match self.decision.canonical_bytes() {
            Ok(decision) => decision,
            Err(error) => return Err(error),
        };
        match crate::encode::put_u32_blob(&mut output, decision.as_slice()) {
            Ok(()) => {},
            Err(error) => return Err(error),
        }
        assert(output@ =~= self.spec_encoding());
        Ok(output)
    }
}

/// Compares two decisions only after both passed strict reconstruction.
pub fn compare_validated_exact(model: &ValidatedNormalizedDecision, runtime: &ValidatedNormalizedDecision) -> (report:
    RefinementReport)
    ensures
        report.spec_mismatches() == artifact_mismatches(model.spec_decision(), runtime.spec_decision()),
{
    compare_exact(model.decision(), runtime.decision())
}

// ---------------------------------------------------------------------------
// Refinement cases.
// ---------------------------------------------------------------------------

/// Hashes content framed under a refinement domain label, version 1.
pub(crate) fn refinement_commitment<H: CommitmentHasher>(label: &[u8], content: &[u8]) -> (hash: Hash32)
    requires
        label@.len() <= u16::MAX,
    ensures
        hash == H::spec_hash(commitment_preimage(label@, REFINEMENT_PROTOCOL_VERSION, content@)),
{
    let preimage = crate::commit::frame_commitment(label, REFINEMENT_PROTOCOL_VERSION, content);
    H::hash(preimage.as_slice())
}

/// The domain label `zeno-fcis/refinement-input`.
pub open spec fn refinement_input_domain() -> Seq<u8> {
    seq![122u8, 101u8, 110u8, 111u8, 45u8, 102u8, 99u8, 105u8, 115u8, 47u8, 114u8, 101u8, 102u8, 105u8, 110u8, 101u8, 109u8, 101u8, 110u8, 116u8, 45u8, 105u8, 110u8, 112u8, 117u8, 116u8]
}

/// The domain label `zeno-fcis/refinement-input`.
pub(crate) fn refinement_input_label() -> (label: Vec<u8>)
    ensures
        label@ == refinement_input_domain(),
        label@.len() == 26,
{
    let label: Vec<u8> = vec![122u8, 101u8, 110u8, 111u8, 45u8, 102u8, 99u8, 105u8, 115u8, 47u8, 114u8, 101u8, 102u8, 105u8, 110u8, 101u8, 109u8, 101u8, 110u8, 116u8, 45u8, 105u8, 110u8, 112u8, 117u8, 116u8];
    assert(label@ =~= refinement_input_domain());
    label
}

/// The domain label `zeno-fcis/refinement-case`.
pub open spec fn refinement_case_domain() -> Seq<u8> {
    seq![122u8, 101u8, 110u8, 111u8, 45u8, 102u8, 99u8, 105u8, 115u8, 47u8, 114u8, 101u8, 102u8, 105u8, 110u8, 101u8, 109u8, 101u8, 110u8, 116u8, 45u8, 99u8, 97u8, 115u8, 101u8]
}

/// The domain label `zeno-fcis/refinement-case`.
pub(crate) fn refinement_case_label() -> (label: Vec<u8>)
    ensures
        label@ == refinement_case_domain(),
        label@.len() == 25,
{
    let label: Vec<u8> = vec![122u8, 101u8, 110u8, 111u8, 45u8, 102u8, 99u8, 105u8, 115u8, 47u8, 114u8, 101u8, 102u8, 105u8, 110u8, 101u8, 109u8, 101u8, 110u8, 116u8, 45u8, 99u8, 97u8, 115u8, 101u8];
    assert(label@ =~= refinement_case_domain());
    label
}

/// The domain label `zeno-fcis/exhaustive-domain`.
pub open spec fn exhaustive_domain_domain() -> Seq<u8> {
    seq![122u8, 101u8, 110u8, 111u8, 45u8, 102u8, 99u8, 105u8, 115u8, 47u8, 101u8, 120u8, 104u8, 97u8, 117u8, 115u8, 116u8, 105u8, 118u8, 101u8, 45u8, 100u8, 111u8, 109u8, 97u8, 105u8, 110u8]
}

/// The domain label `zeno-fcis/exhaustive-domain`.
pub(crate) fn exhaustive_domain_label() -> (label: Vec<u8>)
    ensures
        label@ == exhaustive_domain_domain(),
        label@.len() == 27,
{
    let label: Vec<u8> = vec![122u8, 101u8, 110u8, 111u8, 45u8, 102u8, 99u8, 105u8, 115u8, 47u8, 101u8, 120u8, 104u8, 97u8, 117u8, 115u8, 116u8, 105u8, 118u8, 101u8, 45u8, 100u8, 111u8, 109u8, 97u8, 105u8, 110u8];
    assert(label@ =~= exhaustive_domain_domain());
    label
}

/// The domain label `zeno-fcis/exhaustive-coverage-claim`.
pub open spec fn exhaustive_coverage_claim_domain() -> Seq<u8> {
    seq![122u8, 101u8, 110u8, 111u8, 45u8, 102u8, 99u8, 105u8, 115u8, 47u8, 101u8, 120u8, 104u8, 97u8, 117u8, 115u8, 116u8, 105u8, 118u8, 101u8, 45u8, 99u8, 111u8, 118u8, 101u8, 114u8, 97u8, 103u8, 101u8, 45u8, 99u8, 108u8, 97u8, 105u8, 109u8]
}

/// The domain label `zeno-fcis/exhaustive-coverage-claim`.
pub(crate) fn exhaustive_coverage_claim_label() -> (label: Vec<u8>)
    ensures
        label@ == exhaustive_coverage_claim_domain(),
        label@.len() == 35,
{
    let label: Vec<u8> = vec![122u8, 101u8, 110u8, 111u8, 45u8, 102u8, 99u8, 105u8, 115u8, 47u8, 101u8, 120u8, 104u8, 97u8, 117u8, 115u8, 116u8, 105u8, 118u8, 101u8, 45u8, 99u8, 111u8, 118u8, 101u8, 114u8, 97u8, 103u8, 101u8, 45u8, 99u8, 108u8, 97u8, 105u8, 109u8];
    assert(label@ =~= exhaustive_coverage_claim_domain());
    label
}

/// The domain label `zeno-fcis/promotion-policy`.
pub open spec fn promotion_policy_domain() -> Seq<u8> {
    seq![122u8, 101u8, 110u8, 111u8, 45u8, 102u8, 99u8, 105u8, 115u8, 47u8, 112u8, 114u8, 111u8, 109u8, 111u8, 116u8, 105u8, 111u8, 110u8, 45u8, 112u8, 111u8, 108u8, 105u8, 99u8, 121u8]
}

/// The domain label `zeno-fcis/promotion-policy`.
pub(crate) fn promotion_policy_label() -> (label: Vec<u8>)
    ensures
        label@ == promotion_policy_domain(),
        label@.len() == 26,
{
    let label: Vec<u8> = vec![122u8, 101u8, 110u8, 111u8, 45u8, 102u8, 99u8, 105u8, 115u8, 47u8, 112u8, 114u8, 111u8, 109u8, 111u8, 116u8, 105u8, 111u8, 110u8, 45u8, 112u8, 111u8, 108u8, 105u8, 99u8, 121u8];
    assert(label@ =~= promotion_policy_domain());
    label
}

/// The domain label `zeno-fcis/promotion-evidence`.
pub open spec fn promotion_evidence_domain() -> Seq<u8> {
    seq![122u8, 101u8, 110u8, 111u8, 45u8, 102u8, 99u8, 105u8, 115u8, 47u8, 112u8, 114u8, 111u8, 109u8, 111u8, 116u8, 105u8, 111u8, 110u8, 45u8, 101u8, 118u8, 105u8, 100u8, 101u8, 110u8, 99u8, 101u8]
}

/// The domain label `zeno-fcis/promotion-evidence`.
pub(crate) fn promotion_evidence_label() -> (label: Vec<u8>)
    ensures
        label@ == promotion_evidence_domain(),
        label@.len() == 28,
{
    let label: Vec<u8> = vec![122u8, 101u8, 110u8, 111u8, 45u8, 102u8, 99u8, 105u8, 115u8, 47u8, 112u8, 114u8, 111u8, 109u8, 111u8, 116u8, 105u8, 111u8, 110u8, 45u8, 101u8, 118u8, 105u8, 100u8, 101u8, 110u8, 99u8, 101u8];
    assert(label@ =~= promotion_evidence_domain());
    label
}

/// The domain label `zeno-fcis/promotion-report`.
pub open spec fn promotion_report_domain() -> Seq<u8> {
    seq![122u8, 101u8, 110u8, 111u8, 45u8, 102u8, 99u8, 105u8, 115u8, 47u8, 112u8, 114u8, 111u8, 109u8, 111u8, 116u8, 105u8, 111u8, 110u8, 45u8, 114u8, 101u8, 112u8, 111u8, 114u8, 116u8]
}

/// The domain label `zeno-fcis/promotion-report`.
pub(crate) fn promotion_report_label() -> (label: Vec<u8>)
    ensures
        label@ == promotion_report_domain(),
        label@.len() == 26,
{
    let label: Vec<u8> = vec![122u8, 101u8, 110u8, 111u8, 45u8, 102u8, 99u8, 105u8, 115u8, 47u8, 112u8, 114u8, 111u8, 109u8, 111u8, 116u8, 105u8, 111u8, 110u8, 45u8, 114u8, 101u8, 112u8, 111u8, 114u8, 116u8];
    assert(label@ =~= promotion_report_domain());
    label
}

/// One legacy mounted diagnostic refinement case.
#[derive(Debug, PartialEq, Eq)]
pub struct RefinementCase {
    case_id: Hash32,
    input_hash: Hash32,
    model: NormalizedDecision,
    runtime: NormalizedDecision,
}

impl RefinementCase {
    /// The case identifier.
    pub closed spec fn spec_case_id(self) -> Hash32 {
        self.case_id
    }

    /// The input commitment.
    pub closed spec fn spec_input_hash(self) -> Hash32 {
        self.input_hash
    }

    /// The model decision surface.
    pub closed spec fn spec_model(self) -> DecisionArtifacts {
        self.model.spec_artifacts()
    }

    /// The runtime decision surface.
    pub closed spec fn spec_runtime(self) -> DecisionArtifacts {
        self.runtime.spec_artifacts()
    }

    /// Creates a case bound to an input and two decision surfaces.
    pub fn new(case_id: Hash32, input_hash: Hash32, model: NormalizedDecision, runtime: NormalizedDecision) -> (case:
        Self)
        ensures
            case.spec_case_id() == case_id,
            case.spec_input_hash() == input_hash,
            case.spec_model() == model.spec_artifacts(),
            case.spec_runtime() == runtime.spec_artifacts(),
    {
        RefinementCase { case_id, input_hash, model, runtime }
    }

    /// Returns the case identifier.
    pub fn case_id(&self) -> (id: Hash32)
        ensures
            id == self.spec_case_id(),
    {
        self.case_id
    }

    /// Returns the input commitment.
    pub fn input_hash(&self) -> (hash: Hash32)
        ensures
            hash == self.spec_input_hash(),
    {
        self.input_hash
    }

    /// Returns the model decision.
    pub fn model(&self) -> (model: &NormalizedDecision)
        ensures
            model.spec_artifacts() == self.spec_model(),
    {
        &self.model
    }

    /// Returns the runtime decision.
    pub fn runtime(&self) -> (runtime: &NormalizedDecision)
        ensures
            runtime.spec_artifacts() == self.spec_runtime(),
    {
        &self.runtime
    }

    /// Compares the model and runtime decisions.
    pub fn report(&self) -> (report: RefinementReport)
        ensures
            report.spec_mismatches() == artifact_mismatches(self.spec_model(), self.spec_runtime()),
    {
        compare_exact(&self.model, &self.runtime)
    }
}

impl Keyed for RefinementCase {
    open spec fn spec_key(&self) -> int {
        self.spec_case_id().spec_key()
    }

    fn key_lt(&self, other: &Self) -> bool {
        self.case_id.key_less(&other.case_id)
    }

    fn key_eq(&self, other: &Self) -> bool {
        !self.case_id.key_less(&other.case_id) && !other.case_id.key_less(&self.case_id)
    }
}

/// One model/runtime comparison between strictly reconstructed decisions.
#[derive(Debug, PartialEq, Eq)]
pub struct ValidatedRefinementCase {
    case_id: Hash32,
    input_hash: Hash32,
    model: ValidatedNormalizedDecision,
    runtime: ValidatedNormalizedDecision,
}

impl ValidatedRefinementCase {
    /// Both decisions were validated for one invocation.
    #[verifier::type_invariant]
    spec fn same_invocation(self) -> bool {
        self.model.spec_validation() == self.runtime.spec_validation()
    }

    /// The derived case identity.
    pub closed spec fn spec_case_id(self) -> Hash32 {
        self.case_id
    }

    /// The derived exact-input identity.
    pub closed spec fn spec_input_hash(self) -> Hash32 {
        self.input_hash
    }

    /// The validation binding both decisions share.
    pub closed spec fn spec_validation(self) -> BindingModel {
        self.model.spec_validation()
    }

    /// The model decision surface.
    pub closed spec fn spec_model(self) -> DecisionArtifacts {
        self.model.spec_decision()
    }

    /// The runtime decision surface.
    pub closed spec fn spec_runtime(self) -> DecisionArtifacts {
        self.runtime.spec_decision()
    }

    /// Creates a case from two decisions validated for the same invocation
    /// under this provider; the input and case identities are derived.
    pub fn try_new<H: ApprovedCommitmentProvider>(
        model: ValidatedNormalizedDecision,
        runtime: ValidatedNormalizedDecision,
    ) -> (case: Result<Self, RefineError>)
        ensures
            model.spec_validation() != runtime.spec_validation() ==> case == Err::<Self, RefineError>(
                RefineError::ValidationBindingMismatch,
            ),
            model.spec_validation() == runtime.spec_validation() && model.spec_validation().provider_id
                != H::spec_provider_id() ==> case == Err::<Self, RefineError>(RefineError::ProviderBindingMismatch),
            model.spec_validation() == runtime.spec_validation() && model.spec_validation().provider_id
                == H::spec_provider_id() ==> case is Ok,
            case matches Ok(c) ==> c.spec_validation() == model.spec_validation() && c.spec_model()
                == model.spec_decision() && c.spec_runtime() == runtime.spec_decision(),
            case matches Ok(c) ==> c.spec_input_hash() == H::spec_hash(
                commitment_preimage(
                    refinement_input_domain(),
                    REFINEMENT_PROTOCOL_VERSION,
                    binding_encoding(model.spec_validation()),
                ),
            ) && c.spec_case_id() == H::spec_hash(
                commitment_preimage(
                    refinement_case_domain(),
                    REFINEMENT_PROTOCOL_VERSION,
                    c.spec_input_hash().spec_bytes() + blob(model.spec_encoding()) + blob(runtime.spec_encoding()),
                ),
            ),
    {
        if !model.validation().same_as(runtime.validation()) {
            return Err(RefineError::ValidationBindingMismatch);
        }
        if model.validation().provider_id().0 != H::provider_id().0 {
            return Err(RefineError::ProviderBindingMismatch);
        }
        let validation_bytes = match model.validation().canonical_bytes() {
            Ok(bytes) => bytes,
            Err(error) => return Err(RefineError::Encode(error)),
        };
        let input_hash = refinement_commitment::<H>(refinement_input_label().as_slice(), validation_bytes.as_slice());
        let mut case_body: Vec<u8> = Vec::new();
        put_bytes(&mut case_body, input_hash.as_bytes());
        let model_bytes = match model.canonical_bytes() {
            Ok(bytes) => bytes,
            Err(error) => return Err(RefineError::Encode(error)),
        };
        match crate::encode::put_u32_blob(&mut case_body, model_bytes.as_slice()) {
            Ok(()) => {},
            Err(error) => return Err(RefineError::Encode(error)),
        }
        let runtime_bytes = match runtime.canonical_bytes() {
            Ok(bytes) => bytes,
            Err(error) => return Err(RefineError::Encode(error)),
        };
        match crate::encode::put_u32_blob(&mut case_body, runtime_bytes.as_slice()) {
            Ok(()) => {},
            Err(error) => return Err(RefineError::Encode(error)),
        }
        let case_id = refinement_commitment::<H>(refinement_case_label().as_slice(), case_body.as_slice());
        assert(case_body@ =~= input_hash.spec_bytes() + blob(model.spec_encoding()) + blob(runtime.spec_encoding()));
        Ok(ValidatedRefinementCase { case_id, input_hash, model, runtime })
    }

    /// Returns the derived case identity.
    pub fn case_id(&self) -> (id: Hash32)
        ensures
            id == self.spec_case_id(),
    {
        self.case_id
    }

    /// Returns the derived exact-input identity.
    pub fn input_hash(&self) -> (hash: Hash32)
        ensures
            hash == self.spec_input_hash(),
    {
        self.input_hash
    }

    /// Returns the target profile.
    pub fn profile_hash(&self) -> (hash: Hash32)
        ensures
            hash == self.spec_validation().bindings.profile_hash,
    {
        self.model.validation.bindings.profile_hash
    }

    /// Returns the provider used for strict reconstruction.
    pub fn provider_id(&self) -> (id: ApprovedProviderId)
        ensures
            id == self.spec_validation().provider_id,
    {
        self.model.validation.provider_id
    }

    /// Returns the model decision.
    pub fn model(&self) -> (model: &ValidatedNormalizedDecision)
        ensures
            model.spec_decision() == self.spec_model(),
            model.spec_validation() == self.spec_validation(),
    {
        &self.model
    }

    /// Returns the runtime decision.
    pub fn runtime(&self) -> (runtime: &ValidatedNormalizedDecision)
        ensures
            runtime.spec_decision() == self.spec_runtime(),
            runtime.spec_validation() == self.spec_validation(),
    {
        proof {
            use_type_invariant(self);
        }
        &self.runtime
    }

    /// Compares the two reconstructed decisions.
    pub fn report(&self) -> (report: RefinementReport)
        ensures
            report.spec_mismatches() == artifact_mismatches(self.spec_model(), self.spec_runtime()),
    {
        compare_validated_exact(&self.model, &self.runtime)
    }

    /// Canonical bytes: case identity, input identity, then the
    /// length-prefixed model and runtime decisions.
    pub closed spec fn spec_encoding(self) -> Seq<u8> {
        self.case_id.spec_bytes() + self.input_hash.spec_bytes() + blob(self.model.spec_encoding()) + blob(
            self.runtime.spec_encoding(),
        )
    }

    /// The canonical bytes of the case.
    pub fn canonical_bytes(&self) -> (bytes: Result<Vec<u8>, EncodeError>)
        ensures
            bytes matches Ok(b) && b@ == self.spec_encoding(),
            self.spec_encoding().len() <= 12 * MAX_ARTIFACT_BYTES + 2 * u16::MAX + 576,
    {
        let mut output: Vec<u8> = Vec::new();
        put_bytes(&mut output, self.case_id.as_bytes());
        put_bytes(&mut output, self.input_hash.as_bytes());
        let model = match self.model.canonical_bytes() {
            Ok(bytes) => bytes,
            Err(error) => return Err(error),
        };
        match crate::encode::put_u32_blob(&mut output, model.as_slice()) {
            Ok(()) => {},
            Err(error) => return Err(error),
        }
        let runtime = match self.runtime.canonical_bytes() {
            Ok(bytes) => bytes,
            Err(error) => return Err(error),
        };
        match crate::encode::put_u32_blob(&mut output, runtime.as_slice()) {
            Ok(()) => {},
            Err(error) => return Err(error),
        }
        assert(output@ =~= self.spec_encoding());
        Ok(output)
    }
}

impl Keyed for ValidatedRefinementCase {
    open spec fn spec_key(&self) -> int {
        self.spec_input_hash().spec_key()
    }

    fn key_lt(&self, other: &Self) -> bool {
        self.input_hash.key_less(&other.input_hash)
    }

    fn key_eq(&self, other: &Self) -> bool {
        !self.input_hash.key_less(&other.input_hash) && !other.input_hash.key_less(&self.input_hash)
    }
}

// ---------------------------------------------------------------------------
// Exhaustive domain manifests.
// ---------------------------------------------------------------------------

/// Most cases or domain inputs one piece of evidence may carry.
pub const MAX_CASES: usize = 1000000;

/// Commitments in strictly increasing order.
pub open spec fn hashes_increasing(hashes: Seq<Hash32>) -> bool {
    forall|i: int, j: int| 0 <= i < j < hashes.len() ==> hashes[i].spec_key() < hashes[j].spec_key()
}

/// The commitments one after another.
pub open spec fn hashes_encoding(hashes: Seq<Hash32>) -> Seq<u8>
    decreases hashes.len(),
{
    if hashes.len() == 0 {
        Seq::empty()
    } else {
        hashes_encoding(hashes.drop_last()) + hashes.last().spec_bytes()
    }
}

/// Each commitment takes its 32 bytes.
pub proof fn lemma_hashes_encoding_len(hashes: Seq<Hash32>)
    ensures
        hashes_encoding(hashes).len() == 32 * hashes.len(),
    decreases hashes.len(),
{
    if hashes.len() > 0 {
        lemma_hashes_encoding_len(hashes.drop_last());
    }
}

/// A manifest is admitted when its four identities are nonzero, its inputs
/// are few and strictly increasing, and an empty domain, and only an empty
/// one, carries a nonzero declaration.
pub open spec fn manifest_admissible(
    profile_hash: Hash32,
    domain_definition_hash: Hash32,
    enumeration_algorithm_hash: Hash32,
    toolchain_hash: Hash32,
    input_hashes: Seq<Hash32>,
    empty_domain_claim: Option<Hash32>,
) -> bool {
    &&& !profile_hash.spec_is_zero()
    &&& !domain_definition_hash.spec_is_zero()
    &&& !enumeration_algorithm_hash.spec_is_zero()
    &&& !toolchain_hash.spec_is_zero()
    &&& input_hashes.len() <= MAX_CASES
    &&& hashes_increasing(input_hashes)
    &&& input_hashes.len() == 0 ==> (empty_domain_claim matches Some(c) && !c.spec_is_zero())
    &&& input_hashes.len() > 0 ==> empty_domain_claim is None
}

fn increasing(hashes: &Vec<Hash32>) -> (ordered: bool)
    ensures
        ordered == hashes_increasing(hashes@),
{
    let mut index: usize = 1;
    while index < hashes.len()
        invariant
            1 <= index,
            forall|a: int, b: int| 0 <= a < b < index && b < hashes@.len() ==> hashes@[a].spec_key() < hashes@[b].spec_key(),
        decreases hashes@.len() - index,
    {
        if !hashes[index - 1].key_less(&hashes[index]) {
            return false;
        }
        assert forall|a: int, b: int| 0 <= a < b < index + 1 && b < hashes@.len() implies hashes@[a].spec_key()
            < hashes@[b].spec_key() by {
            if b == index && a < index - 1 {
                assert(hashes@[a].spec_key() < hashes@[index - 1].spec_key());
            }
        }
        index = index + 1;
    }
    true
}

/// Canonical finite-domain manifest behind an exhaustive refinement claim.
#[derive(Debug, PartialEq, Eq)]
pub struct ExhaustiveDomainManifest {
    manifest_id: Hash32,
    provider_id: ApprovedProviderId,
    profile_hash: Hash32,
    domain_definition_hash: Hash32,
    enumeration_algorithm_hash: Hash32,
    toolchain_hash: Hash32,
    input_hashes: Vec<Hash32>,
    empty_domain_claim: Option<Hash32>,
}

impl ExhaustiveDomainManifest {
    /// The manifest passed its admission rules.
    #[verifier::type_invariant]
    spec fn admitted(self) -> bool {
        manifest_admissible(
            self.profile_hash,
            self.domain_definition_hash,
            self.enumeration_algorithm_hash,
            self.toolchain_hash,
            self.input_hashes@,
            self.empty_domain_claim,
        )
    }

    /// The derived identity.
    pub closed spec fn spec_manifest_id(self) -> Hash32 {
        self.manifest_id
    }

    /// The provider that derived the identity.
    pub closed spec fn spec_provider_id(self) -> ApprovedProviderId {
        self.provider_id
    }

    /// The target profile.
    pub closed spec fn spec_profile_hash(self) -> Hash32 {
        self.profile_hash
    }

    /// The finite-domain definition.
    pub closed spec fn spec_domain_definition_hash(self) -> Hash32 {
        self.domain_definition_hash
    }

    /// The enumeration algorithm.
    pub closed spec fn spec_enumeration_algorithm_hash(self) -> Hash32 {
        self.enumeration_algorithm_hash
    }

    /// The enumeration toolchain.
    pub closed spec fn spec_toolchain_hash(self) -> Hash32 {
        self.toolchain_hash
    }

    /// The canonical input set.
    pub closed spec fn spec_input_hashes(self) -> Seq<Hash32> {
        self.input_hashes@
    }

    /// The empty-domain declaration.
    pub closed spec fn spec_empty_domain_claim(self) -> Option<Hash32> {
        self.empty_domain_claim
    }

    /// The bytes the identity commits to: protocol version, provider code,
    /// the four identities, the counted inputs and the optional declaration.
    pub open spec fn spec_body(self) -> Seq<u8> {
        be16(REFINEMENT_PROTOCOL_VERSION) + be16(self.spec_provider_id().spec_code())
            + self.spec_profile_hash().spec_bytes() + self.spec_domain_definition_hash().spec_bytes()
            + self.spec_enumeration_algorithm_hash().spec_bytes() + self.spec_toolchain_hash().spec_bytes()
            + crate::encode::be32(self.spec_input_hashes().len() as u32) + hashes_encoding(self.spec_input_hashes())
            + optional_hash_encoding(self.spec_empty_domain_claim())
    }

    /// Canonical bytes: the identity, then the body.
    pub open spec fn spec_encoding(self) -> Seq<u8> {
        self.spec_manifest_id().spec_bytes() + self.spec_body()
    }

    /// Creates a content-addressed manifest under this provider.
    ///
    /// Inputs must already be strictly increasing. An empty domain needs a
    /// nonzero declaration; a nonempty one must carry none.
    pub fn try_new<H: ApprovedCommitmentProvider>(
        profile_hash: Hash32,
        domain_definition_hash: Hash32,
        enumeration_algorithm_hash: Hash32,
        toolchain_hash: Hash32,
        input_hashes: Vec<Hash32>,
        empty_domain_claim: Option<Hash32>,
    ) -> (manifest: Result<Self, RefineError>)
        ensures
            !manifest_admissible(
                profile_hash,
                domain_definition_hash,
                enumeration_algorithm_hash,
                toolchain_hash,
                input_hashes@,
                empty_domain_claim,
            ) ==> manifest == Err::<Self, RefineError>(RefineError::InvalidDomainManifest),
            manifest_admissible(
                profile_hash,
                domain_definition_hash,
                enumeration_algorithm_hash,
                toolchain_hash,
                input_hashes@,
                empty_domain_claim,
            ) ==> manifest is Ok,
            manifest matches Ok(m) ==> m.spec_profile_hash() == profile_hash && m.spec_domain_definition_hash()
                == domain_definition_hash && m.spec_enumeration_algorithm_hash() == enumeration_algorithm_hash
                && m.spec_toolchain_hash() == toolchain_hash && m.spec_input_hashes() == input_hashes@
                && m.spec_empty_domain_claim() == empty_domain_claim,
            manifest matches Ok(m) ==> m.spec_provider_id() == H::spec_provider_id() && m.spec_manifest_id()
                == H::spec_hash(
                commitment_preimage(exhaustive_domain_domain(), REFINEMENT_PROTOCOL_VERSION, m.spec_body()),
            ),
    {
        let claim_ok = match empty_domain_claim {
            Some(claim) => input_hashes.len() == 0 && !claim.is_zero(),
            None => input_hashes.len() > 0,
        };
        if profile_hash.is_zero() || domain_definition_hash.is_zero() || enumeration_algorithm_hash.is_zero()
            || toolchain_hash.is_zero() || input_hashes.len() > MAX_CASES || !increasing(&input_hashes) || !claim_ok {
            return Err(RefineError::InvalidDomainManifest);
        }
        let mut manifest = ExhaustiveDomainManifest {
            manifest_id: Hash32::zero(),
            provider_id: H::provider_id(),
            profile_hash,
            domain_definition_hash,
            enumeration_algorithm_hash,
            toolchain_hash,
            input_hashes,
            empty_domain_claim,
        };
        let body = manifest.body_bytes();
        let id = refinement_commitment::<H>(exhaustive_domain_label().as_slice(), body.as_slice());
        manifest.manifest_id = id;
        Ok(manifest)
    }

    fn body_bytes(&self) -> (body: Vec<u8>)
        ensures
            body@ == self.spec_body(),
    {
        proof {
            use_type_invariant(self);
        }
        let mut output: Vec<u8> = Vec::new();
        put_u16(&mut output, REFINEMENT_PROTOCOL_VERSION);
        put_u16(&mut output, self.provider_id.0);
        put_bytes(&mut output, self.profile_hash.as_bytes());
        put_bytes(&mut output, self.domain_definition_hash.as_bytes());
        put_bytes(&mut output, self.enumeration_algorithm_hash.as_bytes());
        put_bytes(&mut output, self.toolchain_hash.as_bytes());
        put_u32(&mut output, self.input_hashes.len() as u32);
        let ghost head = output@;
        let mut index: usize = 0;
        while index < self.input_hashes.len()
            invariant
                index <= self.input_hashes@.len(),
                output@ == head + hashes_encoding(self.input_hashes@.take(index as int)),
            decreases self.input_hashes@.len() - index,
        {
            put_bytes(&mut output, self.input_hashes[index].as_bytes());
            proof {
                assert(self.input_hashes@.take(index + 1).drop_last() =~= self.input_hashes@.take(index as int));
            }
            index = index + 1;
            assert(output@ =~= head + hashes_encoding(self.input_hashes@.take(index as int)));
        }
        assert(self.input_hashes@.take(self.input_hashes@.len() as int) =~= self.input_hashes@);
        match self.empty_domain_claim {
            None => put_u8(&mut output, 0),
            Some(claim) => {
                put_u8(&mut output, 1);
                put_bytes(&mut output, claim.as_bytes());
            },
        }
        assert(output@ =~= self.spec_body());
        output
    }

    /// Returns the derived identity.
    pub fn manifest_id(&self) -> (id: Hash32)
        ensures
            id == self.spec_manifest_id(),
    {
        self.manifest_id
    }

    /// Returns the target profile.
    pub fn profile_hash(&self) -> (hash: Hash32)
        ensures
            hash == self.spec_profile_hash(),
    {
        self.profile_hash
    }

    /// Returns the finite-domain definition.
    pub fn domain_definition_hash(&self) -> (hash: Hash32)
        ensures
            hash == self.spec_domain_definition_hash(),
    {
        self.domain_definition_hash
    }

    /// Returns the enumeration algorithm.
    pub fn enumeration_algorithm_hash(&self) -> (hash: Hash32)
        ensures
            hash == self.spec_enumeration_algorithm_hash(),
    {
        self.enumeration_algorithm_hash
    }

    /// Returns the provider that derived the identity.
    pub fn provider_id(&self) -> (id: ApprovedProviderId)
        ensures
            id == self.spec_provider_id(),
    {
        self.provider_id
    }

    /// Returns the canonical input set.
    pub fn input_hashes(&self) -> (hashes: &[Hash32])
        ensures
            hashes@ == self.spec_input_hashes(),
            hashes_increasing(hashes@),
            hashes@.len() <= MAX_CASES,
    {
        proof {
            use_type_invariant(self);
        }
        self.input_hashes.as_slice()
    }

    /// Returns the exact cardinality.
    pub fn cardinality(&self) -> (cardinality: u64)
        ensures
            cardinality == self.spec_input_hashes().len(),
    {
        proof {
            use_type_invariant(self);
        }
        self.input_hashes.len() as u64
    }

    /// Returns the empty-domain declaration.
    pub fn empty_domain_claim(&self) -> (claim: Option<Hash32>)
        ensures
            claim == self.spec_empty_domain_claim(),
    {
        self.empty_domain_claim
    }

    /// Returns the enumeration toolchain.
    pub fn toolchain_hash(&self) -> (hash: Hash32)
        ensures
            hash == self.spec_toolchain_hash(),
    {
        self.toolchain_hash
    }

    /// The canonical bytes of the manifest.
    pub fn canonical_bytes(&self) -> (bytes: Result<Vec<u8>, EncodeError>)
        ensures
            bytes matches Ok(b) && b@ == self.spec_encoding(),
    {
        let mut output: Vec<u8> = Vec::new();
        put_bytes(&mut output, self.manifest_id.as_bytes());
        let body = self.body_bytes();
        put_bytes(&mut output, body.as_slice());
        Ok(output)
    }
}

} // verus!

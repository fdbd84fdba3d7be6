//! Same-candidate construction for patches, plans, receipts and commit bundles.
//!
//! Sealing applies the patch to the supplied immutable pre-state, derives the
//! post-root, commits every component and creates one candidate identity that
//! the receipt and the bundle both carry. Components of different candidates
//! cannot be combined through this interface.

use vstd::prelude::*;

use vstd::string::StringSliceAdditionalSpecFns;
use vstd::utf8::{encode_utf8, is_ascii_chars};

use crate::commit::{commitment_preimage, frame_commitment, CommitmentHasher, Domain, Hash32};
use crate::decode::utf8_string;
use crate::patch::{decode_canonical_patch, patch_fits, PatchDecodeError, PatchDecodeLimits};
use crate::plan::{decode_commit_plan, decode_outbox_plan, outbox_fits, plan_fits, PlanDecodeError, PlanDecodeLimits};
use crate::wire::{bytes_equal, read_blob, read_hash, read_u8, WireError};
use crate::encode::{be32, blob, put_bytes, put_u32, put_u32_blob, put_u8, EncodeError};
use crate::patch::{
    application_failure, apply_ops, ops_encodable, preconditions_hold, value_root, AppliedPatch, CanonicalPatch, OpModel,
    PatchError,
};
use crate::plan::{effects_encodable, entries_encodable, CommitPlan, Effect, OutboxEntry, OutboxPlan};
use crate::refine::DecisionKind;
use crate::value::{Value, ValueModel};

verus! {

broadcast use Hash32::lemma_len;

/// Longest stable reason code, in bytes.
pub const MAX_REASON_CODE_BYTES: usize = 96;

// ---------------------------------------------------------------------------
// Reason codes.
// ---------------------------------------------------------------------------

/// Why a text is not a reason code.
#[derive(Clone, Copy, Debug, PartialEq, Eq, Structural)]
pub enum TextError {
    /// The text holds a character outside ASCII.
    NonAscii,
    /// The text is longer than the bound.
    TooLong,
}

/// What a text answers as a reason code.
pub open spec fn reason_text_check(text: Seq<char>) -> Result<(), TextError> {
    if !is_ascii_chars(text) {
        Err(TextError::NonAscii)
    } else if text.len() > MAX_REASON_CODE_BYTES {
        Err(TextError::TooLong)
    } else {
        Ok(())
    }
}

/// A stable, bounded ASCII protocol reason code.
#[derive(Debug, PartialEq, Eq)]
pub struct ReasonCode {
    text: String,
}

impl ReasonCode {
    /// ASCII of at most the bound.
    #[verifier::type_invariant]
    spec fn bounded(self) -> bool {
        reason_text_check(self.text@) is Ok
    }

    /// The characters of the code.
    pub closed spec fn spec_text(self) -> Seq<char> {
        self.text@
    }

    /// Admits ASCII text of at most `MAX_REASON_CODE_BYTES` bytes.
    pub fn try_from_string(text: String) -> (code: Result<Self, TextError>)
        ensures
            reason_text_check(text@) matches Err(e) ==> code == Err::<Self, TextError>(e),
            reason_text_check(text@) is Ok ==> (code matches Ok(c) && c.spec_text() == text@),
    {
        let length = text.as_str().as_bytes().len();
        if !text.as_str().is_ascii() {
            return Err(TextError::NonAscii);
        }
        proof {
            vstd::utf8::is_ascii_chars_encode_utf8(text@);
        }
        if length > MAX_REASON_CODE_BYTES {
            return Err(TextError::TooLong);
        }
        Ok(ReasonCode { text })
    }

    /// Returns the code as text.
    pub fn as_str(&self) -> (text: &str)
        ensures
            text@ == self.spec_text(),
    {
        self.text.as_str()
    }

    /// A copy of the code.
    pub fn duplicate(&self) -> (copy: Self)
        ensures
            copy.spec_text() == self.spec_text(),
    {
        proof {
            use_type_invariant(self);
        }
        ReasonCode { text: self.text.clone() }
    }

    /// Whether two codes hold the same text.
    fn same_as(&self, other: &Self) -> (same: bool)
        ensures
            same == (self.spec_text() == other.spec_text()),
    {
        self.text == other.text
    }

    /// The encoded bytes of the code; for ASCII text one byte per character.
    fn bytes(&self) -> (bytes: &[u8])
        ensures
            bytes@ == encode_utf8(self.spec_text()),
            bytes@.len() == self.spec_text().len(),
            bytes@.len() <= MAX_REASON_CODE_BYTES,
    {
        proof {
            use_type_invariant(self);
            vstd::utf8::is_ascii_chars_encode_utf8(self.text@);
        }
        self.text.as_str().as_bytes()
    }
}

impl Clone for ReasonCode {
    fn clone(&self) -> (copy: Self)
        ensures
            copy.spec_text() == self.spec_text(),
    {
        self.duplicate()
    }
}

/// The characters of an optional reason code.
pub open spec fn reason_view(reason: Option<ReasonCode>) -> Option<Seq<char>> {
    match reason {
        Some(code) => Some(code.spec_text()),
        None => None,
    }
}

// ---------------------------------------------------------------------------
// Identities and bindings.
// ---------------------------------------------------------------------------

/// The content-addressed identity of one complete committed candidate.
#[derive(Clone, Copy, Debug, PartialEq, Eq, Hash)]
pub struct CandidateId(Hash32);

impl CandidateId {
    /// The commitment.
    pub closed spec fn spec_hash(self) -> Hash32 {
        self.0
    }

    /// Creates an identity from its commitment.
    pub fn new(hash: Hash32) -> (id: Self)
        ensures
            id.spec_hash() == hash,
    {
        CandidateId(hash)
    }

    /// Returns the commitment.
    pub fn hash(self) -> (hash: Hash32)
        ensures
            hash == self.spec_hash(),
    {
        self.0
    }
}

/// Inputs whose commitments every candidate component must share.
#[derive(Clone, Copy, Debug, PartialEq, Eq)]
pub struct CandidateBindings {
    /// Protocol/profile identity.
    pub profile_hash: Hash32,
    /// Exact authenticated command commitment.
    pub command_hash: Hash32,
    /// Exact context, policy and evidence commitment.
    pub context_hash: Hash32,
    /// Stable rejection/failure precedence profile.
    pub precedence_hash: Hash32,
    /// Algorithms and codec versions.
    pub algorithm_hash: Hash32,
    /// Deterministic resource-limit and consumption report.
    pub budget_hash: Hash32,
}

/// The six binding commitments in declaration order.
pub open spec fn bindings_encoding(b: CandidateBindings) -> Seq<u8> {
    b.profile_hash.spec_bytes() + b.command_hash.spec_bytes() + b.context_hash.spec_bytes()
        + b.precedence_hash.spec_bytes() + b.algorithm_hash.spec_bytes() + b.budget_hash.spec_bytes()
}

pub(crate) fn encode_bindings(bindings: CandidateBindings, output: &mut Vec<u8>)
    ensures
        final(output)@ == old(output)@ + bindings_encoding(bindings),
{
    put_bytes(output, bindings.profile_hash.as_bytes());
    put_bytes(output, bindings.command_hash.as_bytes());
    put_bytes(output, bindings.context_hash.as_bytes());
    put_bytes(output, bindings.precedence_hash.as_bytes());
    put_bytes(output, bindings.algorithm_hash.as_bytes());
    put_bytes(output, bindings.budget_hash.as_bytes());
    assert(output@ =~= old(output)@ + bindings_encoding(bindings));
}

pub(crate) fn same_hash(left: Hash32, right: Hash32) -> (same: bool)
    ensures
        same == (left == right),
{
    let same = left == right;
    proof {
        if same {
            left.lemma_bytes_injective(right);
        }
    }
    same
}

pub(crate) fn same_bindings(left: CandidateBindings, right: CandidateBindings) -> (same: bool)
    ensures
        same == (left == right),
{
    same_hash(left.profile_hash, right.profile_hash) && same_hash(left.command_hash, right.command_hash)
        && same_hash(left.context_hash, right.context_hash) && same_hash(
        left.precedence_hash,
        right.precedence_hash,
    ) && same_hash(left.algorithm_hash, right.algorithm_hash) && same_hash(
        left.budget_hash,
        right.budget_hash,
    )
}

/// Tag of a decision kind on the wire.
pub open spec fn decision_tag(kind: DecisionKind) -> u8 {
    match kind {
        DecisionKind::Accept => 0,
        DecisionKind::Reject => 1,
        DecisionKind::CommittedFailure => 2,
    }
}

pub(crate) fn decision_tag_of(kind: DecisionKind) -> (tag: u8)
    ensures
        tag == decision_tag(kind),
{
    match kind {
        DecisionKind::Accept => 0,
        DecisionKind::Reject => 1,
        DecisionKind::CommittedFailure => 2,
    }
}

// ---------------------------------------------------------------------------
// Candidate bodies and receipts.
// ---------------------------------------------------------------------------

/// The acyclic body from which the candidate identity is derived.
#[derive(Debug, PartialEq, Eq)]
pub struct CandidateBody {
    decision_kind: DecisionKind,
    reason_code: Option<ReasonCode>,
    bindings: CandidateBindings,
    pre_root: Hash32,
    post_root: Hash32,
    patch_hash: Hash32,
    commit_plan_hash: Hash32,
    outbox_plan_hash: Hash32,
}

/// The content of a candidate body.
pub struct BodyModel {
    /// Decision kind.
    pub decision_kind: DecisionKind,
    /// Committed-failure reason.
    pub reason_code: Option<Seq<char>>,
    /// Shared bindings.
    pub bindings: CandidateBindings,
    /// Pre-root.
    pub pre_root: Hash32,
    /// Post-root.
    pub post_root: Hash32,
    /// Patch commitment.
    pub patch_hash: Hash32,
    /// Authoritative plan commitment.
    pub commit_plan_hash: Hash32,
    /// Outbox plan commitment.
    pub outbox_plan_hash: Hash32,
}

impl View for CandidateBody {
    type V = BodyModel;

    closed spec fn view(&self) -> BodyModel {
        BodyModel {
            decision_kind: self.decision_kind,
            reason_code: reason_view(self.reason_code),
            bindings: self.bindings,
            pre_root: self.pre_root,
            post_root: self.post_root,
            patch_hash: self.patch_hash,
            commit_plan_hash: self.commit_plan_hash,
            outbox_plan_hash: self.outbox_plan_hash,
        }
    }
}

/// Canonical bytes of a body: decision tag, reason flag and length-prefixed
/// reason, the bindings, then the five commitments.
pub open spec fn body_encoding(body: BodyModel) -> Seq<u8> {
    seq![decision_tag(body.decision_kind)] + match body.reason_code {
        None => seq![0u8],
        Some(reason) => seq![1u8] + blob(encode_utf8(reason)),
    } + bindings_encoding(body.bindings) + body.pre_root.spec_bytes() + body.post_root.spec_bytes()
        + body.patch_hash.spec_bytes() + body.commit_plan_hash.spec_bytes() + body.outbox_plan_hash.spec_bytes()
}

impl CandidateBody {
    /// Returns the decision kind.
    pub fn decision_kind(&self) -> (kind: DecisionKind)
        ensures
            kind == self@.decision_kind,
    {
        self.decision_kind
    }

    /// Returns the committed-failure reason, if any.
    pub fn reason_code(&self) -> (reason: Option<&ReasonCode>)
        ensures
            match reason {
                Some(code) => self@.reason_code == Some(code.spec_text()),
                None => self@.reason_code is None,
            },
    {
        match &self.reason_code {
            Some(code) => Some(code),
            None => None,
        }
    }

    /// Returns the shared bindings.
    pub fn bindings(&self) -> (bindings: CandidateBindings)
        ensures
            bindings == self@.bindings,
    {
        self.bindings
    }

    /// Returns the pre-root.
    pub fn pre_root(&self) -> (root: Hash32)
        ensures
            root == self@.pre_root,
    {
        self.pre_root
    }

    /// Returns the post-root.
    pub fn post_root(&self) -> (root: Hash32)
        ensures
            root == self@.post_root,
    {
        self.post_root
    }

    /// Returns the patch commitment.
    pub fn patch_hash(&self) -> (hash: Hash32)
        ensures
            hash == self@.patch_hash,
    {
        self.patch_hash
    }

    /// Returns the authoritative plan commitment.
    pub fn commit_plan_hash(&self) -> (hash: Hash32)
        ensures
            hash == self@.commit_plan_hash,
    {
        self.commit_plan_hash
    }

    /// Returns the outbox plan commitment.
    pub fn outbox_plan_hash(&self) -> (hash: Hash32)
        ensures
            hash == self@.outbox_plan_hash,
    {
        self.outbox_plan_hash
    }

    /// A copy of the body.
    pub fn duplicate(&self) -> (copy: Self)
        ensures
            copy@ == self@,
    {
        CandidateBody {
            decision_kind: self.decision_kind,
            reason_code: match &self.reason_code {
                Some(code) => Some(code.duplicate()),
                None => None,
            },
            bindings: self.bindings,
            pre_root: self.pre_root,
            post_root: self.post_root,
            patch_hash: self.patch_hash,
            commit_plan_hash: self.commit_plan_hash,
            outbox_plan_hash: self.outbox_plan_hash,
        }
    }

    /// Whether two bodies hold the same content.
    pub fn same_as(&self, other: &Self) -> (same: bool)
        ensures
            same == (self@ == other@),
    {
        let reasons_match = match (&self.reason_code, &other.reason_code) {
            (None, None) => true,
            (Some(left), Some(right)) => left.same_as(right),
            _ => false,
        };
        proof {
            if !reasons_match {
                assert(self@.reason_code != other@.reason_code);
            }
        }
        reasons_match && self.decision_kind == other.decision_kind && same_bindings(self.bindings, other.bindings)
            && same_hash(self.pre_root, other.pre_root) && same_hash(self.post_root, other.post_root) && same_hash(
            self.patch_hash,
            other.patch_hash,
        ) && same_hash(self.commit_plan_hash, other.commit_plan_hash) && same_hash(
            self.outbox_plan_hash,
            other.outbox_plan_hash,
        )
    }

    /// The canonical encoding of the body.
    pub fn canonical_bytes(&self) -> (bytes: Result<Vec<u8>, EncodeError>)
        ensures
            bytes matches Ok(b) && b@ == body_encoding(self@),
            bytes matches Ok(b) && b@.len() <= 1000,
    {
        let mut output: Vec<u8> = Vec::new();
        put_u8(&mut output, decision_tag_of(self.decision_kind));
        match &self.reason_code {
            None => put_u8(&mut output, 0),
            Some(reason) => {
                put_u8(&mut output, 1);
                let bytes = reason.bytes();
                put_u32(&mut output, bytes.len() as u32);
                put_bytes(&mut output, bytes);
            },
        }
        encode_bindings(self.bindings, &mut output);
        put_bytes(&mut output, self.pre_root.as_bytes());
        put_bytes(&mut output, self.post_root.as_bytes());
        put_bytes(&mut output, self.patch_hash.as_bytes());
        put_bytes(&mut output, self.commit_plan_hash.as_bytes());
        put_bytes(&mut output, self.outbox_plan_hash.as_bytes());
        assert(output@ =~= body_encoding(self@));
        Ok(output)
    }
}

impl Clone for CandidateBody {
    fn clone(&self) -> (copy: Self)
        ensures
            copy@ == self@,
    {
        self.duplicate()
    }
}

/// Canonical receipt of an accepted or committed-failure candidate.
#[derive(Debug, PartialEq, Eq)]
pub struct Receipt {
    candidate_id: CandidateId,
    body: CandidateBody,
}

/// Canonical bytes of a receipt: the candidate identity, then the
/// length-prefixed body encoding.
pub open spec fn receipt_encoding(candidate_id: CandidateId, body: BodyModel) -> Seq<u8> {
    candidate_id.spec_hash().spec_bytes() + blob(body_encoding(body))
}

impl Receipt {
    /// The candidate identity.
    pub closed spec fn spec_candidate_id(self) -> CandidateId {
        self.candidate_id
    }

    /// The candidate body.
    pub closed spec fn spec_body(self) -> BodyModel {
        self.body@
    }

    /// Returns the candidate identity.
    pub fn candidate_id(&self) -> (id: CandidateId)
        ensures
            id == self.spec_candidate_id(),
    {
        self.candidate_id
    }

    /// Returns the candidate body.
    pub fn body(&self) -> (body: &CandidateBody)
        ensures
            body@ == self.spec_body(),
    {
        &self.body
    }

    /// The canonical encoding of the receipt.
    pub fn canonical_bytes(&self) -> (bytes: Result<Vec<u8>, EncodeError>)
        ensures
            bytes matches Ok(b) && b@ == receipt_encoding(self.spec_candidate_id(), self.spec_body()),
    {
        let mut output: Vec<u8> = Vec::new();
        put_bytes(&mut output, self.candidate_id.0.as_bytes());
        let body = match self.body.canonical_bytes() {
            Ok(body) => body,
            Err(error) => return Err(error),
        };
        put_u32(&mut output, body.len() as u32);
        put_bytes(&mut output, body.as_slice());
        assert(output@ =~= receipt_encoding(self.spec_candidate_id(), self.spec_body()));
        Ok(output)
    }
}

impl Clone for Receipt {
    fn clone(&self) -> (copy: Self)
        ensures
            copy.spec_candidate_id() == self.spec_candidate_id(),
            copy.spec_body() == self.spec_body(),
    {
        Receipt { candidate_id: self.candidate_id, body: self.body.duplicate() }
    }
}

// ---------------------------------------------------------------------------
// Failures.
// ---------------------------------------------------------------------------

/// Candidate construction or validation failure.
#[derive(Clone, Debug, PartialEq, Eq)]
pub enum SealError {
    /// Canonical encoding failed.
    Encode(EncodeError),
    /// Patch application failed.
    Patch(PatchError),
    /// The reason code is not bounded ASCII text.
    ReasonCode(TextError),
    /// A rejection cannot carry a committed candidate.
    RejectCannotBeCandidate,
    /// An acceptance cannot carry a committed-failure reason.
    AcceptHasFailureReason,
    /// A committed failure requires a reason.
    MissingFailureReason,
    /// The reconstructed bundle differs from the supplied bundle.
    BundleMismatch,
}

impl SealError {
    /// A short description of the failure.
    pub fn message(&self) -> (text: &'static str)
        ensures
            text == (match *self {
                SealError::Encode(_) => "candidate component encoding failed",
                SealError::Patch(_) => "candidate patch does not apply",
                SealError::ReasonCode(_) => "reason code is not bounded ASCII text",
                SealError::RejectCannotBeCandidate => "rejection cannot carry a candidate",
                SealError::AcceptHasFailureReason => "acceptance cannot carry a failure reason",
                SealError::MissingFailureReason => "committed failure requires a reason",
                SealError::BundleMismatch => "commit bundle relationships do not validate",
            }),
    {
        match self {
            SealError::Encode(_) => "candidate component encoding failed",
            SealError::Patch(_) => "candidate patch does not apply",
            SealError::ReasonCode(_) => "reason code is not bounded ASCII text",
            SealError::RejectCannotBeCandidate => "rejection cannot carry a candidate",
            SealError::AcceptHasFailureReason => "acceptance cannot carry a failure reason",
            SealError::MissingFailureReason => "committed failure requires a reason",
            SealError::BundleMismatch => "commit bundle relationships do not validate",
        }
    }
}

/// The characters of an optional borrowed text.
pub open spec fn str_view(text: Option<&str>) -> Option<Seq<char>> {
    match text {
        Some(t) => Some(t@),
        None => None,
    }
}

/// The reason a decision of this kind carries, or why it cannot be a candidate.
pub open spec fn decision_reason(kind: DecisionKind, reason: Option<Seq<char>>) -> Result<Option<Seq<char>>, SealError> {
    match reason {
        None => match kind {
            DecisionKind::Accept => Ok(None),
            DecisionKind::Reject => Err(SealError::RejectCannotBeCandidate),
            DecisionKind::CommittedFailure => Err(SealError::MissingFailureReason),
        },
        Some(text) => match kind {
            DecisionKind::Accept => Err(SealError::AcceptHasFailureReason),
            DecisionKind::Reject => Err(SealError::RejectCannotBeCandidate),
            DecisionKind::CommittedFailure => match reason_text_check(text) {
                Err(e) => Err(SealError::ReasonCode(e)),
                Ok(()) => Ok(Some(text)),
            },
        },
    }
}

fn validate_decision_reason(kind: DecisionKind, reason: Option<&str>) -> (checked: Result<Option<ReasonCode>, SealError>)
    ensures
        decision_reason(kind, str_view(reason)) matches Err(e) ==> checked == Err::<Option<ReasonCode>, SealError>(e),
        decision_reason(kind, str_view(reason)) matches Ok(r) ==> (checked matches Ok(code) && reason_view(code) == r),
{
    match reason {
        None => match kind {
            DecisionKind::Accept => Ok(None),
            DecisionKind::Reject => Err(SealError::RejectCannotBeCandidate),
            DecisionKind::CommittedFailure => Err(SealError::MissingFailureReason),
        },
        Some(text) => match kind {
            DecisionKind::Accept => Err(SealError::AcceptHasFailureReason),
            DecisionKind::Reject => Err(SealError::RejectCannotBeCandidate),
            DecisionKind::CommittedFailure => match ReasonCode::try_from_string(text.to_owned()) {
                Ok(code) => Ok(Some(code)),
                Err(error) => Err(SealError::ReasonCode(error)),
            },
        },
    }
}

// ---------------------------------------------------------------------------
// Rejection receipts.
// ---------------------------------------------------------------------------

/// An unchanged-state rejection receipt with no candidate or effects.
#[derive(Debug, PartialEq, Eq)]
pub struct RejectReceipt {
    bindings: CandidateBindings,
    pre_root: Hash32,
    reason_code: ReasonCode,
}

/// Canonical bytes of a rejection receipt: the bindings, the root, then the
/// length-prefixed reason.
pub open spec fn reject_encoding(bindings: CandidateBindings, pre_root: Hash32, reason: Seq<char>) -> Seq<u8> {
    bindings_encoding(bindings) + pre_root.spec_bytes() + blob(encode_utf8(reason))
}

impl RejectReceipt {
    /// The shared bindings.
    pub closed spec fn spec_bindings(self) -> CandidateBindings {
        self.bindings
    }

    /// The unchanged root.
    pub closed spec fn spec_pre_root(self) -> Hash32 {
        self.pre_root
    }

    /// The reason.
    pub closed spec fn spec_reason(self) -> Seq<char> {
        self.reason_code.spec_text()
    }

    /// The canonical bytes of the receipt.
    pub open spec fn spec_encoding(self) -> Seq<u8> {
        reject_encoding(self.spec_bindings(), self.spec_pre_root(), self.spec_reason())
    }

    /// Creates a rejection receipt; the post-root is by definition the pre-root.
    pub fn new(bindings: CandidateBindings, pre_root: Hash32, reason_code: &str) -> (receipt: Result<Self, SealError>)
        ensures
            reason_text_check(reason_code@) matches Err(e) ==> receipt == Err::<Self, SealError>(SealError::ReasonCode(e)),
            reason_text_check(reason_code@) is Ok ==> (receipt matches Ok(r) && r.spec_bindings() == bindings
                && r.spec_pre_root() == pre_root && r.spec_reason() == reason_code@),
    {
        match ReasonCode::try_from_string(reason_code.to_owned()) {
            Ok(code) => Ok(RejectReceipt { bindings, pre_root, reason_code: code }),
            Err(error) => Err(SealError::ReasonCode(error)),
        }
    }

    /// Returns the shared bindings.
    pub fn bindings(&self) -> (bindings: CandidateBindings)
        ensures
            bindings == self.spec_bindings(),
    {
        self.bindings
    }

    /// Returns the unchanged root.
    pub fn pre_root(&self) -> (root: Hash32)
        ensures
            root == self.spec_pre_root(),
    {
        self.pre_root
    }

    /// Returns the unchanged post-root, which is the pre-root.
    pub fn post_root(&self) -> (root: Hash32)
        ensures
            root == self.spec_pre_root(),
    {
        self.pre_root
    }

    /// Returns the stable reason code.
    pub fn reason_code(&self) -> (reason: &ReasonCode)
        ensures
            reason.spec_text() == self.spec_reason(),
    {
        &self.reason_code
    }

    /// The canonical encoding of the receipt.
    pub fn canonical_bytes(&self) -> (bytes: Result<Vec<u8>, EncodeError>)
        ensures
            bytes matches Ok(b) && b@ == self.spec_encoding(),
    {
        let mut output: Vec<u8> = Vec::new();
        encode_bindings(self.bindings, &mut output);
        put_bytes(&mut output, self.pre_root.as_bytes());
        let reason = self.reason_code.bytes();
        put_u32(&mut output, reason.len() as u32);
        put_bytes(&mut output, reason);
        assert(output@ =~= self.spec_encoding());
        Ok(output)
    }
}

impl Clone for RejectReceipt {
    fn clone(&self) -> (copy: Self)
        ensures
            copy.spec_bindings() == self.spec_bindings(),
            copy.spec_pre_root() == self.spec_pre_root(),
            copy.spec_reason() == self.spec_reason(),
    {
        RejectReceipt { bindings: self.bindings, pre_root: self.pre_root, reason_code: self.reason_code.duplicate() }
    }
}

// ---------------------------------------------------------------------------
// Component commitments.
// ---------------------------------------------------------------------------

/// Commitment domain label of patches.
pub open spec fn patch_domain() -> Seq<u8> {
    seq![122u8, 101u8, 110u8, 111u8, 45u8, 102u8, 99u8, 105u8, 115u8, 47u8, 112u8, 97u8, 116u8, 99u8, 104u8]
}

/// Commitment domain label of authoritative plans.
pub open spec fn commit_plan_domain() -> Seq<u8> {
    seq![122u8, 101u8, 110u8, 111u8, 45u8, 102u8, 99u8, 105u8, 115u8, 47u8, 99u8, 111u8, 109u8, 109u8, 105u8, 116u8, 45u8, 112u8, 108u8, 97u8, 110u8]
}

/// Commitment domain label of outbox plans.
pub open spec fn outbox_plan_domain() -> Seq<u8> {
    seq![122u8, 101u8, 110u8, 111u8, 45u8, 102u8, 99u8, 105u8, 115u8, 47u8, 111u8, 117u8, 116u8, 98u8, 111u8, 120u8, 45u8, 112u8, 108u8, 97u8, 110u8]
}

/// Commitment domain label of candidates.
pub open spec fn candidate_domain() -> Seq<u8> {
    seq![122u8, 101u8, 110u8, 111u8, 45u8, 102u8, 99u8, 105u8, 115u8, 47u8, 99u8, 97u8, 110u8, 100u8, 105u8, 100u8, 97u8, 116u8, 101u8]
}

/// Every component of a candidate encodes within its length prefixes.
pub open spec fn components_encodable(patch: CanonicalPatch, commit_plan: CommitPlan, outbox_plan: OutboxPlan) -> bool {
    &&& ops_encodable(patch.spec_operations())
    &&& effects_encodable(commit_plan.spec_effects())
    &&& entries_encodable(outbox_plan.spec_entries())
}

/// The bytes a candidate component commitment hashes: the component's
/// encoding under its domain label, version 1.
fn component_bytes(label: &[u8], content: &[u8]) -> (preimage: Vec<u8>)
    requires
        label@.len() <= u16::MAX,
    ensures
        preimage@ == commitment_preimage(label@, 1, content@),
{
    frame_commitment(label, 1, content)
}

/// Hashes the framed preimage of one component.
fn hash_component<H: CommitmentHasher>(label: &[u8], content: &[u8]) -> (hash: Hash32)
    requires
        label@.len() <= u16::MAX,
    ensures
        hash == H::spec_hash(commitment_preimage(label@, 1, content@)),
{
    let preimage = component_bytes(label, content);
    H::hash(preimage.as_slice())
}

/// The commitment of a patch.
pub open spec fn patch_commitment<H: CommitmentHasher>(patch: CanonicalPatch) -> Hash32 {
    H::spec_hash(commitment_preimage(patch_domain(), 1, patch.spec_encoding()))
}

/// The commitment of an authoritative plan.
pub open spec fn commit_plan_commitment<H: CommitmentHasher>(plan: CommitPlan) -> Hash32 {
    H::spec_hash(commitment_preimage(commit_plan_domain(), 1, plan.spec_encoding()))
}

/// The commitment of an outbox plan.
pub open spec fn outbox_plan_commitment<H: CommitmentHasher>(plan: OutboxPlan) -> Hash32 {
    H::spec_hash(commitment_preimage(outbox_plan_domain(), 1, plan.spec_encoding()))
}

/// The candidate identity of a body.
pub open spec fn candidate_commitment<H: CommitmentHasher>(body: BodyModel) -> Hash32 {
    H::spec_hash(commitment_preimage(candidate_domain(), 1, body_encoding(body)))
}

/// The body that sealing binds: the decision, its reason and bindings, the
/// patch's pre-root, the given post-root, and the three component commitments.
pub open spec fn sealed_body<H: CommitmentHasher>(
    kind: DecisionKind,
    reason: Option<Seq<char>>,
    bindings: CandidateBindings,
    patch: CanonicalPatch,
    commit_plan: CommitPlan,
    outbox_plan: OutboxPlan,
    post_root: Hash32,
) -> BodyModel {
    BodyModel {
        decision_kind: kind,
        reason_code: reason,
        bindings,
        pre_root: patch.spec_expected_pre_root(),
        post_root,
        patch_hash: patch_commitment::<H>(patch),
        commit_plan_hash: commit_plan_commitment::<H>(commit_plan),
        outbox_plan_hash: outbox_plan_commitment::<H>(outbox_plan),
    }
}

fn patch_hash<H: CommitmentHasher>(patch: &CanonicalPatch) -> (hash: Result<Hash32, SealError>)
    ensures
        hash is Ok <==> ops_encodable(patch.spec_operations()),
        hash matches Ok(h) ==> h == patch_commitment::<H>(*patch),
        hash matches Err(e) ==> e is Encode,
{
    let content = match patch.canonical_bytes() {
        Ok(content) => content,
        Err(error) => return Err(SealError::Encode(error)),
    };
    let label: Vec<u8> = vec![122u8, 101u8, 110u8, 111u8, 45u8, 102u8, 99u8, 105u8, 115u8, 47u8, 112u8, 97u8, 116u8, 99u8, 104u8];
    assert(label@ =~= patch_domain());
    Ok(hash_component::<H>(label.as_slice(), content.as_slice()))
}

fn commit_plan_hash<H: CommitmentHasher>(plan: &CommitPlan) -> (hash: Result<Hash32, SealError>)
    ensures
        hash is Ok <==> effects_encodable(plan.spec_effects()),
        hash matches Ok(h) ==> h == commit_plan_commitment::<H>(*plan),
        hash matches Err(e) ==> e is Encode,
{
    let content = match plan.canonical_bytes() {
        Ok(content) => content,
        Err(error) => return Err(SealError::Encode(error)),
    };
    let label: Vec<u8> = vec![122u8, 101u8, 110u8, 111u8, 45u8, 102u8, 99u8, 105u8, 115u8, 47u8, 99u8, 111u8, 109u8, 109u8, 105u8, 116u8, 45u8, 112u8, 108u8, 97u8, 110u8];
    assert(label@ =~= commit_plan_domain());
    Ok(hash_component::<H>(label.as_slice(), content.as_slice()))
}

fn outbox_plan_hash<H: CommitmentHasher>(plan: &OutboxPlan) -> (hash: Result<Hash32, SealError>)
    ensures
        hash is Ok <==> entries_encodable(plan.spec_entries()),
        hash matches Ok(h) ==> h == outbox_plan_commitment::<H>(*plan),
        hash matches Err(e) ==> e is Encode,
{
    let content = match plan.canonical_bytes() {
        Ok(content) => content,
        Err(error) => return Err(SealError::Encode(error)),
    };
    let label: Vec<u8> = vec![122u8, 101u8, 110u8, 111u8, 45u8, 102u8, 99u8, 105u8, 115u8, 47u8, 111u8, 117u8, 116u8, 98u8, 111u8, 120u8, 45u8, 112u8, 108u8, 97u8, 110u8];
    assert(label@ =~= outbox_plan_domain());
    Ok(hash_component::<H>(label.as_slice(), content.as_slice()))
}

/// The bytes a candidate identity hashes: the body encoding under the
/// candidate domain, version 1.
pub fn candidate_bytes(body: &CandidateBody) -> (preimage: Vec<u8>)
    ensures
        preimage@ == commitment_preimage(candidate_domain(), 1, body_encoding(body@)),
{
    let content = match body.canonical_bytes() {
        Ok(content) => content,
        Err(_) => Vec::new(),
    };
    let label: Vec<u8> = vec![122u8, 101u8, 110u8, 111u8, 45u8, 102u8, 99u8, 105u8, 115u8, 47u8, 99u8, 97u8, 110u8, 100u8, 105u8, 100u8, 97u8, 116u8, 101u8];
    assert(label@ =~= candidate_domain());
    component_bytes(label.as_slice(), content.as_slice())
}

/// The candidate identity of a body: the hash of exactly the bytes that
/// `candidate_bytes` returns.
pub fn candidate_id<H: CommitmentHasher>(body: &CandidateBody) -> (id: CandidateId)
    ensures
        id.spec_hash() == candidate_commitment::<H>(body@),
{
    let preimage = candidate_bytes(body);
    CandidateId(H::hash(preimage.as_slice()))
}

// ---------------------------------------------------------------------------
// Sealing.
// ---------------------------------------------------------------------------

/// What sealing these inputs answers, whatever the commitment provider
/// returns: the reason check first, then the patch application, then the
/// component encodings; a sealed body carries the inputs.
pub open spec fn seal_admits(
    kind: DecisionKind,
    reason: Option<Seq<char>>,
    bindings: CandidateBindings,
    patch: CanonicalPatch,
    commit_plan: CommitPlan,
    outbox_plan: OutboxPlan,
    state: crate::value::ValueModel,
    outcome: Result<BodyModel, SealError>,
) -> bool {
    match decision_reason(kind, reason) {
        Err(e) => outcome == Err::<BodyModel, SealError>(e),
        Ok(r) => match outcome {
            Ok(body) => {
                &&& apply_ops(patch.spec_operations(), state) is Ok
                &&& components_encodable(patch, commit_plan, outbox_plan)
                &&& body.decision_kind == kind
                &&& body.reason_code == r
                &&& body.bindings == bindings
                &&& body.pre_root == patch.spec_expected_pre_root()
            },
            Err(SealError::Patch(e)) => application_failure(
                patch.spec_operations(),
                patch.spec_expected_pre_root(),
                state,
                e,
            ),
            Err(SealError::Encode(_)) => apply_ops(patch.spec_operations(), state) is Ok && !components_encodable(
                patch,
                commit_plan,
                outbox_plan,
            ),
            Err(_) => false,
        },
    }
}

/// The body outcome of a sealing result.
pub open spec fn body_outcome(parts: Result<(CandidateBody, CandidateId, AppliedPatch), SealError>) -> Result<BodyModel, SealError> {
    match parts {
        Ok(p) => Ok(p.0@),
        Err(e) => Err(e),
    }
}

#[verifier::rlimit(30)]
fn seal_parts<H: CommitmentHasher>(
    pre_state: &Value,
    state_domain: &Domain,
    decision_kind: DecisionKind,
    reason_code: Option<&str>,
    bindings: CandidateBindings,
    patch: &CanonicalPatch,
    commit_plan: &CommitPlan,
    outbox_plan: &OutboxPlan,
) -> (parts: Result<(CandidateBody, CandidateId, AppliedPatch), SealError>)
    ensures
        seal_admits(
            decision_kind,
            str_view(reason_code),
            bindings,
            *patch,
            *commit_plan,
            *outbox_plan,
            pre_state@,
            body_outcome(parts),
        ),
        parts matches Ok(p) ==> apply_ops(patch.spec_operations(), pre_state@) == Ok::<
            crate::value::ValueModel,
            PatchError,
        >(p.2.spec_state()) && p.0@.post_root == p.2.spec_post_root(),
        parts matches Ok(p) ==> p.2.spec_post_root() == value_root::<H>(
            state_domain.spec_name(),
            state_domain.spec_version(),
            p.2.spec_state(),
        ) && p.0@ == sealed_body::<H>(
            decision_kind,
            p.0@.reason_code,
            bindings,
            *patch,
            *commit_plan,
            *outbox_plan,
            p.2.spec_post_root(),
        ) && p.1.spec_hash() == candidate_commitment::<H>(p.0@),
        parts is Ok ==> value_root::<H>(state_domain.spec_name(), state_domain.spec_version(), pre_state@)
            == patch.spec_expected_pre_root() && preconditions_hold::<H>(patch.spec_operations(), pre_state@),
        parts matches Err(SealError::Patch(PatchError::PreRootMismatch { actual, .. })) ==> actual == value_root::<H>(
            state_domain.spec_name(),
            state_domain.spec_version(),
            pre_state@,
        ),
        parts matches Err(SealError::Patch(PatchError::OldValueMismatch { .. })) ==> !preconditions_hold::<H>(
            patch.spec_operations(),
            pre_state@,
        ),
        decision_reason(decision_kind, str_view(reason_code)) is Ok && value_root::<H>(
            state_domain.spec_name(),
            state_domain.spec_version(),
            pre_state@,
        ) == patch.spec_expected_pre_root() && apply_ops(patch.spec_operations(), pre_state@) is Ok
            && preconditions_hold::<H>(patch.spec_operations(), pre_state@) && components_encodable(
            *patch,
            *commit_plan,
            *outbox_plan,
        ) ==> parts is Ok,
{
    let reason = match validate_decision_reason(decision_kind, reason_code) {
        Ok(reason) => reason,
        Err(error) => return Err(error),
    };
    let applied = match patch.apply::<H>(pre_state, state_domain) {
        Ok(applied) => applied,
        Err(error) => return Err(SealError::Patch(error)),
    };
    let patch_commitment = match patch_hash::<H>(patch) {
        Ok(hash) => hash,
        Err(error) => return Err(error),
    };
    let commit_commitment = match commit_plan_hash::<H>(commit_plan) {
        Ok(hash) => hash,
        Err(error) => return Err(error),
    };
    let outbox_commitment = match outbox_plan_hash::<H>(outbox_plan) {
        Ok(hash) => hash,
        Err(error) => return Err(error),
    };
    let body = CandidateBody {
        decision_kind,
        reason_code: reason,
        bindings,
        pre_root: patch.expected_pre_root(),
        post_root: applied.post_root(),
        patch_hash: patch_commitment,
        commit_plan_hash: commit_commitment,
        outbox_plan_hash: outbox_commitment,
    };
    let id = candidate_id::<H>(&body);
    Ok((body, id, applied))
}

/// The complete atomic publication value of one committed candidate.
#[derive(Debug, PartialEq, Eq)]
pub struct CommitBundle {
    candidate_id: CandidateId,
    body: CandidateBody,
    patch: CanonicalPatch,
    commit_plan: CommitPlan,
    outbox_plan: OutboxPlan,
    receipt: Receipt,
}

impl CommitBundle {
    /// The receipt carries the bundle's identity and body; the body binds the
    /// patch's pre-root and an admissible reason; every component encodes.
    #[verifier::type_invariant]
    spec fn sealed(self) -> bool {
        &&& self.receipt.spec_candidate_id() == self.candidate_id
        &&& self.receipt.spec_body() == self.body@
        &&& self.body@.pre_root == self.patch.spec_expected_pre_root()
        &&& decision_reason(self.body@.decision_kind, self.body@.reason_code) == Ok::<
            Option<Seq<char>>,
            SealError,
        >(self.body@.reason_code)
        &&& components_encodable(self.patch, self.commit_plan, self.outbox_plan)
    }

    /// The candidate identity.
    pub closed spec fn spec_candidate_id(self) -> CandidateId {
        self.candidate_id
    }

    /// The candidate body.
    pub closed spec fn spec_body(self) -> BodyModel {
        self.body@
    }

    /// The patch.
    pub closed spec fn spec_patch(self) -> CanonicalPatch {
        self.patch
    }

    /// The authoritative plan.
    pub closed spec fn spec_commit_plan(self) -> CommitPlan {
        self.commit_plan
    }

    /// The outbox plan.
    pub closed spec fn spec_outbox_plan(self) -> OutboxPlan {
        self.outbox_plan
    }

    /// The identity the receipt carries.
    pub closed spec fn spec_receipt_candidate_id(self) -> CandidateId {
        self.receipt.spec_candidate_id()
    }

    /// The body the receipt carries.
    pub closed spec fn spec_receipt_body(self) -> BodyModel {
        self.receipt.spec_body()
    }

    /// Returns the candidate identity.
    pub fn candidate_id(&self) -> (id: CandidateId)
        ensures
            id == self.spec_candidate_id(),
    {
        self.candidate_id
    }

    /// Returns the candidate body.
    pub fn body(&self) -> (body: &CandidateBody)
        ensures
            body@ == self.spec_body(),
    {
        &self.body
    }

    /// Returns the preconditioned patch.
    pub fn patch(&self) -> (patch: &CanonicalPatch)
        ensures
            *patch == self.spec_patch(),
            ops_encodable(patch.spec_operations()),
    {
        proof {
            use_type_invariant(self);
        }
        &self.patch
    }

    /// Returns the authoritative operations.
    pub fn commit_plan(&self) -> (plan: &CommitPlan)
        ensures
            *plan == self.spec_commit_plan(),
            effects_encodable(plan.spec_effects()),
    {
        proof {
            use_type_invariant(self);
        }
        &self.commit_plan
    }

    /// Returns the external-delivery obligations.
    pub fn outbox_plan(&self) -> (plan: &OutboxPlan)
        ensures
            *plan == self.spec_outbox_plan(),
            entries_encodable(plan.spec_entries()),
    {
        proof {
            use_type_invariant(self);
        }
        &self.outbox_plan
    }

    /// Returns the candidate receipt.
    pub fn receipt(&self) -> (receipt: &Receipt)
        ensures
            receipt.spec_candidate_id() == self.spec_receipt_candidate_id(),
            receipt.spec_body() == self.spec_receipt_body(),
            receipt.spec_candidate_id() == self.spec_candidate_id(),
            receipt.spec_body() == self.spec_body(),
    {
        proof {
            use_type_invariant(self);
        }
        &self.receipt
    }
}

/// Private-construction namespace for complete candidates.
pub struct CandidateBuilder;

impl CandidateBuilder {
    /// Applies the patch, derives every component commitment and seals one
    /// bundle whose receipt carries the same identity and body.
    pub fn seal<H: CommitmentHasher>(
        pre_state: &Value,
        state_domain: &Domain,
        decision_kind: DecisionKind,
        reason_code: Option<&str>,
        bindings: CandidateBindings,
        patch: CanonicalPatch,
        commit_plan: CommitPlan,
        outbox_plan: OutboxPlan,
    ) -> (bundle: Result<CommitBundle, SealError>)
        ensures
            seal_admits(
                decision_kind,
                str_view(reason_code),
                bindings,
                patch,
                commit_plan,
                outbox_plan,
                pre_state@,
                match bundle {
                    Ok(b) => Ok(b.spec_body()),
                    Err(e) => Err(e),
                },
            ),
            bundle matches Ok(b) ==> b.spec_patch() == patch && b.spec_commit_plan() == commit_plan
                && b.spec_outbox_plan() == outbox_plan && b.spec_receipt_candidate_id() == b.spec_candidate_id()
                && b.spec_receipt_body() == b.spec_body(),
            bundle matches Ok(b) ==> b.spec_body() == sealed_body::<H>(
                decision_kind,
                b.spec_body().reason_code,
                bindings,
                patch,
                commit_plan,
                outbox_plan,
                value_root::<H>(
                    state_domain.spec_name(),
                    state_domain.spec_version(),
                    apply_ops(patch.spec_operations(), pre_state@).unwrap(),
                ),
            ) && b.spec_candidate_id().spec_hash() == candidate_commitment::<H>(b.spec_body()),
            bundle matches Err(SealError::Patch(PatchError::PreRootMismatch { actual, .. })) ==> actual
                == value_root::<H>(state_domain.spec_name(), state_domain.spec_version(), pre_state@),
            bundle matches Err(SealError::Patch(PatchError::OldValueMismatch { .. })) ==> !preconditions_hold::<H>(
                patch.spec_operations(),
                pre_state@,
            ),
            decision_reason(decision_kind, str_view(reason_code)) is Ok && value_root::<H>(
                state_domain.spec_name(),
                state_domain.spec_version(),
                pre_state@,
            ) == patch.spec_expected_pre_root() && apply_ops(patch.spec_operations(), pre_state@) is Ok
                && preconditions_hold::<H>(patch.spec_operations(), pre_state@) && components_encodable(
                patch,
                commit_plan,
                outbox_plan,
            ) ==> bundle is Ok,
    {
        let parts = seal_parts::<H>(
            pre_state,
            state_domain,
            decision_kind,
            reason_code,
            bindings,
            &patch,
            &commit_plan,
            &outbox_plan,
        );
        let (body, candidate_id, applied) = match parts {
            Ok(parts) => parts,
            Err(error) => return Err(error),
        };
        let receipt = Receipt { candidate_id, body: body.duplicate() };
        Ok(CommitBundle { candidate_id, body, patch, commit_plan, outbox_plan, receipt })
    }
}

impl CommitBundle {
    /// Recomputes every candidate relationship against the supplied pre-state
    /// and returns the exact pure successor state.
    ///
    /// A sealed bundle fails only when its patch does not apply to the
    /// pre-state or when a recomputed commitment differs from the carried one.
    pub fn validate_and_apply<H: CommitmentHasher>(&self, pre_state: &Value, state_domain: &Domain) -> (applied:
        Result<AppliedPatch, SealError>)
        ensures
            applied matches Ok(a) ==> apply_ops(self.spec_patch().spec_operations(), pre_state@) == Ok::<
                crate::value::ValueModel,
                PatchError,
            >(a.spec_state()) && a.spec_post_root() == self.spec_body().post_root,
            applied matches Err(e) ==> match e {
                SealError::Patch(error) => application_failure(
                    self.spec_patch().spec_operations(),
                    self.spec_patch().spec_expected_pre_root(),
                    pre_state@,
                    error,
                ),
                SealError::BundleMismatch => apply_ops(self.spec_patch().spec_operations(), pre_state@) is Ok,
                _ => false,
            },
            applied matches Ok(a) ==> a.spec_post_root() == value_root::<H>(
                state_domain.spec_name(),
                state_domain.spec_version(),
                a.spec_state(),
            ),
            applied matches Err(SealError::Patch(PatchError::PreRootMismatch { actual, .. })) ==> actual
                == value_root::<H>(state_domain.spec_name(), state_domain.spec_version(), pre_state@),
            applied matches Err(SealError::Patch(PatchError::OldValueMismatch { .. })) ==> !preconditions_hold::<H>(
                self.spec_patch().spec_operations(),
                pre_state@,
            ),
            !self.spec_applies::<H>(pre_state@, state_domain.spec_name(), state_domain.spec_version())
                ==> applied matches Err(SealError::Patch(_)),
            self.spec_applies::<H>(pre_state@, state_domain.spec_name(), state_domain.spec_version()) ==> (
            applied is Ok <==> self.spec_recomputes::<H>(
                pre_state@,
                state_domain.spec_name(),
                state_domain.spec_version(),
            )),
            self.spec_applies::<H>(pre_state@, state_domain.spec_name(), state_domain.spec_version())
                && !self.spec_recomputes::<H>(pre_state@, state_domain.spec_name(), state_domain.spec_version())
                ==> applied == Err::<AppliedPatch, SealError>(SealError::BundleMismatch),
    {
        proof {
            use_type_invariant(self);
        }
        let reason = match &self.body.reason_code {
            Some(code) => Some(code.as_str()),
            None => None,
        };
        let parts = seal_parts::<H>(
            pre_state,
            state_domain,
            self.body.decision_kind,
            reason,
            self.body.bindings,
            &self.patch,
            &self.commit_plan,
            &self.outbox_plan,
        );
        let (body, candidate_id, applied) = match parts {
            Ok(parts) => parts,
            Err(error) => return Err(error),
        };
        if !(same_hash(candidate_id.0, self.candidate_id.0) && body.same_as(&self.body)) {
            return Err(SealError::BundleMismatch);
        }
        Ok(applied)
    }

    /// The bundle's patch applies to the state under the hasher: the state's
    /// root is the expected pre-root, the operations apply and every old-value
    /// precondition holds.
    pub open spec fn spec_applies<H: CommitmentHasher>(self, pre_state: ValueModel, name: Seq<u8>, version: u16) -> bool {
        &&& value_root::<H>(name, version, pre_state) == self.spec_patch().spec_expected_pre_root()
        &&& apply_ops(self.spec_patch().spec_operations(), pre_state) is Ok
        &&& preconditions_hold::<H>(self.spec_patch().spec_operations(), pre_state)
    }

    /// The carried body and identity are the ones sealing recomputes from the
    /// components and the successor state.
    pub open spec fn spec_recomputes<H: CommitmentHasher>(self, pre_state: ValueModel, name: Seq<u8>, version: u16) -> bool {
        &&& self.spec_body() == sealed_body::<H>(
            self.spec_body().decision_kind,
            self.spec_body().reason_code,
            self.spec_body().bindings,
            self.spec_patch(),
            self.spec_commit_plan(),
            self.spec_outbox_plan(),
            value_root::<H>(name, version, apply_ops(self.spec_patch().spec_operations(), pre_state).unwrap()),
        )
        &&& candidate_commitment::<H>(self.spec_body()) == self.spec_candidate_id().spec_hash()
    }

    /// Recomputes every candidate relationship against the supplied pre-state.
    pub fn validate<H: CommitmentHasher>(&self, pre_state: &Value, state_domain: &Domain) -> (checked: Result<(), SealError>)
        ensures
            checked is Ok <==> self.spec_applies::<H>(pre_state@, state_domain.spec_name(), state_domain.spec_version())
                && self.spec_recomputes::<H>(pre_state@, state_domain.spec_name(), state_domain.spec_version()),
            checked matches Err(SealError::Patch(PatchError::PreRootMismatch { actual, .. })) ==> actual
                == value_root::<H>(state_domain.spec_name(), state_domain.spec_version(), pre_state@),
            self.spec_applies::<H>(pre_state@, state_domain.spec_name(), state_domain.spec_version())
                && !self.spec_recomputes::<H>(pre_state@, state_domain.spec_name(), state_domain.spec_version())
                ==> checked == Err::<(), SealError>(SealError::BundleMismatch),
            checked is Ok ==> apply_ops(self.spec_patch().spec_operations(), pre_state@) is Ok,
            checked matches Err(e) ==> match e {
                SealError::Patch(error) => application_failure(
                    self.spec_patch().spec_operations(),
                    self.spec_patch().spec_expected_pre_root(),
                    pre_state@,
                    error,
                ),
                SealError::BundleMismatch => apply_ops(self.spec_patch().spec_operations(), pre_state@) is Ok,
                _ => false,
            },
    {
        match self.validate_and_apply::<H>(pre_state, state_domain) {
            Ok(_) => Ok(()),
            Err(error) => Err(error),
        }
    }
}

impl CommitBundle {
    /// Canonical bytes of the bundle: the candidate identity, then the
    /// length-prefixed body, patch, authoritative plan, outbox plan and receipt.
    pub open spec fn spec_encoding(self) -> Seq<u8> {
        self.spec_candidate_id().spec_hash().spec_bytes() + blob(body_encoding(self.spec_body())) + blob(
            self.spec_patch().spec_encoding(),
        ) + blob(self.spec_commit_plan().spec_encoding()) + blob(self.spec_outbox_plan().spec_encoding()) + blob(
            receipt_encoding(self.spec_receipt_candidate_id(), self.spec_receipt_body()),
        )
    }

    /// Every component's length prefix in the bundle fits 32 bits.
    pub open spec fn spec_encodable(self) -> bool {
        &&& self.spec_patch().spec_encoding().len() <= u32::MAX
        &&& self.spec_commit_plan().spec_encoding().len() <= u32::MAX
        &&& self.spec_outbox_plan().spec_encoding().len() <= u32::MAX
    }

    /// The canonical encoding; fails when a component does not fit its prefix.
    pub fn canonical_bytes(&self) -> (bytes: Result<Vec<u8>, EncodeError>)
        ensures
            bytes is Ok <==> self.spec_encodable(),
            bytes matches Ok(b) ==> b@ == self.spec_encoding(),
    {
        proof {
            use_type_invariant(self);
        }
        let mut output: Vec<u8> = Vec::new();
        put_bytes(&mut output, self.candidate_id.0.as_bytes());
        let body = match self.body.canonical_bytes() {
            Ok(body) => body,
            Err(error) => return Err(error),
        };
        put_u32(&mut output, body.len() as u32);
        put_bytes(&mut output, body.as_slice());
        let patch = match self.patch.canonical_bytes() {
            Ok(patch) => patch,
            Err(error) => return Err(error),
        };
        match put_u32_blob(&mut output, patch.as_slice()) {
            Ok(()) => {},
            Err(error) => return Err(error),
        }
        let commit = match self.commit_plan.canonical_bytes() {
            Ok(commit) => commit,
            Err(error) => return Err(error),
        };
        match put_u32_blob(&mut output, commit.as_slice()) {
            Ok(()) => {},
            Err(error) => return Err(error),
        }
        let outbox = match self.outbox_plan.canonical_bytes() {
            Ok(outbox) => outbox,
            Err(error) => return Err(error),
        };
        match put_u32_blob(&mut output, outbox.as_slice()) {
            Ok(()) => {},
            Err(error) => return Err(error),
        }
        let receipt = match self.receipt.canonical_bytes() {
            Ok(receipt) => receipt,
            Err(error) => return Err(error),
        };
        put_u32(&mut output, receipt.len() as u32);
        put_bytes(&mut output, receipt.as_slice());
        assert(output@ =~= self.spec_encoding());
        Ok(output)
    }
}

// ---------------------------------------------------------------------------
// Strict decoding.
// ---------------------------------------------------------------------------

/// Bounds for strict receipt decoding.
#[derive(Clone, Copy, Debug, PartialEq, Eq, Structural)]
pub struct ReceiptDecodeLimits {
    /// Most bytes in one complete receipt or rejection receipt.
    pub max_input_bytes: u64,
    /// Most bytes in one encoded candidate body.
    pub max_body_bytes: u64,
}

impl Default for ReceiptDecodeLimits {
    fn default() -> (limits: Self)
        ensures
            limits.max_input_bytes == 65536,
            limits.max_body_bytes == 16384,
    {
        ReceiptDecodeLimits { max_input_bytes: 65536, max_body_bytes: 16384 }
    }
}

/// Bounds for strict complete commit-bundle decoding.
#[derive(Clone, Copy, Debug, PartialEq, Eq, Structural)]
pub struct BundleDecodeLimits {
    /// Most bytes in one complete encoded bundle.
    pub max_input_bytes: u64,
    /// Receipt and candidate-body limits.
    pub receipt: ReceiptDecodeLimits,
    /// Canonical patch limits.
    pub patch: PatchDecodeLimits,
    /// Authoritative-plan limits.
    pub commit_plan: PlanDecodeLimits,
    /// Outbox-plan limits.
    pub outbox_plan: PlanDecodeLimits,
}

impl Default for BundleDecodeLimits {
    fn default() -> (limits: Self)
        ensures
            limits.max_input_bytes == 134217728,
            limits.receipt.max_input_bytes == 65536,
            limits.receipt.max_body_bytes == 16384,
    {
        BundleDecodeLimits {
            max_input_bytes: 134217728,
            receipt: ReceiptDecodeLimits::default(),
            patch: PatchDecodeLimits::default(),
            commit_plan: PlanDecodeLimits::default(),
            outbox_plan: PlanDecodeLimits::default(),
        }
    }
}

/// Length-delimited receipt component named in diagnostics.
#[derive(Clone, Copy, Debug, PartialEq, Eq, Structural)]
pub enum ReceiptComponent {
    /// Candidate body bytes.
    CandidateBody,
    /// Nested receipt bytes.
    Receipt,
}

/// Bounded canonical receipt or bundle decoding failure.
#[derive(Clone, Debug, PartialEq, Eq)]
pub enum ReceiptDecodeError {
    /// The complete input exceeds its byte limit.
    InputLimit {
        /// Configured limit.
        limit: u64,
        /// Actual bytes.
        actual: u64,
    },
    /// One length-delimited component exceeds its byte limit.
    ComponentLimit {
        /// The component.
        component: ReceiptComponent,
        /// Configured limit.
        limit: u64,
        /// Actual bytes.
        actual: u64,
    },
    /// A length or offset overflowed.
    LengthOverflow,
    /// The input ended inside a field.
    UnexpectedEnd {
        /// Offset of the failed read.
        offset: usize,
        /// Requested bytes.
        requested: usize,
    },
    /// A decision tag outside the closed decision algebra.
    UnknownDecisionTag(u8),
    /// A reason-presence flag other than 0 or 1.
    InvalidReasonFlag(u8),
    /// Reason bytes are not ASCII text.
    InvalidReasonText,
    /// Bytes remain after the complete value.
    TrailingBytes {
        /// First trailing-byte offset.
        offset: usize,
    },
    /// The rebuilt canonical bytes differ from the input.
    NonCanonical,
    /// The candidate identity or body differs from the rebuilt candidate.
    CandidateMismatch,
    /// The nested receipt differs from the rebuilt candidate's receipt.
    ReceiptMismatch,
    /// Nested canonical patch decoding failed.
    Patch(PatchDecodeError),
    /// Nested canonical plan decoding failed.
    Plan(PlanDecodeError),
    /// Sealing or validation failed.
    Seal(SealError),
    /// Canonical encoding failed.
    Encode(EncodeError),
}

impl ReceiptDecodeError {
    /// A short description of the failure.
    pub fn message(&self) -> (text: &'static str)
        ensures
            text == (match *self {
                ReceiptDecodeError::InputLimit { .. } => "receipt input exceeds its byte limit",
                ReceiptDecodeError::ComponentLimit { .. } => "receipt component exceeds its byte limit",
                ReceiptDecodeError::LengthOverflow => "receipt length arithmetic overflowed",
                ReceiptDecodeError::UnexpectedEnd { .. } => "receipt ended early",
                ReceiptDecodeError::UnknownDecisionTag(_) => "unknown decision tag",
                ReceiptDecodeError::InvalidReasonFlag(_) => "invalid reason flag",
                ReceiptDecodeError::InvalidReasonText => "reason is not valid bounded ASCII text",
                ReceiptDecodeError::TrailingBytes { .. } => "trailing receipt bytes",
                ReceiptDecodeError::NonCanonical => "receipt bytes are not canonical",
                ReceiptDecodeError::CandidateMismatch => "candidate identity or body does not reconstruct",
                ReceiptDecodeError::ReceiptMismatch => "nested receipt does not match the candidate",
                ReceiptDecodeError::Patch(_) => "nested patch decoding failed",
                ReceiptDecodeError::Plan(_) => "nested plan decoding failed",
                ReceiptDecodeError::Seal(_) => "candidate sealing failed",
                ReceiptDecodeError::Encode(_) => "receipt encoding failed",
            }),
    {
        match self {
            ReceiptDecodeError::InputLimit { .. } => "receipt input exceeds its byte limit",
            ReceiptDecodeError::ComponentLimit { .. } => "receipt component exceeds its byte limit",
            ReceiptDecodeError::LengthOverflow => "receipt length arithmetic overflowed",
            ReceiptDecodeError::UnexpectedEnd { .. } => "receipt ended early",
            ReceiptDecodeError::UnknownDecisionTag(_) => "unknown decision tag",
            ReceiptDecodeError::InvalidReasonFlag(_) => "invalid reason flag",
            ReceiptDecodeError::InvalidReasonText => "reason is not valid bounded ASCII text",
            ReceiptDecodeError::TrailingBytes { .. } => "trailing receipt bytes",
            ReceiptDecodeError::NonCanonical => "receipt bytes are not canonical",
            ReceiptDecodeError::CandidateMismatch => "candidate identity or body does not reconstruct",
            ReceiptDecodeError::ReceiptMismatch => "nested receipt does not match the candidate",
            ReceiptDecodeError::Patch(_) => "nested patch decoding failed",
            ReceiptDecodeError::Plan(_) => "nested plan decoding failed",
            ReceiptDecodeError::Seal(_) => "candidate sealing failed",
            ReceiptDecodeError::Encode(_) => "receipt encoding failed",
        }
    }
}

fn receipt_wire_error(error: WireError) -> ReceiptDecodeError {
    match error {
        WireError::LengthOverflow => ReceiptDecodeError::LengthOverflow,
        WireError::UnexpectedEnd { offset, requested } => ReceiptDecodeError::UnexpectedEnd { offset, requested },
    }
}

fn enforce_input_limit(bytes: &[u8], limit: u64) -> (checked: Result<(), ReceiptDecodeError>)
    ensures
        checked is Ok <==> bytes@.len() <= limit,
        checked is Err ==> checked == Err::<(), ReceiptDecodeError>(
            ReceiptDecodeError::InputLimit { limit, actual: bytes@.len() as u64 },
        ),
{
    let actual = bytes.len() as u64;
    if actual > limit {
        return Err(ReceiptDecodeError::InputLimit { limit, actual });
    }
    Ok(())
}

fn enforce_component_limit(component: ReceiptComponent, length: usize, limit: u64) -> (checked: Result<
    (),
    ReceiptDecodeError,
>)
    ensures
        checked is Ok <==> length <= limit,
        checked is Err ==> checked == Err::<(), ReceiptDecodeError>(
            ReceiptDecodeError::ComponentLimit { component, limit, actual: length as u64 },
        ),
{
    let actual = length as u64;
    if actual > limit {
        return Err(ReceiptDecodeError::ComponentLimit { component, limit, actual });
    }
    Ok(())
}

fn decode_decision(tag: u8) -> (kind: Result<DecisionKind, ReceiptDecodeError>)
    ensures
        kind is Ok <==> tag <= 2,
        kind matches Ok(k) ==> decision_tag(k) == tag,
        kind is Err ==> kind == Err::<DecisionKind, ReceiptDecodeError>(ReceiptDecodeError::UnknownDecisionTag(tag)),
{
    if tag == 0 {
        Ok(DecisionKind::Accept)
    } else if tag == 1 {
        Ok(DecisionKind::Reject)
    } else if tag == 2 {
        Ok(DecisionKind::CommittedFailure)
    } else {
        Err(ReceiptDecodeError::UnknownDecisionTag(tag))
    }
}

/// Reads reason bytes as ASCII text.
fn decode_reason(bytes: &[u8]) -> (text: Result<String, ReceiptDecodeError>)
    ensures
        text is Ok <==> forall|i: int| 0 <= i < bytes@.len() ==> #[trigger] bytes@[i] < 128,
        text matches Ok(t) ==> encode_utf8(t@) == bytes@,
        text is Err ==> text == Err::<String, ReceiptDecodeError>(ReceiptDecodeError::InvalidReasonText),
{
    let mut index: usize = 0;
    while index < bytes.len()
        invariant
            index <= bytes@.len(),
            forall|i: int| 0 <= i < index ==> #[trigger] bytes@[i] < 128,
        decreases bytes@.len() - index,
    {
        if bytes[index] >= 128 {
            return Err(ReceiptDecodeError::InvalidReasonText);
        }
        index = index + 1;
    }
    proof {
        assert(vstd::utf8::partial_valid_utf8(bytes@, 0)) by {
            assert(bytes@.subrange(0, 0) =~= Seq::<u8>::empty());
        }
        assert forall|i: int| 0 <= 0 <= i < bytes@.len() <= bytes@.len() implies #[trigger] vstd::utf8::is_leading_byte_width_1(
            bytes@[i],
        ) by {
            assert(bytes@[i] < 128);
        }
        vstd::utf8::partial_valid_utf8_extend_ascii_block(bytes@, 0, bytes@.len() as int);
        assert(bytes@.subrange(0, bytes@.len() as int) =~= bytes@);
    }
    match utf8_string(crate::decode::copy_range(bytes, 0, bytes.len())) {
        Some(text) => Ok(text),
        None => Err(ReceiptDecodeError::InvalidReasonText),
    }
}

fn read_bindings(bytes: &[u8], offset: usize) -> (read: Result<(CandidateBindings, usize), ReceiptDecodeError>)
    requires
        offset <= bytes@.len(),
    ensures
        read is Ok <==> offset + 192 <= bytes@.len(),
        read matches Ok((b, end)) ==> end == offset + 192 && bindings_encoding(b) == bytes@.subrange(
            offset as int,
            end as int,
        ),
{
    let length = bytes.len();
    assert(bytes@.len() == length);
    let (profile_hash, a) = match read_hash(bytes, offset) {
        Ok(read) => read,
        Err(error) => return Err(receipt_wire_error(error)),
    };
    let (command_hash, b) = match read_hash(bytes, a) {
        Ok(read) => read,
        Err(error) => return Err(receipt_wire_error(error)),
    };
    let (context_hash, c) = match read_hash(bytes, b) {
        Ok(read) => read,
        Err(error) => return Err(receipt_wire_error(error)),
    };
    let (precedence_hash, d) = match read_hash(bytes, c) {
        Ok(read) => read,
        Err(error) => return Err(receipt_wire_error(error)),
    };
    let (algorithm_hash, e) = match read_hash(bytes, d) {
        Ok(read) => read,
        Err(error) => return Err(receipt_wire_error(error)),
    };
    let (budget_hash, f) = match read_hash(bytes, e) {
        Ok(read) => read,
        Err(error) => return Err(receipt_wire_error(error)),
    };
    let bindings = CandidateBindings {
        profile_hash,
        command_hash,
        context_hash,
        precedence_hash,
        algorithm_hash,
        budget_hash,
    };
    assert(bindings_encoding(bindings) =~= bytes@.subrange(offset as int, f as int));
    Ok((bindings, f))
}

fn read_root(bytes: &[u8], offset: usize) -> (read: Result<(Hash32, usize), ReceiptDecodeError>)
    requires
        offset <= bytes@.len(),
    ensures
        read matches Ok((_, end)) ==> offset <= end <= bytes@.len(),
        read is Ok <==> offset + 32 <= bytes@.len(),
        read matches Ok((h, end)) ==> end == offset + 32 && h.spec_bytes() == bytes@.subrange(offset as int, end as int),
{
    let length = bytes.len();
    assert(bytes@.len() == length);
    match read_hash(bytes, offset) {
        Ok(read) => Ok(read),
        Err(error) => Err(receipt_wire_error(error)),
    }
}

/// A body model whose reason suits its decision.
pub open spec fn body_fits(m: BodyModel, bytes: Seq<u8>) -> bool {
    &&& body_encoding(m) == bytes
    &&& decision_reason(m.decision_kind, m.reason_code) == Ok::<Option<Seq<char>>, SealError>(m.reason_code)
}

/// The bytes of the reason part of a body encoding.
pub open spec fn reason_part(reason: Option<Seq<char>>) -> Seq<u8> {
    match reason {
        None => seq![0u8],
        Some(r) => seq![1u8] + blob(encode_utf8(r)),
    }
}

/// Equal binding encodings hold equal bindings.
proof fn lemma_bindings_injective(a: CandidateBindings, b: CandidateBindings)
    requires
        bindings_encoding(a) == bindings_encoding(b),
    ensures
        a == b,
{
    let x = bindings_encoding(a);
    let y = bindings_encoding(b);
    assert(x.subrange(0, 32) =~= a.profile_hash.spec_bytes() && y.subrange(0, 32) =~= b.profile_hash.spec_bytes());
    assert(x.subrange(32, 64) =~= a.command_hash.spec_bytes() && y.subrange(32, 64) =~= b.command_hash.spec_bytes());
    assert(x.subrange(64, 96) =~= a.context_hash.spec_bytes() && y.subrange(64, 96) =~= b.context_hash.spec_bytes());
    assert(x.subrange(96, 128) =~= a.precedence_hash.spec_bytes() && y.subrange(96, 128)
        =~= b.precedence_hash.spec_bytes());
    assert(x.subrange(128, 160) =~= a.algorithm_hash.spec_bytes() && y.subrange(128, 160)
        =~= b.algorithm_hash.spec_bytes());
    assert(x.subrange(160, 192) =~= a.budget_hash.spec_bytes() && y.subrange(160, 192) =~= b.budget_hash.spec_bytes());
    a.profile_hash.lemma_bytes_injective(b.profile_hash);
    a.command_hash.lemma_bytes_injective(b.command_hash);
    a.context_hash.lemma_bytes_injective(b.context_hash);
    a.precedence_hash.lemma_bytes_injective(b.precedence_hash);
    a.algorithm_hash.lemma_bytes_injective(b.algorithm_hash);
    a.budget_hash.lemma_bytes_injective(b.budget_hash);
}

/// Where each field of a fitting body lies in its encoding.
proof fn lemma_body_layout(m: BodyModel, bytes: Seq<u8>)
    requires
        body_fits(m, bytes),
    ensures
        ({
            let k = 1 + reason_part(m.reason_code).len() as int;
            &&& bytes.len() == k + 352
            &&& bytes[0] == decision_tag(m.decision_kind)
            &&& m.reason_code is None ==> bytes[1] == 0 && k == 2
            &&& m.reason_code matches Some(r) ==> {
                &&& bytes[1] == 1
                &&& bytes.subrange(2, 6) == be32(encode_utf8(r).len() as u32)
                &&& encode_utf8(r).len() <= MAX_REASON_CODE_BYTES
                &&& k == 6 + encode_utf8(r).len()
                &&& bytes.subrange(6, k) == encode_utf8(r)
                &&& forall|i: int| 6 <= i < k ==> #[trigger] bytes[i] < 128
            }
            &&& bytes.subrange(k, k + 192) == bindings_encoding(m.bindings)
            &&& bytes.subrange(k + 192, k + 224) == m.pre_root.spec_bytes()
            &&& bytes.subrange(k + 224, k + 256) == m.post_root.spec_bytes()
            &&& bytes.subrange(k + 256, k + 288) == m.patch_hash.spec_bytes()
            &&& bytes.subrange(k + 288, k + 320) == m.commit_plan_hash.spec_bytes()
            &&& bytes.subrange(k + 320, k + 352) == m.outbox_plan_hash.spec_bytes()
        }),
{
    let rp = reason_part(m.reason_code);
    let k: int = 1 + rp.len() as int;
    assert(bytes =~= seq![decision_tag(m.decision_kind)] + rp + bindings_encoding(m.bindings)
        + m.pre_root.spec_bytes() + m.post_root.spec_bytes() + m.patch_hash.spec_bytes()
        + m.commit_plan_hash.spec_bytes() + m.outbox_plan_hash.spec_bytes());
    assert(bytes.subrange(1, k) =~= rp);
    assert(bytes.subrange(k, k + 192) =~= bindings_encoding(m.bindings));
    assert(bytes.subrange(k + 192, k + 224) =~= m.pre_root.spec_bytes());
    assert(bytes.subrange(k + 224, k + 256) =~= m.post_root.spec_bytes());
    assert(bytes.subrange(k + 256, k + 288) =~= m.patch_hash.spec_bytes());
    assert(bytes.subrange(k + 288, k + 320) =~= m.commit_plan_hash.spec_bytes());
    assert(bytes.subrange(k + 320, k + 352) =~= m.outbox_plan_hash.spec_bytes());
    if let Some(r) = m.reason_code {
        assert(reason_text_check(r) is Ok);
        vstd::utf8::is_ascii_chars_encode_utf8(r);
        assert(bytes.subrange(2, 6) =~= rp.subrange(1, 5));
        assert(bytes.subrange(6, k) =~= rp.subrange(5, rp.len() as int));
        assert forall|i: int| 6 <= i < k implies #[trigger] bytes[i] < 128 by {
            assert(bytes[i] == encode_utf8(r)[i - 6]);
            assert(r[i - 6] as u8 == encode_utf8(r)[i - 6]);
        }
    }
}

/// Strictly decodes a candidate body; every body whose reason suits its
/// decision is read back from its own encoding.
fn decode_candidate_body(bytes: &[u8]) -> (body: Result<CandidateBody, ReceiptDecodeError>)
    ensures
        body matches Ok(b) ==> body_encoding(b@) == bytes@,
        forall|m: BodyModel| #[trigger] body_fits(m, bytes@) ==> (body matches Ok(b) && b@ == m),
{
    let length = bytes.len();
    assert(bytes@.len() == length);
    let (tag, p) = match read_u8(bytes, 0) {
        Ok(read) => read,
        Err(error) => {
            proof {
                assert forall|m: BodyModel| !#[trigger] body_fits(m, bytes@) by {
                    if body_fits(m, bytes@) {
                        lemma_body_layout(m, bytes@);
                    }
                }
            }
            return Err(receipt_wire_error(error));
        },
    };
    let decision_kind = match decode_decision(tag) {
        Ok(kind) => kind,
        Err(error) => {
            proof {
                assert forall|m: BodyModel| !#[trigger] body_fits(m, bytes@) by {
                    if body_fits(m, bytes@) {
                        lemma_body_layout(m, bytes@);
                    }
                }
            }
            return Err(error);
        },
    };
    let (flag, q) = match read_u8(bytes, p) {
        Ok(read) => read,
        Err(error) => {
            proof {
                assert forall|m: BodyModel| !#[trigger] body_fits(m, bytes@) by {
                    if body_fits(m, bytes@) {
                        lemma_body_layout(m, bytes@);
                    }
                }
            }
            return Err(receipt_wire_error(error));
        },
    };
    let (reason, r) = if flag == 0 {
        (None, q)
    } else if flag == 1 {
        let (start, end) = match read_blob(bytes, q) {
            Ok(read) => read,
            Err(error) => {
                proof {
                    assert forall|m: BodyModel| !#[trigger] body_fits(m, bytes@) by {
                        if body_fits(m, bytes@) {
                            lemma_body_layout(m, bytes@);
                            let rr = m.reason_code->Some_0;
                            crate::encode::lemma_be32_injective(
                                crate::wire::blob_length(bytes@, 2),
                                encode_utf8(rr).len() as u32,
                            );
                        }
                    }
                }
                return Err(receipt_wire_error(error));
            },
        };
        proof {
            assert forall|m: BodyModel| #[trigger] body_fits(m, bytes@) implies end == 6 + encode_utf8(
                m.reason_code->Some_0,
            ).len() by {
                lemma_body_layout(m, bytes@);
                let rr = m.reason_code->Some_0;
                crate::encode::lemma_be32_injective(
                    crate::wire::blob_length(bytes@, 2),
                    encode_utf8(rr).len() as u32,
                );
            }
        }
        let text = match decode_reason(vstd::slice::slice_subrange(bytes, start, end)) {
            Ok(text) => text,
            Err(error) => {
                proof {
                    assert forall|m: BodyModel| !#[trigger] body_fits(m, bytes@) by {
                        if body_fits(m, bytes@) {
                            lemma_body_layout(m, bytes@);
                            assert forall|i: int| 0 <= i < bytes@.subrange(start as int, end as int).len() implies #[trigger] bytes@.subrange(
                                start as int,
                                end as int,
                            )[i] < 128 by {
                                assert(bytes@.subrange(start as int, end as int)[i] == bytes@[i + 6]);
                            }
                        }
                    }
                }
                return Err(error);
            },
        };
        (Some(text), end)
    } else {
        proof {
            assert forall|m: BodyModel| !#[trigger] body_fits(m, bytes@) by {
                if body_fits(m, bytes@) {
                    lemma_body_layout(m, bytes@);
                }
            }
        }
        return Err(ReceiptDecodeError::InvalidReasonFlag(flag));
    };
    proof {
        assert forall|m: BodyModel| #[trigger] body_fits(m, bytes@) implies r == 1 + reason_part(m.reason_code).len()
            && decision_kind == m.decision_kind && (match reason {
            Some(text) => Some(text@),
            None => None::<Seq<char>>,
        }) == m.reason_code by {
            lemma_body_layout(m, bytes@);
            if let Some(rr) = m.reason_code {
                let text = reason->Some_0;
                vstd::utf8::encode_utf8_decode_utf8(text@);
                vstd::utf8::encode_utf8_decode_utf8(rr);
                assert(encode_utf8(text@) == bytes@.subrange(6, r as int));
            }
        }
    }
    let (bindings, s) = match read_bindings(bytes, r) {
        Ok(read) => read,
        Err(error) => {
            proof {
                assert forall|m: BodyModel| !#[trigger] body_fits(m, bytes@) by {
                    if body_fits(m, bytes@) {
                        lemma_body_layout(m, bytes@);
                    }
                }
            }
            return Err(error);
        },
    };
    let reason_code = match &reason {
        Some(text) => validate_decision_reason(decision_kind, Some(text.as_str())),
        None => validate_decision_reason(decision_kind, None),
    };
    let reason_code = match reason_code {
        Ok(code) => code,
        Err(error) => {
            proof {
                assert forall|m: BodyModel| !#[trigger] body_fits(m, bytes@) by {
                    if body_fits(m, bytes@) {
                        lemma_body_layout(m, bytes@);
                    }
                }
            }
            return Err(ReceiptDecodeError::Seal(error));
        },
    };
    let (pre_root, t) = match read_root(bytes, s) {
        Ok(read) => read,
        Err(error) => {
            proof {
                assert forall|m: BodyModel| !#[trigger] body_fits(m, bytes@) by {
                    if body_fits(m, bytes@) {
                        lemma_body_layout(m, bytes@);
                    }
                }
            }
            return Err(error);
        },
    };
    let (post_root, u) = match read_root(bytes, t) {
        Ok(read) => read,
        Err(error) => {
            proof {
                assert forall|m: BodyModel| !#[trigger] body_fits(m, bytes@) by {
                    if body_fits(m, bytes@) {
                        lemma_body_layout(m, bytes@);
                    }
                }
            }
            return Err(error);
        },
    };
    let (patch_hash, v) = match read_root(bytes, u) {
        Ok(read) => read,
        Err(error) => {
            proof {
                assert forall|m: BodyModel| !#[trigger] body_fits(m, bytes@) by {
                    if body_fits(m, bytes@) {
                        lemma_body_layout(m, bytes@);
                    }
                }
            }
            return Err(error);
        },
    };
    let (commit_plan_hash, w) = match read_root(bytes, v) {
        Ok(read) => read,
        Err(error) => {
            proof {
                assert forall|m: BodyModel| !#[trigger] body_fits(m, bytes@) by {
                    if body_fits(m, bytes@) {
                        lemma_body_layout(m, bytes@);
                    }
                }
            }
            return Err(error);
        },
    };
    let (outbox_plan_hash, x) = match read_root(bytes, w) {
        Ok(read) => read,
        Err(error) => {
            proof {
                assert forall|m: BodyModel| !#[trigger] body_fits(m, bytes@) by {
                    if body_fits(m, bytes@) {
                        lemma_body_layout(m, bytes@);
                    }
                }
            }
            return Err(error);
        },
    };
    if x != bytes.len() {
        proof {
            assert forall|m: BodyModel| !#[trigger] body_fits(m, bytes@) by {
                if body_fits(m, bytes@) {
                    lemma_body_layout(m, bytes@);
                }
            }
        }
        return Err(ReceiptDecodeError::TrailingBytes { offset: x });
    }
    let body = CandidateBody {
        decision_kind,
        reason_code,
        bindings,
        pre_root,
        post_root,
        patch_hash,
        commit_plan_hash,
        outbox_plan_hash,
    };
    proof {
        assert forall|m: BodyModel| #[trigger] body_fits(m, bytes@) implies body@ == m by {
            lemma_body_layout(m, bytes@);
            lemma_bindings_injective(bindings, m.bindings);
            pre_root.lemma_bytes_injective(m.pre_root);
            post_root.lemma_bytes_injective(m.post_root);
            patch_hash.lemma_bytes_injective(m.patch_hash);
            commit_plan_hash.lemma_bytes_injective(m.commit_plan_hash);
            outbox_plan_hash.lemma_bytes_injective(m.outbox_plan_hash);
        }
    }
    let encoded = match body.canonical_bytes() {
        Ok(encoded) => encoded,
        Err(error) => return Err(ReceiptDecodeError::Encode(error)),
    };
    if !bytes_equal(encoded.as_slice(), bytes) {
        return Err(ReceiptDecodeError::NonCanonical);
    }
    Ok(body)
}

/// `bytes` are a candidate identity followed by the length-prefixed
/// encoding of a body whose reason suits its decision.
pub open spec fn receipt_fits(bytes: Seq<u8>, id: Hash32, body: BodyModel) -> bool {
    &&& id.spec_bytes() + blob(body_encoding(body)) == bytes
    &&& body_fits(body, body_encoding(body))
}

/// Strictly decodes one candidate receipt and checks its candidate identity
/// against the body with the selected commitment provider.
pub fn decode_receipt<H: CommitmentHasher>(bytes: &[u8], limits: ReceiptDecodeLimits) -> (decoded: Result<
    Receipt,
    ReceiptDecodeError,
>)
    ensures
        bytes@.len() > limits.max_input_bytes ==> decoded == Err::<Receipt, ReceiptDecodeError>(
            ReceiptDecodeError::InputLimit { limit: limits.max_input_bytes, actual: bytes@.len() as u64 },
        ),
        decoded matches Ok(r) ==> receipt_encoding(r.spec_candidate_id(), r.spec_body()) == bytes@,
        forall|id: Hash32, body: BodyModel|
            #[trigger] receipt_fits(bytes@, id, body) && bytes@.len() <= limits.max_input_bytes && body_encoding(
                body,
            ).len() <= limits.max_body_bytes ==> (decoded matches Ok(r) && r.spec_candidate_id().spec_hash() == id
                && r.spec_body() == body) || decoded == Err::<Receipt, ReceiptDecodeError>(
                ReceiptDecodeError::CandidateMismatch,
            ),
        forall|id: Hash32, body: BodyModel|
            #[trigger] receipt_fits(bytes@, id, body) && bytes@.len() <= limits.max_input_bytes && body_encoding(
                body,
            ).len() <= limits.max_body_bytes ==> (decoded is Ok <==> candidate_commitment::<H>(body) == id),
        decoded matches Ok(r) ==> r.spec_candidate_id().spec_hash() == candidate_commitment::<H>(r.spec_body()),
{
    proof {
        assert forall|id: Hash32, body: BodyModel| #[trigger] receipt_fits(bytes@, id, body) implies ({
            let e = body_encoding(body);
            &&& bytes@.len() == 36 + e.len()
            &&& bytes@.subrange(0, 32) == id.spec_bytes()
            &&& crate::wire::blob_length(bytes@, 32) == e.len()
            &&& bytes@.subrange(36, bytes@.len() as int) == e
        }) by {
            let e = body_encoding(body);
            lemma_body_layout(body, e);
            assert(bytes@.subrange(0, 32) =~= id.spec_bytes());
            assert(bytes@.subrange(32, 36 + e.len() as int) =~= blob(e));
            crate::wire::lemma_blob_fits(bytes@, 32, e);
        }
    }
    let total: usize = bytes.len();
    match enforce_input_limit(bytes, limits.max_input_bytes) {
        Ok(()) => {},
        Err(error) => return Err(error),
    }
    let (id_hash, p) = match read_hash(bytes, 0) {
        Ok(read) => read,
        Err(error) => return Err(receipt_wire_error(error)),
    };
    let (start, end) = match read_blob(bytes, p) {
        Ok(read) => read,
        Err(error) => return Err(receipt_wire_error(error)),
    };
    match enforce_component_limit(ReceiptComponent::CandidateBody, end - start, limits.max_body_bytes) {
        Ok(()) => {},
        Err(error) => return Err(error),
    }
    if end != total {
        return Err(ReceiptDecodeError::TrailingBytes { offset: end });
    }
    let body = match decode_candidate_body(vstd::slice::slice_subrange(bytes, start, end)) {
        Ok(body) => body,
        Err(error) => return Err(error),
    };
    proof {
        assert forall|id: Hash32, m: BodyModel| #[trigger] receipt_fits(bytes@, id, m) implies id_hash == id
            && body@ == m by {
            id_hash.lemma_bytes_injective(id);
        }
    }
    let expected = candidate_id::<H>(&body);
    if !same_hash(expected.0, id_hash) {
        return Err(ReceiptDecodeError::CandidateMismatch);
    }
    let receipt = Receipt { candidate_id: CandidateId(id_hash), body };
    let encoded = match receipt.canonical_bytes() {
        Ok(encoded) => encoded,
        Err(error) => return Err(ReceiptDecodeError::Encode(error)),
    };
    if !bytes_equal(encoded.as_slice(), bytes) {
        return Err(ReceiptDecodeError::NonCanonical);
    }
    Ok(receipt)
}

/// `bytes` are the canonical encoding of a rejection receipt with a valid
/// reason.
pub open spec fn reject_fits(bytes: Seq<u8>, bindings: CandidateBindings, pre_root: Hash32, reason: Seq<char>) -> bool {
    &&& reject_encoding(bindings, pre_root, reason) == bytes
    &&& reason_text_check(reason) is Ok
}

/// Where the parts of an encoded rejection receipt stand.
proof fn lemma_reject_layout(bytes: Seq<u8>, bindings: CandidateBindings, pre_root: Hash32, reason: Seq<char>)
    requires
        reject_fits(bytes, bindings, pre_root, reason),
    ensures
        ({
            let u = encode_utf8(reason);
            &&& bytes.len() == 228 + u.len()
            &&& bytes.subrange(0, 192) == bindings_encoding(bindings)
            &&& bytes.subrange(192, 224) == pre_root.spec_bytes()
            &&& crate::wire::blob_length(bytes, 224) == u.len()
            &&& bytes.subrange(228, bytes.len() as int) == u
            &&& forall|i: int| 0 <= i < u.len() ==> #[trigger] u[i] < 128
        }),
{
    let u = encode_utf8(reason);
    vstd::utf8::is_ascii_chars_encode_utf8(reason);
    assert(bytes.subrange(0, 192) =~= bindings_encoding(bindings));
    assert(bytes.subrange(192, 224) =~= pre_root.spec_bytes());
    assert(bytes.subrange(224, 228 + u.len() as int) =~= blob(u));
    crate::wire::lemma_blob_fits(bytes, 224, u);
    assert forall|i: int| 0 <= i < u.len() implies #[trigger] u[i] < 128 by {
        assert(reason[i] as u8 == u[i]);
    }
}

/// Strictly decodes one unchanged-state rejection receipt.
pub fn decode_reject_receipt(bytes: &[u8], limits: ReceiptDecodeLimits) -> (decoded: Result<
    RejectReceipt,
    ReceiptDecodeError,
>)
    ensures
        bytes@.len() > limits.max_input_bytes ==> decoded == Err::<RejectReceipt, ReceiptDecodeError>(
            ReceiptDecodeError::InputLimit { limit: limits.max_input_bytes, actual: bytes@.len() as u64 },
        ),
        decoded matches Ok(r) ==> r.spec_encoding() == bytes@,
        forall|b: CandidateBindings, root: Hash32, reason: Seq<char>|
            #[trigger] reject_fits(bytes@, b, root, reason) && bytes@.len() <= limits.max_input_bytes ==> (
            decoded matches Ok(r) && r.spec_bindings() == b && r.spec_pre_root() == root && r.spec_reason()
                == reason),
{
    proof {
        assert forall|b: CandidateBindings, root: Hash32, reason: Seq<char>| #[trigger]
            reject_fits(bytes@, b, root, reason) implies ({
            let u = encode_utf8(reason);
            &&& bytes@.len() == 228 + u.len()
            &&& bytes@.subrange(0, 192) == bindings_encoding(b)
            &&& bytes@.subrange(192, 224) == root.spec_bytes()
            &&& crate::wire::blob_length(bytes@, 224) == u.len()
            &&& bytes@.subrange(228, bytes@.len() as int) == u
            &&& forall|i: int| 0 <= i < u.len() ==> #[trigger] u[i] < 128
        }) by {
            lemma_reject_layout(bytes@, b, root, reason);
        }
    }
    let total: usize = bytes.len();
    match enforce_input_limit(bytes, limits.max_input_bytes) {
        Ok(()) => {},
        Err(error) => return Err(error),
    }
    let (bindings, p) = match read_bindings(bytes, 0) {
        Ok(read) => read,
        Err(error) => return Err(error),
    };
    let (pre_root, q) = match read_root(bytes, p) {
        Ok(read) => read,
        Err(error) => return Err(error),
    };
    let (start, end) = match read_blob(bytes, q) {
        Ok(read) => read,
        Err(error) => return Err(receipt_wire_error(error)),
    };
    let reason = match decode_reason(vstd::slice::slice_subrange(bytes, start, end)) {
        Ok(reason) => reason,
        Err(error) => return Err(error),
    };
    if end != total {
        return Err(ReceiptDecodeError::TrailingBytes { offset: end });
    }
    proof {
        assert forall|b: CandidateBindings, root: Hash32, reason_text: Seq<char>| #[trigger]
            reject_fits(bytes@, b, root, reason_text) implies bindings == b && pre_root == root && reason@
            == reason_text by {
            lemma_bindings_injective(bindings, b);
            pre_root.lemma_bytes_injective(root);
            vstd::utf8::encode_utf8_decode_utf8(reason@);
            vstd::utf8::encode_utf8_decode_utf8(reason_text);
        }
    }
    let receipt = match RejectReceipt::new(bindings, pre_root, reason.as_str()) {
        Ok(receipt) => receipt,
        Err(error) => return Err(ReceiptDecodeError::Seal(error)),
    };
    let encoded = match receipt.canonical_bytes() {
        Ok(encoded) => encoded,
        Err(error) => return Err(ReceiptDecodeError::Encode(error)),
    };
    if !bytes_equal(encoded.as_slice(), bytes) {
        return Err(ReceiptDecodeError::NonCanonical);
    }
    Ok(receipt)
}

/// `bytes` are a candidate identity, the length-prefixed encoding of a body
/// whose reason suits its decision, then the length-prefixed canonical
/// encodings of a patch, an authoritative plan, an outbox plan and a receipt,
/// each within its limit.
pub open spec fn bundle_parts_fit(
    bytes: Seq<u8>,
    limits: BundleDecodeLimits,
    id: Hash32,
    body: BodyModel,
    patch: Seq<u8>,
    commit_plan: Seq<u8>,
    outbox_plan: Seq<u8>,
    receipt: Seq<u8>,
) -> bool {
    &&& id.spec_bytes() + blob(body_encoding(body)) + blob(patch) + blob(commit_plan) + blob(outbox_plan) + blob(
        receipt,
    ) == bytes
    &&& bytes.len() <= limits.max_input_bytes
    &&& body_fits(body, body_encoding(body))
    &&& body_encoding(body).len() <= limits.receipt.max_body_bytes
    &&& patch.len() <= u32::MAX && commit_plan.len() <= u32::MAX && outbox_plan.len() <= u32::MAX
    &&& receipt.len() <= limits.receipt.max_input_bytes && receipt.len() <= u32::MAX
    &&& exists|state_type: u32, root: Hash32, ops: Seq<OpModel>, keys: Seq<Seq<ValueModel>>|
        #[trigger] patch_fits(patch, state_type, root, ops, keys, limits.patch)
    &&& exists|effects: Seq<Effect>| #[trigger] plan_fits(commit_plan, effects, limits.commit_plan)
    &&& exists|entries: Seq<OutboxEntry>| #[trigger] outbox_fits(outbox_plan, entries, limits.outbox_plan)
    &&& exists|receipt_id: Hash32, receipt_body: BodyModel|
        #[trigger] receipt_fits(receipt, receipt_id, receipt_body) && body_encoding(receipt_body).len()
            <= limits.receipt.max_body_bytes
}

/// Where the parts of a bundle stand.
proof fn lemma_bundle_layout(
    bytes: Seq<u8>,
    id: Hash32,
    body: Seq<u8>,
    patch: Seq<u8>,
    commit_plan: Seq<u8>,
    outbox_plan: Seq<u8>,
    receipt: Seq<u8>,
)
    requires
        id.spec_bytes() + blob(body) + blob(patch) + blob(commit_plan) + blob(outbox_plan) + blob(receipt) == bytes,
        body.len() <= u32::MAX,
        patch.len() <= u32::MAX,
        commit_plan.len() <= u32::MAX,
        outbox_plan.len() <= u32::MAX,
        receipt.len() <= u32::MAX,
    ensures
        ({
            let e1 = 36 + body.len() as int;
            let e2 = e1 + 4 + patch.len() as int;
            let e3 = e2 + 4 + commit_plan.len() as int;
            let e4 = e3 + 4 + outbox_plan.len() as int;
            &&& bytes.len() == e4 + 4 + receipt.len()
            &&& crate::wire::blob_length(bytes, 32) == body.len() && bytes.subrange(36, e1) == body
            &&& crate::wire::blob_length(bytes, e1) == patch.len() && bytes.subrange(e1 + 4, e2) == patch
            &&& crate::wire::blob_length(bytes, e2) == commit_plan.len() && bytes.subrange(e2 + 4, e3) == commit_plan
            &&& crate::wire::blob_length(bytes, e3) == outbox_plan.len() && bytes.subrange(e3 + 4, e4) == outbox_plan
            &&& crate::wire::blob_length(bytes, e4) == receipt.len() && bytes.subrange(e4 + 4, bytes.len() as int)
                == receipt
        }),
{
    id.lemma_len();
    let e1 = 36 + body.len() as int;
    let e2 = e1 + 4 + patch.len() as int;
    let e3 = e2 + 4 + commit_plan.len() as int;
    let e4 = e3 + 4 + outbox_plan.len() as int;
    assert(bytes.subrange(32, e1) =~= blob(body));
    crate::wire::lemma_blob_fits(bytes, 32, body);
    assert(bytes.subrange(e1, e2) =~= blob(patch));
    crate::wire::lemma_blob_fits(bytes, e1, patch);
    assert(bytes.subrange(e2, e3) =~= blob(commit_plan));
    crate::wire::lemma_blob_fits(bytes, e2, commit_plan);
    assert(bytes.subrange(e3, e4) =~= blob(outbox_plan));
    crate::wire::lemma_blob_fits(bytes, e3, outbox_plan);
    assert(bytes.subrange(e4, e4 + 4 + receipt.len() as int) =~= blob(receipt));
    crate::wire::lemma_blob_fits(bytes, e4, receipt);
}

/// Rebuilds a bundle from its decoded parts by sealing them against the
/// pre-state and domain; the rebuilt identity, body and receipt must be the
/// decoded ones and its canonical bytes the input.
fn reseal_bundle<H: CommitmentHasher>(
    bytes: &[u8],
    id_hash: Hash32,
    body: CandidateBody,
    patch: CanonicalPatch,
    commit_plan: CommitPlan,
    outbox_plan: OutboxPlan,
    receipt: Receipt,
    pre_state: &Value,
    state_domain: &Domain,
) -> (decoded: Result<CommitBundle, ReceiptDecodeError>)
    requires
        bytes@ == id_hash.spec_bytes() + blob(body_encoding(body@)) + blob(patch.spec_encoding()) + blob(
            commit_plan.spec_encoding(),
        ) + blob(outbox_plan.spec_encoding()) + blob(receipt_encoding(receipt.spec_candidate_id(), receipt.spec_body())),
        patch.spec_encoding().len() <= u32::MAX,
        commit_plan.spec_encoding().len() <= u32::MAX,
        outbox_plan.spec_encoding().len() <= u32::MAX,
    ensures
        decoded matches Ok(b) ==> b.spec_encoding() == bytes@ && apply_ops(
            b.spec_patch().spec_operations(),
            pre_state@,
        ) is Ok,
        decoded is Ok || decoded matches Err(ReceiptDecodeError::Seal(_)) || decoded == Err::<
            CommitBundle,
            ReceiptDecodeError,
        >(ReceiptDecodeError::CandidateMismatch) || decoded == Err::<CommitBundle, ReceiptDecodeError>(
            ReceiptDecodeError::ReceiptMismatch,
        ),
{
    let reason = match &body.reason_code {
        Some(code) => Some(code.as_str()),
        None => None,
    };
    let rebuilt = match CandidateBuilder::seal::<H>(
        pre_state,
        state_domain,
        body.decision_kind,
        reason,
        body.bindings,
        patch,
        commit_plan,
        outbox_plan,
    ) {
        Ok(bundle) => bundle,
        Err(error) => return Err(ReceiptDecodeError::Seal(error)),
    };
    if !(same_hash(rebuilt.candidate_id.0, id_hash) && rebuilt.body.same_as(&body)) {
        return Err(ReceiptDecodeError::CandidateMismatch);
    }
    if !(same_hash(rebuilt.receipt.candidate_id.0, receipt.candidate_id.0) && rebuilt.receipt.body.same_as(
        &receipt.body,
    )) {
        return Err(ReceiptDecodeError::ReceiptMismatch);
    }
    let encoded = match rebuilt.canonical_bytes() {
        Ok(encoded) => encoded,
        Err(error) => return Err(ReceiptDecodeError::Encode(error)),
    };
    proof {
        assert(rebuilt.spec_encoding() =~= bytes@);
    }
    if !bytes_equal(encoded.as_slice(), bytes) {
        return Err(ReceiptDecodeError::NonCanonical);
    }
    Ok(rebuilt)
}

/// Strictly decodes and fully reconstructs one committed candidate.
///
/// Nested patches and plans pass their own bounded decoders, and the result
/// is rebuilt by `CandidateBuilder::seal` against the supplied pre-state and
/// state domain: no decoded field creates a trusted bundle directly.
#[verifier::rlimit(100)]
#[verifier::spinoff_prover]
pub fn decode_commit_bundle<H: CommitmentHasher>(
    bytes: &[u8],
    pre_state: &Value,
    state_domain: &Domain,
    limits: BundleDecodeLimits,
) -> (decoded: Result<CommitBundle, ReceiptDecodeError>)
    ensures
        bytes@.len() > limits.max_input_bytes ==> decoded == Err::<CommitBundle, ReceiptDecodeError>(
            ReceiptDecodeError::InputLimit { limit: limits.max_input_bytes, actual: bytes@.len() as u64 },
        ),
        decoded matches Ok(b) ==> b.spec_encoding() == bytes@ && apply_ops(
            b.spec_patch().spec_operations(),
            pre_state@,
        ) is Ok,
        (exists|id: Hash32, body: BodyModel, patch: Seq<u8>, commit_plan: Seq<u8>, outbox_plan: Seq<u8>, receipt: Seq<
            u8,
        >| #[trigger] bundle_parts_fit(bytes@, limits, id, body, patch, commit_plan, outbox_plan, receipt))
            ==> (decoded is Ok || decoded matches Err(ReceiptDecodeError::Seal(_)) || decoded == Err::<
            CommitBundle,
            ReceiptDecodeError,
        >(ReceiptDecodeError::CandidateMismatch) || decoded == Err::<CommitBundle, ReceiptDecodeError>(
            ReceiptDecodeError::ReceiptMismatch,
        )),
{
    let ghost fits = exists|
        id: Hash32,
        body: BodyModel,
        patch: Seq<u8>,
        commit_plan: Seq<u8>,
        outbox_plan: Seq<u8>,
        receipt: Seq<u8>,
    | #[trigger] bundle_parts_fit(bytes@, limits, id, body, patch, commit_plan, outbox_plan, receipt);
    let ghost t = choose|
        id: Hash32,
        body: BodyModel,
        patch: Seq<u8>,
        commit_plan: Seq<u8>,
        outbox_plan: Seq<u8>,
        receipt: Seq<u8>,
    | #[trigger] bundle_parts_fit(bytes@, limits, id, body, patch, commit_plan, outbox_plan, receipt);
    let ghost be = body_encoding(t.1);
    let total: usize = bytes.len();
    proof {
        if fits {
            lemma_body_layout(t.1, be);
            lemma_bundle_layout(bytes@, t.0, be, t.2, t.3, t.4, t.5);
        }
    }
    match enforce_input_limit(bytes, limits.max_input_bytes) {
        Ok(()) => {},
        Err(error) => return Err(error),
    }
    let (id_hash, p) = match read_hash(bytes, 0) {
        Ok(read) => read,
        Err(error) => return Err(receipt_wire_error(error)),
    };
    let (body_start, body_end) = match read_blob(bytes, p) {
        Ok(read) => read,
        Err(error) => return Err(receipt_wire_error(error)),
    };
    match enforce_component_limit(
        ReceiptComponent::CandidateBody,
        body_end - body_start,
        limits.receipt.max_body_bytes,
    ) {
        Ok(()) => {},
        Err(error) => return Err(error),
    }
    let (patch_start, patch_end) = match read_blob(bytes, body_end) {
        Ok(read) => read,
        Err(error) => return Err(receipt_wire_error(error)),
    };
    let (commit_start, commit_end) = match read_blob(bytes, patch_end) {
        Ok(read) => read,
        Err(error) => return Err(receipt_wire_error(error)),
    };
    let (outbox_start, outbox_end) = match read_blob(bytes, commit_end) {
        Ok(read) => read,
        Err(error) => return Err(receipt_wire_error(error)),
    };
    let (receipt_start, receipt_end) = match read_blob(bytes, outbox_end) {
        Ok(read) => read,
        Err(error) => return Err(receipt_wire_error(error)),
    };
    match enforce_component_limit(
        ReceiptComponent::Receipt,
        receipt_end - receipt_start,
        limits.receipt.max_input_bytes,
    ) {
        Ok(()) => {},
        Err(error) => return Err(error),
    }
    if receipt_end != total {
        return Err(ReceiptDecodeError::TrailingBytes { offset: receipt_end });
    }
    proof {
        if fits {
            assert(bytes@.subrange(body_start as int, body_end as int) == be);
            assert(bytes@.subrange(patch_start as int, patch_end as int) == t.2);
            assert(bytes@.subrange(commit_start as int, commit_end as int) == t.3);
            assert(bytes@.subrange(outbox_start as int, outbox_end as int) == t.4);
            assert(bytes@.subrange(receipt_start as int, receipt_end as int) == t.5);
        }
        assert(bytes@ =~= bytes@.subrange(0, p as int) + bytes@.subrange(p as int, body_end as int) + bytes@.subrange(
            body_end as int,
            patch_end as int,
        ) + bytes@.subrange(patch_end as int, commit_end as int) + bytes@.subrange(
            commit_end as int,
            outbox_end as int,
        ) + bytes@.subrange(outbox_end as int, receipt_end as int));
    }
    let body = match decode_candidate_body(vstd::slice::slice_subrange(bytes, body_start, body_end)) {
        Ok(body) => body,
        Err(error) => return Err(error),
    };
    let patch = match decode_canonical_patch(vstd::slice::slice_subrange(bytes, patch_start, patch_end), limits.patch) {
        Ok(patch) => patch,
        Err(error) => return Err(ReceiptDecodeError::Patch(error)),
    };
    let commit_plan = match decode_commit_plan(
        vstd::slice::slice_subrange(bytes, commit_start, commit_end),
        limits.commit_plan,
    ) {
        Ok(plan) => plan,
        Err(error) => return Err(ReceiptDecodeError::Plan(error)),
    };
    let outbox_plan = match decode_outbox_plan(
        vstd::slice::slice_subrange(bytes, outbox_start, outbox_end),
        limits.outbox_plan,
    ) {
        Ok(plan) => plan,
        Err(error) => return Err(ReceiptDecodeError::Plan(error)),
    };
    let receipt = match decode_receipt::<H>(
        vstd::slice::slice_subrange(bytes, receipt_start, receipt_end),
        limits.receipt,
    ) {
        Ok(receipt) => receipt,
        Err(error) => return Err(error),
    };
    proof {
        assert(bytes@ == id_hash.spec_bytes() + blob(body_encoding(body@)) + blob(patch.spec_encoding()) + blob(
            commit_plan.spec_encoding(),
        ) + blob(outbox_plan.spec_encoding()) + blob(receipt_encoding(receipt.spec_candidate_id(), receipt.spec_body())));
    }
    reseal_bundle::<H>(bytes, id_hash, body, patch, commit_plan, outbox_plan, receipt, pre_state, state_domain)
}

} // verus!

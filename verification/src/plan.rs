//! Closed data-only plans for authoritative commit and external delivery.
//!
//! Plans hold no closures, endpoints or runtime handles: the shell interprets
//! a closed operation registry. Items are kept in strictly increasing ordinal
//! order, so a plan has one canonical byte form.

use vstd::prelude::*;

use crate::commit::{commitment_preimage, frame_commitment, CommitmentHasher, Hash32};
use crate::encode::{be32, blob, put_bytes, put_length, put_u32, put_u32_blob, EncodeError};
use crate::sort::{
    canonical_order, first_adjacent_duplicate, has_duplicate_key, lemma_canonical_order, lemma_duplicate_key_multiset,
    lemma_least_duplicated_key, lemma_least_duplicated_key_multiset, least_duplicated_key, sort_by_key,
    strictly_sorted_by_key, Keyed,
};
use crate::decode::{node_count, payload_size, value_admitted, decode_value_with_metrics, DecodeError, DecodeLimits, DEFAULT_MAX_INPUT_BYTES};
use crate::value::{encoding, Value, ValueModel};
use crate::wire::{blob_length, bytes_equal, lemma_blob_fits, read_blob, read_hash, read_u32, WireError};

verus! {

// ---------------------------------------------------------------------------
// Effects.
// ---------------------------------------------------------------------------

/// One authoritative operation planned by the semantic core.
#[derive(Debug, PartialEq, Eq)]
pub struct Effect {
    ordinal: u32,
    operation: u32,
    authority: Hash32,
    subject: Hash32,
    payload: Value,
}

impl Effect {
    /// The canonical ordinal.
    pub closed spec fn spec_ordinal(self) -> u32 {
        self.ordinal
    }

    /// The closed operation identifier.
    pub closed spec fn spec_operation(self) -> u32 {
        self.operation
    }

    /// The authority-domain commitment.
    pub closed spec fn spec_authority(self) -> Hash32 {
        self.authority
    }

    /// The subject commitment.
    pub closed spec fn spec_subject(self) -> Hash32 {
        self.subject
    }

    /// The payload.
    pub closed spec fn spec_payload(self) -> ValueModel {
        self.payload@
    }

    /// Canonical bytes: ordinal, operation, authority, subject, then the
    /// length-prefixed payload encoding.
    pub open spec fn spec_encoding(self) -> Seq<u8> {
        be32(self.spec_ordinal()) + be32(self.spec_operation()) + self.spec_authority().spec_bytes()
            + self.spec_subject().spec_bytes() + blob(encoding(self.spec_payload()))
    }

    /// Every length prefix of the encoding fits 32 bits, the effect's own
    /// within its plan too.
    pub open spec fn spec_encodable(self) -> bool {
        self.spec_encoding().len() <= u32::MAX
    }

    /// Creates a closed authoritative operation.
    pub fn new(ordinal: u32, operation: u32, authority: Hash32, subject: Hash32, payload: Value) -> (effect: Self)
        ensures
            effect.spec_ordinal() == ordinal,
            effect.spec_operation() == operation,
            effect.spec_authority() == authority,
            effect.spec_subject() == subject,
            effect.spec_payload() == payload@,
    {
        Effect { ordinal, operation, authority, subject, payload }
    }

    /// Returns the canonical ordinal.
    pub fn ordinal(&self) -> (ordinal: u32)
        ensures
            ordinal == self.spec_ordinal(),
    {
        self.ordinal
    }

    /// Returns the closed operation identifier.
    pub fn operation(&self) -> (operation: u32)
        ensures
            operation == self.spec_operation(),
    {
        self.operation
    }

    /// Returns the authority-domain commitment.
    pub fn authority(&self) -> (authority: Hash32)
        ensures
            authority == self.spec_authority(),
    {
        self.authority
    }

    /// Returns the subject commitment.
    pub fn subject(&self) -> (subject: Hash32)
        ensures
            subject == self.spec_subject(),
    {
        self.subject
    }

    /// Returns the payload.
    pub fn payload(&self) -> (payload: &Value)
        ensures
            payload@ == self.spec_payload(),
    {
        &self.payload
    }

    /// The canonical encoding; fails when the payload does not fit its prefix.
    pub fn canonical_bytes(&self) -> (bytes: Result<Vec<u8>, EncodeError>)
        ensures
            bytes is Ok <==> encoding(self.spec_payload()).len() <= u32::MAX,
            bytes matches Ok(b) ==> b@ == self.spec_encoding(),
    {
        let mut output: Vec<u8> = Vec::new();
        put_u32(&mut output, self.ordinal);
        put_u32(&mut output, self.operation);
        put_bytes(&mut output, self.authority.as_bytes());
        put_bytes(&mut output, self.subject.as_bytes());
        let payload = self.payload.canonical_bytes();
        match put_u32_blob(&mut output, payload.as_slice()) {
            Ok(()) => {},
            Err(error) => return Err(error),
        }
        assert(output@ =~= self.spec_encoding());
        Ok(output)
    }
}

impl Clone for Effect {
    fn clone(&self) -> (copy: Self)
        ensures
            copy.spec_ordinal() == self.spec_ordinal(),
            copy.spec_operation() == self.spec_operation(),
            copy.spec_authority() == self.spec_authority(),
            copy.spec_subject() == self.spec_subject(),
            copy.spec_payload() == self.spec_payload(),
    {
        Effect {
            ordinal: self.ordinal,
            operation: self.operation,
            authority: self.authority,
            subject: self.subject,
            payload: self.payload.duplicate(),
        }
    }
}

impl Keyed for Effect {
    open spec fn spec_key(&self) -> int {
        self.spec_ordinal() as int
    }

    fn key_lt(&self, other: &Self) -> bool {
        self.ordinal < other.ordinal
    }

    fn key_eq(&self, other: &Self) -> bool {
        self.ordinal == other.ordinal
    }
}

// ---------------------------------------------------------------------------
// Commit plans.
// ---------------------------------------------------------------------------

/// The length-prefixed encodings of the effects, in order.
pub open spec fn effect_blobs(effects: Seq<Effect>) -> Seq<u8>
    decreases effects.len(),
{
    if effects.len() == 0 {
        Seq::empty()
    } else {
        effect_blobs(effects.drop_last()) + blob(effects.last().spec_encoding())
    }
}

/// Every length prefix of a plan of these effects fits 32 bits.
pub open spec fn effects_encodable(effects: Seq<Effect>) -> bool {
    &&& effects.len() <= u32::MAX
    &&& forall|i: int| 0 <= i < effects.len() ==> #[trigger] effects[i].spec_encodable()
}

/// Closed-plan construction failure.
#[derive(Clone, Copy, Debug, PartialEq, Eq, Structural)]
pub enum PlanError {
    /// Two authoritative effects share one ordinal.
    DuplicateEffectOrdinal(u32),
    /// Two outbox entries share one ordinal.
    DuplicateOutboxOrdinal(u32),
}

impl PlanError {
    /// A short description of the failure.
    pub fn message(&self) -> (text: &'static str)
        ensures
            text == (match *self {
                PlanError::DuplicateEffectOrdinal(_) => "duplicate effect ordinal",
                PlanError::DuplicateOutboxOrdinal(_) => "duplicate outbox ordinal",
            }),
    {
        match self {
            PlanError::DuplicateEffectOrdinal(_) => "duplicate effect ordinal",
            PlanError::DuplicateOutboxOrdinal(_) => "duplicate outbox ordinal",
        }
    }
}

/// Authoritative operations in strictly increasing ordinal order.
#[derive(Debug, PartialEq, Eq)]
pub struct CommitPlan {
    effects: Vec<Effect>,
}

impl CommitPlan {
    /// Ordinals strictly increase.
    #[verifier::type_invariant]
    spec fn canonical(self) -> bool {
        strictly_sorted_by_key(self.effects@)
    }

    /// The effects in canonical order.
    pub closed spec fn spec_effects(self) -> Seq<Effect> {
        self.effects@
    }

    /// Canonical bytes: the effect count, then each effect's length-prefixed encoding.
    pub open spec fn spec_encoding(self) -> Seq<u8> {
        be32(self.spec_effects().len() as u32) + effect_blobs(self.spec_effects())
    }

    /// Sorts the effects by ordinal; two effects with one ordinal are refused,
    /// naming the least such ordinal.
    pub fn try_new(effects: Vec<Effect>) -> (plan: Result<Self, PlanError>)
        ensures
            has_duplicate_key(effects@) ==> plan == Err::<Self, PlanError>(
                PlanError::DuplicateEffectOrdinal(least_duplicated_key(effects@) as u32),
            ),
            !has_duplicate_key(effects@) ==> (plan matches Ok(p) && p.spec_effects() == canonical_order(
                effects@,
            ) && p.spec_effects().len() == effects@.len()),
    {
        let ghost declared = effects@;
        let sorted = sort_by_key(effects);
        proof {
            lemma_duplicate_key_multiset(sorted@, declared);
        }
        match first_adjacent_duplicate(&sorted) {
            Some(index) => {
                let ordinal = sorted[index].ordinal();
                proof {
                    lemma_least_duplicated_key(sorted@, ordinal as int);
                    lemma_least_duplicated_key_multiset(sorted@, declared);
                }
                return Err(PlanError::DuplicateEffectOrdinal(ordinal));
            },
            None => {},
        }
        proof {
            lemma_canonical_order(declared, sorted@);
        }
        Ok(CommitPlan { effects: sorted })
    }

    /// The plan without effects.
    pub fn empty() -> (plan: Self)
        ensures
            plan.spec_effects() == Seq::<Effect>::empty(),
    {
        CommitPlan { effects: Vec::new() }
    }

    /// Returns the effects in canonical order.
    pub fn effects(&self) -> (effects: &[Effect])
        ensures
            effects@ == self.spec_effects(),
            strictly_sorted_by_key(effects@),
    {
        proof {
            use_type_invariant(self);
        }
        self.effects.as_slice()
    }

    /// The canonical encoding; fails when a length does not fit its prefix.
    pub fn canonical_bytes(&self) -> (bytes: Result<Vec<u8>, EncodeError>)
        ensures
            bytes is Ok <==> effects_encodable(self.spec_effects()),
            bytes matches Ok(b) ==> b@ == self.spec_encoding(),
    {
        let mut output: Vec<u8> = Vec::new();
        match put_length(&mut output, self.effects.len()) {
            Ok(()) => {},
            Err(error) => return Err(error),
        }
        let ghost effects = self.effects@;
        let mut index: usize = 0;
        while index < self.effects.len()
            invariant
                index <= effects.len(),
                effects == self.effects@,
                effects.len() <= u32::MAX,
                output@ == be32(effects.len() as u32) + effect_blobs(effects.subrange(0, index as int)),
                forall|i: int| 0 <= i < index ==> #[trigger] effects[i].spec_encodable(),
            decreases effects.len() - index,
        {
            let encoded = match self.effects[index].canonical_bytes() {
                Ok(encoded) => encoded,
                Err(error) => {
                    proof {
                        assert(!effects[index as int].spec_encodable());
                    }
                    return Err(error);
                },
            };
            match put_u32_blob(&mut output, encoded.as_slice()) {
                Ok(()) => {},
                Err(error) => {
                    proof {
                        assert(!effects[index as int].spec_encodable());
                    }
                    return Err(error);
                },
            }
            proof {
                assert(effects.subrange(0, index + 1).drop_last() =~= effects.subrange(0, index as int));
            }
            index = index + 1;
        }
        assert(effects.subrange(0, effects.len() as int) =~= effects);
        Ok(output)
    }
}

// ---------------------------------------------------------------------------
// Outbox entries.
// ---------------------------------------------------------------------------

/// Commitment domain label of delivery identities.
pub open spec fn delivery_domain() -> Seq<u8> {
    seq![122u8, 101u8, 110u8, 111u8, 45u8, 102u8, 99u8, 105u8, 115u8, 47u8, 100u8, 101u8, 108u8, 105u8, 118u8, 101u8, 114u8, 121u8]
}

/// One external-delivery obligation committed as data.
#[derive(Debug, PartialEq, Eq)]
pub struct OutboxEntry {
    ordinal: u32,
    channel: u32,
    destination: Value,
    payload: Value,
}

impl OutboxEntry {
    /// The canonical ordinal.
    pub closed spec fn spec_ordinal(self) -> u32 {
        self.ordinal
    }

    /// The closed channel identifier.
    pub closed spec fn spec_channel(self) -> u32 {
        self.channel
    }

    /// The destination.
    pub closed spec fn spec_destination(self) -> ValueModel {
        self.destination@
    }

    /// The payload.
    pub closed spec fn spec_payload(self) -> ValueModel {
        self.payload@
    }

    /// Canonical bytes: ordinal, channel, then the length-prefixed destination
    /// and payload encodings.
    pub open spec fn spec_encoding(self) -> Seq<u8> {
        be32(self.spec_ordinal()) + be32(self.spec_channel()) + blob(encoding(self.spec_destination())) + blob(
            encoding(self.spec_payload()),
        )
    }

    /// Both values fit their 32-bit length prefixes.
    pub open spec fn spec_values_fit(self) -> bool {
        encoding(self.spec_destination()).len() <= u32::MAX && encoding(self.spec_payload()).len() <= u32::MAX
    }

    /// Every length prefix of the encoding fits 32 bits, the entry's own
    /// within its plan too.
    pub open spec fn spec_encodable(self) -> bool {
        self.spec_values_fit() && self.spec_encoding().len() <= u32::MAX
    }

    /// Creates an outbox entry.
    pub fn new(ordinal: u32, channel: u32, destination: Value, payload: Value) -> (entry: Self)
        ensures
            entry.spec_ordinal() == ordinal,
            entry.spec_channel() == channel,
            entry.spec_destination() == destination@,
            entry.spec_payload() == payload@,
    {
        OutboxEntry { ordinal, channel, destination, payload }
    }

    /// Returns the canonical ordinal.
    pub fn ordinal(&self) -> (ordinal: u32)
        ensures
            ordinal == self.spec_ordinal(),
    {
        self.ordinal
    }

    /// Returns the closed channel identifier.
    pub fn channel(&self) -> (channel: u32)
        ensures
            channel == self.spec_channel(),
    {
        self.channel
    }

    /// Returns the destination.
    pub fn destination(&self) -> (destination: &Value)
        ensures
            destination@ == self.spec_destination(),
    {
        &self.destination
    }

    /// Returns the payload.
    pub fn payload(&self) -> (payload: &Value)
        ensures
            payload@ == self.spec_payload(),
    {
        &self.payload
    }

    /// The canonical encoding; fails when a value does not fit its prefix.
    pub fn canonical_bytes(&self) -> (bytes: Result<Vec<u8>, EncodeError>)
        ensures
            bytes is Ok <==> self.spec_values_fit(),
            bytes matches Ok(b) ==> b@ == self.spec_encoding(),
    {
        let mut output: Vec<u8> = Vec::new();
        put_u32(&mut output, self.ordinal);
        put_u32(&mut output, self.channel);
        let destination = self.destination.canonical_bytes();
        match put_u32_blob(&mut output, destination.as_slice()) {
            Ok(()) => {},
            Err(error) => return Err(error),
        }
        let payload = self.payload.canonical_bytes();
        match put_u32_blob(&mut output, payload.as_slice()) {
            Ok(()) => {},
            Err(error) => return Err(error),
        }
        assert(output@ =~= self.spec_encoding());
        Ok(output)
    }

    /// The bytes a delivery identity hashes: the candidate identity followed
    /// by the entry's encoding, under the delivery domain, version 1.
    pub fn delivery_id_bytes(&self, candidate_id: Hash32) -> (bytes: Result<Vec<u8>, EncodeError>)
        ensures
            bytes is Ok <==> self.spec_values_fit(),
            bytes matches Ok(b) ==> b@ == commitment_preimage(
                delivery_domain(),
                1,
                candidate_id.spec_bytes() + self.spec_encoding(),
            ),
    {
        let encoded = match self.canonical_bytes() {
            Ok(encoded) => encoded,
            Err(error) => return Err(error),
        };
        let mut content: Vec<u8> = Vec::new();
        put_bytes(&mut content, candidate_id.as_bytes());
        put_bytes(&mut content, encoded.as_slice());
        let label: Vec<u8> = vec![122u8, 101u8, 110u8, 111u8, 45u8, 102u8, 99u8, 105u8, 115u8, 47u8, 100u8, 101u8, 108u8, 105u8, 118u8, 101u8, 114u8, 121u8];
        assert(label@ =~= delivery_domain());
        Ok(frame_commitment(label.as_slice(), 1, content.as_slice()))
    }

    /// The idempotent delivery identity: the hash of exactly the bytes that
    /// `delivery_id_bytes` returns.
    pub fn delivery_id<H: CommitmentHasher>(&self, candidate_id: Hash32) -> (id: Result<Hash32, EncodeError>)
        ensures
            id is Ok <==> self.spec_values_fit(),
            id matches Ok(h) ==> h == H::spec_hash(
                commitment_preimage(delivery_domain(), 1, candidate_id.spec_bytes() + self.spec_encoding()),
            ),
    {
        let bytes = match self.delivery_id_bytes(candidate_id) {
            Ok(bytes) => bytes,
            Err(error) => return Err(error),
        };
        Ok(H::hash(bytes.as_slice()))
    }
}

impl Clone for OutboxEntry {
    fn clone(&self) -> (copy: Self)
        ensures
            copy.spec_ordinal() == self.spec_ordinal(),
            copy.spec_channel() == self.spec_channel(),
            copy.spec_destination() == self.spec_destination(),
            copy.spec_payload() == self.spec_payload(),
    {
        OutboxEntry {
            ordinal: self.ordinal,
            channel: self.channel,
            destination: self.destination.duplicate(),
            payload: self.payload.duplicate(),
        }
    }
}

impl Keyed for OutboxEntry {
    open spec fn spec_key(&self) -> int {
        self.spec_ordinal() as int
    }

    fn key_lt(&self, other: &Self) -> bool {
        self.ordinal < other.ordinal
    }

    fn key_eq(&self, other: &Self) -> bool {
        self.ordinal == other.ordinal
    }
}

// ---------------------------------------------------------------------------
// Outbox plans.
// ---------------------------------------------------------------------------

/// The length-prefixed encodings of the entries, in order.
pub open spec fn entry_blobs(entries: Seq<OutboxEntry>) -> Seq<u8>
    decreases entries.len(),
{
    if entries.len() == 0 {
        Seq::empty()
    } else {
        entry_blobs(entries.drop_last()) + blob(entries.last().spec_encoding())
    }
}

/// Every length prefix of a plan of these entries fits 32 bits.
pub open spec fn entries_encodable(entries: Seq<OutboxEntry>) -> bool {
    &&& entries.len() <= u32::MAX
    &&& forall|i: int| 0 <= i < entries.len() ==> #[trigger] entries[i].spec_encodable()
}

/// External-delivery obligations in strictly increasing ordinal order.
#[derive(Debug, PartialEq, Eq)]
pub struct OutboxPlan {
    entries: Vec<OutboxEntry>,
}

impl OutboxPlan {
    /// Ordinals strictly increase.
    #[verifier::type_invariant]
    spec fn canonical(self) -> bool {
        strictly_sorted_by_key(self.entries@)
    }

    /// The entries in canonical order.
    pub closed spec fn spec_entries(self) -> Seq<OutboxEntry> {
        self.entries@
    }

    /// Canonical bytes: the entry count, then each entry's length-prefixed encoding.
    pub open spec fn spec_encoding(self) -> Seq<u8> {
        be32(self.spec_entries().len() as u32) + entry_blobs(self.spec_entries())
    }

    /// Sorts the entries by ordinal; two entries with one ordinal are refused,
    /// naming the least such ordinal.
    pub fn try_new(entries: Vec<OutboxEntry>) -> (plan: Result<Self, PlanError>)
        ensures
            has_duplicate_key(entries@) ==> plan == Err::<Self, PlanError>(
                PlanError::DuplicateOutboxOrdinal(least_duplicated_key(entries@) as u32),
            ),
            !has_duplicate_key(entries@) ==> (plan matches Ok(p) && p.spec_entries() == canonical_order(
                entries@,
            ) && p.spec_entries().len() == entries@.len()),
    {
        let ghost declared = entries@;
        let sorted = sort_by_key(entries);
        proof {
            lemma_duplicate_key_multiset(sorted@, declared);
        }
        match first_adjacent_duplicate(&sorted) {
            Some(index) => {
                let ordinal = sorted[index].ordinal();
                proof {
                    lemma_least_duplicated_key(sorted@, ordinal as int);
                    lemma_least_duplicated_key_multiset(sorted@, declared);
                }
                return Err(PlanError::DuplicateOutboxOrdinal(ordinal));
            },
            None => {},
        }
        proof {
            lemma_canonical_order(declared, sorted@);
        }
        Ok(OutboxPlan { entries: sorted })
    }

    /// The plan without entries.
    pub fn empty() -> (plan: Self)
        ensures
            plan.spec_entries() == Seq::<OutboxEntry>::empty(),
    {
        OutboxPlan { entries: Vec::new() }
    }

    /// Returns the entries in canonical order.
    pub fn entries(&self) -> (entries: &[OutboxEntry])
        ensures
            entries@ == self.spec_entries(),
            strictly_sorted_by_key(entries@),
    {
        proof {
            use_type_invariant(self);
        }
        self.entries.as_slice()
    }

    /// The canonical encoding; fails when a length does not fit its prefix.
    pub fn canonical_bytes(&self) -> (bytes: Result<Vec<u8>, EncodeError>)
        ensures
            bytes is Ok <==> entries_encodable(self.spec_entries()),
            bytes matches Ok(b) ==> b@ == self.spec_encoding(),
    {
        let mut output: Vec<u8> = Vec::new();
        match put_length(&mut output, self.entries.len()) {
            Ok(()) => {},
            Err(error) => return Err(error),
        }
        let ghost entries = self.entries@;
        let mut index: usize = 0;
        while index < self.entries.len()
            invariant
                index <= entries.len(),
                entries == self.entries@,
                entries.len() <= u32::MAX,
                output@ == be32(entries.len() as u32) + entry_blobs(entries.subrange(0, index as int)),
                forall|i: int| 0 <= i < index ==> #[trigger] entries[i].spec_encodable(),
            decreases entries.len() - index,
        {
            let encoded = match self.entries[index].canonical_bytes() {
                Ok(encoded) => encoded,
                Err(error) => {
                    proof {
                        assert(!entries[index as int].spec_encodable());
                    }
                    return Err(error);
                },
            };
            match put_u32_blob(&mut output, encoded.as_slice()) {
                Ok(()) => {},
                Err(error) => {
                    proof {
                        assert(!entries[index as int].spec_encodable());
                    }
                    return Err(error);
                },
            }
            proof {
                assert(entries.subrange(0, index + 1).drop_last() =~= entries.subrange(0, index as int));
            }
            index = index + 1;
        }
        assert(entries.subrange(0, entries.len() as int) =~= entries);
        Ok(output)
    }
}

// ---------------------------------------------------------------------------
// Strict decoding.
// ---------------------------------------------------------------------------

/// Resource bounds for strict canonical plan decoding.
#[derive(Clone, Copy, Debug, PartialEq, Eq, Structural)]
pub struct PlanDecodeLimits {
    /// Most bytes in one complete encoded plan.
    pub max_input_bytes: u64,
    /// Most effects in one commit plan.
    pub max_effects: u32,
    /// Most entries in one outbox plan.
    pub max_outbox_entries: u32,
    /// Most value nodes across the complete plan.
    pub max_value_nodes: u64,
    /// Most byte-string and text payload bytes across the complete plan.
    pub max_value_payload_bytes: u64,
    /// Per-value decoding limits.
    pub value: DecodeLimits,
}

impl Default for PlanDecodeLimits {
    fn default() -> (limits: Self)
        ensures
            limits.max_input_bytes == DEFAULT_MAX_INPUT_BYTES,
            limits.max_effects == 4096,
            limits.max_outbox_entries == 4096,
            limits.max_value_nodes == 1000000,
            limits.max_value_payload_bytes == 67108864,
    {
        PlanDecodeLimits {
            max_input_bytes: DEFAULT_MAX_INPUT_BYTES,
            max_effects: 4096,
            max_outbox_entries: 4096,
            max_value_nodes: 1000000,
            max_value_payload_bytes: 67108864,
            value: DecodeLimits::default(),
        }
    }
}

/// Strict canonical plan decoding failure.
#[derive(Clone, Copy, Debug, PartialEq, Eq, Structural)]
pub enum PlanDecodeError {
    /// The complete input exceeds its byte limit.
    InputLimit {
        /// Configured limit.
        limit: u64,
        /// Actual input bytes.
        actual: u64,
    },
    /// A commit plan declares too many effects.
    EffectLimit {
        /// Configured limit.
        limit: u32,
        /// Declared effect count.
        actual: u32,
    },
    /// An outbox plan declares too many entries.
    OutboxEntryLimit {
        /// Configured limit.
        limit: u32,
        /// Declared entry count.
        actual: u32,
    },
    /// Decoded value nodes exceed their aggregate limit.
    ValueNodeLimit {
        /// Configured limit.
        limit: u64,
        /// Attempted aggregate nodes.
        actual: u64,
    },
    /// Decoded value payload bytes exceed their aggregate limit.
    ValuePayloadLimit {
        /// Configured limit.
        limit: u64,
        /// Attempted aggregate payload bytes.
        actual: u64,
    },
    /// A length or counter overflowed.
    LengthOverflow,
    /// The input ended inside a field.
    UnexpectedEnd {
        /// Offset where decoding stopped.
        offset: usize,
        /// Requested bytes.
        requested: usize,
    },
    /// Bytes remained after a complete item.
    TrailingBytes {
        /// First trailing byte offset within the current item.
        offset: usize,
    },
    /// A nested value failed strict decoding.
    Value(DecodeError),
    /// The reconstructed plan failed its invariants.
    Plan(PlanError),
    /// Canonical re-encoding failed.
    Encode(EncodeError),
    /// The reconstructed canonical bytes differ from the input.
    NonCanonical,
}

impl PlanDecodeError {
    /// A short description of the failure.
    pub fn message(&self) -> (text: &'static str)
        ensures
            text == (match *self {
                PlanDecodeError::InputLimit { .. } => "plan input exceeds its byte limit",
                PlanDecodeError::EffectLimit { .. } => "plan effects exceed their limit",
                PlanDecodeError::OutboxEntryLimit { .. } => "outbox entries exceed their limit",
                PlanDecodeError::ValueNodeLimit { .. } => "decoded plan value nodes exceed their limit",
                PlanDecodeError::ValuePayloadLimit { .. } => "decoded plan value payload bytes exceed their limit",
                PlanDecodeError::LengthOverflow => "plan decode length overflow",
                PlanDecodeError::UnexpectedEnd { .. } => "plan input ended early",
                PlanDecodeError::TrailingBytes { .. } => "trailing plan bytes",
                PlanDecodeError::Value(_) => "nested plan value is not canonical",
                PlanDecodeError::Plan(_) => "decoded plan is invalid",
                PlanDecodeError::Encode(_) => "plan re-encoding failed",
                PlanDecodeError::NonCanonical => "noncanonical plan encoding",
            }),
    {
        match self {
            PlanDecodeError::InputLimit { .. } => "plan input exceeds its byte limit",
            PlanDecodeError::EffectLimit { .. } => "plan effects exceed their limit",
            PlanDecodeError::OutboxEntryLimit { .. } => "outbox entries exceed their limit",
            PlanDecodeError::ValueNodeLimit { .. } => "decoded plan value nodes exceed their limit",
            PlanDecodeError::ValuePayloadLimit { .. } => "decoded plan value payload bytes exceed their limit",
            PlanDecodeError::LengthOverflow => "plan decode length overflow",
            PlanDecodeError::UnexpectedEnd { .. } => "plan input ended early",
            PlanDecodeError::TrailingBytes { .. } => "trailing plan bytes",
            PlanDecodeError::Value(_) => "nested plan value is not canonical",
            PlanDecodeError::Plan(_) => "decoded plan is invalid",
            PlanDecodeError::Encode(_) => "plan re-encoding failed",
            PlanDecodeError::NonCanonical => "noncanonical plan encoding",
        }
    }
}

fn plan_wire_error(error: WireError) -> PlanDecodeError {
    match error {
        WireError::LengthOverflow => PlanDecodeError::LengthOverflow,
        WireError::UnexpectedEnd { offset, requested } => PlanDecodeError::UnexpectedEnd { offset, requested },
    }
}

/// Aggregate value counts of one plan decoding.
struct PlanDecodeState {
    value_nodes: u64,
    value_payload_bytes: u64,
}

fn enforce_plan_input_limit(bytes: &[u8], limits: &PlanDecodeLimits) -> (checked: Result<(), PlanDecodeError>)
    ensures
        checked is Ok <==> bytes@.len() <= limits.max_input_bytes,
        checked is Err ==> checked == Err::<(), PlanDecodeError>(
            PlanDecodeError::InputLimit { limit: limits.max_input_bytes, actual: bytes@.len() as u64 },
        ),
{
    let actual = bytes.len() as u64;
    if actual > limits.max_input_bytes {
        return Err(PlanDecodeError::InputLimit { limit: limits.max_input_bytes, actual });
    }
    Ok(())
}

fn decode_plan_value(bytes: &[u8], limits: &PlanDecodeLimits, state: &mut PlanDecodeState) -> (decoded: Result<
    Value,
    PlanDecodeError,
>)
    ensures
        decoded matches Ok(v) ==> encoding(v@) == bytes@,
        decoded matches Ok(v) ==> final(state).value_nodes == old(state).value_nodes + node_count(v@)
            && final(state).value_payload_bytes == old(state).value_payload_bytes + payload_size(v@),
        forall|v: ValueModel| #[trigger] value_admitted(v, bytes@, limits.value) ==> ((old(state).value_nodes
            + node_count(v) <= limits.max_value_nodes && old(state).value_payload_bytes + payload_size(v)
            <= limits.max_value_payload_bytes) <==> (decoded matches Ok(w) && w@ == v)),
{
    let (value, metrics) = match decode_value_with_metrics(bytes, limits.value) {
        Ok(decoded) => decoded,
        Err(error) => return Err(PlanDecodeError::Value(error)),
    };
    if metrics.nodes > u64::MAX - state.value_nodes {
        return Err(PlanDecodeError::LengthOverflow);
    }
    state.value_nodes = state.value_nodes + metrics.nodes;
    if state.value_nodes > limits.max_value_nodes {
        return Err(PlanDecodeError::ValueNodeLimit { limit: limits.max_value_nodes, actual: state.value_nodes });
    }
    if metrics.payload_bytes > u64::MAX - state.value_payload_bytes {
        return Err(PlanDecodeError::LengthOverflow);
    }
    state.value_payload_bytes = state.value_payload_bytes + metrics.payload_bytes;
    if state.value_payload_bytes > limits.max_value_payload_bytes {
        return Err(
            PlanDecodeError::ValuePayloadLimit {
                limit: limits.max_value_payload_bytes,
                actual: state.value_payload_bytes,
            },
        );
    }
    Ok(value)
}

/// The bytes hold an effect header followed by the blob of `v`'s encoding.
pub open spec fn effect_payload_fits(bytes: Seq<u8>, v: ValueModel) -> bool {
    &&& bytes.len() >= 72
    &&& encoding(v).len() <= u32::MAX
    &&& bytes.subrange(72, bytes.len() as int) == blob(encoding(v))
}

/// The bytes hold an outbox entry header followed by the blobs of `d`'s and
/// `v`'s encodings.
pub open spec fn entry_values_fit(bytes: Seq<u8>, d: ValueModel, v: ValueModel) -> bool {
    &&& bytes.len() >= 8
    &&& encoding(d).len() <= u32::MAX
    &&& encoding(v).len() <= u32::MAX
    &&& bytes.subrange(8, bytes.len() as int) == blob(encoding(d)) + blob(encoding(v))
}

fn decode_effect(bytes: &[u8], limits: &PlanDecodeLimits, state: &mut PlanDecodeState) -> (decoded: Result<
    Effect,
    PlanDecodeError,
>)
    ensures
        decoded matches Ok(effect) ==> effect.spec_encoding() == bytes@,
        decoded matches Ok(effect) ==> final(state).value_nodes == old(state).value_nodes + node_count(
            effect.spec_payload(),
        ) && final(state).value_payload_bytes == old(state).value_payload_bytes + payload_size(
            effect.spec_payload(),
        ),
        forall|v: ValueModel| #[trigger] effect_payload_fits(bytes@, v) && value_admitted(v, encoding(v), limits.value)
            ==> ((old(state).value_nodes + node_count(v) <= limits.max_value_nodes && old(state).value_payload_bytes
            + payload_size(v) <= limits.max_value_payload_bytes) <==> (decoded matches Ok(effect)
            && effect.spec_payload() == v)),
{
    proof {
        assert forall|v: ValueModel| #[trigger] effect_payload_fits(bytes@, v) implies bytes@.len() >= 76
            && blob_length(bytes@, 72) == encoding(v).len() && bytes@.len() == 76 + encoding(v).len()
            && bytes@.subrange(76, bytes@.len() as int) == encoding(v) by {
            assert(bytes@.subrange(72, bytes@.len() as int).len() == blob(encoding(v)).len());
            lemma_blob_fits(bytes@, 72, encoding(v));
        }
    }
    let total: usize = bytes.len();
    let (ordinal, p) = match read_u32(bytes, 0) {
        Ok(read) => read,
        Err(error) => return Err(plan_wire_error(error)),
    };
    let (operation, q) = match read_u32(bytes, p) {
        Ok(read) => read,
        Err(error) => return Err(plan_wire_error(error)),
    };
    let (authority, r) = match read_hash(bytes, q) {
        Ok(read) => read,
        Err(error) => return Err(plan_wire_error(error)),
    };
    let (subject, t) = match read_hash(bytes, r) {
        Ok(read) => read,
        Err(error) => return Err(plan_wire_error(error)),
    };
    let (start, end) = match read_blob(bytes, t) {
        Ok(read) => read,
        Err(error) => return Err(plan_wire_error(error)),
    };
    let payload = match decode_plan_value(vstd::slice::slice_subrange(bytes, start, end), limits, state) {
        Ok(value) => value,
        Err(error) => return Err(error),
    };
    if end != total {
        return Err(PlanDecodeError::TrailingBytes { offset: end });
    }
    let effect = Effect::new(ordinal, operation, authority, subject, payload);
    assert(bytes@ =~= bytes@.subrange(0, p as int) + bytes@.subrange(p as int, q as int) + bytes@.subrange(
        q as int,
        r as int,
    ) + bytes@.subrange(r as int, t as int) + bytes@.subrange(t as int, end as int));
    assert(bytes@.subrange(start as int, end as int) == encoding(effect.spec_payload()));
    assert(effect.spec_encoding() =~= bytes@);
    Ok(effect)
}

#[verifier::rlimit(40)]
fn decode_outbox_entry(bytes: &[u8], limits: &PlanDecodeLimits, state: &mut PlanDecodeState) -> (decoded: Result<
    OutboxEntry,
    PlanDecodeError,
>)
    ensures
        decoded matches Ok(entry) ==> entry.spec_encoding() == bytes@,
        decoded matches Ok(entry) ==> final(state).value_nodes == old(state).value_nodes + node_count(
            entry.spec_destination(),
        ) + node_count(entry.spec_payload()) && final(state).value_payload_bytes == old(state).value_payload_bytes
            + payload_size(entry.spec_destination()) + payload_size(entry.spec_payload()),
        forall|d: ValueModel, v: ValueModel|
            #![trigger entry_values_fit(bytes@, d, v)]
            entry_values_fit(bytes@, d, v) && value_admitted(d, encoding(d), limits.value) && value_admitted(
                v,
                encoding(v),
                limits.value,
            ) ==> ((old(state).value_nodes + node_count(d) + node_count(v) <= limits.max_value_nodes
                && old(state).value_payload_bytes + payload_size(d) + payload_size(v)
                <= limits.max_value_payload_bytes) <==> (decoded matches Ok(entry) && entry.spec_destination() == d
                && entry.spec_payload() == v)),
{
    proof {
        assert forall|d: ValueModel, v: ValueModel| #[trigger] entry_values_fit(bytes@, d, v) implies bytes@.len()
            >= 12 && blob_length(bytes@, 8) == encoding(d).len() && bytes@.subrange(12, 12 + encoding(d).len() as int)
            == encoding(d) && blob_length(bytes@, 12 + encoding(d).len() as int) == encoding(v).len() && bytes@.len() == 16
            + encoding(d).len() + encoding(v).len() && bytes@.subrange(16 + encoding(d).len() as int, bytes@.len() as int)
            == encoding(v) by {
            let tail = bytes@.subrange(8, bytes@.len() as int);
            let n = encoding(d).len() as int;
            assert(tail.len() == blob(encoding(d)).len() + blob(encoding(v)).len());
            assert(bytes@.subrange(8, 12 + n) =~= tail.subrange(0, 4 + n));
            assert((blob(encoding(d)) + blob(encoding(v))).subrange(0, 4 + n) =~= blob(encoding(d)));
            lemma_blob_fits(bytes@, 8, encoding(d));
            assert(bytes@.subrange(12 + n, bytes@.len() as int) =~= tail.subrange(4 + n, tail.len() as int));
            assert((blob(encoding(d)) + blob(encoding(v))).subrange(4 + n, tail.len() as int) =~= blob(
                encoding(v),
            ));
            lemma_blob_fits(bytes@, 12 + n, encoding(v));
        }
    }
    let total: usize = bytes.len();
    let (ordinal, p) = match read_u32(bytes, 0) {
        Ok(read) => read,
        Err(error) => return Err(plan_wire_error(error)),
    };
    let (channel, q) = match read_u32(bytes, p) {
        Ok(read) => read,
        Err(error) => return Err(plan_wire_error(error)),
    };
    let (destination_start, destination_end) = match read_blob(bytes, q) {
        Ok(read) => read,
        Err(error) => return Err(plan_wire_error(error)),
    };
    let destination = match decode_plan_value(
        vstd::slice::slice_subrange(bytes, destination_start, destination_end),
        limits,
        state,
    ) {
        Ok(value) => value,
        Err(error) => return Err(error),
    };
    let (payload_start, payload_end) = match read_blob(bytes, destination_end) {
        Ok(read) => read,
        Err(error) => return Err(plan_wire_error(error)),
    };
    let payload = match decode_plan_value(
        vstd::slice::slice_subrange(bytes, payload_start, payload_end),
        limits,
        state,
    ) {
        Ok(value) => value,
        Err(error) => return Err(error),
    };
    if payload_end != total {
        return Err(PlanDecodeError::TrailingBytes { offset: payload_end });
    }
    let entry = OutboxEntry::new(ordinal, channel, destination, payload);
    assert(bytes@ =~= bytes@.subrange(0, p as int) + bytes@.subrange(p as int, q as int) + bytes@.subrange(
        q as int,
        destination_end as int,
    ) + bytes@.subrange(destination_end as int, payload_end as int));
    assert(entry.spec_encoding() =~= bytes@);
    Ok(entry)
}

/// Value nodes of the payloads of the first `n` effects.
pub open spec fn plan_value_nodes(effects: Seq<Effect>, n: nat) -> int
    decreases n,
{
    if n == 0 {
        0
    } else {
        plan_value_nodes(effects, (n - 1) as nat) + node_count(effects[n - 1].spec_payload())
    }
}

/// Value payload bytes of the payloads of the first `n` effects.
pub open spec fn plan_value_payload(effects: Seq<Effect>, n: nat) -> int
    decreases n,
{
    if n == 0 {
        0
    } else {
        plan_value_payload(effects, (n - 1) as nat) + payload_size(effects[n - 1].spec_payload())
    }
}

/// `bytes` are the canonical encoding of a commit plan of `effects` within
/// every decoding limit.
pub open spec fn plan_fits(bytes: Seq<u8>, effects: Seq<Effect>, limits: PlanDecodeLimits) -> bool {
    &&& be32(effects.len() as u32) + effect_blobs(effects) == bytes
    &&& bytes.len() <= limits.max_input_bytes
    &&& effects.len() <= limits.max_effects
    &&& strictly_sorted_by_key(effects)
    &&& effects_encodable(effects)
    &&& forall|i: int|
        0 <= i < effects.len() ==> value_admitted(
            #[trigger] effects[i].spec_payload(),
            encoding(effects[i].spec_payload()),
            limits.value,
        )
    &&& plan_value_nodes(effects, effects.len()) <= limits.max_value_nodes
    &&& plan_value_payload(effects, effects.len()) <= limits.max_value_payload_bytes
}

proof fn lemma_plan_counts_grow(effects: Seq<Effect>, i: nat, j: nat)
    requires
        i <= j,
    ensures
        plan_value_nodes(effects, i) <= plan_value_nodes(effects, j),
        plan_value_payload(effects, i) <= plan_value_payload(effects, j),
    decreases j,
{
    if i < j {
        lemma_plan_counts_grow(effects, i, (j - 1) as nat);
    }
}

/// The blobs of the first `j` effects are a prefix of the blobs of all.
proof fn lemma_effect_blobs_prefix(effects: Seq<Effect>, j: int)
    requires
        0 <= j <= effects.len(),
    ensures
        effect_blobs(effects.take(j)).len() <= effect_blobs(effects).len(),
        effect_blobs(effects).subrange(0, effect_blobs(effects.take(j)).len() as int) == effect_blobs(effects.take(j)),
    decreases effects.len(),
{
    if j == effects.len() {
        assert(effects.take(j) =~= effects);
    } else {
        let rest = effects.drop_last();
        assert(rest.take(j) =~= effects.take(j));
        lemma_effect_blobs_prefix(rest, j);
        assert(effect_blobs(effects).subrange(0, effect_blobs(effects.take(j)).len() as int) =~= effect_blobs(
            rest,
        ).subrange(0, effect_blobs(effects.take(j)).len() as int));
    }
}

/// Effects with equal encodings give equal blobs.
proof fn lemma_effect_blobs_same(a: Seq<Effect>, b: Seq<Effect>)
    requires
        a.len() == b.len(),
        forall|i: int| 0 <= i < a.len() ==> #[trigger] a[i].spec_encoding() == b[i].spec_encoding(),
    ensures
        effect_blobs(a) == effect_blobs(b),
    decreases a.len(),
{
    if a.len() > 0 {
        lemma_effect_blobs_same(a.drop_last(), b.drop_last());
        assert(a.last().spec_encoding() == b.last().spec_encoding());
    }
}

/// The blob of effect `i` stands right after the blobs of the effects before it.
proof fn lemma_effect_at(bytes: Seq<u8>, effects: Seq<Effect>, i: int)
    requires
        bytes == be32(effects.len() as u32) + effect_blobs(effects),
        0 <= i < effects.len(),
    ensures
        effect_blobs(effects.take(i + 1)) == effect_blobs(effects.take(i)) + blob(effects[i].spec_encoding()),
        4 + effect_blobs(effects.take(i + 1)).len() <= bytes.len(),
        bytes.subrange(
            4 + effect_blobs(effects.take(i)).len() as int,
            4 + effect_blobs(effects.take(i + 1)).len() as int,
        ) == blob(effects[i].spec_encoding()),
{
    assert(effects.take(i + 1).drop_last() =~= effects.take(i));
    lemma_effect_blobs_prefix(effects, i + 1);
    let a = effect_blobs(effects.take(i)).len() as int;
    let b = effect_blobs(effects.take(i + 1)).len() as int;
    assert(bytes.subrange(4 + a, 4 + b) =~= effect_blobs(effects).subrange(0, b).subrange(a, b));
    assert(effect_blobs(effects.take(i + 1)).subrange(a, b) =~= blob(effects[i].spec_encoding()));
}

/// An effect's encoding holds its ordinal first and its payload blob last.
proof fn lemma_effect_shape(e: Effect)
    ensures
        e.spec_encoding().len() >= 72,
        e.spec_encoding().subrange(0, 4) == be32(e.spec_ordinal()),
        e.spec_encoding().subrange(72, e.spec_encoding().len() as int) == blob(encoding(e.spec_payload())),
{
    e.spec_authority().lemma_len();
    e.spec_subject().lemma_len();
    assert(e.spec_encoding().subrange(0, 4) =~= be32(e.spec_ordinal()));
    assert(e.spec_encoding().subrange(72, e.spec_encoding().len() as int) =~= blob(encoding(e.spec_payload())));
}

/// Strictly decodes one canonical commit plan under explicit bounds.
///
/// Every payload passes the strict value decoder, the effects are rebuilt
/// through `CommitPlan::try_new`, and the rebuilt plan's canonical bytes must
/// equal the complete input: duplicate ordinals, another effect order,
/// malformed nested values, truncation and trailing bytes all fail.
#[verifier::rlimit(60)]
#[verifier::spinoff_prover]
pub fn decode_commit_plan(bytes: &[u8], limits: PlanDecodeLimits) -> (decoded: Result<CommitPlan, PlanDecodeError>)
    ensures
        bytes@.len() > limits.max_input_bytes ==> decoded == Err::<CommitPlan, PlanDecodeError>(
            PlanDecodeError::InputLimit { limit: limits.max_input_bytes, actual: bytes@.len() as u64 },
        ),
        decoded matches Ok(plan) ==> plan.spec_encoding() == bytes@ && effects_encodable(plan.spec_effects())
            && plan.spec_effects().len() <= limits.max_effects,
        (exists|effects: Seq<Effect>| #[trigger] plan_fits(bytes@, effects, limits)) ==> decoded is Ok,
{
    let ghost fits = exists|effects: Seq<Effect>| #[trigger] plan_fits(bytes@, effects, limits);
    let ghost target = choose|effects: Seq<Effect>| #[trigger] plan_fits(bytes@, effects, limits);
    let total: usize = bytes.len();
    match enforce_plan_input_limit(bytes, &limits) {
        Ok(()) => {},
        Err(error) => return Err(error),
    }
    let (count, first) = match read_u32(bytes, 0) {
        Ok(read) => read,
        Err(error) => return Err(plan_wire_error(error)),
    };
    proof {
        if fits {
            assert(bytes@.subrange(0, 4) =~= be32(target.len() as u32));
            crate::encode::lemma_be32_injective(count, target.len() as u32);
        }
    }
    if count > limits.max_effects {
        return Err(PlanDecodeError::EffectLimit { limit: limits.max_effects, actual: count });
    }
    let mut state = PlanDecodeState { value_nodes: 0, value_payload_bytes: 0 };
    let mut effects: Vec<Effect> = Vec::new();
    let mut cur = first;
    let mut index: u32 = 0;
    while index < count
        invariant
            cur <= bytes@.len(),
            total == bytes@.len(),
            index <= count,
            effects@.len() == index,
            bytes@.len() <= limits.max_input_bytes,
            fits == exists|effects: Seq<Effect>| #[trigger] plan_fits(bytes@, effects, limits),
            fits ==> plan_fits(bytes@, target, limits),
            fits ==> count == target.len(),
            fits ==> cur == 4 + effect_blobs(target.take(index as int)).len(),
            fits ==> state.value_nodes == plan_value_nodes(target, index as nat),
            fits ==> state.value_payload_bytes == plan_value_payload(target, index as nat),
            fits ==> forall|k: int|
                0 <= k < index ==> #[trigger] effects@[k].spec_encoding() == target[k].spec_encoding()
                    && effects@[k].spec_ordinal() == target[k].spec_ordinal(),
        decreases count - index,
    {
        let ghost t = target[index as int];
        proof {
            if fits {
                lemma_effect_at(bytes@, target, index as int);
                lemma_plan_counts_grow(target, (index + 1) as nat, target.len());
                assert(t.spec_encodable());
                lemma_blob_fits(bytes@, cur as int, t.spec_encoding());
                lemma_effect_shape(t);
                assert(value_admitted(t.spec_payload(), encoding(t.spec_payload()), limits.value));
            }
        }
        let (start, end) = match read_blob(bytes, cur) {
            Ok(read) => read,
            Err(error) => return Err(plan_wire_error(error)),
        };
        let ghost before = effects@;
        proof {
            if fits {
                assert(bytes@.subrange(start as int, end as int) == t.spec_encoding());
                assert(effect_payload_fits(t.spec_encoding(), t.spec_payload()));
            }
        }
        let effect = match decode_effect(vstd::slice::slice_subrange(bytes, start, end), &limits, &mut state) {
            Ok(effect) => effect,
            Err(error) => return Err(error),
        };
        proof {
            if fits {
                lemma_effect_shape(effect);
                crate::encode::lemma_be32_injective(effect.spec_ordinal(), t.spec_ordinal());
            }
        }
        effects.push(effect);
        proof {
            if fits {
                assert(target.take(index + 1).drop_last() =~= target.take(index as int));
                assert forall|k: int| 0 <= k < index + 1 implies #[trigger] effects@[k].spec_encoding()
                    == target[k].spec_encoding() && effects@[k].spec_ordinal() == target[k].spec_ordinal() by {
                    if k < index {
                        assert(effects@[k] == before[k]);
                    }
                }
            }
        }
        cur = end;
        index = index + 1;
    }
    proof {
        if fits {
            assert(target.take(target.len() as int) =~= target);
        }
    }
    if cur != total {
        return Err(PlanDecodeError::TrailingBytes { offset: cur });
    }
    let ghost declared = effects@;
    proof {
        if fits {
            assert forall|i: int, j: int| 0 <= i < j < declared.len() implies declared[i].spec_key()
                < declared[j].spec_key() by {
                assert(declared[i].spec_encoding() == target[i].spec_encoding());
                assert(declared[j].spec_encoding() == target[j].spec_encoding());
                assert(target[i].spec_key() < target[j].spec_key());
            }
            assert(strictly_sorted_by_key(declared));
            assert(!has_duplicate_key(declared)) by {
                if has_duplicate_key(declared) {
                    let (i, j) = choose|i: int, j: int|
                        0 <= i < declared.len() && 0 <= j < declared.len() && i != j && declared[i].spec_key()
                            == declared[j].spec_key();
                    if i < j {
                        assert(declared[i].spec_key() < declared[j].spec_key());
                    } else {
                        assert(declared[j].spec_key() < declared[i].spec_key());
                    }
                }
            }
            lemma_canonical_order(declared, declared);
            lemma_effect_blobs_same(declared, target);
            assert(effects_encodable(declared)) by {
                assert forall|i: int| 0 <= i < declared.len() implies #[trigger] declared[i].spec_encodable() by {
                    assert(target[i].spec_encodable());
                }
            }
        }
    }
    let plan = match CommitPlan::try_new(effects) {
        Ok(plan) => plan,
        Err(error) => return Err(PlanDecodeError::Plan(error)),
    };
    let encoded = match plan.canonical_bytes() {
        Ok(encoded) => encoded,
        Err(error) => return Err(PlanDecodeError::Encode(error)),
    };
    if !bytes_equal(encoded.as_slice(), bytes) {
        return Err(PlanDecodeError::NonCanonical);
    }
    Ok(plan)
}

/// Value nodes of the destinations and payloads of the first `n` entries.
pub open spec fn outbox_value_nodes(entries: Seq<OutboxEntry>, n: nat) -> int
    decreases n,
{
    if n == 0 {
        0
    } else {
        outbox_value_nodes(entries, (n - 1) as nat) + node_count(entries[n - 1].spec_destination()) + node_count(
            entries[n - 1].spec_payload(),
        )
    }
}

/// Value payload bytes of the destinations and payloads of the first `n`
/// entries.
pub open spec fn outbox_value_payload(entries: Seq<OutboxEntry>, n: nat) -> int
    decreases n,
{
    if n == 0 {
        0
    } else {
        outbox_value_payload(entries, (n - 1) as nat) + payload_size(entries[n - 1].spec_destination())
            + payload_size(entries[n - 1].spec_payload())
    }
}

/// `bytes` are the canonical encoding of an outbox plan of `entries` within
/// every decoding limit.
pub open spec fn outbox_fits(bytes: Seq<u8>, entries: Seq<OutboxEntry>, limits: PlanDecodeLimits) -> bool {
    &&& be32(entries.len() as u32) + entry_blobs(entries) == bytes
    &&& bytes.len() <= limits.max_input_bytes
    &&& entries.len() <= limits.max_outbox_entries
    &&& strictly_sorted_by_key(entries)
    &&& entries_encodable(entries)
    &&& forall|i: int|
        0 <= i < entries.len() ==> value_admitted(
            #[trigger] entries[i].spec_destination(),
            encoding(entries[i].spec_destination()),
            limits.value,
        ) && value_admitted(entries[i].spec_payload(), encoding(entries[i].spec_payload()), limits.value)
    &&& outbox_value_nodes(entries, entries.len()) <= limits.max_value_nodes
    &&& outbox_value_payload(entries, entries.len()) <= limits.max_value_payload_bytes
}

proof fn lemma_outbox_counts_grow(entries: Seq<OutboxEntry>, i: nat, j: nat)
    requires
        i <= j,
    ensures
        outbox_value_nodes(entries, i) <= outbox_value_nodes(entries, j),
        outbox_value_payload(entries, i) <= outbox_value_payload(entries, j),
    decreases j,
{
    if i < j {
        lemma_outbox_counts_grow(entries, i, (j - 1) as nat);
    }
}

/// The blobs of the first `j` entries are a prefix of the blobs of all.
proof fn lemma_entry_blobs_prefix(entries: Seq<OutboxEntry>, j: int)
    requires
        0 <= j <= entries.len(),
    ensures
        entry_blobs(entries.take(j)).len() <= entry_blobs(entries).len(),
        entry_blobs(entries).subrange(0, entry_blobs(entries.take(j)).len() as int) == entry_blobs(entries.take(j)),
    decreases entries.len(),
{
    if j == entries.len() {
        assert(entries.take(j) =~= entries);
    } else {
        let rest = entries.drop_last();
        assert(rest.take(j) =~= entries.take(j));
        lemma_entry_blobs_prefix(rest, j);
        assert(entry_blobs(entries).subrange(0, entry_blobs(entries.take(j)).len() as int) =~= entry_blobs(
            rest,
        ).subrange(0, entry_blobs(entries.take(j)).len() as int));
    }
}

/// Entries with equal encodings give equal blobs.
proof fn lemma_entry_blobs_same(a: Seq<OutboxEntry>, b: Seq<OutboxEntry>)
    requires
        a.len() == b.len(),
        forall|i: int| 0 <= i < a.len() ==> #[trigger] a[i].spec_encoding() == b[i].spec_encoding(),
    ensures
        entry_blobs(a) == entry_blobs(b),
    decreases a.len(),
{
    if a.len() > 0 {
        lemma_entry_blobs_same(a.drop_last(), b.drop_last());
        assert(a.last().spec_encoding() == b.last().spec_encoding());
    }
}

/// The blob of entry `i` stands right after the blobs of the entries before it.
proof fn lemma_entry_at(bytes: Seq<u8>, entries: Seq<OutboxEntry>, i: int)
    requires
        bytes == be32(entries.len() as u32) + entry_blobs(entries),
        0 <= i < entries.len(),
    ensures
        entry_blobs(entries.take(i + 1)) == entry_blobs(entries.take(i)) + blob(entries[i].spec_encoding()),
        4 + entry_blobs(entries.take(i + 1)).len() <= bytes.len(),
        bytes.subrange(
            4 + entry_blobs(entries.take(i)).len() as int,
            4 + entry_blobs(entries.take(i + 1)).len() as int,
        ) == blob(entries[i].spec_encoding()),
{
    assert(entries.take(i + 1).drop_last() =~= entries.take(i));
    lemma_entry_blobs_prefix(entries, i + 1);
    let a = entry_blobs(entries.take(i)).len() as int;
    let b = entry_blobs(entries.take(i + 1)).len() as int;
    assert(bytes.subrange(4 + a, 4 + b) =~= entry_blobs(entries).subrange(0, b).subrange(a, b));
    assert(entry_blobs(entries.take(i + 1)).subrange(a, b) =~= blob(entries[i].spec_encoding()));
}

/// An entry's encoding holds its ordinal first, then its channel and the
/// blobs of its destination and payload.
proof fn lemma_entry_shape(e: OutboxEntry)
    ensures
        e.spec_encoding().len() >= 8,
        e.spec_encoding().subrange(0, 4) == be32(e.spec_ordinal()),
        e.spec_encoding().subrange(8, e.spec_encoding().len() as int) == blob(encoding(e.spec_destination())) + blob(
            encoding(e.spec_payload()),
        ),
{
    assert(e.spec_encoding().subrange(0, 4) =~= be32(e.spec_ordinal()));
    assert(e.spec_encoding().subrange(8, e.spec_encoding().len() as int) =~= blob(encoding(e.spec_destination()))
        + blob(encoding(e.spec_payload())));
}

/// Strictly decodes one canonical outbox plan under explicit bounds.
///
/// Every destination and payload passes the strict value decoder, the
/// entries are rebuilt through `OutboxPlan::try_new`, and the rebuilt plan's
/// canonical bytes must equal the complete input.
#[verifier::rlimit(60)]
#[verifier::spinoff_prover]
pub fn decode_outbox_plan(bytes: &[u8], limits: PlanDecodeLimits) -> (decoded: Result<OutboxPlan, PlanDecodeError>)
    ensures
        bytes@.len() > limits.max_input_bytes ==> decoded == Err::<OutboxPlan, PlanDecodeError>(
            PlanDecodeError::InputLimit { limit: limits.max_input_bytes, actual: bytes@.len() as u64 },
        ),
        decoded matches Ok(plan) ==> plan.spec_encoding() == bytes@ && entries_encodable(plan.spec_entries())
            && plan.spec_entries().len() <= limits.max_outbox_entries,
        (exists|entries: Seq<OutboxEntry>| #[trigger] outbox_fits(bytes@, entries, limits)) ==> decoded is Ok,
{
    let ghost fits = exists|entries: Seq<OutboxEntry>| #[trigger] outbox_fits(bytes@, entries, limits);
    let ghost target = choose|entries: Seq<OutboxEntry>| #[trigger] outbox_fits(bytes@, entries, limits);
    let total: usize = bytes.len();
    match enforce_plan_input_limit(bytes, &limits) {
        Ok(()) => {},
        Err(error) => return Err(error),
    }
    let (count, first) = match read_u32(bytes, 0) {
        Ok(read) => read,
        Err(error) => return Err(plan_wire_error(error)),
    };
    proof {
        if fits {
            assert(bytes@.subrange(0, 4) =~= be32(target.len() as u32));
            crate::encode::lemma_be32_injective(count, target.len() as u32);
        }
    }
    if count > limits.max_outbox_entries {
        return Err(PlanDecodeError::OutboxEntryLimit { limit: limits.max_outbox_entries, actual: count });
    }
    let mut state = PlanDecodeState { value_nodes: 0, value_payload_bytes: 0 };
    let mut entries: Vec<OutboxEntry> = Vec::new();
    let mut cur = first;
    let mut index: u32 = 0;
    while index < count
        invariant
            cur <= bytes@.len(),
            total == bytes@.len(),
            index <= count,
            entries@.len() == index,
            bytes@.len() <= limits.max_input_bytes,
            fits == exists|entries: Seq<OutboxEntry>| #[trigger] outbox_fits(bytes@, entries, limits),
            fits ==> outbox_fits(bytes@, target, limits),
            fits ==> count == target.len(),
            fits ==> cur == 4 + entry_blobs(target.take(index as int)).len(),
            fits ==> state.value_nodes == outbox_value_nodes(target, index as nat),
            fits ==> state.value_payload_bytes == outbox_value_payload(target, index as nat),
            fits ==> forall|k: int|
                0 <= k < index ==> #[trigger] entries@[k].spec_encoding() == target[k].spec_encoding()
                    && entries@[k].spec_ordinal() == target[k].spec_ordinal(),
        decreases count - index,
    {
        let ghost t = target[index as int];
        proof {
            if fits {
                lemma_entry_at(bytes@, target, index as int);
                lemma_outbox_counts_grow(target, (index + 1) as nat, target.len());
                assert(t.spec_encodable());
                lemma_blob_fits(bytes@, cur as int, t.spec_encoding());
                lemma_entry_shape(t);
                assert(value_admitted(t.spec_destination(), encoding(t.spec_destination()), limits.value));
                assert(value_admitted(t.spec_payload(), encoding(t.spec_payload()), limits.value));
            }
        }
        let (start, end) = match read_blob(bytes, cur) {
            Ok(read) => read,
            Err(error) => return Err(plan_wire_error(error)),
        };
        let ghost before = entries@;
        proof {
            if fits {
                assert(bytes@.subrange(start as int, end as int) == t.spec_encoding());
                assert(entry_values_fit(t.spec_encoding(), t.spec_destination(), t.spec_payload()));
            }
        }
        let entry = match decode_outbox_entry(vstd::slice::slice_subrange(bytes, start, end), &limits, &mut state) {
            Ok(entry) => entry,
            Err(error) => return Err(error),
        };
        proof {
            if fits {
                lemma_entry_shape(entry);
                crate::encode::lemma_be32_injective(entry.spec_ordinal(), t.spec_ordinal());
            }
        }
        entries.push(entry);
        proof {
            if fits {
                assert(target.take(index + 1).drop_last() =~= target.take(index as int));
                assert forall|k: int| 0 <= k < index + 1 implies #[trigger] entries@[k].spec_encoding()
                    == target[k].spec_encoding() && entries@[k].spec_ordinal() == target[k].spec_ordinal() by {
                    if k < index {
                        assert(entries@[k] == before[k]);
                    }
                }
            }
        }
        cur = end;
        index = index + 1;
    }
    proof {
        if fits {
            assert(target.take(target.len() as int) =~= target);
        }
    }
    if cur != total {
        return Err(PlanDecodeError::TrailingBytes { offset: cur });
    }
    let ghost declared = entries@;
    proof {
        if fits {
            assert forall|i: int, j: int| 0 <= i < j < declared.len() implies declared[i].spec_key()
                < declared[j].spec_key() by {
                assert(declared[i].spec_encoding() == target[i].spec_encoding());
                assert(declared[j].spec_encoding() == target[j].spec_encoding());
                assert(target[i].spec_key() < target[j].spec_key());
            }
            assert(strictly_sorted_by_key(declared));
            assert(!has_duplicate_key(declared)) by {
                if has_duplicate_key(declared) {
                    let (i, j) = choose|i: int, j: int|
                        0 <= i < declared.len() && 0 <= j < declared.len() && i != j && declared[i].spec_key()
                            == declared[j].spec_key();
                    if i < j {
                        assert(declared[i].spec_key() < declared[j].spec_key());
                    } else {
                        assert(declared[j].spec_key() < declared[i].spec_key());
                    }
                }
            }
            lemma_canonical_order(declared, declared);
            lemma_entry_blobs_same(declared, target);
            assert(entries_encodable(declared)) by {
                assert forall|i: int| 0 <= i < declared.len() implies #[trigger] declared[i].spec_encodable() by {
                    assert(target[i].spec_encodable());
                    assert(declared[i].spec_encoding() == target[i].spec_encoding());
                    lemma_entry_shape(declared[i]);
                    lemma_entry_shape(target[i]);
                }
            }
        }
    }
    let plan = match OutboxPlan::try_new(entries) {
        Ok(plan) => plan,
        Err(error) => return Err(PlanDecodeError::Plan(error)),
    };
    let encoded = match plan.canonical_bytes() {
        Ok(encoded) => encoded,
        Err(error) => return Err(PlanDecodeError::Encode(error)),
    };
    if !bytes_equal(encoded.as_slice(), bytes) {
        return Err(PlanDecodeError::NonCanonical);
    }
    Ok(plan)
}

} // verus!

//! Secret containers: owned bytes that are erased on reset and on rejection,
//! compared and selected through constant-time primitives, and exposed only
//! under an explicit permit that yields an audit event.
//!
//! Containers cannot be formatted or cloned. These operations reduce
//! accidental exposure; they do not prove freedom from physical side channels.

use vstd::prelude::*;

use subtle::{Choice, ConditionallySelectable, ConstantTimeEq};
use zeroize::Zeroize;

use crate::commit::{commitment_preimage, frame_commitment, CommitmentHasher, Hash32};
use crate::encode::{be16, be32, put_bytes, put_u16, put_u32, EncodeError};

verus! {

/// Maximum bytes accepted by a secret container.
pub const MAX_SECRET_BYTES: usize = 1048576;

/// Format version of exposure permits and exposure events.
pub const SECRET_AUDIT_FORMAT_VERSION: u16 = 1;

// ---------------------------------------------------------------------------
// Calls into `subtle` and `zeroize`.
// ---------------------------------------------------------------------------

/// Calls `<[u8] as subtle::ConstantTimeEq>::ct_eq` and unwraps the resulting
/// `Choice`. The crate's source returns `Choice::from(0)` when the lengths
/// differ and otherwise the conjunction of per-byte `u8::ct_eq`, each of which
/// is 1 exactly for equal bytes; so the bit is 1 exactly for equal slices.
#[verifier::external_body]
fn ct_eq_bytes(left: &[u8], right: &[u8]) -> (bit: u8)
    ensures
        bit == (if left@ == right@ { 1u8 } else { 0u8 }),
{
    left.ct_eq(right).unwrap_u8()
}

/// Calls `<u8 as subtle::ConditionallySelectable>::conditional_select` with
/// `Choice::from(bit)`. The crate's source masks with `-(bit as i8) as u8`
/// and returns `left ^ (mask & (left ^ right))`: `right` for bit 1 and `left`
/// for bit 0. `Choice::from` asserts in debug builds that the bit is 0 or 1.
#[verifier::external_body]
fn select_byte(left: u8, right: u8, bit: u8) -> (byte: u8)
    requires
        bit <= 1,
    ensures
        byte == (if bit == 1 { right } else { left }),
{
    u8::conditional_select(&left, &right, Choice::from(bit))
}

/// Calls `<u8 as subtle::ConditionallySelectable>::conditional_assign` with
/// `Choice::from(bit)`: the byte becomes `replacement` for bit 1 and stays as
/// it was for bit 0 (the source computes `*self ^= mask & (*self ^ *other)`).
#[verifier::external_body]
fn assign_byte(current: &mut u8, replacement: u8, bit: u8)
    requires
        bit <= 1,
    ensures
        *final(current) == (if bit == 1 { replacement } else { *old(current) }),
{
    current.conditional_assign(&replacement, Choice::from(bit))
}

/// Calls `<[u8; N] as zeroize::Zeroize>::zeroize`, which writes zero to every
/// element through volatile writes; nothing in that path panics.
#[verifier::external_body]
fn zeroize_array<const N: usize>(bytes: &mut [u8; N])
    ensures
        final(bytes)@ == Seq::new(N as nat, |i: int| 0u8),
    opens_invariants none
    no_unwind
{
    bytes.zeroize()
}

/// Calls `<[u8] as zeroize::Zeroize>::zeroize`, which writes zero over the
/// whole slice; the length is unchanged.
#[verifier::external_body]
fn zeroize_slice(bytes: &mut [u8])
    ensures
        final(bytes)@ == Seq::new(old(bytes)@.len(), |i: int| 0u8),
{
    bytes.zeroize()
}

/// Calls `<Vec<u8> as zeroize::Zeroize>::zeroize`, which zeroes the spare
/// capacity and the elements and then clears the vector to length zero. Its
/// only checks (a byte count that fits `isize`, computed with a multiplier of
/// one) hold for every allocated vector, so it does not panic.
#[verifier::external_body]
fn zeroize_vec(bytes: &mut Vec<u8>)
    ensures
        final(bytes)@ == Seq::<u8>::empty(),
    opens_invariants none
    no_unwind
{
    bytes.zeroize()
}

// ---------------------------------------------------------------------------
// Errors.
// ---------------------------------------------------------------------------

/// Secret-container construction or use failure.
#[derive(Clone, Debug, PartialEq, Eq)]
pub enum SecretError {
    /// A hardened operation was requested in a build with debug assertions.
    DebugAssertionsEnabled,
    /// A secret length was zero, unrepresentable, or over the bound.
    InvalidLength,
    /// A required public commitment was zero.
    ZeroHash,
    /// A permit authorized fewer bytes than the exposure needs.
    ExposureTooLarge {
        /// Requested bytes.
        attempted: u32,
        /// Authorized bytes.
        maximum: u32,
    },
    /// Constant-time assignment between buffers of different public lengths.
    LengthMismatch {
        /// Left length.
        left: usize,
        /// Right length.
        right: usize,
    },
    /// A permit or an assignment targeted another container identity.
    SecretIdentityMismatch {
        /// Identity the receiving container or permit requires.
        expected: Hash32,
        /// Identity that was supplied.
        actual: Hash32,
    },
    /// Canonical permit or event encoding failed.
    Encode(EncodeError),
}

impl SecretError {
    /// A short description of the failure.
    pub fn message(&self) -> (text: &'static str)
        ensures
            text == (match *self {
                SecretError::DebugAssertionsEnabled => "hardened secret operation requires debug assertions disabled",
                SecretError::InvalidLength => "secret length is invalid",
                SecretError::ZeroHash => "secret audit commitment is zero",
                SecretError::ExposureTooLarge { .. } => "secret exposure exceeds permit maximum",
                SecretError::LengthMismatch { .. } => "secret lengths differ",
                SecretError::SecretIdentityMismatch { .. } => "secret container identities differ",
                SecretError::Encode(_) => "secret audit encoding failed",
            }),
    {
        match self {
            SecretError::DebugAssertionsEnabled => "hardened secret operation requires debug assertions disabled",
            SecretError::InvalidLength => "secret length is invalid",
            SecretError::ZeroHash => "secret audit commitment is zero",
            SecretError::ExposureTooLarge { .. } => "secret exposure exceeds permit maximum",
            SecretError::LengthMismatch { .. } => "secret lengths differ",
            SecretError::SecretIdentityMismatch { .. } => "secret container identities differ",
            SecretError::Encode(_) => "secret audit encoding failed",
        }
    }
}

// ---------------------------------------------------------------------------
// Hardened execution.
// ---------------------------------------------------------------------------

/// Token that the running build has debug assertions disabled.
///
/// `subtle` documents that its debug-only checks may branch on secret data, so
/// the constant-time and exposure operations ask for this token. The caller
/// passes its own build's debug setting, `cfg!(debug_assertions)`: the token
/// is only as sound as that argument, and passing `false` from a debug build
/// defeats the check.
pub struct HardenedExecution {
    private: (),
}

impl HardenedExecution {
    /// Grants the token exactly when debug assertions are disabled.
    pub fn require_release(debug_assertions: bool) -> (token: Result<Self, SecretError>)
        ensures
            debug_assertions <==> token == Err::<Self, SecretError>(SecretError::DebugAssertionsEnabled),
            !debug_assertions <==> token is Ok,
    {
        if debug_assertions {
            Err(SecretError::DebugAssertionsEnabled)
        } else {
            Ok(HardenedExecution { private: () })
        }
    }
}

// ---------------------------------------------------------------------------
// Exposure permits and events.
// ---------------------------------------------------------------------------

/// Magic prefix of an encoded permit.
pub open spec fn permit_magic() -> Seq<u8> {
    seq![90u8, 70u8, 67u8, 73u8, 83u8, 45u8, 83u8, 69u8, 67u8, 82u8, 69u8, 84u8, 45u8, 80u8, 69u8, 82u8, 77u8, 73u8, 84u8, 0u8]
}

/// Magic prefix of an encoded exposure event.
pub open spec fn event_magic() -> Seq<u8> {
    seq![90u8, 70u8, 67u8, 73u8, 83u8, 45u8, 83u8, 69u8, 67u8, 82u8, 69u8, 84u8, 45u8, 69u8, 88u8, 80u8, 79u8, 83u8, 85u8, 82u8, 69u8, 0u8]
}

/// Commitment domain label of permits.
pub open spec fn permit_domain() -> Seq<u8> {
    seq![122u8, 101u8, 110u8, 111u8, 45u8, 102u8, 99u8, 105u8, 115u8, 47u8, 115u8, 101u8, 99u8, 114u8, 101u8, 116u8, 45u8, 101u8, 120u8, 112u8, 111u8, 115u8, 117u8, 114u8, 101u8, 45u8, 112u8, 101u8, 114u8, 109u8, 105u8, 116u8]
}

/// Explicit authority and purpose for exposing one secret's bytes.
#[derive(PartialEq, Eq)]
pub struct ExposurePermit {
    secret_id: Hash32,
    authority_hash: Hash32,
    purpose_hash: Hash32,
    maximum_bytes: u32,
}

impl ExposurePermit {
    /// Every commitment is nonzero and some bytes are authorized.
    #[verifier::type_invariant]
    spec fn well_formed(self) -> bool {
        &&& !self.secret_id.spec_is_zero()
        &&& !self.authority_hash.spec_is_zero()
        &&& !self.purpose_hash.spec_is_zero()
        &&& self.maximum_bytes > 0
    }

    /// The authorized secret's identity.
    pub closed spec fn spec_secret_id(self) -> Hash32 {
        self.secret_id
    }

    /// The authority commitment.
    pub closed spec fn spec_authority_hash(self) -> Hash32 {
        self.authority_hash
    }

    /// The purpose commitment.
    pub closed spec fn spec_purpose_hash(self) -> Hash32 {
        self.purpose_hash
    }

    /// The maximum bytes of one exposure.
    pub closed spec fn spec_maximum_bytes(self) -> u32 {
        self.maximum_bytes
    }

    /// The canonical encoding: magic, format version, the three commitments
    /// and the big-endian maximum.
    pub open spec fn spec_encoding(self) -> Seq<u8> {
        permit_magic() + be16(1) + self.spec_secret_id().spec_bytes() + self.spec_authority_hash().spec_bytes()
            + self.spec_purpose_hash().spec_bytes() + be32(self.spec_maximum_bytes())
    }

    /// Creates a permit; every commitment must be nonzero and the maximum positive.
    pub fn try_new(secret_id: Hash32, authority_hash: Hash32, purpose_hash: Hash32, maximum_bytes: u32) -> (permit:
        Result<Self, SecretError>)
        ensures
            (secret_id.spec_is_zero() || authority_hash.spec_is_zero() || purpose_hash.spec_is_zero()) ==> permit
                == Err::<Self, SecretError>(SecretError::ZeroHash),
            !(secret_id.spec_is_zero() || authority_hash.spec_is_zero() || purpose_hash.spec_is_zero())
                && maximum_bytes == 0 ==> permit == Err::<Self, SecretError>(SecretError::InvalidLength),
            !(secret_id.spec_is_zero() || authority_hash.spec_is_zero() || purpose_hash.spec_is_zero())
                && maximum_bytes > 0 ==> (permit matches Ok(p) && p.spec_secret_id() == secret_id
                && p.spec_authority_hash() == authority_hash && p.spec_purpose_hash() == purpose_hash
                && p.spec_maximum_bytes() == maximum_bytes),
    {
        if secret_id.is_zero() || authority_hash.is_zero() || purpose_hash.is_zero() {
            return Err(SecretError::ZeroHash);
        }
        if maximum_bytes == 0 {
            return Err(SecretError::InvalidLength);
        }
        Ok(ExposurePermit { secret_id, authority_hash, purpose_hash, maximum_bytes })
    }

    /// Returns the authorized secret's identity.
    pub fn secret_id(&self) -> (id: Hash32)
        ensures
            id == self.spec_secret_id(),
    {
        self.secret_id
    }

    /// Returns the authority commitment.
    pub fn authority_hash(&self) -> (hash: Hash32)
        ensures
            hash == self.spec_authority_hash(),
    {
        self.authority_hash
    }

    /// Returns the purpose commitment.
    pub fn purpose_hash(&self) -> (hash: Hash32)
        ensures
            hash == self.spec_purpose_hash(),
    {
        self.purpose_hash
    }

    /// Returns the maximum bytes of one exposure.
    pub fn maximum_bytes(&self) -> (maximum: u32)
        ensures
            maximum == self.spec_maximum_bytes(),
    {
        self.maximum_bytes
    }

    /// The canonical encoding of the permit.
    pub fn canonical_bytes(&self) -> (bytes: Vec<u8>)
        ensures
            bytes@ == self.spec_encoding(),
    {
        let mut output: Vec<u8> = vec![90u8, 70u8, 67u8, 73u8, 83u8, 45u8, 83u8, 69u8, 67u8, 82u8, 69u8, 84u8, 45u8, 80u8, 69u8, 82u8, 77u8, 73u8, 84u8, 0u8];
        assert(output@ =~= permit_magic());
        put_u16(&mut output, SECRET_AUDIT_FORMAT_VERSION);
        put_bytes(&mut output, self.secret_id.as_bytes());
        put_bytes(&mut output, self.authority_hash.as_bytes());
        put_bytes(&mut output, self.purpose_hash.as_bytes());
        put_u32(&mut output, self.maximum_bytes);
        output
    }

    /// The bytes the permit commitment hashes: the canonical encoding under
    /// the permit domain and the audit format version.
    pub fn commitment_bytes(&self) -> (bytes: Vec<u8>)
        ensures
            bytes@ == commitment_preimage(permit_domain(), 1, self.spec_encoding()),
    {
        let encoded = self.canonical_bytes();
        let label: Vec<u8> = vec![122u8, 101u8, 110u8, 111u8, 45u8, 102u8, 99u8, 105u8, 115u8, 47u8, 115u8, 101u8, 99u8, 114u8, 101u8, 116u8, 45u8, 101u8, 120u8, 112u8, 111u8, 115u8, 117u8, 114u8, 101u8, 45u8, 112u8, 101u8, 114u8, 109u8, 105u8, 116u8];
        assert(label@ =~= permit_domain());
        frame_commitment(label.as_slice(), SECRET_AUDIT_FORMAT_VERSION, encoded.as_slice())
    }

    /// The content-derived permit identity: the hash of exactly the bytes that
    /// `commitment_bytes` returns.
    pub fn commitment<H: CommitmentHasher>(&self) -> (hash: Result<Hash32, SecretError>)
        ensures
            hash == Ok::<Hash32, SecretError>(H::spec_hash(commitment_preimage(permit_domain(), 1, self.spec_encoding()))),
    {
        let bytes = self.commitment_bytes();
        Ok(H::hash(bytes.as_slice()))
    }

    /// Admits exposing `length` bytes of the secret `secret_id`.
    fn authorize(&self, secret_id: Hash32, length: usize) -> (admitted: Result<(), SecretError>)
        ensures
            admitted == permit_check(*self, secret_id, length as int),
    {
        if self.secret_id != secret_id {
            proof {
                if self.secret_id == secret_id {
                    assert(self.secret_id.spec_bytes() == secret_id.spec_bytes());
                }
            }
            return Err(SecretError::SecretIdentityMismatch { expected: self.secret_id, actual: secret_id });
        }
        proof {
            self.secret_id.lemma_bytes_injective(secret_id);
        }
        if length > 0xffff_ffffusize {
            return Err(SecretError::InvalidLength);
        }
        let length = length as u32;
        if length > self.maximum_bytes {
            Err(SecretError::ExposureTooLarge { attempted: length, maximum: self.maximum_bytes })
        } else {
            Ok(())
        }
    }
}

/// What a permit answers to exposing `length` bytes of the secret `secret_id`.
pub open spec fn permit_check(permit: ExposurePermit, secret_id: Hash32, length: int) -> Result<(), SecretError> {
    if permit.spec_secret_id() != secret_id {
        Err(SecretError::SecretIdentityMismatch { expected: permit.spec_secret_id(), actual: secret_id })
    } else if length > u32::MAX {
        Err(SecretError::InvalidLength)
    } else if length > permit.spec_maximum_bytes() {
        Err(SecretError::ExposureTooLarge { attempted: length as u32, maximum: permit.spec_maximum_bytes() })
    } else {
        Ok(())
    }
}

/// Audit value of one explicit exposure.
#[derive(Clone, Copy, Debug, PartialEq, Eq)]
pub struct ExposureEvent {
    secret_id: Hash32,
    permit_hash: Hash32,
    bytes_exposed: u32,
}

impl ExposureEvent {
    /// The exposed secret's identity.
    pub closed spec fn spec_secret_id(self) -> Hash32 {
        self.secret_id
    }

    /// The permit commitment.
    pub closed spec fn spec_permit_hash(self) -> Hash32 {
        self.permit_hash
    }

    /// The number of exposed bytes.
    pub closed spec fn spec_bytes_exposed(self) -> u32 {
        self.bytes_exposed
    }

    /// The canonical encoding: magic, format version, the two commitments and
    /// the big-endian byte count.
    pub open spec fn spec_encoding(self) -> Seq<u8> {
        event_magic() + be16(1) + self.spec_secret_id().spec_bytes() + self.spec_permit_hash().spec_bytes() + be32(
            self.spec_bytes_exposed(),
        )
    }

    /// Returns the exposed secret's identity.
    pub fn secret_id(self) -> (id: Hash32)
        ensures
            id == self.spec_secret_id(),
    {
        self.secret_id
    }

    /// Returns the permit commitment.
    pub fn permit_hash(self) -> (hash: Hash32)
        ensures
            hash == self.spec_permit_hash(),
    {
        self.permit_hash
    }

    /// Returns the number of exposed bytes.
    pub fn bytes_exposed(self) -> (count: u32)
        ensures
            count == self.spec_bytes_exposed(),
    {
        self.bytes_exposed
    }

    /// The canonical encoding of the event.
    pub fn canonical_bytes(&self) -> (bytes: Vec<u8>)
        ensures
            bytes@ == self.spec_encoding(),
    {
        let mut output: Vec<u8> = vec![90u8, 70u8, 67u8, 73u8, 83u8, 45u8, 83u8, 69u8, 67u8, 82u8, 69u8, 84u8, 45u8, 69u8, 88u8, 80u8, 79u8, 83u8, 85u8, 82u8, 69u8, 0u8];
        assert(output@ =~= event_magic());
        put_u16(&mut output, SECRET_AUDIT_FORMAT_VERSION);
        put_bytes(&mut output, self.secret_id.as_bytes());
        put_bytes(&mut output, self.permit_hash.as_bytes());
        put_u32(&mut output, self.bytes_exposed);
        output
    }
}

/// Result of an authorized exposure: the operation's value and its audit event.
pub struct Exposed<T> {
    value: T,
    event: ExposureEvent,
}

impl<T> Exposed<T> {
    /// The operation's value.
    pub closed spec fn spec_value(self) -> T {
        self.value
    }

    /// The audit event.
    pub closed spec fn spec_event(self) -> ExposureEvent {
        self.event
    }

    /// Returns the audit event without touching the value.
    pub fn event(&self) -> (event: ExposureEvent)
        ensures
            event == self.spec_event(),
    {
        self.event
    }

    /// Splits into the operation's value and the audit event.
    pub fn into_parts(self) -> (parts: (T, ExposureEvent))
        ensures
            parts == (self.spec_value(), self.spec_event()),
    {
        (self.value, self.event)
    }
}

// ---------------------------------------------------------------------------
// Admission of owned secret bytes.
// ---------------------------------------------------------------------------

/// Why owned bytes of this identity and length are refused, if they are.
pub open spec fn admission_error(secret_id: Hash32, length: int) -> Option<SecretError> {
    if secret_id.spec_is_zero() {
        Some(SecretError::ZeroHash)
    } else if length == 0 || length > MAX_SECRET_BYTES {
        Some(SecretError::InvalidLength)
    } else {
        None
    }
}

/// As a result.
pub open spec fn admission(secret_id: Hash32, length: int) -> Result<(), SecretError> {
    match admission_error(secret_id, length) {
        Some(error) => Err(error),
        None => Ok(()),
    }
}

fn validate_length(length: usize) -> (valid: Result<(), SecretError>)
    ensures
        valid == (if 0 < length <= MAX_SECRET_BYTES {
            Ok::<(), SecretError>(())
        } else {
            Err(SecretError::InvalidLength)
        }),
{
    if length == 0 || length > MAX_SECRET_BYTES {
        Err(SecretError::InvalidLength)
    } else {
        Ok(())
    }
}

fn validate_identity_and_length(secret_id: Hash32, length: usize) -> (valid: Result<(), SecretError>)
    ensures
        valid == admission(secret_id, length as int),
{
    if secret_id.is_zero() {
        Err(SecretError::ZeroHash)
    } else {
        validate_length(length)
    }
}

/// Checks owned fixed-size bytes; rejected bytes are erased before returning.
pub fn validate_owned_slice(secret_id: Hash32, bytes: &mut [u8]) -> (valid: Result<(), SecretError>)
    ensures
        valid == admission(secret_id, old(bytes)@.len() as int),
        valid is Ok ==> final(bytes)@ == old(bytes)@,
        valid is Err ==> final(bytes)@ == Seq::new(old(bytes)@.len(), |i: int| 0u8),
{
    let result = validate_identity_and_length(secret_id, bytes.len());
    if result.is_err() {
        zeroize_slice(bytes);
    }
    result
}

/// Checks an owned buffer; a rejected buffer is erased and emptied before returning.
pub fn validate_owned_vec(secret_id: Hash32, bytes: &mut Vec<u8>) -> (valid: Result<(), SecretError>)
    ensures
        valid == admission(secret_id, old(bytes)@.len() as int),
        valid is Ok ==> final(bytes)@ == old(bytes)@,
        valid is Err ==> final(bytes)@ == Seq::<u8>::empty(),
{
    let result = validate_identity_and_length(secret_id, bytes.len());
    if result.is_err() {
        zeroize_vec(bytes);
    }
    result
}

/// Two containers must carry the same identity.
pub open spec fn identity_check(left: Hash32, right: Hash32) -> Result<(), SecretError> {
    if left == right {
        Ok(())
    } else {
        Err(SecretError::SecretIdentityMismatch { expected: left, actual: right })
    }
}

fn require_same_identity(left: Hash32, right: Hash32) -> (same: Result<(), SecretError>)
    ensures
        same == identity_check(left, right),
{
    if left == right {
        proof {
            left.lemma_bytes_injective(right);
        }
        Ok(())
    } else {
        Err(SecretError::SecretIdentityMismatch { expected: left, actual: right })
    }
}

// ---------------------------------------------------------------------------
// Constant-time choices.
// ---------------------------------------------------------------------------

/// Opaque result of a constant-time comparison: a bit that the selection and
/// assignment operations consume without branching on it.
pub struct SecretChoice {
    bit: u8,
}

impl SecretChoice {
    /// The bit is 0 or 1.
    #[verifier::type_invariant]
    spec fn is_bit(self) -> bool {
        self.bit <= 1
    }

    /// The chosen bit: 1 selects the right-hand value.
    pub closed spec fn spec_bit(self) -> u8 {
        self.bit
    }

    /// A choice from a value the caller has already classified as public.
    pub fn from_public(value: bool) -> (choice: Self)
        ensures
            choice.spec_bit() == (if value { 1u8 } else { 0u8 }),
    {
        if value {
            SecretChoice { bit: 1 }
        } else {
            SecretChoice { bit: 0 }
        }
    }

    fn bit(&self) -> (bit: u8)
        ensures
            bit == self.spec_bit(),
            bit <= 1,
    {
        proof {
            use_type_invariant(self);
        }
        self.bit
    }
}

/// What an exposure of `bytes` of the secret `secret_id` answers, before the
/// operation runs: the refusal, if any.
pub open spec fn exposure_check(secret_id: Hash32, permit: ExposurePermit, length: int) -> Result<(), SecretError> {
    if secret_id.spec_is_zero() {
        Err(SecretError::ZeroHash)
    } else {
        permit_check(permit, secret_id, length)
    }
}

/// The event of an admitted exposure: the secret, the permit's commitment
/// under the hasher, and the exposed length.
pub open spec fn exposure_event_matches<H: CommitmentHasher>(
    event: ExposureEvent,
    secret_id: Hash32,
    permit: ExposurePermit,
    length: int,
) -> bool {
    &&& event.spec_secret_id() == secret_id
    &&& event.spec_bytes_exposed() == length
    &&& event.spec_permit_hash() == H::spec_hash(commitment_preimage(permit_domain(), 1, permit.spec_encoding()))
}

fn expose<H: CommitmentHasher, T, F: FnOnce(&[u8]) -> T>(
    bytes: &[u8],
    secret_id: Hash32,
    permit: ExposurePermit,
    operation: F,
) -> (exposed: Result<Exposed<T>, SecretError>)
    requires
        call_requires(operation, (bytes,)),
    ensures
        exposure_check(secret_id, permit, bytes@.len() as int) matches Err(error) ==> exposed == Err::<
            Exposed<T>,
            SecretError,
        >(error),
        exposure_check(secret_id, permit, bytes@.len() as int) is Ok ==> (exposed matches Ok(result)
            && exposure_event_matches::<H>(result.spec_event(), secret_id, permit, bytes@.len() as int)
            && call_ensures(operation, (bytes,), result.spec_value())),
{
    if secret_id.is_zero() {
        return Err(SecretError::ZeroHash);
    }
    match permit.authorize(secret_id, bytes.len()) {
        Ok(()) => {},
        Err(error) => return Err(error),
    }
    let bytes_exposed = bytes.len() as u32;
    let permit_hash = match permit.commitment::<H>() {
        Ok(hash) => hash,
        Err(error) => return Err(error),
    };
    let event = ExposureEvent { secret_id, permit_hash, bytes_exposed };
    let value = operation(bytes);
    Ok(Exposed { value, event })
}

// ---------------------------------------------------------------------------
// Fixed-size secrets.
// ---------------------------------------------------------------------------

/// Fixed-size owned secret bytes; the length is public and fixed by the type.
pub struct SecretBytes<const N: usize> {
    secret_id: Hash32,
    bytes: [u8; N],
}

impl<const N: usize> SecretBytes<N> {
    /// The caller-supplied identity.
    pub closed spec fn spec_secret_id(self) -> Hash32 {
        self.secret_id
    }

    /// The secret bytes.
    pub closed spec fn spec_bytes(self) -> Seq<u8> {
        self.bytes@
    }

    /// Takes ownership of a nonempty, bounded secret; rejected bytes are erased.
    pub fn try_new(secret_id: Hash32, bytes: [u8; N]) -> (secret: Result<Self, SecretError>)
        ensures
            admission(secret_id, N as int) matches Err(error) ==> secret == Err::<Self, SecretError>(error),
            admission(secret_id, N as int) is Ok ==> (secret matches Ok(s) && s.spec_secret_id() == secret_id
                && s.spec_bytes() == bytes@),
    {
        let mut bytes = bytes;
        match validate_owned_slice(secret_id, &mut bytes) {
            Ok(()) => {},
            Err(error) => return Err(error),
        }
        Ok(SecretBytes { secret_id, bytes })
    }

    /// Returns the identity.
    pub fn secret_id(&self) -> (id: Hash32)
        ensures
            id == self.spec_secret_id(),
    {
        self.secret_id
    }

    /// Returns the public fixed length.
    pub fn len(&self) -> (length: usize)
        ensures
            length == N,
            length == self.spec_bytes().len(),
    {
        N
    }

    /// Returns whether the fixed length is zero.
    pub fn is_empty(&self) -> (empty: bool)
        ensures
            empty == (N == 0),
    {
        N == 0
    }

    /// Compares all bytes in constant time; the choice is 1 exactly for equal bytes.
    pub fn ct_eq(&self, other: &Self, execution: &HardenedExecution) -> (choice: SecretChoice)
        ensures
            choice.spec_bit() == (if self.spec_bytes() == other.spec_bytes() { 1u8 } else { 0u8 }),
    {
        let bit = ct_eq_bytes(self.bytes.as_slice(), other.bytes.as_slice());
        SecretChoice { bit }
    }

    /// Selects one complete value of the same identity without branching on
    /// the choice: the right value for choice 1, the left for choice 0.
    pub fn ct_select(left: &Self, right: &Self, choice: &SecretChoice, execution: &HardenedExecution) -> (selected:
        Result<Self, SecretError>)
        ensures
            identity_check(left.spec_secret_id(), right.spec_secret_id()) matches Err(error) ==> selected == Err::<
                Self,
                SecretError,
            >(error),
            identity_check(left.spec_secret_id(), right.spec_secret_id()) is Ok ==> (selected matches Ok(s)
                && s.spec_secret_id() == left.spec_secret_id() && s.spec_bytes() == (if choice.spec_bit() == 1 {
                right.spec_bytes()
            } else {
                left.spec_bytes()
            })),
    {
        match require_same_identity(left.secret_id, right.secret_id) {
            Ok(()) => {},
            Err(error) => return Err(error),
        }
        let bit = choice.bit();
        let mut output: [u8; N] = [0u8; N];
        let mut index: usize = 0;
        while index < N
            invariant
                index <= N,
                bit == choice.spec_bit(),
                bit <= 1,
                output@.len() == N,
                left.bytes@.len() == N,
                right.bytes@.len() == N,
                forall|i: int|
                    0 <= i < index ==> output@[i] == (if bit == 1 { right.bytes@[i] } else { left.bytes@[i] }),
            decreases N - index,
        {
            let byte = select_byte(left.bytes[index], right.bytes[index], bit);
            output[index] = byte;
            index = index + 1;
        }
        let selected = SecretBytes { secret_id: left.secret_id, bytes: output };
        assert(selected.spec_bytes() =~= (if bit == 1 { right.spec_bytes() } else { left.spec_bytes() }));
        Ok(selected)
    }

    /// Conditionally assigns bytes of the same identity without branching on
    /// the choice: the other value for choice 1, unchanged for choice 0.
    pub fn ct_assign(&mut self, other: &Self, choice: &SecretChoice, execution: &HardenedExecution) -> (assigned:
        Result<(), SecretError>)
        ensures
            assigned == identity_check(old(self).spec_secret_id(), other.spec_secret_id()),
            final(self).spec_secret_id() == old(self).spec_secret_id(),
            assigned is Err ==> final(self).spec_bytes() == old(self).spec_bytes(),
            assigned is Ok ==> final(self).spec_bytes() == (if choice.spec_bit() == 1 {
                other.spec_bytes()
            } else {
                old(self).spec_bytes()
            }),
    {
        match require_same_identity(self.secret_id, other.secret_id) {
            Ok(()) => {},
            Err(error) => return Err(error),
        }
        let bit = choice.bit();
        let mut index: usize = 0;
        while index < N
            invariant
                index <= N,
                bit == choice.spec_bit(),
                bit <= 1,
                self.secret_id == old(self).secret_id,
                self.bytes@.len() == N,
                old(self).bytes@.len() == N,
                other.bytes@.len() == N,
                forall|i: int|
                    0 <= i < index ==> self.bytes@[i] == (if bit == 1 {
                        other.bytes@[i]
                    } else {
                        old(self).bytes@[i]
                    }),
                forall|i: int| index <= i < N ==> self.bytes@[i] == old(self).bytes@[i],
            decreases N - index,
        {
            let mut current = self.bytes[index];
            assign_byte(&mut current, other.bytes[index], bit);
            self.bytes[index] = current;
            index = index + 1;
        }
        assert(self.spec_bytes() =~= (if bit == 1 { other.spec_bytes() } else { old(self).spec_bytes() }));
        Ok(())
    }

    /// Replaces the secret after erasing the previous bytes.
    pub fn replace(&mut self, replacement: [u8; N])
        ensures
            final(self).spec_secret_id() == old(self).spec_secret_id(),
            final(self).spec_bytes() == replacement@,
    {
        zeroize_array(&mut self.bytes);
        self.bytes = replacement;
    }

    /// Erases the bytes, keeping the zero-filled container.
    pub fn clear(&mut self)
        ensures
            final(self).spec_secret_id() == old(self).spec_secret_id(),
            final(self).spec_bytes() == Seq::new(N as nat, |i: int| 0u8),
    {
        zeroize_array(&mut self.bytes);
    }

    /// Exposes the bytes to one operation under a permit for this secret that
    /// authorizes at least its length; the result carries the audit event.
    pub fn with_exposed<H: CommitmentHasher, T, F: FnOnce(&[u8]) -> T>(
        &self,
        execution: &HardenedExecution,
        permit: ExposurePermit,
        operation: F,
    ) -> (exposed: Result<Exposed<T>, SecretError>)
        requires
            forall|view: &[u8]| view@ == self.spec_bytes() ==> call_requires(operation, (view,)),
        ensures
            exposure_check(self.spec_secret_id(), permit, N as int) matches Err(error) ==> exposed == Err::<
                Exposed<T>,
                SecretError,
            >(error),
            exposure_check(self.spec_secret_id(), permit, N as int) is Ok ==> (exposed matches Ok(result)
                && exposure_event_matches::<H>(result.spec_event(), self.spec_secret_id(), permit, N as int) && exists|
                view: &[u8],
            | view@ == self.spec_bytes() && call_ensures(operation, (view,), result.spec_value())),
    {
        let view = self.bytes.as_slice();
        expose::<H, T, F>(view, self.secret_id, permit, operation)
    }
}

// ---------------------------------------------------------------------------
// Variable-size secrets.
// ---------------------------------------------------------------------------

/// Owned secret bytes of public, variable length.
pub struct SecretBox {
    secret_id: Hash32,
    bytes: Vec<u8>,
}

impl SecretBox {
    /// The caller-supplied identity.
    pub closed spec fn spec_secret_id(self) -> Hash32 {
        self.secret_id
    }

    /// The secret bytes.
    pub closed spec fn spec_bytes(self) -> Seq<u8> {
        self.bytes@
    }

    /// Takes ownership of a nonempty, bounded buffer; a rejected buffer is erased.
    pub fn try_new(secret_id: Hash32, bytes: Vec<u8>) -> (secret: Result<Self, SecretError>)
        ensures
            admission(secret_id, bytes@.len() as int) matches Err(error) ==> secret == Err::<Self, SecretError>(
                error,
            ),
            admission(secret_id, bytes@.len() as int) is Ok ==> (secret matches Ok(s) && s.spec_secret_id()
                == secret_id && s.spec_bytes() == bytes@),
    {
        let mut bytes = bytes;
        match validate_owned_vec(secret_id, &mut bytes) {
            Ok(()) => {},
            Err(error) => return Err(error),
        }
        Ok(SecretBox { secret_id, bytes })
    }

    /// Returns the identity.
    pub fn secret_id(&self) -> (id: Hash32)
        ensures
            id == self.spec_secret_id(),
    {
        self.secret_id
    }

    /// Returns the public length.
    pub fn len(&self) -> (length: usize)
        ensures
            length == self.spec_bytes().len(),
    {
        self.bytes.len()
    }

    /// Returns whether the buffer is empty.
    pub fn is_empty(&self) -> (empty: bool)
        ensures
            empty == (self.spec_bytes().len() == 0),
    {
        self.bytes.len() == 0
    }

    /// Compares in constant time once the public lengths match; the choice is
    /// 1 exactly for equal bytes.
    pub fn ct_eq(&self, other: &Self, execution: &HardenedExecution) -> (choice: SecretChoice)
        ensures
            choice.spec_bit() == (if self.spec_bytes() == other.spec_bytes() { 1u8 } else { 0u8 }),
    {
        if self.bytes.len() != other.bytes.len() {
            SecretChoice::from_public(false)
        } else {
            let bit = ct_eq_bytes(self.bytes.as_slice(), other.bytes.as_slice());
            SecretChoice { bit }
        }
    }

    /// Conditionally assigns a buffer of the same identity and length without
    /// branching on the choice.
    pub fn ct_assign(&mut self, other: &Self, choice: &SecretChoice, execution: &HardenedExecution) -> (assigned:
        Result<(), SecretError>)
        ensures
            identity_check(old(self).spec_secret_id(), other.spec_secret_id()) matches Err(error) ==> assigned
                == Err::<(), SecretError>(error),
            identity_check(old(self).spec_secret_id(), other.spec_secret_id()) is Ok && old(self).spec_bytes().len()
                != other.spec_bytes().len() ==> assigned == Err::<(), SecretError>(
                SecretError::LengthMismatch {
                    left: old(self).spec_bytes().len() as usize,
                    right: other.spec_bytes().len() as usize,
                },
            ),
            identity_check(old(self).spec_secret_id(), other.spec_secret_id()) is Ok && old(self).spec_bytes().len()
                == other.spec_bytes().len() ==> assigned is Ok,
            final(self).spec_secret_id() == old(self).spec_secret_id(),
            assigned is Err ==> final(self).spec_bytes() == old(self).spec_bytes(),
            assigned is Ok ==> final(self).spec_bytes() == (if choice.spec_bit() == 1 {
                other.spec_bytes()
            } else {
                old(self).spec_bytes()
            }),
    {
        match require_same_identity(self.secret_id, other.secret_id) {
            Ok(()) => {},
            Err(error) => return Err(error),
        }
        if self.bytes.len() != other.bytes.len() {
            return Err(SecretError::LengthMismatch { left: self.bytes.len(), right: other.bytes.len() });
        }
        let bit = choice.bit();
        let length = self.bytes.len();
        let mut index: usize = 0;
        while index < length
            invariant
                index <= length,
                length == old(self).bytes@.len(),
                length == other.bytes@.len(),
                bit == choice.spec_bit(),
                bit <= 1,
                self.secret_id == old(self).secret_id,
                self.bytes@.len() == length,
                forall|i: int|
                    0 <= i < index ==> self.bytes@[i] == (if bit == 1 {
                        other.bytes@[i]
                    } else {
                        old(self).bytes@[i]
                    }),
                forall|i: int| index <= i < length ==> self.bytes@[i] == old(self).bytes@[i],
            decreases length - index,
        {
            let mut current = self.bytes[index];
            assign_byte(&mut current, other.bytes[index], bit);
            self.bytes.set(index, current);
            index = index + 1;
        }
        assert(self.spec_bytes() =~= (if bit == 1 { other.spec_bytes() } else { old(self).spec_bytes() }));
        Ok(())
    }

    /// Replaces the buffer after erasing the previous one; a rejected
    /// replacement is erased and the current buffer kept.
    pub fn replace(&mut self, replacement: Vec<u8>) -> (replaced: Result<(), SecretError>)
        ensures
            replaced == admission(old(self).spec_secret_id(), replacement@.len() as int),
            final(self).spec_secret_id() == old(self).spec_secret_id(),
            replaced is Err ==> final(self).spec_bytes() == old(self).spec_bytes(),
            replaced is Ok ==> final(self).spec_bytes() == replacement@,
    {
        let mut replacement = replacement;
        match validate_owned_vec(self.secret_id, &mut replacement) {
            Ok(()) => {},
            Err(error) => return Err(error),
        }
        zeroize_vec(&mut self.bytes);
        self.bytes = replacement;
        Ok(())
    }

    /// Erases the buffer, keeping its public length.
    pub fn clear(&mut self)
        ensures
            final(self).spec_secret_id() == old(self).spec_secret_id(),
            final(self).spec_bytes() == Seq::new(old(self).spec_bytes().len(), |i: int| 0u8),
    {
        let public_length = self.bytes.len();
        zeroize_vec(&mut self.bytes);
        self.bytes.resize(public_length, 0u8);
        assert(self.spec_bytes() =~= Seq::new(old(self).spec_bytes().len(), |i: int| 0u8));
    }

    /// Exposes the bytes to one operation under a permit for this secret that
    /// authorizes at least its length; the result carries the audit event.
    pub fn with_exposed<H: CommitmentHasher, T, F: FnOnce(&[u8]) -> T>(
        &self,
        execution: &HardenedExecution,
        permit: ExposurePermit,
        operation: F,
    ) -> (exposed: Result<Exposed<T>, SecretError>)
        requires
            forall|view: &[u8]| view@ == self.spec_bytes() ==> call_requires(operation, (view,)),
        ensures
            exposure_check(self.spec_secret_id(), permit, self.spec_bytes().len() as int) matches Err(error)
                ==> exposed == Err::<Exposed<T>, SecretError>(error),
            exposure_check(self.spec_secret_id(), permit, self.spec_bytes().len() as int) is Ok ==> (exposed matches Ok(
                result,
            ) && exposure_event_matches::<H>(result.spec_event(), self.spec_secret_id(), permit, self.spec_bytes().len() as int)
                && exists|view: &[u8]|
                view@ == self.spec_bytes() && call_ensures(operation, (view,), result.spec_value())),
    {
        let view = self.bytes.as_slice();
        expose::<H, T, F>(view, self.secret_id, permit, operation)
    }
}

impl<const N: usize> Drop for SecretBytes<N> {
    /// Erases the bytes when the container is dropped.
    fn drop(&mut self)
        opens_invariants none
        no_unwind
    {
        zeroize_array(&mut self.bytes);
    }
}

impl Drop for SecretBox {
    /// Erases the buffer when the container is dropped.
    fn drop(&mut self)
        opens_invariants none
        no_unwind
    {
        zeroize_vec(&mut self.bytes);
    }
}

} // verus!

//! Project-neutral protocol profiles, stable registries, and evolution checks.
//!
//! Stable identifiers, canonical bindings, and migration intent are explicit
//! values rather than conventions hidden in source trees.

use vstd::prelude::*;
use vstd::string::StringSliceAdditionalSpecFns;
use vstd::utf8::encode_utf8;

use crate::commit::{commitment_preimage, frame_commitment, CommitmentHasher, Hash32};
use crate::encode::{be16, be32, encode_all, put_bytes, put_u16, put_u32, put_u8, EncodeError};
use crate::sort::{
    canonical_order, find_key, first_adjacent_duplicate, has_duplicate_key, has_key,
    is_least_duplicated_key, least_duplicated_key, lemma_canonical_order,
    lemma_duplicate_key_multiset, lemma_least_duplicated_key, lemma_least_duplicated_key_multiset,
    sort_by_key, strictly_sorted_by_key, Keyed, U64Keyed,
};

verus! {

/// Canonical project-profile format version.
pub const PROJECT_PROFILE_FORMAT_VERSION: u16 = 1;

/// Canonical profile-evolution format version.
pub const PROFILE_EVOLUTION_FORMAT_VERSION: u16 = 1;

/// Maximum byte length of a project, subsystem, or registry name.
pub const MAX_STABLE_NAME_BYTES: usize = 64;

/// Maximum byte length of a domain prefix.
pub const MAX_DOMAIN_PREFIX_BYTES: usize = 160;

/// Maximum number of stable registry entries in one profile.
pub const MAX_REGISTRY_ENTRIES: usize = 65536;

/// A lowercase ASCII letter or a digit.
pub open spec fn is_lower_or_digit(byte: u8) -> bool {
    (97 <= byte <= 122) || (48 <= byte <= 57)
}

/// A byte allowed in a stable name: lowercase letter, digit, `.`, `_` or `-`.
pub open spec fn is_stable_name_byte(byte: u8) -> bool {
    is_lower_or_digit(byte) || byte == 46 || byte == 95 || byte == 45
}

/// A byte allowed in a domain prefix: a stable-name byte, `/` or `:`.
pub open spec fn is_domain_prefix_byte(byte: u8) -> bool {
    is_stable_name_byte(byte) || byte == 47 || byte == 58
}

/// `[a-z0-9][a-z0-9._-]*` of at most 64 bytes.
pub open spec fn is_stable_name(bytes: Seq<u8>) -> bool {
    &&& 1 <= bytes.len() <= MAX_STABLE_NAME_BYTES
    &&& is_lower_or_digit(bytes[0])
    &&& forall|i: int| 0 <= i < bytes.len() ==> #[trigger] is_stable_name_byte(bytes[i])
}

/// `[a-z0-9][a-z0-9/._:-]*` of at most 160 bytes.
pub open spec fn is_domain_prefix(bytes: Seq<u8>) -> bool {
    &&& 1 <= bytes.len() <= MAX_DOMAIN_PREFIX_BYTES
    &&& is_lower_or_digit(bytes[0])
    &&& forall|i: int| 0 <= i < bytes.len() ==> #[trigger] is_domain_prefix_byte(bytes[i])
}

fn check_name_bytes(bytes: &[u8], max: usize, allow_path: bool) -> (valid: bool)
    ensures
        !allow_path && max == MAX_STABLE_NAME_BYTES ==> valid == is_stable_name(bytes@),
        allow_path && max == MAX_DOMAIN_PREFIX_BYTES ==> valid == is_domain_prefix(bytes@),
{
    if bytes.len() == 0 || bytes.len() > max {
        return false;
    }
    let first = bytes[0];
    if !((97 <= first && first <= 122) || (48 <= first && first <= 57)) {
        return false;
    }
    let mut index: usize = 0;
    while index < bytes.len()
        invariant
            index <= bytes@.len(),
            !allow_path ==> forall|i: int| 0 <= i < index ==> #[trigger] is_stable_name_byte(bytes@[i]),
            allow_path ==> forall|i: int| 0 <= i < index ==> #[trigger] is_domain_prefix_byte(bytes@[i]),
        decreases bytes@.len() - index,
    {
        let byte = bytes[index];
        let named = (97 <= byte && byte <= 122) || (48 <= byte && byte <= 57) || byte == 46 || byte
            == 95 || byte == 45;
        let allowed = named || (allow_path && (byte == 47 || byte == 58));
        if !allowed {
            assert(!allow_path ==> !is_stable_name_byte(bytes@[index as int]));
            assert(allow_path ==> !is_domain_prefix_byte(bytes@[index as int]));
            return false;
        }
        index = index + 1;
    }
    true
}

/// A normalized, lowercase ASCII identifier used for human-readable stable names.
#[derive(Debug, PartialEq, Eq, Hash, PartialOrd, Ord)]
pub struct StableName(String);

impl StableName {
    /// Every stable name satisfies the naming rule.
    #[verifier::type_invariant]
    spec fn valid(self) -> bool {
        is_stable_name(encode_utf8(self.0@))
    }

    /// The characters of the name.
    pub closed spec fn spec_chars(self) -> Seq<char> {
        self.0@
    }

    /// The bytes of the name.
    pub open spec fn spec_bytes(self) -> Seq<u8> {
        encode_utf8(self.spec_chars())
    }

    /// Creates a stable name from `[a-z0-9][a-z0-9._-]*`.
    pub fn try_new(value: &str) -> (name: Result<Self, ProfileError>)
        ensures
            name is Ok <==> is_stable_name(value.spec_bytes()),
            name matches Ok(n) ==> n.spec_chars() == value@,
            name matches Err(e) ==> e == ProfileError::InvalidStableName,
    {
        if !check_name_bytes(value.as_bytes(), MAX_STABLE_NAME_BYTES, false) {
            return Err(ProfileError::InvalidStableName);
        }
        Ok(StableName(value.to_owned()))
    }

    /// Returns the normalized name.
    pub fn as_str(&self) -> (text: &str)
        ensures
            text@ == self.spec_chars(),
            is_stable_name(text.spec_bytes()),
    {
        proof {
            use_type_invariant(self);
        }
        self.0.as_str()
    }

    /// Compares two names.
    pub fn same_as(&self, other: &StableName) -> (same: bool)
        ensures
            same == (self.spec_chars() == other.spec_chars()),
    {
        self.0 == other.0
    }

    /// A 16-bit length followed by the bytes of the name.
    pub open spec fn spec_encoding(self) -> Seq<u8> {
        be16(self.spec_bytes().len() as u16) + self.spec_bytes()
    }

    /// Appends the length-prefixed name.
    pub fn encode_to(&self, output: &mut Vec<u8>)
        ensures
            final(output)@ == old(output)@ + self.spec_encoding(),
    {
        let bytes = self.as_str().as_bytes();
        put_u16(output, bytes.len() as u16);
        put_bytes(output, bytes);
    }
}

impl Clone for StableName {
    fn clone(&self) -> (copy: Self)
        ensures
            copy == *self,
    {
        proof {
            use_type_invariant(self);
        }
        StableName(self.0.clone())
    }
}

/// A normalized domain namespace such as `zenostorage/agreement`.
#[derive(Debug, PartialEq, Eq, Hash, PartialOrd, Ord)]
pub struct DomainPrefix(String);

impl DomainPrefix {
    /// Every prefix satisfies the prefix rule.
    #[verifier::type_invariant]
    spec fn valid(self) -> bool {
        is_domain_prefix(encode_utf8(self.0@))
    }

    /// The characters of the prefix.
    pub closed spec fn spec_chars(self) -> Seq<char> {
        self.0@
    }

    /// The bytes of the prefix.
    pub open spec fn spec_bytes(self) -> Seq<u8> {
        encode_utf8(self.spec_chars())
    }

    /// Creates a lowercase ASCII domain prefix.
    pub fn try_new(value: &str) -> (prefix: Result<Self, ProfileError>)
        ensures
            prefix is Ok <==> is_domain_prefix(value.spec_bytes()),
            prefix matches Ok(p) ==> p.spec_chars() == value@,
            prefix matches Err(e) ==> e == ProfileError::InvalidDomainPrefix,
    {
        if !check_name_bytes(value.as_bytes(), MAX_DOMAIN_PREFIX_BYTES, true) {
            return Err(ProfileError::InvalidDomainPrefix);
        }
        Ok(DomainPrefix(value.to_owned()))
    }

    /// Returns the normalized prefix.
    pub fn as_str(&self) -> (text: &str)
        ensures
            text@ == self.spec_chars(),
            is_domain_prefix(text.spec_bytes()),
    {
        proof {
            use_type_invariant(self);
        }
        self.0.as_str()
    }

    /// A 16-bit length followed by the bytes of the prefix.
    pub open spec fn spec_encoding(self) -> Seq<u8> {
        be16(self.spec_bytes().len() as u16) + self.spec_bytes()
    }

    /// Appends the length-prefixed prefix.
    pub fn encode_to(&self, output: &mut Vec<u8>)
        ensures
            final(output)@ == old(output)@ + self.spec_encoding(),
    {
        let bytes = self.as_str().as_bytes();
        put_u16(output, bytes.len() as u16);
        put_bytes(output, bytes);
    }
}

impl Clone for DomainPrefix {
    fn clone(&self) -> (copy: Self)
        ensures
            copy == *self,
    {
        proof {
            use_type_invariant(self);
        }
        DomainPrefix(self.0.clone())
    }
}

/// Nonzero stable identifier inside one registry kind.
#[derive(Clone, Copy, Debug, PartialEq, Eq, Structural, Hash, PartialOrd, Ord)]
pub struct SemanticId(u32);

impl SemanticId {
    /// Identifiers are nonzero.
    #[verifier::type_invariant]
    spec fn nonzero(self) -> bool {
        self.0 != 0
    }

    /// The raw identifier.
    pub closed spec fn spec_get(self) -> u32 {
        self.0
    }

    /// Creates a nonzero identifier.
    pub fn try_new(value: u32) -> (id: Result<Self, ProfileError>)
        ensures
            id is Ok <==> value != 0,
            id matches Ok(i) ==> i.spec_get() == value,
            id matches Err(e) ==> e == ProfileError::ZeroSemanticId,
    {
        if value == 0 {
            Err(ProfileError::ZeroSemanticId)
        } else {
            Ok(SemanticId(value))
        }
    }

    /// Returns the raw identifier.
    pub fn get(self) -> (value: u32)
        ensures
            value == self.spec_get(),
            value != 0,
    {
        proof {
            use_type_invariant(self);
        }
        self.0
    }

    /// Identifiers are determined by their raw value.
    pub proof fn lemma_get_injective(self, other: Self)
        requires
            self.spec_get() == other.spec_get(),
        ensures
            self == other,
    {
    }
}

/// Closed registry namespaces shared by all projects.
#[derive(Clone, Copy, Debug, PartialEq, Eq, Structural, Hash, PartialOrd, Ord)]
pub enum RegistryKind {
    /// Authoritative state type.
    StateType,
    /// Command or event type admitted by a transition.
    CommandType,
    /// Authenticated context or policy type.
    ContextType,
    /// Stable rejection or committed-failure reason.
    Reason,
    /// Authoritative effect operation.
    Effect,
    /// External-delivery channel.
    Channel,
    /// Evidence or proof artifact kind.
    Evidence,
    /// Capability or authority kind.
    Capability,
    /// Domain event kind.
    Event,
    /// Declarative claim or invariant kind.
    Claim,
    /// Explicit migration operation.
    Migration,
}

impl RegistryKind {
    /// The stable wire tag.
    pub open spec fn spec_tag(self) -> u8 {
        match self {
            RegistryKind::StateType => 0u8,
            RegistryKind::CommandType => 1u8,
            RegistryKind::ContextType => 2u8,
            RegistryKind::Reason => 3u8,
            RegistryKind::Effect => 4u8,
            RegistryKind::Channel => 5u8,
            RegistryKind::Evidence => 6u8,
            RegistryKind::Capability => 7u8,
            RegistryKind::Event => 8u8,
            RegistryKind::Claim => 9u8,
            RegistryKind::Migration => 10u8,
        }
    }

    /// Returns the stable wire tag.
    pub fn tag(self) -> (tag: u8)
        ensures
            tag == self.spec_tag(),
    {
        match self {
            RegistryKind::StateType => 0,
            RegistryKind::CommandType => 1,
            RegistryKind::ContextType => 2,
            RegistryKind::Reason => 3,
            RegistryKind::Effect => 4,
            RegistryKind::Channel => 5,
            RegistryKind::Evidence => 6,
            RegistryKind::Capability => 7,
            RegistryKind::Event => 8,
            RegistryKind::Claim => 9,
            RegistryKind::Migration => 10,
        }
    }

    /// Distinct kinds carry distinct tags.
    pub proof fn lemma_tag_injective(self, other: Self)
        requires
            self.spec_tag() == other.spec_tag(),
        ensures
            self == other,
    {
    }
}

/// The registry key of a namespace and identifier: ordered by namespace, then identifier.
pub open spec fn registry_key(kind: RegistryKind, id: SemanticId) -> int {
    kind.spec_tag() as int * 4294967296 + id.spec_get() as int
}

/// Equal registry keys name the same namespace and identifier.
pub proof fn lemma_registry_key_injective(
    kind: RegistryKind,
    id: SemanticId,
    other_kind: RegistryKind,
    other_id: SemanticId,
)
    requires
        registry_key(kind, id) == registry_key(other_kind, other_id),
    ensures
        kind == other_kind,
        id == other_id,
{
    kind.lemma_tag_injective(other_kind);
    id.lemma_get_injective(other_id);
}

/// One stable registry entry.
#[derive(Clone, Debug, PartialEq, Eq)]
pub struct RegistryEntry {
    kind: RegistryKind,
    id: SemanticId,
    name: StableName,
    definition_hash: Hash32,
}

impl RegistryEntry {
    /// The registry namespace.
    pub closed spec fn spec_kind(self) -> RegistryKind {
        self.kind
    }

    /// The stable numeric identifier.
    pub closed spec fn spec_id(self) -> SemanticId {
        self.id
    }

    /// The stable readable name.
    pub closed spec fn spec_name(self) -> StableName {
        self.name
    }

    /// The exact semantic-definition commitment.
    pub closed spec fn spec_definition_hash(self) -> Hash32 {
        self.definition_hash
    }

    /// Creates an entry bound to a nonzero semantic-definition commitment.
    pub fn try_new(kind: RegistryKind, id: SemanticId, name: StableName, definition_hash: Hash32) -> (entry:
        Result<Self, ProfileError>)
        ensures
            entry is Ok <==> !definition_hash.spec_is_zero(),
            entry matches Err(e) ==> e == ProfileError::ZeroDefinitionHash,
            entry matches Ok(e) ==> e.spec_kind() == kind && e.spec_id() == id && e.spec_name()
                == name && e.spec_definition_hash() == definition_hash,
    {
        if definition_hash.is_zero() {
            return Err(ProfileError::ZeroDefinitionHash);
        }
        Ok(RegistryEntry { kind, id, name, definition_hash })
    }

    /// Returns the registry namespace.
    pub fn kind(&self) -> (kind: RegistryKind)
        ensures
            kind == self.spec_kind(),
    {
        self.kind
    }

    /// Returns the stable numeric identifier.
    pub fn id(&self) -> (id: SemanticId)
        ensures
            id == self.spec_id(),
    {
        self.id
    }

    /// Returns the stable readable name.
    pub fn name(&self) -> (name: &StableName)
        ensures
            *name == self.spec_name(),
    {
        &self.name
    }

    /// Returns the exact semantic-definition commitment.
    pub fn definition_hash(&self) -> (hash: Hash32)
        ensures
            hash == self.spec_definition_hash(),
    {
        self.definition_hash
    }

    /// Canonical bytes: kind tag, identifier, name, definition commitment.
    pub open spec fn spec_encoding(self) -> Seq<u8> {
        seq![self.spec_kind().spec_tag()] + be32(self.spec_id().spec_get())
            + self.spec_name().spec_encoding() + self.spec_definition_hash().spec_bytes()
    }
}

impl Keyed for RegistryEntry {
    open spec fn spec_key(&self) -> int {
        registry_key(self.spec_kind(), self.spec_id())
    }

    fn key_lt(&self, other: &Self) -> bool {
        self.key_u64() < other.key_u64()
    }

    fn key_eq(&self, other: &Self) -> bool {
        self.key_u64() == other.key_u64()
    }
}

impl U64Keyed for RegistryEntry {
    fn key_u64(&self) -> u64 {
        self.kind.tag() as u64 * 4294967296 + self.id.get() as u64
    }
}

impl crate::encode::Encodable for RegistryEntry {
    open spec fn spec_encoding(&self) -> Seq<u8> {
        RegistryEntry::spec_encoding(*self)
    }

    fn encode_to(&self, output: &mut Vec<u8>) {
        put_u8(output, self.kind.tag());
        put_u32(output, self.id.get());
        self.name.encode_to(output);
        put_bytes(output, self.definition_hash.as_bytes());
        assert(output@ =~= old(output)@ + RegistryEntry::spec_encoding(*self));
    }
}

/// Project-profile construction failure.
#[derive(Clone, Debug, PartialEq, Eq)]
pub enum ProfileError {
    /// Stable name is empty, oversized, non-lowercase, or contains an invalid character.
    InvalidStableName,
    /// Domain prefix is empty, oversized, or contains an invalid character.
    InvalidDomainPrefix,
    /// Stable numeric identifiers are nonzero.
    ZeroSemanticId,
    /// Profile versions are nonzero.
    ZeroProfileVersion,
    /// Registry definitions must be content-bound.
    ZeroDefinitionHash,
    /// Every authority binding must be nonzero, including empty-registry commitments.
    ZeroProfileBinding,
    /// Additive extension evidence commitments cannot be zero placeholders.
    ZeroExtensionEvidence(&'static str),
    /// Registry entry count exceeds its deterministic bound.
    TooManyRegistryEntries,
    /// Two entries reuse one `(kind, id)` pair.
    DuplicateRegistryId {
        /// Registry namespace.
        kind: RegistryKind,
        /// Reused identifier.
        id: SemanticId,
    },
    /// Two entries in one namespace reuse one stable readable name.
    DuplicateRegistryName {
        /// Registry namespace.
        kind: RegistryKind,
        /// Reused stable name.
        name: StableName,
    },
    /// A declared root type has no matching registry entry.
    MissingRootEntry {
        /// Registry namespace.
        kind: RegistryKind,
        /// Missing identifier.
        id: SemanticId,
    },
    /// Canonical encoding or commitment failed.
    Encode(EncodeError),
}

impl ProfileError {
    /// Returns the human-readable description.
    pub fn message(&self) -> (text: &'static str)
        ensures
            text == (match *self {
                ProfileError::InvalidStableName => "invalid stable name",
                ProfileError::InvalidDomainPrefix => "invalid domain prefix",
                ProfileError::ZeroSemanticId => "semantic identifier must be nonzero",
                ProfileError::ZeroProfileVersion => "profile version must be nonzero",
                ProfileError::ZeroDefinitionHash => "registry definition hash is zero",
                ProfileError::ZeroProfileBinding => "profile binding is zero",
                ProfileError::ZeroExtensionEvidence(_) => "extension evidence hash is zero",
                ProfileError::TooManyRegistryEntries => "registry exceeds entry bound",
                ProfileError::DuplicateRegistryId { .. } => "duplicate registry identifier",
                ProfileError::DuplicateRegistryName { .. } => "duplicate registry name",
                ProfileError::MissingRootEntry { .. } => "missing root registry entry",
                ProfileError::Encode(_) => "profile encoding failed",
            }),
    {
        match self {
            ProfileError::InvalidStableName => "invalid stable name",
            ProfileError::InvalidDomainPrefix => "invalid domain prefix",
            ProfileError::ZeroSemanticId => "semantic identifier must be nonzero",
            ProfileError::ZeroProfileVersion => "profile version must be nonzero",
            ProfileError::ZeroDefinitionHash => "registry definition hash is zero",
            ProfileError::ZeroProfileBinding => "profile binding is zero",
            ProfileError::ZeroExtensionEvidence(_) => "extension evidence hash is zero",
            ProfileError::TooManyRegistryEntries => "registry exceeds entry bound",
            ProfileError::DuplicateRegistryId { .. } => "duplicate registry identifier",
            ProfileError::DuplicateRegistryName { .. } => "duplicate registry name",
            ProfileError::MissingRootEntry { .. } => "missing root registry entry",
            ProfileError::Encode(_) => "profile encoding failed",
        }
    }
}

/// Content commitments that bind the authority surface of one project profile.
#[derive(Clone, Copy, Debug, PartialEq, Eq)]
pub struct ProfileBindings {
    /// Closed state/command/context schema commitment.
    pub schema_hash: Hash32,
    /// Stable rejection and failure precedence commitment.
    pub precedence_hash: Hash32,
    /// Transition and arithmetic algorithm commitment.
    pub algorithm_hash: Hash32,
    /// Canonical codec and root-profile commitment.
    pub codec_hash: Hash32,
    /// Authoritative effect registry commitment.
    pub effect_registry_hash: Hash32,
    /// External-delivery channel registry commitment.
    pub channel_registry_hash: Hash32,
    /// Project policy and invariant commitment.
    pub policy_hash: Hash32,
}

impl ProfileBindings {
    /// No binding is the zero placeholder.
    pub open spec fn all_nonzero(self) -> bool {
        &&& !self.schema_hash.spec_is_zero()
        &&& !self.precedence_hash.spec_is_zero()
        &&& !self.algorithm_hash.spec_is_zero()
        &&& !self.codec_hash.spec_is_zero()
        &&& !self.effect_registry_hash.spec_is_zero()
        &&& !self.channel_registry_hash.spec_is_zero()
        &&& !self.policy_hash.spec_is_zero()
    }

    fn validate(self) -> (bindings: Result<Self, ProfileError>)
        ensures
            match bindings {
                Ok(b) => b == self && self.all_nonzero(),
                Err(e) => e == ProfileError::ZeroProfileBinding && !self.all_nonzero(),
            },
    {
        if self.schema_hash.is_zero() || self.precedence_hash.is_zero() || self.algorithm_hash.is_zero()
            || self.codec_hash.is_zero() || self.effect_registry_hash.is_zero()
            || self.channel_registry_hash.is_zero() || self.policy_hash.is_zero() {
            return Err(ProfileError::ZeroProfileBinding);
        }
        Ok(self)
    }

    /// Canonical bytes: the seven commitments in declaration order.
    pub open spec fn spec_encoding(self) -> Seq<u8> {
        self.schema_hash.spec_bytes() + self.precedence_hash.spec_bytes()
            + self.algorithm_hash.spec_bytes() + self.codec_hash.spec_bytes()
            + self.effect_registry_hash.spec_bytes() + self.channel_registry_hash.spec_bytes()
            + self.policy_hash.spec_bytes()
    }

    fn encode_to(&self, output: &mut Vec<u8>)
        ensures
            final(output)@ == old(output)@ + self.spec_encoding(),
    {
        put_bytes(output, self.schema_hash.as_bytes());
        put_bytes(output, self.precedence_hash.as_bytes());
        put_bytes(output, self.algorithm_hash.as_bytes());
        put_bytes(output, self.codec_hash.as_bytes());
        put_bytes(output, self.effect_registry_hash.as_bytes());
        put_bytes(output, self.channel_registry_hash.as_bytes());
        put_bytes(output, self.policy_hash.as_bytes());
        assert(output@ =~= old(output)@ + self.spec_encoding());
    }
}

/// Entries `i` and `j` share a namespace and a readable name.
pub open spec fn names_clash(entries: Seq<RegistryEntry>, i: int, j: int) -> bool {
    entries[i].spec_kind() == entries[j].spec_kind() && entries[i].spec_name().spec_chars()
        == entries[j].spec_name().spec_chars()
}

/// Entry `j` reuses the namespace and name of an earlier entry.
pub open spec fn clashes_with_earlier(entries: Seq<RegistryEntry>, j: int) -> bool {
    exists|i: int| 0 <= i < j && #[trigger] names_clash(entries, i, j)
}

/// `j` is the first entry that reuses an earlier namespace and name.
pub open spec fn is_first_name_clash(entries: Seq<RegistryEntry>, j: int) -> bool {
    &&& 0 <= j < entries.len()
    &&& clashes_with_earlier(entries, j)
    &&& forall|k: int| 0 <= k < j ==> !#[trigger] clashes_with_earlier(entries, k)
}

/// Some entry reuses an earlier namespace and name.
pub open spec fn has_name_clash(entries: Seq<RegistryEntry>) -> bool {
    exists|j: int| 0 <= j < entries.len() && #[trigger] clashes_with_earlier(entries, j)
}

/// Some entry declares this namespace and identifier.
pub open spec fn declares(entries: Seq<RegistryEntry>, kind: RegistryKind, id: SemanticId) -> bool {
    has_key(entries, registry_key(kind, id))
}

/// An entry of the list with the given registry key.
pub open spec fn entry_with_key(entries: Seq<RegistryEntry>, key: int) -> RegistryEntry {
    entries[choose|i: int| 0 <= i < entries.len() && entries[i].spec_key() == key]
}

/// Why a profile declaration is refused, if it is: version, entry bound,
/// bindings, duplicate identifiers, duplicate names, then the three root entries.
pub open spec fn profile_error(
    version: u32,
    state_type: SemanticId,
    command_type: SemanticId,
    context_type: SemanticId,
    bindings: ProfileBindings,
    entries: Seq<RegistryEntry>,
) -> Option<ProfileError> {
    let canonical = canonical_order(entries);
    if version == 0 {
        Some(ProfileError::ZeroProfileVersion)
    } else if entries.len() > MAX_REGISTRY_ENTRIES {
        Some(ProfileError::TooManyRegistryEntries)
    } else if !bindings.all_nonzero() {
        Some(ProfileError::ZeroProfileBinding)
    } else if has_duplicate_key(entries) {
        let reused = entry_with_key(entries, least_duplicated_key(entries));
        Some(ProfileError::DuplicateRegistryId { kind: reused.spec_kind(), id: reused.spec_id() })
    } else if has_name_clash(canonical) {
        let j = choose|j: int| is_first_name_clash(canonical, j);
        Some(ProfileError::DuplicateRegistryName {
            kind: canonical[j].spec_kind(),
            name: canonical[j].spec_name(),
        })
    } else if !declares(entries, RegistryKind::StateType, state_type) {
        Some(ProfileError::MissingRootEntry { kind: RegistryKind::StateType, id: state_type })
    } else if !declares(entries, RegistryKind::CommandType, command_type) {
        Some(ProfileError::MissingRootEntry { kind: RegistryKind::CommandType, id: command_type })
    } else if !declares(entries, RegistryKind::ContextType, context_type) {
        Some(ProfileError::MissingRootEntry { kind: RegistryKind::ContextType, id: context_type })
    } else {
        None
    }
}

fn key_of(kind: RegistryKind, id: SemanticId) -> (key: u64)
    ensures
        key == registry_key(kind, id),
{
    kind.tag() as u64 * 4294967296 + id.get() as u64
}

/// In a strictly ordered registry an entry is determined by its key.
proof fn lemma_unique_key(entries: Seq<RegistryEntry>, i: int, key: int)
    requires
        strictly_sorted_by_key(entries),
        0 <= i < entries.len(),
        entries[i].spec_key() == key,
    ensures
        entry_with_key(entries, key) == entries[i],
{
    let j = choose|j: int| 0 <= j < entries.len() && entries[j].spec_key() == key;
    assert(0 <= j < entries.len() && entries[j].spec_key() == key);
    if j < i {
        assert(entries[j].spec_key() < entries[i].spec_key());
    } else if i < j {
        assert(entries[i].spec_key() < entries[j].spec_key());
    }
}

/// The magic prefix of canonical project-profile bytes.
pub open spec fn project_magic() -> Seq<u8> {
    seq![90u8, 70u8, 67u8, 73u8, 83u8, 45u8, 80u8, 82u8, 79u8, 74u8, 69u8, 67u8, 84u8, 0u8]
}

fn put_project_magic(output: &mut Vec<u8>)
    ensures
        final(output)@ == old(output)@ + project_magic(),
{
    output.push(90);
    output.push(70);
    output.push(67);
    output.push(73);
    output.push(83);
    output.push(45);
    output.push(80);
    output.push(82);
    output.push(79);
    output.push(74);
    output.push(69);
    output.push(67);
    output.push(84);
    output.push(0);
    assert(output@ =~= old(output)@ + project_magic());
}

/// The commitment domain label of project profiles.
pub open spec fn project_domain() -> Seq<u8> {
    seq![
        122u8, 101u8, 110u8, 111u8, 45u8, 102u8, 99u8, 105u8, 115u8, 47u8, 112u8, 114u8, 111u8,
        106u8, 101u8, 99u8, 116u8, 45u8, 112u8, 114u8, 111u8, 102u8, 105u8, 108u8, 101u8,
    ]
}

/// Project-neutral versioned protocol profile.
#[derive(Debug, PartialEq, Eq)]
pub struct ProjectProfile {
    project: StableName,
    subsystem: StableName,
    profile_id: SemanticId,
    version: u32,
    state_type: SemanticId,
    command_type: SemanticId,
    context_type: SemanticId,
    domain_prefix: DomainPrefix,
    bindings: ProfileBindings,
    entries: Vec<RegistryEntry>,
}

impl ProjectProfile {
    /// Every profile is admitted: nonzero version, bounded registry in
    /// canonical order without reused names, nonzero bindings, declared roots.
    #[verifier::type_invariant]
    spec fn admitted(self) -> bool {
        &&& self.version != 0
        &&& self.entries@.len() <= MAX_REGISTRY_ENTRIES
        &&& self.bindings.all_nonzero()
        &&& strictly_sorted_by_key(self.entries@)
        &&& !has_name_clash(self.entries@)
        &&& declares(self.entries@, RegistryKind::StateType, self.state_type)
        &&& declares(self.entries@, RegistryKind::CommandType, self.command_type)
        &&& declares(self.entries@, RegistryKind::ContextType, self.context_type)
    }

    /// The project name.
    pub closed spec fn spec_project(self) -> StableName {
        self.project
    }

    /// The subsystem name.
    pub closed spec fn spec_subsystem(self) -> StableName {
        self.subsystem
    }

    /// The profile family identifier.
    pub closed spec fn spec_profile_id(self) -> SemanticId {
        self.profile_id
    }

    /// The profile version.
    pub closed spec fn spec_version(self) -> u32 {
        self.version
    }

    /// The root state type.
    pub closed spec fn spec_state_type(self) -> SemanticId {
        self.state_type
    }

    /// The root command type.
    pub closed spec fn spec_command_type(self) -> SemanticId {
        self.command_type
    }

    /// The root context type.
    pub closed spec fn spec_context_type(self) -> SemanticId {
        self.context_type
    }

    /// The domain prefix.
    pub closed spec fn spec_domain_prefix(self) -> DomainPrefix {
        self.domain_prefix
    }

    /// The authority bindings.
    pub closed spec fn spec_bindings(self) -> ProfileBindings {
        self.bindings
    }

    /// Registry entries in canonical `(kind, id)` order.
    pub closed spec fn spec_entries(self) -> Seq<RegistryEntry> {
        self.entries@
    }

    /// Creates, validates, and canonicalizes one complete project profile.
    pub fn try_new(
        project: StableName,
        subsystem: StableName,
        profile_id: SemanticId,
        version: u32,
        state_type: SemanticId,
        command_type: SemanticId,
        context_type: SemanticId,
        domain_prefix: DomainPrefix,
        bindings: ProfileBindings,
        entries: Vec<RegistryEntry>,
    ) -> (profile: Result<Self, ProfileError>)
        ensures
            match profile_error(version, state_type, command_type, context_type, bindings, entries@) {
                Some(e) => profile == Err::<Self, ProfileError>(e),
                None => profile matches Ok(p) && p.spec_project() == project && p.spec_subsystem()
                    == subsystem && p.spec_profile_id() == profile_id && p.spec_version() == version
                    && p.spec_state_type() == state_type && p.spec_command_type() == command_type
                    && p.spec_context_type() == context_type && p.spec_domain_prefix()
                    == domain_prefix && p.spec_bindings() == bindings && p.spec_entries()
                    == canonical_order(entries@),
            },
    {
        if version == 0 {
            return Err(ProfileError::ZeroProfileVersion);
        }
        if entries.len() > MAX_REGISTRY_ENTRIES {
            return Err(ProfileError::TooManyRegistryEntries);
        }
        let checked_bindings = bindings.validate()?;
        let ghost declared = entries@;
        let sorted = sort_by_key(entries);
        proof {
            lemma_duplicate_key_multiset(sorted@, declared);
        }
        match first_adjacent_duplicate(&sorted) {
            Some(index) => {
                let kind = sorted[index].kind();
                let id = sorted[index].id();
                proof {
                    let key = sorted@[index as int].spec_key();
                    lemma_least_duplicated_key(sorted@, key);
                    lemma_least_duplicated_key_multiset(sorted@, declared);
                    crate::sort::lemma_member_moves(sorted@, declared, index as int);
                    let w = choose|w: int| 0 <= w < declared.len() && declared[w] == sorted@[index as int];
                    assert(0 <= w < declared.len() && declared[w].spec_key() == key);
                    let reused = entry_with_key(declared, key);
                    lemma_registry_key_injective(reused.spec_kind(), reused.spec_id(), kind, id);
                }
                return Err(ProfileError::DuplicateRegistryId { kind, id });
            },
            None => {},
        }
        proof {
            lemma_canonical_order(declared, sorted@);
        }
        let mut later: usize = 0;
        while later < sorted.len()
            invariant
                later <= sorted@.len(),
                sorted@ == canonical_order(declared),
                declared == entries@,
                version != 0,
                declared.len() <= MAX_REGISTRY_ENTRIES,
                bindings.all_nonzero(),
                checked_bindings == bindings,
                !has_duplicate_key(declared),
                forall|k: int| 0 <= k < later ==> !#[trigger] clashes_with_earlier(sorted@, k),
            decreases sorted@.len() - later,
        {
            let mut earlier: usize = 0;
            while earlier < later
                invariant
                    earlier <= later < sorted@.len(),
                    version != 0,
                    declared.len() <= MAX_REGISTRY_ENTRIES,
                    bindings.all_nonzero(),
                    checked_bindings == bindings,
                    !has_duplicate_key(declared),
                    forall|a: int| 0 <= a < earlier ==> !#[trigger] names_clash(sorted@, a, later as int),
                    sorted@ == canonical_order(declared),
                    declared == entries@,
                    forall|k: int| 0 <= k < later ==> !#[trigger] clashes_with_earlier(sorted@, k),
                decreases later - earlier,
            {
                if sorted[earlier].kind() == sorted[later].kind() && sorted[earlier].name().same_as(
                    sorted[later].name(),
                ) {
                    let name = sorted[later].name().clone();
                    let kind = sorted[later].kind();
                    proof {
                        let s = sorted@;
                        assert(names_clash(s, earlier as int, later as int));
                        assert(is_first_name_clash(s, later as int));
                        assert(has_name_clash(s));
                        let j = choose|j: int| is_first_name_clash(s, j);
                        if j < later {
                        } else if j > later {
                            assert(!clashes_with_earlier(s, later as int));
                        }
                        assert(j == later);
                    }
                    return Err(ProfileError::DuplicateRegistryName { kind, name });
                }
                earlier = earlier + 1;
            }
            later = later + 1;
        }
        proof {
            assert(!has_name_clash(sorted@));
            crate::sort::lemma_has_key_multiset(sorted@, declared, registry_key(RegistryKind::StateType, state_type));
            crate::sort::lemma_has_key_multiset(sorted@, declared, registry_key(RegistryKind::CommandType, command_type));
            crate::sort::lemma_has_key_multiset(sorted@, declared, registry_key(RegistryKind::ContextType, context_type));
        }
        if find_key(&sorted, key_of(RegistryKind::StateType, state_type)).is_none() {
            return Err(ProfileError::MissingRootEntry { kind: RegistryKind::StateType, id: state_type });
        }
        if find_key(&sorted, key_of(RegistryKind::CommandType, command_type)).is_none() {
            return Err(ProfileError::MissingRootEntry { kind: RegistryKind::CommandType, id: command_type });
        }
        if find_key(&sorted, key_of(RegistryKind::ContextType, context_type)).is_none() {
            return Err(ProfileError::MissingRootEntry { kind: RegistryKind::ContextType, id: context_type });
        }
        Ok(ProjectProfile {
            project,
            subsystem,
            profile_id,
            version,
            state_type,
            command_type,
            context_type,
            domain_prefix,
            bindings: checked_bindings,
            entries: sorted,
        })
    }

    /// Returns the project name.
    pub fn project(&self) -> (project: &StableName)
        ensures
            *project == self.spec_project(),
    {
        &self.project
    }

    /// Returns the subsystem or bounded-context name.
    pub fn subsystem(&self) -> (subsystem: &StableName)
        ensures
            *subsystem == self.spec_subsystem(),
    {
        &self.subsystem
    }

    /// Returns the stable profile family identifier.
    pub fn profile_id(&self) -> (id: SemanticId)
        ensures
            id == self.spec_profile_id(),
    {
        self.profile_id
    }

    /// Returns the monotonic profile version.
    pub fn version(&self) -> (version: u32)
        ensures
            version == self.spec_version(),
            version != 0,
    {
        proof {
            use_type_invariant(self);
        }
        self.version
    }

    /// Returns the root state type.
    pub fn state_type(&self) -> (id: SemanticId)
        ensures
            id == self.spec_state_type(),
    {
        self.state_type
    }

    /// Returns the root command type.
    pub fn command_type(&self) -> (id: SemanticId)
        ensures
            id == self.spec_command_type(),
    {
        self.command_type
    }

    /// Returns the root authenticated context type.
    pub fn context_type(&self) -> (id: SemanticId)
        ensures
            id == self.spec_context_type(),
    {
        self.context_type
    }

    /// Returns the project domain prefix.
    pub fn domain_prefix(&self) -> (prefix: &DomainPrefix)
        ensures
            *prefix == self.spec_domain_prefix(),
    {
        &self.domain_prefix
    }

    /// Returns the bound authority commitments.
    pub fn bindings(&self) -> (bindings: ProfileBindings)
        ensures
            bindings == self.spec_bindings(),
            bindings.all_nonzero(),
    {
        proof {
            use_type_invariant(self);
        }
        self.bindings
    }

    /// Returns registry entries in canonical `(kind, id)` order.
    pub fn entries(&self) -> (entries: &[RegistryEntry])
        ensures
            entries@ == self.spec_entries(),
            strictly_sorted_by_key(entries@),
    {
        proof {
            use_type_invariant(self);
        }
        self.entries.as_slice()
    }

    /// Looks up one stable registry entry.
    pub fn entry(&self, kind: RegistryKind, id: SemanticId) -> (entry: Option<&RegistryEntry>)
        ensures
            entry is Some <==> declares(self.spec_entries(), kind, id),
            entry matches Some(e) ==> *e == entry_with_key(self.spec_entries(), registry_key(kind, id)),
    {
        proof {
            use_type_invariant(self);
        }
        match find_key(&self.entries, key_of(kind, id)) {
            Some(index) => {
                proof {
                    lemma_unique_key(self.entries@, index as int, registry_key(kind, id));
                }
                Some(&self.entries[index])
            },
            None => None,
        }
    }

    /// Canonical bytes of the profile.
    pub open spec fn spec_encoding(self) -> Seq<u8> {
        project_magic() + be16(PROJECT_PROFILE_FORMAT_VERSION) + self.spec_project().spec_encoding()
            + self.spec_subsystem().spec_encoding() + be32(self.spec_profile_id().spec_get()) + be32(
            self.spec_version(),
        ) + be32(self.spec_state_type().spec_get()) + be32(self.spec_command_type().spec_get())
            + be32(self.spec_context_type().spec_get()) + self.spec_domain_prefix().spec_encoding()
            + self.spec_bindings().spec_encoding() + be32(self.spec_entries().len() as u32)
            + encode_all(self.spec_entries())
    }

    /// Appends the canonical bytes of the profile.
    pub fn encode_to(&self, output: &mut Vec<u8>) -> (result: Result<(), EncodeError>)
        ensures
            result is Ok,
            final(output)@ == old(output)@ + self.spec_encoding(),
    {
        put_project_magic(output);
        put_u16(output, PROJECT_PROFILE_FORMAT_VERSION);
        self.project.encode_to(output);
        self.subsystem.encode_to(output);
        put_u32(output, self.profile_id.get());
        put_u32(output, self.version);
        put_u32(output, self.state_type.get());
        put_u32(output, self.command_type.get());
        put_u32(output, self.context_type.get());
        self.domain_prefix.encode_to(output);
        self.bindings.encode_to(output);
        put_u32(output, self.entries.len() as u32);
        crate::encode::encode_each(self.entries.as_slice(), output);
        assert(output@ =~= old(output)@ + self.spec_encoding());
        Ok(())
    }

    /// Canonical bytes of the profile.
    pub fn canonical_bytes(&self) -> (bytes: Result<Vec<u8>, EncodeError>)
        ensures
            bytes matches Ok(b) && b@ == self.spec_encoding(),
    {
        let mut output: Vec<u8> = Vec::new();
        let _ = self.encode_to(&mut output);
        assert(output@ =~= self.spec_encoding());
        Ok(output)
    }

    /// The bytes a profile commitment hashes: the canonical bytes framed under
    /// the project-profile domain.
    pub fn commitment_bytes(&self) -> (bytes: Vec<u8>)
        ensures
            bytes@ == commitment_preimage(project_domain(), PROJECT_PROFILE_FORMAT_VERSION, self.spec_encoding()),
    {
        let mut encoded: Vec<u8> = Vec::new();
        let _ = self.encode_to(&mut encoded);
        assert(encoded@ =~= self.spec_encoding());
        let label: Vec<u8> = vec![
            122u8, 101u8, 110u8, 111u8, 45u8, 102u8, 99u8, 105u8, 115u8, 47u8, 112u8, 114u8, 111u8,
            106u8, 101u8, 99u8, 116u8, 45u8, 112u8, 114u8, 111u8, 102u8, 105u8, 108u8, 101u8,
        ];
        assert(label@ =~= project_domain());
        frame_commitment(label.as_slice(), PROJECT_PROFILE_FORMAT_VERSION, encoded.as_slice())
    }

    /// Computes the complete content-derived profile commitment: the hash of
    /// exactly the bytes that `commitment_bytes` returns.
    pub fn commitment<H: CommitmentHasher>(&self) -> (hash: Result<Hash32, ProfileError>)
        ensures
            hash == Ok::<Hash32, ProfileError>(
                H::spec_hash(commitment_preimage(project_domain(), PROJECT_PROFILE_FORMAT_VERSION, self.spec_encoding())),
            ),
    {
        let bytes = self.commitment_bytes();
        Ok(H::hash(bytes.as_slice()))
    }
}

/// Declaration order of registry entries never changes a profile: two
/// orderings of the same entries are refused for the same reason or admitted
/// with the same canonical registry.
pub proof fn lemma_profile_history_independent(
    version: u32,
    state_type: SemanticId,
    command_type: SemanticId,
    context_type: SemanticId,
    bindings: ProfileBindings,
    entries: Seq<RegistryEntry>,
    reordered: Seq<RegistryEntry>,
)
    requires
        entries.to_multiset() == reordered.to_multiset(),
    ensures
        profile_error(version, state_type, command_type, context_type, bindings, entries)
            == profile_error(version, state_type, command_type, context_type, bindings, reordered),
        canonical_order(entries) == canonical_order(reordered),
{
    broadcast use vstd::seq_lib::group_to_multiset_ensures;

    assert(entries.to_multiset().len() == entries.len());
    assert(reordered.to_multiset().len() == reordered.len());
    lemma_duplicate_key_multiset(entries, reordered);
    lemma_least_duplicated_key_multiset(entries, reordered);
    crate::sort::lemma_canonical_order_multiset(entries, reordered);
    crate::sort::lemma_has_key_multiset(entries, reordered, registry_key(RegistryKind::StateType, state_type));
    crate::sort::lemma_has_key_multiset(entries, reordered, registry_key(RegistryKind::CommandType, command_type));
    crate::sort::lemma_has_key_multiset(entries, reordered, registry_key(RegistryKind::ContextType, context_type));
    if has_duplicate_key(entries) {
        let (i, j) = choose|i: int, j: int|
            0 <= i < entries.len() && 0 <= j < entries.len() && i != j && entries[i].spec_key()
                == entries[j].spec_key();
        assert(crate::sort::is_duplicated_key(entries, entries[i].spec_key()));
        crate::sort::lemma_least_duplicated_key_exists(entries, entries[i].spec_key());
        let key = least_duplicated_key(entries);
        assert(is_least_duplicated_key(entries, key));
        crate::sort::lemma_duplicated_key_member(entries, key);
        let a = entry_with_key(entries, key);
        let b = entry_with_key(reordered, key);
        crate::sort::lemma_has_key_multiset(entries, reordered, key);
        assert(a.spec_key() == key);
        assert(b.spec_key() == key);
        lemma_registry_key_injective(a.spec_kind(), a.spec_id(), b.spec_kind(), b.spec_id());
    }
}

/// The optional commitment is the zero placeholder.
pub open spec fn is_zero_evidence(hash: Option<Hash32>) -> bool {
    hash matches Some(h) && h.spec_is_zero()
}

/// Why extension evidence is refused, if it is: the first zero placeholder
/// among the schema, effect-registry and channel-registry commitments.
pub open spec fn extension_evidence_error(
    schema: Option<Hash32>,
    effect_registry: Option<Hash32>,
    channel_registry: Option<Hash32>,
) -> Option<ProfileError> {
    if is_zero_evidence(schema) {
        Some(ProfileError::ZeroExtensionEvidence("schema"))
    } else if is_zero_evidence(effect_registry) {
        Some(ProfileError::ZeroExtensionEvidence("effect-registry"))
    } else if is_zero_evidence(channel_registry) {
        Some(ProfileError::ZeroExtensionEvidence("channel-registry"))
    } else {
        None
    }
}

fn zero_evidence(hash: Option<Hash32>) -> (zero: bool)
    ensures
        zero == is_zero_evidence(hash),
{
    match hash {
        Some(h) => h.is_zero(),
        None => false,
    }
}

/// Reviewed compatibility evidence for additive authority-surface extensions.
///
/// An evidence hash commits an independently reviewed compatibility argument.
/// It is required only when the corresponding profile binding changes, and it
/// grants no authority unless the successor also adds an entry in that exact
/// registry namespace.
#[derive(Clone, Copy, Debug, PartialEq, Eq)]
pub struct AdditiveExtensionEvidence {
    schema: Option<Hash32>,
    effect_registry: Option<Hash32>,
    channel_registry: Option<Hash32>,
}

impl AdditiveExtensionEvidence {
    /// The schema-extension evidence.
    pub closed spec fn spec_schema(self) -> Option<Hash32> {
        self.schema
    }

    /// The effect-registry extension evidence.
    pub closed spec fn spec_effect_registry(self) -> Option<Hash32> {
        self.effect_registry
    }

    /// The channel-registry extension evidence.
    pub closed spec fn spec_channel_registry(self) -> Option<Hash32> {
        self.channel_registry
    }

    /// Evidence for no binding change.
    pub closed spec fn spec_none() -> Self {
        AdditiveExtensionEvidence { schema: None, effect_registry: None, channel_registry: None }
    }

    /// No authority-surface binding changes are intended.
    pub fn none() -> (evidence: Self)
        ensures
            evidence == Self::spec_none(),
            evidence.spec_schema() is None,
            evidence.spec_effect_registry() is None,
            evidence.spec_channel_registry() is None,
    {
        AdditiveExtensionEvidence { schema: None, effect_registry: None, channel_registry: None }
    }

    /// Creates extension evidence, rejecting zero placeholder commitments.
    pub fn try_new(
        schema: Option<Hash32>,
        effect_registry: Option<Hash32>,
        channel_registry: Option<Hash32>,
    ) -> (evidence: Result<Self, ProfileError>)
        ensures
            match extension_evidence_error(schema, effect_registry, channel_registry) {
                Some(e) => evidence == Err::<Self, ProfileError>(e),
                None => evidence matches Ok(v) && v.spec_schema() == schema
                    && v.spec_effect_registry() == effect_registry && v.spec_channel_registry()
                    == channel_registry,
            },
    {
        if zero_evidence(schema) {
            return Err(ProfileError::ZeroExtensionEvidence("schema"));
        }
        if zero_evidence(effect_registry) {
            return Err(ProfileError::ZeroExtensionEvidence("effect-registry"));
        }
        if zero_evidence(channel_registry) {
            return Err(ProfileError::ZeroExtensionEvidence("channel-registry"));
        }
        Ok(AdditiveExtensionEvidence { schema, effect_registry, channel_registry })
    }

    /// Returns the reviewed schema-extension evidence commitment.
    pub fn schema(self) -> (hash: Option<Hash32>)
        ensures
            hash == self.spec_schema(),
    {
        self.schema
    }

    /// Returns the reviewed effect-registry extension evidence commitment.
    pub fn effect_registry(self) -> (hash: Option<Hash32>)
        ensures
            hash == self.spec_effect_registry(),
    {
        self.effect_registry
    }

    /// Returns the reviewed channel-registry extension evidence commitment.
    pub fn channel_registry(self) -> (hash: Option<Hash32>)
        ensures
            hash == self.spec_channel_registry(),
    {
        self.channel_registry
    }

    /// Canonical bytes: each optional commitment as a presence flag and its bytes.
    pub open spec fn spec_encoding(self) -> Seq<u8> {
        optional_hash_encoding(self.spec_schema()) + optional_hash_encoding(
            self.spec_effect_registry(),
        ) + optional_hash_encoding(self.spec_channel_registry())
    }

    fn encode_to(&self, output: &mut Vec<u8>)
        ensures
            final(output)@ == old(output)@ + self.spec_encoding(),
    {
        encode_optional_hash(output, self.schema);
        encode_optional_hash(output, self.effect_registry);
        encode_optional_hash(output, self.channel_registry);
        assert(output@ =~= old(output)@ + self.spec_encoding());
    }
}

impl Default for AdditiveExtensionEvidence {
    fn default() -> (evidence: Self)
        ensures
            evidence.spec_schema() is None,
            evidence.spec_effect_registry() is None,
            evidence.spec_channel_registry() is None,
    {
        AdditiveExtensionEvidence::none()
    }
}

/// A presence flag followed by the commitment bytes when present.
pub open spec fn optional_hash_encoding(hash: Option<Hash32>) -> Seq<u8> {
    match hash {
        Some(h) => seq![1u8] + h.spec_bytes(),
        None => seq![0u8],
    }
}

fn encode_optional_hash(output: &mut Vec<u8>, hash: Option<Hash32>)
    ensures
        final(output)@ == old(output)@ + optional_hash_encoding(hash),
{
    match hash {
        Some(h) => {
            put_u8(output, 1);
            put_bytes(output, h.as_bytes());
        },
        None => put_u8(output, 0),
    }
    assert(output@ =~= old(output)@ + optional_hash_encoding(hash));
}

/// How a successor profile is intended to relate to its predecessor.
#[derive(Clone, Copy, Debug, PartialEq, Eq)]
pub enum EvolutionMode {
    /// Existing identifiers remain unchanged and reviewed extensions may be added.
    Additive {
        /// Evidence for each authority binding that changes.
        evidence: AdditiveExtensionEvidence,
    },
    /// A reviewed migration explicitly translates old values and semantics.
    Migrated {
        /// Nonzero migration-specification commitment.
        migration_hash: Hash32,
    },
}

impl EvolutionMode {
    /// Creates an additive mode with no authority-surface binding changes.
    pub fn additive() -> (mode: Self)
        ensures
            mode matches EvolutionMode::Additive { evidence } && evidence.spec_schema() is None
                && evidence.spec_effect_registry() is None && evidence.spec_channel_registry() is None,
    {
        EvolutionMode::Additive { evidence: AdditiveExtensionEvidence::none() }
    }

    /// Canonical bytes: a mode tag, then the evidence or migration commitment.
    pub open spec fn spec_encoding(self) -> Seq<u8> {
        match self {
            EvolutionMode::Additive { evidence } => seq![0u8] + evidence.spec_encoding(),
            EvolutionMode::Migrated { migration_hash } => seq![1u8] + migration_hash.spec_bytes(),
        }
    }

    fn encode_to(&self, output: &mut Vec<u8>)
        ensures
            final(output)@ == old(output)@ + self.spec_encoding(),
    {
        match self {
            EvolutionMode::Additive { evidence } => {
                put_u8(output, 0);
                evidence.encode_to(output);
            },
            EvolutionMode::Migrated { migration_hash } => {
                put_u8(output, 1);
                put_bytes(output, migration_hash.as_bytes());
            },
        }
        assert(output@ =~= old(output)@ + self.spec_encoding());
    }
}

/// One incompatibility discovered between profile revisions.
#[derive(Clone, Copy, Debug, PartialEq, Eq)]
pub enum CompatibilityBlocker {
    /// The successor names a different project.
    DifferentProject,
    /// The successor names a different subsystem.
    DifferentSubsystem,
    /// The stable profile family identifier changed.
    DifferentProfileId,
    /// The successor version is not strictly greater.
    NonIncreasingVersion,
    /// Additive evolution changed a root type.
    RootTypeChanged,
    /// Additive evolution changed an existing authority binding.
    BindingChanged(&'static str),
    /// An extendable binding changed without reviewed compatibility evidence.
    UnprovenBindingChange(&'static str),
    /// Extension evidence was supplied although the corresponding binding is unchanged.
    UnexpectedExtensionEvidence(&'static str),
    /// A binding changed without adding an entry in its corresponding namespace.
    BindingChangedWithoutRegistryAddition(&'static str),
    /// An existing stable entry was removed.
    RemovedEntry {
        /// Registry namespace.
        kind: RegistryKind,
        /// Stable identifier.
        id: SemanticId,
    },
    /// An existing stable identifier was rebound to a new name or definition.
    ReboundEntry {
        /// Registry namespace.
        kind: RegistryKind,
        /// Stable identifier.
        id: SemanticId,
    },
    /// Migrated evolution omitted its migration commitment.
    MissingMigrationHash,
}

/// Deterministic compatibility evaluation.
#[derive(Clone, Debug, PartialEq, Eq)]
pub struct CompatibilityReport {
    blockers: Vec<CompatibilityBlocker>,
}

impl CompatibilityReport {
    /// Blockers in deterministic evaluation order.
    pub closed spec fn spec_blockers(self) -> Seq<CompatibilityBlocker> {
        self.blockers@
    }

    /// Returns whether no compatibility blocker was found.
    pub fn is_compatible(&self) -> (compatible: bool)
        ensures
            compatible == (self.spec_blockers().len() == 0),
    {
        self.blockers.len() == 0
    }

    /// Returns blockers in deterministic evaluation order.
    pub fn blockers(&self) -> (blockers: &[CompatibilityBlocker])
        ensures
            blockers@ == self.spec_blockers(),
    {
        self.blockers.as_slice()
    }
}

/// The registry namespaces whose additions justify a changed binding.
#[derive(Clone, Copy, Debug, PartialEq, Eq, Structural)]
pub enum ExtensionScope {
    /// State, command and context types justify a schema change.
    Schema,
    /// Effects justify an effect-registry change.
    Effect,
    /// Channels justify a channel-registry change.
    Channel,
}

impl ExtensionScope {
    /// The namespace justifies a change of this scope's binding.
    pub open spec fn spec_admits(self, kind: RegistryKind) -> bool {
        match self {
            ExtensionScope::Schema => kind == RegistryKind::StateType || kind == RegistryKind::CommandType
                || kind == RegistryKind::ContextType,
            ExtensionScope::Effect => kind == RegistryKind::Effect,
            ExtensionScope::Channel => kind == RegistryKind::Channel,
        }
    }

    fn admits(self, kind: RegistryKind) -> (admitted: bool)
        ensures
            admitted == self.spec_admits(kind),
    {
        match self {
            ExtensionScope::Schema => match kind {
                RegistryKind::StateType | RegistryKind::CommandType | RegistryKind::ContextType => true,
                _ => false,
            },
            ExtensionScope::Effect => kind == RegistryKind::Effect,
            ExtensionScope::Channel => kind == RegistryKind::Channel,
        }
    }
}

/// The single blocker when the condition holds, otherwise nothing.
pub open spec fn blocker_when(condition: bool, blocker: CompatibilityBlocker) -> Seq<CompatibilityBlocker> {
    if condition {
        seq![blocker]
    } else {
        Seq::empty()
    }
}

/// The successor adds an entry, absent from the predecessor, in a namespace of the scope.
pub open spec fn has_registry_addition(
    previous: Seq<RegistryEntry>,
    next: Seq<RegistryEntry>,
    scope: ExtensionScope,
) -> bool {
    exists|i: int|
        0 <= i < next.len() && scope.spec_admits(#[trigger] next[i].spec_kind()) && !has_key(
            previous,
            next[i].spec_key(),
        )
}

/// Blockers for one binding that reviewed evidence may extend.
pub open spec fn extendable_blockers(
    previous: Seq<RegistryEntry>,
    next: Seq<RegistryEntry>,
    previous_binding: Hash32,
    next_binding: Hash32,
    evidence: Option<Hash32>,
    label: &'static str,
    scope: ExtensionScope,
) -> Seq<CompatibilityBlocker> {
    if previous_binding.spec_bytes() == next_binding.spec_bytes() {
        blocker_when(evidence is Some, CompatibilityBlocker::UnexpectedExtensionEvidence(label))
    } else if evidence is None {
        seq![CompatibilityBlocker::UnprovenBindingChange(label)]
    } else {
        blocker_when(
            !has_registry_addition(previous, next, scope),
            CompatibilityBlocker::BindingChangedWithoutRegistryAddition(label),
        )
    }
}

/// The blocker for one predecessor entry: removed, rebound, or none.
pub open spec fn entry_blocker(entry: RegistryEntry, next: Seq<RegistryEntry>) -> Seq<CompatibilityBlocker> {
    if !has_key(next, entry.spec_key()) {
        seq![CompatibilityBlocker::RemovedEntry { kind: entry.spec_kind(), id: entry.spec_id() }]
    } else {
        let successor = entry_with_key(next, entry.spec_key());
        blocker_when(
            successor.spec_name().spec_chars() != entry.spec_name().spec_chars()
                || successor.spec_definition_hash().spec_bytes()
                != entry.spec_definition_hash().spec_bytes(),
            CompatibilityBlocker::ReboundEntry { kind: entry.spec_kind(), id: entry.spec_id() },
        )
    }
}

/// Blockers for every predecessor entry, in predecessor order.
pub open spec fn entry_blockers(previous: Seq<RegistryEntry>, next: Seq<RegistryEntry>) -> Seq<
    CompatibilityBlocker,
>
    decreases previous.len(),
{
    if previous.len() == 0 {
        Seq::empty()
    } else {
        entry_blockers(previous.drop_last(), next) + entry_blocker(previous.last(), next)
    }
}

/// Blockers that depend on the evolution mode.
pub open spec fn mode_blockers(previous: ProjectProfile, next: ProjectProfile, mode: EvolutionMode) -> Seq<
    CompatibilityBlocker,
> {
    let old_bindings = previous.spec_bindings();
    let new_bindings = next.spec_bindings();
    match mode {
        EvolutionMode::Additive { evidence } => fixed_blockers(previous, next) + extendable_blockers(
            previous.spec_entries(),
            next.spec_entries(),
            old_bindings.schema_hash,
            new_bindings.schema_hash,
            evidence.spec_schema(),
            "schema",
            ExtensionScope::Schema,
        ) + extendable_blockers(
            previous.spec_entries(),
            next.spec_entries(),
            old_bindings.effect_registry_hash,
            new_bindings.effect_registry_hash,
            evidence.spec_effect_registry(),
            "effect-registry",
            ExtensionScope::Effect,
        ) + extendable_blockers(
            previous.spec_entries(),
            next.spec_entries(),
            old_bindings.channel_registry_hash,
            new_bindings.channel_registry_hash,
            evidence.spec_channel_registry(),
            "channel-registry",
            ExtensionScope::Channel,
        ) + entry_blockers(previous.spec_entries(), next.spec_entries()),
        EvolutionMode::Migrated { migration_hash } => blocker_when(
            migration_hash.spec_is_zero(),
            CompatibilityBlocker::MissingMigrationHash,
        ),
    }
}

/// Each predecessor entry's own blockers are among those of the whole list.
proof fn lemma_entry_blockers_contain(previous: Seq<RegistryEntry>, next: Seq<RegistryEntry>, i: int, blocker: CompatibilityBlocker)
    requires
        0 <= i < previous.len(),
        entry_blocker(previous[i], next).contains(blocker),
    ensures
        entry_blockers(previous, next).contains(blocker),
    decreases previous.len(),
{
    let before = entry_blockers(previous.drop_last(), next);
    let last = entry_blocker(previous.last(), next);
    assert(entry_blockers(previous, next) == before + last);
    if i == previous.len() - 1 {
        let k = choose|k: int| 0 <= k < last.len() && last[k] == blocker;
        assert((before + last)[before.len() + k] == blocker);
    } else {
        assert(previous.drop_last()[i] == previous[i]);
        lemma_entry_blockers_contain(previous.drop_last(), next, i, blocker);
        let k = choose|k: int| 0 <= k < before.len() && before[k] == blocker;
        assert((before + last)[k] == blocker);
    }
}

/// The blockers of an additive evolution include every predecessor entry's.
proof fn lemma_additive_entry_blocker(
    previous: ProjectProfile,
    next: ProjectProfile,
    mode: EvolutionMode,
    i: int,
    blocker: CompatibilityBlocker,
)
    requires
        mode is Additive,
        0 <= i < previous.spec_entries().len(),
        entry_blocker(previous.spec_entries()[i], next.spec_entries()).contains(blocker),
    ensures
        successor_blockers(previous, next, mode).contains(blocker),
{
    lemma_entry_blockers_contain(previous.spec_entries(), next.spec_entries(), i, blocker);
    let entries = entry_blockers(previous.spec_entries(), next.spec_entries());
    let modes = mode_blockers(previous, next, mode);
    let all = successor_blockers(previous, next, mode);
    let k = choose|k: int| 0 <= k < entries.len() && entries[k] == blocker;
    assert(modes[modes.len() - entries.len() + k] == blocker);
    assert(all[all.len() - modes.len() + (modes.len() - entries.len() + k)] == blocker);
}

/// Under an additive evolution, an identifier the predecessor declares and
/// the successor keeps must keep its stable name and its definition: if
/// either changes, the successor is refused with a rebinding blocker for it.
pub proof fn lemma_rebound_entry_refused(
    previous: ProjectProfile,
    next: ProjectProfile,
    mode: EvolutionMode,
    i: int,
    j: int,
)
    requires
        mode is Additive,
        strictly_sorted_by_key(next.spec_entries()),
        0 <= i < previous.spec_entries().len(),
        0 <= j < next.spec_entries().len(),
        next.spec_entries()[j].spec_kind() == previous.spec_entries()[i].spec_kind(),
        next.spec_entries()[j].spec_id() == previous.spec_entries()[i].spec_id(),
        next.spec_entries()[j].spec_name().spec_chars() != previous.spec_entries()[i].spec_name().spec_chars()
            || next.spec_entries()[j].spec_definition_hash().spec_bytes()
            != previous.spec_entries()[i].spec_definition_hash().spec_bytes(),
    ensures
        successor_blockers(previous, next, mode).contains(
            CompatibilityBlocker::ReboundEntry {
                kind: previous.spec_entries()[i].spec_kind(),
                id: previous.spec_entries()[i].spec_id(),
            },
        ),
{
    let entry = previous.spec_entries()[i];
    let n = next.spec_entries();
    assert(has_key(n, entry.spec_key()));
    let k = choose|k: int| 0 <= k < n.len() && n[k].spec_key() == entry.spec_key();
    assert(k == j) by {
        if k < j {
            assert(n[k].spec_key() < n[j].spec_key());
        } else if j < k {
            assert(n[j].spec_key() < n[k].spec_key());
        }
    }
    let b = CompatibilityBlocker::ReboundEntry { kind: entry.spec_kind(), id: entry.spec_id() };
    assert(entry_blocker(entry, n)[0] == b);
    lemma_additive_entry_blocker(previous, next, mode, i, b);
}

/// Under an additive evolution, an identifier the predecessor declares and
/// the successor drops refuses the successor with a removal blocker for it.
pub proof fn lemma_removed_entry_refused(previous: ProjectProfile, next: ProjectProfile, mode: EvolutionMode, i: int)
    requires
        mode is Additive,
        0 <= i < previous.spec_entries().len(),
        forall|j: int|
            0 <= j < next.spec_entries().len() ==> !(#[trigger] next.spec_entries()[j].spec_kind()
                == previous.spec_entries()[i].spec_kind() && next.spec_entries()[j].spec_id()
                == previous.spec_entries()[i].spec_id()),
    ensures
        successor_blockers(previous, next, mode).contains(
            CompatibilityBlocker::RemovedEntry {
                kind: previous.spec_entries()[i].spec_kind(),
                id: previous.spec_entries()[i].spec_id(),
            },
        ),
{
    let entry = previous.spec_entries()[i];
    let n = next.spec_entries();
    if has_key(n, entry.spec_key()) {
        let k = choose|k: int| 0 <= k < n.len() && n[k].spec_key() == entry.spec_key();
        lemma_registry_key_injective(n[k].spec_kind(), n[k].spec_id(), entry.spec_kind(), entry.spec_id());
        assert(n[k].spec_kind() == entry.spec_kind());
    }
    let b = CompatibilityBlocker::RemovedEntry { kind: entry.spec_kind(), id: entry.spec_id() };
    assert(entry_blocker(entry, n)[0] == b);
    lemma_additive_entry_blocker(previous, next, mode, i, b);
}

/// A rebinding blocker among the entry blockers names a predecessor entry
/// whose identifier the successor keeps with another stable name or
/// definition.
proof fn lemma_entry_rebound_cause(previous: Seq<RegistryEntry>, next: Seq<RegistryEntry>, kind: RegistryKind, id: SemanticId)
    requires
        entry_blockers(previous, next).contains(CompatibilityBlocker::ReboundEntry { kind, id }),
    ensures
        exists|i: int, j: int|
            0 <= i < previous.len() && 0 <= j < next.len() && #[trigger] previous[i].spec_kind() == kind
                && previous[i].spec_id() == id && #[trigger] next[j].spec_kind() == kind && next[j].spec_id() == id && (
            next[j].spec_name().spec_chars() != previous[i].spec_name().spec_chars()
                || next[j].spec_definition_hash().spec_bytes() != previous[i].spec_definition_hash().spec_bytes()),
    decreases previous.len(),
{
    let b = CompatibilityBlocker::ReboundEntry { kind, id };
    let before = entry_blockers(previous.drop_last(), next);
    let entry = previous.last();
    let last = entry_blocker(entry, next);
    assert(entry_blockers(previous, next) == before + last);
    let k = choose|k: int| 0 <= k < (before + last).len() && (before + last)[k] == b;
    if k < before.len() {
        assert(before[k] == b);
        lemma_entry_rebound_cause(previous.drop_last(), next, kind, id);
        let (i, j) = choose|i: int, j: int|
            0 <= i < previous.drop_last().len() && 0 <= j < next.len() && #[trigger] previous.drop_last()[i].spec_kind()
                == kind && previous.drop_last()[i].spec_id() == id && #[trigger] next[j].spec_kind() == kind
                && next[j].spec_id() == id && (next[j].spec_name().spec_chars()
                != previous.drop_last()[i].spec_name().spec_chars() || next[j].spec_definition_hash().spec_bytes()
                != previous.drop_last()[i].spec_definition_hash().spec_bytes());
        assert(previous[i] == previous.drop_last()[i]);
    } else {
        assert(last[k - before.len()] == b);
        assert(has_key(next, entry.spec_key()));
        let j = choose|j: int| 0 <= j < next.len() && next[j].spec_key() == entry.spec_key();
        lemma_registry_key_injective(next[j].spec_kind(), next[j].spec_id(), entry.spec_kind(), entry.spec_id());
        assert(previous[previous.len() - 1] == entry);
    }
}

proof fn lemma_concat_contains(a: Seq<CompatibilityBlocker>, b: Seq<CompatibilityBlocker>, x: CompatibilityBlocker)
    ensures
        (a + b).contains(x) <==> a.contains(x) || b.contains(x),
{
    if (a + b).contains(x) {
        let k = choose|k: int| 0 <= k < (a + b).len() && (a + b)[k] == x;
        if k < a.len() {
            assert(a[k] == x);
        } else {
            assert(b[k - a.len()] == x);
        }
    }
    if a.contains(x) {
        let k = choose|k: int| 0 <= k < a.len() && a[k] == x;
        assert((a + b)[k] == x);
    }
    if b.contains(x) {
        let k = choose|k: int| 0 <= k < b.len() && b[k] == x;
        assert((a + b)[a.len() + k] == x);
    }
}

/// A successor is refused with a rebinding blocker only for a predecessor
/// identifier that the successor keeps under another stable name or
/// definition.
#[verifier::rlimit(40)]
pub proof fn lemma_rebound_blocker_has_cause(
    previous: ProjectProfile,
    next: ProjectProfile,
    mode: EvolutionMode,
    kind: RegistryKind,
    id: SemanticId,
)
    requires
        successor_blockers(previous, next, mode).contains(CompatibilityBlocker::ReboundEntry { kind, id }),
    ensures
        mode is Additive,
        exists|i: int, j: int|
            0 <= i < previous.spec_entries().len() && 0 <= j < next.spec_entries().len()
                && #[trigger] previous.spec_entries()[i].spec_kind() == kind && previous.spec_entries()[i].spec_id()
                == id && #[trigger] next.spec_entries()[j].spec_kind() == kind && next.spec_entries()[j].spec_id()
                == id && (next.spec_entries()[j].spec_name().spec_chars()
                != previous.spec_entries()[i].spec_name().spec_chars()
                || next.spec_entries()[j].spec_definition_hash().spec_bytes()
                != previous.spec_entries()[i].spec_definition_hash().spec_bytes()),
{
    let b = CompatibilityBlocker::ReboundEntry { kind, id };
    let p1 = blocker_when(
        previous.spec_project().spec_chars() != next.spec_project().spec_chars(),
        CompatibilityBlocker::DifferentProject,
    );
    let p2 = blocker_when(
        previous.spec_subsystem().spec_chars() != next.spec_subsystem().spec_chars(),
        CompatibilityBlocker::DifferentSubsystem,
    );
    let p3 = blocker_when(previous.spec_profile_id() != next.spec_profile_id(), CompatibilityBlocker::DifferentProfileId);
    let p4 = blocker_when(next.spec_version() <= previous.spec_version(), CompatibilityBlocker::NonIncreasingVersion);
    let modes = mode_blockers(previous, next, mode);
    lemma_concat_contains(p1, p2, b);
    lemma_concat_contains(p1 + p2, p3, b);
    lemma_concat_contains(p1 + p2 + p3, p4, b);
    lemma_concat_contains(p1 + p2 + p3 + p4, modes, b);
    assert(!p1.contains(b) && !p2.contains(b) && !p3.contains(b) && !p4.contains(b));
    assert(modes.contains(b));
    match mode {
        EvolutionMode::Additive { evidence } => {
            let old_b = previous.spec_bindings();
            let new_b = next.spec_bindings();
            let f = fixed_blockers(previous, next);
            let e1 = extendable_blockers(
                previous.spec_entries(),
                next.spec_entries(),
                old_b.schema_hash,
                new_b.schema_hash,
                evidence.spec_schema(),
                "schema",
                ExtensionScope::Schema,
            );
            let e2 = extendable_blockers(
                previous.spec_entries(),
                next.spec_entries(),
                old_b.effect_registry_hash,
                new_b.effect_registry_hash,
                evidence.spec_effect_registry(),
                "effect-registry",
                ExtensionScope::Effect,
            );
            let e3 = extendable_blockers(
                previous.spec_entries(),
                next.spec_entries(),
                old_b.channel_registry_hash,
                new_b.channel_registry_hash,
                evidence.spec_channel_registry(),
                "channel-registry",
                ExtensionScope::Channel,
            );
            let entries = entry_blockers(previous.spec_entries(), next.spec_entries());
            assert(modes == f + e1 + e2 + e3 + entries);
            let f1 = blocker_when(
                previous.spec_state_type() != next.spec_state_type() || previous.spec_command_type()
                    != next.spec_command_type() || previous.spec_context_type() != next.spec_context_type(),
                CompatibilityBlocker::RootTypeChanged,
            );
            let f2 = blocker_when(
                old_b.codec_hash.spec_bytes() != new_b.codec_hash.spec_bytes(),
                CompatibilityBlocker::BindingChanged("codec"),
            );
            let f3 = blocker_when(
                old_b.precedence_hash.spec_bytes() != new_b.precedence_hash.spec_bytes(),
                CompatibilityBlocker::BindingChanged("precedence"),
            );
            let f4 = blocker_when(
                old_b.algorithm_hash.spec_bytes() != new_b.algorithm_hash.spec_bytes(),
                CompatibilityBlocker::BindingChanged("algorithm"),
            );
            let f5 = blocker_when(
                old_b.policy_hash.spec_bytes() != new_b.policy_hash.spec_bytes(),
                CompatibilityBlocker::BindingChanged("policy"),
            );
            assert(f == f1 + f2 + f3 + f4 + f5);
            lemma_concat_contains(f1, f2, b);
            lemma_concat_contains(f1 + f2, f3, b);
            lemma_concat_contains(f1 + f2 + f3, f4, b);
            lemma_concat_contains(f1 + f2 + f3 + f4, f5, b);
            assert(!f1.contains(b) && !f2.contains(b) && !f3.contains(b) && !f4.contains(b) && !f5.contains(b));
            assert(!e1.contains(b) && !e2.contains(b) && !e3.contains(b));
            lemma_concat_contains(f, e1, b);
            lemma_concat_contains(f + e1, e2, b);
            lemma_concat_contains(f + e1 + e2, e3, b);
            lemma_concat_contains(f + e1 + e2 + e3, entries, b);
            lemma_entry_rebound_cause(previous.spec_entries(), next.spec_entries(), kind, id);
        },
        EvolutionMode::Migrated { migration_hash } => {
            assert(!modes.contains(b));
        },
    }
}

/// Every compatibility blocker between two profile revisions, in evaluation order.
pub open spec fn successor_blockers(previous: ProjectProfile, next: ProjectProfile, mode: EvolutionMode) -> Seq<
    CompatibilityBlocker,
> {
    blocker_when(
        previous.spec_project().spec_chars() != next.spec_project().spec_chars(),
        CompatibilityBlocker::DifferentProject,
    ) + blocker_when(
        previous.spec_subsystem().spec_chars() != next.spec_subsystem().spec_chars(),
        CompatibilityBlocker::DifferentSubsystem,
    ) + blocker_when(
        previous.spec_profile_id() != next.spec_profile_id(),
        CompatibilityBlocker::DifferentProfileId,
    ) + blocker_when(
        next.spec_version() <= previous.spec_version(),
        CompatibilityBlocker::NonIncreasingVersion,
    ) + mode_blockers(previous, next, mode)
}

fn note_blocker(blockers: &mut Vec<CompatibilityBlocker>, condition: bool, blocker: CompatibilityBlocker)
    ensures
        final(blockers)@ == old(blockers)@ + blocker_when(condition, blocker),
{
    if condition {
        blockers.push(blocker);
    }
    assert(blockers@ =~= old(blockers)@ + blocker_when(condition, blocker));
}

fn registry_addition(previous: &ProjectProfile, next: &ProjectProfile, scope: ExtensionScope) -> (found:
    bool)
    ensures
        found == has_registry_addition(previous.spec_entries(), next.spec_entries(), scope),
{
    let entries = next.entries();
    let mut index: usize = 0;
    while index < entries.len()
        invariant
            index <= entries@.len(),
            entries@ == next.spec_entries(),
            forall|i: int|
                0 <= i < index ==> !(scope.spec_admits(#[trigger] entries@[i].spec_kind()) && !has_key(
                    previous.spec_entries(),
                    entries@[i].spec_key(),
                )),
        decreases entries@.len() - index,
    {
        let entry = &entries[index];
        if scope.admits(entry.kind()) && previous.entry(entry.kind(), entry.id()).is_none() {
            return true;
        }
        index = index + 1;
    }
    false
}

fn compare_extendable_binding(
    previous: &ProjectProfile,
    next: &ProjectProfile,
    previous_binding: Hash32,
    next_binding: Hash32,
    evidence: Option<Hash32>,
    label: &'static str,
    scope: ExtensionScope,
    blockers: &mut Vec<CompatibilityBlocker>,
)
    ensures
        final(blockers)@ == old(blockers)@ + extendable_blockers(
            previous.spec_entries(),
            next.spec_entries(),
            previous_binding,
            next_binding,
            evidence,
            label,
            scope,
        ),
{
    if previous_binding == next_binding {
        note_blocker(blockers, evidence.is_some(), CompatibilityBlocker::UnexpectedExtensionEvidence(label));
        return;
    }
    if evidence.is_none() {
        blockers.push(CompatibilityBlocker::UnprovenBindingChange(label));
        assert(blockers@ =~= old(blockers)@ + seq![CompatibilityBlocker::UnprovenBindingChange(label)]);
        return;
    }
    let found = registry_addition(previous, next, scope);
    note_blocker(
        blockers,
        !found,
        CompatibilityBlocker::BindingChangedWithoutRegistryAddition(label),
    );
}

fn compare_entries(previous: &ProjectProfile, next: &ProjectProfile, blockers: &mut Vec<CompatibilityBlocker>)
    ensures
        final(blockers)@ == old(blockers)@ + entry_blockers(previous.spec_entries(), next.spec_entries()),
{
    let entries = previous.entries();
    let mut index: usize = 0;
    while index < entries.len()
        invariant
            index <= entries@.len(),
            entries@ == previous.spec_entries(),
            blockers@ == old(blockers)@ + entry_blockers(entries@.subrange(0, index as int), next.spec_entries()),
        decreases entries@.len() - index,
    {
        let entry = &entries[index];
        proof {
            let next_prefix = entries@.subrange(0, index + 1);
            assert(next_prefix.drop_last() =~= entries@.subrange(0, index as int));
            assert(next_prefix.last() == entries@[index as int]);
        }
        match next.entry(entry.kind(), entry.id()) {
            None => {
                blockers.push(CompatibilityBlocker::RemovedEntry { kind: entry.kind(), id: entry.id() });
            },
            Some(successor) => {
                let rebound = !successor.name().same_as(entry.name()) || successor.definition_hash()
                    != entry.definition_hash();
                note_blocker(
                    blockers,
                    rebound,
                    CompatibilityBlocker::ReboundEntry { kind: entry.kind(), id: entry.id() },
                );
            },
        }
        index = index + 1;
        assert(blockers@ =~= old(blockers)@ + entry_blockers(entries@.subrange(0, index as int), next.spec_entries()));
    }
    assert(entries@.subrange(0, entries@.len() as int) =~= entries@);
}

/// Blockers for the root types and the bindings that additive evolution never changes.
pub open spec fn fixed_blockers(previous: ProjectProfile, next: ProjectProfile) -> Seq<CompatibilityBlocker> {
    let old_bindings = previous.spec_bindings();
    let new_bindings = next.spec_bindings();
    blocker_when(
        previous.spec_state_type() != next.spec_state_type() || previous.spec_command_type()
            != next.spec_command_type() || previous.spec_context_type() != next.spec_context_type(),
        CompatibilityBlocker::RootTypeChanged,
    ) + blocker_when(
        old_bindings.codec_hash.spec_bytes() != new_bindings.codec_hash.spec_bytes(),
        CompatibilityBlocker::BindingChanged("codec"),
    ) + blocker_when(
        old_bindings.precedence_hash.spec_bytes() != new_bindings.precedence_hash.spec_bytes(),
        CompatibilityBlocker::BindingChanged("precedence"),
    ) + blocker_when(
        old_bindings.algorithm_hash.spec_bytes() != new_bindings.algorithm_hash.spec_bytes(),
        CompatibilityBlocker::BindingChanged("algorithm"),
    ) + blocker_when(
        old_bindings.policy_hash.spec_bytes() != new_bindings.policy_hash.spec_bytes(),
        CompatibilityBlocker::BindingChanged("policy"),
    )
}

fn compare_fixed(previous: &ProjectProfile, next: &ProjectProfile, blockers: &mut Vec<CompatibilityBlocker>)
    ensures
        final(blockers)@ == old(blockers)@ + fixed_blockers(*previous, *next),
{
    note_blocker(
        blockers,
        previous.state_type() != next.state_type() || previous.command_type() != next.command_type()
            || previous.context_type() != next.context_type(),
        CompatibilityBlocker::RootTypeChanged,
    );
    let old_bindings = previous.bindings();
    let new_bindings = next.bindings();
    note_blocker(blockers, old_bindings.codec_hash != new_bindings.codec_hash, CompatibilityBlocker::BindingChanged("codec"));
    note_blocker(blockers, old_bindings.precedence_hash != new_bindings.precedence_hash, CompatibilityBlocker::BindingChanged("precedence"));
    note_blocker(blockers, old_bindings.algorithm_hash != new_bindings.algorithm_hash, CompatibilityBlocker::BindingChanged("algorithm"));
    note_blocker(blockers, old_bindings.policy_hash != new_bindings.policy_hash, CompatibilityBlocker::BindingChanged("policy"));
    assert(blockers@ =~= old(blockers)@ + fixed_blockers(*previous, *next));
}

fn compare_additive(
    previous: &ProjectProfile,
    next: &ProjectProfile,
    evidence: AdditiveExtensionEvidence,
    blockers: &mut Vec<CompatibilityBlocker>,
)
    ensures
        final(blockers)@ == old(blockers)@ + mode_blockers(*previous, *next, EvolutionMode::Additive { evidence }),
{
    compare_fixed(previous, next, blockers);
    let ghost fixed = blockers@;
    let old_bindings = previous.bindings();
    let new_bindings = next.bindings();
    compare_extendable_binding(
        previous,
        next,
        old_bindings.schema_hash,
        new_bindings.schema_hash,
        evidence.schema(),
        "schema",
        ExtensionScope::Schema,
        blockers,
    );
    let ghost schema = blockers@;
    compare_extendable_binding(
        previous,
        next,
        old_bindings.effect_registry_hash,
        new_bindings.effect_registry_hash,
        evidence.effect_registry(),
        "effect-registry",
        ExtensionScope::Effect,
        blockers,
    );
    let ghost effect = blockers@;
    compare_extendable_binding(
        previous,
        next,
        old_bindings.channel_registry_hash,
        new_bindings.channel_registry_hash,
        evidence.channel_registry(),
        "channel-registry",
        ExtensionScope::Channel,
        blockers,
    );
    let ghost channel = blockers@;
    compare_entries(previous, next, blockers);
    assert(blockers@ =~= old(blockers)@ + mode_blockers(*previous, *next, EvolutionMode::Additive { evidence }));
}

/// Checks whether `next` is an admitted successor of `previous` under an explicit mode.
pub fn compare_successor(previous: &ProjectProfile, next: &ProjectProfile, mode: EvolutionMode) -> (report:
    CompatibilityReport)
    ensures
        report.spec_blockers() == successor_blockers(*previous, *next, mode),
        mode is Additive ==> forall|i: int, j: int|
            0 <= i < previous.spec_entries().len() && 0 <= j < next.spec_entries().len()
                && #[trigger] next.spec_entries()[j].spec_kind() == #[trigger] previous.spec_entries()[i].spec_kind()
                && next.spec_entries()[j].spec_id() == previous.spec_entries()[i].spec_id() && (
            next.spec_entries()[j].spec_name().spec_chars() != previous.spec_entries()[i].spec_name().spec_chars()
                || next.spec_entries()[j].spec_definition_hash().spec_bytes()
                != previous.spec_entries()[i].spec_definition_hash().spec_bytes()) ==> report.spec_blockers().contains(
                CompatibilityBlocker::ReboundEntry {
                    kind: previous.spec_entries()[i].spec_kind(),
                    id: previous.spec_entries()[i].spec_id(),
                },
            ),
{
    proof {
        use_type_invariant(next);
        if mode is Additive {
            assert forall|i: int, j: int|
                0 <= i < previous.spec_entries().len() && 0 <= j < next.spec_entries().len()
                    && #[trigger] next.spec_entries()[j].spec_kind() == #[trigger] previous.spec_entries()[i].spec_kind()
                    && next.spec_entries()[j].spec_id() == previous.spec_entries()[i].spec_id() && (
                next.spec_entries()[j].spec_name().spec_chars() != previous.spec_entries()[i].spec_name().spec_chars()
                    || next.spec_entries()[j].spec_definition_hash().spec_bytes()
                    != previous.spec_entries()[i].spec_definition_hash().spec_bytes()) implies successor_blockers(
                *previous,
                *next,
                mode,
            ).contains(
                CompatibilityBlocker::ReboundEntry {
                    kind: previous.spec_entries()[i].spec_kind(),
                    id: previous.spec_entries()[i].spec_id(),
                },
            ) by {
                lemma_rebound_entry_refused(*previous, *next, mode, i, j);
            }
        }
    }
    let mut blockers: Vec<CompatibilityBlocker> = Vec::new();
    note_blocker(&mut blockers, !previous.project().same_as(next.project()), CompatibilityBlocker::DifferentProject);
    note_blocker(&mut blockers, !previous.subsystem().same_as(next.subsystem()), CompatibilityBlocker::DifferentSubsystem);
    note_blocker(&mut blockers, previous.profile_id() != next.profile_id(), CompatibilityBlocker::DifferentProfileId);
    note_blocker(&mut blockers, next.version() <= previous.version(), CompatibilityBlocker::NonIncreasingVersion);
    let ghost identity = blockers@;
    match mode {
        EvolutionMode::Additive { evidence } => {
            compare_additive(previous, next, evidence, &mut blockers);
        },
        EvolutionMode::Migrated { migration_hash } => {
            note_blocker(&mut blockers, migration_hash.is_zero(), CompatibilityBlocker::MissingMigrationHash);
        },
    }
    assert(blockers@ =~= successor_blockers(*previous, *next, mode));
    CompatibilityReport { blockers }
}

/// Profile-evolution validation or commitment failure.
#[derive(Clone, Debug, PartialEq, Eq)]
pub enum EvolutionError {
    /// Compatibility validation found one or more deterministic blockers.
    Incompatible(CompatibilityReport),
    /// One of the exact profiles could not be committed.
    Profile(ProfileError),
    /// Canonical evolution encoding or commitment failed.
    Encode(EncodeError),
}

/// The magic prefix of canonical profile-evolution bytes.
pub open spec fn evolution_magic() -> Seq<u8> {
    seq![90u8, 70u8, 67u8, 73u8, 83u8, 45u8, 69u8, 86u8, 79u8, 76u8, 85u8, 84u8, 73u8, 79u8, 78u8, 0u8]
}

/// The commitment domain label of profile evolutions.
pub open spec fn evolution_domain() -> Seq<u8> {
    seq![
        122u8, 101u8, 110u8, 111u8, 45u8, 102u8, 99u8, 105u8, 115u8, 47u8, 112u8, 114u8, 111u8,
        102u8, 105u8, 108u8, 101u8, 45u8, 101u8, 118u8, 111u8, 108u8, 117u8, 116u8, 105u8, 111u8,
        110u8,
    ]
}

/// Canonical, content-addressed evidence that one exact profile succeeds another.
#[derive(Clone, Copy, Debug, PartialEq, Eq)]
pub struct ProfileEvolution {
    previous_profile_hash: Hash32,
    next_profile_hash: Hash32,
    mode: EvolutionMode,
}

impl ProfileEvolution {
    /// The exact predecessor profile commitment.
    pub closed spec fn spec_previous_profile_hash(self) -> Hash32 {
        self.previous_profile_hash
    }

    /// The exact successor profile commitment.
    pub closed spec fn spec_next_profile_hash(self) -> Hash32 {
        self.next_profile_hash
    }

    /// The reviewed evolution mode.
    pub closed spec fn spec_mode(self) -> EvolutionMode {
        self.mode
    }

    /// Validates compatibility and binds the exact predecessor, successor, and mode.
    pub fn try_new<H: CommitmentHasher>(
        previous: &ProjectProfile,
        next: &ProjectProfile,
        mode: EvolutionMode,
    ) -> (evolution: Result<Self, EvolutionError>)
        ensures
            evolution is Ok <==> successor_blockers(*previous, *next, mode).len() == 0,
            evolution matches Err(EvolutionError::Incompatible(report)) ==> report.spec_blockers()
                == successor_blockers(*previous, *next, mode),
            evolution matches Ok(e) ==> e.spec_mode() == mode,
            evolution matches Ok(e) ==> e.spec_previous_profile_hash() == H::spec_hash(
                commitment_preimage(project_domain(), PROJECT_PROFILE_FORMAT_VERSION, previous.spec_encoding()),
            ) && e.spec_next_profile_hash() == H::spec_hash(
                commitment_preimage(project_domain(), PROJECT_PROFILE_FORMAT_VERSION, next.spec_encoding()),
            ),
    {
        let report = compare_successor(previous, next, mode);
        if !report.is_compatible() {
            return Err(EvolutionError::Incompatible(report));
        }
        let previous_profile_hash = match previous.commitment::<H>() {
            Ok(hash) => hash,
            Err(error) => return Err(EvolutionError::Profile(error)),
        };
        let next_profile_hash = match next.commitment::<H>() {
            Ok(hash) => hash,
            Err(error) => return Err(EvolutionError::Profile(error)),
        };
        Ok(ProfileEvolution { previous_profile_hash, next_profile_hash, mode })
    }

    /// Returns the exact predecessor profile commitment.
    pub fn previous_profile_hash(self) -> (hash: Hash32)
        ensures
            hash == self.spec_previous_profile_hash(),
    {
        self.previous_profile_hash
    }

    /// Returns the exact successor profile commitment.
    pub fn next_profile_hash(self) -> (hash: Hash32)
        ensures
            hash == self.spec_next_profile_hash(),
    {
        self.next_profile_hash
    }

    /// Returns the reviewed evolution mode.
    pub fn mode(self) -> (mode: EvolutionMode)
        ensures
            mode == self.spec_mode(),
    {
        self.mode
    }

    /// Canonical bytes: magic, format version, both profile commitments, then the mode.
    pub open spec fn spec_encoding(self) -> Seq<u8> {
        evolution_magic() + be16(PROFILE_EVOLUTION_FORMAT_VERSION)
            + self.spec_previous_profile_hash().spec_bytes() + self.spec_next_profile_hash().spec_bytes()
            + self.spec_mode().spec_encoding()
    }

    /// Canonical bytes of the evolution.
    pub fn canonical_bytes(&self) -> (bytes: Result<Vec<u8>, EncodeError>)
        ensures
            bytes matches Ok(b) && b@ == self.spec_encoding(),
    {
        let mut output: Vec<u8> = vec![
            90u8, 70u8, 67u8, 73u8, 83u8, 45u8, 69u8, 86u8, 79u8, 76u8, 85u8, 84u8, 73u8, 79u8, 78u8, 0u8,
        ];
        assert(output@ =~= evolution_magic());
        put_u16(&mut output, PROFILE_EVOLUTION_FORMAT_VERSION);
        put_bytes(&mut output, self.previous_profile_hash.as_bytes());
        put_bytes(&mut output, self.next_profile_hash.as_bytes());
        self.mode.encode_to(&mut output);
        assert(output@ =~= self.spec_encoding());
        Ok(output)
    }

    /// The bytes an evolution commitment hashes: the canonical bytes framed
    /// under the profile-evolution domain.
    pub fn commitment_bytes(&self) -> (bytes: Vec<u8>)
        ensures
            bytes@ == commitment_preimage(evolution_domain(), PROFILE_EVOLUTION_FORMAT_VERSION, self.spec_encoding()),
    {
        let encoded = match self.canonical_bytes() {
            Ok(bytes) => bytes,
            Err(_) => Vec::new(),
        };
        let label: Vec<u8> = vec![
            122u8, 101u8, 110u8, 111u8, 45u8, 102u8, 99u8, 105u8, 115u8, 47u8, 112u8, 114u8, 111u8,
            102u8, 105u8, 108u8, 101u8, 45u8, 101u8, 118u8, 111u8, 108u8, 117u8, 116u8, 105u8, 111u8,
            110u8,
        ];
        assert(label@ =~= evolution_domain());
        frame_commitment(label.as_slice(), PROFILE_EVOLUTION_FORMAT_VERSION, encoded.as_slice())
    }

    /// Computes the complete content-derived evolution commitment: the hash of
    /// exactly the bytes that `commitment_bytes` returns.
    pub fn commitment<H: CommitmentHasher>(&self) -> (hash: Result<Hash32, EvolutionError>)
        ensures
            hash == Ok::<Hash32, EvolutionError>(
                H::spec_hash(commitment_preimage(evolution_domain(), PROFILE_EVOLUTION_FORMAT_VERSION, self.spec_encoding())),
            ),
    {
        let bytes = self.commitment_bytes();
        Ok(H::hash(bytes.as_slice()))
    }
}

/// Each predecessor entry found unchanged in the successor raises no blocker.
proof fn lemma_entries_kept(previous: Seq<RegistryEntry>, next: Seq<RegistryEntry>)
    requires
        strictly_sorted_by_key(next),
        forall|i: int|
            0 <= i < previous.len() ==> #[trigger] has_key(next, previous[i].spec_key())
                && entry_with_key(next, previous[i].spec_key()) == previous[i],
    ensures
        entry_blockers(previous, next).len() == 0,
    decreases previous.len(),
{
    if previous.len() > 0 {
        let rest = previous.drop_last();
        assert forall|i: int| 0 <= i < rest.len() implies #[trigger] has_key(next, rest[i].spec_key())
            && entry_with_key(next, rest[i].spec_key()) == rest[i] by {
            assert(rest[i] == previous[i]);
            assert(has_key(next, previous[i].spec_key()));
        }
        lemma_entries_kept(rest, next);
        assert(has_key(next, previous[previous.len() - 1].spec_key()));
    }
}

/// A profile is never its own successor under additive evolution without
/// evidence: the only blocker is the non-increasing version.
pub proof fn lemma_self_succession_blocked(profile: ProjectProfile)
    requires
        strictly_sorted_by_key(profile.spec_entries()),
    ensures
        successor_blockers(profile, profile, EvolutionMode::Additive {
            evidence: AdditiveExtensionEvidence::spec_none(),
        }) == seq![CompatibilityBlocker::NonIncreasingVersion],
{
    let entries = profile.spec_entries();
    assert forall|i: int| 0 <= i < entries.len() implies #[trigger] has_key(entries, entries[i].spec_key())
        && entry_with_key(entries, entries[i].spec_key()) == entries[i] by {
        lemma_unique_key(entries, i, entries[i].spec_key());
    }
    lemma_entries_kept(entries, entries);
    let evidence = AdditiveExtensionEvidence::spec_none();
    assert(mode_blockers(profile, profile, EvolutionMode::Additive { evidence }) =~= Seq::empty());
    assert(successor_blockers(profile, profile, EvolutionMode::Additive { evidence }) =~= seq![
        CompatibilityBlocker::NonIncreasingVersion,
    ]);
}

/// A migration with a nonzero commitment between revisions of one profile
/// family with an increasing version is always compatible.
pub proof fn lemma_migration_compatible(
    previous: ProjectProfile,
    next: ProjectProfile,
    migration_hash: Hash32,
)
    requires
        previous.spec_project().spec_chars() == next.spec_project().spec_chars(),
        previous.spec_subsystem().spec_chars() == next.spec_subsystem().spec_chars(),
        previous.spec_profile_id() == next.spec_profile_id(),
        previous.spec_version() < next.spec_version(),
        !migration_hash.spec_is_zero(),
    ensures
        successor_blockers(previous, next, EvolutionMode::Migrated { migration_hash }).len() == 0,
{
}

} // verus!

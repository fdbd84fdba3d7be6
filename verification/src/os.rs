//! Architecture-neutral values for high-assurance microkernel design.
//!
//! Authority, kernel inputs, scheduling resources, static system architecture,
//! and hardware-facing effect plans are closed immutable values. A concrete
//! kernel must refine these values through a small, separately audited machine
//! boundary.

use vstd::prelude::*;

use crate::encode::{
    be16, be32, be64, encode_all, encode_each, put_length, put_u16, put_u32, put_u64, put_u8,
    EncodeError, Encodable,
};
use crate::sort::{
    canonical_order, find_key, first_adjacent_duplicate, has_duplicate_key, has_key,
    lemma_canonical_order, lemma_canonical_order_multiset, lemma_duplicate_key_multiset,
    lemma_has_key_multiset, lemma_member_moves, sort_by_key, strictly_sorted_by_key, Keyed,
    U64Keyed,
};

verus! {

/// Stable semantics version of the architecture-neutral OS value profile.
pub const OS_PROFILE_VERSION: u16 = 1;

/// Maximum syscall machine words carried by one admitted event.
pub const MAX_SYSCALL_ARGUMENTS: usize = 16;

/// Maximum hardware operations in one atomic machine plan.
pub const MAX_MACHINE_OPERATIONS: usize = 4096;

/// Maximum protection domains in one static system description.
pub const MAX_PROTECTION_DOMAINS: usize = 4096;

/// Maximum channels in one static system description.
pub const MAX_CHANNELS: usize = 65536;

/// Maximum capability slots declared by one protection domain.
pub const MAX_CAPABILITY_SLOTS: usize = 65536;

/// Stable logical processor identifier.
#[derive(Clone, Copy, Debug, PartialEq, Eq, Structural, Hash, PartialOrd, Ord)]
pub struct CoreId(u16);

impl CoreId {
    /// The raw identifier.
    pub closed spec fn spec_get(self) -> u16 {
        self.0
    }

    /// Creates an identifier.
    pub fn new(value: u16) -> (id: Self)
        ensures
            id.spec_get() == value,
    {
        CoreId(value)
    }

    /// Returns the raw identifier.
    pub fn get(self) -> (value: u16)
        ensures
            value == self.spec_get(),
    {
        self.0
    }
}

impl Encodable for CoreId {
    open spec fn spec_encoding(&self) -> Seq<u8> {
        be16(self.spec_get())
    }

    fn encode_to(&self, output: &mut Vec<u8>) {
        put_u16(output, self.0);
    }
}

/// Stable interrupt identifier.
#[derive(Clone, Copy, Debug, PartialEq, Eq, Structural, Hash, PartialOrd, Ord)]
pub struct IrqId(u32);

impl IrqId {
    /// The raw identifier.
    pub closed spec fn spec_get(self) -> u32 {
        self.0
    }

    /// Creates an identifier.
    pub fn new(value: u32) -> (id: Self)
        ensures
            id.spec_get() == value,
    {
        IrqId(value)
    }

    /// Returns the raw identifier.
    pub fn get(self) -> (value: u32)
        ensures
            value == self.spec_get(),
    {
        self.0
    }
}

impl Encodable for IrqId {
    open spec fn spec_encoding(&self) -> Seq<u8> {
        be32(self.spec_get())
    }

    fn encode_to(&self, output: &mut Vec<u8>) {
        put_u32(output, self.0);
    }
}

/// Stable protection-domain identifier.
#[derive(Clone, Copy, Debug, PartialEq, Eq, Structural, Hash, PartialOrd, Ord)]
pub struct ProtectionDomainId(u32);

impl ProtectionDomainId {
    /// The raw identifier.
    pub closed spec fn spec_get(self) -> u32 {
        self.0
    }

    /// Creates an identifier.
    pub fn new(value: u32) -> (id: Self)
        ensures
            id.spec_get() == value,
    {
        ProtectionDomainId(value)
    }

    /// Returns the raw identifier.
    pub fn get(self) -> (value: u32)
        ensures
            value == self.spec_get(),
    {
        self.0
    }

    /// Identifiers with the same raw value are the same identifier.
    pub proof fn lemma_get_injective(self, other: Self)
        requires
            self.spec_get() == other.spec_get(),
        ensures
            self == other,
    {
    }
}

impl Encodable for ProtectionDomainId {
    open spec fn spec_encoding(&self) -> Seq<u8> {
        be32(self.spec_get())
    }

    fn encode_to(&self, output: &mut Vec<u8>) {
        put_u32(output, self.0);
    }
}

/// Stable time-protection domain identifier.
#[derive(Clone, Copy, Debug, PartialEq, Eq, Structural, Hash, PartialOrd, Ord)]
pub struct TimeDomainId(u16);

impl TimeDomainId {
    /// The raw identifier.
    pub closed spec fn spec_get(self) -> u16 {
        self.0
    }

    /// Creates an identifier.
    pub fn new(value: u16) -> (id: Self)
        ensures
            id.spec_get() == value,
    {
        TimeDomainId(value)
    }

    /// Returns the raw identifier.
    pub fn get(self) -> (value: u16)
        ensures
            value == self.spec_get(),
    {
        self.0
    }
}

impl Encodable for TimeDomainId {
    open spec fn spec_encoding(&self) -> Seq<u8> {
        be16(self.spec_get())
    }

    fn encode_to(&self, output: &mut Vec<u8>) {
        put_u16(output, self.0);
    }
}

/// Closed kernel-object kind registry.
#[derive(Clone, Copy, Debug, PartialEq, Eq, Structural, Hash, PartialOrd, Ord)]
pub enum ObjectKind {
    /// Schedulable thread-control object.
    Thread,
    /// Virtual address-space root.
    AddressSpace,
    /// Synchronous IPC endpoint.
    Endpoint,
    /// Asynchronous notification object.
    Notification,
    /// One-shot reply authority.
    Reply,
    /// Budget and period authority.
    SchedulingContext,
    /// Physical memory frame.
    Frame,
    /// Translation-table object.
    PageTable,
    /// Interrupt-control object.
    Interrupt,
    /// Device-MMIO authority.
    Device,
    /// IOMMU protection domain.
    IommuDomain,
    /// Processor-core authority.
    Core,
    /// Time-protection domain.
    TimeDomain,
    /// Untyped memory from which typed objects may be derived.
    UntypedMemory,
}

impl ObjectKind {
    /// Stable registry tag of the kind.
    pub open spec fn spec_tag(self) -> u16 {
        match self {
            ObjectKind::Thread => 1,
            ObjectKind::AddressSpace => 2,
            ObjectKind::Endpoint => 3,
            ObjectKind::Notification => 4,
            ObjectKind::Reply => 5,
            ObjectKind::SchedulingContext => 6,
            ObjectKind::Frame => 7,
            ObjectKind::PageTable => 8,
            ObjectKind::Interrupt => 9,
            ObjectKind::Device => 10,
            ObjectKind::IommuDomain => 11,
            ObjectKind::Core => 12,
            ObjectKind::TimeDomain => 13,
            ObjectKind::UntypedMemory => 14,
        }
    }

    /// Returns the stable registry tag.
    pub fn tag(self) -> (tag: u16)
        ensures
            tag == self.spec_tag(),
    {
        match self {
            ObjectKind::Thread => 1,
            ObjectKind::AddressSpace => 2,
            ObjectKind::Endpoint => 3,
            ObjectKind::Notification => 4,
            ObjectKind::Reply => 5,
            ObjectKind::SchedulingContext => 6,
            ObjectKind::Frame => 7,
            ObjectKind::PageTable => 8,
            ObjectKind::Interrupt => 9,
            ObjectKind::Device => 10,
            ObjectKind::IommuDomain => 11,
            ObjectKind::Core => 12,
            ObjectKind::TimeDomain => 13,
            ObjectKind::UntypedMemory => 14,
        }
    }

    /// Distinct kinds carry distinct tags.
    pub proof fn lemma_tag_injective(self, other: Self)
        requires
            self.spec_tag() == other.spec_tag(),
        ensures
            self == other,
    {
    }
}

impl Encodable for ObjectKind {
    open spec fn spec_encoding(&self) -> Seq<u8> {
        be16(self.spec_tag())
    }

    fn encode_to(&self, output: &mut Vec<u8>) {
        put_u16(output, self.tag());
    }
}

/// Generation-tagged kernel-object identity.
///
/// Reusing an index with a new generation creates a different identity, which
/// prevents stale capabilities from silently naming a replacement object.
#[derive(Clone, Copy, Debug, PartialEq, Eq, Structural, Hash, PartialOrd, Ord)]
pub struct ObjectId {
    kind: ObjectKind,
    generation: u32,
    index: u64,
}

impl ObjectId {
    /// The object kind.
    pub closed spec fn spec_kind(self) -> ObjectKind {
        self.kind
    }

    /// The allocation generation.
    pub closed spec fn spec_generation(self) -> u32 {
        self.generation
    }

    /// The index within the kind namespace.
    pub closed spec fn spec_index(self) -> u64 {
        self.index
    }

    /// Creates an object identity.
    pub fn new(kind: ObjectKind, generation: u32, index: u64) -> (id: Self)
        ensures
            id.spec_kind() == kind,
            id.spec_generation() == generation,
            id.spec_index() == index,
    {
        ObjectId { kind, generation, index }
    }

    /// Returns the object kind.
    pub fn kind(self) -> (kind: ObjectKind)
        ensures
            kind == self.spec_kind(),
    {
        self.kind
    }

    /// Returns the allocation generation.
    pub fn generation(self) -> (generation: u32)
        ensures
            generation == self.spec_generation(),
    {
        self.generation
    }

    /// Returns the stable index within the kind namespace.
    pub fn index(self) -> (index: u64)
        ensures
            index == self.spec_index(),
    {
        self.index
    }

    /// Identities agree exactly when kind, generation, and index agree.
    pub proof fn lemma_identity(self, other: Self)
        ensures
            (self == other) <==> (self.spec_kind() == other.spec_kind() && self.spec_generation()
                == other.spec_generation() && self.spec_index() == other.spec_index()),
    {
    }

    /// Canonical bytes of the identity.
    pub fn canonical_bytes(&self) -> (bytes: Result<Vec<u8>, EncodeError>)
        ensures
            bytes matches Ok(b) && b@ == self.spec_encoding(),
    {
        let mut output: Vec<u8> = Vec::new();
        self.encode_to(&mut output);
        assert(output@ =~= self.spec_encoding());
        Ok(output)
    }
}

/// Distinct object identities have distinct canonical bytes.
pub proof fn lemma_object_encoding_injective(a: ObjectId, b: ObjectId)
    requires
        a.spec_encoding() == b.spec_encoding(),
    ensures
        a == b,
{
    let ea = a.spec_encoding();
    let eb = b.spec_encoding();
    assert(ea.subrange(0, 2) =~= be16(a.spec_kind().spec_tag()));
    assert(eb.subrange(0, 2) =~= be16(b.spec_kind().spec_tag()));
    assert(ea.subrange(2, 6) =~= be32(a.spec_generation()));
    assert(eb.subrange(2, 6) =~= be32(b.spec_generation()));
    assert(ea.subrange(6, 14) =~= be64(a.spec_index()));
    assert(eb.subrange(6, 14) =~= be64(b.spec_index()));
    crate::encode::lemma_be16_injective(a.spec_kind().spec_tag(), b.spec_kind().spec_tag());
    a.spec_kind().lemma_tag_injective(b.spec_kind());
    crate::encode::lemma_be32_injective(a.spec_generation(), b.spec_generation());
    crate::encode::lemma_be64_injective(a.spec_index(), b.spec_index());
    a.lemma_identity(b);
}

impl Encodable for ObjectId {
    open spec fn spec_encoding(&self) -> Seq<u8> {
        be16(self.spec_kind().spec_tag()) + be32(self.spec_generation()) + be64(self.spec_index())
    }

    fn encode_to(&self, output: &mut Vec<u8>) {
        self.kind.encode_to(output);
        put_u32(output, self.generation);
        put_u64(output, self.index);
        assert(output@ =~= old(output)@ + self.spec_encoding());
    }
}

} // verus!

verus! {

/// Capability rights as a closed, non-amplifying bit set.
#[derive(Clone, Copy, Debug, PartialEq, Eq, Structural, Hash, PartialOrd, Ord)]
pub struct Rights(u64);

/// Every right defined by the closed registry.
pub const RIGHTS_ALL_BITS: u64 = 0xfff;

/// Rights that a memory mapping may carry: read, write, and execute.
pub const RIGHTS_MEMORY_BITS: u64 = 0x7;

impl Rights {
    /// No bit outside the closed registry is ever present.
    #[verifier::type_invariant]
    spec fn registered(self) -> bool {
        self.0 <= RIGHTS_ALL_BITS
    }

    /// Read object state or mapped memory.
    pub fn read() -> (rights: Rights)
        ensures
            rights.spec_bits() == 0x1,
    {
        Rights(0x1)
    }

    /// Modify object state or mapped memory.
    pub fn write() -> (rights: Rights)
        ensures
            rights.spec_bits() == 0x2,
    {
        Rights(0x2)
    }

    /// Execute mapped memory.
    pub fn execute() -> (rights: Rights)
        ensures
            rights.spec_bits() == 0x4,
    {
        Rights(0x4)
    }

    /// Signal an endpoint or notification.
    pub fn signal() -> (rights: Rights)
        ensures
            rights.spec_bits() == 0x8,
    {
        Rights(0x8)
    }

    /// Receive from an endpoint or notification.
    pub fn receive() -> (rights: Rights)
        ensures
            rights.spec_bits() == 0x10,
    {
        Rights(0x10)
    }

    /// Transfer capabilities through IPC.
    pub fn grant() -> (rights: Rights)
        ensures
            rights.spec_bits() == 0x20,
    {
        Rights(0x20)
    }

    /// Control lifecycle or configuration of the object.
    pub fn control() -> (rights: Rights)
        ensures
            rights.spec_bits() == 0x40,
    {
        Rights(0x40)
    }

    /// Map or unmap the object in a translation structure.
    pub fn map() -> (rights: Rights)
        ensures
            rights.spec_bits() == 0x80,
    {
        Rights(0x80)
    }

    /// Bind an object to another kernel object.
    pub fn bind() -> (rights: Rights)
        ensures
            rights.spec_bits() == 0x100,
    {
        Rights(0x100)
    }

    /// Derive a capability with a different badge.
    pub fn mint() -> (rights: Rights)
        ensures
            rights.spec_bits() == 0x200,
    {
        Rights(0x200)
    }

    /// Revoke capabilities derived from this authority.
    pub fn revoke() -> (rights: Rights)
        ensures
            rights.spec_bits() == 0x400,
    {
        Rights(0x400)
    }

    /// Retype untyped memory into typed kernel objects.
    pub fn retype() -> (rights: Rights)
        ensures
            rights.spec_bits() == 0x800,
    {
        Rights(0x800)
    }

    /// The raw stable bit representation.
    pub closed spec fn spec_bits(self) -> u64 {
        self.0
    }

    /// The `MINT` right is present.
    pub open spec fn spec_has_mint(self) -> bool {
        self.spec_bits() & 0x200 == 0x200
    }

    /// Every right of `requested` is present in `self`.
    pub open spec fn spec_contains(self, requested: Rights) -> bool {
        self.spec_bits() & requested.spec_bits() == requested.spec_bits()
    }

    /// Creates a rights set only when no unknown bit is present.
    pub fn from_bits(bits: u64) -> (rights: Result<Self, CapabilityError>)
        ensures
            rights is Ok <==> bits & !RIGHTS_ALL_BITS == 0,
            rights is Ok <==> bits <= RIGHTS_ALL_BITS,
            rights matches Ok(r) ==> r.spec_bits() == bits,
            rights matches Err(e) ==> e == CapabilityError::UnknownRights,
    {
        assert((bits & !0xfffu64 == 0) == (bits <= 0xfffu64)) by (bit_vector);
        if bits & !RIGHTS_ALL_BITS == 0 {
            Ok(Rights(bits))
        } else {
            Err(CapabilityError::UnknownRights)
        }
    }

    /// Returns the raw stable bit representation.
    pub fn bits(self) -> (bits: u64)
        ensures
            bits == self.spec_bits(),
            bits <= RIGHTS_ALL_BITS,
            bits & !RIGHTS_ALL_BITS == 0,
    {
        proof {
            use_type_invariant(self);
        }
        let bits: u64 = self.0;
        assert(bits <= 0xfffu64 ==> bits & !0xfffu64 == 0) by (bit_vector);
        bits
    }

    /// Returns whether no right is present.
    pub fn is_empty(self) -> (empty: bool)
        ensures
            empty == (self.spec_bits() == 0),
    {
        self.0 == 0
    }

    /// Returns whether this set includes every requested right.
    pub fn contains(self, requested: Self) -> (contained: bool)
        ensures
            contained == self.spec_contains(requested),
    {
        self.0 & requested.0 == requested.0
    }

    /// Returns whether this rights set is a subset of another.
    pub fn is_subset_of(self, parent: Self) -> (subset: bool)
        ensures
            subset == parent.spec_contains(self),
    {
        parent.contains(self)
    }

    /// Returns memory-mapping rights only.
    pub fn memory_rights(self) -> (memory: Self)
        ensures
            memory.spec_bits() == self.spec_bits() & RIGHTS_MEMORY_BITS,
    {
        let bits: u64 = self.0;
        assert(bits & 0x7u64 <= 0xfffu64) by (bit_vector);
        Rights(bits & RIGHTS_MEMORY_BITS)
    }

    /// Returns the union of two rights sets.
    pub fn union(self, right: Self) -> (union: Self)
        ensures
            union.spec_bits() == self.spec_bits() | right.spec_bits(),
    {
        proof {
            use_type_invariant(self);
            use_type_invariant(right);
        }
        let a: u64 = self.0;
        let b: u64 = right.0;
        assert(a <= 0xfffu64 && b <= 0xfffu64 ==> a | b <= 0xfffu64) by (bit_vector);
        Rights(a | b)
    }
}

impl core::ops::BitOr for Rights {
    type Output = Self;

    fn bitor(self, right: Self) -> (union: Self::Output)
        ensures
            union.spec_bits() == self.spec_bits() | right.spec_bits(),
    {
        proof {
            use_type_invariant(self);
            use_type_invariant(right);
        }
        let a: u64 = self.0;
        let b: u64 = right.0;
        assert(a <= 0xfffu64 && b <= 0xfffu64 ==> a | b <= 0xfffu64) by (bit_vector);
        Rights(a | b)
    }
}

impl vstd::std_specs::ops::BitOrSpecImpl for Rights {
    open spec fn obeys_bitor_spec() -> bool {
        true
    }

    open spec fn bitor_req(self, rhs: Rights) -> bool {
        true
    }

    closed spec fn bitor_spec(self, rhs: Rights) -> Rights {
        Rights(self.0 | rhs.0)
    }
}

impl Encodable for Rights {
    open spec fn spec_encoding(&self) -> Seq<u8> {
        be64(self.spec_bits())
    }

    fn encode_to(&self, output: &mut Vec<u8>) {
        put_u64(output, self.0);
    }
}

/// Every rights set contains itself.
pub proof fn lemma_rights_subset_reflexive(a: Rights)
    ensures
        a.spec_contains(a),
{
    let x = a.spec_bits();
    assert(x & x == x) by (bit_vector);
}

/// Containment of rights is transitive.
pub proof fn lemma_rights_subset_transitive(a: Rights, b: Rights, c: Rights)
    requires
        a.spec_contains(b),
        b.spec_contains(c),
    ensures
        a.spec_contains(c),
{
    let (x, y, z) = (a.spec_bits(), b.spec_bits(), c.spec_bits());
    assert(x & y == y && y & z == z ==> x & z == z) by (bit_vector);
}

/// Mutual containment means the same rights.
pub proof fn lemma_rights_subset_antisymmetric(a: Rights, b: Rights)
    requires
        a.spec_contains(b),
        b.spec_contains(a),
    ensures
        a == b,
{
    let (x, y) = (a.spec_bits(), b.spec_bits());
    assert(x & y == y && y & x == x ==> x == y) by (bit_vector);
}

/// A union contains both operands, and is the least such set.
pub proof fn lemma_rights_union_least_upper_bound(a: Rights, b: Rights, u: Rights, c: Rights)
    requires
        u.spec_bits() == a.spec_bits() | b.spec_bits(),
    ensures
        u.spec_contains(a),
        u.spec_contains(b),
        c.spec_contains(a) && c.spec_contains(b) ==> c.spec_contains(u),
{
    let (x, y, w, z) = (a.spec_bits(), b.spec_bits(), u.spec_bits(), c.spec_bits());
    assert(w == x | y ==> w & x == x && w & y == y) by (bit_vector);
    assert(w == x | y && z & x == x && z & y == y ==> z & w == w) by (bit_vector);
}

/// Capability construction or derivation failure.
#[derive(Clone, Copy, Debug, PartialEq, Eq, Structural)]
pub enum CapabilityError {
    /// A rights mask contains a bit outside the closed registry.
    UnknownRights,
    /// A present capability may not carry an empty rights set.
    EmptyRights,
    /// A child requested authority absent from its parent.
    RightsAmplification,
    /// A badge was changed without `MINT` authority.
    BadgeMintWithoutAuthority,
}

impl CapabilityError {
    /// Returns the human-readable description.
    pub fn message(&self) -> (text: &'static str)
        ensures
            text == (match *self {
                CapabilityError::UnknownRights => "capability rights contain unknown bits",
                CapabilityError::EmptyRights => "capability rights are empty",
                CapabilityError::RightsAmplification => "derived capability would amplify authority",
                CapabilityError::BadgeMintWithoutAuthority => "badge change requires mint authority",
            }),
    {
        match self {
            CapabilityError::UnknownRights => "capability rights contain unknown bits",
            CapabilityError::EmptyRights => "capability rights are empty",
            CapabilityError::RightsAmplification => "derived capability would amplify authority",
            CapabilityError::BadgeMintWithoutAuthority => "badge change requires mint authority",
        }
    }
}

/// Immutable capability value.
#[derive(Clone, Copy, Debug, PartialEq, Eq, Structural, Hash, PartialOrd, Ord)]
pub struct Capability {
    object: ObjectId,
    rights: Rights,
    badge: u64,
}

impl Capability {
    /// A present capability always carries some right.
    #[verifier::type_invariant]
    spec fn rights_present(self) -> bool {
        self.rights.spec_bits() != 0
    }

    /// The named object.
    pub closed spec fn spec_object(self) -> ObjectId {
        self.object
    }

    /// The rights set.
    pub closed spec fn spec_rights(self) -> Rights {
        self.rights
    }

    /// The IPC badge.
    pub closed spec fn spec_badge(self) -> u64 {
        self.badge
    }

    /// The capability that derivation produces, or the reason it is refused.
    pub open spec fn spec_derive(self, requested_rights: Rights, requested_badge: u64) -> Result<
        (ObjectId, Rights, u64),
        CapabilityError,
    > {
        if requested_rights.spec_bits() == 0 {
            Err(CapabilityError::EmptyRights)
        } else if !self.spec_rights().spec_contains(requested_rights) {
            Err(CapabilityError::RightsAmplification)
        } else if requested_badge != self.spec_badge() && !self.spec_rights().spec_has_mint() {
            Err(CapabilityError::BadgeMintWithoutAuthority)
        } else {
            Ok((self.spec_object(), requested_rights, requested_badge))
        }
    }

    /// Creates a non-empty capability.
    pub fn try_new(object: ObjectId, rights: Rights, badge: u64) -> (capability: Result<
        Self,
        CapabilityError,
    >)
        ensures
            capability is Err <==> rights.spec_bits() == 0,
            capability matches Err(e) ==> e == CapabilityError::EmptyRights,
            capability matches Ok(c) ==> c.spec_object() == object && c.spec_rights() == rights
                && c.spec_badge() == badge,
    {
        if rights.is_empty() {
            return Err(CapabilityError::EmptyRights);
        }
        Ok(Capability { object, rights, badge })
    }

    /// Returns the named object.
    pub fn object(self) -> (object: ObjectId)
        ensures
            object == self.spec_object(),
    {
        self.object
    }

    /// Returns the rights set.
    pub fn rights(self) -> (rights: Rights)
        ensures
            rights == self.spec_rights(),
            rights.spec_bits() != 0,
    {
        proof {
            use_type_invariant(self);
        }
        self.rights
    }

    /// Returns the IPC badge.
    pub fn badge(self) -> (badge: u64)
        ensures
            badge == self.spec_badge(),
    {
        self.badge
    }

    /// Derives a capability without authority amplification.
    ///
    /// Changing the badge additionally requires `MINT` in the parent.
    pub fn derive(self, requested_rights: Rights, requested_badge: u64) -> (child: Result<
        Self,
        CapabilityError,
    >)
        ensures
            match (child, self.spec_derive(requested_rights, requested_badge)) {
                (Ok(c), Ok((object, rights, badge))) => c.spec_object() == object
                    && c.spec_rights() == rights && c.spec_badge() == badge,
                (Err(e), Err(f)) => e == f,
                _ => false,
            },
    {
        if requested_rights.is_empty() {
            return Err(CapabilityError::EmptyRights);
        }
        if !requested_rights.is_subset_of(self.rights) {
            return Err(CapabilityError::RightsAmplification);
        }
        if requested_badge != self.badge && !self.rights.contains(Rights::mint()) {
            return Err(CapabilityError::BadgeMintWithoutAuthority);
        }
        Ok(Capability { object: self.object, rights: requested_rights, badge: requested_badge })
    }

    /// Canonical bytes of the capability.
    pub fn canonical_bytes(&self) -> (bytes: Result<Vec<u8>, EncodeError>)
        ensures
            bytes matches Ok(b) && b@ == self.spec_encoding(),
    {
        let mut output: Vec<u8> = Vec::new();
        self.encode_to(&mut output);
        assert(output@ =~= self.spec_encoding());
        Ok(output)
    }
}

impl Encodable for Capability {
    open spec fn spec_encoding(&self) -> Seq<u8> {
        self.spec_object().spec_encoding() + self.spec_rights().spec_encoding() + be64(
            self.spec_badge(),
        )
    }

    fn encode_to(&self, output: &mut Vec<u8>) {
        self.object.encode_to(output);
        self.rights.encode_to(output);
        put_u64(output, self.badge);
        assert(output@ =~= old(output)@ + self.spec_encoding());
    }
}

/// Derivation never amplifies authority: a derived capability names the same
/// object, carries a non-empty subset of the parent's rights, and changes the
/// badge only under the parent's `MINT` right.
pub proof fn lemma_derive_never_amplifies(parent: Capability, rights: Rights, badge: u64)
    ensures
        parent.spec_derive(rights, badge) matches Ok((object, child_rights, child_badge)) ==> {
            &&& object == parent.spec_object()
            &&& parent.spec_rights().spec_contains(child_rights)
            &&& child_rights.spec_bits() != 0
            &&& (child_badge != parent.spec_badge() ==> parent.spec_rights().spec_has_mint())
        },
{
}

/// Along any chain of two derivations the grandchild's rights stay within the
/// grandparent's rights, and the object never changes.
pub proof fn lemma_derive_chain_never_amplifies(
    parent: Capability,
    child: Capability,
    rights: Rights,
    badge: u64,
)
    requires
        parent.spec_derive(child.spec_rights(), child.spec_badge()) == Ok::<
            (ObjectId, Rights, u64),
            CapabilityError,
        >((child.spec_object(), child.spec_rights(), child.spec_badge())),
    ensures
        child.spec_derive(rights, badge) matches Ok((object, grandchild_rights, _)) ==> {
            &&& object == parent.spec_object()
            &&& parent.spec_rights().spec_contains(grandchild_rights)
        },
{
    if child.spec_derive(rights, badge) is Ok {
        lemma_rights_subset_transitive(parent.spec_rights(), child.spec_rights(), rights);
    }
}

/// Mixed-criticality class.
#[derive(Clone, Copy, Debug, PartialEq, Eq, Structural, Hash, PartialOrd, Ord)]
pub enum Criticality {
    /// Best-effort work.
    BestEffort,
    /// Ordinary application work.
    Normal,
    /// Mission-critical work.
    Critical,
    /// Safety-critical work.
    Safety,
}

impl Criticality {
    /// Stable tag of the class.
    pub open spec fn spec_tag(self) -> u8 {
        match self {
            Criticality::BestEffort => 0,
            Criticality::Normal => 1,
            Criticality::Critical => 2,
            Criticality::Safety => 3,
        }
    }
}

impl Encodable for Criticality {
    open spec fn spec_encoding(&self) -> Seq<u8> {
        seq![self.spec_tag()]
    }

    fn encode_to(&self, output: &mut Vec<u8>) {
        let tag: u8 = match self {
            Criticality::BestEffort => 0,
            Criticality::Normal => 1,
            Criticality::Critical => 2,
            Criticality::Safety => 3,
        };
        put_u8(output, tag);
        assert(output@ =~= old(output)@ + self.spec_encoding());
    }
}

/// Explicit scheduling and time-protection authority.
#[derive(Clone, Copy, Debug, PartialEq, Eq, Structural, Hash, PartialOrd, Ord)]
pub struct SchedulingContext {
    budget_ticks: u64,
    deadline_ticks: u64,
    period_ticks: u64,
    criticality: Criticality,
    time_domain: TimeDomainId,
}

/// Scheduling-context construction failure.
#[derive(Clone, Copy, Debug, PartialEq, Eq, Structural)]
pub enum SchedulingError {
    /// Durations are discrete positive resources.
    ZeroDuration,
    /// The execution budget exceeds the relative deadline.
    BudgetExceedsDeadline,
    /// The relative deadline exceeds the replenishment period.
    DeadlineExceedsPeriod,
}

impl SchedulingError {
    /// Returns the human-readable description.
    pub fn message(&self) -> (text: &'static str)
        ensures
            text == (match *self {
                SchedulingError::ZeroDuration => "scheduling durations must be non-zero",
                SchedulingError::BudgetExceedsDeadline => "budget exceeds relative deadline",
                SchedulingError::DeadlineExceedsPeriod => "relative deadline exceeds period",
            }),
    {
        match self {
            SchedulingError::ZeroDuration => "scheduling durations must be non-zero",
            SchedulingError::BudgetExceedsDeadline => "budget exceeds relative deadline",
            SchedulingError::DeadlineExceedsPeriod => "relative deadline exceeds period",
        }
    }
}

/// Why a scheduling relation is refused, checked in the constructor's order.
pub open spec fn scheduling_error(budget: u64, deadline: u64, period: u64) -> Option<
    SchedulingError,
> {
    if budget == 0 || deadline == 0 || period == 0 {
        Some(SchedulingError::ZeroDuration)
    } else if budget > deadline {
        Some(SchedulingError::BudgetExceedsDeadline)
    } else if deadline > period {
        Some(SchedulingError::DeadlineExceedsPeriod)
    } else {
        None
    }
}

impl SchedulingContext {
    /// Every context satisfies `0 < budget <= deadline <= period`.
    #[verifier::type_invariant]
    spec fn bounded_relation(self) -> bool {
        0 < self.budget_ticks <= self.deadline_ticks <= self.period_ticks
    }

    /// The execution budget.
    pub closed spec fn spec_budget_ticks(self) -> u64 {
        self.budget_ticks
    }

    /// The relative deadline.
    pub closed spec fn spec_deadline_ticks(self) -> u64 {
        self.deadline_ticks
    }

    /// The replenishment period.
    pub closed spec fn spec_period_ticks(self) -> u64 {
        self.period_ticks
    }

    /// The criticality class.
    pub closed spec fn spec_criticality(self) -> Criticality {
        self.criticality
    }

    /// The time-protection domain.
    pub closed spec fn spec_time_domain(self) -> TimeDomainId {
        self.time_domain
    }

    /// Creates a context satisfying the bounded scheduling relation
    /// `0 < budget <= deadline <= period`.
    pub fn try_new(
        budget_ticks: u64,
        deadline_ticks: u64,
        period_ticks: u64,
        criticality: Criticality,
        time_domain: TimeDomainId,
    ) -> (context: Result<Self, SchedulingError>)
        ensures
            context is Ok <==> 0 < budget_ticks <= deadline_ticks <= period_ticks,
            context matches Err(e) ==> scheduling_error(budget_ticks, deadline_ticks, period_ticks)
                == Some(e),
            context matches Ok(c) ==> c.spec_budget_ticks() == budget_ticks
                && c.spec_deadline_ticks() == deadline_ticks && c.spec_period_ticks()
                == period_ticks && c.spec_criticality() == criticality && c.spec_time_domain()
                == time_domain,
    {
        if budget_ticks == 0 || deadline_ticks == 0 || period_ticks == 0 {
            return Err(SchedulingError::ZeroDuration);
        }
        if budget_ticks > deadline_ticks {
            return Err(SchedulingError::BudgetExceedsDeadline);
        }
        if deadline_ticks > period_ticks {
            return Err(SchedulingError::DeadlineExceedsPeriod);
        }
        Ok(SchedulingContext { budget_ticks, deadline_ticks, period_ticks, criticality, time_domain })
    }

    /// Returns the execution budget.
    pub fn budget_ticks(self) -> (budget: u64)
        ensures
            budget == self.spec_budget_ticks(),
            0 < budget <= self.spec_deadline_ticks(),
    {
        proof {
            use_type_invariant(self);
        }
        self.budget_ticks
    }

    /// Returns the relative deadline.
    pub fn deadline_ticks(self) -> (deadline: u64)
        ensures
            deadline == self.spec_deadline_ticks(),
            self.spec_budget_ticks() <= deadline <= self.spec_period_ticks(),
    {
        proof {
            use_type_invariant(self);
        }
        self.deadline_ticks
    }

    /// Returns the replenishment period.
    pub fn period_ticks(self) -> (period: u64)
        ensures
            period == self.spec_period_ticks(),
            self.spec_deadline_ticks() <= period,
    {
        proof {
            use_type_invariant(self);
        }
        self.period_ticks
    }

    /// Returns the criticality class.
    pub fn criticality(self) -> (criticality: Criticality)
        ensures
            criticality == self.spec_criticality(),
    {
        self.criticality
    }

    /// Returns the time-protection domain.
    pub fn time_domain(self) -> (time_domain: TimeDomainId)
        ensures
            time_domain == self.spec_time_domain(),
    {
        self.time_domain
    }
}

impl Encodable for SchedulingContext {
    open spec fn spec_encoding(&self) -> Seq<u8> {
        be64(self.spec_budget_ticks()) + be64(self.spec_deadline_ticks()) + be64(
            self.spec_period_ticks(),
        ) + self.spec_criticality().spec_encoding() + self.spec_time_domain().spec_encoding()
    }

    fn encode_to(&self, output: &mut Vec<u8>) {
        put_u64(output, self.budget_ticks);
        put_u64(output, self.deadline_ticks);
        put_u64(output, self.period_ticks);
        self.criticality.encode_to(output);
        self.time_domain.encode_to(output);
        assert(output@ =~= old(output)@ + self.spec_encoding());
    }
}

} // verus!

verus! {

/// Memory access that triggered a fault.
#[derive(Clone, Copy, Debug, PartialEq, Eq, Structural, Hash, PartialOrd, Ord)]
pub enum AccessType {
    /// Read access.
    Read,
    /// Write access.
    Write,
    /// Instruction fetch.
    Execute,
}

impl Encodable for AccessType {
    open spec fn spec_encoding(&self) -> Seq<u8> {
        match self {
            AccessType::Read => seq![0u8],
            AccessType::Write => seq![1u8],
            AccessType::Execute => seq![2u8],
        }
    }

    fn encode_to(&self, output: &mut Vec<u8>) {
        let tag: u8 = match self {
            AccessType::Read => 0,
            AccessType::Write => 1,
            AccessType::Execute => 2,
        };
        put_u8(output, tag);
        assert(output@ =~= old(output)@ + self.spec_encoding());
    }
}

/// Inter-processor interrupt purpose.
#[derive(Clone, Copy, Debug, PartialEq, Eq, Structural, Hash, PartialOrd, Ord)]
pub enum IpiReason {
    /// Request remote rescheduling.
    Reschedule,
    /// Request remote TLB invalidation.
    TlbShootdown,
    /// Request a time-domain transition.
    TimeDomainSwitch,
    /// Request core shutdown.
    Shutdown,
}

impl Encodable for IpiReason {
    open spec fn spec_encoding(&self) -> Seq<u8> {
        match self {
            IpiReason::Reschedule => seq![0u8],
            IpiReason::TlbShootdown => seq![1u8],
            IpiReason::TimeDomainSwitch => seq![2u8],
            IpiReason::Shutdown => seq![3u8],
        }
    }

    fn encode_to(&self, output: &mut Vec<u8>) {
        let tag: u8 = match self {
            IpiReason::Reschedule => 0,
            IpiReason::TlbShootdown => 1,
            IpiReason::TimeDomainSwitch => 2,
            IpiReason::Shutdown => 3,
        };
        put_u8(output, tag);
        assert(output@ =~= old(output)@ + self.spec_encoding());
    }
}

/// Closed input event admitted by the pure kernel transition.
#[derive(Clone, Debug, PartialEq, Eq)]
pub enum KernelEvent {
    /// Userspace system call with a bounded machine-word argument vector.
    SystemCall {
        /// Calling thread.
        thread: ObjectId,
        /// Stable syscall number.
        number: u32,
        /// Exact argument words.
        arguments: Vec<u64>,
    },
    /// Architecture-normalized page fault.
    PageFault {
        /// Faulting thread.
        thread: ObjectId,
        /// Active address space.
        address_space: ObjectId,
        /// Faulting virtual address.
        virtual_address: u64,
        /// Instruction pointer at the fault.
        instruction_pointer: u64,
        /// Requested access.
        access: AccessType,
    },
    /// External interrupt delivered to one core.
    Interrupt {
        /// Interrupt number.
        irq: IrqId,
        /// Receiving core.
        core: CoreId,
    },
    /// Explicit timer observation supplied by the machine boundary.
    Timer {
        /// Receiving core.
        core: CoreId,
        /// Monotonic logical tick value.
        now_ticks: u64,
    },
    /// Inter-processor interrupt.
    InterProcessorInterrupt {
        /// Sending core.
        source: CoreId,
        /// Receiving core.
        target: CoreId,
        /// Stable reason.
        reason: IpiReason,
    },
}

/// Kernel-event construction failure.
#[derive(Clone, Copy, Debug, PartialEq, Eq, Structural)]
pub enum EventError {
    /// A referenced object has an incompatible kind.
    WrongObjectKind,
    /// A syscall exceeded the fixed argument bound.
    TooManySyscallArguments,
}

impl EventError {
    /// Returns the human-readable description.
    pub fn message(&self) -> (text: &'static str)
        ensures
            text == (match *self {
                EventError::WrongObjectKind => "kernel event references wrong object kind",
                EventError::TooManySyscallArguments => "syscall argument count exceeds profile bound",
            }),
    {
        match self {
            EventError::WrongObjectKind => "kernel event references wrong object kind",
            EventError::TooManySyscallArguments => "syscall argument count exceeds profile bound",
        }
    }
}

impl KernelEvent {
    /// Creates a bounded syscall event.
    pub fn system_call(thread: ObjectId, number: u32, arguments: Vec<u64>) -> (event: Result<
        Self,
        EventError,
    >)
        ensures
            thread.spec_kind() != ObjectKind::Thread ==> event == Err::<Self, EventError>(
                EventError::WrongObjectKind,
            ),
            thread.spec_kind() == ObjectKind::Thread && arguments@.len() > MAX_SYSCALL_ARGUMENTS
                ==> event == Err::<Self, EventError>(EventError::TooManySyscallArguments),
            event is Ok <==> thread.spec_kind() == ObjectKind::Thread && arguments@.len()
                <= MAX_SYSCALL_ARGUMENTS,
            event matches Ok(e) ==> (e matches KernelEvent::SystemCall {
                thread: t,
                number: n,
                arguments: a,
            } && t == thread && n == number && a@ == arguments@),
    {
        if thread.kind() != ObjectKind::Thread {
            return Err(EventError::WrongObjectKind);
        }
        if arguments.len() > MAX_SYSCALL_ARGUMENTS {
            return Err(EventError::TooManySyscallArguments);
        }
        Ok(KernelEvent::SystemCall { thread, number, arguments })
    }

    /// Validates object kinds for a page-fault event.
    pub fn page_fault(
        thread: ObjectId,
        address_space: ObjectId,
        virtual_address: u64,
        instruction_pointer: u64,
        access: AccessType,
    ) -> (event: Result<Self, EventError>)
        ensures
            event is Ok <==> thread.spec_kind() == ObjectKind::Thread && address_space.spec_kind()
                == ObjectKind::AddressSpace,
            event matches Err(e) ==> e == EventError::WrongObjectKind,
            event matches Ok(e) ==> e == (KernelEvent::PageFault {
                thread,
                address_space,
                virtual_address,
                instruction_pointer,
                access,
            }),
    {
        if thread.kind() != ObjectKind::Thread || address_space.kind() != ObjectKind::AddressSpace {
            return Err(EventError::WrongObjectKind);
        }
        Ok(KernelEvent::PageFault { thread, address_space, virtual_address, instruction_pointer, access })
    }

    /// Canonical bytes of the event, or the reason they do not exist.
    pub open spec fn spec_canonical(&self) -> Result<Seq<u8>, EncodeError> {
        match self {
            KernelEvent::SystemCall { thread, number, arguments } => if arguments@.len()
                <= u32::MAX {
                Ok(
                    be16(OS_PROFILE_VERSION) + seq![0u8] + thread.spec_encoding() + be32(*number)
                        + be32(arguments@.len() as u32) + encode_all(arguments@),
                )
            } else {
                Err(EncodeError::LengthOverflow)
            },
            KernelEvent::PageFault {
                thread,
                address_space,
                virtual_address,
                instruction_pointer,
                access,
            } => Ok(
                be16(OS_PROFILE_VERSION) + seq![1u8] + thread.spec_encoding()
                    + address_space.spec_encoding() + be64(*virtual_address) + be64(
                    *instruction_pointer,
                ) + access.spec_encoding(),
            ),
            KernelEvent::Interrupt { irq, core } => Ok(
                be16(OS_PROFILE_VERSION) + seq![2u8] + irq.spec_encoding() + core.spec_encoding(),
            ),
            KernelEvent::Timer { core, now_ticks } => Ok(
                be16(OS_PROFILE_VERSION) + seq![3u8] + core.spec_encoding() + be64(*now_ticks),
            ),
            KernelEvent::InterProcessorInterrupt { source, target, reason } => Ok(
                be16(OS_PROFILE_VERSION) + seq![4u8] + source.spec_encoding()
                    + target.spec_encoding() + reason.spec_encoding(),
            ),
        }
    }

    /// Appends the canonical bytes of the event.
    #[verifier::rlimit(40)]
    #[verifier::spinoff_prover]
    pub fn encode_to(&self, output: &mut Vec<u8>) -> (result: Result<(), EncodeError>)
        ensures
            match (result, self.spec_canonical()) {
                (Ok(_), Ok(bytes)) => final(output)@ == old(output)@ + bytes,
                (Err(e), Err(f)) => e == f,
                _ => false,
            },
    {
        put_u16(output, OS_PROFILE_VERSION);
        match self {
            KernelEvent::SystemCall { thread, number, arguments } => {
                put_u8(output, 0);
                thread.encode_to(output);
                put_u32(output, *number);
                let length = put_length(output, arguments.len());
                if length.is_err() {
                    return Err(EncodeError::LengthOverflow);
                }
                encode_each(arguments.as_slice(), output);
                assert(output@ =~= old(output)@ + self.spec_canonical()->Ok_0);
            },
            KernelEvent::PageFault {
                thread,
                address_space,
                virtual_address,
                instruction_pointer,
                access,
            } => {
                put_u8(output, 1);
                thread.encode_to(output);
                address_space.encode_to(output);
                put_u64(output, *virtual_address);
                put_u64(output, *instruction_pointer);
                access.encode_to(output);
                assert(output@ =~= old(output)@ + self.spec_canonical()->Ok_0);
            },
            KernelEvent::Interrupt { irq, core } => {
                put_u8(output, 2);
                irq.encode_to(output);
                core.encode_to(output);
                assert(output@ =~= old(output)@ + self.spec_canonical()->Ok_0);
            },
            KernelEvent::Timer { core, now_ticks } => {
                put_u8(output, 3);
                core.encode_to(output);
                put_u64(output, *now_ticks);
                assert(output@ =~= old(output)@ + self.spec_canonical()->Ok_0);
            },
            KernelEvent::InterProcessorInterrupt { source, target, reason } => {
                put_u8(output, 4);
                source.encode_to(output);
                target.encode_to(output);
                reason.encode_to(output);
                assert(output@ =~= old(output)@ + self.spec_canonical()->Ok_0);
            },
        }
        Ok(())
    }

    /// Canonical bytes of the event.
    pub fn canonical_bytes(&self) -> (bytes: Result<Vec<u8>, EncodeError>)
        ensures
            match (bytes, self.spec_canonical()) {
                (Ok(b), Ok(c)) => b@ == c,
                (Err(e), Err(f)) => e == f,
                _ => false,
            },
    {
        let mut output: Vec<u8> = Vec::new();
        match self.encode_to(&mut output) {
            Ok(()) => {
                assert(output@ =~= self.spec_canonical()->Ok_0);
                Ok(output)
            },
            Err(error) => Err(error),
        }
    }
}

} // verus!

verus! {

/// Invalid machine-plan construction.
#[derive(Clone, Copy, Debug, PartialEq, Eq, Structural)]
pub enum MachinePlanError {
    /// Operation count exceeds the deterministic profile bound.
    TooManyOperations,
    /// One object has an incompatible kind.
    WrongObjectKind,
    /// A page size is outside the profile's supported range.
    InvalidPageBits,
    /// A virtual address is not aligned to its page size.
    MisalignedVirtualAddress,
    /// Mapping rights include non-memory authority or are empty.
    InvalidMappingRights,
    /// Flushing while remaining in the same time domain is rejected as a profile bug.
    RedundantTimeDomainFlush,
}

impl MachinePlanError {
    /// Returns the human-readable description.
    pub fn message(&self) -> (text: &'static str)
        ensures
            text == (match *self {
                MachinePlanError::TooManyOperations => "machine plan exceeds operation bound",
                MachinePlanError::WrongObjectKind => "machine operation references wrong object kind",
                MachinePlanError::InvalidPageBits => "page size is outside supported profile",
                MachinePlanError::MisalignedVirtualAddress => "virtual address is not page aligned",
                MachinePlanError::InvalidMappingRights => "mapping rights are not a non-empty memory subset",
                MachinePlanError::RedundantTimeDomainFlush => "time-domain flush does not change domain",
            }),
    {
        match self {
            MachinePlanError::TooManyOperations => "machine plan exceeds operation bound",
            MachinePlanError::WrongObjectKind => "machine operation references wrong object kind",
            MachinePlanError::InvalidPageBits => "page size is outside supported profile",
            MachinePlanError::MisalignedVirtualAddress => "virtual address is not page aligned",
            MachinePlanError::InvalidMappingRights => "mapping rights are not a non-empty memory subset",
            MachinePlanError::RedundantTimeDomainFlush => "time-domain flush does not change domain",
        }
    }
}

/// Closed hardware-facing operation produced by the pure kernel transition.
#[derive(Clone, Copy, Debug, PartialEq, Eq, Structural)]
pub enum MachineOp {
    /// Selects the active translation root on a core.
    SwitchAddressSpace {
        /// Target core.
        core: CoreId,
        /// Address-space root.
        address_space: ObjectId,
    },
    /// Installs one translation.
    MapTranslation {
        /// Address-space root.
        address_space: ObjectId,
        /// Page-aligned virtual address.
        virtual_address: u64,
        /// Physical frame.
        frame: ObjectId,
        /// Read/write/execute rights only.
        rights: Rights,
        /// Base-two page size.
        page_bits: u8,
    },
    /// Removes one translation.
    UnmapTranslation {
        /// Address-space root.
        address_space: ObjectId,
        /// Page-aligned virtual address.
        virtual_address: u64,
        /// Base-two page size.
        page_bits: u8,
    },
    /// Invalidates a translation cache scope.
    InvalidateTlb {
        /// Target core.
        core: CoreId,
        /// Optional address-space scope; absent means global on that core.
        address_space: Option<ObjectId>,
        /// Optional virtual-address scope.
        virtual_address: Option<u64>,
    },
    /// Programs one timer deadline.
    ProgramTimer {
        /// Target core.
        core: CoreId,
        /// Absolute logical deadline.
        deadline_ticks: u64,
    },
    /// Acknowledges one external interrupt.
    AcknowledgeInterrupt {
        /// Interrupt number.
        irq: IrqId,
    },
    /// Sends an inter-processor interrupt.
    SendIpi {
        /// Sending core.
        source: CoreId,
        /// Receiving core.
        target: CoreId,
        /// Stable reason.
        reason: IpiReason,
    },
    /// Enters one userspace thread.
    EnterUser {
        /// Target core.
        core: CoreId,
        /// Thread object.
        thread: ObjectId,
        /// Userspace instruction pointer.
        instruction_pointer: u64,
        /// Userspace stack pointer.
        stack_pointer: u64,
    },
    /// Performs the architecture-specific mitigation required between time domains.
    FlushTimeDomain {
        /// Target core.
        core: CoreId,
        /// Domain being left.
        from: TimeDomainId,
        /// Domain being entered.
        to: TimeDomainId,
    },
    /// Configures an IOMMU mapping for a DMA-capable device.
    ConfigureIommu {
        /// IOMMU protection domain.
        domain: ObjectId,
        /// Device authority.
        device: ObjectId,
        /// Physical frame made visible to DMA.
        frame: ObjectId,
        /// Whether device writes are allowed.
        writable: bool,
    },
}

/// The object has the expected kind, or the plan is refused for a wrong kind.
pub open spec fn kind_check(object: ObjectId, expected: ObjectKind) -> Result<(), MachinePlanError> {
    if object.spec_kind() == expected {
        Ok(())
    } else {
        Err(MachinePlanError::WrongObjectKind)
    }
}

/// The low `page_bits` bits of the address are zero, so it is a multiple of
/// the page size `2^page_bits`.
pub open spec fn page_aligned(virtual_address: u64, page_bits: u8) -> bool {
    virtual_address & (((1u64 << (page_bits as u64)) - 1) as u64) == 0
}

/// Page sizes range from 4 KiB to 4 PiB, and the address must be aligned.
pub open spec fn page_check(virtual_address: u64, page_bits: u8) -> Result<(), MachinePlanError> {
    if !(12 <= page_bits <= 52) {
        Err(MachinePlanError::InvalidPageBits)
    } else if !page_aligned(virtual_address, page_bits) {
        Err(MachinePlanError::MisalignedVirtualAddress)
    } else {
        Ok(())
    }
}

/// Runs two checks in order, reporting the first failure.
pub open spec fn then_check(first: Result<(), MachinePlanError>, second: Result<(), MachinePlanError>) -> Result<
    (),
    MachinePlanError,
> {
    match first {
        Err(e) => Err(e),
        Ok(_) => second,
    }
}

impl MachineOp {
    /// Validation of one operation, in the order its checks are made.
    pub open spec fn spec_validate(&self) -> Result<(), MachinePlanError> {
        match self {
            MachineOp::SwitchAddressSpace { address_space, .. } => kind_check(
                *address_space,
                ObjectKind::AddressSpace,
            ),
            MachineOp::MapTranslation {
                address_space,
                virtual_address,
                frame,
                rights,
                page_bits,
            } => then_check(
                kind_check(*address_space, ObjectKind::AddressSpace),
                then_check(
                    kind_check(*frame, ObjectKind::Frame),
                    then_check(
                        page_check(*virtual_address, *page_bits),
                        if rights.spec_bits() == 0 || rights.spec_bits() != rights.spec_bits()
                            & RIGHTS_MEMORY_BITS {
                            Err(MachinePlanError::InvalidMappingRights)
                        } else {
                            Ok(())
                        },
                    ),
                ),
            ),
            MachineOp::UnmapTranslation { address_space, virtual_address, page_bits } => then_check(
                kind_check(*address_space, ObjectKind::AddressSpace),
                page_check(*virtual_address, *page_bits),
            ),
            MachineOp::InvalidateTlb { address_space, .. } => match address_space {
                Some(space) => kind_check(*space, ObjectKind::AddressSpace),
                None => Ok(()),
            },
            MachineOp::EnterUser { thread, .. } => kind_check(*thread, ObjectKind::Thread),
            MachineOp::FlushTimeDomain { from, to, .. } => if from == to {
                Err(MachinePlanError::RedundantTimeDomainFlush)
            } else {
                Ok(())
            },
            MachineOp::ConfigureIommu { domain, device, frame, .. } => then_check(
                kind_check(*domain, ObjectKind::IommuDomain),
                then_check(
                    kind_check(*device, ObjectKind::Device),
                    kind_check(*frame, ObjectKind::Frame),
                ),
            ),
            MachineOp::ProgramTimer { .. } => Ok(()),
            MachineOp::AcknowledgeInterrupt { .. } => Ok(()),
            MachineOp::SendIpi { .. } => Ok(()),
        }
    }

    fn validate(&self) -> (result: Result<(), MachinePlanError>)
        ensures
            result == self.spec_validate(),
    {
        match self {
            MachineOp::SwitchAddressSpace { address_space, .. } => require_kind(
                *address_space,
                ObjectKind::AddressSpace,
            ),
            MachineOp::MapTranslation {
                address_space,
                virtual_address,
                frame,
                rights,
                page_bits,
            } => {
                require_kind(*address_space, ObjectKind::AddressSpace)?;
                require_kind(*frame, ObjectKind::Frame)?;
                validate_page(*virtual_address, *page_bits)?;
                if rights.is_empty() || rights.bits() != rights.memory_rights().bits() {
                    return Err(MachinePlanError::InvalidMappingRights);
                }
                Ok(())
            },
            MachineOp::UnmapTranslation { address_space, virtual_address, page_bits } => {
                require_kind(*address_space, ObjectKind::AddressSpace)?;
                validate_page(*virtual_address, *page_bits)
            },
            MachineOp::InvalidateTlb { address_space, .. } => {
                if let Some(space) = address_space {
                    require_kind(*space, ObjectKind::AddressSpace)?;
                }
                Ok(())
            },
            MachineOp::EnterUser { thread, .. } => require_kind(*thread, ObjectKind::Thread),
            MachineOp::FlushTimeDomain { from, to, .. } => {
                if from.get() == to.get() {
                    Err(MachinePlanError::RedundantTimeDomainFlush)
                } else {
                    Ok(())
                }
            },
            MachineOp::ConfigureIommu { domain, device, frame, .. } => {
                require_kind(*domain, ObjectKind::IommuDomain)?;
                require_kind(*device, ObjectKind::Device)?;
                require_kind(*frame, ObjectKind::Frame)
            },
            MachineOp::ProgramTimer { .. } => Ok(()),
            MachineOp::AcknowledgeInterrupt { .. } => Ok(()),
            MachineOp::SendIpi { .. } => Ok(()),
        }
    }
}

fn require_kind(object: ObjectId, expected: ObjectKind) -> (result: Result<(), MachinePlanError>)
    ensures
        result == kind_check(object, expected),
{
    if object.kind() == expected {
        Ok(())
    } else {
        Err(MachinePlanError::WrongObjectKind)
    }
}

fn validate_page(virtual_address: u64, page_bits: u8) -> (result: Result<(), MachinePlanError>)
    ensures
        result == page_check(virtual_address, page_bits),
{
    if page_bits < 12 || page_bits > 52 {
        return Err(MachinePlanError::InvalidPageBits);
    }
    let bits = page_bits as u64;
    assert(bits <= 52 ==> (1u64 << bits) >= 1) by (bit_vector);
    let mask: u64 = (1u64 << bits) - 1;
    if virtual_address & mask != 0 {
        return Err(MachinePlanError::MisalignedVirtualAddress);
    }
    Ok(())
}

fn put_option_object(output: &mut Vec<u8>, value: &Option<ObjectId>)
    ensures
        final(output)@ == old(output)@ + option_object_encoding(*value),
{
    match value {
        None => put_u8(output, 0),
        Some(object) => {
            put_u8(output, 1);
            object.encode_to(output);
        },
    }
    assert(output@ =~= old(output)@ + option_object_encoding(*value));
}

/// Canonical bytes of an optional object identity.
pub open spec fn option_object_encoding(value: Option<ObjectId>) -> Seq<u8> {
    match value {
        None => seq![0u8],
        Some(object) => seq![1u8] + object.spec_encoding(),
    }
}

fn put_option_u64(output: &mut Vec<u8>, value: Option<u64>)
    ensures
        final(output)@ == old(output)@ + option_u64_encoding(value),
{
    match value {
        None => put_u8(output, 0),
        Some(word) => {
            put_u8(output, 1);
            put_u64(output, word);
        },
    }
    assert(output@ =~= old(output)@ + option_u64_encoding(value));
}

/// Canonical bytes of an optional machine word.
pub open spec fn option_u64_encoding(value: Option<u64>) -> Seq<u8> {
    match value {
        None => seq![0u8],
        Some(word) => seq![1u8] + be64(word),
    }
}

impl Encodable for MachineOp {
    open spec fn spec_encoding(&self) -> Seq<u8> {
        match self {
            MachineOp::SwitchAddressSpace { core, address_space } => seq![0u8]
                + core.spec_encoding() + address_space.spec_encoding(),
            MachineOp::MapTranslation {
                address_space,
                virtual_address,
                frame,
                rights,
                page_bits,
            } => seq![1u8] + address_space.spec_encoding() + be64(*virtual_address)
                + frame.spec_encoding() + rights.spec_encoding() + seq![*page_bits],
            MachineOp::UnmapTranslation { address_space, virtual_address, page_bits } => seq![2u8]
                + address_space.spec_encoding() + be64(*virtual_address) + seq![*page_bits],
            MachineOp::InvalidateTlb { core, address_space, virtual_address } => seq![3u8]
                + core.spec_encoding() + option_object_encoding(*address_space)
                + option_u64_encoding(*virtual_address),
            MachineOp::ProgramTimer { core, deadline_ticks } => seq![4u8] + core.spec_encoding()
                + be64(*deadline_ticks),
            MachineOp::AcknowledgeInterrupt { irq } => seq![5u8] + irq.spec_encoding(),
            MachineOp::SendIpi { source, target, reason } => seq![6u8] + source.spec_encoding()
                + target.spec_encoding() + reason.spec_encoding(),
            MachineOp::EnterUser { core, thread, instruction_pointer, stack_pointer } => seq![7u8]
                + core.spec_encoding() + thread.spec_encoding() + be64(*instruction_pointer)
                + be64(*stack_pointer),
            MachineOp::FlushTimeDomain { core, from, to } => seq![8u8] + core.spec_encoding()
                + from.spec_encoding() + to.spec_encoding(),
            MachineOp::ConfigureIommu { domain, device, frame, writable } => seq![9u8]
                + domain.spec_encoding() + device.spec_encoding() + frame.spec_encoding() + seq![
                if *writable {
                    1u8
                } else {
                    0u8
                },
            ],
        }
    }

    fn encode_to(&self, output: &mut Vec<u8>) {
        match self {
            MachineOp::SwitchAddressSpace { core, address_space } => {
                put_u8(output, 0);
                core.encode_to(output);
                address_space.encode_to(output);
            },
            MachineOp::MapTranslation {
                address_space,
                virtual_address,
                frame,
                rights,
                page_bits,
            } => {
                put_u8(output, 1);
                address_space.encode_to(output);
                put_u64(output, *virtual_address);
                frame.encode_to(output);
                rights.encode_to(output);
                put_u8(output, *page_bits);
            },
            MachineOp::UnmapTranslation { address_space, virtual_address, page_bits } => {
                put_u8(output, 2);
                address_space.encode_to(output);
                put_u64(output, *virtual_address);
                put_u8(output, *page_bits);
            },
            MachineOp::InvalidateTlb { core, address_space, virtual_address } => {
                put_u8(output, 3);
                core.encode_to(output);
                put_option_object(output, address_space);
                put_option_u64(output, *virtual_address);
            },
            MachineOp::ProgramTimer { core, deadline_ticks } => {
                put_u8(output, 4);
                core.encode_to(output);
                put_u64(output, *deadline_ticks);
            },
            MachineOp::AcknowledgeInterrupt { irq } => {
                put_u8(output, 5);
                irq.encode_to(output);
            },
            MachineOp::SendIpi { source, target, reason } => {
                put_u8(output, 6);
                source.encode_to(output);
                target.encode_to(output);
                reason.encode_to(output);
            },
            MachineOp::EnterUser { core, thread, instruction_pointer, stack_pointer } => {
                put_u8(output, 7);
                core.encode_to(output);
                thread.encode_to(output);
                put_u64(output, *instruction_pointer);
                put_u64(output, *stack_pointer);
            },
            MachineOp::FlushTimeDomain { core, from, to } => {
                put_u8(output, 8);
                core.encode_to(output);
                from.encode_to(output);
                to.encode_to(output);
            },
            MachineOp::ConfigureIommu { domain, device, frame, writable } => {
                put_u8(output, 9);
                domain.encode_to(output);
                device.encode_to(output);
                frame.encode_to(output);
                put_u8(output, if *writable { 1 } else { 0 });
            },
        }
        assert(output@ =~= old(output)@ + self.spec_encoding());
    }
}

/// Validation of a whole plan: the first failing operation decides.
pub open spec fn validate_operations(operations: Seq<MachineOp>) -> Result<(), MachinePlanError>
    decreases operations.len(),
{
    if operations.len() == 0 {
        Ok(())
    } else {
        match operations[0].spec_validate() {
            Err(e) => Err(e),
            Ok(_) => validate_operations(operations.drop_first()),
        }
    }
}

proof fn lemma_core_prefix(a: CoreId, x: Seq<u8>, b: CoreId, y: Seq<u8>)
    requires
        a.spec_encoding() + x == b.spec_encoding() + y,
    ensures
        a == b,
        x == y,
{
    crate::encode::lemma_be16_prefix(a.spec_get(), x, b.spec_get(), y);
}

proof fn lemma_time_domain_prefix(a: TimeDomainId, x: Seq<u8>, b: TimeDomainId, y: Seq<u8>)
    requires
        a.spec_encoding() + x == b.spec_encoding() + y,
    ensures
        a == b,
        x == y,
{
    crate::encode::lemma_be16_prefix(a.spec_get(), x, b.spec_get(), y);
}

proof fn lemma_irq_prefix(a: IrqId, x: Seq<u8>, b: IrqId, y: Seq<u8>)
    requires
        a.spec_encoding() + x == b.spec_encoding() + y,
    ensures
        a == b,
        x == y,
{
    crate::encode::lemma_be32_prefix(a.spec_get(), x, b.spec_get(), y);
}

proof fn lemma_rights_prefix(a: Rights, x: Seq<u8>, b: Rights, y: Seq<u8>)
    requires
        a.spec_encoding() + x == b.spec_encoding() + y,
    ensures
        a == b,
        x == y,
{
    crate::encode::lemma_be64_prefix(a.spec_bits(), x, b.spec_bits(), y);
}

proof fn lemma_object_prefix(a: ObjectId, x: Seq<u8>, b: ObjectId, y: Seq<u8>)
    requires
        a.spec_encoding() + x == b.spec_encoding() + y,
    ensures
        a == b,
        x == y,
{
    crate::encode::lemma_split_equal(a.spec_encoding(), x, b.spec_encoding(), y);
    lemma_object_encoding_injective(a, b);
}

proof fn lemma_reason_prefix(a: IpiReason, x: Seq<u8>, b: IpiReason, y: Seq<u8>)
    requires
        a.spec_encoding() + x == b.spec_encoding() + y,
    ensures
        a == b,
        x == y,
{
    crate::encode::lemma_split_equal(a.spec_encoding(), x, b.spec_encoding(), y);
    assert(a.spec_encoding()[0] == b.spec_encoding()[0]);
}

proof fn lemma_option_object_prefix(a: Option<ObjectId>, x: Seq<u8>, b: Option<ObjectId>, y: Seq<u8>)
    requires
        option_object_encoding(a) + x == option_object_encoding(b) + y,
    ensures
        a == b,
        x == y,
{
    let ra = match a {
        None => x,
        Some(o) => o.spec_encoding() + x,
    };
    let rb = match b {
        None => y,
        Some(o) => o.spec_encoding() + y,
    };
    let ta: u8 = if a is Some { 1 } else { 0 };
    let tb: u8 = if b is Some { 1 } else { 0 };
    assert(option_object_encoding(a) + x =~= seq![ta] + ra);
    assert(option_object_encoding(b) + y =~= seq![tb] + rb);
    crate::encode::lemma_byte_prefix(ta, ra, tb, rb);
    if let (Some(oa), Some(ob)) = (a, b) {
        lemma_object_prefix(oa, x, ob, y);
    }
}

proof fn lemma_option_u64_prefix(a: Option<u64>, x: Seq<u8>, b: Option<u64>, y: Seq<u8>)
    requires
        option_u64_encoding(a) + x == option_u64_encoding(b) + y,
    ensures
        a == b,
        x == y,
{
    let ra = match a {
        None => x,
        Some(w) => be64(w) + x,
    };
    let rb = match b {
        None => y,
        Some(w) => be64(w) + y,
    };
    let ta: u8 = if a is Some { 1 } else { 0 };
    let tb: u8 = if b is Some { 1 } else { 0 };
    assert(option_u64_encoding(a) + x =~= seq![ta] + ra);
    assert(option_u64_encoding(b) + y =~= seq![tb] + rb);
    crate::encode::lemma_byte_prefix(ta, ra, tb, rb);
    if let (Some(wa), Some(wb)) = (a, b) {
        crate::encode::lemma_be64_prefix(wa, x, wb, y);
    }
}

/// The leading tag byte of an operation's canonical bytes.
spec fn op_tag(op: MachineOp) -> u8 {
    match op {
        MachineOp::SwitchAddressSpace { .. } => 0,
        MachineOp::MapTranslation { .. } => 1,
        MachineOp::UnmapTranslation { .. } => 2,
        MachineOp::InvalidateTlb { .. } => 3,
        MachineOp::ProgramTimer { .. } => 4,
        MachineOp::AcknowledgeInterrupt { .. } => 5,
        MachineOp::SendIpi { .. } => 6,
        MachineOp::EnterUser { .. } => 7,
        MachineOp::FlushTimeDomain { .. } => 8,
        MachineOp::ConfigureIommu { .. } => 9,
    }
}

/// The bytes after an operation's tag, followed by `x`.
spec fn op_body_then(op: MachineOp, x: Seq<u8>) -> Seq<u8> {
    match op {
        MachineOp::SwitchAddressSpace { core, address_space } => core.spec_encoding() + (
        address_space.spec_encoding() + x),
        MachineOp::MapTranslation { address_space, virtual_address, frame, rights, page_bits } =>
            address_space.spec_encoding() + (be64(virtual_address) + (frame.spec_encoding() + (
        rights.spec_encoding() + (seq![page_bits] + x)))),
        MachineOp::UnmapTranslation { address_space, virtual_address, page_bits } =>
            address_space.spec_encoding() + (be64(virtual_address) + (seq![page_bits] + x)),
        MachineOp::InvalidateTlb { core, address_space, virtual_address } => core.spec_encoding() + (
        option_object_encoding(address_space) + (option_u64_encoding(virtual_address) + x)),
        MachineOp::ProgramTimer { core, deadline_ticks } => core.spec_encoding() + (be64(
            deadline_ticks,
        ) + x),
        MachineOp::AcknowledgeInterrupt { irq } => irq.spec_encoding() + x,
        MachineOp::SendIpi { source, target, reason } => source.spec_encoding() + (
        target.spec_encoding() + (reason.spec_encoding() + x)),
        MachineOp::EnterUser { core, thread, instruction_pointer, stack_pointer } =>
            core.spec_encoding() + (thread.spec_encoding() + (be64(instruction_pointer) + (be64(
            stack_pointer,
        ) + x))),
        MachineOp::FlushTimeDomain { core, from, to } => core.spec_encoding() + (from.spec_encoding()
            + (to.spec_encoding() + x)),
        MachineOp::ConfigureIommu { domain, device, frame, writable } => domain.spec_encoding() + (
        device.spec_encoding() + (frame.spec_encoding() + (seq![
            if writable {
                1u8
            } else {
                0u8
            },
        ] + x))),
    }
}

proof fn lemma_op_split(op: MachineOp, x: Seq<u8>)
    ensures
        op.spec_encoding() + x == seq![op_tag(op)] + op_body_then(op, x),
{
    let e = op.spec_encoding();
    let r = op_body_then(op, x);
    match op {
        MachineOp::SwitchAddressSpace { .. } => {
            assert(e + x =~= seq![0u8] + r);
        },
        MachineOp::MapTranslation { .. } => {
            assert(e + x =~= seq![1u8] + r);
        },
        MachineOp::UnmapTranslation { .. } => {
            assert(e + x =~= seq![2u8] + r);
        },
        MachineOp::InvalidateTlb { .. } => {
            assert(e + x =~= seq![3u8] + r);
        },
        MachineOp::ProgramTimer { .. } => {
            assert(e + x =~= seq![4u8] + r);
        },
        MachineOp::AcknowledgeInterrupt { .. } => {
            assert(e + x =~= seq![5u8] + r);
        },
        MachineOp::SendIpi { .. } => {
            assert(e + x =~= seq![6u8] + r);
        },
        MachineOp::EnterUser { .. } => {
            assert(e + x =~= seq![7u8] + r);
        },
        MachineOp::FlushTimeDomain { .. } => {
            assert(e + x =~= seq![8u8] + r);
        },
        MachineOp::ConfigureIommu { .. } => {
            assert(e + x =~= seq![9u8] + r);
        },
    }
}

/// One operation read off the front of a byte string: its canonical bytes
/// determine it and where the rest begins.
proof fn lemma_op_prefix(a: MachineOp, x: Seq<u8>, b: MachineOp, y: Seq<u8>)
    requires
        a.spec_encoding() + x == b.spec_encoding() + y,
    ensures
        a == b,
        x == y,
{
    lemma_op_split(a, x);
    lemma_op_split(b, y);
    crate::encode::lemma_byte_prefix(op_tag(a), op_body_then(a, x), op_tag(b), op_body_then(b, y));
    match (a, b) {
        (
            MachineOp::SwitchAddressSpace { core: c1, address_space: o1 },
            MachineOp::SwitchAddressSpace { core: c2, address_space: o2 },
        ) => {
            lemma_core_prefix(c1, o1.spec_encoding() + x, c2, o2.spec_encoding() + y);
            lemma_object_prefix(o1, x, o2, y);
        },
        (
            MachineOp::MapTranslation {
                address_space: s1,
                virtual_address: v1,
                frame: f1,
                rights: r1,
                page_bits: p1,
            },
            MachineOp::MapTranslation {
                address_space: s2,
                virtual_address: v2,
                frame: f2,
                rights: r2,
                page_bits: p2,
            },
        ) => {
            let t1 = seq![p1] + x;
            let t2 = seq![p2] + y;
            lemma_object_prefix(
                s1,
                be64(v1) + (f1.spec_encoding() + (r1.spec_encoding() + t1)),
                s2,
                be64(v2) + (f2.spec_encoding() + (r2.spec_encoding() + t2)),
            );
            crate::encode::lemma_be64_prefix(
                v1,
                f1.spec_encoding() + (r1.spec_encoding() + t1),
                v2,
                f2.spec_encoding() + (r2.spec_encoding() + t2),
            );
            lemma_object_prefix(f1, r1.spec_encoding() + t1, f2, r2.spec_encoding() + t2);
            lemma_rights_prefix(r1, t1, r2, t2);
            crate::encode::lemma_byte_prefix(p1, x, p2, y);
        },
        (
            MachineOp::UnmapTranslation { address_space: s1, virtual_address: v1, page_bits: p1 },
            MachineOp::UnmapTranslation { address_space: s2, virtual_address: v2, page_bits: p2 },
        ) => {
            lemma_object_prefix(s1, be64(v1) + (seq![p1] + x), s2, be64(v2) + (seq![p2] + y));
            crate::encode::lemma_be64_prefix(v1, seq![p1] + x, v2, seq![p2] + y);
            crate::encode::lemma_byte_prefix(p1, x, p2, y);
        },
        (
            MachineOp::InvalidateTlb { core: c1, address_space: s1, virtual_address: v1 },
            MachineOp::InvalidateTlb { core: c2, address_space: s2, virtual_address: v2 },
        ) => {
            lemma_core_prefix(
                c1,
                option_object_encoding(s1) + (option_u64_encoding(v1) + x),
                c2,
                option_object_encoding(s2) + (option_u64_encoding(v2) + y),
            );
            lemma_option_object_prefix(
                s1,
                option_u64_encoding(v1) + x,
                s2,
                option_u64_encoding(v2) + y,
            );
            lemma_option_u64_prefix(v1, x, v2, y);
        },
        (
            MachineOp::ProgramTimer { core: c1, deadline_ticks: d1 },
            MachineOp::ProgramTimer { core: c2, deadline_ticks: d2 },
        ) => {
            lemma_core_prefix(c1, be64(d1) + x, c2, be64(d2) + y);
            crate::encode::lemma_be64_prefix(d1, x, d2, y);
        },
        (
            MachineOp::AcknowledgeInterrupt { irq: i1 },
            MachineOp::AcknowledgeInterrupt { irq: i2 },
        ) => {
            lemma_irq_prefix(i1, x, i2, y);
        },
        (
            MachineOp::SendIpi { source: a1, target: b1, reason: r1 },
            MachineOp::SendIpi { source: a2, target: b2, reason: r2 },
        ) => {
            lemma_core_prefix(
                a1,
                b1.spec_encoding() + (r1.spec_encoding() + x),
                a2,
                b2.spec_encoding() + (r2.spec_encoding() + y),
            );
            lemma_core_prefix(b1, r1.spec_encoding() + x, b2, r2.spec_encoding() + y);
            lemma_reason_prefix(r1, x, r2, y);
        },
        (
            MachineOp::EnterUser {
                core: c1,
                thread: h1,
                instruction_pointer: i1,
                stack_pointer: k1,
            },
            MachineOp::EnterUser {
                core: c2,
                thread: h2,
                instruction_pointer: i2,
                stack_pointer: k2,
            },
        ) => {
            lemma_core_prefix(
                c1,
                h1.spec_encoding() + (be64(i1) + (be64(k1) + x)),
                c2,
                h2.spec_encoding() + (be64(i2) + (be64(k2) + y)),
            );
            lemma_object_prefix(h1, be64(i1) + (be64(k1) + x), h2, be64(i2) + (be64(k2) + y));
            crate::encode::lemma_be64_prefix(i1, be64(k1) + x, i2, be64(k2) + y);
            crate::encode::lemma_be64_prefix(k1, x, k2, y);
        },
        (
            MachineOp::FlushTimeDomain { core: c1, from: f1, to: t1 },
            MachineOp::FlushTimeDomain { core: c2, from: f2, to: t2 },
        ) => {
            lemma_core_prefix(
                c1,
                f1.spec_encoding() + (t1.spec_encoding() + x),
                c2,
                f2.spec_encoding() + (t2.spec_encoding() + y),
            );
            lemma_time_domain_prefix(f1, t1.spec_encoding() + x, f2, t2.spec_encoding() + y);
            lemma_time_domain_prefix(t1, x, t2, y);
        },
        (
            MachineOp::ConfigureIommu { domain: d1, device: e1, frame: f1, writable: w1 },
            MachineOp::ConfigureIommu { domain: d2, device: e2, frame: f2, writable: w2 },
        ) => {
            let b1: u8 = if w1 {
                1
            } else {
                0
            };
            let b2: u8 = if w2 {
                1
            } else {
                0
            };
            lemma_object_prefix(
                d1,
                e1.spec_encoding() + (f1.spec_encoding() + (seq![b1] + x)),
                d2,
                e2.spec_encoding() + (f2.spec_encoding() + (seq![b2] + y)),
            );
            lemma_object_prefix(e1, f1.spec_encoding() + (seq![b1] + x), e2, f2.spec_encoding() + (
            seq![b2] + y));
            lemma_object_prefix(f1, seq![b1] + x, f2, seq![b2] + y);
            crate::encode::lemma_byte_prefix(b1, x, b2, y);
        },
        _ => {},
    }
}

/// Operation sequences of one length read off the front of a byte string.
proof fn lemma_ops_prefix(s: Seq<MachineOp>, x: Seq<u8>, t: Seq<MachineOp>, y: Seq<u8>)
    requires
        encode_all(s) + x == encode_all(t) + y,
        s.len() == t.len(),
    ensures
        s == t,
        x == y,
    decreases s.len(),
{
    if s.len() == 0 {
        assert(encode_all(s) + x =~= x);
        assert(encode_all(t) + y =~= y);
        assert(s =~= t);
    } else {
        crate::encode::lemma_encode_all_first(s);
        crate::encode::lemma_encode_all_first(t);
        assert(encode_all(s) + x =~= s[0].spec_encoding() + (encode_all(s.drop_first()) + x));
        assert(encode_all(t) + y =~= t[0].spec_encoding() + (encode_all(t.drop_first()) + y));
        lemma_op_prefix(s[0], encode_all(s.drop_first()) + x, t[0], encode_all(t.drop_first()) + y);
        lemma_ops_prefix(s.drop_first(), x, t.drop_first(), y);
        assert forall|i: int| 0 <= i < s.len() implies s[i] == t[i] by {
            if i > 0 {
                assert(s[i] == s.drop_first()[i - 1]);
                assert(t[i] == t.drop_first()[i - 1]);
            }
        }
        assert(s =~= t);
    }
}

/// What an admitted hardware operation satisfies, operation by operation:
/// each object it names has the kind the operation acts on (an address space
/// to switch to or map into, a frame to map or expose to a device, a thread to
/// enter, an IOMMU domain and a device), every page size lies between 2^12
/// and 2^52 with a virtual address aligned to it, a mapping grants a nonempty
/// subset of read, write and execute, and a time-domain flush changes domain.
pub open spec fn op_admissible(op: MachineOp) -> bool {
    match op {
        MachineOp::SwitchAddressSpace { address_space, .. } => address_space.spec_kind() == ObjectKind::AddressSpace,
        MachineOp::MapTranslation { address_space, virtual_address, frame, rights, page_bits } => {
            &&& address_space.spec_kind() == ObjectKind::AddressSpace
            &&& frame.spec_kind() == ObjectKind::Frame
            &&& 12 <= page_bits <= 52
            &&& page_aligned(virtual_address, page_bits)
            &&& rights.spec_bits() != 0
            &&& rights.spec_bits() & RIGHTS_MEMORY_BITS == rights.spec_bits()
        },
        MachineOp::UnmapTranslation { address_space, virtual_address, page_bits } => {
            &&& address_space.spec_kind() == ObjectKind::AddressSpace
            &&& 12 <= page_bits <= 52
            &&& page_aligned(virtual_address, page_bits)
        },
        MachineOp::InvalidateTlb { address_space, .. } => address_space matches Some(space) ==> space.spec_kind()
            == ObjectKind::AddressSpace,
        MachineOp::EnterUser { thread, .. } => thread.spec_kind() == ObjectKind::Thread,
        MachineOp::FlushTimeDomain { from, to, .. } => from != to,
        MachineOp::ConfigureIommu { domain, device, frame, .. } => {
            &&& domain.spec_kind() == ObjectKind::IommuDomain
            &&& device.spec_kind() == ObjectKind::Device
            &&& frame.spec_kind() == ObjectKind::Frame
        },
        MachineOp::ProgramTimer { .. } => true,
        MachineOp::AcknowledgeInterrupt { .. } => true,
        MachineOp::SendIpi { .. } => true,
    }
}

/// An operation passes validation exactly when it is admissible.
pub proof fn lemma_op_validation_admits(op: MachineOp)
    ensures
        op.spec_validate() is Ok <==> op_admissible(op),
{
}

/// A mapping of an object that is not a frame, into an address space, is
/// refused as naming an object of the wrong kind.
pub proof fn lemma_map_non_frame_refused(op: MachineOp)
    requires
        op matches MachineOp::MapTranslation { address_space, frame, .. } && address_space.spec_kind()
            == ObjectKind::AddressSpace && frame.spec_kind() != ObjectKind::Frame,
    ensures
        op.spec_validate() == Err::<(), MachinePlanError>(MachinePlanError::WrongObjectKind),
{
}

/// An operation that names an object of the wrong kind.
pub open spec fn op_names_wrong_kind(op: MachineOp) -> bool {
    match op {
        MachineOp::SwitchAddressSpace { address_space, .. } => address_space.spec_kind() != ObjectKind::AddressSpace,
        MachineOp::MapTranslation { address_space, frame, .. } => address_space.spec_kind() != ObjectKind::AddressSpace
            || frame.spec_kind() != ObjectKind::Frame,
        MachineOp::UnmapTranslation { address_space, .. } => address_space.spec_kind() != ObjectKind::AddressSpace,
        MachineOp::InvalidateTlb { address_space, .. } => address_space matches Some(space) && space.spec_kind()
            != ObjectKind::AddressSpace,
        MachineOp::EnterUser { thread, .. } => thread.spec_kind() != ObjectKind::Thread,
        MachineOp::ConfigureIommu { domain, device, frame, .. } => domain.spec_kind() != ObjectKind::IommuDomain
            || device.spec_kind() != ObjectKind::Device || frame.spec_kind() != ObjectKind::Frame,
        _ => false,
    }
}

/// A refused operation is refused for a fault it has, and an object of the
/// wrong kind is reported before any other fault.
pub proof fn lemma_op_error_names_fault(op: MachineOp)
    ensures
        op_names_wrong_kind(op) ==> op.spec_validate() == Err::<(), MachinePlanError>(
            MachinePlanError::WrongObjectKind,
        ),
        op.spec_validate() == Err::<(), MachinePlanError>(MachinePlanError::WrongObjectKind) ==> op_names_wrong_kind(
            op,
        ),
        op.spec_validate() == Err::<(), MachinePlanError>(MachinePlanError::InvalidPageBits) ==> (
        op matches MachineOp::MapTranslation { page_bits, .. } && !(12 <= page_bits <= 52)) || (
        op matches MachineOp::UnmapTranslation { page_bits, .. } && !(12 <= page_bits <= 52)),
        op.spec_validate() == Err::<(), MachinePlanError>(MachinePlanError::MisalignedVirtualAddress) ==> (
        op matches MachineOp::MapTranslation { virtual_address, page_bits, .. } && !page_aligned(
            virtual_address,
            page_bits,
        )) || (op matches MachineOp::UnmapTranslation { virtual_address, page_bits, .. } && !page_aligned(
            virtual_address,
            page_bits,
        )),
        op.spec_validate() == Err::<(), MachinePlanError>(MachinePlanError::InvalidMappingRights) ==> (
        op matches MachineOp::MapTranslation { rights, .. } && (rights.spec_bits() == 0 || rights.spec_bits()
            & RIGHTS_MEMORY_BITS != rights.spec_bits())),
        op.spec_validate() == Err::<(), MachinePlanError>(MachinePlanError::RedundantTimeDomainFlush) ==> (
        op matches MachineOp::FlushTimeDomain { from, to, .. } && from == to),
{
}

/// A plan validates exactly when every one of its operations is admissible.
pub proof fn lemma_plan_validation_admits(operations: Seq<MachineOp>)
    ensures
        validate_operations(operations) is Ok <==> forall|i: int|
            0 <= i < operations.len() ==> op_admissible(#[trigger] operations[i]),
    decreases operations.len(),
{
    if operations.len() > 0 {
        lemma_plan_validation_admits(operations.drop_first());
        lemma_op_validation_admits(operations[0]);
        if validate_operations(operations) is Ok {
            assert forall|i: int| 0 <= i < operations.len() implies op_admissible(#[trigger] operations[i]) by {
                if i > 0 {
                    assert(operations[i] == operations.drop_first()[i - 1]);
                }
            }
        }
        if forall|i: int| 0 <= i < operations.len() ==> op_admissible(#[trigger] operations[i]) {
            assert(op_admissible(operations[0]));
            assert forall|i: int| 0 <= i < operations.drop_first().len() implies op_admissible(
                #[trigger] operations.drop_first()[i],
            ) by {
                assert(operations.drop_first()[i] == operations[i + 1]);
            }
        }
    }
}

/// Ordered, bounded hardware-effect plan.
///
/// Operation order is semantic and is never sorted by the library.
#[derive(Debug, PartialEq, Eq)]
pub struct MachinePlan {
    operations: Vec<MachineOp>,
}

impl Clone for MachinePlan {
    fn clone(&self) -> (copy: Self)
        ensures
            copy.spec_operations() == self.spec_operations(),
    {
        proof {
            use_type_invariant(self);
        }
        let mut operations: Vec<MachineOp> = Vec::new();
        let mut index: usize = 0;
        while index < self.operations.len()
            invariant
                index <= self.operations@.len(),
                operations@ == self.operations@.subrange(0, index as int),
            decreases self.operations@.len() - index,
        {
            operations.push(self.operations[index]);
            index = index + 1;
            assert(operations@ =~= self.operations@.subrange(0, index as int));
        }
        assert(operations@ =~= self.operations@);
        MachinePlan { operations }
    }
}

impl MachinePlan {
    /// Every admitted plan is bounded and every operation is valid.
    #[verifier::type_invariant]
    spec fn admitted(self) -> bool {
        &&& self.operations@.len() <= MAX_MACHINE_OPERATIONS
        &&& validate_operations(self.operations@) is Ok
    }

    /// Operations in required execution order.
    pub closed spec fn spec_operations(self) -> Seq<MachineOp> {
        self.operations@
    }

    /// Creates a plan after validating every operation and the global bound.
    pub fn try_new(operations: Vec<MachineOp>) -> (plan: Result<Self, MachinePlanError>)
        ensures
            operations@.len() > MAX_MACHINE_OPERATIONS ==> plan == Err::<Self, MachinePlanError>(
                MachinePlanError::TooManyOperations,
            ),
            operations@.len() <= MAX_MACHINE_OPERATIONS ==> match (
                plan,
                validate_operations(operations@),
            ) {
                (Ok(p), Ok(_)) => p.spec_operations() == operations@,
                (Err(e), Err(f)) => e == f,
                _ => false,
            },
            plan matches Ok(p) ==> forall|i: int|
                0 <= i < p.spec_operations().len() ==> op_admissible(#[trigger] p.spec_operations()[i]),
            (exists|i: int| 0 <= i < operations@.len() && !op_admissible(#[trigger] operations@[i])) ==> plan is Err,
    {
        proof {
            lemma_plan_validation_admits(operations@);
        }
        if operations.len() > MAX_MACHINE_OPERATIONS {
            return Err(MachinePlanError::TooManyOperations);
        }
        let mut index: usize = 0;
        assert(operations@.skip(0) =~= operations@);
        while index < operations.len()
            invariant
                index <= operations@.len(),
                operations@.len() <= MAX_MACHINE_OPERATIONS,
                validate_operations(operations@) == validate_operations(
                    operations@.skip(index as int),
                ),
            decreases operations@.len() - index,
        {
            let ghost rest = operations@.skip(index as int);
            assert(rest[0] == operations@[index as int]);
            assert(rest.len() > 0);
            match operations[index].validate() {
                Err(error) => {
                    assert(validate_operations(rest) == Err::<(), MachinePlanError>(error));
                    assert(validate_operations(operations@) == Err::<(), MachinePlanError>(error));
                    assert(operations@.len() <= MAX_MACHINE_OPERATIONS);
                    return Err(error);
                },
                Ok(()) => {},
            }
            assert(rest.drop_first() =~= operations@.skip(index + 1));
            index = index + 1;
        }
        assert(operations@.skip(index as int) =~= Seq::<MachineOp>::empty());
        Ok(MachinePlan { operations })
    }

    /// Returns operations in required execution order.
    pub fn operations(&self) -> (operations: &[MachineOp])
        ensures
            operations@ == self.spec_operations(),
            forall|i: int| 0 <= i < operations@.len() ==> op_admissible(#[trigger] operations@[i]),
    {
        proof {
            use_type_invariant(self);
            lemma_plan_validation_admits(self.operations@);
        }
        self.operations.as_slice()
    }

    /// Returns whether the plan has no hardware effect.
    pub fn is_empty(&self) -> (empty: bool)
        ensures
            empty == (self.spec_operations().len() == 0),
    {
        self.operations.len() == 0
    }

    /// Canonical bytes of the plan: profile version, length, then every operation in order.
    pub open spec fn spec_encoding(self) -> Seq<u8> {
        be16(OS_PROFILE_VERSION) + be32(self.spec_operations().len() as u32) + encode_all(
            self.spec_operations(),
        )
    }

    /// Canonical bytes of the plan.
    pub fn canonical_bytes(&self) -> (bytes: Result<Vec<u8>, EncodeError>)
        ensures
            bytes matches Ok(b) && b@ == self.spec_encoding(),
    {
        proof {
            use_type_invariant(self);
        }
        let mut output: Vec<u8> = Vec::new();
        put_u16(&mut output, OS_PROFILE_VERSION);
        put_u32(&mut output, self.operations.len() as u32);
        encode_each(self.operations.as_slice(), &mut output);
        assert(output@ =~= self.spec_encoding());
        Ok(output)
    }
}

/// Canonical plan bytes determine the plan: two admitted plans with equal
/// bytes hold the same operations in the same order.
pub proof fn lemma_plan_encoding_injective(p: MachinePlan, q: MachinePlan)
    requires
        p.spec_operations().len() <= MAX_MACHINE_OPERATIONS,
        q.spec_operations().len() <= MAX_MACHINE_OPERATIONS,
        p.spec_encoding() == q.spec_encoding(),
    ensures
        p.spec_operations() == q.spec_operations(),
{
    let s = p.spec_operations();
    let t = q.spec_operations();
    assert(p.spec_encoding() =~= be16(OS_PROFILE_VERSION) + (be32(s.len() as u32) + (encode_all(s)
        + Seq::<u8>::empty())));
    assert(q.spec_encoding() =~= be16(OS_PROFILE_VERSION) + (be32(t.len() as u32) + (encode_all(t)
        + Seq::<u8>::empty())));
    crate::encode::lemma_be16_prefix(
        OS_PROFILE_VERSION,
        be32(s.len() as u32) + (encode_all(s) + Seq::<u8>::empty()),
        OS_PROFILE_VERSION,
        be32(t.len() as u32) + (encode_all(t) + Seq::<u8>::empty()),
    );
    crate::encode::lemma_be32_prefix(
        s.len() as u32,
        encode_all(s) + Seq::<u8>::empty(),
        t.len() as u32,
        encode_all(t) + Seq::<u8>::empty(),
    );
    lemma_ops_prefix(s, Seq::<u8>::empty(), t, Seq::<u8>::empty());
}

/// Operation order is part of a plan's meaning: two distinct operations
/// planned in opposite orders give different canonical bytes.
pub proof fn lemma_plan_order_is_significant(p: MachinePlan, q: MachinePlan, a: MachineOp, b: MachineOp)
    requires
        p.spec_operations() == seq![a, b],
        q.spec_operations() == seq![b, a],
        a != b,
    ensures
        p.spec_encoding() != q.spec_encoding(),
{
    if p.spec_encoding() == q.spec_encoding() {
        lemma_plan_encoding_injective(p, q);
        assert(p.spec_operations()[0] == q.spec_operations()[0]);
    }
}

} // verus!

verus! {

broadcast use vstd::seq_lib::group_to_multiset_ensures;

/// Capability slot in a protection domain's initial capability space.
#[derive(Clone, Copy, Debug, PartialEq, Eq, Structural, Hash, PartialOrd, Ord)]
pub struct CapabilitySlot {
    slot: u32,
    capability: Capability,
}

impl CapabilitySlot {
    /// The slot index.
    pub closed spec fn spec_slot(self) -> u32 {
        self.slot
    }

    /// The capability held in the slot.
    pub closed spec fn spec_capability(self) -> Capability {
        self.capability
    }

    /// Creates an initial capability slot.
    pub fn new(slot: u32, capability: Capability) -> (entry: Self)
        ensures
            entry.spec_slot() == slot,
            entry.spec_capability() == capability,
    {
        CapabilitySlot { slot, capability }
    }

    /// Returns the slot index.
    pub fn slot(self) -> (slot: u32)
        ensures
            slot == self.spec_slot(),
    {
        self.slot
    }

    /// Returns the capability.
    pub fn capability(self) -> (capability: Capability)
        ensures
            capability == self.spec_capability(),
    {
        self.capability
    }
}

impl Keyed for CapabilitySlot {
    open spec fn spec_key(&self) -> int {
        self.spec_slot() as int
    }

    fn key_lt(&self, other: &Self) -> bool {
        self.slot < other.slot
    }

    fn key_eq(&self, other: &Self) -> bool {
        self.slot == other.slot
    }
}

impl Encodable for CapabilitySlot {
    open spec fn spec_encoding(&self) -> Seq<u8> {
        be32(self.spec_slot()) + self.spec_capability().spec_encoding()
    }

    fn encode_to(&self, output: &mut Vec<u8>) {
        put_u32(output, self.slot);
        self.capability.encode_to(output);
        assert(output@ =~= old(output)@ + self.spec_encoding());
    }
}

/// Static system-description failure.
#[derive(Clone, Copy, Debug, PartialEq, Eq, Structural)]
pub enum SystemDescriptionError {
    /// A referenced object has the wrong kind.
    WrongObjectKind,
    /// Domain count exceeds the deterministic profile bound.
    TooManyProtectionDomains,
    /// Channel count exceeds the deterministic profile bound.
    TooManyChannels,
    /// Capability-slot count exceeds the per-domain bound.
    TooManyCapabilitySlots,
    /// Two domains use the same stable identifier.
    DuplicateProtectionDomain,
    /// Two capability entries use the same slot.
    DuplicateCapabilitySlot,
    /// Two channels have identical identities.
    DuplicateChannel,
    /// A channel references a domain absent from the system description.
    UnknownProtectionDomain,
}

impl SystemDescriptionError {
    /// Returns the human-readable description.
    pub fn message(&self) -> (text: &'static str)
        ensures
            text == (match *self {
                SystemDescriptionError::WrongObjectKind => "system description references wrong object kind",
                SystemDescriptionError::TooManyProtectionDomains => "protection-domain count exceeds bound",
                SystemDescriptionError::TooManyChannels => "channel count exceeds bound",
                SystemDescriptionError::TooManyCapabilitySlots => "capability-slot count exceeds bound",
                SystemDescriptionError::DuplicateProtectionDomain => "duplicate protection-domain identifier",
                SystemDescriptionError::DuplicateCapabilitySlot => "duplicate capability slot",
                SystemDescriptionError::DuplicateChannel => "duplicate channel",
                SystemDescriptionError::UnknownProtectionDomain => "channel references unknown protection domain",
            }),
    {
        match self {
            SystemDescriptionError::WrongObjectKind => "system description references wrong object kind",
            SystemDescriptionError::TooManyProtectionDomains => "protection-domain count exceeds bound",
            SystemDescriptionError::TooManyChannels => "channel count exceeds bound",
            SystemDescriptionError::TooManyCapabilitySlots => "capability-slot count exceeds bound",
            SystemDescriptionError::DuplicateProtectionDomain => "duplicate protection-domain identifier",
            SystemDescriptionError::DuplicateCapabilitySlot => "duplicate capability slot",
            SystemDescriptionError::DuplicateChannel => "duplicate channel",
            SystemDescriptionError::UnknownProtectionDomain => "channel references unknown protection domain",
        }
    }
}

/// One statically declared protection domain.
#[derive(Debug, PartialEq, Eq)]
pub struct ProtectionDomainSpec {
    id: ProtectionDomainId,
    initial_thread: ObjectId,
    initial_address_space: ObjectId,
    scheduling: SchedulingContext,
    capabilities: Vec<CapabilitySlot>,
}

impl Clone for ProtectionDomainSpec {
    fn clone(&self) -> (copy: Self)
        ensures
            copy@ == self@,
    {
        proof {
            use_type_invariant(self);
        }
        let mut capabilities: Vec<CapabilitySlot> = Vec::new();
        let mut index: usize = 0;
        while index < self.capabilities.len()
            invariant
                index <= self.capabilities@.len(),
                capabilities@ == self.capabilities@.subrange(0, index as int),
            decreases self.capabilities@.len() - index,
        {
            capabilities.push(self.capabilities[index]);
            index = index + 1;
            assert(capabilities@ =~= self.capabilities@.subrange(0, index as int));
        }
        assert(capabilities@ =~= self.capabilities@);
        ProtectionDomainSpec {
            id: self.id,
            initial_thread: self.initial_thread,
            initial_address_space: self.initial_address_space,
            scheduling: self.scheduling,
            capabilities,
        }
    }
}

/// The domain that construction admits for the given declaration, or the
/// reason it is refused; capability slots come out in canonical slot order.
pub open spec fn protection_domain_result(
    initial_thread: ObjectId,
    initial_address_space: ObjectId,
    capabilities: Seq<CapabilitySlot>,
) -> Result<Seq<CapabilitySlot>, SystemDescriptionError> {
    if initial_thread.spec_kind() != ObjectKind::Thread || initial_address_space.spec_kind()
        != ObjectKind::AddressSpace {
        Err(SystemDescriptionError::WrongObjectKind)
    } else if capabilities.len() > MAX_CAPABILITY_SLOTS {
        Err(SystemDescriptionError::TooManyCapabilitySlots)
    } else if has_duplicate_key(capabilities) {
        Err(SystemDescriptionError::DuplicateCapabilitySlot)
    } else {
        Ok(canonical_order(capabilities))
    }
}

impl ProtectionDomainSpec {
    /// Every domain is bound to a thread and an address space and lists its
    /// bounded capability slots in strictly increasing slot order.
    #[verifier::type_invariant]
    spec fn well_formed(self) -> bool {
        &&& self.initial_thread.spec_kind() == ObjectKind::Thread
        &&& self.initial_address_space.spec_kind() == ObjectKind::AddressSpace
        &&& self.capabilities@.len() <= MAX_CAPABILITY_SLOTS
        &&& strictly_sorted_by_key(self.capabilities@)
    }

    /// The protection-domain identifier.
    pub closed spec fn spec_id(self) -> ProtectionDomainId {
        self.id
    }

    /// The initial thread.
    pub closed spec fn spec_initial_thread(self) -> ObjectId {
        self.initial_thread
    }

    /// The initial address space.
    pub closed spec fn spec_initial_address_space(self) -> ObjectId {
        self.initial_address_space
    }

    /// The scheduling context.
    pub closed spec fn spec_scheduling(self) -> SchedulingContext {
        self.scheduling
    }

    /// Initial capability slots in canonical slot order.
    pub closed spec fn spec_capabilities(self) -> Seq<CapabilitySlot> {
        self.capabilities@
    }

    /// Creates a domain and canonicalizes its initial capability slots.
    pub fn try_new(
        id: ProtectionDomainId,
        initial_thread: ObjectId,
        initial_address_space: ObjectId,
        scheduling: SchedulingContext,
        capabilities: Vec<CapabilitySlot>,
    ) -> (domain: Result<Self, SystemDescriptionError>)
        ensures
            match (
                domain,
                protection_domain_result(initial_thread, initial_address_space, capabilities@),
            ) {
                (Ok(d), Ok(slots)) => d.spec_id() == id && d.spec_initial_thread()
                    == initial_thread && d.spec_initial_address_space() == initial_address_space
                    && d.spec_scheduling() == scheduling && d.spec_capabilities() == slots,
                (Err(e), Err(f)) => e == f,
                _ => false,
            },
    {
        if initial_thread.kind() != ObjectKind::Thread || initial_address_space.kind()
            != ObjectKind::AddressSpace {
            return Err(SystemDescriptionError::WrongObjectKind);
        }
        if capabilities.len() > MAX_CAPABILITY_SLOTS {
            return Err(SystemDescriptionError::TooManyCapabilitySlots);
        }
        let ghost original = capabilities@;
        let sorted = sort_by_key(capabilities);
        proof {
            lemma_duplicate_key_multiset(sorted@, original);
        }
        if first_adjacent_duplicate(&sorted).is_some() {
            return Err(SystemDescriptionError::DuplicateCapabilitySlot);
        }
        proof {
            lemma_canonical_order(original, sorted@);
        }
        Ok(ProtectionDomainSpec {
            id,
            initial_thread,
            initial_address_space,
            scheduling,
            capabilities: sorted,
        })
    }

    /// Returns the protection-domain identifier.
    pub fn id(&self) -> (id: ProtectionDomainId)
        ensures
            id == self.spec_id(),
    {
        self.id
    }

    /// Returns initial capability slots in canonical slot order.
    pub fn capabilities(&self) -> (slots: &[CapabilitySlot])
        ensures
            slots@ == self.spec_capabilities(),
            strictly_sorted_by_key(slots@),
            slots@.len() <= MAX_CAPABILITY_SLOTS,
    {
        proof {
            use_type_invariant(self);
        }
        self.capabilities.as_slice()
    }
}

impl View for ProtectionDomainSpec {
    type V = (ProtectionDomainId, ObjectId, ObjectId, SchedulingContext, Seq<CapabilitySlot>);

    open spec fn view(&self) -> Self::V {
        (
            self.spec_id(),
            self.spec_initial_thread(),
            self.spec_initial_address_space(),
            self.spec_scheduling(),
            self.spec_capabilities(),
        )
    }
}

impl Keyed for ProtectionDomainSpec {
    open spec fn spec_key(&self) -> int {
        self.spec_id().spec_get() as int
    }

    fn key_lt(&self, other: &Self) -> bool {
        self.id.get() < other.id.get()
    }

    fn key_eq(&self, other: &Self) -> bool {
        self.id.get() == other.id.get()
    }
}

impl U64Keyed for ProtectionDomainSpec {
    fn key_u64(&self) -> u64 {
        self.id.get() as u64
    }
}

impl Encodable for ProtectionDomainSpec {
    open spec fn spec_encoding(&self) -> Seq<u8> {
        self.spec_id().spec_encoding() + self.spec_initial_thread().spec_encoding()
            + self.spec_initial_address_space().spec_encoding()
            + self.spec_scheduling().spec_encoding() + be32(
            self.spec_capabilities().len() as u32,
        ) + encode_all(self.spec_capabilities())
    }

    fn encode_to(&self, output: &mut Vec<u8>) {
        proof {
            use_type_invariant(self);
        }
        self.id.encode_to(output);
        self.initial_thread.encode_to(output);
        self.initial_address_space.encode_to(output);
        self.scheduling.encode_to(output);
        put_u32(output, self.capabilities.len() as u32);
        encode_each(self.capabilities.as_slice(), output);
        assert(output@ =~= old(output)@ + self.spec_encoding());
    }
}

/// Statically declared IPC channel.
#[derive(Clone, Copy, Debug, PartialEq, Eq, Structural, Hash, PartialOrd, Ord)]
pub struct ChannelSpec {
    sender: ProtectionDomainId,
    receiver: ProtectionDomainId,
    endpoint: ObjectId,
    badge: u64,
}

/// Weight of the sender in the channel ordering key.
pub open spec fn channel_sender_weight() -> int {
    channel_receiver_weight() * 4294967296
}

/// Weight of the receiver in the channel ordering key.
pub open spec fn channel_receiver_weight() -> int {
    channel_kind_weight() * 256
}

/// Weight of the endpoint kind in the channel ordering key.
pub open spec fn channel_kind_weight() -> int {
    channel_generation_weight() * 4294967296
}

/// Weight of the endpoint generation in the channel ordering key.
pub open spec fn channel_generation_weight() -> int {
    channel_index_weight() * channel_index_weight()
}

/// Weight of the endpoint index in the channel ordering key.
pub open spec fn channel_index_weight() -> int {
    18446744073709551616
}

impl ChannelSpec {
    /// The sending domain.
    pub closed spec fn spec_sender(self) -> ProtectionDomainId {
        self.sender
    }

    /// The receiving domain.
    pub closed spec fn spec_receiver(self) -> ProtectionDomainId {
        self.receiver
    }

    /// The endpoint object.
    pub closed spec fn spec_endpoint(self) -> ObjectId {
        self.endpoint
    }

    /// The IPC badge.
    pub closed spec fn spec_badge(self) -> u64 {
        self.badge
    }

    /// Creates a channel to an endpoint object.
    pub fn try_new(
        sender: ProtectionDomainId,
        receiver: ProtectionDomainId,
        endpoint: ObjectId,
        badge: u64,
    ) -> (channel: Result<Self, SystemDescriptionError>)
        ensures
            channel is Ok <==> endpoint.spec_kind() == ObjectKind::Endpoint,
            channel matches Err(e) ==> e == SystemDescriptionError::WrongObjectKind,
            channel matches Ok(c) ==> c.spec_sender() == sender && c.spec_receiver() == receiver
                && c.spec_endpoint() == endpoint && c.spec_badge() == badge,
    {
        if endpoint.kind() != ObjectKind::Endpoint {
            return Err(SystemDescriptionError::WrongObjectKind);
        }
        Ok(ChannelSpec { sender, receiver, endpoint, badge })
    }
}

/// Index and badge part of the channel ordering key.
pub open spec fn channel_key_from_index(c: ChannelSpec) -> int {
    c.spec_endpoint().spec_index() * channel_index_weight() + c.spec_badge()
}

/// Generation, index, and badge part of the channel ordering key.
pub open spec fn channel_key_from_generation(c: ChannelSpec) -> int {
    c.spec_endpoint().spec_generation() * channel_generation_weight() + channel_key_from_index(c)
}

/// Endpoint and badge part of the channel ordering key.
pub open spec fn channel_key_from_kind(c: ChannelSpec) -> int {
    c.spec_endpoint().spec_kind().spec_tag() * channel_kind_weight() + channel_key_from_generation(
        c,
    )
}

/// Receiver, endpoint, and badge part of the channel ordering key.
pub open spec fn channel_key_from_receiver(c: ChannelSpec) -> int {
    c.spec_receiver().spec_get() * channel_receiver_weight() + channel_key_from_kind(c)
}

/// Each layer of the channel key stays below the weight of the layer above.
proof fn lemma_channel_key_layers(c: ChannelSpec)
    ensures
        0 <= channel_key_from_index(c) < channel_generation_weight(),
        0 <= channel_key_from_generation(c) < channel_kind_weight(),
        0 <= channel_key_from_kind(c) < channel_receiver_weight(),
        0 <= channel_key_from_receiver(c) < channel_sender_weight(),
        channel_index_weight() == 18446744073709551616,
        channel_generation_weight() == 340282366920938463463374607431768211456,
{
    let i = c.spec_endpoint().spec_index() as int;
    let g = c.spec_endpoint().spec_generation() as int;
    let k = c.spec_endpoint().spec_kind().spec_tag() as int;
    let r = c.spec_receiver().spec_get() as int;
    assert(i * 18446744073709551616 <= 18446744073709551615 * 18446744073709551616) by (nonlinear_arith)
        requires
            0 <= i <= 18446744073709551615,
    ;
    assert(g * 340282366920938463463374607431768211456 <= 4294967295 * 340282366920938463463374607431768211456) by (nonlinear_arith)
        requires
            0 <= g <= 4294967295,
    ;
    assert(k <= 14);
    assert(r * (340282366920938463463374607431768211456 * 4294967296 * 256) <= 4294967295 * (
    340282366920938463463374607431768211456 * 4294967296 * 256)) by (nonlinear_arith)
        requires
            0 <= r <= 4294967295,
    ;
}

/// Comparing two positional layers `x * w + r` with remainders below `w`
/// compares the leading digits first.
proof fn lemma_layer_order(xa: int, xb: int, w: int, ra: int, rb: int)
    requires
        0 <= ra < w,
        0 <= rb < w,
        0 <= xa,
        0 <= xb,
    ensures
        xa != xb ==> ((xa * w + ra < xb * w + rb) <==> xa < xb),
        xa == xb ==> ((xa * w + ra < xb * w + rb) <==> ra < rb),
{
    if xa < xb {
        assert(xa * w + ra < xb * w + rb) by (nonlinear_arith)
            requires
                xa < xb,
                0 <= ra < w,
                0 <= rb,
        ;
    } else if xb < xa {
        assert(xb * w + rb < xa * w + ra) by (nonlinear_arith)
            requires
                xb < xa,
                0 <= rb < w,
                0 <= ra,
        ;
    }
}

/// The channel key orders channels lexicographically by their fields.
proof fn lemma_channel_key_compare(a: ChannelSpec, b: ChannelSpec)
    ensures
        a.spec_sender().spec_get() != b.spec_sender().spec_get() ==> (a.spec_key() < b.spec_key()
            <==> a.spec_sender().spec_get() < b.spec_sender().spec_get()),
        a.spec_sender().spec_get() == b.spec_sender().spec_get() ==> (a.spec_key() < b.spec_key()
            <==> channel_key_from_receiver(a) < channel_key_from_receiver(b)),
        a.spec_receiver().spec_get() != b.spec_receiver().spec_get() ==> (channel_key_from_receiver(a)
            < channel_key_from_receiver(b) <==> a.spec_receiver().spec_get()
            < b.spec_receiver().spec_get()),
        a.spec_receiver().spec_get() == b.spec_receiver().spec_get() ==> (channel_key_from_receiver(a)
            < channel_key_from_receiver(b) <==> channel_key_from_kind(a) < channel_key_from_kind(b)),
        a.spec_endpoint().spec_kind().spec_tag() != b.spec_endpoint().spec_kind().spec_tag() ==> (
        channel_key_from_kind(a) < channel_key_from_kind(b) <==> a.spec_endpoint().spec_kind().spec_tag()
            < b.spec_endpoint().spec_kind().spec_tag()),
        a.spec_endpoint().spec_kind().spec_tag() == b.spec_endpoint().spec_kind().spec_tag() ==> (
        channel_key_from_kind(a) < channel_key_from_kind(b) <==> channel_key_from_generation(a)
            < channel_key_from_generation(b)),
        a.spec_endpoint().spec_generation() != b.spec_endpoint().spec_generation() ==> (
        channel_key_from_generation(a) < channel_key_from_generation(b)
            <==> a.spec_endpoint().spec_generation() < b.spec_endpoint().spec_generation()),
        a.spec_endpoint().spec_generation() == b.spec_endpoint().spec_generation() ==> (
        channel_key_from_generation(a) < channel_key_from_generation(b) <==> channel_key_from_index(
            a,
        ) < channel_key_from_index(b)),
        a.spec_endpoint().spec_index() != b.spec_endpoint().spec_index() ==> (channel_key_from_index(
            a,
        ) < channel_key_from_index(b) <==> a.spec_endpoint().spec_index()
            < b.spec_endpoint().spec_index()),
        a.spec_endpoint().spec_index() == b.spec_endpoint().spec_index() ==> (channel_key_from_index(
            a,
        ) < channel_key_from_index(b) <==> a.spec_badge() < b.spec_badge()),
{
    lemma_channel_key_layers(a);
    lemma_channel_key_layers(b);
    lemma_layer_order(
        a.spec_sender().spec_get() as int,
        b.spec_sender().spec_get() as int,
        channel_sender_weight(),
        channel_key_from_receiver(a),
        channel_key_from_receiver(b),
    );
    lemma_layer_order(
        a.spec_receiver().spec_get() as int,
        b.spec_receiver().spec_get() as int,
        channel_receiver_weight(),
        channel_key_from_kind(a),
        channel_key_from_kind(b),
    );
    lemma_layer_order(
        a.spec_endpoint().spec_kind().spec_tag() as int,
        b.spec_endpoint().spec_kind().spec_tag() as int,
        channel_kind_weight(),
        channel_key_from_generation(a),
        channel_key_from_generation(b),
    );
    lemma_layer_order(
        a.spec_endpoint().spec_generation() as int,
        b.spec_endpoint().spec_generation() as int,
        channel_generation_weight(),
        channel_key_from_index(a),
        channel_key_from_index(b),
    );
    lemma_layer_order(
        a.spec_endpoint().spec_index() as int,
        b.spec_endpoint().spec_index() as int,
        channel_index_weight(),
        a.spec_badge() as int,
        b.spec_badge() as int,
    );
}

/// Lexicographic order of two channels by sender, receiver, endpoint kind,
/// endpoint generation, endpoint index, then badge.
pub open spec fn channel_fields_lt(a: ChannelSpec, b: ChannelSpec) -> bool {
    let (sa, sb) = (a.spec_sender().spec_get(), b.spec_sender().spec_get());
    let (ra, rb) = (a.spec_receiver().spec_get(), b.spec_receiver().spec_get());
    let (ka, kb) = (a.spec_endpoint().spec_kind().spec_tag(), b.spec_endpoint().spec_kind().spec_tag());
    let (ga, gb) = (a.spec_endpoint().spec_generation(), b.spec_endpoint().spec_generation());
    let (ia, ib) = (a.spec_endpoint().spec_index(), b.spec_endpoint().spec_index());
    if sa != sb {
        sa < sb
    } else if ra != rb {
        ra < rb
    } else if ka != kb {
        ka < kb
    } else if ga != gb {
        ga < gb
    } else if ia != ib {
        ia < ib
    } else {
        a.spec_badge() < b.spec_badge()
    }
}

/// The canonical channel order, in which a system's channels are listed,
/// is the lexicographic order of the channels' fields.
pub proof fn lemma_channel_order_lexicographic(a: ChannelSpec, b: ChannelSpec)
    ensures
        a.spec_key() < b.spec_key() <==> channel_fields_lt(a, b),
{
    lemma_channel_key_compare(a, b);
}

impl Keyed for ChannelSpec {
    /// Lexicographic order of (sender, receiver, endpoint kind, generation,
    /// index, badge), as one integer.
    open spec fn spec_key(&self) -> int {
        self.spec_sender().spec_get() * channel_sender_weight() + channel_key_from_receiver(*self)
    }

    fn key_lt(&self, other: &Self) -> bool {
        proof {
            lemma_channel_key_compare(*self, *other);
        }
        let (a, b) = (self.sender.get(), other.sender.get());
        if a != b {
            return a < b;
        }
        let (a, b) = (self.receiver.get(), other.receiver.get());
        if a != b {
            return a < b;
        }
        let (a, b) = (self.endpoint.kind().tag(), other.endpoint.kind().tag());
        if a != b {
            return a < b;
        }
        let (a, b) = (self.endpoint.generation(), other.endpoint.generation());
        if a != b {
            return a < b;
        }
        let (a, b) = (self.endpoint.index(), other.endpoint.index());
        if a != b {
            return a < b;
        }
        self.badge < other.badge
    }

    fn key_eq(&self, other: &Self) -> bool {
        !self.key_lt(other) && !other.key_lt(self)
    }
}

impl Encodable for ChannelSpec {
    open spec fn spec_encoding(&self) -> Seq<u8> {
        self.spec_sender().spec_encoding() + self.spec_receiver().spec_encoding()
            + self.spec_endpoint().spec_encoding() + be64(self.spec_badge())
    }

    fn encode_to(&self, output: &mut Vec<u8>) {
        self.sender.encode_to(output);
        self.receiver.encode_to(output);
        self.endpoint.encode_to(output);
        put_u64(output, self.badge);
        assert(output@ =~= old(output)@ + self.spec_encoding());
    }
}

} // verus!

verus! {

/// Every channel's sender and receiver are declared domains.
pub open spec fn channels_declared(domains: Seq<ProtectionDomainSpec>, channels: Seq<ChannelSpec>) -> bool {
    forall|i: int|
        #![trigger channels[i]]
        0 <= i < channels.len() ==> has_key(domains, channels[i].spec_sender().spec_get() as int)
            && has_key(domains, channels[i].spec_receiver().spec_get() as int)
}

/// Declared endpoints are a property of the multisets of domains and channels.
pub proof fn lemma_channels_declared_multiset(
    d1: Seq<ProtectionDomainSpec>,
    c1: Seq<ChannelSpec>,
    d2: Seq<ProtectionDomainSpec>,
    c2: Seq<ChannelSpec>,
)
    requires
        d1.to_multiset() == d2.to_multiset(),
        c1.to_multiset() == c2.to_multiset(),
        channels_declared(d1, c1),
    ensures
        channels_declared(d2, c2),
{
    assert forall|i: int| 0 <= i < c2.len() implies has_key(
        d2,
        (#[trigger] c2[i]).spec_sender().spec_get() as int,
    ) && has_key(d2, c2[i].spec_receiver().spec_get() as int) by {
        lemma_member_moves(c2, c1, i);
        let j = choose|j: int| 0 <= j < c1.len() && c1[j] == c2[i];
        assert(has_key(d1, c1[j].spec_sender().spec_get() as int));
        lemma_has_key_multiset(d1, d2, c2[i].spec_sender().spec_get() as int);
        lemma_has_key_multiset(d1, d2, c2[i].spec_receiver().spec_get() as int);
    }
}

/// The system that construction admits for the given declarations, as its
/// canonically ordered domains and channels, or the reason it is refused.
pub open spec fn system_description_result(
    domains: Seq<ProtectionDomainSpec>,
    channels: Seq<ChannelSpec>,
) -> Result<(Seq<ProtectionDomainSpec>, Seq<ChannelSpec>), SystemDescriptionError> {
    if domains.len() > MAX_PROTECTION_DOMAINS {
        Err(SystemDescriptionError::TooManyProtectionDomains)
    } else if channels.len() > MAX_CHANNELS {
        Err(SystemDescriptionError::TooManyChannels)
    } else if has_duplicate_key(domains) {
        Err(SystemDescriptionError::DuplicateProtectionDomain)
    } else if has_duplicate_key(channels) {
        Err(SystemDescriptionError::DuplicateChannel)
    } else if !channels_declared(domains, channels) {
        Err(SystemDescriptionError::UnknownProtectionDomain)
    } else {
        Ok((canonical_order(domains), canonical_order(channels)))
    }
}

/// Leading bytes of the canonical system encoding: `ZFCIS-OS-SYSTEM` and a NUL.
pub open spec fn system_magic() -> Seq<u8> {
    seq![90u8, 70, 67, 73, 83, 45, 79, 83, 45, 83, 89, 83, 84, 69, 77, 0]
}

fn put_system_magic(output: &mut Vec<u8>)
    ensures
        final(output)@ == old(output)@ + system_magic(),
{
    output.push(90);
    output.push(70);
    output.push(67);
    output.push(73);
    output.push(83);
    output.push(45);
    output.push(79);
    output.push(83);
    output.push(45);
    output.push(83);
    output.push(89);
    output.push(83);
    output.push(84);
    output.push(69);
    output.push(77);
    output.push(0);
    assert(output@ =~= old(output)@ + system_magic());
}

/// Canonical static system architecture.
#[derive(Debug, PartialEq, Eq)]
pub struct SystemDescription {
    domains: Vec<ProtectionDomainSpec>,
    channels: Vec<ChannelSpec>,
}

impl SystemDescription {
    /// Every system is bounded, lists domains and channels in strictly
    /// increasing canonical order, and only connects declared domains.
    #[verifier::type_invariant]
    spec fn well_formed(self) -> bool {
        &&& self.domains@.len() <= MAX_PROTECTION_DOMAINS
        &&& self.channels@.len() <= MAX_CHANNELS
        &&& strictly_sorted_by_key(self.domains@)
        &&& strictly_sorted_by_key(self.channels@)
        &&& channels_declared(self.domains@, self.channels@)
    }

    /// Domains in canonical identifier order.
    pub closed spec fn spec_domains(self) -> Seq<ProtectionDomainSpec> {
        self.domains@
    }

    /// Channels in canonical tuple order.
    pub closed spec fn spec_channels(self) -> Seq<ChannelSpec> {
        self.channels@
    }

    /// Creates a system after canonical ordering and referential checks.
    pub fn try_new(domains: Vec<ProtectionDomainSpec>, channels: Vec<ChannelSpec>) -> (system:
        Result<Self, SystemDescriptionError>)
        ensures
            match (system, system_description_result(domains@, channels@)) {
                (Ok(s), Ok((d, c))) => s.spec_domains() == d && s.spec_channels() == c,
                (Err(e), Err(f)) => e == f,
                _ => false,
            },
    {
        if domains.len() > MAX_PROTECTION_DOMAINS {
            return Err(SystemDescriptionError::TooManyProtectionDomains);
        }
        if channels.len() > MAX_CHANNELS {
            return Err(SystemDescriptionError::TooManyChannels);
        }
        let ghost original_domains = domains@;
        let ghost original_channels = channels@;
        let domains = sort_by_key(domains);
        proof {
            lemma_duplicate_key_multiset(domains@, original_domains);
        }
        if first_adjacent_duplicate(&domains).is_some() {
            return Err(SystemDescriptionError::DuplicateProtectionDomain);
        }
        let channels = sort_by_key(channels);
        proof {
            lemma_duplicate_key_multiset(channels@, original_channels);
        }
        if first_adjacent_duplicate(&channels).is_some() {
            return Err(SystemDescriptionError::DuplicateChannel);
        }
        let mut index: usize = 0;
        #[verifier::loop_isolation(false)]
        while index < channels.len()
            invariant
                index <= channels@.len(),
                strictly_sorted_by_key(domains@),
                domains@.to_multiset() == original_domains.to_multiset(),
                channels@.to_multiset() == original_channels.to_multiset(),
                original_domains.len() <= MAX_PROTECTION_DOMAINS,
                original_channels.len() <= MAX_CHANNELS,
                !has_duplicate_key(original_domains),
                !has_duplicate_key(original_channels),
                forall|i: int|
                    #![trigger channels@[i]]
                    0 <= i < index ==> has_key(domains@, channels@[i].spec_sender().spec_get() as int)
                        && has_key(domains@, channels@[i].spec_receiver().spec_get() as int),
            decreases channels@.len() - index,
        {
            let channel = channels[index];
            if find_key(&domains, channel.sender.get() as u64).is_none() || find_key(
                &domains,
                channel.receiver.get() as u64,
            ).is_none() {
                proof {
                    if channels_declared(domains@, channels@) {
                        assert(has_key(
                            domains@,
                            channels@[index as int].spec_sender().spec_get() as int,
                        ));
                        assert(has_key(
                            domains@,
                            channels@[index as int].spec_receiver().spec_get() as int,
                        ));
                    }
                    if channels_declared(original_domains, original_channels) {
                        lemma_channels_declared_multiset(
                            original_domains,
                            original_channels,
                            domains@,
                            channels@,
                        );
                    }
                    assert(!channels_declared(domains@, channels@));
                    assert(!channels_declared(original_domains, original_channels));
                    assert(system_description_result(original_domains, original_channels)
                        == Err::<(Seq<ProtectionDomainSpec>, Seq<ChannelSpec>), SystemDescriptionError>(
                        SystemDescriptionError::UnknownProtectionDomain,
                    ));
                }
                return Err(SystemDescriptionError::UnknownProtectionDomain);
            }
            assert(has_key(domains@, channels@[index as int].spec_sender().spec_get() as int));
            assert(has_key(domains@, channels@[index as int].spec_receiver().spec_get() as int));
            index = index + 1;
        }
        proof {
            assert(channels_declared(domains@, channels@));
            lemma_channels_declared_multiset(domains@, channels@, original_domains, original_channels);
            lemma_canonical_order(original_domains, domains@);
            lemma_canonical_order(original_channels, channels@);
        }
        Ok(SystemDescription { domains, channels })
    }

    /// Returns domains in canonical identifier order.
    pub fn domains(&self) -> (domains: &[ProtectionDomainSpec])
        ensures
            domains@ == self.spec_domains(),
            strictly_sorted_by_key(domains@),
            domains@.len() <= MAX_PROTECTION_DOMAINS,
    {
        proof {
            use_type_invariant(self);
        }
        self.domains.as_slice()
    }

    /// Returns channels in canonical tuple order.
    pub fn channels(&self) -> (channels: &[ChannelSpec])
        ensures
            channels@ == self.spec_channels(),
            strictly_sorted_by_key(channels@),
            channels@.len() <= MAX_CHANNELS,
            channels_declared(self.spec_domains(), channels@),
    {
        proof {
            use_type_invariant(self);
        }
        self.channels.as_slice()
    }

    /// Canonical bytes: magic, profile version, then length-prefixed domains and channels.
    pub open spec fn spec_encoding(self) -> Seq<u8> {
        system_magic() + be16(OS_PROFILE_VERSION) + be32(self.spec_domains().len() as u32)
            + encode_all(self.spec_domains()) + be32(self.spec_channels().len() as u32)
            + encode_all(self.spec_channels())
    }

    /// Canonical bytes of the system.
    pub fn canonical_bytes(&self) -> (bytes: Result<Vec<u8>, EncodeError>)
        ensures
            bytes matches Ok(b) && b@ == self.spec_encoding(),
    {
        proof {
            use_type_invariant(self);
        }
        let mut output: Vec<u8> = Vec::new();
        put_system_magic(&mut output);
        put_u16(&mut output, OS_PROFILE_VERSION);
        put_u32(&mut output, self.domains.len() as u32);
        encode_each(self.domains.as_slice(), &mut output);
        put_u32(&mut output, self.channels.len() as u32);
        encode_each(self.channels.as_slice(), &mut output);
        assert(output@ =~= self.spec_encoding());
        Ok(output)
    }
}

impl Clone for SystemDescription {
    fn clone(&self) -> (copy: Self)
        ensures
            copy.spec_channels() == self.spec_channels(),
            copy.spec_domains().len() == self.spec_domains().len(),
            forall|i: int|
                0 <= i < self.spec_domains().len() ==> (#[trigger] copy.spec_domains()[i])@
                    == self.spec_domains()[i]@,
    {
        proof {
            use_type_invariant(self);
        }
        let mut domains: Vec<ProtectionDomainSpec> = Vec::new();
        let mut index: usize = 0;
        while index < self.domains.len()
            invariant
                index <= self.domains@.len(),
                domains@.len() == index,
                forall|i: int| 0 <= i < index ==> (#[trigger] domains@[i])@ == self.domains@[i]@,
            decreases self.domains@.len() - index,
        {
            domains.push(self.domains[index].clone());
            index = index + 1;
        }
        let mut channels: Vec<ChannelSpec> = Vec::new();
        let mut index: usize = 0;
        while index < self.channels.len()
            invariant
                index <= self.channels@.len(),
                channels@ == self.channels@.subrange(0, index as int),
            decreases self.channels@.len() - index,
        {
            channels.push(self.channels[index]);
            index = index + 1;
            assert(channels@ =~= self.channels@.subrange(0, index as int));
        }
        assert(channels@ =~= self.channels@);
        assert(strictly_sorted_by_key(domains@)) by {
            assert forall|i: int, j: int| 0 <= i < j < domains@.len() implies domains@[i].spec_key()
                < domains@[j].spec_key() by {
                assert(domains@[i]@ == self.domains@[i]@);
                assert(domains@[j]@ == self.domains@[j]@);
            }
        }
        assert(channels_declared(domains@, channels@)) by {
            assert forall|k: int| #[trigger] has_key(self.domains@, k) implies has_key(domains@, k) by {
                let i = choose|i: int| 0 <= i < self.domains@.len() && self.domains@[i].spec_key() == k;
                assert(domains@[i]@ == self.domains@[i]@);
            }
        }
        SystemDescription { domains, channels }
    }
}

/// Declaration order never changes a system description: any two
/// rearrangements of the same domains and channels are admitted or refused
/// alike, and admitted ones have identical canonical domains and channels.
pub proof fn lemma_system_description_history_independent(
    domains: Seq<ProtectionDomainSpec>,
    channels: Seq<ChannelSpec>,
    reordered_domains: Seq<ProtectionDomainSpec>,
    reordered_channels: Seq<ChannelSpec>,
)
    requires
        domains.to_multiset() == reordered_domains.to_multiset(),
        channels.to_multiset() == reordered_channels.to_multiset(),
    ensures
        system_description_result(domains, channels) == system_description_result(
            reordered_domains,
            reordered_channels,
        ),
{
    assert(domains.len() == reordered_domains.len()) by {
        assert(domains.to_multiset().len() == domains.len());
        assert(reordered_domains.to_multiset().len() == reordered_domains.len());
    }
    assert(channels.len() == reordered_channels.len()) by {
        assert(channels.to_multiset().len() == channels.len());
        assert(reordered_channels.to_multiset().len() == reordered_channels.len());
    }
    lemma_duplicate_key_multiset(domains, reordered_domains);
    lemma_duplicate_key_multiset(channels, reordered_channels);
    if channels_declared(domains, channels) {
        lemma_channels_declared_multiset(domains, channels, reordered_domains, reordered_channels);
    }
    if channels_declared(reordered_domains, reordered_channels) {
        lemma_channels_declared_multiset(reordered_domains, reordered_channels, domains, channels);
    }
    lemma_canonical_order_multiset(domains, reordered_domains);
    lemma_canonical_order_multiset(channels, reordered_channels);
}

/// Two systems admitted from rearrangements of the same domains and channels
/// are the same system: equal domains, equal channels and equal canonical
/// bytes.
pub proof fn lemma_system_description_reordered(
    a: SystemDescription,
    b: SystemDescription,
    domains: Seq<ProtectionDomainSpec>,
    channels: Seq<ChannelSpec>,
    reordered_domains: Seq<ProtectionDomainSpec>,
    reordered_channels: Seq<ChannelSpec>,
)
    requires
        domains.to_multiset() == reordered_domains.to_multiset(),
        channels.to_multiset() == reordered_channels.to_multiset(),
        system_description_result(domains, channels) == Ok::<
            (Seq<ProtectionDomainSpec>, Seq<ChannelSpec>),
            SystemDescriptionError,
        >((a.spec_domains(), a.spec_channels())),
        system_description_result(reordered_domains, reordered_channels) == Ok::<
            (Seq<ProtectionDomainSpec>, Seq<ChannelSpec>),
            SystemDescriptionError,
        >((b.spec_domains(), b.spec_channels())),
    ensures
        a.spec_domains() == b.spec_domains(),
        a.spec_channels() == b.spec_channels(),
        a.spec_encoding() == b.spec_encoding(),
{
    lemma_system_description_history_independent(domains, channels, reordered_domains, reordered_channels);
}

/// Declaration order of capability slots never changes a protection domain.
pub proof fn lemma_protection_domain_history_independent(
    initial_thread: ObjectId,
    initial_address_space: ObjectId,
    capabilities: Seq<CapabilitySlot>,
    reordered: Seq<CapabilitySlot>,
)
    requires
        capabilities.to_multiset() == reordered.to_multiset(),
    ensures
        protection_domain_result(initial_thread, initial_address_space, capabilities)
            == protection_domain_result(initial_thread, initial_address_space, reordered),
{
    assert(capabilities.to_multiset().len() == capabilities.len());
    assert(reordered.to_multiset().len() == reordered.len());
    lemma_duplicate_key_multiset(capabilities, reordered);
    lemma_canonical_order_multiset(capabilities, reordered);
}

/// Every operation of an admitted plan is individually valid.
pub proof fn lemma_plan_operations_valid(operations: Seq<MachineOp>, index: int)
    requires
        validate_operations(operations) is Ok,
        0 <= index < operations.len(),
    ensures
        operations[index].spec_validate() is Ok,
    decreases index,
{
    if index > 0 {
        lemma_plan_operations_valid(operations.drop_first(), index - 1);
    }
}

} // verus!

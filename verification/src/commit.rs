//! Domain-separated content commitments.

use vstd::prelude::*;

use vstd::string::StringSliceAdditionalSpecFns;

use crate::encode::{be16, be64, put_bytes, put_u16, put_u64, EncodeError};

verus! {

/// A 32-byte content commitment.
#[derive(Clone, Copy, Debug, Eq, Hash)]
pub struct Hash32([u8; 32]);

impl Hash32 {
    /// The commitment bytes.
    pub closed spec fn spec_bytes(self) -> Seq<u8> {
        self.0@
    }

    /// Wraps commitment bytes.
    pub fn new(bytes: [u8; 32]) -> (hash: Self)
        ensures
            hash.spec_bytes() == bytes@,
    {
        Hash32(bytes)
    }

    /// The all-zero placeholder commitment, as a value.
    pub open spec fn spec_zero() -> Hash32 {
        choose|h: Hash32| h.spec_is_zero()
    }

    /// The all-zero placeholder commitment.
    pub fn zero() -> (hash: Self)
        ensures
            hash.spec_is_zero(),
            hash == Hash32::spec_zero(),
    {
        let hash = Hash32([0u8; 32]);
        assert(hash.spec_bytes() =~= Seq::new(32, |i: int| 0u8));
        proof {
            assert(hash.spec_is_zero());
            let z = Hash32::spec_zero();
            assert(z.spec_is_zero());
            z.lemma_bytes_injective(hash);
        }
        hash
    }

    /// Every byte of the commitment is zero.
    pub open spec fn spec_is_zero(self) -> bool {
        self.spec_bytes() == Seq::new(32, |i: int| 0u8)
    }

    /// Returns whether this is the all-zero placeholder commitment.
    pub fn is_zero(&self) -> (zero: bool)
        ensures
            zero == self.spec_is_zero(),
    {
        let mut index: usize = 0;
        while index < 32
            invariant
                index <= 32,
                self.spec_bytes().len() == 32,
                forall|i: int| 0 <= i < index ==> self.spec_bytes()[i] == 0u8,
            decreases 32 - index,
        {
            if self.0[index] != 0 {
                return false;
            }
            index = index + 1;
        }
        assert(self.spec_bytes() =~= Seq::new(32, |i: int| 0u8));
        true
    }

    /// A commitment is 32 bytes long.
    pub broadcast proof fn lemma_len(self)
        ensures
            #[trigger] self.spec_bytes().len() == 32,
    {
    }

    /// Commitments are equal exactly when their bytes are.
    pub proof fn lemma_bytes_injective(self, other: Self)
        requires
            self.spec_bytes() == other.spec_bytes(),
        ensures
            self == other,
    {
        broadcast use vstd::array::axiom_array_ext_equal;

        assert(self.0 =~= other.0);
    }

    /// Returns the commitment bytes.
    pub fn as_bytes(&self) -> (bytes: &[u8; 32])
        ensures
            bytes@ == self.spec_bytes(),
    {
        &self.0
    }
}

impl PartialEq for Hash32 {
    fn eq(&self, other: &Self) -> (equal: bool) {
        let mut index: usize = 0;
        while index < 32
            invariant
                index <= 32,
                forall|i: int| 0 <= i < index ==> self.0@[i] == other.0@[i],
            decreases 32 - index,
        {
            if self.0[index] != other.0[index] {
                assert(self.spec_bytes()[index as int] != other.spec_bytes()[index as int]);
                return false;
            }
            index = index + 1;
        }
        assert(self.spec_bytes() =~= other.spec_bytes());
        true
    }
}

impl vstd::std_specs::cmp::PartialEqSpecImpl for Hash32 {
    open spec fn obeys_eq_spec() -> bool {
        true
    }

    open spec fn eq_spec(&self, other: &Self) -> bool {
        self.spec_bytes() == other.spec_bytes()
    }
}

/// The big-endian unsigned integer a byte string spells.
pub open spec fn bytes_key(bytes: Seq<u8>) -> int
    decreases bytes.len(),
{
    if bytes.len() == 0 {
        0
    } else {
        bytes_key(bytes.drop_last()) * 256 + bytes.last()
    }
}

/// Byte strings of one length whose first difference is at `i` compare as
/// their bytes there do.
proof fn lemma_key_first_difference(a: Seq<u8>, b: Seq<u8>, i: int)
    requires
        a.len() == b.len(),
        0 <= i < a.len(),
        a.take(i) == b.take(i),
        a[i] < b[i],
    ensures
        bytes_key(a) < bytes_key(b),
    decreases a.len(),
{
    if i == a.len() - 1 {
        assert(a.drop_last() =~= a.take(i));
        assert(b.drop_last() =~= b.take(i));
    } else {
        assert(a.drop_last().take(i) =~= a.take(i));
        assert(b.drop_last().take(i) =~= b.take(i));
        lemma_key_first_difference(a.drop_last(), b.drop_last(), i);
        let x = bytes_key(a.drop_last());
        let y = bytes_key(b.drop_last());
        assert(x * 256 + a.last() < y * 256 + b.last()) by {
            assert(x + 1 <= y);
            assert((x + 1) * 256 <= y * 256);
        }
    }
}

/// Equal byte strings have equal keys; otherwise, at equal length, the keys
/// order as the bytes do lexicographically.
proof fn lemma_key_compare(a: Seq<u8>, b: Seq<u8>, k: int)
    requires
        a.len() == b.len(),
        0 <= k <= a.len(),
        a.take(k) == b.take(k),
        k < a.len() ==> a[k] != b[k],
    ensures
        k == a.len() ==> bytes_key(a) == bytes_key(b),
        k < a.len() && a[k] < b[k] ==> bytes_key(a) < bytes_key(b),
        k < a.len() && a[k] > b[k] ==> bytes_key(a) > bytes_key(b),
{
    if k == a.len() {
        assert(a =~= a.take(k));
        assert(b =~= b.take(k));
    } else if a[k] < b[k] {
        lemma_key_first_difference(a, b, k);
    } else {
        lemma_key_first_difference(b, a, k);
    }
}

/// Byte strings of one length with equal keys are equal.
proof fn lemma_key_injective(a: Seq<u8>, b: Seq<u8>)
    requires
        a.len() == b.len(),
        bytes_key(a) == bytes_key(b),
    ensures
        a == b,
    decreases a.len(),
{
    if a.len() > 0 {
        let x = bytes_key(a.drop_last());
        let y = bytes_key(b.drop_last());
        if x < y {
            assert((x + 1) * 256 <= y * 256);
        } else if y < x {
            assert((y + 1) * 256 <= x * 256);
        }
        assert(x == y);
        lemma_key_injective(a.drop_last(), b.drop_last());
        assert(a =~= a.drop_last().push(a.last()));
        assert(b =~= b.drop_last().push(b.last()));
    } else {
        assert(a =~= b);
    }
}

impl Hash32 {
    /// The commitment as a 256-bit big-endian integer; commitments order by it.
    pub open spec fn spec_key(self) -> int {
        bytes_key(self.spec_bytes())
    }

    /// Compares two commitments as 256-bit big-endian integers.
    pub fn key_less(&self, other: &Self) -> (less: bool)
        ensures
            less == (self.spec_key() < other.spec_key()),
    {
        let mut k: usize = 0;
        while k < 32 && self.0[k] == other.0[k]
            invariant
                k <= 32,
                self.0@.len() == 32,
                other.0@.len() == 32,
                forall|i: int| 0 <= i < k ==> self.0@[i] == other.0@[i],
            decreases 32 - k,
        {
            k = k + 1;
        }
        assert(self.0@.take(k as int) =~= other.0@.take(k as int));
        proof {
            lemma_key_compare(self.0@, other.0@, k as int);
        }
        k < 32 && self.0[k] < other.0[k]
    }

    /// Commitments with equal keys are equal.
    pub proof fn lemma_key_injective(self, other: Self)
        requires
            self.spec_key() == other.spec_key(),
        ensures
            self == other,
    {
        lemma_key_injective(self.spec_bytes(), other.spec_bytes());
        self.lemma_bytes_injective(other);
    }
}

/// A hash function that commits to byte strings; deployments choose it.
pub trait CommitmentHasher {
    /// Stable name of the algorithm.
    fn algorithm_id() -> &'static str;

    /// The commitment of a byte string: a function of the bytes alone. A
    /// hasher verified against these contracts states its own; the default
    /// says nothing of any particular byte string.
    closed spec fn spec_hash(bytes: Seq<u8>) -> Hash32 {
        arbitrary()
    }

    /// Hashes the bytes.
    fn hash(bytes: &[u8]) -> (digest: Hash32)
        ensures
            digest == Self::spec_hash(bytes@),
    ;
}

/// The bytes that a commitment hashes: the length-prefixed domain label, the
/// domain version, then the length-prefixed content.
pub open spec fn commitment_preimage(label: Seq<u8>, version: u16, content: Seq<u8>) -> Seq<u8> {
    be16(label.len() as u16) + label + be16(version) + be64(content.len() as u64) + content
}

/// Frames content under a domain label and version.
pub fn frame_commitment(label: &[u8], version: u16, content: &[u8]) -> (preimage: Vec<u8>)
    requires
        label@.len() <= u16::MAX,
    ensures
        preimage@ == commitment_preimage(label@, version, content@),
{
    let mut output: Vec<u8> = Vec::new();
    put_u16(&mut output, label.len() as u16);
    put_bytes(&mut output, label);
    put_u16(&mut output, version);
    put_u64(&mut output, content.len() as u64);
    put_bytes(&mut output, content);
    assert(output@ =~= commitment_preimage(label@, version, content@));
    output
}


/// A commitment domain: a label and a version that separate what is hashed.
#[derive(Debug, PartialEq, Eq)]
pub struct Domain {
    name: Vec<u8>,
    version: u16,
}

impl Domain {
    /// The label fits its 16-bit length prefix.
    #[verifier::type_invariant]
    spec fn bounded(self) -> bool {
        self.name@.len() <= u16::MAX
    }

    /// The label bytes.
    pub closed spec fn spec_name(self) -> Seq<u8> {
        self.name@
    }

    /// The version.
    pub closed spec fn spec_version(self) -> u16 {
        self.version
    }

    /// A domain from a label and a version; the label must fit its 16-bit length prefix.
    pub fn new(name: &str, version: u16) -> (domain: Result<Domain, EncodeError>)
        ensures
            name.spec_bytes().len() <= u16::MAX ==> (domain matches Ok(d) && d.spec_name() == name.spec_bytes()
                && d.spec_version() == version),
            name.spec_bytes().len() > u16::MAX ==> domain == Err::<Domain, EncodeError>(EncodeError::LengthOverflow),
    {
        let bytes = name.as_bytes();
        if bytes.len() > 0xffffusize {
            return Err(EncodeError::LengthOverflow);
        }
        let mut label: Vec<u8> = Vec::new();
        put_bytes(&mut label, bytes);
        assert(label@ =~= name.spec_bytes());
        Ok(Domain { name: label, version })
    }

    /// Returns the label bytes.
    pub fn name(&self) -> (name: &[u8])
        ensures
            name@ == self.spec_name(),
            name@.len() <= u16::MAX,
    {
        proof {
            use_type_invariant(self);
        }
        self.name.as_slice()
    }

    /// Returns the version.
    pub fn version(&self) -> (version: u16)
        ensures
            version == self.spec_version(),
    {
        self.version
    }

    /// The bytes a commitment under this domain hashes for some content.
    pub fn frame(&self, content: &[u8]) -> (preimage: Vec<u8>)
        ensures
            preimage@ == commitment_preimage(self.spec_name(), self.spec_version(), content@),
    {
        proof {
            use_type_invariant(self);
        }
        frame_commitment(self.name.as_slice(), self.version, content)
    }
}


impl Domain {
    /// A domain from label bytes and a version; the label must fit its 16-bit length prefix.
    pub fn from_label(label: Vec<u8>, version: u16) -> (domain: Result<Domain, EncodeError>)
        ensures
            label@.len() <= u16::MAX ==> (domain matches Ok(d) && d.spec_name() == label@ && d.spec_version()
                == version),
            label@.len() > u16::MAX ==> domain == Err::<Domain, EncodeError>(EncodeError::LengthOverflow),
    {
        if label.len() > 0xffffusize {
            return Err(EncodeError::LengthOverflow);
        }
        Ok(Domain { name: label, version })
    }
}

} // verus!

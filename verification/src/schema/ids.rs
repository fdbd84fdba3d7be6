//! Stable schema identifiers and validated names.

use vstd::prelude::*;
use vstd::string::StringSliceAdditionalSpecFns;
use vstd::utf8::encode_utf8;

use crate::encode::{be16, be32, put_u16, put_u32, Encodable};
use crate::schema::error::SchemaError;

verus! {

/// Stable numeric type identifier inside one closed schema.
#[derive(Clone, Copy, Debug, PartialEq, Eq, Structural, Hash, PartialOrd, Ord)]
pub struct TypeId(u32);

impl TypeId {
    /// The raw identifier.
    pub closed spec fn spec_get(self) -> u32 {
        self.0
    }

    /// The identifier with the given raw value.
    pub closed spec fn spec_new(value: u32) -> Self {
        TypeId(value)
    }

    /// Constructs a type identifier.
    pub fn new(value: u32) -> (id: Self)
        ensures
            id.spec_get() == value,
            id == Self::spec_new(value),
    {
        TypeId(value)
    }

    /// The raw value determines the identifier and is recovered from it.
    pub broadcast proof fn lemma_spec_new(value: u32)
        ensures
            #[trigger] Self::spec_new(value).spec_get() == value,
    {
    }

    /// Returns the numeric identifier.
    pub fn get(self) -> (value: u32)
        ensures
            value == self.spec_get(),
    {
        self.0
    }

    /// Identifiers are determined by their raw value.
    pub proof fn lemma_get_injective(self, other: Self)
        requires
            self.spec_get() == other.spec_get(),
        ensures
            self == other,
    {
    }
}

impl Encodable for TypeId {
    open spec fn spec_encoding(&self) -> Seq<u8> {
        be32(self.spec_get())
    }

    fn encode_to(&self, output: &mut Vec<u8>) {
        put_u32(output, self.0);
    }
}

/// Stable numeric field identifier inside one record.
#[derive(Clone, Copy, Debug, PartialEq, Eq, Structural, Hash, PartialOrd, Ord)]
pub struct FieldId(u16);

impl FieldId {
    /// The raw identifier.
    pub closed spec fn spec_get(self) -> u16 {
        self.0
    }

    /// The identifier with the given raw value.
    pub closed spec fn spec_new(value: u16) -> Self {
        FieldId(value)
    }

    /// Constructs a field identifier.
    pub fn new(value: u16) -> (id: Self)
        ensures
            id.spec_get() == value,
            id == Self::spec_new(value),
    {
        FieldId(value)
    }

    /// The raw value determines the identifier and is recovered from it.
    pub broadcast proof fn lemma_spec_new(value: u16)
        ensures
            #[trigger] Self::spec_new(value).spec_get() == value,
    {
    }

    /// Returns the numeric identifier.
    pub fn get(self) -> (value: u16)
        ensures
            value == self.spec_get(),
    {
        self.0
    }

    /// Identifiers are determined by their raw value.
    pub proof fn lemma_get_injective(self, other: Self)
        requires
            self.spec_get() == other.spec_get(),
        ensures
            self == other,
    {
    }
}

/// Stable numeric variant identifier inside one enum or sum.
#[derive(Clone, Copy, Debug, PartialEq, Eq, Structural, Hash, PartialOrd, Ord)]
pub struct VariantId(u16);

impl VariantId {
    /// The raw identifier.
    pub closed spec fn spec_get(self) -> u16 {
        self.0
    }

    /// The identifier with the given raw value.
    pub closed spec fn spec_new(value: u16) -> Self {
        VariantId(value)
    }

    /// Constructs a variant identifier.
    pub fn new(value: u16) -> (id: Self)
        ensures
            id.spec_get() == value,
            id == Self::spec_new(value),
    {
        VariantId(value)
    }

    /// The raw value determines the identifier and is recovered from it.
    pub broadcast proof fn lemma_spec_new(value: u16)
        ensures
            #[trigger] Self::spec_new(value).spec_get() == value,
    {
    }

    /// Returns the numeric identifier.
    pub fn get(self) -> (value: u16)
        ensures
            value == self.spec_get(),
    {
        self.0
    }

    /// Identifiers are determined by their raw value.
    pub proof fn lemma_get_injective(self, other: Self)
        requires
            self.spec_get() == other.spec_get(),
        ensures
            self == other,
    {
    }
}

/// Maximum UTF-8 bytes in one schema name.
pub const SCHEMA_NAME_MAX_BYTES: usize = 96;

/// A byte that may begin an identifier: an ASCII letter or underscore.
pub open spec fn is_identifier_start(byte: u8) -> bool {
    (65 <= byte <= 90) || (97 <= byte <= 122) || byte == 95
}

/// A byte that may continue an identifier: an ASCII letter, digit or underscore.
pub open spec fn is_identifier_continue(byte: u8) -> bool {
    is_identifier_start(byte) || (48 <= byte <= 57)
}

/// A bounded ASCII identifier: one to 96 bytes, starting with a letter or
/// underscore and continuing with letters, digits or underscores.
pub open spec fn is_schema_identifier(bytes: Seq<u8>) -> bool {
    &&& 1 <= bytes.len() <= SCHEMA_NAME_MAX_BYTES
    &&& is_identifier_start(bytes[0])
    &&& forall|i: int| 0 <= i < bytes.len() ==> #[trigger] is_identifier_continue(bytes[i])
}

/// Checks the identifier rule on raw bytes.
pub fn check_schema_identifier(bytes: &[u8]) -> (valid: bool)
    ensures
        valid == is_schema_identifier(bytes@),
{
    if bytes.len() == 0 || bytes.len() > SCHEMA_NAME_MAX_BYTES {
        return false;
    }
    let first = bytes[0];
    if !((65 <= first && first <= 90) || (97 <= first && first <= 122) || first == 95) {
        return false;
    }
    let mut index: usize = 0;
    while index < bytes.len()
        invariant
            index <= bytes@.len(),
            forall|i: int| 0 <= i < index ==> #[trigger] is_identifier_continue(bytes@[i]),
        decreases bytes@.len() - index,
    {
        let byte = bytes[index];
        if !((65 <= byte && byte <= 90) || (97 <= byte && byte <= 122) || byte == 95 || (48 <= byte
            && byte <= 57)) {
            assert(!is_identifier_continue(bytes@[index as int]));
            return false;
        }
        index = index + 1;
    }
    true
}

/// A bounded ASCII identifier used in generated source and evidence.
#[derive(Debug, PartialEq, Eq, Hash, PartialOrd, Ord)]
pub struct SchemaName(String);

impl SchemaName {
    /// Names always satisfy the identifier rule.
    #[verifier::type_invariant]
    spec fn valid(self) -> bool {
        is_schema_identifier(encode_utf8(self.0@))
    }

    /// The characters of the name.
    pub closed spec fn spec_chars(self) -> Seq<char> {
        self.0@
    }

    /// The UTF-8 bytes of the name.
    pub open spec fn spec_bytes(self) -> Seq<u8> {
        encode_utf8(self.spec_chars())
    }

    /// The text satisfies the identifier rule.
    pub open spec fn is_valid_text(value: &str) -> bool {
        is_schema_identifier(value.spec_bytes())
    }

    /// Validates and owns an ASCII identifier.
    pub fn try_new(value: &str) -> (name: Result<Self, SchemaError>)
        ensures
            name is Ok <==> Self::is_valid_text(value),
            name matches Ok(n) ==> n.spec_chars() == value@,
            name matches Err(e) ==> e == SchemaError::InvalidName,
    {
        let bytes = value.as_bytes();
        if !check_schema_identifier(bytes) {
            return Err(SchemaError::InvalidName);
        }
        let owned = value.to_owned();
        Ok(SchemaName(owned))
    }

    /// Returns the identifier.
    pub fn as_str(&self) -> (text: &str)
        ensures
            text@ == self.spec_chars(),
            is_schema_identifier(text.spec_bytes()),
    {
        proof {
            use_type_invariant(self);
        }
        self.0.as_str()
    }

    /// Returns the UTF-8 bytes of the identifier.
    pub fn as_bytes(&self) -> (bytes: &[u8])
        ensures
            bytes@ == self.spec_bytes(),
            is_schema_identifier(bytes@),
    {
        proof {
            use_type_invariant(self);
        }
        self.0.as_str().as_bytes()
    }

    /// Compares two names.
    pub fn same_as(&self, other: &SchemaName) -> (same: bool)
        ensures
            same == (self.spec_chars() == other.spec_chars()),
    {
        self.0 == other.0
    }

    /// Copies the name.
    pub fn duplicate(&self) -> (copy: SchemaName)
        ensures
            copy.spec_chars() == self.spec_chars(),
    {
        proof {
            use_type_invariant(self);
        }
        SchemaName(self.0.clone())
    }

    /// Appends the length-prefixed name.
    pub fn encode_text(&self, output: &mut Vec<u8>)
        ensures
            final(output)@ == old(output)@ + self.spec_text_encoding(),
    {
        let bytes = self.as_bytes();
        put_u16(output, bytes.len() as u16);
        crate::encode::put_bytes(output, bytes);
    }

    /// A 16-bit length followed by the bytes of the name.
    pub open spec fn spec_text_encoding(self) -> Seq<u8> {
        be16(self.spec_bytes().len() as u16) + self.spec_bytes()
    }
}

impl Clone for SchemaName {
    fn clone(&self) -> (copy: Self)
        ensures
            copy.spec_chars() == self.spec_chars(),
    {
        self.duplicate()
    }
}

} // verus!

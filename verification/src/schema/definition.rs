//! Closed, acyclic, canonically ordered protocol schemas.

use vstd::prelude::*;
use vstd::string::StringSliceAdditionalSpecFns;

use crate::commit::{commitment_preimage, frame_commitment, CommitmentHasher, Hash32};
use crate::encode::{be16, be32, encode_all, encode_each, put_u16, put_u32, put_u8, EncodeError};
use crate::schema::error::SchemaError;
use crate::schema::graph::{check_closed_and_acyclic, graph_error, is_acyclic, is_closed};
use crate::schema::ids::{is_schema_identifier, SchemaName, TypeId};
use crate::schema::model::{
    has_duplicate_label, normalize_list, ListDefect, SchemaLimits, TypeDef, TypeKind,
    list_outcome,
};
use crate::sort::{
    canonical_order, find_key, has_duplicate_key, has_key, is_least_duplicated_key,
    least_duplicated_key, lemma_duplicated_key_member, strictly_sorted_by_key, Keyed,
};

verus! {

/// Metrics fixed by a validated schema.
#[derive(Clone, Copy, Debug, PartialEq, Eq, Structural)]
pub struct SchemaMetrics {
    /// Number of type definitions.
    pub types: u32,
    /// Total record fields.
    pub fields: u32,
    /// Total enum and sum variants.
    pub variants: u32,
}

/// Fields declared by one grammar node.
pub open spec fn field_count(kind: TypeKind) -> int {
    match kind {
        TypeKind::Record { fields } => fields@.len() as int,
        _ => 0,
    }
}

/// Variants declared by one grammar node.
pub open spec fn variant_count(kind: TypeKind) -> int {
    match kind {
        TypeKind::Enum { variants } => variants@.len() as int,
        TypeKind::Sum { variants } => variants@.len() as int,
        _ => 0,
    }
}

/// Total record fields over a list of types.
pub open spec fn total_fields(types: Seq<TypeDef>) -> int
    decreases types.len(),
{
    if types.len() == 0 {
        0
    } else {
        total_fields(types.drop_last()) + field_count(types.last().spec_kind())
    }
}

/// Total enum and sum variants over a list of types.
pub open spec fn total_variants(types: Seq<TypeDef>) -> int
    decreases types.len(),
{
    if types.len() == 0 {
        0
    } else {
        total_variants(types.drop_last()) + variant_count(types.last().spec_kind())
    }
}

/// Totals never shrink as more types are counted.
proof fn lemma_totals_grow(types: Seq<TypeDef>, count: int)
    requires
        0 <= count <= types.len(),
    ensures
        total_fields(types.subrange(0, count)) <= total_fields(types),
        total_variants(types.subrange(0, count)) <= total_variants(types),
    decreases types.len() - count,
{
    if count < types.len() {
        lemma_totals_grow(types, count + 1);
        let next = types.subrange(0, count + 1);
        assert(next.drop_last() =~= types.subrange(0, count));
    } else {
        assert(types.subrange(0, count) =~= types);
    }
}

/// Counts types, fields and variants, refusing totals beyond 32 bits.
fn compute_metrics(types: &Vec<TypeDef>) -> (metrics: Result<SchemaMetrics, SchemaError>)
    ensures
        metrics is Ok <==> types@.len() <= u32::MAX && total_fields(types@) <= u32::MAX
            && total_variants(types@) <= u32::MAX,
        metrics matches Ok(m) ==> m.types == types@.len() && m.fields == total_fields(types@)
            && m.variants == total_variants(types@),
        metrics matches Err(e) ==> e == SchemaError::LimitExceeded,
{
    if types.len() > u32::MAX as usize {
        return Err(SchemaError::LimitExceeded);
    }
    let mut fields: u64 = 0;
    let mut variants: u64 = 0;
    let mut index: usize = 0;
    while index < types.len()
        invariant
            index <= types@.len(),
            types@.len() <= u32::MAX,
            fields == total_fields(types@.subrange(0, index as int)),
            variants == total_variants(types@.subrange(0, index as int)),
            fields <= u32::MAX,
            variants <= u32::MAX,
        decreases types@.len() - index,
    {
        proof {
            let next = types@.subrange(0, index + 1);
            assert(next.drop_last() =~= types@.subrange(0, index as int));
            assert(next.last() == types@[index as int]);
            lemma_totals_grow(types@, index + 1);
        }
        let (field_add, variant_add): (usize, usize) = match types[index].kind() {
            TypeKind::Record { fields: items } => (items.len(), 0),
            TypeKind::Enum { variants: items } => (0, items.len()),
            TypeKind::Sum { variants: items } => (0, items.len()),
            _ => (0, 0),
        };
        if field_add as u64 > u32::MAX as u64 - fields || variant_add as u64 > u32::MAX as u64
            - variants {
            return Err(SchemaError::LimitExceeded);
        }
        fields = fields + field_add as u64;
        variants = variants + variant_add as u64;
        index = index + 1;
    }
    assert(types@.subrange(0, types@.len() as int) =~= types@);
    Ok(SchemaMetrics { types: types.len() as u32, fields: fields as u32, variants: variants as u32 })
}

/// Why a schema declaration is refused before its reference graph is
/// examined, if it is: emptiness, the type limit, duplicate identifiers,
/// duplicate names, metric overflow, the profile name, and the root type,
/// in that order.
pub open spec fn schema_admission(
    profile: Seq<u8>,
    root_type: TypeId,
    types: Seq<TypeDef>,
    limits: SchemaLimits,
) -> Option<SchemaError> {
    if types.len() == 0 {
        Some(SchemaError::EmptySchema)
    } else if types.len() > limits.max_types {
        Some(SchemaError::LimitExceeded)
    } else if has_duplicate_key(types) {
        Some(SchemaError::DuplicateTypeId(TypeId::spec_new(least_duplicated_key(types) as u32)))
    } else if has_duplicate_label(canonical_order(types)) {
        Some(SchemaError::DuplicateTypeName)
    } else if total_fields(canonical_order(types)) > u32::MAX || total_variants(
        canonical_order(types),
    ) > u32::MAX {
        Some(SchemaError::LimitExceeded)
    } else if !is_schema_identifier(profile) {
        Some(SchemaError::InvalidName)
    } else if !has_key(types, root_type.spec_get() as int) {
        Some(SchemaError::UnknownRootType(root_type))
    } else {
        None
    }
}

/// The magic prefix of canonical schema bytes.
pub open spec fn schema_magic() -> Seq<u8> {
    seq![90u8, 70u8, 67u8, 73u8, 83u8, 83u8, 67u8, 72u8, 69u8, 77u8, 65u8, 49u8, 0u8]
}

/// The commitment domain label of schemas.
pub open spec fn schema_domain() -> Seq<u8> {
    seq![
        122u8, 101u8, 110u8, 111u8, 45u8, 102u8, 99u8, 105u8, 115u8, 47u8, 115u8, 99u8, 104u8,
        101u8, 109u8, 97u8,
    ]
}

/// The commitment domain version of schemas.
pub const SCHEMA_DOMAIN_VERSION: u16 = 1;

fn put_schema_magic(output: &mut Vec<u8>)
    ensures
        final(output)@ == old(output)@ + schema_magic(),
{
    output.push(90);
    output.push(70);
    output.push(67);
    output.push(73);
    output.push(83);
    output.push(83);
    output.push(67);
    output.push(72);
    output.push(69);
    output.push(77);
    output.push(65);
    output.push(49);
    output.push(0);
    assert(output@ =~= old(output)@ + schema_magic());
}

fn schema_domain_label() -> (label: Vec<u8>)
    ensures
        label@ == schema_domain(),
{
    let label: Vec<u8> = vec![
        122u8, 101u8, 110u8, 111u8, 45u8, 102u8, 99u8, 105u8, 115u8, 47u8, 115u8, 99u8, 104u8,
        101u8, 109u8, 97u8,
    ];
    assert(label@ =~= schema_domain());
    label
}

/// A closed, acyclic, canonically ordered protocol schema.
#[derive(Debug, PartialEq, Eq)]
pub struct Schema {
    profile: SchemaName,
    version: u16,
    root_type: TypeId,
    types: Vec<TypeDef>,
    metrics: SchemaMetrics,
}

impl Schema {
    /// Types are nonempty, in strictly increasing identifier order, uniquely
    /// named, closed under reference and acyclic, and the root is declared.
    #[verifier::type_invariant]
    spec fn well_formed(self) -> bool {
        &&& 1 <= self.types@.len() <= u32::MAX
        &&& strictly_sorted_by_key(self.types@)
        &&& !has_duplicate_label(self.types@)
        &&& has_key(self.types@, self.root_type.spec_get() as int)
        &&& is_closed(self.types@)
        &&& is_acyclic(self.types@)
        &&& self.metrics.types == self.types@.len()
        &&& self.metrics.fields == total_fields(self.types@)
        &&& self.metrics.variants == total_variants(self.types@)
    }

    /// The profile identifier.
    pub closed spec fn spec_profile(self) -> SchemaName {
        self.profile
    }

    /// The schema version.
    pub closed spec fn spec_version(self) -> u16 {
        self.version
    }

    /// The declared root type.
    pub closed spec fn spec_root_type(self) -> TypeId {
        self.root_type
    }

    /// Type definitions in canonical identifier order.
    pub closed spec fn spec_types(self) -> Seq<TypeDef> {
        self.types@
    }

    /// Construction-time metrics.
    pub closed spec fn spec_metrics(self) -> SchemaMetrics {
        self.metrics
    }

    /// Constructs, normalizes, closes, and cycle-checks a schema.
    pub fn try_new(
        profile: &str,
        version: u16,
        root_type: TypeId,
        types: Vec<TypeDef>,
        limits: SchemaLimits,
    ) -> (schema: Result<Self, SchemaError>)
        ensures
            match schema_admission(profile.spec_bytes(), root_type, types@, limits) {
                Some(e) => schema == Err::<Self, SchemaError>(e),
                None => {
                    &&& (schema is Ok <==> is_closed(canonical_order(types@)) && is_acyclic(
                        canonical_order(types@),
                    ))
                    &&& (schema matches Err(e) ==> graph_error(canonical_order(types@), e))
                    &&& (schema matches Ok(s) ==> {
                        &&& s.spec_profile().spec_chars() == profile@
                        &&& s.spec_version() == version
                        &&& s.spec_root_type() == root_type
                        &&& s.spec_types() == canonical_order(types@)
                        &&& s.spec_metrics() == (SchemaMetrics {
                            types: types@.len() as u32,
                            fields: total_fields(canonical_order(types@)) as u32,
                            variants: total_variants(canonical_order(types@)) as u32,
                        })
                    })
                },
            },
    {
        if types.len() == 0 {
            return Err(SchemaError::EmptySchema);
        }
        let ghost declared = types@;
        let normalized = normalize_list(types, limits.max_types);
        let types = match normalized {
            Ok(types) => types,
            Err(defect) => {
                proof {
                    if declared.len() <= limits.max_types && has_duplicate_key(declared) {
                        if exists|k: int| is_least_duplicated_key(declared, k) {
                            let k = least_duplicated_key(declared);
                            assert(is_least_duplicated_key(declared, k));
                            lemma_duplicated_key_member(declared, k);
                        }
                    }
                }
                return Err(
                    match defect {
                        ListDefect::TooMany => SchemaError::LimitExceeded,
                        ListDefect::DuplicateId(id) => SchemaError::DuplicateTypeId(
                            TypeId::new(id as u32),
                        ),
                        ListDefect::DuplicateName => SchemaError::DuplicateTypeName,
                    },
                );
            },
        };
        let metrics = compute_metrics(&types)?;
        let profile = SchemaName::try_new(profile)?;
        if find_key(&types, root_type.get() as u64).is_none() {
            proof {
                crate::sort::lemma_has_key_multiset(types@, declared, root_type.spec_get() as int);
            }
            return Err(SchemaError::UnknownRootType(root_type));
        }
        proof {
            crate::sort::lemma_has_key_multiset(types@, declared, root_type.spec_get() as int);
        }
        check_closed_and_acyclic(&types)?;
        Ok(Schema { profile, version, root_type, types, metrics })
    }

    /// Returns the profile identifier.
    pub fn profile(&self) -> (profile: &SchemaName)
        ensures
            *profile == self.spec_profile(),
    {
        &self.profile
    }

    /// Returns the schema version.
    pub fn version(&self) -> (version: u16)
        ensures
            version == self.spec_version(),
    {
        self.version
    }

    /// Returns the declared root type.
    pub fn root_type(&self) -> (root_type: TypeId)
        ensures
            root_type == self.spec_root_type(),
            has_key(self.spec_types(), root_type.spec_get() as int),
    {
        proof {
            use_type_invariant(self);
        }
        self.root_type
    }

    /// Returns canonical type definitions.
    pub fn types(&self) -> (types: &[TypeDef])
        ensures
            types@ == self.spec_types(),
            strictly_sorted_by_key(types@),
            is_closed(types@),
            is_acyclic(types@),
    {
        proof {
            use_type_invariant(self);
        }
        self.types.as_slice()
    }

    /// Returns construction-time metrics.
    pub fn metrics(&self) -> (metrics: SchemaMetrics)
        ensures
            metrics == self.spec_metrics(),
            metrics.types == self.spec_types().len(),
            metrics.fields == total_fields(self.spec_types()),
            metrics.variants == total_variants(self.spec_types()),
    {
        proof {
            use_type_invariant(self);
        }
        self.metrics
    }

    /// Resolves a type identifier.
    pub fn type_by_id(&self, id: TypeId) -> (definition: Option<&TypeDef>)
        ensures
            definition is Some <==> has_key(self.spec_types(), id.spec_get() as int),
            definition matches Some(t) ==> t.spec_id() == id && exists|i: int|
                0 <= i < self.spec_types().len() && self.spec_types()[i] == *t,
            definition matches Some(t) ==> *t == type_with_id(self.spec_types(), id),
    {
        proof {
            use_type_invariant(self);
        }
        match find_key(&self.types, id.get() as u64) {
            Some(index) => {
                proof {
                    id.lemma_get_injective(self.types@[index as int].spec_id());
                    assert(self.spec_types()[index as int] == self.types@[index as int]);
                    let key = id.spec_get() as int;
                    let j = choose|i: int| 0 <= i < self.types@.len() && self.types@[i].spec_key() == key;
                    assert(self.types@[index as int].spec_key() == key);
                    if j < index as int {
                        assert(self.types@[j].spec_key() < self.types@[index as int].spec_key());
                    } else if j > index as int {
                        assert(self.types@[index as int].spec_key() < self.types@[j].spec_key());
                    }
                }
                Some(&self.types[index])
            },
            None => None,
        }
    }

    /// Canonical bytes: magic, profile, version, root type, then the
    /// length-prefixed type definitions in identifier order.
    pub open spec fn spec_encoding(self) -> Seq<u8> {
        schema_magic() + self.spec_profile().spec_text_encoding() + be16(self.spec_version()) + be32(
            self.spec_root_type().spec_get(),
        ) + be32(self.spec_types().len() as u32) + encode_all(self.spec_types())
    }

    /// Appends the canonical bytes of the schema.
    pub fn encode_to(&self, output: &mut Vec<u8>) -> (result: Result<(), EncodeError>)
        ensures
            result is Ok,
            final(output)@ == old(output)@ + self.spec_encoding(),
    {
        put_schema_magic(output);
        self.profile.encode_text(output);
        put_u16(output, self.version);
        put_u32(output, self.root_type.get());
        put_u32(output, self.types.len() as u32);
        encode_each(self.types.as_slice(), output);
        assert(output@ =~= old(output)@ + self.spec_encoding());
        Ok(())
    }

    /// Canonical bytes of the schema.
    pub fn canonical_bytes(&self) -> (bytes: Result<Vec<u8>, EncodeError>)
        ensures
            bytes matches Ok(b) && b@ == self.spec_encoding(),
    {
        let mut output: Vec<u8> = Vec::new();
        let _ = self.encode_to(&mut output);
        assert(output@ =~= self.spec_encoding());
        Ok(output)
    }

    /// The bytes a schema commitment hashes: the canonical bytes framed under
    /// the schema domain.
    pub fn commitment_bytes(&self) -> (bytes: Vec<u8>)
        ensures
            bytes@ == commitment_preimage(schema_domain(), SCHEMA_DOMAIN_VERSION, self.spec_encoding()),
    {
        let mut encoded: Vec<u8> = Vec::new();
        let _ = self.encode_to(&mut encoded);
        assert(encoded@ =~= self.spec_encoding());
        let label = schema_domain_label();
        frame_commitment(label.as_slice(), SCHEMA_DOMAIN_VERSION, encoded.as_slice())
    }

    /// Computes the schema commitment under the fixed schema domain: the hash
    /// of exactly the bytes that `commitment_bytes` returns.
    pub fn schema_hash<H: CommitmentHasher>(&self) -> (hash: Result<Hash32, SchemaError>)
        ensures
            hash == Ok::<Hash32, SchemaError>(
                H::spec_hash(commitment_preimage(schema_domain(), SCHEMA_DOMAIN_VERSION, self.spec_encoding())),
            ),
    {
        let bytes = self.commitment_bytes();
        Ok(H::hash(bytes.as_slice()))
    }
}

/// Two schemas admitted with the same profile, version and root from two
/// orderings of the same type definitions are the same schema: equal type
/// lists and equal canonical bytes, hence equal schema hashes.
pub proof fn lemma_schema_reordered(a: Schema, b: Schema, types: Seq<TypeDef>, reordered: Seq<TypeDef>)
    requires
        types.to_multiset() == reordered.to_multiset(),
        a.spec_types() == canonical_order(types),
        b.spec_types() == canonical_order(reordered),
        a.spec_profile().spec_chars() == b.spec_profile().spec_chars(),
        a.spec_version() == b.spec_version(),
        a.spec_root_type() == b.spec_root_type(),
    ensures
        a.spec_types() == b.spec_types(),
        a.spec_encoding() == b.spec_encoding(),
{
    crate::sort::lemma_canonical_order_multiset(types, reordered);
}

/// Declaration order of type definitions never changes a schema: two
/// orderings of the same definitions are refused for the same reason or pass
/// to the same canonical type list, on which the graph check and the
/// canonical bytes depend.
pub proof fn lemma_schema_history_independent(
    profile: Seq<u8>,
    root_type: TypeId,
    types: Seq<TypeDef>,
    reordered: Seq<TypeDef>,
    limits: SchemaLimits,
)
    requires
        types.to_multiset() == reordered.to_multiset(),
    ensures
        schema_admission(profile, root_type, types, limits) == schema_admission(
            profile,
            root_type,
            reordered,
            limits,
        ),
        canonical_order(types) == canonical_order(reordered),
{
    broadcast use vstd::seq_lib::group_to_multiset_ensures;

    assert(types.to_multiset().len() == types.len());
    assert(reordered.to_multiset().len() == reordered.len());
    crate::sort::lemma_duplicate_key_multiset(types, reordered);
    crate::sort::lemma_least_duplicated_key_multiset(types, reordered);
    crate::sort::lemma_canonical_order_multiset(types, reordered);
    crate::sort::lemma_has_key_multiset(types, reordered, root_type.spec_get() as int);
}


/// The type definition with an identifier (meaningful when one exists).
pub open spec fn type_with_id(types: Seq<TypeDef>, id: TypeId) -> TypeDef {
    types[choose|i: int| 0 <= i < types.len() && types[i].spec_key() == id.spec_get() as int]
}

} // verus!

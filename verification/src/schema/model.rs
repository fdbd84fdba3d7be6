//! Closed schema items and their construction-time normalization.

use vstd::prelude::*;

use crate::encode::{
    be128, be16, be32, encode_all, encode_each, put_u128, put_u16, put_u32, put_u8, Encodable,
};
use crate::schema::error::SchemaError;
use crate::schema::ids::{FieldId, SchemaName, TypeId, VariantId};
use crate::sort::{
    canonical_order, first_adjacent_duplicate, has_duplicate_key, is_duplicated_key,
    is_least_duplicated_key,
    least_duplicated_key, lemma_canonical_order, lemma_duplicate_key_multiset,
    lemma_duplicated_key_member, lemma_least_duplicated_key, lemma_least_duplicated_key_multiset,
    sort_by_key, strictly_sorted_by_key, Keyed, U64Keyed,
};

verus! {

/// Hard bounds for one closed protocol schema.
#[derive(Clone, Copy, Debug, PartialEq, Eq, Structural)]
pub struct SchemaLimits {
    /// Maximum type definitions.
    pub max_types: u32,
    /// Maximum fields in one record.
    pub max_fields: u32,
    /// Maximum variants in one enum or sum.
    pub max_variants: u32,
    /// Maximum items in one fixed tuple.
    pub max_tuple_items: u32,
}

impl Default for SchemaLimits {
    fn default() -> (limits: Self)
        ensures
            limits.max_types == 4096,
            limits.max_fields == 1024,
            limits.max_variants == 1024,
            limits.max_tuple_items == 1024,
    {
        SchemaLimits { max_types: 4096, max_fields: 1024, max_variants: 1024, max_tuple_items: 1024 }
    }
}

/// An identified item that also carries a name that must be unique in its list.
pub trait NamedItem: U64Keyed {
    /// The characters of the item's name.
    spec fn spec_label(&self) -> Seq<char>;

    /// Compares the names of two items.
    fn same_label(&self, other: &Self) -> (same: bool)
        ensures
            same == (self.spec_label() == other.spec_label()),
    ;
}

/// Two positions of the sequence carry the same name.
pub open spec fn has_duplicate_label<T: NamedItem>(s: Seq<T>) -> bool {
    exists|i: int, j: int| 0 <= i < j < s.len() && s[i].spec_label() == s[j].spec_label()
}

/// Why a declared list of identified, named items is refused.
#[derive(Clone, Copy, Debug, PartialEq, Eq, Structural)]
pub enum ListDefect {
    /// More items than the configured limit.
    TooMany,
    /// Two items share an identifier; the smallest such identifier.
    DuplicateId(u64),
    /// Two items share a name.
    DuplicateName,
}

/// The canonical list admitted for the declared items, or why it is refused:
/// the length bound first, then identifiers, then names.
pub open spec fn list_outcome<T: NamedItem>(items: Seq<T>, max: u32) -> Result<Seq<T>, ListDefect> {
    if items.len() > max {
        Err(ListDefect::TooMany)
    } else if has_duplicate_key(items) {
        Err(ListDefect::DuplicateId(least_duplicated_key(items) as u64))
    } else if has_duplicate_label(canonical_order(items)) {
        Err(ListDefect::DuplicateName)
    } else {
        Ok(canonical_order(items))
    }
}

/// Bounds, sorts by identifier, and checks a list of identified, named items.
pub fn normalize_list<T: NamedItem>(items: Vec<T>, max: u32) -> (normalized: Result<Vec<T>, ListDefect>)
    ensures
        match (normalized, list_outcome(items@, max)) {
            (Ok(v), Ok(s)) => v@ == s && strictly_sorted_by_key(v@) && !has_duplicate_label(v@),
            (Err(e), Err(f)) => e == f,
            _ => false,
        },
        normalized matches Ok(v) ==> v@.len() == items@.len() && v@.to_multiset()
            == items@.to_multiset(),
{
    if items.len() > max as usize {
        return Err(ListDefect::TooMany);
    }
    let ghost original = items@;
    let sorted = sort_by_key(items);
    proof {
        lemma_duplicate_key_multiset(sorted@, original);
    }
    match first_adjacent_duplicate(&sorted) {
        Some(index) => {
            let key = sorted[index].key_u64();
            proof {
                lemma_least_duplicated_key(sorted@, key as int);
                lemma_least_duplicated_key_multiset(sorted@, original);
            }
            return Err(ListDefect::DuplicateId(key));
        },
        None => {},
    }
    proof {
        lemma_canonical_order(original, sorted@);
    }
    let mut later: usize = 0;
    while later < sorted.len()
        invariant
            later <= sorted@.len(),
            sorted@ == canonical_order(original),
            original == items@,
            original.len() <= max,
            !has_duplicate_key(original),
            strictly_sorted_by_key(sorted@),
            forall|i: int, j: int|
                0 <= i < j < later ==> sorted@[i].spec_label() != sorted@[j].spec_label(),
        decreases sorted@.len() - later,
    {
        let mut earlier: usize = 0;
        while earlier < later
            invariant
                earlier <= later < sorted@.len(),
                sorted@ == canonical_order(original),
                original == items@,
                original.len() <= max,
                !has_duplicate_key(original),
                forall|i: int| 0 <= i < earlier ==> sorted@[i].spec_label() != sorted@[later as int].spec_label(),
            decreases later - earlier,
        {
            if sorted[earlier].same_label(&sorted[later]) {
                assert(has_duplicate_label(sorted@)) by {
                    assert(sorted@[earlier as int].spec_label() == sorted@[later as int].spec_label());
                }
                return Err(ListDefect::DuplicateName);
            }
            earlier = earlier + 1;
        }
        later = later + 1;
    }
    Ok(sorted)
}

/// One stable record field definition.
#[derive(Clone, Debug, PartialEq, Eq)]
pub struct FieldDef {
    id: FieldId,
    name: SchemaName,
    type_id: TypeId,
}

impl FieldDef {
    /// The stable field identifier.
    pub closed spec fn spec_id(self) -> FieldId {
        self.id
    }

    /// The source-facing field name.
    pub closed spec fn spec_name(self) -> SchemaName {
        self.name
    }

    /// The field value type.
    pub closed spec fn spec_type_id(self) -> TypeId {
        self.type_id
    }

    /// Constructs a field definition.
    pub fn try_new(id: FieldId, name: &str, type_id: TypeId) -> (field: Result<Self, SchemaError>)
        ensures
            field is Ok <==> SchemaName::is_valid_text(name),
            field matches Err(e) ==> e == SchemaError::InvalidName,
            field matches Ok(f) ==> f.spec_id() == id && f.spec_name().spec_chars() == name@
                && f.spec_type_id() == type_id,
    {
        let name = SchemaName::try_new(name)?;
        Ok(FieldDef { id, name, type_id })
    }

    /// Returns the stable field identifier.
    pub fn id(&self) -> (id: FieldId)
        ensures
            id == self.spec_id(),
    {
        self.id
    }

    /// Returns the source-facing field name.
    pub fn name(&self) -> (name: &SchemaName)
        ensures
            *name == self.spec_name(),
    {
        &self.name
    }

    /// Returns the field value type.
    pub fn type_id(&self) -> (type_id: TypeId)
        ensures
            type_id == self.spec_type_id(),
    {
        self.type_id
    }
}

impl Keyed for FieldDef {
    open spec fn spec_key(&self) -> int {
        self.spec_id().spec_get() as int
    }

    fn key_lt(&self, other: &Self) -> bool {
        self.id.get() < other.id.get()
    }

    fn key_eq(&self, other: &Self) -> bool {
        self.id.get() == other.id.get()
    }
}

impl U64Keyed for FieldDef {
    fn key_u64(&self) -> u64 {
        self.id.get() as u64
    }
}

impl NamedItem for FieldDef {
    open spec fn spec_label(&self) -> Seq<char> {
        self.spec_name().spec_chars()
    }

    fn same_label(&self, other: &Self) -> bool {
        self.name.same_as(&other.name)
    }
}

impl Encodable for FieldDef {
    open spec fn spec_encoding(&self) -> Seq<u8> {
        be16(self.spec_id().spec_get()) + self.spec_name().spec_text_encoding() + be32(
            self.spec_type_id().spec_get(),
        )
    }

    fn encode_to(&self, output: &mut Vec<u8>) {
        put_u16(output, self.id.get());
        self.name.encode_text(output);
        put_u32(output, self.type_id.get());
        assert(output@ =~= old(output)@ + self.spec_encoding());
    }
}

/// One payload-free enum variant.
#[derive(Clone, Debug, PartialEq, Eq)]
pub struct EnumVariantDef {
    id: VariantId,
    name: SchemaName,
}

impl EnumVariantDef {
    /// The stable variant identifier.
    pub closed spec fn spec_id(self) -> VariantId {
        self.id
    }

    /// The source-facing variant name.
    pub closed spec fn spec_name(self) -> SchemaName {
        self.name
    }

    /// Constructs an enum variant.
    pub fn try_new(id: VariantId, name: &str) -> (variant: Result<Self, SchemaError>)
        ensures
            variant is Ok <==> SchemaName::is_valid_text(name),
            variant matches Err(e) ==> e == SchemaError::InvalidName,
            variant matches Ok(v) ==> v.spec_id() == id && v.spec_name().spec_chars() == name@,
    {
        let name = SchemaName::try_new(name)?;
        Ok(EnumVariantDef { id, name })
    }

    /// Returns the stable variant identifier.
    pub fn id(&self) -> (id: VariantId)
        ensures
            id == self.spec_id(),
    {
        self.id
    }

    /// Returns the source-facing variant name.
    pub fn name(&self) -> (name: &SchemaName)
        ensures
            *name == self.spec_name(),
    {
        &self.name
    }
}

impl Keyed for EnumVariantDef {
    open spec fn spec_key(&self) -> int {
        self.spec_id().spec_get() as int
    }

    fn key_lt(&self, other: &Self) -> bool {
        self.id.get() < other.id.get()
    }

    fn key_eq(&self, other: &Self) -> bool {
        self.id.get() == other.id.get()
    }
}

impl U64Keyed for EnumVariantDef {
    fn key_u64(&self) -> u64 {
        self.id.get() as u64
    }
}

impl NamedItem for EnumVariantDef {
    open spec fn spec_label(&self) -> Seq<char> {
        self.spec_name().spec_chars()
    }

    fn same_label(&self, other: &Self) -> bool {
        self.name.same_as(&other.name)
    }
}

impl Encodable for EnumVariantDef {
    open spec fn spec_encoding(&self) -> Seq<u8> {
        be16(self.spec_id().spec_get()) + self.spec_name().spec_text_encoding()
    }

    fn encode_to(&self, output: &mut Vec<u8>) {
        put_u16(output, self.id.get());
        self.name.encode_text(output);
        assert(output@ =~= old(output)@ + self.spec_encoding());
    }
}

/// One sum variant with an optional payload type.
#[derive(Clone, Debug, PartialEq, Eq)]
pub struct SumVariantDef {
    id: VariantId,
    name: SchemaName,
    payload: Option<TypeId>,
}

impl SumVariantDef {
    /// The stable variant identifier.
    pub closed spec fn spec_id(self) -> VariantId {
        self.id
    }

    /// The source-facing variant name.
    pub closed spec fn spec_name(self) -> SchemaName {
        self.name
    }

    /// The payload type, or `None` for a unit variant.
    pub closed spec fn spec_payload(self) -> Option<TypeId> {
        self.payload
    }

    /// Constructs a sum variant.
    pub fn try_new(id: VariantId, name: &str, payload: Option<TypeId>) -> (variant: Result<
        Self,
        SchemaError,
    >)
        ensures
            variant is Ok <==> SchemaName::is_valid_text(name),
            variant matches Err(e) ==> e == SchemaError::InvalidName,
            variant matches Ok(v) ==> v.spec_id() == id && v.spec_name().spec_chars() == name@
                && v.spec_payload() == payload,
    {
        let name = SchemaName::try_new(name)?;
        Ok(SumVariantDef { id, name, payload })
    }

    /// Returns the stable variant identifier.
    pub fn id(&self) -> (id: VariantId)
        ensures
            id == self.spec_id(),
    {
        self.id
    }

    /// Returns the source-facing variant name.
    pub fn name(&self) -> (name: &SchemaName)
        ensures
            *name == self.spec_name(),
    {
        &self.name
    }

    /// Returns the payload type, or `None` for a unit variant.
    pub fn payload(&self) -> (payload: Option<TypeId>)
        ensures
            payload == self.spec_payload(),
    {
        self.payload
    }
}

impl Keyed for SumVariantDef {
    open spec fn spec_key(&self) -> int {
        self.spec_id().spec_get() as int
    }

    fn key_lt(&self, other: &Self) -> bool {
        self.id.get() < other.id.get()
    }

    fn key_eq(&self, other: &Self) -> bool {
        self.id.get() == other.id.get()
    }
}

impl U64Keyed for SumVariantDef {
    fn key_u64(&self) -> u64 {
        self.id.get() as u64
    }
}

impl NamedItem for SumVariantDef {
    open spec fn spec_label(&self) -> Seq<char> {
        self.spec_name().spec_chars()
    }

    fn same_label(&self, other: &Self) -> bool {
        self.name.same_as(&other.name)
    }
}

impl Encodable for SumVariantDef {
    open spec fn spec_encoding(&self) -> Seq<u8> {
        be16(self.spec_id().spec_get()) + self.spec_name().spec_text_encoding() + match self.spec_payload() {
            None => seq![0u8],
            Some(payload) => seq![1u8] + be32(payload.spec_get()),
        }
    }

    fn encode_to(&self, output: &mut Vec<u8>) {
        put_u16(output, self.id.get());
        self.name.encode_text(output);
        match self.payload {
            None => put_u8(output, 0),
            Some(payload) => {
                put_u8(output, 1);
                put_u32(output, payload.get());
            },
        }
        assert(output@ =~= old(output)@ + self.spec_encoding());
    }
}

/// The complete nonrecursive type grammar admitted by schema version 1.
#[derive(Clone, Debug, PartialEq, Eq)]
pub enum TypeKind {
    /// Unit value.
    Unit,
    /// Boolean value.
    Bool,
    /// Inclusive unsigned 128-bit interval.
    U128 {
        /// Minimum admitted value.
        min: u128,
        /// Maximum admitted value.
        max: u128,
    },
    /// Inclusive signed 128-bit interval.
    I128 {
        /// Minimum admitted value.
        min: i128,
        /// Maximum admitted value.
        max: i128,
    },
    /// Bounded byte string.
    Bytes {
        /// Minimum bytes.
        min_len: u32,
        /// Maximum bytes.
        max_len: u32,
    },
    /// Bounded ASCII text.
    Text {
        /// Minimum bytes.
        min_len: u32,
        /// Maximum bytes.
        max_len: u32,
    },
    /// Payload-free enum.
    Enum {
        /// Canonically ordered variants.
        variants: Vec<EnumVariantDef>,
    },
    /// Fixed heterogeneous product.
    Tuple {
        /// Item types in semantic order.
        items: Vec<TypeId>,
    },
    /// Product with stable numeric field identifiers.
    Record {
        /// Canonically ordered fields.
        fields: Vec<FieldDef>,
    },
    /// Tagged sum of unit and payload variants.
    Sum {
        /// Canonically ordered variants.
        variants: Vec<SumVariantDef>,
    },
    /// Bounded homogeneous sequence.
    Vector {
        /// Element type.
        element: TypeId,
        /// Minimum element count.
        min_len: u32,
        /// Maximum element count.
        max_len: u32,
    },
    /// Bounded canonical map.
    Mapping {
        /// Key type.
        key: TypeId,
        /// Value type.
        value: TypeId,
        /// Minimum entry count.
        min_len: u32,
        /// Maximum entry count.
        max_len: u32,
    },
}

/// The schema error for a refused variant list.
pub open spec fn variant_list_error(defect: ListDefect) -> SchemaError {
    match defect {
        ListDefect::TooMany => SchemaError::LimitExceeded,
        ListDefect::DuplicateId(id) => SchemaError::DuplicateVariantId(VariantId::spec_new(id as u16)),
        ListDefect::DuplicateName => SchemaError::DuplicateVariantName,
    }
}

/// The schema error for a refused field list.
pub open spec fn field_list_error(defect: ListDefect) -> SchemaError {
    match defect {
        ListDefect::TooMany => SchemaError::LimitExceeded,
        ListDefect::DuplicateId(id) => SchemaError::DuplicateFieldId(FieldId::spec_new(id as u16)),
        ListDefect::DuplicateName => SchemaError::DuplicateFieldName,
    }
}

/// Why a type grammar node is refused under the limits, if it is.
pub open spec fn kind_error(kind: TypeKind, limits: SchemaLimits) -> Option<SchemaError> {
    match kind {
        TypeKind::U128 { min, max } => if min > max {
            Some(SchemaError::InvalidRange)
        } else {
            None
        },
        TypeKind::I128 { min, max } => if min > max {
            Some(SchemaError::InvalidRange)
        } else {
            None
        },
        TypeKind::Bytes { min_len, max_len } => if min_len > max_len {
            Some(SchemaError::InvalidRange)
        } else {
            None
        },
        TypeKind::Text { min_len, max_len } => if min_len > max_len {
            Some(SchemaError::InvalidRange)
        } else {
            None
        },
        TypeKind::Vector { min_len, max_len, .. } => if min_len > max_len {
            Some(SchemaError::InvalidRange)
        } else {
            None
        },
        TypeKind::Mapping { min_len, max_len, .. } => if min_len > max_len {
            Some(SchemaError::InvalidRange)
        } else {
            None
        },
        TypeKind::Enum { variants } => match list_outcome(variants@, limits.max_variants) {
            Ok(_) => None,
            Err(defect) => Some(variant_list_error(defect)),
        },
        TypeKind::Sum { variants } => match list_outcome(variants@, limits.max_variants) {
            Ok(_) => None,
            Err(defect) => Some(variant_list_error(defect)),
        },
        TypeKind::Record { fields } => match list_outcome(fields@, limits.max_fields) {
            Ok(_) => None,
            Err(defect) => Some(field_list_error(defect)),
        },
        TypeKind::Tuple { items } => if items@.len() > limits.max_tuple_items {
            Some(SchemaError::LimitExceeded)
        } else {
            None
        },
        _ => None,
    }
}

/// `normal` is the canonical form of the admitted node `kind`: lists are put in
/// identifier order and everything else is kept as declared.
pub open spec fn is_normal_form_of(normal: TypeKind, kind: TypeKind) -> bool {
    match kind {
        TypeKind::Enum { variants } => normal matches TypeKind::Enum { variants: v } && v@
            == canonical_order(variants@),
        TypeKind::Sum { variants } => normal matches TypeKind::Sum { variants: v } && v@
            == canonical_order(variants@),
        TypeKind::Record { fields } => normal matches TypeKind::Record { fields: f } && f@
            == canonical_order(fields@),
        TypeKind::Tuple { items } => normal matches TypeKind::Tuple { items: t } && t@ == items@,
        _ => normal == kind,
    }
}

/// A node in canonical form: ordered, reference lists of 32-bit length and
/// well-formed ranges.
pub open spec fn is_normal_kind(kind: TypeKind) -> bool {
    match kind {
        TypeKind::U128 { min, max } => min <= max,
        TypeKind::I128 { min, max } => min <= max,
        TypeKind::Bytes { min_len, max_len } => min_len <= max_len,
        TypeKind::Text { min_len, max_len } => min_len <= max_len,
        TypeKind::Vector { min_len, max_len, .. } => min_len <= max_len,
        TypeKind::Mapping { min_len, max_len, .. } => min_len <= max_len,
        TypeKind::Enum { variants } => strictly_sorted_by_key(variants@) && !has_duplicate_label(
            variants@,
        ) && variants@.len() <= u32::MAX,
        TypeKind::Sum { variants } => strictly_sorted_by_key(variants@) && !has_duplicate_label(
            variants@,
        ) && variants@.len() <= u32::MAX,
        TypeKind::Record { fields } => strictly_sorted_by_key(fields@) && !has_duplicate_label(
            fields@,
        ) && fields@.len() <= u32::MAX,
        TypeKind::Tuple { items } => items@.len() <= u32::MAX,
        _ => true,
    }
}

/// Converts a refused variant list.
fn variant_defect(defect: ListDefect) -> (error: SchemaError)
    requires
        defect matches ListDefect::DuplicateId(id) ==> id <= u16::MAX,
    ensures
        error == variant_list_error(defect),
{
    match defect {
        ListDefect::TooMany => SchemaError::LimitExceeded,
        ListDefect::DuplicateId(id) => SchemaError::DuplicateVariantId(VariantId::new(id as u16)),
        ListDefect::DuplicateName => SchemaError::DuplicateVariantName,
    }
}

/// Converts a refused field list.
fn field_defect(defect: ListDefect) -> (error: SchemaError)
    requires
        defect matches ListDefect::DuplicateId(id) ==> id <= u16::MAX,
    ensures
        error == field_list_error(defect),
{
    match defect {
        ListDefect::TooMany => SchemaError::LimitExceeded,
        ListDefect::DuplicateId(id) => SchemaError::DuplicateFieldId(FieldId::new(id as u16)),
        ListDefect::DuplicateName => SchemaError::DuplicateFieldName,
    }
}

/// Identifiers of 16-bit lists stay below 2^16 when reported as duplicates.
proof fn lemma_list_defect_bound<T: NamedItem>(items: Seq<T>, max: u32)
    requires
        forall|i: int| 0 <= i < items.len() ==> 0 <= #[trigger] items[i].spec_key() <= u16::MAX,
        list_outcome(items, max) is Err,
    ensures
        list_outcome(items, max) matches Err(ListDefect::DuplicateId(id)) ==> id <= u16::MAX,
{
    if items.len() <= max && has_duplicate_key(items) {
        if exists|k: int| is_least_duplicated_key(items, k) {
            let k = least_duplicated_key(items);
            assert(is_least_duplicated_key(items, k));
            lemma_duplicated_key_member(items, k);
        }
    }
}

impl TypeKind {
    /// Checks ranges and limits and puts every list in canonical order.
    pub fn normalize(self, limits: SchemaLimits) -> (normalized: Result<TypeKind, SchemaError>)
        ensures
            match (normalized, kind_error(self, limits)) {
                (Ok(k), None) => is_normal_form_of(k, self) && is_normal_kind(k),
                (Err(e), Some(f)) => e == f,
                _ => false,
            },
    {
        match self {
            TypeKind::U128 { min, max } => if min > max {
                Err(SchemaError::InvalidRange)
            } else {
                Ok(TypeKind::U128 { min, max })
            },
            TypeKind::I128 { min, max } => if min > max {
                Err(SchemaError::InvalidRange)
            } else {
                Ok(TypeKind::I128 { min, max })
            },
            TypeKind::Bytes { min_len, max_len } => if min_len > max_len {
                Err(SchemaError::InvalidRange)
            } else {
                Ok(TypeKind::Bytes { min_len, max_len })
            },
            TypeKind::Text { min_len, max_len } => if min_len > max_len {
                Err(SchemaError::InvalidRange)
            } else {
                Ok(TypeKind::Text { min_len, max_len })
            },
            TypeKind::Vector { element, min_len, max_len } => if min_len > max_len {
                Err(SchemaError::InvalidRange)
            } else {
                Ok(TypeKind::Vector { element, min_len, max_len })
            },
            TypeKind::Mapping { key, value, min_len, max_len } => if min_len > max_len {
                Err(SchemaError::InvalidRange)
            } else {
                Ok(TypeKind::Mapping { key, value, min_len, max_len })
            },
            TypeKind::Enum { variants } => {
                let ghost declared = variants@;
                match normalize_list(variants, limits.max_variants) {
                    Ok(variants) => Ok(TypeKind::Enum { variants }),
                    Err(defect) => {
                        proof {
                            lemma_list_defect_bound(declared, limits.max_variants);
                        }
                        Err(variant_defect(defect))
                    },
                }
            },
            TypeKind::Sum { variants } => {
                let ghost declared = variants@;
                match normalize_list(variants, limits.max_variants) {
                    Ok(variants) => Ok(TypeKind::Sum { variants }),
                    Err(defect) => {
                        proof {
                            lemma_list_defect_bound(declared, limits.max_variants);
                        }
                        Err(variant_defect(defect))
                    },
                }
            },
            TypeKind::Record { fields } => {
                let ghost declared = fields@;
                match normalize_list(fields, limits.max_fields) {
                    Ok(fields) => Ok(TypeKind::Record { fields }),
                    Err(defect) => {
                        proof {
                            lemma_list_defect_bound(declared, limits.max_fields);
                        }
                        Err(field_defect(defect))
                    },
                }
            },
            TypeKind::Tuple { items } => if items.len() > limits.max_tuple_items as usize {
                Err(SchemaError::LimitExceeded)
            } else {
                Ok(TypeKind::Tuple { items })
            },
            TypeKind::Unit => Ok(TypeKind::Unit),
            TypeKind::Bool => Ok(TypeKind::Bool),
        }
    }
}

/// Canonical bytes of a type grammar node: a kind tag, then its parameters
/// with every list length-prefixed.
pub open spec fn kind_encoding(kind: TypeKind) -> Seq<u8> {
    match kind {
        TypeKind::Unit => seq![0u8],
        TypeKind::Bool => seq![1u8],
        TypeKind::U128 { min, max } => seq![2u8] + be128(min) + be128(max),
        TypeKind::I128 { min, max } => seq![3u8] + be128(min as u128) + be128(max as u128),
        TypeKind::Bytes { min_len, max_len } => seq![4u8] + be32(min_len) + be32(max_len),
        TypeKind::Text { min_len, max_len } => seq![5u8] + be32(min_len) + be32(max_len),
        TypeKind::Enum { variants } => seq![6u8] + be32(variants@.len() as u32) + encode_all(
            variants@,
        ),
        TypeKind::Tuple { items } => seq![7u8] + be32(items@.len() as u32) + encode_all(items@),
        TypeKind::Record { fields } => seq![8u8] + be32(fields@.len() as u32) + encode_all(
            fields@,
        ),
        TypeKind::Sum { variants } => seq![9u8] + be32(variants@.len() as u32) + encode_all(
            variants@,
        ),
        TypeKind::Vector { element, min_len, max_len } => seq![10u8] + be32(element.spec_get())
            + be32(min_len) + be32(max_len),
        TypeKind::Mapping { key, value, min_len, max_len } => seq![11u8] + be32(key.spec_get())
            + be32(value.spec_get()) + be32(min_len) + be32(max_len),
    }
}

/// Payload types of sum variants, in variant order.
pub open spec fn sum_payloads(variants: Seq<SumVariantDef>) -> Seq<u32>
    decreases variants.len(),
{
    if variants.len() == 0 {
        Seq::empty()
    } else {
        sum_payloads(variants.drop_last()) + match variants.last().spec_payload() {
            Some(payload) => seq![payload.spec_get()],
            None => Seq::<u32>::empty(),
        }
    }
}

/// Raw identifiers of the types a node refers to, in declaration order.
pub open spec fn kind_references(kind: TypeKind) -> Seq<u32> {
    match kind {
        TypeKind::Tuple { items } => items@.map_values(|item: TypeId| item.spec_get()),
        TypeKind::Record { fields } => fields@.map_values(
            |field: FieldDef| field.spec_type_id().spec_get(),
        ),
        TypeKind::Sum { variants } => sum_payloads(variants@),
        TypeKind::Vector { element, .. } => seq![element.spec_get()],
        TypeKind::Mapping { key, value, .. } => seq![key.spec_get(), value.spec_get()],
        _ => Seq::empty(),
    }
}

impl TypeKind {
    /// Appends the canonical bytes of the node.
    pub fn encode_to(&self, output: &mut Vec<u8>)
        ensures
            final(output)@ == old(output)@ + kind_encoding(*self),
    {
        match self {
            TypeKind::Unit => put_u8(output, 0),
            TypeKind::Bool => put_u8(output, 1),
            TypeKind::U128 { min, max } => {
                put_u8(output, 2);
                put_u128(output, *min);
                put_u128(output, *max);
            },
            TypeKind::I128 { min, max } => {
                put_u8(output, 3);
                put_u128(output, *min as u128);
                put_u128(output, *max as u128);
            },
            TypeKind::Bytes { min_len, max_len } => {
                put_u8(output, 4);
                put_u32(output, *min_len);
                put_u32(output, *max_len);
            },
            TypeKind::Text { min_len, max_len } => {
                put_u8(output, 5);
                put_u32(output, *min_len);
                put_u32(output, *max_len);
            },
            TypeKind::Enum { variants } => {
                put_u8(output, 6);
                put_u32(output, variants.len() as u32);
                encode_each(variants.as_slice(), output);
            },
            TypeKind::Tuple { items } => {
                put_u8(output, 7);
                put_u32(output, items.len() as u32);
                encode_each(items.as_slice(), output);
            },
            TypeKind::Record { fields } => {
                put_u8(output, 8);
                put_u32(output, fields.len() as u32);
                encode_each(fields.as_slice(), output);
            },
            TypeKind::Sum { variants } => {
                put_u8(output, 9);
                put_u32(output, variants.len() as u32);
                encode_each(variants.as_slice(), output);
            },
            TypeKind::Vector { element, min_len, max_len } => {
                put_u8(output, 10);
                put_u32(output, element.get());
                put_u32(output, *min_len);
                put_u32(output, *max_len);
            },
            TypeKind::Mapping { key, value, min_len, max_len } => {
                put_u8(output, 11);
                put_u32(output, key.get());
                put_u32(output, value.get());
                put_u32(output, *min_len);
                put_u32(output, *max_len);
            },
        }
        assert(output@ =~= old(output)@ + kind_encoding(*self));
    }

    /// Returns the raw identifiers of the types the node refers to.
    pub fn references(&self) -> (references: Vec<u32>)
        ensures
            references@ == kind_references(*self),
    {
        let mut references: Vec<u32> = Vec::new();
        match self {
            TypeKind::Tuple { items } => {
                let mut index: usize = 0;
                while index < items.len()
                    invariant
                        index <= items@.len(),
                        references@ == items@.subrange(0, index as int).map_values(
                            |item: TypeId| item.spec_get(),
                        ),
                    decreases items@.len() - index,
                {
                    references.push(items[index].get());
                    index = index + 1;
                    assert(references@ =~= items@.subrange(0, index as int).map_values(
                        |item: TypeId| item.spec_get(),
                    ));
                }
                assert(items@.subrange(0, items@.len() as int) =~= items@);
            },
            TypeKind::Record { fields } => {
                let mut index: usize = 0;
                while index < fields.len()
                    invariant
                        index <= fields@.len(),
                        references@ == fields@.subrange(0, index as int).map_values(
                            |field: FieldDef| field.spec_type_id().spec_get(),
                        ),
                    decreases fields@.len() - index,
                {
                    references.push(fields[index].type_id().get());
                    index = index + 1;
                    assert(references@ =~= fields@.subrange(0, index as int).map_values(
                        |field: FieldDef| field.spec_type_id().spec_get(),
                    ));
                }
                assert(fields@.subrange(0, fields@.len() as int) =~= fields@);
            },
            TypeKind::Sum { variants } => {
                let mut index: usize = 0;
                while index < variants.len()
                    invariant
                        index <= variants@.len(),
                        references@ == sum_payloads(variants@.subrange(0, index as int)),
                    decreases variants@.len() - index,
                {
                    proof {
                        let next = variants@.subrange(0, index + 1);
                        assert(next.drop_last() =~= variants@.subrange(0, index as int));
                        assert(next.last() == variants@[index as int]);
                    }
                    match variants[index].payload() {
                        Some(payload) => references.push(payload.get()),
                        None => {},
                    }
                    index = index + 1;
                    assert(references@ =~= sum_payloads(variants@.subrange(0, index as int)));
                }
                assert(variants@.subrange(0, variants@.len() as int) =~= variants@);
            },
            TypeKind::Vector { element, .. } => {
                references.push(element.get());
                assert(references@ =~= kind_references(*self));
            },
            TypeKind::Mapping { key, value, .. } => {
                references.push(key.get());
                references.push(value.get());
                assert(references@ =~= kind_references(*self));
            },
            _ => {
                assert(references@ =~= kind_references(*self));
            },
        }
        references
    }
}

/// One named type definition.
#[derive(Debug, PartialEq, Eq)]
pub struct TypeDef {
    id: TypeId,
    name: SchemaName,
    kind: TypeKind,
}

impl TypeDef {
    /// Every definition holds its grammar node in canonical form.
    #[verifier::type_invariant]
    spec fn normal(self) -> bool {
        is_normal_kind(self.kind)
    }

    /// The stable type identifier.
    pub closed spec fn spec_id(self) -> TypeId {
        self.id
    }

    /// The source-facing type name.
    pub closed spec fn spec_name(self) -> SchemaName {
        self.name
    }

    /// The type grammar node.
    pub closed spec fn spec_kind(self) -> TypeKind {
        self.kind
    }

    /// Constructs and locally normalizes a type definition; the name is
    /// checked before the grammar node.
    pub fn try_new(id: TypeId, name: &str, kind: TypeKind, limits: SchemaLimits) -> (definition:
        Result<Self, SchemaError>)
        ensures
            !SchemaName::is_valid_text(name) ==> definition == Err::<Self, SchemaError>(
                SchemaError::InvalidName,
            ),
            SchemaName::is_valid_text(name) ==> match (definition, kind_error(kind, limits)) {
                (Ok(t), None) => t.spec_id() == id && t.spec_name().spec_chars() == name@
                    && is_normal_form_of(t.spec_kind(), kind),
                (Err(e), Some(f)) => e == f,
                _ => false,
            },
    {
        let name = SchemaName::try_new(name)?;
        let kind = kind.normalize(limits)?;
        Ok(TypeDef { id, name, kind })
    }

    /// Returns the stable type identifier.
    pub fn id(&self) -> (id: TypeId)
        ensures
            id == self.spec_id(),
    {
        self.id
    }

    /// Returns the source-facing type name.
    pub fn name(&self) -> (name: &SchemaName)
        ensures
            *name == self.spec_name(),
    {
        &self.name
    }

    /// Returns the type grammar node.
    pub fn kind(&self) -> (kind: &TypeKind)
        ensures
            *kind == self.spec_kind(),
            is_normal_kind(*kind),
    {
        proof {
            use_type_invariant(self);
        }
        &self.kind
    }
}

impl Keyed for TypeDef {
    open spec fn spec_key(&self) -> int {
        self.spec_id().spec_get() as int
    }

    fn key_lt(&self, other: &Self) -> bool {
        self.id.get() < other.id.get()
    }

    fn key_eq(&self, other: &Self) -> bool {
        self.id.get() == other.id.get()
    }
}

impl U64Keyed for TypeDef {
    fn key_u64(&self) -> u64 {
        self.id.get() as u64
    }
}

impl NamedItem for TypeDef {
    open spec fn spec_label(&self) -> Seq<char> {
        self.spec_name().spec_chars()
    }

    fn same_label(&self, other: &Self) -> bool {
        self.name.same_as(&other.name)
    }
}

impl Encodable for TypeDef {
    open spec fn spec_encoding(&self) -> Seq<u8> {
        be32(self.spec_id().spec_get()) + self.spec_name().spec_text_encoding() + kind_encoding(
            self.spec_kind(),
        )
    }

    fn encode_to(&self, output: &mut Vec<u8>) {
        put_u32(output, self.id.get());
        self.name.encode_text(output);
        self.kind.encode_to(output);
        assert(output@ =~= old(output)@ + self.spec_encoding());
    }
}

} // verus!

//! The closed value algebra that schemas describe, patches edit and
//! commitments hash, with its canonical byte encoding.
//!
//! Encoding: one tag byte per node, then its content. Integers are
//! big-endian; byte strings, text and collections carry a 64-bit big-endian
//! count before their content; record fields carry their 16-bit identifier;
//! a sum carries a presence byte before its optional payload.

use vstd::prelude::*;

use crate::encode::{be128, be16, be32, be64, put_bytes, put_u128, put_u16, put_u32, put_u64, put_u8};

verus! {

/// One closed value.
#[derive(Debug, PartialEq, Eq)]
pub enum Value {
    /// The unit value.
    Unit,
    /// A boolean.
    Bool(bool),
    /// An unsigned 128-bit integer.
    U128(u128),
    /// A signed 128-bit integer.
    I128(i128),
    /// A byte string.
    Bytes(Vec<u8>),
    /// A text string.
    Text(String),
    /// A payload-free enum variant of a declared type.
    Enum {
        /// Declared type identifier.
        type_id: u32,
        /// Variant identifier.
        variant: u16,
    },
    /// A fixed heterogeneous product.
    Tuple(Vec<Value>),
    /// A product with stable field identifiers.
    Record(Vec<Field>),
    /// A variant of a declared sum type with an optional payload.
    Sum {
        /// Declared type identifier.
        type_id: u32,
        /// Variant identifier.
        variant: u16,
        /// Payload, when the variant has one.
        payload: Option<Box<Value>>,
    },
    /// A homogeneous sequence.
    Vector(Vec<Value>),
    /// A map from keys to values.
    Mapping(Vec<MapEntry>),
}

/// One record field: a stable identifier and its value.
#[derive(Debug, PartialEq, Eq)]
pub struct Field {
    /// Stable field identifier.
    pub id: u16,
    /// Field value.
    pub value: Value,
}

/// One map entry.
#[derive(Debug, PartialEq, Eq)]
pub struct MapEntry {
    /// The semantic key.
    pub key: Value,
    /// The mapped value.
    pub value: Value,
}

/// Why a collection was refused as noncanonical.
#[derive(Clone, Copy, Debug, PartialEq, Eq, Structural)]
pub enum ValueError {
    /// Record fields are not in strictly increasing identifier order.
    UnorderedRecordFields,
    /// Map entries are not in strictly increasing encoded-key order.
    UnorderedMapKeys,
}

/// The mathematical content of a value: what its canonical encoding,
/// equality and every contract of this library speak of.
pub enum ValueModel {
    /// The unit value.
    Unit,
    /// A boolean.
    Bool(bool),
    /// An unsigned 128-bit integer.
    U128(u128),
    /// A signed 128-bit integer.
    I128(i128),
    /// A byte string.
    Bytes(Seq<u8>),
    /// A text, as its characters.
    Text(Seq<char>),
    /// A payload-free enum variant.
    Enum { type_id: u32, variant: u16 },
    /// A fixed heterogeneous product.
    Tuple(Seq<ValueModel>),
    /// Record fields as identifier and value pairs.
    Record(Seq<(u16, ValueModel)>),
    /// A sum variant with an optional payload.
    Sum { type_id: u32, variant: u16, payload: Option<Box<ValueModel>> },
    /// A homogeneous sequence.
    Vector(Seq<ValueModel>),
    /// Map entries as key and value pairs.
    Mapping(Seq<(ValueModel, ValueModel)>),
}

/// The UTF-8 length of a text.
pub open spec fn text_length(chars: Seq<char>) -> nat {
    vstd::utf8::encode_utf8(chars).len()
}

/// The model of a value.
pub open spec fn model(value: Value) -> ValueModel
    decreases value,
{
    match value {
        Value::Unit => ValueModel::Unit,
        Value::Bool(b) => ValueModel::Bool(b),
        Value::U128(x) => ValueModel::U128(x),
        Value::I128(x) => ValueModel::I128(x),
        Value::Bytes(bytes) => ValueModel::Bytes(bytes@),
        Value::Text(text) => ValueModel::Text(text@),
        Value::Enum { type_id, variant } => ValueModel::Enum { type_id, variant },
        Value::Tuple(items) => ValueModel::Tuple(models(items@)),
        Value::Record(fields) => ValueModel::Record(field_models(fields@)),
        Value::Sum { type_id, variant, payload } => ValueModel::Sum {
            type_id,
            variant,
            payload: match payload {
                None => None,
                Some(child) => Some(Box::new(model(*child))),
            },
        },
        Value::Vector(items) => ValueModel::Vector(models(items@)),
        Value::Mapping(entries) => ValueModel::Mapping(entry_models(entries@)),
    }
}

/// The models of a sequence of values.
pub open spec fn models(values: Seq<Value>) -> Seq<ValueModel>
    decreases values,
{
    if values.len() == 0 {
        Seq::empty()
    } else {
        models(values.drop_last()).push(model(values.last()))
    }
}

/// The models of record fields.
pub open spec fn field_models(fields: Seq<Field>) -> Seq<(u16, ValueModel)>
    decreases fields,
{
    if fields.len() == 0 {
        Seq::empty()
    } else {
        field_models(fields.drop_last()).push((fields.last().id, model(fields.last().value)))
    }
}

/// The models of map entries.
pub open spec fn entry_models(entries: Seq<MapEntry>) -> Seq<(ValueModel, ValueModel)>
    decreases entries,
{
    if entries.len() == 0 {
        Seq::empty()
    } else {
        entry_models(entries.drop_last()).push((model(entries.last().key), model(entries.last().value)))
    }
}


/// Modeling a sequence keeps its length and models each element.
pub proof fn lemma_models(values: Seq<Value>)
    ensures
        models(values).len() == values.len(),
        forall|i: int| 0 <= i < values.len() ==> #[trigger] models(values)[i] == model(values[i]),
    decreases values.len(),
{
    if values.len() > 0 {
        lemma_models(values.drop_last());
    }
}

/// Modeling fields keeps their count, identifiers and values.
pub proof fn lemma_field_models(fields: Seq<Field>)
    ensures
        field_models(fields).len() == fields.len(),
        forall|i: int| 0 <= i < fields.len() ==> #[trigger] field_models(fields)[i] == (
            fields[i].id,
            model(fields[i].value),
        ),
    decreases fields.len(),
{
    if fields.len() > 0 {
        lemma_field_models(fields.drop_last());
    }
}

/// Modeling entries keeps their count, keys and values.
pub proof fn lemma_entry_models(entries: Seq<MapEntry>)
    ensures
        entry_models(entries).len() == entries.len(),
        forall|i: int| 0 <= i < entries.len() ==> #[trigger] entry_models(entries)[i] == (
            model(entries[i].key),
            model(entries[i].value),
        ),
    decreases entries.len(),
{
    if entries.len() > 0 {
        lemma_entry_models(entries.drop_last());
    }
}

impl View for Value {
    type V = ValueModel;

    open spec fn view(&self) -> ValueModel {
        model(*self)
    }
}

/// Canonical bytes of a value model.
pub open spec fn encoding(value: ValueModel) -> Seq<u8>
    decreases value,
{
    match value {
        ValueModel::Unit => seq![0u8],
        ValueModel::Bool(b) => seq![1u8, if b { 1u8 } else { 0u8 }],
        ValueModel::U128(x) => seq![2u8] + be128(x),
        ValueModel::I128(x) => seq![3u8] + be128(x as u128),
        ValueModel::Bytes(bytes) => seq![4u8] + be64(bytes.len() as u64) + bytes,
        ValueModel::Text(chars) => seq![5u8] + be64(vstd::utf8::encode_utf8(chars).len() as u64)
            + vstd::utf8::encode_utf8(chars),
        ValueModel::Enum { type_id, variant } => seq![6u8] + be32(type_id) + be16(variant),
        ValueModel::Tuple(items) => seq![7u8] + be64(items.len() as u64) + encodings(items),
        ValueModel::Record(fields) => seq![8u8] + be64(fields.len() as u64) + field_encodings(fields),
        ValueModel::Sum { type_id, variant, payload } => seq![9u8] + be32(type_id) + be16(variant)
            + match payload {
            None => seq![0u8],
            Some(child) => seq![1u8] + encoding(*child),
        },
        ValueModel::Vector(items) => seq![10u8] + be64(items.len() as u64) + encodings(items),
        ValueModel::Mapping(entries) => seq![11u8] + be64(entries.len() as u64) + entry_encodings(entries),
    }
}

/// Concatenated canonical bytes of value models.
pub open spec fn encodings(values: Seq<ValueModel>) -> Seq<u8>
    decreases values,
{
    if values.len() == 0 {
        Seq::empty()
    } else {
        encodings(values.drop_last()) + encoding(values.last())
    }
}

/// Concatenated canonical bytes of record fields: identifier, then value.
pub open spec fn field_encodings(fields: Seq<(u16, ValueModel)>) -> Seq<u8>
    decreases fields,
{
    if fields.len() == 0 {
        Seq::empty()
    } else {
        field_encodings(fields.drop_last()) + be16(fields.last().0) + encoding(fields.last().1)
    }
}

/// Concatenated canonical bytes of map entries: key, then value.
pub open spec fn entry_encodings(entries: Seq<(ValueModel, ValueModel)>) -> Seq<u8>
    decreases entries,
{
    if entries.len() == 0 {
        Seq::empty()
    } else {
        entry_encodings(entries.drop_last()) + encoding(entries.last().0) + encoding(entries.last().1)
    }
}

impl Value {
    /// Appends the canonical bytes of the value.
    pub fn encode_to(&self, output: &mut Vec<u8>)
        ensures
            final(output)@ == old(output)@ + encoding(self@),
        decreases self,
    {
        match self {
            Value::Unit => put_u8(output, 0),
            Value::Bool(b) => {
                put_u8(output, 1);
                put_u8(output, if *b { 1 } else { 0 });
            },
            Value::U128(x) => {
                put_u8(output, 2);
                put_u128(output, *x);
            },
            Value::I128(x) => {
                put_u8(output, 3);
                put_u128(output, *x as u128);
            },
            Value::Bytes(bytes) => {
                put_u8(output, 4);
                put_u64(output, bytes.len() as u64);
                put_bytes(output, bytes.as_slice());
            },
            Value::Text(text) => {
                let bytes = text.as_str().as_bytes();
                put_u8(output, 5);
                put_u64(output, bytes.len() as u64);
                put_bytes(output, bytes);
            },
            Value::Enum { type_id, variant } => {
                put_u8(output, 6);
                put_u32(output, *type_id);
                put_u16(output, *variant);
            },
            Value::Tuple(items) => {
                put_u8(output, 7);
                put_u64(output, items.len() as u64);
                encode_values(items, output);
                proof {
                    lemma_models(items@);
                }
            },
            Value::Record(fields) => {
                put_u8(output, 8);
                put_u64(output, fields.len() as u64);
                encode_fields(fields, output);
                proof {
                    lemma_field_models(fields@);
                }
            },
            Value::Sum { type_id, variant, payload } => {
                put_u8(output, 9);
                put_u32(output, *type_id);
                put_u16(output, *variant);
                match payload {
                    None => put_u8(output, 0),
                    Some(child) => {
                        put_u8(output, 1);
                        child.encode_to(output);
                    },
                }
            },
            Value::Vector(items) => {
                put_u8(output, 10);
                put_u64(output, items.len() as u64);
                encode_values(items, output);
                proof {
                    lemma_models(items@);
                }
            },
            Value::Mapping(entries) => {
                put_u8(output, 11);
                put_u64(output, entries.len() as u64);
                encode_entries(entries, output);
                proof {
                    lemma_entry_models(entries@);
                }
            },
        }
        assert(output@ =~= old(output)@ + encoding(self@));
    }

    /// The canonical bytes of the value.
    pub fn canonical_bytes(&self) -> (bytes: Vec<u8>)
        ensures
            bytes@ == encoding(self@),
    {
        let mut bytes: Vec<u8> = Vec::new();
        self.encode_to(&mut bytes);
        assert(bytes@ =~= encoding(self@));
        bytes
    }
}

fn encode_values(values: &Vec<Value>, output: &mut Vec<u8>)
    ensures
        final(output)@ == old(output)@ + encodings(models(values@)),
    decreases values,
{
    let mut index: usize = 0;
    while index < values.len()
        invariant
            index <= values@.len(),
            output@ == old(output)@ + encodings(models(values@.take(index as int))),
        decreases values@.len() - index,
    {
        values[index].encode_to(output);
        proof {
            let prefix = values@.take(index + 1);
            assert(prefix.drop_last() =~= values@.take(index as int));
            let modeled = models(prefix);
            assert(modeled.drop_last() =~= models(values@.take(index as int)));
        }
        index = index + 1;
        assert(output@ =~= old(output)@ + encodings(models(values@.take(index as int))));
    }
    assert(values@.take(values@.len() as int) =~= values@);
}

fn encode_fields(fields: &Vec<Field>, output: &mut Vec<u8>)
    ensures
        final(output)@ == old(output)@ + field_encodings(field_models(fields@)),
    decreases fields,
{
    let mut index: usize = 0;
    while index < fields.len()
        invariant
            index <= fields@.len(),
            output@ == old(output)@ + field_encodings(field_models(fields@.take(index as int))),
        decreases fields@.len() - index,
    {
        put_u16(output, fields[index].id);
        fields[index].value.encode_to(output);
        proof {
            let prefix = fields@.take(index + 1);
            assert(prefix.drop_last() =~= fields@.take(index as int));
            let modeled = field_models(prefix);
            assert(modeled.drop_last() =~= field_models(fields@.take(index as int)));
        }
        index = index + 1;
        assert(output@ =~= old(output)@ + field_encodings(field_models(fields@.take(index as int))));
    }
    assert(fields@.take(fields@.len() as int) =~= fields@);
}

fn encode_entries(entries: &Vec<MapEntry>, output: &mut Vec<u8>)
    ensures
        final(output)@ == old(output)@ + entry_encodings(entry_models(entries@)),
    decreases entries,
{
    let mut index: usize = 0;
    while index < entries.len()
        invariant
            index <= entries@.len(),
            output@ == old(output)@ + entry_encodings(entry_models(entries@.take(index as int))),
        decreases entries@.len() - index,
    {
        entries[index].key.encode_to(output);
        entries[index].value.encode_to(output);
        proof {
            let prefix = entries@.take(index + 1);
            assert(prefix.drop_last() =~= entries@.take(index as int));
            let modeled = entry_models(prefix);
            assert(modeled.drop_last() =~= entry_models(entries@.take(index as int)));
        }
        index = index + 1;
        assert(output@ =~= old(output)@ + entry_encodings(entry_models(entries@.take(index as int))));
    }
    assert(entries@.take(entries@.len() as int) =~= entries@);
}

impl Value {
    /// A deep copy of the value.
    pub fn duplicate(&self) -> (copy: Value)
        ensures
            copy@ == self@,
        decreases self,
    {
        match self {
            Value::Unit => Value::Unit,
            Value::Bool(b) => Value::Bool(*b),
            Value::U128(x) => Value::U128(*x),
            Value::I128(x) => Value::I128(*x),
            Value::Bytes(bytes) => {
                let copy = bytes.clone();
                assert(copy@ =~= bytes@);
                Value::Bytes(copy)
            },
            Value::Text(text) => Value::Text(text.clone()),
            Value::Enum { type_id, variant } => Value::Enum { type_id: *type_id, variant: *variant },
            Value::Tuple(items) => Value::Tuple(duplicate_values(items)),
            Value::Record(fields) => Value::Record(duplicate_fields(fields)),
            Value::Sum { type_id, variant, payload } => {
                let payload = match payload {
                    None => None,
                    Some(child) => Some(Box::new(child.duplicate())),
                };
                Value::Sum { type_id: *type_id, variant: *variant, payload }
            },
            Value::Vector(items) => Value::Vector(duplicate_values(items)),
            Value::Mapping(entries) => Value::Mapping(duplicate_entries(entries)),
        }
    }
}

impl Value {
    /// Whether two values are equal.
    pub fn same_as(&self, other: &Value) -> (same: bool)
        ensures
            same == (self@ == other@),
        decreases self,
    {
        match (self, other) {
            (Value::Unit, Value::Unit) => true,
            (Value::Bool(a), Value::Bool(b)) => *a == *b,
            (Value::U128(a), Value::U128(b)) => *a == *b,
            (Value::I128(a), Value::I128(b)) => *a == *b,
            (Value::Bytes(a), Value::Bytes(b)) => {
                let same = crate::patch::same_bytes(a.as_slice(), b.as_slice());
                same
            },
            (Value::Text(a), Value::Text(b)) => *a == *b,
            (Value::Enum { type_id: t1, variant: v1 }, Value::Enum { type_id: t2, variant: v2 }) => *t1 == *t2 && *v1
                == *v2,
            (Value::Tuple(a), Value::Tuple(b)) => same_values(a, b),
            (Value::Record(a), Value::Record(b)) => same_fields(a, b),
            (
                Value::Sum { type_id: t1, variant: v1, payload: p1 },
                Value::Sum { type_id: t2, variant: v2, payload: p2 },
            ) => {
                if *t1 != *t2 || *v1 != *v2 {
                    return false;
                }
                match (p1, p2) {
                    (None, None) => true,
                    (Some(c1), Some(c2)) => {
                        let same = c1.same_as(c2);
                        proof {
                            if !same {
                                assert(model(**c1) != model(**c2));
                            }
                        }
                        same
                    },
                    _ => false,
                }
            },
            (Value::Vector(a), Value::Vector(b)) => same_values(a, b),
            (Value::Mapping(a), Value::Mapping(b)) => same_entries(a, b),
            _ => false,
        }
    }
}

pub(crate) fn same_values(a: &Vec<Value>, b: &Vec<Value>) -> (same: bool)
    ensures
        same == (models(a@) == models(b@)),
    decreases a,
{
    proof {
        lemma_models(a@);
        lemma_models(b@);
    }
    if a.len() != b.len() {
        return false;
    }
    let mut index: usize = 0;
    while index < a.len()
        invariant
            index <= a@.len(),
            a@.len() == b@.len(),
            models(a@).len() == a@.len(),
            models(b@).len() == b@.len(),
            forall|i: int| 0 <= i < a@.len() ==> #[trigger] models(a@)[i] == model(a@[i]),
            forall|i: int| 0 <= i < b@.len() ==> #[trigger] models(b@)[i] == model(b@[i]),
            forall|i: int| 0 <= i < index ==> #[trigger] models(a@)[i] == models(b@)[i],
        decreases a@.len() - index,
    {
        if !a[index].same_as(&b[index]) {
            assert(models(a@)[index as int] != models(b@)[index as int]);
            return false;
        }
        index = index + 1;
    }
    assert(models(a@) =~= models(b@));
    true
}

pub(crate) fn same_fields(a: &Vec<Field>, b: &Vec<Field>) -> (same: bool)
    ensures
        same == (field_models(a@) == field_models(b@)),
    decreases a,
{
    proof {
        lemma_field_models(a@);
        lemma_field_models(b@);
    }
    if a.len() != b.len() {
        return false;
    }
    let mut index: usize = 0;
    while index < a.len()
        invariant
            index <= a@.len(),
            a@.len() == b@.len(),
            field_models(a@).len() == a@.len(),
            field_models(b@).len() == b@.len(),
            forall|i: int| 0 <= i < a@.len() ==> #[trigger] field_models(a@)[i] == (a@[i].id, model(a@[i].value)),
            forall|i: int| 0 <= i < b@.len() ==> #[trigger] field_models(b@)[i] == (b@[i].id, model(b@[i].value)),
            forall|i: int| 0 <= i < index ==> #[trigger] field_models(a@)[i] == field_models(b@)[i],
        decreases a@.len() - index,
    {
        if a[index].id != b[index].id || !a[index].value.same_as(&b[index].value) {
            assert(field_models(a@)[index as int] != field_models(b@)[index as int]);
            return false;
        }
        index = index + 1;
    }
    assert(field_models(a@) =~= field_models(b@));
    true
}

pub(crate) fn same_entries(a: &Vec<MapEntry>, b: &Vec<MapEntry>) -> (same: bool)
    ensures
        same == (entry_models(a@) == entry_models(b@)),
    decreases a,
{
    proof {
        lemma_entry_models(a@);
        lemma_entry_models(b@);
    }
    if a.len() != b.len() {
        return false;
    }
    let mut index: usize = 0;
    while index < a.len()
        invariant
            index <= a@.len(),
            a@.len() == b@.len(),
            entry_models(a@).len() == a@.len(),
            entry_models(b@).len() == b@.len(),
            forall|i: int| 0 <= i < a@.len() ==> #[trigger] entry_models(a@)[i] == (
                model(a@[i].key),
                model(a@[i].value),
            ),
            forall|i: int| 0 <= i < b@.len() ==> #[trigger] entry_models(b@)[i] == (
                model(b@[i].key),
                model(b@[i].value),
            ),
            forall|i: int| 0 <= i < index ==> #[trigger] entry_models(a@)[i] == entry_models(b@)[i],
        decreases a@.len() - index,
    {
        if !a[index].key.same_as(&b[index].key) || !a[index].value.same_as(&b[index].value) {
            assert(entry_models(a@)[index as int] != entry_models(b@)[index as int]);
            return false;
        }
        index = index + 1;
    }
    assert(entry_models(a@) =~= entry_models(b@));
    true
}

impl Clone for Value {
    fn clone(&self) -> (copy: Self)
        ensures
            copy@ == self@,
    {
        self.duplicate()
    }
}

impl Field {
    /// A field with an identifier and a value.
    pub fn new(id: u16, value: Value) -> (field: Self)
        ensures
            field.id == id,
            field.value@ == value@,
    {
        Field { id, value }
    }

    /// The field identifier.
    pub fn id(&self) -> (id: u16)
        ensures
            id == self.id,
    {
        self.id
    }

    /// The field value.
    pub fn value(&self) -> (value: &Value)
        ensures
            value@ == self.value@,
    {
        &self.value
    }

    /// A deep copy of the field.
    pub fn duplicate(&self) -> (copy: Field)
        ensures
            copy.id == self.id,
            copy.value@ == self.value@,
    {
        Field { id: self.id, value: self.value.duplicate() }
    }
}

impl Clone for Field {
    fn clone(&self) -> (copy: Self)
        ensures
            copy.id == self.id,
            copy.value@ == self.value@,
    {
        self.duplicate()
    }
}

impl MapEntry {
    /// An entry with a key and a value.
    pub fn new(key: Value, value: Value) -> (entry: Self)
        ensures
            entry.key@ == key@,
            entry.value@ == value@,
    {
        MapEntry { key, value }
    }

    /// The semantic key.
    pub fn key(&self) -> (key: &Value)
        ensures
            key@ == self.key@,
    {
        &self.key
    }

    /// The mapped value.
    pub fn value(&self) -> (value: &Value)
        ensures
            value@ == self.value@,
    {
        &self.value
    }

    /// The canonical bytes of the key, by which entries are ordered and found.
    pub fn encoded_key(&self) -> (bytes: Vec<u8>)
        ensures
            bytes@ == encoding(self.key@),
    {
        self.key.canonical_bytes()
    }

    /// A deep copy of the entry.
    pub fn duplicate(&self) -> (copy: MapEntry)
        ensures
            copy.key@ == self.key@,
            copy.value@ == self.value@,
    {
        MapEntry { key: self.key.duplicate(), value: self.value.duplicate() }
    }
}

impl Clone for MapEntry {
    fn clone(&self) -> (copy: Self)
        ensures
            copy.key@ == self.key@,
            copy.value@ == self.value@,
    {
        self.duplicate()
    }
}

pub(crate) fn duplicate_values(values: &Vec<Value>) -> (copy: Vec<Value>)
    ensures
        models(copy@) == models(values@),
        copy@.len() == values@.len(),
    decreases values,
{
    let mut copy: Vec<Value> = Vec::new();
    let mut index: usize = 0;
    while index < values.len()
        invariant
            index <= values@.len(),
            models(copy@) == models(values@.take(index as int)),
            copy@.len() == index,
        decreases values@.len() - index,
    {
        let ghost before = copy@;
        copy.push(values[index].duplicate());
        proof {
            assert(copy@.drop_last() =~= before);
            assert(values@.take(index + 1).drop_last() =~= values@.take(index as int));
        }
        index = index + 1;
        assert(models(copy@) =~= models(values@.take(index as int)));
    }
    assert(values@.take(values@.len() as int) =~= values@);
    copy
}

pub(crate) fn duplicate_fields(fields: &Vec<Field>) -> (copy: Vec<Field>)
    ensures
        field_models(copy@) == field_models(fields@),
        copy@.len() == fields@.len(),
    decreases fields,
{
    let mut copy: Vec<Field> = Vec::new();
    let mut index: usize = 0;
    while index < fields.len()
        invariant
            index <= fields@.len(),
            field_models(copy@) == field_models(fields@.take(index as int)),
            copy@.len() == index,
        decreases fields@.len() - index,
    {
        let ghost before = copy@;
        copy.push(Field { id: fields[index].id, value: fields[index].value.duplicate() });
        proof {
            assert(copy@.drop_last() =~= before);
            assert(fields@.take(index + 1).drop_last() =~= fields@.take(index as int));
        }
        index = index + 1;
        assert(field_models(copy@) =~= field_models(fields@.take(index as int)));
    }
    assert(fields@.take(fields@.len() as int) =~= fields@);
    copy
}

pub(crate) fn duplicate_entries(entries: &Vec<MapEntry>) -> (copy: Vec<MapEntry>)
    ensures
        entry_models(copy@) == entry_models(entries@),
        copy@.len() == entries@.len(),
    decreases entries,
{
    let mut copy: Vec<MapEntry> = Vec::new();
    let mut index: usize = 0;
    while index < entries.len()
        invariant
            index <= entries@.len(),
            entry_models(copy@) == entry_models(entries@.take(index as int)),
            copy@.len() == index,
        decreases entries@.len() - index,
    {
        let ghost before = copy@;
        copy.push(MapEntry { key: entries[index].key.duplicate(), value: entries[index].value.duplicate() });
        proof {
            assert(copy@.drop_last() =~= before);
            assert(entries@.take(index + 1).drop_last() =~= entries@.take(index as int));
        }
        index = index + 1;
        assert(entry_models(copy@) =~= entry_models(entries@.take(index as int)));
    }
    assert(entries@.take(entries@.len() as int) =~= entries@);
    copy
}


/// Strict lexicographic order on byte strings: at the first position where
/// they differ the first is smaller, or the first is a proper prefix.
pub open spec fn bytes_lt(a: Seq<u8>, b: Seq<u8>) -> bool {
    exists|k: int|
        0 <= k <= a.len() && k <= b.len() && #[trigger] a.take(k) == b.take(k) && ((k == a.len() && k
            < b.len()) || (k < a.len() && k < b.len() && a[k] < b[k]))
}

/// Returns whether `a` precedes `b` in strict lexicographic order.
pub fn bytes_less(a: &[u8], b: &[u8]) -> (less: bool)
    ensures
        less == bytes_lt(a@, b@),
{
    let mut k: usize = 0;
    while k < a.len() && k < b.len() && a[k] == b[k]
        invariant
            k <= a@.len(),
            k <= b@.len(),
            forall|i: int| 0 <= i < k ==> a@[i] == b@[i],
        decreases a@.len() - k,
    {
        k = k + 1;
    }
    assert(a@.take(k as int) =~= b@.take(k as int));
    let less = if k < a.len() && k < b.len() {
        a[k] < b[k]
    } else {
        k == a.len() && k < b.len()
    };
    proof {
        if !less {
            assert forall|j: int|
                0 <= j <= a@.len() && j <= b@.len() && #[trigger] a@.take(j) == b@.take(j) implies !((j
                    == a@.len() && j < b@.len()) || (j < a@.len() && j < b@.len() && a@[j] < b@[j])) by {
                if j > k {
                    assert(a@.take(j)[k as int] == b@.take(j)[k as int]);
                }
            }
        }
    }
    less
}

/// Record fields are in strictly increasing identifier order.
pub open spec fn fields_ordered(fields: Seq<(u16, ValueModel)>) -> bool {
    forall|i: int, j: int| 0 <= i < j < fields.len() ==> fields[i].0 < fields[j].0
}

/// Map entries are in strictly increasing encoded-key order.
pub open spec fn entries_ordered(entries: Seq<(ValueModel, ValueModel)>) -> bool {
    forall|i: int| 0 <= i < entries.len() - 1 ==> bytes_lt(encoding(#[trigger] entries[i].0), encoding(entries[i + 1].0))
}

impl Value {
    /// A record from fields in strictly increasing identifier order.
    pub fn record_canonical(fields: Vec<Field>) -> (record: Result<Value, ValueError>)
        ensures
            record is Ok <==> fields_ordered(field_models(fields@)),
            record matches Ok(v) ==> v@ == ValueModel::Record(field_models(fields@)),
            record matches Err(e) ==> e == ValueError::UnorderedRecordFields,
    {
        proof {
            lemma_field_models(fields@);
        }
        let mut index: usize = 1;
        while index < fields.len()
            invariant
                1 <= index,
                fields@.len() == 0 || index <= fields@.len(),
                forall|i: int, j: int| 0 <= i < j < index && j < fields@.len() ==> fields@[i].id < fields@[j].id,
            decreases fields@.len() - index,
        {
            if fields[index - 1].id >= fields[index].id {
                proof {
                    lemma_field_models(fields@);
                    assert(field_models(fields@)[index - 1].0 == fields@[index - 1].id);
                    assert(field_models(fields@)[index as int].0 == fields@[index as int].id);
                }
                return Err(ValueError::UnorderedRecordFields);
            }
            index = index + 1;
        }
        Ok(Value::Record(fields))
    }

    /// A map from entries in strictly increasing encoded-key order.
    pub fn map_canonical(entries: Vec<MapEntry>) -> (map: Result<Value, ValueError>)
        ensures
            map is Ok <==> entries_ordered(entry_models(entries@)),
            map matches Ok(v) ==> v@ == ValueModel::Mapping(entry_models(entries@)),
            map matches Err(e) ==> e == ValueError::UnorderedMapKeys,
    {
        proof {
            lemma_entry_models(entries@);
        }
        let ghost modeled = entry_models(entries@);
        let mut index: usize = 1;
        while index < entries.len()
            invariant
                1 <= index,
                modeled == entry_models(entries@),
                modeled.len() == entries@.len(),
                forall|i: int| 0 <= i < entries@.len() ==> modeled[i] == (
                    model(entries@[i].key),
                    model(entries@[i].value),
                ),
                forall|i: int| 0 <= i < index - 1 && i < modeled.len() - 1 ==> bytes_lt(
                    encoding(#[trigger] modeled[i].0),
                    encoding(modeled[i + 1].0),
                ),
            decreases entries@.len() - index,
        {
            let previous = entries[index - 1].encoded_key();
            let current = entries[index].encoded_key();
            if !bytes_less(previous.as_slice(), current.as_slice()) {
                proof {
                    assert(modeled[index - 1].0 == model(entries@[index - 1].key));
                }
                return Err(ValueError::UnorderedMapKeys);
            }
            index = index + 1;
        }
        Ok(Value::Mapping(entries))
    }
}

} // verus!

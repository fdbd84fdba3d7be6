//! Runtime validation of owned values against closed schemas.

use vstd::prelude::*;

use crate::schema::definition::{type_with_id, Schema};
use crate::schema::error::ValueValidationError;
use crate::schema::ids::{TypeId, VariantId};
use crate::schema::model::{FieldDef, SumVariantDef, TypeDef, TypeKind};
use crate::sort::{find_key, has_key, strictly_sorted_by_key, Keyed};
use crate::value::{
    field_models, lemma_entry_models, lemma_field_models, lemma_models, entry_models, models,
    text_length, Field, MapEntry, Value, ValueModel,
};

verus! {

/// Deterministic resource limits for one schema/value validation.
#[derive(Clone, Copy, Debug, PartialEq, Eq, Structural)]
pub struct ValidationLimits {
    /// Maximum recursive value depth, with the root at depth zero.
    pub max_depth: u16,
    /// Maximum visited value nodes.
    pub max_nodes: u64,
}

impl Default for ValidationLimits {
    fn default() -> (limits: Self)
        ensures
            limits.max_depth == 128,
            limits.max_nodes == 1_000_000,
    {
        ValidationLimits { max_depth: 128, max_nodes: 1_000_000 }
    }
}

/// Deterministic resources consumed by successful validation.
#[derive(Clone, Copy, Debug, PartialEq, Eq, Structural)]
pub struct ValidationReport {
    /// Number of visited values.
    pub nodes: u64,
    /// Maximum observed depth.
    pub maximum_depth: u16,
}

/// Visiting one node at a depth: the budget state after it, or why it is exhausted.
pub open spec fn entered(limits: ValidationLimits, depth: u16, state: (u64, u16)) -> Result<(u64, u16), ValueValidationError> {
    if depth > limits.max_depth {
        Err(ValueValidationError::BudgetExceeded)
    } else if state.0 + 1 > limits.max_nodes {
        Err(ValueValidationError::BudgetExceeded)
    } else {
        Ok(((state.0 + 1) as u64, if state.1 >= depth { state.1 } else { depth }))
    }
}

/// A length fits 32 bits and lies in an inclusive range.
pub open spec fn length_fits(length: nat, minimum: u32, maximum: u32) -> bool {
    length <= u32::MAX && minimum <= length <= maximum
}

/// The declared variant with an identifier (meaningful when one exists).
pub open spec fn sum_variant_with_id(variants: Seq<SumVariantDef>, id: u16) -> SumVariantDef {
    variants[choose|i: int| 0 <= i < variants.len() && variants[i].spec_key() == id as int]
}

/// Validation of one value against a schema type, threading the budget
/// state through the visited nodes in order.
pub open spec fn check_node(
    types: Seq<TypeDef>,
    limits: ValidationLimits,
    type_id: TypeId,
    value: ValueModel,
    depth: u16,
    state: (u64, u16),
) -> Result<(u64, u16), ValueValidationError>
    decreases value, 1nat,
{
    match entered(limits, depth, state) {
        Err(error) => Err(error),
        Ok(state) => if !has_key(types, type_id.spec_get() as int) {
            Err(ValueValidationError::UnknownType(type_id))
        } else {
            kind_check(types, limits, type_with_id(types, type_id), value, depth, state)
        },
    }
}

/// Validation of a value against one type definition, after its node was entered.
pub open spec fn kind_check(
    types: Seq<TypeDef>,
    limits: ValidationLimits,
    definition: TypeDef,
    value: ValueModel,
    depth: u16,
    state: (u64, u16),
) -> Result<(u64, u16), ValueValidationError>
    decreases value, 0nat,
{
            let child_depth = depth + 1;
            match (definition.spec_kind(), value) {
                (TypeKind::Unit, ValueModel::Unit) => Ok(state),
                (TypeKind::Bool, ValueModel::Bool(_)) => Ok(state),
                (TypeKind::U128 { min, max }, ValueModel::U128(x)) => if min <= x && x <= max {
                    Ok(state)
                } else {
                    Err(ValueValidationError::IntegerRange)
                },
                (TypeKind::I128 { min, max }, ValueModel::I128(x)) => if min <= x && x <= max {
                    Ok(state)
                } else {
                    Err(ValueValidationError::IntegerRange)
                },
                (TypeKind::Bytes { min_len, max_len }, ValueModel::Bytes(bytes)) => if length_fits(
                    bytes.len(),
                    min_len,
                    max_len,
                ) {
                    Ok(state)
                } else {
                    Err(ValueValidationError::Length)
                },
                (TypeKind::Text { min_len, max_len }, ValueModel::Text(chars)) => if length_fits(
                    text_length(chars),
                    min_len,
                    max_len,
                ) {
                    Ok(state)
                } else {
                    Err(ValueValidationError::Length)
                },
                (TypeKind::Enum { variants }, ValueModel::Enum { type_id: declared, variant }) => if declared
                    != definition.spec_id().spec_get() {
                    Err(ValueValidationError::TypeIdentity)
                } else if !has_key(variants@, variant as int) {
                    Err(ValueValidationError::UnknownVariant(VariantId::spec_new(variant)))
                } else {
                    Ok(state)
                },
                (TypeKind::Tuple { items: item_types }, ValueModel::Tuple(items)) => if item_types@.len()
                    != items.len() {
                    Err(ValueValidationError::Length)
                } else if child_depth > u16::MAX {
                    Err(ValueValidationError::BudgetExceeded)
                } else {
                    check_items(types, limits, item_types@, items, child_depth as u16, state)
                },
                (TypeKind::Record { fields: definitions }, ValueModel::Record(fields)) => if definitions@.len()
                    != fields.len() {
                    Err(ValueValidationError::RecordShape)
                } else if child_depth > u16::MAX {
                    Err(ValueValidationError::BudgetExceeded)
                } else {
                    check_fields(types, limits, definitions@, fields, child_depth as u16, state)
                },
                (
                    TypeKind::Sum { variants },
                    ValueModel::Sum { type_id: declared, variant, payload },
                ) => if declared != definition.spec_id().spec_get() {
                    Err(ValueValidationError::TypeIdentity)
                } else if !has_key(variants@, variant as int) {
                    Err(ValueValidationError::UnknownVariant(VariantId::spec_new(variant)))
                } else {
                    match (sum_variant_with_id(variants@, variant).spec_payload(), payload) {
                        (None, None) => Ok(state),
                        (None, Some(_)) => Err(ValueValidationError::UnexpectedPayload),
                        (Some(_), None) => Err(ValueValidationError::MissingPayload),
                        (Some(payload_type), Some(child)) => if child_depth > u16::MAX {
                            Err(ValueValidationError::BudgetExceeded)
                        } else {
                            check_node(types, limits, payload_type, *child, child_depth as u16, state)
                        },
                    }
                },
                (TypeKind::Vector { element, min_len, max_len }, ValueModel::Vector(items)) => if !length_fits(
                    items.len(),
                    min_len,
                    max_len,
                ) {
                    Err(ValueValidationError::Length)
                } else if child_depth > u16::MAX {
                    Err(ValueValidationError::BudgetExceeded)
                } else {
                    check_elements(types, limits, element, items, child_depth as u16, state)
                },
                (
                    TypeKind::Mapping { key, value: value_type, min_len, max_len },
                    ValueModel::Mapping(entries),
                ) => if !length_fits(entries.len(), min_len, max_len) {
                    Err(ValueValidationError::Length)
                } else if child_depth > u16::MAX {
                    Err(ValueValidationError::BudgetExceeded)
                } else {
                    check_entries(types, limits, key, value_type, entries, child_depth as u16, state)
                },
                _ => Err(ValueValidationError::TypeMismatch),
            }
}


/// Tuple items against their declared types, in order.
pub open spec fn check_items(
    types: Seq<TypeDef>,
    limits: ValidationLimits,
    item_types: Seq<TypeId>,
    items: Seq<ValueModel>,
    depth: u16,
    state: (u64, u16),
) -> Result<(u64, u16), ValueValidationError>
    decreases items, 0nat,
{
    if items.len() == 0 {
        Ok(state)
    } else {
        match check_items(types, limits, item_types, items.drop_last(), depth, state) {
            Err(error) => Err(error),
            Ok(state) => check_node(types, limits, item_types[items.len() - 1], items.last(), depth, state),
        }
    }
}

/// Vector elements against one element type, in order.
pub open spec fn check_elements(
    types: Seq<TypeDef>,
    limits: ValidationLimits,
    element: TypeId,
    items: Seq<ValueModel>,
    depth: u16,
    state: (u64, u16),
) -> Result<(u64, u16), ValueValidationError>
    decreases items, 0nat,
{
    if items.len() == 0 {
        Ok(state)
    } else {
        match check_elements(types, limits, element, items.drop_last(), depth, state) {
            Err(error) => Err(error),
            Ok(state) => check_node(types, limits, element, items.last(), depth, state),
        }
    }
}

/// Record fields against their declared fields, position by position.
pub open spec fn check_fields(
    types: Seq<TypeDef>,
    limits: ValidationLimits,
    definitions: Seq<FieldDef>,
    fields: Seq<(u16, ValueModel)>,
    depth: u16,
    state: (u64, u16),
) -> Result<(u64, u16), ValueValidationError>
    decreases fields, 0nat,
{
    if fields.len() == 0 {
        Ok(state)
    } else {
        match check_fields(types, limits, definitions, fields.drop_last(), depth, state) {
            Err(error) => Err(error),
            Ok(state) => {
                let definition = definitions[fields.len() - 1];
                if definition.spec_id().spec_get() != fields.last().0 {
                    Err(ValueValidationError::RecordShape)
                } else {
                    check_node(types, limits, definition.spec_type_id(), fields.last().1, depth, state)
                }
            },
        }
    }
}

/// Map entries against the key and value types: each key, then its value.
pub open spec fn check_entries(
    types: Seq<TypeDef>,
    limits: ValidationLimits,
    key: TypeId,
    value_type: TypeId,
    entries: Seq<(ValueModel, ValueModel)>,
    depth: u16,
    state: (u64, u16),
) -> Result<(u64, u16), ValueValidationError>
    decreases entries, 0nat,
{
    if entries.len() == 0 {
        Ok(state)
    } else {
        match check_entries(types, limits, key, value_type, entries.drop_last(), depth, state) {
            Err(error) => Err(error),
            Ok(state) => match check_node(types, limits, key, entries.last().0, depth, state) {
                Err(error) => Err(error),
                Ok(state) => check_node(types, limits, value_type, entries.last().1, depth, state),
            },
        }
    }
}


fn enter(limits: ValidationLimits, depth: u16, state: (u64, u16)) -> (next: Result<(u64, u16), ValueValidationError>)
    ensures
        next == entered(limits, depth, state),
{
    if depth > limits.max_depth {
        return Err(ValueValidationError::BudgetExceeded);
    }
    if state.0 >= limits.max_nodes {
        return Err(ValueValidationError::BudgetExceeded);
    }
    let deepest = if state.1 >= depth {
        state.1
    } else {
        depth
    };
    Ok((state.0 + 1, deepest))
}

fn length_in(length: usize, minimum: u32, maximum: u32) -> (fits: bool)
    ensures
        fits == length_fits(length as nat, minimum, maximum),
{
    length <= 0xffff_ffffusize && minimum as usize <= length && length <= maximum as usize
}

proof fn lemma_check_items_failure(
    types: Seq<TypeDef>,
    limits: ValidationLimits,
    item_types: Seq<TypeId>,
    items: Seq<ValueModel>,
    depth: u16,
    state: (u64, u16),
    count: int,
)
    requires
        0 < count <= items.len(),
        check_items(types, limits, item_types, items.take(count), depth, state) is Err,
    ensures
        check_items(types, limits, item_types, items, depth, state) == check_items(types, limits, item_types, items.take(count), depth, state),
    decreases items.len() - count,
{
    if count < items.len() {
        assert(items.take(count + 1).drop_last() =~= items.take(count));
        lemma_check_items_failure(types, limits, item_types, items, depth, state, count + 1);
    } else {
        assert(items.take(count) =~= items);
    }
}

proof fn lemma_check_elements_failure(
    types: Seq<TypeDef>,
    limits: ValidationLimits,
    element: TypeId,
    items: Seq<ValueModel>,
    depth: u16,
    state: (u64, u16),
    count: int,
)
    requires
        0 < count <= items.len(),
        check_elements(types, limits, element, items.take(count), depth, state) is Err,
    ensures
        check_elements(types, limits, element, items, depth, state) == check_elements(types, limits, element, items.take(count), depth, state),
    decreases items.len() - count,
{
    if count < items.len() {
        assert(items.take(count + 1).drop_last() =~= items.take(count));
        lemma_check_elements_failure(types, limits, element, items, depth, state, count + 1);
    } else {
        assert(items.take(count) =~= items);
    }
}

proof fn lemma_check_fields_failure(
    types: Seq<TypeDef>,
    limits: ValidationLimits,
    definitions: Seq<FieldDef>,
    fields: Seq<(u16, ValueModel)>,
    depth: u16,
    state: (u64, u16),
    count: int,
)
    requires
        0 < count <= fields.len(),
        check_fields(types, limits, definitions, fields.take(count), depth, state) is Err,
    ensures
        check_fields(types, limits, definitions, fields, depth, state) == check_fields(types, limits, definitions, fields.take(count), depth, state),
    decreases fields.len() - count,
{
    if count < fields.len() {
        assert(fields.take(count + 1).drop_last() =~= fields.take(count));
        lemma_check_fields_failure(types, limits, definitions, fields, depth, state, count + 1);
    } else {
        assert(fields.take(count) =~= fields);
    }
}

proof fn lemma_check_entries_failure(
    types: Seq<TypeDef>,
    limits: ValidationLimits,
    key: TypeId,
    value_type: TypeId,
    entries: Seq<(ValueModel, ValueModel)>,
    depth: u16,
    state: (u64, u16),
    count: int,
)
    requires
        0 < count <= entries.len(),
        check_entries(types, limits, key, value_type, entries.take(count), depth, state) is Err,
    ensures
        check_entries(types, limits, key, value_type, entries, depth, state) == check_entries(types, limits, key, value_type, entries.take(count), depth, state),
    decreases entries.len() - count,
{
    if count < entries.len() {
        assert(entries.take(count + 1).drop_last() =~= entries.take(count));
        lemma_check_entries_failure(types, limits, key, value_type, entries, depth, state, count + 1);
    } else {
        assert(entries.take(count) =~= entries);
    }
}

fn validate_items(
    schema: &Schema,
    limits: ValidationLimits,
    item_types: &Vec<TypeId>,
    items: &Vec<Value>,
    depth: u16,
    state: (u64, u16),
) -> (result: Result<(u64, u16), ValueValidationError>)
    requires
        item_types@.len() == items@.len(),
    ensures
        result == check_items(schema.spec_types(), limits, item_types@, models(items@), depth, state),
    decreases items, 0nat,
{
    let ghost modeled = models(items@);
    proof {
        lemma_models(items@);
    }
    let mut current = state;
    let mut index: usize = 0;
    assert(modeled.take(0) =~= Seq::<ValueModel>::empty());
    while index < items.len()
        invariant
            index <= items@.len(),
            item_types@.len() == items@.len(),
            modeled == models(items@),
            modeled.len() == items@.len(),
            forall|i: int| 0 <= i < items@.len() ==> #[trigger] modeled[i] == items@[i]@,
            check_items(schema.spec_types(), limits, item_types@, modeled.take(index as int), depth, state)
                == Ok::<(u64, u16), ValueValidationError>(current),
        decreases items@.len() - index,
    {
        let next = validate_node(schema, limits, item_types[index], &items[index], depth, current);
        proof {
            let prefix = modeled.take(index + 1);
            assert(prefix.drop_last() =~= modeled.take(index as int));
            assert(prefix.last() == items@[index as int]@);
        }
        match next {
            Ok(state) => current = state,
            Err(error) => {
                proof {
                    lemma_check_items_failure(schema.spec_types(), limits, item_types@, modeled, depth, state, index + 1);
                }
                return Err(error);
            },
        }
        index = index + 1;
    }
    assert(modeled.take(modeled.len() as int) =~= modeled);
    Ok(current)
}

fn validate_elements(
    schema: &Schema,
    limits: ValidationLimits,
    element: TypeId,
    items: &Vec<Value>,
    depth: u16,
    state: (u64, u16),
) -> (result: Result<(u64, u16), ValueValidationError>)
    ensures
        result == check_elements(schema.spec_types(), limits, element, models(items@), depth, state),
    decreases items, 0nat,
{
    let ghost modeled = models(items@);
    proof {
        lemma_models(items@);
    }
    let mut current = state;
    let mut index: usize = 0;
    assert(modeled.take(0) =~= Seq::<ValueModel>::empty());
    while index < items.len()
        invariant
            index <= items@.len(),
            modeled == models(items@),
            modeled.len() == items@.len(),
            forall|i: int| 0 <= i < items@.len() ==> #[trigger] modeled[i] == items@[i]@,
            check_elements(schema.spec_types(), limits, element, modeled.take(index as int), depth, state)
                == Ok::<(u64, u16), ValueValidationError>(current),
        decreases items@.len() - index,
    {
        let next = validate_node(schema, limits, element, &items[index], depth, current);
        proof {
            let prefix = modeled.take(index + 1);
            assert(prefix.drop_last() =~= modeled.take(index as int));
            assert(prefix.last() == items@[index as int]@);
        }
        match next {
            Ok(state) => current = state,
            Err(error) => {
                proof {
                    lemma_check_elements_failure(schema.spec_types(), limits, element, modeled, depth, state, index + 1);
                }
                return Err(error);
            },
        }
        index = index + 1;
    }
    assert(modeled.take(modeled.len() as int) =~= modeled);
    Ok(current)
}

fn validate_fields(
    schema: &Schema,
    limits: ValidationLimits,
    definitions: &Vec<FieldDef>,
    fields: &Vec<Field>,
    depth: u16,
    state: (u64, u16),
) -> (result: Result<(u64, u16), ValueValidationError>)
    requires
        definitions@.len() == fields@.len(),
    ensures
        result == check_fields(schema.spec_types(), limits, definitions@, field_models(fields@), depth, state),
    decreases fields, 0nat,
{
    let ghost modeled = field_models(fields@);
    proof {
        lemma_field_models(fields@);
    }
    let mut current = state;
    let mut index: usize = 0;
    assert(modeled.take(0) =~= Seq::<(u16, ValueModel)>::empty());
    while index < fields.len()
        invariant
            index <= fields@.len(),
            definitions@.len() == fields@.len(),
            modeled == field_models(fields@),
            modeled.len() == fields@.len(),
            forall|i: int| 0 <= i < fields@.len() ==> #[trigger] modeled[i] == (fields@[i].id, fields@[i].value@),
            check_fields(schema.spec_types(), limits, definitions@, modeled.take(index as int), depth, state)
                == Ok::<(u64, u16), ValueValidationError>(current),
        decreases fields@.len() - index,
    {
        proof {
            let prefix = modeled.take(index + 1);
            assert(prefix.drop_last() =~= modeled.take(index as int));
            assert(prefix.last() == (fields@[index as int].id, fields@[index as int].value@));
        }
        let definition = &definitions[index];
        if definition.id().get() != fields[index].id {
            proof {
                lemma_check_fields_failure(schema.spec_types(), limits, definitions@, modeled, depth, state, index + 1);
            }
            return Err(ValueValidationError::RecordShape);
        }
        let next = validate_node(schema, limits, definition.type_id(), &fields[index].value, depth, current);
        match next {
            Ok(state) => current = state,
            Err(error) => {
                proof {
                    lemma_check_fields_failure(schema.spec_types(), limits, definitions@, modeled, depth, state, index + 1);
                }
                return Err(error);
            },
        }
        index = index + 1;
    }
    assert(modeled.take(modeled.len() as int) =~= modeled);
    Ok(current)
}

fn validate_entries(
    schema: &Schema,
    limits: ValidationLimits,
    key: TypeId,
    value_type: TypeId,
    entries: &Vec<MapEntry>,
    depth: u16,
    state: (u64, u16),
) -> (result: Result<(u64, u16), ValueValidationError>)
    ensures
        result == check_entries(schema.spec_types(), limits, key, value_type, entry_models(entries@), depth, state),
    decreases entries, 0nat,
{
    let ghost modeled = entry_models(entries@);
    proof {
        lemma_entry_models(entries@);
    }
    let mut current = state;
    let mut index: usize = 0;
    assert(modeled.take(0) =~= Seq::<(ValueModel, ValueModel)>::empty());
    while index < entries.len()
        invariant
            index <= entries@.len(),
            modeled == entry_models(entries@),
            modeled.len() == entries@.len(),
            forall|i: int| 0 <= i < entries@.len() ==> #[trigger] modeled[i] == (entries@[i].key@, entries@[i].value@),
            check_entries(schema.spec_types(), limits, key, value_type, modeled.take(index as int), depth, state)
                == Ok::<(u64, u16), ValueValidationError>(current),
        decreases entries@.len() - index,
    {
        proof {
            let prefix = modeled.take(index + 1);
            assert(prefix.drop_last() =~= modeled.take(index as int));
            assert(prefix.last() == (entries@[index as int].key@, entries@[index as int].value@));
        }
        let after_key = validate_node(schema, limits, key, &entries[index].key, depth, current);
        let next = match after_key {
            Ok(state) => validate_node(schema, limits, value_type, &entries[index].value, depth, state),
            Err(error) => Err(error),
        };
        match next {
            Ok(state) => current = state,
            Err(error) => {
                proof {
                    lemma_check_entries_failure(schema.spec_types(), limits, key, value_type, modeled, depth, state, index + 1);
                }
                return Err(error);
            },
        }
        index = index + 1;
    }
    assert(modeled.take(modeled.len() as int) =~= modeled);
    Ok(current)
}

fn validate_node(
    schema: &Schema,
    limits: ValidationLimits,
    type_id: TypeId,
    value: &Value,
    depth: u16,
    state: (u64, u16),
) -> (result: Result<(u64, u16), ValueValidationError>)
    ensures
        result == check_node(schema.spec_types(), limits, type_id, value@, depth, state),
    decreases value, 1nat,
{
    let state = match enter(limits, depth, state) {
        Ok(state) => state,
        Err(error) => return Err(error),
    };
    let definition = match schema.type_by_id(type_id) {
        Some(definition) => definition,
        None => return Err(ValueValidationError::UnknownType(type_id)),
    };
    validate_kind(schema, limits, definition, value, depth, state)
}

fn find_sum_variant(variants: &Vec<SumVariantDef>, variant: u16) -> (found: Option<&SumVariantDef>)
    requires
        strictly_sorted_by_key(variants@),
    ensures
        found is Some <==> has_key(variants@, variant as int),
        found matches Some(v) ==> *v == sum_variant_with_id(variants@, variant),
{
    match find_key(variants, variant as u64) {
        Some(index) => {
            proof {
                let key = variant as int;
                let j = choose|i: int| 0 <= i < variants@.len() && variants@[i].spec_key() == key;
                if j < index as int {
                    assert(variants@[j].spec_key() < variants@[index as int].spec_key());
                } else if j > index as int {
                    assert(variants@[index as int].spec_key() < variants@[j].spec_key());
                }
            }
            Some(&variants[index])
        },
        None => None,
    }
}

fn validate_kind(
    schema: &Schema,
    limits: ValidationLimits,
    definition: &TypeDef,
    value: &Value,
    depth: u16,
    state: (u64, u16),
) -> (result: Result<(u64, u16), ValueValidationError>)
    ensures
        result == kind_check(schema.spec_types(), limits, *definition, value@, depth, state),
    decreases value, 0nat,
{
    let next_depth = depth as u32 + 1;
    let kind = definition.kind();
    match (kind, value) {
        (TypeKind::Unit, Value::Unit) => Ok(state),
        (TypeKind::Bool, Value::Bool(_)) => Ok(state),
        (TypeKind::U128 { min, max }, Value::U128(x)) => if *min <= *x && *x <= *max {
            Ok(state)
        } else {
            Err(ValueValidationError::IntegerRange)
        },
        (TypeKind::I128 { min, max }, Value::I128(x)) => if *min <= *x && *x <= *max {
            Ok(state)
        } else {
            Err(ValueValidationError::IntegerRange)
        },
        (TypeKind::Bytes { min_len, max_len }, Value::Bytes(bytes)) => if length_in(bytes.len(), *min_len, *max_len) {
            Ok(state)
        } else {
            Err(ValueValidationError::Length)
        },
        (TypeKind::Text { min_len, max_len }, Value::Text(text)) => {
            let bytes = text.as_str().as_bytes();
            if length_in(bytes.len(), *min_len, *max_len) {
                Ok(state)
            } else {
                Err(ValueValidationError::Length)
            }
        },
        (TypeKind::Enum { variants }, Value::Enum { type_id: declared, variant }) => {
            if *declared != definition.id().get() {
                return Err(ValueValidationError::TypeIdentity);
            }
            match find_key(variants, *variant as u64) {
                Some(_) => Ok(state),
                None => Err(ValueValidationError::UnknownVariant(VariantId::new(*variant))),
            }
        },
        (TypeKind::Tuple { items: item_types }, Value::Tuple(items)) => {
            proof {
                lemma_models(items@);
            }
            if item_types.len() != items.len() {
                return Err(ValueValidationError::Length);
            }
            if next_depth > 0xffff {
                return Err(ValueValidationError::BudgetExceeded);
            }
            validate_items(schema, limits, item_types, items, next_depth as u16, state)
        },
        (TypeKind::Record { fields: definitions }, Value::Record(fields)) => {
            proof {
                lemma_field_models(fields@);
            }
            if definitions.len() != fields.len() {
                return Err(ValueValidationError::RecordShape);
            }
            if next_depth > 0xffff {
                return Err(ValueValidationError::BudgetExceeded);
            }
            validate_fields(schema, limits, definitions, fields, next_depth as u16, state)
        },
        (TypeKind::Sum { variants }, Value::Sum { type_id: declared, variant, payload }) => {
            if *declared != definition.id().get() {
                return Err(ValueValidationError::TypeIdentity);
            }
            let found = match find_sum_variant(variants, *variant) {
                Some(found) => found,
                None => return Err(ValueValidationError::UnknownVariant(VariantId::new(*variant))),
            };
            match (found.payload(), payload) {
                (None, None) => Ok(state),
                (None, Some(_)) => Err(ValueValidationError::UnexpectedPayload),
                (Some(_), None) => Err(ValueValidationError::MissingPayload),
                (Some(payload_type), Some(child)) => {
                    if next_depth > 0xffff {
                        return Err(ValueValidationError::BudgetExceeded);
                    }
                    validate_node(schema, limits, payload_type, child, next_depth as u16, state)
                },
            }
        },
        (TypeKind::Vector { element, min_len, max_len }, Value::Vector(items)) => {
            proof {
                lemma_models(items@);
            }
            if !length_in(items.len(), *min_len, *max_len) {
                return Err(ValueValidationError::Length);
            }
            if next_depth > 0xffff {
                return Err(ValueValidationError::BudgetExceeded);
            }
            validate_elements(schema, limits, *element, items, next_depth as u16, state)
        },
        (TypeKind::Mapping { key, value: value_type, min_len, max_len }, Value::Mapping(entries)) => {
            proof {
                lemma_entry_models(entries@);
            }
            if !length_in(entries.len(), *min_len, *max_len) {
                return Err(ValueValidationError::Length);
            }
            if next_depth > 0xffff {
                return Err(ValueValidationError::BudgetExceeded);
            }
            validate_entries(schema, limits, *key, *value_type, entries, next_depth as u16, state)
        },
        _ => Err(ValueValidationError::TypeMismatch),
    }
}

impl Schema {
    /// Validates an owned value against one schema type.
    pub fn validate_value(&self, type_id: TypeId, value: &Value, limits: ValidationLimits) -> (report: Result<ValidationReport, ValueValidationError>)
        ensures
            match check_node(self.spec_types(), limits, type_id, value@, 0, (0, 0)) {
                Ok(state) => report == Ok::<ValidationReport, ValueValidationError>(
                    ValidationReport { nodes: state.0, maximum_depth: state.1 },
                ),
                Err(error) => report == Err::<ValidationReport, ValueValidationError>(error),
            },
    {
        match validate_node(self, limits, type_id, value, 0, (0, 0)) {
            Ok(state) => Ok(ValidationReport { nodes: state.0, maximum_depth: state.1 }),
            Err(error) => Err(error),
        }
    }

    /// Validates an owned value against the declared root type.
    pub fn validate_root(&self, value: &Value, limits: ValidationLimits) -> (report: Result<ValidationReport, ValueValidationError>)
        ensures
            match check_node(self.spec_types(), limits, self.spec_root_type(), value@, 0, (0, 0)) {
                Ok(state) => report == Ok::<ValidationReport, ValueValidationError>(
                    ValidationReport { nodes: state.0, maximum_depth: state.1 },
                ),
                Err(error) => report == Err::<ValidationReport, ValueValidationError>(error),
            },
    {
        self.validate_value(self.root_type(), value, limits)
    }
}

} // verus!

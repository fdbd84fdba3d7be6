//! Schema construction and value-validation errors.

use vstd::prelude::*;

use crate::schema::ids::{FieldId, TypeId, VariantId};

verus! {

/// Closed-schema construction or encoding failure.
#[derive(Clone, Copy, Debug, PartialEq, Eq, Structural)]
pub enum SchemaError {
    /// A name was empty, too long, non-ASCII, or not an identifier.
    InvalidName,
    /// The schema contained no type definitions.
    EmptySchema,
    /// A configured schema-size limit was exceeded.
    LimitExceeded,
    /// Two types used the same stable numeric identifier.
    DuplicateTypeId(TypeId),
    /// Two types used the same stable name.
    DuplicateTypeName,
    /// Two fields in one record used the same identifier.
    DuplicateFieldId(FieldId),
    /// Two fields in one record used the same name.
    DuplicateFieldName,
    /// Two variants in one enum or sum used the same identifier.
    DuplicateVariantId(VariantId),
    /// Two variants in one enum or sum used the same name.
    DuplicateVariantName,
    /// A range had a lower bound greater than its upper bound.
    InvalidRange,
    /// The declared root type does not exist.
    UnknownRootType(TypeId),
    /// A type definition references an unknown type.
    UnknownTypeReference(TypeId),
    /// The closed schema contains a recursive type cycle.
    RecursiveTypeCycle(TypeId),
    /// Canonical schema encoding failed.
    Encoding,
}

impl SchemaError {
    /// Returns the human-readable description.
    pub fn message(&self) -> (text: &'static str)
        ensures
            text == (match *self {
                SchemaError::InvalidName => "invalid schema identifier",
                SchemaError::EmptySchema => "schema must define at least one type",
                SchemaError::LimitExceeded => "schema limit exceeded",
                SchemaError::DuplicateTypeId(_) => "duplicate type identifier",
                SchemaError::DuplicateTypeName => "duplicate type name",
                SchemaError::DuplicateFieldId(_) => "duplicate field identifier",
                SchemaError::DuplicateFieldName => "duplicate field name",
                SchemaError::DuplicateVariantId(_) => "duplicate variant identifier",
                SchemaError::DuplicateVariantName => "duplicate variant name",
                SchemaError::InvalidRange => "invalid schema range",
                SchemaError::UnknownRootType(_) => "unknown root type",
                SchemaError::UnknownTypeReference(_) => "unknown referenced type",
                SchemaError::RecursiveTypeCycle(_) => "recursive type cycle",
                SchemaError::Encoding => "canonical schema encoding failed",
            }),
    {
        match self {
            SchemaError::InvalidName => "invalid schema identifier",
            SchemaError::EmptySchema => "schema must define at least one type",
            SchemaError::LimitExceeded => "schema limit exceeded",
            SchemaError::DuplicateTypeId(_) => "duplicate type identifier",
            SchemaError::DuplicateTypeName => "duplicate type name",
            SchemaError::DuplicateFieldId(_) => "duplicate field identifier",
            SchemaError::DuplicateFieldName => "duplicate field name",
            SchemaError::DuplicateVariantId(_) => "duplicate variant identifier",
            SchemaError::DuplicateVariantName => "duplicate variant name",
            SchemaError::InvalidRange => "invalid schema range",
            SchemaError::UnknownRootType(_) => "unknown root type",
            SchemaError::UnknownTypeReference(_) => "unknown referenced type",
            SchemaError::RecursiveTypeCycle(_) => "recursive type cycle",
            SchemaError::Encoding => "canonical schema encoding failed",
        }
    }
}

/// Failure while checking a closed value against a schema.
#[derive(Clone, Copy, Debug, PartialEq, Eq, Structural)]
pub enum ValueValidationError {
    /// The requested schema type does not exist.
    UnknownType(TypeId),
    /// The runtime value kind does not match the schema kind.
    TypeMismatch,
    /// A bounded integer lies outside the declared interval.
    IntegerRange,
    /// A byte, text, vector, record, tuple, or map length is invalid.
    Length,
    /// A value-level type identifier differs from the schema type.
    TypeIdentity,
    /// An enum or sum variant is not declared by the schema.
    UnknownVariant(VariantId),
    /// A unit variant unexpectedly carried a payload.
    UnexpectedPayload,
    /// A payload-bearing variant omitted its payload.
    MissingPayload,
    /// A record's field identifiers differ from the declared field set.
    RecordShape,
    /// A deterministic validation budget was exhausted.
    BudgetExceeded,
}

impl ValueValidationError {
    /// Returns the human-readable description.
    pub fn message(&self) -> (text: &'static str)
        ensures
            text == (match *self {
                ValueValidationError::UnknownType(_) => "unknown schema type",
                ValueValidationError::TypeMismatch => "value kind does not match schema",
                ValueValidationError::IntegerRange => "integer lies outside schema range",
                ValueValidationError::Length => "value length lies outside schema bounds",
                ValueValidationError::TypeIdentity => "value type identifier differs from schema",
                ValueValidationError::UnknownVariant(_) => "unknown variant",
                ValueValidationError::UnexpectedPayload => "unit variant carried a payload",
                ValueValidationError::MissingPayload => "payload variant omitted its payload",
                ValueValidationError::RecordShape => "record fields differ from schema",
                ValueValidationError::BudgetExceeded => "value-validation budget exhausted",
            }),
    {
        match self {
            ValueValidationError::UnknownType(_) => "unknown schema type",
            ValueValidationError::TypeMismatch => "value kind does not match schema",
            ValueValidationError::IntegerRange => "integer lies outside schema range",
            ValueValidationError::Length => "value length lies outside schema bounds",
            ValueValidationError::TypeIdentity => "value type identifier differs from schema",
            ValueValidationError::UnknownVariant(_) => "unknown variant",
            ValueValidationError::UnexpectedPayload => "unit variant carried a payload",
            ValueValidationError::MissingPayload => "payload variant omitted its payload",
            ValueValidationError::RecordShape => "record fields differ from schema",
            ValueValidationError::BudgetExceeded => "value-validation budget exhausted",
        }
    }
}

} // verus!

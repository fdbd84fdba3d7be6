//! Closed, acyclic, canonically encoded protocol schemas.
//!
//! A schema fixes stable type, field, and variant identifiers before runtime
//! values are admitted. It is immutable, bounded, content-addressable, and
//! independent of declaration order.

pub mod error;
pub mod ids;
pub mod model;
pub mod graph;
pub mod definition;
pub mod validate;

pub use definition::{Schema, SchemaMetrics};
pub use error::{SchemaError, ValueValidationError};
pub use ids::{FieldId, SchemaName, TypeId, VariantId};
pub use validate::{ValidationLimits, ValidationReport};
pub use model::{EnumVariantDef, FieldDef, SchemaLimits, SumVariantDef, TypeDef, TypeKind};

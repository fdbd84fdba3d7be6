use zeno_fcis::schema::{
    FieldDef, FieldId, Schema, SchemaLimits, SumVariantDef, TypeDef, TypeId, TypeKind,
    ValidationLimits, ValidationReport, ValueValidationError, VariantId,
};
use zeno_fcis::value::{Field, Value};

fn scalar_schema() -> Schema {
    let limits = SchemaLimits::default();
    let amount = TypeDef::try_new(TypeId::new(1), "Amount", TypeKind::U128 { min: 1, max: 100 }, limits);
    match amount {
        Ok(amount) => match Schema::try_new("ScalarProfile", 1, TypeId::new(1), vec![amount], limits) {
            Ok(schema) => schema,
            Err(error) => panic!("schema rejected: {error:?}"),
        },
        Err(error) => panic!("type rejected: {error:?}"),
    }
}

#[test]
fn validates_bounded_scalar() {
    let schema = scalar_schema();
    assert!(schema.validate_root(&Value::U128(42), ValidationLimits::default()).is_ok());
    assert_eq!(
        schema.validate_root(&Value::U128(0), ValidationLimits::default()),
        Err(ValueValidationError::IntegerRange)
    );
}

#[test]
fn tuple_budget_is_deterministic() {
    let limits = SchemaLimits::default();
    let scalar = match TypeDef::try_new(TypeId::new(1), "Bit", TypeKind::Bool, limits) {
        Ok(value) => value,
        Err(error) => panic!("type rejected: {error:?}"),
    };
    let pair = match TypeDef::try_new(
        TypeId::new(2),
        "Pair",
        TypeKind::Tuple { items: vec![TypeId::new(1), TypeId::new(1)] },
        limits,
    ) {
        Ok(value) => value,
        Err(error) => panic!("type rejected: {error:?}"),
    };
    let schema = match Schema::try_new("PairProfile", 1, TypeId::new(2), vec![pair, scalar], limits) {
        Ok(value) => value,
        Err(error) => panic!("schema rejected: {error:?}"),
    };
    let value = Value::Tuple(vec![Value::Bool(true), Value::Bool(false)]);
    let report = schema.validate_root(&value, ValidationLimits { max_depth: 2, max_nodes: 3 });
    assert_eq!(report, Ok(ValidationReport { nodes: 3, maximum_depth: 1 }));
}

// Additional scenarios.

fn record_schema() -> Schema {
    let limits = SchemaLimits::default();
    let amount = TypeDef::try_new(TypeId::new(1), "Amount", TypeKind::U128 { min: 0, max: 9 }, limits)
        .unwrap_or_else(|error| panic!("{error:?}"));
    let first = FieldDef::try_new(FieldId::new(1), "first", TypeId::new(1))
        .unwrap_or_else(|error| panic!("{error:?}"));
    let second = FieldDef::try_new(FieldId::new(2), "second", TypeId::new(3))
        .unwrap_or_else(|error| panic!("{error:?}"));
    let record = TypeDef::try_new(TypeId::new(2), "Pair", TypeKind::Record { fields: vec![second, first] }, limits)
        .unwrap_or_else(|error| panic!("{error:?}"));
    let none = SumVariantDef::try_new(VariantId::new(0), "none", None)
        .unwrap_or_else(|error| panic!("{error:?}"));
    let some = SumVariantDef::try_new(VariantId::new(1), "some", Some(TypeId::new(1)))
        .unwrap_or_else(|error| panic!("{error:?}"));
    let option = TypeDef::try_new(TypeId::new(3), "Maybe", TypeKind::Sum { variants: vec![none, some] }, limits)
        .unwrap_or_else(|error| panic!("{error:?}"));
    Schema::try_new("RecordProfile", 1, TypeId::new(2), vec![amount, record, option], limits)
        .unwrap_or_else(|error| panic!("{error:?}"))
}

fn pair(first: u128, second: Value) -> Value {
    Value::record_canonical(vec![Field::new(1, Value::U128(first)), Field::new(2, second)])
        .unwrap_or_else(|error| panic!("{error:?}"))
}

fn some(value: u128) -> Value {
    Value::Sum { type_id: 3, variant: 1, payload: Some(Box::new(Value::U128(value))) }
}

#[test]
fn records_and_sums_are_checked_in_order() {
    let schema = record_schema();
    let limits = ValidationLimits::default();
    assert_eq!(
        schema.validate_root(&pair(3, some(4)), limits),
        Ok(ValidationReport { nodes: 4, maximum_depth: 2 })
    );
    assert_eq!(
        schema.validate_root(&pair(3, Value::Sum { type_id: 3, variant: 0, payload: None }), limits),
        Ok(ValidationReport { nodes: 3, maximum_depth: 1 })
    );
    assert_eq!(
        schema.validate_root(&pair(3, Value::Sum { type_id: 3, variant: 1, payload: None }), limits),
        Err(ValueValidationError::MissingPayload)
    );
    assert_eq!(
        schema.validate_root(&pair(3, Value::Sum { type_id: 3, variant: 0, payload: Some(Box::new(Value::U128(1))) }), limits),
        Err(ValueValidationError::UnexpectedPayload)
    );
    assert_eq!(
        schema.validate_root(&pair(3, Value::Sum { type_id: 3, variant: 7, payload: None }), limits),
        Err(ValueValidationError::UnknownVariant(VariantId::new(7)))
    );
    assert_eq!(
        schema.validate_root(&pair(3, Value::Sum { type_id: 4, variant: 0, payload: None }), limits),
        Err(ValueValidationError::TypeIdentity)
    );
    assert_eq!(
        schema.validate_root(&pair(30, some(4)), limits),
        Err(ValueValidationError::IntegerRange)
    );
    let short = Value::record_canonical(vec![Field::new(1, Value::U128(1))])
        .unwrap_or_else(|error| panic!("{error:?}"));
    assert_eq!(schema.validate_root(&short, limits), Err(ValueValidationError::RecordShape));
    assert_eq!(schema.validate_root(&Value::Unit, limits), Err(ValueValidationError::TypeMismatch));
    assert_eq!(
        schema.validate_value(TypeId::new(9), &Value::Unit, limits),
        Err(ValueValidationError::UnknownType(TypeId::new(9)))
    );
}

#[test]
fn budgets_fail_closed() {
    let schema = record_schema();
    assert_eq!(
        schema.validate_root(&pair(3, some(4)), ValidationLimits { max_depth: 1, max_nodes: 100 }),
        Err(ValueValidationError::BudgetExceeded)
    );
    assert_eq!(
        schema.validate_root(&pair(3, some(4)), ValidationLimits { max_depth: 10, max_nodes: 3 }),
        Err(ValueValidationError::BudgetExceeded)
    );
    assert_eq!(ValidationLimits::default(), ValidationLimits { max_depth: 128, max_nodes: 1_000_000 });
}

use zeno_fcis::commit::{CommitmentHasher, Hash32};
use zeno_fcis::schema::{
    EnumVariantDef, FieldDef, FieldId, Schema, SchemaError, SchemaLimits, SchemaName,
    SumVariantDef, TypeDef, TypeId, TypeKind, VariantId,
};

struct TestHash;

impl CommitmentHasher for TestHash {
    fn algorithm_id() -> &'static str {
        "test/noncryptographic"
    }

    fn hash(bytes: &[u8]) -> Hash32 {
        let mut output = [0_u8; 32];
        for (index, byte) in bytes.iter().copied().enumerate() {
            let slot = index % output.len();
            output[slot] = output[slot]
                .wrapping_add(byte)
                .rotate_left((slot % 7) as u32);
        }
        Hash32::new(output)
    }
}

fn type_def(id: u32, name: &str) -> TypeDef {
    match TypeDef::try_new(
        TypeId::new(id),
        name,
        TypeKind::U128 { min: 0, max: 10 },
        SchemaLimits::default(),
    ) {
        Ok(value) => value,
        Err(error) => panic!("type rejected: {error:?}"),
    }
}

#[test]
fn input_order_does_not_change_schema_bytes() {
    let limits = SchemaLimits::default();
    let left = Schema::try_new(
        "OrderIndependent",
        1,
        TypeId::new(1),
        vec![type_def(2, "Second"), type_def(1, "First")],
        limits,
    );
    let right = Schema::try_new(
        "OrderIndependent",
        1,
        TypeId::new(1),
        vec![type_def(1, "First"), type_def(2, "Second")],
        limits,
    );
    let (left, right) = match (left, right) {
        (Ok(left), Ok(right)) => (left, right),
        (left, right) => panic!("schemas rejected: {left:?} {right:?}"),
    };
    assert_eq!(left.canonical_bytes(), right.canonical_bytes());
    assert_eq!(
        left.schema_hash::<TestHash>(),
        right.schema_hash::<TestHash>()
    );
}

#[test]
fn schema_hash_changes_with_version() {
    let limits = SchemaLimits::default();
    let first = Schema::try_new(
        "Versioned",
        1,
        TypeId::new(1),
        vec![type_def(1, "Value")],
        limits,
    );
    let second = Schema::try_new(
        "Versioned",
        2,
        TypeId::new(1),
        vec![type_def(1, "Value")],
        limits,
    );
    let (first, second) = match (first, second) {
        (Ok(first), Ok(second)) => (first, second),
        (first, second) => panic!("schemas rejected: {first:?} {second:?}"),
    };
    assert_ne!(
        first.schema_hash::<TestHash>(),
        second.schema_hash::<TestHash>()
    );
}

#[test]
fn rejects_recursive_type_graph() {
    let limits = SchemaLimits::default();
    let field = FieldDef::try_new(FieldId::new(1), "child", TypeId::new(1));
    let field = match field {
        Ok(field) => field,
        Err(error) => panic!("field rejected: {error:?}"),
    };
    let node = TypeDef::try_new(
        TypeId::new(1),
        "Node",
        TypeKind::Record {
            fields: vec![field],
        },
        limits,
    );
    let node = match node {
        Ok(node) => node,
        Err(error) => panic!("type rejected: {error:?}"),
    };
    assert_eq!(
        Schema::try_new("Recursive", 1, TypeId::new(1), vec![node], limits),
        Err(SchemaError::RecursiveTypeCycle(TypeId::new(1)))
    );
}

#[test]
fn schema_names_follow_the_identifier_rule() {
    assert!(SchemaName::try_new("Alpha_9").is_ok());
    assert!(SchemaName::try_new("_private").is_ok());
    assert_eq!(SchemaName::try_new("").err(), Some(SchemaError::InvalidName));
    assert_eq!(SchemaName::try_new("9lives").err(), Some(SchemaError::InvalidName));
    assert_eq!(SchemaName::try_new("has space").err(), Some(SchemaError::InvalidName));
    assert_eq!(SchemaName::try_new("caf\u{e9}").err(), Some(SchemaError::InvalidName));
    let longest = "a".repeat(96);
    assert!(SchemaName::try_new(&longest).is_ok());
    let too_long = "a".repeat(97);
    assert_eq!(SchemaName::try_new(&too_long).err(), Some(SchemaError::InvalidName));
    assert_eq!(SchemaName::try_new("Name").map(|name| name.as_str().to_string()), Ok("Name".to_string()));
}

#[test]
fn exact_canonical_bytes_of_a_minimal_schema() {
    let unit = TypeDef::try_new(TypeId::new(1), "A", TypeKind::Unit, SchemaLimits::default()).unwrap();
    let schema = Schema::try_new("P", 1, TypeId::new(1), vec![unit], SchemaLimits::default()).unwrap();
    let mut expected: Vec<u8> = b"ZFCISSCHEMA1\0".to_vec();
    expected.extend_from_slice(&[0, 1, b'P']);
    expected.extend_from_slice(&[0, 1]);
    expected.extend_from_slice(&[0, 0, 0, 1]);
    expected.extend_from_slice(&[0, 0, 0, 1]);
    expected.extend_from_slice(&[0, 0, 0, 1, 0, 1, b'A', 0]);
    assert_eq!(schema.canonical_bytes(), Ok(expected.clone()));
    let mut framed: Vec<u8> = vec![0, 16];
    framed.extend_from_slice(b"zeno-fcis/schema");
    framed.extend_from_slice(&[0, 1]);
    framed.extend_from_slice(&(expected.len() as u64).to_be_bytes());
    framed.extend_from_slice(&expected);
    assert_eq!(schema.commitment_bytes(), framed);
    assert_eq!(schema.schema_hash::<TestHash>(), Ok(TestHash::hash(&framed)));
}

#[test]
fn schema_construction_reports_each_refusal() {
    let limits = SchemaLimits::default();
    assert_eq!(
        Schema::try_new("P", 1, TypeId::new(1), Vec::new(), limits),
        Err(SchemaError::EmptySchema)
    );
    let tight = SchemaLimits { max_types: 1, ..limits };
    assert_eq!(
        Schema::try_new("P", 1, TypeId::new(1), vec![type_def(1, "A"), type_def(2, "B")], tight),
        Err(SchemaError::LimitExceeded)
    );
    assert_eq!(
        Schema::try_new(
            "P",
            1,
            TypeId::new(1),
            vec![
                type_def(9, "A"),
                type_def(9, "B"),
                type_def(4, "C"),
                type_def(4, "D"),
            ],
            limits
        ),
        Err(SchemaError::DuplicateTypeId(TypeId::new(4)))
    );
    assert_eq!(
        Schema::try_new("P", 1, TypeId::new(1), vec![type_def(1, "A"), type_def(2, "A")], limits),
        Err(SchemaError::DuplicateTypeName)
    );
    assert_eq!(
        Schema::try_new("not valid", 1, TypeId::new(1), vec![type_def(1, "A")], limits),
        Err(SchemaError::InvalidName)
    );
    assert_eq!(
        Schema::try_new("P", 1, TypeId::new(7), vec![type_def(1, "A")], limits),
        Err(SchemaError::UnknownRootType(TypeId::new(7)))
    );
    let dangling = TypeDef::try_new(
        TypeId::new(1),
        "List",
        TypeKind::Vector { element: TypeId::new(5), min_len: 0, max_len: 4 },
        limits,
    )
    .unwrap();
    assert_eq!(
        Schema::try_new("P", 1, TypeId::new(1), vec![dangling], limits),
        Err(SchemaError::UnknownTypeReference(TypeId::new(5)))
    );
}

#[test]
fn type_definitions_normalize_their_lists() {
    let limits = SchemaLimits::default();
    assert_eq!(
        TypeDef::try_new(TypeId::new(1), "R", TypeKind::U128 { min: 5, max: 4 }, limits).err(),
        Some(SchemaError::InvalidRange)
    );
    assert_eq!(
        TypeDef::try_new(TypeId::new(1), "R", TypeKind::I128 { min: 1, max: -1 }, limits).err(),
        Some(SchemaError::InvalidRange)
    );
    assert_eq!(
        TypeDef::try_new(TypeId::new(1), "bad name", TypeKind::U128 { min: 5, max: 4 }, limits).err(),
        Some(SchemaError::InvalidName)
    );
    let a = EnumVariantDef::try_new(VariantId::new(3), "A").unwrap();
    let b = EnumVariantDef::try_new(VariantId::new(3), "B").unwrap();
    assert_eq!(
        TypeDef::try_new(TypeId::new(1), "E", TypeKind::Enum { variants: vec![a, b] }, limits).err(),
        Some(SchemaError::DuplicateVariantId(VariantId::new(3)))
    );
    let a = SumVariantDef::try_new(VariantId::new(1), "Same", None).unwrap();
    let b = SumVariantDef::try_new(VariantId::new(2), "Same", Some(TypeId::new(4))).unwrap();
    assert_eq!(
        TypeDef::try_new(TypeId::new(1), "S", TypeKind::Sum { variants: vec![a, b] }, limits).err(),
        Some(SchemaError::DuplicateVariantName)
    );
    let x = FieldDef::try_new(FieldId::new(2), "x", TypeId::new(2)).unwrap();
    let y = FieldDef::try_new(FieldId::new(2), "y", TypeId::new(2)).unwrap();
    assert_eq!(
        TypeDef::try_new(TypeId::new(1), "Rec", TypeKind::Record { fields: vec![x, y] }, limits).err(),
        Some(SchemaError::DuplicateFieldId(FieldId::new(2)))
    );
    let tight = SchemaLimits { max_tuple_items: 1, ..limits };
    assert_eq!(
        TypeDef::try_new(
            TypeId::new(1),
            "T",
            TypeKind::Tuple { items: vec![TypeId::new(2), TypeId::new(2)] },
            tight
        )
        .err(),
        Some(SchemaError::LimitExceeded)
    );
    let second = FieldDef::try_new(FieldId::new(9), "second", TypeId::new(2)).unwrap();
    let first = FieldDef::try_new(FieldId::new(1), "first", TypeId::new(2)).unwrap();
    let record =
        TypeDef::try_new(TypeId::new(1), "Rec", TypeKind::Record { fields: vec![second, first] }, limits)
            .unwrap();
    match record.kind() {
        TypeKind::Record { fields } => {
            let ids: Vec<u16> = fields.iter().map(|field| field.id().get()).collect();
            assert_eq!(ids, vec![1, 9]);
            assert_eq!(fields[0].name().as_str(), "first");
        }
        other => panic!("unexpected kind {other:?}"),
    }
}

#[test]
fn schema_lookup_and_metrics() {
    let limits = SchemaLimits::default();
    let flag = TypeDef::try_new(TypeId::new(1), "Flag", TypeKind::Bool, limits).unwrap();
    let field = FieldDef::try_new(FieldId::new(1), "flag", TypeId::new(1)).unwrap();
    let holder =
        TypeDef::try_new(TypeId::new(2), "Holder", TypeKind::Record { fields: vec![field] }, limits).unwrap();
    let on = EnumVariantDef::try_new(VariantId::new(1), "On").unwrap();
    let off = EnumVariantDef::try_new(VariantId::new(2), "Off").unwrap();
    let mode = TypeDef::try_new(TypeId::new(3), "Mode", TypeKind::Enum { variants: vec![on, off] }, limits)
        .unwrap();
    let schema = Schema::try_new("Lookup", 3, TypeId::new(2), vec![mode, holder, flag], limits).unwrap();
    assert_eq!(schema.profile().as_str(), "Lookup");
    assert_eq!(schema.version(), 3);
    assert_eq!(schema.root_type(), TypeId::new(2));
    let ids: Vec<u32> = schema.types().iter().map(|item| item.id().get()).collect();
    assert_eq!(ids, vec![1, 2, 3]);
    let metrics = schema.metrics();
    assert_eq!((metrics.types, metrics.fields, metrics.variants), (3, 1, 2));
    assert_eq!(schema.type_by_id(TypeId::new(3)).map(|item| item.name().as_str()), Some("Mode"));
    assert!(schema.type_by_id(TypeId::new(4)).is_none());
}

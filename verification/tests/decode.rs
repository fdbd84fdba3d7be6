use zeno_fcis::decode::{decode_value, decode_value_with_metrics, DecodeError, DecodeLimits, ValueLimits};
use zeno_fcis::value::{Field, MapEntry, Value, ValueError};

fn limits() -> DecodeLimits {
    DecodeLimits::default()
}

fn round_trip(value: Value) {
    let bytes = value.canonical_bytes();
    assert_eq!(decode_value(&bytes, limits()), Ok(value));
}

#[test]
fn every_value_kind_round_trips() {
    round_trip(Value::Unit);
    round_trip(Value::Bool(true));
    round_trip(Value::Bool(false));
    round_trip(Value::U128(u128::MAX));
    round_trip(Value::I128(i128::MIN));
    round_trip(Value::I128(-1));
    round_trip(Value::Bytes(vec![0, 255, 7]));
    round_trip(Value::Text("abc é".to_string()));
    round_trip(Value::Enum { type_id: 42, variant: 9 });
    round_trip(Value::Tuple(vec![Value::Unit, Value::Bool(true)]));
    round_trip(Value::Sum { type_id: 3, variant: 2, payload: Some(Box::new(Value::I128(-1))) });
    round_trip(Value::Sum { type_id: 3, variant: 2, payload: None });
    round_trip(Value::Vector(vec![Value::U128(1), Value::U128(2)]));
    round_trip(
        Value::record_canonical(vec![Field::new(1, Value::Unit), Field::new(4, Value::Bool(false))])
            .unwrap_or_else(|error| panic!("{error:?}")),
    );
    round_trip(
        Value::map_canonical(vec![
            MapEntry::new(Value::U128(1), Value::Unit),
            MapEntry::new(Value::U128(2), Value::Bool(true)),
        ])
        .unwrap_or_else(|error| panic!("{error:?}")),
    );
}

#[test]
fn metrics_count_nodes_and_payload_bytes() {
    let value = Value::Tuple(vec![Value::Bytes(vec![1, 2]), Value::Text("xyz".to_string()), Value::Unit]);
    let bytes = value.canonical_bytes();
    let (decoded, metrics) = decode_value_with_metrics(&bytes, limits()).unwrap_or_else(|error| panic!("{error:?}"));
    assert_eq!(decoded, value);
    assert_eq!(metrics.nodes, 4);
    assert_eq!(metrics.payload_bytes, 5);
}

#[test]
fn malformed_inputs_fail_closed() {
    assert_eq!(decode_value(&[12], limits()), Err(DecodeError::UnknownTag(12)));
    assert_eq!(decode_value(&[1, 2], limits()), Err(DecodeError::InvalidFlag(2)));
    assert_eq!(decode_value(&[0, 0], limits()), Err(DecodeError::TrailingBytes { offset: 1 }));
    assert!(matches!(decode_value(&[2, 0, 0], limits()), Err(DecodeError::UnexpectedEnd { .. })));
    assert!(matches!(decode_value(&[], limits()), Err(DecodeError::UnexpectedEnd { offset: 0, requested: 1 })));
    let mut invalid_text = vec![5, 0, 0, 0, 0, 0, 0, 0, 1];
    invalid_text.push(0xff);
    assert_eq!(decode_value(&invalid_text, limits()), Err(DecodeError::InvalidUtf8));
}

#[test]
fn noncanonical_records_and_maps_are_refused() {
    let mut record = vec![8, 0, 0, 0, 0, 0, 0, 0, 2];
    record.extend_from_slice(&[0, 2, 0]);
    record.extend_from_slice(&[0, 1, 0]);
    assert_eq!(decode_value(&record, limits()), Err(DecodeError::InvalidValue(ValueError::UnorderedRecordFields)));

    let mut map = vec![11, 0, 0, 0, 0, 0, 0, 0, 2];
    map.extend_from_slice(&[1, 1, 0]);
    map.extend_from_slice(&[1, 0, 0]);
    assert_eq!(decode_value(&map, limits()), Err(DecodeError::InvalidValue(ValueError::UnorderedMapKeys)));
}

#[test]
fn structural_limits_are_enforced() {
    let nested = Value::Tuple(vec![Value::Tuple(vec![Value::Unit])]);
    let bytes = nested.canonical_bytes();
    let shallow = DecodeLimits { value: ValueLimits { max_depth: 1, ..ValueLimits::default() }, ..limits() };
    assert_eq!(decode_value(&bytes, shallow), Err(DecodeError::DepthLimit { limit: 1 }));
    let deep_enough = DecodeLimits { value: ValueLimits { max_depth: 2, ..ValueLimits::default() }, ..limits() };
    assert_eq!(decode_value(&bytes, deep_enough), Ok(nested));

    let few_nodes = DecodeLimits { value: ValueLimits { max_nodes: 2, ..ValueLimits::default() }, ..limits() };
    assert_eq!(decode_value(&bytes, few_nodes), Err(DecodeError::NodeLimit { limit: 2, attempted: 3 }));

    let payload = Value::Bytes(vec![1, 2, 3]).canonical_bytes();
    let small = DecodeLimits { value: ValueLimits { max_payload_bytes: 2, ..ValueLimits::default() }, ..limits() };
    assert_eq!(decode_value(&payload, small), Err(DecodeError::PayloadLimit { limit: 2, attempted: 3 }));

    let input = DecodeLimits { max_input_bytes: 3, ..limits() };
    assert_eq!(
        decode_value(&payload, input),
        Err(DecodeError::InputLimit { limit: 3, actual: payload.len() as u64 })
    );
}

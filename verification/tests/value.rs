use helixite::value::{values_equal, IndexedValue, Value};

fn float(f: f64) -> IndexedValue {
    IndexedValue::Float(f.to_bits())
}

fn vector(v: &[f32]) -> Value {
    Value::Vector(v.iter().map(|x| x.to_bits()).collect())
}

#[test]
fn indexed_value_roundtrip_string() {
    let before = IndexedValue::String("hello".into());
    let restored = IndexedValue::from_bytes(&before.to_bytes()).unwrap();
    assert_eq!(before, restored);
}

#[test]
fn indexed_value_roundtrip_int() {
    for n in [0i64, 1, -1, 42, -42, 1000000] {
        let before = IndexedValue::Int(n);
        let restored = IndexedValue::from_bytes(&before.to_bytes()).unwrap();
        assert_eq!(before, restored);
    }
}

#[test]
fn indexed_value_roundtrip_float() {
    for f in [0.0f64, 1.0, -1.0, 42.5, -42.5, 0.001] {
        let before = float(f);
        let restored = IndexedValue::from_bytes(&before.to_bytes()).unwrap();
        assert_eq!(before, restored);
    }
}

#[test]
fn indexed_value_roundtrip_bool() {
    for b in [true, false] {
        let before = IndexedValue::Bool(b);
        let restored = IndexedValue::from_bytes(&before.to_bytes()).unwrap();
        assert_eq!(before, restored);
    }
}

#[test]
fn indexed_value_roundtrip_bytes() {
    let before = IndexedValue::Bytes(vec![0, 1, 255]);
    let restored = IndexedValue::from_bytes(&before.to_bytes()).unwrap();
    assert_eq!(before, restored);
}

#[test]
fn indexed_value_int_min_max_roundtrip() {
    for n in [i64::MIN, i64::MAX] {
        let before = IndexedValue::Int(n);
        let restored = IndexedValue::from_bytes(&before.to_bytes()).unwrap();
        assert_eq!(before, restored);
    }
}

#[test]
fn indexed_value_float_infinity_roundtrip() {
    for f in [f64::INFINITY, f64::NEG_INFINITY] {
        let before = float(f);
        let restored = IndexedValue::from_bytes(&before.to_bytes()).unwrap();
        assert_eq!(before, restored);
    }
}

#[test]
fn indexed_value_float_negative_zero_canonical() {
    let neg_zero = float(-0.0);
    let pos_zero = float(0.0);
    assert_eq!(neg_zero.to_bytes(), pos_zero.to_bytes());
}

#[test]
fn indexed_value_empty_string_roundtrip() {
    let before = IndexedValue::String(String::new());
    let restored = IndexedValue::from_bytes(&before.to_bytes()).unwrap();
    assert_eq!(before, restored);
}

#[test]
fn indexed_value_empty_bytes_roundtrip() {
    let before = IndexedValue::Bytes(vec![]);
    let restored = IndexedValue::from_bytes(&before.to_bytes()).unwrap();
    assert_eq!(before, restored);
}

#[test]
fn indexed_value_from_empty_bytes_returns_none() {
    assert!(IndexedValue::from_bytes(&[]).is_none());
}

#[test]
fn indexed_value_from_unknown_tag_returns_none() {
    assert!(IndexedValue::from_bytes(&[255, 0, 0]).is_none());
}

#[test]
fn indexed_value_int_from_truncated_bytes_returns_none() {
    assert!(IndexedValue::from_bytes(&[1, 0, 0]).is_none());
}

#[test]
fn indexed_value_bool_from_invalid_payload_returns_none() {
    assert!(IndexedValue::from_bytes(&[2, 2]).is_none());
}

#[test]
fn indexed_value_int_ordering_preserves_sign() {
    let neg = IndexedValue::Int(-100);
    let zero = IndexedValue::Int(0);
    let pos = IndexedValue::Int(100);
    assert!(neg.to_bytes() < zero.to_bytes());
    assert!(zero.to_bytes() < pos.to_bytes());
}

#[test]
fn indexed_value_int_ordering_min_to_max() {
    let min = IndexedValue::Int(i64::MIN);
    let neg = IndexedValue::Int(-1);
    let zero = IndexedValue::Int(0);
    let pos = IndexedValue::Int(1);
    let max = IndexedValue::Int(i64::MAX);

    let mut bytes: Vec<Vec<u8>> = [min, neg, zero, pos, max].iter().map(IndexedValue::to_bytes).collect();
    let sorted = bytes.clone();
    bytes.sort();
    assert_eq!(bytes, sorted);
}

#[test]
fn indexed_value_float_ordering() {
    let neg = float(-1.0);
    let zero = float(0.0);
    let pos = float(1.0);
    assert!(neg.to_bytes() < zero.to_bytes());
    assert!(zero.to_bytes() < pos.to_bytes());
}

#[test]
fn indexed_value_float_ordering_full_range() {
    let values = vec![
        float(f64::NEG_INFINITY),
        float(-1e308),
        float(-1.0),
        float(-f64::MIN_POSITIVE),
        float(0.0),
        float(f64::MIN_POSITIVE),
        float(1.0),
        float(1e308),
        float(f64::INFINITY),
    ];

    let mut bytes: Vec<Vec<u8>> = values.iter().map(IndexedValue::to_bytes).collect();
    let sorted = bytes.clone();
    bytes.sort();
    assert_eq!(bytes, sorted);
}

#[test]
fn indexed_value_string_ordering() {
    let a = IndexedValue::String("apple".into());
    let b = IndexedValue::String("banana".into());
    assert!(a.to_bytes() < b.to_bytes());
}

#[test]
fn compare_same_type_cross_type_returns_none() {
    let int = IndexedValue::Int(1);
    let string = IndexedValue::String("1".into());
    assert!(int.compare_same_type(&string).is_none());
}

#[test]
fn compare_same_type_int_ordering() {
    let a = IndexedValue::Int(10);
    let b = IndexedValue::Int(20);
    assert_eq!(a.compare_same_type(&b), Some(std::cmp::Ordering::Less));
}

#[test]
fn compare_same_type_float_ordering() {
    let a = float(1.0);
    let b = float(2.0);
    assert_eq!(a.compare_same_type(&b), Some(std::cmp::Ordering::Less));
}

#[test]
fn value_to_indexed_value_nan_returns_none() {
    assert!(Value::Float(f64::NAN.to_bits()).to_indexed_value().is_none());
}

#[test]
fn value_to_indexed_value_vector_returns_none() {
    assert!(vector(&[1.0]).to_indexed_value().is_none());
}

#[test]
fn value_to_index_key_nan_returns_none() {
    assert!(Value::Float(f64::NAN.to_bits()).to_index_key().is_none());
}

#[test]
fn value_to_index_key_vector_returns_none() {
    assert!(vector(&[1.0]).to_index_key().is_none());
}

#[test]
fn value_to_index_key_returns_some_for_indexable_types() {
    assert!(Value::String("hi".into()).to_index_key().is_some());
    assert!(Value::Int(42).to_index_key().is_some());
    assert!(Value::Float(1.0f64.to_bits()).to_index_key().is_some());
    assert!(Value::Bool(true).to_index_key().is_some());
    assert!(Value::Bytes(vec![1]).to_index_key().is_some());
}

#[test]
fn value_from_string_owned() {
    let v: Value = String::from("hello").into();
    assert_eq!(v, Value::String("hello".into()));
}

#[test]
fn value_from_str_ref() {
    let v: Value = "hello".into();
    assert_eq!(v, Value::String("hello".into()));
}

#[test]
fn value_from_i64() {
    let v: Value = 42i64.into();
    assert_eq!(v, Value::Int(42));
}

#[test]
fn value_from_bool() {
    let v: Value = true.into();
    assert_eq!(v, Value::Bool(true));
}

#[test]
fn value_from_vec_u8() {
    let v: Value = vec![1u8, 2, 3].into();
    assert_eq!(v, Value::Bytes(vec![1, 2, 3]));
}

#[test]
fn value_equality_follows_floats() {
    let nan = Value::Float(f64::NAN.to_bits());
    assert!(!values_equal(&nan, &nan));
    assert!(values_equal(&Value::Float((-0.0f64).to_bits()), &Value::Float(0.0f64.to_bits())));
    assert!(values_equal(&vector(&[1.0, -0.0]), &vector(&[1.0, 0.0])));
    assert!(!values_equal(&vector(&[1.0]), &vector(&[1.0, 2.0])));
    assert!(!values_equal(&Value::Int(1), &Value::String("1".into())));
}


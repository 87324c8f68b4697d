use pulsar_reflection::json_codec::{
    deserialize_bool_json, deserialize_enum, deserialize_i32_json, deserialize_i64_json,
    deserialize_string_json, deserialize_u32_json, deserialize_u32x116_json, deserialize_u64_json,
    serialize_bool_json, serialize_enum, serialize_i32_json, serialize_i64_json,
    serialize_string_json, serialize_u32_json, serialize_u32x116_json, serialize_u64_json,
};
use pulsar_reflection::json_codec::{
    deserialize_array_with, deserialize_struct_with, json_document, serialize_array_with, serialize_struct_with,
};
use pulsar_reflection::runtime_types::{FieldInfo, RuntimeTypeInfo};
use pulsar_reflection::type_traits::ReflectError;
use serde_json::Value;

fn is_mismatch(err: &ReflectError, expected: &str, found: &str) -> bool {
    match err {
        ReflectError::TypeMismatch { expected: e, found: f } => *e == expected && f == found,
        _ => false,
    }
}

#[test]
fn test_bool_serialization_true() {
    let json = serialize_bool_json(&true).unwrap();
    assert!(json.as_bool().unwrap());
}

#[test]
fn test_bool_serialization_false() {
    let json = serialize_bool_json(&false).unwrap();
    assert!(!json.as_bool().unwrap());
}

#[test]
fn test_bool_deserialization() {
    let value = deserialize_bool_json(Value::from(true)).unwrap();
    assert!(value);
}

#[test]
fn test_i32_serialization() {
    let value: i32 = 12345;
    let json = serialize_i32_json(&value).unwrap();
    assert_eq!(json.as_i64().unwrap(), value as i64);
}

#[test]
fn test_i32_deserialization() {
    let value = deserialize_i32_json(Value::from(42)).unwrap();
    assert_eq!(value, 42);
}

#[test]
fn test_i64_serialization() {
    let value: i64 = 42;
    let json = serialize_i64_json(&value).unwrap();
    assert_eq!(json.as_i64().unwrap(), value);
}

#[test]
fn test_i64_deserialization() {
    let expected: i64 = -1234567890;
    let value = deserialize_i64_json(Value::from(expected)).unwrap();
    assert_eq!(value, expected);
}

#[test]
fn test_u32_serialization() {
    let value: u32 = 4294967295;
    let json = serialize_u32_json(&value).unwrap();
    assert_eq!(json.as_u64().unwrap(), value as u64);
}

#[test]
fn test_u32_deserialization() {
    let value = deserialize_u32_json(Value::from(42u32)).unwrap();
    assert_eq!(value, 42);
}

#[test]
fn test_u64_serialization() {
    let value: u64 = 18446744073709551615;
    let json = serialize_u64_json(&value).unwrap();
    assert_eq!(json.as_u64().unwrap(), value);
}

#[test]
fn test_u64_deserialization() {
    let value = deserialize_u64_json(Value::from(999999)).unwrap();
    assert_eq!(value, 999999);
}

#[test]
fn test_string_serialization() {
    let value = "Hello, Pulsar!".to_string();
    let json = serialize_string_json(&value).unwrap();
    assert_eq!(json.as_str().unwrap(), "Hello, Pulsar!");
}

#[test]
fn test_string_deserialization() {
    let value = deserialize_string_json(Value::from("Test String")).unwrap();
    assert_eq!(value, "Test String");
}

#[test]
fn test_empty_string() {
    let value = String::new();
    let json = serialize_string_json(&value).unwrap();
    assert_eq!(json.as_str().unwrap(), "");
}

#[test]
fn test_unicode_string() {
    let value = "Hello 世界 🌍".to_string();
    let json = serialize_string_json(&value).unwrap();
    assert_eq!(json.as_str().unwrap(), "Hello 世界 🌍");
}

#[test]
fn documents_of_the_wrong_kind_are_type_mismatches() {
    let text = Value::from("x");
    let err = deserialize_bool_json(text.clone()).unwrap_err();
    assert!(is_mismatch(&err, "bool", &format!("{:?}", text)));
    let err = deserialize_u64_json(Value::from(-1)).unwrap_err();
    assert!(is_mismatch(&err, "u64", &format!("{:?}", Value::from(-1))));
    let err = deserialize_i64_json(Value::from(u64::MAX)).unwrap_err();
    assert!(is_mismatch(&err, "i64", &format!("{:?}", Value::from(u64::MAX))));
    let err = deserialize_i32_json(Value::Null).unwrap_err();
    assert!(is_mismatch(&err, "i32", "Null"));
    let err = deserialize_string_json(Value::from(3)).unwrap_err();
    assert!(is_mismatch(&err, "String", &format!("{:?}", Value::from(3))));
}

#[test]
fn u32_rejects_numbers_past_its_range_and_i32_keeps_the_low_bits() {
    let err = deserialize_u32_json(Value::from(4294967296u64)).unwrap_err();
    assert!(is_mismatch(&err, "u32", &format!("{:?}", Value::from(4294967296u64))));
    assert_eq!(deserialize_u32_json(Value::from(4294967295u64)).unwrap(), u32::MAX);
    assert_eq!(deserialize_i32_json(Value::from(4294967297i64)).unwrap(), 1);
    assert_eq!(deserialize_i32_json(Value::from(-5)).unwrap(), -5);
}

#[test]
fn primitives_round_trip_through_json() {
    for n in [0u32, 1, 77, u32::MAX] {
        assert_eq!(deserialize_u32_json(serialize_u32_json(&n).unwrap()).unwrap(), n);
    }
    for n in [i32::MIN, -1, 0, i32::MAX] {
        assert_eq!(deserialize_i32_json(serialize_i32_json(&n).unwrap()).unwrap(), n);
    }
    for n in [i64::MIN, 0, i64::MAX] {
        assert_eq!(deserialize_i64_json(serialize_i64_json(&n).unwrap()).unwrap(), n);
    }
    for n in [0u64, u64::MAX] {
        assert_eq!(deserialize_u64_json(serialize_u64_json(&n).unwrap()).unwrap(), n);
    }
    for b in [true, false] {
        assert_eq!(deserialize_bool_json(serialize_bool_json(&b).unwrap()).unwrap(), b);
    }
    let s = "round trip".to_string();
    assert_eq!(deserialize_string_json(serialize_string_json(&s).unwrap()).unwrap(), s);
}

#[test]
fn enum_variants_are_read_by_index_or_by_name() {
    let variants: &[&'static str] = &["Static", "Stationary", "Movable"];
    assert_eq!(deserialize_enum(&Value::from(2u64), variants).unwrap(), 2);
    assert_eq!(deserialize_enum(&Value::from("Stationary"), variants).unwrap(), 1);
    let err = deserialize_enum(&Value::from(3u64), variants).unwrap_err();
    match err {
        ReflectError::InvalidVariant { enum_name, variant } => {
            assert_eq!(enum_name, "unknown");
            assert_eq!(variant, format!("{:?}", Value::from(3u64)));
        }
        other => panic!("unexpected {:?}", other),
    }
    assert!(deserialize_enum(&Value::from("Flying"), variants).is_err());
    assert!(deserialize_enum(&Value::Null, variants).is_err());
    let twice: &[&'static str] = &["A", "B", "A"];
    assert_eq!(deserialize_enum(&Value::from("A"), twice).unwrap(), 0);
}

#[test]
fn enum_indices_round_trip_through_json() {
    let variants: &[&'static str] = &["Static", "Stationary", "Movable"];
    for i in 0..variants.len() {
        assert_eq!(deserialize_enum(&serialize_enum(i), variants).unwrap(), i);
    }
}

#[test]
fn u32_arrays_round_trip_and_report_the_first_bad_item() {
    let mut a = [0u32; 116];
    for (i, x) in a.iter_mut().enumerate() {
        *x = (i as u32) * 1000;
    }
    let json = serialize_u32x116_json(&a).unwrap();
    assert_eq!(json.as_array().unwrap().len(), 116);
    assert_eq!(deserialize_u32x116_json(json).unwrap(), a);

    let short = Value::Array(vec![Value::from(1u64); 3]);
    let err = deserialize_u32x116_json(short).unwrap_err();
    assert!(is_mismatch(&err, "[u32; 116]", "array length 3"));

    let not_array = Value::from(true);
    let err = deserialize_u32x116_json(not_array).unwrap_err();
    assert!(is_mismatch(&err, "[u32; 116]", "true"));

    let mut items = vec![Value::from(1u64); 116];
    items[5] = Value::from("five");
    items[9] = Value::from(-1);
    let err = deserialize_u32x116_json(Value::Array(items)).unwrap_err();
    assert!(is_mismatch(&err, "u32", "\"five\""));
}

fn u32_info() -> &'static RuntimeTypeInfo {
    Box::leak(Box::new(RuntimeTypeInfo::primitive::<u32>("u32", None)))
}

fn read_u32(_ti: &'static RuntimeTypeInfo, v: Value) -> Result<u32, ReflectError> {
    deserialize_u32_json(v)
}

#[test]
fn documents_parse_or_report_the_parser_error() {
    let v = json_document("{\"a\": [1, 2]}").unwrap();
    assert_eq!(v["a"][1].as_u64(), Some(2));
    match json_document("{oops") {
        Err(ReflectError::DeserializationFailed(msg)) => {
            assert_eq!(msg, serde_json::from_str::<Value>("{oops").unwrap_err().to_string());
        }
        other => panic!("unexpected {:?}", other),
    }
}

#[test]
fn structs_read_field_by_field() {
    let ti = u32_info();
    let fields = vec![FieldInfo::new("x", ti, 0), FieldInfo::new("y", ti, 4)];
    let doc = json_document("{\"x\": 1, \"y\": 2, \"z\": 3}").unwrap();
    let read = deserialize_struct_with(&doc, &fields, read_u32).unwrap();
    assert_eq!(read, vec![("x", 1), ("y", 2)]);

    let missing = json_document("{\"x\": 1}").unwrap();
    match deserialize_struct_with(&missing, &fields, read_u32).unwrap_err() {
        ReflectError::MissingField { struct_name, field_name } => {
            assert_eq!(struct_name, "unknown");
            assert_eq!(field_name, "y");
        }
        other => panic!("unexpected {:?}", other),
    }

    let wrong = json_document("{\"x\": true, \"y\": 2}").unwrap();
    assert!(is_mismatch(&deserialize_struct_with(&wrong, &fields, read_u32).unwrap_err(), "u32", "Bool(true)"));

    let not_object = Value::from(5u64);
    let err = deserialize_struct_with(&not_object, &fields, read_u32).unwrap_err();
    assert!(is_mismatch(&err, "object", &format!("{:?}", not_object)));
}

#[test]
fn arrays_read_item_by_item() {
    let doc = json_document("[1, 2, 3]").unwrap();
    assert_eq!(deserialize_array_with(&doc, deserialize_u32_json).unwrap(), vec![1, 2, 3]);
    let bad = json_document("[1, -2, \"x\"]").unwrap();
    let err = deserialize_array_with(&bad, deserialize_u32_json).unwrap_err();
    assert!(is_mismatch(&err, "u32", &format!("{:?}", Value::from(-2))));
    let err = deserialize_array_with(&Value::Null, deserialize_u32_json).unwrap_err();
    assert!(is_mismatch(&err, "array", "Null"));
}

#[test]
fn arrays_and_structs_write_through_the_converter() {
    let values: Vec<u32> = vec![7, 8];
    let json = serialize_array_with(&values, |v: u32| serialize_u32_json(&v)).unwrap();
    assert_eq!(json, json_document("[7, 8]").unwrap());

    let fields: Vec<(&str, u32)> = vec![("a", 1), ("b", 2), ("a", 3)];
    let json = serialize_struct_with(&fields, |v: u32| serialize_u32_json(&v)).unwrap();
    assert_eq!(json, json_document("{\"a\": 3, \"b\": 2}").unwrap());

    let failing = |v: u32| -> Result<Value, ReflectError> {
        if v == 2 {
            Err(ReflectError::Custom("two".to_string()))
        } else {
            serialize_u32_json(&v)
        }
    };
    assert_eq!(serialize_array_with(&[1u32, 2, 3], failing).unwrap_err().to_string(), "two");
    assert_eq!(serialize_struct_with(&[("p", 1u32), ("q", 2)], failing).unwrap_err().to_string(), "two");
}

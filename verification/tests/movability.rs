use pulsar_reflection::movability::{deserialize_movability_json, serialize_movability_json, Movability};
use pulsar_reflection::type_traits::ReflectError;
use serde_json::Value;

#[test]
fn movability_is_written_by_name() {
    assert_eq!(serialize_movability_json(Movability::Static), Value::from("Static"));
    assert_eq!(serialize_movability_json(Movability::Stationary), Value::from("Stationary"));
    assert_eq!(serialize_movability_json(Movability::Movable), Value::from("Movable"));
}

#[test]
fn movability_is_read_by_name_or_index() {
    for m in [Movability::Static, Movability::Stationary, Movability::Movable] {
        let v = serialize_movability_json(m);
        assert_eq!(deserialize_movability_json(&v).ok(), Some(m));
        let (_, index) = m.variant();
        assert_eq!(deserialize_movability_json(&Value::from(index as u64)).ok(), Some(m));
        assert_eq!(Movability::from_index(index).ok(), Some(m));
    }
    assert_eq!(Movability::Stationary.variant(), ("Stationary", 1));
}

#[test]
fn unknown_movabilities_are_refused() {
    match deserialize_movability_json(&Value::from("Flying")) {
        Err(ReflectError::InvalidVariant { enum_name, variant }) => {
            assert_eq!(enum_name, "helio::Movability");
            assert_eq!(variant, "Flying");
        }
        other => panic!("unexpected {:?}", other.ok()),
    }
    match deserialize_movability_json(&Value::from(7u64)) {
        Err(ReflectError::InvalidVariant { enum_name, variant }) => {
            assert_eq!(enum_name, "helio::Movability");
            assert_eq!(variant, "index 7");
        }
        other => panic!("unexpected {:?}", other.ok()),
    }
    match Movability::from_index(12) {
        Err(ReflectError::InvalidVariant { variant, .. }) => assert_eq!(variant, "index 12"),
        other => panic!("unexpected {:?}", other.ok()),
    }
    match deserialize_movability_json(&Value::from(true)) {
        Err(ReflectError::TypeMismatch { expected, found }) => {
            assert_eq!(expected, "helio::Movability");
            assert_eq!(found, "Bool(true)");
        }
        other => panic!("unexpected {:?}", other.ok()),
    }
}

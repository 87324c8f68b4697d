use pulsar_reflection::type_traits::ReflectError;

#[test]
fn test_reflect_error_display() {
    let err = ReflectError::TypeMismatch { expected: "f32", found: "i32".to_string() };
    assert!(err.to_string().contains("Type mismatch"));

    let err = ReflectError::MissingField { struct_name: "TestStruct", field_name: "value" };
    assert!(err.to_string().contains("Missing required field"));
}

#[test]
fn every_error_reads_as_its_message() {
    assert_eq!(
        ReflectError::TypeMismatch { expected: "f32", found: "i32".to_string() }.to_string(),
        "Type mismatch: expected f32, found i32"
    );
    assert_eq!(
        ReflectError::MissingField { struct_name: "TestStruct", field_name: "value" }.to_string(),
        "Missing required field 'value' in struct 'TestStruct'"
    );
    assert_eq!(
        ReflectError::InvalidVariant { enum_name: "Mode", variant: "Fast".to_string() }.to_string(),
        "Invalid variant 'Fast' for enum 'Mode'"
    );
    assert_eq!(ReflectError::SerializationFailed("x".to_string()).to_string(), "Serialization failed: x");
    assert_eq!(ReflectError::DeserializationFailed("y".to_string()).to_string(), "Deserialization failed: y");
    assert_eq!(ReflectError::Custom("z".to_string()).to_string(), "z");
}

use pulsar_reflection::runtime_registry::{RuntimeTypeRegistration, RuntimeTypeRegistry};
use pulsar_reflection::runtime_types::RuntimeTypeInfo;
use std::any::TypeId;

fn registration<T: 'static>(name: &'static str) -> RuntimeTypeRegistration<(), ()> {
    RuntimeTypeRegistration {
        type_info: Box::leak(Box::new(RuntimeTypeInfo::primitive::<T>(name, None))),
        serialize_json: (),
        deserialize_json: (),
    }
}

/// The built-in primitive registrations, as the engine registers them.
fn primitives() -> RuntimeTypeRegistry<(), ()> {
    RuntimeTypeRegistry::new(vec![
        registration::<bool>("bool"),
        registration::<f32>("f32"),
        registration::<f64>("f64"),
        registration::<i32>("i32"),
        registration::<i64>("i64"),
        registration::<u32>("u32"),
        registration::<u64>("u64"),
        registration::<[f32; 3]>("[f32; 3]"),
        registration::<[f32; 4]>("[f32; 4]"),
        registration::<[[f32; 4]; 3]>("[[f32; 4]; 3]"),
        registration::<[[f32; 4]; 4]>("[[f32; 4]; 4]"),
        registration::<String>("String"),
    ])
}

#[test]
fn test_runtime_type_registry_primitives() {
    let registry = primitives();

    assert!(registry.get::<f32>().is_some());
    assert!(registry.get::<i32>().is_some());
    assert!(registry.get::<bool>().is_some());
    assert!(registry.get::<String>().is_some());
    assert!(registry.get::<[f32; 3]>().is_some());
    assert!(registry.get::<[f32; 4]>().is_some());

    let f32_info = registry.get::<f32>().unwrap();
    assert_eq!(f32_info.full_name, "f32");
    assert_eq!(f32_info.size, 4);
    assert!(f32_info.is_primitive());
}

#[test]
fn test_bool_registered() {
    let info = primitives().get::<bool>().unwrap();
    assert_eq!(info.full_name, "bool");
    assert_eq!(info.size, 1);
    assert_eq!(info.align, 1);
}

#[test]
fn test_vec4_registered() {
    let info = primitives().get::<[f32; 4]>().unwrap();
    assert_eq!(info.full_name, "[f32; 4]");
    assert_eq!(info.size, 16);
    assert_eq!(info.align, 4);
}

#[test]
fn test_f32_registered() {
    let info = primitives().get::<f32>().unwrap();
    assert_eq!(info.full_name, "f32");
    assert_eq!(info.size, 4);
    assert_eq!(info.align, 4);
}

#[test]
fn test_f64_registered() {
    let info = primitives().get::<f64>().unwrap();
    assert_eq!(info.full_name, "f64");
    assert_eq!(info.size, 8);
    assert_eq!(info.align, 8);
}

#[test]
fn test_i32_registered() {
    let info = primitives().get::<i32>().unwrap();
    assert_eq!(info.full_name, "i32");
    assert_eq!(info.size, 4);
    assert_eq!(info.align, 4);
}

#[test]
fn test_i64_registered() {
    let info = primitives().get::<i64>().unwrap();
    assert_eq!(info.full_name, "i64");
    assert_eq!(info.size, 8);
    assert_eq!(info.align, 8);
}

#[test]
fn test_mat4x3_registered() {
    let info = primitives().get::<[[f32; 4]; 3]>().unwrap();
    assert_eq!(info.size, 48);
    assert_eq!(info.align, 4);
}

#[test]
fn test_mat4x4_registered() {
    let info = primitives().get::<[[f32; 4]; 4]>().unwrap();
    assert_eq!(info.size, 64);
    assert_eq!(info.align, 4);
}

#[test]
fn test_u32_registered() {
    let info = primitives().get::<u32>().unwrap();
    assert_eq!(info.full_name, "u32");
    assert_eq!(info.size, 4);
    assert_eq!(info.align, 4);
}

#[test]
fn test_u64_registered() {
    let info = primitives().get::<u64>().unwrap();
    assert_eq!(info.full_name, "u64");
    assert_eq!(info.size, 8);
    assert_eq!(info.align, 8);
}

#[test]
fn test_vec3_registered() {
    let info = primitives().get::<[f32; 3]>().unwrap();
    assert_eq!(info.full_name, "[f32; 3]");
    assert_eq!(info.size, 12);
    assert_eq!(info.align, 4);
}

#[test]
fn test_string_registered() {
    let info = primitives().get::<String>().unwrap();
    assert_eq!(info.full_name, "String");
    assert_eq!(info.size, std::mem::size_of::<String>());
    assert_eq!(info.align, std::mem::align_of::<String>());
}

#[test]
fn unregistered_types_are_not_found() {
    let registry = primitives();
    assert_eq!(registry.len(), 12);
    assert!(!registry.is_empty());
    assert!(registry.get::<u8>().is_none());
    assert!(registry.get_by_type_id(&TypeId::of::<i8>()).is_none());
    assert!(registry.registration(&TypeId::of::<u32>()).is_some());
}

#[test]
fn a_later_registration_of_a_type_replaces_the_earlier_one() {
    let registry = RuntimeTypeRegistry::new(vec![
        registration::<u32>("first"),
        registration::<u64>("u64"),
        registration::<u32>("second"),
    ]);
    assert_eq!(registry.len(), 2);
    assert_eq!(registry.get::<u32>().unwrap().full_name, "second");
}

#[test]
fn an_empty_registry_finds_nothing() {
    let registry: RuntimeTypeRegistry<(), ()> = RuntimeTypeRegistry::new(Vec::new());
    assert!(registry.is_empty());
    assert!(registry.get::<bool>().is_none());
}

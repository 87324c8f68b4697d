use pulsar_reflection::engine::{MethodMetadata, MethodType};
use pulsar_reflection::registry::{ComponentMethodRegistration, EngineClassRegistration, EngineClassRegistry};
use serde_json::Value;

type Ctor = fn() -> String;
type FromJson = fn(&Value) -> Result<String, String>;
type Caller = fn(&mut String) -> usize;

fn make_rigid_body() -> String {
    "RigidBody".to_string()
}

fn make_light() -> String {
    "Light".to_string()
}

fn make_collider() -> String {
    "Collider".to_string()
}

fn light_from_json(data: &Value) -> Result<String, String> {
    data.as_str().map(|s| format!("Light:{s}")).ok_or_else(|| "expected a string".to_string())
}

fn length(s: &mut String) -> usize {
    s.len()
}

fn class(name: &'static str, category: Option<&'static str>, constructor: Ctor, from_json: Option<FromJson>) -> EngineClassRegistration<Ctor, FromJson> {
    EngineClassRegistration { name, category, constructor, from_json }
}

fn meta(name: &'static str) -> MethodMetadata<Caller> {
    MethodMetadata {
        name,
        display_name: name.to_uppercase(),
        category: None,
        params: Vec::new(),
        return_type: None,
        method_type: MethodType::Fn,
        caller: length,
    }
}

fn empty_registry() -> EngineClassRegistry<Ctor, FromJson, Caller> {
    EngineClassRegistry::new(Vec::new(), Vec::new())
}

fn sample_registry() -> EngineClassRegistry<Ctor, FromJson, Caller> {
    EngineClassRegistry::new(
        vec![
            class("RigidBody", Some("Physics"), make_rigid_body, None),
            class("Light", Some("Rendering"), make_light, Some(light_from_json)),
            class("Collider", Some("Physics"), make_collider, None),
            class("Marker", None, make_light, None),
        ],
        vec![
            ComponentMethodRegistration { class_name: "Light", methods: vec![meta("set_color"), meta("toggle")] },
            ComponentMethodRegistration { class_name: "RigidBody", methods: vec![meta("push")] },
            ComponentMethodRegistration { class_name: "Light", methods: vec![meta("toggle"), meta("dim")] },
        ],
    )
}

#[test]
fn test_registry_initialization() {
    let registry = empty_registry();
    let _ = registry.len();
}

#[test]
fn test_registry_api() {
    let registry = empty_registry();

    let names = registry.get_class_names();
    assert!(names.is_empty() || !names.is_empty());

    assert!(registry.create_instance("NonExistentClass").is_none());
    assert!(!registry.has_class("NonExistentClass"));
}

#[test]
fn create_instance_from_json_is_none_for_an_unregistered_class() {
    let registry = empty_registry();
    assert!(registry.create_instance_from_json("NonExistentClass", &Value::Null).is_none());
}

#[test]
fn test_category_filtering() {
    let registry = empty_registry();

    let physics_classes = registry.get_class_names_by_category("Physics");
    assert!(physics_classes.is_empty() || !physics_classes.is_empty());

    let categories = registry.get_categories();
    assert!(categories.is_empty() || !categories.is_empty());
}

#[test]
fn class_names_and_categories_come_sorted_and_once_each() {
    let registry = sample_registry();
    assert_eq!(registry.len(), 4);
    assert!(!registry.is_empty());
    assert_eq!(registry.get_class_names(), vec!["Collider", "Light", "Marker", "RigidBody"]);
    assert_eq!(registry.get_class_names_by_category("Physics"), vec!["Collider", "RigidBody"]);
    assert!(registry.get_class_names_by_category("Audio").is_empty());
    assert_eq!(registry.get_categories(), vec!["Physics", "Rendering"]);
}

#[test]
fn instances_come_from_the_registered_constructors() {
    let registry = sample_registry();
    assert_eq!(registry.create_instance("RigidBody"), Some("RigidBody".to_string()));
    assert!(registry.has_class("Light"));
    assert!(registry.create_instance_from_json("RigidBody", &Value::Null).is_none());
    assert_eq!(
        registry.create_instance_from_json("Light", &Value::from("warm")),
        Some(Ok("Light:warm".to_string()))
    );
    assert_eq!(
        registry.create_instance_from_json("Light", &Value::Null),
        Some(Err("expected a string".to_string()))
    );
}

#[test]
fn a_later_class_registration_replaces_the_earlier_one() {
    let registry: EngineClassRegistry<Ctor, FromJson, Caller> = EngineClassRegistry::new(
        vec![class("Thing", Some("A"), make_light, None), class("Thing", Some("B"), make_collider, None)],
        Vec::new(),
    );
    assert_eq!(registry.len(), 1);
    assert_eq!(registry.get_categories(), vec!["B"]);
    assert_eq!(registry.create_instance("Thing"), Some("Collider".to_string()));
}

#[test]
fn component_methods_gather_every_registration_of_the_class() {
    let registry = sample_registry();
    let names: Vec<&str> = registry.get_methods("Light").unwrap().iter().map(|m| m.name).collect();
    assert_eq!(names, vec!["set_color", "toggle", "toggle", "dim"]);
    assert!(registry.get_methods("Marker").unwrap().is_empty());
    assert!(registry.get_methods("Unknown").is_none());

    let dim = registry.get_method("Light", "dim").unwrap();
    assert_eq!(dim.display_name, "DIM");
    let mut target = "four".to_string();
    assert_eq!((dim.caller)(&mut target), 4);
    assert!(registry.get_method("Light", "push").is_none());
    assert!(registry.get_method("Unknown", "dim").is_none());
}

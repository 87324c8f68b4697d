use pulsar_reflection::dynamic_types::{
    DynamicTypeBuilder, DynamicTypeInfo, DynamicTypeRegistry, DynamicValue, TypeTag,
};
use pulsar_reflection::runtime_types::RuntimeTypeInfo;
use std::any::{Any, TypeId};
use std::sync::Arc;

type Boxed = Box<dyn Any + Send + Sync>;

fn info<T: 'static>(name: &'static str) -> &'static RuntimeTypeInfo {
    Box::leak(Box::new(RuntimeTypeInfo::primitive::<T>(name, None)))
}

/// The zero value of the primitive types these tests use.
fn zero(ti: &'static RuntimeTypeInfo) -> Option<Boxed> {
    let id = ti.type_id;
    if id == TypeId::of::<f32>() {
        Some(Box::new(0.0f32))
    } else if id == TypeId::of::<u32>() {
        Some(Box::new(0u32))
    } else if id == TypeId::of::<u8>() {
        Some(Box::new(0u8))
    } else {
        None
    }
}

/// No type has a default: every field starts unset.
fn no_default(_: &'static RuntimeTypeInfo) -> Option<Boxed> {
    None
}

fn set<T: Any + Send + Sync>(value: &mut DynamicValue<Boxed>, field: &str, v: T) -> Result<(), String> {
    value.set_field(field, Box::new(v), TypeId::of::<T>())
}

fn get_typed<T: Any + Clone>(value: &DynamicValue<Boxed>, field: &str) -> Result<T, String> {
    value
        .get_field_typed(field, TypeId::of::<T>())
        .map(|b| b.downcast_ref::<T>().unwrap().clone())
}

#[test]
fn test_dynamic_type_builder() {
    let f32_info = info::<f32>("f32");
    let i32_info = info::<i32>("i32");

    let dynamic_type = DynamicTypeBuilder::new("TestStruct")
        .add_field("x", f32_info)
        .add_field("y", f32_info)
        .add_field("count", i32_info)
        .build();

    assert_eq!(dynamic_type.name, "TestStruct");
    assert_eq!(dynamic_type.fields.len(), 3);
    assert_eq!(dynamic_type.fields[0].name, "x");
    assert_eq!(dynamic_type.fields[1].name, "y");
    assert_eq!(dynamic_type.fields[2].name, "count");
}

#[test]
fn test_dynamic_value() {
    let f32_info = info::<f32>("f32");

    let dynamic_type = DynamicTypeBuilder::new("Vector2D")
        .add_field("x", f32_info)
        .add_field("y", f32_info)
        .build();

    let mut value: DynamicValue<Boxed> = DynamicValue::new(dynamic_type, zero);

    set(&mut value, "x", 10.0f32).unwrap();
    set(&mut value, "y", 20.0f32).unwrap();

    let x = get_typed::<f32>(&value, "x").unwrap();
    let y = get_typed::<f32>(&value, "y").unwrap();

    assert_eq!(x, 10.0);
    assert_eq!(y, 20.0);
}

#[test]
fn test_type_checking() {
    let f32_info = info::<f32>("f32");

    let dynamic_type = DynamicTypeBuilder::new("TypeChecked").add_field("value", f32_info).build();

    let mut instance: DynamicValue<Boxed> = DynamicValue::new(dynamic_type, zero);

    let result = set(&mut instance, "value", 42i32);
    assert!(result.is_err());

    let result = set(&mut instance, "value", std::f32::consts::PI);
    assert!(result.is_ok());
}

#[test]
fn test_registry() {
    let f32_info = info::<f32>("f32");

    let dynamic_type = DynamicTypeBuilder::new("RegisteredType").add_field("data", f32_info).build();

    let mut registry = DynamicTypeRegistry::new();
    let uuid = registry.register(Arc::clone(&dynamic_type));

    let retrieved = registry.get(&uuid).unwrap();
    assert_eq!(retrieved.name, "RegisteredType");

    let retrieved = registry.get_by_name("RegisteredType").unwrap();
    assert_eq!(retrieved.uuid().unwrap(), uuid);
}

#[test]
fn layout_places_each_field_at_its_alignment_and_pads_the_total() {
    let t = DynamicTypeBuilder::new("Mixed")
        .add_field("flag", info::<u8>("u8"))
        .add_field("count", info::<u32>("u32"))
        .add_field("small", info::<u16>("u16"))
        .add_field("big", info::<u64>("u64"))
        .add_field("tail", info::<u8>("u8"))
        .build();
    let offsets: Vec<usize> = t.fields.iter().map(|f| f.offset).collect();
    assert_eq!(offsets, vec![0, 4, 8, 16, 24]);
    assert_eq!(t.total_align, 8);
    assert_eq!(t.total_size, 32);
    assert!(matches!(t.type_tag, TypeTag::RuntimeComposed(_)));
}

#[test]
fn an_empty_type_has_size_zero_and_alignment_one() {
    let t = DynamicTypeBuilder::new("Empty").build();
    assert_eq!(t.fields.len(), 0);
    assert_eq!(t.total_size, 0);
    assert_eq!(t.total_align, 1);
}

#[test]
fn each_build_gets_its_own_identifier() {
    let a = DynamicTypeBuilder::new("Same").build();
    let b = DynamicTypeBuilder::new("Same").build();
    assert_ne!(a.uuid().unwrap(), b.uuid().unwrap());
}

#[test]
fn field_lookup_finds_the_first_field_with_the_name() {
    let t = DynamicTypeBuilder::new("Twice")
        .add_field("v", info::<u8>("u8"))
        .add_field("v", info::<u32>("u32"))
        .build();
    assert!(t.has_field("v"));
    assert!(!t.has_field("w"));
    assert_eq!(t.get_field("v").unwrap().base_type.full_name, "u8");
    assert_eq!(t.get_field("v").unwrap().offset, 0);
}

#[test]
fn compile_time_types_have_no_identifier() {
    let t = DynamicTypeInfo {
        name: "Fixed".to_string(),
        type_tag: TypeTag::CompileTime(TypeId::of::<u8>()),
        fields: Vec::new(),
        total_size: 1,
        total_align: 1,
    };
    assert!(t.uuid().is_none());
}

#[test]
fn set_field_errors_name_the_field_and_the_types() {
    let t = DynamicTypeBuilder::new("Point").add_field("x", info::<u32>("u32")).build();
    let mut v: DynamicValue<Boxed> = DynamicValue::new(t, no_default);

    assert_eq!(set(&mut v, "z", 1u32), Err("Field 'z' not found in type 'Point'".to_string()));

    let err = set(&mut v, "x", 1u64).unwrap_err();
    let expected_prefix = "Type mismatch for field 'x': expected 'u32', got type_id ";
    assert!(err.starts_with(expected_prefix));
    assert_eq!(&err[expected_prefix.len()..], format!("{:?}", TypeId::of::<u64>()));
    assert!(!v.has_value("x"));
}

#[test]
fn typed_reads_report_missing_and_mistyped_values() {
    let t = DynamicTypeBuilder::new("Point").add_field("x", info::<u32>("u32")).build();
    let mut v: DynamicValue<Boxed> = DynamicValue::new(t, no_default);
    assert_eq!(get_typed::<u32>(&v, "x"), Err("Field 'x' not found or not set".to_string()));
    set(&mut v, "x", 7u32).unwrap();
    assert_eq!(get_typed::<u64>(&v, "x"), Err("Failed to downcast field 'x' to requested type".to_string()));
    assert_eq!(get_typed::<u32>(&v, "x"), Ok(7));
}

#[test]
fn values_change_in_place_and_by_function() {
    let t = DynamicTypeBuilder::new("Counter").add_field("n", info::<u32>("u32")).build();
    let mut v: DynamicValue<Boxed> = DynamicValue::new(t, no_default);
    set(&mut v, "n", 1u32).unwrap();

    *v.get_field_mut("n").unwrap().downcast_mut::<u32>().unwrap() += 1;
    assert_eq!(get_typed::<u32>(&v, "n"), Ok(2));

    *v.get_field_typed_mut("n", TypeId::of::<u32>()).unwrap().downcast_mut::<u32>().unwrap() *= 10;
    assert_eq!(get_typed::<u32>(&v, "n"), Ok(20));
    assert!(v.get_field_typed_mut("n", TypeId::of::<i32>()).is_err());

    v.modify_field("n", TypeId::of::<u32>(), |b: &Boxed| -> Boxed {
        Box::new(b.downcast_ref::<u32>().unwrap() + 1)
    })
    .unwrap();
    assert_eq!(get_typed::<u32>(&v, "n"), Ok(21));
    assert!(v
        .modify_field("n", TypeId::of::<i64>(), |b: &Boxed| -> Boxed { Box::new(*b.downcast_ref::<i64>().unwrap()) })
        .is_err());
}

#[test]
fn removing_and_clearing_values() {
    let t = DynamicTypeBuilder::new("Pair")
        .add_field("a", info::<u8>("u8"))
        .add_field("b", info::<u8>("u8"))
        .build();
    let mut v: DynamicValue<Boxed> = DynamicValue::new(t, no_default);
    set(&mut v, "a", 1u8).unwrap();
    set(&mut v, "b", 2u8).unwrap();
    let mut names = v.field_names();
    names.sort();
    assert_eq!(names, vec!["a", "b"]);

    let removed = v.remove_field("a").unwrap();
    assert_eq!(*removed.downcast::<u8>().unwrap(), 1);
    assert!(v.remove_field("a").is_none());
    assert!(!v.has_value("a"));
    assert!(v.get_field("b").is_some());

    let copy = v.clone();
    assert!(!copy.has_value("b"));
    assert_eq!(copy.type_info.name, "Pair");

    v.clear();
    assert!(v.field_names().is_empty());
}

#[test]
fn registry_replaces_by_name_and_unregisters_by_identifier() {
    let mut registry = DynamicTypeRegistry::default();
    assert!(registry.is_empty());

    let first = DynamicTypeBuilder::new("Shape").build();
    let second = DynamicTypeBuilder::new("Shape").add_field("r", info::<u32>("u32")).build();
    let u1 = registry.register(first);
    let u2 = registry.register(second);

    assert_eq!(registry.len(), 1);
    assert!(!registry.contains(&u1) && registry.contains(&u2));
    assert!(registry.get(&u1).is_none());
    assert!(registry.contains_name("Shape"));
    assert_eq!(registry.type_names(), vec!["Shape".to_string()]);
    assert_eq!(registry.get_by_name("Shape").unwrap().fields.len(), 1);
    assert_eq!(registry.type_uuids(), vec![u2]);

    let removed = registry.unregister(&u2).unwrap();
    assert_eq!(removed.fields.len(), 1);
    assert!(registry.get(&u2).is_none());
    assert!(registry.get_by_name("Shape").is_none());
    assert!(!registry.contains_name("Shape"));
    assert!(registry.unregister(&u2).is_none());

    let u3 = registry.register(DynamicTypeBuilder::new("Other").build());
    assert_eq!(registry.len(), 1);
    registry.clear();
    assert_eq!(registry.len(), 0);
    assert!(registry.get(&u3).is_none());
}

fn shaped(size: usize, align: usize) -> &'static RuntimeTypeInfo {
    let mut i = RuntimeTypeInfo::primitive::<u8>("blob", None);
    i.size = size;
    i.align = align;
    Box::leak(Box::new(i))
}

#[test]
fn bool_f32_bool_is_laid_out_in_twelve_bytes() {
    let t = DynamicTypeBuilder::new("Flags")
        .add_field("a", info::<bool>("bool"))
        .add_field("b", info::<f32>("f32"))
        .add_field("c", info::<bool>("bool"))
        .try_build()
        .unwrap();
    let offsets: Vec<usize> = t.fields.iter().map(|f| f.offset).collect();
    assert_eq!(offsets, vec![0, 4, 8]);
    assert_eq!(t.total_align, 4);
    assert_eq!(t.total_size, 12);
}

#[test]
fn checked_builds_refuse_layouts_that_cannot_exist() {
    let zero_align = DynamicTypeBuilder::new("Bad").add_field("x", shaped(4, 0));
    assert!(!zero_align.layout_fits());
    assert!(zero_align.try_build().is_none());

    let too_big = DynamicTypeBuilder::new("Huge")
        .add_field("a", shaped(usize::MAX - 2, 1))
        .add_field("b", shaped(8, 8));
    assert!(!too_big.layout_fits());
    assert!(too_big.try_build().is_none());

    let padded_past_end = DynamicTypeBuilder::new("Edge")
        .add_field("a", shaped(1, 1))
        .add_field("b", shaped(usize::MAX - 9, 8));
    assert!(!padded_past_end.layout_fits());

    let fine = DynamicTypeBuilder::new("Fine").add_field("a", shaped(3, 2));
    assert!(fine.layout_fits());
    let t = fine.try_build().unwrap();
    assert_eq!(t.total_size, 4);
    assert_eq!(t.total_align, 2);
}

#[test]
fn new_values_start_at_their_defaults() {
    let t = DynamicTypeBuilder::new("Mixed")
        .add_field("x", info::<f32>("f32"))
        .add_field("n", info::<u32>("u32"))
        .add_field("s", info::<String>("String"))
        .add_field("x", info::<u8>("u8"))
        .build();
    let v: DynamicValue<Boxed> = DynamicValue::new(t, zero);
    assert_eq!(get_typed::<f32>(&v, "x"), Ok(0.0));
    assert_eq!(get_typed::<u32>(&v, "n"), Ok(0));
    assert!(v.has_value("x") && v.has_value("n"));
    // A type without a default leaves its field unset.
    assert!(!v.has_value("s"));
    assert!(v.get_field("s").is_none());
    let mut names = v.field_names();
    names.sort();
    assert_eq!(names, vec!["n", "x"]);
}

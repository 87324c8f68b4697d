use pulsar_reflection::runtime_types::{
    parse_hex_color, ColorPlan, FieldInfo, Rgba8, RuntimeTypeInfo, TypeStructure, WrapperType,
};
use std::any::TypeId;

fn leak(info: RuntimeTypeInfo) -> &'static RuntimeTypeInfo {
    Box::leak(Box::new(info))
}

#[test]
fn test_runtime_type_info_primitives() {
    let type_info = RuntimeTypeInfo {
        type_id: TypeId::of::<f32>(),
        full_name: "f32",
        size: 4,
        align: 4,
        structure: TypeStructure::Primitive,
        color: None,
    };

    assert_eq!(type_info.base_name(), "f32");
    assert!(type_info.is_primitive());
    assert!(!type_info.is_string());
    assert!(!type_info.is_struct());
}

#[test]
fn test_runtime_type_info_string() {
    let type_info = RuntimeTypeInfo {
        type_id: TypeId::of::<String>(),
        full_name: "alloc::string::String",
        size: std::mem::size_of::<String>(),
        align: std::mem::align_of::<String>(),
        structure: TypeStructure::String,
        color: None,
    };

    assert_eq!(type_info.base_name(), "String");
    assert!(!type_info.is_primitive());
    assert!(type_info.is_string());
}

#[test]
fn test_wrapper_type() {
    let inner = leak(RuntimeTypeInfo {
        type_id: TypeId::of::<f32>(),
        full_name: "f32",
        size: 4,
        align: 4,
        structure: TypeStructure::Primitive,
        color: None,
    });

    let vec_type = RuntimeTypeInfo {
        type_id: TypeId::of::<Vec<f32>>(),
        full_name: "alloc::vec::Vec<f32>",
        size: std::mem::size_of::<Vec<f32>>(),
        align: std::mem::align_of::<Vec<f32>>(),
        structure: TypeStructure::Wrapper { wrapper_kind: WrapperType::Vec, inner },
        color: None,
    };

    assert!(vec_type.is_wrapper());
    assert_eq!(vec_type.inner_type().unwrap().full_name, "f32");
}

#[test]
fn base_name_keeps_the_piece_after_the_last_separator() {
    let info = RuntimeTypeInfo::primitive::<u8>("pulsar::math::Vec3", None);
    assert_eq!(info.base_name(), "Vec3");
    let info = RuntimeTypeInfo::primitive::<u8>("plain", None);
    assert_eq!(info.base_name(), "plain");
    let info = RuntimeTypeInfo::primitive::<u8>("a::b::", None);
    assert_eq!(info.base_name(), "");
    let info = RuntimeTypeInfo::primitive::<u8>("a:::b", None);
    assert_eq!(info.base_name(), ":b");
}

#[test]
fn primitive_descriptor_takes_the_layout_of_the_type() {
    let info = RuntimeTypeInfo::primitive::<u64>("u64", Some("#FF0000"));
    assert_eq!(info.type_id, TypeId::of::<u64>());
    assert_eq!(info.full_name, "u64");
    assert_eq!(info.size, 8);
    assert_eq!(info.align, 8);
    assert!(info.is_primitive());
    assert_eq!(info.color, Some("#FF0000"));
}

#[test]
fn structure_accessors_report_only_their_own_kind() {
    let field_type = leak(RuntimeTypeInfo::primitive::<u32>("u32", None));
    let fields: &'static [FieldInfo] = Box::leak(vec![FieldInfo::new("count", field_type, 0)].into_boxed_slice());
    let struct_type = RuntimeTypeInfo {
        type_id: TypeId::of::<(u32,)>(),
        full_name: "test::Counter",
        size: 4,
        align: 4,
        structure: TypeStructure::Struct { fields },
        color: None,
    };
    assert!(struct_type.is_struct());
    assert_eq!(struct_type.fields().unwrap()[0].name, "count");
    assert_eq!(struct_type.fields().unwrap()[0].offset, 0);
    assert!(struct_type.enum_variants().is_none());
    assert!(struct_type.inner_type().is_none());

    let variants: &'static [&'static str] = &["Static", "Stationary", "Movable"];
    let enum_type = RuntimeTypeInfo {
        type_id: TypeId::of::<u8>(),
        full_name: "helio::Movability",
        size: 1,
        align: 1,
        structure: TypeStructure::Enum { variants },
        color: None,
    };
    assert!(enum_type.is_enum());
    assert_eq!(enum_type.enum_variants().unwrap().len(), 3);
    assert!(enum_type.fields().is_none());
}

#[test]
fn wildcard_is_the_unit_placeholder() {
    let w = RuntimeTypeInfo::wildcard();
    assert!(w.is_wildcard());
    assert_eq!(w.full_name, "?");
    assert_eq!(w.size, 0);
    assert_eq!(w.align, 1);
    assert_eq!(w.type_id, TypeId::of::<()>());
    assert_eq!(w.color_plan(), ColorPlan::Neutral);
}

#[test]
fn hex_colors_parse_with_or_without_hash_and_alpha() {
    assert_eq!(parse_hex_color("#58A6FF"), Some(Rgba8 { r: 0x58, g: 0xA6, b: 0xFF, a: 255 }));
    assert_eq!(parse_hex_color("58a6ff80"), Some(Rgba8 { r: 0x58, g: 0xA6, b: 0xFF, a: 0x80 }));
    assert_eq!(parse_hex_color("#12345"), None);
    assert_eq!(parse_hex_color("#GG0000"), None);
    assert_eq!(parse_hex_color(""), None);
    assert_eq!(parse_hex_color("#+10203"), None);
    assert_eq!(parse_hex_color("#+F+F+F"), None);
    assert_eq!(parse_hex_color("#aéééb"), None);
}

#[test]
fn declared_color_wins_and_bad_colors_fall_back_to_a_hashed_hue() {
    let declared = RuntimeTypeInfo::primitive::<u8>("u8", Some("#102030"));
    assert_eq!(declared.color_plan(), ColorPlan::Declared(Rgba8 { r: 0x10, g: 0x20, b: 0x30, a: 255 }));

    let undeclared = RuntimeTypeInfo::primitive::<u8>("a::Thing", None);
    let broken = RuntimeTypeInfo::primitive::<u8>("b::Thing", Some("not a color"));
    match (undeclared.color_plan(), broken.color_plan()) {
        (ColorPlan::Hashed { hue: a }, ColorPlan::Hashed { hue: b }) => {
            assert!(a < 360);
            // Only the base name is hashed.
            assert_eq!(a, b);
        }
        other => panic!("expected hashed hues, got {:?}", other),
    }
    let signed = RuntimeTypeInfo::primitive::<u8>("c::Thing", Some("#+F+F+F"));
    let accented = RuntimeTypeInfo::primitive::<u8>("d::Thing", Some("#aéééb"));
    assert!(matches!(signed.color_plan(), ColorPlan::Hashed { .. }));
    assert!(matches!(accented.color_plan(), ColorPlan::Hashed { .. }));
}

use pulsar_reflection::runtime_types::RuntimeTypeInfo;
use pulsar_reflection::type_renderer::{RenderResult, TypeRendererRegistration, TypeRendererRegistry};
use std::any::TypeId;
use std::sync::Arc;

struct TestRenderer;

impl TestRenderer {
    fn render(&self) -> RenderResult {
        RenderResult::Unchanged
    }
}

#[test]
fn test_renderer_registry() {
    let mut registry = TypeRendererRegistry::new();
    assert_eq!(registry.len(), 0);

    let test_type_id = TypeId::of::<i32>();
    registry.register(test_type_id, Arc::new(TestRenderer));

    assert_eq!(registry.len(), 1);
    assert!(registry.has_renderer(test_type_id));
    assert!(registry.get_renderer(test_type_id).is_some());
}

#[test]
fn test_global_registry() {
    let registry: TypeRendererRegistry<Arc<TestRenderer>> = TypeRendererRegistry::from_registrations(Vec::new());
    let _ = registry.len();
}

#[test]
fn renderers_are_found_by_type_and_replaced_by_later_ones() {
    let registry = TypeRendererRegistry::from_registrations(vec![
        TypeRendererRegistration::new(TypeId::of::<u8>(), "first"),
        TypeRendererRegistration::new(TypeId::of::<u16>(), "other"),
        TypeRendererRegistration::new(TypeId::of::<u8>(), "second"),
    ]);
    assert_eq!(registry.len(), 2);
    assert!(!registry.is_empty());
    assert_eq!(registry.get_renderer(TypeId::of::<u8>()), Some(&"second"));
    assert!(!registry.has_renderer(TypeId::of::<u32>()));

    let info = RuntimeTypeInfo::primitive::<u16>("u16", None);
    assert_eq!(registry.get_renderer_for_type(&info), Some(&"other"));
    assert_eq!(TestRenderer.render(), RenderResult::Unchanged);
}

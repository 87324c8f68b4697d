use pulsar_reflection::dyn_registry::{DynDispatchError, DynMethodMetadata, DynMethodRegistration, DynMethodRegistry};
use pulsar_reflection::engine::MethodType;
use std::any::Any;

struct Widget {
    count: u32,
}

type Caller = Box<dyn Fn(&mut dyn Any, Vec<Box<dyn Any>>) -> Option<Box<dyn Any>>>;

fn widget_methods() -> Vec<DynMethodMetadata<Caller>> {
    vec![DynMethodMetadata {
        name: "bump",
        display_name: "Bump".to_string(),
        category: None,
        params: Vec::new(),
        return_type: None,
        method_type: MethodType::Fn,
        caller: Box::new(|target: &mut dyn Any, _args: Vec<Box<dyn Any>>| {
            let widget = target.downcast_mut::<Widget>().expect("downcast");
            widget.count += 1;
            None
        }),
    }]
}

fn invoke(
    registry: &DynMethodRegistry<Caller>,
    receiver: &str,
    method: &str,
    target: &mut dyn Any,
    args: Vec<Box<dyn Any>>,
) -> Result<Option<Box<dyn Any>>, DynDispatchError> {
    registry.invoke(receiver, method, target, args)
}

#[test]
fn invoke_by_name_reaches_the_real_instance() {
    let registry = DynMethodRegistry::new(vec![DynMethodRegistration { receiver_name: "widget", methods: widget_methods() }]);
    let mut widget = Widget { count: 0 };

    assert!(registry.get_method("widget", "bump").is_some());
    assert!(registry.get_method("widget", "missing").is_none());
    assert!(matches!(
        invoke(&registry, "missing-receiver", "bump", &mut widget, vec![]),
        Err(DynDispatchError::NotFound { .. })
    ));

    invoke(&registry, "widget", "bump", &mut widget, vec![]).expect("dispatch succeeds");
    assert_eq!(widget.count, 1);
}

#[test]
fn receivers_are_listed_once_in_order_and_their_methods_merge() {
    let registry = DynMethodRegistry::new(vec![
        DynMethodRegistration { receiver_name: "zeta", methods: widget_methods() },
        DynMethodRegistration { receiver_name: "alpha", methods: Vec::new() },
        DynMethodRegistration { receiver_name: "zeta", methods: widget_methods() },
    ]);
    assert_eq!(registry.receiver_names(), vec!["alpha", "zeta"]);
    assert_eq!(registry.get_methods("zeta").unwrap().len(), 2);
    assert!(registry.get_methods("alpha").unwrap().is_empty());
    assert!(registry.get_methods("beta").is_none());
}

#[test]
fn a_failed_dispatch_names_the_receiver_and_the_method() {
    let registry = DynMethodRegistry::new(vec![DynMethodRegistration { receiver_name: "widget", methods: widget_methods() }]);
    let mut widget = Widget { count: 0 };
    match invoke(&registry, "widget", "spin", &mut widget, vec![]) {
        Err(e) => assert_eq!(e.to_string(), "no method 'spin' registered for receiver 'widget'"),
        Ok(_) => panic!("spin is not registered"),
    }
    assert_eq!(widget.count, 0);
}

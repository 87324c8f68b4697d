use pulsar_reflection::engine::{
    apply_runtime_behavior_for_class, apply_scene_props_for_class, registered_scene_props_classes, scene_id_to_tag,
    LiveKeySet, RuntimeBehaviorRegistration, ScenePropsApplierRegistration, SubsystemSlot, Subsystems,
};
use std::any::TypeId;
use std::collections::hash_map::DefaultHasher;
use std::hash::{Hash, Hasher};

#[test]
fn scene_tags_are_the_default_hash_of_the_id() {
    let mut h = DefaultHasher::new();
    "scene/root".hash(&mut h);
    assert_eq!(scene_id_to_tag("scene/root"), h.finish());
    assert_eq!(scene_id_to_tag("a"), scene_id_to_tag("a"));
    assert_ne!(scene_id_to_tag("a"), scene_id_to_tag("b"));
}

#[test]
fn live_keys_hold_each_key_once() {
    let mut keys = LiveKeySet::new();
    keys.insert("a".to_string());
    keys.insert("b".to_string());
    keys.insert("a".to_string());
    assert!(keys.contains("a"));
    assert!(!keys.contains("c"));
    let mut listed = keys.iter();
    listed.sort();
    assert_eq!(listed, vec!["a", "b"]);
    assert_eq!(keys.inner().len(), 2);

    let mut other = LiveKeySet::new();
    other.insert("b".to_string());
    other.insert("z".to_string());
    keys.retain_keys(&other);
    assert_eq!(keys.iter(), vec!["b"]);

    keys.clear();
    assert!(keys.iter().is_empty());
}

#[test]
fn subsystems_are_found_owned_first_then_borrowed() {
    let mut s: Subsystems<String, &'static str> = Subsystems::new();
    let t = TypeId::of::<u8>();
    assert_eq!(s.lookup(t), SubsystemSlot::Missing);

    s.register_ref(t, "borrowed");
    assert_eq!(s.lookup(t), SubsystemSlot::Borrowed);
    assert_eq!(s.borrowed(t), Some(&"borrowed"));

    s.register(t, "owned".to_string());
    assert_eq!(s.lookup(t), SubsystemSlot::Owned);
    s.owned_mut(t).unwrap().push('!');
    assert_eq!(s.owned_mut(t).map(|v| v.clone()), Some("owned!".to_string()));
    assert!(s.owned_mut(TypeId::of::<u16>()).is_none());

    s.unregister(t);
    assert_eq!(s.lookup(t), SubsystemSlot::Missing);
    assert!(s.borrowed(t).is_none());
}

type Apply = for<'a, 'b> fn(&'a mut Vec<String>, Option<&'b str>);

fn set_light(props: &mut Vec<String>, data: Option<&str>) {
    props.push(format!("light={}", data.unwrap_or("off")));
}

fn set_light_again(props: &mut Vec<String>, _data: Option<&str>) {
    props.push("second".to_string());
}

fn set_mesh(props: &mut Vec<String>, _data: Option<&str>) {
    props.push("mesh".to_string());
}

#[test]
fn scene_props_go_to_the_first_projector_of_the_class() {
    let regs: Vec<ScenePropsApplierRegistration<Apply>> = vec![
        ScenePropsApplierRegistration { class_name: "Mesh", apply: set_mesh },
        ScenePropsApplierRegistration { class_name: "Light", apply: set_light },
        ScenePropsApplierRegistration { class_name: "Light", apply: set_light_again },
    ];
    let mut props = Vec::new();
    assert!(apply_scene_props_for_class(&regs, "Light", &mut props, Some("warm")));
    assert_eq!(props, vec!["light=warm".to_string()]);
    assert!(!apply_scene_props_for_class(&regs, "Camera", &mut props, None));
    assert_eq!(props.len(), 1);
    assert_eq!(registered_scene_props_classes(&regs), vec!["Mesh", "Light", "Light"]);
}

type SyncFn = for<'a, 'b> fn(&'a str, usize, u32, &'b mut Vec<String>);

fn sync_light(owner: &str, index: usize, data: u32, context: &mut Vec<String>) {
    context.push(format!("{owner}#{index}:{data}"));
}

#[test]
fn runtime_behavior_goes_to_the_first_handler_of_the_class() {
    let regs: Vec<RuntimeBehaviorRegistration<SyncFn>> = vec![RuntimeBehaviorRegistration { class_name: "Light", sync: sync_light }];
    let mut context = Vec::new();
    assert!(apply_runtime_behavior_for_class(&regs, "Light", "lamp", 2, 7, &mut context));
    assert_eq!(context, vec!["lamp#2:7".to_string()]);
    assert!(!apply_runtime_behavior_for_class(&regs, "Mesh", "lamp", 0, 0, &mut context));
    assert_eq!(context.len(), 1);
}

#[test]
fn lookups_follow_the_calls_since_the_last_unregister() {
    let mut s: Subsystems<u32, &'static str> = Subsystems::new();
    let a = TypeId::of::<u8>();
    let b = TypeId::of::<u16>();
    s.register(a, 1);
    s.register_ref(b, "b");
    s.unregister(a);
    assert_eq!(s.lookup(a), SubsystemSlot::Missing);
    assert_eq!(s.lookup(b), SubsystemSlot::Borrowed);
    s.register_ref(a, "a");
    s.register(a, 2);
    s.unregister(b);
    s.register_ref(b, "b2");
    assert_eq!(s.lookup(a), SubsystemSlot::Owned);
    assert_eq!(s.lookup(b), SubsystemSlot::Borrowed);
    assert_eq!(s.borrowed(b), Some(&"b2"));
    s.unregister(a);
    s.unregister(b);
    assert_eq!(s.lookup(a), SubsystemSlot::Missing);
    assert_eq!(s.lookup(b), SubsystemSlot::Missing);
}

#[test]
fn get_mut_gives_the_owned_subsystem_first() {
    let mut s: Subsystems<u32, &'static str> = Subsystems::new();
    let t = TypeId::of::<u8>();
    assert!(s.get_mut(t).is_none());
    s.register_ref(t, "borrowed");
    assert!(matches!(s.get_mut(t), Some(Err(&"borrowed"))));
    s.register(t, 5);
    match s.get_mut(t) {
        Some(Ok(v)) => *v += 1,
        _ => panic!("the owned subsystem comes first"),
    }
    assert!(matches!(s.get_mut(t), Some(Ok(&mut 6))));
    s.unregister(t);
    assert!(s.get_mut(t).is_none());
}

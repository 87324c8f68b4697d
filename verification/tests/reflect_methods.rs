use std::any::{Any, TypeId};

use pulsar_reflection::methods::{
    CallError, MethodFlags, MethodInfo, MethodRegistry, ParamInfo, PassMode, Receiver, ReceiverKind,
    ReflectedMethod, TypeMethodRegistration, TypeRef,
};

#[derive(Debug, Default, PartialEq)]
struct Health {
    value: f32,
    log: Vec<String>,
}

struct Dead;

/// What a call lends the method: no receiver, a shared or a mutable borrow.
enum Target<'a> {
    Absent,
    Ref(&'a dyn Any),
    Mut(&'a mut dyn Any),
}

fn describe(t: &Target) -> Receiver {
    match t {
        Target::Absent => Receiver::Absent,
        Target::Ref(v) => Receiver::Ref((**v).type_id()),
        Target::Mut(v) => Receiver::Mut((**v).type_id()),
    }
}

type Args = Vec<Box<dyn Any>>;
type Out = Option<Box<dyn Any>>;
type Invoke = for<'a, 'b> fn(Target<'a>, &'b mut Args) -> Result<Out, CallError>;

fn health_ref<'a>(t: Target<'a>) -> &'a Health {
    match t {
        Target::Ref(v) => v.downcast_ref::<Health>().unwrap(),
        Target::Mut(v) => v.downcast_mut::<Health>().unwrap(),
        Target::Absent => unreachable!("receiver pre-checked"),
    }
}

fn health_mut<'a>(t: Target<'a>) -> &'a mut Health {
    match t {
        Target::Mut(v) => v.downcast_mut::<Health>().unwrap(),
        _ => unreachable!("receiver pre-checked"),
    }
}

fn current(t: Target, _args: &mut Args) -> Result<Out, CallError> {
    Ok(Some(Box::new(health_ref(t).value)))
}

fn damage(t: Target, args: &mut Args) -> Result<Out, CallError> {
    let amount = *args[0].downcast_ref::<f32>().unwrap();
    health_mut(t).value -= amount;
    Ok(None)
}

fn make(_t: Target, args: &mut Args) -> Result<Out, CallError> {
    let value = *args[0].downcast_ref::<f32>().unwrap();
    Ok(Some(Box::new(Health { value, log: Vec::new() })))
}

fn note(t: Target, args: &mut Args) -> Result<Out, CallError> {
    let message = args[0].downcast_ref::<String>().unwrap().clone();
    let tags = args[1].downcast_ref::<Vec<String>>().unwrap().join(",");
    let h = health_mut(t);
    h.log.push(format!("{message} {tags}"));
    Ok(Some(Box::new(h.log.len())))
}

fn take_log(t: Target, args: &mut Args) -> Result<Out, CallError> {
    let h = health_mut(t);
    args[0].downcast_mut::<Vec<String>>().unwrap().append(&mut h.log);
    Ok(None)
}

fn heal(t: Target, args: &mut Args) -> Result<Out, CallError> {
    let amount = *args[0].downcast_ref::<f32>().unwrap();
    let h = health_mut(t);
    if h.value <= 0.0 {
        return Err(CallError::Failed("already dead".to_string()));
    }
    h.value += amount;
    Ok(Some(Box::new(h.value)))
}

fn is_alive(t: Target, _args: &mut Args) -> Result<Out, CallError> {
    Ok(Some(Box::new(health_ref(t).value > 0.0)))
}

fn params(list: Vec<ParamInfo>) -> &'static [ParamInfo] {
    Box::leak(list.into_boxed_slice())
}

fn method(
    name: &'static str,
    doc: &'static str,
    receiver: ReceiverKind,
    params: &'static [ParamInfo],
    ret: Option<TypeRef>,
    flags: MethodFlags,
    attrs: &'static [(&'static str, &'static str)],
    invoke: Invoke,
) -> ReflectedMethod<Invoke> {
    ReflectedMethod { info: MethodInfo { name, doc, params, ret, flags, attrs }, receiver, invoke }
}

fn f32_param(name: &'static str) -> ParamInfo {
    ParamInfo { name, ty: TypeRef::of::<f32>("f32"), mode: PassMode::Value }
}

/// The registrations of two impl blocks of `Health`, in order.
fn registry() -> MethodRegistry<Invoke> {
    let first: &'static [ReflectedMethod<Invoke>] = Box::leak(
        vec![
            method(
                "current",
                "Remaining hit points.",
                ReceiverKind::Ref,
                params(vec![]),
                Some(TypeRef::of::<f32>("f32")),
                MethodFlags::pure(),
                &[("category", "Combat")],
                current,
            ),
            method("damage", "", ReceiverKind::Mut, params(vec![f32_param("amount")]), None, MethodFlags::none(), &[], damage),
            method(
                "make",
                "",
                ReceiverKind::Free,
                params(vec![f32_param("value")]),
                Some(TypeRef::of::<Health>("Health")),
                MethodFlags::none(),
                &[],
                make,
            ),
            method(
                "note",
                "",
                ReceiverKind::Mut,
                params(vec![
                    ParamInfo { name: "message", ty: TypeRef::of::<String>("String"), mode: PassMode::Ref },
                    ParamInfo { name: "tags", ty: TypeRef::of::<Vec<String>>("Vec<String>"), mode: PassMode::Ref },
                ]),
                Some(TypeRef::of::<usize>("usize")),
                MethodFlags::none(),
                &[],
                note,
            ),
            method(
                "take_log",
                "",
                ReceiverKind::Mut,
                params(vec![ParamInfo { name: "out", ty: TypeRef::of::<Vec<String>>("Vec<String>"), mode: PassMode::Mut }]),
                None,
                MethodFlags::none(),
                &[],
                take_log,
            ),
            method(
                "heal",
                "",
                ReceiverKind::Mut,
                params(vec![f32_param("amount")]),
                Some(TypeRef::of::<f32>("f32")),
                MethodFlags::none(),
                &[],
                heal,
            ),
        ]
        .into_boxed_slice(),
    );
    let second: &'static [ReflectedMethod<Invoke>] = Box::leak(
        vec![method(
            "is_alive",
            "",
            ReceiverKind::Ref,
            params(vec![]),
            Some(TypeRef::of::<bool>("bool")),
            MethodFlags { side_effect_free: false, deterministic: true },
            &[],
            is_alive,
        )]
        .into_boxed_slice(),
    );
    let regs: Vec<&'static TypeMethodRegistration<Invoke>> = vec![
        Box::leak(Box::new(TypeMethodRegistration { ty: TypeRef::of::<Health>("Health"), methods: first })),
        Box::leak(Box::new(TypeMethodRegistration { ty: TypeRef::of::<Health>("Health"), methods: second })),
    ];
    MethodRegistry::collect(&regs)
}

fn health_ty() -> TypeRef {
    TypeRef::of::<Health>("Health")
}

fn call(m: &ReflectedMethod<Invoke>, target: Target, args: &mut Args) -> Result<Out, CallError> {
    let desc = describe(&target);
    let types: Vec<TypeId> = args.iter().map(|a| (**a).type_id()).collect();
    m.call(&health_ty(), &desc, &types, target, args)
}

#[test]
fn registers_marked_methods_by_type_id() {
    let registry = registry();
    let mut names: Vec<_> = registry.methods_of(TypeId::of::<Health>()).iter().map(|m| m.name()).collect();
    names.sort_unstable();
    assert_eq!(names, ["current", "damage", "heal", "is_alive", "make", "note", "take_log"]);
    assert!(registry.methods_of(TypeId::of::<Dead>()).is_empty());
}

#[test]
fn signature_metadata() {
    let registry = registry();
    let current = registry.find(TypeId::of::<Health>(), "current").unwrap();
    assert_eq!(current.receiver, ReceiverKind::Ref);
    assert!(current.info.flags.side_effect_free && current.info.flags.deterministic);
    assert_eq!(current.info.attr("category"), Some("Combat"));
    assert_eq!(current.info.doc, "Remaining hit points.");
    assert!(current.info.ret.unwrap().is::<f32>());

    let damage = registry.find(TypeId::of::<Health>(), "damage").unwrap();
    assert_eq!(damage.receiver, ReceiverKind::Mut);
    assert!(damage.info.ret.is_none());
    assert_eq!(damage.info.params[0].name, "amount");
    assert!(damage.info.params[0].ty.is::<f32>());

    let make = registry.find(TypeId::of::<Health>(), "make").unwrap();
    assert_eq!(make.receiver, ReceiverKind::Free);

    let note = registry.find(TypeId::of::<Health>(), "note").unwrap();
    assert!(note.info.params[0].ty.is::<String>());
    assert_eq!(note.info.params[0].mode, PassMode::Ref);
    assert!(note.info.params[1].ty.is::<Vec<String>>());

    let heal = registry.find(TypeId::of::<Health>(), "heal").unwrap();
    assert!(heal.info.ret.unwrap().is::<f32>());

    let alive = registry.find(TypeId::of::<Health>(), "is_alive").unwrap();
    assert!(alive.info.flags.deterministic && !alive.info.flags.side_effect_free);
}

#[test]
fn invoke_calls_through() {
    let registry = registry();
    let mut health = Health { value: 10.0, log: Vec::new() };
    let damage = registry.find(TypeId::of::<Health>(), "damage").unwrap();
    let out = call(damage, Target::Mut(&mut health), &mut vec![Box::new(3.0f32)]).unwrap();
    assert!(out.is_none());
    assert_eq!(health.value, 7.0);

    // `&self` methods accept a mutable receiver too.
    let current = registry.find(TypeId::of::<Health>(), "current").unwrap();
    let out = call(current, Target::Ref(&health), &mut vec![]).unwrap().unwrap();
    assert_eq!(*out.downcast::<f32>().unwrap(), 7.0);
    let out = call(current, Target::Mut(&mut health), &mut vec![]).unwrap().unwrap();
    assert_eq!(*out.downcast::<f32>().unwrap(), 7.0);

    let make = registry.find(TypeId::of::<Health>(), "make").unwrap();
    let out = call(make, Target::Absent, &mut vec![Box::new(5.0f32)]).unwrap().unwrap();
    assert_eq!(out.downcast::<Health>().unwrap().value, 5.0);
}

#[test]
fn borrowed_and_out_params() {
    let registry = registry();
    let mut health = Health::default();
    let note = registry.find(TypeId::of::<Health>(), "note").unwrap();
    let mut call_args: Args = vec![Box::new("hit".to_string()), Box::new(vec!["a".to_string(), "b".to_string()])];
    let out = call(note, Target::Mut(&mut health), &mut call_args).unwrap().unwrap();
    assert_eq!(*out.downcast::<usize>().unwrap(), 1);
    // Borrowed arguments stay in their slots.
    assert_eq!(call_args[0].downcast_ref::<String>().unwrap(), "hit");

    let take_log = registry.find(TypeId::of::<Health>(), "take_log").unwrap();
    let mut call_args: Args = vec![Box::new(Vec::<String>::new())];
    call(take_log, Target::Mut(&mut health), &mut call_args).unwrap();
    assert_eq!(call_args[0].downcast_ref::<Vec<String>>().unwrap(), &["hit a,b".to_string()]);
    assert!(health.log.is_empty());
}

#[test]
fn fallible_methods_report_err() {
    let registry = registry();
    let heal = registry.find(TypeId::of::<Health>(), "heal").unwrap();
    let mut dead = Health::default();
    let err = call(heal, Target::Mut(&mut dead), &mut vec![Box::new(1.0f32)]).unwrap_err();
    assert_eq!(err, CallError::Failed("already dead".into()));

    let mut alive = Health { value: 1.0, log: Vec::new() };
    let out = call(heal, Target::Mut(&mut alive), &mut vec![Box::new(1.0f32)]).unwrap();
    assert_eq!(*out.unwrap().downcast::<f32>().unwrap(), 2.0);
}

#[test]
fn rejects_bad_calls_without_side_effects() {
    let registry = registry();
    let mut health = Health { value: 10.0, log: Vec::new() };
    let damage = registry.find(TypeId::of::<Health>(), "damage").unwrap();

    let err = call(damage, Target::Mut(&mut health), &mut vec![]).unwrap_err();
    assert_eq!(err, CallError::ArgCount { expected: 1, found: 0 });

    let mut wrong: Args = vec![Box::new(3.0f64)];
    let err = call(damage, Target::Mut(&mut health), &mut wrong).unwrap_err();
    assert!(matches!(err, CallError::ArgType { index: 0, .. }));
    // A rejected by-value argument is not consumed.
    assert!(wrong[0].is::<f64>());

    let err = call(damage, Target::Ref(&health), &mut vec![Box::new(1.0f32)]).unwrap_err();
    assert_eq!(err, CallError::ReceiverMissing { needed: ReceiverKind::Mut });

    let mut not_health = Dead;
    let err = call(damage, Target::Mut(&mut not_health), &mut vec![Box::new(1.0f32)]).unwrap_err();
    assert!(matches!(err, CallError::ReceiverType { .. }));

    assert_eq!(health.value, 10.0);
}

#[test]
fn a_later_method_with_a_taken_name_is_dropped() {
    let a: &'static [ReflectedMethod<Invoke>] = Box::leak(
        vec![method("current", "first", ReceiverKind::Ref, params(vec![]), None, MethodFlags::none(), &[], current)]
            .into_boxed_slice(),
    );
    let b: &'static [ReflectedMethod<Invoke>] = Box::leak(
        vec![method("current", "second", ReceiverKind::Ref, params(vec![]), None, MethodFlags::none(), &[], current)]
            .into_boxed_slice(),
    );
    let empty: &'static [ReflectedMethod<Invoke>] = Box::leak(Vec::new().into_boxed_slice());
    let regs: Vec<&'static TypeMethodRegistration<Invoke>> = vec![
        Box::leak(Box::new(TypeMethodRegistration { ty: health_ty(), methods: a })),
        Box::leak(Box::new(TypeMethodRegistration { ty: health_ty(), methods: b })),
        Box::leak(Box::new(TypeMethodRegistration { ty: TypeRef::of::<Dead>("Dead"), methods: empty })),
    ];
    let registry = MethodRegistry::collect(&regs);
    let methods = registry.methods_of(TypeId::of::<Health>());
    assert_eq!(methods.len(), 1);
    assert_eq!(methods[0].info.doc, "first");
    assert!(registry.find(TypeId::of::<Health>(), "missing").is_none());
    assert_eq!(registry.types().len(), 1);
}

#[test]
fn call_errors_read_as_messages() {
    assert_eq!(CallError::ArgCount { expected: 2, found: 10 }.to_string(), "expected 2 arguments, got 10");
    assert_eq!(CallError::ReceiverMissing { needed: ReceiverKind::Free }.to_string(), "method needs a None receiver");
    assert_eq!(CallError::ArgType { index: 1, expected: "f32" }.to_string(), "argument 1 is not a f32");
    assert_eq!(CallError::ReceiverType { expected: "Health" }.to_string(), "receiver is not a Health");
    assert_eq!(CallError::Failed("boom".to_string()).to_string(), "boom");
}

#[test]
fn type_refs_compare_by_type_identity() {
    assert_eq!(TypeRef::of::<u8>("u8"), TypeRef::of::<u8>("byte"));
    assert_ne!(TypeRef::of::<u8>("u8"), TypeRef::of::<u16>("u8"));
    assert_eq!(TypeRef::of::<Health>("Health").type_id(), TypeId::of::<Health>());
}

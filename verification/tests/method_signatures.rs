use pulsar_reflection::method_signatures::{
    classify_method, ElemShape, InputShape, MarkerItem, ParamSpec, ReceiverShape, RetType,
    ReturnShape, SelfKind, SignatureShape, TypeShape,
};
use pulsar_reflection::methods::PassMode;

fn s(t: &str) -> String {
    t.to_string()
}

fn typed(name: &str, ty: TypeShape) -> InputShape {
    InputShape::Typed(Some(s(name)), ty)
}

fn sig(inputs: Vec<InputShape>, output: ReturnShape) -> SignatureShape {
    SignatureShape { name: s("apply"), generic: false, is_async: false, inputs, output }
}

fn param(name: &str, slot: &str, mode: PassMode, as_slice: bool) -> ParamSpec {
    ParamSpec { name: s(name), slot_ty: s(slot), mode, as_slice }
}

fn error_of(sig: &SignatureShape, marker: &[MarkerItem], context: usize) -> String {
    classify_method(sig, marker, context).err().unwrap()
}

#[test]
fn a_full_signature_is_classified() {
    let sig = sig(
        vec![
            InputShape::Receiver(ReceiverShape::Mut),
            typed("amount", TypeShape::Owned(s("f32"))),
            typed("label", TypeShape::Ref(ElemShape::Str)),
            typed("xs", TypeShape::Ref(ElemShape::Slice(s("u8")))),
            typed("out", TypeShape::Mut(ElemShape::Other(s("Vec<u8>")))),
        ],
        ReturnShape::Result(RetType::Owned(s("f32"))),
    );
    let marker = [
        MarkerItem::Flag(s("pure")),
        MarkerItem::Value(s("name"), s("plus")),
        MarkerItem::Value(s("category"), s("math")),
    ];
    let m = classify_method(&sig, &marker, 0).ok().unwrap();
    assert_eq!(m.self_kind, SelfKind::Mut);
    assert!(m.context.is_empty());
    assert_eq!(m.script_name, "plus");
    assert_eq!(
        m.params,
        vec![
            param("amount", "f32", PassMode::Value, false),
            param("label", "::std::string::String", PassMode::Ref, true),
            param("xs", "::std::vec::Vec<u8>", PassMode::Ref, true),
            param("out", "Vec<u8>", PassMode::Mut, false),
        ]
    );
    assert_eq!(m.ret, Some(s("f32")));
    assert!(m.fallible);
    assert!(m.side_effect_free);
    assert!(m.deterministic);
    assert_eq!(m.attrs, vec![(s("category"), s("math"))]);
}

#[test]
fn a_plain_function_keeps_its_own_name() {
    let sig = sig(vec![], ReturnShape::Absent);
    let m = classify_method(&sig, &[MarkerItem::Flag(s("deterministic"))], 0).ok().unwrap();
    assert_eq!(m.self_kind, SelfKind::Free);
    assert_eq!(m.script_name, "apply");
    assert!(m.params.is_empty());
    assert_eq!(m.ret, None);
    assert!(!m.fallible);
    assert!(!m.side_effect_free);
    assert!(m.deterministic);

    let unit = sig_with_output(ReturnShape::Plain(RetType::Unit));
    assert_eq!(classify_method(&unit, &[], 0).ok().unwrap().ret, None);
    let unit_result = sig_with_output(ReturnShape::Result(RetType::Unit));
    let m = classify_method(&unit_result, &[], 0).ok().unwrap();
    assert_eq!(m.ret, None);
    assert!(m.fallible);
}

fn sig_with_output(output: ReturnShape) -> SignatureShape {
    sig(vec![InputShape::Receiver(ReceiverShape::Ref)], output)
}

#[test]
fn leading_context_parameters_are_not_script_arguments() {
    let sig = sig(
        vec![
            InputShape::Receiver(ReceiverShape::Ref),
            typed("world", TypeShape::Mut(ElemShape::Other(s("World")))),
            InputShape::Typed(None, TypeShape::Owned(s("u32"))),
        ],
        ReturnShape::Plain(RetType::Owned(s("bool"))),
    );
    let m = classify_method(&sig, &[], 1).ok().unwrap();
    assert_eq!(m.self_kind, SelfKind::Ref);
    assert_eq!(m.context, vec![1]);
    assert_eq!(m.params, vec![param("arg2", "u32", PassMode::Value, false)]);
    assert_eq!(m.ret, Some(s("bool")));
    assert!(!m.fallible);

    assert_eq!(error_of(&sig, &[], 3), "expected 3 leading context parameter(s)");
}

#[test]
fn refused_signatures_say_why() {
    let mut generic = sig(vec![], ReturnShape::Absent);
    generic.generic = true;
    assert_eq!(
        error_of(&generic, &[MarkerItem::Flag(s("fast"))], 0),
        "reflected methods cannot be generic"
    );
    let mut asynchronous = sig(vec![], ReturnShape::Absent);
    asynchronous.is_async = true;
    assert_eq!(error_of(&asynchronous, &[], 0), "reflected methods cannot be async");

    let plain = sig(vec![InputShape::Receiver(ReceiverShape::ByValue)], ReturnShape::Absent);
    assert_eq!(
        error_of(&plain, &[MarkerItem::Flag(s("fast"))], 0),
        "unknown flag; expected `pure`, `side_effect_free`, `deterministic` or `key = \"value\"`"
    );
    assert_eq!(error_of(&plain, &[], 0), "reflected methods take `&self` or `&mut self`");
    let typed_self = sig(vec![InputShape::Receiver(ReceiverShape::Typed)], ReturnShape::Absent);
    assert_eq!(error_of(&typed_self, &[], 0), "reflected methods take `&self` or `&mut self`");

    let cases = [
        (TypeShape::ImplTrait, "reflected methods cannot take `impl Trait`"),
        (TypeShape::Mut(ElemShape::Str), "`&mut str` is not supported"),
        (TypeShape::Ref(ElemShape::Reference), "nested references are not supported"),
        (TypeShape::Mut(ElemShape::Reference), "nested references are not supported"),
    ];
    for (ty, message) in cases {
        let bad = sig(vec![typed("x", ty.clone())], ReturnShape::Absent);
        assert_eq!(error_of(&bad, &[], 0), message);
        // As a context parameter the same type is accepted.
        assert_eq!(classify_method(&bad, &[], 1).ok().unwrap().context, vec![0]);
    }

    for output in [
        ReturnShape::Plain(RetType::Reference),
        ReturnShape::Result(RetType::Reference),
    ] {
        let bad = sig(vec![], output);
        assert_eq!(error_of(&bad, &[], 0), "reflected methods must return owned values");
    }
}

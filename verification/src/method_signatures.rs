//! Which method signatures can be registered for reflection, and how a
//! registered method's receiver, parameters and return value are passed.
//!
//! A signature is described by plain values (how `self` is taken, the shape
//! of each parameter's type, the return type) together with the items of the
//! marker attribute (`#[reflect_method(pure, name = "x", key = "v")]`).

use vstd::prelude::*;
use crate::methods::PassMode;
use crate::text::{decimal, push_decimal};
use crate::interop::str_eq;

verus! {

/// How a method takes `self`.
#[derive(Clone, Copy, Debug, PartialEq, Eq, Structural)]
pub enum SelfKind {
    /// No receiver: an associated function.
    Free,
    /// `&self`.
    Ref,
    /// `&mut self`.
    Mut,
}

/// How the receiver is written.
#[derive(Clone, Copy, Debug, PartialEq, Eq)]
pub enum ReceiverShape {
    /// `&self`.
    Ref,
    /// `&mut self`.
    Mut,
    /// `self` or `mut self`.
    ByValue,
    /// `self: T`.
    Typed,
}

/// The type behind a reference.
#[derive(Clone, Debug, PartialEq, Eq)]
pub enum ElemShape {
    /// `str`.
    Str,
    /// `[T]`, with the text of `T`.
    Slice(String),
    /// Another reference.
    Reference,
    /// Any other type, with its text.
    Other(String),
}

/// The type of a typed parameter.
#[derive(Clone, Debug, PartialEq, Eq)]
pub enum TypeShape {
    /// A type that is not a reference, with its text.
    Owned(String),
    /// `impl Trait`.
    ImplTrait,
    /// `&T`.
    Ref(ElemShape),
    /// `&mut T`.
    Mut(ElemShape),
}

/// One input of a signature.
#[derive(Clone, Debug, PartialEq, Eq)]
pub enum InputShape {
    /// The receiver.
    Receiver(ReceiverShape),
    /// A typed parameter: its name where the pattern is a plain identifier,
    /// and its type.
    Typed(Option<String>, TypeShape),
}

/// A return type, or the success type of a `Result`.
#[derive(Clone, Debug, PartialEq, Eq)]
pub enum RetType {
    /// `()`.
    Unit,
    /// A reference.
    Reference,
    /// Any other type, with its text.
    Owned(String),
}

/// The declared output of a signature.
#[derive(Clone, Debug, PartialEq, Eq)]
pub enum ReturnShape {
    /// No `-> T`.
    Absent,
    /// `-> T` where `T` is not a `Result` with a type argument.
    Plain(RetType),
    /// `-> Result<T, ..>` (any path ending in `Result`).
    Result(RetType),
}

/// The parts of a method signature that decide whether it can be reflected.
#[derive(Clone, Debug)]
pub struct SignatureShape {
    /// The method's identifier.
    pub name: String,
    /// It has generic parameters.
    pub generic: bool,
    /// It is `async`.
    pub is_async: bool,
    pub inputs: Vec<InputShape>,
    pub output: ReturnShape,
}

/// One item of the marker attribute.
#[derive(Clone, Debug, PartialEq, Eq)]
pub enum MarkerItem {
    /// A bare flag such as `pure`.
    Flag(String),
    /// `key = "value"`.
    Value(String, String),
}

/// How one script argument is held and passed.
#[derive(Clone, Debug, PartialEq, Eq)]
pub struct ParamSpec {
    pub name: String,
    /// The type of the argument slot: `String` for `&str`, `Vec<T>` for
    /// `&[T]`, otherwise the type behind the reference, or the type itself.
    pub slot_ty: String,
    pub mode: PassMode,
    /// The slot's contents are passed as a slice (`&str`, `&[T]`).
    pub as_slice: bool,
}

/// A reflected method's signature, as the registration uses it.
#[derive(Clone, Debug)]
pub struct MethodShape {
    pub self_kind: SelfKind,
    /// The positions, among the inputs, of the leading context parameters.
    pub context: Vec<usize>,
    /// The name scripts call it by.
    pub script_name: String,
    pub params: Vec<ParamSpec>,
    /// The returned type, `None` for `()`.
    pub ret: Option<String>,
    /// It returns a `Result`, whose error becomes the call's error.
    pub fallible: bool,
    pub side_effect_free: bool,
    pub deterministic: bool,
    /// The `key = "value"` items other than `name`, in order.
    pub attrs: Vec<(String, String)>,
}

pub open spec fn generic_message() -> Seq<char> {
    "reflected methods cannot be generic"@
}

pub open spec fn async_message() -> Seq<char> {
    "reflected methods cannot be async"@
}

pub open spec fn unknown_flag_message() -> Seq<char> {
    "unknown flag; expected `pure`, `side_effect_free`, `deterministic` or `key = \"value\"`"@
}

pub open spec fn receiver_message() -> Seq<char> {
    "reflected methods take `&self` or `&mut self`"@
}

pub open spec fn impl_trait_message() -> Seq<char> {
    "reflected methods cannot take `impl Trait`"@
}

pub open spec fn mut_str_message() -> Seq<char> {
    "`&mut str` is not supported"@
}

pub open spec fn nested_message() -> Seq<char> {
    "nested references are not supported"@
}

pub open spec fn owned_return_message() -> Seq<char> {
    "reflected methods must return owned values"@
}

/// The message for fewer typed parameters than the context needs.
pub open spec fn context_message(context: nat) -> Seq<char> {
    "expected "@ + decimal(context) + " leading context parameter(s)"@
}

/// A flag the marker knows.
pub open spec fn is_known_flag(k: Seq<char>) -> bool {
    k == "pure"@ || k == "side_effect_free"@ || k == "deterministic"@
}

/// Every flag among `items` is known.
pub open spec fn marker_ok(items: Seq<MarkerItem>) -> bool {
    forall|i: int| 0 <= i < items.len() ==> (#[trigger] items[i] matches MarkerItem::Flag(k) ==> is_known_flag(k@))
}

/// The flag `f` is among `items`.
pub open spec fn has_flag(items: Seq<MarkerItem>, f: Seq<char>) -> bool {
    exists|i: int| 0 <= i < items.len() && (#[trigger] items[i] matches MarkerItem::Flag(k) && k@ == f)
}

/// The last `name = "..."` value, else `default`.
pub open spec fn script_name_of(items: Seq<MarkerItem>, default: Seq<char>) -> Seq<char>
    decreases items.len(),
{
    if items.len() == 0 {
        default
    } else {
        match items.last() {
            MarkerItem::Value(k, v) => if k@ == "name"@ {
                v@
            } else {
                script_name_of(items.drop_last(), default)
            },
            MarkerItem::Flag(_) => script_name_of(items.drop_last(), default),
        }
    }
}

/// The `key = "value"` items other than `name`, in order.
pub open spec fn attrs_of(items: Seq<MarkerItem>) -> Seq<(Seq<char>, Seq<char>)>
    decreases items.len(),
{
    if items.len() == 0 {
        Seq::empty()
    } else {
        let rest = attrs_of(items.drop_last());
        match items.last() {
            MarkerItem::Value(k, v) => if k@ == "name"@ {
                rest
            } else {
                rest.push((k@, v@))
            },
            MarkerItem::Flag(_) => rest,
        }
    }
}

/// The number of typed parameters among `inputs`.
pub open spec fn typed_count(inputs: Seq<InputShape>) -> nat
    decreases inputs.len(),
{
    if inputs.len() == 0 {
        0
    } else {
        typed_count(inputs.drop_last()) + if inputs.last() is Typed {
            1nat
        } else {
            0nat
        }
    }
}

/// Why a script parameter of type `ty` cannot be passed, if it cannot.
pub open spec fn type_error(ty: TypeShape) -> Option<Seq<char>> {
    match ty {
        TypeShape::ImplTrait => Some(impl_trait_message()),
        TypeShape::Mut(ElemShape::Str) => Some(mut_str_message()),
        TypeShape::Ref(ElemShape::Reference) => Some(nested_message()),
        TypeShape::Mut(ElemShape::Reference) => Some(nested_message()),
        _ => None,
    }
}

/// Why the input `inp`, after `prefix`, is refused, if it is: a receiver
/// that is not `&self` or `&mut self`, or a script parameter (one past the
/// first `context` typed ones) whose type cannot be passed.
pub open spec fn input_error(prefix: Seq<InputShape>, inp: InputShape, context: nat) -> Option<Seq<char>> {
    match inp {
        InputShape::Receiver(r) => if r is Ref || r is Mut {
            None
        } else {
            Some(receiver_message())
        },
        InputShape::Typed(_, ty) => if typed_count(prefix) < context {
            None
        } else {
            type_error(ty)
        },
    }
}

/// The first refused input's message.
pub open spec fn inputs_error(inputs: Seq<InputShape>, context: nat) -> Option<Seq<char>>
    decreases inputs.len(),
{
    if inputs.len() == 0 {
        None
    } else if inputs_error(inputs.drop_last(), context) is Some {
        inputs_error(inputs.drop_last(), context)
    } else {
        input_error(inputs.drop_last(), inputs.last(), context)
    }
}

/// How the last `&self` / `&mut self` among `inputs` takes `self`.
pub open spec fn self_kind_of(inputs: Seq<InputShape>) -> SelfKind
    decreases inputs.len(),
{
    if inputs.len() == 0 {
        SelfKind::Free
    } else {
        match inputs.last() {
            InputShape::Receiver(ReceiverShape::Ref) => SelfKind::Ref,
            InputShape::Receiver(ReceiverShape::Mut) => SelfKind::Mut,
            _ => self_kind_of(inputs.drop_last()),
        }
    }
}

/// The positions of the first `context` typed parameters.
pub open spec fn context_of(inputs: Seq<InputShape>, context: nat) -> Seq<usize>
    decreases inputs.len(),
{
    if inputs.len() == 0 {
        Seq::empty()
    } else {
        let rest = context_of(inputs.drop_last(), context);
        if inputs.last() is Typed && typed_count(inputs.drop_last()) < context {
            rest.push((inputs.len() - 1) as usize)
        } else {
            rest
        }
    }
}

/// A parameter's name: its identifier, or `arg` and its position.
pub open spec fn param_name(name: Option<String>, index: nat) -> Seq<char> {
    match name {
        Some(n) => n@,
        None => "arg"@ + decimal(index),
    }
}

/// The text of the argument slot's type for a parameter of type `ty`.
pub open spec fn slot_text(ty: TypeShape) -> Seq<char> {
    match ty {
        TypeShape::Owned(t) => t@,
        TypeShape::ImplTrait => Seq::empty(),
        TypeShape::Ref(e) => elem_slot_text(e),
        TypeShape::Mut(e) => elem_slot_text(e),
    }
}

/// The slot type for a referenced type.
pub open spec fn elem_slot_text(e: ElemShape) -> Seq<char> {
    match e {
        ElemShape::Str => "::std::string::String"@,
        ElemShape::Slice(t) => "::std::vec::Vec<"@ + t@ + ">"@,
        ElemShape::Reference => Seq::empty(),
        ElemShape::Other(t) => t@,
    }
}

/// How a parameter of type `ty` is passed.
pub open spec fn pass_mode(ty: TypeShape) -> PassMode {
    match ty {
        TypeShape::Ref(_) => PassMode::Ref,
        TypeShape::Mut(_) => PassMode::Mut,
        _ => PassMode::Value,
    }
}

/// A parameter of type `ty` is passed as a slice of its slot.
pub open spec fn passes_slice(ty: TypeShape) -> bool {
    match ty {
        TypeShape::Ref(e) => e is Str || e is Slice,
        TypeShape::Mut(e) => e is Str || e is Slice,
        _ => false,
    }
}

/// A parameter as plain values: name, slot type, mode, slice.
pub open spec fn param_view(p: ParamSpec) -> (Seq<char>, Seq<char>, PassMode, bool) {
    (p.name@, p.slot_ty@, p.mode, p.as_slice)
}

/// How a parameter of reference type is held and passed: `&[T]` and
/// `&mut [T]` are held in a `Vec<T>` slot and `&str` in a `String` slot,
/// and the method gets a slice of the slot (shared or mutable as written);
/// `&T` and `&mut T` of any other `T` are held in a `T` slot and get the
/// slot itself; a parameter taken by value is moved out of its slot.
pub proof fn law_reference_params_are_passed_from_their_slots(t: String)
    ensures
        passes_slice(TypeShape::Ref(ElemShape::Slice(t))),
        passes_slice(TypeShape::Mut(ElemShape::Slice(t))),
        pass_mode(TypeShape::Ref(ElemShape::Slice(t))) == PassMode::Ref,
        pass_mode(TypeShape::Mut(ElemShape::Slice(t))) == PassMode::Mut,
        slot_text(TypeShape::Ref(ElemShape::Slice(t))) == "::std::vec::Vec<"@ + t@ + ">"@,
        slot_text(TypeShape::Mut(ElemShape::Slice(t))) == "::std::vec::Vec<"@ + t@ + ">"@,
        passes_slice(TypeShape::Ref(ElemShape::Str)),
        pass_mode(TypeShape::Ref(ElemShape::Str)) == PassMode::Ref,
        slot_text(TypeShape::Ref(ElemShape::Str)) == "::std::string::String"@,
        !passes_slice(TypeShape::Ref(ElemShape::Other(t))),
        !passes_slice(TypeShape::Mut(ElemShape::Other(t))),
        pass_mode(TypeShape::Ref(ElemShape::Other(t))) == PassMode::Ref,
        pass_mode(TypeShape::Mut(ElemShape::Other(t))) == PassMode::Mut,
        slot_text(TypeShape::Ref(ElemShape::Other(t))) == t@,
        slot_text(TypeShape::Mut(ElemShape::Other(t))) == t@,
        !passes_slice(TypeShape::Owned(t)),
        pass_mode(TypeShape::Owned(t)) == PassMode::Value,
        slot_text(TypeShape::Owned(t)) == t@,
        type_error(TypeShape::Ref(ElemShape::Slice(t))) is None,
        type_error(TypeShape::Mut(ElemShape::Slice(t))) is None,
        type_error(TypeShape::Ref(ElemShape::Str)) is None,
{
}

/// Which parameter types and receivers are refused: `impl Trait`, `&mut str`
/// and a reference to a reference are; any other type is accepted. Only
/// `&self` and `&mut self` receivers are accepted, and a method's receiver
/// kind is the one it is written with.
pub proof fn law_refused_parameters_and_receivers(t: String, e: ElemShape, prefix: Seq<InputShape>, context: nat)
    ensures
        type_error(TypeShape::ImplTrait) == Some(impl_trait_message()),
        type_error(TypeShape::Mut(ElemShape::Str)) == Some(mut_str_message()),
        type_error(TypeShape::Ref(ElemShape::Reference)) == Some(nested_message()),
        type_error(TypeShape::Mut(ElemShape::Reference)) == Some(nested_message()),
        type_error(TypeShape::Owned(t)) is None,
        !(e is Reference) ==> type_error(TypeShape::Ref(e)) is None,
        !(e is Reference) && !(e is Str) ==> type_error(TypeShape::Mut(e)) is None,
        input_error(prefix, InputShape::Receiver(ReceiverShape::ByValue), context) == Some(receiver_message()),
        input_error(prefix, InputShape::Receiver(ReceiverShape::Typed), context) == Some(receiver_message()),
        input_error(prefix, InputShape::Receiver(ReceiverShape::Ref), context) is None,
        input_error(prefix, InputShape::Receiver(ReceiverShape::Mut), context) is None,
        self_kind_of(prefix.push(InputShape::Receiver(ReceiverShape::Ref))) == SelfKind::Ref,
        self_kind_of(prefix.push(InputShape::Receiver(ReceiverShape::Mut))) == SelfKind::Mut,
        self_kind_of(Seq::<InputShape>::empty()) == SelfKind::Free,
{
    assert(prefix.push(InputShape::Receiver(ReceiverShape::Ref)).last() == InputShape::Receiver(ReceiverShape::Ref));
    assert(prefix.push(InputShape::Receiver(ReceiverShape::Mut)).last() == InputShape::Receiver(ReceiverShape::Mut));
}

/// Every passable parameter is passed as a slice exactly when it is a
/// reference to `str` or to a slice `[T]`.
pub proof fn law_slices_exactly_for_unsized_referents(ty: TypeShape)
    requires
        type_error(ty) is None,
    ensures
        passes_slice(ty) <==> (exists|t: String| ty == TypeShape::Ref(ElemShape::Slice(t)) || ty
            == TypeShape::Mut(ElemShape::Slice(t))) || ty == TypeShape::Ref(ElemShape::Str),
{
    match ty {
        TypeShape::Ref(ElemShape::Slice(t)) => {
            assert(ty == TypeShape::Ref(ElemShape::Slice(t)));
        },
        TypeShape::Mut(ElemShape::Slice(t)) => {
            assert(ty == TypeShape::Mut(ElemShape::Slice(t)));
        },
        _ => {},
    }
}

/// The script parameters: the typed inputs after the first `context`.
pub open spec fn params_of(inputs: Seq<InputShape>, context: nat) -> Seq<(Seq<char>, Seq<char>, PassMode, bool)>
    decreases inputs.len(),
{
    if inputs.len() == 0 {
        Seq::empty()
    } else {
        let rest = params_of(inputs.drop_last(), context);
        match inputs.last() {
            InputShape::Typed(n, ty) => if typed_count(inputs.drop_last()) >= context {
                rest.push((param_name(n, (inputs.len() - 1) as nat), slot_text(ty), pass_mode(ty), passes_slice(ty)))
            } else {
                rest
            },
            InputShape::Receiver(_) => rest,
        }
    }
}

/// The output returns a reference, directly or inside a `Result`.
pub open spec fn returns_reference(o: ReturnShape) -> bool {
    o matches ReturnShape::Plain(RetType::Reference) || o matches ReturnShape::Result(RetType::Reference)
}

/// The returned type's text, `None` for no output or `()`.
pub open spec fn return_type(o: ReturnShape) -> Option<Seq<char>> {
    match o {
        ReturnShape::Plain(RetType::Owned(t)) => Some(t@),
        ReturnShape::Result(RetType::Owned(t)) => Some(t@),
        _ => None,
    }
}

/// Why `sig` with `marker` cannot be reflected with `context` leading
/// context parameters, checked in this order; `None` when it can.
pub open spec fn classify_error(sig: SignatureShape, marker: Seq<MarkerItem>, context: nat) -> Option<Seq<char>> {
    if sig.generic {
        Some(generic_message())
    } else if sig.is_async {
        Some(async_message())
    } else if !marker_ok(marker) {
        Some(unknown_flag_message())
    } else if inputs_error(sig.inputs@, context) is Some {
        inputs_error(sig.inputs@, context)
    } else if typed_count(sig.inputs@) < context {
        Some(context_message(context))
    } else if returns_reference(sig.output) {
        Some(owned_return_message())
    } else {
        None
    }
}

/// The text of an optional string.
pub open spec fn opt_text(o: Option<String>) -> Option<Seq<char>> {
    match o {
        Some(s) => Some(s@),
        None => None,
    }
}

/// An attribute pair as plain values.
pub open spec fn attr_view(a: (String, String)) -> (Seq<char>, Seq<char>) {
    (a.0@, a.1@)
}

proof fn lemma_first_error_stays(inputs: Seq<InputShape>, context: nat, i: int, j: int)
    requires
        0 <= i <= j <= inputs.len(),
        inputs_error(inputs.take(i), context) is Some,
    ensures
        inputs_error(inputs.take(j), context) == inputs_error(inputs.take(i), context),
    decreases j - i,
{
    if j > i {
        lemma_first_error_stays(inputs, context, i, j - 1);
        assert(inputs.take(j).drop_last() =~= inputs.take(j - 1));
    }
}

/// Classifies the method `sig`, marked with `marker`, whose first `context`
/// typed parameters are context supplied by the caller rather than script
/// arguments. It is refused when generic or async, for an unknown marker
/// flag, for the first input that cannot be passed, for too few context
/// parameters, and for a returned reference, in that order; otherwise the
/// result says how each part is passed.
pub fn classify_method(sig: &SignatureShape, marker: &[MarkerItem], context: usize) -> (r: Result<MethodShape, String>)
    ensures
        r is Err <==> classify_error(*sig, marker@, context as nat) is Some,
        r matches Err(e) ==> classify_error(*sig, marker@, context as nat) == Some(e@),
        r matches Ok(m) ==> {
            &&& m.self_kind == self_kind_of(sig.inputs@)
            &&& m.context@ == context_of(sig.inputs@, context as nat)
            &&& m.script_name@ == script_name_of(marker@, sig.name@)
            &&& m.params@.map_values(|p: ParamSpec| param_view(p)) == params_of(sig.inputs@, context as nat)
            &&& opt_text(m.ret) == return_type(sig.output)
            &&& m.fallible == (sig.output is Result)
            &&& m.side_effect_free == (has_flag(marker@, "pure"@) || has_flag(marker@, "side_effect_free"@))
            &&& m.deterministic == (has_flag(marker@, "pure"@) || has_flag(marker@, "deterministic"@))
            &&& m.attrs@.map_values(|a: (String, String)| attr_view(a)) == attrs_of(marker@)
        },
{
    proof {
        reveal_strlit("reflected methods cannot be generic");
        reveal_strlit("reflected methods cannot be async");
    }
    if sig.generic {
        return Err("reflected methods cannot be generic".to_string());
    }
    if sig.is_async {
        return Err("reflected methods cannot be async".to_string());
    }
    let (script_name, side_effect_free, deterministic, attrs) = match read_marker(&sig.name, marker) {
        Ok(parts) => parts,
        Err(e) => {
            return Err(e);
        },
    };
    let (self_kind, ctx, params) = match read_inputs(&sig.inputs, context) {
        Ok(parts) => parts,
        Err(e) => {
            return Err(e);
        },
    };
    let (ret, fallible) = match &sig.output {
        ReturnShape::Absent => (None, false),
        ReturnShape::Plain(t) => match t {
            RetType::Reference => {
                return Err(owned_return_error());
            },
            RetType::Unit => (None, false),
            RetType::Owned(s) => (Some(s.clone()), false),
        },
        ReturnShape::Result(t) => match t {
            RetType::Reference => {
                return Err(owned_return_error());
            },
            RetType::Unit => (None, true),
            RetType::Owned(s) => (Some(s.clone()), true),
        },
    };
    Ok(
        MethodShape {
            self_kind,
            context: ctx,
            script_name,
            params,
            ret,
            fallible,
            side_effect_free,
            deterministic,
            attrs,
        },
    )
}

fn owned_return_error() -> (r: String)
    ensures
        r@ == owned_return_message(),
{
    proof {
        reveal_strlit("reflected methods must return owned values");
    }
    "reflected methods must return owned values".to_string()
}

/// Reads the marker items: the script name (`default` unless `name = ".."`
/// is given), the two flags and the other attributes; an unknown flag is
/// refused.
fn read_marker(default: &String, items: &[MarkerItem]) -> (r: Result<(String, bool, bool, Vec<(String, String)>), String>)
    ensures
        r is Err <==> !marker_ok(items@),
        r matches Err(e) ==> e@ == unknown_flag_message(),
        r matches Ok(p) ==> {
            &&& p.0@ == script_name_of(items@, default@)
            &&& p.1 == (has_flag(items@, "pure"@) || has_flag(items@, "side_effect_free"@))
            &&& p.2 == (has_flag(items@, "pure"@) || has_flag(items@, "deterministic"@))
            &&& p.3@.map_values(|a: (String, String)| attr_view(a)) == attrs_of(items@)
        },
{
    let mut name = default.clone();
    let mut side_effect_free = false;
    let mut deterministic = false;
    let mut attrs: Vec<(String, String)> = Vec::new();
    let mut i: usize = 0;
    while i < items.len()
        invariant
            i <= items@.len(),
            marker_ok(items@.take(i as int)),
            name@ == script_name_of(items@.take(i as int), default@),
            side_effect_free == (has_flag(items@.take(i as int), "pure"@) || has_flag(items@.take(i as int), "side_effect_free"@)),
            deterministic == (has_flag(items@.take(i as int), "pure"@) || has_flag(items@.take(i as int), "deterministic"@)),
            attrs@.map_values(|a: (String, String)| attr_view(a)) == attrs_of(items@.take(i as int)),
        decreases items@.len() - i,
    {
        let ghost before = items@.take(i as int);
        let ghost after = items@.take(i + 1);
        proof {
            reveal_strlit("unknown flag; expected `pure`, `side_effect_free`, `deterministic` or `key = \"value\"`");
            reveal_strlit("name");
            reveal_strlit("pure");
            reveal_strlit("side_effect_free");
            reveal_strlit("deterministic");
            assert("pure"@[0] != "side_effect_free"@[0] && "pure"@[0] != "deterministic"@[0]);
            assert("side_effect_free"@[0] != "deterministic"@[0]);
            assert(after.drop_last() =~= before);
            assert(after.last() == items@[i as int]);
            assert forall|f: Seq<char>| has_flag(after, f) <==> (has_flag(before, f) || (items@[i as int] matches MarkerItem::Flag(k) && k@ == f)) by {
                if has_flag(after, f) {
                    let j = choose|j: int| 0 <= j < after.len() && (#[trigger] after[j] matches MarkerItem::Flag(k) && k@ == f);
                    if j < i {
                        assert(before[j] == after[j]);
                    }
                }
                if has_flag(before, f) {
                    let j = choose|j: int| 0 <= j < before.len() && (#[trigger] before[j] matches MarkerItem::Flag(k) && k@ == f);
                    assert(after[j] == before[j]);
                }
                if items@[i as int] matches MarkerItem::Flag(k) && k@ == f {
                    assert(after[i as int] == items@[i as int]);
                }
            }
        }
        match &items[i] {
            MarkerItem::Flag(k) => {
                if str_eq(k.as_str(), "pure") {
                    side_effect_free = true;
                    deterministic = true;
                } else if str_eq(k.as_str(), "side_effect_free") {
                    side_effect_free = true;

                } else if str_eq(k.as_str(), "deterministic") {
                    deterministic = true;
                } else {
                    proof {
                        assert(!is_known_flag(k@));
                        assert(items@[i as int] matches MarkerItem::Flag(k) && !is_known_flag(k@));
                    }
                    return Err(
                        "unknown flag; expected `pure`, `side_effect_free`, `deterministic` or `key = \"value\"`".to_string(),
                    );
                }
            },
            MarkerItem::Value(k, v) => {
                if str_eq(k.as_str(), "name") {
                    name = v.clone();
                } else {
                    attrs.push((k.clone(), v.clone()));
                    proof {
                        assert(attrs@.map_values(|a: (String, String)| attr_view(a)) =~= attrs_of(after));
                    }
                }
            },
        }
        proof {
            assert(has_flag(after, "pure"@) == (has_flag(before, "pure"@) || (items@[i as int] matches MarkerItem::Flag(k) && k@ == "pure"@)));
            assert(has_flag(after, "deterministic"@) == (has_flag(before, "deterministic"@) || (items@[i as int] matches MarkerItem::Flag(k) && k@ == "deterministic"@)));
            assert(has_flag(after, "side_effect_free"@) == (has_flag(before, "side_effect_free"@) || (items@[i as int] matches MarkerItem::Flag(k) && k@ == "side_effect_free"@)));
            assert forall|j: int| 0 <= j < after.len() implies (#[trigger] after[j] matches MarkerItem::Flag(k)
                ==> is_known_flag(k@)) by {
                if j < i {
                    assert(after[j] == before[j]);
                }
            }
        }
        i = i + 1;
    }
    proof {
        assert(items@.take(items@.len() as int) =~= items@);
    }
    Ok((name, side_effect_free, deterministic, attrs))
}

/// Reads the inputs: the receiver, the positions of the first `context`
/// typed parameters, and the script parameters after them.
fn read_inputs(inputs: &Vec<InputShape>, context: usize) -> (r: Result<(SelfKind, Vec<usize>, Vec<ParamSpec>), String>)
    ensures
        r is Err <==> (inputs_error(inputs@, context as nat) is Some || typed_count(inputs@) < context),
        r matches Err(e) ==> (if inputs_error(inputs@, context as nat) is Some {
            inputs_error(inputs@, context as nat) == Some(e@)
        } else {
            e@ == context_message(context as nat)
        }),
        r matches Ok(p) ==> {
            &&& p.0 == self_kind_of(inputs@)
            &&& p.1@ == context_of(inputs@, context as nat)
            &&& p.2@.map_values(|q: ParamSpec| param_view(q)) == params_of(inputs@, context as nat)
        },
{
    let mut self_kind = SelfKind::Free;
    let mut ctx: Vec<usize> = Vec::new();
    let mut params: Vec<ParamSpec> = Vec::new();
    let mut typed: usize = 0;
    let mut i: usize = 0;
    while i < inputs.len()
        invariant
            i <= inputs@.len(),
            typed == typed_count(inputs@.take(i as int)),
            typed <= i,
            inputs_error(inputs@.take(i as int), context as nat) is None,
            self_kind == self_kind_of(inputs@.take(i as int)),
            ctx@ == context_of(inputs@.take(i as int), context as nat),
            params@.map_values(|q: ParamSpec| param_view(q)) == params_of(inputs@.take(i as int), context as nat),
        decreases inputs@.len() - i,
    {
        let ghost before = inputs@.take(i as int);
        let ghost after = inputs@.take(i + 1);
        proof {
            assert(after.drop_last() =~= before);
            assert(after.last() == inputs@[i as int]);
        }
        match &inputs[i] {
            InputShape::Receiver(rs) => match rs {
                ReceiverShape::Ref => {
                    self_kind = SelfKind::Ref;
                },
                ReceiverShape::Mut => {
                    self_kind = SelfKind::Mut;
                },
                _ => {
                    proof {
                        lemma_first_error_stays(inputs@, context as nat, i + 1, inputs@.len() as int);
                        assert(inputs@.take(inputs@.len() as int) =~= inputs@);
                        reveal_strlit("reflected methods take `&self` or `&mut self`");
                    }
                    return Err("reflected methods take `&self` or `&mut self`".to_string());
                },
            },
            InputShape::Typed(n, ty) => {
                if typed < context {
                    ctx.push(i);
                } else {
                    match param_spec(n, ty, i) {
                        Ok(p) => {
                            params.push(p);
                            proof {
                                assert(params@.map_values(|q: ParamSpec| param_view(q)) =~= params_of(
                                    after,
                                    context as nat,
                                ));
                            }
                        },
                        Err(e) => {
                            proof {
                                lemma_first_error_stays(inputs@, context as nat, i + 1, inputs@.len() as int);
                                assert(inputs@.take(inputs@.len() as int) =~= inputs@);
                            }
                            return Err(e);
                        },
                    }
                }
                typed = typed + 1;
            },
        }
        i = i + 1;
    }
    proof {
        assert(inputs@.take(inputs@.len() as int) =~= inputs@);
    }
    if typed < context {
        let mut m = "expected ".to_string();
        push_decimal(&mut m, context);
        m.append(" leading context parameter(s)");
        proof {
            reveal_strlit("expected ");
            reveal_strlit(" leading context parameter(s)");
        }
        return Err(m);
    }
    Ok((self_kind, ctx, params))
}

/// How the parameter `name: ty` at position `index` is passed, or why it
/// cannot be.
fn param_spec(name: &Option<String>, ty: &TypeShape, index: usize) -> (r: Result<ParamSpec, String>)
    ensures
        r is Err <==> type_error(*ty) is Some,
        r matches Err(e) ==> type_error(*ty) == Some(e@),
        r matches Ok(p) ==> param_view(p) == (param_name(*name, index as nat), slot_text(*ty), pass_mode(*ty), passes_slice(*ty)),
{
    proof {
        reveal_strlit("arg");
        reveal_strlit("::std::string::String");
        reveal_strlit("::std::vec::Vec<");
        reveal_strlit(">");
        reveal_strlit("reflected methods cannot take `impl Trait`");
        reveal_strlit("`&mut str` is not supported");
        reveal_strlit("nested references are not supported");
    }
    let pname = match name {
        Some(n) => n.clone(),
        None => {
            let mut s = "arg".to_string();
            push_decimal(&mut s, index);
            s
        },
    };
    let (slot_ty, mode, as_slice) = match ty {
        TypeShape::Owned(t) => (t.clone(), PassMode::Value, false),
        TypeShape::ImplTrait => {
            return Err("reflected methods cannot take `impl Trait`".to_string());
        },
        TypeShape::Ref(e) => match e {
            ElemShape::Str => ("::std::string::String".to_string(), PassMode::Ref, true),
            ElemShape::Slice(t) => (list_slot(t), PassMode::Ref, true),
            ElemShape::Reference => {
                return Err("nested references are not supported".to_string());
            },
            ElemShape::Other(t) => (t.clone(), PassMode::Ref, false),
        },
        TypeShape::Mut(e) => match e {
            ElemShape::Str => {
                return Err("`&mut str` is not supported".to_string());
            },
            ElemShape::Slice(t) => (list_slot(t), PassMode::Mut, true),
            ElemShape::Reference => {
                return Err("nested references are not supported".to_string());
            },
            ElemShape::Other(t) => (t.clone(), PassMode::Mut, false),
        },
    };
    Ok(ParamSpec { name: pname, slot_ty, mode, as_slice })
}

/// `::std::vec::Vec<t>`.
fn list_slot(t: &String) -> (r: String)
    ensures
        r@ == "::std::vec::Vec<"@ + t@ + ">"@,
{
    let mut s = "::std::vec::Vec<".to_string();
    s.append(t.as_str());
    s.append(">");
    s
}

} // verus!

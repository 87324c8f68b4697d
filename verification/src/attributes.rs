//! What the registration attributes accept: the arguments of
//! `#[pulsar_type(...)]` on a primitive alias.

use vstd::prelude::*;

verus! {

/// One argument of `#[pulsar_type(...)]`, with the text of its value.
#[derive(Clone, Debug)]
pub enum PulsarTypeArg {
    /// The deprecated `primitive` flag.
    Primitive,
    /// The deprecated `structure = ...` argument.
    Structure,
    /// `serialize_json_with = path`.
    SerializeJsonWith(String),
    /// `deserialize_json_with = path`.
    DeserializeJsonWith(String),
    /// `editor = path`.
    Editor(String),
    /// `color = "..."`.
    Color(String),
    /// Any other argument.
    Unknown(String),
}

/// The registration that accepted `#[pulsar_type(...)]` arguments describe.
pub struct PulsarTypeConfig {
    pub serialize_json_with: String,
    pub deserialize_json_with: String,
    pub editor: Option<String>,
    pub color: Option<String>,
    /// The deprecated `primitive` flag was given.
    pub deprecated_primitive: bool,
    /// The deprecated `structure` argument was given.
    pub deprecated_structure: bool,
}

/// Which valued argument: serializer, deserializer, editor or color.
pub enum PulsarTypeKey {
    Serialize,
    Deserialize,
    Editor,
    Color,
}

/// The text the argument `a` gives for `key`, if it is that argument.
pub open spec fn arg_text(a: PulsarTypeArg, key: PulsarTypeKey) -> Option<Seq<char>> {
    match (a, key) {
        (PulsarTypeArg::SerializeJsonWith(t), PulsarTypeKey::Serialize) => Some(t@),
        (PulsarTypeArg::DeserializeJsonWith(t), PulsarTypeKey::Deserialize) => Some(t@),
        (PulsarTypeArg::Editor(t), PulsarTypeKey::Editor) => Some(t@),
        (PulsarTypeArg::Color(t), PulsarTypeKey::Color) => Some(t@),
        _ => None,
    }
}

/// The text of the last argument for `key`: a later one overrides an
/// earlier one.
pub open spec fn last_text(args: Seq<PulsarTypeArg>, key: PulsarTypeKey) -> Option<Seq<char>>
    decreases args.len(),
{
    if args.len() == 0 {
        None
    } else if arg_text(args.last(), key) is Some {
        arg_text(args.last(), key)
    } else {
        last_text(args.drop_last(), key)
    }
}

/// Some argument is not one that `#[pulsar_type]` knows.
pub open spec fn has_unknown_arg(args: Seq<PulsarTypeArg>) -> bool {
    exists|i: int| 0 <= i < args.len() && args[i] is Unknown
}

/// The message for a generic alias.
pub open spec fn generics_message() -> Seq<char> {
    "#[pulsar_type] primitive aliases do not support generics"@
}

/// The message for an unknown argument.
pub open spec fn unsupported_message() -> Seq<char> {
    "unsupported #[pulsar_type(...)] argument"@
}

/// The message for a missing serializer or deserializer.
pub open spec fn required_message() -> Seq<char> {
    "#[pulsar_type] requires serialize_json_with and deserialize_json_with to be specified"@
}

/// The text of an optional argument value.
pub open spec fn opt_text(o: Option<String>) -> Option<Seq<char>> {
    match o {
        Some(s) => Some(s@),
        None => None,
    }
}

/// Checks the arguments of `#[pulsar_type(...)]` on an alias (`generic`
/// when the alias has generic parameters): generics are refused first, then
/// the first unknown argument, then a missing serializer or deserializer;
/// otherwise the registration takes the last value given for each key and
/// notes the deprecated arguments.
pub fn check_pulsar_type_args(generic: bool, args: &[PulsarTypeArg]) -> (r: Result<PulsarTypeConfig, String>)
    ensures
        generic ==> (r matches Err(e) && e@ == generics_message()),
        !generic && has_unknown_arg(args@) ==> (r matches Err(e) && e@ == unsupported_message()),
        !generic && !has_unknown_arg(args@) && (last_text(args@, PulsarTypeKey::Serialize) is None || last_text(
            args@,
            PulsarTypeKey::Deserialize,
        ) is None) ==> (r matches Err(e) && e@ == required_message()),
        r is Ok <==> (!generic && !has_unknown_arg(args@) && last_text(args@, PulsarTypeKey::Serialize) is Some
            && last_text(args@, PulsarTypeKey::Deserialize) is Some),
        r matches Ok(c) ==> {
            &&& Some(c.serialize_json_with@) == last_text(args@, PulsarTypeKey::Serialize)
            &&& Some(c.deserialize_json_with@) == last_text(args@, PulsarTypeKey::Deserialize)
            &&& opt_text(c.editor) == last_text(args@, PulsarTypeKey::Editor)
            &&& opt_text(c.color) == last_text(args@, PulsarTypeKey::Color)
            &&& c.deprecated_primitive == exists|i: int| 0 <= i < args@.len() && args@[i] is Primitive
            &&& c.deprecated_structure == exists|i: int| 0 <= i < args@.len() && args@[i] is Structure
        },
{
    proof {
        reveal_strlit("#[pulsar_type] primitive aliases do not support generics");
        reveal_strlit("unsupported #[pulsar_type(...)] argument");
        reveal_strlit("#[pulsar_type] requires serialize_json_with and deserialize_json_with to be specified");
    }
    if generic {
        return Err("#[pulsar_type] primitive aliases do not support generics".to_string());
    }
    let mut ser: Option<String> = None;
    let mut de: Option<String> = None;
    let mut editor: Option<String> = None;
    let mut color: Option<String> = None;
    let mut primitive = false;
    let mut structure = false;
    let mut i: usize = 0;
    while i < args.len()
        invariant
            !generic,
            i <= args@.len(),
            forall|j: int| 0 <= j < i ==> !(args@[j] is Unknown),
            opt_text(ser) == last_text(args@.take(i as int), PulsarTypeKey::Serialize),
            opt_text(de) == last_text(args@.take(i as int), PulsarTypeKey::Deserialize),
            opt_text(editor) == last_text(args@.take(i as int), PulsarTypeKey::Editor),
            opt_text(color) == last_text(args@.take(i as int), PulsarTypeKey::Color),
            primitive == exists|j: int| 0 <= j < i && args@[j] is Primitive,
            structure == exists|j: int| 0 <= j < i && args@[j] is Structure,
        decreases args@.len() - i,
    {
        proof {
            let t = args@.take(i + 1);
            assert(t.drop_last() =~= args@.take(i as int));
            assert(t.last() == args@[i as int]);
        }
        match &args[i] {
            PulsarTypeArg::Primitive => {
                primitive = true;
            },
            PulsarTypeArg::Structure => {
                structure = true;
            },
            PulsarTypeArg::SerializeJsonWith(t) => {
                ser = Some(t.clone());
            },
            PulsarTypeArg::DeserializeJsonWith(t) => {
                de = Some(t.clone());
            },
            PulsarTypeArg::Editor(t) => {
                editor = Some(t.clone());
            },
            PulsarTypeArg::Color(t) => {
                color = Some(t.clone());
            },
            PulsarTypeArg::Unknown(_) => {
                proof {
                    assert(has_unknown_arg(args@));
                }
                return Err("unsupported #[pulsar_type(...)] argument".to_string());
            },
        }
        proof {
            assert forall|j: int| 0 <= j < i + 1 implies !(args@[j] is Unknown) by {}
        }
        i = i + 1;
    }
    proof {
        assert(args@.take(args@.len() as int) =~= args@);
        assert(!has_unknown_arg(args@));
    }
    match (ser, de) {
        (Some(s), Some(d)) => Ok(
            PulsarTypeConfig {
                serialize_json_with: s,
                deserialize_json_with: d,
                editor,
                color,
                deprecated_primitive: primitive,
                deprecated_structure: structure,
            },
        ),
        _ => Err("#[pulsar_type] requires serialize_json_with and deserialize_json_with to be specified".to_string()),
    }
}

} // verus!

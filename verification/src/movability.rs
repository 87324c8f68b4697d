//! The renderer's movability setting as a reflectable enum: its variant
//! names and indices, and its JSON form.

use crate::interop::{json_as_str, json_as_u64, json_debug, json_debug_text, json_from_str, json_str, json_u64, str_eq};
use crate::text::{decimal, push_decimal};
use crate::type_traits::{ReflectError, ReflectResult};
use serde_json::Value;
use vstd::prelude::*;

verus! {

/// How an object may move once placed in a scene.
#[derive(Clone, Copy, Debug, PartialEq, Eq, Structural)]
pub enum Movability {
    Static,
    Stationary,
    Movable,
}

/// The name the reflection registry gives the type.
pub open spec fn movability_type_name() -> Seq<char> {
    "helio::Movability"@
}

/// A variant's name.
pub open spec fn movability_name(m: Movability) -> Seq<char> {
    match m {
        Movability::Static => "Static"@,
        Movability::Stationary => "Stationary"@,
        Movability::Movable => "Movable"@,
    }
}

/// A variant's index, in declaration order.
pub open spec fn movability_index(m: Movability) -> nat {
    match m {
        Movability::Static => 0,
        Movability::Stationary => 1,
        Movability::Movable => 2,
    }
}

/// The variant named `name`.
pub open spec fn movability_named(name: Seq<char>) -> Option<Movability> {
    if name == "Static"@ {
        Some(Movability::Static)
    } else if name == "Stationary"@ {
        Some(Movability::Stationary)
    } else if name == "Movable"@ {
        Some(Movability::Movable)
    } else {
        None
    }
}

/// The variant at index `i`.
pub open spec fn movability_at(i: int) -> Option<Movability> {
    if i == 0 {
        Some(Movability::Static)
    } else if i == 1 {
        Some(Movability::Stationary)
    } else if i == 2 {
        Some(Movability::Movable)
    } else {
        None
    }
}

/// `r` is the invalid-variant error of the type that shows `variant`.
pub open spec fn is_invalid_movability<T>(r: ReflectResult<T>, variant: Seq<char>) -> bool {
    r matches Err(ReflectError::InvalidVariant { enum_name, variant: v }) && enum_name@ == movability_type_name()
        && v@ == variant
}

impl Movability {
    /// The variant's name and index, as the serializer writes an enum.
    pub fn variant(&self) -> (r: (&'static str, usize))
        ensures
            r.0@ == movability_name(*self),
            r.1 == movability_index(*self),
    {
        proof {
            reveal_strlit("Static");
            reveal_strlit("Stationary");
            reveal_strlit("Movable");
        }
        match self {
            Movability::Static => ("Static", 0),
            Movability::Stationary => ("Stationary", 1),
            Movability::Movable => ("Movable", 2),
        }
    }

    /// The variant at index `index`, or an invalid-variant error showing
    /// `index N`.
    pub fn from_index(index: usize) -> (r: ReflectResult<Movability>)
        ensures
            match movability_at(index as int) {
                Some(m) => r == Ok::<Movability, ReflectError>(m),
                None => is_invalid_movability(r, "index "@ + decimal(index as nat)),
            },
    {
        if index == 0 {
            Ok(Movability::Static)
        } else if index == 1 {
            Ok(Movability::Stationary)
        } else if index == 2 {
            Ok(Movability::Movable)
        } else {
            Err(ReflectError::InvalidVariant { enum_name: "helio::Movability", variant: index_text(index as u64) })
        }
    }
}

/// `index N`.
fn index_text(n: u64) -> (r: String)
    ensures
        r@ == "index "@ + decimal(n as nat),
{
    proof {
        reveal_strlit("index ");
        reveal_strlit("helio::Movability");
    }
    let mut s = "index ".to_string();
    push_decimal_u64(&mut s, n);
    s
}

/// Appends the decimal notation of a `u64`.
fn push_decimal_u64(out: &mut String, n: u64)
    ensures
        final(out)@ == old(out)@ + decimal(n as nat),
    decreases n,
{
    if n < 10 {
        push_decimal(out, n as usize);
    } else {
        push_decimal_u64(out, n / 10);
        push_decimal(out, (n % 10) as usize);
        proof {
            assert(decimal((n % 10) as nat) == seq![crate::text::digit_char((n % 10) as nat)]);
            assert(old(out)@ + decimal(n as nat) =~= old(out)@ + decimal((n / 10) as nat) + decimal(
                (n % 10) as nat,
            ));
        }
    }
}

/// The JSON form of a movability: its variant name.
pub fn serialize_movability_json(m: Movability) -> (r: Value)
    ensures
        json_str(r) == Some(movability_name(m)),
{
    let (name, _) = m.variant();
    json_from_str(name)
}

/// Reads a movability from JSON: a string names a variant, else a
/// non-negative integer is its index; any other document is a type
/// mismatch that shows it.
pub fn deserialize_movability_json(value: &Value) -> (r: ReflectResult<Movability>)
    ensures
        json_str(*value) matches Some(name) ==> match movability_named(name) {
            Some(m) => r == Ok::<Movability, ReflectError>(m),
            None => is_invalid_movability(r, name),
        },
        json_str(*value) is None && json_u64(*value) is Some ==> match movability_at(json_u64(*value).unwrap() as int) {
            Some(m) => r == Ok::<Movability, ReflectError>(m),
            None => is_invalid_movability(r, "index "@ + decimal(json_u64(*value).unwrap() as nat)),
        },
        json_str(*value) is None && json_u64(*value) is None ==> (r matches Err(
            ReflectError::TypeMismatch { expected, found },
        ) && expected@ == movability_type_name() && found@ == json_debug_text(*value)),
{
    proof {
        reveal_strlit("Static");
        reveal_strlit("Stationary");
        reveal_strlit("Movable");
        reveal_strlit("helio::Movability");
        assert("Static"@.len() != "Stationary"@.len());
        assert("Static"@.len() != "Movable"@.len());
        assert("Stationary"@.len() != "Movable"@.len());
    }
    match json_as_str(value) {
        Some(name) => {
            if str_eq(name, "Static") {
                return Ok(Movability::Static);
            } else if str_eq(name, "Stationary") {
                return Ok(Movability::Stationary);
            } else if str_eq(name, "Movable") {
                return Ok(Movability::Movable);
            }
            return Err(ReflectError::InvalidVariant { enum_name: "helio::Movability", variant: name.to_string() });
        },
        None => {},
    }
    match json_as_u64(value) {
        Some(index) => {
            if index == 0 {
                Ok(Movability::Static)
            } else if index == 1 {
                Ok(Movability::Stationary)
            } else if index == 2 {
                Ok(Movability::Movable)
            } else {
                Err(ReflectError::InvalidVariant { enum_name: "helio::Movability", variant: index_text(index) })
            }
        },
        None => Err(ReflectError::TypeMismatch { expected: "helio::Movability", found: json_debug(value) }),
    }
}

/// Writing a movability to JSON and reading it back gives the same variant;
/// so does reading back its index.
pub proof fn law_movability_json_round_trip(m: Movability)
    ensures
        movability_named(movability_name(m)) == Some(m),
        movability_at(movability_index(m) as int) == Some(m),
{
    reveal_strlit("Static");
    reveal_strlit("Stationary");
    reveal_strlit("Movable");
    assert("Static"@.len() != "Stationary"@.len());
    assert("Static"@.len() != "Movable"@.len());
    assert("Stationary"@.len() != "Movable"@.len());
}

} // verus!

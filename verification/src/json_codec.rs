//! The JSON conversions of the primitive reflectable types, and how a JSON
//! document names an enum variant.

use crate::interop::{
    json_array, json_as_array, json_as_bool, json_as_i64, json_as_str, json_as_u64, json_bool,
    json_debug, json_debug_text, json_display, json_display_text, json_from_bool, json_from_i64,
    json_from_items, json_from_str, json_from_u64, json_i64, json_parse, json_parse_error_text,
    json_parse_text, json_str, json_u64, str_eq, is_json_object, json_member, json_map_entries,
    json_is_object, json_field, json_clone, json_map_new, json_map_insert, json_from_map,
};
use crate::text::{decimal, push_decimal};
use crate::runtime_types::{FieldInfo, RuntimeTypeInfo};
use crate::type_traits::{ReflectError, ReflectResult};
use serde_json::Value;
use vstd::prelude::*;

verus! {

/// `r` is the type-mismatch error that names `expected` and shows `found`.
pub open spec fn is_mismatch<T>(r: ReflectResult<T>, expected: Seq<char>, found: Seq<char>) -> bool {
    r matches Err(ReflectError::TypeMismatch { expected: e, found: f }) && e@ == expected && f@ == found
}

/// The boolean a document holds.
pub open spec fn decoded_bool(v: Value) -> Option<bool> {
    json_bool(v)
}

/// The `u32` a document holds: a non-negative integer that fits.
pub open spec fn decoded_u32(v: Value) -> Option<u32> {
    match json_u64(v) {
        Some(n) => if n <= u32::MAX as u64 {
            Some(n as u32)
        } else {
            None
        },
        None => None,
    }
}

/// The `u64` a document holds.
pub open spec fn decoded_u64(v: Value) -> Option<u64> {
    json_u64(v)
}

/// The `i64` a document holds.
pub open spec fn decoded_i64(v: Value) -> Option<i64> {
    json_i64(v)
}

/// The `i32` a document holds: any integer that fits in `i64`, cut to its
/// low 32 bits.
pub open spec fn decoded_i32(v: Value) -> Option<i32> {
    match json_i64(v) {
        Some(n) => Some(n as i32),
        None => None,
    }
}

/// The error of a failed primitive conversion.
fn mismatch(expected: &'static str, v: &Value) -> (r: ReflectError)
    ensures
        r matches ReflectError::TypeMismatch { expected: e, found: f } && e == expected && f@ == json_debug_text(*v),
{
    ReflectError::TypeMismatch { expected, found: json_debug(v) }
}

/// A boolean as JSON.
pub fn serialize_bool_json(value: &bool) -> (r: ReflectResult<Value>)
    ensures
        r matches Ok(v) && decoded_bool(v) == Some(*value),
{
    Ok(json_from_bool(*value))
}

/// The boolean a document holds, or a type mismatch.
pub fn deserialize_bool_json(value: Value) -> (r: ReflectResult<bool>)
    ensures
        match decoded_bool(value) {
            Some(b) => r == Ok::<bool, ReflectError>(b),
            None => is_mismatch(r, "bool"@, json_debug_text(value)),
        },
{
    match json_as_bool(&value) {
        Some(b) => Ok(b),
        None => {
            proof {
                reveal_strlit("bool");
            }
            Err(mismatch("bool", &value))
        },
    }
}

/// A `u32` as JSON.
pub fn serialize_u32_json(value: &u32) -> (r: ReflectResult<Value>)
    ensures
        r matches Ok(v) && json_u64(v) == Some(*value as u64),
{
    Ok(json_from_u64(*value as u64))
}

/// The `u32` a document holds, or a type mismatch.
pub fn deserialize_u32_json(value: Value) -> (r: ReflectResult<u32>)
    ensures
        match decoded_u32(value) {
            Some(n) => r == Ok::<u32, ReflectError>(n),
            None => is_mismatch(r, "u32"@, json_debug_text(value)),
        },
{
    match json_as_u64(&value) {
        Some(n) => {
            if n <= 0xffff_ffff {
                return Ok(n as u32);
            }
        },
        None => {},
    }
    proof {
        reveal_strlit("u32");
    }
    Err(mismatch("u32", &value))
}

/// A `u64` as JSON.
pub fn serialize_u64_json(value: &u64) -> (r: ReflectResult<Value>)
    ensures
        r matches Ok(v) && json_u64(v) == Some(*value),
{
    Ok(json_from_u64(*value))
}

/// The `u64` a document holds, or a type mismatch.
pub fn deserialize_u64_json(value: Value) -> (r: ReflectResult<u64>)
    ensures
        match decoded_u64(value) {
            Some(n) => r == Ok::<u64, ReflectError>(n),
            None => is_mismatch(r, "u64"@, json_debug_text(value)),
        },
{
    match json_as_u64(&value) {
        Some(n) => Ok(n),
        None => {
            proof {
                reveal_strlit("u64");
            }
            Err(mismatch("u64", &value))
        },
    }
}

/// An `i64` as JSON.
pub fn serialize_i64_json(value: &i64) -> (r: ReflectResult<Value>)
    ensures
        r matches Ok(v) && json_i64(v) == Some(*value),
{
    Ok(json_from_i64(*value))
}

/// The `i64` a document holds, or a type mismatch.
pub fn deserialize_i64_json(value: Value) -> (r: ReflectResult<i64>)
    ensures
        match decoded_i64(value) {
            Some(n) => r == Ok::<i64, ReflectError>(n),
            None => is_mismatch(r, "i64"@, json_debug_text(value)),
        },
{
    match json_as_i64(&value) {
        Some(n) => Ok(n),
        None => {
            proof {
                reveal_strlit("i64");
            }
            Err(mismatch("i64", &value))
        },
    }
}

/// An `i32` as JSON.
pub fn serialize_i32_json(value: &i32) -> (r: ReflectResult<Value>)
    ensures
        r matches Ok(v) && json_i64(v) == Some(*value as i64),
{
    Ok(json_from_i64(*value as i64))
}

/// The `i32` a document holds, or a type mismatch.
pub fn deserialize_i32_json(value: Value) -> (r: ReflectResult<i32>)
    ensures
        match decoded_i32(value) {
            Some(n) => r == Ok::<i32, ReflectError>(n),
            None => is_mismatch(r, "i32"@, json_debug_text(value)),
        },
{
    match json_as_i64(&value) {
        Some(n) => Ok(#[verifier::truncate] (n as i32)),
        None => {
            proof {
                reveal_strlit("i32");
            }
            Err(mismatch("i32", &value))
        },
    }
}

/// A string as JSON.
pub fn serialize_string_json(value: &String) -> (r: ReflectResult<Value>)
    ensures
        r matches Ok(v) && json_str(v) == Some(value@),
{
    Ok(json_from_str(value.as_str()))
}

/// The string a document holds, or a type mismatch.
pub fn deserialize_string_json(value: Value) -> (r: ReflectResult<String>)
    ensures
        match json_str(value) {
            Some(t) => r matches Ok(s) && s@ == t,
            None => is_mismatch(r, "String"@, json_debug_text(value)),
        },
{
    match json_as_str(&value) {
        Some(s) => Ok(s.to_string()),
        None => {
            proof {
                reveal_strlit("String");
            }
            Err(mismatch("String", &value))
        },
    }
}

/// The JSON document that `json` spells, or a deserialization failure with
/// the parser's message.
pub fn json_document(json: &str) -> (r: ReflectResult<Value>)
    ensures
        json_parse(json@) matches Some(v) ==> r == Ok::<Value, ReflectError>(v),
        json_parse(json@) is None ==> (r matches Err(ReflectError::DeserializationFailed(e)) && e@
            == json_parse_error_text(json@)),
{
    match json_parse_text(json) {
        Ok(v) => Ok(v),
        Err(e) => Err(ReflectError::DeserializationFailed(e)),
    }
}

/// The position of the first item that holds no `u32`.
pub open spec fn first_non_u32(items: Seq<Value>) -> Option<int> {
    if exists|i: int| 0 <= i < items.len() && decoded_u32(items[i]) is None {
        Some(
            choose|i: int|
                0 <= i < items.len() && decoded_u32(items[i]) is None && forall|j: int|
                    0 <= j < i ==> decoded_u32(#[trigger] items[j]) is Some,
        )
    } else {
        None
    }
}

/// The numbers that items holding a `u32` each hold.
pub open spec fn u32_items(items: Seq<Value>) -> Seq<u32> {
    items.map_values(|x: Value| decoded_u32(x).unwrap())
}

/// An array of 116 `u32`s as a JSON array of numbers.
pub fn serialize_u32x116_json(value: &[u32; 116]) -> (r: ReflectResult<Value>)
    ensures
        r matches Ok(v) && json_array(v) matches Some(items) && items.len() == 116 && forall|i: int|
            0 <= i < 116 ==> json_u64(#[trigger] items[i]) == Some(value@[i] as u64),
{
    let mut items: Vec<Value> = Vec::new();
    let mut i: usize = 0;
    while i < 116
        invariant
            i <= 116,
            value@.len() == 116,
            items@.len() == i,
            forall|k: int| 0 <= k < i ==> json_u64(#[trigger] items@[k]) == Some(value@[k] as u64),
        decreases 116 - i,
    {
        items.push(json_from_u64(value[i] as u64));
        i = i + 1;
    }
    Ok(json_from_items(items))
}

/// The 116 `u32`s an array document holds, or a type mismatch: for a
/// document that is not an array (showing its JSON text), for an array of
/// another length (showing the length), or for the first item that holds no
/// `u32` (showing the item's JSON text).
pub fn deserialize_u32x116_json(value: Value) -> (r: ReflectResult<[u32; 116]>)
    ensures
        match json_array(value) {
            None => is_mismatch(r, "[u32; 116]"@, json_display_text(value)),
            Some(items) => if items.len() != 116 {
                is_mismatch(r, "[u32; 116]"@, "array length "@ + decimal(items.len()))
            } else {
                match first_non_u32(items) {
                    Some(i) => is_mismatch(r, "u32"@, json_display_text(items[i])),
                    None => r matches Ok(a) && a@ == u32_items(items),
                }
            },
        },
{
    proof {
        reveal_strlit("[u32; 116]");
        reveal_strlit("array length ");
        reveal_strlit("u32");
    }
    let items = match json_as_array(&value) {
        Some(items) => items,
        None => {
            return Err(ReflectError::TypeMismatch { expected: "[u32; 116]", found: json_display(&value) });
        },
    };
    if items.len() != 116 {
        let mut found = String::new();
        found.append("array length ");
        push_decimal(&mut found, items.len());
        return Err(ReflectError::TypeMismatch { expected: "[u32; 116]", found });
    }
    let mut result = [0u32; 116];
    let mut index: usize = 0;
    while index < 116
        invariant
            index <= 116,
            json_array(value) == Some(items@),
            items@.len() == 116,
            result@.len() == 116,
            forall|k: int| 0 <= k < index ==> decoded_u32(#[trigger] items@[k]) is Some,
            forall|k: int| 0 <= k < index ==> result@[k] == decoded_u32(#[trigger] items@[k]).unwrap(),
        decreases 116 - index,
    {
        let item = &items[index];
        let n = match json_as_u64(item) {
            Some(n) => if n <= 0xffff_ffff {
                Some(n as u32)
            } else {
                None
            },
            None => None,
        };
        match n {
            Some(n) => {
                result.set(index, n);
            },
            None => {
                proof {
                    let c = choose|i: int|
                        0 <= i < items@.len() && decoded_u32(items@[i]) is None && forall|j: int|
                            0 <= j < i ==> decoded_u32(#[trigger] items@[j]) is Some;
                    assert(decoded_u32(items@[index as int]) is None);
                    if c < index {
                        assert(decoded_u32(items@[c]) is Some);
                    }
                    if c > index {
                        assert(decoded_u32(items@[index as int]) is Some);
                    }
                    assert(first_non_u32(items@) == Some(index as int));
                }
                return Err(ReflectError::TypeMismatch { expected: "u32", found: json_display(item) });
            },
        }
        index = index + 1;
    }
    proof {
        assert(result@ =~= u32_items(items@));
    }
    Ok(result)
}

/// Writing 116 `u32`s to JSON and reading them back gives the numbers.
pub proof fn law_u32x116_json_round_trip(a: Seq<u32>, items: Seq<Value>)
    requires
        a.len() == 116,
        items.len() == 116,
        forall|i: int| 0 <= i < 116 ==> json_u64(#[trigger] items[i]) == Some(a[i] as u64),
    ensures
        first_non_u32(items) is None,
        u32_items(items) == a,
{
    assert forall|i: int| 0 <= i < items.len() implies decoded_u32(#[trigger] items[i]) is Some && decoded_u32(items[i]).unwrap() == a[i] by {
        assert(json_u64(items[i]) == Some(a[i] as u64));
    }
    assert(u32_items(items) =~= a);
}

/// The position of the first variant with text `name`.
pub open spec fn variant_named(variants: Seq<&'static str>, name: Seq<char>) -> Option<int> {
    if exists|i: int| 0 <= i < variants.len() && variants[i]@ == name {
        Some(
            choose|i: int|
                0 <= i < variants.len() && variants[i]@ == name && forall|j: int| 0 <= j < i ==> variants[j]@ != name,
        )
    } else {
        None
    }
}

/// The variant a document names: a non-negative integer below the number of
/// variants is that variant's index; otherwise a string names the first
/// variant with that text.
pub open spec fn enum_index_of(v: Value, variants: Seq<&'static str>) -> Option<int> {
    if json_u64(v) is Some && (json_u64(v).unwrap() as usize) < variants.len() {
        Some(json_u64(v).unwrap() as usize as int)
    } else if json_str(v) is Some {
        variant_named(variants, json_str(v).unwrap())
    } else {
        None
    }
}

/// The index of the variant of `variants` that `value` names, or an
/// invalid-variant error that shows the document.
pub fn deserialize_enum(value: &Value, variants: &[&'static str]) -> (r: ReflectResult<usize>)
    ensures
        match enum_index_of(*value, variants@) {
            Some(i) => r == Ok::<usize, ReflectError>(i as usize),
            None => r matches Err(ReflectError::InvalidVariant { enum_name, variant }) && enum_name@ == "unknown"@
                && variant@ == json_debug_text(*value),
        },
{
    match json_as_u64(value) {
        Some(n) => {
            let index = #[verifier::truncate] (n as usize);
            if index < variants.len() {
                return Ok(index);
            }
        },
        None => {},
    }
    match json_as_str(value) {
        Some(name) => {
            let mut i: usize = 0;
            while i < variants.len()
                invariant
                    json_str(*value) == Some(name@),
                    !(json_u64(*value) is Some && (json_u64(*value).unwrap() as usize) < variants@.len()),
                    i <= variants@.len(),
                    forall|j: int| 0 <= j < i ==> variants@[j]@ != name@,
                decreases variants@.len() - i,
            {
                if str_eq(variants[i], name) {
                    proof {
                        let c = choose|k: int|
                            0 <= k < variants@.len() && variants@[k]@ == name@ && forall|j: int|
                                0 <= j < k ==> variants@[j]@ != name@;
                        assert(0 <= i < variants@.len() && variants@[i as int]@ == name@);
                        if c < i {
                            assert(variants@[c]@ != name@);
                        }
                        if c > i {
                            assert(variants@[i as int]@ != name@);
                        }
                    }
                    return Ok(i);
                }
                i = i + 1;
            }
        },
        None => {},
    }
    proof {
        reveal_strlit("unknown");
    }
    Err(ReflectError::InvalidVariant { enum_name: "unknown", variant: json_debug(value) })
}

/// A variant's index as JSON, as the serializer writes enums.
pub fn serialize_enum(variant_index: usize) -> (r: Value)
    ensures
        json_u64(r) == Some(variant_index as u64),
{
    json_from_u64(variant_index as u64)
}

/// Writing a `u32` to JSON and reading it back gives the number.
pub proof fn law_u32_json_round_trip(n: u32, v: Value)
    requires
        json_u64(v) == Some(n as u64),
    ensures
        decoded_u32(v) == Some(n),
{
}

/// Writing a `u64` to JSON and reading it back gives the number.
pub proof fn law_u64_json_round_trip(n: u64, v: Value)
    requires
        json_u64(v) == Some(n),
    ensures
        decoded_u64(v) == Some(n),
{
}

/// Writing an `i64` to JSON and reading it back gives the number.
pub proof fn law_i64_json_round_trip(n: i64, v: Value)
    requires
        json_i64(v) == Some(n),
    ensures
        decoded_i64(v) == Some(n),
{
}

/// Writing a boolean to JSON and reading it back gives the boolean.
pub proof fn law_bool_json_round_trip(b: bool, v: Value)
    requires
        decoded_bool(v) == Some(b),
    ensures
        decoded_bool(v) matches Some(c) && c == b,
{
}

/// Writing a string to JSON and reading it back gives the same text.
pub proof fn law_string_json_round_trip(t: Seq<char>, v: Value)
    requires
        json_str(v) == Some(t),
    ensures
        json_str(v) matches Some(u) && u == t,
{
}

/// Writing an `i32` to JSON and reading it back gives the number.
pub proof fn law_i32_json_round_trip(n: i32, v: Value)
    requires
        json_i64(v) == Some(n as i64),
    ensures
        decoded_i32(v) == Some(n),
{
    assert((n as i64) as i32 == n) by (bit_vector);
}

/// Writing an enum's index to JSON and reading it back gives the index.
pub proof fn law_enum_json_round_trip(index: usize, variants: Seq<&'static str>, v: Value)
    requires
        index < variants.len(),
        json_u64(v) == Some(index as u64),
    ensures
        enum_index_of(v, variants) == Some(index as int),
{
}

/// Field `fld` of the object `v` is there and `f` reads it.
pub open spec fn field_read_ok<V, F: Fn(&'static RuntimeTypeInfo, Value) -> ReflectResult<V>>(
    f: F,
    v: Value,
    fld: FieldInfo,
) -> bool {
    &&& json_member(v, fld.name@) is Some
    &&& exists|x: V| f.ensures((fld.type_info, json_member(v, fld.name@).unwrap()), Ok::<V, ReflectError>(x))
}

/// Reading field `fld` of the object `v` fails with `e`: the field is
/// missing, or `f` fails on it.
pub open spec fn field_read_fails<V, F: Fn(&'static RuntimeTypeInfo, Value) -> ReflectResult<V>>(
    f: F,
    v: Value,
    fld: FieldInfo,
    e: ReflectError,
) -> bool {
    match json_member(v, fld.name@) {
        None => e matches ReflectError::MissingField { struct_name, field_name } && struct_name@ == "unknown"@
            && field_name == fld.name,
        Some(m) => f.ensures((fld.type_info, m), Err::<V, ReflectError>(e)),
    }
}

/// Reads a struct from the object `value`, field by field in order, each
/// field's member through `f` with the field's type: not an object is a type
/// mismatch, and the first field that is missing or that `f` fails on ends
/// the read with that error.
pub fn deserialize_struct_with<V, F: Fn(&'static RuntimeTypeInfo, Value) -> ReflectResult<V>>(
    value: &Value,
    fields: &[FieldInfo],
    f: F,
) -> (r: ReflectResult<Vec<(&'static str, V)>>)
    requires
        forall|i: int|
            0 <= i < fields@.len() && json_member(*value, fields@[i].name@) is Some ==> f.requires(
                (fields@[i].type_info, json_member(*value, fields@[i].name@).unwrap()),
            ),
    ensures
        !is_json_object(*value) ==> is_mismatch(r, "object"@, json_debug_text(*value)),
        is_json_object(*value) ==> match r {
            Ok(out) => out@.len() == fields@.len() && forall|i: int|
                0 <= i < fields@.len() ==> {
                    &&& (#[trigger] out@[i]).0 == fields@[i].name
                    &&& json_member(*value, fields@[i].name@) is Some
                    &&& f.ensures(
                        (fields@[i].type_info, json_member(*value, fields@[i].name@).unwrap()),
                        Ok::<V, ReflectError>(out@[i].1),
                    )
                },
            Err(e) => exists|k: int|
                0 <= k < fields@.len() && (forall|i: int| 0 <= i < k ==> field_read_ok(f, *value, #[trigger] fields@[i]))
                    && #[trigger] field_read_fails(f, *value, fields@[k], e),
        },
{
    proof {
        reveal_strlit("object");
        reveal_strlit("unknown");
    }
    if !json_is_object(value) {
        return Err(ReflectError::TypeMismatch { expected: "object", found: json_debug(value) });
    }
    let mut out: Vec<(&'static str, V)> = Vec::new();
    let mut i: usize = 0;
    while i < fields.len()
        invariant
            is_json_object(*value),
            i <= fields@.len(),
            out@.len() == i,
            forall|j: int|
                0 <= j < fields@.len() && json_member(*value, fields@[j].name@) is Some ==> f.requires(
                    (fields@[j].type_info, json_member(*value, fields@[j].name@).unwrap()),
                ),
            forall|j: int|
                0 <= j < i ==> {
                    &&& (#[trigger] out@[j]).0 == fields@[j].name
                    &&& json_member(*value, fields@[j].name@) is Some
                    &&& f.ensures(
                        (fields@[j].type_info, json_member(*value, fields@[j].name@).unwrap()),
                        Ok::<V, ReflectError>(out@[j].1),
                    )
                },
        decreases fields@.len() - i,
    {
        let fld = &fields[i];
        proof {
            assert forall|j: int| 0 <= j < i implies field_read_ok(f, *value, #[trigger] fields@[j]) by {
                let x = out@[j].1;
                assert(f.ensures((fields@[j].type_info, json_member(*value, fields@[j].name@).unwrap()), Ok::<V, ReflectError>(x)));
            }
        }
        match json_field(value, fld.name) {
            None => {
                let e = ReflectError::MissingField { struct_name: "unknown", field_name: fld.name };
                proof {
                    assert(field_read_fails(f, *value, fields@[i as int], e));
                }
                return Err(e);
            },
            Some(m) => {
                let res = f(fld.type_info, json_clone(m));
                match res {
                    Ok(x) => {
                        out.push((fld.name, x));
                    },
                    Err(e) => {
                        proof {
                            assert(field_read_fails(f, *value, fields@[i as int], e));
                        }
                        return Err(e);
                    },
                }
            },
        }
        i = i + 1;
    }
    Ok(out)
}

/// Converting the items in order with `f` succeeds on every item before
/// position `k` and fails on item `k` with `e`.
pub open spec fn items_fail_at<T, U, F: Fn(T) -> ReflectResult<U>>(f: F, items: Seq<T>, k: int, e: ReflectError) -> bool {
    &&& 0 <= k < items.len()
    &&& forall|i: int| 0 <= i < k ==> #[trigger] converts::<T, U, F>(f, items[i])
    &&& f.ensures((items[k],), Err::<U, ReflectError>(e))
}

/// `f` converts `t` successfully, to some value.
pub open spec fn converts<T, U, F: Fn(T) -> ReflectResult<U>>(f: F, t: T) -> bool {
    exists|x: U| f.ensures((t,), Ok::<U, ReflectError>(x))
}

/// Items converted to `outs` by `f` each have some conversion.
proof fn lemma_converted<T, U, F: Fn(T) -> ReflectResult<U>>(f: F, items: Seq<T>, outs: Seq<U>, k: int, e: ReflectError)
    requires
        0 <= k < items.len(),
        k <= outs.len(),
        forall|j: int| 0 <= j < k ==> f.ensures((items[j],), Ok::<U, ReflectError>(#[trigger] outs[j])),
        f.ensures((items[k],), Err::<U, ReflectError>(e)),
    ensures
        items_fail_at(f, items, k, e),
{
    assert forall|j: int| 0 <= j < k implies #[trigger] converts::<T, U, F>(f, items[j]) by {
        assert(f.ensures((items[j],), Ok::<U, ReflectError>(outs[j])));
    }
}

/// Reads an array from the document `value`, each item through `f`: not an
/// array is a type mismatch, and the first item that `f` fails on ends the
/// read with that error.
pub fn deserialize_array_with<V, F: Fn(Value) -> ReflectResult<V>>(value: &Value, f: F) -> (r: ReflectResult<Vec<V>>)
    requires
        json_array(*value) is Some ==> forall|i: int|
            0 <= i < json_array(*value).unwrap().len() ==> f.requires((#[trigger] json_array(*value).unwrap()[i],)),
    ensures
        json_array(*value) is None ==> is_mismatch(r, "array"@, json_debug_text(*value)),
        json_array(*value) is Some ==> match r {
            Ok(out) => out@.len() == json_array(*value).unwrap().len() && forall|i: int|
                0 <= i < out@.len() ==> f.ensures((json_array(*value).unwrap()[i],), Ok::<V, ReflectError>(#[trigger] out@[i])),
            Err(e) => exists|k: int| #[trigger] items_fail_at(f, json_array(*value).unwrap(), k, e),
        },
{
    proof {
        reveal_strlit("array");
    }
    let items = match json_as_array(value) {
        Some(items) => items,
        None => {
            return Err(ReflectError::TypeMismatch { expected: "array", found: json_debug(value) });
        },
    };
    proof {
        assert forall|j: int| 0 <= j < items@.len() implies f.requires((#[trigger] items@[j],)) by {
            assert(json_array(*value).unwrap()[j] == items@[j]);
        }
    }
    let mut out: Vec<V> = Vec::new();
    let mut i: usize = 0;
    while i < items.len()
        invariant
            json_array(*value) == Some(items@),
            i <= items@.len(),
            out@.len() == i,
            forall|j: int| 0 <= j < items@.len() ==> f.requires((#[trigger] items@[j],)),
            forall|j: int| 0 <= j < i ==> f.ensures((items@[j],), Ok::<V, ReflectError>(#[trigger] out@[j])),
        decreases items@.len() - i,
    {
        let res = f(json_clone(&items[i]));
        match res {
            Ok(x) => {
                out.push(x);
            },
            Err(e) => {
                proof {
                    let s = json_array(*value).unwrap();
                    assert(s == items@);
                    lemma_converted(f, s, out@, i as int, e);
                    assert(items_fail_at(f, s, i as int, e));
                }
                return Err(e);
            },
        }
        i = i + 1;
    }
    Ok(out)
}

/// Writes the values as a JSON array, each through `f`; the first value
/// that `f` fails on ends the write with that error.
pub fn serialize_array_with<A: Copy, F: Fn(A) -> ReflectResult<Value>>(values: &[A], f: F) -> (r: ReflectResult<Value>)
    requires
        forall|i: int| 0 <= i < values@.len() ==> f.requires((#[trigger] values@[i],)),
    ensures
        match r {
            Ok(v) => json_array(v) is Some && json_array(v).unwrap().len() == values@.len() && forall|i: int|
                0 <= i < values@.len() ==> f.ensures((values@[i],), Ok::<Value, ReflectError>(#[trigger] json_array(v).unwrap()[i])),
            Err(e) => exists|k: int| #[trigger] items_fail_at(f, values@, k, e),
        },
{
    let mut items: Vec<Value> = Vec::new();
    let mut i: usize = 0;
    while i < values.len()
        invariant
            i <= values@.len(),
            items@.len() == i,
            forall|j: int| 0 <= j < values@.len() ==> f.requires((#[trigger] values@[j],)),
            forall|j: int| 0 <= j < i ==> f.ensures((values@[j],), Ok::<Value, ReflectError>(#[trigger] items@[j])),
        decreases values@.len() - i,
    {
        let res = f(values[i]);
        match res {
            Ok(x) => {
                items.push(x);
            },
            Err(e) => {
                proof {
                    lemma_converted(f, values@, items@, i as int, e);
                    assert(items_fail_at(f, values@, i as int, e));
                }
                return Err(e);
            },
        }
        i = i + 1;
    }
    Ok(json_from_items(items))
}

/// The entries that a struct's fields give with the values written for
/// them, in order: a later field replaces an earlier one with its name.
pub open spec fn struct_entries<A>(fields: Seq<(&str, A)>, items: Seq<Value>) -> Map<Seq<char>, Value>
    decreases fields.len(),
{
    if fields.len() == 0 || items.len() == 0 {
        Map::empty()
    } else {
        struct_entries(fields.drop_last(), items.drop_last()).insert(fields.last().0@, items.last())
    }
}

/// Writes the fields as a JSON object, each value through `f`, under the
/// field's name; the first value that `f` fails on ends the write with that
/// error.
pub fn serialize_struct_with<A: Copy, F: Fn(A) -> ReflectResult<Value>>(fields: &[(&str, A)], f: F) -> (r: ReflectResult<Value>)
    requires
        forall|i: int| 0 <= i < fields@.len() ==> f.requires(((#[trigger] fields@[i]).1,)),
    ensures
        match r {
            Ok(v) => is_json_object(v) && exists|items: Seq<Value>|
                items.len() == fields@.len() && (forall|i: int|
                    0 <= i < fields@.len() ==> f.ensures((fields@[i].1,), Ok::<Value, ReflectError>(#[trigger] items[i])))
                    && forall|k: Seq<char>|
                    #[trigger] json_member(v, k) == if struct_entries(fields@, items).dom().contains(k) {
                        Some(struct_entries(fields@, items)[k])
                    } else {
                        None::<Value>
                    },
            Err(e) => exists|k: int|
                0 <= k < fields@.len() && (forall|i: int|
                    0 <= i < k ==> exists|x: Value| f.ensures(((#[trigger] fields@[i]).1,), Ok::<Value, ReflectError>(x)))
                    && f.ensures((fields@[k].1,), Err::<Value, ReflectError>(e)),
        },
{
    let mut map = json_map_new();
    let ghost mut items: Seq<Value> = Seq::empty();
    let mut i: usize = 0;
    while i < fields.len()
        invariant
            i <= fields@.len(),
            items.len() == i,
            forall|j: int| 0 <= j < fields@.len() ==> f.requires(((#[trigger] fields@[j]).1,)),
            forall|j: int| 0 <= j < i ==> f.ensures((fields@[j].1,), Ok::<Value, ReflectError>(#[trigger] items[j])),
            json_map_entries(map) == struct_entries(fields@.take(i as int), items),
        decreases fields@.len() - i,
    {
        let (name, a) = fields[i];
        let res = f(a);
        match res {
            Ok(x) => {
                let ghost gx = x;
                proof {
                    let t = fields@.take(i + 1);
                    assert(t.drop_last() =~= fields@.take(i as int));
                    assert(items.push(gx).drop_last() =~= items);
                    assert(t.last() == fields@[i as int]);
                }
                json_map_insert(&mut map, name.to_string(), x);
                proof {
                    items = items.push(gx);
                }
            },
            Err(e) => {
                proof {
                    assert forall|j: int| 0 <= j < i implies exists|x: Value| f.ensures(((#[trigger] fields@[j]).1,), Ok::<Value, ReflectError>(x)) by {
                        assert(f.ensures((fields@[j].1,), Ok::<Value, ReflectError>(items[j])));
                    }
                }
                return Err(e);
            },
        }
        i = i + 1;
    }
    proof {
        assert(fields@.take(fields@.len() as int) =~= fields@);
    }
    let v = json_from_map(map);
    proof {
        assert(items.len() == fields@.len());
    }
    Ok(v)
}

} // verus!

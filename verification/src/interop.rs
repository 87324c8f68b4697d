//! The few calls into std and outside crates that the reflection logic makes,
//! each with the contract this library relies on.

use std::any::TypeId;
use serde_json::Map as JsonMap;
use serde_json::Value;
use std::sync::Arc;
use uuid::Uuid;
use vstd::prelude::*;

verus! {

/// `std::any::TypeId`, carried through the registries as an opaque key.
#[verifier::external_type_specification]
#[verifier::external_body]
pub struct ExTypeId(TypeId);

/// `uuid::Uuid`, the identity of a runtime-composed type.
#[verifier::external_type_specification]
#[verifier::external_body]
pub struct ExUuid(Uuid);

/// `<TypeId as Clone>::clone`: `TypeId` is `Copy`, so the clone is the same
/// value.
pub assume_specification[ <TypeId as Clone>::clone ](id: &TypeId) -> (r: TypeId)
    ensures
        r == *id,
;

/// `<TypeId as PartialEq>::eq`. Two type ids compare equal exactly when they
/// are the same value (`TypeId` compares its whole hash).
#[verifier::external_body]
pub fn type_id_eq(a: &TypeId, b: &TypeId) -> (r: bool)
    ensures
        r == (*a == *b),
{
    *a == *b
}

/// `TypeId::of::<T>()`. Nothing is stated of the value: the compiler picks it.
#[verifier::external_body]
pub fn type_id_of<T: ?Sized + 'static>() -> TypeId {
    TypeId::of::<T>()
}

/// `<str as PartialEq>::eq`: two string slices are equal exactly when they
/// hold the same characters.
#[verifier::external_body]
pub fn str_eq(a: &str, b: &str) -> (r: bool)
    ensures
        r == (a@ == b@),
{
    a == b
}

/// `<Uuid as PartialEq>::eq`, which `Uuid` derives over its sixteen bytes: the
/// result is plain value equality.
#[verifier::external_body]
pub fn uuid_eq(a: &Uuid, b: &Uuid) -> (r: bool)
    ensures
        r == (*a == *b),
{
    *a == *b
}

/// `Uuid::new_v4()`: a fresh random identifier. It depends on the random
/// number generator, so nothing is stated of it.
#[verifier::external_body]
pub fn new_random_uuid() -> Uuid {
    Uuid::new_v4()
}

/// The text that `{:?}` writes for a type id.
pub uninterp spec fn type_id_debug_text(id: TypeId) -> Seq<char>;

/// `<TypeId as Debug>::fmt`, through `format!("{:?}", ..)`. The text depends
/// on the id alone; it is named `type_id_debug_text`, and nothing more is
/// stated of it.
#[verifier::external_body]
pub fn type_id_debug(id: &TypeId) -> (r: String)
    ensures
        r@ == type_id_debug_text(*id),
{
    format!("{:?}", id)
}

/// `<Arc<T> as Clone>::clone`: a new pointer to the same value.
#[verifier::external_body]
pub fn arc_clone<T>(a: &Arc<T>) -> (r: Arc<T>)
    ensures
        r == *a,
{
    Arc::clone(a)
}

/// `serde_json::Value`, a JSON document.
#[verifier::external_type_specification]
#[verifier::external_body]
pub struct ExJsonValue(Value);

/// What `Value::as_u64` gives for a document.
pub uninterp spec fn json_u64(v: Value) -> Option<u64>;

/// What `Value::as_i64` gives for a document.
pub uninterp spec fn json_i64(v: Value) -> Option<i64>;

/// What `Value::as_bool` gives for a document.
pub uninterp spec fn json_bool(v: Value) -> Option<bool>;

/// The text of what `Value::as_str` gives for a document.
pub uninterp spec fn json_str(v: Value) -> Option<Seq<char>>;

/// The text that `{:?}` writes for a document.
pub uninterp spec fn json_debug_text(v: Value) -> Seq<char>;

/// `serde_json::Map`, the entries of a JSON object.
#[verifier::external_type_specification]
#[verifier::external_body]
#[verifier::reject_recursive_types(K)]
#[verifier::reject_recursive_types(V)]
pub struct ExJsonMap<K, V>(serde_json::Map<K, V>);

/// The map of a JSON object document.
pub type JsonObject = JsonMap<String, Value>;

/// The entries that a JSON object map holds, by key.
pub uninterp spec fn json_map_entries(m: JsonObject) -> Map<Seq<char>, Value>;

/// Whether `Value::is_object` holds of a document.
pub uninterp spec fn is_json_object(v: Value) -> bool;

/// What `Value::get` gives for a document and a key: the member of an
/// object under that key.
pub uninterp spec fn json_member(v: Value, key: Seq<char>) -> Option<Value>;

/// `serde_json::Map::new`: no entries.
#[verifier::external_body]
pub fn json_map_new() -> (r: JsonObject)
    ensures
        json_map_entries(r).dom() == Set::<Seq<char>>::empty(),
{
    JsonMap::new()
}

/// `serde_json::Map::insert`: the entry under `k` becomes `v`, replacing
/// the one there was.
#[verifier::external_body]
pub fn json_map_insert(m: &mut JsonObject, k: String, v: Value)
    ensures
        json_map_entries(*final(m)) == json_map_entries(*old(m)).insert(k@, v),
{
    m.insert(k, v);
}

/// `Value::Object`: the object document with the entries of `m`, whose
/// members under each key are those entries.
#[verifier::external_body]
pub fn json_from_map(m: JsonObject) -> (r: Value)
    ensures
        is_json_object(r),
        forall|k: Seq<char>|
            #[trigger] json_member(r, k) == if json_map_entries(m).dom().contains(k) {
                Some(json_map_entries(m)[k])
            } else {
                None::<Value>
            },
{
    Value::Object(m)
}

/// `Value::is_object`. Named `is_json_object`.
#[verifier::external_body]
pub fn json_is_object(v: &Value) -> (r: bool)
    ensures
        r == is_json_object(*v),
{
    v.is_object()
}

/// `Value::get` with a string key: the member under `key` of an object
/// document (named `json_member`); a document that is not an object has no
/// members.
#[verifier::external_body]
pub fn json_field<'a>(v: &'a Value, key: &str) -> (r: Option<&'a Value>)
    ensures
        match r {
            Some(x) => json_member(*v, key@) == Some(*x),
            None => json_member(*v, key@) is None,
        },
        !is_json_object(*v) ==> r is None,
{
    v.get(key)
}

/// `<Value as Clone>::clone`, which `Value` derives: the same document.
#[verifier::external_body]
pub fn json_clone(v: &Value) -> (r: Value)
    ensures
        r == *v,
{
    v.clone()
}

/// The document that `serde_json::from_str` reads from a text, `None` where
/// it fails.
pub uninterp spec fn json_parse(text: Seq<char>) -> Option<Value>;

/// The `Display` text of the error that `serde_json::from_str` gives for a
/// text it fails on.
pub uninterp spec fn json_parse_error_text(text: Seq<char>) -> Seq<char>;

/// `serde_json::from_str::<Value>`, the error turned into its `Display`
/// text: the document read from `text` (named `json_parse`), or the error's
/// text (named `json_parse_error_text`). Both depend on the text alone.
#[verifier::external_body]
pub fn json_parse_text(text: &str) -> (r: Result<Value, String>)
    ensures
        match r {
            Ok(v) => json_parse(text@) == Some(v),
            Err(e) => json_parse(text@) is None && e@ == json_parse_error_text(text@),
        },
{
    serde_json::from_str::<Value>(text).map_err(|e| e.to_string())
}

/// The items of what `Value::as_array` gives for a document.
pub uninterp spec fn json_array(v: Value) -> Option<Seq<Value>>;

/// The text that `Display` writes for a document (its compact JSON text).
pub uninterp spec fn json_display_text(v: Value) -> Seq<char>;

/// `Value::as_array`: the items of an array document, else `None`. Named
/// `json_array`.
#[verifier::external_body]
pub fn json_as_array(v: &Value) -> (r: Option<&Vec<Value>>)
    ensures
        match r {
            Some(items) => json_array(*v) == Some(items@),
            None => json_array(*v) is None,
        },
{
    v.as_array()
}

/// `<Value as Display>::fmt`, through `to_string`. Named
/// `json_display_text`; nothing more is stated of the text.
#[verifier::external_body]
pub fn json_display(v: &Value) -> (r: String)
    ensures
        r@ == json_display_text(*v),
{
    v.to_string()
}

/// `Value::Array`: the array document with `items`, which is not a number,
/// a boolean or a string.
#[verifier::external_body]
pub fn json_from_items(items: Vec<Value>) -> (r: Value)
    ensures
        json_array(r) == Some(items@),
        json_u64(r) is None,
        json_i64(r) is None,
        json_bool(r) is None,
        json_str(r) is None,
{
    Value::Array(items)
}

/// `Value::as_u64`: the integer of a number document that fits in `u64`,
/// else `None`. Named `json_u64`. A document it reads is a number, so it is
/// not a string, a boolean or an array.
#[verifier::external_body]
pub fn json_as_u64(v: &Value) -> (r: Option<u64>)
    ensures
        r == json_u64(*v),
        r is Some ==> json_str(*v) is None && json_bool(*v) is None && json_array(*v) is None,
{
    v.as_u64()
}

/// `Value::as_i64`: the integer of a number document that fits in `i64`,
/// else `None`. Named `json_i64`.
#[verifier::external_body]
pub fn json_as_i64(v: &Value) -> (r: Option<i64>)
    ensures
        r == json_i64(*v),
{
    v.as_i64()
}

/// `Value::as_bool`: the boolean of a boolean document, else `None`. Named
/// `json_bool`.
#[verifier::external_body]
pub fn json_as_bool(v: &Value) -> (r: Option<bool>)
    ensures
        r == json_bool(*v),
{
    v.as_bool()
}

/// `Value::as_str`: the text of a string document, else `None`. Named
/// `json_str`.
#[verifier::external_body]
pub fn json_as_str(v: &Value) -> (r: Option<&str>)
    ensures
        match r {
            Some(s) => json_str(*v) == Some(s@),
            None => json_str(*v) is None,
        },
{
    v.as_str()
}

/// `<Value as Debug>::fmt`, through `format!("{:?}", ..)`. Named
/// `json_debug_text`; nothing more is stated of the text.
#[verifier::external_body]
pub fn json_debug(v: &Value) -> (r: String)
    ensures
        r@ == json_debug_text(*v),
{
    format!("{:?}", v)
}

/// `<Value as From<u64>>::from`: a number document holding `n` as a
/// non-negative integer, so `as_u64` gives `n` back, `as_i64` gives it where
/// it fits, and it is not a boolean, a string or an array.
#[verifier::external_body]
pub fn json_from_u64(n: u64) -> (r: Value)
    ensures
        json_u64(r) == Some(n),
        json_i64(r) == (if n <= i64::MAX as u64 { Some(n as i64) } else { None::<i64> }),
        json_bool(r) is None,
        json_str(r) is None,
        json_array(r) is None,
{
    Value::from(n)
}

/// `<Value as From<i64>>::from`: a number document holding `n`, so
/// `as_i64` gives `n` back, `as_u64` gives it where it is not negative, and
/// it is not a boolean, a string or an array.
#[verifier::external_body]
pub fn json_from_i64(n: i64) -> (r: Value)
    ensures
        json_i64(r) == Some(n),
        json_u64(r) == (if n >= 0 { Some(n as u64) } else { None::<u64> }),
        json_bool(r) is None,
        json_str(r) is None,
        json_array(r) is None,
{
    Value::from(n)
}

/// `<Value as From<bool>>::from`: the boolean document `b`, which is not a
/// number, a string or an array.
#[verifier::external_body]
pub fn json_from_bool(b: bool) -> (r: Value)
    ensures
        json_bool(r) == Some(b),
        json_u64(r) is None,
        json_i64(r) is None,
        json_str(r) is None,
        json_array(r) is None,
{
    Value::from(b)
}

/// `<Value as From<&str>>::from`: the string document with the text of `s`,
/// which is not a number, a boolean or an array.
#[verifier::external_body]
pub fn json_from_str(s: &str) -> (r: Value)
    ensures
        json_str(r) == Some(s@),
        json_u64(r) is None,
        json_i64(r) is None,
        json_bool(r) is None,
        json_array(r) is None,
{
    Value::from(s)
}

} // verus!

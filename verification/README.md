# pulsar_reflection

Runtime reflection for the Pulsar engine, as a verified library.

- `src/` is the library, verified by Verus. Its functions carry contracts;
  where a result depends on the type a generic call is made for
  (`TypeId::of::<T>()`), Verus cannot name it, so `TypeRef::is` states
  nothing, `TypeRef::of` and `RuntimeTypeInfo::primitive` leave the id open,
  and `RuntimeTypeRegistry::get` says only that what it finds is registered.
  A new runtime-composed type's identifier is random, so nothing is stated of
  it. The calls into `std`, `serde_json` and `uuid` stand behind the trusted
  items of `src/interop.rs`.
  - `runtime_types`: type descriptors, base names, declared and hashed colors.
  - `runtime_registry`: reflectable types by type id with their JSON conversions.
  - `json_codec`: JSON documents, the conversions of the integer, boolean and
    string types, enum variants by index or name, arrays and structs item by
    item and field by field.
  - `movability`: the renderer's movability setting and its JSON form.
  - `dynamic_types`: types composed at run time, their memory layout, their
    instances and their registry.
  - `methods`: reflected methods, the checks on receivers and arguments, the
    method registry.
  - `method_signatures`: which method signatures can be reflected, and how
    their receiver, parameters and result are passed.
  - `attributes`, `deprecation`: the arguments that `#[pulsar_type(...)]`
    accepts, and the warning for its deprecated ones.
  - `engine`, `registry`, `dyn_registry`, `type_renderer`: engine classes,
    component and `dyn`-receiver methods, subsystems, scene props, renderers.
  - `keyed`, `sorting`, `text`: the association list behind the registries,
    name sorting, message text.
- `app/` holds what works on `dyn Any`, floating-point numbers and the
  link-time registries (`inventory`), around the library.
- `tests/` runs the library.

The derive and attribute macros themselves (token parsing and code
emission) and the editor widgets are not part of this crate: the library
holds the decisions they make, on plain values.

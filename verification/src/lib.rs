//! Runtime type metadata for the Pulsar engine: type descriptors and their
//! layout, the registries that hold types, classes, methods and renderers,
//! the checks that stand between a type-erased call and the method it
//! reaches, runtime-composed types and their values, the JSON conversions of
//! the primitive types, and which method signatures and type attributes the
//! registration macros accept, with the warning for deprecated arguments.

pub mod interop;
pub mod keyed;
pub mod sorting;
pub mod text;

pub mod runtime_types;
pub mod type_traits;
pub mod runtime_registry;
pub mod json_codec;
pub mod dynamic_types;

pub mod methods;
pub mod engine;
pub mod registry;
pub mod dyn_registry;
pub mod type_renderer;
pub mod attributes;
pub mod method_signatures;
pub mod movability;
pub mod deprecation;

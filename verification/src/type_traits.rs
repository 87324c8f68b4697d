//! Errors of reflection operations.

use vstd::prelude::*;

verus! {

/// Result type for reflection operations.
pub type ReflectResult<T> = Result<T, ReflectError>;

/// Errors that can occur during reflection operations.
#[derive(Debug, Clone)]
pub enum ReflectError {
    /// Type mismatch during deserialization.
    TypeMismatch { expected: &'static str, found: String },
    /// Missing required field in struct deserialization.
    MissingField { struct_name: &'static str, field_name: &'static str },
    /// Invalid enum variant.
    InvalidVariant { enum_name: &'static str, variant: String },
    /// Serialization failed.
    SerializationFailed(String),
    /// Deserialization failed.
    DeserializationFailed(String),
    /// Custom error.
    Custom(String),
}

impl ReflectError {
    /// The error's message.
    pub open spec fn message(&self) -> Seq<char> {
        match self {
            ReflectError::TypeMismatch { expected, found } => "Type mismatch: expected "@ + expected@
                + ", found "@ + found@,
            ReflectError::MissingField { struct_name, field_name } => "Missing required field '"@
                + field_name@ + "' in struct '"@ + struct_name@ + "'"@,
            ReflectError::InvalidVariant { enum_name, variant } => "Invalid variant '"@ + variant@
                + "' for enum '"@ + enum_name@ + "'"@,
            ReflectError::SerializationFailed(msg) => "Serialization failed: "@ + msg@,
            ReflectError::DeserializationFailed(msg) => "Deserialization failed: "@ + msg@,
            ReflectError::Custom(msg) => msg@,
        }
    }

    /// The error's message, as `Display` would write it.
    pub fn to_string(&self) -> (r: String)
        ensures
            r@ == self.message(),
    {
        let mut r = String::new();
        match self {
            ReflectError::TypeMismatch { expected, found } => {
                r.append("Type mismatch: expected ");
                r.append(expected);
                r.append(", found ");
                r.append(found.as_str());
            },
            ReflectError::MissingField { struct_name, field_name } => {
                r.append("Missing required field '");
                r.append(field_name);
                r.append("' in struct '");
                r.append(struct_name);
                r.append("'");
            },
            ReflectError::InvalidVariant { enum_name, variant } => {
                r.append("Invalid variant '");
                r.append(variant.as_str());
                r.append("' for enum '");
                r.append(enum_name);
                r.append("'");
            },
            ReflectError::SerializationFailed(msg) => {
                r.append("Serialization failed: ");
                r.append(msg.as_str());
            },
            ReflectError::DeserializationFailed(msg) => {
                r.append("Deserialization failed: ");
                r.append(msg.as_str());
            },
            ReflectError::Custom(msg) => {
                r.append(msg.as_str());
            },
        }
        r
    }
}

} // verus!

//! Runtime type descriptors: what a type is called, how large it is, and how
//! it is built (primitive, string, wrapper, struct, enum, or the wildcard).

use crate::interop::type_id_of;
use std::any::TypeId;
use std::collections::hash_map::DefaultHasher;
use std::hash::Hasher;
use vstd::prelude::*;
use vstd::std_specs::hash::DefaultHasherAdditionalSpecFns;
use vstd::string::StringSliceAdditionalSpecFns;

verus! {

/// Runtime type descriptor.
#[derive(Clone, Debug)]
pub struct RuntimeTypeInfo {
    /// Unique type identifier.
    pub type_id: TypeId,
    /// Full type name including module path.
    pub full_name: &'static str,
    /// Size in bytes.
    pub size: usize,
    /// Alignment in bytes.
    pub align: usize,
    /// Structural information about the type.
    pub structure: TypeStructure,
    /// Optional declared display color, as a hex string (`"#RRGGBB"` or
    /// `"#RRGGBBAA"`).
    pub color: Option<&'static str>,
}

/// Structural information about a type.
#[derive(Clone, Debug)]
pub enum TypeStructure {
    /// Primitive numeric or boolean type.
    Primitive,
    /// String type.
    String,
    /// Wrapper type containing another type.
    Wrapper { wrapper_kind: WrapperType, inner: &'static RuntimeTypeInfo },
    /// Struct with named fields.
    Struct { fields: &'static [FieldInfo] },
    /// Enum with variants.
    Enum { variants: &'static [&'static str] },
    /// "Matches anything" placeholder.
    Wildcard,
}

/// Kinds of wrapper containers.
#[derive(Clone, Copy, Debug, PartialEq, Eq, Hash)]
pub enum WrapperType {
    Vec,
    Box,
    Arc,
    Rc,
    Option,
    Result,
    HashMap,
    HashSet,
    Custom(&'static str),
}

/// Information about a struct field.
#[derive(Clone, Debug)]
pub struct FieldInfo {
    pub name: &'static str,
    pub type_info: &'static RuntimeTypeInfo,
    /// Offset from the start of the struct in bytes.
    pub offset: usize,
}

impl FieldInfo {
    pub fn new(name: &'static str, type_info: &'static RuntimeTypeInfo, offset: usize) -> (r: Self)
        ensures
            r.name == name,
            r.type_info == type_info,
            r.offset == offset,
    {
        FieldInfo { name, type_info, offset }
    }
}

/// `::` starts at position `i` of `s`.
pub open spec fn separator_at(s: Seq<char>, i: int) -> bool {
    0 <= i && i + 1 < s.len() && s[i] == ':' && s[i + 1] == ':'
}

/// Scanning `s` from position `i`, with the current piece starting at
/// `start`: the piece that follows the last `::` cut, cuts taken from left to
/// right without overlap.
pub open spec fn last_segment_from(s: Seq<char>, i: int, start: int) -> Seq<char>
    decreases s.len() - i,
{
    if i + 1 >= s.len() {
        s.subrange(start, s.len() as int)
    } else if separator_at(s, i) {
        last_segment_from(s, i + 2, i + 2)
    } else {
        last_segment_from(s, i + 1, start)
    }
}

/// The last piece of `s` cut at every `::`: what `split("::").last()` yields.
pub open spec fn last_segment(s: Seq<char>) -> Seq<char> {
    last_segment_from(s, 0, 0)
}

/// An RGBA color with one byte per channel.
#[derive(Clone, Copy, Debug, PartialEq, Eq)]
pub struct Rgba8 {
    pub r: u8,
    pub g: u8,
    pub b: u8,
    pub a: u8,
}

/// Where a type's display color comes from.
#[derive(Clone, Copy, Debug, PartialEq, Eq)]
pub enum ColorPlan {
    /// The wildcard: opaque white, drawn specially by consumers.
    Neutral,
    /// The declared hex color, channel by channel.
    Declared(Rgba8),
    /// No usable declared color: a hue in degrees, `0..360`, from a hash of
    /// the base name (saturation 0.7 and value 0.8 go with it).
    Hashed { hue: u64 },
}

/// Value of one hexadecimal digit byte.
pub open spec fn hex_digit(b: u8) -> Option<u8> {
    if 48 <= b <= 57 {
        Some((b - 48) as u8)
    } else if 97 <= b <= 102 {
        Some((b - 87) as u8)
    } else if 65 <= b <= 70 {
        Some((b - 55) as u8)
    } else {
        None
    }
}

/// The channel that the two hexadecimal digits `b[2k]`, `b[2k+1]` spell.
pub open spec fn hex_pair(b: Seq<u8>, k: int) -> Option<u8> {
    match (hex_digit(b[2 * k]), hex_digit(b[2 * k + 1])) {
        (Some(h), Some(l)) => Some((h * 16 + l) as u8),
        _ => None,
    }
}

/// The bytes of a color string without one leading `#`.
pub open spec fn color_digits(b: Seq<u8>) -> Seq<u8> {
    if b.len() > 0 && b[0] == 35 {
        b.skip(1)
    } else {
        b
    }
}

/// The color that `#RRGGBB` / `#RRGGBBAA` (with or without the `#`) spells,
/// six digits meaning an opaque color.
pub open spec fn parse_hex_color_spec(b: Seq<u8>) -> Option<Rgba8> {
    let d = color_digits(b);
    if d.len() == 6 {
        match (hex_pair(d, 0), hex_pair(d, 1), hex_pair(d, 2)) {
            (Some(r), Some(g), Some(bl)) => Some(Rgba8 { r, g, b: bl, a: 255 }),
            _ => None,
        }
    } else if d.len() == 8 {
        match (hex_pair(d, 0), hex_pair(d, 1), hex_pair(d, 2), hex_pair(d, 3)) {
            (Some(r), Some(g), Some(bl), Some(a)) => Some(Rgba8 { r, g, b: bl, a }),
            _ => None,
        }
    } else {
        None
    }
}

fn hex_digit_exec(b: u8) -> (r: Option<u8>)
    ensures
        r == hex_digit(b),
{
    if 48 <= b && b <= 57 {
        Some(b - 48)
    } else if 97 <= b && b <= 102 {
        Some(b - 87)
    } else if 65 <= b && b <= 70 {
        Some(b - 55)
    } else {
        None
    }
}

fn hex_pair_exec(d: &[u8], start: usize, k: usize) -> (r: Option<u8>)
    requires
        start <= 1,
        k <= 3,
        start + 2 * k + 1 < d@.len(),
    ensures
        r == hex_pair(d@.skip(start as int), k as int),
{
    let hi = d[start + 2 * k];
    let lo = d[start + 2 * k + 1];
    match (hex_digit_exec(hi), hex_digit_exec(lo)) {
        (Some(h), Some(l)) => Some(h * 16 + l),
        _ => None,
    }
}

/// Parse a `#RRGGBB` or `#RRGGBBAA` hex color into one byte per channel;
/// anything else, a sign or a multi-byte character among the digits
/// included, is no color.
pub fn parse_hex_color(hex: &str) -> (r: Option<Rgba8>)
    ensures
        r == parse_hex_color_spec(hex.spec_bytes()),
{
    let bytes = hex.as_bytes();
    let start: usize = if bytes.len() > 0 && bytes[0] == 35 { 1 } else { 0 };
    let n = bytes.len() - start;
    proof {
        assert(color_digits(bytes@) =~= bytes@.skip(start as int));
    }
    if n == 6 {
        match (hex_pair_exec(bytes, start, 0), hex_pair_exec(bytes, start, 1), hex_pair_exec(bytes, start, 2)) {
            (Some(r), Some(g), Some(b)) => Some(Rgba8 { r, g, b, a: 255 }),
            _ => None,
        }
    } else if n == 8 {
        match (
            hex_pair_exec(bytes, start, 0),
            hex_pair_exec(bytes, start, 1),
            hex_pair_exec(bytes, start, 2),
            hex_pair_exec(bytes, start, 3),
        ) {
            (Some(r), Some(g), Some(b), Some(a)) => Some(Rgba8 { r, g, b, a }),
            _ => None,
        }
    } else {
        None
    }
}

impl RuntimeTypeInfo {
    pub open spec fn is_wildcard_spec(&self) -> bool {
        self.structure is Wildcard
    }

    /// What `resolve_color` draws from: the wildcard is neutral, a parsable
    /// declared color wins, and otherwise the hue comes from the hash of the
    /// base name (`str` hashing writes the bytes, then `0xff`).
    pub open spec fn color_plan_spec(&self) -> ColorPlan {
        if self.is_wildcard_spec() {
            ColorPlan::Neutral
        } else if self.color is Some && parse_hex_color_spec(self.color->0.spec_bytes()) is Some {
            ColorPlan::Declared(parse_hex_color_spec(self.color->0.spec_bytes())->0)
        } else {
            let name_bytes = vstd::utf8::encode_utf8(last_segment(self.full_name@));
            ColorPlan::Hashed {
                hue: DefaultHasher::spec_finish(seq![name_bytes, seq![255u8]]) % 360,
            }
        }
    }

    /// The base type name without the module path: `"pulsar::math::Vec3"`
    /// gives `"Vec3"`.
    pub fn base_name(&self) -> (r: &str)
        ensures
            r@ == last_segment(self.full_name@),
    {
        let s = self.full_name;
        let n = s.unicode_len();
        let mut i: usize = 0;
        let mut start: usize = 0;
        while n - i > 1
            invariant
                n == s@.len(),
                start <= i <= n,
                last_segment(s@) == last_segment_from(s@, i as int, start as int),
            decreases n - i,
        {
            if s.get_char(i) == ':' && s.get_char(i + 1) == ':' {
                i = i + 2;
                start = i;
            } else {
                i = i + 1;
            }
        }
        s.substring_char(start, n)
    }

    pub fn is_primitive(&self) -> (r: bool)
        ensures
            r == (self.structure is Primitive),
    {
        matches!(self.structure, TypeStructure::Primitive)
    }

    pub fn is_string(&self) -> (r: bool)
        ensures
            r == (self.structure is String),
    {
        matches!(self.structure, TypeStructure::String)
    }

    pub fn is_struct(&self) -> (r: bool)
        ensures
            r == (self.structure is Struct),
    {
        matches!(self.structure, TypeStructure::Struct { .. })
    }

    pub fn is_enum(&self) -> (r: bool)
        ensures
            r == (self.structure is Enum),
    {
        matches!(self.structure, TypeStructure::Enum { .. })
    }

    pub fn is_wrapper(&self) -> (r: bool)
        ensures
            r == (self.structure is Wrapper),
    {
        matches!(self.structure, TypeStructure::Wrapper { .. })
    }

    pub fn is_wildcard(&self) -> (r: bool)
        ensures
            r == self.is_wildcard_spec(),
    {
        matches!(self.structure, TypeStructure::Wildcard)
    }

    /// Field information if this is a struct.
    pub fn fields(&self) -> (r: Option<&[FieldInfo]>)
        ensures
            r == (match self.structure {
                TypeStructure::Struct { fields } => Some(fields),
                _ => None,
            }),
    {
        match &self.structure {
            TypeStructure::Struct { fields } => Some(fields),
            _ => None,
        }
    }

    /// Variant names if this is an enum.
    pub fn enum_variants(&self) -> (r: Option<&[&'static str]>)
        ensures
            r == (match self.structure {
                TypeStructure::Enum { variants } => Some(variants),
                _ => None,
            }),
    {
        match &self.structure {
            TypeStructure::Enum { variants } => Some(variants),
            _ => None,
        }
    }

    /// The wrapped type if this is a wrapper.
    pub fn inner_type(&self) -> (r: Option<&'static RuntimeTypeInfo>)
        ensures
            r == (match self.structure {
                TypeStructure::Wrapper { inner, .. } => Some(inner),
                _ => None,
            }),
    {
        match &self.structure {
            TypeStructure::Wrapper { inner, .. } => Some(*inner),
            _ => None,
        }
    }

    /// The wildcard type: "any type" for generic nodes and type inference.
    /// Named `?`, of size 0 and alignment 1, with the type id of `()`.
    pub fn wildcard() -> (r: RuntimeTypeInfo)
        ensures
            r.is_wildcard_spec(),
            r.full_name@ == "?"@,
            r.size == 0,
            r.align == 1,
            r.color is None,
    {
        RuntimeTypeInfo {
            type_id: type_id_of::<()>(),
            full_name: "?",
            size: 0,
            align: 1,
            structure: TypeStructure::Wildcard,
            color: None,
        }
    }

    /// The descriptor of the primitive type `T`, named `full_name`: the id,
    /// size and alignment of `T`, primitive structure, and the declared color.
    pub fn primitive<T: 'static>(full_name: &'static str, color: Option<&'static str>) -> (r: RuntimeTypeInfo)
        ensures
            r.full_name == full_name,
            r.size as nat == vstd::layout::size_of::<T>(),
            r.align as nat == vstd::layout::align_of::<T>(),
            r.structure is Primitive,
            r.color == color,
    {
        RuntimeTypeInfo {
            type_id: type_id_of::<T>(),
            full_name,
            size: core::mem::size_of::<T>(),
            align: core::mem::align_of::<T>(),
            structure: TypeStructure::Primitive,
            color,
        }
    }

    /// Where this type's display color comes from; `resolve_color` turns the
    /// plan into RGBA in `[0, 1]`.
    pub fn color_plan(&self) -> (r: ColorPlan)
        ensures
            r == self.color_plan_spec(),
            r matches ColorPlan::Hashed { hue } ==> hue < 360,
    {
        if self.is_wildcard() {
            return ColorPlan::Neutral;
        }
        if let Some(hex) = self.color {
            if let Some(rgba) = parse_hex_color(hex) {
                return ColorPlan::Declared(rgba);
            }
        }
        let name = self.base_name();
        let mut hasher = DefaultHasher::new();
        hasher.write(name.as_bytes());
        let terminator: [u8; 1] = [255u8];
        hasher.write(&terminator);
        let hash = hasher.finish();
        proof {
            assert(terminator@ =~= seq![255u8]);
            assert(hasher@ =~= seq![vstd::utf8::encode_utf8(last_segment(self.full_name@)), seq![255u8]]);
        }
        ColorPlan::Hashed { hue: hash % 360 }
    }
}

} // verus!

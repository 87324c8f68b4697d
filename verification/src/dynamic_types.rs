//! Types composed at run time out of registered compile-time types: their
//! memory layout, the values that instances hold, and the registry that finds
//! them by identifier or by name.

use crate::interop::{arc_clone, new_random_uuid, str_eq, type_id_debug, type_id_debug_text, type_id_eq, uuid_eq};
use crate::keyed::KeyedVec;
use crate::runtime_types::RuntimeTypeInfo;
use std::any::TypeId;
use std::sync::Arc;
use uuid::Uuid;
use vstd::prelude::*;

verus! {

/// `a` is a power of two.
pub open spec fn is_power_of_two(a: usize) -> bool {
    a != 0 && a & ((a - 1) as usize) == 0
}

/// `offset` rounded up with the mask of `align`: the smallest multiple of
/// `align` not below `offset` when `align` is a power of two.
pub open spec fn align_up(offset: usize, align: usize) -> usize {
    ((offset + align - 1) as usize) & !((align - 1) as usize)
}

/// Rounding up with a power-of-two mask gives a multiple of the alignment
/// that lies in `offset .. offset + align`.
pub proof fn lemma_align_up(offset: usize, align: usize)
    requires
        is_power_of_two(align),
        offset + align - 1 <= usize::MAX,
    ensures
        align_up(offset, align) % align == 0,
        offset <= align_up(offset, align),
        align_up(offset, align) < offset + align,
{
    let y: usize = (offset + align - 1) as usize;
    let m: usize = (align - 1) as usize;
    assert(y & !m <= y && y - (y & !m) <= m) by (bit_vector);
    assert((y & !m) & m == 0) by (bit_vector);
    lemma_mask_multiple(y & !m, align);
}

/// A value with none of the low bits of a power of two set is a multiple of
/// it.
pub proof fn lemma_mask_multiple(x: usize, a: usize)
    requires
        is_power_of_two(a),
        x & ((a - 1) as usize) == 0,
    ensures
        x % a == 0,
    decreases a,
{
    if a != 1 {
        let h: usize = a / 2;
        let y: usize = x / 2;
        assert(a % 2 == 0 && h != 0 && h & ((h - 1) as usize) == 0) by (bit_vector)
            requires
                a != 0 && a & ((a - 1) as usize) == 0 && a != 1,
                h == a / 2,
        ;
        assert(x % 2 == 0 && y & ((h - 1) as usize) == 0) by (bit_vector)
            requires
                a != 0 && a & ((a - 1) as usize) == 0 && a != 1,
                x & ((a - 1) as usize) == 0,
                h == a / 2,
                y == x / 2,
        ;
        lemma_mask_multiple(y, h);
        let q: int = y as int / h as int;
        vstd::arithmetic::div_mod::lemma_fundamental_div_mod(y as int, h as int);
        assert(x as int == q * (a as int)) by (nonlinear_arith)
            requires
                y as int == h * q,
                x as int == 2 * y,
                a as int == 2 * h,
        ;
        vstd::arithmetic::div_mod::lemma_mod_multiples_basic(q, a as int);
    }
}

/// Whether a type was registered at compile time or composed at run time.
#[derive(Debug, Clone, Copy)]
pub enum TypeTag {
    /// A compile-time registered type with static metadata.
    CompileTime(TypeId),
    /// A runtime-composed type with a unique identifier.
    RuntimeComposed(Uuid),
}

/// A field of a runtime-composed type.
#[derive(Clone)]
pub struct DynamicFieldInfo {
    pub name: String,
    /// The registered compile-time type the field holds.
    pub base_type: &'static RuntimeTypeInfo,
    /// Offset in bytes from the start of the value.
    pub offset: usize,
}

/// A type definition composed at run time out of compile-time types.
#[derive(Clone)]
pub struct DynamicTypeInfo {
    pub name: String,
    pub type_tag: TypeTag,
    pub fields: Vec<DynamicFieldInfo>,
    pub total_size: usize,
    pub total_align: usize,
}

/// The position of the first field of `fields` named `name`.
pub open spec fn first_field_named(fields: Seq<DynamicFieldInfo>, name: Seq<char>) -> Option<int> {
    if exists|i: int| 0 <= i < fields.len() && fields[i].name@ == name {
        Some(
            choose|i: int|
                0 <= i < fields.len() && fields[i].name@ == name && forall|j: int| 0 <= j < i ==> fields[j].name@ != name,
        )
    } else {
        None
    }
}

/// `first_field_named` picks the earliest field with the name.
pub proof fn lemma_first_field_named(fields: Seq<DynamicFieldInfo>, name: Seq<char>, i: int)
    requires
        0 <= i < fields.len(),
        fields[i].name@ == name,
        forall|j: int| 0 <= j < i ==> fields[j].name@ != name,
    ensures
        first_field_named(fields, name) == Some(i),
{
    let c = choose|k: int|
        0 <= k < fields.len() && fields[k].name@ == name && forall|j: int| 0 <= j < k ==> fields[j].name@ != name;
    if c < i {
        assert(fields[c].name@ != name);
    }
    if c > i {
        assert(fields[i].name@ != name);
    }
}

impl DynamicTypeInfo {
    /// The identifier of a runtime-composed type; `None` for a compile-time
    /// one.
    pub fn uuid(&self) -> (r: Option<Uuid>)
        ensures
            r == match self.type_tag {
                TypeTag::RuntimeComposed(u) => Some(u),
                TypeTag::CompileTime(_) => None::<Uuid>,
            },
    {
        match self.type_tag {
            TypeTag::RuntimeComposed(u) => Some(u),
            TypeTag::CompileTime(_) => None,
        }
    }

    /// The first field named `name`.
    pub fn get_field(&self, name: &str) -> (r: Option<&DynamicFieldInfo>)
        ensures
            r == match first_field_named(self.fields@, name@) {
                Some(i) => Some(&self.fields@[i]),
                None => None::<&DynamicFieldInfo>,
            },
    {
        let mut i: usize = 0;
        while i < self.fields.len()
            invariant
                i <= self.fields@.len(),
                forall|j: int| 0 <= j < i ==> self.fields@[j].name@ != name@,
            decreases self.fields@.len() - i,
        {
            if str_eq(self.fields[i].name.as_str(), name) {
                proof {
                    lemma_first_field_named(self.fields@, name@, i as int);
                }
                return Some(&self.fields[i]);
            }
            i = i + 1;
        }
        None
    }

    /// Whether some field is named `name`.
    pub fn has_field(&self, name: &str) -> (r: bool)
        ensures
            r == first_field_named(self.fields@, name@) is Some,
    {
        self.get_field(name).is_some()
    }
}

/// Where the field after the fields `fs` may start: the end of the last of
/// them, each placed at its own alignment after the one before (0 for none).
pub open spec fn layout_end(fs: Seq<(String, &'static RuntimeTypeInfo)>) -> usize
    decreases fs.len(),
{
    if fs.len() == 0 {
        0
    } else {
        (align_up(layout_end(fs.drop_last()), fs.last().1.align) + fs.last().1.size) as usize
    }
}

/// The offset of field `i` of `fs`.
pub open spec fn field_offset(fs: Seq<(String, &'static RuntimeTypeInfo)>, i: int) -> usize {
    align_up(layout_end(fs.take(i)), fs[i].1.align)
}

/// The largest alignment among the fields, and at least 1.
pub open spec fn max_align(fs: Seq<(String, &'static RuntimeTypeInfo)>) -> usize
    decreases fs.len(),
{
    if fs.len() == 0 {
        1
    } else if max_align(fs.drop_last()) < fs.last().1.align {
        fs.last().1.align
    } else {
        max_align(fs.drop_last())
    }
}

/// The size of the composed type: the end of the last field, padded to the
/// type's alignment.
pub open spec fn total_size(fs: Seq<(String, &'static RuntimeTypeInfo)>) -> usize {
    align_up(layout_end(fs), max_align(fs))
}

/// Every alignment is at least 1 and no step of the layout leaves `usize`.
#[verifier::opaque]
pub open spec fn layout_fits(fs: Seq<(String, &'static RuntimeTypeInfo)>) -> bool {
    &&& forall|i: int|
        0 <= i < fs.len() ==> {
            &&& #[trigger] fs[i].1.align >= 1
            &&& layout_end(fs.take(i)) + fs[i].1.align <= usize::MAX
            &&& align_up(layout_end(fs.take(i)), fs[i].1.align) + fs[i].1.size <= usize::MAX
        }
    &&& layout_end(fs) + max_align(fs) <= usize::MAX
}

/// What `layout_fits` says of field `i`.
proof fn lemma_fits_at(fs: Seq<(String, &'static RuntimeTypeInfo)>, i: int)
    requires
        layout_fits(fs),
        0 <= i < fs.len(),
    ensures
        fs[i].1.align >= 1,
        layout_end(fs.take(i)) + fs[i].1.align <= usize::MAX,
        align_up(layout_end(fs.take(i)), fs[i].1.align) + fs[i].1.size <= usize::MAX,
{
    reveal(layout_fits);
}

/// Field `i` of `fs` has an alignment of at least 1 and is placed without
/// leaving `usize`.
pub open spec fn field_fits(fs: Seq<(String, &'static RuntimeTypeInfo)>, i: int) -> bool {
    &&& fs[i].1.align >= 1
    &&& layout_end(fs.take(i)) + fs[i].1.align <= usize::MAX
    &&& align_up(layout_end(fs.take(i)), fs[i].1.align) + fs[i].1.size <= usize::MAX
}

/// A field that does not fit makes the layout not fit.
proof fn lemma_not_fits_at(fs: Seq<(String, &'static RuntimeTypeInfo)>, i: int)
    requires
        0 <= i < fs.len(),
        !field_fits(fs, i),
    ensures
        !layout_fits(fs),
{
    reveal(layout_fits);
}

/// Where every field fits, the layout fits exactly when the padded end does.
proof fn lemma_fits_when_fields_fit(fs: Seq<(String, &'static RuntimeTypeInfo)>)
    requires
        forall|k: int| 0 <= k < fs.len() ==> #[trigger] field_fits(fs, k),
    ensures
        layout_fits(fs) == (layout_end(fs) + max_align(fs) <= usize::MAX),
{
    reveal(layout_fits);
    assert forall|k: int| 0 <= k < fs.len() implies {
        &&& #[trigger] fs[k].1.align >= 1
        &&& layout_end(fs.take(k)) + fs[k].1.align <= usize::MAX
        &&& align_up(layout_end(fs.take(k)), fs[k].1.align) + fs[k].1.size <= usize::MAX
    } by {
        assert(field_fits(fs, k));
    }
}

/// One more field extends the layout of the fields before it.
proof fn lemma_layout_step(fs: Seq<(String, &'static RuntimeTypeInfo)>, i: int)
    requires
        0 <= i < fs.len(),
    ensures
        layout_end(fs.take(i + 1)) == (align_up(layout_end(fs.take(i)), fs[i].1.align) + fs[i].1.size) as usize,
        max_align(fs.take(i + 1)) == if max_align(fs.take(i)) < fs[i].1.align {
            fs[i].1.align
        } else {
            max_align(fs.take(i))
        },
{
    assert(fs.take(i + 1).drop_last() =~= fs.take(i));
    assert(fs.take(i + 1).last() == fs[i]);
}

/// The largest alignment is at least 1.
proof fn lemma_max_align_positive(fs: Seq<(String, &'static RuntimeTypeInfo)>)
    ensures
        max_align(fs) >= 1,
    decreases fs.len(),
{
    if fs.len() > 0 {
        lemma_max_align_positive(fs.drop_last());
    }
}

/// The layout only grows as fields are added.
proof fn lemma_end_monotone(fs: Seq<(String, &'static RuntimeTypeInfo)>, i: int, j: int)
    requires
        layout_fits(fs),
        forall|k: int| 0 <= k < fs.len() ==> is_power_of_two(#[trigger] fs[k].1.align),
        0 <= i <= j <= fs.len(),
    ensures
        layout_end(fs.take(i)) <= layout_end(fs.take(j)),
    decreases j - i,
{
    if i < j {
        lemma_end_monotone(fs, i, j - 1);
        lemma_layout_step(fs, j - 1);
        lemma_fits_at(fs, j - 1);
        lemma_align_up(layout_end(fs.take(j - 1)), fs[j - 1].1.align);
    }
}

/// The largest alignment is a power of two and no smaller than any field's.
proof fn lemma_max_align_bounds(fs: Seq<(String, &'static RuntimeTypeInfo)>)
    requires
        forall|k: int| 0 <= k < fs.len() ==> is_power_of_two(#[trigger] fs[k].1.align),
    ensures
        is_power_of_two(max_align(fs)),
        forall|k: int| 0 <= k < fs.len() ==> #[trigger] fs[k].1.align <= max_align(fs),
    decreases fs.len(),
{
    if fs.len() == 0 {
        assert(1usize & 0usize == 0) by (bit_vector);
    } else {
        let init = fs.drop_last();
        assert forall|k: int| 0 <= k < init.len() implies is_power_of_two(#[trigger] init[k].1.align) by {
            assert(init[k] == fs[k]);
        }
        lemma_max_align_bounds(init);
        assert(is_power_of_two(fs[fs.len() - 1].1.align));
        assert forall|k: int| 0 <= k < fs.len() implies #[trigger] fs[k].1.align <= max_align(fs) by {
            if k < fs.len() - 1 {
                assert(init[k] == fs[k]);
            }
        }
    }
}

/// Laid out by `build` with power-of-two alignments, each field starts at the
/// smallest multiple of its alignment not below the end of the field before
/// it (so after every field before it); the type's alignment is a power of
/// two no smaller than any field's, and its size is the smallest multiple of
/// that alignment that holds every field.
pub proof fn law_layout_aligned_and_disjoint(fs: Seq<(String, &'static RuntimeTypeInfo)>)
    requires
        layout_fits(fs),
        forall|k: int| 0 <= k < fs.len() ==> is_power_of_two(#[trigger] fs[k].1.align),
    ensures
        forall|i: int| 0 <= i < fs.len() ==> #[trigger] field_offset(fs, i) % fs[i].1.align == 0,
        forall|i: int|
            0 <= i < fs.len() ==> layout_end(fs.take(i)) <= #[trigger] field_offset(fs, i) < layout_end(fs.take(i))
                + fs[i].1.align,
        forall|i: int, j: int|
            0 <= i < j < fs.len() ==> #[trigger] field_offset(fs, i) + fs[i].1.size <= #[trigger] field_offset(fs, j),
        forall|i: int| 0 <= i < fs.len() ==> #[trigger] field_offset(fs, i) + fs[i].1.size <= total_size(fs),
        is_power_of_two(max_align(fs)),
        forall|i: int| 0 <= i < fs.len() ==> #[trigger] fs[i].1.align <= max_align(fs),
        total_size(fs) % max_align(fs) == 0,
        layout_end(fs) <= total_size(fs) < layout_end(fs) + max_align(fs),
{
    assert forall|i: int| 0 <= i < fs.len() implies #[trigger] field_offset(fs, i) % fs[i].1.align == 0
        && layout_end(fs.take(i)) <= field_offset(fs, i) && field_offset(fs, i) < layout_end(fs.take(i)) + fs[i].1.align
        && field_offset(fs, i) + fs[i].1.size == layout_end(fs.take(i + 1)) by {
        lemma_fits_at(fs, i);
        lemma_layout_step(fs, i);
        lemma_align_up(layout_end(fs.take(i)), fs[i].1.align);
    }
    assert forall|i: int, j: int| 0 <= i < j < fs.len() implies #[trigger] field_offset(fs, i) + fs[i].1.size
        <= #[trigger] field_offset(fs, j) by {
        lemma_end_monotone(fs, i + 1, j);
    }
    lemma_max_align_bounds(fs);
    assert(fs.take(fs.len() as int) =~= fs);
    reveal(layout_fits);
    lemma_align_up(layout_end(fs), max_align(fs));
    assert forall|i: int| 0 <= i < fs.len() implies #[trigger] field_offset(fs, i) + fs[i].1.size <= total_size(fs) by {
        lemma_end_monotone(fs, i + 1, fs.len() as int);
    }
}

/// Builds a runtime-composed type field by field.
pub struct DynamicTypeBuilder {
    name: String,
    fields: Vec<(String, &'static RuntimeTypeInfo)>,
}

impl DynamicTypeBuilder {
    /// The type's name.
    pub closed spec fn name_spec(&self) -> Seq<char> {
        self.name@
    }

    /// The fields added so far, in order.
    pub closed spec fn fields_spec(&self) -> Seq<(String, &'static RuntimeTypeInfo)> {
        self.fields@
    }

    /// A builder for a type named `name`, with no fields yet.
    pub fn new(name: &str) -> (r: Self)
        ensures
            r.name_spec() == name@,
            r.fields_spec() == Seq::<(String, &'static RuntimeTypeInfo)>::empty(),
    {
        DynamicTypeBuilder { name: name.to_string(), fields: Vec::new() }
    }

    /// Adds a field named `name` holding the registered type `type_info`.
    pub fn add_field(self, name: &str, type_info: &'static RuntimeTypeInfo) -> (r: Self)
        ensures
            r.name_spec() == self.name_spec(),
            r.fields_spec().len() == self.fields_spec().len() + 1,
            r.fields_spec().drop_last() == self.fields_spec(),
            r.fields_spec().last().0@ == name@,
            r.fields_spec().last().1 == type_info,
    {
        let mut b = self;
        b.fields.push((name.to_string(), type_info));
        proof {
            assert(b.fields@.drop_last() =~= self.fields@);
        }
        b
    }

    /// The composed type: each field placed at the next offset that its
    /// type's alignment allows, the whole padded to the largest alignment,
    /// under a fresh identifier.
    pub fn build(self) -> (r: Arc<DynamicTypeInfo>)
        requires
            layout_fits(self.fields_spec()),
        ensures
            r.name@ == self.name_spec(),
            r.type_tag is RuntimeComposed,
            r.fields@.len() == self.fields_spec().len(),
            forall|i: int|
                0 <= i < r.fields@.len() ==> {
                    &&& #[trigger] r.fields@[i].name@ == self.fields_spec()[i].0@
                    &&& r.fields@[i].base_type == self.fields_spec()[i].1
                    &&& r.fields@[i].offset == field_offset(self.fields_spec(), i)
                },
            r.total_size == total_size(self.fields_spec()),
            r.total_align == max_align(self.fields_spec()),
    {
        let ghost fs = self.fields@;
        let mut rest = self.fields;
        let n = rest.len();
        let mut offset: usize = 0;
        let mut max: usize = 1;
        let mut field_infos: Vec<DynamicFieldInfo> = Vec::new();
        let mut i: usize = 0;
        while i < n
            invariant
                n == fs.len(),
                i <= n,
                layout_fits(fs),
                rest@ == fs.skip(i as int),
                offset == layout_end(fs.take(i as int)),
                max == max_align(fs.take(i as int)),
                field_infos@.len() == i,
                forall|k: int|
                    0 <= k < i ==> {
                        &&& #[trigger] field_infos@[k].name@ == fs[k].0@
                        &&& field_infos@[k].base_type == fs[k].1
                        &&& field_infos@[k].offset == field_offset(fs, k)
                    },
            decreases n - i,
        {
            let (name, type_info) = rest.remove(0);
            proof {
                assert(fs[i as int] == (name, type_info));
                assert(rest@ =~= fs.skip(i + 1));
                lemma_layout_step(fs, i as int);
                lemma_fits_at(fs, i as int);
            }
            let align = type_info.align;
            if max < align {
                max = align;
            }
            let ghost start = offset;
            offset = (offset + align - 1) & !(align - 1);
            assert(offset == field_offset(fs, i as int));
            let ghost before = field_infos@;
            field_infos.push(DynamicFieldInfo { name, base_type: type_info, offset });
            proof {
                assert forall|k: int| 0 <= k < i + 1 implies {
                    &&& #[trigger] field_infos@[k].name@ == fs[k].0@
                    &&& field_infos@[k].base_type == fs[k].1
                    &&& field_infos@[k].offset == field_offset(fs, k)
                } by {
                    if k < i {
                        assert(field_infos@[k] == before[k]);
                    }
                }
            }
            offset = offset + type_info.size;
            i = i + 1;
        }
        proof {
            assert(fs.take(n as int) =~= fs);
            lemma_max_align_positive(fs);
            reveal(layout_fits);
            assert(offset == layout_end(fs));
            assert(max == max_align(fs));
        }
        let total_size = (offset + max - 1) & !(max - 1);
        Arc::new(
            DynamicTypeInfo {
                name: self.name,
                type_tag: TypeTag::RuntimeComposed(new_random_uuid()),
                fields: field_infos,
                total_size,
                total_align: max,
            },
        )
    }
}

impl DynamicTypeBuilder {
    /// Whether the fields added so far can be laid out without leaving
    /// `usize`, every alignment being at least 1.
    pub fn layout_fits(&self) -> (r: bool)
        ensures
            r == layout_fits(self.fields_spec()),
    {
        let ghost fs = self.fields@;
        let mut offset: usize = 0;
        let mut max: usize = 1;
        let mut i: usize = 0;
        while i < self.fields.len()
            invariant
                fs == self.fields@,
                i <= fs.len(),
                offset == layout_end(fs.take(i as int)),
                max == max_align(fs.take(i as int)),
                forall|k: int| 0 <= k < i ==> #[trigger] field_fits(fs, k),
            decreases fs.len() - i,
        {
            let align = self.fields[i].1.align;
            let size = self.fields[i].1.size;
            proof {
                lemma_layout_step(fs, i as int);
            }
            if align == 0 || offset > usize::MAX - align {
                proof {
                    lemma_not_fits_at(fs, i as int);
                }
                return false;
            }
            let start = (offset + align - 1) & !(align - 1);
            if start > usize::MAX - size {
                proof {
                    lemma_not_fits_at(fs, i as int);
                }
                return false;
            }
            if max < align {
                max = align;
            }
            offset = start + size;
            i = i + 1;
        }
        proof {
            assert(fs.take(fs.len() as int) =~= fs);
            lemma_fits_when_fields_fit(fs);
        }
        offset <= usize::MAX - max
    }

    /// The composed type, or `None` where the fields cannot be laid out
    /// (an alignment of 0, or a layout past `usize`).
    pub fn try_build(self) -> (r: Option<Arc<DynamicTypeInfo>>)
        ensures
            r is Some <==> layout_fits(self.fields_spec()),
            r matches Some(t) ==> {
                &&& t.name@ == self.name_spec()
                &&& t.type_tag is RuntimeComposed
                &&& t.fields@.len() == self.fields_spec().len()
                &&& forall|i: int|
                    0 <= i < t.fields@.len() ==> {
                        &&& #[trigger] t.fields@[i].name@ == self.fields_spec()[i].0@
                        &&& t.fields@[i].base_type == self.fields_spec()[i].1
                        &&& t.fields@[i].offset == field_offset(self.fields_spec(), i)
                    }
                &&& t.total_size == total_size(self.fields_spec())
                &&& t.total_align == max_align(self.fields_spec())
            },
    {
        if self.layout_fits() {
            Some(self.build())
        } else {
            None
        }
    }
}

/// Field `name` of `info` exists and holds values of type `id`.
pub open spec fn field_holds(info: DynamicTypeInfo, name: Seq<char>, id: TypeId) -> bool {
    first_field_named(info.fields@, name) matches Some(i) && info.fields@[i].base_type.type_id == id
}

/// The message for a field that the type does not have.
pub open spec fn field_not_found_message(field: Seq<char>, owner: Seq<char>) -> Seq<char> {
    "Field '"@ + field + "' not found in type '"@ + owner + "'"@
}

/// The message for a value whose type is not the field's.
pub open spec fn field_type_mismatch_message(field: Seq<char>, expected: Seq<char>, found: TypeId) -> Seq<char> {
    "Type mismatch for field '"@ + field + "': expected '"@ + expected + "', got type_id "@
        + type_id_debug_text(found)
}

/// The message for a field that holds no value.
pub open spec fn field_not_set_message(field: Seq<char>) -> Seq<char> {
    "Field '"@ + field + "' not found or not set"@
}

/// The message for a field whose value is not of the requested type.
pub open spec fn field_downcast_message(field: Seq<char>) -> Seq<char> {
    "Failed to downcast field '"@ + field + "' to requested type"@
}

/// An instance of a runtime-composed type: for each field that has been set,
/// its value `V` and the type id of that value. Every value has the type of
/// its field.
pub struct DynamicValue<V> {
    pub type_info: Arc<DynamicTypeInfo>,
    fields: KeyedVec<String, (V, TypeId)>,
}

/// The entry `e` under field name `n` holds the default that `default_of`
/// gave for the type of the first field named `n`, with that type's id.
#[verifier::opaque]
pub open spec fn is_field_default<V, F: Fn(&'static RuntimeTypeInfo) -> Option<V>>(
    fs: Seq<DynamicFieldInfo>,
    default_of: F,
    n: Seq<char>,
    e: (V, TypeId),
) -> bool {
    &&& first_field_named(fs, n) is Some
    &&& e.1 == fs[first_field_named(fs, n).unwrap()].base_type.type_id
    &&& default_of.ensures((fs[first_field_named(fs, n).unwrap()].base_type,), Some(e.0))
}

/// Field `j` is the first field with its name.
#[verifier::opaque]
pub open spec fn is_first_of_name(fs: Seq<DynamicFieldInfo>, j: int) -> bool {
    first_field_named(fs, fs[j].name@) == Some(j)
}

/// Adds the default of field `i`'s type under its name, where field `i` is
/// the first of its name and its type has a default.
fn add_default<V, F: Fn(&'static RuntimeTypeInfo) -> Option<V>>(
    values: &mut KeyedVec<String, (V, TypeId)>,
    fields: &Vec<DynamicFieldInfo>,
    i: usize,
    default_of: &F,
)
    requires
        old(values).wf(),
        i < fields@.len(),
        default_of.requires((fields@[i as int].base_type,)),
        forall|n: Seq<char>| #[trigger] old(values)@.dom().contains(n) ==> is_field_default(fields@, *default_of, n, old(values)@[n]),
    ensures
        final(values).wf(),
        forall|n: Seq<char>| #[trigger] final(values)@.dom().contains(n) ==> is_field_default(fields@, *default_of, n, final(values)@[n]),
        forall|n: Seq<char>| #[trigger] old(values)@.dom().contains(n) ==> final(values)@.dom().contains(n),
        is_first_of_name(fields@, i as int) && !final(values)@.dom().contains(fields@[i as int].name@) ==> default_of.ensures(
            (fields@[i as int].base_type,),
            None,
        ),
{
    let ghost fs = fields@;
    if named_earlier(fields, i) {
        proof {
            let j = choose|j: int| 0 <= j < i && fs[j].name@ == fs[i as int].name@;
            lemma_not_first_of_name(fs, j, i as int);
        }
        return;
    }
    proof {
        lemma_first_of_name(fs, i as int);
    }
    let base = fields[i].base_type;
    match default_of(base) {
        Some(v) => {
            let ghost before = values@;
            proof {
                lemma_field_default(fs, *default_of, i as int, v);
            }
            values.insert(fields[i].name.clone(), (v, base.type_id));
            proof {
                assert forall|n: Seq<char>| #[trigger] values@.dom().contains(n) implies is_field_default(fs, *default_of, n, values@[n]) by {
                    if n != fs[i as int].name@ {
                        assert(before.dom().contains(n));
                    }
                }
            }
        },
        None => {},
    }
}

/// A field with no earlier field of its name is the first of its name.
proof fn lemma_first_of_name(fs: Seq<DynamicFieldInfo>, i: int)
    requires
        0 <= i < fs.len(),
        forall|j: int| 0 <= j < i ==> fs[j].name@ != fs[i].name@,
    ensures
        is_first_of_name(fs, i),
{
    reveal(is_first_of_name);
    lemma_first_field_named(fs, fs[i].name@, i);
}

/// A field after another of the same name is not the first of its name.
proof fn lemma_not_first_of_name(fs: Seq<DynamicFieldInfo>, j: int, i: int)
    requires
        0 <= j < i < fs.len(),
        fs[j].name@ == fs[i].name@,
    ensures
        !is_first_of_name(fs, i),
{
    reveal(is_first_of_name);
    let n = fs[i].name@;
    lemma_earliest_named(fs, n, j);
    let k = choose|k: int| 0 <= k <= j && fs[k].name@ == n && forall|m: int| 0 <= m < k ==> fs[m].name@ != n;
    lemma_first_field_named(fs, n, k);
}

/// Some field at or before `j` is the earliest named `n`.
proof fn lemma_earliest_named(fs: Seq<DynamicFieldInfo>, n: Seq<char>, j: int)
    requires
        0 <= j < fs.len(),
        fs[j].name@ == n,
    ensures
        exists|k: int| 0 <= k <= j && fs[k].name@ == n && forall|m: int| 0 <= m < k ==> fs[m].name@ != n,
    decreases j,
{
    if exists|m: int| 0 <= m < j && fs[m].name@ == n {
        let m = choose|m: int| 0 <= m < j && fs[m].name@ == n;
        lemma_earliest_named(fs, n, m);
    } else {
        assert(0 <= j <= j && fs[j].name@ == n && forall|m: int| 0 <= m < j ==> fs[m].name@ != n);
    }
}

/// What `default_of` gave for the first field of a name is that name's
/// default entry.
proof fn lemma_field_default<V, F: Fn(&'static RuntimeTypeInfo) -> Option<V>>(
    fs: Seq<DynamicFieldInfo>,
    default_of: F,
    i: int,
    v: V,
)
    requires
        0 <= i < fs.len(),
        is_first_of_name(fs, i),
        default_of.ensures((fs[i].base_type,), Some(v)),
    ensures
        is_field_default(fs, default_of, fs[i].name@, (v, fs[i].base_type.type_id)),
{
    reveal(is_first_of_name);
    reveal(is_field_default);
}

/// Some field before position `i` has the name of field `i`.
fn named_earlier(fields: &Vec<DynamicFieldInfo>, i: usize) -> (r: bool)
    requires
        i < fields@.len(),
    ensures
        r == exists|j: int| 0 <= j < i && fields@[j].name@ == fields@[i as int].name@,
{
    let mut j: usize = 0;
    while j < i
        invariant
            i < fields@.len(),
            j <= i,
            forall|k: int| 0 <= k < j ==> fields@[k].name@ != fields@[i as int].name@,
        decreases i - j,
    {
        if str_eq(fields[j].name.as_str(), fields[i].name.as_str()) {
            return true;
        }
        j = j + 1;
    }
    false
}

impl<V> DynamicValue<V> {
    /// The type this is an instance of.
    pub closed spec fn info(&self) -> DynamicTypeInfo {
        *self.type_info
    }

    /// The values set so far, by field name, with their type ids.
    pub closed spec fn values(&self) -> Map<Seq<char>, (V, TypeId)> {
        self.fields@
    }

    pub closed spec fn wf(&self) -> bool {
        &&& self.fields.wf()
        &&& forall|k: Seq<char>| #[trigger] self.fields@.dom().contains(k) ==> field_holds(*self.type_info, k, self.fields@[k].1)
    }

    /// The stored entries, in the order the fields were first set.
    pub closed spec fn slots(&self) -> Seq<(String, (V, TypeId))> {
        self.fields.entry_seq()
    }

    /// The position among `slots` of the value of field `name`.
    pub closed spec fn slot_of(&self, name: Seq<char>) -> int {
        self.fields.position(name)
    }

    /// An instance of `type_info` whose fields start at their default values:
    /// `default_of` gives the default of a field's type, once for each field
    /// name (its first field). A type with no default (`None`) leaves its
    /// field unset until `set_field` gives it a value.
    pub fn new<F: Fn(&'static RuntimeTypeInfo) -> Option<V>>(type_info: Arc<DynamicTypeInfo>, default_of: F) -> (r: Self)
        requires
            forall|i: int| 0 <= i < type_info.fields@.len() ==> default_of.requires((#[trigger] type_info.fields@[i].base_type,)),
        ensures
            r.wf(),
            r.info() == *type_info,
            forall|n: Seq<char>| #[trigger] r.values().dom().contains(n) ==> is_field_default(
                type_info.fields@,
                default_of,
                n,
                r.values()[n],
            ),
            forall|i: int|
                0 <= i < type_info.fields@.len() && #[trigger] is_first_of_name(type_info.fields@, i)
                    && !r.values().dom().contains(type_info.fields@[i].name@) ==> default_of.ensures(
                    (type_info.fields@[i].base_type,),
                    None,
                ),
    {
        let ghost fs = type_info.fields@;
        let mut values: KeyedVec<String, (V, TypeId)> = KeyedVec::new();
        let mut i: usize = 0;
        while i < type_info.fields.len()
            invariant
                fs == type_info.fields@,
                i <= fs.len(),
                forall|k: int| 0 <= k < fs.len() ==> default_of.requires((#[trigger] fs[k].base_type,)),
                values.wf(),
                forall|n: Seq<char>| #[trigger] values@.dom().contains(n) ==> is_field_default(fs, default_of, n, values@[n]),
                forall|j: int|
                    0 <= j < i && #[trigger] is_first_of_name(fs, j) && !values@.dom().contains(fs[j].name@)
                        ==> default_of.ensures((fs[j].base_type,), None),
            decreases fs.len() - i,
        {
            let ghost before = values@;
            add_default(&mut values, &type_info.fields, i, &default_of);
            proof {
                assert forall|j: int|
                    0 <= j < i + 1 && #[trigger] is_first_of_name(fs, j) && !values@.dom().contains(fs[j].name@)
                        implies default_of.ensures((fs[j].base_type,), None) by {
                    if j < i {
                        assert(before.dom().contains(fs[j].name@) ==> values@.dom().contains(fs[j].name@));
                    }
                }
            }
            i = i + 1;
        }
        let r = DynamicValue { type_info, fields: values };
        proof {
            reveal(is_field_default);
            assert forall|k: Seq<char>| #[trigger] r.fields@.dom().contains(k) implies field_holds(*r.type_info, k, r.fields@[k].1) by {
                assert(is_field_default(fs, default_of, k, r.fields@[k]));
            }
        }
        r
    }

    /// Sets field `field_name` to `value`, whose type id is `value_type`.
    /// Fails, changing nothing, if the type has no such field or the field
    /// holds another type.
    pub fn set_field(&mut self, field_name: &str, value: V, value_type: TypeId) -> (r: Result<(), String>)
        requires
            old(self).wf(),
        ensures
            final(self).wf(),
            final(self).info() == old(self).info(),
            match first_field_named(old(self).info().fields@, field_name@) {
                None => r matches Err(e) && e@ == field_not_found_message(field_name@, old(self).info().name@)
                    && final(self).values() == old(self).values(),
                Some(i) => {
                    let expected = old(self).info().fields@[i].base_type;
                    if expected.type_id == value_type {
                        r is Ok && final(self).values() == old(self).values().insert(field_name@, (value, value_type))
                    } else {
                        r matches Err(e) && e@ == field_type_mismatch_message(field_name@, expected.full_name@, value_type)
                            && final(self).values() == old(self).values()
                    }
                },
            },
    {
        let (expected_id, expected_name) = match self.type_info.get_field(field_name) {
            Some(field) => (field.base_type.type_id, field.base_type.full_name),
            None => {
                let mut e = String::new();
                e.append("Field '");
                e.append(field_name);
                e.append("' not found in type '");
                e.append(self.type_info.name.as_str());
                e.append("'");
                return Err(e);
            },
        };
        if !type_id_eq(&value_type, &expected_id) {
            let mut e = String::new();
            e.append("Type mismatch for field '");
            e.append(field_name);
            e.append("': expected '");
            e.append(expected_name);
            e.append("', got type_id ");
            let found = type_id_debug(&value_type);
            e.append(found.as_str());
            return Err(e);
        }
        let ghost before = self.fields@;
        self.fields.insert(field_name.to_string(), (value, value_type));
        proof {
            assert forall|k: Seq<char>| #[trigger] self.fields@.dom().contains(k) implies field_holds(*self.type_info, k, self.fields@[k].1) by {
                if k != field_name@ {
                    assert(before.dom().contains(k));
                }
            }
        }
        Ok(())
    }

    /// The value of field `field_name`, if it has been set.
    pub fn get_field(&self, field_name: &str) -> (r: Option<&V>)
        requires
            self.wf(),
        ensures
            r == if self.values().dom().contains(field_name@) {
                Some(&self.values()[field_name@].0)
            } else {
                None::<&V>
            },
    {
        match self.fields.get(&field_name.to_string()) {
            Some(e) => Some(&e.0),
            None => None,
        }
    }

    /// The value of field `field_name`, to change in place, if it has been
    /// set; `lemma_value_written` gives the values afterwards.
    pub fn get_field_mut(&mut self, field_name: &str) -> (r: Option<&mut V>)
        requires
            old(self).wf(),
        ensures
            final(self).info() == old(self).info(),
            match r {
                Some(v) => old(self).values().dom().contains(field_name@) && *v == old(self).values()[field_name@].0
                    && final(self).slots() == old(self).slots().update(
                    old(self).slot_of(field_name@),
                    (
                        old(self).slots()[old(self).slot_of(field_name@)].0,
                        (*final(v), old(self).values()[field_name@].1),
                    ),
                ),
                None => !old(self).values().dom().contains(field_name@) && *final(self) == *old(self),
            },
    {
        let key = field_name.to_string();
        proof {
            if self.fields@.dom().contains(field_name@) {
                self.fields.lemma_view_key_in_entries(field_name@);
            }
        }
        match self.fields.get_mut(&key) {
            Some(e) => Some(&mut e.0),
            None => None,
        }
    }

    /// The value of field `field_name` for a reader that wants type
    /// `requested`: fails if the field holds no value or a value of another
    /// type.
    pub fn get_field_typed(&self, field_name: &str, requested: TypeId) -> (r: Result<&V, String>)
        requires
            self.wf(),
        ensures
            if !self.values().dom().contains(field_name@) {
                r matches Err(e) && e@ == field_not_set_message(field_name@)
            } else if self.values()[field_name@].1 != requested {
                r matches Err(e) && e@ == field_downcast_message(field_name@)
            } else {
                r == Ok::<&V, String>(&self.values()[field_name@].0)
            },
    {
        match self.fields.get(&field_name.to_string()) {
            None => {
                let mut e = String::new();
                e.append("Field '");
                e.append(field_name);
                e.append("' not found or not set");
                Err(e)
            },
            Some(entry) => {
                if type_id_eq(&entry.1, &requested) {
                    Ok(&entry.0)
                } else {
                    let mut e = String::new();
                    e.append("Failed to downcast field '");
                    e.append(field_name);
                    e.append("' to requested type");
                    Err(e)
                }
            },
        }
    }

    /// As `get_field_typed`, with the value to change in place;
    /// `lemma_value_written` gives the values afterwards.
    pub fn get_field_typed_mut(&mut self, field_name: &str, requested: TypeId) -> (r: Result<&mut V, String>)
        requires
            old(self).wf(),
        ensures
            final(self).info() == old(self).info(),
            if !old(self).values().dom().contains(field_name@) {
                r matches Err(e) && e@ == field_not_set_message(field_name@) && *final(self) == *old(self)
            } else if old(self).values()[field_name@].1 != requested {
                r matches Err(e) && e@ == field_downcast_message(field_name@) && *final(self) == *old(self)
            } else {
                r matches Ok(v) && *v == old(self).values()[field_name@].0 && final(self).slots() == old(self).slots().update(
                    old(self).slot_of(field_name@),
                    (old(self).slots()[old(self).slot_of(field_name@)].0, (*final(v), requested)),
                )
            },
    {
        let ok = match self.fields.get(&field_name.to_string()) {
            None => None,
            Some(entry) => Some(type_id_eq(&entry.1, &requested)),
        };
        match ok {
            None => {
                let mut e = String::new();
                e.append("Field '");
                e.append(field_name);
                e.append("' not found or not set");
                Err(e)
            },
            Some(false) => {
                let mut e = String::new();
                e.append("Failed to downcast field '");
                e.append(field_name);
                e.append("' to requested type");
                Err(e)
            },
            Some(true) => match self.get_field_mut(field_name) {
                Some(v) => Ok(v),
                None => {
                    let mut e = String::new();
                    e.append("Field '");
                    e.append(field_name);
                    e.append("' not found or not set");
                    Err(e)
                },
            },
        }
    }

    /// Replaces the value of field `field_name` with `f` applied to it, for a
    /// caller that takes the value to be of type `requested`; fails as
    /// `get_field_typed` does, changing nothing.
    pub fn modify_field<F: FnOnce(&V) -> V>(&mut self, field_name: &str, requested: TypeId, f: F) -> (r: Result<(), String>)
        requires
            old(self).wf(),
            old(self).values().dom().contains(field_name@) ==> f.requires((&old(self).values()[field_name@].0,)),
        ensures
            final(self).wf(),
            final(self).info() == old(self).info(),
            if !old(self).values().dom().contains(field_name@) {
                r matches Err(e) && e@ == field_not_set_message(field_name@) && final(self).values() == old(self).values()
            } else if old(self).values()[field_name@].1 != requested {
                r matches Err(e) && e@ == field_downcast_message(field_name@) && final(self).values() == old(self).values()
            } else {
                r is Ok && exists|nv: V| #[trigger] f.ensures((&old(self).values()[field_name@].0,), nv)
                    && final(self).values() == old(self).values().insert(field_name@, (nv, requested))
            },
    {
        let new_value = match self.get_field_typed(field_name, requested) {
            Ok(current) => f(current),
            Err(e) => {
                return Err(e);
            },
        };
        proof {
            let k = field_name@;
            assert(self.fields@.dom().contains(k));
            assert(field_holds(*self.type_info, k, self.fields@[k].1));
        }
        self.set_field(field_name, new_value, requested)
    }

    /// Whether field `field_name` has been set.
    pub fn has_value(&self, field_name: &str) -> (r: bool)
        requires
            self.wf(),
        ensures
            r == self.values().dom().contains(field_name@),
    {
        self.fields.contains(&field_name.to_string())
    }

    /// Takes the value of field `field_name` out, if it has been set.
    pub fn remove_field(&mut self, field_name: &str) -> (r: Option<V>)
        requires
            old(self).wf(),
        ensures
            final(self).wf(),
            final(self).info() == old(self).info(),
            final(self).values() == old(self).values().remove(field_name@),
            r == if old(self).values().dom().contains(field_name@) {
                Some(old(self).values()[field_name@].0)
            } else {
                None::<V>
            },
    {
        let ghost before = self.fields@;
        let r = self.fields.remove(&field_name.to_string());
        proof {
            assert forall|k: Seq<char>| #[trigger] self.fields@.dom().contains(k) implies field_holds(*self.type_info, k, self.fields@[k].1) by {
                assert(before.dom().contains(k));
            }
        }
        match r {
            Some(e) => Some(e.0),
            None => None,
        }
    }

    /// Unsets every field.
    pub fn clear(&mut self)
        requires
            old(self).wf(),
        ensures
            final(self).wf(),
            final(self).info() == old(self).info(),
            final(self).values() == Map::<Seq<char>, (V, TypeId)>::empty(),
    {
        self.fields.clear();
    }

    /// The names of the fields that have been set, each once, in the order
    /// they were first set.
    pub fn field_names(&self) -> (r: Vec<&str>)
        requires
            self.wf(),
        ensures
            r@.map_values(|n: &str| n@).no_duplicates(),
            r@.map_values(|n: &str| n@).to_set() == self.values().dom(),
    {
        let entries = self.fields.entries();
        let mut r: Vec<&str> = Vec::new();
        let mut i: usize = 0;
        while i < entries.len()
            invariant
                entries@ == self.fields.entry_seq(),
                i <= entries@.len(),
                r@.len() == i,
                forall|k: int| 0 <= k < i ==> #[trigger] r@[k]@ == entries@[k].0@,
            decreases entries@.len() - i,
        {
            r.push(entries[i].0.as_str());
            i = i + 1;
        }
        proof {
            let names = r@.map_values(|n: &str| n@);
            self.fields.lemma_key_models();
            assert(names =~= self.fields.key_models());
            self.fields.lemma_view_len();
        }
        r
    }

    /// Writing a field's value in place, as `get_field_mut` allows, keeps the
    /// instance well formed and replaces that value.
    pub proof fn lemma_value_written(a: Self, b: Self, name: Seq<char>)
        requires
            a.wf(),
            a.values().dom().contains(name),
            b.info() == a.info(),
            b.slots() == a.slots().update(
                a.slot_of(name),
                (a.slots()[a.slot_of(name)].0, (b.slots()[a.slot_of(name)].1.0, a.values()[name].1)),
            ),
        ensures
            b.wf(),
            b.values() == a.values().insert(name, (b.slots()[a.slot_of(name)].1.0, a.values()[name].1)),
    {
        a.fields.lemma_view_key_in_entries(name);
        KeyedVec::lemma_value_replaced(a.fields, b.fields, name);
        assert forall|k: Seq<char>| #[trigger] b.fields@.dom().contains(k) implies field_holds(*b.type_info, k, b.fields@[k].1) by {
            assert(a.fields@.dom().contains(k));
        }
    }
}

impl<V> Clone for DynamicValue<V> {
    /// Another instance of the same type, with no field set: the values are
    /// not copied.
    fn clone(&self) -> (r: Self)
        ensures
            r.wf(),
            r.info() == self.info(),
            r.values() == Map::<Seq<char>, (V, TypeId)>::empty(),
    {
        DynamicValue { type_info: arc_clone(&self.type_info), fields: KeyedVec::new() }
    }
}

/// A value set on a field is what a later read of the field gives, with the
/// type id it was set with; the other fields keep their values.
pub proof fn law_set_then_get<V>(values: Map<Seq<char>, (V, TypeId)>, name: Seq<char>, other: Seq<char>, value: V, id: TypeId)
    requires
        other != name,
    ensures
        values.insert(name, (value, id)).dom().contains(name),
        values.insert(name, (value, id))[name] == (value, id),
        values.insert(name, (value, id)).dom().contains(other) == values.dom().contains(other),
        values.dom().contains(other) ==> values.insert(name, (value, id))[other] == values[other],
{
}

/// The types by identifier after registering `type_info` under `uuid`: the
/// identifier that its name pointed at, if any, is dropped first.
pub open spec fn uuids_after_register(
    by_uuid: Map<Uuid, Arc<DynamicTypeInfo>>,
    by_name: Map<Seq<char>, Uuid>,
    type_info: Arc<DynamicTypeInfo>,
    uuid: Uuid,
) -> Map<Uuid, Arc<DynamicTypeInfo>> {
    if by_name.dom().contains(type_info.name@) {
        by_uuid.remove(by_name[type_info.name@]).insert(uuid, type_info)
    } else {
        by_uuid.insert(uuid, type_info)
    }
}

/// What a lookup by `name` finds: the type registered under the identifier
/// that the name points at, if that identifier is still registered.
pub open spec fn lookup_by_name(
    by_name: Map<Seq<char>, Uuid>,
    by_uuid: Map<Uuid, Arc<DynamicTypeInfo>>,
    name: Seq<char>,
) -> Option<Arc<DynamicTypeInfo>> {
    if by_name.dom().contains(name) && by_uuid.dom().contains(by_name[name]) {
        Some(by_uuid[by_name[name]])
    } else {
        None
    }
}

/// The registry of runtime-composed types, by identifier and by name.
pub struct DynamicTypeRegistry {
    types_by_uuid: KeyedVec<Uuid, Arc<DynamicTypeInfo>>,
    types_by_name: KeyedVec<String, Uuid>,
}

impl DynamicTypeRegistry {
    pub closed spec fn wf(&self) -> bool {
        self.types_by_uuid.wf() && self.types_by_name.wf()
    }

    /// The registered types by identifier.
    pub closed spec fn by_uuid(&self) -> Map<Uuid, Arc<DynamicTypeInfo>> {
        self.types_by_uuid@
    }

    /// The identifier registered under each name.
    pub closed spec fn by_name(&self) -> Map<Seq<char>, Uuid> {
        self.types_by_name@
    }

    /// An empty registry.
    pub fn new() -> (r: Self)
        ensures
            r.wf(),
            r.by_uuid() == Map::<Uuid, Arc<DynamicTypeInfo>>::empty(),
            r.by_name() == Map::<Seq<char>, Uuid>::empty(),
    {
        DynamicTypeRegistry { types_by_uuid: KeyedVec::new(), types_by_name: KeyedVec::new() }
    }

    /// Registers a runtime-composed type under its identifier and its name,
    /// and returns the identifier. A type already registered under that name
    /// is replaced: its identifier is removed.
    pub fn register(&mut self, type_info: Arc<DynamicTypeInfo>) -> (r: Uuid)
        requires
            old(self).wf(),
            type_info.type_tag is RuntimeComposed,
        ensures
            final(self).wf(),
            type_info.type_tag == TypeTag::RuntimeComposed(r),
            final(self).by_uuid() == uuids_after_register(old(self).by_uuid(), old(self).by_name(), type_info, r),
            final(self).by_name() == old(self).by_name().insert(type_info.name@, r),
    {
        let uuid = match type_info.type_tag {
            TypeTag::RuntimeComposed(u) => u,
            TypeTag::CompileTime(_) => {
                // Ruled out by the precondition: compile-time types are not
                // registered here.
                proof {
                    assert(false);
                }
                return new_random_uuid();
            },
        };
        let name = type_info.name.clone();
        match self.types_by_name.get(&name) {
            Some(previous) => {
                let previous = *previous;
                self.types_by_uuid.remove(&previous);
            },
            None => {},
        }
        self.types_by_uuid.insert(uuid, type_info);
        self.types_by_name.insert(name, uuid);
        uuid
    }

    /// The type registered under `uuid`.
    pub fn get(&self, uuid: &Uuid) -> (r: Option<Arc<DynamicTypeInfo>>)
        requires
            self.wf(),
        ensures
            r == if self.by_uuid().dom().contains(*uuid) {
                Some(self.by_uuid()[*uuid])
            } else {
                None::<Arc<DynamicTypeInfo>>
            },
    {
        match self.types_by_uuid.get(uuid) {
            Some(t) => Some(arc_clone(t)),
            None => None,
        }
    }

    /// The type registered under the identifier that `name` points at.
    pub fn get_by_name(&self, name: &str) -> (r: Option<Arc<DynamicTypeInfo>>)
        requires
            self.wf(),
        ensures
            r == lookup_by_name(self.by_name(), self.by_uuid(), name@),
    {
        match self.types_by_name.get(&name.to_string()) {
            Some(u) => self.get(u),
            None => None,
        }
    }

    /// Whether a type is registered under `uuid`.
    pub fn contains(&self, uuid: &Uuid) -> (r: bool)
        requires
            self.wf(),
        ensures
            r == self.by_uuid().dom().contains(*uuid),
    {
        self.types_by_uuid.contains(uuid)
    }

    /// Whether `name` points at an identifier.
    pub fn contains_name(&self, name: &str) -> (r: bool)
        requires
            self.wf(),
        ensures
            r == self.by_name().dom().contains(name@),
    {
        self.types_by_name.contains(&name.to_string())
    }

    /// Every registered name, once each.
    pub fn type_names(&self) -> (r: Vec<String>)
        requires
            self.wf(),
        ensures
            r@.map_values(|n: String| n@).no_duplicates(),
            r@.map_values(|n: String| n@).to_set() == self.by_name().dom(),
    {
        let entries = self.types_by_name.entries();
        let mut r: Vec<String> = Vec::new();
        let mut i: usize = 0;
        while i < entries.len()
            invariant
                entries@ == self.types_by_name.entry_seq(),
                i <= entries@.len(),
                r@.len() == i,
                forall|k: int| 0 <= k < i ==> #[trigger] r@[k]@ == entries@[k].0@,
            decreases entries@.len() - i,
        {
            r.push(entries[i].0.clone());
            i = i + 1;
        }
        proof {
            let names = r@.map_values(|n: String| n@);
            self.types_by_name.lemma_key_models();
            assert(names =~= self.types_by_name.key_models());
            self.types_by_name.lemma_view_len();
        }
        r
    }

    /// Every registered identifier, once each.
    pub fn type_uuids(&self) -> (r: Vec<Uuid>)
        requires
            self.wf(),
        ensures
            r@.no_duplicates(),
            r@.to_set() == self.by_uuid().dom(),
    {
        let entries = self.types_by_uuid.entries();
        let mut r: Vec<Uuid> = Vec::new();
        let mut i: usize = 0;
        while i < entries.len()
            invariant
                entries@ == self.types_by_uuid.entry_seq(),
                i <= entries@.len(),
                r@.len() == i,
                forall|k: int| 0 <= k < i ==> #[trigger] r@[k] == entries@[k].0,
            decreases entries@.len() - i,
        {
            r.push(entries[i].0);
            i = i + 1;
        }
        proof {
            self.types_by_uuid.lemma_key_models();
            assert(r@ =~= self.types_by_uuid.key_models());
            self.types_by_uuid.lemma_view_len();
        }
        r
    }

    /// Removes the type registered under `uuid`, and whatever identifier its
    /// name points at; returns the type.
    pub fn unregister(&mut self, uuid: &Uuid) -> (r: Option<Arc<DynamicTypeInfo>>)
        requires
            old(self).wf(),
        ensures
            final(self).wf(),
            final(self).by_uuid() == old(self).by_uuid().remove(*uuid),
            match r {
                Some(t) => old(self).by_uuid().dom().contains(*uuid) && t == old(self).by_uuid()[*uuid]
                    && final(self).by_name() == old(self).by_name().remove(t.name@),
                None => !old(self).by_uuid().dom().contains(*uuid) && final(self).by_name() == old(self).by_name(),
            },
    {
        match self.types_by_uuid.remove(uuid) {
            Some(t) => {
                self.types_by_name.remove(&t.name);
                Some(t)
            },
            None => None,
        }
    }

    /// Removes every type.
    pub fn clear(&mut self)
        ensures
            final(self).wf(),
            final(self).by_uuid() == Map::<Uuid, Arc<DynamicTypeInfo>>::empty(),
            final(self).by_name() == Map::<Seq<char>, Uuid>::empty(),
    {
        self.types_by_uuid.clear();
        self.types_by_name.clear();
    }

    /// The number of registered types.
    pub fn len(&self) -> (r: usize)
        requires
            self.wf(),
        ensures
            r == self.by_uuid().len(),
    {
        self.types_by_uuid.len()
    }

    /// Whether no type is registered.
    pub fn is_empty(&self) -> (r: bool)
        requires
            self.wf(),
        ensures
            r == (self.by_uuid().len() == 0),
    {
        self.types_by_uuid.len() == 0
    }
}

impl Default for DynamicTypeRegistry {
    fn default() -> (r: Self)
        ensures
            r.wf(),
            r.by_uuid() == Map::<Uuid, Arc<DynamicTypeInfo>>::empty(),
            r.by_name() == Map::<Seq<char>, Uuid>::empty(),
    {
        DynamicTypeRegistry::new()
    }
}

/// After `register`, the type is found under its identifier and under its
/// name, and a type registered earlier under that name, with another
/// identifier, is gone.
pub proof fn law_register_then_lookup(
    by_uuid: Map<Uuid, Arc<DynamicTypeInfo>>,
    by_name: Map<Seq<char>, Uuid>,
    type_info: Arc<DynamicTypeInfo>,
    uuid: Uuid,
)
    requires
        type_info.type_tag == TypeTag::RuntimeComposed(uuid),
    ensures
        uuids_after_register(by_uuid, by_name, type_info, uuid).dom().contains(uuid),
        uuids_after_register(by_uuid, by_name, type_info, uuid)[uuid] == type_info,
        lookup_by_name(
            by_name.insert(type_info.name@, uuid),
            uuids_after_register(by_uuid, by_name, type_info, uuid),
            type_info.name@,
        ) == Some(type_info),
        by_name.dom().contains(type_info.name@) && by_name[type_info.name@] != uuid
            ==> !uuids_after_register(by_uuid, by_name, type_info, uuid).dom().contains(by_name[type_info.name@]),
{
}

/// After `unregister`, nothing is found under the identifier, nor under the
/// removed type's name.
pub proof fn law_unregister_then_lookup(
    by_uuid: Map<Uuid, Arc<DynamicTypeInfo>>,
    by_name: Map<Seq<char>, Uuid>,
    uuid: Uuid,
)
    requires
        by_uuid.dom().contains(uuid),
    ensures
        !by_uuid.remove(uuid).dom().contains(uuid),
        lookup_by_name(by_name.remove(by_uuid[uuid].name@), by_uuid.remove(uuid), by_uuid[uuid].name@) is None,
{
}

} // verus!

//! The registry of reflectable types by type id: each type's descriptor and
//! the pair of JSON conversions registered with it.
//!
//! `S` converts a value of the type to JSON and `D` builds one from JSON; the
//! embedding code applies them.

use crate::interop::type_id_of;
use crate::keyed::KeyedVec;
use crate::runtime_types::RuntimeTypeInfo;
use std::any::TypeId;
use vstd::prelude::*;

verus! {

/// What a reflectable type registers: its descriptor and its JSON
/// conversions.
pub struct RuntimeTypeRegistration<S, D> {
    pub type_info: &'static RuntimeTypeInfo,
    pub serialize_json: S,
    pub deserialize_json: D,
}

/// The registrations that a sequence leaves, by type id: a later
/// registration of a type replaces an earlier one.
pub open spec fn registrations_after<S, D>(regs: Seq<RuntimeTypeRegistration<S, D>>) -> Map<
    TypeId,
    RuntimeTypeRegistration<S, D>,
>
    decreases regs.len(),
{
    if regs.len() == 0 {
        Map::empty()
    } else {
        registrations_after(regs.drop_last()).insert(regs.last().type_info.type_id, regs.last())
    }
}

/// Every registered reflectable type, by type id.
pub struct RuntimeTypeRegistry<S, D> {
    by_type: KeyedVec<TypeId, RuntimeTypeRegistration<S, D>>,
}

impl<S, D> RuntimeTypeRegistry<S, D> {
    pub closed spec fn wf(&self) -> bool {
        self.by_type.wf()
    }

    /// The registrations by type id.
    pub closed spec fn view(&self) -> Map<TypeId, RuntimeTypeRegistration<S, D>> {
        self.by_type@
    }

    /// The registry over `registrations`, applied in order.
    pub fn new(registrations: Vec<RuntimeTypeRegistration<S, D>>) -> (r: Self)
        ensures
            r.wf(),
            r@ == registrations_after(registrations@),
    {
        let mut by_type: KeyedVec<TypeId, RuntimeTypeRegistration<S, D>> = KeyedVec::new();
        let mut rest = registrations;
        let ghost all = rest@;
        let n = rest.len();
        let mut i: usize = 0;
        while i < n
            invariant
                by_type.wf(),
                n == all.len(),
                i <= n,
                rest@ == all.skip(i as int),
                by_type@ == registrations_after(all.take(i as int)),
            decreases n - i,
        {
            let reg = rest.remove(0);
            proof {
                assert(reg == all[i as int]);
                assert(all.take(i + 1).drop_last() =~= all.take(i as int));
                assert(all.take(i + 1).last() == all[i as int]);
                assert(rest@ =~= all.skip(i + 1));
            }
            let id = reg.type_info.type_id;
            by_type.insert(id, reg);
            i = i + 1;
        }
        proof {
            assert(all.take(n as int) =~= all);
        }
        RuntimeTypeRegistry { by_type }
    }

    /// The registration of the type with id `type_id`.
    pub fn registration(&self, type_id: &TypeId) -> (r: Option<&RuntimeTypeRegistration<S, D>>)
        requires
            self.wf(),
        ensures
            r == if self@.dom().contains(*type_id) {
                Some(&self@[*type_id])
            } else {
                None::<&RuntimeTypeRegistration<S, D>>
            },
    {
        self.by_type.get(type_id)
    }

    /// The descriptor of the type with id `type_id`.
    pub fn get_by_type_id(&self, type_id: &TypeId) -> (r: Option<&'static RuntimeTypeInfo>)
        requires
            self.wf(),
        ensures
            r == if self@.dom().contains(*type_id) {
                Some(self@[*type_id].type_info)
            } else {
                None::<&'static RuntimeTypeInfo>
            },
    {
        match self.by_type.get(type_id) {
            Some(reg) => Some(reg.type_info),
            None => None,
        }
    }

    /// The descriptor of `T`, if `T` is registered: the lookup of
    /// `get_by_type_id` under the id of `T`.
    pub fn get<T: ?Sized + 'static>(&self) -> (r: Option<&'static RuntimeTypeInfo>)
        requires
            self.wf(),
        ensures
            exists|id: TypeId|
                r == if self@.dom().contains(id) {
                    Some(self@[id].type_info)
                } else {
                    None::<&'static RuntimeTypeInfo>
                },
    {
        let id = type_id_of::<T>();
        self.get_by_type_id(&id)
    }

    /// The number of registered types.
    pub fn len(&self) -> (r: usize)
        requires
            self.wf(),
        ensures
            r == self@.len(),
    {
        self.by_type.len()
    }

    /// Whether no type is registered.
    pub fn is_empty(&self) -> (r: bool)
        requires
            self.wf(),
        ensures
            r == (self@.len() == 0),
    {
        self.by_type.len() == 0
    }
}

} // verus!

//! Custom property renderers, one per type.
//!
//! Each type can have one registered renderer; registering another for the
//! same type replaces it. The renderer itself is a handle `R` that the
//! embedding UI code calls.

use crate::keyed::KeyedVec;
use crate::runtime_types::RuntimeTypeInfo;
use std::any::TypeId;
use vstd::prelude::*;

verus! {

/// Result of a rendering operation.
#[derive(Debug, Clone, Copy, PartialEq, Eq, Structural)]
pub enum RenderResult {
    /// The UI changed the value.
    Changed,
    /// The value was not changed.
    Unchanged,
}

/// Registration entry for a type renderer.
pub struct TypeRendererRegistration<R> {
    pub type_id: TypeId,
    pub renderer: R,
}

impl<R> TypeRendererRegistration<R> {
    pub fn new(type_id: TypeId, renderer: R) -> (r: Self)
        ensures
            r.type_id == type_id,
            r.renderer == renderer,
    {
        TypeRendererRegistration { type_id, renderer }
    }
}

/// The registered renderers by type.
pub struct TypeRendererRegistry<R> {
    renderers: KeyedVec<TypeId, R>,
}

/// The renderers that a sequence of registrations leaves: a later
/// registration for a type replaces an earlier one.
pub open spec fn renderers_after<R>(regs: Seq<TypeRendererRegistration<R>>) -> Map<TypeId, R>
    decreases regs.len(),
{
    if regs.len() == 0 {
        Map::empty()
    } else {
        renderers_after(regs.drop_last()).insert(regs.last().type_id, regs.last().renderer)
    }
}

impl<R> TypeRendererRegistry<R> {
    pub closed spec fn wf(&self) -> bool {
        self.renderers.wf()
    }

    /// The renderer registered for each type.
    pub closed spec fn view(&self) -> Map<TypeId, R> {
        self.renderers@
    }

    /// An empty registry.
    pub fn new() -> (r: Self)
        ensures
            r.wf(),
            r@ == Map::<TypeId, R>::empty(),
    {
        TypeRendererRegistry { renderers: KeyedVec::new() }
    }

    /// A registry holding `registrations`, applied in order.
    pub fn from_registrations(registrations: Vec<TypeRendererRegistration<R>>) -> (r: Self)
        ensures
            r.wf(),
            r@ == renderers_after(registrations@),
    {
        let mut registry = Self::new();
        let mut rest = registrations;
        let ghost all = rest@;
        let n = rest.len();
        let mut i: usize = 0;
        while i < n
            invariant
                registry.wf(),
                n == all.len(),
                i <= n,
                rest@ == all.skip(i as int),
                registry@ == renderers_after(all.take(i as int)),
            decreases n - i,
        {
            let reg = rest.remove(0);
            proof {
                assert(reg == all[i as int]);
                assert(all.take(i + 1).drop_last() =~= all.take(i as int));
                assert(all.take(i + 1).last() == all[i as int]);
                assert(rest@ =~= all.skip(i + 1));
            }
            registry.register(reg.type_id, reg.renderer);
            i = i + 1;
        }
        proof {
            assert(all.take(n as int) =~= all);
        }
        registry
    }

    /// The renderer for `type_id`, if one is registered.
    pub fn get_renderer(&self, type_id: TypeId) -> (r: Option<&R>)
        requires
            self.wf(),
        ensures
            match r {
                Some(v) => self@.dom().contains(type_id) && self@[type_id] == *v,
                None => !self@.dom().contains(type_id),
            },
    {
        self.renderers.get(&type_id)
    }

    /// Whether a renderer is registered for `type_id`.
    pub fn has_renderer(&self, type_id: TypeId) -> (r: bool)
        requires
            self.wf(),
        ensures
            r == self@.dom().contains(type_id),
    {
        self.renderers.contains(&type_id)
    }

    /// The renderer for the type that `type_info` describes.
    pub fn get_renderer_for_type(&self, type_info: &RuntimeTypeInfo) -> (r: Option<&R>)
        requires
            self.wf(),
        ensures
            match r {
                Some(v) => self@.dom().contains(type_info.type_id) && self@[type_info.type_id] == *v,
                None => !self@.dom().contains(type_info.type_id),
            },
    {
        self.get_renderer(type_info.type_id)
    }

    /// Registers `renderer` for `type_id`, replacing any earlier one.
    pub fn register(&mut self, type_id: TypeId, renderer: R)
        requires
            old(self).wf(),
        ensures
            final(self).wf(),
            final(self)@ == old(self)@.insert(type_id, renderer),
    {
        self.renderers.insert(type_id, renderer);
    }

    /// The number of registered renderers.
    pub fn len(&self) -> (r: usize)
        requires
            self.wf(),
        ensures
            r == self@.len(),
    {
        self.renderers.len()
    }

    pub fn is_empty(&self) -> (r: bool)
        requires
            self.wf(),
        ensures
            r == (self@.len() == 0),
    {
        self.renderers.len() == 0
    }
}

/// Registering a renderer makes it the one found for its type, leaves every
/// other type's renderer as it was, and grows the count by one exactly when
/// the type had none (`register` turns the view into
/// `view.insert(type_id, renderer)`).
pub proof fn law_register_then_get<R>(registry: TypeRendererRegistry<R>, type_id: TypeId, renderer: R, other: TypeId)
    requires
        registry.wf(),
        other != type_id,
    ensures
        registry@.insert(type_id, renderer)[type_id] == renderer,
        registry@.insert(type_id, renderer).dom().contains(other) == registry@.dom().contains(other),
        registry@.dom().contains(other) ==> registry@.insert(type_id, renderer)[other] == registry@[other],
        registry@.insert(type_id, renderer).len() == if registry@.dom().contains(type_id) {
            registry@.len()
        } else {
            registry@.len() + 1
        },
{
    registry.renderers.lemma_view_len();
    if registry@.dom().contains(type_id) {
        assert(registry@.insert(type_id, renderer).dom() =~= registry@.dom());
    }
}

} // verus!

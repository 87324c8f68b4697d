//! Engine-facing pieces: method metadata for blueprint-callable methods, the
//! subsystem registry, the set of live keys of a sync pass, and the tag of a
//! scene object.

use crate::interop::str_eq;
use crate::keyed::KeyedVec;
use crate::runtime_types::RuntimeTypeInfo;
use std::any::TypeId;
use std::collections::hash_map::DefaultHasher;
use std::hash::Hasher;
use vstd::prelude::*;
use vstd::std_specs::hash::DefaultHasherAdditionalSpecFns;
use vstd::string::StringSliceAdditionalSpecFns;

verus! {

/// Classification for blueprint-callable method behavior.
#[derive(Debug, Clone, Copy, PartialEq, Eq, Structural)]
pub enum MethodType {
    Pure,
    Fn,
    ControlFlow,
}

/// Metadata for a single method parameter.
#[derive(Debug, Clone)]
pub struct MethodParameter {
    pub name: &'static str,
    pub type_info: &'static RuntimeTypeInfo,
}

/// Metadata for a method return type.
#[derive(Debug, Clone)]
pub struct MethodReturnType {
    pub type_info: &'static RuntimeTypeInfo,
}

/// Metadata for a blueprint-callable method; `C` is the handle that calls
/// it.
pub struct MethodMetadata<C> {
    pub name: &'static str,
    pub display_name: String,
    pub category: Option<&'static str>,
    pub params: Vec<MethodParameter>,
    pub return_type: Option<MethodReturnType>,
    pub method_type: MethodType,
    pub caller: C,
}

/// Metadata for a single property field; `G` reads the value and `S` writes
/// it.
pub struct PropertyMetadata<G, S> {
    /// Field name.
    pub name: &'static str,
    /// Display name for the UI.
    pub display_name: String,
    /// Optional category for grouping.
    pub category: Option<&'static str>,
    /// Optional hex color for the category header.
    pub category_color: Option<&'static str>,
    /// Whether the category starts collapsed.
    pub category_default_collapsed: bool,
    /// Order index from declared categories.
    pub category_order: Option<usize>,
    /// Runtime type information.
    pub type_info: &'static RuntimeTypeInfo,
    pub getter: G,
    pub setter: S,
}

/// A hint that a type has a registered property editor; `F` is the erased
/// editor factory.
pub struct UiPropertyEditorHint<F> {
    /// The type this editor handles.
    pub type_id: TypeId,
    pub fn_ptr: F,
}

/// The compact tag of a scene object id: the default hasher's result over
/// the id (a `str` is hashed as its bytes followed by `0xff`).
pub open spec fn scene_tag(id: &str) -> u64 {
    DefaultHasher::spec_finish(seq![id.spec_bytes(), seq![255u8]])
}

/// Hash a scene database string id to a compact `u64` tag.
pub fn scene_id_to_tag(id: &str) -> (r: u64)
    ensures
        r == scene_tag(id),
{
    let mut h = DefaultHasher::new();
    h.write(id.as_bytes());
    let terminator: [u8; 1] = [255u8];
    h.write(&terminator);
    proof {
        assert(terminator@ =~= seq![255u8]);
        assert(h@ =~= seq![id.spec_bytes(), seq![255u8]]);
    }
    h.finish()
}

/// The texts of the strings.
pub open spec fn texts(s: Seq<String>) -> Seq<Seq<char>> {
    s.map_values(|x: String| x@)
}

/// The set of string keys that are live during a sync pass.
pub struct LiveKeySet {
    keys: Vec<String>,
}

impl LiveKeySet {
    pub closed spec fn wf(&self) -> bool {
        texts(self.keys@).no_duplicates()
    }

    pub closed spec fn view(&self) -> Set<Seq<char>> {
        texts(self.keys@).to_set()
    }

    pub fn new() -> (r: Self)
        ensures
            r.wf(),
            r@ == Set::<Seq<char>>::empty(),
    {
        let r = LiveKeySet { keys: Vec::new() };
        assert(texts(r.keys@) =~= Seq::<Seq<char>>::empty());
        assert(r@ =~= Set::<Seq<char>>::empty());
        r
    }

    fn position(&self, key: &str) -> (r: Option<usize>)
        ensures
            match r {
                Some(i) => i < self.keys@.len() && self.keys@[i as int]@ == key@,
                None => !self@.contains(key@),
            },
    {
        let mut i: usize = 0;
        while i < self.keys.len()
            invariant
                i <= self.keys@.len(),
                forall|j: int| 0 <= j < i ==> self.keys@[j]@ != key@,
            decreases self.keys@.len() - i,
        {
            if str_eq(self.keys[i].as_str(), key) {
                return Some(i);
            }
            i = i + 1;
        }
        proof {
            if self@.contains(key@) {
                let j = choose|j: int| 0 <= j < texts(self.keys@).len() && texts(self.keys@)[j] == key@;
                assert(self.keys@[j]@ == key@);
            }
        }
        None
    }

    pub fn contains(&self, key: &str) -> (r: bool)
        ensures
            r == self@.contains(key@),
    {
        match self.position(key) {
            Some(i) => {
                assert(texts(self.keys@)[i as int] == key@);
                true
            },
            None => false,
        }
    }

    pub fn insert(&mut self, key: String)
        requires
            old(self).wf(),
        ensures
            final(self).wf(),
            final(self)@ == old(self)@.insert(key@),
    {
        if !self.contains(key.as_str()) {
            let ghost before = self.keys@;
            let ghost text = key@;
            self.keys.push(key);
            proof {
                assert(texts(self.keys@) =~= texts(before).push(text));
                texts(before).lemma_push_to_set_commute(text);
                assert forall|a: int, b: int| 0 <= a < b < texts(self.keys@).len() implies texts(self.keys@)[a] != texts(self.keys@)[b] by {
                    if b == before.len() {
                        assert(texts(before)[a] == texts(self.keys@)[a]);
                    } else {
                        assert(texts(before)[a] == texts(self.keys@)[a]);
                        assert(texts(before)[b] == texts(self.keys@)[b]);
                    }
                }
            }
        } else {
            proof {
                assert(self@.insert(key@) =~= self@);
            }
        }
    }

    pub fn clear(&mut self)
        ensures
            final(self).wf(),
            final(self)@ == Set::<Seq<char>>::empty(),
    {
        self.keys.clear();
        proof {
            assert(texts(self.keys@) =~= Seq::<Seq<char>>::empty());
            assert(self@ =~= Set::<Seq<char>>::empty());
        }
    }

    /// The keys, each once.
    pub fn iter(&self) -> (r: Vec<&str>)
        requires
            self.wf(),
        ensures
            r@.map_values(|x: &str| x@).no_duplicates(),
            r@.map_values(|x: &str| x@).to_set() == self@,
    {
        let mut r: Vec<&str> = Vec::new();
        let mut i: usize = 0;
        while i < self.keys.len()
            invariant
                self.wf(),
                i <= self.keys@.len(),
                r@.len() == i,
                forall|k: int| 0 <= k < i ==> (#[trigger] r@[k])@ == self.keys@[k]@,
            decreases self.keys@.len() - i,
        {
            let s = self.keys[i].as_str();
            r.push(s);
            i = i + 1;
        }
        proof {
            assert(r@.map_values(|x: &str| x@) =~= texts(self.keys@));
        }
        r
    }

    /// The underlying keys, each once.
    pub fn inner(&self) -> (r: &[String])
        requires
            self.wf(),
        ensures
            texts(r@).no_duplicates(),
            texts(r@).to_set() == self@,
    {
        self.keys.as_slice()
    }

    /// Keeps only the keys that `other` also holds.
    pub fn retain_keys(&mut self, other: &Self)
        requires
            old(self).wf(),
        ensures
            final(self).wf(),
            final(self)@ == old(self)@.intersect(other@),
    {
        let ghost before = self.keys@;
        let mut kept: Vec<String> = Vec::new();
        let mut i: usize = 0;
        while i < self.keys.len()
            invariant
                self.keys@ == before,
                texts(before).no_duplicates(),
                i <= before.len(),
                texts(kept@).no_duplicates(),
                forall|t: Seq<char>| #[trigger] texts(kept@).to_set().contains(t) == (texts(before.take(i as int)).to_set().contains(t) && other@.contains(t)),
            decreases before.len() - i,
        {
            let key = self.keys[i].clone();
            let ghost kept_before = kept@;
            if other.contains(key.as_str()) {
                kept.push(key);
                proof {
                    assert(texts(kept@) =~= texts(kept_before).push(before[i as int]@));
                    assert forall|a: int, b: int| 0 <= a < b < texts(kept@).len() implies texts(kept@)[a] != texts(kept@)[b] by {
                        if b == kept_before.len() {
                            assert(texts(kept_before)[a] == texts(kept@)[a]);
                            let t = texts(kept@)[a];
                            assert(texts(kept_before).to_set().contains(t));
                            assert(texts(before.take(i as int)).to_set().contains(t));
                            let m = choose|m: int| 0 <= m < texts(before.take(i as int)).len() && texts(before.take(i as int))[m] == t;
                            assert(texts(before)[m] == t);
                            assert(texts(before)[i as int] == before[i as int]@);
                        } else {
                            assert(texts(kept_before)[a] == texts(kept@)[a]);
                            assert(texts(kept_before)[b] == texts(kept@)[b]);
                        }
                    }
                }
            }
            proof {
                assert(texts(before.take(i + 1)) =~= texts(before.take(i as int)).push(before[i as int]@));
                texts(before.take(i as int)).lemma_push_to_set_commute(before[i as int]@);
                if other@.contains(before[i as int]@) {
                    texts(kept_before).lemma_push_to_set_commute(before[i as int]@);
                }
            }
            i = i + 1;
        }
        self.keys = kept;
        proof {
            assert(before.take(before.len() as int) =~= before);
            assert(self@ =~= texts(before).to_set().intersect(other@));
        }
    }
}

/// Which registry holds a subsystem.
#[derive(Debug, Clone, Copy, PartialEq, Eq, Structural)]
pub enum SubsystemSlot {
    /// Stored by value.
    Owned,
    /// Borrowed from elsewhere.
    Borrowed,
    /// Not registered.
    Missing,
}

/// Registry of runtime subsystems by type: owned values `O` and borrowed
/// handles `B`.
pub struct Subsystems<O, B> {
    owned: KeyedVec<TypeId, O>,
    borrow: KeyedVec<TypeId, B>,
}

impl<O, B> Subsystems<O, B> {
    pub closed spec fn wf(&self) -> bool {
        self.owned.wf() && self.borrow.wf()
    }

    /// The owned subsystems by type.
    pub closed spec fn owned_view(&self) -> Map<TypeId, O> {
        self.owned@
    }

    /// The store of borrowed subsystems.
    pub closed spec fn borrowed_part(&self) -> KeyedVec<TypeId, B> {
        self.borrow
    }

    /// The owned subsystems in registration order.
    pub closed spec fn owned_entries(&self) -> Seq<(TypeId, O)> {
        self.owned.entry_seq()
    }

    /// Where in `owned_entries` the subsystem of type `t` stands.
    pub closed spec fn owned_position(&self, t: TypeId) -> int {
        self.owned.position(t)
    }

    /// Changing the owned subsystem in place (what `owned_mut` allows)
    /// changes only the value registered for its type.
    pub proof fn lemma_owned_changed(before: Self, after: Self, t: TypeId)
        requires
            before.wf(),
            before.owned_view().dom().contains(t),
            after.borrowed_part() == before.borrowed_part(),
            after.owned_entries() == before.owned_entries().update(
                before.owned_position(t),
                (before.owned_entries()[before.owned_position(t)].0, after.owned_entries()[before.owned_position(t)].1),
            ),
        ensures
            after.wf(),
            after.owned_view() == before.owned_view().insert(t, after.owned_entries()[before.owned_position(t)].1),
    {
        KeyedVec::lemma_value_replaced(before.owned, after.owned, t);
    }

    /// The borrowed subsystems by type.
    pub closed spec fn borrowed_view(&self) -> Map<TypeId, B> {
        self.borrow@
    }

    /// Where a lookup of `t` finds its subsystem: the owned ones are
    /// searched first.
    pub open spec fn slot_of(&self, t: TypeId) -> SubsystemSlot {
        if self.owned_view().dom().contains(t) {
            SubsystemSlot::Owned
        } else if self.borrowed_view().dom().contains(t) {
            SubsystemSlot::Borrowed
        } else {
            SubsystemSlot::Missing
        }
    }

    /// An empty registry.
    pub fn new() -> (r: Self)
        ensures
            r.wf(),
            r.owned_view() == Map::<TypeId, O>::empty(),
            r.borrowed_view() == Map::<TypeId, B>::empty(),
    {
        Subsystems { owned: KeyedVec::new(), borrow: KeyedVec::new() }
    }

    /// Registers an owned subsystem of type `type_id`, replacing an earlier
    /// owned one.
    pub fn register(&mut self, type_id: TypeId, subsystem: O)
        requires
            old(self).wf(),
        ensures
            final(self).wf(),
            final(self).owned_view() == old(self).owned_view().insert(type_id, subsystem),
            final(self).borrowed_view() == old(self).borrowed_view(),
    {
        self.owned.insert(type_id, subsystem);
    }

    /// Registers a borrowed subsystem of type `type_id`, replacing an
    /// earlier borrowed one.
    pub fn register_ref(&mut self, type_id: TypeId, subsystem: B)
        requires
            old(self).wf(),
        ensures
            final(self).wf(),
            final(self).borrowed_view() == old(self).borrowed_view().insert(type_id, subsystem),
            final(self).owned_view() == old(self).owned_view(),
    {
        self.borrow.insert(type_id, subsystem);
    }

    /// Where a subsystem of type `type_id` is found.
    pub fn lookup(&self, type_id: TypeId) -> (r: SubsystemSlot)
        requires
            self.wf(),
        ensures
            r == self.slot_of(type_id),
    {
        if self.owned.contains(&type_id) {
            SubsystemSlot::Owned
        } else if self.borrow.contains(&type_id) {
            SubsystemSlot::Borrowed
        } else {
            SubsystemSlot::Missing
        }
    }

    /// The owned subsystem of type `type_id`, to use in place.
    pub fn owned_mut(&mut self, type_id: TypeId) -> (r: Option<&mut O>)
        requires
            old(self).wf(),
        ensures
            match r {
                Some(v) => old(self).owned_view().dom().contains(type_id) && *v == old(self).owned_view()[type_id]
                    && final(self).borrowed_part() == old(self).borrowed_part()
                    && final(self).owned_entries() == old(self).owned_entries().update(
                    old(self).owned_position(type_id),
                    (old(self).owned_entries()[old(self).owned_position(type_id)].0, *final(v)),
                ),
                None => !old(self).owned_view().dom().contains(type_id) && *final(self) == *old(self),
            },
    {
        self.owned.get_mut(&type_id)
    }

    /// The borrowed subsystem of type `type_id`.
    pub fn borrowed(&self, type_id: TypeId) -> (r: Option<&B>)
        requires
            self.wf(),
        ensures
            match r {
                Some(v) => self.borrowed_view().dom().contains(type_id) && *v == self.borrowed_view()[type_id],
                None => !self.borrowed_view().dom().contains(type_id),
            },
    {
        self.borrow.get(&type_id)
    }

    /// The subsystem of type `type_id`: the owned one (`Ok`, to use in place)
    /// where there is one, else the borrowed one (`Err`), else `None`.
    pub fn get_mut(&mut self, type_id: TypeId) -> (r: Option<Result<&mut O, &B>>)
        requires
            old(self).wf(),
        ensures
            match r {
                Some(Ok(v)) => old(self).slot_of(type_id) == SubsystemSlot::Owned
                    && *v == old(self).owned_view()[type_id]
                    && final(self).borrowed_part() == old(self).borrowed_part()
                    && final(self).owned_entries() == old(self).owned_entries().update(
                    old(self).owned_position(type_id),
                    (old(self).owned_entries()[old(self).owned_position(type_id)].0, *final(v)),
                ),
                Some(Err(v)) => old(self).slot_of(type_id) == SubsystemSlot::Borrowed
                    && *v == old(self).borrowed_view()[type_id]
                    && *final(self) == *old(self),
                None => old(self).slot_of(type_id) == SubsystemSlot::Missing && *final(self) == *old(self),
            },
    {
        if self.owned.contains(&type_id) {
            match self.owned.get_mut(&type_id) {
                Some(v) => Some(Ok(v)),
                None => None,
            }
        } else {
            match self.borrow.get(&type_id) {
                Some(v) => Some(Err(v)),
                None => None,
            }
        }
    }

    /// Removes the subsystems of type `type_id`, owned and borrowed.
    pub fn unregister(&mut self, type_id: TypeId)
        requires
            old(self).wf(),
        ensures
            final(self).wf(),
            final(self).owned_view() == old(self).owned_view().remove(type_id),
            final(self).borrowed_view() == old(self).borrowed_view().remove(type_id),
    {
        self.owned.remove(&type_id);
        self.borrow.remove(&type_id);
    }
}

/// One call that changes a `Subsystems` registry.
pub enum SubsystemOp<O, B> {
    /// `register(t, value)`.
    Register(TypeId, O),
    /// `register_ref(t, value)`.
    RegisterRef(TypeId, B),
    /// `unregister(t)`.
    Unregister(TypeId),
}

/// `after` is what the call `op` leaves of `before`, as the calls state it.
pub open spec fn subsystem_step<O, B>(before: Subsystems<O, B>, op: SubsystemOp<O, B>, after: Subsystems<O, B>) -> bool {
    match op {
        SubsystemOp::Register(t, v) => after.owned_view() == before.owned_view().insert(t, v)
            && after.borrowed_view() == before.borrowed_view(),
        SubsystemOp::RegisterRef(t, v) => after.borrowed_view() == before.borrowed_view().insert(t, v)
            && after.owned_view() == before.owned_view(),
        SubsystemOp::Unregister(t) => after.owned_view() == before.owned_view().remove(t)
            && after.borrowed_view() == before.borrowed_view().remove(t),
    }
}

/// Some `register(t, ..)` (with `owned`) or `register_ref(t, ..)` (without)
/// comes after the last `unregister(t)` among `ops`.
pub open spec fn registered_since<O, B>(ops: Seq<SubsystemOp<O, B>>, t: TypeId, owned: bool) -> bool
    decreases ops.len(),
{
    if ops.len() == 0 {
        false
    } else {
        match ops.last() {
            SubsystemOp::Unregister(u) => if u == t {
                false
            } else {
                registered_since(ops.drop_last(), t, owned)
            },
            SubsystemOp::Register(u, _) => if u == t && owned {
                true
            } else {
                registered_since(ops.drop_last(), t, owned)
            },
            SubsystemOp::RegisterRef(u, _) => if u == t && !owned {
                true
            } else {
                registered_since(ops.drop_last(), t, owned)
            },
        }
    }
}

/// After any sequence of `register`, `register_ref` and `unregister` calls
/// on a new registry, a lookup of `t` (`lookup`, or `get_mut`, which returns
/// what `slot_of` names) finds nothing exactly when neither
/// kind of `t` was registered since the last `unregister(t)`, and finds the
/// owned one whenever an owned `t` was, borrowed or not.
pub proof fn law_subsystem_lookup_after_calls<O, B>(ops: Seq<SubsystemOp<O, B>>, states: Seq<Subsystems<O, B>>, t: TypeId)
    requires
        states.len() == ops.len() + 1,
        states[0].owned_view() == Map::<TypeId, O>::empty(),
        states[0].borrowed_view() == Map::<TypeId, B>::empty(),
        forall|k: int| 0 <= k < ops.len() ==> #[trigger] subsystem_step(states[k], ops[k], states[k + 1]),
    ensures
        states.last().slot_of(t) == if registered_since(ops, t, true) {
            SubsystemSlot::Owned
        } else if registered_since(ops, t, false) {
            SubsystemSlot::Borrowed
        } else {
            SubsystemSlot::Missing
        },
{
    lemma_subsystem_domains(ops, states, t);
}

/// What the registry holds of `t` after the calls `ops`.
proof fn lemma_subsystem_domains<O, B>(ops: Seq<SubsystemOp<O, B>>, states: Seq<Subsystems<O, B>>, t: TypeId)
    requires
        states.len() == ops.len() + 1,
        states[0].owned_view() == Map::<TypeId, O>::empty(),
        states[0].borrowed_view() == Map::<TypeId, B>::empty(),
        forall|k: int| 0 <= k < ops.len() ==> #[trigger] subsystem_step(states[k], ops[k], states[k + 1]),
    ensures
        states.last().owned_view().dom().contains(t) == registered_since(ops, t, true),
        states.last().borrowed_view().dom().contains(t) == registered_since(ops, t, false),
    decreases ops.len(),
{
    if ops.len() > 0 {
        let n = ops.len() - 1;
        let ops0 = ops.drop_last();
        let states0 = states.drop_last();
        assert forall|k: int| 0 <= k < ops0.len() implies #[trigger] subsystem_step(states0[k], ops0[k], states0[k + 1]) by {
            assert(subsystem_step(states[k], ops[k], states[k + 1]));
        }
        lemma_subsystem_domains(ops0, states0, t);
        assert(subsystem_step(states[n], ops[n], states[n + 1]));
        assert(states0.last() == states[n]);
    }
}

/// A class's scene-props projector: `apply` writes the props that the
/// class's component data implies.
pub struct ScenePropsApplierRegistration<F> {
    pub class_name: &'static str,
    pub apply: F,
}

/// A class's runtime behavior: `sync` projects one component into the
/// runtime systems.
pub struct RuntimeBehaviorRegistration<F> {
    pub class_name: &'static str,
    pub sync: F,
}

/// The position of the first name of `names` with text `name`.
pub open spec fn first_class_named(names: Seq<&'static str>, name: Seq<char>) -> Option<int> {
    if exists|i: int| 0 <= i < names.len() && names[i]@ == name {
        Some(choose|i: int| 0 <= i < names.len() && names[i]@ == name && forall|j: int| 0 <= j < i ==> names[j]@ != name)
    } else {
        None
    }
}

/// The class names of the scene-props registrations, in order.
pub open spec fn applier_names<F>(regs: Seq<ScenePropsApplierRegistration<F>>) -> Seq<&'static str> {
    regs.map_values(|r: ScenePropsApplierRegistration<F>| r.class_name)
}

/// The class names of the runtime-behavior registrations, in order.
pub open spec fn behavior_names<F>(regs: Seq<RuntimeBehaviorRegistration<F>>) -> Seq<&'static str> {
    regs.map_values(|r: RuntimeBehaviorRegistration<F>| r.class_name)
}

/// Runs the first scene-props projector registered for `class_name` on
/// `props` and `component_data`; returns whether there was one.
pub fn apply_scene_props_for_class<F, P, D>(
    registrations: &[ScenePropsApplierRegistration<F>],
    class_name: &str,
    props: P,
    component_data: D,
) -> (r: bool) where F: Fn(P, D)
    requires
        first_class_named(applier_names(registrations@), class_name@) matches Some(i)
            ==> registrations@[i].apply.requires((props, component_data)),
    ensures
        r == first_class_named(applier_names(registrations@), class_name@) is Some,
        first_class_named(applier_names(registrations@), class_name@) matches Some(i)
            ==> registrations@[i].apply.ensures((props, component_data), ()),
{
    let ghost names = applier_names(registrations@);
    let mut i: usize = 0;
    while i < registrations.len()
        invariant
            names == applier_names(registrations@),
            first_class_named(names, class_name@) matches Some(k) ==> registrations@[k].apply.requires((props, component_data)),
            i <= registrations@.len(),
            forall|j: int| 0 <= j < i ==> names[j]@ != class_name@,
        decreases registrations@.len() - i,
    {
        if str_eq(registrations[i].class_name, class_name) {
            proof {
                assert(names[i as int]@ == class_name@);
                let c = choose|k: int| 0 <= k < names.len() && names[k]@ == class_name@ && forall|j: int| 0 <= j < k ==> names[j]@ != class_name@;
                if c < i {
                    assert(names[c]@ != class_name@);
                }
                if c > i {
                    assert(names[i as int]@ != class_name@);
                }
            }
            (registrations[i].apply)(props, component_data);
            return true;
        }
        i = i + 1;
    }
    proof {
        if exists|k: int| 0 <= k < names.len() && names[k]@ == class_name@ {
            let k = choose|k: int| 0 <= k < names.len() && names[k]@ == class_name@;
            assert(names[k]@ != class_name@);
        }
    }
    false
}

/// The class names of the scene-props registrations, in order.
pub fn registered_scene_props_classes<F>(registrations: &[ScenePropsApplierRegistration<F>]) -> (r: Vec<&'static str>)
    ensures
        r@ == applier_names(registrations@),
{
    let mut r: Vec<&'static str> = Vec::new();
    let mut i: usize = 0;
    while i < registrations.len()
        invariant
            i <= registrations@.len(),
            r@ == applier_names(registrations@).take(i as int),
        decreases registrations@.len() - i,
    {
        r.push(registrations[i].class_name);
        proof {
            assert(applier_names(registrations@).take(i + 1) =~= applier_names(registrations@).take(i as int).push(registrations@[i as int].class_name));
        }
        i = i + 1;
    }
    proof {
        assert(applier_names(registrations@).take(registrations@.len() as int) =~= applier_names(registrations@));
    }
    r
}

/// Runs the first runtime behavior registered for `class_name` on the
/// component `component_index` of `owner`, with its data and the runtime
/// `context`; returns whether there was one.
pub fn apply_runtime_behavior_for_class<F, O, D, C>(
    registrations: &[RuntimeBehaviorRegistration<F>],
    class_name: &str,
    owner: O,
    component_index: usize,
    component_data: D,
    context: C,
) -> (r: bool) where F: Fn(O, usize, D, C)
    requires
        first_class_named(behavior_names(registrations@), class_name@) matches Some(i)
            ==> registrations@[i].sync.requires((owner, component_index, component_data, context)),
    ensures
        r == first_class_named(behavior_names(registrations@), class_name@) is Some,
        first_class_named(behavior_names(registrations@), class_name@) matches Some(i)
            ==> registrations@[i].sync.ensures((owner, component_index, component_data, context), ()),
{
    let ghost names = behavior_names(registrations@);
    let mut i: usize = 0;
    while i < registrations.len()
        invariant
            names == behavior_names(registrations@),
            first_class_named(names, class_name@) matches Some(k)
                ==> registrations@[k].sync.requires((owner, component_index, component_data, context)),
            i <= registrations@.len(),
            forall|j: int| 0 <= j < i ==> names[j]@ != class_name@,
        decreases registrations@.len() - i,
    {
        if str_eq(registrations[i].class_name, class_name) {
            proof {
                assert(names[i as int]@ == class_name@);
                let c = choose|k: int| 0 <= k < names.len() && names[k]@ == class_name@ && forall|j: int| 0 <= j < k ==> names[j]@ != class_name@;
                if c < i {
                    assert(names[c]@ != class_name@);
                }
                if c > i {
                    assert(names[i as int]@ != class_name@);
                }
            }
            (registrations[i].sync)(owner, component_index, component_data, context);
            return true;
        }
        i = i + 1;
    }
    proof {
        if exists|k: int| 0 <= k < names.len() && names[k]@ == class_name@ {
            let k = choose|k: int| 0 <= k < names.len() && names[k]@ == class_name@;
            assert(names[k]@ != class_name@);
        }
    }
    false
}

} // verus!

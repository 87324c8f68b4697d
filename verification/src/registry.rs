//! The registry of engine classes: which classes exist, their categories,
//! how to construct them, and the methods their components expose.
//!
//! `K` constructs a default instance, `J` builds one from JSON, and `C`
//! calls a component method; the embedding code applies them.

use crate::engine::MethodMetadata;
use crate::interop::str_eq;
use crate::keyed::KeyedVec;
use serde_json::Value;
use crate::sorting::{dedup_sorted, name_texts, sort_distinct_names, sort_names, sorted_names};
use vstd::prelude::*;

verus! {

/// Registration entry of an engine class.
pub struct EngineClassRegistration<K, J> {
    pub name: &'static str,
    pub category: Option<&'static str>,
    pub constructor: K,
    /// Builds a whole instance from JSON; `None` for classes without that
    /// round trip.
    pub from_json: Option<J>,
}

/// Registration of a component's methods.
pub struct ComponentMethodRegistration<C> {
    pub class_name: &'static str,
    pub methods: Vec<MethodMetadata<C>>,
}

/// What the registry keeps of a class.
pub struct ClassEntry<K, J> {
    pub constructor: K,
    pub category: Option<&'static str>,
    pub from_json: Option<J>,
}

/// The classes that a sequence of registrations leaves, by name: a later
/// registration under a name replaces an earlier one.
pub open spec fn classes_after<K, J>(regs: Seq<EngineClassRegistration<K, J>>) -> Map<Seq<char>, ClassEntry<K, J>>
    decreases regs.len(),
{
    if regs.len() == 0 {
        Map::empty()
    } else {
        let r = regs.last();
        classes_after(regs.drop_last()).insert(
            r.name@,
            ClassEntry { constructor: r.constructor, category: r.category, from_json: r.from_json },
        )
    }
}

/// The methods of every registration for the class named `name`, in
/// registration order.
pub open spec fn class_methods<C>(regs: Seq<ComponentMethodRegistration<C>>, name: Seq<char>) -> Seq<MethodMetadata<C>>
    decreases regs.len(),
{
    if regs.len() == 0 {
        Seq::empty()
    } else {
        let earlier = class_methods(regs.drop_last(), name);
        if regs.last().class_name@ == name {
            earlier + regs.last().methods@
        } else {
            earlier
        }
    }
}

/// The methods, dereferenced.
pub open spec fn deref_meta<C>(s: Seq<&MethodMetadata<C>>) -> Seq<MethodMetadata<C>> {
    s.map_values(|m: &MethodMetadata<C>| *m)
}

/// The position in `s` of the first method named `name`.
pub open spec fn first_meta_named<C>(s: Seq<MethodMetadata<C>>, name: Seq<char>) -> Option<int> {
    if exists|i: int| 0 <= i < s.len() && s[i].name@ == name {
        Some(choose|i: int| 0 <= i < s.len() && s[i].name@ == name && forall|j: int| 0 <= j < i ==> s[j].name@ != name)
    } else {
        None
    }
}

/// The class is filed under the category with text `category`.
pub open spec fn in_category<K, J>(e: ClassEntry<K, J>, category: Seq<char>) -> bool {
    e.category matches Some(c) && c@ == category
}

/// Every registered engine class.
pub struct EngineClassRegistry<K, J, C> {
    classes: KeyedVec<&'static str, ClassEntry<K, J>>,
    method_registrations: Vec<ComponentMethodRegistration<C>>,
}

impl<K, J, C> EngineClassRegistry<K, J, C> {
    pub closed spec fn wf(&self) -> bool {
        self.classes.wf()
    }

    /// The classes by name.
    pub closed spec fn view(&self) -> Map<Seq<char>, ClassEntry<K, J>> {
        self.classes@
    }

    /// The component method registrations.
    pub closed spec fn method_registrations_spec(&self) -> Seq<ComponentMethodRegistration<C>> {
        self.method_registrations@
    }

    /// The registry over `classes` (applied in order) and the component
    /// methods of `methods`.
    pub fn new(classes: Vec<EngineClassRegistration<K, J>>, methods: Vec<ComponentMethodRegistration<C>>) -> (r: Self)
        ensures
            r.wf(),
            r@ == classes_after(classes@),
            r.method_registrations_spec() == methods@,
    {
        let mut map: KeyedVec<&'static str, ClassEntry<K, J>> = KeyedVec::new();
        let mut rest = classes;
        let ghost all = rest@;
        let n = rest.len();
        let mut i: usize = 0;
        while i < n
            invariant
                map.wf(),
                n == all.len(),
                i <= n,
                rest@ == all.skip(i as int),
                map@ == classes_after(all.take(i as int)),
            decreases n - i,
        {
            let reg = rest.remove(0);
            proof {
                assert(reg == all[i as int]);
                assert(all.take(i + 1).drop_last() =~= all.take(i as int));
                assert(all.take(i + 1).last() == all[i as int]);
                assert(rest@ =~= all.skip(i + 1));
            }
            map.insert(reg.name, ClassEntry { constructor: reg.constructor, category: reg.category, from_json: reg.from_json });
            i = i + 1;
        }
        proof {
            assert(all.take(n as int) =~= all);
        }
        EngineClassRegistry { classes: map, method_registrations: methods }
    }

    /// Every registered class name, in ascending order.
    pub fn get_class_names(&self) -> (r: Vec<&'static str>)
        requires
            self.wf(),
        ensures
            sorted_names(r@),
            name_texts(r@).no_duplicates(),
            name_texts(r@).to_set() == self@.dom(),
    {
        let keys = self.classes.keys();
        sort_distinct_names(keys)
    }

    /// The names of the classes filed under `category`, in ascending order.
    pub fn get_class_names_by_category(&self, category: &str) -> (r: Vec<&'static str>)
        requires
            self.wf(),
        ensures
            sorted_names(r@),
            name_texts(r@).no_duplicates(),
            forall|t: Seq<char>| #[trigger] name_texts(r@).to_set().contains(t) == (self@.dom().contains(t) && in_category(self@[t], category@)),
    {
        let entries = self.classes.entries();
        let mut picked: Vec<&'static str> = Vec::new();
        let mut i: usize = 0;
        proof {
            self.classes.lemma_view_len();
        }
        while i < entries.len()
            invariant
                self.wf(),
                entries@ == self.classes.entry_seq(),
                i <= entries@.len(),
                name_texts(picked@).no_duplicates(),
                forall|k: int| 0 <= k < picked@.len() ==> exists|m: int| 0 <= m < i && #[trigger] picked@[k] == entries@[m].0,
                forall|t: Seq<char>| #[trigger] name_texts(picked@).to_set().contains(t) == exists|m: int|
                    0 <= m < i && entries@[m].0@ == t && in_category(entries@[m].1, category@),
            decreases entries@.len() - i,
        {
            let (name, entry) = (&entries[i].0, &entries[i].1);
            let matches = match entry.category {
                Some(c) => str_eq(c, category),
                None => false,
            };
            let ghost before = picked@;
            if matches {
                picked.push(*name);
                proof {
                    assert(name_texts(picked@) =~= name_texts(before).push(name@));
                    assert forall|a: int, b: int| 0 <= a < b < name_texts(picked@).len() implies name_texts(picked@)[a] != name_texts(picked@)[b] by {
                        if b == before.len() {
                            let m = choose|m: int| 0 <= m < i && before[a] == entries@[m].0;
                            assert(name_texts(picked@)[a] == entries@[m].0@);
                            self.classes.lemma_keys_distinct(m, i as int);
                        } else {
                            assert(name_texts(before)[a] == name_texts(picked@)[a]);
                            assert(name_texts(before)[b] == name_texts(picked@)[b]);
                        }
                    }
                    assert forall|k: int| 0 <= k < picked@.len() implies exists|m: int| 0 <= m < i + 1 && #[trigger] picked@[k] == entries@[m].0 by {
                        if k == before.len() {
                            assert(picked@[k] == entries@[i as int].0);
                        } else {
                            let m = choose|m: int| 0 <= m < i && before[k] == entries@[m].0;
                            assert(picked@[k] == entries@[m].0);
                        }
                    }
                }
            }
            proof {
                assert forall|t: Seq<char>| #[trigger] name_texts(picked@).to_set().contains(t) == exists|m: int|
                    0 <= m < i + 1 && entries@[m].0@ == t && in_category(entries@[m].1, category@) by {
                    let now = exists|m: int| 0 <= m < i + 1 && entries@[m].0@ == t && in_category(entries@[m].1, category@);
                    let was = exists|m: int| 0 <= m < i && entries@[m].0@ == t && in_category(entries@[m].1, category@);
                    if name_texts(picked@).to_set().contains(t) {
                        let a = choose|a: int| 0 <= a < name_texts(picked@).len() && name_texts(picked@)[a] == t;
                        if a < before.len() {
                            assert(name_texts(before)[a] == t);
                            assert(name_texts(before).contains(t));
                            assert(name_texts(before).to_set().contains(t));
                            assert(was);
                        } else {
                            assert(entries@[i as int].0@ == t);
                            assert(in_category(entries@[i as int].1, category@));
                        }
                    }
                    if now {
                        let m = choose|m: int| 0 <= m < i + 1 && entries@[m].0@ == t && in_category(entries@[m].1, category@);
                        if m < i {
                            assert(was);
                            assert(name_texts(before).to_set().contains(t));
                            let a = choose|a: int| 0 <= a < name_texts(before).len() && name_texts(before)[a] == t;
                            assert(name_texts(picked@)[a] == t);
                        } else {
                            assert(matches);
                            assert(name_texts(picked@)[before.len() as int] == t);
                        }
                    }
                }
            }
            i = i + 1;
        }
        let r = sort_distinct_names(picked);
        proof {
            assert forall|t: Seq<char>| #[trigger] name_texts(r@).to_set().contains(t) == (self@.dom().contains(t) && in_category(self@[t], category@)) by {
                if self@.dom().contains(t) {
                    self.classes.lemma_view_key_in_entries(t);
                }
                if exists|m: int| 0 <= m < entries@.len() && entries@[m].0@ == t && in_category(entries@[m].1, category@) {
                    let m = choose|m: int| 0 <= m < entries@.len() && entries@[m].0@ == t && in_category(entries@[m].1, category@);
                    self.classes.lemma_entry_in_view(m);
                }
            }
        }
        r
    }

    /// Every category that some class is filed under, each once, in
    /// ascending order.
    pub fn get_categories(&self) -> (r: Vec<&'static str>)
        requires
            self.wf(),
        ensures
            sorted_names(r@),
            name_texts(r@).no_duplicates(),
            forall|t: Seq<char>| #[trigger] name_texts(r@).to_set().contains(t) == exists|n: Seq<char>|
                #[trigger] self@.dom().contains(n) && in_category(self@[n], t),
    {
        let entries = self.classes.entries();
        let mut cats: Vec<&'static str> = Vec::new();
        let mut i: usize = 0;
        while i < entries.len()
            invariant
                entries@ == self.classes.entry_seq(),
                i <= entries@.len(),
                forall|t: Seq<char>| #[trigger] name_texts(cats@).to_set().contains(t) == exists|m: int|
                    0 <= m < i && in_category(entries@[m].1, t),
            decreases entries@.len() - i,
        {
            let ghost before = cats@;
            match entries[i].1.category {
                Some(c) => {
                    cats.push(c);
                },
                None => {},
            }
            proof {
                assert forall|t: Seq<char>| #[trigger] name_texts(cats@).to_set().contains(t) == exists|m: int|
                    0 <= m < i + 1 && in_category(entries@[m].1, t) by {
                    let now = exists|m: int| 0 <= m < i + 1 && in_category(entries@[m].1, t);
                    if name_texts(cats@).to_set().contains(t) {
                        let a = choose|a: int| 0 <= a < name_texts(cats@).len() && name_texts(cats@)[a] == t;
                        if a < before.len() {
                            assert(name_texts(before)[a] == t);
                            assert(name_texts(before).contains(t));
                            assert(name_texts(before).to_set().contains(t));
                            let m = choose|m: int| 0 <= m < i && in_category(entries@[m].1, t);
                            assert(now);
                        } else {
                            assert(in_category(entries@[i as int].1, t));
                        }
                    }
                    if now {
                        let m = choose|m: int| 0 <= m < i + 1 && in_category(entries@[m].1, t);
                        if m < i {
                            assert(name_texts(before).to_set().contains(t));
                            let a = choose|a: int| 0 <= a < name_texts(before).len() && name_texts(before)[a] == t;
                            assert(name_texts(cats@)[a] == t);
                        } else {
                            assert(name_texts(cats@)[before.len() as int] == t);
                        }
                    }
                }
            }
            i = i + 1;
        }
        let ghost cat_list = cats@;
        let sorted = sort_names(cats);
        let r = dedup_sorted(sorted);
        proof {
            assert forall|t: Seq<char>| name_texts(sorted@).to_set().contains(t) == name_texts(cat_list).to_set().contains(t) by {
                sorted@.to_multiset_ensures();
                cat_list.to_multiset_ensures();
                if name_texts(sorted@).to_set().contains(t) {
                    let a = choose|a: int| 0 <= a < name_texts(sorted@).len() && name_texts(sorted@)[a] == t;
                    assert(sorted@.contains(sorted@[a]));
                    assert(sorted@.to_multiset().count(sorted@[a]) > 0);
                    assert(cat_list.contains(sorted@[a]));
                    let b = choose|b: int| 0 <= b < cat_list.len() && cat_list[b] == sorted@[a];
                    assert(name_texts(cat_list)[b] == t);
                }
                if name_texts(cat_list).to_set().contains(t) {
                    let b = choose|b: int| 0 <= b < name_texts(cat_list).len() && name_texts(cat_list)[b] == t;
                    assert(cat_list.contains(cat_list[b]));
                    assert(cat_list.to_multiset().count(cat_list[b]) > 0);
                    assert(sorted@.contains(cat_list[b]));
                    let a = choose|a: int| 0 <= a < sorted@.len() && sorted@[a] == cat_list[b];
                    assert(name_texts(sorted@)[a] == t);
                }
            }
            assert forall|t: Seq<char>| #[trigger] name_texts(r@).to_set().contains(t) == exists|n: Seq<char>|
                #[trigger] self@.dom().contains(n) && in_category(self@[n], t) by {
                assert(name_texts(r@).to_set().contains(t) == name_texts(sorted@).to_set().contains(t));
                assert(name_texts(sorted@).to_set().contains(t) == name_texts(cat_list).to_set().contains(t));
                assert(name_texts(cat_list).to_set().contains(t) == exists|m: int|
                    0 <= m < entries@.len() && in_category(entries@[m].1, t));
                if exists|m: int| 0 <= m < entries@.len() && in_category(entries@[m].1, t) {
                    let m = choose|m: int| 0 <= m < entries@.len() && in_category(entries@[m].1, t);
                    self.classes.lemma_entry_in_view(m);
                    assert(self@.dom().contains(entries@[m].0@));
                }
                if exists|n: Seq<char>| #[trigger] self@.dom().contains(n) && in_category(self@[n], t) {
                    let n = choose|n: Seq<char>| #[trigger] self@.dom().contains(n) && in_category(self@[n], t);
                    self.classes.lemma_view_key_in_entries(n);
                    let p = self.classes.position(n);
                    assert(in_category(entries@[p].1, t));
                }
            }
        }
        r
    }

    /// A new instance of `class_name` from its registered constructor;
    /// `None` if the class is not registered.
    pub fn create_instance<T>(&self, class_name: &str) -> (r: Option<T>) where K: Fn() -> T
        requires
            self.wf(),
            self@.dom().contains(class_name@) ==> self@[class_name@].constructor.requires(()),
        ensures
            match r {
                Some(v) => self@.dom().contains(class_name@) && self@[class_name@].constructor.ensures((), v),
                None => !self@.dom().contains(class_name@),
            },
    {
        match self.classes.get_text(class_name) {
            Some(e) => Some((e.constructor)()),
            None => None,
        }
    }

    /// An instance of `class_name` built from the JSON document `data` by the
    /// class's JSON constructor, or that constructor's error; `None` if the
    /// class is not registered or has no JSON round trip.
    pub fn create_instance_from_json<T>(&self, class_name: &str, data: &Value) -> (r: Option<Result<T, String>>) where
        J: Fn(&Value) -> Result<T, String>,
        requires
            self.wf(),
            self@.dom().contains(class_name@) ==> (self@[class_name@].from_json matches Some(j) ==> j.requires((data,))),
        ensures
            match r {
                Some(res) => {
                    &&& self@.dom().contains(class_name@)
                    &&& self@[class_name@].from_json matches Some(j) && j.ensures((data,), res)
                },
                None => !self@.dom().contains(class_name@) || self@[class_name@].from_json is None,
            },
    {
        match self.classes.get_text(class_name) {
            Some(e) => match &e.from_json {
                Some(j) => Some(j(data)),
                None => None,
            },
            None => None,
        }
    }

    pub fn has_class(&self, class_name: &str) -> (r: bool)
        requires
            self.wf(),
        ensures
            r == self@.dom().contains(class_name@),
    {
        match self.classes.find_text(class_name) {
            Some(i) => {
                proof {
                    self.classes.lemma_entry_in_view(i as int);
                }
                true
            },
            None => false,
        }
    }

    /// The number of registered classes.
    pub fn len(&self) -> (r: usize)
        requires
            self.wf(),
        ensures
            r == self@.len(),
    {
        self.classes.len()
    }

    pub fn is_empty(&self) -> (r: bool)
        requires
            self.wf(),
        ensures
            r == (self@.len() == 0),
    {
        self.classes.len() == 0
    }

    /// Every method of `class_name`'s components, registration order; `None`
    /// if the class is not registered.
    pub fn get_methods(&self, class_name: &str) -> (r: Option<Vec<&MethodMetadata<C>>>)
        requires
            self.wf(),
        ensures
            match r {
                Some(v) => self@.dom().contains(class_name@) && deref_meta(v@) == class_methods(
                    self.method_registrations_spec(),
                    class_name@,
                ),
                None => !self@.dom().contains(class_name@),
            },
    {
        if !self.has_class(class_name) {
            return None;
        }
        let mut all: Vec<&MethodMetadata<C>> = Vec::new();
        let mut i: usize = 0;
        while i < self.method_registrations.len()
            invariant
                i <= self.method_registrations@.len(),
                deref_meta(all@) == class_methods(self.method_registrations@.take(i as int), class_name@),
            decreases self.method_registrations@.len() - i,
        {
            let reg = &self.method_registrations[i];
            let ghost before = deref_meta(all@);
            proof {
                assert(self.method_registrations@.take(i + 1).drop_last() =~= self.method_registrations@.take(i as int));
                assert(self.method_registrations@.take(i + 1).last() == *reg);
            }
            if str_eq(reg.class_name, class_name) {
                let mut j: usize = 0;
                while j < reg.methods.len()
                    invariant
                        j <= reg.methods@.len(),
                        deref_meta(all@) == before + reg.methods@.take(j as int),
                    decreases reg.methods@.len() - j,
                {
                    let ghost old_all = all@;
                    let m = &reg.methods[j];
                    all.push(m);
                    proof {
                        assert(deref_meta(old_all).len() == old_all.len());
                        assert((before + reg.methods@.take(j as int)).len() == before.len() + j);
                        assert forall|k: int| 0 <= k < all@.len() implies #[trigger] deref_meta(all@)[k] == (before + reg.methods@.take(j + 1))[k] by {
                            assert(deref_meta(all@)[k] == *all@[k]);
                            if k < old_all.len() {
                                assert(deref_meta(old_all)[k] == *old_all[k]);
                                assert((before + reg.methods@.take(j as int))[k] == (before + reg.methods@.take(j + 1))[k]);
                            } else {
                                assert(*all@[k] == reg.methods@[j as int]);
                            }
                        }
                        assert(deref_meta(all@) =~= before + reg.methods@.take(j + 1));
                    }
                    j = j + 1;
                }
                proof {
                    assert(reg.methods@.take(reg.methods@.len() as int) =~= reg.methods@);
                }
            }
            i = i + 1;
        }
        proof {
            assert(self.method_registrations@.take(self.method_registrations@.len() as int) =~= self.method_registrations@);
        }
        Some(all)
    }

    /// The first method named `method_name` of `class_name`'s components.
    pub fn get_method(&self, class_name: &str, method_name: &str) -> (r: Option<&MethodMetadata<C>>)
        requires
            self.wf(),
        ensures
            match r {
                Some(m) => {
                    &&& self@.dom().contains(class_name@)
                    &&& first_meta_named(class_methods(self.method_registrations_spec(), class_name@), method_name@) matches Some(i)
                        && class_methods(self.method_registrations_spec(), class_name@)[i] == *m
                },
                None => !self@.dom().contains(class_name@) || first_meta_named(
                    class_methods(self.method_registrations_spec(), class_name@),
                    method_name@,
                ) is None,
            },
    {
        let methods = match self.get_methods(class_name) {
            Some(m) => m,
            None => {
                return None;
            },
        };
        let ghost s = class_methods(self.method_registrations@, class_name@);
        let mut j: usize = 0;
        while j < methods.len()
            invariant
                j <= methods@.len(),
                s == class_methods(self.method_registrations@, class_name@),
                self@.dom().contains(class_name@),
                deref_meta(methods@) == s,
                forall|k: int| 0 <= k < j ==> #[trigger] s[k].name@ != method_name@,
            decreases methods@.len() - j,
        {
            if str_eq(methods[j].name, method_name) {
                proof {
                    assert(s[j as int] == *methods@[j as int]);
                    assert(0 <= j < s.len() && s[j as int].name@ == method_name@ && forall|k: int| 0 <= k < j ==> s[k].name@ != method_name@);
                    let c = choose|i: int| 0 <= i < s.len() && s[i].name@ == method_name@ && forall|k: int| 0 <= k < i ==> s[k].name@ != method_name@;
                    if c < j {
                        assert(s[c].name@ != method_name@);
                    }
                    if c > j {
                        assert(s[j as int].name@ != method_name@);
                    }
                    assert(first_meta_named(s, method_name@) == Some(j as int));
                }
                return Some(methods[j]);
            }
            j = j + 1;
        }
        proof {
            if exists|i: int| 0 <= i < s.len() && s[i].name@ == method_name@ {
                let i = choose|i: int| 0 <= i < s.len() && s[i].name@ == method_name@;
                assert(s[i] == *methods@[i]);
                assert(s[i].name@ != method_name@);
            }
        }
        None
    }
}

} // verus!

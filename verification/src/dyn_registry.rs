//! Name-keyed dynamic method dispatch for receivers that are not engine
//! classes (engine subsystem singletons and the like).
//!
//! Registrations name a receiver and list its methods; the registry answers
//! which receivers exist and which methods a receiver has, and finds the one
//! method a call should reach. `C` is the handle through which a method is
//! called.

use crate::engine::{MethodParameter, MethodReturnType, MethodType};
use crate::interop::str_eq;
use crate::sorting::{name_texts, sort_distinct_names, sorted_names};
use vstd::prelude::*;

verus! {

/// Metadata for a dynamically dispatchable method.
pub struct DynMethodMetadata<C> {
    pub name: &'static str,
    pub display_name: String,
    pub category: Option<&'static str>,
    pub params: Vec<MethodParameter>,
    pub return_type: Option<MethodReturnType>,
    pub method_type: MethodType,
    pub caller: C,
}

/// A named receiver's dynamically dispatchable methods.
pub struct DynMethodRegistration<C> {
    /// Registry key, e.g. a subsystem's name.
    pub receiver_name: &'static str,
    pub methods: Vec<DynMethodMetadata<C>>,
}

/// Why a dynamic dispatch found nothing to call.
#[derive(Debug, Clone)]
pub enum DynDispatchError {
    NotFound { receiver_name: String, method_name: String },
}

impl DynDispatchError {
    pub open spec fn message(&self) -> Seq<char> {
        match self {
            DynDispatchError::NotFound { receiver_name, method_name } => "no method '"@ + method_name@
                + "' registered for receiver '"@ + receiver_name@ + "'"@,
        }
    }

    /// The error's message, as `Display` would write it.
    pub fn to_string(&self) -> (r: String)
        ensures
            r@ == self.message(),
    {
        let mut r = String::new();
        match self {
            DynDispatchError::NotFound { receiver_name, method_name } => {
                r.append("no method '");
                r.append(method_name.as_str());
                r.append("' registered for receiver '");
                r.append(receiver_name.as_str());
                r.append("'");
            },
        }
        r
    }
}

/// Some registration is for the receiver named `name`.
pub open spec fn receiver_registered<C>(regs: Seq<DynMethodRegistration<C>>, name: Seq<char>) -> bool {
    exists|i: int| 0 <= i < regs.len() && regs[i].receiver_name@ == name
}

/// The methods of every registration for the receiver named `name`, in
/// registration order.
pub open spec fn receiver_methods<C>(regs: Seq<DynMethodRegistration<C>>, name: Seq<char>) -> Seq<DynMethodMetadata<C>>
    decreases regs.len(),
{
    if regs.len() == 0 {
        Seq::empty()
    } else {
        let earlier = receiver_methods(regs.drop_last(), name);
        if regs.last().receiver_name@ == name {
            earlier + regs.last().methods@
        } else {
            earlier
        }
    }
}

/// The methods, dereferenced.
pub open spec fn deref_dyn<C>(s: Seq<&DynMethodMetadata<C>>) -> Seq<DynMethodMetadata<C>> {
    s.map_values(|m: &DynMethodMetadata<C>| *m)
}

/// The position in `s` of the first method named `name`.
pub open spec fn first_named<C>(s: Seq<DynMethodMetadata<C>>, name: Seq<char>) -> Option<int> {
    if exists|i: int| 0 <= i < s.len() && s[i].name@ == name {
        Some(choose|i: int| 0 <= i < s.len() && s[i].name@ == name && forall|j: int| 0 <= j < i ==> s[j].name@ != name)
    } else {
        None
    }
}

/// Every registered receiver and its methods.
pub struct DynMethodRegistry<C> {
    registrations: Vec<DynMethodRegistration<C>>,
    /// The receiver names, each once, first registration first.
    receivers: Vec<&'static str>,
}

impl<C> DynMethodRegistry<C> {
    pub closed spec fn registrations_spec(&self) -> Seq<DynMethodRegistration<C>> {
        self.registrations@
    }

    pub closed spec fn wf(&self) -> bool {
        &&& name_texts(self.receivers@).no_duplicates()
        &&& forall|t: Seq<char>| #[trigger] name_texts(self.receivers@).to_set().contains(t) == receiver_registered(self.registrations@, t)
    }

    /// The registry over `registrations`.
    pub fn new(registrations: Vec<DynMethodRegistration<C>>) -> (r: Self)
        ensures
            r.wf(),
            r.registrations_spec() == registrations@,
    {
        let mut receivers: Vec<&'static str> = Vec::new();
        let mut i: usize = 0;
        while i < registrations.len()
            invariant
                i <= registrations@.len(),
                name_texts(receivers@).no_duplicates(),
                forall|t: Seq<char>| #[trigger] name_texts(receivers@).to_set().contains(t) == receiver_registered(registrations@.take(i as int), t),
            decreases registrations@.len() - i,
        {
            let name = registrations[i].receiver_name;
            let mut seen = false;
            let mut k: usize = 0;
            while k < receivers.len()
                invariant
                    k <= receivers@.len(),
                    seen == exists|m: int| 0 <= m < k && receivers@[m]@ == name@,
                decreases receivers@.len() - k,
            {
                if str_eq(receivers[k], name) {
                    seen = true;
                }
                k = k + 1;
            }
            let ghost before = receivers@;
            if !seen {
                receivers.push(name);
                proof {
                    assert(name_texts(receivers@) =~= name_texts(before).push(name@));
                    assert forall|a: int, b: int| 0 <= a < b < name_texts(receivers@).len() implies name_texts(receivers@)[a] != name_texts(receivers@)[b] by {
                        if b == before.len() {
                            assert(name_texts(receivers@)[a] == before[a]@);
                        } else {
                            assert(name_texts(before)[a] == name_texts(receivers@)[a]);
                            assert(name_texts(before)[b] == name_texts(receivers@)[b]);
                        }
                    }
                }
            }
            proof {
                let prefix = registrations@.take(i as int);
                let next = registrations@.take(i + 1);
                assert forall|t: Seq<char>| #[trigger] name_texts(receivers@).to_set().contains(t) == receiver_registered(next, t) by {
                    if receiver_registered(next, t) {
                        let m = choose|m: int| 0 <= m < next.len() && next[m].receiver_name@ == t;
                        if m < i {
                            assert(prefix[m] == next[m]);
                            assert(prefix[m].receiver_name@ == t);
                            assert(receiver_registered(prefix, t));
                            assert(name_texts(before).to_set().contains(t));
                            let a = choose|a: int| 0 <= a < name_texts(before).len() && name_texts(before)[a] == t;
                            assert(name_texts(receivers@)[a] == t);
                        } else {
                            if seen {
                                let a = choose|a: int| 0 <= a < before.len() && before[a]@ == name@;
                                assert(name_texts(receivers@)[a] == t);
                            } else {
                                assert(name_texts(receivers@)[before.len() as int] == t);
                            }
                        }
                    }
                    if name_texts(receivers@).to_set().contains(t) {
                        let a = choose|a: int| 0 <= a < name_texts(receivers@).len() && name_texts(receivers@)[a] == t;
                        if a < before.len() {
                            assert(name_texts(before)[a] == t);
                            assert(name_texts(before).contains(t));
                            assert(name_texts(before).to_set().contains(t));
                            assert(receiver_registered(prefix, t));
                            let m = choose|m: int| 0 <= m < prefix.len() && prefix[m].receiver_name@ == t;
                            assert(next[m] == prefix[m]);
                        } else {
                            assert(next[i as int].receiver_name@ == t);
                        }
                    }
                }
            }
            i = i + 1;
        }
        proof {
            assert(registrations@.take(registrations@.len() as int) =~= registrations@);
        }
        DynMethodRegistry { registrations, receivers }
    }

    fn is_registered(&self, receiver_name: &str) -> (r: bool)
        requires
            self.wf(),
        ensures
            r == receiver_registered(self.registrations@, receiver_name@),
    {
        let mut k: usize = 0;
        while k < self.receivers.len()
            invariant
                self.wf(),
                k <= self.receivers@.len(),
                forall|m: int| 0 <= m < k ==> self.receivers@[m]@ != receiver_name@,
            decreases self.receivers@.len() - k,
        {
            if str_eq(self.receivers[k], receiver_name) {
                assert(name_texts(self.receivers@)[k as int] == receiver_name@);
                assert(name_texts(self.receivers@).contains(receiver_name@));
                assert(name_texts(self.receivers@).to_set().contains(receiver_name@));
                return true;
            }
            k = k + 1;
        }
        proof {
            if name_texts(self.receivers@).to_set().contains(receiver_name@) {
                let a = choose|a: int| 0 <= a < name_texts(self.receivers@).len() && name_texts(self.receivers@)[a] == receiver_name@;
                assert(self.receivers@[a]@ == receiver_name@);
            }
        }
        false
    }

    /// Every method registered for `receiver_name`, or `None` if no
    /// registration names that receiver.
    pub fn get_methods(&self, receiver_name: &str) -> (r: Option<Vec<&DynMethodMetadata<C>>>)
        requires
            self.wf(),
        ensures
            match r {
                Some(v) => receiver_registered(self.registrations_spec(), receiver_name@) && deref_dyn(v@)
                    == receiver_methods(self.registrations_spec(), receiver_name@),
                None => !receiver_registered(self.registrations_spec(), receiver_name@),
            },
    {
        if !self.is_registered(receiver_name) {
            return None;
        }
        let mut all: Vec<&DynMethodMetadata<C>> = Vec::new();
        let mut i: usize = 0;
        while i < self.registrations.len()
            invariant
                i <= self.registrations@.len(),
                deref_dyn(all@) == receiver_methods(self.registrations@.take(i as int), receiver_name@),
            decreases self.registrations@.len() - i,
        {
            let reg = &self.registrations[i];
            let ghost before = deref_dyn(all@);
            proof {
                assert(self.registrations@.take(i + 1).drop_last() =~= self.registrations@.take(i as int));
                assert(self.registrations@.take(i + 1).last() == *reg);
            }
            if str_eq(reg.receiver_name, receiver_name) {
                let mut j: usize = 0;
                while j < reg.methods.len()
                    invariant
                        j <= reg.methods@.len(),
                        deref_dyn(all@) == before + reg.methods@.take(j as int),
                    decreases reg.methods@.len() - j,
                {
                    let ghost old_all = all@;
                    let m = &reg.methods[j];
                    all.push(m);
                    proof {
                        assert(all@ == old_all.push(m));
                        assert(deref_dyn(old_all).len() == old_all.len());
                        assert((before + reg.methods@.take(j as int)).len() == before.len() + j);
                        assert(all@.len() == before.len() + j + 1);
                        assert forall|k: int| 0 <= k < all@.len() implies #[trigger] deref_dyn(all@)[k] == (before + reg.methods@.take(j + 1))[k] by {
                            assert(deref_dyn(all@)[k] == *all@[k]);
                            if k < old_all.len() {
                                assert(deref_dyn(old_all)[k] == *old_all[k]);
                                assert((before + reg.methods@.take(j as int))[k] == (before + reg.methods@.take(j + 1))[k]);
                            } else {
                                assert(*all@[k] == reg.methods@[j as int]);
                            }
                        }
                        assert(deref_dyn(all@) =~= before + reg.methods@.take(j + 1));
                    }
                    j = j + 1;
                }
                proof {
                    assert(reg.methods@.take(reg.methods@.len() as int) =~= reg.methods@);
                }
            }
            i = i + 1;
        }
        proof {
            assert(self.registrations@.take(self.registrations@.len() as int) =~= self.registrations@);
        }
        Some(all)
    }

    /// The first method named `method_name` of `receiver_name`.
    pub fn get_method(&self, receiver_name: &str, method_name: &str) -> (r: Option<&DynMethodMetadata<C>>)
        requires
            self.wf(),
        ensures
            match r {
                Some(m) => {
                    &&& receiver_registered(self.registrations_spec(), receiver_name@)
                    &&& first_named(receiver_methods(self.registrations_spec(), receiver_name@), method_name@) matches Some(i)
                        && receiver_methods(self.registrations_spec(), receiver_name@)[i] == *m
                },
                None => !receiver_registered(self.registrations_spec(), receiver_name@)
                    || first_named(receiver_methods(self.registrations_spec(), receiver_name@), method_name@) is None,
            },
    {
        let methods = match self.get_methods(receiver_name) {
            Some(m) => m,
            None => {
                return None;
            },
        };
        let ghost s = receiver_methods(self.registrations@, receiver_name@);
        let mut j: usize = 0;
        while j < methods.len()
            invariant
                j <= methods@.len(),
                s == receiver_methods(self.registrations@, receiver_name@),
                receiver_registered(self.registrations@, receiver_name@),
                deref_dyn(methods@) == s,
                forall|k: int| 0 <= k < j ==> #[trigger] s[k].name@ != method_name@,
            decreases methods@.len() - j,
        {
            if str_eq(methods[j].name, method_name) {
                proof {
                    assert(s[j as int] == *methods@[j as int]);
                    assert(s[j as int].name@ == method_name@);
                    assert(0 <= j < s.len() && s[j as int].name@ == method_name@ && forall|k: int| 0 <= k < j ==> s[k].name@ != method_name@);
                    let c = choose|i: int| 0 <= i < s.len() && s[i].name@ == method_name@ && forall|k: int| 0 <= k < i ==> s[k].name@ != method_name@;
                    if c < j {
                        assert(s[c].name@ != method_name@);
                    }
                    if c > j {
                        assert(s[j as int].name@ != method_name@);
                    }
                    assert(c == j);
                    assert(first_named(s, method_name@) == Some(j as int));
                }
                return Some(methods[j]);
            }
            j = j + 1;
        }
        proof {
            if exists|i: int| 0 <= i < s.len() && s[i].name@ == method_name@ {
                let i = choose|i: int| 0 <= i < s.len() && s[i].name@ == method_name@;
                assert(s[i] == *methods@[i]);
                assert(s[i].name@ != method_name@);
            }
        }
        None
    }

    /// Calls `method_name` of `receiver_name` on `target` with `args` and
    /// returns what its handle returns. A missing receiver or method is
    /// `NotFound`, naming both, and nothing is called.
    pub fn invoke<T, A, R>(&self, receiver_name: &str, method_name: &str, target: T, args: A) -> (r: Result<R, DynDispatchError>) where
        C: Fn(T, A) -> R,
        requires
            self.wf(),
            first_named(receiver_methods(self.registrations_spec(), receiver_name@), method_name@) matches Some(i)
                ==> receiver_methods(self.registrations_spec(), receiver_name@)[i].caller.requires((target, args)),
        ensures
            match r {
                Ok(v) => {
                    &&& receiver_registered(self.registrations_spec(), receiver_name@)
                    &&& first_named(receiver_methods(self.registrations_spec(), receiver_name@), method_name@) matches Some(i)
                        && receiver_methods(self.registrations_spec(), receiver_name@)[i].caller.ensures((target, args), v)
                },
                Err(e) => (!receiver_registered(self.registrations_spec(), receiver_name@)
                    || first_named(receiver_methods(self.registrations_spec(), receiver_name@), method_name@) is None)
                    && e == DynDispatchError::NotFound { receiver_name: e->receiver_name, method_name: e->method_name }
                    && e->receiver_name@ == receiver_name@ && e->method_name@ == method_name@,
            },
    {
        match self.get_method(receiver_name, method_name) {
            Some(m) => Ok((m.caller)(target, args)),
            None => Err(
                DynDispatchError::NotFound {
                    receiver_name: receiver_name.to_owned(),
                    method_name: method_name.to_owned(),
                },
            ),
        }
    }

    /// Every registered receiver name, each once, in ascending order.
    pub fn receiver_names(&self) -> (r: Vec<&'static str>)
        requires
            self.wf(),
        ensures
            sorted_names(r@),
            name_texts(r@).no_duplicates(),
            forall|t: Seq<char>| #[trigger] name_texts(r@).to_set().contains(t) == receiver_registered(self.registrations_spec(), t),
    {
        let names = self.receivers.clone();
        proof {
            assert(names@ == self.receivers@);
        }
        sort_distinct_names(names)
    }
}

} // verus!

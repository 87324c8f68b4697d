//! Methods on reflected types, keyed by `TypeId`.
//!
//! A method is described by a [`MethodInfo`] (its name, documentation,
//! parameters, return type, behavior flags and free-form attributes) and
//! carries an invoke handle `I` that the embedding code calls. Before a
//! call, [`ReflectedMethod::check_call`] decides whether the receiver and
//! the arguments fit the signature; a call is made only when it says `Ok`.
//!
//! The [`MethodRegistry`] groups registered methods by receiver type, keeps
//! the first of two methods with the same name, and answers lookups.

use crate::interop::{str_eq, type_id_eq, type_id_of};
use crate::keyed::KeyedVec;
use crate::text::{decimal, push_decimal};
use vstd::std_specs::cmp::PartialEqSpecImpl;
use std::any::TypeId;
use vstd::prelude::*;

verus! {

/// A Rust type named in a method signature: its id and its name.
#[derive(Clone, Copy, Debug)]
pub struct TypeRef {
    pub id: TypeId,
    pub name: &'static str,
}

impl TypeRef {
    /// The reference to `T`, shown under `name`.
    pub fn of<T: ?Sized + 'static>(name: &'static str) -> (r: Self)
        ensures
            r.name == name,
    {
        TypeRef { id: type_id_of::<T>(), name }
    }

    pub fn type_id(&self) -> (r: TypeId)
        ensures
            r == self.id,
    {
        self.id
    }

    pub fn full_name(&self) -> (r: &'static str)
        ensures
            r == self.name,
    {
        self.name
    }

    /// Whether this is the type with id `id`.
    pub fn is_type(&self, id: &TypeId) -> (r: bool)
        ensures
            r == (self.id == *id),
    {
        type_id_eq(&self.id, id)
    }

    /// Whether this is `T`.
    pub fn is<T: ?Sized + 'static>(&self) -> bool {
        self.is_type(&type_id_of::<T>())
    }
}

/// Two type references are equal when they name the same type: the ids
/// are compared, not the names.
impl PartialEq for TypeRef {
    fn eq(&self, other: &Self) -> (r: bool) {
        type_id_eq(&self.id, &other.id)
    }
}

impl Eq for TypeRef {
}

impl PartialEqSpecImpl for TypeRef {
    open spec fn obeys_eq_spec() -> bool {
        true
    }

    open spec fn eq_spec(&self, other: &TypeRef) -> bool {
        self.id == other.id
    }
}

/// How a method takes `self`.
#[derive(Clone, Copy, Debug, PartialEq, Eq, Hash, Structural)]
pub enum ReceiverKind {
    /// Associated function: no `self` (shown as `None`).
    Free,
    /// `&self`.
    Ref,
    /// `&mut self`.
    Mut,
}

/// How a parameter is passed.
#[derive(Clone, Copy, Debug, PartialEq, Eq, Hash, Structural)]
pub enum PassMode {
    /// By value: the argument is moved out of its slot.
    Value,
    /// `&T`: the argument stays in its slot.
    Ref,
    /// `&mut T`: the argument stays in its slot and writes to it are visible
    /// to the caller.
    Mut,
}

#[derive(Clone, Copy, Debug)]
pub struct ParamInfo {
    pub name: &'static str,
    /// The parameter's type without the reference, for `&T` / `&mut T`.
    pub ty: TypeRef,
    pub mode: PassMode,
}

/// What a method promises about its behavior.
#[derive(Clone, Copy, Debug, Default, PartialEq, Eq, Hash, Structural)]
pub struct MethodFlags {
    /// Does not mutate the receiver, arguments or any other state.
    pub side_effect_free: bool,
    /// Returns the same output for the same inputs.
    pub deterministic: bool,
}

impl MethodFlags {
    /// No promise.
    pub fn none() -> (r: MethodFlags)
        ensures
            !r.side_effect_free && !r.deterministic,
    {
        MethodFlags { side_effect_free: false, deterministic: false }
    }

    /// Free of side effects and deterministic.
    pub fn pure() -> (r: MethodFlags)
        ensures
            r.side_effect_free && r.deterministic,
    {
        MethodFlags { side_effect_free: true, deterministic: true }
    }
}

/// Why a call was rejected or failed.
#[derive(Clone, Debug, PartialEq, Eq)]
pub enum CallError {
    /// The method takes `self` and no receiver was given, or the receiver is
    /// `&` but the method needs `&mut`.
    ReceiverMissing { needed: ReceiverKind },
    /// The receiver is not the method's `Self` type.
    ReceiverType { expected: &'static str },
    ArgCount { expected: usize, found: usize },
    ArgType { index: usize, expected: &'static str },
    /// The method ran and returned `Err`; the message is its `Display`.
    Failed(String),
}

/// `Debug` text of a receiver kind.
pub open spec fn receiver_kind_name(k: ReceiverKind) -> Seq<char> {
    match k {
        ReceiverKind::Free => "None"@,
        ReceiverKind::Ref => "Ref"@,
        ReceiverKind::Mut => "Mut"@,
    }
}

impl CallError {
    pub open spec fn message(&self) -> Seq<char> {
        match self {
            CallError::ReceiverMissing { needed } => "method needs a "@ + receiver_kind_name(*needed)
                + " receiver"@,
            CallError::ReceiverType { expected } => "receiver is not a "@ + expected@,
            CallError::ArgCount { expected, found } => "expected "@ + decimal(*expected as nat)
                + " arguments, got "@ + decimal(*found as nat),
            CallError::ArgType { index, expected } => "argument "@ + decimal(*index as nat)
                + " is not a "@ + expected@,
            CallError::Failed(message) => message@,
        }
    }

    /// The error's message, as `Display` would write it.
    pub fn to_string(&self) -> (r: String)
        ensures
            r@ == self.message(),
    {
        let mut r = String::new();
        match self {
            CallError::ReceiverMissing { needed } => {
                r.append("method needs a ");
                match needed {
                    ReceiverKind::Free => r.append("None"),
                    ReceiverKind::Ref => r.append("Ref"),
                    ReceiverKind::Mut => r.append("Mut"),
                }
                r.append(" receiver");
            },
            CallError::ReceiverType { expected } => {
                r.append("receiver is not a ");
                r.append(expected);
            },
            CallError::ArgCount { expected, found } => {
                r.append("expected ");
                push_decimal(&mut r, *expected);
                r.append(" arguments, got ");
                push_decimal(&mut r, *found);
            },
            CallError::ArgType { index, expected } => {
                r.append("argument ");
                push_decimal(&mut r, *index);
                r.append(" is not a ");
                r.append(expected);
            },
            CallError::Failed(message) => {
                r.append(message.as_str());
            },
        }
        r
    }
}

/// The receiver handed to a call, described by the dynamic type of the value
/// it lends.
#[derive(Clone, Copy, Debug)]
pub enum Receiver {
    /// No receiver.
    Absent,
    /// A shared borrow of a value of this type.
    Ref(TypeId),
    /// A mutable borrow of a value of this type.
    Mut(TypeId),
}

impl Receiver {
    /// Whether the receiver can be viewed as `&T` for the type `target`.
    pub open spec fn ref_access(self, target: TypeRef) -> Result<(), CallError> {
        match self {
            Receiver::Absent => Err(CallError::ReceiverMissing { needed: ReceiverKind::Ref }),
            Receiver::Ref(t) | Receiver::Mut(t) => if t == target.id {
                Ok(())
            } else {
                Err(CallError::ReceiverType { expected: target.name })
            },
        }
    }

    /// Whether the receiver can be viewed as `&mut T` for the type `target`.
    pub open spec fn mut_access(self, target: TypeRef) -> Result<(), CallError> {
        match self {
            Receiver::Mut(t) => if t == target.id {
                Ok(())
            } else {
                Err(CallError::ReceiverType { expected: target.name })
            },
            _ => Err(CallError::ReceiverMissing { needed: ReceiverKind::Mut }),
        }
    }

    /// Shared view of the receiver as `target`: a missing receiver or one of
    /// another type is an error.
    pub fn downcast_ref(&self, target: &TypeRef) -> (r: Result<(), CallError>)
        ensures
            r == self.ref_access(*target),
    {
        match self {
            Receiver::Absent => Err(CallError::ReceiverMissing { needed: ReceiverKind::Ref }),
            Receiver::Ref(t) | Receiver::Mut(t) => {
                if type_id_eq(t, &target.id) {
                    Ok(())
                } else {
                    Err(CallError::ReceiverType { expected: target.name })
                }
            },
        }
    }

    /// Mutable view of the receiver as `target`: only a mutable borrow of
    /// that type will do.
    pub fn downcast_mut(&self, target: &TypeRef) -> (r: Result<(), CallError>)
        ensures
            r == self.mut_access(*target),
    {
        match self {
            Receiver::Mut(t) => {
                if type_id_eq(t, &target.id) {
                    Ok(())
                } else {
                    Err(CallError::ReceiverType { expected: target.name })
                }
            },
            _ => Err(CallError::ReceiverMissing { needed: ReceiverKind::Mut }),
        }
    }
}

/// A method's signature and metadata.
#[derive(Clone, Copy, Debug)]
pub struct MethodInfo {
    pub name: &'static str,
    pub doc: &'static str,
    /// The script-visible parameters.
    pub params: &'static [ParamInfo],
    /// `None` for `()`; for a method returning `Result<T, E>`, this is `T`.
    pub ret: Option<TypeRef>,
    pub flags: MethodFlags,
    /// Free-form `key = "value"` attributes.
    pub attrs: &'static [(&'static str, &'static str)],
}

impl MethodInfo {
    /// The value of the first attribute named `key`.
    pub fn attr(&self, key: &str) -> (r: Option<&'static str>)
        ensures
            match r {
                Some(v) => exists|i: int|
                    0 <= i < self.attrs@.len() && self.attrs@[i].0@ == key@ && self.attrs@[i].1 == v
                        && forall|j: int| 0 <= j < i ==> self.attrs@[j].0@ != key@,
                None => forall|i: int| 0 <= i < self.attrs@.len() ==> self.attrs@[i].0@ != key@,
            },
    {
        let mut i: usize = 0;
        while i < self.attrs.len()
            invariant
                i <= self.attrs@.len(),
                forall|j: int| 0 <= j < i ==> self.attrs@[j].0@ != key@,
            decreases self.attrs@.len() - i,
        {
            let (k, v) = self.attrs[i];
            if str_eq(k, key) {
                return Some(v);
            }
            i = i + 1;
        }
        None
    }
}

/// Position of the first parameter, from `i` on, whose type the argument at
/// the same position does not have.
pub open spec fn first_mismatch_from(params: Seq<ParamInfo>, args: Seq<TypeId>, i: int) -> Option<int>
    decreases params.len() - i,
{
    if i >= params.len() || i < 0 {
        None
    } else if args[i] != params[i].ty.id {
        Some(i)
    } else {
        first_mismatch_from(params, args, i + 1)
    }
}

/// The argument check of a call: the count first, then each argument's type
/// in order.
pub open spec fn args_check(params: Seq<ParamInfo>, args: Seq<TypeId>) -> Result<(), CallError> {
    if args.len() != params.len() {
        Err(CallError::ArgCount { expected: params.len() as usize, found: args.len() as usize })
    } else {
        match first_mismatch_from(params, args, 0) {
            Some(i) => Err(CallError::ArgType { index: i as usize, expected: params[i].ty.name }),
            None => Ok(()),
        }
    }
}

/// From position `i` on, the first mismatch is the first argument whose type
/// differs from its parameter's, and there is none exactly when every
/// argument from `i` on has its parameter's type.
proof fn lemma_first_mismatch_from(params: Seq<ParamInfo>, args: Seq<TypeId>, i: int)
    requires
        0 <= i <= params.len(),
        args.len() == params.len(),
    ensures
        first_mismatch_from(params, args, i) is None <==> forall|j: int| i <= j < params.len() ==> args[j] == params[j].ty.id,
        first_mismatch_from(params, args, i) matches Some(k) ==> i <= k < params.len() && args[k] != params[k].ty.id
            && forall|j: int| i <= j < k ==> args[j] == params[j].ty.id,
    decreases params.len() - i,
{
    if i < params.len() {
        lemma_first_mismatch_from(params, args, i + 1);
    }
}

/// A call's arguments pass the check exactly when there are as many as the
/// parameters and each has its parameter's type, whatever the parameter's
/// pass mode; a wrong count is reported first, and otherwise the first
/// argument of the wrong type, with its parameter's type name (parameter
/// lists, held in memory, have at most `usize::MAX` entries).
pub proof fn law_every_argument_is_type_checked(params: Seq<ParamInfo>, args: Seq<TypeId>)
    requires
        params.len() <= usize::MAX,
    ensures
        args_check(params, args) is Ok <==> (args.len() == params.len() && forall|i: int|
            0 <= i < params.len() ==> args[i] == params[i].ty.id),
        args.len() != params.len() ==> args_check(params, args) == Err::<(), CallError>(
            CallError::ArgCount { expected: params.len() as usize, found: args.len() as usize },
        ),
        args_check(params, args) matches Err(CallError::ArgType { index, expected }) ==> {
            &&& args.len() == params.len()
            &&& 0 <= index < params.len()
            &&& args[index as int] != params[index as int].ty.id
            &&& expected == params[index as int].ty.name
            &&& forall|j: int| 0 <= j < index ==> args[j] == params[j].ty.id
        },
{
    if args.len() == params.len() {
        lemma_first_mismatch_from(params, args, 0);
    }
}

/// `Ok` when `found` arguments were given for `expected` parameters.
pub fn check_arg_count(found: usize, expected: usize) -> (r: Result<(), CallError>)
    ensures
        r == (if found == expected {
            Ok(())
        } else {
            Err(CallError::ArgCount { expected, found })
        }),
{
    if found == expected {
        Ok(())
    } else {
        Err(CallError::ArgCount { expected, found })
    }
}

/// `Ok` when the argument at `index` has the type `expected`.
pub fn check_arg(arg_types: &[TypeId], index: usize, expected: &TypeRef) -> (r: Result<(), CallError>)
    requires
        index < arg_types@.len(),
    ensures
        r == (if arg_types@[index as int] == expected.id {
            Ok(())
        } else {
            Err(CallError::ArgType { index, expected: expected.name })
        }),
{
    if type_id_eq(&arg_types[index], &expected.id) {
        Ok(())
    } else {
        Err(CallError::ArgType { index, expected: expected.name })
    }
}

/// Checks the arguments of a call against the parameters: their number,
/// then each argument's type in order.
pub fn check_args(params: &[ParamInfo], arg_types: &[TypeId]) -> (r: Result<(), CallError>)
    ensures
        r == args_check(params@, arg_types@),
{
    match check_arg_count(arg_types.len(), params.len()) {
        Err(e) => {
            return Err(e);
        },
        Ok(()) => {},
    }
    let mut i: usize = 0;
    while i < params.len()
        invariant
            i <= params@.len(),
            arg_types@.len() == params@.len(),
            first_mismatch_from(params@, arg_types@, 0) == first_mismatch_from(params@, arg_types@, i as int),
        decreases params@.len() - i,
    {
        match check_arg(arg_types, i, &params[i].ty) {
            Err(e) => {
                return Err(e);
            },
            Ok(()) => {},
        }
        i = i + 1;
    }
    Ok(())
}

/// One method of a reflected type; `I` is the handle through which it is
/// invoked.
#[derive(Clone, Copy, Debug)]
pub struct ReflectedMethod<I> {
    pub info: MethodInfo,
    pub receiver: ReceiverKind,
    pub invoke: I,
}

impl<I> ReflectedMethod<I> {
    pub open spec fn call_check(&self, self_ty: TypeRef, receiver: Receiver, args: Seq<TypeId>) -> Result<(), CallError> {
        let receiver_ok = match self.receiver {
            ReceiverKind::Free => Ok(()),
            ReceiverKind::Ref => receiver.ref_access(self_ty),
            ReceiverKind::Mut => receiver.mut_access(self_ty),
        };
        match receiver_ok {
            Err(e) => Err(e),
            Ok(()) => args_check(self.info.params@, args),
        }
    }

    pub fn name(&self) -> (r: &'static str)
        ensures
            r == self.info.name,
    {
        self.info.name
    }

    /// Whether a call on a method of `self_ty` with this receiver and
    /// arguments of these types may go ahead: the receiver is checked first,
    /// then the number of arguments, then each argument's type.
    pub fn check_call(&self, self_ty: &TypeRef, receiver: &Receiver, arg_types: &[TypeId]) -> (r: Result<(), CallError>)
        ensures
            r == self.call_check(*self_ty, *receiver, arg_types@),
    {
        let receiver_ok = match self.receiver {
            ReceiverKind::Free => Ok(()),
            ReceiverKind::Ref => receiver.downcast_ref(self_ty),
            ReceiverKind::Mut => receiver.downcast_mut(self_ty),
        };
        match receiver_ok {
            Err(e) => Err(e),
            Ok(()) => check_args(self.info.params, arg_types),
        }
    }

    /// Calls the method on `receiver` with `args`, where `receiver_desc`
    /// and `arg_types` describe them, for a method of `self_ty`: a call that
    /// `check_call` rejects fails with its error before the method is
    /// reached; any other is handed to `invoke`.
    pub fn call<R, A, O>(
        &self,
        self_ty: &TypeRef,
        receiver_desc: &Receiver,
        arg_types: &[TypeId],
        receiver: R,
        args: A,
    ) -> (r: Result<O, CallError>) where I: Fn(R, A) -> Result<O, CallError>
        requires
            self.call_check(*self_ty, *receiver_desc, arg_types@) is Ok ==> self.invoke.requires((receiver, args)),
        ensures
            match self.call_check(*self_ty, *receiver_desc, arg_types@) {
                Err(e) => r == Err::<O, CallError>(e),
                Ok(()) => self.invoke.ensures((receiver, args), r),
            },
    {
        match self.check_call(self_ty, receiver_desc, arg_types) {
            Err(e) => Err(e),
            Ok(()) => (self.invoke)(receiver, args),
        }
    }
}

/// A call is let through exactly when the receiver fits the method and every
/// argument has its parameter's type: an associated function takes any
/// receiver, a `&self` method a shared or mutable borrow of its own type, a
/// `&mut self` method only a mutable borrow of its own type. A receiver that
/// does not fit is reported before the arguments are looked at.
pub proof fn law_call_check_fits_receiver_and_arguments<I>(
    m: ReflectedMethod<I>,
    self_ty: TypeRef,
    receiver: Receiver,
    args: Seq<TypeId>,
)
    requires
        m.info.params@.len() <= usize::MAX,
    ensures
        m.call_check(self_ty, receiver, args) is Ok <==> {
            &&& match m.receiver {
                ReceiverKind::Free => true,
                ReceiverKind::Ref => (receiver matches Receiver::Ref(t) && t == self_ty.id) || (receiver matches Receiver::Mut(
                    t,
                ) && t == self_ty.id),
                ReceiverKind::Mut => (receiver matches Receiver::Mut(t) && t == self_ty.id),
            }
            &&& args.len() == m.info.params@.len()
            &&& forall|i: int| 0 <= i < args.len() ==> args[i] == m.info.params@[i].ty.id
        },
        m.receiver is Mut && !(receiver is Mut) ==> m.call_check(self_ty, receiver, args) == Err::<(), CallError>(
            CallError::ReceiverMissing { needed: ReceiverKind::Mut },
        ),
        m.receiver is Ref && receiver is Absent ==> m.call_check(self_ty, receiver, args) == Err::<(), CallError>(
            CallError::ReceiverMissing { needed: ReceiverKind::Ref },
        ),
{
    law_every_argument_is_type_checked(m.info.params@, args);
}

/// One registration's methods for a type.
pub struct TypeMethodRegistration<I: 'static> {
    pub ty: TypeRef,
    pub methods: &'static [ReflectedMethod<I>],
}

/// The methods registered for one type, first registration first.
pub struct TypeMethods<I: 'static> {
    pub ty: TypeRef,
    pub methods: Vec<&'static ReflectedMethod<I>>,
}

/// The methods of `s`, dereferenced.
pub open spec fn deref_methods<I>(s: Seq<&'static ReflectedMethod<I>>) -> Seq<ReflectedMethod<I>> {
    s.map_values(|m: &'static ReflectedMethod<I>| *m)
}

/// Every method that `regs` register for type `t`, registrations in order
/// and each registration's methods in order.
pub open spec fn registered_for<I>(regs: Seq<&'static TypeMethodRegistration<I>>, t: TypeId) -> Seq<ReflectedMethod<I>>
    decreases regs.len(),
{
    if regs.len() == 0 {
        Seq::empty()
    } else {
        let earlier = registered_for(regs.drop_last(), t);
        if regs.last().ty.id == t {
            earlier + regs.last().methods@
        } else {
            earlier
        }
    }
}

/// `s` holds a method named `name`.
pub open spec fn has_name<I>(s: Seq<ReflectedMethod<I>>, name: Seq<char>) -> bool {
    exists|j: int| 0 <= j < s.len() && s[j].info.name@ == name
}

/// `s` without the methods whose name an earlier method already has.
pub open spec fn first_by_name<I>(s: Seq<ReflectedMethod<I>>) -> Seq<ReflectedMethod<I>>
    decreases s.len(),
{
    if s.len() == 0 {
        s
    } else {
        let kept = first_by_name(s.drop_last());
        if has_name(kept, s.last().info.name@) {
            kept
        } else {
            kept.push(s.last())
        }
    }
}

/// Keeping the first method of each name leaves names that are pairwise
/// distinct, exactly the names registered, and for each name the method
/// registered first under it.
pub proof fn law_first_by_name<I>(s: Seq<ReflectedMethod<I>>)
    ensures
        forall|i: int, j: int|
            0 <= i < j < first_by_name(s).len() ==> (#[trigger] first_by_name(s)[i]).info.name@ != (
            #[trigger] first_by_name(s)[j]).info.name@,
        forall|n: Seq<char>| #[trigger] has_name(first_by_name(s), n) == has_name(s, n),
        forall|k: int|
            0 <= k < first_by_name(s).len() ==> exists|j: int|
                0 <= j < s.len() && s[j] == #[trigger] first_by_name(s)[k] && forall|m: int|
                    0 <= m < j ==> s[m].info.name@ != first_by_name(s)[k].info.name@,
    decreases s.len(),
{
    if s.len() > 0 {
        let init = s.drop_last();
        let kept = first_by_name(init);
        let last = s.last();
        law_first_by_name(init);
        assert forall|n: Seq<char>| #[trigger] has_name(s, n) == (has_name(init, n) || last.info.name@ == n) by {
            if has_name(s, n) {
                let j = choose|j: int| 0 <= j < s.len() && s[j].info.name@ == n;
                if j < s.len() - 1 {
                    assert(init[j] == s[j]);
                }
            }
            if has_name(init, n) {
                let j = choose|j: int| 0 <= j < init.len() && init[j].info.name@ == n;
                assert(s[j] == init[j]);
            }
            if last.info.name@ == n {
                assert(s[s.len() - 1].info.name@ == n);
            }
        }
        let r = first_by_name(s);
        if !has_name(kept, last.info.name@) {
            assert(r == kept.push(last));
            assert forall|n: Seq<char>| #[trigger] has_name(r, n) == has_name(s, n) by {
                if has_name(r, n) {
                    let j = choose|j: int| 0 <= j < r.len() && r[j].info.name@ == n;
                    if j < kept.len() {
                        assert(kept[j] == r[j]);
                        assert(has_name(kept, n));
                    }
                }
                if has_name(kept, n) {
                    let j = choose|j: int| 0 <= j < kept.len() && kept[j].info.name@ == n;
                    assert(r[j] == kept[j]);
                }
                if last.info.name@ == n {
                    assert(r[kept.len() as int] == last);
                }
            }
            assert forall|i: int, j: int| 0 <= i < j < r.len() implies (#[trigger] r[i]).info.name@ != (#[trigger] r[j]).info.name@ by {
                assert(r[i] == kept[i]);
                if j < kept.len() {
                    assert(r[j] == kept[j]);
                } else {
                    if kept[i].info.name@ == last.info.name@ {
                        assert(has_name(kept, last.info.name@));
                    }
                }
            }
            assert forall|k: int| 0 <= k < r.len() implies exists|j: int|
                0 <= j < s.len() && s[j] == #[trigger] r[k] && forall|m: int| 0 <= m < j ==> s[m].info.name@ != r[k].info.name@ by {
                if k < kept.len() {
                    assert(r[k] == kept[k]);
                    let j = choose|j: int|
                        0 <= j < init.len() && init[j] == kept[k] && forall|m: int| 0 <= m < j ==> init[m].info.name@ != kept[k].info.name@;
                    assert(s[j] == init[j]);
                    assert forall|m: int| 0 <= m < j implies s[m].info.name@ != r[k].info.name@ by {
                        assert(s[m] == init[m]);
                    }
                } else {
                    let j = s.len() - 1;
                    assert(s[j] == r[k]);
                    assert forall|m: int| 0 <= m < j implies s[m].info.name@ != r[k].info.name@ by {
                        assert(s[m] == init[m]);
                        if s[m].info.name@ == r[k].info.name@ {
                            assert(has_name(init, last.info.name@));
                        }
                    }
                }
            }
        } else {
            assert(r == kept);
            assert forall|n: Seq<char>| #[trigger] has_name(r, n) == has_name(s, n) by {
                assert(has_name(kept, n) == has_name(init, n));
            }
            assert forall|k: int| 0 <= k < r.len() implies exists|j: int|
                0 <= j < s.len() && s[j] == #[trigger] r[k] && forall|m: int| 0 <= m < j ==> s[m].info.name@ != r[k].info.name@ by {
                let j = choose|j: int|
                    0 <= j < init.len() && init[j] == kept[k] && forall|m: int| 0 <= m < j ==> init[m].info.name@ != kept[k].info.name@;
                assert(s[j] == init[j]);
                assert forall|m: int| 0 <= m < j implies s[m].info.name@ != r[k].info.name@ by {
                    assert(s[m] == init[m]);
                }
            }
        }
    }
}

/// Every registered method, grouped by receiver type.
pub struct MethodRegistry<I: 'static> {
    by_type: KeyedVec<TypeId, TypeMethods<I>>,
}

fn has_method_named<I>(list: &Vec<&'static ReflectedMethod<I>>, name: &str) -> (r: bool)
    ensures
        r == has_name(deref_methods(list@), name@),
{
    let mut j: usize = 0;
    while j < list.len()
        invariant
            j <= list@.len(),
            forall|k: int| 0 <= k < j ==> list@[k].info.name@ != name@,
        decreases list@.len() - j,
    {
        if str_eq(list[j].info.name, name) {
            assert(deref_methods(list@)[j as int].info.name@ == name@);
            return true;
        }
        j = j + 1;
    }
    false
}

impl<I> MethodRegistry<I> {
    pub closed spec fn wf(&self) -> bool {
        &&& self.by_type.wf()
        &&& forall|t: TypeId| #[trigger] self.by_type@.dom().contains(t) ==> self.by_type@[t].ty.id == t
        &&& forall|t: TypeId| #[trigger] self.by_type@.dom().contains(t) ==> self.by_type@[t].methods@.len() > 0
    }

    /// Whether type `t` has at least one registered method.
    pub closed spec fn has_type(&self, t: TypeId) -> bool {
        self.by_type@.dom().contains(t)
    }

    /// The methods registered for `t`, in order (empty if none).
    pub closed spec fn methods_spec(&self, t: TypeId) -> Seq<ReflectedMethod<I>> {
        if self.has_type(t) {
            deref_methods(self.by_type@[t].methods@)
        } else {
            Seq::empty()
        }
    }

    /// The number of types with at least one registered method.
    pub closed spec fn type_count(&self) -> nat {
        self.by_type@.len()
    }

    /// Groups the methods of `registrations` by type. Of two methods of one
    /// type with the same name, the first is kept.
    pub fn collect(registrations: &[&'static TypeMethodRegistration<I>]) -> (r: Self)
        ensures
            r.wf(),
            forall|t: TypeId| #[trigger] r.methods_spec(t) == first_by_name(registered_for(registrations@, t)),
            forall|t: TypeId| #[trigger] r.has_type(t) == (registered_for(registrations@, t).len() > 0),
    {
        let mut by_type: KeyedVec<TypeId, TypeMethods<I>> = KeyedVec::new();
        let mut i: usize = 0;
        while i < registrations.len()
            invariant
                i <= registrations@.len(),
                by_type.wf(),
                forall|t: TypeId| #[trigger] by_type@.dom().contains(t) ==> by_type@[t].ty.id == t,
                forall|t: TypeId| #[trigger] by_type@.dom().contains(t) ==> by_type@[t].methods@.len() > 0,
                forall|t: TypeId| #[trigger] by_type@.dom().contains(t) == (registered_for(registrations@.take(i as int), t).len() > 0),
                forall|t: TypeId| #[trigger] by_type@.dom().contains(t) ==> deref_methods(by_type@[t].methods@) == first_by_name(registered_for(registrations@.take(i as int), t)),
            decreases registrations@.len() - i,
        {
            let reg = registrations[i];
            let ghost before = by_type@;
            let ghost prefix = registrations@.take(i as int);
            proof {
                assert(registrations@.take(i + 1).drop_last() =~= prefix);
                assert(registrations@.take(i + 1).last() == reg);
            }
            let mut j: usize = 0;
            while j < reg.methods.len()
                invariant
                    i < registrations@.len(),
                    reg == registrations@[i as int],
                    prefix == registrations@.take(i as int),
                    j <= reg.methods@.len(),
                    by_type.wf(),
                    forall|t: TypeId| #[trigger] by_type@.dom().contains(t) ==> by_type@[t].ty.id == t,
                    forall|t: TypeId| #[trigger] by_type@.dom().contains(t) ==> by_type@[t].methods@.len() > 0,
                    forall|t: TypeId| t != reg.ty.id ==> #[trigger] by_type@.dom().contains(t) == before.dom().contains(t),
                    forall|t: TypeId| t != reg.ty.id && #[trigger] by_type@.dom().contains(t) ==> by_type@[t] == before[t],
                    by_type@.dom().contains(reg.ty.id) == ((registered_for(prefix, reg.ty.id) + reg.methods@.take(j as int)).len() > 0),
                    by_type@.dom().contains(reg.ty.id) ==> deref_methods(by_type@[reg.ty.id].methods@) == first_by_name(registered_for(prefix, reg.ty.id) + reg.methods@.take(j as int)),
                    forall|t: TypeId| #[trigger] before.dom().contains(t) == (registered_for(prefix, t).len() > 0),
                    forall|t: TypeId| #[trigger] before.dom().contains(t) ==> deref_methods(before[t].methods@) == first_by_name(registered_for(prefix, t)),
                decreases reg.methods@.len() - j,
            {
                let method: &'static ReflectedMethod<I> = &reg.methods[j];
                let ghost seen = registered_for(prefix, reg.ty.id) + reg.methods@.take(j as int);
                proof {
                    assert((registered_for(prefix, reg.ty.id) + reg.methods@.take(j + 1)).drop_last() =~= seen);
                    assert((registered_for(prefix, reg.ty.id) + reg.methods@.take(j + 1)).last() == *method);
                }
                let ghost pre = by_type@;
                let mut entry = match by_type.remove(&reg.ty.id) {
                    Some(e) => e,
                    None => TypeMethods { ty: reg.ty, methods: Vec::new() },
                };
                proof {
                    if !pre.dom().contains(reg.ty.id) {
                        assert(seen.len() == 0);
                        assert(deref_methods(entry.methods@) =~= first_by_name(seen));
                    }
                    assert(entry.ty.id == reg.ty.id);
                }
                if !has_method_named(&entry.methods, method.info.name) {
                    entry.methods.push(method);
                    proof {
                        assert(deref_methods(entry.methods@) =~= first_by_name(seen).push(*method));
                    }
                } else {
                    proof {
                        let k = choose|k: int| 0 <= k < deref_methods(entry.methods@).len() && deref_methods(entry.methods@)[k].info.name@ == method.info.name@;
                        assert(entry.methods@.len() > 0);
                    }
                }
                proof {
                    assert(seen.push(*method).drop_last() =~= seen);
                    assert(seen.push(*method).last() == *method);
                    assert(deref_methods(entry.methods@) == first_by_name(seen.push(*method)));
                }
                by_type.insert(reg.ty.id, entry);
                proof {
                    assert(seen.push(*method) =~= registered_for(prefix, reg.ty.id) + reg.methods@.take(j + 1));
                }
                j = j + 1;
            }
            proof {
                assert(reg.methods@.take(reg.methods@.len() as int) =~= reg.methods@);
                assert forall|t: TypeId| #[trigger] by_type@.dom().contains(t) == (registered_for(registrations@.take(i + 1), t).len() > 0) by {
                    if t != reg.ty.id {
                        assert(registered_for(registrations@.take(i + 1), t) == registered_for(prefix, t));
                    } else {
                        assert(registered_for(registrations@.take(i + 1), t) == registered_for(prefix, t) + reg.methods@);
                    }
                }
                assert forall|t: TypeId| #[trigger] by_type@.dom().contains(t) implies deref_methods(by_type@[t].methods@) == first_by_name(registered_for(registrations@.take(i + 1), t)) by {
                    if t != reg.ty.id {
                        assert(registered_for(registrations@.take(i + 1), t) == registered_for(prefix, t));
                    } else {
                        assert(registered_for(registrations@.take(i + 1), t) == registered_for(prefix, t) + reg.methods@);
                    }
                }
            }
            i = i + 1;
        }
        proof {
            assert(registrations@.take(registrations@.len() as int) =~= registrations@);
        }
        let r = MethodRegistry { by_type };
        proof {
            assert forall|t: TypeId| #[trigger] r.methods_spec(t) == first_by_name(registered_for(registrations@, t)) by {
                if !r.has_type(t) {
                    assert(registered_for(registrations@, t).len() == 0);
                    assert(registered_for(registrations@, t) =~= Seq::<ReflectedMethod<I>>::empty());
                }
            }
        }
        r
    }

    /// The methods registered on the type with id `ty` (empty if none).
    pub fn methods_of(&self, ty: TypeId) -> (r: &[&'static ReflectedMethod<I>])
        requires
            self.wf(),
        ensures
            deref_methods(r@) == self.methods_spec(ty),
    {
        match self.by_type.get(&ty) {
            Some(entry) => entry.methods.as_slice(),
            None => {
                let empty: &[&'static ReflectedMethod<I>] = &[];
                proof {
                    assert(deref_methods(empty@) =~= Seq::<ReflectedMethod<I>>::empty());
                }
                empty
            },
        }
    }

    /// The method named `name` on the type with id `ty`: the first such, of
    /// which there is at most one.
    pub fn find(&self, ty: TypeId, name: &str) -> (r: Option<&'static ReflectedMethod<I>>)
        requires
            self.wf(),
        ensures
            match r {
                Some(m) => exists|i: int|
                    0 <= i < self.methods_spec(ty).len() && self.methods_spec(ty)[i] == *m
                        && m.info.name@ == name@ && forall|j: int|
                        0 <= j < i ==> self.methods_spec(ty)[j].info.name@ != name@,
                None => !has_name(self.methods_spec(ty), name@),
            },
    {
        let methods = self.methods_of(ty);
        let mut j: usize = 0;
        while j < methods.len()
            invariant
                j <= methods@.len(),
                deref_methods(methods@) == self.methods_spec(ty),
                forall|k: int| 0 <= k < j ==> methods@[k].info.name@ != name@,
            decreases methods@.len() - j,
        {
            if str_eq(methods[j].info.name, name) {
                assert(self.methods_spec(ty)[j as int] == *methods@[j as int]);
                return Some(methods[j]);
            }
            j = j + 1;
        }
        proof {
            assert forall|k: int| 0 <= k < self.methods_spec(ty).len() implies self.methods_spec(ty)[k].info.name@ != name@ by {
                assert(self.methods_spec(ty)[k] == *methods@[k]);
            }
        }
        None
    }

    /// Every type with at least one registered method, each once.
    pub fn types(&self) -> (r: Vec<&TypeMethods<I>>)
        requires
            self.wf(),
        ensures
            r@.len() == self.type_count(),
            forall|i: int| 0 <= i < r@.len() ==> #[trigger] self.has_type(r@[i].ty.id)
                && deref_methods(r@[i].methods@) == self.methods_spec(r@[i].ty.id)
                && r@[i].methods@.len() > 0,
            forall|t: TypeId| #[trigger] self.has_type(t) ==> exists|i: int| 0 <= i < r@.len() && r@[i].ty.id == t,
    {
        let entries = self.by_type.entries();
        let mut r: Vec<&TypeMethods<I>> = Vec::new();
        let mut i: usize = 0;
        while i < entries.len()
            invariant
                self.wf(),
                entries@ == self.by_type.entry_seq(),
                i <= entries@.len(),
                r@.len() == i,
                forall|k: int| 0 <= k < i ==> *r@[k] == entries@[k].1,
            decreases entries@.len() - i,
        {
            r.push(&entries[i].1);
            i = i + 1;
        }
        proof {
            self.by_type.lemma_view_len();
            assert forall|k: int| 0 <= k < r@.len() implies #[trigger] self.has_type(r@[k].ty.id)
                && deref_methods(r@[k].methods@) == self.methods_spec(r@[k].ty.id)
                && r@[k].methods@.len() > 0 by {
                self.by_type.lemma_entry_in_view(k);
                let key = entries@[k].0;
                assert(self.by_type@.dom().contains(key));
                assert(self.by_type@[key].methods@.len() > 0);
            }
            assert forall|t: TypeId| #[trigger] self.has_type(t) implies exists|k: int| 0 <= k < r@.len() && r@[k].ty.id == t by {
                self.by_type.lemma_view_key_in_entries(t);
                let p = self.by_type.position(t);
                assert(r@[p].ty.id == t);
            }
        }
        r
    }
}

} // verus!

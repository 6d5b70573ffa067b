//! The second object hierarchy: arrays that share their representation with
//! the typed arrays of `cf`, and the bridge from runtime exceptions to results.
use vstd::prelude::*;
use crate::arc::{Obj, R};
use core::marker::PhantomData;
use crate::cf;
use crate::dictionary::DictionaryOf;
use crate::runtime::{addrs, Class, Id, Runtime};

verus! {

/// An array of the second hierarchy, whose elements the caller asserts to be
/// of type `T`. It shares its representation with `cf::ArrayOf<T>`.
pub struct Array<T> {
    id: Id,
    marker: PhantomData<T>,
}

impl<T> Obj for Array<T> {
    closed spec fn handle(&self) -> Id {
        self.id
    }

    fn id(&self) -> (r: Id) {
        self.id
    }

    fn with_id(id: Id) -> (r: Self) {
        Array { id, marker: PhantomData }
    }
}

impl<T: Obj> Array<T> {
    /// A new array of the given elements, in order; the array takes its own
    /// count on each.
    pub fn from_slice(rt: &mut Runtime, objs: &[&T]) -> (r: R<Array<T>>)
        requires
            old(rt).wf(),
            forall|i: int| 0 <= i < objs@.len() ==> old(rt).valid(#[trigger] objs@[i].handle()),
        ensures
            cf::created(final(rt), old(rt), r.handle(), Class::Array, addrs(cf::handles(objs@))),
    {
        cf::ArrayOf::<T>::from_slice(rt, objs).reinterpret()
    }

    pub fn count(&self, rt: &Runtime) -> (r: usize)
        requires
            rt.wf(),
            rt.valid(self.handle()),
        ensures
            r == rt.elems(self.handle()).len(),
    {
        rt.collection_len(self.id)
    }

    pub fn len(&self, rt: &Runtime) -> (r: usize)
        requires
            rt.wf(),
            rt.valid(self.handle()),
        ensures
            r == rt.elems(self.handle()).len(),
    {
        self.count(rt)
    }

    pub fn is_empty(&self, rt: &Runtime) -> (r: bool)
        requires
            rt.wf(),
            rt.valid(self.handle()),
        ensures
            r == (rt.elems(self.handle()).len() == 0),
    {
        self.len(rt) == 0
    }

    /// A borrowed view of the element at `index`; out of range is a contract violation.
    pub fn get(&self, rt: &Runtime, index: usize) -> (r: T)
        requires
            rt.wf(),
            rt.valid(self.handle()),
            index < rt.elems(self.handle()).len(),
        ensures
            r.handle() == rt.item(self.handle(), index as int),
            rt.valid(r.handle()),
    {
        T::with_id(rt.collection_at(self.id, index))
    }

    /// The same object, viewed through the first hierarchy: nothing is
    /// copied, retained or released.
    pub fn as_cf(&self) -> (r: cf::ArrayOf<T>)
        ensures
            r.handle() == self.handle(),
    {
        cf::ArrayOf::with_id(self.id)
    }
}

/// A dictionary of the second hierarchy, whose keys and values the caller
/// asserts to be of types `K` and `V`. It shares its representation with
/// `dictionary::DictionaryOf<K, V>`.
pub struct Dictionary<K, V> {
    id: Id,
    marker: PhantomData<(K, V)>,
}

impl<K, V> Obj for Dictionary<K, V> {
    closed spec fn handle(&self) -> Id {
        self.id
    }

    fn id(&self) -> (r: Id) {
        self.id
    }

    fn with_id(id: Id) -> (r: Self) {
        Dictionary { id, marker: PhantomData }
    }
}

impl<K: Obj, V: Obj> Dictionary<K, V> {
    /// The same object, viewed through the first hierarchy: nothing is
    /// copied, retained or released.
    pub fn as_dictionary_of(&self) -> (r: DictionaryOf<K, V>)
        ensures
            r.handle() == self.handle(),
    {
        DictionaryOf::with_id(self.id)
    }
}

/// A runtime exception object.
pub struct Exception {
    id: Id,
}

impl Obj for Exception {
    closed spec fn handle(&self) -> Id {
        self.id
    }

    fn id(&self) -> (r: Id) {
        self.id
    }

    fn with_id(id: Id) -> (r: Self) {
        Exception { id }
    }
}

/// How one call into the runtime that may raise came back: with its
/// ordinary result, or with the exception it raised.
pub enum Outcome<T> {
    Returned(T),
    Raised(Exception),
}

/// The result of a guarded call: the exception, if any, is a borrowed
/// reference that lives in the deferred-release scope that was innermost when
/// it was raised.
pub type ExResult<T> = Result<T, Exception>;

/// What `try_catch` makes of an outcome.
pub open spec fn caught<T>(o: Outcome<T>) -> ExResult<T> {
    match o {
        Outcome::Returned(v) => Ok(v),
        Outcome::Raised(e) => Err(e),
    }
}

/// Turns the outcome of one raw runtime call into a result.
pub fn guarded<T>(o: Outcome<T>) -> (r: ExResult<T>)
    ensures
        r == caught(o),
{
    match o {
        Outcome::Returned(v) => Ok(v),
        Outcome::Raised(e) => Err(e),
    }
}

/// Runs `body`, which makes exactly one call into the runtime, and turns the
/// exception that call raised, if any, into the error of the result. Only
/// that call's exception is caught: `body` reports it as its outcome, and
/// nothing else is turned into an error.
pub fn try_catch<T, F: FnOnce() -> Outcome<T>>(body: F) -> (r: ExResult<T>)
    requires
        body.requires(()),
    ensures
        exists|o: Outcome<T>| body.ensures((), o) && r == caught(o),
{
    let o = body();
    let r = match o {
        Outcome::Returned(v) => Ok(v),
        Outcome::Raised(e) => Err(e),
    };
    proof {
        assert(body.ensures((), o) && r == caught(o));
    }
    r
}

/// A guarded call returns the ordinary result when nothing was raised, and
/// the raised exception otherwise; a guard around a guarded call that raised
/// nothing reports nothing either.
pub proof fn lemma_guarded<T>(v: T, e: Exception)
    ensures
        caught(Outcome::Returned(v)) == Ok::<T, Exception>(v),
        caught(Outcome::<T>::Raised(e)) == Err::<T, Exception>(e),
        caught(Outcome::Returned(caught(Outcome::Returned(v)))) == Ok::<ExResult<T>, Exception>(
            Ok(v),
        ),
{
}

/// What a raise leaves of the runtime: `e` is a new exception object, the
/// last one made, whose release is deferred to the innermost scope; the rest
/// is as it was.
pub open spec fn raised(rt: &Runtime, prev: &Runtime, e: Exception) -> bool {
    &&& rt.wf()
    &&& e.handle().addr == prev.len()
    &&& rt.classes() == prev.classes().push(Class::Exception)
    &&& rt.owned() == prev.owned().push(0)
    &&& rt.items() == prev.items().push(Seq::empty())
    &&& rt.deferred() == prev.deferred().push(prev.len() as usize)
    &&& rt.log() == prev.log()
    &&& rt.marks() == prev.marks()
    &&& rt.empty_array() == prev.empty_array()
}

impl Runtime {
    /// Raises an exception from inside a runtime call: a new exception object
    /// whose release is deferred to the innermost scope.
    pub fn raise<T>(&mut self) -> (r: Outcome<T>)
        requires
            old(self).wf(),
            old(self).scope_depth() > 0,
        ensures
            r matches Outcome::Raised(e) && raised(final(self), old(self), e),
    {
        let ex: R<Exception> = self.create(Class::Exception);
        let e = self.autorelease(ex);
        proof {
            assert(self.owned() =~= old(self).owned().push(0));
        }
        Outcome::Raised(e)
    }
}

/// A boxed integer.
pub struct Number {
    id: Id,
}

impl Obj for Number {
    closed spec fn handle(&self) -> Id {
        self.id
    }

    fn id(&self) -> (r: Id) {
        self.id
    }

    fn with_id(id: Id) -> (r: Self) {
        Number { id }
    }
}

impl Number {
    /// A new number object holding `val`.
    pub fn with_u8(rt: &mut Runtime, val: u8) -> (r: R<Number>)
        requires
            old(rt).wf(),
        ensures
            cf::created(final(rt), old(rt), r.handle(), Class::Number(val as i64), Seq::empty()),
    {
        Self::with_i64(rt, val as i64)
    }

    /// A new number object holding `val`.
    pub fn with_i64(rt: &mut Runtime, val: i64) -> (r: R<Number>)
        requires
            old(rt).wf(),
        ensures
            cf::created(final(rt), old(rt), r.handle(), Class::Number(val), Seq::empty()),
    {
        rt.create(Class::Number(val))
    }

    /// The value, or 0 for an object that is not a number.
    pub fn as_i64(&self, rt: &Runtime) -> (r: i64)
        requires
            rt.wf(),
            rt.valid(self.handle()),
        ensures
            r == match rt.classes()[self.handle().addr as int] {
                Class::Number(v) => v,
                _ => 0,
            },
    {
        match rt.class_of(self.id) {
            Class::Number(v) => v,
            _ => 0,
        }
    }

    /// The value's low eight bits.
    pub fn as_u8(&self, rt: &Runtime) -> (r: u8)
        requires
            rt.wf(),
            rt.valid(self.handle()),
        ensures
            r == match rt.classes()[self.handle().addr as int] {
                Class::Number(v) => v as u8,
                _ => 0,
            },
    {
        self.as_i64(rt) as u8
    }
}

} // verus!

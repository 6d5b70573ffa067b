//! Owned references: each value of `R<T>` stands for one retain count that its
//! holder must give back exactly once, by `Runtime::release` or by handing it
//! to a deferred-release scope with `Runtime::autorelease`. `R` is neither
//! `Copy` nor `Clone`: a second owned reference comes only from a new retain.
//!
//! Both ways consume the reference, so no count is given back twice. That a
//! count is given back at all is the holder's duty: `R` has no release on
//! drop, since a release needs the runtime, which the holder passes
//! explicitly. Likewise a dropped `Scope` closes nothing; closing an outer
//! scope closes every scope opened inside it.
use vstd::prelude::*;
use core::marker::PhantomData;
use crate::runtime::Id;

verus! {

/// A typed view of a handle. A view owns nothing: it is a borrowed reference.
pub trait Obj: Sized {
    spec fn handle(&self) -> Id;

    fn id(&self) -> (r: Id)
        ensures
            r == self.handle(),
    ;

    /// Views a handle as this type. This is a trust boundary: nothing checks
    /// that the object behind `id` is of this class.
    fn with_id(id: Id) -> (r: Self)
        ensures
            r.handle() == id,
    ;
}

/// An owned reference: one retain count on `obj`'s handle.
pub struct R<T> {
    obj: T,
}

impl<T: Obj> R<T> {
    pub closed spec fn view(&self) -> T {
        self.obj
    }

    pub open spec fn handle(&self) -> Id {
        self@.handle()
    }

    /// Only the runtime makes owned references, each for a count it has just taken.
    pub(crate) fn adopt(obj: T) -> (r: R<T>)
        ensures
            r@ == obj,
    {
        R { obj }
    }

    /// Gives up the reference without a release; the runtime takes the count over.
    pub(crate) fn into_inner(self) -> (r: T)
        ensures
            r == self@,
    {
        self.obj
    }

    /// The same count, viewed as another type of the same object. Zero cost:
    /// no retain or release is issued. Crate-private: only the typed wrappers
    /// that know the two types share a representation use it.
    pub(crate) fn reinterpret<U: Obj>(self) -> (r: R<U>)
        ensures
            r.handle() == self.handle(),
    {
        let id = self.obj.id();
        R { obj: U::with_id(id) }
    }

    /// A borrowed view, valid while `self` lives.
    pub fn get(&self) -> (r: &T)
        ensures
            *r == self@,
    {
        &self.obj
    }

    pub fn id(&self) -> (r: Id)
        ensures
            r == self.handle(),
    {
        self.obj.id()
    }
}

/// An object allocated but not yet initialised: the one thing to do with it
/// is to initialise it, which consumes it.
pub struct A<T> {
    marker: PhantomData<T>,
}

impl<T> A<T> {
    pub fn allocate() -> (r: A<T>) {
        A { marker: PhantomData }
    }
}

} // verus!

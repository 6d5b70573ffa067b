//! The untyped arrays of the runtime and the typed views over them.
use vstd::prelude::*;
use core::marker::PhantomData;
use crate::arc::{Obj, R};
use crate::ns;
use crate::runtime::{addrs, Class, Id, Runtime};

verus! {

/// A borrowed view of any object.
pub struct Type {
    id: Id,
}

/// An immutable array of objects of any type.
pub struct Array {
    id: Id,
}

/// A mutable array of objects of any type.
pub struct ArrayMut {
    id: Id,
}

/// An immutable array whose elements the caller asserts to be of type `T`.
pub struct ArrayOf<T> {
    id: Id,
    marker: PhantomData<T>,
}

/// A mutable array whose elements the caller asserts to be of type `T`.
pub struct ArrayOfMut<T> {
    id: Id,
    marker: PhantomData<T>,
}

/// Walks an array from the front, one borrowed element at a time.
pub struct ArrayOfIterator<T> {
    array: Id,
    index: usize,
    len: usize,
    marker: PhantomData<T>,
}

impl Obj for Type {
    closed spec fn handle(&self) -> Id {
        self.id
    }

    fn id(&self) -> (r: Id) {
        self.id
    }

    fn with_id(id: Id) -> (r: Self) {
        Type { id }
    }
}

impl Obj for Array {
    closed spec fn handle(&self) -> Id {
        self.id
    }

    fn id(&self) -> (r: Id) {
        self.id
    }

    fn with_id(id: Id) -> (r: Self) {
        Array { id }
    }
}

impl Obj for ArrayMut {
    closed spec fn handle(&self) -> Id {
        self.id
    }

    fn id(&self) -> (r: Id) {
        self.id
    }

    fn with_id(id: Id) -> (r: Self) {
        ArrayMut { id }
    }
}

impl<T> Obj for ArrayOf<T> {
    closed spec fn handle(&self) -> Id {
        self.id
    }

    fn id(&self) -> (r: Id) {
        self.id
    }

    fn with_id(id: Id) -> (r: Self) {
        ArrayOf { id, marker: PhantomData }
    }
}

impl<T> Obj for ArrayOfMut<T> {
    closed spec fn handle(&self) -> Id {
        self.id
    }

    fn id(&self) -> (r: Id) {
        self.id
    }

    fn with_id(id: Id) -> (r: Self) {
        ArrayOfMut { id, marker: PhantomData }
    }
}

/// The handles of a sequence of borrowed views.
pub open spec fn handles<T: Obj>(v: Seq<&T>) -> Seq<Id> {
    v.map_values(|x: &T| x.handle())
}

/// The handles of a sequence of owned references.
pub open spec fn owned_handles<T: Obj>(v: Seq<R<T>>) -> Seq<Id> {
    v.map_values(|x: R<T>| x.handle())
}

/// What a new collection leaves of the runtime: one more object, the rest
/// as it was (the shared empty array too).
pub open spec fn created(rt: &Runtime, prev: &Runtime, h: Id, class: Class, elems: Seq<usize>) -> bool {
    &&& created_fresh(rt, prev, h, class, elems)
    &&& rt.empty_array() == prev.empty_array()
}

/// As `created`, but for the shared empty array, which may have changed.
pub open spec fn created_fresh(rt: &Runtime, prev: &Runtime, h: Id, class: Class, elems: Seq<usize>) -> bool {
    &&& rt.wf()
    &&& h.addr == prev.len()
    &&& rt.classes() == prev.classes().push(class)
    &&& rt.owned() == prev.owned().push(1)
    &&& rt.items() == prev.items().push(elems)
    &&& rt.log() == prev.log()
    &&& rt.deferred() == prev.deferred()
    &&& rt.marks() == prev.marks()
}

fn ids_of<T: Obj>(values: &[&T]) -> (r: Vec<Id>)
    ensures
        r@ == handles(values@),
{
    let mut r: Vec<Id> = Vec::new();
    let mut i: usize = 0;
    while i < values.len()
        invariant
            i <= values@.len(),
            r@ == handles(values@).subrange(0, i as int),
        decreases values@.len() - i,
    {
        r.push(values[i].id());
        i = i + 1;
        proof {
            assert(r@ =~= handles(values@).subrange(0, i as int));
        }
    }
    proof {
        assert(r@ =~= handles(values@));
    }
    r
}

fn owned_ids_of<T: Obj>(values: &[R<T>]) -> (r: Vec<Id>)
    ensures
        r@ == owned_handles(values@),
{
    let mut r: Vec<Id> = Vec::new();
    let mut i: usize = 0;
    while i < values.len()
        invariant
            i <= values@.len(),
            r@ == owned_handles(values@).subrange(0, i as int),
        decreases values@.len() - i,
    {
        r.push(values[i].id());
        i = i + 1;
        proof {
            assert(r@ =~= owned_handles(values@).subrange(0, i as int));
        }
    }
    proof {
        assert(r@ =~= owned_handles(values@));
    }
    r
}

impl Array {
    pub fn len(&self, rt: &Runtime) -> (r: usize)
        requires
            rt.wf(),
            rt.valid(self.handle()),
        ensures
            r == rt.elems(self.handle()).len(),
    {
        rt.collection_len(self.id)
    }

    pub fn is_empty(&self, rt: &Runtime) -> (r: bool)
        requires
            rt.wf(),
            rt.valid(self.handle()),
        ensures
            r == (rt.elems(self.handle()).len() == 0),
    {
        self.len(rt) == 0
    }

    /// A borrowed view of the element at `index`, valid while the array lives.
    pub fn get(&self, rt: &Runtime, index: usize) -> (r: Type)
        requires
            rt.wf(),
            rt.valid(self.handle()),
            index < rt.elems(self.handle()).len(),
        ensures
            r.handle() == rt.item(self.handle(), index as int),
    {
        Type { id: rt.collection_at(self.id, index) }
    }

    /// The empty immutable array. All callers share one, as long as its
    /// retain count can still grow: the result becomes the shared one.
    pub fn new(rt: &mut Runtime) -> (r: R<Array>)
        requires
            old(rt).wf(),
        ensures
            final(rt).wf(),
            final(rt).valid(r.handle()),
            final(rt).classes()[r.handle().addr as int] == Class::Array,
            final(rt).elems(r.handle()) == Seq::<usize>::empty(),
            final(rt).log() == old(rt).log(),
            final(rt).deferred() == old(rt).deferred(),
            final(rt).marks() == old(rt).marks(),
            final(rt).empty_array() == Some(r.handle().addr),
            final(rt).len() >= old(rt).len(),
            forall|h: int| 0 <= h < old(rt).len() ==> final(rt).items()[h] == old(rt).items()[h],
            forall|h: int| 0 <= h < old(rt).len() ==> final(rt).classes()[h] == old(rt).classes()[h],
            created_fresh(final(rt), old(rt), r.handle(), Class::Array, Seq::empty()) || final(rt).after_retain(
                old(rt),
                r.handle(),
            ),
            ({
                let e = old(rt).empty_array();
                e is Some && e->0 < old(rt).len() && old(rt).classes()[e->0 as int] == Class::Array
                    && old(rt).elems(Id { addr: e->0 }).len() == 0 && old(rt).owned()[e->0 as int]
                    < u64::MAX ==> r.handle().addr == e->0 && final(rt).after_retain(old(rt), r.handle())
            }),
    {
        match rt.empty_slot() {
            Some(h) => {
                if h < rt.len_exec() {
                    let id = Id { addr: h };
                    if rt.class_of(id) == Class::Array && rt.collection_len(id) == 0
                        && rt.owned_of(id) < u64::MAX {
                        return rt.retain(&Array { id });
                    }
                }
            },
            None => {},
        }
        let none: Vec<Id> = Vec::new();
        proof {
            assert(addrs(none@) =~= Seq::<usize>::empty());
        }
        let r: R<Array> = rt.create_collection(Class::Array, none.as_slice());
        let h = r.id();
        rt.set_empty_slot(h.addr);
        r
    }

    /// An immutable copy. An immutable array is its own copy: the result is
    /// the same object, retained once more (while its count can grow).
    /// Always `Some`: this runtime never fails to allocate.
    pub fn copy(&self, rt: &mut Runtime) -> (r: Option<R<Array>>)
        requires
            old(rt).wf(),
            old(rt).valid(self.handle()),
        ensures
            r is Some,
            final(rt).elems(r->0.handle()) == old(rt).elems(self.handle()),
            final(rt).classes()[r->0.handle().addr as int] == Class::Array,
            old(rt).classes()[self.handle().addr as int] == Class::Array && old(rt).owned()[self.handle().addr as int] < u64::MAX
                ==> r->0.handle() == self.handle() && final(rt).after_retain(old(rt), self.handle()),
            !(old(rt).classes()[self.handle().addr as int] == Class::Array && old(rt).owned()[self.handle().addr as int] < u64::MAX)
                ==> created(
                final(rt),
                old(rt),
                r->0.handle(),
                Class::Array,
                old(rt).elems(self.handle()),
            ),
    {
        if rt.class_of(self.id) == Class::Array && rt.owned_of(self.id) < u64::MAX {
            Some(rt.retain(self))
        } else {
            let ids = rt.collection_ids(self.id);
            Some(rt.create_collection(Class::Array, ids.as_slice()))
        }
    }

    /// A new mutable array holding the same elements.
    pub fn copy_mut(&self, rt: &mut Runtime) -> (r: Option<R<ArrayMut>>)
        requires
            old(rt).wf(),
            old(rt).valid(self.handle()),
        ensures
            r is Some,
            created(
                final(rt),
                old(rt),
                r->0.handle(),
                Class::ArrayMut,
                old(rt).elems(self.handle()),
            ),
    {
        let ids = rt.collection_ids(self.id);
        Some(rt.create_collection(Class::ArrayMut, ids.as_slice()))
    }

    /// As `copy_mut`; the capacity is a hint that this runtime does not need.
    pub fn copy_mut_with_capacity(&self, rt: &mut Runtime, capacity: usize) -> (r: Option<R<ArrayMut>>)
        requires
            old(rt).wf(),
            old(rt).valid(self.handle()),
        ensures
            r is Some,
            created(
                final(rt),
                old(rt),
                r->0.handle(),
                Class::ArrayMut,
                old(rt).elems(self.handle()),
            ),
    {
        self.copy_mut(rt)
    }

    /// A new immutable array of the given objects, in order; the array takes
    /// its own count on each.
    pub fn from_slice<T: Obj>(rt: &mut Runtime, values: &[&T]) -> (r: Option<R<Array>>)
        requires
            old(rt).wf(),
            forall|i: int| 0 <= i < values@.len() ==> old(rt).valid(#[trigger] values@[i].handle()),
        ensures
            r is Some,
            created(final(rt), old(rt), r->0.handle(), Class::Array, addrs(handles(values@))),
    {
        let ids = ids_of(values);
        Some(rt.create_collection(Class::Array, ids.as_slice()))
    }
}

impl ArrayMut {
    /// A new, empty mutable array.
    pub fn new(rt: &mut Runtime) -> (r: R<ArrayMut>)
        requires
            old(rt).wf(),
        ensures
            created(final(rt), old(rt), r.handle(), Class::ArrayMut, Seq::empty()),
    {
        Self::with_capacity(rt, 0)
    }

    /// A new, empty mutable array; the capacity is a hint.
    pub fn with_capacity(rt: &mut Runtime, capacity: usize) -> (r: R<ArrayMut>)
        requires
            old(rt).wf(),
        ensures
            created(final(rt), old(rt), r.handle(), Class::ArrayMut, Seq::empty()),
    {
        let none: Vec<Id> = Vec::new();
        proof {
            assert(addrs(none@) =~= Seq::<usize>::empty());
        }
        rt.create_collection(Class::ArrayMut, none.as_slice())
    }

    /// This array viewed as an immutable one (the same object).
    pub fn as_array(&self) -> (r: Array)
        ensures
            r.handle() == self.handle(),
    {
        Array { id: self.id }
    }

    pub fn len(&self, rt: &Runtime) -> (r: usize)
        requires
            rt.wf(),
            rt.valid(self.handle()),
        ensures
            r == rt.elems(self.handle()).len(),
    {
        rt.collection_len(self.id)
    }

    /// Appends `value`; the array takes its own count on it.
    pub fn append<T: Obj>(&self, rt: &mut Runtime, value: &T)
        requires
            old(rt).wf(),
            old(rt).valid(self.handle()),
            old(rt).valid(value.handle()),
        ensures
            final(rt).wf(),
            final(rt).items() == old(rt).items().update(
                self.handle().addr as int,
                old(rt).elems(self.handle()).push(value.handle().addr),
            ),
            final(rt).classes() == old(rt).classes(),
            final(rt).owned() == old(rt).owned(),
            final(rt).log() == old(rt).log(),
            final(rt).deferred() == old(rt).deferred(),
            final(rt).marks() == old(rt).marks(),
            final(rt).empty_array() == old(rt).empty_array(),
    {
        rt.collection_push(self.id, value.id())
    }

    /// Puts `value` at `index`, moving the later elements up; the array takes
    /// its own count on it.
    pub fn insert<T: Obj>(&self, rt: &mut Runtime, index: usize, value: &T)
        requires
            old(rt).wf(),
            old(rt).valid(self.handle()),
            old(rt).valid(value.handle()),
            index <= old(rt).elems(self.handle()).len(),
        ensures
            final(rt).wf(),
            final(rt).items() == old(rt).items().update(
                self.handle().addr as int,
                old(rt).elems(self.handle()).insert(index as int, value.handle().addr),
            ),
            final(rt).classes() == old(rt).classes(),
            final(rt).owned() == old(rt).owned(),
            final(rt).log() == old(rt).log(),
            final(rt).deferred() == old(rt).deferred(),
            final(rt).marks() == old(rt).marks(),
            final(rt).empty_array() == old(rt).empty_array(),
    {
        rt.collection_insert(self.id, index, value.id())
    }

    /// Removes the element at `index`, releasing the array's count on it once.
    pub fn remove(&self, rt: &mut Runtime, index: usize)
        requires
            old(rt).wf(),
            old(rt).valid(self.handle()),
            index < old(rt).elems(self.handle()).len(),
        ensures
            final(rt).wf(),
            final(rt).items() == old(rt).items().update(
                self.handle().addr as int,
                old(rt).elems(self.handle()).remove(index as int),
            ),
            final(rt).log() == old(rt).log().push(old(rt).elems(self.handle())[index as int]),
            final(rt).classes() == old(rt).classes(),
            final(rt).owned() == old(rt).owned(),
            final(rt).deferred() == old(rt).deferred(),
            final(rt).marks() == old(rt).marks(),
            final(rt).empty_array() == old(rt).empty_array(),
    {
        rt.collection_remove(self.id, index)
    }

    /// Removes every element, releasing each count the array held once.
    pub fn remove_all_values(&self, rt: &mut Runtime)
        requires
            old(rt).wf(),
            old(rt).valid(self.handle()),
        ensures
            final(rt).wf(),
            final(rt).items() == old(rt).items().update(self.handle().addr as int, Seq::empty()),
            final(rt).log() == old(rt).log() + old(rt).elems(self.handle()),
            final(rt).classes() == old(rt).classes(),
            final(rt).owned() == old(rt).owned(),
            final(rt).deferred() == old(rt).deferred(),
            final(rt).marks() == old(rt).marks(),
            final(rt).empty_array() == old(rt).empty_array(),
    {
        rt.collection_clear(self.id)
    }

    /// The same as `remove_all_values`.
    pub fn clear(&self, rt: &mut Runtime)
        requires
            old(rt).wf(),
            old(rt).valid(self.handle()),
        ensures
            final(rt).wf(),
            final(rt).items() == old(rt).items().update(self.handle().addr as int, Seq::empty()),
            final(rt).log() == old(rt).log() + old(rt).elems(self.handle()),
            final(rt).classes() == old(rt).classes(),
            final(rt).owned() == old(rt).owned(),
            final(rt).deferred() == old(rt).deferred(),
            final(rt).marks() == old(rt).marks(),
            final(rt).empty_array() == old(rt).empty_array(),
    {
        self.remove_all_values(rt)
    }
}

impl<T: Obj> ArrayOf<T> {
    /// The empty array, viewed as holding `T`.
    pub fn new(rt: &mut Runtime) -> (r: R<ArrayOf<T>>)
        requires
            old(rt).wf(),
        ensures
            final(rt).wf(),
            final(rt).valid(r.handle()),
            final(rt).elems(r.handle()) == Seq::<usize>::empty(),
            final(rt).log() == old(rt).log(),
            final(rt).deferred() == old(rt).deferred(),
            final(rt).marks() == old(rt).marks(),
            final(rt).empty_array() == Some(r.handle().addr),
            forall|h: int| 0 <= h < old(rt).len() ==> final(rt).items()[h] == old(rt).items()[h],
    {
        Array::new(rt).reinterpret()
    }

    pub fn len(&self, rt: &Runtime) -> (r: usize)
        requires
            rt.wf(),
            rt.valid(self.handle()),
        ensures
            r == rt.elems(self.handle()).len(),
    {
        rt.collection_len(self.id)
    }

    pub fn is_empty(&self, rt: &Runtime) -> (r: bool)
        requires
            rt.wf(),
            rt.valid(self.handle()),
        ensures
            r == (rt.elems(self.handle()).len() == 0),
    {
        rt.collection_len(self.id) == 0
    }

    /// Whether an element is equal to `value`: the same object, or a number
    /// of the same value.
    pub fn contains(&self, rt: &Runtime, value: &Type) -> (r: bool)
        requires
            rt.wf(),
            rt.valid(self.handle()),
            rt.valid(value.handle()),
        ensures
            r == exists|i: int|
                0 <= i < rt.elems(self.handle()).len() && #[trigger] rt.equal(
                    rt.elems(self.handle())[i],
                    value.handle().addr,
                ),
    {
        if rt.collection_len(self.id) == 0 {
            return false;
        }
        rt.collection_contains(self.id, value.id)
    }

    /// A borrowed view of the element at `index`. An index out of range is a
    /// contract violation: there is no default element.
    pub fn get(&self, rt: &Runtime, index: usize) -> (r: T)
        requires
            rt.wf(),
            rt.valid(self.handle()),
            index < rt.elems(self.handle()).len(),
        ensures
            r.handle() == rt.item(self.handle(), index as int),
            rt.valid(r.handle()),
    {
        T::with_id(rt.collection_at(self.id, index))
    }

    /// A walk over the elements in order. Calling `iter` again starts over.
    pub fn iter(&self, rt: &Runtime) -> (r: ArrayOfIterator<T>)
        requires
            rt.wf(),
            rt.valid(self.handle()),
        ensures
            r.array() == self.handle(),
            r.index() == 0,
            r.end() == rt.elems(self.handle()).len(),
    {
        ArrayOfIterator { array: self.id, index: 0, len: rt.collection_len(self.id), marker: PhantomData }
    }

    /// A new mutable array holding the same elements.
    pub fn copy_mut(&self, rt: &mut Runtime) -> (r: Option<R<ArrayOfMut<T>>>)
        requires
            old(rt).wf(),
            old(rt).valid(self.handle()),
        ensures
            r is Some,
            created(
                final(rt),
                old(rt),
                r->0.handle(),
                Class::ArrayMut,
                old(rt).elems(self.handle()),
            ),
    {
        let ids = rt.collection_ids(self.id);
        Some(rt.create_collection(Class::ArrayMut, ids.as_slice()))
    }

    /// A new array of the given elements, in order. The array takes its own
    /// count on each; the caller keeps what it owned.
    pub fn from_slice(rt: &mut Runtime, values: &[&T]) -> (r: R<ArrayOf<T>>)
        requires
            old(rt).wf(),
            forall|i: int| 0 <= i < values@.len() ==> old(rt).valid(#[trigger] values@[i].handle()),
        ensures
            created(final(rt), old(rt), r.handle(), Class::Array, addrs(handles(values@))),
    {
        let ids = ids_of(values);
        rt.create_collection(Class::Array, ids.as_slice())
    }

    /// As `from_slice`, from owned references, which the caller keeps.
    pub fn from_retained_slice(rt: &mut Runtime, values: &[R<T>]) -> (r: Option<R<ArrayOf<T>>>)
        requires
            old(rt).wf(),
            forall|i: int| 0 <= i < values@.len() ==> old(rt).valid(#[trigger] values@[i].handle()),
        ensures
            r is Some,
            created(final(rt), old(rt), r->0.handle(), Class::Array, addrs(owned_handles(values@))),
    {
        let ids = owned_ids_of(values);
        Some(rt.create_collection(Class::Array, ids.as_slice()))
    }

    /// The untyped array behind this view (the same object).
    pub fn as_array(&self) -> (r: Array)
        ensures
            r.handle() == self.handle(),
    {
        Array { id: self.id }
    }

    /// The same object, viewed through the other hierarchy. Both share one
    /// representation: nothing is copied, retained or released.
    pub fn as_ns(&self) -> (r: ns::Array<T>)
        ensures
            r.handle() == self.handle(),
    {
        ns::Array::with_id(self.id)
    }
}

impl<T: Obj> ArrayOfMut<T> {
    /// A new, empty mutable array.
    pub fn new(rt: &mut Runtime) -> (r: R<ArrayOfMut<T>>)
        requires
            old(rt).wf(),
        ensures
            created(final(rt), old(rt), r.handle(), Class::ArrayMut, Seq::empty()),
    {
        Self::with_capacity(rt, 0)
    }

    /// A new, empty mutable array; the capacity is a hint.
    pub fn with_capacity(rt: &mut Runtime, capacity: usize) -> (r: R<ArrayOfMut<T>>)
        requires
            old(rt).wf(),
        ensures
            created(final(rt), old(rt), r.handle(), Class::ArrayMut, Seq::empty()),
    {
        ArrayMut::with_capacity(rt, capacity).reinterpret()
    }

    pub fn len(&self, rt: &Runtime) -> (r: usize)
        requires
            rt.wf(),
            rt.valid(self.handle()),
        ensures
            r == rt.elems(self.handle()).len(),
    {
        rt.collection_len(self.id)
    }

    /// A borrowed view of the element at `index`; out of range is a contract violation.
    pub fn get(&self, rt: &Runtime, index: usize) -> (r: T)
        requires
            rt.wf(),
            rt.valid(self.handle()),
            index < rt.elems(self.handle()).len(),
        ensures
            r.handle() == rt.item(self.handle(), index as int),
            rt.valid(r.handle()),
    {
        T::with_id(rt.collection_at(self.id, index))
    }

    /// A walk over the elements in order.
    pub fn iter(&self, rt: &Runtime) -> (r: ArrayOfIterator<T>)
        requires
            rt.wf(),
            rt.valid(self.handle()),
        ensures
            r.array() == self.handle(),
            r.index() == 0,
            r.end() == rt.elems(self.handle()).len(),
    {
        ArrayOfIterator { array: self.id, index: 0, len: rt.collection_len(self.id), marker: PhantomData }
    }

    /// Appends `value`; the array takes its own count on it.
    pub fn push(&self, rt: &mut Runtime, value: &T)
        requires
            old(rt).wf(),
            old(rt).valid(self.handle()),
            old(rt).valid(value.handle()),
        ensures
            final(rt).wf(),
            final(rt).items() == old(rt).items().update(
                self.handle().addr as int,
                old(rt).elems(self.handle()).push(value.handle().addr),
            ),
            final(rt).classes() == old(rt).classes(),
            final(rt).owned() == old(rt).owned(),
            final(rt).log() == old(rt).log(),
            final(rt).deferred() == old(rt).deferred(),
            final(rt).marks() == old(rt).marks(),
            final(rt).empty_array() == old(rt).empty_array(),
    {
        rt.collection_push(self.id, value.id())
    }

    /// Puts `value` at `index`, moving the later elements up; the array takes
    /// its own count on it.
    pub fn insert(&self, rt: &mut Runtime, index: usize, value: &T)
        requires
            old(rt).wf(),
            old(rt).valid(self.handle()),
            old(rt).valid(value.handle()),
            index <= old(rt).elems(self.handle()).len(),
        ensures
            final(rt).wf(),
            final(rt).items() == old(rt).items().update(
                self.handle().addr as int,
                old(rt).elems(self.handle()).insert(index as int, value.handle().addr),
            ),
            final(rt).classes() == old(rt).classes(),
            final(rt).owned() == old(rt).owned(),
            final(rt).log() == old(rt).log(),
            final(rt).deferred() == old(rt).deferred(),
            final(rt).marks() == old(rt).marks(),
            final(rt).empty_array() == old(rt).empty_array(),
    {
        rt.collection_insert(self.id, index, value.id())
    }

    /// Removes the element at `index`, releasing the array's count on it once.
    pub fn remove(&self, rt: &mut Runtime, index: usize)
        requires
            old(rt).wf(),
            old(rt).valid(self.handle()),
            index < old(rt).elems(self.handle()).len(),
        ensures
            final(rt).wf(),
            final(rt).items() == old(rt).items().update(
                self.handle().addr as int,
                old(rt).elems(self.handle()).remove(index as int),
            ),
            final(rt).log() == old(rt).log().push(old(rt).elems(self.handle())[index as int]),
            final(rt).classes() == old(rt).classes(),
            final(rt).owned() == old(rt).owned(),
            final(rt).deferred() == old(rt).deferred(),
            final(rt).marks() == old(rt).marks(),
            final(rt).empty_array() == old(rt).empty_array(),
    {
        rt.collection_remove(self.id, index)
    }

    /// The same object, viewed as an immutable typed array.
    pub fn as_array_of(&self) -> (r: ArrayOf<T>)
        ensures
            r.handle() == self.handle(),
    {
        ArrayOf { id: self.id, marker: PhantomData }
    }
}

impl<T: Obj> ArrayOfIterator<T> {
    pub closed spec fn array(&self) -> Id {
        self.array
    }

    pub closed spec fn index(&self) -> nat {
        self.index as nat
    }

    pub closed spec fn end(&self) -> nat {
        self.len as nat
    }

    /// The next element, or `None` once the walk is over. The array must not
    /// change during the walk.
    pub fn next(&mut self, rt: &Runtime) -> (r: Option<T>)
        requires
            rt.wf(),
            rt.valid(old(self).array()),
            old(self).end() <= rt.elems(old(self).array()).len(),
        ensures
            final(self).array() == old(self).array(),
            final(self).end() == old(self).end(),
            old(self).index() < old(self).end() ==> r is Some && r->0.handle() == rt.item(
                old(self).array(),
                old(self).index() as int,
            ) && final(self).index() == old(self).index() + 1,
            old(self).index() >= old(self).end() ==> r is None && final(self).index() == old(self).index(),
    {
        if self.index < self.len {
            let x = rt.collection_at(self.array, self.index);
            self.index = self.index + 1;
            Some(T::with_id(x))
        } else {
            None
        }
    }

    /// How many elements are left.
    pub fn len(&self) -> (r: usize)
        ensures
            r == if self.index() < self.end() {
                self.end() - self.index()
            } else {
                0
            },
    {
        if self.index < self.len {
            self.len - self.index
        } else {
            0
        }
    }
}

/// Reading back a new array by index gives, at each position, the very object
/// it was made from, and as many of them as there were.
pub proof fn lemma_round_trip(rt: &Runtime, prev: &Runtime, h: Id, class: Class, values: Seq<Id>)
    requires
        created(rt, prev, h, class, addrs(values)),
    ensures
        rt.elems(h).len() == values.len(),
        forall|i: int| 0 <= i < values.len() ==> #[trigger] rt.item(h, i) == values[i],
{
    assert(rt.items()[h.addr as int] == addrs(values));
}

} // verus!

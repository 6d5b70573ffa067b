//! The object runtime: a heap of handles, each with a class, the retain counts
//! held by owned references, and (for collections) the handles it holds.
//! Every release call is written to a log, so that callers can count them.
use vstd::prelude::*;
use crate::arc::{Obj, R};

verus! {

/// The address of an object in the runtime. It owns nothing.
#[derive(Clone, Copy, Debug, PartialEq, Eq, Structural)]
pub struct Id {
    pub addr: usize,
}

/// The class of an object.
#[derive(Clone, Copy, Debug, PartialEq, Eq, Structural)]
pub enum Class {
    Object,
    Array,
    ArrayMut,
    Exception,
    Dictionary,
    DictionaryMut,
    /// A boxed integer.
    Number(i64),
}

/// How many times `x` occurs in `s`.
pub open spec fn occ(s: Seq<usize>, x: usize) -> nat
    decreases s.len(),
{
    if s.len() == 0 {
        0
    } else {
        occ(s.drop_last(), x) + if s.last() == x {
            1nat
        } else {
            0nat
        }
    }
}

/// How many times `x` is held by the collections in `cs`.
pub open spec fn held(cs: Seq<Seq<usize>>, x: usize) -> nat
    decreases cs.len(),
{
    if cs.len() == 0 {
        0
    } else {
        held(cs.drop_last(), x) + occ(cs.last(), x)
    }
}

pub proof fn lemma_occ_push(s: Seq<usize>, x: usize, y: usize)
    ensures
        occ(s.push(x), y) == occ(s, y) + if x == y {
            1nat
        } else {
            0nat
        },
{
    assert(s.push(x).drop_last() =~= s);
}

pub proof fn lemma_occ_append(a: Seq<usize>, b: Seq<usize>, y: usize)
    ensures
        occ(a + b, y) == occ(a, y) + occ(b, y),
    decreases b.len(),
{
    if b.len() > 0 {
        lemma_occ_append(a, b.drop_last(), y);
        assert((a + b).drop_last() =~= a + b.drop_last());
    } else {
        assert(a + b =~= a);
    }
}

pub proof fn lemma_occ_split(s: Seq<usize>, k: int, y: usize)
    requires
        0 <= k <= s.len(),
    ensures
        occ(s, y) == occ(s.subrange(0, k), y) + occ(s.subrange(k, s.len() as int), y),
{
    lemma_occ_append(s.subrange(0, k), s.subrange(k, s.len() as int), y);
    assert(s.subrange(0, k) + s.subrange(k, s.len() as int) =~= s);
}

/// Equality of the objects at `a` and `b`, whose classes `cls` gives: the
/// same object, or two numbers of the same value.
pub open spec fn same_object(cls: Seq<Class>, a: usize, b: usize) -> bool {
    a == b || (cls[a as int] is Number && cls[a as int] == cls[b as int])
}

/// The addresses of a sequence of handles.
pub open spec fn addrs(v: Seq<Id>) -> Seq<usize> {
    v.map_values(|i: Id| i.addr)
}

/// An open deferred-release scope. It is neither `Copy` nor `Clone`: closing
/// it consumes it.
pub struct Scope {
    depth: usize,
}

impl Scope {
    /// How many scopes were open around this one.
    pub closed spec fn depth(&self) -> nat {
        self.depth as nat
    }
}

pub struct Runtime {
    classes: Vec<Class>,
    owned: Vec<u64>,
    items: Vec<Vec<usize>>,
    log: Vec<usize>,
    deferred: Vec<usize>,
    marks: Vec<usize>,
    empty: Option<usize>,
}

impl Runtime {
    pub closed spec fn classes(&self) -> Seq<Class> {
        self.classes@
    }

    /// Retain counts held by owned references (not by scopes or collections).
    pub closed spec fn owned(&self) -> Seq<u64> {
        self.owned@
    }

    /// The handles held by each object (empty for an object that is no collection).
    pub closed spec fn items(&self) -> Seq<Seq<usize>> {
        self.items@.map_values(|v: Vec<usize>| v@)
    }

    /// Every release call issued so far, oldest first.
    pub closed spec fn log(&self) -> Seq<usize> {
        self.log@
    }

    /// Handles whose release waits for the exit of a scope, in order of deferral.
    pub closed spec fn deferred(&self) -> Seq<usize> {
        self.deferred@
    }

    /// Where each open scope starts in `deferred`, outermost first.
    pub closed spec fn marks(&self) -> Seq<usize> {
        self.marks@
    }

    /// The shared empty immutable array, once one was made.
    pub closed spec fn empty_array(&self) -> Option<usize> {
        self.empty
    }

    pub open spec fn elems(&self, a: Id) -> Seq<usize> {
        self.items()[a.addr as int]
    }

    pub open spec fn len(&self) -> nat {
        self.classes().len()
    }

    pub open spec fn valid(&self, h: Id) -> bool {
        h.addr < self.len()
    }

    /// The retain count of a handle: owned references, pending deferred
    /// releases and collections that hold it.
    pub open spec fn retain_count(&self, h: Id) -> nat {
        self.owned()[h.addr as int] as nat + occ(self.deferred(), h.addr) + held(self.items(), h.addr)
    }

    /// Object equality: the same object, or two numbers of the same value.
    pub open spec fn equal(&self, a: usize, b: usize) -> bool {
        same_object(self.classes(), a, b)
    }

    /// The number of release calls issued on a handle.
    pub open spec fn releases(&self, h: Id) -> nat {
        occ(self.log(), h.addr)
    }

    /// The element at position `i` of the collection `a`, as a handle.
    pub open spec fn item(&self, a: Id, i: int) -> Id {
        Id { addr: self.items()[a.addr as int][i] }
    }

    pub open spec fn scope_depth(&self) -> nat {
        self.marks().len()
    }

    /// Well-formedness: one count and one element list per object, and the
    /// inner invariant.
    pub open spec fn wf(&self) -> bool {
        &&& self.owned().len() == self.len()
        &&& self.items().len() == self.len()
        &&& self.inv()
    }

    pub closed spec fn inv(&self) -> bool {
        &&& self.owned@.len() == self.classes@.len()
        &&& self.items@.len() == self.classes@.len()
        &&& forall|i: int| 0 <= i < self.marks@.len() ==> self.marks@[i] <= self.deferred@.len()
        &&& forall|i: int, j: int|
            0 <= i <= j < self.marks@.len() ==> self.marks@[i] <= self.marks@[j]
        &&& forall|a: int, j: int|
            0 <= a < self.items@.len() && 0 <= j < self.items@[a]@.len() ==> #[trigger] self.items@[a]@[j]
                < self.classes@.len()
        &&& forall|j: int| 0 <= j < self.deferred@.len() ==> #[trigger] self.deferred@[j] < self.classes@.len()
    }

    pub fn new() -> (r: Runtime)
        ensures
            r.wf(),
            r.len() == 0,
            r.log().len() == 0,
            r.deferred().len() == 0,
            r.scope_depth() == 0,
            r.empty_array() is None,
    {
        Runtime {
            classes: Vec::new(),
            owned: Vec::new(),
            items: Vec::new(),
            log: Vec::new(),
            deferred: Vec::new(),
            marks: Vec::new(),
            empty: None,
        }
    }

    /// The runtime after one retain of `h` from `prev`.
    pub open spec fn after_retain(&self, prev: &Runtime, h: Id) -> bool {
        &&& self.wf()
        &&& self.owned() == prev.owned().update(h.addr as int, (prev.owned()[h.addr as int] + 1) as u64)
        &&& self.classes() == prev.classes()
        &&& self.items() == prev.items()
        &&& self.log() == prev.log()
        &&& self.deferred() == prev.deferred()
        &&& self.marks() == prev.marks()
        &&& self.empty_array() == prev.empty_array()
    }

    /// The runtime after one release of an owned count on `h` from `prev`:
    /// exactly one release call, on `h`.
    pub open spec fn after_release(&self, prev: &Runtime, h: Id) -> bool {
        &&& self.wf()
        &&& self.owned() == prev.owned().update(h.addr as int, (prev.owned()[h.addr as int] - 1) as u64)
        &&& self.log() == prev.log().push(h.addr)
        &&& self.classes() == prev.classes()
        &&& self.items() == prev.items()
        &&& self.deferred() == prev.deferred()
        &&& self.marks() == prev.marks()
        &&& self.empty_array() == prev.empty_array()
    }

    /// The runtime after an owned count on `h` moved to the innermost scope.
    pub open spec fn after_autorelease(&self, prev: &Runtime, h: Id) -> bool {
        &&& self.wf()
        &&& self.owned() == prev.owned().update(h.addr as int, (prev.owned()[h.addr as int] - 1) as u64)
        &&& self.deferred() == prev.deferred().push(h.addr)
        &&& self.log() == prev.log()
        &&& self.classes() == prev.classes()
        &&& self.items() == prev.items()
        &&& self.marks() == prev.marks()
        &&& self.empty_array() == prev.empty_array()
    }

    /// The handles deferred to the innermost scope.
    pub open spec fn top_scope(&self) -> Seq<usize> {
        self.deferred().subrange(self.marks().last() as int, self.deferred().len() as int)
    }

    /// The runtime after the exit of the innermost scope of `prev`: each
    /// handle deferred to it is released once per deferral, in some order,
    /// and nothing else.
    pub open spec fn after_pop(&self, prev: &Runtime) -> bool {
        &&& self.wf()
        &&& self.marks() == prev.marks().drop_last()
        &&& self.deferred() == prev.deferred().subrange(0, prev.marks().last() as int)
        &&& self.log().subrange(0, prev.log().len() as int) == prev.log()
        &&& self.log().len() == prev.log().len() + prev.top_scope().len()
        &&& forall|x: usize| occ(#[trigger] self.log(), x) == occ(prev.log(), x) + occ(prev.top_scope(), x)
        &&& self.same_heap(prev)
    }

    /// The state is as before, but for the fields that an operation names.
    pub open spec fn same_heap(&self, other: &Runtime) -> bool {
        &&& self.classes() == other.classes()
        &&& self.owned() == other.owned()
        &&& self.items() == other.items()
        &&& self.empty_array() == other.empty_array()
    }

    /// Makes a new object of class `class`, retained once by the owned
    /// reference that comes back (what a binding constructor hands out).
    pub fn create<T: Obj>(&mut self, class: Class) -> (r: R<T>)
        requires
            old(self).wf(),
        ensures
            final(self).wf(),
            r.handle().addr == old(self).len(),
            final(self).classes() == old(self).classes().push(class),
            final(self).owned() == old(self).owned().push(1),
            final(self).items() == old(self).items().push(Seq::empty()),
            final(self).log() == old(self).log(),
            final(self).deferred() == old(self).deferred(),
            final(self).marks() == old(self).marks(),
            final(self).empty_array() == old(self).empty_array(),
    {
        let addr = self.classes.len();
        self.classes.push(class);
        self.owned.push(1);
        self.items.push(Vec::new());
        proof {
            assert(self.items() =~= old(self).items().push(Seq::empty()));
        }
        R::adopt(T::with_id(Id { addr }))
    }

    /// Retains the object behind a borrowed view and returns a new owned
    /// reference for that count. This is also how a borrowed reference is
    /// promoted past the scope that produced it.
    pub fn retain<T: Obj>(&mut self, obj: &T) -> (r: R<T>)
        requires
            old(self).wf(),
            old(self).valid(obj.handle()),
            old(self).owned()[obj.handle().addr as int] < u64::MAX,
        ensures
            r.handle() == obj.handle(),
            final(self).after_retain(old(self), obj.handle()),
    {
        let id = obj.id();
        let n = self.owned[id.addr];
        self.owned.set(id.addr, n + 1);
        R::adopt(T::with_id(id))
    }

    /// Gives back the count of an owned reference: exactly one release call.
    /// The reference is consumed, so it cannot be released twice.
    pub fn release<T: Obj>(&mut self, r: R<T>)
        requires
            old(self).wf(),
            old(self).valid(r.handle()),
            old(self).owned()[r.handle().addr as int] > 0,
        ensures
            final(self).after_release(old(self), r.handle()),
    {
        let id = r.id();
        let n = self.owned[id.addr];
        self.owned.set(id.addr, n - 1);
        self.log.push(id.addr);
    }

    /// Opens a deferred-release scope nested in the current one.
    pub fn push_scope(&mut self)
        requires
            old(self).wf(),
        ensures
            final(self).wf(),
            final(self).marks() == old(self).marks().push(old(self).deferred().len() as usize),
            final(self).same_heap(old(self)),
            final(self).log() == old(self).log(),
            final(self).deferred() == old(self).deferred(),
    {
        let n = self.deferred.len();
        self.marks.push(n);
    }

    /// Where the deferred handles of the scopes from depth `k` on start (the
    /// list's end when no scope is that deep).
    pub open spec fn exit_pos(&self, k: nat) -> int {
        if k >= self.scope_depth() {
            self.deferred().len() as int
        } else {
            self.marks()[k as int] as int
        }
    }

    /// Opens a scope nested in the current one.
    pub fn open_scope(&mut self) -> (s: Scope)
        requires
            old(self).wf(),
        ensures
            s.depth() == old(self).scope_depth(),
            final(self).wf(),
            final(self).marks() == old(self).marks().push(old(self).deferred().len() as usize),
            final(self).same_heap(old(self)),
            final(self).log() == old(self).log(),
            final(self).deferred() == old(self).deferred(),
    {
        let depth = self.marks.len();
        self.push_scope();
        Scope { depth }
    }

    /// Closes `s` and every scope opened inside it that is still open,
    /// innermost first: each handle deferred to them is released once per
    /// deferral; what outer scopes hold stays.
    pub fn close_scope(&mut self, s: Scope)
        requires
            old(self).wf(),
            s.depth() < old(self).scope_depth(),
        ensures
            final(self).wf(),
            final(self).marks() == old(self).marks().subrange(0, s.depth() as int),
            final(self).deferred() == old(self).deferred().subrange(0, old(self).exit_pos(s.depth())),
            forall|x: usize|
                occ(#[trigger] final(self).log(), x) == occ(old(self).log(), x) + occ(
                    old(self).deferred().subrange(
                        old(self).exit_pos(s.depth()),
                        old(self).deferred().len() as int,
                    ),
                    x,
                ),
            final(self).same_heap(old(self)),
    {
        let ghost start = *self;
        let ghost dl = start.deferred().len() as int;
        proof {
            assert(start.marks().subrange(0, start.scope_depth() as int) =~= start.marks());
            assert(start.deferred().subrange(0, dl) =~= start.deferred());
            assert(start.deferred().subrange(dl, dl) =~= Seq::<usize>::empty());
        }
        while self.marks.len() > s.depth
            invariant
                self.wf(),
                start.wf(),
                dl == start.deferred().len(),
                s.depth() < start.scope_depth(),
                s.depth() <= self.scope_depth() <= start.scope_depth(),
                self.marks() == start.marks().subrange(0, self.scope_depth() as int),
                self.deferred() == start.deferred().subrange(0, start.exit_pos(self.scope_depth())),
                forall|x: usize|
                    occ(#[trigger] self.log(), x) == occ(start.log(), x) + occ(
                        start.deferred().subrange(start.exit_pos(self.scope_depth()), dl),
                        x,
                    ),
                self.same_heap(&start),
            decreases self.scope_depth(),
        {
            let ghost before = *self;
            let ghost k = self.scope_depth();
            self.pop_scope();
            proof {
                let lo = start.exit_pos((k - 1) as nat);
                let hi = start.exit_pos(k);
                assert(lo == start.marks()[k - 1]);
                assert(start.marks@[k - 1] <= start.deferred@.len());
                assert(lo <= dl);
                if k < start.scope_depth() {
                    assert(start.marks@[k - 1] <= start.marks@[k as int]);
                    assert(start.marks@[k as int] <= start.deferred@.len());
                    assert(hi == start.marks@[k as int]);
                } else {
                    assert(hi == dl);
                }
                assert(lo <= hi <= dl);
                assert(before.marks().last() == lo);
                assert(before.top_scope() =~= start.deferred().subrange(lo, hi));
                assert(self.marks() =~= start.marks().subrange(0, k - 1));
                assert(self.deferred() =~= start.deferred().subrange(0, lo));
                assert forall|x: usize|
                    occ(#[trigger] self.log(), x) == occ(start.log(), x) + occ(
                        start.deferred().subrange(lo, dl),
                        x,
                    ) by {
                    let tail = start.deferred().subrange(lo, dl);
                    lemma_occ_split(tail, hi - lo, x);
                    assert(tail.subrange(0, hi - lo) =~= start.deferred().subrange(lo, hi));
                    assert(tail.subrange(hi - lo, tail.len() as int) =~= start.deferred().subrange(hi, dl));
                }
            }
        }
    }

    /// Hands an owned reference to the innermost scope and returns a borrowed
    /// view of it. Its release waits for that scope's exit.
    pub fn autorelease<T: Obj>(&mut self, r: R<T>) -> (b: T)
        requires
            old(self).wf(),
            old(self).scope_depth() > 0,
            old(self).valid(r.handle()),
            old(self).owned()[r.handle().addr as int] > 0,
        ensures
            b == r@,
            final(self).after_autorelease(old(self), r.handle()),
    {
        let id = r.id();
        let n = self.owned[id.addr];
        self.owned.set(id.addr, n - 1);
        self.deferred.push(id.addr);
        r.into_inner()
    }

    /// Closes the innermost scope: every handle deferred to it is released
    /// once for each time it was deferred; what outer scopes hold stays.
    pub fn pop_scope(&mut self)
        requires
            old(self).wf(),
            old(self).scope_depth() > 0,
        ensures
            final(self).after_pop(old(self)),
    {
        let mark = self.marks.pop().unwrap();
        proof {
            assert(old(self).marks@.last() == mark);
        }
        while self.deferred.len() > mark
            invariant
                mark <= self.deferred@.len() <= old(self).deferred@.len(),
                mark == old(self).marks@.last(),
                self.marks@ == old(self).marks@.drop_last(),
                self.deferred@ == old(self).deferred@.subrange(0, self.deferred@.len() as int),
                self.log@.subrange(0, old(self).log@.len() as int) == old(self).log@,
                self.log@.len() == old(self).log@.len() + old(self).deferred@.len()
                    - self.deferred@.len(),
                forall|x: usize|
                    occ(#[trigger] self.log@, x) == occ(old(self).log@, x) + occ(
                        old(self).deferred@.subrange(
                            self.deferred@.len() as int,
                            old(self).deferred@.len() as int,
                        ),
                        x,
                    ),
                self.classes@ == old(self).classes@,
                self.owned@ == old(self).owned@,
                self.items@ == old(self).items@,
                self.empty == old(self).empty,
            decreases self.deferred@.len(),
        {
            let ghost prev_log = self.log@;
            let ghost prev_len = self.deferred@.len();
            let h = self.deferred.pop().unwrap();
            self.log.push(h);
            proof {
                let d = old(self).deferred@;
                let k = self.deferred@.len() as int;
                assert(d[k] == h);
                assert(d.subrange(k, d.len() as int) =~= seq![h] + d.subrange(
                    prev_len as int,
                    d.len() as int,
                ));
                assert forall|x: usize| occ(#[trigger] self.log@, x) == occ(old(self).log@, x) + occ(
                    d.subrange(k, d.len() as int),
                    x,
                ) by {
                    lemma_occ_push(prev_log, h, x);
                    lemma_occ_append(seq![h], d.subrange(prev_len as int, d.len() as int), x);
                    lemma_occ_push(Seq::empty(), h, x);
                    assert(Seq::<usize>::empty().push(h) =~= seq![h]);
                }
                assert(self.log@.subrange(0, old(self).log@.len() as int) =~= prev_log.subrange(
                    0,
                    old(self).log@.len() as int,
                ));
            }
        }
        proof {
            assert(self.deferred@ =~= old(self).deferred@.subrange(0, mark as int));
            assert forall|i: int| 0 <= i < self.marks@.len() implies self.marks@[i]
                <= self.deferred@.len() by {
                assert(old(self).marks@[i] <= old(self).marks@[old(self).marks@.len() - 1]);
            }
        }
    }

    /// Makes a new collection object of class `class` holding `elems` in
    /// order. The collection takes its own count on each element; the caller
    /// keeps whatever it owned.
    pub fn create_collection<T: Obj>(&mut self, class: Class, elems: &[Id]) -> (r: R<T>)
        requires
            old(self).wf(),
            forall|i: int| 0 <= i < elems@.len() ==> old(self).valid(#[trigger] elems@[i]),
        ensures
            final(self).wf(),
            r.handle().addr == old(self).len(),
            final(self).classes() == old(self).classes().push(class),
            final(self).owned() == old(self).owned().push(1),
            final(self).items() == old(self).items().push(addrs(elems@)),
            final(self).log() == old(self).log(),
            final(self).deferred() == old(self).deferred(),
            final(self).marks() == old(self).marks(),
            final(self).empty_array() == old(self).empty_array(),
    {
        let mut held: Vec<usize> = Vec::new();
        let mut i: usize = 0;
        while i < elems.len()
            invariant
                i <= elems@.len(),
                held@ == addrs(elems@).subrange(0, i as int),
            decreases elems@.len() - i,
        {
            held.push(elems[i].addr);
            i = i + 1;
            proof {
                assert(held@ =~= addrs(elems@).subrange(0, i as int));
            }
        }
        proof {
            assert(held@ =~= addrs(elems@));
        }
        let addr = self.classes.len();
        self.classes.push(class);
        self.owned.push(1);
        self.items.push(held);
        proof {
            assert(self.items() =~= old(self).items().push(addrs(elems@)));
            assert forall|a: int, j: int|
                0 <= a < self.items@.len() && 0 <= j < self.items@[a]@.len() implies #[trigger] self.items@[a]@[j]
                < self.classes@.len() by {
                if a < old(self).items@.len() {
                    assert(self.items@[a] == old(self).items@[a]);
                } else {
                    assert(self.items@[a]@[j] == elems@[j].addr);
                }
            }
        }
        R::adopt(T::with_id(Id { addr }))
    }

    pub fn collection_len(&self, a: Id) -> (r: usize)
        requires
            self.wf(),
            self.valid(a),
        ensures
            r == self.items()[a.addr as int].len(),
    {
        self.items[a.addr].len()
    }

    /// The element at `i`, as a borrowed handle. There is no answer out of range.
    pub fn collection_at(&self, a: Id, i: usize) -> (r: Id)
        requires
            self.wf(),
            self.valid(a),
            i < self.items()[a.addr as int].len(),
        ensures
            r == self.item(a, i as int),
            self.valid(r),
    {
        Id { addr: self.items[a.addr][i] }
    }

    /// Whether two objects are equal: the same object, or two numbers of
    /// the same value.
    pub fn equal_exec(&self, a: Id, b: Id) -> (r: bool)
        requires
            self.wf(),
            self.valid(a),
            self.valid(b),
        ensures
            r == self.equal(a.addr, b.addr),
    {
        if a.addr == b.addr {
            return true;
        }
        match (self.classes[a.addr], self.classes[b.addr]) {
            (Class::Number(v), Class::Number(w)) => v == w,
            _ => false,
        }
    }

    /// Whether the collection `a` holds an element equal to `x`.
    pub fn collection_contains(&self, a: Id, x: Id) -> (r: bool)
        requires
            self.wf(),
            self.valid(a),
            self.valid(x),
        ensures
            r == exists|i: int|
                0 <= i < self.elems(a).len() && #[trigger] self.equal(self.elems(a)[i], x.addr),
    {
        let v = &self.items[a.addr];
        proof {
            assert(self.items()[a.addr as int] == v@);
        }
        let mut i: usize = 0;
        while i < v.len()
            invariant
                self.wf(),
                self.valid(a),
                self.valid(x),
                i <= v@.len(),
                v@ == self.elems(a),
                forall|j: int| 0 <= j < i ==> !#[trigger] self.equal(v@[j], x.addr),
            decreases v@.len() - i,
        {
            if self.equal_exec(Id { addr: v[i] }, x) {
                return true;
            }
            i = i + 1;
        }
        false
    }

    /// Appends `x`; the collection takes a count on it.
    pub fn collection_push(&mut self, a: Id, x: Id)
        requires
            old(self).wf(),
            old(self).valid(a),
            old(self).valid(x),
        ensures
            final(self).wf(),
            final(self).items() == old(self).items().update(
                a.addr as int,
                old(self).items()[a.addr as int].push(x.addr),
            ),
            final(self).classes() == old(self).classes(),
            final(self).owned() == old(self).owned(),
            final(self).log() == old(self).log(),
            final(self).deferred() == old(self).deferred(),
            final(self).marks() == old(self).marks(),
            final(self).empty_array() == old(self).empty_array(),
    {
        self.items[a.addr].push(x.addr);
        proof {
            assert(self.items() =~= old(self).items().update(
                a.addr as int,
                old(self).items()[a.addr as int].push(x.addr),
            ));
            assert forall|b: int, j: int|
                0 <= b < self.items@.len() && 0 <= j < self.items@[b]@.len() implies #[trigger] self.items@[b]@[j]
                < self.classes@.len() by {
                if b != a.addr {
                    assert(self.items@[b] == old(self).items@[b]);
                } else if j < old(self).items@[b]@.len() {
                    assert(self.items@[b]@[j] == old(self).items@[b]@[j]);
                }
            }
        }
    }

    /// Puts `x` at position `i`, moving the later elements up; the
    /// collection takes a count on it.
    pub fn collection_insert(&mut self, a: Id, i: usize, x: Id)
        requires
            old(self).wf(),
            old(self).valid(a),
            old(self).valid(x),
            i <= old(self).elems(a).len(),
        ensures
            final(self).wf(),
            final(self).items() == old(self).items().update(
                a.addr as int,
                old(self).elems(a).insert(i as int, x.addr),
            ),
            final(self).classes() == old(self).classes(),
            final(self).owned() == old(self).owned(),
            final(self).log() == old(self).log(),
            final(self).deferred() == old(self).deferred(),
            final(self).marks() == old(self).marks(),
            final(self).empty_array() == old(self).empty_array(),
    {
        self.items[a.addr].insert(i, x.addr);
        proof {
            assert(self.items() =~= old(self).items().update(
                a.addr as int,
                old(self).elems(a).insert(i as int, x.addr),
            ));
            assert forall|b: int, j: int|
                0 <= b < self.items@.len() && 0 <= j < self.items@[b]@.len() implies #[trigger] self.items@[b]@[j]
                < self.classes@.len() by {
                if b != a.addr {
                    assert(self.items@[b] == old(self).items@[b]);
                } else if j < i {
                    assert(self.items@[b]@[j] == old(self).items@[b]@[j]);
                } else if j > i {
                    assert(self.items@[b]@[j] == old(self).items@[b]@[j - 1]);
                }
            }
        }
    }

    /// Removes the element at `i`; the collection releases its count on it
    /// with exactly one release call.
    pub fn collection_remove(&mut self, a: Id, i: usize)
        requires
            old(self).wf(),
            old(self).valid(a),
            i < old(self).items()[a.addr as int].len(),
        ensures
            final(self).wf(),
            final(self).items() == old(self).items().update(
                a.addr as int,
                old(self).items()[a.addr as int].remove(i as int),
            ),
            final(self).log() == old(self).log().push(old(self).items()[a.addr as int][i as int]),
            final(self).classes() == old(self).classes(),
            final(self).owned() == old(self).owned(),
            final(self).deferred() == old(self).deferred(),
            final(self).marks() == old(self).marks(),
            final(self).empty_array() == old(self).empty_array(),
    {
        let x = self.items[a.addr].remove(i);
        self.log.push(x);
        proof {
            assert(self.items() =~= old(self).items().update(
                a.addr as int,
                old(self).items()[a.addr as int].remove(i as int),
            ));
            assert forall|b: int, j: int|
                0 <= b < self.items@.len() && 0 <= j < self.items@[b]@.len() implies #[trigger] self.items@[b]@[j]
                < self.classes@.len() by {
                if b != a.addr {
                    assert(self.items@[b] == old(self).items@[b]);
                } else if j < i {
                    assert(self.items@[b]@[j] == old(self).items@[b]@[j]);
                } else {
                    assert(self.items@[b]@[j] == old(self).items@[b]@[j + 1]);
                }
            }
        }
    }

    /// Removes every element; each count the collection held is released
    /// once, in the collection's order.
    pub fn collection_clear(&mut self, a: Id)
        requires
            old(self).wf(),
            old(self).valid(a),
        ensures
            final(self).wf(),
            final(self).items() == old(self).items().update(a.addr as int, Seq::empty()),
            final(self).log() == old(self).log() + old(self).items()[a.addr as int],
            final(self).classes() == old(self).classes(),
            final(self).owned() == old(self).owned(),
            final(self).deferred() == old(self).deferred(),
            final(self).marks() == old(self).marks(),
            final(self).empty_array() == old(self).empty_array(),
    {
        let n = self.items[a.addr].len();
        let mut i: usize = 0;
        while i < n
            invariant
                self.wf(),
                i <= n == old(self).items()[a.addr as int].len(),
                a.addr < self.items@.len(),
                self.items@ == old(self).items@,
                self.classes@ == old(self).classes@,
                self.owned@ == old(self).owned@,
                self.deferred@ == old(self).deferred@,
                self.marks@ == old(self).marks@,
                self.empty == old(self).empty,
                self.log@ == old(self).log@ + old(self).items()[a.addr as int].subrange(0, i as int),
            decreases n - i,
        {
            let x = self.items[a.addr][i];
            self.log.push(x);
            i = i + 1;
            proof {
                assert(self.log@ =~= old(self).log@ + old(self).items()[a.addr as int].subrange(
                    0,
                    i as int,
                ));
            }
        }
        self.items[a.addr].clear();
        proof {
            assert(old(self).items()[a.addr as int].subrange(0, n as int)
                =~= old(self).items()[a.addr as int]);
            assert(self.items() =~= old(self).items().update(a.addr as int, Seq::empty()));
            assert forall|b: int, j: int|
                0 <= b < self.items@.len() && 0 <= j < self.items@[b]@.len() implies #[trigger] self.items@[b]@[j]
                < self.classes@.len() by {
                assert(b != a.addr);
                assert(self.items@[b] == old(self).items@[b]);
            }
        }
    }

    /// The number of objects ever made.
    pub fn len_exec(&self) -> (r: usize)
        requires
            self.wf(),
        ensures
            r == self.len(),
    {
        self.classes.len()
    }

    pub fn class_of(&self, h: Id) -> (r: Class)
        requires
            self.wf(),
            self.valid(h),
        ensures
            r == self.classes()[h.addr as int],
    {
        self.classes[h.addr]
    }

    pub fn owned_of(&self, h: Id) -> (r: u64)
        requires
            self.wf(),
            self.valid(h),
        ensures
            r == self.owned()[h.addr as int],
    {
        self.owned[h.addr]
    }

    /// The handles a collection holds, in order, as borrowed handles.
    pub fn collection_ids(&self, a: Id) -> (r: Vec<Id>)
        requires
            self.wf(),
            self.valid(a),
        ensures
            addrs(r@) == self.elems(a),
            forall|i: int| 0 <= i < r@.len() ==> self.valid(#[trigger] r@[i]),
    {
        let n = self.items[a.addr].len();
        let mut r: Vec<Id> = Vec::new();
        let mut i: usize = 0;
        while i < n
            invariant
                self.wf(),
                self.valid(a),
                i <= n == self.elems(a).len(),
                addrs(r@) == self.elems(a).subrange(0, i as int),
                forall|j: int| 0 <= j < r@.len() ==> self.valid(#[trigger] r@[j]),
            decreases n - i,
        {
            let x = self.collection_at(a, i);
            let ghost prev = r@;
            r.push(x);
            proof {
                assert(addrs(r@) =~= addrs(prev).push(x.addr));
                assert(self.elems(a).subrange(0, i + 1) =~= self.elems(a).subrange(0, i as int).push(
                    x.addr,
                ));
            }
            i = i + 1;
        }
        proof {
            assert(self.elems(a).subrange(0, n as int) =~= self.elems(a));
        }
        r
    }

    pub(crate) fn empty_slot(&self) -> (r: Option<usize>)
        ensures
            r == self.empty_array(),
    {
        self.empty
    }

    pub(crate) fn set_empty_slot(&mut self, h: usize)
        requires
            old(self).wf(),
        ensures
            final(self).empty_array() == Some(h),
            final(self).classes() == old(self).classes(),
            final(self).owned() == old(self).owned(),
            final(self).items() == old(self).items(),
            final(self).log() == old(self).log(),
            final(self).deferred() == old(self).deferred(),
            final(self).marks() == old(self).marks(),
            final(self).wf(),
    {
        self.empty = Some(h);
    }

    /// How many release calls were issued on `h` so far.
    pub fn releases_of(&self, h: Id) -> (r: usize)
        ensures
            r == self.releases(h),
    {
        let mut n: usize = 0;
        let mut i: usize = 0;
        while i < self.log.len()
            invariant
                i <= self.log@.len(),
                n == occ(self.log@.subrange(0, i as int), h.addr),
                n <= i,
            decreases self.log@.len() - i,
        {
            proof {
                assert(self.log@.subrange(0, i + 1).drop_last() =~= self.log@.subrange(0, i as int));
            }
            if self.log[i] == h.addr {
                n = n + 1;
            }
            i = i + 1;
        }
        proof {
            assert(self.log@.subrange(0, i as int) =~= self.log@);
        }
        n
    }

    /// How many deferred-release scopes are open.
    pub fn depth(&self) -> (r: usize)
        ensures
            r == self.scope_depth(),
    {
        self.marks.len()
    }

    /// Puts `x` at position `i` of the collection `a`: the collection takes a
    /// count on `x` and releases, with exactly one release call, the count it
    /// held on the element it replaces.
    pub fn collection_set(&mut self, a: Id, i: usize, x: Id)
        requires
            old(self).wf(),
            old(self).valid(a),
            old(self).valid(x),
            i < old(self).elems(a).len(),
        ensures
            final(self).wf(),
            final(self).items() == old(self).items().update(
                a.addr as int,
                old(self).elems(a).update(i as int, x.addr),
            ),
            final(self).log() == old(self).log().push(old(self).elems(a)[i as int]),
            final(self).classes() == old(self).classes(),
            final(self).owned() == old(self).owned(),
            final(self).deferred() == old(self).deferred(),
            final(self).marks() == old(self).marks(),
            final(self).empty_array() == old(self).empty_array(),
    {
        let prev = self.items[a.addr][i];
        self.items[a.addr].set(i, x.addr);
        self.log.push(prev);
        proof {
            assert(self.items() =~= old(self).items().update(
                a.addr as int,
                old(self).elems(a).update(i as int, x.addr),
            ));
            assert forall|b: int, j: int|
                0 <= b < self.items@.len() && 0 <= j < self.items@[b]@.len() implies #[trigger] self.items@[b]@[j]
                < self.classes@.len() by {
                if b != a.addr {
                    assert(self.items@[b] == old(self).items@[b]);
                } else if j != i {
                    assert(self.items@[b]@[j] == old(self).items@[b]@[j]);
                }
            }
        }
    }

    /// Makes a collection object holding the handles at `held`, in order.
    pub(crate) fn create_from_addrs<T: Obj>(&mut self, class: Class, held: Vec<usize>) -> (r: R<T>)
        requires
            old(self).wf(),
            forall|i: int| 0 <= i < held@.len() ==> #[trigger] held@[i] < old(self).len(),
        ensures
            final(self).wf(),
            r.handle().addr == old(self).len(),
            final(self).classes() == old(self).classes().push(class),
            final(self).owned() == old(self).owned().push(1),
            final(self).items() == old(self).items().push(held@),
            final(self).log() == old(self).log(),
            final(self).deferred() == old(self).deferred(),
            final(self).marks() == old(self).marks(),
            final(self).empty_array() == old(self).empty_array(),
    {
        let ghost h = held@;
        let addr = self.classes.len();
        self.classes.push(class);
        self.owned.push(1);
        self.items.push(held);
        proof {
            assert(self.items() =~= old(self).items().push(h));
            assert forall|a: int, j: int|
                0 <= a < self.items@.len() && 0 <= j < self.items@[a]@.len() implies #[trigger] self.items@[a]@[j]
                < self.classes@.len() by {
                if a < old(self).items@.len() {
                    assert(self.items@[a] == old(self).items@[a]);
                } else {
                    assert(self.items@[a]@[j] == h[j]);
                }
            }
        }
        R::adopt(T::with_id(Id { addr }))
    }

    /// The handles a collection holds, as addresses.
    pub(crate) fn elems_ref(&self, a: Id) -> (r: &Vec<usize>)
        requires
            self.wf(),
            self.valid(a),
        ensures
            r@ == self.elems(a),
            forall|i: int| 0 <= i < r@.len() ==> #[trigger] r@[i] < self.len(),
    {
        &self.items[a.addr]
    }
}

/// Where the outermost of the `n` innermost scopes of `rt` starts in its
/// deferred list (the list's end when `n` is zero).
pub open spec fn exit_mark(rt: Runtime, n: nat) -> int {
    if n == 0 {
        rt.deferred().len() as int
    } else {
        rt.marks()[rt.scope_depth() - n] as int
    }
}

/// An owned reference costs exactly one release call: from the state before a
/// retain of `h` to the state after the release of the reference it gave, the
/// log has gained one entry, on `h`, no other handle was released, and `h`'s
/// retain count is where it was.
pub proof fn lemma_one_release(a: Runtime, b: Runtime, c: Runtime, h: Id)
    requires
        a.wf(),
        a.valid(h),
        a.owned()[h.addr as int] < u64::MAX,
        b.after_retain(&a, h),
        c.after_release(&b, h),
    ensures
        c.log() == a.log().push(h.addr),
        c.releases(h) == a.releases(h) + 1,
        forall|g: Id| g != h ==> #[trigger] c.releases(g) == a.releases(g),
        c.retain_count(h) == a.retain_count(h),
        c.owned() == a.owned(),
{
    lemma_occ_push(a.log(), h.addr, h.addr);
    assert forall|g: Id| g != h implies #[trigger] c.releases(g) == a.releases(g) by {
        lemma_occ_push(a.log(), h.addr, g.addr);
    }
    assert(c.owned() =~= a.owned());
}

/// Leaving `n` nested scopes, innermost first, releases every handle deferred
/// anywhere in them once per deferral, and releases nothing deferred to a
/// scope further out: those stay deferred. With `n` the whole depth, every
/// deferred handle is released exactly once.
pub proof fn lemma_nested_exit(states: Seq<Runtime>)
    requires
        states.len() >= 1,
        states[0].wf(),
        states.len() - 1 <= states[0].scope_depth(),
        forall|i: int| 0 < i < states.len() ==> #[trigger] states[i].after_pop(&states[i - 1]),
    ensures
        ({
            let first = states[0];
            let last = states.last();
            let n = (states.len() - 1) as nat;
            let m = exit_mark(first, n);
            &&& last.marks() == first.marks().subrange(0, first.scope_depth() - n)
            &&& last.deferred() == first.deferred().subrange(0, m)
            &&& last.same_heap(&first)
            &&& forall|x: usize|
                occ(#[trigger] last.log(), x) == occ(first.log(), x) + occ(
                    first.deferred().subrange(m, first.deferred().len() as int),
                    x,
                )
        }),
    decreases states.len(),
{
    let first = states[0];
    let n = (states.len() - 1) as nat;
    let d = first.scope_depth();
    if n == 0 {
        assert(first.marks().subrange(0, d as int) =~= first.marks());
        assert(first.deferred().subrange(0, first.deferred().len() as int) =~= first.deferred());
        assert forall|x: usize|
            occ(#[trigger] states.last().log(), x) == occ(first.log(), x) + occ(
                first.deferred().subrange(
                    first.deferred().len() as int,
                    first.deferred().len() as int,
                ),
                x,
            ) by {
            assert(first.deferred().subrange(
                first.deferred().len() as int,
                first.deferred().len() as int,
            ) =~= Seq::<usize>::empty());
        }
    } else {
        let prefix = states.drop_last();
        assert forall|i: int| 0 < i < prefix.len() implies #[trigger] prefix[i].after_pop(
            &prefix[i - 1],
        ) by {
            assert(prefix[i] == states[i]);
            assert(prefix[i - 1] == states[i - 1]);
        }
        lemma_nested_exit(prefix);
        let mid = prefix.last();
        let last = states.last();
        assert(last.after_pop(&states[states.len() - 2]));
        assert(mid == states[states.len() - 2]);
        let m1 = exit_mark(first, (n - 1) as nat);
        let m = exit_mark(first, n);
        let dl = first.deferred().len() as int;
        // the scope being left starts at m and ends at m1
        assert(mid.marks().last() == first.marks()[d - n]);
        assert(m <= m1 <= dl) by {
            if n > 1 {
                assert(first.marks()[d - n] <= first.marks()[d - n + 1]);
            }
        }
        assert(last.marks() =~= first.marks().subrange(0, d - n));
        assert(last.deferred() =~= first.deferred().subrange(0, m));
        assert(mid.top_scope() =~= first.deferred().subrange(m, m1));
        assert forall|x: usize|
            occ(#[trigger] last.log(), x) == occ(first.log(), x) + occ(
                first.deferred().subrange(m, dl),
                x,
            ) by {
            let tail = first.deferred().subrange(m, dl);
            lemma_occ_split(tail, m1 - m, x);
            assert(tail.subrange(0, m1 - m) =~= first.deferred().subrange(m, m1));
            assert(tail.subrange(m1 - m, tail.len() as int) =~= first.deferred().subrange(m1, dl));
        }
    }
}

/// An owned reference handed to the innermost scope is released exactly once
/// when that scope is left: the exit issues one release on `h` for this
/// deferral, besides those for what the scope held already; the owned count
/// that the reference stood for is gone, and outer scopes keep what they hold.
pub proof fn lemma_deferred_release(a: Runtime, b: Runtime, c: Runtime, h: Id)
    requires
        a.wf(),
        a.valid(h),
        a.scope_depth() > 0,
        a.owned()[h.addr as int] > 0,
        b.after_autorelease(&a, h),
        c.after_pop(&b),
    ensures
        c.releases(h) == a.releases(h) + occ(a.top_scope(), h.addr) + 1,
        c.deferred() == a.deferred().subrange(0, a.marks().last() as int),
        c.owned()[h.addr as int] == a.owned()[h.addr as int] - 1,
{
    let d = a.deferred();
    let m = a.marks().last() as int;
    assert(m <= d.len()) by {
        assert(a.marks@[a.marks@.len() - 1] <= a.deferred@.len());
    }
    assert(b.top_scope() =~= a.top_scope().push(h.addr));
    lemma_occ_push(a.top_scope(), h.addr, h.addr);
    assert(c.deferred() =~= d.subrange(0, m));
}

} // verus!

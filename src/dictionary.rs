//! Key-value collections of the runtime and their typed views. A dictionary
//! holds its pairs as alternating key and value handles; no two keys are
//! equal, where objects are equal when they are the same object or numbers of
//! the same value.
use vstd::prelude::*;
use core::marker::PhantomData;
use crate::arc::{Obj, R};
use crate::cf::{created, handles, Type};
use crate::ns;
use crate::runtime::{addrs, same_object, Class, Id, Runtime};

verus! {

/// The keys of an alternating key-value sequence, in order.
pub open spec fn keys_of(s: Seq<usize>) -> Seq<usize> {
    Seq::new(s.len() / 2, |i: int| s[2 * i])
}

/// The values of an alternating key-value sequence, in order.
pub open spec fn values_of(s: Seq<usize>) -> Seq<usize> {
    Seq::new(s.len() / 2, |i: int| s[2 * i + 1])
}

/// Whole pairs, no two keys equal (under the object equality that `cls`,
/// the classes of the objects, gives).
pub open spec fn is_dict(cls: Seq<Class>, s: Seq<usize>) -> bool {
    &&& s.len() % 2 == 0
    &&& forall|p: int, q: int|
        0 <= p < q < keys_of(s).len() ==> !same_object(cls, #[trigger] keys_of(s)[p], #[trigger] keys_of(s)[q])
}

/// Some key of `keys` is equal to `x`.
pub open spec fn has_equal(cls: Seq<Class>, keys: Seq<usize>, x: usize) -> bool {
    exists|i: int| 0 <= i < keys.len() && same_object(cls, #[trigger] keys[i], x)
}

/// The pair that the first key equal to `x` makes with its value, if any.
pub open spec fn first_pair(cls: Seq<Class>, keys: Seq<usize>, values: Seq<usize>, x: usize) -> Option<(usize, usize)>
    decreases keys.len(),
{
    if keys.len() == 0 {
        None
    } else {
        match first_pair(cls, keys.drop_last(), values, x) {
            Some(kv) => Some(kv),
            None => if same_object(cls, keys.last(), x) {
                Some((keys.last(), values[keys.len() - 1]))
            } else {
                None
            },
        }
    }
}

/// `s` holds one pair for each class of equal keys of `keys`: the first such
/// key with its value.
pub open spec fn built_from(cls: Seq<Class>, s: Seq<usize>, keys: Seq<usize>, values: Seq<usize>) -> bool {
    &&& is_dict(cls, s)
    &&& forall|j: int| 0 <= j < keys.len() ==> has_equal(cls, keys_of(s), #[trigger] keys[j])
    &&& forall|p: int|
        0 <= p < s.len() / 2 ==> first_pair(cls, keys, values, #[trigger] s[2 * p]) == Some((s[2 * p], s[2 * p + 1]))
}

proof fn lemma_first_pair_found(cls: Seq<Class>, keys: Seq<usize>, values: Seq<usize>, x: usize)
    requires
        first_pair(cls, keys, values, x) is Some,
    ensures
        ({
            let kv = first_pair(cls, keys, values, x)->0;
            exists|i: int| 0 <= i < keys.len() && #[trigger] keys[i] == kv.0 && same_object(cls, keys[i], x)
        }),
    decreases keys.len(),
{
    let kv = first_pair(cls, keys, values, x)->0;
    match first_pair(cls, keys.drop_last(), values, x) {
        Some(_) => {
            lemma_first_pair_found(cls, keys.drop_last(), values, x);
            let i = choose|i: int|
                0 <= i < keys.drop_last().len() && #[trigger] keys.drop_last()[i] == kv.0 && same_object(
                    cls,
                    keys.drop_last()[i],
                    x,
                );
            assert(keys[i] == kv.0);
        },
        None => {
            assert(keys[keys.len() - 1] == kv.0);
        },
    }
}

proof fn lemma_grow_keeps_dict(cls: Seq<Class>, c: Class, s: Seq<usize>)
    requires
        is_dict(cls, s),
        forall|i: int| 0 <= i < s.len() ==> #[trigger] s[i] < cls.len(),
    ensures
        is_dict(cls.push(c), s),
{
    assert forall|p: int, q: int| 0 <= p < q < keys_of(s).len() implies !same_object(
        cls.push(c),
        #[trigger] keys_of(s)[p],
        #[trigger] keys_of(s)[q],
    ) by {
        assert(!same_object(cls, keys_of(s)[p], keys_of(s)[q]));
        assert(s[2 * p] < cls.len());
        assert(s[2 * q] < cls.len());
    }
}

proof fn lemma_push_pair(s: Seq<usize>, k: usize, v: usize)
    requires
        s.len() % 2 == 0,
    ensures
        keys_of(s.push(k).push(v)) == keys_of(s).push(k),
        values_of(s.push(k).push(v)) == values_of(s).push(v),
{
    assert(keys_of(s.push(k).push(v)) =~= keys_of(s).push(k));
    assert(values_of(s.push(k).push(v)) =~= values_of(s).push(v));
}

proof fn lemma_set_value(s: Seq<usize>, p: int, v: usize)
    requires
        s.len() % 2 == 0,
        0 <= p < s.len() / 2,
    ensures
        keys_of(s.update(2 * p + 1, v)) == keys_of(s),
        values_of(s.update(2 * p + 1, v)) == values_of(s).update(p, v),
{
    assert(keys_of(s.update(2 * p + 1, v)) =~= keys_of(s));
    assert(values_of(s.update(2 * p + 1, v)) =~= values_of(s).update(p, v));
}

proof fn lemma_remove_pair(s: Seq<usize>, p: int)
    requires
        s.len() % 2 == 0,
        0 <= p < s.len() / 2,
    ensures
        keys_of(s.remove(2 * p).remove(2 * p)) == keys_of(s).remove(p),
        values_of(s.remove(2 * p).remove(2 * p)) == values_of(s).remove(p),
        s.remove(2 * p).remove(2 * p).len() % 2 == 0,
{
    let t = s.remove(2 * p).remove(2 * p);
    assert forall|i: int| 0 <= i < t.len() implies t[i] == if i < 2 * p {
        s[i]
    } else {
        s[i + 2]
    } by {}
    assert(keys_of(t) =~= keys_of(s).remove(p));
    assert(values_of(t) =~= values_of(s).remove(p));
}

/// Where the pair with a key equal to `k` stands, if there is one.
fn find_pair(rt: &Runtime, s: &Vec<usize>, k: usize) -> (r: Option<usize>)
    requires
        rt.wf(),
        k < rt.len(),
        s@.len() % 2 == 0,
        forall|i: int| 0 <= i < s@.len() ==> #[trigger] s@[i] < rt.len(),
    ensures
        r is None ==> forall|p: int| 0 <= p < keys_of(s@).len() ==> !rt.equal(#[trigger] keys_of(s@)[p], k),
        r matches Some(p) ==> p < s@.len() / 2 && rt.equal(keys_of(s@)[p as int], k),
{
    let n = s.len() / 2;
    let mut p: usize = 0;
    while p < n
        invariant
            rt.wf(),
            k < rt.len(),
            n == s@.len() / 2,
            s@.len() % 2 == 0,
            n * 2 == s@.len(),
            s@.len() <= usize::MAX,
            forall|i: int| 0 <= i < s@.len() ==> #[trigger] s@[i] < rt.len(),
            p <= n,
            forall|q: int| 0 <= q < p ==> !rt.equal(#[trigger] keys_of(s@)[q], k),
        decreases n - p,
    {
        proof {
            assert(2 * p < s@.len()) by (nonlinear_arith)
                requires
                    p < n,
                    n * 2 == s@.len(),
            ;
        }
        proof {
            assert(keys_of(s@)[p as int] == s@[2 * p]);
        }
        if rt.equal_exec(Id { addr: s[2 * p] }, Id { addr: k }) {
            return Some(p);
        }
        p = p + 1;
    }
    None
}

/// The pairs of `keys` and `values` as a dictionary: for each class of equal
/// keys, the first key with its value, in order of first appearance.
fn build_pairs(rt: &Runtime, keys: &Vec<usize>, values: &Vec<usize>) -> (r: Vec<usize>)
    requires
        rt.wf(),
        keys@.len() == values@.len(),
        forall|i: int| 0 <= i < keys@.len() ==> #[trigger] keys@[i] < rt.len(),
        forall|i: int| 0 <= i < values@.len() ==> #[trigger] values@[i] < rt.len(),
    ensures
        built_from(rt.classes(), r@, keys@, values@),
        forall|i: int| 0 <= i < r@.len() ==> #[trigger] r@[i] < rt.len(),
{
    let ghost cls = rt.classes();
    let mut r: Vec<usize> = Vec::new();
    let mut j: usize = 0;
    proof {
        assert(keys_of(r@) =~= Seq::<usize>::empty());
    }
    while j < keys.len()
        invariant
            rt.wf(),
            cls == rt.classes(),
            keys@.len() == values@.len(),
            forall|i: int| 0 <= i < keys@.len() ==> #[trigger] keys@[i] < rt.len(),
            forall|i: int| 0 <= i < values@.len() ==> #[trigger] values@[i] < rt.len(),
            j <= keys@.len(),
            built_from(cls, r@, keys@.subrange(0, j as int), values@),
            forall|i: int| 0 <= i < r@.len() ==> #[trigger] r@[i] < rt.len(),
        decreases keys@.len() - j,
    {
        let k = keys[j];
        let v = values[j];
        let ghost ks = keys@.subrange(0, j + 1);
        let ghost ks0 = keys@.subrange(0, j as int);
        let ghost prev = r@;
        proof {
            assert(ks.drop_last() =~= ks0);
            assert(ks.last() == k);
        }
        match find_pair(rt, &r, k) {
            Some(p) => {
                proof {
                    assert forall|i: int| 0 <= i < ks.len() implies has_equal(cls, keys_of(r@), #[trigger] ks[i]) by {
                        if i < j {
                            assert(ks[i] == ks0[i]);
                        } else {
                            assert(same_object(cls, keys_of(r@)[p as int], k));
                        }
                    }
                    assert forall|q: int| 0 <= q < r@.len() / 2 implies first_pair(cls, ks, values@, #[trigger] r@[2 * q])
                        == Some((r@[2 * q], r@[2 * q + 1])) by {
                        assert(first_pair(cls, ks0, values@, r@[2 * q]) is Some);
                    }
                }
            },
            None => {
                r.push(k);
                r.push(v);
                proof {
                    lemma_push_pair(prev, k, v);
                    let kr = keys_of(r@);
                    let kp = keys_of(prev);
                    assert(kr =~= kp.push(k));
                    assert forall|a: int, b: int| 0 <= a < b < kr.len() implies !same_object(
                        cls,
                        #[trigger] kr[a],
                        #[trigger] kr[b],
                    ) by {
                        if b == kp.len() {
                            assert(kr[a] == kp[a]);
                            assert(!rt.equal(kp[a], k));
                        } else {
                            assert(kr[a] == kp[a]);
                            assert(kr[b] == kp[b]);
                        }
                    }
                    assert forall|i: int| 0 <= i < ks.len() implies has_equal(cls, kr, #[trigger] ks[i]) by {
                        if i < j {
                            assert(ks[i] == ks0[i]);
                            assert(has_equal(cls, kp, ks0[i]));
                            let w = choose|w: int| 0 <= w < kp.len() && same_object(cls, #[trigger] kp[w], ks0[i]);
                            assert(kr[w] == kp[w]);
                        } else {
                            assert(kr[kp.len() as int] == k);
                        }
                    }
                    // no earlier key is equal to `k`
                    if first_pair(cls, ks0, values@, k) is Some {
                        lemma_first_pair_found(cls, ks0, values@, k);
                        let kv = first_pair(cls, ks0, values@, k)->0;
                        let i = choose|i: int|
                            0 <= i < ks0.len() && #[trigger] ks0[i] == kv.0 && same_object(cls, ks0[i], k);
                        assert(has_equal(cls, kp, ks0[i]));
                        let w = choose|w: int| 0 <= w < kp.len() && same_object(cls, #[trigger] kp[w], ks0[i]);
                        assert(!rt.equal(kp[w], k));
                        assert(false);
                    }
                    assert(first_pair(cls, ks, values@, k) == Some((k, v)));
                    assert forall|q: int| 0 <= q < r@.len() / 2 implies first_pair(cls, ks, values@, #[trigger] r@[2 * q])
                        == Some((r@[2 * q], r@[2 * q + 1])) by {
                        if q < prev.len() / 2 {
                            assert(r@[2 * q] == prev[2 * q]);
                            assert(r@[2 * q + 1] == prev[2 * q + 1]);
                            assert(first_pair(cls, ks0, values@, prev[2 * q]) is Some);
                        } else {
                            assert(q == prev.len() / 2);
                            assert(r@[2 * q] == k);
                            assert(r@[2 * q + 1] == v);
                        }
                    }
                    assert forall|i: int| 0 <= i < r@.len() implies #[trigger] r@[i] < rt.len() by {
                        if i < prev.len() {
                            assert(r@[i] == prev[i]);
                        }
                    }
                }
            },
        }
        j = j + 1;
    }
    proof {
        assert(keys@.subrange(0, j as int) =~= keys@);
    }
    r
}

pub struct Dictionary {
    id: Id,
}

/// A mutable dictionary of objects of any type.
pub struct DictionaryMut {
    id: Id,
}

/// An immutable dictionary whose keys and values the caller asserts to be of
/// types `K` and `V`.
pub struct DictionaryOf<K, V> {
    id: Id,
    marker: PhantomData<(K, V)>,
}

/// A mutable dictionary whose keys and values the caller asserts to be of
/// types `K` and `V`.
pub struct DictionaryOfMut<K, V> {
    id: Id,
    marker: PhantomData<(K, V)>,
}

impl Obj for Dictionary {
    closed spec fn handle(&self) -> Id {
        self.id
    }

    fn id(&self) -> (r: Id) {
        self.id
    }

    fn with_id(id: Id) -> (r: Self) {
        Dictionary { id }
    }
}

impl Obj for DictionaryMut {
    closed spec fn handle(&self) -> Id {
        self.id
    }

    fn id(&self) -> (r: Id) {
        self.id
    }

    fn with_id(id: Id) -> (r: Self) {
        DictionaryMut { id }
    }
}

impl<K, V> Obj for DictionaryOf<K, V> {
    closed spec fn handle(&self) -> Id {
        self.id
    }

    fn id(&self) -> (r: Id) {
        self.id
    }

    fn with_id(id: Id) -> (r: Self) {
        DictionaryOf { id, marker: PhantomData }
    }
}

impl<K, V> Obj for DictionaryOfMut<K, V> {
    closed spec fn handle(&self) -> Id {
        self.id
    }

    fn id(&self) -> (r: Id) {
        self.id
    }

    fn with_id(id: Id) -> (r: Self) {
        DictionaryOfMut { id, marker: PhantomData }
    }
}

/// The addresses of a sequence of borrowed views.
pub open spec fn type_addrs(v: Seq<Type>) -> Seq<usize> {
    v.map_values(|t: Type| t.handle().addr)
}

/// A new dictionary `h` of class `class` built from the pairs `keys[i]`,
/// `values[i]` (keys compared as the objects stood before), and the runtime
/// otherwise as it was.
pub open spec fn dict_created(
    rt: &Runtime,
    prev: &Runtime,
    h: Id,
    class: Class,
    keys: Seq<usize>,
    values: Seq<usize>,
) -> bool {
    &&& created(rt, prev, h, class, rt.elems(h))
    &&& built_from(prev.classes(), rt.elems(h), keys, values)
    &&& is_dict(rt.classes(), rt.elems(h))
}

fn addrs_of<T: Obj>(rt: &Runtime, values: &[&T]) -> (r: Vec<usize>)
    requires
        forall|i: int| 0 <= i < values@.len() ==> rt.valid(#[trigger] values@[i].handle()),
    ensures
        r@ == addrs(handles(values@)),
        forall|i: int| 0 <= i < r@.len() ==> #[trigger] r@[i] < rt.len(),
{
    let mut r: Vec<usize> = Vec::new();
    let mut i: usize = 0;
    while i < values.len()
        invariant
            i <= values@.len(),
            r@ == addrs(handles(values@)).subrange(0, i as int),
            forall|j: int| 0 <= j < values@.len() ==> rt.valid(#[trigger] values@[j].handle()),
        decreases values@.len() - i,
    {
        r.push(values[i].id().addr);
        i = i + 1;
        proof {
            assert(r@ =~= addrs(handles(values@)).subrange(0, i as int));
        }
    }
    proof {
        assert(r@ =~= addrs(handles(values@)));
        assert forall|j: int| 0 <= j < r@.len() implies #[trigger] r@[j] < rt.len() by {
            assert(r@[j] == values@[j].handle().addr);
        }
    }
    r
}

fn make_dict<T: Obj, K: Obj, V: Obj>(rt: &mut Runtime, class: Class, keys: &[&K], values: &[&V]) -> (r: R<T>)
    requires
        old(rt).wf(),
        keys@.len() == values@.len(),
        forall|i: int| 0 <= i < keys@.len() ==> old(rt).valid(#[trigger] keys@[i].handle()),
        forall|i: int| 0 <= i < values@.len() ==> old(rt).valid(#[trigger] values@[i].handle()),
    ensures
        dict_created(final(rt), old(rt), r.handle(), class, addrs(handles(keys@)), addrs(handles(values@))),
{
    let ks = addrs_of(rt, keys);
    let vs = addrs_of(rt, values);
    let pairs = build_pairs(rt, &ks, &vs);
    let ghost p = pairs@;
    let ghost cls = rt.classes();
    let r = rt.create_from_addrs(class, pairs);
    proof {
        assert(final(rt).elems(r.handle()) == p);
        lemma_grow_keeps_dict(cls, class, p);
    }
    r
}

/// The keys (or, with `odd`, the values) of the dictionary `a`, in order.
fn half(rt: &Runtime, a: Id, odd: bool) -> (r: Vec<Type>)
    requires
        rt.wf(),
        rt.valid(a),
        rt.elems(a).len() % 2 == 0,
    ensures
        type_addrs(r@) == if odd {
            values_of(rt.elems(a))
        } else {
            keys_of(rt.elems(a))
        },
{
    let s = rt.elems_ref(a);
    let n = s.len() / 2;
    let _len = s.len();
    let mut r: Vec<Type> = Vec::new();
    let mut p: usize = 0;
    let ghost want = if odd {
        values_of(s@)
    } else {
        keys_of(s@)
    };
    while p < n
        invariant
            n == s@.len() / 2,
            n * 2 == s@.len(),
            s@.len() <= usize::MAX,
            p <= n,
            want == if odd {
                values_of(s@)
            } else {
                keys_of(s@)
            },
            type_addrs(r@) == want.subrange(0, p as int),
        decreases n - p,
    {
        proof {
            assert(2 * p + 1 < s@.len()) by (nonlinear_arith)
                requires
                    p < n,
                    n * 2 == s@.len(),
            ;
        }
        let i = if odd {
            2 * p + 1
        } else {
            2 * p
        };
        let t = Type::with_id(Id { addr: s[i] });
        let ghost prev = r@;
        r.push(t);
        proof {
            assert(type_addrs(r@) =~= type_addrs(prev).push(s@[i as int]));
            assert(want[p as int] == s@[i as int]);
            assert(want.subrange(0, p + 1) =~= want.subrange(0, p as int).push(want[p as int]));
        }
        p = p + 1;
    }
    proof {
        assert(want.subrange(0, n as int) =~= want);
    }
    r
}

impl Dictionary {
    /// A new, empty dictionary.
    pub fn new(rt: &mut Runtime) -> (r: R<Dictionary>)
        requires
            old(rt).wf(),
        ensures
            created(final(rt), old(rt), r.handle(), Class::Dictionary, Seq::empty()),
    {
        let none: Vec<usize> = Vec::new();
        proof {
            assert(none@ =~= Seq::<usize>::empty());
        }
        rt.create_from_addrs(Class::Dictionary, none)
    }

    /// A new dictionary of the pairs `keys[i]`, `values[i]`; where equal keys
    /// are given, the first of them stays, with its value. The dictionary
    /// takes its own count on each key and value it keeps.
    pub fn with_keys_values(rt: &mut Runtime, keys: &[&Type], values: &[&Type]) -> (r: Option<R<Dictionary>>)
        requires
            old(rt).wf(),
            keys@.len() == values@.len(),
            forall|i: int| 0 <= i < keys@.len() ==> old(rt).valid(#[trigger] keys@[i].handle()),
            forall|i: int| 0 <= i < values@.len() ==> old(rt).valid(#[trigger] values@[i].handle()),
        ensures
            r is Some,
            dict_created(
                final(rt),
                old(rt),
                r->0.handle(),
                Class::Dictionary,
                addrs(handles(keys@)),
                addrs(handles(values@)),
            ),
    {
        Some(make_dict(rt, Class::Dictionary, keys, values))
    }

    /// The number of pairs.
    pub fn len(&self, rt: &Runtime) -> (r: usize)
        requires
            rt.wf(),
            rt.valid(self.handle()),
        ensures
            r == rt.elems(self.handle()).len() / 2,
    {
        rt.collection_len(self.id) / 2
    }

    pub fn is_empty(&self, rt: &Runtime) -> (r: bool)
        requires
            rt.wf(),
            rt.valid(self.handle()),
        ensures
            r == (rt.elems(self.handle()).len() / 2 == 0),
    {
        self.len(rt) == 0
    }

    /// Whether a key is equal to `key`.
    pub fn contains_key(&self, rt: &Runtime, key: &Type) -> (r: bool)
        requires
            rt.wf(),
            rt.valid(self.handle()),
            rt.valid(key.handle()),
            is_dict(rt.classes(), rt.elems(self.handle())),
        ensures
            r == has_equal(rt.classes(), keys_of(rt.elems(self.handle())), key.handle().addr),
    {
        let s = rt.elems_ref(self.id);
        match find_pair(rt, s, key.id().addr) {
            Some(p) => {
                proof {
                    assert(same_object(rt.classes(), keys_of(s@)[p as int], key.handle().addr));
                }
                true
            },
            None => false,
        }
    }

    /// A borrowed view of the value paired with the key equal to `key`, if any.
    pub fn value(&self, rt: &Runtime, key: &Type) -> (r: Option<Type>)
        requires
            rt.wf(),
            rt.valid(self.handle()),
            rt.valid(key.handle()),
            is_dict(rt.classes(), rt.elems(self.handle())),
        ensures
            r is Some <==> has_equal(rt.classes(), keys_of(rt.elems(self.handle())), key.handle().addr),
            r matches Some(v) ==> exists|p: int|
                0 <= p < keys_of(rt.elems(self.handle())).len() && rt.equal(
                    #[trigger] keys_of(rt.elems(self.handle()))[p],
                    key.handle().addr,
                ) && v.handle().addr == values_of(rt.elems(self.handle()))[p],
    {
        let s = rt.elems_ref(self.id);
        let _len = s.len();
        match find_pair(rt, s, key.id().addr) {
            Some(p) => {
                proof {
                    assert(same_object(rt.classes(), keys_of(s@)[p as int], key.handle().addr));
                    assert(values_of(s@)[p as int] == s@[2 * p + 1]);
                }
                Some(Type::with_id(Id { addr: s[2 * p + 1] }))
            },
            None => None,
        }
    }

    /// The keys, in the dictionary's order.
    pub fn keys(&self, rt: &Runtime) -> (r: Vec<Type>)
        requires
            rt.wf(),
            rt.valid(self.handle()),
            is_dict(rt.classes(), rt.elems(self.handle())),
        ensures
            type_addrs(r@) == keys_of(rt.elems(self.handle())),
    {
        half(rt, self.id, false)
    }

    /// The values, in the dictionary's order.
    pub fn values(&self, rt: &Runtime) -> (r: Vec<Type>)
        requires
            rt.wf(),
            rt.valid(self.handle()),
            is_dict(rt.classes(), rt.elems(self.handle())),
        ensures
            type_addrs(r@) == values_of(rt.elems(self.handle())),
    {
        half(rt, self.id, true)
    }

    /// The keys and the values, in the same order.
    pub fn keys_with_values(&self, rt: &Runtime) -> (r: (Vec<Type>, Vec<Type>))
        requires
            rt.wf(),
            rt.valid(self.handle()),
            is_dict(rt.classes(), rt.elems(self.handle())),
        ensures
            type_addrs(r.0@) == keys_of(rt.elems(self.handle())),
            type_addrs(r.1@) == values_of(rt.elems(self.handle())),
    {
        (half(rt, self.id, false), half(rt, self.id, true))
    }
}

impl DictionaryMut {
    /// A new, empty mutable dictionary; the capacity is a hint.
    pub fn with_capacity(rt: &mut Runtime, capacity: usize) -> (r: R<DictionaryMut>)
        requires
            old(rt).wf(),
        ensures
            created(final(rt), old(rt), r.handle(), Class::DictionaryMut, Seq::empty()),
    {
        let none: Vec<usize> = Vec::new();
        proof {
            assert(none@ =~= Seq::<usize>::empty());
        }
        rt.create_from_addrs(Class::DictionaryMut, none)
    }

    /// This dictionary viewed as an immutable one (the same object).
    pub fn as_dictionary(&self) -> (r: Dictionary)
        ensures
            r.handle() == self.handle(),
    {
        Dictionary { id: self.id }
    }

    /// Pairs `key` with `value`. Where a key equal to `key` is there, it
    /// stays and its value is replaced and released once; the dictionary
    /// takes its own count on what it adds.
    pub fn insert(&self, rt: &mut Runtime, key: &Type, value: &Type)
        requires
            old(rt).wf(),
            old(rt).valid(self.handle()),
            old(rt).valid(key.handle()),
            old(rt).valid(value.handle()),
            is_dict(old(rt).classes(), old(rt).elems(self.handle())),
        ensures
            final(rt).wf(),
            is_dict(final(rt).classes(), final(rt).elems(self.handle())),
            final(rt).items() == old(rt).items().update(self.handle().addr as int, final(rt).elems(self.handle())),
            final(rt).classes() == old(rt).classes(),
            final(rt).owned() == old(rt).owned(),
            final(rt).deferred() == old(rt).deferred(),
            final(rt).marks() == old(rt).marks(),
            final(rt).empty_array() == old(rt).empty_array(),
            ({
                let s = old(rt).elems(self.handle());
                let k = key.handle().addr;
                let v = value.handle().addr;
                if has_equal(old(rt).classes(), keys_of(s), k) {
                    exists|p: int|
                        0 <= p < keys_of(s).len() && old(rt).equal(#[trigger] keys_of(s)[p], k)
                            && final(rt).elems(self.handle()) == s.update(2 * p + 1, v) && final(rt).log()
                            == old(rt).log().push(values_of(s)[p])
                } else {
                    final(rt).elems(self.handle()) == s.push(k).push(v) && final(rt).log() == old(rt).log()
                }
            }),
    {
        let s = rt.elems_ref(self.id);
        let _len = s.len();
        let ghost s0 = s@;
        match find_pair(rt, s, key.id().addr) {
            Some(p) => {
                proof {
                    assert(values_of(s0)[p as int] == s0[2 * p + 1]);
                    lemma_set_value(s0, p as int, value.handle().addr);
                }
                rt.collection_set(self.id, 2 * p + 1, value.id());
                proof {
                    assert(final(rt).items() =~= old(rt).items().update(
                        self.handle().addr as int,
                        final(rt).elems(self.handle()),
                    ));
                }
            },
            None => {
                rt.collection_push(self.id, key.id());
                rt.collection_push(self.id, value.id());
                proof {
                    let k = key.handle().addr;
                    lemma_push_pair(s0, k, value.handle().addr);
                    let ks = keys_of(s0.push(k).push(value.handle().addr));
                    assert forall|a: int, b: int| 0 <= a < b < ks.len() implies !same_object(
                        old(rt).classes(),
                        #[trigger] ks[a],
                        #[trigger] ks[b],
                    ) by {
                        if b == keys_of(s0).len() {
                            assert(ks[a] == keys_of(s0)[a]);
                            assert(ks[b] == k);
                        } else {
                            assert(ks[a] == keys_of(s0)[a]);
                            assert(ks[b] == keys_of(s0)[b]);
                        }
                    }
                    assert(final(rt).items() =~= old(rt).items().update(
                        self.handle().addr as int,
                        final(rt).elems(self.handle()),
                    ));
                }
            },
        }
    }

    /// Removes the pair whose key is equal to `key`, if any, releasing the
    /// dictionary's counts on its key and its value once each.
    pub fn remove(&self, rt: &mut Runtime, key: &Type)
        requires
            old(rt).wf(),
            old(rt).valid(self.handle()),
            old(rt).valid(key.handle()),
            is_dict(old(rt).classes(), old(rt).elems(self.handle())),
        ensures
            final(rt).wf(),
            is_dict(final(rt).classes(), final(rt).elems(self.handle())),
            final(rt).items() == old(rt).items().update(self.handle().addr as int, final(rt).elems(self.handle())),
            final(rt).classes() == old(rt).classes(),
            final(rt).owned() == old(rt).owned(),
            final(rt).deferred() == old(rt).deferred(),
            final(rt).marks() == old(rt).marks(),
            final(rt).empty_array() == old(rt).empty_array(),
            ({
                let s = old(rt).elems(self.handle());
                let k = key.handle().addr;
                if has_equal(old(rt).classes(), keys_of(s), k) {
                    exists|p: int|
                        0 <= p < keys_of(s).len() && old(rt).equal(#[trigger] keys_of(s)[p], k)
                            && final(rt).elems(self.handle()) == s.remove(2 * p).remove(2 * p) && final(rt).log()
                            == old(rt).log().push(keys_of(s)[p]).push(values_of(s)[p])
                } else {
                    final(rt).elems(self.handle()) == s && final(rt).log() == old(rt).log()
                }
            }),
    {
        let s = rt.elems_ref(self.id);
        let _len = s.len();
        let ghost s0 = s@;
        match find_pair(rt, s, key.id().addr) {
            Some(p) => {
                proof {
                    assert(keys_of(s0)[p as int] == s0[2 * p]);
                    assert(values_of(s0)[p as int] == s0[2 * p + 1]);
                    lemma_remove_pair(s0, p as int);
                }
                rt.collection_remove(self.id, 2 * p);
                rt.collection_remove(self.id, 2 * p);
                proof {
                    let ks = keys_of(s0).remove(p as int);
                    assert forall|a: int, b: int| 0 <= a < b < ks.len() implies !same_object(
                        old(rt).classes(),
                        #[trigger] ks[a],
                        #[trigger] ks[b],
                    ) by {
                        let a0 = if a < p { a } else { a + 1 };
                        let b0 = if b < p { b } else { b + 1 };
                        assert(ks[a] == keys_of(s0)[a0]);
                        assert(ks[b] == keys_of(s0)[b0]);
                    }
                    assert(s0.remove(2 * p as int)[2 * p as int] == s0[2 * p + 1]);
                    assert(final(rt).items() =~= old(rt).items().update(
                        self.handle().addr as int,
                        final(rt).elems(self.handle()),
                    ));
                }
            },
            None => {
                proof {
                    assert(old(rt).items() =~= old(rt).items().update(
                        self.handle().addr as int,
                        old(rt).elems(self.handle()),
                    ));
                }
            },
        }
    }

    /// Removes every pair, releasing each count the dictionary held once.
    pub fn remove_all_values(&self, rt: &mut Runtime)
        requires
            old(rt).wf(),
            old(rt).valid(self.handle()),
        ensures
            final(rt).wf(),
            final(rt).items() == old(rt).items().update(self.handle().addr as int, Seq::empty()),
            final(rt).log() == old(rt).log() + old(rt).elems(self.handle()),
            final(rt).classes() == old(rt).classes(),
            final(rt).owned() == old(rt).owned(),
            final(rt).deferred() == old(rt).deferred(),
            final(rt).marks() == old(rt).marks(),
            final(rt).empty_array() == old(rt).empty_array(),
    {
        rt.collection_clear(self.id)
    }
}

impl<K: Obj, V: Obj> DictionaryOf<K, V> {
    /// The same object, viewed through the second hierarchy (`ns`): both
    /// share one representation, so nothing is copied, retained or released.
    pub fn as_cf(&self) -> (r: ns::Dictionary<K, V>)
        ensures
            r.handle() == self.handle(),
    {
        ns::Dictionary::with_id(self.id)
    }

    /// A new dictionary of the pairs `keys[i]`, `values[i]`; where equal keys
    /// are given, the first of them stays, with its value.
    pub fn with_keys_values(rt: &mut Runtime, keys: &[&K], values: &[&V]) -> (r: R<DictionaryOf<K, V>>)
        requires
            old(rt).wf(),
            keys@.len() == values@.len(),
            forall|i: int| 0 <= i < keys@.len() ==> old(rt).valid(#[trigger] keys@[i].handle()),
            forall|i: int| 0 <= i < values@.len() ==> old(rt).valid(#[trigger] values@[i].handle()),
        ensures
            dict_created(
                final(rt),
                old(rt),
                r.handle(),
                Class::Dictionary,
                addrs(handles(keys@)),
                addrs(handles(values@)),
            ),
    {
        make_dict(rt, Class::Dictionary, keys, values)
    }

    /// A borrowed view of the value paired with the key equal to `k`, if any.
    pub fn get(&self, rt: &Runtime, k: &K) -> (r: Option<V>)
        requires
            rt.wf(),
            rt.valid(self.handle()),
            rt.valid(k.handle()),
            is_dict(rt.classes(), rt.elems(self.handle())),
        ensures
            r is Some <==> has_equal(rt.classes(), keys_of(rt.elems(self.handle())), k.handle().addr),
            r matches Some(v) ==> exists|p: int|
                0 <= p < keys_of(rt.elems(self.handle())).len() && rt.equal(
                    #[trigger] keys_of(rt.elems(self.handle()))[p],
                    k.handle().addr,
                ) && v.handle().addr == values_of(rt.elems(self.handle()))[p],
    {
        let d = Dictionary { id: self.id };
        match d.value(rt, &Type::with_id(k.id())) {
            Some(t) => Some(V::with_id(t.id())),
            None => None,
        }
    }

    pub fn len(&self, rt: &Runtime) -> (r: usize)
        requires
            rt.wf(),
            rt.valid(self.handle()),
        ensures
            r == rt.elems(self.handle()).len() / 2,
    {
        rt.collection_len(self.id) / 2
    }
}

} // verus!

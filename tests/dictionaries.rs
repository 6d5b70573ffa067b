use cidre::arc::{Obj, R};
use cidre::cf::Type;
use cidre::dictionary::{Dictionary, DictionaryMut, DictionaryOf};
use cidre::ns;
use cidre::runtime::Runtime;

fn numbers(rt: &mut Runtime, n: usize) -> Vec<R<ns::Number>> {
    (0..n).map(|i| ns::Number::with_i64(rt, i as i64 * 10)).collect()
}

fn view(r: &R<ns::Number>) -> Type {
    Type::with_id(r.id())
}

#[test]
fn built_dictionaries_keep_the_first_pair_of_a_key() {
    let mut rt = Runtime::new();
    let n = numbers(&mut rt, 4);
    let (k1, k2, v1, v2) = (view(&n[0]), view(&n[1]), view(&n[2]), view(&n[3]));
    let d = Dictionary::with_keys_values(&mut rt, &[&k1, &k2, &k1], &[&v1, &v2, &v2]).unwrap();
    assert_eq!(d.get().len(&rt), 2);
    assert!(!d.get().is_empty(&rt));
    assert!(d.get().contains_key(&rt, &k1));
    assert!(!d.get().contains_key(&rt, &v1));
    assert_eq!(d.get().value(&rt, &k1).map(|t| t.id()), Some(n[2].id()));
    assert_eq!(d.get().value(&rt, &k2).map(|t| t.id()), Some(n[3].id()));
    assert!(d.get().value(&rt, &v2).is_none());
    let keys: Vec<_> = d.get().keys(&rt).iter().map(|t| t.id()).collect();
    let values: Vec<_> = d.get().values(&rt).iter().map(|t| t.id()).collect();
    assert_eq!(keys, vec![n[0].id(), n[1].id()]);
    assert_eq!(values, vec![n[2].id(), n[3].id()]);
    let (k, v) = d.get().keys_with_values(&rt);
    assert_eq!(k.len(), 2);
    assert_eq!(v[1].id(), n[3].id());
}

#[test]
fn keys_of_equal_value_are_one_key() {
    let mut rt = Runtime::new();
    let a = ns::Number::with_i64(&mut rt, 10);
    let b = ns::Number::with_i64(&mut rt, 10);
    let c = ns::Number::with_i64(&mut rt, 10);
    let x = ns::Number::with_i64(&mut rt, 1);
    let y = ns::Number::with_i64(&mut rt, 2);
    let d = Dictionary::with_keys_values(&mut rt, &[&view(&a), &view(&b)], &[&view(&x), &view(&y)]).unwrap();
    assert_eq!(d.get().len(&rt), 1);
    assert_eq!(d.get().keys(&rt)[0].id(), a.id());
    assert!(d.get().contains_key(&rt, &view(&c)));
    assert_eq!(d.get().value(&rt, &view(&c)).map(|t| t.id()), Some(x.id()));
    let m = DictionaryMut::with_capacity(&mut rt, 2);
    m.get().insert(&mut rt, &view(&a), &view(&x));
    m.get().insert(&mut rt, &view(&b), &view(&y));
    assert_eq!(m.get().as_dictionary().len(&rt), 1);
    assert_eq!(m.get().as_dictionary().keys(&rt)[0].id(), a.id());
    assert_eq!(m.get().as_dictionary().value(&rt, &view(&c)).map(|t| t.id()), Some(y.id()));
    m.get().remove(&mut rt, &view(&c));
    assert!(m.get().as_dictionary().is_empty(&rt));
    assert_eq!(rt.releases_of(a.id()), 1);
}

#[test]
fn empty_dictionaries() {
    let mut rt = Runtime::new();
    let d = Dictionary::new(&mut rt);
    assert_eq!(d.get().len(&rt), 0);
    assert!(d.get().is_empty(&rt));
    let e = Dictionary::with_keys_values(&mut rt, &[], &[]).unwrap();
    assert!(e.get().is_empty(&rt));
    assert!(e.get().keys(&rt).is_empty());
}

#[test]
fn mutable_dictionaries_release_what_they_drop() {
    let mut rt = Runtime::new();
    let n = numbers(&mut rt, 3);
    let (k, a, b) = (view(&n[0]), view(&n[1]), view(&n[2]));
    let d = DictionaryMut::with_capacity(&mut rt, 1);
    d.get().insert(&mut rt, &k, &a);
    assert_eq!(d.get().as_dictionary().len(&rt), 1);
    d.get().insert(&mut rt, &k, &b);
    assert_eq!(d.get().as_dictionary().len(&rt), 1);
    assert_eq!(rt.releases_of(n[1].id()), 1);
    assert_eq!(d.get().as_dictionary().value(&rt, &k).map(|t| t.id()), Some(n[2].id()));
    d.get().remove(&mut rt, &a);
    assert_eq!(d.get().as_dictionary().len(&rt), 1);
    d.get().remove(&mut rt, &k);
    assert!(d.get().as_dictionary().is_empty(&rt));
    assert_eq!(rt.releases_of(n[0].id()), 1);
    assert_eq!(rt.releases_of(n[2].id()), 1);
    d.get().insert(&mut rt, &a, &b);
    d.get().remove_all_values(&mut rt);
    assert_eq!(rt.releases_of(n[1].id()), 2);
    assert_eq!(rt.releases_of(n[2].id()), 2);
}

#[test]
fn typed_dictionaries() {
    let mut rt = Runtime::new();
    let n = numbers(&mut rt, 2);
    let d = DictionaryOf::<ns::Number, ns::Number>::with_keys_values(&mut rt, &[n[0].get()], &[n[1].get()]);
    assert_eq!(d.get().len(&rt), 1);
    let v = d.get().get(&rt, n[0].get()).expect("value");
    assert_eq!(v.as_i64(&rt), 10);
    assert!(d.get().get(&rt, n[1].get()).is_none());
}

#[test]
fn typed_dictionaries_reinterpret_without_counts() {
    let mut rt = Runtime::new();
    let n = numbers(&mut rt, 2);
    let d = DictionaryOf::<ns::Number, ns::Number>::with_keys_values(&mut rt, &[n[0].get()], &[n[1].get()]);
    let before = rt.owned_of(d.id());
    let other = d.get().as_cf();
    assert_eq!(other.id(), d.id());
    assert_eq!(other.as_dictionary_of().id(), d.id());
    assert_eq!(rt.owned_of(d.id()), before);
    assert_eq!(rt.releases_of(d.id()), 0);
}

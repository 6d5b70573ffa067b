use cidre::arc::{Obj, R};
use cidre::cf;
use cidre::ns;
use cidre::runtime::Runtime;

fn numbers(rt: &mut Runtime, n: usize) -> Vec<R<ns::Number>> {
    let mut v = Vec::new();
    for i in 0..n {
        v.push(ns::Number::with_i64(rt, i as i64));
    }
    v
}

#[test]
fn empty_arrays_are_same() {
    let mut rt = Runtime::new();
    let arr1 = cf::Array::new(&mut rt);
    let arr2 = arr1.get().copy(&mut rt).expect("copy");
    let arr3 = cf::Array::new(&mut rt);
    let arr4 = arr2.get().copy_mut(&mut rt).expect("copy");
    assert_eq!(arr1.id(), arr2.id());
    assert_eq!(arr3.id(), arr2.id());
    assert_ne!(arr1.id(), arr4.id());
}

#[test]
fn array_basics() {
    let mut rt = Runtime::new();
    let one = ns::Number::with_u8(&mut rt, 5);
    let arr: &[&ns::Number] = &[one.get()];
    let array = ns::Array::from_slice(&mut rt, arr);
    assert_eq!(5, array.get().get(&rt, 0).as_u8(&rt));
}

fn round_trip(n: usize) {
    let mut rt = Runtime::new();
    let owned = numbers(&mut rt, n);
    let views: Vec<&ns::Number> = owned.iter().map(|r| r.get()).collect();
    let arr = cf::ArrayOf::<ns::Number>::from_slice(&mut rt, &views);
    assert_eq!(arr.get().len(&rt), n);
    for i in 0..n {
        assert_eq!(arr.get().get(&rt, i).id(), owned[i].id());
    }
    let mut it = arr.get().iter(&rt);
    assert_eq!(it.len(), n);
    for i in 0..n {
        assert_eq!(it.next(&rt).map(|x| x.id()), Some(owned[i].id()));
    }
    assert!(it.next(&rt).is_none());
    let mut again = arr.get().iter(&rt);
    if n > 0 {
        assert_eq!(again.next(&rt).map(|x| x.id()), Some(owned[0].id()));
    }
}

#[test]
fn round_trip_of_none() {
    round_trip(0);
}

#[test]
fn round_trip_of_one() {
    round_trip(1);
}

#[test]
fn round_trip_of_a_hundred() {
    round_trip(100);
}

#[test]
fn reinterpreting_keeps_the_handle_and_counts() {
    let mut rt = Runtime::new();
    let owned = numbers(&mut rt, 2);
    let views: Vec<&ns::Number> = owned.iter().map(|r| r.get()).collect();
    let arr = cf::ArrayOf::<ns::Number>::from_slice(&mut rt, &views);
    let before = rt.owned_of(arr.id());
    let log_before = rt.releases_of(arr.id());
    let as_ns = arr.get().as_ns();
    let back = as_ns.as_cf();
    assert_eq!(as_ns.id(), arr.id());
    assert_eq!(back.id(), arr.id());
    assert_eq!(rt.owned_of(arr.id()), before);
    assert_eq!(rt.releases_of(arr.id()), log_before);
    assert_eq!(as_ns.count(&rt), 2);
    assert_eq!(as_ns.get(&rt, 1).id(), owned[1].id());
}

#[test]
fn removing_the_middle_of_three() {
    let mut rt = Runtime::new();
    let owned = numbers(&mut rt, 3);
    let arr = cf::ArrayOfMut::<ns::Number>::new(&mut rt);
    for x in owned.iter() {
        arr.get().push(&mut rt, x.get());
    }
    assert_eq!(arr.get().len(&rt), 3);
    arr.get().remove(&mut rt, 1);
    assert_eq!(arr.get().len(&rt), 2);
    assert_eq!(arr.get().get(&rt, 0).id(), owned[0].id());
    assert_eq!(arr.get().get(&rt, 1).id(), owned[2].id());
    assert_eq!(rt.releases_of(owned[1].id()), 1);
    assert_eq!(rt.releases_of(owned[0].id()), 0);
}

#[test]
fn clearing_releases_each_element_once() {
    let mut rt = Runtime::new();
    let owned = numbers(&mut rt, 2);
    let arr = cf::ArrayMut::new(&mut rt);
    arr.get().append(&mut rt, owned[0].get());
    arr.get().append(&mut rt, owned[1].get());
    arr.get().append(&mut rt, owned[0].get());
    arr.get().clear(&mut rt);
    assert!(arr.get().as_array().is_empty(&rt));
    assert_eq!(rt.releases_of(owned[0].id()), 2);
    assert_eq!(rt.releases_of(owned[1].id()), 1);
}

#[test]
fn copies_of_arrays() {
    let mut rt = Runtime::new();
    let owned = numbers(&mut rt, 2);
    let views: Vec<&ns::Number> = owned.iter().map(|r| r.get()).collect();
    let arr = cf::Array::from_slice(&mut rt, &views).expect("array");
    assert_eq!(arr.get().len(&rt), 2);
    let same = arr.get().copy(&mut rt).expect("copy");
    assert_eq!(same.id(), arr.id());
    assert_eq!(rt.owned_of(arr.id()), 2);
    let m = arr.get().copy_mut_with_capacity(&mut rt, 10).expect("copy");
    assert_ne!(m.id(), arr.id());
    assert_eq!(m.get().len(&rt), 2);
    m.get().append(&mut rt, owned[0].get());
    assert_eq!(m.get().len(&rt), 3);
    assert_eq!(arr.get().len(&rt), 2);
    let frozen = m.get().as_array().copy(&mut rt).expect("copy");
    assert_ne!(frozen.id(), m.id());
    assert_eq!(frozen.get().len(&rt), 3);
    assert_eq!(frozen.get().get(&rt, 2).id(), owned[0].id());
}

#[test]
fn contains_goes_by_equality() {
    let mut rt = Runtime::new();
    let owned = numbers(&mut rt, 3);
    let views: Vec<&ns::Number> = vec![owned[0].get(), owned[2].get()];
    let arr = cf::ArrayOf::<ns::Number>::from_slice(&mut rt, &views);
    let empty = cf::ArrayOf::<ns::Number>::new(&mut rt);
    let probe = cf::Type::with_id(owned[2].id());
    let missing = cf::Type::with_id(owned[1].id());
    assert!(arr.get().contains(&rt, &probe));
    assert!(!arr.get().contains(&rt, &missing));
    assert!(!empty.get().contains(&rt, &probe));
    assert!(empty.get().is_empty(&rt));
    let same_value = ns::Number::with_i64(&mut rt, 2);
    assert!(arr.get().contains(&rt, &cf::Type::with_id(same_value.id())));
}

#[test]
fn retained_slices_keep_their_counts() {
    let mut rt = Runtime::new();
    let owned = numbers(&mut rt, 2);
    let arr = cf::ArrayOf::<ns::Number>::from_retained_slice(&mut rt, &owned).expect("array");
    assert_eq!(arr.get().len(&rt), 2);
    assert_eq!(rt.owned_of(owned[0].id()), 1);
    let m = arr.get().copy_mut(&mut rt).expect("copy");
    assert_eq!(m.get().iter(&rt).len(), 2);
    assert_eq!(m.get().get(&rt, 1).id(), owned[1].id());
}

#[test]
fn new_mutable_arrays_are_empty() {
    let mut rt = Runtime::new();
    let a = cf::ArrayMut::with_capacity(&mut rt, 4);
    let b = cf::ArrayOfMut::<ns::Number>::with_capacity(&mut rt, 4);
    assert_eq!(a.get().len(&rt), 0);
    assert_eq!(b.get().len(&rt), 0);
    assert_ne!(a.id(), b.id());
    let n = ns::Number::with_i64(&mut rt, -3);
    b.get().push(&mut rt, n.get());
    a.get().append(&mut rt, n.get());
    a.get().remove(&mut rt, 0);
    assert_eq!(a.get().len(&rt), 0);
    assert_eq!(b.get().as_array_of().len(&rt), 1);
    assert_eq!(n.get().as_i64(&rt), -3);
    assert_eq!(n.get().as_u8(&rt), 253);
    a.get().remove_all_values(&mut rt);
    assert_eq!(rt.releases_of(n.id()), 1);
}

#[test]
fn inserting_moves_later_elements_up() {
    let mut rt = Runtime::new();
    let owned = numbers(&mut rt, 3);
    let arr = cf::ArrayOfMut::<ns::Number>::new(&mut rt);
    arr.get().push(&mut rt, owned[0].get());
    arr.get().push(&mut rt, owned[2].get());
    arr.get().insert(&mut rt, 1, owned[1].get());
    let ids: Vec<_> = (0..3).map(|i| arr.get().get(&rt, i).id()).collect();
    assert_eq!(ids, vec![owned[0].id(), owned[1].id(), owned[2].id()]);
    let untyped = cf::ArrayMut::new(&mut rt);
    untyped.get().insert(&mut rt, 0, owned[2].get());
    untyped.get().insert(&mut rt, 0, owned[0].get());
    assert_eq!(untyped.get().as_array().get(&rt, 0).id(), owned[0].id());
    assert_eq!(rt.releases_of(owned[0].id()), 0);
}

use cidre::arc::Obj;
use cidre::ns;
use cidre::runtime::Runtime;

#[test]
fn one_release_per_owned_reference() {
    let mut rt = Runtime::new();
    let a = ns::Number::with_i64(&mut rt, 1);
    let id = a.id();
    let b = rt.retain(a.get());
    assert_eq!(rt.owned_of(id), 2);
    rt.release(b);
    assert_eq!(rt.releases_of(id), 1);
    assert_eq!(rt.owned_of(id), 1);
    rt.release(a);
    assert_eq!(rt.releases_of(id), 2);
    assert_eq!(rt.owned_of(id), 0);
}

#[test]
fn releasing_one_reference_leaves_the_other() {
    let mut rt = Runtime::new();
    let a = ns::Number::with_i64(&mut rt, 7);
    let b = rt.retain(a.get());
    rt.release(a);
    assert_eq!(b.get().as_i64(&rt), 7);
    assert_eq!(rt.owned_of(b.id()), 1);
}

#[test]
fn nested_scopes_release_each_deferral_once() {
    let mut rt = Runtime::new();
    let x = ns::Number::with_i64(&mut rt, 1);
    let y = ns::Number::with_i64(&mut rt, 2);
    let (xi, yi) = (x.id(), y.id());
    let x2 = rt.retain(x.get());
    rt.push_scope();
    let _bx = rt.autorelease(x);
    rt.push_scope();
    let _by = rt.autorelease(y);
    let _bx2 = rt.autorelease(x2);
    assert_eq!(rt.depth(), 2);
    rt.pop_scope();
    assert_eq!(rt.releases_of(yi), 1);
    assert_eq!(rt.releases_of(xi), 1);
    rt.pop_scope();
    assert_eq!(rt.releases_of(yi), 1);
    assert_eq!(rt.releases_of(xi), 2);
    assert_eq!(rt.depth(), 0);
}

#[test]
fn promoting_a_borrowed_reference_outlives_its_scope() {
    let mut rt = Runtime::new();
    rt.push_scope();
    let x = ns::Number::with_i64(&mut rt, 9);
    let borrowed = rt.autorelease(x);
    let kept = rt.retain(&borrowed);
    rt.pop_scope();
    assert_eq!(rt.releases_of(kept.id()), 1);
    assert_eq!(rt.owned_of(kept.id()), 1);
    assert_eq!(kept.get().as_i64(&rt), 9);
}

#[test]
fn guarded_calls() {
    let mut rt = Runtime::new();
    rt.push_scope();
    let ok = ns::try_catch(|| ns::Outcome::Returned(5));
    assert!(matches!(ok, Ok(5)));
    let raised: ns::Outcome<i32> = rt.raise();
    let err = ns::guarded(raised);
    match err {
        Err(e) => assert!(e.id().addr < 1),
        Ok(_) => panic!("an exception was raised"),
    }
    let nested = ns::try_catch(|| ns::Outcome::Returned(ns::try_catch(|| ns::Outcome::Returned(3))));
    assert!(matches!(nested, Ok(Ok(3))));
    rt.pop_scope();
}

#[test]
fn closing_an_outer_scope_closes_the_inner_ones_left_open() {
    let mut rt = Runtime::new();
    let kept = ns::Number::with_i64(&mut rt, 0);
    let x = ns::Number::with_i64(&mut rt, 1);
    let y = ns::Number::with_i64(&mut rt, 2);
    let (ki, xi, yi) = (kept.id(), x.id(), y.id());
    let base = rt.open_scope();
    let _bk = rt.autorelease(kept);
    let outer = rt.open_scope();
    let _bx = rt.autorelease(x);
    let _inner = rt.open_scope();
    let _by = rt.autorelease(y);
    assert_eq!(rt.depth(), 3);
    rt.close_scope(outer);
    assert_eq!(rt.depth(), 1);
    assert_eq!(rt.releases_of(xi), 1);
    assert_eq!(rt.releases_of(yi), 1);
    assert_eq!(rt.releases_of(ki), 0);
    rt.close_scope(base);
    assert_eq!(rt.releases_of(ki), 1);
    assert_eq!(rt.depth(), 0);
}

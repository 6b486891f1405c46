use lycaon::catalog::{Catalog, Delta, DeltaOp, Element, Nonce};

fn tags_of(d: &Delta) -> Vec<Nonce> {
    d.tags.clone()
}

#[test]
fn add_then_remove_locally() {
    let mut c = Catalog::new(1);
    let e = Element::new("x", "latest");
    assert!(!c.is_present(&e));
    let d = c.local_add(&e).unwrap();
    assert_eq!(d.op, DeltaOp::Add);
    assert_eq!(tags_of(&d), vec![Nonce { node: 1, seq: 0 }]);
    assert!(c.is_present(&e));
    let r = c.local_remove(&e);
    assert_eq!(r.op, DeltaOp::Remove);
    assert_eq!(tags_of(&r), vec![Nonce { node: 1, seq: 0 }]);
    assert!(!c.is_present(&e));
}

#[test]
fn fresh_tags_per_add() {
    let mut c = Catalog::new(7);
    let e = Element::new("x", "latest");
    let a = c.local_add(&e).unwrap();
    let b = c.local_add(&e).unwrap();
    assert_ne!(a.tags[0], b.tags[0]);
    let r = c.local_remove(&e);
    assert_eq!(r.tags.len(), 2);
}

#[test]
fn merge_order_does_not_matter() {
    let mut src = Catalog::new(1);
    let e = Element::new("x", "v1");
    let add = src.local_add(&e).unwrap();
    let rm = src.local_remove(&e);

    let mut left = Catalog::new(2);
    left.merge(&add);
    left.merge(&rm);
    let mut right = Catalog::new(3);
    right.merge(&rm);
    right.merge(&add);
    assert!(!left.is_present(&e));
    assert!(!right.is_present(&e));
    assert_eq!(left.references("x"), right.references("x"));
}

#[test]
fn merge_twice_is_merge_once() {
    let mut src = Catalog::new(1);
    let e = Element::new("x", "v1");
    let add = src.local_add(&e).unwrap();
    let mut c = Catalog::new(2);
    c.merge(&add);
    c.merge(&add);
    assert_eq!(c.references("x"), vec!["v1".to_string()]);
    let rm = c.local_remove(&e);
    assert_eq!(rm.tags.len(), 1);
}

#[test]
fn add_wins_over_concurrent_remove() {
    let e = Element::new("x", "latest");
    let mut a = Catalog::new(1);
    let mut b = Catalog::new(2);
    let first = a.local_add(&e).unwrap();
    b.merge(&first);
    a.merge(&first);
    // a adds again; b removes concurrently, having seen only the first add
    let second = a.local_add(&e).unwrap();
    let removal = b.local_remove(&e);
    assert_eq!(tags_of(&removal), tags_of(&first));
    a.merge(&removal);
    b.merge(&second);
    assert!(a.is_present(&e));
    assert!(b.is_present(&e));
}

#[test]
fn snapshot_rebuilds_state() {
    let mut c = Catalog::new(1);
    let x = Element::new("x", "a");
    let y = Element::new("y", "b");
    c.local_add(&x).unwrap();
    c.local_add(&y).unwrap();
    c.local_remove(&x);
    let snapshot = c.snapshot_deltas();
    assert_eq!(snapshot.len(), 3);
    let mut fresh = Catalog::new(9);
    for d in &snapshot {
        fresh.merge(d);
    }
    assert!(!fresh.is_present(&x));
    assert!(fresh.is_present(&y));
    assert_eq!(fresh.repositories(), vec!["y".to_string()]);
}

#[test]
fn own_tags_from_peers_are_not_reused() {
    let mut c = Catalog::new(1);
    let e = Element::new("x", "t");
    let foreign = Delta { op: DeltaOp::Add, element: e.clone(), tags: vec![Nonce { node: 1, seq: 5 }] };
    c.merge(&foreign);
    let d = c.local_add(&e).unwrap();
    assert_eq!(d.tags, vec![Nonce { node: 1, seq: 6 }]);
}

#[test]
fn exhausted_counter_refuses_add() {
    let mut c = Catalog::new(1);
    let e = Element::new("x", "t");
    let foreign = Delta { op: DeltaOp::Add, element: e.clone(), tags: vec![Nonce { node: 1, seq: u64::MAX }] };
    c.merge(&foreign);
    assert!(c.local_add(&Element::new("x", "u")).is_none());
    assert!(c.is_present(&e));
}

use plexus::storage::{PairStorage, SlotStorage};
use plexus::{ArcKey, EdgeKey, FaceKey, VertexKey};

#[test]
fn slot_storage_issues_each_key_once() {
    let mut storage: SlotStorage<VertexKey, &str> = SlotStorage::new();
    assert_eq!(0, storage.len());
    let a = storage.insert("a");
    let b = storage.insert("b");
    let c = storage.insert("c");
    assert_eq!((VertexKey(0), VertexKey(1), VertexKey(2)), (a, b, c));
    assert_eq!(3, storage.len());
    assert_eq!(Some(&"b"), storage.get(b));
    assert_eq!(Some("b"), storage.remove(b));
    assert_eq!(None, storage.remove(b));
    assert_eq!(None, storage.get(b));
    assert!(!storage.contains_key(b));
    assert_eq!(2, storage.len());
    assert_eq!(vec![a, c], storage.keys());
    // A key is not issued again once its payload is gone.
    let d = storage.insert("d");
    assert_eq!(VertexKey(3), d);
    assert_eq!(4, storage.slots());
    assert_eq!(vec![a, c, d], storage.keys());
}

#[test]
fn slot_storage_puts_back_under_an_issued_key_only() {
    let mut storage: SlotStorage<FaceKey, u8> = SlotStorage::new();
    let a = storage.insert(1);
    assert_eq!(Some(1), storage.remove(a));
    assert_eq!(None, storage.put(a, 2));
    assert_eq!(Some(&2), storage.get(a));
    assert_eq!(1, storage.len());
    assert_eq!(None, storage.put(a, 3));
    assert_eq!(Some(&3), storage.get(a));
    assert_eq!(1, storage.len());
    assert_eq!(Some(4), storage.put(FaceKey(7), 4));
    assert_eq!(None, storage.get(FaceKey(7)));
    assert_eq!(1, storage.len());
}

#[test]
fn pair_storage_keeps_payloads_by_pair() {
    let mut storage: PairStorage<ArcKey, u8> = PairStorage::new();
    let ab = ArcKey(VertexKey(0), VertexKey(1));
    let ba = ab.into_opposite();
    let far = ArcKey(VertexKey(u64::MAX), VertexKey(u64::MAX - 1));
    assert_eq!(None, storage.insert(ba, 2));
    assert_eq!(None, storage.insert(far, 9));
    assert_eq!(None, storage.insert(ab, 1));
    assert_eq!(Some(1), storage.insert(ab, 3));
    assert_eq!(3, storage.len());
    assert_eq!(Some(&3), storage.get(ab));
    assert_eq!(Some(&2), storage.get(ba));
    assert_eq!(Some(&9), storage.get(far));
    assert!(storage.contains_key(far));
    assert!(!storage.contains_key(far.into_opposite()));
    assert_eq!(vec![ab, ba, far], storage.keys());
    assert_eq!(Some(2), storage.remove(ba));
    assert_eq!(None, storage.remove(ba));
    assert_eq!(vec![ab, far], storage.keys());
    assert_eq!(2, storage.len());
}

#[test]
fn keys_of_arcs_and_edges_are_derived() {
    let a = VertexKey(4);
    let b = VertexKey(2);
    let ab = ArcKey::new(a, b);
    assert_eq!(a, ab.source());
    assert_eq!(b, ab.destination());
    assert_eq!(ArcKey(b, a), ab.into_opposite());
    assert_eq!(ab, ab.into_opposite().into_opposite());
    assert_eq!(EdgeKey(b, a), ab.edge());
    assert_eq!(ab.edge(), ab.into_opposite().edge());
    assert_eq!(ArcKey(b, a), ab.edge().arc());
}

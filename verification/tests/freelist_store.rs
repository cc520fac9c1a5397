use niche_collections::errors::StoreError;
use niche_collections::index::Index;
use niche_collections::store::{indices_disjoint, FreelistStore, GetDisjointMut, ReusableStore, Store};

#[test]
fn can_insert_without_alloc() {
    let mut store = FreelistStore::with_capacity(1);
    let index = store
        .insert_within_capacity(42)
        .expect("store with capacity should not have to allocate");
    assert_eq!(0, index.get(), "insert under capacity will append");
    assert_eq!(Ok(&42), store.get(index), "stored value should not change");
}

#[test]
fn can_expand_capacity() {
    let mut store = FreelistStore::new();
    assert_eq!(Err(42), store.insert_within_capacity(42));
    assert_eq!(Ok(()), store.widen(1));
}

#[test]
fn can_reuse_slot() {
    let mut store = FreelistStore::with_capacity(1);
    let index = store
        .insert_within_capacity(42)
        .expect("store with capacity should not have to allocate");
    assert_eq!(Ok(42), store.remove(index), "remove should return original value");
    let index2 = store
        .insert_within_capacity(42)
        .expect("freed space should be reused without allocation needed");
    assert_eq!(index, index2, "index should be reused");
}

#[test]
fn freelist_can_insert_without_alloc() {
    let mut store = FreelistStore::with_capacity(1);
    let index = store
        .insert_within_capacity(42)
        .expect("store with capacity should not have to allocate");
    assert_eq!(0, index.get(), "insert under capacity will append");
    assert_eq!(Ok(&42), store.get(index), "stored value should not change");
}

#[test]
fn freelist_can_expand_capacity() {
    let mut store = FreelistStore::new();
    assert_eq!(Err(42), store.insert_within_capacity(42));
    assert_eq!(Ok(()), store.widen(1));
}

#[test]
fn freelist_can_reuse_slot() {
    let mut store = FreelistStore::with_capacity(1);
    let index = store
        .insert_within_capacity(42)
        .expect("store with capacity should not have to allocate");
    assert_eq!(Ok(42), store.remove(index), "remove should return original value");
    let index2 = store
        .insert_within_capacity(42)
        .expect("freed space should be reused without allocation needed");
    assert_eq!(index, index2, "index should be reused");
}

#[test]
fn freelist_reuse_is_lifo() {
    // Freed slots are reused youngest-first, and reuse never touches an
    // occupied slot.
    let mut store = FreelistStore::with_capacity(4);
    let a = store.insert_within_capacity(10).unwrap();
    let b = store.insert_within_capacity(11).unwrap();
    let c = store.insert_within_capacity(12).unwrap();
    assert_eq!(Ok(11), store.remove(b));
    assert_eq!(Ok(10), store.remove(a));
    // Most recently freed first: a, then b, then the untouched slot.
    let r1 = store.insert_within_capacity(20).unwrap();
    assert_eq!(a.get(), r1.get());
    let r2 = store.insert_within_capacity(21).unwrap();
    assert_eq!(b.get(), r2.get());
    let r3 = store.insert_within_capacity(22).unwrap();
    assert_eq!(3, r3.get());
    assert_eq!(Ok(&12), store.get(c));
    assert_eq!(Ok(&20), store.get(r1));
    assert_eq!(Ok(&21), store.get(r2));
}

#[test]
fn freelist_widen_is_idempotent() {
    // A second growth request at or below the reached capacity is a no-op.
    let mut store = FreelistStore::<u8>::new();
    assert_eq!(Ok(()), store.widen(5));
    assert_eq!(5, store.capacity());
    assert_eq!(Ok(()), store.widen(5));
    assert_eq!(5, store.capacity());
    assert_eq!(Ok(()), store.widen(3));
    assert_eq!(5, store.capacity());
    // Growth doubles at least, to amortize.
    assert_eq!(Ok(()), store.widen(6));
    assert_eq!(10, store.capacity());
}

#[test]
fn freelist_rejects_bad_accesses() {
    let mut store = FreelistStore::with_capacity(2);
    let a = store.insert_within_capacity(1).unwrap();
    let beyond = Index::new(1).unwrap();
    assert_eq!(Err(StoreError::OutOfBounds(beyond, 1)), store.get(beyond));
    assert_eq!(Ok(1), store.remove(a));
    assert_eq!(Err(StoreError::AccessAfterFree(a)), store.get(a));
    assert_eq!(Err(StoreError::DoubleFree(a)), store.remove(a));
}

#[test]
fn freelist_disjoint_pair_rejects_aliases() {
    let mut store = FreelistStore::with_capacity(2);
    let a = store.insert_within_capacity(1).unwrap();
    let b = store.insert_within_capacity(2).unwrap();
    assert!(matches!(
        store.get_pair_mut(a, a),
        Err(StoreError::DisjointError)
    ));
    {
        let (ra, rb) = store.get_pair_mut(a, b).unwrap();
        *ra = 10;
        *rb = 20;
    }
    assert_eq!(Ok(&10), store.get(a));
    assert_eq!(Ok(&20), store.get(b));
}

#[test]
fn freelist_clear_empties_without_shrinking() {
    let mut store = FreelistStore::with_capacity(2);
    let a = store.insert_within_capacity(7).unwrap();
    store.clear();
    assert_eq!(2, store.capacity());
    assert_eq!(Err(StoreError::OutOfBounds(a, 0)), store.get(a));
    let again = store.insert_within_capacity(8).unwrap();
    assert_eq!(0, again.get());
}

#[test]
fn batch_distinctness_check() {
    let i0 = Index::new(0).unwrap();
    let i1 = Index::new(1).unwrap();
    let i2 = Index::new(2).unwrap();
    let none: Vec<Index> = vec![];
    assert!(indices_disjoint(&none));
    assert!(indices_disjoint(&vec![i0]));
    assert!(indices_disjoint(&vec![i0, i1, i2]));
    assert!(!indices_disjoint(&vec![i0, i1, i0]));
    assert!(!indices_disjoint(&vec![i2, i2]));
}

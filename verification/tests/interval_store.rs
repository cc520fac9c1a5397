use niche_collections::errors::StoreError;
use niche_collections::index::Index;
use niche_collections::store::IntervaltreeStore;

#[test]
fn interval_allocates_leftmost_fit() {
    let mut store: IntervaltreeStore<u8> = IntervaltreeStore::with_capacity(8);
    let a = store.insert_many_within_capacity(&vec![1, 2, 3]).unwrap();
    assert_eq!(0, a.get());
    let b = store.insert_many_within_capacity(&vec![4, 5]).unwrap();
    assert_eq!(3, b.get());
    assert_eq!(Ok(vec![1, 2, 3]), store.get_many(a, 3));
    assert_eq!(Ok(vec![4, 5]), store.get_many(b, 2));
    // free the first run; the next fitting run goes back to the left
    let removed = store.remove_many(a, 3).unwrap();
    assert_eq!(&vec![1, 2, 3], removed.values());
    let c = store.insert_many_within_capacity(&vec![9, 9]).unwrap();
    assert_eq!(0, c.get(), "the leftmost fitting gap is taken");
}

#[test]
fn interval_merges_freed_neighbours() {
    // Freeing the middle run merges three free ranges into one, so a run
    // spanning all three fits again.
    let mut store: IntervaltreeStore<u16> = IntervaltreeStore::with_capacity(6);
    let a = store.insert_many_within_capacity(&vec![1, 1]).unwrap();
    let b = store.insert_many_within_capacity(&vec![2, 2]).unwrap();
    let c = store.insert_many_within_capacity(&vec![3, 3]).unwrap();
    assert!(store.insert_many_within_capacity(&vec![7]).is_none());
    store.remove_many(a, 2).unwrap();
    store.remove_many(c, 2).unwrap();
    store.remove_many(b, 2).unwrap();
    let whole = store.insert_many_within_capacity(&vec![5, 5, 5, 5, 5, 5]).unwrap();
    assert_eq!(0, whole.get(), "the coalesced gap spans the whole store");
}

#[test]
fn interval_rejects_bad_ranges() {
    let mut store: IntervaltreeStore<u8> = IntervaltreeStore::with_capacity(4);
    let a = store.insert_many_within_capacity(&vec![1, 2]).unwrap();
    let far = Index::new(3).unwrap();
    assert_eq!(Err(StoreError::OutOfBounds(far, 4)), store.get_many(far, 2));
    assert_eq!(Err(StoreError::AccessAfterFree(far)), store.get_many(far, 1));
    store.remove_many(a, 2).unwrap();
    assert_eq!(Err(StoreError::AccessAfterFree(a)), store.get_many(a, 2));
    assert_eq!(Err(StoreError::AccessAfterFree(a)), store.remove_many(a, 2).map(|_| ()));
}

#[test]
fn interval_widen_and_clear() {
    let mut store: IntervaltreeStore<u8> = IntervaltreeStore::with_capacity(2);
    let a = store.insert_many_within_capacity(&vec![8, 9]).unwrap();
    assert_eq!(Err(StoreError::Narrow(2, 2)), store.widen(2));
    assert_eq!(Ok(()), store.widen(3));
    assert_eq!(4, store.capacity(), "growth doubles at least");
    assert_eq!(Ok(vec![8, 9]), store.get_many(a, 2), "live runs survive growth");
    let b = store.insert_many_within_capacity(&vec![1, 2]).unwrap();
    assert_eq!(2, b.get());
    store.clear();
    assert_eq!(4, store.capacity());
    assert!(store.get_many(a, 2).is_err());
    let fresh = store.insert_many_within_capacity(&vec![1, 2, 3, 4]).unwrap();
    assert_eq!(0, fresh.get());
}

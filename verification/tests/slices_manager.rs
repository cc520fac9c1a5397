use niche_collections::errors::{HandleFault, ManagerError, StoreError};
use niche_collections::manager::{SlicesManager, Slices};

#[test]
fn slices_header_is_one_cell() {
    assert_eq!(1, Slices::<u32>::header_size());
}

#[test]
fn slices_round_trip_and_len() {
    let mut manager: SlicesManager<u32> = SlicesManager::new(200);
    assert_eq!(Ok(()), manager.reserve(8));
    let h = manager.insert_within_capacity(&vec![10, 20, 30]).unwrap();
    assert_eq!(Ok(3), manager.len(h));
    assert_eq!(Ok(vec![10, 20, 30]), manager.get(h));
    assert_eq!(Ok(vec![10, 20, 30]), manager.remove(h));
    assert_eq!(
        Err(ManagerError::StoreError(StoreError::AccessAfterFree(h.index()))),
        manager.get(h)
    );
}

#[test]
fn slices_rejects_stale_and_foreign_handles() {
    let mut manager: SlicesManager<u8> = SlicesManager::new(201);
    let other: SlicesManager<u8> = SlicesManager::new(202);
    assert_eq!(Ok(()), manager.reserve(8));
    let stale = manager.insert_within_capacity(&vec![1, 2]).unwrap();
    assert_eq!(
        Err(ManagerError::BadHandle(HandleFault::WrongBrand)),
        other.get(stale)
    );
    assert_eq!(Ok(vec![1, 2]), manager.remove(stale));
    // the freed cells are reused under a bumped generation
    let fresh = manager.insert_within_capacity(&vec![7, 8]).unwrap();
    assert_eq!(stale.index().get(), fresh.index().get());
    assert_ne!(stale.version().get(), fresh.version().get());
    assert_eq!(
        Err(ManagerError::BadHandle(HandleFault::VersionMismatch)),
        manager.len(stale)
    );
    assert_eq!(Ok(vec![7, 8]), manager.get(fresh));
}

#[test]
fn slices_of_different_lengths_share_the_store() {
    let mut manager: SlicesManager<u64> = SlicesManager::new(203);
    assert_eq!(Ok(()), manager.reserve(16));
    let a = manager.insert_within_capacity(&vec![1]).unwrap();
    let b = manager.insert_within_capacity(&vec![2, 2, 2, 2]).unwrap();
    let empty = manager.insert_within_capacity(&vec![]).unwrap();
    assert_eq!(Ok(1), manager.len(a));
    assert_eq!(Ok(4), manager.len(b));
    assert_eq!(Ok(0), manager.len(empty));
    assert_eq!(Ok(vec![]), manager.get(empty));
    // removing the short run frees too little room for a longer one there
    assert_eq!(Ok(vec![1]), manager.remove(a));
    let c = manager.insert_within_capacity(&vec![3, 3, 3]).unwrap();
    assert!(c.index().get() > a.index().get());
    assert_eq!(Ok(vec![2, 2, 2, 2]), manager.get(b));
}

#[test]
fn slices_clear_keeps_capacity() {
    let mut manager: SlicesManager<u16> = SlicesManager::new(204);
    assert_eq!(Ok(()), manager.reserve(4));
    let h = manager.insert_within_capacity(&vec![5]).unwrap();
    manager.clear();
    assert_eq!(4, manager.capacity());
    assert!(manager.get(h).is_err());
    let fresh = manager.insert_within_capacity(&vec![6]).unwrap();
    assert_eq!(Ok(vec![6]), manager.get(fresh));
}

#[test]
fn slices_mutate_in_place_and_migrate() {
    let mut manager: SlicesManager<u32> = SlicesManager::new(205);
    assert_eq!(Ok(()), manager.reserve(8));
    let h = manager.insert_within_capacity(&vec![1, 2, 3]).unwrap();
    // in-place mutation of one payload unit
    assert_eq!(Ok(()), manager.set_at(h, 1, 20));
    assert_eq!(Ok(vec![1, 20, 3]), manager.get(h));
    assert_eq!(
        Err(ManagerError::StoreError(StoreError::OutOfBounds(h.index(), 3))),
        manager.set_at(h, 3, 9)
    );
    // migration bumps the inline header's generation in place
    let moved = manager.bump_version(h).unwrap();
    assert_eq!(h.index().get(), moved.index().get());
    assert_ne!(h.version().get(), moved.version().get());
    assert_eq!(
        Err(ManagerError::BadHandle(HandleFault::VersionMismatch)),
        manager.get(h)
    );
    assert_eq!(Ok(vec![1, 20, 3]), manager.get(moved));
}

#[test]
fn slices_insert_grows_on_demand() {
    let mut manager: SlicesManager<u8> = SlicesManager::new(206);
    // no capacity at all: insert grows by exactly the run's size and retries
    let a = manager.insert(&vec![1, 2, 3]).unwrap();
    assert_eq!(Ok(vec![1, 2, 3]), manager.get(a));
    // a fragmented store still recovers by growing
    let b = manager.insert(&vec![4]).unwrap();
    assert_eq!(Ok(vec![4]), manager.get(b));
    assert_eq!(Ok(vec![1, 2, 3]), manager.remove(a));
    let c = manager.insert(&vec![5, 6, 7, 8, 9, 10, 11]).unwrap();
    assert_eq!(Ok(vec![5, 6, 7, 8, 9, 10, 11]), manager.get(c));
    assert_eq!(Ok(vec![4]), manager.get(b));
}

use niche_collections::errors::{HandleFault, ManagerError, StoreError};
use niche_collections::index::Version;
use niche_collections::manager::{SoAManager, VManager, XManager};
use niche_collections::store::{FreelistStore, SimpleStore};

#[test]
fn can_use_inner_store() {
    let mut manager: XManager<i16, FreelistStore<i16>> = XManager::new(1);
    assert_eq!(Ok(()), manager.reserve(1));
    let handle = manager
        .insert_within_capacity(42)
        .expect("insert with spare capacity should be successful");
    assert_eq!(Ok(&42), manager.get(&handle));
    assert!(matches!(manager.remove(handle), Ok(42)));
}

#[test]
fn exclusive_can_use_inner_store() {
    let mut manager: XManager<i16, FreelistStore<i16>> = XManager::new(2);
    assert_eq!(Ok(()), manager.reserve(1));
    let handle = manager
        .insert_within_capacity(42)
        .expect("insert with spare capacity should be successful");
    assert_eq!(Ok(&42), manager.get(&handle));
    assert!(matches!(manager.remove(handle), Ok(42)));
}

#[test]
fn exclusive_rejects_foreign_brand() {
    let mut minting: XManager<bool, FreelistStore<bool>> = XManager::new(10);
    let other: XManager<bool, FreelistStore<bool>> = XManager::new(11);
    assert_eq!(Ok(()), minting.reserve(1));
    let handle = minting.insert_within_capacity(true).unwrap();
    assert_eq!(
        Err(ManagerError::BadHandle(HandleFault::WrongBrand)),
        other.get(&handle)
    );
    assert_eq!(Ok(&true), minting.get(&handle));
}

#[test]
fn exclusive_works_on_append_only_store() {
    let mut manager: XManager<u8, SimpleStore<u8>> = XManager::new(3);
    assert_eq!(Ok(()), manager.reserve(2));
    let a = manager.insert_within_capacity(1).unwrap();
    let b = manager.insert_within_capacity(2).unwrap();
    assert_eq!(Ok(&1), manager.get(&a));
    assert_eq!(Ok(&2), manager.get(&b));
    assert!(manager.insert_within_capacity(3).is_err());
}

#[test]
fn exclusive_disjoint_mutation() {
    let mut manager: XManager<u32, FreelistStore<u32>> = XManager::new(4);
    assert_eq!(Ok(()), manager.reserve(2));
    let mut a = manager.insert_within_capacity(5).unwrap();
    let mut b = manager.insert_within_capacity(6).unwrap();
    {
        let (ra, rb) = manager.get_disjoint_mut(&mut a, &mut b).unwrap();
        core::mem::swap(ra, rb);
    }
    assert_eq!(Ok(&6), manager.get(&a));
    assert_eq!(Ok(&5), manager.get(&b));
}

#[test]
fn versioned_rejects_stale_handle() {
    // Insert, remove, reinsert into the same slot: the original handle must
    // fail with a version mismatch, never reach the new occupant.
    let mut manager: VManager<i32, FreelistStore<(Version, i32)>> = VManager::new(5);
    assert_eq!(Ok(()), manager.reserve(1));
    let stale = manager.insert_within_capacity(42).unwrap();
    assert_eq!(Ok(42), manager.remove(stale));
    let fresh = manager.insert_within_capacity(7).unwrap();
    assert_eq!(stale.index().get(), fresh.index().get(), "the slot is reused");
    assert_ne!(stale.version().get(), fresh.version().get());
    assert_eq!(
        Err(ManagerError::BadHandle(HandleFault::VersionMismatch)),
        manager.get(stale)
    );
    assert_eq!(Ok(&7), manager.get(fresh));
}

#[test]
fn versioned_generation_bumps_once_per_cycle() {
    // The generation advances only between a removal and the next
    // insertion, not on every insert.
    let mut manager: VManager<u8, FreelistStore<(Version, u8)>> = VManager::new(6);
    assert_eq!(Ok(()), manager.reserve(4));
    let a = manager.insert_within_capacity(1).unwrap();
    let b = manager.insert_within_capacity(2).unwrap();
    assert_eq!(a.version(), b.version());
    assert_eq!(Ok(1), manager.remove(a));
    assert_eq!(Ok(2), manager.remove(b));
    let c = manager.insert_within_capacity(3).unwrap();
    let d = manager.insert_within_capacity(4).unwrap();
    assert_eq!(c.version(), d.version());
    assert_eq!(a.version().get() + 1, c.version().get());
}

#[test]
fn versioned_get_mut_keeps_handles_valid() {
    let mut manager: VManager<i32, FreelistStore<(Version, i32)>> = VManager::new(7);
    assert_eq!(Ok(()), manager.reserve(1));
    let handle = manager.insert_within_capacity(1).unwrap();
    *manager.get_mut(handle).unwrap() = 2;
    assert_eq!(Ok(&2), manager.get(handle));
}

#[test]
fn versioned_bump_version_invalidates_in_place() {
    let mut manager: VManager<i32, FreelistStore<(Version, i32)>> = VManager::new(8);
    assert_eq!(Ok(()), manager.reserve(1));
    let handle = manager.insert_within_capacity(9).unwrap();
    let moved = manager.bump_version(handle).unwrap();
    assert_eq!(
        Err(ManagerError::BadHandle(HandleFault::VersionMismatch)),
        manager.get(handle)
    );
    assert_eq!(Ok(&9), manager.get(moved));
}

#[test]
fn versioned_disjoint_checks_both_stamps() {
    let mut manager: VManager<u16, FreelistStore<(Version, u16)>> = VManager::new(9);
    assert_eq!(Ok(()), manager.reserve(3));
    let a = manager.insert_within_capacity(1).unwrap();
    let b = manager.insert_within_capacity(2).unwrap();
    {
        let (ra, rb) = manager.get_disjoint_mut(a, b).unwrap();
        *ra = 10;
        *rb = 20;
    }
    assert_eq!(Ok(&10), manager.get(a));
    assert_eq!(Ok(&20), manager.get(b));
    assert!(matches!(
        manager.get_disjoint_mut(a, a),
        Err(ManagerError::StoreError(StoreError::DisjointError))
    ));
    assert_eq!(Ok(10), manager.remove(a));
    let reused = manager.insert_within_capacity(30).unwrap();
    assert_eq!(a.index().get(), reused.index().get());
    assert!(matches!(
        manager.get_disjoint_mut(a, b),
        Err(ManagerError::BadHandle(HandleFault::VersionMismatch))
    ));
}

#[test]
fn manager_reserve_reports_exhaustion() {
    let mut manager: XManager<u8, SimpleStore<u8>> = XManager::new(12);
    assert_eq!(Ok(()), manager.reserve(u32::MAX));
    assert_eq!(u32::MAX, manager.capacity());
    assert_eq!(
        Err(ManagerError::StoreError(StoreError::OutofMemory(u32::MAX, u32::MAX))),
        manager.reserve(1)
    );
}

#[test]
fn soa_manager_serves_columnar_records() {
    let mut manager: SoAManager<(u32, u64)> = SoAManager::new(13).unwrap();
    assert_eq!(Ok(()), manager.reserve(2));
    let a = manager.insert_within_capacity((1, 10)).unwrap();
    assert_eq!(Ok((1, 10)), manager.get_row(&a));
    assert_eq!(Ok(()), manager.set_row(&a, (2, 20)));
    assert_eq!(Ok((2, 20)), manager.get_row(&a));
    let other: SoAManager<(u32, u64)> = SoAManager::new(14).unwrap();
    assert_eq!(
        Err(ManagerError::BadHandle(HandleFault::WrongBrand)),
        other.get_row(&a)
    );
    assert!(matches!(manager.remove(a), Ok((2, 20))));
}

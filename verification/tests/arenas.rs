use niche_collections::arena::{CountHeader, Headless, VersionArena, XArena};
use niche_collections::errors::{ArenaError, HandleFault, ManagerError};
use niche_collections::index::Version;
use niche_collections::store::FreelistStore;

type IntArena = VersionArena<i32, FreelistStore<(Version, i32)>, Headless>;

#[test]
fn versioned_arena_detects_reuse() {
    // Arena with capacity 1, single typed slot: insert, read, remove,
    // reinsert; the reused slot carries a new generation and the original
    // handle is rejected.
    let mut arena = IntArena::new(100, Headless);
    assert_eq!(Ok(()), arena.reserve(1));
    let h0 = arena.insert_within_capacity(0, 42).unwrap();
    assert_eq!(Ok(&42), arena.get(0, h0));
    assert_eq!(Ok(42), arena.remove(0, h0));
    let h1 = arena.insert(0, 7).unwrap();
    assert_eq!(h0.index().get(), h1.index().get(), "the raw index is reused");
    assert_ne!(h0.version().get(), h1.version().get(), "the generation differs");
    assert_eq!(
        Err(ArenaError::ManagerError(ManagerError::BadHandle(HandleFault::VersionMismatch))),
        arena.get(0, h0)
    );
    assert_eq!(Ok(&7), arena.get(0, h1));
}

#[test]
fn exclusive_arena_grows_on_demand() {
    // `insert` attempts within capacity, grows by exactly the minimal
    // additional capacity on failure, and retries once.
    let mut arena: XArena<i32, FreelistStore<i32>> = XArena::new(101);
    let a = arena.insert(1).unwrap();
    let b = arena.insert(2).unwrap();
    assert_eq!(Ok(&1), arena.get(&a));
    assert_eq!(Ok(&2), arena.get(&b));
    let (removed_a, removed_b) = (arena.remove(a), arena.remove(b));
    assert!(matches!(removed_a, Ok(1)));
    assert!(matches!(removed_b, Ok(2)));
}

#[test]
fn exclusive_arena_mutates_through_handles() {
    let mut arena: XArena<u64, FreelistStore<u64>> = XArena::new(102);
    assert_eq!(Ok(()), arena.reserve(2));
    let mut a = arena.insert_within_capacity(3).unwrap();
    let mut b = arena.insert_within_capacity(4).unwrap();
    *arena.get_mut(&mut a).unwrap() = 30;
    {
        let (ra, rb) = arena.get_disjoint_mut(&mut a, &mut b).unwrap();
        *ra += 1;
        *rb += 1;
    }
    assert_eq!(Ok(&31), arena.get(&a));
    assert_eq!(Ok(&5), arena.get(&b));
}

#[test]
fn exclusive_arena_into_empty_rebrands() {
    let mut arena: XArena<i8, FreelistStore<i8>> = XArena::new(103);
    assert_eq!(Ok(()), arena.reserve(1));
    let h = arena.insert_within_capacity(1).unwrap();
    let arena = arena.into_empty(104);
    assert_eq!(
        Err(ArenaError::ManagerError(ManagerError::BadHandle(HandleFault::WrongBrand))),
        arena.get(&h)
    );
}

#[test]
fn ports_are_independent_scopes() {
    let mut arena = IntArena::new(110, Headless);
    assert_eq!(Ok(()), arena.reserve(2));
    let other = arena.split(111);
    let h_main = arena.insert_within_capacity(0, 1).unwrap();
    let h_other = arena.insert_within_capacity(other, 2).unwrap();
    // Each port only vouches for its own handles.
    assert_eq!(Ok(&1), arena.get(0, h_main));
    assert_eq!(Ok(&2), arena.get(other, h_other));
    assert_eq!(
        Err(ArenaError::ManagerError(ManagerError::BadHandle(HandleFault::WrongBrand))),
        arena.get(other, h_main)
    );
    assert_eq!(
        Err(ArenaError::ManagerError(ManagerError::BadHandle(HandleFault::WrongBrand))),
        arena.get(0, h_other)
    );
}

#[test]
fn join_merges_headers_and_moves_handles() {
    let mut arena: VersionArena<i32, FreelistStore<(Version, i32)>, CountHeader> =
        VersionArena::new(120, CountHeader { count: 5 });
    assert_eq!(Ok(()), arena.reserve(2));
    let side = arena.split(121);
    arena.header_mut(side).count = 3;
    let stale = arena.insert_within_capacity(side, 9).unwrap();
    let map = arena.join(0, side);
    assert_eq!(CountHeader { count: 8 }, *arena.header(0), "headers are merged");
    assert!(!arena.is_port_live(side), "the joined-away port is retired");
    let moved = arena.move_to(map, stale).unwrap();
    assert_eq!(stale.index().get(), moved.index().get());
    assert_ne!(stale.version().get(), moved.version().get());
    assert_eq!(Ok(&9), arena.get(0, moved));
    assert_eq!(
        Err(ArenaError::ManagerError(ManagerError::BadHandle(HandleFault::VersionMismatch))),
        arena.move_to(map, stale)
    );
}

#[test]
fn versioned_arena_clear_frees_everything() {
    let mut arena = IntArena::new(130, Headless);
    assert_eq!(Ok(()), arena.reserve(2));
    let a = arena.insert_within_capacity(0, 1).unwrap();
    let _b = arena.insert_within_capacity(0, 2).unwrap();
    arena.clear();
    assert!(arena.get(0, a).is_err());
    let fresh = arena.insert_within_capacity(0, 3).unwrap();
    assert_eq!(Ok(&3), arena.get(0, fresh));
}

use niche_collections::errors::StoreError;
use niche_collections::index::Index;
use niche_collections::store::{
    masked_disjoint, register_columns, BitMap, Header, MaskedFreelistStore, Prefix,
    ReusableSoAStore, SoAFreelistStore, SoAStore,
};

type PairStore = SoAFreelistStore<(u32, u64)>;

#[test]
fn soa_round_trip_preserves_fields() {
    // Inserting a record and removing it yields a field-wise equal record.
    let mut store = PairStore::with_capacity(2).unwrap();
    let original = (7u32, 40_000_000_000u64);
    let index = store.insert_within_capacity(original).unwrap();
    assert_eq!(Ok(original), store.remove(index));
}

#[test]
fn soa_reuses_freed_rows_lifo() {
    let mut store = PairStore::with_capacity(3).unwrap();
    let a = store.insert_within_capacity((1, 10)).unwrap();
    let b = store.insert_within_capacity((2, 20)).unwrap();
    assert_eq!(Ok((1, 10)), store.remove(a));
    assert_eq!(Ok((2, 20)), store.remove(b));
    // Youngest freed first.
    let r1 = store.insert_within_capacity((3, 30)).unwrap();
    assert_eq!(b.get(), r1.get());
    let r2 = store.insert_within_capacity((4, 40)).unwrap();
    assert_eq!(a.get(), r2.get());
}

#[test]
fn soa_growth_migrates_live_rows() {
    // Growing the store preserves every live row's per-column values.
    let mut store = PairStore::with_capacity(2).unwrap();
    let a = store.insert_within_capacity((1, 11)).unwrap();
    let b = store.insert_within_capacity((2, 22)).unwrap();
    assert!(store.insert_within_capacity((3, 33)).is_err());
    assert_eq!(Ok(()), store.widen(3));
    assert_eq!(4, store.capacity(), "growth doubles at least");
    assert_eq!(Ok((1, 11)), store.get_row(a));
    assert_eq!(Ok((2, 22)), store.get_row(b));
    let c = store.insert_within_capacity((3, 33)).unwrap();
    assert_eq!(Ok((3, 33)), store.get_row(c));
}

#[test]
fn soa_widen_rejects_narrowing() {
    let mut store = PairStore::with_capacity(4).unwrap();
    assert_eq!(Err(StoreError::Narrow(4, 4)), store.widen(4));
    assert_eq!(Err(StoreError::Narrow(2, 4)), store.widen(2));
    assert_eq!(4, store.capacity());
}

#[test]
fn soa_access_validates_rows() {
    let mut store = PairStore::with_capacity(2).unwrap();
    let a = store.insert_within_capacity((5, 50)).unwrap();
    let beyond = Index::new(1).unwrap();
    assert_eq!(Err(StoreError::OutOfBounds(beyond, 1)), store.get_row(beyond));
    assert_eq!(Ok(()), store.set_row(a, (6, 60)));
    assert_eq!(Ok((6, 60)), store.get_row(a));
    assert_eq!(Ok((6, 60)), store.remove(a));
    assert_eq!(Err(StoreError::AccessAfterFree(a)), store.get_row(a));
    assert_eq!(Err(StoreError::DoubleFree(a)), store.remove(a));
}

#[test]
fn soa_clear_keeps_capacity() {
    let mut store = PairStore::with_capacity(2).unwrap();
    let a = store.insert_within_capacity((1, 1)).unwrap();
    store.clear();
    assert_eq!(2, store.capacity());
    assert!(store.get_row(a).is_err());
    let fresh = store.insert_within_capacity((2, 2)).unwrap();
    assert_eq!(0, fresh.get());
}

#[test]
fn layout_packs_columns_in_order() {
    // Two columns behind a one-byte occupation bitmap (8 rows): each column
    // starts at the smallest offset satisfying its alignment after its
    // predecessor.
    let cols = vec![Header::new(32, 4), Header::new(64, 8)];
    let (placed, total, align) = register_columns(&cols, 8).unwrap();
    assert_eq!(2, placed.len());
    assert_eq!(4, placed[0].offset, "first column starts after the bitmap, aligned");
    assert_eq!(40, placed[1].offset, "second column follows, aligned to eight");
    assert_eq!(104, total);
    assert_eq!(8, align, "the allocation takes the strictest alignment");
}

#[test]
fn layout_rejects_zero_alignment() {
    let cols = vec![Header::new(8, 0)];
    assert_eq!(Err(StoreError::InvalidLayout), register_columns(&cols, 8));
}

#[test]
fn layout_rejects_overflowing_sizes() {
    let cols = vec![Header::new(u64::MAX, 1), Header::new(1, 1)];
    assert_eq!(Err(StoreError::InvalidLayout), register_columns(&cols, 8));
}

#[test]
fn bitmap_tracks_bits_across_words() {
    let mut bits = BitMap::new(130);
    assert!(!bits.load(0));
    bits.set(0);
    bits.set(63);
    bits.set(64);
    bits.set(129);
    assert!(bits.load(0) && bits.load(63) && bits.load(64) && bits.load(129));
    assert!(!bits.load(1) && !bits.load(65) && !bits.load(128));
    bits.clear(63);
    assert!(!bits.load(63) && bits.load(64));
    bits.store(1, true);
    bits.store(0, false);
    assert!(bits.load(1) && !bits.load(0));
    bits.grow(200);
    assert_eq!(200, bits.len());
    assert!(bits.load(1) && bits.load(129) && !bits.load(150));
    bits.clear_all();
    assert!(!bits.load(1) && !bits.load(129));
}

#[test]
fn prefix_carries_and_strips() {
    let p = Prefix::new(3u16, (1u32, 2u64));
    assert_eq!((1u32, 2u64), p.into_rest());
}

#[test]
fn masked_access_disjointness() {
    let r0 = Index::new(0).unwrap();
    let r1 = Index::new(1).unwrap();
    // same row, disjoint column masks: sound to access at once
    assert!(masked_disjoint(&vec![(r0, 0b01), (r0, 0b10)]));
    // same row, intersecting masks: rejected
    assert!(!masked_disjoint(&vec![(r0, 0b01), (r0, 0b11)]));
    // different rows may use any masks
    assert!(masked_disjoint(&vec![(r0, 0b11), (r1, 0b11)]));
    assert!(!masked_disjoint(&vec![(r0, 0b10), (r1, 0b01), (r0, 0b110)]));
}

#[test]
fn masked_store_flags_beside_rows() {
    let mut store: MaskedFreelistStore<(u32, u64)> =
        MaskedFreelistStore::with_capacity(2, 2).unwrap();
    let a = store.insert_within_capacity((1, 10)).unwrap();
    let b = store.insert_within_capacity((2, 20)).unwrap();
    assert_eq!(Ok(false), store.flag_load(a, 0), "flags start clear");
    assert_eq!(Ok(()), store.flag_set(a, 0));
    assert_eq!(Ok(()), store.flag_store(b, 1, true));
    assert_eq!(Ok(true), store.flag_load(a, 0));
    assert_eq!(Ok(false), store.flag_load(a, 1));
    assert_eq!(Ok(true), store.flag_load(b, 1));
    // a flag column that was never registered is an invalid query
    assert_eq!(Err(StoreError::InvalidQuery), store.flag_load(a, 2));
    assert_eq!(Err(StoreError::InvalidQuery), store.flag_store(a, 9, true));
    // rows and flags survive growth; new rows start clear
    assert_eq!(Ok(()), store.widen(3));
    assert_eq!(4, store.capacity());
    assert_eq!(Ok((1, 10)), store.get_row(a));
    assert_eq!(Ok(true), store.flag_load(a, 0));
    let c = store.insert_within_capacity((3, 30)).unwrap();
    assert_eq!(Ok(false), store.flag_load(c, 0));
    // a freed row's flags are unreachable until reuse, and reuse clears them
    assert_eq!(Ok((1, 10)), store.remove(a));
    assert_eq!(Err(StoreError::AccessAfterFree(a)), store.flag_load(a, 0));
    let reused = store.insert_within_capacity((4, 40)).unwrap();
    assert_eq!(a.get(), reused.get());
    assert_eq!(Ok(false), store.flag_load(reused, 0), "reuse clears the flags");
}

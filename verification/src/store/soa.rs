//! The columnar (structure-of-arrays) reuse store: each field of a record
//! lives in its own contiguous column, all columns sized to one shared
//! capacity, with an occupation bitmap deciding for every row whether its
//! storage holds field data or a freelist link.  One designated column
//! doubles as the freelist-link storage for free rows, so reuse tracking
//! costs no space.

use vstd::prelude::*;

use crate::errors::{SResult, StoreError};
use crate::index::{Index, Length};
use crate::store::{
    col_offset, grow_target, layout_fits, miss_err_of, register_columns, remove_err_of, BitMap,
    Header,
};

verus! {

broadcast use crate::index::lemma_index_bounds, crate::index::lemma_index_injective;

/// The columnar-storage contract: a record type that can enumerate the
/// memory layout each of its columns needs, move a fully-constructed row
/// into per-column storage, reconstitute a row by reading back, and
/// reinterpret one designated column's slot as an optional next-free
/// index.  Satisfiable by hand-written as well as generated code.
pub trait Columns: Sized {
    /// The per-column backing storage.
    type Storage;

    /// The per-column layouts (size and alignment) requested at a given
    /// row capacity; what `column_layouts` enumerates.
    spec fn layout_spec(rows: int) -> Seq<Header>;

    /// The layouts at a given capacity are computable (no size overflows).
    spec fn layouts_ok(rows: int) -> bool;

    /// How many rows the storage holds.
    spec fn rows_of(s: &Self::Storage) -> nat;

    /// The record a row currently presents, where it holds field data.
    spec fn row_at(s: &Self::Storage, i: int) -> Self;

    /// The freelist link a row currently presents, where it holds one.
    spec fn link_at(s: &Self::Storage, i: int) -> Option<Index>;

    /// Whether row `i`'s storage currently holds field data.
    spec fn row_defined(s: &Self::Storage, i: int) -> bool;

    /// Whether row `i`'s designated column currently holds a link.
    spec fn link_defined(s: &Self::Storage, i: int) -> bool;

    /// Enumerates the memory layout required per column, exactly once per
    /// column, for `rows` rows; fails only where a column size overflows.
    fn column_layouts(rows: Length) -> (r: SResult<Vec<Header>>)
        ensures
            match r {
                Ok(v) => Self::layouts_ok(rows as int) && v@ == Self::layout_spec(rows as int)
                    && v@.len() >= 1,
                Err(e) => e == StoreError::InvalidLayout && !Self::layouts_ok(rows as int),
            },
    ;

    /// Fresh storage for `rows` rows, none of them holding anything.
    fn with_rows(rows: Length) -> (s: Self::Storage)
        ensures
            Self::rows_of(&s) == rows,
            forall|i: int|
                0 <= i < rows ==> !Self::row_defined(&s, i) && !Self::link_defined(&s, i),
    ;

    /// Grows the storage to `new_rows` rows; every old row keeps its
    /// contents and interpretation, every new row holds nothing.
    fn grow_rows(s: &mut Self::Storage, new_rows: Length)
        requires
            Self::rows_of(old(s)) <= new_rows,
        ensures
            Self::rows_of(final(s)) == new_rows,
            forall|i: int|
                0 <= i < Self::rows_of(old(s)) ==> Self::row_at(final(s), i) == Self::row_at(
                    old(s),
                    i,
                ) && Self::link_at(final(s), i) == Self::link_at(old(s), i) && Self::row_defined(
                    final(s),
                    i,
                ) == Self::row_defined(old(s), i) && Self::link_defined(final(s), i)
                    == Self::link_defined(old(s), i),
            forall|i: int|
                Self::rows_of(old(s)) <= i < new_rows ==> !Self::row_defined(final(s), i)
                    && !Self::link_defined(final(s), i),
    ;

    /// Moves a row's fields into their per-column destinations.
    fn write_row(s: &mut Self::Storage, i: Index, v: Self)
        requires
            i@ < Self::rows_of(old(s)),
        ensures
            Self::rows_of(final(s)) == Self::rows_of(old(s)),
            Self::row_defined(final(s), i@),
            !Self::link_defined(final(s), i@),
            Self::row_at(final(s), i@) == v,
            forall|j: int|
                0 <= j < Self::rows_of(old(s)) && j != i@ ==> Self::row_at(final(s), j)
                    == Self::row_at(old(s), j) && Self::link_at(final(s), j) == Self::link_at(
                    old(s),
                    j,
                ) && Self::row_defined(final(s), j) == Self::row_defined(old(s), j)
                    && Self::link_defined(final(s), j) == Self::link_defined(old(s), j),
    ;

    /// Reconstitutes a row by reading back from its columns.
    fn read_row(s: &Self::Storage, i: Index) -> (v: Self)
        requires
            i@ < Self::rows_of(s),
            Self::row_defined(s, i@),
        ensures
            v == Self::row_at(s, i@),
    ;

    /// Moves a row out of its columns; what the row holds afterwards is
    /// unspecified.
    fn take_row(s: &mut Self::Storage, i: Index) -> (v: Self)
        requires
            i@ < Self::rows_of(old(s)),
            Self::row_defined(old(s), i@),
        ensures
            v == Self::row_at(old(s), i@),
            Self::rows_of(final(s)) == Self::rows_of(old(s)),
            forall|j: int|
                0 <= j < Self::rows_of(old(s)) && j != i@ ==> Self::row_at(final(s), j)
                    == Self::row_at(old(s), j) && Self::link_at(final(s), j) == Self::link_at(
                    old(s),
                    j,
                ) && Self::row_defined(final(s), j) == Self::row_defined(old(s), j)
                    && Self::link_defined(final(s), j) == Self::link_defined(old(s), j),
    ;

    /// Reinterprets the designated column's slot as a freelist link and
    /// writes it.
    fn write_link(s: &mut Self::Storage, i: Index, link: Option<Index>)
        requires
            i@ < Self::rows_of(old(s)),
        ensures
            Self::rows_of(final(s)) == Self::rows_of(old(s)),
            Self::link_defined(final(s), i@),
            !Self::row_defined(final(s), i@),
            Self::link_at(final(s), i@) == link,
            forall|j: int|
                0 <= j < Self::rows_of(old(s)) && j != i@ ==> Self::row_at(final(s), j)
                    == Self::row_at(old(s), j) && Self::link_at(final(s), j) == Self::link_at(
                    old(s),
                    j,
                ) && Self::row_defined(final(s), j) == Self::row_defined(old(s), j)
                    && Self::link_defined(final(s), j) == Self::link_defined(old(s), j),
    ;

    /// Reads the designated column's slot as a freelist link.
    fn read_link(s: &Self::Storage, i: Index) -> (l: Option<Index>)
        requires
            i@ < Self::rows_of(s),
            Self::link_defined(s, i@),
        ensures
            l == Self::link_at(s, i@),
    ;
}

/// The link stored in chain entry `k` points to chain entry `k + 1`, or
/// nowhere at the chain's end.
pub open spec fn soa_link_ok<C: Columns>(s: &C::Storage, c: Seq<int>, k: int) -> bool {
    match C::link_at(s, c[k]) {
        Some(ix) => k + 1 < c.len() && ix@ == c[k + 1],
        None => k + 1 == c.len(),
    }
}

/// The freelist chain `c` is exactly the freed rows below the bump
/// frontier, threaded from `head` through links stored in the designated
/// column, with the occupation bitmap as the single source of truth for
/// how each row's storage is interpreted.
pub open spec fn soa_chain_wf<C: Columns>(
    s: &C::Storage,
    occ: Seq<bool>,
    next_free: int,
    head: Option<Index>,
    c: Seq<int>,
) -> bool {
    &&& match head {
        Some(h) => c.len() > 0 && c[0] == h@,
        None => c.len() == 0,
    }
    &&& forall|k: int|
        0 <= k < c.len() ==> 0 <= #[trigger] c[k] < next_free && !occ[c[k]] && C::link_defined(
            s,
            c[k],
        )
    &&& forall|k: int| 0 <= k < c.len() ==> #[trigger] soa_link_ok::<C>(s, c, k)
    &&& forall|k1: int, k2: int|
        0 <= k1 < c.len() && 0 <= k2 < c.len() && k1 != k2 ==> c[k1] != c[k2]
    &&& forall|i: int| 0 <= i < next_free && !(#[trigger] occ[i]) ==> c.contains(i)
}

/// Touching only rows outside the chain (and their occupation bits, away
/// from the chain and frontier) leaves the chain intact.
proof fn soa_chain_keeps<C: Columns>(
    s1: &C::Storage,
    s2: &C::Storage,
    occ1: Seq<bool>,
    occ2: Seq<bool>,
    next_free: int,
    head: Option<Index>,
    c: Seq<int>,
)
    requires
        soa_chain_wf::<C>(s1, occ1, next_free, head, c),
        next_free <= occ1.len(),
        next_free <= occ2.len(),
        forall|k: int|
            0 <= k < next_free && !(#[trigger] occ1[k]) ==> C::link_at(s2, k) == C::link_at(s1, k)
                && C::link_defined(s2, k) == C::link_defined(s1, k),
        forall|k: int| 0 <= k < next_free ==> #[trigger] occ2[k] == occ1[k],
    ensures
        soa_chain_wf::<C>(s2, occ2, next_free, head, c),
{
    assert forall|k: int| 0 <= k < c.len() implies 0 <= #[trigger] c[k] < next_free && !occ2[c[k]]
        && C::link_defined(s2, c[k]) by {
        assert(!occ1[c[k]]);
    }
    assert forall|k: int| 0 <= k < c.len() implies #[trigger] soa_link_ok::<C>(s2, c, k) by {
        assert(soa_link_ok::<C>(s1, c, k));
        assert(!occ1[c[k]]);
        assert(C::link_at(s2, c[k]) == C::link_at(s1, c[k]));
    }
    assert forall|i: int| 0 <= i < next_free && !(#[trigger] occ2[i]) implies c.contains(i) by {
        assert(!occ1[i]);
    }
}

/// Popping the head of the freelist: the head row becomes occupied data,
/// the chain loses its first entry, and the stored link becomes the head.
proof fn soa_chain_pop<C: Columns>(
    s1: &C::Storage,
    s2: &C::Storage,
    occ1: Seq<bool>,
    occ2: Seq<bool>,
    next_free: int,
    h: Index,
    c: Seq<int>,
)
    requires
        soa_chain_wf::<C>(s1, occ1, next_free, Some(h), c),
        occ1.len() == occ2.len(),
        next_free <= occ1.len(),
        occ2 == occ1.update(h@, true),
        forall|j: int|
            0 <= j < occ1.len() && j != h@ ==> C::link_at(s2, j) == C::link_at(s1, j)
                && C::link_defined(s2, j) == C::link_defined(s1, j),
    ensures
        soa_chain_wf::<C>(s2, occ2, next_free, C::link_at(s1, h@), c.drop_first()),
{
    let c2 = c.drop_first();
    assert(c[0] == h@);
    assert(soa_link_ok::<C>(s1, c, 0));
    assert forall|k: int| 0 <= k < c2.len() implies 0 <= #[trigger] c2[k] < next_free
        && !occ2[c2[k]] && C::link_defined(s2, c2[k]) by {
        assert(c2[k] == c[k + 1]);
        assert(c[k + 1] != c[0]);
    }
    assert forall|k: int| 0 <= k < c2.len() implies #[trigger] soa_link_ok::<C>(s2, c2, k) by {
        assert(soa_link_ok::<C>(s1, c, k + 1));
        assert(c[k + 1] != c[0]);
        assert(C::link_at(s2, c2[k]) == C::link_at(s1, c[k + 1]));
        if k + 2 < c.len() {
            assert(c2[k + 1] == c[k + 2]);
        }
    }
    assert forall|i: int| 0 <= i < next_free && !(#[trigger] occ2[i]) implies c2.contains(i) by {
        assert(i != c[0]);
        assert(!occ1[i]);
        assert(c.contains(i));
        let k = choose|k: int| 0 <= k < c.len() && c[k] == i;
        assert(k != 0);
        assert(c2[k - 1] == i);
    }
}

/// Freeing an occupied row pushes it onto the front of the chain, with the
/// old head stored as its link.
proof fn soa_chain_push<C: Columns>(
    s1: &C::Storage,
    s2: &C::Storage,
    occ1: Seq<bool>,
    occ2: Seq<bool>,
    next_free: int,
    head: Option<Index>,
    c: Seq<int>,
    index: Index,
)
    requires
        soa_chain_wf::<C>(s1, occ1, next_free, head, c),
        occ1.len() == occ2.len(),
        next_free <= occ1.len(),
        0 <= index@ < next_free,
        occ1[index@],
        occ2 == occ1.update(index@, false),
        C::link_defined(s2, index@),
        C::link_at(s2, index@) == head,
        forall|j: int|
            0 <= j < occ1.len() && j != index@ ==> C::link_at(s2, j) == C::link_at(s1, j)
                && C::link_defined(s2, j) == C::link_defined(s1, j),
    ensures
        soa_chain_wf::<C>(s2, occ2, next_free, Some(index), seq![index@] + c),
{
    let c2 = seq![index@] + c;
    assert forall|k: int| 0 <= k < c2.len() implies 0 <= #[trigger] c2[k] < next_free
        && !occ2[c2[k]] && C::link_defined(s2, c2[k]) by {
        if k > 0 {
            assert(c2[k] == c[k - 1]);
            assert(!occ1[c[k - 1]]);
            assert(c[k - 1] != index@);
        }
    }
    assert forall|k: int| 0 <= k < c2.len() implies #[trigger] soa_link_ok::<C>(s2, c2, k) by {
        if k == 0 {
            match head {
                Some(h) => {
                    assert(c[0] == h@);
                    assert(c2[1] == c[0]);
                },
                None => {},
            }
        } else {
            assert(soa_link_ok::<C>(s1, c, k - 1));
            assert(!occ1[c[k - 1]]);
            assert(c[k - 1] != index@);
            assert(C::link_at(s2, c2[k]) == C::link_at(s1, c[k - 1]));
            if k < c.len() {
                assert(c2[k + 1] == c[k]);
            }
        }
    }
    assert forall|k1: int, k2: int|
        0 <= k1 < c2.len() && 0 <= k2 < c2.len() && k1 != k2 implies c2[k1] != c2[k2] by {
        if k1 > 0 && k2 > 0 {
            assert(c2[k1] == c[k1 - 1]);
            assert(c2[k2] == c[k2 - 1]);
        } else if k1 == 0 {
            assert(c2[k2] == c[k2 - 1]);
            assert(!occ1[c[k2 - 1]]);
        } else {
            assert(c2[k1] == c[k1 - 1]);
            assert(!occ1[c[k1 - 1]]);
        }
    }
    assert forall|i: int| 0 <= i < next_free && !(#[trigger] occ2[i]) implies c2.contains(i) by {
        if i == index@ {
            assert(c2[0] == i);
        } else {
            assert(!occ1[i]);
            assert(c.contains(i));
            let k = choose|k: int| 0 <= k < c.len() && c[k] == i;
            assert(c2[k + 1] == i);
        }
    }
}

/// A columnar store, generic over the element shape: index-based access,
/// bump allocation with LIFO reuse, and whole-buffer growth.
pub trait SoAStore<C: Columns>: Sized {
    /// How many rows the store can hold without growing.
    spec fn cap(&self) -> nat;

    /// The bump frontier: rows at or beyond it have never been touched.
    spec fn frontier(&self) -> nat;

    /// One entry per row up to `cap()`: `Some(record)` for a live row.
    spec fn rows(&self) -> Seq<Option<C>>;

    /// The reuse order, youngest-freed first.
    spec fn free_seq(&self) -> Seq<int>;

    /// Internal well-formedness.
    spec fn wf(&self) -> bool;

    /// What the spec views guarantee of each other on a well-formed store.
    proof fn view_props(&self)
        requires
            self.wf(),
        ensures
            self.rows().len() == self.cap(),
            self.frontier() <= self.cap(),
            forall|k: int|
                0 <= k < self.free_seq().len() ==> 0 <= #[trigger] self.free_seq()[k]
                    < self.frontier() && self.rows()[self.free_seq()[k]] is None,
            forall|k1: int, k2: int|
                0 <= k1 < k2 < self.free_seq().len() ==> self.free_seq()[k1]
                    != self.free_seq()[k2],
            forall|i: int|
                0 <= i < self.frontier() && self.rows()[i] is None ==> self.free_seq().contains(i),
            forall|i: int|
                self.frontier() <= i < self.cap() ==> self.rows()[i] is None,
    ;

    /// The store's reserved capacity.
    fn capacity(&self) -> (r: Length)
        requires
            self.wf(),
        ensures
            r == self.cap(),
    ;

    /// Inserts a record without ever growing: the youngest freed row is
    /// reused first; with none free, the next untouched row is taken; with
    /// no capacity left, the record is handed back unchanged.
    fn insert_within_capacity(&mut self, element: C) -> (r: Result<Index, C>)
        requires
            old(self).wf(),
        ensures
            final(self).wf(),
            final(self).cap() == old(self).cap(),
            match r {
                Ok(i) => {
                    &&& 0 <= i@ < final(self).frontier()
                    &&& !(old(self).free_seq().len() == 0 && old(self).frontier() == old(self).cap())
                    &&& old(self).rows()[i@] is None
                    &&& i@ == (if old(self).free_seq().len() > 0 {
                        old(self).free_seq()[0]
                    } else {
                        old(self).frontier() as int
                    })
                    &&& final(self).rows() == old(self).rows().update(i@, Some(element))
                    &&& final(self).frontier() == (if i@ == old(self).frontier() {
                        old(self).frontier() + 1
                    } else {
                        old(self).frontier()
                    })
                    &&& final(self).free_seq() == (if old(self).free_seq().len() > 0 {
                        old(self).free_seq().drop_first()
                    } else {
                        old(self).free_seq()
                    })
                },
                Err(d) => d == element && final(self).rows() == old(self).rows() && final(self).frontier() == old(self).frontier() && final(self).free_seq() == old(self).free_seq() && old(self).free_seq().len() == 0 && old(self).frontier() == old(self).cap(),
            },
    ;

    /// Grows the whole buffer to a capacity of at least `new_capacity`
    /// (with the usual doubling), recomputing the column layout and
    /// carrying every live row over unchanged.  A request at or below the
    /// current capacity is rejected as a narrowing.
    fn widen(&mut self, new_capacity: Length) -> (r: SResult<()>)
        requires
            old(self).wf(),
        ensures
            final(self).wf(),
            final(self).frontier() == old(self).frontier(),
            final(self).free_seq() == old(self).free_seq(),
            match r {
                Ok(()) => {
                    &&& new_capacity > old(self).cap()
                    &&& final(self).cap() == grow_target(
                        old(self).cap() as int,
                        new_capacity as int,
                    )
                    &&& final(self).rows() == old(self).rows() + Seq::new(
                        (final(self).cap() - old(self).cap()) as nat,
                        (|i: int| None::<C>),
                    )
                },
                Err(e) => {
                    &&& final(self).cap() == old(self).cap()
                    &&& final(self).rows() == old(self).rows()
                    &&& (if new_capacity <= old(self).cap() {
                        e == StoreError::Narrow(new_capacity, (old(self).cap() as Length))
                    } else {
                        e == StoreError::InvalidLayout && !(C::layouts_ok(
                            grow_target(old(self).cap() as int, new_capacity as int),
                        ) && layout_fits(
                            C::layout_spec(grow_target(old(self).cap() as int, new_capacity as int)),
                            grow_target(old(self).cap() as int, new_capacity as int),
                        ))
                    })
                },
            },
    ;

    /// Logically empties the store without releasing the reserved
    /// capacity; live content is not dropped through this path and may
    /// leak.
    fn clear(&mut self)
        requires
            old(self).wf(),
        ensures
            final(self).wf(),
            final(self).cap() == old(self).cap(),
            final(self).frontier() == 0,
            final(self).free_seq() == Seq::<int>::empty(),
            final(self).rows() == Seq::new(old(self).cap(), (|i: int| None::<C>)),
    ;
}

/// A columnar store that can free individual rows for later reuse.
pub trait ReusableSoAStore<C: Columns>: SoAStore<C> {
    /// Removes and returns the record at `index`, pushing the freed row
    /// onto the front of the reuse order; the freed row's designated
    /// column takes over as link storage.
    fn remove(&mut self, index: Index) -> (r: SResult<C>)
        requires
            old(self).wf(),
        ensures
            final(self).wf(),
            final(self).cap() == old(self).cap(),
            final(self).frontier() == old(self).frontier(),
            match r {
                Ok(v) => index@ < old(self).rows().len() && old(self).rows()[index@] == Some(v)
                    && final(self).rows() == old(self).rows().update(index@, None) && final(self).free_seq() == seq![index@] + old(self).free_seq(),
                Err(e) => final(self).rows() == old(self).rows() && final(self).free_seq() == old(self).free_seq() && (index@ >= old(self).frontier() || old(self).rows()[index@] is None)
                    && e == remove_err_of(old(self).frontier() as int, index),
            },
    ;
}

/// The columnar reuse store.
pub struct SoAFreelistStore<C: Columns> {
    storage: C::Storage,
    layout: Vec<Header>,
    occupied: BitMap,
    head: Option<Index>,
    next_free: Length,
    cap: Length,
    chain: Ghost<Seq<int>>,
}

/// The default capacity a plain construction reserves.
pub const DEFAULT_CAPACITY: Length = 16;

impl<C: Columns> SoAFreelistStore<C> {
    /// The layout table matches the column layout at capacity `cap`.
    pub open spec fn table_ok(table: Seq<Header>, cap: int) -> bool {
        &&& C::layouts_ok(cap)
        &&& layout_fits(C::layout_spec(cap), cap)
        &&& table.len() == C::layout_spec(cap).len()
        &&& forall|k: int|
            0 <= k < table.len() ==> #[trigger] table[k] == (Header {
                offset: col_offset(C::layout_spec(cap), cap, k) as u64,
                size: C::layout_spec(cap)[k].size,
                align: C::layout_spec(cap)[k].align,
            })
    }

    /// The layout table this store computed for its current capacity.
    pub closed spec fn table(&self) -> Seq<Header> {
        self.layout@
    }

    /// Allocates the backing pieces for `capacity` rows: the computed
    /// layout table, zeroed occupation bits and fresh column storage.
    pub fn allocate_initialized(capacity: Length) -> (r: SResult<(C::Storage, BitMap, Vec<Header>)>)
        ensures
            match r {
                Ok(parts) => {
                    &&& C::rows_of(&parts.0) == capacity
                    &&& forall|i: int|
                        0 <= i < capacity ==> !C::row_defined(&parts.0, i) && !C::link_defined(
                            &parts.0,
                            i,
                        )
                    &&& parts.1.wf()
                    &&& parts.1.spec_len() == capacity
                    &&& parts.1.bits() == Seq::new(capacity as nat, (|i: int| false))
                    &&& Self::table_ok(parts.2@, capacity as int)
                },
                Err(e) => e == StoreError::InvalidLayout && !(C::layouts_ok(capacity as int)
                    && layout_fits(C::layout_spec(capacity as int), capacity as int)),
            },
    {
        let cols = match C::column_layouts(capacity) {
            Ok(cols) => cols,
            Err(e) => {
                return Err(e);
            },
        };
        let placed = match register_columns(&cols, capacity) {
            Ok(placed) => placed.0,
            Err(e) => {
                return Err(e);
            },
        };
        let storage = C::with_rows(capacity);
        let occupied = BitMap::new(capacity);
        Ok((storage, occupied, placed))
    }

    /// An empty store reserving the default capacity.
    pub fn new() -> (r: SResult<Self>)
        ensures
            match r {
                Ok(s) => s.wf() && s.cap() == DEFAULT_CAPACITY && s.frontier() == 0
                    && s.free_seq() == Seq::<int>::empty(),
                Err(e) => e == StoreError::InvalidLayout && !(C::layouts_ok(DEFAULT_CAPACITY as int)
                    && layout_fits(
                    C::layout_spec(DEFAULT_CAPACITY as int),
                    DEFAULT_CAPACITY as int,
                )),
            },
    {
        Self::with_capacity(DEFAULT_CAPACITY)
    }

    /// An empty store reserving `capacity` rows; fails only where the
    /// column layout cannot be computed at that capacity.
    pub fn with_capacity(capacity: Length) -> (r: SResult<Self>)
        ensures
            match r {
                Ok(s) => s.wf() && s.cap() == capacity && s.frontier() == 0 && s.free_seq()
                    == Seq::<int>::empty(),
                Err(e) => e == StoreError::InvalidLayout && !(C::layouts_ok(capacity as int)
                    && layout_fits(C::layout_spec(capacity as int), capacity as int)),
            },
    {
        match Self::allocate_initialized(capacity) {
            Ok((storage, occupied, layout)) => {
                Ok(
                    SoAFreelistStore {
                        storage,
                        layout,
                        occupied,
                        head: None,
                        next_free: 0,
                        cap: capacity,
                        chain: Ghost(Seq::empty()),
                    },
                )
            },
            Err(e) => Err(e),
        }
    }

    /// The layout table in force: each column's placement at the current
    /// capacity.
    pub fn layout_table(&self) -> (r: &Vec<Header>)
        requires
            self.wf(),
        ensures
            Self::table_ok(r@, self.cap() as int),
            r@ == self.table(),
    {
        &self.layout
    }

    /// Recomputes the layout table for a new capacity, as growth must:
    /// column order and placement are derived from the same enumeration at
    /// the new row count.
    fn update_columns(&mut self, new_capacity: Length) -> (r: SResult<()>)
        requires
            old(self).wf(),
        ensures
            final(self).storage == old(self).storage,
            final(self).occupied == old(self).occupied,
            final(self).head == old(self).head,
            final(self).next_free == old(self).next_free,
            final(self).cap == old(self).cap,
            final(self).chain == old(self).chain,
            match r {
                Ok(()) => Self::table_ok(final(self).layout@, new_capacity as int),
                Err(e) => {
                    &&& final(self).layout == old(self).layout
                    &&& e == StoreError::InvalidLayout
                    &&& !(C::layouts_ok(new_capacity as int) && layout_fits(
                        C::layout_spec(new_capacity as int),
                        new_capacity as int,
                    ))
                },
            },
    {
        let cols = match C::column_layouts(new_capacity) {
            Ok(cols) => cols,
            Err(e) => {
                return Err(e);
            },
        };
        match register_columns(&cols, new_capacity) {
            Ok(placed) => {
                self.layout = placed.0;
                Ok(())
            },
            Err(e) => Err(e),
        }
    }

    /// The bump frontier, as a number of rows.
    pub fn frontier_raw(&self) -> (r: Length)
        requires
            self.wf(),
        ensures
            r == self.frontier(),
    {
        self.next_free
    }

    /// Whether the row at `index` is live: within the bump frontier and
    /// marked occupied.
    pub fn is_live(&self, index: Index) -> (r: bool)
        requires
            self.wf(),
        ensures
            r == (index@ < self.rows().len() && self.rows()[index@] is Some),
    {
        proof {
            self.occupied.view_props();
        }
        let i = index.get();
        if i >= self.next_free {
            false
        } else {
            self.occupied.load(i)
        }
    }

    /// A copy of the record at `index`, reconstituted from its columns.
    pub fn get_row(&self, index: Index) -> (r: SResult<C>)
        requires
            self.wf(),
        ensures
            match r {
                Ok(v) => index@ < self.rows().len() && self.rows()[index@] == Some(v),
                Err(e) => (index@ >= self.frontier() || self.rows()[index@] is None) && e
                    == miss_err_of(self.frontier() as int, index),
            },
    {
        let i = index.get();
        if i >= self.next_free {
            return Err(StoreError::OutOfBounds(index, self.next_free));
        }
        if !self.occupied.load(i) {
            return Err(StoreError::AccessAfterFree(index));
        }
        Ok(C::read_row(&self.storage, index))
    }

    /// Overwrites the record at `index` in place, column by column.
    pub fn set_row(&mut self, index: Index, element: C) -> (r: SResult<()>)
        requires
            old(self).wf(),
        ensures
            final(self).wf(),
            final(self).cap() == old(self).cap(),
            final(self).frontier() == old(self).frontier(),
            final(self).free_seq() == old(self).free_seq(),
            match r {
                Ok(()) => index@ < old(self).rows().len() && old(self).rows()[index@] is Some
                    && final(self).rows() == old(self).rows().update(index@, Some(element)),
                Err(e) => final(self).rows() == old(self).rows() && (index@ >= old(self).frontier()
                    || old(self).rows()[index@] is None) && e == miss_err_of(
                    old(self).frontier() as int,
                    index,
                ),
            },
    {
        let i = index.get();
        if i >= self.next_free {
            return Err(StoreError::OutOfBounds(index, self.next_free));
        }
        if !self.occupied.load(i) {
            return Err(StoreError::AccessAfterFree(index));
        }
        C::write_row(&mut self.storage, index, element);
        proof {
            old(self).occupied.view_props();
            self.occupied.view_props();
            soa_chain_keeps::<C>(
                &old(self).storage,
                &self.storage,
                old(self).occupied.bits(),
                self.occupied.bits(),
                self.next_free as int,
                self.head,
                self.chain@,
            );
            assert(final(self).rows() =~= old(self).rows().update(index@, Some(element)));
        }
        Ok(())
    }
}

impl<C: Columns> SoAStore<C> for SoAFreelistStore<C> {
    closed spec fn cap(&self) -> nat {
        self.cap as nat
    }

    closed spec fn frontier(&self) -> nat {
        self.next_free as nat
    }

    closed spec fn rows(&self) -> Seq<Option<C>> {
        Seq::new(
            self.cap as nat,
            (|i: int|
                if self.occupied.bits()[i] {
                    Some(C::row_at(&self.storage, i))
                } else {
                    None
                }),
        )
    }

    closed spec fn free_seq(&self) -> Seq<int> {
        self.chain@
    }

    closed spec fn wf(&self) -> bool {
        &&& C::rows_of(&self.storage) == self.cap
        &&& self.occupied.wf()
        &&& self.occupied.spec_len() == self.cap
        &&& self.next_free <= self.cap
        &&& forall|i: int|
            0 <= i < self.cap && (#[trigger] self.occupied.bits()[i]) ==> i < self.next_free
                && C::row_defined(&self.storage, i)
        &&& soa_chain_wf::<C>(
            &self.storage,
            self.occupied.bits(),
            self.next_free as int,
            self.head,
            self.chain@,
        )
        &&& Self::table_ok(self.layout@, self.cap as int)
    }

    proof fn view_props(&self) {
    }

    fn capacity(&self) -> (r: Length) {
        self.cap
    }

    fn insert_within_capacity(&mut self, element: C) -> (r: Result<Index, C>) {
        if let Some(h) = self.head {
            let hi = h.get();
            proof {
                assert(self.chain@[0] == h@);
            }
            let link = C::read_link(&self.storage, h);
            C::write_row(&mut self.storage, h, element);
            self.occupied.set(hi);
            self.head = link;
            self.chain = Ghost(self.chain@.drop_first());
            proof {
                old(self).occupied.view_props();
                self.occupied.view_props();
                soa_chain_pop::<C>(
                    &old(self).storage,
                    &self.storage,
                    old(self).occupied.bits(),
                    self.occupied.bits(),
                    self.next_free as int,
                    h,
                    old(self).chain@,
                );
                assert(final(self).rows() =~= old(self).rows().update(h@, Some(element)));
            }
            Ok(h)
        } else {
            if self.next_free == self.cap {
                return Err(element);
            }
            let i = self.next_free;
            let index = Index::new(i).unwrap();
            C::write_row(&mut self.storage, index, element);
            self.occupied.set(i);
            self.next_free = i + 1;
            proof {
                old(self).occupied.view_props();
                self.occupied.view_props();
                assert forall|k: int|
                    0 <= k < self.cap && (#[trigger] self.occupied.bits()[k]) implies k
                    < self.next_free && C::row_defined(&self.storage, k) by {
                    if k != i {
                        assert(old(self).occupied.bits()[k]);
                    }
                }
                assert forall|j: int|
                    0 <= j < self.next_free && !(#[trigger] self.occupied.bits()[j]) implies self
                    .chain@.contains(j) by {
                    assert(j != i);
                    assert(!old(self).occupied.bits()[j]);
                }
                assert(final(self).rows() =~= old(self).rows().update(i as int, Some(element)));
            }
            Ok(index)
        }
    }

    fn widen(&mut self, new_capacity: Length) -> (r: SResult<()>) {
        if new_capacity <= self.cap {
            return Err(StoreError::Narrow(new_capacity, self.cap));
        }
        let doubled: u64 = if 2 * (self.cap as u64) > new_capacity as u64 {
            2 * (self.cap as u64)
        } else {
            new_capacity as u64
        };
        let target64: u64 = if doubled > u32::MAX as u64 {
            u32::MAX as u64
        } else {
            doubled
        };
        let target = target64 as u32;
        match self.update_columns(target) {
            Ok(()) => {},
            Err(e) => {
                return Err(e);
            },
        }
        C::grow_rows(&mut self.storage, target);
        self.occupied.grow(target);
        self.cap = target;
        proof {
            old(self).occupied.view_props();
            self.occupied.view_props();
            soa_chain_keeps::<C>(
                &old(self).storage,
                &self.storage,
                old(self).occupied.bits(),
                self.occupied.bits(),
                self.next_free as int,
                self.head,
                self.chain@,
            );
            assert forall|i: int|
                0 <= i < self.cap && (#[trigger] self.occupied.bits()[i]) implies i
                < self.next_free && C::row_defined(&self.storage, i) by {
                if i < old(self).cap {
                    assert(old(self).occupied.bits()[i]);
                } else {
                    assert(!self.occupied.bits()[i]);
                }
            }
            assert(final(self).rows() =~= old(self).rows() + Seq::new(
                (final(self).cap() - old(self).cap()) as nat,
                (|i: int| None::<C>),
            ));
        }
        Ok(())
    }

    fn clear(&mut self) {
        self.occupied.clear_all();
        self.head = None;
        self.next_free = 0;
        self.chain = Ghost(Seq::empty());
        proof {
            old(self).occupied.view_props();
            self.occupied.view_props();
            assert(final(self).rows() =~= Seq::new(old(self).cap(), (|i: int| None::<C>)));
        }
    }
}

impl<C: Columns> ReusableSoAStore<C> for SoAFreelistStore<C> {
    fn remove(&mut self, index: Index) -> (r: SResult<C>) {
        let i = index.get();
        if i >= self.next_free {
            return Err(StoreError::OutOfBounds(index, self.next_free));
        }
        if !self.occupied.load(i) {
            return Err(StoreError::DoubleFree(index));
        }
        let element = C::take_row(&mut self.storage, index);
        let old_head = self.head;
        C::write_link(&mut self.storage, index, old_head);
        self.occupied.clear(i);
        self.head = Some(index);
        self.chain = Ghost(seq![index@] + self.chain@);
        proof {
            old(self).occupied.view_props();
            self.occupied.view_props();
            soa_chain_push::<C>(
                &old(self).storage,
                &self.storage,
                old(self).occupied.bits(),
                self.occupied.bits(),
                self.next_free as int,
                old(self).head,
                old(self).chain@,
                index,
            );
            assert forall|k: int|
                0 <= k < self.cap && (#[trigger] self.occupied.bits()[k]) implies k
                < self.next_free && C::row_defined(&self.storage, k) by {
                assert(old(self).occupied.bits()[k]);
                assert(k != index@);
            }
            assert(final(self).rows() =~= old(self).rows().update(index@, None));
        }
        Ok(element)
    }
}

/// Law: a freshly written row reads back exactly the written record.  With
/// the insertion contract, which makes slot `i` hold exactly the inserted
/// record, and the removal contract, which returns exactly the slot's held
/// record, an insert followed by a remove of the same slot yields a value
/// equal to the original, field for field.
pub proof fn lemma_soa_round_trip<C>(rows: Seq<Option<C>>, i: int, v: C)
    requires
        0 <= i < rows.len(),
    ensures
        rows.update(i, Some(v))[i] == Some(v),
{
}

/// Law: growing a columnar store preserves every live row's per-column
/// values unchanged: the grown row table extends the old one, so every row
/// below the old capacity reads exactly as before.
pub proof fn lemma_soa_growth_preserves<C>(rows: Seq<Option<C>>, pad: Seq<Option<C>>)
    ensures
        forall|i: int| 0 <= i < rows.len() ==> #[trigger] (rows + pad)[i] == rows[i],
{
}

} // verus!

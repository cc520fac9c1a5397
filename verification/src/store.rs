//! The store layer: owners of backing storage for one logical element shape,
//! exposing index-based get / insert / remove and capacity growth.
//!
//! A store's behaviour is described by four spec views, shared by every
//! implementation through the [`Store`] trait:
//! - `cap()`: how many rows the store can hold without growing;
//! - `extent()`: how many rows have ever been touched (the bump frontier);
//! - `slots()`: one `Option` per row up to `cap()`, `Some` for live rows;
//! - `free_seq()`: the reuse order, youngest-freed first (empty for stores
//!   that never reuse).

use vstd::prelude::*;

use crate::errors::{SResult, StoreError};
use crate::index::{Index, Length, INDEX_MAX};

mod bitmap;
mod columns;
mod freelist;
mod intervaltree;
mod layout;
mod masked;
mod simple;
mod soa;

pub use intervaltree::covered;
pub use intervaltree::in_range;
pub use intervaltree::ranges_wf;
pub use intervaltree::run_free;
pub use intervaltree::run_live;
pub use intervaltree::FreeRange;
pub use intervaltree::IntervaltreeRemoveGuard;
pub use intervaltree::IntervaltreeStore;

pub use columns::cell_align;
pub use columns::cell_size;
pub use columns::Join;
pub use columns::Prefix;
pub use columns::SlotCell;

pub use bitmap::BitMap;
pub use layout::col_end;
pub use layout::col_offset;
pub use layout::layout_fits;
pub use layout::lemma_col_end_mono;
pub use layout::lemma_round_up;
pub use layout::max_align;
pub use layout::occ_bytes;
pub use layout::register_columns;
pub use layout::round_up;
pub use layout::Header;
pub use freelist::Entry;
pub use freelist::FreelistStore;
pub use masked::MaskedFreelistStore;
pub use simple::vec_pair_mut;
pub use simple::SimpleStore;
pub use soa::lemma_soa_growth_preserves;
pub use soa::lemma_soa_round_trip;
pub use soa::soa_chain_wf;
pub use soa::soa_link_ok;
pub use soa::Columns;
pub use soa::ReusableSoAStore;
pub use soa::SoAFreelistStore;
pub use soa::SoAStore;
pub use soa::DEFAULT_CAPACITY;

verus! {

/// The capacity that a growth request for `requested` actually produces:
/// `max(requested, 2 * current)`, capped at the largest representable
/// capacity (the maximum index plus one).
pub open spec fn grow_target(current: int, requested: int) -> int {
    let doubled = if 2 * current > requested {
        2 * current
    } else {
        requested
    };
    if doubled > INDEX_MAX + 1 {
        INDEX_MAX + 1
    } else {
        doubled
    }
}

/// Law: capacity growth is idempotent and monotone.  A growth request
/// reaches at least the requested capacity and never shrinks; hence, after
/// `widen(n)` has produced some capacity, a second `widen(n)` request (same
/// or smaller `n`) falls at or below that capacity, where the store
/// contracts promise a no-op ([`Store::widen`]) or a narrowing error
/// ([`SoAStore::widen`], [`IntervaltreeStore::widen`]) — capacity never
/// shrinks silently.
pub proof fn lemma_widen_idempotent(current: int, requested: int)
    requires
        0 <= current,
        0 <= requested <= INDEX_MAX + 1,
    ensures
        grow_target(current, requested) >= requested,
        grow_target(current, requested) >= current || current > INDEX_MAX + 1,
{
}

/// The error a read or write access reports for a slot that is not live:
/// out of bounds beyond the bump frontier, freed below it.
pub open spec fn miss_err_of(extent: int, index: Index) -> StoreError {
    if index@ >= extent {
        StoreError::OutOfBounds(index, extent as Length)
    } else {
        StoreError::AccessAfterFree(index)
    }
}

/// The error a removal reports for a slot that is not live: out of bounds
/// beyond the bump frontier, a double free below it.
pub open spec fn remove_err_of(extent: int, index: Index) -> StoreError {
    if index@ >= extent {
        StoreError::OutOfBounds(index, extent as Length)
    } else {
        StoreError::DoubleFree(index)
    }
}

/// The element shapes a store can specialize for: what addresses one
/// element, and what one element is.
pub trait Element {
    /// What addresses one element of this shape.
    type Index;

    /// What one element of this shape is.
    type Val;
}

/// The element shape of the single-value stores: one value per slot,
/// addressed by its index.
pub struct Single<T>(core::marker::PhantomData<T>);

impl<T> Element for Single<T> {
    type Index = Index;

    type Val = T;
}

/// The element shape of the run stores: a caller-chosen-length run per
/// allocation, addressed by its start and length.
pub struct Multi<T>(core::marker::PhantomData<T>);

impl<T> Element for Multi<T> {
    type Index = (Index, Length);

    type Val = T;
}

/// The element shape of the columnar stores: one record per row, spread
/// over the columns, addressed by its row index.
pub struct Rows<C>(core::marker::PhantomData<C>);

impl<C: Columns> Element for Rows<C> {
    type Index = Index;

    type Val = C;
}

/// A store of single elements, generic over the element shape: index-based
/// read and in-place write, insertion within the reserved capacity, and
/// capacity growth that never relocates live content.
pub trait Store<T>: Sized {
    /// How many rows the store can hold without growing.
    spec fn cap(&self) -> nat;

    /// How many rows have ever been touched: indices at or beyond this
    /// frontier have never held an element.
    spec fn extent(&self) -> nat;

    /// One entry per row up to `cap()`: `Some(value)` for a live row,
    /// `None` for a free or untouched one.
    spec fn slots(&self) -> Seq<Option<T>>;

    /// The order in which freed rows will be reused, youngest-freed first.
    /// Empty for stores that never reuse rows.
    spec fn free_seq(&self) -> Seq<int>;

    /// The store's internal well-formedness; established by constructors
    /// and preserved by every method.
    spec fn wf(&self) -> bool;

    /// What the spec views guarantee of each other on a well-formed store:
    /// the slot table covers exactly the capacity, the bump frontier lies
    /// within it, and the reuse order lists exactly the freed rows below
    /// the frontier, each at most once.
    proof fn view_props(&self)
        requires
            self.wf(),
        ensures
            self.slots().len() == self.cap(),
            self.extent() <= self.cap(),
            self.cap() <= INDEX_MAX + 1,
            forall|k: int|
                0 <= k < self.free_seq().len() ==> 0 <= #[trigger] self.free_seq()[k]
                    < self.extent() && self.slots()[self.free_seq()[k]] is None,
            forall|k1: int, k2: int|
                0 <= k1 < k2 < self.free_seq().len() ==> self.free_seq()[k1]
                    != self.free_seq()[k2],
            forall|i: int|
                0 <= i < self.extent() && self.slots()[i] is None ==> self.free_seq().contains(i),
            forall|i: int|
                self.extent() <= i < self.cap() ==> self.slots()[i] is None,
    ;

    /// A fresh, empty store with no reserved capacity; managers start from
    /// this and grow on request.
    fn new_store() -> (s: Self)
        ensures
            s.wf(),
            s.cap() == 0,
            s.extent() == 0,
            s.slots() == Seq::<Option<T>>::empty(),
            s.free_seq() == Seq::<int>::empty(),
    ;

    /// The store's reserved capacity.
    fn capacity(&self) -> (r: Length)
        requires
            self.wf(),
        ensures
            r == self.cap(),
    ;

    /// A shared borrow of the live element at `index`.
    fn get(&self, index: Index) -> (r: SResult<&T>)
        requires
            self.wf(),
        ensures
            match r {
                Ok(v) => index@ < self.slots().len() && self.slots()[index@] == Some(*v),
                Err(e) => (index@ >= self.extent() || self.slots()[index@] is None) && e
                    == miss_err_of(self.extent() as int, index),
            },
    ;

    /// A mutable borrow of the live element at `index`.
    fn get_mut(&mut self, index: Index) -> (r: SResult<&mut T>)
        requires
            old(self).wf(),
        ensures
            final(self).wf(),
            final(self).cap() == old(self).cap(),
            final(self).extent() == old(self).extent(),
            final(self).free_seq() == old(self).free_seq(),
            match r {
                Ok(v) => index@ < old(self).slots().len() && old(self).slots()[index@] == Some(*v)
                    && final(self).slots() == old(self).slots().update(
                    index@,
                    Some(*final(v)),
                ),
                Err(e) => final(self).slots() == old(self).slots() && (index@ >= old(self).extent()
                    || old(self).slots()[index@] is None) && e == miss_err_of(
                    old(self).extent() as int,
                    index,
                ),
            },
    ;

    /// Inserts `data` without ever growing: the youngest freed row is
    /// reused first; with none free, the next untouched row is taken; with
    /// no capacity left, `data` is handed back unchanged.
    fn insert_within_capacity(&mut self, data: T) -> (r: Result<Index, T>)
        requires
            old(self).wf(),
        ensures
            final(self).wf(),
            final(self).cap() == old(self).cap(),
            match r {
                Ok(i) => {
                    &&& 0 <= i@ < final(self).extent()
                    &&& !(old(self).free_seq().len() == 0 && old(self).extent() == old(self).cap())
                    &&& old(self).slots()[i@] is None
                    &&& i@ == (if old(self).free_seq().len() > 0 {
                        old(self).free_seq()[0]
                    } else {
                        old(self).extent() as int
                    })
                    &&& final(self).slots() == old(self).slots().update(i@, Some(data))
                    &&& final(self).extent() == (if i@ == old(self).extent() {
                        old(self).extent() + 1
                    } else {
                        old(self).extent()
                    })
                    &&& final(self).free_seq() == (if old(self).free_seq().len() > 0 {
                        old(self).free_seq().drop_first()
                    } else {
                        old(self).free_seq()
                    })
                },
                Err(d) => d == data && *final(self) == *old(self) && old(self).free_seq().len() == 0
                    && old(self).extent() == old(self).cap(),
            },
    ;

    /// Grows the reserved capacity to at least `new_capacity`, never
    /// relocating or disturbing live content.  A request at or below the
    /// current capacity is a no-op.
    fn widen(&mut self, new_capacity: Length) -> (r: SResult<()>)
        requires
            old(self).wf(),
        ensures
            final(self).wf(),
            r is Ok,
            final(self).extent() == old(self).extent(),
            final(self).free_seq() == old(self).free_seq(),
            new_capacity <= old(self).cap() ==> *final(self) == *old(self),
            new_capacity > old(self).cap() ==> {
                &&& final(self).cap() == grow_target(old(self).cap() as int, new_capacity as int)
                &&& final(self).slots() == old(self).slots() + Seq::new(
                    (final(self).cap() - old(self).cap()) as nat,
                    (|i: int| None::<T>),
                )
            },
    ;

    /// Logically empties the store without releasing the reserved capacity.
    /// Content that was still live is not dropped through this path and may
    /// leak; that is the documented trade-off of the reuse strategies.
    fn clear(&mut self)
        requires
            old(self).wf(),
        ensures
            final(self).wf(),
            final(self).cap() == old(self).cap(),
            final(self).extent() == 0,
            final(self).free_seq() == Seq::<int>::empty(),
            final(self).slots() == Seq::new(old(self).cap(), (|i: int| None::<T>)),
    ;
}

/// A store that can free individual rows for later reuse.
pub trait ReusableStore<T>: Store<T> {
    /// Removes and returns the live element at `index`, pushing the freed
    /// row onto the front of the reuse order.
    fn remove(&mut self, index: Index) -> (r: SResult<T>)
        requires
            old(self).wf(),
        ensures
            final(self).wf(),
            final(self).cap() == old(self).cap(),
            final(self).extent() == old(self).extent(),
            match r {
                Ok(v) => index@ < old(self).slots().len() && old(self).slots()[index@] == Some(v)
                    && final(self).slots() == old(self).slots().update(index@, None)
                    && final(self).free_seq() == seq![index@] + old(self).free_seq(),
                Err(e) => *final(self) == *old(self)
                    && (index@ >= old(self).extent() || old(self).slots()[index@] is None)
                    && e == remove_err_of(old(self).extent() as int, index),
            },
    ;
}

/// A store that can hand out mutable access to several rows at once.
pub trait GetDisjointMut<T>: Store<T> {
    /// Mutable borrows of two distinct live rows at once.  Equal indices
    /// are rejected with a disjointness error, as is an index beyond the
    /// bump frontier; a freed row is reported as freed.
    fn get_pair_mut(&mut self, i: Index, j: Index) -> (r: SResult<(&mut T, &mut T)>)
        requires
            old(self).wf(),
        ensures
            final(self).wf(),
            final(self).cap() == old(self).cap(),
            final(self).extent() == old(self).extent(),
            final(self).free_seq() == old(self).free_seq(),
            match r {
                Ok(pair) => {
                    &&& i@ != j@
                    &&& i@ < old(self).slots().len() && old(self).slots()[i@] == Some(*pair.0)
                    &&& j@ < old(self).slots().len() && old(self).slots()[j@] == Some(*pair.1)
                    &&& final(self).slots() == old(self).slots().update(
                        i@,
                        Some(*final(pair.0)),
                    ).update(j@, Some(*final(pair.1)))
                },
                Err(e) => {
                    &&& final(self).slots() == old(self).slots()
                    &&& e == pair_err_of(old(self).extent() as int, old(self).slots(), i, j)
                    &&& (i@ == j@ || i@ >= old(self).extent() || j@ >= old(self).extent()
                        || old(self).slots()[i@] is None || old(self).slots()[j@] is None)
                },
            },
    ;
}

/// Whether a batch of slot indices is pairwise distinct: the proof the
/// safe batch accessors demand before handing out simultaneous mutable
/// access, failing with a disjointness error otherwise.
pub fn indices_disjoint(indices: &Vec<Index>) -> (r: bool)
    ensures
        r == (forall|k1: int, k2: int|
            0 <= k1 < k2 < indices@.len() ==> indices@[k1]@ != indices@[k2]@),
{
    let n = indices.len();
    let mut k1: usize = 0;
    while k1 < n
        invariant
            k1 <= n,
            n == indices@.len(),
            forall|a: int, b: int|
                #![trigger indices@[a], indices@[b]]
                0 <= a < b < indices@.len() && a < k1 ==> indices@[a]@ != indices@[b]@,
        decreases n - k1,
    {
        let mut k2: usize = k1 + 1;
        while k2 < n
            invariant
                k1 < k2 <= n || (k1 + 1 == k2 && k2 > n),
                k1 < n,
                n == indices@.len(),
                forall|a: int, b: int|
                    #![trigger indices@[a], indices@[b]]
                    0 <= a < b < indices@.len() && a < k1 ==> indices@[a]@ != indices@[b]@,
                forall|b: int| k1 < b < k2 ==> indices@[k1 as int]@ != (#[trigger] indices@[b])@,
            decreases n - k2,
        {
            if indices[k1].get() == indices[k2].get() {
                return false;
            }
            k2 = k2 + 1;
        }
        k1 = k1 + 1;
    }
    true
}

/// Selects a subset of a row's bit-packed columns: bit `k` set means
/// column `k` is touched.  Two accesses to the same row may proceed at
/// once exactly when their masks do not intersect, since bit-packed
/// columns are mutated word-wise without taking the whole row.
pub type Mask = u32;

/// Whether a batch of masked row accesses is pairwise disjoint: two
/// entries conflict only when they name the same row and their column
/// masks intersect.  This is the proof the safe masked batch accessor
/// demands; with it, concurrent mutation of one logical row through
/// different bit-packed columns is sound.
pub fn masked_disjoint(accesses: &Vec<(Index, Mask)>) -> (r: bool)
    ensures
        r == (forall|k1: int, k2: int|
            #![trigger accesses@[k1], accesses@[k2]]
            0 <= k1 < k2 < accesses@.len() ==> (accesses@[k1].0@ != accesses@[k2].0@
                || accesses@[k1].1 & accesses@[k2].1 == 0)),
{
    let n = accesses.len();
    let mut k1: usize = 0;
    while k1 < n
        invariant
            k1 <= n,
            n == accesses@.len(),
            forall|a: int, b: int|
                #![trigger accesses@[a], accesses@[b]]
                0 <= a < b < accesses@.len() && a < k1 ==> (accesses@[a].0@ != accesses@[b].0@
                    || accesses@[a].1 & accesses@[b].1 == 0),
        decreases n - k1,
    {
        let mut k2: usize = k1 + 1;
        while k2 < n
            invariant
                k1 < k2 <= n || (k1 + 1 == k2 && k2 > n),
                k1 < n,
                n == accesses@.len(),
                forall|a: int, b: int|
                    #![trigger accesses@[a], accesses@[b]]
                    0 <= a < b < accesses@.len() && a < k1 ==> (accesses@[a].0@ != accesses@[b].0@
                        || accesses@[a].1 & accesses@[b].1 == 0),
                forall|b: int|
                    k1 < b < k2 ==> (accesses@[k1 as int].0@ != (#[trigger] accesses@[b]).0@
                        || accesses@[k1 as int].1 & accesses@[b].1 == 0),
            decreases n - k2,
        {
            if accesses[k1].0.get() == accesses[k2].0.get() && accesses[k1].1 & accesses[k2].1
                != 0 {
                return false;
            }
            k2 = k2 + 1;
        }
        k1 = k1 + 1;
    }
    true
}

/// The error batch mutable access reports: overlapping or out-of-bounds
/// indices are a disjointness violation; otherwise the first freed row, in
/// argument order, is reported as freed.
pub open spec fn pair_err_of<T>(extent: int, slots: Seq<Option<T>>, i: Index, j: Index) -> StoreError {
    if i@ == j@ || i@ >= extent || j@ >= extent {
        StoreError::DisjointError
    } else if slots[i@] is None {
        StoreError::AccessAfterFree(i)
    } else {
        StoreError::AccessAfterFree(j)
    }
}

} // verus!

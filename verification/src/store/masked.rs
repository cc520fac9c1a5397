//! The masked (bit-packed) reuse store: a columnar store of full-width
//! records, with any number of one-bit-per-row flag columns beside them,
//! each backed by whole words.  A flag is read or written through a
//! computed word index and bit offset, never through a whole-row borrow,
//! so in a concurrent deployment one logical row can be mutated through
//! different flag columns at once; [`crate::store::masked_disjoint`] is the
//! proof such a batch demands.

use vstd::prelude::*;

use crate::errors::{SResult, StoreError};
use crate::index::{Index, Length};
use crate::store::{
    grow_target, layout_fits, miss_err_of, remove_err_of, BitMap, Columns, ReusableSoAStore,
    SoAFreelistStore, SoAStore,
};

verus! {

broadcast use crate::index::lemma_index_bounds;

/// A columnar reuse store with bit-packed flag columns: the record's
/// full-width columns live in a [`SoAFreelistStore`], and each flag column
/// is one bit per row.
pub struct MaskedFreelistStore<C: Columns> {
    rows: SoAFreelistStore<C>,
    flags: Vec<BitMap>,
}

impl<C: Columns> MaskedFreelistStore<C> {
    /// The row table of the full-width columns.
    pub closed spec fn rows(&self) -> Seq<Option<C>> {
        self.rows.rows()
    }

    /// How many rows the store can hold without growing.
    pub closed spec fn cap(&self) -> nat {
        self.rows.cap()
    }

    /// The bump frontier.
    pub closed spec fn frontier(&self) -> nat {
        self.rows.frontier()
    }

    /// The reuse order, youngest-freed first.
    pub closed spec fn free_seq(&self) -> Seq<int> {
        self.rows.free_seq()
    }

    /// How many flag columns were registered at construction.
    pub closed spec fn flag_count(&self) -> nat {
        self.flags@.len()
    }

    /// The value of flag column `col` at row `i`.
    pub closed spec fn flag(&self, col: int, i: int) -> bool {
        self.flags@[col].bits()[i]
    }

    /// Internal well-formedness: the row store is sound and every flag
    /// column covers exactly the capacity.
    pub closed spec fn wf(&self) -> bool {
        &&& self.rows.wf()
        &&& forall|k: int|
            0 <= k < self.flags@.len() ==> (#[trigger] self.flags@[k]).wf()
                && self.flags@[k].spec_len() == self.rows.cap()
    }

    /// The views cover the same row space.
    pub proof fn view_props(&self)
        requires
            self.wf(),
        ensures
            self.rows().len() == self.cap(),
            self.frontier() <= self.cap(),
    {
        self.rows.view_props();
    }

    /// An empty store of `capacity` rows and `flag_columns` bit-packed
    /// flag columns, every flag clear; fails only where the record's
    /// column layout cannot be computed at that capacity.
    pub fn with_capacity(capacity: Length, flag_columns: Length) -> (r: SResult<Self>)
        ensures
            match r {
                Ok(s) => {
                    &&& s.wf()
                    &&& s.cap() == capacity
                    &&& s.frontier() == 0
                    &&& s.free_seq() == Seq::<int>::empty()
                    &&& s.flag_count() == flag_columns
                    &&& forall|k: int, i: int|
                        0 <= k < flag_columns && 0 <= i < capacity ==> !(#[trigger] s.flag(k, i))
                },
                Err(e) => e == StoreError::InvalidLayout && !(C::layouts_ok(capacity as int)
                    && layout_fits(C::layout_spec(capacity as int), capacity as int)),
            },
    {
        let rows = match SoAFreelistStore::with_capacity(capacity) {
            Ok(rows) => rows,
            Err(e) => {
                return Err(e);
            },
        };
        let mut flags: Vec<BitMap> = Vec::new();
        let n = flag_columns as usize;
        while flags.len() < n
            invariant
                flags@.len() <= n,
                forall|k: int|
                    0 <= k < flags@.len() ==> (#[trigger] flags@[k]).wf() && flags@[k].spec_len()
                        == capacity && flags@[k].bits() == Seq::new(
                        capacity as nat,
                        (|i: int| false),
                    ),
            decreases n - flags@.len(),
        {
            flags.push(BitMap::new(capacity));
        }
        Ok(MaskedFreelistStore { rows, flags })
    }

    /// The store's reserved capacity.
    pub fn capacity(&self) -> (r: Length)
        requires
            self.wf(),
        ensures
            r == self.cap(),
    {
        self.rows.capacity()
    }

    /// How many flag columns the store carries.
    pub fn flag_columns(&self) -> (r: usize)
        ensures
            r == self.flag_count(),
    {
        self.flags.len()
    }

    /// Inserts a record without growing; the new row's flags all start
    /// clear, and the youngest freed row is reused first.
    pub fn insert_within_capacity(&mut self, row: C) -> (r: Result<Index, C>)
        requires
            old(self).wf(),
        ensures
            final(self).wf(),
            final(self).cap() == old(self).cap(),
            final(self).flag_count() == old(self).flag_count(),
            match r {
                Ok(i) => {
                    &&& 0 <= i@ < final(self).frontier()
                    &&& old(self).rows()[i@] is None
                    &&& i@ == (if old(self).free_seq().len() > 0 {
                        old(self).free_seq()[0]
                    } else {
                        old(self).frontier() as int
                    })
                    &&& final(self).rows() == old(self).rows().update(i@, Some(row))
                    &&& final(self).frontier() == (if i@ == old(self).frontier() {
                        old(self).frontier() + 1
                    } else {
                        old(self).frontier()
                    })
                    &&& final(self).free_seq() == (if old(self).free_seq().len() > 0 {
                        old(self).free_seq().drop_first()
                    } else {
                        old(self).free_seq()
                    })
                    &&& forall|k: int|
                        0 <= k < old(self).flag_count() ==> !(#[trigger] final(self).flag(k, i@))
                    &&& forall|k: int, q: int|
                        0 <= k < old(self).flag_count() && 0 <= q < old(self).cap() && q != i@
                            ==> #[trigger] final(self).flag(k, q) == old(self).flag(k, q)
                },
                Err(d) => d == row && final(self).rows() == old(self).rows() && final(self).frontier() == old(self).frontier() && final(self).free_seq() == old(self).free_seq() && old(self).free_seq().len() == 0 && old(self).frontier() == old(self).cap() && forall|k: int, q: int|
                    0 <= k < old(self).flag_count() && 0 <= q < old(self).cap()
                        ==> #[trigger] final(self).flag(k, q) == old(self).flag(k, q),
            },
    {
        proof {
            self.rows.view_props();
        }
        let index = match self.rows.insert_within_capacity(row) {
            Ok(index) => index,
            Err(d) => {
                return Err(d);
            },
        };
        let i = index.get();
        let ghost mid_rows = self.rows;
        let ghost capn = self.rows.cap();
        proof {
            self.rows.view_props();
        }
        let n = self.flags.len();
        let mut k: usize = 0;
        while k < n
            invariant
                k <= n,
                n == self.flags@.len(),
                i as int == index@,
                i < capn,
                self.rows == mid_rows,
                mid_rows.cap() == capn,
                forall|q: int|
                    0 <= q < n ==> (#[trigger] self.flags@[q]).wf() && self.flags@[q].spec_len()
                        == capn,
                forall|q: int| 0 <= q < k ==> !(#[trigger] self.flags@[q].bits()[i as int]),
                forall|q: int, j: int|
                    0 <= q < n && 0 <= j < capn && !(q < k && j == i as int)
                        ==> #[trigger] self.flags@[q].bits()[j] == old(self).flags@[q].bits()[j],
            decreases n - k,
        {
            proof {
                self.flags@[k as int].view_props();
            }
            let map = vstd::std_specs::vec::vec_index_mut(&mut self.flags, k);
            map.clear(i);
            k = k + 1;
        }
        Ok(index)
    }

    /// A copy of the record at `index`.
    pub fn get_row(&self, index: Index) -> (r: SResult<C>)
        requires
            self.wf(),
        ensures
            match r {
                Ok(v) => index@ < self.rows().len() && self.rows()[index@] == Some(v),
                Err(e) => (index@ >= self.frontier() || self.rows()[index@] is None) && e
                    == miss_err_of(self.frontier() as int, index),
            },
    {
        self.rows.get_row(index)
    }

    /// Removes and returns the record at `index`; its flag bits stay as
    /// they were, gated by the occupation state until the row is reused.
    pub fn remove(&mut self, index: Index) -> (r: SResult<C>)
        requires
            old(self).wf(),
        ensures
            final(self).wf(),
            final(self).cap() == old(self).cap(),
            final(self).frontier() == old(self).frontier(),
            final(self).flag_count() == old(self).flag_count(),
            forall|k: int, q: int|
                0 <= k < old(self).flag_count() && 0 <= q < old(self).cap()
                    ==> #[trigger] final(self).flag(k, q) == old(self).flag(k, q),
            match r {
                Ok(v) => index@ < old(self).rows().len() && old(self).rows()[index@] == Some(v)
                    && final(self).rows() == old(self).rows().update(index@, None) && final(self).free_seq() == seq![index@] + old(self).free_seq(),
                Err(e) => final(self).rows() == old(self).rows() && final(self).free_seq() == old(self).free_seq() && (index@ >= old(self).frontier() || old(self).rows()[index@] is None) && e == remove_err_of(old(self).frontier() as int, index),
            },
    {
        self.rows.remove(index)
    }

    /// Reads flag column `col` at a live row (the computed-word atomic
    /// load of a bit-packed field).  A flag column that was never
    /// registered is an invalid query.
    pub fn flag_load(&self, index: Index, col: usize) -> (r: SResult<bool>)
        requires
            self.wf(),
        ensures
            match r {
                Ok(b) => col < self.flag_count() && index@ < self.rows().len() && self.rows()[index@] is Some
                    && b == self.flag(col as int, index@),
                Err(e) => {
                    &&& (col >= self.flag_count() || index@ >= self.frontier()
                        || self.rows()[index@] is None)
                    &&& e == (if col >= self.flag_count() {
                        StoreError::InvalidQuery
                    } else {
                        miss_err_of(self.frontier() as int, index)
                    })
                },
            },
    {
        proof {
            self.rows.view_props();
        }
        if col >= self.flags.len() {
            return Err(StoreError::InvalidQuery);
        }
        if !self.rows.is_live(index) {
            return Err(self.missing_row_error(index));
        }
        Ok(self.flags[col].load(index.get()))
    }

    /// Writes flag column `col` at a live row (the computed-word atomic
    /// store of a bit-packed field); no whole-row access is taken.
    pub fn flag_store(&mut self, index: Index, col: usize, value: bool) -> (r: SResult<()>)
        requires
            old(self).wf(),
        ensures
            final(self).wf(),
            final(self).cap() == old(self).cap(),
            final(self).frontier() == old(self).frontier(),
            final(self).free_seq() == old(self).free_seq(),
            final(self).rows() == old(self).rows(),
            final(self).flag_count() == old(self).flag_count(),
            match r {
                Ok(()) => {
                    &&& col < old(self).flag_count()
                    &&& index@ < old(self).rows().len() && old(self).rows()[index@] is Some
                    &&& final(self).flag(col as int, index@) == value
                    &&& forall|k: int, q: int|
                        0 <= k < old(self).flag_count() && 0 <= q < old(self).cap() && !(k
                            == col && q == index@) ==> #[trigger] final(self).flag(k, q) == old(self).flag(k, q)
                },
                Err(e) => {
                    &&& forall|k: int, q: int|
                        0 <= k < old(self).flag_count() && 0 <= q < old(self).cap()
                            ==> #[trigger] final(self).flag(k, q) == old(self).flag(k, q)
                    &&& (col >= old(self).flag_count() || index@ >= old(self).frontier()
                        || old(self).rows()[index@] is None)
                    &&& e == (if col >= old(self).flag_count() {
                        StoreError::InvalidQuery
                    } else {
                        miss_err_of(old(self).frontier() as int, index)
                    })
                },
            },
    {
        proof {
            self.rows.view_props();
        }
        if col >= self.flags.len() {
            return Err(StoreError::InvalidQuery);
        }
        if !self.rows.is_live(index) {
            return Err(self.missing_row_error(index));
        }
        let map = vstd::std_specs::vec::vec_index_mut(&mut self.flags, col);
        map.store(index.get(), value);
        proof {
            old(self).rows.view_props();
            self.flags@[col as int].view_props();
            old(self).flags@[col as int].view_props();
            assert(final(self).flag(col as int, index@) == value);
            assert forall|k: int, q: int|
                0 <= k < old(self).flag_count() && 0 <= q < old(self).cap() && !(k == col && q
                    == index@) implies #[trigger] final(self).flag(k, q) == old(self).flag(
                k,
                q,
            ) by {
                old(self).flags@[k].view_props();
                self.flags@[k].view_props();
            }
        }
        Ok(())
    }

    /// Sets flag column `col` at a live row.
    pub fn flag_set(&mut self, index: Index, col: usize) -> (r: SResult<()>)
        requires
            old(self).wf(),
        ensures
            final(self).wf(),
            final(self).rows() == old(self).rows(),
            final(self).frontier() == old(self).frontier(),
            final(self).flag_count() == old(self).flag_count(),
            match r {
                Ok(()) => col < old(self).flag_count() && final(self).flag(col as int, index@),
                Err(e) => (col >= old(self).flag_count() || index@ >= old(self).frontier()
                    || old(self).rows()[index@] is None) && forall|k: int, q: int|
                    0 <= k < old(self).flag_count() && 0 <= q < old(self).cap()
                        ==> #[trigger] final(self).flag(k, q) == old(self).flag(k, q),
            },
    {
        self.flag_store(index, col, true)
    }

    /// Clears flag column `col` at a live row.
    pub fn flag_clear(&mut self, index: Index, col: usize) -> (r: SResult<()>)
        requires
            old(self).wf(),
        ensures
            final(self).wf(),
            final(self).rows() == old(self).rows(),
            final(self).frontier() == old(self).frontier(),
            final(self).flag_count() == old(self).flag_count(),
            match r {
                Ok(()) => col < old(self).flag_count() && !final(self).flag(col as int, index@),
                Err(e) => (col >= old(self).flag_count() || index@ >= old(self).frontier()
                    || old(self).rows()[index@] is None) && forall|k: int, q: int|
                    0 <= k < old(self).flag_count() && 0 <= q < old(self).cap()
                        ==> #[trigger] final(self).flag(k, q) == old(self).flag(k, q),
            },
    {
        self.flag_store(index, col, false)
    }

    /// Grows the store to a capacity of at least `new_capacity` (with the
    /// usual doubling): live rows and their flags keep their values, new
    /// rows start with every flag clear.
    pub fn widen(&mut self, new_capacity: Length) -> (r: SResult<()>)
        requires
            old(self).wf(),
        ensures
            final(self).wf(),
            final(self).frontier() == old(self).frontier(),
            final(self).free_seq() == old(self).free_seq(),
            final(self).flag_count() == old(self).flag_count(),
            match r {
                Ok(()) => {
                    &&& new_capacity > old(self).cap()
                    &&& final(self).cap() == grow_target(
                        old(self).cap() as int,
                        new_capacity as int,
                    )
                    &&& final(self).rows() == old(self).rows() + Seq::new(
                        (final(self).cap() - old(self).cap()) as nat,
                        (|i: int| None::<C>),
                    )
                    &&& forall|k: int, q: int|
                        0 <= k < old(self).flag_count() && 0 <= q < old(self).cap()
                            ==> #[trigger] final(self).flag(k, q) == old(self).flag(k, q)
                    &&& forall|k: int, q: int|
                        0 <= k < old(self).flag_count() && old(self).cap() <= q < final(self).cap() ==> !(#[trigger] final(self).flag(k, q))
                },
                Err(e) => {
                    &&& final(self).cap() == old(self).cap()
                    &&& final(self).rows() == old(self).rows()
                    &&& (if new_capacity <= old(self).cap() {
                        e == StoreError::Narrow(new_capacity, (old(self).cap() as Length))
                    } else {
                        e == StoreError::InvalidLayout
                    })
                },
            },
    {
        match self.rows.widen(new_capacity) {
            Ok(()) => {},
            Err(e) => {
                return Err(e);
            },
        }
        let target = self.rows.capacity();
        let ghost mid_rows = self.rows;
        let n = self.flags.len();
        let mut k: usize = 0;
        while k < n
            invariant
                k <= n,
                n == self.flags@.len(),
                self.rows == mid_rows,
                mid_rows.wf(),
                mid_rows.cap() == target,
                old(self).cap() <= target,
                new_capacity > old(self).cap(),
                target as int == grow_target(old(self).cap() as int, new_capacity as int),
                mid_rows.frontier() == old(self).rows.frontier(),
                mid_rows.free_seq() == old(self).rows.free_seq(),
                mid_rows.rows() == old(self).rows.rows() + Seq::new(
                    (target - old(self).cap()) as nat,
                    (|i: int| None::<C>),
                ),
                forall|q: int|
                    k <= q < n ==> (#[trigger] self.flags@[q]).wf() && self.flags@[q].spec_len()
                        == old(self).cap() && self.flags@[q].bits() == old(self).flags@[q].bits(),
                forall|q: int|
                    0 <= q < k ==> (#[trigger] self.flags@[q]).wf() && self.flags@[q].spec_len()
                        == target && self.flags@[q].bits() == old(self).flags@[q].bits()
                        + Seq::new((target - old(self).cap()) as nat, (|i: int| false)),
            decreases n - k,
        {
            let map = vstd::std_specs::vec::vec_index_mut(&mut self.flags, k);
            map.grow(target);
            k = k + 1;
        }
        proof {
            old(self).flags_len_props();
            assert forall|k: int, q: int|
                0 <= k < old(self).flag_count() && 0 <= q < old(self).cap() implies #[trigger] final(self).flag(k, q) == old(self).flag(k, q) by {
                old(self).flags@[k].view_props();
                self.flags@[k].view_props();
            }
            assert forall|k: int, q: int|
                0 <= k < old(self).flag_count() && old(self).cap() <= q < final(self).cap()
                    implies !(#[trigger] final(self).flag(k, q)) by {
                old(self).flags@[k].view_props();
                self.flags@[k].view_props();
            }
        }
        Ok(())
    }

    /// Every flag column of a well-formed store covers the capacity.
    proof fn flags_len_props(&self)
        requires
            self.wf(),
        ensures
            forall|k: int|
                0 <= k < self.flags@.len() ==> (#[trigger] self.flags@[k]).bits().len()
                    == self.cap(),
    {
        assert forall|k: int|
            0 <= k < self.flags@.len() implies (#[trigger] self.flags@[k]).bits().len()
            == self.cap() by {
            self.flags@[k].view_props();
        }
    }

    /// The store-level error for a missing row.
    fn missing_row_error(&self, index: Index) -> (e: StoreError)
        requires
            self.wf(),
            index@ >= self.frontier() || self.rows()[index@] is None,
        ensures
            e == miss_err_of(self.frontier() as int, index),
    {
        proof {
            self.rows.view_props();
        }
        let frontier = self.rows.frontier_raw();
        if index.get() >= frontier {
            StoreError::OutOfBounds(index, frontier)
        } else {
            StoreError::AccessAfterFree(index)
        }
    }
}

} // verus!

//! The columnar element kind under the exclusive strategy: whole records
//! spread over a columnar store, addressed through brand-checked handles.

use vstd::prelude::*;

use crate::errors::{HandleFault, ManagerError, MResult, StoreError};
use crate::index::{Index, Length};
use crate::manager::{access_fault, remove_fault, XHandle};
use crate::store::{grow_target, layout_fits, Columns, ReusableSoAStore, SoAFreelistStore, SoAStore};

verus! {

broadcast use crate::index::lemma_index_bounds, crate::index::lemma_index_injective;

/// A manager of the columnar kind under the exclusive strategy: one
/// columnar store, one brand, no generation bookkeeping.
pub struct SoAManager<C: Columns> {
    store: SoAFreelistStore<C>,
    brand: u64,
}

impl<C: Columns> SoAManager<C> {
    /// The identity token this manager stamps into its handles.
    pub closed spec fn brand_id(&self) -> int {
        self.brand as int
    }

    /// The row table of the backing store.
    pub closed spec fn rows(&self) -> Seq<Option<C>> {
        self.store.rows()
    }

    /// The reserved capacity of the backing store.
    pub closed spec fn cap(&self) -> nat {
        self.store.cap()
    }

    /// The bump frontier of the backing store.
    pub closed spec fn frontier(&self) -> nat {
        self.store.frontier()
    }

    /// The reuse order of the backing store.
    pub closed spec fn free_seq(&self) -> Seq<int> {
        self.store.free_seq()
    }

    /// Internal well-formedness.
    pub closed spec fn wf(&self) -> bool {
        self.store.wf()
    }

    /// A fresh manager over an empty columnar store, stamped with `brand`;
    /// fails only where the record's column layout cannot be computed at
    /// capacity zero.
    pub fn new(brand: u64) -> (r: MResult<Self>)
        ensures
            match r {
                Ok(m) => m.wf() && m.brand_id() == brand && m.cap() == 0 && m.frontier() == 0
                    && m.free_seq() == Seq::<int>::empty(),
                Err(e) => e == ManagerError::StoreError(StoreError::InvalidLayout) && !(
                C::layouts_ok(0) && layout_fits(C::layout_spec(0), 0)),
            },
    {
        match SoAFreelistStore::with_capacity(0) {
            Ok(store) => Ok(SoAManager { store, brand }),
            Err(e) => Err(ManagerError::StoreError(e)),
        }
    }

    /// The reserved capacity.
    pub fn capacity(&self) -> (r: Length)
        requires
            self.wf(),
        ensures
            r == self.cap(),
    {
        self.store.capacity()
    }

    /// Grows the reserved capacity by at least `additional` rows (with the
    /// usual doubling), failing where the resulting capacity would not be
    /// representable or the layout cannot be recomputed there.
    pub fn reserve(&mut self, additional: Length) -> (r: MResult<()>)
        requires
            old(self).wf(),
        ensures
            final(self).wf(),
            final(self).brand_id() == old(self).brand_id(),
            final(self).frontier() == old(self).frontier(),
            final(self).free_seq() == old(self).free_seq(),
            match r {
                Ok(()) => {
                    &&& additional == 0 ==> *final(self) == *old(self)
                    &&& additional > 0 ==> {
                        &&& old(self).cap() + additional <= u32::MAX
                        &&& final(self).cap() == grow_target(
                            old(self).cap() as int,
                            old(self).cap() + additional,
                        )
                        &&& final(self).rows() == old(self).rows() + Seq::new(
                            (final(self).cap() - old(self).cap()) as nat,
                            (|i: int| None::<C>),
                        )
                    }
                },
                Err(e) => {
                    &&& final(self).cap() == old(self).cap()
                    &&& final(self).rows() == old(self).rows()
                    &&& (e == ManagerError::StoreError(
                        StoreError::OutofMemory((old(self).cap() as Length), u32::MAX),
                    ) && old(self).cap() + additional > u32::MAX || e == ManagerError::StoreError(
                        StoreError::InvalidLayout,
                    ) && additional > 0)
                },
            },
    {
        if additional == 0 {
            return Ok(());
        }
        let cap = self.store.capacity();
        match cap.checked_add(additional) {
            Some(new_capacity) => {
                match self.store.widen(new_capacity) {
                    Ok(()) => Ok(()),
                    Err(e) => Err(ManagerError::StoreError(e)),
                }
            },
            None => Err(ManagerError::StoreError(StoreError::OutofMemory(cap, u32::MAX))),
        }
    }

    /// Inserts a record without growing, minting a handle under this
    /// manager's brand; hands the record back where no capacity is left.
    pub fn insert_within_capacity(&mut self, row: C) -> (r: Result<XHandle, C>)
        requires
            old(self).wf(),
        ensures
            final(self).wf(),
            final(self).brand_id() == old(self).brand_id(),
            final(self).cap() == old(self).cap(),
            match r {
                Ok(h) => {
                    &&& h.brand_id() == old(self).brand_id()
                    &&& 0 <= h.idx() < final(self).frontier()
                    &&& !(old(self).free_seq().len() == 0 && old(self).frontier() == old(self).cap())
                    &&& old(self).rows()[h.idx()] is None
                    &&& h.idx() == (if old(self).free_seq().len() > 0 {
                        old(self).free_seq()[0]
                    } else {
                        old(self).frontier() as int
                    })
                    &&& final(self).rows() == old(self).rows().update(h.idx(), Some(row))
                    &&& final(self).frontier() == (if h.idx() == old(self).frontier() {
                        old(self).frontier() + 1
                    } else {
                        old(self).frontier()
                    })
                    &&& final(self).free_seq() == (if old(self).free_seq().len() > 0 {
                        old(self).free_seq().drop_first()
                    } else {
                        old(self).free_seq()
                    })
                },
                Err(d) => d == row && final(self).rows() == old(self).rows() && final(self).frontier() == old(self).frontier() && final(self).free_seq() == old(self).free_seq() && old(self).free_seq().len() == 0 && old(self).frontier() == old(self).cap(),
            },
    {
        match self.store.insert_within_capacity(row) {
            Ok(index) => Ok(crate::manager::mint_exclusive(index, self.brand)),
            Err(d) => Err(d),
        }
    }

    /// A copy of the record a handle points at, reconstituted from its
    /// columns.
    pub fn get_row(&self, handle: &XHandle) -> (r: MResult<C>)
        requires
            self.wf(),
        ensures
            match r {
                Ok(v) => handle.brand_id() == self.brand_id() && 0 <= handle.idx()
                    < self.rows().len() && self.rows()[handle.idx()] == Some(v),
                Err(e) => {
                    &&& (handle.brand_id() != self.brand_id() || handle.idx() >= self.frontier()
                        || self.rows()[handle.idx()] is None)
                    &&& e == access_fault(
                        handle.brand_id() == self.brand_id(),
                        false,
                        self.frontier() as int,
                        handle.sindex(),
                    )
                },
            },
    {
        if handle.raw_brand() != self.brand {
            return Err(ManagerError::BadHandle(HandleFault::WrongBrand));
        }
        proof {
            self.store.view_props();
        }
        match self.store.get_row(handle.index()) {
            Ok(v) => Ok(v),
            Err(e) => Err(ManagerError::StoreError(e)),
        }
    }

    /// Overwrites the record a handle points at, column by column.
    pub fn set_row(&mut self, handle: &XHandle, row: C) -> (r: MResult<()>)
        requires
            old(self).wf(),
        ensures
            final(self).wf(),
            final(self).brand_id() == old(self).brand_id(),
            final(self).cap() == old(self).cap(),
            final(self).frontier() == old(self).frontier(),
            final(self).free_seq() == old(self).free_seq(),
            match r {
                Ok(()) => handle.brand_id() == old(self).brand_id() && 0 <= handle.idx() < old(self).rows().len() && old(self).rows()[handle.idx()] is Some && final(self).rows()
                    == old(self).rows().update(handle.idx(), Some(row)),
                Err(e) => {
                    &&& final(self).rows() == old(self).rows()
                    &&& (handle.brand_id() != old(self).brand_id() || handle.idx() >= old(self).frontier() || old(self).rows()[handle.idx()] is None)
                    &&& e == access_fault(
                        handle.brand_id() == old(self).brand_id(),
                        false,
                        old(self).frontier() as int,
                        handle.sindex(),
                    )
                },
            },
    {
        if handle.raw_brand() != self.brand {
            return Err(ManagerError::BadHandle(HandleFault::WrongBrand));
        }
        match self.store.set_row(handle.index(), row) {
            Ok(()) => Ok(()),
            Err(e) => Err(ManagerError::StoreError(e)),
        }
    }

    /// Removes the record a handle points at and consumes the handle; on
    /// failure the handle is handed back beside the error.
    pub fn remove(&mut self, handle: XHandle) -> (r: Result<C, (XHandle, ManagerError)>)
        requires
            old(self).wf(),
        ensures
            final(self).wf(),
            final(self).brand_id() == old(self).brand_id(),
            final(self).cap() == old(self).cap(),
            final(self).frontier() == old(self).frontier(),
            match r {
                Ok(v) => handle.brand_id() == old(self).brand_id() && 0 <= handle.idx() < old(self).rows().len() && old(self).rows()[handle.idx()] == Some(v) && final(self).rows()
                    == old(self).rows().update(handle.idx(), None) && final(self).free_seq()
                    == seq![handle.idx()] + old(self).free_seq(),
                Err((h, e)) => {
                    &&& h == handle
                    &&& final(self).rows() == old(self).rows()
                    &&& final(self).free_seq() == old(self).free_seq()
                    &&& (handle.brand_id() != old(self).brand_id() || handle.idx() >= old(self).frontier() || old(self).rows()[handle.idx()] is None)
                    &&& e == remove_fault(
                        handle.brand_id() == old(self).brand_id(),
                        false,
                        old(self).frontier() as int,
                        handle.sindex(),
                    )
                },
            },
    {
        if handle.raw_brand() != self.brand {
            return Err((handle, ManagerError::BadHandle(HandleFault::WrongBrand)));
        }
        proof {
            old(self).store.view_props();
        }
        match self.store.remove(handle.index()) {
            Ok(v) => Ok(v),
            Err(e) => Err((handle, ManagerError::StoreError(e))),
        }
    }
}

} // verus!

//! The exclusive (structural) safety strategy: handles carry no generation
//! stamp; uniqueness of mutable access is guaranteed by the caller's
//! ownership of the non-copyable handle, and every access validates only
//! the brand and the slot itself.

use core::marker::PhantomData;

use vstd::prelude::*;

use crate::errors::{HandleFault, ManagerError, MResult, StoreError};
use crate::index::{Index, Length};
use crate::manager::{access_fault, remove_fault};
use crate::store::{grow_target, pair_err_of, GetDisjointMut, ReusableStore, Store};

verus! {

broadcast use crate::index::lemma_index_bounds, crate::index::lemma_version_bounds, crate::index::lemma_index_injective, crate::index::lemma_version_injective;

/// A handle of the exclusive strategy: a slot index and the brand of the
/// manager that minted it.  It is deliberately not copyable: owning it is
/// owning the slot.
#[derive(Debug)]
pub struct ExclusiveHandle {
    index: Index,
    brand: u64,
}

/// Shorthand for [`ExclusiveHandle`].
pub type XHandle = ExclusiveHandle;

impl ExclusiveHandle {
    /// The slot this handle points at.
    pub closed spec fn sindex(&self) -> Index {
        self.index
    }

    /// The slot this handle points at, as a number.
    pub open spec fn idx(&self) -> int {
        self.sindex()@
    }

    /// The identity token of the manager that minted this handle.
    pub closed spec fn brand_id(&self) -> int {
        self.brand as int
    }

    /// The raw slot index; exposed for bookkeeping, never for direct access.
    pub fn index(&self) -> (i: Index)
        ensures
            i == self.sindex(),
    {
        self.index
    }

    /// The raw identity token; used by the managers of this crate to
    /// compare a handle against their own brand.
    pub(crate) fn raw_brand(&self) -> (b: u64)
        ensures
            b as int == self.brand_id(),
    {
        self.brand
    }
}

/// Mints an exclusive handle from its parts; only the managers of this
/// crate may forge handles.
pub(crate) fn mint_exclusive(index: Index, brand: u64) -> (h: XHandle)
    ensures
        h.sindex() == index,
        h.idx() == index@,
        h.brand_id() == brand,
{
    ExclusiveHandle { index, brand }
}

/// A manager of the exclusive strategy: one store, one brand, no generation
/// bookkeeping.
pub struct ExclusiveManager<T, S> {
    store: S,
    brand: u64,
    _marker: PhantomData<T>,
}

/// Shorthand for [`ExclusiveManager`].
pub type XManager<T, S> = ExclusiveManager<T, S>;

impl<T, S: Store<T>> ExclusiveManager<T, S> {
    /// The identity token this manager stamps into its handles.
    pub closed spec fn brand_id(&self) -> int {
        self.brand as int
    }

    /// The slot table of the backing store.
    pub closed spec fn slots(&self) -> Seq<Option<T>> {
        self.store.slots()
    }

    /// The reserved capacity of the backing store.
    pub closed spec fn cap(&self) -> nat {
        self.store.cap()
    }

    /// The bump frontier of the backing store.
    pub closed spec fn extent(&self) -> nat {
        self.store.extent()
    }

    /// The reuse order of the backing store.
    pub closed spec fn free_seq(&self) -> Seq<int> {
        self.store.free_seq()
    }

    /// Internal well-formedness.
    pub closed spec fn wf(&self) -> bool {
        self.store.wf()
    }

    /// What the views guarantee of each other; see [`Store::view_props`].
    pub proof fn view_props(&self)
        requires
            self.wf(),
        ensures
            self.slots().len() == self.cap(),
            self.extent() <= self.cap(),
            self.cap() <= u32::MAX,
            forall|i: int|
                self.extent() <= i < self.cap() ==> self.slots()[i] is None,
    {
        self.store.view_props();
    }

    /// A fresh manager over an empty store, stamped with `brand`.  The
    /// caller supplies the brand and is responsible for its uniqueness;
    /// every handle this manager mints carries it.
    pub fn new(brand: u64) -> (r: Self)
        ensures
            r.wf(),
            r.brand_id() == brand,
            r.cap() == 0,
            r.extent() == 0,
            r.slots() == Seq::<Option<T>>::empty(),
            r.free_seq() == Seq::<int>::empty(),
    {
        ExclusiveManager { store: S::new_store(), brand, _marker: PhantomData }
    }

    /// The reserved capacity.
    pub fn capacity(&self) -> (r: Length)
        requires
            self.wf(),
        ensures
            r == self.cap(),
    {
        self.store.capacity()
    }

    /// Grows the reserved capacity by at least `additional` rows (with the
    /// usual doubling, to amortize), failing only where the resulting
    /// capacity would not be representable.
    pub fn reserve(&mut self, additional: Length) -> (r: MResult<()>)
        requires
            old(self).wf(),
        ensures
            final(self).wf(),
            final(self).brand_id() == old(self).brand_id(),
            final(self).extent() == old(self).extent(),
            final(self).free_seq() == old(self).free_seq(),
            match r {
                Ok(()) => {
                    &&& old(self).cap() + additional <= u32::MAX
                    &&& additional == 0 ==> final(self).cap() == old(self).cap() && final(self).slots() == old(self).slots()
                    &&& additional > 0 ==> {
                        &&& final(self).cap() == grow_target(
                            old(self).cap() as int,
                            old(self).cap() + additional,
                        )
                        &&& final(self).slots() == old(self).slots() + Seq::new(
                            (final(self).cap() - old(self).cap()) as nat,
                            (|i: int| None::<T>),
                        )
                    }
                },
                Err(e) => {
                    &&& old(self).cap() + additional > u32::MAX
                    &&& e == ManagerError::StoreError(
                        StoreError::OutofMemory((old(self).cap() as Length), u32::MAX),
                    )
                    &&& final(self).cap() == old(self).cap()
                    &&& final(self).slots() == old(self).slots()
                },
            },
    {
        let cap = self.store.capacity();
        match cap.checked_add(additional) {
            Some(new_capacity) => {
                let widened = self.store.widen(new_capacity);
                proof {
                    assert(widened is Ok);
                }
                Ok(())
            },
            None => Err(ManagerError::StoreError(StoreError::OutofMemory(cap, u32::MAX))),
        }
    }

    /// Consumes the manager, logically empties its store without releasing
    /// the allocation, and rebrands it; handles minted under the old brand
    /// are rejected from here on.  Content that was still live is not
    /// dropped through this path and may leak.
    pub fn into_empty(self, brand: u64) -> (r: Self)
        requires
            self.wf(),
        ensures
            r.wf(),
            r.brand_id() == brand,
            r.cap() == self.cap(),
            r.extent() == 0,
            r.free_seq() == Seq::<int>::empty(),
            r.slots() == Seq::new(self.cap(), (|i: int| None::<T>)),
    {
        let mut store = self.store;
        store.clear();
        ExclusiveManager { store, brand, _marker: PhantomData }
    }

    /// A shared borrow of the element a handle points at.
    pub fn get(&self, handle: &XHandle) -> (r: MResult<&T>)
        requires
            self.wf(),
        ensures
            match r {
                Ok(v) => handle.brand_id() == self.brand_id() && 0 <= handle.idx()
                    < self.slots().len() && self.slots()[handle.idx()] == Some(*v),
                Err(e) => {
                    &&& (handle.brand_id() != self.brand_id() || handle.idx() >= self.extent()
                        || self.slots()[handle.idx()] is None)
                    &&& e == access_fault(
                        handle.brand_id() == self.brand_id(),
                        false,
                        self.extent() as int,
                        handle.sindex(),
                    )
                },
            },
    {
        if handle.brand != self.brand {
            return Err(ManagerError::BadHandle(HandleFault::WrongBrand));
        }
        match self.store.get(handle.index) {
            Ok(v) => Ok(v),
            Err(e) => Err(ManagerError::StoreError(e)),
        }
    }

    /// A mutable borrow of the element a handle points at.  The handle is
    /// taken mutably: holding that borrow is what makes the access
    /// exclusive under this strategy.
    pub fn get_mut(&mut self, handle: &mut XHandle) -> (r: MResult<&mut T>)
        requires
            old(self).wf(),
        ensures
            final(self).wf(),
            *final(handle) == *old(handle),
            final(self).brand_id() == old(self).brand_id(),
            final(self).cap() == old(self).cap(),
            final(self).extent() == old(self).extent(),
            final(self).free_seq() == old(self).free_seq(),
            match r {
                Ok(v) => old(handle).brand_id() == old(self).brand_id() && 0 <= old(handle).idx()
                    < old(self).slots().len() && old(self).slots()[old(handle).idx()] == Some(*v)
                    && final(self).slots() == old(self).slots().update(
                    old(handle).idx(),
                    Some(*final(v)),
                ),
                Err(e) => {
                    &&& final(self).slots() == old(self).slots()
                    &&& (old(handle).brand_id() != old(self).brand_id() || old(handle).idx()
                        >= old(self).extent() || old(self).slots()[old(handle).idx()] is None)
                    &&& e == access_fault(
                        old(handle).brand_id() == old(self).brand_id(),
                        false,
                        old(self).extent() as int,
                        old(handle).sindex(),
                    )
                },
            },
    {
        if handle.brand != self.brand {
            return Err(ManagerError::BadHandle(HandleFault::WrongBrand));
        }
        match self.store.get_mut(handle.index) {
            Ok(v) => Ok(v),
            Err(e) => Err(ManagerError::StoreError(e)),
        }
    }

    /// Inserts `data` without growing, minting a handle under this
    /// manager's brand; hands `data` back where no capacity is left.
    pub fn insert_within_capacity(&mut self, data: T) -> (r: Result<XHandle, T>)
        requires
            old(self).wf(),
        ensures
            final(self).wf(),
            final(self).brand_id() == old(self).brand_id(),
            final(self).cap() == old(self).cap(),
            match r {
                Ok(h) => {
                    &&& h.brand_id() == old(self).brand_id()
                    &&& 0 <= h.idx() < final(self).extent()
                    &&& !(old(self).free_seq().len() == 0 && old(self).extent() == old(self).cap())
                    &&& old(self).slots()[h.idx()] is None
                    &&& h.idx() == (if old(self).free_seq().len() > 0 {
                        old(self).free_seq()[0]
                    } else {
                        old(self).extent() as int
                    })
                    &&& final(self).slots() == old(self).slots().update(h.idx(), Some(data))
                    &&& final(self).extent() == (if h.idx() == old(self).extent() {
                        old(self).extent() + 1
                    } else {
                        old(self).extent()
                    })
                    &&& final(self).free_seq() == (if old(self).free_seq().len() > 0 {
                        old(self).free_seq().drop_first()
                    } else {
                        old(self).free_seq()
                    })
                },
                Err(d) => d == data && final(self).slots() == old(self).slots() && final(self).extent() == old(self).extent() && final(self).free_seq() == old(self).free_seq()
                    && old(self).free_seq().len() == 0 && old(self).extent() == old(self).cap(),
            },
    {
        match self.store.insert_within_capacity(data) {
            Ok(index) => Ok(ExclusiveHandle { index, brand: self.brand }),
            Err(d) => Err(d),
        }
    }
}

impl<T, S: GetDisjointMut<T>> ExclusiveManager<T, S> {
    /// Mutable borrows of two distinct slots at once.  The handles are
    /// taken mutably, and the slots' disjointness is checked: two handles
    /// of this manager can only alias if the caller duplicated a slot
    /// index, which is exactly what the check rejects.
    pub fn get_disjoint_mut(&mut self, ha: &mut XHandle, hb: &mut XHandle) -> (r: MResult<
        (&mut T, &mut T),
    >)
        requires
            old(self).wf(),
        ensures
            final(self).wf(),
            *final(ha) == *old(ha),
            *final(hb) == *old(hb),
            final(self).brand_id() == old(self).brand_id(),
            final(self).cap() == old(self).cap(),
            final(self).extent() == old(self).extent(),
            final(self).free_seq() == old(self).free_seq(),
            match r {
                Ok(pair) => {
                    &&& old(ha).brand_id() == old(self).brand_id()
                    &&& old(hb).brand_id() == old(self).brand_id()
                    &&& old(ha).idx() != old(hb).idx()
                    &&& old(self).slots()[old(ha).idx()] == Some(*pair.0)
                    &&& old(self).slots()[old(hb).idx()] == Some(*pair.1)
                    &&& 0 <= old(ha).idx() < old(self).slots().len()
                    &&& 0 <= old(hb).idx() < old(self).slots().len()
                    &&& final(self).slots() == old(self).slots().update(
                        old(ha).idx(),
                        Some(*final(pair.0)),
                    ).update(old(hb).idx(), Some(*final(pair.1)))
                },
                Err(e) => {
                    &&& final(self).slots() == old(self).slots()
                    &&& (old(ha).brand_id() != old(self).brand_id() || old(hb).brand_id() != old(self).brand_id() || old(ha).idx() == old(hb).idx() || old(ha).idx() >= old(self).extent() || old(hb).idx() >= old(self).extent()
                        || old(self).slots()[old(ha).idx()] is None
                        || old(self).slots()[old(hb).idx()] is None)
                    &&& e == (if old(ha).brand_id() != old(self).brand_id() || old(hb).brand_id()
                        != old(self).brand_id() {
                        ManagerError::BadHandle(HandleFault::WrongBrand)
                    } else {
                        ManagerError::StoreError(
                            pair_err_of(
                                old(self).extent() as int,
                                old(self).slots(),
                                old(ha).sindex(),
                                old(hb).sindex(),
                            ),
                        )
                    })
                },
            },
    {
        if ha.brand != self.brand || hb.brand != self.brand {
            return Err(ManagerError::BadHandle(HandleFault::WrongBrand));
        }
        match self.store.get_pair_mut(ha.index, hb.index) {
            Ok(pair) => Ok(pair),
            Err(e) => Err(ManagerError::StoreError(e)),
        }
    }
}

impl<T, S: ReusableStore<T>> ExclusiveManager<T, S> {
    /// Removes the element a handle points at and consumes the handle; on
    /// failure the handle is handed back beside the error.
    pub fn remove(&mut self, handle: XHandle) -> (r: Result<T, (XHandle, ManagerError)>)
        requires
            old(self).wf(),
        ensures
            final(self).wf(),
            final(self).brand_id() == old(self).brand_id(),
            final(self).cap() == old(self).cap(),
            final(self).extent() == old(self).extent(),
            match r {
                Ok(v) => handle.brand_id() == old(self).brand_id() && 0 <= handle.idx() < old(self).slots().len() && old(self).slots()[handle.idx()] == Some(v) && final(self).slots() == old(self).slots().update(handle.idx(), None) && final(self).free_seq()
                    == seq![handle.idx()] + old(self).free_seq(),
                Err((h, e)) => {
                    &&& h == handle
                    &&& final(self).slots() == old(self).slots()
                    &&& final(self).free_seq() == old(self).free_seq()
                    &&& (handle.brand_id() != old(self).brand_id() || handle.idx() >= old(self).extent() || old(self).slots()[handle.idx()] is None)
                    &&& e == remove_fault(
                        handle.brand_id() == old(self).brand_id(),
                        false,
                        old(self).extent() as int,
                        handle.sindex(),
                    )
                },
            },
    {
        if handle.brand != self.brand {
            return Err((handle, ManagerError::BadHandle(HandleFault::WrongBrand)));
        }
        match self.store.remove(handle.index) {
            Ok(v) => Ok(v),
            Err(e) => Err((handle, ManagerError::StoreError(e))),
        }
    }
}

} // verus!

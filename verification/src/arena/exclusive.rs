//! The exclusive arena: a thin facade over an exclusive manager.  Ordinary
//! access is granted purely on presentation of a valid handle; only the
//! batch accessor needs a disjointness check.  Under concurrent use, insert
//! and remove are meant to be serialized by one allocation mutex around
//! this facade; nothing here blocks.

use vstd::prelude::*;
use vstd::pervasive::unreached;

use crate::manager::ExclusiveManager;
use crate::errors::{ArenaError, AResult, ManagerError, StoreError};
use crate::index::{Index, Length};
use crate::manager::{access_fault, remove_fault, XHandle};
use crate::store::{grow_target, pair_err_of, GetDisjointMut, ReusableStore, Store};

verus! {

broadcast use crate::index::lemma_index_bounds, crate::index::lemma_index_injective;

/// The exclusive arena: owns its manager outright.
pub struct XArena<T, S> {
    manager: ExclusiveManager<T, S>,
}

impl<T, S: Store<T>> XArena<T, S> {
    /// The identity token of the backing manager.
    pub closed spec fn brand_id(&self) -> int {
        self.manager.brand_id()
    }

    /// The slot table of the backing store.
    pub closed spec fn slots(&self) -> Seq<Option<T>> {
        self.manager.slots()
    }

    /// The reserved capacity.
    pub closed spec fn cap(&self) -> nat {
        self.manager.cap()
    }

    /// The bump frontier.
    pub closed spec fn extent(&self) -> nat {
        self.manager.extent()
    }

    /// The reuse order.
    pub closed spec fn free_seq(&self) -> Seq<int> {
        self.manager.free_seq()
    }

    /// Internal well-formedness.
    pub closed spec fn wf(&self) -> bool {
        self.manager.wf()
    }

    /// No free slot is left and no untouched row remains.
    pub open spec fn is_full(&self) -> bool {
        self.free_seq().len() == 0 && self.extent() == self.cap()
    }

    /// A fresh arena with no reserved capacity, stamped with `brand`.  The
    /// caller supplies the brand and is responsible for its uniqueness.
    pub fn new(brand: u64) -> (r: Self)
        ensures
            r.wf(),
            r.brand_id() == brand,
            r.cap() == 0,
            r.extent() == 0,
            r.slots() == Seq::<Option<T>>::empty(),
            r.free_seq() == Seq::<int>::empty(),
    {
        XArena { manager: ExclusiveManager::new(brand) }
    }

    /// Grows the reserved capacity by at least `additional` rows.
    pub fn reserve(&mut self, additional: Length) -> (r: AResult<()>)
        requires
            old(self).wf(),
        ensures
            final(self).wf(),
            final(self).brand_id() == old(self).brand_id(),
            final(self).extent() == old(self).extent(),
            final(self).free_seq() == old(self).free_seq(),
            match r {
                Ok(()) => old(self).cap() + additional <= u32::MAX && final(self).cap()
                    >= old(self).cap() + additional,
                Err(e) => {
                    &&& old(self).cap() + additional > u32::MAX
                    &&& e == ArenaError::ManagerError(
                        ManagerError::StoreError(
                            StoreError::OutofMemory((old(self).cap() as Length), u32::MAX),
                        ),
                    )
                    &&& final(self).cap() == old(self).cap()
                    &&& final(self).slots() == old(self).slots()
                },
            },
    {
        match self.manager.reserve(additional) {
            Ok(()) => Ok(()),
            Err(e) => Err(ArenaError::ManagerError(e)),
        }
    }

    /// Consumes the arena, logically empties it without releasing the
    /// allocation, and rebrands it, so handles minted before are rejected
    /// from here on.  Content that was still live may leak.
    pub fn into_empty(self, brand: u64) -> (r: Self)
        requires
            self.wf(),
        ensures
            r.wf(),
            r.brand_id() == brand,
            r.cap() == self.cap(),
            r.extent() == 0,
            r.free_seq() == Seq::<int>::empty(),
            r.slots() == Seq::new(self.cap(), (|i: int| None::<T>)),
    {
        XArena { manager: self.manager.into_empty(brand) }
    }

    /// A shared borrow of the element a handle points at.
    pub fn get(&self, handle: &XHandle) -> (r: AResult<&T>)
        requires
            self.wf(),
        ensures
            match r {
                Ok(v) => handle.brand_id() == self.brand_id() && 0 <= handle.idx()
                    < self.slots().len() && self.slots()[handle.idx()] == Some(*v),
                Err(e) => {
                    &&& (handle.brand_id() != self.brand_id() || handle.idx() >= self.extent()
                        || self.slots()[handle.idx()] is None)
                    &&& e == ArenaError::ManagerError(
                        access_fault(
                            handle.brand_id() == self.brand_id(),
                            false,
                            self.extent() as int,
                            handle.sindex(),
                        ),
                    )
                },
            },
    {
        match self.manager.get(handle) {
            Ok(v) => Ok(v),
            Err(e) => Err(ArenaError::ManagerError(e)),
        }
    }

    /// A mutable borrow of the element a handle points at; exclusivity
    /// comes from the mutable borrow of the handle.
    pub fn get_mut(&mut self, handle: &mut XHandle) -> (r: AResult<&mut T>)
        requires
            old(self).wf(),
        ensures
            final(self).wf(),
            *final(handle) == *old(handle),
            final(self).brand_id() == old(self).brand_id(),
            final(self).cap() == old(self).cap(),
            final(self).extent() == old(self).extent(),
            final(self).free_seq() == old(self).free_seq(),
            match r {
                Ok(v) => old(handle).brand_id() == old(self).brand_id() && 0 <= old(handle).idx()
                    < old(self).slots().len() && old(self).slots()[old(handle).idx()] == Some(*v)
                    && final(self).slots() == old(self).slots().update(
                    old(handle).idx(),
                    Some(*final(v)),
                ),
                Err(e) => {
                    &&& final(self).slots() == old(self).slots()
                    &&& e == ArenaError::ManagerError(
                        access_fault(
                            old(handle).brand_id() == old(self).brand_id(),
                            false,
                            old(self).extent() as int,
                            old(handle).sindex(),
                        ),
                    )
                },
            },
    {
        match self.manager.get_mut(handle) {
            Ok(v) => Ok(v),
            Err(e) => Err(ArenaError::ManagerError(e)),
        }
    }

    /// Inserts `data` without growing; hands it back where no capacity is
    /// left.
    pub fn insert_within_capacity(&mut self, data: T) -> (r: Result<XHandle, T>)
        requires
            old(self).wf(),
        ensures
            final(self).wf(),
            final(self).brand_id() == old(self).brand_id(),
            final(self).cap() == old(self).cap(),
            match r {
                Ok(h) => {
                    &&& h.brand_id() == old(self).brand_id()
                    &&& old(self).slots()[h.idx()] is None
                    &&& h.idx() == (if old(self).free_seq().len() > 0 {
                        old(self).free_seq()[0]
                    } else {
                        old(self).extent() as int
                    })
                    &&& final(self).slots() == old(self).slots().update(h.idx(), Some(data))
                    &&& final(self).extent() == (if h.idx() == old(self).extent() {
                        old(self).extent() + 1
                    } else {
                        old(self).extent()
                    })
                    &&& final(self).free_seq() == (if old(self).free_seq().len() > 0 {
                        old(self).free_seq().drop_first()
                    } else {
                        old(self).free_seq()
                    })
                },
                Err(d) => d == data && final(self).slots() == old(self).slots() && final(self).extent() == old(self).extent() && final(self).free_seq() == old(self).free_seq()
                    && old(self).is_full(),
            },
    {
        match self.manager.insert_within_capacity(data) {
            Ok(h) => Ok(h),
            Err(d) => Err(d),
        }
    }

    /// Inserts `data`, growing by exactly the minimal additional capacity
    /// if the arena is full and retrying once; a second failure cannot
    /// happen, and a growth failure hands `data` back beside the error.
    pub fn insert(&mut self, data: T) -> (r: Result<XHandle, (T, ArenaError)>)
        requires
            old(self).wf(),
        ensures
            final(self).wf(),
            final(self).brand_id() == old(self).brand_id(),
            match r {
                Ok(h) => {
                    &&& h.brand_id() == old(self).brand_id()
                    &&& h.idx() == (if old(self).free_seq().len() > 0 {
                        old(self).free_seq()[0]
                    } else {
                        old(self).extent() as int
                    })
                    &&& final(self).slots() == (if old(self).is_full() {
                        old(self).slots() + Seq::new(
                            (final(self).cap() - old(self).cap()) as nat,
                            (|i: int| None::<T>),
                        )
                    } else {
                        old(self).slots()
                    }).update(h.idx(), Some(data))
                    &&& !old(self).is_full() ==> final(self).cap() == old(self).cap()
                    &&& old(self).is_full() ==> final(self).cap() == grow_target(
                        old(self).cap() as int,
                        old(self).cap() as int + 1,
                    )
                    &&& final(self).extent() == (if h.idx() == old(self).extent() {
                        old(self).extent() + 1
                    } else {
                        old(self).extent()
                    })
                    &&& final(self).free_seq() == (if old(self).free_seq().len() > 0 {
                        old(self).free_seq().drop_first()
                    } else {
                        old(self).free_seq()
                    })
                },
                Err((d, e)) => {
                    &&& d == data
                    &&& old(self).is_full()
                    &&& old(self).cap() == u32::MAX
                    &&& final(self).slots() == old(self).slots()
                    &&& e == ArenaError::ManagerError(
                        ManagerError::StoreError(StoreError::OutofMemory(u32::MAX, u32::MAX)),
                    )
                },
            },
    {
        match self.manager.insert_within_capacity(data) {
            Ok(h) => Ok(h),
            Err(data) => {
                match self.manager.reserve(1) {
                    Err(e) => {
                        proof {
                            self.manager.view_props();
                        }
                        Err((data, ArenaError::ManagerError(e)))
                    },
                    Ok(()) => {
                        match self.manager.insert_within_capacity(data) {
                            Ok(h) => {
                                proof {
                                    assert(final(self).slots() =~= (old(self).slots() + Seq::new(
                                        (final(self).cap() - old(self).cap()) as nat,
                                        (|i: int| None::<T>),
                                    )).update(h.idx(), Some(data)));
                                }
                                Ok(h)
                            },
                            Err(_) => unreached(),
                        }
                    },
                }
            },
        }
    }
}

impl<T, S: GetDisjointMut<T>> XArena<T, S> {
    /// Mutable borrows of two distinct slots at once; the disjointness of
    /// the two indices is checked.
    pub fn get_disjoint_mut(&mut self, ha: &mut XHandle, hb: &mut XHandle) -> (r: AResult<
        (&mut T, &mut T),
    >)
        requires
            old(self).wf(),
        ensures
            final(self).wf(),
            *final(ha) == *old(ha),
            *final(hb) == *old(hb),
            final(self).brand_id() == old(self).brand_id(),
            final(self).cap() == old(self).cap(),
            final(self).extent() == old(self).extent(),
            final(self).free_seq() == old(self).free_seq(),
            match r {
                Ok(pair) => {
                    &&& old(ha).brand_id() == old(self).brand_id()
                    &&& old(hb).brand_id() == old(self).brand_id()
                    &&& old(ha).idx() != old(hb).idx()
                    &&& old(self).slots()[old(ha).idx()] == Some(*pair.0)
                    &&& old(self).slots()[old(hb).idx()] == Some(*pair.1)
                    &&& final(self).slots() == old(self).slots().update(
                        old(ha).idx(),
                        Some(*final(pair.0)),
                    ).update(old(hb).idx(), Some(*final(pair.1)))
                },
                Err(e) => {
                    &&& final(self).slots() == old(self).slots()
                    &&& (old(ha).brand_id() != old(self).brand_id() || old(hb).brand_id() != old(self).brand_id() || old(ha).idx() == old(hb).idx() || old(ha).idx() >= old(self).extent() || old(hb).idx() >= old(self).extent()
                        || old(self).slots()[old(ha).idx()] is None
                        || old(self).slots()[old(hb).idx()] is None)
                    &&& e == ArenaError::ManagerError(
                        (if old(ha).brand_id() != old(self).brand_id() || old(hb).brand_id()
                            != old(self).brand_id() {
                            ManagerError::BadHandle(crate::errors::HandleFault::WrongBrand)
                        } else {
                            ManagerError::StoreError(
                                pair_err_of(
                                    old(self).extent() as int,
                                    old(self).slots(),
                                    old(ha).sindex(),
                                    old(hb).sindex(),
                                ),
                            )
                        }),
                    )
                },
            },
    {
        match self.manager.get_disjoint_mut(ha, hb) {
            Ok(pair) => Ok(pair),
            Err(e) => Err(ArenaError::ManagerError(e)),
        }
    }
}

impl<T, S: ReusableStore<T>> XArena<T, S> {
    /// Removes the element a handle points at, consuming the handle; on
    /// failure the handle is handed back beside the error.
    pub fn remove(&mut self, handle: XHandle) -> (r: Result<T, (XHandle, ArenaError)>)
        requires
            old(self).wf(),
        ensures
            final(self).wf(),
            final(self).brand_id() == old(self).brand_id(),
            final(self).cap() == old(self).cap(),
            final(self).extent() == old(self).extent(),
            match r {
                Ok(v) => handle.brand_id() == old(self).brand_id() && 0 <= handle.idx() < old(self).slots().len() && old(self).slots()[handle.idx()] == Some(v) && final(self).slots() == old(self).slots().update(handle.idx(), None) && final(self).free_seq()
                    == seq![handle.idx()] + old(self).free_seq(),
                Err((h, e)) => {
                    &&& h == handle
                    &&& final(self).slots() == old(self).slots()
                    &&& final(self).free_seq() == old(self).free_seq()
                    &&& e == ArenaError::ManagerError(
                        remove_fault(
                            handle.brand_id() == old(self).brand_id(),
                            false,
                            old(self).extent() as int,
                            handle.sindex(),
                        ),
                    )
                },
            },
    {
        match self.manager.remove(handle) {
            Ok(v) => Ok(v),
            Err((h, e)) => Err((h, ArenaError::ManagerError(e))),
        }
    }
}

} // verus!

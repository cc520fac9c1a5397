//! The versioned (generation-stamping) safety strategy: every slot stores
//! the generation it was filled under, every handle carries the generation
//! it was minted under, and every access compares the two, so reuse of a
//! freed slot can be detected even though handles are freely copyable.

use core::marker::PhantomData;

use vstd::prelude::*;

use crate::errors::{HandleFault, ManagerError, MResult, StoreError};
use crate::index::{next_version, Index, Length, Version};
use crate::manager::access_fault;
use crate::store::{grow_target, pair_err_of, GetDisjointMut, ReusableStore, Store};

verus! {

broadcast use crate::index::lemma_index_bounds, crate::index::lemma_version_bounds, crate::index::lemma_index_injective, crate::index::lemma_version_injective;

/// The generation stored beside a slot's value, or zero for a slot that is
/// not live (generations themselves are never zero).
pub open spec fn stored_version_of<T>(slot: Option<(Version, T)>) -> int {
    match slot {
        Some(p) => p.0@,
        None => 0,
    }
}

/// The value stored in a slot, stripped of its generation.
pub open spec fn stored_value_of<T>(slot: Option<(Version, T)>) -> Option<T> {
    match slot {
        Some(p) => Some(p.1),
        None => None,
    }
}

/// A handle of the versioned strategy: a slot index, the generation the
/// slot was filled under, and the brand of the manager that minted it.
/// Freely copyable; safety comes from validation, not ownership.
#[derive(Clone, Copy, Debug, Hash, PartialEq, Eq, Structural)]
pub struct VersionHandle {
    index: Index,
    version: Version,
    brand: u64,
}

/// Shorthand for [`VersionHandle`].
pub type VHandle = VersionHandle;

impl VersionHandle {
    /// The slot this handle points at.
    pub closed spec fn sindex(&self) -> Index {
        self.index
    }

    /// The slot this handle points at, as a number.
    pub open spec fn idx(&self) -> int {
        self.sindex()@
    }

    /// The generation stamp this handle carries.
    pub closed spec fn sversion(&self) -> Version {
        self.version
    }

    /// The generation stamp this handle carries, as a number.
    pub open spec fn ver(&self) -> int {
        self.sversion()@
    }

    /// The identity token of the manager that minted this handle.
    pub closed spec fn brand_id(&self) -> int {
        self.brand as int
    }

    /// The raw slot index; exposed for bookkeeping, never for direct access.
    pub fn index(&self) -> (i: Index)
        ensures
            i == self.sindex(),
    {
        self.index
    }

    /// The generation stamp; exposed for bookkeeping.
    pub fn version(&self) -> (v: Version)
        ensures
            v == self.sversion(),
    {
        self.version
    }

    /// The raw identity token; used by the arena layer to compare a handle
    /// against a port.
    pub(crate) fn raw_brand(&self) -> (b: u64)
        ensures
            b as int == self.brand_id(),
    {
        self.brand
    }
}

/// A manager of the versioned strategy: a store of `(generation, value)`
/// pairs, a brand, the running generation counter, and the dirty flag that
/// is set on every removal and consumed (with a generation bump) by the
/// next insertion, so generations advance once per removal/reuse cycle.
pub struct VersionManager<T, S> {
    store: S,
    version: Version,
    dirty: bool,
    brand: u64,
    _marker: PhantomData<T>,
}

/// Shorthand for [`VersionManager`].
pub type VManager<T, S> = VersionManager<T, S>;

impl<T, S: Store<(Version, T)>> VersionManager<T, S> {
    /// The identity token this manager stamps into its handles.
    pub closed spec fn brand_id(&self) -> int {
        self.brand as int
    }

    /// The slot table of the backing store: generation-stamped values.
    pub closed spec fn slots(&self) -> Seq<Option<(Version, T)>> {
        self.store.slots()
    }

    /// The reserved capacity of the backing store.
    pub closed spec fn cap(&self) -> nat {
        self.store.cap()
    }

    /// The bump frontier of the backing store.
    pub closed spec fn extent(&self) -> nat {
        self.store.extent()
    }

    /// The reuse order of the backing store.
    pub closed spec fn free_seq(&self) -> Seq<int> {
        self.store.free_seq()
    }

    /// The running generation counter.
    pub closed spec fn ver(&self) -> int {
        self.version@
    }

    /// Whether a removal has happened since the last generation bump.
    pub closed spec fn dirty(&self) -> bool {
        self.dirty
    }

    /// The generation the next insertion will stamp: the current one, or
    /// its successor if the dirty flag is pending.
    pub open spec fn next_stamp(&self) -> int {
        if self.dirty() {
            next_version(self.ver())
        } else {
            self.ver()
        }
    }

    /// Internal well-formedness.
    pub closed spec fn wf(&self) -> bool {
        self.store.wf()
    }

    /// A slot accepts a generation stamp: it is live and stores exactly
    /// that generation.
    pub open spec fn accepts_at(&self, idx: int, ver: int) -> bool {
        &&& 0 <= idx < self.slots().len()
        &&& self.slots()[idx] is Some
        &&& stored_version_of(self.slots()[idx]) == ver
    }

    /// A handle is accepted by this manager: minted under its brand, and
    /// stamped with exactly the generation its slot currently stores.
    pub open spec fn accepts(&self, h: VHandle) -> bool {
        &&& h.brand_id() == self.brand_id()
        &&& self.accepts_at(h.idx(), h.ver())
    }

    /// A slot is live (regardless of any handle's stamp).
    pub open spec fn live_at(&self, i: int) -> bool {
        0 <= i < self.slots().len() && self.slots()[i] is Some
    }

    /// What the views guarantee of each other; see [`Store::view_props`].
    pub proof fn view_props(&self)
        requires
            self.wf(),
        ensures
            self.slots().len() == self.cap(),
            self.extent() <= self.cap(),
            self.cap() <= u32::MAX,
            forall|i: int|
                self.extent() <= i < self.cap() ==> self.slots()[i] is None,
    {
        self.store.view_props();
    }

    /// A fresh manager over an empty store, stamped with `brand` and
    /// starting at the first generation.  The caller supplies the brand and
    /// is responsible for its uniqueness.
    pub fn new(brand: u64) -> (r: Self)
        ensures
            r.wf(),
            r.brand_id() == brand,
            r.cap() == 0,
            r.extent() == 0,
            r.slots() == Seq::<Option<(Version, T)>>::empty(),
            r.free_seq() == Seq::<int>::empty(),
            r.ver() == 1,
            !r.dirty(),
    {
        VersionManager {
            store: S::new_store(),
            version: Version::one(),
            dirty: false,
            brand,
            _marker: PhantomData,
        }
    }

    /// The reserved capacity.
    pub fn capacity(&self) -> (r: Length)
        requires
            self.wf(),
        ensures
            r == self.cap(),
    {
        self.store.capacity()
    }

    /// The raw identity token; used by the arena layer to translate handles
    /// between port scopes and the manager scope.
    pub(crate) fn raw_brand(&self) -> (b: u64)
        ensures
            b as int == self.brand_id(),
    {
        self.brand
    }

    /// Grows the reserved capacity by at least `additional` rows (with the
    /// usual doubling, to amortize), failing only where the resulting
    /// capacity would not be representable.
    pub fn reserve(&mut self, additional: Length) -> (r: MResult<()>)
        requires
            old(self).wf(),
        ensures
            final(self).wf(),
            final(self).brand_id() == old(self).brand_id(),
            final(self).extent() == old(self).extent(),
            final(self).free_seq() == old(self).free_seq(),
            final(self).ver() == old(self).ver(),
            final(self).dirty() == old(self).dirty(),
            match r {
                Ok(()) => {
                    &&& old(self).cap() + additional <= u32::MAX
                    &&& additional == 0 ==> final(self).cap() == old(self).cap() && final(self).slots() == old(self).slots()
                    &&& additional > 0 ==> {
                        &&& final(self).cap() == grow_target(
                            old(self).cap() as int,
                            old(self).cap() + additional,
                        )
                        &&& final(self).slots() == old(self).slots() + Seq::new(
                            (final(self).cap() - old(self).cap()) as nat,
                            (|i: int| None::<(Version, T)>),
                        )
                    }
                },
                Err(e) => {
                    &&& old(self).cap() + additional > u32::MAX
                    &&& e == ManagerError::StoreError(
                        StoreError::OutofMemory((old(self).cap() as Length), u32::MAX),
                    )
                    &&& final(self).cap() == old(self).cap()
                    &&& final(self).slots() == old(self).slots()
                },
            },
    {
        let cap = self.store.capacity();
        match cap.checked_add(additional) {
            Some(new_capacity) => {
                let widened = self.store.widen(new_capacity);
                proof {
                    assert(widened is Ok);
                }
                Ok(())
            },
            None => Err(ManagerError::StoreError(StoreError::OutofMemory(cap, u32::MAX))),
        }
    }

    /// Logically empties the store without releasing the allocation and
    /// marks the manager dirty, so the next insertion bumps the generation
    /// and stale handles are rejected.  Content that was still live is not
    /// dropped through this path and may leak.
    pub fn clear(&mut self)
        requires
            old(self).wf(),
        ensures
            final(self).wf(),
            final(self).brand_id() == old(self).brand_id(),
            final(self).cap() == old(self).cap(),
            final(self).extent() == 0,
            final(self).free_seq() == Seq::<int>::empty(),
            final(self).slots() == Seq::new(old(self).cap(), (|i: int| None::<(Version, T)>)),
            final(self).ver() == old(self).ver(),
            final(self).dirty(),
    {
        self.dirty = true;
        self.store.clear();
    }

    /// A shared borrow of the value a handle points at, after validating
    /// the brand, the slot and the generation stamp.
    pub fn get(&self, handle: VHandle) -> (r: MResult<&T>)
        requires
            self.wf(),
        ensures
            match r {
                Ok(v) => self.accepts(handle) && stored_value_of(self.slots()[handle.idx()])
                    == Some(*v),
                Err(e) => {
                    &&& !self.accepts(handle)
                    &&& e == access_fault(
                        handle.brand_id() == self.brand_id(),
                        self.live_at(handle.idx()),
                        self.extent() as int,
                        handle.sindex(),
                    )
                },
            },
    {        proof {
            self.store.view_props();
        }

        if handle.brand != self.brand {
            return Err(ManagerError::BadHandle(HandleFault::WrongBrand));
        }
        match self.store.get(handle.index) {
            Ok(pair) => {
                if pair.0 == handle.version {
                    Ok(&pair.1)
                } else {
                    Err(ManagerError::BadHandle(HandleFault::VersionMismatch))
                }
            },
            Err(e) => Err(ManagerError::StoreError(e)),
        }
    }

    /// A mutable borrow of the value a handle points at, after validating
    /// the brand, the slot and the generation stamp.  The stored generation
    /// is untouched: in-place mutation does not invalidate other copies of
    /// the handle.
    pub fn get_mut(&mut self, handle: VHandle) -> (r: MResult<&mut T>)
        requires
            old(self).wf(),
        ensures
            final(self).wf(),
            final(self).brand_id() == old(self).brand_id(),
            final(self).cap() == old(self).cap(),
            final(self).extent() == old(self).extent(),
            final(self).free_seq() == old(self).free_seq(),
            final(self).ver() == old(self).ver(),
            final(self).dirty() == old(self).dirty(),
            match r {
                Ok(v) => old(self).accepts(handle) && stored_value_of(
                    old(self).slots()[handle.idx()],
                ) == Some(*v) && final(self).slots() == old(self).slots().update(
                    handle.idx(),
                    Some((handle.sversion(), *final(v))),
                ),
                Err(e) => {
                    &&& final(self).slots() == old(self).slots()
                    &&& !old(self).accepts(handle)
                    &&& e == access_fault(
                        handle.brand_id() == old(self).brand_id(),
                        old(self).live_at(handle.idx()),
                        old(self).extent() as int,
                        handle.sindex(),
                    )
                },
            },
    {        proof {
            self.store.view_props();
        }

        if handle.brand != self.brand {
            return Err(ManagerError::BadHandle(HandleFault::WrongBrand));
        }
        match self.store.get_mut(handle.index) {
            Ok(pair) => {
                let stored: Version = pair.0;
                if stored == handle.version {
                    let v = pair_second_mut(pair);
                    Ok(v)
                } else {
                    proof {
                        assert(old(self).slots().update(
                            handle.idx(),
                            old(self).slots()[handle.idx()],
                        ) =~= old(self).slots());
                    }
                    Err(ManagerError::BadHandle(HandleFault::VersionMismatch))
                }
            },
            Err(e) => Err(ManagerError::StoreError(e)),
        }
    }

    /// Inserts `data` without growing: consumes a pending dirty flag by
    /// bumping the generation, stamps the slot with the current generation,
    /// and mints a matching handle; hands `data` back where no capacity is
    /// left (the bump still happens, as the flag has been consumed).
    pub fn insert_within_capacity(&mut self, data: T) -> (r: Result<VHandle, T>)
        requires
            old(self).wf(),
        ensures
            final(self).wf(),
            final(self).brand_id() == old(self).brand_id(),
            final(self).cap() == old(self).cap(),
            final(self).ver() == old(self).next_stamp(),
            !final(self).dirty(),
            match r {
                Ok(h) => {
                    &&& h.brand_id() == old(self).brand_id()
                    &&& h.ver() == old(self).next_stamp()
                    &&& 0 <= h.idx() < final(self).extent()
                    &&& !(old(self).free_seq().len() == 0 && old(self).extent() == old(self).cap())
                    &&& old(self).slots()[h.idx()] is None
                    &&& h.idx() == (if old(self).free_seq().len() > 0 {
                        old(self).free_seq()[0]
                    } else {
                        old(self).extent() as int
                    })
                    &&& final(self).slots() == old(self).slots().update(
                        h.idx(),
                        Some((h.sversion(), data)),
                    )
                    &&& final(self).extent() == (if h.idx() == old(self).extent() {
                        old(self).extent() + 1
                    } else {
                        old(self).extent()
                    })
                    &&& final(self).free_seq() == (if old(self).free_seq().len() > 0 {
                        old(self).free_seq().drop_first()
                    } else {
                        old(self).free_seq()
                    })
                },
                Err(d) => d == data && final(self).slots() == old(self).slots() && final(self).extent() == old(self).extent() && final(self).free_seq() == old(self).free_seq()
                    && old(self).free_seq().len() == 0 && old(self).extent() == old(self).cap(),
            },
    {
        if self.dirty {
            self.dirty = false;
            self.version = self.version.next();
        }
        let stamp = self.version;
        match self.store.insert_within_capacity((stamp, data)) {
            Ok(index) => Ok(VersionHandle { index, version: stamp, brand: self.brand }),
            Err(pair) => Err(pair.1),
        }
    }

    /// Invalidates a handle in place: bumps the slot's stored generation
    /// and returns a new handle carrying the new generation, so the old
    /// handle can never silently reach the slot again.  This is how a value
    /// logically moves between identity scopes.
    pub fn bump_version(&mut self, handle: VHandle) -> (r: MResult<VHandle>)
        requires
            old(self).wf(),
        ensures
            final(self).wf(),
            final(self).brand_id() == old(self).brand_id(),
            final(self).cap() == old(self).cap(),
            final(self).extent() == old(self).extent(),
            final(self).free_seq() == old(self).free_seq(),
            final(self).ver() == old(self).ver(),
            final(self).dirty() == old(self).dirty(),
            match r {
                Ok(h) => {
                    &&& old(self).accepts(handle)
                    &&& h.idx() == handle.idx()
                    &&& h.brand_id() == old(self).brand_id()
                    &&& h.ver() == next_version(handle.ver())
                    &&& h.ver() != handle.ver()
                    &&& final(self).slots() == old(self).slots().update(
                        handle.idx(),
                        Some((h.sversion(), stored_value_of(old(self).slots()[handle.idx()]).unwrap())),
                    )
                },
                Err(e) => {
                    &&& final(self).slots() == old(self).slots()
                    &&& !old(self).accepts(handle)
                    &&& e == access_fault(
                        handle.brand_id() == old(self).brand_id(),
                        old(self).live_at(handle.idx()),
                        old(self).extent() as int,
                        handle.sindex(),
                    )
                },
            },
    {        proof {
            self.store.view_props();
        }

        if handle.brand != self.brand {
            return Err(ManagerError::BadHandle(HandleFault::WrongBrand));
        }
        match self.store.get_mut(handle.index) {
            Ok(pair) => {
                let stored: Version = pair.0;
                if stored == handle.version {
                    let bumped = handle.version.next();
                    proof {
                        assert(next_version(handle.ver()) != handle.ver());
                    }
                    pair_set_first(pair, bumped);
                    Ok(VersionHandle { index: handle.index, version: bumped, brand: self.brand })
                } else {
                    proof {
                        assert(old(self).slots().update(
                            handle.idx(),
                            old(self).slots()[handle.idx()],
                        ) =~= old(self).slots());
                    }
                    Err(ManagerError::BadHandle(HandleFault::VersionMismatch))
                }
            },
            Err(e) => Err(ManagerError::StoreError(e)),
        }
    }
}

impl<T, S: ReusableStore<(Version, T)>> VersionManager<T, S> {
    /// Removes the value a handle points at, after validating the brand,
    /// the slot and the generation stamp, and marks the manager dirty so
    /// the next insertion bumps the generation.
    pub fn remove(&mut self, handle: VHandle) -> (r: MResult<T>)
        requires
            old(self).wf(),
        ensures
            final(self).wf(),
            final(self).brand_id() == old(self).brand_id(),
            final(self).cap() == old(self).cap(),
            final(self).extent() == old(self).extent(),
            final(self).ver() == old(self).ver(),
            match r {
                Ok(v) => {
                    &&& old(self).accepts(handle)
                    &&& stored_value_of(old(self).slots()[handle.idx()]) == Some(v)
                    &&& final(self).slots() == old(self).slots().update(handle.idx(), None)
                    &&& final(self).free_seq() == seq![handle.idx()] + old(self).free_seq()
                    &&& final(self).dirty()
                },
                Err(e) => {
                    &&& final(self).slots() == old(self).slots()
                    &&& final(self).free_seq() == old(self).free_seq()
                    &&& final(self).dirty() == old(self).dirty()
                    &&& !old(self).accepts(handle)
                    &&& e == access_fault(
                        handle.brand_id() == old(self).brand_id(),
                        old(self).live_at(handle.idx()),
                        old(self).extent() as int,
                        handle.sindex(),
                    )
                },
            },
    {        proof {
            self.store.view_props();
        }

        if handle.brand != self.brand {
            return Err(ManagerError::BadHandle(HandleFault::WrongBrand));
        }
        let matches_stored = match self.store.get(handle.index) {
            Ok(pair) => pair.0 == handle.version,
            Err(e) => {
                return Err(ManagerError::StoreError(e));
            },
        };
        if !matches_stored {
            return Err(ManagerError::BadHandle(HandleFault::VersionMismatch));
        }
        match self.store.remove(handle.index) {
            Ok(pair) => {
                self.dirty = true;
                Ok(pair.1)
            },
            Err(_) => vstd::pervasive::unreached(),
        }
    }
}

/// Mints a handle from its parts; only the managers of this crate may
/// forge handles.
pub(crate) fn mint(index: Index, version: Version, brand: u64) -> (h: VHandle)
    ensures
        h.sindex() == index,
        h.idx() == index@,
        h.sversion() == version,
        h.ver() == version@,
        h.brand_id() == brand,
{
    VersionHandle { index, version, brand }
}

/// Re-stamps a handle with another identity token, keeping its slot and
/// generation; this is how the arena layer translates a handle between a
/// port's scope and the backing manager's scope.
pub(crate) fn restamp(h: VHandle, brand: u64) -> (r: VHandle)
    ensures
        r.idx() == h.idx(),
        r.sindex() == h.sindex(),
        r.sversion() == h.sversion(),
        r.ver() == h.ver(),
        r.brand_id() == brand,
{
    VersionHandle { index: h.index, version: h.version, brand }
}

/// A mutable borrow of the second component of a pair behind a mutable
/// reference; the first component stays as it was.
fn pair_second_mut<A, B>(pair: &mut (A, B)) -> (r: &mut B)
    ensures
        *r == old(pair).1,
        *final(pair) == (old(pair).0, *final(r)),
{
    &mut pair.1
}

/// Overwrites the first component of a pair behind a mutable reference;
/// the second component stays as it was.
fn pair_set_first<A, B>(pair: &mut (A, B), value: A)
    ensures
        *final(pair) == (value, old(pair).1),
{
    pair.0 = value;
}

impl<T, S: GetDisjointMut<(Version, T)>> VersionManager<T, S> {
    /// Mutable borrows of the values of two distinct handles at once, after
    /// validating both brands, both slots, their disjointness and both
    /// generation stamps.
    pub fn get_disjoint_mut(&mut self, ha: VHandle, hb: VHandle) -> (r: MResult<(&mut T, &mut T)>)
        requires
            old(self).wf(),
        ensures
            final(self).wf(),
            final(self).brand_id() == old(self).brand_id(),
            final(self).cap() == old(self).cap(),
            final(self).extent() == old(self).extent(),
            final(self).free_seq() == old(self).free_seq(),
            final(self).ver() == old(self).ver(),
            final(self).dirty() == old(self).dirty(),
            match r {
                Ok(pair) => {
                    &&& old(self).accepts(ha)
                    &&& old(self).accepts(hb)
                    &&& ha.idx() != hb.idx()
                    &&& stored_value_of(old(self).slots()[ha.idx()]) == Some(*pair.0)
                    &&& stored_value_of(old(self).slots()[hb.idx()]) == Some(*pair.1)
                    &&& final(self).slots() == old(self).slots().update(
                        ha.idx(),
                        Some((ha.sversion(), *final(pair.0))),
                    ).update(hb.idx(), Some((hb.sversion(), *final(pair.1))))
                },
                Err(e) => {
                    &&& final(self).slots() == old(self).slots()
                    &&& !(old(self).accepts(ha) && old(self).accepts(hb) && ha.idx() != hb.idx())
                    &&& e == (if ha.brand_id() != old(self).brand_id() || hb.brand_id() != old(self).brand_id() {
                        ManagerError::BadHandle(HandleFault::WrongBrand)
                    } else if ha.idx() == hb.idx() || !old(self).live_at(ha.idx()) || !old(self).live_at(hb.idx()) {
                        ManagerError::StoreError(
                            pair_err_of(
                                old(self).extent() as int,
                                old(self).slots(),
                                ha.sindex(),
                                hb.sindex(),
                            ),
                        )
                    } else {
                        ManagerError::BadHandle(HandleFault::VersionMismatch)
                    })
                },
            },
    {        proof {
            self.store.view_props();
        }

        if ha.brand != self.brand || hb.brand != self.brand {
            return Err(ManagerError::BadHandle(HandleFault::WrongBrand));
        }
        match self.store.get_pair_mut(ha.index, hb.index) {
            Ok((pa, pb)) => {
                let va: Version = pa.0;
                let vb: Version = pb.0;
                if va == ha.version && vb == hb.version {
                    let a = pair_second_mut(pa);
                    let b = pair_second_mut(pb);
                    Ok((a, b))
                } else {
                    proof {
                        assert(old(self).slots().update(ha.idx(), old(self).slots()[ha.idx()]).update(
                            hb.idx(),
                            old(self).slots()[hb.idx()],
                        ) =~= old(self).slots());
                    }
                    Err(ManagerError::BadHandle(HandleFault::VersionMismatch))
                }
            },
            Err(e) => Err(ManagerError::StoreError(e)),
        }
    }
}

} // verus!

//! The versioned arena: a manager shared by any number of ports.  Each port
//! is an independently usable facade with its own brand and an optional
//! header; a handle minted through one port is rejected by every other.
//! Joining two ports merges their headers, retires the joined-away port,
//! and yields a handle map; moving a handle along that map goes through a
//! generation bump, so the old identity can never silently reach the slot
//! again.
//!
//! Under concurrent use, reads take the methods on `&self`, in-place writes
//! and allocation the methods on `&mut self`; the reader-writer locking
//! that hands those modes to threads lives outside the arena, around this
//! facade.

use vstd::prelude::*;
use vstd::pervasive::unreached;

use crate::arena::Header;
use crate::errors::{AResult, ArenaError, HandleFault, ManagerError, StoreError};
use crate::index::{next_version, Index, Length, Version};
use crate::manager::{
    access_fault, restamp, stored_value_of, VHandle, VersionManager,
};
use crate::store::{grow_target, pair_err_of, vec_pair_mut, GetDisjointMut, ReusableStore, Store};

verus! {

broadcast use crate::index::lemma_index_bounds, crate::index::lemma_version_bounds, crate::index::lemma_index_injective, crate::index::lemma_version_injective;

/// Names one port of a versioned arena; minted by `new` and `split`.
pub type PortId = usize;

/// One port: an identity token, a header, and whether the port is still
/// usable (a joined-away port is retired).
struct Port<H> {
    brand: u64,
    header: H,
    live: bool,
}

/// The witness a join hands back: it maps handles of the joined-away
/// port's brand onto the surviving port's brand, always through a
/// generation bump.
#[derive(Clone, Copy, Debug)]
pub struct HandleMap {
    from: u64,
    to: u64,
}

impl HandleMap {
    /// The brand whose handles this map consumes.
    pub closed spec fn from_brand(&self) -> int {
        self.from as int
    }

    /// The brand this map re-stamps handles with.
    pub closed spec fn to_brand(&self) -> int {
        self.to as int
    }

    /// Composes two maps: what moved from `a` to `b` and then from `b` to
    /// `c` moved from `a` to `c`.
    pub fn chain(self, other: HandleMap) -> (r: HandleMap)
        requires
            self.to_brand() == other.from_brand(),
        ensures
            r.from_brand() == self.from_brand(),
            r.to_brand() == other.to_brand(),
    {
        HandleMap { from: self.from, to: other.to }
    }
}

/// Shorthand for [`VersionArena`].
pub type VArena<T, S, H> = VersionArena<T, S, H>;

/// The versioned arena: one generation-stamping manager and its ports.
pub struct VersionArena<T, S, H> {
    manager: VersionManager<T, S>,
    ports: Vec<Port<H>>,
}

impl<T, S: Store<(Version, T)>, H: Header> VersionArena<T, S, H> {
    /// The slot table of the backing store: generation-stamped values.
    pub closed spec fn slots(&self) -> Seq<Option<(Version, T)>> {
        self.manager.slots()
    }

    /// The reserved capacity.
    pub closed spec fn cap(&self) -> nat {
        self.manager.cap()
    }

    /// The bump frontier.
    pub closed spec fn extent(&self) -> nat {
        self.manager.extent()
    }

    /// The reuse order.
    pub closed spec fn free_seq(&self) -> Seq<int> {
        self.manager.free_seq()
    }

    /// The running generation counter.
    pub closed spec fn ver(&self) -> int {
        self.manager.ver()
    }

    /// Whether a removal is pending a generation bump.
    pub closed spec fn dirty(&self) -> bool {
        self.manager.dirty()
    }

    /// The generation the next insertion will stamp.
    pub open spec fn next_stamp(&self) -> int {
        if self.dirty() {
            next_version(self.ver())
        } else {
            self.ver()
        }
    }

    /// A slot accepts a generation stamp: it is live and stores exactly
    /// that generation.
    pub open spec fn accepts_at(&self, idx: int, ver: int) -> bool {
        &&& 0 <= idx < self.slots().len()
        &&& self.slots()[idx] is Some
        &&& crate::manager::stored_version_of(self.slots()[idx]) == ver
    }

    /// A slot is live, whatever stamps are in circulation.
    pub open spec fn live_at(&self, i: int) -> bool {
        0 <= i < self.slots().len() && self.slots()[i] is Some
    }

    /// The backing stores' state is untouched between `a` and `b`; ports
    /// may differ.
    pub open spec fn same_store(a: &Self, b: &Self) -> bool {
        &&& a.slots() == b.slots()
        &&& a.cap() == b.cap()
        &&& a.extent() == b.extent()
        &&& a.free_seq() == b.free_seq()
        &&& a.ver() == b.ver()
        &&& a.dirty() == b.dirty()
    }

    /// The ports are untouched between `a` and `b`; the store may differ.
    pub open spec fn same_ports(a: &Self, b: &Self) -> bool {
        &&& a.port_count() == b.port_count()
        &&& forall|q: int|
            0 <= q < a.port_count() ==> #[trigger] a.port_brand(q) == b.port_brand(q)
                && a.port_live(q) == b.port_live(q) && a.port_header(q) == b.port_header(q)
    }

    /// How many ports this arena has minted (live or retired).
    pub closed spec fn port_count(&self) -> nat {
        self.ports@.len()
    }

    /// The identity token of port `p`.
    pub closed spec fn port_brand(&self, p: int) -> int {
        self.ports@[p].brand as int
    }

    /// Whether port `p` is still usable.
    pub closed spec fn port_live(&self, p: int) -> bool {
        self.ports@[p].live
    }

    /// The header carried by port `p`.
    pub closed spec fn port_header(&self, p: int) -> H {
        self.ports@[p].header
    }

    /// Port `p` vouches for handle `h`: the port is usable and the handle
    /// carries its brand.
    pub open spec fn port_accepts(&self, p: int, h: VHandle) -> bool {
        self.port_live(p) && h.brand_id() == self.port_brand(p)
    }

    /// Port `p` vouches for `h` and `h`'s stamp matches its slot.
    pub open spec fn accepted(&self, p: int, h: VHandle) -> bool {
        self.port_accepts(p, h) && self.accepts_at(h.idx(), h.ver())
    }

    /// Internal well-formedness.
    pub closed spec fn wf(&self) -> bool {
        self.manager.wf()
    }

    /// No free slot is left and no untouched row remains.
    pub open spec fn is_full(&self) -> bool {
        self.free_seq().len() == 0 && self.extent() == self.cap()
    }

    /// A fresh arena with no reserved capacity and one port (port zero)
    /// carrying `header`.  The caller supplies the brand and is responsible
    /// for its uniqueness across arenas and ports.
    pub fn new(brand: u64, header: H) -> (r: Self)
        ensures
            r.wf(),
            r.cap() == 0,
            r.extent() == 0,
            r.slots() == Seq::<Option<(Version, T)>>::empty(),
            r.free_seq() == Seq::<int>::empty(),
            r.ver() == 1,
            !r.dirty(),
            r.port_count() == 1,
            r.port_brand(0) == brand,
            r.port_live(0),
            r.port_header(0) == header,
    {
        let mut ports: Vec<Port<H>> = Vec::new();
        ports.push(Port { brand, header, live: true });
        VersionArena { manager: VersionManager::new(brand), ports }
    }

    /// Splits off an independent port over the same backing manager, with a
    /// fresh identity token and a fresh header: handles of other ports are
    /// not accepted by it, nor its handles by them.
    pub fn split(&mut self, brand: u64) -> (p: PortId)
        requires
            old(self).wf(),
        ensures
            final(self).wf(),
            Self::same_store(final(self), old(self)),
            p == old(self).port_count(),
            final(self).port_count() == old(self).port_count() + 1,
            final(self).port_brand(p as int) == brand,
            final(self).port_live(p as int),
            final(self).port_header(p as int) == H::fresh_spec(),
            forall|q: int|
                0 <= q < old(self).port_count() ==> #[trigger] final(self).port_brand(q) == old(self).port_brand(q) && final(self).port_live(q) == old(self).port_live(q) && final(self).port_header(q) == old(self).port_header(q),
    {
        let p = self.ports.len();
        self.ports.push(Port { brand, header: H::fresh(), live: true });
        p
    }

    /// How many ports exist.
    pub fn ports_len(&self) -> (n: usize)
        ensures
            n == self.port_count(),
    {
        self.ports.len()
    }

    /// Whether a port is still usable (a joined-away port is not).
    pub fn is_port_live(&self, p: PortId) -> (r: bool)
        requires
            p < self.port_count(),
        ensures
            r == self.port_live(p as int),
    {
        self.ports[p].live
    }

    /// A shared borrow of port `p`'s header (read mode).
    pub fn header(&self, p: PortId) -> (r: &H)
        requires
            p < self.port_count(),
        ensures
            *r == self.port_header(p as int),
    {
        &self.ports[p].header
    }

    /// A mutable borrow of port `p`'s header (write mode).
    pub fn header_mut(&mut self, p: PortId) -> (r: &mut H)
        requires
            old(self).wf(),
            p < old(self).port_count(),
        ensures
            final(self).wf(),
            Self::same_store(final(self), old(self)),
            *r == old(self).port_header(p as int),
            final(self).port_count() == old(self).port_count(),
            final(self).port_header(p as int) == *final(r),
            forall|q: int|
                0 <= q < old(self).port_count() ==> #[trigger] final(self).port_brand(q) == old(self).port_brand(q) && final(self).port_live(q) == old(self).port_live(q),
            forall|q: int|
                0 <= q < old(self).port_count() && q != p ==> #[trigger] final(self).port_header(q)
                    == old(self).port_header(q),
    {
        let port = vstd::std_specs::vec::vec_index_mut(&mut self.ports, p);
        port_header_mut(port)
    }

    /// The reserved capacity.
    pub fn capacity(&self) -> (r: Length)
        requires
            self.wf(),
        ensures
            r == self.cap(),
    {
        self.manager.capacity()
    }

    /// A shared borrow of the value a handle points at, through port `p`
    /// (read mode).
    pub fn get(&self, p: PortId, handle: VHandle) -> (r: AResult<&T>)
        requires
            self.wf(),
            p < self.port_count(),
        ensures
            match r {
                Ok(v) => self.accepted(p as int, handle) && stored_value_of(
                    self.slots()[handle.idx()],
                ) == Some(*v),
                Err(e) => {
                    &&& !self.accepted(p as int, handle)
                    &&& e == ArenaError::ManagerError(
                        access_fault(
                            self.port_accepts(p as int, handle),
                            self.live_at(handle.idx()),
                            self.extent() as int,
                            handle.sindex(),
                        ),
                    )
                },
            },
    {
        let port_live = self.ports[p].live;
        let port_brand = self.ports[p].brand;
        if !port_live || handle.raw_brand() != port_brand {
            return Err(ArenaError::ManagerError(ManagerError::BadHandle(HandleFault::WrongBrand)));
        }
        let mh = restamp(handle, self.manager.raw_brand());
        match self.manager.get(mh) {
            Ok(v) => Ok(v),
            Err(e) => Err(ArenaError::ManagerError(e)),
        }
    }

    /// A mutable borrow of the value a handle points at, through port `p`
    /// (write mode: existing slots may be mutated, capacity never changes).
    pub fn get_mut(&mut self, p: PortId, handle: VHandle) -> (r: AResult<&mut T>)
        requires
            old(self).wf(),
            p < old(self).port_count(),
        ensures
            final(self).wf(),
            Self::same_ports(final(self), old(self)),
            final(self).cap() == old(self).cap(),
            final(self).extent() == old(self).extent(),
            final(self).free_seq() == old(self).free_seq(),
            final(self).ver() == old(self).ver(),
            final(self).dirty() == old(self).dirty(),
            match r {
                Ok(v) => old(self).accepted(p as int, handle) && stored_value_of(
                    old(self).slots()[handle.idx()],
                ) == Some(*v) && final(self).slots() == old(self).slots().update(
                    handle.idx(),
                    Some((handle.sversion(), *final(v))),
                ),
                Err(e) => {
                    &&& final(self).slots() == old(self).slots()
                    &&& !old(self).accepted(p as int, handle)
                    &&& e == ArenaError::ManagerError(
                        access_fault(
                            old(self).port_accepts(p as int, handle),
                            old(self).live_at(handle.idx()),
                            old(self).extent() as int,
                            handle.sindex(),
                        ),
                    )
                },
            },
    {
        let port_live = self.ports[p].live;
        let port_brand = self.ports[p].brand;
        if !port_live || handle.raw_brand() != port_brand {
            return Err(ArenaError::ManagerError(ManagerError::BadHandle(HandleFault::WrongBrand)));
        }
        let mh = restamp(handle, self.manager.raw_brand());
        match self.manager.get_mut(mh) {
            Ok(v) => Ok(v),
            Err(e) => Err(ArenaError::ManagerError(e)),
        }
    }

    /// Inserts `data` through port `p` without growing (alloc mode); hands
    /// `data` back where no capacity is left.  The handle is stamped with
    /// the current generation and carries port `p`'s brand.
    pub fn insert_within_capacity(&mut self, p: PortId, data: T) -> (r: Result<VHandle, T>)
        requires
            old(self).wf(),
            p < old(self).port_count(),
            old(self).port_live(p as int),
        ensures
            final(self).wf(),
            Self::same_ports(final(self), old(self)),
            final(self).cap() == old(self).cap(),
            final(self).ver() == old(self).next_stamp(),
            !final(self).dirty(),
            match r {
                Ok(h) => {
                    &&& h.brand_id() == old(self).port_brand(p as int)
                    &&& h.ver() == old(self).next_stamp()
                    &&& 0 <= h.idx() < final(self).extent()
                    &&& old(self).slots()[h.idx()] is None
                    &&& h.idx() == (if old(self).free_seq().len() > 0 {
                        old(self).free_seq()[0]
                    } else {
                        old(self).extent() as int
                    })
                    &&& final(self).slots() == old(self).slots().update(
                        h.idx(),
                        Some((h.sversion(), data)),
                    )
                    &&& final(self).extent() == (if h.idx() == old(self).extent() {
                        old(self).extent() + 1
                    } else {
                        old(self).extent()
                    })
                    &&& final(self).free_seq() == (if old(self).free_seq().len() > 0 {
                        old(self).free_seq().drop_first()
                    } else {
                        old(self).free_seq()
                    })
                },
                Err(d) => d == data && final(self).slots() == old(self).slots() && final(self).extent() == old(self).extent() && final(self).free_seq() == old(self).free_seq()
                    && old(self).is_full(),
            },
    {
        let port_brand = self.ports[p].brand;
        match self.manager.insert_within_capacity(data) {
            Ok(mh) => Ok(restamp(mh, port_brand)),
            Err(d) => Err(d),
        }
    }

    /// Inserts `data` through port `p`, growing by exactly the minimal
    /// additional capacity if the arena is full and retrying once (alloc
    /// mode); a growth failure hands `data` back beside the error.
    pub fn insert(&mut self, p: PortId, data: T) -> (r: Result<VHandle, (T, ArenaError)>)
        requires
            old(self).wf(),
            p < old(self).port_count(),
            old(self).port_live(p as int),
        ensures
            final(self).wf(),
            Self::same_ports(final(self), old(self)),
            match r {
                Ok(h) => {
                    &&& h.brand_id() == old(self).port_brand(p as int)
                    &&& h.ver() == old(self).next_stamp()
                    &&& final(self).ver() == old(self).next_stamp()
                    &&& !final(self).dirty()
                    &&& h.idx() == (if old(self).free_seq().len() > 0 {
                        old(self).free_seq()[0]
                    } else {
                        old(self).extent() as int
                    })
                    &&& final(self).slots() == (if old(self).is_full() {
                        old(self).slots() + Seq::new(
                            (final(self).cap() - old(self).cap()) as nat,
                            (|i: int| None::<(Version, T)>),
                        )
                    } else {
                        old(self).slots()
                    }).update(h.idx(), Some((h.sversion(), data)))
                    &&& !old(self).is_full() ==> final(self).cap() == old(self).cap()
                    &&& old(self).is_full() ==> final(self).cap() == grow_target(
                        old(self).cap() as int,
                        old(self).cap() as int + 1,
                    )
                },
                Err((d, e)) => {
                    &&& d == data
                    &&& old(self).is_full()
                    &&& old(self).cap() == u32::MAX
                    &&& final(self).slots() == old(self).slots()
                    &&& e == ArenaError::ManagerError(
                        ManagerError::StoreError(StoreError::OutofMemory(u32::MAX, u32::MAX)),
                    )
                },
            },
    {
        let port_brand = self.ports[p].brand;
        match self.manager.insert_within_capacity(data) {
            Ok(mh) => Ok(restamp(mh, port_brand)),
            Err(data) => {
                match self.manager.reserve(1) {
                    Err(e) => {
                        proof {
                            self.manager.view_props();
                        }
                        Err((data, ArenaError::ManagerError(e)))
                    },
                    Ok(()) => {
                        match self.manager.insert_within_capacity(data) {
                            Ok(mh) => {
                                let h = restamp(mh, port_brand);
                                proof {
                                    assert(final(self).slots() =~= (old(self).slots() + Seq::new(
                                        (final(self).cap() - old(self).cap()) as nat,
                                        (|i: int| None::<(Version, T)>),
                                    )).update(h.idx(), Some((h.sversion(), data))));
                                }
                                Ok(h)
                            },
                            Err(_) => unreached(),
                        }
                    },
                }
            },
        }
    }

    /// Grows the reserved capacity by at least `additional` rows (alloc
    /// mode).
    pub fn reserve(&mut self, additional: Length) -> (r: AResult<()>)
        requires
            old(self).wf(),
        ensures
            final(self).wf(),
            Self::same_ports(final(self), old(self)),
            final(self).extent() == old(self).extent(),
            final(self).free_seq() == old(self).free_seq(),
            final(self).ver() == old(self).ver(),
            final(self).dirty() == old(self).dirty(),
            match r {
                Ok(()) => old(self).cap() + additional <= u32::MAX && final(self).cap()
                    >= old(self).cap() + additional,
                Err(e) => {
                    &&& old(self).cap() + additional > u32::MAX
                    &&& e == ArenaError::ManagerError(
                        ManagerError::StoreError(
                            StoreError::OutofMemory((old(self).cap() as Length), u32::MAX),
                        ),
                    )
                    &&& final(self).cap() == old(self).cap()
                    &&& final(self).slots() == old(self).slots()
                },
            },
    {
        match self.manager.reserve(additional) {
            Ok(()) => Ok(()),
            Err(e) => Err(ArenaError::ManagerError(e)),
        }
    }

    /// Logically empties the backing store without releasing the
    /// allocation (alloc mode); every live slot is freed at once, and the
    /// next insertion bumps the generation.  Content that was still live
    /// may leak.
    pub fn clear(&mut self)
        requires
            old(self).wf(),
        ensures
            final(self).wf(),
            Self::same_ports(final(self), old(self)),
            final(self).cap() == old(self).cap(),
            final(self).extent() == 0,
            final(self).free_seq() == Seq::<int>::empty(),
            final(self).slots() == Seq::new(old(self).cap(), (|i: int| None::<(Version, T)>)),
            final(self).ver() == old(self).ver(),
            final(self).dirty(),
    {
        self.manager.clear();
    }

    /// Merges port `from` into port `to`: the headers are merged by the
    /// header's own policy, port `from` is retired, and the returned map is
    /// the only sanctioned way to carry a handle of `from` over to `to`
    /// (see [`Self::move_to`]).
    pub fn join(&mut self, to: PortId, from: PortId) -> (m: HandleMap)
        requires
            old(self).wf(),
            to < old(self).port_count(),
            from < old(self).port_count(),
            to != from,
            old(self).port_live(to as int),
            old(self).port_live(from as int),
        ensures
            final(self).wf(),
            Self::same_store(final(self), old(self)),
            final(self).port_count() == old(self).port_count(),
            m.from_brand() == old(self).port_brand(from as int),
            m.to_brand() == old(self).port_brand(to as int),
            final(self).port_header(to as int) == old(self).port_header(to as int).merged(
                &old(self).port_header(from as int),
            ),
            final(self).port_live(to as int),
            !final(self).port_live(from as int),
            forall|q: int|
                0 <= q < old(self).port_count() ==> #[trigger] final(self).port_brand(q) == old(self).port_brand(q),
            forall|q: int|
                0 <= q < old(self).port_count() && q != from ==> #[trigger] final(self).port_live(
                    q,
                ) == old(self).port_live(q),
            forall|q: int|
                0 <= q < old(self).port_count() && q != from && q != to
                    ==> #[trigger] final(self).port_header(q) == old(self).port_header(q),
    {
        let (pa, pb) = vec_pair_mut(&mut self.ports, to, from);
        let to_brand = pa.brand;
        let from_brand = pb.brand;
        let ha = port_header_mut(pa);
        let hb = port_header_mut(pb);
        H::merge(ha, hb);
        let dead = vstd::std_specs::vec::vec_index_mut(&mut self.ports, from);
        port_kill(dead);
        HandleMap { from: from_brand, to: to_brand }
    }

    /// Carries a handle from a joined-away port over to the surviving
    /// port, bumping the slot's generation so the old handle can never
    /// silently reach the slot again (write mode).
    pub fn move_to(&mut self, m: HandleMap, handle: VHandle) -> (r: AResult<VHandle>)
        requires
            old(self).wf(),
        ensures
            final(self).wf(),
            Self::same_ports(final(self), old(self)),
            final(self).cap() == old(self).cap(),
            final(self).extent() == old(self).extent(),
            final(self).free_seq() == old(self).free_seq(),
            final(self).ver() == old(self).ver(),
            final(self).dirty() == old(self).dirty(),
            match r {
                Ok(h) => {
                    &&& handle.brand_id() == m.from_brand()
                    &&& old(self).accepts_at(handle.idx(), handle.ver())
                    &&& h.idx() == handle.idx()
                    &&& h.brand_id() == m.to_brand()
                    &&& h.ver() == next_version(handle.ver())
                    &&& h.ver() != handle.ver()
                    &&& final(self).slots() == old(self).slots().update(
                        handle.idx(),
                        Some((h.sversion(), stored_value_of(old(self).slots()[handle.idx()]).unwrap())),
                    )
                    &&& !final(self).accepts_at(handle.idx(), handle.ver())
                },
                Err(e) => {
                    &&& final(self).slots() == old(self).slots()
                    &&& !(handle.brand_id() == m.from_brand() && old(self).accepts_at(
                        handle.idx(),
                        handle.ver(),
                    ))
                    &&& e == ArenaError::ManagerError(
                        access_fault(
                            handle.brand_id() == m.from_brand(),
                            old(self).live_at(handle.idx()),
                            old(self).extent() as int,
                            handle.sindex(),
                        ),
                    )
                },
            },
    {
        if handle.raw_brand() != m.from {
            return Err(ArenaError::ManagerError(ManagerError::BadHandle(HandleFault::WrongBrand)));
        }
        let mh = restamp(handle, self.manager.raw_brand());
        match self.manager.bump_version(mh) {
            Ok(bumped) => {
                proof {
                    assert(next_version(handle.ver()) != handle.ver());
                }
                Ok(restamp(bumped, m.to))
            },
            Err(e) => Err(ArenaError::ManagerError(e)),
        }
    }
}

impl<T, S: ReusableStore<(Version, T)>, H: Header> VersionArena<T, S, H> {
    /// Removes the value a handle points at, through port `p` (alloc mode);
    /// the slot is freed and the next insertion bumps the generation.
    pub fn remove(&mut self, p: PortId, handle: VHandle) -> (r: AResult<T>)
        requires
            old(self).wf(),
            p < old(self).port_count(),
        ensures
            final(self).wf(),
            Self::same_ports(final(self), old(self)),
            final(self).cap() == old(self).cap(),
            final(self).extent() == old(self).extent(),
            final(self).ver() == old(self).ver(),
            match r {
                Ok(v) => {
                    &&& old(self).accepted(p as int, handle)
                    &&& stored_value_of(old(self).slots()[handle.idx()]) == Some(v)
                    &&& final(self).slots() == old(self).slots().update(handle.idx(), None)
                    &&& final(self).free_seq() == seq![handle.idx()] + old(self).free_seq()
                    &&& final(self).dirty()
                },
                Err(e) => {
                    &&& final(self).slots() == old(self).slots()
                    &&& final(self).free_seq() == old(self).free_seq()
                    &&& final(self).dirty() == old(self).dirty()
                    &&& !old(self).accepted(p as int, handle)
                    &&& e == ArenaError::ManagerError(
                        access_fault(
                            old(self).port_accepts(p as int, handle),
                            old(self).live_at(handle.idx()),
                            old(self).extent() as int,
                            handle.sindex(),
                        ),
                    )
                },
            },
    {
        let port_live = self.ports[p].live;
        let port_brand = self.ports[p].brand;
        if !port_live || handle.raw_brand() != port_brand {
            return Err(ArenaError::ManagerError(ManagerError::BadHandle(HandleFault::WrongBrand)));
        }
        let mh = restamp(handle, self.manager.raw_brand());
        match self.manager.remove(mh) {
            Ok(v) => Ok(v),
            Err(e) => Err(ArenaError::ManagerError(e)),
        }
    }
}

impl<T, S: GetDisjointMut<(Version, T)>, H: Header> VersionArena<T, S, H> {
    /// Mutable borrows of the values of two distinct handles at once,
    /// through port `p` (write mode).
    pub fn get_disjoint_mut(&mut self, p: PortId, ha: VHandle, hb: VHandle) -> (r: AResult<
        (&mut T, &mut T),
    >)
        requires
            old(self).wf(),
            p < old(self).port_count(),
        ensures
            final(self).wf(),
            Self::same_ports(final(self), old(self)),
            final(self).cap() == old(self).cap(),
            final(self).extent() == old(self).extent(),
            final(self).free_seq() == old(self).free_seq(),
            final(self).ver() == old(self).ver(),
            final(self).dirty() == old(self).dirty(),
            match r {
                Ok(pair) => {
                    &&& old(self).accepted(p as int, ha)
                    &&& old(self).accepted(p as int, hb)
                    &&& ha.idx() != hb.idx()
                    &&& stored_value_of(old(self).slots()[ha.idx()]) == Some(*pair.0)
                    &&& stored_value_of(old(self).slots()[hb.idx()]) == Some(*pair.1)
                    &&& final(self).slots() == old(self).slots().update(
                        ha.idx(),
                        Some((ha.sversion(), *final(pair.0))),
                    ).update(hb.idx(), Some((hb.sversion(), *final(pair.1))))
                },
                Err(e) => {
                    &&& final(self).slots() == old(self).slots()
                    &&& !(old(self).accepted(p as int, ha) && old(self).accepted(p as int, hb)
                        && ha.idx() != hb.idx())
                    &&& e == ArenaError::ManagerError(
                        (if !old(self).port_accepts(p as int, ha) || !old(self).port_accepts(
                            p as int,
                            hb,
                        ) {
                            ManagerError::BadHandle(HandleFault::WrongBrand)
                        } else if ha.idx() == hb.idx() || !old(self).live_at(ha.idx()) || !old(self).live_at(hb.idx()) {
                            ManagerError::StoreError(
                                pair_err_of(
                                    old(self).extent() as int,
                                    old(self).slots(),
                                    ha.sindex(),
                                    hb.sindex(),
                                ),
                            )
                        } else {
                            ManagerError::BadHandle(HandleFault::VersionMismatch)
                        }),
                    )
                },
            },
    {
        let port_live = self.ports[p].live;
        let port_brand = self.ports[p].brand;
        if !port_live || handle_brand_differs(&ha, port_brand) || handle_brand_differs(&hb, port_brand) {
            return Err(ArenaError::ManagerError(ManagerError::BadHandle(HandleFault::WrongBrand)));
        }
        let brand = self.manager.raw_brand();
        let mha = restamp(ha, brand);
        let mhb = restamp(hb, brand);
        match self.manager.get_disjoint_mut(mha, mhb) {
            Ok(pair) => Ok(pair),
            Err(e) => Err(ArenaError::ManagerError(e)),
        }
    }
}

/// Whether a handle carries a brand other than `brand`.
fn handle_brand_differs(h: &VHandle, brand: u64) -> (r: bool)
    ensures
        r == (h.brand_id() != brand),
{
    h.raw_brand() != brand
}

/// A mutable borrow of a port's header; brand and liveness stay as they
/// were.
fn port_header_mut<H>(port: &mut Port<H>) -> (r: &mut H)
    ensures
        *r == old(port).header,
        final(port).brand == old(port).brand,
        final(port).live == old(port).live,
        final(port).header == *final(r),
{
    &mut port.header
}

/// Retires a port; its brand and header stay readable but the port vouches
/// for no handle any more.
fn port_kill<H>(port: &mut Port<H>)
    ensures
        final(port).brand == old(port).brand,
        final(port).header == old(port).header,
        !final(port).live,
{
    port.live = false;
}

} // verus!

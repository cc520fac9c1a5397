//! The slices element kind under the versioned strategy: caller-chosen-
//! length runs of a raw unit type, each with a length-and-generation header
//! written inline before the payload, stored in a variable-size reuse
//! store.

use core::marker::PhantomData;

use vstd::prelude::*;
use vstd::pervasive::unreached;

use crate::errors::{HandleFault, ManagerError, MResult, StoreError};
use crate::index::{next_version, Index, Length, Version};
use crate::manager::{mint, RawBytes, VHandle};
use crate::store::{run_free, run_live, IntervaltreeStore};

verus! {

broadcast use crate::index::lemma_index_bounds, crate::index::lemma_version_bounds, crate::index::lemma_index_injective, crate::index::lemma_version_injective;

/// Marks the element kind of caller-chosen-length runs of a raw unit type.
pub struct Slices<U>(PhantomData<U>);

impl<U: RawBytes> Slices<U> {
    /// How many cells the inline header written before each run's payload
    /// occupies: one, holding the run's length and generation.
    pub fn header_size() -> (r: Length)
        ensures
            r == 1,
    {
        1
    }
}

/// One cell of a slices store: the inline header of a run (its length and
/// the generation it was written under), or one unit of a run's payload.
#[derive(Clone, Copy, Debug)]
pub enum SliceCell<U> {
    /// The header that precedes a run's payload.
    Header(Length, Version),
    /// One unit of a run's payload.
    Data(U),
}

/// The payload unit a cell holds.
pub open spec fn cell_data<U>(c: Option<SliceCell<U>>) -> U {
    match c {
        Some(SliceCell::Data(u)) => u,
        _ => vstd::pervasive::arbitrary(),
    }
}

/// The error an access through a slice handle reports: a foreign brand is
/// a bad handle; a missing cell is the store's own complaint; a cell whose
/// inline header disagrees with the handle's stamp (or which is no header
/// at all, because the cell was reused inside another run) is a version
/// mismatch.
pub open spec fn slices_fault<U>(
    brand_ok: bool,
    cells: Seq<Option<SliceCell<U>>>,
    index: Index,
    ver: int,
) -> ManagerError {
    if !brand_ok {
        ManagerError::BadHandle(HandleFault::WrongBrand)
    } else if index@ + 1 > cells.len() {
        ManagerError::StoreError(StoreError::OutOfBounds(index, (cells.len() as Length)))
    } else if cells[index@] is None {
        ManagerError::StoreError(StoreError::AccessAfterFree(index))
    } else {
        ManagerError::BadHandle(HandleFault::VersionMismatch)
    }
}

/// A manager of the slices kind under the versioned strategy: runs live in
/// a variable-size reuse store, each preceded by its inline header, and the
/// usual generation bookkeeping detects stale handles.
pub struct SlicesManager<U> {
    store: IntervaltreeStore<SliceCell<U>>,
    version: Version,
    dirty: bool,
    brand: u64,
}

impl<U: RawBytes> SlicesManager<U> {
    /// The cell table of the backing store.
    pub closed spec fn cells(&self) -> Seq<Option<SliceCell<U>>> {
        self.store.cells()
    }

    /// The reserved capacity, in cells.
    pub closed spec fn cap(&self) -> nat {
        self.store.cap()
    }

    /// The identity token this manager stamps into its handles.
    pub closed spec fn brand_id(&self) -> int {
        self.brand as int
    }

    /// The running generation counter.
    pub closed spec fn ver(&self) -> int {
        self.version@
    }

    /// Whether a removal has happened since the last generation bump.
    pub closed spec fn dirty(&self) -> bool {
        self.dirty
    }

    /// The generation the next insertion will stamp.
    pub open spec fn next_stamp(&self) -> int {
        if self.dirty() {
            next_version(self.ver())
        } else {
            self.ver()
        }
    }

    /// Cell `idx` holds a run's inline header.
    pub open spec fn has_header(&self, idx: int) -> bool {
        0 <= idx < self.cells().len() && self.cells()[idx] matches Some(SliceCell::Header(_, _))
    }

    /// The length the header at `idx` records.
    pub open spec fn header_len(&self, idx: int) -> int {
        match self.cells()[idx] {
            Some(SliceCell::Header(l, _)) => l as int,
            _ => 0,
        }
    }

    /// The generation the header at `idx` records.
    pub open spec fn header_ver(&self, idx: int) -> int {
        match self.cells()[idx] {
            Some(SliceCell::Header(_, v)) => v@,
            _ => 0,
        }
    }

    /// The payload of the run whose header sits at `idx`.
    pub open spec fn payload(&self, idx: int) -> Seq<U> {
        Seq::new(self.header_len(idx) as nat, (|j: int| cell_data(self.cells()[idx + 1 + j])))
    }

    /// A handle is accepted: minted under this brand, pointing at a live
    /// inline header stamped with exactly the handle's generation.
    pub open spec fn accepts(&self, h: VHandle) -> bool {
        &&& h.brand_id() == self.brand_id()
        &&& self.has_header(h.idx())
        &&& self.header_ver(h.idx()) == h.ver()
    }

    /// Internal well-formedness: the store is sound and every inline header
    /// is followed by its whole payload, cell for cell.
    pub closed spec fn wf(&self) -> bool {
        &&& self.store.wf()
        &&& forall|idx: int|
            #[trigger] self.has_header(idx) ==> idx + 1 + self.header_len(idx)
                <= self.cells().len() && (forall|j: int|
                0 <= j < self.header_len(idx) ==> (#[trigger] self.cells()[idx + 1 + j]) matches Some(
                    SliceCell::Data(_),
                ))
    }

    /// A fresh manager with no reserved capacity, stamped with `brand` and
    /// starting at the first generation.
    pub fn new(brand: u64) -> (r: Self)
        ensures
            r.wf(),
            r.brand_id() == brand,
            r.cap() == 0,
            r.ver() == 1,
            !r.dirty(),
    {
        let r = SlicesManager {
            store: IntervaltreeStore::new(),
            version: Version::one(),
            dirty: false,
            brand,
        };
        proof {
            r.store.view_props();
        }
        r
    }

    /// The reserved capacity, in cells.
    pub fn capacity(&self) -> (r: Length)
        requires
            self.wf(),
        ensures
            r == self.cap(),
    {
        self.store.capacity()
    }

    /// Grows the reserved capacity by at least `additional` cells (with the
    /// usual doubling).
    pub fn reserve(&mut self, additional: Length) -> (r: MResult<()>)
        requires
            old(self).wf(),
        ensures
            final(self).wf(),
            final(self).brand_id() == old(self).brand_id(),
            final(self).ver() == old(self).ver(),
            final(self).dirty() == old(self).dirty(),
            match r {
                Ok(()) => {
                    &&& old(self).cap() + additional <= u32::MAX
                    &&& final(self).cap() >= old(self).cap() + additional
                    &&& forall|i: int|
                        0 <= i < old(self).cap() ==> #[trigger] final(self).cells()[i] == old(self).cells()[i]
                    &&& forall|i: int|
                        old(self).cap() <= i < final(self).cap() ==> (#[trigger] final(self).cells()[i]) is None
                },
                Err(e) => {
                    &&& old(self).cap() + additional > u32::MAX
                    &&& e == ManagerError::StoreError(
                        StoreError::OutofMemory((old(self).cap() as Length), u32::MAX),
                    )
                    &&& final(self).cells() == old(self).cells()
                },
            },
    {
        proof {
            self.store.view_props();
        }
        if additional == 0 {
            return Ok(());
        }
        let cap = self.store.capacity();
        match cap.checked_add(additional) {
            Some(new_capacity) => {
                let widened = self.store.widen(new_capacity);
                proof {
                    assert(widened is Ok);
                    old(self).store.view_props();
                    self.store.view_props();
                    assert forall|idx: int| #[trigger] final(self).has_header(idx) implies idx + 1
                        + final(self).header_len(idx) <= final(self).cells().len() && (forall|
                        j: int,
                    |
                        0 <= j < final(self).header_len(idx) ==> (#[trigger] final(self).cells()[idx + 1 + j]) matches Some(SliceCell::Data(_))) by {
                        if idx < old(self).cap() {
                            assert(old(self).has_header(idx));
                            assert forall|j: int|
                                0 <= j < final(self).header_len(idx) implies (#[trigger] final(self).cells()[idx + 1 + j]) matches Some(SliceCell::Data(_)) by {
                                assert(old(self).cells()[idx + 1 + j] matches Some(
                                    SliceCell::Data(_),
                                ));
                            }
                        }
                    }
                }
                Ok(())
            },
            None => Err(ManagerError::StoreError(StoreError::OutofMemory(cap, u32::MAX))),
        }
    }

    /// Inserts the run `values` without growing: consumes a pending dirty
    /// flag by bumping the generation, writes the inline header and the
    /// payload into the leftmost free gap that fits, and mints a matching
    /// handle; hands nothing back where no gap fits.
    pub fn insert_within_capacity(&mut self, values: &Vec<U>) -> (r: Option<VHandle>)
        requires
            old(self).wf(),
            values@.len() < u32::MAX,
        ensures
            final(self).wf(),
            final(self).brand_id() == old(self).brand_id(),
            final(self).cap() == old(self).cap(),
            final(self).ver() == old(self).next_stamp(),
            !final(self).dirty(),
            match r {
                Some(h) => {
                    &&& h.brand_id() == old(self).brand_id()
                    &&& h.ver() == old(self).next_stamp()
                    &&& final(self).accepts(h)
                    &&& final(self).header_len(h.idx()) == values@.len()
                    &&& final(self).payload(h.idx()) == values@
                    &&& run_free(old(self).cells(), h.idx(), values@.len() as int + 1)
                    &&& forall|s2: int|
                        0 <= s2 < h.idx() && s2 + values@.len() + 1 <= old(self).cap() ==> !(
                        #[trigger] run_free(old(self).cells(), s2, values@.len() as int + 1))
                    &&& forall|i: int|
                        0 <= i < old(self).cap() && !(h.idx() <= i < h.idx() + 1 + values@.len())
                            ==> #[trigger] final(self).cells()[i] == old(self).cells()[i]
                },
                None => final(self).cells() == old(self).cells() && forall|s2: int|
                    0 <= s2 && s2 + values@.len() + 1 <= old(self).cap() ==> !(#[trigger] run_free(
                        old(self).cells(),
                        s2,
                        values@.len() as int + 1,
                    )),
            },
    {
        proof {
            self.store.view_props();
        }
        if self.dirty {
            self.dirty = false;
            self.version = self.version.next();
        }
        let stamp = self.version;
        let n = values.len();
        let mut run: Vec<SliceCell<U>> = Vec::new();
        run.push(SliceCell::Header(n as Length, stamp));
        let mut j: usize = 0;
        while j < n
            invariant
                j <= n,
                n == values@.len(),
                run@.len() == j + 1,
                run@[0] == SliceCell::<U>::Header((n as Length), stamp),
                forall|q: int|
                    1 <= q < j + 1 ==> (#[trigger] run@[q]) == SliceCell::<U>::Data(
                        values@[q - 1],
                    ),
            decreases n - j,
        {
            run.push(SliceCell::Data(values[j]));
            j = j + 1;
        }
        match self.store.insert_many_within_capacity(&run) {
            Some(start) => {
                let h = mint(start, stamp, self.brand);
                proof {
                    old(self).store.view_props();
                    self.store.view_props();
                    assert forall|idx: int| #[trigger] final(self).has_header(idx) implies idx + 1
                        + final(self).header_len(idx) <= final(self).cells().len() && (forall|j2: int|
                        0 <= j2 < final(self).header_len(idx) ==> (#[trigger] final(self).cells()[idx + 1
                            + j2]) matches Some(SliceCell::Data(_))) by {
                        if h.idx() <= idx < h.idx() + 1 + n {
                            assert(final(self).cells()[idx] == Some(run@[idx - h.idx()]));
                            assert(idx == h.idx());
                            assert(final(self).cells()[idx] == Some(run@[0]));
                            assert(final(self).header_len(idx) == n as int);
                            assert(idx + 1 + n <= final(self).cells().len());
                            assert forall|j2: int|
                                0 <= j2 < final(self).header_len(idx) implies (#[trigger] final(self).cells()[idx
                                + 1 + j2]) matches Some(SliceCell::Data(_)) by {
                                assert(final(self).cells()[idx + 1 + j2] == Some(run@[1 + j2]));
                            }
                        } else {
                            assert(final(self).cells().len() == old(self).cells().len());
                            assert(final(self).cells()[idx] == old(self).cells()[idx]);
                            assert(old(self).has_header(idx));
                            assert(final(self).header_len(idx) == old(self).header_len(idx));
                            assert(idx + 1 + old(self).header_len(idx) <= old(self).cells().len());
                            assert forall|j2: int|
                                0 <= j2 < final(self).header_len(idx) implies (#[trigger] final(self).cells()[idx
                                + 1 + j2]) matches Some(SliceCell::Data(_)) by {
                                assert(old(self).cells()[idx + 1 + j2] matches Some(
                                    SliceCell::Data(_),
                                ));
                                if h.idx() <= idx + 1 + j2 < h.idx() + 1 + n {
                                    assert(run_free(
                                        old(self).cells(),
                                        h.idx(),
                                        n as int + 1,
                                    ));
                                    assert(old(self).cells()[idx + 1 + j2] is None);
                                }
                            }
                        }
                    }
                    assert(final(self).payload(h.idx()) =~= values@);
                }
                Some(h)
            },
            None => {
                proof {
                    assert(final(self).cells() == old(self).cells());
                    assert forall|idx: int| #[trigger] final(self).has_header(idx) implies idx + 1
                        + final(self).header_len(idx) <= final(self).cells().len() && (forall|
                        j2: int,
                    |
                        0 <= j2 < final(self).header_len(idx) ==> (#[trigger] final(self).cells()[idx + 1 + j2]) matches Some(SliceCell::Data(_))) by {
                        assert(old(self).has_header(idx));
                        assert forall|j2: int|
                            0 <= j2 < final(self).header_len(idx) implies (#[trigger] final(self).cells()[idx + 1 + j2]) matches Some(SliceCell::Data(_)) by {
                            assert(old(self).cells()[idx + 1 + j2] matches Some(
                                SliceCell::Data(_),
                            ));
                        }
                    }
                }
                None
            },
        }
    }

    /// Inserts the run `values`, growing by exactly the run's size (header
    /// and payload) if no gap fits and retrying once; a second failure
    /// cannot happen, and a growth failure surfaces as the store's own
    /// error.  This is the capacity-recovery idiom of the arena layer,
    /// brought to the slices kind.
    pub fn insert(&mut self, values: &Vec<U>) -> (r: MResult<VHandle>)
        requires
            old(self).wf(),
            values@.len() < u32::MAX,
        ensures
            final(self).wf(),
            final(self).brand_id() == old(self).brand_id(),
            final(self).ver() == old(self).next_stamp(),
            !final(self).dirty(),
            match r {
                Ok(h) => {
                    &&& h.brand_id() == old(self).brand_id()
                    &&& h.ver() == old(self).next_stamp()
                    &&& final(self).accepts(h)
                    &&& final(self).header_len(h.idx()) == values@.len()
                    &&& final(self).payload(h.idx()) == values@
                },
                Err(e) => {
                    &&& old(self).cap() + values@.len() + 1 > u32::MAX
                    &&& e == ManagerError::StoreError(
                        StoreError::OutofMemory((old(self).cap() as Length), u32::MAX),
                    )
                },
            },
    {
        match self.insert_within_capacity(values) {
            Some(h) => Ok(h),
            None => {
                let needed = 1 + values.len() as Length;
                match self.reserve(needed) {
                    Ok(()) => {},
                    Err(e) => {
                        return Err(e);
                    },
                }
                proof {
                    self.store.view_props();
                    assert(run_free(
                        self.cells(),
                        old(self).cap() as int,
                        values@.len() as int + 1,
                    ));
                }
                match self.insert_within_capacity(values) {
                    Some(h) => Ok(h),
                    None => unreached(),
                }
            },
        }
    }

    /// The length of the run a handle points at, read from its inline
    /// header, after validating the brand and the generation stamp.
    pub fn len(&self, handle: VHandle) -> (r: MResult<Length>)
        requires
            self.wf(),
        ensures
            match r {
                Ok(l) => self.accepts(handle) && l == self.header_len(handle.idx()),
                Err(e) => !self.accepts(handle) && e == slices_fault(
                    handle.brand_id() == self.brand_id(),
                    self.cells(),
                    handle.sindex(),
                    handle.ver(),
                ),
            },
    {
        proof {
            self.store.view_props();
        }
        if handle.raw_brand() != self.brand {
            return Err(ManagerError::BadHandle(HandleFault::WrongBrand));
        }
        match self.store.get_many(handle.index(), 1) {
            Ok(cells) => {
                match cells[0] {
                    SliceCell::Header(l, v) => {
                        if v == handle.version() {
                            Ok(l)
                        } else {
                            Err(ManagerError::BadHandle(HandleFault::VersionMismatch))
                        }
                    },
                    SliceCell::Data(_) => {
                        Err(ManagerError::BadHandle(HandleFault::VersionMismatch))
                    },
                }
            },
            Err(e) => Err(ManagerError::StoreError(e)),
        }
    }

    /// Copies of the run a handle points at, after validating the brand and
    /// the generation stamp.
    pub fn get(&self, handle: VHandle) -> (r: MResult<Vec<U>>)
        requires
            self.wf(),
        ensures
            match r {
                Ok(v) => self.accepts(handle) && v@ == self.payload(handle.idx()),
                Err(e) => !self.accepts(handle) && e == slices_fault(
                    handle.brand_id() == self.brand_id(),
                    self.cells(),
                    handle.sindex(),
                    handle.ver(),
                ),
            },
    {
        proof {
            self.store.view_props();
        }
        let l = match self.len(handle) {
            Ok(l) => l,
            Err(e) => {
                return Err(e);
            },
        };
        if l == 0 {
            let empty: Vec<U> = Vec::new();
            proof {
                assert(self.payload(handle.idx()) =~= empty@);
            }
            return Ok(empty);
        }
        let after = match Index::new(handle.index().get() + 1) {
            Some(i) => i,
            None => unreached(),
        };
        proof {
            assert(handle.idx() + 1 + l <= self.cells().len());
            assert forall|q: int|
                after@ <= q < after@ + l implies (#[trigger] self.cells()[q]) is Some by {
                let j2 = q - handle.idx() - 1;
                assert(self.cells()[handle.idx() + 1 + j2] matches Some(SliceCell::Data(_)));
            }
            assert(run_live(self.cells(), after@, l as int));
        }
        match self.store.get_many(after, l) {
            Ok(cells) => {
                let mut out: Vec<U> = Vec::new();
                let n = l as usize;
                let mut j: usize = 0;
                while j < n
                    invariant
                        j <= n,
                        n == cells@.len(),
                        out@.len() == j,
                        forall|q: int|
                            0 <= q < j ==> ((#[trigger] cells@[q]) matches SliceCell::Data(_))
                                && out@[q] == cell_data(Some(cells@[q])),
                        forall|q: int|
                            0 <= q < n ==> (#[trigger] cells@[q]) matches SliceCell::Data(_),
                    decreases n - j,
                {
                    match &cells[j] {
                        SliceCell::Data(u) => {
                            out.push(*u);
                        },
                        SliceCell::Header(_, _) => unreached(),
                    }
                    j = j + 1;
                }
                proof {
                    assert forall|q: int|
                        0 <= q < n implies #[trigger] out@[q] == self.payload(handle.idx())[q] by {
                        assert(self.cells()[handle.idx() + 1 + q] == Some(cells@[q]));
                    }
                    assert(out@ =~= self.payload(handle.idx()));
                }
                Ok(out)
            },
            Err(_) => unreached(),
        }
    }

    /// Overwrites one unit of the run a handle points at, in place, after
    /// validating the brand and the generation stamp; the in-place analogue
    /// of borrowing the run mutably, unit by unit.
    pub fn set_at(&mut self, handle: VHandle, offset: Length, value: U) -> (r: MResult<()>)
        requires
            old(self).wf(),
        ensures
            final(self).wf(),
            final(self).brand_id() == old(self).brand_id(),
            final(self).cap() == old(self).cap(),
            final(self).ver() == old(self).ver(),
            final(self).dirty() == old(self).dirty(),
            match r {
                Ok(()) => {
                    &&& old(self).accepts(handle)
                    &&& offset < old(self).header_len(handle.idx())
                    &&& final(self).cells() == old(self).cells().update(
                        handle.idx() + 1 + offset,
                        Some(SliceCell::Data(value)),
                    )
                    &&& final(self).accepts(handle)
                    &&& final(self).header_len(handle.idx()) == old(self).header_len(handle.idx())
                    &&& final(self).payload(handle.idx()) == old(self).payload(
                        handle.idx(),
                    ).update(offset as int, value)
                },
                Err(e) => {
                    &&& final(self).cells() == old(self).cells()
                    &&& !(old(self).accepts(handle) && offset < old(self).header_len(
                        handle.idx(),
                    ))
                    &&& e == (if !old(self).accepts(handle) {
                        slices_fault(
                            handle.brand_id() == old(self).brand_id(),
                            old(self).cells(),
                            handle.sindex(),
                            handle.ver(),
                        )
                    } else {
                        ManagerError::StoreError(
                            StoreError::OutOfBounds(
                                handle.sindex(),
                                (old(self).header_len(handle.idx()) as Length),
                            ),
                        )
                    })
                },
            },
    {
        proof {
            self.store.view_props();
        }
        let l = match self.len(handle) {
            Ok(l) => l,
            Err(e) => {
                return Err(e);
            },
        };
        if offset >= l {
            return Err(ManagerError::StoreError(StoreError::OutOfBounds(handle.index(), l)));
        }
        let at = match Index::new(handle.index().get() + 1 + offset) {
            Some(i) => i,
            None => unreached(),
        };
        proof {
            assert(old(self).cells()[at@] matches Some(SliceCell::Data(_)));
        }
        match self.store.set_cell(at, SliceCell::Data(value)) {
            Ok(()) => {},
            Err(_) => unreached(),
        }
        proof {
            assert forall|idx: int| #[trigger] final(self).has_header(idx) implies idx + 1
                + final(self).header_len(idx) <= final(self).cells().len() && (forall|j2: int|
                0 <= j2 < final(self).header_len(idx) ==> (#[trigger] final(self).cells()[idx + 1
                    + j2]) matches Some(SliceCell::Data(_))) by {
                assert(final(self).cells()[idx] == old(self).cells()[idx]);
                assert(old(self).has_header(idx));
                assert forall|j2: int|
                    0 <= j2 < final(self).header_len(idx) implies (#[trigger] final(self).cells()[idx + 1 + j2]) matches Some(SliceCell::Data(_)) by {
                    assert(old(self).cells()[idx + 1 + j2] matches Some(SliceCell::Data(_)));
                }
            }
            assert(final(self).payload(handle.idx()) =~= old(self).payload(handle.idx()).update(
                offset as int,
                value,
            ));
        }
        Ok(())
    }

    /// Invalidates a slice handle in place: rewrites the inline header with
    /// a bumped generation and returns a new handle carrying it, so the old
    /// handle can never silently reach the run again; this is how a run
    /// logically moves between identity scopes.
    pub fn bump_version(&mut self, handle: VHandle) -> (r: MResult<VHandle>)
        requires
            old(self).wf(),
        ensures
            final(self).wf(),
            final(self).brand_id() == old(self).brand_id(),
            final(self).cap() == old(self).cap(),
            final(self).ver() == old(self).ver(),
            final(self).dirty() == old(self).dirty(),
            match r {
                Ok(h) => {
                    &&& old(self).accepts(handle)
                    &&& h.idx() == handle.idx()
                    &&& h.brand_id() == old(self).brand_id()
                    &&& h.ver() == next_version(handle.ver())
                    &&& h.ver() != handle.ver()
                    &&& final(self).accepts(h)
                    &&& !final(self).accepts(handle)
                    &&& final(self).header_len(handle.idx()) == old(self).header_len(handle.idx())
                    &&& final(self).payload(handle.idx()) == old(self).payload(handle.idx())
                    &&& forall|i: int|
                        0 <= i < old(self).cap() && i != handle.idx() ==> #[trigger] final(self).cells()[i] == old(self).cells()[i]
                },
                Err(e) => {
                    &&& final(self).cells() == old(self).cells()
                    &&& !old(self).accepts(handle)
                    &&& e == slices_fault(
                        handle.brand_id() == old(self).brand_id(),
                        old(self).cells(),
                        handle.sindex(),
                        handle.ver(),
                    )
                },
            },
    {
        proof {
            self.store.view_props();
        }
        let l = match self.len(handle) {
            Ok(l) => l,
            Err(e) => {
                return Err(e);
            },
        };
        let bumped = handle.version().next();
        proof {
            assert(next_version(handle.ver()) != handle.ver());
        }
        match self.store.set_cell(handle.index(), SliceCell::Header(l, bumped)) {
            Ok(()) => {},
            Err(_) => unreached(),
        }
        proof {
            assert forall|idx: int| #[trigger] final(self).has_header(idx) implies idx + 1
                + final(self).header_len(idx) <= final(self).cells().len() && (forall|j2: int|
                0 <= j2 < final(self).header_len(idx) ==> (#[trigger] final(self).cells()[idx + 1
                    + j2]) matches Some(SliceCell::Data(_))) by {
                if idx == handle.idx() {
                    assert(final(self).header_len(idx) == old(self).header_len(idx));
                    assert forall|j2: int|
                        0 <= j2 < final(self).header_len(idx) implies (#[trigger] final(self).cells()[idx + 1 + j2]) matches Some(SliceCell::Data(_)) by {
                        assert(old(self).cells()[idx + 1 + j2] matches Some(SliceCell::Data(_)));
                        assert(final(self).cells()[idx + 1 + j2] == old(self).cells()[idx + 1
                            + j2]);
                    }
                } else {
                    assert(final(self).cells()[idx] == old(self).cells()[idx]);
                    assert(old(self).has_header(idx));
                    assert forall|j2: int|
                        0 <= j2 < final(self).header_len(idx) implies (#[trigger] final(self).cells()[idx + 1 + j2]) matches Some(SliceCell::Data(_)) by {
                        assert(old(self).cells()[idx + 1 + j2] matches Some(SliceCell::Data(_)));
                        if idx + 1 + j2 == handle.idx() {
                            assert(old(self).cells()[handle.idx()] matches Some(
                                SliceCell::Header(_, _),
                            ));
                            assert(false);
                        }
                    }
                }
            }
            assert(final(self).payload(handle.idx()) =~= old(self).payload(handle.idx()));
        }
        Ok(mint(handle.index(), bumped, self.brand))
    }

    /// Removes the run a handle points at — header and payload together —
    /// after validating the brand and the generation stamp, hands the
    /// payload back, and marks the manager dirty so the next insertion
    /// bumps the generation.
    pub fn remove(&mut self, handle: VHandle) -> (r: MResult<Vec<U>>)
        requires
            old(self).wf(),
        ensures
            final(self).wf(),
            final(self).brand_id() == old(self).brand_id(),
            final(self).cap() == old(self).cap(),
            final(self).ver() == old(self).ver(),
            match r {
                Ok(v) => {
                    &&& old(self).accepts(handle)
                    &&& v@ == old(self).payload(handle.idx())
                    &&& final(self).dirty()
                    &&& forall|i: int|
                        0 <= i < old(self).cap() ==> #[trigger] final(self).cells()[i] == (
                        if handle.idx() <= i < handle.idx() + 1 + old(self).header_len(
                            handle.idx(),
                        ) {
                            None
                        } else {
                            old(self).cells()[i]
                        })
                },
                Err(e) => {
                    &&& final(self).cells() == old(self).cells()
                    &&& final(self).dirty() == old(self).dirty()
                    &&& !old(self).accepts(handle)
                    &&& e == slices_fault(
                        handle.brand_id() == old(self).brand_id(),
                        old(self).cells(),
                        handle.sindex(),
                        handle.ver(),
                    )
                },
            },
    {
        let l = match self.len(handle) {
            Ok(l) => l,
            Err(e) => {
                return Err(e);
            },
        };
        proof {
            self.store.view_props();
            assert(handle.idx() + 1 + l <= self.cells().len());
            assert forall|q: int|
                handle.idx() <= q < handle.idx() + 1 + l implies (#[trigger] self.cells()[q]) is Some by {
                if q != handle.idx() {
                    let j2 = q - handle.idx() - 1;
                    assert(self.cells()[handle.idx() + 1 + j2] matches Some(SliceCell::Data(_)));
                }
            }
            assert(run_live(self.cells(), handle.idx(), 1 + l as int));
        }
        let guard = match self.store.remove_many(handle.index(), 1 + l) {
            Ok(g) => g,
            Err(_) => unreached(),
        };
        proof {
            self.store.view_props();
        }
        self.dirty = true;
        let cells = guard.into_values();
        let mut out: Vec<U> = Vec::new();
        let n = l as usize;
        let mut j: usize = 0;
        proof {
            assert forall|q: int| 0 <= q < n implies ((#[trigger] cells@[1 + q]) matches SliceCell::Data(
                _,
            )) && cell_data(Some(cells@[1 + q])) == old(self).payload(handle.idx())[q] by {
                assert(old(self).cells()[handle.idx() + (1 + q)] == Some(cells@[1 + q]));
                assert(old(self).cells()[handle.idx() + 1 + q] matches Some(SliceCell::Data(_)));
            }
        }
        while j < n
            invariant
                j <= n,
                n + 1 == cells@.len(),
                n == old(self).header_len(handle.idx()),
                handle.idx() + 1 + n <= old(self).cells().len(),
                out@.len() == j,
                forall|q: int|
                    0 <= q < n ==> ((#[trigger] cells@[1 + q]) matches SliceCell::Data(_))
                        && cell_data(Some(cells@[1 + q])) == old(self).payload(handle.idx())[q],
                forall|q: int| 0 <= q < j ==> #[trigger] out@[q] == old(self).payload(
                    handle.idx(),
                )[q],
            decreases n - j,
        {
            match &cells[1 + j] {
                SliceCell::Data(u) => {
                    out.push(*u);
                },
                SliceCell::Header(_, _) => unreached(),
            }
            j = j + 1;
        }
        proof {
            assert(out@ =~= old(self).payload(handle.idx()));
            let hl = old(self).header_len(handle.idx());
            assert forall|idx: int| #[trigger] self.has_header(idx) implies idx + 1
                + self.header_len(idx) <= self.cells().len() && (forall|j2: int|
                0 <= j2 < self.header_len(idx) ==> (#[trigger] self.cells()[idx + 1 + j2]) matches Some(
                    SliceCell::Data(_),
                )) by {
                assert(self.cells()[idx] == old(self).cells()[idx]);
                assert(old(self).has_header(idx));
                assert(!(handle.idx() <= idx < handle.idx() + 1 + hl));
                if idx < handle.idx() {
                    // this header's payload cannot reach the removed run:
                    // it would have to cover the run's header cell, and a
                    // payload cell is never a header cell
                    if idx + 1 + old(self).header_len(idx) > handle.idx() {
                        let j2 = handle.idx() - idx - 1;
                        assert(old(self).cells()[idx + 1 + j2] matches Some(SliceCell::Data(_)));
                        assert(old(self).cells()[handle.idx()] matches Some(
                            SliceCell::Header(_, _),
                        ));
                        assert(false);
                    }
                    assert forall|j2: int|
                        0 <= j2 < self.header_len(idx) implies (#[trigger] self.cells()[idx + 1
                        + j2]) matches Some(SliceCell::Data(_)) by {
                        assert(old(self).cells()[idx + 1 + j2] matches Some(SliceCell::Data(_)));
                        assert(idx + 1 + j2 < handle.idx());
                    }
                } else {
                    assert(idx >= handle.idx() + 1 + hl);
                    assert forall|j2: int|
                        0 <= j2 < self.header_len(idx) implies (#[trigger] self.cells()[idx + 1
                        + j2]) matches Some(SliceCell::Data(_)) by {
                        assert(old(self).cells()[idx + 1 + j2] matches Some(SliceCell::Data(_)));
                    }
                }
            }
        }
        Ok(out)
    }

    /// Logically empties the store without releasing the allocation and
    /// marks the manager dirty.  Content that was still live is not dropped
    /// through this path and may leak.
    pub fn clear(&mut self)
        requires
            old(self).wf(),
        ensures
            final(self).wf(),
            final(self).brand_id() == old(self).brand_id(),
            final(self).cap() == old(self).cap(),
            final(self).ver() == old(self).ver(),
            final(self).dirty(),
            forall|i: int| 0 <= i < old(self).cap() ==> (#[trigger] final(self).cells()[i]) is None,
    {
        proof {
            old(self).store.view_props();
        }
        self.dirty = true;
        self.store.clear();
        proof {
            self.store.view_props();
        }
    }
}

} // verus!

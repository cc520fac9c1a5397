//! The variable-size reuse store: allocations are caller-chosen-length runs
//! of cells, and freed runs are tracked as an ordered set of maximal free
//! ranges, keyed by start offset.  Allocation is leftmost-fit; freeing a
//! run merges it with either adjacent free neighbour, replacing up to three
//! ranges with one.  An augmented balanced tree over the same ordered
//! range set would make the leftmost-fit search logarithmic; this
//! implementation keeps the set in a flat ordered table and meets the same
//! contract.

use vstd::prelude::*;

use crate::errors::{SResult, StoreError};
use crate::index::{Index, Length};
use crate::store::grow_target;

verus! {

broadcast use crate::index::lemma_index_bounds;

/// One free range: `len` cells starting at `start`.
#[derive(Clone, Copy, Debug, Hash, PartialEq, Eq, Structural)]
pub struct FreeRange {
    /// The first free cell of the range.
    pub start: Length,
    /// How many cells the range covers (never zero).
    pub len: Length,
}

/// Cell `i` lies in free range `k`.
pub open spec fn in_range(free: Seq<FreeRange>, k: int, i: int) -> bool {
    free[k].start <= i < free[k].start + free[k].len
}

/// Cell `i` lies in some free range.
pub open spec fn covered(free: Seq<FreeRange>, i: int) -> bool {
    exists|k: int| 0 <= k < free.len() && #[trigger] in_range(free, k, i)
}


/// The free table is an ordered set of maximal ranges within `cap`: every
/// range is non-empty and in bounds, and consecutive ranges are separated
/// by at least one occupied cell.
pub open spec fn ranges_wf(free: Seq<FreeRange>, cap: int) -> bool {
    &&& forall|k: int|
        0 <= k < free.len() ==> (#[trigger] free[k].len) >= 1 && free[k].start + free[k].len <= cap
    &&& forall|k: int|
        0 <= k < free.len() - 1 ==> free[k].start + (#[trigger] free[k].len) < free[k + 1].start
}

/// Cells `s .. s + n` are all free.
pub open spec fn run_free<T>(cells: Seq<Option<T>>, s: int, n: int) -> bool {
    forall|j: int| s <= j < s + n ==> cells[j] is None
}

/// Cells `s .. s + n` all hold values.
pub open spec fn run_live<T>(cells: Seq<Option<T>>, s: int, n: int) -> bool {
    forall|j: int| s <= j < s + n ==> cells[j] is Some
}

/// Ordering is transitive across the table: any earlier range ends before
/// any later range starts.
proof fn lemma_range_order(free: Seq<FreeRange>, cap: int, k1: int, k2: int)
    requires
        ranges_wf(free, cap),
        0 <= k1 < k2 < free.len(),
    ensures
        free[k1].start + free[k1].len < free[k2].start,
    decreases k2 - k1,
{
    assert(free[k1].start + (free[k1].len) < free[k1 + 1].start);
    if k1 + 1 < k2 {
        lemma_range_order(free, cap, k1 + 1, k2);
        assert(free[k1 + 1].len >= 1);
    }
}

/// A run of free cells lies entirely within one free range: the table's
/// ranges are maximal, so a free run can never straddle the occupied cell
/// that separates two ranges.
#[verifier::rlimit(100)]
#[verifier::spinoff_prover]
proof fn lemma_run_in_one_range<T>(
    cells: Seq<Option<T>>,
    free: Seq<FreeRange>,
    s: int,
    n: int,
)
    requires
        ranges_wf(free, cells.len() as int),
        forall|i: int| 0 <= i < cells.len() ==> ((#[trigger] cells[i]) is None <==> covered(free, i)),
        0 <= s,
        n >= 1,
        s + n <= cells.len(),
        run_free(cells, s, n),
    ensures
        exists|k: int|
            0 <= k < free.len() && free[k].start <= s && s + n <= free[k].start + free[k].len,
    decreases n,
{
    assert(cells[s] is None);
    assert(covered(free, s));
    let k = choose|k: int| 0 <= k < free.len() && in_range(free, k, s);
    if n == 1 {
        assert(free[k].start <= s && s + 1 <= free[k].start + free[k].len);
    } else {
        assert(run_free(cells, s + 1, n - 1));
        lemma_run_in_one_range(cells, free, s + 1, n - 1);
        let k2 = choose|k2: int|
            0 <= k2 < free.len() && free[k2].start <= s + 1 && s + n <= free[k2].start
                + free[k2].len;
        if k2 == k {
            assert(free[k].start <= s && s + n <= free[k].start + free[k].len);
        } else if k2 < k {
            lemma_range_order(free, cells.len() as int, k2, k);
            assert(s + 1 < free[k2].start + free[k2].len);
            assert(free[k2].start + free[k2].len < free[k].start);
            assert(free[k].start <= s);
            assert(false);
        } else {
            lemma_range_order(free, cells.len() as int, k, k2);
            assert(s < free[k].start + free[k].len);
            assert(free[k].start + free[k].len < free[k2].start);
            assert(free[k2].start <= s + 1);
            assert(false);
        }
    }
}

/// Splicing the free table: the ranges `lo .. hi` and the freed run are
/// replaced by the single merged range `r`, and exactly the freed run's
/// cells become covered in addition.  The four shapes a merge can take:
/// no neighbour absorbed, only the left or only the right neighbour
/// absorbed, or both (three ranges replaced by one).
#[verifier::rlimit(100)]
#[verifier::spinoff_prover]
proof fn lemma_splice(
    free: Seq<FreeRange>,
    cap: int,
    lo: int,
    hi: int,
    r: FreeRange,
    start: int,
    len: int,
)
    requires
        ranges_wf(free, cap),
        0 <= lo <= hi <= free.len(),
        len >= 1,
        r.len >= 1,
        r.start + r.len <= cap,
        lo > 0 ==> free[lo - 1].start + free[lo - 1].len < r.start,
        hi < free.len() ==> r.start + r.len < free[hi].start,
        ((hi == lo && r.start == start && r.start + r.len == start + len) || (hi == lo + 1
            && free[lo].start + free[lo].len == start && r.start == free[lo].start && r.start
            + r.len == start + len) || (hi == lo + 1 && free[lo].start == start + len && r.start
            == start && r.start + r.len == free[lo].start + free[lo].len) || (hi == lo + 2
            && free[lo].start + free[lo].len == start && free[lo + 1].start == start + len
            && r.start == free[lo].start && r.start + r.len == free[lo + 1].start + free[lo
            + 1].len)),
    ensures
        ranges_wf(free.subrange(0, lo) + seq![r] + free.subrange(hi, free.len() as int), cap),
        forall|i: int|
            covered(free.subrange(0, lo) + seq![r] + free.subrange(hi, free.len() as int), i) <==> (
            covered(free, i) || start <= i < start + len),
{
    let merged = free.subrange(0, lo) + seq![r] + free.subrange(hi, free.len() as int);
    assert forall|k: int|
        0 <= k < merged.len() implies (#[trigger] merged[k].len) >= 1 && merged[k].start
        + merged[k].len <= cap by {
        if k < lo {
            assert(merged[k] == free[k]);
        } else if k == lo {
        } else {
            assert(merged[k] == free[k + hi - lo - 1]);
        }
    }
    assert forall|k: int|
        0 <= k < merged.len() - 1 implies merged[k].start + (#[trigger] merged[k].len) < merged[k
        + 1].start by {
        if k + 1 < lo {
            assert(merged[k] == free[k] && merged[k + 1] == free[k + 1]);
            assert(free[k].start + free[k].len < free[k + 1].start);
        } else if k + 1 == lo {
            assert(merged[k] == free[k]);
            assert(merged[lo] == r);
            assert(free[lo - 1].start + free[lo - 1].len < r.start);
        } else if k == lo {
            assert(merged[k + 1] == free[k + hi - lo]);
        } else {
            assert(merged[k] == free[k + hi - lo - 1] && merged[k + 1] == free[k + hi - lo]);
            assert(free[k + hi - lo - 1].start + free[k + hi - lo - 1].len < free[k + hi
                - lo].start);
        }
    }
    assert forall|i: int| covered(merged, i) implies (covered(free, i) || start <= i < start
        + len) by {
        let k = choose|k: int| 0 <= k < merged.len() && #[trigger] in_range(merged, k, i);
        if k < lo {
            assert(in_range(free, k, i));
        } else if k == lo {
            if i < start {
                assert(in_range(free, lo, i));
            } else if i >= start + len {
                assert(in_range(free, hi - 1, i));
            }
        } else {
            assert(in_range(free, k + hi - lo - 1, i));
        }
    }
    assert forall|i: int| start <= i < start + len implies covered(merged, i) by {
        assert(r.start <= i < r.start + r.len);
        assert(in_range(merged, lo, i));
    }
    assert forall|i: int| covered(free, i) implies covered(merged, i) by {
        let k = choose|k: int| 0 <= k < free.len() && #[trigger] in_range(free, k, i);
        if k < lo {
            assert(in_range(merged, k, i));
        } else if k < hi {
            assert(r.start <= i < r.start + r.len);
            assert(in_range(merged, lo, i));
        } else {
            assert(in_range(merged, k - hi + lo + 1, i));
        }
    }
}

/// Distinct free ranges never overlap.
proof fn lemma_no_overlap(free: Seq<FreeRange>, cap: int, k1: int, k2: int, i: int)
    requires
        ranges_wf(free, cap),
        0 <= k1 < free.len(),
        0 <= k2 < free.len(),
        k1 != k2,
        in_range(free, k1, i),
    ensures
        !in_range(free, k2, i),
{
    if k1 < k2 {
        lemma_range_order(free, cap, k1, k2);
    } else {
        lemma_range_order(free, cap, k2, k1);
    }
}

/// Carving a whole free range out of the table removes exactly its cells
/// from the covered set.
proof fn lemma_carve_all(free: Seq<FreeRange>, cap: int, kf: int)
    requires
        ranges_wf(free, cap),
        0 <= kf < free.len(),
    ensures
        ranges_wf(free.remove(kf), cap),
        forall|i: int|
            covered(free.remove(kf), i) <==> (covered(free, i) && !in_range(free, kf, i)),
{
    let pruned = free.remove(kf);
    assert forall|k: int|
        0 <= k < pruned.len() implies (#[trigger] pruned[k].len) >= 1 && pruned[k].start
        + pruned[k].len <= cap by {
        if k < kf {
            assert(pruned[k] == free[k]);
        } else {
            assert(pruned[k] == free[k + 1]);
        }
    }
    assert forall|k: int|
        0 <= k < pruned.len() - 1 implies pruned[k].start + (#[trigger] pruned[k].len)
        < pruned[k + 1].start by {
        if k + 1 < kf {
            assert(pruned[k] == free[k] && pruned[k + 1] == free[k + 1]);
            assert(free[k].start + free[k].len < free[k + 1].start);
        } else if k + 1 == kf {
            assert(pruned[k] == free[k] && pruned[k + 1] == free[kf + 1]);
            lemma_range_order(free, cap, k, kf + 1);
        } else {
            assert(pruned[k] == free[k + 1] && pruned[k + 1] == free[k + 2]);
            assert(free[k + 1].start + free[k + 1].len < free[k + 2].start);
        }
    }
    assert forall|i: int|
        covered(pruned, i) <==> (covered(free, i) && !in_range(free, kf, i)) by {
        if covered(pruned, i) {
            let k = choose|k: int| 0 <= k < pruned.len() && #[trigger] in_range(pruned, k, i);
            if k < kf {
                assert(in_range(free, k, i));
                lemma_no_overlap(free, cap, k, kf, i);
            } else {
                assert(in_range(free, k + 1, i));
                lemma_no_overlap(free, cap, k + 1, kf, i);
            }
        }
        if covered(free, i) && !in_range(free, kf, i) {
            let k = choose|k: int| 0 <= k < free.len() && #[trigger] in_range(free, k, i);
            if k < kf {
                assert(in_range(pruned, k, i));
            } else {
                assert(in_range(pruned, k - 1, i));
            }
        }
    }
}

/// Carving the front of a free range shrinks the covered set by exactly
/// the carved cells.
proof fn lemma_carve_front(free: Seq<FreeRange>, cap: int, kf: int, n: int)
    requires
        ranges_wf(free, cap),
        cap <= u32::MAX,
        0 <= kf < free.len(),
        1 <= n < free[kf].len,
    ensures
        ranges_wf(
            free.update(
                kf,
                FreeRange {
                    start: (free[kf].start + n) as u32,
                    len: (free[kf].len - n) as u32,
                },
            ),
            cap,
        ),
        forall|i: int|
            covered(
                free.update(
                    kf,
                    FreeRange {
                        start: (free[kf].start + n) as u32,
                        len: (free[kf].len - n) as u32,
                    },
                ),
                i,
            ) <==> (covered(free, i) && !(free[kf].start <= i < free[kf].start + n)),
{
    let shrunk = FreeRange {
        start: (free[kf].start + n) as u32,
        len: (free[kf].len - n) as u32,
    };
    let pruned = free.update(kf, shrunk);
    assert(free[kf].start + free[kf].len <= cap <= u32::MAX);
    assert forall|k: int|
        0 <= k < pruned.len() - 1 implies pruned[k].start + (#[trigger] pruned[k].len)
        < pruned[k + 1].start by {
        assert(free[k].start + free[k].len < free[k + 1].start);
    }
    assert forall|i: int|
        covered(pruned, i) <==> (covered(free, i) && !(free[kf].start <= i < free[kf].start
            + n)) by {
        if covered(pruned, i) {
            let k = choose|k: int| 0 <= k < pruned.len() && #[trigger] in_range(pruned, k, i);
            assert(in_range(free, k, i));
            if k != kf {
                lemma_no_overlap(free, cap, k, kf, i);
            }
        }
        if covered(free, i) && !(free[kf].start <= i < free[kf].start + n) {
            let k = choose|k: int| 0 <= k < free.len() && #[trigger] in_range(free, k, i);
            assert(in_range(pruned, k, i));
        }
    }
}

/// What a removal hands back: the removed run's values, read out before
/// the run's cells were released.
#[derive(Debug)]
pub struct IntervaltreeRemoveGuard<T> {
    values: Vec<T>,
}

impl<T> IntervaltreeRemoveGuard<T> {
    /// The removed values, in run order.
    pub closed spec fn spec_values(&self) -> Seq<T> {
        self.values@
    }

    /// The removed values, in run order.
    pub fn values(&self) -> (r: &Vec<T>)
        ensures
            r@ == self.spec_values(),
    {
        &self.values
    }

    /// Consumes the guard, handing the removed values out.
    pub fn into_values(self) -> (r: Vec<T>)
        ensures
            r@ == self.spec_values(),
    {
        self.values
    }
}

/// The variable-size reuse store: runs of cells allocated leftmost-fit out
/// of an ordered table of maximal free ranges.
pub struct IntervaltreeStore<T> {
    cells: Vec<Option<T>>,
    free: Vec<FreeRange>,
}

impl<T: Copy> IntervaltreeStore<T> {
    /// The cell table: `Some` where a run's value lies, `None` where the
    /// cell is free.
    pub closed spec fn cells(&self) -> Seq<Option<T>> {
        self.cells@
    }

    /// How many cells the store can hold without growing.
    pub closed spec fn cap(&self) -> nat {
        self.cells@.len()
    }

    /// The free-range table, ordered by start offset.
    pub closed spec fn free_ranges(&self) -> Seq<FreeRange> {
        self.free@
    }

    /// Internal well-formedness: the free table is an ordered set of
    /// maximal in-bounds ranges, covering exactly the free cells.
    pub closed spec fn wf(&self) -> bool {
        &&& self.cells@.len() <= u32::MAX
        &&& ranges_wf(self.free@, self.cells@.len() as int)
        &&& forall|i: int|
            0 <= i < self.cells@.len() ==> ((#[trigger] self.cells@[i]) is None <==> covered(
                self.free@,
                i,
            ))
    }

    /// The views cover the same cell table.
    pub proof fn view_props(&self)
        requires
            self.wf(),
        ensures
            self.cells().len() == self.cap(),
            self.cap() <= u32::MAX,
    {
    }

    /// An empty store with no cells at all.
    pub fn new() -> (r: Self)
        ensures
            r.wf(),
            r.cap() == 0,
    {
        IntervaltreeStore { cells: Vec::new(), free: Vec::new() }
    }

    /// An empty store of `capacity` cells, all free.
    pub fn with_capacity(capacity: Length) -> (r: Self)
        ensures
            r.wf(),
            r.cap() == capacity,
            forall|i: int| 0 <= i < capacity ==> r.cells()[i] is None,
    {
        let mut cells: Vec<Option<T>> = Vec::new();
        let n = capacity as usize;
        while cells.len() < n
            invariant
                cells@.len() <= n,
                forall|k: int| 0 <= k < cells@.len() ==> cells@[k] is None,
            decreases n - cells@.len(),
        {
            cells.push(None);
        }
        let mut free: Vec<FreeRange> = Vec::new();
        if capacity > 0 {
            free.push(FreeRange { start: 0, len: capacity });
        }
        let r = IntervaltreeStore { cells, free };
        proof {
            assert forall|i: int|
                0 <= i < r.cells@.len() implies ((#[trigger] r.cells@[i]) is None <==> covered(
                r.free@,
                i,
            )) by {
                if capacity > 0 {
                    assert(in_range(r.free@, 0, i));
                }
            }
        }
        r
    }

    /// The store's reserved capacity.
    pub fn capacity(&self) -> (r: Length)
        requires
            self.wf(),
        ensures
            r == self.cap(),
    {
        self.cells.len() as Length
    }

    /// Copies of the run of `len` values starting at `start`.
    pub fn get_many(&self, start: Index, len: Length) -> (r: SResult<Vec<T>>)
        requires
            self.wf(),
            len >= 1,
        ensures
            match r {
                Ok(v) => {
                    &&& start@ + len <= self.cap()
                    &&& v@.len() == len
                    &&& forall|j: int|
                        0 <= j < len ==> self.cells()[start@ + j] == Some(#[trigger] v@[j])
                },
                Err(e) => {
                    &&& (start@ + len > self.cap() || !run_live(
                        self.cells(),
                        start@,
                        len as int,
                    ))
                    &&& e == (if start@ + len > self.cap() {
                        StoreError::OutOfBounds(start, (self.cap() as Length))
                    } else {
                        StoreError::AccessAfterFree(start)
                    })
                },
            },
    {
        let s = start.get() as usize;
        let n = len as usize;
        if start.get() as u64 + len as u64 > self.cells.len() as u64 {
            return Err(StoreError::OutOfBounds(start, self.cells.len() as Length));
        }
        let mut out: Vec<T> = Vec::new();
        let mut j: usize = 0;
        while j < n
            invariant
                self.wf(),
                s == start@,
                n == len,
                s + n <= self.cells@.len(),
                j <= n,
                out@.len() == j,
                forall|q: int| 0 <= q < j ==> self.cells@[s + q] == Some(#[trigger] out@[q]),
            decreases n - j,
        {
            match &self.cells[s + j] {
                Some(v) => {
                    out.push(*v);
                },
                None => {
                    return Err(StoreError::AccessAfterFree(start));
                },
            }
            j = j + 1;
        }
        Ok(out)
    }

    /// Overwrites one live cell in place; the free table is untouched, so
    /// this never changes which cells are allocated.
    pub fn set_cell(&mut self, at: Index, value: T) -> (r: SResult<()>)
        requires
            old(self).wf(),
        ensures
            final(self).wf(),
            final(self).cap() == old(self).cap(),
            match r {
                Ok(()) => at@ < old(self).cap() && old(self).cells()[at@] is Some && final(self).cells() == old(self).cells().update(at@, Some(value)),
                Err(e) => {
                    &&& final(self).cells() == old(self).cells()
                    &&& (at@ >= old(self).cap() || old(self).cells()[at@] is None)
                    &&& e == (if at@ >= old(self).cap() {
                        StoreError::OutOfBounds(at, (old(self).cap() as Length))
                    } else {
                        StoreError::AccessAfterFree(at)
                    })
                },
            },
    {
        let i = at.get() as usize;
        if i >= self.cells.len() {
            return Err(StoreError::OutOfBounds(at, self.cells.len() as Length));
        }
        match &self.cells[i] {
            Some(_) => {},
            None => {
                return Err(StoreError::AccessAfterFree(at));
            },
        }
        let slot = vstd::std_specs::vec::vec_index_mut(&mut self.cells, i);
        *slot = Some(value);
        proof {
            assert forall|q: int|
                0 <= q < self.cells@.len() implies ((#[trigger] self.cells@[q]) is None
                <==> covered(self.free@, q)) by {
                if q != i {
                    assert(self.cells@[q] == old(self).cells@[q]);
                }
            }
        }
        Ok(())
    }

    /// Inserts the run `values` without growing, into the leftmost free gap
    /// that fits; hands back nothing where no gap fits.
    #[verifier::rlimit(100)]
    #[verifier::spinoff_prover]
    pub fn insert_many_within_capacity(&mut self, values: &Vec<T>) -> (r: Option<Index>)
        requires
            old(self).wf(),
            values@.len() >= 1,
        ensures
            final(self).wf(),
            final(self).cap() == old(self).cap(),
            match r {
                Some(start) => {
                    &&& 0 <= start@ && start@ + values@.len() <= old(self).cap()
                    &&& run_free(old(self).cells(), start@, values@.len() as int)
                    &&& forall|s2: int|
                        0 <= s2 < start@ && s2 + values@.len() <= old(self).cap() ==> !run_free(
                            old(self).cells(),
                            s2,
                            values@.len() as int,
                        )
                    &&& final(self).cells().len() == old(self).cells().len()
                    &&& forall|i: int|
                        0 <= i < old(self).cap() ==> #[trigger] final(self).cells()[i] == (
                        if start@ <= i < start@ + values@.len() {
                            Some(values@[i - start@])
                        } else {
                            old(self).cells()[i]
                        })
                },
                None => final(self).cells() == old(self).cells() && forall|s2: int|
                    0 <= s2 && s2 + values@.len() <= old(self).cap() ==> !run_free(
                        old(self).cells(),
                        s2,
                        values@.len() as int,
                    ),
            },
    {
        let n = values.len();
        let ghost gn = n as int;
        let mut k: usize = 0;
        let mut found = false;
        while !found && k < self.free.len()
            invariant
                self.wf(),
                self == old(self),
                gn == n as int,
                k <= self.free@.len(),
                found ==> k < self.free@.len() && self.free@[k as int].len >= gn,
                forall|j: int| 0 <= j < k ==> (#[trigger] self.free@[j].len) < gn,
            decreases self.free@.len() - k + (if found {
                0int
            } else {
                1int
            }),
        {
            if self.free[k].len as usize >= n {
                found = true;
            } else {
                k = k + 1;
            }
        }
        if !found {
            proof {
                assert forall|s2: int|
                    0 <= s2 && s2 + gn <= self.cap() implies !run_free(
                    self.cells@,
                    s2,
                    gn,
                ) by {
                    if run_free(self.cells@, s2, gn) {
                        lemma_run_in_one_range(self.cells@, self.free@, s2, gn);
                        let kk = choose|kk: int|
                            0 <= kk < self.free@.len() && self.free@[kk].start <= s2 && s2 + gn
                                <= self.free@[kk].start + self.free@[kk].len;
                        assert(self.free@[kk].len < gn);
                        assert(false);
                    }
                }
            }
            return None;
        }
        let chosen = self.free[k];
        let start = chosen.start;
        let start_index = Index::new(start).unwrap();
        proof {
            assert(in_range(self.free@, k as int, start as int));
            assert(covered(self.free@, start as int));
            assert forall|j: int| start <= j < start + gn implies self.cells@[j] is None by {
                assert(in_range(self.free@, k as int, j));
                assert(covered(self.free@, j));
            }
            if chosen.len == gn {
                lemma_carve_all(self.free@, self.cells@.len() as int, k as int);
            } else {
                lemma_carve_front(self.free@, self.cells@.len() as int, k as int, gn);
            }
        }
        if chosen.len as usize == n {
            self.free.remove(k);
        } else {
            let slot = vstd::std_specs::vec::vec_index_mut(&mut self.free, k);
            *slot = FreeRange { start: start + n as u32, len: chosen.len - n as u32 };
        }
        let ghost mid_free = self.free@;
        let ghost mid_cells = self.cells@;
        let cl = self.cells.len();
        let mut j: usize = 0;
        while j < n
            invariant
                j <= n,
                n == values@.len(),
                gn == n as int,
                self.free@ == mid_free,
                self.cells@.len() == mid_cells.len(),
                self.cells@.len() == cl,
                start as int + gn <= cl as int,
                forall|i: int|
                    0 <= i < self.cells@.len() && !(start <= i < start + j) ==> #[trigger] self
                        .cells@[i] == mid_cells[i],
                forall|i: int|
                    start <= i < start + j ==> #[trigger] self.cells@[i] == Some(
                        values@[i - start],
                    ),
            decreases n - j,
        {
            let slot = vstd::std_specs::vec::vec_index_mut(&mut self.cells, start as usize + j);
            *slot = Some(values[j]);
            j = j + 1;
        }
        proof {
            assert forall|s2: int|
                0 <= s2 < start && s2 + gn <= old(self).cap() implies !run_free(
                old(self).cells(),
                s2,
                gn,
            ) by {
                if run_free(old(self).cells@, s2, gn) {
                    lemma_run_in_one_range(old(self).cells@, old(self).free@, s2, gn);
                    let k2 = choose|k2: int|
                        0 <= k2 < old(self).free@.len() && old(self).free@[k2].start <= s2 && s2
                            + gn <= old(self).free@[k2].start + old(self).free@[k2].len;
                    if k2 < k {
                        assert(old(self).free@[k2].len < gn);
                        assert(false);
                    } else if k2 == k {
                        assert(old(self).free@[k as int] == chosen);
                        assert(chosen.start == start);
                        assert(old(self).free@[k2].start <= s2);
                        assert(s2 < start);
                        assert(false);
                    } else {
                        lemma_range_order(
                            old(self).free@,
                            old(self).cells@.len() as int,
                            k as int,
                            k2,
                        );
                        assert(old(self).free@[k as int] == chosen);
                        assert(chosen.len >= 1);
                        assert(old(self).free@[k2].start > start);
                        assert(old(self).free@[k2].start <= s2);
                        assert(s2 < start);
                        assert(false);
                    }
                }
            }
            if chosen.len == gn {
                assert(self.free@ == old(self).free@.remove(k as int));
                assert forall|i: int|
                    0 <= i < self.cells@.len() implies ((#[trigger] self.cells@[i]) is None
                    <==> covered(self.free@, i)) by {
                    assert(covered(old(self).free@.remove(k as int), i) <==> (covered(
                        old(self).free@,
                        i,
                    ) && !in_range(old(self).free@, k as int, i)));
                    if start <= i < start + gn {
                        assert(self.cells@[i] is Some);
                        assert(in_range(old(self).free@, k as int, i));
                    } else {
                        assert(self.cells@[i] == old(self).cells@[i]);
                        if in_range(old(self).free@, k as int, i) {
                            assert(start <= i < start + gn);
                        }
                    }
                }
            } else {
                let shrunk = FreeRange {
                    start: (old(self).free@[k as int].start + gn) as u32,
                    len: (old(self).free@[k as int].len - gn) as u32,
                };
                assert(self.free@ == old(self).free@.update(k as int, shrunk));
                assert forall|i: int|
                    0 <= i < self.cells@.len() implies ((#[trigger] self.cells@[i]) is None
                    <==> covered(self.free@, i)) by {
                    assert(covered(old(self).free@.update(k as int, shrunk), i) <==> (covered(
                        old(self).free@,
                        i,
                    ) && !(old(self).free@[k as int].start <= i < old(self).free@[k as int].start
                        + gn)));
                    if start <= i < start + gn {
                        assert(self.cells@[i] is Some);
                    } else {
                        assert(self.cells@[i] == old(self).cells@[i]);
                    }
                }
            }
        }
        Some(start_index)
    }

    /// Removes the run of `len` values starting at `start`, handing the
    /// values back and merging the freed run with either adjacent free
    /// neighbour (up to three free ranges become one).
    #[verifier::rlimit(100)]
    #[verifier::spinoff_prover]
    pub fn remove_many(&mut self, start: Index, len: Length) -> (r: SResult<
        IntervaltreeRemoveGuard<T>,
    >)
        requires
            old(self).wf(),
            len >= 1,
        ensures
            final(self).wf(),
            final(self).cap() == old(self).cap(),
            match r {
                Ok(g) => {
                    &&& start@ + len <= old(self).cap()
                    &&& run_live(old(self).cells(), start@, len as int)
                    &&& g.spec_values().len() == len
                    &&& forall|j: int|
                        0 <= j < len ==> old(self).cells()[start@ + j] == Some(
                            #[trigger] g.spec_values()[j],
                        )
                    &&& forall|i: int|
                        0 <= i < old(self).cap() ==> #[trigger] final(self).cells()[i] == (
                        if start@ <= i < start@ + len {
                            None
                        } else {
                            old(self).cells()[i]
                        })
                },
                Err(e) => {
                    &&& final(self).cells() == old(self).cells()
                    &&& (start@ + len > old(self).cap() || !run_live(
                        old(self).cells(),
                        start@,
                        len as int,
                    ))
                    &&& e == (if start@ + len > old(self).cap() {
                        StoreError::OutOfBounds(start, (old(self).cap() as Length))
                    } else {
                        StoreError::AccessAfterFree(start)
                    })
                },
            },
    {
        let s32 = start.get();
        let s = s32 as usize;
        let n = len as usize;
        let ghost gn = len as int;
        if s32 as u64 + len as u64 > self.cells.len() as u64 {
            return Err(StoreError::OutOfBounds(start, self.cells.len() as Length));
        }
        let mut values: Vec<T> = Vec::new();
        let mut j: usize = 0;
        while j < n
            invariant
                self.wf(),
                self == old(self),
                s == s32 as int,
                s32 as int == start@,
                n == gn,
                gn == len as int,
                s + n <= self.cells@.len(),
                j <= n,
                values@.len() == j,
                forall|q: int| 0 <= q < j ==> self.cells@[s + q] == Some(#[trigger] values@[q]),
            decreases n - j,
        {
            match &self.cells[s + j] {
                Some(v) => {
                    values.push(*v);
                },
                None => {
                    return Err(StoreError::AccessAfterFree(start));
                },
            }
            j = j + 1;
        }
        let ghost old_cells = self.cells@;
        let ghost old_free = self.free@;
        proof {
            assert forall|q: int| s32 <= q < s32 + gn implies (#[trigger] old_cells[q]) is Some by {
                assert(old_cells[s + (q - s32)] == Some(values@[q - s32]));
            }
        }
        // clear the run
        let cl = self.cells.len();
        let mut w: usize = 0;
        while w < n
            invariant
                w <= n,
                n == gn,
                s == s32 as int,
                s + n <= cl,
                self.free@ == old_free,
                self.cells@.len() == old_cells.len(),
                self.cells@.len() == cl,
                forall|i: int|
                    0 <= i < self.cells@.len() && !(s <= i < s + w) ==> #[trigger] self.cells@[i]
                        == old_cells[i],
                forall|i: int| s <= i < s + w ==> (#[trigger] self.cells@[i]) is None,
            decreases n - w,
        {
            let slot = vstd::std_specs::vec::vec_index_mut(&mut self.cells, s + w);
            *slot = None;
            w = w + 1;
        }
        // find the insertion position in the ordered free table
        let mut pos: usize = 0;
        while pos < self.free.len() && self.free[pos].start < s32
            invariant
                self.free@ == old_free,
                pos <= old_free.len(),
                forall|q: int| 0 <= q < pos ==> (#[trigger] old_free[q].start) < s32,
            decreases old_free.len() - pos,
        {
            pos = pos + 1;
        }
        proof {
            // the freed run was live, so no free range reaches into it
            assert forall|q: int| 0 <= q < old_free.len() implies !(old_free[q].start <= s32
                < old_free[q].start + (#[trigger] old_free[q].len)) by {
                if in_range(old_free, q, s32 as int) {
                    assert(covered(old_free, s32 as int));
                    assert(old_cells[s32 as int] is None);
                    assert(old_cells[s32 as int] is Some);
                }
            }
        }
        let merge_left = pos > 0 && {
            let left = self.free[pos - 1];
            left.start + left.len == s32
        };
        let merge_right = pos < self.free.len() && self.free[pos].start == s32 + len;
        proof {
            if pos > 0 && !merge_left {
                // the left neighbour ends strictly before the run
                if old_free[pos - 1].start + old_free[pos - 1].len > s32 {
                    assert(in_range(old_free, pos - 1, s32 as int));
                }
            }
            if pos < old_free.len() && !merge_right {
                // the right neighbour starts strictly after the run
                if old_free[pos as int].start < s32 + gn {
                    assert(in_range(old_free, pos as int, old_free[pos as int].start as int));
                    assert(covered(old_free, old_free[pos as int].start as int));
                    assert(old_cells[old_free[pos as int].start as int] is Some);
                }
            }
        }
        let new_start = if merge_left {
            self.free[pos - 1].start
        } else {
            s32
        };
        let new_end = if merge_right {
            let right = self.free[pos];
            right.start + right.len
        } else {
            s32 + len
        };
        let merged = FreeRange { start: new_start, len: new_end - new_start };
        let ghost lo = if merge_left {
            pos - 1
        } else {
            pos as int
        };
        let ghost hi = if merge_right {
            pos + 1
        } else {
            pos as int
        };
        if merge_left && merge_right {
            let slot = vstd::std_specs::vec::vec_index_mut(&mut self.free, pos - 1);
            *slot = merged;
            self.free.remove(pos);
        } else if merge_left {
            let slot = vstd::std_specs::vec::vec_index_mut(&mut self.free, pos - 1);
            *slot = merged;
        } else if merge_right {
            let slot = vstd::std_specs::vec::vec_index_mut(&mut self.free, pos);
            *slot = merged;
        } else {
            self.free.insert(pos, merged);
        }
        proof {
            let merged_seq = old_free.subrange(0, lo) + seq![merged] + old_free.subrange(
                hi,
                old_free.len() as int,
            );
            assert(self.free@ =~= merged_seq);
            assert(0 <= lo <= hi <= old_free.len());
            assert(merged.len >= 1);
            assert(merged.start + merged.len <= old_cells.len());
            if lo > 0 {
                if merge_left {
                    assert(old_free[lo - 1].start + (old_free[lo - 1].len) < old_free[lo].start);
                } else {
                    assert(!(old_free[lo - 1].start <= s32 < old_free[lo - 1].start + (old_free[lo
                        - 1].len)));
                    assert(old_free[lo - 1].start < s32);
                }
                assert(old_free[lo - 1].start + old_free[lo - 1].len < merged.start);
            }
            if hi < old_free.len() {
                if merge_right {
                    assert(old_free[hi - 1].start + (old_free[hi - 1].len) < old_free[hi].start);
                } else {
                    assert(!(old_free[hi].start <= s32 < old_free[hi].start + (old_free[hi].len)));
                    assert(old_free[hi].start >= s32);
                }
                assert(merged.start + merged.len < old_free[hi].start);
            }
            if merge_left && merge_right {
                assert(hi == lo + 2 && old_free[lo].start + old_free[lo].len == s32 && old_free[lo
                    + 1].start == s32 + gn && merged.start == old_free[lo].start && merged.start
                    + merged.len == old_free[lo + 1].start + old_free[lo + 1].len);
            } else if merge_left {
                assert(hi == lo + 1 && old_free[lo].start + old_free[lo].len == s32
                    && merged.start == old_free[lo].start && merged.start + merged.len == s32
                    + gn);
            } else if merge_right {
                assert(hi == lo + 1 && old_free[lo].start == s32 + gn && merged.start == s32
                    && merged.start + merged.len == old_free[lo].start + old_free[lo].len);
            } else {
                assert(hi == lo && merged.start == s32 && merged.start + merged.len == s32 + gn);
            }
            lemma_splice(
                old_free,
                old_cells.len() as int,
                lo,
                hi,
                merged,
                s32 as int,
                gn,
            );
            assert forall|i: int|
                0 <= i < self.cells@.len() implies ((#[trigger] self.cells@[i]) is None
                <==> covered(self.free@, i)) by {
                assert(covered(merged_seq, i) <==> (covered(old_free, i) || s32 <= i < s32 + gn));
                assert(covered(self.free@, i) == covered(merged_seq, i));
                if s32 <= i < s32 + gn {
                    assert(self.cells@[i] is None);
                } else {
                    assert(self.cells@[i] == old_cells[i]);
                }
            }
        }
        Ok(IntervaltreeRemoveGuard { values })
    }

    /// Grows the store to a capacity of at least `new_capacity` (with the
    /// usual doubling); the new cells are free, merged with a trailing free
    /// range if one touches the old end.  A request at or below the current
    /// capacity is rejected as a narrowing.
    pub fn widen(&mut self, new_capacity: Length) -> (r: SResult<()>)
        requires
            old(self).wf(),
        ensures
            final(self).wf(),
            match r {
                Ok(()) => {
                    &&& new_capacity > old(self).cap()
                    &&& final(self).cap() == grow_target(
                        old(self).cap() as int,
                        new_capacity as int,
                    )
                    &&& forall|i: int|
                        0 <= i < old(self).cap() ==> #[trigger] final(self).cells()[i] == old(self).cells()[i]
                    &&& forall|i: int|
                        old(self).cap() <= i < final(self).cap() ==> (#[trigger] final(self).cells()[i]) is None
                },
                Err(e) => {
                    &&& final(self).cells() == old(self).cells()
                    &&& new_capacity <= old(self).cap()
                    &&& e == StoreError::Narrow(new_capacity, (old(self).cap() as Length))
                },
            },
    {
        let old_cap = self.cells.len() as Length;
        if new_capacity <= old_cap {
            return Err(StoreError::Narrow(new_capacity, old_cap));
        }
        let doubled: u64 = if 2 * (old_cap as u64) > new_capacity as u64 {
            2 * (old_cap as u64)
        } else {
            new_capacity as u64
        };
        let target64: u64 = if doubled > u32::MAX as u64 {
            u32::MAX as u64
        } else {
            doubled
        };
        let target = target64 as u32;
        let ghost old_cells = self.cells@;
        let ghost old_free = self.free@;
        let tu = target as usize;
        while self.cells.len() < tu
            invariant
                self.free@ == old_free,
                old_cells.len() <= self.cells@.len() <= tu,
                forall|i: int| 0 <= i < old_cells.len() ==> #[trigger] self.cells@[i] == old_cells[i],
                forall|i: int|
                    old_cells.len() <= i < self.cells@.len() ==> (#[trigger] self.cells@[i]) is None,
            decreases tu - self.cells@.len(),
        {
            self.cells.push(None);
        }
        let flen = self.free.len();
        let touches_end = flen > 0 && {
            let last = self.free[flen - 1];
            last.start + last.len == old_cap
        };
        if touches_end {
            let last = self.free[flen - 1];
            let slot = vstd::std_specs::vec::vec_index_mut(&mut self.free, flen - 1);
            *slot = FreeRange { start: last.start, len: target - last.start };
            proof {
                let f2 = self.free@;
                assert forall|i: int|
                    0 <= i < self.cells@.len() implies ((#[trigger] self.cells@[i]) is None
                    <==> covered(f2, i)) by {
                    if covered(f2, i) {
                        let k = choose|k: int| 0 <= k < f2.len() && #[trigger] in_range(f2, k, i);
                        if k < flen - 1 {
                            assert(in_range(old_free, k, i));
                            assert(covered(old_free, i));
                        } else {
                            if i < old_cap {
                                assert(in_range(old_free, k, i));
                                assert(covered(old_free, i));
                            }
                        }
                    }
                    if i < old_cap && covered(old_free, i) {
                        let k = choose|k: int|
                            0 <= k < old_free.len() && #[trigger] in_range(old_free, k, i);
                        assert(in_range(f2, k, i));
                    }
                    if i >= old_cap {
                        assert(in_range(f2, flen - 1, i));
                    }
                }
            }
        } else {
            self.free.push(FreeRange { start: old_cap, len: target - old_cap });
            proof {
                let f2 = self.free@;
                assert forall|k: int|
                    0 <= k < f2.len() - 1 implies f2[k].start + (#[trigger] f2[k].len) < f2[k
                    + 1].start by {
                    if k + 1 < f2.len() - 1 {
                        assert(old_free[k].start + old_free[k].len < old_free[k + 1].start);
                    } else {
                        if flen > 0 {
                            assert(f2[k] == old_free[k]);
                            assert(old_free[k].start + old_free[k].len <= old_cap);
                        }
                    }
                }
                assert forall|i: int|
                    0 <= i < self.cells@.len() implies ((#[trigger] self.cells@[i]) is None
                    <==> covered(f2, i)) by {
                    if covered(f2, i) {
                        let k = choose|k: int| 0 <= k < f2.len() && #[trigger] in_range(f2, k, i);
                        if k < flen {
                            assert(in_range(old_free, k, i));
                            assert(covered(old_free, i));
                        }
                    }
                    if i < old_cap && covered(old_free, i) {
                        let k = choose|k: int|
                            0 <= k < old_free.len() && #[trigger] in_range(old_free, k, i);
                        assert(in_range(f2, k, i));
                    }
                    if i >= old_cap {
                        assert(in_range(f2, flen as int, i));
                    }
                }
            }
        }
        Ok(())
    }

    /// Logically empties the store without releasing the reserved capacity:
    /// every cell becomes free again, as one maximal range.  Live content is
    /// not dropped through this path and may leak.
    pub fn clear(&mut self)
        requires
            old(self).wf(),
        ensures
            final(self).wf(),
            final(self).cap() == old(self).cap(),
            forall|i: int| 0 <= i < old(self).cap() ==> (#[trigger] final(self).cells()[i]) is None,
    {
        let cap = self.cells.len();
        let mut w: usize = 0;
        while w < cap
            invariant
                self.cells@.len() == cap,
                w <= cap,
                forall|i: int| 0 <= i < w ==> (#[trigger] self.cells@[i]) is None,
                forall|i: int| w <= i < cap ==> self.cells@[i] == old(self).cells@[i],
            decreases cap - w,
        {
            let slot = vstd::std_specs::vec::vec_index_mut(&mut self.cells, w);
            *slot = None;
            w = w + 1;
        }
        self.free = Vec::new();
        if cap > 0 {
            self.free.push(FreeRange { start: 0, len: cap as Length });
        }
        proof {
            assert forall|i: int|
                0 <= i < self.cells@.len() implies ((#[trigger] self.cells@[i]) is None
                <==> covered(self.free@, i)) by {
                if cap > 0 {
                    assert(in_range(self.free@, 0, i) == (0 <= i < cap));
                }
            }
        }
    }
}

} // verus!

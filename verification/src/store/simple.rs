//! The append-only store: rows are only ever bump-allocated, never reused.

use vstd::prelude::*;

use crate::errors::{SResult, StoreError};
use crate::index::{Index, Length};
use crate::store::{GetDisjointMut, Store};

verus! {

/// The slot table that a dense row vector `d` presents at capacity `cap`:
/// one live entry per stored row, `None` for the untouched tail.
pub open spec fn dense_slots_of<T>(d: Seq<T>, cap: nat) -> Seq<Option<T>> {
    Seq::new(
        cap,
        (|i: int|
            if 0 <= i < d.len() {
                Some(d[i])
            } else {
                None
            }),
    )
}

/// Updating a stored row updates its slot and nothing else.
proof fn lemma_dense_update<T>(d: Seq<T>, cap: nat, i: int, v: T)
    requires
        0 <= i < d.len(),
        d.len() <= cap,
    ensures
        dense_slots_of(d.update(i, v), cap) == dense_slots_of(d, cap).update(i, Some(v)),
{
    assert(dense_slots_of(d.update(i, v), cap) =~= dense_slots_of(d, cap).update(i, Some(v)));
}

/// Appending a row fills the first untouched slot and nothing else.
proof fn lemma_dense_push<T>(d: Seq<T>, cap: nat, v: T)
    requires
        d.len() < cap,
    ensures
        dense_slots_of(d.push(v), cap) == dense_slots_of(d, cap).update(d.len() as int, Some(v)),
{
    assert(dense_slots_of(d.push(v), cap) =~= dense_slots_of(d, cap).update(
        d.len() as int,
        Some(v),
    ));
}

/// Raising the capacity pads the slot table with untouched slots.
proof fn lemma_dense_grow<T>(d: Seq<T>, cap: nat, cap2: nat)
    requires
        d.len() <= cap <= cap2,
    ensures
        dense_slots_of(d, cap2) == dense_slots_of(d, cap) + Seq::new(
            (cap2 - cap) as nat,
            (|i: int| None::<T>),
        ),
{
    assert(dense_slots_of(d, cap2) =~= dense_slots_of(d, cap) + Seq::new(
        (cap2 - cap) as nat,
        (|i: int| None::<T>),
    ));
}

/// An emptied row vector presents only untouched slots.
proof fn lemma_dense_empty<T>(cap: nat)
    ensures
        dense_slots_of(Seq::<T>::empty(), cap) == Seq::new(cap, (|i: int| None::<T>)),
{
    assert(dense_slots_of(Seq::<T>::empty(), cap) =~= Seq::new(cap, (|i: int| None::<T>)));
}

/// An append-only store: insertion takes the next untouched row while
/// capacity remains, and there is no removal.
#[derive(Debug)]
pub struct SimpleStore<T> {
    data: Vec<T>,
    cap: Length,
}

impl<T> SimpleStore<T> {
    /// An empty store with no reserved capacity.
    pub fn new() -> (r: Self)
        ensures
            r.wf(),
            r.cap() == 0,
            r.extent() == 0,
            r.free_seq() == Seq::<int>::empty(),
            r.slots() == Seq::<Option<T>>::empty(),
    {
        let r = SimpleStore { data: Vec::new(), cap: 0 };
        proof {
            assert(r.slots() =~= Seq::<Option<T>>::empty());
        }
        r
    }

    /// An empty store that can hold `capacity` rows before growing.
    pub fn with_capacity(capacity: Length) -> (r: Self)
        ensures
            r.wf(),
            r.cap() == capacity,
            r.extent() == 0,
            r.free_seq() == Seq::<int>::empty(),
            r.slots() == Seq::new(capacity as nat, (|i: int| None::<T>)),
    {
        let r = SimpleStore { data: Vec::new(), cap: capacity };
        proof {
            assert(r.slots() =~= Seq::new(capacity as nat, (|i: int| None::<T>)));
        }
        r
    }
}

impl<T> Default for SimpleStore<T> {
    /// An empty store with no reserved capacity.
    fn default() -> (r: Self)
        ensures
            r.wf(),
            r.cap() == 0,
            r.extent() == 0,
            r.free_seq() == Seq::<int>::empty(),
            r.slots() == Seq::<Option<T>>::empty(),
    {
        SimpleStore::new()
    }
}

impl<T> Store<T> for SimpleStore<T> {
    fn new_store() -> (s: Self) {
        let s = SimpleStore::new();
        proof {
            assert(s.slots() =~= Seq::<Option<T>>::empty());
            assert(s.free_seq() =~= Seq::<int>::empty());
        }
        s
    }

    closed spec fn cap(&self) -> nat {
        self.cap as nat
    }

    closed spec fn extent(&self) -> nat {
        self.data@.len()
    }

    closed spec fn slots(&self) -> Seq<Option<T>> {
        dense_slots_of(self.data@, self.cap as nat)
    }

    closed spec fn free_seq(&self) -> Seq<int> {
        Seq::empty()
    }

    closed spec fn wf(&self) -> bool {
        self.data@.len() <= self.cap
    }

    proof fn view_props(&self) {
    }

    fn capacity(&self) -> (r: Length) {
        self.cap
    }

    fn get(&self, index: Index) -> (r: SResult<&T>) {
        let i = index.get() as usize;
        if i < self.data.len() {
            Ok(&self.data[i])
        } else {
            Err(StoreError::OutOfBounds(index, self.data.len() as Length))
        }
    }

    fn get_mut(&mut self, index: Index) -> (r: SResult<&mut T>) {
        let i = index.get() as usize;
        let len = self.data.len();
        if i < len {
            let v = vstd::std_specs::vec::vec_index_mut(&mut self.data, i);
            proof {
                lemma_dense_update(old(self).data@, old(self).cap as nat, i as int, *final(v));
            }
            Ok(v)
        } else {
            Err(StoreError::OutOfBounds(index, len as Length))
        }
    }

    fn insert_within_capacity(&mut self, data: T) -> (r: Result<Index, T>) {
        let len = self.data.len();
        if len == self.cap as usize {
            return Err(data);
        }
        proof {
            lemma_dense_push(old(self).data@, old(self).cap as nat, data);
        }
        self.data.push(data);
        let index = Index::new(len as u32).unwrap();
        Ok(index)
    }

    fn widen(&mut self, new_capacity: Length) -> (r: SResult<()>) {
        if new_capacity <= self.cap {
            return Ok(());
        }
        let doubled: u64 = if 2 * (self.cap as u64) > new_capacity as u64 {
            2 * (self.cap as u64)
        } else {
            new_capacity as u64
        };
        let target: u64 = if doubled > u32::MAX as u64 {
            u32::MAX as u64
        } else {
            doubled
        };
        proof {
            lemma_dense_grow(old(self).data@, old(self).cap as nat, target as nat);
        }
        self.cap = target as u32;
        Ok(())
    }

    fn clear(&mut self) {
        self.data.clear();
        proof {
            lemma_dense_empty::<T>(old(self).cap as nat);
        }
    }
}

impl<T> GetDisjointMut<T> for SimpleStore<T> {
    fn get_pair_mut(&mut self, i: Index, j: Index) -> (r: SResult<(&mut T, &mut T)>) {
        let ii = i.get() as usize;
        let jj = j.get() as usize;
        let len = self.data.len();
        if ii == jj || ii >= len || jj >= len {
            return Err(StoreError::DisjointError);
        }
        let (a, b) = vec_pair_mut(&mut self.data, ii, jj);
        proof {
            lemma_dense_update(old(self).data@, old(self).cap as nat, ii as int, *final(a));
            lemma_dense_update(
                old(self).data@.update(ii as int, *final(a)),
                old(self).cap as nat,
                jj as int,
                *final(b),
            );
        }
        Ok((a, b))
    }
}

/// Mutable borrows of two distinct elements of one vector at once, carved
/// out of the vector's backing slice.
pub fn vec_pair_mut<T>(data: &mut Vec<T>, i: usize, j: usize) -> (r: (&mut T, &mut T))
    requires
        i < old(data).len(),
        j < old(data).len(),
        i != j,
    ensures
        *r.0 == old(data)@[i as int],
        *r.1 == old(data)@[j as int],
        final(data)@ == old(data)@.update(i as int, *final(r.0)).update(j as int, *final(r.1)),
{
    let s = data.as_mut_slice();
    if i < j {
        let (left, right) = s.split_at_mut(j);
        let b = slice_head_mut(right);
        let (unsplit, r2) = left.split_at_mut(i);
        let a = slice_head_mut(r2);
        proof {
            let _ = unsplit;
            lemma_three_part_update(old(data)@, i as int, j as int, *final(a), *final(b));
        }
        (a, b)
    } else {
        let (left, right) = s.split_at_mut(i);
        let a = slice_head_mut(right);
        let (unsplit, r2) = left.split_at_mut(j);
        let b = slice_head_mut(r2);
        proof {
            let _ = unsplit;
            lemma_three_part_update(old(data)@, j as int, i as int, *final(b), *final(a));
            assert(old(data)@.update(j as int, *final(b)).update(i as int, *final(a))
                =~= old(data)@.update(i as int, *final(a)).update(j as int, *final(b)));
        }
        (a, b)
    }
}

/// Splitting a sequence at two points, overwriting the head of each tail
/// part, and gluing the parts back together updates exactly those two
/// positions.
proof fn lemma_three_part_update<T>(s: Seq<T>, i: int, j: int, va: T, vb: T)
    requires
        0 <= i < j < s.len(),
    ensures
        s.subrange(0, i) + s.subrange(i, j).update(0, va) + s.subrange(j, s.len() as int).update(
            0,
            vb,
        ) == s.update(i, va).update(j, vb),
{
    assert(s.subrange(0, i) + s.subrange(i, j).update(0, va) + s.subrange(
        j,
        s.len() as int,
    ).update(0, vb) =~= s.update(i, va).update(j, vb));
}

/// A mutable borrow of the first element of a non-empty slice.
fn slice_head_mut<T>(s: &mut [T]) -> (r: &mut T)
    requires
        old(s).len() > 0,
    ensures
        *r == old(s)@[0],
        final(s)@ == old(s)@.update(0, *final(r)),
{
    s.first_mut().unwrap()
}

} // verus!

//! The single-type reuse store: freed rows form a singly-linked LIFO list
//! whose "next free" link is stored inside the freed row's own entry, so
//! reuse tracking costs no extra space.

use vstd::prelude::*;
use vstd::pervasive::unreached;

use crate::errors::{SResult, StoreError};
use crate::index::{Index, Length};
use crate::store::{GetDisjointMut, ReusableStore, Store};

verus! {

/// One row of a [`FreelistStore`]: either a live element, or a freed row
/// holding the link to the next freed row — the tagged union standing for
/// the in-place reinterpretation of a freed row's storage as link space.
#[derive(Debug, PartialEq, Eq)]
pub enum Entry<T> {
    /// A live element.
    Occupied(T),
    /// A freed row; the payload is the next link of the freelist.
    Free(Option<Index>),
}

/// The element a row presents: its value if live, nothing if freed.
pub open spec fn entry_slot<T>(e: Entry<T>) -> Option<T> {
    match e {
        Entry::Occupied(x) => Some(x),
        Entry::Free(_) => None,
    }
}

/// The freelist link a freed row holds.
pub open spec fn entry_link<T>(e: Entry<T>) -> Option<Index> {
    match e {
        Entry::Occupied(_) => None,
        Entry::Free(l) => l,
    }
}

/// The slot table that an entry vector `d` presents at capacity `cap`.
pub open spec fn entry_slots_of<T>(d: Seq<Entry<T>>, cap: nat) -> Seq<Option<T>> {
    Seq::new(
        cap,
        (|i: int|
            if 0 <= i < d.len() {
                entry_slot(d[i])
            } else {
                None
            }),
    )
}

/// The link stored in chain entry `k` points to chain entry `k + 1`, or
/// nowhere at the chain's end.
pub open spec fn link_ok<T>(d: Seq<Entry<T>>, c: Seq<int>, k: int) -> bool {
    match entry_link(d[c[k]]) {
        Some(ix) => k + 1 < c.len() && ix@ == c[k + 1],
        None => k + 1 == c.len(),
    }
}

/// The freelist chain `c` is exactly the freed rows of `d`, threaded from
/// `head` through the links stored in the freed rows themselves.
pub open spec fn chain_wf<T>(d: Seq<Entry<T>>, head: Option<Index>, c: Seq<int>) -> bool {
    &&& match head {
        Some(h) => c.len() > 0 && c[0] == h@,
        None => c.len() == 0,
    }
    &&& forall|k: int| 0 <= k < c.len() ==> 0 <= #[trigger] c[k] < d.len() && d[c[k]] is Free
    &&& forall|k: int| 0 <= k < c.len() ==> #[trigger] link_ok(d, c, k)
    &&& forall|k1: int, k2: int|
        0 <= k1 < c.len() && 0 <= k2 < c.len() && k1 != k2 ==> c[k1] != c[k2]
    &&& forall|i: int| 0 <= i < d.len() && (#[trigger] d[i]) is Free ==> c.contains(i)
}

/// Updating a live row with a live row leaves the freelist chain intact.
proof fn lemma_chain_keeps_occupied<T>(
    d: Seq<Entry<T>>,
    head: Option<Index>,
    c: Seq<int>,
    i: int,
    e: Entry<T>,
)
    requires
        chain_wf(d, head, c),
        0 <= i < d.len(),
        d[i] is Occupied,
        e is Occupied,
    ensures
        chain_wf(d.update(i, e), head, c),
{
    let d2 = d.update(i, e);
    assert forall|k: int| 0 <= k < c.len() implies #[trigger] link_ok(d2, c, k) by {
        assert(link_ok(d, c, k));
        assert(c[k] != i);
    }
    assert forall|j: int| 0 <= j < d2.len() && (#[trigger] d2[j]) is Free implies c.contains(j) by {
        assert(j != i);
        assert(d[j] is Free);
    }
}

/// Popping the head of the freelist: the head row becomes live, the chain
/// loses its first entry, and the stored link becomes the new head.
proof fn lemma_chain_pop<T>(d: Seq<Entry<T>>, h: Index, c: Seq<int>, v: T)
    requires
        chain_wf(d, Some(h), c),
    ensures
        chain_wf(d.update(h@, Entry::Occupied(v)), entry_link(d[h@]), c.drop_first()),
{
    let d2 = d.update(h@, Entry::Occupied(v));
    let c2 = c.drop_first();
    assert(c[0] == h@);
    assert(link_ok(d, c, 0));
    assert forall|k: int| 0 <= k < c2.len() implies 0 <= #[trigger] c2[k] < d2.len()
        && d2[c2[k]] is Free by {
        assert(c2[k] == c[k + 1]);
        assert(c[k + 1] != c[0]);
    }
    assert forall|k: int| 0 <= k < c2.len() implies #[trigger] link_ok(d2, c2, k) by {
        assert(link_ok(d, c, k + 1));
        assert(c[k + 1] != c[0]);
        assert(d2[c2[k]] == d[c[k + 1]]);
        if k + 2 < c.len() {
            assert(c2[k + 1] == c[k + 2]);
        }
    }
    assert forall|j: int| 0 <= j < d2.len() && (#[trigger] d2[j]) is Free implies c2.contains(
        j,
    ) by {
        assert(j != c[0]);
        assert(d[j] is Free);
        assert(c.contains(j));
        let k = choose|k: int| 0 <= k < c.len() && c[k] == j;
        assert(k != 0);
        assert(c2[k - 1] == j);
    }
}

/// Freeing a live row pushes it onto the front of the chain, with the old
/// head stored as its link.
proof fn lemma_chain_push<T>(d: Seq<Entry<T>>, head: Option<Index>, c: Seq<int>, index: Index)
    requires
        chain_wf(d, head, c),
        0 <= index@ < d.len(),
        d[index@] is Occupied,
    ensures
        chain_wf(d.update(index@, Entry::Free(head)), Some(index), seq![index@] + c),
{
    let d2 = d.update(index@, Entry::Free(head));
    let c2 = seq![index@] + c;
    assert forall|k: int| 0 <= k < c2.len() implies 0 <= #[trigger] c2[k] < d2.len()
        && d2[c2[k]] is Free by {
        if k > 0 {
            assert(c2[k] == c[k - 1]);
            assert(c[k - 1] != index@);
        }
    }
    assert forall|k: int| 0 <= k < c2.len() implies #[trigger] link_ok(d2, c2, k) by {
        if k == 0 {
            assert(d2[c2[0]] == Entry::<T>::Free(head));
            match head {
                Some(h) => {
                    assert(c[0] == h@);
                    assert(c2[1] == c[0]);
                },
                None => {},
            }
        } else {
            assert(link_ok(d, c, k - 1));
            assert(c[k - 1] != index@);
            assert(d2[c2[k]] == d[c[k - 1]]);
            if k < c.len() {
                assert(c2[k + 1] == c[k]);
            }
        }
    }
    assert forall|k1: int, k2: int|
        0 <= k1 < c2.len() && 0 <= k2 < c2.len() && k1 != k2 implies c2[k1] != c2[k2] by {
        if k1 > 0 && k2 > 0 {
            assert(c2[k1] == c[k1 - 1]);
            assert(c2[k2] == c[k2 - 1]);
        } else if k1 == 0 {
            assert(c2[k2] == c[k2 - 1]);
            assert(c[k2 - 1] != index@);
        } else {
            assert(c2[k1] == c[k1 - 1]);
            assert(c[k1 - 1] != index@);
        }
    }
    assert forall|j: int| 0 <= j < d2.len() && (#[trigger] d2[j]) is Free implies c2.contains(
        j,
    ) by {
        if j == index@ {
            assert(c2[0] == j);
        } else {
            assert(d[j] is Free);
            let k = choose|k: int| 0 <= k < c.len() && c[k] == j;
            assert(c2[k + 1] == j);
        }
    }
}

/// Updating one live slot of the entry table updates its slot view alone.
proof fn lemma_entry_slots_update<T>(d: Seq<Entry<T>>, cap: nat, i: int, e: Entry<T>)
    requires
        0 <= i < d.len(),
        d.len() <= cap,
    ensures
        entry_slots_of(d.update(i, e), cap) == entry_slots_of(d, cap).update(i, entry_slot(e)),
{
    assert(entry_slots_of(d.update(i, e), cap) =~= entry_slots_of(d, cap).update(
        i,
        entry_slot(e),
    ));
}

/// Appending an entry fills the first untouched slot of the view.
proof fn lemma_entry_slots_push<T>(d: Seq<Entry<T>>, cap: nat, e: Entry<T>)
    requires
        d.len() < cap,
    ensures
        entry_slots_of(d.push(e), cap) == entry_slots_of(d, cap).update(
            d.len() as int,
            entry_slot(e),
        ),
{
    assert(entry_slots_of(d.push(e), cap) =~= entry_slots_of(d, cap).update(
        d.len() as int,
        entry_slot(e),
    ));
}

/// Raising the capacity pads the slot view with untouched slots.
proof fn lemma_entry_slots_grow<T>(d: Seq<Entry<T>>, cap: nat, cap2: nat)
    requires
        d.len() <= cap <= cap2,
    ensures
        entry_slots_of(d, cap2) == entry_slots_of(d, cap) + Seq::new(
            (cap2 - cap) as nat,
            (|i: int| None::<T>),
        ),
{
    assert(entry_slots_of(d, cap2) =~= entry_slots_of(d, cap) + Seq::new(
        (cap2 - cap) as nat,
        (|i: int| None::<T>),
    ));
}

/// An emptied entry table presents only untouched slots.
proof fn lemma_entry_slots_empty<T>(cap: nat)
    ensures
        entry_slots_of(Seq::<Entry<T>>::empty(), cap) == Seq::new(cap, (|i: int| None::<T>)),
{
    assert(entry_slots_of(Seq::<Entry<T>>::empty(), cap) =~= Seq::new(cap, (|i: int| None::<T>)));
}

/// Whether a row currently holds a live element.
fn entry_is_occupied<T>(e: &Entry<T>) -> (r: bool)
    ensures
        r == (*e is Occupied),
{
    matches!(e, Entry::Occupied(_))
}

/// The link stored in a freed row.
fn entry_link_read<T>(e: &Entry<T>) -> (r: Option<Index>)
    requires
        *e is Free,
    ensures
        r == entry_link(*e),
{
    match e {
        Entry::Free(l) => *l,
        Entry::Occupied(_) => unreached(),
    }
}

/// A mutable borrow of the element inside a live row.
fn entry_data_mut<T>(e: &mut Entry<T>) -> (r: &mut T)
    requires
        *old(e) is Occupied,
    ensures
        entry_slot(*old(e)) == Some(*r),
        *final(e) == Entry::Occupied(*final(r)),
{
    match e {
        Entry::Occupied(x) => x,
        Entry::Free(_) => unreached(),
    }
}

/// Replaces a row's entry, handing the old entry back.
fn entry_take<T>(e: &mut Entry<T>, replacement: Entry<T>) -> (r: Entry<T>)
    ensures
        r == *old(e),
        *final(e) == replacement,
{
    let mut tmp = replacement;
    core::mem::swap(e, &mut tmp);
    tmp
}

/// A reuse-capable store: insertion pops the most recently freed row off
/// the freelist before bump-allocating, removal pushes the freed row onto
/// the freelist, and the occupation state decides how each row's storage is
/// interpreted.
pub struct FreelistStore<T> {
    data: Vec<Entry<T>>,
    head: Option<Index>,
    cap: Length,
    chain: Ghost<Seq<int>>,
}

impl<T> FreelistStore<T> {
    /// An empty store with no reserved capacity.
    pub fn new() -> (r: Self)
        ensures
            r.wf(),
            r.cap() == 0,
            r.extent() == 0,
            r.free_seq() == Seq::<int>::empty(),
            r.slots() == Seq::<Option<T>>::empty(),
    {
        let r = FreelistStore { data: Vec::new(), head: None, cap: 0, chain: Ghost(Seq::empty()) };
        proof {
            assert(r.slots() =~= Seq::<Option<T>>::empty());
        }
        r
    }

    /// An empty store that can hold `capacity` rows before growing.
    pub fn with_capacity(capacity: Length) -> (r: Self)
        ensures
            r.wf(),
            r.cap() == capacity,
            r.extent() == 0,
            r.free_seq() == Seq::<int>::empty(),
            r.slots() == Seq::new(capacity as nat, (|i: int| None::<T>)),
    {
        let r = FreelistStore {
            data: Vec::new(),
            head: None,
            cap: capacity,
            chain: Ghost(Seq::empty()),
        };
        proof {
            assert(r.slots() =~= Seq::new(capacity as nat, (|i: int| None::<T>)));
        }
        r
    }
}

impl<T> Default for FreelistStore<T> {
    /// An empty store with no reserved capacity.
    fn default() -> (r: Self)
        ensures
            r.wf(),
            r.cap() == 0,
            r.extent() == 0,
            r.free_seq() == Seq::<int>::empty(),
    {
        FreelistStore::new()
    }
}

impl<T> Store<T> for FreelistStore<T> {
    fn new_store() -> (s: Self) {
        let s = FreelistStore::new();
        proof {
            assert(s.slots() =~= Seq::<Option<T>>::empty());
        }
        s
    }

    closed spec fn cap(&self) -> nat {
        self.cap as nat
    }

    closed spec fn extent(&self) -> nat {
        self.data@.len()
    }

    closed spec fn slots(&self) -> Seq<Option<T>> {
        entry_slots_of(self.data@, self.cap as nat)
    }

    closed spec fn free_seq(&self) -> Seq<int> {
        self.chain@
    }

    closed spec fn wf(&self) -> bool {
        &&& self.data@.len() <= self.cap
        &&& chain_wf(self.data@, self.head, self.chain@)
    }

    proof fn view_props(&self) {
    }

    fn capacity(&self) -> (r: Length) {
        self.cap
    }

    fn get(&self, index: Index) -> (r: SResult<&T>) {
        let i = index.get() as usize;
        if i >= self.data.len() {
            return Err(StoreError::OutOfBounds(index, self.data.len() as Length));
        }
        match &self.data[i] {
            Entry::Occupied(x) => Ok(x),
            Entry::Free(_) => Err(StoreError::AccessAfterFree(index)),
        }
    }

    fn get_mut(&mut self, index: Index) -> (r: SResult<&mut T>) {
        let i = index.get() as usize;
        let len = self.data.len();
        if i >= len {
            return Err(StoreError::OutOfBounds(index, len as Length));
        }
        if !entry_is_occupied(&self.data[i]) {
            return Err(StoreError::AccessAfterFree(index));
        }
        let e = vstd::std_specs::vec::vec_index_mut(&mut self.data, i);
        let v = entry_data_mut(e);
        proof {
            lemma_chain_keeps_occupied(
                old(self).data@,
                old(self).head,
                old(self).chain@,
                i as int,
                Entry::Occupied(*final(v)),
            );
            lemma_entry_slots_update(
                old(self).data@,
                old(self).cap as nat,
                i as int,
                Entry::Occupied(*final(v)),
            );
        }
        Ok(v)
    }

    fn insert_within_capacity(&mut self, data: T) -> (r: Result<Index, T>) {
        if let Some(h) = self.head {
            let hi = h.get() as usize;
            proof {
                assert(self.chain@[0] == h@);
            }
            let link = entry_link_read(&self.data[hi]);
            proof {
                lemma_chain_pop(self.data@, h, self.chain@, data);
                lemma_entry_slots_update(
                    self.data@,
                    self.cap as nat,
                    h@,
                    Entry::Occupied(data),
                );
            }
            let e = vstd::std_specs::vec::vec_index_mut(&mut self.data, hi);
            *e = Entry::Occupied(data);
            self.head = link;
            self.chain = Ghost(self.chain@.drop_first());
            Ok(h)
        } else {
            let len = self.data.len();
            if len == self.cap as usize {
                return Err(data);
            }
            proof {
                lemma_entry_slots_push(self.data@, self.cap as nat, Entry::Occupied(data));
            }
            self.data.push(Entry::Occupied(data));
            let index = Index::new(len as u32).unwrap();
            proof {
                assert forall|j: int|
                    0 <= j < self.data@.len() && (#[trigger] self.data@[j]) is Free implies self
                    .chain@.contains(j) by {
                    assert(j < old(self).data@.len());
                    assert(old(self).data@[j] is Free);
                }
            }
            Ok(index)
        }
    }

    fn widen(&mut self, new_capacity: Length) -> (r: SResult<()>) {
        if new_capacity <= self.cap {
            return Ok(());
        }
        let doubled: u64 = if 2 * (self.cap as u64) > new_capacity as u64 {
            2 * (self.cap as u64)
        } else {
            new_capacity as u64
        };
        let target: u64 = if doubled > u32::MAX as u64 {
            u32::MAX as u64
        } else {
            doubled
        };
        proof {
            lemma_entry_slots_grow(self.data@, self.cap as nat, target as nat);
        }
        self.cap = target as u32;
        Ok(())
    }

    fn clear(&mut self) {
        self.data.clear();
        self.head = None;
        self.chain = Ghost(Seq::empty());
        proof {
            lemma_entry_slots_empty::<T>(old(self).cap as nat);
        }
    }
}

impl<T> ReusableStore<T> for FreelistStore<T> {
    fn remove(&mut self, index: Index) -> (r: SResult<T>) {
        let i = index.get() as usize;
        let len = self.data.len();
        if i >= len {
            return Err(StoreError::OutOfBounds(index, len as Length));
        }
        if !entry_is_occupied(&self.data[i]) {
            return Err(StoreError::DoubleFree(index));
        }
        let old_head = self.head;
        proof {
            lemma_chain_push(self.data@, self.head, self.chain@, index);
            lemma_entry_slots_update(
                self.data@,
                self.cap as nat,
                index@,
                Entry::Free(old_head),
            );
        }
        let e = vstd::std_specs::vec::vec_index_mut(&mut self.data, i);
        let taken = entry_take(e, Entry::Free(old_head));
        self.head = Some(index);
        self.chain = Ghost(seq![index@] + self.chain@);
        match taken {
            Entry::Occupied(x) => Ok(x),
            Entry::Free(_) => unreached(),
        }
    }
}

impl<T> GetDisjointMut<T> for FreelistStore<T> {
    fn get_pair_mut(&mut self, i: Index, j: Index) -> (r: SResult<(&mut T, &mut T)>) {
        let ii = i.get() as usize;
        let jj = j.get() as usize;
        let len = self.data.len();
        if ii == jj || ii >= len || jj >= len {
            return Err(StoreError::DisjointError);
        }
        if !entry_is_occupied(&self.data[ii]) {
            return Err(StoreError::AccessAfterFree(i));
        }
        if !entry_is_occupied(&self.data[jj]) {
            return Err(StoreError::AccessAfterFree(j));
        }
        let (ea, eb) = crate::store::vec_pair_mut(&mut self.data, ii, jj);
        let a = entry_data_mut(ea);
        let b = entry_data_mut(eb);
        proof {
            lemma_chain_keeps_occupied(
                old(self).data@,
                old(self).head,
                old(self).chain@,
                ii as int,
                Entry::Occupied(*final(a)),
            );
            lemma_chain_keeps_occupied(
                old(self).data@.update(ii as int, Entry::Occupied(*final(a))),
                old(self).head,
                old(self).chain@,
                jj as int,
                Entry::Occupied(*final(b)),
            );
            lemma_entry_slots_update(
                old(self).data@,
                old(self).cap as nat,
                ii as int,
                Entry::Occupied(*final(a)),
            );
            lemma_entry_slots_update(
                old(self).data@.update(ii as int, Entry::Occupied(*final(a))),
                old(self).cap as nat,
                jj as int,
                Entry::Occupied(*final(b)),
            );
        }
        Ok((a, b))
    }
}

} // verus!

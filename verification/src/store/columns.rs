//! A hand-written instance of the columnar-storage contract for two-field
//! records, as the code-generation collaborator would produce for a struct
//! of two fields: field zero's column doubles as freelist-link storage, so
//! its per-row cell is sized to hold either the field or a link.

use vstd::prelude::*;
use vstd::pervasive::arbitrary;

use crate::errors::{SResult, StoreError};
use crate::index::{Index, Length};
use crate::store::{Columns, Header};

verus! {

/// One cell of a designated (link-carrying) column: field data for a live
/// row, the freelist link for a freed row, or nothing yet.
#[derive(Clone, Copy, Debug)]
pub enum SlotCell<A> {
    /// The row is live and this is its field value.
    Data(A),
    /// The row is freed and this is the next free link.
    Link(Option<Index>),
    /// The row has never held anything.
    Vacant,
}

/// The per-row byte size of the designated column's cell: large enough for
/// the field and for a link.
pub open spec fn cell_size<A>() -> nat {
    let a = vstd::layout::size_of::<A>();
    let l = vstd::layout::size_of::<Option<Index>>();
    if a > l {
        a
    } else {
        l
    }
}

/// The alignment of the designated column's cell.
pub open spec fn cell_align<A>() -> nat {
    let a = vstd::layout::align_of::<A>();
    let l = vstd::layout::align_of::<Option<Index>>();
    if a > l {
        a
    } else {
        l
    }
}

impl<A: Copy, B: Copy> Columns for (A, B) {
    type Storage = (Vec<SlotCell<A>>, Vec<Option<B>>);

    open spec fn layout_spec(rows: int) -> Seq<Header> {
        seq![
            (Header {
                offset: 0,
                size: (cell_size::<A>() * rows) as u64,
                align: cell_align::<A>() as u64,
            }),
            (Header {
                offset: 0,
                size: (vstd::layout::size_of::<B>() * rows) as u64,
                align: vstd::layout::align_of::<B>() as u64,
            }),
        ]
    }

    open spec fn layouts_ok(rows: int) -> bool {
        &&& rows >= 0
        &&& cell_size::<A>() * rows <= u64::MAX
        &&& vstd::layout::size_of::<B>() * rows <= u64::MAX
        &&& cell_align::<A>() <= u64::MAX
        &&& vstd::layout::align_of::<B>() <= u64::MAX
    }

    open spec fn rows_of(s: &Self::Storage) -> nat {
        if s.0@.len() < s.1@.len() {
            s.0@.len()
        } else {
            s.1@.len()
        }
    }

    open spec fn row_at(s: &Self::Storage, i: int) -> Self {
        (
            match s.0@[i] {
                SlotCell::Data(a) => a,
                _ => arbitrary(),
            },
            match s.1@[i] {
                Some(b) => b,
                None => arbitrary(),
            },
        )
    }

    open spec fn link_at(s: &Self::Storage, i: int) -> Option<Index> {
        match s.0@[i] {
            SlotCell::Link(l) => l,
            _ => None,
        }
    }

    open spec fn row_defined(s: &Self::Storage, i: int) -> bool {
        s.0@[i] is Data && s.1@[i] is Some
    }

    open spec fn link_defined(s: &Self::Storage, i: int) -> bool {
        s.0@[i] is Link
    }

    fn column_layouts(rows: Length) -> (r: SResult<Vec<Header>>) {
        let a_size = core::mem::size_of::<A>() as u64;
        let l_size = core::mem::size_of::<Option<Index>>() as u64;
        let cell = if a_size > l_size {
            a_size
        } else {
            l_size
        };
        let b_size = core::mem::size_of::<B>() as u64;
        let a_align = core::mem::align_of::<A>() as u64;
        let l_align = core::mem::align_of::<Option<Index>>() as u64;
        let cell_al = if a_align > l_align {
            a_align
        } else {
            l_align
        };
        let b_align = core::mem::align_of::<B>() as u64;
        let col0 = match cell.checked_mul(rows as u64) {
            Some(sz) => sz,
            None => {
                return Err(StoreError::InvalidLayout);
            },
        };
        let col1 = match b_size.checked_mul(rows as u64) {
            Some(sz) => sz,
            None => {
                return Err(StoreError::InvalidLayout);
            },
        };
        let mut v: Vec<Header> = Vec::new();
        v.push(Header::new(col0, cell_al));
        v.push(Header::new(col1, b_align));
        proof {
            assert(v@ =~= Self::layout_spec(rows as int));
        }
        Ok(v)
    }

    fn with_rows(rows: Length) -> (s: Self::Storage) {
        let n = rows as usize;
        let mut col0: Vec<SlotCell<A>> = Vec::new();
        while col0.len() < n
            invariant
                col0@.len() <= n,
                forall|k: int| 0 <= k < col0@.len() ==> col0@[k] is Vacant,
            decreases n - col0@.len(),
        {
            col0.push(SlotCell::Vacant);
        }
        let mut col1: Vec<Option<B>> = Vec::new();
        while col1.len() < n
            invariant
                col1@.len() <= n,
                forall|k: int| 0 <= k < col1@.len() ==> col1@[k] is None,
            decreases n - col1@.len(),
        {
            col1.push(None);
        }
        (col0, col1)
    }

    fn grow_rows(s: &mut Self::Storage, new_rows: Length) {
        let n = new_rows as usize;
        let m = if s.0.len() < s.1.len() {
            s.0.len()
        } else {
            s.1.len()
        };
        s.0.truncate(m);
        s.1.truncate(m);
        while s.0.len() < n
            invariant
                m <= s.0@.len() <= n,
                m == Self::rows_of(old(s)),
                s.1@ == old(s).1@.subrange(0, m as int),
                forall|k: int| 0 <= k < m ==> s.0@[k] == old(s).0@[k],
                forall|k: int| m <= k < s.0@.len() ==> s.0@[k] is Vacant,
            decreases n - s.0@.len(),
        {
            s.0.push(SlotCell::Vacant);
        }
        while s.1.len() < n
            invariant
                m <= s.1@.len() <= n,
                m == Self::rows_of(old(s)),
                s.0@.len() == n,
                forall|k: int| 0 <= k < m ==> s.0@[k] == old(s).0@[k],
                forall|k: int| m <= k < s.0@.len() ==> s.0@[k] is Vacant,
                forall|k: int| 0 <= k < m ==> s.1@[k] == old(s).1@[k],
                forall|k: int| m <= k < s.1@.len() ==> s.1@[k] is None,
            decreases n - s.1@.len(),
        {
            s.1.push(None);
        }
    }

    fn write_row(s: &mut Self::Storage, i: Index, v: Self) {
        let idx = i.get() as usize;
        let c0 = vstd::std_specs::vec::vec_index_mut(&mut s.0, idx);
        *c0 = SlotCell::Data(v.0);
        let c1 = vstd::std_specs::vec::vec_index_mut(&mut s.1, idx);
        *c1 = Some(v.1);
    }

    fn read_row(s: &Self::Storage, i: Index) -> (v: Self) {
        let idx = i.get() as usize;
        let a = match &s.0[idx] {
            SlotCell::Data(a) => *a,
            _ => vstd::pervasive::unreached(),
        };
        let b = match &s.1[idx] {
            Some(b) => *b,
            None => vstd::pervasive::unreached(),
        };
        (a, b)
    }

    fn take_row(s: &mut Self::Storage, i: Index) -> (v: Self) {
        let idx = i.get() as usize;
        let a = match &s.0[idx] {
            SlotCell::Data(a) => *a,
            _ => vstd::pervasive::unreached(),
        };
        let b = match &s.1[idx] {
            Some(b) => *b,
            None => vstd::pervasive::unreached(),
        };
        (a, b)
    }

    fn write_link(s: &mut Self::Storage, i: Index, link: Option<Index>) {
        let idx = i.get() as usize;
        let c0 = vstd::std_specs::vec::vec_index_mut(&mut s.0, idx);
        *c0 = SlotCell::Link(link);
    }

    fn read_link(s: &Self::Storage, i: Index) -> (l: Option<Index>) {
        let idx = i.get() as usize;
        match &s.0[idx] {
            SlotCell::Link(l) => *l,
            _ => vstd::pervasive::unreached(),
        }
    }
}

/// A group of column sets packed side by side; column groups of the parts
/// follow one another in the combined layout.
#[derive(Clone, Copy, Debug, Default, PartialEq, Eq, Hash)]
pub struct Join<T>(pub T);

/// A column set with one extra leading column group: the prefix field
/// comes first, so its column doubles as the freelist-link storage of the
/// whole record.
pub type Prefix<T, C> = Join<((T,), C)>;

impl<T, C> Prefix<T, C> {
    /// Joins a prefix field to an existing record.
    pub fn new(prefix: T, rest: C) -> (r: Self)
        ensures
            r.0.0.0 == prefix,
            r.0.1 == rest,
    {
        Join(((prefix,), rest))
    }

    /// Drops the prefix field, handing back the rest of the record.
    pub fn into_rest(self) -> (r: C)
        ensures
            r == self.0.1,
    {
        self.0.1
    }
}

} // verus!

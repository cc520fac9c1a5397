//! Columnar layout computation: columns are packed one after another in a
//! single allocation, each starting at the smallest offset that satisfies
//! its alignment after the previous column, with the occupation bitmap
//! placed directly before the first column.  All offsets are computed once,
//! into a table, and every access indexes through that table.

use vstd::prelude::*;
use vstd::arithmetic::div_mod::{
    lemma_fundamental_div_mod, lemma_fundamental_div_mod_converse_div, lemma_mod_multiples_basic,
};

use crate::errors::{SResult, StoreError};
use crate::index::Length;

verus! {

/// One column of a columnar layout: where it starts, how many bytes it
/// occupies in total, and the alignment it needs.
#[derive(Clone, Copy, Debug, Hash, PartialEq, Eq, Structural)]
pub struct Header {
    /// Byte offset of the column within the allocation.
    pub offset: u64,
    /// Total size of the column in bytes.
    pub size: u64,
    /// Required alignment of the column in bytes.
    pub align: u64,
}

impl Header {
    /// A column of the given size and alignment, not placed yet.
    pub fn new(size: u64, align: u64) -> (r: Header)
        ensures
            r == (Header { offset: 0, size, align }),
    {
        Header { offset: 0, size, align }
    }
}

/// `x` rounded up to the next multiple of `a`.
pub open spec fn round_up(x: int, a: int) -> int
    recommends
        a >= 1,
{
    ((x + a - 1) / a) * a
}

/// How many bytes the occupation bitmap takes for `rows` rows: one bit per
/// row.
pub open spec fn occ_bytes(rows: int) -> int {
    (rows + 7) / 8
}

/// Where the free space ends after placing the first `k` columns: the
/// occupation bitmap comes first, then each column at the smallest aligned
/// offset after its predecessor.
pub open spec fn col_end(cols: Seq<Header>, rows: int, k: int) -> int
    decreases k,
{
    if k <= 0 {
        occ_bytes(rows)
    } else {
        round_up(col_end(cols, rows, k - 1), cols[k - 1].align as int) + cols[k - 1].size as int
    }
}

/// The offset column `k` is placed at.
pub open spec fn col_offset(cols: Seq<Header>, rows: int, k: int) -> int {
    round_up(col_end(cols, rows, k), cols[k].align as int)
}

/// The strictest alignment among the first `k` columns (at least one).
pub open spec fn max_align(cols: Seq<Header>, k: int) -> int
    decreases k,
{
    if k <= 0 {
        1
    } else {
        let a = cols[k - 1].align as int;
        let m = max_align(cols, k - 1);
        if a > m {
            a
        } else {
            m
        }
    }
}

/// The whole layout can be computed: every alignment is positive and the
/// total size fits the machine range.
pub open spec fn layout_fits(cols: Seq<Header>, rows: int) -> bool {
    &&& forall|k: int| 0 <= k < cols.len() ==> (#[trigger] cols[k].align) >= 1
    &&& col_end(cols, rows, cols.len() as int) <= u64::MAX
}

/// Rounding up to a positive alignment lands on a multiple, at or after the
/// start, less than one alignment away; the distance is the complement of
/// the remainder.
pub proof fn lemma_round_up(x: int, a: int)
    requires
        x >= 0,
        a >= 1,
    ensures
        round_up(x, a) % a == 0,
        x <= round_up(x, a) < x + a,
        round_up(x, a) == (if x % a == 0 {
            x
        } else {
            x + a - x % a
        }),
{
    lemma_fundamental_div_mod(x, a);
    let q = x / a;
    let r = x % a;
    assert(a * q == q * a) by (nonlinear_arith);
    assert((q + 1) * a == q * a + a) by (nonlinear_arith);
    if r == 0 {
        assert(x + a - 1 == q * a + (a - 1));
        lemma_fundamental_div_mod_converse_div(x + a - 1, a, q, a - 1);
        lemma_mod_multiples_basic(q, a);
        assert(round_up(x, a) == q * a);
    } else {
        assert(x + a - 1 == (q + 1) * a + (r - 1));
        lemma_fundamental_div_mod_converse_div(x + a - 1, a, q + 1, r - 1);
        lemma_mod_multiples_basic(q + 1, a);
        assert(round_up(x, a) == (q + 1) * a);
    }
}

/// Column ends never move backwards as more columns are placed, as long as
/// the alignments involved are positive.
pub proof fn lemma_col_end_mono(cols: Seq<Header>, rows: int, a: int, b: int)
    requires
        0 <= a <= b <= cols.len(),
        rows >= 0,
        forall|k: int| a <= k < b ==> (#[trigger] cols[k].align) >= 1,
        col_end(cols, rows, a) >= 0,
    ensures
        col_end(cols, rows, b) >= col_end(cols, rows, a),
        col_end(cols, rows, b) >= 0,
    decreases b - a,
{
    if a < b {
        lemma_round_up(col_end(cols, rows, a), cols[a].align as int);
        assert(col_end(cols, rows, a + 1) == round_up(col_end(cols, rows, a), cols[a].align as int)
            + cols[a].size);
        lemma_col_end_mono(cols, rows, a + 1, b);
    }
}

/// If the end of some column prefix already exceeds the machine range, the
/// whole layout does not fit.
proof fn overflow_means_unfit(cols: Seq<Header>, rows: int, k: int)
    requires
        0 <= k <= cols.len(),
        rows >= 0,
        col_end(cols, rows, k) > u64::MAX,
    ensures
        !layout_fits(cols, rows),
{
    if forall|j: int| 0 <= j < cols.len() ==> (#[trigger] cols[j].align) >= 1 {
        lemma_col_end_mono(cols, rows, k, cols.len() as int);
    }
}

/// Computes the layout table for the given columns at `rows` rows:
/// offsets, the total allocation size, and the allocation's alignment.
/// Fails only where an alignment is zero or the total size overflows.
pub fn register_columns(cols: &Vec<Header>, rows: Length) -> (r: SResult<(Vec<Header>, u64, u64)>)
    ensures
        match r {
            Ok(placed) => {
                &&& layout_fits(cols@, rows as int)
                &&& placed.0@.len() == cols@.len()
                &&& forall|k: int|
                    0 <= k < cols@.len() ==> placed.0@[k] == (Header {
                        offset: col_offset(cols@, rows as int, k) as u64,
                        size: cols@[k].size,
                        align: cols@[k].align,
                    })
                &&& placed.1 == col_end(cols@, rows as int, cols@.len() as int)
                &&& placed.2 == max_align(cols@, cols@.len() as int)
            },
            Err(e) => e == StoreError::InvalidLayout && !layout_fits(cols@, rows as int),
        },
{
    let ghost crows = rows as int;
    let mut headers: Vec<Header> = Vec::new();
    let mut offset: u64 = (rows as u64 + 7) / 8;
    let mut align: u64 = 1;
    let mut k: usize = 0;
    while k < cols.len()
        invariant
            0 <= k <= cols@.len(),
            crows == rows as int,
            offset == col_end(cols@, crows, k as int),
            align == max_align(cols@, k as int),
            headers@.len() == k,
            forall|j: int| 0 <= j < k ==> (#[trigger] cols@[j].align) >= 1,
            forall|j: int|
                0 <= j < k ==> headers@[j] == (Header {
                    offset: col_offset(cols@, crows, j) as u64,
                    size: cols@[j].size,
                    align: cols@[j].align,
                }),
        decreases cols@.len() - k,
    {
        let c = cols[k];
        if c.align == 0 {
            return Err(StoreError::InvalidLayout);
        }
        proof {
            lemma_round_up(offset as int, c.align as int);
        }
        let rem = offset % c.align;
        let pad: u64 = if rem == 0 {
            0
        } else {
            c.align - rem
        };
        let placed_at = match offset.checked_add(pad) {
            Some(p) => p,
            None => {
                proof {
                    overflow_means_unfit(cols@, crows, k as int + 1);
                }
                return Err(StoreError::InvalidLayout);
            },
        };
        let end = match placed_at.checked_add(c.size) {
            Some(e) => e,
            None => {
                proof {
                    overflow_means_unfit(cols@, crows, k as int + 1);
                }
                return Err(StoreError::InvalidLayout);
            },
        };
        headers.push(Header { offset: placed_at, size: c.size, align: c.align });
        if c.align > align {
            align = c.align;
        }
        offset = end;
        k = k + 1;
    }
    Ok((headers, offset, align))
}

} // verus!

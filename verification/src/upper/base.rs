//! Base upper triangle indexing operations, diagonal included.
//!
//! Row `i` of the packed layout over axis length `n` holds `n - i` elements
//! and occupies the offsets `[tri_num(n) - tri_num(n - i), tri_num(n) -
//! tri_num(n - i - 1))`. Column positions are counted relative to the row:
//! the element at row `i` and column offset `j` sits `j` slots after the
//! diagonal element of row `i`.

use vstd::prelude::*;

use crate::ops::{lemma_tri_num_gap, lemma_tri_num_is_monotonic, spec_tri_num, tri_num};

verus! {

/// The valid coordinates of a diagonal-inclusive upper triangle over axis
/// length `n`: row `i` holds the column offsets `0..n - i`.
pub open spec fn upper_valid(n: int, i: int, j: int) -> bool {
    &&& 0 <= i < n
    &&& 0 <= j < n - i
}

/// The packed offset of the element at row `i`, column offset `j`: the rows
/// after row `i` hold `tri_num(n - i - 1)` elements, so row `i` starts where
/// `tri_num(n - i)` elements are left.
pub open spec fn upper_index(n: int, i: int, j: int) -> int {
    spec_tri_num(n) - spec_tri_num(n - i) + j
}

/// The offsets of the elements of row `i`, in column order.
pub open spec fn upper_row_seq(n: int, i: int) -> Seq<int> {
    Seq::new((n - i) as nat, |k: int| upper_index(n, i, k))
}

/// The offsets of the elements of absolute column `j`, in row order: one for
/// each row from `0` to `j`, where row `k` holds column `j` at offset
/// `j - k`.
pub open spec fn upper_col_seq(n: int, j: int) -> Seq<int> {
    Seq::new((j + 1) as nat, |k: int| upper_index(n, k, j - k))
}

/// Get the index of an element.
pub fn get_element_index(i: usize, j: usize, n: usize) -> (r: usize)
    requires
        i <= n,
        j <= n - i,
        spec_tri_num(n as int) <= usize::MAX,
    ensures
        r == upper_index(n as int, i as int, j as int),
{
    proof {
        lemma_tri_num_is_monotonic(n as int - i, n as int);
        lemma_tri_num_is_monotonic(0, n as int - i);
    }
    tri_num(n) - tri_num(n - i) + j
}

/// Get the first index of a row.
pub fn get_row_start_index(i: usize, n: usize) -> (r: usize)
    requires
        i <= n,
        spec_tri_num(n as int) <= usize::MAX,
    ensures
        r == upper_index(n as int, i as int, 0),
{
    proof {
        lemma_tri_num_is_monotonic(n as int - i, n as int);
    }
    tri_num(n) - tri_num(n - i)
}

/// Get the first index of a column: column `j` first appears in row `0`, at
/// offset `j`.
pub fn get_col_start_index(j: usize) -> (r: usize)
    ensures
        r == j,
{
    j
}

/// Get all indices of a row.
pub fn get_row_indices(i: usize, n: usize) -> (r: Vec<usize>)
    requires
        i < n,
        spec_tri_num(n as int) <= usize::MAX,
    ensures
        r@.len() == n - i,
        forall|k: int| 0 <= k < n - i ==> r@[k] == upper_row_seq(n as int, i as int)[k],
{
    proof {
        lemma_tri_num_is_monotonic(n as int - i, n as int);
        lemma_tri_num_is_monotonic(0, n as int - i);
    }
    let start = get_row_start_index(i, n);
    let count = n - i;
    let mut r: Vec<usize> = Vec::new();
    let mut k: usize = 0;
    while k < count
        invariant
            k <= count,
            count == n - i,
            start == upper_index(n as int, i as int, 0),
            start + count <= spec_tri_num(n as int) <= usize::MAX,
            r@.len() == k,
            forall|t: int| 0 <= t < k ==> r@[t] == upper_index(n as int, i as int, t),
        decreases count - k,
    {
        r.push(start + k);
        k = k + 1;
    }
    r
}

/// Get all indices of a column.
pub fn get_col_indices(j: usize, n: usize) -> (r: Vec<usize>)
    requires
        j < n,
        spec_tri_num(n as int) <= usize::MAX,
    ensures
        r@.len() == j + 1,
        forall|k: int| 0 <= k <= j ==> r@[k] == upper_col_seq(n as int, j as int)[k],
{
    let count = j + 1;
    let mut r: Vec<usize> = Vec::new();
    let mut k: usize = 0;
    while k < count
        invariant
            k <= count,
            count == j + 1,
            j < n,
            spec_tri_num(n as int) <= usize::MAX,
            r@.len() == k,
            forall|t: int| 0 <= t < k ==> r@[t] == upper_index(n as int, t, j - t),
        decreases count - k,
    {
        proof {
            lemma_tri_num_is_monotonic(n as int - k, n as int);
            lemma_tri_num_is_monotonic(0, n as int - k);
        }
        let start = get_row_start_index(k, n);
        r.push(start + (j - k));
        k = k + 1;
    }
    r
}

/// Every valid coordinate pair maps into the packed range `[0, tri_num(n))`.
pub proof fn lemma_upper_index_in_range(n: int, i: int, j: int)
    requires
        upper_valid(n, i, j),
    ensures
        0 <= upper_index(n, i, j) < spec_tri_num(n),
{
    lemma_tri_num_is_monotonic(n - i, n);
    lemma_tri_num_is_monotonic(0, n - i);
}

/// Distinct valid coordinate pairs map to distinct offsets: the upper
/// triangle packing is injective on its valid domain.
pub proof fn lemma_upper_index_injective(n: int, i1: int, j1: int, i2: int, j2: int)
    requires
        upper_valid(n, i1, j1),
        upper_valid(n, i2, j2),
        upper_index(n, i1, j1) == upper_index(n, i2, j2),
    ensures
        i1 == i2,
        j1 == j2,
{
    if i1 < i2 {
        lemma_tri_num_gap(n - i2, n - i1);
        assert((i2 - i1) * (n - i2 + 1) >= n - i1) by (nonlinear_arith)
            requires
                1 <= i2 - i1,
                1 <= n - i2,
        ;
    }
    if i2 < i1 {
        lemma_tri_num_gap(n - i1, n - i2);
        assert((i1 - i2) * (n - i1 + 1) >= n - i2) by (nonlinear_arith)
            requires
                1 <= i1 - i2,
                1 <= n - i1,
        ;
    }
}

/// Every offset in `[0, tri_num(n))` is the image of a valid coordinate
/// pair; together with injectivity, of exactly one.
pub proof fn lemma_upper_round_trip(n: int, k: int)
    requires
        0 <= k < spec_tri_num(n),
    ensures
        exists|i: int, j: int| upper_valid(n, i, j) && upper_index(n, i, j) == k,
    decreases n,
{
    assert(1 <= n);
    if k < n {
        assert(upper_valid(n, 0, k) && upper_index(n, 0, k) == k);
    } else {
        assert(spec_tri_num(n) == n + spec_tri_num(n - 1));
        lemma_upper_round_trip(n - 1, k - n);
        let (i, j) = choose|i: int, j: int|
            #[trigger] upper_valid(n - 1, i, j) && upper_index(n - 1, i, j) == k - n;
        assert(upper_valid(n, i + 1, j) && upper_index(n, i + 1, j) == k);
    }
}

/// The row listings of rows `0..r`, laid end to end, over axis length `n`.
pub open spec fn upper_rows_flat(n: int, r: int) -> Seq<int>
    decreases r,
{
    if r <= 0 {
        Seq::empty()
    } else {
        upper_rows_flat(n, r - 1) + upper_row_seq(n, r - 1)
    }
}

/// Enumerating the rows in order lists every packed offset exactly once, in
/// increasing order: the row listings of rows `0..r` laid end to end are the
/// sequence `0, 1, ...` up to the start of row `r`; with `r == n` they are
/// the whole packed range `0, 1, ..., tri_num(n) - 1`.
pub proof fn lemma_upper_rows_enumerate(n: int, r: int)
    requires
        0 <= r <= n,
    ensures
        upper_rows_flat(n, r) =~= Seq::new(
            (spec_tri_num(n) - spec_tri_num(n - r)) as nat,
            |k: int| k,
        ),
    decreases r,
{
    if r > 0 {
        lemma_upper_rows_enumerate(n, r - 1);
        lemma_tri_num_is_monotonic(n - r, n);
        lemma_tri_num_is_monotonic(n - r + 1, n);
        lemma_tri_num_is_monotonic(0, n - r);
        assert(spec_tri_num(n - r + 1) == (n - r + 1) + spec_tri_num(n - r));
    }
}

/// The row and column listings agree with the element offsets: for a valid
/// pair at row `i` and absolute column `c`, the listing of row `i` holds the
/// pair's offset at position `c - i`, and the listing of column `c` holds it
/// at position `i`; each listing holds it only when `i <= c`, that is, only
/// for pairs on or above the diagonal.
pub proof fn lemma_upper_row_col_consistent(n: int, i: int, c: int)
    requires
        0 <= i < n,
        0 <= c < n,
    ensures
        i <= c ==> upper_row_seq(n, i)[c - i] == upper_index(n, i, c - i),
        i <= c ==> upper_col_seq(n, c)[i] == upper_index(n, i, c - i),
        upper_row_seq(n, i).contains(upper_index(n, i, c - i)) <==> i <= c,
        upper_col_seq(n, c).contains(upper_index(n, i, c - i)) <==> i <= c,
{
    if i <= c {
        assert(upper_row_seq(n, i)[c - i] == upper_index(n, i, c - i));
        assert(upper_col_seq(n, c)[i] == upper_index(n, i, c - i));
        assert(upper_row_seq(n, i).contains(upper_index(n, i, c - i)));
        assert(upper_col_seq(n, c).contains(upper_index(n, i, c - i)));
    }
    if upper_row_seq(n, i).contains(upper_index(n, i, c - i)) {
        let t = choose|t: int|
            0 <= t < upper_row_seq(n, i).len() && upper_row_seq(n, i)[t] == upper_index(
                n,
                i,
                c - i,
            );
        assert(t == c - i);
    }
    if upper_col_seq(n, c).contains(upper_index(n, i, c - i)) {
        let t = choose|t: int|
            0 <= t < upper_col_seq(n, c).len() && upper_col_seq(n, c)[t] == upper_index(
                n,
                i,
                c - i,
            );
        if t < i {
            lemma_tri_num_gap(n - i, n - t);
            assert((i - t) * (n - i + 1) > i - t) by (nonlinear_arith)
                requires
                    0 < i - t,
                    2 <= n - i + 1,
            ;
        }
        if i < t {
            lemma_tri_num_gap(n - t, n - i);
            assert((t - i) * (n - t + 1) > t - i) by (nonlinear_arith)
                requires
                    0 < t - i,
                    2 <= n - t + 1,
            ;
        }
    }
}

} // verus!

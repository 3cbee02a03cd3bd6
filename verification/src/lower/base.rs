//! Base lower triangle indexing operations, diagonal included.
//!
//! Row `i` of the packed layout holds `i + 1` elements and occupies the
//! offsets `[tri_num(i), tri_num(i + 1))`.

use vstd::prelude::*;

use crate::ops::{lemma_tri_num_is_monotonic, spec_tri_num, tri_num};

verus! {

/// The valid coordinates of a diagonal-inclusive lower triangle over axis
/// length `n`: every `(i, j)` with `j <= i`.
pub open spec fn lower_valid(n: int, i: int, j: int) -> bool {
    0 <= j <= i < n
}

/// The packed offset of the element at `(i, j)`: row `i` starts at
/// `tri_num(i)` and holds its columns in order.
pub open spec fn lower_index(i: int, j: int) -> int {
    spec_tri_num(i) + j
}

/// The offsets of the elements of row `i`, in column order.
pub open spec fn lower_row_seq(i: int) -> Seq<int> {
    Seq::new((i + 1) as nat, |k: int| lower_index(i, k))
}

/// The offsets of the elements of column `j` over axis length `n`, in row
/// order: one for each row from `j` to `n - 1`.
pub open spec fn lower_col_seq(n: int, j: int) -> Seq<int> {
    Seq::new((n - j) as nat, |k: int| lower_index(j + k, j))
}

/// Get the index of an element.
pub fn get_element_index(i: usize, j: usize) -> (r: usize)
    requires
        j <= i,
        lower_index(i as int, j as int) <= usize::MAX,
    ensures
        r == lower_index(i as int, j as int),
{
    tri_num(i) + j
}

/// Get the first index of a row.
pub fn get_row_start_index(i: usize) -> (r: usize)
    requires
        spec_tri_num(i as int) <= usize::MAX,
    ensures
        r == spec_tri_num(i as int),
        r == lower_index(i as int, 0),
{
    tri_num(i)
}

/// Get the first index of a column: the first row holding column `j` is row
/// `j`, at its last slot.
pub fn get_col_start_index(j: usize) -> (r: usize)
    requires
        lower_index(j as int, j as int) <= usize::MAX,
    ensures
        r == lower_index(j as int, j as int),
{
    tri_num(j) + j
}

/// Get all indices of a row.
pub fn get_row_indices(i: usize) -> (r: Vec<usize>)
    requires
        spec_tri_num(i as int + 1) <= usize::MAX,
    ensures
        r@.len() == i + 1,
        forall|k: int| 0 <= k <= i ==> r@[k] == lower_row_seq(i as int)[k],
{
    proof {
        lemma_tri_num_is_monotonic(i as int + 1, i as int + 1);
        assert(spec_tri_num(i as int + 1) == i + 1 + spec_tri_num(i as int));
    }
    let start = tri_num(i);
    let len = i + 1;
    let mut r: Vec<usize> = Vec::new();
    let mut k: usize = 0;
    while k < len
        invariant
            k <= len,
            len == i + 1,
            start == spec_tri_num(i as int),
            start + len <= usize::MAX,
            r@.len() == k,
            forall|t: int| 0 <= t < k ==> r@[t] == lower_index(i as int, t),
        decreases len - k,
    {
        r.push(start + k);
        k = k + 1;
    }
    r
}

/// Get all indices of a column.
pub fn get_col_indices(j: usize, n: usize) -> (r: Vec<usize>)
    requires
        j <= n,
        spec_tri_num(n as int) <= usize::MAX,
    ensures
        r@.len() == n - j,
        forall|k: int| 0 <= k < n - j ==> r@[k] == lower_col_seq(n as int, j as int)[k],
{
    let count = n - j;
    let mut r: Vec<usize> = Vec::new();
    let mut k: usize = 0;
    while k < count
        invariant
            k <= count,
            count == n - j,
            j <= n,
            spec_tri_num(n as int) <= usize::MAX,
            r@.len() == k,
            forall|t: int| 0 <= t < k ==> r@[t] == lower_index(j + t, j as int),
        decreases count - k,
    {
        let row = j + k;
        proof {
            lemma_tri_num_is_monotonic(row as int + 1, n as int);
            assert(spec_tri_num(row as int + 1) == row + 1 + spec_tri_num(row as int));
        }
        let s = tri_num(row);
        r.push(s + j);
        k = k + 1;
    }
    r
}

/// Every valid coordinate pair maps into the packed range `[0, tri_num(n))`.
pub proof fn lemma_lower_index_in_range(n: int, i: int, j: int)
    requires
        lower_valid(n, i, j),
    ensures
        0 <= lower_index(i, j) < spec_tri_num(n),
{
    lemma_tri_num_is_monotonic(i, i);
    lemma_tri_num_is_monotonic(i + 1, n);
    assert(spec_tri_num(i + 1) == i + 1 + spec_tri_num(i));
}

/// Distinct valid coordinate pairs map to distinct offsets: the lower
/// triangle packing is injective on its valid domain.
pub proof fn lemma_lower_index_injective(i1: int, j1: int, i2: int, j2: int)
    requires
        0 <= j1 <= i1,
        0 <= j2 <= i2,
        lower_index(i1, j1) == lower_index(i2, j2),
    ensures
        i1 == i2,
        j1 == j2,
{
    if i1 < i2 {
        lemma_lower_index_in_range(i2, i1, j1);
        lemma_tri_num_is_monotonic(i2, i2);
    }
    if i2 < i1 {
        lemma_lower_index_in_range(i1, i2, j2);
        lemma_tri_num_is_monotonic(i1, i1);
    }
}

/// Every offset in `[0, tri_num(n))` is the image of a valid coordinate
/// pair; together with injectivity, of exactly one.
pub proof fn lemma_lower_round_trip(n: int, k: int)
    requires
        0 <= k < spec_tri_num(n),
    ensures
        exists|i: int, j: int| lower_valid(n, i, j) && lower_index(i, j) == k,
    decreases n,
{
    assert(1 <= n);
    if k >= spec_tri_num(n - 1) {
        let j = k - spec_tri_num(n - 1);
        assert(spec_tri_num(n) == n + spec_tri_num(n - 1));
        assert(lower_valid(n, n - 1, j) && lower_index(n - 1, j) == k);
    } else {
        lemma_lower_round_trip(n - 1, k);
        let (i, j) = choose|i: int, j: int| lower_valid(n - 1, i, j) && lower_index(i, j) == k;
        assert(lower_valid(n, i, j) && lower_index(i, j) == k);
    }
}

/// The row listings of rows `0..n`, laid end to end.
pub open spec fn lower_rows_flat(n: int) -> Seq<int>
    decreases n,
{
    if n <= 0 {
        Seq::empty()
    } else {
        lower_rows_flat(n - 1) + lower_row_seq(n - 1)
    }
}

/// Enumerating the rows in order lists every packed offset exactly once, in
/// increasing order: the row listings of rows `0..n` laid end to end are the
/// sequence `0, 1, ..., tri_num(n) - 1`.
pub proof fn lemma_lower_rows_enumerate(n: int)
    requires
        0 <= n,
    ensures
        lower_rows_flat(n) =~= Seq::new(spec_tri_num(n) as nat, |k: int| k),
    decreases n,
{
    if n > 0 {
        lemma_lower_rows_enumerate(n - 1);
        lemma_tri_num_is_monotonic(0, n - 1);
    }
}

/// The row and column listings agree with the element offsets: the listing
/// of row `i` holds the offset of a pair `(i, j)` exactly when the pair is
/// valid, at position `j`, and the listing of column `j` holds it exactly
/// when the pair is valid, at position `i - j`.
pub proof fn lemma_lower_row_col_consistent(n: int, i: int, j: int)
    requires
        0 <= i < n,
        0 <= j < n,
    ensures
        lower_valid(n, i, j) ==> lower_row_seq(i)[j] == lower_index(i, j),
        lower_valid(n, i, j) ==> lower_col_seq(n, j)[i - j] == lower_index(i, j),
        lower_row_seq(i).contains(lower_index(i, j)) <==> lower_valid(n, i, j),
        lower_col_seq(n, j).contains(lower_index(i, j)) <==> lower_valid(n, i, j),
{
    if lower_valid(n, i, j) {
        assert(lower_row_seq(i)[j] == lower_index(i, j));
        assert(lower_col_seq(n, j)[i - j] == lower_index(i, j));
        assert(lower_row_seq(i).contains(lower_index(i, j)));
        assert(lower_col_seq(n, j).contains(lower_index(i, j)));
    }
    if lower_row_seq(i).contains(lower_index(i, j)) {
        let t = choose|t: int|
            0 <= t < lower_row_seq(i).len() && lower_row_seq(i)[t] == lower_index(i, j);
        lemma_lower_index_injective(i, t, i, j);
    }
    if lower_col_seq(n, j).contains(lower_index(i, j)) {
        let t = choose|t: int|
            0 <= t < lower_col_seq(n, j).len() && lower_col_seq(n, j)[t] == lower_index(i, j);
        if j + t < i {
            lemma_tri_num_is_monotonic(j + t, i);
        }
        if i < j + t {
            lemma_tri_num_is_monotonic(i, j + t);
        }
    }
}

} // verus!

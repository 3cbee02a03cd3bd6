//! A simple upper triangle abstraction: the upper triangle without its
//! diagonal.
//!
//! The shape wraps the base upper indexing over an effective axis length of
//! `n - 1`: logical column `j` (the columns start at `1`) maps to the base
//! column offset `j - i - 1` relative to row `i`, so the packed sequence
//! holds `tri_num(n - 1)` elements.

use vstd::prelude::*;

use crate::def::{axis_fits, is_packed, Triangle, TriangleMut};
use crate::ops::{lemma_tri_num_is_monotonic, spec_tri_num};
use crate::upper::base;
use crate::upper::base::{
    lemma_upper_index_in_range, lemma_upper_index_injective, lemma_upper_round_trip, upper_index,
    upper_valid,
};

verus! {

/// The valid coordinates of the diagonal-free upper triangle over axis
/// length `n`: every `(i, j)` with `i < j`.
pub open spec fn simple_upper_valid(n: int, i: int, j: int) -> bool {
    0 <= i < j < n
}

/// The packed offset of the element at `(i, j)` over axis length `n`:
/// logical column `j` is the base column offset `j - i - 1` of row `i` in an
/// upper triangle of axis length `n - 1`.
pub open spec fn simple_upper_index(n: int, i: int, j: int) -> int {
    upper_index(n - 1, i, j - i - 1)
}

/// Every valid coordinate pair maps into the packed range
/// `[0, tri_num(n - 1))`.
pub proof fn lemma_simple_upper_index_in_range(n: int, i: int, j: int)
    requires
        simple_upper_valid(n, i, j),
    ensures
        0 <= simple_upper_index(n, i, j) < spec_tri_num(n - 1),
{
    lemma_upper_index_in_range(n - 1, i, j - i - 1);
}

/// Distinct valid coordinate pairs map to distinct offsets.
pub proof fn lemma_simple_upper_index_injective(n: int, i1: int, j1: int, i2: int, j2: int)
    requires
        simple_upper_valid(n, i1, j1),
        simple_upper_valid(n, i2, j2),
        simple_upper_index(n, i1, j1) == simple_upper_index(n, i2, j2),
    ensures
        i1 == i2,
        j1 == j2,
{
    lemma_upper_index_injective(n - 1, i1, j1 - i1 - 1, i2, j2 - i2 - 1);
}

/// Every offset in `[0, tri_num(n - 1))` is the image of a valid coordinate
/// pair; together with injectivity, of exactly one.
pub proof fn lemma_simple_upper_round_trip(n: int, k: int)
    requires
        1 <= n,
        0 <= k < spec_tri_num(n - 1),
    ensures
        exists|i: int, j: int| simple_upper_valid(n, i, j) && simple_upper_index(n, i, j) == k,
{
    lemma_upper_round_trip(n - 1, k);
    let (i, j) = choose|i: int, j: int|
        #[trigger] upper_valid(n - 1, i, j) && upper_index(n - 1, i, j) == k;
    assert(simple_upper_valid(n, i, i + 1 + j) && simple_upper_index(n, i, i + 1 + j) == k);
}

/// A simple upper triangle collection.
///
/// The packed sequence contains `tri_num(n - 1)` elements: the rows are
/// `0..n - 1` and the columns `1..n`, so that the diagonal is left out.
pub trait SimpleUpperTri<T>: Triangle<T> {
    /// Get a reference to an element.
    fn get_element(&self, i: usize, j: usize) -> (r: &T)
        requires
            axis_fits(self.spec_n()),
            is_packed(self.spec_n(), self.contents()),
            simple_upper_valid(self.spec_n(), i as int, j as int),
        ensures
            *r == self.contents()[simple_upper_index(self.spec_n(), i as int, j as int)],
    {
        proof {
            lemma_simple_upper_index_in_range(self.spec_n(), i as int, j as int);
        }
        let n = self.n();
        let index = base::get_element_index(i, j - (i + 1), n - 1);
        self.get(index)
    }

    /// Get references to the elements of a row, in column order.
    fn get_row(&self, i: usize) -> (r: Vec<&T>)
        requires
            axis_fits(self.spec_n()),
            is_packed(self.spec_n(), self.contents()),
            i + 1 < self.spec_n(),
        ensures
            r@.len() == self.spec_n() - 1 - i,
            forall|k: int|
                0 <= k < self.spec_n() - 1 - i ==> *r@[k] == self.contents()[simple_upper_index(
                    self.spec_n(),
                    i as int,
                    i + 1 + k,
                )],
    {
        let indices = SimpleUpperTri::get_row_indices(self, i);
        let mut r: Vec<&T> = Vec::new();
        let mut k: usize = 0;
        while k < indices.len()
            invariant
                k <= indices@.len() == self.spec_n() - 1 - i,
                axis_fits(self.spec_n()),
                is_packed(self.spec_n(), self.contents()),
                i + 1 < self.spec_n(),
                forall|t: int|
                    0 <= t < indices@.len() ==> indices@[t] == simple_upper_index(
                        self.spec_n(),
                        i as int,
                        i + 1 + t,
                    ),
                r@.len() == k,
                forall|t: int|
                    0 <= t < k ==> *r@[t] == self.contents()[simple_upper_index(
                        self.spec_n(),
                        i as int,
                        i + 1 + t,
                    )],
            decreases indices@.len() - k,
        {
            proof {
                lemma_simple_upper_index_in_range(self.spec_n(), i as int, i + 1 + k as int);
            }
            r.push(self.get(indices[k]));
            k = k + 1;
        }
        r
    }

    /// Get references to the elements of a column, in row order.
    fn get_col(&self, j: usize) -> (r: Vec<&T>)
        requires
            axis_fits(self.spec_n()),
            is_packed(self.spec_n(), self.contents()),
            1 <= j < self.spec_n(),
        ensures
            r@.len() == j,
            forall|k: int|
                0 <= k < j ==> *r@[k] == self.contents()[simple_upper_index(
                    self.spec_n(),
                    k,
                    j as int,
                )],
    {
        let indices = SimpleUpperTri::get_col_indices(self, j);
        let mut r: Vec<&T> = Vec::new();
        let mut k: usize = 0;
        while k < indices.len()
            invariant
                k <= indices@.len() == j,
                axis_fits(self.spec_n()),
                is_packed(self.spec_n(), self.contents()),
                1 <= j < self.spec_n(),
                forall|t: int|
                    0 <= t < j ==> indices@[t] == simple_upper_index(self.spec_n(), t, j as int),
                r@.len() == k,
                forall|t: int|
                    0 <= t < k ==> *r@[t] == self.contents()[simple_upper_index(
                        self.spec_n(),
                        t,
                        j as int,
                    )],
            decreases indices@.len() - k,
        {
            proof {
                lemma_simple_upper_index_in_range(self.spec_n(), k as int, j as int);
            }
            r.push(self.get(indices[k]));
            k = k + 1;
        }
        r
    }

    /// Get the first index of a row.
    fn get_row_start_index(&self, i: usize) -> (r: usize)
        requires
            axis_fits(self.spec_n()),
            0 <= i < self.spec_n(),
        ensures
            r == upper_index(self.spec_n() - 1, i as int, 0),
            i + 1 < self.spec_n() ==> r == simple_upper_index(self.spec_n(), i as int, i + 1),
    {
        let n = self.n();
        base::get_row_start_index(i, n - 1)
    }

    /// Get the first index of a column: column `j` first appears in row `0`,
    /// at offset `j - 1`.
    fn get_col_start_index(&self, j: usize) -> (r: usize)
        requires
            axis_fits(self.spec_n()),
            1 <= j,
        ensures
            r == j - 1,
            j < self.spec_n() ==> r == simple_upper_index(self.spec_n(), 0, j as int),
    {
        base::get_col_start_index(j - 1)
    }

    /// Get all indices of a row, in column order. Row `n - 1` holds no
    /// element of the triangle, so `i` stays below `n - 1`.
    fn get_row_indices(&self, i: usize) -> (r: Vec<usize>)
        requires
            axis_fits(self.spec_n()),
            i + 1 < self.spec_n(),
        ensures
            r@.len() == self.spec_n() - 1 - i,
            forall|k: int|
                0 <= k < self.spec_n() - 1 - i ==> r@[k] == simple_upper_index(
                    self.spec_n(),
                    i as int,
                    i + 1 + k,
                ),
    {
        let n = self.n();
        base::get_row_indices(i, n - 1)
    }

    /// Get all indices of a column, in row order.
    fn get_col_indices(&self, j: usize) -> (r: Vec<usize>)
        requires
            axis_fits(self.spec_n()),
            1 <= j < self.spec_n(),
        ensures
            r@.len() == j,
            forall|k: int|
                0 <= k < j ==> r@[k] == simple_upper_index(self.spec_n(), k, j as int),
    {
        let n = self.n();
        base::get_col_indices(j - 1, n - 1)
    }

    /// Iterate all `(i, j)` indices of the triangle, in row-major order: the
    /// pair at position `k` is exactly the one whose packed offset is `k`.
    fn iter_triangle_indices(&self) -> (r: Vec<(usize, usize)>)
        requires
            axis_fits(self.spec_n()),
        ensures
            r@.len() == spec_tri_num(self.spec_n() - 1),
            forall|k: int|
                0 <= k < r@.len() ==> simple_upper_valid(
                    self.spec_n(),
                    r@[k].0 as int,
                    r@[k].1 as int,
                ) && simple_upper_index(self.spec_n(), r@[k].0 as int, r@[k].1 as int) == k,
    {
        let n = self.n();
        proof {
            lemma_tri_num_is_monotonic(0, n as int - 1);
        }
        let mut r: Vec<(usize, usize)> = Vec::new();
        let mut i: usize = 0;
        while i + 1 < n
            invariant
                i <= n - 1,
                n == self.spec_n(),
                axis_fits(n as int),
                r@.len() == spec_tri_num(n as int - 1) - spec_tri_num(n - 1 - i),
                0 <= spec_tri_num(n - 1 - i) <= spec_tri_num(n as int - 1),
                forall|k: int|
                    0 <= k < r@.len() ==> simple_upper_valid(
                        n as int,
                        #[trigger] r@[k].0 as int,
                        r@[k].1 as int,
                    ) && simple_upper_index(n as int, r@[k].0 as int, r@[k].1 as int) == k,
            decreases n - i,
        {
            let mut j: usize = i + 1;
            while j < n
                invariant
                    i + 1 <= j <= n,
                    i + 1 < n,
                    n == self.spec_n(),
                    axis_fits(n as int),
                    r@.len() == spec_tri_num(n as int - 1) - spec_tri_num(n - 1 - i) + (j - i - 1),
                    0 <= spec_tri_num(n - 1 - i) <= spec_tri_num(n as int - 1),
                    forall|k: int|
                        0 <= k < r@.len() ==> simple_upper_valid(
                            n as int,
                            #[trigger] r@[k].0 as int,
                            r@[k].1 as int,
                        ) && simple_upper_index(n as int, r@[k].0 as int, r@[k].1 as int) == k,
                decreases n - j,
            {
                proof {
                    lemma_tri_num_is_monotonic(0, n - 1 - i as int);
                }
                r.push((i, j));
                j = j + 1;
            }
            proof {
                assert(spec_tri_num(n - 1 - i as int) == (n - 1 - i) + spec_tri_num(
                    n - 2 - i as int,
                ));
                lemma_tri_num_is_monotonic(0, n - 2 - i as int);
            }
            i = i + 1;
        }
        r
    }
}

impl<T, U: Triangle<T>> SimpleUpperTri<T> for U {
}

/// A mutable simple upper triangle collection.
pub trait SimpleUpperTriMut<T>: TriangleMut<T> {
    /// Get a mutable reference to an element.
    fn get_element_mut(&mut self, i: usize, j: usize) -> (r: &mut T)
        requires
            axis_fits(old(self).spec_n()),
            is_packed(old(self).spec_n(), old(self).contents()),
            simple_upper_valid(old(self).spec_n(), i as int, j as int),
        ensures
            *r == old(self).contents()[simple_upper_index(
                old(self).spec_n(),
                i as int,
                j as int,
            )],
            final(self).contents() == old(self).contents().update(
                simple_upper_index(old(self).spec_n(), i as int, j as int),
                *final(r),
            ),
            final(self).spec_n() == old(self).spec_n(),
    {
        proof {
            lemma_simple_upper_index_in_range(old(self).spec_n(), i as int, j as int);
        }
        let n = self.n();
        let index = base::get_element_index(i, j - (i + 1), n - 1);
        self.get_mut(index)
    }
}

impl<T, U: TriangleMut<T>> SimpleUpperTriMut<T> for U {
}

} // verus!

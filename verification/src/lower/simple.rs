//! A simple lower triangle abstraction: the lower triangle without its
//! diagonal.
//!
//! The shape wraps the base lower indexing over an effective axis length of
//! `n - 1`: logical row `i` (the rows start at `1`) maps to base row `i - 1`,
//! so the packed sequence holds `tri_num(n - 1)` elements.

use vstd::prelude::*;

use crate::def::{axis_fits, is_packed, Triangle, TriangleMut};
use crate::lower::base;
use crate::lower::base::{
    lemma_lower_index_in_range, lemma_lower_index_injective, lemma_lower_round_trip, lower_index,
    lower_valid,
};
use crate::ops::{lemma_tri_num_is_monotonic, spec_tri_num};

verus! {

/// The valid coordinates of the diagonal-free lower triangle over axis
/// length `n`: every `(i, j)` with `j < i`.
pub open spec fn simple_lower_valid(n: int, i: int, j: int) -> bool {
    &&& 1 <= i < n
    &&& 0 <= j < i
}

/// The packed offset of the element at `(i, j)`: logical row `i` is base row
/// `i - 1`.
pub open spec fn simple_lower_index(i: int, j: int) -> int {
    lower_index(i - 1, j)
}

/// Every valid coordinate pair maps into the packed range
/// `[0, tri_num(n - 1))`.
pub proof fn lemma_simple_lower_index_in_range(n: int, i: int, j: int)
    requires
        simple_lower_valid(n, i, j),
    ensures
        0 <= simple_lower_index(i, j) < spec_tri_num(n - 1),
{
    lemma_lower_index_in_range(n - 1, i - 1, j);
}

/// Distinct valid coordinate pairs map to distinct offsets.
pub proof fn lemma_simple_lower_index_injective(i1: int, j1: int, i2: int, j2: int)
    requires
        1 <= i1,
        0 <= j1 < i1,
        1 <= i2,
        0 <= j2 < i2,
        simple_lower_index(i1, j1) == simple_lower_index(i2, j2),
    ensures
        i1 == i2,
        j1 == j2,
{
    lemma_lower_index_injective(i1 - 1, j1, i2 - 1, j2);
}

/// Every offset in `[0, tri_num(n - 1))` is the image of a valid coordinate
/// pair; together with injectivity, of exactly one.
pub proof fn lemma_simple_lower_round_trip(n: int, k: int)
    requires
        1 <= n,
        0 <= k < spec_tri_num(n - 1),
    ensures
        exists|i: int, j: int| simple_lower_valid(n, i, j) && simple_lower_index(i, j) == k,
{
    lemma_lower_round_trip(n - 1, k);
    let (i, j) = choose|i: int, j: int|
        lower_valid(n - 1, i, j) && lower_index(i, j) == k;
    assert(simple_lower_valid(n, i + 1, j) && simple_lower_index(i + 1, j) == k);
}

/// A simple lower triangle collection.
///
/// The packed sequence contains `tri_num(n - 1)` elements: the rows are
/// `1..n` and the columns `0..n - 1`, so that the diagonal is left out.
pub trait SimpleLowerTri<T>: Triangle<T> {
    /// Get a reference to an element.
    fn get_element(&self, i: usize, j: usize) -> (r: &T)
        requires
            axis_fits(self.spec_n()),
            is_packed(self.spec_n(), self.contents()),
            simple_lower_valid(self.spec_n(), i as int, j as int),
        ensures
            *r == self.contents()[simple_lower_index(i as int, j as int)],
    {
        proof {
            lemma_simple_lower_index_in_range(self.spec_n(), i as int, j as int);
        }
        let index = base::get_element_index(i - 1, j);
        self.get(index)
    }

    /// Get references to the elements of a row, in column order.
    fn get_row(&self, i: usize) -> (r: Vec<&T>)
        requires
            axis_fits(self.spec_n()),
            is_packed(self.spec_n(), self.contents()),
            1 <= i < self.spec_n(),
        ensures
            r@.len() == i,
            forall|k: int|
                0 <= k < i ==> *r@[k] == self.contents()[simple_lower_index(i as int, k)],
    {
        let indices = SimpleLowerTri::get_row_indices(self, i);
        let mut r: Vec<&T> = Vec::new();
        let mut k: usize = 0;
        while k < indices.len()
            invariant
                k <= indices@.len() == i,
                axis_fits(self.spec_n()),
                is_packed(self.spec_n(), self.contents()),
                1 <= i < self.spec_n(),
                forall|t: int| 0 <= t < i ==> indices@[t] == simple_lower_index(i as int, t),
                r@.len() == k,
                forall|t: int|
                    0 <= t < k ==> *r@[t] == self.contents()[simple_lower_index(i as int, t)],
            decreases indices@.len() - k,
        {
            proof {
                lemma_simple_lower_index_in_range(self.spec_n(), i as int, k as int);
            }
            r.push(self.get(indices[k]));
            k = k + 1;
        }
        r
    }

    /// Get references to the elements of a column, in row order.
    fn get_col(&self, j: usize) -> (r: Vec<&T>)
        requires
            axis_fits(self.spec_n()),
            is_packed(self.spec_n(), self.contents()),
            0 <= j < self.spec_n(),
        ensures
            r@.len() == self.spec_n() - 1 - j,
            forall|k: int|
                0 <= k < self.spec_n() - 1 - j ==> *r@[k] == self.contents()[simple_lower_index(
                    j + 1 + k,
                    j as int,
                )],
    {
        let indices = SimpleLowerTri::get_col_indices(self, j);
        let mut r: Vec<&T> = Vec::new();
        let mut k: usize = 0;
        while k < indices.len()
            invariant
                k <= indices@.len() == self.spec_n() - 1 - j,
                axis_fits(self.spec_n()),
                is_packed(self.spec_n(), self.contents()),
                0 <= j < self.spec_n(),
                forall|t: int|
                    0 <= t < indices@.len() ==> indices@[t] == simple_lower_index(
                        j + 1 + t,
                        j as int,
                    ),
                r@.len() == k,
                forall|t: int|
                    0 <= t < k ==> *r@[t] == self.contents()[simple_lower_index(
                        j + 1 + t,
                        j as int,
                    )],
            decreases indices@.len() - k,
        {
            proof {
                lemma_simple_lower_index_in_range(self.spec_n(), j + 1 + k as int, j as int);
            }
            r.push(self.get(indices[k]));
            k = k + 1;
        }
        r
    }

    /// Get the first index of a row.
    fn get_row_start_index(&self, i: usize) -> (r: usize)
        requires
            axis_fits(self.spec_n()),
            1 <= i < self.spec_n(),
        ensures
            r == simple_lower_index(i as int, 0),
    {
        proof {
            lemma_tri_num_is_monotonic(i as int - 1, self.spec_n() - 1);
        }
        base::get_row_start_index(i - 1)
    }

    /// Get the first index of a column: the first row holding column `j` is
    /// row `j + 1`. The last column of the square holds no element of the
    /// triangle, so `j` stays below `n - 1`.
    fn get_col_start_index(&self, j: usize) -> (r: usize)
        requires
            axis_fits(self.spec_n()),
            j + 1 < self.spec_n(),
        ensures
            r == simple_lower_index(j + 1, j as int),
    {
        proof {
            lemma_simple_lower_index_in_range(self.spec_n(), j as int + 1, j as int);
        }
        base::get_col_start_index(j)
    }

    /// Get all indices of a row, in column order.
    fn get_row_indices(&self, i: usize) -> (r: Vec<usize>)
        requires
            axis_fits(self.spec_n()),
            1 <= i < self.spec_n(),
        ensures
            r@.len() == i,
            forall|k: int| 0 <= k < i ==> r@[k] == simple_lower_index(i as int, k),
    {
        proof {
            lemma_tri_num_is_monotonic(i as int, self.spec_n() - 1);
        }
        base::get_row_indices(i - 1)
    }

    /// Get all indices of a column, in row order.
    fn get_col_indices(&self, j: usize) -> (r: Vec<usize>)
        requires
            axis_fits(self.spec_n()),
            0 <= j < self.spec_n(),
        ensures
            r@.len() == self.spec_n() - 1 - j,
            forall|k: int|
                0 <= k < self.spec_n() - 1 - j ==> r@[k] == simple_lower_index(
                    j + 1 + k,
                    j as int,
                ),
    {
        let n = self.n();
        base::get_col_indices(j, n - 1)
    }

    /// Iterate all `(i, j)` indices of the triangle, in row-major order: the
    /// pair at position `k` is exactly the one whose packed offset is `k`.
    fn iter_triangle_indices(&self) -> (r: Vec<(usize, usize)>)
        requires
            axis_fits(self.spec_n()),
        ensures
            r@.len() == spec_tri_num(self.spec_n() - 1),
            forall|k: int|
                0 <= k < r@.len() ==> simple_lower_valid(
                    self.spec_n(),
                    r@[k].0 as int,
                    r@[k].1 as int,
                ) && simple_lower_index(r@[k].0 as int, r@[k].1 as int) == k,
    {
        let n = self.n();
        proof {
            lemma_tri_num_is_monotonic(0, n as int - 1);
        }
        let mut r: Vec<(usize, usize)> = Vec::new();
        let mut i: usize = 1;
        while i < n
            invariant
                1 <= i <= n,
                n == self.spec_n(),
                axis_fits(n as int),
                r@.len() == spec_tri_num(i as int - 1),
                spec_tri_num(i as int - 1) <= spec_tri_num(n as int - 1),
                forall|k: int|
                    0 <= k < r@.len() ==> simple_lower_valid(
                        n as int,
                        #[trigger] r@[k].0 as int,
                        r@[k].1 as int,
                    ) && simple_lower_index(r@[k].0 as int, r@[k].1 as int) == k,
            decreases n - i,
        {
            proof {
                lemma_tri_num_is_monotonic(i as int, n as int - 1);
            }
            let mut j: usize = 0;
            while j < i
                invariant
                    0 <= j <= i,
                    1 <= i < n,
                    n == self.spec_n(),
                    axis_fits(n as int),
                    r@.len() == spec_tri_num(i as int - 1) + j,
                    spec_tri_num(i as int) <= spec_tri_num(n as int - 1),
                    forall|k: int|
                        0 <= k < r@.len() ==> simple_lower_valid(
                            n as int,
                            #[trigger] r@[k].0 as int,
                            r@[k].1 as int,
                        ) && simple_lower_index(r@[k].0 as int, r@[k].1 as int) == k,
                decreases i - j,
            {
                r.push((i, j));
                j = j + 1;
            }
            proof {
                assert(spec_tri_num(i as int) == i + spec_tri_num(i as int - 1));
            }
            i = i + 1;
        }
        r
    }
}

impl<T, U: Triangle<T>> SimpleLowerTri<T> for U {
}

/// A mutable simple lower triangle collection.
pub trait SimpleLowerTriMut<T>: TriangleMut<T> {
    /// Get a mutable reference to an element.
    fn get_element_mut(&mut self, i: usize, j: usize) -> (r: &mut T)
        requires
            axis_fits(old(self).spec_n()),
            is_packed(old(self).spec_n(), old(self).contents()),
            simple_lower_valid(old(self).spec_n(), i as int, j as int),
        ensures
            *r == old(self).contents()[simple_lower_index(i as int, j as int)],
            final(self).contents() == old(self).contents().update(
                simple_lower_index(i as int, j as int),
                *final(r),
            ),
            final(self).spec_n() == old(self).spec_n(),
    {
        proof {
            lemma_simple_lower_index_in_range(old(self).spec_n(), i as int, j as int);
        }
        let index = base::get_element_index(i - 1, j);
        self.get_mut(index)
    }
}

impl<T, U: TriangleMut<T>> SimpleLowerTriMut<T> for U {
}

} // verus!

//! A symmetric lower triangle matrix abstraction.
//!
//! The packed storage is the same as for the simple lower triangle — no
//! diagonal, `tri_num(n - 1)` elements — but any `(i, j)` with `i != j` is
//! valid: an access above the diagonal mirrors to the transposed position,
//! so `(i, j)` and `(j, i)` address the same packed slot.

use vstd::prelude::*;

use crate::def::{axis_fits, is_packed, sym_other_axis, Triangle, TriangleMut};
use crate::lower::base;
use crate::lower::simple::{
    lemma_simple_lower_index_in_range, lemma_simple_lower_index_injective,
    lemma_simple_lower_round_trip, simple_lower_index, simple_lower_valid,
};
use crate::ops::{lemma_tri_num_is_monotonic, spec_tri_num};

verus! {

/// The valid coordinates of the symmetric lower triangle over axis length
/// `n`: every in-range pair off the diagonal.
pub open spec fn sym_lower_valid(n: int, i: int, j: int) -> bool {
    &&& 0 <= i < n
    &&& 0 <= j < n
    &&& i != j
}

/// The packed offset of the element at `(i, j)`: the simple lower offset of
/// the pair mirrored below the diagonal.
pub open spec fn sym_lower_index(i: int, j: int) -> int {
    if j < i {
        simple_lower_index(i, j)
    } else {
        simple_lower_index(j, i)
    }
}

/// Mirrored coordinates address the same packed slot.
pub proof fn lemma_sym_lower_index_symmetric(i: int, j: int)
    ensures
        sym_lower_index(i, j) == sym_lower_index(j, i),
{
}

/// Every valid coordinate pair maps into the packed range
/// `[0, tri_num(n - 1))`.
pub proof fn lemma_sym_lower_index_in_range(n: int, i: int, j: int)
    requires
        sym_lower_valid(n, i, j),
    ensures
        0 <= sym_lower_index(i, j) < spec_tri_num(n - 1),
{
    if j < i {
        lemma_simple_lower_index_in_range(n, i, j);
    } else {
        lemma_simple_lower_index_in_range(n, j, i);
    }
}

/// Two valid coordinate pairs share a packed offset only if they are equal
/// or mirror images of each other: the packing is injective modulo symmetry.
pub proof fn lemma_sym_lower_index_injective(n: int, i1: int, j1: int, i2: int, j2: int)
    requires
        sym_lower_valid(n, i1, j1),
        sym_lower_valid(n, i2, j2),
        sym_lower_index(i1, j1) == sym_lower_index(i2, j2),
    ensures
        (i1 == i2 && j1 == j2) || (i1 == j2 && j1 == i2),
{
    if j1 < i1 && j2 < i2 {
        lemma_simple_lower_index_injective(i1, j1, i2, j2);
    } else if j1 < i1 {
        lemma_simple_lower_index_injective(i1, j1, j2, i2);
    } else if j2 < i2 {
        lemma_simple_lower_index_injective(j1, i1, i2, j2);
    } else {
        lemma_simple_lower_index_injective(j1, i1, j2, i2);
    }
}

/// Every offset in `[0, tri_num(n - 1))` is addressed by a valid coordinate
/// pair below the diagonal; together with injectivity modulo symmetry, by
/// exactly that pair and its mirror image.
pub proof fn lemma_sym_lower_round_trip(n: int, k: int)
    requires
        1 <= n,
        0 <= k < spec_tri_num(n - 1),
    ensures
        exists|i: int, j: int|
            sym_lower_valid(n, i, j) && j < i && #[trigger] sym_lower_index(i, j) == k,
{
    lemma_simple_lower_round_trip(n, k);
    let (i, j) = choose|i: int, j: int|
        #[trigger] simple_lower_valid(n, i, j) && simple_lower_index(i, j) == k;
    assert(sym_lower_valid(n, i, j) && j < i && sym_lower_index(i, j) == k);
}

/// A symmetric lower triangle collection.
///
/// The packed sequence contains `tri_num(n - 1)` elements. For all indices
/// `i` and `j` with `i != j`, the pair `(i, j)` addresses the same element
/// as the pair `(j, i)`.
pub trait SymmetricLowerTri<T>: Triangle<T> {
    /// Get a reference to an element.
    fn get_element(&self, i: usize, j: usize) -> (r: &T)
        requires
            axis_fits(self.spec_n()),
            is_packed(self.spec_n(), self.contents()),
            sym_lower_valid(self.spec_n(), i as int, j as int),
        ensures
            *r == self.contents()[sym_lower_index(i as int, j as int)],
    {
        proof {
            lemma_sym_lower_index_in_range(self.spec_n(), i as int, j as int);
        }
        let index = if j < i {
            base::get_element_index(i - 1, j)
        } else {
            base::get_element_index(j - 1, i)
        };
        self.get(index)
    }

    /// Get references to the elements of a row, in column order: one for
    /// every other axis index, smallest first.
    fn get_row(&self, i: usize) -> (r: Vec<&T>)
        requires
            axis_fits(self.spec_n()),
            is_packed(self.spec_n(), self.contents()),
            0 <= i < self.spec_n(),
        ensures
            r@.len() == self.spec_n() - 1,
            forall|k: int|
                0 <= k < self.spec_n() - 1 ==> *r@[k] == self.contents()[sym_lower_index(
                    i as int,
                    sym_other_axis(i as int, k),
                )],
    {
        let indices = SymmetricLowerTri::get_row_indices(self, i);
        let mut r: Vec<&T> = Vec::new();
        let mut k: usize = 0;
        while k < indices.len()
            invariant
                k <= indices@.len() == self.spec_n() - 1,
                axis_fits(self.spec_n()),
                is_packed(self.spec_n(), self.contents()),
                0 <= i < self.spec_n(),
                forall|t: int|
                    0 <= t < indices@.len() ==> indices@[t] == sym_lower_index(
                        i as int,
                        sym_other_axis(i as int, t),
                    ),
                r@.len() == k,
                forall|t: int|
                    0 <= t < k ==> *r@[t] == self.contents()[sym_lower_index(
                        i as int,
                        sym_other_axis(i as int, t),
                    )],
            decreases indices@.len() - k,
        {
            proof {
                lemma_sym_lower_index_in_range(
                    self.spec_n(),
                    i as int,
                    sym_other_axis(i as int, k as int),
                );
            }
            r.push(self.get(indices[k]));
            k = k + 1;
        }
        r
    }

    /// Get references to the elements of a column, in row order; by symmetry
    /// the same elements as the row of the same index.
    fn get_col(&self, j: usize) -> (r: Vec<&T>)
        requires
            axis_fits(self.spec_n()),
            is_packed(self.spec_n(), self.contents()),
            0 <= j < self.spec_n(),
        ensures
            r@.len() == self.spec_n() - 1,
            forall|k: int|
                0 <= k < self.spec_n() - 1 ==> *r@[k] == self.contents()[sym_lower_index(
                    j as int,
                    sym_other_axis(j as int, k),
                )],
    {
        SymmetricLowerTri::get_row(self, j)
    }

    /// Get all indices of a row, in column order: the offsets of the
    /// elements `(i, other)` for every other axis index, smallest first.
    fn get_row_indices(&self, i: usize) -> (r: Vec<usize>)
        requires
            axis_fits(self.spec_n()),
            0 <= i < self.spec_n(),
        ensures
            r@.len() == self.spec_n() - 1,
            forall|k: int|
                0 <= k < self.spec_n() - 1 ==> r@[k] == sym_lower_index(
                    i as int,
                    sym_other_axis(i as int, k),
                ),
    {
        let n = self.n();
        proof {
            lemma_tri_num_is_monotonic(i as int, n as int - 1);
        }
        if i == 0 {
            base::get_col_indices(0, n - 1)
        } else if i == n - 1 {
            base::get_row_indices(i - 1)
        } else {
            let mut r = base::get_row_indices(i - 1);
            let mut rest = base::get_col_indices(i, n - 1);
            r.append(&mut rest);
            r
        }
    }

    /// Get all indices of a column; by symmetry the same offsets as the row
    /// of the same index.
    fn get_col_indices(&self, j: usize) -> (r: Vec<usize>)
        requires
            axis_fits(self.spec_n()),
            0 <= j < self.spec_n(),
        ensures
            r@.len() == self.spec_n() - 1,
            forall|k: int|
                0 <= k < self.spec_n() - 1 ==> r@[k] == sym_lower_index(
                    j as int,
                    sym_other_axis(j as int, k),
                ),
    {
        SymmetricLowerTri::get_row_indices(self, j)
    }
}

impl<T, U: Triangle<T>> SymmetricLowerTri<T> for U {
}

/// A mutable symmetric lower triangle collection.
pub trait SymmetricLowerTriMut<T>: TriangleMut<T> {
    /// Get a mutable reference to an element; the pairs `(i, j)` and
    /// `(j, i)` reach the same packed slot.
    fn get_element_mut(&mut self, i: usize, j: usize) -> (r: &mut T)
        requires
            axis_fits(old(self).spec_n()),
            is_packed(old(self).spec_n(), old(self).contents()),
            sym_lower_valid(old(self).spec_n(), i as int, j as int),
        ensures
            *r == old(self).contents()[sym_lower_index(i as int, j as int)],
            final(self).contents() == old(self).contents().update(
                sym_lower_index(i as int, j as int),
                *final(r),
            ),
            final(self).spec_n() == old(self).spec_n(),
    {
        proof {
            lemma_sym_lower_index_in_range(old(self).spec_n(), i as int, j as int);
        }
        let index = if j < i {
            base::get_element_index(i - 1, j)
        } else {
            base::get_element_index(j - 1, i)
        };
        self.get_mut(index)
    }
}

impl<T, U: TriangleMut<T>> SymmetricLowerTriMut<T> for U {
}

} // verus!

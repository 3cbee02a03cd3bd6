//! Triangle matrix container interface.
//!
//! A triangle matrix is any fixed-length, integer-indexed packed sequence
//! together with an axis length `n`. The shape traits of this crate attach
//! their indexing operations to every implementor of these traits.

use vstd::prelude::*;

use crate::ops::spec_tri_num;

verus! {

/// A triangle matrix abstraction type: a packed sequence of elements plus the
/// axis length `n` of the square matrix the triangle is taken from.
pub trait Triangle<T>: Sized {
    /// The axis length of the matrix, as seen by specifications.
    spec fn spec_n(&self) -> int;

    /// The packed sequence, as seen by specifications.
    spec fn contents(&self) -> Seq<T>;

    /// The length of either axis of the matrix.
    fn n(&self) -> (r: usize)
        ensures
            r == self.spec_n(),
    ;

    /// Read the packed element at a one dimensional index.
    fn get(&self, index: usize) -> (r: &T)
        requires
            0 <= index < self.contents().len(),
        ensures
            *r == self.contents()[index as int],
    ;
}

/// A mutable triangle matrix abstraction type.
pub trait TriangleMut<T>: Triangle<T> {
    /// Mutably borrow the packed element at a one dimensional index.
    fn get_mut(&mut self, index: usize) -> (r: &mut T)
        requires
            0 <= index < old(self).contents().len(),
        ensures
            *r == old(self).contents()[index as int],
            final(self).contents() == old(self).contents().update(
                index as int,
                *final(r),
            ),
            final(self).spec_n() == old(self).spec_n(),
    ;
}

/// The axis length `n` of a diagonal-free shape is workable: there is at
/// least one row or column index, and the packed size `tri_num(n - 1)` is
/// representable, so no offset computation can exceed the machine range.
pub open spec fn axis_fits(n: int) -> bool {
    &&& 1 <= n
    &&& spec_tri_num(n - 1) <= usize::MAX
}

/// The packed sequence of a diagonal-free shape over axis length `n` holds
/// exactly `tri_num(n - 1)` elements.
pub open spec fn is_packed<T>(n: int, s: Seq<T>) -> bool {
    s.len() == spec_tri_num(n - 1)
}

/// The other axis index met at position `k` when the elements of row or
/// column `i` of a symmetric shape are listed in order: the indices `0..n`
/// with `i` itself skipped.
pub open spec fn sym_other_axis(i: int, k: int) -> int {
    if k < i {
        k
    } else {
        k + 1
    }
}

/// A triangle matrix backed by a `Vec`, with the axis length stored beside
/// the packed elements.
pub struct TriVec<T> {
    /// The axis length of the matrix.
    pub n: usize,
    /// The packed elements.
    pub data: Vec<T>,
}

impl<T> TriVec<T> {
    /// Wrap an axis length and a packed sequence.
    pub fn new(n: usize, data: Vec<T>) -> (r: TriVec<T>)
        ensures
            r.spec_n() == n,
            r.contents() == data@,
    {
        TriVec { n, data }
    }
}

impl<T> Triangle<T> for TriVec<T> {
    open spec fn spec_n(&self) -> int {
        self.n as int
    }

    open spec fn contents(&self) -> Seq<T> {
        self.data@
    }

    fn n(&self) -> usize {
        self.n
    }

    fn get(&self, index: usize) -> &T {
        &self.data[index]
    }
}

impl<T> TriangleMut<T> for TriVec<T> {
    fn get_mut(&mut self, index: usize) -> &mut T {
        &mut self.data[index]
    }
}

} // verus!

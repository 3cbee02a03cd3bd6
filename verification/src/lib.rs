//! Index arithmetic for triangle matrices stored in a packed one-dimensional
//! layout.
//!
//! A square matrix whose meaningful elements form an upper or lower triangle
//! can be stored densely, row by row, in a flat collection. This crate turns
//! two-dimensional row/column coordinates `(i, j)` into offsets into that
//! packed sequence, and back, for four shapes: the plain upper and lower
//! triangles without their diagonal, and the symmetric variants in which
//! `(i, j)` and `(j, i)` address the same packed slot.
//!
//! The container is abstracted by the [`Triangle`] and [`TriangleMut`]
//! traits: any type that can report its axis length and give indexed access
//! to a packed sequence gets the four shape APIs for free. [`TriVec`] is the
//! ready-made container backed by a `Vec`.

mod def;

pub mod lower;
pub mod upper;

pub mod ops;

pub use def::{axis_fits, is_packed, sym_other_axis, TriVec, Triangle, TriangleMut};
pub use ops::tri_num;

pub use lower::{SimpleLowerTri, SimpleLowerTriMut, SymmetricLowerTri, SymmetricLowerTriMut};
pub use upper::{SimpleUpperTri, SimpleUpperTriMut, SymmetricUpperTri, SymmetricUpperTriMut};

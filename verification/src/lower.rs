//! Lower triangle indexing: base operations and the diagonal-free shape traits.

pub mod base;

mod simple;
mod symmetric;

pub use simple::{SimpleLowerTri, SimpleLowerTriMut};
pub use simple::{lemma_simple_lower_index_in_range, lemma_simple_lower_index_injective, lemma_simple_lower_round_trip, simple_lower_index, simple_lower_valid};
pub use symmetric::{SymmetricLowerTri, SymmetricLowerTriMut};
pub use symmetric::{lemma_sym_lower_index_in_range, lemma_sym_lower_index_injective, lemma_sym_lower_index_symmetric, lemma_sym_lower_round_trip, sym_lower_index, sym_lower_valid};

//! Upper triangle indexing: base operations and the diagonal-free shape traits.

pub mod base;

mod simple;
mod symmetric;

pub use simple::{SimpleUpperTri, SimpleUpperTriMut};
pub use simple::{lemma_simple_upper_index_in_range, lemma_simple_upper_index_injective, lemma_simple_upper_round_trip, simple_upper_index, simple_upper_valid};
pub use symmetric::{SymmetricUpperTri, SymmetricUpperTriMut};
pub use symmetric::{lemma_sym_upper_index_in_range, lemma_sym_upper_index_injective, lemma_sym_upper_index_symmetric, lemma_sym_upper_round_trip, sym_upper_index, sym_upper_valid};

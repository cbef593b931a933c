//! Compressed sparse row / column matrices with a checked structure.
//!
//! A matrix stores, for each index of its outer dimension (rows in row-major
//! storage, columns in column-major storage), the sorted inner coordinates of its
//! explicit entries and their values, delimited by an offset array `indptr`.

pub mod array;
pub mod permutation;
pub mod csvec;
pub mod outer;
pub mod csmat;

pub use crate::array::ArrayLike;
pub use crate::csmat::{
    check_compressed_structure, CompressedStorage, CsMat, StructuralError, StructuralErrorKind,
};
pub use crate::csvec::CsVec;
pub use crate::outer::OuterIterator;
pub use crate::permutation::Permutation;

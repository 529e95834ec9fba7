//! Dense matrices over arbitrary strided storage layouts.
//!
//! A [`Matrix`] wraps one storage value implementing [`Array`]: fixed-size owned
//! storage ([`Static`]), heap storage ([`Dynamic`]), or borrowed strided views
//! ([`View`], [`ViewMut`]). Element `[i, j]` of every storage lives at offset
//! `i * strides[0] + j * strides[1]` of the storage's buffer.
pub mod prelude;
pub mod matrix;
pub mod matrices;
pub mod operators;
pub mod iterator;

pub use prelude::{Dim, Dyn, Element, Scalar, Stat};
pub use matrix::{Array, ArrayMut, ArrayOwned, CastError, Compatible, Matrix};
pub use matrices::{DMatrix, DVector, Dynamic, SMatrix, SVector, Static, View, ViewMut};
pub use operators::{AddTo, BinOp, DivTo, MulTo, SubTo};
pub use iterator::{IndexIter, IndexedIter, IndexedIterMut, MatrixIter, MatrixIterMut};

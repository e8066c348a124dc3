//! Dense numeric arrays of one to four dimensions, with their contracts
//! proved.
//!
//! An [`ArrayND`] owns nested vectors, as deep as its rank, together with
//! its shape, its element count and its smallest and largest element. All
//! operations see the elements in row-major order, the order in which the
//! last dimension varies fastest:
//!
//! - construction from nested data or from a shape and a flat sequence
//!   ([`array`], [`storage`], [`shape`], [`nested`]);
//! - reshaping and flattening, which never change that order ([`array`]);
//! - element-by-element transforms of one array or of two arrays of the
//!   same shape ([`array`], [`elementwise`]) and the catalogue built on
//!   them ([`ops`], [`arithmetic`]);
//! - sums by one worker or by a pool of workers ([`reduce`]);
//! - generated arrays ([`generator`]) and arrays as text ([`text`]).
//!
//! [`Array1D`] is the one-dimensional array with arithmetic operators
//! ([`array1d`]). The laws that relate the operations to one another are
//! stated and proved in [`laws`].
//!
//! The element type is a parameter. The arrays need no more of it than
//! `Copy`, its comparisons and, for arithmetic, its operators, so the same
//! code serves integers and floating-point numbers. Every contract says
//! which operator calls a result came from; for types whose operators
//! obey spec functions known to the proofs, as the integers do, it
//! also says which value the result is.
pub mod arithmetic;
pub mod array;
pub mod array1d;
pub mod elementwise;
pub mod error;
pub mod generator;
pub mod laws;
pub mod nested;
pub mod ops;
pub mod order;
pub mod reduce;
pub mod shape;
pub mod storage;
pub mod text;

pub use array::asarray;
pub use array::generate;
pub use array::ArrayND;
pub use array1d::arange;
pub use array1d::Array1D;
pub use error::ArrayError;
pub use storage::ArrayData;

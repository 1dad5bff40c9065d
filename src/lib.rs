//! Dense integer matrices with wrap-around arithmetic, and binary operations
//! over them whose result is cached.

pub mod arith;
pub mod cli;
pub mod matrix;
pub mod operation;
pub mod product_laws;
pub mod render;

pub use cli::{process, Arguments, Opt};
pub use matrix::{Matrix, MatrixError, MatrixView};
pub use operation::{Operation, OperationView, Operator};

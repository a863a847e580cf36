//! Kiru: a small configuration language for task runs, compiled to a plan that
//! an executor carries out.
pub mod diagnostics;
pub mod dsl;
pub mod exec;
pub mod ir;
pub mod layout;
pub mod lower;
pub mod names;
pub mod plan;
pub mod sexp;
pub mod syntax;
pub mod text;
pub mod tree;

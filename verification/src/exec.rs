//! The execution of runs: what is decided on the way, and how it is shown.
pub mod chain;
pub mod colors;
pub mod context;
pub mod direnv;
pub mod error;
pub mod kill;
pub mod machine;
pub mod meaning;
pub mod model;
pub mod report;
pub mod resolve;
pub mod rows;
pub mod shown;
pub mod subprocess;
pub mod sync;
pub mod view;

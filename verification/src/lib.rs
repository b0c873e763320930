//! A source-to-source compiler and runtime core for a small dataflow-parallel
//! language. Subroutines are lowered into flat coroutine blocks with explicit
//! captured contexts, wait-sets and submit-sets, and emitted as C against a
//! fixed runtime ABI; the runtime side is a verified dataflow-value registry
//! with request/submit/spawn transitions. A separate model runner schedules
//! native library calls over named, typed variables.

pub mod ast;
pub mod compute;
pub mod emit;
pub mod error;
pub mod id;
pub mod laws;
pub mod lexer;
pub mod model;
pub mod names;
pub mod runtime;
pub mod translator;

pub use error::Result;

//! A compiler for an eight-instruction tape language: it turns source text into
//! a small control-flow program of low-level operations, ready to be handed to a
//! backend that makes machine code of it.
//!
//! `codegen` is the code generator and `ir` and `program` are what it produces;
//! `source` says which texts it accepts. `machine` gives the instructions their
//! meaning and `meaning` gives the source text its own; `interpreter` runs a
//! program. `shape`, `effects` and `simulation` hold what is proved of every
//! compilation.

pub mod codegen;
pub mod config;
pub mod effects;
pub mod interpreter;
pub mod ir;
pub mod machine;
pub mod meaning;
pub mod program;
pub mod shape;
pub mod simulation;
pub mod source;

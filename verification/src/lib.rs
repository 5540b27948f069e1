//! Arithmetic-circuit gadgets over a 64-bit prime field, with a
//! trace-satisfiability oracle that checks every registered constraint
//! and lookup against a concrete witness trace.

pub mod cs;
pub mod divu;
pub mod error;
pub mod expr;
pub mod field;
pub mod is_lt;
pub mod is_zero;
pub mod lkm;
pub mod mock_prover;
pub mod program;
pub mod uint;
pub mod witness;

pub use field::Fp;

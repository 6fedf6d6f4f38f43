//! Resource-oriented test-case generation for an interface fuzzer.
//!
//! The crate models a fuzzing target as an immutable catalog of operations
//! and resource types (`target`), and generates programs — ordered sequences
//! of calls with bound argument values — by a stochastic, resource-directed
//! policy (`gen`). Randomness is drawn through an explicit source (`rng`) so
//! that every decision is an exact function of the draws it consumed.
//! A small fixed-width codec (`codec`) frames records for the execution
//! boundary, and `tail` keeps the bounded tail of a byte stream.

pub mod codec;
pub mod gen;
pub mod prog;
pub mod rng;
pub mod tail;
pub mod target;

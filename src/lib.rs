//! A calculator evaluator that deliberately corrupts some of its results.
//!
//! Arithmetic is exact 64-bit wraparound arithmetic, but at chosen points the
//! evaluator consults a stream of random draws and, with a configurable
//! probability, nudges a value by one or flips one of its low bits.
pub mod numbers;
pub mod glitch;
pub mod ast;
pub mod eval;
pub mod laws;

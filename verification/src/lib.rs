//! Uniform samples on the unit interval, built bit by bit.
//!
//! A source of uniformly distributed machine words is turned into IEEE-754
//! values with exact interval guarantees: half-open `[0, 1)`, open `(0, 1)`
//! and closed `[0, 1]`. Every value is handled as its bit pattern, and every
//! statement about a value is a statement about whole numbers, so that each
//! guarantee is machine-checked.

pub mod precision;
pub mod value;
pub mod encode;
pub mod rounding;
pub mod binary;
pub mod source;
pub mod uniform;
pub mod open01;
pub mod closed01;

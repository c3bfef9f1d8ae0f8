//! Declarative reading of whitespace-delimited tokens from a text source.
//!
//! The crate turns a text buffer (or a line-by-line feed) into a stream of
//! whitespace-separated tokens and reads typed values from that stream:
//! scalars, fixed-size arrays, length-prefixed arrays, tuples and record
//! shapes, each consuming exactly the tokens it needs, left to right.

pub mod error;
pub mod input;
pub mod marker;
pub mod read;
pub mod scalar;
pub mod source;
pub mod tokenize;

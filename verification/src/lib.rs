//! Fast decimal formatting of integers into an output buffer.
//!
//! `decimal` holds the mathematical model of the text written for a number,
//! `digits` the digit-block conversions used by the writer, and `writer` the
//! output buffer with its `write_*` methods.

pub mod decimal;
mod digits;
pub mod writer;

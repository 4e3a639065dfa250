//! A reverse-Polish-notation calculator over 128-bit signed integers.
//!
//! Tokens are evaluated left to right against a value stack: numeric
//! literals (with optional radix prefixes) are pushed, operator words pop
//! their operands and push results, and fold operators collapse the whole
//! stack into a single value. An endianness operator reverses the low-order
//! bytes of a value's little-endian representation.

pub mod endian;
pub mod error;
pub mod eval;
pub mod fold;
pub mod lexer;
pub mod literal;
pub mod stack;

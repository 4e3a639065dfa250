//! The error kinds an evaluation can end with.

use vstd::prelude::*;

verus! {

/// Every failure aborts the current evaluation pass; the stack as it
/// existed at the moment of failure is discarded by the caller.
///
/// Integer division by zero is reported as the explicit `DivideByZero`
/// kind rather than left as a runtime trap.
#[derive(Debug, Clone, Copy, PartialEq, Eq, Structural)]
pub enum Error {
    /// An operator required more operands than the stack held.
    StackUnderflow,
    /// A token could not be parsed as a numeric literal in the
    /// applicable radix, or its value does not fit in an `i128`.
    ParseError,
    /// The width operand of an endian operation was negative or
    /// exceeded 8; it carries the offending value.
    EndianWidth { width: i128 },
    /// A `div` or `:div` step had a zero divisor.
    DivideByZero,
}

impl Error {
    /// A short human-readable description, for callers that report errors.
    pub fn describe(&self) -> String {
        match self {
            Error::StackUnderflow => "stack underflow".to_owned(),
            Error::ParseError => "could not parse token as a number".to_owned(),
            Error::EndianWidth { width: _ } => "endian width out of range".to_owned(),
            Error::DivideByZero => "division by zero".to_owned(),
        }
    }
}

} // verus!

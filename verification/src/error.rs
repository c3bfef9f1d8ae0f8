//! The failures a read can report.
//!
//! Every failure is fatal for the read that raised it: there is no recovery
//! path, and a read that fails binds nothing.

use vstd::prelude::*;
use vstd::string::*;

verus! {

/// The scalar kind a token was parsed as; used in failure reports.
#[derive(Clone, Copy, Debug, PartialEq, Eq, Structural)]
pub enum Target {
    U8,
    U16,
    U32,
    U64,
    U128,
    Usize,
    I8,
    I16,
    I32,
    I64,
    I128,
    Isize,
    Bool,
    Char,
    Usize1,
    Isize1,
}

impl Target {
    /// The name of the kind, as it appears in failure reports.
    pub fn name(&self) -> &'static str {
        match self {
            Target::U8 => "u8",
            Target::U16 => "u16",
            Target::U32 => "u32",
            Target::U64 => "u64",
            Target::U128 => "u128",
            Target::Usize => "usize",
            Target::I8 => "i8",
            Target::I16 => "i16",
            Target::I32 => "i32",
            Target::I64 => "i64",
            Target::I128 => "i128",
            Target::Isize => "isize",
            Target::Bool => "bool",
            Target::Char => "char",
            Target::Usize1 => "Usize1",
            Target::Isize1 => "Isize1",
        }
    }
}

/// Why a read failed.
#[derive(Debug)]
pub enum ReadError {
    /// A token was required but none remained.  The declared bindings
    /// probably do not match the shape of the input.
    TokenExhaustion,
    /// A token could not be parsed as the requested scalar kind.
    ScalarParseFailure { token: String, target: Target },
    /// A one-indexed value was at the minimum of its type, so shifting it
    /// down by one would leave the representable range.
    NumericUnderflow { target: Target },
}

impl ReadError {
    /// A human-readable description of the failure.
    pub fn message(&self) -> String {
        let mut m = String::new();
        match self {
            ReadError::TokenExhaustion => {
                m.append("failed to get the next token; ");
                m.append("maybe the reader reached the end of the input. ");
                m.append("ensure that the declared bindings match the input shape.");
            },
            ReadError::ScalarParseFailure { token, target } => {
                m.append("failed to parse the input `");
                m.append(token.as_str());
                m.append("` as a value of type `");
                m.append(target.name());
                m.append("`; ensure that the input format is correctly specified.");
            },
            ReadError::NumericUnderflow { target } => {
                m.append("attempted to read the minimum representable value as a `");
                m.append(target.name());
                m.append("`; it cannot be shifted down to a zero-indexed value.");
            },
        }
        m
    }
}

} // verus!

//! [`Readable`] implementations for the primitive scalar types.
//!
//! Every scalar consumes exactly one token.  An unsigned kind succeeds on
//! the tokens of the unsigned decimal grammar whose value fits its range, a
//! signed kind on those of the signed grammar; `bool` on `true`/`false`,
//! `char` on one-character tokens, `String` on any token.

use vstd::prelude::*;
use crate::error::{ReadError, Target};
use crate::scalar::{
    is_int_token, is_uint_token, int_token_val, parse_bool, parse_char, parse_int, parse_int_wide,
    parse_uint, parse_uint_wide, uint_token_val,
};
use crate::source::{Readable, Source};

verus! {

/// The failure report shared by the scalar kinds: exhaustion when no token
/// remained, otherwise a parse failure naming the offending token and `tg`.
pub open spec fn scalar_error_is(toks: Seq<Seq<char>>, tg: Target, e: ReadError) -> bool {
    if toks.len() == 0 {
        e == ReadError::TokenExhaustion
    } else {
        e matches ReadError::ScalarParseFailure { token, target } && token@ == toks[0] && target
            == tg
    }
}

impl Readable for u8 {
    type Output = u8;

    open spec fn ok_on(toks: Seq<Seq<char>>) -> bool {
        toks.len() > 0 && is_uint_token(toks[0]) && uint_token_val(toks[0]) <= u8::MAX as int
    }

    open spec fn consumes(toks: Seq<Seq<char>>) -> int {
        1
    }

    open spec fn value_is(toks: Seq<Seq<char>>, out: u8) -> bool {
        out as int == uint_token_val(toks[0])
    }

    open spec fn error_is(toks: Seq<Seq<char>>, e: ReadError) -> bool {
        scalar_error_is(toks, Target::U8, e)
    }

    fn read<S: Source>(source: &mut S) -> (r: Result<u8, ReadError>) {
        match source.next_token() {
            None => Err(ReadError::TokenExhaustion),
            Some(tok) => match parse_uint(tok.as_str(), u8::MAX as u64) {
                Some(v) => Ok(v as u8),
                None => Err(ReadError::ScalarParseFailure { token: tok, target: Target::U8 }),
            },
        }
    }
}

impl Readable for u16 {
    type Output = u16;

    open spec fn ok_on(toks: Seq<Seq<char>>) -> bool {
        toks.len() > 0 && is_uint_token(toks[0]) && uint_token_val(toks[0]) <= u16::MAX as int
    }

    open spec fn consumes(toks: Seq<Seq<char>>) -> int {
        1
    }

    open spec fn value_is(toks: Seq<Seq<char>>, out: u16) -> bool {
        out as int == uint_token_val(toks[0])
    }

    open spec fn error_is(toks: Seq<Seq<char>>, e: ReadError) -> bool {
        scalar_error_is(toks, Target::U16, e)
    }

    fn read<S: Source>(source: &mut S) -> (r: Result<u16, ReadError>) {
        match source.next_token() {
            None => Err(ReadError::TokenExhaustion),
            Some(tok) => match parse_uint(tok.as_str(), u16::MAX as u64) {
                Some(v) => Ok(v as u16),
                None => Err(ReadError::ScalarParseFailure { token: tok, target: Target::U16 }),
            },
        }
    }
}

impl Readable for u32 {
    type Output = u32;

    open spec fn ok_on(toks: Seq<Seq<char>>) -> bool {
        toks.len() > 0 && is_uint_token(toks[0]) && uint_token_val(toks[0]) <= u32::MAX as int
    }

    open spec fn consumes(toks: Seq<Seq<char>>) -> int {
        1
    }

    open spec fn value_is(toks: Seq<Seq<char>>, out: u32) -> bool {
        out as int == uint_token_val(toks[0])
    }

    open spec fn error_is(toks: Seq<Seq<char>>, e: ReadError) -> bool {
        scalar_error_is(toks, Target::U32, e)
    }

    fn read<S: Source>(source: &mut S) -> (r: Result<u32, ReadError>) {
        match source.next_token() {
            None => Err(ReadError::TokenExhaustion),
            Some(tok) => match parse_uint(tok.as_str(), u32::MAX as u64) {
                Some(v) => Ok(v as u32),
                None => Err(ReadError::ScalarParseFailure { token: tok, target: Target::U32 }),
            },
        }
    }
}

impl Readable for u64 {
    type Output = u64;

    open spec fn ok_on(toks: Seq<Seq<char>>) -> bool {
        toks.len() > 0 && is_uint_token(toks[0]) && uint_token_val(toks[0]) <= u64::MAX as int
    }

    open spec fn consumes(toks: Seq<Seq<char>>) -> int {
        1
    }

    open spec fn value_is(toks: Seq<Seq<char>>, out: u64) -> bool {
        out as int == uint_token_val(toks[0])
    }

    open spec fn error_is(toks: Seq<Seq<char>>, e: ReadError) -> bool {
        scalar_error_is(toks, Target::U64, e)
    }

    fn read<S: Source>(source: &mut S) -> (r: Result<u64, ReadError>) {
        match source.next_token() {
            None => Err(ReadError::TokenExhaustion),
            Some(tok) => match parse_uint(tok.as_str(), u64::MAX) {
                Some(v) => Ok(v),
                None => Err(ReadError::ScalarParseFailure { token: tok, target: Target::U64 }),
            },
        }
    }
}

impl Readable for u128 {
    type Output = u128;

    open spec fn ok_on(toks: Seq<Seq<char>>) -> bool {
        toks.len() > 0 && is_uint_token(toks[0]) && uint_token_val(toks[0]) <= u128::MAX as int
    }

    open spec fn consumes(toks: Seq<Seq<char>>) -> int {
        1
    }

    open spec fn value_is(toks: Seq<Seq<char>>, out: u128) -> bool {
        out as int == uint_token_val(toks[0])
    }

    open spec fn error_is(toks: Seq<Seq<char>>, e: ReadError) -> bool {
        scalar_error_is(toks, Target::U128, e)
    }

    fn read<S: Source>(source: &mut S) -> (r: Result<u128, ReadError>) {
        match source.next_token() {
            None => Err(ReadError::TokenExhaustion),
            Some(tok) => match parse_uint_wide(tok.as_str(), u128::MAX) {
                Some(v) => Ok(v),
                None => Err(ReadError::ScalarParseFailure { token: tok, target: Target::U128 }),
            },
        }
    }
}

impl Readable for usize {
    type Output = usize;

    open spec fn ok_on(toks: Seq<Seq<char>>) -> bool {
        toks.len() > 0 && is_uint_token(toks[0]) && uint_token_val(toks[0]) <= usize::MAX as int
    }

    open spec fn consumes(toks: Seq<Seq<char>>) -> int {
        1
    }

    open spec fn value_is(toks: Seq<Seq<char>>, out: usize) -> bool {
        out as int == uint_token_val(toks[0])
    }

    open spec fn error_is(toks: Seq<Seq<char>>, e: ReadError) -> bool {
        scalar_error_is(toks, Target::Usize, e)
    }

    fn read<S: Source>(source: &mut S) -> (r: Result<usize, ReadError>) {
        match source.next_token() {
            None => Err(ReadError::TokenExhaustion),
            Some(tok) => match parse_uint(tok.as_str(), usize::MAX as u64) {
                Some(v) => Ok(v as usize),
                None => Err(ReadError::ScalarParseFailure { token: tok, target: Target::Usize }),
            },
        }
    }
}

impl Readable for i8 {
    type Output = i8;

    open spec fn ok_on(toks: Seq<Seq<char>>) -> bool {
        toks.len() > 0 && is_int_token(toks[0]) && i8::MIN as int <= int_token_val(toks[0])
            <= i8::MAX as int
    }

    open spec fn consumes(toks: Seq<Seq<char>>) -> int {
        1
    }

    open spec fn value_is(toks: Seq<Seq<char>>, out: i8) -> bool {
        out as int == int_token_val(toks[0])
    }

    open spec fn error_is(toks: Seq<Seq<char>>, e: ReadError) -> bool {
        scalar_error_is(toks, Target::I8, e)
    }

    fn read<S: Source>(source: &mut S) -> (r: Result<i8, ReadError>) {
        match source.next_token() {
            None => Err(ReadError::TokenExhaustion),
            Some(tok) => match parse_int(tok.as_str(), i8::MIN as i64, i8::MAX as i64) {
                Some(v) => Ok(v as i8),
                None => Err(ReadError::ScalarParseFailure { token: tok, target: Target::I8 }),
            },
        }
    }
}

impl Readable for i16 {
    type Output = i16;

    open spec fn ok_on(toks: Seq<Seq<char>>) -> bool {
        toks.len() > 0 && is_int_token(toks[0]) && i16::MIN as int <= int_token_val(toks[0])
            <= i16::MAX as int
    }

    open spec fn consumes(toks: Seq<Seq<char>>) -> int {
        1
    }

    open spec fn value_is(toks: Seq<Seq<char>>, out: i16) -> bool {
        out as int == int_token_val(toks[0])
    }

    open spec fn error_is(toks: Seq<Seq<char>>, e: ReadError) -> bool {
        scalar_error_is(toks, Target::I16, e)
    }

    fn read<S: Source>(source: &mut S) -> (r: Result<i16, ReadError>) {
        match source.next_token() {
            None => Err(ReadError::TokenExhaustion),
            Some(tok) => match parse_int(tok.as_str(), i16::MIN as i64, i16::MAX as i64) {
                Some(v) => Ok(v as i16),
                None => Err(ReadError::ScalarParseFailure { token: tok, target: Target::I16 }),
            },
        }
    }
}

impl Readable for i32 {
    type Output = i32;

    open spec fn ok_on(toks: Seq<Seq<char>>) -> bool {
        toks.len() > 0 && is_int_token(toks[0]) && i32::MIN as int <= int_token_val(toks[0])
            <= i32::MAX as int
    }

    open spec fn consumes(toks: Seq<Seq<char>>) -> int {
        1
    }

    open spec fn value_is(toks: Seq<Seq<char>>, out: i32) -> bool {
        out as int == int_token_val(toks[0])
    }

    open spec fn error_is(toks: Seq<Seq<char>>, e: ReadError) -> bool {
        scalar_error_is(toks, Target::I32, e)
    }

    fn read<S: Source>(source: &mut S) -> (r: Result<i32, ReadError>) {
        match source.next_token() {
            None => Err(ReadError::TokenExhaustion),
            Some(tok) => match parse_int(tok.as_str(), i32::MIN as i64, i32::MAX as i64) {
                Some(v) => Ok(v as i32),
                None => Err(ReadError::ScalarParseFailure { token: tok, target: Target::I32 }),
            },
        }
    }
}

impl Readable for i64 {
    type Output = i64;

    open spec fn ok_on(toks: Seq<Seq<char>>) -> bool {
        toks.len() > 0 && is_int_token(toks[0]) && i64::MIN as int <= int_token_val(toks[0])
            <= i64::MAX as int
    }

    open spec fn consumes(toks: Seq<Seq<char>>) -> int {
        1
    }

    open spec fn value_is(toks: Seq<Seq<char>>, out: i64) -> bool {
        out as int == int_token_val(toks[0])
    }

    open spec fn error_is(toks: Seq<Seq<char>>, e: ReadError) -> bool {
        scalar_error_is(toks, Target::I64, e)
    }

    fn read<S: Source>(source: &mut S) -> (r: Result<i64, ReadError>) {
        match source.next_token() {
            None => Err(ReadError::TokenExhaustion),
            Some(tok) => match parse_int(tok.as_str(), i64::MIN, i64::MAX) {
                Some(v) => Ok(v),
                None => Err(ReadError::ScalarParseFailure { token: tok, target: Target::I64 }),
            },
        }
    }
}

impl Readable for i128 {
    type Output = i128;

    open spec fn ok_on(toks: Seq<Seq<char>>) -> bool {
        toks.len() > 0 && is_int_token(toks[0]) && i128::MIN as int <= int_token_val(toks[0])
            && int_token_val(toks[0]) <= i128::MAX as int
    }

    open spec fn consumes(toks: Seq<Seq<char>>) -> int {
        1
    }

    open spec fn value_is(toks: Seq<Seq<char>>, out: i128) -> bool {
        out as int == int_token_val(toks[0])
    }

    open spec fn error_is(toks: Seq<Seq<char>>, e: ReadError) -> bool {
        scalar_error_is(toks, Target::I128, e)
    }

    fn read<S: Source>(source: &mut S) -> (r: Result<i128, ReadError>) {
        match source.next_token() {
            None => Err(ReadError::TokenExhaustion),
            Some(tok) => match parse_int_wide(tok.as_str()) {
                Some(v) => Ok(v),
                None => Err(ReadError::ScalarParseFailure { token: tok, target: Target::I128 }),
            },
        }
    }
}

impl Readable for isize {
    type Output = isize;

    open spec fn ok_on(toks: Seq<Seq<char>>) -> bool {
        toks.len() > 0 && is_int_token(toks[0]) && isize::MIN as int <= int_token_val(toks[0])
            <= isize::MAX as int
    }

    open spec fn consumes(toks: Seq<Seq<char>>) -> int {
        1
    }

    open spec fn value_is(toks: Seq<Seq<char>>, out: isize) -> bool {
        out as int == int_token_val(toks[0])
    }

    open spec fn error_is(toks: Seq<Seq<char>>, e: ReadError) -> bool {
        scalar_error_is(toks, Target::Isize, e)
    }

    fn read<S: Source>(source: &mut S) -> (r: Result<isize, ReadError>) {
        match source.next_token() {
            None => Err(ReadError::TokenExhaustion),
            Some(tok) => match parse_int(tok.as_str(), isize::MIN as i64, isize::MAX as i64) {
                Some(v) => Ok(v as isize),
                None => Err(ReadError::ScalarParseFailure { token: tok, target: Target::Isize }),
            },
        }
    }
}

impl Readable for bool {
    type Output = bool;

    open spec fn ok_on(toks: Seq<Seq<char>>) -> bool {
        toks.len() > 0 && (toks[0] == "true"@ || toks[0] == "false"@)
    }

    open spec fn consumes(toks: Seq<Seq<char>>) -> int {
        1
    }

    open spec fn value_is(toks: Seq<Seq<char>>, out: bool) -> bool {
        out == (toks[0] == "true"@)
    }

    open spec fn error_is(toks: Seq<Seq<char>>, e: ReadError) -> bool {
        scalar_error_is(toks, Target::Bool, e)
    }

    fn read<S: Source>(source: &mut S) -> (r: Result<bool, ReadError>) {
        match source.next_token() {
            None => Err(ReadError::TokenExhaustion),
            Some(tok) => match parse_bool(tok.as_str()) {
                Some(v) => Ok(v),
                None => Err(ReadError::ScalarParseFailure { token: tok, target: Target::Bool }),
            },
        }
    }
}

impl Readable for char {
    type Output = char;

    open spec fn ok_on(toks: Seq<Seq<char>>) -> bool {
        toks.len() > 0 && toks[0].len() == 1
    }

    open spec fn consumes(toks: Seq<Seq<char>>) -> int {
        1
    }

    open spec fn value_is(toks: Seq<Seq<char>>, out: char) -> bool {
        out == toks[0][0]
    }

    open spec fn error_is(toks: Seq<Seq<char>>, e: ReadError) -> bool {
        scalar_error_is(toks, Target::Char, e)
    }

    fn read<S: Source>(source: &mut S) -> (r: Result<char, ReadError>) {
        match source.next_token() {
            None => Err(ReadError::TokenExhaustion),
            Some(tok) => match parse_char(tok.as_str()) {
                Some(c) => Ok(c),
                None => Err(ReadError::ScalarParseFailure { token: tok, target: Target::Char }),
            },
        }
    }
}

impl Readable for String {
    type Output = String;

    open spec fn ok_on(toks: Seq<Seq<char>>) -> bool {
        toks.len() > 0
    }

    open spec fn consumes(toks: Seq<Seq<char>>) -> int {
        1
    }

    open spec fn value_is(toks: Seq<Seq<char>>, out: String) -> bool {
        out@ == toks[0]
    }

    open spec fn error_is(toks: Seq<Seq<char>>, e: ReadError) -> bool {
        e == ReadError::TokenExhaustion
    }

    fn read<S: Source>(source: &mut S) -> (r: Result<String, ReadError>) {
        match source.next_token() {
            None => Err(ReadError::TokenExhaustion),
            Some(tok) => Ok(tok),
        }
    }
}

} // verus!

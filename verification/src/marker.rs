//! The special marker shapes.
//!
//! A marker names a way to read a token that differs from the token's own
//! type: `Chars` and `Bytes` split one token into a sequence, `Usize1` and
//! `Isize1` shift a one-indexed number down to zero-indexed, failing rather
//! than wrapping when the value is already at the minimum.

use vstd::prelude::*;
use vstd::string::*;
use crate::error::{ReadError, Target};
use crate::read::scalar_error_is;
use crate::scalar::{is_int_token, is_uint_token, int_token_val, parse_int, parse_uint,
    uint_token_val};
use crate::source::{Readable, Source};

verus! {

/// The low byte of each character of `s`; on ASCII text, exactly its bytes.
pub open spec fn low_bytes(s: Seq<char>) -> Seq<u8> {
    Seq::new(s.len(), |i: int| ((s[i] as int) % 256) as u8)
}

/// Collects the characters of one token.
fn str_chars(s: &str) -> (r: Vec<char>)
    ensures
        r@ == s@,
{
    let n = s.unicode_len();
    let mut r: Vec<char> = Vec::new();
    let mut i: usize = 0;
    while i < n
        invariant
            i <= n,
            n == s@.len(),
            r@ == s@.take(i as int),
        decreases n - i,
    {
        r.push(s.get_char(i));
        proof {
            assert(r@ =~= s@.take(i as int + 1));
        }
        i = i + 1;
    }
    proof {
        assert(s@.take(n as int) =~= s@);
    }
    r
}

/// Collects the low byte of each character of one token.
fn str_low_bytes(s: &str) -> (r: Vec<u8>)
    ensures
        r@ == low_bytes(s@),
{
    let n = s.unicode_len();
    let mut r: Vec<u8> = Vec::new();
    let mut i: usize = 0;
    while i < n
        invariant
            i <= n,
            n == s@.len(),
            r@ == low_bytes(s@).take(i as int),
        decreases n - i,
    {
        let code = s.get_char(i) as u32;
        r.push((code % 256) as u8);
        proof {
            assert(r@ =~= low_bytes(s@).take(i as int + 1));
        }
        i = i + 1;
    }
    proof {
        assert(low_bytes(s@).take(n as int) =~= low_bytes(s@));
    }
    r
}

/// Chars: reads one token as its sequence of characters.
pub struct Chars;

impl Readable for Chars {
    type Output = Vec<char>;

    open spec fn ok_on(toks: Seq<Seq<char>>) -> bool {
        toks.len() > 0
    }

    open spec fn consumes(toks: Seq<Seq<char>>) -> int {
        1
    }

    open spec fn value_is(toks: Seq<Seq<char>>, out: Vec<char>) -> bool {
        out@ == toks[0]
    }

    open spec fn error_is(toks: Seq<Seq<char>>, e: ReadError) -> bool {
        e == ReadError::TokenExhaustion
    }

    fn read<S: Source>(source: &mut S) -> (r: Result<Vec<char>, ReadError>) {
        match source.next_token() {
            None => Err(ReadError::TokenExhaustion),
            Some(tok) => Ok(str_chars(tok.as_str())),
        }
    }
}

/// Bytes: reads one token as a byte sequence, one byte per character.
pub struct Bytes;

impl Readable for Bytes {
    type Output = Vec<u8>;

    open spec fn ok_on(toks: Seq<Seq<char>>) -> bool {
        toks.len() > 0
    }

    open spec fn consumes(toks: Seq<Seq<char>>) -> int {
        1
    }

    open spec fn value_is(toks: Seq<Seq<char>>, out: Vec<u8>) -> bool {
        out@ == low_bytes(toks[0])
    }

    open spec fn error_is(toks: Seq<Seq<char>>, e: ReadError) -> bool {
        e == ReadError::TokenExhaustion
    }

    fn read<S: Source>(source: &mut S) -> (r: Result<Vec<u8>, ReadError>) {
        match source.next_token() {
            None => Err(ReadError::TokenExhaustion),
            Some(tok) => Ok(str_low_bytes(tok.as_str())),
        }
    }
}

/// Usize1: reads a one-indexed `usize` and yields it zero-indexed.
///
/// The token `0` is rejected with a `NumericUnderflow` failure: shifting it
/// down would wrap, and wrapping is never silent here.
pub struct Usize1;

impl Readable for Usize1 {
    type Output = usize;

    open spec fn ok_on(toks: Seq<Seq<char>>) -> bool {
        toks.len() > 0 && is_uint_token(toks[0]) && 1 <= uint_token_val(toks[0])
            <= usize::MAX as int
    }

    open spec fn consumes(toks: Seq<Seq<char>>) -> int {
        1
    }

    open spec fn value_is(toks: Seq<Seq<char>>, out: usize) -> bool {
        out as int == uint_token_val(toks[0]) - 1
    }

    open spec fn error_is(toks: Seq<Seq<char>>, e: ReadError) -> bool {
        if toks.len() > 0 && is_uint_token(toks[0]) && uint_token_val(toks[0]) == 0 {
            e == (ReadError::NumericUnderflow { target: Target::Usize1 })
        } else {
            scalar_error_is(toks, Target::Usize, e)
        }
    }

    fn read<S: Source>(source: &mut S) -> (r: Result<usize, ReadError>) {
        match source.next_token() {
            None => Err(ReadError::TokenExhaustion),
            Some(tok) => match parse_uint(tok.as_str(), usize::MAX as u64) {
                Some(v) => {
                    if v == 0 {
                        Err(ReadError::NumericUnderflow { target: Target::Usize1 })
                    } else {
                        Ok((v - 1) as usize)
                    }
                },
                None => Err(ReadError::ScalarParseFailure { token: tok, target: Target::Usize }),
            },
        }
    }
}

/// Isize1: reads a one-indexed `isize` and yields it zero-indexed.
///
/// The minimum representable value is rejected with a `NumericUnderflow`
/// failure: shifting it down would wrap, and wrapping is never silent here.
pub struct Isize1;

impl Readable for Isize1 {
    type Output = isize;

    open spec fn ok_on(toks: Seq<Seq<char>>) -> bool {
        toks.len() > 0 && is_int_token(toks[0]) && (isize::MIN as int) < int_token_val(toks[0])
            && int_token_val(toks[0]) <= isize::MAX as int
    }

    open spec fn consumes(toks: Seq<Seq<char>>) -> int {
        1
    }

    open spec fn value_is(toks: Seq<Seq<char>>, out: isize) -> bool {
        out as int == int_token_val(toks[0]) - 1
    }

    open spec fn error_is(toks: Seq<Seq<char>>, e: ReadError) -> bool {
        if toks.len() > 0 && is_int_token(toks[0]) && int_token_val(toks[0]) == isize::MIN as int {
            e == (ReadError::NumericUnderflow { target: Target::Isize1 })
        } else {
            scalar_error_is(toks, Target::Isize, e)
        }
    }

    fn read<S: Source>(source: &mut S) -> (r: Result<isize, ReadError>) {
        match source.next_token() {
            None => Err(ReadError::TokenExhaustion),
            Some(tok) => match parse_int(tok.as_str(), isize::MIN as i64, isize::MAX as i64) {
                Some(v) => {
                    if v == isize::MIN as i64 {
                        Err(ReadError::NumericUnderflow { target: Target::Isize1 })
                    } else {
                        Ok((v - 1) as isize)
                    }
                },
                None => Err(ReadError::ScalarParseFailure { token: tok, target: Target::Isize }),
            },
        }
    }
}

} // verus!

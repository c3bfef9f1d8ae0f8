//! The grammar-directed reader.
//!
//! A [`Shape`] is a grammar node: a scalar kind, a fixed-size array, a
//! length-prefixed array, a tuple, or a record of member shapes.  Reading a
//! shape walks it depth-first, left to right, consuming from the source
//! exactly the tokens the shape needs — never more, never fewer — with no
//! backtracking.  The whole walk is specified by the recursive function
//! [`sread`]; reading fails fast, so a failed group binds nothing.

use vstd::prelude::*;
use crate::error::{ReadError, Target};
use crate::marker::{low_bytes, Bytes, Chars, Isize1, Usize1};
use crate::scalar::{is_int_token, is_uint_token, int_token_val, uint_token_val};
use crate::source::{Readable, Source};

verus! {

/// A grammar node: the declared shape of one value to read.
#[derive(Debug)]
pub enum Shape {
    U8,
    U16,
    U32,
    U64,
    U128,
    Usize,
    I8,
    I16,
    I32,
    I64,
    I128,
    Isize,
    Bool,
    Char,
    /// One token, kept as an owned string.
    Str,
    /// One token, split into its characters.
    Chars,
    /// One token, split into bytes.
    Bytes,
    /// A one-indexed `usize`, shifted down to zero-indexed.
    Usize1,
    /// A one-indexed `isize`, shifted down to zero-indexed.
    Isize1,
    /// `[shape; n]`: exactly `n` values of the element shape, in order.
    Array(Box<Shape>, usize),
    /// `[shape]`: one `usize` length token, then that many element values.
    Prefixed(Box<Shape>),
    /// `(shape, ...)`: each component once, in order.
    Tuple(Vec<Shape>),
    /// A user aggregate: each member's shape once, in declaration order.
    /// With no members this reads nothing — a unit struct consumes no token.
    Record(Vec<Shape>),
}

/// A value read by a [`Shape`], mirroring its structure.
#[derive(Debug, PartialEq)]
pub enum Value {
    U8(u8),
    U16(u16),
    U32(u32),
    U64(u64),
    U128(u128),
    Usize(usize),
    I8(i8),
    I16(i16),
    I32(i32),
    I64(i64),
    I128(i128),
    Isize(isize),
    Bool(bool),
    Char(char),
    Str(String),
    Chars(Vec<char>),
    Bytes(Vec<u8>),
    Array(Vec<Value>),
    Tuple(Vec<Value>),
    Record(Vec<Value>),
}

/// The mathematical model of a [`Value`]: the same tree with sequences in
/// place of vectors and strings.
pub enum Val {
    U8(u8),
    U16(u16),
    U32(u32),
    U64(u64),
    U128(u128),
    Usize(usize),
    I8(i8),
    I16(i16),
    I32(i32),
    I64(i64),
    I128(i128),
    Isize(isize),
    Bool(bool),
    Char(char),
    Str(Seq<char>),
    Chars(Seq<char>),
    Bytes(Seq<u8>),
    Array(Seq<Val>),
    Tuple(Seq<Val>),
    Record(Seq<Val>),
}

/// The model of a value.
pub open spec fn vmodel(v: Value) -> Val
    decreases v,
{
    match v {
        Value::U8(x) => Val::U8(x),
        Value::U16(x) => Val::U16(x),
        Value::U32(x) => Val::U32(x),
        Value::U64(x) => Val::U64(x),
        Value::U128(x) => Val::U128(x),
        Value::Usize(x) => Val::Usize(x),
        Value::I8(x) => Val::I8(x),
        Value::I16(x) => Val::I16(x),
        Value::I32(x) => Val::I32(x),
        Value::I64(x) => Val::I64(x),
        Value::I128(x) => Val::I128(x),
        Value::Isize(x) => Val::Isize(x),
        Value::Bool(x) => Val::Bool(x),
        Value::Char(x) => Val::Char(x),
        Value::Str(s) => Val::Str(s@),
        Value::Chars(c) => Val::Chars(c@),
        Value::Bytes(b) => Val::Bytes(b@),
        Value::Array(xs) => Val::Array(vmodels(xs@)),
        Value::Tuple(xs) => Val::Tuple(vmodels(xs@)),
        Value::Record(xs) => Val::Record(vmodels(xs@)),
    }
}

/// `vmodel` on one scalar constructor, spelled out for use inside large
/// proofs.
proof fn lemma_vmodel_char(x: char)
    ensures
        vmodel(Value::Char(x)) == Val::Char(x),
{
}

/// The models of a sequence of values, pointwise.
pub open spec fn vmodels(xs: Seq<Value>) -> Seq<Val>
    decreases xs,
{
    if xs.len() == 0 {
        Seq::empty()
    } else {
        seq![vmodel(xs[0])] + vmodels(xs.subrange(1, xs.len() as int))
    }
}

/// `vmodels` is the pointwise model.
pub proof fn lemma_vmodels(xs: Seq<Value>)
    ensures
        vmodels(xs).len() == xs.len(),
        forall|i: int| 0 <= i < xs.len() ==> vmodels(xs)[i] == vmodel(xs[i]),
    decreases xs,
{
    if xs.len() > 0 {
        lemma_vmodels(xs.subrange(1, xs.len() as int));
        assert forall|i: int| 0 <= i < xs.len() implies vmodels(xs)[i] == vmodel(xs[i]) by {
            if i > 0 {
                assert(xs.subrange(1, xs.len() as int)[i - 1] == xs[i]);
            }
        }
    }
}

/// Why a read fails, at the specification level.
pub enum Fail {
    /// A token was required but none remained.
    Exhausted,
    /// The token could not be parsed as the scalar kind.
    Unparsable(Seq<char>, Target),
    /// A one-indexed value was at the minimum of its type.
    Underflow(Target),
}

/// The error a failure is reported as.
pub open spec fn fail_matches(f: Fail, e: ReadError) -> bool {
    match f {
        Fail::Exhausted => e == ReadError::TokenExhaustion,
        Fail::Unparsable(t, tg) => e matches ReadError::ScalarParseFailure { token, target }
            && token@ == t && target == tg,
        Fail::Underflow(tg) => e == (ReadError::NumericUnderflow { target: tg }),
    }
}

/// One token from the front, or the exhaustion failure.
pub open spec fn sread_token(toks: Seq<Seq<char>>) -> Result<Seq<char>, Fail> {
    if toks.len() == 0 {
        Err(Fail::Exhausted)
    } else {
        Ok(toks[0])
    }
}

/// An unsigned token of value at most `max`, or the parse failure.
pub open spec fn sread_uint(t: Seq<char>, max: int, tg: Target) -> Result<int, Fail> {
    if is_uint_token(t) && uint_token_val(t) <= max {
        Ok(uint_token_val(t))
    } else {
        Err(Fail::Unparsable(t, tg))
    }
}

/// A signed token of value within `[min, max]`, or the parse failure.
pub open spec fn sread_int(t: Seq<char>, min: int, max: int, tg: Target) -> Result<int, Fail> {
    if is_int_token(t) && min <= int_token_val(t) && int_token_val(t) <= max {
        Ok(int_token_val(t))
    } else {
        Err(Fail::Unparsable(t, tg))
    }
}

/// What reading `sh` from `toks` yields: the value model and the tokens
/// left, or the failure that aborts the read.  This is the semantics of the
/// whole grammar walk.
pub open spec fn sread(sh: Shape, toks: Seq<Seq<char>>) -> Result<(Val, Seq<Seq<char>>), Fail>
    decreases sh, 0nat,
{
    match sh {
        Shape::U8 => match sread_token(toks) {
            Err(f) => Err(f),
            Ok(t) => match sread_uint(t, u8::MAX as int, Target::U8) {
                Err(f) => Err(f),
                Ok(v) => Ok((Val::U8(v as u8), toks.skip(1))),
            },
        },
        Shape::U16 => match sread_token(toks) {
            Err(f) => Err(f),
            Ok(t) => match sread_uint(t, u16::MAX as int, Target::U16) {
                Err(f) => Err(f),
                Ok(v) => Ok((Val::U16(v as u16), toks.skip(1))),
            },
        },
        Shape::U32 => match sread_token(toks) {
            Err(f) => Err(f),
            Ok(t) => match sread_uint(t, u32::MAX as int, Target::U32) {
                Err(f) => Err(f),
                Ok(v) => Ok((Val::U32(v as u32), toks.skip(1))),
            },
        },
        Shape::U64 => match sread_token(toks) {
            Err(f) => Err(f),
            Ok(t) => match sread_uint(t, u64::MAX as int, Target::U64) {
                Err(f) => Err(f),
                Ok(v) => Ok((Val::U64(v as u64), toks.skip(1))),
            },
        },
        Shape::U128 => match sread_token(toks) {
            Err(f) => Err(f),
            Ok(t) => match sread_uint(t, u128::MAX as int, Target::U128) {
                Err(f) => Err(f),
                Ok(v) => Ok((Val::U128(v as u128), toks.skip(1))),
            },
        },
        Shape::Usize => match sread_token(toks) {
            Err(f) => Err(f),
            Ok(t) => match sread_uint(t, usize::MAX as int, Target::Usize) {
                Err(f) => Err(f),
                Ok(v) => Ok((Val::Usize(v as usize), toks.skip(1))),
            },
        },
        Shape::I8 => match sread_token(toks) {
            Err(f) => Err(f),
            Ok(t) => match sread_int(t, i8::MIN as int, i8::MAX as int, Target::I8) {
                Err(f) => Err(f),
                Ok(v) => Ok((Val::I8(v as i8), toks.skip(1))),
            },
        },
        Shape::I16 => match sread_token(toks) {
            Err(f) => Err(f),
            Ok(t) => match sread_int(t, i16::MIN as int, i16::MAX as int, Target::I16) {
                Err(f) => Err(f),
                Ok(v) => Ok((Val::I16(v as i16), toks.skip(1))),
            },
        },
        Shape::I32 => match sread_token(toks) {
            Err(f) => Err(f),
            Ok(t) => match sread_int(t, i32::MIN as int, i32::MAX as int, Target::I32) {
                Err(f) => Err(f),
                Ok(v) => Ok((Val::I32(v as i32), toks.skip(1))),
            },
        },
        Shape::I64 => match sread_token(toks) {
            Err(f) => Err(f),
            Ok(t) => match sread_int(t, i64::MIN as int, i64::MAX as int, Target::I64) {
                Err(f) => Err(f),
                Ok(v) => Ok((Val::I64(v as i64), toks.skip(1))),
            },
        },
        Shape::I128 => match sread_token(toks) {
            Err(f) => Err(f),
            Ok(t) => match sread_int(t, i128::MIN as int, i128::MAX as int, Target::I128) {
                Err(f) => Err(f),
                Ok(v) => Ok((Val::I128(v as i128), toks.skip(1))),
            },
        },
        Shape::Isize => match sread_token(toks) {
            Err(f) => Err(f),
            Ok(t) => match sread_int(t, isize::MIN as int, isize::MAX as int, Target::Isize) {
                Err(f) => Err(f),
                Ok(v) => Ok((Val::Isize(v as isize), toks.skip(1))),
            },
        },
        Shape::Bool => match sread_token(toks) {
            Err(f) => Err(f),
            Ok(t) => if t == "true"@ || t == "false"@ {
                Ok((Val::Bool(t == "true"@), toks.skip(1)))
            } else {
                Err(Fail::Unparsable(t, Target::Bool))
            },
        },
        Shape::Char => match sread_token(toks) {
            Err(f) => Err(f),
            Ok(t) => if t.len() == 1 {
                Ok((Val::Char(t[0]), toks.skip(1)))
            } else {
                Err(Fail::Unparsable(t, Target::Char))
            },
        },
        Shape::Str => match sread_token(toks) {
            Err(f) => Err(f),
            Ok(t) => Ok((Val::Str(t), toks.skip(1))),
        },
        Shape::Chars => match sread_token(toks) {
            Err(f) => Err(f),
            Ok(t) => Ok((Val::Chars(t), toks.skip(1))),
        },
        Shape::Bytes => match sread_token(toks) {
            Err(f) => Err(f),
            Ok(t) => Ok((Val::Bytes(low_bytes(t)), toks.skip(1))),
        },
        Shape::Usize1 => match sread_token(toks) {
            Err(f) => Err(f),
            Ok(t) => match sread_uint(t, usize::MAX as int, Target::Usize) {
                Err(f) => Err(f),
                Ok(v) => if v == 0 {
                    Err(Fail::Underflow(Target::Usize1))
                } else {
                    Ok((Val::Usize((v - 1) as usize), toks.skip(1)))
                },
            },
        },
        Shape::Isize1 => match sread_token(toks) {
            Err(f) => Err(f),
            Ok(t) => match sread_int(t, isize::MIN as int, isize::MAX as int, Target::Isize) {
                Err(f) => Err(f),
                Ok(v) => if v == isize::MIN as int {
                    Err(Fail::Underflow(Target::Isize1))
                } else {
                    Ok((Val::Isize((v - 1) as isize), toks.skip(1)))
                },
            },
        },
        Shape::Array(b, n) => match sread_n(*b, n as nat, toks) {
            Err(f) => Err(f),
            Ok((vs, rest)) => Ok((Val::Array(vs), rest)),
        },
        Shape::Prefixed(b) => match sread_token(toks) {
            Err(f) => Err(f),
            Ok(t) => match sread_uint(t, usize::MAX as int, Target::Usize) {
                Err(f) => Err(f),
                Ok(k) => match sread_n(*b, k as nat, toks.skip(1)) {
                    Err(f) => Err(f),
                    Ok((vs, rest)) => Ok((Val::Array(vs), rest)),
                },
            },
        },
        Shape::Tuple(fields) => match sread_list(fields@, toks) {
            Err(f) => Err(f),
            Ok((vs, rest)) => Ok((Val::Tuple(vs), rest)),
        },
        Shape::Record(fields) => match sread_list(fields@, toks) {
            Err(f) => Err(f),
            Ok((vs, rest)) => Ok((Val::Record(vs), rest)),
        },
    }
}

/// Reading `sh` exactly `n` times, in order.
pub open spec fn sread_n(sh: Shape, n: nat, toks: Seq<Seq<char>>) -> Result<
    (Seq<Val>, Seq<Seq<char>>),
    Fail,
>
    decreases sh, n,
{
    if n == 0 {
        Ok((Seq::empty(), toks))
    } else {
        match sread(sh, toks) {
            Err(f) => Err(f),
            Ok((v, rest)) => match sread_n(sh, (n - 1) as nat, rest) {
                Err(f) => Err(f),
                Ok((vs, rest2)) => Ok((seq![v] + vs, rest2)),
            },
        }
    }
}

/// Reading each shape of a list once, left to right: one binding group.
pub open spec fn sread_list(shs: Seq<Shape>, toks: Seq<Seq<char>>) -> Result<
    (Seq<Val>, Seq<Seq<char>>),
    Fail,
>
    decreases shs, 0nat,
{
    if shs.len() == 0 {
        Ok((Seq::empty(), toks))
    } else {
        match sread(shs[0], toks) {
            Err(f) => Err(f),
            Ok((v, rest)) => match sread_list(shs.subrange(1, shs.len() as int), rest) {
                Err(f) => Err(f),
                Ok((vs, rest2)) => Ok((seq![v] + vs, rest2)),
            },
        }
    }
}

/// A successful `sread_n` yields exactly `n` values.
pub proof fn lemma_sread_n_len(sh: Shape, n: nat, toks: Seq<Seq<char>>)
    ensures
        sread_n(sh, n, toks) matches Ok(p) ==> p.0.len() == n,
    decreases n,
{
    if n > 0 {
        match sread(sh, toks) {
            Ok((v, rest)) => {
                lemma_sread_n_len(sh, (n - 1) as nat, rest);
            },
            Err(_) => {},
        }
    }
}

/// A successful `sread_list` yields one value per shape.
pub proof fn lemma_sread_list_len(shs: Seq<Shape>, toks: Seq<Seq<char>>)
    ensures
        sread_list(shs, toks) matches Ok(p) ==> p.0.len() == shs.len(),
    decreases shs.len(),
{
    if shs.len() > 0 {
        match sread(shs[0], toks) {
            Ok((v, rest)) => {
                lemma_sread_list_len(shs.subrange(1, shs.len() as int), rest);
            },
            Err(_) => {},
        }
    }
}

/// Unfolds one step of `sread_n`: the first read, then the rest.
pub proof fn lemma_sread_n_step(sh: Shape, k: nat, toks: Seq<Seq<char>>)
    requires
        k > 0,
    ensures
        match sread_n(sh, k, toks) {
            Ok(p) => sread(sh, toks) matches Ok(q) && q.0 == p.0[0] && p.0.len() == k && sread_n(
                sh,
                (k - 1) as nat,
                q.1,
            ) == Ok::<(Seq<Val>, Seq<Seq<char>>), Fail>((p.0.subrange(1, k as int), p.1)),
            Err(f) => match sread(sh, toks) {
                Ok(q) => sread_n(sh, (k - 1) as nat, q.1) == Err::<
                    (Seq<Val>, Seq<Seq<char>>),
                    Fail,
                >(f),
                Err(f2) => f2 == f,
            },
        },
{
    match sread(sh, toks) {
        Ok((v, rest)) => {
            lemma_sread_n_len(sh, (k - 1) as nat, rest);
            match sread_n(sh, (k - 1) as nat, rest) {
                Ok((vs, r2)) => {
                    assert((seq![v] + vs)[0] == v);
                    assert((seq![v] + vs).subrange(1, k as int) =~= vs);
                },
                Err(_) => {},
            }
        },
        Err(_) => {},
    }
}

/// Unfolds one step of `sread_list`: the first shape, then the rest.
pub proof fn lemma_sread_list_step(shs: Seq<Shape>, toks: Seq<Seq<char>>)
    requires
        shs.len() > 0,
    ensures
        match sread_list(shs, toks) {
            Ok(p) => sread(shs[0], toks) matches Ok(q) && q.0 == p.0[0] && p.0.len() == shs.len()
                && sread_list(shs.subrange(1, shs.len() as int), q.1) == Ok::<
                (Seq<Val>, Seq<Seq<char>>),
                Fail,
            >((p.0.subrange(1, p.0.len() as int), p.1)),
            Err(f) => match sread(shs[0], toks) {
                Ok(q) => sread_list(shs.subrange(1, shs.len() as int), q.1) == Err::<
                    (Seq<Val>, Seq<Seq<char>>),
                    Fail,
                >(f),
                Err(f2) => f2 == f,
            },
        },
{
    match sread(shs[0], toks) {
        Ok((v, rest)) => {
            lemma_sread_list_len(shs.subrange(1, shs.len() as int), rest);
            match sread_list(shs.subrange(1, shs.len() as int), rest) {
                Ok((vs, r2)) => {
                    assert((seq![v] + vs)[0] == v);
                    assert((seq![v] + vs).subrange(1, (vs.len() + 1) as int) =~= vs);
                },
                Err(_) => {},
            }
        },
        Err(_) => {},
    }
}

/// Reads one value of shape `shape` from `source`.
///
/// On success the result is exactly the value [`sread`] describes, and the
/// source stands exactly at the tokens [`sread`] leaves; on failure the
/// error is exactly the failure [`sread`] describes, and nothing is bound.
pub fn read_value<S: Source>(shape: &Shape, source: &mut S) -> (r: Result<Value, ReadError>)
    ensures
        match r {
            Ok(v) => sread(*shape, old(source).tokens()) matches Ok(p) && vmodel(v) == p.0
                && final(source).tokens() == p.1,
            Err(e) => sread(*shape, old(source).tokens()) matches Err(f) && fail_matches(f, e),
        },
    decreases *shape, 0nat,
{
    match shape {
        Shape::U8 => match u8::read(source) {
            Ok(x) => return Ok(Value::U8(x)),
            Err(e) => return Err(e),
        },
        Shape::U16 => match u16::read(source) {
            Ok(x) => return Ok(Value::U16(x)),
            Err(e) => return Err(e),
        },
        Shape::U32 => match u32::read(source) {
            Ok(x) => return Ok(Value::U32(x)),
            Err(e) => return Err(e),
        },
        Shape::U64 => match u64::read(source) {
            Ok(x) => return Ok(Value::U64(x)),
            Err(e) => return Err(e),
        },
        Shape::U128 => match u128::read(source) {
            Ok(x) => return Ok(Value::U128(x)),
            Err(e) => return Err(e),
        },
        Shape::Usize => match usize::read(source) {
            Ok(x) => return Ok(Value::Usize(x)),
            Err(e) => return Err(e),
        },
        Shape::I8 => match i8::read(source) {
            Ok(x) => return Ok(Value::I8(x)),
            Err(e) => return Err(e),
        },
        Shape::I16 => match i16::read(source) {
            Ok(x) => return Ok(Value::I16(x)),
            Err(e) => return Err(e),
        },
        Shape::I32 => match i32::read(source) {
            Ok(x) => return Ok(Value::I32(x)),
            Err(e) => return Err(e),
        },
        Shape::I64 => match i64::read(source) {
            Ok(x) => return Ok(Value::I64(x)),
            Err(e) => return Err(e),
        },
        Shape::I128 => match i128::read(source) {
            Ok(x) => return Ok(Value::I128(x)),
            Err(e) => return Err(e),
        },
        Shape::Isize => match isize::read(source) {
            Ok(x) => return Ok(Value::Isize(x)),
            Err(e) => return Err(e),
        },
        Shape::Bool => match bool::read(source) {
            Ok(x) => return Ok(Value::Bool(x)),
            Err(e) => return Err(e),
        },
        Shape::Char => {
            let ghost toks = source.tokens();
            let r = char::read(source);
            proof {
                if r is Ok {
                    assert(sread(Shape::Char, toks) == Ok::<(Val, Seq<Seq<char>>), Fail>(
                        (Val::Char(toks[0][0]), toks.skip(1)),
                    ));
                    lemma_vmodel_char(r->Ok_0);
                }
            }
            match r {
                Ok(x) => return Ok(Value::Char(x)),
                Err(e) => return Err(e),
            }
        },
        Shape::Str => match String::read(source) {
            Ok(x) => return Ok(Value::Str(x)),
            Err(e) => return Err(e),
        },
        Shape::Chars => match Chars::read(source) {
            Ok(x) => return Ok(Value::Chars(x)),
            Err(e) => return Err(e),
        },
        Shape::Bytes => match Bytes::read(source) {
            Ok(x) => return Ok(Value::Bytes(x)),
            Err(e) => return Err(e),
        },
        Shape::Usize1 => {
            let ghost toks = source.tokens();
            let r = Usize1::read(source);
            proof {
                // a well-formed unsigned token that is not at least one can
                // only be zero
                if r is Err && toks.len() > 0 && is_uint_token(toks[0]) {
                    crate::scalar::lemma_digits_val_nonneg(crate::scalar::uint_body(toks[0]));
                }
            }
            match r {
                Ok(x) => return Ok(Value::Usize(x)),
                Err(e) => return Err(e),
            }
        },
        Shape::Isize1 => match Isize1::read(source) {
            Ok(x) => return Ok(Value::Isize(x)),
            Err(e) => return Err(e),
        },
        Shape::Array(b, n) => match read_array_items(b, *n, source) {
            Ok(items) => return Ok(Value::Array(items)),
            Err(e) => return Err(e),
        },
        Shape::Prefixed(b) => match usize::read(source) {
            Err(e) => return Err(e),
            Ok(k) => match read_array_items(b, k, source) {
                Ok(items) => return Ok(Value::Array(items)),
                Err(e) => return Err(e),
            },
        },
        Shape::Tuple(fields) => match read_list_items(fields, source) {
            Ok(items) => return Ok(Value::Tuple(items)),
            Err(e) => return Err(e),
        },
        Shape::Record(fields) => match read_list_items(fields, source) {
            Ok(items) => return Ok(Value::Record(items)),
            Err(e) => return Err(e),
        },
    }
}

/// Reads `n` values of shape `shape`, in order.
fn read_array_items<S: Source>(shape: &Shape, n: usize, source: &mut S) -> (r: Result<
    Vec<Value>,
    ReadError,
>)
    ensures
        match r {
            Ok(items) => sread_n(*shape, n as nat, old(source).tokens()) matches Ok(p) && vmodels(
                items@,
            ) == p.0 && final(source).tokens() == p.1,
            Err(e) => sread_n(*shape, n as nat, old(source).tokens()) matches Err(f)
                && fail_matches(f, e),
        },
    decreases *shape, 1nat,
{
    let ghost toks0 = old(source).tokens();
    let ghost whole = sread_n(*shape, n as nat, toks0);
    proof {
        lemma_sread_n_len(*shape, n as nat, toks0);
        match whole {
            Ok(p) => {
                assert(p.0.subrange(0, n as int) =~= p.0);
            },
            Err(_) => {},
        }
    }
    let mut items: Vec<Value> = Vec::new();
    let mut i: usize = 0;
    while i < n
        invariant
            i <= n,
            items@.len() == i,
            toks0 == old(source).tokens(),
            whole == sread_n(*shape, n as nat, toks0),
            match whole {
                Ok(p) => sread_n(*shape, (n - i) as nat, source.tokens()) == Ok::<
                    (Seq<Val>, Seq<Seq<char>>),
                    Fail,
                >((p.0.subrange(i as int, n as int), p.1)) && p.0.len() == n && vmodels(items@)
                    == p.0.subrange(0, i as int),
                Err(f) => sread_n(*shape, (n - i) as nat, source.tokens()) == Err::<
                    (Seq<Val>, Seq<Seq<char>>),
                    Fail,
                >(f),
            },
        decreases n - i,
    {
        let ghost cur = source.tokens();
        let ghost old_items = items@;
        proof {
            lemma_sread_n_step(*shape, (n - i) as nat, cur);
        }
        match read_value(shape, source) {
            Err(e) => {
                return Err(e);
            },
            Ok(v) => {
                items.push(v);
                proof {
                    let q = sread(*shape, cur)->Ok_0;
                    match whole {
                        Ok(p) => {
                            let rem = p.0.subrange(i as int, n as int);
                            assert(q.0 == rem[0] && rem[0] == p.0[i as int]);
                            assert(rem.subrange(1, (n - i) as int) =~= p.0.subrange(
                                i + 1,
                                n as int,
                            ));
                            lemma_vmodels(old_items);
                            lemma_vmodels(items@);
                            assert forall|k2: int| 0 <= k2 < i + 1 implies vmodels(items@)[k2]
                                == p.0.subrange(0, i + 1)[k2] by {
                                if k2 < i as int {
                                    assert(items@[k2] == old_items[k2]);
                                    assert(vmodels(old_items)[k2] == p.0.subrange(
                                        0,
                                        i as int,
                                    )[k2]);
                                } else {
                                    assert(items@[k2] == v);
                                }
                            }
                            assert(vmodels(items@) =~= p.0.subrange(0, i + 1));
                        },
                        Err(_) => {},
                    }
                }
                i = i + 1;
            },
        }
    }
    Ok(items)
}

/// Reads each shape of `shapes` once, left to right.
fn read_list_items<S: Source>(shapes: &Vec<Shape>, source: &mut S) -> (r: Result<
    Vec<Value>,
    ReadError,
>)
    ensures
        match r {
            Ok(items) => sread_list(shapes@, old(source).tokens()) matches Ok(p) && vmodels(
                items@,
            ) == p.0 && final(source).tokens() == p.1,
            Err(e) => sread_list(shapes@, old(source).tokens()) matches Err(f) && fail_matches(
                f,
                e,
            ),
        },
    decreases shapes@, 1nat,
{
    let ghost toks0 = old(source).tokens();
    let ghost whole = sread_list(shapes@, toks0);
    proof {
        lemma_sread_list_len(shapes@, toks0);
        assert(shapes@.subrange(0, shapes@.len() as int) =~= shapes@);
        match whole {
            Ok(p) => {
                assert(p.0.subrange(0, p.0.len() as int) =~= p.0);
            },
            Err(_) => {},
        }
    }
    let n = shapes.len();
    let mut items: Vec<Value> = Vec::new();
    let mut i: usize = 0;
    while i < n
        invariant
            i <= n,
            n == shapes@.len(),
            items@.len() == i,
            toks0 == old(source).tokens(),
            whole == sread_list(shapes@, toks0),
            match whole {
                Ok(p) => sread_list(shapes@.subrange(i as int, n as int), source.tokens())
                    == Ok::<(Seq<Val>, Seq<Seq<char>>), Fail>(
                    (p.0.subrange(i as int, n as int), p.1),
                ) && p.0.len() == n && vmodels(items@) == p.0.subrange(0, i as int),
                Err(f) => sread_list(shapes@.subrange(i as int, n as int), source.tokens())
                    == Err::<(Seq<Val>, Seq<Seq<char>>), Fail>(f),
            },
        decreases n - i,
    {
        let ghost cur = source.tokens();
        let ghost old_items = items@;
        let ghost tail = shapes@.subrange(i as int, n as int);
        proof {
            assert(tail.len() > 0);
            assert(tail[0] == shapes@[i as int]);
            assert(tail.subrange(1, tail.len() as int) =~= shapes@.subrange(i + 1, n as int));
            lemma_sread_list_step(tail, cur);
        }
        match read_value(&shapes[i], source) {
            Err(e) => {
                return Err(e);
            },
            Ok(v) => {
                items.push(v);
                proof {
                    let q = sread(shapes@[i as int], cur)->Ok_0;
                    match whole {
                        Ok(p) => {
                            let rem = p.0.subrange(i as int, n as int);
                            assert(q.0 == rem[0] && rem[0] == p.0[i as int]);
                            assert(rem.subrange(1, (n - i) as int) =~= p.0.subrange(
                                i + 1,
                                n as int,
                            ));
                            lemma_vmodels(old_items);
                            lemma_vmodels(items@);
                            assert forall|k2: int| 0 <= k2 < i + 1 implies vmodels(items@)[k2]
                                == p.0.subrange(0, i + 1)[k2] by {
                                if k2 < i as int {
                                    assert(items@[k2] == old_items[k2]);
                                    assert(vmodels(old_items)[k2] == p.0.subrange(
                                        0,
                                        i as int,
                                    )[k2]);
                                } else {
                                    assert(items@[k2] == v);
                                }
                            }
                            assert(vmodels(items@) =~= p.0.subrange(0, i + 1));
                        },
                        Err(_) => {},
                    }
                }
                i = i + 1;
            },
        }
    }
    proof {
        assert(shapes@.subrange(n as int, n as int) =~= Seq::<Shape>::empty());
    }
    Ok(items)
}

/// Reads one binding group: each shape of `shapes` once, left to right.
///
/// The group fails fast: if any read fails, the whole group yields that
/// error and no value, so no partial binding is ever observable.
pub fn read_group<S: Source>(shapes: &Vec<Shape>, source: &mut S) -> (r: Result<
    Vec<Value>,
    ReadError,
>)
    ensures
        match r {
            Ok(items) => sread_list(shapes@, old(source).tokens()) matches Ok(p) && vmodels(
                items@,
            ) == p.0 && final(source).tokens() == p.1,
            Err(e) => sread_list(shapes@, old(source).tokens()) matches Err(f) && fail_matches(
                f,
                e,
            ),
        },
{
    read_list_items(shapes, source)
}

/// Reading consumes tokens only from the front: whatever a successful read
/// leaves behind is a suffix of the original stream, untouched.
pub proof fn lemma_sread_consumes_prefix(sh: Shape, toks: Seq<Seq<char>>)
    ensures
        sread(sh, toks) matches Ok(p) ==> p.1.len() <= toks.len() && p.1 == toks.skip(
            toks.len() - p.1.len(),
        ),
    decreases sh, 0nat,
{
    match sh {
        Shape::Array(b, n) => {
            lemma_sread_n_consumes_prefix(*b, n as nat, toks);
        },
        Shape::Prefixed(b) => {
            if toks.len() > 0 {
                let rest = toks.skip(1);
                lemma_sread_n_consumes_prefix(*b, uint_token_val(toks[0]) as nat, rest);
                match sread_n(*b, uint_token_val(toks[0]) as nat, rest) {
                    Ok(p) => {
                        assert(rest.skip(rest.len() - p.1.len()) =~= toks.skip(
                            toks.len() - p.1.len(),
                        ));
                    },
                    Err(_) => {},
                }
            }
        },
        Shape::Tuple(fields) => {
            lemma_sread_list_consumes_prefix(fields@, toks);
        },
        Shape::Record(fields) => {
            lemma_sread_list_consumes_prefix(fields@, toks);
        },
        _ => {
            match sread(sh, toks) {
                Ok(p) => {
                    assert(p.1 == toks.skip(1));
                },
                Err(_) => {},
            }
        },
    }
}

/// `sread_n` consumes tokens only from the front.
pub proof fn lemma_sread_n_consumes_prefix(sh: Shape, n: nat, toks: Seq<Seq<char>>)
    ensures
        sread_n(sh, n, toks) matches Ok(p) ==> p.1.len() <= toks.len() && p.1 == toks.skip(
            toks.len() - p.1.len(),
        ),
    decreases sh, n,
{
    if n == 0 {
        assert(toks.skip(0) =~= toks);
    } else {
        lemma_sread_consumes_prefix(sh, toks);
        match sread(sh, toks) {
            Ok((v, rest)) => {
                lemma_sread_n_consumes_prefix(sh, (n - 1) as nat, rest);
                match sread_n(sh, (n - 1) as nat, rest) {
                    Ok(p) => {
                        assert(rest.skip(rest.len() - p.1.len()) =~= toks.skip(
                            toks.len() - p.1.len(),
                        ));
                    },
                    Err(_) => {},
                }
            },
            Err(_) => {},
        }
    }
}

/// A binding group consumes tokens only from the front.
pub proof fn lemma_sread_list_consumes_prefix(shs: Seq<Shape>, toks: Seq<Seq<char>>)
    ensures
        sread_list(shs, toks) matches Ok(p) ==> p.1.len() <= toks.len() && p.1 == toks.skip(
            toks.len() - p.1.len(),
        ),
    decreases shs, 0nat,
{
    if shs.len() == 0 {
        assert(toks.skip(0) =~= toks);
    } else {
        lemma_sread_consumes_prefix(shs[0], toks);
        match sread(shs[0], toks) {
            Ok((v, rest)) => {
                lemma_sread_list_consumes_prefix(shs.subrange(1, shs.len() as int), rest);
                match sread_list(shs.subrange(1, shs.len() as int), rest) {
                    Ok(p) => {
                        assert(rest.skip(rest.len() - p.1.len()) =~= toks.skip(
                            toks.len() - p.1.len(),
                        ));
                    },
                    Err(_) => {},
                }
            },
            Err(_) => {},
        }
    }
}

/// Reading is local: a successful read looks only at the tokens it
/// consumes.  Extending the stream behind them changes neither the value
/// read nor which tokens are consumed — only what is left over.
pub proof fn lemma_sread_extends(sh: Shape, toks: Seq<Seq<char>>, more: Seq<Seq<char>>)
    ensures
        sread(sh, toks) matches Ok(p) ==> sread(sh, toks + more) == Ok::<
            (Val, Seq<Seq<char>>),
            Fail,
        >((p.0, p.1 + more)),
    decreases sh, 0nat,
{
    if toks.len() > 0 {
        assert((toks + more)[0] == toks[0]);
        assert((toks + more).skip(1) =~= toks.skip(1) + more);
    }
    match sh {
        Shape::Array(b, n) => {
            lemma_sread_n_extends(*b, n as nat, toks, more);
        },
        Shape::Prefixed(b) => {
            if toks.len() > 0 {
                lemma_sread_n_extends(*b, uint_token_val(toks[0]) as nat, toks.skip(1), more);
            }
        },
        Shape::Tuple(fields) => {
            lemma_sread_list_extends(fields@, toks, more);
        },
        Shape::Record(fields) => {
            lemma_sread_list_extends(fields@, toks, more);
        },
        _ => {},
    }
}

/// `sread_n` is local in the same way.
pub proof fn lemma_sread_n_extends(
    sh: Shape,
    n: nat,
    toks: Seq<Seq<char>>,
    more: Seq<Seq<char>>,
)
    ensures
        sread_n(sh, n, toks) matches Ok(p) ==> sread_n(sh, n, toks + more) == Ok::<
            (Seq<Val>, Seq<Seq<char>>),
            Fail,
        >((p.0, p.1 + more)),
    decreases sh, n,
{
    if n > 0 {
        lemma_sread_extends(sh, toks, more);
        match sread(sh, toks) {
            Ok((v, rest)) => {
                lemma_sread_n_extends(sh, (n - 1) as nat, rest, more);
            },
            Err(_) => {},
        }
    }
}

/// A binding group is local in the same way.
pub proof fn lemma_sread_list_extends(
    shs: Seq<Shape>,
    toks: Seq<Seq<char>>,
    more: Seq<Seq<char>>,
)
    ensures
        sread_list(shs, toks) matches Ok(p) ==> sread_list(shs, toks + more) == Ok::<
            (Seq<Val>, Seq<Seq<char>>),
            Fail,
        >((p.0, p.1 + more)),
    decreases shs, 0nat,
{
    if shs.len() > 0 {
        lemma_sread_extends(shs[0], toks, more);
        match sread(shs[0], toks) {
            Ok((v, rest)) => {
                lemma_sread_list_extends(shs.subrange(1, shs.len() as int), rest, more);
            },
            Err(_) => {},
        }
    }
}

/// Order preservation: a binding list splits.  Reading `shs1 + shs2` in one
/// group yields exactly the values of reading `shs1`, then `shs2` from where
/// the first group left off — so the i-th binding always consumes exactly
/// the tokens the first i-1 bindings leave behind, and a failure anywhere
/// is the failure of the combined group.
pub proof fn lemma_sread_list_split(shs1: Seq<Shape>, shs2: Seq<Shape>, toks: Seq<Seq<char>>)
    ensures
        match sread_list(shs1, toks) {
            Ok(p1) => match sread_list(shs2, p1.1) {
                Ok(p2) => sread_list(shs1 + shs2, toks) == Ok::<
                    (Seq<Val>, Seq<Seq<char>>),
                    Fail,
                >((p1.0 + p2.0, p2.1)),
                Err(f) => sread_list(shs1 + shs2, toks) == Err::<
                    (Seq<Val>, Seq<Seq<char>>),
                    Fail,
                >(f),
            },
            Err(f) => sread_list(shs1 + shs2, toks) == Err::<(Seq<Val>, Seq<Seq<char>>), Fail>(f),
        },
    decreases shs1.len(),
{
    if shs1.len() == 0 {
        assert(shs1 + shs2 =~= shs2);
        match sread_list(shs2, toks) {
            Ok(p2) => {
                assert(Seq::<Val>::empty() + p2.0 =~= p2.0);
            },
            Err(_) => {},
        }
    } else {
        let rest1 = shs1.subrange(1, shs1.len() as int);
        let both = shs1 + shs2;
        assert(both[0] == shs1[0]);
        assert(both.subrange(1, both.len() as int) =~= rest1 + shs2);
        match sread(shs1[0], toks) {
            Ok(q) => {
                lemma_sread_list_split(rest1, shs2, q.1);
                match sread_list(rest1, q.1) {
                    Ok(p1r) => {
                        match sread_list(shs2, p1r.1) {
                            Ok(p2) => {
                                assert(seq![q.0] + (p1r.0 + p2.0) =~= (seq![q.0] + p1r.0)
                                    + p2.0);
                            },
                            Err(_) => {},
                        }
                    },
                    Err(_) => {},
                }
            },
            Err(_) => {},
        }
    }
}

/// Aggregate derivation equivalence: reading a record reads exactly its
/// member shapes, in declaration order, and assembles the results — the
/// derived aggregate consumes the same tokens and yields the same values as
/// reading its members inline.
pub proof fn lemma_record_reads_members(sh: Shape, toks: Seq<Seq<char>>)
    requires
        sh matches Shape::Record(fields),
    ensures
        match sread_list(sh->Record_0@, toks) {
            Ok(p) => sread(sh, toks) == Ok::<(Val, Seq<Seq<char>>), Fail>(
                (Val::Record(p.0), p.1),
            ),
            Err(f) => sread(sh, toks) == Err::<(Val, Seq<Seq<char>>), Fail>(f),
        },
{
}

/// A record with no members is a no-op: it consumes no token and yields the
/// empty record value.
pub proof fn lemma_unit_record_reads_nothing(sh: Shape, toks: Seq<Seq<char>>)
    requires
        sh matches Shape::Record(fields) && fields@.len() == 0,
    ensures
        sread(sh, toks) == Ok::<(Val, Seq<Seq<char>>), Fail>((Val::Record(Seq::empty()), toks)),
{
    let fields = sh->Record_0;
    assert(fields@.subrange(0, 0) =~= fields@);
}

/// An array of unit records, of any length, consumes no token either.
pub proof fn lemma_unit_record_array_reads_nothing(sh: Shape, n: nat, toks: Seq<Seq<char>>)
    requires
        sh matches Shape::Record(fields) && fields@.len() == 0,
    ensures
        sread_n(sh, n, toks) matches Ok(p) ==> p.1 == toks,
        sread_n(sh, n, toks) is Ok,
    decreases n,
{
    if n > 0 {
        lemma_unit_record_reads_nothing(sh, toks);
        lemma_unit_record_array_reads_nothing(sh, (n - 1) as nat, toks);
    }
}

/// Embedding a unit record in a binding list changes nothing for the other
/// members: each still consumes exactly the tokens it would have consumed,
/// and the no-op contributes the empty record value at its position.
pub proof fn lemma_unit_record_in_list(
    shs: Seq<Shape>,
    i: int,
    u: Shape,
    toks: Seq<Seq<char>>,
)
    requires
        0 <= i <= shs.len(),
        u matches Shape::Record(fields) && fields@.len() == 0,
    ensures
        match sread_list(shs, toks) {
            Ok(p) => sread_list(shs.insert(i, u), toks) == Ok::<
                (Seq<Val>, Seq<Seq<char>>),
                Fail,
            >((p.0.insert(i, Val::Record(Seq::empty())), p.1)),
            Err(f) => sread_list(shs.insert(i, u), toks) == Err::<
                (Seq<Val>, Seq<Seq<char>>),
                Fail,
            >(f),
        },
{
    let left = shs.subrange(0, i);
    let right = shs.subrange(i, shs.len() as int);
    let unit = seq![u];
    assert(shs =~= left + right);
    assert(shs.insert(i, u) =~= left + (unit + right));
    lemma_sread_list_split(left, right, toks);
    lemma_sread_list_split(left, unit + right, toks);
    lemma_sread_list_len(left, toks);
    match sread_list(left, toks) {
        Err(_) => {},
        Ok(pl) => {
            lemma_unit_record_reads_nothing(u, pl.1);
            assert(unit.subrange(1, 1) =~= Seq::<Shape>::empty());
            assert(unit[0] == u);
            assert(sread_list(Seq::<Shape>::empty(), pl.1) == Ok::<
                (Seq<Val>, Seq<Seq<char>>),
                Fail,
            >((Seq::<Val>::empty(), pl.1)));
            assert(sread_list(unit, pl.1) == Ok::<(Seq<Val>, Seq<Seq<char>>), Fail>(
                (seq![Val::Record(Seq::empty())] + Seq::<Val>::empty(), pl.1),
            ));
            lemma_sread_list_split(unit, right, pl.1);
            match sread_list(right, pl.1) {
                Err(_) => {},
                Ok(pr) => {
                    assert(seq![Val::Record(Seq::empty())] + Seq::<Val>::empty()
                        =~= seq![Val::Record(Seq::empty())]);
                    assert(pl.0 + (seq![Val::Record(Seq::empty())] + pr.0) =~= (pl.0
                        + pr.0).insert(i, Val::Record(Seq::empty())));
                },
            }
        },
    }
}

} // verus!

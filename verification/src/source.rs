//! Token sources and the reading capability.
//!
//! A [`Source`] yields the whitespace-separated tokens of some text, in
//! order; its specification is the sequence of tokens not yet yielded.  Two
//! implementations exist: [`once::OnceSource`] materializes the whole text up
//! front, [`line::LineSource`] pulls one line at a time from a
//! [`feed::LineRead`] supplier.  Both meet the same contract, so every reader
//! works with either.
//!
//! [`Readable`] is the polymorphic reading capability: a type that knows how
//! to produce a value by consuming tokens from any `Source`.

use vstd::prelude::*;
use crate::error::ReadError;

pub mod auto;
pub mod feed;
pub mod line;
pub mod once;
pub mod text;

verus! {

/// A stream of whitespace-separated tokens.
///
/// The spec view `tokens()` is the sequence of tokens not yet yielded; every
/// operation is specified against it.  Probing for emptiness may pull more
/// text from an underlying supplier, but never consumes a token.
pub trait Source: Sized {
    /// The tokens not yet yielded.
    spec fn tokens(&self) -> Seq<Seq<char>>;

    /// Yields the next token, or `None` when the source is exhausted.
    fn next_token(&mut self) -> (t: Option<String>)
        ensures
            match t {
                Some(tok) => old(self).tokens().len() > 0 && tok@ == old(self).tokens()[0]
                    && final(self).tokens() == old(self).tokens().skip(1),
                None => old(self).tokens().len() == 0 && final(self).tokens() == old(
                    self,
                ).tokens(),
            },
    ;

    /// True when no token remains; consumes no token.
    fn is_empty(&mut self) -> (b: bool)
        ensures
            final(self).tokens() == old(self).tokens(),
            b == (old(self).tokens().len() == 0),
    ;

    /// Yields the next token of a source known to have one.
    fn next_token_unwrap(&mut self) -> (tok: String)
        requires
            old(self).tokens().len() > 0,
        ensures
            tok@ == old(self).tokens()[0],
            final(self).tokens() == old(self).tokens().skip(1),
    {
        let t = self.next_token();
        match t {
            Some(tok) => tok,
            None => vstd::pervasive::unreached(),
        }
    }
}

/// The reading capability: `Self` describes how to produce a value of type
/// `Self::Output` by consuming tokens, in order, from any [`Source`].
///
/// The four spec functions pin the behaviour down per implementation:
/// reading succeeds exactly on the token sequences satisfying `ok_on`, then
/// consumes the first `consumes` tokens and returns the value described by
/// `value_is`; on any other token sequence it fails with the error described
/// by `error_is`.
pub trait Readable: Sized {
    type Output;

    /// The token sequences on which reading succeeds.
    spec fn ok_on(toks: Seq<Seq<char>>) -> bool;

    /// How many leading tokens a successful read consumes.
    spec fn consumes(toks: Seq<Seq<char>>) -> int;

    /// The successful result: `out` is the value read from `toks`.
    spec fn value_is(toks: Seq<Seq<char>>, out: Self::Output) -> bool;

    /// The failure report: `e` is the error returned for `toks`.
    spec fn error_is(toks: Seq<Seq<char>>, e: ReadError) -> bool;

    /// Reads one value, consuming exactly the tokens it needs.
    fn read<S: Source>(source: &mut S) -> (r: Result<Self::Output, ReadError>)
        ensures
            match r {
                Ok(out) => Self::ok_on(old(source).tokens()) && Self::value_is(
                    old(source).tokens(),
                    out,
                ) && final(source).tokens() == old(source).tokens().skip(
                    Self::consumes(old(source).tokens()),
                ),
                Err(e) => !Self::ok_on(old(source).tokens()) && Self::error_is(
                    old(source).tokens(),
                    e,
                ),
            },
    ;
}

/// The older name of the reading capability; everything [`Readable`] has it.
pub trait ReadSource: Readable {

}

impl<T: Readable> ReadSource for T {

}

} // verus!

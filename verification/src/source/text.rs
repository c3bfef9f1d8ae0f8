//! The ready-made source over text already in memory.

use vstd::prelude::*;
use crate::source::feed::{LineRead, StringFeed};
use crate::source::line::LineSource;
use crate::tokenize::tokens_of;

verus! {

/// A concrete token source over an owned string: the incremental source with
/// the string feed, under one plain name.  The early versions of this crate
/// knew their one source under this name; it remains the simplest way to
/// read from a string without choosing a source variant.
pub struct Source {
    inner: LineSource<StringFeed>,
}

impl Source {
    /// Makes a source over the tokens of everything `feed` holds.
    pub fn new(feed: StringFeed) -> (r: Source)
        ensures
            crate::source::Source::tokens(&r) == tokens_of(feed.pending()),
    {
        Source { inner: LineSource::new(feed) }
    }

    /// Makes a source over the tokens of `s`.
    pub fn from_str(s: &str) -> (r: Source)
        ensures
            crate::source::Source::tokens(&r) == tokens_of(s@),
    {
        Source { inner: LineSource::from_str(s) }
    }
}

impl crate::source::Source for Source {
    closed spec fn tokens(&self) -> Seq<Seq<char>> {
        crate::source::Source::tokens(&self.inner)
    }

    fn next_token(&mut self) -> (t: Option<String>) {
        crate::source::Source::next_token(&mut self.inner)
    }

    fn is_empty(&mut self) -> (b: bool) {
        crate::source::Source::is_empty(&mut self.inner)
    }

    fn next_token_unwrap(&mut self) -> (tok: String) {
        crate::source::Source::next_token_unwrap(&mut self.inner)
    }
}

} // verus!

//! The eager token source: all text is materialized up front.

use vstd::prelude::*;
use vstd::string::*;
use crate::source::feed::{LineRead, StringFeed};
use crate::source::Source;
use crate::tokenize::{tokens_of, Tokens};

verus! {

/// A [`super::Source`] that drains its supplier once, up front, and then
/// scans the materialized text.  The fastest choice when the whole input is
/// available at the start.
pub struct OnceSource {
    tokens: Tokens,
}

impl OnceSource {
    /// Drains `feed` and makes a source over everything it held.
    pub fn new<F: LineRead>(feed: F) -> (r: OnceSource)
        ensures
            r.tokens() == tokens_of(feed.pending()),
    {
        let ghost orig = feed.pending();
        let mut feed = feed;
        let mut all = String::new();
        loop
            invariant
                all@ + feed.pending() == orig,
            ensures
                all@ + feed.pending() == orig,
                feed.pending().len() == 0,
            decreases feed.pending().len(),
        {
            match feed.read_line() {
                Some(l) => {
                    proof {
                        assert(all@ + l@ + feed.pending() =~= orig);
                    }
                    all.append(l.as_str());
                },
                None => {
                    break ;
                },
            }
        }
        proof {
            assert(all@ =~= orig);
        }
        OnceSource { tokens: Tokens::new(all) }
    }

    /// Makes a source over the tokens of `s`.
    pub fn from_str(s: &str) -> (r: OnceSource)
        ensures
            r.tokens() == tokens_of(s@),
    {
        OnceSource::new(StringFeed::from_str(s))
    }
}

impl super::Source for OnceSource {
    closed spec fn tokens(&self) -> Seq<Seq<char>> {
        self.tokens@
    }

    fn next_token(&mut self) -> (t: Option<String>) {
        self.tokens.next_token()
    }

    fn is_empty(&mut self) -> (b: bool) {
        self.tokens.is_empty()
    }
}

} // verus!

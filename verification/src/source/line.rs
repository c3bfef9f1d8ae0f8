//! The incremental token source: one line is pulled at a time.

use vstd::prelude::*;
use vstd::string::*;
use crate::source::feed::{LineRead, StringFeed};
use crate::source::Source;
use crate::tokenize::{lemma_tokens_of_concat, tokens_of, Tokens};

verus! {

/// A [`super::Source`] that pulls one line from its supplier whenever the
/// current line runs out of tokens.  The handy choice for interactive use:
/// text is requested only as reading proceeds.
///
/// A read may well stop in the middle of a line; the next read continues on
/// the remainder of that line before anything new is pulled.
pub struct LineSource<F: LineRead> {
    ctx: Tokens,
    feed: F,
}

impl<F: LineRead> LineSource<F> {
    /// Makes a source over the tokens of everything `feed` will supply.
    pub fn new(feed: F) -> (r: LineSource<F>)
        ensures
            r.tokens() == tokens_of(feed.pending()),
    {
        let r = LineSource { ctx: Tokens::new(String::new()), feed };
        proof {
            assert(r.tokens() =~= tokens_of(feed.pending()));
        }
        r
    }

    /// Pulls lines until the current one holds a token or the supplier runs
    /// out.  The token view does not change.
    fn prepare(&mut self)
        ensures
            final(self).tokens() == old(self).tokens(),
            final(self).ctx@.len() > 0 || final(self).feed.pending().len() == 0,
    {
        loop
            invariant
                self.tokens() == old(self).tokens(),
            decreases self.feed.pending().len(),
        {
            if !self.ctx.is_empty() {
                return ;
            }
            let ghost pend0 = self.feed.pending();
            proof {
                assert(self.tokens() =~= tokens_of(pend0));
            }
            match self.feed.read_line() {
                None => {
                    return ;
                },
                Some(l) => {
                    proof {
                        lemma_tokens_of_concat(l@, self.feed.pending());
                    }
                    self.ctx = Tokens::new(l);
                    proof {
                        assert(self.tokens() =~= tokens_of(pend0));
                    }
                },
            }
        }
    }
}

impl<F: LineRead> super::Source for LineSource<F> {
    closed spec fn tokens(&self) -> Seq<Seq<char>> {
        self.ctx@ + tokens_of(self.feed.pending())
    }

    fn next_token(&mut self) -> (t: Option<String>) {
        self.prepare();
        let r = self.ctx.next_token();
        proof {
            match r {
                Some(_) => {
                    assert(self.ctx@ + tokens_of(self.feed.pending()) =~= old(
                        self,
                    ).tokens().skip(1));
                },
                None => {
                    assert(self.tokens() =~= old(self).tokens());
                },
            }
        }
        r
    }

    fn is_empty(&mut self) -> (b: bool) {
        self.prepare();
        let b = self.ctx.is_empty();
        proof {
            if b {
                assert(self.tokens() =~= self.ctx@);
            }
        }
        b
    }
}

impl LineSource<StringFeed> {
    /// Makes an incremental source over the tokens of `s`, line by line.
    pub fn from_str(s: &str) -> (r: LineSource<StringFeed>)
        ensures
            r.tokens() == tokens_of(s@),
    {
        LineSource::new(StringFeed::from_str(s))
    }
}

} // verus!

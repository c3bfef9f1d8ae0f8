//! Line-by-line text suppliers.
//!
//! A [`LineRead`] hands out its text one line at a time; the incremental
//! [`super::line::LineSource`] is built over one.  [`StringFeed`] is the
//! supplier over an owned string, used for reading from text already in
//! memory; a program reading interactively supplies its own implementation.

use vstd::prelude::*;
use vstd::string::*;

verus! {

/// A supplier of text, handed out one line at a time.
///
/// The spec view `pending()` is the text not yet handed out.  Each pulled
/// line is a non-empty prefix of the pending text and ends with a newline
/// unless it exhausts the supplier, so a line never cuts a token in two.
pub trait LineRead: Sized {
    /// The characters not yet handed out.
    spec fn pending(&self) -> Seq<char>;

    /// Pulls the next line, or `None` when no text remains.
    fn read_line(&mut self) -> (line: Option<String>)
        ensures
            match line {
                Some(l) => l@.len() > 0 && old(self).pending() == l@ + final(self).pending() && (
                l@.last() == '\n' || final(self).pending().len() == 0),
                None => old(self).pending().len() == 0 && final(self).pending() == old(
                    self,
                ).pending(),
            },
    ;
}

/// A [`LineRead`] over an owned string.
pub struct StringFeed {
    data: String,
    pos: usize,
    len: usize,
}

impl StringFeed {
    #[verifier::type_invariant]
    spec fn wf(self) -> bool {
        self.len == self.data@.len() && self.pos <= self.len
    }

    /// Makes a feed that hands out all of `data`.
    pub fn new(data: String) -> (r: StringFeed)
        ensures
            r.pending() == data@,
    {
        let len = data.as_str().unicode_len();
        let r = StringFeed { data, pos: 0, len };
        proof {
            assert(r.data@.skip(0) =~= r.data@);
        }
        r
    }

    /// Makes a feed that hands out a copy of `data`.
    pub fn from_str(data: &str) -> (r: StringFeed)
        ensures
            r.pending() == data@,
    {
        StringFeed::new(data.to_owned())
    }
}

impl LineRead for StringFeed {
    closed spec fn pending(&self) -> Seq<char> {
        self.data@.skip(self.pos as int)
    }

    fn read_line(&mut self) -> (line: Option<String>) {
        proof {
            use_type_invariant(&*self);
        }
        if self.pos == self.len {
            return None;
        }
        let ghost pend = self.pending();
        let start = self.pos;
        let mut i = start;
        while i < self.len && self.data.as_str().get_char(i) != '\n'
            invariant
                self.len == self.data@.len(),
                start <= i <= self.len,
                forall|k: int| start <= k < i ==> self.data@[k] != '\n',
            decreases self.len - i,
        {
            i = i + 1;
        }
        let stop = if i < self.len {
            i + 1
        } else {
            i
        };
        let l = self.data.as_str().substring_char(start, stop).to_owned();
        self.pos = stop;
        proof {
            assert(l@ + final(self).pending() =~= pend);
            if stop == i + 1 {
                assert(l@.last() == self.data@[i as int]);
            } else {
                assert(final(self).pending().len() == 0);
            }
        }
        Some(l)
    }
}

} // verus!

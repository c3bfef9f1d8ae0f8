//! Whitespace tokenization of a character buffer.
//!
//! The mathematical model is `tokens_of`: the sequence of maximal non-empty
//! runs of non-whitespace characters of a character sequence.  `Tokens` is
//! the executable cursor over an owned buffer that yields those runs in
//! order, one owned token per call.

use vstd::prelude::*;
use vstd::string::*;

verus! {

/// The separator set: the ASCII whitespace characters, covering spaces, tabs
/// and every newline convention (`\n`, `\r\n`, `\r`).
pub open spec fn is_ws(c: char) -> bool {
    c == ' ' || c == '\t' || c == '\n' || c == '\r' || c == '\u{b}' || c == '\u{c}'
}

/// Length of the maximal non-whitespace run at the front of `s`.
pub open spec fn head_len(s: Seq<char>) -> nat
    decreases s.len(),
{
    if s.len() == 0 || is_ws(s[0]) {
        0
    } else {
        (1 + head_len(s.skip(1))) as nat
    }
}

/// The front run never reaches past the end of the sequence.
pub proof fn lemma_head_len_le(s: Seq<char>)
    ensures
        head_len(s) <= s.len(),
    decreases s.len(),
{
    if s.len() > 0 && !is_ws(s[0]) {
        lemma_head_len_le(s.skip(1));
    }
}

/// The whitespace-split tokens of `s`, in order: every maximal non-empty run
/// of non-whitespace characters, and nothing else.
pub open spec fn tokens_of(s: Seq<char>) -> Seq<Seq<char>>
    decreases s.len(),
    via tokens_of_decreases
{
    if s.len() == 0 {
        Seq::empty()
    } else if is_ws(s[0]) {
        tokens_of(s.skip(1))
    } else {
        seq![s.take(head_len(s) as int)] + tokens_of(s.skip(head_len(s) as int))
    }
}

#[via_fn]
proof fn tokens_of_decreases(s: Seq<char>) {
    if s.len() > 0 && !is_ws(s[0]) {
        lemma_head_len_le(s);
        assert(head_len(s) >= 1);
    }
}

/// Dropping a leading whitespace character changes no token.
pub proof fn lemma_tokens_of_ws_first(s: Seq<char>)
    requires
        s.len() > 0,
        is_ws(s[0]),
    ensures
        tokens_of(s) == tokens_of(s.skip(1)),
{
}

/// `head_len` is pinned down by any witness of the run: `j` characters that
/// are not whitespace, stopped by the end or by a whitespace character.
pub proof fn lemma_head_len_run(s: Seq<char>, j: int)
    requires
        0 <= j <= s.len(),
        forall|k: int| 0 <= k < j ==> !is_ws(s[k]),
        j == s.len() || is_ws(s[j]),
    ensures
        head_len(s) == j,
    decreases j,
{
    if j == 0 {
    } else {
        assert(!is_ws(s[0]));
        let s1 = s.skip(1);
        assert(forall|k: int| 0 <= k < j - 1 ==> s1[k] == s[k + 1] && !is_ws(s1[k]));
        if j - 1 < s1.len() {
            assert(s1[j - 1] == s[j]);
        }
        lemma_head_len_run(s1, j - 1);
    }
}

/// When `s1` holds a whitespace character, the front run of `s1 + s2` stays
/// inside `s1`.
pub proof fn lemma_head_len_concat(s1: Seq<char>, s2: Seq<char>)
    requires
        exists|i: int| 0 <= i < s1.len() && is_ws(s1[i]),
    ensures
        head_len(s1 + s2) == head_len(s1),
        head_len(s1) < s1.len(),
    decreases s1.len(),
{
    let i = choose|i: int| 0 <= i < s1.len() && is_ws(s1[i]);
    assert((s1 + s2)[0] == s1[0]);
    if is_ws(s1[0]) {
    } else {
        assert(i >= 1);
        assert(is_ws(s1.skip(1)[i - 1]));
        assert((s1 + s2).skip(1) =~= s1.skip(1) + s2);
        lemma_head_len_concat(s1.skip(1), s2);
    }
}

/// Tokenization distributes over concatenation whenever the cut falls on a
/// separator: `s1` ends with whitespace, or one side is empty.
pub proof fn lemma_tokens_of_concat(s1: Seq<char>, s2: Seq<char>)
    requires
        s1.len() == 0 || s2.len() == 0 || is_ws(s1.last()),
    ensures
        tokens_of(s1 + s2) == tokens_of(s1) + tokens_of(s2),
    decreases s1.len(),
{
    if s1.len() == 0 {
        assert(s1 + s2 =~= s2);
        assert(tokens_of(s1) + tokens_of(s2) =~= tokens_of(s2));
    } else if s2.len() == 0 {
        assert(s1 + s2 =~= s1);
        assert(tokens_of(s1) + tokens_of(s2) =~= tokens_of(s1));
    } else if is_ws(s1[0]) {
        assert((s1 + s2)[0] == s1[0]);
        assert((s1 + s2).skip(1) =~= s1.skip(1) + s2);
        if s1.len() == 1 {
            assert(s1.skip(1).len() == 0);
        } else {
            assert(s1.skip(1).last() == s1.last());
        }
        lemma_tokens_of_concat(s1.skip(1), s2);
    } else {
        assert((s1 + s2)[0] == s1[0]);
        assert(is_ws(s1[s1.len() - 1]));
        lemma_head_len_concat(s1, s2);
        let h = head_len(s1) as int;
        assert(h >= 1);
        assert((s1 + s2).take(h) =~= s1.take(h));
        assert((s1 + s2).skip(h) =~= s1.skip(h) + s2);
        assert(s1.skip(h).len() > 0);
        assert(s1.skip(h).last() == s1.last());
        lemma_tokens_of_concat(s1.skip(h), s2);
        assert(tokens_of(s1 + s2) =~= tokens_of(s1) + tokens_of(s2));
    }
}

/// Executable test for the separator set.
pub fn is_ws_char(c: char) -> (b: bool)
    ensures
        b == is_ws(c),
{
    c == ' ' || c == '\t' || c == '\n' || c == '\r' || c == '\u{b}' || c == '\u{c}'
}

/// A cursor over the whitespace-separated tokens of an owned text buffer.
///
/// The view of a `Tokens` is the sequence of tokens not yet yielded; every
/// operation is specified against that view.
pub struct Tokens {
    context: String,
    pos: usize,
    len: usize,
}

impl View for Tokens {
    type V = Seq<Seq<char>>;

    closed spec fn view(&self) -> Seq<Seq<char>> {
        tokens_of(self.context@.skip(self.pos as int))
    }
}

impl Tokens {
    #[verifier::type_invariant]
    spec fn wf(self) -> bool {
        self.len == self.context@.len() && self.pos <= self.len
    }

    /// Makes a cursor over all tokens of `context`.
    pub fn new(context: String) -> (r: Tokens)
        ensures
            r@ == tokens_of(context@),
    {
        let len = context.as_str().unicode_len();
        let r = Tokens { context, pos: 0, len };
        proof {
            assert(r.context@.skip(0) =~= r.context@);
        }
        r
    }

    /// Advances past leading whitespace; the token view does not change.
    fn skip_ws(&mut self)
        ensures
            final(self)@ == old(self)@,
            final(self).pos <= final(self).len,
            final(self).context == old(self).context,
            final(self).len == old(self).len,
            final(self).pos == final(self).len || !is_ws(
                final(self).context@[final(self).pos as int],
            ),
    {
        proof {
            use_type_invariant(&*self);
        }
        while self.pos < self.len && is_ws_char(self.context.as_str().get_char(self.pos))
            invariant
                self.len == self.context@.len(),
                self.pos <= self.len,
                self.context == old(self).context,
                self.len == old(self).len,
                tokens_of(self.context@.skip(self.pos as int)) == old(self)@,
            decreases self.len - self.pos,
        {
            proof {
                let s = self.context@.skip(self.pos as int);
                lemma_tokens_of_ws_first(s);
                assert(s.skip(1) =~= self.context@.skip(self.pos as int + 1));
            }
            self.pos = self.pos + 1;
        }
    }

    /// Yields the next token, or `None` when no token remains.
    pub fn next_token(&mut self) -> (t: Option<String>)
        ensures
            match t {
                Some(tok) => old(self)@.len() > 0 && tok@ == old(self)@[0] && final(self)@ == old(
                    self,
                )@.skip(1),
                None => old(self)@.len() == 0 && final(self)@ == old(self)@,
            },
    {
        self.skip_ws();
        proof {
            use_type_invariant(&*self);
        }
        if self.pos == self.len {
            proof {
                assert(self.context@.skip(self.pos as int) =~= Seq::<char>::empty());
            }
            None
        } else {
            let ghost s1 = self.context@.skip(self.pos as int);
            let start = self.pos;
            while self.pos < self.len && !is_ws_char(self.context.as_str().get_char(self.pos))
                invariant
                    self.len == self.context@.len(),
                    start <= self.pos <= self.len,
                    self.context == old(self).context,
                    self.len == old(self).len,
                    s1 == self.context@.skip(start as int),
                    forall|k: int| start <= k < self.pos ==> !is_ws(self.context@[k]),
                decreases self.len - self.pos,
            {
                self.pos = self.pos + 1;
            }
            let tok = self.context.as_str().substring_char(start, self.pos).to_owned();
            proof {
                let h = self.pos - start;
                assert(forall|k: int| 0 <= k < h ==> s1[k] == self.context@[start + k]);
                if h < s1.len() {
                    assert(s1[h] == self.context@[self.pos as int]);
                }
                lemma_head_len_run(s1, h);
                assert(tok@ =~= s1.take(h));
                assert(self.context@.skip(self.pos as int) =~= s1.skip(h));
                assert(old(self)@ == seq![s1.take(h)] + tokens_of(s1.skip(h)));
                assert(old(self)@[0] == s1.take(h));
                assert(old(self)@.skip(1) =~= tokens_of(s1.skip(h)));
            }
            Some(tok)
        }
    }

    /// True when no token remains; skips whitespace but consumes no token.
    pub fn is_empty(&mut self) -> (b: bool)
        ensures
            final(self)@ == old(self)@,
            b == (old(self)@.len() == 0),
    {
        self.skip_ws();
        proof {
            use_type_invariant(&*self);
            if self.pos == self.len {
                assert(self.context@.skip(self.pos as int) =~= Seq::<char>::empty());
            }
        }
        self.pos == self.len
    }
}

} // verus!

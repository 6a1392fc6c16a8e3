//! The upstream token source.
//!
//! The window scan pulls word tokens one at a time from a single-pass
//! producer. The producer must be able to say whether more tokens remain,
//! so that the scan can tell a permanently exhausted source from a window
//! that is merely not yet filled.

use vstd::prelude::*;

verus! {

/// A single-pass producer of word tokens, polled one token at a time.
///
/// `tokens` is the sequence of token texts the source will still yield, in
/// order. Exhaustion is permanent: once `tokens` is empty it stays empty.
pub trait TokenSource: Sized {
    /// The texts of the tokens not yet yielded, in the order they will come.
    spec fn tokens(&self) -> Seq<Seq<char>>;

    /// Yield the next token, or `None` once the source is exhausted.
    fn next_token(&mut self) -> (r: Option<String>)
        ensures
            old(self).tokens().len() == 0 ==> r is None && final(self).tokens() == old(self).tokens(),
            old(self).tokens().len() > 0 ==> r is Some && r->0@ == old(self).tokens()[0]
                && final(self).tokens() == old(self).tokens().drop_first(),
    ;

    /// Whether the source has at least one token left.
    fn has_more(&self) -> (r: bool)
        ensures
            r == (self.tokens().len() > 0),
    ;
}

/// A token source backed by a vector of owned tokens, yielded front to back.
pub struct VecTokenSource {
    pub toks: Vec<String>,
    pub pos: usize,
}

impl VecTokenSource {
    pub fn new(toks: Vec<String>) -> (r: Self)
        ensures
            r.tokens() == toks.deep_view(),
    {
        let r = VecTokenSource { toks, pos: 0 };
        proof {
            assert(r.tokens() =~= r.toks.deep_view());
        }
        r
    }
}

impl TokenSource for VecTokenSource {
    open spec fn tokens(&self) -> Seq<Seq<char>> {
        if self.pos <= self.toks.len() {
            self.toks.deep_view().skip(self.pos as int)
        } else {
            Seq::empty()
        }
    }

    fn next_token(&mut self) -> (r: Option<String>) {
        if self.pos < self.toks.len() {
            let t = self.toks[self.pos].clone();
            self.pos = self.pos + 1;
            proof {
                assert(self.tokens() =~= old(self).tokens().drop_first());
                assert(t@ == old(self).tokens()[0]);
            }
            Some(t)
        } else {
            None
        }
    }

    fn has_more(&self) -> (r: bool) {
        self.pos < self.toks.len()
    }
}

} // verus!

//! The sliding-window OSB scan.
//!
//! `OsbTokenizer` drives a fixed-capacity circular buffer over a pull-based
//! token source. For every anchor token it emits the anchor alone, then the
//! anchor paired with each following token inside the window, before moving
//! to the next anchor. Tokens are pulled from the source at most one per
//! call, each buffer slot is reused in place, and at no point are more than
//! `window_size` tokens held.

use vstd::arithmetic::div_mod::lemma_fundamental_div_mod;
use vstd::arithmetic::div_mod::lemma_mod_add_multiples_vanish;
use vstd::arithmetic::div_mod::lemma_mod_division_less_than_divisor;
use vstd::arithmetic::div_mod::lemma_mod_multiples_vanish;
use vstd::arithmetic::div_mod::lemma_small_mod;
use vstd::pervasive::VecAdditionalExecFns;
use vstd::prelude::*;
use std::marker::PhantomData;

use crate::gram::FromGram;
use crate::gram::Gram;
use crate::gram::OsbToken;
use crate::model::anchor_emits;
use crate::model::anchor_grams;
use crate::model::anchors_prefix;
use crate::model::emit_at;
use crate::model::emitted_prefix;
use crate::model::lemma_count_law;
use crate::model::osb_emits;
use crate::model::total_grams;
use crate::model::EmitView;
use crate::source::TokenSource;

verus! {

/// Two in-window positions that share a buffer slot are the same position.
proof fn lemma_window_slots_distinct(k1: int, k2: int, w: int)
    requires
        1 <= w,
        0 <= k1 <= k2 < k1 + w,
        k1 % w == k2 % w,
    ensures
        k1 == k2,
{
    lemma_fundamental_div_mod(k1, w);
    lemma_fundamental_div_mod(k2, w);
    let q1 = k1 / w;
    let q2 = k2 / w;
    assert(k2 - k1 == w * (q2 - q1)) by (nonlinear_arith)
        requires
            k1 == w * q1 + k1 % w,
            k2 == w * q2 + k2 % w,
            k1 % w == k2 % w,
    ;
    assert(q2 - q1 == 0) by (nonlinear_arith)
        requires
            1 <= w,
            0 <= w * (q2 - q1) < w,
    ;
}

/// The circular buffer `b` caches, for every absolute position `k` of the
/// window `[pos, pos + w)`, the token `ts[k]` in slot `k % w` exactly when
/// `k` lies among the `c` tokens pulled so far, and nothing otherwise.
pub open spec fn buffer_matches(
    b: Seq<Option<String>>,
    ts: Seq<Seq<char>>,
    w: int,
    pos: int,
    c: int,
) -> bool {
    forall|k: int|
        pos <= k < pos + w ==> ({
            let s = #[trigger] b[k % w];
            if k < c {
                s is Some && s->0@ == ts[k]
            } else {
                s is None
            }
        })
}

/// Caching one newly pulled token into its slot keeps the buffer matched,
/// with one more token pulled.
proof fn lemma_buffer_fill(
    b1: Seq<Option<String>>,
    b2: Seq<Option<String>>,
    ts: Seq<Seq<char>>,
    w: int,
    pos: int,
    c: int,
    t: Option<String>,
)
    requires
        1 <= w,
        b1.len() == w,
        0 <= pos <= c < pos + w,
        c < ts.len(),
        buffer_matches(b1, ts, w, pos, c),
        t is Some && t->0@ == ts[c],
        b2 == b1.update(c % w, t),
    ensures
        buffer_matches(b2, ts, w, pos, c + 1),
{
    lemma_mod_division_less_than_divisor(c, w);
    assert forall|k: int|
        pos <= k < pos + w implies ({
            let s = #[trigger] b2[k % w];
            if k < c + 1 {
                s is Some && s->0@ == ts[k]
            } else {
                s is None
            }
        }) by {
        lemma_mod_division_less_than_divisor(k, w);
        if k % w == c % w {
            if k <= c {
                lemma_window_slots_distinct(k, c, w);
            } else {
                lemma_window_slots_distinct(c, k, w);
            }
        }
    }
}

/// Clearing the anchor's slot and moving the window one position forward
/// keeps the buffer matched.
proof fn lemma_buffer_roll(
    b1: Seq<Option<String>>,
    b2: Seq<Option<String>>,
    ts: Seq<Seq<char>>,
    w: int,
    pos: int,
    c: int,
)
    requires
        1 <= w,
        b1.len() == w,
        0 <= pos,
        c <= pos + w,
        buffer_matches(b1, ts, w, pos, c),
        b2 == b1.update(pos % w, None::<String>),
    ensures
        buffer_matches(b2, ts, w, pos + 1, c),
{
    lemma_mod_division_less_than_divisor(pos, w);
    assert forall|k: int|
        pos + 1 <= k < pos + 1 + w implies ({
            let s = #[trigger] b2[k % w];
            if k < c {
                s is Some && s->0@ == ts[k]
            } else {
                s is None
            }
        }) by {
        lemma_mod_division_less_than_divisor(k, w);
        if k == pos + w {
            lemma_mod_add_multiples_vanish(pos, w);
            assert(k % w == pos % w);
        } else {
            if k % w == pos % w {
                lemma_window_slots_distinct(pos, k, w);
            }
        }
    }
}

/// How many buffer slots hold a cached token.
pub open spec fn live_slots(b: Seq<Option<String>>) -> int
    decreases b.len(),
{
    if b.len() == 0 {
        0
    } else {
        live_slots(b.drop_last()) + if b.last() is Some {
            1int
        } else {
            0int
        }
    }
}

proof fn lemma_live_slots_all_none(b: Seq<Option<String>>)
    requires
        forall|s: int| 0 <= s < b.len() ==> b[s] is None,
    ensures
        live_slots(b) == 0,
    decreases b.len(),
{
    if b.len() > 0 {
        lemma_live_slots_all_none(b.drop_last());
    }
}

proof fn lemma_live_slots_clear_one(b: Seq<Option<String>>, s: int)
    requires
        0 <= s < b.len(),
        b[s] is Some,
    ensures
        live_slots(b.update(s, None::<String>)) == live_slots(b) - 1,
    decreases b.len(),
{
    let b2 = b.update(s, None::<String>);
    if s == b.len() - 1 {
        assert(b2.drop_last() =~= b.drop_last());
    } else {
        assert(b2.drop_last() =~= b.drop_last().update(s, None::<String>));
        lemma_live_slots_clear_one(b.drop_last(), s);
        assert(b2.last() == b.last());
    }
}

/// A matched buffer holds exactly one cached token per pulled-but-unrolled
/// position: `c - pos` of its slots are live.
proof fn lemma_live_slots_window(
    b: Seq<Option<String>>,
    ts: Seq<Seq<char>>,
    w: int,
    pos: int,
    c: int,
)
    requires
        1 <= w,
        b.len() == w,
        0 <= pos <= c <= pos + w,
        buffer_matches(b, ts, w, pos, c),
    ensures
        live_slots(b) == c - pos,
    decreases c - pos,
{
    if c == pos {
        assert forall|s: int| 0 <= s < b.len() implies b[s] is None by {
            // every slot is the slot of some position of the empty window
            lemma_fundamental_div_mod(s - pos, w);
            lemma_mod_division_less_than_divisor(s - pos, w);
            let q = (s - pos) / w;
            let k = pos + ((s - pos) % w);
            lemma_mod_multiples_vanish(-q, s, w);
            lemma_small_mod(s as nat, w as nat);
            assert(w * (-q) == -(w * q)) by (nonlinear_arith);
            assert(k == w * (-q) + s);
            assert(k % w == s);
            assert(b[k % w] is None);
        }
        lemma_live_slots_all_none(b);
    } else {
        let k = c - 1;
        lemma_mod_division_less_than_divisor(k, w);
        assert(b[k % w] is Some);
        let b2 = b.update(k % w, None::<String>);
        lemma_live_slots_clear_one(b, k % w);
        assert forall|k2: int|
            pos <= k2 < pos + w implies ({
                let s = #[trigger] b2[k2 % w];
                if k2 < c - 1 {
                    s is Some && s->0@ == ts[k2]
                } else {
                    s is None
                }
            }) by {
            lemma_mod_division_less_than_divisor(k2, w);
            if k2 % w == k % w {
                if k2 <= k {
                    lemma_window_slots_distinct(k2, k, w);
                } else {
                    lemma_window_slots_distinct(k, k2, w);
                }
            }
        }
        lemma_live_slots_window(b2, ts, w, pos, c - 1);
    }
}

/// The OSB scan: a window buffer, the anchor cursor, and the offset cursor.
///
/// `consumed` records the tokens pulled from the source so far and `hist`
/// the emissions made so far; both are ghost. A scan consumes its source in
/// a single pass: re-iterating requires a fresh source and a fresh scan.
pub struct OsbTokenizer<I, R> where I: TokenSource, R: FromGram {
    pub iter: I,
    pub buf: Vec<Option<String>>,
    pub window_size: usize,
    pub window_pos: usize,
    pub window_idx: usize,
    pub consumed: Ghost<Seq<Seq<char>>>,
    pub hist: Ghost<Seq<EmitView>>,
    pub phantom: PhantomData<R>,
}

impl<I, R> OsbTokenizer<I, R> where I: TokenSource, R: FromGram {
    /// The whole input: the tokens already pulled, then the tokens to come.
    /// Pulling moves a token across the boundary, so the value is constant
    /// over the scan's lifetime.
    pub open spec fn input(self) -> Seq<Seq<char>> {
        self.consumed@ + self.iter.tokens()
    }

    /// How many tokens have been pulled from the source.
    pub open spec fn pulled(self) -> int {
        self.consumed@.len() as int
    }

    /// The emissions made so far, oldest first.
    pub open spec fn emitted(self) -> Seq<EmitView> {
        self.hist@
    }

    /// Whether the scan is over: every anchor of the input has been fully
    /// emitted. From this state every further pull yields nothing.
    pub open spec fn is_done(self) -> bool {
        self.window_pos == self.input().len()
    }

    /// Well-formedness: the cursors stay inside the input, the buffer holds
    /// exactly the pulled-but-unemitted tokens, and the history matches the
    /// scan's position.
    pub open spec fn wf(self) -> bool {
        let w = self.window_size as int;
        let pos = self.window_pos as int;
        let idx = self.window_idx as int;
        let c = self.pulled();
        let n = self.input().len() as int;
        &&& 1 <= w
        &&& n + w <= usize::MAX
        &&& self.buf@.len() == w
        &&& idx < w
        &&& pos <= c <= pos + w
        &&& pos + idx <= c
        &&& (idx == 0 || pos + idx < c || c < n)
        &&& buffer_matches(self.buf@, self.input(), w, pos, c)
        &&& self.hist@ == emitted_prefix(self.input(), w, pos, idx)
    }

    /// Create a scan over `iter` with a window of `window_size` tokens.
    ///
    /// A window of zero would leave every index computation without
    /// meaning, so it is ruled out up front.
    pub fn new(iter: I, window_size: usize) -> (r: Self)
        requires
            window_size >= 1,
            iter.tokens().len() + window_size <= usize::MAX,
        ensures
            r.wf(),
            r.input() == iter.tokens(),
            r.window_size == window_size,
            r.window_pos == 0,
            r.window_idx == 0,
            r.emitted() == Seq::<EmitView>::empty(),
    {
        let mut buf: Vec<Option<String>> = Vec::new();
        let mut k: usize = 0;
        while k < window_size
            invariant
                k <= window_size,
                buf@.len() == k,
                forall|s: int| 0 <= s < k ==> buf@[s] is None,
            decreases window_size - k,
        {
            buf.push(None);
            k = k + 1;
        }
        let r = OsbTokenizer {
            iter,
            buf,
            window_size,
            window_pos: 0,
            window_idx: 0,
            consumed: Ghost(Seq::empty()),
            hist: Ghost(Seq::empty()),
            phantom: PhantomData,
        };
        proof {
            let w = window_size as int;
            assert(r.input() =~= r.iter.tokens());
            assert forall|k2: int|
                0 <= k2 < 0 + w implies ({
                    let s = #[trigger] r.buf@[k2 % w];
                    if k2 < 0 {
                        s is Some && s->0@ == r.input()[k2]
                    } else {
                        s is None
                    }
                }) by {
                lemma_mod_division_less_than_divisor(k2, w);
            }
            assert(buffer_matches(r.buf@, r.input(), w, 0, 0));
            assert(anchors_prefix(r.input(), w, 0) =~= Seq::<EmitView>::empty());
            assert(r.hist@ =~= emitted_prefix(r.input(), w, 0, 0));
        }
        r
    }

    /// Emit the next `(feature, offset)` pair, or `None` exactly when the
    /// input is exhausted and every anchor has been fully emitted.
    ///
    /// A successful call emits the gram of the current anchor at the
    /// current offset and advances: to the next offset while one remains
    /// within both the window and the input, else to the next anchor.
    pub fn next(&mut self) -> (r: Option<OsbToken<R>>)
        requires
            old(self).wf(),
        ensures
            final(self).wf(),
            final(self).window_size == old(self).window_size,
            final(self).input() == old(self).input(),
            r is None <==> old(self).is_done(),
            old(self).is_done() ==> final(self).is_done()
                && final(self).emitted() == old(self).emitted()
                && final(self).window_pos == old(self).window_pos
                && final(self).window_idx == old(self).window_idx,
            r is Some ==> ({
                let ts = old(self).input();
                let pos = old(self).window_pos as int;
                let idx = old(self).window_idx as int;
                let e = emit_at(ts, pos, idx);
                &&& r->0.idx == old(self).window_idx
                &&& r->0.inner@ == R::from_gram_spec(e.gram)
                &&& final(self).emitted() == old(self).emitted().push(e)
                &&& (if idx + 1 < anchor_grams(ts.len() as int, old(self).window_size as int, pos) {
                    final(self).window_pos as int == pos && final(self).window_idx as int == idx + 1
                } else {
                    final(self).window_pos as int == pos + 1 && final(self).window_idx == 0
                })
            }),
    {
        let ghost ts = self.input();
        let ghost n = ts.len() as int;
        let w = self.window_size;
        let ghost wi = w as int;
        let ghost pos0 = self.window_pos as int;
        let ghost idx0 = self.window_idx as int;
        let ghost c0 = self.pulled();

        // Fill the slot of the token at anchor + offset, pulling at most
        // one token from the source.
        let end_slot = (self.window_pos + self.window_idx) % w;
        proof {
            lemma_mod_division_less_than_divisor(pos0 + idx0, wi);
        }
        if self.buf[end_slot].is_none() {
            proof {
                // the slot of position `pos0 + idx0` is empty, so that
                // token has not been pulled yet: the window has advanced
                // exactly to it
                assert(self.buf@[(pos0 + idx0) % wi] is None);
                assert(pos0 + idx0 >= c0);
                assert(pos0 + idx0 == c0);
            }
            let pulled_tok = self.iter.next_token();
            match pulled_tok {
                Some(tok) => {
                    let ghost tv = tok@;
                    let ghost b1 = self.buf@;
                    self.buf.set(end_slot, Some(tok));
                    self.consumed = Ghost(self.consumed@.push(tv));
                    proof {
                        assert(self.input() =~= ts);
                        assert(tv == ts[c0]);
                        lemma_buffer_fill(b1, self.buf@, ts, wi, pos0, c0, self.buf@[c0 % wi]);
                    }
                },
                None => {
                    proof {
                        assert(self.input() =~= ts);
                        assert(c0 == n);
                    }
                },
            }
        }
        let ghost c1 = self.pulled();
        proof {
            assert(buffer_matches(self.buf@, ts, wi, pos0, c1));
            assert(self.buf@[(pos0 + idx0) % wi] is Some ==> pos0 + idx0 < c1);
            assert(self.buf@[(pos0 + idx0) % wi] is None ==> pos0 + idx0 >= c1);
            // after the fill, the emit slot is cached unless the scan is over
            assert(pos0 + idx0 < c1 || (idx0 == 0 && c1 == n));
        }

        // If even the anchor's own slot could not be filled, the source was
        // exhausted before this anchor: the scan is over, permanently.
        let anchor_slot = self.window_pos % w;
        proof {
            lemma_mod_division_less_than_divisor(pos0, wi);
        }
        if self.buf[anchor_slot].is_none() {
            proof {
                assert(self.buf@[pos0 % wi] is None);
                assert(pos0 == c1 && c1 == n);
                assert(self.is_done());
            }
            return None;
        }

        // Build the gram: the anchor alone at offset zero, else the anchor
        // paired with the token at the current offset.
        proof {
            assert(self.buf@[pos0 % wi] is Some);
            assert(pos0 < c1);
            assert(self.buf@[pos0 % wi]->0@ == ts[pos0]);
        }
        let t1 = self.buf[anchor_slot].as_ref().unwrap().clone();
        let idx_now = self.window_idx;
        let gram = if idx_now != 0 {
            proof {
                assert(pos0 + idx0 < c1);
                assert(self.buf@[(pos0 + idx0) % wi] is Some);
                assert(self.buf@[(pos0 + idx0) % wi]->0@ == ts[pos0 + idx0]);
            }
            let t2 = self.buf[end_slot].as_ref().unwrap().clone();
            Gram::Bi { t1, t2 }
        } else {
            Gram::Uni { t1 }
        };
        let ghost gv = gram@;
        proof {
            assert(gv == emit_at(ts, pos0, idx0).gram);
        }
        let inner = R::from_gram(gram);
        let result_token = OsbToken { inner, idx: idx_now };

        // Advance the offset; move to the next anchor when the window is
        // exhausted, or when the source is exhausted and the slot the next
        // offset would need is empty. The second arm is what lets the final
        // anchors of a finite input emit fewer grams instead of none.
        let ghost agc = anchor_grams(n, wi, pos0);
        let next_idx = idx_now + 1;
        let roll = if next_idx == w {
            true
        } else {
            let more = self.iter.has_more();
            if !more {
                let probe_slot = (self.window_pos + next_idx) % w;
                proof {
                    lemma_mod_division_less_than_divisor(pos0 + idx0 + 1, wi);
                    assert(c1 == n);
                }
                self.buf[probe_slot].is_none()
            } else {
                false
            }
        };
        proof {
            assert(pos0 + idx0 + 1 <= c1);
            assert(idx0 < agc);
            if idx0 + 1 < wi {
                assert(self.buf@[(pos0 + idx0 + 1) % wi] is Some ==> pos0 + idx0 + 1 < c1);
                assert(self.buf@[(pos0 + idx0 + 1) % wi] is None ==> pos0 + idx0 + 1 >= c1);
            }
            assert(roll <==> idx0 + 1 == agc);
        }
        let ghost b_mid = self.buf@;
        if roll {
            self.buf.set(anchor_slot, None);
            self.window_idx = 0;
            self.window_pos = self.window_pos + 1;
            proof {
                lemma_buffer_roll(b_mid, self.buf@, ts, wi, pos0, c1);
            }
        } else {
            self.window_idx = next_idx;
        }
        self.hist = Ghost(self.hist@.push(emit_at(ts, pos0, idx0)));
        proof {
            let posf = self.window_pos as int;
            let idxf = self.window_idx as int;
            if roll {
                assert(anchor_emits(ts, wi, pos0) =~= Seq::new((idx0 + 1) as nat, |j: int| emit_at(ts, pos0, j)));
            }
            assert(self.hist@ =~= emitted_prefix(ts, wi, posf, idxf));
        }
        Some(result_token)
    }
}

/// Bounded memory: a well-formed scan caches exactly one token per anchor
/// pulled but not yet fully emitted, and so never more than `window_size`
/// tokens at once, whatever the length of the input.
pub proof fn lemma_bounded_memory<I, R>(t: OsbTokenizer<I, R>) where I: TokenSource, R: FromGram
    requires
        t.wf(),
    ensures
        live_slots(t.buf@) == t.pulled() - t.window_pos,
        live_slots(t.buf@) <= t.window_size as int,
{
    lemma_live_slots_window(
        t.buf@,
        t.input(),
        t.window_size as int,
        t.window_pos as int,
        t.pulled(),
    );
}

/// Termination of the count: once a scan is done, its history is the whole
/// emission sequence of its input, with exactly `total_grams` entries.
pub proof fn lemma_done_emits_all<I, R>(t: OsbTokenizer<I, R>) where I: TokenSource, R: FromGram
    requires
        t.wf(),
        t.is_done(),
    ensures
        t.emitted() == osb_emits(t.input(), t.window_size as int),
        t.emitted().len() == total_grams(t.input().len() as int, t.window_size as int),
{
    let w = t.window_size as int;
    assert(t.emitted() =~= osb_emits(t.input(), w));
    lemma_count_law(t.input(), w);
}

} // verus!

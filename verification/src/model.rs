//! The mathematical model of a full window scan.
//!
//! For an input token sequence `ts` of length `n` and a window of width `w`,
//! the scan emits, for every anchor position `a`, one gram per offset
//! `j` in `0 .. min(w, n - a)`: the anchor alone at offset `0`, and the
//! pair `(ts[a], ts[a + j])` at each positive offset. Anchors come in
//! order, and within an anchor the offsets come in increasing order.
//!
//! The lemmas here state the laws of that sequence: its total length, where
//! each gram stands, the anchor-then-offset ordering, the shape of the
//! grams of one anchor, and the degenerate single-token window.

use vstd::prelude::*;
use vstd::math::min;

use crate::gram::GramView;

verus! {

/// How many grams the anchor at position `i` contributes: one per offset
/// that still lies inside both the window and the input.
pub open spec fn anchor_grams(n: int, w: int, i: int) -> int {
    min(w, n - i)
}

/// The number of grams contributed by the anchors before position `pos`.
pub open spec fn grams_before(n: int, w: int, pos: int) -> int
    decreases pos,
{
    if pos <= 0 {
        0
    } else {
        grams_before(n, w, pos - 1) + anchor_grams(n, w, pos - 1)
    }
}

/// The total number of grams of a full scan: the sum of `min(w, n - i)`
/// over all anchors `i` in `0 .. n`.
pub open spec fn total_grams(n: int, w: int) -> int {
    grams_before(n, w, n)
}

/// One emission of the scan: which anchor, at which offset, and the gram.
pub struct EmitView {
    pub anchor: int,
    pub offset: int,
    pub gram: GramView,
}

/// The gram of anchor `i` at offset `j`: the anchor alone at offset `0`,
/// else the anchor paired with the token `j` positions after it.
pub open spec fn gram_at(ts: Seq<Seq<char>>, i: int, j: int) -> GramView {
    if j == 0 {
        GramView::Uni { t1: ts[i] }
    } else {
        GramView::Bi { t1: ts[i], t2: ts[i + j] }
    }
}

/// The emission of anchor `i` at offset `j`.
pub open spec fn emit_at(ts: Seq<Seq<char>>, i: int, j: int) -> EmitView {
    EmitView { anchor: i, offset: j, gram: gram_at(ts, i, j) }
}

/// All emissions of the anchor at position `i`, in offset order.
pub open spec fn anchor_emits(ts: Seq<Seq<char>>, w: int, i: int) -> Seq<EmitView> {
    Seq::new(anchor_grams(ts.len() as int, w, i) as nat, |j: int| emit_at(ts, i, j))
}

/// All emissions of the anchors before position `pos`, in anchor order.
pub open spec fn anchors_prefix(ts: Seq<Seq<char>>, w: int, pos: int) -> Seq<EmitView>
    decreases pos,
{
    if pos <= 0 {
        Seq::empty()
    } else {
        anchors_prefix(ts, w, pos - 1) + anchor_emits(ts, w, pos - 1)
    }
}

/// The emissions of a scan that stands at anchor `pos`, offset `idx`: all
/// earlier anchors in full, then the first `idx` offsets of anchor `pos`.
pub open spec fn emitted_prefix(ts: Seq<Seq<char>>, w: int, pos: int, idx: int) -> Seq<EmitView> {
    anchors_prefix(ts, w, pos) + Seq::new(idx as nat, |j: int| emit_at(ts, pos, j))
}

/// The full emission sequence of a scan over `ts` with window width `w`.
pub open spec fn osb_emits(ts: Seq<Seq<char>>, w: int) -> Seq<EmitView> {
    anchors_prefix(ts, w, ts.len() as int)
}

/// The emissions of the first `pos` anchors number `grams_before(n, w, pos)`.
pub proof fn lemma_anchors_prefix_len(ts: Seq<Seq<char>>, w: int, pos: int)
    requires
        1 <= w,
        0 <= pos <= ts.len(),
    ensures
        anchors_prefix(ts, w, pos).len() == grams_before(ts.len() as int, w, pos),
    decreases pos,
{
    if pos > 0 {
        lemma_anchors_prefix_len(ts, w, pos - 1);
    }
}

/// Each anchor within the input contributes at least one gram, so the
/// count of grams grows by at least one per anchor.
pub proof fn lemma_grams_before_mono(n: int, w: int, lo: int, hi: int)
    requires
        1 <= w,
        0 <= lo <= hi <= n,
    ensures
        grams_before(n, w, lo) + (hi - lo) <= grams_before(n, w, hi),
    decreases hi,
{
    if lo < hi {
        lemma_grams_before_mono(n, w, lo, hi - 1);
    }
}

proof fn lemma_prefix_index(ts: Seq<Seq<char>>, w: int, pos: int, a: int, j: int)
    requires
        1 <= w,
        0 <= a < pos <= ts.len(),
        0 <= j < anchor_grams(ts.len() as int, w, a),
    ensures
        0 <= grams_before(ts.len() as int, w, a) + j < anchors_prefix(ts, w, pos).len(),
        anchors_prefix(ts, w, pos)[grams_before(ts.len() as int, w, a) + j] == emit_at(ts, a, j),
    decreases pos,
{
    let n = ts.len() as int;
    lemma_anchors_prefix_len(ts, w, pos);
    lemma_grams_before_mono(n, w, 0, a);
    if a == pos - 1 {
        lemma_anchors_prefix_len(ts, w, pos - 1);
        lemma_grams_before_mono(n, w, a + 1, n);
        assert(anchor_emits(ts, w, a)[j] == emit_at(ts, a, j));
    } else {
        lemma_prefix_index(ts, w, pos - 1, a, j);
    }
}

/// Where each gram stands: the gram of anchor `a` at offset `j` is the
/// element at index `grams_before(n, w, a) + j` of the emission sequence.
pub proof fn lemma_emit_index(ts: Seq<Seq<char>>, w: int, a: int, j: int)
    requires
        1 <= w,
        0 <= a < ts.len(),
        0 <= j < anchor_grams(ts.len() as int, w, a),
    ensures
        osb_emits(ts, w).len() == total_grams(ts.len() as int, w),
        0 <= grams_before(ts.len() as int, w, a) + j < total_grams(ts.len() as int, w),
        osb_emits(ts, w)[grams_before(ts.len() as int, w, a) + j] == emit_at(ts, a, j),
{
    lemma_anchors_prefix_len(ts, w, ts.len() as int);
    lemma_prefix_index(ts, w, ts.len() as int, a, j);
}

/// Count law: the full scan emits exactly the sum of `min(w, n - i)` over
/// all anchors `i` in `0 .. n`.
pub proof fn lemma_count_law(ts: Seq<Seq<char>>, w: int)
    requires
        1 <= w,
    ensures
        osb_emits(ts, w).len() == total_grams(ts.len() as int, w),
{
    lemma_anchors_prefix_len(ts, w, ts.len() as int);
}

/// Uni-first law: the first gram of every anchor has offset `0` and is
/// `Uni`; every later gram of the same anchor is `Bi`, at its own offset.
pub proof fn lemma_uni_first_law(ts: Seq<Seq<char>>, w: int, a: int)
    requires
        1 <= w,
        0 <= a < ts.len(),
    ensures
        osb_emits(ts, w)[grams_before(ts.len() as int, w, a)] == emit_at(ts, a, 0),
        emit_at(ts, a, 0).offset == 0,
        emit_at(ts, a, 0).gram is Uni,
        forall|j: int|
            1 <= j < anchor_grams(ts.len() as int, w, a) ==> {
                let e = #[trigger] osb_emits(ts, w)[grams_before(ts.len() as int, w, a) + j];
                e == emit_at(ts, a, j) && e.offset == j && e.gram is Bi
            },
{
    let n = ts.len() as int;
    lemma_emit_index(ts, w, a, 0);
    assert forall|j: int|
        1 <= j < anchor_grams(n, w, a) implies {
            let e = #[trigger] osb_emits(ts, w)[grams_before(n, w, a) + j];
            e == emit_at(ts, a, j) && e.offset == j && e.gram is Bi
        } by {
        lemma_emit_index(ts, w, a, j);
    }
}

/// Ordering law: a gram of an earlier anchor, or of the same anchor at a
/// smaller offset, stands strictly earlier in the emission sequence.
pub proof fn lemma_ordering_law(ts: Seq<Seq<char>>, w: int, a1: int, j1: int, a2: int, j2: int)
    requires
        1 <= w,
        0 <= a1 < ts.len(),
        0 <= j1 < anchor_grams(ts.len() as int, w, a1),
        0 <= a2 < ts.len(),
        0 <= j2 < anchor_grams(ts.len() as int, w, a2),
        a1 < a2 || (a1 == a2 && j1 < j2),
    ensures
        grams_before(ts.len() as int, w, a1) + j1 < grams_before(ts.len() as int, w, a2) + j2,
        osb_emits(ts, w)[grams_before(ts.len() as int, w, a1) + j1] == emit_at(ts, a1, j1),
        osb_emits(ts, w)[grams_before(ts.len() as int, w, a2) + j2] == emit_at(ts, a2, j2),
{
    let n = ts.len() as int;
    lemma_emit_index(ts, w, a1, j1);
    lemma_emit_index(ts, w, a2, j2);
    if a1 < a2 {
        lemma_grams_before_mono(n, w, a1 + 1, a2);
    }
}

/// Every position of the emission sequence is the gram of exactly one
/// anchor-and-offset pair: the sequence holds nothing else.
pub proof fn lemma_index_inverse(ts: Seq<Seq<char>>, w: int, k: int)
    requires
        1 <= w,
        0 <= k < total_grams(ts.len() as int, w),
    ensures
        exists|a: int, j: int|
            0 <= a < ts.len() && 0 <= j < anchor_grams(ts.len() as int, w, a)
                && k == grams_before(ts.len() as int, w, a) + j
                && osb_emits(ts, w)[k] == #[trigger] emit_at(ts, a, j),
{
    lemma_prefix_inverse(ts, w, ts.len() as int, k);
}

proof fn lemma_prefix_inverse(ts: Seq<Seq<char>>, w: int, pos: int, k: int)
    requires
        1 <= w,
        0 <= pos <= ts.len(),
        0 <= k < grams_before(ts.len() as int, w, pos),
    ensures
        exists|a: int, j: int|
            0 <= a < pos && 0 <= j < anchor_grams(ts.len() as int, w, a)
                && k == grams_before(ts.len() as int, w, a) + j
                && osb_emits(ts, w)[k] == #[trigger] emit_at(ts, a, j),
    decreases pos,
{
    let n = ts.len() as int;
    if k < grams_before(n, w, pos - 1) {
        lemma_prefix_inverse(ts, w, pos - 1, k);
    } else {
        let a = pos - 1;
        let j = k - grams_before(n, w, a);
        lemma_emit_index(ts, w, a, j);
        assert(0 <= a < pos && 0 <= j < anchor_grams(n, w, a)
            && k == grams_before(n, w, a) + j
            && osb_emits(ts, w)[k] == emit_at(ts, a, j));
    }
}

/// Degenerate window: with `w == 1` the scan emits exactly one gram per
/// token, each the lone anchor at offset `0`, in input order.
pub proof fn lemma_degenerate_window(ts: Seq<Seq<char>>)
    ensures
        total_grams(ts.len() as int, 1) == ts.len(),
        osb_emits(ts, 1).len() == ts.len(),
        forall|k: int|
            0 <= k < ts.len() ==> {
                let e = #[trigger] osb_emits(ts, 1)[k];
                e == emit_at(ts, k, 0) && e.offset == 0 && e.gram is Uni
            },
{
    let n = ts.len() as int;
    lemma_grams_before_one(n, n);
    lemma_count_law(ts, 1);
    assert forall|k: int|
        0 <= k < ts.len() implies {
            let e = #[trigger] osb_emits(ts, 1)[k];
            e == emit_at(ts, k, 0) && e.offset == 0 && e.gram is Uni
        } by {
        lemma_grams_before_one(n, k);
        lemma_emit_index(ts, 1, k, 0);
    }
}

proof fn lemma_grams_before_one(n: int, pos: int)
    requires
        0 <= pos <= n,
    ensures
        grams_before(n, 1, pos) == pos,
    decreases pos,
{
    if pos > 0 {
        lemma_grams_before_one(n, pos - 1);
    }
}

} // verus!

//! Grams and emitted tokens.
//!
//! A gram is the raw unit produced by one step of the window scan: either a
//! lone anchor token (`Uni`) or the anchor paired with a token that stands
//! `offset` positions after it (`Bi`). A caller-supplied constructor turns
//! each gram into the caller's own feature representation.

use vstd::prelude::*;

verus! {

/// The mathematical shape of a gram: the token texts as character sequences.
pub enum GramView {
    Uni { t1: Seq<char> },
    Bi { t1: Seq<char>, t2: Seq<char> },
}

/// A unigram or ordered bigram of word tokens.
///
/// In `Bi`, `t1` is always the anchor token of the current window and `t2`
/// the token at a strictly positive offset after it.
#[derive(Debug, Clone, PartialEq, Eq)]
pub enum Gram {
    Uni { t1: String },
    Bi { t1: String, t2: String },
}

impl View for Gram {
    type V = GramView;

    open spec fn view(&self) -> GramView {
        match self {
            Gram::Uni { t1 } => GramView::Uni { t1: t1@ },
            Gram::Bi { t1, t2 } => GramView::Bi { t1: t1@, t2: t2@ },
        }
    }
}

/// A constructed feature together with the window offset it was taken at.
///
/// The offset is part of the public contract: downstream classifiers weight
/// features by their distance from the anchor, so it must be reproducible.
#[derive(Debug, Clone, PartialEq, Eq)]
pub struct OsbToken<T> {
    pub inner: T,
    pub idx: usize,
}

/// The feature-construction capability: a total, deterministic conversion
/// from a gram to the caller's feature type, fixed at the specification
/// level by `from_gram_spec`.
pub trait FromGram: View + Sized {
    /// What the conversion yields, stated over the gram's view.
    spec fn from_gram_spec(g: GramView) -> Self::V;

    /// Build the feature for one gram.
    fn from_gram(g: Gram) -> (r: Self)
        ensures
            r@ == Self::from_gram_spec(g@),
    ;
}

/// The space-joined text of a gram: the unigram text itself, or the two
/// texts of a bigram joined by a single space.
pub open spec fn space_joined(g: GramView) -> Seq<char> {
    match g {
        GramView::Uni { t1 } => t1,
        GramView::Bi { t1, t2 } => t1 + " "@ + t2,
    }
}

impl FromGram for String {
    open spec fn from_gram_spec(g: GramView) -> Seq<char> {
        space_joined(g)
    }

    fn from_gram(g: Gram) -> (r: String) {
        match g {
            Gram::Uni { t1 } => t1,
            Gram::Bi { t1, t2 } => {
                let mut joined = t1;
                joined.append(" ");
                joined.append(t2.as_str());
                joined
            },
        }
    }
}

} // verus!

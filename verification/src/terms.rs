//! What buffers hold, written down as expressions.
//!
//! A plan names buffers and says what is run on them. Running it, step by step, turns
//! what the caller put into the buffers into what it wants to know. Here the steps are
//! run on expressions: [`Term::Given`] is what the caller put into a buffer, and every
//! other term says what was made of others. Two terms are the same only where the same
//! things were done to the same buffers, so a law about the term in a buffer says what
//! the plan computes.
use vstd::prelude::*;

use crate::steps::LayerOperand;

verus! {

/// What a buffer holds.
pub enum Term<O> {
    /// What the caller put into a buffer.
    Given(O),
    /// Rows divided by their root mean square, times a weight.
    RmsNormed(Box<Term<O>>, Box<Term<O>>),
    /// Rows normalised, times a scale, plus a bias.
    LayerNormed(Box<Term<O>>, Box<Term<O>>, Box<Term<O>>),
    /// Every row times the transpose of a matrix, which comes first.
    Product(Box<Term<O>>, Box<Term<O>>),
    /// A sum.
    Sum(Box<Term<O>>, Box<Term<O>>),
    /// Every row plus a bias.
    Biased(Box<Term<O>>, Box<Term<O>>),
    /// The first half of every row, activated, times the second half.
    Gated(Box<Term<O>>),
    /// The activation of the audio encoder.
    Activated(Box<Term<O>>),
    /// Heads out of the columns of a projection.
    Heads {
        of: Box<Term<O>>,
        heads: int,
        width: int,
        first_column: int,
    },
    /// Heads, normalised with a weight and turned by the angles of their positions,
    /// which begin with the given one.
    Turned {
        of: Box<Term<O>>,
        weight: Box<Term<O>>,
        cos: Box<Term<O>>,
        sin: Box<Term<O>>,
        first: int,
    },
    /// A cache with new rows from a position on.
    Stored { cache: Box<Term<O>>, new: Box<Term<O>>, first: int },
    /// The first positions of a cache, every head as often as queries share it.
    Repeated { cache: Box<Term<O>>, positions: int, sharing: int },
    /// Scores of keys, which come first, and queries.
    Scores(Box<Term<O>>, Box<Term<O>>),
    /// Weights of scores: every row sees all of them, or, with the mask, only those of
    /// its own position and in front of it.
    Weights { scores: Box<Term<O>>, masked: bool },
    /// Values, which come first, summed with weights.
    Mixed(Box<Term<O>>, Box<Term<O>>),
    /// Attention to a part of the positions: outputs, or, of those parts, greatest
    /// scores or sums of weights.
    Part { attention: Box<Term<O>>, what: PartOf, parts: int },
    /// Second and third axis swapped.
    Swapped(Box<Term<O>>),
    /// Rows of the third axis.
    Slice { of: Box<Term<O>>, start: int, len: int },
    /// Rows of the third axis overwritten.
    Overwritten { under: Box<Term<O>>, with: Box<Term<O>>, start: int, len: int },
    /// The nine neighbours of every second element in both directions, next to each
    /// other.
    Unfolded(Box<Term<O>>),
    /// Products of neighbours, channel by channel, plus a bias, activated.
    Folded(Box<Term<O>>, Box<Term<O>>),
    /// The last axis brought forward.
    LastForward(Box<Term<O>>),
    /// A row.
    Row { of: Box<Term<O>>, offset: int, len: int },
    /// The position of the greatest element.
    Greatest(Box<Term<O>>),
    /// What nothing is known of.
    Unknown,
}

/// What is kept of the attention to a part of the positions.
pub enum PartOf {
    Output,
    Greatest,
    Sum,
}

/// What the caller put into a buffer.
pub open spec fn given<O>(name: O) -> Box<Term<O>> {
    Box::new(Term::Given(name))
}

/// Attention of queries to the first positions of two caches.
pub open spec fn attention<O>(
    q: Term<O>,
    k: Term<O>,
    v: Term<O>,
    positions: int,
    sharing: int,
    masked: bool,
) -> Term<O> {
    let keys = Term::Repeated { cache: Box::new(k), positions, sharing };
    let values = Term::Repeated { cache: Box::new(v), positions, sharing };
    let scores = Term::Scores(Box::new(keys), Box::new(q));
    Term::Mixed(Box::new(values), Box::new(Term::Weights { scores: Box::new(scores), masked }))
}

/// Sizes of a call of a decoder layer.
pub struct LayerCall {
    /// Query heads.
    pub nqh: int,
    /// Key-value heads.
    pub nkvh: int,
    /// Width of a head.
    pub hd: int,
    /// New tokens.
    pub s: int,
    /// Positions in the caches in front of them.
    pub kv_start: int,
    /// Whether a token is kept from seeing those behind it.
    pub causal: bool,
}

impl LayerCall {
    /// Queries of the new tokens.
    pub open spec fn queries<O>(self, qkv: Term<O>, norm: Term<O>, cos: Term<O>, sin: Term<O>) -> Term<
        O,
    > {
        let heads = Term::Heads {
            of: Box::new(qkv),
            heads: self.nqh,
            width: self.hd,
            first_column: 0,
        };
        Term::Turned {
            of: Box::new(heads),
            weight: Box::new(norm),
            cos: Box::new(cos),
            sin: Box::new(sin),
            first: self.kv_start,
        }
    }

    /// The key cache with the keys of the new tokens.
    pub open spec fn keys<O>(
        self,
        cache: Term<O>,
        qkv: Term<O>,
        norm: Term<O>,
        cos: Term<O>,
        sin: Term<O>,
    ) -> Term<O> {
        let heads = Term::Heads {
            of: Box::new(qkv),
            heads: self.nkvh,
            width: self.hd,
            first_column: self.nqh * self.hd,
        };
        let new = Term::Turned {
            of: Box::new(heads),
            weight: Box::new(norm),
            cos: Box::new(cos),
            sin: Box::new(sin),
            first: self.kv_start,
        };
        Term::Stored { cache: Box::new(cache), new: Box::new(new), first: self.kv_start }
    }

    /// The value cache with the values of the new tokens.
    pub open spec fn values<O>(self, cache: Term<O>, qkv: Term<O>) -> Term<O> {
        let heads = Term::Heads {
            of: Box::new(qkv),
            heads: self.nkvh,
            width: self.hd,
            first_column: self.nqh * self.hd + self.nkvh * self.hd,
        };
        Term::Stored { cache: Box::new(cache), new: Box::new(heads), first: self.kv_start }
    }

    /// What the new tokens see of the positions up to the last of them, token by token.
    /// The heads of a single token lie next to each other as they are.
    pub open spec fn seen<O>(self, q: Term<O>, k: Term<O>, v: Term<O>) -> Term<O> {
        let heads = attention(
            q,
            k,
            v,
            self.kv_start + self.s,
            self.nqh / self.nkvh,
            self.causal && self.s > 1,
        );
        if self.s == 1 {
            heads
        } else {
            Term::Swapped(Box::new(heads))
        }
    }
}

/// What a decoder layer leaves in the stream and in the caches.
pub struct LayerResult {
    pub stream: Term<LayerOperand>,
    pub keys: Term<LayerOperand>,
    pub values: Term<LayerOperand>,
}

/// A decoder layer. The stream, normalised, is projected to queries, keys and values,
/// and keys and values are kept. What the queries see is projected and added to the
/// stream. The sum, normalised, goes through the feed-forward part, which is added too.
pub open spec fn decoder_layer(call: LayerCall) -> LayerResult {
    let x = given(LayerOperand::Stream);
    let normed = Term::RmsNormed(x, given(LayerOperand::InputNorm));
    let qkv = Term::Product(given(LayerOperand::QkvProj), Box::new(normed));
    let (cos, sin) = (Term::Given(LayerOperand::Cos), Term::Given(LayerOperand::Sin));
    let q = call.queries(qkv, Term::Given(LayerOperand::QueryNorm), cos, sin);
    let k = call.keys(
        Term::Given(LayerOperand::KeyCache),
        qkv,
        Term::Given(LayerOperand::KeyNorm),
        cos,
        sin,
    );
    let v = call.values(Term::Given(LayerOperand::ValueCache), qkv);
    let seen = Term::Product(given(LayerOperand::OutProj), Box::new(call.seen(q, k, v)));
    let h = Term::Sum(x, Box::new(seen));
    let behind = Term::RmsNormed(Box::new(h), given(LayerOperand::PostNorm));
    let wide = Term::Product(given(LayerOperand::GateUpProj), Box::new(behind));
    let narrow = Term::Product(
        given(LayerOperand::DownProj),
        Box::new(Term::Gated(Box::new(wide))),
    );
    LayerResult { stream: Term::Sum(Box::new(h), Box::new(narrow)), keys: k, values: v }
}

} // verus!

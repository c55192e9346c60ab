//! Steps of a plan: what is run, and on which operands.
use vstd::prelude::*;

verus! {

/// What a step works on, in the order of its arguments. What it adds to, or changes in
/// place, stands among what it writes.
pub struct Operands<O> {
    /// What it writes.
    pub writes: Vec<O>,
    /// What it reads.
    pub reads: Vec<O>,
}

impl<O> Operands<O> {
    /// Whether these are the operands.
    pub open spec fn are(self, writes: Seq<O>, reads: Seq<O>) -> bool {
        &&& self.writes@ =~= writes
        &&& self.reads@ =~= reads
    }

    /// Operands of a step.
    pub fn new(writes: Vec<O>, reads: Vec<O>) -> (r: Self)
        ensures
            r.are(writes@, reads@),
    {
        Operands { writes, reads }
    }
}

/// A step: what is run and what it is run on.
pub struct Step<O, R> {
    /// What is run.
    pub run: R,
    /// What it is run on.
    pub on: Operands<O>,
}

impl<O, R> Step<O, R> {
    /// Whether the step works on these operands.
    pub open spec fn takes(self, writes: Seq<O>, reads: Seq<O>) -> bool {
        self.on.are(writes, reads)
    }

    /// A step on the given operands.
    pub fn new(run: R, writes: Vec<O>, reads: Vec<O>) -> (r: Self)
        ensures
            r.run == run,
            r.takes(writes@, reads@),
    {
        Step { run, on: Operands::new(writes, reads) }
    }
}

/// What the steps of a decoder layer work on.
#[derive(Clone, Copy, PartialEq, Eq, Structural, Debug, Hash)]
pub enum LayerOperand {
    /// The residual stream, which the layer gets and adds to.
    Stream,
    /// The stream, normalised in front of the attention.
    Normed,
    /// Queries, keys and values of the new tokens.
    Qkv,
    /// Queries, head by head.
    Query,
    /// Keys of all positions.
    KeyCache,
    /// Values of all positions.
    ValueCache,
    /// Keys, repeated for the query heads that share them.
    Keys,
    /// Values, repeated likewise.
    Values,
    /// Scores of all positions.
    Scores,
    /// Weights of all positions.
    Weights,
    /// Outputs of the chunks of a long context.
    PartOut,
    /// Their greatest scores.
    PartMax,
    /// Their sums of weights.
    PartSum,
    /// Attention output, head by head.
    Attended,
    /// Attention output, token by token.
    Merged,
    /// The stream, normalised in front of the feed-forward part.
    NormedBehind,
    /// Gate and up projection.
    GateUp,
    /// Gated activation.
    Activated,
    /// Weight of the normalisation in front of the attention.
    InputNorm,
    /// Fused query, key and value projection.
    QkvProj,
    /// Weight of the normalisation of queries.
    QueryNorm,
    /// Weight of the normalisation of keys.
    KeyNorm,
    /// Cosines of the positions.
    Cos,
    /// Sines of the positions.
    Sin,
    /// Output projection.
    OutProj,
    /// Weight of the normalisation in front of the feed-forward part.
    PostNorm,
    /// Fused gate and up projection.
    GateUpProj,
    /// Down projection.
    DownProj,
}

/// A step of a decoder layer.
pub type LayerStep<R> = Step<LayerOperand, R>;

/// What one token is attended with: its queries and both caches.
pub open spec fn decode_operands() -> Seq<LayerOperand> {
    seq![LayerOperand::Query, LayerOperand::KeyCache, LayerOperand::ValueCache]
}

/// What the chunks of a long context leave behind.
pub open spec fn part_operands() -> Seq<LayerOperand> {
    seq![LayerOperand::PartOut, LayerOperand::PartMax, LayerOperand::PartSum]
}

/// What queries, keys and values are made of.
pub open spec fn extract_operands() -> Seq<LayerOperand> {
    seq![
        LayerOperand::Qkv,
        LayerOperand::QueryNorm,
        LayerOperand::KeyNorm,
        LayerOperand::Cos,
        LayerOperand::Sin,
    ]
}

/// Queries and both caches.
pub fn caches_and_queries() -> (r: Vec<LayerOperand>)
    ensures
        r@ == decode_operands(),
{
    let r = vec![LayerOperand::Query, LayerOperand::KeyCache, LayerOperand::ValueCache];
    assert(r@ =~= decode_operands());
    r
}

/// What the chunks of a long context leave behind.
pub fn parts() -> (r: Vec<LayerOperand>)
    ensures
        r@ == part_operands(),
{
    let r = vec![LayerOperand::PartOut, LayerOperand::PartMax, LayerOperand::PartSum];
    assert(r@ =~= part_operands());
    r
}

/// What queries, keys and values are made of.
pub fn projected() -> (r: Vec<LayerOperand>)
    ensures
        r@ == extract_operands(),
{
    let r = vec![
        LayerOperand::Qkv,
        LayerOperand::QueryNorm,
        LayerOperand::KeyNorm,
        LayerOperand::Cos,
        LayerOperand::Sin,
    ];
    assert(r@ =~= extract_operands());
    r
}

/// A step from one operand to another.
pub fn map_step<R>(run: R, write: LayerOperand, read: LayerOperand) -> (r: LayerStep<R>)
    ensures
        r.run == run,
        r.takes(seq![write], seq![read]),
{
    Step::new(run, vec![write], vec![read])
}

/// A normalisation of the residual stream.
pub fn norm_step<R>(run: R, write: LayerOperand, weight: LayerOperand) -> (r: LayerStep<R>)
    ensures
        r.run == run,
        r.takes(seq![write], seq![LayerOperand::Stream, weight]),
{
    Step::new(run, vec![write], vec![LayerOperand::Stream, weight])
}

/// A product, whose matrix comes first.
pub fn product_step<R>(
    run: R,
    write: LayerOperand,
    matrix: LayerOperand,
    read: LayerOperand,
) -> (r: LayerStep<R>)
    ensures
        r.run == run,
        r.takes(seq![write], seq![matrix, read]),
{
    Step::new(run, vec![write], vec![matrix, read])
}

} // verus!

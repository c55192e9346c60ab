//! What the audio encoder runs on the GPU, step by step: a convolution stem, a
//! stack of attention layers and a projection to the decoder's width.
use vstd::prelude::*;

use crate::chunking::{conv_len, law_feo_is_three_convolutions, token_count, ChunkParams};
use crate::cudarc_engine::{
    conv_fits, is_flat, BatchedPlan, ConvPlan, CudaState, GpuTensor, GpuWeight, KernelPlan,
    LinearPlan,
};
use crate::launch::{
    elementwise_config, reduction_block, reduction_config, Kernel, Launch, LaunchConfig,
};
use crate::layout::lemma_monotone;
use crate::linear::{av_config, out_shape, qk_config};
use crate::steps::{Operands, Step};
use crate::tensor::{countable, lemma_product3, lemma_product4, outer, product};
use crate::windows::{attention_window, limiting, window_at, window_count, windows, Window};

verus! {

/// What the steps behind the convolution stem work on.
#[derive(Clone, Copy, PartialEq, Eq, Structural, Debug, Hash)]
pub enum AudioOperand {
    /// The stream that a layer gets.
    Stream,
    /// The stream, normalised in front of the attention.
    Normed,
    /// Queries, keys and values, token by token.
    Query,
    Key,
    Value,
    /// The same, head by head.
    QueryHeads,
    KeyHeads,
    ValueHeads,
    /// The same of one window.
    QueryWindow,
    KeyWindow,
    ValueWindow,
    /// Scores of the tokens that attend to each other.
    Scores,
    /// Their weights.
    Weights,
    /// Attention output of one window.
    WindowOut,
    /// Attention output, head by head.
    Attended,
    /// Attention output, token by token.
    Merged,
    /// What the attention adds to the stream.
    AttnOut,
    /// The stream behind the attention, which the feed-forward part adds to.
    Added,
    /// That stream, normalised.
    NormedBehind,
    /// Between two linear layers.
    Hidden,
    /// What comes out of two linear layers.
    FfnOut,
    /// Normalisation in front of the attention.
    AttnNormScale,
    AttnNormBias,
    /// Projections and their biases.
    QueryProj,
    QueryBias,
    KeyProj,
    KeyBias,
    ValueProj,
    ValueBias,
    OutProj,
    OutBias,
    /// Normalisation in front of the feed-forward part.
    FfnNormScale,
    FfnNormBias,
    /// The layers of the feed-forward part and their biases.
    Fc1,
    Fc1Bias,
    Fc2,
    Fc2Bias,
    /// Normalisation behind all layers.
    PostNormScale,
    PostNormBias,
    /// Projections to the decoder's width and their biases.
    Proj1,
    Proj1Bias,
    Proj2,
    Proj2Bias,
}

/// A step behind the convolution stem.
pub type AudioStep<R> = Step<AudioOperand, R>;

/// A linear layer: its matrix and whether it adds a bias.
#[derive(Clone, Copy)]
pub struct GpuLinear {
    pub w: GpuWeight,
    pub bias: bool,
}

/// What a linear layer works on.
pub struct LinearOn<O> {
    /// Its input.
    pub x: O,
    /// Its matrix.
    pub w: O,
    /// Its bias.
    pub bias: O,
    /// Its output.
    pub y: O,
}

/// A matrix product and the bias added to it.
pub struct GpuLinearPlan<O> {
    pub linear: Step<O, LinearPlan>,
    pub bias: Option<Step<O, Launch>>,
}

impl<O> GpuLinearPlan<O> {
    /// The layer applied to an `x` of the given shape.
    pub open spec fn applies(self, x: Seq<usize>, layer: GpuLinear, on: LinearOn<O>) -> bool {
        let y = out_shape(x, layer.w.rows);
        &&& self.linear.run.multiplies(x, layer.w)
        &&& self.linear.takes(seq![on.y], seq![on.w, on.x])
        &&& self.bias is Some <==> layer.bias
        &&& self.bias matches Some(l) ==> {
            &&& l.run.is(
                Kernel::AddBiasInplace,
                elementwise_config(product(y) as u32),
                seq![outer(y) as i32, y.last() as i32],
            )
            &&& l.takes(seq![on.y], seq![on.bias])
        }
    }
}

impl GpuLinear {
    /// Plans the layer for `x`.
    pub fn forward<O: Copy>(&self, cuda: &CudaState, x: &GpuTensor, on: LinearOn<O>) -> (r:
        GpuLinearPlan<O>)
        requires
            0 < x@.len(),
            x@.last() == self.w.cols,
            outer(x@) * self.w.rows <= usize::MAX,
        ensures
            r.applies(x@, *self, on),
    {
        let linear = cuda.linear_gpu(x, self.w);
        let bias: Option<Step<O, Launch>> = if self.bias {
            let add = cuda.add_bias_inplace(&linear.out);
            Some(Step::new(add, vec![on.y], vec![on.bias]))
        } else {
            None
        };
        GpuLinearPlan { linear: Step::new(linear, vec![on.y], vec![on.w, on.x]), bias }
    }
}

/// The shape `[b, s, w]` taken apart, and what a product with `n` features makes
/// of it.
proof fn lemma_rows(b: usize, s: usize, w: usize, n: usize)
    ensures
        seq![b, s, w].last() == w,
        outer(seq![b, s, w]) == b * s,
        out_shape(seq![b, s, w], n) == seq![b, s, n],
{
    assert(seq![b, s, w].drop_last() =~= seq![b, s]);
    lemma_product3(b, s, w);
    assert(out_shape(seq![b, s, w], n) =~= seq![b, s, n]);
}

/// Layer normalisation of every row of an `x` of the given shape.
pub open spec fn is_layer_norm(l: Launch, x: Seq<usize>) -> bool {
    l.is(
        Kernel::LayerNorm,
        LaunchConfig {
            shared_mem_bytes: (reduction_block(x.last() as u32) * 4 * 2) as u32,
            ..reduction_config(outer(x) as u32, 1, x.last())
        },
        seq![x.last() as i32, outer(x) as i32],
    )
}

/// Self-attention: projections and heads.
#[derive(Clone, Copy)]
pub struct GpuAudioAttention {
    pub q_proj: GpuLinear,
    pub k_proj: GpuLinear,
    pub v_proj: GpuLinear,
    pub out_proj: GpuLinear,
    pub num_heads: usize,
    pub head_dim: usize,
}

/// What attention inside one run of tokens works on.
#[derive(Clone, Copy)]
pub struct CoreOn {
    pub q: AudioOperand,
    pub k: AudioOperand,
    pub v: AudioOperand,
    pub out: AudioOperand,
}

/// Attention inside one run of tokens: scores, softmax, output.
pub struct AttentionCore {
    pub scores: AudioStep<BatchedPlan>,
    pub softmax: AudioStep<KernelPlan>,
    pub output: AudioStep<BatchedPlan>,
}

impl AttentionCore {
    /// The attention of `len` tokens to each other.
    pub open spec fn attends(
        self,
        b: usize,
        nh: usize,
        len: usize,
        hd: usize,
        on: CoreOn,
    ) -> bool {
        &&& self.scores.run.gemm == qk_config(b, nh, len, len, hd)
        &&& self.scores.run.out@ == seq![b, nh, len, len]
        &&& self.scores.takes(seq![AudioOperand::Scores], seq![on.k, on.q])
        &&& self.softmax.run.launch.is(
            Kernel::SoftmaxCausal,
            reduction_config((b * nh * len) as u32, 1, len),
            seq![len as i32, len as i32, 0i32],
        )
        &&& self.softmax.run.out@ == seq![b, nh, len, len]
        &&& self.softmax.takes(seq![AudioOperand::Weights], seq![AudioOperand::Scores])
        &&& self.output.run.gemm == av_config(b, nh, len, len, hd)
        &&& self.output.run.out@ == seq![b, nh, len, hd]
        &&& self.output.takes(seq![on.out], seq![on.v, AudioOperand::Weights])
    }
}

/// The operands of attention among all tokens.
pub open spec fn whole_operands() -> CoreOn {
    CoreOn {
        q: AudioOperand::QueryHeads,
        k: AudioOperand::KeyHeads,
        v: AudioOperand::ValueHeads,
        out: AudioOperand::Attended,
    }
}

/// The operands of attention inside one window.
pub open spec fn window_operands() -> CoreOn {
    CoreOn {
        q: AudioOperand::QueryWindow,
        k: AudioOperand::KeyWindow,
        v: AudioOperand::ValueWindow,
        out: AudioOperand::WindowOut,
    }
}

/// Attention inside one window: queries, keys and values of the window are taken out,
/// and its outputs written back in place.
pub struct WindowPlan {
    pub window: Window,
    pub q: AudioStep<KernelPlan>,
    pub k: AudioStep<KernelPlan>,
    pub v: AudioStep<KernelPlan>,
    pub core: AttentionCore,
    pub write: AudioStep<Launch>,
}

/// The tokens of a window taken out of `[b, nh, s, hd]`.
pub open spec fn is_slice(
    plan: KernelPlan,
    b: usize,
    nh: usize,
    s: usize,
    hd: usize,
    window: Window,
) -> bool {
    let (st, ln) = (window.start, window.len);
    &&& plan.launch.is(
        Kernel::SliceDim2,
        elementwise_config((b * nh * ln * hd) as u32),
        seq![b as i32, nh as i32, s as i32, hd as i32, st as i32, ln as i32],
    )
    &&& plan.out@ == seq![b, nh, ln, hd]
}

impl WindowPlan {
    /// The attention inside a window of `[b, nh, s, hd]`.
    pub open spec fn attends(self, b: usize, nh: usize, s: usize, hd: usize) -> bool {
        let (st, ln) = (self.window.start, self.window.len);
        &&& is_slice(self.q.run, b, nh, s, hd, self.window)
        &&& self.q.takes(seq![AudioOperand::QueryWindow], seq![AudioOperand::QueryHeads])
        &&& is_slice(self.k.run, b, nh, s, hd, self.window)
        &&& self.k.takes(seq![AudioOperand::KeyWindow], seq![AudioOperand::KeyHeads])
        &&& is_slice(self.v.run, b, nh, s, hd, self.window)
        &&& self.v.takes(seq![AudioOperand::ValueWindow], seq![AudioOperand::ValueHeads])
        &&& self.core.attends(b, nh, ln, hd, window_operands())
        &&& self.write.run.is(
            Kernel::ConcatDim2Write,
            elementwise_config((b * nh * ln * hd) as u32),
            seq![b as i32, nh as i32, s as i32, hd as i32, st as i32, ln as i32],
        )
        &&& self.write.takes(seq![AudioOperand::Attended], seq![AudioOperand::WindowOut])
    }
}

/// The attention step of an encoder layer.
pub enum AudioAttentionCore {
    /// Every token attends to every other.
    Whole { core: AttentionCore },
    /// Tokens attend inside their window.
    Windowed { plans: Vec<WindowPlan> },
}

impl AudioAttentionCore {
    /// The attention of `s` tokens, limited to windows where `ws` says so.
    pub open spec fn attends(
        self,
        b: usize,
        nh: usize,
        s: usize,
        hd: usize,
        ws: Option<usize>,
    ) -> bool {
        match (limiting(ws, s), self) {
            (None, AudioAttentionCore::Whole { core }) => core.attends(
                b,
                nh,
                s,
                hd,
                whole_operands(),
            ),
            (Some(w), AudioAttentionCore::Windowed { plans }) => {
                &&& plans@.len() == window_count(s as int, w as int)
                &&& forall|i: int|
                    0 <= i < plans@.len() ==> {
                        &&& (#[trigger] plans@[i]).window == window_at(s as int, w as int, i)
                        &&& plans@[i].attends(b, nh, s, hd)
                    }
            },
            _ => false,
        }
    }
}

/// Everything that self-attention runs, in this order.
pub struct AudioAttentionPlan {
    pub q: GpuLinearPlan<AudioOperand>,
    pub k: GpuLinearPlan<AudioOperand>,
    pub v: GpuLinearPlan<AudioOperand>,
    pub q_heads: AudioStep<KernelPlan>,
    pub k_heads: AudioStep<KernelPlan>,
    pub v_heads: AudioStep<KernelPlan>,
    pub core: AudioAttentionCore,
    pub merge: AudioStep<KernelPlan>,
    pub out: GpuLinearPlan<AudioOperand>,
}

/// A projection of the normalised stream.
pub open spec fn projects(w: AudioOperand, bias: AudioOperand, y: AudioOperand) -> LinearOn<
    AudioOperand,
> {
    LinearOn { x: AudioOperand::Normed, w, bias, y }
}

/// The projection that ends the attention.
pub open spec fn projects_out() -> LinearOn<AudioOperand> {
    LinearOn {
        x: AudioOperand::Merged,
        w: AudioOperand::OutProj,
        bias: AudioOperand::OutBias,
        y: AudioOperand::AttnOut,
    }
}

/// `[b, s, nh, hd]` with its heads brought forward.
pub open spec fn is_head_split(plan: KernelPlan, b: usize, s: usize, nh: usize, hd: usize) -> bool {
    &&& plan.launch.is(
        Kernel::SwapDims12,
        elementwise_config((b * s * nh * hd) as u32),
        seq![b as i32, s as i32, nh as i32, hd as i32],
    )
    &&& plan.out@ == seq![b, nh, s, hd]
}

/// Longest run of tokens that attend to each other.
pub open spec fn longest(ws: Option<usize>, s: usize) -> usize {
    match limiting(ws, s) {
        Some(w) => w,
        None => s,
    }
}

impl GpuAudioAttention {
    /// Projections that fit a stream of width `dm` and the heads.
    pub open spec fn matches(self, dm: usize) -> bool {
        let width = self.num_heads * self.head_dim;
        &&& width <= usize::MAX
        &&& self.q_proj.w.cols == dm
        &&& self.q_proj.w.rows == width
        &&& self.k_proj.w.cols == dm
        &&& self.k_proj.w.rows == width
        &&& self.v_proj.w.cols == dm
        &&& self.v_proj.w.rows == width
        &&& self.out_proj.w.cols == width
    }

    /// All buffers of a call on `[b, s, dm]` can be counted.
    pub open spec fn fits(self, b: usize, s: usize, ws: Option<usize>) -> bool {
        let nh = self.num_heads;
        let hd = self.head_dim;
        let run = longest(ws, s);
        &&& b * s <= usize::MAX
        &&& b * s * (nh * hd) <= usize::MAX
        &&& b * s * self.out_proj.w.rows <= usize::MAX
        &&& countable(seq![b, s, nh, hd])
        &&& countable(seq![b, nh, s, hd])
        &&& countable(seq![b, nh, run, run])
        &&& run * hd <= usize::MAX
        &&& run * run <= usize::MAX
    }
}

impl AudioAttentionPlan {
    /// What self-attention runs for `[b, s, dm]`.
    pub open spec fn computes(
        self,
        attn: GpuAudioAttention,
        b: usize,
        s: usize,
        dm: usize,
        ws: Option<usize>,
    ) -> bool {
        let x = seq![b, s, dm];
        let nh = attn.num_heads;
        let hd = attn.head_dim;
        &&& self.q.applies(
            x,
            attn.q_proj,
            projects(AudioOperand::QueryProj, AudioOperand::QueryBias, AudioOperand::Query),
        )
        &&& self.k.applies(
            x,
            attn.k_proj,
            projects(AudioOperand::KeyProj, AudioOperand::KeyBias, AudioOperand::Key),
        )
        &&& self.v.applies(
            x,
            attn.v_proj,
            projects(AudioOperand::ValueProj, AudioOperand::ValueBias, AudioOperand::Value),
        )
        &&& is_head_split(self.q_heads.run, b, s, nh, hd)
        &&& self.q_heads.takes(seq![AudioOperand::QueryHeads], seq![AudioOperand::Query])
        &&& is_head_split(self.k_heads.run, b, s, nh, hd)
        &&& self.k_heads.takes(seq![AudioOperand::KeyHeads], seq![AudioOperand::Key])
        &&& is_head_split(self.v_heads.run, b, s, nh, hd)
        &&& self.v_heads.takes(seq![AudioOperand::ValueHeads], seq![AudioOperand::Value])
        &&& self.core.attends(b, nh, s, hd, ws)
        &&& self.merge.run.launch.is(
            Kernel::SwapDims12,
            elementwise_config((b * nh * s * hd) as u32),
            seq![b as i32, nh as i32, s as i32, hd as i32],
        )
        &&& self.merge.run.out@ == seq![b, s, nh, hd]
        &&& self.merge.takes(seq![AudioOperand::Merged], seq![AudioOperand::Attended])
        &&& self.out.applies(seq![b, s, (nh * hd) as usize], attn.out_proj, projects_out())
    }
}

proof fn lemma_run_fits(b: usize, nh: usize, len: usize, run: usize, hd: usize)
    requires
        len <= run,
        countable(seq![b, nh, run, run]),
        run * hd <= usize::MAX,
        run * run <= usize::MAX,
    ensures
        countable(seq![b, nh, len, len]),
        len * hd <= usize::MAX,
        len * len <= usize::MAX,
{
    lemma_product4(b, nh, run, run);
    lemma_product4(b, nh, len, len);
    lemma_monotone(0, 0, b as int, nh as int);
    lemma_monotone(b * nh, len as int, b * nh, run as int);
    lemma_monotone(b * nh * len, len as int, b * nh * run, run as int);
    lemma_monotone(len as int, hd as int, run as int, hd as int);
    lemma_monotone(len as int, len as int, run as int, run as int);
}

/// A step from one operand to another.
fn map_step<R>(run: R, write: AudioOperand, read: AudioOperand) -> (r: AudioStep<R>)
    ensures
        r.run == run,
        r.takes(seq![write], seq![read]),
{
    Step::new(run, vec![write], vec![read])
}

/// Plans attention inside one run of tokens, for queries, keys and values of the
/// same shape.
fn attention_core(cuda: &CudaState, q: &GpuTensor, on: CoreOn) -> (r: AttentionCore)
    requires
        q@.len() == 4,
        countable(seq![q@[0], q@[1], q@[2], q@[2]]),
        q@[2] * q@[3] <= usize::MAX,
        q@[2] * q@[2] <= usize::MAX,
    ensures
        r.attends(q@[0], q@[1], q@[2], q@[3], on),
{
    // Counting the elements also shows that they can be counted.
    let _count: usize = q.numel();
    assert(q@ =~= seq![q@[0], q@[1], q@[2], q@[3]]);
    let scores = cuda.attention_qk(q, q);
    let softmax = cuda.softmax_scaled_causal(&scores.out, false);
    let output = cuda.attention_av(&softmax.out, q);
    AttentionCore {
        scores: Step::new(scores, vec![AudioOperand::Scores], vec![on.k, on.q]),
        softmax: map_step(softmax, AudioOperand::Weights, AudioOperand::Scores),
        output: Step::new(output, vec![on.out], vec![on.v, AudioOperand::Weights]),
    }
}

/// Plans bringing the heads of `[b, s, nh * hd]` forward.
fn split_heads(
    cuda: &CudaState,
    x: &GpuTensor,
    b: usize,
    s: usize,
    nh: usize,
    hd: usize,
) -> (r: KernelPlan)
    requires
        nh * hd <= usize::MAX,
        x@ == seq![b, s, (nh * hd) as usize],
        countable(seq![b, s, nh, hd]),
        countable(seq![b, nh, s, hd]),
        b * s * (nh * hd) <= usize::MAX,
    ensures
        is_head_split(r, b, s, nh, hd),
{
    proof {
        lemma_product3(b, s, (nh * hd) as usize);
        lemma_product4(b, s, nh, hd);
        lemma_product4(b, nh, s, hd);
        assert(b * s * nh * hd == b * s * (nh * hd)) by (nonlinear_arith);
        assert(b * nh * s * hd == b * s * (nh * hd)) by (nonlinear_arith);
    }
    let split: Vec<usize> = vec![b, s, nh, hd];
    assert(split@ =~= seq![b, s, nh, hd]);
    let per_head = x.reshape(split);
    cuda.swap_dims_12(&per_head)
}

impl GpuAudioAttention {
    /// Heads that share the stream evenly.
    pub fn head_dim_for(nh: usize, dm: usize) -> (r: usize)
        requires
            0 < nh,
        ensures
            r == dm / nh,
    {
        dm / nh
    }

    /// Plans self-attention for `x` of `[b, s, dm]`, limited to windows of `ws`.
    pub fn forward(&self, cuda: &CudaState, x: &GpuTensor, ws: Option<usize>) -> (r:
        AudioAttentionPlan)
        requires
            x@.len() == 3,
            self.matches(x@[2]),
            self.fits(x@[0], x@[1], ws),
        ensures
            r.computes(*self, x@[0], x@[1], x@[2], ws),
            r.out.linear.run.out@ == seq![x@[0], x@[1], self.out_proj.w.rows],
    {
        let (b, s, dm) = (x.dim(0), x.dim(1), x.dim(2));
        let nh: usize = self.num_heads;
        let hd: usize = self.head_dim;
        let ghost width = (nh * hd) as usize;
        proof {
            assert(x@ =~= seq![b, s, dm]);
            lemma_rows(b, s, dm, width);
            lemma_rows(b, s, width, self.out_proj.w.rows);
        }
        let normed = AudioOperand::Normed;
        let q = self.q_proj.forward(
            cuda,
            x,
            LinearOn {
                x: normed,
                w: AudioOperand::QueryProj,
                bias: AudioOperand::QueryBias,
                y: AudioOperand::Query,
            },
        );
        let k = self.k_proj.forward(
            cuda,
            x,
            LinearOn {
                x: normed,
                w: AudioOperand::KeyProj,
                bias: AudioOperand::KeyBias,
                y: AudioOperand::Key,
            },
        );
        let v = self.v_proj.forward(
            cuda,
            x,
            LinearOn {
                x: normed,
                w: AudioOperand::ValueProj,
                bias: AudioOperand::ValueBias,
                y: AudioOperand::Value,
            },
        );
        proof {
            lemma_product3(b, s, width);
            lemma_product4(b, s, nh, hd);
            lemma_product4(b, nh, s, hd);
            assert(b * s * nh * hd == b * s * (nh * hd)) by (nonlinear_arith);
            assert(b * nh * s * hd == b * s * (nh * hd)) by (nonlinear_arith);
        }
        assert(b * nh <= usize::MAX);
        let q_heads = split_heads(cuda, &q.linear.run.out, b, s, nh, hd);
        let k_heads = split_heads(cuda, &k.linear.run.out, b, s, nh, hd);
        let v_heads = split_heads(cuda, &v.linear.run.out, b, s, nh, hd);
        let core = self.attend(cuda, &q_heads.out, ws);
        let merge = cuda.swap_dims_12(&q_heads.out);
        let flat: Vec<usize> = vec![b, s, nh * hd];
        assert(flat@ =~= seq![b, s, width]);
        let attn_flat = merge.out.reshape(flat);
        let out = self.out_proj.forward(
            cuda,
            &attn_flat,
            LinearOn {
                x: AudioOperand::Merged,
                w: AudioOperand::OutProj,
                bias: AudioOperand::OutBias,
                y: AudioOperand::AttnOut,
            },
        );
        AudioAttentionPlan {
            q,
            k,
            v,
            q_heads: map_step(q_heads, AudioOperand::QueryHeads, AudioOperand::Query),
            k_heads: map_step(k_heads, AudioOperand::KeyHeads, AudioOperand::Key),
            v_heads: map_step(v_heads, AudioOperand::ValueHeads, AudioOperand::Value),
            core,
            merge: map_step(merge, AudioOperand::Merged, AudioOperand::Attended),
            out,
        }
    }

    fn attend(&self, cuda: &CudaState, q: &GpuTensor, ws: Option<usize>) -> (r: AudioAttentionCore)
        requires
            q@.len() == 4,
            ({
                let run = longest(ws, q@[2]);
                &&& countable(seq![q@[0], q@[1], run, run])
                &&& run * q@[3] <= usize::MAX
                &&& run * run <= usize::MAX
            }),
        ensures
            r.attends(q@[0], q@[1], q@[2], q@[3], ws),
    {
        let (b, nh, s, hd) = (q.dim(0), q.dim(1), q.dim(2), q.dim(3));
        match attention_window(ws, s) {
            None => {
                let on = CoreOn {
                    q: AudioOperand::QueryHeads,
                    k: AudioOperand::KeyHeads,
                    v: AudioOperand::ValueHeads,
                    out: AudioOperand::Attended,
                };
                AudioAttentionCore::Whole { core: attention_core(cuda, q, on) }
            },
            Some(w) => {
                let runs = windows(s, w);
                let on = CoreOn {
                    q: AudioOperand::QueryWindow,
                    k: AudioOperand::KeyWindow,
                    v: AudioOperand::ValueWindow,
                    out: AudioOperand::WindowOut,
                };
                let mut plans: Vec<WindowPlan> = Vec::new();
                let mut i: usize = 0;
                while i < runs.len()
                    invariant
                        i <= runs@.len(),
                        on == window_operands(),
                        q@ == seq![b, nh, s, hd],
                        countable(seq![b, nh, w, w]),
                        w * hd <= usize::MAX,
                        w * w <= usize::MAX,
                        forall|k: int|
                            0 <= k < runs@.len() ==> {
                                &&& #[trigger] runs@[k] == window_at(s as int, w as int, k)
                                &&& 0 < runs@[k].len <= w
                                &&& runs@[k].start + runs@[k].len <= s
                            },
                        plans@.len() == i,
                        forall|k: int|
                            0 <= k < i ==> {
                                &&& (#[trigger] plans@[k]).window == runs@[k]
                                &&& plans@[k].attends(b, nh, s, hd)
                            },
                    decreases runs@.len() - i,
                {
                    let window = runs[i];
                    proof {
                        lemma_run_fits(b, nh, window.len, w, hd);
                    }
                    let slice = cuda.slice_dim2(q, window.start, window.len);
                    let k_slice = cuda.slice_dim2(q, window.start, window.len);
                    let v_slice = cuda.slice_dim2(q, window.start, window.len);
                    let core = attention_core(cuda, &slice.out, on);
                    // Counting the elements also shows that they can be counted.
                    let _count: usize = core.output.run.out.numel();
                    let write = cuda.concat_dim2_write(
                        &core.output.run.out,
                        b,
                        nh,
                        s,
                        hd,
                        window.start,
                    );
                    plans.push(
                        WindowPlan {
                            window,
                            q: map_step(
                                slice,
                                AudioOperand::QueryWindow,
                                AudioOperand::QueryHeads,
                            ),
                            k: map_step(k_slice, AudioOperand::KeyWindow, AudioOperand::KeyHeads),
                            v: map_step(
                                v_slice,
                                AudioOperand::ValueWindow,
                                AudioOperand::ValueHeads,
                            ),
                            core,
                            write: map_step(
                                write,
                                AudioOperand::Attended,
                                AudioOperand::WindowOut,
                            ),
                        },
                    );
                    i += 1;
                }
                AudioAttentionCore::Windowed { plans }
            },
        }
    }
}

/// The feed-forward part of an encoder layer.
#[derive(Clone, Copy)]
pub struct GpuAudioFfn {
    pub fc1: GpuLinear,
    pub fc2: GpuLinear,
}

/// Two linear layers with the activation between them.
pub struct AudioFfnPlan {
    pub fc1: GpuLinearPlan<AudioOperand>,
    pub gelu: AudioStep<Launch>,
    pub fc2: GpuLinearPlan<AudioOperand>,
}

/// What two linear layers work on.
#[derive(Clone, Copy)]
pub struct FfnOn {
    pub x: AudioOperand,
    pub fc1: AudioOperand,
    pub fc1_bias: AudioOperand,
    pub fc2: AudioOperand,
    pub fc2_bias: AudioOperand,
}

impl FfnOn {
    /// What the first layer works on.
    pub open spec fn first(self) -> LinearOn<AudioOperand> {
        LinearOn { x: self.x, w: self.fc1, bias: self.fc1_bias, y: AudioOperand::Hidden }
    }

    /// What the second layer works on.
    pub open spec fn second(self) -> LinearOn<AudioOperand> {
        LinearOn {
            x: AudioOperand::Hidden,
            w: self.fc2,
            bias: self.fc2_bias,
            y: AudioOperand::FfnOut,
        }
    }
}

/// The operands of the feed-forward part of a layer.
pub open spec fn ffn_operands() -> FfnOn {
    FfnOn {
        x: AudioOperand::NormedBehind,
        fc1: AudioOperand::Fc1,
        fc1_bias: AudioOperand::Fc1Bias,
        fc2: AudioOperand::Fc2,
        fc2_bias: AudioOperand::Fc2Bias,
    }
}

/// The operands of the projection to the decoder's width.
pub open spec fn proj_operands() -> FfnOn {
    FfnOn {
        x: AudioOperand::Normed,
        fc1: AudioOperand::Proj1,
        fc1_bias: AudioOperand::Proj1Bias,
        fc2: AudioOperand::Proj2,
        fc2_bias: AudioOperand::Proj2Bias,
    }
}

impl AudioFfnPlan {
    /// What two layers run for `[b, s, dm]`.
    pub open spec fn computes(
        self,
        fc1: GpuLinear,
        fc2: GpuLinear,
        b: usize,
        s: usize,
        dm: usize,
        on: FfnOn,
    ) -> bool {
        &&& self.fc1.applies(seq![b, s, dm], fc1, on.first())
        &&& is_flat(self.gelu.run, Kernel::GeluInplace, b * s * fc1.w.rows)
        &&& self.gelu.takes(seq![AudioOperand::Hidden], seq![])
        &&& self.fc2.applies(seq![b, s, fc1.w.rows], fc2, on.second())
    }
}

/// Plans two linear layers with the activation between them.
fn two_layers(cuda: &CudaState, fc1: GpuLinear, fc2: GpuLinear, x: &GpuTensor, on: FfnOn) -> (r:
    AudioFfnPlan)
    requires
        x@.len() == 3,
        x@[2] == fc1.w.cols,
        fc1.w.rows == fc2.w.cols,
        x@[0] * x@[1] * fc1.w.rows <= usize::MAX,
        x@[0] * x@[1] * fc2.w.rows <= usize::MAX,
    ensures
        r.computes(fc1, fc2, x@[0], x@[1], x@[2], on),
        r.fc2.linear.run.out@ == seq![x@[0], x@[1], fc2.w.rows],
{
    let (b, s, dm) = (x.dim(0), x.dim(1), x.dim(2));
    proof {
        assert(x@ =~= seq![b, s, dm]);
        lemma_rows(b, s, dm, fc1.w.rows);
        lemma_rows(b, s, fc1.w.rows, fc2.w.rows);
        lemma_product3(b, s, fc1.w.rows);
    }
    let hidden = AudioOperand::Hidden;
    let first = fc1.forward(
        cuda,
        x,
        LinearOn { x: on.x, w: on.fc1, bias: on.fc1_bias, y: hidden },
    );
    let gelu = cuda.gelu_inplace(&first.linear.run.out);
    let second = fc2.forward(
        cuda,
        &first.linear.run.out,
        LinearOn { x: hidden, w: on.fc2, bias: on.fc2_bias, y: AudioOperand::FfnOut },
    );
    AudioFfnPlan { fc1: first, gelu: Step::new(gelu, vec![hidden], Vec::new()), fc2: second }
}

impl GpuAudioFfn {
    /// Layers that take a stream of width `dm` back to that width.
    pub open spec fn matches(self, dm: usize) -> bool {
        &&& self.fc1.w.cols == dm
        &&& self.fc2.w.cols == self.fc1.w.rows
        &&& self.fc2.w.rows == dm
    }

    /// Plans the feed-forward part for `x` of `[b, s, dm]`.
    pub fn forward(&self, cuda: &CudaState, x: &GpuTensor) -> (r: AudioFfnPlan)
        requires
            x@.len() == 3,
            self.matches(x@[2]),
            x@[0] * x@[1] * self.fc1.w.rows <= usize::MAX,
            x@[0] * x@[1] * self.fc2.w.rows <= usize::MAX,
        ensures
            r.computes(self.fc1, self.fc2, x@[0], x@[1], x@[2], ffn_operands()),
            r.fc2.linear.run.out@ == seq![x@[0], x@[1], self.fc2.w.rows],
    {
        let on = FfnOn {
            x: AudioOperand::NormedBehind,
            fc1: AudioOperand::Fc1,
            fc1_bias: AudioOperand::Fc1Bias,
            fc2: AudioOperand::Fc2,
            fc2_bias: AudioOperand::Fc2Bias,
        };
        two_layers(cuda, self.fc1, self.fc2, x, on)
    }
}

/// One encoder layer.
#[derive(Clone, Copy)]
pub struct GpuAudioLayer {
    pub attn: GpuAudioAttention,
    pub ffn: GpuAudioFfn,
}

/// Everything that an encoder layer runs, in this order: attention and feed-forward
/// part, each on normalised input and added to the stream.
pub struct AudioLayerPlan {
    pub attn_norm: AudioStep<KernelPlan>,
    pub attn: AudioAttentionPlan,
    pub add: AudioStep<KernelPlan>,
    pub ffn_norm: AudioStep<KernelPlan>,
    pub ffn: AudioFfnPlan,
    pub add_ffn: AudioStep<Launch>,
}

impl AudioLayerPlan {
    /// What a layer runs for `[b, s, dm]`.
    pub open spec fn computes(
        self,
        layer: GpuAudioLayer,
        b: usize,
        s: usize,
        dm: usize,
        ws: Option<usize>,
    ) -> bool {
        let x = seq![b, s, dm];
        &&& is_layer_norm(self.attn_norm.run.launch, x)
        &&& self.attn_norm.run.out@ == x
        &&& self.attn_norm.takes(
            seq![AudioOperand::Normed],
            seq![
                AudioOperand::Stream,
                AudioOperand::AttnNormScale,
                AudioOperand::AttnNormBias,
            ],
        )
        &&& self.attn.computes(layer.attn, b, s, dm, ws)
        &&& is_flat(self.add.run.launch, Kernel::Add, b * s * dm)
        &&& self.add.run.out@ == x
        &&& self.add.takes(
            seq![AudioOperand::Added],
            seq![AudioOperand::Stream, AudioOperand::AttnOut],
        )
        &&& is_layer_norm(self.ffn_norm.run.launch, x)
        &&& self.ffn_norm.run.out@ == x
        &&& self.ffn_norm.takes(
            seq![AudioOperand::NormedBehind],
            seq![
                AudioOperand::Added,
                AudioOperand::FfnNormScale,
                AudioOperand::FfnNormBias,
            ],
        )
        &&& self.ffn.computes(layer.ffn.fc1, layer.ffn.fc2, b, s, dm, ffn_operands())
        &&& is_flat(self.add_ffn.run, Kernel::AddInplace, b * s * dm)
        &&& self.add_ffn.takes(seq![AudioOperand::Added], seq![AudioOperand::FfnOut])
    }
}

impl GpuAudioLayer {
    /// A layer that takes a stream of width `dm` back to that width.
    pub open spec fn matches(self, dm: usize) -> bool {
        &&& self.attn.matches(dm)
        &&& self.attn.out_proj.w.rows == dm
        &&& self.ffn.matches(dm)
    }

    /// All buffers of a call on `[b, s, dm]` can be counted.
    pub open spec fn fits(self, b: usize, s: usize, ws: Option<usize>) -> bool {
        &&& self.attn.fits(b, s, ws)
        &&& b * s * self.ffn.fc1.w.rows <= usize::MAX
        &&& b * s * self.ffn.fc2.w.rows <= usize::MAX
    }

    /// Plans the layer for `x` of `[b, s, dm]`, attention limited to windows of
    /// `ws`.
    pub fn forward(&self, cuda: &CudaState, x: &GpuTensor, ws: Option<usize>) -> (r: AudioLayerPlan)
        requires
            x@.len() == 3,
            self.matches(x@[2]),
            self.fits(x@[0], x@[1], ws),
        ensures
            r.computes(*self, x@[0], x@[1], x@[2], ws),
    {
        let (b, s, dm) = (x.dim(0), x.dim(1), x.dim(2));
        proof {
            assert(x@ =~= seq![b, s, dm]);
            lemma_product3(b, s, dm);
        }
        let attn_norm = cuda.layer_norm(x);
        let attn = self.attn.forward(cuda, &attn_norm.out, ws);
        let add = cuda.add(x);
        let ffn_norm = cuda.layer_norm(&add.out);
        let ffn = self.ffn.forward(cuda, &ffn_norm.out);
        let add_ffn = cuda.add_inplace(&add.out);
        AudioLayerPlan {
            attn_norm: Step::new(
                attn_norm,
                vec![AudioOperand::Normed],
                vec![
                    AudioOperand::Stream,
                    AudioOperand::AttnNormScale,
                    AudioOperand::AttnNormBias,
                ],
            ),
            attn,
            add: Step::new(
                add,
                vec![AudioOperand::Added],
                vec![AudioOperand::Stream, AudioOperand::AttnOut],
            ),
            ffn_norm: Step::new(
                ffn_norm,
                vec![AudioOperand::NormedBehind],
                vec![
                    AudioOperand::Added,
                    AudioOperand::FfnNormScale,
                    AudioOperand::FfnNormBias,
                ],
            ),
            ffn,
            add_ffn: map_step(add_ffn, AudioOperand::Added, AudioOperand::FfnOut),
        }
    }
}

/// The convolution stem: channels and the layer behind the convolutions.
#[derive(Clone, Copy)]
pub struct GpuConvStem {
    pub c1_out: usize,
    pub c2_out: usize,
    pub c3_out: usize,
    pub co: GpuLinear,
}

/// What the steps of the convolution stem work on.
#[derive(Clone, Copy, PartialEq, Eq, Structural, Debug, Hash)]
pub enum StemOperand {
    /// Chunks of the spectrogram.
    Chunks,
    /// What one convolution reads, laid out for a product.
    Columns,
    /// That product.
    Product,
    /// What the convolutions leave.
    Conv1,
    Conv2,
    Conv3,
    /// That, with the features of a time step next to each other.
    Flat,
    /// Tokens of the chunks.
    Tokens,
    /// Taps and biases of the convolutions.
    Taps1,
    Bias1,
    Taps2,
    Bias2,
    Taps3,
    Bias3,
    /// The linear layer and its bias.
    OutProj,
    OutBias,
    /// What is added for the position of a token in its chunk.
    Positions,
}

/// One convolution: its input laid out, the product with the taps, and what follows it.
pub struct ConvStep {
    pub plan: ConvPlan,
    pub im2col: Operands<StemOperand>,
    pub gemm: Operands<StemOperand>,
    pub postprocess: Operands<StemOperand>,
}

impl ConvStep {
    /// The convolution from `x` to `out`.
    pub open spec fn takes(
        self,
        x: StemOperand,
        taps: StemOperand,
        bias: StemOperand,
        out: StemOperand,
    ) -> bool {
        &&& self.im2col.are(seq![StemOperand::Columns], seq![x])
        &&& self.gemm.are(seq![StemOperand::Product], seq![taps, StemOperand::Columns])
        &&& self.postprocess.are(seq![out], seq![StemOperand::Product, bias])
    }

    fn new(
        plan: ConvPlan,
        x: StemOperand,
        taps: StemOperand,
        bias: StemOperand,
        out: StemOperand,
    ) -> (r: Self)
        ensures
            r.plan == plan,
            r.takes(x, taps, bias, out),
    {
        ConvStep {
            plan,
            im2col: Operands::new(vec![StemOperand::Columns], vec![x]),
            gemm: Operands::new(vec![StemOperand::Product], vec![taps, StemOperand::Columns]),
            postprocess: Operands::new(vec![out], vec![StemOperand::Product, bias]),
        }
    }
}

/// Everything that the convolution stem runs, in this order.
pub struct ConvStemPlan {
    pub c1: ConvStep,
    pub c2: ConvStep,
    pub c3: ConvStep,
    /// Features of a time step next to each other: the last axis is brought forward.
    pub flat: Step<StemOperand, GpuTensor>,
    pub co: GpuLinearPlan<StemOperand>,
    /// The position of a token in its chunk is added to it.
    pub positions: Operands<StemOperand>,
    /// Tokens per chunk.
    pub t2: usize,
}

/// What the linear layer of the stem works on.
pub open spec fn stem_projects() -> LinearOn<StemOperand> {
    LinearOn {
        x: StemOperand::Flat,
        w: StemOperand::OutProj,
        bias: StemOperand::OutBias,
        y: StemOperand::Tokens,
    }
}

impl GpuConvStem {
    /// Shape after `n` of the three convolutions.
    pub open spec fn stage(self, b: usize, n_mels: usize, cs: usize, n: int) -> Seq<usize> {
        if n <= 0 {
            seq![b, 1usize, n_mels, cs]
        } else {
            let before = self.stage_dims(n_mels as int, cs as int, n);
            seq![
                b,
                if n == 1 {
                    self.c1_out
                } else if n == 2 {
                    self.c2_out
                } else {
                    self.c3_out
                },
                before.0 as usize,
                before.1 as usize,
            ]
        }
    }

    /// Height and width after `n` of the three convolutions.
    pub open spec fn stage_dims(self, h: int, w: int, n: int) -> (int, int) {
        if n <= 0 {
            (h, w)
        } else if n == 1 {
            (conv_len(h), conv_len(w))
        } else if n == 2 {
            (conv_len(conv_len(h)), conv_len(conv_len(w)))
        } else {
            (conv_len(conv_len(conv_len(h))), conv_len(conv_len(conv_len(w))))
        }
    }

    /// All buffers for `b` chunks of `[n_mels, cs]` can be counted.
    pub open spec fn fits(self, b: usize, n_mels: usize, cs: usize) -> bool {
        let x3 = self.stage(b, n_mels, cs, 3);
        &&& countable(self.stage(b, n_mels, cs, 0))
        &&& n_mels + 2 <= usize::MAX
        &&& cs + 2 <= usize::MAX
        &&& conv_fits(self.stage(b, n_mels, cs, 0), self.c1_out)
        &&& conv_fits(self.stage(b, n_mels, cs, 1), self.c2_out)
        &&& conv_fits(self.stage(b, n_mels, cs, 2), self.c3_out)
        &&& self.c3_out * x3[2] <= usize::MAX
        &&& b * x3[3] <= usize::MAX
        &&& b * x3[3] * (self.c3_out * x3[2]) <= usize::MAX
        &&& self.co.w.cols == self.c3_out * x3[2]
        &&& b * x3[3] * self.co.w.rows <= usize::MAX
    }
}

impl ConvStemPlan {
    /// What the stem runs for `b` chunks of `[n_mels, cs]`.
    pub open spec fn computes(
        self,
        stem: GpuConvStem,
        b: usize,
        n_mels: usize,
        cs: usize,
    ) -> bool {
        let x3 = stem.stage(b, n_mels, cs, 3);
        &&& self.c1.plan.convolves(stem.stage(b, n_mels, cs, 0), stem.c1_out)
        &&& self.c1.takes(
            StemOperand::Chunks,
            StemOperand::Taps1,
            StemOperand::Bias1,
            StemOperand::Conv1,
        )
        &&& self.c2.plan.convolves(stem.stage(b, n_mels, cs, 1), stem.c2_out)
        &&& self.c2.takes(
            StemOperand::Conv1,
            StemOperand::Taps2,
            StemOperand::Bias2,
            StemOperand::Conv2,
        )
        &&& self.c3.plan.convolves(stem.stage(b, n_mels, cs, 2), stem.c3_out)
        &&& self.c3.takes(
            StemOperand::Conv2,
            StemOperand::Taps3,
            StemOperand::Bias3,
            StemOperand::Conv3,
        )
        &&& self.flat.run@ == seq![b, x3[3], (stem.c3_out * x3[2]) as usize]
        &&& self.flat.takes(seq![StemOperand::Flat], seq![StemOperand::Conv3])
        &&& self.co.applies(self.flat.run@, stem.co, stem_projects())
        &&& self.positions.are(seq![StemOperand::Tokens], seq![StemOperand::Positions])
        &&& self.t2 == x3[3]
    }
}

impl GpuConvStem {
    /// Plans the stem for `b_chunks` chunks of `[n_mels, cs]`.
    pub fn forward(&self, cuda: &CudaState, b_chunks: usize, n_mels: usize, cs: usize) -> (r:
        ConvStemPlan)
        requires
            0 < n_mels,
            0 < cs,
            self.fits(b_chunks, n_mels, cs),
        ensures
            r.computes(*self, b_chunks, n_mels, cs),
            r.t2 == token_count(cs as int),
            r.co.linear.run.out@ == seq![b_chunks, r.t2, self.co.w.rows],
    {
        let b: usize = b_chunks;
        let shape: Vec<usize> = vec![b, 1usize, n_mels, cs];
        assert(shape@ =~= seq![b, 1usize, n_mels, cs]);
        let x0 = GpuTensor::of_shape(shape);
        let c1 = cuda.conv2d_3x3_s2p1_gelu(&x0, self.c1_out, 1);
        assert(c1.out@ =~= self.stage(b, n_mels, cs, 1));
        let c2 = cuda.conv2d_3x3_s2p1_gelu(&c1.out, self.c2_out, self.c1_out);
        assert(c2.out@ =~= self.stage(b, n_mels, cs, 2));
        let c3 = cuda.conv2d_3x3_s2p1_gelu(&c2.out, self.c3_out, self.c2_out);
        assert(c3.out@ =~= self.stage(b, n_mels, cs, 3));
        let f2: usize = c3.out.dim(2);
        let t2: usize = c3.out.dim(3);
        proof {
            law_feo_is_three_convolutions(cs as int);
            lemma_product3(b, t2, (self.c3_out * f2) as usize);
            lemma_rows(b, t2, (self.c3_out * f2) as usize, self.co.w.rows);
        }
        let flat_shape: Vec<usize> = vec![b, t2, self.c3_out * f2];
        assert(flat_shape@ =~= seq![b, t2, (self.c3_out * f2) as usize]);
        let flat = GpuTensor::of_shape(flat_shape);
        let co = self.co.forward(
            cuda,
            &flat,
            LinearOn {
                x: StemOperand::Flat,
                w: StemOperand::OutProj,
                bias: StemOperand::OutBias,
                y: StemOperand::Tokens,
            },
        );
        ConvStemPlan {
            c1: ConvStep::new(
                c1,
                StemOperand::Chunks,
                StemOperand::Taps1,
                StemOperand::Bias1,
                StemOperand::Conv1,
            ),
            c2: ConvStep::new(
                c2,
                StemOperand::Conv1,
                StemOperand::Taps2,
                StemOperand::Bias2,
                StemOperand::Conv2,
            ),
            c3: ConvStep::new(
                c3,
                StemOperand::Conv2,
                StemOperand::Taps3,
                StemOperand::Bias3,
                StemOperand::Conv3,
            ),
            flat: Step::new(flat, vec![StemOperand::Flat], vec![StemOperand::Conv3]),
            co,
            positions: Operands::new(vec![StemOperand::Tokens], vec![StemOperand::Positions]),
            t2,
        }
    }
}

/// The audio encoder behind its convolution stem.
pub struct GpuAudioEncoder {
    pub layers: Vec<GpuAudioLayer>,
    pub proj1: GpuLinear,
    pub proj2: GpuLinear,
    pub params: ChunkParams,
    pub d_model: usize,
}

/// Everything that the encoder runs behind its convolution stem, in this order.
pub struct AudioEncoderPlan {
    pub layers: Vec<AudioLayerPlan>,
    pub ln_post: AudioStep<KernelPlan>,
    pub proj: AudioFfnPlan,
    /// Width of a token's embedding.
    pub out_dim: usize,
}

impl AudioEncoderPlan {
    /// What the encoder runs for `n` tokens: all of its layers, then what follows.
    pub open spec fn runs(self, encoder: GpuAudioEncoder, n: usize) -> bool {
        &&& self.layers@.len() == encoder.layers@.len()
        &&& forall|i: int|
            0 <= i < encoder.layers@.len() ==> (#[trigger] self.layers@[i]).computes(
                encoder.layers@[i],
                1,
                n,
                encoder.d_model,
                Some(encoder.params.ws),
            )
        &&& self.ends(encoder, n)
    }

    /// What follows the layers for `n` tokens.
    pub open spec fn ends(self, encoder: GpuAudioEncoder, n: usize) -> bool {
        let x = seq![1usize, n, encoder.d_model];
        &&& is_layer_norm(self.ln_post.run.launch, x)
        &&& self.ln_post.run.out@ == x
        &&& self.ln_post.takes(
            seq![AudioOperand::Normed],
            seq![
                AudioOperand::Stream,
                AudioOperand::PostNormScale,
                AudioOperand::PostNormBias,
            ],
        )
        &&& self.proj.computes(
            encoder.proj1,
            encoder.proj2,
            1,
            n,
            encoder.d_model,
            proj_operands(),
        )
        &&& self.out_dim == encoder.proj2.w.rows
    }
}

impl GpuAudioEncoder {
    /// Layers that work on one stream of width `d_model`.
    pub open spec fn matches(self) -> bool {
        &&& self.proj1.w.cols == self.d_model
        &&& self.proj2.w.cols == self.proj1.w.rows
        &&& forall|i: int|
            0 <= i < self.layers@.len() ==> #[trigger] self.layers@[i].matches(self.d_model)
    }

    /// All buffers for `n` tokens can be counted.
    pub open spec fn fits(self, n: usize) -> bool {
        &&& n * self.d_model <= usize::MAX
        &&& n * self.proj1.w.rows <= usize::MAX
        &&& n * self.proj2.w.rows <= usize::MAX
        &&& forall|i: int|
            0 <= i < self.layers@.len() ==> #[trigger] self.layers@[i].fits(
                1,
                n,
                Some(self.params.ws),
            )
    }

    /// Plans the transformer for `n_tokens` tokens of one recording.
    pub fn run_transformer(&self, cuda: &CudaState, n_tokens: usize) -> (r: AudioEncoderPlan)
        requires
            self.matches(),
            self.fits(n_tokens),
        ensures
            r.layers@.len() == self.layers@.len(),
            forall|i: int|
                0 <= i < self.layers@.len() ==> (#[trigger] r.layers@[i]).computes(
                    self.layers@[i],
                    1,
                    n_tokens,
                    self.d_model,
                    Some(self.params.ws),
                ),
            is_layer_norm(r.ln_post.run.launch, seq![1usize, n_tokens, self.d_model]),
            r.ln_post.run.out@ == seq![1usize, n_tokens, self.d_model],
            r.ln_post.takes(
                seq![AudioOperand::Normed],
                seq![
                    AudioOperand::Stream,
                    AudioOperand::PostNormScale,
                    AudioOperand::PostNormBias,
                ],
            ),
            r.proj.computes(self.proj1, self.proj2, 1, n_tokens, self.d_model, proj_operands()),
            r.out_dim == self.proj2.w.rows,
            r.runs(*self, n_tokens),
    {
        let dm: usize = self.d_model;
        let ws: usize = self.params.ws;
        proof {
            lemma_product3(1, n_tokens, dm);
            assert(1 * n_tokens == n_tokens);
        }
        let shape: Vec<usize> = vec![1usize, n_tokens, dm];
        assert(shape@ =~= seq![1usize, n_tokens, dm]);
        let h = GpuTensor::of_shape(shape);
        let mut layers: Vec<AudioLayerPlan> = Vec::new();
        let mut i: usize = 0;
        while i < self.layers.len()
            invariant
                i <= self.layers@.len(),
                self.matches(),
                self.fits(n_tokens),
                dm == self.d_model,
                ws == self.params.ws,
                h@ == seq![1usize, n_tokens, dm],
                layers@.len() == i,
                forall|k: int|
                    0 <= k < i ==> (#[trigger] layers@[k]).computes(
                        self.layers@[k],
                        1,
                        n_tokens,
                        dm,
                        Some(ws),
                    ),
            decreases self.layers@.len() - i,
        {
            let layer: GpuAudioLayer = self.layers[i];
            assert(self.layers@[i as int].matches(dm));
            assert(self.layers@[i as int].fits(1, n_tokens, Some(ws)));
            layers.push(layer.forward(cuda, &h, Some(ws)));
            i += 1;
        }
        let ln_post = cuda.layer_norm(&h);
        let on = FfnOn {
            x: AudioOperand::Normed,
            fc1: AudioOperand::Proj1,
            fc1_bias: AudioOperand::Proj1Bias,
            fc2: AudioOperand::Proj2,
            fc2_bias: AudioOperand::Proj2Bias,
        };
        let proj = two_layers(cuda, self.proj1, self.proj2, &ln_post.out, on);
        let out_dim: usize = proj.fc2.linear.run.out.dim(2);
        let ln_post = Step::new(
            ln_post,
            vec![AudioOperand::Normed],
            vec![
                AudioOperand::Stream,
                AudioOperand::PostNormScale,
                AudioOperand::PostNormBias,
            ],
        );
        AudioEncoderPlan { layers, ln_post, proj, out_dim }
    }
}

} // verus!

//! What a decoder layer runs on the GPU, step by step.
use vstd::prelude::*;

use crate::cudarc_engine::{
    chunks_of, decode_block, decode_smem, is_decode, is_qkv_extract, is_row_norm,
    is_silu_mul_split, parts_at_once, split_ints, split_smem, BatchedPlan, CudaState, GpuTensor,
    GpuWeight, KernelPlan, LinearPlan, QkvExtract, SplitPlan,
};
use crate::launch::{elementwise_config, reduction_config, Kernel, Launch, LaunchConfig};
use crate::layout::lemma_monotone;
use crate::linear::{av_config, linear_config, out_shape, qk_config, GemmConfig};
use crate::steps::{
    caches_and_queries, decode_operands, extract_operands, map_step, norm_step, part_operands,
    parts, product_step, projected, LayerOperand, LayerStep, Operands, Step,
};
use crate::tensor::{countable, lemma_product3, lemma_product4, outer};

verus! {

/// Contexts up to this many positions are attended to in a single launch.
pub const SPLIT_THRESHOLD: usize = 1024;

/// How the attention of a call is computed.
#[derive(Clone, Copy, PartialEq, Eq, Structural)]
pub enum AttentionPath {
    /// Several new tokens: full scores.
    Prefill,
    /// One new token and a short context: one launch.
    Decode,
    /// One new token and a long context: chunks of it, merged afterwards.
    DecodeSplit { chunk_size: usize },
}

/// The path for `s` new tokens in a context of `cur_len` positions.
pub open spec fn path_for(s: int, cur_len: int) -> AttentionPath {
    if s != 1 {
        AttentionPath::Prefill
    } else if cur_len > SPLIT_THRESHOLD {
        AttentionPath::DecodeSplit { chunk_size: chunk_for(cur_len) }
    } else {
        AttentionPath::Decode
    }
}

/// Positions in a chunk: larger chunks for longer contexts.
pub open spec fn chunk_for(cur_len: int) -> usize {
    if cur_len >= 2048 {
        512
    } else {
        256
    }
}

/// Picks the attention path.
pub fn attention_path(s: usize, cur_len: usize) -> (r: AttentionPath)
    ensures
        r == path_for(s as int, cur_len as int),
{
    if s == 1 {
        let chunk_size: usize = if cur_len >= 2048 {
            512
        } else {
            256
        };
        if cur_len > SPLIT_THRESHOLD {
            AttentionPath::DecodeSplit { chunk_size }
        } else {
            AttentionPath::Decode
        }
    } else {
        AttentionPath::Prefill
    }
}

/// Weight shapes and sizes of a decoder layer.
#[derive(Clone, Copy)]
pub struct GpuDecoderLayer {
    /// Fused query, key and value projection.
    pub qkv_w: GpuWeight,
    /// Output projection.
    pub o_w: GpuWeight,
    /// Fused gate and up projection.
    pub gu_w: GpuWeight,
    /// Down projection.
    pub dp_w: GpuWeight,
    /// Query heads.
    pub nqh: usize,
    /// Key-value heads.
    pub nkvh: usize,
    /// Width of a head.
    pub hd: usize,
    /// Width of the residual stream.
    pub hs: usize,
}

impl GpuDecoderLayer {
    /// Weights that can be multiplied one after the other.
    pub open spec fn matches(self) -> bool {
        &&& 0 < self.nkvh
        &&& 0 < self.nqh
        &&& 0 < self.hd
        &&& self.nqh + self.nkvh <= usize::MAX
        &&& self.nqh * self.hd <= usize::MAX
        &&& self.nkvh * self.hd <= usize::MAX
        &&& self.qkv_w.cols == self.hs
        &&& self.o_w.cols == self.nqh * self.hd
        &&& self.o_w.rows == self.hs
        &&& self.gu_w.cols == self.hs
        &&& self.dp_w.cols == self.gu_w.rows / 2
        &&& self.dp_w.rows == self.hs
    }

    /// Query heads that share a key-value head.
    pub open spec fn n_rep(self) -> int {
        self.nqh as int / self.nkvh as int
    }

    /// Where a call at `kv_start` writes queries, keys and values.
    pub open spec fn extract_at(self, max_seq: usize, kv_start: usize) -> QkvExtract {
        QkvExtract {
            nqh: self.nqh,
            nkvh: self.nkvh,
            d: self.hd,
            q_dim: (self.nqh * self.hd) as usize,
            kv_dim: (self.nkvh * self.hd) as usize,
            max_seq,
            start: kv_start,
            pos_offset: kv_start,
        }
    }

    /// All buffers of a call on `[b, s, hs]` can be counted.
    pub open spec fn fits(self, b: usize, s: usize, kv_start: usize) -> bool {
        let cur_len = kv_start + s;
        &&& cur_len <= usize::MAX
        &&& b * s <= usize::MAX
        &&& b * s * self.qkv_w.rows <= usize::MAX
        &&& b * s * self.gu_w.rows <= usize::MAX
        &&& b * s * (self.nqh * self.hd) <= usize::MAX
        &&& countable(seq![b, self.nqh, s, self.hd])
        &&& match path_for(s as int, cur_len) {
            AttentionPath::Prefill => {
                &&& countable(
                    seq![b, (self.nkvh * self.n_rep()) as usize, cur_len as usize, self.hd],
                )
                &&& countable(seq![b, self.nqh, s, cur_len as usize])
                &&& cur_len * self.hd <= usize::MAX
                &&& s * self.hd <= usize::MAX
                &&& s * cur_len <= usize::MAX
            },
            AttentionPath::Decode => decode_smem(cur_len, self.hd as int) <= usize::MAX,
            AttentionPath::DecodeSplit { chunk_size } => {
                &&& cur_len + chunk_size <= usize::MAX
                &&& split_smem(chunk_size as int, self.hd as int) <= usize::MAX
                &&& countable(
                    seq![
                        b,
                        self.nqh,
                        chunks_of(cur_len, chunk_size as int) as usize,
                        self.hd,
                    ],
                )
            },
        }
    }
}

impl GpuDecoderLayer {
    /// All sizes of one decoding step can be counted.
    pub open spec fn fits_step(self, kv_start: usize, scratch: DecodeScratch) -> bool {
        let cur_len = kv_start + 1;
        &&& self.nqh * self.hd + 2 * (self.nkvh * self.hd) <= usize::MAX
        &&& self.nqh <= scratch.attn_out
        &&& match path_for(1, cur_len) {
            AttentionPath::DecodeSplit { chunk_size } => cur_len + chunk_size <= usize::MAX,
            _ => decode_smem(cur_len, scratch.attn_out as int / self.nqh as int) <= usize::MAX,
        }
    }
}

/// The attention step of a layer.
pub enum AttentionPlan {
    /// Keys and values are repeated for their query heads, then scores, softmax and
    /// output.
    Prefill {
        keys: LayerStep<KernelPlan>,
        values: LayerStep<KernelPlan>,
        scores: LayerStep<BatchedPlan>,
        softmax: LayerStep<KernelPlan>,
        output: LayerStep<BatchedPlan>,
    },
    /// One launch.
    Decode { launch: LayerStep<KernelPlan> },
    /// Chunks and their merging.
    Split { plan: SplitPlan, p1: Operands<LayerOperand>, p2: Operands<LayerOperand> },
}

/// Everything that a layer runs for `[b, s, hs]`, in this order.
pub struct LayerPlan {
    /// Normalisation in front of the attention.
    pub input_norm: LayerStep<KernelPlan>,
    /// Fused projection.
    pub qkv: LayerStep<LinearPlan>,
    /// Queries taken out, keys and values written to the caches.
    pub extract: LayerStep<KernelPlan>,
    /// Positions in the caches after that.
    pub cur_len: usize,
    /// Attention.
    pub attention: AttentionPlan,
    /// Brings the heads of a token together, where they are not already.
    pub merge: Option<LayerStep<KernelPlan>>,
    /// Attention output, heads of a token next to each other.
    pub attn_flat: GpuTensor,
    /// Output projection, added to the residual stream.
    pub o_proj: LayerStep<GemmConfig>,
    /// Normalisation in front of the feed-forward part.
    pub post_norm: LayerStep<KernelPlan>,
    /// Fused gate and up projection.
    pub gate_up: LayerStep<LinearPlan>,
    /// Gated activation.
    pub activation: LayerStep<KernelPlan>,
    /// Down projection, added to the residual stream.
    pub down: LayerStep<GemmConfig>,
}

/// Keys, repeated out of their cache, or values out of theirs.
pub open spec fn is_repeat(
    plan: KernelPlan,
    layer: GpuDecoderLayer,
    b: usize,
    max_seq: usize,
    cur_len: usize,
) -> bool {
    let heads = layer.nkvh * layer.n_rep();
    &&& plan.launch.is(
        Kernel::RepeatKvFromCache,
        elementwise_config((b * heads * cur_len * layer.hd) as u32),
        seq![
            b as i32,
            layer.nkvh as i32,
            max_seq as i32,
            layer.hd as i32,
            layer.n_rep() as i32,
            cur_len as i32,
        ],
    )
    &&& plan.out@ == seq![b, heads as usize, cur_len, layer.hd]
}

impl AttentionPlan {
    /// The attention of `s` new tokens in a context of `cur_len` positions.
    pub open spec fn attends(
        self,
        layer: GpuDecoderLayer,
        b: usize,
        s: usize,
        max_seq: usize,
        cur_len: usize,
        causal: bool,
    ) -> bool {
        let nqh = layer.nqh;
        let hd = layer.hd;
        match (path_for(s as int, cur_len as int), self) {
            (
                AttentionPath::Prefill,
                AttentionPlan::Prefill { keys, values, scores, softmax, output },
            ) => {
                &&& is_repeat(keys.run, layer, b, max_seq, cur_len)
                &&& keys.takes(seq![LayerOperand::Keys], seq![LayerOperand::KeyCache])
                &&& is_repeat(values.run, layer, b, max_seq, cur_len)
                &&& values.takes(seq![LayerOperand::Values], seq![LayerOperand::ValueCache])
                &&& scores.run.gemm == qk_config(b, nqh, s, cur_len, hd)
                &&& scores.run.out@ == seq![b, nqh, s, cur_len]
                &&& scores.takes(
                    seq![LayerOperand::Scores],
                    seq![LayerOperand::Keys, LayerOperand::Query],
                )
                &&& softmax.run.launch.is(
                    Kernel::SoftmaxCausal,
                    reduction_config((b * nqh * s) as u32, 1, cur_len),
                    seq![
                        s as i32,
                        cur_len as i32,
                        if causal && s > 1 {
                            1i32
                        } else {
                            0i32
                        },
                    ],
                )
                &&& softmax.run.out@ == seq![b, nqh, s, cur_len]
                &&& softmax.takes(seq![LayerOperand::Weights], seq![LayerOperand::Scores])
                &&& output.run.gemm == av_config(b, nqh, s, cur_len, hd)
                &&& output.run.out@ == seq![b, nqh, s, hd]
                &&& output.takes(
                    seq![LayerOperand::Attended],
                    seq![LayerOperand::Values, LayerOperand::Weights],
                )
            },
            (AttentionPath::Decode, AttentionPlan::Decode { launch }) => {
                &&& is_decode(launch.run.launch, b, nqh, layer.nkvh, max_seq, hd, cur_len)
                &&& launch.run.out@ == seq![b, nqh, s, hd]
                &&& launch.takes(seq![LayerOperand::Attended], decode_operands())
            },
            (
                AttentionPath::DecodeSplit { chunk_size },
                AttentionPlan::Split { plan, p1, p2 },
            ) => {
                &&& plan.splits(b, nqh, layer.nkvh, max_seq, hd, cur_len, chunk_size)
                &&& p1.are(part_operands(), decode_operands())
                &&& p2.are(seq![LayerOperand::Attended], part_operands())
            },
            _ => false,
        }
    }
}

impl LayerPlan {
    /// What a layer runs for `[b, s, hs]` behind `kv_start` cached positions.
    pub open spec fn computes(
        self,
        layer: GpuDecoderLayer,
        b: usize,
        s: usize,
        max_seq: usize,
        kv_start: usize,
        causal: bool,
    ) -> bool {
        let x = seq![b, s, layer.hs];
        let flat = seq![b, s, (layer.nqh * layer.hd) as usize];
        &&& is_row_norm(self.input_norm.run.launch, Kernel::RmsNorm, x)
        &&& self.input_norm.run.out@ == x
        &&& self.input_norm.takes(
            seq![LayerOperand::Normed],
            seq![LayerOperand::Stream, LayerOperand::InputNorm],
        )
        &&& self.qkv.run.multiplies(x, layer.qkv_w)
        &&& self.qkv.takes(
            seq![LayerOperand::Qkv],
            seq![LayerOperand::QkvProj, LayerOperand::Normed],
        )
        &&& is_qkv_extract(
            self.extract.run.launch,
            b,
            s,
            layer.qkv_w.rows,
            layer.extract_at(max_seq, kv_start),
        )
        &&& self.extract.run.out@ == seq![b, layer.nqh, s, layer.hd]
        &&& self.extract.takes(decode_operands(), extract_operands())
        &&& self.cur_len == kv_start + s
        &&& self.attention.attends(layer, b, s, max_seq, self.cur_len, causal)
        &&& self.merge is Some <==> s != 1
        &&& self.merge matches Some(swap) ==> {
            &&& swap.run.launch.is(
                Kernel::SwapDims12,
                elementwise_config((b * layer.nqh * s * layer.hd) as u32),
                seq![b as i32, layer.nqh as i32, s as i32, layer.hd as i32],
            )
            &&& swap.run.out@ == seq![b, s, layer.nqh, layer.hd]
            &&& swap.takes(seq![LayerOperand::Merged], seq![LayerOperand::Attended])
        }
        &&& self.attn_flat@ == flat
        &&& self.o_proj.run == linear_config((b * s) as usize, layer.hs, flat.last(), true)
        &&& self.o_proj.takes(
            seq![LayerOperand::Stream],
            seq![
                LayerOperand::OutProj,
                if s == 1 {
                    LayerOperand::Attended
                } else {
                    LayerOperand::Merged
                },
            ],
        )
        &&& is_row_norm(self.post_norm.run.launch, Kernel::RmsNorm, x)
        &&& self.post_norm.run.out@ == x
        &&& self.post_norm.takes(
            seq![LayerOperand::NormedBehind],
            seq![LayerOperand::Stream, LayerOperand::PostNorm],
        )
        &&& self.gate_up.run.multiplies(x, layer.gu_w)
        &&& self.gate_up.takes(
            seq![LayerOperand::GateUp],
            seq![LayerOperand::GateUpProj, LayerOperand::NormedBehind],
        )
        &&& is_silu_mul_split(self.activation.run.launch, b * s, layer.gu_w.rows)
        &&& self.activation.run.out@ == seq![b, s, (layer.gu_w.rows / 2) as usize]
        &&& self.activation.takes(seq![LayerOperand::Activated], seq![LayerOperand::GateUp])
        &&& self.down.run == linear_config((b * s) as usize, layer.hs, layer.dp_w.cols, true)
        &&& self.down.takes(
            seq![LayerOperand::Stream],
            seq![LayerOperand::DownProj, LayerOperand::Activated],
        )
    }
}

/// The shape `[b, s, w]` taken apart, and what a product with `n` features makes
/// of it.
proof fn lemma_rows(b: usize, s: usize, w: usize, n: usize)
    ensures
        seq![b, s, w].last() == w,
        outer(seq![b, s, w]) == b * s,
        out_shape(seq![b, s, w], n) == seq![b, s, n],
{
    assert(seq![b, s, w].drop_last() =~= seq![b, s]);
    lemma_product3(b, s, w);
    assert(out_shape(seq![b, s, w], n) =~= seq![b, s, n]);
}

impl GpuDecoderLayer {
    /// Plans the layer for `x` of `[b, s, hs]` behind `kv_start` cached positions.
    pub fn forward(
        &self,
        cuda: &CudaState,
        x: &GpuTensor,
        max_seq: usize,
        kv_start: usize,
        use_causal: bool,
    ) -> (r: LayerPlan)
        requires
            self.matches(),
            x@.len() == 3,
            x@[2] == self.hs,
            self.fits(x@[0], x@[1], kv_start),
        ensures
            r.computes(*self, x@[0], x@[1], max_seq, kv_start, use_causal),
    {
        let b: usize = x.dim(0);
        let s: usize = x.dim(1);
        proof {
            assert(x@ =~= seq![b, s, self.hs]);
            lemma_rows(b, s, self.hs, self.qkv_w.rows);
            lemma_rows(b, s, self.hs, self.gu_w.rows);
            lemma_rows(b, s, self.gu_w.rows, (self.gu_w.rows / 2) as usize);
        }
        let input_norm = cuda.rms_norm(x);
        let qkv = cuda.linear_gpu(&input_norm.out, self.qkv_w);
        let q_dim: usize = self.nqh * self.hd;
        let kv_dim: usize = self.nkvh * self.hd;
        let at = QkvExtract {
            nqh: self.nqh,
            nkvh: self.nkvh,
            d: self.hd,
            q_dim,
            kv_dim,
            max_seq,
            start: kv_start,
            pos_offset: kv_start,
        };
        let extract = cuda.qkv_extract_qkv_norm_rotary_cache(&qkv.out, at);
        let cur_len: usize = kv_start + s;
        let attention = self.attend(cuda, &extract.out, b, s, max_seq, cur_len, use_causal);
        proof {
            lemma_product4(b, self.nqh, s, self.hd);
            lemma_product3(b, s, q_dim);
            lemma_product4(b, s, self.nqh, self.hd);
            assert(b * self.nqh * s * self.hd == b * s * (self.nqh * self.hd)) by (nonlinear_arith);
        }
        let flat_shape: Vec<usize> = vec![b, s, q_dim];
        assert(flat_shape@ =~= seq![b, s, q_dim]);
        let (merge, attn_flat): (Option<LayerStep<KernelPlan>>, GpuTensor) = if s == 1 {
            (None, extract.out.reshape(flat_shape))
        } else {
            let swap = cuda.swap_dims_12(&extract.out);
            let flat = swap.out.reshape(flat_shape);
            (Some(map_step(swap, LayerOperand::Merged, LayerOperand::Attended)), flat)
        };
        proof {
            lemma_rows(b, s, q_dim, self.hs);
            lemma_product3(b, s, self.hs);
        }
        let o_proj = cuda.linear_gpu_accum(x, &attn_flat, self.o_w);
        let post_norm = cuda.rms_norm(x);
        let gate_up = cuda.linear_gpu(&post_norm.out, self.gu_w);
        let activation = cuda.silu_mul_split(&gate_up.out);
        proof {
            lemma_rows(b, s, (self.gu_w.rows / 2) as usize, self.hs);
        }
        let down = cuda.linear_gpu_accum(x, &activation.out, self.dp_w);
        let attended = if s == 1 {
            LayerOperand::Attended
        } else {
            LayerOperand::Merged
        };
        LayerPlan {
            input_norm: norm_step(input_norm, LayerOperand::Normed, LayerOperand::InputNorm),
            qkv: product_step(
                qkv,
                LayerOperand::Qkv,
                LayerOperand::QkvProj,
                LayerOperand::Normed,
            ),
            extract: Step::new(extract, caches_and_queries(), projected()),
            cur_len,
            attention,
            merge,
            attn_flat,
            o_proj: product_step(o_proj, LayerOperand::Stream, LayerOperand::OutProj, attended),
            post_norm: norm_step(post_norm, LayerOperand::NormedBehind, LayerOperand::PostNorm),
            gate_up: product_step(
                gate_up,
                LayerOperand::GateUp,
                LayerOperand::GateUpProj,
                LayerOperand::NormedBehind,
            ),
            activation: map_step(activation, LayerOperand::Activated, LayerOperand::GateUp),
            down: product_step(
                down,
                LayerOperand::Stream,
                LayerOperand::DownProj,
                LayerOperand::Activated,
            ),
        }
    }

    fn attend(
        &self,
        cuda: &CudaState,
        q: &GpuTensor,
        b: usize,
        s: usize,
        max_seq: usize,
        cur_len: usize,
        use_causal: bool,
    ) -> (r: AttentionPlan)
        requires
            self.matches(),
            s <= cur_len,
            self.fits(b, s, (cur_len - s) as usize),
            q@ == seq![b, self.nqh, s, self.hd],
        ensures
            r.attends(*self, b, s, max_seq, cur_len, use_causal),
    {
        match attention_path(s, cur_len) {
            AttentionPath::Prefill => {
                let nr: usize = self.nqh / self.nkvh;
                proof {
                    crate::layout::lemma_join(self.nqh as int, self.nkvh as int);
                    assert(self.nkvh * nr == nr * self.nkvh) by (nonlinear_arith);
                }
                let keys = cuda.repeat_kv_from_cache(b, self.nkvh, max_seq, self.hd, nr, cur_len);
                let values = cuda.repeat_kv_from_cache(b, self.nkvh, max_seq, self.hd, nr, cur_len);
                let scores = cuda.attention_qk(q, &keys.out);
                let softmax = cuda.softmax_scaled_causal(&scores.out, use_causal && s > 1);
                let output = cuda.attention_av(&softmax.out, &values.out);
                AttentionPlan::Prefill {
                    keys: map_step(keys, LayerOperand::Keys, LayerOperand::KeyCache),
                    values: map_step(values, LayerOperand::Values, LayerOperand::ValueCache),
                    scores: product_step(
                        scores,
                        LayerOperand::Scores,
                        LayerOperand::Keys,
                        LayerOperand::Query,
                    ),
                    softmax: map_step(softmax, LayerOperand::Weights, LayerOperand::Scores),
                    output: product_step(
                        output,
                        LayerOperand::Attended,
                        LayerOperand::Values,
                        LayerOperand::Weights,
                    ),
                }
            },
            AttentionPath::Decode => {
                let launch = cuda.fused_gqa_decode(q, self.nkvh, max_seq, cur_len);
                AttentionPlan::Decode {
                    launch: Step::new(launch, vec![LayerOperand::Attended], caches_and_queries()),
                }
            },
            AttentionPath::DecodeSplit { chunk_size } => {
                proof {
                    lemma_product4(b, self.nqh, 1, self.hd);
                }
                let plan = cuda.fused_gqa_decode_split(q, self.nkvh, max_seq, cur_len, chunk_size);
                AttentionPlan::Split {
                    plan,
                    p1: Operands::new(parts(), caches_and_queries()),
                    p2: Operands::new(vec![LayerOperand::Attended], parts()),
                }
            },
        }
    }

    /// Plans the layer for one token of a single sequence, into buffers that are
    /// there already.
    pub fn forward_decode(
        &self,
        cuda: &CudaState,
        max_seq: usize,
        kv_start: usize,
        scratch: &DecodeScratch,
    ) -> (r: DecodeLayerPlan)
        requires
            self.matches(),
            kv_start < usize::MAX,
            max_seq + 255 <= usize::MAX,
            self.fits_step(kv_start, *scratch),
        ensures
            r.computes(*self, max_seq, kv_start, *scratch),
    {
        let hs: usize = self.hs;
        let input_norm = cuda.rms_norm_into_flat(hs, 1);
        let qkv = cuda.linear_gpu_into_flat(1, hs, self.qkv_w);
        let q_dim: usize = self.nqh * self.hd;
        let kv_dim: usize = self.nkvh * self.hd;
        let at = QkvExtract {
            nqh: self.nqh,
            nkvh: self.nkvh,
            d: self.hd,
            q_dim,
            kv_dim,
            max_seq,
            start: kv_start,
            pos_offset: kv_start,
        };
        let extract = cuda.qkv_extract_into(q_dim, kv_dim, at);
        let cur_len: usize = kv_start + 1;
        let attention: DecodeAttention = match attention_path(1, cur_len) {
            AttentionPath::DecodeSplit { chunk_size } => {
                let max_chunks: usize = (max_seq + 255) / 256;
                let (p1, p2) = cuda.fused_gqa_decode_split_into(
                    self.nkvh,
                    max_seq,
                    cur_len,
                    chunk_size,
                    max_chunks,
                );
                DecodeAttention::Split {
                    p1: Step::new(p1, parts(), caches_and_queries()),
                    p2: Step::new(p2, vec![LayerOperand::Attended], parts()),
                }
            },
            _ => DecodeAttention::Single {
                launch: Step::new(
                    cuda.fused_gqa_decode_into(
                        self.nqh,
                        self.nkvh,
                        max_seq,
                        cur_len,
                        scratch.attn_out,
                    ),
                    vec![LayerOperand::Attended],
                    caches_and_queries(),
                ),
            },
        };
        let o_proj = cuda.linear_gpu_accum_slice(self.o_w);
        let post_norm = cuda.rms_norm_into_flat(hs, 1);
        let gate_up = cuda.linear_gpu_into_flat(1, hs, self.gu_w);
        let activation = cuda.silu_mul_split_into(1, scratch.gate_up);
        let down = cuda.linear_gpu_accum_slice(self.dp_w);
        DecodeLayerPlan {
            input_norm: norm_step(input_norm, LayerOperand::Normed, LayerOperand::InputNorm),
            qkv: product_step(
                qkv,
                LayerOperand::Qkv,
                LayerOperand::QkvProj,
                LayerOperand::Normed,
            ),
            extract: Step::new(extract, caches_and_queries(), projected()),
            cur_len,
            attention,
            o_proj: product_step(
                o_proj,
                LayerOperand::Stream,
                LayerOperand::OutProj,
                LayerOperand::Attended,
            ),
            post_norm: norm_step(post_norm, LayerOperand::NormedBehind, LayerOperand::PostNorm),
            gate_up: product_step(
                gate_up,
                LayerOperand::GateUp,
                LayerOperand::GateUpProj,
                LayerOperand::NormedBehind,
            ),
            activation: map_step(activation, LayerOperand::Activated, LayerOperand::GateUp),
            down: product_step(
                down,
                LayerOperand::Stream,
                LayerOperand::DownProj,
                LayerOperand::Activated,
            ),
        }
    }
}

/// The attention step of a layer for one token.
pub enum DecodeAttention {
    /// One launch.
    Single { launch: LayerStep<Launch> },
    /// Chunks and their merging.
    Split { p1: LayerStep<Launch>, p2: LayerStep<Launch> },
}

/// Everything that a layer runs for one token, in this order.
pub struct DecodeLayerPlan {
    /// Normalisation in front of the attention.
    pub input_norm: LayerStep<Launch>,
    /// Fused projection.
    pub qkv: LayerStep<GemmConfig>,
    /// Queries taken out, keys and values written to the caches.
    pub extract: LayerStep<Launch>,
    /// Positions in the caches after that.
    pub cur_len: usize,
    /// Attention.
    pub attention: DecodeAttention,
    /// Output projection, added to the residual stream.
    pub o_proj: LayerStep<GemmConfig>,
    /// Normalisation in front of the feed-forward part.
    pub post_norm: LayerStep<Launch>,
    /// Fused gate and up projection.
    pub gate_up: LayerStep<GemmConfig>,
    /// Gated activation.
    pub activation: LayerStep<Launch>,
    /// Down projection, added to the residual stream.
    pub down: LayerStep<GemmConfig>,
}

impl DecodeLayerPlan {
    /// What a layer runs for one token behind `kv_start` cached positions.
    pub open spec fn computes(
        self,
        layer: GpuDecoderLayer,
        max_seq: usize,
        kv_start: usize,
        scratch: DecodeScratch,
    ) -> bool {
        let norm = reduction_config(1, 1, layer.hs);
        let norm_ints = seq![layer.hs as i32, 1i32];
        let cur_len = kv_start + 1;
        &&& self.input_norm.run.is(Kernel::RmsNorm, norm, norm_ints)
        &&& self.input_norm.takes(
            seq![LayerOperand::Normed],
            seq![LayerOperand::Stream, LayerOperand::InputNorm],
        )
        &&& self.qkv.run == linear_config(1, layer.qkv_w.rows, layer.hs, false)
        &&& self.qkv.takes(
            seq![LayerOperand::Qkv],
            seq![LayerOperand::QkvProj, LayerOperand::Normed],
        )
        &&& is_qkv_extract(
            self.extract.run,
            1,
            1,
            (layer.nqh * layer.hd + 2 * (layer.nkvh * layer.hd)) as usize,
            layer.extract_at(max_seq, kv_start),
        )
        &&& self.extract.takes(decode_operands(), extract_operands())
        &&& self.cur_len == cur_len
        &&& match (path_for(1, cur_len), self.attention) {
            (
                AttentionPath::DecodeSplit { chunk_size },
                DecodeAttention::Split { p1, p2 },
            ) => {
                &&& p1.run.is(
                    Kernel::FusedGqaDecodeSplitP1,
                    LaunchConfig {
                        grid_dim: (16, max_chunks(max_seq as int) as u32, 1),
                        block_dim: (256, 1, 1),
                        shared_mem_bytes: split_smem(chunk_size as int, 128) as u32,
                    },
                    split_ints(1, 16, layer.nkvh, max_seq, 128, cur_len as usize, chunk_size),
                )
                &&& p1.takes(part_operands(), decode_operands())
                &&& p2.run.is(
                    Kernel::FusedGqaDecodeSplitP2,
                    LaunchConfig {
                        grid_dim: (16, 1, 1),
                        block_dim: (128, 1, 1),
                        shared_mem_bytes: 0,
                    },
                    seq![
                        1i32,
                        16i32,
                        chunks_of(cur_len as int, chunk_size as int) as i32,
                        128i32,
                    ],
                )
                &&& p2.takes(seq![LayerOperand::Attended], part_operands())
            },
            (AttentionPath::Decode, DecodeAttention::Single { launch }) => {
                &&& is_decode(
                    launch.run,
                    1,
                    layer.nqh,
                    layer.nkvh,
                    max_seq,
                    (scratch.attn_out / layer.nqh) as usize,
                    cur_len as usize,
                )
                &&& launch.takes(seq![LayerOperand::Attended], decode_operands())
            },
            _ => false,
        }
        &&& self.o_proj.run == linear_config(1, layer.o_w.rows, layer.o_w.cols, true)
        &&& self.o_proj.takes(
            seq![LayerOperand::Stream],
            seq![LayerOperand::OutProj, LayerOperand::Attended],
        )
        &&& self.post_norm.run.is(Kernel::RmsNorm, norm, norm_ints)
        &&& self.post_norm.takes(
            seq![LayerOperand::NormedBehind],
            seq![LayerOperand::Stream, LayerOperand::PostNorm],
        )
        &&& self.gate_up.run == linear_config(1, layer.gu_w.rows, layer.hs, false)
        &&& self.gate_up.takes(
            seq![LayerOperand::GateUp],
            seq![LayerOperand::GateUpProj, LayerOperand::NormedBehind],
        )
        &&& is_silu_mul_split(self.activation.run, 1, scratch.gate_up)
        &&& self.activation.takes(seq![LayerOperand::Activated], seq![LayerOperand::GateUp])
        &&& self.down.run == linear_config(1, layer.dp_w.rows, layer.dp_w.cols, true)
        &&& self.down.takes(
            seq![LayerOperand::Stream],
            seq![LayerOperand::DownProj, LayerOperand::Activated],
        )
    }
}

/// Chunks that partial results are kept for: as many as the smaller chunk size
/// makes of the longest context.
pub open spec fn max_chunks(max_seq: int) -> int {
    (max_seq + 255) / 256
}

/// Sizes of a text decoder.
#[derive(Clone, Copy)]
pub struct DecoderConfig {
    pub hidden_size: usize,
    pub num_attention_heads: usize,
    pub num_key_value_heads: usize,
    pub head_dim: usize,
    pub intermediate_size: usize,
    pub vocab_size: usize,
}

/// Elements of the buffers that one decoding step reuses.
#[derive(Clone, Copy)]
pub struct DecodeScratch {
    pub norm1: usize,
    pub qkv: usize,
    pub q_out: usize,
    pub attn_out: usize,
    pub norm2: usize,
    pub gate_up: usize,
    pub activated: usize,
    pub split_part_out: usize,
    pub split_part_max: usize,
    pub split_part_sum: usize,
    pub embed_out: usize,
    pub final_norm: usize,
    pub logits: usize,
}

impl DecodeScratch {
    /// The sizes for contexts up to `max_seq` positions.
    pub open spec fn sized(self, max_seq: int, cfg: DecoderConfig) -> bool {
        let hs = cfg.hidden_size;
        let nqh = cfg.num_attention_heads;
        let hd = cfg.head_dim;
        &&& self.norm1 == hs
        &&& self.qkv == (nqh + 2 * cfg.num_key_value_heads) * hd
        &&& self.q_out == nqh * hd
        &&& self.attn_out == nqh * hd
        &&& self.norm2 == hs
        &&& self.gate_up == 2 * cfg.intermediate_size
        &&& self.activated == cfg.intermediate_size
        &&& self.split_part_out == nqh * max_chunks(max_seq) * hd
        &&& self.split_part_max == nqh * max_chunks(max_seq)
        &&& self.split_part_sum == nqh * max_chunks(max_seq)
        &&& self.embed_out == hs
        &&& self.final_norm == hs
        &&& self.logits == cfg.vocab_size
    }

    /// Sizes the buffers once for a whole generation.
    pub fn new(max_seq: usize, cfg: DecoderConfig) -> (r: Self)
        requires
            max_seq + 255 <= usize::MAX,
            cfg.num_attention_heads + 2 * cfg.num_key_value_heads <= usize::MAX,
            (cfg.num_attention_heads + 2 * cfg.num_key_value_heads) * cfg.head_dim <= usize::MAX,
            2 * cfg.intermediate_size <= usize::MAX,
            cfg.num_attention_heads * max_chunks(max_seq as int) <= usize::MAX,
            cfg.num_attention_heads * max_chunks(max_seq as int) * cfg.head_dim <= usize::MAX,
        ensures
            r.sized(max_seq as int, cfg),
    {
        let hs: usize = cfg.hidden_size;
        let nqh: usize = cfg.num_attention_heads;
        let nkvh: usize = cfg.num_key_value_heads;
        let hd: usize = cfg.head_dim;
        let inter: usize = cfg.intermediate_size;
        proof {
            lemma_monotone(nqh as int, hd as int, nqh + 2 * nkvh, hd as int);
            lemma_monotone(0, 0, nqh as int, max_chunks(max_seq as int));
        }
        let fused_qkv: usize = (nqh + 2 * nkvh) * hd;
        let chunks: usize = (max_seq + 255) / 256;
        let stats: usize = nqh * chunks;
        DecodeScratch {
            norm1: hs,
            qkv: fused_qkv,
            q_out: nqh * hd,
            attn_out: nqh * hd,
            norm2: hs,
            gate_up: 2 * inter,
            activated: inter,
            split_part_out: stats * hd,
            split_part_max: stats,
            split_part_sum: stats,
            embed_out: hs,
            final_norm: hs,
            logits: cfg.vocab_size,
        }
    }
}

/// However long the context gets, its chunks never outnumber the ones that
/// partial results are kept for.
pub proof fn law_chunks_within_scratch(cur_len: int, max_seq: int)
    requires
        0 <= cur_len <= max_seq,
    ensures
        chunks_of(cur_len, 256) <= max_chunks(max_seq),
        chunks_of(cur_len, 512) <= max_chunks(max_seq),
        chunks_of(cur_len, chunk_for(cur_len) as int) <= max_chunks(max_seq),
{
}

/// The chunks cover every position, and the last one is not empty.
pub proof fn law_chunks_cover(cur_len: int, chunk_size: int)
    requires
        0 < cur_len,
        chunk_size == 256 || chunk_size == 512,
    ensures
        (chunks_of(cur_len, chunk_size) - 1) * chunk_size < cur_len <= chunks_of(
            cur_len,
            chunk_size,
        ) * chunk_size,
{
}

proof fn lemma_partials_fit(n: int, m: int, nqh: int, hd: int)
    requires
        n <= m,
        nqh == 16,
        hd == 128,
    ensures
        16 * n <= nqh * m,
        16 * n * 128 <= nqh * m * hd,
{
    assert(nqh * m == 16 * m && nqh * m * hd == 2048 * m) by (nonlinear_arith)
        requires
            nqh == 16,
            hd == 128,
    ;
}

/// One decoding step of a layer writes only into buffers that are large enough,
/// so it never allocates. The chunked attention is made for 16 heads of width
/// 128, so for long contexts the model must have that many.
pub proof fn law_decode_step_fits_scratch(
    layer: GpuDecoderLayer,
    cfg: DecoderConfig,
    scratch: DecodeScratch,
    max_seq: int,
    cur_len: int,
)
    requires
        scratch.sized(max_seq, cfg),
        layer.matches(),
        layer.hs == cfg.hidden_size,
        layer.nqh == cfg.num_attention_heads,
        layer.nkvh == cfg.num_key_value_heads,
        layer.hd == cfg.head_dim,
        layer.qkv_w.rows == (cfg.num_attention_heads + 2 * cfg.num_key_value_heads) * cfg.head_dim,
        layer.gu_w.rows == 2 * cfg.intermediate_size,
        0 < cur_len <= max_seq,
        cur_len > SPLIT_THRESHOLD ==> layer.nqh == 16 && layer.hd == 128,
    ensures
        layer.hs <= scratch.norm1,
        layer.qkv_w.rows <= scratch.qkv,
        layer.nqh * layer.hd <= scratch.q_out,
        layer.nqh * layer.hd <= scratch.attn_out,
        scratch.attn_out as int / layer.nqh as int == layer.hd,
        layer.hs <= scratch.norm2,
        layer.gu_w.rows <= scratch.gate_up,
        layer.gu_w.rows / 2 <= scratch.activated,
        chunks_of(cur_len, chunk_for(cur_len) as int) <= max_chunks(max_seq),
        cur_len > SPLIT_THRESHOLD ==> 16 * chunks_of(cur_len, chunk_for(cur_len) as int) * 128
            <= scratch.split_part_out,
        cur_len > SPLIT_THRESHOLD ==> 16 * chunks_of(cur_len, chunk_for(cur_len) as int)
            <= scratch.split_part_max,
        cur_len > SPLIT_THRESHOLD ==> 16 * chunks_of(cur_len, chunk_for(cur_len) as int)
            <= scratch.split_part_sum,
{
    law_chunks_within_scratch(cur_len, max_seq);
    if cur_len > SPLIT_THRESHOLD {
        lemma_partials_fit(
            chunks_of(cur_len, chunk_for(cur_len) as int),
            max_chunks(max_seq),
            cfg.num_attention_heads as int,
            cfg.head_dim as int,
        );
    }
    assert(scratch.attn_out as int / layer.nqh as int == layer.hd) by {
        assert(layer.nqh * layer.hd == layer.hd * layer.nqh) by (nonlinear_arith);
        crate::layout::lemma_split(layer.hd as int, layer.nqh as int, 0);
    }
}

/// The single-launch attention is only used up to 1024 positions, so for heads
/// up to 1024 wide a block never needs more than eight kilobytes.
pub proof fn law_decode_smem_bounded(cur_len: int, d: int)
    requires
        0 <= cur_len <= SPLIT_THRESHOLD,
        0 < d <= 1024,
    ensures
        decode_smem(cur_len, d) <= 8192,
{
    let bs = decode_block(cur_len);
    let t = parts_at_once(bs, d);
    crate::layout::lemma_join(bs, d);
    assert(d * t <= 1024) by (nonlinear_arith)
        requires
            0 < d <= 1024,
            bs <= 1024,
            t == 1 || t == bs / d,
            (bs / d) * d + bs % d == bs,
            0 <= bs % d,
    ;
}

/// A row of a tensor: where it begins and how long it is.
#[derive(Clone, Copy)]
pub struct RowSlice {
    pub offset: usize,
    pub len: usize,
}

/// What the steps behind the layers of a decoder work on.
#[derive(Clone, Copy, PartialEq, Eq, Structural, Debug, Hash)]
pub enum HeadOperand {
    /// The residual stream.
    Stream,
    /// The stream, normalised.
    Normed,
    /// The last token of it.
    Last,
    /// Scores of the vocabulary.
    Logits,
    /// The token with the greatest score.
    Token,
    /// Weight of the normalisation.
    FinalNorm,
    /// Embeddings, which also score the vocabulary.
    Table,
}

/// A step behind the layers.
pub type HeadStep<R> = Step<HeadOperand, R>;

/// What follows the layers of a decoder, in this order.
pub struct HeadPlan {
    /// Normalisation of the residual stream.
    pub final_norm: HeadStep<KernelPlan>,
    /// The last token, where only that one is wanted and there are others.
    pub last: Option<HeadStep<RowSlice>>,
    /// Scores of the vocabulary.
    pub logits: HeadStep<LinearPlan>,
}

impl HeadPlan {
    /// What follows the layers for `[1, sl, hidden]`.
    pub open spec fn computes(
        self,
        sl: usize,
        hidden: usize,
        table: GpuWeight,
        last_only: bool,
    ) -> bool {
        let x = seq![1usize, sl, hidden];
        &&& is_row_norm(self.final_norm.run.launch, Kernel::RmsNorm, x)
        &&& self.final_norm.run.out@ == x
        &&& self.final_norm.takes(
            seq![HeadOperand::Normed],
            seq![HeadOperand::Stream, HeadOperand::FinalNorm],
        )
        &&& self.last is Some <==> last_only && sl > 1
        &&& self.last matches Some(row) ==> {
            &&& row.run.offset == (sl - 1) * hidden
            &&& row.run.len == hidden
            &&& row.takes(seq![HeadOperand::Last], seq![HeadOperand::Normed])
        }
        &&& self.logits.run.multiplies(
            if last_only && sl > 1 {
                seq![1usize, 1usize, hidden]
            } else {
                x
            },
            table,
        )
        &&& self.logits.takes(
            seq![HeadOperand::Logits],
            seq![
                HeadOperand::Table,
                if last_only && sl > 1 {
                    HeadOperand::Last
                } else {
                    HeadOperand::Normed
                },
            ],
        )
    }
}

fn final_norm_step<R>(run: R) -> (r: HeadStep<R>)
    ensures
        r.run == run,
        r.takes(
            seq![HeadOperand::Normed],
            seq![HeadOperand::Stream, HeadOperand::FinalNorm],
        ),
{
    Step::new(
        run,
        vec![HeadOperand::Normed],
        vec![HeadOperand::Stream, HeadOperand::FinalNorm],
    )
}

fn logits_step<R>(run: R, read: HeadOperand) -> (r: HeadStep<R>)
    ensures
        r.run == run,
        r.takes(seq![HeadOperand::Logits], seq![HeadOperand::Table, read]),
{
    Step::new(run, vec![HeadOperand::Logits], vec![HeadOperand::Table, read])
}

/// Plans what follows the layers: normalisation, the choice of the last token
/// and the scores of the vocabulary.
pub fn text_decoder_head(
    cuda: &CudaState,
    h: &GpuTensor,
    table: GpuWeight,
    llo: bool,
) -> (r: HeadPlan)
    requires
        h@.len() == 3,
        h@[0] == 1,
        h@[2] == table.cols,
        h@[1] * table.rows <= usize::MAX,
        h@[1] * h@[2] <= usize::MAX,
    ensures
        r.computes(h@[1], h@[2], table, llo),
{
    let (sl, hidden) = (h.dim(1), h.dim(2));
    proof {
        assert(h@ =~= seq![1usize, sl, hidden]);
        lemma_rows(1, sl, hidden, table.rows);
        lemma_rows(1, 1, hidden, table.rows);
        assert(1 * sl == sl);
        assert(1 * 1 == 1);
    }
    let final_norm = cuda.rms_norm(h);
    if llo && sl > 1 {
        proof {
            lemma_product3(1, 1, hidden);
            assert(1 * 1 * hidden == hidden) by (nonlinear_arith);
            lemma_monotone(sl - 1, hidden as int, sl as int, hidden as int);
            lemma_monotone(1, table.rows as int, sl as int, table.rows as int);
        }
        let offset: usize = (sl - 1) * hidden;
        let shape: Vec<usize> = vec![1usize, 1usize, hidden];
        assert(shape@ =~= seq![1usize, 1usize, hidden]);
        let row = GpuTensor::new(hidden, shape);
        let logits = cuda.linear_gpu(&row, table);
        let last = RowSlice { offset, len: hidden };
        HeadPlan {
            final_norm: final_norm_step(final_norm),
            last: Some(Step::new(last, vec![HeadOperand::Last], vec![HeadOperand::Normed])),
            logits: logits_step(logits, HeadOperand::Last),
        }
    } else {
        let logits = cuda.linear_gpu(&final_norm.out, table);
        HeadPlan {
            final_norm: final_norm_step(final_norm),
            last: None,
            logits: logits_step(logits, HeadOperand::Normed),
        }
    }
}

/// What follows the layers in a decoding step, in this order.
pub struct DecodeHeadPlan {
    /// Normalisation of the residual stream.
    pub final_norm: HeadStep<Launch>,
    /// Scores of the vocabulary.
    pub logits: HeadStep<GemmConfig>,
    /// The token with the greatest score, written to the first slot.
    pub argmax: HeadStep<Launch>,
}

impl DecodeHeadPlan {
    /// What follows the layers for one token.
    pub open spec fn computes(self, table: GpuWeight, scratch: DecodeScratch) -> bool {
        let hs = scratch.final_norm;
        &&& self.final_norm.run.is(
            Kernel::RmsNorm,
            reduction_config(1, 1, hs),
            seq![hs as i32, 1i32],
        )
        &&& self.final_norm.takes(
            seq![HeadOperand::Normed],
            seq![HeadOperand::Stream, HeadOperand::FinalNorm],
        )
        &&& self.logits.run == linear_config(1, table.rows, hs, false)
        &&& self.logits.takes(
            seq![HeadOperand::Logits],
            seq![HeadOperand::Table, HeadOperand::Normed],
        )
        &&& self.argmax.takes(seq![HeadOperand::Token], seq![HeadOperand::Logits])
        &&& self.argmax.run.is(
            Kernel::ArgmaxIntoSlot,
            LaunchConfig { grid_dim: (1, 1, 1), block_dim: (1024, 1, 1), shared_mem_bytes: 0 },
            seq![scratch.logits as i32, 0i32],
        )
    }
}

/// Plans what follows the layers in a decoding step.
pub fn decode_head(cuda: &CudaState, table: GpuWeight, scratch: &DecodeScratch) -> (r:
    DecodeHeadPlan)
    requires
        table.cols == scratch.final_norm,
    ensures
        r.computes(table, *scratch),
{
    let hs: usize = scratch.final_norm;
    let final_norm = cuda.rms_norm_into_flat(hs, 1);
    let logits = cuda.linear_gpu_into_flat(1, hs, table);
    let argmax = cuda.argmax_into_flat(scratch.logits, 0);
    DecodeHeadPlan {
        final_norm: final_norm_step(final_norm),
        logits: logits_step(logits, HeadOperand::Normed),
        argmax: Step::new(argmax, vec![HeadOperand::Token], vec![HeadOperand::Logits]),
    }
}

/// The caches of a generation: one for keys and one for values per layer.
#[derive(Clone, Copy)]
pub struct GpuKvCache {
    /// Layers.
    pub num_layers: usize,
    /// Elements of one cache.
    pub layer_len: usize,
    /// Positions filled.
    pub cur_len: usize,
    /// Positions there is room for.
    pub max_seq: usize,
    /// Sequences.
    pub b: usize,
    /// Key-value heads.
    pub nkvh: usize,
    /// Width of a head.
    pub d: usize,
}

impl GpuKvCache {
    /// The filled positions do not outnumber the room.
    pub open spec fn valid(self) -> bool {
        &&& self.layer_len == self.b * self.nkvh * self.max_seq * self.d
        &&& self.cur_len <= self.max_seq
    }

    /// Empty caches.
    pub fn new(num_layers: usize, b: usize, nkvh: usize, max_seq: usize, d: usize) -> (r: Self)
        requires
            countable(seq![b, nkvh, max_seq, d]),
        ensures
            r.valid(),
            r.cur_len == 0,
            r.num_layers == num_layers,
            (r.b, r.nkvh, r.max_seq, r.d) == (b, nkvh, max_seq, d),
    {
        proof {
            lemma_product4(b, nkvh, max_seq, d);
            lemma_monotone(0, 0, b as int, nkvh as int);
            lemma_monotone(0, 0, b * nkvh, max_seq as int);
            lemma_monotone(0, 0, b * nkvh * max_seq, d as int);
        }
        let layer_len: usize = b * nkvh * max_seq * d;
        GpuKvCache { num_layers, layer_len, cur_len: 0, max_seq, b, nkvh, d }
    }

    /// Records that `s` tokens were processed behind `kv_start` positions.
    pub fn advance(&mut self, kv_start: usize, s: usize)
        requires
            old(self).valid(),
            kv_start + s <= old(self).max_seq,
        ensures
            final(self).valid(),
            *final(self) == (GpuKvCache { cur_len: (kv_start + s) as usize, ..*old(self) }),
    {
        self.cur_len = kv_start + s;
    }
}

/// Weight shapes of a text decoder. The table of embeddings is also the one that
/// scores the vocabulary.
pub struct GpuTextDecoder {
    /// Embeddings, one row per token.
    pub embed_table: GpuWeight,
    /// The layers.
    pub layers: Vec<GpuDecoderLayer>,
}

/// Everything that a decoder runs for `[1, sl, hidden]`.
pub struct DecoderPlan {
    /// One plan per layer.
    pub layers: Vec<LayerPlan>,
    /// What follows the layers.
    pub head: HeadPlan,
}

/// Everything that a decoder runs for one token.
pub struct DecodeStepPlan {
    /// One plan per layer.
    pub layers: Vec<DecodeLayerPlan>,
    /// What follows the layers.
    pub head: DecodeHeadPlan,
}

impl DecoderPlan {
    /// What a decoder runs for `[1, sl, hidden]`: all of its layers, then what follows.
    pub open spec fn runs(
        self,
        decoder: GpuTextDecoder,
        sl: usize,
        max_seq: usize,
        kv_start: usize,
        causal: bool,
        last_only: bool,
    ) -> bool {
        &&& self.layers@.len() == decoder.layers@.len()
        &&& forall|i: int|
            0 <= i < decoder.layers@.len() ==> (#[trigger] self.layers@[i]).computes(
                decoder.layers@[i],
                1,
                sl,
                max_seq,
                kv_start,
                causal,
            )
        &&& self.head.computes(sl, decoder.embed_table.cols, decoder.embed_table, last_only)
    }
}

impl DecodeStepPlan {
    /// What a decoder runs for one token: all of its layers, then what follows.
    pub open spec fn runs(
        self,
        decoder: GpuTextDecoder,
        max_seq: usize,
        kv_start: usize,
        scratch: DecodeScratch,
    ) -> bool {
        &&& self.layers@.len() == decoder.layers@.len()
        &&& forall|i: int|
            0 <= i < decoder.layers@.len() ==> (#[trigger] self.layers@[i]).computes(
                decoder.layers@[i],
                max_seq,
                kv_start,
                scratch,
            )
        &&& self.head.computes(decoder.embed_table, scratch)
    }
}

impl GpuTextDecoder {
    /// Layers that work on the same residual stream as the embeddings.
    pub open spec fn matches(self) -> bool {
        forall|i: int|
            0 <= i < self.layers@.len() ==> #[trigger] self.layers@[i].matches()
                && self.layers@[i].hs == self.embed_table.cols
    }

    /// Plans the embeddings of `n` tokens.
    pub fn embed_ids(&self, cuda: &CudaState, n: usize) -> (r: KernelPlan)
        requires
            n * self.embed_table.cols <= usize::MAX,
        ensures
            r.launch.is(
                Kernel::EmbedLookup,
                (LaunchConfig {
                    grid_dim: (n as u32, 1, 1),
                    block_dim: (256, 1, 1),
                    shared_mem_bytes: 0,
                }),
                seq![n as i32, self.embed_table.cols as i32],
            ),
            r.out@ == seq![n, self.embed_table.cols],
    {
        cuda.embed_lookup(self.embed_table, n)
    }

    /// Plans the decoder for `hs` of `[1, sl, hidden]` behind `kv_start` cached
    /// positions, and records that its tokens are in the caches then.
    pub fn forward(
        &self,
        cuda: &CudaState,
        hs: &GpuTensor,
        kv: &mut GpuKvCache,
        kv_start: usize,
        use_causal: bool,
        llo: bool,
    ) -> (r: DecoderPlan)
        requires
            self.matches(),
            old(kv).valid(),
            hs@.len() == 3,
            hs@[0] == 1,
            hs@[2] == self.embed_table.cols,
            kv_start + hs@[1] <= old(kv).max_seq,
            forall|i: int|
                0 <= i < self.layers@.len() ==> #[trigger] self.layers@[i].fits(
                    1,
                    hs@[1],
                    kv_start,
                ),
            hs@[1] * self.embed_table.rows <= usize::MAX,
            hs@[1] * hs@[2] <= usize::MAX,
        ensures
            r.layers@.len() == self.layers@.len(),
            forall|i: int|
                0 <= i < self.layers@.len() ==> (#[trigger] r.layers@[i]).computes(
                    self.layers@[i],
                    1,
                    hs@[1],
                    old(kv).max_seq,
                    kv_start,
                    use_causal,
                ),
            r.head.computes(hs@[1], hs@[2], self.embed_table, llo),
            r.runs(*self, hs@[1], old(kv).max_seq, kv_start, use_causal, llo),
            final(kv).valid(),
            *final(kv) == (GpuKvCache { cur_len: (kv_start + hs@[1]) as usize, ..*old(kv) }),
    {
        let max_seq: usize = kv.max_seq;
        let sl: usize = hs.dim(1);
        let mut layers: Vec<LayerPlan> = Vec::new();
        let mut i: usize = 0;
        while i < self.layers.len()
            invariant
                i <= self.layers@.len(),
                self.matches(),
                hs@.len() == 3,
                hs@[0] == 1,
                hs@[2] == self.embed_table.cols,
                forall|j: int|
                    0 <= j < self.layers@.len() ==> #[trigger] self.layers@[j].fits(
                        1,
                        hs@[1],
                        kv_start,
                    ),
                layers@.len() == i,
                forall|j: int|
                    0 <= j < i ==> (#[trigger] layers@[j]).computes(
                        self.layers@[j],
                        1,
                        hs@[1],
                        max_seq,
                        kv_start,
                        use_causal,
                    ),
            decreases self.layers@.len() - i,
        {
            let layer: GpuDecoderLayer = self.layers[i];
            assert(self.layers@[i as int].matches());
            assert(self.layers@[i as int].fits(1, hs@[1], kv_start));
            let plan = layer.forward(cuda, hs, max_seq, kv_start, use_causal);
            layers.push(plan);
            i += 1;
        }
        kv.advance(kv_start, sl);
        let head = text_decoder_head(cuda, hs, self.embed_table, llo);
        DecoderPlan { layers, head }
    }

    /// Plans one decoding step of a single sequence, into buffers that are there
    /// already.
    pub fn forward_decode_scratch(
        &self,
        cuda: &CudaState,
        kv: &mut GpuKvCache,
        kv_start: usize,
        scratch: &DecodeScratch,
    ) -> (r: DecodeStepPlan)
        requires
            self.matches(),
            old(kv).valid(),
            kv_start < old(kv).max_seq,
            old(kv).max_seq + 255 <= usize::MAX,
            self.embed_table.cols == scratch.final_norm,
            forall|i: int|
                0 <= i < self.layers@.len() ==> #[trigger] self.layers@[i].fits_step(
                    kv_start,
                    *scratch,
                ),
        ensures
            r.layers@.len() == self.layers@.len(),
            forall|i: int|
                0 <= i < self.layers@.len() ==> (#[trigger] r.layers@[i]).computes(
                    self.layers@[i],
                    old(kv).max_seq,
                    kv_start,
                    *scratch,
                ),
            r.head.computes(self.embed_table, *scratch),
            r.runs(*self, old(kv).max_seq, kv_start, *scratch),
            final(kv).valid(),
            *final(kv) == (GpuKvCache { cur_len: (kv_start + 1) as usize, ..*old(kv) }),
    {
        let max_seq: usize = kv.max_seq;
        let mut layers: Vec<DecodeLayerPlan> = Vec::new();
        let mut i: usize = 0;
        while i < self.layers.len()
            invariant
                i <= self.layers@.len(),
                self.matches(),
                kv_start < max_seq,
                max_seq + 255 <= usize::MAX,
                forall|j: int|
                    0 <= j < self.layers@.len() ==> #[trigger] self.layers@[j].fits_step(
                        kv_start,
                        *scratch,
                    ),
                layers@.len() == i,
                forall|j: int|
                    0 <= j < i ==> (#[trigger] layers@[j]).computes(
                        self.layers@[j],
                        max_seq,
                        kv_start,
                        *scratch,
                    ),
            decreases self.layers@.len() - i,
        {
            let layer: GpuDecoderLayer = self.layers[i];
            assert(self.layers@[i as int].matches());
            assert(self.layers@[i as int].fits_step(kv_start, *scratch));
            let plan = layer.forward_decode(cuda, max_seq, kv_start, scratch);
            layers.push(plan);
            i += 1;
        }
        kv.advance(kv_start, 1);
        let head = decode_head(cuda, self.embed_table, scratch);
        DecodeStepPlan { layers, head }
    }
}

/// Which attention runs: full scores for any number of new tokens but one; for one, a single
/// launch up to 1024 positions, then parts of 256 and from 2048 positions on of 512.
pub proof fn law_attention_path(s: int, cur_len: int)
    ensures
        path_for(s, cur_len) is Prefill <==> s != 1,
        path_for(s, cur_len) is Decode <==> s == 1 && cur_len <= 1024,
        s == 1 && 1024 < cur_len < 2048 ==> path_for(s, cur_len) == (AttentionPath::DecodeSplit {
            chunk_size: 256,
        }),
        s == 1 && 2048 <= cur_len ==> path_for(s, cur_len) == (AttentionPath::DecodeSplit {
            chunk_size: 512,
        }),
{
}

} // verus!

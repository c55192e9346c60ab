//! What every GPU operation launches, on which shapes.
//!
//! A [`GpuTensor`] is the shape of a buffer on the device. The operations of
//! [`CudaState`] take shapes and answer with the launches and matrix products
//! that compute them and with the shape of the result, whose buffer has exactly
//! as many elements as its shape says.
use vstd::prelude::*;

use crate::chunking::conv_len;
use crate::device::{block_each, thread_each};
use crate::launch::{
    arg, block_for_reduction, compile_plan, elementwise, elementwise_config, reduction,
    reduction_block, reduction_config, CompilePlan, Kernel, Launch, LaunchConfig,
};
use crate::layout::lemma_monotone;
use crate::linear::{
    attention_av, attention_qk, av_config, lemma_out_shape, linear_config, linear_gemm, out_shape,
    qk_config, with_last, GemmConfig, StridedBatchedConfig,
};
use crate::tensor::{
    count, count_prefix, countable, lemma_countable_prefix, lemma_product3, lemma_product4, outer,
    product,
};

verus! {

/// The shape of a half-precision tensor on the device.
pub struct GpuTensor {
    shape: Vec<usize>,
}

impl View for GpuTensor {
    type V = Seq<usize>;

    closed spec fn view(&self) -> Seq<usize> {
        self.shape@
    }
}

impl GpuTensor {
    #[verifier::type_invariant]
    spec fn inv(self) -> bool {
        countable(self.shape@)
    }

    /// A buffer of `_len` elements under a shape that has as many.
    pub fn new(_len: usize, shape: Vec<usize>) -> (r: Self)
        requires
            countable(shape@),
            _len == product(shape@),
        ensures
            r@ == shape@,
    {
        GpuTensor { shape }
    }

    /// A fresh buffer for a shape.
    pub fn of_shape(shape: Vec<usize>) -> (r: Self)
        requires
            countable(shape@),
        ensures
            r@ == shape@,
    {
        GpuTensor { shape }
    }

    /// The dimensions.
    pub fn shape(&self) -> (r: &[usize])
        ensures
            r@ == self@,
    {
        self.shape.as_slice()
    }

    /// Number of elements.
    pub fn numel(&self) -> (r: usize)
        ensures
            r == product(self@),
            countable(self@),
    {
        proof {
            use_type_invariant(self);
        }
        count(self.shape.as_slice())
    }

    /// The same buffer under another shape.
    pub fn reshape(&self, shape: Vec<usize>) -> (r: Self)
        requires
            countable(shape@),
            product(self@) == product(shape@),
        ensures
            r@ == shape@,
    {
        GpuTensor { shape }
    }

    /// Dimension `i`.
    pub fn dim(&self, i: usize) -> (r: usize)
        requires
            i < self@.len(),
        ensures
            r == self@[i as int],
    {
        self.shape[i]
    }

    /// Number of rows: all dimensions but the last.
    pub fn outer(&self) -> (r: usize)
        requires
            0 < self@.len(),
        ensures
            r == outer(self@),
            countable(self@.drop_last()),
    {
        proof {
            use_type_invariant(self);
            lemma_countable_prefix(self.shape@, self.shape@.len() - 1);
        }
        assert(self.shape@.take(self.shape@.len() - 1) =~= self.shape@.drop_last());
        count_prefix(self.shape.as_slice(), self.shape.len() - 1)
    }

    /// Length of a row.
    pub fn last(&self) -> (r: usize)
        requires
            0 < self@.len(),
        ensures
            r == self@.last(),
    {
        self.shape[self.shape.len() - 1]
    }

    fn same_shape(&self) -> (r: Self)
        ensures
            r@ == self@,
    {
        proof {
            use_type_invariant(self);
        }
        GpuTensor { shape: vstd::slice::slice_to_vec(self.shape.as_slice()) }
    }
}

/// Shape of a weight matrix on the device.
#[derive(Clone, Copy)]
pub struct GpuWeight {
    /// Output features.
    pub rows: usize,
    /// Input features.
    pub cols: usize,
}

/// A matrix product and the shape of its result.
pub struct LinearPlan {
    /// The product.
    pub gemm: GemmConfig,
    /// The result.
    pub out: GpuTensor,
}

impl LinearPlan {
    /// The product of an `x` of the given shape with `w`.
    pub open spec fn multiplies(self, x: Seq<usize>, w: GpuWeight) -> bool {
        &&& self.gemm == linear_config(outer(x) as usize, w.rows, x.last(), false)
        &&& self.out@ == out_shape(x, w.rows)
    }
}

/// A batch of matrix products and the shape of its result.
pub struct BatchedPlan {
    /// The products.
    pub gemm: StridedBatchedConfig,
    /// The result.
    pub out: GpuTensor,
}

/// A launch and the shape of its result.
pub struct KernelPlan {
    /// The launch.
    pub launch: Launch,
    /// The result.
    pub out: GpuTensor,
}

/// The GPU as the operations see it: how its kernels are compiled.
pub struct CudaState {
    /// How the kernels are compiled.
    pub compile: CompilePlan,
}

/// Normalisation of every row of an `x` of the given shape.
pub open spec fn is_row_norm(l: Launch, kernel: Kernel, x: Seq<usize>) -> bool {
    l.is(
        kernel,
        reduction_config(outer(x) as u32, 1, x.last()),
        seq![x.last() as i32, outer(x) as i32],
    )
}

/// An elementwise launch that is told only the number of elements.
pub open spec fn is_flat(l: Launch, kernel: Kernel, n: int) -> bool {
    l.is(kernel, elementwise_config(n as u32), seq![n as i32])
}

/// The gated activation of `[gate | up]` rows.
pub open spec fn is_silu_mul_split(l: Launch, rows: int, two_inter: usize) -> bool {
    l.is(
        Kernel::SiluMulSplit,
        elementwise_config((rows * (two_inter / 2)) as u32),
        seq![rows as i32, (two_inter / 2) as i32],
    )
}

impl CudaState {
    /// The state of a device, given its compute capability and where the toolkit
    /// is installed.
    pub fn new_with_ctx(capability: Option<(i32, i32)>, cuda_path: Option<&str>) -> (r: Self)
        ensures
            r.compile.describes(capability, cuda_path),
    {
        CudaState { compile: compile_plan(capability, cuda_path) }
    }

    /// `x W^T`.
    pub fn linear_gpu(&self, x: &GpuTensor, w: GpuWeight) -> (r: LinearPlan)
        requires
            0 < x@.len(),
            x@.last() == w.cols,
            outer(x@) * w.rows <= usize::MAX,
        ensures
            r.multiplies(x@, w),
    {
        let m: usize = x.outer();
        proof {
            lemma_out_shape(x@, w.rows);
        }
        let gemm = linear_gemm(m, w.rows, w.cols, false);
        LinearPlan { gemm, out: GpuTensor::of_shape(with_last(x.shape(), w.rows)) }
    }

    /// `y += x W^T`.
    pub fn linear_gpu_accum(&self, y: &GpuTensor, x: &GpuTensor, w: GpuWeight) -> (r: GemmConfig)
        requires
            0 < x@.len(),
            x@.last() == w.cols,
            product(y@) == outer(x@) * w.rows,
        ensures
            r == linear_config(outer(x@) as usize, w.rows, x@.last(), true),
    {
        let m: usize = x.outer();
        linear_gemm(m, w.rows, w.cols, true)
    }

    /// `x W^T` on a flat buffer of `m` rows.
    pub fn linear_gpu_into_flat(&self, m: usize, k: usize, w: GpuWeight) -> (r: GemmConfig)
        requires
            k == w.cols,
        ensures
            r == linear_config(m, w.rows, k, false),
    {
        linear_gemm(m, w.rows, k, false)
    }

    /// `y += x W^T` for a single row.
    pub fn linear_gpu_accum_slice(&self, w: GpuWeight) -> (r: GemmConfig)
        ensures
            r == linear_config(1, w.rows, w.cols, true),
    {
        linear_gemm(1, w.rows, w.cols, true)
    }

    /// Attention scores: queries `[b, h, m, d]`, keys `[b, h, n, d]`.
    pub fn attention_qk(&self, q: &GpuTensor, k: &GpuTensor) -> (r: BatchedPlan)
        requires
            q@.len() == 4,
            k@.len() == 4,
            countable(seq![q@[0], q@[1], q@[2], k@[2]]),
            k@[2] * q@[3] <= usize::MAX,
            q@[2] * q@[3] <= usize::MAX,
            q@[2] * k@[2] <= usize::MAX,
        ensures
            r.gemm == qk_config(q@[0], q@[1], q@[2], k@[2], q@[3]),
            r.out@ == seq![q@[0], q@[1], q@[2], k@[2]],
    {
        let b: usize = q.dim(0);
        let h: usize = q.dim(1);
        let m: usize = q.dim(2);
        let d: usize = q.dim(3);
        let n: usize = k.dim(2);
        proof {
            lemma_product4(b, h, m, n);
        }
        let shape: Vec<usize> = vec![b, h, m, n];
        assert(shape@ =~= seq![b, h, m, n]);
        BatchedPlan { gemm: attention_qk(b, h, m, n, d), out: GpuTensor::of_shape(shape) }
    }

    /// Attention outputs: weights `[b, h, m, n]`, values `[b, h, n, d]`.
    pub fn attention_av(&self, attn: &GpuTensor, v: &GpuTensor) -> (r: BatchedPlan)
        requires
            attn@.len() == 4,
            v@.len() == 4,
            countable(seq![attn@[0], attn@[1], attn@[2], v@[3]]),
            attn@[3] * v@[3] <= usize::MAX,
            attn@[2] * v@[3] <= usize::MAX,
            attn@[2] * attn@[3] <= usize::MAX,
        ensures
            r.gemm == av_config(attn@[0], attn@[1], attn@[2], attn@[3], v@[3]),
            r.out@ == seq![attn@[0], attn@[1], attn@[2], v@[3]],
    {
        let b: usize = attn.dim(0);
        let h: usize = attn.dim(1);
        let m: usize = attn.dim(2);
        let n: usize = attn.dim(3);
        let d: usize = v.dim(3);
        proof {
            lemma_product4(b, h, m, d);
        }
        let shape: Vec<usize> = vec![b, h, m, d];
        assert(shape@ =~= seq![b, h, m, d]);
        BatchedPlan { gemm: attention_av(b, h, m, n, d), out: GpuTensor::of_shape(shape) }
    }

    fn row_norm(&self, kernel: Kernel, x: &GpuTensor) -> (r: KernelPlan)
        requires
            0 < x@.len(),
        ensures
            is_row_norm(r.launch, kernel, x@),
            r.out@ == x@,
    {
        let rows: usize = x.outer();
        let last: usize = x.last();
        let ints: Vec<i32> = vec![arg(last), arg(rows)];
        assert(ints@ =~= seq![last as i32, rows as i32]);
        KernelPlan { launch: reduction(kernel, rows, 1, last, ints), out: x.same_shape() }
    }

    /// Root-mean-square normalisation of every row.
    pub fn rms_norm(&self, x: &GpuTensor) -> (r: KernelPlan)
        requires
            0 < x@.len(),
        ensures
            is_row_norm(r.launch, Kernel::RmsNorm, x@),
            r.out@ == x@,
    {
        self.row_norm(Kernel::RmsNorm, x)
    }

    /// Adds to the residual, then normalises every row of it.
    pub fn add_residual_rms_norm(&self, residual: &GpuTensor) -> (r: KernelPlan)
        requires
            0 < residual@.len(),
        ensures
            is_row_norm(r.launch, Kernel::AddResidualRmsNorm, residual@),
            r.out@ == residual@,
    {
        self.row_norm(Kernel::AddResidualRmsNorm, residual)
    }

    /// Root-mean-square normalisation of `rows` rows of a flat buffer.
    pub fn rms_norm_into_flat(&self, last: usize, rows: usize) -> (r: Launch)
        ensures
            r.is(
                Kernel::RmsNorm,
                reduction_config(rows as u32, 1, last),
                seq![last as i32, rows as i32],
            ),
    {
        let ints: Vec<i32> = vec![arg(last), arg(rows)];
        assert(ints@ =~= seq![last as i32, rows as i32]);
        reduction(Kernel::RmsNorm, rows, 1, last, ints)
    }

    /// Layer normalisation of every row; a block keeps two sums per thread.
    pub fn layer_norm(&self, x: &GpuTensor) -> (r: KernelPlan)
        requires
            0 < x@.len(),
        ensures
            r.launch.is(
                Kernel::LayerNorm,
                (LaunchConfig {
                    shared_mem_bytes: (reduction_block(x@.last() as u32) * 4 * 2) as u32,
                    ..reduction_config(outer(x@) as u32, 1, x@.last())
                }),
                seq![x@.last() as i32, outer(x@) as i32],
            ),
            r.out@ == x@,
    {
        let mut plan = self.row_norm(Kernel::LayerNorm, x);
        let bs: u32 = block_for_reduction(x.last());
        plan.launch.config.shared_mem_bytes = bs * 4 * 2;
        plan
    }

    fn flat(&self, kernel: Kernel, x: &GpuTensor) -> (r: Launch)
        ensures
            is_flat(r, kernel, product(x@)),
    {
        let n: usize = x.numel();
        let ints: Vec<i32> = vec![arg(n)];
        assert(ints@ =~= seq![n as i32]);
        elementwise(kernel, n, ints)
    }

    /// The sum of two tensors of the same shape.
    pub fn add(&self, a: &GpuTensor) -> (r: KernelPlan)
        ensures
            is_flat(r.launch, Kernel::Add, product(a@)),
            r.out@ == a@,
    {
        KernelPlan { launch: self.flat(Kernel::Add, a), out: a.same_shape() }
    }

    /// Adds to a tensor.
    pub fn add_inplace(&self, a: &GpuTensor) -> (r: Launch)
        ensures
            is_flat(r, Kernel::AddInplace, product(a@)),
    {
        self.flat(Kernel::AddInplace, a)
    }

    /// Applies the activation of the audio encoder to a tensor.
    pub fn gelu_inplace(&self, x: &GpuTensor) -> (r: Launch)
        ensures
            is_flat(r, Kernel::GeluInplace, product(x@)),
    {
        self.flat(Kernel::GeluInplace, x)
    }

    /// Adds a bias to every row.
    pub fn add_bias_inplace(&self, x: &GpuTensor) -> (r: Launch)
        requires
            0 < x@.len(),
        ensures
            r.is(
                Kernel::AddBiasInplace,
                elementwise_config(product(x@) as u32),
                seq![outer(x@) as i32, x@.last() as i32],
            ),
    {
        let rows: usize = x.outer();
        let last: usize = x.last();
        let n: usize = x.numel();
        let ints: Vec<i32> = vec![arg(rows), arg(last)];
        assert(ints@ =~= seq![rows as i32, last as i32]);
        elementwise(Kernel::AddBiasInplace, n, ints)
    }

    /// The gated activation of a tensor of `[gate | up]` rows.
    pub fn silu_mul_split(&self, gu: &GpuTensor) -> (r: KernelPlan)
        requires
            0 < gu@.len(),
        ensures
            is_silu_mul_split(r.launch, outer(gu@), gu@.last()),
            r.out@ == out_shape(gu@, (gu@.last() / 2) as usize),
    {
        let rows: usize = gu.outer();
        let two_inter: usize = gu.last();
        let inter: usize = two_inter / 2;
        let n: usize = gu.numel();
        proof {
            lemma_monotone(rows as int, inter as int, rows as int, two_inter as int);
            lemma_out_shape(gu@, inter);
        }
        let shape = with_last(gu.shape(), inter);
        KernelPlan {
            launch: self.silu_mul_split_into(rows, two_inter),
            out: GpuTensor::of_shape(shape),
        }
    }

    /// The gated activation of `rows` rows of a flat buffer.
    pub fn silu_mul_split_into(&self, rows: usize, two_inter: usize) -> (r: Launch)
        requires
            rows * (two_inter / 2) <= usize::MAX,
        ensures
            is_silu_mul_split(r, rows as int, two_inter),
    {
        let inter: usize = two_inter / 2;
        let total: usize = rows * inter;
        let ints: Vec<i32> = vec![arg(rows), arg(inter)];
        assert(ints@ =~= seq![rows as i32, inter as i32]);
        elementwise(Kernel::SiluMulSplit, total, ints)
    }

    /// Scaled softmax of `[b, h, m, n]` scores, causal where asked.
    pub fn softmax_scaled_causal(&self, scores: &GpuTensor, causal: bool) -> (r: KernelPlan)
        requires
            scores@.len() == 4,
        ensures
            r.launch.is(
                Kernel::SoftmaxCausal,
                reduction_config(
                    (scores@[0] * scores@[1] * scores@[2]) as u32,
                    1,
                    scores@[3],
                ),
                seq![
                    scores@[2] as i32,
                    scores@[3] as i32,
                    if causal {
                        1i32
                    } else {
                        0i32
                    },
                ],
            ),
            r.out@ == scores@,
    {
        let rows: usize = scores.outer();
        let b: usize = scores.dim(0);
        let h: usize = scores.dim(1);
        let m: usize = scores.dim(2);
        let n: usize = scores.dim(3);
        proof {
            assert(scores@.drop_last() =~= seq![b, h, m]);
            lemma_product3(b, h, m);
        }
        let causal_i: i32 = if causal {
            1
        } else {
            0
        };
        let ints: Vec<i32> = vec![arg(m), arg(n), causal_i];
        assert(ints@ =~= seq![m as i32, n as i32, causal_i]);
        KernelPlan {
            launch: reduction(Kernel::SoftmaxCausal, rows, 1, n, ints),
            out: scores.same_shape(),
        }
    }

    /// Rotary embedding of `[b, h, s, d]`.
    pub fn rotary_emb(&self, x: &GpuTensor, pos_offset: usize) -> (r: KernelPlan)
        requires
            x@.len() == 4,
        ensures
            r.launch.is(
                Kernel::RotaryEmb,
                elementwise_config(product(x@) as u32),
                seq![
                    x@[0] as i32,
                    x@[1] as i32,
                    x@[2] as i32,
                    x@[3] as i32,
                    pos_offset as i32,
                ],
            ),
            r.out@ == x@,
            product(x@) <= i32::MAX ==> thread_each(r.launch, product(x@)),
    {
        let n: usize = x.numel();
        let ints: Vec<i32> = vec![
            arg(x.dim(0)),
            arg(x.dim(1)),
            arg(x.dim(2)),
            arg(x.dim(3)),
            arg(pos_offset),
        ];
        assert(ints@ =~= seq![
            x@[0] as i32,
            x@[1] as i32,
            x@[2] as i32,
            x@[3] as i32,
            pos_offset as i32,
        ]);
        KernelPlan { launch: elementwise(Kernel::RotaryEmb, n, ints), out: x.same_shape() }
    }

    /// Normalisation of every head followed by the rotary embedding.
    pub fn rms_norm_rotary(&self, x: &GpuTensor, pos_offset: usize) -> (r: KernelPlan)
        requires
            x@.len() == 4,
        ensures
            r.launch.is(
                Kernel::RmsNormRotary,
                reduction_config((x@[0] * x@[1] * x@[2]) as u32, 1, x@[3]),
                seq![
                    x@[0] as i32,
                    x@[1] as i32,
                    x@[2] as i32,
                    x@[3] as i32,
                    pos_offset as i32,
                ],
            ),
            r.out@ == x@,
            x@[0] * x@[1] * x@[2] <= i32::MAX && x@[3] <= 1024 ==> block_each(
                r.launch,
                x@[0] * x@[1] * x@[2],
                1,
                1,
            ),
    {
        let rows: usize = x.outer();
        let d: usize = x.dim(3);
        proof {
            assert(x@.drop_last() =~= seq![x@[0], x@[1], x@[2]]);
            lemma_product3(x@[0], x@[1], x@[2]);
        }
        let ints: Vec<i32> = vec![
            arg(x.dim(0)),
            arg(x.dim(1)),
            arg(x.dim(2)),
            arg(d),
            arg(pos_offset),
        ];
        assert(ints@ =~= seq![
            x@[0] as i32,
            x@[1] as i32,
            x@[2] as i32,
            x@[3] as i32,
            pos_offset as i32,
        ]);
        KernelPlan { launch: reduction(Kernel::RmsNormRotary, rows, 1, d, ints), out: x.same_shape() }
    }

    /// A dense copy of the first `cur_len` positions of a cache, every
    /// key-value head repeated `n_rep` times.
    pub fn repeat_kv_from_cache(
        &self,
        b: usize,
        nkvh: usize,
        max_seq: usize,
        d: usize,
        n_rep: usize,
        cur_len: usize,
    ) -> (r: KernelPlan)
        requires
            nkvh * n_rep <= usize::MAX,
            countable(seq![b, (nkvh * n_rep) as usize, cur_len, d]),
        ensures
            r.launch.is(
                Kernel::RepeatKvFromCache,
                elementwise_config((b * (nkvh * n_rep) * cur_len * d) as u32),
                seq![
                    b as i32,
                    nkvh as i32,
                    max_seq as i32,
                    d as i32,
                    n_rep as i32,
                    cur_len as i32,
                ],
            ),
            r.out@ == seq![b, (nkvh * n_rep) as usize, cur_len, d],
    {
        let nqh: usize = nkvh * n_rep;
        proof {
            lemma_product4(b, nqh, cur_len, d);
        }
        let shape: Vec<usize> = vec![b, nqh, cur_len, d];
        assert(shape@ =~= seq![b, nqh, cur_len, d]);
        let out = GpuTensor::of_shape(shape);
        let total: usize = out.numel();
        let ints: Vec<i32> = vec![
            arg(b),
            arg(nkvh),
            arg(max_seq),
            arg(d),
            arg(n_rep),
            arg(cur_len),
        ];
        assert(ints@ =~= seq![
            b as i32,
            nkvh as i32,
            max_seq as i32,
            d as i32,
            n_rep as i32,
            cur_len as i32,
        ]);
        KernelPlan { launch: elementwise(Kernel::RepeatKvFromCache, total, ints), out }
    }

    /// The embeddings of `n` tokens.
    pub fn embed_lookup(&self, table: GpuWeight, n: usize) -> (r: KernelPlan)
        requires
            n * table.cols <= usize::MAX,
        ensures
            r.launch.is(
                Kernel::EmbedLookup,
                (LaunchConfig {
                    grid_dim: (n as u32, 1, 1),
                    block_dim: (256, 1, 1),
                    shared_mem_bytes: 0,
                }),
                seq![n as i32, table.cols as i32],
            ),
            r.out@ == seq![n, table.cols],
    {
        let d: usize = table.cols;
        proof {
            lemma_product3(n, d, 1);
        }
        let shape: Vec<usize> = vec![n, d];
        assert(shape@ =~= seq![n, d]);
        let config = LaunchConfig {
            grid_dim: (
                #[verifier::truncate]
                (n as u32),
                1,
                1,
            ),
            block_dim: (256, 1, 1),
            shared_mem_bytes: 0,
        };
        let ints: Vec<i32> = vec![arg(n), arg(d)];
        assert(ints@ =~= seq![n as i32, d as i32]);
        KernelPlan {
            launch: Launch { kernel: Kernel::EmbedLookup, config, ints },
            out: GpuTensor::of_shape(shape),
        }
    }

    /// The embedding of the token in a slot on the device, one thread per number
    /// up to 1024.
    pub fn embed_id_from_gpu_slot_into(&self, table: GpuWeight, slot: usize) -> (r: Launch)
        ensures
            r.is(
                Kernel::EmbedLookupSingleI32,
                (LaunchConfig {
                    grid_dim: (1, 1, 1),
                    block_dim: (
                        if (table.cols as u32) < 1024 {
                            table.cols as u32
                        } else {
                            1024
                        },
                        1,
                        1,
                    ),
                    shared_mem_bytes: 0,
                }),
                seq![slot as i32, table.cols as i32],
            ),
    {
        let wide: u32 = #[verifier::truncate] (table.cols as u32);
        let bs: u32 = if wide < 1024 {
            wide
        } else {
            1024
        };
        let config = LaunchConfig {
            grid_dim: (1, 1, 1),
            block_dim: (bs, 1, 1),
            shared_mem_bytes: 0,
        };
        let ints: Vec<i32> = vec![arg(slot), arg(table.cols)];
        assert(ints@ =~= seq![slot as i32, table.cols as i32]);
        Launch { kernel: Kernel::EmbedLookupSingleI32, config, ints }
    }

    /// The position of the greatest element.
    pub fn argmax(&self, x: &GpuTensor) -> (r: Launch)
        ensures
            r.is(
                Kernel::Argmax,
                (LaunchConfig {
                    grid_dim: (1, 1, 1),
                    block_dim: (1024, 1, 1),
                    shared_mem_bytes: 0,
                }),
                seq![product(x@) as i32],
            ),
    {
        let n: usize = x.numel();
        let ints: Vec<i32> = vec![arg(n)];
        assert(ints@ =~= seq![n as i32]);
        Launch {
            kernel: Kernel::Argmax,
            config: LaunchConfig {
                grid_dim: (1, 1, 1),
                block_dim: (1024, 1, 1),
                shared_mem_bytes: 0,
            },
            ints,
        }
    }

    /// The position of the greatest of `n` elements, written to a slot.
    pub fn argmax_into_flat(&self, n: usize, slot: usize) -> (r: Launch)
        ensures
            r.is(
                Kernel::ArgmaxIntoSlot,
                (LaunchConfig {
                    grid_dim: (1, 1, 1),
                    block_dim: (1024, 1, 1),
                    shared_mem_bytes: 0,
                }),
                seq![n as i32, slot as i32],
            ),
    {
        let ints: Vec<i32> = vec![arg(n), arg(slot)];
        assert(ints@ =~= seq![n as i32, slot as i32]);
        Launch {
            kernel: Kernel::ArgmaxIntoSlot,
            config: LaunchConfig {
                grid_dim: (1, 1, 1),
                block_dim: (1024, 1, 1),
                shared_mem_bytes: 0,
            },
            ints,
        }
    }

    /// `[d0, d1, d2, d3]` as `[d0, d2, d1, d3]`.
    pub fn swap_dims_12(&self, x: &GpuTensor) -> (r: KernelPlan)
        requires
            x@.len() == 4,
            x@[0] * x@[2] <= usize::MAX,
        ensures
            r.launch.is(
                Kernel::SwapDims12,
                elementwise_config(product(x@) as u32),
                seq![x@[0] as i32, x@[1] as i32, x@[2] as i32, x@[3] as i32],
            ),
            r.out@ == seq![x@[0], x@[2], x@[1], x@[3]],
            product(r.out@) == product(x@),
    {
        let (d0, d1, d2, d3) = (x.dim(0), x.dim(1), x.dim(2), x.dim(3));
        let n: usize = x.numel();
        proof {
            assert(x@ =~= seq![d0, d1, d2, d3]);
            lemma_product4(d0, d1, d2, d3);
            lemma_product4(d0, d2, d1, d3);
            assert(d0 * d2 * d1 == d0 * d1 * d2) by (nonlinear_arith);
        }
        let shape: Vec<usize> = vec![d0, d2, d1, d3];
        assert(shape@ =~= seq![d0, d2, d1, d3]);
        let ints: Vec<i32> = vec![arg(d0), arg(d1), arg(d2), arg(d3)];
        assert(ints@ =~= seq![d0 as i32, d1 as i32, d2 as i32, d3 as i32]);
        KernelPlan {
            launch: elementwise(Kernel::SwapDims12, n, ints),
            out: GpuTensor::new(n, shape),
        }
    }

    /// One group of `h` heads out of fused `[b, s, total]` projections.
    pub fn qkv_split(&self, qkv: &GpuTensor, h: usize, d: usize, offset: usize) -> (r: KernelPlan)
        requires
            qkv@.len() == 3,
            countable(seq![qkv@[0], h, qkv@[1], d]),
        ensures
            r.launch.is(
                Kernel::QkvSplit,
                elementwise_config((qkv@[0] * h * qkv@[1] * d) as u32),
                seq![
                    qkv@[0] as i32,
                    qkv@[1] as i32,
                    h as i32,
                    d as i32,
                    qkv@[2] as i32,
                    offset as i32,
                ],
            ),
            r.out@ == seq![qkv@[0], h, qkv@[1], d],
            product(r.out@) <= i32::MAX ==> thread_each(r.launch, product(r.out@)),
    {
        let (b, sl, total_cols) = (qkv.dim(0), qkv.dim(1), qkv.dim(2));
        proof {
            lemma_product4(b, h, sl, d);
        }
        let shape: Vec<usize> = vec![b, h, sl, d];
        assert(shape@ =~= seq![b, h, sl, d]);
        let out = GpuTensor::of_shape(shape);
        let n: usize = out.numel();
        let ints: Vec<i32> = vec![
            arg(b),
            arg(sl),
            arg(h),
            arg(d),
            arg(total_cols),
            arg(offset),
        ];
        assert(ints@ =~= seq![
            b as i32,
            sl as i32,
            h as i32,
            d as i32,
            total_cols as i32,
            offset as i32,
        ]);
        KernelPlan { launch: elementwise(Kernel::QkvSplit, n, ints), out }
    }

    /// The query heads out of fused projections, normalised and rotated.
    pub fn qkv_extract_q_norm_rotary(
        &self,
        qkv: &GpuTensor,
        nqh: usize,
        d: usize,
        pos_offset: usize,
    ) -> (r: KernelPlan)
        requires
            qkv@.len() == 3,
            countable(seq![qkv@[0], nqh, qkv@[1], d]),
        ensures
            r.launch.is(
                Kernel::QkvExtractQNormRotary,
                reduction_config((qkv@[0] * nqh * qkv@[1]) as u32, 1, d),
                seq![
                    qkv@[0] as i32,
                    nqh as i32,
                    qkv@[1] as i32,
                    d as i32,
                    qkv@[2] as i32,
                    pos_offset as i32,
                ],
            ),
            r.out@ == seq![qkv@[0], nqh, qkv@[1], d],
            qkv@[0] * nqh * qkv@[1] <= i32::MAX && d <= 1024 ==> block_each(
                r.launch,
                qkv@[0] * nqh * qkv@[1],
                1,
                1,
            ),
    {
        let (b, sl, total_cols) = (qkv.dim(0), qkv.dim(1), qkv.dim(2));
        proof {
            lemma_product4(b, nqh, sl, d);
            lemma_monotone(0, 0, b as int, nqh as int);
        }
        let shape: Vec<usize> = vec![b, nqh, sl, d];
        assert(shape@ =~= seq![b, nqh, sl, d]);
        let rows: usize = b * nqh * sl;
        let ints: Vec<i32> = vec![
            arg(b),
            arg(nqh),
            arg(sl),
            arg(d),
            arg(total_cols),
            arg(pos_offset),
        ];
        assert(ints@ =~= seq![
            b as i32,
            nqh as i32,
            sl as i32,
            d as i32,
            total_cols as i32,
            pos_offset as i32,
        ]);
        KernelPlan {
            launch: reduction(Kernel::QkvExtractQNormRotary, rows, 1, d, ints),
            out: GpuTensor::of_shape(shape),
        }
    }

    /// The keys, normalised and rotated, and the values out of fused
    /// projections, written to their caches.
    pub fn qkv_extract_kv_norm_rotary_cache(
        &self,
        qkv: &GpuTensor,
        nkvh: usize,
        d: usize,
        q_dim: usize,
        kv_dim: usize,
        max_seq: usize,
        start: usize,
        pos_offset: usize,
    ) -> (r: Launch)
        requires
            qkv@.len() == 3,
            qkv@[0] * nkvh <= usize::MAX,
            qkv@[0] * nkvh * qkv@[1] <= usize::MAX,
        ensures
            r.is(
                Kernel::QkvExtractKvNormRotaryCache,
                reduction_config((qkv@[0] * nkvh * qkv@[1]) as u32, 1, d),
                seq![
                    qkv@[0] as i32,
                    nkvh as i32,
                    qkv@[1] as i32,
                    d as i32,
                    qkv@[2] as i32,
                    q_dim as i32,
                    kv_dim as i32,
                    max_seq as i32,
                    start as i32,
                    pos_offset as i32,
                ],
            ),
            qkv@[0] * nkvh * qkv@[1] <= i32::MAX && d <= 1024 ==> block_each(
                r,
                qkv@[0] * nkvh * qkv@[1],
                1,
                1,
            ),
    {
        let (b, sl, total_cols) = (qkv.dim(0), qkv.dim(1), qkv.dim(2));
        proof {
            lemma_monotone(0, 0, b as int, nkvh as int);
            lemma_monotone(0, 0, b * nkvh, sl as int);
        }
        let rows: usize = b * nkvh * sl;
        let ints: Vec<i32> = vec![
            arg(b),
            arg(nkvh),
            arg(sl),
            arg(d),
            arg(total_cols),
            arg(q_dim),
            arg(kv_dim),
            arg(max_seq),
            arg(start),
            arg(pos_offset),
        ];
        assert(ints@ =~= seq![
            b as i32,
            nkvh as i32,
            sl as i32,
            d as i32,
            total_cols as i32,
            q_dim as i32,
            kv_dim as i32,
            max_seq as i32,
            start as i32,
            pos_offset as i32,
        ]);
        reduction(Kernel::QkvExtractKvNormRotaryCache, rows, 1, d, ints)
    }

    /// Queries, keys and values out of fused projections in one launch.
    pub fn qkv_extract_qkv_norm_rotary_cache(&self, qkv: &GpuTensor, at: QkvExtract) -> (r:
        KernelPlan)
        requires
            qkv@.len() == 3,
            countable(seq![qkv@[0], at.nqh, qkv@[1], at.d]),
            at.nqh + at.nkvh <= usize::MAX,
        ensures
            is_qkv_extract(r.launch, qkv@[0], qkv@[1], qkv@[2], at),
            r.out@ == seq![qkv@[0], at.nqh, qkv@[1], at.d],
    {
        let (b, sl, total_cols) = (qkv.dim(0), qkv.dim(1), qkv.dim(2));
        let rows: usize = qkv.outer();
        proof {
            assert(qkv@.drop_last() =~= seq![b, sl]);
            lemma_product3(b, sl, 1);
            lemma_product4(b, at.nqh, sl, at.d);
        }
        let shape: Vec<usize> = vec![b, at.nqh, sl, at.d];
        assert(shape@ =~= seq![b, at.nqh, sl, at.d]);
        KernelPlan {
            launch: Self::extract(b, sl, rows, total_cols, at),
            out: GpuTensor::of_shape(shape),
        }
    }

    /// Queries, keys and values of a single token, the queries written to a
    /// buffer that is there already.
    pub fn qkv_extract_into(&self, q_dim: usize, kv_dim: usize, at: QkvExtract) -> (r: Launch)
        requires
            q_dim + 2 * kv_dim <= usize::MAX,
            at.nqh + at.nkvh <= usize::MAX,
        ensures
            is_qkv_extract(r, 1, 1, (q_dim + 2 * kv_dim) as usize, at),
    {
        Self::extract(1, 1, 1, q_dim + 2 * kv_dim, at)
    }

    fn extract(b: usize, sl: usize, rows: usize, total_cols: usize, at: QkvExtract) -> (r: Launch)
        requires
            rows == b * sl,
            at.nqh + at.nkvh <= usize::MAX,
        ensures
            is_qkv_extract(r, b, sl, total_cols, at),
    {
        let ints: Vec<i32> = vec![
            arg(b),
            arg(at.nqh),
            arg(at.nkvh),
            arg(sl),
            arg(at.d),
            arg(total_cols),
            arg(at.q_dim),
            arg(at.kv_dim),
            arg(at.max_seq),
            arg(at.start),
            arg(at.pos_offset),
        ];
        assert(ints@ =~= extract_ints(b, sl, total_cols, at));
        reduction(Kernel::QkvExtractQkvNormRotaryCache, rows, at.nqh + at.nkvh, at.d, ints)
    }

    fn cache_write(
        kernel: Kernel,
        s_new: usize,
        b: usize,
        nkvh: usize,
        max_seq: usize,
        d: usize,
        start: usize,
    ) -> (r: Launch)
        requires
            countable(seq![b, nkvh, s_new, d]),
        ensures
            is_cache_write(r, kernel, s_new, b, nkvh, max_seq, d, start),
    {
        proof {
            lemma_product4(b, nkvh, s_new, d);
            lemma_monotone(0, 0, b as int, nkvh as int);
            lemma_monotone(0, 0, b * nkvh, s_new as int);
            lemma_monotone(0, 0, b * nkvh * s_new, d as int);
        }
        let total: usize = b * nkvh * s_new * d;
        let ints: Vec<i32> = vec![
            arg(b),
            arg(nkvh),
            arg(max_seq),
            arg(d),
            arg(start),
            arg(s_new),
        ];
        assert(ints@ =~= seq![
            b as i32,
            nkvh as i32,
            max_seq as i32,
            d as i32,
            start as i32,
            s_new as i32,
        ]);
        elementwise(kernel, total, ints)
    }

    /// New keys or values `[b, nkvh, s_new, d]` written to a cache.
    pub fn kv_cache_write(
        &self,
        k_new: &GpuTensor,
        b: usize,
        nkvh: usize,
        max_seq: usize,
        d: usize,
        start: usize,
    ) -> (r: Launch)
        requires
            2 < k_new@.len(),
            countable(seq![b, nkvh, k_new@[2], d]),
        ensures
            is_cache_write(r, Kernel::KvCacheWrite, k_new@[2], b, nkvh, max_seq, d, start),
    {
        let s_new: usize = k_new.dim(2);
        Self::cache_write(Kernel::KvCacheWrite, s_new, b, nkvh, max_seq, d, start)
    }

    /// New keys and values written to both caches in one launch.
    pub fn kv_cache_write_pair(
        &self,
        k_new: &GpuTensor,
        b: usize,
        nkvh: usize,
        max_seq: usize,
        d: usize,
        start: usize,
    ) -> (r: Launch)
        requires
            2 < k_new@.len(),
            countable(seq![b, nkvh, k_new@[2], d]),
        ensures
            is_cache_write(r, Kernel::KvCacheWritePair, k_new@[2], b, nkvh, max_seq, d, start),
    {
        let s_new: usize = k_new.dim(2);
        Self::cache_write(Kernel::KvCacheWritePair, s_new, b, nkvh, max_seq, d, start)
    }

    /// Rows `start..start + len` of the third dimension of `[b, h, s, d]`.
    pub fn slice_dim2(&self, x: &GpuTensor, start: usize, len: usize) -> (r: KernelPlan)
        requires
            x@.len() == 4,
            start + len <= x@[2],
        ensures
            r.launch.is(
                Kernel::SliceDim2,
                elementwise_config((x@[0] * x@[1] * len * x@[3]) as u32),
                seq![
                    x@[0] as i32,
                    x@[1] as i32,
                    x@[2] as i32,
                    x@[3] as i32,
                    start as i32,
                    len as i32,
                ],
            ),
            r.out@ == seq![x@[0], x@[1], len, x@[3]],
    {
        let (b, h, sl, d) = (x.dim(0), x.dim(1), x.dim(2), x.dim(3));
        let n: usize = x.numel();
        proof {
            assert(x@ =~= seq![b, h, sl, d]);
            lemma_product4(b, h, sl, d);
            lemma_product4(b, h, len, d);
            lemma_monotone(0, 0, b as int, h as int);
            lemma_monotone(b * h, len as int, b * h, sl as int);
            lemma_monotone(b * h * len, d as int, b * h * sl, d as int);
        }
        let shape: Vec<usize> = vec![b, h, len, d];
        assert(shape@ =~= seq![b, h, len, d]);
        let out = GpuTensor::of_shape(shape);
        let total: usize = out.numel();
        let ints: Vec<i32> = vec![arg(b), arg(h), arg(sl), arg(d), arg(start), arg(len)];
        assert(ints@ =~= seq![
            b as i32,
            h as i32,
            sl as i32,
            d as i32,
            start as i32,
            len as i32,
        ]);
        KernelPlan { launch: elementwise(Kernel::SliceDim2, total, ints), out }
    }

    /// A `[b, h, len, d]` tensor written into `[b, h, s, d]` from row
    /// `dst_offset` on.
    pub fn concat_dim2_write(
        &self,
        src: &GpuTensor,
        b: usize,
        h: usize,
        s: usize,
        d: usize,
        dst_offset: usize,
    ) -> (r: Launch)
        requires
            2 < src@.len(),
            countable(seq![b, h, src@[2], d]),
        ensures
            r.is(
                Kernel::ConcatDim2Write,
                elementwise_config((b * h * src@[2] * d) as u32),
                seq![
                    b as i32,
                    h as i32,
                    s as i32,
                    d as i32,
                    dst_offset as i32,
                    src@[2] as i32,
                ],
            ),
    {
        let len: usize = src.dim(2);
        proof {
            lemma_product4(b, h, len, d);
            lemma_monotone(0, 0, b as int, h as int);
            lemma_monotone(0, 0, b * h, len as int);
            lemma_monotone(0, 0, b * h * len, d as int);
        }
        let total: usize = b * h * len * d;
        let ints: Vec<i32> = vec![arg(b), arg(h), arg(s), arg(d), arg(dst_offset), arg(len)];
        assert(ints@ =~= seq![
            b as i32,
            h as i32,
            s as i32,
            d as i32,
            dst_offset as i32,
            len as i32,
        ]);
        elementwise(Kernel::ConcatDim2Write, total, ints)
    }

    /// A 3×3 convolution of stride two and padding one of `[b, c_in, h, w]`,
    /// with bias and activation, as unfolding, matrix product and refolding.
    pub fn conv2d_3x3_s2p1_gelu(&self, x: &GpuTensor, c_out: usize, c_in: usize) -> (r: ConvPlan)
        requires
            x@.len() == 4,
            x@[1] == c_in,
            0 < x@[2],
            x@[2] + 2 <= usize::MAX,
            0 < x@[3],
            x@[3] + 2 <= usize::MAX,
            conv_fits(x@, c_out),
        ensures
            r.convolves(x@, c_out),
    {
        let (b, h, w) = (x.dim(0), x.dim(2), x.dim(3));
        let h_out: usize = (h + 2 - 3) / 2 + 1;
        let w_out: usize = (w + 2 - 3) / 2 + 1;
        proof {
            lemma_product4(b, c_out, h_out, w_out);
            lemma_monotone(0, 0, b as int, h_out as int);
            lemma_monotone(0, 0, b * h_out, w_out as int);
            lemma_monotone(0, 0, b * h_out * w_out, c_in * 9);
        }
        let m: usize = b * h_out * w_out;
        let k: usize = c_in * 9;
        let n: usize = c_out;
        let col_len: usize = m * k;
        let ints: Vec<i32> = vec![arg(b), arg(c_in), arg(h), arg(w), arg(h_out), arg(w_out)];
        assert(ints@ =~= seq![
            b as i32,
            c_in as i32,
            h as i32,
            w as i32,
            h_out as i32,
            w_out as i32,
        ]);
        let im2col = elementwise(Kernel::Im2col3x3, col_len, ints);
        let gemm = linear_gemm(m, n, k, false);
        let gemm_len: usize = m * n;
        let shape: Vec<usize> = vec![b, c_out, h_out, w_out];
        assert(shape@ =~= seq![b, c_out, h_out, w_out]);
        let out = GpuTensor::of_shape(shape);
        let total: usize = out.numel();
        let post_ints: Vec<i32> = vec![arg(b), arg(c_out), arg(h_out), arg(w_out)];
        assert(post_ints@ =~= seq![b as i32, c_out as i32, h_out as i32, w_out as i32]);
        let postprocess = elementwise(Kernel::ConvPostprocess, total, post_ints);
        ConvPlan { im2col, col_len, gemm, gemm_len, postprocess, out }
    }

    /// Attention of one new token `[b, nqh, 1, d]` over `cur_len` positions, in
    /// a single launch.
    pub fn fused_gqa_decode(&self, q: &GpuTensor, nkvh: usize, max_seq: usize, cur_len: usize) -> (r:
        KernelPlan)
        requires
            q@.len() == 4,
            q@[2] == 1,
            0 < q@[3],
            decode_smem(cur_len as int, q@[3] as int) <= usize::MAX,
        ensures
            is_decode(r.launch, q@[0], q@[1], nkvh, max_seq, q@[3], cur_len),
            r.out@ == q@,
    {
        let (b, nqh, d) = (q.dim(0), q.dim(1), q.dim(3));
        let rows: usize = q.outer();
        proof {
            assert(q@.drop_last() =~= seq![b, nqh, 1usize]);
            lemma_product3(b, nqh, 1);
        }
        KernelPlan {
            launch: Self::decode(b, nqh, rows, nkvh, max_seq, d, cur_len),
            out: q.same_shape(),
        }
    }

    /// Attention of a single new token into a buffer of `out_len` elements.
    pub fn fused_gqa_decode_into(
        &self,
        nqh: usize,
        nkvh: usize,
        max_seq: usize,
        cur_len: usize,
        out_len: usize,
    ) -> (r: Launch)
        requires
            0 < nqh <= out_len,
            decode_smem(cur_len as int, out_len as int / nqh as int) <= usize::MAX,
        ensures
            is_decode(r, 1, nqh, nkvh, max_seq, (out_len / nqh) as usize, cur_len),
    {
        let d: usize = out_len / nqh;
        proof {
            assert(0 < d) by (nonlinear_arith)
                requires
                    0 < nqh <= out_len,
                    d == out_len as int / nqh as int,
            ;
        }
        Self::decode(1, nqh, nqh, nkvh, max_seq, d, cur_len)
    }

    fn decode(
        b: usize,
        nqh: usize,
        rows: usize,
        nkvh: usize,
        max_seq: usize,
        d: usize,
        cur_len: usize,
    ) -> (r: Launch)
        requires
            rows == b * nqh,
            0 < d,
            decode_smem(cur_len as int, d as int) <= usize::MAX,
        ensures
            is_decode(r, b, nqh, nkvh, max_seq, d, cur_len),
    {
        let bs: usize = if cur_len > 1024 {
            1024
        } else if cur_len > 512 {
            512
        } else {
            256
        };
        let share: usize = bs / d;
        let t_chunks: usize = if share < 1 {
            1
        } else {
            share
        };
        proof {
            lemma_monotone(0, 0, d as int, t_chunks as int);
        }
        let smem: usize = (cur_len + d * t_chunks) * 4;
        let config = LaunchConfig {
            grid_dim: (
                #[verifier::truncate]
                (rows as u32),
                1,
                1,
            ),
            block_dim: (bs as u32, 1, 1),
            shared_mem_bytes: #[verifier::truncate] (smem as u32),
        };
        let ints: Vec<i32> = vec![
            arg(b),
            arg(nqh),
            arg(nkvh),
            arg(max_seq),
            arg(d),
            arg(cur_len),
        ];
        assert(ints@ =~= seq![
            b as i32,
            nqh as i32,
            nkvh as i32,
            max_seq as i32,
            d as i32,
            cur_len as i32,
        ]);
        Launch { kernel: Kernel::FusedGqaDecode, config, ints }
    }

    /// Attention of one new token over chunks of the positions, merged by a
    /// second launch.
    pub fn fused_gqa_decode_split(
        &self,
        q: &GpuTensor,
        nkvh: usize,
        max_seq: usize,
        cur_len: usize,
        chunk_size: usize,
    ) -> (r: SplitPlan)
        requires
            q@.len() == 4,
            0 < q@[3],
            0 < chunk_size,
            cur_len + chunk_size <= usize::MAX,
            split_smem(chunk_size as int, q@[3] as int) <= usize::MAX,
            countable(seq![q@[0], q@[1], chunks_of(cur_len as int, chunk_size as int) as usize, q@[3]]),
            q@[0] * q@[1] * q@[3] <= usize::MAX,
        ensures
            r.splits(q@[0], q@[1], nkvh, max_seq, q@[3], cur_len, chunk_size),
    {
        let (b, nqh, d) = (q.dim(0), q.dim(1), q.dim(3));
        let n_chunks: usize = (cur_len + chunk_size - 1) / chunk_size;
        proof {
            lemma_product4(b, nqh, n_chunks, d);
            lemma_product4(b, nqh, 1, d);
            lemma_monotone(0, 0, b as int, nqh as int);
            lemma_monotone(0, 0, b * nqh, n_chunks as int);
            assert(b * nqh * 1 == b * nqh);
        }
        let heads: usize = b * nqh;
        let part_stat_len: usize = heads * n_chunks;
        let part_out_len: usize = part_stat_len * d;
        let share: usize = 256usize / d;
        let t_split: usize = if share < 1 {
            1
        } else {
            share
        };
        proof {
            lemma_monotone(0, 0, d as int, t_split as int);
        }
        let smem: usize = (chunk_size + d * t_split) * 4;
        let p1_ints: Vec<i32> = vec![
            arg(b),
            arg(nqh),
            arg(nkvh),
            arg(max_seq),
            arg(d),
            arg(cur_len),
            arg(chunk_size),
            arg(n_chunks),
        ];
        assert(p1_ints@ =~= split_ints(
            b as i32,
            nqh as i32,
            nkvh,
            max_seq,
            d as i32,
            cur_len,
            chunk_size,
        ));
        let p1 = Launch {
            kernel: Kernel::FusedGqaDecodeSplitP1,
            config: LaunchConfig {
                grid_dim: (
                    #[verifier::truncate]
                    (heads as u32),
                    #[verifier::truncate]
                    (n_chunks as u32),
                    1,
                ),
                block_dim: (256, 1, 1),
                shared_mem_bytes: #[verifier::truncate] (smem as u32),
            },
            ints: p1_ints,
        };
        let p2_ints: Vec<i32> = vec![arg(b), arg(nqh), arg(n_chunks), arg(d)];
        assert(p2_ints@ =~= seq![b as i32, nqh as i32, n_chunks as i32, d as i32]);
        let p2 = Launch {
            kernel: Kernel::FusedGqaDecodeSplitP2,
            config: LaunchConfig {
                grid_dim: (
                    #[verifier::truncate]
                    (heads as u32),
                    1,
                    1,
                ),
                block_dim: (
                    #[verifier::truncate]
                    (d as u32),
                    1,
                    1,
                ),
                shared_mem_bytes: 0,
            },
            ints: p2_ints,
        };
        let shape: Vec<usize> = vec![b, nqh, 1usize, d];
        assert(shape@ =~= seq![b, nqh, 1usize, d]);
        SplitPlan { p1, p2, n_chunks, part_out_len, part_stat_len, out: GpuTensor::of_shape(shape) }
    }

    /// The same for the model's 16 heads of width 128, with a fixed number of
    /// blocks per head. Blocks beyond the last chunk have nothing to do.
    pub fn fused_gqa_decode_split_into(
        &self,
        nkvh: usize,
        max_seq: usize,
        cur_len: usize,
        chunk_size: usize,
        max_chunks: usize,
    ) -> (r: (Launch, Launch))
        requires
            0 < chunk_size,
            cur_len + chunk_size <= usize::MAX,
            split_smem(chunk_size as int, 128) <= usize::MAX,
        ensures
            r.0.is(
                Kernel::FusedGqaDecodeSplitP1,
                (LaunchConfig {
                    grid_dim: (16, max_chunks as u32, 1),
                    block_dim: (256, 1, 1),
                    shared_mem_bytes: split_smem(chunk_size as int, 128) as u32,
                }),
                split_ints(1, 16, nkvh, max_seq, 128, cur_len, chunk_size),
            ),
            r.1.is(
                Kernel::FusedGqaDecodeSplitP2,
                (LaunchConfig {
                    grid_dim: (16, 1, 1),
                    block_dim: (128, 1, 1),
                    shared_mem_bytes: 0,
                }),
                seq![1i32, 16i32, chunks_of(cur_len as int, chunk_size as int) as i32, 128i32],
            ),
    {
        let n_chunks: usize = (cur_len + chunk_size - 1) / chunk_size;
        let smem: usize = (chunk_size + 128 * 2) * 4;
        let p1_ints: Vec<i32> = vec![
            1i32,
            16i32,
            arg(nkvh),
            arg(max_seq),
            128i32,
            arg(cur_len),
            arg(chunk_size),
            arg(n_chunks),
        ];
        assert(p1_ints@ =~= split_ints(1, 16, nkvh, max_seq, 128, cur_len, chunk_size));
        let p1 = Launch {
            kernel: Kernel::FusedGqaDecodeSplitP1,
            config: LaunchConfig {
                grid_dim: (
                    16,
                    #[verifier::truncate]
                    (max_chunks as u32),
                    1,
                ),
                block_dim: (256, 1, 1),
                shared_mem_bytes: #[verifier::truncate] (smem as u32),
            },
            ints: p1_ints,
        };
        let p2_ints: Vec<i32> = vec![1i32, 16i32, arg(n_chunks), 128i32];
        assert(p2_ints@ =~= seq![1i32, 16i32, n_chunks as i32, 128i32]);
        let p2 = Launch {
            kernel: Kernel::FusedGqaDecodeSplitP2,
            config: LaunchConfig {
                grid_dim: (16, 1, 1),
                block_dim: (128, 1, 1),
                shared_mem_bytes: 0,
            },
            ints: p2_ints,
        };
        (p1, p2)
    }
}

/// What the extraction of queries, keys and values needs to know.
#[derive(Clone, Copy)]
pub struct QkvExtract {
    /// Query heads.
    pub nqh: usize,
    /// Key-value heads.
    pub nkvh: usize,
    /// Width of a head.
    pub d: usize,
    /// Query columns.
    pub q_dim: usize,
    /// Key columns, and as many value columns.
    pub kv_dim: usize,
    /// Positions there is room for in the caches.
    pub max_seq: usize,
    /// Position that the first new token is written to.
    pub start: usize,
    /// Row of the rotary tables for the first new token.
    pub pos_offset: usize,
}

/// Integer arguments of the extraction.
pub open spec fn extract_ints(b: usize, sl: usize, total_cols: usize, at: QkvExtract) -> Seq<i32> {
    seq![
        b as i32,
        at.nqh as i32,
        at.nkvh as i32,
        sl as i32,
        at.d as i32,
        total_cols as i32,
        at.q_dim as i32,
        at.kv_dim as i32,
        at.max_seq as i32,
        at.start as i32,
        at.pos_offset as i32,
    ]
}

/// One block per token and head.
pub open spec fn is_qkv_extract(
    l: Launch,
    b: usize,
    sl: usize,
    total_cols: usize,
    at: QkvExtract,
) -> bool {
    l.is(
        Kernel::QkvExtractQkvNormRotaryCache,
        reduction_config((b * sl) as u32, (at.nqh + at.nkvh) as u32, at.d),
        extract_ints(b, sl, total_cols, at),
    )
}

/// A cache write of `s_new` new positions.
pub open spec fn is_cache_write(
    l: Launch,
    kernel: Kernel,
    s_new: usize,
    b: usize,
    nkvh: usize,
    max_seq: usize,
    d: usize,
    start: usize,
) -> bool {
    l.is(
        kernel,
        elementwise_config((b * nkvh * s_new * d) as u32),
        seq![
            b as i32,
            nkvh as i32,
            max_seq as i32,
            d as i32,
            start as i32,
            s_new as i32,
        ],
    )
}

/// A cache write has a thread for every number of the new positions, and is told how many
/// sequences, heads and numbers those have, where they go and how much room there is.
pub proof fn law_cache_write_covers(
    l: Launch,
    kernel: Kernel,
    s_new: usize,
    b: usize,
    nkvh: usize,
    max_seq: usize,
    d: usize,
    start: usize,
)
    requires
        is_cache_write(l, kernel, s_new, b, nkvh, max_seq, d, start),
        b * nkvh * s_new * d <= i32::MAX,
        start + s_new <= max_seq <= i32::MAX,
        b <= i32::MAX,
        nkvh <= i32::MAX,
        d <= i32::MAX,
    ensures
        l.kernel == kernel,
        thread_each(l, b * nkvh * s_new * d),
        l.ints@.len() == 6,
        l.ints@[0] == b,
        l.ints@[1] == nkvh,
        l.ints@[2] == max_seq,
        l.ints@[3] == d,
        l.ints@[4] == start,
        l.ints@[5] == s_new,
{
    assert(0 <= b * nkvh * s_new * d) by (nonlinear_arith)
        requires
            0 <= b,
            0 <= nkvh,
            0 <= s_new,
            0 <= d,
    ;
}

/// Threads of a block of the single-launch attention: more for longer contexts.
pub open spec fn decode_block(cur_len: int) -> int {
    if cur_len > 1024 {
        1024
    } else if cur_len > 512 {
        512
    } else {
        256
    }
}

/// Parts that a block of `bs` threads works on at once for heads of width `d`.
pub open spec fn parts_at_once(bs: int, d: int) -> int {
    if bs / d < 1 {
        1
    } else {
        bs / d
    }
}

/// Shared memory of the single-launch attention: a score per position and a
/// partial output per part, four bytes each.
pub open spec fn decode_smem(cur_len: int, d: int) -> int {
    (cur_len + d * parts_at_once(decode_block(cur_len), d)) * 4
}

/// The single-launch attention of `b` tokens.
pub open spec fn is_decode(
    l: Launch,
    b: usize,
    nqh: usize,
    nkvh: usize,
    max_seq: usize,
    d: usize,
    cur_len: usize,
) -> bool {
    l.is(
        Kernel::FusedGqaDecode,
        LaunchConfig {
            grid_dim: ((b * nqh) as u32, 1, 1),
            block_dim: (decode_block(cur_len as int) as u32, 1, 1),
            shared_mem_bytes: decode_smem(cur_len as int, d as int) as u32,
        },
        seq![
            b as i32,
            nqh as i32,
            nkvh as i32,
            max_seq as i32,
            d as i32,
            cur_len as i32,
        ],
    )
}

/// Chunks of `chunk_size` that `cur_len` positions take.
pub open spec fn chunks_of(cur_len: int, chunk_size: int) -> int {
    (cur_len + chunk_size - 1) / chunk_size
}

/// Shared memory of a block of the chunked attention.
pub open spec fn split_smem(chunk_size: int, d: int) -> int {
    (chunk_size + d * parts_at_once(256, d)) * 4
}

/// Integer arguments of the chunked attention.
pub open spec fn split_ints(
    b: i32,
    nqh: i32,
    nkvh: usize,
    max_seq: usize,
    d: i32,
    cur_len: usize,
    chunk_size: usize,
) -> Seq<i32> {
    seq![
        b,
        nqh,
        nkvh as i32,
        max_seq as i32,
        d,
        cur_len as i32,
        chunk_size as i32,
        chunks_of(cur_len as int, chunk_size as int) as i32,
    ]
}

/// The two launches of the chunked attention and their buffers.
pub struct SplitPlan {
    /// Partial results of every chunk.
    pub p1: Launch,
    /// Merging the chunks.
    pub p2: Launch,
    /// Chunks.
    pub n_chunks: usize,
    /// Elements of the partial outputs.
    pub part_out_len: usize,
    /// Elements of the partial maxima, and of the partial sums.
    pub part_stat_len: usize,
    /// The result.
    pub out: GpuTensor,
}

impl SplitPlan {
    /// The chunked attention of `b` tokens over `cur_len` positions.
    pub open spec fn splits(
        self,
        b: usize,
        nqh: usize,
        nkvh: usize,
        max_seq: usize,
        d: usize,
        cur_len: usize,
        chunk_size: usize,
    ) -> bool {
        let n_chunks = chunks_of(cur_len as int, chunk_size as int);
        &&& self.n_chunks == n_chunks
        &&& self.part_out_len == b * nqh * n_chunks * d
        &&& self.part_stat_len == b * nqh * n_chunks
        &&& self.p1.is(
            Kernel::FusedGqaDecodeSplitP1,
            LaunchConfig {
                grid_dim: ((b * nqh) as u32, n_chunks as u32, 1),
                block_dim: (256, 1, 1),
                shared_mem_bytes: split_smem(chunk_size as int, d as int) as u32,
            },
            split_ints(b as i32, nqh as i32, nkvh, max_seq, d as i32, cur_len, chunk_size),
        )
        &&& self.p2.is(
            Kernel::FusedGqaDecodeSplitP2,
            LaunchConfig {
                grid_dim: ((b * nqh) as u32, 1, 1),
                block_dim: (d as u32, 1, 1),
                shared_mem_bytes: 0,
            },
            seq![b as i32, nqh as i32, n_chunks as i32, d as i32],
        )
        &&& self.out@ == seq![b, nqh, 1usize, d]
    }
}

/// The steps of a convolution and their buffers.
pub struct ConvPlan {
    /// Unfolds the input to one row per output position.
    pub im2col: Launch,
    /// Elements of the unfolded input.
    pub col_len: usize,
    /// Multiplies the rows with the filters.
    pub gemm: GemmConfig,
    /// Elements of the product.
    pub gemm_len: usize,
    /// Adds the bias, applies the activation and folds back.
    pub postprocess: Launch,
    /// The result.
    pub out: GpuTensor,
}

/// The buffers of a convolution can be counted.
pub open spec fn conv_fits(x: Seq<usize>, c_out: usize) -> bool {
    let h_out = conv_len(x[2] as int);
    let w_out = conv_len(x[3] as int);
    &&& x[1] * 9 <= usize::MAX
    &&& x[0] * h_out <= usize::MAX
    &&& x[0] * h_out * w_out <= usize::MAX
    &&& x[0] * h_out * w_out * (x[1] * 9) <= usize::MAX
    &&& x[0] * h_out * w_out * c_out <= usize::MAX
    &&& countable(seq![x[0], c_out, h_out as usize, w_out as usize])
}

impl ConvPlan {
    /// The convolution of `x` to `c_out` channels.
    pub open spec fn convolves(self, x: Seq<usize>, c_out: usize) -> bool {
        let h_out = conv_len(x[2] as int);
        let w_out = conv_len(x[3] as int);
        let m = x[0] * h_out * w_out;
        let k = x[1] * 9;
        &&& self.im2col.is(
            Kernel::Im2col3x3,
            elementwise_config((m * k) as u32),
            seq![
                x[0] as i32,
                x[1] as i32,
                x[2] as i32,
                x[3] as i32,
                h_out as i32,
                w_out as i32,
            ],
        )
        &&& self.col_len == m * k
        &&& self.gemm == linear_config(m as usize, c_out, k as usize, false)
        &&& self.gemm_len == m * c_out
        &&& self.postprocess.is(
            Kernel::ConvPostprocess,
            elementwise_config((x[0] * c_out * h_out * w_out) as u32),
            seq![x[0] as i32, c_out as i32, h_out as i32, w_out as i32],
        )
        &&& self.out@ == seq![x[0], c_out, h_out as usize, w_out as usize]
    }
}

} // verus!

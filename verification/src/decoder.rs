//! Decisions of the text decoder that do not depend on where it runs.
use vstd::prelude::*;

use crate::attention::{kv_cache_write, take_columns, written, CpuKvCache, HeadDims};
use crate::buffers::append_copy;
use crate::layout::{lemma_inside, lemma_monotone, lemma_row_below, lemma_split};
use crate::linear::{linear_path, LinearPath};
use crate::steps::{
    caches_and_queries, decode_operands, extract_operands, map_step, norm_step, product_step,
    projected, LayerOperand, LayerStep, Step,
};
use crate::tensor::{lemma_product3, lemma_product4, CpuTensor};

verus! {

/// Columns `from..to`.
#[derive(Clone, Copy, PartialEq, Eq, Structural)]
pub struct Columns {
    pub from: usize,
    pub to: usize,
}

/// Where queries, keys and values lie in a fused projection.
#[derive(Clone, Copy, PartialEq, Eq, Structural)]
pub struct QkvColumns {
    pub q: Columns,
    pub k: Columns,
    pub v: Columns,
}

/// Queries first, then keys, then values.
pub fn qkv_columns(q_dim: usize, kv_dim: usize) -> (r: QkvColumns)
    requires
        q_dim + 2 * kv_dim <= usize::MAX,
    ensures
        (r.q.from, r.q.to) == (0usize, q_dim),
        r.k.from == q_dim,
        r.k.to == q_dim + kv_dim,
        r.v.from == q_dim + kv_dim,
        r.v.to == q_dim + 2 * kv_dim,
{
    QkvColumns {
        q: Columns { from: 0, to: q_dim },
        k: Columns { from: q_dim, to: q_dim + kv_dim },
        v: Columns { from: q_dim + kv_dim, to: q_dim + 2 * kv_dim },
    }
}

/// Queries, keys and values of `rows` tokens, out of a fused projection.
pub struct SplitQkv<T> {
    pub q: Vec<T>,
    pub k: Vec<T>,
    pub v: Vec<T>,
}

/// Takes a fused projection `[rows, total_cols]` apart.
pub fn split_qkv<T: Copy>(
    qkv: &[T],
    rows: usize,
    total_cols: usize,
    q_dim: usize,
    kv_dim: usize,
) -> (r: SplitQkv<T>)
    requires
        rows * total_cols <= qkv@.len(),
        q_dim + 2 * kv_dim <= total_cols,
    ensures
        r.q@.len() == rows * q_dim,
        r.k@.len() == rows * kv_dim,
        r.v@.len() == rows * kv_dim,
        forall|i: int, j: int|
            0 <= i < rows && 0 <= j < q_dim ==> r.q@[#[trigger] (i * q_dim + j)] == qkv@[i
                * total_cols + j],
        forall|i: int, j: int|
            0 <= i < rows && 0 <= j < kv_dim ==> r.k@[#[trigger] (i * kv_dim + j)] == qkv@[i
                * total_cols + q_dim + j],
        forall|i: int, j: int|
            0 <= i < rows && 0 <= j < kv_dim ==> r.v@[#[trigger] (i * kv_dim + j)] == qkv@[i
                * total_cols + q_dim + kv_dim + j],
{
    let at = qkv_columns(q_dim, kv_dim);
    let q = take_columns(qkv, rows, total_cols, at.q.from, q_dim);
    let k = take_columns(qkv, rows, total_cols, at.k.from, kv_dim);
    let v = take_columns(qkv, rows, total_cols, at.v.from, kv_dim);
    SplitQkv { q, k, v }
}

/// The columns of head `h` of token `t` in a fused projection, `from` being where
/// the heads of its kind begin.
pub open spec fn head_columns<T>(
    qkv: Seq<T>,
    total_cols: int,
    from: int,
    hd: int,
    t: int,
    h: int,
) -> Seq<T> {
    qkv.subrange(t * total_cols + from + h * hd, t * total_cols + from + h * hd + hd)
}

/// Whether `row` is what `prepare` may make of a head at a position.
pub open spec fn prepared<T, F: Fn(&[T], usize) -> Vec<T>>(
    prepare: F,
    head: Seq<T>,
    position: usize,
    row: Seq<T>,
) -> bool {
    exists|input: &[T], output: Vec<T>|
        {
            &&& input@ == head
            &&& output@ == row
            &&& #[trigger] call_ensures(prepare, (input, position), output)
        }
}

/// Applies `prepare` to `n_heads` heads of every token, in token order. Tokens of
/// a sequence are counted from `pos_offset` on.
fn prepare_heads<T: Copy, F: Fn(&[T], usize) -> Vec<T>>(
    prepare: &F,
    qkv: &[T],
    dims: (usize, usize, usize),
    total_cols: usize,
    from: usize,
    n_heads: usize,
    pos_offset: usize,
) -> (r: Vec<T>)
    requires
        ({
            let (b, s, hd) = dims;
            &&& b * s * total_cols <= qkv@.len()
            &&& from + n_heads * hd <= total_cols
            &&& b * s <= usize::MAX
            &&& b * s * n_heads <= usize::MAX
            &&& pos_offset + s <= usize::MAX
            &&& forall|head: &[T], position: usize|
                head@.len() == hd ==> #[trigger] call_requires(*prepare, (head, position))
            &&& forall|head: &[T], position: usize, out: Vec<T>|
                head@.len() == hd && #[trigger] call_ensures(*prepare, (head, position), out)
                    ==> out@.len() == hd
        }),
    ensures
        ({
            let (b, s, hd) = dims;
            &&& r@.len() == b * s * n_heads * hd
            &&& forall|t: int, h: int|
                0 <= t < b * s && 0 <= h < n_heads ==> #[trigger] prepared(
                    *prepare,
                    head_columns(qkv@, total_cols as int, from as int, hd as int, t, h),
                    (pos_offset + t % (s as int)) as usize,
                    r@.subrange((t * n_heads + h) * hd, (t * n_heads + h) * hd + hd),
                )
        }),
{
    let (b, s, hd) = dims;
    let count: usize = b * s * n_heads;
    let mut out: Vec<T> = Vec::new();
    let mut k: usize = 0;
    proof {
        assert(0 * hd == 0) by (nonlinear_arith);
        assert(qkv.len() <= usize::MAX);
    }
    while k < count
        invariant
            k <= count,
            count == b * s * n_heads,
            b * s * total_cols <= qkv@.len() <= usize::MAX,
            from + n_heads * hd <= total_cols,
            pos_offset + s <= usize::MAX,
            forall|head: &[T], position: usize|
                head@.len() == hd ==> #[trigger] call_requires(*prepare, (head, position)),
            forall|head: &[T], position: usize, out: Vec<T>|
                head@.len() == hd && #[trigger] call_ensures(*prepare, (head, position), out)
                    ==> out@.len() == hd,
            out@.len() == k * hd,
            forall|i: int|
                0 <= i < k ==> #[trigger] prepared(
                    *prepare,
                    head_columns(
                        qkv@,
                        total_cols as int,
                        from as int,
                        hd as int,
                        i / (n_heads as int),
                        i % (n_heads as int),
                    ),
                    (pos_offset + (i / (n_heads as int)) % (s as int)) as usize,
                    out@.subrange(i * hd, i * hd + hd),
                ),
        decreases count - k,
    {
        proof {
            assert(0 < n_heads && 0 < b * s && 0 < s) by (nonlinear_arith)
                requires
                    0 <= k < b * s * n_heads,
                    0 <= b,
                    0 <= s,
                    0 <= n_heads,
            ;
        }
        let t: usize = k / n_heads;
        let h: usize = k % n_heads;
        proof {
            lemma_row_below(k as int, b * s, n_heads as int);
            assert(h * hd + hd <= n_heads * hd) by (nonlinear_arith)
                requires
                    h + 1 <= n_heads,
                    0 <= hd,
            ;
            assert(t * total_cols + total_cols <= b * s * total_cols) by (nonlinear_arith)
                requires
                    t + 1 <= b * s,
                    0 <= total_cols,
            ;
            lemma_monotone(0, 0, t as int, total_cols as int);
            lemma_monotone(h as int, hd as int, n_heads as int, hd as int);
        }
        let start: usize = t * total_cols + from + h * hd;
        let head = vstd::slice::slice_subrange(qkv, start, start + hd);
        let position: usize = pos_offset + t % s;
        let mut row = prepare(head, position);
        let ghost before = out@;
        let ghost made = row@;
        out.append(&mut row);
        proof {
            assert(head@ =~= head_columns(
                qkv@,
                total_cols as int,
                from as int,
                hd as int,
                t as int,
                h as int,
            ));
            assert(prepared(*prepare, head@, position, made));
            assert((k + 1) * hd == k * hd + hd) by (nonlinear_arith);
            assert(out@.subrange(k * hd, k * hd + hd) =~= made);
            assert forall|i: int| 0 <= i < k + 1 implies #[trigger] prepared(
                *prepare,
                head_columns(
                    qkv@,
                    total_cols as int,
                    from as int,
                    hd as int,
                    i / (n_heads as int),
                    i % (n_heads as int),
                ),
                (pos_offset + (i / (n_heads as int)) % (s as int)) as usize,
                out@.subrange(i * hd, i * hd + hd),
            ) by {
                if i < k {
                    assert(i * hd + hd <= k * hd) by (nonlinear_arith)
                        requires
                            i + 1 <= k,
                            0 <= hd,
                    ;
                    lemma_monotone(0, 0, i, hd as int);
                    assert(out@.subrange(i * hd, i * hd + hd) =~= before.subrange(
                        i * hd,
                        i * hd + hd,
                    ));
                }
            }
        }
        k += 1;
    }
    proof {
        assert forall|t: int, h: int| 0 <= t < b * s && 0 <= h < n_heads implies #[trigger] prepared(
            *prepare,
            head_columns(qkv@, total_cols as int, from as int, hd as int, t, h),
            (pos_offset + t % (s as int)) as usize,
            out@.subrange((t * n_heads + h) * hd, (t * n_heads + h) * hd + hd),
        ) by {
            lemma_split(t, n_heads as int, h);
            lemma_inside(t, b * s, n_heads as int, h);
            let i = t * n_heads + h;
            assert(prepared(
                *prepare,
                head_columns(
                    qkv@,
                    total_cols as int,
                    from as int,
                    hd as int,
                    i / (n_heads as int),
                    i % (n_heads as int),
                ),
                (pos_offset + (i / (n_heads as int)) % (s as int)) as usize,
                out@.subrange(i * hd, i * hd + hd),
            ));
        }
    }
    out
}

/// What the extraction of queries, keys and values has to know.
#[derive(Clone, Copy)]
pub struct CpuExtract {
    /// Heads and their width.
    pub heads: HeadDims,
    /// New tokens of every sequence.
    pub s: usize,
    /// Columns of the fused projection.
    pub total_cols: usize,
    /// Positions there is room for in the caches.
    pub max_seq: usize,
    /// Position that the first new token is written to.
    pub start: usize,
    /// Row of the rotary tables for the first new token.
    pub pos_offset: usize,
}

impl CpuExtract {
    /// Query columns.
    pub open spec fn q_dim(self) -> int {
        self.heads.nqh * self.heads.hd
    }

    /// Key columns, and as many value columns.
    pub open spec fn kv_dim(self) -> int {
        self.heads.nkvh * self.heads.hd
    }

    /// All sizes can be counted and the new tokens have room in the caches.
    pub open spec fn fits(self) -> bool {
        let d = self.heads;
        &&& self.q_dim() + 2 * self.kv_dim() <= self.total_cols
        &&& self.start + self.s <= self.max_seq
        &&& self.pos_offset + self.s <= usize::MAX
        &&& d.cache_countable(self.max_seq as int)
        &&& d.b * self.s <= usize::MAX
        &&& d.b * d.nqh <= usize::MAX
        &&& d.b * d.nqh * self.s <= usize::MAX
        &&& d.b * self.s * d.nqh <= usize::MAX
        &&& d.b * self.s * d.nkvh <= usize::MAX
        &&& d.b * self.s * self.total_cols <= usize::MAX
    }

    /// Row of the rotary tables for token `t` of all sequences.
    pub open spec fn position(self, t: int) -> usize {
        (self.pos_offset + t % (self.s as int)) as usize
    }

    /// Rows of `n_heads` heads, in token order, that `prepare` may have made of the
    /// columns from `from` on.
    pub open spec fn prepares<T, F: Fn(&[T], usize) -> Vec<T>>(
        self,
        prepare: F,
        qkv: Seq<T>,
        from: int,
        n_heads: usize,
        rows: Seq<T>,
    ) -> bool {
        let hd = self.heads.hd as int;
        &&& rows.len() == self.heads.b * self.s * n_heads * hd
        &&& forall|t: int, h: int|
            0 <= t < self.heads.b * self.s && 0 <= h < n_heads ==> #[trigger] prepared(
                prepare,
                head_columns(qkv, self.total_cols as int, from, hd, t, h),
                self.position(t),
                rows.subrange((t * n_heads + h) * hd, (t * n_heads + h) * hd + hd),
            )
    }

    /// Value rows, in token order: the columns behind the keys as they are.
    pub open spec fn values<T>(self, qkv: Seq<T>, rows: Seq<T>) -> bool {
        let kv = self.kv_dim();
        &&& rows.len() == self.heads.b * self.s * self.heads.nkvh * self.heads.hd
        &&& forall|t: int, j: int|
            0 <= t < self.heads.b * self.s && 0 <= j < kv ==> rows[#[trigger] (t * kv + j)]
                == qkv[t * self.total_cols + self.q_dim() + kv + j]
    }
}

/// Takes the queries out of a fused projection `[b, s, total_cols]` and writes its
/// keys and values to the caches. `prepare_q` and `prepare_k` turn the columns of
/// one head, given the row of the rotary tables for its token; values are copied
/// as they are. The queries come back in token order under the shape
/// `[b, nqh, s, hd]`.
pub fn qkv_extract_qkv_norm_rotary_cache<
    T: Copy,
    FQ: Fn(&[T], usize) -> Vec<T>,
    FK: Fn(&[T], usize) -> Vec<T>,
>(
    qkv: &[T],
    prepare_q: FQ,
    prepare_k: FK,
    k_cache: &mut Vec<T>,
    v_cache: &mut Vec<T>,
    at: CpuExtract,
) -> (r: CpuTensor<T>)
    requires
        at.fits(),
        qkv@.len() == at.heads.b * at.s * at.total_cols,
        old(k_cache)@.len() == at.heads.cache_len(at.max_seq as int),
        old(v_cache)@.len() == at.heads.cache_len(at.max_seq as int),
        forall|head: &[T], position: usize|
            head@.len() == at.heads.hd ==> #[trigger] call_requires(prepare_q, (head, position)),
        forall|head: &[T], position: usize, out: Vec<T>|
            head@.len() == at.heads.hd && #[trigger] call_ensures(prepare_q, (head, position), out)
                ==> out@.len() == at.heads.hd,
        forall|head: &[T], position: usize|
            head@.len() == at.heads.hd ==> #[trigger] call_requires(prepare_k, (head, position)),
        forall|head: &[T], position: usize, out: Vec<T>|
            head@.len() == at.heads.hd && #[trigger] call_ensures(prepare_k, (head, position), out)
                ==> out@.len() == at.heads.hd,
    ensures
        r.valid(),
        r.shape@ == seq![at.heads.b, at.heads.nqh, at.s, at.heads.hd],
        at.prepares(prepare_q, qkv@, 0, at.heads.nqh, r.data@),
        exists|rows: Seq<T>|
            {
                &&& #[trigger] at.prepares(prepare_k, qkv@, at.q_dim(), at.heads.nkvh, rows)
                &&& written(
                    at.heads,
                    at.max_seq as int,
                    at.s as int,
                    at.start as int,
                    old(k_cache)@,
                    rows,
                    final(k_cache)@,
                )
            },
        exists|rows: Seq<T>|
            {
                &&& #[trigger] at.values(qkv@, rows)
                &&& written(
                    at.heads,
                    at.max_seq as int,
                    at.s as int,
                    at.start as int,
                    old(v_cache)@,
                    rows,
                    final(v_cache)@,
                )
            },
{
    let d = at.heads;
    proof {
        assert(qkv.len() <= usize::MAX);
        lemma_monotone(0, 0, d.nqh as int, d.hd as int);
        lemma_monotone(0, 0, d.nkvh as int, d.hd as int);
    }
    let q_dim: usize = d.nqh * d.hd;
    let kv_dim: usize = d.nkvh * d.hd;
    let dims: (usize, usize, usize) = (d.b, at.s, d.hd);
    let rows: usize = d.b * at.s;
    let q = prepare_heads(&prepare_q, qkv, dims, at.total_cols, 0, d.nqh, at.pos_offset);
    let k = prepare_heads(&prepare_k, qkv, dims, at.total_cols, q_dim, d.nkvh, at.pos_offset);
    let v = take_columns(qkv, rows, at.total_cols, q_dim + kv_dim, kv_dim);
    proof {
        assert(rows * kv_dim == d.b * at.s * d.nkvh * d.hd) by (nonlinear_arith)
            requires
                rows == d.b * at.s,
                kv_dim == d.nkvh * d.hd,
        ;
        assert(at.prepares(prepare_q, qkv@, 0, d.nqh, q@));
        assert(at.prepares(prepare_k, qkv@, at.q_dim(), d.nkvh, k@));
        assert(at.values(qkv@, v@));
    }
    kv_cache_write(k_cache, k.as_slice(), d, at.max_seq, at.s, at.start);
    kv_cache_write(v_cache, v.as_slice(), d, at.max_seq, at.s, at.start);
    let shape: Vec<usize> = vec![d.b, d.nqh, at.s, d.hd];
    proof {
        assert(shape@ =~= seq![d.b, d.nqh, at.s, d.hd]);
        assert(q.len() <= usize::MAX);
        lemma_product4(d.b, d.nqh, at.s, d.hd);
        assert(d.b * d.nqh * at.s * d.hd == d.b * at.s * d.nqh * d.hd) by (nonlinear_arith);
    }
    CpuTensor::new(q, shape)
}

/// How the CPU computes the attention of a call.
#[derive(Clone, Copy, PartialEq, Eq, Structural)]
pub enum CpuAttention {
    /// One new token: all in one pass.
    Decode,
    /// Several new tokens: full scores, causal where asked.
    Prefill { causal: bool },
}

/// What a step of a decoder layer does on the CPU.
#[derive(Clone, Copy, PartialEq, Eq, Structural, Debug)]
pub enum CpuOp {
    /// Normalises rows.
    Norm,
    /// Multiplies with a quantised matrix.
    Product,
    /// Multiplies with a quantised matrix and adds the product.
    Accumulate,
    /// Takes queries out, and writes keys and values to the caches.
    Extract,
    /// Attends to the positions in the caches.
    Attend,
    /// Activates one half of a row with the other.
    Activate,
}

/// What a layer does on the CPU, step by step: what is done, what it writes and what it
/// reads.
pub open spec fn cpu_steps() -> Seq<(CpuOp, Seq<LayerOperand>, Seq<LayerOperand>)> {
    seq![
        (
            CpuOp::Norm,
            seq![LayerOperand::Normed],
            seq![LayerOperand::Stream, LayerOperand::InputNorm],
        ),
        (
            CpuOp::Product,
            seq![LayerOperand::Qkv],
            seq![LayerOperand::QkvProj, LayerOperand::Normed],
        ),
        (CpuOp::Extract, decode_operands(), extract_operands()),
        (CpuOp::Attend, seq![LayerOperand::Merged], decode_operands()),
        (
            CpuOp::Accumulate,
            seq![LayerOperand::Stream],
            seq![LayerOperand::OutProj, LayerOperand::Merged],
        ),
        (
            CpuOp::Norm,
            seq![LayerOperand::NormedBehind],
            seq![LayerOperand::Stream, LayerOperand::PostNorm],
        ),
        (
            CpuOp::Product,
            seq![LayerOperand::GateUp],
            seq![LayerOperand::GateUpProj, LayerOperand::NormedBehind],
        ),
        (CpuOp::Activate, seq![LayerOperand::Activated], seq![LayerOperand::GateUp]),
        (
            CpuOp::Accumulate,
            seq![LayerOperand::Stream],
            seq![LayerOperand::DownProj, LayerOperand::Activated],
        ),
    ]
}

/// Whether steps do the given things on the given operands.
pub open spec fn carry_out(
    steps: Seq<LayerStep<CpuOp>>,
    want: Seq<(CpuOp, Seq<LayerOperand>, Seq<LayerOperand>)>,
) -> bool {
    &&& steps.len() == want.len()
    &&& forall|i: int|
        0 <= i < want.len() ==> {
            &&& (#[trigger] steps[i]).run == want[i].0
            &&& steps[i].takes(want[i].1, want[i].2)
        }
}

fn list_cpu_steps() -> (r: Vec<LayerStep<CpuOp>>)
    ensures
        carry_out(r@, cpu_steps()),
{
    let mut steps: Vec<LayerStep<CpuOp>> = Vec::new();
    steps.push(norm_step(CpuOp::Norm, LayerOperand::Normed, LayerOperand::InputNorm));
    steps.push(
        product_step(
            CpuOp::Product,
            LayerOperand::Qkv,
            LayerOperand::QkvProj,
            LayerOperand::Normed,
        ),
    );
    steps.push(Step::new(CpuOp::Extract, caches_and_queries(), projected()));
    steps.push(Step::new(CpuOp::Attend, vec![LayerOperand::Merged], caches_and_queries()));
    steps.push(
        product_step(
            CpuOp::Accumulate,
            LayerOperand::Stream,
            LayerOperand::OutProj,
            LayerOperand::Merged,
        ),
    );
    steps.push(norm_step(CpuOp::Norm, LayerOperand::NormedBehind, LayerOperand::PostNorm));
    steps.push(
        product_step(
            CpuOp::Product,
            LayerOperand::GateUp,
            LayerOperand::GateUpProj,
            LayerOperand::NormedBehind,
        ),
    );
    steps.push(map_step(CpuOp::Activate, LayerOperand::Activated, LayerOperand::GateUp));
    steps.push(
        product_step(
            CpuOp::Accumulate,
            LayerOperand::Stream,
            LayerOperand::DownProj,
            LayerOperand::Activated,
        ),
    );
    steps
}

/// What a decoder layer does for `[b, s, hidden]` on the CPU.
pub struct CpuLayerPlan {
    /// What is done, in order, and on what.
    pub steps: Vec<LayerStep<CpuOp>>,
    /// Tokens, the rows of every product.
    pub rows: usize,
    /// How products with quantised matrices are computed.
    pub path: LinearPath,
    /// Positions in the caches afterwards.
    pub cur_len: usize,
    /// Attention.
    pub attention: CpuAttention,
    /// Heads of all sequences, each of which is a job of its own.
    pub jobs: usize,
    /// Shape of the attention output in token order.
    pub attn_shape: Vec<usize>,
}

impl CpuLayerPlan {
    /// What a layer does for `s` new tokens behind `kv_start` cached positions.
    pub open spec fn computes(self, d: HeadDims, s: int, kv_start: int, causal: bool) -> bool {
        &&& carry_out(self.steps@, cpu_steps())
        &&& self.rows == d.b * s
        &&& self.path == if d.b * s == 1 {
            LinearPath::Gemv
        } else {
            LinearPath::Gemm
        }
        &&& self.cur_len == kv_start + s
        &&& self.attention == if s == 1 {
            CpuAttention::Decode
        } else {
            CpuAttention::Prefill { causal }
        }
        &&& self.jobs == d.b * d.nqh
        &&& self.attn_shape@ == seq![d.b, s as usize, (d.nqh * d.hd) as usize]
    }
}

/// Plans a decoder layer for `s` new tokens behind `kv_start` cached positions.
pub fn plan_cpu_layer(d: HeadDims, s: usize, kv_start: usize, use_causal: bool) -> (r: CpuLayerPlan)
    requires
        d.b * s <= usize::MAX,
        d.b * d.nqh <= usize::MAX,
        d.nqh * d.hd <= usize::MAX,
        kv_start + s <= usize::MAX,
    ensures
        r.computes(d, s as int, kv_start as int, use_causal),
{
    let rows: usize = d.b * s;
    let width: usize = d.nqh * d.hd;
    let attention = if s == 1 {
        CpuAttention::Decode
    } else {
        CpuAttention::Prefill { causal: use_causal }
    };
    let attn_shape: Vec<usize> = vec![d.b, s, width];
    assert(attn_shape@ =~= seq![d.b, s, width]);
    CpuLayerPlan {
        steps: list_cpu_steps(),
        rows,
        path: linear_path(rows),
        cur_len: kv_start + s,
        attention,
        jobs: d.b * d.nqh,
        attn_shape,
    }
}

/// How many of `s` new tokens are scored: with `llo` only the last one of several.
pub open spec fn scored_tokens(s: int, llo: bool) -> int {
    if llo && s > 1 {
        1
    } else {
        s
    }
}

/// What the decoder does for `[1, s, hidden]` on the CPU.
pub struct CpuDecoderPlan {
    /// What every layer does.
    pub layer: CpuLayerPlan,
    /// Whether scores are computed for the last token alone.
    pub last_only: bool,
    /// Shape of the scores.
    pub logits_shape: Vec<usize>,
}

/// Plans the decoder for `s` new tokens behind `kv_start` cached positions, and
/// records that they are in the caches then. With `llo` only the last token of
/// several is scored, otherwise every one.
pub fn plan_cpu_decoder<T>(
    kv: &mut CpuKvCache<T>,
    d: HeadDims,
    s: usize,
    vocab: usize,
    kv_start: usize,
    use_causal: bool,
    llo: bool,
) -> (r: CpuDecoderPlan)
    requires
        d.b == 1,
        d.nqh * d.hd <= usize::MAX,
        kv_start + s <= old(kv).max_seq,
    ensures
        r.layer.computes(d, s as int, kv_start as int, use_causal),
        r.last_only == (llo && s > 1),
        r.logits_shape@ == seq![1usize, scored_tokens(s as int, llo) as usize, vocab],
        *final(kv) == (CpuKvCache { cur_len: (kv_start + s) as usize, ..*old(kv) }),
{
    assert(d.b * s == s && d.b * d.nqh == d.nqh) by (nonlinear_arith)
        requires
            d.b == 1,
    ;
    let layer = plan_cpu_layer(d, s, kv_start, use_causal);
    kv.cur_len = layer.cur_len;
    let last_only = llo && s > 1;
    let scored: usize = if last_only {
        1
    } else {
        s
    };
    let logits_shape: Vec<usize> = vec![1usize, scored, vocab];
    assert(logits_shape@ =~= seq![1usize, scored, vocab]);
    CpuDecoderPlan { layer, last_only, logits_shape }
}

/// Whether `out` can come out of scoring a row of numbers.
pub open spec fn scored<T, F: Fn(&[T]) -> Vec<T>>(score: F, row: Seq<T>, out: Seq<T>) -> bool {
    exists|x: &[T], y: Vec<T>|
        x@ == row && y@ == out && #[trigger] call_ensures(score, (x,), y)
}

/// Scores the tokens of `[1, s, hidden]`, the last one of several alone with `llo`,
/// as `[1, scored, vocab]`.
pub fn score_tokens<T: Copy, F: Fn(&[T]) -> Vec<T>>(
    h: &CpuTensor<T>,
    vocab: usize,
    llo: bool,
    score: F,
) -> (r: CpuTensor<T>)
    requires
        h.valid(),
        h.shape@.len() == 3,
        h.shape@[0] == 1,
        scored_tokens(h.shape@[1] as int, llo) * vocab <= usize::MAX,
        forall|x: &[T]| x@.len() == h.shape@[2] ==> #[trigger] call_requires(score, (x,)),
        forall|x: &[T], y: Vec<T>|
            x@.len() == h.shape@[2] && #[trigger] call_ensures(score, (x,), y) ==> y@.len() == vocab,
    ensures
        r.valid(),
        r.shape@ == seq![1usize, scored_tokens(h.shape@[1] as int, llo) as usize, vocab],
        forall|i: int|
            0 <= i < scored_tokens(h.shape@[1] as int, llo) ==> {
                let row = h.shape@[1] - scored_tokens(h.shape@[1] as int, llo) + i;
                scored(
                    score,
                    h.data@.subrange(row * h.shape@[2], (row + 1) * h.shape@[2]),
                    #[trigger] r.data@.subrange(i * vocab, (i + 1) * vocab),
                )
            },
{
    let s: usize = h.shape[1];
    let hidden: usize = h.shape[2];
    let count: usize = if llo && s > 1 {
        1
    } else {
        s
    };
    let first: usize = s - count;
    proof {
        assert(h.shape@ =~= seq![1usize, s, hidden]);
        lemma_product3(1, s, hidden);
        assert(1 * s * hidden == s * hidden) by (nonlinear_arith);
        assert(h.data.len() <= usize::MAX);
    }
    let mut data: Vec<T> = Vec::new();
    let mut i: usize = 0;
    while i < count
        invariant
            i <= count,
            first + count == s,
            h.data@.len() == s * hidden,
            s * hidden <= usize::MAX,
            data@.len() == i * vocab,
            forall|x: &[T]| x@.len() == hidden ==> #[trigger] call_requires(score, (x,)),
            forall|x: &[T], y: Vec<T>|
                x@.len() == hidden && #[trigger] call_ensures(score, (x,), y) ==> y@.len() == vocab,
            forall|k: int|
                0 <= k < i ==> scored(
                    score,
                    h.data@.subrange((first + k) * hidden, (first + k + 1) * hidden),
                    #[trigger] data@.subrange(k * vocab, (k + 1) * vocab),
                ),
        decreases count - i,
    {
        let ghost before = data@;
        proof {
            lemma_inside_row(first + i, s as int, hidden as int);
            assert((i + 1) * vocab == i * vocab + vocab) by (nonlinear_arith);
        }
        let at: usize = (first + i) * hidden;
        let row = vstd::slice::slice_subrange(h.data.as_slice(), at, at + hidden);
        let out = score(row);
        append_copy(&mut data, out.as_slice());
        proof {
            let want = h.data@.subrange((first + i) * hidden, (first + i + 1) * hidden);
            assert(row@ =~= want);
            assert(data@.subrange(i * vocab, (i + 1) * vocab) =~= out@);
            assert(scored(score, want, data@.subrange(i * vocab, (i + 1) * vocab)));
            assert forall|k: int| 0 <= k < i + 1 implies scored(
                score,
                h.data@.subrange((first + k) * hidden, (first + k + 1) * hidden),
                #[trigger] data@.subrange(k * vocab, (k + 1) * vocab),
            ) by {
                if k < i {
                    lemma_inside_row(k, i as int, vocab as int);
                    assert(data@.subrange(k * vocab, (k + 1) * vocab) =~= before.subrange(
                        k * vocab,
                        (k + 1) * vocab,
                    ));
                }
            }
        }
        i += 1;
    }
    let shape: Vec<usize> = vec![1usize, count, vocab];
    proof {
        assert(shape@ =~= seq![1usize, count, vocab]);
        lemma_product3(1, count, vocab);
        assert(1 * count * vocab == count * vocab) by (nonlinear_arith);
    }
    CpuTensor::new(data, shape)
}

/// Row `i` of `n` rows lies inside them.
proof fn lemma_inside_row(i: int, n: int, width: int)
    requires
        0 <= i < n,
        0 <= width,
    ensures
        0 <= i * width,
        (i + 1) * width == i * width + width,
        (i + 1) * width <= n * width,
{
    assert(0 <= i * width && (i + 1) * width == i * width + width && (i + 1) * width <= n * width)
        by (nonlinear_arith)
        requires
            0 <= i < n,
            0 <= width,
    ;
}

/// What becomes of the new keys and values of a layer in a cache that grows.
#[derive(Clone, Copy, PartialEq, Eq, Structural)]
pub enum CacheUpdate {
    /// They are the first of their layer.
    Push,
    /// They go behind those of the layer.
    Append { layer: usize },
}

/// Decides what becomes of new keys and values, given how many layers the cache
/// has.
pub fn cache_update(layer: usize, cached_layers: usize) -> (r: CacheUpdate)
    ensures
        r == if layer < cached_layers {
            CacheUpdate::Append { layer }
        } else {
            CacheUpdate::Push
        },
{
    if layer < cached_layers {
        CacheUpdate::Append { layer }
    } else {
        CacheUpdate::Push
    }
}

/// Where the extraction reads. A token's row of the fused projection holds its query heads,
/// then its key heads, then its value heads; a token of any sequence is turned by its place
/// in that sequence, counted from the first new one's.
pub proof fn law_extraction_reads_the_projection<T>(
    at: CpuExtract,
    qkv: Seq<T>,
    values: Seq<T>,
    ib: int,
    i: int,
    qh: int,
    kh: int,
    x: int,
)
    requires
        at.fits(),
        qkv.len() == at.heads.b * at.s * at.total_cols,
        at.values(qkv, values),
        0 <= ib < at.heads.b,
        0 <= i < at.s,
        0 <= qh < at.heads.nqh,
        0 <= kh < at.heads.nkvh,
        0 <= x < at.heads.hd,
    ensures
        ({
            let d = at.heads;
            let (hd, cols) = (d.hd as int, at.total_cols as int);
            let t = ib * at.s + i;
            &&& at.position(t) == at.pos_offset + i
            &&& head_columns(qkv, cols, 0, hd, t, qh).len() == hd
            &&& head_columns(qkv, cols, 0, hd, t, qh)[x] == qkv[t * cols + qh * hd + x]
            &&& head_columns(qkv, cols, at.q_dim(), hd, t, kh)[x] == qkv[t * cols + (d.nqh + kh)
                * hd + x]
            &&& values[(t * d.nkvh + kh) * hd + x] == qkv[t * cols + (d.nqh + d.nkvh + kh) * hd + x]
        }),
{
    let d = at.heads;
    let (hd, cols, nqh, nkvh) = (d.hd as int, at.total_cols as int, d.nqh as int, d.nkvh as int);
    let t = ib * at.s + i;
    lemma_split(ib, at.s as int, i);
    lemma_inside(ib, d.b as int, at.s as int, i);
    lemma_inside(qh, nqh, hd, x);
    lemma_inside(kh, nkvh, hd, x);
    lemma_inside(t, d.b * at.s, cols, qh * hd + x);
    lemma_monotone(0, 0, t, cols);
    lemma_monotone(0, 0, qh, hd);
    lemma_monotone(0, 0, kh, hd);
    lemma_monotone(0, 0, nqh, hd);
    lemma_monotone(0, 0, nkvh, hd);
    assert(qh * hd + hd <= nqh * hd) by (nonlinear_arith)
        requires
            qh + 1 <= nqh,
            0 < hd,
    ;
    assert(kh * hd + hd <= nkvh * hd) by (nonlinear_arith)
        requires
            kh + 1 <= nkvh,
            0 < hd,
    ;
    assert(t * cols + cols <= d.b * at.s * cols) by (nonlinear_arith)
        requires
            t + 1 <= d.b * at.s,
            0 <= cols,
    ;
    assert((nqh + kh) * hd == nqh * hd + kh * hd) by (nonlinear_arith);
    assert((nqh + nkvh + kh) * hd == nqh * hd + nkvh * hd + kh * hd) by (nonlinear_arith);
    assert((t * nkvh + kh) * hd + x == t * (nkvh * hd) + (kh * hd + x)) by (nonlinear_arith);
    let kv = at.kv_dim();
    let j = kh * hd + x;
    assert(values[t * kv + j] == qkv[t * cols + at.q_dim() + kv + j]);
}

/// Every new token is scored, or the last one alone: never none where there is one, and
/// never more than there are.
pub proof fn law_scored_tokens(s: int, llo: bool)
    requires
        0 < s,
    ensures
        !llo ==> scored_tokens(s, llo) == s,
        llo ==> scored_tokens(s, llo) == 1,
{
}

/// The rows of heads that were prepared: that of head `h` of token `i` of sequence `ib` is what
/// `prepare` makes of the head's columns at the token's place in its sequence, and stands in
/// order of tokens and heads.
pub proof fn law_prepared_rows<T, F: Fn(&[T], usize) -> Vec<T>>(
    at: CpuExtract,
    prepare: F,
    qkv: Seq<T>,
    from: int,
    n_heads: usize,
    rows: Seq<T>,
    ib: int,
    i: int,
    h: int,
)
    requires
        at.fits(),
        at.prepares(prepare, qkv, from, n_heads, rows),
        0 <= ib < at.heads.b,
        0 <= i < at.s,
        0 <= h < n_heads,
    ensures
        ({
            let hd = at.heads.hd as int;
            let t = ib * at.s + i;
            let column = t * at.total_cols + from + h * hd;
            let row = (t * n_heads + h) * hd;
            prepared(
                prepare,
                qkv.subrange(column, column + hd),
                (at.pos_offset + i) as usize,
                rows.subrange(row, row + hd),
            )
        }),
{
    let t = ib * at.s + i;
    lemma_split(ib, at.s as int, i);
    lemma_inside(ib, at.heads.b as int, at.s as int, i);
    assert(prepared(
        prepare,
        head_columns(qkv, at.total_cols as int, from, at.heads.hd as int, t, h),
        at.position(t),
        rows.subrange(
            (t * n_heads + h) * at.heads.hd,
            (t * n_heads + h) * at.heads.hd + at.heads.hd,
        ),
    ));
}

} // verus!

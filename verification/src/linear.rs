//! Shapes and strides of matrix products `y = x W^T`.
//!
//! `x` is `[.., k]` and `W` is `[n, k]`, both row-major, so the product is
//! `[.., n]`. The CPU kernels take a stride per row and column of each operand;
//! the GPU library works on column-major matrices and is told to transpose.
use vstd::prelude::*;

use crate::layout::lemma_inside;
use crate::tensor::{count_prefix, countable, lemma_product_nonneg, outer, product};

verus! {

/// Shape of a product with `n` output features.
pub open spec fn out_shape(shape: Seq<usize>, n: usize) -> Seq<usize> {
    shape.update(shape.len() - 1, n)
}

/// Sizes of a product.
pub struct LinearShape {
    /// Rows of `x`.
    pub m: usize,
    /// Columns of `x` and `W`.
    pub k: usize,
    /// Rows of `W`.
    pub n: usize,
    /// Shape of the product.
    pub out_shape: Vec<usize>,
}

impl LinearShape {
    /// What the sizes are for an operand of the given shape and `n` features.
    pub open spec fn describes(self, shape: Seq<usize>, n: usize) -> bool {
        &&& self.m == outer(shape)
        &&& self.k == shape.last()
        &&& self.n == n
        &&& self.out_shape@ == out_shape(shape, n)
    }
}

/// Copies a shape with another last dimension.
pub fn with_last(shape: &[usize], n: usize) -> (r: Vec<usize>)
    requires
        0 < shape@.len(),
    ensures
        r@ == out_shape(shape@, n),
{
    let mut out = vstd::slice::slice_to_vec(shape);
    let last: usize = shape.len() - 1;
    out.set(last, n);
    out
}

/// The elements of a product: its rows times its features.
pub proof fn lemma_out_shape(shape: Seq<usize>, n: usize)
    requires
        0 < shape.len(),
        countable(shape.drop_last()),
    ensures
        product(out_shape(shape, n)) == outer(shape) * n,
        countable(out_shape(shape, n)) <==> outer(shape) * n <= usize::MAX,
        0 <= outer(shape) <= usize::MAX,
{
    assert(out_shape(shape, n).drop_last() =~= shape.drop_last());
    lemma_product_nonneg(shape.drop_last());
}

/// Sizes of the product of an `x` of the given shape with a `[n, _]` matrix.
pub fn linear_shape(shape: &[usize], n: usize) -> (r: LinearShape)
    requires
        0 < shape@.len(),
        countable(shape@.drop_last()),
    ensures
        r.describes(shape@, n),
{
    let nd: usize = shape.len();
    assert(shape@.take(nd - 1) =~= shape@.drop_last());
    let m: usize = count_prefix(shape, nd - 1);
    let k: usize = shape[nd - 1];
    LinearShape { m, k, n, out_shape: with_last(shape, n) }
}

/// How a product with a quantised matrix is computed.
#[derive(Clone, Copy, PartialEq, Eq, Structural)]
pub enum LinearPath {
    /// One row: the quantised matrix is read directly.
    Gemv,
    /// Several rows: the matrix is expanded first.
    Gemm,
}

/// Picks the kernel for `m` rows.
pub fn linear_path(m: usize) -> (r: LinearPath)
    ensures
        r == if m == 1 {
            LinearPath::Gemv
        } else {
            LinearPath::Gemm
        },
{
    if m == 1 {
        LinearPath::Gemv
    } else {
        LinearPath::Gemm
    }
}

/// Sizes and strides of `dst = lhs rhs` for a kernel that takes a column and a
/// row stride per operand.
#[derive(Clone, Copy)]
pub struct GemmStrides {
    /// Rows of `dst` and `lhs`.
    pub m: usize,
    /// Columns of `dst` and `rhs`.
    pub n: usize,
    /// Columns of `lhs` and rows of `rhs`.
    pub k: usize,
    pub dst_cs: isize,
    pub dst_rs: isize,
    pub lhs_cs: isize,
    pub lhs_rs: isize,
    pub rhs_cs: isize,
    pub rhs_rs: isize,
}

impl GemmStrides {
    /// Where element `(i, j)` of `dst` lies.
    pub open spec fn dst(self, i: int, j: int) -> int {
        i * self.dst_rs + j * self.dst_cs
    }

    /// Where element `(i, j)` of `lhs` lies.
    pub open spec fn lhs(self, i: int, j: int) -> int {
        i * self.lhs_rs + j * self.lhs_cs
    }

    /// Where element `(i, j)` of `rhs` lies.
    pub open spec fn rhs(self, i: int, j: int) -> int {
        i * self.rhs_rs + j * self.rhs_cs
    }

    /// Every element that the product reads lies inside operands of these lengths.
    pub open spec fn reads_inside(self, lhs_len: int, rhs_len: int) -> bool {
        &&& forall|i: int, l: int|
            0 <= i < self.m && 0 <= l < self.k ==> 0 <= #[trigger] self.lhs(i, l) < lhs_len
        &&& forall|l: int, j: int|
            0 <= l < self.k && 0 <= j < self.n ==> 0 <= #[trigger] self.rhs(l, j) < rhs_len
    }
}

/// Strides of `y = x W^T`, all row-major.
pub fn gemm_row_major_strides(m: usize, n: usize, k: usize) -> (r: GemmStrides)
    requires
        n <= isize::MAX,
        k <= isize::MAX,
    ensures
        r.m == m,
        r.n == n,
        r.k == k,
        forall|i: int, j: int| #[trigger] r.dst(i, j) == i * n + j,
        forall|i: int, j: int| #[trigger] r.lhs(i, j) == i * k + j,
        forall|i: int, j: int| #[trigger] r.rhs(i, j) == j * k + i,
{
    let r = GemmStrides {
        m,
        n,
        k,
        dst_cs: 1,
        dst_rs: n as isize,
        lhs_cs: 1,
        lhs_rs: k as isize,
        rhs_cs: k as isize,
        rhs_rs: 1,
    };
    r
}

/// Strides of `q K^T`.
pub open spec fn qk_strides(s: usize, cur_len: usize, hd: usize, tok_stride: usize) -> GemmStrides {
    GemmStrides {
        m: s,
        n: cur_len,
        k: hd,
        dst_cs: 1,
        dst_rs: cur_len as isize,
        lhs_cs: 1,
        lhs_rs: tok_stride as isize,
        rhs_cs: hd as isize,
        rhs_rs: 1,
    }
}

/// Strides of the attention scores `q K^T` of one head: `s` queries that lie
/// `tok_stride` apart against `cur_len` keys of width `hd`.
pub fn prefill_qk_strides(s: usize, cur_len: usize, hd: usize, tok_stride: usize) -> (r: GemmStrides)
    requires
        cur_len <= isize::MAX,
        hd <= isize::MAX,
        tok_stride <= isize::MAX,
    ensures
        r == qk_strides(s, cur_len, hd, tok_stride),
        r.m == s,
        r.n == cur_len,
        r.k == hd,
        forall|i: int, t: int| #[trigger] r.dst(i, t) == i * cur_len + t,
        forall|i: int, j: int| #[trigger] r.lhs(i, j) == i * tok_stride + j,
        forall|j: int, t: int| #[trigger] r.rhs(j, t) == t * hd + j,
{
    GemmStrides {
        m: s,
        n: cur_len,
        k: hd,
        dst_cs: 1,
        dst_rs: cur_len as isize,
        lhs_cs: 1,
        lhs_rs: tok_stride as isize,
        rhs_cs: hd as isize,
        rhs_rs: 1,
    }
}

/// Strides of weights times values.
pub open spec fn av_strides(s: usize, cur_len: usize, hd: usize, tok_stride: usize) -> GemmStrides {
    GemmStrides {
        m: s,
        n: hd,
        k: cur_len,
        dst_cs: 1,
        dst_rs: tok_stride as isize,
        lhs_cs: 1,
        lhs_rs: cur_len as isize,
        rhs_cs: 1,
        rhs_rs: hd as isize,
    }
}

/// Strides of the attention output of one head: `[s, cur_len]` weights times
/// `cur_len` values of width `hd`, written `tok_stride` apart.
pub fn prefill_av_strides(s: usize, cur_len: usize, hd: usize, tok_stride: usize) -> (r: GemmStrides)
    requires
        cur_len <= isize::MAX,
        hd <= isize::MAX,
        tok_stride <= isize::MAX,
    ensures
        r == av_strides(s, cur_len, hd, tok_stride),
        r.m == s,
        r.n == hd,
        r.k == cur_len,
        forall|i: int, j: int| #[trigger] r.dst(i, j) == i * tok_stride + j,
        forall|i: int, t: int| #[trigger] r.lhs(i, t) == i * cur_len + t,
        forall|t: int, j: int| #[trigger] r.rhs(t, j) == t * hd + j,
{
    GemmStrides {
        m: s,
        n: hd,
        k: cur_len,
        dst_cs: 1,
        dst_rs: tok_stride as isize,
        lhs_cs: 1,
        lhs_rs: cur_len as isize,
        rhs_cs: 1,
        rhs_rs: hd as isize,
    }
}

/// The strides of a row-major product never leave its operands: `x` has
/// `m * k`, `W` has `n * k` and the product has `m * n` elements.
pub proof fn law_row_major_product_inside(m: int, n: int, k: int, i: int, j: int, l: int)
    requires
        0 <= i < m,
        0 <= j < n,
        0 <= l < k,
    ensures
        0 <= i * n + j < m * n,
        0 <= i * k + l < m * k,
        0 <= j * k + l < n * k,
{
    lemma_inside(i, m, n, j);
    lemma_inside(i, m, k, l);
    lemma_inside(j, n, k, l);
}

/// A product of column-major matrices, `c = op(a) op(b)`, as a GPU library
/// takes it. `c` is `[m, n]`; `a` is stored `[k, m]` where it is transposed and
/// `[m, k]` otherwise, `b` is `[k, n]`.
#[derive(Clone, Copy)]
pub struct GemmConfig {
    /// Whether `a` is transposed.
    pub transa: bool,
    pub m: i32,
    pub n: i32,
    pub k: i32,
    pub lda: i32,
    pub ldb: i32,
    pub ldc: i32,
    /// Whether the product is added to what `c` holds.
    pub accumulate: bool,
}

impl GemmConfig {
    /// Where element `(i, l)` of `op(a)` lies.
    pub open spec fn a(self, i: int, l: int) -> int {
        if self.transa {
            i * self.lda + l
        } else {
            l * self.lda + i
        }
    }

    /// Where element `(l, j)` of `b` lies.
    pub open spec fn b(self, l: int, j: int) -> int {
        j * self.ldb + l
    }

    /// Where element `(i, j)` of `c` lies.
    pub open spec fn c(self, i: int, j: int) -> int {
        j * self.ldc + i
    }
}

/// The same product for every pair of matrices in a batch, which lie a fixed
/// distance apart.
#[derive(Clone, Copy)]
pub struct StridedBatchedConfig {
    pub gemm: GemmConfig,
    pub batch_size: i32,
    pub stride_a: i64,
    pub stride_b: i64,
    pub stride_c: i64,
}

/// The configuration of `y = x W^T` with `a = W` and `b = x`.
pub open spec fn linear_config(m: usize, n: usize, k: usize, accumulate: bool) -> GemmConfig {
    GemmConfig {
        transa: true,
        m: n as i32,
        n: m as i32,
        k: k as i32,
        lda: k as i32,
        ldb: k as i32,
        ldc: n as i32,
        accumulate,
    }
}

/// Plans `y = x W^T`, or `y += x W^T`, for `x` of `[m, k]` and `W` of `[n, k]`.
pub fn linear_gemm(m: usize, n: usize, k: usize, accumulate: bool) -> (r: GemmConfig)
    ensures
        r == linear_config(m, n, k, accumulate),
{
    GemmConfig {
        transa: true,
        m: #[verifier::truncate] (n as i32),
        n: #[verifier::truncate] (m as i32),
        k: #[verifier::truncate] (k as i32),
        lda: #[verifier::truncate] (k as i32),
        ldb: #[verifier::truncate] (k as i32),
        ldc: #[verifier::truncate] (n as i32),
        accumulate,
    }
}

/// The column-major configuration is the row-major product: element `(i, j)` of
/// the product is read at `i * n + j`, and it is the sum over `l` of `x` at
/// `i * k + l` times `W` at `j * k + l`.
pub proof fn law_linear_config_is_row_major(
    m: usize,
    n: usize,
    k: usize,
    accumulate: bool,
    i: int,
    j: int,
    l: int,
)
    requires
        m <= i32::MAX,
        n <= i32::MAX,
        k <= i32::MAX,
    ensures
        ({
            let g = linear_config(m, n, k, accumulate);
            &&& (g.m, g.n, g.k) == (n as i32, m as i32, k as i32)
            &&& g.c(j, i) == i * n + j
            &&& g.a(j, l) == j * k + l
            &&& g.b(l, i) == i * k + l
        }),
{
}

/// The configuration of the scores `q K^T` of `b * h` heads, with `a = K` and
/// `b = q`.
pub open spec fn qk_config(b: usize, h: usize, m: usize, n: usize, d: usize) -> StridedBatchedConfig {
    StridedBatchedConfig {
        gemm: linear_config(m, n, d, false),
        batch_size: (b * h) as i32,
        stride_a: (n * d) as i64,
        stride_b: (m * d) as i64,
        stride_c: (m * n) as i64,
    }
}

/// Plans the scores of `b * h` heads: queries `[m, d]`, keys `[n, d]`.
pub fn attention_qk(b: usize, h: usize, m: usize, n: usize, d: usize) -> (r: StridedBatchedConfig)
    requires
        b * h <= usize::MAX,
        n * d <= usize::MAX,
        m * d <= usize::MAX,
        m * n <= usize::MAX,
    ensures
        r == qk_config(b, h, m, n, d),
{
    StridedBatchedConfig {
        gemm: linear_gemm(m, n, d, false),
        batch_size: #[verifier::truncate] ((b * h) as i32),
        stride_a: #[verifier::truncate] ((n * d) as i64),
        stride_b: #[verifier::truncate] ((m * d) as i64),
        stride_c: #[verifier::truncate] ((m * n) as i64),
    }
}

/// The configuration of the outputs of `b * h` heads, with `a = V` and `b` the
/// attention weights.
pub open spec fn av_config(b: usize, h: usize, m: usize, n: usize, d: usize) -> StridedBatchedConfig {
    StridedBatchedConfig {
        gemm: GemmConfig {
            transa: false,
            m: d as i32,
            n: m as i32,
            k: n as i32,
            lda: d as i32,
            ldb: n as i32,
            ldc: d as i32,
            accumulate: false,
        },
        batch_size: (b * h) as i32,
        stride_a: (n * d) as i64,
        stride_b: (m * n) as i64,
        stride_c: (m * d) as i64,
    }
}

/// Plans the outputs of `b * h` heads: weights `[m, n]`, values `[n, d]`.
pub fn attention_av(b: usize, h: usize, m: usize, n: usize, d: usize) -> (r: StridedBatchedConfig)
    requires
        b * h <= usize::MAX,
        n * d <= usize::MAX,
        m * d <= usize::MAX,
        m * n <= usize::MAX,
    ensures
        r == av_config(b, h, m, n, d),
{
    StridedBatchedConfig {
        gemm: GemmConfig {
            transa: false,
            m: #[verifier::truncate] (d as i32),
            n: #[verifier::truncate] (m as i32),
            k: #[verifier::truncate] (n as i32),
            lda: #[verifier::truncate] (d as i32),
            ldb: #[verifier::truncate] (n as i32),
            ldc: #[verifier::truncate] (d as i32),
            accumulate: false,
        },
        batch_size: #[verifier::truncate] ((b * h) as i32),
        stride_a: #[verifier::truncate] ((n * d) as i64),
        stride_b: #[verifier::truncate] ((m * n) as i64),
        stride_c: #[verifier::truncate] ((m * d) as i64),
    }
}

/// In one head, element `(i, j)` of the output is read at `i * d + j`, and it is
/// the sum over `t` of the weight at `i * n + t` times the value at `t * d + j`.
pub proof fn law_av_config_is_row_major(
    b: usize,
    h: usize,
    m: usize,
    n: usize,
    d: usize,
    i: int,
    j: int,
    t: int,
)
    requires
        m <= i32::MAX,
        n <= i32::MAX,
        d <= i32::MAX,
    ensures
        ({
            let g = av_config(b, h, m, n, d).gemm;
            &&& g.c(j, i) == i * d + j
            &&& g.a(j, t) == t * d + j
            &&& g.b(t, i) == i * n + t
        }),
{
}

} // verus!

//! Integer part of the INT8 matrix-vector product.
//!
//! Weights and activations are quantised to `-127..=127`. Their products are
//! summed exactly in 32-bit integers; only the scales that the sum is multiplied
//! with are floating point. Rows are padded with zeros to a multiple of 32 so
//! that a kernel can work in whole blocks.
use vstd::prelude::*;

use crate::layout::{lemma_inside, lemma_join, lemma_monotone, lemma_row_below, lemma_split};

verus! {

/// Values that quantisation produces.
pub open spec fn quantised(v: i8) -> bool {
    -127 <= v <= 127
}

/// A buffer of quantised values.
pub open spec fn all_quantised(s: Seq<i8>) -> bool {
    forall|i: int| 0 <= i < s.len() ==> quantised(#[trigger] s[i])
}

/// Sum of the products of elements `lo..hi`.
pub open spec fn dot(x: Seq<i8>, w: Seq<i8>, lo: int, hi: int) -> int
    decreases hi - lo,
{
    if hi <= lo {
        0
    } else {
        dot(x, w, lo, hi - 1) + x[hi - 1] * w[hi - 1]
    }
}

/// The next multiple of 32.
pub open spec fn padded(k: int) -> int {
    (k + 31) / 32 * 32
}

/// Rounds a number of columns up to a multiple of 32.
pub fn pad_cols(k: usize) -> (r: usize)
    requires
        k + 31 <= usize::MAX,
    ensures
        r == padded(k as int),
        k <= r < k + 32,
        r % 32 == 0,
{
    (k + 31) / 32 * 32
}

/// A weight matrix of quantised values with padded rows.
pub struct CpuWeightI8 {
    /// The values, `[rows, cols]`.
    pub data: Vec<i8>,
    /// Output features.
    pub rows: usize,
    /// Input features, padded to a multiple of 32.
    pub cols: usize,
}

impl CpuWeightI8 {
    /// A matrix whose rows can be multiplied in blocks.
    pub open spec fn valid(self) -> bool {
        &&& self.data@.len() == self.rows * self.cols
        &&& self.cols % 32 == 0
        &&& all_quantised(self.data@)
    }

    /// Row `i`.
    pub open spec fn row(self, i: int) -> Seq<i8> {
        self.data@.subrange(i * self.cols, i * self.cols + self.cols)
    }

    /// The matrix that `[rows, k]` values become, their rows padded with zeros.
    pub open spec fn holds(self, values: Seq<i8>, rows: int, k: int) -> bool {
        &&& self.rows == rows
        &&& self.cols == padded(k)
        &&& forall|i: int, j: int|
            0 <= i < rows && 0 <= j < self.cols ==> self.data@[#[trigger] (i * self.cols + j)]
                == if j < k {
                values[i * k + j]
            } else {
                0
            }
    }

    /// The first `k` values of every row, one row behind the other.
    pub open spec fn gives(self, k: int, values: Seq<i8>) -> bool {
        &&& values.len() == self.rows * k
        &&& forall|i: int, j: int|
            0 <= i < self.rows && 0 <= j < k ==> values[#[trigger] (i * k + j)] == self.data@[i
                * self.cols + j]
    }

    /// Pads the rows of a `[rows, k]` matrix of quantised values with zeros.
    pub fn pack(values: &[i8], rows: usize, k: usize) -> (r: Self)
        requires
            values@.len() == rows * k,
            all_quantised(values@),
            k + 31 <= usize::MAX,
            rows * padded(k as int) <= usize::MAX,
        ensures
            r.valid(),
            r.holds(values@, rows as int, k as int),
    {
        let kpad: usize = pad_cols(k);
        let total: usize = rows * kpad;
        let mut data: Vec<i8> = Vec::new();
        let mut n: usize = 0;
        assert(values.len() <= usize::MAX);
        while n < total
            invariant
                n <= total,
                total == rows * kpad,
                k <= kpad < k + 32,
                values@.len() == rows * k,
                values@.len() <= usize::MAX,
                all_quantised(values@),
                data@.len() == n,
                all_quantised(data@),
                forall|x: int|
                    0 <= x < n ==> #[trigger] data@[x] == if x % (kpad as int) < k {
                        values@[(x / (kpad as int)) * k + x % (kpad as int)]
                    } else {
                        0
                    },
            decreases total - n,
        {
            assert(0 < kpad) by (nonlinear_arith)
                requires
                    0 <= n < rows * kpad,
                    0 <= kpad,
            ;
            let i: usize = n / kpad;
            let j: usize = n % kpad;
            proof {
                lemma_row_below(n as int, rows as int, kpad as int);
            }
            if j < k {
                proof {
                    lemma_inside(i as int, rows as int, k as int, j as int);
                    lemma_monotone(0, 0, i as int, k as int);
                }
                let v: i8 = values[i * k + j];
                data.push(v);
            } else {
                data.push(0);
            }
            n += 1;
        }
        proof {
            assert forall|i: int, j: int|
                0 <= i < rows && 0 <= j < kpad implies data@[#[trigger] (i * kpad + j)] == if j
                < k {
                values@[i * k + j]
            } else {
                0
            } by {
                lemma_split(i, kpad as int, j);
                lemma_inside(i, rows as int, kpad as int, j);
            }
        }
        CpuWeightI8 { data, rows, cols: kpad }
    }

    /// The values without the padding, `[rows, real_k]`.
    pub fn unpack(&self, real_k: usize) -> (r: Vec<i8>)
        requires
            self.valid(),
            real_k <= self.cols,
        ensures
            self.gives(real_k as int, r@),
    {
        proof {
            assert(self.data.len() <= usize::MAX);
            lemma_monotone(self.rows as int, real_k as int, self.rows as int, self.cols as int);
        }
        crate::attention::take_columns(self.data.as_slice(), self.rows, self.cols, 0, real_k)
    }
}

/// Unpacking gives back the values that were packed.
pub proof fn law_unpack_undoes_pack(
    w: CpuWeightI8,
    values: Seq<i8>,
    rows: int,
    k: int,
    unpacked: Seq<i8>,
)
    requires
        0 <= rows,
        0 <= k,
        values.len() == rows * k,
        w.holds(values, rows, k),
        w.gives(k, unpacked),
    ensures
        unpacked == values,
{
    assert forall|x: int| 0 <= x < rows * k implies unpacked[x] == values[x] by {
        assert(0 < k) by (nonlinear_arith)
            requires
                0 <= x < rows * k,
                0 <= k,
        ;
        lemma_row_below(x, rows, k);
        lemma_join(x, k);
        let (i, j) = (x / k, x % k);
        assert(unpacked[i * k + j] == w.data@[i * w.cols + j]);
    }
    assert(unpacked =~= values);
}

/// Largest length whose sum of products surely fits 32 bits.
pub open spec fn sums_fit(len: int) -> bool {
    len * 16129 <= i32::MAX
}

/// A product of quantised values stays below 2 to the 14th, a pair of them
/// below 2 to the 15th: neither leaves 16 bits.
pub proof fn law_products_stay_small(a: i8, b: i8, c: i8, d: i8)
    requires
        quantised(a),
        quantised(b),
        quantised(c),
        quantised(d),
    ensures
        -16129 <= a * b <= 16129,
        -32258 <= a * b + c * d <= 32258,
{
    assert(-16129 <= a * b <= 16129) by (nonlinear_arith)
        requires
            -127 <= a <= 127,
            -127 <= b <= 127,
    ;
    assert(-16129 <= c * d <= 16129) by (nonlinear_arith)
        requires
            -127 <= c <= 127,
            -127 <= d <= 127,
    ;
}

/// A sum of products of quantised values grows by at most 16129 per element.
pub proof fn law_dot_bounded(x: Seq<i8>, w: Seq<i8>, lo: int, hi: int)
    requires
        0 <= lo <= hi <= x.len(),
        hi <= w.len(),
        all_quantised(x),
        all_quantised(w),
    ensures
        -16129 * (hi - lo) <= dot(x, w, lo, hi) <= 16129 * (hi - lo),
    decreases hi - lo,
{
    if lo < hi {
        law_dot_bounded(x, w, lo, hi - 1);
        law_products_stay_small(x[hi - 1], w[hi - 1], 0, 0);
    }
}

/// Elements that are zero in one of the two factors add nothing, so padding
/// does not change a product.
pub proof fn law_padding_adds_nothing(x: Seq<i8>, w: Seq<i8>, k: int, kpad: int)
    requires
        0 <= k <= kpad <= x.len(),
        kpad <= w.len(),
        forall|j: int| k <= j < kpad ==> #[trigger] x[j] == 0 || w[j] == 0,
    ensures
        dot(x, w, 0, kpad) == dot(x, w, 0, k),
    decreases kpad - k,
{
    if k < kpad {
        law_padding_adds_nothing(x, w, k, kpad - 1);
        let j = kpad - 1;
        assert(x[j] == 0 || w[j] == 0);
        assert(x[j] * w[j] == 0) by (nonlinear_arith)
            requires
                x[j] == 0 || w[j] == 0,
        ;
    }
}

proof fn lemma_dot_splits(x: Seq<i8>, w: Seq<i8>, lo: int, mid: int, hi: int)
    requires
        lo <= mid <= hi,
    ensures
        dot(x, w, lo, hi) == dot(x, w, lo, mid) + dot(x, w, mid, hi),
    decreases hi - mid,
{
    if mid < hi {
        lemma_dot_splits(x, w, lo, mid, hi - 1);
    }
}

/// What lane `l` adds for the block at `at`: two neighbours of the lower half
/// and two of the upper half.
pub open spec fn lane_term(x: Seq<i8>, w: Seq<i8>, at: int, l: int) -> int {
    x[at + 2 * l] * w[at + 2 * l] + x[at + 2 * l + 1] * w[at + 2 * l + 1] + (x[at + 16 + 2 * l]
        * w[at + 16 + 2 * l] + x[at + 17 + 2 * l] * w[at + 17 + 2 * l])
}

/// Sum of the eight lanes.
pub open spec fn lanes_total(lanes: Seq<i32>) -> int {
    lanes[0] + lanes[1] + lanes[2] + lanes[3] + lanes[4] + lanes[5] + lanes[6] + lanes[7]
}

proof fn lemma_block(x: Seq<i8>, w: Seq<i8>, at: int)
    ensures
        dot(x, w, at, at + 32) == lane_term(x, w, at, 0) + lane_term(x, w, at, 1) + lane_term(
            x,
            w,
            at,
            2,
        ) + lane_term(x, w, at, 3) + lane_term(x, w, at, 4) + lane_term(x, w, at, 5) + lane_term(
            x,
            w,
            at,
            6,
        ) + lane_term(x, w, at, 7),
{
    reveal_with_fuel(dot, 33);
}

fn lane_sum(x: &[i8], w: &[i8], at: usize, l: usize) -> (r: i32)
    requires
        l < 8,
        at + 32 <= x@.len(),
        x@.len() == w@.len(),
        all_quantised(x@),
        all_quantised(w@),
    ensures
        r == lane_term(x@, w@, at as int, l as int),
        -64516 <= r <= 64516,
{
    assert(x.len() <= usize::MAX);
    let a: usize = at + 2 * l;
    proof {
        law_products_stay_small(x@[a as int], w@[a as int], x@[a + 1], w@[a + 1]);
        law_products_stay_small(x@[a + 1], w@[a + 1], x@[a + 16], w@[a + 16]);
        law_products_stay_small(x@[a + 16], w@[a + 16], x@[a + 17], w@[a + 17]);
        law_products_stay_small(x@[a + 17], w@[a + 17], x@[a as int], w@[a as int]);
    }
    let lo: i32 = x[a] as i32 * w[a] as i32 + x[a + 1] as i32 * w[a + 1] as i32;
    let hi: i32 = x[a + 16] as i32 * w[a + 16] as i32 + x[a + 17] as i32 * w[a + 17] as i32;
    lo + hi
}

/// Sum of products in blocks of 32 elements, over eight running sums that are
/// added up at the end.
pub fn dot_lanes(x: &[i8], w: &[i8]) -> (r: i32)
    requires
        x@.len() == w@.len(),
        x@.len() % 32 == 0,
        all_quantised(x@),
        all_quantised(w@),
        sums_fit(x@.len() as int),
    ensures
        r == dot(x@, w@, 0, x@.len() as int),
{
    let n: usize = x.len();
    let nblocks: usize = n / 32;
    let mut lanes: Vec<i32> = vec![0i32, 0i32, 0i32, 0i32, 0i32, 0i32, 0i32, 0i32];
    let mut b: usize = 0;
    while b < nblocks
        invariant
            b <= nblocks,
            nblocks * 32 == n,
            n == x@.len(),
            n == w@.len(),
            all_quantised(x@),
            all_quantised(w@),
            sums_fit(n as int),
            lanes@.len() == 8,
            forall|l: int| 0 <= l < 8 ==> -64516 * b <= #[trigger] lanes@[l] <= 64516 * b,
            lanes_total(lanes@) == dot(x@, w@, 0, b * 32),
        decreases nblocks - b,
    {
        let at: usize = b * 32;
        let ghost before = lanes@;
        let mut l: usize = 0;
        while l < 8
            invariant
                l <= 8,
                b < nblocks,
                nblocks * 32 == n,
                at == b * 32,
                n == x@.len(),
                n == w@.len(),
                all_quantised(x@),
                all_quantised(w@),
                sums_fit(n as int),
                lanes@.len() == 8,
                before.len() == 8,
                forall|i: int| 0 <= i < 8 ==> -64516 * b <= #[trigger] before[i] <= 64516 * b,
                forall|i: int|
                    0 <= i < l ==> #[trigger] lanes@[i] == before[i] + lane_term(
                        x@,
                        w@,
                        at as int,
                        i,
                    ),
                forall|i: int|
                    0 <= i < l ==> -64516 * (b + 1) <= #[trigger] lanes@[i] <= 64516 * (b + 1),
                forall|i: int| l <= i < 8 ==> #[trigger] lanes@[i] == before[i],
            decreases 8 - l,
        {
            let add: i32 = lane_sum(x, w, at, l);
            let sum: i32 = lanes[l] + add;
            lanes.set(l, sum);
            l += 1;
        }
        proof {
            lemma_dot_splits(x@, w@, 0, at as int, at + 32);
            lemma_block(x@, w@, at as int);
        }
        b += 1;
    }
    proof {
        let m = 64516 * nblocks;
        assert(8 * m <= i32::MAX);
        assert(-m <= lanes@[0] <= m && -m <= lanes@[1] <= m);
        assert(-m <= lanes@[2] <= m && -m <= lanes@[3] <= m);
        assert(-m <= lanes@[4] <= m && -m <= lanes@[5] <= m);
        assert(-m <= lanes@[6] <= m && -m <= lanes@[7] <= m);
    }
    let s1: i32 = lanes[0] + lanes[1];
    let s2: i32 = s1 + lanes[2];
    let s3: i32 = s2 + lanes[3];
    let s4: i32 = s3 + lanes[4];
    let s5: i32 = s4 + lanes[5];
    let s6: i32 = s5 + lanes[6];
    s6 + lanes[7]
}

/// Sum of products, one element after the other.
pub fn dot_scalar(x: &[i8], w: &[i8]) -> (r: i32)
    requires
        x@.len() == w@.len(),
        all_quantised(x@),
        all_quantised(w@),
        sums_fit(x@.len() as int),
    ensures
        r == dot(x@, w@, 0, x@.len() as int),
{
    let mut sum: i32 = 0;
    let mut j: usize = 0;
    while j < x.len()
        invariant
            j <= x@.len(),
            x@.len() == w@.len(),
            all_quantised(x@),
            all_quantised(w@),
            sums_fit(x@.len() as int),
            sum == dot(x@, w@, 0, j as int),
        decreases x@.len() - j,
    {
        proof {
            law_dot_bounded(x@, w@, 0, j as int);
            law_dot_bounded(x@, w@, 0, j + 1);
            law_products_stay_small(x@[j as int], w@[j as int], 0, 0);
        }
        let term: i32 = x[j] as i32 * w[j] as i32;
        sum = sum + term;
        j += 1;
    }
    sum
}

/// Whether a list holds the sum of products of every row with `x`.
pub open spec fn products(x: Seq<i8>, w: CpuWeightI8, out: Seq<i32>) -> bool {
    &&& out.len() == w.rows
    &&& forall|i: int| 0 <= i < w.rows ==> #[trigger] out[i] == dot(x, w.row(i), 0, w.cols as int)
}

fn matrix_row<'a>(w: &'a CpuWeightI8, i: usize) -> (r: &'a [i8])
    requires
        w.valid(),
        i < w.rows,
    ensures
        r@ == w.row(i as int),
        r@.len() == w.cols,
        all_quantised(r@),
{
    proof {
        assert(w.data.len() <= usize::MAX);
        lemma_monotone((i + 1) as int, w.cols as int, w.rows as int, w.cols as int);
        assert((i + 1) * w.cols == i * w.cols + w.cols) by (nonlinear_arith);
        lemma_monotone(0, 0, i as int, w.cols as int);
    }
    let from: usize = i * w.cols;
    let row = vstd::slice::slice_subrange(w.data.as_slice(), from, from + w.cols);
    proof {
        assert(row@ =~= w.row(i as int));
        assert forall|j: int| 0 <= j < row@.len() implies quantised(#[trigger] row@[j]) by {
            assert(row@[j] == w.data@[from + j]);
        }
    }
    row
}

/// The integer sums of a quantised matrix-vector product, one per row, computed in
/// blocks.
pub fn linear_gemv_i8(x: &[i8], w: &CpuWeightI8) -> (r: Vec<i32>)
    requires
        w.valid(),
        x@.len() == w.cols,
        all_quantised(x@),
        sums_fit(w.cols as int),
    ensures
        products(x@, *w, r@),
{
    let mut out: Vec<i32> = Vec::new();
    let mut i: usize = 0;
    while i < w.rows
        invariant
            i <= w.rows,
            w.valid(),
            x@.len() == w.cols,
            all_quantised(x@),
            sums_fit(w.cols as int),
            out@.len() == i,
            forall|n: int| 0 <= n < i ==> #[trigger] out@[n] == dot(x@, w.row(n), 0, w.cols as int),
        decreases w.rows - i,
    {
        out.push(dot_lanes(x, matrix_row(w, i)));
        i += 1;
    }
    out
}

/// The same sums, computed one element after the other.
pub fn linear_gemv_i8_scalar(x: &[i8], w: &CpuWeightI8) -> (r: Vec<i32>)
    requires
        w.valid(),
        x@.len() == w.cols,
        all_quantised(x@),
        sums_fit(w.cols as int),
    ensures
        products(x@, *w, r@),
{
    let mut out: Vec<i32> = Vec::new();
    let mut i: usize = 0;
    while i < w.rows
        invariant
            i <= w.rows,
            w.valid(),
            x@.len() == w.cols,
            all_quantised(x@),
            sums_fit(w.cols as int),
            out@.len() == i,
            forall|n: int| 0 <= n < i ==> #[trigger] out@[n] == dot(x@, w.row(n), 0, w.cols as int),
        decreases w.rows - i,
    {
        out.push(dot_scalar(x, matrix_row(w, i)));
        i += 1;
    }
    out
}

/// The two products of a matrix and a vector agree, since the sums are exact.
pub proof fn law_products_agree(x: Seq<i8>, w: CpuWeightI8, one: Seq<i32>, other: Seq<i32>)
    requires
        products(x, w, one),
        products(x, w, other),
    ensures
        one == other,
{
    assert(one =~= other);
}

/// So do the numbers that any scaling of a row's sum makes of them.
pub proof fn law_scaled_products_agree<T>(
    x: Seq<i8>,
    w: CpuWeightI8,
    one: Seq<i32>,
    other: Seq<i32>,
    scale: spec_fn(int, i32) -> T,
)
    requires
        products(x, w, one),
        products(x, w, other),
    ensures
        one.map(scale) == other.map(scale),
{
    law_products_agree(x, w, one, other);
}

/// Up to 1024 columns no partial sum leaves the integers that a number of single
/// precision holds exactly, so that a sum in single precision agrees too.
pub proof fn law_partial_sums_exact(x: Seq<i8>, w: Seq<i8>, n: int)
    requires
        0 <= n <= 1024,
        n <= x.len(),
        n <= w.len(),
        all_quantised(x),
        all_quantised(w),
    ensures
        -0x100_0000 <= dot(x, w, 0, n) <= 0x100_0000,
{
    law_dot_bounded(x, w, 0, n);
}

/// Rows that one thread takes at a time: a quarter of an even share, but at
/// least 64 and at most 2048.
pub fn gemv_chunk(n: usize, threads: usize) -> (r: usize)
    requires
        0 < threads,
        threads * 4 <= usize::MAX,
    ensures
        r == if n as int / (threads * 4) < 64 {
            64
        } else if n as int / (threads * 4) > 2048 {
            2048
        } else {
            n as int / (threads * 4)
        },
{
    let share: usize = n / (threads * 4);
    if share < 64 {
        64
    } else if share > 2048 {
        2048
    } else {
        share
    }
}

/// What a sum of products is: none of no elements, a product of one, and of a stretch what
/// its two parts have together.
pub proof fn law_dot_is_the_sum_of_products(x: Seq<i8>, w: Seq<i8>, lo: int, mid: int, hi: int)
    requires
        lo <= mid <= hi,
    ensures
        dot(x, w, lo, lo) == 0,
        dot(x, w, lo, lo + 1) == x[lo] * w[lo],
        dot(x, w, lo, hi) == dot(x, w, lo, mid) + dot(x, w, mid, hi),
{
    lemma_dot_splits(x, w, lo, mid, hi);
    assert(dot(x, w, lo, lo) == 0);
}

/// Rows are padded to the next whole block of 32, and to no more.
pub proof fn law_padded_to_blocks(k: int)
    requires
        0 <= k,
    ensures
        k <= padded(k) < k + 32,
        padded(k) % 32 == 0,
{
}

proof fn lemma_dot_same(x: Seq<i8>, w: Seq<i8>, v: Seq<i8>, n: int)
    requires
        forall|j: int| 0 <= j < n ==> #[trigger] w[j] == v[j],
    ensures
        dot(x, w, 0, n) == dot(x, v, 0, n),
    decreases n,
{
    if n > 0 {
        lemma_dot_same(x, w, v, n - 1);
        assert(w[n - 1] == v[n - 1]);
    }
}

/// A product with a packed matrix is the product with the matrix it was packed from: entry
/// `i` is the sum of products of the first `k` elements of `x` with row `i`.
pub proof fn law_packed_product(
    x: Seq<i8>,
    w: CpuWeightI8,
    values: Seq<i8>,
    rows: int,
    k: int,
    out: Seq<i32>,
    i: int,
)
    requires
        w.valid(),
        0 <= k,
        values.len() == rows * k,
        w.holds(values, rows, k),
        x.len() == w.cols,
        products(x, w, out),
        0 <= i < rows,
    ensures
        out.len() == rows,
        out[i] == dot(x, values.subrange(i * k, i * k + k), 0, k),
{
    let row = w.row(i);
    let kpad = w.cols as int;
    law_padded_to_blocks(k);
    lemma_monotone(i + 1, kpad, rows, kpad);
    assert((i + 1) * kpad == i * kpad + kpad) by (nonlinear_arith);
    lemma_monotone(0, 0, i, kpad);
    lemma_monotone(i + 1, k, rows, k);
    assert((i + 1) * k == i * k + k) by (nonlinear_arith);
    lemma_monotone(0, 0, i, k);
    let plain = values.subrange(i * k, i * k + k);
    assert forall|j: int| 0 <= j < k implies #[trigger] row[j] == plain[j] by {
        assert(w.data@[i * w.cols + j] == values[i * k + j]);
    }
    assert forall|j: int| k <= j < kpad implies #[trigger] x[j] == 0 || row[j] == 0 by {
        assert(w.data@[i * w.cols + j] == 0);
    }
    law_padding_adds_nothing(x, row, k, kpad);
    lemma_dot_same(x, row, plain, k);
}

/// Quantisation leaves 255 values, and a sum of products fits 32 bits for certain as long as
/// it would with the greatest of them everywhere.
pub proof fn law_range_of_quantisation(v: i8, len: int)
    ensures
        quantised(v) <==> v != -128,
        sums_fit(len) <==> len * (127 * 127) <= 0x7fff_ffff,
{
}

} // verus!

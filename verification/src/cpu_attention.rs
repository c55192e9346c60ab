//! Attention of the CPU decoder.
//!
//! Which elements every head reads and where its outputs go is settled here. The
//! arithmetic itself is handed in, so that it can be of any precision and run by
//! any library of matrix products.
use vstd::prelude::*;

use crate::attention::{
    cache_slot, fused_gqa_decode_job, law_job_reads_its_cache, law_job_reads_its_head,
    law_query_head_group, mask_scores, masked_scores, prefill_attention_job, token_place, written,
    HeadDims, HeadJob,
};
use crate::layout::{
    at2, lemma_grows, lemma_inside, lemma_join, lemma_monotone, lemma_row_below, lemma_split,
};
use crate::linear::{av_strides, prefill_av_strides, prefill_qk_strides, qk_strides, GemmStrides};
use crate::tensor::{lemma_product4, CpuTensor};

verus! {

/// Sizes of one call of attention.
#[derive(Clone, Copy)]
pub struct AttentionCall {
    /// Heads and their width.
    pub heads: HeadDims,
    /// New tokens of every sequence.
    pub s: usize,
    /// Positions there is room for in the caches.
    pub max_seq: usize,
    /// Positions in use, with the new tokens.
    pub cur_len: usize,
    /// Whether a token sees nothing behind itself.
    pub causal: bool,
}

/// A product that `multiply` may have made of two operands.
pub open spec fn multiplied<T, F: Fn(&[T], &[T], GemmStrides) -> Vec<T>>(
    multiply: F,
    lhs: Seq<T>,
    rhs: Seq<T>,
    strides: GemmStrides,
    out: Seq<T>,
) -> bool {
    exists|a: &[T], b: &[T], r: Vec<T>|
        {
            &&& a@ == lhs
            &&& b@ == rhs
            &&& r@ == out
            &&& #[trigger] call_ensures(multiply, (a, b, strides), r)
        }
}

/// Weights that `softmax` may have made of rows of `width` scores.
pub open spec fn weighted<T, F: Fn(&[T], usize) -> Vec<T>>(
    softmax: F,
    scores: Seq<T>,
    width: usize,
    out: Seq<T>,
) -> bool {
    exists|a: &[T], r: Vec<T>|
        {
            &&& a@ == scores
            &&& r@ == out
            &&& #[trigger] call_ensures(softmax, (a, width), r)
        }
}

/// `multiply` takes operands that its strides stay inside of, where the product can be
/// counted, and gives a full product.
pub open spec fn multiplies<T, F: Fn(&[T], &[T], GemmStrides) -> Vec<T>>(multiply: F) -> bool {
    &&& forall|a: &[T], b: &[T], g: GemmStrides|
        g.reads_inside(a@.len() as int, b@.len() as int) && g.m * g.n <= usize::MAX
            ==> #[trigger] call_requires(multiply, (a, b, g))
    &&& forall|a: &[T], b: &[T], g: GemmStrides, r: Vec<T>| #[trigger]
        call_ensures(multiply, (a, b, g), r) ==> r@.len() == g.m * g.n
}

/// `softmax` takes full rows and gives as many.
pub open spec fn normalises<T, F: Fn(&[T], usize) -> Vec<T>>(softmax: F) -> bool {
    &&& forall|a: &[T], width: usize|
        0 < width && a@.len() as int % width as int == 0 ==> #[trigger] call_requires(
            softmax,
            (a, width),
        )
    &&& forall|a: &[T], width: usize, r: Vec<T>| #[trigger]
        call_ensures(softmax, (a, width), r) ==> r@.len() == a@.len()
}

impl AttentionCall {
    /// Every head has its keys, the new tokens are among the positions in use, and
    /// all sizes can be counted.
    pub open spec fn fits(self) -> bool {
        let d = self.heads;
        &&& d.grouped()
        &&& 0 < d.hd
        &&& 0 < self.s <= self.cur_len <= self.max_seq
        &&& d.b * d.nqh * self.s <= usize::MAX
        &&& d.b * self.s * d.nqh * d.hd <= isize::MAX
        &&& d.cache_len(self.max_seq as int) <= isize::MAX
        &&& self.max_seq <= isize::MAX
        &&& self.s * self.cur_len <= usize::MAX
    }

    /// First element of head `idx` of all sequences in queries and outputs.
    pub open spec fn head_off(self, idx: int) -> int {
        let d = self.heads;
        token_place(
            d.nqh as int,
            d.hd as int,
            self.s as int,
            idx / (d.nqh as int),
            0,
            idx % (d.nqh as int),
            0,
        )
    }

    /// First element of the key-value head that head `idx` shares in the caches.
    pub open spec fn kv_base(self, idx: int) -> int {
        let d = self.heads;
        let kh = idx % (d.nqh as int) / (d.nqh as int / d.nkvh as int);
        (idx / (d.nqh as int) * d.nkvh + kh) * self.max_seq * d.hd
    }

    /// The positions in use of the key-value head that head `idx` shares.
    pub open spec fn in_use<T>(self, cache: Seq<T>, idx: int) -> Seq<T> {
        cache.subrange(self.kv_base(idx), self.kv_base(idx) + self.cur_len * self.heads.hd)
    }

    /// Outputs `[s, hd]` of head `idx`: its queries are multiplied with the keys in
    /// use, what a token may not see is masked, and the weights made of that are
    /// multiplied with the values in use.
    pub open spec fn attends<
        T,
        FS: Fn(&[T], &[T], GemmStrides) -> Vec<T>,
        FM: Fn(&[T], usize) -> Vec<T>,
        FW: Fn(&[T], &[T], GemmStrides) -> Vec<T>,
    >(
        self,
        score: FS,
        softmax: FM,
        weigh: FW,
        q: Seq<T>,
        k: Seq<T>,
        v: Seq<T>,
        masked: T,
        idx: int,
        out: Seq<T>,
    ) -> bool {
        let d = self.heads;
        let (s, n) = (self.s, self.cur_len);
        let stride = (d.nqh * d.hd) as usize;
        exists|raw: Seq<T>, weights: Seq<T>|
            {
                &&& #[trigger] multiplied(
                    score,
                    q.subrange(self.head_off(idx), q.len() as int),
                    self.in_use(k, idx),
                    qk_strides(s, n, d.hd, stride),
                    raw,
                )
                &&& #[trigger] weighted(
                    softmax,
                    masked_scores(raw, s as int, n as int, self.causal, masked),
                    n,
                    weights,
                )
                &&& multiplied(
                    weigh,
                    weights,
                    self.in_use(v, idx),
                    av_strides(s, n, d.hd, d.hd),
                    out,
                )
            }
    }
}

/// The operands of a head's two products hold all that the strides reach.
proof fn lemma_products_inside(call: AttentionCall, job: HeadJob, idx: int, q_len: int)
    requires
        call.fits(),
        0 <= idx < call.heads.b * call.heads.nqh,
        job.describes(call.heads, call.s as int, call.max_seq as int, idx),
        q_len == call.heads.b * call.s * call.heads.nqh * call.heads.hd,
    ensures
        job.head_off == call.head_off(idx),
        job.kv_base == call.kv_base(idx),
        0 <= job.head_off <= q_len,
        job.kv_base + call.cur_len * call.heads.hd <= call.heads.cache_len(call.max_seq as int),
        job.tok_stride <= isize::MAX,
        qk_strides(call.s, call.cur_len, call.heads.hd, job.tok_stride).reads_inside(
            q_len - job.head_off,
            call.cur_len * call.heads.hd,
        ),
        av_strides(call.s, call.cur_len, call.heads.hd, call.heads.hd).reads_inside(
            call.s * call.cur_len,
            call.cur_len * call.heads.hd,
        ),
{
    let d = call.heads;
    let (s, n, hd) = (call.s as int, call.cur_len as int, d.hd as int);
    let max_seq = call.max_seq as int;
    assert(1 <= d.b) by (nonlinear_arith)
        requires
            0 <= idx < d.b * d.nqh,
            0 < d.nqh,
    ;
    assert(d.nqh * d.hd <= d.b * s * d.nqh * d.hd) by (nonlinear_arith)
        requires
            1 <= d.b,
            1 <= s,
            0 < d.nqh,
            0 < d.hd,
    ;
    law_job_reads_its_head(d, s, max_seq, job, idx, 0, 0);
    law_job_reads_its_cache(d, s, max_seq, job, idx, n - 1, hd - 1);
    assert((n - 1) * hd + hd == n * hd) by (nonlinear_arith);
    let qk = qk_strides(call.s, call.cur_len, d.hd, job.tok_stride);
    assert(d.hd <= isize::MAX) by (nonlinear_arith)
        requires
            d.nqh * d.hd <= isize::MAX,
            0 < d.nqh,
            0 < d.hd,
    ;
    assert forall|i: int, l: int| 0 <= i < qk.m && 0 <= l < qk.k implies 0 <= #[trigger] qk.lhs(
        i,
        l,
    ) < q_len - job.head_off by {
        law_job_reads_its_head(d, s, max_seq, job, idx, i, l);
        lemma_monotone(0, 0, i, job.tok_stride as int);
    }
    assert forall|l: int, j: int| 0 <= l < qk.k && 0 <= j < qk.n implies 0 <= #[trigger] qk.rhs(
        l,
        j,
    ) < n * hd by {
        lemma_inside(j, n, hd, l);
    }
    let av = av_strides(call.s, call.cur_len, d.hd, d.hd);
    assert forall|i: int, l: int| 0 <= i < av.m && 0 <= l < av.k implies 0 <= #[trigger] av.lhs(
        i,
        l,
    ) < s * n by {
        lemma_inside(i, s, n, l);
    }
    assert forall|l: int, j: int| 0 <= l < av.k && 0 <= j < av.n implies 0 <= #[trigger] av.rhs(
        l,
        j,
    ) < n * hd by {
        lemma_inside(l, n, hd, j);
    }
}

/// Computes the outputs `[s, hd]` of head `idx` of all sequences. `score` multiplies
/// queries and keys and scales the product, `softmax` makes weights of rows of
/// scores, `weigh` multiplies weights and values.
pub fn attend_head<
    T: Copy,
    FS: Fn(&[T], &[T], GemmStrides) -> Vec<T>,
    FM: Fn(&[T], usize) -> Vec<T>,
    FW: Fn(&[T], &[T], GemmStrides) -> Vec<T>,
>(
    call: AttentionCall,
    q: &[T],
    k_cache: &[T],
    v_cache: &[T],
    masked: T,
    idx: usize,
    score: &FS,
    softmax: &FM,
    weigh: &FW,
) -> (r: Vec<T>)
    requires
        call.fits(),
        idx < call.heads.b * call.heads.nqh,
        q@.len() == call.heads.b * call.s * call.heads.nqh * call.heads.hd,
        k_cache@.len() == call.heads.cache_len(call.max_seq as int),
        v_cache@.len() == call.heads.cache_len(call.max_seq as int),
        multiplies(*score),
        normalises(*softmax),
        multiplies(*weigh),
    ensures
        r@.len() == call.s * call.heads.hd,
        call.attends(
            *score,
            *softmax,
            *weigh,
            q@,
            k_cache@,
            v_cache@,
            masked,
            idx as int,
            r@,
        ),
{
    let d = call.heads;
    let (s, n) = (call.s, call.cur_len);
    let job = if s == 1 {
        proof {
            assert(d.b * 1 * d.nqh * d.hd == d.b * d.nqh * d.hd) by (nonlinear_arith);
        }
        fused_gqa_decode_job(d, call.max_seq, idx)
    } else {
        prefill_attention_job(d, s, call.max_seq, idx)
    };
    proof {
        lemma_products_inside(call, job, idx as int, q@.len() as int);
        lemma_monotone(0, 0, n as int, d.hd as int);
        assert(d.hd <= d.nqh * d.hd) by (nonlinear_arith)
            requires
                0 < d.nqh,
                0 < d.hd,
        ;
    }
    let used: usize = n * d.hd;
    let queries = vstd::slice::slice_subrange(q, job.head_off, q.len());
    let keys = vstd::slice::slice_subrange(k_cache, job.kv_base, job.kv_base + used);
    let values = vstd::slice::slice_subrange(v_cache, job.kv_base, job.kv_base + used);
    let qk = prefill_qk_strides(s, n, d.hd, job.tok_stride);
    let mut scores = score(queries, keys, qk);
    let ghost raw = scores@;
    assert(multiplied(*score, queries@, keys@, qk, raw));
    mask_scores(&mut scores, s, n, call.causal, masked);
    proof {
        assert((s * n) as int % n as int == 0) by {
            lemma_split(s as int, n as int, 0);
        }
    }
    let weights = softmax(scores.as_slice(), n);
    assert(weighted(*softmax, scores@, n, weights@));
    let av = prefill_av_strides(s, n, d.hd, d.hd);
    assert(s * d.hd <= d.b * s * d.nqh * d.hd) by (nonlinear_arith)
        requires
            0 < d.b,
            0 < d.nqh,
            0 < s,
            0 < d.hd,
    ;
    let out = weigh(weights.as_slice(), values, av);
    assert(multiplied(*weigh, weights@, values@, av, out@));
    proof {
        assert(queries@ =~= q@.subrange(call.head_off(idx as int), q@.len() as int));
        assert(keys@ =~= call.in_use(k_cache@, idx as int));
        assert(values@ =~= call.in_use(v_cache@, idx as int));
        assert(scores@ == masked_scores(raw, s as int, n as int, call.causal, masked));
        assert(job.tok_stride == (d.nqh * d.hd) as usize);
    }
    out
}

/// The outputs of head `idx` in a buffer in token order.
pub open spec fn head_rows<T>(data: Seq<T>, d: HeadDims, s: int, idx: int) -> Seq<T> {
    let (nqh, hd) = (d.nqh as int, d.hd as int);
    Seq::new(
        (s * hd) as nat,
        |x: int| data[token_place(nqh, hd, s, idx / nqh, x / hd, idx % nqh, x % hd)],
    )
}

/// Puts the outputs `[s, hd]` of all heads into token order, under the shape
/// `[b, nqh, s, hd]`.
pub fn merge_heads<T: Copy>(outputs: &Vec<Vec<T>>, d: HeadDims, s: usize) -> (r: CpuTensor<T>)
    requires
        0 < d.nqh,
        0 < d.hd,
        0 < s,
        outputs@.len() == d.b * d.nqh,
        d.b * d.nqh * s <= usize::MAX,
        d.b * s * d.nqh * d.hd <= usize::MAX,
        forall|idx: int| 0 <= idx < d.b * d.nqh ==> (#[trigger] outputs@[idx])@.len() == s * d.hd,
    ensures
        r.valid(),
        r.shape@ == seq![d.b, d.nqh, s, d.hd],
        forall|idx: int|
            0 <= idx < d.b * d.nqh ==> head_rows(r.data@, d, s as int, idx) == (
            #[trigger] outputs@[idx])@,
{
    let ghost (b, nqh, hd, sl) = (d.b as int, d.nqh as int, d.hd as int, s as int);
    proof {
        lemma_monotone(0, 0, b, sl);
        lemma_monotone(0, 0, b * sl, nqh);
        lemma_grows(b * sl * nqh, hd);
        lemma_grows(b * sl, nqh);
    }
    let total: usize = d.b * s * d.nqh * d.hd;
    let mut data: Vec<T> = Vec::new();
    let mut k: usize = 0;
    while k < total
        invariant
            k <= total,
            total == b * sl * nqh * hd,
            b == d.b,
            nqh == d.nqh,
            hd == d.hd,
            sl == s,
            0 < nqh,
            0 < hd,
            0 < sl,
            b * nqh * sl <= usize::MAX,
            outputs@.len() == b * nqh,
            forall|idx: int|
                0 <= idx < b * nqh ==> (#[trigger] outputs@[idx])@.len() == sl * hd,
            data@.len() == k,
            forall|x: int|
                0 <= x < k ==> #[trigger] data@[x] == outputs@[at2(
                    x / hd / nqh / sl,
                    nqh,
                    x / hd % nqh,
                )]@[at2(x / hd / nqh % sl, hd, x % hd)],
        decreases total - k,
    {
        let row: usize = k / d.hd;
        let j: usize = k % d.hd;
        let token: usize = row / d.nqh;
        let qh: usize = row % d.nqh;
        let ib: usize = token / s;
        let i: usize = token % s;
        proof {
            lemma_row_below(k as int, b * sl * nqh, hd);
            lemma_row_below(row as int, b * sl, nqh);
            lemma_row_below(token as int, b, sl);
            lemma_inside(ib as int, b, nqh, qh as int);
            lemma_inside(i as int, sl, hd, j as int);
            lemma_monotone(0, 0, b, nqh);
            lemma_grows(b * nqh, sl);
            assert(outputs@[at2(ib as int, nqh, qh as int)]@.len() == sl * hd);
            assert(outputs[at2(ib as int, nqh, qh as int)].len() <= usize::MAX);
        }
        let x: T = outputs[ib * d.nqh + qh][i * d.hd + j];
        data.push(x);
        k += 1;
    }
    let shape: Vec<usize> = vec![d.b, d.nqh, s, d.hd];
    proof {
        assert(shape@ =~= seq![d.b, d.nqh, s, d.hd]);
        lemma_product4(d.b, d.nqh, s, d.hd);
        assert(b * nqh * sl * hd == b * sl * nqh * hd) by (nonlinear_arith);
        lemma_monotone(0, 0, b, nqh);
        lemma_grows(b * nqh, sl);
        assert forall|idx: int| 0 <= idx < b * nqh implies head_rows(data@, d, sl, idx) == (
        #[trigger] outputs@[idx])@ by {
            let (ib, qh) = (idx / nqh, idx % nqh);
            lemma_row_below(idx, b, nqh);
            lemma_join(idx, nqh);
            let rows = head_rows(data@, d, sl, idx);
            lemma_monotone(0, 0, sl, hd);
            assert forall|x: int| 0 <= x < sl * hd implies rows[x] == outputs@[idx]@[x] by {
                let (i, j) = (x / hd, x % hd);
                lemma_row_below(x, sl, hd);
                lemma_join(x, hd);
                let token = at2(ib, sl, i);
                let row = at2(token, nqh, qh);
                lemma_split(ib, sl, i);
                lemma_split(token, nqh, qh);
                lemma_split(row, hd, j);
                lemma_inside(ib, b, sl, i);
                lemma_inside(token, b * sl, nqh, qh);
                lemma_inside(row, b * sl * nqh, hd, j);
                assert(data@[at2(row, hd, j)] == outputs@[at2(ib, nqh, qh)]@[at2(i, hd, j)]);
            }
            assert(rows =~= outputs@[idx]@);
        }
    }
    CpuTensor::new(data, shape)
}

/// Attention of all heads to `s` new tokens: every head on its own, the outputs in
/// token order under the shape `[b, nqh, s, hd]`.
pub fn prefill_attention<
    T: Copy,
    FS: Fn(&[T], &[T], GemmStrides) -> Vec<T>,
    FM: Fn(&[T], usize) -> Vec<T>,
    FW: Fn(&[T], &[T], GemmStrides) -> Vec<T>,
>(
    call: AttentionCall,
    q: &[T],
    k_cache: &[T],
    v_cache: &[T],
    masked: T,
    score: FS,
    softmax: FM,
    weigh: FW,
) -> (r: CpuTensor<T>)
    requires
        call.fits(),
        q@.len() == call.heads.b * call.s * call.heads.nqh * call.heads.hd,
        k_cache@.len() == call.heads.cache_len(call.max_seq as int),
        v_cache@.len() == call.heads.cache_len(call.max_seq as int),
        multiplies(score),
        normalises(softmax),
        multiplies(weigh),
    ensures
        r.valid(),
        r.shape@ == seq![call.heads.b, call.heads.nqh, call.s, call.heads.hd],
        forall|idx: int|
            0 <= idx < call.heads.b * call.heads.nqh ==> #[trigger] call.attends(
                score,
                softmax,
                weigh,
                q@,
                k_cache@,
                v_cache@,
                masked,
                idx,
                head_rows(r.data@, call.heads, call.s as int, idx),
            ),
{
    let d = call.heads;
    proof {
        lemma_monotone(0, 0, d.b as int, d.nqh as int);
        lemma_grows(d.b * d.nqh, call.s as int);
    }
    let jobs: usize = d.b * d.nqh;
    let mut outputs: Vec<Vec<T>> = Vec::new();
    let mut idx: usize = 0;
    while idx < jobs
        invariant
            idx <= jobs,
            jobs == d.b * d.nqh,
            d == call.heads,
            call.fits(),
            q@.len() == d.b * call.s * d.nqh * d.hd,
            k_cache@.len() == d.cache_len(call.max_seq as int),
            v_cache@.len() == d.cache_len(call.max_seq as int),
            multiplies(score),
            normalises(softmax),
            multiplies(weigh),
            outputs@.len() == idx,
            forall|n: int|
                0 <= n < idx ==> {
                    &&& (#[trigger] outputs@[n])@.len() == call.s * d.hd
                    &&& call.attends(
                        score,
                        softmax,
                        weigh,
                        q@,
                        k_cache@,
                        v_cache@,
                        masked,
                        n,
                        outputs@[n]@,
                    )
                },
        decreases jobs - idx,
    {
        let out = attend_head(call, q, k_cache, v_cache, masked, idx, &score, &softmax, &weigh);
        outputs.push(out);
        idx += 1;
    }
    let r = merge_heads(&outputs, d, call.s);
    proof {
        assert forall|idx: int| 0 <= idx < d.b * d.nqh implies #[trigger] call.attends(
            score,
            softmax,
            weigh,
            q@,
            k_cache@,
            v_cache@,
            masked,
            idx,
            head_rows(r.data@, d, call.s as int, idx),
        ) by {
            assert(head_rows(r.data@, d, call.s as int, idx) == outputs@[idx]@);
        }
    }
    r
}

/// Attention of all heads to one new token, which sees every position in use. The
/// outputs come under the shape `[b, nqh, 1, hd]`.
pub fn fused_gqa_decode<
    T: Copy,
    FS: Fn(&[T], &[T], GemmStrides) -> Vec<T>,
    FM: Fn(&[T], usize) -> Vec<T>,
    FW: Fn(&[T], &[T], GemmStrides) -> Vec<T>,
>(
    heads: HeadDims,
    max_seq: usize,
    cur_len: usize,
    q: &[T],
    k_cache: &[T],
    v_cache: &[T],
    masked: T,
    score: FS,
    softmax: FM,
    weigh: FW,
) -> (r: CpuTensor<T>)
    requires
        (AttentionCall { heads, s: 1, max_seq, cur_len, causal: false }).fits(),
        q@.len() == heads.b * heads.nqh * heads.hd,
        k_cache@.len() == heads.cache_len(max_seq as int),
        v_cache@.len() == heads.cache_len(max_seq as int),
        multiplies(score),
        normalises(softmax),
        multiplies(weigh),
    ensures
        r.valid(),
        r.shape@ == seq![heads.b, heads.nqh, 1usize, heads.hd],
        forall|idx: int|
            0 <= idx < heads.b * heads.nqh ==> #[trigger] (AttentionCall {
                heads,
                s: 1,
                max_seq,
                cur_len,
                causal: false,
            }).attends(
                score,
                softmax,
                weigh,
                q@,
                k_cache@,
                v_cache@,
                masked,
                idx,
                r.data@.subrange(idx * heads.hd, idx * heads.hd + heads.hd),
            ),
{
    let call = AttentionCall { heads, s: 1, max_seq, cur_len, causal: false };
    let ghost (b, nqh, hd) = (heads.b as int, heads.nqh as int, heads.hd as int);
    assert(b * 1 * nqh * hd == b * nqh * hd) by (nonlinear_arith);
    let r = prefill_attention(call, q, k_cache, v_cache, masked, score, softmax, weigh);
    proof {
        lemma_product4(heads.b, heads.nqh, 1, heads.hd);
        assert(b * nqh * 1 * hd == b * nqh * hd) by (nonlinear_arith);
        assert forall|idx: int| 0 <= idx < b * nqh implies #[trigger] call.attends(
            score,
            softmax,
            weigh,
            q@,
            k_cache@,
            v_cache@,
            masked,
            idx,
            r.data@.subrange(idx * hd, idx * hd + hd),
        ) by {
            let rows = head_rows(r.data@, heads, 1, idx);
            lemma_join(idx, nqh);
            lemma_inside(idx, b * nqh, hd, 0);
            assert forall|x: int| 0 <= x < hd implies rows[x] == r.data@[idx * hd + x] by {
                lemma_split(0, hd, x);
                assert(0 * hd == 0) by (nonlinear_arith);
                assert(idx / nqh * 1 == idx / nqh);
            }
            assert(rows =~= r.data@.subrange(idx * hd, idx * hd + hd));
            assert(call.attends(
                score,
                softmax,
                weigh,
                q@,
                k_cache@,
                v_cache@,
                masked,
                idx,
                rows,
            ));
        }
    }
    r
}

proof fn lemma_either_mask<
    T,
    FS: Fn(&[T], &[T], GemmStrides) -> Vec<T>,
    FM: Fn(&[T], usize) -> Vec<T>,
    FW: Fn(&[T], &[T], GemmStrides) -> Vec<T>,
>(
    call: AttentionCall,
    causal: bool,
    score: FS,
    softmax: FM,
    weigh: FW,
    q: Seq<T>,
    k: Seq<T>,
    v: Seq<T>,
    masked: T,
    idx: int,
    out: Seq<T>,
)
    requires
        call.s == 1,
        call.fits(),
        multiplies(score),
        call.attends(score, softmax, weigh, q, k, v, masked, idx, out),
    ensures
        (AttentionCall { causal, ..call }).attends(
            score,
            softmax,
            weigh,
            q,
            k,
            v,
            masked,
            idx,
            out,
        ),
{
    let d = call.heads;
    let (s, n) = (call.s, call.cur_len);
    let stride = (d.nqh * d.hd) as usize;
    let (raw, weights) = choose|raw: Seq<T>, weights: Seq<T>|
        {
            &&& #[trigger] multiplied(
                score,
                q.subrange(call.head_off(idx), q.len() as int),
                call.in_use(k, idx),
                qk_strides(s, n, d.hd, stride),
                raw,
            )
            &&& #[trigger] weighted(
                softmax,
                masked_scores(raw, s as int, n as int, call.causal, masked),
                n,
                weights,
            )
            &&& multiplied(weigh, weights, call.in_use(v, idx), av_strides(s, n, d.hd, d.hd), out)
        };
    let (one, other) = (
        masked_scores(raw, s as int, n as int, call.causal, masked),
        masked_scores(raw, s as int, n as int, causal, masked),
    );
    assert(raw.len() == 1 * n);
    assert forall|x: int| 0 <= x < n implies one[x] == other[x] by {
        lemma_split(0, n as int, x);
    }
    assert(one =~= other);
    let changed = AttentionCall { causal, ..call };
    assert(changed.in_use(k, idx) == call.in_use(k, idx));
    assert(changed.in_use(v, idx) == call.in_use(v, idx));
    assert(changed.head_off(idx) == call.head_off(idx));
    assert(multiplied(
        score,
        q.subrange(changed.head_off(idx), q.len() as int),
        changed.in_use(k, idx),
        qk_strides(s, n, d.hd, stride),
        raw,
    ));
    assert(weighted(
        softmax,
        masked_scores(raw, s as int, n as int, changed.causal, masked),
        n,
        weights,
    ));
    assert(multiplied(
        weigh,
        weights,
        changed.in_use(v, idx),
        av_strides(s, n, d.hd, d.hd),
        out,
    ));
}

/// A single new token sees every position in use with either mask, so that decoding
/// it is the same relation as prefilling it.
pub proof fn law_decode_is_prefill<
    T,
    FS: Fn(&[T], &[T], GemmStrides) -> Vec<T>,
    FM: Fn(&[T], usize) -> Vec<T>,
    FW: Fn(&[T], &[T], GemmStrides) -> Vec<T>,
>(
    call: AttentionCall,
    score: FS,
    softmax: FM,
    weigh: FW,
    q: Seq<T>,
    k: Seq<T>,
    v: Seq<T>,
    masked: T,
    idx: int,
    out: Seq<T>,
)
    requires
        call.s == 1,
        call.fits(),
        multiplies(score),
    ensures
        (AttentionCall { causal: true, ..call }).attends(
            score,
            softmax,
            weigh,
            q,
            k,
            v,
            masked,
            idx,
            out,
        ) <==> (AttentionCall { causal: false, ..call }).attends(
            score,
            softmax,
            weigh,
            q,
            k,
            v,
            masked,
            idx,
            out,
        ),
{
    let open = AttentionCall { causal: false, ..call };
    let limited = AttentionCall { causal: true, ..call };
    if open.attends(score, softmax, weigh, q, k, v, masked, idx, out) {
        lemma_either_mask(open, true, score, softmax, weigh, q, k, v, masked, idx, out);
    }
    if limited.attends(score, softmax, weigh, q, k, v, masked, idx, out) {
        lemma_either_mask(limited, false, score, softmax, weigh, q, k, v, masked, idx, out);
    }
}

/// Whether two caches hold the same in every position in use.
pub open spec fn same_in_use<T>(call: AttentionCall, a: Seq<T>, b: Seq<T>) -> bool {
    let d = call.heads;
    forall|h: int, p: int, x: int|
        0 <= h < d.b * d.nkvh && 0 <= p < call.cur_len && 0 <= x < d.hd ==> #[trigger] a[at2(
            at2(h, call.max_seq as int, p),
            d.hd as int,
            x,
        )] == b[at2(at2(h, call.max_seq as int, p), d.hd as int, x)]
}

proof fn lemma_same_in_use<T>(call: AttentionCall, a: Seq<T>, b: Seq<T>, idx: int)
    requires
        call.fits(),
        0 <= idx < call.heads.b * call.heads.nqh,
        a.len() == call.heads.cache_len(call.max_seq as int),
        b.len() == call.heads.cache_len(call.max_seq as int),
        same_in_use(call, a, b),
    ensures
        call.in_use(a, idx) == call.in_use(b, idx),
{
    let d = call.heads;
    let (nqh, nkvh, hd) = (d.nqh as int, d.nkvh as int, d.hd as int);
    let (n, max_seq) = (call.cur_len as int, call.max_seq as int);
    let rep = nqh / nkvh;
    let kh = idx % nqh / rep;
    let h = idx / nqh * nkvh + kh;
    let base = call.kv_base(idx);
    lemma_row_below(idx, d.b as int, nqh);
    lemma_join(nqh, nkvh);
    assert(nqh == rep * nkvh);
    assert(0 < rep) by (nonlinear_arith)
        requires
            nqh == rep * nkvh,
            0 < nqh,
            0 < nkvh,
    ;
    assert(nqh == nkvh * rep) by (nonlinear_arith)
        requires
            nqh == rep * nkvh,
    ;
    lemma_row_below(idx % nqh, nkvh, rep);
    lemma_inside(idx / nqh, d.b as int, nkvh, kh);
    lemma_inside(h, d.b * nkvh, max_seq, n - 1);
    lemma_inside(at2(h, max_seq, n - 1), d.b * nkvh * max_seq, hd, hd - 1);
    assert((n - 1) * hd + hd == n * hd) by (nonlinear_arith);
    assert((h * max_seq + (n - 1)) * hd == h * max_seq * hd + (n - 1) * hd) by (nonlinear_arith);
    lemma_monotone(0, 0, h, max_seq);
    lemma_monotone(0, 0, h * max_seq, hd);
    lemma_monotone(0, 0, n, hd);
    let (used, other) = (call.in_use(a, idx), call.in_use(b, idx));
    assert forall|y: int| 0 <= y < n * hd implies used[y] == other[y] by {
        let (p, x) = (y / hd, y % hd);
        lemma_row_below(y, n, hd);
        lemma_join(y, hd);
        assert((h * max_seq + p) * hd == h * max_seq * hd + p * hd) by (nonlinear_arith);
        assert(at2(at2(h, max_seq, p), hd, x) == base + y);
        assert(a[at2(at2(h, max_seq, p), hd, x)] == b[at2(at2(h, max_seq, p), hd, x)]);
    }
    assert(used =~= other);
}

/// What the caches hold behind the positions in use does not matter.
pub proof fn law_unused_positions_do_not_matter<
    T,
    FS: Fn(&[T], &[T], GemmStrides) -> Vec<T>,
    FM: Fn(&[T], usize) -> Vec<T>,
    FW: Fn(&[T], &[T], GemmStrides) -> Vec<T>,
>(
    call: AttentionCall,
    score: FS,
    softmax: FM,
    weigh: FW,
    q: Seq<T>,
    k: Seq<T>,
    v: Seq<T>,
    other_k: Seq<T>,
    other_v: Seq<T>,
    masked: T,
    idx: int,
    out: Seq<T>,
)
    requires
        call.fits(),
        0 <= idx < call.heads.b * call.heads.nqh,
        k.len() == call.heads.cache_len(call.max_seq as int),
        v.len() == call.heads.cache_len(call.max_seq as int),
        other_k.len() == call.heads.cache_len(call.max_seq as int),
        other_v.len() == call.heads.cache_len(call.max_seq as int),
        same_in_use(call, k, other_k),
        same_in_use(call, v, other_v),
    ensures
        call.attends(score, softmax, weigh, q, k, v, masked, idx, out) <==> call.attends(
            score,
            softmax,
            weigh,
            q,
            other_k,
            other_v,
            masked,
            idx,
            out,
        ),
{
    lemma_same_in_use(call, k, other_k, idx);
    lemma_same_in_use(call, v, other_v, idx);
}

proof fn lemma_head_of_group(d: HeadDims, qh: int, kh: int)
    requires
        d.grouped(),
        0 <= qh < d.nqh,
        kh * (d.nqh as int / d.nkvh as int) <= qh,
        qh < (kh + 1) * (d.nqh as int / d.nkvh as int),
    ensures
        kh == qh / (d.nqh as int / d.nkvh as int),
        0 <= kh < d.nkvh,
{
    let n_rep = d.nqh as int / d.nkvh as int;
    law_query_head_group(d, qh);
    lemma_join(qh, n_rep);
    let g = qh / n_rep;
    assert(g == kh) by (nonlinear_arith)
        requires
            1 <= n_rep,
            kh * n_rep <= qh < (kh + 1) * n_rep,
            g * n_rep + qh % n_rep == qh,
            0 <= qh % n_rep < n_rep,
    ;
}

/// What a head multiplies. Query head `qh` of sequence `ib` belongs to the key-value head
/// `kh` of the group of `nqh / nkvh` consecutive query heads that it is in. The first
/// product runs over its own queries, token by token, and the keys of `kh` at the positions
/// in use; the second over the weights of a token and the values of `kh` at the same
/// positions. Between the two, and only where attention is causal, token `i` of the `s` new
/// ones is kept from seeing a position behind its own.
pub proof fn law_head_multiplies_its_own<T>(
    call: AttentionCall,
    q: Seq<T>,
    cache: Seq<T>,
    scores: Seq<T>,
    masked: T,
    ib: int,
    qh: int,
    kh: int,
    i: int,
    p: int,
    x: int,
)
    requires
        call.fits(),
        0 <= ib < call.heads.b,
        0 <= qh < call.heads.nqh,
        kh * (call.heads.nqh as int / call.heads.nkvh as int) <= qh,
        qh < (kh + 1) * (call.heads.nqh as int / call.heads.nkvh as int),
        0 <= i < call.s,
        0 <= p < call.cur_len,
        0 <= x < call.heads.hd,
        q.len() == call.heads.b * call.s * call.heads.nqh * call.heads.hd,
        cache.len() == call.heads.cache_len(call.max_seq as int),
        scores.len() == call.s * call.cur_len,
    ensures
        ({
            let d = call.heads;
            let idx = ib * d.nqh + qh;
            let qk = qk_strides(call.s, call.cur_len, d.hd, (d.nqh * d.hd) as usize);
            let av = av_strides(call.s, call.cur_len, d.hd, d.hd);
            let queries = q.subrange(call.head_off(idx), q.len() as int);
            let used = call.in_use(cache, idx);
            let stored = cache[((ib * d.nkvh + kh) * call.max_seq + p) * d.hd + x];
            let seen = masked_scores(
                scores,
                call.s as int,
                call.cur_len as int,
                call.causal,
                masked,
            );
            &&& (qk.m, qk.n, qk.k) == (call.s, call.cur_len, d.hd)
            &&& queries[qk.lhs(i, x)] == q[((ib * call.s + i) * d.nqh + qh) * d.hd + x]
            &&& used.len() == call.cur_len * d.hd
            &&& used[p * d.hd + x] == stored
            &&& used[qk.rhs(x, p)] == stored
            &&& qk.dst(i, p) == i * call.cur_len + p
            &&& (av.m, av.n, av.k) == (call.s, d.hd, call.cur_len)
            &&& av.lhs(i, p) == i * call.cur_len + p
            &&& used[av.rhs(p, x)] == stored
            &&& av.dst(i, x) == i * d.hd + x
            &&& seen[i * call.cur_len + p] == if call.causal && call.cur_len - call.s + i < p {
                masked
            } else {
                scores[i * call.cur_len + p]
            }
        }),
{
    let d = call.heads;
    let (s, n, hd, nqh) = (call.s as int, call.cur_len as int, d.hd as int, d.nqh as int);
    let max_seq = call.max_seq as int;
    let idx = ib * nqh + qh;
    lemma_split(ib, nqh, qh);
    lemma_inside(ib, d.b as int, nqh, qh);
    lemma_head_of_group(d, qh, kh);
    assert(d.nqh * d.hd <= d.b * s * d.nqh * d.hd) by (nonlinear_arith)
        requires
            1 <= d.b,
            1 <= s,
            0 < d.nqh,
            0 < d.hd,
    ;
    assert(d.hd <= d.nqh * d.hd) by (nonlinear_arith)
        requires
            0 < d.nqh,
            0 < d.hd,
    ;
    let stride = nqh * hd;
    let off = call.head_off(idx);
    assert(off == (ib * s * nqh + qh) * hd) by (nonlinear_arith)
        requires
            off == ((ib * s + 0) * nqh + qh) * hd + 0,
    ;
    assert(off + i * stride + x == ((ib * s + i) * nqh + qh) * hd + x) by (nonlinear_arith)
        requires
            off == (ib * s * nqh + qh) * hd,
            stride == nqh * hd,
    ;
    lemma_inside(ib, d.b as int, s, i);
    lemma_inside(ib * s + i, d.b * s, nqh, qh);
    lemma_inside((ib * s + i) * nqh + qh, d.b * s * nqh, hd, x);
    assert(0 <= i * stride) by (nonlinear_arith)
        requires
            0 <= i,
            0 <= stride,
    ;
    assert(0 <= off) by (nonlinear_arith)
        requires
            off == (ib * s * nqh + qh) * hd,
            0 <= ib,
            0 <= s,
            0 <= nqh,
            0 <= qh,
            0 <= hd,
    ;
    let base = call.kv_base(idx);
    let row = ib * d.nkvh + kh;
    lemma_inside(ib, d.b as int, d.nkvh as int, kh);
    assert(base + n * hd <= d.cache_len(max_seq)) by (nonlinear_arith)
        requires
            base == row * max_seq * hd,
            0 <= row,
            row + 1 <= d.b * d.nkvh,
            n <= max_seq,
            0 <= n,
            0 < hd,
            d.cache_len(max_seq) == d.b * d.nkvh * max_seq * hd,
    ;
    assert(0 <= base) by (nonlinear_arith)
        requires
            base == row * max_seq * hd,
            0 <= row,
            0 <= max_seq,
            0 < hd,
    ;
    assert(base + (p * hd + x) == (row * max_seq + p) * hd + x) by (nonlinear_arith)
        requires
            base == row * max_seq * hd,
    ;
    lemma_inside(p, n, hd, x);
    lemma_inside(i, s, n, p);
    lemma_split(i, n, p);
}

/// What attention puts out for element `x` of token `i` of query head `qh` of sequence `ib`
/// stands with the token, in order of its heads.
pub proof fn law_outputs_stay_with_their_token<T>(
    data: Seq<T>,
    d: HeadDims,
    s: int,
    ib: int,
    qh: int,
    i: int,
    x: int,
)
    requires
        0 <= qh < d.nqh,
        0 <= i < s,
        0 <= x < d.hd,
    ensures
        head_rows(data, d, s, ib * d.nqh + qh).len() == s * d.hd,
        head_rows(data, d, s, ib * d.nqh + qh)[i * d.hd + x] == data[((ib * s + i) * d.nqh + qh)
            * d.hd + x],
{
    lemma_split(ib, d.nqh as int, qh);
    lemma_split(i, d.hd as int, x);
    lemma_inside(i, s, d.hd as int, x);
}

/// Attention sees what was written: after the rows of `s` new tokens went into a cache,
/// every query head finds at the position of a new token the row of the key-value head
/// that it shares.
pub proof fn law_attention_sees_what_was_written<T>(
    call: AttentionCall,
    before: Seq<T>,
    rows: Seq<T>,
    after: Seq<T>,
    ib: int,
    qh: int,
    kh: int,
    i: int,
    x: int,
)
    requires
        call.fits(),
        after.len() == call.heads.cache_len(call.max_seq as int),
        written(
            call.heads,
            call.max_seq as int,
            call.s as int,
            call.cur_len - call.s,
            before,
            rows,
            after,
        ),
        0 <= ib < call.heads.b,
        0 <= qh < call.heads.nqh,
        kh * (call.heads.nqh as int / call.heads.nkvh as int) <= qh,
        qh < (kh + 1) * (call.heads.nqh as int / call.heads.nkvh as int),
        0 <= i < call.s,
        0 <= x < call.heads.hd,
    ensures
        call.in_use(after, ib * call.heads.nqh + qh)[(call.cur_len - call.s + i) * call.heads.hd
            + x] == rows[((ib * call.s + i) * call.heads.nkvh + kh) * call.heads.hd + x],
{
    let d = call.heads;
    let p = call.cur_len - call.s + i;
    let q = Seq::new((d.b * call.s * d.nqh * d.hd) as nat, |k: int| rows[0]);
    let scores = Seq::new((call.s * call.cur_len) as nat, |k: int| rows[0]);
    assert(0 <= d.b * call.s * d.nqh * d.hd) by (nonlinear_arith)
        requires
            0 <= d.b,
            0 <= call.s,
            0 <= d.nqh,
            0 <= d.hd,
    ;
    lemma_monotone(0, 0, call.s as int, call.cur_len as int);
    law_head_multiplies_its_own(call, q, after, scores, rows[0], ib, qh, kh, i, p, x);
    lemma_head_of_group(d, qh, kh);
    assert(after[cache_slot(d, call.max_seq as int, ib, kh, p, x)] == rows[token_place(
        d.nkvh as int,
        d.hd as int,
        call.s as int,
        ib,
        i,
        kh,
        x,
    )]);
}

/// What a head puts out, where the two products and the softmax are functions `mul_qk`,
/// `weights_of` and `mul_av`: its queries times the keys of the key-value head that it
/// shares, what lies behind a token hidden from it where attention is causal, weights made
/// of that, and these times the values of the same head. The keys and values are those of
/// the positions in use and of no others.
pub proof fn law_head_attends_to_its_keys_and_values<
    T,
    FS: Fn(&[T], &[T], GemmStrides) -> Vec<T>,
    FM: Fn(&[T], usize) -> Vec<T>,
    FW: Fn(&[T], &[T], GemmStrides) -> Vec<T>,
>(
    call: AttentionCall,
    score: FS,
    softmax: FM,
    weigh: FW,
    mul_qk: spec_fn(Seq<T>, Seq<T>, GemmStrides) -> Seq<T>,
    weights_of: spec_fn(Seq<T>, usize) -> Seq<T>,
    mul_av: spec_fn(Seq<T>, Seq<T>, GemmStrides) -> Seq<T>,
    q: Seq<T>,
    k: Seq<T>,
    v: Seq<T>,
    masked: T,
    ib: int,
    qh: int,
    kh: int,
    out: Seq<T>,
)
    requires
        call.fits(),
        0 <= ib < call.heads.b,
        0 <= qh < call.heads.nqh,
        kh * (call.heads.nqh as int / call.heads.nkvh as int) <= qh,
        qh < (kh + 1) * (call.heads.nqh as int / call.heads.nkvh as int),
        q.len() == call.heads.b * call.s * call.heads.nqh * call.heads.hd,
        forall|a: &[T], b: &[T], g: GemmStrides, r: Vec<T>| #[trigger]
            call_ensures(score, (a, b, g), r) ==> r@ == mul_qk(a@, b@, g),
        forall|a: &[T], n: usize, r: Vec<T>| #[trigger]
            call_ensures(softmax, (a, n), r) ==> r@ == weights_of(a@, n),
        forall|a: &[T], b: &[T], g: GemmStrides, r: Vec<T>| #[trigger]
            call_ensures(weigh, (a, b, g), r) ==> r@ == mul_av(a@, b@, g),
        call.attends(score, softmax, weigh, q, k, v, masked, ib * call.heads.nqh + qh, out),
    ensures
        ({
            let d = call.heads;
            let (s, n) = (call.s as int, call.cur_len as int);
            let from = (ib * s * d.nqh + qh) * d.hd;
            let base = (ib * d.nkvh + kh) * call.max_seq * d.hd;
            let raw = mul_qk(
                q.subrange(from, q.len() as int),
                k.subrange(base, base + n * d.hd),
                qk_strides(call.s, call.cur_len, d.hd, (d.nqh * d.hd) as usize),
            );
            let seen = Seq::new(
                raw.len(),
                |x: int|
                    if call.causal && n - s + x / n < x % n {
                        masked
                    } else {
                        raw[x]
                    },
            );
            out == mul_av(
                weights_of(seen, call.cur_len),
                v.subrange(base, base + n * d.hd),
                av_strides(call.s, call.cur_len, d.hd, d.hd),
            )
        }),
{
    let d = call.heads;
    let (s, n) = (call.s as int, call.cur_len as int);
    let idx = ib * d.nqh + qh;
    let stride = (d.nqh * d.hd) as usize;
    lemma_split(ib, d.nqh as int, qh);
    lemma_head_of_group(d, qh, kh);
    let from = (ib * s * d.nqh + qh) * d.hd;
    assert(call.head_off(idx) == from) by (nonlinear_arith)
        requires
            call.head_off(idx) == ((ib * s + 0) * d.nqh + qh) * d.hd + 0,
            from == (ib * s * d.nqh + qh) * d.hd,
    ;
    let (raw, weights) = choose|raw: Seq<T>, weights: Seq<T>|
        {
            &&& #[trigger] multiplied(
                score,
                q.subrange(call.head_off(idx), q.len() as int),
                call.in_use(k, idx),
                qk_strides(call.s, call.cur_len, d.hd, stride),
                raw,
            )
            &&& #[trigger] weighted(
                softmax,
                masked_scores(raw, s, n, call.causal, masked),
                call.cur_len,
                weights,
            )
            &&& multiplied(
                weigh,
                weights,
                call.in_use(v, idx),
                av_strides(call.s, call.cur_len, d.hd, d.hd),
                out,
            )
        };
    let seen = Seq::new(
        raw.len(),
        |x: int|
            if call.causal && n - s + x / n < x % n {
                masked
            } else {
                raw[x]
            },
    );
    assert(raw == mul_qk(
        q.subrange(from, q.len() as int),
        call.in_use(k, idx),
        qk_strides(call.s, call.cur_len, d.hd, stride),
    ));
    assert forall|x: int| 0 <= x < raw.len() implies seen[x] == #[trigger] masked_scores(
        raw,
        s,
        n,
        call.causal,
        masked,
    )[x] by {
        lemma_join(x, n);
    }
    assert(masked_scores(raw, s, n, call.causal, masked) =~= seen);
}

} // verus!

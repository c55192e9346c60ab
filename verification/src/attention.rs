//! Grouped-query attention: where queries, keys and values lie.
//!
//! A fused projection puts the query, key and value columns of a token next to
//! each other. Keys and values go to a cache `[b, nkvh, max_seq, hd]`; queries
//! and attention outputs stay in token order `[b, s, nqh, hd]`. Several query
//! heads share one key-value head.
use vstd::prelude::*;

use crate::layout::{
    at2, at4, lemma_grows, lemma_injective2, lemma_inside, lemma_join, lemma_monotone,
    lemma_row_below, lemma_split,
};
use crate::tensor::{lemma_product3, CpuTensor};

verus! {

/// Columns `from..from + width` of every row of a `[rows, cols]` matrix.
pub fn take_columns<T: Copy>(x: &[T], rows: usize, cols: usize, from: usize, width: usize) -> (r:
    Vec<T>)
    requires
        rows * cols <= x@.len(),
        from + width <= cols,
    ensures
        r@.len() == rows * width,
        forall|i: int, j: int|
            0 <= i < rows && 0 <= j < width ==> r@[#[trigger] (i * width + j)] == x@[i * cols + from
                + j],
{
    proof {
        assert(x.len() <= usize::MAX);
        lemma_monotone(rows as int, width as int, rows as int, cols as int);
    }
    let total: usize = rows * width;
    let mut out: Vec<T> = Vec::new();
    let mut k: usize = 0;
    while k < total
        invariant
            k <= total,
            total == rows * width,
            from + width <= cols,
            rows * cols <= x@.len() <= usize::MAX,
            out@.len() == k,
            forall|i: int|
                0 <= i < k ==> #[trigger] out@[i] == x@[(i / (width as int)) * cols + from + i % (
                width as int)],
        decreases total - k,
    {
        assert(0 < width) by (nonlinear_arith)
            requires
                0 <= k < rows * width,
                0 <= width,
        ;
        let row: usize = k / width;
        let j: usize = k % width;
        proof {
            lemma_row_below(k as int, rows as int, width as int);
            lemma_inside(row as int, rows as int, cols as int, (from + j) as int);
            lemma_monotone(0, 0, row as int, cols as int);
        }
        out.push(x[row * cols + from + j]);
        k += 1;
    }
    proof {
        assert forall|i: int, j: int| 0 <= i < rows && 0 <= j < width implies out@[#[trigger] (i
            * width + j)] == x@[i * cols + from + j] by {
            lemma_split(i, width as int, j);
            lemma_inside(i, rows as int, width as int, j);
        }
    }
    out
}

/// Sizes of a decoder's attention.
#[derive(Clone, Copy)]
pub struct HeadDims {
    /// Sequences in a batch.
    pub b: usize,
    /// Query heads.
    pub nqh: usize,
    /// Key-value heads.
    pub nkvh: usize,
    /// Width of a head.
    pub hd: usize,
}

impl HeadDims {
    /// Sizes for which every query head has a key-value head.
    pub open spec fn grouped(self) -> bool {
        &&& 0 < self.nkvh
        &&& 0 < self.nqh
        &&& self.nqh % self.nkvh == 0
    }

    /// Elements of a cache with room for `max_seq` tokens.
    pub open spec fn cache_len(self, max_seq: int) -> int {
        self.b * self.nkvh * max_seq * self.hd
    }

    /// Elements of a cache can be counted.
    pub open spec fn cache_countable(self, max_seq: int) -> bool {
        &&& self.b * self.nkvh <= usize::MAX
        &&& self.b * self.nkvh * max_seq <= usize::MAX
        &&& self.cache_len(max_seq) <= usize::MAX
    }
}

/// Slot of element `j` of position `pos` of head `h` of sequence `ib` in a cache.
pub open spec fn cache_slot(d: HeadDims, max_seq: int, ib: int, h: int, pos: int, j: int) -> int {
    at4(ib, d.nkvh as int, h, max_seq, pos, d.hd as int, j)
}

/// Place of element `j` of head `h` of token `is` of sequence `ib` in token order.
pub open spec fn token_place(heads: int, hd: int, s: int, ib: int, is: int, h: int, j: int) -> int {
    at4(ib, s, is, heads, h, hd, j)
}

/// A slot of a cache lies inside it.
pub proof fn lemma_slot_inside(d: HeadDims, max_seq: int, ib: int, h: int, pos: int, j: int)
    requires
        0 <= ib < d.b,
        0 <= h < d.nkvh,
        0 <= pos < max_seq,
        0 <= j < d.hd,
    ensures
        0 <= cache_slot(d, max_seq, ib, h, pos, j) < d.cache_len(max_seq),
        cache_slot(d, max_seq, ib, h, pos, j) / (d.hd as int) % max_seq == pos,
        cache_slot(d, max_seq, ib, h, pos, j) / (d.hd as int) == at2(
            at2(ib, d.nkvh as int, h),
            max_seq,
            pos,
        ),
        0 <= at2(ib, d.nkvh as int, h) < d.b * d.nkvh,
        0 <= at2(at2(ib, d.nkvh as int, h), max_seq, pos) < d.b * d.nkvh * max_seq,
{
    let q1 = at2(ib, d.nkvh as int, h);
    let q2 = at2(q1, max_seq, pos);
    lemma_inside(ib, d.b as int, d.nkvh as int, h);
    lemma_inside(q1, d.b * d.nkvh, max_seq, pos);
    lemma_inside(q2, d.b * d.nkvh * max_seq, d.hd as int, j);
    lemma_split(q2, d.hd as int, j);
    lemma_split(q1, max_seq, pos);
}

/// Tokens, heads and sequences never share a slot of the cache, so they can be
/// written in any order.
pub proof fn law_cache_slots_disjoint(
    d: HeadDims,
    max_seq: int,
    ib1: int,
    h1: int,
    pos1: int,
    j1: int,
    ib2: int,
    h2: int,
    pos2: int,
    j2: int,
)
    requires
        0 <= ib1 < d.b,
        0 <= h1 < d.nkvh,
        0 <= pos1 < max_seq,
        0 <= j1 < d.hd,
        0 <= ib2 < d.b,
        0 <= h2 < d.nkvh,
        0 <= pos2 < max_seq,
        0 <= j2 < d.hd,
        cache_slot(d, max_seq, ib1, h1, pos1, j1) == cache_slot(d, max_seq, ib2, h2, pos2, j2),
    ensures
        ib1 == ib2,
        h1 == h2,
        pos1 == pos2,
        j1 == j2,
{
    let a1 = at2(ib1, d.nkvh as int, h1);
    let a2 = at2(ib2, d.nkvh as int, h2);
    lemma_injective2(at2(a1, max_seq, pos1), j1, at2(a2, max_seq, pos2), j2, d.hd as int);
    lemma_injective2(a1, pos1, a2, pos2, max_seq);
    lemma_injective2(ib1, h1, ib2, h2, d.nkvh as int);
}

/// Row `k` of keys or values in token order, taken apart: sequence, token, head
/// and element.
pub open spec fn row_parts(d: HeadDims, s: int, k: int) -> (int, int, int, int) {
    let hd = d.hd as int;
    let heads = d.nkvh as int;
    (k / hd / heads / s, k / hd / heads % s, k / hd % heads, k % hd)
}

/// Slot that element `k` of new rows goes to.
pub open spec fn row_slot(d: HeadDims, max_seq: int, s: int, start: int, k: int) -> int {
    let (ib, is, h, j) = row_parts(d, s, k);
    cache_slot(d, max_seq, ib, h, start + is, j)
}

proof fn lemma_row_parts(d: HeadDims, s: int, k: int)
    requires
        0 < d.hd,
        0 < d.nkvh,
        0 < s,
        0 <= k < d.b * s * d.nkvh * d.hd,
    ensures
        ({
            let (ib, is, h, j) = row_parts(d, s, k);
            &&& 0 <= ib < d.b
            &&& 0 <= is < s
            &&& 0 <= h < d.nkvh
            &&& 0 <= j < d.hd
            &&& token_place(d.nkvh as int, d.hd as int, s, ib, is, h, j) == k
        }),
{
    let hd = d.hd as int;
    let heads = d.nkvh as int;
    lemma_row_below(k, d.b * s * d.nkvh, hd);
    lemma_row_below(k / hd, d.b * s, heads);
    lemma_row_below(k / hd / heads, d.b as int, s);
    lemma_join(k, hd);
    lemma_join(k / hd, heads);
    lemma_join(k / hd / heads, s);
}

proof fn lemma_place_parts(d: HeadDims, s: int, ib: int, is: int, h: int, j: int)
    requires
        0 <= ib < d.b,
        0 <= is < s,
        0 <= h < d.nkvh,
        0 <= j < d.hd,
    ensures
        ({
            let k = token_place(d.nkvh as int, d.hd as int, s, ib, is, h, j);
            &&& 0 <= k < d.b * s * d.nkvh * d.hd
            &&& row_parts(d, s, k) == (ib, is, h, j)
        }),
{
    let hd = d.hd as int;
    let heads = d.nkvh as int;
    let t = at2(ib, s, is);
    let q = at2(t, heads, h);
    lemma_split(ib, s, is);
    lemma_split(t, heads, h);
    lemma_split(q, hd, j);
    lemma_inside(ib, d.b as int, s, is);
    lemma_inside(t, d.b * s, heads, h);
    lemma_inside(q, d.b * s * heads, hd, j);
}

/// A cache after rows of `s` new tokens were written behind position `start`:
/// the new tokens hold their rows, every other position is as before.
pub open spec fn written<T>(
    d: HeadDims,
    max_seq: int,
    s: int,
    start: int,
    before: Seq<T>,
    rows: Seq<T>,
    after: Seq<T>,
) -> bool {
    &&& after.len() == before.len()
    &&& forall|ib: int, is: int, h: int, j: int|
        0 <= ib < d.b && 0 <= is < s && 0 <= h < d.nkvh && 0 <= j < d.hd ==> after[#[trigger]
        cache_slot(d, max_seq, ib, h, start + is, j)] == rows[token_place(
            d.nkvh as int,
            d.hd as int,
            s,
            ib,
            is,
            h,
            j,
        )]
    &&& forall|x: int|
        0 <= x < before.len() && !(start <= (x / (d.hd as int)) % max_seq < start + s)
            ==> #[trigger] after[x] == before[x]
}

/// Writes the keys or values of `s` new tokens, in token order, into the cache
/// behind position `start`.
pub fn kv_cache_write<T: Copy>(
    cache: &mut Vec<T>,
    rows: &[T],
    d: HeadDims,
    max_seq: usize,
    s: usize,
    start: usize,
)
    requires
        start + s <= max_seq,
        d.cache_countable(max_seq as int),
        old(cache)@.len() == d.cache_len(max_seq as int),
        rows@.len() == d.b * s * d.nkvh * d.hd,
    ensures
        written(
            d,
            max_seq as int,
            s as int,
            start as int,
            old(cache)@,
            rows@,
            final(cache)@,
        ),
{
    let ghost before = cache@;
    let total: usize = rows.len();
    let mut k: usize = 0;
    while k < total
        invariant
            k <= total,
            total == rows@.len(),
            rows@.len() == d.b * s * d.nkvh * d.hd,
            start + s <= max_seq,
            d.cache_countable(max_seq as int),
            before.len() == d.cache_len(max_seq as int),
            cache@.len() == before.len(),
            forall|i: int|
                0 <= i < k ==> cache@[#[trigger] row_slot(
                    d,
                    max_seq as int,
                    s as int,
                    start as int,
                    i,
                )] == rows@[i],
            forall|x: int|
                0 <= x < before.len() && !(start <= (x / (d.hd as int)) % (max_seq as int) < start
                    + s) ==> #[trigger] cache@[x] == before[x],
        decreases total - k,
    {
        proof {
            assert(0 < d.hd && 0 < d.nkvh && 0 < s && 0 < d.b) by (nonlinear_arith)
                requires
                    0 <= k < d.b * s * d.nkvh * d.hd,
                    0 <= d.hd,
                    0 <= d.nkvh,
                    0 <= s,
                    0 <= d.b,
            ;
            lemma_row_parts(d, s as int, k as int);
        }
        let j: usize = k % d.hd;
        let q: usize = k / d.hd;
        let h: usize = q % d.nkvh;
        let t: usize = q / d.nkvh;
        let is: usize = t % s;
        let ib: usize = t / s;
        proof {
            lemma_slot_inside(
                d,
                max_seq as int,
                ib as int,
                h as int,
                start + is,
                j as int,
            );
            lemma_grows(at2(at2(ib as int, d.nkvh as int, h as int), max_seq as int, start + is), d.hd as int);
            lemma_grows(at2(ib as int, d.nkvh as int, h as int), max_seq as int);
            lemma_grows(ib as int, d.nkvh as int);
        }
        let slot: usize = ((ib * d.nkvh + h) * max_seq + (start + is)) * d.hd + j;
        cache.set(slot, rows[k]);
        proof {
            assert forall|i: int| 0 <= i < k + 1 implies cache@[#[trigger] row_slot(
                d,
                max_seq as int,
                s as int,
                start as int,
                i,
            )] == rows@[i] by {
                lemma_row_parts(d, s as int, i);
                let (ib2, is2, h2, j2) = row_parts(d, s as int, i);
                lemma_slot_inside(d, max_seq as int, ib2, h2, start + is2, j2);
                if i != k && row_slot(d, max_seq as int, s as int, start as int, i) == slot {
                    law_cache_slots_disjoint(
                        d,
                        max_seq as int,
                        ib as int,
                        h as int,
                        start + is,
                        j as int,
                        ib2,
                        h2,
                        start + is2,
                        j2,
                    );
                }
            }
        }
        k += 1;
    }
    proof {
        assert forall|ib: int, is: int, h: int, j: int|
            0 <= ib < d.b && 0 <= is < s && 0 <= h < d.nkvh && 0 <= j < d.hd implies cache@[#[trigger]
        cache_slot(d, max_seq as int, ib, h, start + is, j)] == rows@[token_place(
            d.nkvh as int,
            d.hd as int,
            s as int,
            ib,
            is,
            h,
            j,
        )] by {
            lemma_place_parts(d, s as int, ib, is, h, j);
            let k = token_place(d.nkvh as int, d.hd as int, s as int, ib, is, h, j);
            assert(row_slot(d, max_seq as int, s as int, start as int, k) == cache_slot(
                d,
                max_seq as int,
                ib,
                h,
                start + is,
                j,
            ));
        }
    }
}

/// What was written for a token is what a later read of its position finds,
/// also after more tokens were written behind it.
pub proof fn law_cache_read_after_write<T>(
    d: HeadDims,
    max_seq: int,
    s1: int,
    start1: int,
    s2: int,
    start2: int,
    cache0: Seq<T>,
    rows1: Seq<T>,
    cache1: Seq<T>,
    rows2: Seq<T>,
    cache2: Seq<T>,
    ib: int,
    is: int,
    h: int,
    j: int,
)
    requires
        0 <= start1,
        start1 + s1 <= start2,
        start2 + s2 <= max_seq,
        0 <= s2,
        cache0.len() == d.cache_len(max_seq),
        written(d, max_seq, s1, start1, cache0, rows1, cache1),
        written(d, max_seq, s2, start2, cache1, rows2, cache2),
        0 <= ib < d.b,
        0 <= is < s1,
        0 <= h < d.nkvh,
        0 <= j < d.hd,
    ensures
        cache2[cache_slot(d, max_seq, ib, h, start1 + is, j)] == rows1[token_place(
            d.nkvh as int,
            d.hd as int,
            s1,
            ib,
            is,
            h,
            j,
        )],
{
    lemma_slot_inside(d, max_seq, ib, h, start1 + is, j);
}

/// Keys and values of all layers, allocated for the whole generation.
pub struct CpuKvCache<T> {
    /// Keys of every layer, `[b, nkvh, max_seq, hd]`.
    pub k: Vec<Vec<T>>,
    /// Values of every layer, `[b, nkvh, max_seq, hd]`.
    pub v: Vec<Vec<T>>,
    /// Positions in use.
    pub cur_len: usize,
    /// Positions there is room for.
    pub max_seq: usize,
    /// Sequences in a batch.
    pub b: usize,
    /// Key-value heads.
    pub nkvh: usize,
    /// Width of a head.
    pub hd: usize,
}

/// `n` copies of a value.
pub fn filled<T: Copy>(n: usize, value: T) -> (r: Vec<T>)
    ensures
        r@ == Seq::new(n as nat, |i: int| value),
{
    let mut out: Vec<T> = Vec::new();
    let mut i: usize = 0;
    while i < n
        invariant
            i <= n,
            out@.len() == i,
            forall|k: int| 0 <= k < i ==> #[trigger] out@[k] == value,
        decreases n - i,
    {
        out.push(value);
        i += 1;
    }
    assert(out@ =~= Seq::new(n as nat, |i: int| value));
    out
}

impl<T: Copy> CpuKvCache<T> {
    /// An empty cache with room for `max_seq` positions, filled with `zero`.
    pub fn new(num_layers: usize, b: usize, nkvh: usize, max_seq: usize, hd: usize, zero: T) -> (r:
        Self)
        requires
            b * nkvh <= usize::MAX,
            b * nkvh * max_seq <= usize::MAX,
            b * nkvh * max_seq * hd <= usize::MAX,
        ensures
            r.cur_len == 0,
            r.max_seq == max_seq,
            r.b == b,
            r.nkvh == nkvh,
            r.hd == hd,
            r.k@.len() == num_layers,
            r.v@.len() == num_layers,
            forall|i: int|
                0 <= i < num_layers ==> (#[trigger] r.k@[i])@ == Seq::new(
                    (b * nkvh * max_seq * hd) as nat,
                    |x: int| zero,
                ),
            forall|i: int|
                0 <= i < num_layers ==> (#[trigger] r.v@[i])@ == Seq::new(
                    (b * nkvh * max_seq * hd) as nat,
                    |x: int| zero,
                ),
    {
        proof {
            lemma_monotone(0, 0, b as int, nkvh as int);
            lemma_monotone(0, 0, b * nkvh, max_seq as int);
            lemma_monotone(0, 0, b * nkvh * max_seq, hd as int);
        }
        let cap: usize = b * nkvh * max_seq * hd;
        let mut k: Vec<Vec<T>> = Vec::new();
        let mut v: Vec<Vec<T>> = Vec::new();
        let mut i: usize = 0;
        while i < num_layers
            invariant
                i <= num_layers,
                k@.len() == i,
                v@.len() == i,
                forall|n: int|
                    0 <= n < i ==> (#[trigger] k@[n])@ == Seq::new(cap as nat, |x: int| zero),
                forall|n: int|
                    0 <= n < i ==> (#[trigger] v@[n])@ == Seq::new(cap as nat, |x: int| zero),
            decreases num_layers - i,
        {
            k.push(filled(cap, zero));
            v.push(filled(cap, zero));
            i += 1;
        }
        CpuKvCache { k, v, cur_len: 0, max_seq, b, nkvh, hd }
    }
}

/// The part of the buffers that one query head of one sequence works on.
#[derive(Clone, Copy)]
pub struct HeadJob {
    /// The sequence.
    pub ib: usize,
    /// The query head.
    pub qh: usize,
    /// The key-value head it shares.
    pub kh: usize,
    /// First element of the head in the first token's queries and outputs.
    pub head_off: usize,
    /// Distance from a token to the next in queries and outputs.
    pub tok_stride: usize,
    /// First element of the key-value head in the cache.
    pub kv_base: usize,
}

impl HeadJob {
    /// What job `idx` works on, for `s` new tokens.
    pub open spec fn describes(self, d: HeadDims, s: int, max_seq: int, idx: int) -> bool {
        &&& self.ib == idx / (d.nqh as int)
        &&& self.qh == idx % (d.nqh as int)
        &&& self.kh == self.qh as int / (d.nqh as int / d.nkvh as int)
        &&& self.head_off == token_place(
            d.nqh as int,
            d.hd as int,
            s,
            self.ib as int,
            0,
            self.qh as int,
            0,
        )
        &&& self.tok_stride == d.nqh * d.hd
        &&& self.kv_base == (self.ib * d.nkvh + self.kh) * max_seq * d.hd
    }
}

/// Every query head shares one of the key-value heads, and consecutive query
/// heads share the same one.
pub proof fn law_query_head_group(d: HeadDims, qh: int)
    requires
        d.grouped(),
        0 <= qh < d.nqh,
    ensures
        1 <= d.nqh as int / d.nkvh as int,
        (d.nqh as int / d.nkvh as int) * d.nkvh == d.nqh,
        0 <= qh / (d.nqh as int / d.nkvh as int) < d.nkvh,
{
    let n_rep = d.nqh as int / d.nkvh as int;
    lemma_join(d.nqh as int, d.nkvh as int);
    assert(1 <= n_rep) by (nonlinear_arith)
        requires
            n_rep * d.nkvh == d.nqh,
            0 < d.nqh,
            0 < d.nkvh,
    ;
    assert(n_rep * d.nkvh == d.nkvh * n_rep) by (nonlinear_arith);
    lemma_row_below(qh, d.nkvh as int, n_rep);
}

/// Plans job `idx` of the `b * nqh` heads that attend to `s` new tokens.
pub fn prefill_attention_job(d: HeadDims, s: usize, max_seq: usize, idx: usize) -> (r: HeadJob)
    requires
        d.grouped(),
        0 < s,
        0 < d.hd,
        0 < max_seq,
        idx < d.b * d.nqh,
        d.b * s * d.nqh * d.hd <= usize::MAX,
        d.b * d.nkvh * max_seq * d.hd <= usize::MAX,
    ensures
        r.describes(d, s as int, max_seq as int, idx as int),
        r.ib < d.b,
        r.qh < d.nqh,
        r.kh < d.nkvh,
{
    let ib: usize = idx / d.nqh;
    let qh: usize = idx % d.nqh;
    proof {
        lemma_row_below(idx as int, d.b as int, d.nqh as int);
        law_query_head_group(d, qh as int);
    }
    let n_rep: usize = d.nqh / d.nkvh;
    let kh: usize = qh / n_rep;
    proof {
        lemma_inside(ib as int, d.b as int, s as int, 0);
        lemma_inside(ib * s, d.b * s, d.nqh as int, qh as int);
        lemma_inside(ib * s * d.nqh + qh, d.b * s * d.nqh, d.hd as int, 0);
        lemma_grows(d.b * s * d.nqh, d.hd as int);
        lemma_grows(d.b * s, d.nqh as int);
        lemma_inside(ib as int, d.b as int, d.nkvh as int, kh as int);
        lemma_inside(ib * d.nkvh + kh, d.b * d.nkvh, max_seq as int, 0);
        lemma_inside((ib * d.nkvh + kh) * max_seq, d.b * d.nkvh * max_seq, d.hd as int, 0);
        lemma_grows(d.b * d.nkvh * max_seq, d.hd as int);
        lemma_grows(d.b * d.nkvh, max_seq as int);
        assert(d.nqh * d.hd <= d.b * s * d.nqh * d.hd) by (nonlinear_arith)
            requires
                1 <= d.b,
                1 <= s,
                0 < d.nqh,
                0 < d.hd,
        ;
    }
    let head_off: usize = (ib * s * d.nqh + qh) * d.hd;
    let kv_base: usize = (ib * d.nkvh + kh) * max_seq * d.hd;
    HeadJob { ib, qh, kh, head_off, tok_stride: d.nqh * d.hd, kv_base }
}

/// Plans job `idx` of the `b * nqh` heads of one new token.
pub fn fused_gqa_decode_job(d: HeadDims, max_seq: usize, idx: usize) -> (r: HeadJob)
    requires
        d.grouped(),
        0 < d.hd,
        0 < max_seq,
        idx < d.b * d.nqh,
        d.b * d.nqh * d.hd <= usize::MAX,
        d.b * d.nkvh * max_seq * d.hd <= usize::MAX,
    ensures
        r.describes(d, 1, max_seq as int, idx as int),
        r.head_off == idx * d.hd,
        r.ib < d.b,
        r.qh < d.nqh,
        r.kh < d.nkvh,
{
    proof {
        assert(d.b * 1 * d.nqh * d.hd == d.b * d.nqh * d.hd) by (nonlinear_arith);
        lemma_join(idx as int, d.nqh as int);
    }
    let r = prefill_attention_job(d, 1, max_seq, idx);
    proof {
        assert(r.ib * 1 == r.ib);
    }
    r
}

/// Element `j` of token `i` in a job's queries and outputs is that token's own
/// head, and lies inside the buffer.
pub proof fn law_job_reads_its_head(d: HeadDims, s: int, max_seq: int, job: HeadJob, idx: int, i: int, j: int)
    requires
        d.grouped(),
        0 < s,
        0 <= idx < d.b * d.nqh,
        job.describes(d, s, max_seq, idx),
        0 <= i < s,
        0 <= j < d.hd,
    ensures
        job.head_off + i * job.tok_stride + j == token_place(
            d.nqh as int,
            d.hd as int,
            s,
            job.ib as int,
            i,
            job.qh as int,
            j,
        ),
        0 <= job.head_off + i * job.tok_stride + j < d.b * s * d.nqh * d.hd,
{
    let nqh = d.nqh as int;
    let hd = d.hd as int;
    let ib = job.ib as int;
    let qh = job.qh as int;
    lemma_row_below(idx, d.b as int, nqh);
    assert(((ib * s + 0) * nqh + qh) * hd + 0 + i * (nqh * hd) + j == ((ib * s + i) * nqh + qh) * hd
        + j) by (nonlinear_arith);
    lemma_inside(ib, d.b as int, s, i);
    lemma_inside(ib * s + i, d.b * s, nqh, qh);
    lemma_inside((ib * s + i) * nqh + qh, d.b * s * nqh, hd, j);
}

/// Two jobs never write the same element, so all jobs can run at once.
pub proof fn law_jobs_disjoint(
    d: HeadDims,
    s: int,
    max_seq: int,
    job1: HeadJob,
    idx1: int,
    i1: int,
    j1: int,
    job2: HeadJob,
    idx2: int,
    i2: int,
    j2: int,
)
    requires
        d.grouped(),
        0 < s,
        0 <= idx1 < d.b * d.nqh,
        0 <= idx2 < d.b * d.nqh,
        job1.describes(d, s, max_seq, idx1),
        job2.describes(d, s, max_seq, idx2),
        0 <= i1 < s,
        0 <= j1 < d.hd,
        0 <= i2 < s,
        0 <= j2 < d.hd,
        job1.head_off + i1 * job1.tok_stride + j1 == job2.head_off + i2 * job2.tok_stride + j2,
    ensures
        idx1 == idx2,
        i1 == i2,
        j1 == j2,
{
    law_job_reads_its_head(d, s, max_seq, job1, idx1, i1, j1);
    law_job_reads_its_head(d, s, max_seq, job2, idx2, i2, j2);
    let nqh = d.nqh as int;
    let t1 = at2(job1.ib as int, s, i1);
    let t2 = at2(job2.ib as int, s, i2);
    lemma_join(idx1, nqh);
    lemma_join(idx2, nqh);
    lemma_injective2(
        at2(t1, nqh, job1.qh as int),
        j1,
        at2(t2, nqh, job2.qh as int),
        j2,
        d.hd as int,
    );
    lemma_injective2(t1, job1.qh as int, t2, job2.qh as int, nqh);
    lemma_injective2(job1.ib as int, i1, job2.ib as int, i2, s);
}

/// Element `j` of position `t` in a job's keys and values is that position's
/// slot of the shared head, and lies inside the cache.
pub proof fn law_job_reads_its_cache(
    d: HeadDims,
    s: int,
    max_seq: int,
    job: HeadJob,
    idx: int,
    t: int,
    j: int,
)
    requires
        d.grouped(),
        0 <= idx < d.b * d.nqh,
        job.describes(d, s, max_seq, idx),
        0 <= t < max_seq,
        0 <= j < d.hd,
    ensures
        job.kv_base + t * d.hd + j == cache_slot(d, max_seq, job.ib as int, job.kh as int, t, j),
        0 <= job.kv_base + t * d.hd + j < d.cache_len(max_seq),
{
    lemma_row_below(idx, d.b as int, d.nqh as int);
    law_query_head_group(d, job.qh as int);
    let q = job.ib * d.nkvh + job.kh;
    let hd = d.hd as int;
    assert(q * max_seq * hd + t * hd + j == (q * max_seq + t) * hd + j) by (nonlinear_arith);
    lemma_slot_inside(d, max_seq, job.ib as int, job.kh as int, t, j);
}

/// Number of positions that new token `i` of `s` may look at.
pub open spec fn visible(i: int, s: int, cur_len: int, causal: bool) -> int {
    if causal {
        i + (cur_len - s) + 1
    } else {
        cur_len
    }
}

/// Scores after masking: positions that a token may not look at hold `masked`.
pub open spec fn masked_scores<T>(
    scores: Seq<T>,
    s: int,
    cur_len: int,
    causal: bool,
    masked: T,
) -> Seq<T> {
    Seq::new(
        scores.len(),
        |k: int|
            if k % cur_len >= visible(k / cur_len, s, cur_len, causal) {
                masked
            } else {
                scores[k]
            },
    )
}

/// Masks the positions that a token may not look at in `[s, cur_len]` scores.
pub fn mask_scores<T: Copy>(
    scores: &mut Vec<T>,
    s: usize,
    cur_len: usize,
    causal: bool,
    masked: T,
)
    requires
        s <= cur_len,
        0 < cur_len,
        old(scores)@.len() == s * cur_len,
    ensures
        final(scores)@ == masked_scores(
            old(scores)@,
            s as int,
            cur_len as int,
            causal,
            masked,
        ),
        forall|i: int, t: int|
            0 <= i < s && 0 <= t < cur_len ==> final(scores)@[#[trigger] (i * cur_len + t)] == if t
                >= visible(i, s as int, cur_len as int, causal) {
                masked
            } else {
                old(scores)@[i * cur_len + t]
            },
{
    let ghost before = scores@;
    let n: usize = scores.len();
    let mut k: usize = 0;
    while k < n
        invariant
            k <= n,
            n == before.len(),
            scores@.len() == n,
            n == s * cur_len,
            s <= cur_len,
            0 < cur_len,
            forall|x: int|
                0 <= x < k ==> #[trigger] scores@[x] == masked_scores(
                    before,
                    s as int,
                    cur_len as int,
                    causal,
                    masked,
                )[x],
            forall|x: int| k <= x < n ==> #[trigger] scores@[x] == before[x],
        decreases n - k,
    {
        let i: usize = k / cur_len;
        let t: usize = k % cur_len;
        proof {
            lemma_row_below(k as int, s as int, cur_len as int);
        }
        let limit: usize = if causal {
            i + (cur_len - s) + 1
        } else {
            cur_len
        };
        if t >= limit {
            scores.set(k, masked);
        }
        k += 1;
    }
    proof {
        assert(scores@ =~= masked_scores(before, s as int, cur_len as int, causal, masked));
        assert forall|i: int, t: int| 0 <= i < s && 0 <= t < cur_len implies scores@[#[trigger] (i
            * cur_len + t)] == if t >= visible(i, s as int, cur_len as int, causal) {
            masked
        } else {
            before[i * cur_len + t]
        } by {
            lemma_split(i, cur_len as int, t);
            lemma_inside(i, s as int, cur_len as int, t);
        }
    }
}

/// A causal token sees itself and everything before it, never nothing and never
/// more than there is; the last new token sees everything.
pub proof fn law_causal_visibility(i: int, s: int, cur_len: int)
    requires
        0 <= i < s <= cur_len,
    ensures
        1 <= visible(i, s, cur_len, true) <= cur_len,
        visible(s - 1, s, cur_len, true) == cur_len,
        visible(i, s, cur_len, true) == (cur_len - s) + i + 1,
        visible(i, s, cur_len, false) == cur_len,
{
}

/// Rows `ids` of an embedding table with `cols` columns, as `[n, cols]`.
pub fn embed_lookup<T: Copy>(table: &[T], cols: usize, ids: &[i64]) -> (r: CpuTensor<T>)
    requires
        forall|i: int|
            0 <= i < ids@.len() ==> 0 <= #[trigger] ids@[i] && (ids@[i] + 1) * cols <= table@.len(),
        ids@.len() * cols <= usize::MAX,
    ensures
        r.valid(),
        r.shape@ == seq![ids@.len() as usize, cols],
        forall|i: int, j: int|
            0 <= i < ids@.len() && 0 <= j < cols ==> r.data@[#[trigger] (i * cols + j)]
                == table@[ids@[i] * cols + j],
{
    let n: usize = ids.len();
    let total: usize = n * cols;
    let mut data: Vec<T> = Vec::new();
    let mut k: usize = 0;
    assert(table.len() <= usize::MAX);
    while k < total
        invariant
            k <= total,
            total == n * cols,
            n == ids@.len(),
            table@.len() <= usize::MAX,
            forall|i: int|
                0 <= i < ids@.len() ==> 0 <= #[trigger] ids@[i] && (ids@[i] + 1) * cols
                    <= table@.len(),
            data@.len() == k,
            forall|x: int|
                0 <= x < k ==> #[trigger] data@[x] == table@[ids@[x / (cols as int)] * cols + x % (
                cols as int)],
        decreases total - k,
    {
        assert(0 < cols) by (nonlinear_arith)
            requires
                0 <= k < n * cols,
                0 <= cols,
        ;
        let i: usize = k / cols;
        let j: usize = k % cols;
        proof {
            lemma_row_below(k as int, n as int, cols as int);
            let id = ids@[i as int] as int;
            assert((id + 1) * cols == id * cols + cols) by (nonlinear_arith);
            lemma_monotone(0, 0, id, cols as int);
            lemma_grows(id, cols as int);
        }
        let id: usize = ids[i] as usize;
        data.push(table[id * cols + j]);
        k += 1;
    }
    let shape: Vec<usize> = vec![n, cols];
    proof {
        assert forall|i: int, j: int| 0 <= i < ids@.len() && 0 <= j < cols implies data@[#[trigger] (
        i * cols + j)] == table@[ids@[i] * cols + j] by {
            lemma_split(i, cols as int, j);
            lemma_inside(i, n as int, cols as int, j);
        }
        assert(shape@ =~= seq![n, cols]);
        lemma_product3(n, cols, 1);
    }
    CpuTensor::new(data, shape)
}

} // verus!

//! What single launches and products do to the buffers of a [`Device`].
use vstd::prelude::*;

use crate::cudarc_engine::{
    chunks_of, decode_block, decode_smem, is_qkv_extract, parts_at_once, split_ints, split_smem,
    BatchedPlan, QkvExtract,
};
use crate::device::{admits, effect, is_mixture, is_row_product, Buffer, Device};
use crate::launch::{
    elementwise_config, reduction_block, reduction_config, Kernel, Launch, LaunchConfig,
};
use crate::layout::lemma_join;
use crate::linear::{av_config, linear_config, qk_config, GemmConfig};
use crate::steps::Operands;
use crate::tensor::product;
use crate::terms::{attention, LayerCall, PartOf, Term};

verus! {

/// A device on which a buffer holds something else.
pub open spec fn holding<O>(d: Device<O>, name: O, term: Term<O>, len: int) -> Device<O> {
    Device { held: d.held.insert(name, Buffer { term, len }), ok: true }
}

/// A buffer of `len` elements.
pub open spec fn has_buffer<O>(d: Device<O>, name: O, len: int) -> bool {
    d.held.contains_key(name) && d.held[name].len == len
}

proof fn lemma_launch<O>(d: Device<O>, l: Launch, on: Operands<O>)
    requires
        d.ok,
        on.writes@.len() == 1,
        d.has(on.writes@),
        d.has(on.reads@),
        admits(l, d.lens(on.writes@), d.lens(on.reads@)),
    ensures
        d.launch(l, on) == holding(
            d,
            on.writes@[0],
            effect(l, d.terms(on.writes@), d.terms(on.reads@))[0],
            d.held[on.writes@[0]].len,
        ),
{
    reveal(Device::launch);
    assert(d.has(on.writes@));
}

pub proof fn lemma_rms<O>(
    d: Device<O>,
    l: Launch,
    on: Operands<O>,
    y: O,
    x: O,
    w: O,
    rows: int,
    width: usize,
)
    requires
        d.ok,
        on.are(seq![y], seq![x, w]),
        has_buffer(d, y, rows * width),
        has_buffer(d, x, rows * width),
        has_buffer(d, w, width as int),
        l.is(Kernel::RmsNorm, reduction_config(rows as u32, 1, width), seq![width as i32, rows as i32]),
        0 <= rows <= i32::MAX,
        0 <= width <= i32::MAX,
    ensures
        d.launch(l, on) == holding(d, y, Term::RmsNormed(Box::new(d.held[x].term), Box::new(d.held[w].term)), rows * width),
{
    reveal(admits);
    reveal(effect);
    lemma_launch(d, l, on);
}

pub proof fn lemma_layer_norm<O>(
    d: Device<O>,
    l: Launch,
    on: Operands<O>,
    y: O,
    x: O,
    scale: O,
    bias: O,
    rows: int,
    width: usize,
)
    requires
        d.ok,
        on.are(seq![y], seq![x, scale, bias]),
        has_buffer(d, y, rows * width),
        has_buffer(d, x, rows * width),
        has_buffer(d, scale, width as int),
        has_buffer(d, bias, width as int),
        l.is(Kernel::LayerNorm, (LaunchConfig {
            shared_mem_bytes: (reduction_block(width as u32) * 4 * 2) as u32,
            ..reduction_config(rows as u32, 1, width)
        }), seq![width as i32, rows as i32]),
        0 <= rows <= i32::MAX,
        0 <= width <= i32::MAX,
    ensures
        d.launch(l, on) == holding(d, y, Term::LayerNormed(Box::new(d.held[x].term), Box::new(d.held[scale].term), Box::new(d.held[bias].term)), rows * width),
{
    reveal(admits);
    reveal(effect);
    lemma_launch(d, l, on);
}

pub proof fn lemma_sum<O>(
    d: Device<O>,
    l: Launch,
    on: Operands<O>,
    y: O,
    a: O,
    b: O,
    n: int,
)
    requires
        d.ok,
        on.are(seq![y], seq![a, b]),
        has_buffer(d, y, n),
        has_buffer(d, a, n),
        has_buffer(d, b, n),
        l.is(Kernel::Add, elementwise_config((n) as u32), seq![n as i32]),
        0 <= n <= i32::MAX,
    ensures
        d.launch(l, on) == holding(d, y, Term::Sum(Box::new(d.held[a].term), Box::new(d.held[b].term)), n),
{
    reveal(admits);
    reveal(effect);
    lemma_launch(d, l, on);
}

pub proof fn lemma_sum_in_place<O>(
    d: Device<O>,
    l: Launch,
    on: Operands<O>,
    y: O,
    a: O,
    n: int,
)
    requires
        d.ok,
        on.are(seq![y], seq![a]),
        has_buffer(d, y, n),
        has_buffer(d, a, n),
        l.is(Kernel::AddInplace, elementwise_config((n) as u32), seq![n as i32]),
        0 <= n <= i32::MAX,
    ensures
        d.launch(l, on) == holding(d, y, Term::Sum(Box::new(d.held[y].term), Box::new(d.held[a].term)), n),
{
    reveal(admits);
    reveal(effect);
    lemma_launch(d, l, on);
}

pub proof fn lemma_activation<O>(
    d: Device<O>,
    l: Launch,
    on: Operands<O>,
    y: O,
    n: int,
)
    requires
        d.ok,
        on.are(seq![y], Seq::<O>::empty()),
        has_buffer(d, y, n),
        l.is(Kernel::GeluInplace, elementwise_config((n) as u32), seq![n as i32]),
        0 <= n <= i32::MAX,
    ensures
        d.launch(l, on) == holding(d, y, Term::Activated(Box::new(d.held[y].term)), n),
{
    reveal(admits);
    reveal(effect);
    lemma_launch(d, l, on);
}

pub proof fn lemma_bias<O>(
    d: Device<O>,
    l: Launch,
    on: Operands<O>,
    y: O,
    bias: O,
    rows: int,
    width: int,
)
    requires
        d.ok,
        on.are(seq![y], seq![bias]),
        has_buffer(d, y, rows * width),
        has_buffer(d, bias, width),
        l.is(Kernel::AddBiasInplace, elementwise_config((rows * width) as u32), seq![rows as i32, width as i32]),
        0 <= rows <= i32::MAX,
        0 <= width <= i32::MAX,
        0 <= rows * width <= i32::MAX,
    ensures
        d.launch(l, on) == holding(d, y, Term::Biased(Box::new(d.held[y].term), Box::new(d.held[bias].term)), rows * width),
{
    reveal(admits);
    reveal(effect);
    lemma_launch(d, l, on);
}

pub proof fn lemma_gated<O>(
    d: Device<O>,
    l: Launch,
    on: Operands<O>,
    y: O,
    x: O,
    rows: int,
    half: int,
)
    requires
        d.ok,
        on.are(seq![y], seq![x]),
        has_buffer(d, y, rows * half),
        has_buffer(d, x, rows * (2 * half)),
        l.is(Kernel::SiluMulSplit, elementwise_config((rows * half) as u32), seq![rows as i32, half as i32]),
        0 <= rows <= i32::MAX,
        0 <= half <= i32::MAX,
        0 <= rows * half <= i32::MAX,
    ensures
        d.launch(l, on) == holding(d, y, Term::Gated(Box::new(d.held[x].term)), rows * half),
{
    reveal(admits);
    reveal(effect);
    lemma_launch(d, l, on);
}

pub proof fn lemma_softmax<O>(
    d: Device<O>,
    l: Launch,
    on: Operands<O>,
    y: O,
    x: O,
    rows: int,
    m: usize,
    n: usize,
    masked: bool,
)
    requires
        d.ok,
        on.are(seq![y], seq![x]),
        has_buffer(d, y, rows * n),
        has_buffer(d, x, rows * n),
        l.is(Kernel::SoftmaxCausal, reduction_config(rows as u32, 1, n), seq![
                m as i32,
                n as i32,
                if masked {
                    1i32
                } else {
                    0i32
                },
            ]),
        0 <= rows <= i32::MAX,
        0 <= n <= i32::MAX,
        0 < m <= i32::MAX,
        rows % (m as int) == 0,
    ensures
        d.launch(l, on) == holding(d, y, Term::Weights { scores: Box::new(d.held[x].term), masked }, rows * n),
{
    reveal(admits);
    reveal(effect);
    lemma_launch(d, l, on);
}

pub proof fn lemma_repeat<O>(
    d: Device<O>,
    l: Launch,
    on: Operands<O>,
    y: O,
    x: O,
    b: int,
    nkvh: int,
    max: int,
    hd: int,
    sharing: int,
    cur: int,
)
    requires
        d.ok,
        on.are(seq![y], seq![x]),
        has_buffer(d, y, b * (nkvh * sharing) * cur * hd),
        has_buffer(d, x, b * nkvh * max * hd),
        l.is(Kernel::RepeatKvFromCache, elementwise_config((b * (nkvh * sharing) * cur * hd) as u32), seq![b as i32, nkvh as i32, max as i32, hd as i32, sharing as i32, cur as i32]),
        0 <= b <= i32::MAX,
        0 <= nkvh <= i32::MAX,
        0 <= max <= i32::MAX,
        0 <= hd <= i32::MAX,
        0 <= sharing <= i32::MAX,
        0 <= cur <= i32::MAX,
        0 <= b * (nkvh * sharing) * cur * hd <= i32::MAX,
        cur <= max,
    ensures
        d.launch(l, on) == holding(d, y, Term::Repeated { cache: Box::new(d.held[x].term), positions: cur, sharing }, b * (nkvh * sharing) * cur * hd),
{
    reveal(admits);
    reveal(effect);
    lemma_launch(d, l, on);
}

pub proof fn lemma_swap<O>(
    d: Device<O>,
    l: Launch,
    on: Operands<O>,
    y: O,
    x: O,
    d0: int,
    d1: int,
    d2: int,
    d3: int,
)
    requires
        d.ok,
        on.are(seq![y], seq![x]),
        has_buffer(d, y, d0 * d1 * d2 * d3),
        has_buffer(d, x, d0 * d1 * d2 * d3),
        l.is(Kernel::SwapDims12, elementwise_config((d0 * d1 * d2 * d3) as u32), seq![d0 as i32, d1 as i32, d2 as i32, d3 as i32]),
        0 <= d0 <= i32::MAX,
        0 <= d1 <= i32::MAX,
        0 <= d2 <= i32::MAX,
        0 <= d3 <= i32::MAX,
        0 <= d0 * d1 * d2 * d3 <= i32::MAX,
    ensures
        d.launch(l, on) == holding(d, y, Term::Swapped(Box::new(d.held[x].term)), d0 * d1 * d2 * d3),
{
    reveal(admits);
    reveal(effect);
    lemma_launch(d, l, on);
}

pub proof fn lemma_slice<O>(
    d: Device<O>,
    l: Launch,
    on: Operands<O>,
    y: O,
    x: O,
    d0: int,
    d1: int,
    d2: int,
    d3: int,
    start: int,
    len: int,
)
    requires
        d.ok,
        on.are(seq![y], seq![x]),
        has_buffer(d, y, d0 * d1 * len * d3),
        has_buffer(d, x, d0 * d1 * d2 * d3),
        l.is(Kernel::SliceDim2, elementwise_config((d0 * d1 * len * d3) as u32), seq![d0 as i32, d1 as i32, d2 as i32, d3 as i32, start as i32, len as i32]),
        0 <= d0 <= i32::MAX,
        0 <= d1 <= i32::MAX,
        0 <= d2 <= i32::MAX,
        0 <= d3 <= i32::MAX,
        0 <= start <= i32::MAX,
        0 <= len <= i32::MAX,
        0 <= d0 * d1 * len * d3 <= i32::MAX,
        start + len <= d2,
    ensures
        d.launch(l, on) == holding(d, y, Term::Slice { of: Box::new(d.held[x].term), start, len }, d0 * d1 * len * d3),
{
    reveal(admits);
    reveal(effect);
    lemma_launch(d, l, on);
}

pub proof fn lemma_overwrite<O>(
    d: Device<O>,
    l: Launch,
    on: Operands<O>,
    y: O,
    x: O,
    d0: int,
    d1: int,
    d2: int,
    d3: int,
    start: int,
    len: int,
)
    requires
        d.ok,
        on.are(seq![y], seq![x]),
        has_buffer(d, y, d0 * d1 * d2 * d3),
        has_buffer(d, x, d0 * d1 * len * d3),
        l.is(Kernel::ConcatDim2Write, elementwise_config((d0 * d1 * len * d3) as u32), seq![d0 as i32, d1 as i32, d2 as i32, d3 as i32, start as i32, len as i32]),
        0 <= d0 <= i32::MAX,
        0 <= d1 <= i32::MAX,
        0 <= d2 <= i32::MAX,
        0 <= d3 <= i32::MAX,
        0 <= start <= i32::MAX,
        0 <= len <= i32::MAX,
        0 <= d0 * d1 * len * d3 <= i32::MAX,
        start + len <= d2,
    ensures
        d.launch(l, on) == holding(d, y, Term::Overwritten { under: Box::new(d.held[y].term), with: Box::new(d.held[x].term), start, len }, d0 * d1 * d2 * d3),
{
    reveal(admits);
    reveal(effect);
    lemma_launch(d, l, on);
}

pub proof fn lemma_unfold<O>(
    d: Device<O>,
    l: Launch,
    on: Operands<O>,
    y: O,
    x: O,
    b: int,
    c: int,
    h: int,
    w: int,
    ho: int,
    wo: int,
)
    requires
        d.ok,
        on.are(seq![y], seq![x]),
        has_buffer(d, y, b * ho * wo * (c * 9)),
        has_buffer(d, x, b * c * h * w),
        l.is(Kernel::Im2col3x3, elementwise_config((b * ho * wo * (c * 9)) as u32), seq![b as i32, c as i32, h as i32, w as i32, ho as i32, wo as i32]),
        0 <= b <= i32::MAX,
        0 <= c <= i32::MAX,
        0 <= h <= i32::MAX,
        0 <= w <= i32::MAX,
        0 <= ho <= i32::MAX,
        0 <= wo <= i32::MAX,
        0 <= b * ho * wo * (c * 9) <= i32::MAX,
        2 * (ho - 1) < h <= 2 * ho,
        2 * (wo - 1) < w <= 2 * wo,
    ensures
        d.launch(l, on) == holding(d, y, Term::Unfolded(Box::new(d.held[x].term)), b * ho * wo * (c * 9)),
{
    reveal(admits);
    reveal(effect);
    lemma_launch(d, l, on);
}

pub proof fn lemma_fold<O>(
    d: Device<O>,
    l: Launch,
    on: Operands<O>,
    y: O,
    x: O,
    bias: O,
    b: int,
    c: int,
    ho: int,
    wo: int,
)
    requires
        d.ok,
        on.are(seq![y], seq![x, bias]),
        has_buffer(d, y, b * c * ho * wo),
        has_buffer(d, x, b * c * ho * wo),
        has_buffer(d, bias, c),
        l.is(Kernel::ConvPostprocess, elementwise_config((b * c * ho * wo) as u32), seq![b as i32, c as i32, ho as i32, wo as i32]),
        0 <= b <= i32::MAX,
        0 <= c <= i32::MAX,
        0 <= ho <= i32::MAX,
        0 <= wo <= i32::MAX,
        0 <= b * c * ho * wo <= i32::MAX,
    ensures
        d.launch(l, on) == holding(d, y, Term::Folded(Box::new(d.held[x].term), Box::new(d.held[bias].term)), b * c * ho * wo),
{
    reveal(admits);
    reveal(effect);
    lemma_launch(d, l, on);
}

pub proof fn lemma_greatest<O>(
    d: Device<O>,
    l: Launch,
    on: Operands<O>,
    y: O,
    x: O,
    n: int,
    slots: int,
    slot: int,
)
    requires
        d.ok,
        on.are(seq![y], seq![x]),
        has_buffer(d, y, slots),
        has_buffer(d, x, n),
        l.is(Kernel::ArgmaxIntoSlot, (LaunchConfig { grid_dim: (1, 1, 1), block_dim: (1024, 1, 1), shared_mem_bytes: 0 }), seq![n as i32, slot as i32]),
        0 <= n <= i32::MAX,
        0 <= slot < slots,
        slot <= i32::MAX,
    ensures
        d.launch(l, on) == holding(d, y, Term::Greatest(Box::new(d.held[x].term)), slots),
{
    reveal(admits);
    reveal(effect);
    lemma_launch(d, l, on);
}

pub proof fn lemma_decode<O>(
    d: Device<O>,
    l: Launch,
    on: Operands<O>,
    y: O,
    q: O,
    k: O,
    v: O,
    b: int,
    nqh: int,
    nkvh: int,
    max: int,
    hd: int,
    cur: int,
)
    requires
        d.ok,
        on.are(seq![y], seq![q, k, v]),
        has_buffer(d, y, b * nqh * hd),
        has_buffer(d, q, b * nqh * hd),
        has_buffer(d, k, b * nkvh * max * hd),
        has_buffer(d, v, b * nkvh * max * hd),
        l.is(Kernel::FusedGqaDecode, (LaunchConfig {
                grid_dim: ((b * nqh) as u32, 1, 1),
                block_dim: (decode_block(cur) as u32, 1, 1),
                shared_mem_bytes: decode_smem(cur, hd) as u32,
            }), seq![b as i32, nqh as i32, nkvh as i32, max as i32, hd as i32, cur as i32]),
        0 <= b <= i32::MAX,
        0 <= nqh <= i32::MAX,
        0 <= max <= i32::MAX,
        0 <= cur <= i32::MAX,
        0 <= b * nqh <= i32::MAX,
        0 < nkvh <= i32::MAX,
        0 < hd <= i32::MAX,
        0 < cur <= max,
        nqh % nkvh == 0,
        decode_smem(cur, hd) <= u32::MAX,
    ensures
        d.launch(l, on) == holding(d, y, attention(d.held[q].term, d.held[k].term, d.held[v].term, cur, nqh / nkvh, false), b * nqh * hd),
{
    reveal(admits);
    reveal(effect);
    assert(d.lens(on.reads@) =~= seq![b * nqh * hd, b * nkvh * max * hd, b * nkvh * max * hd]);
    lemma_parts(decode_block(cur), hd);
    lemma_launch(d, l, on);
}

/// The threads of a block make at least one partial output of a head, and one more for
/// every further width of a head that they number.
proof fn lemma_parts(bs: int, hd: int)
    requires
        0 < bs,
        0 < hd,
    ensures
        parts_at_once(bs, hd) == if hd <= bs {
            bs / hd
        } else {
            1
        },
        0 < hd * parts_at_once(bs, hd),
{
    lemma_join(bs, hd);
    if hd <= bs {
        assert(1 <= bs / hd) by (nonlinear_arith)
            requires
                0 < hd <= bs,
                (bs / hd) * hd + bs % hd == bs,
                0 <= bs % hd < hd,
        ;
    } else {
        assert(bs / hd < 1) by (nonlinear_arith)
            requires
                0 < bs < hd,
                (bs / hd) * hd + bs % hd == bs,
                0 <= bs % hd < hd,
        ;
    }
    let parts = parts_at_once(bs, hd);
    assert(0 < hd * parts) by (nonlinear_arith)
        requires
            0 < hd,
            0 < parts,
    ;
}

/// What a product leaves in a buffer that held `y`.
pub open spec fn multiplied<O>(w: Term<O>, x: Term<O>, y: Term<O>, accumulate: bool) -> Term<O> {
    let made = Term::Product(Box::new(w), Box::new(x));
    if accumulate {
        Term::Sum(Box::new(y), Box::new(made))
    } else {
        made
    }
}

pub proof fn lemma_gemm<O>(
    d: Device<O>,
    g: GemmConfig,
    on: Operands<O>,
    y: O,
    w: O,
    x: O,
    rows: usize,
    outs: usize,
    ins: usize,
    accumulate: bool,
)
    requires
        d.ok,
        on.are(seq![y], seq![w, x]),
        g == linear_config(rows, outs, ins, accumulate),
        rows <= i32::MAX,
        outs <= i32::MAX,
        ins <= i32::MAX,
        has_buffer(d, w, outs * ins),
        has_buffer(d, x, rows * ins),
        has_buffer(d, y, rows * outs),
    ensures
        d.gemm(g, on) == holding(
            d,
            y,
            multiplied(d.held[w].term, d.held[x].term, d.held[y].term, accumulate),
            rows * outs,
        ),
{
    reveal(Device::gemm);
    assert(is_row_product(g));
}

pub proof fn lemma_scores<O>(
    d: Device<O>,
    p: BatchedPlan,
    on: Operands<O>,
    y: O,
    k: O,
    q: O,
    b: usize,
    h: usize,
    m: usize,
    n: usize,
    hd: usize,
)
    requires
        d.ok,
        on.are(seq![y], seq![k, q]),
        p.gemm == qk_config(b, h, m, n, hd),
        m <= i32::MAX,
        n <= i32::MAX,
        hd <= i32::MAX,
        b * h <= i32::MAX,
        n * hd <= i64::MAX,
        m * hd <= i64::MAX,
        m * n <= i64::MAX,
        has_buffer(d, k, (b * h) * (n * hd)),
        has_buffer(d, q, (b * h) * (m * hd)),
        product(p.out@) == (b * h) * (m * n),
    ensures
        d.scores(p, on) == holding(
            d,
            y,
            Term::Scores(Box::new(d.held[k].term), Box::new(d.held[q].term)),
            (b * h) * (m * n),
        ),
{
    reveal(Device::scores);
    reveal(Device::batch_fits);
    assert(is_row_product(p.gemm.gemm));
    assert(d.has(on.reads@));
    assert(d.scores(p, on).held =~= holding(
        d,
        y,
        Term::Scores(Box::new(d.held[k].term), Box::new(d.held[q].term)),
        (b * h) * (m * n),
    ).held);
}

pub proof fn lemma_mix<O>(
    d: Device<O>,
    p: BatchedPlan,
    on: Operands<O>,
    y: O,
    v: O,
    w: O,
    b: usize,
    h: usize,
    m: usize,
    n: usize,
    hd: usize,
)
    requires
        d.ok,
        on.are(seq![y], seq![v, w]),
        p.gemm == av_config(b, h, m, n, hd),
        m <= i32::MAX,
        n <= i32::MAX,
        hd <= i32::MAX,
        b * h <= i32::MAX,
        n * hd <= i64::MAX,
        m * hd <= i64::MAX,
        m * n <= i64::MAX,
        has_buffer(d, v, (b * h) * (n * hd)),
        has_buffer(d, w, (b * h) * (m * n)),
        product(p.out@) == (b * h) * (m * hd),
    ensures
        d.mix(p, on) == holding(
            d,
            y,
            Term::Mixed(Box::new(d.held[v].term), Box::new(d.held[w].term)),
            (b * h) * (m * hd),
        ),
{
    reveal(Device::mix);
    reveal(Device::batch_fits);
    assert(is_mixture(p.gemm.gemm));
    assert(d.has(on.reads@));
    assert(hd * n == n * hd) by (nonlinear_arith);
    assert(d.mix(p, on).held =~= holding(
        d,
        y,
        Term::Mixed(Box::new(d.held[v].term), Box::new(d.held[w].term)),
        (b * h) * (m * hd),
    ).held);
}

/// A device on which three buffers hold something else.
pub open spec fn holding3<O>(
    d: Device<O>,
    names: (O, O, O),
    terms: (Term<O>, Term<O>, Term<O>),
) -> Device<O> {
    let lens = (d.held[names.0].len, d.held[names.1].len, d.held[names.2].len);
    holding(
        holding(holding(d, names.0, terms.0, lens.0), names.1, terms.1, lens.1),
        names.2,
        terms.2,
        lens.2,
    )
}

proof fn lemma_launch3<O>(d: Device<O>, l: Launch, on: Operands<O>, y: (O, O, O))
    requires
        d.ok,
        on.writes@ =~= seq![y.0, y.1, y.2],
        y.0 != y.1,
        y.0 != y.2,
        y.1 != y.2,
        d.has(on.writes@),
        d.has(on.reads@),
        admits(l, d.lens(on.writes@), d.lens(on.reads@)),
    ensures
        ({
            let out = effect(l, d.terms(on.writes@), d.terms(on.reads@));
            d.launch(l, on) == holding3(d, y, (out[0], out[1], out[2]))
        }),
{
    reveal(Device::launch);
    let out = effect(l, d.terms(on.writes@), d.terms(on.reads@));
    assert(d.launch(l, on).held =~= holding3(d, y, (out[0], out[1], out[2])).held);
}

/// Queries, keys and values taken out of a projection.
pub proof fn lemma_extract<O>(
    d: Device<O>,
    l: Launch,
    on: Operands<O>,
    y: (O, O, O),
    qkv: O,
    qn: O,
    kn: O,
    cos: O,
    sin: O,
    b: usize,
    sl: usize,
    total: usize,
    at: QkvExtract,
    call: LayerCall,
)
    requires
        d.ok,
        on.are(seq![y.0, y.1, y.2], seq![qkv, qn, kn, cos, sin]),
        y.0 != y.1,
        y.0 != y.2,
        y.1 != y.2,
        is_qkv_extract(l, b, sl, total, at),
        (call.nqh, call.nkvh, call.hd) == (at.nqh as int, at.nkvh as int, at.d as int),
        call.kv_start == at.start,
        at.pos_offset == at.start,
        at.q_dim == at.nqh * at.d,
        at.kv_dim == at.nkvh * at.d,
        total == at.q_dim + 2 * at.kv_dim,
        at.start + sl <= at.max_seq,
        b <= i32::MAX,
        sl <= i32::MAX,
        total <= i32::MAX,
        at.nqh + at.nkvh <= i32::MAX,
        at.d <= i32::MAX,
        at.max_seq <= i32::MAX,
        b * sl <= i32::MAX,
        has_buffer(d, y.0, b * at.nqh * sl * at.d),
        has_buffer(d, y.1, b * at.nkvh * at.max_seq * at.d),
        has_buffer(d, y.2, b * at.nkvh * at.max_seq * at.d),
        has_buffer(d, qkv, b * sl * total),
        has_buffer(d, qn, at.d as int),
        has_buffer(d, kn, at.d as int),
        d.held.contains_key(cos),
        (at.start + sl) * at.d <= d.held[cos].len,
        d.held.contains_key(sin),
        (at.start + sl) * at.d <= d.held[sin].len,
    ensures
        d.launch(l, on) == holding3(
            d,
            y,
            (
                call.queries(
                    d.held[qkv].term,
                    d.held[qn].term,
                    d.held[cos].term,
                    d.held[sin].term,
                ),
                call.keys(
                    d.held[y.1].term,
                    d.held[qkv].term,
                    d.held[kn].term,
                    d.held[cos].term,
                    d.held[sin].term,
                ),
                call.values(d.held[y.2].term, d.held[qkv].term),
            ),
        ),
{
    reveal(admits);
    reveal(effect);
    let outs = d.lens(on.writes@);
    assert(outs =~= seq![
        b * at.nqh * sl * at.d,
        b * at.nkvh * at.max_seq * at.d,
        b * at.nkvh * at.max_seq * at.d,
    ]);
    assert(admits(l, outs, d.lens(on.reads@)));
    lemma_launch3(d, l, on, y);
}

/// Attention to parts of the positions.
pub proof fn lemma_split<O>(
    d: Device<O>,
    l: Launch,
    on: Operands<O>,
    y: (O, O, O),
    q: O,
    k: O,
    v: O,
    b: int,
    nqh: int,
    nkvh: usize,
    max: usize,
    hd: int,
    cur: usize,
    size: usize,
    blocks: int,
)
    requires
        d.ok,
        on.are(seq![y.0, y.1, y.2], seq![q, k, v]),
        y.0 != y.1,
        y.0 != y.2,
        y.1 != y.2,
        l.is(
            Kernel::FusedGqaDecodeSplitP1,
            (LaunchConfig {
                grid_dim: ((b * nqh) as u32, blocks as u32, 1),
                block_dim: (256, 1, 1),
                shared_mem_bytes: split_smem(size as int, hd) as u32,
            }),
            split_ints(b as i32, nqh as i32, nkvh, max, hd as i32, cur, size),
        ),
        size == 256 || size == 512,
        0 <= b <= i32::MAX,
        0 <= nqh <= i32::MAX,
        0 <= b * nqh <= i32::MAX,
        0 < nkvh <= i32::MAX,
        nqh % (nkvh as int) == 0,
        0 < cur <= max <= i32::MAX,
        0 < hd <= 1024,
        chunks_of(cur as int, size as int) <= blocks <= i32::MAX,
        has_buffer(d, q, b * nqh * hd),
        has_buffer(d, k, b * nkvh * max * hd),
        has_buffer(d, v, b * nkvh * max * hd),
        d.held.contains_key(y.0),
        d.held.contains_key(y.1),
        d.held.contains_key(y.2),
        b * nqh * chunks_of(cur as int, size as int) * hd <= d.held[y.0].len,
        b * nqh * chunks_of(cur as int, size as int) <= d.held[y.1].len,
        b * nqh * chunks_of(cur as int, size as int) <= d.held[y.2].len,
    ensures
        ({
            let all = Box::new(
                attention(
                    d.held[q].term,
                    d.held[k].term,
                    d.held[v].term,
                    cur as int,
                    nqh / nkvh as int,
                    false,
                ),
            );
            let parts = chunks_of(cur as int, size as int);
            d.launch(l, on) == holding3(
                d,
                y,
                (
                    Term::Part { attention: all, what: PartOf::Output, parts },
                    Term::Part { attention: all, what: PartOf::Greatest, parts },
                    Term::Part { attention: all, what: PartOf::Sum, parts },
                ),
            )
        }),
{
    reveal(admits);
    reveal(effect);
    lemma_parts(256, hd);
    let parts = chunks_of(cur as int, size as int);
    assert((parts - 1) * size < cur <= parts * size) by (nonlinear_arith)
        requires
            parts == (cur + size - 1) / (size as int),
            size == 256 || size == 512,
    ;
    lemma_join(256, hd);
    assert(hd * parts_at_once(256, hd) <= 1024 + 256) by (nonlinear_arith)
        requires
            0 < hd <= 1024,
            parts_at_once(256, hd) == if hd <= 256 {
                256int / hd
            } else {
                1
            },
            (256int / hd) * hd + 256int % hd == 256,
            0 <= 256int % hd,
    ;
    assert(d.lens(on.reads@) =~= seq![b * nqh * hd, b * nkvh * max * hd, b * nkvh * max * hd]);
    assert(admits(l, d.lens(on.writes@), d.lens(on.reads@)));
    lemma_launch3(d, l, on, y);
}

/// The parts put together.
pub proof fn lemma_join_parts<O>(
    d: Device<O>,
    l: Launch,
    on: Operands<O>,
    y: O,
    from: (O, O, O),
    all: Box<Term<O>>,
    b: int,
    nqh: int,
    parts: int,
    hd: int,
)
    requires
        d.ok,
        on.are(seq![y], seq![from.0, from.1, from.2]),
        l.is(
            Kernel::FusedGqaDecodeSplitP2,
            (LaunchConfig {
                grid_dim: ((b * nqh) as u32, 1, 1),
                block_dim: (hd as u32, 1, 1),
                shared_mem_bytes: 0,
            }),
            seq![b as i32, nqh as i32, parts as i32, hd as i32],
        ),
        0 <= b <= i32::MAX,
        0 <= nqh <= i32::MAX,
        0 <= b * nqh <= i32::MAX,
        0 <= parts <= i32::MAX,
        0 < hd <= i32::MAX,
        has_buffer(d, y, b * nqh * hd),
        d.held.contains_key(from.0),
        d.held.contains_key(from.1),
        d.held.contains_key(from.2),
        b * nqh * parts * hd <= d.held[from.0].len,
        b * nqh * parts <= d.held[from.1].len,
        b * nqh * parts <= d.held[from.2].len,
        d.held[from.0].term == (Term::Part { attention: all, what: PartOf::Output, parts }),
        d.held[from.1].term == (Term::Part { attention: all, what: PartOf::Greatest, parts }),
        d.held[from.2].term == (Term::Part { attention: all, what: PartOf::Sum, parts }),
    ensures
        d.launch(l, on) == holding(d, y, *all, b * nqh * hd),
{
    reveal(admits);
    reveal(effect);
    lemma_launch(d, l, on);
}

} // verus!

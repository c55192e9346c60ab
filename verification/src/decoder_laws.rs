//! What the plans of a decoder layer compute.
use vstd::prelude::*;

use crate::attention::HeadDims;
use crate::cudarc_engine::{chunks_of, GpuWeight};
use crate::decoder::{CpuAttention, CpuLayerPlan, CpuOp};
use crate::device::{Buffer, Device};
use crate::device_steps::{
    has_buffer, lemma_decode, lemma_extract, lemma_gated, lemma_gemm, lemma_greatest,
    lemma_join_parts, lemma_mix, lemma_repeat, lemma_rms, lemma_scores, lemma_softmax, lemma_split,
    lemma_swap,
};
use crate::gpu_decoder::{
    chunk_for, law_decode_smem_bounded, law_decode_step_fits_scratch, max_chunks, AttentionPlan,
    DecodeAttention, DecodeHeadPlan, DecodeLayerPlan, DecodeScratch, DecodeStepPlan, DecoderConfig,
    DecoderPlan, GpuDecoderLayer, GpuTextDecoder, HeadOperand, HeadPlan, HeadStep, LayerPlan,
    RowSlice,
};
use crate::layout::{lemma_join, lemma_monotone};
use crate::steps::{LayerOperand, LayerStep, Operands};
use crate::tensor::{lemma_product3, lemma_product4, product};
use crate::terms::{attention, decoder_layer, given, LayerCall, Term};

verus! {

/// What stands in the buffers of a layer.
pub type Held = Map<LayerOperand, Term<LayerOperand>>;

/// Buffers that hold what the caller put into them.
pub open spec fn untouched() -> Held {
    Map::new(|name: LayerOperand| true, |name: LayerOperand| Term::Given(name))
}

/// The buffers after a step on the CPU.
pub open spec fn cpu_step(
    held: Held,
    op: CpuOp,
    on: Operands<LayerOperand>,
    call: LayerCall,
    plan: CpuLayerPlan,
) -> Held {
    let (to, from) = (on.writes@, on.reads@);
    match op {
        CpuOp::Norm => held.insert(
            to[0],
            Term::RmsNormed(Box::new(held[from[0]]), Box::new(held[from[1]])),
        ),
        CpuOp::Product => held.insert(
            to[0],
            Term::Product(Box::new(held[from[0]]), Box::new(held[from[1]])),
        ),
        CpuOp::Accumulate => held.insert(
            to[0],
            Term::Sum(
                Box::new(held[to[0]]),
                Box::new(Term::Product(Box::new(held[from[0]]), Box::new(held[from[1]]))),
            ),
        ),
        CpuOp::Extract => {
            let (qkv, qn, kn) = (held[from[0]], held[from[1]], held[from[2]]);
            let (cos, sin) = (held[from[3]], held[from[4]]);
            held.insert(to[0], call.queries(qkv, qn, cos, sin)).insert(
                to[1],
                call.keys(held[to[1]], qkv, kn, cos, sin),
            ).insert(to[2], call.values(held[to[2]], qkv))
        },
        CpuOp::Attend => {
            let heads = attention(
                held[from[0]],
                held[from[1]],
                held[from[2]],
                plan.cur_len as int,
                call.nqh / call.nkvh,
                plan.attention == (CpuAttention::Prefill { causal: true }),
            );
            held.insert(
                to[0],
                if plan.attention is Decode {
                    heads
                } else {
                    Term::Swapped(Box::new(heads))
                },
            )
        },
        CpuOp::Activate => held.insert(to[0], Term::Gated(Box::new(held[from[0]]))),
    }
}

/// The buffers after the first steps of a plan.
pub open spec fn cpu_run(plan: CpuLayerPlan, call: LayerCall, steps: Seq<LayerStep<CpuOp>>) -> Held
    decreases steps.len(),
{
    if steps.len() == 0 {
        untouched()
    } else {
        cpu_step(
            cpu_run(plan, call, steps.drop_last()),
            steps.last().run,
            steps.last().on,
            call,
            plan,
        )
    }
}

proof fn lemma_next(plan: CpuLayerPlan, call: LayerCall, steps: Seq<LayerStep<CpuOp>>, i: int)
    requires
        0 <= i < steps.len(),
    ensures
        cpu_run(plan, call, steps.take(i + 1)) == cpu_step(
            cpu_run(plan, call, steps.take(i)),
            steps[i].run,
            steps[i].on,
            call,
            plan,
        ),
{
    assert(steps.take(i + 1).drop_last() =~= steps.take(i));
}

/// The call of a layer on the CPU.
pub open spec fn cpu_call(d: HeadDims, s: int, kv_start: int, causal: bool) -> LayerCall {
    LayerCall {
        nqh: d.nqh as int,
        nkvh: d.nkvh as int,
        hd: d.hd as int,
        s,
        kv_start,
        causal,
    }
}

/// Carrying out the plan of a layer on the CPU computes a decoder layer: what the
/// attention sees is added to the stream, and the feed-forward part works on that sum.
pub proof fn law_cpu_plan_is_a_decoder_layer(
    plan: CpuLayerPlan,
    d: HeadDims,
    s: int,
    kv_start: int,
    causal: bool,
)
    requires
        plan.computes(d, s, kv_start, causal),
        1 <= s,
    ensures
        ({
            let call = cpu_call(d, s, kv_start, causal);
            let end = cpu_run(plan, call, plan.steps@);
            &&& end[LayerOperand::Stream] == decoder_layer(call).stream
            &&& end[LayerOperand::KeyCache] == decoder_layer(call).keys
            &&& end[LayerOperand::ValueCache] == decoder_layer(call).values
        }),
{
    let call = cpu_call(d, s, kv_start, causal);
    let steps = plan.steps@;
    assert(steps.take(0) =~= Seq::empty());
    assert(steps.take(9) =~= steps);
    lemma_next(plan, call, steps, 0);
    lemma_next(plan, call, steps, 1);
    lemma_next(plan, call, steps, 2);
    lemma_next(plan, call, steps, 3);
    lemma_next(plan, call, steps, 4);
    lemma_next(plan, call, steps, 5);
    lemma_next(plan, call, steps, 6);
    lemma_next(plan, call, steps, 7);
    lemma_next(plan, call, steps, 8);
}

/// Number of elements of the buffers that a layer is given for `b` sequences of `s` new
/// tokens: the stream, weights, caches, and tables of `angles` elements.
pub open spec fn given_len(
    layer: GpuDecoderLayer,
    b: int,
    s: int,
    max_seq: int,
    angles: int,
    name: LayerOperand,
) -> Option<int> {
    match name {
        LayerOperand::Stream => Some(b * s * layer.hs),
        LayerOperand::InputNorm | LayerOperand::PostNorm => Some(layer.hs as int),
        LayerOperand::QueryNorm | LayerOperand::KeyNorm => Some(layer.hd as int),
        LayerOperand::Cos | LayerOperand::Sin => Some(angles),
        LayerOperand::KeyCache | LayerOperand::ValueCache => Some(
            b * layer.nkvh * max_seq * layer.hd,
        ),
        LayerOperand::QkvProj => Some(layer.qkv_w.rows * layer.qkv_w.cols),
        LayerOperand::OutProj => Some(layer.o_w.rows * layer.o_w.cols),
        LayerOperand::GateUpProj => Some(layer.gu_w.rows * layer.gu_w.cols),
        LayerOperand::DownProj => Some(layer.dp_w.rows * layer.dp_w.cols),
        _ => None,
    }
}

/// The device in front of a layer.
pub open spec fn layer_device(
    layer: GpuDecoderLayer,
    b: int,
    s: int,
    max_seq: int,
    angles: int,
) -> Device<LayerOperand> {
    Device {
        held: Map::new(
            |name: LayerOperand| given_len(layer, b, s, max_seq, angles, name) is Some,
            |name: LayerOperand|
                Buffer {
                    term: Term::Given(name),
                    len: given_len(layer, b, s, max_seq, angles, name)->0,
                },
        ),
        ok: true,
    }
}

/// The device after the attention.
pub open spec fn attention_run(d: Device<LayerOperand>, plan: AttentionPlan) -> Device<LayerOperand> {
    match plan {
        AttentionPlan::Prefill { keys, values, scores, softmax, output } => d.kernel(
            keys.run,
            keys.on,
        ).kernel(values.run, values.on).scores(scores.run, scores.on).kernel(
            softmax.run,
            softmax.on,
        ).mix(output.run, output.on),
        AttentionPlan::Decode { launch } => d.kernel(launch.run, launch.on),
        AttentionPlan::Split { plan, p1, p2 } => d.with_buffer(
            p1.writes@[0],
            plan.part_out_len as int,
        ).with_buffer(p1.writes@[1], plan.part_stat_len as int).with_buffer(
            p1.writes@[2],
            plan.part_stat_len as int,
        ).launch(plan.p1, p1).with_buffer(p2.writes@[0], product(plan.out@)).launch(plan.p2, p2),
    }
}

/// The device after the steps of a layer in front of its attention.
pub open spec fn front_run(d: Device<LayerOperand>, plan: LayerPlan) -> Device<LayerOperand> {
    d.kernel(plan.input_norm.run, plan.input_norm.on).linear(plan.qkv.run, plan.qkv.on).kernel(
        plan.extract.run,
        plan.extract.on,
    )
}

/// The device after the steps of a layer behind its attention.
pub open spec fn back_run(d: Device<LayerOperand>, plan: LayerPlan) -> Device<LayerOperand> {
    let merged = match plan.merge {
        Some(merge) => d.kernel(merge.run, merge.on),
        None => d,
    };
    merged.gemm(plan.o_proj.run, plan.o_proj.on).kernel(
        plan.post_norm.run,
        plan.post_norm.on,
    ).linear(plan.gate_up.run, plan.gate_up.on).kernel(
        plan.activation.run,
        plan.activation.on,
    ).gemm(plan.down.run, plan.down.on)
}

/// The call of a layer on the device.
pub open spec fn gpu_call(layer: GpuDecoderLayer, s: int, kv_start: int, causal: bool) -> LayerCall {
    LayerCall {
        nqh: layer.nqh as int,
        nkvh: layer.nkvh as int,
        hd: layer.hd as int,
        s,
        kv_start,
        causal,
    }
}

/// A call whose sizes the kernels can be told: every buffer has at most as many
/// elements as an integer argument can say, a head is no wider than a block has
/// threads, heads share keys evenly, and there is room in the caches and there are rows
/// in the tables for the new positions.
pub open spec fn tellable(
    layer: GpuDecoderLayer,
    b: int,
    s: int,
    max_seq: int,
    kv_start: int,
    angles: int,
) -> bool {
    let (nqh, nkvh, hd, cur) = (layer.nqh, layer.nkvh, layer.hd, kv_start + s);
    &&& layer.matches()
    &&& nqh % nkvh == 0
    &&& layer.qkv_w.rows == nqh * hd + 2 * (nkvh * hd)
    &&& layer.gu_w.rows % 2 == 0
    &&& 1 <= b
    &&& 1 <= s
    &&& 0 <= kv_start
    &&& cur <= max_seq <= i32::MAX
    &&& cur * hd <= angles
    &&& layer.hs <= i32::MAX
    &&& nqh + nkvh <= i32::MAX
    &&& hd <= 1024
    &&& layer.qkv_w.rows <= i32::MAX
    &&& layer.gu_w.rows <= i32::MAX
    &&& b * s <= i32::MAX
    &&& b * s * layer.hs <= i32::MAX
    &&& b * s * layer.qkv_w.rows <= i32::MAX
    &&& b * s * layer.gu_w.rows <= i32::MAX
    &&& b * nkvh * max_seq * hd <= i32::MAX
    &&& b * nqh * s * hd <= i32::MAX
    &&& b * nqh * s * cur <= i32::MAX
    &&& b * nqh * cur * hd <= i32::MAX
}

proof fn lemma_sizes(layer: GpuDecoderLayer, b: int, s: int, max_seq: int, kv_start: int, angles: int)
    requires
        tellable(layer, b, s, max_seq, kv_start, angles),
    ensures
        ({
            let (nqh, nkvh, hd, cur) = (layer.nqh as int, layer.nkvh as int, layer.hd as int, kv_start + s);
            &&& 1 <= nqh * hd <= i32::MAX
            &&& 1 <= nkvh * hd <= i32::MAX
            &&& b <= i32::MAX
            &&& s <= i32::MAX
            &&& cur * hd <= i32::MAX
            &&& s * hd <= i32::MAX
            &&& s * cur <= i32::MAX
            &&& b * nqh <= i32::MAX
            &&& b * nqh * s <= i32::MAX
            &&& b * nqh * s == (b * nqh) * s
            &&& (b * nqh * s) % s == 0
            &&& nkvh * (nqh / nkvh) == nqh
            &&& 1 <= nqh / nkvh <= nqh
            &&& b * nqh * cur * hd == (b * nqh) * (cur * hd)
            &&& b * nqh * s * hd == (b * nqh) * (s * hd)
            &&& b * nqh * s * cur == (b * nqh) * (s * cur)
            &&& b * nqh * s * hd == (b * s) * (nqh * hd)
            &&& b * s * nqh * hd == (b * s) * (nqh * hd)
            &&& layer.gu_w.rows == 2 * (layer.gu_w.rows / 2)
            &&& b * s * (layer.gu_w.rows / 2) <= i32::MAX
            &&& (b * s) * (2 * (layer.gu_w.rows / 2)) == b * s * layer.gu_w.rows
        }),
{
    let (nqh, nkvh, hd, cur) = (layer.nqh as int, layer.nkvh as int, layer.hd as int, kv_start + s);
    lemma_join(nqh, nkvh);
    assert(nkvh * (nqh / nkvh) == nqh) by (nonlinear_arith)
        requires
            (nqh / nkvh) * nkvh + nqh % nkvh == nqh,
            nqh % nkvh == 0,
    ;
    assert(1 <= nqh / nkvh <= nqh) by (nonlinear_arith)
        requires
            nkvh * (nqh / nkvh) == nqh,
            1 <= nkvh,
            1 <= nqh,
    ;
    assert(b * nqh * cur * hd == (b * nqh) * (cur * hd)) by (nonlinear_arith);
    assert(b * nqh * s * hd == (b * nqh) * (s * hd)) by (nonlinear_arith);
    assert(b * nqh * s * cur == (b * nqh) * (s * cur)) by (nonlinear_arith);
    assert(b * nqh * s * hd == (b * s) * (nqh * hd)) by (nonlinear_arith);
    assert(b * s * nqh * hd == (b * s) * (nqh * hd)) by (nonlinear_arith);
    let (heads, tokens) = (b * nqh, b * s);
    assert(1 <= heads && 1 <= tokens && b <= tokens && s <= tokens && b <= heads && nqh <= heads)
        by (nonlinear_arith)
        requires
            1 <= b,
            1 <= s,
            1 <= nqh,
            heads == b * nqh,
            tokens == b * s,
    ;
    assert(1 <= nqh * hd && 1 <= nkvh * hd && 1 <= s * hd && 1 <= cur * hd && s <= s * cur)
        by (nonlinear_arith)
        requires
            1 <= nqh,
            1 <= nkvh,
            1 <= hd,
            1 <= s,
            1 <= cur,
    ;
    lemma_monotone(1, nqh * hd, tokens, nqh * hd);
    lemma_monotone(1, cur * hd, heads, cur * hd);
    lemma_monotone(1, s * hd, heads, s * hd);
    lemma_monotone(1, s * cur, heads, s * cur);
    lemma_monotone(heads, 1, heads, s);
    assert(s <= s * hd) by (nonlinear_arith)
        requires
            1 <= s,
            1 <= hd,
    ;
    lemma_monotone(heads, s, heads, s * hd);
    vstd::arithmetic::div_mod::lemma_mod_multiples_basic(heads, s);
    lemma_monotone(tokens, (layer.gu_w.rows / 2) as int, tokens, layer.gu_w.rows as int);
}

/// Whether what is read behind the attention is there as it was given.
pub open spec fn keeps_given(d: Device<LayerOperand>, start: Device<LayerOperand>) -> bool {
    &&& d.ok
    &&& d.held.contains_key(LayerOperand::OutProj)
    &&& d.held[LayerOperand::OutProj] == start.held[LayerOperand::OutProj]
    &&& d.held.contains_key(LayerOperand::PostNorm)
    &&& d.held[LayerOperand::PostNorm] == start.held[LayerOperand::PostNorm]
    &&& d.held.contains_key(LayerOperand::GateUpProj)
    &&& d.held[LayerOperand::GateUpProj] == start.held[LayerOperand::GateUpProj]
    &&& d.held.contains_key(LayerOperand::DownProj)
    &&& d.held[LayerOperand::DownProj] == start.held[LayerOperand::DownProj]
}

/// Queries, keys and values as a layer makes them.
pub open spec fn prepared(
    d: Device<LayerOperand>,
    layer: GpuDecoderLayer,
    b: int,
    s: int,
    max_seq: int,
    kv_start: int,
) -> bool {
    let call = gpu_call(layer, s, kv_start, false);
    let normed = Term::RmsNormed(given(LayerOperand::Stream), given(LayerOperand::InputNorm));
    let qkv = Term::Product(given(LayerOperand::QkvProj), Box::new(normed));
    let (cos, sin) = (Term::Given(LayerOperand::Cos), Term::Given(LayerOperand::Sin));
    &&& has_buffer(d, LayerOperand::Query, b * layer.nqh * s * layer.hd)
    &&& has_buffer(d, LayerOperand::KeyCache, b * layer.nkvh * max_seq * layer.hd)
    &&& has_buffer(d, LayerOperand::ValueCache, b * layer.nkvh * max_seq * layer.hd)
    &&& d.held[LayerOperand::Query].term == call.queries(
        qkv,
        Term::Given(LayerOperand::QueryNorm),
        cos,
        sin,
    )
    &&& d.held[LayerOperand::KeyCache].term == call.keys(
        Term::Given(LayerOperand::KeyCache),
        qkv,
        Term::Given(LayerOperand::KeyNorm),
        cos,
        sin,
    )
    &&& d.held[LayerOperand::ValueCache].term == call.values(
        Term::Given(LayerOperand::ValueCache),
        qkv,
    )
}

proof fn lemma_front(
    plan: LayerPlan,
    layer: GpuDecoderLayer,
    b: usize,
    s: usize,
    max_seq: usize,
    kv_start: usize,
    causal: bool,
    angles: int,
)
    requires
        plan.computes(layer, b, s, max_seq, kv_start, causal),
        tellable(layer, b as int, s as int, max_seq as int, kv_start as int, angles),
    ensures
        ({
            let start = layer_device(layer, b as int, s as int, max_seq as int, angles);
            let d = front_run(start, plan);
            &&& keeps_given(d, start)
            &&& d.held[LayerOperand::Stream] == start.held[LayerOperand::Stream]
            &&& d.held.contains_key(LayerOperand::Stream)
            &&& prepared(d, layer, b as int, s as int, max_seq as int, kv_start as int)
        }),
{
    let start = layer_device(layer, b as int, s as int, max_seq as int, angles);
    lemma_sizes(layer, b as int, s as int, max_seq as int, kv_start as int, angles);
    let x = seq![b, s, layer.hs];
    lemma_product3(b, s, layer.hs);
    lemma_product3(b, s, layer.qkv_w.rows);
    lemma_product4(b, layer.nqh, s, layer.hd);
    assert(x.drop_last() =~= seq![b, s]);
    assert(crate::linear::out_shape(x, layer.qkv_w.rows) =~= seq![b, s, layer.qkv_w.rows]);
    let rows = b * s;
    let a1 = start.with_buffer(LayerOperand::Normed, product(x));
    lemma_rms(
        a1,
        plan.input_norm.run.launch,
        plan.input_norm.on,
        LayerOperand::Normed,
        LayerOperand::Stream,
        LayerOperand::InputNorm,
        rows,
        layer.hs,
    );
    let d1 = start.kernel(plan.input_norm.run, plan.input_norm.on);
    let a2 = d1.with_buffer(LayerOperand::Qkv, product(plan.qkv.run.out@));
    lemma_gemm(
        a2,
        plan.qkv.run.gemm,
        plan.qkv.on,
        LayerOperand::Qkv,
        LayerOperand::QkvProj,
        LayerOperand::Normed,
        rows as usize,
        layer.qkv_w.rows,
        layer.hs,
        false,
    );
    let d2 = d1.linear(plan.qkv.run, plan.qkv.on);
    let a3 = d2.with_buffer(LayerOperand::Query, product(plan.extract.run.out@));
    lemma_extract(
        a3,
        plan.extract.run.launch,
        plan.extract.on,
        (LayerOperand::Query, LayerOperand::KeyCache, LayerOperand::ValueCache),
        LayerOperand::Qkv,
        LayerOperand::QueryNorm,
        LayerOperand::KeyNorm,
        LayerOperand::Cos,
        LayerOperand::Sin,
        b,
        s,
        layer.qkv_w.rows,
        layer.extract_at(max_seq, kv_start),
        gpu_call(layer, s as int, kv_start as int, false),
    );
}

proof fn lemma_attention(
    plan: LayerPlan,
    layer: GpuDecoderLayer,
    b: usize,
    s: usize,
    max_seq: usize,
    kv_start: usize,
    causal: bool,
    angles: int,
)
    requires
        plan.computes(layer, b, s, max_seq, kv_start, causal),
        tellable(layer, b as int, s as int, max_seq as int, kv_start as int, angles),
    ensures
        ({
            let start = layer_device(layer, b as int, s as int, max_seq as int, angles);
            let before = front_run(start, plan);
            let d = attention_run(before, plan.attention);
            &&& keeps_given(d, start)
            &&& d.held[LayerOperand::Stream] == start.held[LayerOperand::Stream]
            &&& d.held.contains_key(LayerOperand::Stream)
            &&& d.held[LayerOperand::KeyCache] == before.held[LayerOperand::KeyCache]
            &&& d.held[LayerOperand::ValueCache] == before.held[LayerOperand::ValueCache]
            &&& has_buffer(d, LayerOperand::Attended, b * layer.nqh * s * layer.hd)
            &&& d.held[LayerOperand::Attended].term == attention(
                before.held[LayerOperand::Query].term,
                before.held[LayerOperand::KeyCache].term,
                before.held[LayerOperand::ValueCache].term,
                kv_start + s,
                layer.nqh as int / layer.nkvh as int,
                causal && s > 1,
            )
        }),
{
    let start = layer_device(layer, b as int, s as int, max_seq as int, angles);
    let before = front_run(start, plan);
    lemma_front(plan, layer, b, s, max_seq, kv_start, causal, angles);
    lemma_sizes(layer, b as int, s as int, max_seq as int, kv_start as int, angles);
    let (nqh, nkvh, hd, cur) = (layer.nqh, layer.nkvh, layer.hd, plan.cur_len);
    let sharing = nqh as int / nkvh as int;
    lemma_product4(b, nqh, cur, hd);
    lemma_product4(b, nqh, s, cur);
    lemma_product4(b, nqh, s, hd);
    lemma_product4(b, nqh, 1, hd);
    match plan.attention {
        AttentionPlan::Prefill { keys, values, scores, softmax, output } => {
            let a1 = before.with_buffer(LayerOperand::Keys, product(keys.run.out@));
            lemma_repeat(
                a1,
                keys.run.launch,
                keys.on,
                LayerOperand::Keys,
                LayerOperand::KeyCache,
                b as int,
                nkvh as int,
                max_seq as int,
                hd as int,
                sharing,
                cur as int,
            );
            let d1 = before.kernel(keys.run, keys.on);
            let a2 = d1.with_buffer(LayerOperand::Values, product(values.run.out@));
            lemma_repeat(
                a2,
                values.run.launch,
                values.on,
                LayerOperand::Values,
                LayerOperand::ValueCache,
                b as int,
                nkvh as int,
                max_seq as int,
                hd as int,
                sharing,
                cur as int,
            );
            let d2 = d1.kernel(values.run, values.on);
            lemma_scores(
                d2,
                scores.run,
                scores.on,
                LayerOperand::Scores,
                LayerOperand::Keys,
                LayerOperand::Query,
                b,
                nqh,
                s,
                cur,
                hd,
            );
            let d3 = d2.scores(scores.run, scores.on);
            let a4 = d3.with_buffer(LayerOperand::Weights, product(softmax.run.out@));
            lemma_softmax(
                a4,
                softmax.run.launch,
                softmax.on,
                LayerOperand::Weights,
                LayerOperand::Scores,
                b * nqh * s,
                s,
                cur,
                causal && s > 1,
            );
            let d4 = d3.kernel(softmax.run, softmax.on);
            lemma_mix(
                d4,
                output.run,
                output.on,
                LayerOperand::Attended,
                LayerOperand::Values,
                LayerOperand::Weights,
                b,
                nqh,
                s,
                cur,
                hd,
            );
        },
        AttentionPlan::Decode { launch } => {
            assert(b * nqh * 1 * hd == b * nqh * hd);
            law_decode_smem_bounded(cur as int, hd as int);
            let a1 = before.with_buffer(LayerOperand::Attended, product(launch.run.out@));
            lemma_decode(
                a1,
                launch.run.launch,
                launch.on,
                LayerOperand::Attended,
                LayerOperand::Query,
                LayerOperand::KeyCache,
                LayerOperand::ValueCache,
                b as int,
                nqh as int,
                nkvh as int,
                max_seq as int,
                hd as int,
                cur as int,
            );
        },
        AttentionPlan::Split { plan: split, p1, p2 } => {
            assert(b * nqh * 1 * hd == b * nqh * hd);
            let size = chunk_for(cur as int);
            assert(0 <= split.n_chunks <= cur) by {
                assert(size == 256 || size == 512);
                assert((cur + 255) / 256 <= cur && (cur + 511) / 512 <= cur);
            }
            let names = (LayerOperand::PartOut, LayerOperand::PartMax, LayerOperand::PartSum);
            let a1 = before.with_buffer(names.0, split.part_out_len as int).with_buffer(
                names.1,
                split.part_stat_len as int,
            ).with_buffer(names.2, split.part_stat_len as int);
            lemma_split(
                a1,
                split.p1,
                p1,
                names,
                LayerOperand::Query,
                LayerOperand::KeyCache,
                LayerOperand::ValueCache,
                b as int,
                nqh as int,
                nkvh,
                max_seq,
                hd as int,
                cur,
                size,
                split.n_chunks as int,
            );
            let d1 = a1.launch(split.p1, p1);
            let a2 = d1.with_buffer(LayerOperand::Attended, product(split.out@));
            let all = Box::new(
                attention(
                    before.held[LayerOperand::Query].term,
                    before.held[LayerOperand::KeyCache].term,
                    before.held[LayerOperand::ValueCache].term,
                    cur as int,
                    sharing,
                    false,
                ),
            );
            lemma_join_parts(
                a2,
                split.p2,
                p2,
                LayerOperand::Attended,
                names,
                all,
                b as int,
                nqh as int,
                split.n_chunks as int,
                hd as int,
            );
        },
    }
}

proof fn lemma_back(
    plan: LayerPlan,
    layer: GpuDecoderLayer,
    b: usize,
    s: usize,
    max_seq: usize,
    kv_start: usize,
    causal: bool,
    angles: int,
    d: Device<LayerOperand>,
)
    requires
        plan.computes(layer, b, s, max_seq, kv_start, causal),
        tellable(layer, b as int, s as int, max_seq as int, kv_start as int, angles),
        keeps_given(d, layer_device(layer, b as int, s as int, max_seq as int, angles)),
        d.held.contains_key(LayerOperand::Stream),
        d.held[LayerOperand::Stream] == layer_device(
            layer,
            b as int,
            s as int,
            max_seq as int,
            angles,
        ).held[LayerOperand::Stream],
        has_buffer(d, LayerOperand::Attended, b * layer.nqh * s * layer.hd),
    ensures
        ({
            let end = back_run(d, plan);
            let heads = d.held[LayerOperand::Attended].term;
            let seen = if s == 1 {
                heads
            } else {
                Term::Swapped(Box::new(heads))
            };
            let h = Term::Sum(
                given(LayerOperand::Stream),
                Box::new(Term::Product(given(LayerOperand::OutProj), Box::new(seen))),
            );
            let behind = Term::RmsNormed(Box::new(h), given(LayerOperand::PostNorm));
            let wide = Term::Product(given(LayerOperand::GateUpProj), Box::new(behind));
            let narrow = Term::Product(
                given(LayerOperand::DownProj),
                Box::new(Term::Gated(Box::new(wide))),
            );
            &&& end.ok
            &&& has_buffer(end, LayerOperand::Stream, b * s * layer.hs)
            &&& end.held[LayerOperand::Stream].term == Term::Sum(Box::new(h), Box::new(narrow))
            &&& end.held[LayerOperand::KeyCache] == d.held[LayerOperand::KeyCache]
            &&& end.held[LayerOperand::ValueCache] == d.held[LayerOperand::ValueCache]
        }),
{
    let start = layer_device(layer, b as int, s as int, max_seq as int, angles);
    lemma_sizes(layer, b as int, s as int, max_seq as int, kv_start as int, angles);
    let rows = b * s;
    let (nqh, hd, hs) = (layer.nqh, layer.hd, layer.hs);
    let half = (layer.gu_w.rows / 2) as usize;
    let x = seq![b, s, hs];
    lemma_product3(b, s, hs);
    lemma_product3(b, s, layer.gu_w.rows);
    lemma_product3(b, s, half);
    lemma_product4(b, s, nqh, hd);
    assert(x.drop_last() =~= seq![b, s]);
    assert(crate::linear::out_shape(x, layer.gu_w.rows) =~= seq![b, s, layer.gu_w.rows]);
    assert(start.held.contains_key(LayerOperand::OutProj));
    assert(start.held.contains_key(LayerOperand::PostNorm));
    assert(start.held.contains_key(LayerOperand::GateUpProj));
    assert(start.held.contains_key(LayerOperand::DownProj));
    let merged = match plan.merge {
        Some(merge) => d.kernel(merge.run, merge.on),
        None => d,
    };
    let at = if s == 1 {
        LayerOperand::Attended
    } else {
        LayerOperand::Merged
    };
    if let Some(merge) = plan.merge {
        lemma_swap(
            d.with_buffer(LayerOperand::Merged, product(merge.run.out@)),
            merge.run.launch,
            merge.on,
            LayerOperand::Merged,
            LayerOperand::Attended,
            b as int,
            nqh as int,
            s as int,
            hd as int,
        );
    }
    assert(has_buffer(merged, at, rows * (nqh * hd)));
    lemma_gemm(
        merged,
        plan.o_proj.run,
        plan.o_proj.on,
        LayerOperand::Stream,
        LayerOperand::OutProj,
        at,
        rows as usize,
        hs,
        (nqh * hd) as usize,
        true,
    );
    let d1 = merged.gemm(plan.o_proj.run, plan.o_proj.on);
    lemma_rms(
        d1.with_buffer(LayerOperand::NormedBehind, product(x)),
        plan.post_norm.run.launch,
        plan.post_norm.on,
        LayerOperand::NormedBehind,
        LayerOperand::Stream,
        LayerOperand::PostNorm,
        rows,
        hs,
    );
    let d2 = d1.kernel(plan.post_norm.run, plan.post_norm.on);
    lemma_gemm(
        d2.with_buffer(LayerOperand::GateUp, product(plan.gate_up.run.out@)),
        plan.gate_up.run.gemm,
        plan.gate_up.on,
        LayerOperand::GateUp,
        LayerOperand::GateUpProj,
        LayerOperand::NormedBehind,
        rows as usize,
        layer.gu_w.rows,
        hs,
        false,
    );
    let d3 = d2.linear(plan.gate_up.run, plan.gate_up.on);
    lemma_gated(
        d3.with_buffer(LayerOperand::Activated, product(plan.activation.run.out@)),
        plan.activation.run.launch,
        plan.activation.on,
        LayerOperand::Activated,
        LayerOperand::GateUp,
        rows,
        half as int,
    );
    let d4 = d3.kernel(plan.activation.run, plan.activation.on);
    lemma_gemm(
        d4,
        plan.down.run,
        plan.down.on,
        LayerOperand::Stream,
        LayerOperand::DownProj,
        LayerOperand::Activated,
        rows as usize,
        hs,
        half,
        true,
    );
}

/// Running the plan of a layer on the device computes a decoder layer: every step has
/// the buffers and the threads that it needs, the stream ends up as a decoder layer
/// leaves it, and the caches hold the new keys and values.
pub proof fn law_gpu_plan_is_a_decoder_layer(
    plan: LayerPlan,
    layer: GpuDecoderLayer,
    b: usize,
    s: usize,
    max_seq: usize,
    kv_start: usize,
    causal: bool,
    angles: int,
)
    requires
        plan.computes(layer, b, s, max_seq, kv_start, causal),
        tellable(layer, b as int, s as int, max_seq as int, kv_start as int, angles),
    ensures
        ({
            let call = gpu_call(layer, s as int, kv_start as int, causal);
            let start = layer_device(layer, b as int, s as int, max_seq as int, angles);
            let end = back_run(attention_run(front_run(start, plan), plan.attention), plan);
            &&& end.ok
            &&& end.held[LayerOperand::Stream].len == b * s * layer.hs
            &&& end.held[LayerOperand::Stream].term == decoder_layer(call).stream
            &&& end.held[LayerOperand::KeyCache].term == decoder_layer(call).keys
            &&& end.held[LayerOperand::ValueCache].term == decoder_layer(call).values
        }),
{
    let start = layer_device(layer, b as int, s as int, max_seq as int, angles);
    let front = front_run(start, plan);
    let seen = attention_run(front, plan.attention);
    lemma_front(plan, layer, b, s, max_seq, kv_start, causal, angles);
    lemma_attention(plan, layer, b, s, max_seq, kv_start, causal, angles);
    lemma_back(plan, layer, b, s, max_seq, kv_start, causal, angles, seen);
}

/// Number of elements of the buffers that one decoding step reuses.
pub open spec fn scratch_len(scratch: DecodeScratch, name: LayerOperand) -> Option<int> {
    match name {
        LayerOperand::Normed => Some(scratch.norm1 as int),
        LayerOperand::Qkv => Some(scratch.qkv as int),
        LayerOperand::Query => Some(scratch.q_out as int),
        LayerOperand::Attended => Some(scratch.attn_out as int),
        LayerOperand::NormedBehind => Some(scratch.norm2 as int),
        LayerOperand::GateUp => Some(scratch.gate_up as int),
        LayerOperand::Activated => Some(scratch.activated as int),
        LayerOperand::PartOut => Some(scratch.split_part_out as int),
        LayerOperand::PartMax => Some(scratch.split_part_max as int),
        LayerOperand::PartSum => Some(scratch.split_part_sum as int),
        _ => None,
    }
}

/// The device in front of a layer of a decoding step.
pub open spec fn step_device(
    layer: GpuDecoderLayer,
    max_seq: int,
    angles: int,
    scratch: DecodeScratch,
) -> Device<LayerOperand> {
    let given = |name: LayerOperand| given_len(layer, 1, 1, max_seq, angles, name);
    Device {
        held: Map::new(
            |name: LayerOperand| given(name) is Some || scratch_len(scratch, name) is Some,
            |name: LayerOperand|
                if given(name) is Some {
                    Buffer { term: Term::Given(name), len: given(name)->0 }
                } else {
                    Buffer { term: Term::Unknown, len: scratch_len(scratch, name)->0 }
                },
        ),
        ok: true,
    }
}

/// The device after the attention of a decoding step.
pub open spec fn step_attention_run(d: Device<LayerOperand>, plan: DecodeAttention) -> Device<
    LayerOperand,
> {
    match plan {
        DecodeAttention::Single { launch } => d.launch(launch.run, launch.on),
        DecodeAttention::Split { p1, p2 } => d.launch(p1.run, p1.on).launch(p2.run, p2.on),
    }
}

/// The device after a layer of a decoding step.
pub open spec fn step_run(d: Device<LayerOperand>, plan: DecodeLayerPlan) -> Device<LayerOperand> {
    step_attention_run(
        d.launch(plan.input_norm.run, plan.input_norm.on).gemm(plan.qkv.run, plan.qkv.on).launch(
            plan.extract.run,
            plan.extract.on,
        ),
        plan.attention,
    ).gemm(plan.o_proj.run, plan.o_proj.on).launch(plan.post_norm.run, plan.post_norm.on).gemm(
        plan.gate_up.run,
        plan.gate_up.on,
    ).launch(plan.activation.run, plan.activation.on).gemm(plan.down.run, plan.down.on)
}

/// Buffers made for decoders with layers like this one.
pub open spec fn made_for(
    scratch: DecodeScratch,
    max_seq: int,
    cfg: DecoderConfig,
    layer: GpuDecoderLayer,
) -> bool {
    &&& scratch.sized(max_seq, cfg)
    &&& layer.hs == cfg.hidden_size
    &&& layer.nqh == cfg.num_attention_heads
    &&& layer.nkvh == cfg.num_key_value_heads
    &&& layer.hd == cfg.head_dim
    &&& layer.gu_w.rows == 2 * cfg.intermediate_size
}

/// One decoding step of a layer computes a decoder layer for one token, in the buffers
/// that are reused for every token. The chunked attention is made for 16 heads of width
/// 128, so for long contexts the model must have that many.
pub proof fn law_decode_plan_is_a_decoder_layer(
    plan: DecodeLayerPlan,
    layer: GpuDecoderLayer,
    max_seq: usize,
    kv_start: usize,
    scratch: DecodeScratch,
    cfg: DecoderConfig,
    angles: int,
)
    requires
        plan.computes(layer, max_seq, kv_start, scratch),
        made_for(scratch, max_seq as int, cfg, layer),
        tellable(layer, 1, 1, max_seq as int, kv_start as int, angles),
        kv_start >= 1024 ==> layer.nqh == 16 && layer.hd == 128,
    ensures
        ({
            let call = gpu_call(layer, 1, kv_start as int, true);
            let end = step_run(step_device(layer, max_seq as int, angles, scratch), plan);
            &&& end.ok
            &&& end.held[LayerOperand::Stream].len == layer.hs
            &&& end.held[LayerOperand::Stream].term == decoder_layer(call).stream
            &&& end.held[LayerOperand::KeyCache].term == decoder_layer(call).keys
            &&& end.held[LayerOperand::ValueCache].term == decoder_layer(call).values
            &&& plan.cur_len == kv_start + 1
        }),
{
    let start = step_device(layer, max_seq as int, angles, scratch);
    let call = gpu_call(layer, 1, kv_start as int, true);
    lemma_sizes(layer, 1, 1, max_seq as int, kv_start as int, angles);
    let (nqh, nkvh, hd, hs) = (layer.nqh, layer.nkvh, layer.hd, layer.hs);
    let total = (nqh * hd + 2 * (nkvh * hd)) as usize;
    let half = (layer.gu_w.rows / 2) as usize;
    let cur = plan.cur_len;
    assert((nqh + 2 * nkvh) * hd == nqh * hd + 2 * (nkvh * hd)) by (nonlinear_arith);
    assert(1 * 1 * hs == hs && 1 * hs == hs && 1 * 1 == 1 && 1 * total == total && 1 * 1 * total
        == total && 1 * half == half && 1 * layer.gu_w.rows == layer.gu_w.rows);
    assert(1 * nqh * 1 * hd == nqh * hd) by (nonlinear_arith);
    assert(1 * nqh * hd == nqh * hd) by (nonlinear_arith);
    assert(1 * (nqh * hd) == nqh * hd) by (nonlinear_arith);
    assert(1 * nqh == nqh);
    lemma_rms(
        start,
        plan.input_norm.run,
        plan.input_norm.on,
        LayerOperand::Normed,
        LayerOperand::Stream,
        LayerOperand::InputNorm,
        1,
        hs,
    );
    let d1 = start.launch(plan.input_norm.run, plan.input_norm.on);
    lemma_gemm(
        d1,
        plan.qkv.run,
        plan.qkv.on,
        LayerOperand::Qkv,
        LayerOperand::QkvProj,
        LayerOperand::Normed,
        1,
        layer.qkv_w.rows,
        hs,
        false,
    );
    let d2 = d1.gemm(plan.qkv.run, plan.qkv.on);
    lemma_extract(
        d2,
        plan.extract.run,
        plan.extract.on,
        (LayerOperand::Query, LayerOperand::KeyCache, LayerOperand::ValueCache),
        LayerOperand::Qkv,
        LayerOperand::QueryNorm,
        LayerOperand::KeyNorm,
        LayerOperand::Cos,
        LayerOperand::Sin,
        1,
        1,
        total,
        layer.extract_at(max_seq, kv_start),
        call,
    );
    let d3 = d2.launch(plan.extract.run, plan.extract.on);
    lemma_step_attention(plan, layer, max_seq, kv_start, scratch, cfg, angles, d3);
    let d4 = step_attention_run(d3, plan.attention);
    lemma_gemm(
        d4,
        plan.o_proj.run,
        plan.o_proj.on,
        LayerOperand::Stream,
        LayerOperand::OutProj,
        LayerOperand::Attended,
        1,
        hs,
        (nqh * hd) as usize,
        true,
    );
    let d5 = d4.gemm(plan.o_proj.run, plan.o_proj.on);
    lemma_rms(
        d5,
        plan.post_norm.run,
        plan.post_norm.on,
        LayerOperand::NormedBehind,
        LayerOperand::Stream,
        LayerOperand::PostNorm,
        1,
        hs,
    );
    let d6 = d5.launch(plan.post_norm.run, plan.post_norm.on);
    lemma_gemm(
        d6,
        plan.gate_up.run,
        plan.gate_up.on,
        LayerOperand::GateUp,
        LayerOperand::GateUpProj,
        LayerOperand::NormedBehind,
        1,
        layer.gu_w.rows,
        hs,
        false,
    );
    let d7 = d6.gemm(plan.gate_up.run, plan.gate_up.on);
    lemma_gated(
        d7,
        plan.activation.run,
        plan.activation.on,
        LayerOperand::Activated,
        LayerOperand::GateUp,
        1,
        half as int,
    );
    let d8 = d7.launch(plan.activation.run, plan.activation.on);
    lemma_gemm(
        d8,
        plan.down.run,
        plan.down.on,
        LayerOperand::Stream,
        LayerOperand::DownProj,
        LayerOperand::Activated,
        1,
        hs,
        half,
        true,
    );
}

proof fn lemma_step_attention(
    plan: DecodeLayerPlan,
    layer: GpuDecoderLayer,
    max_seq: usize,
    kv_start: usize,
    scratch: DecodeScratch,
    cfg: DecoderConfig,
    angles: int,
    d: Device<LayerOperand>,
)
    requires
        plan.computes(layer, max_seq, kv_start, scratch),
        made_for(scratch, max_seq as int, cfg, layer),
        tellable(layer, 1, 1, max_seq as int, kv_start as int, angles),
        kv_start >= 1024 ==> layer.nqh == 16 && layer.hd == 128,
        d.ok,
        has_buffer(d, LayerOperand::Query, 1 * layer.nqh * layer.hd),
        has_buffer(d, LayerOperand::KeyCache, 1 * layer.nkvh * max_seq * layer.hd),
        has_buffer(d, LayerOperand::ValueCache, 1 * layer.nkvh * max_seq * layer.hd),
        has_buffer(d, LayerOperand::Attended, 1 * layer.nqh * layer.hd),
        has_buffer(d, LayerOperand::PartOut, scratch.split_part_out as int),
        has_buffer(d, LayerOperand::PartMax, scratch.split_part_max as int),
        has_buffer(d, LayerOperand::PartSum, scratch.split_part_sum as int),
    ensures
        ({
            let end = step_attention_run(d, plan.attention);
            &&& end.ok
            &&& has_buffer(end, LayerOperand::Attended, 1 * layer.nqh * layer.hd)
            &&& end.held[LayerOperand::Attended].term == attention(
                d.held[LayerOperand::Query].term,
                d.held[LayerOperand::KeyCache].term,
                d.held[LayerOperand::ValueCache].term,
                kv_start + 1,
                layer.nqh as int / layer.nkvh as int,
                false,
            )
            &&& end.held.dom() =~= d.held.dom()
            &&& forall|name: LayerOperand|
                name != LayerOperand::Attended && name != LayerOperand::PartOut && name
                    != LayerOperand::PartMax && name != LayerOperand::PartSum
                    ==> #[trigger] end.held[name] == d.held[name]
        }),
{
    lemma_sizes(layer, 1, 1, max_seq as int, kv_start as int, angles);
    let (nqh, nkvh, hd, cur) = (layer.nqh, layer.nkvh, layer.hd, plan.cur_len);
    assert(1 * nqh == nqh);
    assert(1 * nqh * hd == nqh * hd) by (nonlinear_arith);
    assert((nqh + 2 * nkvh) * hd == nqh * hd + 2 * (nkvh * hd)) by (nonlinear_arith);
    law_decode_step_fits_scratch(layer, cfg, scratch, max_seq as int, cur as int);
    match plan.attention {
        DecodeAttention::Single { launch } => {
            law_decode_smem_bounded(cur as int, hd as int);
            lemma_decode(
                d,
                launch.run,
                launch.on,
                LayerOperand::Attended,
                LayerOperand::Query,
                LayerOperand::KeyCache,
                LayerOperand::ValueCache,
                1,
                nqh as int,
                nkvh as int,
                max_seq as int,
                hd as int,
                cur as int,
            );
        },
        DecodeAttention::Split { p1, p2 } => {
            let size = chunk_for(cur as int);
            let parts = chunks_of(cur as int, size as int);
            let names = (LayerOperand::PartOut, LayerOperand::PartMax, LayerOperand::PartSum);
            lemma_split(
                d,
                p1.run,
                p1.on,
                names,
                LayerOperand::Query,
                LayerOperand::KeyCache,
                LayerOperand::ValueCache,
                1,
                16,
                nkvh,
                max_seq,
                128,
                cur,
                size,
                max_chunks(max_seq as int),
            );
            let d1 = d.launch(p1.run, p1.on);
            let all = Box::new(
                attention(
                    d.held[LayerOperand::Query].term,
                    d.held[LayerOperand::KeyCache].term,
                    d.held[LayerOperand::ValueCache].term,
                    cur as int,
                    16int / nkvh as int,
                    false,
                ),
            );
            lemma_join_parts(
                d1,
                p2.run,
                p2.on,
                LayerOperand::Attended,
                names,
                all,
                1,
                16,
                parts,
                128,
            );
        },
    }
}

/// On the CPU and on the device a layer comes to the same: the stream and both caches
/// hold the same expressions of what they were given.
pub proof fn law_backends_compute_the_same_layer(
    cpu: CpuLayerPlan,
    gpu: LayerPlan,
    layer: GpuDecoderLayer,
    b: usize,
    s: usize,
    max_seq: usize,
    kv_start: usize,
    causal: bool,
    angles: int,
)
    requires
        cpu.computes(
            HeadDims { b, nqh: layer.nqh, nkvh: layer.nkvh, hd: layer.hd },
            s as int,
            kv_start as int,
            causal,
        ),
        gpu.computes(layer, b, s, max_seq, kv_start, causal),
        tellable(layer, b as int, s as int, max_seq as int, kv_start as int, angles),
    ensures
        ({
            let call = gpu_call(layer, s as int, kv_start as int, causal);
            let here = cpu_run(cpu, call, cpu.steps@);
            let start = layer_device(layer, b as int, s as int, max_seq as int, angles);
            let there = back_run(attention_run(front_run(start, gpu), gpu.attention), gpu);
            &&& here[LayerOperand::Stream] == there.held[LayerOperand::Stream].term
            &&& here[LayerOperand::KeyCache] == there.held[LayerOperand::KeyCache].term
            &&& here[LayerOperand::ValueCache] == there.held[LayerOperand::ValueCache].term
        }),
{
    let d = HeadDims { b, nqh: layer.nqh, nkvh: layer.nkvh, hd: layer.hd };
    law_cpu_plan_is_a_decoder_layer(cpu, d, s as int, kv_start as int, causal);
    law_gpu_plan_is_a_decoder_layer(gpu, layer, b, s, max_seq, kv_start, causal, angles);
}

/// The device behind the layers of a decoder, for `rows` tokens, with the buffers that
/// a decoding step reuses where there are any.
pub open spec fn head_device(
    table: GpuWeight,
    rows: int,
    scratch: Option<DecodeScratch>,
) -> Device<HeadOperand> {
    let hs = table.cols as int;
    let len = |name: HeadOperand| match name {
        HeadOperand::Stream => Some(rows * hs),
        HeadOperand::FinalNorm => Some(hs),
        HeadOperand::Table => Some(table.rows * hs),
        HeadOperand::Normed => if scratch is Some {
            Some(scratch->0.final_norm as int)
        } else {
            None
        },
        HeadOperand::Logits => if scratch is Some {
            Some(scratch->0.logits as int)
        } else {
            None
        },
        HeadOperand::Token => Some(1int),
        _ => None::<int>,
    };
    Device {
        held: Map::new(
            |name: HeadOperand| len(name) is Some,
            |name: HeadOperand| Buffer { term: Term::Given(name), len: len(name)->0 },
        ),
        ok: true,
    }
}

/// The device after a row was copied to a buffer of its own.
pub open spec fn row_run(d: Device<HeadOperand>, step: HeadStep<RowSlice>) -> Device<HeadOperand> {
    let (to, from) = (step.on.writes@, step.on.reads@);
    let (offset, len) = (step.run.offset as int, step.run.len as int);
    let after = d.with_buffer(to[0], len).now(
        to[0],
        Term::Row { of: Box::new(d.held[from[0]].term), offset, len },
    );
    Device {
        ok: d.ok && to.len() == 1 && from.len() == 1 && d.has(from) && offset + len
            <= d.held[from[0]].len,
        ..after
    }
}

/// The device after what follows the layers.
pub open spec fn head_run(d: Device<HeadOperand>, plan: HeadPlan) -> Device<HeadOperand> {
    let normed = d.kernel(plan.final_norm.run, plan.final_norm.on);
    let wanted = match plan.last {
        Some(last) => row_run(normed, last),
        None => normed,
    };
    wanted.linear(plan.logits.run, plan.logits.on)
}

/// Behind the layers the stream is normalised and every word of the vocabulary gets a
/// score: those of the last token alone where only that one is wanted, of every token
/// otherwise.
pub proof fn law_head_scores_the_vocabulary(
    plan: HeadPlan,
    sl: usize,
    hidden: usize,
    table: GpuWeight,
    last_only: bool,
)
    requires
        plan.computes(sl, hidden, table, last_only),
        table.cols == hidden,
        1 <= sl <= i32::MAX,
        hidden <= i32::MAX,
        table.rows <= i32::MAX,
        sl * hidden <= i32::MAX,
        sl * table.rows <= i32::MAX,
    ensures
        ({
            let end = head_run(head_device(table, sl as int, None), plan);
            let normed = Term::RmsNormed(
                given(HeadOperand::Stream),
                given(HeadOperand::FinalNorm),
            );
            let tokens = if last_only {
                1
            } else {
                sl as int
            };
            let wanted = if last_only && sl > 1 {
                Term::Row {
                    of: Box::new(normed),
                    offset: (sl - 1) * hidden,
                    len: hidden as int,
                }
            } else {
                normed
            };
            &&& end.ok
            &&& end.held[HeadOperand::Logits].len == tokens * table.rows
            &&& end.held[HeadOperand::Logits].term == Term::Product(
                given(HeadOperand::Table),
                Box::new(wanted),
            )
        }),
{
    let start = head_device(table, sl as int, None);
    let x = seq![1usize, sl, hidden];
    let one = seq![1usize, 1usize, hidden];
    lemma_product3(1, sl, hidden);
    lemma_product3(1, 1, hidden);
    lemma_product3(1, sl, table.rows);
    lemma_product3(1, 1, table.rows);
    assert(x.drop_last() =~= seq![1usize, sl]);
    assert(one.drop_last() =~= seq![1usize, 1usize]);
    assert(crate::linear::out_shape(x, table.rows) =~= seq![1usize, sl, table.rows]);
    assert(crate::linear::out_shape(one, table.rows) =~= seq![1usize, 1usize, table.rows]);
    assert(1 * sl == sl && 1 * sl * hidden == sl * hidden && 1 * 1 * hidden == hidden && 1 * sl
        * table.rows == sl * table.rows && 1 * 1 * table.rows == table.rows && 1 * 1 == 1 && 1
        * hidden == hidden && 1 * table.rows == table.rows);
    lemma_rms(
        start.with_buffer(HeadOperand::Normed, product(plan.final_norm.run.out@)),
        plan.final_norm.run.launch,
        plan.final_norm.on,
        HeadOperand::Normed,
        HeadOperand::Stream,
        HeadOperand::FinalNorm,
        1 * sl,
        hidden,
    );
    let d1 = start.kernel(plan.final_norm.run, plan.final_norm.on);
    if let Some(last) = plan.last {
        let d2 = row_run(d1, last);
        assert((sl - 1) * hidden + hidden == sl * hidden) by (nonlinear_arith);
        lemma_gemm(
            d2.with_buffer(HeadOperand::Logits, product(plan.logits.run.out@)),
            plan.logits.run.gemm,
            plan.logits.on,
            HeadOperand::Logits,
            HeadOperand::Table,
            HeadOperand::Last,
            1,
            table.rows,
            hidden,
            false,
        );
    } else {
        lemma_gemm(
            d1.with_buffer(HeadOperand::Logits, product(plan.logits.run.out@)),
            plan.logits.run.gemm,
            plan.logits.on,
            HeadOperand::Logits,
            HeadOperand::Table,
            HeadOperand::Normed,
            sl,
            table.rows,
            hidden,
            false,
        );
    }
}

/// A decoding step ends with the position of the greatest score among all words of the
/// vocabulary, in the slot that the next step reads.
pub proof fn law_decode_head_picks_the_greatest(
    plan: DecodeHeadPlan,
    table: GpuWeight,
    scratch: DecodeScratch,
    cfg: DecoderConfig,
    max_seq: int,
)
    requires
        plan.computes(table, scratch),
        scratch.sized(max_seq, cfg),
        table.cols == cfg.hidden_size,
        table.rows == cfg.vocab_size,
        table.cols <= i32::MAX,
        table.rows <= i32::MAX,
    ensures
        ({
            let end = head_device(table, 1, Some(scratch)).launch(
                plan.final_norm.run,
                plan.final_norm.on,
            ).gemm(plan.logits.run, plan.logits.on).launch(plan.argmax.run, plan.argmax.on);
            let normed = Term::RmsNormed(
                given(HeadOperand::Stream),
                given(HeadOperand::FinalNorm),
            );
            let scores = Term::Product(given(HeadOperand::Table), Box::new(normed));
            &&& end.ok
            &&& end.held[HeadOperand::Logits].len == table.rows
            &&& end.held[HeadOperand::Token].term == Term::Greatest(Box::new(scores))
            &&& plan.argmax.run.ints@[1] == 0
        }),
{
    let start = head_device(table, 1, Some(scratch));
    assert(1 * table.cols == table.cols && 1 * table.rows == table.rows);
    lemma_rms(
        start,
        plan.final_norm.run,
        plan.final_norm.on,
        HeadOperand::Normed,
        HeadOperand::Stream,
        HeadOperand::FinalNorm,
        1,
        table.cols,
    );
    let d1 = start.launch(plan.final_norm.run, plan.final_norm.on);
    lemma_gemm(
        d1,
        plan.logits.run,
        plan.logits.on,
        HeadOperand::Logits,
        HeadOperand::Table,
        HeadOperand::Normed,
        1,
        table.rows,
        table.cols,
        false,
    );
    let d2 = d1.gemm(plan.logits.run, plan.logits.on);
    lemma_greatest(
        d2,
        plan.argmax.run,
        plan.argmax.on,
        HeadOperand::Token,
        HeadOperand::Logits,
        table.rows as int,
        1,
        0,
    );
}

/// All layers of a decoder run on a prompt, each with its own weights and caches.
pub proof fn law_every_decoder_layer_runs(
    plan: DecoderPlan,
    decoder: GpuTextDecoder,
    sl: usize,
    max_seq: usize,
    kv_start: usize,
    causal: bool,
    last_only: bool,
    angles: int,
    i: int,
)
    requires
        plan.runs(decoder, sl, max_seq, kv_start, causal, last_only),
        0 <= i < decoder.layers@.len(),
        tellable(decoder.layers@[i], 1, sl as int, max_seq as int, kv_start as int, angles),
    ensures
        plan.layers@.len() == decoder.layers@.len(),
        ({
            let (layer, step) = (decoder.layers@[i], plan.layers@[i]);
            let call = gpu_call(layer, sl as int, kv_start as int, causal);
            let start = layer_device(layer, 1, sl as int, max_seq as int, angles);
            let end = back_run(attention_run(front_run(start, step), step.attention), step);
            &&& end.ok
            &&& end.held[LayerOperand::Stream].term == decoder_layer(call).stream
            &&& end.held[LayerOperand::KeyCache].term == decoder_layer(call).keys
            &&& end.held[LayerOperand::ValueCache].term == decoder_layer(call).values
        }),
{
    law_gpu_plan_is_a_decoder_layer(
        plan.layers@[i],
        decoder.layers@[i],
        1,
        sl,
        max_seq,
        kv_start,
        causal,
        angles,
    );
}

/// All layers of a decoder run in a decoding step, each with its own weights and caches.
pub proof fn law_every_decoder_layer_steps(
    plan: DecodeStepPlan,
    decoder: GpuTextDecoder,
    max_seq: usize,
    kv_start: usize,
    scratch: DecodeScratch,
    cfg: DecoderConfig,
    angles: int,
    i: int,
)
    requires
        plan.runs(decoder, max_seq, kv_start, scratch),
        0 <= i < decoder.layers@.len(),
        made_for(scratch, max_seq as int, cfg, decoder.layers@[i]),
        tellable(decoder.layers@[i], 1, 1, max_seq as int, kv_start as int, angles),
        kv_start >= 1024 ==> decoder.layers@[i].nqh == 16 && decoder.layers@[i].hd == 128,
    ensures
        plan.layers@.len() == decoder.layers@.len(),
        ({
            let layer = decoder.layers@[i];
            let call = gpu_call(layer, 1, kv_start as int, true);
            let end = step_run(
                step_device(layer, max_seq as int, angles, scratch),
                plan.layers@[i],
            );
            &&& end.ok
            &&& end.held[LayerOperand::Stream].term == decoder_layer(call).stream
            &&& end.held[LayerOperand::KeyCache].term == decoder_layer(call).keys
            &&& end.held[LayerOperand::ValueCache].term == decoder_layer(call).values
        }),
{
    law_decode_plan_is_a_decoder_layer(
        plan.layers@[i],
        decoder.layers@[i],
        max_seq,
        kv_start,
        scratch,
        cfg,
        angles,
    );
}

/// The plan of a layer on the CPU counts what there is: a row for every token, a job for
/// every head, and an attention output of all heads for every token. Only a single row
/// is multiplied with a matrix as it is packed.
pub proof fn law_cpu_plan_counts(
    plan: CpuLayerPlan,
    d: HeadDims,
    s: int,
    kv_start: int,
    causal: bool,
)
    requires
        plan.computes(d, s, kv_start, causal),
        0 <= s <= usize::MAX,
        d.nqh * d.hd <= usize::MAX,
    ensures
        plan.rows == d.b * s,
        plan.path is Gemv <==> d.b * s == 1,
        plan.jobs == d.b * d.nqh,
        product(plan.attn_shape@) == plan.rows * (d.nqh * d.hd),
        plan.attn_shape@.len() == 3,
        plan.attn_shape@[1] == s,
{
    lemma_product3(d.b, s as usize, (d.nqh * d.hd) as usize);
}

} // verus!

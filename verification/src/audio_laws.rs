//! What the plans of the audio encoder compute.
use vstd::prelude::*;

use crate::device::{Buffer, Device};
use crate::device_steps::{
    has_buffer, holding, lemma_activation, lemma_bias, lemma_gemm, lemma_layer_norm, lemma_mix,
    lemma_fold, lemma_overwrite, lemma_scores, lemma_slice, lemma_softmax, lemma_sum,
    lemma_sum_in_place, lemma_swap, lemma_unfold,
};
use crate::cudarc_engine::GpuTensor;
use crate::gpu_audio_encoder::{
    whole_operands, window_operands, AttentionCore, AudioAttentionCore, AudioAttentionPlan,
    AudioEncoderPlan, AudioFfnPlan, AudioLayerPlan, AudioOperand, ConvStemPlan, ConvStep, CoreOn,
    FfnOn, GpuAudioAttention, GpuAudioEncoder, GpuAudioLayer, GpuConvStem, GpuLinear,
    GpuLinearPlan, LinearOn, StemOperand, WindowPlan,
};
use crate::layout::{lemma_join, lemma_monotone};
use crate::linear::out_shape;
use crate::steps::{Operands, Step};
use crate::tensor::{lemma_product3, lemma_product4, product};
use crate::terms::{given, Term};
use crate::windows::{window_at, window_count};

verus! {

/// What a linear layer makes of `x`.
pub open spec fn affine<O>(layer: GpuLinear, w: Term<O>, bias: Term<O>, x: Term<O>) -> Term<O> {
    let made = Term::Product(Box::new(w), Box::new(x));
    if layer.bias {
        Term::Biased(Box::new(made), Box::new(bias))
    } else {
        made
    }
}

/// The device after a linear layer.
pub open spec fn affine_run<O>(d: Device<O>, plan: GpuLinearPlan<O>) -> Device<O> {
    let made = d.linear(plan.linear.run, plan.linear.on);
    match plan.bias {
        Some(add) => made.launch(add.run, add.on),
        None => made,
    }
}

/// Whether a matrix and its bias are there, for `[b, s, k]` of a size that kernels can be
/// told.
pub open spec fn ready<O>(
    d: Device<O>,
    layer: GpuLinear,
    on: LinearOn<O>,
    b: usize,
    s: usize,
    k: usize,
) -> bool {
    &&& d.ok
    &&& layer.w.cols == k
    &&& k <= i32::MAX
    &&& layer.w.rows <= i32::MAX
    &&& b * s <= i32::MAX
    &&& b * s * layer.w.rows <= i32::MAX
    &&& has_buffer(d, on.x, b * s * k)
    &&& has_buffer(d, on.w, layer.w.rows * k)
    &&& layer.bias ==> has_buffer(d, on.bias, layer.w.rows as int)
}

pub proof fn lemma_affine<O>(
    d: Device<O>,
    plan: GpuLinearPlan<O>,
    layer: GpuLinear,
    on: LinearOn<O>,
    b: usize,
    s: usize,
    k: usize,
)
    requires
        plan.applies(seq![b, s, k], layer, on),
        ready(d, layer, on, b, s, k),
        on.y != on.x,
        on.y != on.w,
        on.y != on.bias,
    ensures
        affine_run(d, plan) == holding(
            d,
            on.y,
            affine(layer, d.held[on.w].term, d.held[on.bias].term, d.held[on.x].term),
            b * s * layer.w.rows,
        ),
{
    let x = seq![b, s, k];
    let y = seq![b, s, layer.w.rows];
    lemma_product3(b, s, k);
    lemma_product3(b, s, layer.w.rows);
    assert(x.drop_last() =~= seq![b, s]);
    assert(y.drop_last() =~= seq![b, s]);
    assert(out_shape(x, layer.w.rows) =~= y);
    let rows = b * s;
    let a = d.with_buffer(on.y, product(plan.linear.run.out@));
    lemma_gemm(
        a,
        plan.linear.run.gemm,
        plan.linear.on,
        on.y,
        on.w,
        on.x,
        rows as usize,
        layer.w.rows,
        k,
        false,
    );
    let made = d.linear(plan.linear.run, plan.linear.on);
    if let Some(add) = plan.bias {
        lemma_bias(made, add.run, add.on, on.y, on.bias, rows, layer.w.rows as int);
    }
    assert(affine_run(d, plan).held =~= holding(
        d,
        on.y,
        affine(layer, d.held[on.w].term, d.held[on.bias].term, d.held[on.x].term),
        b * s * layer.w.rows,
    ).held);
}

/// What tokens see of each other: every one of them sees all of them.
pub open spec fn seeing_all(
    q: Term<AudioOperand>,
    k: Term<AudioOperand>,
    v: Term<AudioOperand>,
) -> Term<AudioOperand> {
    let scores = Box::new(Term::Scores(Box::new(k), Box::new(q)));
    Term::Mixed(Box::new(v), Box::new(Term::Weights { scores, masked: false }))
}

/// Number of tokens in window `i` of `w`.
pub open spec fn tokens_in(s: int, w: int, i: int) -> int {
    if (i + 1) * w <= s {
        w
    } else {
        s - i * w
    }
}

/// What tokens see inside the first `n` windows of `w` tokens, laid end to end: the
/// tokens of a window see all of that window and nothing else.
pub open spec fn seeing_windows(
    q: Term<AudioOperand>,
    k: Term<AudioOperand>,
    v: Term<AudioOperand>,
    s: int,
    w: int,
    n: int,
) -> Term<AudioOperand>
    decreases n,
{
    if n <= 0 {
        Term::Unknown
    } else {
        let (start, len) = ((n - 1) * w, tokens_in(s, w, n - 1));
        let part = |of: Term<AudioOperand>| Term::Slice { of: Box::new(of), start, len };
        Term::Overwritten {
            under: Box::new(seeing_windows(q, k, v, s, w, n - 1)),
            with: Box::new(seeing_all(part(q), part(k), part(v))),
            start,
            len,
        }
    }
}

/// The device after attention inside one run of tokens.
pub open spec fn core_run(d: Device<AudioOperand>, core: AttentionCore) -> Device<AudioOperand> {
    d.scores(core.scores.run, core.scores.on).kernel(core.softmax.run, core.softmax.on).mix(
        core.output.run,
        core.output.on,
    )
}

/// The device after attention inside one window.
pub open spec fn window_run(d: Device<AudioOperand>, plan: WindowPlan) -> Device<AudioOperand> {
    core_run(
        d.kernel(plan.q.run, plan.q.on).kernel(plan.k.run, plan.k.on).kernel(
            plan.v.run,
            plan.v.on,
        ),
        plan.core,
    ).launch(plan.write.run, plan.write.on)
}

/// The device after attention inside some windows.
pub open spec fn windows_run(d: Device<AudioOperand>, plans: Seq<WindowPlan>) -> Device<
    AudioOperand,
>
    decreases plans.len(),
{
    if plans.len() == 0 {
        d
    } else {
        window_run(windows_run(d, plans.drop_last()), plans.last())
    }
}

/// Sizes of a run of tokens that kernels can be told.
pub open spec fn run_tellable(b: int, nh: int, len: int, hd: int) -> bool {
    &&& 1 <= b
    &&& 1 <= nh
    &&& 1 <= len
    &&& 1 <= hd
    &&& b <= i32::MAX
    &&& nh <= i32::MAX
    &&& hd <= i32::MAX
    &&& len <= i32::MAX
    &&& b * nh * len * len <= i32::MAX
    &&& b * nh * len * hd <= i32::MAX
}

proof fn lemma_run_sizes(b: int, nh: int, len: int, hd: int)
    requires
        run_tellable(b, nh, len, hd),
    ensures
        1 <= b * nh <= i32::MAX,
        1 <= b * nh * len <= i32::MAX,
        (b * nh * len) % len == 0,
        len * hd <= i32::MAX,
        len * len <= i32::MAX,
        b * nh * len * len == (b * nh) * (len * len),
        b * nh * len * hd == (b * nh) * (len * hd),
{
    let heads = b * nh;
    assert(1 <= heads && 1 <= len * hd && 1 <= len * len && len <= len * len) by (nonlinear_arith)
        requires
            1 <= b,
            1 <= nh,
            1 <= len,
            1 <= hd,
            heads == b * nh,
    ;
    assert(b * nh * len * len == (b * nh) * (len * len)) by (nonlinear_arith);
    assert(b * nh * len * hd == (b * nh) * (len * hd)) by (nonlinear_arith);
    lemma_monotone(1, len * hd, heads, len * hd);
    lemma_monotone(1, len * len, heads, len * len);
    lemma_monotone(heads, 1, heads, len);
    lemma_monotone(1, 1, heads, len);
    lemma_monotone(heads, len, heads, len * len);
    vstd::arithmetic::div_mod::lemma_mod_multiples_basic(heads, len);
}

proof fn lemma_core(
    d: Device<AudioOperand>,
    core: AttentionCore,
    b: usize,
    nh: usize,
    len: usize,
    hd: usize,
    on: CoreOn,
)
    requires
        core.attends(b, nh, len, hd, on),
        run_tellable(b as int, nh as int, len as int, hd as int),
        d.ok,
        has_buffer(d, on.q, b * nh * len * hd),
        has_buffer(d, on.k, b * nh * len * hd),
        has_buffer(d, on.v, b * nh * len * hd),
        on.v != AudioOperand::Scores,
        on.v != AudioOperand::Weights,
        on.out != AudioOperand::Scores,
        on.out != AudioOperand::Weights,
    ensures
        ({
            let end = core_run(d, core);
            let seen = seeing_all(d.held[on.q].term, d.held[on.k].term, d.held[on.v].term);
            &&& end.ok
            &&& has_buffer(end, on.out, b * nh * len * hd)
            &&& end.held[on.out].term == seen
            &&& forall|name: AudioOperand|
                name != AudioOperand::Scores && name != AudioOperand::Weights && name != on.out
                    ==> #[trigger] end.held[name] == d.held[name]
            &&& forall|name: AudioOperand|
                d.held.contains_key(name) ==> #[trigger] end.held.contains_key(name)
        }),
{
    lemma_run_sizes(b as int, nh as int, len as int, hd as int);
    lemma_product4(b, nh, len, len);
    lemma_product4(b, nh, len, hd);
    lemma_scores(
        d,
        core.scores.run,
        core.scores.on,
        AudioOperand::Scores,
        on.k,
        on.q,
        b,
        nh,
        len,
        len,
        hd,
    );
    let d1 = d.scores(core.scores.run, core.scores.on);
    lemma_softmax(
        d1.with_buffer(AudioOperand::Weights, product(core.softmax.run.out@)),
        core.softmax.run.launch,
        core.softmax.on,
        AudioOperand::Weights,
        AudioOperand::Scores,
        b * nh * len,
        len,
        len,
        false,
    );
    let d2 = d1.kernel(core.softmax.run, core.softmax.on);
    lemma_mix(
        d2,
        core.output.run,
        core.output.on,
        on.out,
        on.v,
        AudioOperand::Weights,
        b,
        nh,
        len,
        len,
        hd,
    );
}

/// Queries, keys and values of `s` tokens, head by head, and room for what they see.
pub open spec fn has_heads(d: Device<AudioOperand>, b: int, nh: int, s: int, hd: int) -> bool {
    &&& d.ok
    &&& has_buffer(d, AudioOperand::QueryHeads, b * nh * s * hd)
    &&& has_buffer(d, AudioOperand::KeyHeads, b * nh * s * hd)
    &&& has_buffer(d, AudioOperand::ValueHeads, b * nh * s * hd)
}

/// Whether only what the attention works on is different.
pub open spec fn keeps_others(d: Device<AudioOperand>, end: Device<AudioOperand>) -> bool {
    &&& forall|name: AudioOperand|
        name != AudioOperand::Scores && name != AudioOperand::Weights && name
            != AudioOperand::QueryWindow && name != AudioOperand::KeyWindow && name
            != AudioOperand::ValueWindow && name != AudioOperand::WindowOut && name
            != AudioOperand::Attended ==> #[trigger] end.held[name] == d.held[name]
    &&& forall|name: AudioOperand|
        d.held.contains_key(name) ==> #[trigger] end.held.contains_key(name)
}

proof fn lemma_window(
    d: Device<AudioOperand>,
    plan: WindowPlan,
    b: usize,
    nh: usize,
    s: usize,
    hd: usize,
)
    requires
        plan.attends(b, nh, s, hd),
        plan.window.start + plan.window.len <= s,
        run_tellable(b as int, nh as int, plan.window.len as int, hd as int),
        s <= i32::MAX,
        has_heads(d, b as int, nh as int, s as int, hd as int),
        has_buffer(d, AudioOperand::Attended, b * nh * s * hd),
    ensures
        ({
            let end = window_run(d, plan);
            let (start, len) = (plan.window.start as int, plan.window.len as int);
            let part = |of: Term<AudioOperand>| Term::Slice { of: Box::new(of), start, len };
            &&& has_heads(end, b as int, nh as int, s as int, hd as int)
            &&& has_buffer(end, AudioOperand::Attended, b * nh * s * hd)
            &&& end.held[AudioOperand::Attended].term == (Term::Overwritten {
                under: Box::new(d.held[AudioOperand::Attended].term),
                with: Box::new(
                    seeing_all(
                        part(d.held[AudioOperand::QueryHeads].term),
                        part(d.held[AudioOperand::KeyHeads].term),
                        part(d.held[AudioOperand::ValueHeads].term),
                    ),
                ),
                start,
                len,
            })
            &&& keeps_others(d, end)
        }),
{
    let (start, len) = (plan.window.start, plan.window.len);
    lemma_product4(b, nh, len, hd);
    let d1 = d.kernel(plan.q.run, plan.q.on);
    lemma_slice(
        d.with_buffer(AudioOperand::QueryWindow, product(plan.q.run.out@)),
        plan.q.run.launch,
        plan.q.on,
        AudioOperand::QueryWindow,
        AudioOperand::QueryHeads,
        b as int,
        nh as int,
        s as int,
        hd as int,
        start as int,
        len as int,
    );
    let d2 = d1.kernel(plan.k.run, plan.k.on);
    lemma_slice(
        d1.with_buffer(AudioOperand::KeyWindow, product(plan.k.run.out@)),
        plan.k.run.launch,
        plan.k.on,
        AudioOperand::KeyWindow,
        AudioOperand::KeyHeads,
        b as int,
        nh as int,
        s as int,
        hd as int,
        start as int,
        len as int,
    );
    let d3 = d2.kernel(plan.v.run, plan.v.on);
    lemma_slice(
        d2.with_buffer(AudioOperand::ValueWindow, product(plan.v.run.out@)),
        plan.v.run.launch,
        plan.v.on,
        AudioOperand::ValueWindow,
        AudioOperand::ValueHeads,
        b as int,
        nh as int,
        s as int,
        hd as int,
        start as int,
        len as int,
    );
    lemma_core(d3, plan.core, b, nh, len, hd, window_operands());
    let d4 = core_run(d3, plan.core);
    lemma_overwrite(
        d4,
        plan.write.run,
        plan.write.on,
        AudioOperand::Attended,
        AudioOperand::WindowOut,
        b as int,
        nh as int,
        s as int,
        hd as int,
        start as int,
        len as int,
    );
}

proof fn lemma_windows(
    d: Device<AudioOperand>,
    plans: Seq<WindowPlan>,
    b: usize,
    nh: usize,
    s: usize,
    hd: usize,
    w: usize,
)
    requires
        0 < w,
        plans.len() <= window_count(s as int, w as int),
        forall|i: int|
            0 <= i < plans.len() ==> {
                &&& (#[trigger] plans[i]).window == window_at(s as int, w as int, i)
                &&& plans[i].attends(b, nh, s, hd)
            },
        run_tellable(b as int, nh as int, w as int, hd as int),
        s <= i32::MAX,
        has_heads(d, b as int, nh as int, s as int, hd as int),
        has_buffer(d, AudioOperand::Attended, b * nh * s * hd),
        d.held[AudioOperand::Attended].term == Term::<AudioOperand>::Unknown,
    ensures
        ({
            let end = windows_run(d, plans);
            &&& has_heads(end, b as int, nh as int, s as int, hd as int)
            &&& has_buffer(end, AudioOperand::Attended, b * nh * s * hd)
            &&& end.held[AudioOperand::Attended].term == seeing_windows(
                d.held[AudioOperand::QueryHeads].term,
                d.held[AudioOperand::KeyHeads].term,
                d.held[AudioOperand::ValueHeads].term,
                s as int,
                w as int,
                plans.len() as int,
            )
            &&& keeps_others(d, end)
        }),
    decreases plans.len(),
{
    if plans.len() > 0 {
        let i = plans.len() - 1;
        let head = plans.drop_last();
        assert forall|k: int| 0 <= k < head.len() implies {
            &&& (#[trigger] head[k]).window == window_at(s as int, w as int, k)
            &&& head[k].attends(b, nh, s, hd)
        } by {
            assert(head[k] == plans[k]);
        }
        lemma_windows(d, head, b, nh, s, hd, w);
        let plan = plans[i];
        let n = window_count(s as int, w as int);
        lemma_join(s + w - 1, w as int);
        assert(0 <= i * w <= s - 1) by (nonlinear_arith)
            requires
                0 <= i <= n - 1,
                0 < w,
                n * w <= s + w - 1,
        ;
        assert((i + 1) * w == i * w + w) by (nonlinear_arith);
        assert(plan.window.start == i * w);
        let len = plan.window.len as int;
        assert(len == tokens_in(s as int, w as int, i));
        let heads = b * nh;
        assert(heads * len * len <= heads * w * w && heads * len * hd <= heads * w * hd)
            by (nonlinear_arith)
            requires
                0 <= heads,
                0 <= len <= w,
                0 <= hd,
        ;
        assert(0 <= heads) by (nonlinear_arith)
            requires
                heads == b * nh,
        ;
        let before = windows_run(d, head);
        lemma_window(before, plan, b, nh, s, hd);
        assert(before.held[AudioOperand::QueryHeads] == d.held[AudioOperand::QueryHeads]);
        assert(before.held[AudioOperand::KeyHeads] == d.held[AudioOperand::KeyHeads]);
        assert(before.held[AudioOperand::ValueHeads] == d.held[AudioOperand::ValueHeads]);
    }
}

/// The device after the attention among all tokens.
pub open spec fn attend_run(
    d: Device<AudioOperand>,
    plan: AudioAttentionCore,
    len: int,
) -> Device<AudioOperand> {
    match plan {
        AudioAttentionCore::Whole { core } => core_run(d, core),
        AudioAttentionCore::Windowed { plans } => windows_run(
            d.with_buffer(AudioOperand::Attended, len),
            plans@,
        ),
    }
}

/// The device after self-attention.
pub open spec fn attention_run(d: Device<AudioOperand>, plan: AudioAttentionPlan) -> Device<
    AudioOperand,
> {
    let projected = affine_run(affine_run(affine_run(d, plan.q), plan.k), plan.v);
    let heads = projected.kernel(plan.q_heads.run, plan.q_heads.on).kernel(
        plan.k_heads.run,
        plan.k_heads.on,
    ).kernel(plan.v_heads.run, plan.v_heads.on);
    affine_run(
        attend_run(heads, plan.core, product(plan.q_heads.run.out@)).kernel(
            plan.merge.run,
            plan.merge.on,
        ),
        plan.out,
    )
}

/// The device after two linear layers.
pub open spec fn ffn_run(d: Device<AudioOperand>, plan: AudioFfnPlan) -> Device<AudioOperand> {
    affine_run(affine_run(d, plan.fc1).launch(plan.gelu.run, plan.gelu.on), plan.fc2)
}

/// The device after a layer.
pub open spec fn layer_run(d: Device<AudioOperand>, plan: AudioLayerPlan) -> Device<AudioOperand> {
    ffn_run(
        attention_run(d.kernel(plan.attn_norm.run, plan.attn_norm.on), plan.attn).kernel(
            plan.add.run,
            plan.add.on,
        ).kernel(plan.ffn_norm.run, plan.ffn_norm.on),
        plan.ffn,
    ).launch(plan.add_ffn.run, plan.add_ffn.on)
}

/// Number of elements of the buffers that a layer is given.
pub open spec fn given_len(
    layer: GpuAudioLayer,
    b: int,
    s: int,
    dm: int,
    name: AudioOperand,
) -> Option<int> {
    let (attn, ffn) = (layer.attn, layer.ffn);
    match name {
        AudioOperand::Stream => Some(b * s * dm),
        AudioOperand::AttnNormScale | AudioOperand::AttnNormBias => Some(dm),
        AudioOperand::FfnNormScale | AudioOperand::FfnNormBias => Some(dm),
        AudioOperand::QueryProj => Some(attn.q_proj.w.rows * attn.q_proj.w.cols),
        AudioOperand::QueryBias => Some(attn.q_proj.w.rows as int),
        AudioOperand::KeyProj => Some(attn.k_proj.w.rows * attn.k_proj.w.cols),
        AudioOperand::KeyBias => Some(attn.k_proj.w.rows as int),
        AudioOperand::ValueProj => Some(attn.v_proj.w.rows * attn.v_proj.w.cols),
        AudioOperand::ValueBias => Some(attn.v_proj.w.rows as int),
        AudioOperand::OutProj => Some(attn.out_proj.w.rows * attn.out_proj.w.cols),
        AudioOperand::OutBias => Some(attn.out_proj.w.rows as int),
        AudioOperand::Fc1 => Some(ffn.fc1.w.rows * ffn.fc1.w.cols),
        AudioOperand::Fc1Bias => Some(ffn.fc1.w.rows as int),
        AudioOperand::Fc2 => Some(ffn.fc2.w.rows * ffn.fc2.w.cols),
        AudioOperand::Fc2Bias => Some(ffn.fc2.w.rows as int),
        _ => None,
    }
}

/// The device in front of a layer.
pub open spec fn layer_device(layer: GpuAudioLayer, b: int, s: int, dm: int) -> Device<
    AudioOperand,
> {
    Device {
        held: Map::new(
            |name: AudioOperand| given_len(layer, b, s, dm, name) is Some,
            |name: AudioOperand|
                Buffer { term: Term::Given(name), len: given_len(layer, b, s, dm, name)->0 },
        ),
        ok: true,
    }
}

/// Tokens in a window, where windows limit what `s` tokens see: those that are neither
/// empty nor take in all of them.
pub open spec fn limited(ws: Option<usize>, s: int) -> Option<int> {
    if ws is Some && 0 < ws->0 < s {
        Some(ws->0 as int)
    } else {
        None
    }
}

/// Whether `n` windows of `w` tokens are as many as `s` tokens take.
pub open spec fn takes_windows(s: int, w: int, n: int) -> bool {
    (n - 1) * w < s <= n * w
}

/// Number of windows of `w` that `s` tokens take.
pub open spec fn windows_taken(s: int, w: int) -> int {
    choose|n: int| takes_windows(s, w, n)
}

/// What tokens see: all of each other, or inside their window where there are windows.
pub open spec fn seen(
    q: Term<AudioOperand>,
    k: Term<AudioOperand>,
    v: Term<AudioOperand>,
    s: int,
    ws: Option<usize>,
) -> Term<AudioOperand> {
    match limited(ws, s) {
        Some(w) => seeing_windows(q, k, v, s, w, windows_taken(s, w)),
        None => seeing_all(q, k, v),
    }
}

/// A projection of `x`, head by head.
pub open spec fn heads_of(
    layer: GpuLinear,
    w: AudioOperand,
    bias: AudioOperand,
    x: Term<AudioOperand>,
) -> Term<AudioOperand> {
    Term::Swapped(Box::new(affine(layer, Term::Given(w), Term::Given(bias), x)))
}

/// Self-attention of `x`.
pub open spec fn self_attention(
    attn: GpuAudioAttention,
    x: Term<AudioOperand>,
    s: int,
    ws: Option<usize>,
) -> Term<AudioOperand> {
    let q = heads_of(attn.q_proj, AudioOperand::QueryProj, AudioOperand::QueryBias, x);
    let k = heads_of(attn.k_proj, AudioOperand::KeyProj, AudioOperand::KeyBias, x);
    let v = heads_of(attn.v_proj, AudioOperand::ValueProj, AudioOperand::ValueBias, x);
    affine(
        attn.out_proj,
        Term::Given(AudioOperand::OutProj),
        Term::Given(AudioOperand::OutBias),
        Term::Swapped(Box::new(seen(q, k, v, s, ws))),
    )
}

/// Two linear layers with the activation between them.
pub open spec fn feed_forward(
    first: GpuLinear,
    second: GpuLinear,
    on: FfnOn,
    x: Term<AudioOperand>,
) -> Term<AudioOperand> {
    let hidden = affine(first, Term::Given(on.fc1), Term::Given(on.fc1_bias), x);
    affine(
        second,
        Term::Given(on.fc2),
        Term::Given(on.fc2_bias),
        Term::Activated(Box::new(hidden)),
    )
}

/// A layer of the audio encoder: self-attention of the normalised stream is added to
/// it, and then the feed-forward part of that sum, normalised.
pub open spec fn encoder_layer(layer: GpuAudioLayer, s: int, ws: Option<usize>) -> Term<
    AudioOperand,
> {
    let x = given(AudioOperand::Stream);
    let normed = Term::LayerNormed(
        x,
        given(AudioOperand::AttnNormScale),
        given(AudioOperand::AttnNormBias),
    );
    let h = Term::Sum(x, Box::new(self_attention(layer.attn, normed, s, ws)));
    let behind = Term::LayerNormed(
        Box::new(h),
        given(AudioOperand::FfnNormScale),
        given(AudioOperand::FfnNormBias),
    );
    let on = FfnOn {
        x: AudioOperand::NormedBehind,
        fc1: AudioOperand::Fc1,
        fc1_bias: AudioOperand::Fc1Bias,
        fc2: AudioOperand::Fc2,
        fc2_bias: AudioOperand::Fc2Bias,
    };
    Term::Sum(Box::new(h), Box::new(feed_forward(layer.ffn.fc1, layer.ffn.fc2, on, behind)))
}

/// A call whose sizes the kernels can be told.
pub open spec fn tellable(layer: GpuAudioLayer, b: int, s: int, dm: int, ws: Option<usize>) -> bool {
    let (nh, hd) = (layer.attn.num_heads as int, layer.attn.head_dim as int);
    let run = match limited(ws, s) {
        Some(w) => w,
        None => s,
    };
    &&& dm <= usize::MAX
    &&& layer.matches(dm as usize)
    &&& run_tellable(b, nh, run, hd)
    &&& 1 <= s <= i32::MAX
    &&& 0 <= dm <= i32::MAX
    &&& b * s <= i32::MAX
    &&& b * s * dm <= i32::MAX
    &&& nh * hd <= i32::MAX
    &&& b * s * (nh * hd) <= i32::MAX
    &&& layer.ffn.fc1.w.rows <= i32::MAX
    &&& b * s * layer.ffn.fc1.w.rows <= i32::MAX
}

proof fn lemma_attend(
    d: Device<AudioOperand>,
    core: AudioAttentionCore,
    b: usize,
    nh: usize,
    s: usize,
    hd: usize,
    ws: Option<usize>,
)
    requires
        core.attends(b, nh, s, hd, ws),
        1 <= s <= i32::MAX,
        run_tellable(
            b as int,
            nh as int,
            match limited(ws, s as int) {
                Some(w) => w,
                None => s as int,
            },
            hd as int,
        ),
        has_heads(d, b as int, nh as int, s as int, hd as int),
    ensures
        ({
            let end = attend_run(d, core, b * nh * s * hd);
            &&& end.ok
            &&& has_buffer(end, AudioOperand::Attended, b * nh * s * hd)
            &&& end.held[AudioOperand::Attended].term == seen(
                d.held[AudioOperand::QueryHeads].term,
                d.held[AudioOperand::KeyHeads].term,
                d.held[AudioOperand::ValueHeads].term,
                s as int,
                ws,
            )
            &&& keeps_others(d, end)
        }),
{
    match core {
        AudioAttentionCore::Whole { core } => {
            lemma_core(d, core, b, nh, s, hd, whole_operands());
        },
        AudioAttentionCore::Windowed { plans } => {
            let w = ws->0;
            let room = d.with_buffer(AudioOperand::Attended, b * nh * s * hd);
            lemma_windows(room, plans@, b, nh, s, hd, w);
            let n = plans@.len() as int;
            lemma_join(s + w - 1, w as int);
            assert(n * w == (n - 1) * w + w) by (nonlinear_arith);
            assert(takes_windows(s as int, w as int, n));
            let m = windows_taken(s as int, w as int);
            assert(takes_windows(s as int, w as int, m));
            assert(m == n) by (nonlinear_arith)
                requires
                    (m - 1) * w < s <= m * w,
                    (n - 1) * w < s <= n * w,
                    0 < w,
            ;
        },
    }
}

/// Whether the weights of a layer are there as they were given.
pub open spec fn has_weights(d: Device<AudioOperand>, layer: GpuAudioLayer, dm: int) -> bool {
    &&& d.ok
    &&& forall|name: AudioOperand|
        name != AudioOperand::Stream && given_len(layer, 1, 1, dm, name) is Some ==> {
            &&& d.held.contains_key(name)
            &&& #[trigger] d.held[name] == (Buffer {
                term: Term::Given(name),
                len: given_len(layer, 1, 1, dm, name)->0,
            })
        }
}

/// What self-attention writes.
pub open spec fn written_by_attention(name: AudioOperand) -> bool {
    match name {
        AudioOperand::Query
        | AudioOperand::Key
        | AudioOperand::Value
        | AudioOperand::QueryHeads
        | AudioOperand::KeyHeads
        | AudioOperand::ValueHeads
        | AudioOperand::QueryWindow
        | AudioOperand::KeyWindow
        | AudioOperand::ValueWindow
        | AudioOperand::Scores
        | AudioOperand::Weights
        | AudioOperand::WindowOut
        | AudioOperand::Attended
        | AudioOperand::Merged
        | AudioOperand::AttnOut => true,
        _ => false,
    }
}

proof fn lemma_self_attention(
    d: Device<AudioOperand>,
    plan: AudioAttentionPlan,
    layer: GpuAudioLayer,
    b: usize,
    s: usize,
    dm: usize,
    ws: Option<usize>,
)
    requires
        plan.computes(layer.attn, b, s, dm, ws),
        tellable(layer, b as int, s as int, dm as int, ws),
        has_weights(d, layer, dm as int),
        has_buffer(d, AudioOperand::Normed, b * s * dm),
    ensures
        ({
            let end = attention_run(d, plan);
            &&& end.ok
            &&& has_buffer(end, AudioOperand::AttnOut, b * s * dm)
            &&& end.held[AudioOperand::AttnOut].term == self_attention(
                layer.attn,
                d.held[AudioOperand::Normed].term,
                s as int,
                ws,
            )
            &&& forall|name: AudioOperand|
                !written_by_attention(name) ==> #[trigger] end.held[name] == d.held[name]
            &&& forall|name: AudioOperand|
                d.held.contains_key(name) ==> #[trigger] end.held.contains_key(name)
        }),
{
    let attn = layer.attn;
    let (nh, hd) = (attn.num_heads, attn.head_dim);
    let width = (nh * hd) as usize;
    lemma_product4(b, nh, s, hd);
    lemma_product4(b, s, nh, hd);
    assert(b * s * nh * hd == b * s * (nh * hd)) by (nonlinear_arith);
    assert(b * nh * s * hd == b * s * (nh * hd)) by (nonlinear_arith);
    assert(d.held[AudioOperand::QueryProj].len == width * dm);
    assert(d.held[AudioOperand::QueryBias].len == width);
    assert(d.held[AudioOperand::KeyProj].len == width * dm);
    assert(d.held[AudioOperand::KeyBias].len == width);
    assert(d.held[AudioOperand::ValueProj].len == width * dm);
    assert(d.held[AudioOperand::ValueBias].len == width);
    assert(d.held[AudioOperand::OutProj].len == dm * width);
    assert(d.held[AudioOperand::OutBias].len == dm);
    lemma_affine(
        d,
        plan.q,
        attn.q_proj,
        LinearOn {
            x: AudioOperand::Normed,
            w: AudioOperand::QueryProj,
            bias: AudioOperand::QueryBias,
            y: AudioOperand::Query,
        },
        b,
        s,
        dm,
    );
    let d1 = affine_run(d, plan.q);
    lemma_affine(
        d1,
        plan.k,
        attn.k_proj,
        LinearOn {
            x: AudioOperand::Normed,
            w: AudioOperand::KeyProj,
            bias: AudioOperand::KeyBias,
            y: AudioOperand::Key,
        },
        b,
        s,
        dm,
    );
    let d2 = affine_run(d1, plan.k);
    lemma_affine(
        d2,
        plan.v,
        attn.v_proj,
        LinearOn {
            x: AudioOperand::Normed,
            w: AudioOperand::ValueProj,
            bias: AudioOperand::ValueBias,
            y: AudioOperand::Value,
        },
        b,
        s,
        dm,
    );
    let d3 = affine_run(d2, plan.v);
    lemma_swap(
        d3.with_buffer(AudioOperand::QueryHeads, product(plan.q_heads.run.out@)),
        plan.q_heads.run.launch,
        plan.q_heads.on,
        AudioOperand::QueryHeads,
        AudioOperand::Query,
        b as int,
        s as int,
        nh as int,
        hd as int,
    );
    let d4 = d3.kernel(plan.q_heads.run, plan.q_heads.on);
    lemma_swap(
        d4.with_buffer(AudioOperand::KeyHeads, product(plan.k_heads.run.out@)),
        plan.k_heads.run.launch,
        plan.k_heads.on,
        AudioOperand::KeyHeads,
        AudioOperand::Key,
        b as int,
        s as int,
        nh as int,
        hd as int,
    );
    let d5 = d4.kernel(plan.k_heads.run, plan.k_heads.on);
    lemma_swap(
        d5.with_buffer(AudioOperand::ValueHeads, product(plan.v_heads.run.out@)),
        plan.v_heads.run.launch,
        plan.v_heads.on,
        AudioOperand::ValueHeads,
        AudioOperand::Value,
        b as int,
        s as int,
        nh as int,
        hd as int,
    );
    let d6 = d5.kernel(plan.v_heads.run, plan.v_heads.on);
    lemma_attend(d6, plan.core, b, nh, s, hd, ws);
    let d7 = attend_run(d6, plan.core, product(plan.q_heads.run.out@));
    lemma_swap(
        d7.with_buffer(AudioOperand::Merged, product(plan.merge.run.out@)),
        plan.merge.run.launch,
        plan.merge.on,
        AudioOperand::Merged,
        AudioOperand::Attended,
        b as int,
        nh as int,
        s as int,
        hd as int,
    );
    let d8 = d7.kernel(plan.merge.run, plan.merge.on);
    assert(d7.held[AudioOperand::OutProj] == d6.held[AudioOperand::OutProj]);
    assert(d7.held[AudioOperand::OutBias] == d6.held[AudioOperand::OutBias]);
    lemma_affine(
        d8,
        plan.out,
        attn.out_proj,
        LinearOn {
            x: AudioOperand::Merged,
            w: AudioOperand::OutProj,
            bias: AudioOperand::OutBias,
            y: AudioOperand::AttnOut,
        },
        b,
        s,
        width,
    );
    assert forall|name: AudioOperand| !written_by_attention(name) implies #[trigger] attention_run(
        d,
        plan,
    ).held[name] == d.held[name] by {
        assert(d7.held[name] == d6.held[name]);
    }
    assert forall|name: AudioOperand| d.held.contains_key(name) implies #[trigger] attention_run(
        d,
        plan,
    ).held.contains_key(name) by {
        assert(d6.held.contains_key(name));
        assert(d7.held.contains_key(name));
    }
}

proof fn lemma_feed_forward(
    d: Device<AudioOperand>,
    plan: AudioFfnPlan,
    first: GpuLinear,
    second: GpuLinear,
    b: usize,
    s: usize,
    dm: usize,
    on: FfnOn,
)
    requires
        plan.computes(first, second, b, s, dm, on),
        ready(d, first, on.first(), b, s, dm),
        second.w.cols == first.w.rows,
        second.w.rows <= i32::MAX,
        b * s * second.w.rows <= i32::MAX,
        has_buffer(d, on.fc2, second.w.rows * second.w.cols),
        second.bias ==> has_buffer(d, on.fc2_bias, second.w.rows as int),
        on.x != AudioOperand::Hidden,
        on.fc1 != AudioOperand::Hidden,
        on.fc1_bias != AudioOperand::Hidden,
        on.fc2 != AudioOperand::Hidden,
        on.fc2_bias != AudioOperand::Hidden,
        on.fc2 != AudioOperand::FfnOut,
        on.fc2_bias != AudioOperand::FfnOut,
        d.held[on.fc1].term == Term::Given(on.fc1),
        d.held[on.fc1_bias].term == Term::Given(on.fc1_bias),
        d.held[on.fc2].term == Term::Given(on.fc2),
        d.held[on.fc2_bias].term == Term::Given(on.fc2_bias),
    ensures
        ({
            let end = ffn_run(d, plan);
            &&& end.ok
            &&& has_buffer(end, AudioOperand::FfnOut, b * s * second.w.rows)
            &&& end.held[AudioOperand::FfnOut].term == feed_forward(
                first,
                second,
                on,
                d.held[on.x].term,
            )
            &&& forall|name: AudioOperand|
                name != AudioOperand::Hidden && name != AudioOperand::FfnOut
                    ==> #[trigger] end.held[name] == d.held[name]
            &&& forall|name: AudioOperand|
                d.held.contains_key(name) ==> #[trigger] end.held.contains_key(name)
        }),
{
    lemma_affine(d, plan.fc1, first, on.first(), b, s, dm);
    let d1 = affine_run(d, plan.fc1);
    lemma_activation(
        d1,
        plan.gelu.run,
        plan.gelu.on,
        AudioOperand::Hidden,
        b * s * first.w.rows,
    );
    let d2 = d1.launch(plan.gelu.run, plan.gelu.on);
    lemma_affine(d2, plan.fc2, second, on.second(), b, s, first.w.rows);
}

/// Running the plan of an encoder layer on the device computes an encoder layer: every
/// step has the buffers and the threads that it needs, every token sees all tokens of
/// its window and no others, and attention and feed-forward part are added to the
/// stream.
pub proof fn law_plan_is_an_encoder_layer(
    plan: AudioLayerPlan,
    layer: GpuAudioLayer,
    b: usize,
    s: usize,
    dm: usize,
    ws: Option<usize>,
)
    requires
        plan.computes(layer, b, s, dm, ws),
        tellable(layer, b as int, s as int, dm as int, ws),
    ensures
        ({
            let end = layer_run(layer_device(layer, b as int, s as int, dm as int), plan);
            &&& end.ok
            &&& end.held[AudioOperand::Added].len == b * s * dm
            &&& end.held[AudioOperand::Added].term == encoder_layer(layer, s as int, ws)
        }),
{
    let start = layer_device(layer, b as int, s as int, dm as int);
    let x = seq![b, s, dm];
    let rows = b * s;
    lemma_product3(b, s, dm);
    assert(x.drop_last() =~= seq![b, s]);
    lemma_layer_norm(
        start.with_buffer(AudioOperand::Normed, product(plan.attn_norm.run.out@)),
        plan.attn_norm.run.launch,
        plan.attn_norm.on,
        AudioOperand::Normed,
        AudioOperand::Stream,
        AudioOperand::AttnNormScale,
        AudioOperand::AttnNormBias,
        rows,
        dm,
    );
    let d1 = start.kernel(plan.attn_norm.run, plan.attn_norm.on);
    assert(has_weights(d1, layer, dm as int));
    lemma_self_attention(d1, plan.attn, layer, b, s, dm, ws);
    let d2 = attention_run(d1, plan.attn);
    assert(d2.held[AudioOperand::Stream] == d1.held[AudioOperand::Stream]);
    assert(d2.held.contains_key(AudioOperand::Stream));
    lemma_sum(
        d2.with_buffer(AudioOperand::Added, product(plan.add.run.out@)),
        plan.add.run.launch,
        plan.add.on,
        AudioOperand::Added,
        AudioOperand::Stream,
        AudioOperand::AttnOut,
        b * s * dm,
    );
    let d3 = d2.kernel(plan.add.run, plan.add.on);
    assert(d2.held[AudioOperand::FfnNormScale] == d1.held[AudioOperand::FfnNormScale]);
    assert(d2.held[AudioOperand::FfnNormBias] == d1.held[AudioOperand::FfnNormBias]);
    assert(d2.held.contains_key(AudioOperand::FfnNormScale));
    assert(d2.held.contains_key(AudioOperand::FfnNormBias));
    lemma_layer_norm(
        d3.with_buffer(AudioOperand::NormedBehind, product(plan.ffn_norm.run.out@)),
        plan.ffn_norm.run.launch,
        plan.ffn_norm.on,
        AudioOperand::NormedBehind,
        AudioOperand::Added,
        AudioOperand::FfnNormScale,
        AudioOperand::FfnNormBias,
        rows,
        dm,
    );
    let d4 = d3.kernel(plan.ffn_norm.run, plan.ffn_norm.on);
    assert(d2.held[AudioOperand::Fc1] == d1.held[AudioOperand::Fc1]);
    assert(d2.held[AudioOperand::Fc1Bias] == d1.held[AudioOperand::Fc1Bias]);
    assert(d2.held[AudioOperand::Fc2] == d1.held[AudioOperand::Fc2]);
    assert(d2.held[AudioOperand::Fc2Bias] == d1.held[AudioOperand::Fc2Bias]);
    assert(d2.held.contains_key(AudioOperand::Fc1));
    assert(d2.held.contains_key(AudioOperand::Fc1Bias));
    assert(d2.held.contains_key(AudioOperand::Fc2));
    assert(d2.held.contains_key(AudioOperand::Fc2Bias));
    let on = FfnOn {
        x: AudioOperand::NormedBehind,
        fc1: AudioOperand::Fc1,
        fc1_bias: AudioOperand::Fc1Bias,
        fc2: AudioOperand::Fc2,
        fc2_bias: AudioOperand::Fc2Bias,
    };
    lemma_feed_forward(d4, plan.ffn, layer.ffn.fc1, layer.ffn.fc2, b, s, dm, on);
    let d5 = ffn_run(d4, plan.ffn);
    assert(d5.held[AudioOperand::Added] == d4.held[AudioOperand::Added]);
    assert(d5.held.contains_key(AudioOperand::Added));
    lemma_sum_in_place(
        d5,
        plan.add_ffn.run,
        plan.add_ffn.on,
        AudioOperand::Added,
        AudioOperand::FfnOut,
        b * s * dm,
    );
}

/// The device behind the layers, in front of what follows them.
pub open spec fn end_device(encoder: GpuAudioEncoder, n: int) -> Device<AudioOperand> {
    let (dm, proj1, proj2) = (encoder.d_model as int, encoder.proj1.w, encoder.proj2.w);
    let len = |name: AudioOperand| match name {
        AudioOperand::Stream => Some(1 * n * dm),
        AudioOperand::PostNormScale | AudioOperand::PostNormBias => Some(dm),
        AudioOperand::Proj1 => Some(proj1.rows * proj1.cols),
        AudioOperand::Proj1Bias => Some(proj1.rows as int),
        AudioOperand::Proj2 => Some(proj2.rows * proj2.cols),
        AudioOperand::Proj2Bias => Some(proj2.rows as int),
        _ => None::<int>,
    };
    Device {
        held: Map::new(
            |name: AudioOperand| len(name) is Some,
            |name: AudioOperand| Buffer { term: Term::Given(name), len: len(name)->0 },
        ),
        ok: true,
    }
}

/// Behind the layers the stream is normalised and goes through two linear layers with
/// the activation between them, to as many numbers per token as the decoder takes.
pub proof fn law_plan_ends_with_a_projection(
    plan: AudioEncoderPlan,
    encoder: GpuAudioEncoder,
    n: usize,
)
    requires
        plan.ends(encoder, n),
        encoder.matches(),
        n <= i32::MAX,
        encoder.d_model <= i32::MAX,
        encoder.proj1.w.rows <= i32::MAX,
        encoder.proj2.w.rows <= i32::MAX,
        n * encoder.d_model <= i32::MAX,
        n * encoder.proj1.w.rows <= i32::MAX,
        n * encoder.proj2.w.rows <= i32::MAX,
    ensures
        ({
            let end = ffn_run(
                end_device(encoder, n as int).kernel(plan.ln_post.run, plan.ln_post.on),
                plan.proj,
            );
            let normed = Term::LayerNormed(
                given(AudioOperand::Stream),
                given(AudioOperand::PostNormScale),
                given(AudioOperand::PostNormBias),
            );
            let hidden = affine(
                encoder.proj1,
                Term::Given(AudioOperand::Proj1),
                Term::Given(AudioOperand::Proj1Bias),
                normed,
            );
            &&& end.ok
            &&& end.held[AudioOperand::FfnOut].len == n * plan.out_dim
            &&& end.held[AudioOperand::FfnOut].term == affine(
                encoder.proj2,
                Term::Given(AudioOperand::Proj2),
                Term::Given(AudioOperand::Proj2Bias),
                Term::Activated(Box::new(hidden)),
            )
        }),
{
    let start = end_device(encoder, n as int);
    let dm = encoder.d_model;
    let x = seq![1usize, n, dm];
    lemma_product3(1, n, dm);
    assert(x.drop_last() =~= seq![1usize, n]);
    assert(1 * n == n);
    assert(1 * n * dm == n * dm);
    assert(1 * n * encoder.proj1.w.rows == n * encoder.proj1.w.rows);
    assert(1 * n * encoder.proj2.w.rows == n * encoder.proj2.w.rows);
    lemma_layer_norm(
        start.with_buffer(AudioOperand::Normed, product(plan.ln_post.run.out@)),
        plan.ln_post.run.launch,
        plan.ln_post.on,
        AudioOperand::Normed,
        AudioOperand::Stream,
        AudioOperand::PostNormScale,
        AudioOperand::PostNormBias,
        1 * n,
        dm,
    );
    let d1 = start.kernel(plan.ln_post.run, plan.ln_post.on);
    lemma_feed_forward(
        d1,
        plan.proj,
        encoder.proj1,
        encoder.proj2,
        1,
        n,
        dm,
        FfnOn {
            x: AudioOperand::Normed,
            fc1: AudioOperand::Proj1,
            fc1_bias: AudioOperand::Proj1Bias,
            fc2: AudioOperand::Proj2,
            fc2_bias: AudioOperand::Proj2Bias,
        },
    );
}

/// A 3×3 convolution at every second place in both directions, activated.
pub open spec fn convolved(
    x: Term<StemOperand>,
    taps: StemOperand,
    bias: StemOperand,
) -> Term<StemOperand> {
    let neighbours = Box::new(Term::Unfolded(Box::new(x)));
    Term::Folded(Box::new(Term::Product(given(taps), neighbours)), given(bias))
}

/// The device after a convolution.
pub open spec fn conv_run(d: Device<StemOperand>, step: ConvStep) -> Device<StemOperand> {
    let plan = step.plan;
    d.with_buffer(step.im2col.writes@[0], plan.col_len as int).launch(
        plan.im2col,
        step.im2col,
    ).with_buffer(step.gemm.writes@[0], plan.gemm_len as int).gemm(
        plan.gemm,
        step.gemm,
    ).with_buffer(step.postprocess.writes@[0], product(plan.out@)).launch(
        plan.postprocess,
        step.postprocess,
    )
}

/// Half of an axis, rounded up.
pub open spec fn halved(n: int) -> int {
    (n + 1) / 2
}

/// Sizes of a convolution of `[b, c, h, w]` to `c_out` channels that kernels can be told.
pub open spec fn conv_tellable(b: int, c: int, h: int, w: int, c_out: int) -> bool {
    let m = b * halved(h) * halved(w);
    &&& 0 <= b <= i32::MAX
    &&& 0 <= c <= i32::MAX
    &&& 1 <= h <= i32::MAX
    &&& 1 <= w <= i32::MAX
    &&& 0 <= c_out <= i32::MAX
    &&& c * 9 <= i32::MAX
    &&& m <= i32::MAX
    &&& m * (c * 9) <= i32::MAX
    &&& m * c_out <= i32::MAX
}

proof fn lemma_conv(
    d: Device<StemOperand>,
    step: ConvStep,
    x: StemOperand,
    taps: StemOperand,
    bias: StemOperand,
    out: StemOperand,
    b: usize,
    c: usize,
    h: usize,
    w: usize,
    c_out: usize,
)
    requires
        step.plan.convolves(seq![b, c, h, w], c_out),
        step.takes(x, taps, bias, out),
        conv_tellable(b as int, c as int, h as int, w as int, c_out as int),
        d.ok,
        has_buffer(d, x, b * c * h * w),
        has_buffer(d, taps, c_out * (c * 9)),
        has_buffer(d, bias, c_out as int),
        d.held[taps].term == Term::Given(taps),
        d.held[bias].term == Term::Given(bias),
        x != StemOperand::Columns,
        taps != StemOperand::Columns,
        taps != StemOperand::Product,
        bias != StemOperand::Columns,
        bias != StemOperand::Product,
        bias != out,
        out != StemOperand::Columns,
        out != StemOperand::Product,
    ensures
        ({
            let end = conv_run(d, step);
            &&& end.ok
            &&& has_buffer(end, out, b * c_out * halved(h as int) * halved(w as int))
            &&& end.held[out].term == convolved(d.held[x].term, taps, bias)
            &&& forall|name: StemOperand|
                name != StemOperand::Columns && name != StemOperand::Product && name != out
                    ==> #[trigger] end.held[name] == d.held[name]
            &&& forall|name: StemOperand|
                d.held.contains_key(name) ==> #[trigger] end.held.contains_key(name)
        }),
{
    let plan = step.plan;
    let (ho, wo) = (halved(h as int), halved(w as int));
    let (m, k) = (b * ho * wo, c * 9);
    lemma_product4(b, c_out, ho as usize, wo as usize);
    assert(0 <= m) by (nonlinear_arith)
        requires
            m == b * ho * wo,
            0 <= ho,
            0 <= wo,
    ;
    assert(m * c_out == b * c_out * ho * wo) by (nonlinear_arith)
        requires
            m == b * ho * wo,
    ;
    assert(b * ho * wo * (c * 9) == m * k);
    assert(0 <= m * k && 0 <= m * c_out) by (nonlinear_arith)
        requires
            0 <= m,
            0 <= k,
    ;
    let a1 = d.with_buffer(StemOperand::Columns, plan.col_len as int);
    lemma_unfold(
        a1,
        plan.im2col,
        step.im2col,
        StemOperand::Columns,
        x,
        b as int,
        c as int,
        h as int,
        w as int,
        ho,
        wo,
    );
    let d1 = a1.launch(plan.im2col, step.im2col);
    let a2 = d1.with_buffer(StemOperand::Product, plan.gemm_len as int);
    lemma_gemm(
        a2,
        plan.gemm,
        step.gemm,
        StemOperand::Product,
        taps,
        StemOperand::Columns,
        m as usize,
        c_out,
        k as usize,
        false,
    );
    let d2 = a2.gemm(plan.gemm, step.gemm);
    let a3 = d2.with_buffer(out, product(plan.out@));
    lemma_fold(
        a3,
        plan.postprocess,
        step.postprocess,
        out,
        StemOperand::Product,
        bias,
        b as int,
        c_out as int,
        ho,
        wo,
    );
}

/// The device after the features of a time step were put next to each other.
pub open spec fn flat_run(d: Device<StemOperand>, step: Step<StemOperand, GpuTensor>) -> Device<
    StemOperand,
> {
    let (to, from) = (step.on.writes@, step.on.reads@);
    let after = d.with_buffer(to[0], product(step.run@)).now(
        to[0],
        Term::LastForward(Box::new(d.held[from[0]].term)),
    );
    Device {
        ok: d.ok && to.len() == 1 && from.len() == 1 && d.has(from) && d.held[from[0]].len
            == product(step.run@),
        ..after
    }
}

/// The device after the positions of `n` tokens of width `dm` were added to those of
/// every chunk.
pub open spec fn positions_run(
    d: Device<StemOperand>,
    on: Operands<StemOperand>,
    n: int,
    dm: int,
) -> Device<StemOperand> {
    let (to, from) = (on.writes@, on.reads@);
    let after = d.now(
        to[0],
        Term::Sum(Box::new(d.held[to[0]].term), Box::new(d.held[from[0]].term)),
    );
    Device {
        ok: d.ok && to.len() == 1 && from.len() == 1 && d.has(to) && d.has(from) && n * dm
            <= d.held[from[0]].len,
        ..after
    }
}

/// The device after the convolution stem.
pub open spec fn stem_run(d: Device<StemOperand>, plan: ConvStemPlan, dm: int) -> Device<
    StemOperand,
> {
    positions_run(
        affine_run(
            flat_run(conv_run(conv_run(conv_run(d, plan.c1), plan.c2), plan.c3), plan.flat),
            plan.co,
        ),
        plan.positions,
        plan.t2 as int,
        dm,
    )
}

/// The device in front of the convolution stem, with `positions` numbers for positions.
pub open spec fn stem_device(
    stem: GpuConvStem,
    b: int,
    n_mels: int,
    cs: int,
    positions: int,
) -> Device<StemOperand> {
    let len = |name: StemOperand| match name {
        StemOperand::Chunks => Some(b * 1 * n_mels * cs),
        StemOperand::Taps1 => Some(stem.c1_out * (1 * 9)),
        StemOperand::Bias1 => Some(stem.c1_out as int),
        StemOperand::Taps2 => Some(stem.c2_out * (stem.c1_out * 9)),
        StemOperand::Bias2 => Some(stem.c2_out as int),
        StemOperand::Taps3 => Some(stem.c3_out * (stem.c2_out * 9)),
        StemOperand::Bias3 => Some(stem.c3_out as int),
        StemOperand::OutProj => Some(stem.co.w.rows * stem.co.w.cols),
        StemOperand::OutBias => Some(stem.co.w.rows as int),
        StemOperand::Positions => Some(positions),
        _ => None::<int>,
    };
    Device {
        held: Map::new(
            |name: StemOperand| len(name) is Some,
            |name: StemOperand| Buffer { term: Term::Given(name), len: len(name)->0 },
        ),
        ok: true,
    }
}

/// Running the convolution stem on the device puts the chunks through three
/// convolutions, each of which halves both axes, projects the features of every time
/// step that is left to a token, and adds the position of the token in its chunk.
pub proof fn law_plan_is_a_convolution_stem(
    plan: ConvStemPlan,
    stem: GpuConvStem,
    b: usize,
    n_mels: usize,
    cs: usize,
    positions: int,
)
    requires
        plan.computes(stem, b, n_mels, cs),
        1 <= n_mels,
        1 <= cs,
        conv_tellable(b as int, 1, n_mels as int, cs as int, stem.c1_out as int),
        conv_tellable(
            b as int,
            stem.c1_out as int,
            halved(n_mels as int),
            halved(cs as int),
            stem.c2_out as int,
        ),
        conv_tellable(
            b as int,
            stem.c2_out as int,
            halved(halved(n_mels as int)),
            halved(halved(cs as int)),
            stem.c3_out as int,
        ),
        ({
            let (f2, t2) = (
                halved(halved(halved(n_mels as int))),
                halved(halved(halved(cs as int))),
            );
            &&& stem.co.w.cols == stem.c3_out * f2
            &&& stem.co.w.cols <= i32::MAX
            &&& stem.co.w.rows <= i32::MAX
            &&& b * t2 <= i32::MAX
            &&& b * t2 * stem.co.w.rows <= i32::MAX
            &&& t2 * stem.co.w.rows <= positions
        }),
    ensures
        ({
            let end = stem_run(
                stem_device(stem, b as int, n_mels as int, cs as int, positions),
                plan,
                stem.co.w.rows as int,
            );
            let c1 = convolved(
                Term::Given(StemOperand::Chunks),
                StemOperand::Taps1,
                StemOperand::Bias1,
            );
            let c2 = convolved(c1, StemOperand::Taps2, StemOperand::Bias2);
            let c3 = convolved(c2, StemOperand::Taps3, StemOperand::Bias3);
            let token = affine(
                stem.co,
                Term::Given(StemOperand::OutProj),
                Term::Given(StemOperand::OutBias),
                Term::LastForward(Box::new(c3)),
            );
            &&& end.ok
            &&& plan.t2 == halved(halved(halved(cs as int)))
            &&& end.held[StemOperand::Tokens].len == b * plan.t2 * stem.co.w.rows
            &&& end.held[StemOperand::Tokens].term == Term::Sum(
                Box::new(token),
                given(StemOperand::Positions),
            )
        }),
{
    let start = stem_device(stem, b as int, n_mels as int, cs as int, positions);
    let (h1, w1) = (halved(n_mels as int) as usize, halved(cs as int) as usize);
    let (h2, w2) = (halved(h1 as int) as usize, halved(w1 as int) as usize);
    let (f2, t2) = (halved(h2 as int) as usize, halved(w2 as int) as usize);
    assert(stem.stage(b, n_mels, cs, 1) =~= seq![b, stem.c1_out, h1, w1]);
    assert(stem.stage(b, n_mels, cs, 2) =~= seq![b, stem.c2_out, h2, w2]);
    assert(stem.stage(b, n_mels, cs, 3) =~= seq![b, stem.c3_out, f2, t2]);
    lemma_conv(
        start,
        plan.c1,
        StemOperand::Chunks,
        StemOperand::Taps1,
        StemOperand::Bias1,
        StemOperand::Conv1,
        b,
        1,
        n_mels,
        cs,
        stem.c1_out,
    );
    let d1 = conv_run(start, plan.c1);
    assert(d1.held[StemOperand::Taps2] == start.held[StemOperand::Taps2]);
    assert(d1.held[StemOperand::Bias2] == start.held[StemOperand::Bias2]);
    assert(d1.held.contains_key(StemOperand::Taps2) && d1.held.contains_key(StemOperand::Bias2));
    lemma_conv(
        d1,
        plan.c2,
        StemOperand::Conv1,
        StemOperand::Taps2,
        StemOperand::Bias2,
        StemOperand::Conv2,
        b,
        stem.c1_out,
        h1,
        w1,
        stem.c2_out,
    );
    let d2 = conv_run(d1, plan.c2);
    assert(d1.held[StemOperand::Taps3] == start.held[StemOperand::Taps3]);
    assert(d1.held[StemOperand::Bias3] == start.held[StemOperand::Bias3]);
    assert(d1.held.contains_key(StemOperand::Taps3) && d1.held.contains_key(StemOperand::Bias3));
    assert(d2.held[StemOperand::Taps3] == start.held[StemOperand::Taps3]);
    assert(d2.held[StemOperand::Bias3] == start.held[StemOperand::Bias3]);
    assert(d2.held.contains_key(StemOperand::Taps3) && d2.held.contains_key(StemOperand::Bias3));
    lemma_conv(
        d2,
        plan.c3,
        StemOperand::Conv2,
        StemOperand::Taps3,
        StemOperand::Bias3,
        StemOperand::Conv3,
        b,
        stem.c2_out,
        h2,
        w2,
        stem.c3_out,
    );
    let d3 = conv_run(d2, plan.c3);
    assert forall|name: StemOperand|
        name == StemOperand::OutProj || name == StemOperand::OutBias || name
            == StemOperand::Positions implies #[trigger] d3.held[name] == start.held[name]
        && d3.held.contains_key(name) by {
        assert(d1.held[name] == start.held[name] && d1.held.contains_key(name));
        assert(d2.held[name] == start.held[name] && d2.held.contains_key(name));
        assert(d3.held.contains_key(name));
    }
    assert(d3.held[StemOperand::OutProj] == start.held[StemOperand::OutProj]);
    assert(d3.held[StemOperand::OutBias] == start.held[StemOperand::OutBias]);
    assert(d3.held[StemOperand::Positions] == start.held[StemOperand::Positions]);
    let k = (stem.c3_out * f2) as usize;
    lemma_product3(b, t2, k);
    assert(b * stem.c3_out * f2 * t2 == b * t2 * (stem.c3_out * f2)) by (nonlinear_arith);
    let d4 = flat_run(d3, plan.flat);
    assert(d4.ok);
    lemma_affine(
        d4,
        plan.co,
        stem.co,
        LinearOn {
            x: StemOperand::Flat,
            w: StemOperand::OutProj,
            bias: StemOperand::OutBias,
            y: StemOperand::Tokens,
        },
        b,
        t2,
        k,
    );
}

/// All layers of the encoder run, each with its own weights, on tokens that see the
/// window of a whole number of chunks that they are in.
pub proof fn law_every_encoder_layer_runs(
    plan: AudioEncoderPlan,
    encoder: GpuAudioEncoder,
    n: usize,
    i: int,
)
    requires
        plan.runs(encoder, n),
        0 <= i < encoder.layers@.len(),
        tellable(
            encoder.layers@[i],
            1,
            n as int,
            encoder.d_model as int,
            Some(encoder.params.ws),
        ),
    ensures
        plan.layers@.len() == encoder.layers@.len(),
        ({
            let layer = encoder.layers@[i];
            let end = layer_run(
                layer_device(layer, 1, n as int, encoder.d_model as int),
                plan.layers@[i],
            );
            &&& end.ok
            &&& end.held[AudioOperand::Added].len == n * encoder.d_model
            &&& end.held[AudioOperand::Added].term == encoder_layer(
                layer,
                n as int,
                Some(encoder.params.ws),
            )
        }),
{
    assert(1 * n * encoder.d_model == n * encoder.d_model);
    law_plan_is_an_encoder_layer(
        plan.layers@[i],
        encoder.layers@[i],
        1,
        n,
        encoder.d_model,
        Some(encoder.params.ws),
    );
}

} // verus!

//! Prefill and autoregressive decoding.
//!
//! The engines run the network; this module decides what they are given. A
//! generation starts from a plan (which tokens stand before and after the
//! audio, how many positions there will be), and then every new token is handed
//! to a [`DecodeLoop`], which says whether it is emitted and whether the network
//! runs once more.
use vstd::prelude::*;

use crate::backend::Backend;
use crate::buffers::append_copy;
use crate::prompt::{
    build_prompt, prompt_built, prompt_head, prompt_tokens, prompt_turn, view_prompt, view_text,
    widened, PromptError, PromptFailure, ENDOFTEXT_TOKEN_ID, IM_END_TOKEN_ID,
};
use crate::tensor::{lemma_product3, CpuTensor};
use crate::tokenizer::AsrTokenizer;

verus! {

/// Tokens that end a generation.
pub open spec fn is_eos(token: i64) -> bool {
    token == ENDOFTEXT_TOKEN_ID || token == IM_END_TOKEN_ID
}

fn ends(token: i64) -> (r: bool)
    ensures
        r == is_eos(token),
{
    token == ENDOFTEXT_TOKEN_ID || token == IM_END_TOKEN_ID
}

/// What a generation starts from.
pub struct GenerationPlan {
    /// The whole prompt.
    pub input_ids: Vec<i64>,
    /// Tokens in front of the audio.
    pub before_ids: Vec<i64>,
    /// Audio tokens.
    pub n_audio: usize,
    /// Tokens behind the audio.
    pub after_ids: Vec<i64>,
    /// Length of the prompt.
    pub seq_len: usize,
    /// Positions that prompt and generated tokens can take.
    pub total_positions: usize,
    /// All positions, counted up.
    pub positions: Vec<i64>,
}

impl GenerationPlan {
    /// What the plan is for a prompt with `n_audio` audio tokens from
    /// `audio_start` on.
    pub open spec fn describes(
        self,
        input_ids: Seq<i64>,
        audio_start: int,
        n_audio: int,
        max_new_tokens: int,
    ) -> bool {
        &&& self.input_ids@ == input_ids
        &&& self.before_ids@ == input_ids.take(audio_start)
        &&& self.n_audio == n_audio
        &&& self.after_ids@ == input_ids.skip(audio_start + n_audio)
        &&& self.seq_len == input_ids.len()
        &&& self.total_positions == input_ids.len() + max_new_tokens
        &&& self.positions@ == Seq::new((input_ids.len() + max_new_tokens) as nat, |i: int| i as i64)
    }
}

/// Positions `0..total`.
fn count_up(total: usize) -> (r: Vec<i64>)
    requires
        total <= i64::MAX,
    ensures
        r@ == Seq::new(total as nat, |i: int| i as i64),
{
    let mut out: Vec<i64> = Vec::new();
    let mut i: usize = 0;
    while i < total
        invariant
            i <= total <= i64::MAX,
            out@.len() == i,
            forall|k: int| 0 <= k < i ==> #[trigger] out@[k] == k as i64,
        decreases total - i,
    {
        out.push(i as i64);
        i += 1;
    }
    assert(out@ =~= Seq::new(total as nat, |i: int| i as i64));
    out
}

/// Splits a prompt around its audio and counts out the positions.
pub fn plan_generation(
    input_ids: Vec<i64>,
    audio_start_pos: usize,
    n_audio: usize,
    max_new_tokens: usize,
) -> (r: GenerationPlan)
    requires
        audio_start_pos + n_audio <= input_ids@.len(),
        input_ids@.len() + max_new_tokens <= usize::MAX,
        input_ids@.len() + max_new_tokens <= i64::MAX,
    ensures
        r.describes(
            input_ids@,
            audio_start_pos as int,
            n_audio as int,
            max_new_tokens as int,
        ),
{
    let seq_len: usize = input_ids.len();
    let before_ids = vstd::slice::slice_to_vec(
        vstd::slice::slice_subrange(input_ids.as_slice(), 0, audio_start_pos),
    );
    let after_ids = vstd::slice::slice_to_vec(
        vstd::slice::slice_subrange(input_ids.as_slice(), audio_start_pos + n_audio, seq_len),
    );
    assert(before_ids@ =~= input_ids@.take(audio_start_pos as int));
    assert(after_ids@ =~= input_ids@.skip(audio_start_pos + n_audio));
    let total_positions: usize = seq_len + max_new_tokens;
    let positions = count_up(total_positions);
    GenerationPlan { input_ids, before_ids, n_audio, after_ids, seq_len, total_positions, positions }
}

/// Why a generation could not start.
pub enum GenerateError {
    /// The prompt could not be built.
    Prompt(PromptError),
    /// Prompt and generated tokens would take more positions than can be counted.
    TooLong,
}

/// The token numbers that frame the audio in a prompt.
#[derive(Clone, Copy)]
pub struct AudioTokenIds {
    /// Begins the audio.
    pub start: i64,
    /// Stands for one audio embedding.
    pub audio: i64,
    /// Ends the audio.
    pub end: i64,
}

/// How a generation starts from a prompt: with the prompt's error, with a plan
/// where its positions can be counted, or not at all.
pub open spec fn starts(
    prompt: Result<(Seq<i64>, int), PromptFailure>,
    n_audio: int,
    max_new_tokens: int,
    r: Result<GenerationPlan, GenerateError>,
) -> bool {
    match (prompt, r) {
        (Err(e), Err(GenerateError::Prompt(f))) => e == f@,
        (Ok((tokens, at)), Err(GenerateError::TooLong)) => {
            ||| tokens.len() + max_new_tokens > usize::MAX
            ||| tokens.len() + max_new_tokens > i64::MAX
        },
        (Ok((tokens, at)), Ok(plan)) => {
            &&& tokens.len() + max_new_tokens <= usize::MAX
            &&& tokens.len() + max_new_tokens <= i64::MAX
            &&& plan.describes(tokens, at, n_audio, max_new_tokens)
        },
        _ => false,
    }
}

/// Builds the prompt for `embeds_len` audio numbers of width `hidden_size` and
/// plans the generation.
pub fn begin_generation(
    tokenizer: &AsrTokenizer,
    ids: AudioTokenIds,
    embeds_len: usize,
    hidden_size: usize,
    language: Option<&str>,
    prefix_text: Option<&str>,
    max_new_tokens: usize,
) -> (r: Result<GenerationPlan, GenerateError>)
    requires
        0 < hidden_size,
    ensures
        exists|prompt: Result<(Seq<i64>, int), PromptFailure>|
            {
                &&& #[trigger] prompt_built(
                    tokenizer@,
                    ids.start,
                    ids.audio,
                    ids.end,
                    (embeds_len / hidden_size) as nat,
                    view_text(language),
                    view_text(prefix_text),
                    prompt,
                )
                &&& starts(
                    prompt,
                    (embeds_len / hidden_size) as int,
                    max_new_tokens as int,
                    r,
                )
            },
{
    let n_audio: usize = embeds_len / hidden_size;
    let prompt = build_prompt(
        tokenizer,
        ids.start,
        ids.audio,
        ids.end,
        n_audio,
        language,
        prefix_text,
    );
    let ghost seen = view_prompt(prompt);
    match prompt {
        Err(e) => Err(GenerateError::Prompt(e)),
        Ok((tokens, at)) => {
            let room: usize = if usize::MAX as u128 <= i64::MAX as u128 {
                usize::MAX
            } else {
                i64::MAX as usize
            };
            if tokens.len() > room || max_new_tokens > room - tokens.len() {
                return Err(GenerateError::TooLong);
            }
            Ok(plan_generation(tokens, at, n_audio, max_new_tokens))
        },
    }
}

/// Puts the embeddings of a prompt together: what stands before the audio, the
/// audio, and what stands behind it, as `[1, seq_len, hidden]`.
pub fn splice_embeddings<T: Copy>(
    before: &[T],
    audio: &[T],
    after: &[T],
    seq_len: usize,
    hidden: usize,
) -> (r: CpuTensor<T>)
    requires
        before@.len() + audio@.len() + after@.len() == seq_len * hidden,
    ensures
        r.valid(),
        r.shape@ == seq![1usize, seq_len, hidden],
        r.data@ == before@ + audio@ + after@,
{
    let mut data: Vec<T> = Vec::new();
    append_copy(&mut data, before);
    append_copy(&mut data, audio);
    append_copy(&mut data, after);
    assert(data@ =~= before@ + audio@ + after@);
    let shape: Vec<usize> = vec![1usize, seq_len, hidden];
    proof {
        assert(data.len() <= usize::MAX);
        assert(shape@ =~= seq![1usize, seq_len, hidden]);
        lemma_product3(1, seq_len, hidden);
        assert(1 * seq_len * hidden == seq_len * hidden) by (nonlinear_arith);
    }
    CpuTensor::new(data, shape)
}

/// One more run of the network.
#[derive(Clone, Copy)]
pub struct Forward {
    /// The token to embed.
    pub token: i64,
    /// Its position.
    pub position: usize,
}

/// What to do with a new token.
pub enum DecodeAction {
    /// Report the token; run the network again where `forward` says so, stop
    /// otherwise.
    Emit { token_id: u32, forward: Option<Forward> },
    /// Stop without reporting the token.
    Stop,
}

/// Mathematical value of a [`DecodeLoop`].
#[verifier::ext_equal]
pub struct LoopModel {
    /// Where the network runs.
    pub backend: Backend,
    /// Length of the prompt.
    pub seq_len: int,
    /// Most tokens to generate.
    pub max_new_tokens: int,
    /// Tokens emitted so far.
    pub generated: Seq<u32>,
    /// Whether the loop has come to its end.
    pub done: bool,
}

impl LoopModel {
    /// A loop before its first token.
    pub open spec fn fresh(backend: Backend, seq_len: int, max_new_tokens: int) -> Self {
        LoopModel { backend, seq_len, max_new_tokens, generated: Seq::empty(), done: false }
    }

    /// The loop after a new token, and what is done with the token. The CPU
    /// loop runs the network after every emitted token, the CUDA loop only while
    /// more tokens are wanted.
    pub open spec fn step(self, token: i64) -> (Self, DecodeAction) {
        let full = self.generated.len() >= self.max_new_tokens;
        let emitted = self.generated.push(token as u32);
        let last = emitted.len() >= self.max_new_tokens;
        let forward = Forward {
            token,
            position: (self.seq_len + self.generated.len()) as usize,
        };
        if is_eos(token) || full {
            (LoopModel { done: true, ..self }, DecodeAction::Stop)
        } else if self.backend == Backend::Cuda && last {
            (
                LoopModel { generated: emitted, done: true, ..self },
                DecodeAction::Emit { token_id: token as u32, forward: None },
            )
        } else {
            (
                LoopModel { generated: emitted, ..self },
                DecodeAction::Emit { token_id: token as u32, forward: Some(forward) },
            )
        }
    }

    /// What holds of a loop at any time.
    pub open spec fn valid(self) -> bool {
        &&& 0 <= self.seq_len
        &&& 0 <= self.max_new_tokens
        &&& self.seq_len + self.max_new_tokens <= usize::MAX
        &&& self.generated.len() <= self.max_new_tokens
    }

    /// The loop after a run of tokens, each taken while the loop goes on.
    pub open spec fn after(self, tokens: Seq<i64>) -> Self
        decreases tokens.len(),
    {
        if tokens.len() == 0 {
            self
        } else {
            let before = self.after(tokens.drop_last());
            if before.done {
                before
            } else {
                before.step(tokens.last()).0
            }
        }
    }
}

/// Number of tokens in front of the first end token.
pub open spec fn before_eos(tokens: Seq<i64>) -> int
    decreases tokens.len(),
{
    if tokens.len() == 0 {
        0
    } else {
        let n = before_eos(tokens.drop_last());
        if n < tokens.len() - 1 || is_eos(tokens.last()) {
            n
        } else {
            n + 1
        }
    }
}

/// What a generation comes to when the network predicts `tokens`: everything in
/// front of the first end token, up to the limit.
pub open spec fn emission(max_new_tokens: int, tokens: Seq<i64>) -> Seq<u32> {
    let n = before_eos(tokens);
    let taken = if n <= max_new_tokens {
        n
    } else {
        max_new_tokens
    };
    Seq::new(taken as nat, |i: int| tokens[i] as u32)
}

/// The autoregressive loop of one generation.
pub struct DecodeLoop {
    backend: Backend,
    seq_len: usize,
    max_new_tokens: usize,
    generated_ids: Vec<u32>,
    done: bool,
}

impl View for DecodeLoop {
    type V = LoopModel;

    closed spec fn view(&self) -> LoopModel {
        LoopModel {
            backend: self.backend,
            seq_len: self.seq_len as int,
            max_new_tokens: self.max_new_tokens as int,
            generated: self.generated_ids@,
            done: self.done,
        }
    }
}

impl DecodeLoop {
    /// A loop behind a prompt of `seq_len` tokens.
    pub fn new(backend: Backend, seq_len: usize, max_new_tokens: usize) -> (r: Self)
        requires
            seq_len + max_new_tokens <= usize::MAX,
        ensures
            r@ == LoopModel::fresh(backend, seq_len as int, max_new_tokens as int),
            r@.valid(),
    {
        DecodeLoop { backend, seq_len, max_new_tokens, generated_ids: Vec::new(), done: false }
    }

    /// Takes the token that the network predicts next.
    pub fn advance(&mut self, token: i64) -> (r: DecodeAction)
        requires
            old(self)@.valid(),
            !old(self)@.done,
        ensures
            (final(self)@, r) == old(self)@.step(token),
            final(self)@.valid(),
    {
        if ends(token) {
            self.done = true;
            return DecodeAction::Stop;
        }
        let n: usize = self.generated_ids.len();
        if n >= self.max_new_tokens {
            self.done = true;
            return DecodeAction::Stop;
        }
        let token_id: u32 = #[verifier::truncate] (token as u32);
        self.generated_ids.push(token_id);
        match self.backend {
            Backend::Cpu => {},
            Backend::Cuda => {
                if n + 1 >= self.max_new_tokens {
                    self.done = true;
                    return DecodeAction::Emit { token_id, forward: None };
                }
            },
        }
        let position: usize = self.seq_len + n;
        DecodeAction::Emit { token_id, forward: Some(Forward { token, position }) }
    }

    /// Whether the loop has come to its end.
    pub fn is_done(&self) -> (r: bool)
        ensures
            r == self@.done,
    {
        self.done
    }

    /// Tokens emitted so far.
    pub fn generated(&self) -> (r: &[u32])
        ensures
            r@ == self@.generated,
    {
        self.generated_ids.as_slice()
    }
}

/// Every emitted token is followed by a run of the network at a position for
/// which there is room, or by the end of the loop.
pub proof fn law_forward_position_fits(l: LoopModel, token: i64)
    requires
        l.valid(),
        !l.done,
    ensures
        (match l.step(token).1 {
            DecodeAction::Emit { token_id, forward: Some(forward) } => {
                &&& forward.token == token
                &&& forward.position == l.seq_len + l.generated.len()
                &&& l.seq_len <= forward.position < l.seq_len + l.max_new_tokens
            },
            DecodeAction::Emit { token_id, forward: None } => l.step(token).0.done,
            DecodeAction::Stop => l.step(token).0.done,
        }),
{
}

proof fn lemma_before_eos_bounds(tokens: Seq<i64>)
    ensures
        0 <= before_eos(tokens) <= tokens.len(),
        forall|i: int| 0 <= i < before_eos(tokens) ==> !is_eos(#[trigger] tokens[i]),
        before_eos(tokens) < tokens.len() ==> is_eos(tokens[before_eos(tokens)]),
    decreases tokens.len(),
{
    if tokens.len() > 0 {
        lemma_before_eos_bounds(tokens.drop_last());
        assert forall|i: int| 0 <= i < before_eos(tokens) implies !is_eos(#[trigger] tokens[i]) by {
            if i < tokens.len() - 1 {
                assert(tokens.drop_last()[i] == tokens[i]);
            }
        }
        if before_eos(tokens) < tokens.len() - 1 {
            assert(tokens.drop_last()[before_eos(tokens)] == tokens[before_eos(tokens)]);
        }
    }
}

/// Feeding a loop the tokens that the network predicts emits exactly the tokens
/// in front of the first end token, up to the limit. The loop is at its end behind
/// the first end token, and behind one token more than the limit.
pub proof fn law_loop_emission(
    backend: Backend,
    seq_len: int,
    max_new_tokens: int,
    tokens: Seq<i64>,
)
    requires
        0 <= seq_len,
        0 <= max_new_tokens,
        seq_len + max_new_tokens <= usize::MAX,
    ensures
        ({
            let l = LoopModel::fresh(backend, seq_len, max_new_tokens).after(tokens);
            &&& l.generated == emission(max_new_tokens, tokens)
            &&& l.valid()
            &&& before_eos(tokens) < tokens.len() ==> l.done
            &&& tokens.len() > max_new_tokens ==> l.done
            &&& l.done ==> before_eos(tokens) < tokens.len() || tokens.len() >= max_new_tokens
        }),
    decreases tokens.len(),
{
    let start = LoopModel::fresh(backend, seq_len, max_new_tokens);
    let l = start.after(tokens);
    lemma_before_eos_bounds(tokens);
    if tokens.len() == 0 {
        assert(l.generated =~= emission(max_new_tokens, tokens));
    } else {
        let head = tokens.drop_last();
        law_loop_emission(backend, seq_len, max_new_tokens, head);
        lemma_before_eos_bounds(head);
        let before = start.after(head);
        lemma_after_keeps_setup(start, head);
        assert(forall|i: int| 0 <= i < head.len() ==> head[i] == tokens[i]);
        assert(l.generated =~= emission(max_new_tokens, tokens));
    }
}

proof fn lemma_after_keeps_setup(l: LoopModel, tokens: Seq<i64>)
    ensures
        l.after(tokens).backend == l.backend,
        l.after(tokens).seq_len == l.seq_len,
        l.after(tokens).max_new_tokens == l.max_new_tokens,
    decreases tokens.len(),
{
    if tokens.len() > 0 {
        lemma_after_keeps_setup(l, tokens.drop_last());
    }
}

/// No end token is ever emitted, and never more tokens than the limit.
pub proof fn law_emission_is_text(max_new_tokens: int, tokens: Seq<i64>)
    requires
        0 <= max_new_tokens,
    ensures
        emission(max_new_tokens, tokens).len() <= max_new_tokens,
        emission(max_new_tokens, tokens).len() <= before_eos(tokens),
        forall|i: int|
            0 <= i < emission(max_new_tokens, tokens).len() ==> {
                &&& !is_eos(#[trigger] tokens[i])
                &&& emission(max_new_tokens, tokens)[i] == tokens[i] as u32
            },
{
    lemma_before_eos_bounds(tokens);
}

/// Two tokens end a generation and no others: below its limit, a loop that goes on
/// emits every other token, the one that separates language and text among them. At
/// its limit it emits nothing more.
pub proof fn law_only_end_tokens_end(l: LoopModel, token: i64)
    requires
        l.valid(),
        !l.done,
    ensures
        l.generated.len() < l.max_new_tokens && token != 151643 && token != 151645 ==> {
            &&& l.step(token).1 matches DecodeAction::Emit { token_id, .. } && token_id
                == token as u32
            &&& l.step(token).0.generated == l.generated.push(token as u32)
        },
        l.generated.len() >= l.max_new_tokens || token == 151643 || token == 151645 ==> {
            &&& l.step(token).1 is Stop
            &&& l.step(token).0.generated == l.generated
            &&& l.step(token).0.done
        },
        l.step(token).0.seq_len == l.seq_len,
        l.step(token).0.max_new_tokens == l.max_new_tokens,
        l.step(token).0.backend == l.backend,
{
}

/// Behind an emitted token the network runs again, on that token and at the next
/// position: always on the CPU, and on the device as long as another token is wanted.
pub proof fn law_network_runs_on(l: LoopModel, token: i64)
    requires
        l.valid(),
        !l.done,
        l.generated.len() < l.max_new_tokens,
        token != 151643,
        token != 151645,
    ensures
        l.backend == Backend::Cpu || l.generated.len() + 1 < l.max_new_tokens ==> {
            &&& !l.step(token).0.done
            &&& l.step(token).1 matches DecodeAction::Emit { forward: Some(forward), .. }
                && forward.token == token && forward.position == l.seq_len + l.generated.len()
        },
        l.backend == Backend::Cuda && l.generated.len() + 1 == l.max_new_tokens
            ==> l.step(token).0.done,
{
}

/// A token is part of what a generation comes to exactly where neither end token was
/// predicted up to it and the limit leaves room for it; it stands there in its place.
pub proof fn law_predictions_are_kept(
    backend: Backend,
    seq_len: int,
    max_new_tokens: int,
    tokens: Seq<i64>,
    i: int,
)
    requires
        0 <= seq_len,
        0 <= max_new_tokens,
        seq_len + max_new_tokens <= usize::MAX,
        0 <= i < tokens.len(),
    ensures
        ({
            let out = LoopModel::fresh(backend, seq_len, max_new_tokens).after(tokens).generated;
            let ended = exists|j: int|
                0 <= j <= i && (#[trigger] tokens[j] == 151643 || tokens[j] == 151645);
            &&& i < out.len() <==> i < max_new_tokens && !ended
            &&& i < out.len() ==> out[i] == tokens[i] as u32
            &&& out.len() <= tokens.len()
        }),
{
    law_loop_emission(backend, seq_len, max_new_tokens, tokens);
    lemma_before_eos_bounds(tokens);
    let n = before_eos(tokens);
    if n <= i {
        assert(tokens[n] == 151643 || tokens[n] == 151645);
    }
}

/// A lower limit cuts a generation short and changes nothing else: what it emits is
/// the beginning of what a higher limit emits when the network predicts the same.
pub proof fn law_lower_limit_is_prefix(
    backend: Backend,
    seq_len: int,
    lower: int,
    higher: int,
    tokens: Seq<i64>,
)
    requires
        0 <= seq_len,
        0 <= lower <= higher,
        seq_len + higher <= usize::MAX,
    ensures
        ({
            let short = LoopModel::fresh(backend, seq_len, lower).after(tokens).generated;
            let long = LoopModel::fresh(backend, seq_len, higher).after(tokens).generated;
            &&& short.len() <= long.len()
            &&& short == long.take(short.len() as int)
            &&& short.len() < long.len() ==> short.len() == lower
        }),
{
    law_loop_emission(backend, seq_len, lower, tokens);
    law_loop_emission(backend, seq_len, higher, tokens);
    lemma_before_eos_bounds(tokens);
    let (short, long) = (emission(lower, tokens), emission(higher, tokens));
    assert(short =~= long.take(short.len() as int));
}

/// The backends are equal: they emit the same tokens when the network predicts
/// the same, whatever the limit.
pub proof fn law_backends_agree(seq_len: int, max_new_tokens: int, tokens: Seq<i64>)
    requires
        0 <= seq_len,
        0 <= max_new_tokens,
        seq_len + max_new_tokens <= usize::MAX,
    ensures
        LoopModel::fresh(Backend::Cpu, seq_len, max_new_tokens).after(tokens).generated
            == LoopModel::fresh(Backend::Cuda, seq_len, max_new_tokens).after(tokens).generated,
{
    law_loop_emission(Backend::Cpu, seq_len, max_new_tokens, tokens);
    law_loop_emission(Backend::Cuda, seq_len, max_new_tokens, tokens);
}

/// In a prompt the audio tokens stand between the head and the assistant's
/// turn, so that splitting it there leaves exactly those two parts.
pub proof fn law_prompt_splits(
    start: i64,
    audio: i64,
    end: i64,
    n_audio: nat,
    hint: Seq<u32>,
    prefix: Seq<u32>,
)
    ensures
        ({
            let tokens = prompt_tokens(start, audio, end, n_audio, hint, prefix);
            let at = prompt_head(start).len() as int;
            &&& tokens.len() == 15 + n_audio + hint.len() + prefix.len()
            &&& tokens.take(at) == prompt_head(start)
            &&& tokens.subrange(at, at + n_audio) == Seq::new(n_audio, |i: int| audio)
            &&& tokens.skip(at + n_audio) == prompt_turn(end) + widened(hint) + widened(prefix)
        }),
{
    let tokens = prompt_tokens(start, audio, end, n_audio, hint, prefix);
    let at = prompt_head(start).len() as int;
    assert(tokens.take(at) =~= prompt_head(start));
    assert(tokens.subrange(at, at + n_audio) =~= Seq::new(n_audio, |i: int| audio));
    assert(tokens.skip(at + n_audio) =~= prompt_turn(end) + widened(hint) + widened(prefix));
}

/// A generation starts from the whole prompt: what is in front of the audio, the audio
/// tokens and what is behind them are the prompt, every position is its own number, and
/// there is one for each token of the prompt and each that may be generated.
pub proof fn law_generation_starts_from_the_prompt(
    plan: GenerationPlan,
    input_ids: Seq<i64>,
    audio_start: int,
    n_audio: int,
    max_new_tokens: int,
    i: int,
)
    requires
        0 <= audio_start,
        0 <= n_audio,
        audio_start + n_audio <= input_ids.len(),
        0 <= max_new_tokens,
        input_ids.len() + max_new_tokens <= i64::MAX,
        plan.describes(input_ids, audio_start, n_audio, max_new_tokens),
        0 <= i < input_ids.len() + max_new_tokens,
    ensures
        plan.before_ids@ + input_ids.subrange(audio_start, audio_start + n_audio)
            + plan.after_ids@ == input_ids,
        plan.before_ids@.len() == audio_start,
        plan.input_ids@ == input_ids,
        plan.before_ids@.len() + plan.n_audio + plan.after_ids@.len() == plan.seq_len,
        plan.total_positions - plan.seq_len == max_new_tokens,
        plan.positions@.len() == plan.total_positions,
        plan.positions@[i] == i,
{
    assert(plan.before_ids@ + input_ids.subrange(audio_start, audio_start + n_audio)
        + plan.after_ids@ =~= input_ids);
}

/// A generation starts whenever there is a prompt whose positions, with those of the tokens to
/// come, can be counted. It fails for want of a prompt with the prompt's own error.
pub proof fn law_when_a_generation_starts(
    prompt: Result<(Seq<i64>, int), PromptFailure>,
    n_audio: int,
    max_new_tokens: int,
    r: Result<GenerationPlan, GenerateError>,
)
    requires
        starts(prompt, n_audio, max_new_tokens, r),
    ensures
        r is Ok <==> prompt is Ok && prompt->Ok_0.0.len() + max_new_tokens <= usize::MAX
            && prompt->Ok_0.0.len() + max_new_tokens <= i64::MAX,
        prompt matches Err(e) ==> (r matches Err(GenerateError::Prompt(f)) && f@ == e),
        prompt is Ok && r is Err ==> r->Err_0 is TooLong,
        r matches Ok(plan) ==> plan.input_ids@ == prompt->Ok_0.0 && plan.n_audio == n_audio
            && plan.before_ids@.len() == prompt->Ok_0.0.take(prompt->Ok_0.1).len(),
{
}

} // verus!

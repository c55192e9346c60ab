//! What holds of a whole streaming session, however the audio was split up.
use vstd::prelude::*;

use crate::chunking::{audio_tokens, mel_chunk, token_count};
use crate::layout::{lemma_join, lemma_split};
use crate::streaming::{ActionModel, EncoderDims, Event, Phase, SessionModel};

verus! {

/// How far a sequence of events has come with regard to flushing.
pub enum Stage {
    /// Nothing was flushed.
    Pushing,
    /// The session was flushed once and nothing was pushed since.
    Flushing,
    /// The session went on after a flush.
    Beyond,
}

/// The stage after `events`.
pub open spec fn stage<S, T, E>(events: Seq<Event<S, T, E>>) -> Stage
    decreases events.len(),
{
    if events.len() == 0 {
        Stage::Pushing
    } else {
        let before = stage(events.drop_last());
        match events.last() {
            Event::Flush => if before is Pushing {
                Stage::Flushing
            } else {
                Stage::Beyond
            },
            Event::Push { .. } => if before is Pushing {
                Stage::Pushing
            } else {
                Stage::Beyond
            },
            _ => before,
        }
    }
}

/// The session after `events`.
pub open spec fn run<S, T, E>(dims: EncoderDims, events: Seq<Event<S, T, E>>) -> SessionModel<
    S,
    T,
    E,
>
    decreases events.len(),
{
    if events.len() == 0 {
        SessionModel::fresh(dims)
    } else {
        run(dims, events.drop_last()).step(events.last()).0
    }
}

/// What the session asked for after the last of `events`.
pub open spec fn asked<S, T, E>(dims: EncoderDims, events: Seq<Event<S, T, E>>) -> ActionModel<
    S,
    T,
    E,
> {
    run(dims, events.drop_last()).step(events.last()).1
}

/// Events that arrive when the session waits for them, with answers of the
/// right size.
pub open spec fn allowed<S, T, E>(dims: EncoderDims, events: Seq<Event<S, T, E>>) -> bool
    decreases events.len(),
{
    if events.len() == 0 {
        dims.valid()
    } else {
        let before = run(dims, events.drop_last());
        &&& allowed(dims, events.drop_last())
        &&& before.accepts(events.last())
        &&& before.fits(events.last())
    }
}

/// All convolution tokens that arrived.
pub open spec fn received<S, T, E>(events: Seq<Event<S, T, E>>) -> Seq<T>
    decreases events.len(),
{
    if events.len() == 0 {
        Seq::empty()
    } else {
        match events.last() {
            Event::Tokens { tokens } => received(events.drop_last()) + tokens,
            _ => received(events.drop_last()),
        }
    }
}

/// All convolution tokens that were handed to the transformer.
pub open spec fn handed<S, T, E>(dims: EncoderDims, events: Seq<Event<S, T, E>>) -> Seq<T>
    decreases events.len(),
{
    if events.len() == 0 {
        Seq::empty()
    } else {
        match asked(dims, events) {
            ActionModel::Transformer { tokens, .. } => handed(dims, events.drop_last()) + tokens,
            _ => handed(dims, events.drop_last()),
        }
    }
}

/// Full chunks that were asked for.
pub open spec fn chunks_asked<S, T, E>(dims: EncoderDims, events: Seq<Event<S, T, E>>) -> int
    decreases events.len(),
{
    if events.len() == 0 {
        0
    } else {
        chunks_asked(dims, events.drop_last()) + if asked(dims, events) is ConvStem {
            1int
        } else {
            0
        }
    }
}

/// A session that is driven as it asks stays valid.
pub proof fn law_run_valid<S, T, E>(dims: EncoderDims, events: Seq<Event<S, T, E>>)
    requires
        allowed(dims, events),
    ensures
        run(dims, events).valid(),
        run(dims, events).dims == dims,
    decreases events.len(),
{
    if events.len() == 0 {
        assert(0 * dims.d_model == 0 && 0 * dims.output_dim == 0);
    } else {
        law_run_valid(dims, events.drop_last());
        run(dims, events.drop_last()).law_step_keeps_valid(events.last());
    }
}

/// What can happen to a session.
pub enum Happening<S, T, E> {
    /// A request of the caller, or an answer that the session waits for.
    Event { event: Event<S, T, E> },
    /// The outstanding request failed and was given up.
    Failure,
}

/// The session after everything that happened to it.
pub open spec fn lived<S, T, E>(
    dims: EncoderDims,
    happened: Seq<Happening<S, T, E>>,
) -> SessionModel<S, T, E>
    decreases happened.len(),
{
    if happened.len() == 0 {
        SessionModel::fresh(dims)
    } else {
        let before = lived(dims, happened.drop_last());
        match happened.last() {
            Happening::Event { event } => before.step(event).0,
            Happening::Failure => before.waiting(Phase::Idle),
        }
    }
}

/// All samples that were pushed.
pub open spec fn pushed<S, T, E>(happened: Seq<Happening<S, T, E>>) -> Seq<S>
    decreases happened.len(),
{
    if happened.len() == 0 {
        Seq::empty()
    } else {
        match happened.last() {
            Happening::Event { event: Event::Push { samples } } => pushed(happened.drop_last())
                + samples,
            _ => pushed(happened.drop_last()),
        }
    }
}

/// How many samples were pushed.
pub open spec fn pushed_count<S, T, E>(happened: Seq<Happening<S, T, E>>) -> int
    decreases happened.len(),
{
    if happened.len() == 0 {
        0
    } else {
        pushed_count(happened.drop_last()) + match happened.last() {
            Happening::Event { event: Event::Push { samples } } => samples.len() as int,
            _ => 0,
        }
    }
}

/// The session keeps every sample that was ever pushed, in order, through answers,
/// failures and flushes, so that the sample count is the sum of all pushes.
pub proof fn law_samples_are_all_pushes<S, T, E>(
    dims: EncoderDims,
    happened: Seq<Happening<S, T, E>>,
)
    ensures
        lived(dims, happened).samples == pushed(happened),
        lived(dims, happened).samples.len() == pushed_count(happened),
    decreases happened.len(),
{
    if happened.len() > 0 {
        law_samples_are_all_pushes(dims, happened.drop_last());
    }
}

/// No token is lost, repeated or reordered: what the transformer was given,
/// followed by what still waits for its window, is what the convolutions
/// delivered.
pub proof fn law_tokens_conserved<S, T, E>(dims: EncoderDims, events: Seq<Event<S, T, E>>)
    requires
        allowed(dims, events),
    ensures
        handed(dims, events) + run(dims, events).tokens == received(events),
    decreases events.len(),
{
    if events.len() == 0 {
        assert(handed(dims, events) + run(dims, events).tokens =~= received(events));
    } else {
        let m = run(dims, events.drop_last());
        law_tokens_conserved(dims, events.drop_last());
        law_run_valid(dims, events.drop_last());
        let h = handed(dims, events.drop_last());
        let got = received(events);
        assert(h + m.tokens == received(events.drop_last()));
        m.lemma_step_splits_tokens(events.last());
        let next = m.step(events.last()).0;
        match events.last() {
            Event::Tokens { tokens } => {
                assert(h + (m.tokens + tokens) =~= (h + m.tokens) + tokens);
            },
            _ => {},
        }
        match asked(dims, events) {
            ActionModel::Transformer { tokens, .. } => {
                assert((h + tokens) + next.tokens =~= h + (tokens + next.tokens));
            },
            _ => {},
        }
    }
}

/// Windows handed to the transformer are full, except for the one that a flush
/// runs at the end.
pub proof fn law_windows_full<S, T, E>(dims: EncoderDims, events: Seq<Event<S, T, E>>)
    requires
        allowed(dims, events),
        0 < events.len(),
        asked(dims, events) is Transformer,
    ensures
        asked(dims, events)->tokens.len() == asked(dims, events)->count * dims.d_model,
        run(dims, events).phase is Window ==> asked(dims, events)->count == dims.params.ws,
        !(run(dims, events).phase is Window) ==> {
            &&& run(dims, events).phase is Rest
            &&& 0 < asked(dims, events)->count < dims.params.ws
        },
{
    law_run_valid(dims, events.drop_last());
    law_run_valid(dims, events);
    run(dims, events.drop_last()).lemma_transformer_request(events.last());
}

/// Full chunks are encoded in the order of their frames, each once and without
/// gaps: the chunk asked for as number `n` starts at frame `n * cs`.
pub proof fn law_chunks_in_order<S, T, E>(dims: EncoderDims, events: Seq<Event<S, T, E>>)
    requires
        allowed(dims, events),
    ensures
        (match run(dims, events).phase {
            Phase::Chunks { next, .. } => {
                &&& run(dims, events).processed + next * dims.params.cs == (chunks_asked(
                    dims,
                    events,
                ) - 1) * dims.params.cs
                &&& 0 < events.len()
                &&& asked(dims, events) == (ActionModel::<S, T, E>::ConvStem {
                    mel: mel_chunk(
                        run(dims, events).mel,
                        dims.n_mels as int,
                        run(dims, events).n_frames,
                        (chunks_asked(dims, events) - 1) * dims.params.cs,
                        dims.params.cs as int,
                    ),
                    frames: dims.params.cs as int,
                })
            },
            _ => run(dims, events).processed == chunks_asked(dims, events) * dims.params.cs,
        }),
    decreases events.len(),
{
    let cs = dims.params.cs as int;
    if events.len() == 0 {
        assert(0 * cs == 0);
    } else {
        let m = run(dims, events.drop_last());
        law_chunks_in_order(dims, events.drop_last());
        law_run_valid(dims, events.drop_last());
        let n = chunks_asked(dims, events.drop_last());
        m.lemma_step_chunks(events.last());
        match m.phase {
            Phase::Chunks { next, total, .. } => {
                assert(m.processed + (next + 1) * cs == n * cs) by (nonlinear_arith)
                    requires
                        m.processed + next * cs == (n - 1) * cs,
                ;
            },
            _ => {
                assert(m.processed + 0 * cs == n * cs);
            },
        }
    }
}

/// Tokens counted so far while nothing was flushed, and while a first flush runs.
spec fn counted<S, T, E>(dims: EncoderDims, events: Seq<Event<S, T, E>>) -> bool {
    let m = run(dims, events);
    let cs = dims.params.cs as int;
    let tpc = dims.params.tpc as int;
    let seen = m.pending + m.embedded + m.in_flight();
    let flushing = stage(events) is Flushing;
    stage(events) is Beyond || match m.phase {
        Phase::Chunks { next, total, flushing: f } => seen == (m.processed / cs + next) * tpc && f
            == flushing,
        Phase::Idle => seen == if flushing {
            audio_tokens(cs, m.n_frames)
        } else {
            (m.processed / cs) * tpc
        },
        Phase::AwaitMel { flushing: f } => seen == (m.processed / cs) * tpc && f == flushing,
        Phase::Tail { .. } => seen == (m.processed / cs) * tpc && flushing,
        Phase::Window { flushing: f } => f == flushing && seen == if flushing {
            audio_tokens(cs, m.n_frames)
        } else {
            (m.processed / cs) * tpc
        },
        Phase::Rest { .. } => flushing && seen == audio_tokens(cs, m.n_frames),
    }
}

/// A spectrogram whose frames are `processed` whole chunks and a shorter rest.
proof fn lemma_rest_tokens(cs: int, processed: int, n_frames: int)
    requires
        0 < cs,
        processed % cs == 0,
        0 <= n_frames - processed < cs,
    ensures
        n_frames / cs == processed / cs,
        n_frames % cs == n_frames - processed,
        audio_tokens(cs, n_frames) == (processed / cs) * token_count(cs) + if n_frames > processed {
            token_count(n_frames - processed)
        } else {
            0
        },
{
    lemma_join(processed, cs);
    lemma_split(processed / cs, cs, n_frames - processed);
}

proof fn lemma_counted<S, T, E>(dims: EncoderDims, events: Seq<Event<S, T, E>>)
    requires
        allowed(dims, events),
    ensures
        counted(dims, events),
    decreases events.len(),
{
    let cs = dims.params.cs as int;
    let tpc = dims.params.tpc as int;
    if events.len() == 0 {
        assert(0int / cs == 0) by (nonlinear_arith)
            requires
                0 < cs,
        ;
        assert(0 * tpc == 0);
    } else {
        let m = run(dims, events.drop_last());
        let event = events.last();
        lemma_counted(dims, events.drop_last());
        law_run_valid(dims, events.drop_last());
        law_run_valid(dims, events);
        let after = m.step(event).0;
        match (event, m.phase) {
            (Event::Mel { mel, n_frames }, Phase::AwaitMel { flushing }) => {
                m.lemma_new_chunks_bounds(n_frames);
                if m.new_chunks(n_frames) > 0 {
                    assert(m.processed / cs + 0 == m.processed / cs);
                } else if flushing {
                    lemma_rest_tokens(cs, m.processed, n_frames);
                }
            },
            (Event::Tokens { tokens }, Phase::Chunks { next, total, flushing }) => {
                let q = m.processed / cs;
                assert((q + next) * tpc + tpc == (q + next + 1) * tpc) by (nonlinear_arith);
                lemma_join(m.processed, cs);
                assert(m.processed + total * cs == (q + total) * cs) by (nonlinear_arith)
                    requires
                        q * cs == m.processed,
                ;
                lemma_split(q + total, cs, 0);
                if next + 1 == total && flushing {
                    assert((total + 1) * cs == total * cs + cs) by (nonlinear_arith);
                    lemma_rest_tokens(cs, m.processed + total * cs, m.n_frames);
                }
            },
            (Event::Tokens { tokens }, Phase::Tail { frames }) => {
                lemma_rest_tokens(cs, m.processed, m.n_frames);
            },
            _ => {},
        }
    }
}

/// One flush after any pushes embeds exactly the tokens that the spectrogram of
/// the whole audio has, and leaves none waiting.
pub proof fn law_flush_embeds_all<S, T, E>(dims: EncoderDims, events: Seq<Event<S, T, E>>)
    requires
        allowed(dims, events),
        stage(events) is Flushing,
        run(dims, events).phase is Idle,
    ensures
        asked(dims, events) == (ActionModel::<S, T, E>::Flushed {
            embeddings: run(dims, events).embeddings,
        }),
        run(dims, events).pending == 0,
        run(dims, events).embedded == audio_tokens(
            dims.params.cs as int,
            run(dims, events).n_frames,
        ),
        run(dims, events).embeddings.len() == audio_tokens(
            dims.params.cs as int,
            run(dims, events).n_frames,
        ) * dims.output_dim,
{
    law_run_valid(dims, events);
    lemma_counted(dims, events);
    lemma_counted(dims, events.drop_last());
    law_run_valid(dims, events.drop_last());
    run(dims, events.drop_last()).lemma_idle_after_flush(events.last());
}

/// How the audio was split over the pushes does not change how many tokens a
/// flush embeds: only the length of the final spectrogram does.
pub proof fn law_split_independent<S, T, E>(
    dims: EncoderDims,
    one: Seq<Event<S, T, E>>,
    two: Seq<Event<S, T, E>>,
)
    requires
        allowed(dims, one),
        allowed(dims, two),
        stage(one) is Flushing,
        stage(two) is Flushing,
        run(dims, one).phase is Idle,
        run(dims, two).phase is Idle,
        run(dims, one).n_frames == run(dims, two).n_frames,
    ensures
        run(dims, one).embedded == run(dims, two).embedded,
        run(dims, one).embeddings.len() == run(dims, two).embeddings.len(),
{
    law_flush_embeds_all(dims, one);
    law_flush_embeds_all(dims, two);
}

/// All embeddings that arrived.
pub open spec fn answered<S, T, E>(events: Seq<Event<S, T, E>>) -> Seq<E>
    decreases events.len(),
{
    if events.len() == 0 {
        Seq::empty()
    } else {
        match events.last() {
            Event::Embeddings { out } => answered(events.drop_last()) + out,
            _ => answered(events.drop_last()),
        }
    }
}

/// The embeddings of a session are the transformer's answers, one behind the other, and
/// how the audio was split or flushed changes nothing in that. The spectrogram is the one
/// that arrived last.
pub proof fn law_embeddings_are_all_answers<S, T, E>(dims: EncoderDims, events: Seq<Event<S, T, E>>)
    requires
        allowed(dims, events),
    ensures
        run(dims, events).embeddings == answered(events),
        0 < events.len() ==> match events.last() {
            Event::Mel { mel, n_frames } => {
                &&& run(dims, events).mel == mel
                &&& run(dims, events).n_frames == n_frames
            },
            _ => {
                &&& run(dims, events).mel == run(dims, events.drop_last()).mel
                &&& run(dims, events).n_frames == run(dims, events.drop_last()).n_frames
            },
        },
        0 < events.len() && asked(dims, events) is Flushed ==> asked(dims, events)->embeddings
            == answered(events),
    decreases events.len(),
{
    if events.len() > 0 {
        law_embeddings_are_all_answers(dims, events.drop_last());
    }
}

/// The short last chunk is all frames behind the full ones, and is padded to the length of
/// a full chunk by whoever encodes it.
pub proof fn law_tail_is_what_is_left<S, T, E>(dims: EncoderDims, events: Seq<Event<S, T, E>>)
    requires
        allowed(dims, events),
        run(dims, events).phase is Tail,
    ensures
        0 < events.len(),
        ({
            let n = run(dims, events).n_frames;
            let done = chunks_asked(dims, events) * dims.params.cs;
            &&& 0 < n - done < dims.params.cs
            &&& asked(dims, events) == (ActionModel::<S, T, E>::ConvStemTail {
                mel: mel_chunk(run(dims, events).mel, dims.n_mels as int, n, done, n - done),
                frames: n - done,
                chunk_frames: dims.params.cs as int,
            })
        }),
{
    law_run_valid(dims, events);
    law_chunks_in_order(dims, events);
    if events.len() > 0 {
        law_run_valid(dims, events.drop_last());
    }
}

proof fn lemma_no_window_waits<S, T, E>(dims: EncoderDims, events: Seq<Event<S, T, E>>)
    requires
        allowed(dims, events),
    ensures
        run(dims, events).phase is Idle || run(dims, events).phase is AwaitMel ==> run(
            dims,
            events,
        ).pending < dims.params.ws,
    decreases events.len(),
{
    law_run_valid(dims, events);
    if events.len() > 0 {
        law_run_valid(dims, events.drop_last());
        lemma_no_window_waits(dims, events.drop_last());
    }
}

/// A push leaves nothing undone that could be done: every full chunk of the spectrogram is
/// encoded and every full window embedded before the next samples are asked for.
pub proof fn law_push_leaves_nothing_ready<S, T, E>(dims: EncoderDims, events: Seq<Event<S, T, E>>)
    requires
        allowed(dims, events),
        0 < events.len(),
        asked(dims, events) is Pushed,
    ensures
        run(dims, events).phase is Idle,
        run(dims, events).n_frames < (chunks_asked(dims, events) + 1) * dims.params.cs,
        run(dims, events).pending < dims.params.ws,
{
    let before = run(dims, events.drop_last());
    let cs = dims.params.cs as int;
    law_run_valid(dims, events.drop_last());
    lemma_no_window_waits(dims, events);
    law_chunks_in_order(dims, events);
    let n = run(dims, events).n_frames;
    before.lemma_new_chunks_bounds(n);
    assert((chunks_asked(dims, events) + 1) * cs == chunks_asked(dims, events) * cs + cs)
        by (nonlinear_arith);
    assert((0 + 1) * cs == cs) by (nonlinear_arith);
}

/// Samples and a flush both begin with the spectrogram of all samples so far, and only a
/// flush goes on to the frames behind the last full chunk.
pub proof fn law_requests_begin_with_the_spectrogram<S, T, E>(
    dims: EncoderDims,
    events: Seq<Event<S, T, E>>,
)
    requires
        allowed(dims, events),
        0 < events.len(),
        events.last() is Push || events.last() is Flush,
    ensures
        asked(dims, events) is ExtractMel,
        run(dims, events).phase == (Phase::AwaitMel { flushing: events.last() is Flush }),
{
}

/// Nothing shorter than a full chunk or a full window is encoded before a flush.
pub proof fn law_only_a_flush_encodes_the_rest<S, T, E>(
    dims: EncoderDims,
    events: Seq<Event<S, T, E>>,
)
    requires
        allowed(dims, events),
        stage(events) is Pushing,
    ensures
        !(run(dims, events).phase is Tail),
        !(run(dims, events).phase is Rest),
        0 < events.len() ==> !(asked(dims, events) is Flushed),
        0 < events.len() ==> !(asked(dims, events) is ConvStemTail),
{
    lemma_counted(dims, events);
    law_run_valid(dims, events);
    if events.len() > 0 {
        law_run_valid(dims, events.drop_last());
        lemma_counted(dims, events.drop_last());
    }
}

} // verus!

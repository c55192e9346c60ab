//! Chunked streaming session: accepts audio as it arrives and decides what to
//! encode next.
//!
//! The session never computes on samples itself. Every call answers with the
//! next thing to do (extract the spectrogram, run the convolution stem on a
//! chunk, run the transformer on a window), and the answer to that is handed
//! back through `on_mel`, `on_tokens` and `on_embeddings`. The CPU and the GPU
//! encoder differ only in the element types of the tokens and embeddings.
use vstd::prelude::*;

use crate::buffers::{append_copy, drain_front};
use crate::chunking::{extract_mel_chunk, feo, mel_chunk, token_count, ChunkParams};
use crate::layout::{lemma_grows, lemma_join, lemma_monotone, lemma_split};

verus! {

/// Sizes of the encoder that a session feeds.
#[derive(Clone, Copy)]
pub struct EncoderDims {
    /// Chunk and window sizes.
    pub params: ChunkParams,
    /// Mel bins in a frame.
    pub n_mels: usize,
    /// Width of a convolution token.
    pub d_model: usize,
    /// Width of an embedding.
    pub output_dim: usize,
}

impl EncoderDims {
    /// Sizes for which chunks and windows are not empty, and no token is without a
    /// number, so that a buffer that fits memory holds a countable number of tokens.
    pub open spec fn valid(self) -> bool {
        &&& 0 < self.params.cs
        &&& self.params.tpc == token_count(self.params.cs as int)
        &&& 0 < self.params.ws
        &&& 0 < self.d_model
        &&& 0 < self.output_dim
    }
}

/// What the session is waiting for.
#[derive(Clone, Copy)]
pub enum Phase {
    /// Nothing: samples can be pushed or the session flushed.
    Idle,
    /// The spectrogram of all samples so far.
    AwaitMel { flushing: bool },
    /// The tokens of full chunk `next` of the `total` new ones.
    Chunks { next: usize, total: usize, flushing: bool },
    /// The tokens of a shorter last chunk.
    Tail { frames: usize },
    /// The embeddings of one full window.
    Window { flushing: bool },
    /// The embeddings of the last, shorter window.
    Rest { count: usize },
}

/// What the caller has to do next.
pub enum Action<S, T, E> {
    /// Extract the spectrogram of all samples and call `on_mel`.
    ExtractMel,
    /// Run the convolution stem on a full chunk and call `on_tokens`.
    ConvStem { mel: Vec<S>, frames: usize },
    /// Run the convolution stem on a chunk that is shorter than `chunk_frames`
    /// and call `on_tokens`.
    ConvStemTail { mel: Vec<S>, frames: usize, chunk_frames: usize },
    /// Run the transformer on `count` tokens and call `on_embeddings`.
    Transformer { tokens: Vec<T>, count: usize },
    /// Every complete chunk is encoded; more samples can be pushed.
    Pushed,
    /// All audio is encoded; these are the embeddings.
    Flushed { embeddings: Vec<E> },
}

/// Mathematical value of an [`Action`].
#[verifier::ext_equal]
pub enum ActionModel<S, T, E> {
    ExtractMel,
    ConvStem { mel: Seq<S>, frames: int },
    ConvStemTail { mel: Seq<S>, frames: int, chunk_frames: int },
    Transformer { tokens: Seq<T>, count: int },
    Pushed,
    Flushed { embeddings: Seq<E> },
}

impl<S, T, E> View for Action<S, T, E> {
    type V = ActionModel<S, T, E>;

    open spec fn view(&self) -> ActionModel<S, T, E> {
        match *self {
            Action::ExtractMel => ActionModel::ExtractMel,
            Action::ConvStem { mel, frames } => ActionModel::ConvStem {
                mel: mel@,
                frames: frames as int,
            },
            Action::ConvStemTail { mel, frames, chunk_frames } => ActionModel::ConvStemTail {
                mel: mel@,
                frames: frames as int,
                chunk_frames: chunk_frames as int,
            },
            Action::Transformer { tokens, count } => ActionModel::Transformer {
                tokens: tokens@,
                count: count as int,
            },
            Action::Pushed => ActionModel::Pushed,
            Action::Flushed { embeddings } => ActionModel::Flushed { embeddings: embeddings@ },
        }
    }
}

/// Mathematical value of a session.
#[verifier::ext_equal]
pub struct SessionModel<S, T, E> {
    /// Sizes of the encoder.
    pub dims: EncoderDims,
    /// All samples pushed so far.
    pub samples: Seq<S>,
    /// Mel frames that have been encoded as part of full chunks.
    pub processed: int,
    /// The spectrogram extracted last, `[n_mels, n_frames]`.
    pub mel: Seq<S>,
    /// Frames of that spectrogram.
    pub n_frames: int,
    /// Convolution tokens that wait for their window to fill.
    pub tokens: Seq<T>,
    /// How many tokens wait.
    pub pending: int,
    /// Embeddings of all finished windows.
    pub embeddings: Seq<E>,
    /// How many tokens those windows held.
    pub embedded: int,
    /// What the session waits for.
    pub phase: Phase,
}

/// Answers and requests that drive a session.
pub enum Event<S, T, E> {
    Push { samples: Seq<S> },
    Flush,
    Mel { mel: Seq<S>, n_frames: int },
    Tokens { tokens: Seq<T> },
    Embeddings { out: Seq<E> },
}

impl<S, T, E> SessionModel<S, T, E> {
    /// The session before any audio arrived.
    pub open spec fn fresh(dims: EncoderDims) -> Self {
        SessionModel {
            dims,
            samples: Seq::empty(),
            processed: 0,
            mel: Seq::empty(),
            n_frames: 0,
            tokens: Seq::empty(),
            pending: 0,
            embeddings: Seq::empty(),
            embedded: 0,
            phase: Phase::Idle,
        }
    }

    /// The session with another thing to wait for.
    pub open spec fn waiting(self, phase: Phase) -> Self {
        SessionModel { phase, ..self }
    }

    /// Asks for the transformer while a full window waits; after that a push
    /// looks at the spectrogram again and a flush runs what is left.
    pub open spec fn windows(self, flushing: bool) -> (Self, ActionModel<S, T, E>) {
        let ws = self.dims.params.ws as int;
        let width = ws * self.dims.d_model;
        if self.pending >= ws {
            (
                SessionModel {
                    tokens: self.tokens.skip(width),
                    pending: self.pending - ws,
                    phase: Phase::Window { flushing },
                    ..self
                },
                ActionModel::Transformer { tokens: self.tokens.take(width), count: ws },
            )
        } else if !flushing {
            (self.waiting(Phase::AwaitMel { flushing: false }), ActionModel::ExtractMel)
        } else if self.pending == 0 {
            (
                self.waiting(Phase::Idle),
                ActionModel::Flushed { embeddings: self.embeddings },
            )
        } else {
            (
                SessionModel {
                    tokens: Seq::empty(),
                    pending: 0,
                    phase: Phase::Rest { count: self.pending as usize },
                    ..self
                },
                ActionModel::Transformer { tokens: self.tokens, count: self.pending },
            )
        }
    }

    /// Asks for the tokens of full chunk `next`.
    pub open spec fn chunk(self, next: int, total: int, flushing: bool) -> (
        Self,
        ActionModel<S, T, E>,
    ) {
        let cs = self.dims.params.cs as int;
        (
            self.waiting(Phase::Chunks { next: next as usize, total: total as usize, flushing }),
            ActionModel::ConvStem {
                mel: mel_chunk(
                    self.mel,
                    self.dims.n_mels as int,
                    self.n_frames,
                    self.processed + next * cs,
                    cs,
                ),
                frames: cs,
            },
        )
    }

    /// Asks for the tokens of the frames behind the last full chunk, if any.
    pub open spec fn tail(self) -> (Self, ActionModel<S, T, E>) {
        let frames = self.n_frames - self.processed;
        if frames > 0 {
            (
                self.waiting(Phase::Tail { frames: frames as usize }),
                ActionModel::ConvStemTail {
                    mel: mel_chunk(
                        self.mel,
                        self.dims.n_mels as int,
                        self.n_frames,
                        self.processed,
                        frames,
                    ),
                    frames,
                    chunk_frames: self.dims.params.cs as int,
                },
            )
        } else {
            self.windows(true)
        }
    }

    /// Full chunks of a spectrogram that have not been encoded yet.
    pub open spec fn new_chunks(self, n_frames: int) -> int {
        if n_frames > self.processed {
            (n_frames - self.processed) / (self.dims.params.cs as int)
        } else {
            0
        }
    }

    /// The session after `event`, and what it asks for.
    pub open spec fn step(self, event: Event<S, T, E>) -> (Self, ActionModel<S, T, E>) {
        let params = self.dims.params;
        match (event, self.phase) {
            (Event::Push { samples }, _) => (
                SessionModel {
                    samples: self.samples + samples,
                    phase: Phase::AwaitMel { flushing: false },
                    ..self
                },
                ActionModel::ExtractMel,
            ),
            (Event::Flush, _) => (
                self.waiting(Phase::AwaitMel { flushing: true }),
                ActionModel::ExtractMel,
            ),
            (Event::Mel { mel, n_frames }, Phase::AwaitMel { flushing }) => {
                let seen = SessionModel { mel, n_frames, ..self };
                if self.new_chunks(n_frames) > 0 {
                    seen.chunk(0, self.new_chunks(n_frames), flushing)
                } else if flushing {
                    seen.tail()
                } else {
                    (seen.waiting(Phase::Idle), ActionModel::Pushed)
                }
            },
            (Event::Tokens { tokens }, Phase::Chunks { next, total, flushing }) => {
                let got = SessionModel {
                    tokens: self.tokens + tokens,
                    pending: self.pending + params.tpc,
                    ..self
                };
                let done = SessionModel { processed: self.processed + total * params.cs, ..got };
                if next + 1 < total {
                    got.chunk(next + 1, total as int, flushing)
                } else if flushing {
                    done.tail()
                } else {
                    done.windows(false)
                }
            },
            (Event::Tokens { tokens }, Phase::Tail { frames }) => SessionModel {
                tokens: self.tokens + tokens,
                pending: self.pending + token_count(frames as int),
                ..self
            }.windows(true),
            (Event::Embeddings { out }, Phase::Window { flushing }) => SessionModel {
                embeddings: self.embeddings + out,
                embedded: self.embedded + params.ws,
                ..self
            }.windows(flushing),
            (Event::Embeddings { out }, Phase::Rest { count }) => (
                SessionModel {
                    embeddings: self.embeddings + out,
                    embedded: self.embedded + count,
                    phase: Phase::Idle,
                    ..self
                },
                ActionModel::Flushed { embeddings: self.embeddings + out },
            ),
            _ => (self, ActionModel::Pushed),
        }
    }

    /// Tokens that the outstanding request has to answer with.
    pub open spec fn tokens_due(self) -> int {
        match self.phase {
            Phase::Chunks { .. } => self.dims.params.tpc as int,
            Phase::Tail { frames } => token_count(frames as int),
            _ => 0,
        }
    }

    /// Tokens whose embeddings are outstanding.
    pub open spec fn in_flight(self) -> int {
        match self.phase {
            Phase::Window { .. } => self.dims.params.ws as int,
            Phase::Rest { count } => count as int,
            _ => 0,
        }
    }

    /// Whether `event` may arrive now, with an answer of the right size.
    pub open spec fn accepts(self, event: Event<S, T, E>) -> bool {
        match event {
            Event::Push { .. } => self.phase is Idle,
            Event::Flush => self.phase is Idle,
            Event::Mel { mel, n_frames } => {
                &&& self.phase is AwaitMel
                &&& 0 <= n_frames <= usize::MAX
                &&& self.dims.n_mels * n_frames <= mel.len()
                &&& self.phase->AwaitMel_flushing ==> self.processed <= n_frames
            },
            Event::Tokens { tokens } => {
                &&& self.phase is Chunks || self.phase is Tail
                &&& tokens.len() == self.tokens_due() * self.dims.d_model
            },
            Event::Embeddings { out } => {
                &&& self.phase is Window || self.phase is Rest
                &&& out.len() == self.in_flight() * self.dims.output_dim
            },
        }
    }

    /// Whether the buffers can hold what `event` brings.
    pub open spec fn fits(self, event: Event<S, T, E>) -> bool {
        match event {
            Event::Tokens { tokens } => self.tokens.len() + tokens.len() <= usize::MAX,
            Event::Embeddings { out } => self.embeddings.len() + out.len() <= usize::MAX,
            _ => true,
        }
    }

    /// What holds of a session at any time.
    pub open spec fn valid(self) -> bool {
        let cs = self.dims.params.cs as int;
        &&& self.dims.valid()
        &&& 0 <= self.processed <= usize::MAX
        &&& self.processed % cs == 0
        &&& 0 <= self.n_frames <= usize::MAX
        &&& 0 <= self.pending <= usize::MAX
        &&& self.tokens.len() == self.pending * self.dims.d_model
        &&& 0 <= self.embedded <= usize::MAX
        &&& self.embeddings.len() == self.embedded * self.dims.output_dim
        &&& match self.phase {
            Phase::Chunks { next, total, flushing } => {
                &&& next < total
                &&& self.dims.n_mels * self.n_frames <= self.mel.len()
                &&& self.processed + total * cs <= self.n_frames
                &&& self.n_frames < self.processed + (total + 1) * cs
            },
            Phase::Tail { frames } => {
                &&& 0 < frames < cs
                &&& frames == self.n_frames - self.processed
            },
            Phase::Rest { count } => 0 < count && self.pending == 0,
            _ => true,
        }
    }
}


/// A full window can be taken out of the waiting tokens.
proof fn lemma_window_fits(pending: int, ws: int, dm: int, len: int)
    requires
        0 < ws <= pending,
        0 < dm,
        len == pending * dm,
    ensures
        0 < ws * dm <= len,
        len - ws * dm == (pending - ws) * dm,
{
    lemma_grows(ws, dm);
    lemma_monotone(ws, dm, pending, dm);
    assert(len - ws * dm == (pending - ws) * dm) by (nonlinear_arith)
        requires
            len == pending * dm,
    ;
}

impl<S, T, E> SessionModel<S, T, E> {
    /// Asking for windows keeps the session valid.
    proof fn lemma_windows_valid(self, flushing: bool)
        requires
            self.waiting(Phase::Idle).valid(),
        ensures
            self.windows(flushing).0.valid(),
    {
        let ws = self.dims.params.ws as int;
        let dm = self.dims.d_model as int;
        if self.pending >= ws {
            lemma_window_fits(self.pending, ws, dm, self.tokens.len() as int);
        } else if flushing && self.pending != 0 {
            assert(0 * dm == 0);
        }
    }

    /// Asking for the tail keeps the session valid.
    proof fn lemma_tail_valid(self)
        requires
            self.waiting(Phase::Idle).valid(),
            0 <= self.n_frames - self.processed < self.dims.params.cs,
        ensures
            self.tail().0.valid(),
    {
        if self.n_frames - self.processed == 0 {
            self.lemma_windows_valid(true);
        }
    }

    /// The number of new full chunks is the number of whole `cs` in what is left.
    proof fn lemma_new_chunks(self, n_frames: int)
        requires
            self.dims.valid(),
            0 <= self.processed,
            0 <= n_frames,
        ensures
            0 <= self.new_chunks(n_frames),
            self.processed <= n_frames ==> {
                let cs = self.dims.params.cs as int;
                let n = self.new_chunks(n_frames);
                self.processed + n * cs <= n_frames < self.processed + (n + 1) * cs
            },
    {
        let cs = self.dims.params.cs as int;
        if n_frames > self.processed {
            let left = n_frames - self.processed;
            lemma_join(left, cs);
            assert(0 <= left / cs) by (nonlinear_arith)
                requires
                    0 <= left,
                    0 < cs,
            ;
            assert((left / cs + 1) * cs == (left / cs) * cs + cs) by (nonlinear_arith);
        } else {
            assert(0 * cs == 0 && (0 + 1) * cs == cs) by (nonlinear_arith);
        }
    }

    /// Frames that are a whole number of chunks stay so.
    proof fn lemma_processed_whole(self, total: int)
        requires
            self.dims.valid(),
            self.processed % (self.dims.params.cs as int) == 0,
        ensures
            (self.processed + total * self.dims.params.cs) % (self.dims.params.cs as int) == 0,
    {
        let cs = self.dims.params.cs as int;
        lemma_join(self.processed, cs);
        let q = self.processed / cs;
        assert(q * cs + total * cs == (q + total) * cs) by (nonlinear_arith);
        lemma_split(q + total, cs, 0);
    }

    /// Adding `more` tokens of width `dm` keeps the count in step with the buffer.
    proof fn lemma_counts_add(n: int, more: int, width: int)
        ensures
            n * width + more * width == (n + more) * width,
    {
        assert(n * width + more * width == (n + more) * width) by (nonlinear_arith);
    }

    /// Every accepted event leads from a valid session to a valid session.
    pub proof fn law_step_keeps_valid(self, event: Event<S, T, E>)
        requires
            self.valid(),
            self.accepts(event),
            self.fits(event),
        ensures
            self.step(event).0.valid(),
            self.step(event).0.dims == self.dims,
    {
        let params = self.dims.params;
        let cs = params.cs as int;
        let dm = self.dims.d_model as int;
        let od = self.dims.output_dim as int;
        match (event, self.phase) {
            (Event::Mel { mel, n_frames }, Phase::AwaitMel { flushing }) => {
                let seen = SessionModel { mel, n_frames, ..self };
                self.lemma_new_chunks(n_frames);
                let n = self.new_chunks(n_frames);
                if n > 0 {
                    lemma_grows(n, cs);
                } else if flushing {
                    assert(0 * cs == 0 && (0 + 1) * cs == cs) by (nonlinear_arith);
                    seen.lemma_tail_valid();
                }
            },
            (Event::Tokens { tokens }, Phase::Chunks { next, total, flushing }) => {
                Self::lemma_counts_add(self.pending, params.tpc as int, dm);
                let got = SessionModel {
                    tokens: self.tokens + tokens,
                    pending: self.pending + params.tpc,
                    ..self
                };
                lemma_grows(got.pending, dm);
                let done = SessionModel { processed: self.processed + total * params.cs, ..got };
                if next + 1 < total {
                } else {
                    self.lemma_processed_whole(total as int);
                    lemma_monotone(0, 0, total as int, cs);
                    assert((total + 1) * cs == total * cs + cs) by (nonlinear_arith);
                    if flushing {
                        done.lemma_tail_valid();
                    } else {
                        done.lemma_windows_valid(false);
                    }
                }
            },
            (Event::Tokens { tokens }, Phase::Tail { frames }) => {
                Self::lemma_counts_add(self.pending, token_count(frames as int), dm);
                let got = SessionModel {
                    tokens: self.tokens + tokens,
                    pending: self.pending + token_count(frames as int),
                    ..self
                };
                lemma_grows(got.pending, dm);
                got.lemma_windows_valid(true);
            },
            (Event::Embeddings { out }, Phase::Window { flushing }) => {
                Self::lemma_counts_add(self.embedded, params.ws as int, od);
                let got = SessionModel {
                    embeddings: self.embeddings + out,
                    embedded: self.embedded + params.ws,
                    ..self
                };
                lemma_grows(got.embedded, od);
                got.lemma_windows_valid(flushing);
            },
            (Event::Embeddings { out }, Phase::Rest { count }) => {
                Self::lemma_counts_add(self.embedded, count as int, od);
                lemma_grows(self.embedded + count, od);
            },
            _ => {},
        }
    }
}

impl<S, T, E> SessionModel<S, T, E> {
    /// What a step hands to the transformer and what it keeps waiting are
    /// together what waited before and what arrived.
    pub proof fn lemma_step_splits_tokens(self, event: Event<S, T, E>)
        requires
            self.valid(),
            self.accepts(event),
            self.fits(event),
        ensures
            ({
                let before = match event {
                    Event::Tokens { tokens } => self.tokens + tokens,
                    _ => self.tokens,
                };
                let (after, action) = self.step(event);
                match action {
                    ActionModel::Transformer { tokens, .. } => tokens + after.tokens == before,
                    _ => after.tokens == before,
                }
            }),
    {
        let before = match event {
            Event::Tokens { tokens } => self.tokens + tokens,
            _ => self.tokens,
        };
        let ws = self.dims.params.ws as int;
        let dm = self.dims.d_model as int;
        let (after, action) = self.step(event);
        self.law_step_keeps_valid(event);
        match action {
            ActionModel::Transformer { tokens, count } => {
                if after.phase is Window {
                    Self::lemma_counts_add(ws, after.pending, dm);
                    lemma_monotone(0, 0, ws, dm);
                    lemma_monotone(0, 0, after.pending, dm);
                    self.lemma_request_length(event);
                }
                assert(tokens + after.tokens =~= before);
            },
            _ => {},
        }
    }

    /// The waiting tokens before a request make up a whole number of rows.
    proof fn lemma_request_length(self, event: Event<S, T, E>)
        requires
            self.valid(),
            self.accepts(event),
            self.fits(event),
        ensures
            self.step(event).1 is Transformer ==> self.step(event).1->tokens.len()
                == self.step(event).1->count * self.dims.d_model,
            self.step(event).0.phase is Window ==> {
                let before = match event {
                    Event::Tokens { tokens } => self.tokens + tokens,
                    _ => self.tokens,
                };
                self.dims.params.ws * self.dims.d_model <= before.len()
            },
    {
        let params = self.dims.params;
        let ws = params.ws as int;
        let dm = self.dims.d_model as int;
        match (event, self.phase) {
            (Event::Mel { mel, n_frames }, Phase::AwaitMel { flushing }) => {
                if self.pending >= ws {
                    lemma_window_fits(self.pending, ws, dm, self.tokens.len() as int);
                }
            },
            (Event::Tokens { tokens }, _) => {
                Self::lemma_counts_add(self.pending, self.tokens_due(), dm);
                let all = self.pending + self.tokens_due();
                if all >= ws {
                    lemma_window_fits(all, ws, dm, (self.tokens + tokens).len() as int);
                }
            },
            (Event::Embeddings { .. }, _) => {
                if self.pending >= ws {
                    lemma_window_fits(self.pending, ws, dm, self.tokens.len() as int);
                }
            },
            _ => {},
        }
    }

    /// A transformer request names as many tokens as it brings, and only the
    /// last one of a flush is shorter than a window.
    pub proof fn lemma_transformer_request(self, event: Event<S, T, E>)
        requires
            self.valid(),
            self.accepts(event),
            self.fits(event),
            self.step(event).1 is Transformer,
        ensures
            self.step(event).1->tokens.len() == self.step(event).1->count * self.dims.d_model,
            self.step(event).0.phase is Window || self.step(event).0.phase is Rest,
            self.step(event).0.phase is Window ==> self.step(event).1->count
                == self.dims.params.ws,
            self.step(event).0.phase is Rest ==> 0 < self.step(event).1->count
                < self.dims.params.ws,
    {
        self.lemma_request_length(event);
        self.law_step_keeps_valid(event);
    }

    /// How the chunk requests go on from one step to the next.
    pub proof fn lemma_step_chunks(self, event: Event<S, T, E>)
        requires
            self.valid(),
            self.accepts(event),
            self.fits(event),
        ensures
            ({
                let (after, action) = self.step(event);
                let cs = self.dims.params.cs;
                &&& action is ConvStem <==> after.phase is Chunks
                &&& action is ConvStem ==> action == (ActionModel::<S, T, E>::ConvStem {
                    mel: mel_chunk(
                        after.mel,
                        self.dims.n_mels as int,
                        after.n_frames,
                        after.processed + after.phase->next * cs,
                        cs as int,
                    ),
                    frames: cs as int,
                })
                &&& match (self.phase, after.phase) {
                    (Phase::Chunks { next, .. }, Phase::Chunks { next: then, .. }) => {
                        &&& then == next + 1
                        &&& after.processed == self.processed
                    },
                    (Phase::Chunks { next, .. }, _) => after.processed == self.processed + (next
                        + 1) * cs,
                    (_, Phase::Chunks { next: then, .. }) => {
                        &&& then == 0
                        &&& after.processed == self.processed
                    },
                    _ => after.processed == self.processed,
                }
            }),
    {
        self.law_step_keeps_valid(event);
    }

    /// Bounds of the number of new full chunks.
    pub proof fn lemma_new_chunks_bounds(self, n_frames: int)
        requires
            self.valid(),
            0 <= n_frames <= usize::MAX,
        ensures
            0 <= self.new_chunks(n_frames) <= usize::MAX,
            self.processed <= n_frames && self.new_chunks(n_frames) == 0 ==> n_frames
                - self.processed < self.dims.params.cs,
    {
        let cs = self.dims.params.cs as int;
        self.lemma_new_chunks(n_frames);
        let n = self.new_chunks(n_frames);
        lemma_grows(n, cs);
        if self.processed <= n_frames && n == 0 {
            assert((0 + 1) * cs == cs) by (nonlinear_arith);
        }
    }

    /// A session that has come to rest while flushing has just delivered its
    /// embeddings, with nothing left to wait for.
    pub proof fn lemma_idle_after_flush(self, event: Event<S, T, E>)
        requires
            self.valid(),
            self.accepts(event),
            self.fits(event),
            self.step(event).0.phase is Idle,
            (match self.phase {
                Phase::AwaitMel { flushing } => flushing,
                Phase::Chunks { flushing, .. } => flushing,
                Phase::Window { flushing } => flushing,
                _ => true,
            }),
        ensures
            self.step(event).0.pending == 0,
            self.step(event).1 == (ActionModel::<S, T, E>::Flushed {
                embeddings: self.step(event).0.embeddings,
            }),
    {
    }
}

/// A streaming session over samples `S`, convolution tokens `T` and embeddings `E`.
pub struct AsrStreamingSession<S, T, E> {
    dims: EncoderDims,
    sample_buffer: Vec<S>,
    processed_mel_frames: usize,
    mel: Vec<S>,
    n_frames: usize,
    token_buffer: Vec<T>,
    n_conv_tokens: usize,
    embeddings: Vec<E>,
    n_embed_tokens: usize,
    phase: Phase,
}

impl<S, T, E> View for AsrStreamingSession<S, T, E> {
    type V = SessionModel<S, T, E>;

    closed spec fn view(&self) -> SessionModel<S, T, E> {
        SessionModel {
            dims: self.dims,
            samples: self.sample_buffer@,
            processed: self.processed_mel_frames as int,
            mel: self.mel@,
            n_frames: self.n_frames as int,
            tokens: self.token_buffer@,
            pending: self.n_conv_tokens as int,
            embeddings: self.embeddings@,
            embedded: self.n_embed_tokens as int,
            phase: self.phase,
        }
    }
}

impl<S: Copy, T: Copy, E: Copy> AsrStreamingSession<S, T, E> {
    /// A session for an encoder with the given window configuration. The
    /// configuration has to fill at least one chunk per window.
    pub fn new(
        n_window: usize,
        n_window_infer: usize,
        n_mels: usize,
        d_model: usize,
        output_dim: usize,
    ) -> (r: Self)
        requires
            0 < n_window,
            n_window * 2 <= usize::MAX,
            n_window * 2 <= n_window_infer,
            0 < d_model,
            0 < output_dim,
        ensures
            r@.valid(),
            r@ == SessionModel::<S, T, E>::fresh(r@.dims),
            r@.dims.params.describes(n_window as int, n_window_infer as int),
            r@.dims.n_mels == n_mels,
            r@.dims.d_model == d_model,
            r@.dims.output_dim == output_dim,
    {
        let params = ChunkParams::new(n_window, n_window_infer);
        proof {
            lemma_join(n_window_infer as int, params.cs as int);
            assert(0 < params.cpw) by (nonlinear_arith)
                requires
                    params.cs <= n_window_infer,
                    params.cpw * params.cs + n_window_infer as int % params.cs as int
                        == n_window_infer,
                    0 <= n_window_infer as int % (params.cs as int) < params.cs,
            ;
            lemma_grows(params.tpc as int, params.cpw as int);
            assert(0 * d_model == 0 && 0 * output_dim == 0);
        }
        let dims = EncoderDims { params, n_mels, d_model, output_dim };
        AsrStreamingSession {
            dims,
            sample_buffer: Vec::new(),
            processed_mel_frames: 0,
            mel: Vec::new(),
            n_frames: 0,
            token_buffer: Vec::new(),
            n_conv_tokens: 0,
            embeddings: Vec::new(),
            n_embed_tokens: 0,
            phase: Phase::Idle,
        }
    }

    /// Sizes of the encoder that the session feeds.
    pub fn dims(&self) -> (r: EncoderDims)
        ensures
            r == self@.dims,
    {
        self.dims
    }

    /// What the session is waiting for.
    pub fn phase(&self) -> (r: Phase)
        ensures
            r == self@.phase,
    {
        self.phase
    }

    /// Mel frames that have been encoded as part of full chunks.
    pub fn processed_mel_frames(&self) -> (r: usize)
        ensures
            r == self@.processed,
    {
        self.processed_mel_frames
    }

    /// All samples pushed so far.
    pub fn samples(&self) -> (r: &[S])
        ensures
            r@ == self@.samples,
    {
        self.sample_buffer.as_slice()
    }

    /// Number of audio samples accumulated so far.
    pub fn sample_count(&self) -> (r: usize)
        ensures
            r == self@.samples.len(),
    {
        self.sample_buffer.len()
    }

    /// Feeds more audio samples.
    pub fn push_samples(&mut self, samples: &[S]) -> (r: Action<S, T, E>)
        requires
            old(self)@.valid(),
            old(self)@.accepts(Event::Push { samples: samples@ }),
        ensures
            final(self)@.valid(),
            (final(self)@, r@) == old(self)@.step(Event::Push { samples: samples@ }),
    {
        append_copy(&mut self.sample_buffer, samples);
        self.phase = Phase::AwaitMel { flushing: false };
        Action::ExtractMel
    }

    /// Starts to encode everything that is left.
    pub fn flush(&mut self) -> (r: Action<S, T, E>)
        requires
            old(self)@.valid(),
            old(self)@.accepts(Event::Flush),
        ensures
            final(self)@.valid(),
            (final(self)@, r@) == old(self)@.step(Event::Flush),
    {
        self.phase = Phase::AwaitMel { flushing: true };
        Action::ExtractMel
    }

    /// Gives up the outstanding request after it failed. What was encoded
    /// before stays; the tokens of a window that was being run are lost.
    pub fn abort(&mut self)
        requires
            old(self)@.valid(),
        ensures
            final(self)@.valid(),
            final(self)@ == old(self)@.waiting(Phase::Idle),
    {
        self.phase = Phase::Idle;
    }

    /// Takes the spectrogram of all samples so far, `[n_mels, n_frames]`.
    pub fn on_mel(&mut self, mel: Vec<S>, n_frames: usize) -> (r: Action<S, T, E>)
        requires
            old(self)@.valid(),
            old(self)@.accepts((Event::Mel { mel: mel@, n_frames: n_frames as int })),
        ensures
            final(self)@.valid(),
            (final(self)@, r@) == old(self)@.step(
                (Event::Mel { mel: mel@, n_frames: n_frames as int }),
            ),
    {
        let ghost before = self@;
        let ghost event = Event::<S, T, E>::Mel { mel: mel@, n_frames: n_frames as int };
        proof {
            before.law_step_keeps_valid(event);
            before.lemma_new_chunks(n_frames as int);
        }
        let flushing: bool = match self.phase {
            Phase::AwaitMel { flushing } => flushing,
            _ => false,
        };
        let fresh: usize = n_frames.saturating_sub(self.processed_mel_frames);
        let total: usize = fresh / self.dims.params.cs;
        self.mel = mel;
        self.n_frames = n_frames;
        if total > 0 {
            self.next_chunk(0, total, flushing)
        } else if flushing {
            self.next_tail()
        } else {
            self.phase = Phase::Idle;
            Action::Pushed
        }
    }

    /// Takes the tokens of the chunk that was asked for.
    pub fn on_tokens(&mut self, tokens: Vec<T>) -> (r: Action<S, T, E>)
        requires
            old(self)@.valid(),
            old(self)@.accepts((Event::Tokens { tokens: tokens@ })),
        ensures
            final(self)@.valid(),
            (final(self)@, r@) == old(self)@.step((Event::Tokens { tokens: tokens@ })),
    {
        let ghost before = self@;
        let ghost event = Event::<S, T, E>::Tokens { tokens: tokens@ };
        let mut tokens = tokens;
        self.token_buffer.append(&mut tokens);
        proof {
            assert(self.token_buffer.len() <= usize::MAX);
            before.law_step_keeps_valid(event);
            let dm = self.dims.d_model as int;
            SessionModel::<S, T, E>::lemma_counts_add(before.pending, before.tokens_due(), dm);
            lemma_grows(before.pending + before.tokens_due(), dm);
        }
        match self.phase {
            Phase::Chunks { next, total, flushing } => {
                self.n_conv_tokens = self.n_conv_tokens + self.dims.params.tpc;
                if next + 1 < total {
                    self.next_chunk(next + 1, total, flushing)
                } else {
                    proof {
                        let cs = self.dims.params.cs as int;
                        before.lemma_processed_whole(total as int);
                        lemma_monotone(0, 0, total as int, cs);
                        assert((total + 1) * cs == total * cs + cs) by (nonlinear_arith);
                    }
                    self.processed_mel_frames = self.processed_mel_frames + total
                        * self.dims.params.cs;
                    if flushing {
                        self.next_tail()
                    } else {
                        self.next_window(false)
                    }
                }
            },
            Phase::Tail { frames } => {
                self.n_conv_tokens = self.n_conv_tokens + feo(frames);
                self.next_window(true)
            },
            _ => Action::Pushed,
        }
    }

    /// Takes the embeddings of the window that was asked for.
    pub fn on_embeddings(&mut self, out: Vec<E>) -> (r: Action<S, T, E>)
        requires
            old(self)@.valid(),
            old(self)@.accepts((Event::Embeddings { out: out@ })),
        ensures
            final(self)@.valid(),
            (final(self)@, r@) == old(self)@.step((Event::Embeddings { out: out@ })),
    {
        let ghost before = self@;
        let ghost event = Event::<S, T, E>::Embeddings { out: out@ };
        let mut out = out;
        self.embeddings.append(&mut out);
        proof {
            assert(self.embeddings.len() <= usize::MAX);
            before.law_step_keeps_valid(event);
            let od = self.dims.output_dim as int;
            SessionModel::<S, T, E>::lemma_counts_add(before.embedded, before.in_flight(), od);
            lemma_grows(before.embedded + before.in_flight(), od);
        }
        match self.phase {
            Phase::Window { flushing } => {
                self.n_embed_tokens = self.n_embed_tokens + self.dims.params.ws;
                self.next_window(flushing)
            },
            Phase::Rest { count } => {
                self.n_embed_tokens = self.n_embed_tokens + count;
                self.phase = Phase::Idle;
                Action::Flushed { embeddings: vstd::slice::slice_to_vec(self.embeddings.as_slice()) }
            },
            _ => Action::Pushed,
        }
    }

    fn next_chunk(&mut self, next: usize, total: usize, flushing: bool) -> (r: Action<S, T, E>)
        requires
            old(self)@.dims.valid(),
            next < total,
            old(self)@.processed + total * old(self)@.dims.params.cs <= old(self)@.n_frames,
            old(self)@.dims.n_mels * old(self)@.n_frames <= old(self)@.mel.len(),
        ensures
            (final(self)@, r@) == old(self)@.chunk(next as int, total as int, flushing),
    {
        let cs: usize = self.dims.params.cs;
        proof {
            lemma_monotone(next + 1, cs as int, total as int, cs as int);
            assert((next + 1) * cs == next * cs + cs) by (nonlinear_arith);
            lemma_monotone(0, 0, next as int, cs as int);
        }
        let start: usize = self.processed_mel_frames + next * cs;
        let mel = extract_mel_chunk(
            self.mel.as_slice(),
            self.dims.n_mels,
            self.n_frames,
            start,
            cs,
        );
        self.phase = Phase::Chunks { next, total, flushing };
        Action::ConvStem { mel, frames: cs }
    }

    fn next_tail(&mut self) -> (r: Action<S, T, E>)
        requires
            old(self)@.waiting(Phase::Idle).valid(),
            0 <= old(self)@.n_frames - old(self)@.processed,
            old(self)@.dims.n_mels * old(self)@.n_frames <= old(self)@.mel.len(),
        ensures
            (final(self)@, r@) == old(self)@.tail(),
    {
        let frames: usize = self.n_frames - self.processed_mel_frames;
        if frames > 0 {
            let mel = extract_mel_chunk(
                self.mel.as_slice(),
                self.dims.n_mels,
                self.n_frames,
                self.processed_mel_frames,
                frames,
            );
            self.phase = Phase::Tail { frames };
            Action::ConvStemTail { mel, frames, chunk_frames: self.dims.params.cs }
        } else {
            self.next_window(true)
        }
    }

    fn next_window(&mut self, flushing: bool) -> (r: Action<S, T, E>)
        requires
            old(self)@.waiting(Phase::Idle).valid(),
        ensures
            (final(self)@, r@) == old(self)@.windows(flushing),
    {
        let ws: usize = self.dims.params.ws;
        if self.n_conv_tokens >= ws {
            proof {
                lemma_window_fits(
                    self.n_conv_tokens as int,
                    ws as int,
                    self.dims.d_model as int,
                    self.token_buffer@.len() as int,
                );
                assert(self.token_buffer.len() <= usize::MAX);
            }
            let tokens = drain_front(&mut self.token_buffer, ws * self.dims.d_model);
            self.n_conv_tokens = self.n_conv_tokens - ws;
            self.phase = Phase::Window { flushing };
            Action::Transformer { tokens, count: ws }
        } else if !flushing {
            self.phase = Phase::AwaitMel { flushing: false };
            Action::ExtractMel
        } else if self.n_conv_tokens == 0 {
            self.phase = Phase::Idle;
            Action::Flushed { embeddings: vstd::slice::slice_to_vec(self.embeddings.as_slice()) }
        } else {
            let all: usize = self.token_buffer.len();
            let ghost waiting = self.token_buffer@;
            let tokens = drain_front(&mut self.token_buffer, all);
            proof {
                assert(waiting.take(waiting.len() as int) =~= waiting);
                assert(waiting.skip(waiting.len() as int) =~= Seq::<T>::empty());
            }
            let count: usize = self.n_conv_tokens;
            self.n_conv_tokens = 0;
            self.phase = Phase::Rest { count };
            Action::Transformer { tokens, count }
        }
    }
}

} // verus!

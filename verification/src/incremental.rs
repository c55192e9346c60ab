//! Encoding a growing recording again and again without repeating finished
//! windows.
//!
//! A window of chunks, once all its frames are there, never changes. The cache
//! keeps the embeddings of such windows; every call encodes the windows that
//! have become complete since, and then the rest of the recording.
use vstd::prelude::*;
use vstd::string::StringExecFns;

use crate::buffers::append_copy;
use crate::chunking::{
    audio_tokens, chunk_count, plan_chunks, token_count, tokens_of_chunk, ChunkParams,
};
use crate::layout::{lemma_grows, lemma_join, lemma_monotone};
use crate::windows::{law_window_count, window_at, window_count, Window};

verus! {

/// Windows whose frames are all there.
pub open spec fn complete_windows(p: ChunkParams, n_frames: int) -> int {
    n_frames / p.cs as int / p.cpw as int
}

/// A run of full chunks.
#[derive(Clone, Copy, PartialEq, Eq, Structural)]
pub struct WindowJob {
    /// First chunk.
    pub start_chunk: usize,
    /// Number of chunks.
    pub n_chunks: usize,
}

/// A chunk of the rest.
#[derive(Clone, Copy, PartialEq, Eq, Structural)]
pub struct PartialChunk {
    /// First frame.
    pub start: usize,
    /// Frames that the recording has of it; the others are padding.
    pub frames: usize,
    /// Tokens that it contributes.
    pub tokens: usize,
}

/// Chunk `i` of a recording.
pub open spec fn chunk_at(cs: int, n_frames: int, i: int) -> PartialChunk {
    PartialChunk {
        start: (i * cs) as usize,
        frames: (if i < n_frames / cs {
            cs
        } else {
            n_frames % cs
        }) as usize,
        tokens: tokens_of_chunk(cs, n_frames, i) as usize,
    }
}

/// `n` full chunks from chunk `first` on.
pub open spec fn full_chunks(p: ChunkParams, first: int, n: nat) -> Seq<PartialChunk> {
    Seq::new(
        n,
        |k: int|
            PartialChunk {
                start: ((first + k) * p.cs) as usize,
                frames: p.cs,
                tokens: token_count(p.cs as int) as usize,
            },
    )
}

/// A window that has been encoded.
pub struct EncodedWindow<W> {
    /// Its tokens.
    pub tokens: usize,
    /// Their embeddings.
    pub embeddings: W,
}

/// Embeddings of the windows that are complete. `W` holds those of one window.
pub struct EncoderCache<W> {
    /// The windows, in order.
    pub completed_windows: Vec<EncodedWindow<W>>,
    /// Chunks that the complete windows had at the last call.
    pub committed_chunks: usize,
}

/// The sizes of a window configuration, with at least one chunk per window.
pub open spec fn usable(p: ChunkParams) -> bool {
    &&& 0 < p.cs
    &&& 0 < p.cpw
    &&& p.tpc == token_count(p.cs as int)
    &&& p.ws == p.tpc * p.cpw
}

/// Sum of the tokens of some chunks.
pub open spec fn chunk_tokens(chunks: Seq<PartialChunk>) -> int
    decreases chunks.len(),
{
    if chunks.len() == 0 {
        0
    } else {
        chunk_tokens(chunks.drop_last()) + chunks.last().tokens
    }
}

/// Sum of the tokens of some windows.
pub open spec fn window_tokens<W>(windows: Seq<EncodedWindow<W>>) -> int
    decreases windows.len(),
{
    if windows.len() == 0 {
        0
    } else {
        window_tokens(windows.drop_last()) + windows.last().tokens
    }
}

proof fn lemma_window_tokens_prefix<W>(c: Seq<EncodedWindow<W>>, n: int)
    requires
        0 <= n <= c.len(),
    ensures
        0 <= window_tokens(c.take(n)) <= window_tokens(c),
    decreases c.len(),
{
    if n == c.len() {
        assert(c.take(n) =~= c);
        if n > 0 {
            lemma_window_tokens_prefix(c.drop_last(), n - 1);
        }
    } else {
        lemma_window_tokens_prefix(c.drop_last(), n);
        assert(c.drop_last().take(n) =~= c.take(n));
    }
}

/// The chunks of a recording from chunk `first` on.
pub fn chunks_from(n_frames: usize, cs: usize, first: usize) -> (r: Vec<PartialChunk>)
    requires
        0 < cs,
        first <= chunk_count(cs as int, n_frames as int),
    ensures
        r@.len() == chunk_count(cs as int, n_frames as int) - first,
        forall|i: int|
            0 <= i < r@.len() ==> #[trigger] r@[i] == chunk_at(
                cs as int,
                n_frames as int,
                first + i,
            ),
        forall|i: int|
            0 <= i < r@.len() ==> (#[trigger] r@[i]).start + r@[i].frames <= n_frames && 0
                < r@[i].frames <= cs && r@[i].tokens == token_count(r@[i].frames as int),
{
    let plan = plan_chunks(n_frames, cs);
    let nfull: usize = plan.nfull;
    let nc: usize = plan.n_chunks;
    proof {
        lemma_join(n_frames as int, cs as int);
    }
    let mut rest: Vec<PartialChunk> = Vec::new();
    let mut ci: usize = first;
    while ci < nc
        invariant
            first <= ci <= nc,
            nc == chunk_count(cs as int, n_frames as int),
            plan.describes(cs as int, n_frames as int),
            nfull == plan.nfull,
            0 < cs,
            nfull * cs + n_frames as int % cs as int == n_frames,
            0 <= n_frames as int % (cs as int) < cs,
            rest@.len() == ci - first,
            forall|i: int|
                0 <= i < rest@.len() ==> #[trigger] rest@[i] == chunk_at(
                    cs as int,
                    n_frames as int,
                    first + i,
                ),
            forall|i: int|
                0 <= i < rest@.len() ==> (#[trigger] rest@[i]).start + rest@[i].frames
                    <= n_frames && 0 < rest@[i].frames <= cs && rest@[i].tokens
                    == token_count(rest@[i].frames as int),
        decreases nc - ci,
    {
        proof {
            lemma_monotone(ci as int, cs as int, nfull as int, cs as int);
            if ci < nfull {
                assert(ci * cs + cs <= nfull * cs) by (nonlinear_arith)
                    requires
                        ci + 1 <= nfull,
                        0 < cs,
                ;
            }
        }
        let start: usize = ci * cs;
        let frames: usize = if ci < nfull {
            cs
        } else {
            plan.tail
        };
        let tokens: usize = plan.chunk_tokens[ci];
        rest.push(PartialChunk { start, frames, tokens });
        ci += 1;
    }
    rest
}

/// The chunks of a run of full chunks.
pub fn job_chunks(p: ChunkParams, job: WindowJob) -> (r: Vec<PartialChunk>)
    requires
        usable(p),
        (job.start_chunk + job.n_chunks) * p.cs <= usize::MAX,
    ensures
        r@ == full_chunks(p, job.start_chunk as int, job.n_chunks as nat),
{
    let mut chunks: Vec<PartialChunk> = Vec::new();
    let mut k: usize = 0;
    while k < job.n_chunks
        invariant
            k <= job.n_chunks,
            usable(p),
            (job.start_chunk + job.n_chunks) * p.cs <= usize::MAX,
            chunks@ =~= full_chunks(p, job.start_chunk as int, k as nat),
        decreases job.n_chunks - k,
    {
        proof {
            lemma_grows(job.start_chunk + job.n_chunks, p.cs as int);
            lemma_monotone(
                job.start_chunk + k,
                p.cs as int,
                job.start_chunk + job.n_chunks,
                p.cs as int,
            );
        }
        let start: usize = (job.start_chunk + k) * p.cs;
        chunks.push(PartialChunk { start, frames: p.cs, tokens: p.tpc });
        k += 1;
    }
    chunks
}

impl<W> EncoderCache<W> {
    /// An empty cache.
    pub fn new() -> (r: Self)
        ensures
            r.completed_windows@.len() == 0,
            r.committed_chunks == 0,
    {
        EncoderCache { completed_windows: Vec::new(), committed_chunks: 0 }
    }

    /// Tokens of all kept windows.
    pub fn cached_tokens(&self) -> (r: usize)
        requires
            window_tokens(self.completed_windows@) <= usize::MAX,
        ensures
            r == window_tokens(self.completed_windows@),
    {
        let ghost all = self.completed_windows@;
        let mut sum: usize = 0;
        let mut i: usize = 0;
        assert(all.take(0) =~= Seq::<EncodedWindow<W>>::empty());
        while i < self.completed_windows.len()
            invariant
                i <= all.len(),
                all == self.completed_windows@,
                window_tokens(all) <= usize::MAX,
                sum == window_tokens(all.take(i as int)),
            decreases all.len() - i,
        {
            proof {
                assert(all.take(i + 1).drop_last() =~= all.take(i as int));
                lemma_window_tokens_prefix(all, i + 1);
            }
            sum = sum + self.completed_windows[i].tokens;
            i += 1;
        }
        assert(all.take(all.len() as int) =~= all);
        sum
    }

    /// The next window to encode, if one has become complete.
    pub fn next_window(&self, p: ChunkParams, n_frames: usize) -> (r: Option<WindowJob>)
        requires
            usable(p),
        ensures
            match r {
                Some(job) => {
                    &&& self.completed_windows@.len() < complete_windows(p, n_frames as int)
                    &&& job.start_chunk == self.completed_windows@.len() * p.cpw
                    &&& job.n_chunks == p.cpw
                    &&& (job.start_chunk + job.n_chunks) * p.cs <= n_frames
                },
                None => complete_windows(p, n_frames as int) <= self.completed_windows@.len(),
            },
    {
        let nfull: usize = n_frames / p.cs;
        let ncw: usize = nfull / p.cpw;
        let wi: usize = self.completed_windows.len();
        if wi < ncw {
            proof {
                lemma_join(n_frames as int, p.cs as int);
                lemma_join(nfull as int, p.cpw as int);
                assert(wi * p.cpw + p.cpw <= ncw * p.cpw) by (nonlinear_arith)
                    requires
                        wi + 1 <= ncw,
                        0 < p.cpw,
                ;
                lemma_monotone(0, 0, wi as int, p.cpw as int);
                lemma_monotone(wi * p.cpw + p.cpw, p.cs as int, nfull as int, p.cs as int);
            }
            Some(WindowJob { start_chunk: wi * p.cpw, n_chunks: p.cpw })
        } else {
            None
        }
    }

    /// Keeps the embeddings of a window.
    pub fn push_window(&mut self, window: EncodedWindow<W>)
        ensures
            final(self).completed_windows@ == old(self).completed_windows@.push(window),
            final(self).committed_chunks == old(self).committed_chunks,
    {
        self.completed_windows.push(window);
    }

    /// Once no window is left to encode: the chunks behind the complete windows,
    /// which are encoded together and not kept. The embeddings of the recording
    /// are those of all kept windows followed by those of these chunks. `None`
    /// where there is neither, a recording without audio tokens.
    pub fn finish(&mut self, p: ChunkParams, n_frames: usize) -> (r: Option<Vec<PartialChunk>>)
        requires
            usable(p),
        ensures
            final(self).completed_windows@ == old(self).completed_windows@,
            final(self).committed_chunks == complete_windows(p, n_frames as int) * p.cpw,
            ({
                let first = complete_windows(p, n_frames as int) * p.cpw;
                let nc = chunk_count(p.cs as int, n_frames as int);
                &&& r is None <==> first == nc && old(self).completed_windows@.len() == 0
                &&& r matches Some(rest) ==> {
                    &&& rest@.len() == nc - first
                    &&& forall|i: int|
                        0 <= i < rest@.len() ==> #[trigger] rest@[i] == chunk_at(
                            p.cs as int,
                            n_frames as int,
                            first + i,
                        )
                    &&& forall|i: int|
                        0 <= i < rest@.len() ==> (#[trigger] rest@[i]).start + rest@[i].frames
                            <= n_frames && 0 < rest@[i].frames <= p.cs && rest@[i].tokens
                            == token_count(rest@[i].frames as int)
                }
            }),
    {
        let plan = plan_chunks(n_frames, p.cs);
        let nfull: usize = plan.nfull;
        let ncw: usize = nfull / p.cpw;
        proof {
            lemma_join(n_frames as int, p.cs as int);
            lemma_join(nfull as int, p.cpw as int);
        }
        let psc: usize = ncw * p.cpw;
        self.committed_chunks = psc;
        let nc: usize = plan.n_chunks;
        if psc == nc && self.completed_windows.len() == 0 {
            return None;
        }
        Some(chunks_from(n_frames, p.cs, psc))
    }
}

impl<W> Default for EncoderCache<W> {
    fn default() -> (r: Self)
        ensures
            r.completed_windows@.len() == 0,
            r.committed_chunks == 0,
    {
        Self::new()
    }
}

/// Window `i` of a recording, as a run of chunks.
pub open spec fn window_job(p: ChunkParams, i: int) -> WindowJob {
    WindowJob { start_chunk: (i * p.cpw) as usize, n_chunks: p.cpw }
}

/// The chunks of a recording behind its complete windows.
pub open spec fn rest_chunks(p: ChunkParams, n_frames: int) -> Seq<PartialChunk> {
    let first = complete_windows(p, n_frames) * p.cpw;
    Seq::new(
        (chunk_count(p.cs as int, n_frames) - first) as nat,
        |i: int| chunk_at(p.cs as int, n_frames, first + i),
    )
}

/// Whether `out` can come out of encoding some chunks.
pub open spec fn encodes<W, F: Fn(&[PartialChunk]) -> EncodedWindow<W>>(
    encode: F,
    chunks: Seq<PartialChunk>,
    out: EncodedWindow<W>,
) -> bool {
    exists|x: &[PartialChunk]| x@ == chunks && #[trigger] call_ensures(encode, (x,), out)
}

/// Whether a cache holds, after a call on `n_frames` frames, what it held before and
/// then what comes out of encoding every window that has become complete.
pub open spec fn caught_up<W, FW: Fn(WindowJob) -> EncodedWindow<W>>(
    before: EncoderCache<W>,
    after: EncoderCache<W>,
    p: ChunkParams,
    n_frames: int,
    encode_window: FW,
) -> bool {
    let (old, new) = (before.completed_windows@, after.completed_windows@);
    &&& new.len() == if old.len() < complete_windows(p, n_frames) {
        complete_windows(p, n_frames)
    } else {
        old.len() as int
    }
    &&& new.take(old.len() as int) == old
    &&& forall|i: int|
        old.len() <= i < new.len() ==> call_ensures(
            encode_window,
            (window_job(p, i),),
            #[trigger] new[i],
        )
    &&& after.committed_chunks == complete_windows(p, n_frames) * p.cpw
}

/// Encodes a recording that may have grown since the last call: every window that
/// has become complete is encoded and kept, then the rest is encoded and handed back,
/// if there is any. The embeddings of the recording are those of all kept windows
/// followed by those of the rest.
pub fn forward_incremental<
    W,
    FW: Fn(WindowJob) -> EncodedWindow<W>,
    FR: Fn(&[PartialChunk]) -> EncodedWindow<W>,
>(
    cache: &mut EncoderCache<W>,
    p: ChunkParams,
    n_frames: usize,
    encode_window: FW,
    encode_rest: FR,
) -> (r: Result<Option<EncodedWindow<W>>, String>)
    requires
        usable(p),
        forall|job: WindowJob|
            job.n_chunks == p.cpw && (job.start_chunk + job.n_chunks) * p.cs <= n_frames
                ==> #[trigger] call_requires(encode_window, (job,)),
        forall|x: &[PartialChunk]|
            x@ == rest_chunks(p, n_frames as int) ==> #[trigger] call_requires(encode_rest, (x,)),
    ensures
        caught_up(*old(cache), *final(cache), p, n_frames as int, encode_window),
        r is Err <==> n_frames == 0 && old(cache).completed_windows@.len() == 0,
        match r {
            Err(message) => message@ == "no audio tokens"@,
            Ok(None) => rest_chunks(p, n_frames as int).len() == 0,
            Ok(Some(w)) => {
                &&& 0 < rest_chunks(p, n_frames as int).len()
                &&& encodes(encode_rest, rest_chunks(p, n_frames as int), w)
            },
        },
{
    let ghost before = cache.completed_windows@;
    let ghost ncw = complete_windows(p, n_frames as int);
    proof {
        lemma_join(n_frames as int, p.cs as int);
        lemma_join(n_frames as int / p.cs as int, p.cpw as int);
        lemma_counts(p, n_frames as int);
        assert(before.take(before.len() as int) =~= before);
    }
    let mut more = true;
    while more
        invariant
            usable(p),
            ncw == complete_windows(p, n_frames as int),
            0 <= ncw,
            before.len() <= cache.completed_windows@.len(),
            cache.completed_windows@.len() <= ncw || cache.completed_windows@.len() == before.len(),
            !more ==> ncw <= cache.completed_windows@.len(),
            cache.completed_windows@.take(before.len() as int) == before,
            forall|job: WindowJob|
                job.n_chunks == p.cpw && (job.start_chunk + job.n_chunks) * p.cs <= n_frames
                    ==> #[trigger] call_requires(encode_window, (job,)),
            forall|i: int|
                before.len() <= i < cache.completed_windows@.len() ==> call_ensures(
                    encode_window,
                    (window_job(p, i),),
                    #[trigger] cache.completed_windows@[i],
                ),
        decreases (if more { 1int } else { 0 }) + (if cache.completed_windows@.len() < ncw {
            ncw - cache.completed_windows@.len()
        } else {
            0
        }),
    {
        let ghost kept = cache.completed_windows@;
        match cache.next_window(p, n_frames) {
            Some(job) => {
                assert(job == window_job(p, kept.len() as int));
                let window = encode_window(job);
                cache.push_window(window);
                assert(cache.completed_windows@.take(before.len() as int) =~= kept.take(
                    before.len() as int,
                ));
            },
            None => {
                more = false;
            },
        }
    }
    proof {
        let kept = cache.completed_windows@;
        let nc = chunk_count(p.cs as int, n_frames as int);
        assert(ncw == 0 ==> ncw * p.cpw == 0) by (nonlinear_arith);
        if kept.len() == 0 && ncw * p.cpw == nc {
            assert(ncw == 0);
            assert(n_frames == 0);
        }
        if n_frames == 0 && before.len() == 0 {
            assert(kept.len() == 0);
            assert(nc == 0);
        }
    }
    match cache.finish(p, n_frames) {
        None => Err(String::from_str("no audio tokens")),
        Some(rest) => {
            assert(rest@ =~= rest_chunks(p, n_frames as int));
            if rest.len() == 0 {
                return Ok(None);
            }
            let w = encode_rest(rest.as_slice());
            assert(encodes(encode_rest, rest_chunks(p, n_frames as int), w));
            Ok(Some(w))
        },
    }
}

/// The embeddings of some windows, one behind the other.
pub open spec fn joined<T>(windows: Seq<EncodedWindow<Vec<T>>>) -> Seq<T>
    decreases windows.len(),
{
    if windows.len() == 0 {
        Seq::empty()
    } else {
        joined(windows.drop_last()) + windows.last().embeddings@
    }
}

/// Whether `out` holds the embeddings of the kept windows in order, and then what
/// comes out of encoding the rest, if there is any.
pub open spec fn embeds<T, FR: Fn(&[PartialChunk]) -> EncodedWindow<Vec<T>>>(
    encode_rest: FR,
    kept: Seq<EncodedWindow<Vec<T>>>,
    rest: Seq<PartialChunk>,
    out: Seq<T>,
) -> bool {
    if rest.len() == 0 {
        out == joined(kept)
    } else {
        exists|w: EncodedWindow<Vec<T>>|
            #[trigger] encodes(encode_rest, rest, w) && out == joined(kept) + w.embeddings@
    }
}

/// Encodes a recording that may have grown since the last call, and hands back the
/// embeddings of all of it: those of the kept windows in order, then those of the rest.
pub fn embed_incremental<
    T: Copy,
    FW: Fn(WindowJob) -> EncodedWindow<Vec<T>>,
    FR: Fn(&[PartialChunk]) -> EncodedWindow<Vec<T>>,
>(
    cache: &mut EncoderCache<Vec<T>>,
    p: ChunkParams,
    n_frames: usize,
    encode_window: FW,
    encode_rest: FR,
) -> (r: Result<Vec<T>, String>)
    requires
        usable(p),
        forall|job: WindowJob|
            job.n_chunks == p.cpw && (job.start_chunk + job.n_chunks) * p.cs <= n_frames
                ==> #[trigger] call_requires(encode_window, (job,)),
        forall|x: &[PartialChunk]|
            x@ == rest_chunks(p, n_frames as int) ==> #[trigger] call_requires(encode_rest, (x,)),
    ensures
        caught_up(*old(cache), *final(cache), p, n_frames as int, encode_window),
        r is Err <==> n_frames == 0 && old(cache).completed_windows@.len() == 0,
        match r {
            Err(message) => message@ == "no audio tokens"@,
            Ok(out) => embeds(
                encode_rest,
                final(cache).completed_windows@,
                rest_chunks(p, n_frames as int),
                out@,
            ),
        },
{
    let rest = match forward_incremental(cache, p, n_frames, encode_window, encode_rest) {
        Ok(rest) => rest,
        Err(message) => {
            return Err(message);
        },
    };
    let ghost kept = cache.completed_windows@;
    let mut out: Vec<T> = Vec::new();
    let mut i: usize = 0;
    assert(kept.take(0) =~= Seq::<EncodedWindow<Vec<T>>>::empty());
    while i < cache.completed_windows.len()
        invariant
            i <= kept.len(),
            kept == cache.completed_windows@,
            out@ == joined(kept.take(i as int)),
        decreases kept.len() - i,
    {
        assert(kept.take(i + 1).drop_last() =~= kept.take(i as int));
        append_copy(&mut out, cache.completed_windows[i].embeddings.as_slice());
        i += 1;
    }
    assert(kept.take(kept.len() as int) =~= kept);
    if let Some(w) = rest {
        append_copy(&mut out, w.embeddings.as_slice());
        assert(encodes(encode_rest, rest_chunks(p, n_frames as int), w));
    }
    Ok(out)
}

/// The chunks of window `i`, all of them full.
pub open spec fn window_chunks(p: ChunkParams, i: int) -> Seq<PartialChunk> {
    full_chunks(p, i * p.cpw, p.cpw as nat)
}

/// What an encoder makes of the first `k` windows, one behind the other.
pub open spec fn windows_pass<T>(
    p: ChunkParams,
    encode: spec_fn(Seq<PartialChunk>) -> Seq<T>,
    k: int,
) -> Seq<T>
    decreases k,
{
    if k <= 0 {
        Seq::empty()
    } else {
        windows_pass(p, encode, k - 1) + encode(window_chunks(p, k - 1))
    }
}

/// What an encoder makes of a whole recording in one pass over its windows, the last
/// of which may be incomplete.
pub open spec fn one_pass<T>(
    p: ChunkParams,
    n_frames: int,
    encode: spec_fn(Seq<PartialChunk>) -> Seq<T>,
) -> Seq<T> {
    let whole = windows_pass(p, encode, complete_windows(p, n_frames));
    let rest = rest_chunks(p, n_frames);
    if rest.len() == 0 {
        whole
    } else {
        whole + encode(rest)
    }
}

proof fn lemma_joined_is_pass<T>(
    p: ChunkParams,
    encode: spec_fn(Seq<PartialChunk>) -> Seq<T>,
    windows: Seq<EncodedWindow<Vec<T>>>,
)
    requires
        forall|i: int|
            0 <= i < windows.len() ==> (#[trigger] windows[i]).embeddings@ == encode(
                window_chunks(p, i),
            ),
    ensures
        joined(windows) == windows_pass(p, encode, windows.len() as int),
    decreases windows.len(),
{
    if windows.len() > 0 {
        let head = windows.drop_last();
        assert forall|i: int| 0 <= i < head.len() implies (#[trigger] head[i]).embeddings@
            == encode(window_chunks(p, i)) by {
            assert(head[i] == windows[i]);
        }
        lemma_joined_is_pass(p, encode, head);
        assert(windows[windows.len() - 1].embeddings@ == encode(
            window_chunks(p, windows.len() - 1),
        ));
    }
}

/// Whatever earlier calls have left in the cache of a recording that grows, a call
/// gives the embeddings that one pass over the windows of the recording gives, and
/// leaves a cache of which that holds again. The encoder may be any function of the
/// chunks.
pub proof fn law_incremental_embeds_as_one_pass<
    T,
    FW: Fn(WindowJob) -> EncodedWindow<Vec<T>>,
    FR: Fn(&[PartialChunk]) -> EncodedWindow<Vec<T>>,
>(
    p: ChunkParams,
    n_frames: int,
    before: EncoderCache<Vec<T>>,
    after: EncoderCache<Vec<T>>,
    encode_window: FW,
    encode_rest: FR,
    encode: spec_fn(Seq<PartialChunk>) -> Seq<T>,
    out: Seq<T>,
)
    requires
        usable(p),
        0 <= n_frames,
        before.completed_windows@.len() <= complete_windows(p, n_frames),
        forall|i: int|
            0 <= i < before.completed_windows@.len() ==> (
            #[trigger] before.completed_windows@[i]).embeddings@ == encode(window_chunks(p, i)),
        forall|i: int, w: EncodedWindow<Vec<T>>| #[trigger]
            call_ensures(encode_window, (window_job(p, i),), w) ==> w.embeddings@ == encode(
                window_chunks(p, i),
            ),
        forall|chunks: Seq<PartialChunk>, w: EncodedWindow<Vec<T>>| #[trigger]
            encodes(encode_rest, chunks, w) ==> w.embeddings@ == encode(chunks),
        caught_up(before, after, p, n_frames, encode_window),
        embeds(encode_rest, after.completed_windows@, rest_chunks(p, n_frames), out),
    ensures
        out == one_pass(p, n_frames, encode),
        after.completed_windows@.len() == complete_windows(p, n_frames),
        forall|i: int|
            0 <= i < after.completed_windows@.len() ==> (
            #[trigger] after.completed_windows@[i]).embeddings@ == encode(window_chunks(p, i)),
{
    let (old, new) = (before.completed_windows@, after.completed_windows@);
    assert forall|i: int| 0 <= i < new.len() implies (#[trigger] new[i]).embeddings@ == encode(
        window_chunks(p, i),
    ) by {
        if i < old.len() {
            assert(new.take(old.len() as int)[i] == old[i]);
        } else {
            assert(call_ensures(encode_window, (window_job(p, i),), new[i]));
        }
    }
    lemma_joined_is_pass(p, encode, new);
}

/// The windows of a recording are the ones that its tokens attend in when they are
/// encoded all at once: as many, each with the tokens of its chunks, and the rest is
/// the last of them. No token sees another window, so encoding window after window is
/// encoding the recording.
pub proof fn law_windows_are_attention_windows(p: ChunkParams, n_frames: int)
    requires
        usable(p),
        0 <= n_frames <= usize::MAX,
    ensures
        ({
            let n = audio_tokens(p.cs as int, n_frames);
            let ncw = complete_windows(p, n_frames);
            let rest = rest_chunks(p, n_frames);
            &&& window_count(n, p.ws as int) == ncw + if 0 < rest.len() {
                1int
            } else {
                0
            }
            &&& forall|i: int|
                0 <= i < ncw ==> #[trigger] window_at(n, p.ws as int, i) == (Window {
                    start: (i * p.ws) as usize,
                    len: p.ws,
                })
            &&& 0 < rest.len() ==> window_at(n, p.ws as int, ncw) == (Window {
                start: (ncw * p.ws) as usize,
                len: chunk_tokens(rest) as usize,
            })
        }),
        forall|i: int, k: int|
            0 <= i < complete_windows(p, n_frames) && 0 <= k < p.cpw
                ==> #[trigger] window_chunks(p, i)[k] == chunk_at(
                p.cs as int,
                n_frames,
                i * p.cpw + k,
            ),
{
    let (cs, cpw, tpc, ws) = (p.cs as int, p.cpw as int, p.tpc as int, p.ws as int);
    let nfull = n_frames / cs;
    let ncw = complete_windows(p, n_frames);
    let first = ncw * cpw;
    let rest = rest_chunks(p, n_frames);
    let n = audio_tokens(cs, n_frames);
    lemma_counts(p, n_frames);
    lemma_join(n_frames, cs);
    lemma_join(nfull, cpw);
    assert(0 < tpc);
    assert(0 < ws) by (nonlinear_arith)
        requires
            0 < tpc,
            0 < cpw,
            ws == tpc * cpw,
    ;
    assert(0 <= nfull <= usize::MAX) by (nonlinear_arith)
        requires
            nfull * cs <= usize::MAX,
            0 <= nfull * cs + n_frames % cs,
            n_frames % cs < cs,
            0 < cs,
    ;
    assert forall|i: int| 0 <= i < rest.len() implies (#[trigger] rest[i]).tokens
        == tokens_of_chunk(cs, n_frames, first + i) by {
        assert(rest[i] == chunk_at(cs, n_frames, first + i));
    }
    lemma_rest_tokens(rest, cs, n_frames, first);
    lemma_tokens_of_full(cs, n_frames, first, nfull);
    let left = chunk_tokens(rest);
    let behind = nfull - first;
    let tail = n_frames % cs;
    assert(0 < rest.len() ==> left == behind * tpc + if tail > 0 {
        token_count(tail)
    } else {
        0
    });
    assert(n == ncw * ws + left) by (nonlinear_arith)
        requires
            n == nfull * tpc + (if tail > 0 {
                token_count(tail)
            } else {
                0
            }),
            left == behind * tpc + (if tail > 0 {
                token_count(tail)
            } else {
                0
            }),
            behind == nfull - first,
            first == ncw * cpw,
            ws == tpc * cpw,
    ;
    assert(0 < rest.len() ==> 0 < left <= ws) by {
        assert(0 < rest.len() ==> 0 < behind || 0 < tail);
        assert(tail > 0 ==> 0 < token_count(tail) <= tpc);
        assert(behind * tpc + tpc <= ws && 0 <= behind * tpc && (0 < behind ==> 0 < behind * tpc))
            by (nonlinear_arith)
            requires
                0 <= behind < cpw,
                0 < tpc,
                ws == tpc * cpw,
        ;
    }
    if 0 < rest.len() {
        assert((ncw + 1) * ws == ncw * ws + ws) by (nonlinear_arith);
        law_window_count(n, ws, ncw + 1);
    } else {
        assert((ncw - 1) * ws == ncw * ws - ws) by (nonlinear_arith);
        law_window_count(n, ws, ncw);
    }
    assert forall|i: int| 0 <= i < ncw implies #[trigger] window_at(n, ws, i) == (Window {
        start: (i * ws) as usize,
        len: p.ws,
    }) by {
        assert(i * ws + ws <= ncw * ws) by (nonlinear_arith)
            requires
                i + 1 <= ncw,
                0 < ws,
        ;
    }
    assert forall|i: int, k: int| 0 <= i < ncw && 0 <= k < cpw implies #[trigger] window_chunks(
        p,
        i,
    )[k] == chunk_at(cs, n_frames, i * cpw + k) by {
        assert(i * cpw + k < nfull) by (nonlinear_arith)
            requires
                0 <= i < ncw,
                0 <= k < cpw,
                ncw * cpw <= nfull,
        ;
    }
}

/// A recording without frames has no chunks, any other has some, and the complete
/// windows hold no more chunks than there are.
proof fn lemma_counts(p: ChunkParams, n_frames: int)
    requires
        usable(p),
        0 <= n_frames,
    ensures
        chunk_count(p.cs as int, n_frames) == 0 <==> n_frames == 0,
        n_frames == 0 ==> complete_windows(p, n_frames) == 0,
        0 <= complete_windows(p, n_frames),
        0 <= complete_windows(p, n_frames) * p.cpw <= chunk_count(p.cs as int, n_frames),
{
    let (cs, cpw) = (p.cs as int, p.cpw as int);
    let nfull = n_frames / cs;
    lemma_join(n_frames, cs);
    assert(0 <= nfull) by (nonlinear_arith)
        requires
            0 <= n_frames,
            0 < cs,
            nfull == n_frames / cs,
    ;
    lemma_join(nfull, cpw);
    assert(0 <= nfull / cpw) by (nonlinear_arith)
        requires
            0 <= nfull,
            0 < cpw,
    ;
    lemma_monotone(0, 0, nfull / cpw, cpw);
    if nfull == 0 {
        assert(nfull * cs == 0) by (nonlinear_arith)
            requires
                nfull == 0,
        ;
        assert(0int / cpw == 0) by (nonlinear_arith)
            requires
                0 < cpw,
        ;
    } else {
        assert(0 < nfull * cs) by (nonlinear_arith)
            requires
                0 < nfull,
                0 < cs,
        ;
    }
}

/// Tokens of chunks `from..to`.
pub open spec fn tokens_between(cs: int, n_frames: int, from: int, to: int) -> int
    decreases to - from,
{
    if to <= from {
        0
    } else {
        tokens_between(cs, n_frames, from, to - 1) + tokens_of_chunk(cs, n_frames, to - 1)
    }
}

proof fn lemma_tokens_of_full(cs: int, n_frames: int, from: int, to: int)
    requires
        from <= to <= n_frames / cs,
    ensures
        tokens_between(cs, n_frames, from, to) == (to - from) * token_count(cs),
    decreases to - from,
{
    let t = token_count(cs);
    if from < to {
        lemma_tokens_of_full(cs, n_frames, from, to - 1);
        assert((to - from) * t == (to - 1 - from) * t + t) by (nonlinear_arith);
    } else {
        assert((to - from) * t == 0) by (nonlinear_arith)
            requires
                to == from,
        ;
    }
}

proof fn lemma_window_tokens_each<W>(windows: Seq<EncodedWindow<W>>, each: int)
    requires
        forall|i: int| 0 <= i < windows.len() ==> (#[trigger] windows[i]).tokens == each,
    ensures
        window_tokens(windows) == windows.len() * each,
    decreases windows.len(),
{
    let n = windows.len() as int;
    if n > 0 {
        let head = windows.drop_last();
        assert forall|i: int| 0 <= i < head.len() implies (#[trigger] head[i]).tokens == each by {
            assert(head[i] == windows[i]);
        }
        lemma_window_tokens_each(head, each);
        assert(windows[n - 1].tokens == each);
        assert(n * each == (n - 1) * each + each) by (nonlinear_arith);
    } else {
        assert(n * each == 0) by (nonlinear_arith)
            requires
                n == 0,
        ;
    }
}

proof fn lemma_rest_tokens(
    rest: Seq<PartialChunk>,
    cs: int,
    n_frames: int,
    first: int,
)
    requires
        forall|i: int|
            0 <= i < rest.len() ==> (#[trigger] rest[i]).tokens == tokens_of_chunk(
                cs,
                n_frames,
                first + i,
            ),
    ensures
        chunk_tokens(rest) == tokens_between(cs, n_frames, first, first + rest.len()),
    decreases rest.len(),
{
    if rest.len() > 0 {
        let head = rest.drop_last();
        assert forall|i: int| 0 <= i < head.len() implies (#[trigger] head[i]).tokens
            == tokens_of_chunk(cs, n_frames, first + i) by {
            assert(head[i] == rest[i]);
        }
        lemma_rest_tokens(head, cs, n_frames, first);
        assert(rest[rest.len() - 1].tokens == tokens_of_chunk(
            cs,
            n_frames,
            first + rest.len() - 1,
        ));
    }
}

/// A new cache keeps exactly the complete windows of a recording, whatever the
/// encoders make of them, and nothing of a window that is not complete. With encoders
/// that give every chunk its tokens, kept windows and rest have the tokens of the full
/// chunks and of the tail.
pub proof fn law_new_cache_keeps_complete_windows<W>(
    p: ChunkParams,
    n_frames: int,
    windows: Seq<EncodedWindow<W>>,
    rest_tokens: int,
)
    requires
        usable(p),
        0 <= n_frames <= usize::MAX,
        windows.len() == complete_windows(p, n_frames),
        forall|i: int| 0 <= i < windows.len() ==> (#[trigger] windows[i]).tokens == p.ws,
        rest_tokens == chunk_tokens(rest_chunks(p, n_frames)),
    ensures
        windows.len() == n_frames / p.cs as int / p.cpw as int,
        windows.len() * p.cpw * p.cs <= n_frames < (windows.len() + 1) * p.cpw * p.cs,
        window_tokens(windows) + rest_tokens == n_frames / p.cs as int * token_count(p.cs as int)
            + if 0 < n_frames % p.cs as int {
            token_count(n_frames % p.cs as int)
        } else {
            0
        },
{
    let (cs, cpw) = (p.cs as int, p.cpw as int);
    let nfull = n_frames / cs;
    let ncw = nfull / cpw;
    lemma_counts(p, n_frames);
    lemma_join(n_frames, cs);
    lemma_join(nfull, cpw);
    law_incremental_is_whole(p, n_frames, windows, rest_chunks(p, n_frames));
    assert(ncw * cpw * cs <= n_frames < (ncw + 1) * cpw * cs) by (nonlinear_arith)
        requires
            nfull * cs + n_frames % cs == n_frames,
            0 <= n_frames % cs < cs,
            ncw * cpw + nfull % cpw == nfull,
            0 <= nfull % cpw < cpw,
            0 < cs,
            0 < cpw,
    ;
}

/// The windows and the rest together are the whole recording: no chunk is
/// encoded twice or left out, and they have as many tokens as encoding the
/// recording at once.
pub proof fn law_incremental_is_whole<W>(
    p: ChunkParams,
    n_frames: int,
    windows: Seq<EncodedWindow<W>>,
    rest: Seq<PartialChunk>,
)
    requires
        usable(p),
        0 <= n_frames <= usize::MAX,
        windows.len() == complete_windows(p, n_frames),
        forall|i: int| 0 <= i < windows.len() ==> (#[trigger] windows[i]).tokens == p.ws,
        rest.len() == chunk_count(p.cs as int, n_frames) - complete_windows(p, n_frames) * p.cpw,
        forall|i: int|
            0 <= i < rest.len() ==> #[trigger] rest[i] == chunk_at(
                p.cs as int,
                n_frames,
                complete_windows(p, n_frames) * p.cpw + i,
            ),
    ensures
        window_tokens(windows) + chunk_tokens(rest) == audio_tokens(p.cs as int, n_frames),
        rest.len() <= p.cpw,
{
    let cs = p.cs as int;
    let cpw = p.cpw as int;
    let nfull = n_frames / cs;
    let ncw = complete_windows(p, n_frames);
    let first = ncw * cpw;
    let tpc = p.tpc as int;
    lemma_join(n_frames, cs);
    assert(0 <= nfull) by (nonlinear_arith)
        requires
            0 <= n_frames,
            0 < cs,
            nfull == n_frames / cs,
    ;
    lemma_join(nfull, cpw);
    assert(nfull <= usize::MAX) by (nonlinear_arith)
        requires
            nfull * cs <= usize::MAX,
            0 <= nfull,
            0 < cs,
    ;
    assert forall|i: int| 0 <= i < rest.len() implies (#[trigger] rest[i]).tokens
        == tokens_of_chunk(cs, n_frames, first + i) by {
        assert(rest[i] == chunk_at(cs, n_frames, first + i));
    }
    lemma_window_tokens_each(windows, p.ws as int);
    lemma_rest_tokens(rest, cs, n_frames, first);
    lemma_tokens_of_full(cs, n_frames, first, nfull);
    assert(ncw * p.ws + (nfull - first) * tpc == nfull * tpc) by (nonlinear_arith)
        requires
            p.ws == tpc * cpw,
            first == ncw * cpw,
    ;
}

/// A window that was complete once is the same run of chunks at every later
/// call, so what the cache keeps of it stays right as the recording grows.
pub proof fn law_windows_stay(p: ChunkParams, earlier: int, later: int)
    requires
        usable(p),
        0 <= earlier <= later,
    ensures
        complete_windows(p, earlier) <= complete_windows(p, later),
        complete_windows(p, earlier) * p.cpw * p.cs <= earlier,
{
    let cs = p.cs as int;
    let cpw = p.cpw as int;
    let (a, b) = (earlier / cs, later / cs);
    let (x, y) = (a / cpw, b / cpw);
    lemma_join(earlier, cs);
    lemma_join(later, cs);
    assert(a <= b) by (nonlinear_arith)
        requires
            a * cs + earlier % cs == earlier,
            b * cs + later % cs == later,
            0 <= earlier % cs,
            later % cs < cs,
            earlier <= later,
            0 < cs,
    ;
    lemma_join(a, cpw);
    lemma_join(b, cpw);
    assert(x <= y) by (nonlinear_arith)
        requires
            x * cpw + a % cpw == a,
            y * cpw + b % cpw == b,
            0 <= a % cpw,
            b % cpw < cpw,
            a <= b,
            0 < cpw,
    ;
    assert(x * cpw * cs <= a * cs) by (nonlinear_arith)
        requires
            x * cpw <= a,
            0 < cs,
    ;
}

/// A chunk of a recording starts where the one before it ends, has `cs` frames as long as
/// there are so many, and a token for each eight of them, begun ones too.
pub proof fn law_chunks_follow_each_other(cs: int, n_frames: int, i: int)
    requires
        0 < cs,
        0 <= i,
        i * cs < n_frames <= usize::MAX,
    ensures
        ({
            let c = chunk_at(cs, n_frames, i);
            let left = n_frames - i * cs;
            &&& c.start == i * cs
            &&& c.frames == if left < cs {
                left
            } else {
                cs
            }
            &&& 8 * (c.tokens - 1) < c.frames <= 8 * c.tokens
            &&& i == 0 ==> c.start == 0
            &&& 0 < i ==> c.start == chunk_at(cs, n_frames, i - 1).start + chunk_at(
                cs,
                n_frames,
                i - 1,
            ).frames
        }),
{
    let full = n_frames / cs;
    lemma_join(n_frames, cs);
    assert(0 <= i * cs) by (nonlinear_arith)
        requires
            0 <= i,
            0 < cs,
    ;
    assert((i - 1) * cs == i * cs - cs) by (nonlinear_arith);
    if i < full {
        assert(i * cs + cs <= full * cs) by (nonlinear_arith)
            requires
                i + 1 <= full,
                0 < cs,
        ;
    } else {
        assert(i == full) by (nonlinear_arith)
            requires
                full <= i,
                i * cs < n_frames,
                n_frames == full * cs + n_frames % cs,
                n_frames % cs < cs,
                0 < cs,
        ;
    }
    if 0 < i {
        assert(0 <= (i - 1) * cs) by (nonlinear_arith)
            requires
                1 <= i,
                0 < cs,
        ;
    }
}

/// The sizes of every window configuration can be used whose attention window has room for a
/// chunk.
pub proof fn law_sizes_are_usable(p: ChunkParams, n_window: int, n_window_infer: int)
    requires
        0 < n_window,
        n_window + n_window <= n_window_infer,
        p.describes(n_window, n_window_infer),
    ensures
        usable(p),
{
    assert(1 <= n_window_infer / (n_window * 2)) by (nonlinear_arith)
        requires
            0 < n_window,
            n_window * 2 <= n_window_infer,
    ;
}

} // verus!

//! Cutting a mel spectrogram into convolution chunks.
//!
//! The audio encoder reads the spectrogram in chunks of `n_window * 2` frames.
//! Three strided convolutions turn every eight frames of a chunk into one
//! token, and a fixed number of chunks makes one attention window.
use vstd::prelude::*;

use crate::layout::{
    lemma_inside, lemma_join, lemma_monotone, lemma_row_below, lemma_split,
};

verus! {

/// Tokens that `frames` mel frames leave after the three strided convolutions.
pub open spec fn token_count(frames: int) -> int {
    (frames + 7) / 8
}

/// Length of an axis after one 3-wide convolution of stride two and padding one.
pub open spec fn conv_len(n: int) -> int {
    (n - 1) / 2 + 1
}

/// Tokens that `ifr` mel frames leave after the convolution stem.
pub fn feo(ifr: usize) -> (tokens: usize)
    requires
        0 < ifr,
    ensures
        tokens == token_count(ifr as int),
        1 <= tokens <= ifr,
{
    let a: usize = (ifr - 1) / 2 + 1;
    let b: usize = (a - 1) / 2 + 1;
    (b - 1) / 2 + 1
}

/// Three convolutions in a row leave exactly `token_count` positions.
pub proof fn law_feo_is_three_convolutions(frames: int)
    requires
        0 < frames,
    ensures
        conv_len(conv_len(conv_len(frames))) == token_count(frames),
{
}

/// More frames never leave fewer tokens, and a chunk that starts another eight
/// frames leaves more.
pub proof fn law_token_count_monotone(a: int, b: int)
    requires
        0 <= a <= b,
    ensures
        token_count(a) <= token_count(b),
        a + 8 <= b ==> token_count(a) < token_count(b),
{
}


/// Sizes that the chunked encoder works with.
#[derive(Clone, Copy)]
pub struct ChunkParams {
    /// Mel frames in one convolution chunk.
    pub cs: usize,
    /// Tokens that one full chunk leaves.
    pub tpc: usize,
    /// Chunks in one attention window.
    pub cpw: usize,
    /// Tokens in one attention window.
    pub ws: usize,
}

impl ChunkParams {
    /// What the four sizes are for a given window configuration.
    pub open spec fn describes(self, n_window: int, n_window_infer: int) -> bool {
        &&& self.cs == n_window * 2
        &&& self.tpc == token_count(n_window * 2)
        &&& self.cpw == n_window_infer / (n_window * 2)
        &&& self.ws == token_count(n_window * 2) * (n_window_infer / (n_window * 2))
    }

    /// Derives the sizes from the encoder configuration.
    pub fn new(n_window: usize, n_window_infer: usize) -> (r: Self)
        requires
            0 < n_window,
            n_window * 2 <= usize::MAX,
        ensures
            r.describes(n_window as int, n_window_infer as int),
    {
        let cs: usize = n_window * 2;
        let tpc: usize = feo(cs);
        let cpw: usize = n_window_infer / cs;
        proof {
            lemma_join(n_window_infer as int, cs as int);
            assert(tpc * cpw <= cpw * cs) by (nonlinear_arith)
                requires
                    0 <= tpc <= cs,
                    0 <= cpw,
            ;
        }
        let ws: usize = tpc * cpw;
        ChunkParams { cs, tpc, cpw, ws }
    }
}

/// Tokens that `n_frames` frames leave when they are encoded in chunks of `cs`:
/// every full chunk leaves the same number and a shorter last chunk its own.
pub open spec fn audio_tokens(cs: int, n_frames: int) -> int {
    (n_frames / cs) * token_count(cs) + tail_tokens(cs, n_frames)
}

/// Tokens of the shorter last chunk, none where the chunks come out even.
pub open spec fn tail_tokens(cs: int, n_frames: int) -> int {
    if n_frames % cs > 0 {
        token_count(n_frames % cs)
    } else {
        0
    }
}

/// Chunks that `n_frames` frames are cut into.
pub open spec fn chunk_count(cs: int, n_frames: int) -> int {
    n_frames / cs + if n_frames % cs > 0 {
        1int
    } else {
        0
    }
}

/// Tokens that chunk `i` contributes.
pub open spec fn tokens_of_chunk(cs: int, n_frames: int, i: int) -> int {
    if i < n_frames / cs {
        token_count(cs)
    } else {
        token_count(n_frames % cs)
    }
}

/// Sum of a list of token counts.
pub open spec fn total(counts: Seq<usize>) -> int
    decreases counts.len(),
{
    if counts.len() == 0 {
        0
    } else {
        total(counts.drop_last()) + counts.last()
    }
}

/// How a spectrogram of `n_frames` frames is cut.
pub struct ChunkPlan {
    /// Chunks of the full length.
    pub nfull: usize,
    /// Frames in the shorter last chunk, zero where there is none.
    pub tail: usize,
    /// All chunks.
    pub n_chunks: usize,
    /// Tokens that each chunk contributes.
    pub chunk_tokens: Vec<usize>,
}

impl ChunkPlan {
    /// What the plan is for `n_frames` frames in chunks of `cs`.
    pub open spec fn describes(self, cs: int, n_frames: int) -> bool {
        &&& self.nfull == n_frames / cs
        &&& self.tail == n_frames % cs
        &&& self.n_chunks == chunk_count(cs, n_frames)
        &&& self.chunk_tokens@.len() == chunk_count(cs, n_frames)
        &&& forall|i: int|
            0 <= i < chunk_count(cs, n_frames) ==> #[trigger] self.chunk_tokens@[i]
                == tokens_of_chunk(cs, n_frames, i)
    }
}

/// Cuts `n_frames` frames into chunks of `cs`, the last one possibly shorter.
pub fn plan_chunks(n_frames: usize, cs: usize) -> (plan: ChunkPlan)
    requires
        0 < cs,
    ensures
        plan.describes(cs as int, n_frames as int),
{
    let tpc: usize = feo(cs);
    let nfull: usize = n_frames / cs;
    let tail: usize = n_frames % cs;
    let mut chunk_tokens: Vec<usize> = Vec::new();
    let mut i: usize = 0;
    while i < nfull
        invariant
            i <= nfull,
            nfull == n_frames / cs,
            tpc == token_count(cs as int),
            chunk_tokens@.len() == i,
            forall|k: int| 0 <= k < i ==> #[trigger] chunk_tokens@[k] == tpc,
        decreases nfull - i,
    {
        chunk_tokens.push(tpc);
        i += 1;
    }
    proof {
        lemma_join(n_frames as int, cs as int);
        assert(nfull < usize::MAX || tail == 0) by (nonlinear_arith)
            requires
                nfull * cs + tail == n_frames,
                n_frames <= usize::MAX,
                0 < cs,
                0 <= tail,
        ;
    }
    let mut n_chunks: usize = nfull;
    if tail > 0 {
        chunk_tokens.push(feo(tail));
        n_chunks = nfull + 1;
    }
    ChunkPlan { nfull, tail, n_chunks, chunk_tokens }
}

/// A run of `len` frames starting at `start`, every mel bin after the other.
pub open spec fn mel_chunk<T>(mel: Seq<T>, n_mels: int, n_frames: int, start: int, len: int) -> Seq<
    T,
> {
    Seq::new((n_mels * len) as nat, |k: int| mel[(k / len) * n_frames + start + k % len])
}

/// Copies `len` frames from `start` on out of a `[n_mels, n_frames]` spectrogram.
pub fn extract_mel_chunk<T: Copy>(
    mel: &[T],
    n_mels: usize,
    n_frames: usize,
    start: usize,
    len: usize,
) -> (chunk: Vec<T>)
    requires
        n_mels * n_frames <= mel@.len(),
        start + len <= n_frames,
    ensures
        chunk@ == mel_chunk(mel@, n_mels as int, n_frames as int, start as int, len as int),
        forall|m: int, j: int|
            0 <= m < n_mels && 0 <= j < len ==> chunk@[#[trigger] (m * len + j)] == mel@[m
                * n_frames + start + j],
{
    proof {
        assert(mel.len() <= usize::MAX);
        lemma_monotone(n_mels as int, len as int, n_mels as int, n_frames as int);
    }
    let count: usize = n_mels * len;
    let mut chunk: Vec<T> = Vec::new();
    let mut k: usize = 0;
    while k < count
        invariant
            k <= count,
            count == n_mels * len,
            start + len <= n_frames,
            n_mels * n_frames <= mel@.len() <= usize::MAX,
            chunk@.len() == k,
            forall|i: int|
                0 <= i < k ==> #[trigger] chunk@[i] == mel@[(i / (len as int)) * n_frames + start
                    + i % (len as int)],
        decreases count - k,
    {
        assert(0 < len) by (nonlinear_arith)
            requires
                0 <= k < n_mels * len,
                0 <= len,
        ;
        let m: usize = k / len;
        let j: usize = k % len;
        proof {
            lemma_row_below(k as int, n_mels as int, len as int);
            lemma_inside(m as int, n_mels as int, n_frames as int, (start + j) as int);
            lemma_monotone(m as int, n_frames as int, n_mels as int, n_frames as int);
        }
        let base: usize = m * n_frames;
        chunk.push(mel[base + start + j]);
        k += 1;
    }
    proof {
        assert(chunk@ =~= mel_chunk(
            mel@,
            n_mels as int,
            n_frames as int,
            start as int,
            len as int,
        ));
        assert forall|m: int, j: int| 0 <= m < n_mels && 0 <= j < len implies chunk@[#[trigger] (m
            * len + j)] == mel@[m * n_frames + start + j] by {
            lemma_split(m, len as int, j);
            lemma_inside(m, n_mels as int, len as int, j);
        }
    }
    chunk
}

/// Frame `j` of mel bin `m` in chunk `i`: the spectrogram where it has that
/// frame, padding behind its end.
pub open spec fn chunked_cell<T>(
    mel: Seq<T>,
    n_frames: int,
    cs: int,
    zero: T,
    i: int,
    m: int,
    j: int,
) -> T {
    if i * cs + j < n_frames {
        mel[m * n_frames + i * cs + j]
    } else {
        zero
    }
}

/// Lays a `[n_mels, n_frames]` spectrogram out as `[n_chunks, n_mels, cs]`,
/// the last chunk filled up with `zero`, and says how many tokens each chunk
/// contributes.
pub fn chunk_mel<T: Copy>(mel: &[T], n_mels: usize, n_frames: usize, cs: usize, zero: T) -> (r: (
    Vec<T>,
    ChunkPlan,
))
    requires
        0 < cs,
        n_mels * n_frames <= mel@.len(),
        chunk_count(cs as int, n_frames as int) * n_mels * cs <= usize::MAX,
        chunk_count(cs as int, n_frames as int) * n_mels <= usize::MAX,
    ensures
        r.1.describes(cs as int, n_frames as int),
        r.0@.len() == chunk_count(cs as int, n_frames as int) * n_mels * cs,
        forall|i: int, m: int, j: int|
            0 <= i < chunk_count(cs as int, n_frames as int) && 0 <= m < n_mels && 0 <= j < cs
                ==> r.0@[#[trigger] ((i * n_mels + m) * cs + j)] == chunked_cell(
                mel@,
                n_frames as int,
                cs as int,
                zero,
                i,
                m,
                j,
            ),
{
    let plan = plan_chunks(n_frames, cs);
    let rows: usize = plan.n_chunks * n_mels;
    let count: usize = rows * cs;
    let mut data: Vec<T> = Vec::new();
    let mut k: usize = 0;
    proof {
        assert(mel.len() <= usize::MAX);
        lemma_join(n_frames as int, cs as int);
    }
    while k < count
        invariant
            k <= count,
            0 < cs,
            plan.n_chunks == chunk_count(cs as int, n_frames as int),
            rows == plan.n_chunks * n_mels,
            count == rows * cs,
            (n_frames as int / cs as int) * cs + n_frames as int % cs as int == n_frames,
            0 <= n_frames as int % (cs as int) < cs,
            n_mels * n_frames <= mel@.len() <= usize::MAX,
            data@.len() == k,
            forall|x: int|
                0 <= x < k ==> #[trigger] data@[x] == chunked_cell(
                    mel@,
                    n_frames as int,
                    cs as int,
                    zero,
                    x / (cs as int) / (n_mels as int),
                    x / (cs as int) % (n_mels as int),
                    x % (cs as int),
                ),
        decreases count - k,
    {
        let row: usize = k / cs;
        let j: usize = k % cs;
        proof {
            lemma_row_below(k as int, rows as int, cs as int);
            assert(0 < n_mels) by (nonlinear_arith)
                requires
                    0 <= row < plan.n_chunks * n_mels,
                    0 <= n_mels,
            ;
            lemma_row_below(row as int, plan.n_chunks as int, n_mels as int);
        }
        let i: usize = row / n_mels;
        let m: usize = row % n_mels;
        proof {
            assert(i * cs <= n_frames) by (nonlinear_arith)
                requires
                    0 <= i <= n_frames as int / cs as int,
                    (n_frames as int / cs as int) * cs <= n_frames,
                    0 < cs,
            ;
        }
        let start: usize = i * cs;
        if j < n_frames - start {
            proof {
                lemma_inside(m as int, n_mels as int, n_frames as int, (start + j) as int);
                lemma_monotone(m as int, n_frames as int, n_mels as int, n_frames as int);
            }
            let base: usize = m * n_frames;
            data.push(mel[base + start + j]);
        } else {
            data.push(zero);
        }
        k += 1;
    }
    proof {
        assert forall|i: int, m: int, j: int|
            0 <= i < plan.n_chunks && 0 <= m < n_mels && 0 <= j < cs implies data@[#[trigger] ((i
            * n_mels + m) * cs + j)] == chunked_cell(
            mel@,
            n_frames as int,
            cs as int,
            zero,
            i,
            m,
            j,
        ) by {
            lemma_split(i * n_mels + m, cs as int, j);
            lemma_split(i, n_mels as int, m);
            lemma_inside(i, plan.n_chunks as int, n_mels as int, m);
            lemma_inside(i * n_mels + m, rows as int, cs as int, j);
        }
    }
    (data, plan)
}

/// The valid tokens of every chunk, one chunk after the other: chunk `i` keeps
/// the first `counts[i]` of its `t2` rows of width `dm`.
pub open spec fn packed<T>(co: Seq<T>, t2: int, dm: int, counts: Seq<usize>) -> Seq<T>
    decreases counts.len(),
{
    if counts.len() == 0 {
        Seq::empty()
    } else {
        let i = counts.len() - 1;
        packed(co, t2, dm, counts.drop_last()) + co.subrange(
            i * t2 * dm,
            i * t2 * dm + counts[i] * dm,
        )
    }
}

/// Drops the padding rows of a `[n_chunks, t2, dm]` buffer.
pub fn pack_chunk_tokens<T: Copy>(co: &[T], t2: usize, dm: usize, counts: &[usize]) -> (r: Vec<T>)
    requires
        counts@.len() * t2 <= usize::MAX,
        forall|i: int|
            0 <= i < counts@.len() ==> i * t2 * dm + #[trigger] counts@[i] * dm <= co@.len(),
    ensures
        r@ == packed(co@, t2 as int, dm as int, counts@),
        r@.len() == total(counts@) * dm,
{
    let mut out: Vec<T> = Vec::new();
    let mut i: usize = 0;
    assert(counts@.take(0) =~= Seq::<usize>::empty());
    assert(total(counts@.take(0)) * dm == 0);
    assert(co.len() <= usize::MAX);
    while i < counts.len()
        invariant
            i <= counts@.len(),
            co@.len() <= usize::MAX,
            counts@.len() * t2 <= usize::MAX,
            forall|k: int|
                0 <= k < counts@.len() ==> k * t2 * dm + #[trigger] counts@[k] * dm <= co@.len(),
            out@ == packed(co@, t2 as int, dm as int, counts@.take(i as int)),
            out@.len() == total(counts@.take(i as int)) * dm,
        decreases counts@.len() - i,
    {
        let v: usize = counts[i];
        proof {
            lemma_monotone(i as int, t2 as int, counts@.len() as int, t2 as int);
            lemma_monotone(0, 0, i * t2, dm as int);
            lemma_monotone(0, 0, v as int, dm as int);
        }
        let base: usize = i * t2 * dm;
        let end: usize = base + v * dm;
        let ghost before = out@;
        let mut k: usize = base;
        while k < end
            invariant
                base <= k <= end,
                end <= co@.len(),
                out@ == before + co@.subrange(base as int, k as int),
            decreases end - k,
        {
            out.push(co[k]);
            k += 1;
            assert(co@.subrange(base as int, k as int) =~= co@.subrange(base as int, k - 1).push(
                co@[k - 1],
            ));
        }
        proof {
            let c = counts@.take(i as int + 1);
            assert(c.drop_last() =~= counts@.take(i as int));
            assert(c[c.len() - 1] == v);
            assert((total(counts@.take(i as int)) + v) * dm == total(counts@.take(i as int)) * dm + v
                * dm) by (nonlinear_arith);
        }
        i += 1;
    }
    assert(counts@.take(counts@.len() as int) =~= counts@);
    out
}

/// The chunks of a spectrogram together contribute `audio_tokens` tokens.
pub proof fn law_plan_token_total(plan: ChunkPlan, cs: int, n_frames: int)
    requires
        0 < cs,
        0 <= n_frames,
        plan.describes(cs, n_frames),
    ensures
        total(plan.chunk_tokens@) == audio_tokens(cs, n_frames),
{
    let c = plan.chunk_tokens@;
    lemma_join(n_frames, cs);
    assert(0 <= n_frames / cs) by (nonlinear_arith)
        requires
            0 <= n_frames,
            0 < cs,
    ;
    lemma_total_of_full(c, n_frames / cs, token_count(cs));
    if n_frames % cs > 0 {
        assert(c.drop_last() =~= c.take(n_frames / cs));
    } else {
        assert(c.take(n_frames / cs) =~= c);
    }
}

proof fn lemma_total_of_full(c: Seq<usize>, n: int, each: int)
    requires
        0 <= n <= c.len(),
        forall|i: int| 0 <= i < n ==> #[trigger] c[i] == each,
    ensures
        total(c.take(n)) == n * each,
    decreases n,
{
    if n > 0 {
        lemma_total_of_full(c, n - 1, each);
        assert(c.take(n).drop_last() =~= c.take(n - 1));
        assert(c.take(n).last() == each);
        assert(n * each == (n - 1) * each + each) by (nonlinear_arith);
    } else {
        assert(n * each == 0) by (nonlinear_arith)
            requires
                n == 0,
        ;
    }
}

/// No chunk contributes more tokens than the convolution stem leaves for a
/// full chunk, so packing never reads past a chunk's rows.
pub proof fn law_chunk_tokens_fit(plan: ChunkPlan, cs: int, n_frames: int, i: int)
    requires
        0 < cs,
        0 <= n_frames,
        plan.describes(cs, n_frames),
        0 <= i < plan.n_chunks,
    ensures
        1 <= plan.chunk_tokens@[i] <= conv_len(conv_len(conv_len(cs))),
{
    law_feo_is_three_convolutions(cs);
    lemma_join(n_frames, cs);
    law_token_count_monotone(n_frames % cs, cs);
}

/// A token stands for eight frames: `t` tokens hold the frames, and one token less
/// would not.
pub proof fn law_token_stands_for_eight_frames(frames: int)
    requires
        0 < frames,
    ensures
        8 * (token_count(frames) - 1) < frames <= 8 * token_count(frames),
{
}

/// A chunk is two half windows of frames. An attention window holds as many whole chunks
/// as `n_window_infer` frames do, and all their tokens.
pub proof fn law_window_holds_whole_chunks(p: ChunkParams, n_window: int, n_window_infer: int)
    requires
        0 < n_window,
        0 <= n_window_infer,
        p.describes(n_window, n_window_infer),
    ensures
        p.cs == n_window + n_window,
        8 * (p.tpc - 1) < p.cs <= 8 * p.tpc,
        p.cpw * p.cs <= n_window_infer < (p.cpw + 1) * p.cs,
        p.ws == p.cpw * p.tpc,
{
    lemma_join(n_window_infer, p.cs as int);
    assert((p.cpw + 1) * p.cs == p.cpw * p.cs + p.cs) by (nonlinear_arith);
    assert(p.cpw * p.tpc == p.tpc * p.cpw) by (nonlinear_arith);
}

/// The chunks hold all frames and the last holds at least one: every chunk but the last
/// is full. A chunk leaves a token for each eight of its frames, begun ones too.
pub proof fn law_chunks_hold_all_frames(plan: ChunkPlan, cs: int, n_frames: int, i: int)
    requires
        0 < cs,
        0 <= n_frames,
        plan.describes(cs, n_frames),
        0 <= i < plan.n_chunks,
    ensures
        plan.nfull * cs + plan.tail == n_frames,
        0 <= plan.tail < cs,
        (plan.n_chunks - 1) * cs < n_frames <= plan.n_chunks * cs,
        plan.chunk_tokens@.len() == plan.n_chunks,
        ({
            let left = n_frames - i * cs;
            let frames = if left < cs {
                left
            } else {
                cs
            };
            &&& 0 < frames
            &&& 8 * (plan.chunk_tokens@[i] - 1) < frames <= 8 * plan.chunk_tokens@[i]
        }),
{
    lemma_join(n_frames, cs);
    let full = n_frames / cs;
    assert((full + 1) * cs == full * cs + cs) by (nonlinear_arith);
    assert((full - 1) * cs == full * cs - cs) by (nonlinear_arith);
    if i < full {
        assert(i * cs + cs <= full * cs) by (nonlinear_arith)
            requires
                i + 1 <= full,
                0 < cs,
        ;
    }
}

/// The chunks together are the spectrogram: frame `f` of a mel band is in chunk
/// `f / cs`, at place `f % cs` of it, and behind the last frame stands `zero`.
pub proof fn law_chunks_are_the_spectrogram<T>(
    mel: Seq<T>,
    n_frames: int,
    cs: int,
    zero: T,
    m: int,
    f: int,
)
    requires
        0 < cs,
        0 <= f,
    ensures
        chunked_cell(mel, n_frames, cs, zero, f / cs, m, f % cs) == if f < n_frames {
            mel[m * n_frames + f]
        } else {
            zero
        },
{
    lemma_join(f, cs);
}

/// A chunk of a spectrogram is its frames from `start` on, band by band.
pub proof fn law_chunk_is_a_stretch_of_frames<T>(
    mel: Seq<T>,
    n_mels: int,
    n_frames: int,
    start: int,
    len: int,
    m: int,
    j: int,
)
    requires
        0 <= m < n_mels,
        0 <= j < len,
    ensures
        mel_chunk(mel, n_mels, n_frames, start, len).len() == n_mels * len,
        mel_chunk(mel, n_mels, n_frames, start, len)[m * len + j] == mel[m * n_frames + start + j],
{
    lemma_inside(m, n_mels, len, j);
    lemma_split(m, len, j);
}

/// Token counts add up.
pub proof fn law_total_adds_up(a: Seq<usize>, b: Seq<usize>, n: usize)
    ensures
        total(seq![n]) == n,
        total(a + b) == total(a) + total(b),
    decreases b.len(),
{
    assert(seq![n].drop_last() =~= Seq::<usize>::empty());
    assert(total(Seq::<usize>::empty()) == 0);
    if b.len() == 0 {
        assert(a + b =~= a);
    } else {
        law_total_adds_up(a, b.drop_last(), n);
        assert((a + b).drop_last() =~= a + b.drop_last());
    }
}

proof fn lemma_total_grows(counts: Seq<usize>, i: int)
    requires
        0 <= i < counts.len(),
    ensures
        0 <= total(counts.take(i)),
        total(counts.take(i)) + counts[i] <= total(counts),
    decreases counts.len(),
{
    let n = counts.len() - 1;
    lemma_total_not_negative(counts.take(i));
    if i == n {
        assert(counts.take(i) =~= counts.drop_last());
    } else {
        lemma_total_grows(counts.drop_last(), i);
        assert(counts.drop_last().take(i) =~= counts.take(i));
    }
}

proof fn lemma_total_not_negative(counts: Seq<usize>)
    ensures
        0 <= total(counts),
    decreases counts.len(),
{
    if counts.len() > 0 {
        lemma_total_not_negative(counts.drop_last());
    }
}

proof fn lemma_packed_len<T>(co: Seq<T>, t2: int, dm: int, counts: Seq<usize>)
    requires
        0 <= t2,
        0 <= dm,
        forall|i: int|
            0 <= i < counts.len() ==> i * t2 * dm + #[trigger] counts[i] * dm <= co.len(),
    ensures
        packed(co, t2, dm, counts).len() == total(counts) * dm,
    decreases counts.len(),
{
    if counts.len() > 0 {
        let before = counts.drop_last();
        let i = counts.len() - 1;
        assert forall|k: int| 0 <= k < before.len() implies k * t2 * dm + #[trigger] before[k] * dm
            <= co.len() by {
            assert(before[k] == counts[k]);
        }
        lemma_packed_len(co, t2, dm, before);
        lemma_monotone(0, 0, i, t2);
        lemma_monotone(0, 0, i * t2, dm);
        lemma_monotone(0, 0, counts[i] as int, dm);
        assert((total(before) + counts[i]) * dm == total(before) * dm + counts[i] * dm)
            by (nonlinear_arith);
    } else {
        assert(total(counts) * dm == 0) by (nonlinear_arith)
            requires
                total(counts) == 0,
        ;
    }
}

/// Packing takes the tokens of the chunks one after the other and leaves out what the
/// padding made: token `r` of chunk `i` comes behind all tokens of the chunks before it
/// and the `r` tokens of its own, with its elements in order.
pub proof fn law_packed_tokens_are_in_order<T>(
    co: Seq<T>,
    t2: int,
    dm: int,
    counts: Seq<usize>,
    i: int,
    r: int,
    x: int,
)
    requires
        0 <= t2,
        forall|k: int|
            0 <= k < counts.len() ==> k * t2 * dm + #[trigger] counts[k] * dm <= co.len(),
        0 <= i < counts.len(),
        0 <= r < counts[i],
        0 <= x < dm,
    ensures
        packed(co, t2, dm, counts).len() == total(counts) * dm,
        packed(co, t2, dm, counts)[(total(counts.take(i)) + r) * dm + x] == co[(i * t2 + r) * dm
            + x],
    decreases counts.len(),
{
    let before = counts.drop_last();
    let n = counts.len() - 1;
    lemma_packed_len(co, t2, dm, counts);
    assert forall|k: int| 0 <= k < before.len() implies k * t2 * dm + #[trigger] before[k] * dm
        <= co.len() by {
        assert(before[k] == counts[k]);
    }
    lemma_packed_len(co, t2, dm, before);
    let at = (total(counts.take(i)) + r) * dm + x;
    if i < n {
        law_packed_tokens_are_in_order(co, t2, dm, before, i, r, x);
        lemma_total_grows(before, i);
        assert(before.take(i) =~= counts.take(i));
        lemma_inside(total(counts.take(i)) + r, total(before), dm, x);
    } else {
        assert(counts.take(i) =~= before);
        lemma_monotone(0, 0, i, t2);
        lemma_monotone(0, 0, i * t2, dm);
        lemma_inside(r, counts[i] as int, dm, x);
        assert((total(before) + r) * dm + x == total(before) * dm + (r * dm + x))
            by (nonlinear_arith);
        assert((i * t2 + r) * dm + x == i * t2 * dm + (r * dm + x)) by (nonlinear_arith);
    }
}

} // verus!

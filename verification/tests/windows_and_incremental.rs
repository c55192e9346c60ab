use qwen3_asr::chunking::{plan_chunks, ChunkParams};
use qwen3_asr::incremental::{
    chunks_from, embed_incremental, forward_incremental, job_chunks, EncodedWindow, EncoderCache,
    PartialChunk, WindowJob,
};
use qwen3_asr::windows::{attention_window, safe_attention, windows, AttentionKernel, Window};

#[test]
fn windows_partition_the_tokens() {
    let all = windows(10, 4);
    assert!(all == vec![
        Window { start: 0, len: 4 },
        Window { start: 4, len: 4 },
        Window { start: 8, len: 2 },
    ]);
    assert!(windows(8, 4).len() == 2);
    assert!(windows(0, 4).is_empty());
    for p in 0..10 {
        assert_eq!(all.iter().filter(|w| w.start <= p && p < w.start + w.len).count(), 1);
    }
}

#[test]
fn window_that_limits_nothing() {
    assert_eq!(attention_window(Some(4), 10), Some(4));
    assert_eq!(attention_window(Some(10), 10), None);
    assert_eq!(attention_window(Some(0), 10), None);
    assert_eq!(attention_window(None, 10), None);
}

#[test]
fn only_single_queries_are_padded() {
    assert!(safe_attention(2, 33) == AttentionKernel::Builtin);
    assert!(safe_attention(1, 64) == AttentionKernel::Builtin);
    assert!(safe_attention(1, 33) == AttentionKernel::Padded { pad: 31 });
    assert!(safe_attention(1, 63) == AttentionKernel::Padded { pad: 1 });
}

fn params() -> ChunkParams {
    ChunkParams::new(4, 16) // chunks of 8 frames, two per window
}

fn encode(cache: &mut EncoderCache<usize>, n_frames: usize) -> Vec<WindowJob> {
    let p = params();
    let mut jobs = Vec::new();
    while let Some(job) = cache.next_window(p, n_frames) {
        jobs.push(job);
        cache.push_window(EncodedWindow { tokens: p.ws, embeddings: job.start_chunk });
    }
    jobs
}

#[test]
fn windows_are_encoded_once() {
    let mut cache = EncoderCache::<usize>::new();
    assert!(encode(&mut cache, 15).is_empty());
    assert!(encode(&mut cache, 35) == vec![
        WindowJob { start_chunk: 0, n_chunks: 2 },
        WindowJob { start_chunk: 2, n_chunks: 2 },
    ]);
    assert!(encode(&mut cache, 40).is_empty());
    assert!(encode(&mut cache, 50) == vec![WindowJob { start_chunk: 4, n_chunks: 2 }]);
    assert_eq!(cache.cached_tokens(), 6);
}

#[test]
fn the_rest_is_encoded_every_time() {
    let mut cache = EncoderCache::<usize>::default();
    encode(&mut cache, 43);
    let rest = cache.finish(params(), 43).unwrap();
    assert_eq!(cache.committed_chunks, 4);
    assert!(rest == vec![
        PartialChunk { start: 32, frames: 8, tokens: 1 },
        PartialChunk { start: 40, frames: 3, tokens: 1 },
    ]);
    let whole: usize = plan_chunks(43, 8).chunk_tokens.iter().sum();
    assert_eq!(cache.cached_tokens() + rest.iter().map(|c| c.tokens).sum::<usize>(), whole);
}

#[test]
fn even_recording_has_no_rest() {
    let mut cache = EncoderCache::<usize>::new();
    encode(&mut cache, 32);
    assert!(cache.finish(params(), 32).unwrap().is_empty());
    assert_eq!(cache.cached_tokens(), 4);
}

#[test]
fn no_audio_tokens() {
    let mut cache = EncoderCache::<usize>::new();
    assert!(cache.finish(params(), 0).is_none());
    assert_eq!(cache.committed_chunks, 0);
}

/// Chunks by their first frame stand for embeddings.
fn run(cache: &mut EncoderCache<Vec<usize>>, n_frames: usize) -> Result<Option<EncodedWindow<Vec<usize>>>, String> {
    let p = params();
    let window = |job: WindowJob| EncodedWindow {
        tokens: p.ws,
        embeddings: (job.start_chunk..job.start_chunk + job.n_chunks).map(|i| i * p.cs).collect(),
    };
    let rest = |chunks: &[PartialChunk]| EncodedWindow {
        tokens: chunks.iter().map(|c| c.tokens).sum(),
        embeddings: chunks.iter().map(|c| c.start).collect(),
    };
    forward_incremental(cache, p, n_frames, window, rest)
}

#[test]
fn a_new_cache_keeps_the_complete_windows() {
    let p = params();
    for n_frames in 0..200 {
        let mut cache = EncoderCache::new();
        let r = run(&mut cache, n_frames);
        let ncw = n_frames / p.cs / p.cpw;
        assert_eq!(cache.completed_windows.len(), ncw);
        assert_eq!(cache.committed_chunks, ncw * p.cpw);
        if n_frames == 0 {
            assert_eq!(r.err().unwrap(), "no audio tokens");
            continue;
        }
        let rest = r.unwrap();
        let mut starts: Vec<usize> = Vec::new();
        let mut tokens = 0;
        for w in cache.completed_windows.iter().chain(rest.as_ref()) {
            starts.extend(&w.embeddings);
            tokens += w.tokens;
        }
        let chunks = n_frames.div_ceil(p.cs);
        assert_eq!(starts, (0..chunks).map(|i| i * p.cs).collect::<Vec<_>>());
        assert_eq!(tokens, plan_chunks(n_frames, p.cs).chunk_tokens.iter().sum::<usize>());
    }
}

#[test]
fn a_growing_recording_keeps_its_windows() {
    let mut cache = EncoderCache::new();
    run(&mut cache, 50).unwrap();
    let kept: Vec<Vec<usize>> = cache.completed_windows.iter().map(|w| w.embeddings.clone()).collect();
    run(&mut cache, 190).unwrap();
    assert!(kept.len() < cache.completed_windows.len());
    for (w, old) in cache.completed_windows.iter().zip(&kept) {
        assert_eq!(&w.embeddings, old);
    }
}

#[test]
fn chunks_of_a_recording() {
    let p = params();
    let all = chunks_from(43, p.cs, 0);
    assert_eq!(all.len(), 6);
    assert!(all[1] == PartialChunk { start: 8, frames: 8, tokens: 1 });
    assert!(all[5] == PartialChunk { start: 40, frames: 3, tokens: 1 });
    assert!(chunks_from(43, p.cs, 4) == all[4..]);
    assert!(job_chunks(p, WindowJob { start_chunk: 2, n_chunks: 2 }) == all[2..4]);
    assert!(chunks_from(0, p.cs, 0).is_empty());
}

/// Every chunk is embedded as its first frame and its length.
fn embed(cache: &mut EncoderCache<Vec<usize>>, n_frames: usize) -> Result<Vec<usize>, String> {
    let p = params();
    let encode = |chunks: &[PartialChunk]| EncodedWindow {
        tokens: chunks.iter().map(|c| c.tokens).sum(),
        embeddings: chunks.iter().flat_map(|c| [c.start, c.frames]).collect(),
    };
    embed_incremental(cache, p, n_frames, |job: WindowJob| encode(&job_chunks(p, job)), encode)
}

#[test]
fn growing_embeddings_are_those_of_one_pass() {
    let mut growing = EncoderCache::new();
    for n_frames in [5, 16, 17, 40, 43, 64, 99, 190] {
        let want: Vec<usize> =
            chunks_from(n_frames, params().cs, 0).iter().flat_map(|c| [c.start, c.frames]).collect();
        assert_eq!(embed(&mut growing, n_frames).unwrap(), want);
        assert_eq!(embed(&mut EncoderCache::new(), n_frames).unwrap(), want);
    }
    assert_eq!(embed(&mut EncoderCache::new(), 0).unwrap_err(), "no audio tokens");
}

#[test]
fn windows_of_chunks_are_attention_windows() {
    let p = ChunkParams::new(50, 300);
    for n_frames in 0..1200 {
        let counts = plan_chunks(n_frames, p.cs).chunk_tokens;
        let total: usize = counts.iter().sum();
        let runs: Vec<usize> = counts.chunks(p.cpw).map(|c| c.iter().sum()).collect();
        assert_eq!(windows(total, p.ws).iter().map(|w| w.len).collect::<Vec<_>>(), runs);
    }
}

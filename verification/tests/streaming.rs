use qwen3_asr::streaming::{Action, AsrStreamingSession, Phase};

type Session = AsrStreamingSession<i32, i32, i32>;

// Chunks of 8 frames leave one token, a window holds two of them; one mel bin, tokens and
// embeddings of width one. Every sample is one frame.
fn session() -> Session {
    AsrStreamingSession::new(4, 16, 1, 1, 1)
}

/// What the encoder was asked for.
#[derive(Default, Debug, PartialEq)]
struct Log {
    chunks: Vec<Vec<i32>>,
    windows: Vec<Vec<i32>>,
    flushed: Option<Vec<i32>>,
}

/// Answers every request: the token of a chunk is its first frame, the embedding of a token is
/// its negative.
fn drive(s: &mut Session, first: Action<i32, i32, i32>, log: &mut Log) {
    let mut action = first;
    loop {
        action = match action {
            Action::ExtractMel => {
                let mel = s.samples().to_vec();
                let n = mel.len();
                s.on_mel(mel, n)
            }
            Action::ConvStem { mel, frames } => {
                assert_eq!(frames, 8);
                let token = mel[0];
                log.chunks.push(mel);
                s.on_tokens(vec![token])
            }
            Action::ConvStemTail { mel, frames, chunk_frames } => {
                assert_eq!((mel.len(), chunk_frames), (frames, 8));
                let token = mel[0];
                log.chunks.push(mel);
                s.on_tokens(vec![token])
            }
            Action::Transformer { tokens, count } => {
                assert_eq!(tokens.len(), count);
                let out = tokens.iter().map(|t| -t).collect();
                log.windows.push(tokens);
                s.on_embeddings(out)
            }
            Action::Pushed => return,
            Action::Flushed { embeddings } => {
                log.flushed = Some(embeddings);
                return;
            }
        };
    }
}

fn push(s: &mut Session, samples: &[i32], log: &mut Log) {
    let action = s.push_samples(samples);
    drive(s, action, log);
}

fn flush(s: &mut Session, log: &mut Log) {
    let action = s.flush();
    drive(s, action, log);
}

#[test]
fn sizes_of_a_session() {
    let s = session();
    let p = s.dims().params;
    assert_eq!((p.cs, p.tpc, p.cpw, p.ws), (8, 1, 2, 2));
    assert_eq!((s.sample_count(), s.processed_mel_frames()), (0, 0));
    assert!(matches!(s.phase(), Phase::Idle));
}

#[test]
fn full_chunks_are_encoded_as_they_come() {
    let mut s = session();
    let mut log = Log::default();
    push(&mut s, &(0..7).collect::<Vec<i32>>(), &mut log);
    assert_eq!(log, Log::default());
    push(&mut s, &[7], &mut log);
    assert_eq!(log.chunks, vec![(0..8).collect::<Vec<i32>>()]);
    assert!(log.windows.is_empty());
    assert_eq!((s.sample_count(), s.processed_mel_frames()), (8, 8));
    push(&mut s, &(8..20).collect::<Vec<i32>>(), &mut log);
    assert_eq!(log.chunks.len(), 2);
    assert_eq!(log.windows, vec![vec![0, 8]]);
}

#[test]
fn flush_encodes_the_tail_and_the_last_window() {
    let mut s = session();
    let mut log = Log::default();
    push(&mut s, &(0..27).collect::<Vec<i32>>(), &mut log);
    assert_eq!(log.windows, vec![vec![0, 8]]);
    flush(&mut s, &mut log);
    assert_eq!(log.chunks.last().unwrap(), &vec![24, 25, 26]);
    assert_eq!(log.windows, vec![vec![0, 8], vec![16, 24]]);
    assert_eq!(log.flushed, Some(vec![0, -8, -16, -24]));
}

#[test]
fn a_shorter_last_window() {
    let mut s = session();
    let mut log = Log::default();
    push(&mut s, &(0..17).collect::<Vec<i32>>(), &mut log);
    flush(&mut s, &mut log);
    assert_eq!(log.windows, vec![vec![0, 8], vec![16]]);
    assert_eq!(log.flushed, Some(vec![0, -8, -16]));
}

#[test]
fn nothing_pushed_flushes_to_nothing() {
    let mut s = session();
    let mut log = Log::default();
    flush(&mut s, &mut log);
    assert_eq!(log, Log { flushed: Some(vec![]), ..Log::default() });
}

#[test]
fn how_samples_are_cut_does_not_matter() {
    let samples: Vec<i32> = (0..45).collect();
    let mut whole = Log::default();
    let mut s = session();
    push(&mut s, &samples, &mut whole);
    flush(&mut s, &mut whole);
    for size in [1, 3, 8, 13, 44] {
        let mut log = Log::default();
        let mut s = session();
        for part in samples.chunks(size) {
            push(&mut s, part, &mut log);
        }
        flush(&mut s, &mut log);
        assert_eq!(log, whole, "pieces of {size}");
    }
}

#[test]
fn abort_keeps_what_was_encoded() {
    let mut s = session();
    let mut log = Log::default();
    push(&mut s, &(0..8).collect::<Vec<i32>>(), &mut log);
    let action = s.push_samples(&[8]);
    assert!(matches!(action, Action::ExtractMel));
    s.abort();
    assert!(matches!(s.phase(), Phase::Idle));
    assert_eq!((s.sample_count(), s.processed_mel_frames()), (9, 8));
}

#[test]
fn samples_are_the_sum_of_all_pushes() {
    let mut s = session();
    let mut log = Log::default();
    let mut pushed: Vec<i32> = Vec::new();
    for (i, size) in [3usize, 0, 9, 1, 20, 5].into_iter().enumerate() {
        let samples: Vec<i32> = (0..size as i32).map(|k| 100 * i as i32 + k).collect();
        pushed.extend(&samples);
        if i % 2 == 0 {
            s.push_samples(&samples);
            s.abort();
        } else {
            push(&mut s, &samples, &mut log);
            flush(&mut s, &mut log);
        }
        assert_eq!(s.samples(), pushed);
        assert_eq!(s.sample_count(), pushed.len());
    }
}

use qwen3_asr::chunking::{
    chunk_mel, extract_mel_chunk, feo, pack_chunk_tokens, plan_chunks, ChunkParams,
};

#[test]
fn feo_is_three_halvings() {
    let half = |l: usize| (l - 1) / 2 + 1;
    for n in 1..500 {
        assert_eq!(feo(n), half(half(half(n))));
    }
    assert_eq!(feo(100), 13);
    assert_eq!(feo(1), 1);
    assert_eq!(feo(8), 1);
    assert_eq!(feo(9), 2);
}

#[test]
fn params_of_the_model() {
    let p = ChunkParams::new(50, 800);
    assert_eq!((p.cs, p.tpc, p.cpw, p.ws), (100, 13, 8, 104));
}

#[test]
fn plan_splits_off_the_tail() {
    let plan = plan_chunks(250, 100);
    assert_eq!((plan.nfull, plan.tail, plan.n_chunks), (2, 50, 3));
    assert_eq!(plan.chunk_tokens, vec![13, 13, 7]);
    let even = plan_chunks(200, 100);
    assert_eq!((even.nfull, even.tail, even.n_chunks), (2, 0, 2));
    assert_eq!(even.chunk_tokens, vec![13, 13]);
    let none = plan_chunks(0, 100);
    assert_eq!((none.nfull, none.tail, none.n_chunks), (0, 0, 0));
    assert!(none.chunk_tokens.is_empty());
}

#[test]
fn chunked_spectrogram_is_padded_behind_its_end() {
    // two mel bins, five frames
    let mel = vec![1, 2, 3, 4, 5, 10, 20, 30, 40, 50];
    let (data, plan) = chunk_mel(&mel, 2, 5, 2, 0);
    assert_eq!(plan.n_chunks, 3);
    assert_eq!(data, vec![1, 2, 10, 20, 3, 4, 30, 40, 5, 0, 50, 0]);
}

#[test]
fn extracted_chunk_keeps_the_bins_apart() {
    let mel = vec![1, 2, 3, 4, 5, 10, 20, 30, 40, 50];
    assert_eq!(extract_mel_chunk(&mel, 2, 5, 1, 3), vec![2, 3, 4, 20, 30, 40]);
    assert!(extract_mel_chunk(&mel, 2, 5, 5, 0).is_empty());
}

#[test]
fn packing_drops_the_padding_rows() {
    // two chunks of three rows of width two
    let co: Vec<i32> = (0..12).collect();
    assert_eq!(pack_chunk_tokens(&co, 3, 2, &[3, 1]), vec![0, 1, 2, 3, 4, 5, 6, 7]);
    assert!(pack_chunk_tokens(&co, 3, 2, &[]).is_empty());
}

use qwen3_asr::backend::{plan_engine, Backend};
use qwen3_asr::generate::{plan_generation, splice_embeddings, DecodeAction, DecodeLoop};

fn run(backend: Backend, max: usize, tokens: &[i64]) -> (Vec<u32>, Vec<Option<usize>>, bool) {
    let mut l = DecodeLoop::new(backend, 10, max);
    let mut positions = Vec::new();
    for &t in tokens {
        if l.is_done() {
            break;
        }
        match l.advance(t) {
            DecodeAction::Emit { token_id, forward } => {
                assert_eq!(token_id as i64, t);
                positions.push(forward.map(|f| f.position));
            }
            DecodeAction::Stop => {}
        }
    }
    (l.generated().to_vec(), positions, l.is_done())
}

#[test]
fn both_loops_stop_at_end_tokens() {
    for backend in [Backend::Cpu, Backend::Cuda] {
        for eos in [151643, 151645] {
            let (ids, positions, done) = run(backend, 100, &[5, 6, eos, 7]);
            assert_eq!(ids, vec![5, 6]);
            assert_eq!(positions, vec![Some(10), Some(11)]);
            assert!(done);
        }
    }
}

#[test]
fn both_loops_stop_at_the_limit() {
    let (ids, positions, done) = run(Backend::Cpu, 2, &[5, 6, 7, 8]);
    assert_eq!(ids, vec![5, 6]);
    assert_eq!(positions, vec![Some(10), Some(11)]);
    assert!(done);
    let (ids, positions, done) = run(Backend::Cuda, 2, &[5, 6, 7, 8]);
    assert_eq!(ids, vec![5, 6]);
    // the network does not run again after the last token
    assert_eq!(positions, vec![Some(10), None]);
    assert!(done);
}

#[test]
fn a_limit_of_zero() {
    assert_eq!(run(Backend::Cpu, 0, &[5, 6]).0, Vec::<u32>::new());
    assert_eq!(run(Backend::Cuda, 0, &[5, 6]).0, Vec::<u32>::new());
}

#[test]
fn a_lower_limit_gives_a_prefix() {
    for tokens in [vec![5, 6, 7, 8, 9], vec![5, 6, 151645, 8], vec![]] {
        for backend in [Backend::Cpu, Backend::Cuda] {
            for higher in 0..6 {
                let long = run(backend, higher, &tokens).0;
                for lower in 0..=higher {
                    let short = run(backend, lower, &tokens).0;
                    assert!(long.starts_with(&short));
                    assert!(short.len() == long.len() || short.len() == lower);
                }
            }
        }
    }
}

#[test]
fn prompt_is_split_around_the_audio() {
    let plan = plan_generation(vec![1, 2, 9, 9, 9, 3], 2, 3, 4);
    assert_eq!(plan.before_ids, vec![1, 2]);
    assert_eq!(plan.after_ids, vec![3]);
    assert_eq!((plan.n_audio, plan.seq_len, plan.total_positions), (3, 6, 10));
    assert_eq!(plan.positions, (0..10).collect::<Vec<i64>>());
}

#[test]
fn embeddings_are_spliced_in_order() {
    let t = splice_embeddings(&[1, 2], &[3, 4, 5, 6], &[7, 8], 4, 2);
    assert_eq!(t.shape, vec![1, 4, 2]);
    assert_eq!(t.data, (1..=8).collect::<Vec<i32>>());
}

#[test]
fn best_backend_is_the_device_that_works() {
    let works: Result<u8, &str> = Ok(1);
    let fails: Result<u8, &str> = Err("no device");
    assert!(Backend::best(&works) == Backend::Cuda);
    assert!(Backend::best(&fails) == Backend::Cpu);
    assert_eq!((Backend::Cuda.tag(), Backend::Cpu.tag()), ("cuda:0", "cpu"));
    assert_eq!((Backend::Cuda.pipeline_tag(), Backend::Cpu.pipeline_tag()), ("cuda", "cpu"));
}

#[test]
fn engine_plans() {
    let cpu = plan_engine(Backend::Cpu);
    assert_eq!(cpu.decoder_prefix, "thinker.model");
    assert_eq!(cpu.audio_prefix, "thinker.audio_tower");
    assert_eq!(cpu.decoder_context, "load CPU text decoder");
    assert_eq!(cpu.audio_context, "load CPU audio encoder");
    let gpu = plan_engine(Backend::Cuda);
    assert_eq!(gpu.decoder_context, "load GPU text decoder");
    assert_eq!(gpu.audio_context, "load GPU audio encoder");
}

use qwen3_asr::chunking::ChunkParams;
use qwen3_asr::cudarc_engine::{CudaState, GpuTensor, GpuWeight};
use qwen3_asr::gpu_audio_encoder::{
    AudioAttentionCore, AudioOperand, GpuAudioAttention, GpuAudioEncoder, GpuAudioFfn, GpuAudioLayer, GpuConvStem,
    GpuLinear, StemOperand,
};
use qwen3_asr::gpu_decoder::{
    attention_path, text_decoder_head, AttentionPath, AttentionPlan, DecodeAttention, DecodeScratch,
    DecoderConfig, GpuDecoderLayer, GpuKvCache, GpuTextDecoder, HeadOperand,
};
use qwen3_asr::launch::{block_for_reduction, compile_plan, elementwise, Kernel};
use qwen3_asr::steps::{LayerOperand, Operands};

fn works<O: PartialEq + std::fmt::Debug>(on: &Operands<O>, writes: &[O], reads: &[O]) {
    assert_eq!(on.writes, writes);
    assert_eq!(on.reads, reads);
}

fn cuda() -> CudaState {
    CudaState::new_with_ctx(Some((8, 6)), Some("/opt/cuda"))
}

fn tensor(shape: &[usize]) -> GpuTensor {
    GpuTensor::of_shape(shape.to_vec())
}

fn layer() -> GpuDecoderLayer {
    GpuDecoderLayer {
        qkv_w: GpuWeight { rows: 4096, cols: 1024 },
        o_w: GpuWeight { rows: 1024, cols: 2048 },
        gu_w: GpuWeight { rows: 6144, cols: 1024 },
        dp_w: GpuWeight { rows: 1024, cols: 3072 },
        nqh: 16,
        nkvh: 8,
        hd: 128,
        hs: 1024,
    }
}

fn config() -> DecoderConfig {
    DecoderConfig {
        hidden_size: 1024,
        num_attention_heads: 16,
        num_key_value_heads: 8,
        head_dim: 128,
        intermediate_size: 3072,
        vocab_size: 151936,
    }
}

#[test]
fn reduction_blocks() {
    let cases = [(1, 32), (32, 32), (33, 64), (128, 128), (1000, 1024), (100_000, 1024)];
    for (last, block) in cases {
        assert_eq!(block_for_reduction(last), block);
    }
}

#[test]
fn one_thread_per_element() {
    let l = elementwise(Kernel::Add, 2049, vec![2049]);
    assert_eq!(l.config.grid_dim, (3, 1, 1));
    assert_eq!(l.config.block_dim, (1024, 1, 1));
    assert_eq!(l.config.shared_mem_bytes, 0);
    let theirs = cudarc::driver::LaunchConfig::for_num_elems(2049);
    assert_eq!(theirs.grid_dim, l.config.grid_dim);
    assert_eq!(elementwise(Kernel::Add, 0, vec![]).config.grid_dim, (0, 1, 1));
}

#[test]
fn kernels_have_different_symbols() {
    let all = Kernel::all();
    for (i, a) in all.iter().enumerate() {
        for b in &all[i + 1..] {
            assert_ne!(a.symbol(), b.symbol());
        }
    }
    assert_eq!(all.len(), 34);
}

#[test]
fn compilation_targets_the_device() {
    let c = cuda().compile;
    assert_eq!(c.arch.as_deref(), Some("sm_86"));
    assert_eq!(c.include_path, "/opt/cuda/include");
    let c = compile_plan(None, None);
    assert_eq!(c.arch, None);
    assert_eq!(c.include_path, "/usr/local/cuda/include");
}

#[test]
fn shapes_of_products() {
    let y = cuda().linear_gpu(&tensor(&[1, 5, 1024]), GpuWeight { rows: 4096, cols: 1024 });
    assert_eq!(y.out.shape(), &[1, 5, 4096]);
    assert_eq!((y.gemm.m, y.gemm.n, y.gemm.k), (4096, 5, 1024));
    assert_eq!((y.gemm.lda, y.gemm.ldb, y.gemm.ldc), (1024, 1024, 4096));
    assert!(y.gemm.transa && !y.gemm.accumulate);
    let qk = cuda().attention_qk(&tensor(&[1, 16, 5, 128]), &tensor(&[1, 16, 7, 128]));
    assert_eq!(qk.out.shape(), &[1, 16, 5, 7]);
    assert_eq!(qk.gemm.batch_size, 16);
    assert_eq!((qk.gemm.stride_a, qk.gemm.stride_b, qk.gemm.stride_c), (7 * 128, 5 * 128, 35));
    let av = cuda().attention_av(&qk.out, &tensor(&[1, 16, 7, 128]));
    assert_eq!(av.out.shape(), &[1, 16, 5, 128]);
    assert!(!av.gemm.gemm.transa);
}

#[test]
fn normalisations() {
    let n = cuda().rms_norm(&tensor(&[2, 5, 100]));
    assert_eq!(n.launch.config.grid_dim, (10, 1, 1));
    assert_eq!(n.launch.config.block_dim, (128, 1, 1));
    assert_eq!(n.launch.config.shared_mem_bytes, 512);
    assert_eq!(n.launch.ints, vec![100, 10]);
    let n = cuda().layer_norm(&tensor(&[2, 5, 100]));
    assert_eq!(n.launch.config.shared_mem_bytes, 1024);
}

#[test]
fn convolution_halves_both_axes() {
    let c = cuda().conv2d_3x3_s2p1_gelu(&tensor(&[3, 1, 128, 100]), 480, 1);
    assert_eq!(c.out.shape(), &[3, 480, 64, 50]);
    assert_eq!(c.col_len, 3 * 64 * 50 * 9);
    assert_eq!(c.gemm_len, 3 * 64 * 50 * 480);
    assert_eq!(c.im2col.ints, vec![3, 1, 128, 100, 64, 50]);
}

#[test]
fn attention_paths() {
    assert!(attention_path(2, 5000) == AttentionPath::Prefill);
    assert!(attention_path(1, 1024) == AttentionPath::Decode);
    assert!(attention_path(1, 1025) == AttentionPath::DecodeSplit { chunk_size: 256 });
    assert!(attention_path(1, 2048) == AttentionPath::DecodeSplit { chunk_size: 512 });
}

#[test]
fn prefill_of_a_layer() {
    let p = layer().forward(&cuda(), &tensor(&[1, 30, 1024]), 64, 4, true);
    assert_eq!(p.cur_len, 34);
    assert_eq!(p.qkv.run.out.shape(), &[1, 30, 4096]);
    assert_eq!(p.extract.run.launch.ints, vec![1, 16, 8, 30, 128, 4096, 2048, 1024, 64, 4, 4]);
    assert_eq!(p.extract.run.launch.config.grid_dim, (30, 24, 1));
    match p.attention {
        AttentionPlan::Prefill { keys, values, scores, softmax, output } => {
            assert_eq!(keys.run.out.shape(), &[1, 16, 34, 128]);
            assert_eq!(values.run.out.shape(), &[1, 16, 34, 128]);
            assert_eq!(scores.run.out.shape(), &[1, 16, 30, 34]);
            assert_eq!(softmax.run.launch.ints, vec![30, 34, 1]);
            assert_eq!(output.run.out.shape(), &[1, 16, 30, 128]);
            works(&keys.on, &[LayerOperand::Keys], &[LayerOperand::KeyCache]);
            works(&values.on, &[LayerOperand::Values], &[LayerOperand::ValueCache]);
            works(&scores.on, &[LayerOperand::Scores], &[LayerOperand::Keys, LayerOperand::Query]);
            works(&softmax.on, &[LayerOperand::Weights], &[LayerOperand::Scores]);
            works(
                &output.on,
                &[LayerOperand::Attended],
                &[LayerOperand::Values, LayerOperand::Weights],
            );
        }
        _ => panic!("several tokens are a prefill"),
    }
    assert!(p.merge.is_some());
    assert_eq!(p.attn_flat.shape(), &[1, 30, 2048]);
    assert!(p.o_proj.run.accumulate && p.down.run.accumulate);
    assert_eq!(p.activation.run.out.shape(), &[1, 30, 3072]);
    works(
        &p.input_norm.on,
        &[LayerOperand::Normed],
        &[LayerOperand::Stream, LayerOperand::InputNorm],
    );
    works(&p.qkv.on, &[LayerOperand::Qkv], &[LayerOperand::QkvProj, LayerOperand::Normed]);
    works(
        &p.extract.on,
        &[LayerOperand::Query, LayerOperand::KeyCache, LayerOperand::ValueCache],
        &[
            LayerOperand::Qkv, LayerOperand::QueryNorm, LayerOperand::KeyNorm, LayerOperand::Cos,
            LayerOperand::Sin,
        ],
    );
    works(&p.merge.unwrap().on, &[LayerOperand::Merged], &[LayerOperand::Attended]);
    works(&p.o_proj.on, &[LayerOperand::Stream], &[LayerOperand::OutProj, LayerOperand::Merged]);
    works(
        &p.gate_up.on,
        &[LayerOperand::GateUp],
        &[LayerOperand::GateUpProj, LayerOperand::NormedBehind],
    );
    works(&p.down.on, &[LayerOperand::Stream], &[LayerOperand::DownProj, LayerOperand::Activated]);
}

#[test]
fn decoding_step_of_a_layer() {
    let p = layer().forward(&cuda(), &tensor(&[1, 1, 1024]), 4096, 99, true);
    assert!(p.merge.is_none());
    match p.attention {
        AttentionPlan::Decode { launch } => {
            assert_eq!(launch.run.launch.config.block_dim, (256, 1, 1));
            assert_eq!(launch.run.launch.config.shared_mem_bytes, (100 + 128 * 2) * 4);
            assert_eq!(launch.run.launch.ints, vec![1, 16, 8, 4096, 128, 100]);
            works(
                &launch.on,
                &[LayerOperand::Attended],
                &[LayerOperand::Query, LayerOperand::KeyCache, LayerOperand::ValueCache],
            );
        }
        _ => panic!("a short context takes one launch"),
    }
    let p = layer().forward(&cuda(), &tensor(&[1, 1, 1024]), 4096, 2999, true);
    match p.attention {
        AttentionPlan::Split { plan, p1, p2 } => {
            assert_eq!(p1.writes, p2.reads);
            assert_eq!(p2.writes, vec![LayerOperand::Attended]);
            assert_eq!(plan.n_chunks, 6);
            assert_eq!(plan.part_out_len, 16 * 6 * 128);
            assert_eq!(plan.p1.ints, vec![1, 16, 8, 4096, 128, 3000, 512, 6]);
            assert_eq!(plan.p2.ints, vec![1, 16, 6, 128]);
        }
        _ => panic!("a long context is split"),
    }
}

#[test]
fn scratch_fits_a_decoding_step() {
    let scratch = DecodeScratch::new(4096, config());
    assert_eq!(scratch.qkv, 4096);
    assert_eq!(scratch.attn_out, 2048);
    assert_eq!(scratch.gate_up, 6144);
    assert_eq!(scratch.split_part_out, 16 * 16 * 128);
    assert_eq!(scratch.logits, 151936);
    let p = layer().forward_decode(&cuda(), 4096, 2999, &scratch);
    assert_eq!(p.cur_len, 3000);
    match p.attention {
        DecodeAttention::Split { p1, p2 } => {
            assert_eq!(p1.run.config.grid_dim, (16, 16, 1));
            assert_eq!(p1.run.config.shared_mem_bytes, (512 + 256) * 4);
            assert_eq!(p2.run.ints, vec![1, 16, 6, 128]);
            assert_eq!(p1.on.writes, p2.on.reads);
        }
        DecodeAttention::Single { .. } => panic!("a long context is split"),
    }
    assert_eq!(p.activation.run.ints, vec![1, 3072]);
    works(&p.o_proj.on, &[LayerOperand::Stream], &[LayerOperand::OutProj, LayerOperand::Attended]);
    works(
        &p.post_norm.on,
        &[LayerOperand::NormedBehind],
        &[LayerOperand::Stream, LayerOperand::PostNorm],
    );
}

#[test]
fn whole_decoder() {
    let decoder = GpuTextDecoder {
        embed_table: GpuWeight { rows: 151936, cols: 1024 },
        layers: vec![layer(), layer()],
    };
    let mut kv = GpuKvCache::new(2, 1, 8, 64, 128);
    assert_eq!(kv.layer_len, 8 * 64 * 128);
    let plan = decoder.forward(&cuda(), &tensor(&[1, 30, 1024]), &mut kv, 0, true, true);
    assert_eq!(plan.layers.len(), 2);
    assert_eq!(kv.cur_len, 30);
    let last = plan.head.last.unwrap();
    assert_eq!((last.run.offset, last.run.len), (29 * 1024, 1024));
    assert_eq!(plan.head.logits.run.out.shape(), &[1, 1, 151936]);
    works(&plan.head.logits.on, &[HeadOperand::Logits], &[HeadOperand::Table, HeadOperand::Last]);
    let scratch = DecodeScratch::new(64, config());
    let step = decoder.forward_decode_scratch(&cuda(), &mut kv, 30, &scratch);
    assert_eq!(kv.cur_len, 31);
    assert_eq!(step.layers[1].cur_len, 31);
    assert_eq!(step.head.argmax.run.ints, vec![151936, 0]);
    let all = text_decoder_head(&cuda(), &tensor(&[1, 30, 1024]), decoder.embed_table, false);
    assert!(all.last.is_none());
    assert_eq!(all.logits.run.out.shape(), &[1, 30, 151936]);
    assert_eq!(decoder.embed_ids(&cuda(), 3).out.shape(), &[3, 1024]);
}

fn square(n: usize, bias: bool) -> GpuLinear {
    GpuLinear { w: GpuWeight { rows: n, cols: n }, bias }
}

fn audio_layer() -> GpuAudioLayer {
    GpuAudioLayer {
        attn: GpuAudioAttention {
            q_proj: square(896, true),
            k_proj: square(896, false),
            v_proj: square(896, true),
            out_proj: square(896, true),
            num_heads: 14,
            head_dim: GpuAudioAttention::head_dim_for(14, 896),
        },
        ffn: GpuAudioFfn {
            fc1: GpuLinear { w: GpuWeight { rows: 3584, cols: 896 }, bias: true },
            fc2: GpuLinear { w: GpuWeight { rows: 896, cols: 3584 }, bias: true },
        },
    }
}

#[test]
fn audio_attention_in_windows() {
    let p = audio_layer().forward(&cuda(), &tensor(&[1, 250, 896]), Some(104));
    assert!(p.attn.q.bias.is_some() && p.attn.k.bias.is_none());
    assert_eq!(p.attn.q_heads.run.out.shape(), &[1, 14, 250, 64]);
    works(
        &p.attn.v.linear.on,
        &[AudioOperand::Value],
        &[AudioOperand::ValueProj, AudioOperand::Normed],
    );
    works(&p.attn.q.bias.unwrap().on, &[AudioOperand::Query], &[AudioOperand::QueryBias]);
    works(&p.attn.k_heads.on, &[AudioOperand::KeyHeads], &[AudioOperand::Key]);
    match p.attn.core {
        AudioAttentionCore::Windowed { plans } => {
            let runs: Vec<(usize, usize)> = plans.iter().map(|w| (w.window.start, w.window.len)).collect();
            assert_eq!(runs, vec![(0, 104), (104, 104), (208, 42)]);
            assert_eq!(plans[2].q.run.launch.ints, vec![1, 14, 250, 64, 208, 42]);
            assert_eq!(plans[2].core.scores.run.out.shape(), &[1, 14, 42, 42]);
            assert_eq!(plans[2].write.run.ints, vec![1, 14, 250, 64, 208, 42]);
            works(
                &plans[1].core.output.on,
                &[AudioOperand::WindowOut],
                &[AudioOperand::ValueWindow, AudioOperand::Weights],
            );
            works(&plans[1].write.on, &[AudioOperand::Attended], &[AudioOperand::WindowOut]);
        }
        AudioAttentionCore::Whole { .. } => panic!("the sequence is longer than a window"),
    }
    assert_eq!(p.attn.out.linear.run.out.shape(), &[1, 250, 896]);
    assert_eq!(p.ffn.fc1.linear.run.out.shape(), &[1, 250, 3584]);
    works(&p.add.on, &[AudioOperand::Added], &[AudioOperand::Stream, AudioOperand::AttnOut]);
    works(&p.ffn.gelu.on, &[AudioOperand::Hidden], &[]);
    works(&p.ffn.fc2.linear.on, &[AudioOperand::FfnOut], &[AudioOperand::Fc2, AudioOperand::Hidden]);
    works(&p.add_ffn.on, &[AudioOperand::Added], &[AudioOperand::FfnOut]);
    let p = audio_layer().forward(&cuda(), &tensor(&[1, 104, 896]), Some(104));
    assert!(matches!(p.attn.core, AudioAttentionCore::Whole { .. }));
}

#[test]
fn convolution_stem_leaves_the_tokens_of_a_chunk() {
    let stem = GpuConvStem {
        c1_out: 480,
        c2_out: 480,
        c3_out: 480,
        co: GpuLinear { w: GpuWeight { rows: 896, cols: 480 * 16 }, bias: false },
    };
    let p = stem.forward(&cuda(), 3, 128, 100);
    assert_eq!(p.t2, 13);
    assert_eq!(p.flat.run.shape(), &[3, 13, 480 * 16]);
    assert_eq!(p.co.linear.run.out.shape(), &[3, 13, 896]);
    works(&p.c2.im2col, &[StemOperand::Columns], &[StemOperand::Conv1]);
    works(&p.c2.gemm, &[StemOperand::Product], &[StemOperand::Taps2, StemOperand::Columns]);
    works(&p.c2.postprocess, &[StemOperand::Conv2], &[StemOperand::Product, StemOperand::Bias2]);
    works(&p.positions, &[StemOperand::Tokens], &[StemOperand::Positions]);
}

#[test]
fn audio_transformer() {
    let encoder = GpuAudioEncoder {
        layers: vec![audio_layer(), audio_layer(), audio_layer()],
        proj1: square(896, true),
        proj2: GpuLinear { w: GpuWeight { rows: 1024, cols: 896 }, bias: true },
        params: ChunkParams::new(50, 800),
        d_model: 896,
    };
    let p = encoder.run_transformer(&cuda(), 250);
    assert_eq!(p.layers.len(), 3);
    assert_eq!(p.out_dim, 1024);
    assert_eq!(p.proj.fc2.linear.run.out.shape(), &[1, 250, 1024]);
}

#[test]
fn kernels_of_single_steps() {
    let cuda = cuda();
    let (x, qkv) = (tensor(&[1, 2, 3, 128]), tensor(&[1, 3, 512]));
    let plan = cuda.add_residual_rms_norm(&tensor(&[1, 3, 128]));
    assert_eq!(plan.launch.kernel.symbol(), "add_residual_rms_norm_f16");
    assert_eq!(plan.launch.ints, [128, 3]);
    assert_eq!(plan.launch.config.grid_dim, (3, 1, 1));
    let plan = cuda.rotary_emb(&x, 7);
    assert_eq!(plan.launch.kernel.symbol(), "rotary_emb_f16");
    assert_eq!(plan.launch.ints, [1, 2, 3, 128, 7]);
    assert_eq!(plan.out.shape(), [1, 2, 3, 128]);
    let plan = cuda.rms_norm_rotary(&x, 7);
    assert_eq!(plan.launch.kernel.symbol(), "rms_norm_rotary_f16");
    assert_eq!(plan.launch.ints, [1, 2, 3, 128, 7]);
    assert_eq!(plan.launch.config.grid_dim, (6, 1, 1));
    let plan = cuda.qkv_split(&qkv, 2, 128, 256);
    assert_eq!(plan.launch.kernel.symbol(), "qkv_split_f16");
    assert_eq!(plan.launch.ints, [1, 3, 2, 128, 512, 256]);
    assert_eq!(plan.out.shape(), [1, 2, 3, 128]);
    let plan = cuda.qkv_extract_q_norm_rotary(&qkv, 2, 128, 7);
    assert_eq!(plan.launch.kernel.symbol(), "qkv_extract_q_norm_rotary_f16");
    assert_eq!(plan.launch.ints, [1, 2, 3, 128, 512, 7]);
    assert_eq!(plan.out.shape(), [1, 2, 3, 128]);
    let launch = cuda.qkv_extract_kv_norm_rotary_cache(&qkv, 1, 128, 256, 128, 64, 5, 6);
    assert_eq!(launch.kernel.symbol(), "qkv_extract_kv_norm_rotary_cache_f16");
    assert_eq!(launch.ints, [1, 1, 3, 128, 512, 256, 128, 64, 5, 6]);
    assert_eq!(launch.config.grid_dim, (3, 1, 1));
    let launch = cuda.kv_cache_write_pair(&tensor(&[1, 2, 3, 128]), 1, 2, 64, 128, 5);
    assert_eq!(launch.kernel.symbol(), "kv_cache_write_pair_f16");
    assert_eq!(launch.ints, [1, 2, 64, 128, 5, 3]);
}

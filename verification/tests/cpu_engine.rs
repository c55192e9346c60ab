use half::f16;
use qwen3_asr::argmax::argmax;
use qwen3_asr::attention::{
    embed_lookup, fused_gqa_decode_job, kv_cache_write, mask_scores, prefill_attention_job,
    CpuKvCache, HeadDims,
};
use qwen3_asr::cpu_attention::{fused_gqa_decode, merge_heads, prefill_attention, AttentionCall};
use qwen3_asr::decoder::{
    cache_update, plan_cpu_decoder, plan_cpu_layer, qkv_columns, score_tokens,
    qkv_extract_qkv_norm_rotary_cache, split_qkv, CacheUpdate, CpuAttention, CpuExtract, CpuOp,
};
use qwen3_asr::linear::{
    gemm_row_major_strides, linear_path, linear_shape, prefill_av_strides, prefill_qk_strides,
    GemmStrides, LinearPath,
};
use qwen3_asr::quant::{
    dot_lanes, dot_scalar, gemv_chunk, linear_gemv_i8, linear_gemv_i8_scalar, pad_cols, CpuWeightI8,
};
use qwen3_asr::steps::LayerOperand;
use qwen3_asr::tensor::{permute_bcft_to_btcf, CpuTensor};

struct F16Weight {
    data: Vec<f16>,
    rows: usize,
    cols: usize,
}

fn f16w(rows: usize, cols: usize, vals: &[f32]) -> F16Weight {
    assert_eq!(vals.len(), rows * cols);
    F16Weight { data: vals.iter().map(|&v| f16::from_f32(v)).collect(), rows, cols }
}

fn quantise(row: &[f32]) -> (Vec<i8>, f32) {
    let amax = row.iter().fold(0.0f32, |m, v| m.max(v.abs()));
    let s = amax / 127.0;
    let inv = if s > 0.0 { 1.0 / s } else { 0.0 };
    (row.iter().map(|v| (v * inv).round().clamp(-127.0, 127.0) as i8).collect(), s)
}

fn from_f16(w: &F16Weight) -> (CpuWeightI8, Vec<f32>) {
    let mut values = Vec::new();
    let mut scale = Vec::new();
    for i in 0..w.rows {
        let row: Vec<f32> = w.data[i * w.cols..(i + 1) * w.cols].iter().map(|v| v.to_f32()).collect();
        let (q, s) = quantise(&row);
        values.extend(q);
        scale.push(s);
    }
    (CpuWeightI8::pack(&values, w.rows, w.cols), scale)
}

fn gemv_f16(x: &[f32], w: &F16Weight) -> Vec<f32> {
    (0..w.rows).map(|i| (0..w.cols).map(|j| x[j] * w.data[i * w.cols + j].to_f32()).sum()).collect()
}

fn gemv_i8(x: &[f32], w: &CpuWeightI8, scale: &[f32]) -> Vec<f32> {
    let (mut xq, xs) = quantise(x);
    xq.resize(w.cols, 0);
    let sums = linear_gemv_i8(&xq, w);
    sums.iter().zip(scale).map(|(&acc, ws)| acc as f32 * ws * xs).collect()
}

fn gemv_i8_scalar(x: &[f32], w: &CpuWeightI8, scale: &[f32]) -> Vec<f32> {
    let (mut xq, xs) = quantise(x);
    xq.resize(w.cols, 0);
    let sums = linear_gemv_i8_scalar(&xq, w);
    sums.iter().zip(scale).map(|(&acc, ws)| acc as f32 * ws * xs).collect()
}

const ROWS: [f32; 32] = [
    0.5, -0.25, 0.125, 0.9, -0.6, 0.3, -0.1, 0.45, //
    -0.8, 0.2, 0.33, -0.5, 0.7, -0.15, 0.6, -0.4, //
    0.1, 0.1, 0.1, 0.1, 0.1, 0.1, 0.1, 0.1, //
    -0.95, 0.55, -0.35, 0.75, -0.65, 0.85, -0.45, 0.25,
];

#[test]
fn int8_scalar_gemv_matches_f16() {
    let w = f16w(4, 8, &ROWS);
    let x: Vec<f32> = vec![0.7, -0.4, 0.2, 0.9, -0.3, 0.6, -0.8, 0.15];
    assert_eq!(x.len(), w.cols);

    let (wi, scale) = from_f16(&w);
    assert_eq!(wi.cols, 32, "cols must be padded to a multiple of 32");
    assert_eq!(wi.rows, 4);

    let ref_out = gemv_f16(&x, &w);
    let i8_out = gemv_i8_scalar(&x, &wi, &scale);

    assert_eq!(ref_out.len(), i8_out.len());
    for (r, i) in ref_out.iter().zip(i8_out.iter()) {
        let tol = 0.05 * r.abs() + 0.1;
        assert!((r - i).abs() < tol, "int8 vs f16: ref={} got={} diff={}", r, i, r - i);
    }
}

#[test]
fn int8_zero_activation() {
    let w = f16w(2, 8, &[0.5; 16]);
    let (wi, scale) = from_f16(&w);
    let x = vec![0.0f32; 8];
    let out = gemv_i8_scalar(&x, &wi, &scale);
    for v in &out {
        assert!(v.abs() < 1e-5, "zero activation should give ~0, got {}", v);
    }
}

#[test]
fn int8_dequant_approximates_f16() {
    let w = f16w(3, 8, &ROWS[..24]);
    let (wi, scale) = from_f16(&w);
    let dq = wi.unpack(w.cols);
    assert_eq!((wi.rows, dq.len()), (3, 3 * 8));
    for i in 0..w.rows {
        for j in 0..w.cols {
            let orig = w.data[i * w.cols + j].to_f32();
            let got = dq[i * w.cols + j] as f32 * scale[i];
            let tol = 0.06 * orig.abs() + scale[i];
            assert!((got - orig).abs() < tol, "dequant row {} col {}: orig={} got={}", i, j, orig, got);
        }
    }
}

#[test]
fn int8_avx2_matches_scalar() {
    let vals: Vec<f32> = (0..(8 * 32)).map(|k| ((k as f32) * 0.037).sin() * 0.9).collect();
    let w = f16w(8, 32, &vals);
    let x: Vec<f32> = (0..32).map(|i| (i as f32) * 0.07 - 1.1).collect();
    assert_eq!(x.len(), w.cols);

    let (wi, scale) = from_f16(&w);
    let scalar = gemv_i8_scalar(&x, &wi, &scale);
    let lanes = gemv_i8(&x, &wi, &scale);

    assert_eq!(scalar.len(), lanes.len());
    for (s, a) in scalar.iter().zip(lanes.iter()) {
        assert!((s - a).abs() < 1e-3 * s.abs() + 1e-4, "lanes vs scalar: scalar={} lanes={}", s, a);
        assert_eq!(s.to_bits(), a.to_bits());
    }
}

#[test]
fn lanes_sum_all_products() {
    let x: Vec<i8> = (0..64).map(|i| (i - 30) as i8).collect();
    let w: Vec<i8> = (0..64).map(|i| (2 * i - 60) as i8).collect();
    let exact: i32 = x.iter().zip(&w).map(|(a, b)| *a as i32 * *b as i32).sum();
    assert_eq!(dot_lanes(&x, &w), exact);
    assert_eq!(dot_lanes(&[127; 32], &[-127; 32]), -32 * 16129);
    assert_eq!(dot_lanes(&[], &[]), 0);
    assert_eq!(dot_scalar(&x, &w), exact);
    assert_eq!(dot_scalar(&[127; 32], &[-127; 32]), -32 * 16129);
    assert_eq!(dot_scalar(&[3, -2, 5], &[1, 4, 0]), -5);
}

#[test]
fn both_integer_products_agree() {
    let values: Vec<i8> = (0..3 * 40).map(|i| ((i * 37) % 255 - 127) as i8).collect();
    let w = CpuWeightI8::pack(&values, 3, 40);
    let mut x: Vec<i8> = (0..40).map(|i| ((i * 91) % 255 - 127) as i8).collect();
    x.resize(w.cols, 0);
    let sums = linear_gemv_i8(&x, &w);
    assert_eq!(sums, linear_gemv_i8_scalar(&x, &w));
    let first: i32 = (0..40).map(|j| x[j] as i32 * values[j] as i32).sum();
    assert_eq!(sums[0], first);
}

#[test]
fn padding_and_chunks() {
    assert_eq!((pad_cols(0), pad_cols(1), pad_cols(32), pad_cols(33)), (0, 32, 32, 64));
    let w = CpuWeightI8::pack(&[1, 2, 3, 4], 2, 2);
    assert_eq!((w.rows, w.cols), (2, 32));
    assert_eq!((w.data[0], w.data[1], w.data[2], w.data[32], w.data[33]), (1, 2, 0, 3, 4));
    assert_eq!(w.unpack(2), vec![1, 2, 3, 4]);
    assert_eq!(w.unpack(1), vec![1, 3]);
    assert_eq!(gemv_chunk(100, 8), 64);
    assert_eq!(gemv_chunk(151936, 8), 2048);
    assert_eq!(gemv_chunk(32000, 8), 1000);
}

/// `dst = lhs rhs` by its strides.
fn gemm(g: GemmStrides, dst: &mut [f32], lhs: &[f32], rhs: &[f32]) {
    for i in 0..g.m as isize {
        for j in 0..g.n as isize {
            let mut acc = 0.0f32;
            for l in 0..g.k as isize {
                acc += lhs[(i * g.lhs_rs + l * g.lhs_cs) as usize]
                    * rhs[(l * g.rhs_rs + j * g.rhs_cs) as usize];
            }
            dst[(i * g.dst_rs + j * g.dst_cs) as usize] = acc;
        }
    }
}

fn softmax(scores: &[f32], width: usize) -> Vec<f32> {
    let mut out = scores.to_vec();
    for row in out.chunks_mut(width) {
        let mx = row.iter().fold(f32::NEG_INFINITY, |m, v| m.max(*v));
        let mut sum = 0.0f32;
        for v in row.iter_mut() {
            *v = (*v - mx).exp();
            sum += *v;
        }
        for v in row.iter_mut() {
            *v /= sum;
        }
    }
    out
}

#[test]
fn prefill_attention_matches_reference() {
    let b = 1;
    let nqh = 4;
    let nkvh = 2;
    let hd = 8;
    let s = 3;
    let cur_len = 3;
    let max_seq = 4;
    let n_rep = nqh / nkvh;
    let scale = 1.0f32 / (hd as f32).sqrt();
    let q: Vec<f32> = (0..b * s * nqh * hd).map(|i| ((i as f32) * 0.13).sin()).collect();
    let kv_len = b * nkvh * max_seq * hd;
    let k_cache: Vec<f32> = (0..kv_len).map(|i| ((i as f32) * 0.17).cos()).collect();
    let v_cache: Vec<f32> = (0..kv_len).map(|i| ((i as f32) * 0.11).sin()).collect();
    let causal = true;

    let heads = HeadDims { b, nqh, nkvh, hd };
    let call = AttentionCall { heads, s, max_seq, cur_len, causal };
    let out = prefill_attention(
        call,
        &q,
        &k_cache,
        &v_cache,
        f32::NEG_INFINITY,
        |lhs: &[f32], rhs: &[f32], g: GemmStrides| {
            let mut dst = vec![0.0f32; g.m * g.n];
            gemm(g, &mut dst, lhs, rhs);
            dst.iter().map(|v| v * scale).collect()
        },
        softmax,
        |lhs: &[f32], rhs: &[f32], g: GemmStrides| {
            let mut dst = vec![0.0f32; g.m * g.n];
            gemm(g, &mut dst, lhs, rhs);
            dst
        },
    );
    assert_eq!(out.shape, vec![b, nqh, s, hd]);
    let out = out.data;

    let offset = cur_len - s;
    for ib in 0..b {
        for qh in 0..nqh {
            let kh = qh / n_rep;
            for i in 0..s {
                let limit = if causal { i + offset + 1 } else { cur_len };
                let mut scores = vec![0.0f32; cur_len];
                for t in 0..limit {
                    let mut dot = 0.0f32;
                    for j in 0..hd {
                        dot += q[((ib * s + i) * nqh + qh) * hd + j]
                            * k_cache[((ib * nkvh + kh) * max_seq + t) * hd + j];
                    }
                    scores[t] = dot * scale;
                }
                let mx = (0..limit).map(|t| scores[t]).fold(f32::NEG_INFINITY, f32::max);
                let mut sum = 0.0f32;
                for t in 0..limit {
                    scores[t] = (scores[t] - mx).exp();
                    sum += scores[t];
                }
                let inv = 1.0 / sum;
                for t in 0..limit {
                    scores[t] *= inv;
                }
                for j in 0..hd {
                    let mut acc = 0.0f32;
                    for t in 0..limit {
                        acc += scores[t] * v_cache[((ib * nkvh + kh) * max_seq + t) * hd + j];
                    }
                    let got = out[((ib * s + i) * nqh + qh) * hd + j];
                    assert!(
                        (got - acc).abs() < 1e-4 * acc.abs() + 1e-5,
                        "prefill_attn mismatch ib={} qh={} i={} j={}: got={} exp={}",
                        ib, qh, i, j, got, acc
                    );
                }
            }
        }
    }
}

/// `lhs rhs` of integers by its strides.
fn product(lhs: &[i64], rhs: &[i64], g: GemmStrides) -> Vec<i64> {
    let mut dst = Vec::new();
    for i in 0..g.m as isize {
        for j in 0..g.n as isize {
            let terms = (0..g.k as isize).map(|l| {
                lhs[(i * g.lhs_rs + l * g.lhs_cs) as usize]
                    * rhs[(l * g.rhs_rs + j * g.rhs_cs) as usize]
            });
            dst.push(terms.sum());
        }
    }
    dst
}

#[test]
fn decode_attends_to_every_cached_position() {
    // Two sequences of two query heads that share one key-value head.
    let heads = HeadDims { b: 2, nqh: 2, nkvh: 1, hd: 2 };
    let (max_seq, cur_len) = (3, 2);
    let q = vec![1, 0, 0, 1, 1, 1, 2, 0];
    let k = vec![1, 2, 3, 4, -9, -9, 5, 6, 7, 8, -9, -9];
    let v = vec![1, 0, 0, 1, -9, -9, 2, 0, 0, 2, -9, -9];
    let identity = |scores: &[i64], _width: usize| scores.to_vec();
    let out = fused_gqa_decode(heads, max_seq, cur_len, &q, &k, &v, 0, product, identity, product);
    assert_eq!(out.shape, vec![2, 2, 1, 2]);
    assert_eq!(out.data, vec![1, 3, 2, 4, 22, 30, 20, 28]);
}

#[test]
fn one_token_is_decoded_as_it_is_prefilled() {
    let heads = HeadDims { b: 2, nqh: 2, nkvh: 1, hd: 2 };
    let q = vec![1, 0, 0, 1, 1, 1, 2, 0];
    let k = vec![1, 2, 3, 4, -9, -9, 5, 6, 7, 8, -9, -9];
    let v = vec![1, 0, 0, 1, -9, -9, 2, 0, 0, 2, -9, -9];
    let identity = |scores: &[i64], _width: usize| scores.to_vec();
    let decoded = fused_gqa_decode(heads, 3, 2, &q, &k, &v, 0, product, identity, product);
    for causal in [false, true] {
        let call = AttentionCall { heads, s: 1, max_seq: 3, cur_len: 2, causal };
        let out = prefill_attention(call, &q, &k, &v, 0, product, identity, product);
        assert_eq!((out.shape, out.data), (decoded.shape.clone(), decoded.data.clone()));
    }
    let other = |c: &[i64]| c.iter().map(|&x| if x == -9 { 1000 } else { x }).collect::<Vec<i64>>();
    let again =
        fused_gqa_decode(heads, 3, 2, &q, &other(&k), &other(&v), 0, product, identity, product);
    assert_eq!(again.data, decoded.data);
}

#[test]
fn prefill_keeps_tokens_apart() {
    // Two tokens behind one cached position, one head each for queries and keys.
    let heads = HeadDims { b: 1, nqh: 1, nkvh: 1, hd: 1 };
    let call = AttentionCall { heads, s: 2, max_seq: 4, cur_len: 3, causal: true };
    let k = vec![1, 10, 100, -9];
    let v = vec![1, 1, 1, -9];
    let identity = |scores: &[i64], _width: usize| scores.to_vec();
    let out = prefill_attention(call, &[1, 2], &k, &v, 0, product, identity, product);
    assert_eq!(out.data, vec![11, 222]);
    let open = AttentionCall { causal: false, ..call };
    let out = prefill_attention(open, &[1, 2], &k, &v, 0, product, identity, product);
    assert_eq!(out.data, vec![111, 222]);
}

#[test]
fn outputs_of_heads_go_to_token_order() {
    let d = HeadDims { b: 1, nqh: 2, nkvh: 1, hd: 2 };
    let out = merge_heads(&vec![vec![1, 2, 3, 4], vec![5, 6, 7, 8]], d, 2);
    assert_eq!(out.shape, vec![1, 2, 2, 2]);
    assert_eq!(out.data, vec![1, 2, 5, 6, 3, 4, 7, 8]);
}

#[test]
fn row_major_product() {
    let g = gemm_row_major_strides(2, 3, 2);
    let mut out = vec![0.0f32; 6];
    gemm(g, &mut out, &[1.0, 2.0, 3.0, 4.0], &[1.0, 0.0, 0.0, 1.0, 1.0, 1.0]);
    assert_eq!(out, vec![1.0, 2.0, 3.0, 3.0, 4.0, 7.0]);
}

#[test]
fn decode_jobs_share_key_value_heads() {
    let d = HeadDims { b: 2, nqh: 4, nkvh: 2, hd: 8 };
    let job = fused_gqa_decode_job(d, 16, 7);
    assert_eq!((job.ib, job.qh, job.kh), (1, 3, 1));
    assert_eq!(job.head_off, 7 * 8);
    assert_eq!(job.kv_base, 3 * 16 * 8);
    assert_eq!(job.tok_stride, 32);
}

#[test]
fn prefill_jobs_step_from_token_to_token() {
    let d = HeadDims { b: 2, nqh: 4, nkvh: 2, hd: 8 };
    let job = prefill_attention_job(d, 3, 16, 6);
    assert_eq!((job.ib, job.qh, job.kh), (1, 2, 1));
    assert_eq!((job.head_off, job.tok_stride, job.kv_base), ((3 * 4 + 2) * 8, 32, 3 * 16 * 8));
    let qk = prefill_qk_strides(3, 5, 8, job.tok_stride);
    assert_eq!((qk.m, qk.n, qk.k), (3, 5, 8));
    assert_eq!((qk.dst_rs, qk.dst_cs, qk.lhs_rs, qk.lhs_cs, qk.rhs_rs, qk.rhs_cs), (5, 1, 32, 1, 1, 8));
    let av = prefill_av_strides(3, 5, 8, job.tok_stride);
    assert_eq!((av.m, av.n, av.k), (3, 8, 5));
    assert_eq!((av.dst_rs, av.dst_cs, av.lhs_rs, av.lhs_cs, av.rhs_rs, av.rhs_cs), (32, 1, 5, 1, 8, 1));
}

#[test]
fn cache_gives_back_what_was_written() {
    let d = HeadDims { b: 1, nqh: 2, nkvh: 2, hd: 1 };
    let mut cache = CpuKvCache::new(1, 1, 2, 4, 1, 0);
    assert_eq!((cache.cur_len, cache.k.len(), cache.v.len()), (0, 1, 1));
    // token order: token 0 has heads 1, 2; token 1 has heads 3, 4
    kv_cache_write(&mut cache.k[0], &[1, 2, 3, 4], d, 4, 2, 0);
    assert_eq!(cache.k[0], vec![1, 3, 0, 0, 2, 4, 0, 0]);
    kv_cache_write(&mut cache.k[0], &[5, 6], d, 4, 1, 2);
    assert_eq!(cache.k[0], vec![1, 3, 5, 0, 2, 4, 6, 0]);
}

#[test]
fn masks_what_lies_ahead() {
    let mut scores = vec![1; 6];
    mask_scores(&mut scores, 2, 3, true, 0);
    assert_eq!(scores, vec![1, 1, 0, 1, 1, 1]);
    let mut scores = vec![1; 6];
    mask_scores(&mut scores, 2, 3, false, 0);
    assert_eq!(scores, vec![1; 6]);
}

#[test]
fn argmax_takes_the_first_greatest() {
    assert_eq!(argmax(&[Some(1), Some(3), Some(3)], i32::MIN), 1);
    assert_eq!(argmax(&[], i32::MIN), 0);
    assert_eq!(argmax(&[Some(-5), Some(-5), Some(-5)], -5), 0);
    assert_eq!(argmax(&[Some(1), None, Some(2)], i32::MIN), 2);
    let mut many = vec![Some(0); 10_000];
    many[9_000] = Some(5);
    many[9_500] = Some(5);
    assert_eq!(argmax(&many, i32::MIN), 9_000);
}

#[test]
fn embeddings_are_rows_of_the_table() {
    let t = embed_lookup(&[10, 11, 20, 21, 30, 31], 2, &[2, 0]);
    assert_eq!(t.shape, vec![2, 2]);
    assert_eq!(t.data, vec![30, 31, 10, 11]);
}

#[test]
fn tensors() {
    let t = CpuTensor::new(vec![1, 2, 3, 4, 5, 6], vec![1, 3, 2]);
    assert_eq!(t.numel(), 6);
    let t = t.reshape(vec![1, 2, 3]);
    assert_eq!(t.shape, vec![1, 2, 3]);
    let last = t.last_token();
    assert_eq!((last.data, last.shape), (vec![4, 5, 6], vec![1, 1, 3]));
}

#[test]
fn last_axis_comes_forward() {
    // [1, 2, 2, 3] as [b, c, f, t]
    let x: Vec<i32> = (0..12).collect();
    assert_eq!(permute_bcft_to_btcf(&x, 1, 2, 2, 3), vec![0, 3, 6, 9, 1, 4, 7, 10, 2, 5, 8, 11]);
}

#[test]
fn linear_shapes_and_paths() {
    let s = linear_shape(&[2, 3, 4], 5);
    assert_eq!((s.m, s.k, s.n), (6, 4, 5));
    assert_eq!(s.out_shape, vec![2, 3, 5]);
    assert!(linear_path(1) == LinearPath::Gemv);
    assert!(linear_path(6) == LinearPath::Gemm);
}

#[test]
fn fused_projection_is_taken_apart() {
    let c = qkv_columns(4, 2);
    assert_eq!((c.q.from, c.q.to, c.k.from, c.k.to, c.v.from, c.v.to), (0, 4, 4, 6, 6, 8));
    let qkv: Vec<i32> = (0..16).collect();
    let s = split_qkv(&qkv, 2, 8, 4, 2);
    assert_eq!(s.q, vec![0, 1, 2, 3, 8, 9, 10, 11]);
    assert_eq!(s.k, vec![4, 5, 12, 13]);
    assert_eq!(s.v, vec![6, 7, 14, 15]);
}

#[test]
fn queries_come_out_and_keys_and_values_go_to_the_caches() {
    let heads = HeadDims { b: 1, nqh: 2, nkvh: 1, hd: 2 };
    let at = CpuExtract { heads, s: 2, total_cols: 8, max_seq: 4, start: 1, pos_offset: 10 };
    let qkv: Vec<i32> = (0..16).collect();
    let mut k_cache = vec![-1; 8];
    let mut v_cache = vec![-1; 8];
    let q = qkv_extract_qkv_norm_rotary_cache(
        &qkv,
        |head: &[i32], pos: usize| head.iter().map(|x| x + 1000 * pos as i32).collect(),
        |head: &[i32], pos: usize| head.iter().map(|x| x + 100 * pos as i32).collect(),
        &mut k_cache,
        &mut v_cache,
        at,
    );
    assert_eq!(q.shape, vec![1, 2, 2, 2]);
    assert_eq!(q.data, vec![10000, 10001, 10002, 10003, 11008, 11009, 11010, 11011]);
    assert_eq!(k_cache, vec![-1, -1, 1004, 1005, 1112, 1113, -1, -1]);
    assert_eq!(v_cache, vec![-1, -1, 6, 7, 14, 15, -1, -1]);
}

#[test]
fn layer_plan_on_the_cpu() {
    let d = HeadDims { b: 1, nqh: 16, nkvh: 8, hd: 128 };
    let decode = plan_cpu_layer(d, 1, 40, true);
    assert_eq!((decode.rows, decode.cur_len, decode.jobs), (1, 41, 16));
    assert!(decode.path == LinearPath::Gemv);
    assert!(decode.attention == CpuAttention::Decode);
    assert_eq!(decode.attn_shape, vec![1, 1, 2048]);
    let prefill = plan_cpu_layer(d, 40, 0, true);
    assert!(prefill.path == LinearPath::Gemm);
    assert!(prefill.attention == CpuAttention::Prefill { causal: true });
    assert_eq!(prefill.attn_shape, vec![1, 40, 2048]);
}

#[test]
fn steps_of_a_layer_on_the_cpu() {
    let d = HeadDims { b: 1, nqh: 16, nkvh: 8, hd: 128 };
    let steps = plan_cpu_layer(d, 1, 40, true).steps;
    let ops: Vec<CpuOp> = steps.iter().map(|s| s.run).collect();
    assert_eq!(
        ops,
        vec![
            CpuOp::Norm, CpuOp::Product, CpuOp::Extract, CpuOp::Attend, CpuOp::Accumulate,
            CpuOp::Norm, CpuOp::Product, CpuOp::Activate, CpuOp::Accumulate,
        ]
    );
    assert_eq!(steps[4].on.writes, vec![LayerOperand::Stream]);
    assert_eq!(steps[4].on.reads, vec![LayerOperand::OutProj, LayerOperand::Merged]);
    let mut there = vec![
        LayerOperand::Stream, LayerOperand::KeyCache, LayerOperand::ValueCache,
        LayerOperand::InputNorm, LayerOperand::QkvProj, LayerOperand::QueryNorm,
        LayerOperand::KeyNorm, LayerOperand::Cos, LayerOperand::Sin, LayerOperand::OutProj,
        LayerOperand::PostNorm, LayerOperand::GateUpProj, LayerOperand::DownProj,
    ];
    for step in &steps {
        assert!(step.on.reads.iter().all(|r| there.contains(r)));
        there.extend(&step.on.writes);
    }
}

#[test]
fn decoder_plan_on_the_cpu() {
    let d = HeadDims { b: 1, nqh: 2, nkvh: 1, hd: 4 };
    let mut kv = CpuKvCache::new(1, 1, 1, 8, 4, 0);
    let prefill = plan_cpu_decoder(&mut kv, d, 3, 50, 0, true, true);
    assert!(prefill.last_only);
    assert_eq!(prefill.logits_shape, vec![1, 1, 50]);
    assert_eq!((prefill.layer.cur_len, kv.cur_len), (3, 3));
    let step = plan_cpu_decoder(&mut kv, d, 1, 50, 3, false, true);
    assert!(!step.last_only);
    assert_eq!(step.logits_shape, vec![1, 1, 50]);
    assert!(step.layer.attention == CpuAttention::Decode);
    assert_eq!((kv.cur_len, kv.max_seq), (4, 8));
    let every = plan_cpu_decoder(&mut kv, d, 3, 50, 4, true, false);
    assert!(!every.last_only);
    assert_eq!(every.logits_shape, vec![1, 3, 50]);
    assert_eq!(kv.cur_len, 7);
}

#[test]
fn tokens_are_scored_one_by_one() {
    let h = CpuTensor::new(vec![1, 2, 3, 4, 5, 6], vec![1, 3, 2]);
    let score = |row: &[i32]| vec![row[0] + row[1], row[0] * row[1], -row[0]];
    let all = score_tokens(&h, 3, false, score);
    assert_eq!(all.shape, vec![1, 3, 3]);
    assert_eq!(all.data, vec![3, 2, -1, 7, 12, -3, 11, 30, -5]);
    let last = score_tokens(&h, 3, true, score);
    assert_eq!(last.shape, vec![1, 1, 3]);
    assert_eq!(last.data, vec![11, 30, -5]);
}

#[test]
fn growing_cache() {
    assert!(cache_update(0, 0) == CacheUpdate::Push);
    assert!(cache_update(3, 3) == CacheUpdate::Push);
    assert!(cache_update(2, 3) == CacheUpdate::Append { layer: 2 });
}

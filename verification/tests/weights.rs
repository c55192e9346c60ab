use qwen3_asr::audio_loading::load_audio_encoder;
use qwen3_asr::backend::{build_engine, Backend};
use qwen3_asr::loading::load_decoder;
use qwen3_asr::tensor_file::{find_header_end, load_safetensors, read_tensors};
use qwen3_asr::weights::{
    audio_layer_names, audio_names, decoder_layer_names, decoder_names, distinct_shards,
    fuse_gate_up, fuse_qkv, layer_prefix, load_linear, load_weight,
    shard_names, weight_files, IndexError, Weight, WeightTable,
};
use safetensors::tensor::{serialize, Dtype, TensorView};

#[test]
fn shards_of_an_index() {
    let index = r#"{"metadata":{},"weight_map":{"a":"x.safetensors","b":"y.safetensors",
        "c":"x.safetensors","d":7}}"#;
    let mut names = shard_names(index).ok().unwrap();
    names.sort();
    assert_eq!(names, vec!["x.safetensors", "y.safetensors"]);
}

#[test]
fn broken_indices() {
    match shard_names("{") {
        Err(IndexError::Json { message }) => {
            let theirs = serde_json::from_str::<serde_json::Value>("{").unwrap_err();
            assert_eq!(message, theirs.to_string());
        }
        _ => panic!("no document"),
    }
    for index in ["{}", r#"{"weight_map":[]}"#, "[]"] {
        match shard_names(index) {
            Err(e) => assert_eq!(e.message(), "invalid index.json"),
            Ok(_) => panic!("no weight map"),
        }
    }
}

#[test]
fn files_of_a_checkpoint() {
    assert_eq!(weight_files(None).ok().unwrap(), vec!["model.safetensors"]);
    let index = r#"{"weight_map":{"a":"x.safetensors"}}"#;
    assert_eq!(weight_files(Some(index)).ok().unwrap(), vec!["x.safetensors"]);
    assert_eq!(weight_files(Some("{}")).err().unwrap().message(), "invalid index.json");
}

#[test]
fn every_shard_once() {
    let some = |s: &str| Some(s.to_string());
    let list = vec![some("b"), None, some("a"), some("b"), some("a")];
    assert_eq!(distinct_shards(&list), vec!["b", "a"]);
}

fn file(tensors: &[(&str, Dtype, Vec<usize>, Vec<u8>)]) -> Vec<u8> {
    let views: Vec<(String, TensorView)> = tensors
        .iter()
        .map(|(n, d, s, b)| (n.to_string(), TensorView::new(*d, s.clone(), b).unwrap()))
        .collect();
    serialize(views, None).unwrap()
}

#[test]
fn tensors_tile_the_file() {
    let bytes = file(&[
        ("w", Dtype::F16, vec![2, 2], vec![1, 2, 3, 4, 5, 6, 7, 8]),
        ("b", Dtype::F32, vec![1], vec![9, 10, 11, 12]),
        ("none", Dtype::U8, vec![0], vec![]),
    ]);
    let entries = load_safetensors(&bytes).unwrap().unwrap();
    assert_eq!(entries.len(), 3);
    let w = entries.iter().find(|e| e.name == "w").unwrap();
    assert_eq!(w.shape, vec![2, 2]);
    assert!(w.dtype == Dtype::F16);
    assert_eq!(&bytes[w.start..w.end], &[1, 2, 3, 4, 5, 6, 7, 8]);
    let b = entries.iter().find(|e| e.name == "b").unwrap();
    assert_eq!(&bytes[b.start..b.end], &[9, 10, 11, 12]);
    let mut at = find_header_end(&bytes).unwrap();
    for e in &entries {
        assert_eq!(e.start, at);
        at = e.end;
    }
    assert_eq!(at, bytes.len());
}

#[test]
fn file_without_tensors() {
    let bytes = file(&[]);
    assert!(read_tensors(&bytes).unwrap().is_empty());
}

#[test]
fn broken_files() {
    assert_eq!(load_safetensors(&[1, 2]).unwrap().err().unwrap(), "safetensors: header too small");
    let mut bytes = file(&[("w", Dtype::U8, vec![2], vec![1, 2])]);
    bytes.push(0);
    assert_eq!(
        load_safetensors(&bytes).unwrap().err().unwrap(),
        "safetensors: incomplete metadata, file not fully covered"
    );
    assert_eq!(find_header_end(&[0; 7]), None);
    assert_eq!(find_header_end(&[1, 0, 0, 0, 0, 0, 0, 0]), None);
    assert_eq!(find_header_end(&[1, 0, 0, 0, 0, 0, 0, 0, 32]), Some(9));
    assert_eq!(find_header_end(&[0, 0, 0, 0, 0, 0, 0, 1, 32]), None);
}

#[test]
fn header_that_declares_too_much() {
    // eight tensors of the largest size that can be declared
    let size: u64 = (1 << 61) - 1;
    let mut header = String::from("{");
    for i in 0..8u64 {
        let comma = if i == 0 { "" } else { "," };
        header.push_str(&format!(
            "{comma}\"t{i}\":{{\"dtype\":\"U8\",\"shape\":[{size}],\"data_offsets\":[{},{}]}}",
            i * size,
            (i + 1) * size
        ));
    }
    header.push('}');
    let mut bytes = (header.len() as u64).to_le_bytes().to_vec();
    bytes.extend(header.as_bytes());
    assert!(load_safetensors(&bytes).is_none());
}

#[test]
fn weights_are_found_by_name() {
    let table = WeightTable::new().insert("a".to_string(), 1).insert("b".to_string(), 2);
    let table = table.insert("a".to_string(), 3);
    assert_eq!(*table.get("a").unwrap(), 3);
    assert_eq!(*table.get("b").unwrap(), 2);
    assert!(table.contains_key("a") && !table.contains_key("c"));
    assert_eq!(table.get("c").unwrap_err(), "weight not found: c");
}

#[test]
fn linear_layers_may_have_a_bias() {
    let table = WeightTable::new()
        .insert("x.weight".to_string(), 1)
        .insert("y.weight".to_string(), 2)
        .insert("y.bias".to_string(), 3);
    assert_eq!(load_linear(&table, "x").unwrap(), (&1, None));
    assert_eq!(load_linear(&table, "y").unwrap(), (&2, Some(&3)));
    assert_eq!(load_linear(&table, "z").unwrap_err(), "weight not found: z.weight");
}

#[test]
fn fused_matrices() {
    let q = Weight { data: vec![1, 2, 3, 4], rows: 2, cols: 2 };
    let k = Weight { data: vec![5, 6], rows: 1, cols: 2 };
    let v = Weight { data: vec![7, 8], rows: 1, cols: 2 };
    let qkv = fuse_qkv(&q, &k, &v);
    assert_eq!((qkv.rows, qkv.cols), (4, 2));
    assert_eq!(qkv.data, vec![1, 2, 3, 4, 5, 6, 7, 8]);
    let gu = fuse_gate_up(&k, &v);
    assert_eq!((gu.rows, gu.cols, gu.data), (2, 2, vec![5, 6, 7, 8]));
}

#[test]
fn only_matrices_are_taken_as_such() {
    let w = load_weight(vec![1, 2], &[1, 2]).unwrap();
    assert_eq!((w.rows, w.cols, w.data), (1, 2, vec![1, 2]));
    assert!(load_weight(vec![1, 2], &[2]).is_none());
}

#[test]
fn names_of_weights() {
    assert_eq!(layer_prefix("thinker.model", 12), "thinker.model.layers.12");
    let n = decoder_layer_names("p");
    assert_eq!(n.input_norm, "p.input_layernorm.weight");
    assert_eq!(n.post_norm, "p.post_attention_layernorm.weight");
    assert_eq!((n.q_norm.as_str(), n.k_norm.as_str()), ("p.self_attn.q_norm.weight", "p.self_attn.k_norm.weight"));
    assert_eq!((n.q_proj.as_str(), n.o_proj.as_str()), ("p.self_attn.q_proj.weight", "p.self_attn.o_proj.weight"));
    assert_eq!((n.k_proj.as_str(), n.v_proj.as_str()), ("p.self_attn.k_proj.weight", "p.self_attn.v_proj.weight"));
    assert_eq!((n.gate_proj.as_str(), n.up_proj.as_str()), ("p.mlp.gate_proj.weight", "p.mlp.up_proj.weight"));
    assert_eq!(n.down_proj, "p.mlp.down_proj.weight");
    let d = decoder_names("p");
    assert_eq!((d.embed_tokens.as_str(), d.norm.as_str()), ("p.embed_tokens.weight", "p.norm.weight"));
    let a = audio_layer_names("p");
    assert_eq!((a.attn_norm.as_str(), a.ffn_norm.as_str()), ("p.self_attn_layer_norm", "p.final_layer_norm"));
    assert_eq!((a.q_proj.as_str(), a.out_proj.as_str()), ("p.self_attn.q_proj", "p.self_attn.out_proj"));
    assert_eq!((a.k_proj.as_str(), a.v_proj.as_str()), ("p.self_attn.k_proj", "p.self_attn.v_proj"));
    assert_eq!((a.fc1.as_str(), a.fc2.as_str()), ("p.fc1", "p.fc2"));
    let e = audio_names("p");
    assert_eq!((e.conv1.as_str(), e.conv2.as_str(), e.conv3.as_str()), ("p.conv2d1", "p.conv2d2", "p.conv2d3"));
    assert_eq!((e.conv_out.as_str(), e.ln_post.as_str()), ("p.conv_out", "p.ln_post"));
    assert_eq!((e.proj1.as_str(), e.proj2.as_str()), ("p.proj1", "p.proj2"));
}

const LAYER: [&str; 11] = [
    "input_layernorm.weight",
    "post_attention_layernorm.weight",
    "self_attn.q_norm.weight",
    "self_attn.k_norm.weight",
    "self_attn.q_proj.weight",
    "self_attn.k_proj.weight",
    "self_attn.v_proj.weight",
    "self_attn.o_proj.weight",
    "mlp.gate_proj.weight",
    "mlp.up_proj.weight",
    "mlp.down_proj.weight",
];

/// Every name of a decoder of two layers, in the order of loading.
fn decoder_key_list(prefix: &str) -> Vec<String> {
    let mut all = vec![format!("{prefix}.embed_tokens.weight"), format!("{prefix}.norm.weight")];
    for i in 0..2 {
        all.extend(LAYER.iter().map(|n| format!("{prefix}.layers.{i}.{n}")));
    }
    all
}

fn table_without(missing: &[usize]) -> WeightTable<usize> {
    let mut table = WeightTable::new();
    for (i, key) in decoder_key_list("thinker.model").into_iter().enumerate() {
        if !missing.contains(&i) {
            table = table.insert(key, i);
        }
    }
    table
}

#[test]
fn a_decoder_is_loaded_whole() {
    let table = table_without(&[]);
    let d = load_decoder(&table, "thinker.model", 2).unwrap();
    assert_eq!((*d.embed_tokens, *d.norm, d.layers.len()), (0, 1, 2));
    for (i, l) in d.layers.iter().enumerate() {
        let held = [
            l.input_norm, l.post_norm, l.q_norm, l.k_norm, l.q_proj, l.k_proj, l.v_proj, l.o_proj,
            l.gate_proj, l.up_proj, l.down_proj,
        ];
        for (k, value) in held.into_iter().enumerate() {
            assert_eq!(*value, 2 + 11 * i + k);
        }
    }
    assert_eq!(load_decoder(&table, "thinker.model", 0).unwrap().layers.len(), 0);
    assert_eq!(load_decoder(&table, "thinker.model", 1).unwrap().layers.len(), 1);
    let more = load_decoder(&table, "thinker.model", 3).err().unwrap();
    assert_eq!(more, "weight not found: thinker.model.layers.2.input_layernorm.weight");
}

#[test]
fn the_first_missing_weight_is_named() {
    let keys = decoder_key_list("thinker.model");
    for i in 0..keys.len() {
        let message = load_decoder(&table_without(&[i]), "thinker.model", 2).err().unwrap();
        assert_eq!(message, format!("weight not found: {}", keys[i]));
        let message = load_decoder(&table_without(&[i, 23]), "thinker.model", 2).err().unwrap();
        assert_eq!(message, format!("weight not found: {}", keys[i.min(23)]));
    }
}

/// Every name that an encoder of two layers must have, in the order of loading.
fn audio_key_list(prefix: &str) -> Vec<String> {
    let mut all = Vec::new();
    for i in 0..2 {
        let p = format!("{prefix}.layers.{i}");
        for n in [
            "self_attn_layer_norm.weight", "self_attn_layer_norm.bias", "self_attn.q_proj.weight",
            "self_attn.k_proj.weight", "self_attn.v_proj.weight", "self_attn.out_proj.weight",
            "final_layer_norm.weight", "final_layer_norm.bias", "fc1.weight", "fc2.weight",
        ] {
            all.push(format!("{p}.{n}"));
        }
    }
    for n in [
        "ln_post.weight", "ln_post.bias", "proj1.weight", "proj2.weight", "conv2d1.weight",
        "conv2d1.bias", "conv2d2.weight", "conv2d2.bias", "conv2d3.weight", "conv2d3.bias",
        "conv_out.weight",
    ] {
        all.push(format!("{prefix}.{n}"));
    }
    all
}

fn with_audio(table: WeightTable<usize>, missing: &[usize]) -> WeightTable<usize> {
    let mut table = table;
    for (i, key) in audio_key_list("thinker.audio_tower").into_iter().enumerate() {
        if !missing.contains(&i) {
            table = table.insert(key, 100 + i);
        }
    }
    table
}

#[test]
fn an_audio_encoder_is_loaded_whole() {
    let table = with_audio(WeightTable::new(), &[])
        .insert("thinker.audio_tower.proj2.bias".to_string(), 7)
        .insert("thinker.audio_tower.layers.1.fc1.bias".to_string(), 8);
    let a = load_audio_encoder(&table, "thinker.audio_tower", 2, true).ok().unwrap();
    assert_eq!(a.layers.len(), 2);
    for (i, l) in a.layers.iter().enumerate() {
        let held = [
            l.attn_norm.weight, l.attn_norm.bias, l.q_proj.weight, l.k_proj.weight,
            l.v_proj.weight, l.out_proj.weight, l.ffn_norm.weight, l.ffn_norm.bias, l.fc1.weight,
            l.fc2.weight,
        ];
        for (k, value) in held.into_iter().enumerate() {
            assert_eq!(*value, 100 + 10 * i + k);
        }
    }
    let tail = [
        a.ln_post.weight, a.ln_post.bias, a.proj1.weight, a.proj2.weight, a.conv1.weight,
        a.conv1.bias, a.conv2.weight, a.conv2.bias, a.conv3.weight, a.conv3.bias,
        a.conv_out.weight,
    ];
    for (k, value) in tail.into_iter().enumerate() {
        assert_eq!(*value, 120 + k);
    }
    assert_eq!((a.proj1.bias, a.proj2.bias), (None, Some(&7)));
    assert_eq!((a.layers[0].fc1.bias, a.layers[1].fc1.bias), (None, Some(&8)));
}

#[test]
fn the_first_missing_audio_weight_is_named() {
    let keys = audio_key_list("thinker.audio_tower");
    for i in 0..keys.len() {
        let table = with_audio(WeightTable::new(), &[i, 30]);
        let plain = load_audio_encoder(&table, "thinker.audio_tower", 2, false).err().unwrap();
        assert_eq!(plain, format!("weight not found: {}", keys[i]));
        let cpu = load_audio_encoder(&table, "thinker.audio_tower", 2, true).err().unwrap();
        let kind = match i {
            0 | 6 | 10 | 16 | 20 => "ln weight",
            1 | 7 | 11 | 17 | 21 => "ln bias",
            _ => "weight",
        };
        assert_eq!(cpu, format!("{kind} not found: {}", keys[i]));
    }
}

#[test]
fn an_engine_keeps_what_it_is_given() {
    let table = with_audio(table_without(&[]), &[]);
    let parts = build_engine(Backend::Cpu, &table, 2, 2, "config", 'k').ok().unwrap();
    assert_eq!((parts.config, parts.tokenizer), ("config", 'k'));
    assert_eq!(parts.plan.backend.pipeline_tag(), "cpu");
    assert_eq!((parts.decoder.layers.len(), parts.audio.layers.len()), (2, 2));
    let table = with_audio(table_without(&[1]), &[0]);
    let e = build_engine(Backend::Cuda, &table, 2, 2, (), ()).err().unwrap();
    assert_eq!(e.context, "load GPU text decoder");
    assert_eq!(e.message, "weight not found: thinker.model.norm.weight");
    let table = with_audio(table_without(&[]), &[20]);
    let e = build_engine(Backend::Cpu, &table, 2, 2, (), ()).err().unwrap();
    assert_eq!(e.context, "load CPU audio encoder");
    assert_eq!(e.message, "ln weight not found: thinker.audio_tower.ln_post.weight");
}

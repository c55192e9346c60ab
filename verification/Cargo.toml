[package]
name = "qwen3_asr"
version = "0.1.0"
edition = "2021"
publish = false

[dependencies]
anyhow = "1"
burn = { version = "0.21", default-features = false }
bytes = "1"
cudarc = { version = "0.19", default-features = false, features = ["std", "driver", "nvrtc", "cublas", "f16", "cuda-12080", "dynamic-loading"] }
gemm = "0.18"
half = "2"
log = "0.4"
memmap2 = "0.9"
rayon = "1"
safetensors = "*"
serde_json = "1"
tokenizers = { version = "*", default-features = false, features = ["fancy-regex"] }

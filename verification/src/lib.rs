//! Verified decision logic of the Qwen3-ASR inference engine.
#![allow(unused_imports)]

pub mod buffers;
pub mod chunking;
pub mod layout;
pub mod steps;
pub mod terms;
pub mod device;
pub mod device_steps;
pub mod streaming;
pub mod streaming_laws;
pub mod text;
pub mod tokenizer;
pub mod inference;
pub mod prompt;
pub mod tensor;
pub mod backend;
pub mod generate;
pub mod attention;
pub mod quant;
pub mod argmax;
pub mod linear;
pub mod launch;
pub mod cpu_attention;
pub mod cudarc_engine;
pub mod gpu_decoder;
pub mod windows;
pub mod gpu_audio_encoder;
pub mod audio_laws;
pub mod incremental;
pub mod conv;
pub mod mrope;
pub mod prebuilt_ptx;
pub mod loading;
pub mod audio_loading;
pub mod weights;
pub mod tensor_file;
pub mod decoder;
pub mod decoder_laws;

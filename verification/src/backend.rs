//! Choice of the compute backend, and what an engine on it is built of.
use vstd::prelude::*;

use crate::audio_loading::{
    audio_keys, audio_parts, load_audio_encoder, reports_part, AudioWeights,
};
use crate::loading::{all_found, decoder_keys, load_decoder, reports_missing, DecoderWeights};
use crate::weights::WeightTable;

verus! {

/// The chosen compute backend.
#[derive(Clone, Copy, PartialEq, Eq, Structural)]
pub enum Backend {
    /// The first CUDA device.
    Cuda,
    /// The CPU.
    Cpu,
}

impl Backend {
    /// Picks the best backend, given whether the first CUDA device could be set
    /// up: the device where it could, the CPU otherwise.
    pub fn best<C, F>(cuda: &Result<C, F>) -> (r: Backend)
        ensures
            r == if cuda is Ok {
                Backend::Cuda
            } else {
                Backend::Cpu
            },
    {
        match cuda {
            Ok(_) => Backend::Cuda,
            Err(_) => Backend::Cpu,
        }
    }

    /// Short label for logs.
    pub fn tag(&self) -> (r: &'static str)
        ensures
            r@ == (match *self {
                Backend::Cuda => "cuda:0"@,
                Backend::Cpu => "cpu"@,
            }),
    {
        match self {
            Backend::Cuda => "cuda:0",
            Backend::Cpu => "cpu",
        }
    }

    /// Short label of the pipeline that runs on the backend.
    pub fn pipeline_tag(&self) -> (r: &'static str)
        ensures
            r@ == (match *self {
                Backend::Cuda => "cuda"@,
                Backend::Cpu => "cpu"@,
            }),
    {
        match self {
            Backend::Cuda => "cuda",
            Backend::Cpu => "cpu",
        }
    }
}

/// What has to be loaded for an engine, and what to say when it fails.
pub struct EnginePlan {
    /// Where the engine runs.
    pub backend: Backend,
    /// Prefix of the text decoder's weights.
    pub decoder_prefix: &'static str,
    /// What is reported when the text decoder cannot be loaded.
    pub decoder_context: &'static str,
    /// Prefix of the audio encoder's weights.
    pub audio_prefix: &'static str,
    /// What is reported when the audio encoder cannot be loaded.
    pub audio_context: &'static str,
}

impl EnginePlan {
    /// The plan for a backend. Both backends load the same weights.
    pub open spec fn describes(self, backend: Backend) -> bool {
        &&& self.backend == backend
        &&& self.decoder_prefix@ == "thinker.model"@
        &&& self.audio_prefix@ == "thinker.audio_tower"@
        &&& self.decoder_context@ == decoder_context(backend)
        &&& self.audio_context@ == audio_context(backend)
    }
}

/// What is reported when the text decoder cannot be loaded.
pub open spec fn decoder_context(backend: Backend) -> Seq<char> {
    match backend {
        Backend::Cuda => "load GPU text decoder"@,
        Backend::Cpu => "load CPU text decoder"@,
    }
}

/// What is reported when the audio encoder cannot be loaded.
pub open spec fn audio_context(backend: Backend) -> Seq<char> {
    match backend {
        Backend::Cuda => "load GPU audio encoder"@,
        Backend::Cpu => "load CPU audio encoder"@,
    }
}

/// Plans the engine for a backend.
pub fn plan_engine(backend: Backend) -> (r: EnginePlan)
    ensures
        r.describes(backend),
{
    match backend {
        Backend::Cuda => EnginePlan {
            backend,
            decoder_prefix: "thinker.model",
            decoder_context: "load GPU text decoder",
            audio_prefix: "thinker.audio_tower",
            audio_context: "load GPU audio encoder",
        },
        Backend::Cpu => EnginePlan {
            backend,
            decoder_prefix: "thinker.model",
            decoder_context: "load CPU text decoder",
            audio_prefix: "thinker.audio_tower",
            audio_context: "load CPU audio encoder",
        },
    }
}

/// What an engine is built of: its plan, the weights of its text decoder and of its
/// audio encoder, and the configuration and the tokenizer that it was given.
pub struct EngineParts<'a, T, C, K> {
    pub plan: EnginePlan,
    pub decoder: DecoderWeights<'a, T>,
    pub audio: AudioWeights<'a, T>,
    pub config: C,
    pub tokenizer: K,
}

/// Why an engine could not be built.
pub struct LoadError {
    /// What was being loaded.
    pub context: &'static str,
    /// What was missing.
    pub message: String,
}

/// Whether every weight of an engine is there.
pub open spec fn engine_found<T>(
    weights: Map<Seq<char>, T>,
    num_hidden_layers: nat,
    encoder_layers: nat,
) -> bool {
    &&& all_found(weights, decoder_keys("thinker.model"@, num_hidden_layers))
    &&& all_found(weights, audio_keys("thinker.audio_tower"@, encoder_layers))
}

/// Gathers what an engine is built of. A weight that is missing is an error, first one
/// of the text decoder, then one of the audio encoder; otherwise the engine has as many
/// layers as asked for, and keeps the configuration and the tokenizer.
pub fn build_engine<'a, T, C, K>(
    backend: Backend,
    weights: &'a WeightTable<T>,
    num_hidden_layers: usize,
    encoder_layers: usize,
    config: C,
    tokenizer: K,
) -> (r: Result<EngineParts<'a, T, C, K>, LoadError>)
    ensures
        r is Ok <==> engine_found(weights@, num_hidden_layers as nat, encoder_layers as nat),
        match r {
            Ok(parts) => {
                &&& parts.plan.describes(backend)
                &&& parts.decoder.of(weights@, "thinker.model"@, num_hidden_layers as nat)
                &&& parts.audio.of(weights@, "thinker.audio_tower"@, encoder_layers as nat)
                &&& parts.config == config
                &&& parts.tokenizer == tokenizer
            },
            Err(e) => if all_found(
                weights@,
                decoder_keys("thinker.model"@, num_hidden_layers as nat),
            ) {
                &&& e.context@ == audio_context(backend)
                &&& reports_part(
                    weights@,
                    audio_keys("thinker.audio_tower"@, encoder_layers as nat),
                    audio_parts(encoder_layers as nat),
                    backend == Backend::Cpu,
                    e.message@,
                )
            } else {
                &&& e.context@ == decoder_context(backend)
                &&& reports_missing(
                    weights@,
                    decoder_keys("thinker.model"@, num_hidden_layers as nat),
                    e.message@,
                )
            },
        },
{
    let plan = plan_engine(backend);
    let on_cpu = backend == Backend::Cpu;
    let decoder = match load_decoder(weights, plan.decoder_prefix, num_hidden_layers) {
        Ok(decoder) => decoder,
        Err(message) => {
            return Err(LoadError { context: plan.decoder_context, message });
        },
    };
    match load_audio_encoder(weights, plan.audio_prefix, encoder_layers, on_cpu) {
        Ok(audio) => Ok(EngineParts { plan, decoder, audio, config, tokenizer }),
        Err(message) => Err(LoadError { context: plan.audio_context, message }),
    }
}

} // verus!

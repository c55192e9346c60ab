//! Loading the audio encoder: which weights it is made of, and that all are there.
use vstd::prelude::*;

use crate::loading::{all_found, fetch, first_missing, layer_key};
use crate::text::join2;
use crate::weights::{
    audio_layer_names, audio_names, layer_prefix, load_linear, not_found, texts, WeightTable,
};

verus! {

/// What a weight is a part of.
#[derive(Clone, Copy, PartialEq, Eq, Structural)]
pub enum Part {
    /// A matrix, a convolution or its bias.
    Product,
    /// The scale of a normalisation.
    NormScale,
    /// The bias of a normalisation.
    NormBias,
}

/// What is said of a weight that is missing. The encoder on the CPU says that a
/// normalisation is meant.
pub open spec fn missing_text(on_cpu: bool, part: Part, name: Seq<char>) -> Seq<char> {
    match (on_cpu, part) {
        (true, Part::NormScale) => "ln weight not found: "@ + name,
        (true, Part::NormBias) => "ln bias not found: "@ + name,
        _ => not_found(name),
    }
}

fn say_missing(on_cpu: bool, part: Part, name: &str) -> (r: String)
    ensures
        r@ == missing_text(on_cpu, part, name@),
{
    match (on_cpu, part) {
        (true, Part::NormScale) => join2("ln weight not found: ", name),
        (true, Part::NormBias) => join2("ln bias not found: ", name),
        _ => join2("weight not found: ", name),
    }
}

/// Names of the weights that an encoder layer must have, in the order in which they
/// are loaded.
pub open spec fn audio_layer_keys(p: Seq<char>) -> Seq<Seq<char>> {
    seq![
        p + ".self_attn_layer_norm"@ + ".weight"@,
        p + ".self_attn_layer_norm"@ + ".bias"@,
        p + ".self_attn.q_proj"@ + ".weight"@,
        p + ".self_attn.k_proj"@ + ".weight"@,
        p + ".self_attn.v_proj"@ + ".weight"@,
        p + ".self_attn.out_proj"@ + ".weight"@,
        p + ".final_layer_norm"@ + ".weight"@,
        p + ".final_layer_norm"@ + ".bias"@,
        p + ".fc1"@ + ".weight"@,
        p + ".fc2"@ + ".weight"@,
    ]
}

/// What each of those is a part of.
pub open spec fn audio_layer_parts() -> Seq<Part> {
    seq![
        Part::NormScale,
        Part::NormBias,
        Part::Product,
        Part::Product,
        Part::Product,
        Part::Product,
        Part::NormScale,
        Part::NormBias,
        Part::Product,
        Part::Product,
    ]
}

/// Names of the weights that the encoder must have outside its layers.
pub open spec fn audio_tail_keys(p: Seq<char>) -> Seq<Seq<char>> {
    seq![
        p + ".ln_post"@ + ".weight"@,
        p + ".ln_post"@ + ".bias"@,
        p + ".proj1"@ + ".weight"@,
        p + ".proj2"@ + ".weight"@,
        p + ".conv2d1"@ + ".weight"@,
        p + ".conv2d1"@ + ".bias"@,
        p + ".conv2d2"@ + ".weight"@,
        p + ".conv2d2"@ + ".bias"@,
        p + ".conv2d3"@ + ".weight"@,
        p + ".conv2d3"@ + ".bias"@,
        p + ".conv_out"@ + ".weight"@,
    ]
}

/// What each of those is a part of.
pub open spec fn audio_tail_parts() -> Seq<Part> {
    seq![
        Part::NormScale,
        Part::NormBias,
        Part::Product,
        Part::Product,
        Part::Product,
        Part::Product,
        Part::Product,
        Part::Product,
        Part::Product,
        Part::Product,
        Part::Product,
    ]
}

/// Names of the weights of the first `n` layers.
pub open spec fn audio_layers_keys(prefix: Seq<char>, n: nat) -> Seq<Seq<char>>
    decreases n,
{
    if n == 0 {
        Seq::empty()
    } else {
        audio_layers_keys(prefix, (n - 1) as nat) + audio_layer_keys(layer_key(prefix, n - 1))
    }
}

/// What each of those is a part of.
pub open spec fn audio_layers_parts(n: nat) -> Seq<Part>
    decreases n,
{
    if n == 0 {
        Seq::empty()
    } else {
        audio_layers_parts((n - 1) as nat) + audio_layer_parts()
    }
}

/// Names of the weights that an encoder with `n` layers must have, in the order in
/// which they are loaded.
pub open spec fn audio_keys(prefix: Seq<char>, n: nat) -> Seq<Seq<char>> {
    audio_layers_keys(prefix, n) + audio_tail_keys(prefix)
}

/// What each of those is a part of.
pub open spec fn audio_parts(n: nat) -> Seq<Part> {
    audio_layers_parts(n) + audio_tail_parts()
}

/// What is said of the first name under which there is no weight.
pub open spec fn reports_part<T>(
    weights: Map<Seq<char>, T>,
    keys: Seq<Seq<char>>,
    parts: Seq<Part>,
    on_cpu: bool,
    message: Seq<char>,
) -> bool {
    exists|i: int|
        #[trigger] first_missing(weights, keys, i) && message == missing_text(
            on_cpu,
            parts[i],
            keys[i],
        )
}

/// A weight and a bias that are both there.
pub struct Biased<'a, T> {
    pub weight: &'a T,
    pub bias: &'a T,
}

impl<'a, T> Biased<'a, T> {
    /// Whether these are the weights of a part.
    pub open spec fn of(self, weights: Map<Seq<char>, T>, p: Seq<char>) -> bool {
        &&& *self.weight == weights[p + ".weight"@]
        &&& *self.bias == weights[p + ".bias"@]
    }
}

/// A matrix and, where there is one, its bias.
pub struct Linear<'a, T> {
    pub weight: &'a T,
    pub bias: Option<&'a T>,
}

impl<'a, T> Linear<'a, T> {
    /// Whether these are the weights of a part.
    pub open spec fn of(self, weights: Map<Seq<char>, T>, p: Seq<char>) -> bool {
        &&& *self.weight == weights[p + ".weight"@]
        &&& self.bias is Some <==> weights.contains_key(p + ".bias"@)
        &&& self.bias matches Some(b) ==> *b == weights[p + ".bias"@]
    }
}

/// The weights of an encoder layer.
pub struct AudioLayerWeights<'a, T> {
    pub attn_norm: Biased<'a, T>,
    pub q_proj: Linear<'a, T>,
    pub k_proj: Linear<'a, T>,
    pub v_proj: Linear<'a, T>,
    pub out_proj: Linear<'a, T>,
    pub ffn_norm: Biased<'a, T>,
    pub fc1: Linear<'a, T>,
    pub fc2: Linear<'a, T>,
}

impl<'a, T> AudioLayerWeights<'a, T> {
    /// Whether these are the weights under a layer's names.
    pub open spec fn of(self, weights: Map<Seq<char>, T>, p: Seq<char>) -> bool {
        &&& self.attn_norm.of(weights, p + ".self_attn_layer_norm"@)
        &&& self.q_proj.of(weights, p + ".self_attn.q_proj"@)
        &&& self.k_proj.of(weights, p + ".self_attn.k_proj"@)
        &&& self.v_proj.of(weights, p + ".self_attn.v_proj"@)
        &&& self.out_proj.of(weights, p + ".self_attn.out_proj"@)
        &&& self.ffn_norm.of(weights, p + ".final_layer_norm"@)
        &&& self.fc1.of(weights, p + ".fc1"@)
        &&& self.fc2.of(weights, p + ".fc2"@)
    }
}

/// The weights of an audio encoder.
pub struct AudioWeights<'a, T> {
    pub layers: Vec<AudioLayerWeights<'a, T>>,
    pub ln_post: Biased<'a, T>,
    pub proj1: Linear<'a, T>,
    pub proj2: Linear<'a, T>,
    pub conv1: Biased<'a, T>,
    pub conv2: Biased<'a, T>,
    pub conv3: Biased<'a, T>,
    pub conv_out: Linear<'a, T>,
}

impl<'a, T> AudioWeights<'a, T> {
    /// Whether these are the weights under the names of an encoder with `n` layers.
    pub open spec fn of(self, weights: Map<Seq<char>, T>, prefix: Seq<char>, n: nat) -> bool {
        &&& self.layers@.len() == n
        &&& forall|i: int|
            0 <= i < n ==> (#[trigger] self.layers@[i]).of(weights, layer_key(prefix, i))
        &&& self.ln_post.of(weights, prefix + ".ln_post"@)
        &&& self.proj1.of(weights, prefix + ".proj1"@)
        &&& self.proj2.of(weights, prefix + ".proj2"@)
        &&& self.conv1.of(weights, prefix + ".conv2d1"@)
        &&& self.conv2.of(weights, prefix + ".conv2d2"@)
        &&& self.conv3.of(weights, prefix + ".conv2d3"@)
        &&& self.conv_out.of(weights, prefix + ".conv_out"@)
    }
}

/// A matrix that is there, with its bias. As it is there, looking it up cannot fail, and
/// `matrix` need not stand in for it.
fn with_bias<'a, T>(weights: &'a WeightTable<T>, matrix: &'a T, p: &str) -> (r: Linear<'a, T>)
    requires
        weights@.contains_key(p@ + ".weight"@),
    ensures
        r.of(weights@, p@),
{
    match load_linear(weights, p) {
        Ok((weight, bias)) => Linear { weight, bias },
        Err(_) => Linear { weight: matrix, bias: None },
    }
}

fn load_audio_layer<'a, T>(weights: &'a WeightTable<T>, p: &str, on_cpu: bool) -> (r: Result<
    AudioLayerWeights<'a, T>,
    String,
>)
    ensures
        match r {
            Ok(layer) => all_found(weights@, audio_layer_keys(p@)) && layer.of(weights@, p@),
            Err(message) => reports_part(
                weights@,
                audio_layer_keys(p@),
                audio_layer_parts(),
                on_cpu,
                message@,
            ),
        },
{
    let n = audio_layer_names(p);
    let mut names: Vec<String> = Vec::new();
    names.push(join2(n.attn_norm.as_str(), ".weight"));
    names.push(join2(n.attn_norm.as_str(), ".bias"));
    names.push(join2(n.q_proj.as_str(), ".weight"));
    names.push(join2(n.k_proj.as_str(), ".weight"));
    names.push(join2(n.v_proj.as_str(), ".weight"));
    names.push(join2(n.out_proj.as_str(), ".weight"));
    names.push(join2(n.ffn_norm.as_str(), ".weight"));
    names.push(join2(n.ffn_norm.as_str(), ".bias"));
    names.push(join2(n.fc1.as_str(), ".weight"));
    names.push(join2(n.fc2.as_str(), ".weight"));
    let ghost keys = audio_layer_keys(p@);
    assert(texts(names@) =~= keys);
    match fetch(weights, &names) {
        Err(i) => {
            let part = if i == 0 || i == 6 {
                Part::NormScale
            } else if i == 1 || i == 7 {
                Part::NormBias
            } else {
                Part::Product
            };
            assert(part == audio_layer_parts()[i as int]);
            assert(keys[i as int] == names@[i as int]@);
            assert(first_missing(weights@, keys, i as int));
            Err(say_missing(on_cpu, part, names[i].as_str()))
        },
        Ok(f) => {
            assert(texts(names@).len() == names@.len());
            Ok(
                AudioLayerWeights {
                    attn_norm: Biased { weight: f[0], bias: f[1] },
                    q_proj: with_bias(weights, f[2], n.q_proj.as_str()),
                    k_proj: with_bias(weights, f[3], n.k_proj.as_str()),
                    v_proj: with_bias(weights, f[4], n.v_proj.as_str()),
                    out_proj: with_bias(weights, f[5], n.out_proj.as_str()),
                    ffn_norm: Biased { weight: f[6], bias: f[7] },
                    fc1: with_bias(weights, f[8], n.fc1.as_str()),
                    fc2: with_bias(weights, f[9], n.fc2.as_str()),
                },
            )
        },
    }
}

/// The names of the first layers stand in front of all others, each with its part.
proof fn lemma_audio_keys_grow(prefix: Seq<char>, i: nat, n: nat)
    requires
        i <= n,
    ensures
        audio_layers_keys(prefix, n).len() == audio_layers_parts(n).len(),
        audio_layers_keys(prefix, i).len() == audio_layers_parts(i).len(),
        audio_layers_keys(prefix, i).len() <= audio_layers_keys(prefix, n).len(),
        audio_layers_keys(prefix, n).take(audio_layers_keys(prefix, i).len() as int)
            == audio_layers_keys(prefix, i),
        audio_layers_parts(n).take(audio_layers_parts(i).len() as int) == audio_layers_parts(i),
    decreases n,
{
    if i < n {
        lemma_audio_keys_grow(prefix, i, (n - 1) as nat);
    } else if 0 < n {
        lemma_audio_keys_grow(prefix, (n - 1) as nat, (n - 1) as nat);
    }
    assert(audio_layers_keys(prefix, n).take(audio_layers_keys(prefix, i).len() as int)
        =~= audio_layers_keys(prefix, i));
    assert(audio_layers_parts(n).take(audio_layers_parts(i).len() as int)
        =~= audio_layers_parts(i));
}

/// Names behind others that are all found: the first that is missing among them is
/// the first of all.
proof fn lemma_missing_behind<T>(
    weights: Map<Seq<char>, T>,
    before: Seq<Seq<char>>,
    before_parts: Seq<Part>,
    here: Seq<Seq<char>>,
    here_parts: Seq<Part>,
    all: Seq<Seq<char>>,
    all_parts: Seq<Part>,
    on_cpu: bool,
    message: Seq<char>,
)
    requires
        before.len() == before_parts.len(),
        here.len() == here_parts.len(),
        (before + here).len() <= all.len(),
        (before + here).len() <= all_parts.len(),
        all.take((before + here).len() as int) == before + here,
        all_parts.take((before + here).len() as int) == before_parts + here_parts,
        all_found(weights, before),
        reports_part(weights, here, here_parts, on_cpu, message),
    ensures
        reports_part(weights, all, all_parts, on_cpu, message),
{
    let k = choose|k: int|
        #[trigger] first_missing(weights, here, k) && message == missing_text(
            on_cpu,
            here_parts[k],
            here[k],
        );
    let upto = (before + here).len() as int;
    let at = before.len() + k;
    assert(all[at] == all.take(upto)[at]);
    assert(all_parts[at] == all_parts.take(upto)[at]);
    assert forall|j: int| 0 <= j < at implies weights.contains_key(#[trigger] all[j]) by {
        assert(all[j] == all.take(upto)[j]);
        if j < before.len() {
            assert(all[j] == before[j]);
        } else {
            assert(all[j] == here[j - before.len()]);
        }
    }
    assert(first_missing(weights, all, at));
}

fn load_audio_layers<'a, T>(
    weights: &'a WeightTable<T>,
    prefix: &str,
    encoder_layers: usize,
    on_cpu: bool,
) -> (r: Result<Vec<AudioLayerWeights<'a, T>>, String>)
    ensures
        match r {
            Ok(layers) => {
                &&& all_found(weights@, audio_layers_keys(prefix@, encoder_layers as nat))
                &&& layers@.len() == encoder_layers
                &&& forall|i: int|
                    0 <= i < encoder_layers ==> (#[trigger] layers@[i]).of(
                        weights@,
                        layer_key(prefix@, i),
                    )
            },
            Err(message) => reports_part(
                weights@,
                audio_keys(prefix@, encoder_layers as nat),
                audio_parts(encoder_layers as nat),
                on_cpu,
                message@,
            ),
        },
{
    let ghost n = encoder_layers as nat;
    let mut layers: Vec<AudioLayerWeights<'a, T>> = Vec::new();
    let mut i: usize = 0;
    while i < encoder_layers
        invariant
            i <= encoder_layers,
            n == encoder_layers,
            all_found(weights@, audio_layers_keys(prefix@, i as nat)),
            layers@.len() == i,
            forall|j: int|
                0 <= j < i ==> (#[trigger] layers@[j]).of(weights@, layer_key(prefix@, j)),
        decreases encoder_layers - i,
    {
        let p = layer_prefix(prefix, i);
        let ghost before = audio_layers_keys(prefix@, i as nat);
        let ghost here = audio_layer_keys(p@);
        match load_audio_layer(weights, p.as_str(), on_cpu) {
            Ok(layer) => {
                proof {
                    let next = audio_layers_keys(prefix@, (i + 1) as nat);
                    assert(next == before + here);
                    assert forall|j: int| 0 <= j < next.len() implies weights@.contains_key(
                        #[trigger] next[j],
                    ) by {
                        if j < before.len() {
                            assert(next[j] == before[j]);
                        } else {
                            assert(next[j] == here[j - before.len()]);
                        }
                    }
                }
                layers.push(layer);
            },
            Err(message) => {
                proof {
                    lemma_audio_keys_grow(prefix@, i as nat, n);
                    lemma_audio_keys_grow(prefix@, (i + 1) as nat, n);
                    let upto = audio_layers_keys(prefix@, (i + 1) as nat);
                    let parts = audio_layers_parts((i + 1) as nat);
                    assert(upto == before + here);
                    assert(parts == audio_layers_parts(i as nat) + audio_layer_parts());
                    let len = upto.len() as int;
                    assert(audio_keys(prefix@, n).take(len) =~= audio_layers_keys(prefix@, n).take(
                        len,
                    ));
                    assert(audio_parts(n).take(len) =~= audio_layers_parts(n).take(len));
                    lemma_missing_behind(
                        weights@,
                        before,
                        audio_layers_parts(i as nat),
                        here,
                        audio_layer_parts(),
                        audio_keys(prefix@, n),
                        audio_parts(n),
                        on_cpu,
                        message@,
                    );
                }
                return Err(message);
            },
        }
        i += 1;
    }
    Ok(layers)
}

/// Finds every weight of an audio encoder with `encoder_layers` layers: layer after
/// layer, then what follows them and the convolutions in front of them. The first
/// weight that is missing ends it with a message; a matrix may lack its bias.
pub fn load_audio_encoder<'a, T>(
    weights: &'a WeightTable<T>,
    prefix: &str,
    encoder_layers: usize,
    on_cpu: bool,
) -> (r: Result<AudioWeights<'a, T>, String>)
    ensures
        r is Ok <==> all_found(weights@, audio_keys(prefix@, encoder_layers as nat)),
        match r {
            Ok(encoder) => encoder.of(weights@, prefix@, encoder_layers as nat),
            Err(message) => reports_part(
                weights@,
                audio_keys(prefix@, encoder_layers as nat),
                audio_parts(encoder_layers as nat),
                on_cpu,
                message@,
            ),
        },
{
    let ghost n = encoder_layers as nat;
    let ghost before = audio_layers_keys(prefix@, n);
    let ghost tail = audio_tail_keys(prefix@);
    let ghost all = audio_keys(prefix@, n);
    let layers = match load_audio_layers(weights, prefix, encoder_layers, on_cpu) {
        Ok(layers) => layers,
        Err(message) => {
            return Err(message);
        },
    };
    let m = audio_names(prefix);
    let mut names: Vec<String> = Vec::new();
    names.push(join2(m.ln_post.as_str(), ".weight"));
    names.push(join2(m.ln_post.as_str(), ".bias"));
    names.push(join2(m.proj1.as_str(), ".weight"));
    names.push(join2(m.proj2.as_str(), ".weight"));
    names.push(join2(m.conv1.as_str(), ".weight"));
    names.push(join2(m.conv1.as_str(), ".bias"));
    names.push(join2(m.conv2.as_str(), ".weight"));
    names.push(join2(m.conv2.as_str(), ".bias"));
    names.push(join2(m.conv3.as_str(), ".weight"));
    names.push(join2(m.conv3.as_str(), ".bias"));
    names.push(join2(m.conv_out.as_str(), ".weight"));
    assert(texts(names@) =~= tail);
    match fetch(weights, &names) {
        Err(i) => {
            let part = if i == 0 {
                Part::NormScale
            } else if i == 1 {
                Part::NormBias
            } else {
                Part::Product
            };
            let message = say_missing(on_cpu, part, names[i].as_str());
            proof {
                assert(part == audio_tail_parts()[i as int]);
                assert(tail[i as int] == names@[i as int]@);
                assert(first_missing(weights@, tail, i as int));
                assert(reports_part(weights@, tail, audio_tail_parts(), on_cpu, message@));
                lemma_audio_keys_grow(prefix@, n, n);
                assert(all.take(all.len() as int) =~= before + tail);
                assert(audio_parts(n).take(all.len() as int) =~= audio_layers_parts(n)
                    + audio_tail_parts());
                lemma_missing_behind(
                    weights@,
                    before,
                    audio_layers_parts(n),
                    tail,
                    audio_tail_parts(),
                    all,
                    audio_parts(n),
                    on_cpu,
                    message@,
                );
            }
            Err(message)
        },
        Ok(f) => {
            proof {
                assert(texts(names@).len() == names@.len());
                assert forall|j: int| 0 <= j < all.len() implies weights@.contains_key(
                    #[trigger] all[j],
                ) by {
                    if j < before.len() {
                        assert(all[j] == before[j]);
                    } else {
                        assert(all[j] == tail[j - before.len()]);
                    }
                }
            }
            Ok(
                AudioWeights {
                    layers,
                    ln_post: Biased { weight: f[0], bias: f[1] },
                    proj1: with_bias(weights, f[2], m.proj1.as_str()),
                    proj2: with_bias(weights, f[3], m.proj2.as_str()),
                    conv1: Biased { weight: f[4], bias: f[5] },
                    conv2: Biased { weight: f[6], bias: f[7] },
                    conv3: Biased { weight: f[8], bias: f[9] },
                    conv_out: with_bias(weights, f[10], m.conv_out.as_str()),
                },
            )
        },
    }
}

} // verus!

//! Loading the text decoder: which weights it is made of, and that all are there.
use vstd::prelude::*;

use crate::text::{decimal, join2};
use crate::weights::{
    decoder_layer_names, decoder_names, layer_prefix, not_found, texts, WeightTable,
};

verus! {

/// The prefix of layer `i` of a decoder.
pub open spec fn layer_key(prefix: Seq<char>, i: int) -> Seq<char> {
    prefix + ".layers."@ + decimal(i)
}

/// Names of the weights of a decoder layer, in the order in which they are loaded.
pub open spec fn layer_keys(p: Seq<char>) -> Seq<Seq<char>> {
    seq![
        p + ".input_layernorm.weight"@,
        p + ".post_attention_layernorm.weight"@,
        p + ".self_attn.q_norm.weight"@,
        p + ".self_attn.k_norm.weight"@,
        p + ".self_attn.q_proj.weight"@,
        p + ".self_attn.k_proj.weight"@,
        p + ".self_attn.v_proj.weight"@,
        p + ".self_attn.o_proj.weight"@,
        p + ".mlp.gate_proj.weight"@,
        p + ".mlp.up_proj.weight"@,
        p + ".mlp.down_proj.weight"@,
    ]
}

/// Names of the weights of a decoder with `n` layers, in the order in which they
/// are loaded.
pub open spec fn decoder_keys(prefix: Seq<char>, n: nat) -> Seq<Seq<char>>
    decreases n,
{
    if n == 0 {
        seq![prefix + ".embed_tokens.weight"@, prefix + ".norm.weight"@]
    } else {
        decoder_keys(prefix, (n - 1) as nat) + layer_keys(layer_key(prefix, n - 1))
    }
}

/// Whether there is a weight under every one of the names.
pub open spec fn all_found<T>(weights: Map<Seq<char>, T>, keys: Seq<Seq<char>>) -> bool {
    forall|i: int| 0 <= i < keys.len() ==> weights.contains_key(#[trigger] keys[i])
}

/// Whether name `i` is the first under which there is no weight.
pub open spec fn first_missing<T>(
    weights: Map<Seq<char>, T>,
    keys: Seq<Seq<char>>,
    i: int,
) -> bool {
    &&& 0 <= i < keys.len()
    &&& !weights.contains_key(keys[i])
    &&& forall|j: int| 0 <= j < i ==> weights.contains_key(#[trigger] keys[j])
}

/// What is said of the first name under which there is no weight.
pub open spec fn reports_missing<T>(
    weights: Map<Seq<char>, T>,
    keys: Seq<Seq<char>>,
    message: Seq<char>,
) -> bool {
    exists|i: int| #[trigger] first_missing(weights, keys, i) && message == not_found(keys[i])
}

/// The weights of a decoder layer.
pub struct DecoderLayerWeights<'a, T> {
    pub input_norm: &'a T,
    pub post_norm: &'a T,
    pub q_norm: &'a T,
    pub k_norm: &'a T,
    pub q_proj: &'a T,
    pub k_proj: &'a T,
    pub v_proj: &'a T,
    pub o_proj: &'a T,
    pub gate_proj: &'a T,
    pub up_proj: &'a T,
    pub down_proj: &'a T,
}

impl<'a, T> DecoderLayerWeights<'a, T> {
    /// Whether these are the weights under a layer's names.
    pub open spec fn of(self, weights: Map<Seq<char>, T>, p: Seq<char>) -> bool {
        &&& *self.input_norm == weights[p + ".input_layernorm.weight"@]
        &&& *self.post_norm == weights[p + ".post_attention_layernorm.weight"@]
        &&& *self.q_norm == weights[p + ".self_attn.q_norm.weight"@]
        &&& *self.k_norm == weights[p + ".self_attn.k_norm.weight"@]
        &&& *self.q_proj == weights[p + ".self_attn.q_proj.weight"@]
        &&& *self.k_proj == weights[p + ".self_attn.k_proj.weight"@]
        &&& *self.v_proj == weights[p + ".self_attn.v_proj.weight"@]
        &&& *self.o_proj == weights[p + ".self_attn.o_proj.weight"@]
        &&& *self.gate_proj == weights[p + ".mlp.gate_proj.weight"@]
        &&& *self.up_proj == weights[p + ".mlp.up_proj.weight"@]
        &&& *self.down_proj == weights[p + ".mlp.down_proj.weight"@]
    }
}

/// The weights of a text decoder.
pub struct DecoderWeights<'a, T> {
    pub embed_tokens: &'a T,
    pub norm: &'a T,
    pub layers: Vec<DecoderLayerWeights<'a, T>>,
}

impl<'a, T> DecoderWeights<'a, T> {
    /// Whether these are the weights under the names of a decoder with `n` layers.
    pub open spec fn of(self, weights: Map<Seq<char>, T>, prefix: Seq<char>, n: nat) -> bool {
        &&& *self.embed_tokens == weights[prefix + ".embed_tokens.weight"@]
        &&& *self.norm == weights[prefix + ".norm.weight"@]
        &&& self.layers@.len() == n
        &&& forall|i: int|
            0 <= i < n ==> (#[trigger] self.layers@[i]).of(weights, layer_key(prefix, i))
    }
}

/// The weights under a list of names, or which name is the first under which there
/// is none.
pub fn fetch<'a, T>(weights: &'a WeightTable<T>, names: &Vec<String>) -> (r: Result<
    Vec<&'a T>,
    usize,
>)
    ensures
        match r {
            Ok(found) => {
                &&& all_found(weights@, texts(names@))
                &&& found@.len() == names@.len()
                &&& forall|i: int|
                    0 <= i < names@.len() ==> *(#[trigger] found@[i])
                        == weights@[texts(names@)[i]]
            },
            Err(i) => i < names@.len() && first_missing(weights@, texts(names@), i as int),
        },
{
    let ghost keys = texts(names@);
    let mut found: Vec<&'a T> = Vec::new();
    let mut i: usize = 0;
    while i < names.len()
        invariant
            i <= names@.len(),
            keys == texts(names@),
            found@.len() == i,
            forall|j: int| 0 <= j < i ==> weights@.contains_key(#[trigger] keys[j]),
            forall|j: int| 0 <= j < i ==> *(#[trigger] found@[j]) == weights@[keys[j]],
        decreases names@.len() - i,
    {
        assert(keys[i as int] == names@[i as int]@);
        match weights.get(names[i].as_str()) {
            Ok(weight) => {
                found.push(weight);
            },
            Err(_) => {
                return Err(i);
            },
        }
        i += 1;
    }
    Ok(found)
}

fn list_layer_names(p: &str) -> (r: Vec<String>)
    ensures
        texts(r@) == layer_keys(p@),
{
    let names = decoder_layer_names(p);
    let mut list: Vec<String> = Vec::new();
    list.push(names.input_norm);
    list.push(names.post_norm);
    list.push(names.q_norm);
    list.push(names.k_norm);
    list.push(names.q_proj);
    list.push(names.k_proj);
    list.push(names.v_proj);
    list.push(names.o_proj);
    list.push(names.gate_proj);
    list.push(names.up_proj);
    list.push(names.down_proj);
    assert(texts(list@) =~= layer_keys(p@));
    list
}

fn load_layer<'a, T>(weights: &'a WeightTable<T>, p: &str) -> (r: Result<
    DecoderLayerWeights<'a, T>,
    String,
>)
    ensures
        match r {
            Ok(layer) => all_found(weights@, layer_keys(p@)) && layer.of(weights@, p@),
            Err(message) => reports_missing(weights@, layer_keys(p@), message@),
        },
{
    let names = list_layer_names(p);
    let ghost keys = layer_keys(p@);
    assert(keys == texts(names@));
    match fetch(weights, &names) {
        Err(i) => {
            assert(keys[i as int] == names@[i as int]@);
            assert(first_missing(weights@, keys, i as int));
            Err(join2("weight not found: ", names[i].as_str()))
        },
        Ok(f) => {
            assert(names@.len() == 11) by {
                assert(texts(names@).len() == names@.len());
            }
            Ok(
                DecoderLayerWeights {
                    input_norm: f[0],
                    post_norm: f[1],
                    q_norm: f[2],
                    k_norm: f[3],
                    q_proj: f[4],
                    k_proj: f[5],
                    v_proj: f[6],
                    o_proj: f[7],
                    gate_proj: f[8],
                    up_proj: f[9],
                    down_proj: f[10],
                },
            )
        },
    }
}

/// The names of the first layers stand in front of all others.
proof fn lemma_keys_grow(prefix: Seq<char>, i: nat, n: nat)
    requires
        i <= n,
    ensures
        decoder_keys(prefix, i).len() <= decoder_keys(prefix, n).len(),
        decoder_keys(prefix, n).take(decoder_keys(prefix, i).len() as int) == decoder_keys(
            prefix,
            i,
        ),
    decreases n,
{
    if i < n {
        lemma_keys_grow(prefix, i, (n - 1) as nat);
    }
    assert(decoder_keys(prefix, n).take(decoder_keys(prefix, i).len() as int) =~= decoder_keys(
        prefix,
        i,
    ));
}

/// A weight that is missing from a layer is missing from the decoder.
proof fn lemma_missing_layer<T>(
    weights: Map<Seq<char>, T>,
    prefix: Seq<char>,
    i: nat,
    n: nat,
    message: Seq<char>,
)
    requires
        i < n,
        all_found(weights, decoder_keys(prefix, i)),
        reports_missing(weights, layer_keys(layer_key(prefix, i as int)), message),
    ensures
        reports_missing(weights, decoder_keys(prefix, n), message),
{
    let before = decoder_keys(prefix, i);
    let here = layer_keys(layer_key(prefix, i as int));
    let all = decoder_keys(prefix, n);
    let k = choose|k: int|
        #[trigger] first_missing(weights, here, k) && message == not_found(here[k]);
    lemma_keys_grow(prefix, i + 1, n);
    let upto = decoder_keys(prefix, i + 1);
    assert(upto == before + here);
    let at = before.len() + k;
    assert(all[at] == all.take(upto.len() as int)[at]);
    assert(upto[at] == here[k]);
    assert forall|j: int| 0 <= j < at implies weights.contains_key(#[trigger] all[j]) by {
        assert(all[j] == all.take(upto.len() as int)[j]);
        if j < before.len() {
            assert(upto[j] == before[j]);
        } else {
            assert(upto[j] == here[j - before.len()]);
        }
    }
    assert(first_missing(weights, all, at));
}

/// Finds every weight of a text decoder with `num_hidden_layers` layers: the
/// embeddings, the last normalisation, then layer after layer. The first weight that
/// is missing ends it with a message.
pub fn load_decoder<'a, T>(
    weights: &'a WeightTable<T>,
    prefix: &str,
    num_hidden_layers: usize,
) -> (r: Result<DecoderWeights<'a, T>, String>)
    ensures
        r is Ok <==> all_found(weights@, decoder_keys(prefix@, num_hidden_layers as nat)),
        match r {
            Ok(decoder) => decoder.of(weights@, prefix@, num_hidden_layers as nat),
            Err(message) => reports_missing(
                weights@,
                decoder_keys(prefix@, num_hidden_layers as nat),
                message@,
            ),
        },
{
    let ghost n = num_hidden_layers as nat;
    let ghost keys = decoder_keys(prefix@, n);
    let ghost head = decoder_keys(prefix@, 0);
    let names = decoder_names(prefix);
    proof {
        lemma_keys_grow(prefix@, 0, n);
        assert(head.len() == 2);
        assert(keys[0] == keys.take(2)[0]);
        assert(keys[1] == keys.take(2)[1]);
    }
    let embed_tokens = match weights.get(names.embed_tokens.as_str()) {
        Ok(weight) => weight,
        Err(message) => {
            assert(first_missing(weights@, keys, 0));
            return Err(message);
        },
    };
    let norm = match weights.get(names.norm.as_str()) {
        Ok(weight) => weight,
        Err(message) => {
            assert(first_missing(weights@, keys, 1));
            return Err(message);
        },
    };
    let mut layers: Vec<DecoderLayerWeights<'a, T>> = Vec::new();
    let mut i: usize = 0;
    while i < num_hidden_layers
        invariant
            i <= num_hidden_layers,
            n == num_hidden_layers,
            keys == decoder_keys(prefix@, n),
            all_found(weights@, decoder_keys(prefix@, i as nat)),
            layers@.len() == i,
            forall|j: int|
                0 <= j < i ==> (#[trigger] layers@[j]).of(weights@, layer_key(prefix@, j)),
        decreases num_hidden_layers - i,
    {
        let p = layer_prefix(prefix, i);
        let ghost here = layer_keys(p@);
        match load_layer(weights, p.as_str()) {
            Ok(layer) => {
                proof {
                    let before = decoder_keys(prefix@, i as nat);
                    let next = decoder_keys(prefix@, (i + 1) as nat);
                    assert(next == before + here);
                    assert forall|j: int| 0 <= j < next.len() implies weights@.contains_key(
                        #[trigger] next[j],
                    ) by {
                        if j < before.len() {
                            assert(next[j] == before[j]);
                        } else {
                            assert(next[j] == here[j - before.len()]);
                        }
                    }
                }
                layers.push(layer);
            },
            Err(message) => {
                proof {
                    lemma_missing_layer(weights@, prefix@, i as nat, n, message@);
                }
                return Err(message);
            },
        }
        i += 1;
    }
    Ok(DecoderWeights { embed_tokens, norm, layers })
}

} // verus!

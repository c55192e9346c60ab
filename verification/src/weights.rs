//! Weights of a checkpoint: which files hold them, how they are found by name, and
//! how some are joined when they are loaded.
use serde_json::Value;
use vstd::prelude::*;
use vstd::string::StringExecFns;

use crate::buffers::append_copy;
use crate::layout::lemma_inside;
use crate::text::{decimal, join2, join3, number};

verus! {

#[verifier::external_type_specification]
#[verifier::external_body]
pub struct ExValue(serde_json::Value);

#[verifier::external_type_specification]
#[verifier::external_body]
pub struct ExJsonError(serde_json::Error);

/// What `serde_json::from_str` makes of a text.
pub uninterp spec fn json_document(text: Seq<char>) -> Result<serde_json::Value, serde_json::Error>;

/// The text that `Display` gives a JSON error.
pub uninterp spec fn json_error_text(e: serde_json::Error) -> Seq<char>;

/// What `Value`'s index operator gives for a key.
pub uninterp spec fn json_member(v: serde_json::Value, key: Seq<char>) -> serde_json::Value;

/// The values of an object, in the order in which it lists them; none where the
/// value is no object.
pub uninterp spec fn json_values(v: serde_json::Value) -> Option<Seq<serde_json::Value>>;

/// The text of a string, none where the value is no string.
pub uninterp spec fn json_text(v: serde_json::Value) -> Option<Seq<char>>;

/// `serde_json::from_str` parses a document. What it makes of a text depends on
/// the text alone.
#[verifier::external_body]
fn parse_json(text: &str) -> (r: Result<Value, serde_json::Error>)
    ensures
        r == json_document(text@),
{
    serde_json::from_str(text)
}

/// `to_string` of a `serde_json::Error` gives its message.
#[verifier::external_body]
fn json_message(e: &serde_json::Error) -> (r: String)
    ensures
        r@ == json_error_text(*e),
{
    e.to_string()
}

/// Indexing a `Value` with a key gives the member of that name; where there is
/// none, or the value is no object, it gives null. It never panics.
#[verifier::external_body]
fn member<'a>(v: &'a Value, key: &str) -> (r: &'a Value)
    ensures
        *r == json_member(*v, key@),
{
    &v[key]
}

/// `Value::as_object` gives the members of an object, `Map::values` their values.
#[verifier::external_body]
fn values<'a>(v: &'a Value) -> (r: Option<Vec<&'a Value>>)
    ensures
        r is Some <==> json_values(*v) is Some,
        r matches Some(list) ==> list@.len() == json_values(*v)->0.len() && forall|i: int|
            0 <= i < list@.len() ==> *(#[trigger] list@[i]) == json_values(*v)->0[i],
{
    v.as_object().map(|m| m.values().collect())
}

/// `Value::as_str` gives the text of a string.
#[verifier::external_body]
fn text_of(v: &Value) -> (r: Option<String>)
    ensures
        r is Some <==> json_text(*v) is Some,
        r matches Some(s) ==> s@ == json_text(*v)->0,
{
    v.as_str().map(|s| s.to_string())
}

/// Why a list of shards could not be read.
pub enum IndexError {
    /// The text is no JSON document.
    Json { message: String },
    /// The document has no object `weight_map`.
    Invalid,
}

impl IndexError {
    /// The text of the error.
    pub fn message(&self) -> (r: String)
        ensures
            r@ == (match *self {
                IndexError::Json { message } => message@,
                IndexError::Invalid => "invalid index.json"@,
            }),
    {
        match self {
            IndexError::Json { message } => message.clone(),
            IndexError::Invalid => String::from_str("invalid index.json"),
        }
    }
}

/// The texts in a list, each once, in the order in which they first come.
pub open spec fn distinct(list: Seq<Option<Seq<char>>>) -> Seq<Seq<char>>
    decreases list.len(),
{
    if list.len() == 0 {
        Seq::empty()
    } else {
        let before = distinct(list.drop_last());
        match list.last() {
            Some(name) => if before.contains(name) {
                before
            } else {
                before.push(name)
            },
            None => before,
        }
    }
}

/// The views of a list of texts.
pub open spec fn texts(list: Seq<String>) -> Seq<Seq<char>> {
    list.map_values(|s: String| s@)
}

/// The views of a list of optional texts.
pub open spec fn optional_texts(list: Seq<Option<String>>) -> Seq<Option<Seq<char>>> {
    list.map_values(
        |o: Option<String>|
            match o {
                Some(s) => Some(s@),
                None => None::<Seq<char>>,
            },
    )
}

/// Whether a text is in a list.
fn listed(list: &Vec<String>, name: &String) -> (r: bool)
    ensures
        r == texts(list@).contains(name@),
{
    let mut i: usize = 0;
    while i < list.len()
        invariant
            i <= list@.len(),
            forall|k: int| 0 <= k < i ==> (#[trigger] texts(list@)[k]) != name@,
        decreases list@.len() - i,
    {
        if list[i] == *name {
            assert(texts(list@)[i as int] == name@);
            return true;
        }
        i += 1;
    }
    false
}

/// The shard files that the values of a weight map name: every file once.
pub fn distinct_shards(values: &Vec<Option<String>>) -> (r: Vec<String>)
    ensures
        texts(r@) == distinct(optional_texts(values@)),
{
    let mut out: Vec<String> = Vec::new();
    let ghost all = optional_texts(values@);
    let mut i: usize = 0;
    assert(all.take(0) =~= Seq::<Option<Seq<char>>>::empty());
    assert(texts(out@) =~= Seq::<Seq<char>>::empty());
    while i < values.len()
        invariant
            i <= values@.len(),
            all == optional_texts(values@),
            texts(out@) == distinct(all.take(i as int)),
        decreases values@.len() - i,
    {
        assert(all.take(i + 1).drop_last() =~= all.take(i as int));
        assert(all.take(i + 1).last() == all[i as int]);
        match &values[i] {
            Some(name) => {
                if !listed(&out, name) {
                    let ghost before = texts(out@);
                    out.push(name.clone());
                    assert(texts(out@) =~= before.push(name@));
                }
            },
            None => {},
        }
        i += 1;
    }
    assert(all.take(all.len() as int) =~= all);
    out
}

/// The texts that the values of a list hold.
pub open spec fn value_texts(list: Seq<serde_json::Value>) -> Seq<Option<Seq<char>>> {
    list.map_values(|v: serde_json::Value| json_text(v))
}

/// Reads the names of the shard files out of an index document.
pub fn shard_names(index: &str) -> (r: Result<Vec<String>, IndexError>)
    ensures
        match json_document(index@) {
            Err(e) => r matches Err(IndexError::Json { message }) && message@ == json_error_text(e),
            Ok(doc) => match json_values(json_member(doc, "weight_map"@)) {
                None => r == Err::<Vec<String>, IndexError>(IndexError::Invalid),
                Some(list) => r matches Ok(names) && texts(names@) == distinct(value_texts(list)),
            },
        },
{
    let doc = match parse_json(index) {
        Ok(doc) => doc,
        Err(e) => {
            return Err(IndexError::Json { message: json_message(&e) });
        },
    };
    let map = member(&doc, "weight_map");
    let list = match values(map) {
        Some(list) => list,
        None => {
            return Err(IndexError::Invalid);
        },
    };
    let mut found: Vec<Option<String>> = Vec::new();
    let mut i: usize = 0;
    while i < list.len()
        invariant
            i <= list@.len(),
            found@.len() == i,
            forall|k: int|
                0 <= k < i ==> #[trigger] optional_texts(found@)[k] == json_text(*list@[k]),
        decreases list@.len() - i,
    {
        let ghost before = found@;
        found.push(text_of(list[i]));
        assert forall|k: int| 0 <= k < i + 1 implies #[trigger] optional_texts(found@)[k]
            == json_text(*list@[k]) by {
            if k < i {
                assert(optional_texts(found@)[k] == optional_texts(before)[k]);
            }
        }
        i += 1;
    }
    assert(optional_texts(found@) =~= value_texts(json_values(*map)->0));
    Ok(distinct_shards(&found))
}

/// The files of a checkpoint, given its index where it has one: the shards that the
/// index names, or the single file of a checkpoint without an index.
pub fn weight_files(index: Option<&str>) -> (r: Result<Vec<String>, IndexError>)
    ensures
        match index {
            None => r matches Ok(names) && texts(names@) == seq!["model.safetensors"@],
            Some(text) => match json_document(text@) {
                Err(e) => r matches Err(IndexError::Json { message }) && message@
                    == json_error_text(e),
                Ok(doc) => match json_values(json_member(doc, "weight_map"@)) {
                    None => r == Err::<Vec<String>, IndexError>(IndexError::Invalid),
                    Some(list) => r matches Ok(names) && texts(names@) == distinct(
                        value_texts(list),
                    ),
                },
            },
        },
{
    match index {
        Some(text) => shard_names(text),
        None => {
            let mut names: Vec<String> = Vec::new();
            names.push(String::from_str("model.safetensors"));
            assert(texts(names@) =~= seq!["model.safetensors"@]);
            Ok(names)
        },
    }
}

/// No file is read twice.
pub proof fn law_shards_distinct(list: Seq<Option<Seq<char>>>)
    ensures
        distinct(list).no_duplicates(),
        forall|name: Seq<char>|
            #[trigger] distinct(list).contains(name) <==> list.contains(Some(name)),
    decreases list.len(),
{
    if list.len() > 0 {
        let front = list.drop_last();
        law_shards_distinct(front);
        let before = distinct(front);
        assert forall|name: Seq<char>| #[trigger] distinct(list).contains(name) <==> list.contains(
            Some(name),
        ) by {
            assert(before.contains(name) <==> front.contains(Some(name)));
            if list.contains(Some(name)) {
                let i = choose|i: int| 0 <= i < list.len() && list[i] == Some(name);
                if i < front.len() {
                    assert(front[i] == Some(name));
                }
            }
            if front.contains(Some(name)) {
                let i = choose|i: int| 0 <= i < front.len() && front[i] == Some(name);
                assert(list[i] == Some(name));
            }
            if let Some(last) = list.last() {
                assert(list[list.len() - 1] == Some(last));
                if !before.contains(last) {
                    assert(before.push(last)[before.len() as int] == last);
                    if before.contains(name) {
                        let i = choose|i: int| 0 <= i < before.len() && before[i] == name;
                        assert(before.push(last)[i] == name);
                    }
                }
            }
        }
    }
}

/// Weights by name.
pub struct WeightTable<T> {
    names: Vec<String>,
    weights: Vec<T>,
}

impl<T> View for WeightTable<T> {
    type V = Map<Seq<char>, T>;

    closed spec fn view(&self) -> Map<Seq<char>, T> {
        table_of(texts(self.names@), self.weights@)
    }
}

spec fn table_of<T>(names: Seq<Seq<char>>, weights: Seq<T>) -> Map<Seq<char>, T> {
    Map::new(
        |name: Seq<char>| names.contains(name),
        |name: Seq<char>| weights[names.index_of(name)],
    )
}

/// What is said of a weight that is not there.
pub open spec fn not_found(name: Seq<char>) -> Seq<char> {
    "weight not found: "@ + name
}

impl<T> WeightTable<T> {
    #[verifier::type_invariant]
    spec fn inv(self) -> bool {
        self.names@.len() == self.weights@.len() && texts(self.names@).no_duplicates()
    }

    /// A table without weights.
    pub fn new() -> (r: Self)
        ensures
            r@ == Map::<Seq<char>, T>::empty(),
    {
        let r = WeightTable { names: Vec::new(), weights: Vec::new() };
        assert(r@ =~= Map::<Seq<char>, T>::empty());
        r
    }

    fn find(&self, name: &String) -> (r: Option<usize>)
        ensures
            match r {
                Some(i) => {
                    &&& i < self.names@.len()
                    &&& texts(self.names@)[i as int] == name@
                },
                None => !texts(self.names@).contains(name@),
            },
    {
        let mut i: usize = 0;
        while i < self.names.len()
            invariant
                i <= self.names@.len(),
                forall|k: int| 0 <= k < i ==> (#[trigger] texts(self.names@)[k]) != name@,
            decreases self.names@.len() - i,
        {
            if self.names[i] == *name {
                return Some(i);
            }
            i += 1;
        }
        None
    }

    /// Adds a weight, in place of one of the same name.
    pub fn insert(self, name: String, weight: T) -> (r: Self)
        ensures
            r@ == self@.insert(name@, weight),
    {
        proof {
            use_type_invariant(&self);
        }
        let found = self.find(&name);
        let mut names = self.names;
        let mut weights = self.weights;
        let ghost before = texts(names@);
        let ghost old_weights = weights@;
        match found {
            Some(i) => {
                weights.set(i, weight);
                let r = WeightTable { names, weights };
                proof {
                    assert forall|k: Seq<char>| #[trigger] before.contains(k) implies weights@[
                        before.index_of(k)] == (if k == name@ {
                        weight
                    } else {
                        old_weights[before.index_of(k)]
                    }) by {
                        let at = before.index_of(k);
                        assert(before[at] == k);
                        if k == name@ {
                            assert(at == i);
                        }
                    }
                    assert(before.contains(before[i as int]));
                    assert(r@ =~= self@.insert(name@, weight));
                }
                r
            },
            None => {
                let ghost text = name@;
                names.push(name);
                weights.push(weight);
                let ghost after = texts(names@);
                proof {
                    assert(after =~= before.push(text));
                    assert(after.no_duplicates());
                }
                let r = WeightTable { names, weights };
                proof {
                    assert forall|k: Seq<char>|
                        #[trigger] after.contains(k) <==> before.contains(k) || k == text by {
                        if before.contains(k) {
                            assert(after[before.index_of(k)] == k);
                        }
                        if k == text {
                            assert(after[before.len() as int] == k);
                        }
                    }
                    assert forall|k: Seq<char>| #[trigger] after.contains(k) implies weights@[
                        after.index_of(k)] == (if k == text {
                        weight
                    } else {
                        old_weights[before.index_of(k)]
                    }) by {
                        let at = after.index_of(k);
                        assert(after[at] == k);
                        if k == text {
                            assert(after[before.len() as int] == k);
                        } else {
                            assert(before[at] == k);
                            assert(before[before.index_of(k)] == k);
                        }
                    }
                    assert(r@ =~= self@.insert(text, weight));
                }
                r
            },
        }
    }

    /// Whether there is a weight of that name.
    pub fn contains_key(&self, name: &str) -> (r: bool)
        ensures
            r == self@.contains_key(name@),
    {
        let name = String::from_str(name);
        self.find(&name).is_some()
    }

    /// The weight of that name, or a message that there is none.
    pub fn get(&self, name: &str) -> (r: Result<&T, String>)
        ensures
            match r {
                Ok(weight) => self@.contains_key(name@) && *weight == self@[name@],
                Err(message) => !self@.contains_key(name@) && message@ == not_found(name@),
            },
    {
        proof {
            use_type_invariant(self);
        }
        let key = String::from_str(name);
        match self.find(&key) {
            Some(i) => {
                proof {
                    let names = texts(self.names@);
                    assert(names.contains(names[i as int]));
                    assert(names[names.index_of(name@)] == name@);
                }
                Ok(&self.weights[i])
            },
            None => Err(join2("weight not found: ", name)),
        }
    }
}

/// What was stored under a name is found under it, and storing it leaves the other
/// weights alone.
pub proof fn law_weight_found<T>(before: Map<Seq<char>, T>, name: Seq<char>, weight: T, other: Seq<
    char,
>)
    ensures
        before.insert(name, weight)[name] == weight,
        before.insert(name, weight).contains_key(name),
        other != name ==> (before.insert(name, weight).contains_key(other) <==> before.contains_key(
            other,
        )) && before.insert(name, weight)[other] == before[other],
{
}

/// A weight matrix `[rows, cols]`.
pub struct Weight<T> {
    pub data: Vec<T>,
    pub rows: usize,
    pub cols: usize,
}

impl<T> Weight<T> {
    /// A matrix with as many elements as its sizes say.
    pub open spec fn valid(self) -> bool {
        self.data@.len() == self.rows * self.cols
    }
}

/// Takes a tensor as a matrix, where it has two dimensions.
pub fn load_weight<T>(data: Vec<T>, shape: &[usize]) -> (r: Option<Weight<T>>)
    ensures
        r is Some <==> shape@.len() == 2,
        r matches Some(w) ==> w.data@ == data@ && w.rows == shape@[0] && w.cols == shape@[1],
{
    if shape.len() == 2 {
        Some(Weight { data, rows: shape[0], cols: shape[1] })
    } else {
        None
    }
}

/// The query, key and value projections as one matrix, one below the other.
pub fn fuse_qkv<T: Copy>(q: &Weight<T>, k: &Weight<T>, v: &Weight<T>) -> (r: Weight<T>)
    requires
        k.cols == q.cols,
        v.cols == q.cols,
        q.rows + 2 * k.rows <= usize::MAX,
    ensures
        r.data@ == q.data@ + k.data@ + v.data@,
        r.rows == q.rows + 2 * k.rows,
        r.cols == q.cols,
        q.valid() && k.valid() && v.valid() && v.rows == k.rows ==> r.valid(),
{
    let mut data: Vec<T> = Vec::new();
    append_copy(&mut data, q.data.as_slice());
    append_copy(&mut data, k.data.as_slice());
    append_copy(&mut data, v.data.as_slice());
    assert(data@ =~= q.data@ + k.data@ + v.data@);
    proof {
        assert((q.rows + 2 * k.rows) * q.cols == q.rows * q.cols + k.rows * q.cols + k.rows * q.cols)
            by (nonlinear_arith);
    }
    Weight { data, rows: q.rows + 2 * k.rows, cols: q.cols }
}

/// Up projection below the gating one, as one matrix.
pub fn fuse_gate_up<T: Copy>(gate: &Weight<T>, up: &Weight<T>) -> (r: Weight<T>)
    requires
        up.rows == gate.rows,
        up.cols == gate.cols,
        2 * gate.rows <= usize::MAX,
    ensures
        r.data@ == gate.data@ + up.data@,
        r.rows == 2 * gate.rows,
        r.cols == gate.cols,
        gate.valid() && up.valid() ==> r.valid(),
{
    let mut data: Vec<T> = Vec::new();
    append_copy(&mut data, gate.data.as_slice());
    append_copy(&mut data, up.data.as_slice());
    assert(data@ =~= gate.data@ + up.data@);
    proof {
        assert((2 * gate.rows) * gate.cols == gate.rows * gate.cols + gate.rows * gate.cols)
            by (nonlinear_arith);
    }
    Weight { data, rows: 2 * gate.rows, cols: gate.cols }
}

/// Where each projection ends up in the joined one: row `i` of the queries is row
/// `i`, row `i` of the keys comes behind all queries, row `i` of the values behind
/// all keys.
pub proof fn law_fused_rows<T>(q: Weight<T>, k: Weight<T>, v: Weight<T>, r: Weight<T>, i: int, j: int)
    requires
        q.valid(),
        k.valid(),
        v.valid(),
        v.rows == k.rows,
        k.cols == q.cols,
        v.cols == q.cols,
        r.data@ == q.data@ + k.data@ + v.data@,
        0 <= i,
        0 <= j < q.cols,
    ensures
        i < q.rows ==> r.data@[i * q.cols + j] == q.data@[i * q.cols + j],
        i < k.rows ==> r.data@[(q.rows + i) * q.cols + j] == k.data@[i * q.cols + j],
        i < k.rows ==> r.data@[(q.rows + k.rows + i) * q.cols + j] == v.data@[i * q.cols + j],
{
    let c = q.cols as int;
    assert((q.rows + i) * c == q.rows * c + i * c) by (nonlinear_arith);
    assert((q.rows + k.rows + i) * c == q.rows * c + k.rows * c + i * c) by (nonlinear_arith);
    if i < q.rows {
        lemma_inside(i, q.rows as int, c, j);
    }
    if i < k.rows {
        lemma_inside(i, k.rows as int, c, j);
    }
}

/// Names of the weights of a decoder layer.
pub struct DecoderLayerNames {
    pub input_norm: String,
    pub post_norm: String,
    pub q_norm: String,
    pub k_norm: String,
    pub q_proj: String,
    pub k_proj: String,
    pub v_proj: String,
    pub o_proj: String,
    pub gate_proj: String,
    pub up_proj: String,
    pub down_proj: String,
}

/// The names below a layer's prefix.
pub fn decoder_layer_names(p: &str) -> (r: DecoderLayerNames)
    ensures
        r.input_norm@ == p@ + ".input_layernorm.weight"@,
        r.post_norm@ == p@ + ".post_attention_layernorm.weight"@,
        r.q_norm@ == p@ + ".self_attn.q_norm.weight"@,
        r.k_norm@ == p@ + ".self_attn.k_norm.weight"@,
        r.q_proj@ == p@ + ".self_attn.q_proj.weight"@,
        r.k_proj@ == p@ + ".self_attn.k_proj.weight"@,
        r.v_proj@ == p@ + ".self_attn.v_proj.weight"@,
        r.o_proj@ == p@ + ".self_attn.o_proj.weight"@,
        r.gate_proj@ == p@ + ".mlp.gate_proj.weight"@,
        r.up_proj@ == p@ + ".mlp.up_proj.weight"@,
        r.down_proj@ == p@ + ".mlp.down_proj.weight"@,
{
    DecoderLayerNames {
        input_norm: join2(p, ".input_layernorm.weight"),
        post_norm: join2(p, ".post_attention_layernorm.weight"),
        q_norm: join2(p, ".self_attn.q_norm.weight"),
        k_norm: join2(p, ".self_attn.k_norm.weight"),
        q_proj: join2(p, ".self_attn.q_proj.weight"),
        k_proj: join2(p, ".self_attn.k_proj.weight"),
        v_proj: join2(p, ".self_attn.v_proj.weight"),
        o_proj: join2(p, ".self_attn.o_proj.weight"),
        gate_proj: join2(p, ".mlp.gate_proj.weight"),
        up_proj: join2(p, ".mlp.up_proj.weight"),
        down_proj: join2(p, ".mlp.down_proj.weight"),
    }
}

/// The prefix of layer `i`.
pub fn layer_prefix(prefix: &str, i: usize) -> (r: String)
    ensures
        r@ == prefix@ + ".layers."@ + decimal(i as int),
{
    let digits = number(i as u64);
    join3(prefix, ".layers.", digits.as_str())
}

/// Names of the weights of a text decoder outside its layers.
pub struct DecoderNames {
    pub embed_tokens: String,
    pub norm: String,
}

/// The names below a decoder's prefix.
pub fn decoder_names(prefix: &str) -> (r: DecoderNames)
    ensures
        r.embed_tokens@ == prefix@ + ".embed_tokens.weight"@,
        r.norm@ == prefix@ + ".norm.weight"@,
{
    DecoderNames {
        embed_tokens: join2(prefix, ".embed_tokens.weight"),
        norm: join2(prefix, ".norm.weight"),
    }
}

/// Names of the parts of an audio encoder layer. A part's matrix is below it under
/// `.weight`, its bias, where it has one, under `.bias`.
pub struct AudioLayerNames {
    pub attn_norm: String,
    pub q_proj: String,
    pub k_proj: String,
    pub v_proj: String,
    pub out_proj: String,
    pub ffn_norm: String,
    pub fc1: String,
    pub fc2: String,
}

/// The parts below an audio layer's prefix.
pub fn audio_layer_names(p: &str) -> (r: AudioLayerNames)
    ensures
        r.attn_norm@ == p@ + ".self_attn_layer_norm"@,
        r.q_proj@ == p@ + ".self_attn.q_proj"@,
        r.k_proj@ == p@ + ".self_attn.k_proj"@,
        r.v_proj@ == p@ + ".self_attn.v_proj"@,
        r.out_proj@ == p@ + ".self_attn.out_proj"@,
        r.ffn_norm@ == p@ + ".final_layer_norm"@,
        r.fc1@ == p@ + ".fc1"@,
        r.fc2@ == p@ + ".fc2"@,
{
    AudioLayerNames {
        attn_norm: join2(p, ".self_attn_layer_norm"),
        q_proj: join2(p, ".self_attn.q_proj"),
        k_proj: join2(p, ".self_attn.k_proj"),
        v_proj: join2(p, ".self_attn.v_proj"),
        out_proj: join2(p, ".self_attn.out_proj"),
        ffn_norm: join2(p, ".final_layer_norm"),
        fc1: join2(p, ".fc1"),
        fc2: join2(p, ".fc2"),
    }
}

/// Names of the parts of an audio encoder outside its layers.
pub struct AudioNames {
    pub conv1: String,
    pub conv2: String,
    pub conv3: String,
    pub conv_out: String,
    pub ln_post: String,
    pub proj1: String,
    pub proj2: String,
}

/// The parts below an audio encoder's prefix.
pub fn audio_names(prefix: &str) -> (r: AudioNames)
    ensures
        r.conv1@ == prefix@ + ".conv2d1"@,
        r.conv2@ == prefix@ + ".conv2d2"@,
        r.conv3@ == prefix@ + ".conv2d3"@,
        r.conv_out@ == prefix@ + ".conv_out"@,
        r.ln_post@ == prefix@ + ".ln_post"@,
        r.proj1@ == prefix@ + ".proj1"@,
        r.proj2@ == prefix@ + ".proj2"@,
{
    AudioNames {
        conv1: join2(prefix, ".conv2d1"),
        conv2: join2(prefix, ".conv2d2"),
        conv3: join2(prefix, ".conv2d3"),
        conv_out: join2(prefix, ".conv_out"),
        ln_post: join2(prefix, ".ln_post"),
        proj1: join2(prefix, ".proj1"),
        proj2: join2(prefix, ".proj2"),
    }
}

/// A linear layer's matrix and, where there is one, its bias.
pub fn load_linear<'a, T>(weights: &'a WeightTable<T>, prefix: &str) -> (r: Result<
    (&'a T, Option<&'a T>),
    String,
>)
    ensures
        ({
            let w = prefix@ + ".weight"@;
            let b = prefix@ + ".bias"@;
            match r {
                Ok((weight, bias)) => {
                    &&& weights@.contains_key(w)
                    &&& *weight == weights@[w]
                    &&& bias is Some <==> weights@.contains_key(b)
                    &&& bias matches Some(x) ==> *x == weights@[b]
                },
                Err(message) => !weights@.contains_key(w) && message@ == not_found(w),
            }
        }),
{
    let w = join2(prefix, ".weight");
    let b = join2(prefix, ".bias");
    match weights.get(w.as_str()) {
        Ok(weight) => match weights.get(b.as_str()) {
            Ok(bias) => Ok((weight, Some(bias))),
            Err(_) => Ok((weight, None)),
        },
        Err(message) => Err(message),
    }
}

/// Shards stand in the order in which they first come: what a longer list adds stands behind
/// all that the shorter one had.
pub proof fn law_shards_in_order(list: Seq<Option<Seq<char>>>, more: Seq<Option<Seq<char>>>)
    ensures
        distinct(list).len() <= distinct(list + more).len(),
        distinct(list + more).take(distinct(list).len() as int) == distinct(list),
    decreases more.len(),
{
    if more.len() == 0 {
        assert(list + more =~= list);
        assert(distinct(list).take(distinct(list).len() as int) =~= distinct(list));
    } else {
        law_shards_in_order(list, more.drop_last());
        assert((list + more).drop_last() =~= list + more.drop_last());
        let n = distinct(list).len() as int;
        assert(distinct(list + more).take(n) =~= distinct(list + more.drop_last()).take(n));
    }
}

} // verus!

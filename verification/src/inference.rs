//! Options and results of a transcription.
use vstd::prelude::*;
use vstd::string::StringExecFns;

use crate::backend::Backend;
use crate::generate::{emission, law_emission_is_text, law_loop_emission, LoopModel};
use crate::tokenizer::{decoding, AsrTokenizer};

verus! {

/// What to transcribe and how long to go on.
#[non_exhaustive]
pub struct TranscribeOptions {
    /// Language of the audio, found out by the model where it is `None`.
    pub language: Option<String>,
    /// Most tokens that are generated.
    pub max_new_tokens: usize,
}

impl Default for TranscribeOptions {
    /// No language, and at most 2048 tokens. Generation is meant to stop at an
    /// end token long before that.
    fn default() -> (r: Self)
        ensures
            r.language is None,
            r.max_new_tokens == 2048,
    {
        TranscribeOptions { language: None, max_new_tokens: 2048 }
    }
}

impl TranscribeOptions {
    /// The same options with another limit on the generated tokens.
    pub fn with_max_new_tokens(self, n: usize) -> (r: Self)
        ensures
            r.max_new_tokens == n,
            r.language == self.language,
    {
        let mut r = self;
        r.max_new_tokens = n;
        r
    }

    /// The same options with the language fixed.
    pub fn with_language<L: Into<String>>(self, lang: L) -> (r: Self)
        ensures
            r.language is Some,
            call_ensures(L::into, (lang,), r.language->0),
            r.max_new_tokens == self.max_new_tokens,
    {
        let mut r = self;
        r.language = Some(lang.into());
        r
    }
}

/// A finished transcription.
#[non_exhaustive]
pub struct TranscribeResult {
    /// The spoken text.
    pub text: String,
    /// The language, `forced` where it was given and `unknown` where the model
    /// did not name one.
    pub language: String,
    /// Everything that the model wrote.
    pub raw_output: String,
}

/// Emitted once per generated token.
#[non_exhaustive]
pub struct StreamToken {
    /// The token just produced.
    pub token_id: u32,
    /// The text of all tokens so far.
    pub text_so_far: String,
}

/// The text of the tokens so far; nothing where they cannot be decoded.
pub open spec fn text_so_far(t: tokenizers::Tokenizer, ids: Seq<u32>) -> Seq<char> {
    match decoding(t, ids, true) {
        Ok(text) => text,
        Err(_) => Seq::empty(),
    }
}

/// What a stream reports of a run of tokens: every token with the text of all
/// tokens up to it.
pub open spec fn reports(t: tokenizers::Tokenizer, ids: Seq<u32>) -> Seq<(u32, Seq<char>)>
    decreases ids.len(),
{
    if ids.len() == 0 {
        Seq::empty()
    } else {
        reports(t, ids.drop_last()).push((ids.last(), text_so_far(t, ids)))
    }
}

/// Streaming a whole run reports every token once and in order, the one at `k` with
/// the text of the first `k + 1` tokens.
pub proof fn law_streamed_reports(t: tokenizers::Tokenizer, ids: Seq<u32>)
    ensures
        reports(t, ids).len() == ids.len(),
        forall|k: int|
            0 <= k < ids.len() ==> #[trigger] reports(t, ids)[k] == (
                ids[k],
                text_so_far(t, ids.take(k + 1)),
            ),
    decreases ids.len(),
{
    if ids.len() > 0 {
        let head = ids.drop_last();
        law_streamed_reports(t, head);
        assert forall|k: int| 0 <= k < ids.len() implies #[trigger] reports(t, ids)[k] == (
            ids[k],
            text_so_far(t, ids.take(k + 1)),
        ) by {
            if k < head.len() {
                assert(reports(t, ids)[k] == reports(t, head)[k]);
                assert(head.take(k + 1) =~= ids.take(k + 1));
            } else {
                assert(ids.take(k + 1) =~= ids);
            }
        }
    }
}

/// Streaming changes nothing in the transcription: what a stream has collected after
/// a generation is what the loop generated, so that both are decoded alike, and it
/// has reported exactly that.
pub proof fn law_streaming_is_transcribing(
    t: tokenizers::Tokenizer,
    backend: Backend,
    seq_len: int,
    max_new_tokens: int,
    tokens: Seq<i64>,
    collected: Seq<u32>,
)
    requires
        0 <= seq_len,
        0 <= max_new_tokens,
        seq_len + max_new_tokens <= usize::MAX,
        collected == LoopModel::fresh(backend, seq_len, max_new_tokens).after(tokens).generated,
    ensures
        collected == emission(max_new_tokens, tokens),
        reports(t, collected).len() == collected.len() <= max_new_tokens,
        forall|k: int|
            0 <= k < collected.len() ==> #[trigger] reports(t, collected)[k] == (
                tokens[k] as u32,
                text_so_far(t, emission(max_new_tokens, tokens).take(k + 1)),
            ),
{
    law_loop_emission(backend, seq_len, max_new_tokens, tokens);
    law_emission_is_text(max_new_tokens, tokens);
    law_streamed_reports(t, collected);
}

/// Collects generated tokens and turns each into a [`StreamToken`].
pub struct TokenStream {
    all_ids: Vec<u32>,
}

impl View for TokenStream {
    type V = Seq<u32>;

    closed spec fn view(&self) -> Seq<u32> {
        self.all_ids@
    }
}

impl TokenStream {
    /// A stream before its first token.
    pub fn new() -> (r: Self)
        ensures
            r@ == Seq::<u32>::empty(),
    {
        TokenStream { all_ids: Vec::new() }
    }

    /// Takes one more token and tells the text of all tokens so far.
    pub fn on_token(&mut self, tokenizer: &AsrTokenizer, token_id: u32) -> (r: StreamToken)
        ensures
            final(self)@ == old(self)@.push(token_id),
            r.token_id == token_id,
            r.text_so_far@ == text_so_far(tokenizer@, old(self)@.push(token_id)),
            reports(tokenizer@, final(self)@) == reports(tokenizer@, old(self)@).push(
                (token_id, r.text_so_far@),
            ),
    {
        assert(self.all_ids@.push(token_id).drop_last() =~= self.all_ids@);
        self.all_ids.push(token_id);
        let text = match tokenizer.decode(self.all_ids.as_slice(), true) {
            Ok(text) => text,
            Err(_) => String::new(),
        };
        StreamToken { token_id, text_so_far: text }
    }
}

/// Audio tokens that `n_values` numbers of embeddings of width `hidden` hold. A
/// recording without any is refused.
pub fn audio_token_count(n_values: usize, hidden: usize) -> (r: Result<usize, String>)
    requires
        0 < hidden,
    ensures
        match r {
            Ok(n) => 0 < n_values && n == n_values / hidden,
            Err(message) => n_values == 0 && message@ == "no audio data provided"@,
        },
{
    if n_values == 0 {
        Err(String::from_str("no audio data provided"))
    } else {
        Ok(n_values / hidden)
    }
}

/// A stream reports the text that the tokenizer makes of the tokens, without the special
/// ones; where it makes none of them, it reports no text and goes on.
pub proof fn law_reported_text(t: tokenizers::Tokenizer, ids: Seq<u32>, text: Seq<char>)
    ensures
        decoding(t, ids, true) == Ok::<Seq<char>, Seq<char>>(text) ==> text_so_far(t, ids) == text,
        decoding(t, ids, true) is Err ==> text_so_far(t, ids).len() == 0,
{
}

} // verus!

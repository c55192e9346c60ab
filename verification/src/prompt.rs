//! Prompt construction and reading of what the model wrote.
use vstd::prelude::*;
use vstd::string::StringExecFns;

use crate::inference::TranscribeResult;
use crate::text::{
    begins, begins_at, capitalize_first, capitalized, find, find_from, is_white, join2,
    lemma_trimmed_twice, letter, to_chars, to_text, trim, trim_range, trimmed, uppercase, white,
};
use crate::tokenizer::{decoding, encoded, encoding, samples, view_encoding, AsrTokenizer};

verus! {

/// Ends a turn.
pub const IM_END_TOKEN_ID: i64 = 151645;

/// Ends a text.
pub const ENDOFTEXT_TOKEN_ID: i64 = 151643;

/// Stands between the language and the text of a transcription.
pub const ASR_TEXT_SEP_TOKEN_ID: u32 = 151704;

/// Begins a turn.
pub const TOK_IM_START: i64 = 151644;

/// The word `system`.
pub const TOK_SYSTEM: i64 = 8948;

/// A line break.
pub const TOK_NEWLINE: i64 = 198;

/// Ends a turn.
pub const TOK_IM_END: i64 = IM_END_TOKEN_ID;

/// The word `user`.
pub const TOK_USER: i64 = 872;

/// The word `assistant`.
pub const TOK_ASSISTANT: i64 = 77091;

/// Why a prompt could not be built or an output not be read, with the text of
/// the tokenizer's own error.
pub enum PromptError {
    /// The language hint could not be encoded.
    Encode(String),
    /// The prefix text could not be encoded.
    EncodePrefix(String),
    /// The output could not be decoded.
    Decode(String),
    /// The tokens in front of the separator could not be decoded.
    DecodeLang(String),
    /// The tokens behind the separator could not be decoded.
    DecodeText(String),
}

/// Mathematical value of a [`PromptError`].
pub enum PromptFailure {
    Encode(Seq<char>),
    EncodePrefix(Seq<char>),
    Decode(Seq<char>),
    DecodeLang(Seq<char>),
    DecodeText(Seq<char>),
}

impl View for PromptError {
    type V = PromptFailure;

    open spec fn view(&self) -> PromptFailure {
        match *self {
            PromptError::Encode(e) => PromptFailure::Encode(e@),
            PromptError::EncodePrefix(e) => PromptFailure::EncodePrefix(e@),
            PromptError::Decode(e) => PromptFailure::Decode(e@),
            PromptError::DecodeLang(e) => PromptFailure::DecodeLang(e@),
            PromptError::DecodeText(e) => PromptFailure::DecodeText(e@),
        }
    }
}

impl PromptError {
    /// What the error says.
    pub open spec fn says(self) -> Seq<char> {
        match self {
            PromptError::Encode(e) => "encode: "@ + e@,
            PromptError::EncodePrefix(e) => "encode prefix: "@ + e@,
            PromptError::Decode(e) => "decode: "@ + e@,
            PromptError::DecodeLang(e) => "decode lang: "@ + e@,
            PromptError::DecodeText(e) => "decode text: "@ + e@,
        }
    }

    /// The error in words.
    pub fn message(&self) -> (r: String)
        ensures
            r@ == self.says(),
    {
        match self {
            PromptError::Encode(e) => join2("encode: ", e.as_str()),
            PromptError::EncodePrefix(e) => join2("encode prefix: ", e.as_str()),
            PromptError::Decode(e) => join2("decode: ", e.as_str()),
            PromptError::DecodeLang(e) => join2("decode lang: ", e.as_str()),
            PromptError::DecodeText(e) => join2("decode text: ", e.as_str()),
        }
    }
}

/// Ids of the tokenizer as token numbers of the model.
pub open spec fn widened(ids: Seq<u32>) -> Seq<i64> {
    Seq::new(ids.len(), |i: int| ids[i] as i64)
}

/// The tokens in front of the audio.
pub open spec fn prompt_head(audio_start: i64) -> Seq<i64> {
    seq![
        TOK_IM_START,
        TOK_SYSTEM,
        TOK_NEWLINE,
        TOK_IM_END,
        TOK_NEWLINE,
        TOK_IM_START,
        TOK_USER,
        TOK_NEWLINE,
        audio_start,
    ]
}

/// The tokens behind the audio, up to where the assistant begins to write.
pub open spec fn prompt_turn(audio_end: i64) -> Seq<i64> {
    seq![audio_end, TOK_IM_END, TOK_NEWLINE, TOK_IM_START, TOK_ASSISTANT, TOK_NEWLINE]
}

/// A prompt around `n_audio` audio tokens, with what the assistant is made to have
/// written already: a language hint and a prefix.
pub open spec fn prompt_tokens(
    audio_start: i64,
    audio: i64,
    audio_end: i64,
    n_audio: nat,
    hint: Seq<u32>,
    prefix: Seq<u32>,
) -> Seq<i64> {
    prompt_head(audio_start) + Seq::new(n_audio, |i: int| audio) + prompt_turn(audio_end) + widened(
        hint,
    ) + widened(prefix)
}

/// The hint that tells the model which language it hears.
pub open spec fn language_hint(language: Seq<char>) -> Seq<char> {
    "language "@ + capitalized(language)
}

fn push_ids(tokens: &mut Vec<i64>, ids: &[u32])
    ensures
        final(tokens)@ == old(tokens)@ + widened(ids@),
{
    let mut i: usize = 0;
    assert(widened(ids@.take(0)) =~= Seq::<i64>::empty());
    while i < ids.len()
        invariant
            i <= ids@.len(),
            tokens@ == old(tokens)@ + widened(ids@.take(i as int)),
        decreases ids@.len() - i,
    {
        tokens.push(ids[i] as i64);
        i += 1;
        assert(widened(ids@.take(i as int)) =~= widened(ids@.take(i - 1)).push(ids@[i - 1] as i64));
    }
    assert(ids@.take(ids@.len() as int) =~= ids@);
}

/// Puts a prompt together from ids that the tokenizer gave, and says where the
/// audio begins.
pub fn assemble_prompt(
    audio_start_token_id: i64,
    audio_token_id: i64,
    audio_end_token_id: i64,
    n_audio: usize,
    hint: &[u32],
    prefix: &[u32],
) -> (r: (Vec<i64>, usize))
    ensures
        r.0@ == prompt_tokens(
            audio_start_token_id,
            audio_token_id,
            audio_end_token_id,
            n_audio as nat,
            hint@,
            prefix@,
        ),
        r.1 == prompt_head(audio_start_token_id).len(),
        r.1 == 9,
{
    let mut tokens: Vec<i64> = Vec::new();
    tokens.push(TOK_IM_START);
    tokens.push(TOK_SYSTEM);
    tokens.push(TOK_NEWLINE);
    tokens.push(TOK_IM_END);
    tokens.push(TOK_NEWLINE);
    tokens.push(TOK_IM_START);
    tokens.push(TOK_USER);
    tokens.push(TOK_NEWLINE);
    tokens.push(audio_start_token_id);
    assert(tokens@ =~= prompt_head(audio_start_token_id));
    let asp: usize = tokens.len();
    let mut i: usize = 0;
    assert(Seq::new(0, |k: int| audio_token_id) =~= Seq::<i64>::empty());
    while i < n_audio
        invariant
            i <= n_audio,
            tokens@ == prompt_head(audio_start_token_id) + Seq::new(
                i as nat,
                |k: int| audio_token_id,
            ),
        decreases n_audio - i,
    {
        tokens.push(audio_token_id);
        i += 1;
        assert(Seq::new(i as nat, |k: int| audio_token_id) =~= Seq::new(
            (i - 1) as nat,
            |k: int| audio_token_id,
        ).push(audio_token_id));
    }
    let ghost body = tokens@;
    tokens.push(audio_end_token_id);
    tokens.push(TOK_IM_END);
    tokens.push(TOK_NEWLINE);
    tokens.push(TOK_IM_START);
    tokens.push(TOK_ASSISTANT);
    tokens.push(TOK_NEWLINE);
    assert(tokens@ =~= body + prompt_turn(audio_end_token_id));
    push_ids(&mut tokens, hint);
    push_ids(&mut tokens, prefix);
    (tokens, asp)
}

/// A prompt is a chat: an empty turn of the system, a turn of the user that holds the
/// audio between its marks, and the beginning of the assistant's turn, in which the hint
/// and then the prefix stand as already written. The audio begins behind nine tokens.
pub proof fn law_prompt_is_a_chat(
    start: i64,
    audio: i64,
    end: i64,
    n_audio: nat,
    hint: Seq<u32>,
    prefix: Seq<u32>,
)
    ensures
        ({
            let p = prompt_tokens(start, audio, end, n_audio, hint, prefix);
            let n = n_audio as int;
            &&& p.len() == 15 + n_audio + hint.len() + prefix.len()
            &&& (p[0], p[1], p[2], p[3], p[4]) == (151644i64, 8948i64, 198i64, 151645i64, 198i64)
            &&& (p[5], p[6], p[7], p[8]) == (151644i64, 872i64, 198i64, start)
            &&& forall|i: int| 9 <= i < 9 + n ==> #[trigger] p[i] == audio
            &&& (p[n + 9], p[n + 10], p[n + 11]) == (end, 151645i64, 198i64)
            &&& (p[n + 12], p[n + 13], p[n + 14]) == (151644i64, 77091i64, 198i64)
            &&& forall|i: int| 0 <= i < hint.len() ==> p[n + 15 + i] == #[trigger] hint[i]
            &&& forall|i: int|
                0 <= i < prefix.len() ==> p[n + 15 + hint.len() + i] == #[trigger] prefix[i]
            &&& prompt_head(start).len() == 9
        }),
{
}

/// What building a prompt comes to, given what the tokenizer answered for the
/// hint and for the prefix. No hint is encoded without a language and no prefix
/// where it is missing or empty.
pub open spec fn prompt_outcome(
    audio_start: i64,
    audio: i64,
    audio_end: i64,
    n_audio: nat,
    language: Option<Seq<char>>,
    prefix: Option<Seq<char>>,
    hint_ids: Result<Seq<u32>, Seq<char>>,
    prefix_ids: Result<Seq<u32>, Seq<char>>,
) -> Result<(Seq<i64>, int), PromptFailure> {
    let with_hint = language is Some;
    let with_prefix = prefix is Some && prefix->0.len() > 0;
    if with_hint && hint_ids is Err {
        Err(PromptFailure::Encode(hint_ids->Err_0))
    } else if with_prefix && prefix_ids is Err {
        Err(PromptFailure::EncodePrefix(prefix_ids->Err_0))
    } else {
        Ok(
            (
                prompt_tokens(
                    audio_start,
                    audio,
                    audio_end,
                    n_audio,
                    if with_hint {
                        hint_ids->Ok_0
                    } else {
                        Seq::empty()
                    },
                    if with_prefix {
                        prefix_ids->Ok_0
                    } else {
                        Seq::empty()
                    },
                ),
                prompt_head(audio_start).len() as int,
            ),
        )
    }
}

/// Which answers of the tokenizer a prompt depends on. Without a language there is no
/// hint, and without a prefix, or with an empty one, there is none: the tokenizer's
/// answers to those are not looked at. An answer that is looked at and is an error ends
/// it, first that to the hint.
pub proof fn law_prompt_outcome(
    start: i64,
    audio: i64,
    end: i64,
    n_audio: nat,
    language: Option<Seq<char>>,
    prefix: Option<Seq<char>>,
    hint_ids: Result<Seq<u32>, Seq<char>>,
    prefix_ids: Result<Seq<u32>, Seq<char>>,
)
    ensures
        ({
            let r = prompt_outcome(
                start,
                audio,
                end,
                n_audio,
                language,
                prefix,
                hint_ids,
                prefix_ids,
            );
            let hinted = match (language, hint_ids) {
                (Some(_), Ok(ids)) => ids,
                _ => Seq::empty(),
            };
            let prefixed = match (prefix, prefix_ids) {
                (Some(text), Ok(ids)) => if text.len() > 0 {
                    ids
                } else {
                    Seq::empty()
                },
                _ => Seq::empty(),
            };
            let no_hint = language is Some && hint_ids is Err;
            let no_prefix = prefix is Some && prefix->0.len() > 0 && prefix_ids is Err;
            &&& no_hint ==> r == Err::<(Seq<i64>, int), PromptFailure>(
                PromptFailure::Encode(hint_ids->Err_0),
            )
            &&& !no_hint && no_prefix ==> r == Err::<(Seq<i64>, int), PromptFailure>(
                PromptFailure::EncodePrefix(prefix_ids->Err_0),
            )
            &&& !no_hint && !no_prefix ==> r == Ok::<(Seq<i64>, int), PromptFailure>(
                (prompt_tokens(start, audio, end, n_audio, hinted, prefixed), 9int),
            )
        }),
{
}

/// The hint names a language: the word `language`, a space, the first character of the
/// language in upper case, and the rest of it as it is.
pub proof fn law_hint_names_the_language(language: Seq<char>)
    requires
        language.len() > 0,
    ensures
        ({
            let hint = language_hint(language);
            let up = uppercase(language[0]);
            let n = 9 + up.len() as int;
            &&& hint.len() == n + language.len() - 1
            &&& hint.take(9) == seq!['l', 'a', 'n', 'g', 'u', 'a', 'g', 'e', ' ']
            &&& hint.subrange(9, n) == up
            &&& hint.skip(n) == language.skip(1)
        }),
{
    reveal_strlit("language ");
    let hint = language_hint(language);
    let up = uppercase(language[0]);
    let n = 9 + up.len() as int;
    assert(hint.take(9) =~= seq!['l', 'a', 'n', 'g', 'u', 'a', 'g', 'e', ' ']);
    assert(hint.subrange(9, n) =~= up);
    assert(hint.skip(n) =~= language.skip(1));
}

/// Value of a text that may be missing.
pub open spec fn view_text(text: Option<&str>) -> Option<Seq<char>> {
    match text {
        Some(s) => Some(s@),
        None => None,
    }
}

/// Value of what `build_prompt` returns.
pub open spec fn view_prompt(r: Result<(Vec<i64>, usize), PromptError>) -> Result<
    (Seq<i64>, int),
    PromptFailure,
> {
    match r {
        Ok((tokens, asp)) => Ok((tokens@, asp as int)),
        Err(e) => Err(e@),
    }
}

/// What can come out of building a prompt: what the tokenizer's answers make of
/// it, and the one outcome where the tokenizer does not sample.
pub open spec fn prompt_built(
    t: tokenizers::Tokenizer,
    audio_start: i64,
    audio: i64,
    audio_end: i64,
    n_audio: nat,
    language: Option<Seq<char>>,
    prefix: Option<Seq<char>>,
    r: Result<(Seq<i64>, int), PromptFailure>,
) -> bool {
    &&& exists|hint_ids: Result<Seq<u32>, Seq<char>>, prefix_ids: Result<Seq<u32>, Seq<char>>|
        {
            &&& #[trigger] encoded(t, language_hint(language->0), hint_ids)
            &&& #[trigger] encoded(t, prefix->0, prefix_ids)
            &&& r == prompt_outcome(
                audio_start,
                audio,
                audio_end,
                n_audio,
                language,
                prefix,
                hint_ids,
                prefix_ids,
            )
        }
    &&& !samples(t) ==> r == prompt_outcome(
        audio_start,
        audio,
        audio_end,
        n_audio,
        language,
        prefix,
        encoding(t, language_hint(language->0)),
        encoding(t, prefix->0),
    )
}

/// Builds the prompt around `n_audio` audio tokens: its tokens, and where the
/// audio begins.
pub fn build_prompt(
    tokenizer: &AsrTokenizer,
    audio_start_token_id: i64,
    audio_token_id: i64,
    audio_end_token_id: i64,
    n_audio: usize,
    language: Option<&str>,
    prefix_text: Option<&str>,
) -> (r: Result<(Vec<i64>, usize), PromptError>)
    ensures
        prompt_built(
            tokenizer@,
            audio_start_token_id,
            audio_token_id,
            audio_end_token_id,
            n_audio as nat,
            view_text(language),
            view_text(prefix_text),
            view_prompt(r),
        ),
{
    let ghost given = view_text(language);
    let ghost pre = view_text(prefix_text);
    let ghost mut hint_ids: Result<Seq<u32>, Seq<char>> = encoding(
        tokenizer@,
        language_hint(given->0),
    );
    let ghost mut prefix_ids: Result<Seq<u32>, Seq<char>> = encoding(
        tokenizer@,
        pre->0,
    );
    let mut hint: Vec<u32> = Vec::new();
    let mut prefix: Vec<u32> = Vec::new();
    if let Some(lang) = language {
        let capital = capitalize_first(lang);
        let text = join2("language ", capital.as_str());
        let answer = tokenizer.encode(text.as_str());
        proof {
            hint_ids = view_encoding(answer);
        }
        match answer {
            Ok(ids) => {
                hint = ids;
            },
            Err(e) => {
                assert(encoded(tokenizer@, language_hint(given->0), hint_ids));
                assert(encoded(tokenizer@, pre->0, prefix_ids));
                return Err(PromptError::Encode(e));
            },
        }
    }
    if let Some(text) = prefix_text {
        if !text.is_empty() {
            let answer = tokenizer.encode(text);
            proof {
                prefix_ids = view_encoding(answer);
            }
            match answer {
                Ok(ids) => {
                    prefix = ids;
                },
                Err(e) => {
                    assert(encoded(tokenizer@, language_hint(given->0), hint_ids));
                    assert(encoded(tokenizer@, pre->0, prefix_ids));
                    return Err(PromptError::EncodePrefix(e));
                },
            }
        }
    }
    assert(encoded(tokenizer@, language_hint(given->0), hint_ids));
    assert(encoded(tokenizer@, pre->0, prefix_ids));
    Ok(
        assemble_prompt(
            audio_start_token_id,
            audio_token_id,
            audio_end_token_id,
            n_audio,
            hint.as_slice(),
            prefix.as_slice(),
        ),
    )
}

/// Length of the letters that `s` begins with.
pub open spec fn word_len(s: Seq<char>) -> int
    decreases s.len(),
{
    if s.len() == 0 || white(s[0]) || !letter(s[0]) {
        0
    } else {
        1 + word_len(s.skip(1))
    }
}

/// Language and text of an output without a separator token.
///
/// An output that begins with `language ` names its language up to the
/// separator text, or up to the first character that is no letter. Any other
/// output is text in an unknown language.
pub open spec fn parsed(raw: Seq<char>, forced: bool) -> (Seq<char>, Seq<char>) {
    let line = trimmed(raw);
    if forced {
        ("forced"@, line)
    } else if begins(line, "language "@) {
        let rest = line.skip("language "@.len() as int);
        let end = word_len(rest);
        match find(rest, "<asr_text>"@) {
            Some(at) => (
                trimmed(rest.take(at)),
                trimmed(rest.skip(at + "<asr_text>"@.len())),
            ),
            None => if 0 < end < rest.len() {
                (rest.take(end), trimmed(rest.skip(end)))
            } else {
                ("unknown"@, line)
            },
        }
    } else {
        ("unknown"@, line)
    }
}

fn word_end(chars: &[char], from: usize, to: usize) -> (r: usize)
    requires
        from <= to <= chars@.len(),
    ensures
        from <= r <= to,
        r - from == word_len(chars@.subrange(from as int, to as int)),
{
    let ghost whole = chars@.subrange(from as int, to as int);
    let mut i: usize = from;
    while i < to
        invariant
            from <= i <= to <= chars@.len(),
            whole == chars@.subrange(from as int, to as int),
            word_len(whole) == (i - from) + word_len(chars@.subrange(i as int, to as int)),
        decreases to - i,
    {
        let ghost here = chars@.subrange(i as int, to as int);
        assert(here[0] == chars@[i as int]);
        if is_white(chars[i]) || !chars[i].is_alphabetic() {
            return i;
        }
        assert(here.skip(1) =~= chars@.subrange(i + 1, to as int));
        i += 1;
    }
    i
}

fn trimmed_text(chars: &[char], from: usize, to: usize) -> (r: String)
    requires
        from <= to <= chars@.len(),
    ensures
        r@ == trimmed(chars@.subrange(from as int, to as int)),
{
    let (a, b) = trim_range(chars, from, to);
    to_text(chars, a, b)
}

/// Reads language and text out of an output without a separator token.
pub fn parse_asr_output(raw: &str, forced: bool) -> (r: (String, String))
    ensures
        (r.0@, r.1@) == parsed(raw@, forced),
{
    if forced {
        return (String::from_str("forced"), trim(raw));
    }
    let chars = to_chars(raw);
    let n: usize = chars.len();
    let (a, b) = trim_range(chars.as_slice(), 0, n);
    let ghost line = chars@.subrange(a as int, b as int);
    assert(chars@.subrange(0, n as int) =~= raw@);
    let label = to_chars("language ");
    let separator = to_chars("<asr_text>");
    let text = to_text(chars.as_slice(), a, b);
    let body = to_chars(text.as_str());
    assert(body@ == line);
    assert(body@.skip(0) =~= line);
    if begins_at(body.as_slice(), 0, label.as_slice()) {
        let start: usize = label.len();
        let m: usize = body.len();
        let ghost rest = line.skip(start as int);
        if let Some(at) = find_from(body.as_slice(), start, separator.as_slice()) {
            let behind: usize = at + separator.len();
            assert(body@.subrange(start as int, at as int) =~= rest.take(at - start));
            assert(body@.subrange(behind as int, m as int) =~= rest.skip(
                at - start + separator@.len(),
            ));
            return (
                trimmed_text(body.as_slice(), start, at),
                trimmed_text(body.as_slice(), behind, m),
            );
        }
        let end = word_end(body.as_slice(), start, m);
        assert(body@.subrange(start as int, m as int) =~= rest);
        if start < end && end < m {
            assert(body@.subrange(start as int, end as int) =~= rest.take(end - start));
            assert(body@.subrange(end as int, m as int) =~= rest.skip(end - start));
            return (
                to_text(body.as_slice(), start, end),
                trimmed_text(body.as_slice(), end, m),
            );
        }
    }
    (String::from_str("unknown"), text)
}

/// A separator text behind a language that does not hold it is the first one.
proof fn lemma_first_separator(lang: Seq<char>, text: Seq<char>)
    requires
        find(lang, "<asr_text>"@) is None,
    ensures
        find(lang + "<asr_text>"@ + text, "<asr_text>"@) == Some(lang.len() as int),
    decreases lang.len(),
{
    let sep = "<asr_text>"@;
    let whole = lang + sep + text;
    reveal_strlit("<asr_text>");
    if lang.len() == 0 {
        assert(whole.take(sep.len() as int) =~= sep);
    } else {
        if begins(whole, sep) {
            if sep.len() <= lang.len() {
                assert(lang.take(sep.len() as int) =~= whole.take(sep.len() as int));
            } else {
                let n = lang.len() as int;
                assert(whole.take(sep.len() as int)[n] == sep[0]);
                assert(sep[n] != sep[0]);
            }
        }
        assert(whole.skip(1) =~= lang.skip(1) + sep + text);
        lemma_first_separator(lang.skip(1), text);
    }
}

/// An output that says `language L<asr_text>T`, whatever whitespace is round it, is
/// read as language `L` and text `T`, whitespace round them left out.
pub proof fn law_labelled_output_is_read(raw: Seq<char>, lang: Seq<char>, text: Seq<char>)
    requires
        trimmed(raw) == "language "@ + lang + "<asr_text>"@ + text,
        find(lang, "<asr_text>"@) is None,
    ensures
        parsed(raw, false) == (trimmed(lang), trimmed(text)),
{
    let label = "language "@;
    let sep = "<asr_text>"@;
    let line = trimmed(raw);
    let rest = lang + sep + text;
    assert(line.take(label.len() as int) =~= label);
    assert(line.skip(label.len() as int) =~= rest);
    lemma_first_separator(lang, text);
    assert(rest.take(lang.len() as int) =~= lang);
    assert(rest.skip(lang.len() as int + sep.len()) =~= text);
}

/// An output without a label is text in an unknown language, and so is one that has
/// nothing but a label, or no language behind it.
pub proof fn law_unlabelled_output_is_text(raw: Seq<char>)
    requires
        ({
            let line = trimmed(raw);
            ||| !begins(line, "language "@)
            ||| find(line.skip(9), "<asr_text>"@) is None && line.len() > 9 && !letter(line[9])
            ||| find(line.skip(9), "<asr_text>"@) is None && forall|i: int|
                9 <= i < line.len() ==> letter(#[trigger] line[i]) && !white(line[i])
        }),
    ensures
        parsed(raw, false) == ("unknown"@, trimmed(raw)),
{
    reveal_strlit("language ");
    let line = trimmed(raw);
    let rest = line.skip(9);
    if begins(line, "language "@) {
        assert("language "@.len() == 9);
        if line.len() > 9 && !letter(line[9]) {
            assert(rest[0] == line[9]);
        } else {
            assert forall|i: int| 0 <= i < rest.len() implies letter(#[trigger] rest[i]) && !white(
                rest[i],
            ) by {
                assert(rest[i] == line[i + 9]);
            }
            lemma_word_len(rest, rest.len() as int);
        }
    }
}

proof fn lemma_word_len(s: Seq<char>, n: int)
    requires
        0 <= n <= s.len(),
        forall|i: int| 0 <= i < n ==> letter(#[trigger] s[i]) && !white(s[i]),
        n < s.len() ==> white(s[n]) || !letter(s[n]),
    ensures
        word_len(s) == n,
    decreases n,
{
    if n > 0 {
        assert(letter(s[0]));
        let rest = s.skip(1);
        assert forall|i: int| 0 <= i < n - 1 implies letter(#[trigger] rest[i]) && !white(rest[i]) by {
            assert(rest[i] == s[i + 1]);
        }
        lemma_word_len(rest, n - 1);
    }
}

/// An output that says `language`, a word and something behind it, but no separator,
/// names the language by that word; the rest is the text.
pub proof fn law_word_behind_label_is_language(raw: Seq<char>, word: Seq<char>, behind: Seq<char>)
    requires
        trimmed(raw) == "language "@ + word + behind,
        find(word + behind, "<asr_text>"@) is None,
        0 < word.len(),
        forall|i: int| 0 <= i < word.len() ==> letter(#[trigger] word[i]) && !white(word[i]),
        0 < behind.len(),
        white(behind[0]) || !letter(behind[0]),
    ensures
        parsed(raw, false) == (word, trimmed(behind)),
{
    reveal_strlit("language ");
    let line = trimmed(raw);
    let rest = word + behind;
    assert(line.take(9) =~= "language "@);
    assert(line.skip(9) =~= rest);
    assert forall|i: int| 0 <= i < word.len() implies letter(#[trigger] rest[i]) && !white(rest[i]) by {
        assert(rest[i] == word[i]);
    }
    lemma_word_len(rest, word.len() as int);
    assert(rest.take(word.len() as int) =~= word);
    assert(rest.skip(word.len() as int) =~= behind);
}

proof fn lemma_text_has_no_margins(raw: Seq<char>, forced: bool)
    ensures
        trimmed(parsed(raw, forced).1) == parsed(raw, forced).1,
{
    let line = trimmed(raw);
    let rest = line.skip("language "@.len() as int);
    lemma_trimmed_twice(raw);
    lemma_trimmed_twice(rest.skip(word_len(rest)));
    match find(rest, "<asr_text>"@) {
        Some(at) => {
            lemma_trimmed_twice(rest.skip(at + "<asr_text>"@.len()));
        },
        None => {},
    }
}

/// The language in front of a separator token, without the word that labels it.
pub open spec fn labelled_language(raw: Seq<char>) -> Seq<char> {
    trimmed(
        if begins(raw, "language "@) {
            raw.skip("language "@.len() as int)
        } else {
            raw
        },
    )
}

/// Reads the language in front of a separator token.
pub fn read_language(raw: &str) -> (r: String)
    ensures
        r@ == labelled_language(raw@),
{
    let chars = to_chars(raw);
    let label = to_chars("language ");
    let n: usize = chars.len();
    assert(chars@.skip(0) =~= raw@);
    let from: usize = if begins_at(chars.as_slice(), 0, label.as_slice()) {
        label.len()
    } else {
        0
    };
    assert(chars@.subrange(from as int, n as int) =~= chars@.skip(from as int));
    trimmed_text(chars.as_slice(), from, n)
}

/// The first separator among generated tokens.
pub open spec fn separator(ids: Seq<u32>) -> Option<int>
    decreases ids.len(),
{
    if ids.len() == 0 {
        None
    } else if ids[0] == ASR_TEXT_SEP_TOKEN_ID {
        Some(0)
    } else {
        match separator(ids.skip(1)) {
            Some(i) => Some(i + 1),
            None => None,
        }
    }
}

/// Finds the first separator among generated tokens.
pub fn find_separator(ids: &[u32]) -> (r: Option<usize>)
    ensures
        (match r {
            Some(i) => i < ids@.len() && separator(ids@) == Some(i as int),
            None => separator(ids@) is None,
        }),
{
    let mut i: usize = 0;
    assert(ids@.skip(0) =~= ids@);
    while i < ids.len()
        invariant
            i <= ids@.len(),
            separator(ids@) == (match separator(ids@.skip(i as int)) {
                Some(k) => Some(k + i),
                None => None::<int>,
            }),
        decreases ids@.len() - i,
    {
        if ids[i] == ASR_TEXT_SEP_TOKEN_ID {
            return Some(i);
        }
        assert(ids@.skip(i as int).skip(1) =~= ids@.skip(i + 1));
        i += 1;
    }
    None
}

/// Mathematical value of a transcription.
#[verifier::ext_equal]
pub struct Transcription {
    pub text: Seq<char>,
    pub language: Seq<char>,
    pub raw_output: Seq<char>,
}

/// Value of a [`TranscribeResult`].
pub open spec fn view_result(r: TranscribeResult) -> Transcription {
    Transcription { text: r.text@, language: r.language@, raw_output: r.raw_output@ }
}

/// Value of what `decode_result` returns.
pub open spec fn view_decoded(r: Result<TranscribeResult, PromptError>) -> Result<
    Transcription,
    PromptFailure,
> {
    match r {
        Ok(t) => Ok(view_result(t)),
        Err(e) => Err(e@),
    }
}

/// A transcription out of the whole output, where it has no separator token or
/// the language was given.
pub open spec fn whole_transcription(raw: Seq<char>, forced: bool) -> Transcription {
    Transcription { text: parsed(raw, forced).1, language: parsed(raw, forced).0, raw_output: raw }
}

/// A transcription out of the texts around a separator token.
pub open spec fn separated_transcription(
    raw: Seq<char>,
    lang_raw: Seq<char>,
    text_raw: Seq<char>,
) -> Transcription {
    Transcription {
        text: trimmed(text_raw),
        language: labelled_language(lang_raw),
        raw_output: raw,
    }
}

/// Reads a transcription out of the whole output.
pub fn finish_whole(raw: String, forced: bool) -> (r: TranscribeResult)
    ensures
        view_result(r) == whole_transcription(raw@, forced),
{
    let (language, text) = parse_asr_output(raw.as_str(), forced);
    TranscribeResult { text, language, raw_output: raw }
}

/// Reads a transcription out of the texts around a separator token.
pub fn finish_separated(raw: String, lang_raw: &str, text_raw: &str) -> (r: TranscribeResult)
    ensures
        view_result(r) == separated_transcription(raw@, lang_raw@, text_raw@),
{
    TranscribeResult { text: trim(text_raw), language: read_language(lang_raw), raw_output: raw }
}

/// What reading an output comes to, over what the tokenizer decodes.
pub open spec fn result_outcome(t: tokenizers::Tokenizer, ids: Seq<u32>, forced: bool) -> Result<
    Transcription,
    PromptFailure,
> {
    match decoding(t, ids, true) {
        Err(e) => Err(PromptFailure::Decode(e)),
        Ok(raw) => if forced {
            Ok(whole_transcription(raw, true))
        } else {
            match separator(ids) {
                None => Ok(whole_transcription(raw, false)),
                Some(at) => match decoding(t, ids.take(at), true) {
                    Err(e) => Err(PromptFailure::DecodeLang(e)),
                    Ok(lang_raw) => match decoding(t, ids.skip(at + 1), true) {
                        Err(e) => Err(PromptFailure::DecodeText(e)),
                        Ok(text_raw) => Ok(separated_transcription(raw, lang_raw, text_raw)),
                    },
                },
            }
        },
    }
}

proof fn lemma_separator(lang: Seq<u32>, text: Seq<u32>)
    requires
        !lang.contains(151704u32),
    ensures
        separator(lang.push(151704u32) + text) == Some(lang.len() as int),
    decreases lang.len(),
{
    let ids = lang.push(151704u32) + text;
    if lang.len() > 0 {
        assert(lang[0] != 151704u32) by {
            assert(lang.contains(lang[0]));
        }
        let rest = lang.skip(1);
        assert forall|x: u32| rest.contains(x) implies lang.contains(x) by {
            let i = choose|i: int| 0 <= i < rest.len() && rest[i] == x;
            assert(lang[i + 1] == x);
        }
        lemma_separator(rest, text);
        assert(ids.skip(1) =~= rest.push(151704u32) + text);
        assert(ids[0] == lang[0]);
    } else {
        assert(ids[0] == 151704u32);
    }
}

proof fn lemma_no_separator(ids: Seq<u32>)
    requires
        !ids.contains(151704u32),
    ensures
        separator(ids) is None,
    decreases ids.len(),
{
    if ids.len() > 0 {
        assert(ids.contains(ids[0]));
        let rest = ids.skip(1);
        assert forall|x: u32| rest.contains(x) implies ids.contains(x) by {
            let i = choose|i: int| 0 <= i < rest.len() && rest[i] == x;
            assert(ids[i + 1] == x);
        }
        lemma_no_separator(rest);
    }
}

/// Where no language was given and the separator token was generated, the tokens in
/// front of the first one name the language, with or without a label, and those behind
/// it are the text, whitespace round both left out. An error of the tokenizer is told
/// with what it was decoding.
pub proof fn law_separator_divides(t: tokenizers::Tokenizer, lang: Seq<u32>, text: Seq<u32>)
    requires
        !lang.contains(151704u32),
    ensures
        ({
            let ids = lang.push(151704u32) + text;
            let r = result_outcome(t, ids, false);
            match (decoding(t, ids, true), decoding(t, lang, true), decoding(t, text, true)) {
                (Ok(raw), Ok(name), Ok(words)) => r == Ok::<Transcription, PromptFailure>(
                    Transcription {
                        text: trimmed(words),
                        language: trimmed(
                            if begins(name, "language "@) {
                                name.skip(9)
                            } else {
                                name
                            },
                        ),
                        raw_output: raw,
                    },
                ),
                (Err(e), _, _) => r == Err::<Transcription, PromptFailure>(
                    PromptFailure::Decode(e),
                ),
                (_, Err(e), _) => r == Err::<Transcription, PromptFailure>(
                    PromptFailure::DecodeLang(e),
                ),
                (_, _, Err(e)) => r == Err::<Transcription, PromptFailure>(
                    PromptFailure::DecodeText(e),
                ),
            }
        }),
{
    reveal_strlit("language ");
    let ids = lang.push(151704u32) + text;
    lemma_separator(lang, text);
    assert(ids.take(lang.len() as int) =~= lang);
    assert(ids.skip(lang.len() as int + 1) =~= text);
}

/// Where the separator token was not generated, or the language was given, all tokens
/// are read together.
pub proof fn law_without_separator_all_is_read(t: tokenizers::Tokenizer, ids: Seq<u32>, forced: bool)
    requires
        forced || !ids.contains(151704u32),
    ensures
        match decoding(t, ids, true) {
            Ok(raw) => result_outcome(t, ids, forced) == Ok::<Transcription, PromptFailure>(
                Transcription {
                    text: if forced {
                        trimmed(raw)
                    } else {
                        parsed(raw, false).1
                    },
                    language: if forced {
                        "forced"@
                    } else {
                        parsed(raw, false).0
                    },
                    raw_output: raw,
                },
            ),
            Err(e) => result_outcome(t, ids, forced) == Err::<Transcription, PromptFailure>(
                PromptFailure::Decode(e),
            ),
        },
{
    if !forced {
        lemma_no_separator(ids);
    }
}

/// Whatever tokens were generated, the text of a transcription has no whitespace at
/// its ends, its raw output is what all tokens decode to, and a language that was
/// given is reported as such.
pub proof fn law_transcription(t: tokenizers::Tokenizer, ids: Seq<u32>, forced: bool)
    ensures
        result_outcome(t, ids, forced) matches Ok(r) ==> {
            &&& trimmed(r.text) == r.text
            &&& decoding(t, ids, true) == Ok::<Seq<char>, Seq<char>>(r.raw_output)
            &&& forced ==> r.language == "forced"@ && r.text == trimmed(r.raw_output)
        },
{
    if let Ok(raw) = decoding(t, ids, true) {
        lemma_text_has_no_margins(raw, forced);
        if let Some(at) = separator(ids) {
            if let Ok(text_raw) = decoding(t, ids.skip(at + 1), true) {
                lemma_trimmed_twice(text_raw);
            }
        }
    }
}

/// Turns generated tokens into a transcription.
pub fn decode_result(tokenizer: &AsrTokenizer, generated_ids: &[u32], language: Option<&str>) -> (r:
    Result<TranscribeResult, PromptError>)
    ensures
        view_decoded(r) == result_outcome(tokenizer@, generated_ids@, language is Some),
{
    let raw = match tokenizer.decode(generated_ids, true) {
        Ok(raw) => raw,
        Err(e) => {
            return Err(PromptError::Decode(e));
        },
    };
    if language.is_some() {
        return Ok(finish_whole(raw, true));
    }
    match find_separator(generated_ids) {
        None => Ok(finish_whole(raw, false)),
        Some(at) => {
            let n: usize = generated_ids.len();
            let lang_ids = vstd::slice::slice_subrange(generated_ids, 0, at);
            let text_ids = vstd::slice::slice_subrange(generated_ids, at + 1, n);
            assert(lang_ids@ =~= generated_ids@.take(at as int));
            assert(text_ids@ =~= generated_ids@.skip(at + 1));
            let lang_raw = match tokenizer.decode(lang_ids, true) {
                Ok(s) => s,
                Err(e) => {
                    return Err(PromptError::DecodeLang(e));
                },
            };
            let text_raw = match tokenizer.decode(text_ids, true) {
                Ok(s) => s,
                Err(e) => {
                    return Err(PromptError::DecodeText(e));
                },
            };
            Ok(finish_separated(raw, lang_raw.as_str(), text_raw.as_str()))
        },
    }
}

} // verus!

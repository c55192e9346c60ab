//! The text tokenizer of the model.
//!
//! The vocabulary and the merge rules belong to the `tokenizers` crate. What it
//! encodes and decodes is named here, not described. A tokenizer is put together
//! of parts, and some of them panic on some texts: [`AsrTokenizer`] holds every
//! tokenizer but those with such a part.
use tokenizers::decoders::DecoderWrapper;
use tokenizers::models::ModelWrapper;
use tokenizers::normalizers::NormalizerWrapper;
use tokenizers::pre_tokenizers::PreTokenizerWrapper;
use tokenizers::processors::PostProcessorWrapper;
use tokenizers::{PaddingStrategy, Tokenizer};
use vstd::prelude::*;

use crate::text::{begins, begins_at, find, find_from, to_chars};

verus! {

#[verifier::external_type_specification]
#[verifier::external_body]
pub struct ExTokenizer(tokenizers::Tokenizer);

#[verifier::external_type_specification]
#[verifier::external_body]
pub struct ExModelWrapper(tokenizers::models::ModelWrapper);

#[verifier::external_type_specification]
#[verifier::external_body]
pub struct ExNormalizerWrapper(tokenizers::normalizers::NormalizerWrapper);

#[verifier::external_type_specification]
#[verifier::external_body]
pub struct ExPreTokenizerWrapper(tokenizers::pre_tokenizers::PreTokenizerWrapper);

#[verifier::external_type_specification]
#[verifier::external_body]
pub struct ExPostProcessorWrapper(tokenizers::processors::PostProcessorWrapper);

#[verifier::external_type_specification]
#[verifier::external_body]
pub struct ExDecoderWrapper(tokenizers::decoders::DecoderWrapper);

/// What `Tokenizer::decode` returns: the text, or the text of its error.
pub uninterp spec fn decoding(t: tokenizers::Tokenizer, ids: Seq<u32>, skip_special: bool) -> Result<
    Seq<char>,
    Seq<char>,
>;

/// The ids that `Tokenizer::encode` returns for a text without special tokens,
/// or the text of its error, where the model does not sample.
pub uninterp spec fn encoding(t: tokenizers::Tokenizer, text: Seq<char>) -> Result<
    Seq<u32>,
    Seq<char>,
>;

/// The model of a tokenizer.
pub uninterp spec fn model_of(t: tokenizers::Tokenizer) -> tokenizers::models::ModelWrapper;

/// The variant of a model.
pub uninterp spec fn model_kind_of(m: tokenizers::models::ModelWrapper) -> ModelKind;

/// Whether a byte-pair model has a rate at which it drops merges.
pub uninterp spec fn dropout_of(m: tokenizers::models::ModelWrapper) -> Option<()>;

/// Whether a unigram model has a rate at which it samples.
pub uninterp spec fn alpha_of(m: tokenizers::models::ModelWrapper) -> Option<()>;

/// The length to which a tokenizer cuts long encodings, and how far the pieces
/// overlap; none where it does not cut.
pub uninterp spec fn truncation_of(t: tokenizers::Tokenizer) -> Option<(usize, usize)>;

/// The length to which a tokenizer pads short encodings, where one is fixed, and
/// the number of which the length becomes a multiple, where there is one; none
/// where it does not pad.
pub uninterp spec fn padding_of(t: tokenizers::Tokenizer) -> Option<
    (Option<usize>, Option<usize>),
>;

/// Which of the two flags, to take in the white space on the left and on the
/// right, the added tokens of a tokenizer carry.
pub uninterp spec fn added_strips_of(t: tokenizers::Tokenizer) -> Set<(bool, bool)>;

/// The normalizer of a tokenizer.
pub uninterp spec fn normalizer_of(t: tokenizers::Tokenizer) -> Option<
    tokenizers::normalizers::NormalizerWrapper,
>;

/// The variant of a normalizer.
pub uninterp spec fn normalizer_kind_of(
    n: tokenizers::normalizers::NormalizerWrapper,
) -> NormalizerKind;

/// The normalizers that a sequence of normalizers runs, none for any other.
pub uninterp spec fn normalizer_parts_of(n: tokenizers::normalizers::NormalizerWrapper) -> Seq<
    tokenizers::normalizers::NormalizerWrapper,
>;

/// What a `Prepend` puts in front of a text, nothing for any other normalizer.
pub uninterp spec fn prepended_by(n: tokenizers::normalizers::NormalizerWrapper) -> Seq<char>;

/// What is printed of a `Replace`, nothing for any other normalizer.
pub uninterp spec fn replacement_of(n: tokenizers::normalizers::NormalizerWrapper) -> Seq<char>;

/// The pre-tokenizer of a tokenizer.
pub uninterp spec fn pre_tokenizer_of(t: tokenizers::Tokenizer) -> Option<
    tokenizers::pre_tokenizers::PreTokenizerWrapper,
>;

/// The variant of a pre-tokenizer.
pub uninterp spec fn pre_tokenizer_kind_of(
    p: tokenizers::pre_tokenizers::PreTokenizerWrapper,
) -> PreTokenizerKind;

/// The pre-tokenizers that a sequence of pre-tokenizers runs, none for any other.
pub uninterp spec fn pre_tokenizer_parts_of(
    p: tokenizers::pre_tokenizers::PreTokenizerWrapper,
) -> Seq<tokenizers::pre_tokenizers::PreTokenizerWrapper>;

/// What is printed of the regular expression that a split runs, nothing for any
/// other pre-tokenizer.
pub uninterp spec fn split_regex_of(p: tokenizers::pre_tokenizers::PreTokenizerWrapper) -> Seq<
    char,
>;

/// How many characters a `FixedLength` puts in a piece, none for any other
/// pre-tokenizer.
pub uninterp spec fn fixed_length_of(
    p: tokenizers::pre_tokenizers::PreTokenizerWrapper,
) -> usize;

/// The post-processor of a tokenizer.
pub uninterp spec fn post_processor_of(t: tokenizers::Tokenizer) -> Option<
    tokenizers::processors::PostProcessorWrapper,
>;

/// The variant of a post-processor.
pub uninterp spec fn post_processor_kind_of(
    p: tokenizers::processors::PostProcessorWrapper,
) -> PostProcessorKind;

/// The post-processors that a sequence of post-processors runs, none for any other.
pub uninterp spec fn post_processor_parts_of(
    p: tokenizers::processors::PostProcessorWrapper,
) -> Seq<tokenizers::processors::PostProcessorWrapper>;

/// What is printed of the pieces that a template makes of a single text, nothing
/// for any other post-processor.
pub uninterp spec fn template_of(p: tokenizers::processors::PostProcessorWrapper) -> Seq<char>;

/// The decoder of a tokenizer.
pub uninterp spec fn decoder_of(t: tokenizers::Tokenizer) -> Option<
    tokenizers::decoders::DecoderWrapper,
>;

/// The variant of a decoder.
pub uninterp spec fn decoder_kind_of(d: tokenizers::decoders::DecoderWrapper) -> DecoderKind;

/// The decoders that a sequence of decoders runs, none for any other decoder.
pub uninterp spec fn decoder_parts_of(d: tokenizers::decoders::DecoderWrapper) -> Seq<
    tokenizers::decoders::DecoderWrapper,
>;

/// What is printed of a `Replace`, nothing for any other decoder.
pub uninterp spec fn decoder_replacement_of(d: tokenizers::decoders::DecoderWrapper) -> Seq<char>;

/// How many characters a `Strip` takes off the end of a token, none for any other
/// decoder.
pub uninterp spec fn strip_stop_of(d: tokenizers::decoders::DecoderWrapper) -> usize;

/// The models of the `tokenizers` crate.
#[derive(Clone, Copy, PartialEq, Eq, Structural)]
pub enum ModelKind {
    Bpe,
    WordPiece,
    WordLevel,
    Unigram,
}

/// The normalizers of the `tokenizers` crate, the forms of Unicode taken together as
/// canonical and compatible ones.
#[derive(Clone, Copy, PartialEq, Eq, Structural)]
pub enum NormalizerKind {
    Bert,
    Strip,
    StripAccents,
    Canonical,
    Compatible,
    Sequence,
    Lowercase,
    Nmt,
    Precompiled,
    Replace,
    Prepend,
    ByteLevel,
}

/// The pre-tokenizers of the `tokenizers` crate.
#[derive(Clone, Copy, PartialEq, Eq, Structural)]
pub enum PreTokenizerKind {
    Bert,
    ByteLevel,
    Delimiter,
    Metaspace,
    Whitespace,
    Sequence,
    Split,
    Punctuation,
    WhitespaceSplit,
    Digits,
    UnicodeScripts,
    FixedLength,
}

/// The post-processors of the `tokenizers` crate.
#[derive(Clone, Copy, PartialEq, Eq, Structural)]
pub enum PostProcessorKind {
    Roberta,
    Bert,
    ByteLevel,
    Template,
    Sequence,
}

/// The decoders of the `tokenizers` crate.
#[derive(Clone, Copy, PartialEq, Eq, Structural)]
pub enum DecoderKind {
    Bpe,
    ByteLevel,
    WordPiece,
    Metaspace,
    Ctc,
    Sequence,
    Replace,
    Fuse,
    Strip,
    ByteFallback,
}

/// `Tokenizer::get_model` gives the model.
#[verifier::external_body]
fn model(t: &Tokenizer) -> (r: &ModelWrapper)
    ensures
        *r == model_of(*t),
{
    t.get_model()
}

/// Tells the variants of `ModelWrapper` apart.
#[verifier::external_body]
fn model_kind(m: &ModelWrapper) -> (r: ModelKind)
    ensures
        r == model_kind_of(*m),
{
    match m {
        ModelWrapper::BPE(_) => ModelKind::Bpe,
        ModelWrapper::WordPiece(_) => ModelKind::WordPiece,
        ModelWrapper::WordLevel(_) => ModelKind::WordLevel,
        ModelWrapper::Unigram(_) => ModelKind::Unigram,
    }
}

/// The public field `dropout` of a `BPE` model, without the rate itself. The
/// other models have no such field.
#[verifier::external_body]
fn dropout(m: &ModelWrapper) -> (r: Option<()>)
    ensures
        r == dropout_of(*m),
{
    match m {
        ModelWrapper::BPE(bpe) => bpe.dropout.map(|_| ()),
        _ => None,
    }
}

/// The public field `alpha` of a `Unigram` model, without the rate itself. The
/// other models have no such field.
#[verifier::external_body]
fn alpha(m: &ModelWrapper) -> (r: Option<()>)
    ensures
        r == alpha_of(*m),
{
    match m {
        ModelWrapper::Unigram(unigram) => unigram.alpha.map(|_| ()),
        _ => None,
    }
}

/// `Tokenizer::get_truncation`, of which the fields `max_length` and `stride` are
/// taken.
#[verifier::external_body]
fn truncation(t: &Tokenizer) -> (r: Option<(usize, usize)>)
    ensures
        r == truncation_of(*t),
{
    t.get_truncation().map(|p| (p.max_length, p.stride))
}

/// `Tokenizer::get_padding`, of which the fixed length, where `strategy` holds one,
/// and `pad_to_multiple_of` are taken.
#[verifier::external_body]
fn padding(t: &Tokenizer) -> (r: Option<(Option<usize>, Option<usize>)>)
    ensures
        r == padding_of(*t),
{
    let params = t.get_padding()?;
    let fixed = match params.strategy {
        PaddingStrategy::BatchLongest => None,
        PaddingStrategy::Fixed(size) => Some(size),
    };
    Some((fixed, params.pad_to_multiple_of))
}

/// `Tokenizer::get_added_tokens_decoder` gives the added tokens, in no fixed
/// order; of each the flags `lstrip` and `rstrip` are taken.
#[verifier::external_body]
fn added_strips(t: &Tokenizer) -> (r: Vec<(bool, bool)>)
    ensures
        r@.to_set() == added_strips_of(*t),
{
    t.get_added_tokens_decoder().values().map(|a| (a.lstrip, a.rstrip)).collect()
}

/// `Tokenizer::get_normalizer` gives the normalizer, if one is set.
#[verifier::external_body]
fn normalizer(t: &Tokenizer) -> (r: Option<&NormalizerWrapper>)
    ensures
        r is Some <==> normalizer_of(*t) is Some,
        r is Some ==> *r->0 == normalizer_of(*t)->0,
{
    t.get_normalizer()
}

/// Tells the variants of `NormalizerWrapper` apart.
#[verifier::external_body]
fn normalizer_kind(n: &NormalizerWrapper) -> (r: NormalizerKind)
    ensures
        r == normalizer_kind_of(*n),
{
    match n {
        NormalizerWrapper::BertNormalizer(_) => NormalizerKind::Bert,
        NormalizerWrapper::StripNormalizer(_) => NormalizerKind::Strip,
        NormalizerWrapper::StripAccents(_) => NormalizerKind::StripAccents,
        NormalizerWrapper::NFC(_) | NormalizerWrapper::NFD(_) => NormalizerKind::Canonical,
        NormalizerWrapper::NFKC(_) | NormalizerWrapper::NFKD(_) => NormalizerKind::Compatible,
        NormalizerWrapper::Sequence(_) => NormalizerKind::Sequence,
        NormalizerWrapper::Lowercase(_) => NormalizerKind::Lowercase,
        NormalizerWrapper::Nmt(_) => NormalizerKind::Nmt,
        NormalizerWrapper::Precompiled(_) => NormalizerKind::Precompiled,
        NormalizerWrapper::Replace(_) => NormalizerKind::Replace,
        NormalizerWrapper::Prepend(_) => NormalizerKind::Prepend,
        NormalizerWrapper::ByteLevel(_) => NormalizerKind::ByteLevel,
    }
}

/// `as_ref` of a sequence of normalizers lists those that it runs in turn.
#[verifier::external_body]
fn normalizer_parts(n: &NormalizerWrapper) -> (r: &[NormalizerWrapper])
    ensures
        r@ == normalizer_parts_of(*n),
{
    match n {
        NormalizerWrapper::Sequence(s) => s.as_ref(),
        _ => &[],
    }
}

/// The public field `prepend` of a `Prepend`.
#[verifier::external_body]
fn prepended(n: &NormalizerWrapper) -> (r: &str)
    ensures
        r@ == prepended_by(*n),
{
    match n {
        NormalizerWrapper::Prepend(p) => p.prepend.as_str(),
        _ => "",
    }
}

/// `Debug` of a `Replace`, which begins with the pattern as it was written.
#[verifier::external_body]
fn replacement(n: &NormalizerWrapper) -> (r: String)
    ensures
        r@ == replacement_of(*n),
{
    match n {
        NormalizerWrapper::Replace(p) => format!("{:?}", p),
        _ => String::new(),
    }
}

/// `Tokenizer::get_pre_tokenizer` gives the pre-tokenizer, if one is set.
#[verifier::external_body]
fn pre_tokenizer(t: &Tokenizer) -> (r: Option<&PreTokenizerWrapper>)
    ensures
        r is Some <==> pre_tokenizer_of(*t) is Some,
        r is Some ==> *r->0 == pre_tokenizer_of(*t)->0,
{
    t.get_pre_tokenizer()
}

/// Tells the variants of `PreTokenizerWrapper` apart.
#[verifier::external_body]
fn pre_tokenizer_kind(p: &PreTokenizerWrapper) -> (r: PreTokenizerKind)
    ensures
        r == pre_tokenizer_kind_of(*p),
{
    match p {
        PreTokenizerWrapper::BertPreTokenizer(_) => PreTokenizerKind::Bert,
        PreTokenizerWrapper::ByteLevel(_) => PreTokenizerKind::ByteLevel,
        PreTokenizerWrapper::Delimiter(_) => PreTokenizerKind::Delimiter,
        PreTokenizerWrapper::Metaspace(_) => PreTokenizerKind::Metaspace,
        PreTokenizerWrapper::Whitespace(_) => PreTokenizerKind::Whitespace,
        PreTokenizerWrapper::Sequence(_) => PreTokenizerKind::Sequence,
        PreTokenizerWrapper::Split(_) => PreTokenizerKind::Split,
        PreTokenizerWrapper::Punctuation(_) => PreTokenizerKind::Punctuation,
        PreTokenizerWrapper::WhitespaceSplit(_) => PreTokenizerKind::WhitespaceSplit,
        PreTokenizerWrapper::Digits(_) => PreTokenizerKind::Digits,
        PreTokenizerWrapper::UnicodeScripts(_) => PreTokenizerKind::UnicodeScripts,
        PreTokenizerWrapper::FixedLength(_) => PreTokenizerKind::FixedLength,
    }
}

/// `as_ref` of a sequence of pre-tokenizers lists those that it runs in turn.
#[verifier::external_body]
fn pre_tokenizer_parts(p: &PreTokenizerWrapper) -> (r: &[PreTokenizerWrapper])
    ensures
        r@ == pre_tokenizer_parts_of(*p),
{
    match p {
        PreTokenizerWrapper::Sequence(s) => s.as_ref(),
        _ => &[],
    }
}

/// `Debug` of the regular expression of a `Split`, which holds the expression as
/// it was written.
#[verifier::external_body]
fn split_regex(p: &PreTokenizerWrapper) -> (r: String)
    ensures
        r@ == split_regex_of(*p),
{
    match p {
        PreTokenizerWrapper::Split(s) => format!("{:?}", s.regex),
        _ => String::new(),
    }
}

/// The public field `length` of a `FixedLength`.
#[verifier::external_body]
fn fixed_length(p: &PreTokenizerWrapper) -> (r: usize)
    ensures
        r == fixed_length_of(*p),
{
    match p {
        PreTokenizerWrapper::FixedLength(f) => f.length,
        _ => 0,
    }
}

/// `Tokenizer::get_post_processor` gives the post-processor, if one is set.
#[verifier::external_body]
fn post_processor(t: &Tokenizer) -> (r: Option<&PostProcessorWrapper>)
    ensures
        r is Some <==> post_processor_of(*t) is Some,
        r is Some ==> *r->0 == post_processor_of(*t)->0,
{
    t.get_post_processor()
}

/// Tells the variants of `PostProcessorWrapper` apart.
#[verifier::external_body]
fn post_processor_kind(p: &PostProcessorWrapper) -> (r: PostProcessorKind)
    ensures
        r == post_processor_kind_of(*p),
{
    match p {
        PostProcessorWrapper::Roberta(_) => PostProcessorKind::Roberta,
        PostProcessorWrapper::Bert(_) => PostProcessorKind::Bert,
        PostProcessorWrapper::ByteLevel(_) => PostProcessorKind::ByteLevel,
        PostProcessorWrapper::Template(_) => PostProcessorKind::Template,
        PostProcessorWrapper::Sequence(_) => PostProcessorKind::Sequence,
    }
}

/// `as_ref` of a sequence of post-processors lists those that it runs in turn.
#[verifier::external_body]
fn post_processor_parts(p: &PostProcessorWrapper) -> (r: &[PostProcessorWrapper])
    ensures
        r@ == post_processor_parts_of(*p),
{
    match p {
        PostProcessorWrapper::Sequence(s) => s.as_ref(),
        _ => &[],
    }
}

/// `TemplateProcessing::get_single` prints the pieces for a single text. The one
/// for the second of two texts is printed with `id: B`.
#[verifier::external_body]
fn template(p: &PostProcessorWrapper) -> (r: String)
    ensures
        r@ == template_of(*p),
{
    match p {
        PostProcessorWrapper::Template(t) => t.get_single(),
        _ => String::new(),
    }
}

/// `Tokenizer::get_decoder` gives the decoder, if one is set.
#[verifier::external_body]
fn decoder(t: &Tokenizer) -> (r: Option<&DecoderWrapper>)
    ensures
        r is Some <==> decoder_of(*t) is Some,
        r is Some ==> *r->0 == decoder_of(*t)->0,
{
    t.get_decoder()
}

/// Tells the variants of `DecoderWrapper` apart.
#[verifier::external_body]
fn decoder_kind(d: &DecoderWrapper) -> (r: DecoderKind)
    ensures
        r == decoder_kind_of(*d),
{
    match d {
        DecoderWrapper::BPE(_) => DecoderKind::Bpe,
        DecoderWrapper::ByteLevel(_) => DecoderKind::ByteLevel,
        DecoderWrapper::WordPiece(_) => DecoderKind::WordPiece,
        DecoderWrapper::Metaspace(_) => DecoderKind::Metaspace,
        DecoderWrapper::CTC(_) => DecoderKind::Ctc,
        DecoderWrapper::Sequence(_) => DecoderKind::Sequence,
        DecoderWrapper::Replace(_) => DecoderKind::Replace,
        DecoderWrapper::Fuse(_) => DecoderKind::Fuse,
        DecoderWrapper::Strip(_) => DecoderKind::Strip,
        DecoderWrapper::ByteFallback(_) => DecoderKind::ByteFallback,
    }
}

/// `Sequence::get_decoders` lists the decoders that a sequence runs in turn.
#[verifier::external_body]
fn decoder_parts(d: &DecoderWrapper) -> (r: &[DecoderWrapper])
    ensures
        r@ == decoder_parts_of(*d),
{
    match d {
        DecoderWrapper::Sequence(s) => s.get_decoders(),
        _ => &[],
    }
}

/// `Debug` of a `Replace`, which holds the pattern as it was written.
#[verifier::external_body]
fn decoder_replacement(d: &DecoderWrapper) -> (r: String)
    ensures
        r@ == decoder_replacement_of(*d),
{
    match d {
        DecoderWrapper::Replace(p) => format!("{:?}", p),
        _ => String::new(),
    }
}

/// The public field `stop` of a `Strip`.
#[verifier::external_body]
fn strip_stop(d: &DecoderWrapper) -> (r: usize)
    ensures
        r == strip_stop_of(*d),
{
    match d {
        DecoderWrapper::Strip(s) => s.stop,
        _ => 0,
    }
}

/// How deep sequences of parts may be nested. Those read from a file never are
/// nested deeper, as its format allows no more.
pub const NESTING: usize = 128;

/// Longest encoding that is padded to, and largest number whose multiples are. A
/// tokenizer can ask for any, and memory has to hold it.
pub const MAX_PADDING: usize = 0x10_0000;

/// Whether an expression holds `\K`, which moves the start of a match. Inside a
/// look-behind it moves it back over the match before, and cutting a text
/// there panics.
pub open spec fn moves_start(regex: Seq<char>) -> bool {
    find(regex, "\\K"@) is Some
}

/// Whether what is printed of a `Replace` shows a pattern that is a text of at least
/// one character, and no expression.
pub open spec fn replaces_text(printed: Seq<char>) -> bool {
    &&& begins(printed, "Replace { pattern: String(\""@)
    &&& !begins(printed, "Replace { pattern: String(\"\""@)
}

/// Models that answer for every text: all but a `Unigram` that samples, which panics
/// when its weights overflow.
pub open spec fn model_answers(m: tokenizers::models::ModelWrapper) -> bool {
    model_kind_of(m) == ModelKind::Unigram ==> alpha_of(m) is None
}

/// A normalizer that answers for every text, behind any other of these. `Precompiled`
/// panics on a malformed table. Where `Prepend` puts nothing in front of a text, or
/// `Replace` replaces nothing by something, a character has no place in the text any
/// more, and the next normalizer panics.
pub open spec fn normalizer_answers(
    n: tokenizers::normalizers::NormalizerWrapper,
    depth: int,
) -> bool
    decreases depth,
{
    match normalizer_kind_of(n) {
        NormalizerKind::Precompiled => false,
        NormalizerKind::Prepend => 0 < prepended_by(n).len(),
        NormalizerKind::Replace => replaces_text(replacement_of(n)),
        NormalizerKind::Sequence => 0 < depth && forall|i: int|
            0 <= i < normalizer_parts_of(n).len() ==> normalizer_answers(
                #[trigger] normalizer_parts_of(n)[i],
                depth - 1,
            ),
        _ => true,
    }
}

/// A pre-tokenizer that answers for every text. `Split` cuts at matches, which must
/// follow one another, and `FixedLength` cannot make pieces of no characters.
pub open spec fn pre_tokenizer_answers(
    p: tokenizers::pre_tokenizers::PreTokenizerWrapper,
    depth: int,
) -> bool
    decreases depth,
{
    match pre_tokenizer_kind_of(p) {
        PreTokenizerKind::Split => !moves_start(split_regex_of(p)),
        PreTokenizerKind::FixedLength => 0 < fixed_length_of(p),
        PreTokenizerKind::Sequence => 0 < depth && forall|i: int|
            0 <= i < pre_tokenizer_parts_of(p).len() ==> pre_tokenizer_answers(
                #[trigger] pre_tokenizer_parts_of(p)[i],
                depth - 1,
            ),
        _ => true,
    }
}

/// A single post-processor that answers for every encoding of one text. A template
/// must not ask for a second one.
pub open spec fn processor_answers(p: tokenizers::processors::PostProcessorWrapper) -> bool {
    match post_processor_kind_of(p) {
        PostProcessorKind::Template => find(template_of(p), "id: B"@) is None,
        PostProcessorKind::Sequence => false,
        _ => true,
    }
}

/// A post-processor that answers for every encoding of one text, or a sequence of
/// such with at most one template, which may leave more than one encoding behind.
pub open spec fn post_processor_answers(
    p: tokenizers::processors::PostProcessorWrapper,
) -> bool {
    let parts = post_processor_parts_of(p);
    if post_processor_kind_of(p) == PostProcessorKind::Sequence {
        &&& forall|i: int| 0 <= i < parts.len() ==> processor_answers(#[trigger] parts[i])
        &&& forall|i: int, j: int|
            0 <= i < j < parts.len() && post_processor_kind_of(#[trigger] parts[i])
                == PostProcessorKind::Template ==> post_processor_kind_of(#[trigger] parts[j])
                != PostProcessorKind::Template
    } else {
        processor_answers(p)
    }
}

/// A decoder that answers for every list of tokens. `BPE` subtracts one from the
/// number of tokens, which may be none, `Strip` indexes past the start of a token that
/// is shorter than what it takes off the end, and `Replace` cuts a token at matches,
/// which must follow one another.
pub open spec fn decoder_answers(d: tokenizers::decoders::DecoderWrapper, depth: int) -> bool
    decreases depth,
{
    match decoder_kind_of(d) {
        DecoderKind::Bpe => false,
        DecoderKind::Strip => strip_stop_of(d) == 0,
        DecoderKind::Replace => replaces_text(decoder_replacement_of(d)) || !moves_start(
            decoder_replacement_of(d),
        ),
        DecoderKind::Sequence => 0 < depth && forall|i: int|
            0 <= i < decoder_parts_of(d).len() ==> decoder_answers(
                #[trigger] decoder_parts_of(d)[i],
                depth - 1,
            ),
        _ => true,
    }
}

/// Added tokens that never overlap backwards: none takes in the white space on its
/// left alone where another takes in the white space on its right.
pub open spec fn strips_apart(flags: Set<(bool, bool)>) -> bool {
    flags.contains((true, false)) ==> !flags.contains((true, true)) && !flags.contains(
        (false, true),
    )
}

/// A length that an encoding can be padded to, or to a multiple of.
pub open spec fn paddable(length: Option<usize>) -> bool {
    length matches Some(n) ==> n <= MAX_PADDING
}

/// Whether an encoding can be cut and padded as the tokenizer says: into pieces that
/// overlap by less than their length, and to a length that can be held.
pub open spec fn lengths_fit(t: tokenizers::Tokenizer) -> bool {
    &&& truncation_of(t) matches Some((max_length, stride)) ==> max_length == 0 || stride
        < max_length
    &&& padding_of(t) matches Some((fixed, multiple)) ==> paddable(fixed) && paddable(multiple)
}

/// A tokenizer put together of parts that answer for every input.
pub open spec fn usable(t: tokenizers::Tokenizer) -> bool {
    &&& lengths_fit(t)
    &&& strips_apart(added_strips_of(t))
    &&& model_answers(model_of(t))
    &&& normalizer_of(t) is Some ==> normalizer_answers(normalizer_of(t)->0, NESTING as int)
    &&& pre_tokenizer_of(t) is Some ==> pre_tokenizer_answers(
        pre_tokenizer_of(t)->0,
        NESTING as int,
    )
    &&& post_processor_of(t) is Some ==> post_processor_answers(post_processor_of(t)->0)
    &&& decoder_of(t) is Some ==> decoder_answers(decoder_of(t)->0, NESTING as int)
}

/// Whether the model of a tokenizer drops merges at random.
pub open spec fn samples(t: tokenizers::Tokenizer) -> bool {
    model_kind_of(model_of(t)) == ModelKind::Bpe && dropout_of(model_of(t)) is Some
}

/// `Tokenizer::encode` without special tokens, its ids taken with `get_ids`.
/// For one tokenizer and one text the ids are the same in every call, as long
/// as the model does not drop merges at random.
#[verifier::external_body]
fn encode_ids(t: &Tokenizer, text: &str) -> (r: Result<Vec<u32>, String>)
    requires
        usable(*t),
    ensures
        samples(*t) || view_encoding(r) == encoding(*t, text@),
{
    match t.encode(text, false) {
        Ok(enc) => Ok(enc.get_ids().to_vec()),
        Err(e) => Err(e.to_string()),
    }
}

/// `Tokenizer::decode`. The text depends on the tokenizer, the ids and the flag
/// alone: ids become tokens, special tokens are left out where asked, and the
/// decoder joins them.
#[verifier::external_body]
fn decode_ids(t: &Tokenizer, ids: &[u32], skip_special: bool) -> (r: Result<String, String>)
    requires
        usable(*t),
    ensures
        view_decoding(r) == decoding(*t, ids@, skip_special),
{
    t.decode(ids, skip_special).map_err(|e| e.to_string())
}

/// Value of an encoding result.
pub open spec fn view_encoding(r: Result<Vec<u32>, String>) -> Result<Seq<u32>, Seq<char>> {
    match r {
        Ok(ids) => Ok(ids@),
        Err(e) => Err(e@),
    }
}

/// Value of a decoding result.
pub open spec fn view_decoding(r: Result<String, String>) -> Result<Seq<char>, Seq<char>> {
    match r {
        Ok(text) => Ok(text@),
        Err(e) => Err(e@),
    }
}

/// Whether `r` can come out of encoding `text`: the one result where the model
/// does not sample, any where it does.
pub open spec fn encoded(
    t: tokenizers::Tokenizer,
    text: Seq<char>,
    r: Result<Seq<u32>, Seq<char>>,
) -> bool {
    samples(t) || r == encoding(t, text)
}

fn shows(text: &str, part: &str) -> (r: bool)
    ensures
        r == (find(text@, part@) is Some),
{
    let (chars, pattern) = (to_chars(text), to_chars(part));
    assert(chars@.skip(0) =~= chars@);
    find_from(chars.as_slice(), 0, pattern.as_slice()).is_some()
}

fn opens_with(text: &str, part: &str) -> (r: bool)
    ensures
        r == begins(text@, part@),
{
    let (chars, pattern) = (to_chars(text), to_chars(part));
    assert(chars@.skip(0) =~= chars@);
    begins_at(chars.as_slice(), 0, pattern.as_slice())
}

fn shows_replaced_text(printed: &str) -> (r: bool)
    ensures
        r == replaces_text(printed@),
{
    opens_with(printed, "Replace { pattern: String(\"") && !opens_with(
        printed,
        "Replace { pattern: String(\"\"",
    )
}

fn carries(flags: &[(bool, bool)], flag: (bool, bool)) -> (r: bool)
    ensures
        r == flags@.to_set().contains(flag),
{
    let mut i: usize = 0;
    while i < flags.len()
        invariant
            i <= flags@.len(),
            forall|k: int| 0 <= k < i ==> #[trigger] flags@[k] != flag,
        decreases flags@.len() - i,
    {
        if flags[i].0 == flag.0 && flags[i].1 == flag.1 {
            assert(flags@[i as int] == flag);
            return true;
        }
        i += 1;
    }
    false
}

fn normalizer_is_total(n: &NormalizerWrapper, depth: usize) -> (r: bool)
    ensures
        r == normalizer_answers(*n, depth as int),
    decreases depth,
{
    match normalizer_kind(n) {
        NormalizerKind::Precompiled => false,
        NormalizerKind::Prepend => to_chars(prepended(n)).len() > 0,
        NormalizerKind::Replace => shows_replaced_text(replacement(n).as_str()),
        NormalizerKind::Sequence => {
            if depth == 0 {
                return false;
            }
            let parts = normalizer_parts(n);
            let mut i: usize = 0;
            while i < parts.len()
                invariant
                    i <= parts@.len(),
                    0 < depth,
                    parts@ == normalizer_parts_of(*n),
                    normalizer_kind_of(*n) == NormalizerKind::Sequence,
                    forall|k: int|
                        0 <= k < i ==> normalizer_answers(
                            #[trigger] normalizer_parts_of(*n)[k],
                            depth - 1,
                        ),
                decreases parts@.len() - i,
            {
                if !normalizer_is_total(&parts[i], depth - 1) {
                    assert(!normalizer_answers(normalizer_parts_of(*n)[i as int], depth - 1));
                    return false;
                }
                i += 1;
            }
            true
        },
        _ => true,
    }
}

fn pre_tokenizer_is_total(p: &PreTokenizerWrapper, depth: usize) -> (r: bool)
    ensures
        r == pre_tokenizer_answers(*p, depth as int),
    decreases depth,
{
    match pre_tokenizer_kind(p) {
        PreTokenizerKind::Split => !shows(split_regex(p).as_str(), "\\K"),
        PreTokenizerKind::FixedLength => fixed_length(p) > 0,
        PreTokenizerKind::Sequence => {
            if depth == 0 {
                return false;
            }
            let parts = pre_tokenizer_parts(p);
            let mut i: usize = 0;
            while i < parts.len()
                invariant
                    i <= parts@.len(),
                    0 < depth,
                    parts@ == pre_tokenizer_parts_of(*p),
                    pre_tokenizer_kind_of(*p) == PreTokenizerKind::Sequence,
                    forall|k: int|
                        0 <= k < i ==> pre_tokenizer_answers(
                            #[trigger] pre_tokenizer_parts_of(*p)[k],
                            depth - 1,
                        ),
                decreases parts@.len() - i,
            {
                if !pre_tokenizer_is_total(&parts[i], depth - 1) {
                    assert(!pre_tokenizer_answers(
                        pre_tokenizer_parts_of(*p)[i as int],
                        depth - 1,
                    ));
                    return false;
                }
                i += 1;
            }
            true
        },
        _ => true,
    }
}

fn processor_is_total(p: &PostProcessorWrapper) -> (r: bool)
    ensures
        r == processor_answers(*p),
{
    match post_processor_kind(p) {
        PostProcessorKind::Template => !shows(template(p).as_str(), "id: B"),
        PostProcessorKind::Sequence => false,
        _ => true,
    }
}

fn post_processor_is_total(p: &PostProcessorWrapper) -> (r: bool)
    ensures
        r == post_processor_answers(*p),
{
    if post_processor_kind(p) != PostProcessorKind::Sequence {
        return processor_is_total(p);
    }
    let parts = post_processor_parts(p);
    let ghost all = post_processor_parts_of(*p);
    let mut first: Option<usize> = None;
    let mut i: usize = 0;
    while i < parts.len()
        invariant
            i <= parts@.len(),
            parts@ == all,
            all == post_processor_parts_of(*p),
            post_processor_kind_of(*p) == PostProcessorKind::Sequence,
            forall|k: int| 0 <= k < i ==> processor_answers(#[trigger] all[k]),
            first matches Some(f) ==> f < i && post_processor_kind_of(all[f as int])
                == PostProcessorKind::Template,
            forall|k: int|
                0 <= k < i && post_processor_kind_of(#[trigger] all[k])
                    == PostProcessorKind::Template ==> first == Some(k as usize),
        decreases parts@.len() - i,
    {
        if !processor_is_total(&parts[i]) {
            assert(!processor_answers(all[i as int]));
            return false;
        }
        if post_processor_kind(&parts[i]) == PostProcessorKind::Template {
            if let Some(f) = first {
                assert(post_processor_kind_of(all[f as int]) == PostProcessorKind::Template);
                assert(post_processor_kind_of(all[i as int]) == PostProcessorKind::Template);
                return false;
            }
            first = Some(i);
        }
        i += 1;
    }
    true
}

fn decoder_is_total(d: &DecoderWrapper, depth: usize) -> (r: bool)
    ensures
        r == decoder_answers(*d, depth as int),
    decreases depth,
{
    match decoder_kind(d) {
        DecoderKind::Bpe => false,
        DecoderKind::Strip => strip_stop(d) == 0,
        DecoderKind::Replace => {
            let printed = decoder_replacement(d);
            shows_replaced_text(printed.as_str()) || !shows(printed.as_str(), "\\K")
        },
        DecoderKind::Sequence => {
            if depth == 0 {
                return false;
            }
            let parts = decoder_parts(d);
            let mut i: usize = 0;
            while i < parts.len()
                invariant
                    i <= parts@.len(),
                    0 < depth,
                    parts@ == decoder_parts_of(*d),
                    decoder_kind_of(*d) == DecoderKind::Sequence,
                    forall|k: int|
                        0 <= k < i ==> decoder_answers(
                            #[trigger] decoder_parts_of(*d)[k],
                            depth - 1,
                        ),
                decreases parts@.len() - i,
            {
                if !decoder_is_total(&parts[i], depth - 1) {
                    assert(!decoder_answers(decoder_parts_of(*d)[i as int], depth - 1));
                    return false;
                }
                i += 1;
            }
            true
        },
        _ => true,
    }
}

fn has_paddable(length: Option<usize>) -> (r: bool)
    ensures
        r == paddable(length),
{
    match length {
        Some(n) => n <= MAX_PADDING,
        None => true,
    }
}

fn has_fitting_lengths(t: &Tokenizer) -> (r: bool)
    ensures
        r == lengths_fit(*t),
{
    if let Some((max_length, stride)) = truncation(t) {
        if max_length != 0 && stride >= max_length {
            return false;
        }
    }
    match padding(t) {
        None => true,
        Some((fixed, multiple)) => has_paddable(fixed) && has_paddable(multiple),
    }
}

fn is_usable(t: &Tokenizer) -> (r: bool)
    ensures
        r == usable(*t),
{
    if !has_fitting_lengths(t) {
        return false;
    }
    let flags = added_strips(t);
    if carries(flags.as_slice(), (true, false)) && (carries(flags.as_slice(), (true, true))
        || carries(flags.as_slice(), (false, true))) {
        return false;
    }
    let m = model(t);
    if model_kind(m) == ModelKind::Unigram && alpha(m).is_some() {
        return false;
    }
    if let Some(n) = normalizer(t) {
        if !normalizer_is_total(n, NESTING) {
            return false;
        }
    }
    if let Some(p) = pre_tokenizer(t) {
        if !pre_tokenizer_is_total(p, NESTING) {
            return false;
        }
    }
    if let Some(p) = post_processor(t) {
        if !post_processor_is_total(p) {
            return false;
        }
    }
    if let Some(d) = decoder(t) {
        if !decoder_is_total(d, NESTING) {
            return false;
        }
    }
    true
}

/// A tokenizer put together of parts that answer for every input.
pub struct AsrTokenizer {
    inner: Tokenizer,
}

impl View for AsrTokenizer {
    type V = tokenizers::Tokenizer;

    closed spec fn view(&self) -> tokenizers::Tokenizer {
        self.inner
    }
}

impl AsrTokenizer {
    #[verifier::type_invariant]
    spec fn inv(self) -> bool {
        usable(self.inner)
    }

    /// Takes a tokenizer none of whose parts can panic on a text or a list of tokens.
    pub fn new(inner: Tokenizer) -> (r: Self)
        requires
            usable(inner),
        ensures
            r@ == inner,
    {
        AsrTokenizer { inner }
    }

    /// Takes a tokenizer, or hands it back where a part of it can panic on some text or
    /// list of tokens.
    pub fn checked(inner: Tokenizer) -> (r: Result<Self, Tokenizer>)
        ensures
            r is Ok <==> usable(inner),
            r is Ok ==> r->Ok_0@ == inner,
            r is Err ==> r->Err_0 == inner,
    {
        if is_usable(&inner) {
            Ok(Self::new(inner))
        } else {
            Err(inner)
        }
    }

    /// Whether encoding the same text twice may give different ids.
    pub fn samples(&self) -> (r: bool)
        ensures
            r == samples(self@),
    {
        let m = model(&self.inner);
        model_kind(m) == ModelKind::Bpe && dropout(m).is_some()
    }

    /// Encodes a text without special tokens.
    pub fn encode(&self, text: &str) -> (r: Result<Vec<u32>, String>)
        ensures
            encoded(self@, text@, view_encoding(r)),
    {
        proof {
            use_type_invariant(self);
        }
        encode_ids(&self.inner, text)
    }

    /// Decodes ids, leaving special tokens out where asked.
    pub fn decode(&self, ids: &[u32], skip_special: bool) -> (r: Result<String, String>)
        ensures
            view_decoding(r) == decoding(self@, ids@, skip_special),
    {
        proof {
            use_type_invariant(self);
        }
        decode_ids(&self.inner, ids, skip_special)
    }
}

} // verus!

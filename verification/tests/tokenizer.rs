use qwen3_asr::generate::{begin_generation, AudioTokenIds, GenerateError};
use qwen3_asr::inference::TokenStream;
use qwen3_asr::prompt::{assemble_prompt, build_prompt, decode_result, PromptError};
use qwen3_asr::tokenizer::AsrTokenizer;
use tokenizers::Tokenizer;

const SPLIT: &str =
    r#"{"type":"Split","pattern":{"Regex":"\\s+"},"behavior":"Removed","invert":false}"#;
const MODEL: &str = r#"{"type":"WordLevel","vocab":{"[UNK]":0,"language":1,"English":2,"hello":3,
    "world":4,"prefix":5},"unk_token":"[UNK]"}"#;

fn parts(added: &str, normalizer: &str, pre: &str, post: &str, decoder: &str, model: &str) -> String {
    format!(
        r#"{{"version":"1.0","truncation":null,"padding":null,"added_tokens":{added},
        "normalizer":{normalizer},"pre_tokenizer":{pre},"post_processor":{post},
        "decoder":{decoder},"model":{model}}}"#
    )
}

fn json(decoder: &str) -> String {
    parts("[]", "null", SPLIT, "null", decoder, MODEL)
}

fn read(text: &str) -> Tokenizer {
    Tokenizer::from_bytes(text.as_bytes()).unwrap()
}

fn refused(text: &str) -> bool {
    AsrTokenizer::checked(read(text)).is_err()
}

fn raw_tokenizer() -> Tokenizer {
    read(&json("null"))
}

fn tokenizer() -> AsrTokenizer {
    AsrTokenizer::checked(raw_tokenizer()).ok().unwrap()
}

fn without_unknown() -> AsrTokenizer {
    let text = json("null").replace(r#""unk_token":"[UNK]""#, r#""unk_token":"missing""#);
    AsrTokenizer::checked(read(&text)).ok().unwrap()
}

const HEAD: [i64; 9] = [151644, 8948, 198, 151645, 198, 151644, 872, 198, 900];
const TURN: [i64; 6] = [902, 151645, 198, 151644, 77091, 198];

fn prompt(n_audio: usize, behind: &[i64]) -> Vec<i64> {
    let mut all = HEAD.to_vec();
    all.extend(std::iter::repeat(901).take(n_audio));
    all.extend_from_slice(&TURN);
    all.extend_from_slice(behind);
    all
}

#[test]
fn encodes_and_decodes_like_the_crate() {
    let t = tokenizer();
    assert!(!t.samples());
    assert_eq!(t.encode("hello world").unwrap(), vec![3, 4]);
    assert_eq!(t.decode(&[4, 3], true).unwrap(), "world hello");
    assert_eq!(t.decode(&[], true).unwrap(), "");
}

fn accepted(text: &str) -> AsrTokenizer {
    AsrTokenizer::checked(read(text)).ok().unwrap()
}

fn nested(kind: &str, list: &str, part: &str, depth: usize) -> String {
    let mut text = part.to_string();
    for _ in 0..depth {
        text = format!(r#"{{"type":"{kind}","{list}":[{text}]}}"#);
    }
    text
}

#[test]
fn decoders_that_cannot_answer_are_refused() {
    assert!(refused(&json(r#"{"type":"Strip","content":" ","start":0,"stop":1}"#)));
    assert!(refused(&json(r#"{"type":"BPEDecoder","suffix":"</w>"}"#)));
    assert!(refused(&json(
        r#"{"type":"Replace","pattern":{"Regex":"(?<=\\Kb)c|b"},"content":"b"}"#,
    )));
    assert!(refused(&json(
        r#"{"type":"Sequence","decoders":[{"type":"Strip","content":" ","start":1,"stop":2}]}"#,
    )));
}

#[test]
fn decoders_that_answer_are_accepted() {
    let t = accepted(&json(r#"{"type":"Strip","content":"h","start":1,"stop":0}"#));
    assert_eq!(t.decode(&[3, 4], true).unwrap(), "elloworld");
    let t = accepted(&json(r#"{"type":"Replace","pattern":{"String":"o"},"content":"0"}"#));
    assert_eq!(t.decode(&[3, 4], true).unwrap(), "hell0w0rld");
    let t = accepted(&json(r#"{"type":"Replace","pattern":{"Regex":"l+"},"content":"L"}"#));
    assert_eq!(t.decode(&[3, 4], true).unwrap(), "heLoworLd");
    for depth in 0..4 {
        let t = accepted(&json(&nested("Sequence", "decoders", r#"{"type":"Fuse"}"#, depth)));
        assert_eq!(t.decode(&[3, 4], true).unwrap(), "helloworld");
    }
}

#[test]
fn encodings_may_be_cut() {
    let cut = |max_length: usize, stride: usize| {
        read(&json("null").replace(
            r#""truncation":null"#,
            &format!(
                r#""truncation":{{"direction":"Right","max_length":{max_length},
                "strategy":"LongestFirst","stride":{stride}}}"#
            ),
        ))
    };
    let t = AsrTokenizer::checked(cut(2, 1)).ok().unwrap();
    assert_eq!(t.encode("hello world prefix hello").unwrap(), vec![3, 4]);
    let t = AsrTokenizer::checked(cut(0, 0)).ok().unwrap();
    assert_eq!(t.encode("hello world").unwrap(), Vec::<u32>::new());
    assert!(AsrTokenizer::checked(cut(2, 2)).is_err());
}

#[test]
fn encodings_may_be_padded() {
    let padded = |strategy, multiple| {
        let mut t = raw_tokenizer();
        t.with_padding(Some(tokenizers::PaddingParams {
            strategy,
            pad_to_multiple_of: multiple,
            ..Default::default()
        }));
        AsrTokenizer::checked(t)
    };
    let t = padded(tokenizers::PaddingStrategy::BatchLongest, None).ok().unwrap();
    assert_eq!(t.encode("hello world").unwrap(), vec![3, 4]);
    for (strategy, multiple, length) in [
        (tokenizers::PaddingStrategy::BatchLongest, Some(8), 8),
        (tokenizers::PaddingStrategy::BatchLongest, Some(2), 2),
        (tokenizers::PaddingStrategy::BatchLongest, Some(0), 2),
        (tokenizers::PaddingStrategy::Fixed(5), None, 5),
        (tokenizers::PaddingStrategy::Fixed(1), None, 2),
        (tokenizers::PaddingStrategy::Fixed(5), Some(4), 8),
    ] {
        let mut expected = vec![3, 4];
        expected.resize(length, 0);
        let t = padded(strategy, multiple).ok().unwrap();
        assert_eq!(t.encode("hello world").unwrap(), expected);
    }
    let longest = qwen3_asr::tokenizer::MAX_PADDING;
    assert!(padded(tokenizers::PaddingStrategy::Fixed(longest), None).is_ok());
    assert!(padded(tokenizers::PaddingStrategy::Fixed(longest + 1), None).is_err());
    assert!(padded(tokenizers::PaddingStrategy::BatchLongest, Some(longest + 1)).is_err());
}

#[test]
fn added_tokens_do_not_overlap_backwards() {
    let token = |id: usize, content: &str, lstrip: bool, rstrip: bool| {
        format!(
            r#"{{"id":{id},"content":"{content}","single_word":false,"lstrip":{lstrip},
            "rstrip":{rstrip},"normalized":false,"special":true}}"#
        )
    };
    let with = |a: (bool, bool), b: (bool, bool)| {
        let added = format!("[{},{}]", token(1, "language", a.0, a.1), token(2, "English", b.0, b.1));
        read(&parts(&added, "null", SPLIT, "null", "null", MODEL))
    };
    for a in [(true, true), (false, true)] {
        assert!(AsrTokenizer::checked(with(a, (true, false))).is_err());
        assert!(AsrTokenizer::checked(with((true, false), a)).is_err());
    }
    for (a, b) in [
        ((false, false), (true, false)),
        ((true, false), (true, false)),
        ((true, true), (false, true)),
        ((true, true), (true, true)),
        ((false, true), (false, false)),
    ] {
        let t = AsrTokenizer::checked(with(a, b)).ok().unwrap();
        assert_eq!(t.encode("hello language English world").unwrap(), vec![3, 1, 2, 4]);
        assert_eq!(t.decode(&[1, 3], true).unwrap(), "hello");
        assert_eq!(t.decode(&[1, 3], false).unwrap(), "language hello");
    }
}

#[test]
fn normalizers_that_may_fail_are_refused() {
    let with = |n: &str| parts("[]", n, SPLIT, "null", "null", MODEL);
    assert!(refused(&with(r#"{"type":"Prepend","prepend":""}"#)));
    assert!(refused(&with(r#"{"type":"Replace","pattern":{"String":""},"content":"x"}"#)));
    assert!(refused(&with(r#"{"type":"Replace","pattern":{"Regex":"^"},"content":"x"}"#)));
    assert!(refused(&with(
        r#"{"type":"Sequence","normalizers":[{"type":"NFC"},{"type":"Prepend","prepend":""}]}"#,
    )));
}

const NORMALIZERS: [&str; 13] = [
    r#"{"type":"BertNormalizer","clean_text":true,"handle_chinese_chars":true,"strip_accents":null,"lowercase":true}"#,
    r#"{"type":"Strip","strip_left":true,"strip_right":true}"#,
    r#"{"type":"StripAccents"}"#,
    r#"{"type":"NFC"}"#,
    r#"{"type":"NFD"}"#,
    r#"{"type":"NFKC"}"#,
    r#"{"type":"NFKD"}"#,
    r#"{"type":"Lowercase"}"#,
    r#"{"type":"Nmt"}"#,
    r#"{"type":"Replace","pattern":{"String":"\""},"content":""}"#,
    r#"{"type":"Replace","pattern":{"String":" "},"content":" _"}"#,
    r#"{"type":"Prepend","prepend":"__"}"#,
    r#"{"type":"ByteLevel"}"#,
];

const TEXTS: [&str; 9] = [
    "",
    " ",
    "\u{200b}\u{1}",
    "\u{344}\u{323}a\u{315}\u{300}",
    "\u{fb01}\u{130} \u{4f60}\u{597d}\u{2126}",
    " \"\" hello\t\u{fdfa}\u{e49}\u{e33} ",
    "\u{1e9b}\u{323}\u{ac00}\u{11a8}",
    "HELLO  World\u{a0}\u{3000}12",
    "\u{f73}\u{f71}\u{1f600}\u{301}",
];

#[test]
fn normalizers_answer_behind_one_another() {
    let bytes =
        r#"{"type":"ByteLevel","add_prefix_space":true,"trim_offsets":true,"use_regex":true}"#;
    for a in NORMALIZERS {
        for b in NORMALIZERS {
            let both = format!(
                r#"{{"type":"Sequence","normalizers":[{a},{}]}}"#,
                nested("Sequence", "normalizers", b, 1)
            );
            let t = accepted(&parts("[]", &both, bytes, bytes, "null", MODEL));
            for text in TEXTS {
                assert!(t.encode(text).is_ok());
            }
        }
    }
    let t = accepted(&parts("[]", NORMALIZERS[7], SPLIT, "null", "null", MODEL));
    assert_eq!(t.encode("HELLO World").unwrap(), vec![3, 4]);
    let t = accepted(&parts("[]", NORMALIZERS[11], "null", "null", "null", MODEL));
    assert_eq!(t.encode("hello").unwrap(), vec![0]);
}

#[test]
fn pre_tokenizers_that_may_fail_are_refused() {
    let with = |p: &str| parts("[]", "null", p, "null", "null", MODEL);
    assert!(refused(&with(r#"{"type":"FixedLength","length":0}"#)));
    let moved = SPLIT.replace(r"\\s+", r"(?<=\\Kb)c|b");
    assert!(refused(&with(&moved)));
    assert!(refused(&with(&nested("Sequence", "pretokenizers", &moved, 2))));
    assert!(!refused(&with("null")));
}

#[test]
fn pre_tokenizers_answer_behind_one_another() {
    let all = [
        r#"{"type":"BertPreTokenizer"}"#,
        r#"{"type":"ByteLevel","add_prefix_space":true,"trim_offsets":true,"use_regex":true}"#,
        r#"{"type":"CharDelimiterSplit","delimiter":"l"}"#,
        r#"{"type":"Metaspace","replacement":"_","prepend_scheme":"always","split":true}"#,
        r#"{"type":"Whitespace"}"#,
        SPLIT,
        r#"{"type":"Punctuation","behavior":"MergedWithNext"}"#,
        r#"{"type":"WhitespaceSplit"}"#,
        r#"{"type":"Digits","individual_digits":false}"#,
        r#"{"type":"UnicodeScripts"}"#,
        r#"{"type":"FixedLength","length":2}"#,
    ];
    for a in all {
        for b in all {
            let both = format!(
                r#"{{"type":"Sequence","pretokenizers":[{a},{}]}}"#,
                nested("Sequence", "pretokenizers", b, 1)
            );
            let t = accepted(&parts("[]", NORMALIZERS[5], &both, "null", "null", MODEL));
            for text in TEXTS {
                assert!(t.encode(text).is_ok());
            }
        }
    }
    let t = accepted(&parts("[]", "null", all[7], "null", "null", MODEL));
    assert_eq!(t.encode("hello  world").unwrap(), vec![3, 4]);
    let t = accepted(&parts("[]", "null", r#"{"type":"FixedLength","length":5}"#, "null", "null", MODEL));
    assert_eq!(t.encode("helloworld").unwrap(), vec![3, 4]);
}

fn template(single: &str) -> String {
    format!(
        r#"{{"type":"TemplateProcessing","single":[{single}],
        "pair":[{{"Sequence":{{"id":"A","type_id":0}}}},{{"Sequence":{{"id":"B","type_id":0}}}}],
        "special_tokens":{{"[B]":{{"id":"[B]","ids":[5],"tokens":["[B]"]}}}}}}"#
    )
}

#[test]
fn post_processors_that_may_fail_are_refused() {
    let with = |p: &str| parts("[]", "null", SPLIT, p, "null", MODEL);
    let first = template(r#"{"Sequence":{"id":"A","type_id":0}}"#);
    let second = template(r#"{"Sequence":{"id":"B","type_id":0}}"#);
    assert!(refused(&with(&second)));
    assert!(refused(&with(&nested("Sequence", "processors", &second, 1))));
    assert!(refused(&with(&format!(
        r#"{{"type":"Sequence","processors":[{first},{first}]}}"#
    ))));
}

#[test]
fn post_processors_that_answer_are_accepted() {
    let with = |p: &str| parts("[]", "null", SPLIT, p, "null", MODEL);
    let bytes = r#"{"type":"ByteLevel","add_prefix_space":false,"trim_offsets":true,"use_regex":false}"#;
    let bert = r#"{"type":"BertProcessing","sep":["[SEP]",1],"cls":["[CLS]",2]}"#;
    let roberta = r#"{"type":"RobertaProcessing","sep":["[SEP]",1],"cls":["[CLS]",2],
        "trim_offsets":true,"add_prefix_space":true}"#;
    let framed = template(
        r#"{"SpecialToken":{"id":"[B]","type_id":0}},{"Sequence":{"id":"A","type_id":0}}"#,
    );
    let all = format!(r#"{{"type":"Sequence","processors":[{bytes},{framed},{roberta},{bert}]}}"#);
    for p in [bytes, bert, roberta, framed.as_str(), all.as_str()] {
        let t = accepted(&with(p));
        assert_eq!(t.encode("hello world").unwrap(), vec![3, 4]);
        assert_eq!(t.encode("").unwrap(), Vec::<u32>::new());
    }
    let piece = r#"{"Sequence":{"id":"A","type_id":0}}"#;
    let t = accepted(&with(&template(&format!("{piece},{piece}"))));
    assert_eq!(t.encode("hello world").unwrap(), vec![3, 4, 3, 4]);
}

#[test]
fn unigram_models_that_sample_are_refused() {
    let model = r#"{"type":"Unigram","unk_id":0,"vocab":[["[UNK]",0.0],["a",-1.0],["ab",-1.5]],"byte_fallback":false}"#;
    let text = parts("[]", "null", "null", "null", "null", model);
    let t = accepted(&text);
    assert!(!t.samples());
    assert_eq!(t.encode("aab?").unwrap(), vec![1, 2, 0]);
    let mut sampling = read(&text);
    let mut unigram = tokenizers::models::unigram::Unigram::from(
        vec![("[UNK]".to_string(), 0.0), ("a".to_string(), -1.0)],
        Some(0),
        false,
    )
    .unwrap();
    unigram.alpha = Some(0.5);
    sampling.with_model(unigram);
    assert!(AsrTokenizer::checked(sampling).is_err());
}

#[test]
fn a_byte_level_tokenizer_answers() {
    let bytes = r#"{"type":"ByteLevel","add_prefix_space":false,"trim_offsets":false,"use_regex":false}"#;
    let pre = format!(
        r#"{{"type":"Sequence","pretokenizers":[{{"type":"Split","pattern":{{"Regex":" ?\\p{{L}}+"}},
        "behavior":"Isolated","invert":false}},{bytes}]}}"#
    );
    let model = r#"{"type":"BPE","dropout":null,"unk_token":null,"continuing_subword_prefix":null,
        "end_of_word_suffix":null,"fuse_unk":false,"byte_fallback":false,"ignore_merges":false,
        "vocab":{"h":0,"i":1,"hi":2,"\u0120":3,"\u0120hi":4},"merges":[["h","i"],["\u0120","hi"]]}"#;
    let text = parts("[]", r#"{"type":"NFC"}"#, &pre, bytes, bytes, model);
    let t = AsrTokenizer::checked(read(&text)).ok().unwrap();
    assert!(!t.samples());
    assert_eq!(t.encode("hi hi").unwrap(), vec![2, 4]);
    assert_eq!(t.decode(&[2, 4], true).unwrap(), "hi hi");
    assert_eq!(t.encode("").unwrap(), Vec::<u32>::new());
}

#[test]
fn dropout_is_seen() {
    let text = r#"{"version":"1.0","truncation":null,"padding":null,"added_tokens":[],
        "normalizer":null,"pre_tokenizer":null,"post_processor":null,"decoder":null,
        "model":{"type":"BPE","dropout":0.5,"unk_token":null,"continuing_subword_prefix":null,
        "end_of_word_suffix":null,"fuse_unk":false,"byte_fallback":false,"ignore_merges":false,
        "vocab":{"a":0,"b":1,"ab":2},"merges":[["a","b"]]}}"#;
    let t = AsrTokenizer::checked(Tokenizer::from_bytes(text.as_bytes()).unwrap()).ok().unwrap();
    assert!(t.samples());
    let ids = t.encode("ab").unwrap();
    assert!(ids == vec![2] || ids == vec![0, 1]);
}

#[test]
fn prompt_without_language() {
    let (tokens, at) = build_prompt(&tokenizer(), 900, 901, 902, 3, None, None).ok().unwrap();
    assert_eq!(tokens, prompt(3, &[]));
    assert_eq!(at, 9);
}

#[test]
fn prompt_with_language_and_prefix() {
    let (tokens, at) =
        build_prompt(&tokenizer(), 900, 901, 902, 2, Some("english"), Some("prefix")).ok().unwrap();
    assert_eq!(tokens, prompt(2, &[1, 2, 5]));
    assert_eq!(at, 9);
    let (tokens, _) = build_prompt(&tokenizer(), 900, 901, 902, 2, None, Some("")).ok().unwrap();
    assert_eq!(tokens, prompt(2, &[]));
}

#[test]
fn prompt_out_of_given_ids() {
    let (tokens, at) = assemble_prompt(900, 901, 902, 1, &[7, 8], &[9]);
    assert_eq!(tokens, prompt(1, &[7, 8, 9]));
    assert_eq!(at, 9);
}

#[test]
fn prompt_errors_say_which_text_failed() {
    let t = without_unknown();
    match build_prompt(&t, 900, 901, 902, 1, Some("klingon"), None) {
        Err(e) => {
            assert!(matches!(e, PromptError::Encode(_)));
            assert!(e.message().starts_with("encode: "));
        }
        Ok(_) => panic!("the language is not in the vocabulary"),
    }
    match build_prompt(&t, 900, 901, 902, 1, Some("english"), Some("klingon")) {
        Err(e) => {
            assert!(matches!(e, PromptError::EncodePrefix(_)));
            assert!(e.message().starts_with("encode prefix: "));
        }
        Ok(_) => panic!("the prefix is not in the vocabulary"),
    }
}

#[test]
fn error_messages() {
    assert_eq!(PromptError::Decode("x".to_string()).message(), "decode: x");
    assert_eq!(PromptError::DecodeLang("x".to_string()).message(), "decode lang: x");
    assert_eq!(PromptError::DecodeText("x".to_string()).message(), "decode text: x");
}

#[test]
fn result_around_the_separator_token() {
    let r = decode_result(&tokenizer(), &[1, 2, 151704, 3, 4], None).ok().unwrap();
    assert_eq!(r.language, "English");
    assert_eq!(r.text, "hello world");
    assert_eq!(r.raw_output, "language English hello world");
}

#[test]
fn result_without_the_separator_token() {
    let r = decode_result(&tokenizer(), &[1, 2, 3], None).ok().unwrap();
    assert_eq!((r.language.as_str(), r.text.as_str()), ("English", "hello"));
    let r = decode_result(&tokenizer(), &[3, 4], None).ok().unwrap();
    assert_eq!((r.language.as_str(), r.text.as_str()), ("unknown", "hello world"));
}

#[test]
fn result_with_a_given_language() {
    let r = decode_result(&tokenizer(), &[1, 2, 151704, 3], Some("english")).ok().unwrap();
    assert_eq!((r.language.as_str(), r.text.as_str()), ("forced", "language English hello"));
}

#[test]
fn stream_tells_the_text_so_far() {
    let t = tokenizer();
    let mut stream = TokenStream::new();
    let first = stream.on_token(&t, 3);
    assert_eq!((first.token_id, first.text_so_far.as_str()), (3, "hello"));
    let second = stream.on_token(&t, 4);
    assert_eq!((second.token_id, second.text_so_far.as_str()), (4, "hello world"));
}

#[test]
fn a_streamed_run_reports_every_token() {
    let t = tokenizer();
    let ids = [1, 2, 151704, 3, 4];
    let mut stream = TokenStream::new();
    let reports: Vec<(u32, String)> = ids
        .iter()
        .map(|&id| {
            let r = stream.on_token(&t, id);
            (r.token_id, r.text_so_far)
        })
        .collect();
    for (k, (id, text)) in reports.iter().enumerate() {
        assert_eq!(*id, ids[k]);
        assert_eq!(*text, t.decode(&ids[..=k], true).unwrap());
    }
    assert_eq!(reports[4].1, decode_result(&t, &ids, None).ok().unwrap().raw_output);
}

#[test]
fn generation_starts_from_the_prompt() {
    let ids = AudioTokenIds { start: 900, audio: 901, end: 902 };
    let plan = begin_generation(&tokenizer(), ids, 10, 4, None, None, 5).ok().unwrap();
    assert_eq!(plan.n_audio, 2);
    assert_eq!(plan.input_ids, prompt(2, &[]));
    assert_eq!(plan.before_ids, HEAD.to_vec());
    assert_eq!(plan.after_ids, TURN.to_vec());
    assert_eq!(plan.seq_len, 17);
    assert_eq!(plan.total_positions, 22);
    assert_eq!(plan.positions, (0..22).collect::<Vec<i64>>());
}

#[test]
fn generation_fails_with_the_prompt_or_beyond_all_positions() {
    let ids = AudioTokenIds { start: 900, audio: 901, end: 902 };
    let r = begin_generation(&without_unknown(), ids, 4, 4, Some("klingon"), None, 5);
    assert!(matches!(r, Err(GenerateError::Prompt(PromptError::Encode(_)))));
    let r = begin_generation(&tokenizer(), ids, 4, 4, None, None, usize::MAX);
    assert!(matches!(r, Err(GenerateError::TooLong)));
}

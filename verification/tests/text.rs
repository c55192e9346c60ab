use qwen3_asr::inference::{audio_token_count, TranscribeOptions};
use qwen3_asr::prompt::{find_separator, finish_separated, parse_asr_output, read_language};
use qwen3_asr::text::{capitalize_first, is_white, number, signed_number, trim};

#[test]
fn capitalizes_only_the_first_letter() {
    assert_eq!(capitalize_first("english"), "English");
    assert_eq!(capitalize_first("ENGLISH"), "ENGLISH");
    assert_eq!(capitalize_first(""), "");
    // one letter can become two
    assert_eq!(capitalize_first("ßa"), "SSa");
    assert_eq!(capitalize_first("中文"), "中文");
}

#[test]
fn trims_unicode_whitespace() {
    assert_eq!(trim(" \t\u{3000}a b\u{2003}\n"), "a b");
    assert_eq!(trim("  "), "");
}

#[test]
fn capitalizing_twice_changes_nothing() {
    for c in '\0'..=char::MAX {
        let once = capitalize_first(&format!("{c}x"));
        assert_eq!(capitalize_first(&once), once);
    }
    assert_eq!(capitalize_first(&capitalize_first("\u{df}e")), "SSe");
}

#[test]
fn whitespace_is_that_of_the_standard_library() {
    for c in '\0'..=char::MAX {
        assert_eq!(is_white(c), c.is_whitespace(), "{:?}", c);
    }
}

#[test]
fn writes_numbers_in_decimal() {
    assert_eq!(number(0), "0");
    assert_eq!(number(10203), "10203");
    assert_eq!(number(u64::MAX), u64::MAX.to_string());
    assert_eq!(signed_number(i32::MIN), i32::MIN.to_string());
    assert_eq!(signed_number(-7), "-7");
    assert_eq!(signed_number(70), "70");
}

#[test]
fn parses_separator_text() {
    let (lang, text) = parse_asr_output("  language English<asr_text> Hello there. ", false);
    assert_eq!((lang.as_str(), text.as_str()), ("English", "Hello there."));
}

#[test]
fn parses_language_up_to_the_first_other_character() {
    let (lang, text) = parse_asr_output("language English Hello", false);
    assert_eq!((lang.as_str(), text.as_str()), ("English", "Hello"));
    let (lang, text) = parse_asr_output("language English, Hello", false);
    assert_eq!((lang.as_str(), text.as_str()), ("English", ", Hello"));
}

#[test]
fn output_without_a_language_is_unknown() {
    for raw in ["Hello", "language English", "language ", "language 7 up", "Language English x"] {
        let (lang, text) = parse_asr_output(raw, false);
        assert_eq!((lang.as_str(), text.as_str()), ("unknown", raw.trim()));
    }
}

#[test]
fn forced_language_is_not_parsed() {
    let (lang, text) = parse_asr_output(" language English<asr_text>Hi ", true);
    assert_eq!((lang.as_str(), text.as_str()), ("forced", "language English<asr_text>Hi"));
}

#[test]
fn separated_output() {
    let r = finish_separated("raw".to_string(), "language Japanese ", " text ");
    assert_eq!((r.language.as_str(), r.text.as_str(), r.raw_output.as_str()), ("Japanese", "text", "raw"));
    assert_eq!(read_language("English"), "English");
    assert_eq!(find_separator(&[1, 151704, 151704]), Some(1));
    assert_eq!(find_separator(&[1, 2]), None);
}

#[test]
fn options_change_one_thing_each() {
    let o = TranscribeOptions::default();
    assert_eq!(o.language, None);
    assert_eq!(o.max_new_tokens, 2048);
    let o = o.with_max_new_tokens(7).with_language("english");
    assert_eq!(o.language.as_deref(), Some("english"));
    assert_eq!(o.max_new_tokens, 7);
    let o = o.with_max_new_tokens(8);
    assert_eq!(o.language.as_deref(), Some("english"));
    assert_eq!(o.max_new_tokens, 8);
}

#[test]
fn empty_recording_is_refused() {
    assert_eq!(audio_token_count(0, 4).unwrap_err(), "no audio data provided");
    assert_eq!(audio_token_count(12, 4).unwrap(), 3);
}

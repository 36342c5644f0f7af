use charabia::detection::chars_of;
use charabia::normalizer::{normalize_range, NormalizerOptions};
use charabia::segmenter::japanese::{validate_segments, JapaneseDictionaryKind, JapaneseSegmenter};
use charabia::segmenter::{dispatch, SegmenterChoice};
use charabia::{detect, Language, Script, TokenizeError, TokenizerBuilder};

#[test]
fn detect_latin_text() {
    let (sc, lg) = detect("hello there");
    assert_eq!(sc, Script::Latin);
    assert_eq!(lg, Language::Other);
}

#[test]
fn detect_japanese_text() {
    let (sc, lg) = detect("こんにちは");
    assert_eq!(sc, Script::Cj);
    assert_eq!(lg, Language::Jpn);
}

#[test]
fn detect_chinese_text() {
    // Cj characters without any kana are guessed as Chinese
    let (sc, lg) = detect("漢字");
    assert_eq!(sc, Script::Cj);
    assert_eq!(lg, Language::Cmn);
}

#[test]
fn detect_empty_text_is_other() {
    let (sc, lg) = detect("");
    assert_eq!(sc, Script::Other);
    assert_eq!(lg, Language::Other);
}

#[test]
fn detect_cyrillic_and_greek() {
    assert_eq!(detect("привет").0, Script::Cyrillic);
    assert_eq!(detect("γειά").0, Script::Greek);
}

#[test]
fn detect_is_a_majority_vote() {
    // three Latin letters against two Cyrillic ones
    assert_eq!(detect("abcде").0, Script::Latin);
    // two Latin letters against three Cyrillic ones
    assert_eq!(detect("abдез").0, Script::Cyrillic);
    // punctuation alone carries no script signal
    assert_eq!(detect("...!?").0, Script::Other);
}

#[test]
fn normalization_is_idempotent_on_a_concrete_lemma() {
    let opts = NormalizerOptions { compatibility_decomposition: true, diacritic_strip: true, case_fold: true };
    let chars = chars_of("Thé ＦＵＬＬ Ärger");
    let once = normalize_range(&chars, 0, chars.len(), &opts, Script::Latin);
    let once_chars = chars_of(once.as_str());
    let twice = normalize_range(&once_chars, 0, once_chars.len(), &opts, Script::Latin);
    assert_eq!(twice, once);
    assert_eq!(once, "the full arger");
}

#[test]
fn dispatch_is_deterministic_and_total() {
    let a = dispatch(true, Script::Cj, Language::Jpn);
    let b = dispatch(true, Script::Cj, Language::Jpn);
    assert_eq!(a, b);
    assert_eq!(a, SegmenterChoice::Japanese);
    // without a registered specialized segmenter everything is generic
    assert_eq!(dispatch(false, Script::Cj, Language::Jpn), SegmenterChoice::Generic);
    assert_eq!(dispatch(true, Script::Latin, Language::Other), SegmenterChoice::Generic);
}

#[test]
fn validate_segments_accepts_a_lossless_answer() {
    let text = "すもももももももものうち";
    let units = vec![
        "すもも".to_string(),
        "も".to_string(),
        "もも".to_string(),
        "も".to_string(),
        "もも".to_string(),
        "の".to_string(),
        "うち".to_string(),
    ];
    let accepted = validate_segments(text, units.clone()).expect("lossless units are accepted");
    assert_eq!(accepted, units);
}

#[test]
fn validate_segments_drops_empty_units() {
    let text = "ab";
    let units = vec!["".to_string(), "a".to_string(), "".to_string(), "b".to_string()];
    let accepted = validate_segments(text, units).unwrap();
    assert_eq!(accepted, vec!["a".to_string(), "b".to_string()]);
}

#[test]
fn validate_segments_rejects_a_lossy_answer() {
    assert!(validate_segments("abc", vec!["ab".to_string()]).is_none());
    assert!(validate_segments("abc", vec!["ab".to_string(), "cd".to_string()]).is_none());
    assert!(validate_segments("abc", vec!["ca".to_string(), "b".to_string()]).is_none());
}

#[test]
fn engine_configuration_follows_kind_and_override() {
    let seg = JapaneseSegmenter::new(JapaneseDictionaryKind::Ipadic, None);
    let (main, user, decompose) = seg.engine_config();
    assert_eq!(main, "embedded://ipadic");
    assert_eq!(user, None);
    assert!(decompose);
    let seg = JapaneseSegmenter::new(JapaneseDictionaryKind::Unidic, None);
    let (main, user, decompose) = seg.engine_config();
    assert_eq!(main, "embedded://unidic");
    assert_eq!(user, None);
    assert!(!decompose);
    // a user dictionary augments the embedded one, it does not replace it
    let seg = JapaneseSegmenter::new(
        JapaneseDictionaryKind::Unidic,
        Some("/tmp/user-dictionary.csv".to_string()),
    );
    let (main, user, decompose) = seg.engine_config();
    assert_eq!(main, "embedded://unidic");
    assert_eq!(user.as_deref(), Some("/tmp/user-dictionary.csv"));
    assert!(!decompose);
}

#[test]
fn build_passes_dictionary_kind_and_override_through() {
    let mut b = TokenizerBuilder::new();
    b.japanese_unidic = true;
    b.japanese_dictionary_override = Some("/tmp/user-dictionary.csv".to_string());
    let t = b.build().unwrap();
    let seg = t.japanese.as_ref().unwrap();
    let (main, user, decompose) = seg.engine_config();
    assert_eq!(main, "embedded://unidic");
    assert_eq!(user.as_deref(), Some("/tmp/user-dictionary.csv"));
    assert!(!decompose);
}

#[test]
fn tokens_from_units_yields_one_token_per_unit() {
    let t = TokenizerBuilder::new().build().unwrap();
    let text = "すもももももももものうち";
    let chars = chars_of(text);
    let units = vec![
        "すもも".to_string(),
        "も".to_string(),
        "もも".to_string(),
        "も".to_string(),
        "もも".to_string(),
        "の".to_string(),
        "うち".to_string(),
    ];
    let mut toks = Vec::new();
    let n = chars.len();
    t.tokens_from_units(&units, &chars, text, 0, n, Script::Cj, Language::Jpn, &mut toks);
    let spans: Vec<&str> = toks.iter().map(|tok| tok.original()).collect();
    assert_eq!(spans, vec!["すもも", "も", "もも", "も", "もも", "の", "うち"]);
    for tok in &toks {
        assert!(tok.is_word());
        assert_eq!(tok.script, Script::Cj);
        assert_eq!(tok.language, Language::Jpn);
    }
    let rebuilt: String = toks.iter().map(|tok| tok.original()).collect();
    assert_eq!(rebuilt, text);
}

#[test]
fn japanese_engine_without_a_dictionary_reports_initialization_failure() {
    // no dictionary is embedded in this build, so the one-time build fails
    // and the failure is reported, not swallowed and not a panic
    let seg = JapaneseSegmenter::new(JapaneseDictionaryKind::Ipadic, None);
    match seg.segment_str("すもも") {
        Err(TokenizeError::ResourceInitialization(_)) => {}
        other => panic!("expected a resource initialization error, got {:?}", other),
    }
}

#[test]
fn japanese_bad_override_path_reports_initialization_failure() {
    let seg = JapaneseSegmenter::new(
        JapaneseDictionaryKind::Unidic,
        Some("/nonexistent/user-dictionary.bin".to_string()),
    );
    match seg.segment_str("うち") {
        Err(TokenizeError::ResourceInitialization(_)) => {}
        other => panic!("expected a resource initialization error, got {:?}", other),
    }
}

#[test]
fn japanese_run_failure_surfaces_per_call_and_does_not_poison() {
    let mut b = TokenizerBuilder::new();
    b.japanese_ipadic = true;
    let t = b.build().unwrap();
    // a Japanese run needs the engine, which cannot be built here
    assert!(t.tokenize("すもも").is_err());
    // the failure poisons nothing: a generic-only call still succeeds
    let toks = t.tokenize("plum").unwrap();
    assert_eq!(toks[0].lemma(), "plum");
}

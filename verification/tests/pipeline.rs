use charabia::normalizer::NormalizerId;
use charabia::token::TokenKind;
use charabia::{segment_str, tokenize_str, Script, SeparatorKind, TokenizeError, TokenizerBuilder};

#[test]
fn simple_sentence_lemmas_and_kinds() {
    let toks = tokenize_str("The quick fox");
    let lemmas: Vec<&str> = toks.iter().map(|t| t.lemma()).collect();
    assert_eq!(lemmas, vec!["the", " ", "quick", " ", "fox"]);
    let kinds: Vec<TokenKind> = toks.iter().map(|t| t.kind).collect();
    assert_eq!(
        kinds,
        vec![
            TokenKind::Word,
            TokenKind::Separator(SeparatorKind::Soft),
            TokenKind::Word,
            TokenKind::Separator(SeparatorKind::Soft),
            TokenKind::Word,
        ]
    );
}

#[test]
fn diacritics_are_stripped_and_case_folded() {
    let toks = tokenize_str("Thé");
    assert_eq!(toks.len(), 1);
    assert!(toks[0].is_word());
    assert_eq!(toks[0].lemma(), "the");
    // the original span is untouched: all four bytes of the input
    assert_eq!(toks[0].original(), "Thé");
    assert_eq!(toks[0].original().len(), 4);
    assert_eq!(toks[0].char_start, 0);
    assert_eq!(toks[0].char_end, 3);
}

#[test]
fn mixed_scripts_split_at_the_boundary() {
    let toks = tokenize_str("fox犬");
    assert_eq!(toks.len(), 2);
    assert_eq!(toks[0].original(), "fox");
    assert_eq!(toks[1].original(), "犬");
    let rebuilt: String = toks.iter().map(|t| t.original()).collect();
    assert_eq!(rebuilt, "fox犬");
}

#[test]
fn tokens_never_straddle_script_run_boundaries() {
    let toks = tokenize_str("fox犬dog猫");
    let spans: Vec<&str> = toks.iter().map(|t| t.original()).collect();
    assert_eq!(spans, vec!["fox", "犬", "dog", "猫"]);
}

#[test]
fn empty_input_gives_no_tokens() {
    let toks = tokenize_str("");
    assert!(toks.is_empty());
}

#[test]
fn reconstruction_of_a_messy_input() {
    let orig = "Thé quick (\"brown\") fox can't jump 32.3 feet, right? Brr, it's 29.3°F!";
    let toks = tokenize_str(orig);
    let rebuilt: String = toks.iter().map(|t| t.original()).collect();
    assert_eq!(rebuilt, orig);
}

#[test]
fn reconstruction_of_mixed_script_text() {
    let orig = "abcあいう xyz! 漢字、テスト。done";
    let toks = tokenize_str(orig);
    let rebuilt: String = toks.iter().map(|t| t.original()).collect();
    assert_eq!(rebuilt, orig);
}

#[test]
fn every_token_is_word_or_separator_never_both() {
    let toks = tokenize_str("Hello, world! 犬 123…");
    assert!(!toks.is_empty());
    for t in &toks {
        assert!(t.is_word() != t.is_separator());
    }
}

#[test]
fn hard_and_soft_separators() {
    let toks = tokenize_str("a. b");
    // "a", ". " (separator group containing a full stop), "b"
    assert_eq!(toks.len(), 3);
    assert_eq!(toks[0].kind, TokenKind::Word);
    assert_eq!(toks[1].kind, TokenKind::Separator(SeparatorKind::Hard));
    assert_eq!(toks[2].kind, TokenKind::Word);
    let toks = tokenize_str("a b");
    assert_eq!(toks[1].kind, TokenKind::Separator(SeparatorKind::Soft));
}

#[test]
fn fullwidth_forms_are_compatibility_mapped() {
    let toks = tokenize_str("Ａｂｃ");
    assert_eq!(toks.len(), 1);
    assert_eq!(toks[0].lemma(), "abc");
    assert_eq!(toks[0].original(), "Ａｂｃ");
}

#[test]
fn char_map_relates_original_and_normalized_characters() {
    let toks = tokenize_str("Thé");
    let map = toks[0].char_map();
    assert_eq!(map, vec![((0, 1), (0, 1)), ((1, 2), (1, 2)), ((2, 3), (2, 3))]);
}

#[test]
fn segment_str_matches_tokenize_spans() {
    let orig = "The quick (\"brown\") fox";
    let segments = segment_str(orig);
    let toks = tokenize_str(orig);
    let spans: Vec<&str> = toks.iter().map(|t| t.original()).collect();
    let segs: Vec<&str> = segments.iter().map(|s| s.as_str()).collect();
    assert_eq!(segs, spans);
    assert_eq!(segs[0], "The");
    assert_eq!(segs[1], " ");
    assert_eq!(segs[2], "quick");
}

#[test]
fn single_script_run_segments_like_the_whole_string() {
    // one Latin run: punctuation and spaces are absorbed into it
    let orig = "hello world";
    let segments = segment_str(orig);
    assert_eq!(segments, vec!["hello", " ", "world"]);
    let rebuilt: String = segments.concat();
    assert_eq!(rebuilt, orig);
}

#[test]
fn both_japanese_dictionaries_is_a_configuration_error() {
    let mut b = TokenizerBuilder::new();
    b.japanese_ipadic = true;
    b.japanese_unidic = true;
    match b.build() {
        Err(TokenizeError::Configuration(_)) => {}
        other => panic!("expected a configuration error, got {:?}", other.map(|_| ())),
    }
}

#[test]
fn builder_defaults_build_a_working_tokenizer() {
    let t = TokenizerBuilder::new().build().expect("default configuration must build");
    let toks = t.tokenize("Good morning").expect("generic-only input must tokenize");
    let lemmas: Vec<&str> = toks.iter().map(|t| t.lemma()).collect();
    assert_eq!(lemmas, vec!["good", " ", "morning"]);
}

#[test]
fn disabled_case_fold_keeps_capitals() {
    let mut b = TokenizerBuilder::new();
    b.normalizer_options.case_fold = false;
    let t = b.build().unwrap();
    let toks = t.tokenize("The").unwrap();
    assert_eq!(toks[0].lemma(), "The");
}

#[test]
fn disabled_diacritic_strip_keeps_accents() {
    let mut b = TokenizerBuilder::new();
    b.normalizer_options = b.normalizer_options.disable(NormalizerId::DiacriticStrip);
    let t = b.build().unwrap();
    let toks = t.tokenize("Thé").unwrap();
    assert_eq!(toks[0].lemma(), "thé");
}

#[test]
fn extra_separators_split_words() {
    let mut b = TokenizerBuilder::new();
    b.extra_separators = vec!['o'];
    let t = b.build().unwrap();
    let toks = t.tokenize("foo").unwrap();
    let spans: Vec<&str> = toks.iter().map(|t| t.original()).collect();
    assert_eq!(spans, vec!["f", "oo"]);
    assert!(toks[0].is_word());
    assert!(toks[1].is_separator());
}

#[test]
fn restricted_scripts_fall_back_to_other() {
    let mut b = TokenizerBuilder::new();
    b.allowed_scripts = Some(vec![Script::Latin]);
    let t = b.build().unwrap();
    let toks = t.tokenize("犬").unwrap();
    assert_eq!(toks.len(), 1);
    assert_eq!(toks[0].script, Script::Other);
    let toks = t.tokenize("dog").unwrap();
    assert_eq!(toks[0].script, Script::Latin);
}

use charabia::{reconstruct, tokenize_str};

#[test]
fn contractions_are_merged_into_one_logical_token() {
    let toks = tokenize_str("can't jump");
    // the generic segmenter cuts the contraction apart...
    let raw: Vec<&str> = toks.iter().map(|t| t.original()).collect();
    assert_eq!(raw, vec!["can", "'", "t", " ", "jump"]);
    // ...and the reconstruction layer merges it back
    let merged = reconstruct(&toks);
    let spans: Vec<&str> = merged.iter().map(|m| m.original()).collect();
    assert_eq!(spans, vec!["can't", " ", "jump"]);
    assert_eq!(merged[0].lemma(), "can't");
    assert!(merged[0].is_word());
    let subs: Vec<&str> = merged[0].sub_lemmas.iter().map(|s| s.as_str()).collect();
    assert_eq!(subs, vec!["can", "'", "t"]);
}

#[test]
fn merging_preserves_lossless_reconstruction() {
    let orig = "it's the fox's den, isn't it?";
    let toks = tokenize_str(orig);
    let merged = reconstruct(&toks);
    let rebuilt: String = merged.iter().map(|m| m.original()).collect();
    assert_eq!(rebuilt, orig);
}

#[test]
fn tokens_without_fragments_pass_through_unchanged() {
    let toks = tokenize_str("plain words only");
    let merged = reconstruct(&toks);
    assert_eq!(merged.len(), toks.len());
    for (m, t) in merged.iter().zip(toks.iter()) {
        assert_eq!(m.original(), t.original());
        assert_eq!(m.lemma(), t.lemma());
        assert_eq!(m.kind, t.kind);
        assert_eq!(m.char_start, t.char_start);
        assert_eq!(m.char_end, t.char_end);
        assert_eq!(m.sub_lemmas.len(), 1);
    }
}

#[test]
fn typographic_apostrophe_also_joins() {
    let toks = tokenize_str("l’eau");
    let merged = reconstruct(&toks);
    assert_eq!(merged.len(), 1);
    assert_eq!(merged[0].original(), "l’eau");
    assert_eq!(merged[0].sub_lemmas.len(), 3);
}

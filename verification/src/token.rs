use vstd::prelude::*;
use vstd::string::StrSliceExecFns;

verus! {

/// Writing-system classification of a character or a run of text.
/// Every character maps to exactly one `Script`.
#[derive(Clone, Copy, PartialEq, Eq, Structural, Debug)]
pub enum Script {
    Arabic,
    Cj,
    Cyrillic,
    Greek,
    Hebrew,
    Latin,
    Thai,
    Other,
}

/// Best-guess natural language of a run of text; `Other` is always a valid,
/// non-failing answer.
#[derive(Clone, Copy, PartialEq, Eq, Structural, Debug)]
pub enum Language {
    Ara,
    Cmn,
    Ell,
    Eng,
    Heb,
    Jpn,
    Rus,
    Tha,
    Other,
}

/// Strength of a separator token: a `Hard` separator ends a sentence or a
/// clause, a `Soft` one only separates words within a phrase.
#[derive(Clone, Copy, PartialEq, Eq, Structural, Debug)]
pub enum SeparatorKind {
    Hard,
    Soft,
}

/// Classification of a token: a word, or a separator of a given strength.
/// Exactly one of the two alternatives holds of every token.
#[derive(Clone, Copy, PartialEq, Eq, Structural, Debug)]
pub enum TokenKind {
    Word,
    Separator(SeparatorKind),
}

impl TokenKind {
    /// True of word tokens.
    pub open spec fn is_word_spec(self) -> bool {
        self is Word
    }

    /// True of separator tokens of either strength.
    pub open spec fn is_separator_spec(self) -> bool {
        self is Separator
    }
}

/// Exhaustive classification: of every token kind, exactly one of
/// `is_word` and `is_separator` is true.
pub proof fn lemma_exhaustive_classification(kind: TokenKind)
    ensures
        kind.is_word_spec() != kind.is_separator_spec(),
{
}

/// What can go wrong while building or running a tokenizer. Construction
/// errors are reported once, before any tokenization; per-call errors do not
/// poison the pipeline for later calls.
#[derive(Debug, PartialEq, Eq)]
pub enum TokenizeError {
    /// Mutually exclusive options were requested at construction time.
    Configuration(String),
    /// The one-time build of a segmenter's dictionary resource failed.
    ResourceInitialization(String),
    /// An underlying specialized segmenter failed on one call.
    Segmentation(String),
}

/// One lexical unit of the input text.
///
/// A token remembers the exact span of the input it was cut from (both the
/// span's characters and its position, counted in characters), the normalized
/// form of that span (the lemma), the script and language of the run the span
/// came from, and its classification.
pub struct Token {
    /// Normalized form of the span: the index term.
    pub lemma: String,
    /// The span of the input this token was cut from, character for character.
    pub original: String,
    /// Start of the span in the input, counted in characters.
    pub char_start: usize,
    /// End (exclusive) of the span in the input, counted in characters.
    pub char_end: usize,
    /// Word or separator.
    pub kind: TokenKind,
    /// Script of the run this token came from; never altered by normalization.
    pub script: Script,
    /// Language of the run this token came from; never altered by normalization.
    pub language: Language,
}

impl Token {
    /// The normalized form of the token, used as the index term.
    pub fn lemma(&self) -> (r: &str)
        ensures
            r@ == self.lemma@,
    {
        self.lemma.as_str()
    }

    /// The original span of the input this token was cut from.
    pub fn original(&self) -> (r: &str)
        ensures
            r@ == self.original@,
    {
        self.original.as_str()
    }

    /// True of word tokens.
    pub fn is_word(&self) -> (r: bool)
        ensures
            r == self.kind.is_word_spec(),
    {
        match self.kind {
            TokenKind::Word => true,
            TokenKind::Separator(_) => false,
        }
    }

    /// True of separator tokens of either strength.
    pub fn is_separator(&self) -> (r: bool)
        ensures
            r == self.kind.is_separator_spec(),
    {
        match self.kind {
            TokenKind::Word => false,
            TokenKind::Separator(_) => true,
        }
    }

    /// The fine-grained character map of the token: for each character of
    /// the original span, the sub-range of the span it occupies and the
    /// sub-range of the lemma it maps to. The normalizer chain maps the span
    /// character for character, so the `k`-th original character maps to the
    /// `k`-th normalized one; the map is computed on request, as it costs
    /// bookkeeping that most callers do not need.
    pub fn char_map(&self) -> (r: Vec<((usize, usize), (usize, usize))>)
        ensures
            r@.len() == self.original@.len(),
            forall|k: int|
                0 <= k < r@.len() ==> r@[k] == (((k as usize, (k + 1) as usize), (
                k as usize,
                (k + 1) as usize,
            ))),
    {
        let n = self.original.as_str().unicode_len();
        let mut r: Vec<((usize, usize), (usize, usize))> = Vec::new();
        let mut k: usize = 0;
        while k < n
            invariant
                k <= n <= usize::MAX,
                r@.len() == k,
                forall|j: int|
                    0 <= j < k ==> r@[j] == (((j as usize, (j + 1) as usize), (
                    j as usize,
                    (j + 1) as usize,
                ))),
            decreases n - k,
        {
            r.push(((k, k + 1), (k, k + 1)));
            k += 1;
        }
        r
    }

    /// The separator strength, for separator tokens.
    pub fn separator_kind(&self) -> (r: Option<SeparatorKind>)
        ensures
            match self.kind {
                TokenKind::Separator(s) => r == Some(s),
                TokenKind::Word => r is None,
            },
    {
        match self.kind {
            TokenKind::Word => None,
            TokenKind::Separator(s) => Some(s),
        }
    }
}

} // verus!

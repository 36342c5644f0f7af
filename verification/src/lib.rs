//! Charabia turns raw text into a stream of classified, normalized lexical
//! units usable as index terms: it detects the writing system and language of
//! each run of text, splits runs into minimal meaningful spans with a
//! script-appropriate segmenter, normalizes each span's content, and
//! classifies every unit as a word or a separator, while guaranteeing that
//! the original input can be reconstructed exactly from the produced spans.

pub mod detection;
pub mod normalizer;
pub mod reconstruction;
pub mod segmenter;
pub mod separators;
pub mod token;
pub mod tokenizer;

pub use detection::{detect, script_of_char};
pub use reconstruction::{reconstruct, ReconstructedToken};
pub use segmenter::japanese::JapaneseSegmenter;
pub use token::{Language, Script, SeparatorKind, Token, TokenKind, TokenizeError};
pub use tokenizer::{segment_str, tokenize_str, Tokenizer, TokenizerBuilder};

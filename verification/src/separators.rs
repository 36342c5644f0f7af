use vstd::prelude::*;
use crate::token::{SeparatorKind, TokenKind};

verus! {

/// True of the characters the classifier treats as separators: controls,
/// whitespace, and common punctuation of the scripts this library knows.
pub open spec fn is_separator_char(c: char) -> bool {
    let u = c as u32;
    ||| u <= 0x2F  // C0 controls, space, and the punctuation !"#$%&'()*+,-./
    ||| (0x3A <= u && u <= 0x40)  // :;<=>?@
    ||| (0x5B <= u && u <= 0x60)  // [\]^_`
    ||| (0x7B <= u && u <= 0x7E)  // {|}~
    ||| u == 0x7F  // delete
    ||| u == 0xA0  // no-break space
    ||| u == 0xB7  // middle dot
    ||| (0x2000 <= u && u <= 0x200A)  // typographic spaces
    ||| (0x2010 <= u && u <= 0x2027)  // dashes, quotation marks, daggers, dots
    ||| u == 0x2028 || u == 0x2029  // line and paragraph separators
    ||| (0x3000 <= u && u <= 0x3003)  // ideographic space and CJK punctuation
    ||| u == 0x30FB  // katakana middle dot
    ||| (0xFE50 <= u && u <= 0xFE52)  // small comma, ideographic comma, period
    ||| (0xFF01 <= u && u <= 0xFF0F)  // fullwidth punctuation
    ||| (0xFF1A <= u && u <= 0xFF20)
    ||| (0xFF3B <= u && u <= 0xFF40)
    ||| (0xFF5B <= u && u <= 0xFF65)  // fullwidth brackets, halfwidth CJK stops
}

/// True of the separator characters that end a sentence or a clause; every
/// other separator character is soft.
pub open spec fn is_hard_separator_char(c: char) -> bool {
    let u = c as u32;
    ||| u == 0x0A || u == 0x0D  // line feed, carriage return
    ||| u == 0x21  // !
    ||| u == 0x2E  // .
    ||| u == 0x3B  // ;
    ||| u == 0x3F  // ?
    ||| u == 0x2026  // horizontal ellipsis
    ||| u == 0x2028 || u == 0x2029  // line and paragraph separators
    ||| u == 0x3002  // ideographic full stop
    ||| u == 0xFE52  // small full stop
    ||| u == 0xFF01  // fullwidth !
    ||| u == 0xFF0E  // fullwidth .
    ||| u == 0xFF1F  // fullwidth ?
    ||| u == 0xFF61  // halfwidth ideographic full stop
}

/// Executable form of [`is_separator_char`].
pub fn check_separator_char(c: char) -> (r: bool)
    ensures
        r == is_separator_char(c),
{
    let u = c as u32;
    u <= 0x2F || (0x3A <= u && u <= 0x40) || (0x5B <= u && u <= 0x60) || (0x7B <= u && u <= 0x7E)
        || u == 0x7F || u == 0xA0 || u == 0xB7 || (0x2000 <= u && u <= 0x200A) || (0x2010 <= u
        && u <= 0x2027) || u == 0x2028 || u == 0x2029 || (0x3000 <= u && u <= 0x3003) || u
        == 0x30FB || (0xFE50 <= u && u <= 0xFE52) || (0xFF01 <= u && u <= 0xFF0F) || (0xFF1A <= u
        && u <= 0xFF20) || (0xFF3B <= u && u <= 0xFF40) || (0xFF5B <= u && u <= 0xFF65)
}

/// Executable form of [`is_hard_separator_char`].
pub fn check_hard_separator_char(c: char) -> (r: bool)
    ensures
        r == is_hard_separator_char(c),
{
    let u = c as u32;
    u == 0x0A || u == 0x0D || u == 0x21 || u == 0x2E || u == 0x3B || u == 0x3F || u == 0x2026 || u
        == 0x2028 || u == 0x2029 || u == 0x3002 || u == 0xFE52 || u == 0xFF01 || u == 0xFF0E || u
        == 0xFF1F || u == 0xFF61
}

/// True of a separator character under a configuration that may add extra
/// separator characters of its own.
pub open spec fn is_separator_char_ex(c: char, extra: Seq<char>) -> bool {
    is_separator_char(c) || extra.contains(c)
}

/// Executable form of [`is_separator_char_ex`].
pub fn check_separator_char_ex(c: char, extra: &Vec<char>) -> (r: bool)
    ensures
        r == is_separator_char_ex(c, extra@),
{
    if check_separator_char(c) {
        return true;
    }
    let mut k: usize = 0;
    while k < extra.len()
        invariant
            k <= extra@.len(),
            forall|j: int| 0 <= j < k ==> extra@[j] != c,
        decreases extra@.len() - k,
    {
        if extra[k] == c {
            return true;
        }
        k += 1;
    }
    false
}

/// What the classifier assigns to a span: a separator when the span is
/// non-empty and made of separator characters only (hard as soon as one of
/// them ends a sentence), and a word otherwise.
///
/// Segmenters cut at the boundary between separator and content characters,
/// so a span never mixes the two; if a span nonetheless did, the word
/// fallback keeps classification total.
pub open spec fn classify_spec(s: Seq<char>, extra: Seq<char>) -> TokenKind {
    if s.len() > 0 && (forall|i: int| 0 <= i < s.len() ==> is_separator_char_ex(s[i], extra)) {
        if exists|i: int| 0 <= i < s.len() && is_hard_separator_char(s[i]) {
            TokenKind::Separator(SeparatorKind::Hard)
        } else {
            TokenKind::Separator(SeparatorKind::Soft)
        }
    } else {
        TokenKind::Word
    }
}

/// Classifies the span `chars[start..end]`: a pure function of the span's
/// characters, total, never failing.
pub fn classify_range(chars: &Vec<char>, start: usize, end: usize, extra: &Vec<char>) -> (r:
    TokenKind)
    requires
        start <= end <= chars@.len(),
    ensures
        r == classify_spec(chars@.subrange(start as int, end as int), extra@),
{
    let ghost span = chars@.subrange(start as int, end as int);
    if start == end {
        return TokenKind::Word;
    }
    let mut all_sep = true;
    let mut any_hard = false;
    let mut k: usize = start;
    while k < end
        invariant
            start <= k <= end <= chars@.len(),
            span == chars@.subrange(start as int, end as int),
            all_sep == (forall|j: int|
                start <= j < k ==> is_separator_char_ex(chars@[j], extra@)),
            any_hard == (exists|j: int|
                start <= j < k && is_hard_separator_char(chars@[j])),
        decreases end - k,
    {
        if !check_separator_char_ex(chars[k], extra) {
            all_sep = false;
        }
        if check_hard_separator_char(chars[k]) {
            any_hard = true;
        }
        k += 1;
    }
    assert(forall|j: int|
        0 <= j < span.len() ==> span[j] == chars@[start + j]);
    if all_sep {
        assert(forall|i: int| 0 <= i < span.len() ==> is_separator_char_ex(span[i], extra@));
        if any_hard {
            assert(exists|i: int| 0 <= i < span.len() && is_hard_separator_char(span[i])) by {
                let j = choose|j: int| start <= j < end && is_hard_separator_char(chars@[j]);
                assert(span[j - start] == chars@[j]);
            }
            TokenKind::Separator(SeparatorKind::Hard)
        } else {
            assert(!(exists|i: int| 0 <= i < span.len() && is_hard_separator_char(span[i]))) by {
                if exists|i: int| 0 <= i < span.len() && is_hard_separator_char(span[i]) {
                    let i = choose|i: int| 0 <= i < span.len() && is_hard_separator_char(span[i]);
                    assert(chars@[start + i] == span[i]);
                }
            }
            TokenKind::Separator(SeparatorKind::Soft)
        }
    } else {
        assert(!(forall|i: int| 0 <= i < span.len() ==> is_separator_char_ex(span[i], extra@)))
            by {
            let j = choose|j: int| start <= j < k && !is_separator_char_ex(chars@[j], extra@);
            assert(span[j - start] == chars@[j]);
        }
        TokenKind::Word
    }
}

} // verus!

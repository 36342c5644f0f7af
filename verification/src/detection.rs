use vstd::prelude::*;
use vstd::string::StrSliceExecFns;
use crate::token::{Language, Script};

verus! {

/// The script of one character: a total classification, every character maps
/// to exactly one `Script`.
pub open spec fn script_of(c: char) -> Script {
    let u = c as u32;
    if (0x41 <= u && u <= 0x5A) || (0x61 <= u && u <= 0x7A) || (0xC0 <= u && u <= 0x24F && u
        != 0xD7 && u != 0xF7) {
        Script::Latin
    } else if (0x370 <= u && u <= 0x3FF) || (0x1F00 <= u && u <= 0x1FFF) {
        Script::Greek
    } else if 0x400 <= u && u <= 0x52F {
        Script::Cyrillic
    } else if 0x590 <= u && u <= 0x5FF {
        Script::Hebrew
    } else if (0x600 <= u && u <= 0x6FF) || (0x750 <= u && u <= 0x77F) || (0x8A0 <= u && u
        <= 0x8FF) {
        Script::Arabic
    } else if 0xE00 <= u && u <= 0xE7F {
        Script::Thai
    } else if (0x3040 <= u && u <= 0x30FF) || (0x3400 <= u && u <= 0x4DBF) || (0x4E00 <= u && u
        <= 0x9FFF) || (0xF900 <= u && u <= 0xFAFF) || (0xFF66 <= u && u <= 0xFF9F) {
        Script::Cj
    } else {
        Script::Other
    }
}

/// Executable form of [`script_of`].
pub fn script_of_char(c: char) -> (r: Script)
    ensures
        r == script_of(c),
{
    let u = c as u32;
    if (0x41 <= u && u <= 0x5A) || (0x61 <= u && u <= 0x7A) || (0xC0 <= u && u <= 0x24F && u
        != 0xD7 && u != 0xF7) {
        Script::Latin
    } else if (0x370 <= u && u <= 0x3FF) || (0x1F00 <= u && u <= 0x1FFF) {
        Script::Greek
    } else if 0x400 <= u && u <= 0x52F {
        Script::Cyrillic
    } else if 0x590 <= u && u <= 0x5FF {
        Script::Hebrew
    } else if (0x600 <= u && u <= 0x6FF) || (0x750 <= u && u <= 0x77F) || (0x8A0 <= u && u
        <= 0x8FF) {
        Script::Arabic
    } else if 0xE00 <= u && u <= 0xE7F {
        Script::Thai
    } else if (0x3040 <= u && u <= 0x30FF) || (0x3400 <= u && u <= 0x4DBF) || (0x4E00 <= u && u
        <= 0x9FFF) || (0xF900 <= u && u <= 0xFAFF) || (0xFF66 <= u && u <= 0xFF9F) {
        Script::Cj
    } else {
        Script::Other
    }
}

/// How many characters of `s` belong to the script `sc`.
pub open spec fn count_script(s: Seq<char>, sc: Script) -> nat
    decreases s.len(),
{
    if s.len() == 0 {
        0
    } else {
        count_script(s.drop_last(), sc) + if script_of(s.last()) == sc {
            1nat
        } else {
            0nat
        }
    }
}

/// The script detected for a piece of text: a majority vote over the script
/// of each character, ties broken by a fixed order, and `Other` when no
/// character belongs to a known script.
pub open spec fn detect_script_spec(s: Seq<char>) -> Script {
    let ar = count_script(s, Script::Arabic);
    let cj = count_script(s, Script::Cj);
    let cy = count_script(s, Script::Cyrillic);
    let gr = count_script(s, Script::Greek);
    let he = count_script(s, Script::Hebrew);
    let la = count_script(s, Script::Latin);
    let th = count_script(s, Script::Thai);
    if ar > 0 && ar >= cj && ar >= cy && ar >= gr && ar >= he && ar >= la && ar >= th {
        Script::Arabic
    } else if cj > 0 && cj >= cy && cj >= gr && cj >= he && cj >= la && cj >= th {
        Script::Cj
    } else if cy > 0 && cy >= gr && cy >= he && cy >= la && cy >= th {
        Script::Cyrillic
    } else if gr > 0 && gr >= he && gr >= la && gr >= th {
        Script::Greek
    } else if he > 0 && he >= la && he >= th {
        Script::Hebrew
    } else if la > 0 && la >= th {
        Script::Latin
    } else if th > 0 {
        Script::Thai
    } else {
        Script::Other
    }
}

/// True when `s` contains a kana character, the signal that tells Japanese
/// from Chinese within the Cj script.
pub open spec fn has_kana(s: Seq<char>) -> bool {
    exists|i: int| 0 <= i < s.len() && is_kana(s[i])
}

/// True of hiragana and katakana characters.
pub open spec fn is_kana(c: char) -> bool {
    let u = c as u32;
    (0x3041 <= u && u <= 0x3096) || (0x30A1 <= u && u <= 0x30FA) || u == 0x30FC || (0xFF66 <= u
        && u <= 0xFF9F)
}

/// Executable form of [`is_kana`].
pub fn check_kana(c: char) -> (r: bool)
    ensures
        r == is_kana(c),
{
    let u = c as u32;
    (0x3041 <= u && u <= 0x3096) || (0x30A1 <= u && u <= 0x30FA) || u == 0x30FC || (0xFF66 <= u
        && u <= 0xFF9F)
}

/// The language guessed for text of a known script: the script's principal
/// language where one clearly dominates, `Jpn` or `Cmn` for the Cj script
/// depending on whether kana occur, and `Other` where the script alone gives
/// no signal.
pub open spec fn language_of_spec(sc: Script, s: Seq<char>) -> Language {
    match sc {
        Script::Arabic => Language::Ara,
        Script::Cj => if has_kana(s) {
            Language::Jpn
        } else {
            Language::Cmn
        },
        Script::Cyrillic => Language::Rus,
        Script::Greek => Language::Ell,
        Script::Hebrew => Language::Heb,
        Script::Latin => Language::Other,
        Script::Thai => Language::Tha,
        Script::Other => Language::Other,
    }
}

/// Counts, over `chars[start..end]`, the characters of script `sc`.
fn count_script_range(chars: &Vec<char>, start: usize, end: usize, sc: Script) -> (r: usize)
    requires
        start <= end <= chars@.len(),
    ensures
        r == count_script(chars@.subrange(start as int, end as int), sc),
{
    let mut n: usize = 0;
    let mut k: usize = start;
    while k < end
        invariant
            start <= k <= end <= chars@.len(),
            n == count_script(chars@.subrange(start as int, k as int), sc),
            n <= k - start,
        decreases end - k,
    {
        let ghost pre = chars@.subrange(start as int, k as int);
        let ghost post = chars@.subrange(start as int, k as int + 1);
        proof {
            assert(post.drop_last() =~= pre);
            assert(post.last() == chars@[k as int]);
        }
        if script_of_char(chars[k]) == sc {
            n += 1;
        }
        k += 1;
    }
    assert(chars@.subrange(start as int, end as int) == chars@.subrange(
        start as int,
        k as int,
    ));
    n
}

/// Detects the script of `chars[start..end]` by majority vote.
pub fn detect_script_range(chars: &Vec<char>, start: usize, end: usize) -> (r: Script)
    requires
        start <= end <= chars@.len(),
    ensures
        r == detect_script_spec(chars@.subrange(start as int, end as int)),
{
    let ar = count_script_range(chars, start, end, Script::Arabic);
    let cj = count_script_range(chars, start, end, Script::Cj);
    let cy = count_script_range(chars, start, end, Script::Cyrillic);
    let gr = count_script_range(chars, start, end, Script::Greek);
    let he = count_script_range(chars, start, end, Script::Hebrew);
    let la = count_script_range(chars, start, end, Script::Latin);
    let th = count_script_range(chars, start, end, Script::Thai);
    if ar > 0 && ar >= cj && ar >= cy && ar >= gr && ar >= he && ar >= la && ar >= th {
        Script::Arabic
    } else if cj > 0 && cj >= cy && cj >= gr && cj >= he && cj >= la && cj >= th {
        Script::Cj
    } else if cy > 0 && cy >= gr && cy >= he && cy >= la && cy >= th {
        Script::Cyrillic
    } else if gr > 0 && gr >= he && gr >= la && gr >= th {
        Script::Greek
    } else if he > 0 && he >= la && he >= th {
        Script::Hebrew
    } else if la > 0 && la >= th {
        Script::Latin
    } else if th > 0 {
        Script::Thai
    } else {
        Script::Other
    }
}

/// Guesses the language of `chars[start..end]`, constrained to the already
/// known script.
pub fn detect_language_range(chars: &Vec<char>, start: usize, end: usize, sc: Script) -> (r:
    Language)
    requires
        start <= end <= chars@.len(),
    ensures
        r == language_of_spec(sc, chars@.subrange(start as int, end as int)),
{
    let ghost span = chars@.subrange(start as int, end as int);
    match sc {
        Script::Arabic => Language::Ara,
        Script::Cyrillic => Language::Rus,
        Script::Greek => Language::Ell,
        Script::Hebrew => Language::Heb,
        Script::Latin => Language::Other,
        Script::Thai => Language::Tha,
        Script::Other => Language::Other,
        Script::Cj => {
            let mut k: usize = start;
            while k < end
                invariant
                    sc is Cj,
                    start <= k <= end <= chars@.len(),
                    span == chars@.subrange(start as int, end as int),
                    forall|j: int| start <= j < k ==> !is_kana(chars@[j]),
                decreases end - k,
            {
                if check_kana(chars[k]) {
                    proof {
                        let w: int = k - start;
                        assert(span[w] == chars@[k as int]);
                        assert(0 <= w < span.len() && is_kana(span[w]));
                        assert(has_kana(span));
                    }
                    return Language::Jpn;
                }
                k += 1;
            }
            assert(!has_kana(span)) by {
                if has_kana(span) {
                    let i = choose|i: int| 0 <= i < span.len() && is_kana(span[i]);
                    assert(chars@[start + i] == span[i]);
                }
            }
            Language::Cmn
        },
    }
}

/// Copies the characters of `text` into a vector, in order.
pub fn chars_of(text: &str) -> (r: Vec<char>)
    ensures
        r@ == text@,
{
    let n = text.unicode_len();
    let mut r: Vec<char> = Vec::new();
    let mut k: usize = 0;
    while k < n
        invariant
            k <= n,
            n == text@.len(),
            r@ =~= text@.subrange(0, k as int),
        decreases n - k,
    {
        r.push(text.get_char(k));
        k += 1;
    }
    assert(r@ =~= text@);
    r
}

/// Detects the writing system and the natural language of a piece of text.
/// Never fails: text with no recognizable signal is classified as
/// `(Script::Other, Language::Other)`, and the answer is the same for
/// identical input.
pub fn detect(text: &str) -> (r: (Script, Language))
    ensures
        r.0 == detect_script_spec(text@),
        r.1 == language_of_spec(detect_script_spec(text@), text@),
{
    let chars = chars_of(text);
    let sc = detect_script_range(&chars, 0, chars.len());
    let lg = detect_language_range(&chars, 0, chars.len(), sc);
    proof {
        assert(chars@.subrange(0, chars@.len() as int) =~= text@);
    }
    (sc, lg)
}

} // verus!

use vstd::prelude::*;
use crate::detection::script_of;
use crate::detection::script_of_char;
use crate::separators::{check_separator_char_ex, is_separator_char_ex};
use crate::token::{Language, Script};

pub mod japanese;

verus! {

/// True of the characters that carry content: everything that is not a
/// separator under the given configuration.
pub open spec fn is_word_char(c: char, extra: Seq<char>) -> bool {
    !is_separator_char_ex(c, extra)
}

/// True when two characters fall on the same side of the separator/content
/// divide, so that no minimal span boundary runs between them.
pub open spec fn same_class(a: char, b: char, extra: Seq<char>) -> bool {
    is_separator_char_ex(a, extra) == is_separator_char_ex(b, extra)
}

/// Where the minimal span that starts at `i` ends, within `s[i..b]`: the
/// span extends as long as consecutive characters stay on the same side of
/// the separator/content divide, and never past `b`.
pub open spec fn next_cut(s: Seq<char>, i: int, b: int, extra: Seq<char>) -> int
    decreases b - i,
{
    if i + 1 >= b {
        b
    } else if same_class(s[i], s[i + 1], extra) {
        next_cut(s, i + 1, b, extra)
    } else {
        i + 1
    }
}

/// The span `[i, next_cut)` is non-empty, stays within `[i, b]`, is
/// homogeneous, and is maximal: the cut falls at `b` or at a class change.
pub proof fn lemma_next_cut(s: Seq<char>, i: int, b: int, extra: Seq<char>)
    requires
        0 <= i < b <= s.len(),
    ensures
        i < next_cut(s, i, b, extra) <= b,
        forall|j: int| i <= j < next_cut(s, i, b, extra) ==> same_class(s[i], s[j], extra),
        next_cut(s, i, b, extra) < b ==> !same_class(s[i], s[next_cut(s, i, b, extra)], extra),
    decreases b - i,
{
    if i + 1 >= b {
    } else if same_class(s[i], s[i + 1], extra) {
        lemma_next_cut(s, i + 1, b, extra);
    } else {
    }
}

/// Executable form of [`next_cut`].
pub fn next_cut_exec(chars: &Vec<char>, i: usize, b: usize, extra: &Vec<char>) -> (r: usize)
    requires
        i < b <= chars@.len(),
    ensures
        r == next_cut(chars@, i as int, b as int, extra@),
{
    let mut j = i;
    loop
        invariant
            i <= j < b <= chars@.len(),
            next_cut(chars@, i as int, b as int, extra@) == next_cut(
                chars@,
                j as int,
                b as int,
                extra@,
            ),
        decreases b - j,
    {
        if j + 1 >= b {
            return b;
        }
        if check_separator_char_ex(chars[j], extra) != check_separator_char_ex(
            chars[j + 1],
            extra,
        ) {
            return j + 1;
        }
        j += 1;
    }
}

/// The first content character at or after `i`, or the length of `s` when
/// only separators remain. Separators never open a script run of their own:
/// they are absorbed into the run that is still open.
pub open spec fn first_strong(s: Seq<char>, i: int, extra: Seq<char>) -> int
    decreases s.len() - i,
{
    if i >= s.len() {
        s.len() as int
    } else if is_word_char(s[i], extra) {
        i
    } else {
        first_strong(s, i + 1, extra)
    }
}

pub proof fn lemma_first_strong(s: Seq<char>, i: int, extra: Seq<char>)
    requires
        0 <= i <= s.len(),
    ensures
        i <= first_strong(s, i, extra) <= s.len(),
        first_strong(s, i, extra) < s.len() ==> is_word_char(s[first_strong(s, i, extra)], extra),
        forall|j: int| i <= j < first_strong(s, i, extra) ==> !is_word_char(s[j], extra),
    decreases s.len() - i,
{
    if i >= s.len() {
    } else if is_word_char(s[i], extra) {
    } else {
        lemma_first_strong(s, i + 1, extra);
    }
}

/// Where the script run whose script is `sc` and whose content started
/// before `j` ends: at the next content character of a different script, or
/// at the end of the text. Separators and same-script content extend the
/// run.
pub open spec fn scan_run_end(s: Seq<char>, j: int, sc: Script, extra: Seq<char>) -> int
    decreases s.len() - j,
{
    if j >= s.len() {
        s.len() as int
    } else if is_word_char(s[j], extra) && script_of(s[j]) != sc {
        j
    } else {
        scan_run_end(s, j + 1, sc, extra)
    }
}

pub proof fn lemma_scan_run_end(s: Seq<char>, j: int, sc: Script, extra: Seq<char>)
    requires
        0 <= j <= s.len(),
    ensures
        j <= scan_run_end(s, j, sc, extra) <= s.len(),
        forall|k: int|
            j <= k < scan_run_end(s, j, sc, extra) ==> (is_word_char(s[k], extra) ==> script_of(
                s[k],
            ) == sc),
        scan_run_end(s, j, sc, extra) < s.len() ==> (is_word_char(
            s[scan_run_end(s, j, sc, extra)],
            extra,
        ) && script_of(s[scan_run_end(s, j, sc, extra)]) != sc),
    decreases s.len() - j,
{
    if j >= s.len() {
    } else if is_word_char(s[j], extra) && script_of(s[j]) != sc {
    } else {
        lemma_scan_run_end(s, j + 1, sc, extra);
    }
}

/// The script of the run that starts at `i`: the script of its first content
/// character, or `Other` for a run of separators only.
pub open spec fn run_script(s: Seq<char>, i: int, extra: Seq<char>) -> Script {
    if first_strong(s, i, extra) == s.len() {
        Script::Other
    } else {
        script_of(s[first_strong(s, i, extra)])
    }
}

/// Where the script run that starts at `i` ends: at the next content
/// character whose script differs from the run's own, or at the end of the
/// text.
pub open spec fn run_end(s: Seq<char>, i: int, extra: Seq<char>) -> int {
    if first_strong(s, i, extra) == s.len() {
        s.len() as int
    } else {
        scan_run_end(s, first_strong(s, i, extra) + 1, run_script(s, i, extra), extra)
    }
}

/// A run is non-empty and ends within the text.
pub proof fn lemma_run_end(s: Seq<char>, i: int, extra: Seq<char>)
    requires
        0 <= i < s.len(),
    ensures
        i < run_end(s, i, extra) <= s.len(),
{
    lemma_first_strong(s, i, extra);
    if first_strong(s, i, extra) != s.len() {
        lemma_scan_run_end(s, first_strong(s, i, extra) + 1, run_script(s, i, extra), extra);
    }
}

/// Executable form of [`first_strong`].
fn first_strong_exec(chars: &Vec<char>, i: usize, extra: &Vec<char>) -> (r: usize)
    requires
        i <= chars@.len(),
    ensures
        r == first_strong(chars@, i as int, extra@),
{
    let n = chars.len();
    let mut j = i;
    while j < n
        invariant
            i <= j <= n == chars@.len(),
            first_strong(chars@, i as int, extra@) == first_strong(chars@, j as int, extra@),
        decreases n - j,
    {
        if !check_separator_char_ex(chars[j], extra) {
            return j;
        }
        j += 1;
    }
    n
}

/// Executable form of [`scan_run_end`].
fn scan_run_end_exec(chars: &Vec<char>, j: usize, sc: Script, extra: &Vec<char>) -> (r: usize)
    requires
        j <= chars@.len(),
    ensures
        r == scan_run_end(chars@, j as int, sc, extra@),
{
    let n = chars.len();
    let mut k = j;
    while k < n
        invariant
            j <= k <= n == chars@.len(),
            scan_run_end(chars@, j as int, sc, extra@) == scan_run_end(
                chars@,
                k as int,
                sc,
                extra@,
            ),
        decreases n - k,
    {
        if !check_separator_char_ex(chars[k], extra) && script_of_char(chars[k]) != sc {
            return k;
        }
        k += 1;
    }
    n
}

/// The script of the run that starts at `i`, and where that run ends.
pub fn run_script_and_end(chars: &Vec<char>, i: usize, extra: &Vec<char>) -> (r: (Script, usize))
    requires
        i < chars@.len(),
    ensures
        r.0 == run_script(chars@, i as int, extra@),
        r.1 == run_end(chars@, i as int, extra@),
        i < r.1 <= chars@.len(),
{
    proof {
        lemma_run_end(chars@, i as int, extra@);
    }
    let fs = first_strong_exec(chars, i, extra);
    if fs == chars.len() {
        (Script::Other, chars.len())
    } else {
        proof {
            lemma_first_strong(chars@, i as int, extra@);
        }
        let sc = script_of_char(chars[fs]);
        let e = scan_run_end_exec(chars, fs + 1, sc, extra);
        (sc, e)
    }
}

/// The family of segmenters this library composes. Each turns a string into
/// an ordered, lossless sequence of substrings; the generic one is the
/// mandatory fallback of last resort.
#[derive(Clone, Copy, PartialEq, Eq, Structural, Debug)]
pub enum SegmenterChoice {
    /// Word-boundary segmentation: always available.
    Generic,
    /// Dictionary-driven morphological segmentation for Japanese.
    Japanese,
}

/// The segmenter selected for a (script, language) pair, under a
/// configuration that may enable the Japanese segmenter: the
/// language-specific segmenter when one is registered, else a
/// script-specific one, else the generic fallback. Selection is total and
/// deterministic; the absence of a specialized entry is not an error.
pub open spec fn dispatch_spec(japanese: bool, sc: Script, lg: Language) -> SegmenterChoice {
    if japanese && lg is Jpn {
        SegmenterChoice::Japanese
    } else {
        SegmenterChoice::Generic
    }
}

/// Executable form of [`dispatch_spec`]. The registry currently holds one
/// language-specific entry (Japanese, when enabled) and no script-specific
/// entry, so every other pair falls through the cascade to the generic
/// segmenter.
pub fn dispatch(japanese: bool, sc: Script, lg: Language) -> (r: SegmenterChoice)
    ensures
        r == dispatch_spec(japanese, sc, lg),
{
    if japanese && matches!(lg, Language::Jpn) {
        SegmenterChoice::Japanese
    } else {
        SegmenterChoice::Generic
    }
}

/// Deterministic dispatch: the segmenter selected for a given
/// (script, language) pair is stable across repeated selections with an
/// identical configuration.
pub proof fn lemma_deterministic_dispatch(
    japanese: bool,
    sc: Script,
    lg: Language,
    r1: SegmenterChoice,
    r2: SegmenterChoice,
)
    requires
        r1 == dispatch_spec(japanese, sc, lg),
        r2 == dispatch_spec(japanese, sc, lg),
    ensures
        r1 == r2,
{
}

} // verus!

use vstd::prelude::*;
use vstd::string::{StrSliceExecFns, StringExecFns};
use crate::detection::{chars_of, detect_language_range, language_of_spec};
use crate::normalizer::{normalize_range, normalize_spec, NormalizerOptions};
use crate::segmenter::japanese::{
    concat_strs, lemma_concat_strs_prefix, JapaneseDictionaryKind, JapaneseSegmenter,
};
use crate::segmenter::{
    dispatch, dispatch_spec, lemma_next_cut, lemma_run_end, next_cut, next_cut_exec, run_end,
    run_script, run_script_and_end, SegmenterChoice,
};
use crate::separators::{classify_range, classify_spec};
use crate::token::{Language, Script, Token, TokenizeError};

verus! {

/// One planned token: its script, its language, and its character range in
/// the input.
pub type PlannedUnit = (Script, Language, int, int);

/// A detected script, confined to the scripts a configuration admits:
/// scripts outside the admissible set fall back to `Other` (and from there
/// to the generic segmenter) instead of failing.
pub open spec fn restrict_script(sc: Script, allowed: Option<Vec<Script>>) -> Script {
    match allowed {
        Option::None => sc,
        Option::Some(v) => if v@.contains(sc) {
            sc
        } else {
            Script::Other
        },
    }
}

/// A detected language, confined to the languages a configuration admits.
pub open spec fn restrict_language(lg: Language, allowed: Option<Vec<Language>>) -> Language {
    match allowed {
        Option::None => lg,
        Option::Some(v) => if v@.contains(lg) {
            lg
        } else {
            Language::Other
        },
    }
}

/// The script assigned to the run that starts at `i`, after confinement.
pub open spec fn eff_run_script(
    s: Seq<char>,
    i: int,
    extra: Seq<char>,
    scripts: Option<Vec<Script>>,
) -> Script {
    restrict_script(run_script(s, i, extra), scripts)
}

/// The language assigned to the run that starts at `i`: detected within the
/// run's text, constrained to the run's script, then confined.
pub open spec fn eff_run_language(
    s: Seq<char>,
    i: int,
    extra: Seq<char>,
    scripts: Option<Vec<Script>>,
    langs: Option<Vec<Language>>,
) -> Language {
    restrict_language(
        language_of_spec(
            eff_run_script(s, i, extra, scripts),
            s.subrange(i, run_end(s, i, extra)),
        ),
        langs,
    )
}

/// The tokens the pipeline plans for `s` from position `i` on, when the
/// current script run reaches to `b` and carries script `sc` and language
/// `lg`. At `i == b` the next run is opened: its end, script and language
/// are computed and the walk continues inside it; otherwise one minimal
/// span of the current run is emitted. This is the functional model of the
/// whole pipeline for runs served by the generic segmenter.
pub open spec fn plan_from(
    s: Seq<char>,
    i: int,
    b: int,
    sc: Script,
    lg: Language,
    extra: Seq<char>,
    scripts: Option<Vec<Script>>,
    langs: Option<Vec<Language>>,
) -> Seq<PlannedUnit>
    decreases s.len() - b, b - i,
        when 0 <= i <= b <= s.len()
        via plan_from_dec
{
    if i >= s.len() {
        Seq::empty()
    } else if i == b {
        plan_from(
            s,
            i,
            run_end(s, i, extra),
            eff_run_script(s, i, extra, scripts),
            eff_run_language(s, i, extra, scripts, langs),
            extra,
            scripts,
            langs,
        )
    } else {
        seq![(sc, lg, i, next_cut(s, i, b, extra))] + plan_from(
            s,
            next_cut(s, i, b, extra),
            b,
            sc,
            lg,
            extra,
            scripts,
            langs,
        )
    }
}

#[via_fn]
proof fn plan_from_dec(
    s: Seq<char>,
    i: int,
    b: int,
    sc: Script,
    lg: Language,
    extra: Seq<char>,
    scripts: Option<Vec<Script>>,
    langs: Option<Vec<Language>>,
) {
    if i < s.len() {
        if i == b {
            lemma_run_end(s, i, extra);
        } else {
            lemma_next_cut(s, i, b, extra);
        }
    }
}

/// The tokens the pipeline plans for the whole of `s`.
pub open spec fn plan(
    s: Seq<char>,
    extra: Seq<char>,
    scripts: Option<Vec<Script>>,
    langs: Option<Vec<Language>>,
) -> Seq<PlannedUnit> {
    plan_from(s, 0, 0, Script::Other, Language::Other, extra, scripts, langs)
}

/// True when some run of `s` from position `i` on is dispatched to the
/// Japanese segmenter under the given configuration.
pub open spec fn uses_japanese_from(
    s: Seq<char>,
    i: int,
    extra: Seq<char>,
    scripts: Option<Vec<Script>>,
    langs: Option<Vec<Language>>,
    jp: bool,
) -> bool
    decreases s.len() - i,
        when 0 <= i <= s.len()
        via uses_japanese_from_dec
{
    if i >= s.len() {
        false
    } else {
        dispatch_spec(
            jp,
            eff_run_script(s, i, extra, scripts),
            eff_run_language(s, i, extra, scripts, langs),
        ) is Japanese || uses_japanese_from(s, run_end(s, i, extra), extra, scripts, langs, jp)
    }
}

#[via_fn]
proof fn uses_japanese_from_dec(
    s: Seq<char>,
    i: int,
    extra: Seq<char>,
    scripts: Option<Vec<Script>>,
    langs: Option<Vec<Language>>,
    jp: bool,
) {
    if i < s.len() {
        lemma_run_end(s, i, extra);
    }
}

/// With the Japanese segmenter disabled, no run is dispatched to it.
pub proof fn lemma_no_japanese_when_disabled(
    s: Seq<char>,
    i: int,
    extra: Seq<char>,
    scripts: Option<Vec<Script>>,
    langs: Option<Vec<Language>>,
)
    requires
        0 <= i <= s.len(),
    ensures
        !uses_japanese_from(s, i, extra, scripts, langs, false),
    decreases s.len() - i,
{
    if i < s.len() {
        lemma_run_end(s, i, extra);
        lemma_no_japanese_when_disabled(s, run_end(s, i, extra), extra, scripts, langs);
    }
}

/// True when some token of `toks` starts exactly at position `i` of the
/// input.
pub open spec fn aligns(toks: Seq<Token>, i: int) -> bool {
    exists|a: int| 0 <= a < toks.len() && (#[trigger] toks[a]).char_start == i
}

/// Position `i` of `s` is a script-run boundary reachable from position
/// `j`: walking whole runs from `j` lands exactly on `i`.
pub open spec fn chain_reaches(s: Seq<char>, j: int, i: int, extra: Seq<char>) -> bool
    decreases i - j,
        when 0 <= j <= i <= s.len()
        via chain_reaches_dec
{
    if j >= i {
        j == i
    } else if j >= s.len() {
        false
    } else if run_end(s, j, extra) > i {
        false
    } else {
        chain_reaches(s, run_end(s, j, extra), i, extra)
    }
}

#[via_fn]
proof fn chain_reaches_dec(s: Seq<char>, j: int, i: int, extra: Seq<char>) {
    if j < i && j < s.len() && run_end(s, j, extra) <= i {
        lemma_run_end(s, j, extra);
    }
}

/// Every script run of `s` that starts in `[i, b)` starts at a token
/// boundary of `toks`: the run's first character is some token's first
/// character. Together with contiguous coverage this makes the tokens of
/// one run a contiguous block between the run's own boundaries, so each
/// run's tokens are exactly one per piece of a lossless segmentation of
/// that run.
pub open spec fn runs_start_tokens(
    s: Seq<char>,
    toks: Seq<Token>,
    i: int,
    b: int,
    extra: Seq<char>,
) -> bool
    decreases s.len() - i,
        when 0 <= i <= s.len()
        via runs_start_tokens_dec
{
    if i >= b || i >= s.len() {
        true
    } else {
        aligns(toks, i) && runs_start_tokens(s, toks, run_end(s, i, extra), b, extra)
    }
}

#[via_fn]
proof fn runs_start_tokens_dec(s: Seq<char>, toks: Seq<Token>, i: int, b: int, extra: Seq<char>) {
    if i < b && i < s.len() {
        lemma_run_end(s, i, extra);
    }
}

/// Alignment is kept when tokens are appended: the tokens already in place
/// keep their starting positions.
proof fn lemma_runs_start_tokens_grow(
    s: Seq<char>,
    t1: Seq<Token>,
    t2: Seq<Token>,
    i: int,
    b: int,
    extra: Seq<char>,
)
    requires
        0 <= i <= s.len(),
        t1.len() <= t2.len(),
        forall|k: int| 0 <= k < t1.len() ==> (#[trigger] t2[k]).char_start == t1[k].char_start,
        runs_start_tokens(s, t1, i, b, extra),
    ensures
        runs_start_tokens(s, t2, i, b, extra),
    decreases s.len() - i,
{
    if i < b && i < s.len() {
        lemma_run_end(s, i, extra);
        let a = choose|a: int| 0 <= a < t1.len() && (#[trigger] t1[a]).char_start == i;
        assert(t2[a].char_start == i);
        assert(aligns(t2, i));
        lemma_runs_start_tokens_grow(s, t1, t2, run_end(s, i, extra), b, extra);
    }
}

/// A reachable boundary stays reachable one run further.
proof fn lemma_chain_step(s: Seq<char>, j: int, i: int, extra: Seq<char>)
    requires
        0 <= j <= i < s.len(),
        chain_reaches(s, j, i, extra),
    ensures
        chain_reaches(s, j, run_end(s, i, extra), extra),
    decreases i - j,
{
    lemma_run_end(s, i, extra);
    if j < i {
        lemma_run_end(s, j, extra);
        lemma_chain_step(s, run_end(s, j, extra), i, extra);
    } else {
        assert(chain_reaches(s, run_end(s, i, extra), run_end(s, i, extra), extra));
    }
}

/// The aligned range is extended by one run, once the run that starts at
/// its edge starts a token too.
proof fn lemma_runs_start_tokens_extend(
    s: Seq<char>,
    toks: Seq<Token>,
    j: int,
    i: int,
    extra: Seq<char>,
)
    requires
        0 <= j <= i <= s.len(),
        chain_reaches(s, j, i, extra),
        runs_start_tokens(s, toks, j, i, extra),
        i < s.len() ==> aligns(toks, i),
    ensures
        runs_start_tokens(
            s,
            toks,
            j,
            if i < s.len() {
                run_end(s, i, extra)
            } else {
                i
            },
            extra,
        ),
    decreases i - j,
{
    if i < s.len() {
        lemma_run_end(s, i, extra);
    }
    let e = if i < s.len() {
        run_end(s, i, extra)
    } else {
        i
    };
    if j == i {
        if i < s.len() {
            assert(runs_start_tokens(s, toks, e, e, extra));
            assert(runs_start_tokens(s, toks, i, e, extra));
        }
    } else {
        lemma_run_end(s, j, extra);
        lemma_runs_start_tokens_extend(s, toks, run_end(s, j, extra), i, extra);
    }
}

/// Where a lossless segmentation of `s[i..e]` has placed its units so far:
/// when the first `k` units reach from `i` to `pos`, unit `k` is exactly
/// the characters of `s` from `pos` on, and extends the reach by its
/// length, never past `e`.
proof fn lemma_next_unit_span(units: Seq<String>, s: Seq<char>, i: int, pos: int, e: int, k: int)
    requires
        0 <= i <= pos <= e <= s.len(),
        0 <= k < units.len(),
        concat_strs(units) == s.subrange(i, e),
        concat_strs(units.take(k)) == s.subrange(i, pos),
    ensures
        pos + units[k]@.len() <= e,
        units[k]@ == s.subrange(pos, pos + units[k]@.len() as int),
        concat_strs(units.take(k + 1)) == s.subrange(i, pos + units[k]@.len() as int),
{
    let pre = units.take(k);
    let post = units.take(k + 1);
    let clen = units[k]@.len() as int;
    assert(post.drop_last() =~= pre);
    assert(post.last() == units[k]);
    assert(concat_strs(post) == concat_strs(pre) + units[k]@);
    lemma_concat_strs_prefix(units, k + 1);
    let lb = concat_strs(post).len() as int;
    assert(concat_strs(pre).len() == pos - i);
    assert(lb == pos - i + clen);
    assert(concat_strs(post).len() <= concat_strs(units).len());
    assert(pos - i + clen <= e - i);
    assert(concat_strs(post) == concat_strs(units).take(lb));
    assert(units[k]@ =~= concat_strs(post).subrange(pos - i, lb));
    assert(concat_strs(post).subrange(pos - i, lb) =~= concat_strs(units).subrange(
        pos - i,
        lb,
    ));
    assert(concat_strs(units).subrange(pos - i, lb) =~= s.subrange(pos, pos + clen));
    assert(concat_strs(post) =~= s.subrange(i, pos + clen));
}

/// Tokens `a` through `l` of `toks` are a block reaching from position `i`
/// to position `e` of the input: the first starts at `i`, the last ends at
/// `e`.
pub open spec fn token_block(toks: Seq<Token>, a: int, l: int, i: int, e: int) -> bool {
    &&& 0 <= a <= l < toks.len()
    &&& (toks[a].char_start as int) == i
    &&& (toks[l].char_end as int) == e
}

proof fn lemma_aligned_at(
    s: Seq<char>,
    toks: Seq<Token>,
    j: int,
    i: int,
    b: int,
    extra: Seq<char>,
)
    requires
        0 <= j <= i < s.len(),
        i < b <= s.len(),
        chain_reaches(s, j, i, extra),
        runs_start_tokens(s, toks, j, b, extra),
    ensures
        aligns(toks, i),
    decreases i - j,
{
    if j < i {
        lemma_run_end(s, j, extra);
        lemma_aligned_at(s, toks, run_end(s, j, extra), i, b, extra);
    }
}

proof fn lemma_starts_increase(input: Seq<char>, toks: Seq<Token>, upto: int, k1: int, k2: int)
    requires
        tokens_cover_upto(input, toks, upto),
        0 <= k1 < k2 < toks.len(),
    ensures
        (toks[k1].char_start as int) < (toks[k2].char_start as int),
    decreases k2 - k1,
{
    if k2 > k1 + 1 {
        lemma_starts_increase(input, toks, upto, k1, k2 - 1);
    }
    assert((toks[k2 - 1].char_end as int) == (toks[k2].char_start as int));
}

/// Script-run consistency over a whole tokenization: for every script run
/// of the input, the tokens of a successful `tokenize` that cover the run
/// form one contiguous block, from a token starting at the run's first
/// character to a token ending at the run's end. The premises are exactly
/// `tokenize`'s postconditions; `i` is any run boundary (`chain_reaches`
/// walks the runs from the start of the input). Within the block, the
/// spans are the segmenter's own pieces of the run: the plan's for a
/// generic run, and — per [`Tokenizer::tokens_from_units`] — one token per
/// validated engine unit for a run dispatched to the Japanese segmenter.
pub proof fn lemma_run_token_block(s: Seq<char>, toks: Seq<Token>, i: int, extra: Seq<char>)
    requires
        tokens_cover_upto(s, toks, s.len() as int),
        runs_start_tokens(s, toks, 0, s.len() as int, extra),
        chain_reaches(s, 0, i, extra),
        0 <= i < s.len(),
    ensures
        exists|a: int, l: int| token_block(toks, a, l, i, run_end(s, i, extra)),
{
    lemma_run_end(s, i, extra);
    let e = run_end(s, i, extra);
    lemma_aligned_at(s, toks, 0, i, s.len() as int, extra);
    let a = choose|a: int| 0 <= a < toks.len() && (#[trigger] toks[a]).char_start == i;
    if e == s.len() {
        let l = toks.len() - 1;
        assert(toks.len() > 0);
        assert(token_block(toks, a, l, i, e));
    } else {
        lemma_chain_step(s, 0, i, extra);
        lemma_aligned_at(s, toks, 0, e, s.len() as int, extra);
        let c = choose|c: int| 0 <= c < toks.len() && (#[trigger] toks[c]).char_start == e;
        assert(toks[0].char_start == 0);
        assert(c != 0) by {
            if c == 0 {
                assert((toks[0].char_start as int) == e);
            }
        }
        assert((toks[c - 1].char_end as int) == (toks[c].char_start as int));
        assert(a < c) by {
            if a > c {
                lemma_starts_increase(s, toks, s.len() as int, c, a);
            }
        }
        assert(token_block(toks, a, c - 1, i, e));
    }
}

/// Everything a token promises about itself, relative to the input it was
/// cut from: its range is a real, non-empty range of the input; its original
/// span is exactly that range of the input; its kind is the classification
/// of that span; and its lemma is the normalization of that span under the
/// token's own script.
pub open spec fn wf_token(
    input: Seq<char>,
    extra: Seq<char>,
    opts: NormalizerOptions,
    t: Token,
) -> bool {
    &&& (t.char_start as int) < (t.char_end as int) <= input.len()
    &&& t.original@ == input.subrange(t.char_start as int, t.char_end as int)
    &&& t.kind == classify_spec(t.original@, extra)
    &&& t.lemma@ == normalize_spec(opts, t.script, t.original@)
}

/// The tokens' ranges are strictly increasing, contiguous, and cover
/// `[0, upto)` exactly: no gaps, no overlaps, no truncation.
pub open spec fn tokens_cover_upto(input: Seq<char>, toks: Seq<Token>, upto: int) -> bool {
    &&& (toks.len() == 0 ==> upto == 0)
    &&& (toks.len() > 0 ==> toks[0].char_start == 0 && toks[toks.len() - 1].char_end as int
        == upto)
    &&& (forall|k: int|
        0 <= k < toks.len() ==> ((#[trigger] toks[k]).char_start as int) < (toks[k].char_end
            as int) <= input.len())
    &&& (forall|k1: int, k2: int|
        0 <= k1 && k1 + 1 == k2 && k2 < toks.len() ==> ((#[trigger] toks[k1]).char_end as int)
            == ((#[trigger] toks[k2]).char_start as int))
}

/// The characters of the tokens' original spans, concatenated in order.
pub open spec fn concat_originals(toks: Seq<Token>) -> Seq<char>
    decreases toks.len(),
{
    if toks.len() == 0 {
        Seq::empty()
    } else {
        concat_originals(toks.drop_last()) + toks.last().original@
    }
}

proof fn lemma_reconstruction_upto(input: Seq<char>, toks: Seq<Token>, upto: int)
    requires
        0 <= upto <= input.len(),
        tokens_cover_upto(input, toks, upto),
        forall|k: int|
            0 <= k < toks.len() ==> (#[trigger] toks[k]).original@ == input.subrange(
                toks[k].char_start as int,
                toks[k].char_end as int,
            ),
    ensures
        concat_originals(toks) == input.take(upto),
    decreases toks.len(),
{
    if toks.len() == 0 {
        assert(concat_originals(toks) =~= input.take(upto));
    } else {
        let dl = toks.drop_last();
        let last = toks.last();
        assert(forall|k: int| 0 <= k < dl.len() ==> dl[k] == toks[k]);
        lemma_reconstruction_upto(input, dl, last.char_start as int);
        assert(concat_originals(toks) == concat_originals(dl) + last.original@);
        assert(input.take(last.char_start as int) + input.subrange(last.char_start as int, upto)
            =~= input.take(upto));
    }
}

/// Lossless reconstruction: concatenating every token's original span, in
/// order, reproduces the input exactly. This holds of any token sequence
/// whose ranges cover the input and whose spans are cut from it, which
/// `tokenize` guarantees of its output.
pub proof fn lemma_reconstruction(input: Seq<char>, toks: Seq<Token>)
    requires
        tokens_cover_upto(input, toks, input.len() as int),
        forall|k: int|
            0 <= k < toks.len() ==> (#[trigger] toks[k]).original@ == input.subrange(
                toks[k].char_start as int,
                toks[k].char_end as int,
            ),
    ensures
        concat_originals(toks) == input,
{
    lemma_reconstruction_upto(input, toks, input.len() as int);
    assert(input.take(input.len() as int) =~= input);
}

/// The bounds the generic segmenter produces when run directly on
/// `s[i..b]`: one piece per minimal span, in order.
pub open spec fn generic_units(s: Seq<char>, i: int, b: int, extra: Seq<char>) -> Seq<(int, int)>
    decreases b - i,
        when 0 <= i <= b <= s.len()
        via generic_units_dec
{
    if i >= b {
        Seq::empty()
    } else {
        seq![(i, next_cut(s, i, b, extra))] + generic_units(
            s,
            next_cut(s, i, b, extra),
            b,
            extra,
        )
    }
}

#[via_fn]
proof fn generic_units_dec(s: Seq<char>, i: int, b: int, extra: Seq<char>) {
    if i < b {
        lemma_next_cut(s, i, b, extra);
    }
}

/// The planned units of one generic run, carrying the run's script and
/// language.
pub open spec fn run_units(
    s: Seq<char>,
    i: int,
    b: int,
    sc: Script,
    lg: Language,
    extra: Seq<char>,
) -> Seq<PlannedUnit> {
    generic_units(s, i, b, extra).map_values(|p: (int, int)| (sc, lg, p.0, p.1))
}

/// Within a run, the plan is the run's own units followed by the plan of
/// what comes after the run.
proof fn lemma_plan_run_decomposition(
    s: Seq<char>,
    i: int,
    b: int,
    sc: Script,
    lg: Language,
    extra: Seq<char>,
    scripts: Option<Vec<Script>>,
    langs: Option<Vec<Language>>,
)
    requires
        0 <= i <= b <= s.len(),
    ensures
        plan_from(s, i, b, sc, lg, extra, scripts, langs) == run_units(s, i, b, sc, lg, extra)
            + plan_from(s, b, b, sc, lg, extra, scripts, langs),
    decreases b - i,
{
    if i >= b {
        assert(run_units(s, i, b, sc, lg, extra) =~= Seq::<PlannedUnit>::empty());
        assert(plan_from(s, i, b, sc, lg, extra, scripts, langs) =~= Seq::<
            PlannedUnit,
        >::empty() + plan_from(s, b, b, sc, lg, extra, scripts, langs));
    } else {
        lemma_next_cut(s, i, b, extra);
        let nc = next_cut(s, i, b, extra);
        lemma_plan_run_decomposition(s, nc, b, sc, lg, extra, scripts, langs);
        assert(run_units(s, i, b, sc, lg, extra) =~= seq![(sc, lg, i, nc)] + run_units(
            s,
            nc,
            b,
            sc,
            lg,
            extra,
        ));
        assert(plan_from(s, i, b, sc, lg, extra, scripts, langs) =~= run_units(
            s,
            i,
            b,
            sc,
            lg,
            extra,
        ) + plan_from(s, b, b, sc, lg, extra, scripts, langs));
    }
}

/// At a run boundary the plan does not depend on the carried script and
/// language.
proof fn lemma_plan_boundary_params(
    s: Seq<char>,
    b: int,
    sc1: Script,
    lg1: Language,
    sc2: Script,
    lg2: Language,
    extra: Seq<char>,
    scripts: Option<Vec<Script>>,
    langs: Option<Vec<Language>>,
)
    requires
        0 <= b <= s.len(),
    ensures
        plan_from(s, b, b, sc1, lg1, extra, scripts, langs) == plan_from(
            s,
            b,
            b,
            sc2,
            lg2,
            extra,
            scripts,
            langs,
        ),
{
}

/// Script-run consistency: for a text that forms a single script run, the
/// pipeline plans exactly the bounds that the run's segmenter produces when
/// run directly on the whole text, each carrying the run's script and
/// language.
pub proof fn lemma_script_run_consistency(
    s: Seq<char>,
    extra: Seq<char>,
    scripts: Option<Vec<Script>>,
    langs: Option<Vec<Language>>,
)
    requires
        s.len() > 0,
        run_end(s, 0, extra) == s.len(),
    ensures
        plan(s, extra, scripts, langs) == run_units(
            s,
            0,
            s.len() as int,
            eff_run_script(s, 0, extra, scripts),
            eff_run_language(s, 0, extra, scripts, langs),
            extra,
        ),
{
    let rsc = eff_run_script(s, 0, extra, scripts);
    let rlg = eff_run_language(s, 0, extra, scripts, langs);
    let b = s.len() as int;
    assert(plan(s, extra, scripts, langs) == plan_from(s, 0, b, rsc, rlg, extra, scripts, langs));
    lemma_plan_run_decomposition(s, 0, b, rsc, rlg, extra, scripts, langs);
    assert(plan_from(s, b, b, rsc, rlg, extra, scripts, langs) =~= Seq::<PlannedUnit>::empty());
    assert(run_units(s, 0, b, rsc, rlg, extra) + Seq::<PlannedUnit>::empty() =~= run_units(
        s,
        0,
        b,
        rsc,
        rlg,
        extra,
    ));
}

/// The model view of one produced token.
pub open spec fn tok_tuple(t: Token) -> PlannedUnit {
    (t.script, t.language, t.char_start as int, t.char_end as int)
}

/// The model view of a produced token sequence.
pub open spec fn tok_tuples(toks: Seq<Token>) -> Seq<PlannedUnit> {
    toks.map_values(|t: Token| tok_tuple(t))
}

/// The detected script, confined to the admissible set.
fn script_allowed(sc: Script, allowed: &Option<Vec<Script>>) -> (r: Script)
    ensures
        r == restrict_script(sc, *allowed),
{
    match allowed {
        Option::None => sc,
        Option::Some(v) => {
            let mut k: usize = 0;
            while k < v.len()
                invariant
                    *allowed == Option::Some(*v),
                    k <= v@.len(),
                    forall|j: int| 0 <= j < k ==> v@[j] != sc,
                decreases v@.len() - k,
            {
                if v[k] == sc {
                    proof {
                        assert(v@[k as int] == sc);
                        assert(v@.contains(sc));
                    }
                    return sc;
                }
                k += 1;
            }
            proof {
                if v@.contains(sc) {
                    let j = choose|j: int| 0 <= j < v@.len() && v@[j] == sc;
                }
            }
            Script::Other
        },
    }
}

/// The detected language, confined to the admissible set.
fn language_allowed(lg: Language, allowed: &Option<Vec<Language>>) -> (r: Language)
    ensures
        r == restrict_language(lg, *allowed),
{
    match allowed {
        Option::None => lg,
        Option::Some(v) => {
            let mut k: usize = 0;
            while k < v.len()
                invariant
                    *allowed == Option::Some(*v),
                    k <= v@.len(),
                    forall|j: int| 0 <= j < k ==> v@[j] != lg,
                decreases v@.len() - k,
            {
                if v[k] == lg {
                    proof {
                        assert(v@[k as int] == lg);
                        assert(v@.contains(lg));
                    }
                    return lg;
                }
                k += 1;
            }
            proof {
                if v@.contains(lg) {
                    let j = choose|j: int| 0 <= j < v@.len() && v@[j] == lg;
                }
            }
            Language::Other
        },
    }
}

/// The tokenizer: an immutable configuration of the pipeline. Holds no
/// mutable shared state, so one tokenizer may serve many calls; each call
/// works on its own input and owns its own output.
pub struct Tokenizer {
    /// The registered Japanese segmenter, when one is enabled.
    pub japanese: Option<JapaneseSegmenter>,
    /// Characters the classifier and segmenter treat as separators in
    /// addition to the built-in table.
    pub extra_separators: Vec<char>,
    /// The admissible scripts; detected scripts outside the set fall back
    /// to `Other`, and from there to the generic segmenter.
    pub allowed_scripts: Option<Vec<Script>>,
    /// The admissible languages; detected languages outside the set fall
    /// back to `Other`.
    pub allowed_languages: Option<Vec<Language>>,
    /// Which transforms of the normalizer chain are enabled.
    pub normalizer_options: NormalizerOptions,
}

impl Tokenizer {
    /// True when a Japanese segmenter is registered.
    pub open spec fn japanese_enabled(&self) -> bool {
        self.japanese is Some
    }

    /// Cuts, classifies and normalizes the run `chars[i..e]` with the
    /// generic segmenter, appending one token per minimal span.
    #[verifier::rlimit(100)]
    fn push_generic_run(
        &self,
        chars: &Vec<char>,
        text: &str,
        i: usize,
        e: usize,
        sc_eff: Script,
        lg_eff: Language,
        toks: &mut Vec<Token>,
    )
        requires
            chars@ == text@,
            i < e <= chars@.len(),
            tokens_cover_upto(text@, old(toks)@, i as int),
            forall|k: int|
                0 <= k < old(toks)@.len() ==> wf_token(
                    text@,
                    self.extra_separators@,
                    self.normalizer_options,
                    old(toks)@[k],
                ),
        ensures
            tokens_cover_upto(text@, final(toks)@, e as int),
            forall|k: int|
                0 <= k < final(toks)@.len() ==> wf_token(
                    text@,
                    self.extra_separators@,
                    self.normalizer_options,
                    final(toks)@[k],
                ),
            tok_tuples(final(toks)@) == tok_tuples(old(toks)@) + run_units(
                text@,
                i as int,
                e as int,
                sc_eff,
                lg_eff,
                self.extra_separators@,
            ),
    {
        let ghost s = text@;
        let ghost extra = self.extra_separators@;
        let ghost base = toks@;
        let mut j: usize = i;
        proof {
            assert(run_units(s, i as int, i as int, sc_eff, lg_eff, extra) =~= Seq::<
                PlannedUnit,
            >::empty());
            assert(tok_tuples(toks@) + run_units(s, j as int, e as int, sc_eff, lg_eff, extra)
                =~= tok_tuples(base) + run_units(s, i as int, e as int, sc_eff, lg_eff, extra));
        }
        while j < e
            invariant
                s == text@,
                chars@ == s,
                extra == self.extra_separators@,
                i <= j <= e <= s.len(),
                tokens_cover_upto(s, toks@, j as int),
                forall|k: int|
                    0 <= k < toks@.len() ==> wf_token(
                        s,
                        extra,
                        self.normalizer_options,
                        toks@[k],
                    ),
                tok_tuples(toks@) + run_units(s, j as int, e as int, sc_eff, lg_eff, extra)
                    == tok_tuples(base) + run_units(s, i as int, e as int, sc_eff, lg_eff, extra),
            decreases e - j,
        {
            let cut = next_cut_exec(chars, j, e, &self.extra_separators);
            proof {
                lemma_next_cut(s, j as int, e as int, extra);
            }
            let kind = classify_range(chars, j, cut, &self.extra_separators);
            let lemma = normalize_range(chars, j, cut, &self.normalizer_options, sc_eff);
            let original = text.substring_char(j, cut).to_owned();
            let ghost old_toks = toks@;
            let t = Token {
                lemma,
                original,
                char_start: j,
                char_end: cut,
                kind,
                script: sc_eff,
                language: lg_eff,
            };
            toks.push(t);
            proof {
                assert(forall|k: int| 0 <= k < old_toks.len() ==> toks@[k] == old_toks[k]);
                assert(tok_tuples(toks@) =~= tok_tuples(old_toks).push(tok_tuple(t)));
                assert(run_units(s, j as int, e as int, sc_eff, lg_eff, extra) =~= seq![
                    (sc_eff, lg_eff, j as int, cut as int),
                ] + run_units(s, cut as int, e as int, sc_eff, lg_eff, extra));
                assert(tok_tuples(toks@) + run_units(s, cut as int, e as int, sc_eff, lg_eff,
                    extra) =~= tok_tuples(old_toks) + run_units(
                    s,
                    j as int,
                    e as int,
                    sc_eff,
                    lg_eff,
                    extra,
                ));
            }
            j = cut;
        }
        proof {
            assert(run_units(s, e as int, e as int, sc_eff, lg_eff, extra) =~= Seq::<
                PlannedUnit,
            >::empty());
            assert(tok_tuples(toks@) + Seq::<PlannedUnit>::empty() =~= tok_tuples(toks@));
        }
    }

    /// The tokens of one run segmented by a specialized engine, built from
    /// the engine's validated units: exactly one token is appended per unit,
    /// in order, each unit being that token's original span, classified and
    /// normalized like every other token and carrying the run's script and
    /// language. Together with [`JapaneseSegmenter::segment_str`], whose
    /// accepted answer meets this function's preconditions, this is the
    /// pipeline's whole use of the engine's answer: a run dispatched to the
    /// Japanese segmenter yields exactly the units the engine returned for
    /// it.
    #[verifier::rlimit(100)]
    pub fn tokens_from_units(
        &self,
        units: &Vec<String>,
        chars: &Vec<char>,
        text: &str,
        i: usize,
        e: usize,
        sc_eff: Script,
        lg_eff: Language,
        toks: &mut Vec<Token>,
    )
        requires
            chars@ == text@,
            i < e <= chars@.len(),
            concat_strs(units@) == text@.subrange(i as int, e as int),
            forall|j: int| 0 <= j < units@.len() ==> (#[trigger] units@[j])@.len() > 0,
            tokens_cover_upto(text@, old(toks)@, i as int),
            forall|k: int|
                0 <= k < old(toks)@.len() ==> wf_token(
                    text@,
                    self.extra_separators@,
                    self.normalizer_options,
                    old(toks)@[k],
                ),
        ensures
            final(toks)@.len() == old(toks)@.len() + units@.len(),
            forall|j: int| 0 <= j < old(toks)@.len() ==> final(toks)@[j] == old(toks)@[j],
            forall|j: int|
                0 <= j < units@.len() ==> (#[trigger] final(toks)@[old(toks)@.len() + j]).original@
                    == units@[j]@ && final(toks)@[old(toks)@.len() + j].script == sc_eff
                    && final(toks)@[old(toks)@.len() + j].language == lg_eff,
            tokens_cover_upto(text@, final(toks)@, e as int),
            forall|k: int|
                0 <= k < final(toks)@.len() ==> wf_token(
                    text@,
                    self.extra_separators@,
                    self.normalizer_options,
                    final(toks)@[k],
                ),
    {
        let ghost s = text@;
        let ghost extra = self.extra_separators@;
        let ghost base = toks@;
        let ghost total = concat_strs(units@);
        let mut k: usize = 0;
        let mut pos: usize = i;
        proof {
            assert(concat_strs(units@.take(0)) =~= s.subrange(i as int, i as int));
        }
        while k < units.len()
            invariant
                s == text@,
                chars@ == s,
                extra == self.extra_separators@,
                i <= pos <= e <= s.len(),
                k <= units@.len(),
                total == concat_strs(units@),
                total == s.subrange(i as int, e as int),
                forall|j: int| 0 <= j < units@.len() ==> (#[trigger] units@[j])@.len() > 0,
                concat_strs(units@.take(k as int)) == s.subrange(i as int, pos as int),
                toks@.len() == base.len() + k,
                forall|j: int| 0 <= j < base.len() ==> toks@[j] == base[j],
                forall|j: int|
                    0 <= j < k ==> (#[trigger] toks@[base.len() + j]).original@ == units@[j]@
                        && toks@[base.len() + j].script == sc_eff && toks@[base.len()
                        + j].language == lg_eff,
                tokens_cover_upto(s, toks@, pos as int),
                forall|j: int|
                    0 <= j < toks@.len() ==> wf_token(
                        s,
                        extra,
                        self.normalizer_options,
                        toks@[j],
                    ),
            decreases units@.len() - k,
        {
            let piece = units[k].clone();
            let clen = piece.as_str().unicode_len();
            proof {
                lemma_next_unit_span(units@, s, i as int, pos as int, e as int, k as int);
                assert(piece@ == s.subrange(pos as int, pos as int + clen));
                assert(pos + clen <= e);
            }
            let kind = classify_range(chars, pos, pos + clen, &self.extra_separators);
            let lemma = normalize_range(chars, pos, pos + clen, &self.normalizer_options, sc_eff);
            let ghost old_toks = toks@;
            let t = Token {
                lemma,
                original: piece,
                char_start: pos,
                char_end: pos + clen,
                kind,
                script: sc_eff,
                language: lg_eff,
            };
            toks.push(t);
            proof {
                assert(forall|j: int| 0 <= j < old_toks.len() ==> toks@[j] == old_toks[j]);
            }
            pos = pos + clen;
            k += 1;
        }
        proof {
            assert(units@.take(units@.len() as int) =~= units@);
            assert(s.subrange(i as int, pos as int) == s.subrange(i as int, e as int));
            assert(s.subrange(i as int, pos as int).len() == s.subrange(i as int, e as int).len());
            assert(pos == e);
        }
    }

    /// Turns `text` into its sequence of tokens.
    ///
    /// On success the tokens' ranges are strictly increasing, contiguous and
    /// cover the whole input (lossless reconstruction), and every token is
    /// cut, classified and normalized exactly as [`wf_token`] states, and
    /// every script run starts at a token boundary ([`runs_start_tokens`]),
    /// so the tokens of one run form a contiguous block between the run's
    /// own boundaries. When no run of the input is dispatched to the
    /// Japanese segmenter the result is owed and is exactly the pipeline's
    /// plan; a run dispatched to the Japanese segmenter contributes, per
    /// the contract of [`Tokenizer::tokens_from_units`], exactly one token
    /// per validated engine unit, each unit that token's original span — or
    /// the error the engine reported, which poisons nothing beyond this
    /// call.
    #[verifier::rlimit(100)]
    pub fn tokenize(&self, text: &str) -> (r: Result<Vec<Token>, TokenizeError>)
        ensures
            match r {
                Ok(toks) => {
                    &&& tokens_cover_upto(text@, toks@, text@.len() as int)
                    &&& forall|k: int|
                        0 <= k < toks@.len() ==> wf_token(
                            text@,
                            self.extra_separators@,
                            self.normalizer_options,
                            toks@[k],
                        )
                    &&& runs_start_tokens(
                        text@,
                        toks@,
                        0,
                        text@.len() as int,
                        self.extra_separators@,
                    )
                    &&& (!uses_japanese_from(
                        text@,
                        0,
                        self.extra_separators@,
                        self.allowed_scripts,
                        self.allowed_languages,
                        self.japanese_enabled(),
                    ) ==> tok_tuples(toks@) == plan(
                        text@,
                        self.extra_separators@,
                        self.allowed_scripts,
                        self.allowed_languages,
                    ))
                },
                Err(e) => {
                    &&& (e is ResourceInitialization || e is Segmentation)
                    &&& uses_japanese_from(
                        text@,
                        0,
                        self.extra_separators@,
                        self.allowed_scripts,
                        self.allowed_languages,
                        self.japanese_enabled(),
                    )
                },
            },
    {
        let ghost s = text@;
        let ghost extra = self.extra_separators@;
        let ghost scripts = self.allowed_scripts;
        let ghost langs = self.allowed_languages;
        let ghost jp_on = self.japanese_enabled();
        let chars = chars_of(text);
        let n = chars.len();
        let jp_enabled = self.japanese.is_some();
        let mut toks: Vec<Token> = Vec::new();
        let mut i: usize = 0;
        proof {
            assert(tok_tuples(toks@) =~= Seq::<PlannedUnit>::empty());
            assert(plan(s, extra, scripts, langs) =~= Seq::<PlannedUnit>::empty() + plan_from(
                s,
                0,
                0,
                Script::Other,
                Language::Other,
                extra,
                scripts,
                langs,
            ));
            assert(chain_reaches(s, 0, 0, extra));
            assert(runs_start_tokens(s, toks@, 0, 0, extra));
        }
        while i < n
            invariant
                s == text@,
                chars@ == s,
                extra == self.extra_separators@,
                scripts == self.allowed_scripts,
                langs == self.allowed_languages,
                jp_on == self.japanese_enabled(),
                jp_enabled == (self.japanese is Some),
                i <= n == s.len(),
                tokens_cover_upto(s, toks@, i as int),
                forall|k: int|
                    0 <= k < toks@.len() ==> wf_token(
                        s,
                        extra,
                        self.normalizer_options,
                        toks@[k],
                    ),
                chain_reaches(s, 0, i as int, extra),
                runs_start_tokens(s, toks@, 0, i as int, extra),
                uses_japanese_from(s, i as int, extra, scripts, langs, jp_on)
                    ==> uses_japanese_from(s, 0, extra, scripts, langs, jp_on),
                !uses_japanese_from(s, 0, extra, scripts, langs, jp_on) ==> plan(
                    s,
                    extra,
                    scripts,
                    langs,
                ) == tok_tuples(toks@) + plan_from(
                    s,
                    i as int,
                    i as int,
                    Script::Other,
                    Language::Other,
                    extra,
                    scripts,
                    langs,
                ),
            decreases n - i,
        {
            let ghost toks_at_entry = toks@;
            let (sc_raw, e) = run_script_and_end(&chars, i, &self.extra_separators);
            let sc_eff = script_allowed(sc_raw, &self.allowed_scripts);
            let lg_raw = detect_language_range(&chars, i, e, sc_eff);
            let lg_eff = language_allowed(lg_raw, &self.allowed_languages);
            proof {
                assert(sc_eff == eff_run_script(s, i as int, extra, scripts));
                assert(lg_eff == eff_run_language(s, i as int, extra, scripts, langs));
                // opening the run in the model
                assert(plan_from(
                    s,
                    i as int,
                    i as int,
                    Script::Other,
                    Language::Other,
                    extra,
                    scripts,
                    langs,
                ) == plan_from(s, i as int, e as int, sc_eff, lg_eff, extra, scripts, langs));
                assert(uses_japanese_from(s, i as int, extra, scripts, langs, jp_on) == (
                dispatch_spec(jp_on, sc_eff, lg_eff) is Japanese || uses_japanese_from(
                    s,
                    e as int,
                    extra,
                    scripts,
                    langs,
                    jp_on,
                )));
            }
            let choice = dispatch(jp_enabled, sc_eff, lg_eff);
            match (choice, &self.japanese) {
                (SegmenterChoice::Japanese, Option::Some(jp)) => {
                    proof {
                        assert(uses_japanese_from(s, 0, extra, scripts, langs, jp_on));
                    }
                    let run_str = text.substring_char(i, e);
                    let units = match jp.segment_str(run_str) {
                        Ok(u) => u,
                        Err(err) => {
                            return Err(err);
                        },
                    };
                    proof {
                        assert(concat_strs(units@) == s.subrange(i as int, e as int));
                    }
                    self.tokens_from_units(&units, &chars, text, i, e, sc_eff, lg_eff, &mut toks);
                    proof {
                        let bl = toks_at_entry.len() as int;
                        assert(units@.len() > 0) by {
                            if units@.len() == 0 {
                                assert(concat_strs(units@) =~= Seq::<char>::empty());
                            }
                            assert(s.subrange(i as int, e as int).len() == e - i);
                        }
                        assert(toks@.len() == bl + units@.len());
                        if bl == 0 {
                            assert(i == 0);
                            assert((toks@[0].char_start as int) == 0);
                        } else {
                            assert(toks@[bl - 1] == toks_at_entry[bl - 1]);
                            assert((toks_at_entry[bl - 1].char_end as int) == i as int);
                            assert((toks@[bl - 1].char_end as int) == (toks@[bl].char_start
                                as int));
                        }
                        assert((toks@[bl].char_start as int) == i as int);
                        assert(aligns(toks@, i as int));
                        assert(forall|k: int|
                            0 <= k < bl ==> (#[trigger] toks@[k]).char_start
                                == toks_at_entry[k].char_start);
                        lemma_runs_start_tokens_grow(s, toks_at_entry, toks@, 0, i as int, extra);
                        lemma_runs_start_tokens_extend(s, toks@, 0, i as int, extra);
                        lemma_chain_step(s, 0, i as int, extra);
                    }
                },
                (_, _) => {
                    proof {
                        assert(dispatch_spec(jp_on, sc_eff, lg_eff) is Generic);
                    }
                    self.push_generic_run(&chars, text, i, e, sc_eff, lg_eff, &mut toks);
                    proof {
                        if !uses_japanese_from(s, 0, extra, scripts, langs, jp_on) {
                            lemma_plan_run_decomposition(
                                s,
                                i as int,
                                e as int,
                                sc_eff,
                                lg_eff,
                                extra,
                                scripts,
                                langs,
                            );
                            lemma_plan_boundary_params(
                                s,
                                e as int,
                                sc_eff,
                                lg_eff,
                                Script::Other,
                                Language::Other,
                                extra,
                                scripts,
                                langs,
                            );
                            assert(plan(s, extra, scripts, langs) =~= tok_tuples(toks@)
                                + plan_from(
                                s,
                                e as int,
                                e as int,
                                Script::Other,
                                Language::Other,
                                extra,
                                scripts,
                                langs,
                            ));
                        }
                        let bl = toks_at_entry.len() as int;
                        lemma_next_cut(s, i as int, e as int, extra);
                        let nc = next_cut(s, i as int, e as int, extra);
                        let ru = run_units(s, i as int, e as int, sc_eff, lg_eff, extra);
                        assert(generic_units(s, i as int, e as int, extra) == seq![
                            (i as int, nc),
                        ] + generic_units(s, nc, e as int, extra));
                        assert(ru.len() >= 1);
                        assert(ru[0] == (sc_eff, lg_eff, i as int, nc));
                        assert(tok_tuples(toks@).len() == bl + ru.len());
                        assert(toks@.len() > bl);
                        assert(tok_tuples(toks@)[bl] == ru[0]);
                        assert(tok_tuples(toks@)[bl] == tok_tuple(toks@[bl]));
                        assert((toks@[bl].char_start as int) == i as int);
                        assert(aligns(toks@, i as int));
                        assert forall|k: int| 0 <= k < bl implies (#[trigger] toks@[k]).char_start
                            == toks_at_entry[k].char_start by {
                            assert(tok_tuples(toks@)[k] == tok_tuples(toks_at_entry)[k]);
                            assert(tok_tuple(toks@[k]) == tok_tuple(toks_at_entry[k]));
                        }
                        lemma_runs_start_tokens_grow(s, toks_at_entry, toks@, 0, i as int, extra);
                        lemma_runs_start_tokens_extend(s, toks@, 0, i as int, extra);
                        lemma_chain_step(s, 0, i as int, extra);
                    }
                },
            }
            i = e;
        }
        proof {
            if !uses_japanese_from(s, 0, extra, scripts, langs, jp_on) {
                assert(plan_from(
                    s,
                    i as int,
                    i as int,
                    Script::Other,
                    Language::Other,
                    extra,
                    scripts,
                    langs,
                ) =~= Seq::<PlannedUnit>::empty());
                assert(tok_tuples(toks@) + Seq::<PlannedUnit>::empty() =~= tok_tuples(toks@));
            }
        }
        Ok(toks)
    }
}

/// Builds a [`Tokenizer`]. The configuration is validated once, at build
/// time: an invalid combination is reported before any tokenization, never
/// as a partial pipeline.
pub struct TokenizerBuilder {
    /// Request the Japanese segmenter backed by the IPADIC dictionary.
    pub japanese_ipadic: bool,
    /// Request the Japanese segmenter backed by the UniDic dictionary.
    pub japanese_unidic: bool,
    /// An optional caller-supplied user-dictionary location for the
    /// Japanese segmenter, loaded beside its embedded dictionary and passed
    /// through uninterpreted.
    pub japanese_dictionary_override: Option<String>,
    /// Separator characters to add to the classifier's table.
    pub extra_separators: Vec<char>,
    /// The admissible scripts, or `None` for all.
    pub allowed_scripts: Option<Vec<Script>>,
    /// The admissible languages, or `None` for all.
    pub allowed_languages: Option<Vec<Language>>,
    /// Which transforms of the normalizer chain stay enabled.
    pub normalizer_options: NormalizerOptions,
}

impl TokenizerBuilder {
    /// A builder with nothing requested: no specialized segmenter, no extra
    /// separators, every script and language admitted, the default
    /// normalizer chain.
    pub fn new() -> (r: TokenizerBuilder)
        ensures
            !r.japanese_ipadic,
            !r.japanese_unidic,
            r.japanese_dictionary_override is None,
            r.extra_separators@ == Seq::<char>::empty(),
            r.allowed_scripts is None,
            r.allowed_languages is None,
            r.normalizer_options == NormalizerOptions::default_spec(),
    {
        TokenizerBuilder {
            japanese_ipadic: false,
            japanese_unidic: false,
            japanese_dictionary_override: None,
            extra_separators: Vec::new(),
            allowed_scripts: None,
            allowed_languages: None,
            normalizer_options: NormalizerOptions {
                compatibility_decomposition: true,
                diacritic_strip: true,
                case_fold: true,
            },
        }
    }

    /// Validates the configuration and builds the tokenizer. The two
    /// Japanese dictionary variants are mutually exclusive: requesting both
    /// is a configuration error, reported here and never later.
    pub fn build(self) -> (r: Result<Tokenizer, TokenizeError>)
        ensures
            self.japanese_ipadic && self.japanese_unidic <==> r is Err,
            r is Err ==> r->Err_0 is Configuration,
            r is Ok ==> {
                let t = r->Ok_0;
                &&& (t.japanese_enabled() <==> (self.japanese_ipadic || self.japanese_unidic))
                &&& (t.japanese matches Some(js) ==> js.kind_spec() == (if self.japanese_ipadic {
                    JapaneseDictionaryKind::Ipadic
                } else {
                    JapaneseDictionaryKind::Unidic
                }) && js.dictionary_override_spec() == self.japanese_dictionary_override)
                &&& t.extra_separators@ == self.extra_separators@
                &&& t.allowed_scripts == self.allowed_scripts
                &&& t.allowed_languages == self.allowed_languages
                &&& t.normalizer_options == self.normalizer_options
            },
    {
        if self.japanese_ipadic && self.japanese_unidic {
            return Err(
                TokenizeError::Configuration(
                    String::from_str("the two Japanese dictionary variants are mutually exclusive"),
                ),
            );
        }
        let japanese = if self.japanese_ipadic {
            Some(
                JapaneseSegmenter::new(
                    JapaneseDictionaryKind::Ipadic,
                    self.japanese_dictionary_override,
                ),
            )
        } else if self.japanese_unidic {
            Some(
                JapaneseSegmenter::new(
                    JapaneseDictionaryKind::Unidic,
                    self.japanese_dictionary_override,
                ),
            )
        } else {
            None
        };
        Ok(
            Tokenizer {
                japanese,
                extra_separators: self.extra_separators,
                allowed_scripts: self.allowed_scripts,
                allowed_languages: self.allowed_languages,
                normalizer_options: NormalizerOptions {
                    compatibility_decomposition: self.normalizer_options.compatibility_decomposition,
                    diacritic_strip: self.normalizer_options.diacritic_strip,
                    case_fold: self.normalizer_options.case_fold,
                },
            },
        )
    }
}

/// Turns `text` into tokens with the default configuration: no specialized
/// segmenter, no extra separators, every script and language admitted, the
/// default normalizer chain. The result is exactly the pipeline's plan.
#[verifier::rlimit(100)]
pub fn tokenize_str(text: &str) -> (toks: Vec<Token>)
    ensures
        tokens_cover_upto(text@, toks@, text@.len() as int),
        forall|k: int|
            0 <= k < toks@.len() ==> wf_token(
                text@,
                Seq::<char>::empty(),
                NormalizerOptions::default_spec(),
                toks@[k],
            ),
        tok_tuples(toks@) == plan(text@, Seq::<char>::empty(), None, None),
{
    let t = Tokenizer {
        japanese: None,
        extra_separators: Vec::new(),
        allowed_scripts: None,
        allowed_languages: None,
        normalizer_options: NormalizerOptions {
            compatibility_decomposition: true,
            diacritic_strip: true,
            case_fold: true,
        },
    };
    proof {
        lemma_no_japanese_when_disabled(text@, 0, Seq::empty(), None, None);
    }
    match t.tokenize(text) {
        Ok(toks) => toks,
        Err(_) => {
            proof {
                assert(false);
            }
            Vec::new()
        },
    }
}

/// Segments `text` with the default configuration, without normalizing:
/// the ordered sequence of original spans, whose concatenation reproduces
/// `text` exactly.
#[verifier::rlimit(100)]
pub fn segment_str(text: &str) -> (r: Vec<String>)
    ensures
        r@.len() == plan(text@, Seq::<char>::empty(), None, None).len(),
        forall|k: int|
            0 <= k < r@.len() ==> r@[k]@ == text@.subrange(
                plan(text@, Seq::<char>::empty(), None, None)[k].2,
                plan(text@, Seq::<char>::empty(), None, None)[k].3,
            ),
{
    let ghost p = plan(text@, Seq::<char>::empty(), None, None);
    let toks = tokenize_str(text);
    let mut r: Vec<String> = Vec::new();
    let mut k: usize = 0;
    while k < toks.len()
        invariant
            k <= toks@.len(),
            toks@.len() == p.len(),
            p == plan(text@, Seq::<char>::empty(), None, None),
            r@.len() == k,
            forall|j: int|
                0 <= j < toks@.len() ==> wf_token(
                    text@,
                    Seq::<char>::empty(),
                    NormalizerOptions::default_spec(),
                    toks@[j],
                ),
            tok_tuples(toks@) == p,
            forall|j: int| 0 <= j < k ==> r@[j]@ == text@.subrange(p[j].2, p[j].3),
        decreases toks@.len() - k,
    {
        proof {
            assert(tok_tuples(toks@)[k as int] == tok_tuple(toks@[k as int]));
        }
        r.push(toks[k].original.clone());
        k += 1;
    }
    r
}

} // verus!

use vstd::prelude::*;
use vstd::string::{StrSliceExecFns, StringExecFns};
use crate::token::{Language, Script, Token, TokenKind};
use crate::tokenizer::{concat_originals, tokens_cover_upto};

verus! {

/// True of a separator that may glue two word fragments into one logical
/// word: an apostrophe, straight or typographic. This is the merge policy's
/// whole trigger; anything else keeps tokens apart.
pub open spec fn is_joiner(t: Token) -> bool {
    &&& t.kind is Separator
    &&& t.original@.len() == 1
    &&& ((t.original@[0] as u32) == 0x27 || (t.original@[0] as u32) == 0x2019)
}

/// Executable form of [`is_joiner`].
pub fn check_joiner(t: &Token) -> (r: bool)
    ensures
        r == is_joiner(*t),
{
    match t.kind {
        TokenKind::Word => false,
        TokenKind::Separator(_) => {
            if t.original.as_str().unicode_len() != 1 {
                return false;
            }
            let c = t.original.as_str().get_char(0);
            (c as u32) == 0x27 || (c as u32) == 0x2019
        },
    }
}

/// Where the merge group that starts at `i` ends: a word followed by any
/// number of (apostrophe, word) pairs forms one group, anything else stands
/// alone.
pub open spec fn group_end(toks: Seq<Token>, i: int) -> int
    decreases toks.len() - i,
{
    if 0 <= i && i < toks.len() && toks[i].kind is Word && i + 2 < toks.len() && is_joiner(
        toks[i + 1],
    ) && toks[i + 2].kind is Word {
        group_end(toks, i + 2)
    } else {
        i + 1
    }
}

/// A group is non-empty and ends within the token list.
pub proof fn lemma_group_end(toks: Seq<Token>, i: int)
    requires
        0 <= i < toks.len(),
    ensures
        i < group_end(toks, i) <= toks.len(),
    decreases toks.len() - i,
{
    if toks[i].kind is Word && i + 2 < toks.len() && is_joiner(toks[i + 1]) && toks[i
        + 2].kind is Word {
        lemma_group_end(toks, i + 2);
    }
}

/// The bounds of the merge groups from position `i` on, in order.
pub open spec fn group_bounds(toks: Seq<Token>, i: int) -> Seq<(int, int)>
    decreases toks.len() - i,
        when 0 <= i <= toks.len()
        via group_bounds_dec
{
    if i >= toks.len() {
        Seq::empty()
    } else {
        seq![(i, group_end(toks, i))] + group_bounds(toks, group_end(toks, i))
    }
}

#[via_fn]
proof fn group_bounds_dec(toks: Seq<Token>, i: int) {
    if i < toks.len() {
        lemma_group_end(toks, i);
    }
}

/// The merge groups partition the token list exactly: their bounds are
/// non-empty, contiguous, start at `i` and end at the end of the list.
pub proof fn lemma_groups_partition(toks: Seq<Token>, i: int)
    requires
        0 <= i <= toks.len(),
    ensures
        group_bounds(toks, i).len() == 0 <==> i == toks.len(),
        forall|k: int|
            0 <= k < group_bounds(toks, i).len() ==> (#[trigger] group_bounds(toks, i)[k]).0 < (
            group_bounds(toks, i)[k]).1 <= toks.len(),
        group_bounds(toks, i).len() > 0 ==> group_bounds(toks, i)[0].0 == i && group_bounds(
            toks,
            i,
        )[group_bounds(toks, i).len() - 1].1 == toks.len(),
        forall|k1: int, k2: int|
            0 <= k1 && k1 + 1 == k2 && k2 < group_bounds(toks, i).len() ==> (#[trigger]
            group_bounds(toks, i)[k1]).1 == (#[trigger] group_bounds(toks, i)[k2]).0,
    decreases toks.len() - i,
{
    if i < toks.len() {
        lemma_group_end(toks, i);
        let e = group_end(toks, i);
        lemma_groups_partition(toks, e);
        let g = group_bounds(toks, i);
        let rest = group_bounds(toks, e);
        assert(g == seq![(i, e)] + rest);
        assert(g[0] == (i, e));
        assert(forall|k: int| 1 <= k < g.len() ==> g[k] == rest[k - 1]);
    }
}

/// The characters of the tokens' lemmas, concatenated in order.
pub open spec fn concat_lemmas(toks: Seq<Token>) -> Seq<char>
    decreases toks.len(),
{
    if toks.len() == 0 {
        Seq::empty()
    } else {
        concat_lemmas(toks.drop_last()) + toks.last().lemma@
    }
}

/// One logical token of the reconstruction layer: possibly several raw
/// tokens merged into one lexical unit, with one merged lemma, one combined
/// original span, and the constituent normalized sub-lemmas retained for
/// callers that need them.
pub struct ReconstructedToken {
    /// The merged lemma: the group's sub-lemmas, concatenated in order.
    pub lemma: String,
    /// The combined original span, character for character.
    pub original: String,
    /// Start of the combined span in the input, counted in characters.
    pub char_start: usize,
    /// End (exclusive) of the combined span in the input.
    pub char_end: usize,
    /// Word for a merged group; a lone token keeps its own kind.
    pub kind: TokenKind,
    /// Script of the group's first token.
    pub script: Script,
    /// Language of the group's first token.
    pub language: Language,
    /// The normalized lemma of each constituent raw token, in order.
    pub sub_lemmas: Vec<String>,
}

/// Everything a logical token promises about itself, relative to the raw
/// token group `toks[a..b]` it merges.
pub open spec fn wf_merged(toks: Seq<Token>, a: int, b: int, m: ReconstructedToken) -> bool {
    &&& 0 <= a < b <= toks.len()
    &&& m.char_start == toks[a].char_start
    &&& m.char_end == toks[b - 1].char_end
    &&& m.original@ == concat_originals(toks.subrange(a, b))
    &&& m.lemma@ == concat_lemmas(toks.subrange(a, b))
    &&& m.sub_lemmas@.len() == b - a
    &&& (forall|j: int|
        0 <= j < b - a ==> (#[trigger] m.sub_lemmas@[j])@ == toks[a + j].lemma@)
    &&& m.kind == (if b - a > 1 {
        TokenKind::Word
    } else {
        toks[a].kind
    })
    &&& m.script == toks[a].script
    &&& m.language == toks[a].language
}

/// For a contiguous token run cut from `input`, the concatenation of the
/// run's original spans is exactly the input between the run's first and
/// last bounds. With [`lemma_groups_partition`] this says that the merge
/// layer preserves lossless reconstruction: concatenating the merged spans,
/// in order, still reproduces the input exactly.
pub proof fn lemma_merged_span(input: Seq<char>, toks: Seq<Token>, a: int, b: int)
    requires
        tokens_cover_upto(input, toks, input.len() as int),
        forall|k: int|
            0 <= k < toks.len() ==> (#[trigger] toks[k]).original@ == input.subrange(
                toks[k].char_start as int,
                toks[k].char_end as int,
            ),
        0 <= a < b <= toks.len(),
    ensures
        concat_originals(toks.subrange(a, b)) == input.subrange(
            toks[a].char_start as int,
            toks[b - 1].char_end as int,
        ),
        (toks[a].char_start as int) <= (toks[b - 1].char_start as int),
    decreases b - a,
{
    let sub = toks.subrange(a, b);
    if b == a + 1 {
        assert(sub.len() == 1);
        assert(sub.last() == toks[a]);
        assert(sub.drop_last() =~= Seq::<Token>::empty());
        assert(concat_originals(sub.drop_last()) =~= Seq::<char>::empty());
        assert(concat_originals(sub) == concat_originals(sub.drop_last()) + sub.last().original@);
        assert(Seq::<char>::empty() + toks[a].original@ =~= toks[a].original@);
    } else {
        lemma_merged_span(input, toks, a, b - 1);
        assert(sub.drop_last() =~= toks.subrange(a, b - 1));
        assert(sub.last() == toks[b - 1]);
        assert((toks[b - 2].char_end as int) == (toks[b - 1].char_start as int));
        assert((toks[a].char_start as int) <= (toks[b - 2].char_start as int));
        assert((toks[b - 2].char_start as int) < (toks[b - 2].char_end as int));
        assert(input.subrange(toks[a].char_start as int, toks[b - 2].char_end as int)
            + input.subrange(toks[b - 1].char_start as int, toks[b - 1].char_end as int)
            =~= input.subrange(toks[a].char_start as int, toks[b - 1].char_end as int));
    }
}

/// Executable form of [`group_end`].
fn group_end_exec(toks: &Vec<Token>, i: usize) -> (e: usize)
    requires
        i < toks@.len(),
    ensures
        e == group_end(toks@, i as int),
        i < e <= toks@.len(),
{
    proof {
        lemma_group_end(toks@, i as int);
    }
    let n_toks = toks.len();
    let mut p: usize = i;
    loop
        invariant
            n_toks == toks@.len(),
            i <= p < n_toks,
            group_end(toks@, i as int) == group_end(toks@, p as int),
            i < group_end(toks@, i as int) <= toks@.len(),
        decreases toks@.len() - p,
    {
        let cont = match toks[p].kind {
            TokenKind::Word => {
                toks.len() - p > 2 && check_joiner(&toks[p + 1]) && matches!(
                    toks[p + 2].kind,
                    TokenKind::Word,
                )
            },
            TokenKind::Separator(_) => false,
        };
        if cont {
            proof {
                lemma_group_end(toks@, p as int + 2);
            }
            p = p + 2;
        } else {
            proof {
                assert(group_end(toks@, p as int) == p + 1);
            }
            return p + 1;
        }
    }
}

/// The reconstruction layer: merges adjacent raw tokens that the policy
/// identifies as fragments of one logical lexical unit (a word split around
/// an apostrophe, as a contraction is by the generic segmenter) into one
/// logical token, retaining the original sub-lemmas. Tokens outside such a
/// group pass through one for one.
#[verifier::rlimit(100)]
pub fn reconstruct(toks: &Vec<Token>) -> (r: Vec<ReconstructedToken>)
    ensures
        r@.len() == group_bounds(toks@, 0).len(),
        forall|k: int|
            0 <= k < r@.len() ==> wf_merged(
                toks@,
                (#[trigger] group_bounds(toks@, 0)[k]).0,
                group_bounds(toks@, 0)[k].1,
                r@[k],
            ),
{
    let ghost g0 = group_bounds(toks@, 0);
    let mut r: Vec<ReconstructedToken> = Vec::new();
    let mut i: usize = 0;
    while i < toks.len()
        invariant
            i <= toks@.len(),
            r@.len() <= g0.len(),
            g0 == group_bounds(toks@, 0),
            g0.skip(r@.len() as int) == group_bounds(toks@, i as int),
            forall|k: int|
                0 <= k < r@.len() ==> wf_merged(
                    toks@,
                    (#[trigger] g0[k]).0,
                    g0[k].1,
                    r@[k],
                ),
        decreases toks@.len() - i,
    {
        let e = group_end_exec(toks, i);
        // build the merged token from the group toks[i..e]
        let mut original = String::new();
        let mut lemma = String::new();
        let mut subs: Vec<String> = Vec::new();
        let mut j: usize = i;
        proof {
            assert(toks@.subrange(i as int, i as int) =~= Seq::<Token>::empty());
        }
        while j < e
            invariant
                i <= j <= e <= toks@.len(),
                original@ == concat_originals(toks@.subrange(i as int, j as int)),
                lemma@ == concat_lemmas(toks@.subrange(i as int, j as int)),
                subs@.len() == j - i,
                forall|m: int|
                    0 <= m < j - i ==> (#[trigger] subs@[m])@ == toks@[i + m].lemma@,
            decreases e - j,
        {
            let ghost pre = toks@.subrange(i as int, j as int);
            let ghost post = toks@.subrange(i as int, j as int + 1);
            proof {
                assert(post.drop_last() =~= pre);
                assert(post.last() == toks@[j as int]);
            }
            original.append(toks[j].original.as_str());
            lemma.append(toks[j].lemma.as_str());
            subs.push(toks[j].lemma.clone());
            j += 1;
        }
        let kind = if e - i > 1 {
            TokenKind::Word
        } else {
            toks[i].kind
        };
        let m = ReconstructedToken {
            lemma,
            original,
            char_start: toks[i].char_start,
            char_end: toks[e - 1].char_end,
            kind,
            script: toks[i].script,
            language: toks[i].language,
            sub_lemmas: subs,
        };
        let ghost old_r = r@;
        r.push(m);
        proof {
            let n = old_r.len() as int;
            assert(group_bounds(toks@, i as int) == seq![(i as int, e as int)] + group_bounds(
                toks@,
                e as int,
            ));
            assert(g0.skip(n) == group_bounds(toks@, i as int));
            assert(g0.skip(n).len() >= 1);
            assert(n < g0.len());
            assert(g0.skip(n)[0] == (i as int, e as int));
            assert(g0[n] == g0.skip(n)[0]);
            assert(g0.skip(n).skip(1) =~= group_bounds(toks@, e as int));
            assert(g0.skip(n + 1) =~= g0.skip(n).skip(1));
            assert(forall|k: int| 0 <= k < old_r.len() ==> r@[k] == old_r[k]);
            assert(wf_merged(toks@, i as int, e as int, r@[n]));
        }
        i = e;
    }
    proof {
        assert(group_bounds(toks@, i as int) =~= Seq::<(int, int)>::empty());
        assert(g0.skip(r@.len() as int).len() == 0);
    }
    r
}

impl ReconstructedToken {
    /// The merged lemma of the logical token.
    pub fn lemma(&self) -> (s: &str)
        ensures
            s@ == self.lemma@,
    {
        self.lemma.as_str()
    }

    /// The combined original span of the logical token.
    pub fn original(&self) -> (s: &str)
        ensures
            s@ == self.original@,
    {
        self.original.as_str()
    }

    /// True of word tokens.
    pub fn is_word(&self) -> (r: bool)
        ensures
            r == self.kind.is_word_spec(),
    {
        match self.kind {
            TokenKind::Word => true,
            TokenKind::Separator(_) => false,
        }
    }

    /// True of separator tokens.
    pub fn is_separator(&self) -> (r: bool)
        ensures
            r == self.kind.is_separator_spec(),
    {
        match self.kind {
            TokenKind::Word => false,
            TokenKind::Separator(_) => true,
        }
    }
}

} // verus!

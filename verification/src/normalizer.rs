use vstd::prelude::*;
use vstd::utf8::is_scalar;
use crate::token::Script;

verus! {

/// One transform of the normalizer chain, in the fixed order the chain
/// applies them: compatibility mapping first, then diacritic stripping,
/// then case folding.
#[derive(Clone, Copy, PartialEq, Eq, Structural, Debug)]
pub enum NormalizerId {
    CompatibilityDecomposition,
    DiacriticStrip,
    CaseFold,
}

/// Which transforms of the normalizer chain are enabled. The default chain
/// enables all of them; a configuration may disable any subset.
#[derive(Clone, Copy, PartialEq, Eq, Structural, Debug)]
pub struct NormalizerOptions {
    pub compatibility_decomposition: bool,
    pub diacritic_strip: bool,
    pub case_fold: bool,
}

impl NormalizerOptions {
    /// The default chain: every transform enabled.
    pub open spec fn default_spec() -> NormalizerOptions {
        NormalizerOptions {
            compatibility_decomposition: true,
            diacritic_strip: true,
            case_fold: true,
        }
    }

    /// Disables one transform of the chain.
    pub fn disable(self, id: NormalizerId) -> (r: NormalizerOptions)
        ensures
            r == disable_spec(self, id),
    {
        match id {
            NormalizerId::CompatibilityDecomposition => NormalizerOptions {
                compatibility_decomposition: false,
                ..self
            },
            NormalizerId::DiacriticStrip => NormalizerOptions { diacritic_strip: false, ..self },
            NormalizerId::CaseFold => NormalizerOptions { case_fold: false, ..self },
        }
    }
}

/// The options with one transform disabled.
pub open spec fn disable_spec(opts: NormalizerOptions, id: NormalizerId) -> NormalizerOptions {
    match id {
        NormalizerId::CompatibilityDecomposition => NormalizerOptions {
            compatibility_decomposition: false,
            ..opts
        },
        NormalizerId::DiacriticStrip => NormalizerOptions { diacritic_strip: false, ..opts },
        NormalizerId::CaseFold => NormalizerOptions { case_fold: false, ..opts },
    }
}

impl Default for NormalizerOptions {
    /// The default chain: every transform enabled.
    fn default() -> (r: NormalizerOptions)
        ensures
            r == NormalizerOptions::default_spec(),
    {
        NormalizerOptions {
            compatibility_decomposition: true,
            diacritic_strip: true,
            case_fold: true,
        }
    }
}

/// Compatibility mapping: the ideographic space and the fullwidth forms of
/// the printable ASCII characters are mapped to their ASCII counterparts;
/// every other character is left alone.
pub open spec fn compat_char(c: char) -> char {
    let u = c as u32;
    if u == 0x3000 {
        ' '
    } else if 0xFF01 <= u && u <= 0xFF5E {
        ((u - 0xFEE0) as u32) as char
    } else {
        c
    }
}

/// Diacritic stripping for the Latin script: accented Latin-1 letters are
/// mapped to their base letter, keeping their case; every other character is
/// left alone.
pub open spec fn deaccent_char(c: char) -> char {
    let u = c as u32;
    if 0xC0 <= u && u <= 0xC5 {
        'A'
    } else if u == 0xC7 {
        'C'
    } else if 0xC8 <= u && u <= 0xCB {
        'E'
    } else if 0xCC <= u && u <= 0xCF {
        'I'
    } else if u == 0xD1 {
        'N'
    } else if (0xD2 <= u && u <= 0xD6) || u == 0xD8 {
        'O'
    } else if 0xD9 <= u && u <= 0xDC {
        'U'
    } else if u == 0xDD {
        'Y'
    } else if 0xE0 <= u && u <= 0xE5 {
        'a'
    } else if u == 0xE7 {
        'c'
    } else if 0xE8 <= u && u <= 0xEB {
        'e'
    } else if 0xEC <= u && u <= 0xEF {
        'i'
    } else if u == 0xF1 {
        'n'
    } else if (0xF2 <= u && u <= 0xF6) || u == 0xF8 {
        'o'
    } else if 0xF9 <= u && u <= 0xFC {
        'u'
    } else if u == 0xFD || u == 0xFF {
        'y'
    } else {
        c
    }
}

/// Case folding: ASCII capitals and the Latin-1 capitals are mapped to their
/// lowercase forms; every other character is left alone.
pub open spec fn fold_char(c: char) -> char {
    let u = c as u32;
    if (0x41 <= u && u <= 0x5A) || (0xC0 <= u && u <= 0xDE && u != 0xD7) {
        ((u + 0x20) as u32) as char
    } else {
        c
    }
}

/// The whole chain on one character, under the given options and script:
/// compatibility mapping, then diacritic stripping (applied to the Latin
/// script only), then case folding.
pub open spec fn norm_char(opts: NormalizerOptions, sc: Script, c: char) -> char {
    let c1 = if opts.compatibility_decomposition {
        compat_char(c)
    } else {
        c
    };
    let c2 = if opts.diacritic_strip && sc is Latin {
        deaccent_char(c1)
    } else {
        c1
    };
    if opts.case_fold {
        fold_char(c2)
    } else {
        c2
    }
}

/// The chain applied to a whole lemma, character by character. The chain is
/// total and deterministic: it never fails, and never changes a lemma's
/// length.
pub open spec fn normalize_spec(opts: NormalizerOptions, sc: Script, s: Seq<char>) -> Seq<char> {
    Seq::new(s.len(), |i: int| norm_char(opts, sc, s[i]))
}

/// The chain is idempotent on characters, for the default options and for
/// any subset of its transforms: every character the chain produces is a
/// fixed point of the chain.
pub proof fn lemma_norm_char_idempotent(opts: NormalizerOptions, sc: Script, c: char)
    ensures
        norm_char(opts, sc, norm_char(opts, sc, c)) == norm_char(opts, sc, c),
{
    broadcast use vstd::utf8::char_is_scalar;

    let d = norm_char(opts, sc, c);
    assert(norm_char(opts, sc, d) == d);
}

/// Idempotent normalization: normalizing an already-normalized lemma yields
/// the same lemma, for the default chain and for any subset of its
/// transforms.
pub proof fn lemma_normalize_idempotent(opts: NormalizerOptions, sc: Script, s: Seq<char>)
    ensures
        normalize_spec(opts, sc, normalize_spec(opts, sc, s)) == normalize_spec(opts, sc, s),
{
    let once = normalize_spec(opts, sc, s);
    let twice = normalize_spec(opts, sc, once);
    assert forall|i: int| 0 <= i < twice.len() implies twice[i] == once[i] by {
        lemma_norm_char_idempotent(opts, sc, s[i]);
    }
    assert(twice =~= once);
}

/// Relies on char::from_u32: for every valid Unicode scalar value it returns
/// the character with that value.
#[verifier::external_body]
fn char_from_u32(u: u32) -> (c: char)
    requires
        is_scalar(u),
    ensures
        c as u32 == u,
{
    match char::from_u32(u) {
        Some(c) => c,
        None => ' ',
    }
}

/// Executable form of [`norm_char`].
pub fn normalize_char(opts: &NormalizerOptions, sc: Script, c: char) -> (r: char)
    ensures
        r == norm_char(*opts, sc, c),
{
    proof {
        broadcast use vstd::utf8::char_is_scalar;

    }
    let c1 = if opts.compatibility_decomposition {
        let u = c as u32;
        if u == 0x3000 {
            ' '
        } else if 0xFF01 <= u && u <= 0xFF5E {
            let d = char_from_u32(u - 0xFEE0);
            proof {
                vstd::utf8::char_u32_cast(d, (c as u32 - 0xFEE0) as u32);
            }
            d
        } else {
            c
        }
    } else {
        c
    };
    assert(c1 == if opts.compatibility_decomposition {
        compat_char(c)
    } else {
        c
    });
    let c2 = if opts.diacritic_strip && matches!(sc, Script::Latin) {
        let u = c1 as u32;
        if 0xC0 <= u && u <= 0xC5 {
            'A'
        } else if u == 0xC7 {
            'C'
        } else if 0xC8 <= u && u <= 0xCB {
            'E'
        } else if 0xCC <= u && u <= 0xCF {
            'I'
        } else if u == 0xD1 {
            'N'
        } else if (0xD2 <= u && u <= 0xD6) || u == 0xD8 {
            'O'
        } else if 0xD9 <= u && u <= 0xDC {
            'U'
        } else if u == 0xDD {
            'Y'
        } else if 0xE0 <= u && u <= 0xE5 {
            'a'
        } else if u == 0xE7 {
            'c'
        } else if 0xE8 <= u && u <= 0xEB {
            'e'
        } else if 0xEC <= u && u <= 0xEF {
            'i'
        } else if u == 0xF1 {
            'n'
        } else if (0xF2 <= u && u <= 0xF6) || u == 0xF8 {
            'o'
        } else if 0xF9 <= u && u <= 0xFC {
            'u'
        } else if u == 0xFD || u == 0xFF {
            'y'
        } else {
            c1
        }
    } else {
        c1
    };
    if opts.case_fold {
        let u = c2 as u32;
        if (0x41 <= u && u <= 0x5A) || (0xC0 <= u && u <= 0xDE && u != 0xD7) {
            let d = char_from_u32(u + 0x20);
            proof {
                vstd::utf8::char_u32_cast(d, (c2 as u32 + 0x20) as u32);
            }
            d
        } else {
            c2
        }
    } else {
        c2
    }
}

/// Relies on String::push: appends the given character to the end of the
/// string.
#[verifier::external_body]
fn push_char(s: &mut String, c: char)
    ensures
        final(s)@ == old(s)@.push(c),
{
    s.push(c);
}

/// Normalizes the span `chars[start..end]` of a text under the given options
/// and script: the whole chain, applied character by character, in order.
/// Total: it never fails, and the result has exactly the span's length.
pub fn normalize_range(
    chars: &Vec<char>,
    start: usize,
    end: usize,
    opts: &NormalizerOptions,
    sc: Script,
) -> (r: String)
    requires
        start <= end <= chars@.len(),
    ensures
        r@ == normalize_spec(*opts, sc, chars@.subrange(start as int, end as int)),
{
    let ghost span = chars@.subrange(start as int, end as int);
    let mut r = String::new();
    let mut k: usize = start;
    while k < end
        invariant
            start <= k <= end <= chars@.len(),
            span == chars@.subrange(start as int, end as int),
            r@.len() == k - start,
            forall|j: int| 0 <= j < k - start ==> r@[j] == norm_char(*opts, sc, span[j]),
        decreases end - k,
    {
        assert(span[k - start] == chars@[k as int]);
        let c = normalize_char(opts, sc, chars[k]);
        push_char(&mut r, c);
        k += 1;
    }
    assert(r@ =~= normalize_spec(*opts, sc, span));
    r
}

} // verus!

use vstd::prelude::*;
use vstd::string::StringExecFns;
use crate::token::TokenizeError;

verus! {

/// The dictionary the Japanese segmenter is built on. The two variants are
/// mutually exclusive: a pipeline is configured with at most one of them.
#[derive(Clone, Copy, PartialEq, Eq, Structural, Debug)]
pub enum JapaneseDictionaryKind {
    Ipadic,
    Unidic,
}

#[verifier::external_type_specification]
#[verifier::external_body]
#[verifier::reject_recursive_types(T)]
pub struct ExOnceCell<T>(once_cell::sync::OnceCell<T>);

#[verifier::external_type_specification]
#[verifier::external_body]
pub struct ExLinderaSegmenter(lindera::segmenter::Segmenter);

/// Relies on once_cell's OnceCell::new: creates an empty cell.
#[verifier::external_body]
fn new_engine_cell() -> once_cell::sync::OnceCell<lindera::segmenter::Segmenter> {
    once_cell::sync::OnceCell::new()
}

/// Relies on once_cell's OnceCell::get_or_try_init for the one-time,
/// synchronization-guarded initialization (the first caller builds, every
/// later caller shares the same immutable engine), and on lindera's
/// dictionary::load_dictionary, dictionary::load_user_dictionary and
/// segmenter::Segmenter::new for the build itself: the main dictionary is
/// loaded from `main_uri`, and the optional user dictionary from
/// `user_uri`, on top of it. Whitespace tokens are kept so that the
/// engine's output can cover its input. Whether the build succeeds depends
/// on the dictionary resources, so nothing is promised of the outcome.
#[verifier::external_body]
fn init_engine<'a>(
    cell: &'a once_cell::sync::OnceCell<lindera::segmenter::Segmenter>,
    main_uri: &str,
    user_uri: &Option<String>,
    decompose: bool,
) -> Result<&'a lindera::segmenter::Segmenter, String> {
    cell.get_or_try_init(|| {
        let err = |e| format!("engine build failed: {e}");
        let dict = lindera::dictionary::load_dictionary(main_uri).map_err(err)?;
        let user = match user_uri {
            Some(u) => Some(lindera::dictionary::load_user_dictionary(u, &dict.metadata).map_err(err)?),
            None => None,
        };
        let mode = if decompose {
            lindera::mode::Mode::Decompose(lindera::mode::Penalty::default())
        } else {
            lindera::mode::Mode::Normal
        };
        Ok(lindera::segmenter::Segmenter::new(mode, dict, user).keep_whitespace(true))
    })
}

/// Relies on lindera's segmenter::Segmenter::segment: morphological analysis
/// of `text`, yielding the surface form of each unit. What comes back
/// depends on the engine's dictionary, so nothing is promised of the
/// outcome; a verified caller checks the units against `text` itself.
#[verifier::external_body]
fn engine_segment(
    engine: &lindera::segmenter::Segmenter,
    text: &str,
) -> Result<Vec<String>, String> {
    match engine.segment(std::borrow::Cow::Borrowed(text)) {
        Ok(units) => Ok(units.into_iter().map(|u| u.surface.into_owned()).collect()),
        Err(e) => Err(format!("segmentation failed: {e}")),
    }
}

/// The characters of a sequence of strings, concatenated in order.
pub open spec fn concat_strs(ps: Seq<String>) -> Seq<char>
    decreases ps.len(),
{
    if ps.len() == 0 {
        Seq::empty()
    } else {
        concat_strs(ps.drop_last()) + ps.last()@
    }
}

/// The concatenation of a prefix of a sequence of strings is a prefix of
/// the concatenation of the whole sequence.
pub proof fn lemma_concat_strs_prefix(ps: Seq<String>, m: int)
    requires
        0 <= m <= ps.len(),
    ensures
        concat_strs(ps.take(m)).len() <= concat_strs(ps).len(),
        concat_strs(ps.take(m)) == concat_strs(ps).take(concat_strs(ps.take(m)).len() as int),
    decreases ps.len() - m,
{
    if m == ps.len() {
        assert(ps.take(m) =~= ps);
        assert(concat_strs(ps).take(concat_strs(ps).len() as int) =~= concat_strs(ps));
    } else {
        lemma_concat_strs_prefix(ps, m + 1);
        let a = ps.take(m);
        let b = ps.take(m + 1);
        let la = concat_strs(a).len() as int;
        let lb = concat_strs(b).len() as int;
        assert(b.drop_last() =~= a);
        assert(b.last() == ps[m]);
        assert(concat_strs(b) == concat_strs(a) + ps[m]@);
        assert(concat_strs(a) =~= concat_strs(b).take(la));
        assert(concat_strs(b) == concat_strs(ps).take(lb));
        assert(concat_strs(b).take(la) =~= concat_strs(ps).take(lb).take(la));
        assert(concat_strs(ps).take(lb).take(la) =~= concat_strs(ps).take(la));
    }
}

/// The same sequence of strings with the empty ones dropped.
pub open spec fn drop_empty(ps: Seq<String>) -> Seq<String>
    decreases ps.len(),
{
    if ps.len() == 0 {
        Seq::empty()
    } else if ps.last()@.len() == 0 {
        drop_empty(ps.drop_last())
    } else {
        drop_empty(ps.drop_last()).push(ps.last())
    }
}

/// Validates the units an external segmenter produced for `text`: empty
/// units are dropped, and the rest are accepted exactly when concatenating
/// them in order reproduces `text`. This is what makes an external
/// segmenter's answer trustworthy: whatever the engine returned, an accepted
/// segmentation is lossless.
pub fn validate_segments(text: &str, pieces: Vec<String>) -> (r: Option<Vec<String>>)
    ensures
        match r {
            Some(ps) => {
                &&& ps@ == drop_empty(pieces@)
                &&& concat_strs(ps@) == text@
                &&& forall|i: int| 0 <= i < ps@.len() ==> ps@[i]@.len() > 0
            },
            None => concat_strs(drop_empty(pieces@)) != text@,
        },
{
    let mut kept: Vec<String> = Vec::new();
    let mut cat = String::new();
    let mut k: usize = 0;
    while k < pieces.len()
        invariant
            k <= pieces@.len(),
            kept@ == drop_empty(pieces@.take(k as int)),
            cat@ == concat_strs(kept@),
            forall|i: int| 0 <= i < kept@.len() ==> kept@[i]@.len() > 0,
        decreases pieces@.len() - k,
    {
        let ghost pre = pieces@.take(k as int);
        let ghost post = pieces@.take(k as int + 1);
        proof {
            assert(post.drop_last() =~= pre);
            assert(post.last() == pieces@[k as int]);
        }
        let piece = pieces[k].clone();
        if !piece.as_str().is_empty() {
            let ghost kept_pre = kept@;
            cat.append(piece.as_str());
            kept.push(piece);
            proof {
                assert(kept@.drop_last() =~= kept_pre);
                assert(concat_strs(kept@) == concat_strs(kept_pre) + kept@.last()@);
            }
        }
        k += 1;
    }
    proof {
        assert(pieces@.take(pieces@.len() as int) =~= pieces@);
    }
    let text_copy = String::from_str(text);
    if cat == text_copy {
        Some(kept)
    } else {
        None
    }
}

/// The main dictionary location a Japanese segmenter hands to its engine:
/// always the embedded dictionary of the configured kind.
pub open spec fn engine_uri_spec(kind: JapaneseDictionaryKind) -> Seq<char> {
    match kind {
        JapaneseDictionaryKind::Ipadic => "embedded://ipadic"@,
        JapaneseDictionaryKind::Unidic => "embedded://unidic"@,
    }
}

/// The same optional location, character for character.
pub open spec fn same_location(a: Option<String>, b: Option<String>) -> bool {
    match (a, b) {
        (Option::Some(x), Option::Some(y)) => x@ == y@,
        (Option::None, Option::None) => true,
        _ => false,
    }
}

/// Japanese specialized segmenter.
///
/// It delegates morphological analysis to lindera, holding the expensive
/// dictionary-backed engine in a one-time, synchronization-guarded cell: the
/// first call that needs the engine builds it (and reports a build failure
/// as an explicit error instead of aborting), every later call shares the
/// same immutable instance.
pub struct JapaneseSegmenter {
    engine: once_cell::sync::OnceCell<lindera::segmenter::Segmenter>,
    /// Which dictionary the engine is built on.
    pub kind: JapaneseDictionaryKind,
    /// An optional caller-supplied user-dictionary location, loaded beside
    /// the embedded main dictionary to add custom entries to it. The value
    /// is passed through to the engine uninterpreted: neither its existence
    /// nor its format is validated here, a failure surfaces when the engine
    /// is first needed.
    pub dictionary_override: Option<String>,
}

impl JapaneseSegmenter {
    /// Which dictionary this segmenter is configured with.
    pub closed spec fn kind_spec(&self) -> JapaneseDictionaryKind {
        self.kind
    }

    /// The caller-supplied dictionary location, if any.
    pub closed spec fn dictionary_override_spec(&self) -> Option<String> {
        self.dictionary_override
    }

    /// A segmenter for the given dictionary. Nothing is loaded yet: the
    /// engine is built on first need.
    pub fn new(kind: JapaneseDictionaryKind, dictionary_override: Option<String>) -> (r:
        JapaneseSegmenter)
        ensures
            r.kind_spec() == kind,
            r.dictionary_override_spec() == dictionary_override,
    {
        JapaneseSegmenter { engine: new_engine_cell(), kind, dictionary_override }
    }

    /// What this segmenter hands to its engine build: the embedded main
    /// dictionary location of the configured kind, the caller-supplied
    /// user-dictionary location verbatim (to be loaded beside the main
    /// dictionary), and decompose mode exactly for the IPADIC dictionary.
    pub fn engine_config(&self) -> (r: (String, Option<String>, bool))
        ensures
            r.0@ == engine_uri_spec(self.kind_spec()),
            same_location(r.1, self.dictionary_override_spec()),
            r.2 == (self.kind_spec() is Ipadic),
    {
        let main: String = match self.kind {
            JapaneseDictionaryKind::Ipadic => String::from_str("embedded://ipadic"),
            JapaneseDictionaryKind::Unidic => String::from_str("embedded://unidic"),
        };
        let user: Option<String> = match &self.dictionary_override {
            Some(p) => Some(p.clone()),
            None => None,
        };
        let decompose = matches!(self.kind, JapaneseDictionaryKind::Ipadic);
        (main, user, decompose)
    }

    /// Segments `to_segment` into morphological units.
    ///
    /// On success the units are a lossless segmentation: they are non-empty
    /// and concatenating them in order reproduces `to_segment` exactly,
    /// whatever the underlying engine answered. The engine is built from
    /// exactly the dictionary locations and mode that
    /// [`JapaneseSegmenter::engine_config`] states. A missing or malformed
    /// dictionary surfaces as `ResourceInitialization` the first time the
    /// engine is needed; an engine failure or a lossy engine answer
    /// surfaces as `Segmentation` for this call only.
    pub fn segment_str(&self, to_segment: &str) -> (r: Result<Vec<String>, TokenizeError>)
        ensures
            match r {
                Ok(ps) => {
                    &&& concat_strs(ps@) == to_segment@
                    &&& forall|i: int| 0 <= i < ps@.len() ==> ps@[i]@.len() > 0
                },
                Err(e) => e is ResourceInitialization || e is Segmentation,
            },
    {
        let (main_uri, user_uri, decompose) = self.engine_config();
        let engine = match init_engine(&self.engine, main_uri.as_str(), &user_uri, decompose) {
            Ok(e) => e,
            Err(msg) => {
                return Err(TokenizeError::ResourceInitialization(msg));
            },
        };
        let pieces = match engine_segment(engine, to_segment) {
            Ok(p) => p,
            Err(msg) => {
                return Err(TokenizeError::Segmentation(msg));
            },
        };
        match validate_segments(to_segment, pieces) {
            Some(ps) => Ok(ps),
            None => Err(
                TokenizeError::Segmentation(
                    String::from_str("the engine returned a lossy segmentation"),
                ),
            ),
        }
    }
}

} // verus!

//! Patterns and the split of a raw pattern into kind and text.

use vstd::prelude::*;
use crate::kind::{kind_named, kind_of_chars, PatternKind};
use crate::text::{first_index_of, lemma_first_index_of_is, slice_of, string_views, to_chars};

verus! {

/// A pattern: its kind, its text, and the pattern file it came from.
///
/// What the text means depends on the kind: a glob, a fragment of a regular
/// expression, or a literal path.
#[derive(Debug, PartialEq, Eq, Clone)]
pub struct Pattern {
    pub kind: PatternKind,
    pub pattern: String,
    /// The path of the pattern file that this pattern was read from; `None`
    /// for a pattern that the caller gave directly.
    pub source: Option<String>,
}

/// A [`Pattern`] with its strings as sequences of characters.
pub struct PatternView {
    pub kind: PatternKind,
    pub pattern: Seq<char>,
    pub source: Option<Seq<char>>,
}

impl View for Pattern {
    type V = PatternView;

    open spec fn view(&self) -> PatternView {
        PatternView {
            kind: self.kind,
            pattern: self.pattern@,
            source: match self.source {
                Some(path) => Some(path@),
                None => None,
            },
        }
    }
}

/// The views of a sequence of patterns.
pub open spec fn pattern_views(patterns: Seq<Pattern>) -> Seq<PatternView> {
    patterns.map_values(|p: Pattern| p@)
}

/// The kind that `raw` names before its first colon, if it names one.
/// `glob:a:b` names `Glob`; `a:b`, `:a` and `a` name none.
pub open spec fn explicit_kind(raw: Seq<char>) -> Option<PatternKind> {
    let colon = first_index_of(raw, ':');
    if colon < raw.len() {
        kind_named(raw.take(colon))
    } else {
        None
    }
}

/// The kind of the raw pattern `raw`: the one it names, else
/// `default_kind`.
pub open spec fn split_kind(raw: Seq<char>, default_kind: PatternKind) -> PatternKind {
    match explicit_kind(raw) {
        Some(kind) => kind,
        None => default_kind,
    }
}

/// The text of the raw pattern `raw`: what follows the first colon if a
/// kind is named before it, else all of `raw`.
pub open spec fn split_text(raw: Seq<char>) -> Seq<char> {
    match explicit_kind(raw) {
        Some(_) => raw.skip(first_index_of(raw, ':') + 1),
        None => raw,
    }
}

/// The pattern that `raw` denotes before any normalization.
pub open spec fn split_view(raw: Seq<char>, default_kind: PatternKind) -> PatternView {
    PatternView { kind: split_kind(raw, default_kind), pattern: split_text(raw), source: None }
}

impl Pattern {
    /// A pattern that no pattern file gave.
    pub fn new(kind: PatternKind, pattern: String) -> (r: Pattern)
        ensures
            r.kind == kind,
            r.pattern == pattern,
            r.source is None,
    {
        Pattern { kind, pattern, source: None }
    }

    /// The same pattern, as read from the pattern file `source`. An earlier
    /// source is forgotten.
    pub fn with_source(self, source: String) -> (r: Pattern)
        ensures
            r.kind == self.kind,
            r.pattern == self.pattern,
            r.source == Some(source),
    {
        Pattern { kind: self.kind, pattern: self.pattern, source: Some(source) }
    }

    /// The pattern that `pattern` denotes before any normalization: its text
    /// is what `split_pattern` leaves, its kind is `default_kind` unless it
    /// names one, and it has no source.
    pub fn from_str(pattern: &str, default_kind: PatternKind) -> (r: Pattern)
        ensures
            r@ == split_view(pattern@, default_kind),
    {
        let (kind, text) = split_pattern(pattern, default_kind);
        Pattern { kind, pattern: text.to_owned(), source: None }
    }
}

/// One pattern for each string, by `Pattern::from_str`. Nothing is
/// normalized.
pub fn build_patterns(patterns: &[String], default_kind: PatternKind) -> (r: Vec<Pattern>)
    ensures
        pattern_views(r@) == string_views(patterns@).map_values(
            |raw: Seq<char>| split_view(raw, default_kind),
        ),
{
    let mut r: Vec<Pattern> = Vec::new();
    let mut i: usize = 0;
    while i < patterns.len()
        invariant
            i <= patterns.len(),
            r.len() == i,
            forall|j: int| 0 <= j < i ==> r[j]@ == split_view(#[trigger] patterns[j]@, default_kind),
        decreases patterns.len() - i,
    {
        r.push(Pattern::from_str(patterns[i].as_str(), default_kind));
        i += 1;
    }
    assert(pattern_views(r@) =~= string_views(patterns@).map_values(
        |raw: Seq<char>| split_view(raw, default_kind),
    ));
    r
}

/// Splits a raw pattern into its kind and its text.
///
/// Where the text before the first colon is the name of a kind, the result
/// is that kind and what follows the colon. In every other case (no colon,
/// or a colon after something that names no kind) it is `default_kind` and
/// the whole of `pattern`: a colon may belong to the text.
pub fn split_pattern<'a>(pattern: &'a str, default_kind: PatternKind) -> (r: (PatternKind, &'a str))
    ensures
        r.0 == split_kind(pattern@, default_kind),
        r.1@ == split_text(pattern@),
        explicit_kind(pattern@) is None ==> r.0 == default_kind && r.1@ == pattern@,
{
    let chars = to_chars(pattern);
    let (kind, start) = split_chars(&chars, default_kind);
    if start == 0 {
        (kind, pattern)
    } else {
        (kind, pattern.substring_char(start, chars.len()))
    }
}

/// `split_pattern` on characters: the kind, and the index at which the text
/// begins.
pub fn split_chars(raw: &Vec<char>, default_kind: PatternKind) -> (r: (PatternKind, usize))
    ensures
        r.0 == split_kind(raw@, default_kind),
        r.1 <= raw.len(),
        raw@.skip(r.1 as int) == split_text(raw@),
        explicit_kind(raw@) is None ==> r.1 == 0,
{
    let mut i: usize = 0;
    while i < raw.len() && raw[i] != ':'
        invariant
            i <= raw.len(),
            forall|j: int| 0 <= j < i ==> raw@[j] != ':',
        decreases raw.len() - i,
    {
        i += 1;
    }
    proof {
        lemma_first_index_of_is(raw@, ':', i as int);
    }
    if i < raw.len() {
        let name = slice_of(raw, 0, i);
        match kind_of_chars(&name) {
            Some(kind) => (kind, i + 1),
            None => (default_kind, 0),
        }
    } else {
        (default_kind, 0)
    }
}

} // verus!

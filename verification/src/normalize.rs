//! The normalization of raw patterns into patterns that a matcher can
//! compile.

use vstd::prelude::*;
use crate::curly::{expand_chars, expanded};
use crate::error::{Error, ErrorView};
use crate::glob::{escape_chars, escaped, recursive, recursive_chars, tighten_chars, tightened};
use crate::kind::PatternKind;
use crate::listfile::{entries_of, entries_of_chars, ListFiles};
use crate::path::{clean_chars, cleaned, resolve_chars, resolved};
use crate::pattern::{pattern_views, split_chars, split_kind, split_text, Pattern, PatternView};
use crate::text::{append_chars, from_chars, rows, slice_of, string_views, to_chars};

verus! {

/// What every pattern of one normalization is read against.
pub struct Setting<'a> {
    /// The kind of a raw pattern that names none.
    pub default_kind: PatternKind,
    /// The repository root.
    pub root: &'a Vec<char>,
    /// The working directory.
    pub cwd: &'a Vec<char>,
    /// The pattern files that can be read.
    pub files: &'a ListFiles,
}

/// A [`Setting`] with its texts as sequences of characters.
pub struct SettingView {
    pub default_kind: PatternKind,
    pub root: Seq<char>,
    pub cwd: Seq<char>,
    pub files: Map<Seq<char>, Seq<char>>,
}

impl<'a> View for Setting<'a> {
    type V = SettingView;

    open spec fn view(&self) -> SettingView {
        SettingView {
            default_kind: self.default_kind,
            root: self.root@,
            cwd: self.cwd@,
            files: self.files@,
        }
    }
}

/// The result of a normalization with its strings as sequences of
/// characters.
pub open spec fn outcome(r: Result<Vec<Pattern>, Error>) -> Result<Seq<PatternView>, ErrorView> {
    match r {
        Ok(patterns) => Ok(pattern_views(patterns@)),
        Err(e) => Err(e@),
    }
}

/// A glob that may match from any depth: `**/` before `glob`. The empty
/// glob matches everything already and stays empty.
pub open spec fn unrooted(glob: Seq<char>) -> Seq<char> {
    if glob.len() == 0 {
        glob
    } else {
        seq!['*', '*', '/'] + glob
    }
}

/// The glob for what lies directly in the directory `dir`: `*` for the
/// root, which is the empty text, else `dir` followed by `/*`.
pub open spec fn children_of(dir: Seq<char>) -> Seq<char> {
    if dir.len() == 0 {
        seq!['*']
    } else {
        dir + seq!['/', '*']
    }
}

/// The regular expression `re` as the matcher wants it. The matcher
/// matches from the start of a path, so a leading `^` is dropped. Without
/// one, an expression of a free kind gets `.*?` in front, to match from
/// anywhere.
pub open spec fn anchored(kind: PatternKind, re: Seq<char>) -> Seq<char> {
    if re.len() > 0 && re[0] == '^' {
        re.skip(1)
    } else if kind.is_free() {
        seq!['.', '*', '?'] + re
    } else {
        re
    }
}

/// Whether patterns of this kind stand in the result as they are.
pub open spec fn is_terminal(kind: PatternKind) -> bool {
    kind.is_glob() || kind.is_path() || kind.is_regex()
}

/// The texts that stand for the text of a raw pattern: the expansions of a
/// glob, and the text itself for every other kind.
pub open spec fn candidates_of(kind: PatternKind, text: Seq<char>) -> Seq<Seq<char>> {
    if kind.is_glob() {
        expanded(text)
    } else {
        seq![text]
    }
}

/// `text`, which is relative to the repository root, as the matcher wants
/// it. In this order: a glob or a path is cleaned; a path is escaped; a
/// glob is made strict; a recursive kind, or a glob if `force_recursive`,
/// is made to match the subtree; a free glob that is not empty is
/// unrooted; `RootFilesIn` becomes a glob for the children; a regular
/// expression is anchored.
pub open spec fn rewritten(kind: PatternKind, text: Seq<char>, force_recursive: bool) -> Seq<char> {
    let clean = if kind.is_glob() || kind.is_path() {
        cleaned(text)
    } else {
        text
    };
    let literal = if kind.is_path() {
        escaped(clean)
    } else {
        clean
    };
    let strict = if kind.is_glob() {
        tightened(literal)
    } else {
        literal
    };
    let deep = if kind.is_recursive() || (force_recursive && kind.is_glob()) {
        recursive(strict)
    } else {
        strict
    };
    let free = if kind.is_glob() && kind.is_free() {
        unrooted(deep)
    } else {
        deep
    };
    let inside = if kind == PatternKind::RootFilesIn {
        children_of(free)
    } else {
        free
    };
    if kind.is_regex() {
        anchored(kind, inside)
    } else {
        inside
    }
}

/// The normal text of one candidate. A kind that is read relative to the
/// working directory is first resolved against the root, and a candidate
/// that leads outside the root is a `PathOutsideRoot` error with the
/// candidate and the root.
pub open spec fn normal_text(
    kind: PatternKind,
    candidate: Seq<char>,
    setting: SettingView,
    force_recursive: bool,
) -> Result<Seq<char>, ErrorView> {
    if kind.is_cwd_relative() {
        match resolved(setting.root, setting.cwd, candidate) {
            Some(below) => Ok(rewritten(kind, below, force_recursive)),
            None => Err(ErrorView::PathOutsideRoot(candidate, setting.root)),
        }
    } else {
        Ok(rewritten(kind, candidate, force_recursive))
    }
}

/// `patterns`, each with `source` as its source.
pub open spec fn sourced(patterns: Seq<PatternView>, source: Seq<char>) -> Seq<PatternView> {
    patterns.map_values(
        |p: PatternView| PatternView { kind: p.kind, pattern: p.pattern, source: Some(source) },
    )
}

/// The patterns that the raw patterns `raws` stand for, in their order, or
/// the first error that leaves them without a normal form.
///
/// `depth` is how many pattern files may be open at once, one naming the
/// next.
pub open spec fn normalized(
    raws: Seq<Seq<char>>,
    setting: SettingView,
    force_recursive: bool,
    depth: nat,
) -> Result<Seq<PatternView>, ErrorView>
    decreases depth, 2int, raws.len(),
{
    if raws.len() == 0 {
        Ok(seq![])
    } else {
        match normalized(raws.drop_last(), setting, force_recursive, depth) {
            Err(e) => Err(e),
            Ok(before) => {
                let kind = split_kind(raws.last(), setting.default_kind);
                let candidates = candidates_of(kind, split_text(raws.last()));
                match normalized_candidates(kind, candidates, setting, force_recursive, depth) {
                    Err(e) => Err(e),
                    Ok(more) => Ok(before + more),
                }
            },
        }
    }
}

/// The patterns that the candidates of one raw pattern stand for, in their
/// order, or the first error.
pub open spec fn normalized_candidates(
    kind: PatternKind,
    candidates: Seq<Seq<char>>,
    setting: SettingView,
    force_recursive: bool,
    depth: nat,
) -> Result<Seq<PatternView>, ErrorView>
    decreases depth, 1int, candidates.len(),
{
    if candidates.len() == 0 {
        Ok(seq![])
    } else {
        match normalized_candidates(
            kind,
            candidates.drop_last(),
            setting,
            force_recursive,
            depth,
        ) {
            Err(e) => Err(e),
            Ok(before) => match normalized_candidate(
                kind,
                candidates.last(),
                setting,
                force_recursive,
                depth,
            ) {
                Err(e) => Err(e),
                Ok(more) => Ok(before + more),
            },
        }
    }
}

/// The patterns that one candidate stands for.
///
/// For a glob, a path or a regular expression it is one pattern with the
/// normal text and no source. For a pattern file, the text is the path of
/// the file as it stands, and the result is what the raw patterns in the
/// file stand for (under the same default kind, root and working directory,
/// never forced to be recursive), each with that path as its source. A file
/// that cannot be read is an `UnreadableListFile` error, and one that would
/// be the `depth + 1`st open at once a `ListFileNestingTooDeep` error, both
/// with the path. Any other kind is an `UnsupportedPatternKind` error with
/// the name of the kind.
pub open spec fn normalized_candidate(
    kind: PatternKind,
    candidate: Seq<char>,
    setting: SettingView,
    force_recursive: bool,
    depth: nat,
) -> Result<Seq<PatternView>, ErrorView>
    decreases depth, 0int, 0nat,
{
    match normal_text(kind, candidate, setting, force_recursive) {
        Err(e) => Err(e),
        Ok(text) => if is_terminal(kind) {
            Ok(seq![PatternView { kind, pattern: text, source: None }])
        } else if kind.spec_is_listfile() {
            if !setting.files.contains_key(text) {
                Err(ErrorView::UnreadableListFile(text))
            } else if depth == 0 {
                Err(ErrorView::ListFileNestingTooDeep(text))
            } else {
                match normalized(
                    entries_of(kind, setting.files[text]),
                    setting,
                    false,
                    (depth - 1) as nat,
                ) {
                    Err(e) => Err(e),
                    Ok(patterns) => Ok(sourced(patterns, text)),
                }
            }
        } else {
            Err(ErrorView::UnsupportedPatternKind(kind.spec_name()))
        },
    }
}

/// The patterns of one raw pattern alone.
pub open spec fn normalized_one(
    raw: Seq<char>,
    setting: SettingView,
    force_recursive: bool,
    depth: nat,
) -> Result<Seq<PatternView>, ErrorView> {
    let kind = split_kind(raw, setting.default_kind);
    normalized_candidates(
        kind,
        candidates_of(kind, split_text(raw)),
        setting,
        force_recursive,
        depth,
    )
}

/// One sequence of patterns after another, or the first error.
pub open spec fn one_after_another(
    first: Result<Seq<PatternView>, ErrorView>,
    second: Result<Seq<PatternView>, ErrorView>,
) -> Result<Seq<PatternView>, ErrorView> {
    match first {
        Err(e) => Err(e),
        Ok(before) => match second {
            Err(e) => Err(e),
            Ok(more) => Ok(before + more),
        },
    }
}

/// A single raw pattern stands for the patterns of its candidates.
pub proof fn lemma_normalized_single(
    raw: Seq<char>,
    setting: SettingView,
    force_recursive: bool,
    depth: nat,
)
    ensures
        normalized(seq![raw], setting, force_recursive, depth) == normalized_one(
            raw,
            setting,
            force_recursive,
            depth,
        ),
{
    let raws = seq![raw];
    assert(raws.drop_last() == Seq::<Seq<char>>::empty());
    assert(raws.last() == raw);
    assert(normalized(raws.drop_last(), setting, force_recursive, depth) == Ok::<
        Seq<PatternView>,
        ErrorView,
    >(seq![]));
    match normalized_one(raw, setting, force_recursive, depth) {
        Ok(more) => {
            assert(Seq::<PatternView>::empty() + more == more);
        },
        Err(_) => {},
    }
}

/// A single candidate of a raw pattern stands for its own patterns.
pub proof fn lemma_normalized_single_candidate(
    kind: PatternKind,
    candidate: Seq<char>,
    setting: SettingView,
    force_recursive: bool,
    depth: nat,
)
    ensures
        normalized_candidates(kind, seq![candidate], setting, force_recursive, depth)
            == normalized_candidate(kind, candidate, setting, force_recursive, depth),
{
    let candidates = seq![candidate];
    assert(candidates.drop_last() == Seq::<Seq<char>>::empty());
    assert(candidates.last() == candidate);
    assert(normalized_candidates(kind, candidates.drop_last(), setting, force_recursive, depth)
        == Ok::<Seq<PatternView>, ErrorView>(seq![]));
    match normalized_candidate(kind, candidate, setting, force_recursive, depth) {
        Ok(more) => {
            assert(Seq::<PatternView>::empty() + more == more);
        },
        Err(_) => {},
    }
}

/// Patterns come out in the order of the raw patterns: what `first`
/// followed by `second` stands for is what `first` stands for, followed by
/// what `second` stands for; and the first error is the error of the whole.
pub proof fn law_normalized_in_order(
    first: Seq<Seq<char>>,
    second: Seq<Seq<char>>,
    setting: SettingView,
    force_recursive: bool,
    depth: nat,
)
    ensures
        normalized(first + second, setting, force_recursive, depth) == one_after_another(
            normalized(first, setting, force_recursive, depth),
            normalized(second, setting, force_recursive, depth),
        ),
    decreases second.len(),
{
    if second.len() == 0 {
        assert(first + second == first);
        match normalized(first, setting, force_recursive, depth) {
            Ok(before) => {
                assert(before + Seq::<PatternView>::empty() == before);
            },
            Err(_) => {},
        }
    } else {
        let whole = first + second;
        assert(whole.drop_last() == first + second.drop_last());
        assert(whole.last() == second.last());
        law_normalized_in_order(first, second.drop_last(), setting, force_recursive, depth);
        let a = normalized(first, setting, force_recursive, depth);
        let b = normalized(second.drop_last(), setting, force_recursive, depth);
        let c = normalized_one(second.last(), setting, force_recursive, depth);
        match (a, b, c) {
            (Ok(x), Ok(y), Ok(z)) => {
                assert((x + y) + z == x + (y + z));
            },
            _ => {},
        }
    }
}

/// A fileset has no normal form, whatever the root, the working directory
/// and the pattern files are: the error names the kind.
pub proof fn law_fileset_is_unsupported(
    raw: Seq<char>,
    setting: SettingView,
    force_recursive: bool,
    depth: nat,
)
    requires
        split_kind(raw, setting.default_kind) == PatternKind::FileSet,
    ensures
        normalized(seq![raw], setting, force_recursive, depth) == Err::<
            Seq<PatternView>,
            ErrorView,
        >(ErrorView::UnsupportedPatternKind("set"@)),
{
    lemma_normalized_single(raw, setting, force_recursive, depth);
    lemma_normalized_single_candidate(
        PatternKind::FileSet,
        split_text(raw),
        setting,
        force_recursive,
        depth,
    );
}

/// A pattern that names a pattern file stands for what the raw patterns
/// in the file stand for when they are normalized directly, never forced
/// to be recursive, each with the path of the file as its source.
pub proof fn law_listfile_is_its_entries(
    raw: Seq<char>,
    setting: SettingView,
    force_recursive: bool,
    depth: nat,
)
    requires
        split_kind(raw, setting.default_kind).spec_is_listfile(),
        setting.files.contains_key(split_text(raw)),
        depth > 0,
    ensures
        normalized(seq![raw], setting, force_recursive, depth) == match normalized(
            entries_of(
                split_kind(raw, setting.default_kind),
                setting.files[split_text(raw)],
            ),
            setting,
            false,
            (depth - 1) as nat,
        ) {
            Ok(patterns) => Ok(sourced(patterns, split_text(raw))),
            Err(e) => Err(e),
        },
{
    lemma_normalized_single(raw, setting, force_recursive, depth);
    lemma_normalized_single_candidate(
        split_kind(raw, setting.default_kind),
        split_text(raw),
        setting,
        force_recursive,
        depth,
    );
}

/// A pattern of a terminal kind other than a glob stands for exactly one
/// pattern, of its kind, without a source, unless it leads outside the root.
pub proof fn law_terminal_is_one_pattern(
    raw: Seq<char>,
    setting: SettingView,
    force_recursive: bool,
    depth: nat,
)
    requires
        is_terminal(split_kind(raw, setting.default_kind)),
        !split_kind(raw, setting.default_kind).is_glob(),
    ensures
        normalized(seq![raw], setting, force_recursive, depth) == match normal_text(
            split_kind(raw, setting.default_kind),
            split_text(raw),
            setting,
            force_recursive,
        ) {
            Ok(text) => Ok(
                seq![
                    PatternView {
                        kind: split_kind(raw, setting.default_kind),
                        pattern: text,
                        source: None,
                    },
                ],
            ),
            Err(e) => Err(e),
        },
{
    lemma_normalized_single(raw, setting, force_recursive, depth);
    lemma_normalized_single_candidate(
        split_kind(raw, setting.default_kind),
        split_text(raw),
        setting,
        force_recursive,
        depth,
    );
}

/// Once a beginning of `raws` has no normal form, neither has all of it,
/// for the same reason.
pub proof fn lemma_first_error_stays(
    raws: Seq<Seq<char>>,
    n: int,
    setting: SettingView,
    force_recursive: bool,
    depth: nat,
)
    requires
        0 <= n <= raws.len(),
        normalized(raws.take(n), setting, force_recursive, depth) is Err,
    ensures
        normalized(raws, setting, force_recursive, depth) == normalized(
            raws.take(n),
            setting,
            force_recursive,
            depth,
        ),
    decreases raws.len() - n,
{
    if n < raws.len() {
        assert(raws.take(n + 1).drop_last() == raws.take(n));
        lemma_first_error_stays(raws, n + 1, setting, force_recursive, depth);
    } else {
        assert(raws.take(n) == raws);
    }
}

/// Once a beginning of `candidates` has no normal form, neither has all of
/// it, for the same reason.
pub proof fn lemma_first_candidate_error_stays(
    kind: PatternKind,
    candidates: Seq<Seq<char>>,
    n: int,
    setting: SettingView,
    force_recursive: bool,
    depth: nat,
)
    requires
        0 <= n <= candidates.len(),
        normalized_candidates(kind, candidates.take(n), setting, force_recursive, depth) is Err,
    ensures
        normalized_candidates(kind, candidates, setting, force_recursive, depth)
            == normalized_candidates(kind, candidates.take(n), setting, force_recursive, depth),
    decreases candidates.len() - n,
{
    if n < candidates.len() {
        assert(candidates.take(n + 1).drop_last() == candidates.take(n));
        lemma_first_candidate_error_stays(kind, candidates, n + 1, setting, force_recursive, depth);
    } else {
        assert(candidates.take(n) == candidates);
    }
}

/// Rewrites `text`, which is relative to the repository root, as the
/// matcher wants it: see [`rewritten`].
pub fn rewrite_chars(kind: PatternKind, text: Vec<char>, force_recursive: bool) -> (r: Vec<char>)
    ensures
        r@ == rewritten(kind, text@, force_recursive),
{
    let mut t = text;
    if kind.is_glob() || kind.is_path() {
        t = clean_chars(&t);
    }
    if kind.is_path() {
        t = escape_chars(&t);
    }
    if kind.is_glob() {
        t = tighten_chars(&t);
    }
    if kind.is_recursive() || (force_recursive && kind.is_glob()) {
        t = recursive_chars(&t);
    }
    if kind.is_glob() && kind.is_free() && t.len() > 0 {
        let mut free: Vec<char> = Vec::new();
        free.push('*');
        free.push('*');
        free.push('/');
        append_chars(&mut free, &t);
        t = free;
    }
    if kind == PatternKind::RootFilesIn {
        if t.len() > 0 {
            t.push('/');
        }
        t.push('*');
    }
    if kind.is_regex() {
        if t.len() > 0 && t[0] == '^' {
            t = slice_of(&t, 1, t.len());
        } else if kind.is_free() {
            let mut free: Vec<char> = Vec::new();
            free.push('.');
            free.push('*');
            free.push('?');
            append_chars(&mut free, &t);
            t = free;
        }
    }
    t
}

/// The normal text of one candidate: see [`normal_text`].
pub fn normal_chars(
    kind: PatternKind,
    candidate: &Vec<char>,
    setting: &Setting,
    force_recursive: bool,
) -> (r: Result<Vec<char>, Error>)
    ensures
        match r {
            Ok(text) => normal_text(kind, candidate@, setting@, force_recursive) == Ok::<
                Seq<char>,
                ErrorView,
            >(text@),
            Err(e) => normal_text(kind, candidate@, setting@, force_recursive) == Err::<
                Seq<char>,
                ErrorView,
            >(e@),
        },
{
    if kind.is_cwd_relative() {
        match resolve_chars(setting.root, setting.cwd, candidate) {
            Some(below) => Ok(rewrite_chars(kind, below, force_recursive)),
            None => Err(Error::PathOutsideRoot(from_chars(candidate), from_chars(setting.root))),
        }
    } else {
        Ok(rewrite_chars(kind, candidate.clone(), force_recursive))
    }
}

/// Normalizes raw patterns given as characters: see [`normalized`].
pub fn normalize_all(
    raws: &Vec<Vec<char>>,
    setting: &Setting,
    force_recursive: bool,
    depth: usize,
) -> (r: Result<Vec<Pattern>, Error>)
    ensures
        outcome(r) == normalized(rows(raws@), setting@, force_recursive, depth as nat),
    decreases depth, 2int,
{
    let mut out: Vec<Pattern> = Vec::new();
    let mut i: usize = 0;
    proof {
        assert(pattern_views(out@) == Seq::<PatternView>::empty());
    }
    while i < raws.len()
        invariant
            i <= raws.len(),
            normalized(rows(raws@).take(i as int), setting@, force_recursive, depth as nat) == Ok::<
                Seq<PatternView>,
                ErrorView,
            >(pattern_views(out@)),
        decreases raws.len() - i,
    {
        let raw = &raws[i];
        let (kind, start) = split_chars(raw, setting.default_kind);
        let text = slice_of(raw, start, raw.len());
        let candidates = if kind.is_glob() {
            expand_chars(&text)
        } else {
            let mut only: Vec<Vec<char>> = Vec::new();
            only.push(text);
            proof {
                assert(rows(only@) == seq![text@]);
            }
            only
        };
        proof {
            let upto = rows(raws@).take(i + 1);
            assert(upto.drop_last() == rows(raws@).take(i as int));
            assert(upto.last() == raw@);
            assert(text@ == split_text(raw@));
            assert(rows(candidates@) == candidates_of(kind, split_text(raw@)));
        }
        match normalize_candidates(kind, &candidates, setting, force_recursive, depth) {
            Err(e) => {
                proof {
                    lemma_first_error_stays(
                        rows(raws@),
                        i + 1,
                        setting@,
                        force_recursive,
                        depth as nat,
                    );
                }
                return Err(e);
            },
            Ok(mut more) => {
                let ghost before = out@;
                let ghost added = more@;
                out.append(&mut more);
                proof {
                    assert(pattern_views(before + added) == pattern_views(before) + pattern_views(
                        added,
                    ));
                }
            },
        }
        i += 1;
    }
    proof {
        assert(rows(raws@).take(raws.len() as int) == rows(raws@));
    }
    Ok(out)
}

/// Normalizes the candidates of one raw pattern: see
/// [`normalized_candidates`].
pub fn normalize_candidates(
    kind: PatternKind,
    candidates: &Vec<Vec<char>>,
    setting: &Setting,
    force_recursive: bool,
    depth: usize,
) -> (r: Result<Vec<Pattern>, Error>)
    ensures
        outcome(r) == normalized_candidates(
            kind,
            rows(candidates@),
            setting@,
            force_recursive,
            depth as nat,
        ),
    decreases depth, 1int,
{
    let mut out: Vec<Pattern> = Vec::new();
    let mut i: usize = 0;
    proof {
        assert(pattern_views(out@) == Seq::<PatternView>::empty());
    }
    while i < candidates.len()
        invariant
            i <= candidates.len(),
            normalized_candidates(
                kind,
                rows(candidates@).take(i as int),
                setting@,
                force_recursive,
                depth as nat,
            ) == Ok::<Seq<PatternView>, ErrorView>(pattern_views(out@)),
        decreases candidates.len() - i,
    {
        proof {
            let upto = rows(candidates@).take(i + 1);
            assert(upto.drop_last() == rows(candidates@).take(i as int));
            assert(upto.last() == candidates[i as int]@);
        }
        match normalize_candidate(kind, &candidates[i], setting, force_recursive, depth) {
            Err(e) => {
                proof {
                    lemma_first_candidate_error_stays(
                        kind,
                        rows(candidates@),
                        i + 1,
                        setting@,
                        force_recursive,
                        depth as nat,
                    );
                }
                return Err(e);
            },
            Ok(mut more) => {
                let ghost before = out@;
                let ghost added = more@;
                out.append(&mut more);
                proof {
                    assert(pattern_views(before + added) == pattern_views(before) + pattern_views(
                        added,
                    ));
                }
            },
        }
        i += 1;
    }
    proof {
        assert(rows(candidates@).take(candidates.len() as int) == rows(candidates@));
    }
    Ok(out)
}

/// Normalizes one candidate: see [`normalized_candidate`].
pub fn normalize_candidate(
    kind: PatternKind,
    candidate: &Vec<char>,
    setting: &Setting,
    force_recursive: bool,
    depth: usize,
) -> (r: Result<Vec<Pattern>, Error>)
    ensures
        outcome(r) == normalized_candidate(
            kind,
            candidate@,
            setting@,
            force_recursive,
            depth as nat,
        ),
    decreases depth, 0int,
{
    let text = match normal_chars(kind, candidate, setting, force_recursive) {
        Ok(text) => text,
        Err(e) => {
            return Err(e);
        },
    };
    if kind.is_glob() || kind.is_path() || kind.is_regex() {
        let mut out: Vec<Pattern> = Vec::new();
        let pattern = Pattern::new(kind, from_chars(&text));
        out.push(pattern);
        proof {
            assert(pattern_views(out@) == seq![
                PatternView { kind, pattern: text@, source: None },
            ]);
        }
        Ok(out)
    } else if kind == PatternKind::ListFile || kind == PatternKind::ListFile0 {
        match setting.files.find(&text) {
            None => Err(Error::UnreadableListFile(from_chars(&text))),
            Some(contents) => {
                if depth == 0 {
                    return Err(Error::ListFileNestingTooDeep(from_chars(&text)));
                }
                let entries = entries_of_chars(kind, contents);
                match normalize_all(&entries, setting, false, depth - 1) {
                    Err(e) => Err(e),
                    Ok(patterns) => Ok(with_source_chars(patterns, &text)),
                }
            },
        }
    } else {
        Err(Error::UnsupportedPatternKind(kind.name().to_owned()))
    }
}

/// Gives each of `patterns` the source `source`.
pub fn with_source_chars(patterns: Vec<Pattern>, source: &Vec<char>) -> (r: Vec<Pattern>)
    ensures
        pattern_views(r@) == sourced(pattern_views(patterns@), source@),
{
    let mut out: Vec<Pattern> = Vec::new();
    let mut i: usize = 0;
    while i < patterns.len()
        invariant
            i <= patterns.len(),
            pattern_views(out@) == sourced(pattern_views(patterns@), source@).take(i as int),
        decreases patterns.len() - i,
    {
        let p = Pattern {
            kind: patterns[i].kind,
            pattern: patterns[i].pattern.clone(),
            source: Some(from_chars(source)),
        };
        proof {
            assert(pattern_views(out@.push(p)) == pattern_views(out@).push(p@));
        }
        out.push(p);
        i += 1;
    }
    proof {
        assert(sourced(pattern_views(patterns@), source@).take(patterns.len() as int) == sourced(
            pattern_views(patterns@),
            source@,
        ));
    }
    out
}

/// Normalizes raw patterns into patterns that a matcher can compile.
///
/// Each raw pattern is split into kind and text (`default_kind` where it
/// names no kind). The brace groups of a glob are expanded, and each
/// expansion, or the text itself for another kind, is rewritten for the
/// matcher: see [`rewritten`]. Patterns come out in the order of the raw
/// patterns, the expansions of one raw pattern in their own order, and the
/// patterns of a pattern file where the `listfile:` pattern stood.
///
/// `root` is the repository root and `cwd` the working directory, against
/// which `glob:` and `relpath:` patterns are resolved. With
/// `force_recursive_glob` a glob matches a directory together with
/// everything below it. `files` holds the pattern files that can be read,
/// and `max_depth` says how many of them may be open at once, one naming the
/// next.
///
/// The first pattern that has no normal form ends the normalization with
/// its error, and no pattern is returned.
pub fn normalize_patterns(
    patterns: &[String],
    default_kind: PatternKind,
    root: &str,
    cwd: &str,
    force_recursive_glob: bool,
    files: &ListFiles,
    max_depth: usize,
) -> (r: Result<Vec<Pattern>, Error>)
    ensures
        outcome(r) == normalized(
            string_views(patterns@),
            SettingView { default_kind, root: root@, cwd: cwd@, files: files@ },
            force_recursive_glob,
            max_depth as nat,
        ),
{
    let root_chars = to_chars(root);
    let cwd_chars = to_chars(cwd);
    let setting = Setting { default_kind, root: &root_chars, cwd: &cwd_chars, files };
    let mut raws: Vec<Vec<char>> = Vec::new();
    let mut i: usize = 0;
    while i < patterns.len()
        invariant
            i <= patterns.len(),
            rows(raws@) == string_views(patterns@).take(i as int),
        decreases patterns.len() - i,
    {
        let raw = to_chars(patterns[i].as_str());
        proof {
            assert(rows(raws@.push(raw)) == rows(raws@).push(raw@));
        }
        raws.push(raw);
        i += 1;
    }
    proof {
        assert(string_views(patterns@).take(patterns.len() as int) == string_views(patterns@));
    }
    normalize_all(&raws, &setting, force_recursive_glob, max_depth)
}

} // verus!

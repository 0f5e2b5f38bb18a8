//! Paths as text: cleanup, and the path below the repository root that a
//! path relative to the working directory names.
//!
//! Nothing here looks at a file system. A path is its segments, the pieces
//! between separators, and whether it starts at the root of the file
//! system. Both `/` and `\` separate segments, on every platform, and only
//! `/` is written.

use vstd::prelude::*;
use crate::text::{
    append_chars, first_index_of, from_chars, lemma_first_index_of, lemma_first_index_of_is, rows,
    split_at, split_chars_at, to_chars,
};

verus! {

/// `s` with every backslash replaced by a slash.
pub open spec fn with_slashes(s: Seq<char>) -> Seq<char> {
    s.map_values(
        |c: char|
            if c == '\\' {
                '/'
            } else {
                c
            },
    )
}

/// Whether `s`, in which only `/` separates, starts at the root of the
/// file system.
pub open spec fn is_absolute(s: Seq<char>) -> bool {
    s.len() > 0 && s[0] == '/'
}

/// The segment that stands for the directory itself.
pub open spec fn dot() -> Seq<char> {
    seq!['.']
}

/// The segment that stands for the parent directory.
pub open spec fn dot_dot() -> Seq<char> {
    seq!['.', '.']
}

/// A segment that names a file or a directory: not empty, not `.` and not
/// `..`, and without a separator.
pub open spec fn is_name(segment: Seq<char>) -> bool {
    segment.len() > 0 && segment != dot() && segment != dot_dot() && !segment.contains('/')
        && !segment.contains('\\')
}

/// Whether each of `segments` is a name.
pub open spec fn are_names(segments: Seq<Seq<char>>) -> bool {
    forall|k: int| 0 <= k < segments.len() ==> is_name(#[trigger] segments[k])
}

/// The names that are left of `segments` when each is followed in turn:
/// an empty segment and `.` stay where they are, `..` goes back by one
/// name (and stays where nothing is left to go back from), and anything
/// else goes down by one name.
pub open spec fn collapsed(segments: Seq<Seq<char>>) -> Seq<Seq<char>>
    decreases segments.len(),
{
    if segments.len() == 0 {
        seq![]
    } else {
        let before = collapsed(segments.drop_last());
        let segment = segments.last();
        if segment == dot_dot() {
            if before.len() > 0 {
                before.drop_last()
            } else {
                before
            }
        } else if segment.len() == 0 || segment == dot() {
            before
        } else {
            before.push(segment)
        }
    }
}

/// The segments with one `/` between each two of them.
pub open spec fn joined(segments: Seq<Seq<char>>) -> Seq<char>
    decreases segments.len(),
{
    if segments.len() == 0 {
        seq![]
    } else if segments.len() == 1 {
        segments[0]
    } else {
        joined(segments.drop_last()) + seq!['/'] + segments.last()
    }
}

/// The text of the path with the given names: a `/` first if it is
/// absolute, then the names with `/` between them.
pub open spec fn rendered(absolute: bool, names: Seq<Seq<char>>) -> Seq<char> {
    if absolute {
        seq!['/'] + joined(names)
    } else {
        joined(names)
    }
}

/// The names of the path that `path` denotes.
pub open spec fn names_of(path: Seq<char>) -> Seq<Seq<char>> {
    collapsed(split_at(with_slashes(path), '/'))
}

/// `path` without `.`, `..` and needless separators, and with `/` for
/// every separator. The path that names nothing is the empty text, and `..`
/// never leads above where the path starts: `a/../..` is empty, and `/..` is
/// `/`.
pub open spec fn cleaned(path: Seq<char>) -> Seq<char> {
    rendered(is_absolute(with_slashes(path)), names_of(path))
}

/// The names of `path` when it is read in the directory `cwd`: those of
/// `path` alone if it is absolute, else those of `cwd` followed by `path`.
pub open spec fn names_from(cwd: Seq<char>, path: Seq<char>) -> Seq<Seq<char>> {
    if is_absolute(with_slashes(path)) {
        names_of(path)
    } else {
        collapsed(split_at(with_slashes(cwd), '/') + split_at(with_slashes(path), '/'))
    }
}

/// Whether `path`, read in the directory `cwd`, starts at the root of the
/// file system.
pub open spec fn absolute_from(cwd: Seq<char>, path: Seq<char>) -> bool {
    is_absolute(with_slashes(path)) || is_absolute(with_slashes(cwd))
}

/// The path, relative to `root`, of what `path` names when it is read in
/// the directory `cwd`; `None` if that lies outside `root`.
///
/// It lies inside if both start at the root of the file system, or neither
/// does, and the names of `root` are the first names of the path; what is
/// left is the result. Everything lies inside the empty relative `root`, and
/// is left as it is.
pub open spec fn resolved(root: Seq<char>, cwd: Seq<char>, path: Seq<char>) -> Option<Seq<char>> {
    let base = names_of(root);
    let target = names_from(cwd, path);
    if is_absolute(with_slashes(root)) == absolute_from(cwd, path) {
        if base.is_prefix_of(target) {
            Some(joined(target.skip(base.len() as int)))
        } else {
            None
        }
    } else if base.len() == 0 && absolute_from(cwd, path) {
        Some(rendered(true, target))
    } else {
        None
    }
}

/// Where the first `c` of `a + b` is: in `a` if `a` holds one, else where
/// it is in `b`.
pub proof fn lemma_first_index_of_concat(a: Seq<char>, b: Seq<char>, c: char)
    ensures
        first_index_of(a + b, c) == if first_index_of(a, c) < a.len() {
            first_index_of(a, c)
        } else {
            a.len() + first_index_of(b, c)
        },
{
    lemma_first_index_of(a, c);
    lemma_first_index_of(b, c);
    let i = if first_index_of(a, c) < a.len() {
        first_index_of(a, c)
    } else {
        a.len() + first_index_of(b, c)
    };
    lemma_first_index_of_is(a + b, c, i);
}

/// Splitting two texts with a separator between them gives the pieces of
/// the first and then those of the second.
pub proof fn lemma_split_at_concat(a: Seq<char>, b: Seq<char>, sep: char)
    ensures
        split_at(a + seq![sep] + b, sep) == split_at(a, sep) + split_at(b, sep),
    decreases a.len(),
{
    let whole = a + seq![sep] + b;
    let p = first_index_of(a, sep);
    lemma_first_index_of(a, sep);
    lemma_first_index_of_concat(a, seq![sep] + b, sep);
    assert(whole == a + (seq![sep] + b));
    assert(first_index_of(seq![sep] + b, sep) == 0);
    if p < a.len() {
        assert(whole.take(p) == a.take(p));
        assert(whole.skip(p + 1) == a.skip(p + 1) + seq![sep] + b);
        lemma_split_at_concat(a.skip(p + 1), b, sep);
        assert(seq![a.take(p)] + (split_at(a.skip(p + 1), sep) + split_at(b, sep)) == (seq![
            a.take(p),
        ] + split_at(a.skip(p + 1), sep)) + split_at(b, sep));
    } else {
        assert(first_index_of(whole, sep) == a.len());
        assert(whole.take(a.len() as int) == a);
        assert(whole.skip(a.len() as int + 1) == b);
    }
}

/// No piece of a split holds the separator, and a piece holds only
/// characters of the text.
pub proof fn lemma_split_pieces(s: Seq<char>, sep: char)
    ensures
        forall|k: int|
            0 <= k < split_at(s, sep).len() ==> !(#[trigger] split_at(s, sep)[k]).contains(sep),
        forall|k: int, i: int|
            0 <= k < split_at(s, sep).len() && 0 <= i < split_at(s, sep)[k].len() ==> s.contains(
                #[trigger] split_at(s, sep)[k][i],
            ),
    decreases s.len(),
{
    let p = first_index_of(s, sep);
    lemma_first_index_of(s, sep);
    if p < s.len() {
        let rest = s.skip(p + 1);
        lemma_split_pieces(rest, sep);
        let pieces = split_at(s, sep);
        assert(pieces == seq![s.take(p)] + split_at(rest, sep));
        assert forall|k: int| 0 <= k < pieces.len() implies !(#[trigger] pieces[k]).contains(
            sep,
        ) by {
            if k > 0 {
                assert(pieces[k] == split_at(rest, sep)[k - 1]);
            }
        }
        assert forall|k: int, i: int|
            0 <= k < pieces.len() && 0 <= i < pieces[k].len() implies s.contains(
            #[trigger] pieces[k][i],
        ) by {
            if k > 0 {
                let piece = split_at(rest, sep)[k - 1];
                assert(pieces[k] == piece);
                assert(rest.contains(piece[i]));
                let j = choose|j: int| 0 <= j < rest.len() && rest[j] == piece[i];
                assert(s[p + 1 + j] == piece[i]);
            } else {
                assert(s[i] == pieces[0][i]);
            }
        }
    } else {
        assert(split_at(s, sep) == seq![s]);
        assert forall|i: int| 0 <= i < s.len() implies s.contains(#[trigger] s[i]) by {}
    }
}

/// What is left of segments without separators are names.
pub proof fn lemma_collapsed_are_names(segments: Seq<Seq<char>>)
    requires
        forall|k: int|
            0 <= k < segments.len() ==> !(#[trigger] segments[k]).contains('/')
                && !segments[k].contains('\\'),
    ensures
        are_names(collapsed(segments)),
    decreases segments.len(),
{
    if segments.len() > 0 {
        let front = segments.drop_last();
        assert forall|k: int| 0 <= k < front.len() implies !(#[trigger] front[k]).contains('/')
            && !front[k].contains('\\') by {
            assert(front[k] == segments[k]);
        }
        lemma_collapsed_are_names(front);
        assert(segments.last() == segments[segments.len() - 1]);
    }
}

/// Names are left as they are, and an empty segment before them is
/// dropped.
pub proof fn lemma_collapsed_names(names: Seq<Seq<char>>)
    requires
        are_names(names),
    ensures
        collapsed(names) == names,
        collapsed(seq![Seq::<char>::empty()] + names) == names,
    decreases names.len(),
{
    let led = seq![Seq::<char>::empty()] + names;
    if names.len() > 0 {
        let front = names.drop_last();
        assert forall|k: int| 0 <= k < front.len() implies is_name(#[trigger] front[k]) by {
            assert(front[k] == names[k]);
        }
        lemma_collapsed_names(front);
        assert(is_name(names[names.len() - 1]));
        assert(led.drop_last() == seq![Seq::<char>::empty()] + front);
        assert(led.last() == names.last());
        assert(front.push(names.last()) == names);
    } else {
        assert(led.drop_last() == Seq::<Seq<char>>::empty());
        assert(collapsed(led.drop_last()) == Seq::<Seq<char>>::empty());
        assert(led.last().len() == 0);
        assert(names == Seq::<Seq<char>>::empty());
    }
}

/// Joined names hold no backslash, do not start with a slash, and split
/// into the names again.
pub proof fn lemma_joined_names(names: Seq<Seq<char>>)
    requires
        are_names(names),
    ensures
        !joined(names).contains('\\'),
        !is_absolute(joined(names)),
        names.len() > 0 ==> split_at(joined(names), '/') == names,
        names.len() > 0 ==> joined(names).len() > 0,
    decreases names.len(),
{
    if names.len() == 0 {
    } else if names.len() == 1 {
        let name = names[0];
        assert(is_name(name));
        lemma_first_index_of(name, '/');
        if first_index_of(name, '/') < name.len() {
            assert(name.contains(name[first_index_of(name, '/')]));
        }
        assert(split_at(name, '/') == seq![name]);
        assert(seq![name] == names);
        if name[0] == '/' {
            assert(name.contains(name[0]));
        }
    } else {
        let front = names.drop_last();
        let name = names.last();
        assert forall|k: int| 0 <= k < front.len() implies is_name(#[trigger] front[k]) by {
            assert(front[k] == names[k]);
        }
        lemma_joined_names(front);
        assert(is_name(names[names.len() - 1]));
        let text = joined(front) + seq!['/'] + name;
        assert(joined(names) == text);
        assert forall|i: int| 0 <= i < text.len() implies text[i] != '\\' by {
            if i < joined(front).len() {
                assert(joined(front).contains(text[i]));
            } else if i > joined(front).len() {
                assert(name[i - joined(front).len() - 1] == text[i]);
                assert(name.contains(text[i]));
            }
        }
        assert(text[0] == joined(front)[0]);
        lemma_split_at_concat(joined(front), name, '/');
        lemma_first_index_of(name, '/');
        if first_index_of(name, '/') < name.len() {
            assert(name.contains(name[first_index_of(name, '/')]));
        }
        assert(split_at(name, '/') == seq![name]);
        assert(front + seq![name] == names);
    }
}

/// A text without backslashes is left as it is.
pub proof fn lemma_with_slashes_without_backslash(s: Seq<char>)
    requires
        !s.contains('\\'),
    ensures
        with_slashes(s) == s,
{
    assert forall|i: int| 0 <= i < s.len() implies with_slashes(s)[i] == s[i] by {
        if s[i] == '\\' {
            assert(s.contains(s[i]));
        }
    }
    assert(with_slashes(s) =~= s);
}

/// The names of a path are names.
pub proof fn lemma_names_of(path: Seq<char>)
    ensures
        are_names(names_of(path)),
{
    let t = with_slashes(path);
    let segments = split_at(t, '/');
    lemma_split_pieces(t, '/');
    assert forall|k: int| 0 <= k < segments.len() implies !(#[trigger] segments[k]).contains('/')
        && !segments[k].contains('\\') by {
        if segments[k].contains('\\') {
            let i = choose|i: int| 0 <= i < segments[k].len() && segments[k][i] == '\\';
            assert(t.contains(segments[k][i]));
            let j = choose|j: int| 0 <= j < t.len() && t[j] == '\\';
            assert(t[j] == if path[j] == '\\' {
                '/'
            } else {
                path[j]
            });
        }
    }
    lemma_collapsed_are_names(segments);
}

/// Cleaning a clean path changes nothing.
pub proof fn law_cleaned_is_clean(path: Seq<char>)
    ensures
        cleaned(cleaned(path)) == cleaned(path),
{
    let absolute = is_absolute(with_slashes(path));
    let names = names_of(path);
    let clean = cleaned(path);
    lemma_names_of(path);
    lemma_joined_names(names);
    lemma_collapsed_names(names);
    let body = joined(names);
    assert forall|i: int| 0 <= i < clean.len() implies clean[i] != '\\' by {
        if absolute {
            if i > 0 {
                assert(body[i - 1] == clean[i]);
                assert(body.contains(clean[i]));
            }
        } else {
            assert(body.contains(clean[i]));
        }
    }
    lemma_with_slashes_without_backslash(clean);
    assert(is_absolute(clean) == absolute);
    if absolute {
        assert(clean == Seq::<char>::empty() + seq!['/'] + body);
        lemma_split_at_concat(Seq::<char>::empty(), body, '/');
        assert(first_index_of(Seq::<char>::empty(), '/') == 0);
        assert(split_at(Seq::<char>::empty(), '/') == seq![Seq::<char>::empty()]);
        if names.len() > 0 {
            assert(split_at(clean, '/') == seq![Seq::<char>::empty()] + names);
        } else {
            assert(body == Seq::<char>::empty());
            assert(split_at(clean, '/') == seq![Seq::<char>::empty()] + seq![
                Seq::<char>::empty(),
            ]);
            reveal_with_fuel(collapsed, 3);
            assert(collapsed(split_at(clean, '/')) == names);
        }
    } else {
        if names.len() == 0 {
            assert(clean == Seq::<char>::empty());
            assert(first_index_of(clean, '/') == 0);
            assert(split_at(clean, '/') == seq![clean]);
            reveal_with_fuel(collapsed, 2);
            assert(collapsed(split_at(clean, '/')) == names);
        }
    }
    assert(names_of(clean) == names);
}

/// Replaces every backslash by a slash.
pub fn slash_chars(s: &Vec<char>) -> (r: Vec<char>)
    ensures
        r@ == with_slashes(s@),
{
    let mut r: Vec<char> = Vec::new();
    let mut i: usize = 0;
    while i < s.len()
        invariant
            i <= s.len(),
            r@ == with_slashes(s@).take(i as int),
        decreases s.len() - i,
    {
        let c = s[i];
        if c == '\\' {
            r.push('/');
        } else {
            r.push(c);
        }
        i += 1;
    }
    proof {
        assert(with_slashes(s@).take(s.len() as int) == with_slashes(s@));
    }
    r
}

/// The segments of `path`, split at `/` and at `\`.
pub fn segments_of(path: &Vec<char>) -> (r: Vec<Vec<char>>)
    ensures
        rows(r@) == split_at(with_slashes(path@), '/'),
{
    split_chars_at(&slash_chars(path), '/')
}

/// Whether `path` starts with a separator.
pub fn starts_at_root(path: &Vec<char>) -> (r: bool)
    ensures
        r == is_absolute(with_slashes(path@)),
{
    path.len() > 0 && (path[0] == '/' || path[0] == '\\')
}

/// Follows the segments one by one and keeps the names that are left.
pub fn collapse(segments: &Vec<Vec<char>>) -> (r: Vec<Vec<char>>)
    ensures
        rows(r@) == collapsed(rows(segments@)),
{
    let mut r: Vec<Vec<char>> = Vec::new();
    let mut i: usize = 0;
    while i < segments.len()
        invariant
            i <= segments.len(),
            rows(r@) == collapsed(rows(segments@).take(i as int)),
        decreases segments.len() - i,
    {
        let segment = &segments[i];
        proof {
            let upto = rows(segments@).take(i + 1);
            assert(upto.drop_last() == rows(segments@).take(i as int));
            assert(upto.last() == segment@);
        }
        let ghost before = r@;
        if segment.len() == 2 && segment[0] == '.' && segment[1] == '.' {
            proof {
                assert(segment@ =~= dot_dot());
            }
            if r.len() > 0 {
                r.pop();
                proof {
                    assert(rows(r@) == rows(before).drop_last());
                }
            }
        } else if segment.len() == 0 || (segment.len() == 1 && segment[0] == '.') {
            proof {
                if segment.len() == 1 {
                    assert(segment@ =~= dot());
                }
            }
        } else {
            proof {
                if segment@ == dot_dot() {
                    assert(dot_dot().len() == 2 && dot_dot()[0] == '.' && dot_dot()[1] == '.');
                }
                if segment@ == dot() {
                    assert(dot().len() == 1 && dot()[0] == '.');
                }
                assert(rows(before.push(*segment)) == rows(before).push(segment@));
            }
            r.push(segment.clone());
        }
        i += 1;
    }
    proof {
        assert(rows(segments@).take(segments.len() as int) == rows(segments@));
    }
    r
}

/// Writes the names with `/` between them, after a `/` if `absolute`.
pub fn render(absolute: bool, names: &Vec<Vec<char>>) -> (r: Vec<char>)
    ensures
        r@ == rendered(absolute, rows(names@)),
{
    let mut r: Vec<char> = Vec::new();
    if absolute {
        r.push('/');
    }
    let ghost lead = r@;
    let mut i: usize = 0;
    while i < names.len()
        invariant
            i <= names.len(),
            r@ == lead + joined(rows(names@).take(i as int)),
        decreases names.len() - i,
    {
        proof {
            let upto = rows(names@).take(i + 1);
            assert(upto.drop_last() == rows(names@).take(i as int));
            assert(upto.last() == names[i as int]@);
            if i == 0 {
                assert(upto[0] == names[0]@);
            }
        }
        if i > 0 {
            r.push('/');
        }
        append_chars(&mut r, &names[i]);
        i += 1;
    }
    proof {
        assert(rows(names@).take(names.len() as int) == rows(names@));
    }
    r
}

/// Cleans `path`: see [`cleaned`].
pub fn clean_chars(path: &Vec<char>) -> (r: Vec<char>)
    ensures
        r@ == cleaned(path@),
{
    let names = collapse(&segments_of(path));
    render(starts_at_root(path), &names)
}

/// Whether the first vectors of `target` are those of `base`.
pub fn starts_with_names(target: &Vec<Vec<char>>, base: &Vec<Vec<char>>) -> (r: bool)
    ensures
        r == rows(base@).is_prefix_of(rows(target@)),
{
    if base.len() > target.len() {
        return false;
    }
    let mut i: usize = 0;
    while i < base.len()
        invariant
            i <= base.len() <= target.len(),
            forall|k: int| 0 <= k < i ==> base[k]@ == target[k]@,
        decreases base.len() - i,
    {
        if !crate::text::same_chars(&base[i], &target[i]) {
            proof {
                if rows(base@).is_prefix_of(rows(target@)) {
                    assert(rows(base@)[i as int] == rows(target@).subrange(
                        0,
                        base.len() as int,
                    )[i as int]);
                }
            }
            return false;
        }
        i += 1;
    }
    proof {
        assert(rows(base@) =~= rows(target@).subrange(0, base.len() as int));
    }
    true
}

/// Resolves `path`, read in `cwd`, against `root`: see [`resolved`].
pub fn resolve_chars(root: &Vec<char>, cwd: &Vec<char>, path: &Vec<char>) -> (r: Option<Vec<char>>)
    ensures
        match r {
            Some(below) => resolved(root@, cwd@, path@) == Some(below@),
            None => resolved(root@, cwd@, path@) is None,
        },
{
    let base = collapse(&segments_of(root));
    let path_absolute = starts_at_root(path);
    let target = if path_absolute {
        collapse(&segments_of(path))
    } else {
        let mut segments = segments_of(cwd);
        let mut more = segments_of(path);
        let ghost first = segments@;
        let ghost second = more@;
        segments.append(&mut more);
        proof {
            assert(rows(first + second) == rows(first) + rows(second));
        }
        collapse(&segments)
    };
    let absolute = path_absolute || starts_at_root(cwd);
    if starts_at_root(root) == absolute {
        if starts_with_names(&target, &base) {
            let mut below: Vec<Vec<char>> = Vec::new();
            let mut i: usize = base.len();
            while i < target.len()
                invariant
                    base.len() <= i <= target.len(),
                    rows(below@) == rows(target@).subrange(base.len() as int, i as int),
                decreases target.len() - i,
            {
                proof {
                    assert(rows(below@.push(target[i as int])) == rows(below@).push(
                        target[i as int]@,
                    ));
                }
                below.push(target[i].clone());
                i += 1;
            }
            proof {
                assert(rows(target@).subrange(base.len() as int, target.len() as int) == rows(
                    target@,
                ).skip(base.len() as int));
            }
            Some(render(false, &below))
        } else {
            None
        }
    } else if base.len() == 0 && absolute {
        Some(render(true, &target))
    } else {
        None
    }
}

/// `pattern` as a clean path: `.`, `..` and needless separators are gone,
/// and every separator is `/`. `foo/bar/../baz/` becomes `foo/baz`.
pub fn normalize_path_pattern(pattern: &str) -> (r: String)
    ensures
        r@ == cleaned(pattern@),
{
    from_chars(&clean_chars(&to_chars(pattern)))
}

} // verus!

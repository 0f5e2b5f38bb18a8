//! Pattern files: their text, and the files that a normalization may read.

use vstd::prelude::*;
use crate::kind::PatternKind;
use crate::text::{
    first_index_of, from_chars, rows, same_chars, slice_of, split_at, split_chars_at, to_chars,
};

verus! {

/// `line` without the carriage return at its end, if it has one.
pub open spec fn without_cr(line: Seq<char>) -> Seq<char> {
    if line.len() > 0 && line.last() == '\r' {
        line.drop_last()
    } else {
        line
    }
}

/// The lines of `text`. A line ends with a newline, or with a carriage
/// return and a newline, neither of which belongs to it. What follows the
/// last newline is a line too, as it stands, unless it is empty.
pub open spec fn lines_of(text: Seq<char>) -> Seq<Seq<char>> {
    let pieces = split_at(text, '\n');
    let ended = pieces.drop_last().map_values(|piece: Seq<char>| without_cr(piece));
    if pieces.last().len() == 0 {
        ended
    } else {
        ended.push(pieces.last())
    }
}

/// The raw patterns that a pattern file of the given kind holds: the lines
/// of a `ListFile`, and the pieces between the NULs of a `ListFile0`.
pub open spec fn entries_of(kind: PatternKind, contents: Seq<char>) -> Seq<Seq<char>> {
    if kind == PatternKind::ListFile {
        lines_of(contents)
    } else {
        split_at(contents, '\0')
    }
}

/// A split has at least one piece.
pub proof fn lemma_split_at_is_not_empty(s: Seq<char>, sep: char)
    ensures
        split_at(s, sep).len() >= 1,
{
    let p = first_index_of(s, sep);
    if 0 <= p < s.len() {
        assert(split_at(s, sep) == seq![s.take(p)] + split_at(s.skip(p + 1), sep));
    } else {
        assert(split_at(s, sep) == seq![s]);
    }
}

/// The lines of `text`: see [`lines_of`].
pub fn lines_of_chars(text: &Vec<char>) -> (r: Vec<Vec<char>>)
    ensures
        rows(r@) == lines_of(text@),
{
    let pieces = split_chars_at(text, '\n');
    proof {
        lemma_split_at_is_not_empty(text@, '\n');
    }
    let ghost ended = rows(pieces@).drop_last().map_values(|piece: Seq<char>| without_cr(piece));
    let mut r: Vec<Vec<char>> = Vec::new();
    let last = pieces.len() - 1;
    let mut i: usize = 0;
    while i < last
        invariant
            i <= last,
            last == pieces.len() - 1,
            ended == rows(pieces@).drop_last().map_values(|piece: Seq<char>| without_cr(piece)),
            rows(r@) == ended.take(i as int),
        decreases last - i,
    {
        let piece = &pieces[i];
        let line = if piece.len() > 0 && piece[piece.len() - 1] == '\r' {
            slice_of(piece, 0, piece.len() - 1)
        } else {
            piece.clone()
        };
        proof {
            assert(line@ == without_cr(piece@));
            assert(rows(r@.push(line)) == rows(r@).push(line@));
            assert(ended.take(i + 1) == ended.take(i as int).push(ended[i as int]));
        }
        r.push(line);
        i += 1;
    }
    proof {
        assert(ended.take(last as int) == ended);
    }
    if pieces[last].len() > 0 {
        proof {
            assert(rows(r@.push(pieces[last as int])) == rows(r@).push(pieces[last as int]@));
        }
        r.push(pieces[last].clone());
    }
    r
}

/// The raw patterns of a pattern file: see [`entries_of`].
pub fn entries_of_chars(kind: PatternKind, contents: &Vec<char>) -> (r: Vec<Vec<char>>)
    ensures
        rows(r@) == entries_of(kind, contents@),
{
    match kind {
        PatternKind::ListFile => lines_of_chars(contents),
        _ => split_chars_at(contents, '\0'),
    }
}

/// The pattern files that a normalization may read: the text of each, under
/// its path. A path that is not here names a file that cannot be read.
///
/// A path is looked up as it is written: `a/b` and `a//b` are two paths.
pub struct ListFiles {
    files: Vec<(Vec<char>, Vec<char>)>,
}

/// The map that a sequence of files stands for, later ones replacing earlier
/// ones of the same path.
spec fn map_of(files: Seq<(Vec<char>, Vec<char>)>) -> Map<Seq<char>, Seq<char>>
    decreases files.len(),
{
    if files.len() == 0 {
        Map::empty()
    } else {
        map_of(files.drop_last()).insert(files.last().0@, files.last().1@)
    }
}

impl View for ListFiles {
    type V = Map<Seq<char>, Seq<char>>;

    /// The text of each file, by path.
    closed spec fn view(&self) -> Map<Seq<char>, Seq<char>> {
        map_of(self.files@)
    }
}

impl ListFiles {
    /// No file at all.
    pub fn new() -> (r: ListFiles)
        ensures
            r@ == Map::<Seq<char>, Seq<char>>::empty(),
    {
        ListFiles { files: Vec::new() }
    }

    /// Records that the file at `path` holds `contents`, in place of what it
    /// held before.
    pub fn insert(&mut self, path: &str, contents: &str)
        ensures
            final(self)@ == old(self)@.insert(path@, contents@),
    {
        let ghost before = self.files@;
        self.files.push((to_chars(path), to_chars(contents)));
        proof {
            assert(self.files@.drop_last() == before);
        }
    }

    /// Whether the file at `path` can be read.
    pub fn contains(&self, path: &str) -> (r: bool)
        ensures
            r == self@.contains_key(path@),
    {
        self.find(&to_chars(path)).is_some()
    }

    /// The text of the file at `path`, if it can be read.
    pub fn get(&self, path: &str) -> (r: Option<String>)
        ensures
            match r {
                Some(contents) => self@.contains_key(path@) && self@[path@] == contents@,
                None => !self@.contains_key(path@),
            },
    {
        match self.find(&to_chars(path)) {
            Some(contents) => Some(from_chars(contents)),
            None => None,
        }
    }

    /// The text of the file at `path`, if it can be read.
    pub fn find(&self, path: &Vec<char>) -> (r: Option<&Vec<char>>)
        ensures
            match r {
                Some(contents) => self@.contains_key(path@) && self@[path@] == contents@,
                None => !self@.contains_key(path@),
            },
    {
        let mut i: usize = self.files.len();
        while i > 0
            invariant
                i <= self.files.len(),
                forall|k: int| i <= k < self.files.len() ==> self.files[k].0@ != path@,
            decreases i,
        {
            i -= 1;
            if same_chars(&self.files[i].0, path) {
                proof {
                    lemma_map_of_found(self.files@, path@, i as int);
                }
                return Some(&self.files[i].1);
            }
        }
        proof {
            lemma_map_of_missing(self.files@, path@);
        }
        None
    }
}

proof fn lemma_map_of_found(files: Seq<(Vec<char>, Vec<char>)>, path: Seq<char>, i: int)
    requires
        0 <= i < files.len(),
        files[i].0@ == path,
        forall|k: int| i < k < files.len() ==> files[k].0@ != path,
    ensures
        map_of(files).contains_key(path),
        map_of(files)[path] == files[i].1@,
    decreases files.len(),
{
    if i < files.len() - 1 {
        lemma_map_of_found(files.drop_last(), path, i);
    }
}

proof fn lemma_map_of_missing(files: Seq<(Vec<char>, Vec<char>)>, path: Seq<char>)
    requires
        forall|k: int| 0 <= k < files.len() ==> files[k].0@ != path,
    ensures
        !map_of(files).contains_key(path),
    decreases files.len(),
{
    if files.len() > 0 {
        lemma_map_of_missing(files.drop_last(), path);
    }
}

} // verus!

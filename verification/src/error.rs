//! The ways in which normalizing a pattern can fail.

use vstd::prelude::*;

verus! {

/// Why a pattern could not be normalized. Every error names the text that
/// caused it; none is worth retrying.
#[derive(Debug, PartialEq, Eq, Clone)]
pub enum Error {
    /// The name is not that of a pattern kind, or the kind it names has no
    /// normal form (`set`).
    UnsupportedPatternKind(String),
    /// The pattern, read relative to the working directory, points outside
    /// the repository root. The fields are the pattern and the root.
    PathOutsideRoot(String, String),
    /// A path is not valid Unicode. The field is the path, lossily decoded.
    NonUtf8(String),
    /// The file that a `listfile:` or `listfile0:` pattern names could not be
    /// read. The field is its path.
    UnreadableListFile(String),
    /// Pattern files name each other more deeply than the caller allows. The
    /// field is the path of the file that was not opened.
    ListFileNestingTooDeep(String),
}

/// An [`Error`] with its strings as sequences of characters.
pub enum ErrorView {
    UnsupportedPatternKind(Seq<char>),
    PathOutsideRoot(Seq<char>, Seq<char>),
    NonUtf8(Seq<char>),
    UnreadableListFile(Seq<char>),
    ListFileNestingTooDeep(Seq<char>),
}

impl View for Error {
    type V = ErrorView;

    open spec fn view(&self) -> ErrorView {
        match self {
            Error::UnsupportedPatternKind(name) => ErrorView::UnsupportedPatternKind(name@),
            Error::PathOutsideRoot(pattern, root) => ErrorView::PathOutsideRoot(pattern@, root@),
            Error::NonUtf8(text) => ErrorView::NonUtf8(text@),
            Error::UnreadableListFile(path) => ErrorView::UnreadableListFile(path@),
            Error::ListFileNestingTooDeep(path) => ErrorView::ListFileNestingTooDeep(path@),
        }
    }
}

} // verus!

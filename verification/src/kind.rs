//! Pattern kinds and the properties that follow from them.

use vstd::prelude::*;
use crate::error::{Error, ErrorView};
use crate::text::{chars_are, to_chars};

verus! {

/// How the text of a pattern is to be read.
#[derive(Debug, PartialEq, Eq, Structural, Copy, Clone, Hash)]
pub enum PatternKind {
    /// A regular expression relative to the repository root.
    RE,
    /// A shell-style glob relative to the working directory.
    Glob,
    /// A path relative to the repository root; a directory is matched
    /// together with everything below it.
    Path,
    /// An unrooted glob (`*.c` matches C files in every directory).
    RelGlob,
    /// A path relative to the working directory.
    RelPath,
    /// An unrooted regular expression, which need not match at the start of
    /// a path.
    RelRE,
    /// Patterns are read from a file, one per line.
    ListFile,
    /// Patterns are read from a file, separated by NUL.
    ListFile0,
    /// A fileset expression.
    FileSet,
    /// A path relative to the repository root that matches the files
    /// directly inside it, not those of its subdirectories.
    RootFilesIn,
}

/// The kind whose name is `name`, if there is one. Names are compared
/// exactly: `Glob` is no kind.
pub open spec fn kind_named(name: Seq<char>) -> Option<PatternKind> {
    if name == "re"@ {
        Some(PatternKind::RE)
    } else if name == "glob"@ {
        Some(PatternKind::Glob)
    } else if name == "path"@ {
        Some(PatternKind::Path)
    } else if name == "relglob"@ {
        Some(PatternKind::RelGlob)
    } else if name == "relpath"@ {
        Some(PatternKind::RelPath)
    } else if name == "relre"@ {
        Some(PatternKind::RelRE)
    } else if name == "listfile"@ {
        Some(PatternKind::ListFile)
    } else if name == "listfile0"@ {
        Some(PatternKind::ListFile0)
    } else if name == "set"@ {
        Some(PatternKind::FileSet)
    } else if name == "rootfilesin"@ {
        Some(PatternKind::RootFilesIn)
    } else {
        None
    }
}

impl PatternKind {
    /// The name by which a pattern selects this kind, as in `glob:*.c`.
    pub open spec fn spec_name(&self) -> Seq<char> {
        match self {
            PatternKind::RE => "re"@,
            PatternKind::Glob => "glob"@,
            PatternKind::Path => "path"@,
            PatternKind::RelGlob => "relglob"@,
            PatternKind::RelPath => "relpath"@,
            PatternKind::RelRE => "relre"@,
            PatternKind::ListFile => "listfile"@,
            PatternKind::ListFile0 => "listfile0"@,
            PatternKind::FileSet => "set"@,
            PatternKind::RootFilesIn => "rootfilesin"@,
        }
    }

    pub open spec fn spec_is_glob(&self) -> bool {
        *self == PatternKind::Glob || *self == PatternKind::RelGlob
    }

    pub open spec fn spec_is_path(&self) -> bool {
        *self == PatternKind::Path || *self == PatternKind::RelPath
            || *self == PatternKind::RootFilesIn
    }

    pub open spec fn spec_is_regex(&self) -> bool {
        *self == PatternKind::RE || *self == PatternKind::RelRE
    }

    pub open spec fn spec_is_recursive(&self) -> bool {
        *self == PatternKind::Path || *self == PatternKind::RelPath
    }

    pub open spec fn spec_is_cwd_relative(&self) -> bool {
        *self == PatternKind::RelPath || *self == PatternKind::Glob
    }

    pub open spec fn spec_is_free(&self) -> bool {
        *self == PatternKind::RelGlob || *self == PatternKind::RelRE
    }

    /// Whether patterns of this kind are read from a file.
    pub open spec fn spec_is_listfile(&self) -> bool {
        *self == PatternKind::ListFile || *self == PatternKind::ListFile0
    }

    /// The name by which a pattern selects this kind, as in `glob:*.c`.
    pub fn name(&self) -> (r: &'static str)
        ensures
            r@ == self.spec_name(),
    {
        match self {
            PatternKind::RE => "re",
            PatternKind::Glob => "glob",
            PatternKind::Path => "path",
            PatternKind::RelGlob => "relglob",
            PatternKind::RelPath => "relpath",
            PatternKind::RelRE => "relre",
            PatternKind::ListFile => "listfile",
            PatternKind::ListFile0 => "listfile0",
            PatternKind::FileSet => "set",
            PatternKind::RootFilesIn => "rootfilesin",
        }
    }

    /// A glob: `*`, `?`, `[..]` and `{..}` have their special meaning.
    #[verifier::when_used_as_spec(spec_is_glob)]
    pub fn is_glob(&self) -> (r: bool)
        ensures
            r == self.spec_is_glob(),
    {
        match self {
            PatternKind::Glob | PatternKind::RelGlob => true,
            _ => false,
        }
    }

    /// A literal path: no character has a special meaning.
    #[verifier::when_used_as_spec(spec_is_path)]
    pub fn is_path(&self) -> (r: bool)
        ensures
            r == self.spec_is_path(),
    {
        match self {
            PatternKind::Path | PatternKind::RelPath | PatternKind::RootFilesIn => true,
            _ => false,
        }
    }

    /// A regular expression.
    #[verifier::when_used_as_spec(spec_is_regex)]
    pub fn is_regex(&self) -> (r: bool)
        ensures
            r == self.spec_is_regex(),
    {
        match self {
            PatternKind::RE | PatternKind::RelRE => true,
            _ => false,
        }
    }

    /// Matches a directory together with everything below it.
    #[verifier::when_used_as_spec(spec_is_recursive)]
    pub fn is_recursive(&self) -> (r: bool)
        ensures
            r == self.spec_is_recursive(),
    {
        match self {
            PatternKind::Path | PatternKind::RelPath => true,
            _ => false,
        }
    }

    /// Read relative to the working directory, not to the repository root.
    #[verifier::when_used_as_spec(spec_is_cwd_relative)]
    pub fn is_cwd_relative(&self) -> (r: bool)
        ensures
            r == self.spec_is_cwd_relative(),
    {
        match self {
            PatternKind::RelPath | PatternKind::Glob => true,
            _ => false,
        }
    }

    /// Unrooted: may match from any depth, not only from the repository
    /// root.
    #[verifier::when_used_as_spec(spec_is_free)]
    pub fn is_free(&self) -> (r: bool)
        ensures
            r == self.spec_is_free(),
    {
        match self {
            PatternKind::RelGlob | PatternKind::RelRE => true,
            _ => false,
        }
    }

    /// The kind named `s`. Any other text, a name in another case
    /// included, is an `UnsupportedPatternKind` error that carries `s`.
    pub fn from_str(s: &str) -> (r: Result<PatternKind, Error>)
        ensures
            match r {
                Ok(kind) => kind_named(s@) == Some(kind),
                Err(e) => kind_named(s@) is None && e@ == ErrorView::UnsupportedPatternKind(s@),
            },
    {
        let name = to_chars(s);
        match kind_of_chars(&name) {
            Some(kind) => Ok(kind),
            None => Err(Error::UnsupportedPatternKind(s.to_owned())),
        }
    }
}

/// The kind whose name is spelled by `name`.
pub fn kind_of_chars(name: &Vec<char>) -> (r: Option<PatternKind>)
    ensures
        r == kind_named(name@),
{
    if chars_are(name, "re") {
        Some(PatternKind::RE)
    } else if chars_are(name, "glob") {
        Some(PatternKind::Glob)
    } else if chars_are(name, "path") {
        Some(PatternKind::Path)
    } else if chars_are(name, "relglob") {
        Some(PatternKind::RelGlob)
    } else if chars_are(name, "relpath") {
        Some(PatternKind::RelPath)
    } else if chars_are(name, "relre") {
        Some(PatternKind::RelRE)
    } else if chars_are(name, "listfile") {
        Some(PatternKind::ListFile)
    } else if chars_are(name, "listfile0") {
        Some(PatternKind::ListFile0)
    } else if chars_are(name, "set") {
        Some(PatternKind::FileSet)
    } else if chars_are(name, "rootfilesin") {
        Some(PatternKind::RootFilesIn)
    } else {
        None
    }
}

impl std::str::FromStr for PatternKind {
    type Err = Error;

    /// The kind named `s`, as `PatternKind::from_str` gives it: any text
    /// that names no kind is an `UnsupportedPatternKind` error that carries
    /// `s`.
    fn from_str(s: &str) -> (r: Result<PatternKind, Error>)
        ensures
            match r {
                Ok(kind) => kind_named(s@) == Some(kind),
                Err(e) => kind_named(s@) is None && e@ == ErrorView::UnsupportedPatternKind(s@),
            },
    {
        PatternKind::from_str(s)
    }
}

/// What the ten names are, character by character.
pub proof fn lemma_kind_names()
    ensures
        "re"@ == seq!['r', 'e'],
        "glob"@ == seq!['g', 'l', 'o', 'b'],
        "path"@ == seq!['p', 'a', 't', 'h'],
        "relglob"@ == seq!['r', 'e', 'l', 'g', 'l', 'o', 'b'],
        "relpath"@ == seq!['r', 'e', 'l', 'p', 'a', 't', 'h'],
        "relre"@ == seq!['r', 'e', 'l', 'r', 'e'],
        "listfile"@ == seq!['l', 'i', 's', 't', 'f', 'i', 'l', 'e'],
        "listfile0"@ == seq!['l', 'i', 's', 't', 'f', 'i', 'l', 'e', '0'],
        "set"@ == seq!['s', 'e', 't'],
        "rootfilesin"@ == seq!['r', 'o', 'o', 't', 'f', 'i', 'l', 'e', 's', 'i', 'n'],
{
    reveal_strlit("re");
    reveal_strlit("glob");
    reveal_strlit("path");
    reveal_strlit("relglob");
    reveal_strlit("relpath");
    reveal_strlit("relre");
    reveal_strlit("listfile");
    reveal_strlit("listfile0");
    reveal_strlit("set");
    reveal_strlit("rootfilesin");
    assert("re"@ =~= seq!['r', 'e']);
    assert("glob"@ =~= seq!['g', 'l', 'o', 'b']);
    assert("path"@ =~= seq!['p', 'a', 't', 'h']);
    assert("relglob"@ =~= seq!['r', 'e', 'l', 'g', 'l', 'o', 'b']);
    assert("relpath"@ =~= seq!['r', 'e', 'l', 'p', 'a', 't', 'h']);
    assert("relre"@ =~= seq!['r', 'e', 'l', 'r', 'e']);
    assert("listfile"@ =~= seq!['l', 'i', 's', 't', 'f', 'i', 'l', 'e']);
    assert("listfile0"@ =~= seq!['l', 'i', 's', 't', 'f', 'i', 'l', 'e', '0']);
    assert("set"@ =~= seq!['s', 'e', 't']);
    assert("rootfilesin"@ =~= seq!['r', 'o', 'o', 't', 'f', 'i', 'l', 'e', 's', 'i', 'n']);
}

/// Parsing the name of a kind gives that kind back.
pub proof fn law_name_round_trip(kind: PatternKind)
    ensures
        kind_named(kind.spec_name()) == Some(kind),
{
    lemma_kind_names();
    // Names of one length differ in a character.
    assert("glob"@[0] != "path"@[0]);
    assert("relglob"@[3] != "relpath"@[3]);
    assert("re"@.len() == 2 && "set"@.len() == 3 && "glob"@.len() == 4 && "relre"@.len() == 5);
    assert("relglob"@.len() == 7 && "listfile"@.len() == 8 && "listfile0"@.len() == 9);
    assert("rootfilesin"@.len() == 11);
}

/// No two kinds share a name.
pub proof fn law_names_are_unique(a: PatternKind, b: PatternKind)
    requires
        a.spec_name() == b.spec_name(),
    ensures
        a == b,
{
    law_name_round_trip(a);
    law_name_round_trip(b);
}

} // verus!

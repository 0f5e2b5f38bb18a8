use pathmatcher::curly::expand_curly_brackets;
use pathmatcher::error::Error;
use pathmatcher::glob::{make_glob_recursive, normalize_glob, plain_to_glob};
use pathmatcher::kind::PatternKind;
use pathmatcher::listfile::ListFiles;
use pathmatcher::message;
use pathmatcher::normalize::normalize_patterns;
use pathmatcher::path::normalize_path_pattern;
use pathmatcher::pattern::{build_patterns, split_pattern, Pattern};

const ALL_KINDS: [PatternKind; 10] = [
    PatternKind::RE,
    PatternKind::Glob,
    PatternKind::Path,
    PatternKind::RelGlob,
    PatternKind::RelPath,
    PatternKind::RelRE,
    PatternKind::ListFile,
    PatternKind::ListFile0,
    PatternKind::FileSet,
    PatternKind::RootFilesIn,
];

fn strings(items: &[&str]) -> Vec<String> {
    items.iter().map(|s| s.to_string()).collect()
}

fn normalize(items: &[&str], files: &ListFiles, depth: usize) -> Result<Vec<Pattern>, Error> {
    normalize_patterns(
        &strings(items),
        PatternKind::Glob,
        "/root",
        "/root/cwd",
        false,
        files,
        depth,
    )
}

fn texts(patterns: &[Pattern]) -> Vec<String> {
    patterns.iter().map(|p| p.pattern.clone()).collect()
}

#[test]
fn kind_names_round_trip() {
    for kind in ALL_KINDS {
        assert_eq!(PatternKind::from_str(kind.name()), Ok(kind));
        assert_eq!(kind.name().parse::<PatternKind>(), Ok(kind));
    }
}

#[test]
fn kind_names_are_unique() {
    for a in ALL_KINDS {
        for b in ALL_KINDS {
            assert_eq!(a.name() == b.name(), a == b);
        }
    }
}

#[test]
fn kind_names_are_spelled_exactly() {
    let names: Vec<&str> = ALL_KINDS.iter().map(|k| k.name()).collect();
    assert_eq!(
        names,
        [
            "re",
            "glob",
            "path",
            "relglob",
            "relpath",
            "relre",
            "listfile",
            "listfile0",
            "set",
            "rootfilesin"
        ]
    );
    assert_eq!(
        PatternKind::from_str("Glob"),
        Err(Error::UnsupportedPatternKind("Glob".to_string()))
    );
    assert_eq!(
        PatternKind::from_str(""),
        Err(Error::UnsupportedPatternKind(String::new()))
    );
    assert_eq!(
        PatternKind::from_str("glob:"),
        Err(Error::UnsupportedPatternKind("glob:".to_string()))
    );
}

#[test]
fn kind_predicates() {
    let holds = |f: fn(&PatternKind) -> bool| -> Vec<PatternKind> {
        ALL_KINDS.iter().copied().filter(|k| f(k)).collect()
    };
    assert_eq!(
        holds(PatternKind::is_glob),
        [PatternKind::Glob, PatternKind::RelGlob]
    );
    assert_eq!(
        holds(PatternKind::is_path),
        [
            PatternKind::Path,
            PatternKind::RelPath,
            PatternKind::RootFilesIn
        ]
    );
    assert_eq!(
        holds(PatternKind::is_regex),
        [PatternKind::RE, PatternKind::RelRE]
    );
    assert_eq!(
        holds(PatternKind::is_recursive),
        [PatternKind::Path, PatternKind::RelPath]
    );
    assert_eq!(
        holds(PatternKind::is_cwd_relative),
        [PatternKind::Glob, PatternKind::RelPath]
    );
    assert_eq!(
        holds(PatternKind::is_free),
        [PatternKind::RelGlob, PatternKind::RelRE]
    );
}

#[test]
fn split_pattern_keeps_text_without_kind() {
    for raw in ["", ":", ":a", "a:b:c", "GLOB:a", "glob", "no colon", "re :x"] {
        assert_eq!(
            split_pattern(raw, PatternKind::Path),
            (PatternKind::Path, raw)
        );
    }
}

#[test]
fn split_pattern_splits_at_first_colon() {
    assert_eq!(
        split_pattern("glob:a:b", PatternKind::RE),
        (PatternKind::Glob, "a:b")
    );
    assert_eq!(
        split_pattern("set:", PatternKind::RE),
        (PatternKind::FileSet, "")
    );
    assert_eq!(
        split_pattern("listfile0:/x/\u{e9}t\u{e9}", PatternKind::RE),
        (PatternKind::ListFile0, "/x/\u{e9}t\u{e9}")
    );
    assert_eq!(
        split_pattern("relre:re:x", PatternKind::Glob),
        (PatternKind::RelRE, "re:x")
    );
}

#[test]
fn pattern_from_str_and_with_source() {
    let p = Pattern::from_str("path:a/b", PatternKind::Glob);
    assert_eq!(p, Pattern::new(PatternKind::Path, "a/b".to_string()));
    assert_eq!(p.source, None);
    let q = p.with_source("one".to_string()).with_source("two".to_string());
    assert_eq!(q.kind, PatternKind::Path);
    assert_eq!(q.pattern, "a/b");
    assert_eq!(q.source, Some("two".to_string()));
    assert_eq!(build_patterns(&[], PatternKind::Glob), []);
}

#[test]
fn curly_brackets_expand() {
    assert_eq!(expand_curly_brackets("foo"), ["foo"]);
    assert_eq!(expand_curly_brackets(""), [""]);
    assert_eq!(
        expand_curly_brackets("foo/{bar,baz}"),
        ["foo/bar", "foo/baz"]
    );
    assert_eq!(
        expand_curly_brackets("a{b,c{d,e}f}g"),
        ["abg", "acdfg", "acefg"]
    );
    assert_eq!(
        expand_curly_brackets("{a,b}{}{c,d}{{{}}}"),
        ["ac", "ad", "bc", "bd"]
    );
    assert_eq!(expand_curly_brackets("{a}"), ["a"]);
    assert_eq!(expand_curly_brackets("x{,y}"), ["x", "xy"]);
}

#[test]
fn curly_brackets_that_are_text_stay() {
    assert_eq!(expand_curly_brackets(r"\{a,b\}"), [r"\{a,b\}"]);
    assert_eq!(expand_curly_brackets("[{a,b}]"), ["[{a,b}]"]);
    assert_eq!(expand_curly_brackets("a}"), ["a}"]);
    assert_eq!(expand_curly_brackets("{a,b"), ["{a,b"]);
    assert_eq!(expand_curly_brackets("{a{b,c}"), ["{ab", "{ac"]);
    assert_eq!(expand_curly_brackets("{a,b}}"), ["a}", "b}"]);
    assert_eq!(expand_curly_brackets(r"{a\,b,c}"), [r"a\,b", "c"]);
    assert_eq!(expand_curly_brackets("{a[,]b,c}"), ["a[,]b", "c"]);
}

#[test]
fn plain_to_glob_escapes() {
    assert_eq!(plain_to_glob(""), "");
    assert_eq!(plain_to_glob("a/b.c"), "a/b.c");
    assert_eq!(plain_to_glob("foo*"), r"foo\*");
    assert_eq!(plain_to_glob(r"\*?[]{}"), r"\\\*\?\[\]\{\}");
    assert_eq!(plain_to_glob("a,b!c"), "a,b!c");
}

#[test]
fn normalize_glob_confines_double_star() {
    assert_eq!(normalize_glob(""), "");
    assert_eq!(normalize_glob("**"), "**");
    assert_eq!(normalize_glob("a/**"), "a/**");
    assert_eq!(normalize_glob("**/a"), "**/a");
    assert_eq!(normalize_glob("a/**/c"), "a/**/c");
    assert_eq!(normalize_glob("a/b**"), "a/b*/**");
    assert_eq!(normalize_glob("**a"), "**/*a");
    assert_eq!(normalize_glob("a**b"), "a*/**/*b");
    assert_eq!(normalize_glob("a/***/b"), "a/**/b");
    assert_eq!(normalize_glob("***"), "**");
    assert_eq!(normalize_glob("a**/**b"), "a*/**/**/*b");
}

#[test]
fn normalize_glob_keeps_what_is_strict() {
    assert_eq!(normalize_glob("foo/*.c"), "foo/*.c");
    assert_eq!(normalize_glob("a*b?c"), "a*b?c");
    assert_eq!(normalize_glob(r"a/b\**"), r"a/b\**");
    assert_eq!(normalize_glob(r"a\\**"), r"a\\*/**");
    assert_eq!(normalize_glob("a[**]b"), "a[**]b");
    assert_eq!(normalize_glob(r"a[\]**]b"), r"a[\]**]b");
    assert_eq!(normalize_glob("a[x]**"), "a[x]*/**");
}

#[test]
fn make_glob_recursive_appends() {
    assert_eq!(make_glob_recursive(""), "**");
    assert_eq!(make_glob_recursive("a"), "a/**");
    assert_eq!(make_glob_recursive("a/b"), "a/b/**");
}

#[test]
fn path_patterns_are_cleaned() {
    assert_eq!(normalize_path_pattern(""), "");
    assert_eq!(normalize_path_pattern("."), "");
    assert_eq!(normalize_path_pattern("./"), "");
    assert_eq!(normalize_path_pattern(".."), "");
    assert_eq!(normalize_path_pattern("a/.."), "");
    assert_eq!(normalize_path_pattern("a/../.."), "");
    assert_eq!(normalize_path_pattern("../a"), "a");
    assert_eq!(normalize_path_pattern("a//b/./c/"), "a/b/c");
    assert_eq!(normalize_path_pattern("/"), "/");
    assert_eq!(normalize_path_pattern("//a//"), "/a");
    assert_eq!(normalize_path_pattern("/.."), "/");
    assert_eq!(normalize_path_pattern("/a/../../b"), "/b");
    assert_eq!(normalize_path_pattern("..."), "...");
    assert_eq!(normalize_path_pattern(".a/b."), ".a/b.");
    assert_eq!(normalize_path_pattern(r"a\b\..\c"), "a/c");
    assert_eq!(normalize_path_pattern(r"\a"), "/a");
}

#[test]
fn cleaning_a_clean_path_changes_nothing() {
    for path in [
        "",
        ".",
        "..",
        "/",
        "foo/bar/../baz/",
        "//a/./b//",
        r"a\b\.\c",
        "../../x",
        "/../x/",
        "a/b/c",
    ] {
        let clean = normalize_path_pattern(path);
        assert_eq!(normalize_path_pattern(&clean), clean);
    }
}

#[test]
fn pattern_outside_root_is_an_error() {
    let none = ListFiles::new();
    assert_eq!(
        normalize(&["glob:../.."], &none, 0),
        Err(Error::PathOutsideRoot(
            "../..".to_string(),
            "/root".to_string()
        ))
    );
    assert_eq!(
        normalize(&["relpath:/etc/passwd"], &none, 0),
        Err(Error::PathOutsideRoot(
            "/etc/passwd".to_string(),
            "/root".to_string()
        ))
    );
    assert_eq!(
        normalize(&["glob:/rootfoo"], &none, 0),
        Err(Error::PathOutsideRoot(
            "/rootfoo".to_string(),
            "/root".to_string()
        ))
    );
    assert_eq!(
        normalize(&["glob:{a,../../b}"], &none, 0),
        Err(Error::PathOutsideRoot(
            "../../b".to_string(),
            "/root".to_string()
        ))
    );
    assert_eq!(
        normalize_patterns(
            &strings(&["glob:a"]),
            PatternKind::Glob,
            "/root",
            "cwd",
            false,
            &none,
            0
        ),
        Err(Error::PathOutsideRoot("a".to_string(), "/root".to_string()))
    );
}

#[test]
fn root_relative_kinds_ignore_the_working_directory() {
    let none = ListFiles::new();
    let got = normalize(&["path:../x", "rootfilesin:a/b/", "re:^a", "relglob:a/../b"], &none, 0)
        .unwrap();
    assert_eq!(texts(&got), ["x/**", "a/b/*", "a", "**/b"]);
}

#[test]
fn first_error_ends_the_normalization() {
    let none = ListFiles::new();
    assert_eq!(
        normalize(&["glob:a", "set:x", "glob:../.."], &none, 0),
        Err(Error::UnsupportedPatternKind("set".to_string()))
    );
    assert_eq!(
        normalize(&["glob:../..", "set:x"], &none, 0),
        Err(Error::PathOutsideRoot(
            "../..".to_string(),
            "/root".to_string()
        ))
    );
}

#[test]
fn patterns_come_out_in_order() {
    let none = ListFiles::new();
    let first = ["glob:{x,y}", "path:p"];
    let second = ["re:r", "relglob:{1,2}/z"];
    let whole = ["glob:{x,y}", "path:p", "re:r", "relglob:{1,2}/z"];
    let mut separately = normalize(&first, &none, 0).unwrap();
    separately.extend(normalize(&second, &none, 0).unwrap());
    let together = normalize(&whole, &none, 0).unwrap();
    assert_eq!(together, separately);
    assert_eq!(
        texts(&together),
        ["cwd/x", "cwd/y", "p/**", "r", "**/1/z", "**/2/z"]
    );
    assert_eq!(normalize(&[], &none, 0), Ok(Vec::new()));
}

#[test]
fn forced_recursion_applies_to_globs_only() {
    let got = normalize_patterns(
        &strings(&["glob:a**", "relglob:", "relglob:b", "rootfilesin:c", "re:d"]),
        PatternKind::Glob,
        "/root",
        "/root",
        true,
        &ListFiles::new(),
        0,
    )
    .unwrap();
    assert_eq!(texts(&got), ["a*/**/**", "**/**", "**/b/**", "c/*", "d"]);
}

#[test]
fn listfile_lines() {
    let mut files = ListFiles::new();
    files.insert("list", "glob:a\r\npath:b\n\nre:c\r");
    let got = normalize(&["listfile:list"], &files, 1).unwrap();
    let source = Some("list".to_string());
    assert_eq!(
        got,
        [
            Pattern {
                kind: PatternKind::Glob,
                pattern: "cwd/a".to_string(),
                source: source.clone()
            },
            Pattern {
                kind: PatternKind::Path,
                pattern: "b/**".to_string(),
                source: source.clone()
            },
            Pattern {
                kind: PatternKind::Glob,
                pattern: "cwd".to_string(),
                source: source.clone()
            },
            Pattern {
                kind: PatternKind::RE,
                pattern: "c\r".to_string(),
                source: source.clone()
            },
        ]
    );
    files.insert("empty", "");
    assert_eq!(normalize(&["listfile:empty"], &files, 1), Ok(Vec::new()));
    files.insert("ended", "re:x\n");
    assert_eq!(
        texts(&normalize(&["listfile:ended"], &files, 1).unwrap()),
        ["x"]
    );
}

#[test]
fn listfile0_pieces() {
    let mut files = ListFiles::new();
    files.insert("list", "re:a\nb\0path:c\0");
    let got = normalize(&["listfile0:list"], &files, 1).unwrap();
    assert_eq!(texts(&got), ["a\nb", "c/**", "cwd"]);
    files.insert("empty", "");
    assert_eq!(
        texts(&normalize(&["listfile0:empty"], &files, 1).unwrap()),
        ["cwd"]
    );
}

#[test]
fn listfile_equals_its_lines_with_source() {
    let lines = ["glob:/root/a/*", r"re:a.*\.py", "relglob:{x,y}"];
    let mut files = ListFiles::new();
    files.insert("some/list", &lines.join("\n"));
    let direct = normalize(&lines, &files, 0).unwrap();
    let listed = normalize(&["listfile:some/list"], &files, 1).unwrap();
    let expected: Vec<Pattern> = direct
        .into_iter()
        .map(|p| p.with_source("some/list".to_string()))
        .collect();
    assert_eq!(listed, expected);
}

#[test]
fn listfile_is_never_forced_recursive() {
    let mut files = ListFiles::new();
    files.insert("list", "glob:a");
    let got = normalize_patterns(
        &strings(&["glob:a", "listfile:list"]),
        PatternKind::Glob,
        "/root",
        "/root/cwd",
        true,
        &files,
        1,
    )
    .unwrap();
    assert_eq!(texts(&got), ["cwd/a/**", "cwd/a"]);
}

#[test]
fn nested_listfiles_carry_the_outer_source() {
    let mut files = ListFiles::new();
    files.insert("outer", "re:o\nlistfile:inner\npath:p");
    files.insert("inner", "re:i");
    let got = normalize(&["re:top", "listfile:outer"], &files, 2).unwrap();
    let sources: Vec<Option<String>> = got.iter().map(|p| p.source.clone()).collect();
    assert_eq!(texts(&got), ["top", "o", "i", "p/**"]);
    assert_eq!(
        sources,
        [
            None,
            Some("outer".to_string()),
            Some("outer".to_string()),
            Some("outer".to_string())
        ]
    );
}

#[test]
fn unreadable_listfile_is_an_error() {
    let mut files = ListFiles::new();
    assert_eq!(
        normalize(&["listfile:missing"], &files, 8),
        Err(Error::UnreadableListFile("missing".to_string()))
    );
    files.insert("outer", "listfile0:missing");
    assert_eq!(
        normalize(&["listfile:outer"], &files, 8),
        Err(Error::UnreadableListFile("missing".to_string()))
    );
    assert_eq!(
        normalize(&["listfile:./outer"], &files, 8),
        Err(Error::UnreadableListFile("./outer".to_string()))
    );
}

#[test]
fn listfile_nesting_is_bounded() {
    let mut files = ListFiles::new();
    files.insert("a", "listfile:b");
    files.insert("b", "re:x");
    files.insert("loop", "listfile:loop");
    assert_eq!(
        normalize(&["listfile:a"], &files, 0),
        Err(Error::ListFileNestingTooDeep("a".to_string()))
    );
    assert_eq!(
        normalize(&["listfile:a"], &files, 1),
        Err(Error::ListFileNestingTooDeep("b".to_string()))
    );
    assert_eq!(texts(&normalize(&["listfile:a"], &files, 2).unwrap()), ["x"]);
    assert_eq!(
        normalize(&["listfile:loop"], &files, 5),
        Err(Error::ListFileNestingTooDeep("loop".to_string()))
    );
}

#[test]
fn list_files_replace_and_look_up() {
    let mut files = ListFiles::new();
    assert!(!files.contains("a"));
    assert_eq!(files.get("a"), None);
    files.insert("a", "one");
    files.insert("b", "two");
    files.insert("a", "three");
    assert!(files.contains("a"));
    assert_eq!(files.get("a"), Some("three".to_string()));
    assert_eq!(files.get("b"), Some("two".to_string()));
    assert_eq!(files.get("a/"), None);
}

#[test]
fn message_error_keeps_its_message() {
    assert_eq!(message::Error::new("boom").description(), "boom");
    assert_eq!(message::Error::new(42).description(), "42");
    assert_eq!(message::Error::from_message("x y").description(), "x y");
}

#[test]
fn a_strict_glob_stays_as_it_is() {
    for glob in [
        "",
        "**",
        "a**b",
        "***a/b***",
        r"\***",
        r"a\\**\*",
        "[**]**[",
        "a/**/b**/c",
        "**/**",
        r"**\*",
    ] {
        let strict = normalize_glob(glob);
        assert_eq!(normalize_glob(&strict), strict);
    }
}

#[test]
fn an_escaped_path_is_a_strict_glob() {
    for plain in ["", "a**b", "**", r"\**", "[**]", "{a,b}**", "a/b/c", "?*?*"] {
        let glob = plain_to_glob(plain);
        assert_eq!(normalize_glob(&glob), glob);
        assert_eq!(expand_curly_brackets(&glob), [glob.clone()]);
    }
}

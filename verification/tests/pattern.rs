use pathmatcher::error::Error;
use pathmatcher::kind::PatternKind;
use pathmatcher::listfile::ListFiles;
use pathmatcher::normalize::normalize_patterns;
use pathmatcher::path::normalize_path_pattern;
use pathmatcher::pattern::{build_patterns, split_pattern, Pattern};

fn assert_normalize(pat: &str, expected: &[&str], root: &str, cwd: &str, recursive: bool) {
    let kind = pat.split_once(':').unwrap().0;

    let got: Vec<String> = normalize_patterns(
        &[pat.to_string()],
        PatternKind::Glob,
        root,
        cwd,
        recursive,
        &ListFiles::new(),
        0,
    )
    .unwrap()
    .into_iter()
    .map(|p| {
        assert_eq!(p.kind.name(), kind);
        p.pattern
    })
    .collect();

    assert_eq!(got, expected);
}

fn check(pat: &str, expected: &[&str]) {
    assert_normalize(pat, expected, "/root", "/root/cwd", false);
}

fn check_recursive(pat: &str, expected: &[&str]) {
    assert_normalize(pat, expected, "/root", "/root/cwd", true);
}

#[test]
fn test_split_pattern() {
    let v = split_pattern("re:a.*py", PatternKind::Glob);
    assert_eq!(v, (PatternKind::RE, "a.*py"));

    let v = split_pattern("badkind:a.*py", PatternKind::Glob);
    assert_eq!(v, (PatternKind::Glob, "badkind:a.*py"));

    let v = split_pattern("a.*py", PatternKind::RE);
    assert_eq!(v, (PatternKind::RE, "a.*py"));
}

#[test]
fn test_pattern_kind_enum() {
    assert_eq!(PatternKind::from_str("re").unwrap(), PatternKind::RE);
    assert!(PatternKind::from_str("invalid").is_err());

    assert_eq!(PatternKind::RE.name(), "re");
}

#[test]
fn test_normalize_path_pattern() {
    assert_eq!(
        normalize_path_pattern("foo/bar/../baz/"),
        "foo/baz".to_string()
    );
}

#[test]
fn test_normalize_patterns() {
    check("glob:", &["cwd"]);
    check("glob:.", &["cwd"]);
    check("glob:..", &[""]);
    check("glob:a", &["cwd/a"]);
    check("glob:../a{b,c}d", &["abd", "acd"]);
    check("glob:/root/foo/*.c", &["foo/*.c"]);

    check("relglob:", &[""]);
    check("relglob:.", &[""]);
    check("relglob:*.c", &["**/*.c"]);

    check("path:", &["**"]);
    check("path:.", &["**"]);
    check("path:foo", &["foo/**"]);
    check("path:foo*", &[r"foo\*/**"]);

    check("relpath:", &["cwd/**"]);
    check("relpath:.", &["cwd/**"]);
    check("relpath:foo", &["cwd/foo/**"]);
    check("relpath:../foo*", &[r"foo\*/**"]);

    check(r"re:a.*\.py", &[r"a.*\.py"]);

    check(r"relre:a.*\.py", &[r".*?a.*\.py"]);
    check(r"relre:^foo(bar|baz)", &[r"foo(bar|baz)"]);

    check("rootfilesin:", &["*"]);
    check("rootfilesin:.", &["*"]);
    check("rootfilesin:foo*", &[r"foo\*/*"]);
}

#[test]
fn test_normalize_multiple() {
    let got: Vec<(PatternKind, String)> = normalize_patterns(
        &[
            "naked".to_string(),
            "relpath:foo/b{a}r".to_string(),
            "glob:a{b,c}".to_string(),
        ],
        PatternKind::RelGlob,
        "/root",
        "/root/cwd",
        false,
        &ListFiles::new(),
        0,
    )
    .unwrap()
    .into_iter()
    .map(|p| (p.kind, p.pattern))
    .collect();

    assert_eq!(
        got,
        vec![
            (PatternKind::RelGlob, "**/naked".to_string()),
            (PatternKind::RelPath, "cwd/foo/b\\{a\\}r/**".to_string()),
            (PatternKind::Glob, "cwd/ab".to_string()),
            (PatternKind::Glob, "cwd/ac".to_string()),
        ]
    );
}

#[test]
fn test_recursive_normalize() {
    check_recursive("glob:", &["cwd/**"]);
    check_recursive("glob:/root", &["**"]);
}

#[test]
fn test_normalize_patterns_unsupported_kind() {
    assert!(normalize_patterns(
        &["set:added()".to_string()],
        PatternKind::Glob,
        "",
        "",
        false,
        &ListFiles::new(),
        0,
    )
    .is_err());
}

#[test]
fn test_build_patterns() {
    let patterns = ["re:a.py".to_string(), "a.txt".to_string()];

    assert_eq!(
        build_patterns(&patterns, PatternKind::Glob),
        [
            Pattern::new(PatternKind::RE, "a.py".to_string()),
            Pattern::new(PatternKind::Glob, "a.txt".to_string())
        ]
    )
}

fn listfile_helper(sep: &str) {
    let inner_patterns = vec!["glob:/a/*", r"re:a.*\.py"];
    let path_str = "/tmp/lists/patterns.txt";
    let content = inner_patterns.join(sep);
    let mut files = ListFiles::new();
    files.insert(path_str, &content);

    let outer_patterns = vec![format!(
        "listfile{}:{}",
        if sep == "\0" { "0" } else { "" },
        path_str
    )];
    let result =
        normalize_patterns(&outer_patterns, PatternKind::Glob, "", "", false, &files, 1).unwrap();

    assert_eq!(
        result,
        [
            Pattern::new(PatternKind::Glob, "/a/*".to_string()).with_source(path_str.to_string()),
            Pattern::new(PatternKind::RE, r"a.*\.py".to_string())
                .with_source(path_str.to_string())
        ]
    )
}

#[test]
fn test_normalize_patterns_listfile() {
    listfile_helper("\n");
    listfile_helper("\r\n");
}

#[test]
fn test_normalize_patterns_listfile0() {
    listfile_helper("\0");
}

#[test]
fn unsupported_kind_names_the_kind() {
    let e = normalize_patterns(
        &["set:added()".to_string()],
        PatternKind::Glob,
        "/root",
        "/root/cwd",
        false,
        &ListFiles::new(),
        0,
    )
    .unwrap_err();
    assert_eq!(e, Error::UnsupportedPatternKind("set".to_string()));
}

//! Expansion of brace groups in globs: `a{b,c}` stands for `ab` and `ac`.

use vstd::prelude::*;
use crate::text::{append_chars, from_chars, rows, slice_of, string_views, to_chars};

verus! {

/// Where a scan of `s` from index `i` stops; `s.len()` if it does not stop.
///
/// A scan for the end of a group (`commas` is false) stops at the `}` that
/// closes the group it starts in. A scan for the end of an alternative
/// (`commas` is true) stops at the first comma of the group it starts in.
/// Neither stops inside a nested group, of which `depth` are open at `i`,
/// inside `[..]` (`in_class`), or at a character that a backslash escapes
/// (`escaped`: the character before `i` was such a backslash).
pub open spec fn scan(
    s: Seq<char>,
    i: int,
    depth: nat,
    escaped: bool,
    in_class: bool,
    commas: bool,
) -> int
    decreases s.len() - i,
{
    if i < 0 || i >= s.len() {
        s.len() as int
    } else if escaped {
        scan(s, i + 1, depth, false, in_class, commas)
    } else if s[i] == '\\' {
        scan(s, i + 1, depth, true, in_class, commas)
    } else if in_class {
        scan(s, i + 1, depth, false, s[i] != ']', commas)
    } else if s[i] == '[' {
        scan(s, i + 1, depth, false, true, commas)
    } else if s[i] == '{' {
        scan(s, i + 1, depth + 1, false, false, commas)
    } else if s[i] == '}' && depth > 0 {
        scan(s, i + 1, (depth - 1) as nat, false, false, commas)
    } else if s[i] == '}' && !commas {
        i
    } else if s[i] == ',' && depth == 0 && commas {
        i
    } else {
        scan(s, i + 1, depth, false, false, commas)
    }
}

/// The index of the `}` that closes the `{` at `open`; `s.len()` if nothing
/// closes it.
pub open spec fn closing(s: Seq<char>, open: int) -> int {
    scan(s, open + 1, 0, false, false, false)
}

/// The index, from `i` on, of the first `{` that opens a group: one that is
/// closed, not escaped and not inside `[..]`. It is `s.len()` if there is
/// none.
pub open spec fn first_group(s: Seq<char>, i: int, escaped: bool, in_class: bool) -> int
    decreases s.len() - i,
{
    if i < 0 || i >= s.len() {
        s.len() as int
    } else if escaped {
        first_group(s, i + 1, false, in_class)
    } else if s[i] == '\\' {
        first_group(s, i + 1, true, in_class)
    } else if in_class {
        first_group(s, i + 1, false, s[i] != ']')
    } else if s[i] == '[' {
        first_group(s, i + 1, false, true)
    } else if s[i] == '{' && closing(s, i) < s.len() {
        i
    } else {
        first_group(s, i + 1, false, false)
    }
}

/// Each of `words` with `prefix` before it.
pub open spec fn prefixed(prefix: Seq<char>, words: Seq<Seq<char>>) -> Seq<Seq<char>> {
    words.map_values(|word: Seq<char>| prefix + word)
}

/// The globs without brace groups that `glob` stands for.
///
/// The first group `{x,y,..}` of `glob` is replaced by each of its
/// alternatives in turn, and what results is expanded in the same way, so
/// groups that follow one another multiply and groups inside alternatives
/// are expanded too. The expansions of an earlier alternative come first.
/// A group with one alternative is replaced by it. A brace that a backslash
/// escapes, that stands inside `[..]` or that has no partner is kept as it
/// is, and so is everything outside the groups.
pub open spec fn expanded(glob: Seq<char>) -> Seq<Seq<char>>
    decreases glob.len(),
{
    let open = first_group(glob, 0, false, false);
    let close = closing(glob, open);
    if 0 <= open < close < glob.len() {
        prefixed(
            glob.take(open),
            expanded_alternatives(glob.subrange(open + 1, close), glob.skip(close + 1)),
        )
    } else {
        seq![glob]
    }
}

/// The expansions of each alternative of `body`, the inside of a group,
/// followed by `rest`, what stands after the group.
pub open spec fn expanded_alternatives(body: Seq<char>, rest: Seq<char>) -> Seq<Seq<char>>
    decreases body.len() + rest.len() + 1,
{
    let comma = scan(body, 0, 0, false, false, true);
    if 0 <= comma < body.len() {
        expanded(body.take(comma) + rest) + expanded_alternatives(body.skip(comma + 1), rest)
    } else {
        expanded(body + rest)
    }
}

/// A glob without `{` is its own and only expansion.
pub proof fn law_expanded_without_brace(glob: Seq<char>)
    requires
        !glob.contains('{'),
    ensures
        expanded(glob) == seq![glob],
{
    lemma_first_group_without_brace(glob, 0, false, false);
}

proof fn lemma_first_group_without_brace(glob: Seq<char>, i: int, escaped: bool, in_class: bool)
    requires
        !glob.contains('{'),
        0 <= i <= glob.len(),
    ensures
        first_group(glob, i, escaped, in_class) == glob.len(),
    decreases glob.len() - i,
{
    if i < glob.len() {
        assert(glob[i] != '{');
        lemma_first_group_without_brace(glob, i + 1, false, in_class);
        lemma_first_group_without_brace(glob, i + 1, true, in_class);
        lemma_first_group_without_brace(glob, i + 1, false, false);
        lemma_first_group_without_brace(glob, i + 1, false, true);
    }
}

/// Scans `s` from `from` for the end of a group or of an alternative.
pub fn scan_chars(s: &Vec<char>, from: usize, commas: bool) -> (r: usize)
    requires
        from <= s.len(),
    ensures
        r == scan(s@, from as int, 0, false, false, commas),
        from <= r <= s.len(),
{
    let mut i: usize = from;
    let mut depth: usize = 0;
    let mut escaped = false;
    let mut in_class = false;
    while i < s.len()
        invariant
            from <= i <= s.len(),
            depth <= i - from,
            scan(s@, from as int, 0, false, false, commas) == scan(
                s@,
                i as int,
                depth as nat,
                escaped,
                in_class,
                commas,
            ),
        decreases s.len() - i,
    {
        let c = s[i];
        if escaped {
            escaped = false;
        } else if c == '\\' {
            escaped = true;
        } else if in_class {
            in_class = c != ']';
        } else if c == '[' {
            in_class = true;
        } else if c == '{' {
            depth += 1;
        } else if c == '}' && depth > 0 {
            depth -= 1;
        } else if c == '}' && !commas {
            return i;
        } else if c == ',' && depth == 0 && commas {
            return i;
        }
        i += 1;
    }
    i
}

/// Finds the first `{` of `s` that opens a group.
pub fn find_group(s: &Vec<char>) -> (r: usize)
    ensures
        r == first_group(s@, 0, false, false),
        r <= s.len(),
        r < s.len() ==> r < closing(s@, r as int) < s.len(),
{
    let mut i: usize = 0;
    let mut escaped = false;
    let mut in_class = false;
    while i < s.len()
        invariant
            i <= s.len(),
            first_group(s@, 0, false, false) == first_group(s@, i as int, escaped, in_class),
        decreases s.len() - i,
    {
        let c = s[i];
        if escaped {
            escaped = false;
        } else if c == '\\' {
            escaped = true;
        } else if in_class {
            in_class = c != ']';
        } else if c == '[' {
            in_class = true;
        } else if c == '{' && scan_chars(s, i + 1, false) < s.len() {
            return i;
        }
        i += 1;
    }
    i
}

/// Expands the brace groups of `glob`: see [`expanded`].
pub fn expand_chars(glob: &Vec<char>) -> (r: Vec<Vec<char>>)
    ensures
        rows(r@) == expanded(glob@),
    decreases glob.len(),
{
    let open = find_group(glob);
    if open < glob.len() {
        let close = scan_chars(glob, open + 1, false);
        let prefix = slice_of(glob, 0, open);
        let body = slice_of(glob, open + 1, close);
        let rest = slice_of(glob, close + 1, glob.len());
        let words = expand_alternatives(&body, &rest);
        let mut r: Vec<Vec<char>> = Vec::new();
        let mut i: usize = 0;
        while i < words.len()
            invariant
                i <= words.len(),
                rows(r@) == prefixed(prefix@, rows(words@)).take(i as int),
            decreases words.len() - i,
        {
            let mut word = prefix.clone();
            append_chars(&mut word, &words[i]);
            proof {
                assert(rows(r@.push(word)) == rows(r@).push(word@));
            }
            r.push(word);
            i += 1;
        }
        proof {
            assert(prefixed(prefix@, rows(words@)).take(words.len() as int) == prefixed(
                prefix@,
                rows(words@),
            ));
        }
        r
    } else {
        let mut r: Vec<Vec<char>> = Vec::new();
        r.push(glob.clone());
        proof {
            assert(rows(r@) == seq![glob@]);
        }
        r
    }
}

/// Expands each alternative of `body` followed by `rest`: see
/// [`expanded_alternatives`].
pub fn expand_alternatives(body: &Vec<char>, rest: &Vec<char>) -> (r: Vec<Vec<char>>)
    ensures
        rows(r@) == expanded_alternatives(body@, rest@),
    decreases body.len() + rest.len() + 1,
{
    let comma = scan_chars(body, 0, true);
    if comma < body.len() {
        let mut first = slice_of(body, 0, comma);
        append_chars(&mut first, rest);
        let mut r = expand_chars(&first);
        let others = slice_of(body, comma + 1, body.len());
        let mut more = expand_alternatives(&others, rest);
        let ghost head = r@;
        let ghost tail = more@;
        r.append(&mut more);
        proof {
            assert(rows(head + tail) == rows(head) + rows(tail));
        }
        r
    } else {
        let mut whole = body.clone();
        append_chars(&mut whole, rest);
        expand_chars(&whole)
    }
}

/// The globs without brace groups that `glob` stands for:
/// `foo/{bar,baz}` gives `foo/bar` and `foo/baz`.
pub fn expand_curly_brackets(glob: &str) -> (r: Vec<String>)
    ensures
        string_views(r@) == expanded(glob@),
{
    let words = expand_chars(&to_chars(glob));
    let mut r: Vec<String> = Vec::new();
    let mut i: usize = 0;
    while i < words.len()
        invariant
            i <= words.len(),
            string_views(r@) == rows(words@).take(i as int),
        decreases words.len() - i,
    {
        let word = from_chars(&words[i]);
        proof {
            assert(string_views(r@.push(word)) == string_views(
                r@,
            ).push(word@));
        }
        r.push(word);
        i += 1;
    }
    proof {
        assert(rows(words@).take(words.len() as int) == rows(words@));
    }
    r
}

} // verus!

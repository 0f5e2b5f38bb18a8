//! Rewrites of glob text: escaping a literal path, confining `**` to path
//! components of its own, and making a glob match a whole subtree.

use vstd::prelude::*;
use crate::text::{from_chars, to_chars};

verus! {

/// The characters that mean something other than themselves in a glob.
pub open spec fn is_glob_special(c: char) -> bool {
    c == '\\' || c == '*' || c == '?' || c == '[' || c == ']' || c == '{' || c == '}'
}

/// `plain` as a glob that matches exactly `plain`: a backslash stands
/// before each special character, and nothing else is changed.
pub open spec fn escaped(plain: Seq<char>) -> Seq<char>
    decreases plain.len(),
{
    if plain.len() == 0 {
        seq![]
    } else if is_glob_special(plain.last()) {
        escaped(plain.drop_last()).push('\\').push(plain.last())
    } else {
        escaped(plain.drop_last()).push(plain.last())
    }
}

/// `glob` made to match what it names and everything below it: `**` for
/// the empty glob, which names the root, else `glob` followed by `/**`.
pub open spec fn recursive(glob: Seq<char>) -> Seq<char> {
    if glob.len() == 0 {
        seq!['*', '*']
    } else {
        glob + seq!['/', '*', '*']
    }
}

/// What `tightened` gives for `glob` from index `i` on.
///
/// `escaped` says that the character before `i` was a backslash that
/// escapes the one at `i`; `in_class` that `i` is inside `[..]`; `in_run`
/// that `i` follows stars of a run whose `**` is already written.
pub open spec fn tightened_from(
    glob: Seq<char>,
    i: int,
    escaped: bool,
    in_class: bool,
    in_run: bool,
) -> Seq<char>
    decreases glob.len() - i, if in_run { 1int } else { 0int },
{
    if i < 0 || i >= glob.len() {
        seq![]
    } else if in_run {
        if glob[i] == '*' {
            tightened_from(glob, i + 1, false, false, true)
        } else if glob[i] == '/' {
            tightened_from(glob, i, false, false, false)
        } else {
            seq!['/', '*'] + tightened_from(glob, i, false, false, false)
        }
    } else if escaped {
        seq![glob[i]] + tightened_from(glob, i + 1, false, in_class, false)
    } else if glob[i] == '\\' {
        seq![glob[i]] + tightened_from(glob, i + 1, true, in_class, false)
    } else if in_class {
        seq![glob[i]] + tightened_from(glob, i + 1, false, glob[i] != ']', false)
    } else if glob[i] == '[' {
        seq![glob[i]] + tightened_from(glob, i + 1, false, true, false)
    } else if glob[i] == '*' && i + 1 < glob.len() && glob[i + 1] == '*' {
        if i == 0 || glob[i - 1] == '/' {
            seq!['*', '*'] + tightened_from(glob, i + 1, false, false, true)
        } else {
            seq!['*', '/', '*', '*'] + tightened_from(glob, i + 1, false, false, true)
        }
    } else {
        seq![glob[i]] + tightened_from(glob, i + 1, false, false, false)
    }
}

/// `glob` in the strict dialect, in which `**` is always a path component
/// of its own.
///
/// A run of two or more stars becomes `**`. Where something other than `/`
/// stands before the run, `*/` is put before the `**`, and where something
/// other than `/` follows it, `/*` is put after: `a**b` becomes `a*/**/*b`.
/// A star that a backslash escapes, and stars inside `[..]`, belong to no
/// run. Everything else is kept.
pub open spec fn tightened(glob: Seq<char>) -> Seq<char> {
    tightened_from(glob, 0, false, false, false)
}

/// A glob without two stars in a row is strict already.
pub proof fn law_tightened_without_star_pair(glob: Seq<char>)
    requires
        forall|i: int| 0 <= i < glob.len() - 1 ==> !(#[trigger] glob[i] == '*' && glob[i + 1] == '*'),
    ensures
        tightened(glob) == glob,
{
    lemma_tightened_from_without_star_pair(glob, 0, false, false);
    assert(glob.skip(0) == glob);
}

proof fn lemma_tightened_from_without_star_pair(
    glob: Seq<char>,
    i: int,
    escaped: bool,
    in_class: bool,
)
    requires
        0 <= i <= glob.len(),
        forall|k: int| 0 <= k < glob.len() - 1 ==> !(#[trigger] glob[k] == '*' && glob[k + 1] == '*'),
    ensures
        tightened_from(glob, i, escaped, in_class, false) == glob.skip(i),
    decreases glob.len() - i,
{
    if i < glob.len() {
        let c = glob[i];
        let next_class = if escaped || c == '\\' {
            in_class
        } else if in_class {
            c != ']'
        } else {
            c == '['
        };
        let next_escaped = !escaped && c == '\\';
        lemma_tightened_from_without_star_pair(glob, i + 1, next_escaped, next_class);
        assert(glob.skip(i) == seq![c] + glob.skip(i + 1));
    } else {
        assert(glob.skip(i) == Seq::<char>::empty());
    }
}

/// What is written for a character outside a run starts with that
/// character.
proof fn lemma_tightened_head(glob: Seq<char>, i: int, escaped: bool, in_class: bool)
    requires
        0 <= i < glob.len(),
    ensures
        tightened_from(glob, i, escaped, in_class, false).len() > 0,
        tightened_from(glob, i, escaped, in_class, false)[0] == glob[i],
{
}

/// Reading what was written gives it back: `done` is what was written
/// before index `i` of `glob` was reached in the given state, and reading on
/// from its end in that state gives the rest.
proof fn lemma_tightened_again(
    glob: Seq<char>,
    i: int,
    escaped: bool,
    in_class: bool,
    in_run: bool,
    done: Seq<char>,
)
    requires
        0 <= i <= glob.len(),
        i == 0 <==> done.len() == 0,
        i > 0 ==> done.last() == glob[i - 1],
        in_run ==> !escaped && !in_class && i > 0 && glob[i - 1] == '*',
    ensures
        tightened_from(
            done + tightened_from(glob, i, escaped, in_class, in_run),
            done.len() as int,
            escaped,
            in_class,
            in_run,
        ) == tightened_from(glob, i, escaped, in_class, in_run),
    decreases glob.len() - i, if in_run { 1int } else { 0int },
{
    let rest = tightened_from(glob, i, escaped, in_class, in_run);
    let out = done + rest;
    let k = done.len() as int;
    if i >= glob.len() {
        assert(out == done);
    } else if in_run {
        if glob[i] == '*' {
            lemma_tightened_again(glob, i + 1, false, false, true, done);
        } else if glob[i] == '/' {
            lemma_tightened_head(glob, i, false, false);
            assert(out[k] == rest[0]);
            lemma_tightened_again(glob, i, false, false, false, done);
        } else {
            let then = tightened_from(glob, i, false, false, false);
            let more = done + seq!['/', '*'];
            lemma_tightened_head(glob, i, false, false);
            assert(rest == seq!['/', '*'] + then);
            assert(out == more + then);
            assert(out[k] == '/' && out[k + 1] == '*' && out[k + 2] == then[0]);
            lemma_tightened_again(glob, i, false, false, false, more);
            assert(tightened_from(out, k + 1, false, false, false) == seq!['*'] + then);
            assert(tightened_from(out, k, false, false, false) == seq!['/'] + (seq!['*']
                + then));
            assert(seq!['/'] + (seq!['*'] + then) == rest);
        }
    } else if !escaped && !in_class && glob[i] != '\\' && glob[i] != '[' && glob[i] == '*' && i
        + 1 < glob.len() && glob[i + 1] == '*' {
        let then = tightened_from(glob, i + 1, false, false, true);
        if i == 0 || glob[i - 1] == '/' {
            let more = done + seq!['*', '*'];
            assert(rest == seq!['*', '*'] + then);
            assert(out == more + then);
            assert(out[k] == '*' && out[k + 1] == '*');
            if k > 0 {
                assert(out[k - 1] == done.last());
            }
            lemma_tightened_again(glob, i + 1, false, false, true, more);
            assert(tightened_from(out, k + 1, false, false, true) == then);
        } else {
            let more = done + seq!['*', '/', '*', '*'];
            assert(rest == seq!['*', '/', '*', '*'] + then);
            assert(out == more + then);
            assert(out[k] == '*' && out[k + 1] == '/' && out[k + 2] == '*' && out[k + 3] == '*');
            lemma_tightened_again(glob, i + 1, false, false, true, more);
            assert(tightened_from(out, k + 3, false, false, true) == then);
            assert(tightened_from(out, k + 2, false, false, false) == seq!['*', '*'] + then);
            assert(tightened_from(out, k + 1, false, false, false) == seq!['/'] + (seq![
                '*',
                '*',
            ] + then));
            assert(tightened_from(out, k, false, false, false) == seq!['*'] + (seq!['/'] + (
            seq!['*', '*'] + then)));
            assert(seq!['*'] + (seq!['/'] + (seq!['*', '*'] + then)) == rest);
        }
    } else {
        let next_class = if escaped || glob[i] == '\\' {
            in_class
        } else if in_class {
            glob[i] != ']'
        } else {
            glob[i] == '['
        };
        let next_escaped = !escaped && glob[i] == '\\';
        let then = tightened_from(glob, i + 1, next_escaped, next_class, false);
        let more = done + seq![glob[i]];
        assert(rest == seq![glob[i]] + then);
        assert(out == more + then);
        assert(out[k] == glob[i]);
        if i + 1 < glob.len() {
            lemma_tightened_head(glob, i + 1, next_escaped, next_class);
            assert(out[k + 1] == then[0]);
        } else {
            assert(then.len() == 0);
        }
        lemma_tightened_again(glob, i + 1, next_escaped, next_class, false, more);
        assert(tightened_from(out, k, escaped, in_class, false) == seq![glob[i]] + then);
    }
}

/// A strict glob stays as it is: making a glob strict a second time
/// changes nothing.
pub proof fn law_tightened_is_strict(glob: Seq<char>)
    ensures
        tightened(tightened(glob)) == tightened(glob),
{
    lemma_tightened_again(glob, 0, false, false, false, Seq::<char>::empty());
    assert(Seq::<char>::empty() + tightened(glob) == tightened(glob));
}

/// In an escaped path a backslash stands before every star.
pub proof fn lemma_escaped_stars(plain: Seq<char>)
    ensures
        forall|i: int|
            0 <= i < escaped(plain).len() && #[trigger] escaped(plain)[i] == '*' ==> i > 0
                && escaped(plain)[i - 1] == '\\',
    decreases plain.len(),
{
    if plain.len() > 0 {
        let front = escaped(plain.drop_last());
        lemma_escaped_stars(plain.drop_last());
        let out = escaped(plain);
        assert forall|i: int| 0 <= i < out.len() && #[trigger] out[i] == '*' implies i > 0
            && out[i - 1] == '\\' by {
            if i < front.len() {
                assert(out[i] == front[i]);
                assert(out[i - 1] == front[i - 1]);
            }
        }
    }
}

/// An escaped path is a strict glob already: making it strict changes
/// nothing.
pub proof fn law_escaped_is_strict(plain: Seq<char>)
    ensures
        tightened(escaped(plain)) == escaped(plain),
{
    lemma_escaped_stars(plain);
    law_tightened_without_star_pair(escaped(plain));
}

/// Escapes every special character of `plain` with a backslash.
pub fn escape_chars(plain: &Vec<char>) -> (r: Vec<char>)
    ensures
        r@ == escaped(plain@),
{
    let mut r: Vec<char> = Vec::new();
    let mut i: usize = 0;
    while i < plain.len()
        invariant
            i <= plain.len(),
            r@ == escaped(plain@.take(i as int)),
        decreases plain.len() - i,
    {
        let c = plain[i];
        proof {
            assert(plain@.take(i + 1).drop_last() == plain@.take(i as int));
        }
        if c == '\\' || c == '*' || c == '?' || c == '[' || c == ']' || c == '{' || c == '}' {
            r.push('\\');
        }
        r.push(c);
        i += 1;
    }
    proof {
        assert(plain@.take(plain.len() as int) == plain@);
    }
    r
}

/// Appends `**` to the empty glob and `/**` to any other.
pub fn recursive_chars(glob: &Vec<char>) -> (r: Vec<char>)
    ensures
        r@ == recursive(glob@),
{
    let mut r = glob.clone();
    if glob.len() > 0 {
        r.push('/');
    }
    r.push('*');
    r.push('*');
    proof {
        assert(r@ == recursive(glob@));
    }
    r
}

/// Rewrites `glob` into the strict dialect.
pub fn tighten_chars(glob: &Vec<char>) -> (r: Vec<char>)
    ensures
        r@ == tightened(glob@),
{
    let mut r: Vec<char> = Vec::new();
    let mut i: usize = 0;
    let mut escaped = false;
    let mut in_class = false;
    let mut in_run = false;
    while i < glob.len()
        invariant
            i <= glob.len(),
            tightened(glob@) == r@ + tightened_from(glob@, i as int, escaped, in_class, in_run),
        decreases glob.len() - i, if in_run { 1int } else { 0int },
    {
        let c = glob[i];
        let ghost before = r@;
        let ghost tail = tightened_from(glob@, i as int, escaped, in_class, in_run);
        if in_run {
            if c == '*' {
                i += 1;
            } else {
                if c != '/' {
                    r.push('/');
                    r.push('*');
                }
                in_run = false;
            }
            escaped = false;
            in_class = false;
        } else if escaped {
            r.push(c);
            escaped = false;
            i += 1;
        } else if c == '\\' {
            r.push(c);
            escaped = true;
            i += 1;
        } else if in_class {
            r.push(c);
            in_class = c != ']';
            i += 1;
        } else if c == '[' {
            r.push(c);
            in_class = true;
            i += 1;
        } else if c == '*' && i + 1 < glob.len() && glob[i + 1] == '*' {
            if !(i == 0 || glob[i - 1] == '/') {
                r.push('*');
                r.push('/');
            }
            r.push('*');
            r.push('*');
            in_run = true;
            i += 1;
        } else {
            r.push(c);
            i += 1;
        }
        proof {
            assert(before + tail == r@ + tightened_from(
                glob@,
                i as int,
                escaped,
                in_class,
                in_run,
            ));
        }
    }
    proof {
        assert(r@ + Seq::<char>::empty() == r@);
    }
    r
}

/// `plain` as a glob that matches exactly `plain`: `foo*` becomes `foo\*`.
pub fn plain_to_glob(plain: &str) -> (r: String)
    ensures
        r@ == escaped(plain@),
{
    from_chars(&escape_chars(&to_chars(plain)))
}

/// `glob` in the strict dialect, in which `**` is always a path component
/// of its own: `a/b**` becomes `a/b*/**`.
pub fn normalize_glob(glob: &str) -> (r: String)
    ensures
        r@ == tightened(glob@),
{
    from_chars(&tighten_chars(&to_chars(glob)))
}

/// `glob` made to match what it names and everything below it.
pub fn make_glob_recursive(glob: &str) -> (r: String)
    ensures
        r@ == recursive(glob@),
{
    from_chars(&recursive_chars(&to_chars(glob)))
}

} // verus!

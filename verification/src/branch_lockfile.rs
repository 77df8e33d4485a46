//! Names of git-branch-named lockfiles: `pnpm-lock.<branch slug>.yaml`.

use crate::str_map::strings_view;
use crate::text::push_char;
use vstd::prelude::*;

verus! {

/// The characters every git-branch-named lockfile name starts with: `pnpm-lock.`.
pub open spec fn lockfile_name_prefix() -> Seq<char> {
    seq!['p', 'n', 'p', 'm', '-', 'l', 'o', 'c', 'k', '.']
}

/// The characters every git-branch-named lockfile name ends with: `.yaml`.
pub open spec fn lockfile_name_suffix() -> Seq<char> {
    seq!['.', 'y', 'a', 'm', 'l']
}

pub open spec fn is_ascii_upper(c: char) -> bool {
    'A' <= c && c <= 'Z'
}

/// A character of `[A-Za-z0-9_.-]`.
pub open spec fn is_slug_char(c: char) -> bool {
    ||| 'a' <= c && c <= 'z'
    ||| is_ascii_upper(c)
    ||| '0' <= c && c <= '9'
    ||| c == '_' || c == '.' || c == '-'
}

/// What one character of a branch name becomes in the slug: characters
/// outside `[A-Za-z0-9_.-]` become `!`, upper-case letters become lower-case.
pub open spec fn slug_char(c: char) -> char {
    if is_ascii_upper(c) {
        ((c as u32) + 32) as char
    } else if is_slug_char(c) {
        c
    } else {
        '!'
    }
}

pub open spec fn branch_slug(branch: Seq<char>) -> Seq<char> {
    branch.map_values(|c: char| slug_char(c))
}

/// `pnpm-lock.<slug>.yaml` for the branch name `branch`.
pub open spec fn branch_lockfile_name(branch: Seq<char>) -> Seq<char> {
    lockfile_name_prefix() + branch_slug(branch) + lockfile_name_suffix()
}

fn slug_char_of(c: char) -> (r: char)
    ensures
        r == slug_char(c),
{
    if 'A' <= c && c <= 'Z' {
        let code: u32 = (c as u32) + 32;
        code as u8 as char
    } else if ('a' <= c && c <= 'z') || ('0' <= c && c <= '9') || c == '_' || c == '.' || c == '-' {
        c
    } else {
        '!'
    }
}


/// Builds the git-branch-named lockfile file name for `branch`.
///
/// Every character outside `[A-Za-z0-9_.-]` becomes `!` (branch names may
/// contain `/`, which is not valid in a file name) and the result is
/// lower-cased (the file system may be case-insensitive).
pub fn git_branch_lockfile_name(branch: &str) -> (name: String)
    ensures
        name@ == branch_lockfile_name(branch@),
{
    let mut name = String::from_str("pnpm-lock.");
    proof {
        reveal_strlit("pnpm-lock.");
    }
    assert(name@ =~= lockfile_name_prefix());
    let n = branch.unicode_len();
    let mut i: usize = 0;
    while i < n
        invariant
            n == branch@.len(),
            i <= n,
            name@ =~= lockfile_name_prefix() + branch_slug(branch@.take(i as int)),
        decreases n - i,
    {
        let c = branch.get_char(i);
        let s = slug_char_of(c);
        push_char(&mut name, s);
        assert(branch_slug(branch@.take(i + 1)) =~= branch_slug(branch@.take(i as int)).push(s));
        i = i + 1;
    }
    assert(branch@.take(n as int) =~= branch@);
    name.append(".yaml");
    proof {
        reveal_strlit(".yaml");
    }
    assert(name@ =~= branch_lockfile_name(branch@));
    name
}

/// `file_name` is `pnpm-lock.<slug>.yaml` with a non-empty slug.
pub open spec fn is_branch_lockfile_name(file_name: Seq<char>) -> bool {
    &&& file_name.len() > lockfile_name_prefix().len() + lockfile_name_suffix().len()
    &&& file_name.take(lockfile_name_prefix().len() as int) == lockfile_name_prefix()
    &&& file_name.skip(file_name.len() - lockfile_name_suffix().len()) == lockfile_name_suffix()
}

/// Whether `s[start..start + pattern.len()]` is `pattern`.
fn chars_match_at(s: &str, start: usize, pattern: &str) -> (r: bool)
    requires
        start + pattern@.len() <= s@.len(),
        s@.len() <= usize::MAX,
    ensures
        r == (s@.subrange(start as int, start + pattern@.len()) == pattern@),
{
    let m = pattern.unicode_len();
    let mut j: usize = 0;
    while j < m
        invariant
            m == pattern@.len(),
            start + m <= s@.len(),
            s@.len() <= usize::MAX,
            j <= m,
            forall|k: int| 0 <= k < j ==> s@[start + k] == pattern@[k],
        decreases m - j,
    {
        if s.get_char(start + j) != pattern.get_char(j) {
            assert(s@.subrange(start as int, start + m)[j as int] != pattern@[j as int]);
            return false;
        }
        j = j + 1;
    }
    assert(s@.subrange(start as int, start + m) =~= pattern@);
    true
}

/// `true` when `file_name` is a git-branch-named lockfile: it starts with
/// `pnpm-lock.`, ends with `.yaml`, and the segment in between is
/// non-empty. The plain `pnpm-lock.yaml` is not one.
pub fn is_git_branch_lockfile_name(file_name: &str) -> (r: bool)
    ensures
        r == is_branch_lockfile_name(file_name@),
{
    let prefix = "pnpm-lock.";
    let suffix = ".yaml";
    proof {
        reveal_strlit("pnpm-lock.");
        reveal_strlit(".yaml");
    }
    assert(prefix@ =~= lockfile_name_prefix());
    assert(suffix@ =~= lockfile_name_suffix());
    let n = file_name.unicode_len();
    if n <= 15 {
        return false;
    }
    let starts = chars_match_at(file_name, 0, prefix);
    let ends = chars_match_at(file_name, n - 5, suffix);
    assert(file_name@.subrange(0, 10) =~= file_name@.take(10));
    assert(file_name@.subrange(n - 5, n as int) =~= file_name@.skip(n - 5));
    starts && ends
}


/// Every lockfile name built for a non-empty branch name is recognised as a
/// git-branch-named lockfile name.
pub proof fn lemma_branch_lockfile_name_is_recognised(branch: Seq<char>)
    requires
        branch.len() > 0,
    ensures
        is_branch_lockfile_name(branch_lockfile_name(branch)),
{
    let name = branch_lockfile_name(branch);
    let slug = branch_slug(branch);
    assert(name.take(10) =~= lockfile_name_prefix());
    assert(name.skip(name.len() - 5) =~= lockfile_name_suffix());
}

/// The slug of a branch name has one character per character of the branch
/// name, and holds only lower-case letters, digits, `_`, `.`, `-` and `!`:
/// no `/` and no upper-case letter.
pub proof fn lemma_branch_slug_chars(branch: Seq<char>)
    ensures
        branch_slug(branch).len() == branch.len(),
        forall|i: int|
            0 <= i < branch.len() ==> {
                let c = #[trigger] branch_slug(branch)[i];
                ||| 'a' <= c && c <= 'z'
                ||| '0' <= c && c <= '9'
                ||| c == '_' || c == '.' || c == '-' || c == '!'
            },
{
    assert forall|i: int| 0 <= i < branch.len() implies {
        let c = #[trigger] branch_slug(branch)[i];
        ||| 'a' <= c && c <= 'z'
        ||| '0' <= c && c <= '9'
        ||| c == '_' || c == '.' || c == '-' || c == '!'
    } by {
        let b = branch[i];
        if is_ascii_upper(b) {
            assert(65 <= (b as u32) <= 90);
        }
    }
}

/// The names among `names` that are git-branch-named lockfile names, in order.
pub open spec fn branch_lockfile_names_among(names: Seq<Seq<char>>) -> Seq<Seq<char>>
    decreases names.len(),
{
    if names.len() == 0 {
        names
    } else {
        let earlier = branch_lockfile_names_among(names.drop_last());
        if is_branch_lockfile_name(names.last()) {
            earlier.push(names.last())
        } else {
            earlier
        }
    }
}

/// Keeps, in order, the file names that are git-branch-named lockfile names.
pub fn select_git_branch_lockfile_names(file_names: &Vec<String>) -> (r: Vec<String>)
    ensures
        strings_view(r@) == branch_lockfile_names_among(strings_view(file_names@)),
{
    let ghost names = strings_view(file_names@);
    let n = file_names.len();
    let mut selected: Vec<String> = Vec::new();
    let mut i: usize = 0;
    while i < n
        invariant
            n == file_names@.len(),
            names == strings_view(file_names@),
            i <= n,
            strings_view(selected@) == branch_lockfile_names_among(names.take(i as int)),
        decreases n - i,
    {
        let ghost before = strings_view(selected@);
        assert(names.take(i + 1).drop_last() =~= names.take(i as int));
        assert(names.take(i + 1).last() == file_names@[i as int]@);
        if is_git_branch_lockfile_name(file_names[i].as_str()) {
            selected.push(file_names[i].clone());
            assert(strings_view(selected@) =~= before.push(file_names@[i as int]@));
        }
        i = i + 1;
    }
    assert(names.take(n as int) =~= names);
    selected
}

/// White space as `char::is_whitespace` defines it (the Unicode
/// `White_Space` property).
pub open spec fn is_white_space(c: char) -> bool {
    ||| '\u{9}' <= c && c <= '\u{d}'
    ||| c == ' ' || c == '\u{85}' || c == '\u{a0}' || c == '\u{1680}'
    ||| '\u{2000}' <= c && c <= '\u{200a}'
    ||| c == '\u{2028}' || c == '\u{2029}' || c == '\u{202f}' || c == '\u{205f}' || c == '\u{3000}'
}

/// `text` without its leading white space.
pub open spec fn trim_start(text: Seq<char>) -> Seq<char>
    decreases text.len(),
{
    if text.len() > 0 && is_white_space(text[0]) {
        trim_start(text.drop_first())
    } else {
        text
    }
}

/// `text` without its trailing white space.
pub open spec fn trim_end(text: Seq<char>) -> Seq<char>
    decreases text.len(),
{
    if text.len() > 0 && is_white_space(text.last()) {
        trim_end(text.drop_last())
    } else {
        text
    }
}

/// The branch that `git symbolic-ref --short HEAD` printed: its output
/// without leading and trailing white space, `None` when nothing is left.
pub open spec fn branch_from_output(output: Seq<char>) -> Option<Seq<char>> {
    let branch = trim_end(trim_start(output));
    if branch.len() == 0 {
        None
    } else {
        Some(branch)
    }
}

fn white_space_char(c: char) -> (r: bool)
    ensures
        r == is_white_space(c),
{
    ('\u{9}' <= c && c <= '\u{d}') || c == ' ' || c == '\u{85}' || c == '\u{a0}' || c == '\u{1680}'
        || ('\u{2000}' <= c && c <= '\u{200a}') || c == '\u{2028}' || c == '\u{2029}'
        || c == '\u{202f}' || c == '\u{205f}' || c == '\u{3000}'
}

proof fn lemma_trim_start(text: Seq<char>, i: int)
    requires
        0 <= i <= text.len(),
        forall|j: int| 0 <= j < i ==> is_white_space(#[trigger] text[j]),
        i == text.len() || !is_white_space(text[i]),
    ensures
        trim_start(text) == text.skip(i),
    decreases i,
{
    if i == 0 {
        assert(text.skip(0) =~= text);
    } else {
        let rest = text.drop_first();
        assert(is_white_space(text[0]));
        assert forall|j: int| 0 <= j < i - 1 implies is_white_space(#[trigger] rest[j]) by {
            assert(rest[j] == text[j + 1]);
        }
        if i - 1 < rest.len() {
            assert(rest[i - 1] == text[i]);
        }
        lemma_trim_start(rest, i - 1);
        assert(rest.skip(i - 1) =~= text.skip(i));
    }
}

proof fn lemma_trim_end(text: Seq<char>, k: int)
    requires
        0 <= k <= text.len(),
        forall|j: int| k <= j < text.len() ==> is_white_space(#[trigger] text[j]),
        k == 0 || !is_white_space(text[k - 1]),
    ensures
        trim_end(text) == text.take(k),
    decreases text.len() - k,
{
    if k == text.len() {
        assert(text.take(k) =~= text);
    } else {
        let rest = text.drop_last();
        assert(is_white_space(text[text.len() - 1]));
        assert forall|j: int| k <= j < rest.len() implies is_white_space(#[trigger] rest[j]) by {
            assert(rest[j] == text[j]);
        }
        if k > 0 {
            assert(rest[k - 1] == text[k - 1]);
        }
        lemma_trim_end(rest, k);
        assert(rest.take(k) =~= text.take(k));
    }
}

/// The branch name in the output of `git symbolic-ref --short HEAD`: the
/// output without leading and trailing white space, `None` when nothing is
/// left.
pub fn branch_from_symbolic_ref_output(output: &str) -> (r: Option<String>)
    ensures
        opt_text_view(r) == branch_from_output(output@),
{
    let n = output.unicode_len();
    let mut start: usize = 0;
    while start < n && white_space_char(output.get_char(start))
        invariant
            n == output@.len(),
            start <= n,
            forall|j: int| 0 <= j < start ==> is_white_space(#[trigger] output@[j]),
        decreases n - start,
    {
        start = start + 1;
    }
    proof {
        lemma_trim_start(output@, start as int);
    }
    let ghost rest = output@.skip(start as int);
    let mut end: usize = n;
    while end > start && white_space_char(output.get_char(end - 1))
        invariant
            n == output@.len(),
            start <= end <= n,
            rest == output@.skip(start as int),
            forall|j: int| end - start <= j < rest.len() ==> is_white_space(#[trigger] rest[j]),
        decreases end,
    {
        assert(rest[end - 1 - start] == output@[end - 1]);
        end = end - 1;
    }
    proof {
        if end > start {
            assert(rest[end - start - 1] == output@[end - 1]);
        }
        lemma_trim_end(rest, end - start);
        assert(rest.take(end - start) =~= output@.subrange(start as int, end as int));
    }
    if end == start {
        None
    } else {
        Some(output.substring_char(start, end).to_owned())
    }
}

/// The characters of an optional string.
pub open spec fn opt_text_view(s: Option<String>) -> Option<Seq<char>> {
    match s {
        Some(s) => Some(s@),
        None => None,
    }
}

} // verus!

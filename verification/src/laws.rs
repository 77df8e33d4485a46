//! What the library's operations do, stated over their inputs and results.

use crate::branch_lockfile::{
    branch_from_output, branch_lockfile_name, branch_lockfile_names_among, is_branch_lockfile_name,
    is_white_space,
};
use crate::lockfile::{DependencySpecModel, LockfileModel, ProjectSnapshotModel, SnapshotEntryModel};
use crate::merge::{
    merged_dependency_maps, merged_lockfile, merged_project_snapshot, merged_ref, merged_ref_maps,
    merged_snapshot_entry, merged_string_sets, or_empty, version_part,
};
use crate::semver::{lemma_semver_greater_asymmetric, parsed_semver, semver_greater, IdentModel, SemVerModel};
use vstd::prelude::*;

verus! {

/// The characters `pnpm-lock.`.
pub open spec fn name_head() -> Seq<char> {
    seq!['p', 'n', 'p', 'm', '-', 'l', 'o', 'c', 'k', '.']
}

/// The characters `.yaml`.
pub open spec fn name_tail() -> Seq<char> {
    seq!['.', 'y', 'a', 'm', 'l']
}

/// A character kept in a branch slug: one of `[a-z0-9_.-]`.
pub open spec fn kept_in_slug(c: char) -> bool {
    ||| 'a' <= c && c <= 'z'
    ||| '0' <= c && c <= '9'
    ||| c == '_' || c == '.' || c == '-'
}

/// The lockfile name of a branch is `pnpm-lock.`, then one character per
/// branch character, then `.yaml`. Each of those characters is the branch
/// character itself when it is one of `[a-z0-9_.-]`, its lower-case letter
/// when it is one of `[A-Z]`, and `!` otherwise.
pub proof fn law_branch_lockfile_name_chars(branch: Seq<char>)
    ensures
        branch_lockfile_name(branch).len() == branch.len() + 15,
        branch_lockfile_name(branch).take(10) == name_head(),
        branch_lockfile_name(branch).skip(branch.len() + 10int) == name_tail(),
        forall|i: int|
            0 <= i < branch.len() ==> {
                let c = branch[i];
                let s = #[trigger] branch_lockfile_name(branch)[i + 10];
                &&& kept_in_slug(c) ==> s == c
                &&& 'A' <= c && c <= 'Z' ==> s as u32 == c as u32 + 32
                &&& !kept_in_slug(c) && !('A' <= c && c <= 'Z') ==> s == '!'
            },
{
    let name = branch_lockfile_name(branch);
    assert(name.take(10) =~= name_head());
    assert(name.skip(branch.len() + 10int) =~= name_tail());
    assert forall|i: int| 0 <= i < branch.len() implies {
        let c = branch[i];
        let s = #[trigger] branch_lockfile_name(branch)[i + 10];
        &&& kept_in_slug(c) ==> s == c
        &&& 'A' <= c && c <= 'Z' ==> s as u32 == c as u32 + 32
        &&& !kept_in_slug(c) && !('A' <= c && c <= 'Z') ==> s == '!'
    } by {
        let c = branch[i];
        if 'A' <= c && c <= 'Z' {
            assert(65 <= c as u32 <= 90);
            assert((((c as u32) + 32) as char) as u32 == c as u32 + 32);
        }
    }
}

/// A file name is recognised as a git-branch-named lockfile name exactly
/// when it is `pnpm-lock.`, then a non-empty slug, then `.yaml`.
pub proof fn law_branch_lockfile_name_recognised(file_name: Seq<char>)
    ensures
        is_branch_lockfile_name(file_name) <==> exists|slug: Seq<char>|
            slug.len() > 0 && file_name == #[trigger] (name_head() + slug + name_tail()),
{
    if is_branch_lockfile_name(file_name) {
        let slug = file_name.subrange(10, file_name.len() - 5);
        assert(file_name.take(10) =~= name_head());
        assert(file_name.skip(file_name.len() - 5) =~= name_tail());
        assert(file_name =~= name_head() + slug + name_tail());
    }
    if exists|slug: Seq<char>| slug.len() > 0 && file_name == #[trigger] (name_head() + slug + name_tail()) {
        let slug = choose|slug: Seq<char>| slug.len() > 0 && file_name == #[trigger] (name_head() + slug + name_tail());
        assert(file_name.take(10) =~= name_head());
        assert(file_name.skip(file_name.len() - 5) =~= name_tail());
    }
}

/// The selection holds a name exactly when the given names hold it and it
/// is a git-branch-named lockfile name, whatever the other names and their
/// order; it keeps the order of the names, and keeps them all when all are
/// lockfile names.
pub proof fn law_selection_is_a_filter(names: Seq<Seq<char>>)
    ensures
        forall|x: Seq<char>|
            #[trigger] branch_lockfile_names_among(names).contains(x) <==> (names.contains(x)
                && is_branch_lockfile_name(x)),
        branch_lockfile_names_among(names).len() <= names.len(),
        (forall|i: int| 0 <= i < names.len() ==> is_branch_lockfile_name(#[trigger] names[i]))
            ==> branch_lockfile_names_among(names) == names,
    decreases names.len(),
{
    if names.len() > 0 {
        let init = names.drop_last();
        law_selection_is_a_filter(init);
        let earlier = branch_lockfile_names_among(init);
        let last = names.last();
        assert forall|x: Seq<char>| #[trigger] names.contains(x) <==> (init.contains(x) || x == last) by {
            if names.contains(x) {
                let j = choose|j: int| 0 <= j < names.len() && names[j] == x;
                if j < names.len() - 1 {
                    assert(init[j] == x);
                }
            }
            if init.contains(x) {
                let j = choose|j: int| 0 <= j < init.len() && init[j] == x;
                assert(names[j] == x);
            }
            if x == last {
                assert(names[names.len() - 1] == x);
            }
        }
        assert forall|x: Seq<char>| #[trigger] earlier.push(last).contains(x) <==> (earlier.contains(x) || x == last) by {
            let p = earlier.push(last);
            if p.contains(x) {
                let j = choose|j: int| 0 <= j < p.len() && p[j] == x;
                if j < earlier.len() {
                    assert(earlier[j] == x);
                }
            }
            if earlier.contains(x) {
                let j = choose|j: int| 0 <= j < earlier.len() && earlier[j] == x;
                assert(p[j] == x);
            }
            if x == last {
                assert(p[earlier.len() as int] == x);
            }
        }
        if forall|i: int| 0 <= i < names.len() ==> is_branch_lockfile_name(#[trigger] names[i]) {
            assert forall|i: int| 0 <= i < init.len() implies is_branch_lockfile_name(#[trigger] init[i]) by {
                assert(init[i] == names[i]);
            }
            assert(is_branch_lockfile_name(names[names.len() - 1]));
            assert(names =~= init.push(last));
        }
    }
}

/// Selecting among two lists of names one after the other selects the
/// selections of each, one after the other; among one name, the selection
/// is that name when it is a git-branch-named lockfile name and nothing
/// otherwise. Together these fix the selection as the filter of the names by
/// the recogniser, in their order.
pub proof fn law_selection_keeps_order(a: Seq<Seq<char>>, b: Seq<Seq<char>>, x: Seq<char>)
    ensures
        branch_lockfile_names_among(a + b) == branch_lockfile_names_among(a) + branch_lockfile_names_among(b),
        branch_lockfile_names_among(seq![x]) == if is_branch_lockfile_name(x) {
            seq![x]
        } else {
            Seq::<Seq<char>>::empty()
        },
    decreases b.len(),
{
    assert(seq![x].drop_last() =~= Seq::<Seq<char>>::empty());
    assert(seq![x].last() == x);
    assert(branch_lockfile_names_among(Seq::<Seq<char>>::empty()) == Seq::<Seq<char>>::empty());
    assert(Seq::<Seq<char>>::empty().push(x) =~= seq![x]);
    if b.len() == 0 {
        assert(a + b =~= a);
        assert(branch_lockfile_names_among(a) + branch_lockfile_names_among(b) =~= branch_lockfile_names_among(a));
    } else {
        law_selection_keeps_order(a, b.drop_last(), x);
        assert((a + b).drop_last() =~= a + b.drop_last());
        assert((a + b).last() == b.last());
        let sa = branch_lockfile_names_among(a);
        let sb = branch_lockfile_names_among(b.drop_last());
        assert((sa + sb).push(b.last()) =~= sa + sb.push(b.last()));
    }
}

/// Tab, line feed, vertical tab, form feed, carriage return, space, next
/// line, no-break space and ideographic space are white space; no visible
/// ASCII character is.
pub proof fn law_white_space(c: char)
    ensures
        c == '\t' || c == '\n' || c == '\u{b}' || c == '\u{c}' || c == '\r' || c == ' ' || c == '\u{85}'
            || c == '\u{a0}' || c == '\u{3000}' ==> is_white_space(c),
        '!' <= c && c <= '~' ==> !is_white_space(c),
{
}

/// The branch read from git's output is a stretch of the output that
/// neither starts nor ends with white space, and everything outside it is
/// white space; there is none exactly when the output is all white space.
pub proof fn law_branch_from_output(output: Seq<char>)
    ensures
        branch_from_output(output) is None <==> forall|i: int| 0 <= i < output.len() ==> is_white_space(#[trigger] output[i]),
        branch_from_output(output) matches Some(b) ==> exists|s: int, e: int| {
            &&& 0 <= s < e <= output.len()
            &&& b == #[trigger] output.subrange(s, e)
            &&& !is_white_space(output[s]) && !is_white_space(output[e - 1])
            &&& forall|i: int| 0 <= i < s ==> is_white_space(#[trigger] output[i])
            &&& forall|i: int| e <= i < output.len() ==> is_white_space(#[trigger] output[i])
        },
{
    let (s, e) = lemma_trim_bounds(output);
    assert(output.subrange(s, e) =~= output.subrange(s, e));
    if s < e {
        assert(output.subrange(s, e).len() > 0);
    } else {
        assert forall|i: int| 0 <= i < output.len() implies is_white_space(#[trigger] output[i]) by {
            if i >= s {
                assert(i >= e);
            }
        }
    }
}

proof fn lemma_trim_bounds(output: Seq<char>) -> (bounds: (int, int))
    ensures
        0 <= bounds.0 <= bounds.1 <= output.len(),
        crate::branch_lockfile::trim_end(crate::branch_lockfile::trim_start(output)) == output.subrange(bounds.0, bounds.1),
        forall|i: int| 0 <= i < bounds.0 ==> is_white_space(#[trigger] output[i]),
        forall|i: int| bounds.1 <= i < output.len() ==> is_white_space(#[trigger] output[i]),
        bounds.0 < bounds.1 ==> !is_white_space(output[bounds.0]) && !is_white_space(output[bounds.1 - 1]),
        bounds.0 == bounds.1 ==> bounds.0 == output.len(),
{
    let s = lemma_trim_start_index(output);
    let rest = output.skip(s);
    let k = lemma_trim_end_index(rest);
    assert(rest.take(k) =~= output.subrange(s, s + k));
    assert forall|i: int| s + k <= i < output.len() implies is_white_space(#[trigger] output[i]) by {
        assert(rest[i - s] == output[i]);
    }
    if k > 0 {
        assert(rest[k - 1] == output[s + k - 1]);
        assert(rest[0] == output[s]);
    }
    if k == 0 && s < output.len() {
        assert(rest[0] == output[s]);
    }
    (s, s + k)
}

proof fn lemma_trim_start_index(text: Seq<char>) -> (i: int)
    ensures
        0 <= i <= text.len(),
        crate::branch_lockfile::trim_start(text) == text.skip(i),
        forall|j: int| 0 <= j < i ==> is_white_space(#[trigger] text[j]),
        i < text.len() ==> !is_white_space(text[i]),
    decreases text.len(),
{
    if text.len() > 0 && is_white_space(text[0]) {
        let rest = text.drop_first();
        let i = lemma_trim_start_index(rest);
        assert(rest.skip(i) =~= text.skip(i + 1));
        assert forall|j: int| 0 <= j < i + 1 implies is_white_space(#[trigger] text[j]) by {
            if j > 0 {
                assert(rest[j - 1] == text[j]);
            }
        }
        if i + 1 < text.len() {
            assert(rest[i] == text[i + 1]);
        }
        i + 1
    } else {
        assert(text.skip(0) =~= text);
        0
    }
}

proof fn lemma_trim_end_index(text: Seq<char>) -> (k: int)
    ensures
        0 <= k <= text.len(),
        crate::branch_lockfile::trim_end(text) == text.take(k),
        forall|j: int| k <= j < text.len() ==> is_white_space(#[trigger] text[j]),
        k > 0 ==> !is_white_space(text[k - 1]),
    decreases text.len(),
{
    if text.len() > 0 && is_white_space(text.last()) {
        let rest = text.drop_last();
        let k = lemma_trim_end_index(rest);
        assert(rest.take(k) =~= text.take(k));
        assert forall|j: int| k <= j < text.len() implies is_white_space(#[trigger] text[j]) by {
            if j < rest.len() {
                assert(rest[j] == text[j]);
            }
        }
        if k > 0 {
            assert(rest[k - 1] == text[k - 1]);
        }
        k
    } else {
        assert(text.take(text.len() as int) =~= text);
        text.len() as int
    }
}

/// The strings of an optional list: none for `None`.
pub open spec fn list_or_empty(l: Option<Seq<Seq<char>>>) -> Seq<Seq<char>> {
    match l {
        Some(l) => l,
        None => Seq::empty(),
    }
}

/// `merged` holds exactly the keys of either map, and is `None` exactly
/// when neither map holds a key.
pub open spec fn keys_of_both<A, B>(
    ours: Option<Map<Seq<char>, A>>,
    theirs: Option<Map<Seq<char>, A>>,
    merged: Option<Map<Seq<char>, B>>,
) -> bool {
    &&& merged is None <==> forall|k: Seq<char>| !or_empty(ours).dom().contains(k) && !or_empty(theirs).dom().contains(k)
    &&& forall|k: Seq<char>|
        #[trigger] or_empty(merged).dom().contains(k) <==> (or_empty(ours).dom().contains(k)
            || or_empty(theirs).dom().contains(k))
}

/// `merged` holds the keys of either map, each with theirs' value where
/// theirs holds the key and ours' otherwise.
pub open spec fn theirs_win_by_key<A>(
    ours: Option<Map<Seq<char>, A>>,
    theirs: Option<Map<Seq<char>, A>>,
    merged: Option<Map<Seq<char>, A>>,
) -> bool {
    &&& keys_of_both(ours, theirs, merged)
    &&& forall|k: Seq<char>|
        #[trigger] or_empty(merged).dom().contains(k) ==> or_empty(merged)[k] == if or_empty(theirs).dom().contains(k) {
            or_empty(theirs)[k]
        } else {
            or_empty(ours)[k]
        }
}

/// `r` is a right merge of two dependency references: the only one present
/// when one side is missing; the common one when they are equal; the one
/// whose version part has the higher precedence when both read as semantic
/// versions of different precedence; theirs when they differ and either
/// does not read as one; always one of the two.
pub open spec fn ref_merged_from(ours: Option<Seq<char>>, theirs: Option<Seq<char>>, r: Seq<char>) -> bool {
    match (ours, theirs) {
        (Some(a), None) => r == a,
        (None, Some(b)) => r == b,
        (Some(a), Some(b)) => {
            &&& r == a || r == b
            &&& a == b ==> r == a
            &&& (parsed_semver(version_part(a)) is None || parsed_semver(version_part(b)) is None) ==> r == b
            &&& (parsed_semver(version_part(a)) matches Some(x) && parsed_semver(version_part(b)) matches Some(y)
                && semver_greater(x, y)) ==> r == a
            &&& (parsed_semver(version_part(a)) matches Some(x) && parsed_semver(version_part(b)) matches Some(y)
                && semver_greater(y, x)) ==> r == b
            &&& (parsed_semver(version_part(a)) matches Some(x) && parsed_semver(version_part(b)) matches Some(y)
                && !semver_greater(x, y) && a != b) ==> r == b
        },
        (None, None) => true,
    }
}

/// The merge of one dependency reference is a right merge of the two sides.
pub proof fn law_merged_ref(ours: Option<Seq<char>>, theirs: Option<Seq<char>>)
    ensures
        ref_merged_from(ours, theirs, merged_ref(ours, theirs)),
{
    if let (Some(a), Some(b)) = (ours, theirs) {
        if let (Some(x), Some(y)) = (parsed_semver(version_part(a)), parsed_semver(version_part(b))) {
            lemma_semver_greater_asymmetric(x, y);
        }
    }
}

/// `merged` holds the keys of either map of dependency references, each
/// with a right merge of the two sides' references.
pub open spec fn refs_merged_by_key(
    ours: Option<Map<Seq<char>, Seq<char>>>,
    theirs: Option<Map<Seq<char>, Seq<char>>>,
    merged: Option<Map<Seq<char>, Seq<char>>>,
) -> bool {
    &&& keys_of_both(ours, theirs, merged)
    &&& forall|k: Seq<char>|
        #[trigger] or_empty(merged).dom().contains(k) ==> ref_merged_from(
            or_empty(ours).get(k),
            or_empty(theirs).get(k),
            or_empty(merged)[k],
        )
}

/// The merge of two maps of dependency references merges them key by key.
pub proof fn law_merged_ref_maps(
    ours: Option<Map<Seq<char>, Seq<char>>>,
    theirs: Option<Map<Seq<char>, Seq<char>>>,
)
    ensures
        refs_merged_by_key(ours, theirs, merged_ref_maps(ours, theirs)),
{
    let m = merged_ref_maps(ours, theirs);
    assert forall|k: Seq<char>| #[trigger] or_empty(m).dom().contains(k) implies ref_merged_from(
        or_empty(ours).get(k),
        or_empty(theirs).get(k),
        or_empty(m)[k],
    ) by {
        law_merged_ref(or_empty(ours).get(k), or_empty(theirs).get(k));
    }
    lemma_none_iff_no_keys(ours, theirs, crate::merge::merged_entries(or_empty(ours), or_empty(theirs), |a: Option<Seq<char>>, b: Option<Seq<char>>| merged_ref(a, b)));
}

proof fn lemma_none_iff_no_keys<A, B>(
    ours: Option<Map<Seq<char>, A>>,
    theirs: Option<Map<Seq<char>, A>>,
    whole: Map<Seq<char>, B>,
)
    requires
        forall|k: Seq<char>|
            #[trigger] whole.dom().contains(k) <==> (or_empty(ours).dom().contains(k)
                || or_empty(theirs).dom().contains(k)),
    ensures
        keys_of_both(ours, theirs, crate::merge::none_if_empty(whole)),
{
    let merged = crate::merge::none_if_empty(whole);
    if merged is None {
        assert forall|k: Seq<char>| !or_empty(ours).dom().contains(k) && !or_empty(theirs).dom().contains(k) by {
            if or_empty(ours).dom().contains(k) || or_empty(theirs).dom().contains(k) {
                assert(whole.dom().contains(k));
            }
        }
    } else {
        if forall|k: Seq<char>| !or_empty(ours).dom().contains(k) && !or_empty(theirs).dom().contains(k) {
            assert(whole.dom() =~= Set::<Seq<char>>::empty());
        }
    }
}

/// `merged` holds the resolved dependencies of either map, each with
/// theirs' specifier where theirs lists the dependency and ours' otherwise,
/// and a right merge of the two sides' version references.
pub open spec fn dependencies_merged_by_alias(
    ours: Option<Map<Seq<char>, DependencySpecModel>>,
    theirs: Option<Map<Seq<char>, DependencySpecModel>>,
    merged: Option<Map<Seq<char>, DependencySpecModel>>,
) -> bool {
    let o = or_empty(ours);
    let t = or_empty(theirs);
    let m = or_empty(merged);
    &&& keys_of_both(ours, theirs, merged)
    &&& forall|k: Seq<char>|
        #[trigger] m.dom().contains(k) ==> {
            &&& m[k].specifier == if t.dom().contains(k) {
                t[k].specifier
            } else {
                o[k].specifier
            }
            &&& ref_merged_from(
                if o.dom().contains(k) { Some(o[k].version) } else { None },
                if t.dom().contains(k) { Some(t[k].version) } else { None },
                m[k].version,
            )
        }
}

/// The merge of two maps of resolved dependencies merges them alias by alias.
pub proof fn law_merged_dependency_maps(
    ours: Option<Map<Seq<char>, DependencySpecModel>>,
    theirs: Option<Map<Seq<char>, DependencySpecModel>>,
)
    ensures
        dependencies_merged_by_alias(ours, theirs, merged_dependency_maps(ours, theirs)),
{
    let m = merged_dependency_maps(ours, theirs);
    let o = or_empty(ours);
    let t = or_empty(theirs);
    assert forall|k: Seq<char>| #[trigger] or_empty(m).dom().contains(k) implies {
        &&& or_empty(m)[k].specifier == if t.dom().contains(k) {
            t[k].specifier
        } else {
            o[k].specifier
        }
        &&& ref_merged_from(
            if o.dom().contains(k) { Some(o[k].version) } else { None },
            if t.dom().contains(k) { Some(t[k].version) } else { None },
            or_empty(m)[k].version,
        )
    } by {
        law_merged_ref(
            if o.dom().contains(k) { Some(o[k].version) } else { None },
            if t.dom().contains(k) { Some(t[k].version) } else { None },
        );
    }
    lemma_none_iff_no_keys(ours, theirs, crate::merge::merged_entries(o, t, |a: Option<DependencySpecModel>, b: Option<DependencySpecModel>| crate::merge::merged_dependency_spec(a, b)));
}

/// `m` is a right merge of two project snapshots (a missing one counting as
/// empty): specifiers take theirs where theirs lists the dependency and
/// ours otherwise; the three dependency maps merge alias by alias;
/// `dependencies_meta` and `publish_directory` are theirs when present,
/// ours otherwise.
pub open spec fn project_merged_from(
    ours: Option<ProjectSnapshotModel>,
    theirs: Option<ProjectSnapshotModel>,
    m: ProjectSnapshotModel,
) -> bool {
    let o_specifiers = match ours { Some(p) => p.specifiers, None => None };
    let t_specifiers = match theirs { Some(p) => p.specifiers, None => None };
    let o_dependencies = match ours { Some(p) => p.dependencies, None => None };
    let t_dependencies = match theirs { Some(p) => p.dependencies, None => None };
    let o_dev = match ours { Some(p) => p.dev_dependencies, None => None };
    let t_dev = match theirs { Some(p) => p.dev_dependencies, None => None };
    let o_optional = match ours { Some(p) => p.optional_dependencies, None => None };
    let t_optional = match theirs { Some(p) => p.optional_dependencies, None => None };
    let o_meta = match ours { Some(p) => p.dependencies_meta, None => None };
    let t_meta = match theirs { Some(p) => p.dependencies_meta, None => None };
    let o_publish = match ours { Some(p) => p.publish_directory, None => None };
    let t_publish = match theirs { Some(p) => p.publish_directory, None => None };
    &&& theirs_win_by_key(o_specifiers, t_specifiers, m.specifiers)
    &&& dependencies_merged_by_alias(o_dependencies, t_dependencies, m.dependencies)
    &&& dependencies_merged_by_alias(o_dev, t_dev, m.dev_dependencies)
    &&& dependencies_merged_by_alias(o_optional, t_optional, m.optional_dependencies)
    &&& m.dependencies_meta == if t_meta is Some { t_meta } else { o_meta }
    &&& m.publish_directory == if t_publish is Some { t_publish } else { o_publish }
}

/// The merge of two project snapshots is a right merge of them.
pub proof fn law_merged_project_snapshot(ours: Option<ProjectSnapshotModel>, theirs: Option<ProjectSnapshotModel>)
    ensures
        project_merged_from(ours, theirs, merged_project_snapshot(ours, theirs)),
{
    let m = merged_project_snapshot(ours, theirs);
    let o = crate::merge::project_or_empty(ours);
    let t = crate::merge::project_or_empty(theirs);
    law_merged_dependency_maps(o.dependencies, t.dependencies);
    law_merged_dependency_maps(o.dev_dependencies, t.dev_dependencies);
    law_merged_dependency_maps(o.optional_dependencies, t.optional_dependencies);
    let sm = m.specifiers;
    assert forall|k: Seq<char>| #[trigger] or_empty(sm).dom().contains(k) implies or_empty(sm)[k] == if or_empty(t.specifiers).dom().contains(k) {
        or_empty(t.specifiers)[k]
    } else {
        or_empty(o.specifiers)[k]
    } by {}
    lemma_none_iff_no_keys(o.specifiers, t.specifiers, crate::merge::merged_entries(or_empty(o.specifiers), or_empty(t.specifiers), |a: Option<Seq<char>>, b: Option<Seq<char>>| crate::merge::text_or_empty(crate::merge::theirs_or_ours(a, b))));
}

/// `m` is a right merge of two snapshot entries: its fields other than the
/// dependency maps are theirs' when theirs has the entry, ours' when only
/// ours has it, and empty when neither has; its two dependency maps merge
/// the two sides' maps key by key.
pub open spec fn snapshot_merged_from(
    ours: Option<SnapshotEntryModel>,
    theirs: Option<SnapshotEntryModel>,
    m: SnapshotEntryModel,
) -> bool {
    &&& match (ours, theirs) {
        (_, Some(t)) => m.optional == t.optional && m.transitive_peer_dependencies == t.transitive_peer_dependencies,
        (Some(o), None) => m.optional == o.optional && m.transitive_peer_dependencies == o.transitive_peer_dependencies,
        (None, None) => !m.optional && m.transitive_peer_dependencies is None,
    }
    &&& refs_merged_by_key(
        match ours { Some(e) => e.dependencies, None => None },
        match theirs { Some(e) => e.dependencies, None => None },
        m.dependencies,
    )
    &&& refs_merged_by_key(
        match ours { Some(e) => e.optional_dependencies, None => None },
        match theirs { Some(e) => e.optional_dependencies, None => None },
        m.optional_dependencies,
    )
}

/// The merge of two snapshot entries is a right merge of them.
pub proof fn law_merged_snapshot_entry(ours: Option<SnapshotEntryModel>, theirs: Option<SnapshotEntryModel>)
    ensures
        snapshot_merged_from(ours, theirs, merged_snapshot_entry(ours, theirs)),
{
    law_merged_ref_maps(
        match ours { Some(e) => e.dependencies, None => None },
        match theirs { Some(e) => e.dependencies, None => None },
    );
    law_merged_ref_maps(
        match ours { Some(e) => e.optional_dependencies, None => None },
        match theirs { Some(e) => e.optional_dependencies, None => None },
    );
}

/// The merge of two lockfiles:
/// - its lockfile version is one of the two, with the higher minor version;
/// - its pnpmfile checksum is ours' when ours has one, theirs' otherwise;
/// - its ignored optional dependencies are the strings of both lists, and
///   `None` exactly when neither list holds one;
/// - settings, catalogs, overrides, the package-extensions checksum and the
///   patched dependencies are dropped;
/// - it has an importer for each importer of either side, a right merge of
///   the two sides' project snapshots;
/// - its packages are those of both sides, theirs' where both list one;
/// - its snapshots are those of both sides, each a right merge of the two
///   sides' entries.
pub proof fn law_merged_lockfile(ours: LockfileModel, theirs: LockfileModel)
    ensures
        ({
            let m = merged_lockfile(ours, theirs);
            &&& m.lockfile_version == ours.lockfile_version || m.lockfile_version == theirs.lockfile_version
            &&& m.lockfile_version.minor >= ours.lockfile_version.minor
            &&& m.lockfile_version.minor >= theirs.lockfile_version.minor
            &&& ours.lockfile_version.minor >= theirs.lockfile_version.minor ==> m.lockfile_version == ours.lockfile_version
            &&& m.pnpmfile_checksum == if ours.pnpmfile_checksum is Some {
                ours.pnpmfile_checksum
            } else {
                theirs.pnpmfile_checksum
            }
            &&& forall|x: Seq<char>|
                #[trigger] list_or_empty(m.ignored_optional_dependencies).contains(x)
                    <==> list_or_empty(ours.ignored_optional_dependencies).contains(x)
                    || list_or_empty(theirs.ignored_optional_dependencies).contains(x)
            &&& m.ignored_optional_dependencies is None <==> (
                list_or_empty(ours.ignored_optional_dependencies).len() == 0
                && list_or_empty(theirs.ignored_optional_dependencies).len() == 0)
            &&& m.settings is None && m.catalogs is None && m.overrides is None
            &&& m.package_extensions_checksum is None && m.patched_dependencies is None
            &&& forall|k: Seq<char>|
                #[trigger] m.importers.dom().contains(k) <==> (ours.importers.dom().contains(k)
                    || theirs.importers.dom().contains(k))
            &&& forall|k: Seq<char>|
                #[trigger] m.importers.dom().contains(k) ==> project_merged_from(
                    ours.importers.get(k),
                    theirs.importers.get(k),
                    m.importers[k],
                )
            &&& theirs_win_by_key(ours.packages, theirs.packages, m.packages)
            &&& keys_of_both(ours.snapshots, theirs.snapshots, m.snapshots)
            &&& forall|k: Seq<char>|
                #[trigger] or_empty(m.snapshots).dom().contains(k) ==> snapshot_merged_from(
                    or_empty(ours.snapshots).get(k),
                    or_empty(theirs.snapshots).get(k),
                    or_empty(m.snapshots)[k],
                )
        }),
{
    let m = merged_lockfile(ours, theirs);
    crate::merge::lemma_merged_string_sets_union(ours.ignored_optional_dependencies, theirs.ignored_optional_dependencies);
    let mi = list_or_empty(m.ignored_optional_dependencies);
    assert forall|x: Seq<char>|
        #[trigger] mi.contains(x)
            <==> list_or_empty(ours.ignored_optional_dependencies).contains(x)
            || list_or_empty(theirs.ignored_optional_dependencies).contains(x) by {
        if m.ignored_optional_dependencies is Some {
            assert(merged_string_sets(ours.ignored_optional_dependencies, theirs.ignored_optional_dependencies)
                == Some(mi));
        } else {
            let o = list_or_empty(ours.ignored_optional_dependencies);
            let t = list_or_empty(theirs.ignored_optional_dependencies);
            assert(o.len() == 0 && t.len() == 0);
            assert(!o.contains(x) && !t.contains(x));
        }
    }
    assert forall|k: Seq<char>| #[trigger] m.importers.dom().contains(k) implies project_merged_from(
        ours.importers.get(k),
        theirs.importers.get(k),
        m.importers[k],
    ) by {
        law_merged_project_snapshot(ours.importers.get(k), theirs.importers.get(k));
    }
    let pm = m.packages;
    lemma_none_iff_no_keys(ours.packages, theirs.packages, or_empty(ours.packages).union_prefer_right(or_empty(theirs.packages)));
    let sm = m.snapshots;
    assert forall|k: Seq<char>| #[trigger] or_empty(sm).dom().contains(k) implies snapshot_merged_from(
        or_empty(ours.snapshots).get(k),
        or_empty(theirs.snapshots).get(k),
        or_empty(sm)[k],
    ) by {
        law_merged_snapshot_entry(or_empty(ours.snapshots).get(k), or_empty(theirs.snapshots).get(k));
    }
    lemma_none_iff_no_keys(ours.snapshots, theirs.snapshots, crate::merge::merged_entries(or_empty(ours.snapshots), or_empty(theirs.snapshots), |a: Option<SnapshotEntryModel>, b: Option<SnapshotEntryModel>| merged_snapshot_entry(a, b)));
}

/// The version part of a dependency reference is its longest start that
/// holds no `(`: all of it when it holds none, else everything before the
/// first `(`.
pub proof fn law_version_part(text: Seq<char>)
    ensures
        version_part(text).len() <= text.len(),
        version_part(text) == text.take(version_part(text).len() as int),
        forall|i: int| 0 <= i < version_part(text).len() ==> #[trigger] version_part(text)[i] != '(',
        version_part(text).len() == text.len() || text[version_part(text).len() as int] == '(',
    decreases text.len(),
{
    if text.len() > 0 && text[0] != '(' {
        let rest = text.drop_first();
        law_version_part(rest);
        let v = version_part(text);
        assert(v =~= seq![text[0]] + version_part(rest));
        assert(text.take(v.len() as int) =~= seq![text[0]] + rest.take(version_part(rest).len() as int));
        if version_part(rest).len() < rest.len() {
            assert(rest[version_part(rest).len() as int] == text[v.len() as int]);
        }
        assert forall|i: int| 0 <= i < v.len() implies #[trigger] v[i] != '(' by {
            if i > 0 {
                assert(v[i] == version_part(rest)[i - 1]);
            }
        }
    } else if text.len() > 0 {
        assert(text.take(0) =~= Seq::<char>::empty());
    } else {
        assert(text.take(0) =~= text);
    }
}

/// The merged list of strings starts with ours' list unchanged, and every
/// later string is one of theirs that ours' list does not hold, with no
/// repeats among them.
pub proof fn law_merged_string_sets_order(ours: Option<Seq<Seq<char>>>, theirs: Option<Seq<Seq<char>>>)
    ensures
        ({
            let m = list_or_empty(merged_string_sets(ours, theirs));
            let o = list_or_empty(ours);
            &&& m.len() >= o.len()
            &&& m.take(o.len() as int) == o
            &&& forall|i: int| o.len() <= i < m.len() ==> list_or_empty(theirs).contains(#[trigger] m[i]) && !o.contains(m[i])
            &&& forall|i: int, j: int| o.len() <= i < j < m.len() ==> #[trigger] m[i] != #[trigger] m[j]
        }),
{
    lemma_append_missing_order(list_or_empty(ours), list_or_empty(theirs));
}

proof fn lemma_append_missing_order(acc: Seq<Seq<char>>, xs: Seq<Seq<char>>)
    ensures
        ({
            let m = crate::merge::append_missing(acc, xs);
            &&& m.len() >= acc.len()
            &&& m.take(acc.len() as int) == acc
            &&& forall|i: int| acc.len() <= i < m.len() ==> xs.contains(#[trigger] m[i]) && !acc.contains(m[i])
            &&& forall|i: int, j: int| acc.len() <= i < j < m.len() ==> #[trigger] m[i] != #[trigger] m[j]
        }),
    decreases xs.len(),
{
    let m = crate::merge::append_missing(acc, xs);
    if xs.len() == 0 {
        assert(acc.take(acc.len() as int) =~= acc);
    } else {
        let x = xs[0];
        let next = if acc.contains(x) { acc } else { acc.push(x) };
        let rest = xs.drop_first();
        lemma_append_missing_order(next, rest);
        assert(m == crate::merge::append_missing(next, rest));
        assert forall|y: Seq<char>| rest.contains(y) implies xs.contains(y) by {
            let j = choose|j: int| 0 <= j < rest.len() && rest[j] == y;
            assert(xs[j + 1] == y);
        }
        if acc.contains(x) {
        } else {
            assert(m.take(next.len() as int) == next);
            assert(m.take(acc.len() as int) =~= next.take(acc.len() as int));
            assert(next.take(acc.len() as int) =~= acc);
            assert(m[acc.len() as int] == next[acc.len() as int]);
            assert(xs.contains(x));
            assert forall|i: int| acc.len() <= i < m.len() implies xs.contains(#[trigger] m[i]) && !acc.contains(m[i]) by {
                if i > acc.len() {
                    assert(!next.contains(m[i]));
                    if acc.contains(m[i]) {
                        let j = choose|j: int| 0 <= j < acc.len() && acc[j] == m[i];
                        assert(next[j] == m[i]);
                    }
                }
            }
            assert forall|i: int, j: int| acc.len() <= i < j < m.len() implies #[trigger] m[i] != #[trigger] m[j] by {
                if i == acc.len() {
                    assert(next[acc.len() as int] == x);
                    assert(next.contains(x));
                }
            }
        }
    }
}

/// Precedence of semantic versions: a higher major, else a higher minor,
/// else a higher patch version is greater; with those equal, a release is
/// greater than a pre-release, and of two pre-releases, a numeric first
/// identifier is lower than an alphanumeric one, and a tag that extends
/// another is greater than it.
pub proof fn law_semver_precedence(a: SemVerModel, b: SemVerModel)
    ensures
        a.major > b.major ==> semver_greater(a, b),
        a.major == b.major && a.minor > b.minor ==> semver_greater(a, b),
        a.major == b.major && a.minor == b.minor && a.patch > b.patch ==> semver_greater(a, b),
        a.major == b.major && a.minor == b.minor && a.patch == b.patch && a.pre_release.len() == 0
            && b.pre_release.len() > 0 ==> semver_greater(a, b),
        a.major == b.major && a.minor == b.minor && a.patch == b.patch && a.pre_release.len() == 0
            && b.pre_release.len() == 0 ==> !semver_greater(a, b),
        a.major == b.major && a.minor == b.minor && a.patch == b.patch && a.pre_release.len() > 0
            && b.pre_release.len() > 0 && a.pre_release[0] is AlphaNumeric && b.pre_release[0] is Numeric
            ==> semver_greater(a, b),
        a.major == b.major && a.minor == b.minor && a.patch == b.patch && b.pre_release.len() > 0
            && a.pre_release.len() > b.pre_release.len() && a.pre_release.take(b.pre_release.len() as int)
            == b.pre_release ==> semver_greater(a, b),
        a.major == b.major && a.minor == b.minor && a.patch == b.patch && a.pre_release.len() > 0
            && b.pre_release.len() > 0 && a.pre_release[0] is Numeric && b.pre_release[0] is Numeric
            && a.pre_release[0]->Numeric_0 > b.pre_release[0]->Numeric_0 ==> semver_greater(a, b),
        a.major == b.major && a.minor == b.minor && a.patch == b.patch && a.pre_release.len() > 0
            && b.pre_release.len() > 0 && a.pre_release[0] is AlphaNumeric && b.pre_release[0] is AlphaNumeric
            && a.pre_release[0]->AlphaNumeric_0.len() > 0 && b.pre_release[0]->AlphaNumeric_0.len() > 0
            && (a.pre_release[0]->AlphaNumeric_0[0] as u32) > (b.pre_release[0]->AlphaNumeric_0[0] as u32)
            ==> semver_greater(a, b),
{
    if a.major == b.major && a.minor == b.minor && a.patch == b.patch && b.pre_release.len() > 0
        && a.pre_release.len() > b.pre_release.len() && a.pre_release.take(b.pre_release.len() as int)
        == b.pre_release {
        lemma_prefix_is_less(b.pre_release, a.pre_release);
    }
}

proof fn lemma_prefix_is_less(p: Seq<IdentModel>, s: Seq<IdentModel>)
    requires
        s.len() > p.len(),
        s.take(p.len() as int) == p,
    ensures
        crate::semver::idents_less(p, s),
    decreases p.len(),
{
    if p.len() > 0 {
        assert(s[0] == s.take(p.len() as int)[0]);
        assert(s.drop_first().take(p.drop_first().len() as int) =~= p.drop_first());
        lemma_prefix_is_less(p.drop_first(), s.drop_first());
    }
}

} // verus!

//! Merging two lockfiles that diverged from a common ancestor.

use crate::lockfile::{
    empty_project_snapshot, empty_snapshot_entry, opt_strings_view, DependencySpecModel, Lockfile,
    LockfileModel, PackageMetadata, ProjectSnapshot, ProjectSnapshotModel, ResolvedDependencyMap,
    ResolvedDependencySpec, SnapshotEntry, SnapshotEntryModel,
};
use crate::semver::{
    lemma_semver_greater_asymmetric, opt_semver_view, parse_semver, parsed_semver, semver_greater,
    semver_gt, SemVer, SemVerModel,
};
use crate::str_map::{opt_view, strings_view, StrMap};
use crate::text::str_eq;
use vstd::prelude::*;

verus! {

/// The map stood for by an optional map: an absent map has no key.
pub open spec fn or_empty<A>(m: Option<Map<Seq<char>, A>>) -> Map<Seq<char>, A> {
    match m {
        Some(m) => m,
        None => Map::empty(),
    }
}

/// `None` for a map with no key, the map itself otherwise.
pub open spec fn none_if_empty<A>(m: Map<Seq<char>, A>) -> Option<Map<Seq<char>, A>> {
    if m.dom() == Set::<Seq<char>>::empty() {
        None
    } else {
        Some(m)
    }
}

/// Key-by-key merge: every key of either side, with the value `f` gives for
/// the two sides' values at that key.
pub open spec fn merged_entries<A>(
    ours: Map<Seq<char>, A>,
    theirs: Map<Seq<char>, A>,
    f: spec_fn(Option<A>, Option<A>) -> A,
) -> Map<Seq<char>, A> {
    Map::new(
        |k: Seq<char>| ours.contains_key(k) || theirs.contains_key(k),
        |k: Seq<char>| f(ours.get(k), theirs.get(k)),
    )
}

/// Key-by-key merge of two optional maps; `None` when no key is left.
pub open spec fn merged_optional_maps<A>(
    ours: Option<Map<Seq<char>, A>>,
    theirs: Option<Map<Seq<char>, A>>,
    f: spec_fn(Option<A>, Option<A>) -> A,
) -> Option<Map<Seq<char>, A>> {
    none_if_empty(merged_entries(or_empty(ours), or_empty(theirs), f))
}

/// Merge of two optional maps where `theirs`'s entry wins wholesale wherever
/// both sides hold the key; `None` when no key is left.
pub open spec fn wholesale_merged<A>(
    ours: Option<Map<Seq<char>, A>>,
    theirs: Option<Map<Seq<char>, A>>,
) -> Option<Map<Seq<char>, A>> {
    none_if_empty(or_empty(ours).union_prefer_right(or_empty(theirs)))
}

/// The keys of both maps, each once.
pub fn union_keys<V: View>(ours: &StrMap<V>, theirs: &StrMap<V>) -> (ks: Vec<String>)
    ensures
        strings_view(ks@).no_duplicates(),
        forall|k: Seq<char>|
            #[trigger] strings_view(ks@).contains(k) <==> (ours@.contains_key(k)
                || theirs@.contains_key(k)),
{
    let mut ks = ours.keys();
    let their_keys = theirs.keys();
    let n = their_keys.len();
    let ghost tk = strings_view(their_keys@);
    let mut i: usize = 0;
    while i < n
        invariant
            n == their_keys@.len(),
            tk == strings_view(their_keys@),
            tk.no_duplicates(),
            forall|k: Seq<char>| #[trigger] theirs@.dom().contains(k) <==> tk.contains(k),
            i <= n,
            strings_view(ks@).no_duplicates(),
            forall|k: Seq<char>|
                #[trigger] strings_view(ks@).contains(k) <==> (ours@.contains_key(k)
                    || tk.take(i as int).contains(k)),
        decreases n - i,
    {
        let k = &their_keys[i];
        let ghost before = strings_view(ks@);
        if !ours.contains_key(k.as_str()) {
            ks.push(k.clone());
            proof {
                let after = strings_view(ks@);
                assert(after =~= before.push(k@));
                assert(!before.contains(k@)) by {
                    if before.contains(k@) {
                        let j = choose|j: int| 0 <= j < tk.take(i as int).len() && tk.take(i as int)[j] == k@;
                        assert(tk[j] == tk[i as int]);
                    }
                }
                assert forall|a: int, b: int| 0 <= a < after.len() && 0 <= b < after.len() && a != b implies after[a] != after[b] by {
                    if a < before.len() && b < before.len() {
                        assert(after[a] == before[a] && after[b] == before[b]);
                    } else if a < before.len() {
                        assert(before.contains(after[a]));
                    } else if b < before.len() {
                        assert(before.contains(after[b]));
                    }
                }
            }
        }
        proof {
            let after = strings_view(ks@);
            assert(tk.take(i + 1) =~= tk.take(i as int).push(k@));
            assert forall|q: Seq<char>| #[trigger] after.contains(q) <==> (ours@.contains_key(q) || tk.take(i + 1).contains(q)) by {
                if tk.take(i + 1).contains(q) && !tk.take(i as int).contains(q) {
                    assert(q == k@);
                    if !ours@.contains_key(q) {
                        assert(after[after.len() - 1] == q);
                    }
                }
                if after.contains(q) && !before.contains(q) {
                    let j = choose|j: int| 0 <= j < after.len() && after[j] == q;
                    if j < before.len() {
                        assert(after[j] == before[j]);
                    }
                    assert(tk.take(i + 1)[i as int] == q);
                }
                if before.contains(q) && !after.contains(q) {
                    let j = choose|j: int| 0 <= j < before.len() && before[j] == q;
                    assert(after[j] == before[j]);
                }
            }
        }
        i = i + 1;
    }
    proof {
        assert(tk.take(n as int) =~= tk);
    }
    ks
}

/// The map that `Some(m)` refers to, or an empty map for `None`.
fn or_empty_map<'a, V: View>(m: Option<&'a StrMap<V>>, empty: &'a StrMap<V>) -> (r: &'a StrMap<V>)
    requires
        empty@ == Map::<Seq<char>, V::V>::empty(),
    ensures
        r@ == or_empty(opt_view(m)),
{
    match m {
        Some(m) => m,
        None => empty,
    }
}

/// Key-by-key merge of two optional maps: every key of either side, with the
/// value `merge_value` gives for the two sides' values at that key; `None`
/// when no key is left. `value_of` is what `merge_value` computes.
pub(crate) fn merge_maps<V: View, F: Fn(Option<&V>, Option<&V>) -> V>(
    ours: Option<&StrMap<V>>,
    theirs: Option<&StrMap<V>>,
    merge_value: F,
    Ghost(value_of): Ghost<spec_fn(Option<V::V>, Option<V::V>) -> V::V>,
) -> (r: Option<StrMap<V>>)
    requires
        forall|a: Option<&V>, b: Option<&V>|
            a is Some || b is Some ==> #[trigger] merge_value.requires((a, b)),
        forall|a: Option<&V>, b: Option<&V>, v: V|
            #[trigger] merge_value.ensures((a, b), v) ==> v@ == value_of(opt_view(a), opt_view(b)),
    ensures
        opt_view(r) == merged_optional_maps(opt_view(ours), opt_view(theirs), value_of),
{
    let empty: StrMap<V> = StrMap::new();
    let ours = or_empty_map(ours, &empty);
    let theirs = or_empty_map(theirs, &empty);
    let ghost target = merged_entries(ours@, theirs@, value_of);
    let keys = union_keys(ours, theirs);
    let ghost kv = strings_view(keys@);
    let n = keys.len();
    let mut merged: StrMap<V> = StrMap::new();
    let mut i: usize = 0;
    while i < n
        invariant
            n == keys@.len(),
            kv == strings_view(keys@),
            kv.no_duplicates(),
            forall|k: Seq<char>| #[trigger] kv.contains(k) <==> (ours@.contains_key(k) || theirs@.contains_key(k)),
            forall|a: Option<&V>, b: Option<&V>|
                a is Some || b is Some ==> #[trigger] merge_value.requires((a, b)),
            forall|a: Option<&V>, b: Option<&V>, v: V|
                #[trigger] merge_value.ensures((a, b), v) ==> v@ == value_of(opt_view(a), opt_view(b)),
            target == merged_entries(ours@, theirs@, value_of),
            i <= n,
            merged@ =~= Map::new(
                |k: Seq<char>| kv.take(i as int).contains(k),
                |k: Seq<char>| target[k],
            ),
        decreases n - i,
    {
        let key = &keys[i];
        let our_value = ours.get(key.as_str());
        let their_value = theirs.get(key.as_str());
        proof {
            assert(kv[i as int] == key@);
            assert(kv.contains(key@));
            assert(target.dom().contains(key@));
        }
        let value = merge_value(our_value, their_value);
        proof {
            assert(value@ == target[key@]);
        }
        merged.insert(key.clone(), value);
        proof {
            let s0 = kv.take(i as int);
            let s1 = kv.take(i + 1);
            assert forall|q: Seq<char>| #[trigger] s1.contains(q) <==> (s0.contains(q) || q == key@) by {
                if s1.contains(q) {
                    let j = choose|j: int| 0 <= j < s1.len() && s1[j] == q;
                    if j < i {
                        assert(s0[j] == q);
                    }
                }
                if s0.contains(q) {
                    let j = choose|j: int| 0 <= j < s0.len() && s0[j] == q;
                    assert(s1[j] == q);
                }
                if q == key@ {
                    assert(s1[i as int] == q);
                }
            }
            assert(opt_view(our_value) == ours@.get(key@));
            assert(opt_view(their_value) == theirs@.get(key@));
            assert(merged@ =~= Map::new(
                |k: Seq<char>| kv.take(i + 1).contains(k),
                |k: Seq<char>| target[k],
            ));
        }
        i = i + 1;
    }
    proof {
        assert(kv.take(n as int) =~= kv);
        assert(merged@ =~= target);
    }
    if merged.is_empty() {
        None
    } else {
        Some(merged)
    }
}

/// Merge of two optional maps where `theirs`'s entry wins wholesale wherever
/// both sides hold the key, and whichever side holds a key otherwise; `None`
/// when no key is left.
pub fn merge_wholesale_maps<V: View + Clone>(
    ours: Option<&StrMap<V>>,
    theirs: Option<&StrMap<V>>,
) -> (r: Option<StrMap<V>>)
    requires
        forall|a: V, b: V| #[trigger] cloned(a, b) ==> b@ == a@,
    ensures
        opt_view(r) == wholesale_merged(opt_view(ours), opt_view(theirs)),
{
    let empty: StrMap<V> = StrMap::new();
    let ours = or_empty_map(ours, &empty);
    let theirs = or_empty_map(theirs, &empty);
    let ghost target = ours@.union_prefer_right(theirs@);
    let keys = union_keys(ours, theirs);
    let ghost kv = strings_view(keys@);
    let n = keys.len();
    let mut merged: StrMap<V> = StrMap::new();
    let mut i: usize = 0;
    while i < n
        invariant
            n == keys@.len(),
            kv == strings_view(keys@),
            kv.no_duplicates(),
            forall|k: Seq<char>| #[trigger] kv.contains(k) <==> (ours@.contains_key(k) || theirs@.contains_key(k)),
            forall|a: V, b: V| #[trigger] cloned(a, b) ==> b@ == a@,
            target == ours@.union_prefer_right(theirs@),
            i <= n,
            merged@ =~= Map::new(
                |k: Seq<char>| kv.take(i as int).contains(k),
                |k: Seq<char>| target[k],
            ),
        decreases n - i,
    {
        let key = &keys[i];
        proof {
            assert(kv[i as int] == key@);
            assert(kv.contains(key@));
            assert(target.dom().contains(key@));
        }
        let source = match theirs.get(key.as_str()) {
            Some(v) => v,
            None => match ours.get(key.as_str()) {
                Some(v) => v,
                None => {
                    proof {
                        assert(false);
                    }
                    continue;
                }
            },
        };
        let value = source.clone();
        proof {
            assert(cloned(*source, value));
            assert(value@ == target[key@]);
        }
        merged.insert(key.clone(), value);
        proof {
            let s0 = kv.take(i as int);
            let s1 = kv.take(i + 1);
            assert forall|q: Seq<char>| #[trigger] s1.contains(q) <==> (s0.contains(q) || q == key@) by {
                if s1.contains(q) {
                    let j = choose|j: int| 0 <= j < s1.len() && s1[j] == q;
                    if j < i {
                        assert(s0[j] == q);
                    }
                }
                if s0.contains(q) {
                    let j = choose|j: int| 0 <= j < s0.len() && s0[j] == q;
                    assert(s1[j] == q);
                }
                if q == key@ {
                    assert(s1[i as int] == q);
                }
            }
            assert(merged@ =~= Map::new(
                |k: Seq<char>| kv.take(i + 1).contains(k),
                |k: Seq<char>| target[k],
            ));
        }
        i = i + 1;
    }
    proof {
        assert(kv.take(n as int) =~= kv);
        assert(merged@ =~= target);
    }
    if merged.is_empty() {
        None
    } else {
        Some(merged)
    }
}

/// `theirs` when present, `ours` otherwise.
pub open spec fn theirs_or_ours<A>(ours: Option<A>, theirs: Option<A>) -> Option<A> {
    match theirs {
        Some(t) => Some(t),
        None => ours,
    }
}

/// Picks the string that changed: `theirs` when present, `ours` otherwise.
pub fn take_changed_string(ours: Option<&str>, theirs: Option<&str>) -> (r: Option<String>)
    ensures
        opt_view(r) == theirs_or_ours(opt_view(ours), opt_view(theirs)),
{
    match (ours, theirs) {
        (Some(o), Some(t)) => {
            if str_eq(o, t) {
                Some(o.to_owned())
            } else {
                Some(t.to_owned())
            }
        },
        (None, Some(t)) => Some(t.to_owned()),
        (Some(o), None) => Some(o.to_owned()),
        (None, None) => None,
    }
}

/// `acc` followed by each string of `xs` that is not yet in it, in order.
pub open spec fn append_missing(acc: Seq<Seq<char>>, xs: Seq<Seq<char>>) -> Seq<Seq<char>>
    decreases xs.len(),
{
    if xs.len() == 0 {
        acc
    } else {
        let next = if acc.contains(xs[0]) {
            acc
        } else {
            acc.push(xs[0])
        };
        append_missing(next, xs.drop_first())
    }
}

/// `ours`'s strings, then each of `theirs`'s strings that is not yet among
/// them; `None` when that leaves none.
pub open spec fn merged_string_sets(
    ours: Option<Seq<Seq<char>>>,
    theirs: Option<Seq<Seq<char>>>,
) -> Option<Seq<Seq<char>>> {
    let merged = append_missing(
        match ours {
            Some(o) => o,
            None => Seq::empty(),
        },
        match theirs {
            Some(t) => t,
            None => Seq::empty(),
        },
    );
    if merged.len() == 0 {
        None
    } else {
        Some(merged)
    }
}

pub open spec fn opt_slice_view(s: Option<&[String]>) -> Option<Seq<Seq<char>>> {
    match s {
        Some(s) => Some(strings_view(s@)),
        None => None,
    }
}

/// Whether `list` holds a string equal to `s`.
fn holds_string(list: &Vec<String>, s: &String) -> (r: bool)
    ensures
        r == strings_view(list@).contains(s@),
{
    let n = list.len();
    let mut i: usize = 0;
    while i < n
        invariant
            n == list@.len(),
            i <= n,
            forall|j: int| 0 <= j < i ==> (#[trigger] list@[j])@ != s@,
        decreases n - i,
    {
        if list[i] == *s {
            assert(strings_view(list@)[i as int] == s@);
            return true;
        }
        i = i + 1;
    }
    proof {
        if strings_view(list@).contains(s@) {
            let j = choose|j: int| 0 <= j < n && strings_view(list@)[j] == s@;
            assert(list@[j]@ == s@);
        }
    }
    false
}

/// The union of two string lists: `ours`'s strings, then each of `theirs`'s
/// strings that is not among them yet; `None` when that leaves none.
pub fn merge_string_sets(ours: Option<&[String]>, theirs: Option<&[String]>) -> (r: Option<Vec<String>>)
    ensures
        match r {
            Some(v) => merged_string_sets(opt_slice_view(ours), opt_slice_view(theirs)) == Some(strings_view(v@)),
            None => merged_string_sets(opt_slice_view(ours), opt_slice_view(theirs)) is None,
        },
{
    let mut merged: Vec<String> = Vec::new();
    if let Some(o) = ours {
        let n = o.len();
        let mut i: usize = 0;
        while i < n
            invariant
                n == o@.len(),
                i <= n,
                strings_view(merged@) =~= strings_view(o@).take(i as int),
            decreases n - i,
        {
            let ghost before = strings_view(merged@);
            let item = o[i].clone();
            merged.push(item);
            assert(strings_view(merged@) =~= before.push(o@[i as int]@));
            assert(strings_view(o@).take(i + 1) =~= strings_view(o@).take(i as int).push(o@[i as int]@));
            i = i + 1;
        }
        assert(strings_view(o@).take(n as int) =~= strings_view(o@));
    }
    let ghost start = strings_view(merged@);
    let ghost their_view: Seq<Seq<char>> = match theirs {
        Some(t) => strings_view(t@),
        None => Seq::empty(),
    };
    if let Some(t) = theirs {
        let n = t.len();
        let mut i: usize = 0;
        assert(their_view.skip(0) =~= their_view);
        while i < n
            invariant
                n == t@.len(),
                their_view == strings_view(t@),
                i <= n,
                append_missing(strings_view(merged@), their_view.skip(i as int)) == append_missing(start, their_view),
            decreases n - i,
        {
            let ghost before = strings_view(merged@);
            assert(their_view.skip(i as int).drop_first() =~= their_view.skip(i + 1));
            assert(their_view.skip(i as int)[0] == t@[i as int]@);
            if !holds_string(&merged, &t[i]) {
                merged.push(t[i].clone());
                assert(strings_view(merged@) =~= before.push(t@[i as int]@));
            }
            i = i + 1;
        }
        assert(their_view.skip(n as int) =~= Seq::<Seq<char>>::empty());
    } else {
        assert(their_view =~= Seq::<Seq<char>>::empty());
    }
    assert(start == match opt_slice_view(ours) {
        Some(o) => o,
        None => Seq::<Seq<char>>::empty(),
    });
    if merged.len() == 0 {
        None
    } else {
        Some(merged)
    }
}

/// The part of a dependency reference before its first `(`: the version
/// without any `(peer@version)` suffix.
pub open spec fn version_part(text: Seq<char>) -> Seq<char>
    decreases text.len(),
{
    if text.len() == 0 {
        text
    } else if text[0] == '(' {
        Seq::empty()
    } else {
        seq![text[0]] + version_part(text.drop_first())
    }
}

proof fn lemma_version_part(text: Seq<char>, i: int)
    requires
        0 <= i <= text.len(),
        forall|j: int| 0 <= j < i ==> text[j] != '(',
        i == text.len() || text[i] == '(',
    ensures
        version_part(text) == text.take(i),
    decreases i,
{
    if i == 0 {
        assert(text.take(0) =~= Seq::<char>::empty());
    } else {
        let rest = text.drop_first();
        assert forall|j: int| 0 <= j < i - 1 implies rest[j] != '(' by {
            assert(rest[j] == text[j + 1]);
        }
        if i - 1 < rest.len() {
            assert(rest[i - 1] == text[i]);
        }
        lemma_version_part(rest, i - 1);
        assert(text.take(i) =~= seq![text[0]] + rest.take(i - 1));
    }
}

/// The part of `text` before its first `(`.
fn version_part_of(text: &str) -> (r: &str)
    ensures
        r@ == version_part(text@),
{
    let n = text.unicode_len();
    let mut i: usize = 0;
    while i < n
        invariant
            n == text@.len(),
            i <= n,
            forall|j: int| 0 <= j < i ==> text@[j] != '(',
        ensures
            i <= n,
            forall|j: int| 0 <= j < i ==> text@[j] != '(',
            i == n || text@[i as int] == '(',
        decreases n - i,
    {
        if text.get_char(i) == '(' {
            break;
        }
        i = i + 1;
    }
    proof {
        lemma_version_part(text@, i as int);
    }
    text.substring_char(0, i)
}

/// Which of two differing dependency references wins, given the versions
/// read from their version parts: `ours` when both read and `ours` has the
/// higher precedence, `theirs` otherwise.
pub open spec fn ref_by_precedence(
    ours: Seq<char>,
    theirs: Seq<char>,
    our_version: Option<SemVerModel>,
    their_version: Option<SemVerModel>,
) -> Seq<char> {
    match (our_version, their_version) {
        (Some(a), Some(b)) => if semver_greater(a, b) {
            ours
        } else {
            theirs
        },
        _ => theirs,
    }
}

/// The merge of one dependency reference: equal or missing `theirs` keeps
/// `ours`, missing `ours` takes `theirs`; otherwise the version parts are
/// compared as semantic versions, and `theirs` wins when either does not read
/// as one.
pub open spec fn merged_ref(ours: Option<Seq<char>>, theirs: Option<Seq<char>>) -> Seq<char> {
    match (ours, theirs) {
        (Some(o), Some(t)) => if o == t {
            o
        } else {
            ref_by_precedence(o, t, parsed_semver(version_part(o)), parsed_semver(version_part(t)))
        },
        (Some(o), None) => o,
        (None, Some(t)) => t,
        (None, None) => Seq::empty(),
    }
}

/// Picks `ours` when both versions were read and `ours`'s has the higher
/// precedence, `theirs` otherwise.
pub fn pick_by_precedence(
    ours: &String,
    theirs: &String,
    our_version: Option<SemVer>,
    their_version: Option<SemVer>,
) -> (r: String)
    ensures
        r@ == ref_by_precedence(ours@, theirs@, opt_semver_view(our_version), opt_semver_view(their_version)),
{
    match (our_version, their_version) {
        (Some(a), Some(b)) => {
            if semver_gt(&a, &b) {
                ours.clone()
            } else {
                theirs.clone()
            }
        },
        _ => theirs.clone(),
    }
}

/// Merges one dependency reference, preferring the higher semantic version:
/// equal or missing `theirs` keeps `ours`; missing `ours` takes `theirs`;
/// otherwise the version before any `(peer@suffix)` is compared as a semantic
/// version, and `theirs` wins when either side does not read as one
/// (`link:` and `file:` references and the like).
pub fn merge_ref(ours: Option<&String>, theirs: Option<&String>) -> (r: String)
    requires
        ours is Some || theirs is Some,
    ensures
        r@ == merged_ref(opt_view(ours), opt_view(theirs)),
{
    match (ours, theirs) {
        (Some(o), Some(t)) => {
            if *o == *t {
                return o.clone();
            }
            let our_version = parse_semver(version_part_of(o.as_str()));
            let their_version = parse_semver(version_part_of(t.as_str()));
            pick_by_precedence(o, t, our_version, their_version)
        },
        (Some(o), None) => o.clone(),
        (None, Some(t)) => t.clone(),
        (None, None) => {
            proof {
                assert(false);
            }
            String::new()
        },
    }
}

/// The string held, or the empty string.
pub open spec fn text_or_empty(o: Option<Seq<char>>) -> Seq<char> {
    match o {
        Some(s) => s,
        None => Seq::empty(),
    }
}

pub open spec fn specifier_of(d: Option<DependencySpecModel>) -> Option<Seq<char>> {
    match d {
        Some(d) => Some(d.specifier),
        None => None,
    }
}

pub open spec fn version_of(d: Option<DependencySpecModel>) -> Option<Seq<char>> {
    match d {
        Some(d) => Some(d.version),
        None => None,
    }
}

/// The merge of one resolved dependency: `theirs`'s specifier when present,
/// `ours`'s otherwise, and the merged version reference.
pub open spec fn merged_dependency_spec(
    ours: Option<DependencySpecModel>,
    theirs: Option<DependencySpecModel>,
) -> DependencySpecModel {
    DependencySpecModel {
        specifier: text_or_empty(theirs_or_ours(specifier_of(ours), specifier_of(theirs))),
        version: merged_ref(version_of(ours), version_of(theirs)),
    }
}

/// Key-by-key merge of two optional maps of resolved dependencies.
pub open spec fn merged_dependency_maps(
    ours: Option<Map<Seq<char>, DependencySpecModel>>,
    theirs: Option<Map<Seq<char>, DependencySpecModel>>,
) -> Option<Map<Seq<char>, DependencySpecModel>> {
    merged_optional_maps(ours, theirs, |a: Option<DependencySpecModel>, b: Option<DependencySpecModel>| merged_dependency_spec(a, b))
}

/// Merges two optional maps of resolved dependencies key by key.
pub fn merge_dependency_map(
    ours: Option<&ResolvedDependencyMap>,
    theirs: Option<&ResolvedDependencyMap>,
) -> (r: Option<ResolvedDependencyMap>)
    ensures
        opt_view(r) == merged_dependency_maps(opt_view(ours), opt_view(theirs)),
{
    let merge_spec = |our_spec: Option<&ResolvedDependencySpec>, their_spec: Option<&ResolvedDependencySpec>| -> (r: ResolvedDependencySpec)
        requires
            our_spec is Some || their_spec is Some,
        ensures
            r@ == merged_dependency_spec(opt_view(our_spec), opt_view(their_spec)),
    {
        let our_specifier: Option<&str> = match our_spec {
            Some(d) => Some(d.specifier.as_str()),
            None => None,
        };
        let their_specifier: Option<&str> = match their_spec {
            Some(d) => Some(d.specifier.as_str()),
            None => None,
        };
        let specifier = match take_changed_string(our_specifier, their_specifier) {
            Some(s) => s,
            None => String::new(),
        };
        let our_version: Option<&String> = match our_spec {
            Some(d) => Some(&d.version),
            None => None,
        };
        let their_version: Option<&String> = match their_spec {
            Some(d) => Some(&d.version),
            None => None,
        };
        let version = merge_ref(our_version, their_version);
        ResolvedDependencySpec { specifier, version }
    };
    merge_maps(
        ours,
        theirs,
        merge_spec,
        Ghost(|a: Option<DependencySpecModel>, b: Option<DependencySpecModel>| merged_dependency_spec(a, b)),
    )
}

/// The project snapshot held, or an empty one.
pub open spec fn project_or_empty(p: Option<ProjectSnapshotModel>) -> ProjectSnapshotModel {
    match p {
        Some(p) => p,
        None => empty_project_snapshot(),
    }
}

/// The merge of one importer's project snapshot: the specifier and
/// dependency maps merge key by key (specifiers take `theirs` where present,
/// versions the merged reference); `dependencies_meta` and
/// `publish_directory` are `theirs`'s when present, `ours`'s otherwise. A
/// missing snapshot counts as an empty one.
pub open spec fn merged_project_snapshot(
    ours: Option<ProjectSnapshotModel>,
    theirs: Option<ProjectSnapshotModel>,
) -> ProjectSnapshotModel {
    let o = project_or_empty(ours);
    let t = project_or_empty(theirs);
    ProjectSnapshotModel {
        specifiers: merged_optional_maps(
            o.specifiers,
            t.specifiers,
            |a: Option<Seq<char>>, b: Option<Seq<char>>| text_or_empty(theirs_or_ours(a, b)),
        ),
        dependencies: merged_dependency_maps(o.dependencies, t.dependencies),
        dev_dependencies: merged_dependency_maps(o.dev_dependencies, t.dev_dependencies),
        optional_dependencies: merged_dependency_maps(o.optional_dependencies, t.optional_dependencies),
        dependencies_meta: theirs_or_ours(o.dependencies_meta, t.dependencies_meta),
        publish_directory: theirs_or_ours(o.publish_directory, t.publish_directory),
    }
}

/// The string held by `Some`, as a string slice.
fn as_text(s: Option<&String>) -> (r: Option<&str>)
    ensures
        opt_view(r) == opt_view(s),
{
    match s {
        Some(s) => Some(s.as_str()),
        None => None,
    }
}

/// A copy of an optional map of flags.
fn clone_flag_map(m: &Option<StrMap<bool>>) -> (r: Option<StrMap<bool>>)
    ensures
        opt_view(r) == opt_view(*m),
{
    match m {
        Some(m) => Some(m.clone_map()),
        None => None,
    }
}

/// Merges one importer's project snapshot from the two sides.
pub fn merge_project_snapshot(
    ours: Option<&ProjectSnapshot>,
    theirs: Option<&ProjectSnapshot>,
) -> (r: ProjectSnapshot)
    ensures
        r@ == merged_project_snapshot(opt_view(ours), opt_view(theirs)),
{
    let default_ours = ProjectSnapshot::default();
    let default_theirs = ProjectSnapshot::default();
    let ours = match ours {
        Some(p) => p,
        None => &default_ours,
    };
    let theirs = match theirs {
        Some(p) => p,
        None => &default_theirs,
    };
    let take_specifier = |a: Option<&String>, b: Option<&String>| -> (r: String)
        ensures
            r@ == text_or_empty(theirs_or_ours(opt_view(a), opt_view(b))),
    {
        match take_changed_string(as_text(a), as_text(b)) {
            Some(s) => s,
            None => String::new(),
        }
    };
    let specifiers = merge_maps(
        ours.specifiers.as_ref(),
        theirs.specifiers.as_ref(),
        take_specifier,
        Ghost(|a: Option<Seq<char>>, b: Option<Seq<char>>| text_or_empty(theirs_or_ours(a, b))),
    );
    let dependencies = merge_dependency_map(ours.dependencies.as_ref(), theirs.dependencies.as_ref());
    let dev_dependencies = merge_dependency_map(
        ours.dev_dependencies.as_ref(),
        theirs.dev_dependencies.as_ref(),
    );
    let optional_dependencies = merge_dependency_map(
        ours.optional_dependencies.as_ref(),
        theirs.optional_dependencies.as_ref(),
    );
    let dependencies_meta = match &theirs.dependencies_meta {
        Some(_) => clone_flag_map(&theirs.dependencies_meta),
        None => clone_flag_map(&ours.dependencies_meta),
    };
    let publish_directory = match &theirs.publish_directory {
        Some(d) => Some(d.clone()),
        None => ours.publish_directory.clone(),
    };
    ProjectSnapshot {
        specifiers,
        dependencies,
        dev_dependencies,
        optional_dependencies,
        dependencies_meta,
        publish_directory,
    }
}

pub open spec fn snapshot_dependencies_of(e: Option<SnapshotEntryModel>) -> Option<Map<Seq<char>, Seq<char>>> {
    match e {
        Some(e) => e.dependencies,
        None => None,
    }
}

pub open spec fn snapshot_optional_dependencies_of(e: Option<SnapshotEntryModel>) -> Option<Map<Seq<char>, Seq<char>>> {
    match e {
        Some(e) => e.optional_dependencies,
        None => None,
    }
}

/// Key-by-key merge of two optional maps of dependency references.
pub open spec fn merged_ref_maps(
    ours: Option<Map<Seq<char>, Seq<char>>>,
    theirs: Option<Map<Seq<char>, Seq<char>>>,
) -> Option<Map<Seq<char>, Seq<char>>> {
    merged_optional_maps(ours, theirs, |a: Option<Seq<char>>, b: Option<Seq<char>>| merged_ref(a, b))
}

/// The merge of one snapshot entry: `theirs`'s entry (or `ours`'s when
/// `theirs` is missing) wholesale, except that its `dependencies` and
/// `optional_dependencies` are the key-by-key merges of both sides' maps.
pub open spec fn merged_snapshot_entry(
    ours: Option<SnapshotEntryModel>,
    theirs: Option<SnapshotEntryModel>,
) -> SnapshotEntryModel {
    let base = match theirs_or_ours(ours, theirs) {
        Some(e) => e,
        None => empty_snapshot_entry(),
    };
    SnapshotEntryModel {
        dependencies: merged_ref_maps(snapshot_dependencies_of(ours), snapshot_dependencies_of(theirs)),
        optional_dependencies: merged_ref_maps(
            snapshot_optional_dependencies_of(ours),
            snapshot_optional_dependencies_of(theirs),
        ),
        ..base
    }
}

fn dependencies_of(e: Option<&SnapshotEntry>) -> (r: Option<&StrMap<String>>)
    ensures
        opt_view(r) == snapshot_dependencies_of(opt_view(e)),
{
    match e {
        Some(e) => e.dependencies.as_ref(),
        None => None,
    }
}

fn optional_dependencies_of(e: Option<&SnapshotEntry>) -> (r: Option<&StrMap<String>>)
    ensures
        opt_view(r) == snapshot_optional_dependencies_of(opt_view(e)),
{
    match e {
        Some(e) => e.optional_dependencies.as_ref(),
        None => None,
    }
}

/// Merges one snapshot entry from the two sides.
pub fn merge_snapshot_entry(ours: Option<&SnapshotEntry>, theirs: Option<&SnapshotEntry>) -> (r: SnapshotEntry)
    ensures
        r@ == merged_snapshot_entry(opt_view(ours), opt_view(theirs)),
{
    let mut merged = match theirs {
        Some(e) => e.clone(),
        None => match ours {
            Some(e) => e.clone(),
            None => SnapshotEntry::default(),
        },
    };
    merged.dependencies = merge_maps(
        dependencies_of(ours),
        dependencies_of(theirs),
        merge_ref,
        Ghost(|a: Option<Seq<char>>, b: Option<Seq<char>>| merged_ref(a, b)),
    );
    merged.optional_dependencies = merge_maps(
        optional_dependencies_of(ours),
        optional_dependencies_of(theirs),
        merge_ref,
        Ghost(|a: Option<Seq<char>>, b: Option<Seq<char>>| merged_ref(a, b)),
    );
    merged
}

/// The merge of two lockfiles that diverged from a common ancestor.
pub open spec fn merged_lockfile(ours: LockfileModel, theirs: LockfileModel) -> LockfileModel {
    LockfileModel {
        lockfile_version: if theirs.lockfile_version.minor > ours.lockfile_version.minor {
            theirs.lockfile_version
        } else {
            ours.lockfile_version
        },
        settings: None,
        catalogs: None,
        overrides: None,
        package_extensions_checksum: None,
        pnpmfile_checksum: match ours.pnpmfile_checksum {
            Some(c) => Some(c),
            None => theirs.pnpmfile_checksum,
        },
        patched_dependencies: None,
        ignored_optional_dependencies: merged_string_sets(
            ours.ignored_optional_dependencies,
            theirs.ignored_optional_dependencies,
        ),
        importers: merged_entries(
            ours.importers,
            theirs.importers,
            |a: Option<ProjectSnapshotModel>, b: Option<ProjectSnapshotModel>| merged_project_snapshot(a, b),
        ),
        packages: wholesale_merged(ours.packages, theirs.packages),
        snapshots: merged_optional_maps(
            ours.snapshots,
            theirs.snapshots,
            |a: Option<SnapshotEntryModel>, b: Option<SnapshotEntryModel>| merged_snapshot_entry(a, b),
        ),
    }
}

fn as_string_slice(v: &Option<Vec<String>>) -> (r: Option<&[String]>)
    ensures
        opt_slice_view(r) == opt_strings_view(*v),
{
    match v {
        Some(v) => Some(v.as_slice()),
        None => None,
    }
}

/// Merges two lockfiles that diverged from a common ancestor.
///
/// Per-importer dependency maps merge key by key, preferring the higher
/// semantic version (or `theirs` for references that are not semantic
/// versions, like `link:` and `file:`); `packages` entries are taken
/// wholesale from `theirs` where both sides have one; `snapshots` entries
/// merge their own dependency maps the same way, with `theirs` winning on
/// every other field. The result carries only `importers`, `packages`,
/// `snapshots`, `lockfileVersion`, `pnpmfileChecksum` and
/// `ignoredOptionalDependencies`: `settings`, `catalogs`, `overrides`,
/// `packageExtensionsChecksum` and `patchedDependencies` come back empty.
pub fn merge_lockfile_changes(ours: &Lockfile, theirs: &Lockfile) -> (r: Lockfile)
    ensures
        r@ == merged_lockfile(ours@, theirs@),
{
    let lockfile_version = if theirs.lockfile_version.minor > ours.lockfile_version.minor {
        theirs.lockfile_version
    } else {
        ours.lockfile_version
    };
    let pnpmfile_checksum = match &ours.pnpmfile_checksum {
        Some(c) => Some(c.clone()),
        None => theirs.pnpmfile_checksum.clone(),
    };
    let ignored_optional_dependencies = merge_string_sets(
        as_string_slice(&ours.ignored_optional_dependencies),
        as_string_slice(&theirs.ignored_optional_dependencies),
    );
    let ghost importers_target = merged_entries(
        ours.importers@,
        theirs.importers@,
        |a: Option<ProjectSnapshotModel>, b: Option<ProjectSnapshotModel>| merged_project_snapshot(a, b),
    );
    let importer_ids = union_keys(&ours.importers, &theirs.importers);
    let ghost kv = strings_view(importer_ids@);
    let n = importer_ids.len();
    let mut importers: StrMap<ProjectSnapshot> = StrMap::new();
    let mut i: usize = 0;
    while i < n
        invariant
            n == importer_ids@.len(),
            kv == strings_view(importer_ids@),
            kv.no_duplicates(),
            forall|k: Seq<char>| #[trigger] kv.contains(k) <==> (ours.importers@.contains_key(k) || theirs.importers@.contains_key(k)),
            importers_target == merged_entries(
                ours.importers@,
                theirs.importers@,
                |a: Option<ProjectSnapshotModel>, b: Option<ProjectSnapshotModel>| merged_project_snapshot(a, b),
            ),
            i <= n,
            importers@ =~= Map::new(
                |k: Seq<char>| kv.take(i as int).contains(k),
                |k: Seq<char>| importers_target[k],
            ),
        decreases n - i,
    {
        let importer_id = &importer_ids[i];
        proof {
            assert(kv[i as int] == importer_id@);
            assert(kv.contains(importer_id@));
            assert(importers_target.dom().contains(importer_id@));
        }
        let our_project = ours.importers.get(importer_id.as_str());
        let their_project = theirs.importers.get(importer_id.as_str());
        let project = merge_project_snapshot(our_project, their_project);
        proof {
            assert(project@ == importers_target[importer_id@]);
        }
        importers.insert(importer_id.clone(), project);
        proof {
            let s0 = kv.take(i as int);
            let s1 = kv.take(i + 1);
            assert forall|q: Seq<char>| #[trigger] s1.contains(q) <==> (s0.contains(q) || q == importer_id@) by {
                if s1.contains(q) {
                    let j = choose|j: int| 0 <= j < s1.len() && s1[j] == q;
                    if j < i {
                        assert(s0[j] == q);
                    }
                }
                if s0.contains(q) {
                    let j = choose|j: int| 0 <= j < s0.len() && s0[j] == q;
                    assert(s1[j] == q);
                }
                if q == importer_id@ {
                    assert(s1[i as int] == q);
                }
            }
            assert(importers@ =~= Map::new(
                |k: Seq<char>| kv.take(i + 1).contains(k),
                |k: Seq<char>| importers_target[k],
            ));
        }
        i = i + 1;
    }
    proof {
        assert(kv.take(n as int) =~= kv);
        assert(importers@ =~= importers_target);
    }
    let packages: Option<StrMap<PackageMetadata>> = merge_wholesale_maps(
        ours.packages.as_ref(),
        theirs.packages.as_ref(),
    );
    let snapshots = merge_maps(
        ours.snapshots.as_ref(),
        theirs.snapshots.as_ref(),
        merge_snapshot_entry,
        Ghost(|a: Option<SnapshotEntryModel>, b: Option<SnapshotEntryModel>| merged_snapshot_entry(a, b)),
    );
    let merged = Lockfile {
        lockfile_version,
        settings: None,
        catalogs: None,
        overrides: None,
        package_extensions_checksum: None,
        pnpmfile_checksum,
        patched_dependencies: None,
        ignored_optional_dependencies,
        importers,
        packages,
        snapshots,
    };
    proof {
        assert(merged@.ignored_optional_dependencies == merged_string_sets(
            ours@.ignored_optional_dependencies,
            theirs@.ignored_optional_dependencies,
        ));
        assert(merged@ =~= merged_lockfile(ours@, theirs@));
    }
    merged
}

proof fn lemma_append_missing(acc: Seq<Seq<char>>, xs: Seq<Seq<char>>)
    ensures
        forall|x: Seq<char>| #[trigger] append_missing(acc, xs).contains(x) <==> (acc.contains(x) || xs.contains(x)),
        acc.no_duplicates() ==> append_missing(acc, xs).no_duplicates(),
        append_missing(acc, xs).len() >= acc.len(),
    decreases xs.len(),
{
    if xs.len() > 0 {
        let next = if acc.contains(xs[0]) {
            acc
        } else {
            acc.push(xs[0])
        };
        let rest = xs.drop_first();
        lemma_append_missing(next, rest);
        assert forall|x: Seq<char>| #[trigger] next.contains(x) <==> (acc.contains(x) || x == xs[0]) by {
            if !acc.contains(xs[0]) {
                if next.contains(x) {
                    let j = choose|j: int| 0 <= j < next.len() && next[j] == x;
                    if j < acc.len() {
                        assert(acc[j] == x);
                    }
                }
                if acc.contains(x) {
                    let j = choose|j: int| 0 <= j < acc.len() && acc[j] == x;
                    assert(next[j] == x);
                }
                if x == xs[0] {
                    assert(next[acc.len() as int] == x);
                }
            }
        }
        assert forall|x: Seq<char>| #[trigger] xs.contains(x) <==> (x == xs[0] || rest.contains(x)) by {
            if xs.contains(x) {
                let j = choose|j: int| 0 <= j < xs.len() && xs[j] == x;
                if j > 0 {
                    assert(rest[j - 1] == x);
                }
            }
            if rest.contains(x) {
                let j = choose|j: int| 0 <= j < rest.len() && rest[j] == x;
                assert(xs[j + 1] == x);
            }
            if x == xs[0] {
                assert(xs[0] == x);
            }
        }
        if acc.no_duplicates() && !acc.contains(xs[0]) {
            assert forall|a: int, b: int| 0 <= a < next.len() && 0 <= b < next.len() && a != b implies next[a] != next[b] by {
                if a < acc.len() && b < acc.len() {
                } else if a < acc.len() {
                    assert(acc.contains(next[a]));
                } else if b < acc.len() {
                    assert(acc.contains(next[b]));
                }
            }
        }
    }
}

/// The merged string list holds exactly the strings of both lists, is `None`
/// only when neither list holds a string, and repeats no string when `ours`
/// repeats none.
pub proof fn lemma_merged_string_sets_union(ours: Option<Seq<Seq<char>>>, theirs: Option<Seq<Seq<char>>>)
    ensures
        ({
            let o = match ours {
                Some(o) => o,
                None => Seq::<Seq<char>>::empty(),
            };
            let t = match theirs {
                Some(t) => t,
                None => Seq::<Seq<char>>::empty(),
            };
            &&& merged_string_sets(ours, theirs) is None <==> (o.len() == 0 && t.len() == 0)
            &&& forall|m: Seq<Seq<char>>, x: Seq<char>|
                merged_string_sets(ours, theirs) == Some(m) ==> (#[trigger] m.contains(x) <==> (o.contains(x) || t.contains(x)))
            &&& forall|m: Seq<Seq<char>>|
                merged_string_sets(ours, theirs) == Some(m) && o.no_duplicates() ==> #[trigger] m.no_duplicates()
        }),
{
    let o = match ours {
        Some(o) => o,
        None => Seq::<Seq<char>>::empty(),
    };
    let t = match theirs {
        Some(t) => t,
        None => Seq::<Seq<char>>::empty(),
    };
    lemma_append_missing(o, t);
    if t.len() > 0 {
        assert(t.contains(t[0]));
        assert(append_missing(o, t).contains(t[0]));
    }
}

/// The merge of one dependency reference is always one of the two sides'
/// references.
pub proof fn lemma_merged_ref_is_a_side(ours: Option<Seq<char>>, theirs: Option<Seq<char>>)
    requires
        ours is Some || theirs is Some,
    ensures
        Some(merged_ref(ours, theirs)) == ours || Some(merged_ref(ours, theirs)) == theirs,
{
}

/// When both sides' version parts read as semantic versions, the merged
/// reference's version is never lower than either side's.
pub proof fn lemma_merged_ref_is_not_lower(ours: Seq<char>, theirs: Seq<char>)
    requires
        parsed_semver(version_part(ours)) is Some,
        parsed_semver(version_part(theirs)) is Some,
    ensures
        ({
            let merged = merged_ref(Some(ours), Some(theirs));
            let chosen = parsed_semver(version_part(merged))->0;
            &&& !semver_greater(parsed_semver(version_part(ours))->0, chosen)
            &&& !semver_greater(parsed_semver(version_part(theirs))->0, chosen)
        }),
{
    let a = parsed_semver(version_part(ours))->0;
    let b = parsed_semver(version_part(theirs))->0;
    lemma_semver_greater_asymmetric(a, b);
    lemma_semver_greater_asymmetric(b, a);
}

/// When both version parts read as semantic versions of different
/// precedence, the merge picks the same reference whichever side each comes
/// from.
pub proof fn lemma_merged_ref_ignores_sides(ours: Seq<char>, theirs: Seq<char>)
    requires
        parsed_semver(version_part(ours)) is Some,
        parsed_semver(version_part(theirs)) is Some,
        semver_greater(parsed_semver(version_part(ours))->0, parsed_semver(version_part(theirs))->0)
            || semver_greater(parsed_semver(version_part(theirs))->0, parsed_semver(version_part(ours))->0),
    ensures
        merged_ref(Some(ours), Some(theirs)) == merged_ref(Some(theirs), Some(ours)),
{
    let a = parsed_semver(version_part(ours))->0;
    let b = parsed_semver(version_part(theirs))->0;
    lemma_semver_greater_asymmetric(a, b);
}

/// The merged lockfile has an importer for every importer of either side,
/// and no other.
pub proof fn lemma_merged_importers_are_the_union(ours: LockfileModel, theirs: LockfileModel)
    ensures
        merged_lockfile(ours, theirs).importers.dom() == ours.importers.dom().union(theirs.importers.dom()),
{
    assert(merged_lockfile(ours, theirs).importers.dom() =~= ours.importers.dom().union(theirs.importers.dom()));
}

/// Every dependency that either side lists for an importer is listed for
/// that importer in the merged lockfile.
pub proof fn lemma_merged_dependencies_keep_both_sides(
    ours: LockfileModel,
    theirs: LockfileModel,
    importer: Seq<char>,
    alias: Seq<char>,
)
    requires
        ours.importers.contains_key(importer) && or_empty(ours.importers[importer].dependencies).contains_key(alias)
            || theirs.importers.contains_key(importer) && or_empty(theirs.importers[importer].dependencies).contains_key(alias),
    ensures
        merged_lockfile(ours, theirs).importers.contains_key(importer),
        merged_lockfile(ours, theirs).importers[importer].dependencies is Some,
        or_empty(merged_lockfile(ours, theirs).importers[importer].dependencies).contains_key(alias),
{
    let m = merged_lockfile(ours, theirs).importers[importer];
    let o = project_or_empty(ours.importers.get(importer));
    let t = project_or_empty(theirs.importers.get(importer));
    let merged = merged_entries(
        or_empty(o.dependencies),
        or_empty(t.dependencies),
        |a: Option<DependencySpecModel>, b: Option<DependencySpecModel>| merged_dependency_spec(a, b),
    );
    assert(merged.dom().contains(alias));
    assert(merged.dom() != Set::<Seq<char>>::empty());
}

/// A package that `theirs` lists is taken from `theirs` wholesale; one that
/// only `ours` lists is taken from `ours`.
pub proof fn lemma_merged_packages_prefer_theirs(ours: LockfileModel, theirs: LockfileModel, key: Seq<char>)
    ensures
        or_empty(theirs.packages).contains_key(key) ==> {
            &&& merged_lockfile(ours, theirs).packages is Some
            &&& or_empty(merged_lockfile(ours, theirs).packages).contains_key(key)
            &&& or_empty(merged_lockfile(ours, theirs).packages)[key] == or_empty(theirs.packages)[key]
        },
        or_empty(ours.packages).contains_key(key) && !or_empty(theirs.packages).contains_key(key) ==> {
            &&& merged_lockfile(ours, theirs).packages is Some
            &&& or_empty(merged_lockfile(ours, theirs).packages).contains_key(key)
            &&& or_empty(merged_lockfile(ours, theirs).packages)[key] == or_empty(ours.packages)[key]
        },
{
    let u = or_empty(ours.packages).union_prefer_right(or_empty(theirs.packages));
    if u.dom().contains(key) {
        assert(u.dom() != Set::<Seq<char>>::empty());
    }
}

/// A snapshot entry that both sides list keeps `theirs`'s fields other than
/// its dependency maps, and its dependency maps list every dependency of
/// either side.
pub proof fn lemma_merged_snapshots_take_theirs(ours: LockfileModel, theirs: LockfileModel, key: Seq<char>, alias: Seq<char>)
    requires
        or_empty(ours.snapshots).contains_key(key),
        or_empty(theirs.snapshots).contains_key(key),
    ensures
        merged_lockfile(ours, theirs).snapshots is Some,
        or_empty(merged_lockfile(ours, theirs).snapshots).contains_key(key),
        ({
            let m = or_empty(merged_lockfile(ours, theirs).snapshots)[key];
            let o = or_empty(ours.snapshots)[key];
            let t = or_empty(theirs.snapshots)[key];
            &&& m.transitive_peer_dependencies == t.transitive_peer_dependencies
            &&& m.optional == t.optional
            &&& (or_empty(o.dependencies).contains_key(alias) || or_empty(t.dependencies).contains_key(alias))
                ==> or_empty(m.dependencies).contains_key(alias)
        }),
{
    let merged = merged_entries(
        or_empty(ours.snapshots),
        or_empty(theirs.snapshots),
        |a: Option<SnapshotEntryModel>, b: Option<SnapshotEntryModel>| merged_snapshot_entry(a, b),
    );
    assert(merged.dom().contains(key));
    assert(merged.dom() != Set::<Seq<char>>::empty());
    let o = or_empty(ours.snapshots)[key];
    let t = or_empty(theirs.snapshots)[key];
    let deps = merged_entries(
        or_empty(o.dependencies),
        or_empty(t.dependencies),
        |a: Option<Seq<char>>, b: Option<Seq<char>>| merged_ref(a, b),
    );
    if deps.dom().contains(alias) {
        assert(deps.dom() != Set::<Seq<char>>::empty());
    }
}

} // verus!

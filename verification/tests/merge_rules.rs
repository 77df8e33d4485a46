use pnpm_lockfile::merge::{
    merge_dependency_map, merge_project_snapshot, merge_ref, merge_snapshot_entry,
    merge_string_sets, merge_wholesale_maps, pick_by_precedence, take_changed_string, union_keys,
};
use pnpm_lockfile::semver::{PreReleaseIdent, SemVer};
use pnpm_lockfile::{
    merge_lockfile_changes, Lockfile, LockfileSettings, LockfileVersion, PackageMetadata,
    ProjectSnapshot, ResolvedDependencyMap, ResolvedDependencySpec, SnapshotEntry, StrMap,
};

fn empty_lockfile() -> Lockfile {
    Lockfile {
        lockfile_version: LockfileVersion { major: 9, minor: 0 },
        settings: None,
        catalogs: None,
        overrides: None,
        package_extensions_checksum: None,
        pnpmfile_checksum: None,
        patched_dependencies: None,
        ignored_optional_dependencies: None,
        importers: StrMap::new(),
        packages: None,
        snapshots: None,
    }
}

fn text_map(entries: &[(&str, &str)]) -> StrMap<String> {
    let mut map = StrMap::new();
    for (k, v) in entries {
        map.insert(k.to_string(), v.to_string());
    }
    map
}

fn merged(ours: &str, theirs: &str) -> String {
    merge_ref(Some(&ours.to_owned()), Some(&theirs.to_owned()))
}

fn semver(major: u64, minor: u64, patch: u64, pre_release: Vec<PreReleaseIdent>) -> SemVer {
    SemVer { major, minor, patch, pre_release }
}

#[test]
fn higher_version_wins_from_either_side() {
    assert_eq!(merged("1.0.0", "2.0.0"), "2.0.0");
    assert_eq!(merged("2.0.0", "1.0.0"), "2.0.0");
    assert_eq!(merged("1.10.0", "1.9.9"), "1.10.0");
    assert_eq!(merged("1.0.1", "1.0.0"), "1.0.1");
}

#[test]
fn equal_references_keep_ours() {
    assert_eq!(merged("1.2.3", "1.2.3"), "1.2.3");
    assert_eq!(merged("link:../a", "link:../a"), "link:../a");
}

#[test]
fn one_sided_references_are_kept() {
    assert_eq!(merge_ref(Some(&"1.0.0".to_owned()), None), "1.0.0");
    assert_eq!(merge_ref(None, Some(&"link:../b".to_owned())), "link:../b");
}

#[test]
fn non_semver_references_fall_back_to_theirs() {
    assert_eq!(merged("2.0.0", "link:../foo"), "link:../foo");
    assert_eq!(merged("file:../foo", "1.0.0"), "1.0.0");
    assert_eq!(merged("link:../a", "link:../b"), "link:../b");
}

#[test]
fn peer_suffix_is_ignored_in_the_comparison() {
    assert_eq!(merged("2.0.0(react@17.0.0)", "1.0.0(react@18.0.0)"), "2.0.0(react@17.0.0)");
    assert_eq!(merged("1.0.0(react@17.0.0)", "1.0.0(react@18.0.0)"), "1.0.0(react@18.0.0)");
}

#[test]
fn pre_release_precedence() {
    assert_eq!(merged("1.0.0", "1.0.0-beta.1"), "1.0.0");
    assert_eq!(merged("1.0.0-alpha.2", "1.0.0-alpha.10"), "1.0.0-alpha.10");
    assert_eq!(merged("1.0.0-beta", "1.0.0-alpha"), "1.0.0-beta");
    assert_eq!(merged("1.0.0-alpha.1", "1.0.0-alpha"), "1.0.0-alpha.1");
    assert_eq!(merged("1.0.0-1", "1.0.0-a"), "1.0.0-a");
}

#[test]
fn equal_precedence_takes_theirs() {
    assert_eq!(merged("1.0.0+a", "1.0.0+b"), "1.0.0+b");
}

#[test]
fn pick_by_precedence_follows_the_versions_given() {
    let ours = "ours".to_owned();
    let theirs = "theirs".to_owned();
    let high = || Some(semver(2, 0, 0, vec![]));
    let low = || Some(semver(1, 9, 9, vec![]));
    assert_eq!(pick_by_precedence(&ours, &theirs, high(), low()), "ours");
    assert_eq!(pick_by_precedence(&ours, &theirs, low(), high()), "theirs");
    assert_eq!(pick_by_precedence(&ours, &theirs, high(), None), "theirs");
    assert_eq!(pick_by_precedence(&ours, &theirs, None, low()), "theirs");
    let beta = Some(semver(1, 0, 0, vec![PreReleaseIdent::AlphaNumeric("beta".to_owned())]));
    let beta_2 = Some(semver(
        1,
        0,
        0,
        vec![PreReleaseIdent::AlphaNumeric("beta".to_owned()), PreReleaseIdent::Numeric(2)],
    ));
    assert_eq!(pick_by_precedence(&ours, &theirs, beta_2, beta), "ours");
}

#[test]
fn take_changed_string_prefers_theirs() {
    assert_eq!(take_changed_string(Some("^1.0.0"), Some("^2.0.0")), Some("^2.0.0".to_owned()));
    assert_eq!(take_changed_string(Some("^1.0.0"), Some("^1.0.0")), Some("^1.0.0".to_owned()));
    assert_eq!(take_changed_string(Some("^1.0.0"), None), Some("^1.0.0".to_owned()));
    assert_eq!(take_changed_string(None, Some("^2.0.0")), Some("^2.0.0".to_owned()));
    assert_eq!(take_changed_string(None, None), None);
}

#[test]
fn string_sets_keep_order_and_add_missing() {
    let ours = vec!["a".to_owned(), "b".to_owned()];
    let theirs = vec!["c".to_owned(), "a".to_owned(), "d".to_owned()];
    assert_eq!(
        merge_string_sets(Some(&ours), Some(&theirs)),
        Some(vec!["a".to_owned(), "b".to_owned(), "c".to_owned(), "d".to_owned()])
    );
    assert_eq!(merge_string_sets(None, Some(&theirs)), Some(theirs.clone()));
    assert_eq!(merge_string_sets(Some(&[]), None), None);
    assert_eq!(merge_string_sets(None, None), None);
}

#[test]
fn union_keys_lists_each_key_once() {
    let ours = text_map(&[("a", "1"), ("b", "2")]);
    let theirs = text_map(&[("b", "3"), ("c", "4")]);
    let mut keys = union_keys(&ours, &theirs);
    keys.sort();
    assert_eq!(keys, vec!["a".to_owned(), "b".to_owned(), "c".to_owned()]);
}

#[test]
fn str_map_insert_replaces() {
    let mut map = text_map(&[("a", "1")]);
    map.insert("a".to_owned(), "2".to_owned());
    map.insert("b".to_owned(), "3".to_owned());
    assert_eq!(map.len(), 2);
    assert_eq!(map.get("a"), Some(&"2".to_owned()));
    assert_eq!(map.get("c"), None);
    assert!(!map.is_empty());
    assert!(StrMap::<String>::new().is_empty());
}

#[test]
fn dependency_maps_merge_key_by_key() {
    let mut ours: ResolvedDependencyMap = StrMap::new();
    ours.insert(
        "a".to_owned(),
        ResolvedDependencySpec { specifier: "^1.0.0".to_owned(), version: "1.2.0".to_owned() },
    );
    ours.insert(
        "b".to_owned(),
        ResolvedDependencySpec { specifier: "^3.0.0".to_owned(), version: "3.0.0".to_owned() },
    );
    let mut theirs: ResolvedDependencyMap = StrMap::new();
    theirs.insert(
        "a".to_owned(),
        ResolvedDependencySpec { specifier: "^1.1.0".to_owned(), version: "1.1.0".to_owned() },
    );
    let merged = merge_dependency_map(Some(&ours), Some(&theirs)).unwrap();
    assert_eq!(merged.len(), 2);
    let a = merged.get("a").unwrap();
    assert_eq!(a.specifier, "^1.1.0");
    assert_eq!(a.version, "1.2.0");
    assert_eq!(merged.get("b").unwrap().version, "3.0.0");
    assert!(merge_dependency_map(None, Some(&StrMap::new())).is_none());
}

#[test]
fn project_snapshot_fields_prefer_theirs() {
    let ours = ProjectSnapshot {
        specifiers: Some(text_map(&[("a", "^1.0.0"), ("b", "^2.0.0")])),
        publish_directory: Some("dist".to_owned()),
        ..Default::default()
    };
    let theirs = ProjectSnapshot {
        specifiers: Some(text_map(&[("a", "^1.5.0")])),
        publish_directory: Some("out".to_owned()),
        ..Default::default()
    };
    let merged = merge_project_snapshot(Some(&ours), Some(&theirs));
    let specifiers = merged.specifiers.unwrap();
    assert_eq!(specifiers.get("a"), Some(&"^1.5.0".to_owned()));
    assert_eq!(specifiers.get("b"), Some(&"^2.0.0".to_owned()));
    assert_eq!(merged.publish_directory, Some("out".to_owned()));
    assert!(merged.dependencies.is_none());

    let only_ours = merge_project_snapshot(Some(&ours), None);
    assert_eq!(only_ours.publish_directory, Some("dist".to_owned()));
}

#[test]
fn snapshot_entries_merge_dependencies_and_take_theirs_otherwise() {
    let ours = SnapshotEntry {
        dependencies: Some(text_map(&[("x", "2.0.0"), ("y", "1.0.0")])),
        optional_dependencies: None,
        transitive_peer_dependencies: Some(vec!["react".to_owned()]),
        optional: false,
    };
    let theirs = SnapshotEntry {
        dependencies: Some(text_map(&[("x", "1.0.0")])),
        optional_dependencies: Some(text_map(&[("z", "link:../z")])),
        transitive_peer_dependencies: None,
        optional: true,
    };
    let merged = merge_snapshot_entry(Some(&ours), Some(&theirs));
    let deps = merged.dependencies.unwrap();
    assert_eq!(deps.get("x"), Some(&"2.0.0".to_owned()));
    assert_eq!(deps.get("y"), Some(&"1.0.0".to_owned()));
    assert_eq!(merged.optional_dependencies.unwrap().get("z"), Some(&"link:../z".to_owned()));
    assert!(merged.optional);
    assert!(merged.transitive_peer_dependencies.is_none());

    let neither = merge_snapshot_entry(None, None);
    assert!(neither.dependencies.is_none());
    assert!(!neither.optional);
}

fn package(resolution: &str) -> PackageMetadata {
    PackageMetadata { resolution: resolution.to_owned(), deprecated: None, has_bin: false }
}

#[test]
fn packages_are_taken_wholesale_from_theirs() {
    let mut ours = StrMap::new();
    ours.insert("a@1.0.0".to_owned(), package("sha-ours"));
    ours.insert("b@1.0.0".to_owned(), package("sha-b"));
    let mut theirs = StrMap::new();
    theirs.insert("a@1.0.0".to_owned(), package("sha-theirs"));
    let merged = merge_wholesale_maps(Some(&ours), Some(&theirs)).unwrap();
    assert_eq!(merged.get("a@1.0.0").unwrap().resolution, "sha-theirs");
    assert_eq!(merged.get("b@1.0.0").unwrap().resolution, "sha-b");
    assert!(merge_wholesale_maps::<PackageMetadata>(None, None).is_none());
}

#[test]
fn lockfile_level_fields() {
    let mut ours = empty_lockfile();
    ours.pnpmfile_checksum = Some("ours".to_owned());
    ours.settings = Some(LockfileSettings { auto_install_peers: true, exclude_links_from_lockfile: false });
    ours.overrides = Some(text_map(&[("a", "1.0.0")]));
    ours.package_extensions_checksum = Some("ext".to_owned());
    ours.patched_dependencies = Some(text_map(&[("a", "patches/a.patch")]));
    let mut theirs = empty_lockfile();
    theirs.lockfile_version = LockfileVersion { major: 9, minor: 1 };
    theirs.pnpmfile_checksum = Some("theirs".to_owned());
    let mut snapshots = StrMap::new();
    snapshots.insert("a@1.0.0".to_owned(), SnapshotEntry::default());
    theirs.snapshots = Some(snapshots);
    let mut packages = StrMap::new();
    packages.insert("a@1.0.0".to_owned(), package("sha"));
    theirs.packages = Some(packages);
    theirs.importers.insert("packages/x".to_owned(), ProjectSnapshot::default());

    let merged = merge_lockfile_changes(&ours, &theirs);
    assert_eq!(merged.lockfile_version, LockfileVersion { major: 9, minor: 1 });
    assert_eq!(merged.pnpmfile_checksum, Some("ours".to_owned()));
    assert!(merged.settings.is_none());
    assert!(merged.catalogs.is_none());
    assert!(merged.overrides.is_none());
    assert!(merged.package_extensions_checksum.is_none());
    assert!(merged.patched_dependencies.is_none());
    assert!(merged.ignored_optional_dependencies.is_none());
    assert!(merged.importers.contains_key("packages/x"));
    assert_eq!(merged.snapshots.unwrap().len(), 1);
    assert_eq!(merged.packages.unwrap().get("a@1.0.0").unwrap().resolution, "sha");

    let back = merge_lockfile_changes(&theirs, &ours);
    assert_eq!(back.lockfile_version, LockfileVersion { major: 9, minor: 1 });
    assert_eq!(back.pnpmfile_checksum, Some("theirs".to_owned()));
}

#[test]
fn merging_empty_lockfiles_gives_an_empty_lockfile() {
    let merged = merge_lockfile_changes(&empty_lockfile(), &empty_lockfile());
    assert!(merged.importers.is_empty());
    assert!(merged.packages.is_none());
    assert!(merged.snapshots.is_none());
    assert!(merged.pnpmfile_checksum.is_none());
}

#[test]
fn merge_of_different_versions_ignores_sides() {
    for (a, b) in [("1.0.0", "2.0.0"), ("1.0.0-rc.1", "1.0.0"), ("3.1.0(x@1.0.0)", "3.0.9")] {
        assert_eq!(merged(a, b), merged(b, a));
    }
    assert_ne!(merged("1.0.0+a", "1.0.0+b"), merged("1.0.0+b", "1.0.0+a"));
}

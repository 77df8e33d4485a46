use pnpm_lockfile::{
    merge_lockfile_changes, Lockfile, LockfileVersion, ProjectSnapshot, ResolvedDependencyMap,
    ResolvedDependencySpec, StrMap,
};

fn empty_lockfile() -> Lockfile {
    Lockfile {
        lockfile_version: LockfileVersion { major: 9, minor: 0 },
        settings: None,
        catalogs: None,
        overrides: None,
        package_extensions_checksum: None,
        pnpmfile_checksum: None,
        patched_dependencies: None,
        ignored_optional_dependencies: None,
        importers: StrMap::new(),
        packages: None,
        snapshots: None,
    }
}

fn dep(alias: &str, version: &str) -> (String, ResolvedDependencySpec) {
    (
        alias.to_owned(),
        ResolvedDependencySpec { specifier: format!("^{version}"), version: version.to_owned() },
    )
}

#[test]
fn merges_root_importer_dependencies_from_both_sides() {
    let mut ours = empty_lockfile();
    let mut our_deps: ResolvedDependencyMap = StrMap::new();
    our_deps.insert(dep("is-positive", "1.0.0").0, dep("is-positive", "1.0.0").1);
    ours.importers.insert(
        Lockfile::root_importer_key().to_owned(),
        ProjectSnapshot { dependencies: Some(our_deps), ..Default::default() },
    );

    let mut theirs = empty_lockfile();
    let mut their_deps: ResolvedDependencyMap = StrMap::new();
    their_deps.insert(dep("is-negative", "2.0.0").0, dep("is-negative", "2.0.0").1);
    theirs.importers.insert(
        Lockfile::root_importer_key().to_owned(),
        ProjectSnapshot { dependencies: Some(their_deps), ..Default::default() },
    );

    let merged = merge_lockfile_changes(&ours, &theirs);
    let root = merged.importers.get(Lockfile::root_importer_key()).unwrap();
    let deps = root.dependencies.as_ref().unwrap();
    assert_eq!(deps.len(), 2);
    assert!(deps.contains_key("is-positive"));
    assert!(deps.contains_key("is-negative"));
}

#[test]
fn prefers_the_higher_semver_version_on_conflict() {
    let mut ours = empty_lockfile();
    let mut our_deps: ResolvedDependencyMap = StrMap::new();
    our_deps.insert(dep("is-positive", "1.0.0").0, dep("is-positive", "1.0.0").1);
    ours.importers.insert(
        Lockfile::root_importer_key().to_owned(),
        ProjectSnapshot { dependencies: Some(our_deps), ..Default::default() },
    );

    let mut theirs = empty_lockfile();
    let mut their_deps: ResolvedDependencyMap = StrMap::new();
    their_deps.insert(dep("is-positive", "2.0.0").0, dep("is-positive", "2.0.0").1);
    theirs.importers.insert(
        Lockfile::root_importer_key().to_owned(),
        ProjectSnapshot { dependencies: Some(their_deps), ..Default::default() },
    );

    let merged = merge_lockfile_changes(&ours, &theirs);
    let root = merged.importers.get(Lockfile::root_importer_key()).unwrap();
    let deps = root.dependencies.as_ref().unwrap();
    let is_positive = deps.get("is-positive").unwrap();
    assert_eq!(is_positive.version, "2.0.0".to_owned());
}

#[test]
fn ignored_optional_dependencies_union_without_duplicates() {
    let mut ours = empty_lockfile();
    ours.ignored_optional_dependencies = Some(vec!["fsevents".to_owned()]);
    let mut theirs = empty_lockfile();
    theirs.ignored_optional_dependencies =
        Some(vec!["fsevents".to_owned(), "bufferutil".to_owned()]);

    let merged = merge_lockfile_changes(&ours, &theirs);
    let mut merged_list = merged.ignored_optional_dependencies.unwrap();
    merged_list.sort();
    assert_eq!(merged_list, vec!["bufferutil".to_owned(), "fsevents".to_owned()]);
}

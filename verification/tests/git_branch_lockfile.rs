use pnpm_lockfile::{
    branch_from_symbolic_ref_output, git_branch_lockfile_name, is_git_branch_lockfile_name,
    select_git_branch_lockfile_names,
};

#[test]
fn sanitizes_slashes_and_uppercase() {
    assert_eq!(git_branch_lockfile_name("feature/Foo"), "pnpm-lock.feature!foo.yaml");
}

#[test]
fn keeps_dots_hyphens_and_underscores() {
    assert_eq!(git_branch_lockfile_name("release-1.2_rc"), "pnpm-lock.release-1.2_rc.yaml");
}

#[test]
fn requires_literal_dots_and_a_non_empty_branch_segment() {
    assert!(is_git_branch_lockfile_name("pnpm-lock.main.yaml"));
    assert!(is_git_branch_lockfile_name("pnpm-lock.feature.x.yaml"));
    assert!(!is_git_branch_lockfile_name("pnpm-lock.yaml"));
    assert!(!is_git_branch_lockfile_name("pnpm-lock-main-yaml"));
    assert!(!is_git_branch_lockfile_name("my-pnpm-lock.main.yaml"));
    assert!(!is_git_branch_lockfile_name("README.md"));
}

#[test]
fn lists_only_git_branch_lockfiles() {
    let names: Vec<String> = [
        "pnpm-lock.main.yaml",
        "pnpm-lock.feature.x.yaml",
        "pnpm-lock.yaml",
        "pnpm-lock-main-yaml",
        "README.md",
    ]
    .iter()
    .map(|name| name.to_string())
    .collect();

    let mut selected = select_git_branch_lockfile_names(&names);
    selected.sort();
    assert_eq!(
        selected,
        vec!["pnpm-lock.feature.x.yaml".to_owned(), "pnpm-lock.main.yaml".to_owned()]
    );
}

#[test]
fn name_of_a_non_empty_branch_is_recognised() {
    for branch in ["main", "feature/Foo", "x", "Release/2024.01", "a b", "日本"] {
        assert!(is_git_branch_lockfile_name(&git_branch_lockfile_name(branch)));
    }
}

#[test]
fn name_of_the_empty_branch_is_not_recognised() {
    assert_eq!(git_branch_lockfile_name(""), "pnpm-lock..yaml");
    assert!(!is_git_branch_lockfile_name(&git_branch_lockfile_name("")));
}

#[test]
fn non_ascii_and_punctuation_become_bangs() {
    assert_eq!(git_branch_lockfile_name("fix#12 Ä"), "pnpm-lock.fix!12!!.yaml");
    assert_eq!(git_branch_lockfile_name("ABCXYZ"), "pnpm-lock.abcxyz.yaml");
}

#[test]
fn shortest_recognised_name_has_a_one_character_slug() {
    assert!(is_git_branch_lockfile_name("pnpm-lock.a.yaml"));
    assert!(!is_git_branch_lockfile_name("pnpm-lock..yaml"));
    assert!(!is_git_branch_lockfile_name("pnpm-lock.main.yml"));
    assert!(!is_git_branch_lockfile_name(""));
}

#[test]
fn branch_output_is_trimmed() {
    assert_eq!(branch_from_symbolic_ref_output("feature/foo\n"), Some("feature/foo".to_owned()));
    assert_eq!(branch_from_symbolic_ref_output("  main \r\n"), Some("main".to_owned()));
    assert_eq!(branch_from_symbolic_ref_output("a b"), Some("a b".to_owned()));
}

#[test]
fn blank_branch_output_is_none() {
    assert_eq!(branch_from_symbolic_ref_output(""), None);
    assert_eq!(branch_from_symbolic_ref_output(" \n\t\u{3000}"), None);
}

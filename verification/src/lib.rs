//! Merging of pnpm lockfiles that diverged from a common ancestor, and the
//! naming rules of git-branch-named lockfiles.

pub mod branch_lockfile;
pub mod lockfile;
pub mod merge;
pub mod semver;
pub mod str_map;
mod text;
pub mod laws;

pub use branch_lockfile::{
    branch_from_symbolic_ref_output, git_branch_lockfile_name, is_git_branch_lockfile_name,
    select_git_branch_lockfile_names,
};
pub use lockfile::{
    Lockfile, LockfileSettings, LockfileVersion, PackageMetadata, ProjectSnapshot,
    ResolvedDependencyMap, ResolvedDependencySpec, SnapshotEntry,
};
pub use merge::merge_lockfile_changes;
pub use str_map::StrMap;

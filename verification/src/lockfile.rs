//! The lockfile's data, and the values it stands for.

use crate::str_map::{opt_view, strings_view, StrMap};
use vstd::prelude::*;

verus! {

/// The `lockfileVersion` of a lockfile, as `major.minor`.
#[derive(Clone, Copy, Debug, PartialEq, Eq, Structural)]
pub struct LockfileVersion {
    pub major: u64,
    pub minor: u64,
}

/// The `settings:` section of a lockfile.
#[derive(Clone, Copy, Debug, PartialEq, Eq, Structural)]
pub struct LockfileSettings {
    pub auto_install_peers: bool,
    pub exclude_links_from_lockfile: bool,
}

/// One resolved direct dependency of a project: the specifier from the
/// manifest and the resolved version reference (a semantic version,
/// possibly followed by a `(peer@version)` suffix, or a `link:`/`file:` ref).
pub struct ResolvedDependencySpec {
    pub specifier: String,
    pub version: String,
}

pub struct DependencySpecModel {
    pub specifier: Seq<char>,
    pub version: Seq<char>,
}

impl View for ResolvedDependencySpec {
    type V = DependencySpecModel;

    open spec fn view(&self) -> DependencySpecModel {
        DependencySpecModel { specifier: self.specifier@, version: self.version@ }
    }
}

impl Clone for ResolvedDependencySpec {
    fn clone(&self) -> (r: Self)
        ensures
            r@ == self@,
    {
        ResolvedDependencySpec { specifier: self.specifier.clone(), version: self.version.clone() }
    }
}

/// A map from dependency alias to its resolved dependency.
pub type ResolvedDependencyMap = StrMap<ResolvedDependencySpec>;

/// What one importer (project) of the workspace resolved.
pub struct ProjectSnapshot {
    pub specifiers: Option<StrMap<String>>,
    pub dependencies: Option<ResolvedDependencyMap>,
    pub dev_dependencies: Option<ResolvedDependencyMap>,
    pub optional_dependencies: Option<ResolvedDependencyMap>,
    /// Whether each listed dependency is injected.
    pub dependencies_meta: Option<StrMap<bool>>,
    pub publish_directory: Option<String>,
}

#[verifier::ext_equal]
pub struct ProjectSnapshotModel {
    pub specifiers: Option<Map<Seq<char>, Seq<char>>>,
    pub dependencies: Option<Map<Seq<char>, DependencySpecModel>>,
    pub dev_dependencies: Option<Map<Seq<char>, DependencySpecModel>>,
    pub optional_dependencies: Option<Map<Seq<char>, DependencySpecModel>>,
    pub dependencies_meta: Option<Map<Seq<char>, bool>>,
    pub publish_directory: Option<Seq<char>>,
}

impl View for ProjectSnapshot {
    type V = ProjectSnapshotModel;

    open spec fn view(&self) -> ProjectSnapshotModel {
        ProjectSnapshotModel {
            specifiers: opt_view(self.specifiers),
            dependencies: opt_view(self.dependencies),
            dev_dependencies: opt_view(self.dev_dependencies),
            optional_dependencies: opt_view(self.optional_dependencies),
            dependencies_meta: opt_view(self.dependencies_meta),
            publish_directory: opt_view(self.publish_directory),
        }
    }
}

/// A project snapshot with nothing in it.
pub open spec fn empty_project_snapshot() -> ProjectSnapshotModel {
    ProjectSnapshotModel {
        specifiers: None,
        dependencies: None,
        dev_dependencies: None,
        optional_dependencies: None,
        dependencies_meta: None,
        publish_directory: None,
    }
}

impl Default for ProjectSnapshot {
    fn default() -> (r: Self)
        ensures
            r@ == empty_project_snapshot(),
    {
        ProjectSnapshot {
            specifiers: None,
            dependencies: None,
            dev_dependencies: None,
            optional_dependencies: None,
            dependencies_meta: None,
            publish_directory: None,
        }
    }
}

/// The metadata of one package of the `packages:` section.
pub struct PackageMetadata {
    /// The integrity hash, tarball or directory the package resolves to.
    pub resolution: String,
    pub deprecated: Option<String>,
    pub has_bin: bool,
}

pub struct PackageMetadataModel {
    pub resolution: Seq<char>,
    pub deprecated: Option<Seq<char>>,
    pub has_bin: bool,
}

impl View for PackageMetadata {
    type V = PackageMetadataModel;

    open spec fn view(&self) -> PackageMetadataModel {
        PackageMetadataModel {
            resolution: self.resolution@,
            deprecated: opt_view(self.deprecated),
            has_bin: self.has_bin,
        }
    }
}

impl Clone for PackageMetadata {
    fn clone(&self) -> (r: Self)
        ensures
            r@ == self@,
    {
        PackageMetadata {
            resolution: self.resolution.clone(),
            deprecated: self.deprecated.clone(),
            has_bin: self.has_bin,
        }
    }
}

/// One entry of the `snapshots:` section: a package in one peer context.
pub struct SnapshotEntry {
    pub dependencies: Option<StrMap<String>>,
    pub optional_dependencies: Option<StrMap<String>>,
    pub transitive_peer_dependencies: Option<Vec<String>>,
    pub optional: bool,
}

/// The optional form of a list of strings.
pub open spec fn opt_strings_view(v: Option<Vec<String>>) -> Option<Seq<Seq<char>>> {
    match v {
        Some(v) => Some(strings_view(v@)),
        None => None,
    }
}

#[verifier::ext_equal]
pub struct SnapshotEntryModel {
    pub dependencies: Option<Map<Seq<char>, Seq<char>>>,
    pub optional_dependencies: Option<Map<Seq<char>, Seq<char>>>,
    pub transitive_peer_dependencies: Option<Seq<Seq<char>>>,
    pub optional: bool,
}

impl View for SnapshotEntry {
    type V = SnapshotEntryModel;

    open spec fn view(&self) -> SnapshotEntryModel {
        SnapshotEntryModel {
            dependencies: opt_view(self.dependencies),
            optional_dependencies: opt_view(self.optional_dependencies),
            transitive_peer_dependencies: opt_strings_view(self.transitive_peer_dependencies),
            optional: self.optional,
        }
    }
}

/// A snapshot entry with nothing in it.
pub open spec fn empty_snapshot_entry() -> SnapshotEntryModel {
    SnapshotEntryModel {
        dependencies: None,
        optional_dependencies: None,
        transitive_peer_dependencies: None,
        optional: false,
    }
}

impl Default for SnapshotEntry {
    fn default() -> (r: Self)
        ensures
            r@ == empty_snapshot_entry(),
    {
        SnapshotEntry {
            dependencies: None,
            optional_dependencies: None,
            transitive_peer_dependencies: None,
            optional: false,
        }
    }
}

/// A copy of an optional map of strings.
fn clone_text_map(m: &Option<StrMap<String>>) -> (r: Option<StrMap<String>>)
    ensures
        opt_view(r) == opt_view(*m),
{
    match m {
        Some(m) => Some(m.clone_map()),
        None => None,
    }
}

impl Clone for SnapshotEntry {
    fn clone(&self) -> (r: Self)
        ensures
            r@ == self@,
    {
        let transitive_peer_dependencies = self.transitive_peer_dependencies.clone();
        proof {
            if self.transitive_peer_dependencies is Some {
                let v = self.transitive_peer_dependencies->0;
                let w = transitive_peer_dependencies->0;
                assert(strings_view(w@) =~= strings_view(v@));
            }
        }
        SnapshotEntry {
            dependencies: clone_text_map(&self.dependencies),
            optional_dependencies: clone_text_map(&self.optional_dependencies),
            transitive_peer_dependencies,
            optional: self.optional,
        }
    }
}

/// A pnpm lockfile.
pub struct Lockfile {
    pub lockfile_version: LockfileVersion,
    pub settings: Option<LockfileSettings>,
    /// Per catalog name, the resolved entries of that catalog.
    pub catalogs: Option<StrMap<StrMap<ResolvedDependencySpec>>>,
    pub overrides: Option<StrMap<String>>,
    pub package_extensions_checksum: Option<String>,
    pub pnpmfile_checksum: Option<String>,
    pub patched_dependencies: Option<StrMap<String>>,
    pub ignored_optional_dependencies: Option<Vec<String>>,
    pub importers: StrMap<ProjectSnapshot>,
    pub packages: Option<StrMap<PackageMetadata>>,
    pub snapshots: Option<StrMap<SnapshotEntry>>,
}

#[verifier::ext_equal]
pub struct LockfileModel {
    pub lockfile_version: LockfileVersion,
    pub settings: Option<LockfileSettings>,
    pub catalogs: Option<Map<Seq<char>, Map<Seq<char>, DependencySpecModel>>>,
    pub overrides: Option<Map<Seq<char>, Seq<char>>>,
    pub package_extensions_checksum: Option<Seq<char>>,
    pub pnpmfile_checksum: Option<Seq<char>>,
    pub patched_dependencies: Option<Map<Seq<char>, Seq<char>>>,
    pub ignored_optional_dependencies: Option<Seq<Seq<char>>>,
    pub importers: Map<Seq<char>, ProjectSnapshotModel>,
    pub packages: Option<Map<Seq<char>, PackageMetadataModel>>,
    pub snapshots: Option<Map<Seq<char>, SnapshotEntryModel>>,
}

impl View for Lockfile {
    type V = LockfileModel;

    open spec fn view(&self) -> LockfileModel {
        LockfileModel {
            lockfile_version: self.lockfile_version,
            settings: self.settings,
            catalogs: opt_view(self.catalogs),
            overrides: opt_view(self.overrides),
            package_extensions_checksum: opt_view(self.package_extensions_checksum),
            pnpmfile_checksum: opt_view(self.pnpmfile_checksum),
            patched_dependencies: opt_view(self.patched_dependencies),
            ignored_optional_dependencies: opt_strings_view(self.ignored_optional_dependencies),
            importers: self.importers@,
            packages: opt_view(self.packages),
            snapshots: opt_view(self.snapshots),
        }
    }
}

impl Lockfile {
    /// The importer key of the workspace's root project.
    pub fn root_importer_key() -> (k: &'static str)
        ensures
            k@ == seq!['.'],
    {
        proof {
            reveal_strlit(".");
        }
        "."
    }
}

} // verus!

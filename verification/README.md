# pnpm_lockfile

Verified merging of pnpm lockfiles that diverged from a common ancestor, and
the naming rules of git-branch-named lockfiles (`pnpm-lock.<branch>.yaml`).

- `src/branch_lockfile.rs`: lockfile names for branches, recognising them,
  selecting them among file names, reading the branch from git's output.
- `src/str_map.rs`: a string-keyed map whose value is a `Map`.
- `src/lockfile.rs`: the lockfile's data and the values it stands for.
- `src/semver.rs`: semantic versions as `node_semver` reads and orders them.
- `src/merge.rs`: the merge, its specification and its laws.
- `app/lib.rs`: running git and reading or deleting files.

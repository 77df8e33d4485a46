[package]
name = "pnpm_lockfile"
version = "0.1.0"
edition = "2021"
publish = false

[dependencies]
node-semver = "2"

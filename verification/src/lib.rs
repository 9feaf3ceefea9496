#![verifier::loop_isolation(false)]
//! Mod package manager core for a binary-patch-based modification system over
//! a git-hosted source tree.
//!
//! The library holds the verified core: validated identifiers and names,
//! manifests with their dependency model, the package registry with its
//! dependency-graph algorithms (transitive closure, cycle detection,
//! topological ordering, orphan detection, version compatibility), the
//! branch-materialization sync protocol, incremental patch extraction
//! decisions, and the distribution codec protocol.

use vstd::prelude::*;

pub mod baserom;
pub mod decomp_repo;
pub mod distribute;
pub mod id;
pub mod mod_dir;
pub mod rom;
pub mod init;
pub mod manifest;
pub mod name;
pub mod package;
pub mod reach;
pub mod graph;
pub mod registry;
pub mod sync;
pub mod text;
pub mod version;

verus! {

} // verus!

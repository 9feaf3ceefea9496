//! An initialised package: a registry anchored at a root package whose
//! directory holds a cloned working tree of the base source.
//!
//! The working tree itself (the git clone, the copied base ROM, the
//! bookkeeping directories) lives on disk and is managed by the caller;
//! this module holds the decisions: which branches to recreate and in
//! which order (the sync protocol), and which branch to diff against when
//! the root's own patches are extracted.

use vstd::prelude::*;
use crate::id::Id;
use crate::manifest::DepView;
use crate::manifest::Manifest;
use crate::manifest::declare_result;
use crate::package::Package;
use crate::package::PackageView;
use crate::registry::Error;
use crate::registry::Registry;
use crate::sync::SyncMachine;
use crate::text::str_eq;
use crate::version::VersionReq;

verus! {

/// What an initialisation run needs to know.
#[derive(Debug)]
pub struct InitialiseOptions {
    /// Path to an unmodified base ROM.
    pub baserom: String,
    /// Git revision of the base source tree to use; the trunk's tip when
    /// absent.
    pub rev: Option<String>,
}

/// What a ROM build run needs to know.
#[derive(Debug)]
pub struct BuildRomOptions {
    /// Whether to skip configuring (useful if already configured).
    pub skip_configure: bool,
    /// Path to output the ROM to.
    pub output: Option<String>,
}

/// What adding a dependency needs to know.
#[derive(Debug)]
pub struct AddDependencyOptions {
    /// Path to the package to add as a dependency.
    pub path: String,
}

/// Errors of patch extraction.
#[derive(Debug)]
pub enum ExtractError {
    /// The working tree is not checked out on the package's own branch.
    NotOnPackageBranch,
    /// The working tree has uncommitted changes.
    DirtyTree,
}

/// A registry anchored at a root package, whose directory carries the
/// shared working tree.
#[derive(Debug)]
pub struct InitialisedPackage {
    registry: Registry,
    package_id: Id,
}

impl InitialisedPackage {
    /// Whether the anchor is sound: a well-formed registry that holds the
    /// root package.
    pub open spec fn wf(self) -> bool {
        &&& self.registry().wf()
        &&& self.registry()@.contains_key(self.root())
    }

    /// The root package's identifier text.
    pub closed spec fn root(self) -> Seq<char> {
        self.package_id@
    }

    /// The registry's value.
    pub closed spec fn registry(self) -> Registry {
        self.registry
    }

    /// Anchors `registry` at the package registered as `package_id`.
    /// Fails when that identifier is not registered.
    pub fn from_registry(registry: Registry, package_id: Id) -> (r: Result<
        InitialisedPackage,
        Error,
    >)
        requires
            registry.wf(),
        ensures
            match r {
                Ok(p) => {
                    &&& p.wf()
                    &&& p.root() == package_id@
                    &&& p.registry() == registry
                },
                Err(e) => !registry@.contains_key(package_id@),
            },
    {
        if !registry.has(&package_id) {
            return Err(Error::NotFound { id: package_id });
        }
        Ok(InitialisedPackage { registry, package_id })
    }

    /// The root package.
    pub fn package(&self) -> (r: &Package)
        requires
            self.wf(),
        ensures
            r@ == self.registry()@[self.root()],
    {
        match self.registry.get(&self.package_id) {
            Some(p) => p,
            None => {
                proof {
                    assert(false);
                }
                vstd::pervasive::unreached()
            },
        }
    }

    /// The root package's identifier.
    pub fn package_id(&self) -> (r: &Id)
        ensures
            r@ == self.root(),
    {
        &self.package_id
    }

    /// The registry of the root package and its dependencies.
    pub fn registry_ref(&self) -> (r: &Registry)
        ensures
            *r == self.registry(),
    {
        &self.registry
    }

    /// Replaces the registry. Fails, changing nothing, when the new
    /// registry does not hold the root package.
    pub fn set_registry(&mut self, registry: Registry) -> (r: Result<(), Error>)
        requires
            old(self).wf(),
            registry.wf(),
        ensures
            final(self).root() == old(self).root(),
            final(self).wf(),
            match r {
                Ok(()) => registry@.contains_key(old(self).root()) && final(self).registry()
                    == registry,
                Err(e) => !registry@.contains_key(old(self).root()) && final(self).registry()
                    == old(self).registry(),
            },
    {
        if !registry.has(&self.package_id) {
            return Err(Error::NotFound { id: self.package_id.clone() });
        }
        self.registry = registry;
        Ok(())
    }

    /// The path of the working tree: the subrepo directory inside the
    /// root package's directory.
    pub fn subrepo_path(&self) -> (r: String)
        requires
            self.wf(),
        ensures
            r@ == self.registry()@[self.root()].path + "/papermario"@,
    {
        let mut s = self.package().path().to_owned();
        s.append("/papermario");
        s
    }

    /// The path of the base ROM inside the working tree.
    pub fn baserom_path(&self) -> (r: String)
        requires
            self.wf(),
        ensures
            r@ == self.registry()@[self.root()].path + "/papermario"@ + "/ver/us/baserom.z64"@,
    {
        let mut s = self.subrepo_path();
        s.append("/ver/us/baserom.z64");
        s
    }

    /// Replaces the root package's manifest, keeping its identity and
    /// directory. The caller is responsible for writing the manifest back
    /// to the package directory.
    pub fn set_root_manifest(&mut self, manifest: Manifest) -> (r: Result<(), Error>)
        requires
            old(self).wf(),
            crate::manifest::deps_wf(manifest@.dependencies),
            manifest@.metadata.id == old(self).root(),
        ensures
            final(self).wf(),
            final(self).root() == old(self).root(),
            r is Ok,
            final(self).registry()@ == old(self).registry()@.insert(
                old(self).root(),
                (PackageView {
                    path: old(self).registry()@[old(self).root()].path,
                    manifest: manifest@,
                }),
            ),
    {
        let ghost m = self.registry@;
        let mut p = match self.registry.take(&self.package_id) {
            Ok(p) => p,
            Err(_) => {
                proof {
                    assert(false);
                }
                vstd::pervasive::unreached()
            },
        };
        p.set_manifest(manifest);
        let put_back = self.registry.register(p);
        proof {
            assert(put_back is Ok);
            assert(self.registry@ =~= m.insert(
                self.package_id@,
                (PackageView { path: m[self.package_id@].path, manifest: manifest@ }),
            ));
        }
        Ok(())
    }

    /// Plans a repo sync: the returned machine walks the caller through
    /// recreating one branch per package in dependency order, applying
    /// each package's patches, and verifying that the tree ends on this
    /// package's branch.
    pub fn setup_git_branches(&self) -> (r: Result<SyncMachine, Error>)
        requires
            self.wf(),
        ensures
            match r {
                Ok(machine) => {
                    &&& crate::reach::linearizes(self.registry()@, machine.plan())
                    &&& machine.plan().len() > 0
                    &&& machine.plan().last() == self.root()
                    &&& machine.root() == self.root()
                },
                Err(e) => {
                    ||| !crate::reach::closure_ok(self.registry()@, self.root())
                    ||| exists|k: Seq<char>|
                        #[trigger] crate::reach::is_orphan(self.registry()@, self.root(), k)
                    ||| crate::reach::has_cycle(self.registry()@)
                    ||| crate::reach::has_dangling_edge(self.registry()@)
                },
            },
    {
        SyncMachine::new(&self.registry, &self.package_id)
    }

    /// Confirms that patch extraction may proceed: the working tree must
    /// be checked out on this package's own branch and must be clean.
    pub fn check_extraction_preconditions(&self, current_branch: &str, dirty: bool) -> (r: Result<
        (),
        ExtractError,
    >)
        ensures
            match r {
                Ok(()) => current_branch@ == self.root() && !dirty,
                Err(ExtractError::NotOnPackageBranch) => current_branch@ != self.root(),
                Err(ExtractError::DirtyTree) => current_branch@ == self.root() && dirty,
            },
    {
        if !str_eq(current_branch, self.package_id.as_str()) {
            return Err(ExtractError::NotOnPackageBranch);
        }
        if dirty {
            return Err(ExtractError::DirtyTree);
        }
        Ok(())
    }

    /// The candidate branches to diff against when extracting this
    /// package's own patches: the trunk first, then the patch order.
    pub fn diff_base_candidates(&self) -> (r: Result<Vec<String>, Error>)
        requires
            self.wf(),
        ensures
            match r {
                Ok(v) => {
                    &&& v@.len() > 0
                    &&& v@[0]@ == crate::sync::trunk_name()
                    &&& v@.last()@ == self.root()
                    &&& crate::reach::linearizes(
                        self.registry()@,
                        v@.skip(1).map_values(|s: String| s@),
                    )
                },
                Err(e) => {
                    ||| !crate::reach::closure_ok(self.registry()@, self.root())
                    ||| exists|k: Seq<char>|
                        #[trigger] crate::reach::is_orphan(self.registry()@, self.root(), k)
                    ||| crate::reach::has_cycle(self.registry()@)
                    ||| crate::reach::has_dangling_edge(self.registry()@)
                },
            },
    {
        let order = self.registry.calc_dependency_patch_order(&self.package_id)?;
        let mut out: Vec<String> = Vec::new();
        out.push(String::from_str("main"));
        let n = order.len();
        let mut i: usize = 0;
        while i < n
            invariant
                i <= n,
                n == order@.len(),
                out@.len() == i + 1,
                out@[0]@ == crate::sync::trunk_name(),
                forall|j: int| 0 <= j < i ==> (#[trigger] out@[j + 1])@ == order@[j]@,
            decreases n - i,
        {
            out.push(order[i].to_text());
            i = i + 1;
        }
        proof {
            let tail = out@.skip(1).map_values(|s: String| s@);
            assert(tail =~= crate::registry::id_texts(order@));
            assert(out@.last()@ == crate::registry::id_texts(order@).last());
        }
        Ok(out)
    }
}

/// Picks which branch to diff against when extracting a package's own
/// patches: walking the candidates from the end (nearest dependency
/// first, trunk last), the first one that is not the package's own branch
/// and whose branch exists. `exists` answers, entry by entry, whether each
/// candidate's branch exists.
pub fn select_diff_base(candidates: &Vec<String>, root: &str, branch_exists: &Vec<bool>) -> (r:
    Option<usize>)
    requires
        candidates@.len() == branch_exists@.len(),
    ensures
        match r {
            Some(i) => {
                &&& i < candidates@.len()
                &&& candidates@[i as int]@ != root@
                &&& branch_exists@[i as int]
                &&& forall|j: int|
                    i < j < candidates@.len() ==> !((#[trigger] candidates@[j])@ != root@
                        && branch_exists@[j])
            },
            None => forall|j: int|
                0 <= j < candidates@.len() ==> !((#[trigger] candidates@[j])@ != root@
                    && branch_exists@[j]),
        },
{
    let n = candidates.len();
    let mut i: usize = n;
    while i > 0
        invariant
            i <= n,
            n == candidates@.len(),
            candidates@.len() == branch_exists@.len(),
            forall|j: int|
                i <= j < candidates@.len() ==> !((#[trigger] candidates@[j])@ != root@
                    && branch_exists@[j]),
        decreases i,
    {
        i = i - 1;
        if !str_eq(candidates[i].as_str(), root) && branch_exists[i] {
            return Some(i);
        }
    }
    None
}

impl InitialisedPackage {
    /// Adds a dependency package: registers it when absent, then declares
    /// a dependency on it (at a tilde requirement on its registered
    /// version) in the root package's manifest. Fails, leaving the
    /// registry as it stands, when the root's manifest already declares a
    /// different requirement on it.
    pub fn add_dependency(&mut self, package: Package) -> (r: Result<Id, Error>)
        requires
            old(self).wf(),
            package.wf(),
        ensures
            final(self).wf(),
            final(self).root() == old(self).root(),
            match r {
                Ok(id) => {
                    let m0 = old(self).registry()@;
                    let pid = package@.id();
                    let m1 = if m0.contains_key(pid) {
                        m0
                    } else {
                        m0.insert(pid, package@)
                    };
                    let dep = (DepView::Package {
                        id: pid,
                        version: VersionReq::spec_tilde(m1[pid].manifest.metadata.version),
                    });
                    &&& id@ == pid
                    &&& (crate::manifest::has_pkg_dep(
                        m1[old(self).root()].manifest.dependencies,
                        pid,
                    ) ==> crate::manifest::pkg_dep_version(
                        m1[old(self).root()].manifest.dependencies,
                        pid,
                    ) == VersionReq::spec_tilde(m1[pid].manifest.metadata.version))
                    &&& final(self).registry()@ == m1.insert(
                        old(self).root(),
                        (PackageView {
                            path: m1[old(self).root()].path,
                            manifest: (crate::manifest::ManifestView {
                                metadata: m1[old(self).root()].manifest.metadata,
                                dependencies: declare_result(
                                    m1[old(self).root()].manifest.dependencies,
                                    dep,
                                ),
                            }),
                        }),
                    )
                },
                Err(e) => {
                    let m0 = old(self).registry()@;
                    let pid = package@.id();
                    let m1 = if m0.contains_key(pid) {
                        m0
                    } else {
                        m0.insert(pid, package@)
                    };
                    &&& final(self).registry()@ == m1
                    &&& crate::manifest::has_pkg_dep(
                        m1[old(self).root()].manifest.dependencies,
                        pid,
                    )
                    &&& crate::manifest::pkg_dep_version(
                        m1[old(self).root()].manifest.dependencies,
                        pid,
                    ) != VersionReq::spec_tilde(m1[pid].manifest.metadata.version)
                },
            },
    {
        let ghost m0 = self.registry@;
        let id = if self.registry.has(package.id()) {
            package.id().clone()
        } else {
            match self.registry.register(package) {
                Ok(id) => id,
                Err(_) => {
                    proof {
                        assert(false);
                    }
                    vstd::pervasive::unreached()
                },
            }
        };
        let root = self.package_id.clone();
        self.registry.add_direct_dependency(&root, &id)?;
        Ok(id)
    }
}

} // verus!

//! A package: a directory path together with its manifest.
//!
//! On disk a package is a directory holding a manifest file, a license, a
//! readme and a `patches/` directory. The library works on the in-memory
//! value — the path and the parsed manifest; reading and writing the
//! directory is the caller's concern.

use vstd::prelude::*;
use crate::id::Id;
use crate::manifest::ConflictError;
use crate::manifest::Dependency;
use crate::manifest::Manifest;
use crate::manifest::ManifestView;
use crate::name::Name;
use crate::name::id_candidate;
use crate::version::Version;

verus! {

/// The mathematical value of a package: its directory path and manifest.
pub struct PackageView {
    /// The package directory path.
    pub path: Seq<char>,
    /// The manifest value.
    pub manifest: ManifestView,
}

impl PackageView {
    /// The package's identifier text.
    pub open spec fn id(self) -> Seq<char> {
        self.manifest.metadata.id
    }
}

/// A package: a directory path and the manifest it holds.
#[derive(Debug)]
pub struct Package {
    path: String,
    manifest: Manifest,
}

impl View for Package {
    type V = PackageView;

    closed spec fn view(&self) -> PackageView {
        PackageView { path: self.path@, manifest: self.manifest@ }
    }
}

impl Clone for Package {
    fn clone(&self) -> (res: Self)
        ensures
            res@ == self@,
    {
        Package { path: self.path.clone(), manifest: self.manifest.clone() }
    }
}

impl Package {
    /// Whether the package's manifest is well formed.
    pub open spec fn wf(self) -> bool {
        crate::manifest::deps_wf(self@.manifest.dependencies)
    }

    /// Wraps an already-parsed manifest and its directory path as a
    /// package value.
    pub fn from_parts(path: String, manifest: Manifest) -> (r: Package)
        ensures
            r@ == (PackageView { path: path@, manifest: manifest@ }),
    {
        Package { path, manifest }
    }

    /// Create a new package value for the given directory path: a fresh
    /// manifest named after `name` and authored by `author`. Fails when no
    /// valid identifier can be derived from the name.
    pub fn new(name: Name, path: String, author: String) -> (r: Result<Package, crate::id::Error>)
        ensures
            match r {
                Ok(p) => {
                    &&& p@.path == path@
                    &&& p@.manifest.metadata.id == id_candidate(name@)
                    &&& crate::id::valid_id(id_candidate(name@))
                    &&& p@.manifest.metadata.name == name@
                    &&& p@.manifest.dependencies =~= Seq::<crate::manifest::DepView>::empty()
                    &&& p.wf()
                },
                Err(_) => !crate::id::valid_id(id_candidate(name@)),
            },
    {
        let manifest = Manifest::new(name, author)?;
        Ok(Package { path, manifest })
    }

    /// The package ID.
    pub fn id(&self) -> (r: &Id)
        ensures
            r@ == self@.id(),
    {
        self.manifest.metadata().id()
    }

    /// The package path.
    pub fn path(&self) -> (r: &str)
        ensures
            r@ == self@.path,
    {
        self.path.as_str()
    }

    /// Returns the manifest of the package.
    pub fn manifest(&self) -> (r: &Manifest)
        ensures
            r@ == self@.manifest,
    {
        &self.manifest
    }

    /// Replaces the package manifest.
    pub fn set_manifest(&mut self, manifest: Manifest)
        ensures
            final(self)@ == (PackageView { manifest: manifest@, ..old(self)@ }),
    {
        self.manifest = manifest;
    }

    /// Declares a direct dependency on the package's manifest.
    pub fn declare_direct_dependency(&mut self, dependency: Dependency) -> (r: Result<
        (),
        ConflictError,
    >)
        requires
            old(self).wf(),
        ensures
            final(self).wf(),
            final(self)@.path == old(self)@.path,
            final(self)@.manifest.metadata == old(self)@.manifest.metadata,
            crate::manifest::declare_outcome(
                old(self)@.manifest.dependencies,
                dependency@,
                r is Ok,
                final(self)@.manifest.dependencies,
            ),
            r matches Err(e) ==> e.id@ == dependency@.pkg_id(),
    {
        self.manifest.declare_direct_dependency(dependency)
    }

    /// Updates the version in the package's manifest metadata.
    pub fn set_version(&mut self, version: Version)
        ensures
            final(self)@.path == old(self)@.path,
            final(self)@.manifest.dependencies == old(self)@.manifest.dependencies,
            final(self)@.manifest.metadata == (crate::manifest::MetadataView {
                version,
                ..old(self)@.manifest.metadata
            }),
    {
        let mut metadata = self.manifest.metadata().clone();
        metadata.set_version(version);
        self.manifest.set_metadata(metadata);
    }

    /// Compares two packages by ID.
    pub fn uuid_equals(&self, other: &Package) -> (r: bool)
        ensures
            r == (self@.id() == other@.id()),
    {
        self.manifest.metadata().id().eq(other.manifest.metadata().id())
    }
}

/// Whether a file name is a patch file: it ends in `.patch`.
pub open spec fn is_patch_file(s: String) -> bool {
    crate::text::has_suffix(s@, ".patch"@)
}

/// The patch files among `files`, in their order.
pub open spec fn patch_files(files: Seq<String>) -> Seq<String> {
    files.filter(|s: String| is_patch_file(s))
}

/// The order in which a package's patch files are applied: the `.patch`
/// files among the directory's entries, sorted by file name. Patch files
/// carry numeric prefixes, so this lexicographic order is the intended
/// chronological order.
pub fn patch_apply_order(files: Vec<String>) -> (r: Vec<String>)
    ensures
        crate::text::sorted_lex(r@),
        r@.to_multiset() == patch_files(files@).to_multiset(),
{
    let n = files.len();
    let mut kept: Vec<String> = Vec::new();
    let mut i: usize = 0;
    proof {
        reveal(Seq::filter);
        assert(files@.take(0) =~= Seq::<String>::empty());
        assert(kept@ =~= patch_files(files@.take(0)));
    }
    while i < n
        invariant
            i <= n,
            n == files@.len(),
            kept@ =~= patch_files(files@.take(i as int)),
        decreases n - i,
    {
        let keep = crate::text::str_has_suffix(files[i].as_str(), ".patch");
        proof {
            reveal(Seq::filter);
            assert(files@.take(i + 1).drop_last() =~= files@.take(i as int));
            assert(files@.take(i + 1).last() == files@[i as int]);
            assert(keep == is_patch_file(files@[i as int]));
        }
        if keep {
            kept.push(files[i].clone());
        }
        proof {
            reveal(Seq::filter);
            assert(kept@ =~= patch_files(files@.take(i + 1)));
        }
        i = i + 1;
    }
    proof {
        assert(files@.take(n as int) =~= files@);
    }
    crate::text::sort_strings(kept)
}

} // verus!

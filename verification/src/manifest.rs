//! Package manifests: metadata and declared direct dependencies.
//!
//! A manifest holds a package's metadata (identity, version, authorship)
//! and its direct dependencies, each either a dependency on another package
//! (with a version requirement) or a pin of the base source tree to an
//! exact revision. A manifest never holds two dependencies on the same
//! package, nor two base-tree pins.

use vstd::prelude::*;
use crate::id::Id;
use crate::name::Name;
use crate::name::id_candidate;
use crate::text::str_eq;
use crate::version::Comparator;
use crate::version::Version;
use crate::version::VersionReq;
use crate::version::req_eq;

verus! {

/// The mathematical value of a dependency declaration.
pub enum DepView {
    /// A dependency on another package.
    Package {
        /// The target package's identifier text.
        id: Seq<char>,
        /// The comparators of the version requirement.
        version: Seq<Comparator>,
    },
    /// A pin of the base source tree to an exact revision.
    Decomp {
        /// The revision (commit hash) text.
        rev: Seq<char>,
    },
}

impl DepView {
    /// The target identifier of a package dependency.
    pub open spec fn pkg_id(self) -> Seq<char> {
        match self {
            DepView::Package { id, .. } => id,
            DepView::Decomp { .. } => Seq::empty(),
        }
    }

    /// The version requirement of a package dependency.
    pub open spec fn pkg_version(self) -> Seq<Comparator> {
        match self {
            DepView::Package { version, .. } => version,
            DepView::Decomp { .. } => Seq::empty(),
        }
    }

    /// The revision of a base-tree pin.
    pub open spec fn rev(self) -> Seq<char> {
        match self {
            DepView::Package { .. } => Seq::empty(),
            DepView::Decomp { rev } => rev,
        }
    }
}

/// A dependency declaration of a manifest.
#[derive(Debug)]
pub enum Dependency {
    /// Dependency on another package.
    Package {
        /// The ID of the dependency package.
        id: Id,
        /// The semantic version requirement for the dependency.
        version: VersionReq,
    },
    /// Dependency on the base source tree (the decompilation).
    Decomp {
        /// Git commit hash.
        rev: String,
    },
}

impl View for Dependency {
    type V = DepView;

    open spec fn view(&self) -> DepView {
        match self {
            Dependency::Package { id, version } => DepView::Package { id: id@, version: version@ },
            Dependency::Decomp { rev } => DepView::Decomp { rev: rev@ },
        }
    }
}

impl Clone for Dependency {
    fn clone(&self) -> (res: Self)
        ensures
            res@ == self@,
    {
        match self {
            Dependency::Package { id, version } => Dependency::Package {
                id: id.clone(),
                version: version.clone(),
            },
            Dependency::Decomp { rev } => Dependency::Decomp { rev: rev.clone() },
        }
    }
}

/// Decides whether two dependency declarations have the same value.
pub fn dep_eq(a: &Dependency, b: &Dependency) -> (r: bool)
    ensures
        r == (a@ == b@),
{
    match (a, b) {
        (
            Dependency::Package { id: i1, version: v1 },
            Dependency::Package { id: i2, version: v2 },
        ) => i1.eq(i2) && req_eq(v1, v2),
        (Dependency::Decomp { rev: r1 }, Dependency::Decomp { rev: r2 }) => str_eq(
            r1.as_str(),
            r2.as_str(),
        ),
        _ => false,
    }
}

/// Whether `deps` declares a package dependency on `id`.
pub open spec fn has_pkg_dep(deps: Seq<DepView>, id: Seq<char>) -> bool {
    exists|i: int| 0 <= i < deps.len() && #[trigger] deps[i] is Package && deps[i].pkg_id() == id
}

/// An index at which `deps` declares a package dependency on `id`.
pub open spec fn pkg_dep_index(deps: Seq<DepView>, id: Seq<char>) -> int {
    choose|i: int| 0 <= i < deps.len() && #[trigger] deps[i] is Package && deps[i].pkg_id() == id
}

/// The version requirement that `deps` declares for package `id`.
pub open spec fn pkg_dep_version(deps: Seq<DepView>, id: Seq<char>) -> Seq<Comparator> {
    deps[pkg_dep_index(deps, id)].pkg_version()
}

/// Whether `deps` declares a base-tree pin.
pub open spec fn has_decomp_dep(deps: Seq<DepView>) -> bool {
    exists|i: int| 0 <= i < deps.len() && #[trigger] deps[i] is Decomp
}

/// The index of the base-tree pin in `deps`.
pub open spec fn decomp_index(deps: Seq<DepView>) -> int {
    choose|i: int| 0 <= i < deps.len() && #[trigger] deps[i] is Decomp
}

/// The pinned base-tree revision that `deps` declares.
pub open spec fn decomp_rev(deps: Seq<DepView>) -> Seq<char> {
    deps[decomp_index(deps)].rev()
}

/// A well-formed dependency list: at most one base-tree pin, and at most
/// one package dependency per target identifier.
pub open spec fn deps_wf(deps: Seq<DepView>) -> bool {
    &&& forall|i: int, j: int|
        0 <= i < j < deps.len() && #[trigger] deps[i] is Decomp && #[trigger] deps[j] is Decomp
            ==> false
    &&& forall|i: int, j: int|
        0 <= i < j < deps.len() && #[trigger] deps[i] is Package && #[trigger] deps[j] is Package
            ==> deps[i].pkg_id() != deps[j].pkg_id()
}

/// In a well-formed list, any index holding a package dependency on `id`
/// is the one `pkg_dep_index` picks.
pub proof fn lemma_pkg_dep_index(deps: Seq<DepView>, id: Seq<char>, i: int)
    requires
        deps_wf(deps),
        0 <= i < deps.len(),
        deps[i] is Package,
        deps[i].pkg_id() == id,
    ensures
        pkg_dep_index(deps, id) == i,
        pkg_dep_version(deps, id) == deps[i].pkg_version(),
{
    let k = pkg_dep_index(deps, id);
    assert(0 <= k < deps.len() && deps[k] is Package && deps[k].pkg_id() == id);
    if k < i {
        assert(deps[k].pkg_id() != deps[i].pkg_id());
    } else if i < k {
        assert(deps[i].pkg_id() != deps[k].pkg_id());
    }
}

/// In a well-formed list, any index holding a base-tree pin is the one
/// `decomp_index` picks.
pub proof fn lemma_decomp_index(deps: Seq<DepView>, i: int)
    requires
        deps_wf(deps),
        0 <= i < deps.len(),
        deps[i] is Decomp,
    ensures
        decomp_index(deps) == i,
        decomp_rev(deps) == deps[i].rev(),
{
    let k = decomp_index(deps);
    assert(0 <= k < deps.len() && deps[k] is Decomp);
}

/// What declaring dependency `d` on a list `deps` does, when `ok` tells
/// whether the call succeeded and `new` is the list afterwards: an already
/// declared package dependency must agree on the version (and nothing
/// changes), a new one is appended, and a base-tree pin replaces any
/// earlier pin. The call fails exactly on a package dependency that is
/// declared already with a different requirement, and then changes nothing.
pub open spec fn declare_outcome(deps: Seq<DepView>, d: DepView, ok: bool, new: Seq<DepView>) -> bool {
    if ok {
        match d {
            DepView::Package { id, version } => {
                if has_pkg_dep(deps, id) {
                    pkg_dep_version(deps, id) == version && new == deps
                } else {
                    new == deps.push(d)
                }
            },
            DepView::Decomp { rev } => {
                if has_decomp_dep(deps) {
                    new == deps.update(decomp_index(deps), d)
                } else {
                    new == deps.push(d)
                }
            },
        }
    } else {
        &&& d is Package
        &&& has_pkg_dep(deps, d.pkg_id())
        &&& pkg_dep_version(deps, d.pkg_id()) != d.pkg_version()
        &&& new == deps
    }
}

/// The dependency list that a successful declaration of `d` on `deps`
/// leaves behind.
pub open spec fn declare_result(deps: Seq<DepView>, d: DepView) -> Seq<DepView> {
    match d {
        DepView::Package { id, .. } => if has_pkg_dep(deps, id) {
            deps
        } else {
            deps.push(d)
        },
        DepView::Decomp { .. } => if has_decomp_dep(deps) {
            deps.update(decomp_index(deps), d)
        } else {
            deps.push(d)
        },
    }
}

/// The mathematical value of package metadata.
pub struct MetadataView {
    /// Identifier text.
    pub id: Seq<char>,
    /// Name text.
    pub name: Seq<char>,
    /// Package version.
    pub version: Version,
    /// Author strings.
    pub authors: Seq<Seq<char>>,
    /// One-line description.
    pub description: Seq<char>,
    /// License text.
    pub license: Seq<char>,
    /// Keyword strings.
    pub keywords: Seq<Seq<char>>,
}

/// Metadata about a package.
#[derive(Debug)]
pub struct Metadata {
    id: Id,
    name: Name,
    version: Version,
    authors: Vec<String>,
    description: String,
    license: String,
    keywords: Vec<String>,
}

impl View for Metadata {
    type V = MetadataView;

    closed spec fn view(&self) -> MetadataView {
        MetadataView {
            id: self.id@,
            name: self.name@,
            version: self.version,
            authors: self.authors.deep_view(),
            description: self.description@,
            license: self.license@,
            keywords: self.keywords.deep_view(),
        }
    }
}

/// A keyword the metadata validation accepts.
pub open spec fn keyword_allowed(k: Seq<char>) -> bool {
    ||| k == "qol"@
    ||| k == "cheat"@
    ||| k == "bugfix"@
    ||| k == "cosmetic"@
    ||| k == "feature"@
}

/// The validation message for a rejected keyword.
pub open spec fn keyword_msg(k: Seq<char>) -> Seq<char> {
    "invalid keyword: "@ + k + " (valid keywords: qol, cheat, bugfix, cosmetic, feature)"@
}

/// The validation messages for the rejected keywords among `keywords`, in
/// order.
pub open spec fn keyword_msgs(keywords: Seq<Seq<char>>) -> Seq<Seq<char>>
    decreases keywords.len(),
{
    if keywords.len() == 0 {
        Seq::empty()
    } else {
        keyword_msgs(keywords.drop_last()) + if keyword_allowed(keywords.last()) {
            Seq::empty()
        } else {
            seq![keyword_msg(keywords.last())]
        }
    }
}

/// Every validation message for `m`, in order: empty author list, empty or
/// overlong description, empty license, then one message per rejected
/// keyword.
pub open spec fn violation_msgs(m: MetadataView) -> Seq<Seq<char>> {
    (if m.authors.len() == 0 {
        seq!["authors cannot be empty"@]
    } else {
        Seq::empty()
    }) + (if m.description.len() == 0 {
        seq!["description cannot be empty"@]
    } else {
        Seq::empty()
    }) + (if m.description.len() > 100 {
        seq!["description must be less than 100 characters"@]
    } else {
        Seq::empty()
    }) + (if m.license.len() == 0 {
        seq!["license cannot be empty"@]
    } else {
        Seq::empty()
    }) + keyword_msgs(m.keywords)
}

/// Whether metadata passes validation.
pub open spec fn metadata_valid(m: MetadataView) -> bool {
    violation_msgs(m).len() == 0
}

/// Decides whether `k` is an accepted keyword.
fn keyword_is_allowed(k: &str) -> (r: bool)
    ensures
        r == keyword_allowed(k@),
{
    str_eq(k, "qol") || str_eq(k, "cheat") || str_eq(k, "bugfix") || str_eq(k, "cosmetic")
        || str_eq(k, "feature")
}

impl Clone for Metadata {
    fn clone(&self) -> (res: Self)
        ensures
            res@ == self@,
    {
        Metadata {
            id: self.id.clone(),
            name: self.name.clone(),
            version: self.version,
            authors: self.authors.clone(),
            description: self.description.clone(),
            license: self.license.clone(),
            keywords: self.keywords.clone(),
        }
    }
}

impl Metadata {
    /// Builds metadata from its parts.
    pub fn new(
        id: Id,
        name: Name,
        version: Version,
        authors: Vec<String>,
        description: String,
        license: String,
        keywords: Vec<String>,
    ) -> (r: Metadata)
        ensures
            r@ == (MetadataView {
                id: id@,
                name: name@,
                version,
                authors: authors.deep_view(),
                description: description@,
                license: license@,
                keywords: keywords.deep_view(),
            }),
    {
        Metadata { id, name, version, authors, description, license, keywords }
    }

    /// The package ID.
    pub fn id(&self) -> (r: &Id)
        ensures
            r@ == self@.id,
    {
        &self.id
    }

    /// The package name.
    pub fn name(&self) -> (r: &Name)
        ensures
            r@ == self@.name,
    {
        &self.name
    }

    /// The package version.
    pub fn version(&self) -> (r: &Version)
        ensures
            *r == self@.version,
    {
        &self.version
    }

    /// Updates the package version.
    pub fn set_version(&mut self, version: Version)
        ensures
            final(self)@ == (MetadataView { version, ..old(self)@ }),
    {
        self.version = version;
    }

    /// The package authors.
    pub fn authors(&self) -> (r: &Vec<String>)
        ensures
            r.deep_view() == self@.authors,
    {
        &self.authors
    }

    /// The package one-line description.
    pub fn description(&self) -> (r: &str)
        ensures
            r@ == self@.description,
    {
        self.description.as_str()
    }

    /// The package license.
    pub fn license(&self) -> (r: &str)
        ensures
            r@ == self@.license,
    {
        self.license.as_str()
    }

    /// The package keywords.
    pub fn keywords(&self) -> (r: &Vec<String>)
        ensures
            r.deep_view() == self@.keywords,
    {
        &self.keywords
    }

    /// Validate package metadata, returning a list of messages, one for
    /// each violation: empty author list, empty or overlong description,
    /// empty license, or a keyword outside the accepted set.
    pub fn validate(&self) -> (r: Vec<String>)
        ensures
            r.deep_view() == violation_msgs(self@),
    {
        let mut errors: Vec<String> = Vec::new();
        if self.authors.len() == 0 {
            errors.push(String::from_str("authors cannot be empty"));
        }
        if self.description.as_str().unicode_len() == 0 {
            errors.push(String::from_str("description cannot be empty"));
        }
        if self.description.as_str().unicode_len() > 100 {
            errors.push(String::from_str("description must be less than 100 characters"));
        }
        if self.license.as_str().unicode_len() == 0 {
            errors.push(String::from_str("license cannot be empty"));
        }
        let ghost head = errors.deep_view();
        proof {
            assert(head =~= violation_msgs(self@).take(head.len() as int));
        }
        let n = self.keywords.len();
        let mut i: usize = 0;
        while i < n
            invariant
                i <= n,
                n == self.keywords@.len(),
                errors.deep_view() =~= head + keyword_msgs(self@.keywords.take(i as int)),
            decreases n - i,
        {
            let ghost before = errors.deep_view();
            let kw = &self.keywords[i];
            if !keyword_is_allowed(kw.as_str()) {
                let mut msg = String::from_str("invalid keyword: ");
                msg.append(kw.as_str());
                msg.append(" (valid keywords: qol, cheat, bugfix, cosmetic, feature)");
                errors.push(msg);
            }
            proof {
                let kws = self@.keywords;
                assert(kws[i as int] == self.keywords@[i as int]@);
                assert(kws.take(i + 1).drop_last() =~= kws.take(i as int));
                assert(kws.take(i + 1).last() == kws[i as int]);
                if keyword_allowed(kws[i as int]) {
                    assert(keyword_msgs(kws.take(i + 1)) =~= keyword_msgs(kws.take(i as int)));
                } else {
                    assert(keyword_msgs(kws.take(i + 1)) =~= keyword_msgs(kws.take(i as int)).push(
                        keyword_msg(kws[i as int]),
                    ));
                    assert(errors.deep_view() =~= before.push(keyword_msg(kws[i as int])));
                }
                assert(errors.deep_view() =~= head + keyword_msgs(kws.take(i + 1)));
            }
            i = i + 1;
        }
        proof {
            assert(self@.keywords.take(n as int) =~= self@.keywords);
        }
        errors
    }

    /// Returns whether the package metadata is valid.
    pub fn is_valid(&self) -> (r: bool)
        ensures
            r == metadata_valid(self@),
    {
        self.validate().len() == 0
    }
}

impl Dependency {
    /// The dependency that `metadata` describes: a package dependency on
    /// its identifier, with a tilde requirement on its version.
    pub fn from_metadata(metadata: &Metadata) -> (r: Dependency)
        ensures
            r@ is Package,
            r@.pkg_id() == metadata@.id,
            r@.pkg_version() =~= VersionReq::spec_tilde(metadata@.version),
    {
        Dependency::Package {
            id: metadata.id().clone(),
            version: VersionReq::tilde(metadata.version()),
        }
    }
}

/// The mathematical value of a manifest.
pub struct ManifestView {
    /// The package metadata.
    pub metadata: MetadataView,
    /// The declared direct dependencies, in declaration order.
    pub dependencies: Seq<DepView>,
}

/// Package manifest data: metadata plus declared direct dependencies.
#[derive(Debug)]
pub struct Manifest {
    metadata: Metadata,
    dependencies: Vec<Dependency>,
}

/// The views of a dependency vector.
pub open spec fn dep_views(deps: Seq<Dependency>) -> Seq<DepView> {
    deps.map_values(|d: Dependency| d@)
}

impl View for Manifest {
    type V = ManifestView;

    closed spec fn view(&self) -> ManifestView {
        ManifestView { metadata: self.metadata@, dependencies: dep_views(self.dependencies@) }
    }
}

/// The error declaring a dependency that conflicts with one already
/// declared: a dependency on the same package with a different version
/// requirement.
#[derive(Debug)]
pub struct ConflictError {
    /// The package whose dependency was already declared.
    pub id: Id,
}

impl Clone for Manifest {
    fn clone(&self) -> (res: Self)
        ensures
            res@ == self@,
    {
        let res = Manifest {
            metadata: self.metadata.clone(),
            dependencies: self.dependencies_cloned(),
        };
        proof {
            assert(res@.dependencies =~= self@.dependencies);
        }
        res
    }
}

impl Manifest {
    /// Builds a manifest from already-validated parts.
    pub fn from_parts(metadata: Metadata, dependencies: Vec<Dependency>) -> (r: Manifest)
        ensures
            r@ == (ManifestView { metadata: metadata@, dependencies: dep_views(dependencies@) }),
    {
        Manifest { metadata, dependencies }
    }

    /// Whether this manifest's dependency list is well formed.
    pub open spec fn wf(self) -> bool {
        deps_wf(self@.dependencies)
    }

    /// Creates a new manifest for a package with the given name, authored
    /// by `author`: version 0.1.0, a placeholder description, a share-alike
    /// license, no keywords and no dependencies. The identifier is derived
    /// from the name; fails when that derivation yields no valid
    /// identifier.
    pub fn new(name: Name, author: String) -> (r: Result<Manifest, crate::id::Error>)
        ensures
            match r {
                Ok(m) => {
                    &&& m@.metadata.id == id_candidate(name@)
                    &&& crate::id::valid_id(id_candidate(name@))
                    &&& m@.metadata.name == name@
                    &&& m@.metadata.version == (Version { major: 0, minor: 1, patch: 0 })
                    &&& m@.metadata.authors =~= seq![author@]
                    &&& m@.metadata.description == "An amazing mod"@
                    &&& m@.metadata.license == "CC-BY-SA-4.0"@
                    &&& m@.metadata.keywords =~= Seq::<Seq<char>>::empty()
                    &&& m@.dependencies =~= Seq::<DepView>::empty()
                    &&& m.wf()
                },
                Err(_) => !crate::id::valid_id(id_candidate(name@)),
            },
    {
        let id = Id::generate_for_package_name(&name)?;
        let mut authors: Vec<String> = Vec::new();
        authors.push(author);
        let metadata = Metadata::new(
            id,
            name,
            Version::new(0, 1, 0),
            authors,
            String::from_str("An amazing mod"),
            String::from_str("CC-BY-SA-4.0"),
            Vec::new(),
        );
        Ok(Manifest { metadata, dependencies: Vec::new() })
    }

    /// Borrows the package metadata.
    pub fn metadata(&self) -> (r: &Metadata)
        ensures
            r@ == self@.metadata,
    {
        &self.metadata
    }

    /// Updates the package metadata.
    pub fn set_metadata(&mut self, metadata: Metadata)
        ensures
            final(self)@ == (ManifestView { metadata: metadata@, ..old(self)@ }),
    {
        self.metadata = metadata;
    }

    /// The dependencies that are declared in the manifest, in declaration
    /// order.
    pub fn iter_direct_dependencies(&self) -> (r: &Vec<Dependency>)
        ensures
            dep_views(r@) == self@.dependencies,
    {
        &self.dependencies
    }

    /// Adds a dependency to the manifest.
    ///
    /// A package dependency that is declared already with a different
    /// version requirement is a conflict error; with the same requirement
    /// the call changes nothing. A base-tree pin replaces any pin declared
    /// already.
    pub fn declare_direct_dependency(&mut self, dependency: Dependency) -> (r: Result<
        (),
        ConflictError,
    >)
        requires
            old(self).wf(),
        ensures
            final(self).wf(),
            final(self)@.metadata == old(self)@.metadata,
            declare_outcome(
                old(self)@.dependencies,
                dependency@,
                r is Ok,
                final(self)@.dependencies,
            ),
            r matches Err(e) ==> e.id@ == dependency@.pkg_id(),
    {
        let ghost deps = self@.dependencies;
        match dependency {
            Dependency::Package { id, version } => {
                let n = self.dependencies.len();
                let mut i: usize = 0;
                while i < n
                    invariant
                        i <= n,
                        n == deps.len(),
                        deps == dep_views(self.dependencies@),
                        self@.metadata == old(self)@.metadata,
                        forall|j: int|
                            0 <= j < i ==> !(#[trigger] deps[j] is Package && deps[j].pkg_id()
                                == id@),
                    decreases n - i,
                {
                    let found = match &self.dependencies[i] {
                        Dependency::Package { id: did, .. } => did.eq(&id),
                        Dependency::Decomp { .. } => false,
                    };
                    if found {
                        proof {
                            lemma_pkg_dep_index(deps, id@, i as int);
                        }
                        let same = match &self.dependencies[i] {
                            Dependency::Package { version: dver, .. } => req_eq(dver, &version),
                            Dependency::Decomp { .. } => false,
                        };
                        if same {
                            return Ok(());
                        } else {
                            return Err(ConflictError { id });
                        }
                    }
                    i = i + 1;
                }
                self.dependencies.push(Dependency::Package { id, version });
                proof {
                    assert(dep_views(self.dependencies@) =~= deps.push(
                        dep_views(self.dependencies@).last(),
                    ));
                }
                Ok(())
            },
            Dependency::Decomp { rev } => {
                let n = self.dependencies.len();
                let mut i: usize = 0;
                while i < n
                    invariant
                        i <= n,
                        n == deps.len(),
                        deps == dep_views(self.dependencies@),
                        self@.metadata == old(self)@.metadata,
                        forall|j: int| 0 <= j < i ==> !(#[trigger] deps[j] is Decomp),
                    decreases n - i,
                {
                    let found = match &self.dependencies[i] {
                        Dependency::Decomp { .. } => true,
                        Dependency::Package { .. } => false,
                    };
                    if found {
                        proof {
                            lemma_decomp_index(deps, i as int);
                        }
                        self.dependencies.set(i, Dependency::Decomp { rev });
                        proof {
                            assert(dep_views(self.dependencies@) =~= deps.update(
                                i as int,
                                dep_views(self.dependencies@)[i as int],
                            ));
                        }
                        return Ok(());
                    }
                    i = i + 1;
                }
                self.dependencies.push(Dependency::Decomp { rev });
                proof {
                    assert(dep_views(self.dependencies@) =~= deps.push(
                        dep_views(self.dependencies@).last(),
                    ));
                }
                Ok(())
            },
        }
    }

    /// Returns true if the manifest has a base-tree dependency.
    pub fn has_direct_decomp_dependency(&self) -> (r: bool)
        ensures
            r == has_decomp_dep(self@.dependencies),
    {
        let n = self.dependencies.len();
        let mut i: usize = 0;
        while i < n
            invariant
                i <= n,
                n == self@.dependencies.len(),
                forall|j: int| 0 <= j < i ==> !(#[trigger] self@.dependencies[j] is Decomp),
            decreases n - i,
        {
            let found = match &self.dependencies[i] {
                Dependency::Decomp { .. } => true,
                Dependency::Package { .. } => false,
            };
            if found {
                proof {
                    assert(self@.dependencies[i as int] == self.dependencies@[i as int]@);
                    assert(self@.dependencies[i as int] is Decomp);
                }
                return true;
            }
            i = i + 1;
        }
        false
    }

    /// Declares a base-tree pin on `rev`, replacing any pin declared
    /// before.
    pub fn upsert_decomp_dependency(&mut self, rev: String)
        requires
            old(self).wf(),
        ensures
            final(self).wf(),
            final(self)@.metadata == old(self)@.metadata,
            ({
                let deps = old(self)@.dependencies;
                if has_decomp_dep(deps) {
                    final(self)@.dependencies == deps.update(
                        decomp_index(deps),
                        DepView::Decomp { rev: rev@ },
                    )
                } else {
                    final(self)@.dependencies == deps.push(DepView::Decomp { rev: rev@ })
                }
            }),
    {
        let r = self.declare_direct_dependency(Dependency::Decomp { rev });
        proof {
            assert(r is Ok);
        }
    }

    /// Returns the revision (commit hash) of the base-tree dependency, if
    /// one exists.
    pub fn get_direct_decomp_dependency_rev(&self) -> (r: Option<String>)
        requires
            self.wf(),
        ensures
            match r {
                Some(rev) => has_decomp_dep(self@.dependencies) && rev@ == decomp_rev(
                    self@.dependencies,
                ),
                None => !has_decomp_dep(self@.dependencies),
            },
    {
        let n = self.dependencies.len();
        let mut i: usize = 0;
        while i < n
            invariant
                i <= n,
                n == self@.dependencies.len(),
                self.wf(),
                forall|j: int| 0 <= j < i ==> !(#[trigger] self@.dependencies[j] is Decomp),
            decreases n - i,
        {
            match &self.dependencies[i] {
                Dependency::Decomp { rev } => {
                    proof {
                        lemma_decomp_index(self@.dependencies, i as int);
                    }
                    return Some(rev.clone());
                },
                Dependency::Package { .. } => {},
            }
            i = i + 1;
        }
        None
    }

    /// Decides whether the manifest's dependency list is well formed: at
    /// most one base-tree pin and at most one package dependency per
    /// target. Callers that assemble a manifest from untrusted text check
    /// it with this before handing it to a registry.
    pub fn check_wf(&self) -> (r: bool)
        ensures
            r == self.wf(),
    {
        let ghost deps = self@.dependencies;
        let n = self.dependencies.len();
        let mut i: usize = 0;
        while i < n
            invariant
                i <= n,
                n == deps.len(),
                deps == dep_views(self.dependencies@),
                forall|a: int, b: int|
                    0 <= a < b < deps.len() && a < i && #[trigger] deps[a] is Decomp
                        && #[trigger] deps[b] is Decomp ==> false,
                forall|a: int, b: int|
                    0 <= a < b < deps.len() && a < i && #[trigger] deps[a] is Package
                        && #[trigger] deps[b] is Package ==> deps[a].pkg_id() != deps[b].pkg_id(),
            decreases n - i,
        {
            let mut j: usize = i + 1;
            while j < n
                invariant
                    i < j <= n,
                    i < n,
                    n == deps.len(),
                    deps == dep_views(self.dependencies@),
                    forall|b: int|
                        i < b < j && #[trigger] deps[i as int] is Decomp ==> !(
                        #[trigger] deps[b] is Decomp),
                    forall|b: int|
                        i < b < j && #[trigger] deps[i as int] is Package && (
                        #[trigger] deps[b]) is Package ==> deps[i as int].pkg_id()
                            != deps[b].pkg_id(),
                decreases n - j,
            {
                let clash = match (&self.dependencies[i], &self.dependencies[j]) {
                    (Dependency::Decomp { .. }, Dependency::Decomp { .. }) => true,
                    (
                        Dependency::Package { id: a, .. },
                        Dependency::Package { id: b, .. },
                    ) => a.eq(b),
                    _ => false,
                };
                if clash {
                    proof {
                        assert(deps[i as int] is Decomp && deps[j as int] is Decomp
                            || deps[i as int] is Package && deps[j as int] is Package
                                && deps[i as int].pkg_id() == deps[j as int].pkg_id());
                    }
                    return false;
                }
                j = j + 1;
            }
            i = i + 1;
        }
        true
    }

    /// Clones the declared dependencies into an owned vector.
    pub fn dependencies_cloned(&self) -> (r: Vec<Dependency>)
        ensures
            dep_views(r@) == self@.dependencies,
    {
        let n = self.dependencies.len();
        let mut out: Vec<Dependency> = Vec::new();
        let mut i: usize = 0;
        while i < n
            invariant
                i <= n,
                n == self@.dependencies.len(),
                dep_views(out@) =~= self@.dependencies.take(i as int),
            decreases n - i,
        {
            out.push(self.dependencies[i].clone());
            proof {
                assert(dep_views(out@) =~= self@.dependencies.take(i + 1));
            }
            i = i + 1;
        }
        proof {
            assert(self@.dependencies.take(n as int) =~= self@.dependencies);
        }
        out
    }
}

} // verus!

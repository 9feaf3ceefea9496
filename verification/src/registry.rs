//! The package registry: an arena of packages keyed by identifier.
//!
//! The registry owns every package it holds. Its mathematical value is a
//! map from identifier text to package value; registration inserts,
//! taking removes. The dependency-graph algorithms over a registry stand
//! in the `graph` module.

use vstd::prelude::*;
use crate::id::Id;
use crate::manifest::deps_wf;
use crate::package::Package;
use crate::package::PackageView;
use crate::reach::RegMap;
use crate::version::Version;
use crate::version::VersionReq;

verus! {

/// The views of a package vector.
pub open spec fn pkg_views(s: Seq<Package>) -> Seq<PackageView> {
    s.map_values(|p: Package| p@)
}

/// The texts of an identifier vector.
pub open spec fn id_texts(s: Seq<Id>) -> Seq<Seq<char>> {
    s.map_values(|x: Id| x@)
}

/// The map that a list of package values denotes: each keyed by its own
/// identifier, later entries shadowing earlier ones.
pub open spec fn packages_map(s: Seq<PackageView>) -> RegMap
    decreases s.len(),
{
    if s.len() == 0 {
        Map::empty()
    } else {
        packages_map(s.drop_last()).insert(s.last().id(), s.last())
    }
}

/// Whether the identifiers of a list of package values are pairwise
/// distinct.
pub open spec fn ids_distinct(s: Seq<PackageView>) -> bool {
    forall|i: int, j: int| 0 <= i < j < s.len() ==> (#[trigger] s[i].id()) != (#[trigger] s[j].id())
}

/// A key is in the map exactly when some list entry carries it.
pub proof fn lemma_map_domain(s: Seq<PackageView>)
    ensures
        forall|k: Seq<char>|
            #[trigger] packages_map(s).contains_key(k) <==> exists|i: int|
                0 <= i < s.len() && (#[trigger] s[i].id()) == k,
        packages_map(s).dom().finite(),
    decreases s.len(),
{
    if s.len() > 0 {
        lemma_map_domain(s.drop_last());
        assert forall|k: Seq<char>| #[trigger] packages_map(s).contains_key(k) implies exists|i: int|
            0 <= i < s.len() && (#[trigger] s[i].id()) == k by {
            if k == s.last().id() {
                assert(s[s.len() - 1].id() == k);
            } else {
                let i = choose|i: int| 0 <= i < s.drop_last().len() && (#[trigger] s.drop_last()[i].id()) == k;
                assert(s[i].id() == k);
            }
        }
        assert forall|k: Seq<char>| (exists|i: int|
            0 <= i < s.len() && (#[trigger] s[i].id()) == k) implies #[trigger] packages_map(
            s,
        ).contains_key(k) by {
            let i = choose|i: int| 0 <= i < s.len() && (#[trigger] s[i].id()) == k;
            if i < s.len() - 1 {
                assert(s.drop_last()[i].id() == k);
            }
        }
    }
}

/// With distinct identifiers, the map stores each list entry under its
/// identifier.
pub proof fn lemma_map_index(s: Seq<PackageView>, i: int)
    requires
        ids_distinct(s),
        0 <= i < s.len(),
    ensures
        packages_map(s).contains_key(s[i].id()),
        packages_map(s)[s[i].id()] == s[i],
    decreases s.len(),
{
    lemma_map_domain(s);
    if i == s.len() - 1 {
    } else {
        assert(ids_distinct(s.drop_last()));
        assert(s.drop_last()[i] == s[i]);
        lemma_map_index(s.drop_last(), i);
        assert(s[i].id() != s.last().id());
    }
}

/// With distinct identifiers, the map holds exactly as many entries as the
/// list.
pub proof fn lemma_map_len(s: Seq<PackageView>)
    requires
        ids_distinct(s),
    ensures
        packages_map(s).dom().len() == s.len(),
    decreases s.len(),
{
    lemma_map_domain(s);
    if s.len() > 0 {
        assert(ids_distinct(s.drop_last()));
        lemma_map_len(s.drop_last());
        lemma_map_domain(s.drop_last());
        assert(!packages_map(s.drop_last()).contains_key(s.last().id())) by {
            if packages_map(s.drop_last()).contains_key(s.last().id()) {
                let i = choose|i: int|
                    0 <= i < s.drop_last().len() && (#[trigger] s.drop_last()[i].id())
                        == s.last().id();
                assert(s[i].id() == s[s.len() - 1].id());
            }
        }
        vstd::set::axiom_set_insert_len(packages_map(s.drop_last()).dom(), s.last().id());
        assert(packages_map(s).dom() =~= packages_map(s.drop_last()).dom().insert(s.last().id()));
    }
}

/// With distinct identifiers, removing list entry `i` removes exactly its
/// key from the map.
pub proof fn lemma_map_remove(s: Seq<PackageView>, i: int)
    requires
        ids_distinct(s),
        0 <= i < s.len(),
    ensures
        packages_map(s.remove(i)) =~= packages_map(s).remove(s[i].id()),
    decreases s.len(),
{
    lemma_map_domain(s);
    lemma_map_domain(s.remove(i));
    if i == s.len() - 1 {
        assert(s.remove(i) =~= s.drop_last());
        assert(!packages_map(s.drop_last()).contains_key(s.last().id())) by {
            lemma_map_domain(s.drop_last());
            if packages_map(s.drop_last()).contains_key(s.last().id()) {
                let j = choose|j: int|
                    0 <= j < s.drop_last().len() && (#[trigger] s.drop_last()[j].id())
                        == s.last().id();
                assert(s[j].id() == s[s.len() - 1].id());
            }
        }
        assert(packages_map(s.drop_last()) =~= packages_map(s).remove(s[i].id()));
    } else {
        assert(ids_distinct(s.drop_last()));
        lemma_map_remove(s.drop_last(), i);
        assert(s.remove(i).drop_last() =~= s.drop_last().remove(i));
        assert(s.remove(i).last() == s.last());
        assert(s[i].id() != s.last().id());
        assert(packages_map(s.remove(i)) == packages_map(s.drop_last().remove(i)).insert(
            s.last().id(),
            s.last(),
        ));
        assert(packages_map(s.remove(i)) =~= packages_map(s).remove(s[i].id()));
    }
}

/// Errors of registry operations: registration clashes, lookups of
/// unregistered identifiers, and failures of the graph algorithms.
#[derive(Debug)]
pub enum Error {
    /// The package is already in the registry.
    AlreadyRegistered {
        /// The identifier registered twice.
        id: Id,
    },
    /// No package with this identifier is registered.
    NotFound {
        /// The identifier that was looked up.
        id: Id,
    },
    /// A dependency cycle runs through this identifier.
    CircularDependency {
        /// The identifier on the cycle.
        id: Id,
    },
    /// Packages are registered that the build root does not depend on.
    OrphanedPackages,
    /// A dependency on this package is declared already, with a different
    /// version requirement.
    DependencyConflict {
        /// The package whose dependency was already declared.
        id: Id,
    },
    /// A declared version requirement does not admit the registered
    /// version of its target.
    IncompatibleVersion {
        /// The package in whose dependency closure the requirement is
        /// declared.
        dependent: Id,
        /// The package whose registered version falls outside the
        /// requirement.
        id: Id,
        /// The declared requirement.
        required: VersionReq,
        /// The version actually registered.
        actual: Version,
    },
}

/// A package registry. This is an arena of packages.
#[derive(Debug)]
pub struct Registry {
    packages: Vec<Package>,
}

impl View for Registry {
    type V = RegMap;

    closed spec fn view(&self) -> RegMap {
        packages_map(pkg_views(self.packages@))
    }
}

impl Registry {
    /// Whether the registry is well formed: pairwise distinct identifiers
    /// and well-formed manifests.
    pub closed spec fn wf(self) -> bool {
        &&& ids_distinct(pkg_views(self.packages@))
        &&& forall|i: int|
            0 <= i < self.packages@.len() ==> deps_wf(
                (#[trigger] pkg_views(self.packages@)[i]).manifest.dependencies,
            )
    }

    /// What well-formedness means for the registry's value: every package
    /// is stored under its own identifier, with a well-formed manifest,
    /// and there are finitely many.
    pub proof fn lemma_wf_facts(self)
        requires
            self.wf(),
        ensures
            self@.dom().finite(),
            forall|k: Seq<char>|
                #[trigger] self@.contains_key(k) ==> self@[k].id() == k && deps_wf(
                    self@[k].manifest.dependencies,
                ),
    {
        let s = pkg_views(self.packages@);
        lemma_map_domain(s);
        assert forall|k: Seq<char>| #[trigger] self@.contains_key(k) implies self@[k].id() == k
            && deps_wf(self@[k].manifest.dependencies) by {
            let i = choose|i: int| 0 <= i < s.len() && (#[trigger] s[i].id()) == k;
            lemma_map_index(s, i);
        }
    }

    /// Create a new, empty registry.
    pub fn new() -> (r: Registry)
        ensures
            r@ == RegMap::empty(),
            r.wf(),
    {
        let r = Registry { packages: Vec::new() };
        proof {
            assert(pkg_views(r.packages@) =~= Seq::<PackageView>::empty());
        }
        r
    }

    /// The index at which the package with this identifier is stored.
    fn find_index(&self, id: &Id) -> (r: Option<usize>)
        ensures
            match r {
                Some(i) => i < self.packages@.len() && pkg_views(self.packages@)[i as int].id()
                    == id@,
                None => forall|i: int|
                    0 <= i < self.packages@.len() ==> (#[trigger] pkg_views(
                        self.packages@,
                    )[i]).id() != id@,
            },
    {
        let n = self.packages.len();
        let mut i: usize = 0;
        while i < n
            invariant
                i <= n,
                n == self.packages@.len(),
                forall|j: int|
                    0 <= j < i ==> (#[trigger] pkg_views(self.packages@)[j]).id() != id@,
            decreases n - i,
        {
            if self.packages[i].id().eq(id) {
                return Some(i);
            }
            i = i + 1;
        }
        None
    }

    /// Add a package to the registry. Fails, changing nothing, when a
    /// package with the same identifier is registered already. Returns the
    /// package's ID so it can be used to refer to the package.
    pub fn register(&mut self, package: Package) -> (r: Result<Id, Error>)
        requires
            old(self).wf(),
            package.wf(),
        ensures
            final(self).wf(),
            match r {
                Ok(id) => {
                    &&& id@ == package@.id()
                    &&& !old(self)@.contains_key(package@.id())
                    &&& final(self)@ == old(self)@.insert(package@.id(), package@)
                },
                Err(e) => {
                    &&& e matches Error::AlreadyRegistered { id } && id@ == package@.id()
                    &&& old(self)@.contains_key(package@.id())
                    &&& final(self)@ == old(self)@
                },
            },
    {
        let ghost s = pkg_views(self.packages@);
        proof {
            lemma_map_domain(s);
        }
        match self.find_index(package.id()) {
            Some(_) => Err(Error::AlreadyRegistered { id: package.id().clone() }),
            None => {
                let id = package.id().clone();
                self.packages.push(package);
                proof {
                    let s2 = pkg_views(self.packages@);
                    assert(s2.drop_last() =~= s);
                    assert(s2.last().id() == id@);
                    assert(final(self)@ == old(self)@.insert(id@, s2.last()));
                    assert forall|i: int, j: int| 0 <= i < j < s2.len() implies (
                    #[trigger] s2[i].id()) != (#[trigger] s2[j].id()) by {
                        if j == s2.len() - 1 {
                            assert(s[i].id() != id@);
                        } else {
                            assert(s[i].id() != s[j].id());
                        }
                    }
                    assert forall|i: int| 0 <= i < s2.len() implies deps_wf(
                        (#[trigger] s2[i]).manifest.dependencies,
                    ) by {
                        if i < s2.len() - 1 {
                            assert(deps_wf(s[i].manifest.dependencies));
                        }
                    }
                }
                Ok(id)
            },
        }
    }

    /// Remove a package from the registry and hand it back. Fails when no
    /// package with this identifier is registered.
    pub fn take(&mut self, id: &Id) -> (r: Result<Package, Error>)
        requires
            old(self).wf(),
        ensures
            final(self).wf(),
            match r {
                Ok(p) => {
                    &&& old(self)@.contains_key(id@)
                    &&& p@ == old(self)@[id@]
                    &&& p.wf()
                    &&& final(self)@ == old(self)@.remove(id@)
                },
                Err(e) => {
                    &&& e matches Error::NotFound { id: e_id } && e_id@ == id@
                    &&& !old(self)@.contains_key(id@)
                    &&& final(self)@ == old(self)@
                },
            },
    {
        let ghost s = pkg_views(self.packages@);
        proof {
            lemma_map_domain(s);
        }
        match self.find_index(id) {
            Some(i) => {
                proof {
                    lemma_map_index(s, i as int);
                    lemma_map_remove(s, i as int);
                }
                let p = self.packages.remove(i);
                proof {
                    assert(pkg_views(self.packages@) =~= s.remove(i as int));
                }
                Ok(p)
            },
            None => Err(Error::NotFound { id: id.clone() }),
        }
    }

    /// Get a package by ID.
    pub fn get(&self, id: &Id) -> (r: Option<&Package>)
        requires
            self.wf(),
        ensures
            match r {
                Some(p) => self@.contains_key(id@) && p@ == self@[id@] && p.wf(),
                None => !self@.contains_key(id@),
            },
    {
        let ghost s = pkg_views(self.packages@);
        proof {
            lemma_map_domain(s);
        }
        match self.find_index(id) {
            Some(i) => {
                proof {
                    lemma_map_index(s, i as int);
                }
                Some(&self.packages[i])
            },
            None => None,
        }
    }

    /// Get a package by ID, or return an error if it is not in the
    /// registry.
    pub fn get_or_error(&self, id: &Id) -> (r: Result<&Package, Error>)
        requires
            self.wf(),
        ensures
            match r {
                Ok(p) => self@.contains_key(id@) && p@ == self@[id@] && p.wf(),
                Err(e) => {
                    &&& e matches Error::NotFound { id: e_id } && e_id@ == id@
                    &&& !self@.contains_key(id@)
                },
            },
    {
        match self.get(id) {
            Some(p) => Ok(p),
            None => Err(Error::NotFound { id: id.clone() }),
        }
    }

    /// Returns true if the registry contains a package with the given ID.
    pub fn has(&self, id: &Id) -> (r: bool)
        requires
            self.wf(),
        ensures
            r == self@.contains_key(id@),
    {
        match self.get(id) {
            Some(_) => true,
            None => false,
        }
    }

    /// The IDs of the packages in the registry, in registration order.
    pub fn package_ids(&self) -> (r: Vec<Id>)
        requires
            self.wf(),
        ensures
            id_texts(r@).no_duplicates(),
            forall|i: int| 0 <= i < r@.len() ==> self@.contains_key(#[trigger] id_texts(r@)[i]),
            forall|k: Seq<char>| #[trigger] self@.contains_key(k) ==> id_texts(r@).contains(k),
            r@.len() == self@.dom().len(),
    {
        let ghost s = pkg_views(self.packages@);
        proof {
            lemma_map_domain(s);
            lemma_map_len(s);
        }
        let n = self.packages.len();
        let mut out: Vec<Id> = Vec::new();
        let mut i: usize = 0;
        while i < n
            invariant
                i <= n,
                n == self.packages@.len(),
                out@.len() == i,
                forall|j: int| 0 <= j < i ==> (#[trigger] out@[j])@ == s[j].id(),
            decreases n - i,
        {
            out.push(self.packages[i].id().clone());
            i = i + 1;
        }
        proof {
            assert forall|j: int| 0 <= j < out@.len() implies #[trigger] id_texts(out@)[j] == s[j].id() by {
                assert(out@[j]@ == s[j].id());
            }
            assert forall|k: Seq<char>| #[trigger] self@.contains_key(k) implies id_texts(
                out@,
            ).contains(k) by {
                let j = choose|j: int| 0 <= j < s.len() && (#[trigger] s[j].id()) == k;
                assert(id_texts(out@)[j] == k);
            }
            assert forall|i1: int, j1: int| 0 <= i1 < j1 < out@.len() implies (#[trigger] id_texts(
                out@,
            )[i1]) != (#[trigger] id_texts(out@)[j1]) by {
                assert(s[i1].id() != s[j1].id());
            }
        }
        out
    }
}

} // verus!

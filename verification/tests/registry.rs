//! Registry and dependency-graph behaviour.

use merlon::id::Id;
use merlon::manifest::Dependency;
use merlon::manifest::dep_eq;
use merlon::name::Name;
use merlon::package::Package;
use merlon::registry::Error;
use merlon::registry::Registry;
use merlon::version::Comparator;
use merlon::version::Op;
use merlon::version::Version;
use merlon::version::VersionReq;

fn name(s: &str) -> Name {
    Name::new(s.to_string()).unwrap()
}

fn package(n: &str, path: &str) -> Package {
    Package::new(name(n), path.to_string(), "Test Author <test@example.com>".to_string()).unwrap()
}

fn dep_of(registry: &Registry, id: &Id) -> Dependency {
    Dependency::from_metadata(registry.get_or_error(id).unwrap().manifest().metadata())
}

fn deps_equal(actual: &[Dependency], expected: &[Dependency]) -> bool {
    actual.len() == expected.len()
        && expected.iter().all(|e| actual.iter().any(|a| dep_eq(a, e)))
}

#[test]
fn dependency_graph() {
    let mut registry = Registry::new();

    // Create a graph of four packages: Base, A, B, and C.
    let base = Package::new(name("Base"), "base.merlon".to_string(), "t".to_string()).unwrap();
    let a = Package::new(name("A"), "a.merlon".to_string(), "t".to_string()).unwrap();
    let b = Package::new(name("B"), "b.merlon".to_string(), "t".to_string()).unwrap();
    let c = Package::new(name("C"), "c.merlon".to_string(), "t".to_string()).unwrap();
    let base = registry.register(base).unwrap();
    let a = registry.register(a).unwrap();
    let b = registry.register(b).unwrap();
    let c = registry.register(c).unwrap();

    // Both A and B directly depend on C.
    registry.add_direct_dependency(&a, &b).unwrap();
    registry.add_direct_dependency(&b, &c).unwrap();

    // All depend directly on base.
    for parent in [&a, &b, &c] {
        registry.add_direct_dependency(parent, &base).unwrap();
    }

    let base_as_dep = dep_of(&registry, &base);
    let b_as_dep = dep_of(&registry, &b);
    let c_as_dep = dep_of(&registry, &c);

    // Assert A depends on B, C, and base only.
    let deps = registry.get_dependencies(&a).unwrap();
    assert!(deps_equal(
        &deps,
        &[b_as_dep.clone(), c_as_dep.clone(), base_as_dep.clone()],
    ));

    // Assert B depends on C and base only.
    let deps = registry.get_dependencies(&b).unwrap();
    assert!(deps_equal(&deps, &[c_as_dep.clone(), base_as_dep.clone()]));

    // Assert C depends on base only.
    let deps = registry.get_dependencies(&c).unwrap();
    assert!(deps_equal(&deps, &[base_as_dep.clone()]));

    // Assert base has no dependencies.
    let base_deps = registry.get_dependencies(&base).unwrap();
    assert!(base_deps.is_empty());

    // If we update base's major version, it should become incompatible.
    registry.check_version_compatibility().unwrap();
    let mut base_pkg = registry.take(&base).unwrap();
    base_pkg.set_version(Version::new(2, 0, 0));
    registry.register(base_pkg).unwrap();
    assert!(registry.check_version_compatibility().is_err());

    // Topological ordering.
    let sorted = registry.topological_ordering().unwrap();
    let sorted_texts: Vec<&str> = sorted.iter().map(|i| i.as_str()).collect();
    assert_eq!(
        sorted_texts,
        vec![base.as_str(), c.as_str(), b.as_str(), a.as_str()],
    );

    // Add an orphan package that nothing depends on.
    assert!(registry.get_orphans(&a).unwrap().is_empty());
    let orphan = package("Orphan", "orphan.merlon");
    let orphan = registry.register(orphan).unwrap();
    let sorted = registry.topological_ordering().unwrap();
    assert!(
        sorted[sorted.len() - 2] == orphan || sorted[sorted.len() - 1] == orphan
    );
    let orphans = registry.get_orphans(&a).unwrap();
    assert_eq!(orphans.len(), 1);
    assert!(orphans[0] == orphan);
    let removed = registry.delete_orphans(&a).unwrap();
    assert_eq!(removed.len(), 1);
    assert_eq!(removed[0].path(), "orphan.merlon");
    assert!(!registry.has(&orphan));

    // Add a circular dependency.
    registry.add_direct_dependency(&c, &a).unwrap();
    assert!(registry.topological_ordering().is_err());
}

#[test]
fn registering_same_id_twice_fails_and_changes_nothing() {
    let mut registry = Registry::new();
    let first = package("Base", "base-one");
    let second = package("Base", "base-two");
    let id = registry.register(first).unwrap();
    let err = registry.register(second).unwrap_err();
    assert!(matches!(err, Error::AlreadyRegistered { .. }));
    // The registry still holds exactly the first package, unchanged.
    assert_eq!(registry.package_ids().len(), 1);
    assert_eq!(registry.get_or_error(&id).unwrap().path(), "base-one");
}

#[test]
fn transitive_closure_of_diamond() {
    // Root -> {A, B}, A -> Shared, B -> Shared.
    let mut registry = Registry::new();
    let root = registry.register(package("Root", "root")).unwrap();
    let a = registry.register(package("Mod A", "a")).unwrap();
    let b = registry.register(package("Mod B", "b")).unwrap();
    let shared = registry.register(package("Shared", "shared")).unwrap();
    registry.add_direct_dependency(&root, &a).unwrap();
    registry.add_direct_dependency(&root, &b).unwrap();
    registry.add_direct_dependency(&a, &shared).unwrap();
    registry.add_direct_dependency(&b, &shared).unwrap();

    let a_dep = dep_of(&registry, &a);
    let b_dep = dep_of(&registry, &b);
    let shared_dep = dep_of(&registry, &shared);

    let deps = registry.get_dependencies(&root).unwrap();
    assert!(deps_equal(&deps, &[a_dep, b_dep, shared_dep.clone()]));

    let deps = registry.get_dependencies(&a).unwrap();
    assert!(deps_equal(&deps, &[shared_dep]));

    let deps = registry.get_dependencies(&shared).unwrap();
    assert!(deps.is_empty());

    assert!(registry.has_dependency(&root, &shared).unwrap());
    assert!(!registry.has_dependency(&shared, &root).unwrap());
}

#[test]
fn closing_a_cycle_fails_ordering_and_closure() {
    // The diamond again, then Shared -> Root closes a cycle.
    let mut registry = Registry::new();
    let root = registry.register(package("Root", "root")).unwrap();
    let a = registry.register(package("Mod A", "a")).unwrap();
    let b = registry.register(package("Mod B", "b")).unwrap();
    let shared = registry.register(package("Shared", "shared")).unwrap();
    registry.add_direct_dependency(&root, &a).unwrap();
    registry.add_direct_dependency(&root, &b).unwrap();
    registry.add_direct_dependency(&a, &shared).unwrap();
    registry.add_direct_dependency(&b, &shared).unwrap();
    assert!(registry.topological_ordering().is_ok());

    registry.add_direct_dependency(&shared, &root).unwrap();
    let err = registry.topological_ordering().unwrap_err();
    assert!(matches!(err, Error::CircularDependency { .. }));
    // Every node on the cycle fails closure computation too.
    assert!(registry.get_dependencies(&root).is_err());
    assert!(registry.get_dependencies(&a).is_err());
    assert!(registry.get_dependencies(&shared).is_err());
    // B is on the cycle as well (Root -> B -> Shared -> Root).
    assert!(registry.get_dependencies(&b).is_err());
    assert!(registry.calc_dependency_patch_order(&root).is_err());
}

#[test]
fn topological_order_is_a_linearization_and_deterministic() {
    let mut registry = Registry::new();
    let root = registry.register(package("Root", "root")).unwrap();
    let a = registry.register(package("Mod A", "a")).unwrap();
    let b = registry.register(package("Mod B", "b")).unwrap();
    let shared = registry.register(package("Shared", "shared")).unwrap();
    registry.add_direct_dependency(&root, &a).unwrap();
    registry.add_direct_dependency(&root, &b).unwrap();
    registry.add_direct_dependency(&a, &shared).unwrap();
    registry.add_direct_dependency(&b, &shared).unwrap();

    let order = registry.topological_ordering().unwrap();
    let index = |id: &Id| order.iter().position(|x| x == id).unwrap();
    // x depends on y implies index(y) < index(x).
    assert!(index(&a) < index(&root));
    assert!(index(&b) < index(&root));
    assert!(index(&shared) < index(&a));
    assert!(index(&shared) < index(&b));
    assert_eq!(order.len(), 4);

    // Repeated calls on an unchanged registry yield the same sequence.
    let again = registry.topological_ordering().unwrap();
    assert_eq!(order.len(), again.len());
    for (x, y) in order.iter().zip(again.iter()) {
        assert!(x == y);
    }

    // The patch order ends on the root.
    let patch_order = registry.calc_dependency_patch_order(&root).unwrap();
    assert!(patch_order.last().unwrap() == &root);
}

#[test]
fn independent_packages_order_by_identifier() {
    // No edges at all: the ordering falls back entirely to the
    // identifiers' own order.
    let mut registry = Registry::new();
    registry.register(package("Cherry", "c")).unwrap();
    registry.register(package("Apple", "a")).unwrap();
    registry.register(package("Banana", "b")).unwrap();
    let order = registry.topological_ordering().unwrap();
    let texts: Vec<&str> = order.iter().map(|i| i.as_str()).collect();
    assert_eq!(texts, vec!["apple", "banana", "cherry"]);
}

#[test]
fn orphan_is_reported_and_deleted() {
    let mut registry = Registry::new();
    let root = registry.register(package("Root", "root")).unwrap();
    let dep = registry.register(package("Dep", "dep")).unwrap();
    let stray = registry.register(package("Stray", "stray-dir")).unwrap();
    registry.add_direct_dependency(&root, &dep).unwrap();

    let orphans = registry.get_orphans(&root).unwrap();
    assert_eq!(orphans.len(), 1);
    assert!(orphans[0] == stray);

    let removed = registry.delete_orphans(&root).unwrap();
    assert_eq!(removed.len(), 1);
    assert_eq!(removed[0].path(), "stray-dir");
    assert!(!registry.has(&stray));
    assert!(registry.has(&root));
    assert!(registry.has(&dep));
    assert!(registry.get_orphans(&root).unwrap().is_empty());
}

#[test]
fn patch_order_refuses_orphans() {
    let mut registry = Registry::new();
    let root = registry.register(package("Root", "root")).unwrap();
    let _stray = registry.register(package("Stray", "stray")).unwrap();
    let err = registry.calc_dependency_patch_order(&root).unwrap_err();
    assert!(matches!(err, Error::OrphanedPackages));
}

#[test]
fn version_compatibility_follows_caret_range() {
    let mut registry = Registry::new();
    let root = registry.register(package("Root", "root")).unwrap();
    let base = registry.register(package("Base", "base")).unwrap();

    // Root depends on Base ^1.0.0.
    let caret = VersionReq {
        comparators: vec![Comparator { op: Op::Caret, major: 1, minor: Some(0), patch: Some(0) }],
    };
    let mut root_pkg = registry.take(&root).unwrap();
    root_pkg
        .declare_direct_dependency(Dependency::Package { id: base.clone(), version: caret })
        .unwrap();
    registry.register(root_pkg).unwrap();

    // Base starts at 0.1.0, which ^1.0.0 does not admit.
    assert!(registry.check_version_compatibility().is_err());

    // At 1.4.2 the requirement is met.
    let mut base_pkg = registry.take(&base).unwrap();
    base_pkg.set_version(Version::new(1, 4, 2));
    registry.register(base_pkg).unwrap();
    registry.check_version_compatibility().unwrap();

    // At 2.0.0 it fails again, naming the incompatible package.
    let mut base_pkg = registry.take(&base).unwrap();
    base_pkg.set_version(Version::new(2, 0, 0));
    registry.register(base_pkg).unwrap();
    let err = registry.check_version_compatibility().unwrap_err();
    match err {
        Error::IncompatibleVersion { dependent, id, required, actual } => {
            assert!(dependent == root);
            assert!(id == base);
            assert_eq!(required.comparators.len(), 1);
            assert!(matches!(required.comparators[0].op, Op::Caret));
            assert_eq!(actual, Version::new(2, 0, 0));
        }
        other => panic!("unexpected error: {:?}", other),
    }
}

#[test]
fn cycle_errors_name_an_offending_id() {
    // a -> b -> a: both errors name an identifier caught up in the cycle.
    let mut registry = Registry::new();
    let a = registry.register(package("Aleph", "a")).unwrap();
    let b = registry.register(package("Beth", "b")).unwrap();
    registry.add_direct_dependency(&a, &b).unwrap();
    registry.add_direct_dependency(&b, &a).unwrap();
    match registry.topological_ordering().unwrap_err() {
        Error::CircularDependency { id } => assert!(id == a || id == b),
        other => panic!("unexpected error: {:?}", other),
    }
    match registry.get_dependencies(&a).unwrap_err() {
        Error::CircularDependency { id } => assert!(id == a),
        other => panic!("unexpected error: {:?}", other),
    }
}

#[test]
fn manifest_well_formedness_is_decidable() {
    let manifest = merlon::manifest::Manifest::new(
        Name::new("Root".to_string()).unwrap(),
        "t".to_string(),
    )
    .unwrap();
    assert!(manifest.check_wf());
    // A hand-assembled list with two pins on the base tree is rejected.
    let metadata = manifest.metadata().clone();
    let bad = merlon::manifest::Manifest::from_parts(
        metadata,
        vec![
            Dependency::Decomp { rev: "aaa".to_string() },
            Dependency::Decomp { rev: "bbb".to_string() },
        ],
    );
    assert!(!bad.check_wf());
    // So is one declaring the same package twice.
    let metadata = manifest.metadata().clone();
    let dup = merlon::manifest::Manifest::from_parts(
        metadata,
        vec![
            Dependency::Package {
                id: Id::from_str("dup-dep").unwrap(),
                version: VersionReq { comparators: vec![] },
            },
            Dependency::Package {
                id: Id::from_str("dup-dep").unwrap(),
                version: VersionReq { comparators: vec![] },
            },
        ],
    );
    assert!(!dup.check_wf());
}

#[test]
fn unregistered_lookup_gives_not_found() {
    let registry = Registry::new();
    let ghost = Id::from_str("never-registered").unwrap();
    let err = registry.get_or_error(&ghost).unwrap_err();
    assert!(matches!(err, Error::NotFound { .. }));
    assert!(registry.get(&ghost).is_none());
    assert!(!registry.has(&ghost));
    assert!(registry.get_dependencies(&ghost).is_err());
}

#[test]
fn dependency_on_unregistered_package_fails_closure() {
    let mut registry = Registry::new();
    let root = registry.register(package("Root", "root")).unwrap();
    let mut root_pkg = registry.take(&root).unwrap();
    let missing = Id::from_str("missing-dep").unwrap();
    root_pkg
        .declare_direct_dependency(Dependency::Package {
            id: missing,
            version: merlon::version::VersionReq { comparators: vec![] },
        })
        .unwrap();
    registry.register(root_pkg).unwrap();
    let err = registry.get_dependencies(&root).unwrap_err();
    assert!(matches!(err, Error::NotFound { .. }));
}

#[test]
fn conflicting_redeclaration_is_rejected() {
    let mut registry = Registry::new();
    let root = registry.register(package("Root", "root")).unwrap();
    let base = registry.register(package("Base", "base")).unwrap();
    // First declaration goes through; the registry's own tilde requirement
    // matches it, so a second add succeeds idempotently.
    registry.add_direct_dependency(&root, &base).unwrap();
    registry.add_direct_dependency(&root, &base).unwrap();
    // Bumping Base's version makes the recorded requirement conflict.
    let mut base_pkg = registry.take(&base).unwrap();
    base_pkg.set_version(Version::new(0, 2, 0));
    registry.register(base_pkg).unwrap();
    let err = registry.add_direct_dependency(&root, &base).unwrap_err();
    assert!(matches!(err, Error::DependencyConflict { .. }));
    // The root's manifest still holds exactly one dependency.
    assert_eq!(
        registry.get_direct_dependencies(&root).unwrap().len(),
        1
    );
}

#[test]
fn package_version_map_lists_every_package() {
    let mut registry = Registry::new();
    let root = registry.register(package("Root", "root")).unwrap();
    let base = registry.register(package("Base", "base")).unwrap();
    let map = registry.package_version_map();
    assert_eq!(map.len(), 2);
    for (id, version) in &map {
        assert!(id == &root || id == &base);
        assert_eq!(*version, Version::new(0, 1, 0));
    }
}

#[test]
fn all_dependencies_unions_every_closure() {
    let mut registry = Registry::new();
    let root = registry.register(package("Root", "root")).unwrap();
    let dep = registry.register(package("Dep", "dep")).unwrap();
    registry.add_direct_dependency(&root, &dep).unwrap();
    let all = registry.all_dependencies().unwrap();
    assert_eq!(all.len(), 1);
    let expected = dep_of(&registry, &dep);
    assert!(dep_eq(&all[0], &expected));
}

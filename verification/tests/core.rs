//! Identifiers, names, versions, manifests, metadata validation, text
//! ordering, and ROM digests.

use merlon::id::Error as IdError;
use merlon::id::Id;
use merlon::manifest::Dependency;
use merlon::manifest::Manifest;
use merlon::manifest::Metadata;
use merlon::manifest::dep_eq;
use merlon::name::Error as NameError;
use merlon::name::Name;
use merlon::version::Comparator;
use merlon::version::Op;
use merlon::version::Version;
use merlon::version::VersionReq;

fn name(s: &str) -> Name {
    Name::new(s.to_string()).unwrap()
}

#[test]
fn id_validation() {
    assert_eq!(Id::from_str("skip-intro-logos").unwrap().as_str(), "skip-intro-logos");
    assert!(matches!(Id::from_str("ab"), Err(IdError::TooShort)));
    assert!(matches!(Id::from_str(""), Err(IdError::TooShort)));
    assert!(matches!(Id::from_str("Has-Upper"), Err(IdError::NotKebabCase)));
    assert!(matches!(Id::from_str("under_score"), Err(IdError::NotKebabCase)));
    assert!(matches!(Id::from_str("-leading"), Err(IdError::NotKebabCase)));
    assert!(matches!(Id::from_str("trailing-"), Err(IdError::NotKebabCase)));
    assert!(matches!(Id::from_str("double--hyphen"), Err(IdError::NotKebabCase)));
    let long = "a".repeat(65);
    assert!(matches!(Id::from_str(&long), Err(IdError::TooLong)));
    let just_right = "a".repeat(64);
    assert!(Id::from_str(&just_right).is_ok());
}

#[test]
fn id_generated_from_name() {
    let id = Id::generate_for_package_name(&name("Skip Intro Logos")).unwrap();
    assert_eq!(id.as_str(), "skip-intro-logos");
    // A too-short kebab form gets the fallback prefix.
    let id = Id::generate_for_package_name(&name("A")).unwrap();
    assert_eq!(id.as_str(), "merlon-a");
}

#[test]
fn name_validation() {
    assert_eq!(name("My Mod").as_str(), "My Mod");
    assert!(matches!(Name::new("".to_string()), Err(NameError::Empty)));
    assert!(matches!(Name::new("a/b".to_string()), Err(NameError::ContainsSlash)));
    assert!(matches!(Name::new("a\nb".to_string()), Err(NameError::ContainsNewline)));
}

#[test]
fn kebab_case_of_name() {
    assert_eq!(name("Skip Intro Logos").as_kebab_case(), "skip-intro-logos");
    assert_eq!(name("DepA").as_kebab_case(), "dep-a");
}

#[test]
fn version_requirement_matching() {
    let caret = VersionReq {
        comparators: vec![Comparator { op: Op::Caret, major: 1, minor: Some(0), patch: Some(0) }],
    };
    assert!(caret.matches(&Version::new(1, 0, 0)));
    assert!(caret.matches(&Version::new(1, 9, 3)));
    assert!(!caret.matches(&Version::new(2, 0, 0)));
    assert!(!caret.matches(&Version::new(0, 9, 9)));

    let tilde = VersionReq::tilde(&Version::new(1, 2, 3));
    assert!(tilde.matches(&Version::new(1, 2, 3)));
    assert!(tilde.matches(&Version::new(1, 2, 9)));
    assert!(!tilde.matches(&Version::new(1, 3, 0)));

    let exact = VersionReq::exact(&Version::new(1, 2, 3));
    assert!(exact.matches(&Version::new(1, 2, 3)));
    assert!(!exact.matches(&Version::new(1, 2, 4)));

    // An empty requirement admits everything.
    let star = VersionReq { comparators: vec![] };
    assert!(star.matches(&Version::new(7, 7, 7)));

    // Caret with a zero major pins the minor.
    let zero_caret = VersionReq {
        comparators: vec![Comparator { op: Op::Caret, major: 0, minor: Some(1), patch: Some(0) }],
    };
    assert!(zero_caret.matches(&Version::new(0, 1, 5)));
    assert!(!zero_caret.matches(&Version::new(0, 2, 0)));
}

#[test]
fn fresh_manifest_contents() {
    let manifest = Manifest::new(name("My Mod"), "An Author <author@example.com>".to_string())
        .unwrap();
    let metadata = manifest.metadata();
    assert_eq!(metadata.id().as_str(), "my-mod");
    assert_eq!(metadata.name().as_str(), "My Mod");
    assert_eq!(*metadata.version(), Version::new(0, 1, 0));
    assert_eq!(metadata.description(), "An amazing mod");
    assert_eq!(metadata.authors().len(), 1);
    assert!(manifest.iter_direct_dependencies().is_empty());
    assert!(!manifest.has_direct_decomp_dependency());
    assert!(metadata.is_valid());
}

#[test]
fn declare_dependency_rules() {
    let mut manifest = Manifest::new(name("Root"), "t".to_string()).unwrap();
    let dep_id = Id::from_str("some-dep").unwrap();
    let req_one = VersionReq::tilde(&Version::new(1, 0, 0));
    let req_two = VersionReq::tilde(&Version::new(2, 0, 0));

    // New dependency: appended.
    manifest
        .declare_direct_dependency(Dependency::Package { id: dep_id.clone(), version: req_one })
        .unwrap();
    assert_eq!(manifest.iter_direct_dependencies().len(), 1);

    // Same id, same requirement: idempotent.
    let req_one_again = VersionReq::tilde(&Version::new(1, 0, 0));
    manifest
        .declare_direct_dependency(Dependency::Package {
            id: dep_id.clone(),
            version: req_one_again,
        })
        .unwrap();
    assert_eq!(manifest.iter_direct_dependencies().len(), 1);

    // Same id, different requirement: a conflict naming the id.
    let err = manifest
        .declare_direct_dependency(Dependency::Package { id: dep_id.clone(), version: req_two })
        .unwrap_err();
    assert!(err.id == dep_id);
    assert_eq!(manifest.iter_direct_dependencies().len(), 1);
}

#[test]
fn decomp_dependency_upserts() {
    let mut manifest = Manifest::new(name("Root"), "t".to_string()).unwrap();
    assert!(manifest.get_direct_decomp_dependency_rev().is_none());

    manifest.upsert_decomp_dependency("abc123".to_string());
    assert!(manifest.has_direct_decomp_dependency());
    assert_eq!(manifest.get_direct_decomp_dependency_rev().unwrap(), "abc123");

    // Re-declaring replaces the revision in place rather than erroring.
    manifest
        .declare_direct_dependency(Dependency::Decomp { rev: "def456".to_string() })
        .unwrap();
    assert_eq!(manifest.get_direct_decomp_dependency_rev().unwrap(), "def456");
    assert_eq!(manifest.iter_direct_dependencies().len(), 1);
}

#[test]
fn metadata_validation_messages() {
    let metadata = Metadata::new(
        Id::from_str("bad-metadata").unwrap(),
        name("Bad"),
        Version::new(1, 0, 0),
        vec![],
        "".to_string(),
        "".to_string(),
        vec!["qol".to_string(), "nonsense".to_string()],
    );
    let errors = metadata.validate();
    assert_eq!(errors.len(), 4);
    assert_eq!(errors[0], "authors cannot be empty");
    assert_eq!(errors[1], "description cannot be empty");
    assert_eq!(errors[2], "license cannot be empty");
    assert_eq!(
        errors[3],
        "invalid keyword: nonsense (valid keywords: qol, cheat, bugfix, cosmetic, feature)"
    );
    assert!(!metadata.is_valid());

    let long_description = "x".repeat(101);
    let metadata = Metadata::new(
        Id::from_str("long-desc").unwrap(),
        name("Long"),
        Version::new(1, 0, 0),
        vec!["a".to_string()],
        long_description,
        "CC-BY-SA-4.0".to_string(),
        vec![],
    );
    let errors = metadata.validate();
    assert_eq!(errors.len(), 1);
    assert_eq!(errors[0], "description must be less than 100 characters");
}

#[test]
fn dependency_equality_is_structural() {
    let a = Dependency::Package {
        id: Id::from_str("some-dep").unwrap(),
        version: VersionReq::tilde(&Version::new(1, 0, 0)),
    };
    let b = Dependency::Package {
        id: Id::from_str("some-dep").unwrap(),
        version: VersionReq::tilde(&Version::new(1, 0, 0)),
    };
    let c = Dependency::Package {
        id: Id::from_str("some-dep").unwrap(),
        version: VersionReq::tilde(&Version::new(2, 0, 0)),
    };
    let d = Dependency::Decomp { rev: "abc".to_string() };
    assert!(dep_eq(&a, &b));
    assert!(!dep_eq(&a, &c));
    assert!(!dep_eq(&a, &d));
    assert!(dep_eq(&d, &Dependency::Decomp { rev: "abc".to_string() }));
    assert!(!dep_eq(&d, &Dependency::Decomp { rev: "abd".to_string() }));
}

#[test]
fn patch_files_sort_lexicographically() {
    let files = vec![
        "0002-second.patch".to_string(),
        "notes.txt".to_string(),
        "0010-tenth.patch".to_string(),
        "0001-first.patch".to_string(),
    ];
    let ordered = merlon::package::patch_apply_order(files);
    assert_eq!(
        ordered,
        vec![
            "0001-first.patch".to_string(),
            "0002-second.patch".to_string(),
            "0010-tenth.patch".to_string(),
        ]
    );
}

#[test]
fn string_ordering_helpers() {
    assert!(merlon::text::str_lex_le("abc", "abd"));
    assert!(merlon::text::str_lex_le("abc", "abc"));
    assert!(merlon::text::str_lex_le("ab", "abc"));
    assert!(!merlon::text::str_lex_le("b", "abc"));
    assert!(merlon::text::str_has_suffix("x.patch", ".patch"));
    assert!(!merlon::text::str_has_suffix("x.patchy", ".patch"));
    assert!(merlon::text::str_eq("same", "same"));
    assert!(!merlon::text::str_eq("same", "sane"));
}

#[test]
fn sha1_digest_renders_to_known_hex() {
    // The classic SHA-1 test vector.
    let bytes: Vec<u8> = b"abc".to_vec();
    assert_eq!(
        merlon::rom::sha1_string(&bytes),
        "a9993e364706816aba3e25717850c26c9cd0d89d"
    );
    assert!(!merlon::rom::is_papermario_us(&bytes));
    assert_eq!(
        merlon::rom::papermario_us_sha1(),
        "3837f44cda784b466c9a2d99df70d77c322b97a0"
    );
}

#[test]
fn hex_rendering() {
    let bytes: Vec<u8> = vec![0x00, 0x0f, 0xa5, 0xff];
    assert_eq!(merlon::rom::to_hex(&bytes), "000fa5ff");
}

#[test]
fn package_identity() {
    let p1 = merlon::package::Package::new(
        name("Mod One"),
        "one".to_string(),
        "t".to_string(),
    )
    .unwrap();
    let p2 = merlon::package::Package::new(
        name("Mod One"),
        "two".to_string(),
        "t".to_string(),
    )
    .unwrap();
    let p3 = merlon::package::Package::new(
        name("Mod Three"),
        "three".to_string(),
        "t".to_string(),
    )
    .unwrap();
    assert!(p1.uuid_equals(&p2));
    assert!(!p1.uuid_equals(&p3));
    assert_eq!(p1.id().as_str(), "mod-one");
    assert_eq!(p1.path(), "one");
}

#[test]
fn well_known_paths() {
    let dir = merlon::mod_dir::ModDir::from_path("/work/mymod".to_string());
    assert_eq!(dir.path(), "/work/mymod");
    assert_eq!(dir.submodule_dir(), "/work/mymod/papermario");
    assert_eq!(dir.us_baserom_path(), "/work/mymod/papermario/ver/us/baserom.z64");
    assert_eq!(dir.config_path(), "/work/mymod/merlon.toml");
    let rom = merlon::baserom::Baserom::from_path("/roms/papermario.z64".to_string());
    assert_eq!(rom.path(), "/roms/papermario.z64");
    let repo = merlon::decomp_repo::LocalDecompRepo::from_path("/src/papermario".to_string());
    assert_eq!(repo.path(), "/src/papermario");
}

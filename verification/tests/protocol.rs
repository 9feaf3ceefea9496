//! The sync (branch materialization) and distribution codec protocols,
//! driven against in-memory collaborators.

use merlon::distribute::Distributable;
use merlon::distribute::DistributeError;
use merlon::distribute::OpenAction;
use merlon::distribute::OpenMachine;
use merlon::distribute::PackAction;
use merlon::distribute::PackEvent;
use merlon::distribute::PackMachine;
use merlon::init::InitialisedPackage;
use merlon::init::select_diff_base;
use merlon::name::Name;
use merlon::package::Package;
use merlon::registry::Registry;
use merlon::sync::SyncAction;
use merlon::sync::SyncEvent;

fn name(s: &str) -> Name {
    Name::new(s.to_string()).unwrap()
}

fn package(n: &str, path: &str) -> Package {
    Package::new(name(n), path.to_string(), "t".to_string()).unwrap()
}

/// An in-memory stand-in for the git working tree.
struct FakeRepo {
    branches: Vec<String>,
    current: String,
    files: Vec<String>,
    applied: Vec<String>,
}

impl FakeRepo {
    fn new() -> FakeRepo {
        FakeRepo {
            branches: vec!["main".to_string()],
            current: "main".to_string(),
            files: vec![],
            applied: vec![],
        }
    }
}

#[test]
fn sync_materializes_each_branch_in_dependency_order() {
    // Root -> {DepA, DepB}, DepA -> Shared: four packages, one synthetic
    // patch each.
    let mut registry = Registry::new();
    let root = registry.register(package("Root", "root")).unwrap();
    let dep_a = registry.register(package("DepA", "dep-a")).unwrap();
    let dep_b = registry.register(package("DepB", "dep-b")).unwrap();
    let shared = registry.register(package("SharedDep", "shared-dep")).unwrap();
    registry.add_direct_dependency(&root, &dep_a).unwrap();
    registry.add_direct_dependency(&root, &dep_b).unwrap();
    registry.add_direct_dependency(&dep_a, &shared).unwrap();

    let initialised = InitialisedPackage::from_registry(registry, root.clone()).unwrap();
    let mut machine = initialised.setup_git_branches().unwrap();

    let mut repo = FakeRepo::new();
    let mut event = SyncEvent::Start;
    let mut steps = 0;
    loop {
        steps += 1;
        assert!(steps < 100, "sync did not finish");
        let action = machine.step(event).unwrap();
        event = match action {
            SyncAction::QueryBranchExists { branch } => SyncEvent::Exists {
                yes: repo.branches.contains(&branch),
            },
            SyncAction::SaveWork => SyncEvent::Succeeded,
            SyncAction::Checkout { branch } => {
                assert!(repo.branches.contains(&branch), "checkout of a missing branch");
                repo.current = branch;
                SyncEvent::Succeeded
            }
            SyncAction::DeleteBranch { branch } => {
                repo.branches.retain(|b| b != &branch);
                SyncEvent::Succeeded
            }
            SyncAction::CreateBranch { branch } => {
                assert!(!repo.branches.contains(&branch), "branch created twice");
                repo.branches.push(branch);
                SyncEvent::Succeeded
            }
            SyncAction::ApplyPatches { id } => {
                // Each package's single synthetic patch creates one file.
                repo.files.push(format!("src/merlon_test_{}", id.as_str()));
                repo.applied.push(id.as_str().to_string());
                SyncEvent::Succeeded
            }
            SyncAction::QueryCurrentBranch => SyncEvent::CurrentBranch {
                name: repo.current.clone(),
            },
            SyncAction::Done => break,
        };
    }

    // The working tree holds a file from each of the four packages.
    assert!(repo.files.contains(&"src/merlon_test_root".to_string()));
    assert!(repo.files.contains(&"src/merlon_test_dep-a".to_string()));
    assert!(repo.files.contains(&"src/merlon_test_dep-b".to_string()));
    assert!(repo.files.contains(&"src/merlon_test_shared-dep".to_string()));
    assert_eq!(repo.files.len(), 4);

    // Each package was applied exactly once, dependencies before their
    // dependents, with the root exactly at the final position.
    assert_eq!(repo.applied.len(), 4);
    assert_eq!(repo.applied.last().unwrap(), "root");
    assert_eq!(repo.applied.iter().filter(|a| a.as_str() == "root").count(), 1);
    let pos = |s: &str| repo.applied.iter().position(|a| a == s).unwrap();
    assert!(pos("shared-dep") < pos("dep-a"));
    assert!(pos("dep-a") < pos("root"));
    assert!(pos("dep-b") < pos("root"));

    // The tree ends checked out on the root's branch.
    assert_eq!(repo.current, "root");
}

#[test]
fn sync_save_work_runs_when_root_branch_exists() {
    let mut registry = Registry::new();
    let root = registry.register(package("Root", "root")).unwrap();
    let initialised = InitialisedPackage::from_registry(registry, root).unwrap();
    let mut machine = initialised.setup_git_branches().unwrap();

    let action = machine.step(SyncEvent::Start).unwrap();
    assert!(matches!(action, SyncAction::QueryBranchExists { .. }));
    // The root's branch already exists: the machine saves work first.
    let action = machine.step(SyncEvent::Exists { yes: true }).unwrap();
    assert!(matches!(action, SyncAction::SaveWork));
    let action = machine.step(SyncEvent::Succeeded).unwrap();
    match action {
        SyncAction::Checkout { branch } => assert_eq!(branch, "main"),
        other => panic!("unexpected action: {:?}", other),
    }
}

#[test]
fn sync_rejects_wrong_final_branch() {
    let mut registry = Registry::new();
    let root = registry.register(package("Root", "root")).unwrap();
    let initialised = InitialisedPackage::from_registry(registry, root).unwrap();
    let mut machine = initialised.setup_git_branches().unwrap();

    machine.step(SyncEvent::Start).unwrap();
    machine.step(SyncEvent::Exists { yes: false }).unwrap(); // checkout main
    machine.step(SyncEvent::Succeeded).unwrap(); // query branch root
    machine.step(SyncEvent::Exists { yes: false }).unwrap(); // create root
    machine.step(SyncEvent::Succeeded).unwrap(); // checkout root
    machine.step(SyncEvent::Succeeded).unwrap(); // apply root patches
    let action = machine.step(SyncEvent::Succeeded).unwrap();
    assert!(matches!(action, SyncAction::QueryCurrentBranch));
    let err = machine
        .step(SyncEvent::CurrentBranch { name: "main".to_string() })
        .unwrap_err();
    assert!(matches!(err, merlon::sync::SyncError::WrongFinalBranch { .. }));
}

#[test]
fn sync_rejects_mismatched_events() {
    let mut registry = Registry::new();
    let root = registry.register(package("Root", "root")).unwrap();
    let initialised = InitialisedPackage::from_registry(registry, root).unwrap();
    let mut machine = initialised.setup_git_branches().unwrap();
    // The machine expects Start first; a completion event is a protocol
    // error and leaves the machine where it was.
    let err = machine.step(SyncEvent::Succeeded).unwrap_err();
    assert!(matches!(err, merlon::sync::SyncError::Protocol));
    assert!(machine.step(SyncEvent::Start).is_ok());
}

#[test]
fn pack_step_failure_aborts_export() {
    let mut pack = PackMachine::new(
        "patches".to_string(),
        "a.tar.bz2".to_string(),
        "out.merlon".to_string(),
        "baserom.z64".to_string(),
    );
    // A completion event before Start is a protocol error.
    let err = pack.step(PackEvent::Succeeded).unwrap_err();
    assert!(matches!(err, DistributeError::Protocol));
    let action = pack.step(PackEvent::Start).unwrap();
    assert!(matches!(action, PackAction::CompressPatches { .. }));
    let err = pack.step(PackEvent::Failed).unwrap_err();
    assert!(matches!(err, DistributeError::PackStepFailed));
}

#[test]
fn extraction_preconditions() {
    let mut registry = Registry::new();
    let root = registry.register(package("Root", "root")).unwrap();
    let initialised = InitialisedPackage::from_registry(registry, root).unwrap();
    assert!(initialised.check_extraction_preconditions("root", false).is_ok());
    assert!(matches!(
        initialised.check_extraction_preconditions("main", false),
        Err(merlon::init::ExtractError::NotOnPackageBranch)
    ));
    assert!(matches!(
        initialised.check_extraction_preconditions("root", true),
        Err(merlon::init::ExtractError::DirtyTree)
    ));
}

#[test]
fn diff_base_picks_nearest_existing_dependency() {
    let mut registry = Registry::new();
    let root = registry.register(package("Root", "root")).unwrap();
    let dep = registry.register(package("Dep", "dep")).unwrap();
    registry.add_direct_dependency(&root, &dep).unwrap();
    let initialised = InitialisedPackage::from_registry(registry, root).unwrap();

    // Candidates: trunk first, then patch order (dep before root).
    let candidates = initialised.diff_base_candidates().unwrap();
    assert_eq!(candidates, vec!["main".to_string(), "dep".to_string(), "root".to_string()]);

    // The dependency's branch exists: it is the nearest base.
    let exists = vec![true, true, true];
    let i = select_diff_base(&candidates, "root", &exists).unwrap();
    assert_eq!(candidates[i], "dep");

    // Without it, extraction falls back to the trunk.
    let exists = vec![true, false, true];
    let i = select_diff_base(&candidates, "root", &exists).unwrap();
    assert_eq!(candidates[i], "main");

    // With no candidate at all, there is nothing to diff against.
    let exists = vec![false, false, true];
    assert!(select_diff_base(&candidates, "root", &exists).is_none());
}

/// An in-memory stand-in for the archiver and cipher: "compression"
/// records the patch files; "encryption" prepends the key bytes.
struct FakeCodec {
    files: Vec<(String, Vec<u8>)>,
}

impl FakeCodec {
    fn archive(patches: &[(String, Vec<u8>)]) -> Vec<u8> {
        let mut out = vec![];
        for (name, bytes) in patches {
            out.push(name.len() as u8);
            out.extend_from_slice(name.as_bytes());
            out.push(bytes.len() as u8);
            out.extend_from_slice(bytes);
        }
        out
    }

    fn extract(archive: &[u8]) -> Vec<(String, Vec<u8>)> {
        let mut out = vec![];
        let mut i = 0;
        while i < archive.len() {
            let name_len = archive[i] as usize;
            let name = String::from_utf8(archive[i + 1..i + 1 + name_len].to_vec()).unwrap();
            i += 1 + name_len;
            let data_len = archive[i] as usize;
            let data = archive[i + 1..i + 1 + data_len].to_vec();
            i += 1 + data_len;
            out.push((name, data));
        }
        out
    }

    fn encrypt(archive: &[u8], key: &[u8]) -> Vec<u8> {
        let mut out = vec![key.len() as u8];
        out.extend_from_slice(key);
        out.extend_from_slice(archive);
        out
    }

    fn decrypt(cipher: &[u8], key: &[u8]) -> Option<Vec<u8>> {
        if cipher.is_empty() || cipher[0] as usize != key.len() {
            return None;
        }
        if &cipher[1..1 + key.len()] != key {
            return None;
        }
        Some(cipher[1 + key.len()..].to_vec())
    }
}

#[test]
fn distributable_round_trip_with_matching_baserom() {
    let patches = vec![
        ("0001-first.patch".to_string(), b"patch one".to_vec()),
        ("0002-second.patch".to_string(), b"patch two".to_vec()),
    ];
    let key_one: Vec<u8> = b"K1-base-rom-bytes".to_vec();

    // Pack: compress, then encrypt under the base ROM's bytes.
    let mut pack = PackMachine::new(
        "root/patches".to_string(),
        "root/.merlon/patches.tar.bz2".to_string(),
        "output.merlon".to_string(),
        "baserom.z64".to_string(),
    );
    let mut archive: Vec<u8> = vec![];
    let mut distributable_bytes: Vec<u8> = vec![];
    let mut event = PackEvent::Start;
    loop {
        let action = pack.step(event).unwrap();
        event = match action {
            PackAction::CompressPatches { patches_dir, .. } => {
                assert_eq!(patches_dir, "root/patches");
                archive = FakeCodec::archive(&patches);
                PackEvent::Succeeded
            }
            PackAction::EncryptArchive { baserom, output, .. } => {
                assert_eq!(baserom, "baserom.z64");
                assert_eq!(output, "output.merlon");
                distributable_bytes = FakeCodec::encrypt(&archive, &key_one);
                PackEvent::Succeeded
            }
            PackAction::Done => break,
        };
    }

    // Open with the same base ROM bytes: the original patch files come
    // back byte for byte.
    let distributable = Distributable::from_path("output.merlon".to_string()).unwrap();
    let mut open = OpenMachine::new(
        &distributable,
        "tmp/patches.tar.bz2".to_string(),
        "opened/patches".to_string(),
        "baserom.z64".to_string(),
    );
    let mut decrypted: Vec<u8> = vec![];
    let mut recovered: Vec<(String, Vec<u8>)> = vec![];
    let mut event = PackEvent::Start;
    loop {
        let action = open.step(event).unwrap();
        event = match action {
            OpenAction::DecryptArchive { .. } => match FakeCodec::decrypt(
                &distributable_bytes,
                &key_one,
            ) {
                Some(bytes) => {
                    decrypted = bytes;
                    PackEvent::Succeeded
                }
                None => PackEvent::Failed,
            },
            OpenAction::ExtractPatches { .. } => {
                recovered = FakeCodec::extract(&decrypted);
                PackEvent::Succeeded
            }
            OpenAction::Done => break,
        };
    }
    assert_eq!(recovered, patches);
}

#[test]
fn distributable_does_not_open_with_wrong_baserom() {
    let patches = vec![("0001-first.patch".to_string(), b"patch one".to_vec())];
    let key_one: Vec<u8> = b"K1-base-rom-bytes".to_vec();
    let key_two: Vec<u8> = b"K2-other-rom-byte".to_vec();
    let archive = FakeCodec::archive(&patches);
    let distributable_bytes = FakeCodec::encrypt(&archive, &key_one);

    let distributable = Distributable::from_path("output.merlon".to_string()).unwrap();
    let mut open = OpenMachine::new(
        &distributable,
        "tmp/patches.tar.bz2".to_string(),
        "opened/patches".to_string(),
        "other.z64".to_string(),
    );
    let action = open.step(PackEvent::Start).unwrap();
    assert!(matches!(action, OpenAction::DecryptArchive { .. }));
    // Decryption under the wrong bytes fails; the machine reports the
    // deliberately conflated error and never reaches extraction.
    assert!(FakeCodec::decrypt(&distributable_bytes, &key_two).is_none());
    let err = open.step(PackEvent::Failed).unwrap_err();
    assert!(matches!(err, DistributeError::WrongKeyOrCorrupt));
}

#[test]
fn distributable_names() {
    assert!(merlon::distribute::is_distributable_package("my-mod-2023-04-26.merlon"));
    assert!(!merlon::distribute::is_distributable_package("my-mod.tar.bz2"));
    assert_eq!(
        merlon::distribute::distributable_file_name("my-mod", "2023-04-26"),
        "my-mod-2023-04-26.merlon"
    );
    assert!(Distributable::from_path("not-a-distributable.txt".to_string()).is_err());
}

#[test]
fn add_dependency_registers_and_declares() {
    let mut registry = Registry::new();
    let root = registry.register(package("Root", "root")).unwrap();
    let mut initialised = InitialisedPackage::from_registry(registry, root).unwrap();
    let dep = package("Dep", "dep");
    let dep_id = initialised.add_dependency(dep).unwrap();
    assert_eq!(dep_id.as_str(), "dep");
    assert!(initialised.registry_ref().has(&dep_id));
    let declared = initialised
        .registry_ref()
        .get_direct_dependencies(initialised.package_id())
        .unwrap();
    assert_eq!(declared.len(), 1);
    // Adding the same dependency again is idempotent.
    let dep_again = package("Dep", "dep");
    initialised.add_dependency(dep_again).unwrap();
    let declared = initialised
        .registry_ref()
        .get_direct_dependencies(initialised.package_id())
        .unwrap();
    assert_eq!(declared.len(), 1);
}

#[test]
fn subrepo_paths_derive_from_package_path() {
    let mut registry = Registry::new();
    let root = registry.register(package("Root", "workdir/root")).unwrap();
    let initialised = InitialisedPackage::from_registry(registry, root).unwrap();
    assert_eq!(initialised.subrepo_path(), "workdir/root/papermario");
    assert_eq!(
        initialised.baserom_path(),
        "workdir/root/papermario/ver/us/baserom.z64"
    );
}

use pipboy::archive::FileEntry;
use pipboy::engine::uninstall_mod;
use pipboy::engine::InstallAction;
use pipboy::engine::InstallEngine;
use pipboy::engine::Task;
use pipboy::errors::Error;
use pipboy::ids::pid_eq;
use pipboy::ids::PackageId;
use pipboy::index_store::IndexStore;
use pipboy::pkg_cache::PackageCache;
use pipboy::profile::ProfileFile;
use pipboy::registry::Registry;
use pipboy::snapshot::create_cache;

fn pid(s: &str) -> PackageId {
    PackageId::parse(s).unwrap()
}

fn profile() -> ProfileFile {
    ProfileFile {
        install_path: String::from("game"),
        enabled_mods: Vec::new(),
        game: String::from("Fallout: New Vegas"),
    }
}

fn engine_over(requested: Vec<PackageId>, force: bool) -> InstallEngine {
    InstallEngine::new(
        profile(),
        Registry::new(),
        PackageCache::new(),
        IndexStore::new(),
        requested,
        force,
    )
}

/// A package archive holding the given files, as the repositories serve it.
fn archive(files: &[(&str, &[u8])]) -> Vec<u8> {
    let entries: Vec<FileEntry> = files
        .iter()
        .map(|(p, d)| FileEntry { path: String::from(*p), data: d.to_vec() })
        .collect();
    create_cache(&entries, true, false).unwrap()
}

fn enabled_names(e: &InstallEngine) -> Vec<String> {
    e.profile.enabled_mods.iter().map(|p| p.render()).collect()
}

#[test]
fn installing_an_enabled_package_is_refused_and_changes_nothing() {
    let a = pid("alice/sunrise");
    let mut e = engine_over(vec![], false);
    e.profile.enabled_mods.push(a.duplicate());
    e.registry
        .installation_update(&a, &vec![String::from("Data/one.esp")]);
    let pairs_before = e.registry.to_pairs();
    let enabled_before = enabled_names(&e);
    e.task = Task::Starting(a.duplicate());
    let r = e.install_mod(a.duplicate());
    assert!(matches!(r, Err(Error::PackageAlreadyInstalled)));
    assert_eq!(e.registry.to_pairs(), pairs_before);
    assert_eq!(enabled_names(&e), enabled_before);
}

#[test]
fn worklist_skips_an_enabled_package_with_a_notice() {
    let a = pid("alice/sunrise");
    let mut e = engine_over(vec![a.duplicate()], false);
    e.profile.enabled_mods.push(a.duplicate());
    match e.next_action() {
        InstallAction::Skipped(s) => assert!(pid_eq(&s, &a)),
        _ => panic!("expected the enabled package to be skipped"),
    }
    assert!(matches!(e.next_action(), InstallAction::Finished));
}

#[test]
fn dependency_discovery_enables_both_packages() {
    let a = pid("alice/sunrise");
    let b = pid("bob/dusk");
    let bytes_a = archive(&[("Data/a.esp", b"aaa")]);
    let bytes_b = archive(&[("Data/b.esp", b"bbb")]);
    let mut e = engine_over(vec![a.duplicate()], false);

    // A is requested: popped, absent locally, fetched, checked, applied.
    let act = e.next_action();
    let p = match act {
        InstallAction::Process(p) => p,
        _ => panic!("expected a package to process"),
    };
    assert!(pid_eq(&p, &a));
    let act = e.install_mod(p).unwrap();
    assert!(matches!(act, InstallAction::Fetch(_)));
    let act = e.fetched(Some(bytes_a)).unwrap();
    let manifest = match act {
        InstallAction::CheckConflicts(_, m) => m,
        _ => panic!("expected a conflict check"),
    };
    assert_eq!(manifest, vec!["Data/a.esp"]);
    let act = e.conflicts_checked(&Vec::new()).unwrap();
    assert!(matches!(act, InstallAction::Extract(_)));
    let act = e.extracted(true).unwrap();
    assert!(matches!(act, InstallAction::FetchDepends(_)));
    // A declares B; B is discovered and completed before the run ends.
    e.depends_fetched(&vec![b.duplicate()]);

    let act = e.next_action();
    let p = match act {
        InstallAction::Process(p) => p,
        _ => panic!("expected the dependency to be processed"),
    };
    assert!(pid_eq(&p, &b));
    let act = e.install_mod(p).unwrap();
    assert!(matches!(act, InstallAction::Fetch(_)));
    let act = e.fetched(Some(bytes_b)).unwrap();
    assert!(matches!(act, InstallAction::CheckConflicts(_, _)));
    let act = e.conflicts_checked(&Vec::new()).unwrap();
    assert!(matches!(act, InstallAction::Extract(_)));
    let act = e.extracted(true).unwrap();
    assert!(matches!(act, InstallAction::FetchDepends(_)));
    e.depends_fetched(&Vec::new());

    assert!(matches!(e.next_action(), InstallAction::Finished));
    // Both are cached, both have indices, both are enabled, in run order.
    assert!(e.cache.mod_is_cached(&a));
    assert!(e.cache.mod_is_cached(&b));
    assert!(e.store.mod_has_index(&a));
    assert!(e.store.mod_has_index(&b));
    assert_eq!(enabled_names(&e), vec!["alice/sunrise", "bob/dusk"]);
    // The registry records what each install wrote.
    let owner = e.registry.owner_of(&String::from("Data/a.esp")).unwrap();
    assert!(pid_eq(&owner, &a));
    let owner = e.registry.owner_of(&String::from("Data/b.esp")).unwrap();
    assert!(pid_eq(&owner, &b));
}

#[test]
fn an_already_enabled_dependency_is_not_pushed() {
    let a = pid("alice/sunrise");
    let b = pid("bob/dusk");
    let bytes_a = archive(&[("Data/a.esp", b"aaa")]);
    let mut e = engine_over(vec![a.duplicate()], false);
    e.profile.enabled_mods.push(b.duplicate());
    let p = match e.next_action() {
        InstallAction::Process(p) => p,
        _ => panic!("expected a package to process"),
    };
    e.install_mod(p).unwrap();
    e.fetched(Some(bytes_a)).unwrap();
    e.conflicts_checked(&Vec::new()).unwrap();
    e.extracted(true).unwrap();
    e.depends_fetched(&vec![b.duplicate()]);
    // B was already enabled, so the worklist is empty and the run ends.
    assert!(matches!(e.next_action(), InstallAction::Finished));
}

#[test]
fn a_package_found_nowhere_fails_the_run() {
    let a = pid("alice/sunrise");
    let mut e = engine_over(vec![a.duplicate()], false);
    let p = match e.next_action() {
        InstallAction::Process(p) => p,
        _ => panic!("expected a package to process"),
    };
    e.install_mod(p).unwrap();
    let r = e.fetched(None);
    assert!(matches!(r, Err(Error::PackageNotFound)));
}

#[test]
fn a_conflict_fails_the_run_with_the_first_path() {
    let a = pid("alice/sunrise");
    let bytes_a = archive(&[("Data/a.esp", b"aaa"), ("Data/b.esp", b"bbb")]);
    let mut e = engine_over(vec![a.duplicate()], false);
    let p = match e.next_action() {
        InstallAction::Process(p) => p,
        _ => panic!("expected a package to process"),
    };
    e.install_mod(p).unwrap();
    e.fetched(Some(bytes_a)).unwrap();
    let present = vec![String::from("Data/b.esp")];
    let r = e.conflicts_checked(&present);
    assert_eq!(
        match r {
            Err(Error::FileConflict(p)) => p,
            _ => panic!("expected a file conflict"),
        },
        "Data/b.esp"
    );
}

#[test]
fn force_skips_the_conflict_check() {
    let a = pid("alice/sunrise");
    let bytes_a = archive(&[("Data/a.esp", b"aaa")]);
    let mut e = engine_over(vec![a.duplicate()], true);
    let p = match e.next_action() {
        InstallAction::Process(p) => p,
        _ => panic!("expected a package to process"),
    };
    e.install_mod(p).unwrap();
    let act = e.fetched(Some(bytes_a)).unwrap();
    assert!(matches!(act, InstallAction::Extract(_)));
}

#[test]
fn a_failed_extraction_is_fatal() {
    let a = pid("alice/sunrise");
    let bytes_a = archive(&[("Data/a.esp", b"aaa")]);
    let mut e = engine_over(vec![a.duplicate()], true);
    let p = match e.next_action() {
        InstallAction::Process(p) => p,
        _ => panic!("expected a package to process"),
    };
    e.install_mod(p).unwrap();
    e.fetched(Some(bytes_a)).unwrap();
    let r = e.extracted(false);
    assert!(matches!(r, Err(Error::ArchiveError)));
}

#[test]
fn a_cached_package_is_not_fetched_again() {
    let a = pid("alice/sunrise");
    let bytes_a = archive(&[("Data/a.esp", b"aaa")]);
    let mut e = engine_over(vec![a.duplicate()], false);
    e.cache.insert(&a, bytes_a);
    let p = match e.next_action() {
        InstallAction::Process(p) => p,
        _ => panic!("expected a package to process"),
    };
    let act = e.install_mod(p).unwrap();
    assert!(matches!(act, InstallAction::CheckConflicts(_, _)));
}

#[test]
fn next_action_reissues_the_pending_action() {
    let a = pid("alice/sunrise");
    let mut e = engine_over(vec![a.duplicate()], false);
    let p = match e.next_action() {
        InstallAction::Process(p) => p,
        _ => panic!("expected a package to process"),
    };
    e.install_mod(p).unwrap();
    // The engine is waiting on the fetch; asking again repeats the request.
    assert!(matches!(e.next_action(), InstallAction::Fetch(_)));
    assert!(matches!(e.next_action(), InstallAction::Fetch(_)));
}

#[test]
fn requested_packages_pop_in_reverse_order() {
    let a = pid("alice/sunrise");
    let b = pid("bob/dusk");
    let mut e = engine_over(vec![a.duplicate(), b.duplicate()], false);
    // The worklist is a stack: the last requested package is processed first.
    match e.next_action() {
        InstallAction::Process(p) => assert!(pid_eq(&p, &b)),
        _ => panic!("expected a package to process"),
    }
}

#[test]
fn uninstall_disables_and_releases_ownership() {
    let a = pid("alice/sunrise");
    let manifest = vec![String::from("Data/a.esp")];
    let mut prof = profile();
    prof.enabled_mods.push(a.duplicate());
    let mut reg = Registry::new();
    reg.installation_update(&a, &manifest);
    uninstall_mod(&mut prof, &mut reg, &a, &manifest);
    assert!(prof.enabled_mods.is_empty());
    assert!(reg.owner_of(&String::from("Data/a.esp")).is_none());
}

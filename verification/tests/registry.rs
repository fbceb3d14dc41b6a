use pipboy::errors::Error;
use pipboy::ids::pid_eq;
use pipboy::ids::PackageId;
use pipboy::registry::Registry;

fn pid(s: &str) -> PackageId {
    PackageId::parse(s).unwrap()
}

fn paths(v: &[&str]) -> Vec<String> {
    v.iter().map(|s| String::from(*s)).collect()
}

#[test]
fn installation_update_claims_every_path() {
    let mut reg = Registry::new();
    let a = pid("alice/sunrise");
    reg.installation_update(&a, &paths(&["Data/one.esp", "Data/two.esp"]));
    let owner = reg.owner_of(&String::from("Data/one.esp")).unwrap();
    assert!(pid_eq(&owner, &a));
    let owner = reg.owner_of(&String::from("Data/two.esp")).unwrap();
    assert!(pid_eq(&owner, &a));
    assert!(reg.owner_of(&String::from("Data/other.esp")).is_none());
}

#[test]
fn ownership_stays_unique_after_overlapping_installs() {
    let mut reg = Registry::new();
    let a = pid("alice/sunrise");
    let b = pid("bob/dusk");
    reg.installation_update(&a, &paths(&["Data/shared.esp", "Data/a.esp"]));
    reg.installation_update(&b, &paths(&["Data/shared.esp", "Data/b.esp"]));
    // Last writer wins, and the path has exactly one owner afterwards.
    let owner = reg.owner_of(&String::from("Data/shared.esp")).unwrap();
    assert!(pid_eq(&owner, &b));
    let pairs = reg.to_pairs();
    let shared: Vec<&(String, String)> =
        pairs.iter().filter(|p| p.0 == "Data/shared.esp").collect();
    assert_eq!(shared.len(), 1);
    assert_eq!(shared[0].1, "bob/dusk");
}

#[test]
fn uninstall_non_leak_protects_reclaimed_paths() {
    let mut reg = Registry::new();
    let a = pid("alice/sunrise");
    let b = pid("bob/dusk");
    let manifest_a = paths(&["Data/one.esp", "Data/shared.esp"]);
    reg.installation_update(&a, &manifest_a);
    // A later install reassigns the shared path to another package.
    reg.installation_update(&b, &paths(&["Data/shared.esp"]));
    reg.uninstallation_update(&a, &manifest_a);
    // Every binding A still owned is gone...
    assert!(reg.owner_of(&String::from("Data/one.esp")).is_none());
    // ...but the reclaimed path keeps its new owner.
    let owner = reg.owner_of(&String::from("Data/shared.esp")).unwrap();
    assert!(pid_eq(&owner, &b));
}

#[test]
fn uninstall_with_full_manifest_leaves_no_binding_behind() {
    let mut reg = Registry::new();
    let a = pid("alice/sunrise");
    let manifest = paths(&["Data/one.esp", "Data/two.esp", "Data/three.esp"]);
    reg.installation_update(&a, &manifest);
    reg.uninstallation_update(&a, &manifest);
    for p in ["Data/one.esp", "Data/two.esp", "Data/three.esp"] {
        assert!(reg.owner_of(&String::from(p)).is_none());
    }
    assert!(reg.to_pairs().is_empty());
}

#[test]
fn from_pairs_round_trips_through_to_pairs() {
    let mut reg = Registry::new();
    let a = pid("alice/sunrise");
    reg.installation_update(&a, &paths(&["Data/one.esp"]));
    let pairs = reg.to_pairs();
    let reloaded = Registry::from_pairs(&pairs).unwrap();
    let owner = reloaded.owner_of(&String::from("Data/one.esp")).unwrap();
    assert!(pid_eq(&owner, &a));
}

#[test]
fn from_pairs_rejects_a_malformed_owner() {
    let pairs = vec![(String::from("Data/one.esp"), String::from("notanid"))];
    assert!(matches!(Registry::from_pairs(&pairs), Err(Error::ConfigError)));
}

#[test]
fn from_pairs_lets_later_pairs_win() {
    let pairs = vec![
        (String::from("Data/one.esp"), String::from("alice/sunrise")),
        (String::from("Data/one.esp"), String::from("bob/dusk")),
    ];
    let reg = Registry::from_pairs(&pairs).unwrap();
    let owner = reg.owner_of(&String::from("Data/one.esp")).unwrap();
    assert!(pid_eq(&owner, &pid("bob/dusk")));
}

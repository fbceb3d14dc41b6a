use pipboy::config::current_profile;
use pipboy::config::repositories;
use pipboy::config::select_profile;
use pipboy::config::ConfigFile;
use pipboy::errors::Error;
use pipboy::ids::PackageId;
use pipboy::profile::create_profile;
use pipboy::profile::list_profiles;
use pipboy::profile::mod_is_installed;
use pipboy::profile::profile_exists;
use pipboy::profile::remove_profile;
use pipboy::profile::ProfileFile;
use pipboy::remote::depends_url;
use pipboy::remote::mod_url;
use pipboy::remote::parse_depends;

fn names(v: &[&str]) -> Vec<String> {
    v.iter().map(|s| String::from(*s)).collect()
}

#[test]
fn profile_exists_checks_membership() {
    let profiles = names(&["base", "survival"]);
    assert!(profile_exists(&profiles, &String::from("base")));
    assert!(!profile_exists(&profiles, &String::from("missing")));
}

#[test]
fn create_profile_adds_only_new_names() {
    let mut profiles = names(&["base"]);
    assert!(create_profile(&mut profiles, &String::from("survival")));
    assert_eq!(profiles, names(&["base", "survival"]));
    assert!(!create_profile(&mut profiles, &String::from("base")));
    assert_eq!(profiles, names(&["base", "survival"]));
}

#[test]
fn remove_profile_refuses_the_current_one() {
    let mut profiles = names(&["base", "survival"]);
    let r = remove_profile(&mut profiles, &String::from("base"), &String::from("base"));
    assert_eq!(r, Err(Error::ConfigError));
    assert_eq!(profiles, names(&["base", "survival"]));
}

#[test]
fn remove_profile_refuses_a_missing_one() {
    let mut profiles = names(&["base"]);
    let r = remove_profile(&mut profiles, &String::from("base"), &String::from("missing"));
    assert_eq!(r, Err(Error::ProfileNotFound));
}

#[test]
fn remove_profile_removes_a_known_one() {
    let mut profiles = names(&["base", "survival"]);
    let r = remove_profile(&mut profiles, &String::from("base"), &String::from("survival"));
    assert_eq!(r, Ok(()));
    assert_eq!(profiles, names(&["base"]));
}

#[test]
fn list_profiles_marks_the_current_one() {
    let profiles = names(&["base", "survival"]);
    let marks = list_profiles(&profiles, &String::from("survival"));
    assert_eq!(marks, vec![false, true]);
}

#[test]
fn select_profile_requires_an_existing_profile() {
    let mut config = ConfigFile {
        current_profile: String::from("base"),
        repository_list: String::from("repo.example"),
    };
    let r = select_profile(&mut config, &String::from("missing"), false);
    assert_eq!(r, Err(Error::ProfileNotFound));
    assert_eq!(config.current_profile, "base");
    let r = select_profile(&mut config, &String::from("survival"), true);
    assert_eq!(r, Ok(()));
    assert_eq!(config.current_profile, "survival");
    assert_eq!(current_profile(&config), "survival");
}

#[test]
fn repositories_split_at_commas_in_order() {
    let config = ConfigFile {
        current_profile: String::from("base"),
        repository_list: String::from("first.example,second.example"),
    };
    assert_eq!(
        repositories(&config),
        names(&["first.example", "second.example"])
    );
}

#[test]
fn defaults_match_the_shipped_configuration() {
    let config = ConfigFile::default();
    assert_eq!(config.current_profile, "Fallout New Vegas");
    assert_eq!(config.repository_list, "pipboy.aayla.dev");
    let profile = ProfileFile::default();
    assert_eq!(profile.install_path, "path/to/fallout/install/");
    assert!(profile.enabled_mods.is_empty());
    assert_eq!(profile.game, "Fallout: New Vegas");
}

#[test]
fn mod_is_installed_checks_the_enabled_set() {
    let mut profile = ProfileFile::default();
    let a = PackageId::parse("alice/sunrise").unwrap();
    assert!(!mod_is_installed(&profile, &a));
    profile.enabled_mods.push(a.duplicate());
    assert!(mod_is_installed(&profile, &a));
}

#[test]
fn urls_follow_the_remote_protocol() {
    let a = PackageId::parse("alice/sunrise").unwrap();
    assert_eq!(
        mod_url("repo.example", &a),
        "https://repo.example/mods/alice/sunrise/mod.tar.gz"
    );
    assert_eq!(
        depends_url("repo.example", &a),
        "https://repo.example/mods/alice/sunrise/depends.txt"
    );
}

#[test]
fn parse_depends_reads_one_id_per_line() {
    let deps = parse_depends("alice/sunrise\nbob/dusk\n").unwrap();
    assert_eq!(deps.len(), 2);
    assert_eq!(deps[0].render(), "alice/sunrise");
    assert_eq!(deps[1].render(), "bob/dusk");
    assert!(parse_depends("").unwrap().is_empty());
}

#[test]
fn parse_depends_accepts_carriage_return_line_endings() {
    let deps = parse_depends("alice/sunrise\r\nbob/dusk\r\n").unwrap();
    assert_eq!(deps.len(), 2);
    assert_eq!(deps[0].render(), "alice/sunrise");
    assert_eq!(deps[1].render(), "bob/dusk");
}

#[test]
fn parse_depends_rejects_a_malformed_line() {
    assert!(matches!(
        parse_depends("alice/sunrise\nnot-an-id\n"),
        Err(Error::ConfigError)
    ));
}

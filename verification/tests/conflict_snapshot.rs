use pipboy::archive::FileEntry;
use pipboy::conflict::check;
use pipboy::errors::Error;
use pipboy::snapshot::create_cache;
use pipboy::snapshot::restore_cache;

fn paths(v: &[&str]) -> Vec<String> {
    v.iter().map(|s| String::from(*s)).collect()
}

fn entry(path: &str, data: &[u8]) -> FileEntry {
    FileEntry { path: String::from(path), data: data.to_vec() }
}

#[test]
fn check_passes_when_no_path_exists() {
    let manifest = paths(&["Data/one.esp", "Data/two.esp"]);
    assert_eq!(check(&manifest, &paths(&[])), Ok(()));
    assert_eq!(check(&manifest, &paths(&["Data/other.esp"])), Ok(()));
}

#[test]
fn check_fails_exactly_when_a_path_exists() {
    let manifest = paths(&["Data/one.esp", "Data/two.esp"]);
    let present = paths(&["Data/two.esp"]);
    assert_eq!(
        check(&manifest, &present),
        Err(Error::FileConflict(String::from("Data/two.esp")))
    );
}

#[test]
fn check_reports_the_first_conflicting_path() {
    let manifest = paths(&["Data/a.esp", "Data/b.esp", "Data/c.esp"]);
    let present = paths(&["Data/c.esp", "Data/b.esp"]);
    assert_eq!(
        check(&manifest, &present),
        Err(Error::FileConflict(String::from("Data/b.esp")))
    );
}

#[test]
fn snapshot_round_trip_reproduces_files_exactly() {
    let content = vec![
        entry("Data/one.esp", b"hello snapshot"),
        entry("Data/textures/t.dds", &[0u8, 1, 2, 3, 255]),
        entry("readme.txt", b""),
    ];
    let bytes = create_cache(&content, true, false).unwrap();
    let restored = restore_cache(Some(&bytes)).unwrap();
    assert_eq!(restored.len(), content.len());
    for (orig, back) in content.iter().zip(restored.iter()) {
        assert_eq!(orig.path, back.path);
        assert_eq!(orig.data, back.data);
    }
}

#[test]
fn double_cache_creation_is_refused() {
    let content = vec![entry("Data/one.esp", b"x")];
    let first = create_cache(&content, true, false).unwrap();
    // The snapshot now exists; a second creation under the same name fails.
    let second = create_cache(&content, true, true);
    assert_eq!(second, Err(Error::CacheExists));
    // The original snapshot is untouched and still restores.
    let restored = restore_cache(Some(&first)).unwrap();
    assert_eq!(restored[0].path, "Data/one.esp");
    assert_eq!(restored[0].data, b"x".to_vec());
}

#[test]
fn create_cache_refuses_paths_tar_refuses() {
    let escaping = vec![entry("../evil.esp", b"x")];
    assert_eq!(create_cache(&escaping, true, false), Err(Error::ArchiveError));
    let absolute = vec![entry("/abs.esp", b"x")];
    assert_eq!(create_cache(&absolute, true, false), Err(Error::ArchiveError));
}

#[test]
fn snapshot_round_trip_handles_long_paths() {
    let long_dir = "d".repeat(120);
    let long_path = format!("{}/file.esp", long_dir);
    let content = vec![entry(&long_path, b"long")];
    let bytes = create_cache(&content, true, false).unwrap();
    let restored = restore_cache(Some(&bytes)).unwrap();
    assert_eq!(restored.len(), 1);
    assert_eq!(restored[0].path, long_path);
    assert_eq!(restored[0].data, b"long".to_vec());
}

#[test]
fn create_cache_requires_a_directory() {
    let content = vec![entry("Data/one.esp", b"x")];
    assert_eq!(create_cache(&content, false, false), Err(Error::IoError));
}

#[test]
fn restore_cache_requires_a_snapshot() {
    assert_eq!(restore_cache(None), Err(Error::CacheMissing));
}

#[test]
fn restore_cache_refuses_corrupt_bytes() {
    let junk = vec![1u8, 2, 3, 4, 5];
    assert_eq!(restore_cache(Some(&junk)), Err(Error::ArchiveError));
}

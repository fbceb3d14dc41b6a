use pipboy::archive::FileEntry;
use pipboy::errors::Error;
use pipboy::ids::PackageId;
use pipboy::index_store::IndexStore;
use pipboy::pkg_cache::PackageCache;
use pipboy::snapshot::create_cache;

fn pid(s: &str) -> PackageId {
    PackageId::parse(s).unwrap()
}

fn archive(files: &[(&str, &[u8])]) -> Vec<u8> {
    let entries: Vec<FileEntry> = files
        .iter()
        .map(|(p, d)| FileEntry { path: String::from(*p), data: d.to_vec() })
        .collect();
    create_cache(&entries, true, false).unwrap()
}

#[test]
fn cache_holds_what_was_inserted() {
    let a = pid("alice/sunrise");
    let b = pid("bob/dusk");
    let mut cache = PackageCache::new();
    assert!(!cache.mod_is_cached(&a));
    cache.insert(&a, vec![1, 2, 3]);
    assert!(cache.mod_is_cached(&a));
    assert!(!cache.mod_is_cached(&b));
    assert_eq!(cache.get(&a).unwrap(), &vec![1, 2, 3]);
    // Re-inserting replaces the cached bytes.
    cache.insert(&a, vec![9]);
    assert_eq!(cache.get(&a).unwrap(), &vec![9]);
}

#[test]
fn generate_index_lists_files_and_drops_directories() {
    let a = pid("alice/sunrise");
    let bytes = archive(&[
        ("Data/", b""),
        ("Data/a.esp", b"aaa"),
        ("Data/textures/", b""),
        ("Data/textures/t.dds", b"ttt"),
    ]);
    let mut cache = PackageCache::new();
    cache.insert(&a, bytes);
    let mut store = IndexStore::new();
    assert!(!store.mod_has_index(&a));
    let manifest = store.generate_index(&cache, &a).unwrap();
    assert_eq!(manifest, vec!["Data/a.esp", "Data/textures/t.dds"]);
    assert!(store.mod_has_index(&a));
    assert_eq!(store.load_index(&a).unwrap(), manifest);
}

#[test]
fn generate_index_requires_a_cached_archive() {
    let a = pid("alice/sunrise");
    let cache = PackageCache::new();
    let mut store = IndexStore::new();
    assert!(matches!(
        store.generate_index(&cache, &a),
        Err(Error::PackageNotCached)
    ));
    assert!(!store.mod_has_index(&a));
}

#[test]
fn generate_index_refuses_corrupt_bytes() {
    let a = pid("alice/sunrise");
    let mut cache = PackageCache::new();
    cache.insert(&a, vec![0, 1, 2, 3]);
    let mut store = IndexStore::new();
    assert!(matches!(
        store.generate_index(&cache, &a),
        Err(Error::ArchiveError)
    ));
    assert!(!store.mod_has_index(&a));
}

#[test]
fn ensure_index_reuses_a_stored_manifest() {
    let a = pid("alice/sunrise");
    let bytes = archive(&[("Data/a.esp", b"aaa")]);
    let mut cache = PackageCache::new();
    cache.insert(&a, bytes);
    let mut store = IndexStore::new();
    let first = store.ensure_index(&cache, &a).unwrap();
    // A second call answers from the store, even with the cache gone.
    let empty_cache = PackageCache::new();
    let second = store.ensure_index(&empty_cache, &a).unwrap();
    assert_eq!(first, second);
}

#[test]
fn load_index_is_none_before_generation() {
    let a = pid("alice/sunrise");
    let store = IndexStore::new();
    assert!(store.load_index(&a).is_none());
}

use vstd::prelude::*;

verus! {

/// The failure taxonomy of the package engine.
///
/// `FileConflict` carries the first conflicting manifest path.
#[derive(Debug, PartialEq, Eq)]
pub enum Error {
    /// The configuration state is unusable for the requested operation.
    ConfigError,
    /// The named profile does not exist.
    ProfileNotFound,
    /// A snapshot of the requested name already exists.
    CacheExists,
    /// No snapshot of the requested name exists.
    CacheMissing,
    /// The package is absent from the local cache and from every repository.
    PackageNotFound,
    /// The package archive is not present in the local cache.
    PackageNotCached,
    /// The package is already in the profile's enabled set.
    PackageAlreadyInstalled,
    /// A manifest path already exists under the install root.
    FileConflict(String),
    /// The compressed archive data is corrupt or unreadable.
    ArchiveError,
    /// A path or permission failure outside the engine's control.
    IoError,
}

} // verus!

use vstd::prelude::*;

use crate::archive::archive_builder_append;
use crate::archive::archive_builder_finish;
use crate::archive::archive_builder_new;
use crate::archive::builder_contents;
use crate::archive::entry_views;
use crate::archive::targz_entries;
use crate::archive::targz_of;
use crate::archive::tar_safe_path;
use crate::archive::targz_unpack;
use crate::archive::FileEntry;
use crate::errors::Error;

verus! {

/// Every entry's path is one that tar accepts.
pub open spec fn all_paths_safe(entries: Seq<(Seq<char>, Seq<u8>)>) -> bool {
    forall|i: int| 0 <= i < entries.len() ==> tar_safe_path((#[trigger] entries[i]).0)
}

/// Builds a named snapshot of the whole content directory, handed in as its
/// file entries: refused when a snapshot of that name already exists, or
/// when the content directory is not a directory; otherwise the result is
/// the compressed archive of exactly those entries, for the caller to write
/// under the snapshot's name — and it is owed whenever every entry's path is
/// tar-acceptable.
pub fn create_cache(content: &Vec<FileEntry>, content_is_dir: bool, snapshot_exists: bool) -> (r:
    Result<Vec<u8>, Error>)
    ensures
        !content_is_dir ==> r == Err::<Vec<u8>, Error>(Error::IoError),
        content_is_dir && snapshot_exists ==> r == Err::<Vec<u8>, Error>(Error::CacheExists),
        content_is_dir && !snapshot_exists ==> {
            &&& all_paths_safe(entry_views(content@)) ==> r is Ok
            &&& r matches Ok(bytes) ==> bytes@ == targz_of(entry_views(content@))
            &&& r matches Err(e) ==> e == Error::ArchiveError
        },
{
    if !content_is_dir {
        return Err(Error::IoError);
    }
    if snapshot_exists {
        return Err(Error::CacheExists);
    }
    let mut b = archive_builder_new();
    let mut i: usize = 0;
    proof {
        assert(builder_contents(b) =~~= entry_views(content@).take(0));
    }
    while i < content.len()
        invariant
            i <= content@.len(),
            content_is_dir && !snapshot_exists,
            builder_contents(b) == entry_views(content@).take(i as int),
        decreases content@.len() - i,
    {
        match archive_builder_append(&mut b, &content[i].path, &content[i].data) {
            Ok(()) => {},
            Err(_) => {
                proof {
                    assert(!tar_safe_path(content@[i as int].path@));
                    assert(entry_views(content@)[i as int].0 == content@[i as int].path@);
                    assert(!all_paths_safe(entry_views(content@)));
                }
                return Err(Error::ArchiveError);
            },
        }
        proof {
            assert(entry_views(content@).take(i + 1) =~~= entry_views(content@).take(
                i as int,
            ).push(content@[i as int]@));
        }
        i += 1;
    }
    proof {
        assert(entry_views(content@).take(content@.len() as int) =~= entry_views(content@));
    }
    match archive_builder_finish(b) {
        Ok(v) => Ok(v),
        Err(_) => Err(Error::ArchiveError),
    }
}

/// Restores a snapshot: refused when no snapshot of the requested name
/// exists; otherwise unpacks the snapshot's bytes into the file entries the
/// caller is to write back, replacing the content directory.
pub fn restore_cache(snapshot: Option<&Vec<u8>>) -> (r: Result<Vec<FileEntry>, Error>)
    ensures
        snapshot is None ==> r == Err::<Vec<FileEntry>, Error>(Error::CacheMissing),
        snapshot matches Some(b) ==> {
            &&& r is Ok <==> targz_entries(b@) is Some
            &&& r matches Ok(es) ==> Some(entry_views(es@)) == targz_entries(b@)
            &&& r matches Err(e) ==> e == Error::ArchiveError
        },
{
    match snapshot {
        None => Err(Error::CacheMissing),
        Some(b) => targz_unpack(b),
    }
}

} // verus!

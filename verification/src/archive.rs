use vstd::prelude::*;

use crate::errors::Error;
use crate::text::split_on;
use crate::text::views_of;

verus! {

/// One file carried by an archive: a relative path and the file's bytes.
#[derive(Debug, PartialEq, Eq)]
pub struct FileEntry {
    pub path: String,
    pub data: Vec<u8>,
}

impl View for FileEntry {
    type V = (Seq<char>, Seq<u8>);

    open spec fn view(&self) -> (Seq<char>, Seq<u8>) {
        (self.path@, self.data@)
    }
}

/// The views of a vector of file entries.
pub open spec fn entry_views(s: Seq<FileEntry>) -> Seq<(Seq<char>, Seq<u8>)> {
    s.map_values(|e: FileEntry| e@)
}

/// The paths of a sequence of entries, in order.
pub open spec fn names_of(s: Seq<(Seq<char>, Seq<u8>)>) -> Seq<Seq<char>> {
    s.map_values(|e: (Seq<char>, Seq<u8>)| e.0)
}

/// An in-memory compressed archive being built, entry by entry.
///
/// Holds tar::Builder writing through flate2's write::GzEncoder into a
/// buffer; Verus sees the builder only through `builder_contents`.
#[verifier::external_body]
pub struct SnapshotBuilder {
    inner: tar::Builder<flate2::write::GzEncoder<Vec<u8>>>,
}

/// The entries appended so far to an in-memory compressed archive builder.
pub uninterp spec fn builder_contents(b: SnapshotBuilder) -> Seq<(Seq<char>, Seq<u8>)>;

/// The compressed archive bytes produced from the given entries; fixed
/// header fields and a fixed compression level make them a function of the
/// entries alone.
pub uninterp spec fn targz_of(entries: Seq<(Seq<char>, Seq<u8>)>) -> Seq<u8>;

/// The entries stored in the given compressed archive bytes, or nothing when
/// the bytes are corrupt; a function of the bytes alone.
pub uninterp spec fn targz_entries(bytes: Seq<u8>) -> Option<Seq<(Seq<char>, Seq<u8>)>>;

/// A path that tar accepts into an archive entry. tar refuses absolute
/// paths, `..` components, nul bytes, and paths with no real component; the
/// backslash and colon exclusions keep every component ordinary on every
/// platform's path syntax. Each such path round-trips through the archive
/// headers unchanged.
pub open spec fn tar_safe_path(p: Seq<char>) -> bool {
    &&& p.len() > 0
    &&& p[0] != '/'
    &&& !p.contains('\0')
    &&& !p.contains('\\')
    &&& !p.contains(':')
    &&& !split_on(p, '/').contains(seq!['.', '.'])
    &&& exists|i: int|
        0 <= i < split_on(p, '/').len() && #[trigger] split_on(p, '/')[i]
            != Seq::<char>::empty() && split_on(p, '/')[i] != seq!['.']
}

/// Relies on tar::Builder::new over flate2's write::GzEncoder::new: a fresh
/// builder writing into an in-memory buffer holds no entries.
#[verifier::external_body]
pub(crate) fn archive_builder_new() -> (b: SnapshotBuilder)
    ensures
        builder_contents(b) == Seq::<(Seq<char>, Seq<u8>)>::empty(),
{
    SnapshotBuilder {
        inner: tar::Builder::new(
            flate2::write::GzEncoder::new(Vec::new(), flate2::Compression::best()),
        ),
    }
}

/// Relies on tar::Builder::append_data with a fresh GNU header carrying only
/// the entry's size and a fixed mode: on success, exactly this path and these
/// bytes are appended after the entries already written. The call succeeds
/// on every tar-acceptable path: its path validation refuses only absolute
/// paths, `..` components, nul bytes and component-free paths (over-long
/// names go through the long-name extension), and writes into the in-memory
/// buffer cannot fail.
#[verifier::external_body]
pub(crate) fn archive_builder_append(
    b: &mut SnapshotBuilder,
    path: &String,
    data: &Vec<u8>,
) -> (r: Result<(), Error>)
    ensures
        tar_safe_path(path@) ==> r is Ok,
        r is Ok ==> builder_contents(*final(b)) == builder_contents(*old(b)).push(
            (path@, data@),
        ),
        r matches Err(e) ==> e == Error::ArchiveError,
{
    let mut h = tar::Header::new_gnu();
    h.set_size(data.len() as u64);
    h.set_mode(0o644);
    h.set_cksum();
    match b.inner.append_data(&mut h, path.as_str(), data.as_slice()) {
        Ok(()) => Ok(()),
        Err(_) => Err(Error::ArchiveError),
    }
}

/// Relies on tar::Builder::into_inner and GzEncoder::finish: the finished
/// bytes depend on the appended entries alone. Finishing writes only the
/// archive's terminator blocks and the gzip trailer into the in-memory
/// buffer, which cannot fail, so the call always succeeds.
#[verifier::external_body]
pub(crate) fn archive_builder_finish(b: SnapshotBuilder) -> (r: Result<Vec<u8>, Error>)
    ensures
        r is Ok,
        r matches Ok(bytes) ==> bytes@ == targz_of(builder_contents(b)),
{
    match b.inner.into_inner() {
        Ok(enc) => match enc.finish() {
            Ok(v) => Ok(v),
            Err(_) => Err(Error::ArchiveError),
        },
        Err(_) => Err(Error::ArchiveError),
    }
}

/// Relies on tar::Archive::entries over flate2's read::GzDecoder: whether
/// unpacking to memory succeeds, and what it returns, depend on the bytes
/// alone.
#[verifier::external_body]
pub(crate) fn targz_unpack(bytes: &Vec<u8>) -> (r: Result<Vec<FileEntry>, Error>)
    ensures
        r is Ok <==> targz_entries(bytes@) is Some,
        r matches Ok(es) ==> Some(entry_views(es@)) == targz_entries(bytes@),
        r matches Err(e) ==> e == Error::ArchiveError,
{
    let mut ar = tar::Archive::new(flate2::read::GzDecoder::new(bytes.as_slice()));
    let mut out: Vec<FileEntry> = Vec::new();
    for ent in ar.entries().map_err(|_| Error::ArchiveError)? {
        let mut ent = ent.map_err(|_| Error::ArchiveError)?;
        let path = ent.path().map_err(|_| Error::ArchiveError)?.to_string_lossy().into_owned();
        let mut data: Vec<u8> = Vec::new();
        std::io::Read::read_to_end(&mut ent, &mut data).map_err(|_| Error::ArchiveError)?;
        out.push(FileEntry { path, data });
    }
    Ok(out)
}

/// The path of each entry, in order.
pub fn entry_names(entries: &Vec<FileEntry>) -> (r: Vec<String>)
    ensures
        views_of(r@) == names_of(entry_views(entries@)),
{
    let mut r: Vec<String> = Vec::new();
    let mut i: usize = 0;
    while i < entries.len()
        invariant
            i <= entries@.len(),
            r@.len() == i,
            forall|j: int| 0 <= j < i ==> (#[trigger] r@[j])@ == entries@[j].path@,
        decreases entries@.len() - i,
    {
        r.push(entries[i].path.clone());
        i += 1;
    }
    proof {
        assert(views_of(r@) =~~= names_of(entry_views(entries@)));
    }
    r
}

} // verus!

use vstd::prelude::*;
use vstd::string::StrSliceExecFns;

use crate::archive::entry_views;
use crate::archive::names_of;
use crate::archive::targz_entries;
use crate::archive::targz_unpack;
use crate::errors::Error;
use crate::ids::pid_eq;
use crate::ids::PackageId;
use crate::ids::PidView;
use crate::pkg_cache::PackageCache;
use crate::text::clone_strings;
use crate::text::views_of;

verus! {

/// A generated manifest: the package's identifier and the ordered relative
/// file paths its archive carries.
pub struct StoredIndex {
    pub id: PackageId,
    pub manifest: Vec<String>,
}

/// The per-package manifest store: manifests keyed by package identifier,
/// held as a vector of entries with pairwise-distinct identifiers.
pub struct IndexStore {
    pub entries: Vec<StoredIndex>,
}

/// A directory entry's name: it ends with the path separator.
pub open spec fn is_dir_name(n: Seq<char>) -> bool {
    n.len() > 0 && n[n.len() - 1] == '/'
}

/// The file entries among the given names, in order: every name that does
/// not denote a directory.
pub open spec fn file_names(names: Seq<Seq<char>>) -> Seq<Seq<char>>
    decreases names.len(),
{
    if names.len() == 0 {
        names
    } else {
        let rest = file_names(names.skip(1));
        if is_dir_name(names[0]) {
            rest
        } else {
            seq![names[0]] + rest
        }
    }
}

/// The manifest derived from a package archive: the names of its file
/// entries, directory entries excluded.
pub open spec fn manifest_of(bytes: Seq<u8>) -> Seq<Seq<char>> {
    file_names(names_of(targz_entries(bytes)->Some_0))
}

impl IndexStore {
    /// The identifiers of the stored manifests, in order.
    pub open spec fn ids(self) -> Seq<PidView> {
        self.entries@.map_values(|e: StoredIndex| e.id@)
    }

    /// The entries hold each identifier at most once.
    pub open spec fn wf(self) -> bool {
        forall|i: int, j: int| 0 <= i < j < self.ids().len() ==> self.ids()[i] != self.ids()[j]
    }

    /// The store as a map from identifier to manifest.
    pub open spec fn as_map(self) -> Map<PidView, Seq<Seq<char>>> {
        Map::new(
            |p: PidView| self.ids().contains(p),
            |p: PidView|
                {
                    let i = choose|i: int| 0 <= i < self.ids().len() && self.ids()[i] == p;
                    views_of(self.entries@[i].manifest@)
                },
        )
    }

    /// Each entry is visible in the map under its own identifier.
    proof fn lemma_lookup(self, i: int)
        requires
            self.wf(),
            0 <= i < self.entries@.len(),
        ensures
            self.as_map().dom().contains(self.entries@[i].id@),
            self.as_map()[self.entries@[i].id@] == views_of(self.entries@[i].manifest@),
    {
        let p = self.entries@[i].id@;
        assert(self.ids()[i] == p);
        assert(self.ids().contains(p));
        let j = choose|j: int| 0 <= j < self.ids().len() && self.ids()[j] == p;
        if i < j {
            assert(self.ids()[i] != self.ids()[j]);
        } else if j < i {
            assert(self.ids()[j] != self.ids()[i]);
        }
    }

    /// Some entry carries every identifier the map holds, with the map's
    /// manifest.
    proof fn lemma_dom_entry(self, q: PidView)
        requires
            self.wf(),
            self.as_map().dom().contains(q),
        ensures
            exists|j: int|
                0 <= j < self.entries@.len() && (#[trigger] self.entries@[j]).id@ == q
                    && self.as_map()[q] == views_of(self.entries@[j].manifest@),
    {
        let k = choose|k: int| 0 <= k < self.ids().len() && self.ids()[k] == q;
        assert(self.entries@[k].id@ == q);
        self.lemma_lookup(k);
    }

    /// An empty store.
    pub fn new() -> (r: IndexStore)
        ensures
            r.wf(),
            r.as_map() == Map::<PidView, Seq<Seq<char>>>::empty(),
    {
        let r = IndexStore { entries: Vec::new() };
        proof {
            assert(r.as_map() =~~= Map::<PidView, Seq<Seq<char>>>::empty());
        }
        r
    }

    /// True exactly when the package already has a generated manifest.
    pub fn mod_has_index(&self, id: &PackageId) -> (r: bool)
        ensures
            r == self.as_map().dom().contains(id@),
    {
        let mut i: usize = 0;
        while i < self.entries.len()
            invariant
                i <= self.entries@.len(),
                forall|j: int| 0 <= j < i ==> (#[trigger] self.entries@[j]).id@ != id@,
            decreases self.entries@.len() - i,
        {
            if pid_eq(&self.entries[i].id, id) {
                assert(self.ids()[i as int] == id@);
                return true;
            }
            i += 1;
        }
        proof {
            assert forall|j: int| 0 <= j < self.ids().len() implies self.ids()[j] != id@ by {
                assert(self.ids()[j] == self.entries@[j].id@);
            }
        }
        false
    }

    /// The package's stored manifest, if one was generated.
    pub fn load_index(&self, id: &PackageId) -> (r: Option<Vec<String>>)
        requires
            self.wf(),
        ensures
            match r {
                Some(m) => self.as_map().dom().contains(id@) && views_of(m@) == self.as_map()[id@],
                None => !self.as_map().dom().contains(id@),
            },
    {
        let mut i: usize = 0;
        while i < self.entries.len()
            invariant
                i <= self.entries@.len(),
                self.wf(),
                forall|j: int| 0 <= j < i ==> (#[trigger] self.entries@[j]).id@ != id@,
            decreases self.entries@.len() - i,
        {
            if pid_eq(&self.entries[i].id, id) {
                proof {
                    self.lemma_lookup(i as int);
                }
                return Some(clone_strings(&self.entries[i].manifest));
            }
            i += 1;
        }
        proof {
            assert forall|j: int| 0 <= j < self.ids().len() implies self.ids()[j] != id@ by {
                assert(self.ids()[j] == self.entries@[j].id@);
            }
        }
        None
    }

    /// Stores a manifest for the package, replacing any existing one.
    fn insert(&mut self, id: &PackageId, manifest: Vec<String>)
        requires
            old(self).wf(),
        ensures
            final(self).wf(),
            final(self).as_map() == old(self).as_map().insert(id@, views_of(manifest@)),
    {
        let entry = StoredIndex { id: id.duplicate(), manifest };
        let mut i: usize = 0;
        while i < self.entries.len()
            invariant
                i <= self.entries@.len(),
                *self == *old(self),
                old(self).wf(),
                entry.id@ == id@ && entry.manifest@ == manifest@,
                forall|j: int| 0 <= j < i ==> (#[trigger] self.entries@[j]).id@ != id@,
            decreases self.entries@.len() - i,
        {
            if pid_eq(&self.entries[i].id, id) {
                let ghost pre = *self;
                self.entries.set(i, entry);
                proof {
                    assert(self.ids() =~= pre.ids()) by {
                        assert forall|k: int| 0 <= k < self.ids().len() implies self.ids()[k]
                            == pre.ids()[k] by {
                            if k != i {
                                assert(self.entries@[k] == pre.entries@[k]);
                            } else {
                                assert(self.entries@[k].id@ == id@);
                                assert(pre.entries@[k].id@ == id@);
                            }
                        }
                    }
                    assert(self.wf());
                    lemma_store_insert_at(pre, *self, id@, views_of(manifest@), i as int);
                }
                return ;
            }
            i += 1;
        }
        let ghost pre = *self;
        self.entries.push(entry);
        proof {
            assert(self.ids() =~= pre.ids().push(id@));
            assert forall|a: int, b: int|
                0 <= a < b < self.ids().len() implies self.ids()[a] != self.ids()[b] by {
                if b == self.ids().len() - 1 {
                    assert(pre.ids()[a] == pre.entries@[a].id@);
                }
            }
            lemma_store_insert_pushed(pre, *self, id@, views_of(manifest@));
        }
    }

    /// Derives and stores the package's manifest from its cached archive:
    /// the archive's entry names in order, directory entries excluded.
    /// Requires the archive to be present in the local cache; corrupt bytes
    /// are refused and leave the store unchanged.
    pub fn generate_index(&mut self, cache: &PackageCache, id: &PackageId) -> (r: Result<
        Vec<String>,
        Error,
    >)
        requires
            old(self).wf(),
            cache.wf(),
        ensures
            final(self).wf(),
            !cache.as_map().dom().contains(id@) ==> r == Err::<Vec<String>, Error>(
                Error::PackageNotCached,
            ) && *final(self) == *old(self),
            cache.as_map().dom().contains(id@) && targz_entries(cache.as_map()[id@]) is None
                ==> r == Err::<Vec<String>, Error>(Error::ArchiveError) && *final(self) == *old(
                self,
            ),
            cache.as_map().dom().contains(id@) && targz_entries(cache.as_map()[id@]) is Some ==> {
                &&& r is Ok
                &&& r matches Ok(v) ==> views_of(v@) == manifest_of(cache.as_map()[id@])
                &&& final(self).as_map() == old(self).as_map().insert(
                    id@,
                    manifest_of(cache.as_map()[id@]),
                )
            },
    {
        let bytes = match cache.get(id) {
            Some(b) => b,
            None => {
                return Err(Error::PackageNotCached);
            },
        };
        let entries = match targz_unpack(bytes) {
            Ok(es) => es,
            Err(_) => {
                return Err(Error::ArchiveError);
            },
        };
        let ghost full = names_of(entry_views(entries@));
        let mut manifest: Vec<String> = Vec::new();
        let mut i: usize = 0;
        proof {
            assert(full.skip(0) =~= full);
            assert(file_names(full) =~= views_of(manifest@) + file_names(full.skip(0)));
        }
        while i < entries.len()
            invariant
                i <= entries@.len(),
                full == names_of(entry_views(entries@)),
                file_names(full) == views_of(manifest@) + file_names(full.skip(i as int)),
            decreases entries@.len() - i,
        {
            let ghost tail = full.skip(i as int);
            let ghost x = entries@[i as int].path@;
            proof {
                assert(entry_views(entries@)[i as int] == entries@[i as int]@);
                assert(tail[0] == x);
                assert(tail.skip(1) =~= full.skip(i + 1));
            }
            let path = &entries[i].path;
            let n: usize = path.as_str().unicode_len();
            let is_dir = n > 0 && path.as_str().get_char(n - 1) == '/';
            proof {
                assert(is_dir == is_dir_name(x));
            }
            if !is_dir {
                let ghost manifest0 = manifest@;
                manifest.push(path.clone());
                proof {
                    assert(file_names(tail) == seq![x] + file_names(full.skip(i + 1)));
                    assert(views_of(manifest@) =~~= views_of(manifest0) + seq![x]);
                    assert(views_of(manifest0) + (seq![x] + file_names(full.skip(i + 1))) =~= (
                    views_of(manifest0) + seq![x]) + file_names(full.skip(i + 1)));
                }
            } else {
                proof {
                    assert(file_names(tail) == file_names(full.skip(i + 1)));
                }
            }
            i += 1;
        }
        proof {
            assert(full.skip(full.len() as int) =~= Seq::<Seq<char>>::empty());
            assert(file_names(Seq::<Seq<char>>::empty()) =~= Seq::<Seq<char>>::empty());
            assert(views_of(manifest@) + Seq::<Seq<char>>::empty() =~= views_of(manifest@));
            assert(views_of(manifest@) == manifest_of(cache.as_map()[id@]));
        }
        let out = clone_strings(&manifest);
        self.insert(id, manifest);
        Ok(out)
    }

    /// The package's manifest, loaded if already generated, and otherwise
    /// derived from the cached archive and stored.
    pub fn ensure_index(&mut self, cache: &PackageCache, id: &PackageId) -> (r: Result<
        Vec<String>,
        Error,
    >)
        requires
            old(self).wf(),
            cache.wf(),
        ensures
            final(self).wf(),
            old(self).as_map().dom().contains(id@) ==> *final(self) == *old(self) && r is Ok && (
            r matches Ok(v) ==> views_of(v@) == old(self).as_map()[id@]),
            !old(self).as_map().dom().contains(id@) ==> {
                &&& !cache.as_map().dom().contains(id@) ==> r == Err::<Vec<String>, Error>(
                    Error::PackageNotCached,
                ) && *final(self) == *old(self)
                &&& cache.as_map().dom().contains(id@) && targz_entries(cache.as_map()[id@])
                    is None ==> r == Err::<Vec<String>, Error>(Error::ArchiveError) && *final(self)
                    == *old(self)
                &&& cache.as_map().dom().contains(id@) && targz_entries(cache.as_map()[id@])
                    is Some ==> {
                    &&& r is Ok
                    &&& r matches Ok(v) ==> views_of(v@) == manifest_of(cache.as_map()[id@])
                    &&& final(self).as_map() == old(self).as_map().insert(
                        id@,
                        manifest_of(cache.as_map()[id@]),
                    )
                }
            },
    {
        match self.load_index(id) {
            Some(m) => Ok(m),
            None => self.generate_index(cache, id),
        }
    }
}

/// Overwriting the manifest at index `i`, the identifier kept, rebinds
/// exactly that identifier in the store's map.
proof fn lemma_store_insert_at(
    pre: IndexStore,
    post: IndexStore,
    id: PidView,
    manifest: Seq<Seq<char>>,
    i: int,
)
    requires
        pre.wf(),
        post.wf(),
        post.entries@.len() == pre.entries@.len(),
        0 <= i < pre.entries@.len(),
        forall|j: int|
            0 <= j < pre.entries@.len() && j != i ==> post.entries@[j] == pre.entries@[j],
        pre.entries@[i].id@ == id,
        post.entries@[i].id@ == id,
        views_of(post.entries@[i].manifest@) == manifest,
    ensures
        post.as_map() == pre.as_map().insert(id, manifest),
{
    let target = pre.as_map().insert(id, manifest);
    assert(pre.ids()[i] == id);
    assert(pre.ids().contains(id));
    assert(post.ids() =~= pre.ids()) by {
        assert forall|k: int| 0 <= k < post.ids().len() implies post.ids()[k] == pre.ids()[k] by {
            if k != i {
                assert(post.entries@[k] == pre.entries@[k]);
            }
        }
    }
    assert forall|q: PidView| post.as_map().dom().contains(q) implies target.dom().contains(q)
        && post.as_map()[q] == target[q] by {
        post.lemma_dom_entry(q);
        let j = choose|j: int|
            0 <= j < post.entries@.len() && (#[trigger] post.entries@[j]).id@ == q
                && post.as_map()[q] == views_of(post.entries@[j].manifest@);
        if q == id {
            if j != i {
                assert(post.ids()[j] == q && post.ids()[i] == q);
            }
            assert(post.as_map()[q] == manifest);
        } else {
            assert(j != i);
            assert(post.entries@[j] == pre.entries@[j]);
            pre.lemma_lookup(j);
            assert(pre.ids()[j] == q);
        }
    }
    assert forall|q: PidView| target.dom().contains(q) implies post.as_map().dom().contains(
        q,
    ) by {
        if q == id {
            assert(post.ids()[i] == q);
        } else {
            assert(pre.as_map().dom().contains(q));
            pre.lemma_dom_entry(q);
            let j = choose|j: int|
                0 <= j < pre.entries@.len() && (#[trigger] pre.entries@[j]).id@ == q
                    && pre.as_map()[q] == views_of(pre.entries@[j].manifest@);
            assert(post.ids()[j] == q);
        }
    }
    assert(post.as_map() =~~= target);
}

/// Pushing an entry with a fresh identifier adds exactly that binding to the
/// store's map.
proof fn lemma_store_insert_pushed(
    pre: IndexStore,
    post: IndexStore,
    id: PidView,
    manifest: Seq<Seq<char>>,
)
    requires
        pre.wf(),
        post.wf(),
        post.entries@.len() == pre.entries@.len() + 1,
        forall|j: int| 0 <= j < pre.entries@.len() ==> post.entries@[j] == pre.entries@[j],
        post.entries@.last().id@ == id,
        views_of(post.entries@.last().manifest@) == manifest,
        !pre.ids().contains(id),
    ensures
        post.as_map() == pre.as_map().insert(id, manifest),
{
    broadcast use vstd::seq_lib::lemma_seq_contains_after_push;

    let target = pre.as_map().insert(id, manifest);
    let n = pre.entries@.len() as int;
    assert(post.ids() =~= pre.ids().push(id)) by {
        assert forall|k: int| 0 <= k < post.ids().len() implies post.ids()[k] == pre.ids().push(
            id,
        )[k] by {
            if k < n {
                assert(post.entries@[k] == pre.entries@[k]);
            } else {
                assert(post.entries@[k].id@ == id);
            }
        }
    }
    assert forall|q: PidView| post.as_map().dom().contains(q) implies target.dom().contains(q)
        && post.as_map()[q] == target[q] by {
        post.lemma_dom_entry(q);
        let j = choose|j: int|
            0 <= j < post.entries@.len() && (#[trigger] post.entries@[j]).id@ == q
                && post.as_map()[q] == views_of(post.entries@[j].manifest@);
        if j == n {
            assert(q == id);
            assert(post.as_map()[q] == manifest);
        } else {
            assert(post.entries@[j] == pre.entries@[j]);
            pre.lemma_lookup(j);
            assert(pre.ids()[j] == q);
            assert(q != id);
        }
    }
    assert forall|q: PidView| target.dom().contains(q) implies post.as_map().dom().contains(
        q,
    ) by {
        if q == id {
            assert(post.entries@[n].id@ == q);
            assert(post.ids()[n] == q);
        } else {
            pre.lemma_dom_entry(q);
            let j = choose|j: int|
                0 <= j < pre.entries@.len() && (#[trigger] pre.entries@[j]).id@ == q
                    && pre.as_map()[q] == views_of(pre.entries@[j].manifest@);
            assert(post.ids()[j] == q);
        }
    }
    assert(post.as_map() =~~= target);
}

} // verus!

use vstd::prelude::*;

use crate::ids::pid_eq;
use crate::ids::PackageId;
use crate::ids::PidView;

verus! {

/// One locally cached package: its identifier and its raw archive bytes.
pub struct CachedPackage {
    pub id: PackageId,
    pub bytes: Vec<u8>,
}

/// The local package cache: archive bytes keyed by package identifier, held
/// as a vector of entries with pairwise-distinct identifiers.
pub struct PackageCache {
    pub entries: Vec<CachedPackage>,
}

impl PackageCache {
    /// The identifiers of the cached packages, in order.
    pub open spec fn ids(self) -> Seq<PidView> {
        self.entries@.map_values(|e: CachedPackage| e.id@)
    }

    /// The entries hold each identifier at most once.
    pub open spec fn wf(self) -> bool {
        forall|i: int, j: int| 0 <= i < j < self.ids().len() ==> self.ids()[i] != self.ids()[j]
    }

    /// The cache as a map from identifier to archive bytes.
    pub open spec fn as_map(self) -> Map<PidView, Seq<u8>> {
        Map::new(
            |p: PidView| self.ids().contains(p),
            |p: PidView|
                {
                    let i = choose|i: int| 0 <= i < self.ids().len() && self.ids()[i] == p;
                    self.entries@[i].bytes@
                },
        )
    }

    /// Each entry is visible in the map under its own identifier.
    proof fn lemma_lookup(self, i: int)
        requires
            self.wf(),
            0 <= i < self.entries@.len(),
        ensures
            self.as_map().dom().contains(self.entries@[i].id@),
            self.as_map()[self.entries@[i].id@] == self.entries@[i].bytes@,
    {
        let p = self.entries@[i].id@;
        assert(self.ids()[i] == p);
        assert(self.ids().contains(p));
        let j = choose|j: int| 0 <= j < self.ids().len() && self.ids()[j] == p;
        if i < j {
            assert(self.ids()[i] != self.ids()[j]);
        } else if j < i {
            assert(self.ids()[j] != self.ids()[i]);
        }
    }

    /// Some entry carries every identifier the map holds, with the map's
    /// bytes.
    proof fn lemma_dom_entry(self, q: PidView)
        requires
            self.wf(),
            self.as_map().dom().contains(q),
        ensures
            exists|j: int|
                0 <= j < self.entries@.len() && (#[trigger] self.entries@[j]).id@ == q
                    && self.as_map()[q] == self.entries@[j].bytes@,
    {
        let k = choose|k: int| 0 <= k < self.ids().len() && self.ids()[k] == q;
        assert(self.entries@[k].id@ == q);
        self.lemma_lookup(k);
    }

    /// An empty cache.
    pub fn new() -> (r: PackageCache)
        ensures
            r.wf(),
            r.as_map() == Map::<PidView, Seq<u8>>::empty(),
    {
        let r = PackageCache { entries: Vec::new() };
        proof {
            assert(r.as_map() =~~= Map::<PidView, Seq<u8>>::empty());
        }
        r
    }

    /// True exactly when the package's archive is present in the cache.
    pub fn mod_is_cached(&self, id: &PackageId) -> (r: bool)
        ensures
            r == self.as_map().dom().contains(id@),
    {
        let mut i: usize = 0;
        while i < self.entries.len()
            invariant
                i <= self.entries@.len(),
                forall|j: int| 0 <= j < i ==> (#[trigger] self.entries@[j]).id@ != id@,
            decreases self.entries@.len() - i,
        {
            if pid_eq(&self.entries[i].id, id) {
                assert(self.ids()[i as int] == id@);
                return true;
            }
            i += 1;
        }
        proof {
            assert forall|j: int| 0 <= j < self.ids().len() implies self.ids()[j] != id@ by {
                assert(self.ids()[j] == self.entries@[j].id@);
            }
        }
        false
    }

    /// The cached archive bytes of the package, if present.
    pub fn get(&self, id: &PackageId) -> (r: Option<&Vec<u8>>)
        requires
            self.wf(),
        ensures
            match r {
                Some(b) => self.as_map().dom().contains(id@) && b@ == self.as_map()[id@],
                None => !self.as_map().dom().contains(id@),
            },
    {
        let mut i: usize = 0;
        while i < self.entries.len()
            invariant
                i <= self.entries@.len(),
                self.wf(),
                forall|j: int| 0 <= j < i ==> (#[trigger] self.entries@[j]).id@ != id@,
            decreases self.entries@.len() - i,
        {
            if pid_eq(&self.entries[i].id, id) {
                proof {
                    self.lemma_lookup(i as int);
                }
                return Some(&self.entries[i].bytes);
            }
            i += 1;
        }
        proof {
            assert forall|j: int| 0 <= j < self.ids().len() implies self.ids()[j] != id@ by {
                assert(self.ids()[j] == self.entries@[j].id@);
            }
        }
        None
    }

    /// Stores the package's archive bytes, replacing any cached copy.
    pub fn insert(&mut self, id: &PackageId, bytes: Vec<u8>)
        requires
            old(self).wf(),
        ensures
            final(self).wf(),
            final(self).as_map() == old(self).as_map().insert(id@, bytes@),
    {
        let entry = CachedPackage { id: id.duplicate(), bytes };
        let mut i: usize = 0;
        while i < self.entries.len()
            invariant
                i <= self.entries@.len(),
                *self == *old(self),
                old(self).wf(),
                entry.id@ == id@ && entry.bytes@ == bytes@,
                forall|j: int| 0 <= j < i ==> (#[trigger] self.entries@[j]).id@ != id@,
            decreases self.entries@.len() - i,
        {
            if pid_eq(&self.entries[i].id, id) {
                let ghost pre = *self;
                self.entries.set(i, entry);
                proof {
                    assert(self.ids() =~= pre.ids()) by {
                        assert forall|k: int| 0 <= k < self.ids().len() implies self.ids()[k]
                            == pre.ids()[k] by {
                            if k != i {
                                assert(self.entries@[k] == pre.entries@[k]);
                            } else {
                                assert(self.entries@[k].id@ == id@);
                                assert(pre.entries@[k].id@ == id@);
                            }
                        }
                    }
                    assert(self.wf());
                    lemma_cache_insert_at(pre, *self, id@, bytes@, i as int);
                }
                return ;
            }
            i += 1;
        }
        let ghost pre = *self;
        self.entries.push(entry);
        proof {
            assert(self.ids() =~= pre.ids().push(id@));
            assert forall|a: int, b: int|
                0 <= a < b < self.ids().len() implies self.ids()[a] != self.ids()[b] by {
                if b == self.ids().len() - 1 {
                    assert(pre.ids()[a] == pre.entries@[a].id@);
                }
            }
            lemma_cache_insert_pushed(pre, *self, id@, bytes@);
        }
    }
}

/// Overwriting the bytes at index `i`, the identifier kept, rebinds exactly
/// that identifier in the cache's map.
proof fn lemma_cache_insert_at(
    pre: PackageCache,
    post: PackageCache,
    id: PidView,
    bytes: Seq<u8>,
    i: int,
)
    requires
        pre.wf(),
        post.wf(),
        post.entries@.len() == pre.entries@.len(),
        0 <= i < pre.entries@.len(),
        forall|j: int|
            0 <= j < pre.entries@.len() && j != i ==> post.entries@[j] == pre.entries@[j],
        pre.entries@[i].id@ == id,
        post.entries@[i].id@ == id,
        post.entries@[i].bytes@ == bytes,
    ensures
        post.as_map() == pre.as_map().insert(id, bytes),
{
    let target = pre.as_map().insert(id, bytes);
    assert(pre.ids()[i] == id);
    assert(pre.ids().contains(id));
    assert(post.ids() =~= pre.ids()) by {
        assert forall|k: int| 0 <= k < post.ids().len() implies post.ids()[k] == pre.ids()[k] by {
            if k != i {
                assert(post.entries@[k] == pre.entries@[k]);
            }
        }
    }
    assert forall|q: PidView| post.as_map().dom().contains(q) implies target.dom().contains(q)
        && post.as_map()[q] == target[q] by {
        post.lemma_dom_entry(q);
        let j = choose|j: int|
            0 <= j < post.entries@.len() && (#[trigger] post.entries@[j]).id@ == q
                && post.as_map()[q] == post.entries@[j].bytes@;
        if q == id {
            if j != i {
                assert(post.ids()[j] == q && post.ids()[i] == q);
            }
            assert(post.as_map()[q] == bytes);
        } else {
            assert(j != i);
            assert(post.entries@[j] == pre.entries@[j]);
            pre.lemma_lookup(j);
            assert(pre.ids()[j] == q);
        }
    }
    assert forall|q: PidView| target.dom().contains(q) implies post.as_map().dom().contains(
        q,
    ) by {
        if q == id {
            assert(post.ids()[i] == q);
        } else {
            assert(pre.as_map().dom().contains(q));
            pre.lemma_dom_entry(q);
            let j = choose|j: int|
                0 <= j < pre.entries@.len() && (#[trigger] pre.entries@[j]).id@ == q
                    && pre.as_map()[q] == pre.entries@[j].bytes@;
            assert(post.ids()[j] == q);
        }
    }
    assert(post.as_map() =~~= target);
}

/// Pushing an entry with a fresh identifier adds exactly that binding to the
/// cache's map.
proof fn lemma_cache_insert_pushed(
    pre: PackageCache,
    post: PackageCache,
    id: PidView,
    bytes: Seq<u8>,
)
    requires
        pre.wf(),
        post.wf(),
        post.entries@.len() == pre.entries@.len() + 1,
        forall|j: int| 0 <= j < pre.entries@.len() ==> post.entries@[j] == pre.entries@[j],
        post.entries@.last().id@ == id,
        post.entries@.last().bytes@ == bytes,
        !pre.ids().contains(id),
    ensures
        post.as_map() == pre.as_map().insert(id, bytes),
{
    broadcast use vstd::seq_lib::lemma_seq_contains_after_push;

    let target = pre.as_map().insert(id, bytes);
    let n = pre.entries@.len() as int;
    assert(post.ids() =~= pre.ids().push(id)) by {
        assert forall|k: int| 0 <= k < post.ids().len() implies post.ids()[k] == pre.ids().push(
            id,
        )[k] by {
            if k < n {
                assert(post.entries@[k] == pre.entries@[k]);
            } else {
                assert(post.entries@[k].id@ == id);
            }
        }
    }
    assert forall|q: PidView| post.as_map().dom().contains(q) implies target.dom().contains(q)
        && post.as_map()[q] == target[q] by {
        post.lemma_dom_entry(q);
        let j = choose|j: int|
            0 <= j < post.entries@.len() && (#[trigger] post.entries@[j]).id@ == q
                && post.as_map()[q] == post.entries@[j].bytes@;
        if j == n {
            assert(q == id);
            assert(post.as_map()[q] == bytes);
        } else {
            assert(post.entries@[j] == pre.entries@[j]);
            pre.lemma_lookup(j);
            assert(pre.ids()[j] == q);
            assert(q != id);
        }
    }
    assert forall|q: PidView| target.dom().contains(q) implies post.as_map().dom().contains(
        q,
    ) by {
        if q == id {
            assert(post.entries@[n].id@ == q);
            assert(post.ids()[n] == q);
        } else {
            pre.lemma_dom_entry(q);
            let j = choose|j: int|
                0 <= j < pre.entries@.len() && (#[trigger] pre.entries@[j]).id@ == q
                    && pre.as_map()[q] == pre.entries@[j].bytes@;
            assert(post.ids()[j] == q);
        }
    }
    assert(post.as_map() =~~= target);
}

} // verus!

use vstd::prelude::*;
use vstd::seq_lib::lemma_seq_contains_after_push;

use crate::errors::Error;
use crate::ids::pid_eq;
use crate::ids::valid_mod_value;
use crate::ids::PackageId;
use crate::ids::PidView;
use crate::text::split_on;
use crate::text::views_of;

verus! {

/// One registry entry: an installed file path and the owning package.
pub struct OwnEntry {
    pub path: String,
    pub owner: PackageId,
}

/// The per-profile ownership registry: a map from installed file path to the
/// owning package, held as a vector of entries with pairwise-distinct paths.
pub struct Registry {
    pub entries: Vec<OwnEntry>,
}

/// The map after an installation claims every path of `paths` for `owner`,
/// overwriting any previous owner.
pub open spec fn install_map(
    m: Map<Seq<char>, PidView>,
    owner: PidView,
    paths: Seq<Seq<char>>,
) -> Map<Seq<char>, PidView> {
    Map::new(
        |p: Seq<char>| m.dom().contains(p) || paths.contains(p),
        |p: Seq<char>|
            if paths.contains(p) {
                owner
            } else {
                m[p]
            },
    )
}

/// The map after an uninstallation: each path of `paths` is dropped exactly
/// when its current owner is `owner`; every other binding is kept.
pub open spec fn uninstall_map(
    m: Map<Seq<char>, PidView>,
    owner: PidView,
    paths: Seq<Seq<char>>,
) -> Map<Seq<char>, PidView> {
    Map::new(
        |p: Seq<char>| m.dom().contains(p) && !(paths.contains(p) && m[p] == owner),
        |p: Seq<char>| m[p],
    )
}

/// The map after dropping one path, if its current owner is `owner`.
pub open spec fn uninstall_one(
    m: Map<Seq<char>, PidView>,
    owner: PidView,
    path: Seq<char>,
) -> Map<Seq<char>, PidView> {
    if m.dom().contains(path) && m[path] == owner {
        m.remove(path)
    } else {
        m
    }
}

impl Registry {
    /// The paths of the entries, in order.
    pub open spec fn paths(self) -> Seq<Seq<char>> {
        self.entries@.map_values(|e: OwnEntry| e.path@)
    }

    /// The entries hold each path at most once.
    pub open spec fn wf(self) -> bool {
        forall|i: int, j: int|
            0 <= i < j < self.paths().len() ==> self.paths()[i] != self.paths()[j]
    }

    /// The registry as a map from path to owner.
    pub open spec fn as_map(self) -> Map<Seq<char>, PidView> {
        Map::new(
            |p: Seq<char>| self.paths().contains(p),
            |p: Seq<char>|
                {
                    let i = choose|i: int|
                        0 <= i < self.paths().len() && self.paths()[i] == p;
                    self.entries@[i].owner@
                },
        )
    }

    /// Each entry is visible in the map under its own path.
    proof fn lemma_lookup(self, i: int)
        requires
            self.wf(),
            0 <= i < self.entries@.len(),
        ensures
            self.as_map().dom().contains(self.entries@[i].path@),
            self.as_map()[self.entries@[i].path@] == self.entries@[i].owner@,
    {
        let p = self.entries@[i].path@;
        assert(self.paths()[i] == p);
        assert(self.paths().contains(p));
        let j = choose|j: int| 0 <= j < self.paths().len() && self.paths()[j] == p;
        if i < j {
            assert(self.paths()[i] != self.paths()[j]);
        } else if j < i {
            assert(self.paths()[j] != self.paths()[i]);
        }
    }

    /// An empty registry.
    pub fn new() -> (r: Registry)
        ensures
            r.wf(),
            r.as_map() == Map::<Seq<char>, PidView>::empty(),
    {
        let r = Registry { entries: Vec::new() };
        proof {
            assert(r.as_map() =~= Map::<Seq<char>, PidView>::empty());
        }
        r
    }

    /// The current owner of `path`, if any.
    pub fn owner_of(&self, path: &String) -> (r: Option<PackageId>)
        requires
            self.wf(),
        ensures
            match r {
                Some(p) => self.as_map().dom().contains(path@) && p@ == self.as_map()[path@],
                None => !self.as_map().dom().contains(path@),
            },
    {
        let mut i: usize = 0;
        while i < self.entries.len()
            invariant
                i <= self.entries@.len(),
                self.wf(),
                forall|j: int| 0 <= j < i ==> (#[trigger] self.entries@[j]).path@ != path@,
            decreases self.entries@.len() - i,
        {
            if self.entries[i].path == *path {
                proof {
                    self.lemma_lookup(i as int);
                }
                return Some(self.entries[i].owner.duplicate());
            }
            i += 1;
        }
        proof {
            assert forall|j: int| 0 <= j < self.paths().len() implies self.paths()[j]
                != path@ by {
                assert(self.paths()[j] == self.entries@[j].path@);
            }
        }
        None
    }

    /// Some entry carries every path the map holds, with the map's owner.
    proof fn lemma_dom_entry(self, q: Seq<char>)
        requires
            self.wf(),
            self.as_map().dom().contains(q),
        ensures
            exists|j: int|
                0 <= j < self.entries@.len() && (#[trigger] self.entries@[j]).path@ == q
                    && self.as_map()[q] == self.entries@[j].owner@,
    {
        let k = choose|k: int| 0 <= k < self.paths().len() && self.paths()[k] == q;
        assert(self.entries@[k].path@ == q);
        self.lemma_lookup(k);
    }

    /// Binds `path` to `owner`, overwriting any existing binding.
    fn upsert(&mut self, path: &String, owner: &PackageId)
        requires
            old(self).wf(),
        ensures
            final(self).wf(),
            final(self).as_map() == old(self).as_map().insert(path@, owner@),
    {
        let entry = OwnEntry { path: path.clone(), owner: owner.duplicate() };
        let mut i: usize = 0;
        while i < self.entries.len()
            invariant
                i <= self.entries@.len(),
                *self == *old(self),
                old(self).wf(),
                entry.path@ == path@ && entry.owner@ == owner@,
                forall|j: int| 0 <= j < i ==> (#[trigger] self.entries@[j]).path@ != path@,
            decreases self.entries@.len() - i,
        {
            if self.entries[i].path == *path {
                let ghost pre = *self;
                self.entries.set(i, entry);
                proof {
                    assert(self.paths() =~= pre.paths()) by {
                        assert forall|k: int|
                            0 <= k < self.paths().len() implies self.paths()[k]
                            == pre.paths()[k] by {
                            if k != i {
                                assert(self.entries@[k] == pre.entries@[k]);
                            } else {
                                assert(self.entries@[k].path@ == path@);
                                assert(pre.entries@[k].path@ == path@);
                            }
                        }
                    }
                    assert(self.wf());
                    lemma_insert_at(pre, *self, path@, owner@, i as int);
                }
                return ;
            }
            i += 1;
        }
        let ghost pre = *self;
        self.entries.push(entry);
        proof {
            assert(self.paths() =~= pre.paths().push(path@));
            assert forall|a: int, b: int|
                0 <= a < b < self.paths().len() implies self.paths()[a] != self.paths()[b] by {
                if b == self.paths().len() - 1 {
                    assert(pre.paths()[a] == pre.entries@[a].path@);
                }
            }
            lemma_insert_pushed(pre, *self, path@, owner@);
        }
    }
}

/// Overwriting the owner at index `i`, the path kept, rebinds exactly that
/// path in the registry's map.
proof fn lemma_insert_at(pre: Registry, post: Registry, path: Seq<char>, owner: PidView, i: int)
    requires
        pre.wf(),
        post.wf(),
        post.entries@.len() == pre.entries@.len(),
        0 <= i < pre.entries@.len(),
        forall|j: int|
            0 <= j < pre.entries@.len() && j != i ==> post.entries@[j] == pre.entries@[j],
        pre.entries@[i].path@ == path,
        post.entries@[i].path@ == path,
        post.entries@[i].owner@ == owner,
    ensures
        post.as_map() == pre.as_map().insert(path, owner),
{
    let target = pre.as_map().insert(path, owner);
    assert(pre.paths()[i] == path);
    assert(pre.paths().contains(path));
    assert(post.paths() =~= pre.paths()) by {
        assert forall|k: int| 0 <= k < post.paths().len() implies post.paths()[k]
            == pre.paths()[k] by {
            if k != i {
                assert(post.entries@[k] == pre.entries@[k]);
            }
        }
    }
    assert forall|q: Seq<char>| post.as_map().dom().contains(q) implies target.dom().contains(q)
        && post.as_map()[q] == target[q] by {
        post.lemma_dom_entry(q);
        let j = choose|j: int|
            0 <= j < post.entries@.len() && (#[trigger] post.entries@[j]).path@ == q
                && post.as_map()[q] == post.entries@[j].owner@;
        if q == path {
            if j != i {
                assert(post.paths()[j] == q && post.paths()[i] == q);
            }
            assert(post.as_map()[q] == owner);
        } else {
            assert(j != i);
            assert(post.entries@[j] == pre.entries@[j]);
            pre.lemma_lookup(j);
            assert(pre.paths()[j] == q);
        }
    }
    assert forall|q: Seq<char>| target.dom().contains(q) implies post.as_map().dom().contains(
        q,
    ) by {
        if q == path {
            assert(post.paths()[i] == q);
        } else {
            assert(pre.as_map().dom().contains(q));
            pre.lemma_dom_entry(q);
            let j = choose|j: int|
                0 <= j < pre.entries@.len() && (#[trigger] pre.entries@[j]).path@ == q
                    && pre.as_map()[q] == pre.entries@[j].owner@;
            assert(post.paths()[j] == q);
        }
    }
    assert(post.as_map() =~~= target);
}

/// Pushing an entry with a fresh path adds exactly that binding to the
/// registry's map.
proof fn lemma_insert_pushed(pre: Registry, post: Registry, path: Seq<char>, owner: PidView)
    requires
        pre.wf(),
        post.wf(),
        post.entries@.len() == pre.entries@.len() + 1,
        forall|j: int| 0 <= j < pre.entries@.len() ==> post.entries@[j] == pre.entries@[j],
        post.entries@.last().path@ == path,
        post.entries@.last().owner@ == owner,
        !pre.paths().contains(path),
    ensures
        post.as_map() == pre.as_map().insert(path, owner),
{
    broadcast use lemma_seq_contains_after_push;

    let target = pre.as_map().insert(path, owner);
    let n = pre.entries@.len() as int;
    assert(post.paths() =~= pre.paths().push(path)) by {
        assert forall|k: int| 0 <= k < post.paths().len() implies post.paths()[k] == pre.paths(
        ).push(path)[k] by {
            if k < n {
                assert(post.entries@[k] == pre.entries@[k]);
            } else {
                assert(post.entries@[k].path@ == path);
            }
        }
    }
    assert forall|q: Seq<char>| post.as_map().dom().contains(q) implies target.dom().contains(q)
        && post.as_map()[q] == target[q] by {
        post.lemma_dom_entry(q);
        let j = choose|j: int|
            0 <= j < post.entries@.len() && (#[trigger] post.entries@[j]).path@ == q
                && post.as_map()[q] == post.entries@[j].owner@;
        if j == n {
            assert(q == path);
            assert(post.as_map()[q] == owner);
        } else {
            assert(post.entries@[j] == pre.entries@[j]);
            pre.lemma_lookup(j);
            assert(pre.paths()[j] == q);
            assert(q != path);
        }
    }
    assert forall|q: Seq<char>| target.dom().contains(q) implies post.as_map().dom().contains(
        q,
    ) by {
        if q == path {
            assert(post.entries@[n].path@ == q);
            assert(post.paths()[n] == q);
        } else {
            pre.lemma_dom_entry(q);
            let j = choose|j: int|
                0 <= j < pre.entries@.len() && (#[trigger] pre.entries@[j]).path@ == q
                    && pre.as_map()[q] == pre.entries@[j].owner@;
            assert(post.paths()[j] == q);
        }
    }
    assert(post.as_map() =~~= target);
}

impl Registry {
    /// Records an installation: every manifest path is bound to `owner`,
    /// overwriting any existing owner, last writer wins.
    pub fn installation_update(&mut self, owner: &PackageId, manifest: &Vec<String>)
        requires
            old(self).wf(),
        ensures
            final(self).wf(),
            final(self).as_map() == install_map(
                old(self).as_map(),
                owner@,
                views_of(manifest@),
            ),
    {
        let ghost m0 = self.as_map();
        let mut i: usize = 0;
        proof {
            assert(self.as_map() =~~= install_map(m0, owner@, views_of(manifest@.take(0))));
        }
        while i < manifest.len()
            invariant
                i <= manifest@.len(),
                self.wf(),
                self.as_map() == install_map(m0, owner@, views_of(manifest@.take(i as int))),
            decreases manifest@.len() - i,
        {
            self.upsert(&manifest[i], owner);
            proof {
                broadcast use lemma_seq_contains_after_push;

                assert(views_of(manifest@.take(i + 1)) =~~= views_of(
                    manifest@.take(i as int),
                ).push(manifest@[i as int]@));
                assert(self.as_map() =~~= install_map(
                    m0,
                    owner@,
                    views_of(manifest@.take(i + 1)),
                ));
            }
            i += 1;
        }
        proof {
            assert(manifest@.take(manifest@.len() as int) =~= manifest@);
        }
    }

    /// Drops the binding of `path` exactly when its current owner is `owner`.
    fn remove_if_owned(&mut self, path: &String, owner: &PackageId)
        requires
            old(self).wf(),
        ensures
            final(self).wf(),
            final(self).as_map() == uninstall_one(old(self).as_map(), owner@, path@),
    {
        let mut i: usize = 0;
        while i < self.entries.len()
            invariant
                i <= self.entries@.len(),
                *self == *old(self),
                old(self).wf(),
                forall|j: int| 0 <= j < i ==> (#[trigger] self.entries@[j]).path@ != path@,
            decreases self.entries@.len() - i,
        {
            if self.entries[i].path == *path {
                proof {
                    self.lemma_lookup(i as int);
                }
                if pid_eq(&self.entries[i].owner, owner) {
                    let ghost pre = *self;
                    let _ = self.entries.remove(i);
                    proof {
                        lemma_remove_at(pre, *self, path@, owner@, i as int);
                    }
                } else {
                }
                return ;
            }
            i += 1;
        }
        proof {
            assert forall|j: int| 0 <= j < self.paths().len() implies self.paths()[j]
                != path@ by {
                assert(self.paths()[j] == self.entries@[j].path@);
            }
        }
    }

    /// Records an uninstallation: each manifest path is dropped exactly when
    /// its current owner is `owner`; reclaimed paths are protected.
    pub fn uninstallation_update(&mut self, owner: &PackageId, manifest: &Vec<String>)
        requires
            old(self).wf(),
        ensures
            final(self).wf(),
            final(self).as_map() == uninstall_map(
                old(self).as_map(),
                owner@,
                views_of(manifest@),
            ),
    {
        let ghost m0 = self.as_map();
        let mut i: usize = 0;
        proof {
            assert(self.as_map() =~~= uninstall_map(m0, owner@, views_of(manifest@.take(0))));
        }
        while i < manifest.len()
            invariant
                i <= manifest@.len(),
                self.wf(),
                self.as_map() == uninstall_map(m0, owner@, views_of(manifest@.take(i as int))),
            decreases manifest@.len() - i,
        {
            self.remove_if_owned(&manifest[i], owner);
            proof {
                lemma_uninstall_step(
                    m0,
                    owner@,
                    views_of(manifest@.take(i as int)),
                    manifest@[i as int]@,
                );
                assert(views_of(manifest@.take(i + 1)) =~~= views_of(
                    manifest@.take(i as int),
                ).push(manifest@[i as int]@));
            }
            i += 1;
        }
        proof {
            assert(manifest@.take(manifest@.len() as int) =~= manifest@);
        }
    }
}

/// Removing the entry at `i` removes exactly its path from the registry's
/// map.
proof fn lemma_remove_at(pre: Registry, post: Registry, path: Seq<char>, owner: PidView, i: int)
    requires
        pre.wf(),
        0 <= i < pre.entries@.len(),
        post.entries@ == pre.entries@.remove(i),
        pre.entries@[i].path@ == path,
        pre.entries@[i].owner@ == owner,
    ensures
        post.wf(),
        post.as_map() == pre.as_map().remove(path),
{
    let n = pre.entries@.len() as int;
    assert(pre.paths()[i] == path);
    assert(pre.paths().contains(path));
    assert forall|k: int| 0 <= k < post.paths().len() implies post.paths()[k] == (if k < i {
        pre.paths()[k]
    } else {
        pre.paths()[k + 1]
    }) by {
        if k < i {
            assert(post.entries@[k] == pre.entries@[k]);
        } else {
            assert(post.entries@[k] == pre.entries@[k + 1]);
        }
    }
    assert(post.wf()) by {
        assert forall|a: int, b: int|
            0 <= a < b < post.paths().len() implies post.paths()[a] != post.paths()[b] by {
            let a1: int = if a < i {
                a
            } else {
                a + 1
            };
            let b1: int = if b < i {
                b
            } else {
                b + 1
            };
            assert(pre.paths()[a1] != pre.paths()[b1]);
        }
    }
    let target = pre.as_map().remove(path);
    assert forall|q: Seq<char>| post.as_map().dom().contains(q) implies target.dom().contains(q)
        && post.as_map()[q] == target[q] by {
        post.lemma_dom_entry(q);
        let j = choose|j: int|
            0 <= j < post.entries@.len() && (#[trigger] post.entries@[j]).path@ == q
                && post.as_map()[q] == post.entries@[j].owner@;
        let j1: int = if j < i {
            j
        } else {
            j + 1
        };
        assert(pre.entries@[j1].path@ == q);
        assert(pre.paths()[j1] == q);
        if q == path {
            assert(pre.paths()[i] != pre.paths()[j1] || i == j1);
            assert(false);
        }
        pre.lemma_lookup(j1);
    }
    assert forall|q: Seq<char>| target.dom().contains(q) implies post.as_map().dom().contains(
        q,
    ) by {
        pre.lemma_dom_entry(q);
        let j1 = choose|j1: int|
            0 <= j1 < pre.entries@.len() && (#[trigger] pre.entries@[j1]).path@ == q
                && pre.as_map()[q] == pre.entries@[j1].owner@;
        if j1 != i {
            let j: int = if j1 < i {
                j1
            } else {
                j1 - 1
            };
            assert(post.paths()[j] == q);
        }
    }
    assert(post.as_map() =~~= target);
}

/// Processing one more path of an uninstallation manifest is dropping that
/// path when the owner matches.
proof fn lemma_uninstall_step(
    m0: Map<Seq<char>, PidView>,
    owner: PidView,
    paths: Seq<Seq<char>>,
    p: Seq<char>,
)
    ensures
        uninstall_map(m0, owner, paths.push(p)) == uninstall_one(
            uninstall_map(m0, owner, paths),
            owner,
            p,
        ),
{
    broadcast use lemma_seq_contains_after_push;

    assert(uninstall_map(m0, owner, paths.push(p)) =~~= uninstall_one(
        uninstall_map(m0, owner, paths),
        owner,
        p,
    ));
}

/// The views of a vector of string pairs.
pub open spec fn pair_views(s: Seq<(String, String)>) -> Seq<(Seq<char>, Seq<char>)> {
    s.map_values(|t: (String, String)| (t.0@, t.1@))
}

/// The owner named by a rendered `author/name` string.
pub open spec fn owner_view(s: Seq<char>) -> PidView {
    PidView { author: split_on(s, '/')[0], name: split_on(s, '/')[1] }
}

/// Every pair's owner string is a well-formed identifier.
pub open spec fn all_owners_valid(s: Seq<(Seq<char>, Seq<char>)>) -> bool {
    forall|i: int| 0 <= i < s.len() ==> valid_mod_value((#[trigger] s[i]).1)
}

/// The map the pairs describe, in order, later pairs winning.
pub open spec fn loaded_map(s: Seq<(Seq<char>, Seq<char>)>) -> Map<Seq<char>, PidView>
    decreases s.len(),
{
    if s.len() == 0 {
        Map::empty()
    } else {
        loaded_map(s.drop_last()).insert(s.last().0, owner_view(s.last().1))
    }
}

impl Registry {
    /// The registry as path and rendered owner pairs, entry for entry.
    pub fn to_pairs(&self) -> (r: Vec<(String, String)>)
        ensures
            pair_views(r@).len() == self.entries@.len(),
            forall|i: int|
                0 <= i < r@.len() ==> (#[trigger] pair_views(r@)[i]).0
                    == self.entries@[i].path@ && pair_views(r@)[i].1 == self.entries@[i].owner@.author
                    + seq!['/'] + self.entries@[i].owner@.name,
    {
        let mut r: Vec<(String, String)> = Vec::new();
        let mut i: usize = 0;
        while i < self.entries.len()
            invariant
                i <= self.entries@.len(),
                r@.len() == i,
                forall|j: int|
                    0 <= j < i ==> (#[trigger] r@[j]).0@ == self.entries@[j].path@ && r@[j].1@
                        == self.entries@[j].owner@.author + seq!['/']
                        + self.entries@[j].owner@.name,
            decreases self.entries@.len() - i,
        {
            r.push((self.entries[i].path.clone(), self.entries[i].owner.render()));
            i += 1;
        }
        proof {
            assert(forall|i: int|
                0 <= i < r@.len() ==> (#[trigger] pair_views(r@)[i]) == (r@[i].0@, r@[i].1@));
        }
        r
    }

    /// Rebuilds a registry from persisted pairs, in order, later pairs
    /// winning; refused as soon as one owner string is malformed.
    pub fn from_pairs(pairs: &Vec<(String, String)>) -> (r: Result<Registry, Error>)
        ensures
            r is Ok <==> all_owners_valid(pair_views(pairs@)),
            r matches Ok(reg) ==> reg.wf() && reg.as_map() == loaded_map(pair_views(pairs@)),
            r is Err ==> r == Err::<Registry, Error>(Error::ConfigError),
    {
        let mut reg = Registry::new();
        let mut i: usize = 0;
        proof {
            assert(pair_views(pairs@.take(0)) =~~= Seq::<(Seq<char>, Seq<char>)>::empty());
        }
        while i < pairs.len()
            invariant
                i <= pairs@.len(),
                reg.wf(),
                reg.as_map() == loaded_map(pair_views(pairs@.take(i as int))),
                forall|j: int|
                    0 <= j < i ==> valid_mod_value((#[trigger] pair_views(pairs@)[j]).1),
            decreases pairs@.len() - i,
        {
            let owner = match PackageId::parse(pairs[i].1.as_str()) {
                Ok(o) => o,
                Err(_) => {
                    proof {
                        assert(pair_views(pairs@)[i as int].1 == pairs@[i as int].1@);
                    }
                    return Err(Error::ConfigError);
                },
            };
            reg.upsert(&pairs[i].0, &owner);
            proof {
                let pv = pair_views(pairs@.take(i + 1));
                assert(pv.drop_last() =~~= pair_views(pairs@.take(i as int)));
                assert(pv.last() == (pairs@[i as int].0@, pairs@[i as int].1@));
                assert(owner@ == owner_view(pairs@[i as int].1@));
                assert(pair_views(pairs@)[i as int] == (pairs@[i as int].0@, pairs@[i as int].1@));
            }
            i += 1;
        }
        proof {
            assert(pair_views(pairs@.take(pairs@.len() as int)) =~~= pair_views(pairs@));
            assert(forall|j: int|
                0 <= j < pairs@.len() ==> (#[trigger] pair_views(pairs@)[j]) == (pairs@[j].0@, pairs@[j].1@));
        }
        Ok(reg)
    }
}

/// Ownership uniqueness: in a well-formed registry two entries for one path
/// are one and the same entry, so no path ever has two owners at once.
pub proof fn lemma_ownership_unique(r: Registry, i: int, j: int)
    requires
        r.wf(),
        0 <= i < r.entries@.len(),
        0 <= j < r.entries@.len(),
        r.entries@[i].path@ == r.entries@[j].path@,
    ensures
        i == j,
        r.entries@[i].owner@ == r.entries@[j].owner@,
{
    assert(r.paths()[i] == r.entries@[i].path@);
    assert(r.paths()[j] == r.entries@[j].path@);
    if i < j {
        assert(r.paths()[i] != r.paths()[j]);
    } else if j < i {
        assert(r.paths()[j] != r.paths()[i]);
    }
}

/// Uninstall non-leak: when the uninstalled package's manifest covers every
/// path it owns, no binding owned by it survives the uninstallation.
pub proof fn lemma_uninstall_non_leak(
    m: Map<Seq<char>, PidView>,
    owner: PidView,
    paths: Seq<Seq<char>>,
)
    requires
        forall|p: Seq<char>|
            m.dom().contains(p) && m[p] == owner ==> #[trigger] paths.contains(p),
    ensures
        forall|p: Seq<char>| #[trigger]
            uninstall_map(m, owner, paths).dom().contains(p) ==> uninstall_map(
                m,
                owner,
                paths,
            )[p] != owner,
{
}

} // verus!

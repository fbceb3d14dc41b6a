use vstd::prelude::*;
use vstd::pervasive::unreached;

use crate::archive::targz_entries;
use crate::conflict::check;
use crate::conflict::no_conflict;
use crate::errors::Error;
use crate::ids::pids_of;
use crate::ids::PackageId;
use crate::ids::PidView;
use crate::index_store::manifest_of;
use crate::index_store::IndexStore;
use crate::pkg_cache::PackageCache;
use crate::profile::mod_is_installed;
use crate::profile::seq_remove_all;
use crate::profile::ProfileFile;
use crate::registry::install_map;
use crate::registry::uninstall_map;
use crate::registry::Registry;
use crate::text::clone_strings;
use crate::text::views_of;

verus! {

/// What the engine is doing for the package now in flight.
pub enum Task {
    /// No package is in flight; the worklist decides what comes next.
    Idle,
    /// The package was popped and is about to be examined.
    Starting(PackageId),
    /// The package is absent locally; its archive is being fetched.
    Fetching(PackageId),
    /// The manifest is staged; the install root is being checked for
    /// conflicts.
    Checking(PackageId, Vec<String>),
    /// The package is cleared; its archive is being extracted.
    Applying(PackageId, Vec<String>),
    /// The package is applied and registered; its dependency list is being
    /// fetched.
    Discovering(PackageId, Vec<String>),
}

/// The next piece of outside work the engine asks its driver to do.
pub enum InstallAction {
    /// The worklist is drained; persist the profile.
    Finished,
    /// The popped package was already enabled and is skipped with a notice.
    Skipped(PackageId),
    /// Begin installing this package: call `install_mod` with it.
    Process(PackageId),
    /// Download the package's archive and report it via `fetched`.
    Fetch(PackageId),
    /// Test which of the manifest's paths exist under the install root and
    /// report them via `conflicts_checked`.
    CheckConflicts(PackageId, Vec<String>),
    /// Extract the package's cached archive into the install root and
    /// report the outcome via `extracted`.
    Extract(PackageId),
    /// Fetch the package's dependency list and report it via
    /// `depends_fetched`.
    FetchDepends(PackageId),
}

/// The install engine: the worklist-driven state machine that fetches,
/// indexes, conflict-checks, applies and registers packages, one at a time.
pub struct InstallEngine {
    pub worklist: Vec<PackageId>,
    pub profile: ProfileFile,
    pub registry: Registry,
    pub cache: PackageCache,
    pub store: IndexStore,
    pub force: bool,
    pub task: Task,
}

/// The dependencies not yet enabled, in order.
pub open spec fn new_deps(deps: Seq<PidView>, enabled: Seq<PidView>) -> Seq<PidView>
    decreases deps.len(),
{
    if deps.len() == 0 {
        deps
    } else if enabled.contains(deps[0]) {
        new_deps(deps.skip(1), enabled)
    } else {
        seq![deps[0]] + new_deps(deps.skip(1), enabled)
    }
}

impl InstallEngine {
    /// The enabled set of the engine's profile.
    pub open spec fn enabled(self) -> Seq<PidView> {
        self.profile.enabled()
    }

    /// The worklist's values, in stack order: the last is popped first.
    pub open spec fn wl(self) -> Seq<PidView> {
        pids_of(self.worklist@)
    }

    /// The package now in flight, if any.
    pub open spec fn task_id(self) -> Option<PidView> {
        match self.task {
            Task::Idle => None,
            Task::Starting(id) => Some(id@),
            Task::Fetching(id) => Some(id@),
            Task::Checking(id, _) => Some(id@),
            Task::Applying(id, _) => Some(id@),
            Task::Discovering(id, _) => Some(id@),
        }
    }

    /// A staged package: not yet enabled, its archive cached, its manifest
    /// generated and carried by the task.
    pub open spec fn staged(self, id: PidView, m: Seq<String>) -> bool {
        &&& !self.enabled().contains(id)
        &&& self.cache.as_map().dom().contains(id)
        &&& self.store.as_map().dom().contains(id)
        &&& views_of(m) == self.store.as_map()[id]
    }

    /// The engine's invariant: every component well formed, and the task's
    /// package in the state the task claims.
    pub open spec fn wf(self) -> bool {
        &&& self.profile.wf()
        &&& self.registry.wf()
        &&& self.cache.wf()
        &&& self.store.wf()
        &&& match self.task {
            Task::Idle => true,
            Task::Starting(_) => true,
            Task::Fetching(id) => !self.enabled().contains(id@),
            Task::Checking(id, m) => self.staged(id@, m@),
            Task::Applying(id, m) => self.staged(id@, m@),
            Task::Discovering(id, m) => self.staged(id@, m@),
        }
    }

    /// A package the run still owes: already enabled, or awaiting its turn
    /// on the worklist, or in flight right now.
    pub open spec fn pending(self, b: PidView) -> bool {
        self.enabled().contains(b) || self.wl().contains(b) || self.task_id() == Some(b)
    }

    /// Everything but the worklist and the task is unchanged.
    pub open spec fn same_stores(pre: InstallEngine, post: InstallEngine) -> bool {
        &&& post.profile == pre.profile
        &&& post.registry == pre.registry
        &&& post.cache == pre.cache
        &&& post.store == pre.store
        &&& post.force == pre.force
    }

    /// A fresh engine over the given state, its worklist seeded with the
    /// requested packages; the last requested is processed first.
    pub fn new(
        profile: ProfileFile,
        registry: Registry,
        cache: PackageCache,
        store: IndexStore,
        requested: Vec<PackageId>,
        force: bool,
    ) -> (r: InstallEngine)
        requires
            profile.wf(),
            registry.wf(),
            cache.wf(),
            store.wf(),
        ensures
            r.wf(),
            r.profile == profile,
            r.registry == registry,
            r.cache == cache,
            r.store == store,
            r.worklist == requested,
            r.force == force,
            r.task is Idle,
    {
        InstallEngine { worklist: requested, profile, registry, cache, store, force, task: Task::Idle }
    }

    /// What the driver should do now. Re-issues the pending action while a
    /// package is in flight; otherwise pops the worklist: an empty worklist
    /// finishes the run, an already-enabled package is skipped with a
    /// notice, and any other package begins installation.
    pub fn next_action(&mut self) -> (r: InstallAction)
        requires
            old(self).wf(),
        ensures
            final(self).wf(),
            old(self).task matches Task::Starting(id) ==> *final(self) == *old(self) && (
            r matches InstallAction::Process(p) && p@ == id@),
            old(self).task matches Task::Fetching(id) ==> *final(self) == *old(self) && (
            r matches InstallAction::Fetch(f) && f@ == id@),
            old(self).task matches Task::Checking(id, m) ==> *final(self) == *old(self) && (
            r matches InstallAction::CheckConflicts(c, mm) && c@ == id@ && views_of(mm@)
                == views_of(m@)),
            old(self).task matches Task::Applying(id, m) ==> *final(self) == *old(self) && (
            r matches InstallAction::Extract(x) && x@ == id@),
            old(self).task matches Task::Discovering(id, m) ==> *final(self) == *old(self) && (
            r matches InstallAction::FetchDepends(d) && d@ == id@),
            old(self).task is Idle && old(self).wl().len() == 0 ==> *final(self) == *old(self) && r
                is Finished,
            old(self).task is Idle && old(self).wl().len() > 0 ==> {
                &&& Self::same_stores(*old(self), *final(self))
                &&& final(self).wl() == old(self).wl().drop_last()
                &&& old(self).enabled().contains(old(self).wl().last()) ==> final(self).task
                    is Idle && (r matches InstallAction::Skipped(s) && s@ == old(self).wl().last())
                &&& !old(self).enabled().contains(old(self).wl().last()) ==> (final(self).task
                    matches Task::Starting(t) && t@ == old(self).wl().last()) && (
                r matches InstallAction::Process(p) && p@ == old(self).wl().last())
            },
            preserves_pending(*old(self), *final(self)),
            retains_stores(*old(self), *final(self)),
    {
        match &self.task {
            Task::Starting(id) => InstallAction::Process(id.duplicate()),
            Task::Fetching(id) => InstallAction::Fetch(id.duplicate()),
            Task::Checking(id, m) => InstallAction::CheckConflicts(
                id.duplicate(),
                clone_strings(m),
            ),
            Task::Applying(id, _) => InstallAction::Extract(id.duplicate()),
            Task::Discovering(id, _) => InstallAction::FetchDepends(id.duplicate()),
            Task::Idle => {
                if self.worklist.len() == 0 {
                    return InstallAction::Finished;
                }
                let popped = self.worklist.pop().unwrap();
                proof {
                    assert(pids_of(self.worklist@) =~= old(self).wl().drop_last());
                    assert(old(self).wl().last() == popped@);
                }
                if mod_is_installed(&self.profile, &popped) {
                    let r = InstallAction::Skipped(popped);
                    proof {
                        lemma_pending_after_pop(*old(self), *self, popped@);
                    }
                    r
                } else {
                    let r = InstallAction::Process(popped.duplicate());
                    self.task = Task::Starting(popped);
                    proof {
                        lemma_pending_after_pop(*old(self), *self, popped@);
                    }
                    r
                }
            },
        }
    }
}

impl InstallEngine {
    /// The package's manifest is already stored.
    pub open spec fn index_known(self, id: PidView) -> bool {
        self.store.as_map().dom().contains(id)
    }

    /// The package's archive is in the local cache.
    pub open spec fn cached(self, id: PidView) -> bool {
        self.cache.as_map().dom().contains(id)
    }

    /// A manifest can be produced: it is stored already, or the cached
    /// archive is readable.
    pub open spec fn index_ready(self, id: PidView) -> bool {
        self.index_known(id) || (self.cached(id) && targz_entries(self.cache.as_map()[id]) is Some)
    }

    /// The manifest the package gets: the stored one, or the one its cached
    /// archive yields.
    pub open spec fn manifest_for(self, id: PidView) -> Seq<Seq<char>> {
        if self.index_known(id) {
            self.store.as_map()[id]
        } else {
            manifest_of(self.cache.as_map()[id])
        }
    }

    /// The manifest store after the package's manifest is ensured.
    pub open spec fn store_after_index(self, id: PidView) -> Map<PidView, Seq<Seq<char>>> {
        if self.index_known(id) {
            self.store.as_map()
        } else {
            self.store.as_map().insert(id, self.manifest_for(id))
        }
    }

    /// Begins installing one popped package: refused when it is already
    /// enabled; fetched when its archive is absent; otherwise its manifest
    /// is ensured and, unless force is set, a conflict check is requested
    /// before extraction.
    pub fn install_mod(&mut self, id: PackageId) -> (r: Result<InstallAction, Error>)
        requires
            old(self).wf(),
            old(self).task matches Task::Starting(s) && s@ == id@,
        ensures
            final(self).wf(),
            final(self).worklist == old(self).worklist,
            old(self).enabled().contains(id@) ==> r == Err::<InstallAction, Error>(
                Error::PackageAlreadyInstalled,
            ) && Self::same_stores(*old(self), *final(self)) && final(self).task is Idle,
            !old(self).enabled().contains(id@) && !old(self).cached(id@) ==> Self::same_stores(
                *old(self),
                *final(self),
            ) && (final(self).task matches Task::Fetching(f) && f@ == id@) && (
            r matches Ok(InstallAction::Fetch(g)) && g@ == id@),
            !old(self).enabled().contains(id@) && old(self).cached(id@) && !old(self).index_ready(
                id@,
            ) ==> r == Err::<InstallAction, Error>(Error::ArchiveError) && Self::same_stores(
                *old(self),
                *final(self),
            ) && final(self).task is Idle,
            !old(self).enabled().contains(id@) && old(self).cached(id@) && old(self).index_ready(
                id@,
            ) ==> {
                &&& final(self).profile == old(self).profile
                &&& final(self).registry == old(self).registry
                &&& final(self).cache == old(self).cache
                &&& final(self).force == old(self).force
                &&& final(self).store.as_map() == old(self).store_after_index(id@)
                &&& !old(self).force ==> (final(self).task matches Task::Checking(c, m) && c@
                    == id@ && views_of(m@) == old(self).manifest_for(id@)) && (
                r matches Ok(InstallAction::CheckConflicts(c2, m2)) && c2@ == id@ && views_of(m2@)
                    == old(self).manifest_for(id@))
                &&& old(self).force ==> (final(self).task matches Task::Applying(a, m) && a@ == id@
                    && views_of(m@) == old(self).manifest_for(id@)) && (
                r matches Ok(InstallAction::Extract(x)) && x@ == id@)
            },
            r is Ok ==> preserves_pending(*old(self), *final(self)),
            retains_stores(*old(self), *final(self)),
    {
        self.task = Task::Idle;
        if mod_is_installed(&self.profile, &id) {
            return Err(Error::PackageAlreadyInstalled);
        }
        if !self.cache.mod_is_cached(&id) {
            let act = InstallAction::Fetch(id.duplicate());
            self.task = Task::Fetching(id);
            return Ok(act);
        }
        let manifest = match self.store.ensure_index(&self.cache, &id) {
            Ok(m) => m,
            Err(_) => {
                return Err(Error::ArchiveError);
            },
        };
        if !self.force {
            let act = InstallAction::CheckConflicts(id.duplicate(), clone_strings(&manifest));
            self.task = Task::Checking(id, manifest);
            Ok(act)
        } else {
            let act = InstallAction::Extract(id.duplicate());
            self.task = Task::Applying(id, manifest);
            Ok(act)
        }
    }

    /// Consumes the fetch outcome: no repository had the package, which is
    /// fatal, or its archive arrived and is cached, indexed and staged as in
    /// `install_mod`.
    pub fn fetched(&mut self, bytes: Option<Vec<u8>>) -> (r: Result<InstallAction, Error>)
        requires
            old(self).wf(),
            old(self).task is Fetching,
        ensures
            final(self).wf(),
            final(self).worklist == old(self).worklist,
            old(self).task matches Task::Fetching(id) ==> {
                &&& bytes is None ==> r == Err::<InstallAction, Error>(Error::PackageNotFound)
                    && Self::same_stores(*old(self), *final(self)) && final(self).task is Idle
                &&& bytes matches Some(b) ==> {
                    &&& final(self).profile == old(self).profile
                    &&& final(self).registry == old(self).registry
                    &&& final(self).force == old(self).force
                    &&& final(self).cache.as_map() == old(self).cache.as_map().insert(id@, b@)
                    &&& !old(self).index_known(id@) && targz_entries(b@) is None ==> r == Err::<InstallAction, Error>(Error::ArchiveError) && final(self).store == old(self).store && final(self).task is Idle
                    &&& old(self).index_known(id@) ==> final(self).store == old(self).store
                    &&& (old(self).index_known(id@) || targz_entries(b@) is Some) ==> {
                        &&& !old(self).index_known(id@) ==> final(self).store.as_map() == old(self).store.as_map().insert(id@, manifest_of(b@))
                        &&& !old(self).force ==> (final(self).task matches Task::Checking(c, m)
                            && c@ == id@ && views_of(m@) == fetched_manifest(*old(self), id@, b@))
                            && (r matches Ok(InstallAction::CheckConflicts(c2, m2)) && c2@ == id@
                            && views_of(m2@) == fetched_manifest(*old(self), id@, b@))
                        &&& old(self).force ==> (final(self).task matches Task::Applying(a, m)
                            && a@ == id@ && views_of(m@) == fetched_manifest(*old(self), id@, b@))
                            && (r matches Ok(InstallAction::Extract(x)) && x@ == id@)
                    }
                }
            },
            r is Ok ==> preserves_pending(*old(self), *final(self)),
            retains_stores(*old(self), *final(self)),
    {
        let mut t = Task::Idle;
        core::mem::swap(&mut t, &mut self.task);
        let id = match t {
            Task::Fetching(i) => i,
            _ => unreached(),
        };
        let b = match bytes {
            Some(b) => b,
            None => {
                return Err(Error::PackageNotFound);
            },
        };
        self.cache.insert(&id, b);
        let manifest = match self.store.ensure_index(&self.cache, &id) {
            Ok(m) => m,
            Err(_) => {
                return Err(Error::ArchiveError);
            },
        };
        if !self.force {
            let act = InstallAction::CheckConflicts(id.duplicate(), clone_strings(&manifest));
            self.task = Task::Checking(id, manifest);
            Ok(act)
        } else {
            let act = InstallAction::Extract(id.duplicate());
            self.task = Task::Applying(id, manifest);
            Ok(act)
        }
    }

    /// Consumes the conflict report: a staged package whose manifest paths
    /// are all absent from the install root is cleared for extraction; any
    /// present path is a conflict, fatal for the run.
    pub fn conflicts_checked(&mut self, present: &Vec<String>) -> (r: Result<InstallAction, Error>)
        requires
            old(self).wf(),
            old(self).task is Checking,
        ensures
            final(self).wf(),
            final(self).worklist == old(self).worklist,
            old(self).task matches Task::Checking(id, m) ==> {
                &&& Self::same_stores(*old(self), *final(self))
                &&& no_conflict(views_of(m@), views_of(present@)) ==> (final(self).task matches Task::Applying(a, m2) && a@ == id@ && m2 == m) && (
                r matches Ok(InstallAction::Extract(x)) && x@ == id@)
                &&& !no_conflict(views_of(m@), views_of(present@)) ==> final(self).task is Idle
                    && (r matches Err(e) ==> exists|i: int|
                    {
                        &&& 0 <= i < m@.len()
                        &&& e == Error::FileConflict(m@[i])
                        &&& views_of(present@).contains(m@[i]@)
                        &&& forall|j: int|
                            0 <= j < i ==> !views_of(present@).contains((#[trigger] m@[j])@)
                    }) && r is Err
            },
            r is Ok ==> preserves_pending(*old(self), *final(self)),
            retains_stores(*old(self), *final(self)),
    {
        let mut t = Task::Idle;
        core::mem::swap(&mut t, &mut self.task);
        let (id, manifest) = match t {
            Task::Checking(i, m) => (i, m),
            _ => unreached(),
        };
        match check(&manifest, present) {
            Ok(()) => {
                let act = InstallAction::Extract(id.duplicate());
                self.task = Task::Applying(id, manifest);
                Ok(act)
            },
            Err(e) => Err(e),
        }
    }

    /// Consumes the extraction outcome: a failed extraction is fatal; a
    /// successful one is recorded in the ownership registry, every manifest
    /// path now owned by the package, and dependency discovery begins.
    pub fn extracted(&mut self, ok: bool) -> (r: Result<InstallAction, Error>)
        requires
            old(self).wf(),
            old(self).task is Applying,
        ensures
            final(self).wf(),
            final(self).worklist == old(self).worklist,
            old(self).task matches Task::Applying(id, m) ==> {
                &&& final(self).profile == old(self).profile
                &&& final(self).cache == old(self).cache
                &&& final(self).store == old(self).store
                &&& final(self).force == old(self).force
                &&& !ok ==> r == Err::<InstallAction, Error>(Error::ArchiveError) && final(self).registry == old(self).registry && final(self).task is Idle
                &&& ok ==> {
                    &&& final(self).registry.as_map() == install_map(
                        old(self).registry.as_map(),
                        id@,
                        views_of(m@),
                    )
                    &&& final(self).task matches Task::Discovering(d, m2) && d@ == id@ && m2 == m
                    &&& r matches Ok(InstallAction::FetchDepends(f)) && f@ == id@
                }
            },
            r is Ok ==> preserves_pending(*old(self), *final(self)),
            retains_stores(*old(self), *final(self)),
    {
        let mut t = Task::Idle;
        core::mem::swap(&mut t, &mut self.task);
        let (id, manifest) = match t {
            Task::Applying(i, m) => (i, m),
            _ => unreached(),
        };
        if !ok {
            return Err(Error::ArchiveError);
        }
        self.registry.installation_update(&id, &manifest);
        let act = InstallAction::FetchDepends(id.duplicate());
        self.task = Task::Discovering(id, manifest);
        Ok(act)
    }

    /// Consumes the discovered dependency list: every dependency not already
    /// enabled is pushed onto the worklist, in order, and the installed
    /// package itself is appended to the enabled set.
    pub fn depends_fetched(&mut self, deps: &Vec<PackageId>)
        requires
            old(self).wf(),
            old(self).task is Discovering,
        ensures
            final(self).wf(),
            old(self).task matches Task::Discovering(id, m) ==> {
                &&& final(self).enabled() == old(self).enabled().push(id@)
                &&& final(self).wl() == old(self).wl() + new_deps(
                    pids_of(deps@),
                    old(self).enabled(),
                )
                &&& final(self).registry == old(self).registry
                &&& final(self).cache == old(self).cache
                &&& final(self).store == old(self).store
                &&& final(self).force == old(self).force
                &&& final(self).profile.install_path == old(self).profile.install_path
                &&& final(self).profile.game == old(self).profile.game
                &&& final(self).task is Idle
            },
            preserves_pending(*old(self), *final(self)),
            retains_stores(*old(self), *final(self)),
            forall|b: PidView| pids_of(deps@).contains(b) ==> final(self).pending(b),
    {
        let mut t = Task::Idle;
        core::mem::swap(&mut t, &mut self.task);
        let (id, _manifest) = match t {
            Task::Discovering(i, m) => (i, m),
            _ => unreached(),
        };
        let ghost full = pids_of(deps@);
        let ghost en0 = self.enabled();
        let ghost wl0 = self.wl();
        let mut i: usize = 0;
        proof {
            assert(full.skip(0) =~= full);
            assert(wl0 + new_deps(full, en0) =~= self.wl() + new_deps(full.skip(0), en0));
        }
        while i < deps.len()
            invariant
                i <= deps@.len(),
                full == pids_of(deps@),
                en0 == self.enabled(),
                self.profile == old(self).profile,
                self.registry == old(self).registry,
                self.cache == old(self).cache,
                self.store == old(self).store,
                self.force == old(self).force,
                wl0 + new_deps(full, en0) == self.wl() + new_deps(full.skip(i as int), en0),
                forall|k: int| 0 <= k < wl0.len() ==> #[trigger] self.wl()[k] == wl0[k],
                self.wl().len() >= wl0.len(),
            decreases deps@.len() - i,
        {
            let ghost tail = full.skip(i as int);
            let ghost x = deps@[i as int]@;
            proof {
                assert(pids_of(deps@)[i as int] == x);
                assert(tail[0] == x);
                assert(tail.skip(1) =~= full.skip(i + 1));
            }
            if !mod_is_installed(&self.profile, &deps[i]) {
                let ghost wlpre = self.wl();
                self.worklist.push(deps[i].duplicate());
                proof {
                    assert(new_deps(tail, en0) == seq![x] + new_deps(full.skip(i + 1), en0));
                    assert(self.wl() =~= wlpre.push(x));
                    assert(wlpre + (seq![x] + new_deps(full.skip(i + 1), en0)) =~= wlpre.push(x)
                        + new_deps(full.skip(i + 1), en0));
                }
            } else {
                proof {
                    assert(new_deps(tail, en0) == new_deps(full.skip(i + 1), en0));
                }
            }
            i += 1;
        }
        proof {
            assert(full.skip(full.len() as int) =~= Seq::<PidView>::empty());
            assert(new_deps(Seq::<PidView>::empty(), en0) =~= Seq::<PidView>::empty());
            assert(self.wl() + Seq::<PidView>::empty() =~= self.wl());
        }
        self.profile.enable(id);
        self.task = Task::Idle;
        proof {
            lemma_new_deps_all_pending(full, en0);
            assert(wl0 == old(self).wl());
            assert(en0 == old(self).enabled());
            assert(self.enabled() == en0.push(id@));
            assert forall|p: PidView| old(self).enabled().contains(p) implies self.enabled(
            ).contains(p) by {
                let k = choose|k: int| 0 <= k < en0.len() && en0[k] == p;
                assert(self.enabled()[k] == p);
            }
            assert forall|b: PidView| old(self).pending(b) implies self.pending(b) by {
                if old(self).wl().contains(b) {
                    let k = choose|k: int| 0 <= k < wl0.len() && wl0[k] == b;
                    assert(self.wl()[k] == b);
                } else if old(self).enabled().contains(b) {
                    let k = choose|k: int| 0 <= k < en0.len() && en0[k] == b;
                    assert(self.enabled()[k] == b);
                } else {
                    assert(b == id@);
                    assert(self.enabled()[en0.len() as int] == b);
                }
            }
            assert forall|b: PidView| pids_of(deps@).contains(b) implies self.pending(b) by {
                if en0.contains(b) {
                    let k = choose|k: int| 0 <= k < en0.len() && en0[k] == b;
                    assert(self.enabled()[k] == b);
                } else {
                    assert(new_deps(full, en0).contains(b));
                    let k = choose|k: int|
                        0 <= k < new_deps(full, en0).len() && new_deps(full, en0)[k] == b;
                    assert(self.wl()[wl0.len() + k] == b);
                }
            }
        }
    }
}

/// Every dependency is already enabled or among the newly pushed ones.
proof fn lemma_new_deps_all_pending(deps: Seq<PidView>, enabled: Seq<PidView>)
    ensures
        forall|b: PidView|
            deps.contains(b) ==> enabled.contains(b) || #[trigger] new_deps(
                deps,
                enabled,
            ).contains(b),
    decreases deps.len(),
{
    if deps.len() > 0 {
        lemma_new_deps_all_pending(deps.skip(1), enabled);
        assert forall|b: PidView|
            deps.contains(b) && !enabled.contains(b) implies #[trigger] new_deps(
            deps,
            enabled,
        ).contains(b) by {
            let k = choose|k: int| 0 <= k < deps.len() && deps[k] == b;
            if k == 0 {
                assert(new_deps(deps, enabled)[0] == b);
            } else {
                assert(deps.skip(1)[k - 1] == b);
                assert(deps.skip(1).contains(b));
                assert(new_deps(deps.skip(1), enabled).contains(b));
                let j = choose|j: int|
                    0 <= j < new_deps(deps.skip(1), enabled).len() && new_deps(
                        deps.skip(1),
                        enabled,
                    )[j] == b;
                if enabled.contains(deps[0]) {
                    assert(new_deps(deps, enabled)[j] == b);
                } else {
                    assert(new_deps(deps, enabled)[j + 1] == b);
                }
            }
        }
    }
}

/// The manifest staged after a fetch: the stored one, or the one the fetched
/// bytes yield.
pub open spec fn fetched_manifest(pre: InstallEngine, id: PidView, b: Seq<u8>) -> Seq<Seq<char>> {
    if pre.index_known(id) {
        pre.store.as_map()[id]
    } else {
        manifest_of(b)
    }
}

/// Uninstalls one package from the given state: its ownership-registry
/// bindings are released, reclaimed paths protected, and the package leaves
/// the enabled set. The caller removes the manifest's files beforehand.
pub fn uninstall_mod(
    profile: &mut ProfileFile,
    registry: &mut Registry,
    id: &PackageId,
    manifest: &Vec<String>,
)
    requires
        old(profile).wf(),
        old(registry).wf(),
    ensures
        final(profile).wf(),
        final(registry).wf(),
        final(registry).as_map() == uninstall_map(
            old(registry).as_map(),
            id@,
            views_of(manifest@),
        ),
        final(profile).enabled() == seq_remove_all(old(profile).enabled(), id@),
        final(profile).install_path == old(profile).install_path,
        final(profile).game == old(profile).game,
{
    registry.uninstallation_update(id, manifest);
    profile.disable(id);
}

/// Dependency discovery at the end of a run: when the worklist is drained
/// and nothing is in flight, every package the run ever owed — requested,
/// or reported as a dependency — is in the enabled set.
pub proof fn lemma_finished_pending_enabled(e: InstallEngine, b: PidView)
    requires
        e.task is Idle,
        e.wl().len() == 0,
        e.pending(b),
    ensures
        e.enabled().contains(b),
{
}

/// Every package the run owed before the step it still owes after it.
pub open spec fn preserves_pending(pre: InstallEngine, post: InstallEngine) -> bool {
    forall|b: PidView| pre.pending(b) ==> #[trigger] post.pending(b)
}

/// Nothing leaves the local stores during the step: cached archives stay
/// cached, generated manifests stay stored, enabled packages stay enabled.
pub open spec fn retains_stores(pre: InstallEngine, post: InstallEngine) -> bool {
    &&& forall|p: PidView|
        pre.cache.as_map().dom().contains(p) ==> #[trigger] post.cache.as_map().dom().contains(p)
    &&& forall|p: PidView|
        pre.store.as_map().dom().contains(p) ==> #[trigger] post.store.as_map().dom().contains(p)
    &&& forall|p: PidView| pre.enabled().contains(p) ==> #[trigger] post.enabled().contains(p)
}

/// Along any chain of engine states in which each step keeps owed packages
/// owed, a package owed anywhere along the chain is owed at the end.
pub proof fn lemma_pending_through_run(states: Seq<InstallEngine>, k: int, b: PidView)
    requires
        0 <= k < states.len(),
        forall|i: int|
            0 <= i < states.len() - 1 ==> preserves_pending(
                #[trigger] states[i],
                states[i + 1],
            ),
        states[k].pending(b),
    ensures
        states.last().pending(b),
    decreases states.len() - k,
{
    if k < states.len() - 1 {
        assert(preserves_pending(states[k], states[k + 1]));
        lemma_pending_through_run(states, k + 1, b);
    }
}

/// Along any chain of engine states in which no step empties the local
/// stores, whatever is cached, indexed or enabled anywhere along the chain
/// still is at the end.
pub proof fn lemma_stores_through_run(states: Seq<InstallEngine>, k: int, p: PidView)
    requires
        0 <= k < states.len(),
        forall|i: int|
            0 <= i < states.len() - 1 ==> retains_stores(#[trigger] states[i], states[i + 1]),
    ensures
        states[k].cached(p) ==> states.last().cached(p),
        states[k].index_known(p) ==> states.last().index_known(p),
        states[k].enabled().contains(p) ==> states.last().enabled().contains(p),
    decreases states.len() - k,
{
    if k < states.len() - 1 {
        assert(retains_stores(states[k], states[k + 1]));
        lemma_stores_through_run(states, k + 1, p);
    }
}

/// Dependency discovery over a whole run. Take any chain of engine states
/// whose steps keep owed packages owed and keep the local stores, as every
/// engine step does. If somewhere along the chain package `a` stands
/// enabled, cached and indexed with its dependency `b` owed — exactly how
/// `depends_fetched` leaves them when `a` reports `b` — then once the chain
/// ends with the worklist drained and nothing in flight, both packages are
/// in the enabled set and `a`'s archive and manifest are still held.
pub proof fn lemma_dependency_discovery(
    states: Seq<InstallEngine>,
    k: int,
    a: PidView,
    b: PidView,
)
    requires
        0 <= k < states.len(),
        forall|i: int|
            0 <= i < states.len() - 1 ==> preserves_pending(
                #[trigger] states[i],
                states[i + 1],
            ),
        forall|i: int|
            0 <= i < states.len() - 1 ==> retains_stores(#[trigger] states[i], states[i + 1]),
        states[k].enabled().contains(a),
        states[k].pending(b),
        states[k].cached(a),
        states[k].index_known(a),
        states.last().task is Idle,
        states.last().wl().len() == 0,
    ensures
        states.last().enabled().contains(a),
        states.last().enabled().contains(b),
        states.last().cached(a),
        states.last().index_known(a),
{
    lemma_stores_through_run(states, k, a);
    lemma_pending_through_run(states, k, b);
    lemma_finished_pending_enabled(states.last(), b);
}

/// After a pop, every package the run owed is still owed: the popped one is
/// enabled or in flight, and the rest still wait on the worklist.
proof fn lemma_pending_after_pop(pre: InstallEngine, post: InstallEngine, popped: PidView)
    requires
        pre.wl().len() > 0,
        popped == pre.wl().last(),
        post.wl() == pre.wl().drop_last(),
        post.enabled() == pre.enabled(),
        pre.task is Idle,
        pre.enabled().contains(popped) || post.task_id() == Some(popped),
    ensures
        forall|b: PidView| pre.pending(b) ==> post.pending(b),
{
    assert forall|b: PidView| pre.pending(b) implies post.pending(b) by {
        if pre.wl().contains(b) {
            let k = choose|k: int| 0 <= k < pre.wl().len() && pre.wl()[k] == b;
            if k < pre.wl().len() - 1 {
                assert(post.wl()[k] == b);
                assert(post.wl().contains(b));
            } else {
                assert(b == popped);
            }
        }
    }
}

} // verus!

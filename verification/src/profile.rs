use vstd::prelude::*;
use vstd::string::StringExecFns;

use crate::errors::Error;
use crate::ids::pid_eq;
use crate::ids::pids_of;
use crate::ids::PackageId;
use crate::ids::PidView;
use crate::text::views_of;

verus! {

/// A profile: the install root, the ordered set of enabled packages, and the
/// game the profile targets.
pub struct ProfileFile {
    pub install_path: String,
    pub enabled_mods: Vec<PackageId>,
    pub game: String,
}

impl ProfileFile {
    /// The values of the enabled set, in order.
    pub open spec fn enabled(self) -> Seq<PidView> {
        pids_of(self.enabled_mods@)
    }

    /// The enabled set holds each package at most once.
    pub open spec fn wf(self) -> bool {
        forall|i: int, j: int|
            0 <= i < j < self.enabled().len() ==> self.enabled()[i] != self.enabled()[j]
    }

    /// Appends a package to the enabled set.
    pub fn enable(&mut self, id: PackageId)
        requires
            old(self).wf(),
            !old(self).enabled().contains(id@),
        ensures
            final(self).enabled() == old(self).enabled().push(id@),
            final(self).wf(),
            final(self).install_path == old(self).install_path,
            final(self).game == old(self).game,
    {
        proof {
            assert(pids_of(self.enabled_mods@.push(id)) =~~= self.enabled().push(id@));
        }
        self.enabled_mods.push(id);
        proof {
            assert forall|i: int, j: int|
                0 <= i < j < self.enabled().len() implies self.enabled()[i]
                != self.enabled()[j] by {
                if j == self.enabled().len() - 1 {
                    assert(old(self).enabled().contains(old(self).enabled()[i]));
                }
            }
        }
    }

    /// Removes every entry of the enabled set whose value equals `id`.
    pub fn disable(&mut self, id: &PackageId)
        ensures
            final(self).enabled() == seq_remove_all(old(self).enabled(), id@),
            final(self).install_path == old(self).install_path,
            final(self).game == old(self).game,
            old(self).wf() ==> final(self).wf(),
    {
        let ghost full = self.enabled();
        let mut kept: Vec<PackageId> = Vec::new();
        let mut i: usize = 0;
        proof {
            assert(full.skip(0) =~= full);
            assert(seq_remove_all(full, id@) =~= pids_of(kept@) + seq_remove_all(
                full.skip(0),
                id@,
            ));
        }
        while i < self.enabled_mods.len()
            invariant
                i <= self.enabled_mods@.len(),
                full == self.enabled(),
                seq_remove_all(full, id@) == pids_of(kept@) + seq_remove_all(
                    full.skip(i as int),
                    id@,
                ),
            decreases self.enabled_mods@.len() - i,
        {
            let ghost tail = full.skip(i as int);
            let ghost x = self.enabled_mods@[i as int]@;
            proof {
                assert(pids_of(self.enabled_mods@)[i as int] == x);
                assert(tail[0] == x);
                assert(tail.skip(1) =~= full.skip(i + 1));
            }
            if !pid_eq(&self.enabled_mods[i], id) {
                let ghost kept0 = kept@;
                kept.push(self.enabled_mods[i].duplicate());
                proof {
                    assert(seq_remove_all(tail, id@) == seq![x] + seq_remove_all(
                        full.skip(i + 1),
                        id@,
                    ));
                    assert(pids_of(kept@) =~~= pids_of(kept0) + seq![x]);
                    assert(pids_of(kept0) + (seq![x] + seq_remove_all(full.skip(i + 1), id@)) =~= (
                    pids_of(kept0) + seq![x]) + seq_remove_all(full.skip(i + 1), id@));
                }
            } else {
                proof {
                    assert(seq_remove_all(tail, id@) == seq_remove_all(full.skip(i + 1), id@));
                }
            }
            i += 1;
        }
        proof {
            assert(full.skip(full.len() as int) =~= Seq::<PidView>::empty());
            assert(seq_remove_all(Seq::<PidView>::empty(), id@) =~= Seq::<PidView>::empty());
            assert(pids_of(kept@) + Seq::<PidView>::empty() =~= pids_of(kept@));
        }
        let ghost pre = *self;
        self.enabled_mods = kept;
        proof {
            if pre.wf() {
                lemma_seq_remove_all_distinct(pre.enabled(), id@);
            }
        }
    }
}

/// The sequence with every occurrence of `v` removed, the order of the rest
/// kept.
pub open spec fn seq_remove_all(s: Seq<PidView>, v: PidView) -> Seq<PidView>
    decreases s.len(),
{
    if s.len() == 0 {
        s
    } else if s[0] == v {
        seq_remove_all(s.skip(1), v)
    } else {
        seq![s[0]] + seq_remove_all(s.skip(1), v)
    }
}

/// Removal keeps exactly the elements other than the removed value.
pub proof fn lemma_seq_remove_all_contains(s: Seq<PidView>, v: PidView)
    ensures
        forall|p: PidView| #[trigger]
            seq_remove_all(s, v).contains(p) <==> (s.contains(p) && p != v),
    decreases s.len(),
{
    if s.len() > 0 {
        lemma_seq_remove_all_contains(s.skip(1), v);
        assert forall|p: PidView| #[trigger] seq_remove_all(s, v).contains(p) implies (s.contains(p)
            && p != v) by {
            let r = seq_remove_all(s, v);
            let k = choose|k: int| 0 <= k < r.len() && r[k] == p;
            if s[0] == v {
                assert(seq_remove_all(s.skip(1), v).contains(p));
                let j = choose|j: int| 0 <= j < s.skip(1).len() && s.skip(1)[j] == p;
                assert(s[j + 1] == p);
            } else {
                if k == 0 {
                    assert(s[0] == p);
                } else {
                    assert(seq_remove_all(s.skip(1), v)[k - 1] == p);
                    assert(seq_remove_all(s.skip(1), v).contains(p));
                    let j = choose|j: int| 0 <= j < s.skip(1).len() && s.skip(1)[j] == p;
                    assert(s[j + 1] == p);
                }
            }
        }
        assert forall|p: PidView| s.contains(p) && p != v implies #[trigger] seq_remove_all(
            s,
            v,
        ).contains(p) by {
            let j = choose|j: int| 0 <= j < s.len() && s[j] == p;
            if j == 0 {
                assert(s[0] != v);
                assert(seq_remove_all(s, v)[0] == p);
            } else {
                assert(s.skip(1)[j - 1] == p);
                assert(s.skip(1).contains(p));
                assert(seq_remove_all(s.skip(1), v).contains(p));
                let k = choose|k: int|
                    0 <= k < seq_remove_all(s.skip(1), v).len() && seq_remove_all(s.skip(1), v)[k]
                        == p;
                if s[0] == v {
                    assert(seq_remove_all(s, v)[k] == p);
                } else {
                    assert(seq_remove_all(s, v)[k + 1] == p);
                }
            }
        }
    }
}

/// Removal keeps pairwise-distinct elements pairwise distinct.
pub proof fn lemma_seq_remove_all_distinct(s: Seq<PidView>, v: PidView)
    requires
        forall|i: int, j: int| 0 <= i < j < s.len() ==> s[i] != s[j],
    ensures
        forall|i: int, j: int|
            0 <= i < j < seq_remove_all(s, v).len() ==> seq_remove_all(s, v)[i] != seq_remove_all(
                s,
                v,
            )[j],
    decreases s.len(),
{
    if s.len() > 0 {
        let t = s.skip(1);
        assert(forall|i: int, j: int| 0 <= i < j < t.len() ==> t[i] != t[j]);
        lemma_seq_remove_all_distinct(t, v);
        if s[0] != v {
            lemma_seq_remove_all_contains(t, v);
            let r = seq_remove_all(s, v);
            assert forall|i: int, j: int| 0 <= i < j < r.len() implies r[i] != r[j] by {
                if i == 0 {
                    assert(r[j] == seq_remove_all(t, v)[j - 1]);
                    assert(seq_remove_all(t, v).contains(r[j]));
                    assert(t.contains(r[j]));
                    let w = choose|w: int| 0 <= w < t.len() && t[w] == r[j];
                    assert(s[w + 1] == r[j]);
                    assert(s[0] != s[w + 1]);
                } else {
                    assert(r[i] == seq_remove_all(t, v)[i - 1]);
                    assert(r[j] == seq_remove_all(t, v)[j - 1]);
                }
            }
        }
    }
}

/// True exactly when `id` is in the profile's enabled set.
pub fn mod_is_installed(profile: &ProfileFile, id: &PackageId) -> (r: bool)
    ensures
        r == profile.enabled().contains(id@),
{
    crate::ids::contains_pid(&profile.enabled_mods, id)
}

/// True exactly when `name` occurs among the profile names in `profiles`.
pub fn profile_exists(profiles: &Vec<String>, name: &String) -> (r: bool)
    ensures
        r == views_of(profiles@).contains(name@),
{
    crate::text::contains_str(profiles, name)
}

/// Adds a profile name to the known set; an existing profile is left as it
/// is, and the call reports whether a new one was added.
pub fn create_profile(profiles: &mut Vec<String>, name: &String) -> (created: bool)
    ensures
        created == !views_of(old(profiles)@).contains(name@),
        created ==> final(profiles)@ == old(profiles)@.push(*name),
        !created ==> final(profiles)@ == old(profiles)@,
{
    if profile_exists(profiles, name) {
        false
    } else {
        profiles.push(name.clone());
        true
    }
}

/// Removes a profile name: refused for the current profile, and for a name
/// that is not known.
pub fn remove_profile(profiles: &mut Vec<String>, current: &String, name: &String) -> (r: Result<
    (),
    Error,
>)
    ensures
        name@ == current@ ==> r == Err::<(), Error>(Error::ConfigError) && final(profiles)@ == old(
            profiles,
        )@,
        name@ != current@ && !views_of(old(profiles)@).contains(name@) ==> r == Err::<(), Error>(
            Error::ProfileNotFound,
        ) && final(profiles)@ == old(profiles)@,
        name@ != current@ && views_of(old(profiles)@).contains(name@) ==> r is Ok && (exists|k: int|
            0 <= k < old(profiles)@.len() && old(profiles)@[k]@ == name@ && final(profiles)@ == old(
                profiles,
            )@.remove(k)),
{
    if *name == *current {
        return Err(Error::ConfigError);
    }
    let mut i: usize = 0;
    while i < profiles.len()
        invariant
            i <= profiles@.len(),
            profiles@ == old(profiles)@,
            name@ != current@,
            forall|j: int| 0 <= j < i ==> (#[trigger] profiles@[j])@ != name@,
        decreases profiles@.len() - i,
    {
        if profiles[i] == *name {
            let _ = profiles.remove(i);
            assert(views_of(old(profiles)@)[i as int] == name@);
            return Ok(());
        }
        i += 1;
    }
    assert(forall|j: int|
        0 <= j < profiles@.len() ==> views_of(profiles@)[j] == (#[trigger] profiles@[j])@);
    Err(Error::ProfileNotFound)
}

/// Marks which of the given profile names is the current one.
pub fn list_profiles(profiles: &Vec<String>, current: &String) -> (r: Vec<bool>)
    ensures
        r@.len() == profiles@.len(),
        forall|i: int| 0 <= i < r@.len() ==> r@[i] == ((#[trigger] profiles@[i])@ == current@),
{
    let mut r: Vec<bool> = Vec::new();
    let mut i: usize = 0;
    while i < profiles.len()
        invariant
            i <= profiles@.len(),
            r@.len() == i,
            forall|j: int| 0 <= j < i ==> r@[j] == ((#[trigger] profiles@[j])@ == current@),
        decreases profiles@.len() - i,
    {
        r.push(profiles[i] == *current);
        i += 1;
    }
    r
}

impl core::default::Default for ProfileFile {
    /// The profile shipped before any configuration: a placeholder install
    /// path, no enabled packages, and the default game.
    fn default() -> (r: Self)
        ensures
            r.install_path@ == "path/to/fallout/install/"@,
            r.enabled() == Seq::<PidView>::empty(),
            r.game@ == "Fallout: New Vegas"@,
            r.wf(),
    {
        let r = ProfileFile {
            install_path: String::from_str("path/to/fallout/install/"),
            enabled_mods: Vec::new(),
            game: String::from_str("Fallout: New Vegas"),
        };
        proof {
            assert(r.enabled() =~~= Seq::<PidView>::empty());
        }
        r
    }
}

} // verus!

//! The refresh runtime's registration bookkeeping.
//!
//! The runtime keeps, per target, whether it is registered and in which mode (scheduled or
//! manual one-shot), whether product demand has activated its Open refresh, and the newest
//! manual retry generation it has accepted. Each operation here decides what changes and which
//! command the supervisor must receive; when that command cannot be delivered the caller
//! reverts the change with the matching `revert_*` operation.
use vstd::prelude::*;

use crate::target::{keys_of, TargetMap, TermCampusKey};

verus! {

/// Why a registration request could not be served.
#[derive(Clone, Copy, Debug, Eq, PartialEq, Structural)]
pub enum RefreshRuntimeRegistrationError {
    Stopped,
    Unavailable,
    UnknownTarget,
}

/// The text of each registration error.
pub open spec fn spec_registration_error_message(e: RefreshRuntimeRegistrationError) -> Seq<char> {
    match e {
        RefreshRuntimeRegistrationError::Stopped => "refresh runtime is stopped"@,
        RefreshRuntimeRegistrationError::Unavailable => "refresh runtime registration state is unavailable"@,
        RefreshRuntimeRegistrationError::UnknownTarget => "refresh target is not registered"@,
    }
}

impl RefreshRuntimeRegistrationError {
    /// The error's text.
    pub fn message(&self) -> (res: &'static str)
        ensures
            res@ == spec_registration_error_message(*self),
    {
        match self {
            RefreshRuntimeRegistrationError::Stopped => "refresh runtime is stopped",
            RefreshRuntimeRegistrationError::Unavailable => "refresh runtime registration state is unavailable",
            RefreshRuntimeRegistrationError::UnknownTarget => "refresh target is not registered",
        }
    }
}

/// What a registration changed.
#[derive(Clone, Copy, Debug, Eq, PartialEq, Structural)]
pub enum RegistrationChange {
    /// The target was new: the supervisor must register it.
    Registered,
    /// The target's mode changed from the carried one: the supervisor must reclassify it.
    Reclassified(bool),
    /// Nothing changed.
    Unchanged,
}

/// What a registration of `key` in `manual` mode changes, given the registered modes.
pub open spec fn spec_registration_change(
    modes: Map<(Seq<char>, Seq<char>), bool>,
    key: (Seq<char>, Seq<char>),
    manual: bool,
) -> RegistrationChange {
    if !modes.contains_key(key) {
        RegistrationChange::Registered
    } else if modes[key] == manual {
        RegistrationChange::Unchanged
    } else {
        RegistrationChange::Reclassified(modes[key])
    }
}

/// The registered modes after a registration.
pub open spec fn spec_register(
    modes: Map<(Seq<char>, Seq<char>), bool>,
    key: (Seq<char>, Seq<char>),
    manual: bool,
) -> Map<(Seq<char>, Seq<char>), bool> {
    modes.insert(key, manual)
}

/// The registered modes after a registration that changed `change` is reverted.
pub open spec fn spec_revert_registration(
    modes: Map<(Seq<char>, Seq<char>), bool>,
    key: (Seq<char>, Seq<char>),
    change: RegistrationChange,
) -> Map<(Seq<char>, Seq<char>), bool> {
    match change {
        RegistrationChange::Registered => modes.remove(key),
        RegistrationChange::Reclassified(previous) => modes.insert(key, previous),
        RegistrationChange::Unchanged => modes,
    }
}

/// What a manual retry request did.
#[derive(Clone, Copy, Debug, Eq, PartialEq, Structural)]
pub enum RetryAdmission {
    /// The generation is newer than any accepted one (the carried one, if any): the
    /// supervisor must run the retry.
    Accepted(Option<u64>),
    /// The generation was already accepted or superseded.
    Coalesced,
}

/// The answer to a retry of `key` at `generation`, given the accepted generations.
pub open spec fn spec_retry_admission(
    generations: Map<(Seq<char>, Seq<char>), u64>,
    key: (Seq<char>, Seq<char>),
    generation: u64,
) -> RetryAdmission {
    if generations.contains_key(key) && generations[key] >= generation {
        RetryAdmission::Coalesced
    } else {
        RetryAdmission::Accepted(generations.get(key))
    }
}

/// The registration bookkeeping of one refresh runtime.
pub struct RefreshRegistry {
    modes: TargetMap<bool>,
    active_open: TargetMap<()>,
    retry_generations: TargetMap<u64>,
}

impl RefreshRegistry {
    /// Registered targets and their mode: `true` for manual one-shot.
    pub closed spec fn spec_modes(&self) -> Map<(Seq<char>, Seq<char>), bool> {
        self.modes.spec_map()
    }

    /// Targets whose Open refresh product demand has activated.
    pub closed spec fn spec_active(&self) -> Set<(Seq<char>, Seq<char>)> {
        self.active_open.spec_map().dom()
    }

    /// The newest accepted manual retry generation of each target.
    pub closed spec fn spec_generations(&self) -> Map<(Seq<char>, Seq<char>), u64> {
        self.retry_generations.spec_map()
    }

    pub closed spec fn wf(&self) -> bool {
        &&& self.modes.wf()
        &&& self.active_open.wf()
        &&& self.retry_generations.wf()
    }

    /// Nothing registered, active or retried.
    pub fn new() -> (res: Self)
        ensures
            res.wf(),
            res.spec_modes() == Map::<(Seq<char>, Seq<char>), bool>::empty(),
            res.spec_active() == Set::<(Seq<char>, Seq<char>)>::empty(),
            res.spec_generations() == Map::<(Seq<char>, Seq<char>), u64>::empty(),
    {
        let res = RefreshRegistry {
            modes: TargetMap::new(),
            active_open: TargetMap::new(),
            retry_generations: TargetMap::new(),
        };
        proof {
            assert(res.active_open.spec_map().dom() =~= Set::empty());
        }
        res
    }

    /// Registers `target` in the given mode; a registered target changes mode only.
    pub fn register(&mut self, target: &TermCampusKey, manual_one_shot: bool) -> (res:
        RegistrationChange)
        requires
            old(self).wf(),
        ensures
            final(self).wf(),
            res == spec_registration_change(old(self).spec_modes(), target.spec_key(), manual_one_shot),
            final(self).spec_modes() == spec_register(
                old(self).spec_modes(),
                target.spec_key(),
                manual_one_shot,
            ),
            final(self).spec_active() == old(self).spec_active(),
            final(self).spec_generations() == old(self).spec_generations(),
    {
        let previous = self.modes.insert(target, manual_one_shot);
        match previous {
            None => RegistrationChange::Registered,
            Some(p) => {
                if p == manual_one_shot {
                    proof {
                        assert(old(self).spec_modes().insert(target.spec_key(), manual_one_shot)
                            =~= old(self).spec_modes());
                    }
                    RegistrationChange::Unchanged
                } else {
                    RegistrationChange::Reclassified(p)
                }
            },
        }
    }

    /// Undoes a registration whose command could not be delivered.
    pub fn revert_registration(&mut self, target: &TermCampusKey, change: RegistrationChange)
        requires
            old(self).wf(),
        ensures
            final(self).wf(),
            final(self).spec_modes() == spec_revert_registration(
                old(self).spec_modes(),
                target.spec_key(),
                change,
            ),
            final(self).spec_active() == old(self).spec_active(),
            final(self).spec_generations() == old(self).spec_generations(),
    {
        match change {
            RegistrationChange::Registered => {
                let _ = self.modes.remove(target);
            },
            RegistrationChange::Reclassified(previous) => {
                let _ = self.modes.insert(target, previous);
            },
            RegistrationChange::Unchanged => {},
        }
    }

    /// Activates product demand for a registered target's Open refresh; `Ok(false)` when it
    /// is already active.
    pub fn activate_open(&mut self, target: &TermCampusKey) -> (res: Result<
        bool,
        RefreshRuntimeRegistrationError,
    >)
        requires
            old(self).wf(),
        ensures
            final(self).wf(),
            final(self).spec_modes() == old(self).spec_modes(),
            final(self).spec_generations() == old(self).spec_generations(),
            !old(self).spec_modes().contains_key(target.spec_key()) ==> res == Err::<
                bool,
                RefreshRuntimeRegistrationError,
            >(RefreshRuntimeRegistrationError::UnknownTarget) && final(self).spec_active() == old(
                self,
            ).spec_active(),
            old(self).spec_modes().contains_key(target.spec_key()) ==> res == Ok::<
                bool,
                RefreshRuntimeRegistrationError,
            >(!old(self).spec_active().contains(target.spec_key())) && final(self).spec_active()
                == old(self).spec_active().insert(target.spec_key()),
    {
        if self.modes.get(target).is_none() {
            return Err(RefreshRuntimeRegistrationError::UnknownTarget);
        }
        let previous = self.active_open.insert(target, ());
        proof {
            assert(self.active_open.spec_map().dom() =~= old(self).active_open.spec_map().dom().insert(
                target.spec_key(),
            ));
        }
        Ok(previous.is_none())
    }

    /// Drops product demand for `target`'s Open refresh: the supervisor released it, or its
    /// activation could not be delivered.
    pub fn deactivate_open(&mut self, target: &TermCampusKey)
        requires
            old(self).wf(),
        ensures
            final(self).wf(),
            final(self).spec_modes() == old(self).spec_modes(),
            final(self).spec_generations() == old(self).spec_generations(),
            final(self).spec_active() == old(self).spec_active().remove(target.spec_key()),
    {
        let _ = self.active_open.remove(target);
        proof {
            assert(self.active_open.spec_map().dom() =~= old(self).active_open.spec_map().dom().remove(
                target.spec_key(),
            ));
        }
    }

    /// Accepts a manual retry of a registered target when its generation is newer than every
    /// generation accepted for it.
    pub fn request_manual_retry(&mut self, target: &TermCampusKey, generation: u64) -> (res: Result<
        RetryAdmission,
        RefreshRuntimeRegistrationError,
    >)
        requires
            old(self).wf(),
        ensures
            final(self).wf(),
            final(self).spec_modes() == old(self).spec_modes(),
            final(self).spec_active() == old(self).spec_active(),
            !old(self).spec_modes().contains_key(target.spec_key()) ==> res == Err::<
                RetryAdmission,
                RefreshRuntimeRegistrationError,
            >(RefreshRuntimeRegistrationError::UnknownTarget) && final(self).spec_generations()
                == old(self).spec_generations(),
            old(self).spec_modes().contains_key(target.spec_key()) ==> res == Ok::<
                RetryAdmission,
                RefreshRuntimeRegistrationError,
            >(spec_retry_admission(old(self).spec_generations(), target.spec_key(), generation)),
            res == Ok::<RetryAdmission, RefreshRuntimeRegistrationError>(RetryAdmission::Coalesced)
                ==> final(self).spec_generations() == old(self).spec_generations(),
            res is Ok && res != Ok::<RetryAdmission, RefreshRuntimeRegistrationError>(
                RetryAdmission::Coalesced,
            ) ==> final(self).spec_generations() == old(self).spec_generations().insert(
                target.spec_key(),
                generation,
            ),
    {
        if self.modes.get(target).is_none() {
            return Err(RefreshRuntimeRegistrationError::UnknownTarget);
        }
        let previous = self.retry_generations.get(target);
        match previous {
            Some(g) => {
                if g >= generation {
                    return Ok(RetryAdmission::Coalesced);
                }
            },
            None => {},
        }
        let _ = self.retry_generations.insert(target, generation);
        Ok(RetryAdmission::Accepted(previous))
    }

    /// Undoes an accepted retry whose command could not be delivered.
    pub fn revert_manual_retry(&mut self, target: &TermCampusKey, previous: Option<u64>)
        requires
            old(self).wf(),
        ensures
            final(self).wf(),
            final(self).spec_modes() == old(self).spec_modes(),
            final(self).spec_active() == old(self).spec_active(),
            final(self).spec_generations() == (match previous {
                Some(p) => old(self).spec_generations().insert(target.spec_key(), p),
                None => old(self).spec_generations().remove(target.spec_key()),
            }),
    {
        match previous {
            Some(p) => {
                let _ = self.retry_generations.insert(target, p);
            },
            None => {
                let _ = self.retry_generations.remove(target);
            },
        }
    }

    /// Whether `target` is registered.
    pub fn is_registered(&self, target: &TermCampusKey) -> (res: bool)
        requires
            self.wf(),
        ensures
            res == self.spec_modes().contains_key(target.spec_key()),
    {
        self.modes.get(target).is_some()
    }

    /// The registered targets, each once.
    pub fn registered_targets(&self) -> (res: Vec<TermCampusKey>)
        requires
            self.wf(),
        ensures
            keys_of(res@).no_duplicates(),
            forall|k: (Seq<char>, Seq<char>)|
                #[trigger] keys_of(res@).contains(k) == self.spec_modes().contains_key(k),
    {
        self.modes.keys()
    }

    /// The active targets that `demanded` no longer lists: their demand must be released.
    pub fn undemanded_active(&self, demanded: &Vec<TermCampusKey>) -> (res: Vec<TermCampusKey>)
        requires
            self.wf(),
        ensures
            keys_of(res@).no_duplicates(),
            forall|k: (Seq<char>, Seq<char>)|
                #[trigger] keys_of(res@).contains(k) == (self.spec_active().contains(k)
                    && !keys_of(demanded@).contains(k)),
    {
        let active = self.active_open.keys();
        keys_not_in(&active, demanded)
    }

    /// The demanded targets that are registered, in the order given.
    pub fn demanded_registered(&self, demanded: &Vec<TermCampusKey>) -> (res: Vec<TermCampusKey>)
        requires
            self.wf(),
        ensures
            forall|k: (Seq<char>, Seq<char>)|
                #[trigger] keys_of(res@).contains(k) == (keys_of(demanded@).contains(k)
                    && self.spec_modes().contains_key(k)),
    {
        let mut res: Vec<TermCampusKey> = Vec::new();
        let mut i: usize = 0;
        while i < demanded.len()
            invariant
                self.wf(),
                i <= demanded@.len(),
                forall|k: (Seq<char>, Seq<char>)|
                    #[trigger] keys_of(res@).contains(k) == (keys_of(demanded@.subrange(
                        0,
                        i as int,
                    )).contains(k) && self.spec_modes().contains_key(k)),
            decreases demanded.len() - i,
        {
            let ghost before = res@;
            if self.is_registered(&demanded[i]) {
                res.push(demanded[i].copied());
            }
            proof {
                lemma_keys_prefix_step(demanded@, i as int);
                if self.spec_modes().contains_key(demanded@[i as int].spec_key()) {
                    lemma_keys_push(before, res@[res@.len() - 1]);
                    assert(res@ == before.push(res@[res@.len() - 1]));
                } else {
                    assert(res@ == before);
                }
            }
            i = i + 1;
        }
        proof {
            assert(demanded@.subrange(0, demanded@.len() as int) =~= demanded@);
        }
        res
    }

    /// Removes every registered target that `retained` does not list, with its demand, and
    /// returns the removed targets: the supervisor must stop each.
    pub fn retain_registered_targets(&mut self, retained: &Vec<TermCampusKey>) -> (removed: Vec<
        TermCampusKey,
    >)
        requires
            old(self).wf(),
        ensures
            final(self).wf(),
            keys_of(removed@).no_duplicates(),
            forall|k: (Seq<char>, Seq<char>)|
                #[trigger] keys_of(removed@).contains(k) == (old(self).spec_modes().contains_key(k)
                    && !keys_of(retained@).contains(k)),
            forall|k: (Seq<char>, Seq<char>)|
                #[trigger] final(self).spec_modes().contains_key(k) == (old(
                    self,
                ).spec_modes().contains_key(k) && keys_of(retained@).contains(k)),
            forall|k: (Seq<char>, Seq<char>)|
                #[trigger] final(self).spec_modes().contains_key(k) ==> final(self).spec_modes()[k]
                    == old(self).spec_modes()[k],
            forall|k: (Seq<char>, Seq<char>)|
                #[trigger] final(self).spec_active().contains(k) == (old(self).spec_active().contains(
                    k,
                ) && !keys_of(removed@).contains(k)),
            final(self).spec_generations() == old(self).spec_generations(),
    {
        let registered = self.modes.keys();
        let removed = keys_not_in(&registered, retained);
        let mut i: usize = 0;
        while i < removed.len()
            invariant
                self.wf(),
                i <= removed@.len(),
                self.spec_generations() == old(self).spec_generations(),
                forall|k: (Seq<char>, Seq<char>)|
                    #[trigger] self.spec_modes().contains_key(k) == (old(
                        self,
                    ).spec_modes().contains_key(k) && !keys_of(removed@.subrange(0, i as int)).contains(k)),
                forall|k: (Seq<char>, Seq<char>)|
                    #[trigger] self.spec_modes().contains_key(k) ==> self.spec_modes()[k] == old(
                        self,
                    ).spec_modes()[k],
                forall|k: (Seq<char>, Seq<char>)|
                    #[trigger] self.spec_active().contains(k) == (old(self).spec_active().contains(k)
                        && !keys_of(removed@.subrange(0, i as int)).contains(k)),
            decreases removed.len() - i,
        {
            let ghost modes_before = self.spec_modes();
            let ghost active_before = self.active_open.spec_map();
            let ghost act_before = self.spec_active();
            let _ = self.modes.remove(&removed[i]);
            let _ = self.active_open.remove(&removed[i]);
            proof {
                lemma_keys_prefix_step(removed@, i as int);
                assert(self.spec_modes() == modes_before.remove(removed@[i as int].spec_key()));
                assert(self.active_open.spec_map() == active_before.remove(removed@[i as int].spec_key()));
                assert(self.spec_active() =~= active_before.dom().remove(removed@[i as int].spec_key()));
                assert forall|k: (Seq<char>, Seq<char>)| #[trigger] self.spec_active().contains(k) == (old(
                    self,
                ).spec_active().contains(k) && !keys_of(removed@.subrange(0, i + 1)).contains(k)) by {
                    assert(act_before.contains(k) == (old(self).spec_active().contains(k) && !keys_of(
                        removed@.subrange(0, i as int),
                    ).contains(k)));
                }
                assert forall|k: (Seq<char>, Seq<char>)| #[trigger] self.spec_modes().contains_key(k)
                    implies self.spec_modes()[k] == old(self).spec_modes()[k] by {
                    assert(modes_before.contains_key(k));
                }
            }
            i = i + 1;
        }
        proof {
            assert(removed@.subrange(0, removed@.len() as int) =~= removed@);
        }
        removed
    }
}

proof fn lemma_keys_prefix_step(s: Seq<TermCampusKey>, i: int)
    requires
        0 <= i < s.len(),
    ensures
        forall|k: (Seq<char>, Seq<char>)|
            #[trigger] keys_of(s.subrange(0, i + 1)).contains(k) == (keys_of(s.subrange(0, i)).contains(k)
                || k == s[i].spec_key()),
{
    let a = keys_of(s.subrange(0, i));
    let b = keys_of(s.subrange(0, i + 1));
    assert forall|k: (Seq<char>, Seq<char>)| #[trigger] b.contains(k) == (a.contains(k) || k
        == s[i].spec_key()) by {
        if b.contains(k) {
            let m = choose|m: int| 0 <= m < b.len() && b[m] == k;
            if m < i {
                assert(a[m] == k);
            }
        }
        if a.contains(k) {
            let m = choose|m: int| 0 <= m < a.len() && a[m] == k;
            assert(b[m] == k);
        }
        if k == s[i].spec_key() {
            assert(b[i] == k);
        }
    }
}

proof fn lemma_keys_push(s: Seq<TermCampusKey>, t: TermCampusKey)
    ensures
        forall|k: (Seq<char>, Seq<char>)|
            #[trigger] keys_of(s.push(t)).contains(k) == (keys_of(s).contains(k) || k == t.spec_key()),
{
    let a = keys_of(s);
    let b = keys_of(s.push(t));
    assert forall|k: (Seq<char>, Seq<char>)| #[trigger] b.contains(k) == (a.contains(k) || k
        == t.spec_key()) by {
        if b.contains(k) {
            let m = choose|m: int| 0 <= m < b.len() && b[m] == k;
            if m < s.len() {
                assert(a[m] == k);
            }
        }
        if a.contains(k) {
            let m = choose|m: int| 0 <= m < a.len() && a[m] == k;
            assert(b[m] == k);
        }
        if k == t.spec_key() {
            assert(b[s.len() as int] == k);
        }
    }
}

/// The targets of `from` that `excluded` does not list, in order.
fn keys_not_in(from: &Vec<TermCampusKey>, excluded: &Vec<TermCampusKey>) -> (res: Vec<TermCampusKey>)
    requires
        keys_of(from@).no_duplicates(),
    ensures
        keys_of(res@).no_duplicates(),
        forall|k: (Seq<char>, Seq<char>)|
            #[trigger] keys_of(res@).contains(k) == (keys_of(from@).contains(k) && !keys_of(
                excluded@,
            ).contains(k)),
{
    let mut res: Vec<TermCampusKey> = Vec::new();
    let mut i: usize = 0;
    while i < from.len()
        invariant
            i <= from@.len(),
            keys_of(from@).no_duplicates(),
            keys_of(res@).no_duplicates(),
            forall|k: (Seq<char>, Seq<char>)|
                #[trigger] keys_of(res@).contains(k) == (keys_of(from@.subrange(0, i as int)).contains(k)
                    && !keys_of(excluded@).contains(k)),
        decreases from.len() - i,
    {
        let ghost before = res@;
        let listed = crate::target::contains_key(excluded, &from[i]);
        proof {
            if listed {
                let m = choose|m: int| 0 <= m < excluded@.len() && (#[trigger] excluded@[m]).spec_key() == from@[i as int].spec_key();
                assert(keys_of(excluded@)[m] == from@[i as int].spec_key());
            } else {
                assert forall|m: int| 0 <= m < keys_of(excluded@).len() implies keys_of(excluded@)[m] != from@[i as int].spec_key() by {
                    assert(keys_of(excluded@)[m] == excluded@[m].spec_key());
                }
            }
        }
        if !listed {
            res.push(from[i].copied());
            proof {
                let t = res@[res@.len() - 1];
                lemma_keys_push(before, t);
                assert(res@ == before.push(t));
                assert(!keys_of(before).contains(t.spec_key())) by {
                    if keys_of(before).contains(t.spec_key()) {
                        let m = choose|m: int| 0 <= m < keys_of(from@.subrange(0, i as int)).len() && keys_of(from@.subrange(0, i as int))[m] == t.spec_key();
                        assert(keys_of(from@)[m] == keys_of(from@)[i as int]);
                    }
                }
                assert(keys_of(res@) =~= keys_of(before).push(t.spec_key()));
                assert forall|a: int, b: int|
                    0 <= a < keys_of(res@).len() && 0 <= b < keys_of(res@).len() && a != b implies keys_of(res@)[a]
                        != keys_of(res@)[b] by {
                    if a == res@.len() - 1 {
                        assert(keys_of(before)[b] == keys_of(res@)[b]);
                    } else if b == res@.len() - 1 {
                        assert(keys_of(before)[a] == keys_of(res@)[a]);
                    }
                }
            }
        }
        proof {
            lemma_keys_prefix_step(from@, i as int);
        }
        i = i + 1;
    }
    proof {
        assert(from@.subrange(0, from@.len() as int) =~= from@);
    }
    res
}

/// Registering the same target in the same mode again changes nothing.
pub proof fn lemma_registration_is_idempotent(
    modes: Map<(Seq<char>, Seq<char>), bool>,
    key: (Seq<char>, Seq<char>),
    manual: bool,
)
    ensures
        spec_registration_change(spec_register(modes, key, manual), key, manual)
            == RegistrationChange::Unchanged,
        spec_register(spec_register(modes, key, manual), key, manual) == spec_register(
            modes,
            key,
            manual,
        ),
{
    assert(spec_register(spec_register(modes, key, manual), key, manual) =~= spec_register(
        modes,
        key,
        manual,
    ));
}

/// Reverting a registration restores the registered modes it changed.
pub proof fn lemma_revert_registration_restores(
    modes: Map<(Seq<char>, Seq<char>), bool>,
    key: (Seq<char>, Seq<char>),
    manual: bool,
)
    ensures
        spec_revert_registration(
            spec_register(modes, key, manual),
            key,
            spec_registration_change(modes, key, manual),
        ) == modes,
{
    let after = spec_register(modes, key, manual);
    if !modes.contains_key(key) {
        assert(after.remove(key) =~= modes);
    } else if modes[key] == manual {
        assert(after =~= modes);
    } else {
        assert(after.insert(key, modes[key]) =~= modes);
    }
}

/// Once a generation is accepted for a target, that generation and every older one are
/// coalesced, while a newer one is accepted.
pub proof fn lemma_retry_generations_are_monotone(
    generations: Map<(Seq<char>, Seq<char>), u64>,
    key: (Seq<char>, Seq<char>),
    accepted: u64,
    later: u64,
)
    ensures
        later <= accepted ==> spec_retry_admission(generations.insert(key, accepted), key, later)
            == RetryAdmission::Coalesced,
        later > accepted ==> spec_retry_admission(generations.insert(key, accepted), key, later)
            == RetryAdmission::Accepted(Some(accepted)),
{
}

} // verus!

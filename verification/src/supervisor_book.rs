//! The refresh supervisor's bookkeeping between workflows: which target coordinators are
//! idle and in which modes, which targets want product demand, which were removed while
//! running, and which reclassifications wait for a running workflow to finish.
use vstd::prelude::*;

use crate::supervisor::{primary_followup, PrimaryCompletion, PrimaryFollowup};
use crate::target::{TargetMap, TermCampusKey};

verus! {

/// The modes of an idle target coordinator.
#[derive(Clone, Copy, Debug, Eq, PartialEq, Structural)]
pub struct IdleTarget {
    pub manual_one_shot: bool,
    pub product_demand_active: bool,
}

/// The supervisor's state between workflows.
pub struct SupervisorBook {
    idle: TargetMap<IdleTarget>,
    desired_demand: TargetMap<bool>,
    removed: TargetMap<bool>,
    pending_manual: TargetMap<bool>,
}

impl SupervisorBook {
    /// The idle target coordinators and their modes.
    pub closed spec fn spec_idle(&self) -> Map<(Seq<char>, Seq<char>), IdleTarget> {
        self.idle.spec_map()
    }

    /// The targets whose product demand is wanted.
    pub closed spec fn spec_desired(&self) -> Set<(Seq<char>, Seq<char>)> {
        self.desired_demand.spec_map().dom()
    }

    /// The targets removed while their workflow ran.
    pub closed spec fn spec_removed(&self) -> Set<(Seq<char>, Seq<char>)> {
        self.removed.spec_map().dom()
    }

    /// The manual modes waiting for a running workflow to finish.
    pub closed spec fn spec_pending(&self) -> Map<(Seq<char>, Seq<char>), bool> {
        self.pending_manual.spec_map()
    }

    pub closed spec fn wf(&self) -> bool {
        &&& self.idle.wf()
        &&& self.desired_demand.wf()
        &&& self.removed.wf()
        &&& self.pending_manual.wf()
    }

    /// The given coordinators idle, with no demand, removal or pending reclassification.
    pub fn new() -> (res: Self)
        ensures
            res.wf(),
            res.spec_idle() == Map::<(Seq<char>, Seq<char>), IdleTarget>::empty(),
            res.spec_desired() == Set::<(Seq<char>, Seq<char>)>::empty(),
            res.spec_removed() == Set::<(Seq<char>, Seq<char>)>::empty(),
            res.spec_pending() == Map::<(Seq<char>, Seq<char>), bool>::empty(),
    {
        let res = SupervisorBook {
            idle: TargetMap::new(),
            desired_demand: TargetMap::new(),
            removed: TargetMap::new(),
            pending_manual: TargetMap::new(),
        };
        proof {
            assert(res.spec_desired() =~= Set::empty());
            assert(res.spec_removed() =~= Set::empty());
        }
        res
    }

    /// A registration creates a coordinator unless the target already has an idle one.
    pub fn should_register(&self, target: &TermCampusKey) -> (res: bool)
        requires
            self.wf(),
        ensures
            res == !self.spec_idle().contains_key(target.spec_key()),
    {
        self.idle.get(target).is_none()
    }

    /// Records a registered coordinator as idle, with product demand active when it is
    /// wanted; says whether the coordinator must activate its Open refresh.
    pub fn record_registration(&mut self, target: &TermCampusKey, manual_one_shot: bool) -> (activate:
        bool)
        requires
            old(self).wf(),
        ensures
            final(self).wf(),
            activate == old(self).spec_desired().contains(target.spec_key()),
            final(self).spec_idle() == old(self).spec_idle().insert(
                target.spec_key(),
                IdleTarget { manual_one_shot, product_demand_active: activate },
            ),
            final(self).spec_desired() == old(self).spec_desired(),
            final(self).spec_removed() == old(self).spec_removed(),
            final(self).spec_pending() == old(self).spec_pending(),
    {
        let activate = self.desired_demand.get(target).is_some();
        self.idle.insert(target, IdleTarget { manual_one_shot, product_demand_active: activate });
        activate
    }

    /// A reclassification: an idle coordinator switches mode when its mode differs; for a
    /// running one the mode waits until its workflow finishes. Says whether to switch now.
    pub fn reclassify(&mut self, target: &TermCampusKey, manual_one_shot: bool) -> (switch_now: bool)
        requires
            old(self).wf(),
        ensures
            final(self).wf(),
            switch_now == (old(self).spec_idle().contains_key(target.spec_key()) && old(
                self,
            ).spec_idle()[target.spec_key()].manual_one_shot != manual_one_shot),
            final(self).spec_pending() == (if old(self).spec_idle().contains_key(target.spec_key()) {
                old(self).spec_pending()
            } else {
                old(self).spec_pending().insert(target.spec_key(), manual_one_shot)
            }),
            final(self).spec_idle() == old(self).spec_idle(),
            final(self).spec_desired() == old(self).spec_desired(),
            final(self).spec_removed() == old(self).spec_removed(),
    {
        match self.idle.get(target) {
            Some(entry) => entry.manual_one_shot != manual_one_shot,
            None => {
                self.pending_manual.insert(target, manual_one_shot);
                false
            },
        }
    }

    /// Records that an idle coordinator switched its manual mode.
    pub fn manual_mode_applied(&mut self, target: &TermCampusKey, manual_one_shot: bool)
        requires
            old(self).wf(),
        ensures
            final(self).wf(),
            final(self).spec_idle() == (if old(self).spec_idle().contains_key(target.spec_key()) {
                old(self).spec_idle().insert(
                    target.spec_key(),
                    IdleTarget {
                        manual_one_shot,
                        product_demand_active: old(
                            self,
                        ).spec_idle()[target.spec_key()].product_demand_active,
                    },
                )
            } else {
                old(self).spec_idle()
            }),
            final(self).spec_desired() == old(self).spec_desired(),
            final(self).spec_removed() == old(self).spec_removed(),
            final(self).spec_pending() == old(self).spec_pending(),
    {
        if let Some(entry) = self.idle.get(target) {
            self.idle.insert(
                target,
                IdleTarget { manual_one_shot, product_demand_active: entry.product_demand_active },
            );
        }
    }

    /// Product demand is wanted for the target; says whether its idle coordinator must
    /// activate its Open refresh now.
    pub fn activate_open(&mut self, target: &TermCampusKey) -> (activate: bool)
        requires
            old(self).wf(),
        ensures
            final(self).wf(),
            final(self).spec_desired() == old(self).spec_desired().insert(target.spec_key()),
            activate == (old(self).spec_idle().contains_key(target.spec_key()) && !old(
                self,
            ).spec_idle()[target.spec_key()].product_demand_active),
            final(self).spec_idle() == old(self).spec_idle(),
            final(self).spec_removed() == old(self).spec_removed(),
            final(self).spec_pending() == old(self).spec_pending(),
    {
        self.desired_demand.insert(target, true);
        match self.idle.get(target) {
            Some(entry) => !entry.product_demand_active,
            None => false,
        }
    }

    /// Product demand is no longer wanted; says whether the idle coordinator must release it.
    pub fn release_demand(&mut self, target: &TermCampusKey) -> (release: bool)
        requires
            old(self).wf(),
        ensures
            final(self).wf(),
            final(self).spec_desired() == old(self).spec_desired().remove(target.spec_key()),
            release == (old(self).spec_idle().contains_key(target.spec_key()) && old(
                self,
            ).spec_idle()[target.spec_key()].product_demand_active),
            final(self).spec_idle() == old(self).spec_idle(),
            final(self).spec_removed() == old(self).spec_removed(),
            final(self).spec_pending() == old(self).spec_pending(),
    {
        self.desired_demand.remove(target);
        match self.idle.get(target) {
            Some(entry) => entry.product_demand_active,
            None => false,
        }
    }

    /// Records that an idle coordinator switched its product demand.
    pub fn demand_applied(&mut self, target: &TermCampusKey, active: bool)
        requires
            old(self).wf(),
        ensures
            final(self).wf(),
            final(self).spec_idle() == (if old(self).spec_idle().contains_key(target.spec_key()) {
                old(self).spec_idle().insert(
                    target.spec_key(),
                    IdleTarget {
                        manual_one_shot: old(self).spec_idle()[target.spec_key()].manual_one_shot,
                        product_demand_active: active,
                    },
                )
            } else {
                old(self).spec_idle()
            }),
            final(self).spec_desired() == old(self).spec_desired(),
            final(self).spec_removed() == old(self).spec_removed(),
            final(self).spec_pending() == old(self).spec_pending(),
    {
        if let Some(entry) = self.idle.get(target) {
            self.idle.insert(
                target,
                IdleTarget { manual_one_shot: entry.manual_one_shot, product_demand_active: active },
            );
        }
    }

    /// Removes a target: its demand and pending mode are dropped; an idle coordinator is
    /// taken out to be stopped now, and a running one is marked to stop when it finishes.
    /// Says whether an idle coordinator was taken out.
    pub fn remove_target(&mut self, target: &TermCampusKey) -> (stop_now: bool)
        requires
            old(self).wf(),
        ensures
            final(self).wf(),
            stop_now == old(self).spec_idle().contains_key(target.spec_key()),
            final(self).spec_idle() == old(self).spec_idle().remove(target.spec_key()),
            final(self).spec_desired() == old(self).spec_desired().remove(target.spec_key()),
            final(self).spec_pending() == old(self).spec_pending().remove(target.spec_key()),
            final(self).spec_removed() == (if stop_now {
                old(self).spec_removed()
            } else {
                old(self).spec_removed().insert(target.spec_key())
            }),
    {
        self.desired_demand.remove(target);
        self.pending_manual.remove(target);
        match self.idle.remove(target) {
            Some(_) => true,
            None => {
                self.removed.insert(target, true);
                proof {
                    assert(self.spec_removed() =~= old(self).spec_removed().insert(
                        target.spec_key(),
                    ));
                }
                false
            },
        }
    }

    /// Takes an idle coordinator out to run its next workflow.
    pub fn dispatch(&mut self, target: &TermCampusKey) -> (entry: Option<IdleTarget>)
        requires
            old(self).wf(),
        ensures
            final(self).wf(),
            entry == old(self).spec_idle().get(target.spec_key()),
            final(self).spec_idle() == old(self).spec_idle().remove(target.spec_key()),
            final(self).spec_desired() == old(self).spec_desired(),
            final(self).spec_removed() == old(self).spec_removed(),
            final(self).spec_pending() == old(self).spec_pending(),
    {
        self.idle.remove(target)
    }

    /// A primary workflow finished. A target removed meanwhile is stopped and forgotten; any
    /// other returns to idle in its modes, and the follow-up says which mode and demand
    /// switches to make (each recorded once it succeeds).
    pub fn finish_primary(
        &mut self,
        target: &TermCampusKey,
        entry: IdleTarget,
        published_candidate: bool,
        has_concurrent_open: bool,
    ) -> (res: PrimaryFollowup)
        requires
            old(self).wf(),
        ensures
            final(self).wf(),
            ({
                let k = target.spec_key();
                let removed = old(self).spec_removed().contains(k);
                &&& res == crate::supervisor::spec_primary_followup(
                    PrimaryCompletion {
                        published_candidate,
                        has_concurrent_open,
                        removed,
                        pending_manual_one_shot: old(self).spec_pending().get(k),
                        manual_one_shot: entry.manual_one_shot,
                        demand_desired: old(self).spec_desired().contains(k),
                        demand_active: entry.product_demand_active,
                    },
                )
                &&& final(self).spec_removed() == old(self).spec_removed().remove(k)
                &&& final(self).spec_pending() == old(self).spec_pending().remove(k)
                &&& final(self).spec_desired() == old(self).spec_desired()
                &&& final(self).spec_idle() == (if removed {
                    old(self).spec_idle()
                } else {
                    old(self).spec_idle().insert(k, entry)
                })
            }),
    {
        let removed = self.removed.remove(target).is_some();
        let pending = self.pending_manual.remove(target);
        let desired = self.desired_demand.get(target).is_some();
        proof {
            assert(self.spec_removed() =~= old(self).spec_removed().remove(target.spec_key()));
        }
        let completion = PrimaryCompletion {
            published_candidate,
            has_concurrent_open,
            removed,
            pending_manual_one_shot: pending,
            manual_one_shot: entry.manual_one_shot,
            demand_desired: desired,
            demand_active: entry.product_demand_active,
        };
        if !removed {
            self.idle.insert(target, entry);
        }
        primary_followup(completion)
    }
}

} // verus!

//! Dispatch decisions of the bounded refresh supervisor: when it may start work, which
//! concurrent Open refresh goes first, and which target's next workflow goes first.
use vstd::prelude::*;

use crate::target::{key_lt, lemma_key_lt_order, TermCampusKey};
use crate::text::{eq_ascii_nocase, eq_ignore_ascii_case};
use crate::workflow::{
    allows_parallel_serving_open, OriginJobKind, class_rank, lemma_priority_follows_plan_order,
    lemma_priority_within_class, plan_order, priority_precedes, spec_precedes,
    GlobalWorkflowPriority, WorkflowPhase,
};

verus! {

/// At most this many target workflows run at once.
pub const REFRESH_MAX_CONCURRENCY: usize = 3;

/// Whether the supervisor may start another workflow: a slot is free and no origin pause is
/// in force.
pub fn dispatch_allowed(running: usize, origin_pause: Option<u128>) -> (res: bool)
    ensures
        res == (running < REFRESH_MAX_CONCURRENCY && origin_pause is None),
{
    running < REFRESH_MAX_CONCURRENCY && origin_pause.is_none()
}

/// A target's concurrent Open refresh as the supervisor sees it.
pub struct ParallelOpenCandidate {
    pub target: TermCampusKey,
    pub in_flight: bool,
    /// When the refresh is due, in nanoseconds of the supervisor's monotonic clock.
    pub next_due: u128,
    /// What the target's primary workflow is doing.
    pub phase: WorkflowPhase,
}

/// A concurrent Open refresh may start: it is idle, due, and its primary workflow allows it.
pub open spec fn parallel_eligible(c: ParallelOpenCandidate, now: u128) -> bool {
    &&& !c.in_flight
    &&& c.next_due <= now
    &&& (c.phase == WorkflowPhase::CatalogFetch || c.phase == WorkflowPhase::CatalogProcess)
}

/// New Brunswick first.
pub open spec fn campus_rank(campus: Seq<char>) -> int {
    if eq_ascii_nocase(campus, "NB"@) {
        0
    } else {
        1
    }
}

/// The order of concurrent Open refreshes: New Brunswick first, then due time, then target.
pub open spec fn parallel_lt(a: ParallelOpenCandidate, b: ParallelOpenCandidate) -> bool {
    ||| campus_rank(a.target.spec_campus()) < campus_rank(b.target.spec_campus())
    ||| campus_rank(a.target.spec_campus()) == campus_rank(b.target.spec_campus()) && a.next_due
        < b.next_due
    ||| campus_rank(a.target.spec_campus()) == campus_rank(b.target.spec_campus()) && a.next_due
        == b.next_due && key_lt(a.target.spec_key(), b.target.spec_key())
}

proof fn lemma_parallel_lt_order(a: ParallelOpenCandidate, b: ParallelOpenCandidate, c: ParallelOpenCandidate)
    ensures
        !parallel_lt(a, a),
        parallel_lt(a, b) && parallel_lt(b, c) ==> parallel_lt(a, c),
        !parallel_lt(a, b) ==> parallel_lt(b, a) || (campus_rank(a.target.spec_campus())
            == campus_rank(b.target.spec_campus()) && a.next_due == b.next_due
            && a.target.spec_key() == b.target.spec_key()),
{
    lemma_key_lt_order(a.target.spec_key(), b.target.spec_key(), c.target.spec_key());
    lemma_key_lt_order(b.target.spec_key(), a.target.spec_key(), c.target.spec_key());
}

fn campus_rank_of(target: &TermCampusKey) -> (res: u8)
    ensures
        res == campus_rank(target.spec_campus()),
{
    let nb = eq_ignore_ascii_case(target.campus(), "NB");
    proof {
        reveal_strlit("NB");
    }
    if nb {
        0
    } else {
        1
    }
}

fn parallel_less(a: &ParallelOpenCandidate, b: &ParallelOpenCandidate) -> (res: bool)
    ensures
        res == parallel_lt(*a, *b),
{
    let ra = campus_rank_of(&a.target);
    let rb = campus_rank_of(&b.target);
    if ra != rb {
        return ra < rb;
    }
    if a.next_due != b.next_due {
        return a.next_due < b.next_due;
    }
    crate::target::key_less(&a.target, &b.target)
}

/// The concurrent Open refresh to start now: the first in refresh order among the eligible
/// ones, or none when none is eligible.
pub fn select_parallel_open(candidates: &Vec<ParallelOpenCandidate>, now: u128) -> (res: Option<usize>)
    ensures
        match res {
            Some(m) => {
                &&& m < candidates@.len()
                &&& parallel_eligible(candidates@[m as int], now)
                &&& forall|j: int|
                    0 <= j < candidates@.len() && parallel_eligible(#[trigger] candidates@[j], now)
                        ==> !parallel_lt(candidates@[j], candidates@[m as int])
            },
            None => forall|j: int|
                0 <= j < candidates@.len() ==> !parallel_eligible(#[trigger] candidates@[j], now),
        },
{
    let mut best: Option<usize> = None;
    let mut i: usize = 0;
    while i < candidates.len()
        invariant
            i <= candidates@.len(),
            match best {
                Some(m) => {
                    &&& m < i
                    &&& parallel_eligible(candidates@[m as int], now)
                    &&& forall|j: int|
                        0 <= j < i && parallel_eligible(#[trigger] candidates@[j], now)
                            ==> !parallel_lt(candidates@[j], candidates@[m as int])
                },
                None => forall|j: int| 0 <= j < i ==> !parallel_eligible(#[trigger] candidates@[j], now),
            },
        decreases candidates.len() - i,
    {
        let c = &candidates[i];
        let eligible = !c.in_flight && c.next_due <= now && allows_parallel_serving_open(c.phase);
        if eligible {
            match best {
                None => {
                    proof {
                        lemma_parallel_lt_order(candidates@[i as int], candidates@[i as int], candidates@[i as int]);
                    }
                    best = Some(i);
                },
                Some(m) => {
                    if parallel_less(c, &candidates[m]) {
                        proof {
                            let ci = candidates@[i as int];
                            let cm = candidates@[m as int];
                            assert forall|j: int|
                                0 <= j < i + 1 && parallel_eligible(#[trigger] candidates@[j], now)
                                    implies !parallel_lt(candidates@[j], ci) by {
                                let cj = candidates@[j];
                                lemma_parallel_lt_order(cj, ci, cm);
                                lemma_parallel_lt_order(ci, cj, cm);
                                lemma_parallel_lt_order(cj, cm, ci);
                                lemma_parallel_lt_order(ci, ci, ci);
                                lemma_key_lt_order(cj.target.spec_key(), ci.target.spec_key(), cm.target.spec_key());
                                lemma_key_lt_order(ci.target.spec_key(), cj.target.spec_key(), cm.target.spec_key());
                            }
                        }
                        best = Some(i);
                    }
                },
            }
        }
        i = i + 1;
    }
    best
}

/// The order of global workflow priorities is a strict order.
pub proof fn lemma_precedes_order(a: &GlobalWorkflowPriority, b: &GlobalWorkflowPriority, c: &GlobalWorkflowPriority)
    ensures
        !spec_precedes(a, a),
        !(spec_precedes(a, b) && spec_precedes(b, a)),
        spec_precedes(a, b) && spec_precedes(b, c) ==> spec_precedes(a, c),
        !spec_precedes(a, b) && !spec_precedes(b, a) ==> class_rank(a.class) == class_rank(b.class)
            && a.campus_rank == b.campus_rank && a.scheduled_due == b.scheduled_due
            && a.target.spec_key() == b.target.spec_key(),
{
    lemma_key_lt_order(a.target.spec_key(), b.target.spec_key(), c.target.spec_key());
    lemma_key_lt_order(b.target.spec_key(), a.target.spec_key(), c.target.spec_key());
}

/// The workflow to start now: the first of the candidates' next workflows in global priority
/// order, or none when there is no candidate. No candidate precedes it, and it precedes every
/// candidate listed before it.
pub fn select_primary(priorities: &Vec<GlobalWorkflowPriority>) -> (res: Option<usize>)
    ensures
        match res {
            Some(m) => {
                &&& m < priorities@.len()
                &&& forall|j: int|
                    0 <= j < priorities@.len() ==> !spec_precedes(&#[trigger] priorities@[j], &priorities@[m as int])
                &&& forall|j: int|
                    0 <= j < m ==> spec_precedes(&priorities@[m as int], &#[trigger] priorities@[j])
            },
            None => priorities@.len() == 0,
        },
{
    if priorities.len() == 0 {
        return None;
    }
    let mut best: usize = 0;
    let mut i: usize = 1;
    proof {
        lemma_precedes_order(&priorities@[0], &priorities@[0], &priorities@[0]);
    }
    while i < priorities.len()
        invariant
            1 <= i <= priorities@.len(),
            best < i,
            forall|j: int| 0 <= j < i ==> !spec_precedes(&#[trigger] priorities@[j], &priorities@[best as int]),
            forall|j: int| 0 <= j < best ==> spec_precedes(&priorities@[best as int], &#[trigger] priorities@[j]),
        decreases priorities.len() - i,
    {
        if priority_precedes(&priorities[i], &priorities[best]) {
            proof {
                let pi = &priorities@[i as int];
                let pb = &priorities@[best as int];
                assert forall|j: int| 0 <= j < i + 1 implies !spec_precedes(&#[trigger] priorities@[j], pi) by {
                    let pj = &priorities@[j];
                    lemma_precedes_order(pj, pi, pb);
                    lemma_precedes_order(pi, pj, pb);
                    lemma_precedes_order(pi, pi, pi);
                    lemma_precedes_order(pj, pb, pi);
                    if !spec_precedes(pj, pb) && !spec_precedes(pb, pj) {
                        lemma_key_lt_order(pj.target.spec_key(), pi.target.spec_key(), pb.target.spec_key());
                    }
                }
                assert forall|j: int| 0 <= j < i implies spec_precedes(pi, &#[trigger] priorities@[j]) by {
                    let pj = &priorities@[j];
                    lemma_precedes_order(pi, pb, pj);
                    lemma_precedes_order(pb, pj, pi);
                    lemma_precedes_order(pj, pb, pi);
                    if !spec_precedes(pj, pb) && !spec_precedes(pb, pj) {
                        lemma_key_lt_order(pi.target.spec_key(), pb.target.spec_key(), pj.target.spec_key());
                        lemma_key_lt_order(pi.target.spec_key(), pj.target.spec_key(), pb.target.spec_key());
                    }
                }
            }
            best = i;
        } else {
            proof {
                lemma_precedes_order(&priorities@[i as int], &priorities@[best as int], &priorities@[best as int]);
            }
        }
        i = i + 1;
    }
    Some(best)
}


/// A finished Catalog workflow waits while its target's concurrent Open refresh is in flight,
/// so the two complete in order.
pub fn defer_primary_completion(kind: OriginJobKind, concurrent_open_in_flight: bool) -> (res: bool)
    ensures
        res == (kind == OriginJobKind::Catalog && concurrent_open_in_flight),
{
    kind == OriginJobKind::Catalog && concurrent_open_in_flight
}

/// What a finished primary workflow found about its target.
#[derive(Clone, Copy, Debug, Eq, PartialEq, Structural)]
pub struct PrimaryCompletion {
    /// The workflow published a Catalog candidate (applied, unchanged, or valid and empty).
    pub published_candidate: bool,
    /// The target's concurrent Open refresh state was taken over from the workflow.
    pub has_concurrent_open: bool,
    /// The target was removed while the workflow ran.
    pub removed: bool,
    /// A reclassification that arrived while the workflow ran.
    pub pending_manual_one_shot: Option<bool>,
    pub manual_one_shot: bool,
    pub demand_desired: bool,
    pub demand_active: bool,
}

/// What the supervisor does with a target after its primary workflow.
#[derive(Clone, Copy, Debug, Eq, PartialEq, Structural)]
pub struct PrimaryFollowup {
    /// Hand the concurrent Open schedule back to the target's coordinator.
    pub adopt_concurrent_schedule: bool,
    /// Stop the target's coordinator for good.
    pub stop: bool,
    /// The manual mode to switch to, if it changes.
    pub set_manual_one_shot: Option<bool>,
    /// The product demand to switch to, if it changes.
    pub set_product_demand: Option<bool>,
}

/// The follow-up of a finished primary workflow, as `primary_followup` computes it.
pub open spec fn spec_primary_followup(c: PrimaryCompletion) -> PrimaryFollowup {
    PrimaryFollowup {
        adopt_concurrent_schedule: !c.published_candidate && c.has_concurrent_open,
        stop: c.removed,
        set_manual_one_shot: match c.pending_manual_one_shot {
            Some(m) => if !c.removed && m != c.manual_one_shot {
                Some(m)
            } else {
                None
            },
            None => None,
        },
        set_product_demand: if !c.removed && c.demand_desired != c.demand_active {
            Some(c.demand_desired)
        } else {
            None
        },
    }
}

/// The follow-up of a finished primary workflow. A published candidate supersedes the
/// concurrent Open schedule; otherwise the coordinator adopts it. A removed target is stopped
/// and nothing else changes; otherwise a pending reclassification and the desired product
/// demand are applied where they differ from the target's current state.
pub fn primary_followup(c: PrimaryCompletion) -> (res: PrimaryFollowup)
    ensures
        res == spec_primary_followup(c),
        res.adopt_concurrent_schedule == (!c.published_candidate && c.has_concurrent_open),
        res.stop == c.removed,
        res.set_manual_one_shot == (match c.pending_manual_one_shot {
            Some(m) => if !c.removed && m != c.manual_one_shot {
                Some(m)
            } else {
                None
            },
            None => None,
        }),
        res.set_product_demand == (if !c.removed && c.demand_desired != c.demand_active {
            Some(c.demand_desired)
        } else {
            None
        }),
{
    let adopt = !c.published_candidate && c.has_concurrent_open;
    if c.removed {
        return PrimaryFollowup {
            adopt_concurrent_schedule: adopt,
            stop: true,
            set_manual_one_shot: None,
            set_product_demand: None,
        };
    }
    let set_manual = match c.pending_manual_one_shot {
        Some(m) => if m != c.manual_one_shot {
            Some(m)
        } else {
            None
        },
        None => None,
    };
    let set_demand = if c.demand_desired != c.demand_active {
        Some(c.demand_desired)
    } else {
        None
    };
    PrimaryFollowup {
        adopt_concurrent_schedule: adopt,
        stop: false,
        set_manual_one_shot: set_manual,
        set_product_demand: set_demand,
    }
}

/// The time until `next_due`, or zero once it has come.
pub fn remaining_until(next_due: u128, now: u128) -> (res: u128)
    ensures
        res == (if next_due > now {
            (next_due - now) as int
        } else {
            0
        }),
{
    next_due.saturating_sub(now)
}

/// New Brunswick, in any letter case.
pub open spec fn is_new_brunswick(campus: Seq<char>) -> bool {
    eq_ascii_nocase(campus, seq!['N', 'B'])
}

/// The order of concurrent Open refreshes: a New Brunswick target before any other; among
/// targets that are both New Brunswick or both not, the earlier due time first whatever the
/// targets; at equal due times the smaller target key.
pub proof fn lemma_parallel_order(a: ParallelOpenCandidate, b: ParallelOpenCandidate)
    ensures
        is_new_brunswick(a.target.spec_campus()) && !is_new_brunswick(b.target.spec_campus())
            ==> parallel_lt(a, b) && !parallel_lt(b, a),
        is_new_brunswick(a.target.spec_campus()) == is_new_brunswick(b.target.spec_campus())
            && a.next_due < b.next_due ==> parallel_lt(a, b) && !parallel_lt(b, a),
        is_new_brunswick(a.target.spec_campus()) == is_new_brunswick(b.target.spec_campus())
            && a.next_due == b.next_due && key_lt(a.target.spec_key(), b.target.spec_key())
            ==> parallel_lt(a, b),
{
    reveal_strlit("NB");
    assert("NB"@ =~= seq!['N', 'B']);
    lemma_key_lt_order(a.target.spec_key(), b.target.spec_key(), a.target.spec_key());
}

/// The concurrent Open refresh that `select_parallel_open` picks is idle, due, and its
/// primary workflow is fetching or processing its Catalog; when any eligible refresh is for
/// New Brunswick the pick is too; and no eligible refresh of the same New Brunswick standing
/// is due earlier.
pub proof fn lemma_parallel_pick_is_earliest(cands: Seq<ParallelOpenCandidate>, now: u128, m: int)
    requires
        0 <= m < cands.len(),
        parallel_eligible(cands[m], now),
        forall|j: int|
            0 <= j < cands.len() && parallel_eligible(#[trigger] cands[j], now) ==> !parallel_lt(
                cands[j],
                cands[m],
            ),
    ensures
        !cands[m].in_flight,
        cands[m].next_due <= now,
        cands[m].phase == WorkflowPhase::CatalogFetch || cands[m].phase == WorkflowPhase::CatalogProcess,
        forall|j: int|
            0 <= j < cands.len() && parallel_eligible(#[trigger] cands[j], now) && is_new_brunswick(
                cands[j].target.spec_campus(),
            ) ==> is_new_brunswick(cands[m].target.spec_campus()),
        forall|j: int|
            0 <= j < cands.len() && parallel_eligible(#[trigger] cands[j], now) && is_new_brunswick(
                cands[j].target.spec_campus(),
            ) == is_new_brunswick(cands[m].target.spec_campus()) ==> cands[m].next_due
                <= cands[j].next_due,
{
    assert forall|j: int|
        0 <= j < cands.len() && parallel_eligible(#[trigger] cands[j], now) && is_new_brunswick(
            cands[j].target.spec_campus(),
        ) implies is_new_brunswick(cands[m].target.spec_campus()) by {
        lemma_parallel_order(cands[j], cands[m]);
    }
    assert forall|j: int|
        0 <= j < cands.len() && parallel_eligible(#[trigger] cands[j], now) && is_new_brunswick(
            cands[j].target.spec_campus(),
        ) == is_new_brunswick(cands[m].target.spec_campus()) implies cands[m].next_due
        <= cands[j].next_due by {
        lemma_parallel_order(cands[j], cands[m]);
    }
}

/// The workflow that `select_primary` picks belongs to the earliest class in plan order among
/// all candidates; among candidates of its class it has the lowest campus rank, and among
/// those of its class and rank the earliest due time.
pub proof fn lemma_primary_pick_is_earliest(ps: Seq<GlobalWorkflowPriority>, m: int)
    requires
        0 <= m < ps.len(),
        forall|j: int| 0 <= j < ps.len() ==> !spec_precedes(&#[trigger] ps[j], &ps[m]),
    ensures
        forall|j: int, i: int, k: int|
            #![trigger ps[j], plan_order()[i], plan_order()[k]]
            0 <= j < ps.len() && 0 <= i < k < plan_order().len() && plan_order()[i] == ps[j].class
                && plan_order()[k] == ps[m].class ==> false,
        forall|j: int|
            0 <= j < ps.len() && (#[trigger] ps[j]).class == ps[m].class ==> ps[m].campus_rank
                <= ps[j].campus_rank,
        forall|j: int|
            0 <= j < ps.len() && (#[trigger] ps[j]).class == ps[m].class && ps[j].campus_rank
                == ps[m].campus_rank ==> ps[m].scheduled_due <= ps[j].scheduled_due,
{
    assert forall|j: int, i: int, k: int|
        #![trigger ps[j], plan_order()[i], plan_order()[k]]
        0 <= j < ps.len() && 0 <= i < k < plan_order().len() && plan_order()[i] == ps[j].class
            && plan_order()[k] == ps[m].class implies false by {
        lemma_priority_follows_plan_order(&ps[j], &ps[m], i, k);
    }
    assert forall|j: int| 0 <= j < ps.len() && (#[trigger] ps[j]).class == ps[m].class implies ps[m].campus_rank
        <= ps[j].campus_rank by {
        lemma_priority_within_class(&ps[j], &ps[m]);
    }
    assert forall|j: int|
        0 <= j < ps.len() && (#[trigger] ps[j]).class == ps[m].class && ps[j].campus_rank
            == ps[m].campus_rank implies ps[m].scheduled_due <= ps[j].scheduled_due by {
        lemma_priority_within_class(&ps[j], &ps[m]);
    }
}

} // verus!

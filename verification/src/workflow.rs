//! Target workflows of the refresh supervisor: their global priority, their phases, and how
//! their outcomes are reported.
use vstd::prelude::*;

use crate::refresh_schedule::{spec_catalog_error_class, spec_catalog_failure_code, CatalogPullFailure};
use crate::target::{key_lt, TermCampusKey};
use crate::text::{eq_ascii_nocase, eq_ignore_ascii_case, str_eq, str_lt};

verus! {

/// The kind of upstream work an origin job does.
#[derive(Clone, Copy, Debug, Eq, PartialEq, Structural)]
pub enum OriginJobKind {
    Catalog,
    Open,
}

/// The origin scheduler's lanes.
#[derive(Clone, Copy, Debug, Eq, PartialEq, Structural)]
pub enum OriginSchedulerLane {
    Catalog,
    OpenGeneral,
    OpenActiveWatch,
    OpenFirstLoad,
    OpenManualRefresh,
    OpenCatalogRaceRecheck,
}

/// The lanes the public contract reports.
#[derive(Clone, Copy, Debug, Eq, PartialEq, Structural)]
pub enum OpenSchedulerLane {
    General,
    ActiveWatch,
    FirstLoad,
    ManualRefresh,
    CatalogRaceRecheck,
}

/// The contract lane of a scheduler lane: Catalog work is reported as general.
pub fn contract_lane(lane: OriginSchedulerLane) -> (res: OpenSchedulerLane)
    ensures
        res == (match lane {
            OriginSchedulerLane::Catalog | OriginSchedulerLane::OpenGeneral => OpenSchedulerLane::General,
            OriginSchedulerLane::OpenActiveWatch => OpenSchedulerLane::ActiveWatch,
            OriginSchedulerLane::OpenFirstLoad => OpenSchedulerLane::FirstLoad,
            OriginSchedulerLane::OpenManualRefresh => OpenSchedulerLane::ManualRefresh,
            OriginSchedulerLane::OpenCatalogRaceRecheck => OpenSchedulerLane::CatalogRaceRecheck,
        }),
{
    match lane {
        OriginSchedulerLane::Catalog | OriginSchedulerLane::OpenGeneral => OpenSchedulerLane::General,
        OriginSchedulerLane::OpenActiveWatch => OpenSchedulerLane::ActiveWatch,
        OriginSchedulerLane::OpenFirstLoad => OpenSchedulerLane::FirstLoad,
        OriginSchedulerLane::OpenManualRefresh => OpenSchedulerLane::ManualRefresh,
        OriginSchedulerLane::OpenCatalogRaceRecheck => OpenSchedulerLane::CatalogRaceRecheck,
    }
}

/// What the origin scheduler says of a target's next job.
#[derive(Clone, Copy, Debug, Eq, PartialEq, Structural)]
pub struct OriginDispatchHint {
    pub kind: OriginJobKind,
    pub lane: OriginSchedulerLane,
    /// When the job is due, in nanoseconds of the supervisor's monotonic clock.
    pub scheduled_due: u128,
    pub active_watch_count: u64,
    pub generation_pending: bool,
    pub failure_streak: u32,
}

/// The current and next terms of the Rutgers term window.
pub struct TermWindowTerms {
    pub current_term: String,
    pub next_term: String,
}

/// The classes of target workflows, in the order the supervisor serves them.
#[derive(Clone, Copy, Debug, Eq, PartialEq, Structural)]
pub enum GlobalWorkflowClass {
    ActiveWatchOpen,
    ManualCompleteSnapshot,
    AppliedOpen,
    CurrentInitialSnapshot,
    NextInitialSnapshot,
    AppliedCatalog,
    LowFrequencyMaintenance,
}

/// The position of a class in the serving order.
pub open spec fn class_rank(c: GlobalWorkflowClass) -> int {
    match c {
        GlobalWorkflowClass::ActiveWatchOpen => 0,
        GlobalWorkflowClass::ManualCompleteSnapshot => 1,
        GlobalWorkflowClass::AppliedOpen => 2,
        GlobalWorkflowClass::CurrentInitialSnapshot => 3,
        GlobalWorkflowClass::NextInitialSnapshot => 4,
        GlobalWorkflowClass::AppliedCatalog => 5,
        GlobalWorkflowClass::LowFrequencyMaintenance => 6,
    }
}

fn class_rank_of(c: GlobalWorkflowClass) -> (res: u8)
    ensures
        res == class_rank(c),
{
    match c {
        GlobalWorkflowClass::ActiveWatchOpen => 0,
        GlobalWorkflowClass::ManualCompleteSnapshot => 1,
        GlobalWorkflowClass::AppliedOpen => 2,
        GlobalWorkflowClass::CurrentInitialSnapshot => 3,
        GlobalWorkflowClass::NextInitialSnapshot => 4,
        GlobalWorkflowClass::AppliedCatalog => 5,
        GlobalWorkflowClass::LowFrequencyMaintenance => 6,
    }
}

/// The class of a target's next workflow.
pub open spec fn spec_workflow_class(
    term: Seq<char>,
    hint: OriginDispatchHint,
    manual_one_shot: bool,
    product_demand_active: bool,
    window: Option<(Seq<char>, Seq<char>)>,
) -> GlobalWorkflowClass {
    if hint.kind == OriginJobKind::Open && (hint.active_watch_count > 0 || hint.lane
        == OriginSchedulerLane::OpenActiveWatch) {
        GlobalWorkflowClass::ActiveWatchOpen
    } else if manual_one_shot && hint.kind == OriginJobKind::Catalog && hint.generation_pending {
        GlobalWorkflowClass::ManualCompleteSnapshot
    } else if product_demand_active && hint.kind == OriginJobKind::Open {
        GlobalWorkflowClass::AppliedOpen
    } else if hint.kind == OriginJobKind::Catalog && hint.generation_pending && window
        == Some((term, window.unwrap().1)) {
        GlobalWorkflowClass::CurrentInitialSnapshot
    } else if hint.kind == OriginJobKind::Catalog && hint.generation_pending && window
        == Some((window.unwrap().0, term)) {
        GlobalWorkflowClass::NextInitialSnapshot
    } else if product_demand_active && hint.kind == OriginJobKind::Catalog {
        GlobalWorkflowClass::AppliedCatalog
    } else {
        GlobalWorkflowClass::LowFrequencyMaintenance
    }
}

/// A workflow's place in the one global queue: its class, then New Brunswick first, then due
/// time, then target identity.
pub struct GlobalWorkflowPriority {
    pub class: GlobalWorkflowClass,
    pub campus_rank: u8,
    pub scheduled_due: u128,
    pub target: TermCampusKey,
}

/// Whether priority `a` is served before priority `b`.
pub open spec fn spec_precedes(a: &GlobalWorkflowPriority, b: &GlobalWorkflowPriority) -> bool {
    ||| class_rank(a.class) < class_rank(b.class)
    ||| class_rank(a.class) == class_rank(b.class) && a.campus_rank < b.campus_rank
    ||| class_rank(a.class) == class_rank(b.class) && a.campus_rank == b.campus_rank
        && a.scheduled_due < b.scheduled_due
    ||| class_rank(a.class) == class_rank(b.class) && a.campus_rank == b.campus_rank
        && a.scheduled_due == b.scheduled_due && key_lt(a.target.spec_key(), b.target.spec_key())
}

/// The global priority of a target's next workflow.
pub fn global_workflow_priority(
    target: &TermCampusKey,
    hint: &OriginDispatchHint,
    manual_one_shot: bool,
    product_demand_active: bool,
    term_window: Option<&TermWindowTerms>,
) -> (res: GlobalWorkflowPriority)
    ensures
        res.class == spec_workflow_class(
            target.spec_term(),
            *hint,
            manual_one_shot,
            product_demand_active,
            match term_window {
                Some(w) => Some((w.current_term@, w.next_term@)),
                None => None,
            },
        ),
        res.campus_rank == (if eq_ascii_nocase(target.spec_campus(), "NB"@) {
            0u8
        } else {
            1u8
        }),
        res.scheduled_due == hint.scheduled_due,
        res.target.spec_key() == target.spec_key(),
{
    let is_catalog = hint.kind == OriginJobKind::Catalog;
    let is_open = hint.kind == OriginJobKind::Open;
    let (is_current, is_next) = match term_window {
        Some(w) => (str_eq(target.term(), w.current_term.as_str()), str_eq(
            target.term(),
            w.next_term.as_str(),
        )),
        None => (false, false),
    };
    let class = if is_open && (hint.active_watch_count > 0 || hint.lane
        == OriginSchedulerLane::OpenActiveWatch) {
        GlobalWorkflowClass::ActiveWatchOpen
    } else if manual_one_shot && is_catalog && hint.generation_pending {
        GlobalWorkflowClass::ManualCompleteSnapshot
    } else if product_demand_active && is_open {
        GlobalWorkflowClass::AppliedOpen
    } else if is_catalog && hint.generation_pending && is_current {
        GlobalWorkflowClass::CurrentInitialSnapshot
    } else if is_catalog && hint.generation_pending && is_next {
        GlobalWorkflowClass::NextInitialSnapshot
    } else if product_demand_active && is_catalog {
        GlobalWorkflowClass::AppliedCatalog
    } else {
        GlobalWorkflowClass::LowFrequencyMaintenance
    };
    let campus_rank: u8 = if eq_ignore_ascii_case(target.campus(), "NB") {
        0
    } else {
        1
    };
    proof {
        reveal_strlit("NB");
    }
    GlobalWorkflowPriority {
        class,
        campus_rank,
        scheduled_due: hint.scheduled_due,
        target: target.copied(),
    }
}

/// Whether `a` is served before `b` in the global queue.
pub fn priority_precedes(a: &GlobalWorkflowPriority, b: &GlobalWorkflowPriority) -> (res: bool)
    ensures
        res == spec_precedes(a, b),
{
    let ra = class_rank_of(a.class);
    let rb = class_rank_of(b.class);
    if ra != rb {
        return ra < rb;
    }
    if a.campus_rank != b.campus_rank {
        return a.campus_rank < b.campus_rank;
    }
    if a.scheduled_due != b.scheduled_due {
        return a.scheduled_due < b.scheduled_due;
    }
    if str_lt(a.target.term(), b.target.term()) {
        return true;
    }
    if !str_eq(a.target.term(), b.target.term()) {
        return false;
    }
    str_lt(a.target.campus(), b.target.campus())
}

/// What a target's primary workflow is doing.
#[derive(Clone, Copy, Debug, Eq, PartialEq, Structural)]
pub enum WorkflowPhase {
    Idle,
    CatalogFetch,
    CatalogProcess,
    CandidateOpen,
}

/// A serving Open refresh may run beside the primary workflow only while it fetches or
/// processes the Catalog; a candidate Open takes the target's Open gate itself.
pub fn allows_parallel_serving_open(phase: WorkflowPhase) -> (res: bool)
    ensures
        res == (phase == WorkflowPhase::CatalogFetch || phase == WorkflowPhase::CatalogProcess),
{
    match phase {
        WorkflowPhase::CatalogFetch | WorkflowPhase::CatalogProcess => true,
        _ => false,
    }
}

/// How an Open pull ended.
#[derive(Clone, Copy, Debug, Eq, PartialEq, Structural)]
pub enum OpenDispatchTerminal {
    Valid,
    Unsafe,
    CatalogRace,
    Failed,
}

/// The kinds of target workflow the supervisor reports.
#[derive(Clone, Copy, Debug, Eq, PartialEq, Structural)]
pub enum TargetWorkflowKind {
    CompleteSnapshot,
    OpenRefresh,
}

/// The aggregate facts the supervisor publishes for readiness.
#[derive(Clone, Copy, Debug, Default, Eq, PartialEq, Structural)]
pub struct CoordinatorStatusSnapshot {
    pub maximum_lag_milliseconds: u64,
    pub origin_circuit_open: bool,
    pub overloaded: bool,
    pub in_flight: bool,
}

/// A status sink that discards everything.
#[derive(Clone, Copy, Debug, Default)]
pub struct NoopCoordinatorStatusSink;

/// What a dispatched workflow produced, as far as its reported error depends on it.
#[derive(Clone, Copy, Debug, Eq, PartialEq, Structural)]
pub enum DispatchOutcomeKind {
    CatalogPublished,
    CatalogFailed(CatalogPullFailure),
    OpenCompleted(OpenDispatchTerminal),
    CompleteSnapshotOpenFailed,
}

/// The code reported for a terminal of an Open pull that is retried.
pub open spec fn spec_open_terminal_code(t: OpenDispatchTerminal) -> Seq<char> {
    match t {
        OpenDispatchTerminal::Failed => "OPEN_REFRESH_FAILED"@,
        OpenDispatchTerminal::Unsafe => "OPEN_RESPONSE_UNSAFE"@,
        OpenDispatchTerminal::CatalogRace => "OPEN_CATALOG_RACE"@,
        OpenDispatchTerminal::Valid => "OPEN_REFRESH_UNEXPECTED_RETRY"@,
    }
}

/// The fallback code and the error class of a retried outcome; a complete-snapshot Open
/// failure reports the code it carries.
pub open spec fn spec_outcome_error(outcome: DispatchOutcomeKind, snapshot_open_code: Seq<char>) -> (
    Seq<char>,
    Seq<char>,
) {
    match outcome {
        DispatchOutcomeKind::CatalogFailed(f) => (
            spec_catalog_failure_code(f),
            spec_catalog_error_class(f),
        ),
        DispatchOutcomeKind::OpenCompleted(t) => (spec_open_terminal_code(t), "OPEN"@),
        DispatchOutcomeKind::CompleteSnapshotOpenFailed => (snapshot_open_code, "OPEN"@),
        DispatchOutcomeKind::CatalogPublished => ("REFRESH_UNEXPECTED_RETRY"@, "INTERNAL"@),
    }
}

/// The code and error class of a target's retried outcome. The code of a recorded Open
/// attempt failure wins over the outcome's own code.
pub fn target_error_code_and_class(
    outcome: DispatchOutcomeKind,
    snapshot_open_code: &'static str,
    open_attempt_code: Option<&str>,
) -> (res: (String, &'static str))
    ensures
        res.0@ == (match open_attempt_code {
            Some(c) => c@,
            None => spec_outcome_error(outcome, snapshot_open_code@).0,
        }),
        res.1@ == spec_outcome_error(outcome, snapshot_open_code@).1,
{
    let (fallback, class): (&'static str, &'static str) = match outcome {
        DispatchOutcomeKind::CatalogFailed(f) => (f.storage_code(), f.error_class()),
        DispatchOutcomeKind::OpenCompleted(t) => (
            match t {
                OpenDispatchTerminal::Failed => "OPEN_REFRESH_FAILED",
                OpenDispatchTerminal::Unsafe => "OPEN_RESPONSE_UNSAFE",
                OpenDispatchTerminal::CatalogRace => "OPEN_CATALOG_RACE",
                OpenDispatchTerminal::Valid => "OPEN_REFRESH_UNEXPECTED_RETRY",
            },
            "OPEN",
        ),
        DispatchOutcomeKind::CompleteSnapshotOpenFailed => (snapshot_open_code, "OPEN"),
        DispatchOutcomeKind::CatalogPublished => ("REFRESH_UNEXPECTED_RETRY", "INTERNAL"),
    };
    let code = match open_attempt_code {
        Some(c) => c.to_string(),
        None => fallback.to_string(),
    };
    (code, class)
}

/// The stage a retried workflow reports.
#[derive(Clone, Copy, Debug, Eq, PartialEq, Structural)]
pub enum RetryStage {
    CatalogFetch,
    OpenFetch,
}

/// A complete snapshot's failed Open retries at the Open fetch; otherwise the dispatched
/// kind decides.
pub fn retry_stage_for_outcome(outcome: DispatchOutcomeKind, dispatched: OriginJobKind) -> (res:
    RetryStage)
    ensures
        res == (if outcome == DispatchOutcomeKind::CompleteSnapshotOpenFailed
            || dispatched == OriginJobKind::Open {
            RetryStage::OpenFetch
        } else {
            RetryStage::CatalogFetch
        }),
{
    match outcome {
        DispatchOutcomeKind::CompleteSnapshotOpenFailed => RetryStage::OpenFetch,
        _ => match dispatched {
            OriginJobKind::Catalog => RetryStage::CatalogFetch,
            OriginJobKind::Open => RetryStage::OpenFetch,
        },
    }
}

/// When an open origin circuit opened: now if it was closed before, else when it first opened.
pub fn circuit_opened_at<T: Copy>(previous_closed: bool, previous_opened_at: Option<T>, now: T) -> (res:
    Option<T>)
    ensures
        res == (if previous_closed {
            Some(now)
        } else {
            match previous_opened_at {
                Some(t) => Some(t),
                None => Some(now),
            }
        }),
{
    if previous_closed {
        Some(now)
    } else {
        match previous_opened_at {
            Some(t) => Some(t),
            None => Some(now),
        }
    }
}


/// Whether a dispatched workflow's outcome leaves its target waiting for a retry: a failed
/// Catalog pull, a failed complete-snapshot Open, or an Open pull that failed, was unsafe or
/// raced the Catalog.
pub fn outcome_is_retrying(outcome: DispatchOutcomeKind) -> (res: bool)
    ensures
        res == (match outcome {
            DispatchOutcomeKind::CatalogFailed(_) | DispatchOutcomeKind::CompleteSnapshotOpenFailed => true,
            DispatchOutcomeKind::OpenCompleted(t) => t != OpenDispatchTerminal::Valid,
            DispatchOutcomeKind::CatalogPublished => false,
        }),
{
    match outcome {
        DispatchOutcomeKind::CatalogFailed(_) | DispatchOutcomeKind::CompleteSnapshotOpenFailed => true,
        DispatchOutcomeKind::OpenCompleted(t) => match t {
            OpenDispatchTerminal::Valid => false,
            _ => true,
        },
        DispatchOutcomeKind::CatalogPublished => false,
    }
}

/// Whether a Catalog completion that asks for an immediate Open must move the target's Open
/// job: it is not scheduled, or it is scheduled later than the completion.
pub fn needs_immediate_open(open_active: bool, open_next_due: Option<u128>, completed_at: u128) -> (res:
    bool)
    ensures
        res == (!open_active || (open_next_due is Some && open_next_due->0 > completed_at)),
{
    !open_active || match open_next_due {
        Some(due) => due > completed_at,
        None => false,
    }
}

/// A dispatch is overloaded when the scheduler ran it later than its requested interval.
pub fn dispatch_overloaded(scheduler_lag_nanos: u128, requested_interval_nanos: u128) -> (res: bool)
    ensures
        res == (scheduler_lag_nanos > requested_interval_nanos),
{
    scheduler_lag_nanos > requested_interval_nanos
}

/// The supervisor's plan: the workflow classes in the order they are served.
pub open spec fn plan_order() -> Seq<GlobalWorkflowClass> {
    seq![
        GlobalWorkflowClass::ActiveWatchOpen,
        GlobalWorkflowClass::ManualCompleteSnapshot,
        GlobalWorkflowClass::AppliedOpen,
        GlobalWorkflowClass::CurrentInitialSnapshot,
        GlobalWorkflowClass::NextInitialSnapshot,
        GlobalWorkflowClass::AppliedCatalog,
        GlobalWorkflowClass::LowFrequencyMaintenance,
    ]
}

/// Priorities are served class by class in plan order: a workflow of an earlier class
/// precedes one of a later class whatever their campus, due time and target, and so a
/// current-term initial snapshot precedes a next-term one. Within a class, New Brunswick's
/// rank, then the due time, then the target key decide.
pub proof fn lemma_priority_follows_plan_order(
    a: &GlobalWorkflowPriority,
    b: &GlobalWorkflowPriority,
    i: int,
    j: int,
)
    requires
        0 <= i < j < plan_order().len(),
        a.class == plan_order()[i],
        b.class == plan_order()[j],
    ensures
        spec_precedes(a, b),
        !spec_precedes(b, a),
{
    lemma_class_rank_is_plan_position();
}

/// Within one class the lower campus rank goes first, then the earlier due time, then the
/// smaller target key.
pub proof fn lemma_priority_within_class(a: &GlobalWorkflowPriority, b: &GlobalWorkflowPriority)
    requires
        a.class == b.class,
    ensures
        a.campus_rank < b.campus_rank ==> spec_precedes(a, b),
        a.campus_rank == b.campus_rank && a.scheduled_due < b.scheduled_due ==> spec_precedes(a, b),
        a.campus_rank == b.campus_rank && a.scheduled_due == b.scheduled_due && key_lt(
            a.target.spec_key(),
            b.target.spec_key(),
        ) ==> spec_precedes(a, b),
        a.campus_rank > b.campus_rank ==> !spec_precedes(a, b),
        a.campus_rank == b.campus_rank && a.scheduled_due > b.scheduled_due ==> !spec_precedes(a, b),
{
}

/// The rank of each class is its position in the plan.
proof fn lemma_class_rank_is_plan_position()
    ensures
        forall|i: int| 0 <= i < plan_order().len() ==> class_rank(#[trigger] plan_order()[i]) == i,
{
    assert forall|i: int| 0 <= i < plan_order().len() implies class_rank(#[trigger] plan_order()[i]) == i by {
        if i == 0 {
        } else if i == 1 {
        } else if i == 2 {
        } else if i == 3 {
        } else if i == 4 {
        } else if i == 5 {
        } else {
        }
    }
}

} // verus!

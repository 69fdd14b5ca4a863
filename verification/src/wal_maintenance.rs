//! WAL maintenance decisions for the shared operational database.
//!
//! A PASSIVE checkpoint runs after every Open commit and Catalog publication; whether a
//! RESTART or TRUNCATE follows is decided here from the size of the log, the time since the
//! last escalation, and a starvation detector that suppresses escalation while a pinned reader
//! would make every escalation wait out its busy timeout for nothing. The checkpoints
//! themselves are run by the host against its storage; this module plans and records them.
use vstd::prelude::*;

verus! {

/// Log size above which a PASSIVE checkpoint is followed by RESTART.
pub const WAL_RESTART_LOG_FRAMES: u64 = 16384;

/// Log size above which the escalation is TRUNCATE instead.
pub const WAL_TRUNCATE_LOG_FRAMES: u64 = 65536;

/// Minimum spacing of two escalations, in nanoseconds of the monotonic clock (one minute).
pub const WAL_ESCALATION_MIN_INTERVAL_NANOS: u128 = 60000000000;

/// A zero-progress PASSIVE checkpoint on a log at least this large is evidence of a pinned
/// reader.
pub const WAL_STARVATION_MIN_LOG_FRAMES: u64 = 4096;

/// How many consecutive zero-progress reports it takes to call the log starved.
pub const WAL_STARVATION_ZERO_PROGRESS_REPORTS: u32 = 3;

/// The checkpoint modes the operational store can run.
#[derive(Clone, Copy, Debug, Eq, PartialEq, Structural)]
pub enum WalCheckpointMode {
    Passive,
    Restart,
    Truncate,
}

/// What one checkpoint reported: whether it was blocked, the size of the log, and how many
/// frames it moved back into the database.
#[derive(Clone, Copy, Debug, Eq, PartialEq)]
pub struct WalCheckpointReport {
    pub busy: bool,
    pub log_frames: u64,
    pub checkpointed_frames: u64,
}

impl WalCheckpointReport {
    /// Every frame of the log was checkpointed and nothing was blocked.
    pub fn is_complete(&self) -> (res: bool)
        ensures
            res == (!self.busy && self.checkpointed_frames == self.log_frames),
    {
        !self.busy && self.checkpointed_frames == self.log_frames
    }
}

/// Why maintenance is due.
#[derive(Clone, Copy, Debug, Eq, PartialEq, Structural)]
pub enum WalMaintenanceReason {
    OpenCommit,
    CatalogPublished,
}

impl WalMaintenanceReason {
    pub fn as_str(self) -> (res: &'static str)
        ensures
            res@ == (match self {
                WalMaintenanceReason::OpenCommit => "open_commit"@,
                WalMaintenanceReason::CatalogPublished => "catalog_published"@,
            }),
    {
        match self {
            WalMaintenanceReason::OpenCommit => "open_commit",
            WalMaintenanceReason::CatalogPublished => "catalog_published",
        }
    }
}

/// The transaction state of one connection a host owns, as reported in the starvation
/// diagnostic.
#[derive(Clone, Debug, Eq, PartialEq)]
pub struct StorageConnectionInventoryEntry {
    pub connection: &'static str,
    pub transaction_state: &'static str,
}

/// The state reported for a connection whose mutex another owner holds.
pub const INVENTORY_LOCKED: &'static str = "LOCKED";

/// The state reported for a connection the store refused to describe.
pub const INVENTORY_ERROR: &'static str = "ERROR";

impl StorageConnectionInventoryEntry {
    pub fn new(connection: &'static str, transaction_state: &'static str) -> (res: Self)
        ensures
            res.connection == connection,
            res.transaction_state == transaction_state,
    {
        StorageConnectionInventoryEntry { connection, transaction_state }
    }

    /// The entry for a connection whose state query either answered or failed.
    pub fn from_state(connection: &'static str, state: Option<&'static str>) -> (res: Self)
        ensures
            res.connection == connection,
            res.transaction_state == (match state {
                Some(s) => s,
                None => INVENTORY_ERROR,
            }),
    {
        match state {
            Some(s) => Self::new(connection, s),
            None => Self::new(connection, INVENTORY_ERROR),
        }
    }
}

/// The escalation rule; it never touches the database.
#[derive(Clone, Copy, Debug, Eq, PartialEq)]
pub struct WalMaintenancePolicy {
    pub restart_when_log_frames_over: u64,
    pub truncate_when_log_frames_over: u64,
    pub min_interval_between_escalations_nanos: u128,
}

impl Default for WalMaintenancePolicy {
    fn default() -> (res: Self)
        ensures
            res.restart_when_log_frames_over == WAL_RESTART_LOG_FRAMES,
            res.truncate_when_log_frames_over == WAL_TRUNCATE_LOG_FRAMES,
            res.min_interval_between_escalations_nanos == WAL_ESCALATION_MIN_INTERVAL_NANOS,
    {
        WalMaintenancePolicy {
            restart_when_log_frames_over: WAL_RESTART_LOG_FRAMES,
            truncate_when_log_frames_over: WAL_TRUNCATE_LOG_FRAMES,
            min_interval_between_escalations_nanos: WAL_ESCALATION_MIN_INTERVAL_NANOS,
        }
    }
}

/// Time elapsed from `earlier` to `now` on the monotonic clock, zero if `earlier` is later.
pub open spec fn elapsed_since(earlier: u128, now: u128) -> int {
    if now >= earlier {
        now - earlier
    } else {
        0
    }
}

/// Which checkpoint, if any, follows the PASSIVE one that produced `report`.
pub open spec fn spec_decide(
    policy: WalMaintenancePolicy,
    reason: WalMaintenanceReason,
    report: WalCheckpointReport,
    last_escalation: Option<u128>,
    now: u128,
    starved: bool,
) -> Option<WalCheckpointMode> {
    if starved {
        None
    } else if reason == WalMaintenanceReason::CatalogPublished {
        Some(WalCheckpointMode::Truncate)
    } else if last_escalation is Some && elapsed_since(last_escalation->0, now)
        < policy.min_interval_between_escalations_nanos {
        None
    } else if report.log_frames > policy.truncate_when_log_frames_over {
        Some(WalCheckpointMode::Truncate)
    } else if report.log_frames > policy.restart_when_log_frames_over {
        Some(WalCheckpointMode::Restart)
    } else {
        None
    }
}

impl WalMaintenancePolicy {
    /// A Catalog publication asks for TRUNCATE regardless of size; otherwise the log size picks
    /// RESTART or TRUNCATE, gated by the interval since the last escalation; a starved log gets
    /// nothing.
    pub fn decide(
        &self,
        reason: WalMaintenanceReason,
        report: WalCheckpointReport,
        last_escalation: Option<u128>,
        now: u128,
        starved: bool,
    ) -> (res: Option<WalCheckpointMode>)
        ensures
            res == spec_decide(*self, reason, report, last_escalation, now, starved),
    {
        if starved {
            return None;
        }
        if reason == WalMaintenanceReason::CatalogPublished {
            return Some(WalCheckpointMode::Truncate);
        }
        let due = match last_escalation {
            None => true,
            Some(last) => {
                let elapsed = if now >= last {
                    now - last
                } else {
                    0
                };
                elapsed >= self.min_interval_between_escalations_nanos
            },
        };
        if !due {
            return None;
        }
        if report.log_frames > self.truncate_when_log_frames_over {
            Some(WalCheckpointMode::Truncate)
        } else if report.log_frames > self.restart_when_log_frames_over {
            Some(WalCheckpointMode::Restart)
        } else {
            None
        }
    }
}

/// Counts consecutive PASSIVE checkpoints that made no progress on a log large enough to
/// matter; progress of any size resets it.
#[derive(Clone, Copy, Debug, Default, Eq, PartialEq)]
pub struct WalStarvationDetector {
    consecutive_zero_progress: u32,
    starved: bool,
}

/// A PASSIVE report that moved nothing on a log at least the starvation floor.
pub open spec fn is_zero_progress(report: WalCheckpointReport) -> bool {
    report.checkpointed_frames == 0 && report.log_frames >= WAL_STARVATION_MIN_LOG_FRAMES
}

impl WalStarvationDetector {
    pub closed spec fn spec_count(self) -> u32 {
        self.consecutive_zero_progress
    }

    pub closed spec fn spec_starved(self) -> bool {
        self.starved
    }

    /// Whether the count and the starved flag agree: the log is starved exactly when the
    /// count has reached the report threshold.
    pub open spec fn consistent(self) -> bool {
        self.spec_starved() == (self.spec_count() >= WAL_STARVATION_ZERO_PROGRESS_REPORTS)
    }

    /// A detector that has seen nothing.
    pub fn new() -> (res: Self)
        ensures
            res.spec_count() == 0,
            !res.spec_starved(),
    {
        WalStarvationDetector { consecutive_zero_progress: 0, starved: false }
    }

    /// Feeds one PASSIVE report. Returns `true` exactly when this report is the one that
    /// crosses into starvation, so the caller logs once per episode.
    pub fn observe(&mut self, report: WalCheckpointReport) -> (crossed: bool)
        ensures
            !is_zero_progress(report) ==> final(self).spec_count() == 0 && !final(self).spec_starved() && !crossed,
            is_zero_progress(report) ==> final(self).spec_count() == (if old(self).spec_count()
                == u32::MAX {
                u32::MAX as int
            } else {
                old(self).spec_count() + 1
            }),
            is_zero_progress(report) ==> final(self).spec_starved() == (old(self).spec_starved()
                || final(self).spec_count() >= WAL_STARVATION_ZERO_PROGRESS_REPORTS),
            crossed == (is_zero_progress(report) && !old(self).spec_starved() && final(self).spec_starved()),
            old(self).consistent() ==> final(self).consistent(),
    {
        let zero_progress = report.checkpointed_frames == 0 && report.log_frames
            >= WAL_STARVATION_MIN_LOG_FRAMES;
        if !zero_progress {
            self.consecutive_zero_progress = 0;
            self.starved = false;
            return false;
        }
        self.consecutive_zero_progress = if self.consecutive_zero_progress == u32::MAX {
            u32::MAX
        } else {
            self.consecutive_zero_progress + 1
        };
        if self.starved {
            return false;
        }
        if self.consecutive_zero_progress >= WAL_STARVATION_ZERO_PROGRESS_REPORTS {
            self.starved = true;
            return true;
        }
        false
    }

    pub fn is_starved(self) -> (res: bool)
        ensures
            res == self.spec_starved(),
    {
        self.starved
    }

    pub fn consecutive_zero_progress(self) -> (res: u32)
        ensures
            res == self.spec_count(),
    {
        self.consecutive_zero_progress
    }
}

/// What one maintenance run did.
#[derive(Clone, Copy, Debug, Eq, PartialEq)]
pub struct WalMaintenanceOutcome {
    pub reason: WalMaintenanceReason,
    pub passive: WalCheckpointReport,
    pub escalation: Option<(WalCheckpointMode, WalCheckpointReport)>,
    pub starved: bool,
}

/// The decision that follows one PASSIVE checkpoint: the detector after it, whether this
/// report started a starvation episode, and the escalation to run, if any.
#[derive(Clone, Copy, Debug, Eq, PartialEq)]
pub struct WalCheckpointPlan {
    pub detector: WalStarvationDetector,
    pub newly_starved: bool,
    pub escalation: Option<WalCheckpointMode>,
}

/// The refresh runtime's maintenance state: policy, detector, and the time of the last
/// escalation.
#[derive(Clone, Debug)]
pub struct WalMaintenanceState {
    policy: WalMaintenancePolicy,
    detector: WalStarvationDetector,
    last_escalation: Option<u128>,
}

impl WalMaintenanceState {
    pub closed spec fn spec_policy(&self) -> WalMaintenancePolicy {
        self.policy
    }

    pub closed spec fn spec_detector(&self) -> WalStarvationDetector {
        self.detector
    }

    pub closed spec fn spec_last_escalation(&self) -> Option<u128> {
        self.last_escalation
    }

    pub fn new(policy: WalMaintenancePolicy) -> (res: Self)
        ensures
            res.spec_policy() == policy,
            res.spec_detector().spec_count() == 0,
            !res.spec_detector().spec_starved(),
            res.spec_last_escalation() is None,
    {
        WalMaintenanceState {
            policy,
            detector: WalStarvationDetector::new(),
            last_escalation: None,
        }
    }

    /// A state with the default policy.
    pub fn with_default_policy() -> (res: Self)
        ensures
            res.spec_policy().restart_when_log_frames_over == WAL_RESTART_LOG_FRAMES,
            res.spec_policy().truncate_when_log_frames_over == WAL_TRUNCATE_LOG_FRAMES,
            res.spec_policy().min_interval_between_escalations_nanos
                == WAL_ESCALATION_MIN_INTERVAL_NANOS,
            res.spec_detector().spec_count() == 0,
            !res.spec_detector().spec_starved(),
            res.spec_last_escalation() is None,
    {
        Self::new(WalMaintenancePolicy::default())
    }

    pub fn detector(&self) -> (res: WalStarvationDetector)
        ensures
            res == self.spec_detector(),
    {
        self.detector
    }

    /// Plans the step that follows the PASSIVE checkpoint reported by `passive`: the detector
    /// observes the report, then the policy decides with the detector's new starvation state.
    pub fn plan(&self, reason: WalMaintenanceReason, passive: WalCheckpointReport, now: u128) -> (res:
        WalCheckpointPlan)
        ensures
            ({
                let mut d = self.spec_detector();
                res.detector.spec_count() == (if !is_zero_progress(passive) {
                    0
                } else if d.spec_count() == u32::MAX {
                    u32::MAX as int
                } else {
                    d.spec_count() + 1
                })
            }),
            !is_zero_progress(passive) ==> !res.detector.spec_starved() && !res.newly_starved,
            is_zero_progress(passive) ==> res.detector.spec_starved() == (
            self.spec_detector().spec_starved() || res.detector.spec_count()
                >= WAL_STARVATION_ZERO_PROGRESS_REPORTS),
            res.newly_starved == (is_zero_progress(passive)
                && !self.spec_detector().spec_starved() && res.detector.spec_starved()),
            res.escalation == spec_decide(
                self.spec_policy(),
                reason,
                passive,
                self.spec_last_escalation(),
                now,
                res.detector.spec_starved(),
            ),
    {
        let mut detector = self.detector;
        let newly_starved = detector.observe(passive);
        let escalation = self.policy.decide(
            reason,
            passive,
            self.last_escalation,
            now,
            detector.is_starved(),
        );
        WalCheckpointPlan { detector, newly_starved, escalation }
    }

    /// Records a completed maintenance run: the plan's detector becomes current, and when an
    /// escalation checkpoint actually ran its time becomes the last escalation.
    pub fn record(
        &mut self,
        reason: WalMaintenanceReason,
        passive: WalCheckpointReport,
        plan: WalCheckpointPlan,
        escalation_report: Option<WalCheckpointReport>,
        now: u128,
    ) -> (res: Option<WalMaintenanceOutcome>)
        ensures
            final(self).spec_policy() == old(self).spec_policy(),
            final(self).spec_detector() == plan.detector,
            final(self).spec_last_escalation() == (if plan.escalation is Some
                && escalation_report is Some {
                Some(now)
            } else {
                old(self).spec_last_escalation()
            }),
            res == Some(
                WalMaintenanceOutcome {
                    reason,
                    passive,
                    escalation: match (plan.escalation, escalation_report) {
                        (Some(mode), Some(report)) => Some((mode, report)),
                        _ => None,
                    },
                    starved: plan.detector.spec_starved(),
                },
            ),
    {
        let escalation = match (plan.escalation, escalation_report) {
            (Some(mode), Some(report)) => Some((mode, report)),
            _ => None,
        };
        self.detector = plan.detector;
        if escalation.is_some() {
            self.last_escalation = Some(now);
        }
        Some(
            WalMaintenanceOutcome {
                reason,
                passive,
                escalation,
                starved: self.detector.is_starved(),
            },
        )
    }
}

/// A starved log never escalates, whatever the reason, size or interval.
pub proof fn lemma_starvation_suppresses_every_escalation(
    policy: WalMaintenancePolicy,
    reason: WalMaintenanceReason,
    report: WalCheckpointReport,
    last_escalation: Option<u128>,
    now: u128,
)
    ensures
        spec_decide(policy, reason, report, last_escalation, now, true) is None,
{
}

/// Unless the log is starved, a Catalog publication truncates regardless of size or interval.
pub proof fn lemma_catalog_publication_truncates(
    policy: WalMaintenancePolicy,
    report: WalCheckpointReport,
    last_escalation: Option<u128>,
    now: u128,
)
    ensures
        spec_decide(policy, WalMaintenanceReason::CatalogPublished, report, last_escalation, now, false)
            == Some(WalCheckpointMode::Truncate),
{
}

/// An Open commit never escalates within the minimum interval of the last escalation, and
/// never escalates a log that is no larger than the RESTART threshold.
pub proof fn lemma_open_commit_escalation_is_spaced_and_sized(
    policy: WalMaintenancePolicy,
    report: WalCheckpointReport,
    last_escalation: Option<u128>,
    now: u128,
    starved: bool,
)
    requires
        policy.restart_when_log_frames_over <= policy.truncate_when_log_frames_over,
        spec_decide(policy, WalMaintenanceReason::OpenCommit, report, last_escalation, now, starved)
            is Some,
    ensures
        !starved,
        last_escalation is Some ==> elapsed_since(last_escalation->0, now)
            >= policy.min_interval_between_escalations_nanos,
        report.log_frames > policy.restart_when_log_frames_over,
        spec_decide(policy, WalMaintenanceReason::OpenCommit, report, last_escalation, now, starved)
            == (if report.log_frames > policy.truncate_when_log_frames_over {
            Some(WalCheckpointMode::Truncate)
        } else {
            Some(WalCheckpointMode::Restart)
        }),
{
}

} // verus!

//! Decisions of one Catalog workflow: how a failed preparation is recorded, whether an empty
//! Catalog may replace the current one, and how the candidate's Open pull is scheduled.
use vstd::prelude::*;

use crate::refresh_schedule::{CatalogPullFailure, RefreshFailureStage};
use crate::workflow::{OpenDispatchTerminal, OriginSchedulerLane};

verus! {

/// Why a fetched Catalog could not be turned into a refresh command.
#[derive(Clone, Copy, Debug, Eq, PartialEq, Structural)]
pub enum CatalogPreparationFailure {
    /// The response named another target than the one requested.
    TargetMismatch,
    /// The courses could not be normalized.
    Normalization,
    /// The normalized Catalog could not be mapped to its stored projection.
    Mapping,
}

/// How a preparation failure is recorded: its stage, its code and its audit text.
#[derive(Clone, Copy, Debug, Eq, PartialEq)]
pub struct CatalogFailureRecord {
    pub stage: RefreshFailureStage,
    pub code: &'static str,
    pub audit_error: &'static str,
}

/// The stored code of each preparation failure.
pub open spec fn spec_preparation_code(f: CatalogPreparationFailure) -> Seq<char> {
    match f {
        CatalogPreparationFailure::TargetMismatch => "CATALOG_RESPONSE_TARGET_MISMATCH"@,
        CatalogPreparationFailure::Normalization => "CATALOG_NORMALIZATION_FAILED"@,
        CatalogPreparationFailure::Mapping => "CATALOG_MAPPING_FAILED"@,
    }
}

/// The audit text of each preparation failure.
pub open spec fn spec_preparation_audit(f: CatalogPreparationFailure) -> Seq<char> {
    match f {
        CatalogPreparationFailure::TargetMismatch => "Catalog response target did not match the requested target"@,
        CatalogPreparationFailure::Normalization => "Catalog normalization failed"@,
        CatalogPreparationFailure::Mapping => "Catalog normalized projection mapping failed"@,
    }
}

impl CatalogPreparationFailure {
    /// How the failure is recorded: a mismatched target is a schema failure, the others are
    /// normalization failures.
    pub fn record(self) -> (res: CatalogFailureRecord)
        ensures
            res.stage == (match self {
                CatalogPreparationFailure::TargetMismatch => RefreshFailureStage::Schema,
                _ => RefreshFailureStage::Normalization,
            }),
            res.code@ == spec_preparation_code(self),
            res.audit_error@ == spec_preparation_audit(self),
    {
        match self {
            CatalogPreparationFailure::TargetMismatch => CatalogFailureRecord {
                stage: RefreshFailureStage::Schema,
                code: "CATALOG_RESPONSE_TARGET_MISMATCH",
                audit_error: "Catalog response target did not match the requested target",
            },
            CatalogPreparationFailure::Normalization => CatalogFailureRecord {
                stage: RefreshFailureStage::Normalization,
                code: "CATALOG_NORMALIZATION_FAILED",
                audit_error: "Catalog normalization failed",
            },
            CatalogPreparationFailure::Mapping => CatalogFailureRecord {
                stage: RefreshFailureStage::Normalization,
                code: "CATALOG_MAPPING_FAILED",
                audit_error: "Catalog normalized projection mapping failed",
            },
        }
    }

    /// Every preparation failure is retried as a schema failure of the pull.
    pub fn pull_failure(self) -> (res: CatalogPullFailure)
        ensures
            res == CatalogPullFailure::Schema,
    {
        CatalogPullFailure::Schema
    }
}

/// What the store may do with a staged Catalog when it comes to an empty one.
#[derive(Clone, Copy, Debug, Eq, PartialEq, Structural)]
pub enum EmptySnapshotDecision {
    /// Publish: the Catalog is not empty, or the target's current one is empty too.
    AcceptNonEmptyOrUnchangedEmpty,
    /// Publish a first Catalog that is empty, because the selector lists the target now.
    AcceptInitialSelectorConfirmedEmpty,
    /// Keep the last known good Catalog.
    RetainLastKnownGood,
}

/// The target's stored Catalog state, as far as the decision reads it.
#[derive(Clone, Copy, Debug, Eq, PartialEq, Structural)]
pub struct StoredCatalogState {
    pub current_content_version: u64,
    pub section_count: u64,
}

/// Why an empty Catalog was refused outright.
#[derive(Clone, Copy, Debug, Eq, PartialEq, Structural)]
pub enum EmptySnapshotRefusal {
    /// A first Catalog that is empty needs the selector's current membership of the target.
    InitialEmptyWithoutSelectorMembership,
}

/// Whether a staged Catalog may be published. A non-empty one may. An empty one may be the
/// target's first only when the selector confirms the target; it replaces an empty current
/// Catalog; and it never replaces a non-empty one.
pub open spec fn spec_empty_snapshot_decision(
    snapshot_empty: bool,
    state: Option<StoredCatalogState>,
    selector_confirms_target: bool,
) -> Result<EmptySnapshotDecision, EmptySnapshotRefusal> {
    if !snapshot_empty {
        Ok(EmptySnapshotDecision::AcceptNonEmptyOrUnchangedEmpty)
    } else if state is None || state->0.current_content_version == 0 {
        if selector_confirms_target {
            Ok(EmptySnapshotDecision::AcceptInitialSelectorConfirmedEmpty)
        } else {
            Err(EmptySnapshotRefusal::InitialEmptyWithoutSelectorMembership)
        }
    } else if state->0.section_count == 0 {
        Ok(EmptySnapshotDecision::AcceptNonEmptyOrUnchangedEmpty)
    } else {
        Ok(EmptySnapshotDecision::RetainLastKnownGood)
    }
}

/// Decides what the store may do with a staged Catalog, as `spec_empty_snapshot_decision`
/// states.
pub fn empty_snapshot_decision(
    snapshot_empty: bool,
    state: Option<StoredCatalogState>,
    selector_confirms_target: bool,
) -> (res: Result<EmptySnapshotDecision, EmptySnapshotRefusal>)
    ensures
        res == spec_empty_snapshot_decision(snapshot_empty, state, selector_confirms_target),
{
    if !snapshot_empty {
        return Ok(EmptySnapshotDecision::AcceptNonEmptyOrUnchangedEmpty);
    }
    let first = match state {
        None => true,
        Some(s) => s.current_content_version == 0,
    };
    if first {
        if selector_confirms_target {
            Ok(EmptySnapshotDecision::AcceptInitialSelectorConfirmedEmpty)
        } else {
            Err(EmptySnapshotRefusal::InitialEmptyWithoutSelectorMembership)
        }
    } else {
        match state {
            Some(s) => if s.section_count == 0 {
                Ok(EmptySnapshotDecision::AcceptNonEmptyOrUnchangedEmpty)
            } else {
                Ok(EmptySnapshotDecision::RetainLastKnownGood)
            },
            None => Ok(EmptySnapshotDecision::AcceptNonEmptyOrUnchangedEmpty),
        }
    }
}

/// A complete snapshot's Open pull runs in the first-load lane for a target without a
/// published Catalog, and rechecks a Catalog race otherwise.
pub fn candidate_open_lane(base_content_version: u64) -> (res: OriginSchedulerLane)
    ensures
        res == (if base_content_version == 0 {
            OriginSchedulerLane::OpenFirstLoad
        } else {
            OriginSchedulerLane::OpenCatalogRaceRecheck
        }),
{
    if base_content_version == 0 {
        OriginSchedulerLane::OpenFirstLoad
    } else {
        OriginSchedulerLane::OpenCatalogRaceRecheck
    }
}

/// The code of a complete snapshot whose Open pull did not commit it: a failed pull reports
/// its own diagnostic code.
pub open spec fn spec_snapshot_open_code(terminal: OpenDispatchTerminal, failure_code: Seq<char>) -> Seq<char> {
    match terminal {
        OpenDispatchTerminal::Failed => failure_code,
        OpenDispatchTerminal::Unsafe => "OPEN_RESPONSE_UNSAFE"@,
        OpenDispatchTerminal::CatalogRace => "OPEN_CATALOG_RACE"@,
        OpenDispatchTerminal::Valid => "OPEN_COMPLETE_SNAPSHOT_COMMIT_FAILED"@,
    }
}

/// The code of a complete snapshot whose Open pull did not commit it.
pub fn complete_snapshot_open_code(terminal: OpenDispatchTerminal, failure_code: &'static str) -> (res:
    &'static str)
    ensures
        res@ == spec_snapshot_open_code(terminal, failure_code@),
{
    match terminal {
        OpenDispatchTerminal::Failed => failure_code,
        OpenDispatchTerminal::Unsafe => "OPEN_RESPONSE_UNSAFE",
        OpenDispatchTerminal::CatalogRace => "OPEN_CATALOG_RACE",
        OpenDispatchTerminal::Valid => "OPEN_COMPLETE_SNAPSHOT_COMMIT_FAILED",
    }
}

/// A Catalog with sections is never replaced by an empty one, and a non-empty one is always
/// accepted.
pub proof fn lemma_empty_catalog_never_replaces_sections(
    state: StoredCatalogState,
    confirms: bool,
)
    ensures
        state.current_content_version != 0 && state.section_count > 0 ==> spec_empty_snapshot_decision(
            true,
            Some(state),
            confirms,
        ) == Ok::<EmptySnapshotDecision, EmptySnapshotRefusal>(
            EmptySnapshotDecision::RetainLastKnownGood,
        ),
        spec_empty_snapshot_decision(false, Some(state), confirms) == Ok::<
            EmptySnapshotDecision,
            EmptySnapshotRefusal,
        >(EmptySnapshotDecision::AcceptNonEmptyOrUnchangedEmpty),
{
}

/// What becomes of the Full publication barrier installed before a candidate Catalog's
/// Open pull is committed.
#[derive(Clone, Copy, Debug, Eq, PartialEq, Structural)]
pub enum BarrierDisposal {
    /// Commit the Full barrier: the candidate Catalog was published.
    CommitFull,
    /// Narrow the barrier to the candidate's target: only its Open evidence changed.
    CommitAsOpen,
    /// Drop the barrier uncommitted, restoring admission.
    Rollback,
}

/// How the storage commit of a candidate's Open pull ended.
#[derive(Clone, Copy, Debug, Eq, PartialEq, Structural)]
pub enum OpenCommitResult {
    /// The commit went through; `catalog_published` says whether it published the Catalog.
    Committed { catalog_published: bool },
    /// The commit failed; `fallback_committed` says whether the candidate's failure record
    /// was committed in its place.
    Failed { fallback_committed: bool },
}

/// The barrier's fate: committed when the Catalog was published, narrowed to the target's
/// Open evidence when only that changed (a commit without the Catalog, or a failure whose
/// record was committed), and rolled back when nothing was committed.
pub fn candidate_barrier_disposal(result: OpenCommitResult) -> (res: BarrierDisposal)
    ensures
        res == (match result {
            OpenCommitResult::Committed { catalog_published } => if catalog_published {
                BarrierDisposal::CommitFull
            } else {
                BarrierDisposal::CommitAsOpen
            },
            OpenCommitResult::Failed { fallback_committed } => if fallback_committed {
                BarrierDisposal::CommitAsOpen
            } else {
                BarrierDisposal::Rollback
            },
        }),
{
    match result {
        OpenCommitResult::Committed { catalog_published } => {
            if catalog_published {
                BarrierDisposal::CommitFull
            } else {
                BarrierDisposal::CommitAsOpen
            }
        },
        OpenCommitResult::Failed { fallback_committed } => {
            if fallback_committed {
                BarrierDisposal::CommitAsOpen
            } else {
                BarrierDisposal::Rollback
            }
        },
    }
}

} // verus!

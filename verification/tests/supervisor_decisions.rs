use std::time::Duration;

use bcsp_application::catalog_workflow::{
    candidate_barrier_disposal, candidate_open_lane, complete_snapshot_open_code,
    empty_snapshot_decision, BarrierDisposal, EmptySnapshotDecision, EmptySnapshotRefusal,
    OpenCommitResult, StoredCatalogState,
};
use bcsp_application::clock::{duration_millis, saturating_u64};
use bcsp_application::discovery_selection::{
    discovery_cycle_step, wait_slice_nanos, DiscoveryAttempt, DISCOVERY_RETRY_INTERVAL_SECONDS,
};
use bcsp_application::product_scope::{discovered_window_targets, window_product_targets};
use bcsp_application::publication::{
    add_dictionary_bytes, prepared_resident_estimate, PreparedServingError,
    PREPARED_FOUNDATION_RESIDENT_BYTE_BUDGET,
};
use bcsp_application::refresh_schedule::DISCOVERY_REFRESH_INTERVAL_SECONDS;
use bcsp_application::supervisor::{
    defer_primary_completion, dispatch_allowed, primary_followup, remaining_until,
    select_parallel_open, select_primary, ParallelOpenCandidate, PrimaryCompletion,
};
use bcsp_application::supervisor_book::{IdleTarget, SupervisorBook};
use bcsp_application::target::TermCampusKey;
use bcsp_application::workflow::{
    dispatch_overloaded, needs_immediate_open, outcome_is_retrying, DispatchOutcomeKind,
    GlobalWorkflowClass, GlobalWorkflowPriority, OpenDispatchTerminal, OriginJobKind,
    OriginSchedulerLane, WorkflowPhase,
};

fn key(term: &str, campus: &str) -> TermCampusKey {
    TermCampusKey::new(term.to_owned(), campus.to_owned())
}

fn pairs(keys: &[TermCampusKey]) -> Vec<(String, String)> {
    keys.iter().map(|k| (k.term().to_owned(), k.campus().to_owned())).collect()
}

#[test]
fn dispatch_needs_a_free_slot_and_no_origin_pause() {
    assert!(dispatch_allowed(0, None));
    assert!(dispatch_allowed(2, None));
    assert!(!dispatch_allowed(3, None));
    assert!(!dispatch_allowed(0, Some(10)));
}

fn candidate(campus: &str, in_flight: bool, next_due: u128, phase: WorkflowPhase) -> ParallelOpenCandidate {
    ParallelOpenCandidate { target: key("92026", campus), in_flight, next_due, phase }
}

#[test]
fn parallel_open_prefers_new_brunswick_then_due_time() {
    let candidates = vec![
        candidate("NK", false, 5, WorkflowPhase::CatalogFetch),
        candidate("CM", false, 1, WorkflowPhase::CatalogProcess),
        candidate("NB", false, 9, WorkflowPhase::CatalogFetch),
        candidate("NB", true, 0, WorkflowPhase::CatalogFetch),
    ];
    assert_eq!(select_parallel_open(&candidates, 10), Some(2));
    assert_eq!(select_parallel_open(&candidates, 8), Some(1));
    assert_eq!(select_parallel_open(&candidates, 0), None);
    let blocked = vec![
        candidate("NB", false, 0, WorkflowPhase::Idle),
        candidate("NK", false, 0, WorkflowPhase::CandidateOpen),
    ];
    assert_eq!(select_parallel_open(&blocked, 10), None);
}

fn priority(class: GlobalWorkflowClass, campus_rank: u8, due: u128, campus: &str) -> GlobalWorkflowPriority {
    GlobalWorkflowPriority { class, campus_rank, scheduled_due: due, target: key("92026", campus) }
}

#[test]
fn the_primary_workflow_is_the_first_in_global_priority_order() {
    let priorities = vec![
        priority(GlobalWorkflowClass::AppliedCatalog, 0, 0, "NB"),
        priority(GlobalWorkflowClass::AppliedOpen, 1, 5, "NK"),
        priority(GlobalWorkflowClass::AppliedOpen, 0, 9, "NB"),
        priority(GlobalWorkflowClass::LowFrequencyMaintenance, 0, 0, "CM"),
    ];
    assert_eq!(select_primary(&priorities), Some(2));
    assert_eq!(select_primary(&Vec::new()), None);
    let tied = vec![
        priority(GlobalWorkflowClass::AppliedOpen, 1, 5, "NK"),
        priority(GlobalWorkflowClass::AppliedOpen, 1, 5, "CM"),
    ];
    assert_eq!(select_primary(&tied), Some(1));
}

#[test]
fn primary_followups_adopt_stop_and_reclassify() {
    assert!(defer_primary_completion(OriginJobKind::Catalog, true));
    assert!(!defer_primary_completion(OriginJobKind::Open, true));
    assert!(!defer_primary_completion(OriginJobKind::Catalog, false));

    let base = PrimaryCompletion {
        published_candidate: false,
        has_concurrent_open: true,
        removed: false,
        pending_manual_one_shot: Some(true),
        manual_one_shot: false,
        demand_desired: true,
        demand_active: false,
    };
    let followup = primary_followup(base);
    assert!(followup.adopt_concurrent_schedule);
    assert!(!followup.stop);
    assert_eq!(followup.set_manual_one_shot, Some(true));
    assert_eq!(followup.set_product_demand, Some(true));

    let removed = primary_followup(PrimaryCompletion { removed: true, published_candidate: true, ..base });
    assert!(!removed.adopt_concurrent_schedule);
    assert!(removed.stop);
    assert_eq!(removed.set_manual_one_shot, None);
    assert_eq!(removed.set_product_demand, None);

    let unchanged = primary_followup(PrimaryCompletion {
        pending_manual_one_shot: Some(false),
        demand_active: true,
        ..base
    });
    assert_eq!(unchanged.set_manual_one_shot, None);
    assert_eq!(unchanged.set_product_demand, None);
    assert_eq!(remaining_until(10, 4), 6);
    assert_eq!(remaining_until(4, 10), 0);
}

#[test]
fn empty_catalogs_never_replace_published_sections() {
    let with_sections = StoredCatalogState { current_content_version: 3, section_count: 12 };
    let empty_current = StoredCatalogState { current_content_version: 3, section_count: 0 };
    let never = StoredCatalogState { current_content_version: 0, section_count: 0 };
    assert_eq!(
        empty_snapshot_decision(false, Some(with_sections), false),
        Ok(EmptySnapshotDecision::AcceptNonEmptyOrUnchangedEmpty)
    );
    assert_eq!(
        empty_snapshot_decision(true, Some(with_sections), true),
        Ok(EmptySnapshotDecision::RetainLastKnownGood)
    );
    assert_eq!(
        empty_snapshot_decision(true, Some(empty_current), false),
        Ok(EmptySnapshotDecision::AcceptNonEmptyOrUnchangedEmpty)
    );
    assert_eq!(
        empty_snapshot_decision(true, Some(never), true),
        Ok(EmptySnapshotDecision::AcceptInitialSelectorConfirmedEmpty)
    );
    assert_eq!(
        empty_snapshot_decision(true, None, false),
        Err(EmptySnapshotRefusal::InitialEmptyWithoutSelectorMembership)
    );
}

#[test]
fn complete_snapshot_open_pulls_pick_their_lane_and_code() {
    assert_eq!(candidate_open_lane(0), OriginSchedulerLane::OpenFirstLoad);
    assert_eq!(candidate_open_lane(7), OriginSchedulerLane::OpenCatalogRaceRecheck);
    assert_eq!(complete_snapshot_open_code(OpenDispatchTerminal::Failed, "OPEN_HTTP_503"), "OPEN_HTTP_503");
    assert_eq!(
        complete_snapshot_open_code(OpenDispatchTerminal::Unsafe, "OPEN_HTTP_503"),
        "OPEN_RESPONSE_UNSAFE"
    );
    assert_eq!(
        complete_snapshot_open_code(OpenDispatchTerminal::CatalogRace, "X"),
        "OPEN_CATALOG_RACE"
    );
    assert_eq!(
        complete_snapshot_open_code(OpenDispatchTerminal::Valid, "X"),
        "OPEN_COMPLETE_SNAPSHOT_COMMIT_FAILED"
    );
}

#[test]
fn a_candidate_barrier_is_kept_only_for_what_was_committed() {
    assert_eq!(
        candidate_barrier_disposal(OpenCommitResult::Committed { catalog_published: true }),
        BarrierDisposal::CommitFull
    );
    assert_eq!(
        candidate_barrier_disposal(OpenCommitResult::Committed { catalog_published: false }),
        BarrierDisposal::CommitAsOpen
    );
    assert_eq!(
        candidate_barrier_disposal(OpenCommitResult::Failed { fallback_committed: true }),
        BarrierDisposal::CommitAsOpen
    );
    assert_eq!(
        candidate_barrier_disposal(OpenCommitResult::Failed { fallback_committed: false }),
        BarrierDisposal::Rollback
    );
}

#[test]
fn retrying_outcomes_and_immediate_open_follow_the_terminal() {
    assert!(!outcome_is_retrying(DispatchOutcomeKind::CatalogPublished));
    assert!(outcome_is_retrying(DispatchOutcomeKind::CompleteSnapshotOpenFailed));
    assert!(!outcome_is_retrying(DispatchOutcomeKind::OpenCompleted(OpenDispatchTerminal::Valid)));
    assert!(outcome_is_retrying(DispatchOutcomeKind::OpenCompleted(OpenDispatchTerminal::Unsafe)));
    assert!(needs_immediate_open(false, None, 5));
    assert!(needs_immediate_open(true, Some(6), 5));
    assert!(!needs_immediate_open(true, Some(5), 5));
    assert!(!needs_immediate_open(true, None, 5));
    assert!(dispatch_overloaded(1001, 1000));
    assert!(!dispatch_overloaded(1000, 1000));
}

#[test]
fn discovery_cycles_wait_the_interval_or_retry() {
    let published = discovery_cycle_step(DiscoveryAttempt::Published);
    assert_eq!(published.wait_seconds, DISCOVERY_REFRESH_INTERVAL_SECONDS);
    assert!(published.succeeded);
    assert!(!published.clear_membership);
    let failed = discovery_cycle_step(DiscoveryAttempt::TransportFailed);
    assert_eq!(failed.wait_seconds, DISCOVERY_RETRY_INTERVAL_SECONDS);
    assert!(failed.clear_membership);
    let publish_failed = discovery_cycle_step(DiscoveryAttempt::PublishFailed);
    assert!(publish_failed.clear_membership);
    assert!(!publish_failed.succeeded);
    let no_clock = discovery_cycle_step(DiscoveryAttempt::ClockUnavailable);
    assert!(!no_clock.clear_membership);
    assert_eq!(no_clock.wait_seconds, 300);
    assert_eq!(wait_slice_nanos(100), 100);
    assert_eq!(wait_slice_nanos(10_000_000_000), 250_000_000);
}

#[test]
fn clock_conversions_saturate() {
    assert_eq!(saturating_u64(7), 7);
    assert_eq!(saturating_u64(u128::from(u64::MAX) + 1), u64::MAX);
    assert_eq!(duration_millis(&Duration::from_secs(3)), 3000);
}

#[test]
fn resident_estimates_refuse_overflow_and_the_budget() {
    assert_eq!(prepared_resident_estimate(10, 20, 30, 40), Ok(130));
    assert_eq!(
        prepared_resident_estimate(u64::MAX / 4 + 1, 0, 0, 0),
        Err(PreparedServingError::StoredIntegerOutOfRange)
    );
    assert_eq!(
        prepared_resident_estimate(0, u64::MAX, 0, 1),
        Err(PreparedServingError::StoredIntegerOutOfRange)
    );
    assert_eq!(
        prepared_resident_estimate(0, PREPARED_FOUNDATION_RESIDENT_BYTE_BUDGET, 0, 1),
        Err(PreparedServingError::ResidentBudgetExceeded {
            estimated_bytes: PREPARED_FOUNDATION_RESIDENT_BYTE_BUDGET + 1,
            budget_bytes: PREPARED_FOUNDATION_RESIDENT_BYTE_BUDGET,
        })
    );
    assert_eq!(add_dictionary_bytes(100, 5, 7), Ok(12));
    assert_eq!(add_dictionary_bytes(100, u64::MAX, 1), Err(PreparedServingError::StoredIntegerOutOfRange));
    assert_eq!(
        add_dictionary_bytes(PREPARED_FOUNDATION_RESIDENT_BYTE_BUDGET, 0, 1),
        Err(PreparedServingError::ResidentBudgetExceeded {
            estimated_bytes: PREPARED_FOUNDATION_RESIDENT_BYTE_BUDGET + 1,
            budget_bytes: PREPARED_FOUNDATION_RESIDENT_BYTE_BUDGET,
        })
    );
}

#[test]
fn window_targets_are_the_sorted_product_targets_of_visible_terms() {
    let allowed = window_product_targets(&vec!["92026".to_owned(), "12026".to_owned(), "92026".to_owned()]);
    assert_eq!(
        pairs(&allowed),
        pairs(&[
            key("12026", "CM"),
            key("12026", "NB"),
            key("12026", "NK"),
            key("92026", "CM"),
            key("92026", "NB"),
            key("92026", "NK"),
        ])
    );
    let discovered = discovered_window_targets(
        &allowed,
        &vec![key("92026", "NK"), key("92026", "ONLINE_NB"), key("72026", "NB"), key("92026", "NK"), key("12026", "NB")],
    );
    assert_eq!(pairs(&discovered), pairs(&[key("12026", "NB"), key("92026", "NK")]));
}

#[test]
fn the_supervisor_book_tracks_idle_targets_demand_and_removals() {
    let nb = key("92026", "NB");
    let nk = key("92026", "NK");
    let mut book = SupervisorBook::new();
    assert!(book.should_register(&nb));
    assert!(!book.activate_open(&nb));
    assert!(book.record_registration(&nb, false));
    assert!(!book.should_register(&nb));
    assert!(!book.record_registration(&nk, true));
    assert!(!book.activate_open(&nb));
    assert!(book.activate_open(&nk));
    book.demand_applied(&nk, true);
    assert!(book.release_demand(&nk));
    book.demand_applied(&nk, false);
    assert!(!book.release_demand(&nk));

    assert!(book.reclassify(&nb, true));
    book.manual_mode_applied(&nb, true);
    assert!(!book.reclassify(&nb, true));

    let entry = book.dispatch(&nb).expect("idle");
    assert_eq!(entry, IdleTarget { manual_one_shot: true, product_demand_active: true });
    assert_eq!(book.dispatch(&nb), None);
    assert!(!book.reclassify(&nb, false));
    let followup = book.finish_primary(&nb, entry, false, true);
    assert!(followup.adopt_concurrent_schedule);
    assert!(!followup.stop);
    assert_eq!(followup.set_manual_one_shot, Some(false));
    assert_eq!(followup.set_product_demand, None);
    assert!(book.should_register(&key("92026", "CM")));
    assert!(!book.should_register(&nb));

    let entry = book.dispatch(&nk).expect("idle");
    assert!(!book.remove_target(&nk));
    let followup = book.finish_primary(&nk, entry, true, true);
    assert!(followup.stop);
    assert!(!followup.adopt_concurrent_schedule);
    assert!(book.should_register(&nk));
    assert!(book.remove_target(&nb));
    assert!(book.should_register(&nb));
}

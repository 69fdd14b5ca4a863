use bcsp_application::workflow::{
    allows_parallel_serving_open, circuit_opened_at, contract_lane, global_workflow_priority,
    priority_precedes, retry_stage_for_outcome, target_error_code_and_class,
    DispatchOutcomeKind, GlobalWorkflowClass, OpenDispatchTerminal, OpenSchedulerLane,
    OriginDispatchHint, OriginJobKind, OriginSchedulerLane, RetryStage, TermWindowTerms,
    WorkflowPhase,
};
use bcsp_application::refresh_schedule::CatalogPullFailure;
use bcsp_application::target::TermCampusKey;

fn key(term: &str, campus: &str) -> TermCampusKey {
    TermCampusKey::new(term.to_owned(), campus.to_owned())
}

fn hint(kind: OriginJobKind, lane: OriginSchedulerLane, generation_pending: bool) -> OriginDispatchHint {
    OriginDispatchHint {
        kind,
        lane,
        scheduled_due: 0,
        active_watch_count: 1,
        generation_pending,
        failure_streak: 0,
    }
}

#[test]
fn global_priority_is_plan_order_then_nb_due_and_identity() {
    let target = key("92026", "NB");
    let open = hint(OriginJobKind::Open, OriginSchedulerLane::OpenActiveWatch, false);
    let catalog = hint(OriginJobKind::Catalog, OriginSchedulerLane::Catalog, true);
    let a = global_workflow_priority(&target, &open, false, true, None);
    let b = global_workflow_priority(&target, &catalog, true, true, None);
    assert_eq!(a.class, GlobalWorkflowClass::ActiveWatchOpen);
    assert_eq!(b.class, GlobalWorkflowClass::ManualCompleteSnapshot);
    assert!(priority_precedes(&a, &b));
    assert!(!priority_precedes(&b, &a));
    let other = key("92026", "AC");
    let c = global_workflow_priority(&target, &catalog, true, false, None);
    let d = global_workflow_priority(&other, &catalog, true, false, None);
    assert_eq!(c.campus_rank, 0);
    assert_eq!(d.campus_rank, 1);
    assert!(priority_precedes(&c, &d));
}

#[test]
fn equal_rank_falls_back_to_due_time_then_identity() {
    let catalog = hint(OriginJobKind::Catalog, OriginSchedulerLane::Catalog, false);
    let mut later = catalog;
    later.scheduled_due = 10;
    let a = global_workflow_priority(&key("92026", "CM"), &catalog, false, false, None);
    let b = global_workflow_priority(&key("92026", "AC"), &later, false, false, None);
    assert!(priority_precedes(&a, &b));
    let c = global_workflow_priority(&key("92026", "AC"), &catalog, false, false, None);
    assert!(priority_precedes(&c, &a));
    assert!(!priority_precedes(&a, &a));
    let d = global_workflow_priority(&key("12026", "CM"), &catalog, false, false, None);
    assert!(priority_precedes(&d, &a));
}

#[test]
fn initial_snapshots_of_the_term_window_come_before_maintenance() {
    let window = TermWindowTerms {
        current_term: "92026".to_owned(),
        next_term: "12027".to_owned(),
    };
    let catalog = hint(OriginJobKind::Catalog, OriginSchedulerLane::Catalog, true);
    let current = global_workflow_priority(&key("92026", "NB"), &catalog, false, false, Some(&window));
    let next = global_workflow_priority(&key("12027", "NB"), &catalog, false, false, Some(&window));
    let old = global_workflow_priority(&key("12025", "NB"), &catalog, false, false, Some(&window));
    assert_eq!(current.class, GlobalWorkflowClass::CurrentInitialSnapshot);
    assert_eq!(next.class, GlobalWorkflowClass::NextInitialSnapshot);
    assert_eq!(old.class, GlobalWorkflowClass::LowFrequencyMaintenance);
    let applied = global_workflow_priority(
        &key("12025", "NB"),
        &hint(OriginJobKind::Catalog, OriginSchedulerLane::Catalog, false),
        false,
        true,
        None,
    );
    assert_eq!(applied.class, GlobalWorkflowClass::AppliedCatalog);
    let mut quiet = hint(OriginJobKind::Open, OriginSchedulerLane::OpenGeneral, false);
    quiet.active_watch_count = 0;
    let applied_open = global_workflow_priority(&key("12025", "NB"), &quiet, false, true, None);
    assert_eq!(applied_open.class, GlobalWorkflowClass::AppliedOpen);
}

#[test]
fn lanes_map_to_contract_lanes() {
    assert_eq!(contract_lane(OriginSchedulerLane::Catalog), OpenSchedulerLane::General);
    assert_eq!(contract_lane(OriginSchedulerLane::OpenGeneral), OpenSchedulerLane::General);
    assert_eq!(contract_lane(OriginSchedulerLane::OpenActiveWatch), OpenSchedulerLane::ActiveWatch);
    assert_eq!(contract_lane(OriginSchedulerLane::OpenFirstLoad), OpenSchedulerLane::FirstLoad);
    assert_eq!(contract_lane(OriginSchedulerLane::OpenManualRefresh), OpenSchedulerLane::ManualRefresh);
    assert_eq!(
        contract_lane(OriginSchedulerLane::OpenCatalogRaceRecheck),
        OpenSchedulerLane::CatalogRaceRecheck
    );
}

#[test]
fn candidate_open_waits_for_serving_open_and_blocks_late_duplicates() {
    assert!(allows_parallel_serving_open(WorkflowPhase::CatalogFetch));
    assert!(allows_parallel_serving_open(WorkflowPhase::CatalogProcess));
    assert!(!allows_parallel_serving_open(WorkflowPhase::CandidateOpen));
    assert!(!allows_parallel_serving_open(WorkflowPhase::Idle));
}

#[test]
fn retried_outcomes_report_code_class_and_stage() {
    let (code, class) = target_error_code_and_class(
        DispatchOutcomeKind::CatalogFailed(CatalogPullFailure::Schema),
        "",
        None,
    );
    assert_eq!((code.as_str(), class), ("CATALOG_UPSTREAM_SCHEMA", "CONTENT"));
    let (code, class) = target_error_code_and_class(
        DispatchOutcomeKind::OpenCompleted(OpenDispatchTerminal::Unsafe),
        "",
        Some("OPEN_HTTP_503"),
    );
    assert_eq!((code.as_str(), class), ("OPEN_HTTP_503", "OPEN"));
    let (code, class) = target_error_code_and_class(DispatchOutcomeKind::CompleteSnapshotOpenFailed, "SNAPSHOT_OPEN", None);
    assert_eq!((code.as_str(), class), ("SNAPSHOT_OPEN", "OPEN"));
    let (code, class) = target_error_code_and_class(DispatchOutcomeKind::CatalogPublished, "", None);
    assert_eq!((code.as_str(), class), ("REFRESH_UNEXPECTED_RETRY", "INTERNAL"));
    assert_eq!(
        retry_stage_for_outcome(DispatchOutcomeKind::CompleteSnapshotOpenFailed, OriginJobKind::Catalog),
        RetryStage::OpenFetch
    );
    assert_eq!(
        retry_stage_for_outcome(DispatchOutcomeKind::CatalogPublished, OriginJobKind::Catalog),
        RetryStage::CatalogFetch
    );
}

#[test]
fn an_open_circuit_keeps_its_first_opening_time() {
    assert_eq!(circuit_opened_at(true, Some(5), 9), Some(9));
    assert_eq!(circuit_opened_at(false, Some(5), 9), Some(5));
    assert_eq!(circuit_opened_at(false, None, 9), Some(9));
}

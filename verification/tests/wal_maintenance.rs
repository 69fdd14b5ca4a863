use bcsp_application::wal_maintenance::{
    StorageConnectionInventoryEntry, WalCheckpointMode, WalCheckpointReport, WalMaintenancePolicy,
    WalMaintenanceReason, WalMaintenanceState, WalStarvationDetector, INVENTORY_ERROR,
    WAL_RESTART_LOG_FRAMES, WAL_STARVATION_MIN_LOG_FRAMES, WAL_TRUNCATE_LOG_FRAMES,
};
use bcsp_application::wal_signal::{reason_of_pending, WalMaintenancePending, WalMaintenanceSignal};

fn report(log_frames: u64, checkpointed_frames: u64) -> WalCheckpointReport {
    WalCheckpointReport {
        busy: false,
        log_frames,
        checkpointed_frames,
    }
}

const NOW: u128 = 10_000_000_000_000;

#[test]
fn the_signal_coalesces_and_the_catalog_reason_dominates() {
    let signal = WalMaintenanceSignal::default();
    assert_eq!(signal.take(), None);
    signal.mark_open_commit();
    signal.mark_open_commit();
    assert!(signal.is_due());
    assert_eq!(signal.take(), Some(WalMaintenanceReason::OpenCommit));
    assert_eq!(signal.take(), None);
    signal.mark_open_commit();
    signal.mark_catalog_published();
    assert_eq!(signal.take(), Some(WalMaintenanceReason::CatalogPublished));
    assert!(!signal.is_due());
    let shared = signal.clone();
    shared.mark_open_commit();
    assert_eq!(signal.take(), Some(WalMaintenanceReason::OpenCommit));
}

#[test]
fn pending_bits_decode_to_the_strongest_reason() {
    assert_eq!(reason_of_pending(0), None);
    assert_eq!(reason_of_pending(1), Some(WalMaintenanceReason::OpenCommit));
    assert_eq!(reason_of_pending(2), Some(WalMaintenanceReason::CatalogPublished));
    assert_eq!(reason_of_pending(3), Some(WalMaintenanceReason::CatalogPublished));
}

#[test]
fn a_small_log_gets_passive_only() {
    let policy = WalMaintenancePolicy::default();
    assert_eq!(
        policy.decide(
            WalMaintenanceReason::OpenCommit,
            report(WAL_RESTART_LOG_FRAMES, WAL_RESTART_LOG_FRAMES),
            None,
            NOW,
            false
        ),
        None
    );
}

#[test]
fn the_log_size_picks_restart_then_truncate() {
    let policy = WalMaintenancePolicy::default();
    assert_eq!(
        policy.decide(
            WalMaintenanceReason::OpenCommit,
            report(WAL_RESTART_LOG_FRAMES + 1, 100),
            None,
            NOW,
            false
        ),
        Some(WalCheckpointMode::Restart)
    );
    assert_eq!(
        policy.decide(
            WalMaintenanceReason::OpenCommit,
            report(WAL_TRUNCATE_LOG_FRAMES + 1, 100),
            None,
            NOW,
            false
        ),
        Some(WalCheckpointMode::Truncate)
    );
}

#[test]
fn escalations_are_spaced_by_the_minimum_interval() {
    let policy = WalMaintenancePolicy::default();
    let recent = NOW - 59_999_999_999;
    let old = NOW - 60_000_000_000;
    let large = report(WAL_TRUNCATE_LOG_FRAMES + 1, 0);
    assert_eq!(
        policy.decide(WalMaintenanceReason::OpenCommit, large, Some(recent), NOW, false),
        None
    );
    assert_eq!(
        policy.decide(WalMaintenanceReason::OpenCommit, large, Some(old), NOW, false),
        Some(WalCheckpointMode::Truncate)
    );
}

#[test]
fn a_catalog_publication_truncates_regardless_of_size_or_interval() {
    let policy = WalMaintenancePolicy::default();
    assert_eq!(
        policy.decide(
            WalMaintenanceReason::CatalogPublished,
            report(10, 10),
            Some(NOW),
            NOW,
            false
        ),
        Some(WalCheckpointMode::Truncate)
    );
}

#[test]
fn starvation_suppresses_every_escalation() {
    let policy = WalMaintenancePolicy::default();
    for reason in [
        WalMaintenanceReason::OpenCommit,
        WalMaintenanceReason::CatalogPublished,
    ] {
        assert_eq!(
            policy.decide(reason, report(WAL_TRUNCATE_LOG_FRAMES * 4, 0), None, NOW, true),
            None,
            "{reason:?}"
        );
    }
}

#[test]
fn the_detector_needs_three_zero_progress_reports_on_a_large_log() {
    let mut detector = WalStarvationDetector::default();
    assert!(!detector.observe(report(WAL_STARVATION_MIN_LOG_FRAMES, 0)));
    assert!(!detector.observe(report(WAL_STARVATION_MIN_LOG_FRAMES + 500, 0)));
    assert!(!detector.is_starved());
    assert!(detector.observe(report(WAL_STARVATION_MIN_LOG_FRAMES + 1_000, 0)));
    assert!(detector.is_starved());
    assert!(!detector.observe(report(WAL_STARVATION_MIN_LOG_FRAMES + 1_500, 0)));
    assert_eq!(detector.consecutive_zero_progress(), 4);
}

#[test]
fn any_progress_resets_the_detector_and_a_small_log_never_counts() {
    let mut detector = WalStarvationDetector::default();
    detector.observe(report(WAL_STARVATION_MIN_LOG_FRAMES, 0));
    detector.observe(report(WAL_STARVATION_MIN_LOG_FRAMES, 0));
    assert!(!detector.observe(report(WAL_STARVATION_MIN_LOG_FRAMES, 1)));
    assert_eq!(detector.consecutive_zero_progress(), 0);
    for _ in 0..10 {
        assert!(!detector.observe(report(WAL_STARVATION_MIN_LOG_FRAMES - 1, 0)));
    }
    assert!(!detector.is_starved());
    for _ in 0..3 {
        detector.observe(report(WAL_STARVATION_MIN_LOG_FRAMES, 0));
    }
    assert!(detector.is_starved());
    detector.observe(report(WAL_STARVATION_MIN_LOG_FRAMES, 5));
    assert!(!detector.is_starved());
    assert!(!detector.observe(report(WAL_STARVATION_MIN_LOG_FRAMES, 0)));
    assert!(!detector.observe(report(WAL_STARVATION_MIN_LOG_FRAMES, 0)));
    assert!(detector.observe(report(WAL_STARVATION_MIN_LOG_FRAMES, 0)));
}

#[test]
fn a_completed_escalation_spaces_the_next_one() {
    let mut state = WalMaintenanceState::with_default_policy();
    let passive = report(WAL_TRUNCATE_LOG_FRAMES + 1, 10);
    let plan = state.plan(WalMaintenanceReason::OpenCommit, passive, NOW);
    assert_eq!(plan.escalation, Some(WalCheckpointMode::Truncate));
    let outcome = state
        .record(
            WalMaintenanceReason::OpenCommit,
            passive,
            plan,
            Some(report(0, 0)),
            NOW,
        )
        .expect("outcome");
    assert_eq!(outcome.escalation, Some((WalCheckpointMode::Truncate, report(0, 0))));
    assert!(!outcome.starved);
    let next = state.plan(WalMaintenanceReason::OpenCommit, passive, NOW + 1_000_000_000);
    assert_eq!(next.escalation, None);
    let later = state.plan(WalMaintenanceReason::OpenCommit, passive, NOW + 60_000_000_000);
    assert_eq!(later.escalation, Some(WalCheckpointMode::Truncate));
    assert_eq!(state.detector().consecutive_zero_progress(), 0);
}

#[test]
fn reports_and_inventory_entries_describe_the_store() {
    assert!(report(5, 5).is_complete());
    assert!(!report(5, 4).is_complete());
    assert!(!WalCheckpointReport { busy: true, log_frames: 5, checkpointed_frames: 5 }.is_complete());
    assert_eq!(WalMaintenanceReason::OpenCommit.as_str(), "open_commit");
    assert_eq!(WalMaintenanceReason::CatalogPublished.as_str(), "catalog_published");
    let entry = StorageConnectionInventoryEntry::new("operational", "IDLE");
    assert_eq!(entry.connection, "operational");
    assert_eq!(entry.transaction_state, "IDLE");
    let failed = StorageConnectionInventoryEntry::from_state("reader", None);
    assert_eq!(failed.transaction_state, INVENTORY_ERROR);
}

#[test]
fn pending_marks_coalesce_into_one_run() {
    let mut pending = WalMaintenancePending::new();
    assert!(!pending.is_due());
    assert_eq!(pending.take(), None);
    pending.mark(WalMaintenanceReason::OpenCommit);
    pending.mark(WalMaintenanceReason::OpenCommit);
    assert!(pending.is_due());
    assert_eq!(pending.take(), Some(WalMaintenanceReason::OpenCommit));
    assert!(!pending.is_due());
    pending.mark(WalMaintenanceReason::CatalogPublished);
    pending.mark(WalMaintenanceReason::OpenCommit);
    assert_eq!(pending.take(), Some(WalMaintenanceReason::CatalogPublished));
    assert_eq!(pending.take(), None);
}

use bcsp_application::publication::{
    check_prepared_rebuild_cancellation, ensure_prepared_resident_budget, DirtyPhase,
    PreparedDirtyState, PreparedRebuildCancellation, PreparedServingError,
    PublicationLifecycleState, PREPARED_FOUNDATION_RESIDENT_BYTE_BUDGET,
};
use bcsp_application::target::TermCampusKey;

fn target(campus: &str) -> TermCampusKey {
    TermCampusKey::new("92026".to_owned(), campus.to_owned())
}

fn forced(state: &PreparedDirtyState) -> Vec<(String, String)> {
    let mut keys: Vec<(String, String)> = state
        .forced_open_unavailable()
        .iter()
        .map(|k| (k.term().to_owned(), k.campus().to_owned()))
        .collect();
    keys.sort();
    keys
}

fn bind(state: &PreparedDirtyState) -> Result<Vec<TermCampusKey>, PreparedServingError> {
    state.snapshot_admission(true, true)
}

#[test]
fn publication_ticket_sets_restore_nested_full_and_open_in_both_orders() {
    let nb = target("NB");
    let mut state = PreparedDirtyState::new();
    let full_epoch = state.mark_full_dirty();
    let open_epoch = state.mark_open_dirty(&nb);
    state.rollback_full_dirty(full_epoch);
    let binding = bind(&state).expect("Open remains conservative");
    assert_eq!(binding.len(), 1);
    assert_eq!(forced(&state), vec![("92026".to_owned(), "NB".to_owned())]);
    state.rollback_open_dirty(&nb, open_epoch);
    assert!(bind(&state).expect("both rolled back").is_empty());

    let open_epoch = state.mark_open_dirty(&nb);
    let full_epoch = state.mark_full_dirty();
    state.rollback_open_dirty(&nb, open_epoch);
    assert_eq!(bind(&state), Err(PreparedServingError::SnapshotRebuilding));
    state.rollback_full_dirty(full_epoch);
    assert!(bind(&state).expect("reverse rollback").is_empty());

    let first = state.mark_full_dirty();
    let second = state.mark_full_dirty();
    state.rollback_full_dirty(second);
    assert_eq!(bind(&state), Err(PreparedServingError::SnapshotRebuilding));
    state.rollback_full_dirty(first);
    assert!(bind(&state).expect("full stack rollback").is_empty());
}

#[test]
fn full_and_open_barriers_preserve_old_arc_and_close_new_admission() {
    let nb = target("NB");
    let mut state = PreparedDirtyState::new();
    let full = state.mark_full_dirty();
    assert_eq!(state.snapshot_admission(true, true), Err(PreparedServingError::SnapshotRebuilding));
    assert_eq!(state.snapshot_admission(true, true), state.snapshot_admission(true, true));
    state.rollback_full_dirty(full);
    assert!(state.snapshot_admission(true, true).expect("restored").is_empty());

    let open = state.mark_open_dirty(&nb);
    let conservative = state.snapshot_admission(true, true).expect("conservative generation");
    assert_eq!(conservative.len(), 1);
    assert_eq!(conservative[0].campus(), "NB");
    state.rollback_open_dirty(&nb, open);
    assert!(state.snapshot_admission(true, true).expect("rolled back").is_empty());
}

#[test]
fn committed_open_ticket_blocks_new_binding_until_the_exact_overlay_is_published() {
    let nb = target("NB");
    let mut state = PreparedDirtyState::new();
    let epoch = state.mark_open_dirty(&nb);
    assert_eq!(bind(&state).expect("precommit conservative").len(), 1);
    state.commit_open_dirty(&nb, epoch).expect("commit");
    assert!(state.admission_blocked());
    assert_eq!(bind(&state), Err(PreparedServingError::SnapshotRebuilding));
    state.clear_open_tickets(&nb, &vec![epoch]);
    assert!(bind(&state).expect("rebuilt snapshot admitted").is_empty());
}

#[test]
fn inverted_open_commit_order_clears_only_the_built_ticket() {
    let nb = target("NB");
    let mut state = PreparedDirtyState::new();
    let first = state.mark_open_dirty(&nb);
    let second = state.mark_open_dirty(&nb);
    state.commit_open_dirty(&nb, second).expect("commit second");
    state.clear_open_tickets(&nb, &vec![second]);
    assert_eq!(bind(&state).expect("first precommit remains conservative").len(), 1);
    state.commit_open_dirty(&nb, first).expect("commit first");
    assert_eq!(bind(&state), Err(PreparedServingError::SnapshotRebuilding));
    state.clear_open_tickets(&nb, &vec![first]);
    assert!(bind(&state).expect("recovered admitted").is_empty());
}

#[test]
fn three_target_open_tickets_and_full_ticket_remain_fail_closed_until_each_build_completes() {
    let targets = [target("NB"), target("NK"), target("CM")];
    let mut state = PreparedDirtyState::new();
    let open: Vec<u64> = targets.iter().map(|t| state.mark_open_dirty(t)).collect();
    let full = state.mark_full_dirty();
    for (t, epoch) in targets.iter().zip(&open) {
        state.commit_open_dirty(t, *epoch).expect("commit Open");
    }
    state.commit_full_dirty(full).expect("commit full");
    state.clear_full_tickets(&vec![full]);
    assert_eq!(bind(&state), Err(PreparedServingError::SnapshotRebuilding));
    for (t, epoch) in targets.iter().zip(&open) {
        state.clear_open_tickets(t, &vec![*epoch]);
    }
    assert!(bind(&state).expect("all tickets completed").is_empty());
}

#[test]
fn inverted_full_commits_and_open_to_full_promotion_preserve_newer_exact_tickets() {
    let nb = target("NB");
    let mut state = PreparedDirtyState::new();
    let first = state.mark_full_dirty();
    let second = state.mark_full_dirty();
    state.commit_full_dirty(second).expect("commit second");
    state.clear_full_tickets(&vec![second]);
    assert_eq!(bind(&state), Err(PreparedServingError::SnapshotRebuilding));
    state.commit_full_dirty(first).expect("commit first");
    state.clear_full_tickets(&vec![first]);
    assert!(bind(&state).is_ok());

    let older = state.mark_open_dirty(&nb);
    state.commit_open_dirty(&nb, older).expect("commit older Open");
    let newer = state.mark_open_dirty(&nb);
    state.commit_open_dirty(&nb, newer).expect("commit newer Open");
    let promoted = state
        .promote_open_tickets_to_full(&vec![(nb.clone(), vec![older])])
        .expect("promote only older Open ticket");
    state.clear_full_tickets(&vec![promoted]);
    assert_eq!(bind(&state), Err(PreparedServingError::SnapshotRebuilding));
    state.clear_open_tickets(&nb, &vec![newer]);
    assert!(bind(&state).is_ok());
}

#[test]
fn snapshot_within_returns_immediately_when_admission_is_open() {
    let state = PreparedDirtyState::new();
    assert!(!state.waits_for_admission(true, false, false));
    assert!(state.snapshot_admission(true, false).expect("open admission binds without waiting").is_empty());
    assert!(state.snapshot_admission(true, true).expect("zero-wait twin").is_empty());
}

#[test]
fn snapshot_within_times_out_with_snapshot_rebuilding_when_ticket_persists() {
    let nb = target("NB");
    let mut state = PreparedDirtyState::new();
    let epoch = state.mark_open_dirty(&nb);
    state.commit_open_dirty(&nb, epoch).expect("commit");
    assert!(state.waits_for_admission(true, false, false));
    assert_eq!(state.snapshot_admission(true, false), Err(PreparedServingError::SnapshotRebuilding));
    assert!(!state.waits_for_admission(true, true, false), "a zero wait never parks");
}

#[test]
fn snapshot_within_does_not_wait_when_no_generation_is_published() {
    let nb = target("NB");
    let mut state = PreparedDirtyState::new();
    let epoch = state.mark_open_dirty(&nb);
    state.commit_open_dirty(&nb, epoch).expect("commit");
    assert!(!state.waits_for_admission(false, false, false));
    assert_eq!(state.snapshot_admission(false, false), Err(PreparedServingError::SnapshotUnavailable));
    assert_eq!(state.snapshot_admission(false, true), Err(PreparedServingError::SnapshotRebuilding));
    let empty = PreparedDirtyState::new();
    assert_eq!(empty.snapshot_admission(false, true), Err(PreparedServingError::SnapshotUnavailable));
}

#[test]
fn a_closed_registry_never_parks_a_waiter() {
    let mut state = PreparedDirtyState::new();
    let epoch = state.mark_full_dirty();
    state.commit_full_dirty(epoch).expect("commit");
    assert!(state.waits_for_admission(true, false, false));
    assert!(!state.waits_for_admission(true, false, true));
}

#[test]
fn broken_barriers_leave_every_ticket_in_place() {
    let nb = target("NB");
    let mut state = PreparedDirtyState::new();
    assert_eq!(state.commit_full_dirty(7), Err(PreparedServingError::PublicationBarrierUnavailable));
    assert_eq!(state.commit_open_dirty(&nb, 7), Err(PreparedServingError::PublicationBarrierUnavailable));
    let full = state.mark_full_dirty();
    state.commit_full_dirty(full).expect("commit");
    assert_eq!(
        state.convert_full_dirty_to_open(full, &nb),
        Err(PreparedServingError::PublicationBarrierUnavailable)
    );
    assert_eq!(state.ticket_phase(&None, full), Some(DirtyPhase::Committed));
    state.rollback_full_dirty(full);
    assert_eq!(state.ticket_phase(&None, full), Some(DirtyPhase::Committed));
    assert_eq!(
        state.promote_open_tickets_to_full(&vec![(nb.clone(), vec![1])]),
        Err(PreparedServingError::PublicationBarrierUnavailable)
    );
}

#[test]
fn a_full_barrier_narrows_to_a_committed_open_ticket() {
    let nb = target("NB");
    let mut state = PreparedDirtyState::new();
    let full = state.mark_full_dirty();
    let open = state.convert_full_dirty_to_open(full, &nb).expect("narrow");
    assert_eq!(open, full + 1);
    assert_eq!(state.ticket_phase(&None, full), None);
    assert_eq!(state.ticket_phase(&Some(nb.clone()), open), Some(DirtyPhase::Committed));
    assert!(state.has_open_ticket(&nb));
    assert!(!state.has_open_ticket(&target("NK")));
    assert_eq!(bind(&state), Err(PreparedServingError::SnapshotRebuilding));
}

#[test]
fn epochs_start_at_one_and_increase() {
    let mut state = PreparedDirtyState::new();
    let first = state.mark_full_dirty();
    let second = state.mark_open_dirty(&target("NB"));
    assert_eq!(first, 1);
    assert_eq!(second, 2);
}

#[test]
fn resident_budget_rejects_an_oversized_generation() {
    assert!(ensure_prepared_resident_budget(PREPARED_FOUNDATION_RESIDENT_BYTE_BUDGET).is_ok());
    assert!(matches!(
        ensure_prepared_resident_budget(PREPARED_FOUNDATION_RESIDENT_BYTE_BUDGET + 1),
        Err(PreparedServingError::ResidentBudgetExceeded { .. })
    ));
}

#[test]
fn stopped_worker_lifecycle_rejects_new_publications_without_dirtying_the_lkg() {
    let mut lifecycle = PublicationLifecycleState::new();
    assert!(lifecycle.drained());
    lifecycle.begin().expect("active admission");
    assert!(!lifecycle.drained());
    lifecycle.end();
    assert!(lifecycle.drained());
    lifecycle.stop_accepting();
    assert_eq!(lifecycle.begin(), Err(PreparedServingError::PublicationWorkerUnavailable));
    assert!(lifecycle.drained());
}

#[test]
fn cancellation_is_shared_and_sticky() {
    let cancellation = PreparedRebuildCancellation::new();
    assert!(!cancellation.requested());
    assert!(cancellation.check().is_ok());
    assert!(check_prepared_rebuild_cancellation(None).is_ok());
    let shared = cancellation.clone();
    shared.request();
    assert!(cancellation.requested());
    assert_eq!(cancellation.check(), Err(PreparedServingError::RebuildCancelled));
    assert_eq!(
        check_prepared_rebuild_cancellation(Some(&cancellation)),
        Err(PreparedServingError::RebuildCancelled)
    );
}

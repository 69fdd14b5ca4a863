use bcsp_application::rebuild_queue::{
    rebuild_followup, rebuild_outcome_of, PendingRebuilds, PreparedRebuildRequest, RebuildBatch,
    RebuildFollowup, RebuildOutcome,
};
use bcsp_application::publication::PreparedServingError;
use bcsp_application::refresh_registry::{
    RefreshRegistry, RefreshRuntimeRegistrationError, RegistrationChange, RetryAdmission,
};
use bcsp_application::target::TermCampusKey;

fn target(campus: &str) -> TermCampusKey {
    TermCampusKey::new("92026".to_owned(), campus.to_owned())
}

fn campuses(keys: &[TermCampusKey]) -> Vec<String> {
    let mut out: Vec<String> = keys.iter().map(|k| k.campus().to_owned()).collect();
    out.sort();
    out
}

#[test]
fn dynamic_registration_accepts_each_target_once() {
    let mut registry = RefreshRegistry::new();
    let nb = target("NB");
    assert_eq!(registry.register(&nb, false), RegistrationChange::Registered);
    assert_eq!(registry.register(&nb, false), RegistrationChange::Unchanged);
    assert!(registry.is_registered(&nb));
    assert_eq!(campuses(&registry.registered_targets()), vec!["NB"]);
}

#[test]
fn retained_target_reclassifies_when_the_term_window_role_changes() {
    let mut registry = RefreshRegistry::new();
    let nb = target("NB");
    assert_eq!(registry.register(&nb, false), RegistrationChange::Registered);
    assert_eq!(registry.register(&nb, true), RegistrationChange::Reclassified(false));
    assert_eq!(registry.register(&nb, true), RegistrationChange::Unchanged);
}

#[test]
fn an_undelivered_registration_is_reverted() {
    let mut registry = RefreshRegistry::new();
    let nb = target("NB");
    let change = registry.register(&nb, false);
    registry.revert_registration(&nb, change);
    assert!(!registry.is_registered(&nb));
    registry.register(&nb, false);
    let change = registry.register(&nb, true);
    registry.revert_registration(&nb, change);
    assert_eq!(registry.register(&nb, false), RegistrationChange::Unchanged);
}

#[test]
fn open_activation_accepts_each_target_once() {
    let mut registry = RefreshRegistry::new();
    let nb = target("NB");
    assert_eq!(
        registry.activate_open(&nb),
        Err(RefreshRuntimeRegistrationError::UnknownTarget)
    );
    registry.register(&nb, false);
    assert_eq!(registry.activate_open(&nb), Ok(true));
    assert_eq!(registry.activate_open(&nb), Ok(false));
    registry.deactivate_open(&nb);
    assert_eq!(registry.activate_open(&nb), Ok(true));
}

#[test]
fn manual_retry_generations_dedupe_per_target_and_keep_partial_targets_independent() {
    let mut registry = RefreshRegistry::new();
    let (nb, nk, cm) = (target("NB"), target("NK"), target("CM"));
    for t in [&nb, &nk, &cm] {
        registry.register(t, true);
    }
    assert_eq!(registry.request_manual_retry(&nb, 1), Ok(RetryAdmission::Accepted(None)));
    assert_eq!(registry.request_manual_retry(&nb, 1), Ok(RetryAdmission::Coalesced));
    assert_eq!(registry.request_manual_retry(&cm, 2), Ok(RetryAdmission::Accepted(None)));
    assert_eq!(registry.request_manual_retry(&cm, 2), Ok(RetryAdmission::Coalesced));
    assert_eq!(registry.request_manual_retry(&nb, 3), Ok(RetryAdmission::Accepted(Some(1))));
    registry.revert_manual_retry(&nb, Some(1));
    assert_eq!(registry.request_manual_retry(&nb, 1), Ok(RetryAdmission::Coalesced));
    assert_eq!(
        registry.request_manual_retry(&target("XX"), 9),
        Err(RefreshRuntimeRegistrationError::UnknownTarget)
    );
}

#[test]
fn product_demand_sync_releases_and_activates_by_difference() {
    let mut registry = RefreshRegistry::new();
    let (nb, nk, cm) = (target("NB"), target("NK"), target("CM"));
    registry.register(&nb, false);
    registry.register(&nk, false);
    registry.activate_open(&nb).expect("activate");
    let demanded = vec![nk.clone(), cm.clone()];
    assert_eq!(campuses(&registry.undemanded_active(&demanded)), vec!["NB"]);
    assert_eq!(campuses(&registry.demanded_registered(&demanded)), vec!["NK"]);
}

#[test]
fn retaining_removes_targets_and_their_demand() {
    let mut registry = RefreshRegistry::new();
    let (nb, nk) = (target("NB"), target("NK"));
    registry.register(&nb, false);
    registry.register(&nk, true);
    registry.activate_open(&nb).expect("activate");
    let removed = registry.retain_registered_targets(&vec![nk.clone()]);
    assert_eq!(campuses(&removed), vec!["NB"]);
    assert!(!registry.is_registered(&nb));
    assert_eq!(registry.register(&nk, true), RegistrationChange::Unchanged);
    assert_eq!(registry.activate_open(&nb), Err(RefreshRuntimeRegistrationError::UnknownTarget));
    assert!(registry.undemanded_active(&vec![]).is_empty());
}

#[test]
fn registration_errors_have_their_text() {
    assert_eq!(RefreshRuntimeRegistrationError::Stopped.message(), "refresh runtime is stopped");
    assert_eq!(
        RefreshRuntimeRegistrationError::Unavailable.message(),
        "refresh runtime registration state is unavailable"
    );
    assert_eq!(
        RefreshRuntimeRegistrationError::UnknownTarget.message(),
        "refresh target is not registered"
    );
}

#[test]
fn a_pending_full_rebuild_dominates_open_work() {
    let mut pending = PendingRebuilds::new();
    assert!(pending.is_idle());
    assert!(!pending.merge_request(PreparedRebuildRequest::Open(target("NB"), 1)));
    assert!(!pending.merge_request(PreparedRebuildRequest::Open(target("NB"), 2)));
    assert!(!pending.merge_request(PreparedRebuildRequest::Full(3)));
    assert!(!pending.merge_request(PreparedRebuildRequest::Full(3)));
    match pending.take_batch() {
        RebuildBatch::Full(epochs) => {
            let mut epochs = epochs;
            epochs.sort();
            epochs.dedup();
            assert_eq!(epochs, vec![3]);
        }
        _ => panic!("the Full epoch runs first"),
    }
    assert!(!pending.is_idle());
    match pending.take_batch() {
        RebuildBatch::Open(entries) => {
            assert_eq!(entries.len(), 1);
            assert_eq!(entries[0].0.campus(), "NB");
            let mut epochs = entries[0].1.clone();
            epochs.sort();
            assert_eq!(epochs, vec![1, 2]);
        }
        _ => panic!("the Open work runs next"),
    }
    assert!(pending.is_idle());
    assert!(matches!(pending.take_batch(), RebuildBatch::Idle));
    assert!(pending.merge_request(PreparedRebuildRequest::Shutdown));
}

#[test]
fn retried_open_work_is_requeued_with_new_arrivals() {
    let mut pending = PendingRebuilds::new();
    pending.merge_request(PreparedRebuildRequest::Open(target("NB"), 1));
    let executed = match pending.take_batch() {
        RebuildBatch::Open(entries) => entries,
        _ => panic!("Open work"),
    };
    pending.merge_request(PreparedRebuildRequest::Open(target("NB"), 4));
    pending.merge_request(PreparedRebuildRequest::Open(target("NK"), 5));
    pending.requeue_open(&executed);
    match pending.take_batch() {
        RebuildBatch::Open(entries) => {
            assert_eq!(entries.len(), 2);
            let nb = entries.iter().find(|e| e.0.campus() == "NB").expect("NB");
            let mut epochs = nb.1.clone();
            epochs.sort();
            assert_eq!(epochs, vec![1, 4]);
        }
        _ => panic!("requeued Open work"),
    }
    pending.add_full_epochs(&vec![7, 8]);
    match pending.take_batch() {
        RebuildBatch::Full(epochs) => assert_eq!(epochs, vec![7, 8]),
        _ => panic!("requeued Full work"),
    }
}

#[test]
fn rebuild_followups_follow_the_outcome() {
    assert_eq!(rebuild_followup(true, RebuildOutcome::Published, true, false), RebuildFollowup::ClearExecuted);
    assert_eq!(rebuild_followup(false, RebuildOutcome::Superseded, false, false), RebuildFollowup::Retry);
    assert_eq!(rebuild_followup(false, RebuildOutcome::Superseded, true, false), RebuildFollowup::Hold);
    assert_eq!(rebuild_followup(true, RebuildOutcome::Cancelled, false, true), RebuildFollowup::Hold);
    assert_eq!(rebuild_followup(false, RebuildOutcome::TargetUnavailable, false, false), RebuildFollowup::PromoteToFull);
    assert_eq!(rebuild_followup(true, RebuildOutcome::TargetUnavailable, false, true), RebuildFollowup::ClearExecuted);
    assert_eq!(rebuild_followup(true, RebuildOutcome::Failed, false, false), RebuildFollowup::RetryAfterBackoff);
    assert_eq!(rebuild_followup(false, RebuildOutcome::Failed, false, true), RebuildFollowup::RetryAfterBackoff);
    assert_eq!(rebuild_followup(true, RebuildOutcome::Failed, true, true), RebuildFollowup::Hold);
}

#[test]
fn build_errors_map_to_outcomes() {
    assert_eq!(rebuild_outcome_of(&PreparedServingError::SupersededBuild), RebuildOutcome::Superseded);
    assert_eq!(rebuild_outcome_of(&PreparedServingError::PublicationChanged), RebuildOutcome::Superseded);
    assert_eq!(rebuild_outcome_of(&PreparedServingError::RebuildCancelled), RebuildOutcome::Cancelled);
    assert_eq!(
        rebuild_outcome_of(&PreparedServingError::TargetNotPrepared(target("NB"))),
        RebuildOutcome::TargetUnavailable
    );
    assert_eq!(rebuild_outcome_of(&PreparedServingError::SnapshotUnavailable), RebuildOutcome::TargetUnavailable);
    assert_eq!(rebuild_outcome_of(&PreparedServingError::StorageAccessUnavailable), RebuildOutcome::Failed);
}

#[test]
fn pending_work_comes_out_ascending_and_each_once() {
    let mut pending = PendingRebuilds::new();
    for epoch in [9u64, 3, 9, 5, 3] {
        pending.merge_request(PreparedRebuildRequest::Full(epoch));
    }
    match pending.take_batch() {
        RebuildBatch::Full(epochs) => assert_eq!(epochs, vec![3, 5, 9]),
        _ => panic!("Full work"),
    }
    pending.merge_request(PreparedRebuildRequest::Open(target("NK"), 8));
    pending.merge_request(PreparedRebuildRequest::Open(target("CM"), 2));
    pending.merge_request(PreparedRebuildRequest::Open(target("NK"), 4));
    pending.merge_request(PreparedRebuildRequest::Open(target("NK"), 8));
    match pending.take_batch() {
        RebuildBatch::Open(entries) => {
            let campuses: Vec<&str> = entries.iter().map(|e| e.0.campus()).collect();
            assert_eq!(campuses, ["CM", "NK"]);
            assert_eq!(entries[0].1, vec![2]);
            assert_eq!(entries[1].1, vec![4, 8]);
        }
        _ => panic!("Open work"),
    }
}

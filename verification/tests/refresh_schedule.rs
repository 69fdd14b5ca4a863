use bcsp_application::refresh_schedule::{
    apply_open_completion, catalog_retry_directive, clear_expired_origin_pause,
    extend_origin_pause, first_load_freshness_interval_seconds,
    refresh_generation_interval_seconds, CatalogPullFailure, ConcurrentOpenTiming,
    OpenCompletion, RefreshFailureStage, RetryDirective, TargetRetryClass,
    DISCOVERY_REFRESH_INTERVAL_SECONDS, PER_TARGET_PROCESSING_MARGIN_SECONDS,
};

const CATALOG_TIMEOUT_SECONDS: u64 = 45;
const OPEN_TIMEOUT_SECONDS: u64 = 20;

fn per_target_seconds() -> u64 {
    CATALOG_TIMEOUT_SECONDS + OPEN_TIMEOUT_SECONDS + PER_TARGET_PROCESSING_MARGIN_SECONDS
}

fn interval(count: usize) -> u64 {
    refresh_generation_interval_seconds(count, CATALOG_TIMEOUT_SECONDS, OPEN_TIMEOUT_SECONDS)
}

#[test]
fn first_load_freshness_budget_scales_with_the_discovered_fleet() {
    assert_eq!(
        u64::from(first_load_freshness_interval_seconds(1, CATALOG_TIMEOUT_SECONDS, OPEN_TIMEOUT_SECONDS)),
        DISCOVERY_REFRESH_INTERVAL_SECONDS
    );
    assert_eq!(
        u64::from(first_load_freshness_interval_seconds(200, CATALOG_TIMEOUT_SECONDS, OPEN_TIMEOUT_SECONDS)),
        interval(200)
    );
}

#[test]
fn current_fleet_keeps_six_hours_and_larger_fleets_expand_the_generation() {
    assert_eq!(interval(135), DISCOVERY_REFRESH_INTERVAL_SECONDS);
    let boundary = (DISCOVERY_REFRESH_INTERVAL_SECONDS / per_target_seconds() + 1) as usize;
    let expanded = interval(boundary);
    assert!(expanded > DISCOVERY_REFRESH_INTERVAL_SECONDS);
    assert_eq!(expanded, per_target_seconds() * boundary as u64);
}

#[test]
fn shared_interval_bridges_the_next_wait_and_replacement_sweep() {
    let boundary = (DISCOVERY_REFRESH_INTERVAL_SECONDS / per_target_seconds() + 1) as usize;
    let interval = interval(boundary);
    let replacement_sweep = per_target_seconds() * boundary as u64;
    assert!(interval * 2 + 15 >= interval + replacement_sweep);
}

#[test]
fn an_enormous_fleet_is_capped_at_the_freshness_range() {
    assert_eq!(interval(usize::MAX), u64::from(u32::MAX));
    assert_eq!(
        first_load_freshness_interval_seconds(usize::MAX, u64::MAX, 1),
        u32::MAX
    );
}

#[test]
fn origin_pauses_expire_and_only_grow() {
    let mut pause = Some(1_000);
    clear_expired_origin_pause(&mut pause, 999);
    assert_eq!(pause, Some(1_000));
    clear_expired_origin_pause(&mut pause, 1_000);
    assert_eq!(pause, None);
    extend_origin_pause(&mut pause, 500, 100);
    assert_eq!(pause, Some(600));
    extend_origin_pause(&mut pause, 500, 50);
    assert_eq!(pause, Some(600));
    extend_origin_pause(&mut pause, 500, 200);
    assert_eq!(pause, Some(700));
    extend_origin_pause(&mut pause, u128::MAX, 10);
    assert_eq!(pause, Some(u128::MAX));
}

fn directive(delay_nanos: u128, origin_circuit: bool) -> RetryDirective {
    RetryDirective {
        delay_nanos,
        origin_circuit,
        next_failure_streak: 4,
        clears_fatal_diagnostic: false,
    }
}

#[test]
fn a_rate_limit_opens_the_origin_circuit_for_the_named_time() {
    let schedule = directive(5_000, false);
    let limited = catalog_retry_directive(
        CatalogPullFailure::RateLimited { retry_after_nanos: None },
        0,
        schedule,
    );
    assert!(limited.origin_circuit);
    assert_eq!(limited.delay_nanos, 60_000_000_000);
    assert_eq!(limited.next_failure_streak, 1);
    assert!(limited.clears_fatal_diagnostic);
    let named = catalog_retry_directive(
        CatalogPullFailure::RateLimited { retry_after_nanos: Some(9_000) },
        u32::MAX,
        schedule,
    );
    assert_eq!(named.delay_nanos, 9_000);
    assert_eq!(named.next_failure_streak, u32::MAX);
    assert_eq!(catalog_retry_directive(CatalogPullFailure::Transport, 2, schedule), schedule);
    assert_eq!(catalog_retry_directive(CatalogPullFailure::Schema, 2, schedule), schedule);
}

#[test]
fn catalog_failures_have_their_codes_stages_and_classes() {
    let limited = CatalogPullFailure::RateLimited { retry_after_nanos: None };
    assert_eq!(CatalogPullFailure::Transport.storage_code(), "CATALOG_UPSTREAM_TRANSPORT");
    assert_eq!(limited.storage_code(), "CATALOG_UPSTREAM_RATE_LIMITED");
    assert_eq!(CatalogPullFailure::Schema.storage_code(), "CATALOG_UPSTREAM_SCHEMA");
    assert_eq!(limited.storage_stage(), RefreshFailureStage::Transport);
    assert_eq!(CatalogPullFailure::Schema.storage_stage(), RefreshFailureStage::Schema);
    assert_eq!(limited.error_class(), "RATE_LIMITED");
    assert_eq!(CatalogPullFailure::Schema.retry_class(), TargetRetryClass::Content);
    assert_eq!(CatalogPullFailure::Transport.retry_class(), TargetRetryClass::Transient);
}

#[test]
fn open_completions_reschedule_the_concurrent_refresh() {
    let start = ConcurrentOpenTiming {
        next_due_after_nanos: 1,
        interval_nanos: 30_000,
        failure_streak: 3,
        next_due: 0,
    };
    let mut state = start;
    assert_eq!(apply_open_completion(&mut state, OpenCompletion::Success, 1_000), None);
    assert_eq!(state.failure_streak, 0);
    assert_eq!(state.next_due, 31_000);
    assert_eq!(state.next_due_after_nanos, 30_000);
    assert_eq!(apply_open_completion(&mut state, OpenCompletion::CatalogRace, 2_000), None);
    assert_eq!(state.next_due, 2_000);
    assert_eq!(state.next_due_after_nanos, 0);
    assert_eq!(
        apply_open_completion(&mut state, OpenCompletion::Retry(directive(5_000, true)), 3_000),
        Some(5_000)
    );
    assert_eq!(state.next_due, 8_000);
    assert_eq!(state.failure_streak, 4);
    assert_eq!(
        apply_open_completion(&mut state, OpenCompletion::Failed(directive(7_000, false)), 3_000),
        None
    );
    assert_eq!(state.next_due, 10_000);
    let before = state;
    assert_eq!(apply_open_completion(&mut state, OpenCompletion::Skipped, 9_999), None);
    assert_eq!(state, before);
}

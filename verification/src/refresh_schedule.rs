//! Timing rules of the refresh supervisor: the shared generation interval, the origin pause,
//! retry directives and the schedule of a concurrent Open refresh. Instants and durations are
//! nanoseconds (seconds where the name says so) on the supervisor's monotonic clock.
use vstd::prelude::*;

verus! {

/// Minimum interval between successful discovery generations, in seconds (six hours).
pub const DISCOVERY_REFRESH_INTERVAL_SECONDS: u64 = 21600;

/// Non-network work budgeted once per discovered target, in seconds.
pub const PER_TARGET_PROCESSING_MARGIN_SECONDS: u64 = 5;

/// Largest interval the Open freshness basis can carry, in seconds.
pub const MAX_GENERATION_INTERVAL_SECONDS: u64 = 4294967295;

/// `a + b`, or `u64::MAX` when that does not fit.
pub open spec fn sat_add(a: u64, b: u64) -> u64 {
    if a + b > u64::MAX {
        u64::MAX
    } else {
        (a + b) as u64
    }
}

/// `a * b`, or `u64::MAX` when that does not fit.
pub open spec fn sat_mul(a: u64, b: u64) -> u64 {
    if a * b > u64::MAX {
        u64::MAX
    } else {
        (a * b) as u64
    }
}

/// The worst-case serialized sweep of one target: both network timeouts and the margin.
pub open spec fn spec_per_target_seconds(catalog_timeout_seconds: u64, open_timeout_seconds: u64) -> u64 {
    sat_add(
        sat_add(catalog_timeout_seconds, open_timeout_seconds),
        PER_TARGET_PROCESSING_MARGIN_SECONDS,
    )
}

/// The worst-case serialized sweep of the whole fleet.
pub open spec fn spec_fleet_seconds(
    target_count: u64,
    catalog_timeout_seconds: u64,
    open_timeout_seconds: u64,
) -> u64 {
    sat_mul(spec_per_target_seconds(catalog_timeout_seconds, open_timeout_seconds), target_count)
}

/// The shared generation interval: at least six hours, at least the fleet's sweep, at most
/// what the freshness basis can carry.
pub open spec fn spec_generation_interval(
    target_count: u64,
    catalog_timeout_seconds: u64,
    open_timeout_seconds: u64,
) -> u64 {
    let fleet = spec_fleet_seconds(target_count, catalog_timeout_seconds, open_timeout_seconds);
    let at_least = if fleet > DISCOVERY_REFRESH_INTERVAL_SECONDS {
        fleet
    } else {
        DISCOVERY_REFRESH_INTERVAL_SECONDS
    };
    if at_least > MAX_GENERATION_INTERVAL_SECONDS {
        MAX_GENERATION_INTERVAL_SECONDS
    } else {
        at_least
    }
}

/// One shared duration governs both the next discovery deadline and the first-load Open
/// freshness basis, in seconds. The network timeouts are those of the Catalog and Open clients.
pub fn refresh_generation_interval_seconds(
    target_count: usize,
    catalog_timeout_seconds: u64,
    open_timeout_seconds: u64,
) -> (res: u64)
    ensures
        res == spec_generation_interval(
            target_count as u64,
            catalog_timeout_seconds,
            open_timeout_seconds,
        ),
{
    let count = target_count as u64;
    let per_target = catalog_timeout_seconds.saturating_add(open_timeout_seconds).saturating_add(
        PER_TARGET_PROCESSING_MARGIN_SECONDS,
    );
    let fleet = match per_target.checked_mul(count) {
        Some(f) => f,
        None => u64::MAX,
    };
    let at_least = if fleet > DISCOVERY_REFRESH_INTERVAL_SECONDS {
        fleet
    } else {
        DISCOVERY_REFRESH_INTERVAL_SECONDS
    };
    if at_least > MAX_GENERATION_INTERVAL_SECONDS {
        MAX_GENERATION_INTERVAL_SECONDS
    } else {
        at_least
    }
}

/// The first-load freshness basis of `target_count` targets, in seconds.
pub fn first_load_freshness_interval_seconds(
    target_count: usize,
    catalog_timeout_seconds: u64,
    open_timeout_seconds: u64,
) -> (res: u32)
    ensures
        res == spec_generation_interval(
            target_count as u64,
            catalog_timeout_seconds,
            open_timeout_seconds,
        ),
{
    let interval = refresh_generation_interval_seconds(
        target_count,
        catalog_timeout_seconds,
        open_timeout_seconds,
    );
    interval as u32
}

/// The generation interval never falls below six hours nor exceeds the freshness basis's
/// range, and it never stops a generation before its fleet's serialized sweep unless that
/// sweep exceeds the range.
pub proof fn lemma_generation_interval_bounds(target_count: u64, catalog: u64, open: u64)
    ensures
        DISCOVERY_REFRESH_INTERVAL_SECONDS <= spec_generation_interval(target_count, catalog, open)
            <= MAX_GENERATION_INTERVAL_SECONDS,
        spec_fleet_seconds(target_count, catalog, open) <= MAX_GENERATION_INTERVAL_SECONDS
            ==> spec_fleet_seconds(target_count, catalog, open) <= spec_generation_interval(
            target_count,
            catalog,
            open,
        ),
{
}

/// `2 * interval + 15s` bridges the next interval plus the following replacement sweep,
/// whenever the sweep fits the freshness basis's range.
pub proof fn lemma_interval_bridges_replacement_sweep(target_count: u64, catalog: u64, open: u64)
    requires
        spec_fleet_seconds(target_count, catalog, open) <= MAX_GENERATION_INTERVAL_SECONDS,
    ensures
        2 * spec_generation_interval(target_count, catalog, open) + 15 >= spec_generation_interval(
            target_count,
            catalog,
            open,
        ) + spec_fleet_seconds(target_count, catalog, open),
{
}

/// A larger fleet never gets a shorter generation interval.
pub proof fn lemma_generation_interval_is_monotone(smaller: u64, larger: u64, catalog: u64, open: u64)
    requires
        smaller <= larger,
    ensures
        spec_generation_interval(smaller, catalog, open) <= spec_generation_interval(
            larger,
            catalog,
            open,
        ),
{
    let p = spec_per_target_seconds(catalog, open);
    assert(p * smaller <= p * larger) by (nonlinear_arith)
        requires
            smaller <= larger,
    ;
}

/// The instant `delay` after `now`, or `now` when that instant is not representable.
pub open spec fn spec_deadline(now: u128, delay: u128) -> u128 {
    if now + delay > u128::MAX {
        now
    } else {
        (now + delay) as u128
    }
}

/// Drops an origin pause whose end has come.
pub fn clear_expired_origin_pause(pause: &mut Option<u128>, now: u128)
    ensures
        *final(pause) == (match *old(pause) {
            Some(until) => if until <= now {
                None
            } else {
                Some(until)
            },
            None => None,
        }),
{
    if let Some(until) = *pause {
        if until <= now {
            *pause = None;
        }
    }
}

/// Extends the origin pause to `delay` after `now`; a later pause stays.
pub fn extend_origin_pause(pause: &mut Option<u128>, now: u128, delay: u128)
    ensures
        *final(pause) == (match *old(pause) {
            Some(current) => if current < spec_deadline(now, delay) {
                Some(spec_deadline(now, delay))
            } else {
                Some(current)
            },
            None => Some(spec_deadline(now, delay)),
        }),
{
    let until = match now.checked_add(delay) {
        Some(t) => t,
        None => now,
    };
    let extend = match *pause {
        Some(current) => current < until,
        None => true,
    };
    if extend {
        *pause = Some(until);
    }
}

/// Extending a pause never shortens it, and the pause then lasts at least until the new
/// deadline.
pub proof fn lemma_extended_pause_never_shrinks(current: Option<u128>, now: u128, delay: u128)
    ensures
        ({
            let extended = match current {
                Some(c) => if c < spec_deadline(now, delay) {
                    Some(spec_deadline(now, delay))
                } else {
                    Some(c)
                },
                None => Some(spec_deadline(now, delay)),
            };
            &&& extended is Some
            &&& extended->0 >= spec_deadline(now, delay)
            &&& current is Some ==> extended->0 >= current->0
        }),
{
}

/// How an upstream failure is retried: the pause before the next attempt, whether it opens the
/// shared origin circuit, and the failure streak that follows.
#[derive(Clone, Copy, Debug, Eq, PartialEq, Structural)]
pub struct RetryDirective {
    pub delay_nanos: u128,
    pub origin_circuit: bool,
    pub next_failure_streak: u32,
    pub clears_fatal_diagnostic: bool,
}

/// Why a Catalog pull failed.
#[derive(Clone, Copy, Debug, Eq, PartialEq, Structural)]
pub enum CatalogPullFailure {
    Transport,
    RateLimited { retry_after_nanos: Option<u128> },
    Schema,
}

/// The stage a Catalog pull failure is stored under.
#[derive(Clone, Copy, Debug, Eq, PartialEq, Structural)]
pub enum RefreshFailureStage {
    Transport,
    Schema,
    Normalization,
}

/// How the shared target retry schedule classifies a failure.
#[derive(Clone, Copy, Debug, Eq, PartialEq, Structural)]
pub enum TargetRetryClass {
    Transient,
    Content,
}

/// Pause after a rate limit that named no retry time.
pub const RATE_LIMIT_DEFAULT_RETRY_NANOS: u128 = 60000000000;

/// The stored code of each Catalog failure.
pub open spec fn spec_catalog_failure_code(f: CatalogPullFailure) -> Seq<char> {
    match f {
        CatalogPullFailure::Transport => "CATALOG_UPSTREAM_TRANSPORT"@,
        CatalogPullFailure::RateLimited { .. } => "CATALOG_UPSTREAM_RATE_LIMITED"@,
        CatalogPullFailure::Schema => "CATALOG_UPSTREAM_SCHEMA"@,
    }
}

/// The reported error class of each Catalog failure.
pub open spec fn spec_catalog_error_class(f: CatalogPullFailure) -> Seq<char> {
    match f {
        CatalogPullFailure::Transport => "TRANSIENT"@,
        CatalogPullFailure::RateLimited { .. } => "RATE_LIMITED"@,
        CatalogPullFailure::Schema => "CONTENT"@,
    }
}

impl CatalogPullFailure {
    /// The stage the failure is stored under: a rate limit is a transport failure.
    pub fn storage_stage(self) -> (res: RefreshFailureStage)
        ensures
            res == (match self {
                CatalogPullFailure::Schema => RefreshFailureStage::Schema,
                _ => RefreshFailureStage::Transport,
            }),
    {
        match self {
            CatalogPullFailure::Transport | CatalogPullFailure::RateLimited { .. } =>
                RefreshFailureStage::Transport,
            CatalogPullFailure::Schema => RefreshFailureStage::Schema,
        }
    }

    /// The stored code of the failure.
    pub fn storage_code(self) -> (res: &'static str)
        ensures
            res@ == spec_catalog_failure_code(self),
    {
        match self {
            CatalogPullFailure::Transport => "CATALOG_UPSTREAM_TRANSPORT",
            CatalogPullFailure::RateLimited { .. } => "CATALOG_UPSTREAM_RATE_LIMITED",
            CatalogPullFailure::Schema => "CATALOG_UPSTREAM_SCHEMA",
        }
    }

    /// The error class reported with the failure.
    pub fn error_class(self) -> (res: &'static str)
        ensures
            res@ == spec_catalog_error_class(self),
    {
        match self {
            CatalogPullFailure::Transport => "TRANSIENT",
            CatalogPullFailure::RateLimited { .. } => "RATE_LIMITED",
            CatalogPullFailure::Schema => "CONTENT",
        }
    }

    /// The class under which the shared target schedule retries the failure.
    pub fn retry_class(self) -> (res: TargetRetryClass)
        ensures
            res == (match self {
                CatalogPullFailure::Schema => TargetRetryClass::Content,
                _ => TargetRetryClass::Transient,
            }),
    {
        match self {
            CatalogPullFailure::Schema => TargetRetryClass::Content,
            _ => TargetRetryClass::Transient,
        }
    }
}

/// The retry of a Catalog failure. A rate limit opens the origin circuit for the time the
/// upstream named, a minute when it named none; any other failure follows the target's own
/// schedule, `target_schedule`, which the shared retry policy computed for it.
pub fn catalog_retry_directive(
    failure: CatalogPullFailure,
    current_failure_streak: u32,
    target_schedule: RetryDirective,
) -> (res: RetryDirective)
    ensures
        match failure {
            CatalogPullFailure::RateLimited { retry_after_nanos } => res == RetryDirective {
                delay_nanos: match retry_after_nanos {
                    Some(d) => d,
                    None => RATE_LIMIT_DEFAULT_RETRY_NANOS,
                },
                origin_circuit: true,
                next_failure_streak: if current_failure_streak == u32::MAX {
                    u32::MAX
                } else {
                    (current_failure_streak + 1) as u32
                },
                clears_fatal_diagnostic: true,
            },
            _ => res == target_schedule,
        },
{
    match failure {
        CatalogPullFailure::RateLimited { retry_after_nanos } => RetryDirective {
            delay_nanos: match retry_after_nanos {
                Some(d) => d,
                None => RATE_LIMIT_DEFAULT_RETRY_NANOS,
            },
            origin_circuit: true,
            next_failure_streak: current_failure_streak.saturating_add(1),
            clears_fatal_diagnostic: true,
        },
        _ => target_schedule,
    }
}

/// How a concurrent Open refresh ended.
#[derive(Clone, Copy, Debug, Eq, PartialEq, Structural)]
pub enum OpenCompletion {
    /// The refresh succeeded.
    Success,
    /// The Catalog moved under the refresh: run again at once.
    CatalogRace,
    /// The refresh failed with this retry.
    Retry(RetryDirective),
    /// Nothing ran.
    Skipped,
    /// The refresh could not execute; this is the target's transient retry.
    Failed(RetryDirective),
}

/// The schedule of one target's concurrent Open refresh.
#[derive(Clone, Copy, Debug, Eq, PartialEq, Structural)]
pub struct ConcurrentOpenTiming {
    pub next_due_after_nanos: u128,
    pub interval_nanos: u128,
    pub failure_streak: u32,
    pub next_due: u128,
}

/// The schedule after a completion at `now`, and the origin pause it asks for.
pub open spec fn spec_after_completion(
    state: ConcurrentOpenTiming,
    completion: OpenCompletion,
    now: u128,
) -> (ConcurrentOpenTiming, Option<u128>) {
    match completion {
        OpenCompletion::Success => (
            ConcurrentOpenTiming {
                failure_streak: 0,
                next_due_after_nanos: state.interval_nanos,
                next_due: spec_deadline(now, state.interval_nanos),
                ..state
            },
            None,
        ),
        OpenCompletion::CatalogRace => (
            ConcurrentOpenTiming { next_due_after_nanos: 0, next_due: now, ..state },
            None,
        ),
        OpenCompletion::Skipped => (state, None),
        OpenCompletion::Retry(d) | OpenCompletion::Failed(d) => (
            ConcurrentOpenTiming {
                failure_streak: d.next_failure_streak,
                next_due_after_nanos: d.delay_nanos,
                next_due: spec_deadline(now, d.delay_nanos),
                ..state
            },
            if d.origin_circuit {
                Some(d.delay_nanos)
            } else {
                None
            },
        ),
    }
}

/// Advances a concurrent Open schedule past a completion at `now`; returns the delay by which
/// the origin pause must be extended, if the retry opens the origin circuit.
pub fn apply_open_completion(state: &mut ConcurrentOpenTiming, completion: OpenCompletion, now: u128) -> (pause:
    Option<u128>)
    ensures
        (*final(state), pause) == spec_after_completion(*old(state), completion, now),
{
    match completion {
        OpenCompletion::Success => {
            state.failure_streak = 0;
            state.next_due_after_nanos = state.interval_nanos;
            state.next_due = match now.checked_add(state.interval_nanos) {
                Some(t) => t,
                None => now,
            };
            None
        },
        OpenCompletion::CatalogRace => {
            state.next_due_after_nanos = 0;
            state.next_due = now;
            None
        },
        OpenCompletion::Skipped => None,
        OpenCompletion::Retry(d) | OpenCompletion::Failed(d) => {
            state.failure_streak = d.next_failure_streak;
            state.next_due_after_nanos = d.delay_nanos;
            state.next_due = match now.checked_add(d.delay_nanos) {
                Some(t) => t,
                None => now,
            };
            if d.origin_circuit {
                Some(d.delay_nanos)
            } else {
                None
            }
        },
    }
}

} // verus!

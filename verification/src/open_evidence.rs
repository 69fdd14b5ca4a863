//! When served Open evidence is fresh, and what a stale one is marked with.
use vstd::prelude::*;

verus! {

/// Evidence is fresh at `now_nanos` when it was observed and `now_nanos` is not past its
/// `fresh_until_nanos`, both in Unix nanoseconds.
pub open spec fn spec_evidence_fresh(observed: bool, fresh_until_nanos: Option<i128>, now_nanos: i128) -> bool {
    observed && fresh_until_nanos is Some && now_nanos <= fresh_until_nanos->0
}

/// Whether evidence is fresh at `now_nanos`; the boundary instant itself is still fresh.
pub fn evidence_fresh(observed: bool, fresh_until_nanos: Option<i128>, now_nanos: i128) -> (res: bool)
    ensures
        res == spec_evidence_fresh(observed, fresh_until_nanos, now_nanos),
{
    observed && match fresh_until_nanos {
        Some(until) => now_nanos <= until,
        None => false,
    }
}

/// The uncertainty of evidence served at `now_nanos`: evidence that is not fresh and carries
/// no reason yet is marked `source_unavailable`; any other keeps its own.
pub fn materialize_open_uncertainty<R>(
    observed: bool,
    fresh_until_nanos: Option<i128>,
    now_nanos: i128,
    uncertainty: Option<R>,
    source_unavailable: R,
) -> (res: Option<R>)
    ensures
        res == (if !spec_evidence_fresh(observed, fresh_until_nanos, now_nanos) && uncertainty is None {
            Some(source_unavailable)
        } else {
            uncertainty
        }),
{
    if !evidence_fresh(observed, fresh_until_nanos, now_nanos) && uncertainty.is_none() {
        Some(source_unavailable)
    } else {
        uncertainty
    }
}

} // verus!

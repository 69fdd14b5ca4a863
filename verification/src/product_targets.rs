//! Target selection of the product routes and the HTTP answer to each route failure.
use vstd::prelude::*;

use crate::product_scope::{is_product_campus, spec_is_product_campus};
use crate::query_targets::QueryTargetError;
use crate::target::{keys_of, TermCampusKey};
use crate::text::str_eq;

verus! {

/// The API error codes the product routes answer with.
#[derive(Clone, Copy, Debug, Eq, PartialEq, Structural)]
pub enum ApiErrorCode {
    CatalogNotReady,
    SearchDataNotReady,
    InvalidFilter,
    SectionNotFound,
    InternalError,
    UpstreamUnavailable,
    InvalidCourseGroupKey,
    InvalidFilterOption,
}

/// The runtime failures a product route can meet, as far as the answer depends on them.
#[derive(Clone, Copy, Debug, Eq, PartialEq, Structural)]
pub enum RuntimeFailureKind {
    RefreshPolicyUnavailable,
    CatalogDiscoveryStorage,
    CatalogDiscoveryProjection,
    OpenProjection,
    CourseNotFound,
    SectionNotFound,
    UnknownCoreCode,
    OtherQueryFailure,
    EmptyTargetSet,
    PublicationChanged,
    FtsUnavailable,
    Storage,
    Projection,
    TextEvidence,
    Prepared,
    TargetNotPublished,
    DuplicateTarget,
    FilterTermMismatch,
    FilterCampusSetMismatch,
    DetailTargetMismatch,
    InvalidTextTokens,
    InvalidFilterOption,
}

/// Why a product route failed.
#[derive(Clone, Debug, Eq, PartialEq)]
pub enum ProductRouteFailure {
    Runtime(RuntimeFailureKind),
    OpenRuntime,
    TargetDemand,
    CatalogUnavailable,
    SearchDataNotReady(Vec<TermCampusKey>),
    InvalidTarget,
    SectionNotFound,
}

/// The status and code of each runtime failure.
pub open spec fn spec_runtime_status(kind: RuntimeFailureKind) -> (u16, ApiErrorCode) {
    match kind {
        RuntimeFailureKind::RefreshPolicyUnavailable | RuntimeFailureKind::CatalogDiscoveryStorage
        | RuntimeFailureKind::CatalogDiscoveryProjection | RuntimeFailureKind::OpenProjection => (
            503,
            ApiErrorCode::UpstreamUnavailable,
        ),
        RuntimeFailureKind::CourseNotFound => (404, ApiErrorCode::InvalidCourseGroupKey),
        RuntimeFailureKind::SectionNotFound => (404, ApiErrorCode::SectionNotFound),
        RuntimeFailureKind::UnknownCoreCode => (400, ApiErrorCode::InvalidFilter),
        RuntimeFailureKind::EmptyTargetSet | RuntimeFailureKind::PublicationChanged
        | RuntimeFailureKind::FtsUnavailable | RuntimeFailureKind::Storage
        | RuntimeFailureKind::Projection | RuntimeFailureKind::TextEvidence
        | RuntimeFailureKind::Prepared => (503, ApiErrorCode::UpstreamUnavailable),
        RuntimeFailureKind::TargetNotPublished => (503, ApiErrorCode::CatalogNotReady),
        RuntimeFailureKind::DuplicateTarget | RuntimeFailureKind::FilterTermMismatch
        | RuntimeFailureKind::FilterCampusSetMismatch | RuntimeFailureKind::DetailTargetMismatch
        | RuntimeFailureKind::InvalidTextTokens => (400, ApiErrorCode::InvalidFilter),
        RuntimeFailureKind::InvalidFilterOption => (400, ApiErrorCode::InvalidFilterOption),
        RuntimeFailureKind::OtherQueryFailure => (500, ApiErrorCode::InternalError),
    }
}

/// The status and code of each route failure.
pub open spec fn spec_failure_status(failure: ProductRouteFailure) -> (u16, ApiErrorCode) {
    match failure {
        ProductRouteFailure::SearchDataNotReady(_) => (503, ApiErrorCode::SearchDataNotReady),
        ProductRouteFailure::CatalogUnavailable => (503, ApiErrorCode::CatalogNotReady),
        ProductRouteFailure::InvalidTarget => (400, ApiErrorCode::InvalidFilter),
        ProductRouteFailure::SectionNotFound => (404, ApiErrorCode::SectionNotFound),
        ProductRouteFailure::OpenRuntime | ProductRouteFailure::TargetDemand => (
            500,
            ApiErrorCode::InternalError,
        ),
        ProductRouteFailure::Runtime(kind) => spec_runtime_status(kind),
    }
}

/// The HTTP status and API code a runtime failure is answered with.
pub fn runtime_failure_status(kind: RuntimeFailureKind) -> (res: (u16, ApiErrorCode))
    ensures
        res == spec_runtime_status(kind),
{
    match kind {
        RuntimeFailureKind::RefreshPolicyUnavailable | RuntimeFailureKind::CatalogDiscoveryStorage
        | RuntimeFailureKind::CatalogDiscoveryProjection | RuntimeFailureKind::OpenProjection => (
            503,
            ApiErrorCode::UpstreamUnavailable,
        ),
        RuntimeFailureKind::CourseNotFound => (404, ApiErrorCode::InvalidCourseGroupKey),
        RuntimeFailureKind::SectionNotFound => (404, ApiErrorCode::SectionNotFound),
        RuntimeFailureKind::UnknownCoreCode => (400, ApiErrorCode::InvalidFilter),
        RuntimeFailureKind::EmptyTargetSet | RuntimeFailureKind::PublicationChanged
        | RuntimeFailureKind::FtsUnavailable | RuntimeFailureKind::Storage
        | RuntimeFailureKind::Projection | RuntimeFailureKind::TextEvidence
        | RuntimeFailureKind::Prepared => (503, ApiErrorCode::UpstreamUnavailable),
        RuntimeFailureKind::TargetNotPublished => (503, ApiErrorCode::CatalogNotReady),
        RuntimeFailureKind::DuplicateTarget | RuntimeFailureKind::FilterTermMismatch
        | RuntimeFailureKind::FilterCampusSetMismatch | RuntimeFailureKind::DetailTargetMismatch
        | RuntimeFailureKind::InvalidTextTokens => (400, ApiErrorCode::InvalidFilter),
        RuntimeFailureKind::InvalidFilterOption => (400, ApiErrorCode::InvalidFilterOption),
        RuntimeFailureKind::OtherQueryFailure => (500, ApiErrorCode::InternalError),
    }
}

/// The HTTP status and API code a route failure is answered with. Targets that are not ready
/// are listed in the answer's details.
pub fn product_failure_status(failure: &ProductRouteFailure) -> (res: (u16, ApiErrorCode))
    ensures
        res == spec_failure_status(*failure),
{
    match failure {
        ProductRouteFailure::SearchDataNotReady(_) => (503, ApiErrorCode::SearchDataNotReady),
        ProductRouteFailure::CatalogUnavailable => (503, ApiErrorCode::CatalogNotReady),
        ProductRouteFailure::InvalidTarget => (400, ApiErrorCode::InvalidFilter),
        ProductRouteFailure::SectionNotFound => (404, ApiErrorCode::SectionNotFound),
        ProductRouteFailure::OpenRuntime | ProductRouteFailure::TargetDemand => (
            500,
            ApiErrorCode::InternalError,
        ),
        ProductRouteFailure::Runtime(kind) => runtime_failure_status(*kind),
    }
}

/// The runtime failure a refused query target set stands for.
pub fn query_target_failure(error: &QueryTargetError) -> (res: RuntimeFailureKind)
    ensures
        res == (match *error {
            QueryTargetError::EmptyTargetSet => RuntimeFailureKind::EmptyTargetSet,
            QueryTargetError::DuplicateTarget(_) => RuntimeFailureKind::DuplicateTarget,
            QueryTargetError::FilterTermMismatch { .. } => RuntimeFailureKind::FilterTermMismatch,
            QueryTargetError::FilterCampusSetMismatch => RuntimeFailureKind::FilterCampusSetMismatch,
            QueryTargetError::DetailTargetMismatch => RuntimeFailureKind::DetailTargetMismatch,
        }),
{
    match error {
        QueryTargetError::EmptyTargetSet => RuntimeFailureKind::EmptyTargetSet,
        QueryTargetError::DuplicateTarget(_) => RuntimeFailureKind::DuplicateTarget,
        QueryTargetError::FilterTermMismatch { .. } => RuntimeFailureKind::FilterTermMismatch,
        QueryTargetError::FilterCampusSetMismatch => RuntimeFailureKind::FilterCampusSetMismatch,
        QueryTargetError::DetailTargetMismatch => RuntimeFailureKind::DetailTargetMismatch,
    }
}

/// The targets of a prepared search. Campuses listed by the filters name the targets
/// directly, in their order; otherwise the discovered product targets of the filter's term
/// are used, in discovery order, and there must be one.
pub fn prepared_search_targets(
    filter_term: &str,
    filter_campuses: &Vec<String>,
    discovered: &Vec<TermCampusKey>,
) -> (res: Result<Vec<TermCampusKey>, ProductRouteFailure>)
    ensures
        filter_campuses@.len() > 0 ==> match res {
            Ok(r) => r@.len() == filter_campuses@.len() && forall|i: int|
                0 <= i < r@.len() ==> (#[trigger] r@[i]).spec_key() == (
                    filter_term@,
                    filter_campuses@[i]@,
                ),
            Err(_) => false,
        },
        filter_campuses@.len() == 0 ==> ({
            let wanted = product_targets_of(discovered@, filter_term@);
            &&& wanted.len() == 0 ==> res == Err::<Vec<TermCampusKey>, ProductRouteFailure>(
                ProductRouteFailure::CatalogUnavailable,
            )
            &&& wanted.len() > 0 ==> match res {
                Ok(r) => keys_of(r@) == keys_of(wanted),
                Err(_) => false,
            }
        }),
{
    if filter_campuses.len() > 0 {
        let mut res: Vec<TermCampusKey> = Vec::new();
        let mut i: usize = 0;
        while i < filter_campuses.len()
            invariant
                i <= filter_campuses@.len(),
                res@.len() == i,
                forall|j: int|
                    0 <= j < i ==> (#[trigger] res@[j]).spec_key() == (filter_term@, filter_campuses@[j]@),
            decreases filter_campuses.len() - i,
        {
            res.push(TermCampusKey::new(filter_term.to_string(), filter_campuses[i].clone()));
            i = i + 1;
        }
        return Ok(res);
    }
    let mut res: Vec<TermCampusKey> = Vec::new();
    let mut i: usize = 0;
    while i < discovered.len()
        invariant
            i <= discovered@.len(),
            keys_of(res@) == keys_of(product_targets_of(discovered@.subrange(0, i as int), filter_term@)),
        decreases discovered.len() - i,
    {
        let ghost before = res@;
        let keep = str_eq(discovered[i].term(), filter_term) && is_product_campus(discovered[i].campus());
        proof {
            assert(discovered@.subrange(0, i + 1).drop_last() =~= discovered@.subrange(0, i as int));
        }
        if keep {
            res.push(discovered[i].copied());
            proof {
                let w = product_targets_of(discovered@.subrange(0, i as int), filter_term@);
                assert(keys_of(res@) =~= keys_of(before).push(discovered@[i as int].spec_key()));
                assert(keys_of(w.push(discovered@[i as int])) =~= keys_of(w).push(discovered@[i as int].spec_key()));
            }
        }
        i = i + 1;
    }
    proof {
        assert(discovered@.subrange(0, discovered@.len() as int) =~= discovered@);
    }
    if res.len() == 0 {
        return Err(ProductRouteFailure::CatalogUnavailable);
    }
    Ok(res)
}

/// The discovered product targets of `term`, in order.
pub open spec fn product_targets_of(discovered: Seq<TermCampusKey>, term: Seq<char>) -> Seq<TermCampusKey>
    decreases discovered.len(),
{
    if discovered.len() == 0 {
        Seq::empty()
    } else {
        let earlier = product_targets_of(discovered.drop_last(), term);
        let t = discovered.last();
        if t.spec_term() == term && spec_is_product_campus(t.spec_campus()) {
            earlier.push(t)
        } else {
            earlier
        }
    }
}

/// The targets whose readiness flag is false, in order.
pub fn unready_targets(targets: &Vec<TermCampusKey>, ready: &Vec<bool>) -> (res: Vec<TermCampusKey>)
    requires
        ready@.len() == targets@.len(),
    ensures
        keys_of(res@) == keys_of(unready_of(targets@, ready@)),
{
    let mut res: Vec<TermCampusKey> = Vec::new();
    let mut i: usize = 0;
    while i < targets.len()
        invariant
            i <= targets@.len(),
            ready@.len() == targets@.len(),
            keys_of(res@) == keys_of(unready_of(targets@.subrange(0, i as int), ready@.subrange(0, i as int))),
        decreases targets.len() - i,
    {
        let ghost before = res@;
        proof {
            assert(targets@.subrange(0, i + 1).drop_last() =~= targets@.subrange(0, i as int));
            assert(ready@.subrange(0, i + 1).drop_last() =~= ready@.subrange(0, i as int));
        }
        if !ready[i] {
            res.push(targets[i].copied());
            proof {
                assert(keys_of(res@) =~= keys_of(before).push(targets@[i as int].spec_key()));
                assert(keys_of(unready_of(targets@.subrange(0, i as int), ready@.subrange(0, i as int)).push(targets@[i as int]))
                    =~= keys_of(unready_of(targets@.subrange(0, i as int), ready@.subrange(0, i as int))).push(targets@[i as int].spec_key()));
            }
        }
        i = i + 1;
    }
    proof {
        assert(targets@.subrange(0, targets@.len() as int) =~= targets@);
        assert(ready@.subrange(0, ready@.len() as int) =~= ready@);
    }
    res
}

/// The targets not flagged ready, in order.
pub open spec fn unready_of(targets: Seq<TermCampusKey>, ready: Seq<bool>) -> Seq<TermCampusKey>
    decreases targets.len(),
{
    if targets.len() == 0 || ready.len() == 0 {
        Seq::empty()
    } else {
        let earlier = unready_of(targets.drop_last(), ready.drop_last());
        if ready.last() {
            earlier
        } else {
            earlier.push(targets.last())
        }
    }
}

/// Every target must be ready; the ones that are not are reported together.
pub fn require_targets_ready(targets: &Vec<TermCampusKey>, ready: &Vec<bool>) -> (res: Result<
    (),
    ProductRouteFailure,
>)
    requires
        ready@.len() == targets@.len(),
    ensures
        unready_of(targets@, ready@).len() == 0 <==> res is Ok,
        match res {
            Err(ProductRouteFailure::SearchDataNotReady(r)) => keys_of(r@) == keys_of(
                unready_of(targets@, ready@),
            ),
            Err(_) => false,
            Ok(_) => true,
        },
{
    let unready = unready_targets(targets, ready);
    proof {
        assert(keys_of(unready@).len() == unready@.len());
        assert(keys_of(unready_of(targets@, ready@)).len() == unready_of(targets@, ready@).len());
    }
    if unready.len() == 0 {
        Ok(())
    } else {
        Err(ProductRouteFailure::SearchDataNotReady(unready))
    }
}

/// Whether `term` is among `terms`.
fn lists_term(terms: &Vec<String>, term: &str) -> (res: bool)
    ensures
        res == exists|i: int| 0 <= i < terms@.len() && (#[trigger] terms@[i])@ == term@,
{
    let mut i: usize = 0;
    while i < terms.len()
        invariant
            i <= terms@.len(),
            forall|j: int| 0 <= j < i ==> (#[trigger] terms@[j])@ != term@,
        decreases terms.len() - i,
    {
        if str_eq(terms[i].as_str(), term) {
            return true;
        }
        i = i + 1;
    }
    false
}

/// Whether target `t` may be queried: its term is visible, its campus is a product campus, and
/// it is known (discovered or ready).
pub open spec fn target_admissible(t: TermCampusKey, visible_terms: Seq<String>, known: bool) -> bool {
    &&& exists|i: int| 0 <= i < visible_terms.len() && (#[trigger] visible_terms[i])@ == t.spec_term()
    &&& spec_is_product_campus(t.spec_campus())
    &&& known
}

/// A non-empty target set whose every target is admissible passes; anything else is an
/// invalid target. `known[i]` says whether target `i` is discovered or ready.
pub fn validate_product_targets(targets: &Vec<TermCampusKey>, visible_terms: &Vec<String>, known: &Vec<bool>) -> (res:
    Result<(), ProductRouteFailure>)
    requires
        known@.len() == targets@.len(),
    ensures
        res is Ok <==> (targets@.len() > 0 && forall|i: int|
            0 <= i < targets@.len() ==> target_admissible(#[trigger] targets@[i], visible_terms@, known@[i])),
        res is Err ==> res == Err::<(), ProductRouteFailure>(ProductRouteFailure::InvalidTarget),
{
    if targets.len() == 0 {
        return Err(ProductRouteFailure::InvalidTarget);
    }
    let mut i: usize = 0;
    while i < targets.len()
        invariant
            i <= targets@.len(),
            known@.len() == targets@.len(),
            forall|j: int| 0 <= j < i ==> target_admissible(#[trigger] targets@[j], visible_terms@, known@[j]),
        decreases targets.len() - i,
    {
        if !(lists_term(visible_terms, targets[i].term()) && is_product_campus(targets[i].campus()) && known[i]) {
            return Err(ProductRouteFailure::InvalidTarget);
        }
        i = i + 1;
    }
    Ok(())
}

/// The targets a request may ask to refresh, in order: a target of a manually managed term
/// (`manual[i]`) qualifies only when that term was asked for manually or the target is
/// already ready.
pub fn refresh_eligible_targets(
    targets: &Vec<TermCampusKey>,
    manual: &Vec<bool>,
    manual_terms: &Vec<String>,
    ready: &Vec<bool>,
) -> (res: Vec<TermCampusKey>)
    requires
        manual@.len() == targets@.len(),
        ready@.len() == targets@.len(),
    ensures
        keys_of(res@) == keys_of(eligible_of(targets@, manual@, manual_terms@, ready@)),
{
    let mut res: Vec<TermCampusKey> = Vec::new();
    let mut i: usize = 0;
    while i < targets.len()
        invariant
            i <= targets@.len(),
            manual@.len() == targets@.len(),
            ready@.len() == targets@.len(),
            keys_of(res@) == keys_of(eligible_of(
                targets@.subrange(0, i as int),
                manual@.subrange(0, i as int),
                manual_terms@,
                ready@.subrange(0, i as int),
            )),
        decreases targets.len() - i,
    {
        let ghost before = res@;
        proof {
            assert(targets@.subrange(0, i + 1).drop_last() =~= targets@.subrange(0, i as int));
            assert(manual@.subrange(0, i + 1).drop_last() =~= manual@.subrange(0, i as int));
            assert(ready@.subrange(0, i + 1).drop_last() =~= ready@.subrange(0, i as int));
        }
        let ok = !manual[i] || lists_term(manual_terms, targets[i].term()) || ready[i];
        if ok {
            res.push(targets[i].copied());
            proof {
                let e = eligible_of(
                    targets@.subrange(0, i as int),
                    manual@.subrange(0, i as int),
                    manual_terms@,
                    ready@.subrange(0, i as int),
                );
                assert(keys_of(res@) =~= keys_of(before).push(targets@[i as int].spec_key()));
                assert(keys_of(e.push(targets@[i as int])) =~= keys_of(e).push(targets@[i as int].spec_key()));
            }
        }
        i = i + 1;
    }
    proof {
        assert(targets@.subrange(0, targets@.len() as int) =~= targets@);
        assert(manual@.subrange(0, manual@.len() as int) =~= manual@);
        assert(ready@.subrange(0, ready@.len() as int) =~= ready@);
    }
    res
}

/// The eligible targets, in order.
pub open spec fn eligible_of(
    targets: Seq<TermCampusKey>,
    manual: Seq<bool>,
    manual_terms: Seq<String>,
    ready: Seq<bool>,
) -> Seq<TermCampusKey>
    decreases targets.len(),
{
    if targets.len() == 0 || manual.len() == 0 || ready.len() == 0 {
        Seq::empty()
    } else {
        let earlier = eligible_of(targets.drop_last(), manual.drop_last(), manual_terms, ready.drop_last());
        let t = targets.last();
        if !manual.last() || (exists|i: int| 0 <= i < manual_terms.len() && (#[trigger] manual_terms[i])@
            == t.spec_term()) || ready.last() {
            earlier.push(t)
        } else {
            earlier
        }
    }
}

} // verus!

use bcsp_application::host::RequestMethod;
use bcsp_application::product_routes::{
    parse_status_scope, product_route_for, shared_product_route_inventory, ProductRoute,
    PRODUCT_COURSE_SEARCH_PATH, PRODUCT_FILTER_SCHEMA_PATH,
};
use bcsp_application::product_targets::{
    prepared_search_targets, product_failure_status, query_target_failure, refresh_eligible_targets,
    require_targets_ready, runtime_failure_status, validate_product_targets, ApiErrorCode,
    ProductRouteFailure, RuntimeFailureKind,
};
use bcsp_application::query_targets::{
    canonical_targets, validate_detail_targets, validate_search_targets, QueryTargetError,
};
use bcsp_application::target::TermCampusKey;

fn key(term: &str, campus: &str) -> TermCampusKey {
    TermCampusKey::new(term.to_owned(), campus.to_owned())
}

fn pairs(keys: &[TermCampusKey]) -> Vec<(String, String)> {
    keys.iter().map(|k| (k.term().to_owned(), k.campus().to_owned())).collect()
}

#[test]
fn target_validation_and_unpublished_targets_are_typed_failures() {
    let nb = key("92026", "NB");
    assert_eq!(
        canonical_targets(&vec![nb.clone(), nb.clone()]),
        Err(QueryTargetError::DuplicateTarget(nb.clone()))
    );
    assert_eq!(canonical_targets(&vec![]), Err(QueryTargetError::EmptyTargetSet));
}

#[test]
fn canonical_targets_are_sorted_and_distinct() {
    let set = canonical_targets(&vec![key("92026", "NK"), key("12026", "NB"), key("92026", "CM")])
        .expect("distinct targets");
    assert_eq!(
        pairs(&set),
        vec![
            ("12026".to_owned(), "NB".to_owned()),
            ("92026".to_owned(), "CM".to_owned()),
            ("92026".to_owned(), "NK".to_owned()),
        ]
    );
    assert_eq!(
        canonical_targets(&vec![key("92026", "NK"), key("92026", "CM"), key("92026", "NK"), key("92026", "CM")]),
        Err(QueryTargetError::DuplicateTarget(key("92026", "NK")))
    );
}

#[test]
fn search_targets_must_match_the_filter_term_and_campuses() {
    let targets = vec![key("92026", "NK"), key("92026", "NB")];
    let ok = validate_search_targets(&targets, "92026", &vec!["NB".to_owned(), "NK".to_owned()])
        .expect("matching campuses");
    assert_eq!(ok.len(), 2);
    assert_eq!(
        validate_search_targets(&targets, "92026", &vec!["NB".to_owned()]),
        Err(QueryTargetError::FilterCampusSetMismatch)
    );
    assert_eq!(
        validate_search_targets(&vec![key("92026", "NB"), key("12027", "NB")], "92026", &vec![]),
        Err(QueryTargetError::FilterTermMismatch {
            target: key("12027", "NB"),
            filter_term: "92026".to_owned(),
        })
    );
    assert!(validate_search_targets(&targets, "92026", &vec![]).is_ok());
}

#[test]
fn detail_targets_must_name_the_detail_target() {
    let targets = vec![key("92026", "NB"), key("92026", "NK")];
    assert!(validate_detail_targets(&targets, &key("92026", "NK")).is_ok());
    assert_eq!(
        validate_detail_targets(&targets, &key("92026", "CM")),
        Err(QueryTargetError::DetailTargetMismatch)
    );
}

#[test]
fn the_status_scope_names_one_term_and_product_campuses() {
    assert_eq!(parse_status_scope(None), Ok(vec![]));
    assert_eq!(parse_status_scope(Some("")), Ok(vec![]));
    assert_eq!(
        parse_status_scope(Some("activeTerm=92026&activeCampus=NB&&activeCampus=cm")),
        Ok(vec![
            ("92026".to_owned(), "NB".to_owned()),
            ("92026".to_owned(), "cm".to_owned()),
        ])
    );
    assert_eq!(parse_status_scope(Some("activeTerm=92026")), Err(()));
    assert_eq!(parse_status_scope(Some("activeCampus=NB")), Err(()));
    assert_eq!(parse_status_scope(Some("activeTerm=92026&activeTerm=12027&activeCampus=NB")), Err(()));
    assert_eq!(parse_status_scope(Some("activeTerm=92026&activeCampus=NWK")), Err(()));
    assert_eq!(parse_status_scope(Some("activeTerm=92026&activeCampus=N%42")), Err(()));
    assert_eq!(parse_status_scope(Some("activeTerm=92026&activeCampus=")), Err(()));
    assert_eq!(parse_status_scope(Some("activeTerm")), Err(()));
    assert_eq!(parse_status_scope(Some("page=2")), Err(()));
    assert_eq!(
        parse_status_scope(Some("activeTerm=a=b&activeCampus=NB")),
        Ok(vec![("a=b".to_owned(), "NB".to_owned())])
    );
}

#[test]
fn every_inventory_route_dispatches_and_nothing_else_does() {
    let inventory = shared_product_route_inventory();
    assert_eq!(inventory.len(), 11);
    assert_eq!(inventory[0].method(), &RequestMethod::Get);
    assert_eq!(inventory[0].path(), PRODUCT_FILTER_SCHEMA_PATH);
    for route in &inventory {
        assert!(product_route_for(route.method(), route.path()).is_some(), "{}", route.path());
    }
    assert_eq!(
        product_route_for(&RequestMethod::Post, PRODUCT_COURSE_SEARCH_PATH),
        Some(ProductRoute::CourseSearch)
    );
    assert_eq!(product_route_for(&RequestMethod::Get, PRODUCT_COURSE_SEARCH_PATH), None);
    assert_eq!(
        product_route_for(&RequestMethod::Get, "/api/v1/service/status"),
        Some(ProductRoute::ServiceStatus)
    );
    assert_eq!(product_route_for(&RequestMethod::Get, "/nope"), None);
}

#[test]
fn prepared_search_targets_come_from_filters_or_discovery() {
    let named = prepared_search_targets("92026", &vec!["NB".to_owned(), "CM".to_owned()], &vec![])
        .expect("named campuses");
    assert_eq!(
        pairs(&named),
        vec![("92026".to_owned(), "NB".to_owned()), ("92026".to_owned(), "CM".to_owned())]
    );
    let discovered = vec![key("92026", "NB"), key("92026", "NWK"), key("12027", "NK"), key("92026", "cm")];
    let found = prepared_search_targets("92026", &vec![], &discovered).expect("discovered");
    assert_eq!(
        pairs(&found),
        vec![("92026".to_owned(), "NB".to_owned()), ("92026".to_owned(), "cm".to_owned())]
    );
    assert_eq!(
        prepared_search_targets("72026", &vec![], &discovered),
        Err(ProductRouteFailure::CatalogUnavailable)
    );
}

#[test]
fn unready_targets_are_reported_together() {
    let targets = vec![key("92026", "NB"), key("92026", "NK"), key("92026", "CM")];
    assert_eq!(require_targets_ready(&targets, &vec![true, true, true]), Ok(()));
    assert_eq!(
        require_targets_ready(&targets, &vec![true, false, false]),
        Err(ProductRouteFailure::SearchDataNotReady(vec![key("92026", "NK"), key("92026", "CM")]))
    );
}

#[test]
fn product_targets_must_be_visible_product_and_known() {
    let visible = vec!["92026".to_owned()];
    let targets = vec![key("92026", "NB"), key("92026", "NK")];
    assert_eq!(validate_product_targets(&targets, &visible, &vec![true, true]), Ok(()));
    assert_eq!(
        validate_product_targets(&targets, &visible, &vec![true, false]),
        Err(ProductRouteFailure::InvalidTarget)
    );
    assert_eq!(
        validate_product_targets(&vec![key("12027", "NB")], &visible, &vec![true]),
        Err(ProductRouteFailure::InvalidTarget)
    );
    assert_eq!(
        validate_product_targets(&vec![key("92026", "NWK")], &visible, &vec![true]),
        Err(ProductRouteFailure::InvalidTarget)
    );
    assert_eq!(validate_product_targets(&vec![], &visible, &vec![]), Err(ProductRouteFailure::InvalidTarget));
}

#[test]
fn manual_terms_refresh_only_when_asked_or_ready() {
    let targets = vec![key("92026", "NB"), key("12027", "NB"), key("12027", "NK")];
    let eligible = refresh_eligible_targets(
        &targets,
        &vec![false, true, true],
        &vec![],
        &vec![false, false, true],
    );
    assert_eq!(
        pairs(&eligible),
        vec![("92026".to_owned(), "NB".to_owned()), ("12027".to_owned(), "NK".to_owned())]
    );
    let asked = refresh_eligible_targets(&targets, &vec![false, true, true], &vec!["12027".to_owned()], &vec![false, false, false]);
    assert_eq!(asked.len(), 3);
}

#[test]
fn failures_answer_with_their_status_and_code() {
    assert_eq!(
        product_failure_status(&ProductRouteFailure::SearchDataNotReady(vec![])),
        (503, ApiErrorCode::SearchDataNotReady)
    );
    assert_eq!(product_failure_status(&ProductRouteFailure::CatalogUnavailable), (503, ApiErrorCode::CatalogNotReady));
    assert_eq!(product_failure_status(&ProductRouteFailure::InvalidTarget), (400, ApiErrorCode::InvalidFilter));
    assert_eq!(product_failure_status(&ProductRouteFailure::SectionNotFound), (404, ApiErrorCode::SectionNotFound));
    assert_eq!(product_failure_status(&ProductRouteFailure::TargetDemand), (500, ApiErrorCode::InternalError));
    assert_eq!(product_failure_status(&ProductRouteFailure::OpenRuntime), (500, ApiErrorCode::InternalError));
    assert_eq!(runtime_failure_status(RuntimeFailureKind::CourseNotFound), (404, ApiErrorCode::InvalidCourseGroupKey));
    assert_eq!(runtime_failure_status(RuntimeFailureKind::TargetNotPublished), (503, ApiErrorCode::CatalogNotReady));
    assert_eq!(runtime_failure_status(RuntimeFailureKind::InvalidFilterOption), (400, ApiErrorCode::InvalidFilterOption));
    assert_eq!(runtime_failure_status(RuntimeFailureKind::OtherQueryFailure), (500, ApiErrorCode::InternalError));
    assert_eq!(runtime_failure_status(RuntimeFailureKind::RefreshPolicyUnavailable), (503, ApiErrorCode::UpstreamUnavailable));
    assert_eq!(
        product_failure_status(&ProductRouteFailure::Runtime(query_target_failure(&QueryTargetError::DuplicateTarget(key("92026", "NB"))))),
        (400, ApiErrorCode::InvalidFilter)
    );
    assert_eq!(query_target_failure(&QueryTargetError::EmptyTargetSet), RuntimeFailureKind::EmptyTargetSet);
}

#[test]
fn canonical_targets_do_not_depend_on_the_order_given() {
    let first = canonical_targets(&vec![key("92026", "NK"), key("12026", "CM"), key("92026", "NB")])
        .expect("distinct targets");
    let second = canonical_targets(&vec![key("92026", "NB"), key("92026", "NK"), key("12026", "CM")])
        .expect("distinct targets");
    assert_eq!(pairs(&first), pairs(&second));
    assert_eq!(
        pairs(&first),
        pairs(&[key("12026", "CM"), key("92026", "NB"), key("92026", "NK")])
    );
}

use bcsp_application::product_scope::{
    is_product_campus, product_term_publication, product_campus_codes, product_target_keys, term_publication_at,
    DiscoveredCampusEvidence, DiscoveredTermEvidence, PublishedDiscoveryEvidence,
    ServiceTermPublication, StoredFact,
};
use bcsp_application::target::TermCampusKey;

#[test]
fn product_scope_is_exact_and_case_insensitive_at_the_boundary() {
    assert_eq!(product_campus_codes(), ["NB", "NK", "CM"]);
    assert!(is_product_campus("nb"));
    assert!(is_product_campus("NK"));
    assert!(is_product_campus("CM"));
    assert!(!is_product_campus("NWK"));
    assert!(!is_product_campus("CAM"));
    assert!(!is_product_campus("ONLINE_NB"));
}

#[test]
fn one_term_expands_to_the_three_product_targets_in_stable_order() {
    let targets = product_target_keys("72026");
    assert_eq!(targets.len(), 3);
    assert_eq!(targets[0].campus(), "NB");
    assert_eq!(targets[1].campus(), "NK");
    assert_eq!(targets[2].campus(), "CM");
    assert!(targets.iter().all(|t| t.term() == "72026"));
}

fn value(v: bool) -> Option<StoredFact> {
    Some(StoredFact {
        state: Some("VALUE".to_owned()),
        value: Some(v),
    })
}

fn term(id: &str, published: bool) -> DiscoveredTermEvidence {
    DiscoveredTermEvidence {
        term_id: id.to_owned(),
        published: Some(published),
        published_fact: value(published),
    }
}

fn campus(term: &str, campus: &str, enabled: bool) -> DiscoveredCampusEvidence {
    DiscoveredCampusEvidence {
        target: TermCampusKey::new(term.to_owned(), campus.to_owned()),
        enabled: Some(enabled),
        campus_enabled_fact: value(true),
        target_enabled_fact: value(enabled),
    }
}

const HOUR_NANOS: i128 = 3_600_000_000_000;

fn evidence(campuses: Vec<DiscoveredCampusEvidence>, published: bool) -> PublishedDiscoveryEvidence {
    PublishedDiscoveryEvidence {
        last_success_completed_at: Some("2026-07-17T06:00:00Z".to_owned()),
        terms: vec![term("72026", published)],
        campuses,
    }
}

#[test]
fn fresh_product_publication_distinguishes_present_and_explicit_all_absent() {
    let done = 1_000 * HOUR_NANOS;
    let now = done + 6 * HOUR_NANOS;
    let present = evidence(vec![campus("72026", "NB", true)], true);
    assert_eq!(
        term_publication_at(&present, "72026", Some(done), now),
        ServiceTermPublication::Published
    );
    let absent = evidence(vec![campus("02027", "NB", true)], true);
    assert_eq!(
        term_publication_at(&absent, "72026", Some(done), now),
        ServiceTermPublication::Unpublished
    );
}

#[test]
fn target_presence_is_publication_even_when_enabled_false() {
    let done = 1_000 * HOUR_NANOS;
    let present = evidence(vec![campus("72026", "NB", false)], true);
    assert_eq!(
        term_publication_at(&present, "72026", Some(done), done + HOUR_NANOS),
        ServiceTermPublication::Published
    );
}

#[test]
fn false_term_with_present_target_and_duplicate_target_are_unknown_conflicts() {
    let done = 1_000 * HOUR_NANOS;
    let false_term = evidence(vec![campus("72026", "NB", true)], false);
    assert_eq!(
        term_publication_at(&false_term, "72026", Some(done), done + HOUR_NANOS),
        ServiceTermPublication::Unknown
    );
    let duplicate = evidence(
        vec![campus("72026", "NB", true), campus("72026", "nb", true)],
        true,
    );
    assert_eq!(
        term_publication_at(&duplicate, "72026", Some(done), done + HOUR_NANOS),
        ServiceTermPublication::Unknown
    );
}

#[test]
fn stale_future_and_missing_success_evidence_are_unknown() {
    let done = 1_000 * HOUR_NANOS;
    let present = evidence(vec![campus("72026", "NB", true)], true);
    assert_eq!(
        term_publication_at(&present, "72026", Some(done), done + 6 * HOUR_NANOS + 1_000_000_000),
        ServiceTermPublication::Unknown
    );
    assert_eq!(
        term_publication_at(&present, "72026", Some(done), done - 1_000_000_000),
        ServiceTermPublication::Unknown
    );
    assert_eq!(
        term_publication_at(&present, "72026", None, done),
        ServiceTermPublication::Unknown
    );
}

#[test]
fn missing_null_malformed_and_conflicting_fields_are_unknown() {
    let done = 1_000 * HOUR_NANOS;
    for state in ["MISSING", "EXPLICIT_NULL", "MALFORMED"] {
        let mut record = campus("72026", "NB", true);
        record.campus_enabled_fact = Some(StoredFact {
            state: Some(state.to_owned()),
            value: None,
        });
        let unknown = evidence(vec![record], true);
        assert_eq!(
            term_publication_at(&unknown, "72026", Some(done), done + HOUR_NANOS),
            ServiceTermPublication::Unknown,
            "{state}"
        );
    }
    let mut conflicting = campus("72026", "NB", true);
    conflicting.target_enabled_fact = value(false);
    let unknown = evidence(vec![conflicting], true);
    assert_eq!(
        term_publication_at(&unknown, "72026", Some(done), done + HOUR_NANOS),
        ServiceTermPublication::Unknown
    );
}

#[test]
fn the_stored_completion_time_is_read_as_rfc3339() {
    let present = evidence(vec![campus("72026", "NB", true)], true);
    let noon: i128 = 1_784_289_600 * 1_000_000_000;
    assert_eq!(
        product_term_publication(&present, "72026", noon),
        ServiceTermPublication::Published
    );
    let late = noon + HOUR_NANOS;
    assert_eq!(
        product_term_publication(&present, "72026", late),
        ServiceTermPublication::Unknown
    );
    let mut malformed = evidence(vec![campus("72026", "NB", true)], true);
    malformed.last_success_completed_at = Some("yesterday".to_owned());
    assert_eq!(
        product_term_publication(&malformed, "72026", noon),
        ServiceTermPublication::Unknown
    );
}

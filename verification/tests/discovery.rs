use bcsp_application::discovery_selection::{
    demanded_refresh_targets, discovery_failure_code, is_online_campus_alias,
    latest_candidate, product_refresh_terms, product_refresh_terms_from_persisted,
    scheduled_targets, scheduled_targets_from_persisted, selected_refresh_targets,
    DiscoverySelectionError, DiscoveryTransportErrorKind, LiveDiscoveryCampus,
    LiveDiscoveryTarget, LiveDiscoveryTerm, RefreshCandidate, StoredDiscoveryTarget,
    StoredDiscoveryTerm,
};
use bcsp_application::product_scope::{DiscoveredCampusEvidence, DiscoveredTermEvidence, PublishedDiscoveryEvidence, StoredFact};
use bcsp_application::target::TermCampusKey;

fn key(term: &str, campus: &str) -> TermCampusKey {
    TermCampusKey::new(term.to_owned(), campus.to_owned())
}

fn candidate(term: &str, campus: &str, year: u16, code: &str) -> RefreshCandidate {
    RefreshCandidate {
        target: key(term, campus),
        year: Some(year),
        term_code: Some(code.to_owned()),
    }
}

#[test]
fn default_refresh_selects_every_campus_in_latest_chronological_term() {
    let available = vec![
        candidate("12027", "NWK", 2027, "1"),
        candidate("92026", "NB", 2026, "9"),
        candidate("12027", "NB", 2027, "1"),
        candidate("92026", "CAMDEN", 2026, "9"),
    ];
    assert_eq!(latest_candidate(&available), Some(2));
    assert_eq!(selected_refresh_targets(&available, &[].to_vec()), vec![0, 2]);
    assert_eq!(selected_refresh_targets(&available, &vec![key("92026", "NB")]), vec![0, 1, 2]);
    assert_eq!(demanded_refresh_targets(&available, &vec![key("92026", "CAMDEN")]), vec![3]);
    assert!(selected_refresh_targets(&vec![], &vec![]).is_empty());
}

#[test]
fn online_aliases_are_recognized_in_any_case() {
    assert!(is_online_campus_alias("ONLINE_NB"));
    assert!(is_online_campus_alias("online_cm"));
    assert!(!is_online_campus_alias("ONLINE"));
    assert!(!is_online_campus_alias("NB"));
}

fn live_term(id: &str, published: Option<bool>) -> LiveDiscoveryTerm {
    LiveDiscoveryTerm { term_id: id.to_owned(), published }
}

fn live_target(term: &str, campus: &str, enabled: Option<bool>) -> LiveDiscoveryTarget {
    LiveDiscoveryTarget { key: key(term, campus), enabled }
}

#[test]
fn live_discovery_schedules_enabled_targets_of_published_terms() {
    let terms = vec![live_term("92026", Some(true)), live_term("12027", Some(false))];
    let targets = vec![
        live_target("92026", "NB", Some(true)),
        live_target("92026", "ONLINE_NB", Some(true)),
        live_target("92026", "NK", Some(false)),
        live_target("12027", "NB", Some(true)),
        live_target("92026", "CM", Some(true)),
    ];
    assert_eq!(scheduled_targets(&targets, &terms), Ok(vec![(0, 0), (4, 0)]));
    let orphan = vec![live_target("72026", "NB", Some(true))];
    assert_eq!(
        scheduled_targets(&orphan, &terms),
        Err(DiscoverySelectionError::TargetWithoutTerm(key("72026", "NB")))
    );
}

#[test]
fn one_affirmative_main_campus_expands_to_exactly_nb_nk_cm_and_restores_identically() {
    let terms = vec![live_term("92026", Some(true)), live_term("12027", Some(true))];
    let targets = vec![live_target("92026", "NB", Some(true)), live_target("12027", "NWK", Some(true))];
    let campuses = vec![
        LiveDiscoveryCampus { campus_code: "NB".to_owned(), enabled: Some(true) },
        LiveDiscoveryCampus { campus_code: "NWK".to_owned(), enabled: Some(true) },
    ];
    assert_eq!(product_refresh_terms(&terms, &targets, &campuses), vec![0]);
    let fact = |v: bool| Some(StoredFact { state: Some("VALUE".to_owned()), value: Some(v) });
    let stored = PublishedDiscoveryEvidence {
        last_success_completed_at: None,
        terms: vec![
            DiscoveredTermEvidence { term_id: "92026".to_owned(), published: Some(true), published_fact: fact(true) },
            DiscoveredTermEvidence { term_id: "12027".to_owned(), published: Some(true), published_fact: fact(true) },
        ],
        campuses: vec![
            DiscoveredCampusEvidence {
                target: key("92026", "NB"),
                enabled: Some(true),
                campus_enabled_fact: fact(true),
                target_enabled_fact: fact(true),
            },
            DiscoveredCampusEvidence {
                target: key("12027", "NB"),
                enabled: Some(true),
                campus_enabled_fact: fact(false),
                target_enabled_fact: fact(true),
            },
        ],
    };
    assert_eq!(product_refresh_terms_from_persisted(&stored), vec![0]);
}

fn stored_term(id: &str, source: &str) -> StoredDiscoveryTerm {
    StoredDiscoveryTerm { term_id: id.to_owned(), published: Some(true), source_version_id: source.to_owned() }
}

fn stored_target(term: &str, campus: &str, source: &str) -> StoredDiscoveryTarget {
    StoredDiscoveryTarget { target: key(term, campus), enabled: Some(true), source_version_id: source.to_owned() }
}

#[test]
fn stored_discovery_checks_every_reference() {
    let sources = vec!["s1".to_owned()];
    let terms = vec![stored_term("92026", "s1")];
    assert_eq!(
        scheduled_targets_from_persisted(&sources, &vec![stored_target("92026", "NB", "s1")], &terms),
        Ok(vec![(0, 0)])
    );
    assert_eq!(
        scheduled_targets_from_persisted(&vec!["s1".to_owned(), "s1".to_owned()], &vec![], &terms),
        Err(DiscoverySelectionError::DuplicateSourceVersion)
    );
    assert_eq!(
        scheduled_targets_from_persisted(&sources, &vec![stored_target("92026", "NB", "s2")], &terms),
        Err(DiscoverySelectionError::TargetSourceOwnershipMismatch(key("92026", "NB")))
    );
    assert_eq!(
        scheduled_targets_from_persisted(&sources, &vec![stored_target("12027", "NB", "s1")], &terms),
        Err(DiscoverySelectionError::TargetWithoutTerm(key("12027", "NB")))
    );
    let foreign = vec![stored_term("92026", "s9")];
    assert_eq!(
        scheduled_targets_from_persisted(&sources, &vec![stored_target("92026", "NB", "s9")], &foreign),
        Err(DiscoverySelectionError::UnknownSourceVersion)
    );
}

#[test]
fn discovery_failures_have_their_codes() {
    assert_eq!(discovery_failure_code(DiscoveryTransportErrorKind::Timeout), "DISCOVERY_UPSTREAM_TIMEOUT");
    assert_eq!(discovery_failure_code(DiscoveryTransportErrorKind::Network), "DISCOVERY_UPSTREAM_NETWORK");
    assert_eq!(discovery_failure_code(DiscoveryTransportErrorKind::NonSuccessHttp), "DISCOVERY_UPSTREAM_HTTP");
    assert_eq!(discovery_failure_code(DiscoveryTransportErrorKind::Redirect), "DISCOVERY_UPSTREAM_PROTOCOL");
}

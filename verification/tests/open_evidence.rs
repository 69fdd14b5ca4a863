use bcsp_application::open_evidence::{evidence_fresh, materialize_open_uncertainty};

#[derive(Clone, Copy, Debug, Eq, PartialEq)]
enum MatchReason {
    SourceUnavailable,
    UnknownSchedule,
}

const FRESH_UNTIL: i128 = 1_784_332_800_000_000_000;

#[test]
fn request_now_materializes_fresh_until_at_the_exact_boundary() {
    assert_eq!(
        materialize_open_uncertainty(true, Some(FRESH_UNTIL), FRESH_UNTIL, None, MatchReason::SourceUnavailable),
        None
    );
    assert_eq!(
        materialize_open_uncertainty(
            true,
            Some(FRESH_UNTIL),
            FRESH_UNTIL + 1,
            None,
            MatchReason::SourceUnavailable
        ),
        Some(MatchReason::SourceUnavailable)
    );
}

#[test]
fn stale_evidence_keeps_an_existing_reason_and_unobserved_evidence_is_never_fresh() {
    assert_eq!(
        materialize_open_uncertainty(
            true,
            Some(FRESH_UNTIL),
            FRESH_UNTIL + 1,
            Some(MatchReason::UnknownSchedule),
            MatchReason::SourceUnavailable
        ),
        Some(MatchReason::UnknownSchedule)
    );
    assert!(!evidence_fresh(false, Some(FRESH_UNTIL), 0));
    assert!(!evidence_fresh(true, None, 0));
    assert!(evidence_fresh(true, Some(FRESH_UNTIL), FRESH_UNTIL - 1));
}

//! The product's campus scope and the publication state of one product-window term.
use vstd::prelude::*;

use crate::target::{contains_key, insert_sorted, keys_of, keys_sorted, TermCampusKey};
use crate::text::{eq_ascii_nocase, eq_ignore_ascii_case, str_eq};

verus! {

/// The product campus codes, in their stable order.
pub const PRODUCT_CAMPUS_NB: &'static str = "NB";

pub const PRODUCT_CAMPUS_NK: &'static str = "NK";

pub const PRODUCT_CAMPUS_CM: &'static str = "CM";

/// The only Rutgers campus identities exposed by the product surface: NB, NK and CM.
pub fn product_campus_codes() -> (res: [&'static str; 3])
    ensures
        res[0]@ == PRODUCT_CAMPUS_NB@,
        res[1]@ == PRODUCT_CAMPUS_NK@,
        res[2]@ == PRODUCT_CAMPUS_CM@,
{
    [PRODUCT_CAMPUS_NB, PRODUCT_CAMPUS_NK, PRODUCT_CAMPUS_CM]
}

/// A campus is a product campus when it is NB, NK or CM up to ASCII case.
pub open spec fn spec_is_product_campus(campus: Seq<char>) -> bool {
    ||| eq_ascii_nocase(campus, PRODUCT_CAMPUS_NB@)
    ||| eq_ascii_nocase(campus, PRODUCT_CAMPUS_NK@)
    ||| eq_ascii_nocase(campus, PRODUCT_CAMPUS_CM@)
}

pub fn is_product_campus(campus: &str) -> (res: bool)
    ensures
        res == spec_is_product_campus(campus@),
{
    eq_ignore_ascii_case(campus, PRODUCT_CAMPUS_NB) || eq_ignore_ascii_case(
        campus,
        PRODUCT_CAMPUS_NK,
    ) || eq_ignore_ascii_case(campus, PRODUCT_CAMPUS_CM)
}

/// The three product targets of one term, in the stable NB, NK, CM order.
pub fn product_target_keys(term: &str) -> (res: Vec<TermCampusKey>)
    ensures
        res@.len() == 3,
        forall|i: int| 0 <= i < 3 ==> (#[trigger] res@[i]).spec_term() == term@,
        res@[0].spec_campus() == PRODUCT_CAMPUS_NB@,
        res@[1].spec_campus() == PRODUCT_CAMPUS_NK@,
        res@[2].spec_campus() == PRODUCT_CAMPUS_CM@,
{
    let mut keys = Vec::new();
    keys.push(TermCampusKey::new(term.to_owned(), PRODUCT_CAMPUS_NB.to_owned()));
    keys.push(TermCampusKey::new(term.to_owned(), PRODUCT_CAMPUS_NK.to_owned()));
    keys.push(TermCampusKey::new(term.to_owned(), PRODUCT_CAMPUS_CM.to_owned()));
    keys
}

/// A product target of one of the visible terms: the term is visible and the campus is NB,
/// NK or CM.
pub open spec fn is_window_target(terms: Seq<String>, k: (Seq<char>, Seq<char>)) -> bool {
    &&& exists|i: int| 0 <= i < terms.len() && (#[trigger] terms[i])@ == k.0
    &&& (k.1 == PRODUCT_CAMPUS_NB@ || k.1 == PRODUCT_CAMPUS_NK@ || k.1 == PRODUCT_CAMPUS_CM@)
}

/// The product targets of the visible terms, as a sorted set.
pub fn window_product_targets(visible_terms: &Vec<String>) -> (res: Vec<TermCampusKey>)
    ensures
        keys_sorted(keys_of(res@)),
        forall|k: (Seq<char>, Seq<char>)|
            #[trigger] keys_of(res@).contains(k) == is_window_target(visible_terms@, k),
{
    let mut res: Vec<TermCampusKey> = Vec::new();
    let mut i: usize = 0;
    while i < visible_terms.len()
        invariant
            i <= visible_terms@.len(),
            keys_sorted(keys_of(res@)),
            forall|k: (Seq<char>, Seq<char>)|
                #[trigger] keys_of(res@).contains(k) == is_window_target(
                    visible_terms@.subrange(0, i as int),
                    k,
                ),
        decreases visible_terms.len() - i,
    {
        let keys = product_target_keys(visible_terms[i].as_str());
        let ghost before = keys_of(res@);
        insert_sorted(&mut res, &keys[0]);
        insert_sorted(&mut res, &keys[1]);
        insert_sorted(&mut res, &keys[2]);
        proof {
            let prev = visible_terms@.subrange(0, i as int);
            let next = visible_terms@.subrange(0, i + 1);
            assert forall|k: (Seq<char>, Seq<char>)|
                #[trigger] keys_of(res@).contains(k) == is_window_target(next, k) by {
                assert(keys@[0].spec_key() == (visible_terms@[i as int]@, PRODUCT_CAMPUS_NB@));
                assert(keys@[1].spec_key() == (visible_terms@[i as int]@, PRODUCT_CAMPUS_NK@));
                assert(keys@[2].spec_key() == (visible_terms@[i as int]@, PRODUCT_CAMPUS_CM@));
                if is_window_target(next, k) {
                    let j = choose|j: int| 0 <= j < next.len() && (#[trigger] next[j])@ == k.0;
                    if j < i {
                        assert(prev[j] == next[j]);
                        assert(is_window_target(prev, k));
                    }
                }
                if is_window_target(prev, k) {
                    let j = choose|j: int| 0 <= j < prev.len() && (#[trigger] prev[j])@ == k.0;
                    assert(next[j] == prev[j]);
                }
                if keys_of(res@).contains(k) && !before.contains(k) {
                    assert(next[i as int] == visible_terms@[i as int]);
                }
            }
        }
        i = i + 1;
    }
    proof {
        assert(visible_terms@.subrange(0, visible_terms@.len() as int) =~= visible_terms@);
    }
    res
}

/// The discovered targets that the window allows and that are product campuses, as a sorted
/// set.
pub fn discovered_window_targets(allowed: &Vec<TermCampusKey>, discovered: &Vec<TermCampusKey>) -> (res:
    Vec<TermCampusKey>)
    ensures
        keys_sorted(keys_of(res@)),
        forall|k: (Seq<char>, Seq<char>)|
            #[trigger] keys_of(res@).contains(k) == (keys_of(discovered@).contains(k) && keys_of(
                allowed@,
            ).contains(k) && spec_is_product_campus(k.1)),
{
    let mut res: Vec<TermCampusKey> = Vec::new();
    let mut i: usize = 0;
    while i < discovered.len()
        invariant
            i <= discovered@.len(),
            keys_sorted(keys_of(res@)),
            forall|k: (Seq<char>, Seq<char>)|
                #[trigger] keys_of(res@).contains(k) == (keys_of(discovered@.subrange(0, i as int)).contains(k)
                    && keys_of(allowed@).contains(k) && spec_is_product_campus(k.1)),
        decreases discovered.len() - i,
    {
        let t = &discovered[i];
        let ghost before = keys_of(res@);
        let ghost key = t.spec_key();
        let allowed_here = contains_key(allowed, t);
        proof {
            if allowed_here {
                let j = choose|j: int| 0 <= j < allowed@.len() && (#[trigger] allowed@[j]).spec_key() == key;
                assert(keys_of(allowed@)[j] == key);
            }
            if keys_of(allowed@).contains(key) {
                let j = choose|j: int| 0 <= j < keys_of(allowed@).len() && keys_of(allowed@)[j] == key;
                assert(allowed@[j].spec_key() == key);
            }
        }
        if allowed_here && is_product_campus(t.campus()) {
            insert_sorted(&mut res, t);
        }
        proof {
            let prev = keys_of(discovered@.subrange(0, i as int));
            let next = keys_of(discovered@.subrange(0, i + 1));
            assert(next =~= prev.push(t.spec_key()));
            assert forall|k: (Seq<char>, Seq<char>)| #[trigger] next.contains(k) == (prev.contains(k) || k == t.spec_key()) by {
                if next.contains(k) && !prev.contains(k) {
                    let j = choose|j: int| 0 <= j < next.len() && next[j] == k;
                    if j < prev.len() {
                        assert(prev[j] == next[j]);
                    }
                }
                if prev.contains(k) {
                    let j = choose|j: int| 0 <= j < prev.len() && prev[j] == k;
                    assert(next[j] == prev[j]);
                }
                if k == t.spec_key() {
                    assert(next[i as int] == k);
                }
            }
        }
        i = i + 1;
    }
    proof {
        assert(discovered@.subrange(0, discovered@.len() as int) =~= discovered@);
    }
    res
}

/// Nanoseconds in one discovery interval (six hours): the longest a successful discovery
/// stays authoritative.
pub const DISCOVERY_MAX_AGE_NANOS: i128 = 21600000000000;

/// The publication state of a product-window term.
#[derive(Clone, Copy, Debug, Eq, PartialEq, Structural)]
pub enum ServiceTermPublication {
    Published,
    Unpublished,
    Unknown,
}

/// One stored boolean fact: its `state` text and its `value`, where present.
#[derive(Clone, Debug, Eq, PartialEq)]
pub struct StoredFact {
    pub state: Option<String>,
    pub value: Option<bool>,
}

/// What a stored boolean fact proves.
#[derive(Clone, Copy, Debug, Eq, PartialEq, Structural)]
pub enum BoolEvidence {
    True,
    False,
    Indeterminate,
}

/// A fact proves a value only when it is present, its state is `VALUE` and it holds a bool.
pub open spec fn spec_stored_bool_fact(fact: Option<StoredFact>) -> BoolEvidence {
    match fact {
        None => BoolEvidence::Indeterminate,
        Some(f) => if f.state is Some && f.state->0@ == "VALUE"@ {
            match f.value {
                Some(true) => BoolEvidence::True,
                Some(false) => BoolEvidence::False,
                None => BoolEvidence::Indeterminate,
            }
        } else {
            BoolEvidence::Indeterminate
        },
    }
}

/// The stored fact and the projected column must agree to prove anything.
pub open spec fn spec_consistent_stored_bool(
    fact: Option<StoredFact>,
    projected: Option<bool>,
) -> BoolEvidence {
    match (spec_stored_bool_fact(fact), projected) {
        (BoolEvidence::True, Some(true)) => BoolEvidence::True,
        (BoolEvidence::False, Some(false)) => BoolEvidence::False,
        _ => BoolEvidence::Indeterminate,
    }
}

pub fn stored_bool_fact(fact: &Option<StoredFact>) -> (res: BoolEvidence)
    ensures
        res == spec_stored_bool_fact(*fact),
{
    match fact {
        None => BoolEvidence::Indeterminate,
        Some(f) => {
            let is_value = match &f.state {
                Some(state) => str_eq(state.as_str(), "VALUE"),
                None => false,
            };
            if !is_value {
                return BoolEvidence::Indeterminate;
            }
            match f.value {
                Some(true) => BoolEvidence::True,
                Some(false) => BoolEvidence::False,
                None => BoolEvidence::Indeterminate,
            }
        },
    }
}

pub fn consistent_stored_bool(fact: &Option<StoredFact>, projected: Option<bool>) -> (res:
    BoolEvidence)
    ensures
        res == spec_consistent_stored_bool(*fact, projected),
{
    match (stored_bool_fact(fact), projected) {
        (BoolEvidence::True, Some(true)) => BoolEvidence::True,
        (BoolEvidence::False, Some(false)) => BoolEvidence::False,
        _ => BoolEvidence::Indeterminate,
    }
}

/// Whether a stored presence fact affirmatively proves `true`.
pub fn stored_presence_is_true(fact: &Option<StoredFact>) -> (res: bool)
    ensures
        res == (spec_stored_bool_fact(*fact) == BoolEvidence::True),
{
    match stored_bool_fact(fact) {
        BoolEvidence::True => true,
        _ => false,
    }
}

/// One term of the last published discovery.
#[derive(Clone, Debug, Eq, PartialEq)]
pub struct DiscoveredTermEvidence {
    pub term_id: String,
    pub published: Option<bool>,
    pub published_fact: Option<StoredFact>,
}

/// One (term, campus) target of the last published discovery.
#[derive(Clone, Debug, Eq, PartialEq)]
pub struct DiscoveredCampusEvidence {
    pub target: TermCampusKey,
    pub enabled: Option<bool>,
    pub campus_enabled_fact: Option<StoredFact>,
    pub target_enabled_fact: Option<StoredFact>,
}

/// The last published discovery as the publication projection reads it.
#[derive(Clone, Debug, Eq, PartialEq)]
pub struct PublishedDiscoveryEvidence {
    /// RFC 3339 completion time of the last successful discovery, if any.
    pub last_success_completed_at: Option<String>,
    pub terms: Vec<DiscoveredTermEvidence>,
    pub campuses: Vec<DiscoveredCampusEvidence>,
}

pub open spec fn term_matches(t: DiscoveredTermEvidence, term: Seq<char>) -> bool {
    t.term_id@ == term
}

pub open spec fn target_matches(c: DiscoveredCampusEvidence, term: Seq<char>) -> bool {
    c.target.spec_term() == term && spec_is_product_campus(c.target.spec_campus())
}

pub open spec fn term_evidence_indeterminate(t: DiscoveredTermEvidence) -> bool {
    spec_consistent_stored_bool(t.published_fact, t.published) == BoolEvidence::Indeterminate
}

pub open spec fn target_evidence_indeterminate(c: DiscoveredCampusEvidence) -> bool {
    ||| spec_stored_bool_fact(c.campus_enabled_fact) == BoolEvidence::Indeterminate
    ||| spec_consistent_stored_bool(c.target_enabled_fact, c.enabled)
        == BoolEvidence::Indeterminate
}

/// The publication state of `term` given the completion time of the last successful
/// discovery (in Unix nanoseconds, when it parsed) and the present time: stale, future,
/// missing, duplicated or contradictory evidence is `Unknown`; a fresh discovery that names
/// none of the three product targets is `Unpublished`; a product target under an affirmatively
/// published term is `Published`.
pub open spec fn spec_term_publication(
    terms: Seq<DiscoveredTermEvidence>,
    campuses: Seq<DiscoveredCampusEvidence>,
    term: Seq<char>,
    completed_at: Option<i128>,
    now: i128,
) -> ServiceTermPublication {
    match completed_at {
        None => ServiceTermPublication::Unknown,
        Some(done) => if now - done < 0 || now - done > DISCOVERY_MAX_AGE_NANOS {
            ServiceTermPublication::Unknown
        } else if exists|i: int, j: int|
            0 <= i < j < terms.len() && term_matches(#[trigger] terms[i], term) && term_matches(
                #[trigger] terms[j],
                term,
            ) {
            ServiceTermPublication::Unknown
        } else if exists|i: int, j: int|
            0 <= i < j < campuses.len() && target_matches(#[trigger] campuses[i], term)
                && target_matches(#[trigger] campuses[j], term) && eq_ascii_nocase(
                campuses[i].target.spec_campus(),
                campuses[j].target.spec_campus(),
            ) {
            ServiceTermPublication::Unknown
        } else if exists|i: int|
            0 <= i < terms.len() && term_matches(#[trigger] terms[i], term)
                && term_evidence_indeterminate(terms[i]) {
            ServiceTermPublication::Unknown
        } else if exists|i: int|
            0 <= i < campuses.len() && target_matches(#[trigger] campuses[i], term)
                && target_evidence_indeterminate(campuses[i]) {
            ServiceTermPublication::Unknown
        } else if !exists|i: int|
            0 <= i < campuses.len() && target_matches(#[trigger] campuses[i], term) {
            ServiceTermPublication::Unpublished
        } else if exists|i: int|
            0 <= i < terms.len() && term_matches(#[trigger] terms[i], term)
                && spec_consistent_stored_bool(terms[i].published_fact, terms[i].published)
                == BoolEvidence::True {
            ServiceTermPublication::Published
        } else {
            ServiceTermPublication::Unknown
        },
    }
}

/// The time of `text` in Unix nanoseconds, when it is an RFC 3339 timestamp.
pub uninterp spec fn rfc3339_unix_nanos(text: Seq<char>) -> Option<i128>;

/// Parses an RFC 3339 timestamp with `time::OffsetDateTime::parse` and returns its
/// `unix_timestamp_nanos`; the contract only names the result.
#[verifier::external_body]
fn parse_rfc3339_unix_nanos(text: &str) -> (res: Option<i128>)
    ensures
        res == rfc3339_unix_nanos(text@),
{
    match time::OffsetDateTime::parse(text, &time::format_description::well_known::Rfc3339) {
        Ok(value) => Some(value.unix_timestamp_nanos()),
        Err(_) => None,
    }
}

fn campus_is_target(c: &DiscoveredCampusEvidence, term: &str) -> (res: bool)
    ensures
        res == target_matches(*c, term@),
{
    str_eq(c.target.term(), term) && is_product_campus(c.target.campus())
}

/// The publication state of `term` once the completion time has been read: see
/// [`spec_term_publication`].
pub fn term_publication_at(
    published: &PublishedDiscoveryEvidence,
    term: &str,
    completed_at: Option<i128>,
    now: i128,
) -> (res: ServiceTermPublication)
    ensures
        res == spec_term_publication(
            published.terms@,
            published.campuses@,
            term@,
            completed_at,
            now,
        ),
{
    let done = match completed_at {
        None => return ServiceTermPublication::Unknown,
        Some(done) => done,
    };
    if done > now {
        return ServiceTermPublication::Unknown;
    }
    match done.checked_add(DISCOVERY_MAX_AGE_NANOS) {
        Some(limit) => {
            if now > limit {
                return ServiceTermPublication::Unknown;
            }
        },
        None => {},
    }
    let terms = &published.terms;
    let campuses = &published.campuses;
    // At most one matching term; remember it.
    let mut term_index: Option<usize> = None;
    let mut i: usize = 0;
    while i < terms.len()
        invariant
            i <= terms@.len(),
            terms@ == published.terms@,
            match term_index {
                None => forall|k: int| 0 <= k < i ==> !term_matches(#[trigger] terms@[k], term@),
                Some(t) => t < i && term_matches(terms@[t as int], term@) && forall|k: int|
                    0 <= k < i && k != t ==> !term_matches(#[trigger] terms@[k], term@),
            },
        decreases terms.len() - i,
    {
        if str_eq(terms[i].term_id.as_str(), term) {
            match term_index {
                Some(t) => {
                    assert(term_matches(terms@[t as int], term@) && term_matches(
                        terms@[i as int],
                        term@,
                    ));
                    assert(exists|x: int, y: int|
                        0 <= x < y < terms@.len() && term_matches(#[trigger] terms@[x], term@)
                            && term_matches(#[trigger] terms@[y], term@));
                    return ServiceTermPublication::Unknown;
                },
                None => {
                    term_index = Some(i);
                },
            }
        }
        i = i + 1;
    }
    // No two matching product targets share a campus up to ASCII case.
    let mut a: usize = 0;
    while a < campuses.len()
        invariant
            a <= campuses@.len(),
            campuses@ == published.campuses@,
            forall|x: int, y: int|
                0 <= x < y < campuses@.len() && x < a && target_matches(
                    #[trigger] campuses@[x],
                    term@,
                ) && target_matches(#[trigger] campuses@[y], term@) ==> !eq_ascii_nocase(
                    campuses@[x].target.spec_campus(),
                    campuses@[y].target.spec_campus(),
                ),
        decreases campuses.len() - a,
    {
        if campus_is_target(&campuses[a], term) {
            let mut b: usize = a + 1;
            while b < campuses.len()
                invariant
                    a < b <= campuses@.len(),
                    campuses@ == published.campuses@,
                    target_matches(campuses@[a as int], term@),
                    forall|x: int, y: int|
                        0 <= x < y < campuses@.len() && x < a && target_matches(
                            #[trigger] campuses@[x],
                            term@,
                        ) && target_matches(#[trigger] campuses@[y], term@) ==> !eq_ascii_nocase(
                            campuses@[x].target.spec_campus(),
                            campuses@[y].target.spec_campus(),
                        ),
                    forall|y: int|
                        a < y < b && target_matches(#[trigger] campuses@[y], term@)
                            ==> !eq_ascii_nocase(
                            campuses@[a as int].target.spec_campus(),
                            campuses@[y].target.spec_campus(),
                        ),
                decreases campuses.len() - b,
            {
                if campus_is_target(&campuses[b], term) && eq_ignore_ascii_case(
                    campuses[a].target.campus(),
                    campuses[b].target.campus(),
                ) {
                    return ServiceTermPublication::Unknown;
                }
                b = b + 1;
            }
        }
        a = a + 1;
    }
    // The matching term, if any, must prove its published flag consistently.
    let term_published = match term_index {
        Some(t) => {
            let value = consistent_stored_bool(&terms[t].published_fact, terms[t].published);
            if value == BoolEvidence::Indeterminate {
                assert(term_matches(terms@[t as int], term@) && term_evidence_indeterminate(
                    terms@[t as int],
                ));
                return ServiceTermPublication::Unknown;
            }
            Some(value)
        },
        None => None,
    };
    // Every matching target must prove both enabled flags.
    let mut any_target = false;
    let mut c: usize = 0;
    while c < campuses.len()
        invariant
            c <= campuses@.len(),
            campuses@ == published.campuses@,
            forall|k: int|
                0 <= k < c && target_matches(#[trigger] campuses@[k], term@)
                    ==> !target_evidence_indeterminate(campuses@[k]),
            any_target == exists|k: int| 0 <= k < c && target_matches(#[trigger] campuses@[k], term@),
        decreases campuses.len() - c,
    {
        if campus_is_target(&campuses[c], term) {
            let campus_enabled = stored_bool_fact(&campuses[c].campus_enabled_fact);
            let target_enabled = consistent_stored_bool(
                &campuses[c].target_enabled_fact,
                campuses[c].enabled,
            );
            if campus_enabled == BoolEvidence::Indeterminate || target_enabled
                == BoolEvidence::Indeterminate {
                return ServiceTermPublication::Unknown;
            }
            any_target = true;
        }
        c = c + 1;
    }
    if !any_target {
        return ServiceTermPublication::Unpublished;
    }
    match term_published {
        Some(BoolEvidence::True) => ServiceTermPublication::Published,
        _ => ServiceTermPublication::Unknown,
    }
}

/// The completion time the projection reads: the parsed `last_success_completed_at`.
pub open spec fn spec_completed_at(published: PublishedDiscoveryEvidence) -> Option<i128> {
    match published.last_success_completed_at {
        None => None,
        Some(text) => rfc3339_unix_nanos(text@),
    }
}

/// Projects the publication evidence for one product-window term at `now` (Unix
/// nanoseconds).
pub fn product_term_publication(
    published: &PublishedDiscoveryEvidence,
    term: &str,
    now: i128,
) -> (res: ServiceTermPublication)
    ensures
        res == spec_term_publication(
            published.terms@,
            published.campuses@,
            term@,
            spec_completed_at(*published),
            now,
        ),
{
    let completed_at = match &published.last_success_completed_at {
        None => None,
        Some(text) => parse_rfc3339_unix_nanos(text.as_str()),
    };
    term_publication_at(published, term, completed_at, now)
}

/// One of the product campuses NB, NK and CM, in any letter case.
pub open spec fn names_product_campus(campus: Seq<char>) -> bool {
    ||| eq_ascii_nocase(campus, seq!['N', 'B'])
    ||| eq_ascii_nocase(campus, seq!['N', 'K'])
    ||| eq_ascii_nocase(campus, seq!['C', 'M'])
}

proof fn lemma_product_campus_literals()
    ensures
        forall|c: Seq<char>| #[trigger] spec_is_product_campus(c) == names_product_campus(c),
{
    reveal_strlit("NB");
    reveal_strlit("NK");
    reveal_strlit("CM");
    assert(PRODUCT_CAMPUS_NB@ =~= seq!['N', 'B']);
    assert(PRODUCT_CAMPUS_NK@ =~= seq!['N', 'K']);
    assert(PRODUCT_CAMPUS_CM@ =~= seq!['C', 'M']);
}

/// The publication of a term reads only the product campuses: adding a discovery entry for
/// any other campus never changes it.
pub proof fn lemma_non_product_campus_is_ignored(
    terms: Seq<DiscoveredTermEvidence>,
    campuses: Seq<DiscoveredCampusEvidence>,
    extra: DiscoveredCampusEvidence,
    term: Seq<char>,
    completed_at: Option<i128>,
    now: i128,
)
    requires
        !names_product_campus(extra.target.spec_campus()),
    ensures
        spec_term_publication(terms, campuses.push(extra), term, completed_at, now)
            == spec_term_publication(terms, campuses, term, completed_at, now),
{
    lemma_product_campus_literals();
    let more = campuses.push(extra);
    let n = campuses.len() as int;
    assert(!target_matches(more[n], term));
    assert forall|i: int| 0 <= i < n implies #[trigger] more[i] == campuses[i] by {}
    // Each condition over the entries holds of `more` exactly when it holds of `campuses`.
    if exists|i: int, j: int|
        0 <= i < j < more.len() && target_matches(#[trigger] more[i], term) && target_matches(
            #[trigger] more[j],
            term,
        ) && eq_ascii_nocase(more[i].target.spec_campus(), more[j].target.spec_campus()) {
        let (i, j) = choose|i: int, j: int|
            0 <= i < j < more.len() && target_matches(#[trigger] more[i], term) && target_matches(
                #[trigger] more[j],
                term,
            ) && eq_ascii_nocase(more[i].target.spec_campus(), more[j].target.spec_campus());
        assert(j < n);
        assert(target_matches(campuses[i], term) && target_matches(campuses[j], term));
    }
    if exists|i: int, j: int|
        0 <= i < j < campuses.len() && target_matches(#[trigger] campuses[i], term)
            && target_matches(#[trigger] campuses[j], term) && eq_ascii_nocase(
            campuses[i].target.spec_campus(),
            campuses[j].target.spec_campus(),
        ) {
        let (i, j) = choose|i: int, j: int|
            0 <= i < j < campuses.len() && target_matches(#[trigger] campuses[i], term)
                && target_matches(#[trigger] campuses[j], term) && eq_ascii_nocase(
                campuses[i].target.spec_campus(),
                campuses[j].target.spec_campus(),
            );
        assert(target_matches(more[i], term) && target_matches(more[j], term));
    }
    if exists|i: int|
        0 <= i < more.len() && target_matches(#[trigger] more[i], term)
            && target_evidence_indeterminate(more[i]) {
        let i = choose|i: int|
            0 <= i < more.len() && target_matches(#[trigger] more[i], term)
                && target_evidence_indeterminate(more[i]);
        assert(target_matches(campuses[i], term));
    }
    if exists|i: int|
        0 <= i < campuses.len() && target_matches(#[trigger] campuses[i], term)
            && target_evidence_indeterminate(campuses[i]) {
        let i = choose|i: int|
            0 <= i < campuses.len() && target_matches(#[trigger] campuses[i], term)
                && target_evidence_indeterminate(campuses[i]);
        assert(target_matches(more[i], term));
    }
    if exists|i: int| 0 <= i < more.len() && target_matches(#[trigger] more[i], term) {
        let i = choose|i: int| 0 <= i < more.len() && target_matches(#[trigger] more[i], term);
        assert(target_matches(campuses[i], term));
    }
    if exists|i: int| 0 <= i < campuses.len() && target_matches(#[trigger] campuses[i], term) {
        let i = choose|i: int| 0 <= i < campuses.len() && target_matches(#[trigger] campuses[i], term);
        assert(target_matches(more[i], term));
    }
}

/// A fresh discovery whose term evidence is single and consistent, and which lists no
/// product campus (NB, NK or CM, in any letter case) for the term, makes the term
/// unpublished, whatever other campuses it lists.
pub proof fn lemma_no_product_campus_is_unpublished(
    terms: Seq<DiscoveredTermEvidence>,
    campuses: Seq<DiscoveredCampusEvidence>,
    term: Seq<char>,
    done: i128,
    now: i128,
)
    requires
        0 <= now - done <= DISCOVERY_MAX_AGE_NANOS,
        forall|i: int, j: int|
            0 <= i < j < terms.len() ==> !(#[trigger] terms[i].term_id@ == term && #[trigger] terms[j].term_id@ == term),
        forall|i: int|
            0 <= i < terms.len() && (#[trigger] terms[i]).term_id@ == term ==> spec_consistent_stored_bool(
                terms[i].published_fact,
                terms[i].published,
            ) != BoolEvidence::Indeterminate,
        forall|i: int|
            0 <= i < campuses.len() && (#[trigger] campuses[i]).target.spec_term() == term
                ==> !names_product_campus(campuses[i].target.spec_campus()),
    ensures
        spec_term_publication(terms, campuses, term, Some(done), now)
            == ServiceTermPublication::Unpublished,
{
    lemma_product_campus_literals();
    assert forall|i: int| 0 <= i < campuses.len() implies !target_matches(#[trigger] campuses[i], term) by {}
    assert forall|i: int, j: int|
        0 <= i < j < terms.len() implies !(term_matches(#[trigger] terms[i], term) && term_matches(
        #[trigger] terms[j],
        term,
    )) by {}
}

/// Without a completed discovery, or when the last one completed in the future or more than
/// six hours (21 600 000 000 000 ns) ago, no term's publication is known.
pub proof fn lemma_stale_discovery_is_unknown(
    terms: Seq<DiscoveredTermEvidence>,
    campuses: Seq<DiscoveredCampusEvidence>,
    term: Seq<char>,
    completed_at: Option<i128>,
    now: i128,
)
    requires
        completed_at is None || now < completed_at->0 || now - completed_at->0 > 21600000000000,
    ensures
        spec_term_publication(terms, campuses, term, completed_at, now)
            == ServiceTermPublication::Unknown,
{
}

} // verus!

//! Which discovered targets the refresh supervisor schedules.
//!
//! A discovery names terms (with whether Rutgers has published them), (term, campus) targets
//! (with whether they are enabled) and the campuses. Scheduling keeps every enabled target of a
//! published term, except the online campus aliases. The product-only schedule keeps, for each
//! published term that has an enabled product target on an enabled campus, the three product
//! targets. Both read the discovery in its own order and report the first broken reference.
use vstd::prelude::*;

use crate::product_scope::{spec_is_product_campus, is_product_campus, stored_presence_is_true, spec_stored_bool_fact, BoolEvidence, PublishedDiscoveryEvidence};
use crate::target::{keys_of, TermCampusKey};
use crate::text::{eq_ascii_nocase, eq_ignore_ascii_case, lemma_seq_lt_irreflexive, lemma_seq_lt_total, lemma_seq_lt_transitive, seq_lt, str_eq, str_lt};

verus! {

/// The online campus aliases, which are never scheduled as targets of their own.
pub const ONLINE_CAMPUS_ALIASES: [&'static str; 3] = ["ONLINE_NB", "ONLINE_NK", "ONLINE_CM"];

/// Whether `campus` is an online alias, in any letter case.
pub open spec fn spec_is_online_alias(campus: Seq<char>) -> bool {
    ||| eq_ascii_nocase(campus, "ONLINE_NB"@)
    ||| eq_ascii_nocase(campus, "ONLINE_NK"@)
    ||| eq_ascii_nocase(campus, "ONLINE_CM"@)
}

/// Whether `campus` is an online alias, in any letter case.
pub fn is_online_campus_alias(campus: &str) -> (res: bool)
    ensures
        res == spec_is_online_alias(campus@),
{
    let r = eq_ignore_ascii_case(campus, "ONLINE_NB") || eq_ignore_ascii_case(campus, "ONLINE_NK")
        || eq_ignore_ascii_case(campus, "ONLINE_CM");
    proof {
        reveal_strlit("ONLINE_NB");
        reveal_strlit("ONLINE_NK");
        reveal_strlit("ONLINE_CM");
    }
    r
}

/// A term of a live discovery.
pub struct LiveDiscoveryTerm {
    pub term_id: String,
    pub published: Option<bool>,
}

/// A (term, campus) target of a live discovery.
pub struct LiveDiscoveryTarget {
    pub key: TermCampusKey,
    pub enabled: Option<bool>,
}

/// A campus of a live discovery.
pub struct LiveDiscoveryCampus {
    pub campus_code: String,
    pub enabled: Option<bool>,
}

/// A term of the stored (published) discovery.
pub struct StoredDiscoveryTerm {
    pub term_id: String,
    pub published: Option<bool>,
    pub source_version_id: String,
}

/// A (term, campus) target of the stored discovery.
pub struct StoredDiscoveryTarget {
    pub target: TermCampusKey,
    pub enabled: Option<bool>,
    pub source_version_id: String,
}

/// Why the targets of a discovery could not be scheduled.
#[derive(Clone, Debug, Eq, PartialEq)]
pub enum DiscoverySelectionError {
    TargetWithoutTerm(TermCampusKey),
    TargetSourceOwnershipMismatch(TermCampusKey),
    DuplicateSourceVersion,
    UnknownSourceVersion,
}

/// `i` is the first term with id `term`.
pub open spec fn is_first_live_term(terms: Seq<LiveDiscoveryTerm>, term: Seq<char>, i: int) -> bool {
    0 <= i < terms.len() && terms[i].term_id@ == term && forall|j: int|
        0 <= j < i ==> (#[trigger] terms[j]).term_id@ != term
}

/// `i` is the first stored term with id `term`.
pub open spec fn is_first_stored_term(terms: Seq<StoredDiscoveryTerm>, term: Seq<char>, i: int) -> bool {
    0 <= i < terms.len() && terms[i].term_id@ == term && forall|j: int|
        0 <= j < i ==> (#[trigger] terms[j]).term_id@ != term
}

/// The first term with id `term`, if any.
pub open spec fn find_live_term(terms: Seq<LiveDiscoveryTerm>, term: Seq<char>) -> Option<int> {
    if exists|i: int| is_first_live_term(terms, term, i) {
        Some(choose|i: int| is_first_live_term(terms, term, i))
    } else {
        None
    }
}

/// The first stored term with id `term`, if any.
pub open spec fn find_stored_term(terms: Seq<StoredDiscoveryTerm>, term: Seq<char>) -> Option<int> {
    if exists|i: int| is_first_stored_term(terms, term, i) {
        Some(choose|i: int| is_first_stored_term(terms, term, i))
    } else {
        None
    }
}

/// The scheduled (target, term) index pairs of the first `n` live targets, or the first
/// target whose term is missing.
pub open spec fn live_schedule(
    targets: Seq<LiveDiscoveryTarget>,
    terms: Seq<LiveDiscoveryTerm>,
    n: nat,
) -> Result<Seq<(int, int)>, (Seq<char>, Seq<char>)>
    decreases n,
{
    if n == 0 {
        Ok(Seq::empty())
    } else {
        let i = n - 1;
        match live_schedule(targets, terms, (n - 1) as nat) {
            Err(k) => Err(k),
            Ok(pairs) => {
                let t = targets[i];
                if t.enabled != Some(true) || spec_is_online_alias(t.key.spec_campus()) {
                    Ok(pairs)
                } else {
                    match find_live_term(terms, t.key.spec_term()) {
                        None => Err(t.key.spec_key()),
                        Some(ti) => if terms[ti].published == Some(true) {
                            Ok(pairs.push((i, ti)))
                        } else {
                            Ok(pairs)
                        },
                    }
                }
            },
        }
    }
}

fn find_live_term_index(terms: &Vec<LiveDiscoveryTerm>, term: &str) -> (res: Option<usize>)
    ensures
        match res {
            Some(i) => find_live_term(terms@, term@) == Some(i as int),
            None => find_live_term(terms@, term@) is None,
        },
{
    let mut i: usize = 0;
    while i < terms.len()
        invariant
            i <= terms@.len(),
            forall|j: int| 0 <= j < i ==> (#[trigger] terms@[j]).term_id@ != term@,
        decreases terms.len() - i,
    {
        if str_eq(terms[i].term_id.as_str(), term) {
            proof {
                assert(is_first_live_term(terms@, term@, i as int));
                let k = choose|k: int| is_first_live_term(terms@, term@, k);
                if k < i {
                    assert(terms@[k].term_id@ == term@);
                } else if k > i {
                    assert(terms@[i as int].term_id@ == term@);
                }
            }
            return Some(i);
        }
        i = i + 1;
    }
    proof {
        if exists|k: int| is_first_live_term(terms@, term@, k) {
            let k = choose|k: int| is_first_live_term(terms@, term@, k);
            assert(terms@[k].term_id@ == term@);
        }
    }
    None
}

fn find_stored_term_index(terms: &Vec<StoredDiscoveryTerm>, term: &str) -> (res: Option<usize>)
    ensures
        match res {
            Some(i) => find_stored_term(terms@, term@) == Some(i as int),
            None => find_stored_term(terms@, term@) is None,
        },
{
    let mut i: usize = 0;
    while i < terms.len()
        invariant
            i <= terms@.len(),
            forall|j: int| 0 <= j < i ==> (#[trigger] terms@[j]).term_id@ != term@,
        decreases terms.len() - i,
    {
        if str_eq(terms[i].term_id.as_str(), term) {
            proof {
                assert(is_first_stored_term(terms@, term@, i as int));
                let k = choose|k: int| is_first_stored_term(terms@, term@, k);
                if k < i {
                    assert(terms@[k].term_id@ == term@);
                } else if k > i {
                    assert(terms@[i as int].term_id@ == term@);
                }
            }
            return Some(i);
        }
        i = i + 1;
    }
    proof {
        if exists|k: int| is_first_stored_term(terms@, term@, k) {
            let k = choose|k: int| is_first_stored_term(terms@, term@, k);
            assert(terms@[k].term_id@ == term@);
        }
    }
    None
}

/// The targets a live discovery schedules, as (target index, term index) pairs in target
/// order: every enabled target of a published term, except online aliases. A scheduled-looking
/// target whose term the discovery does not list fails the whole selection.
pub fn scheduled_targets(targets: &Vec<LiveDiscoveryTarget>, terms: &Vec<LiveDiscoveryTerm>) -> (res:
    Result<Vec<(usize, usize)>, DiscoverySelectionError>)
    ensures
        match live_schedule(targets@, terms@, targets@.len()) {
            Ok(pairs) => match res {
                Ok(r) => r@.len() == pairs.len() && forall|j: int|
                    0 <= j < pairs.len() ==> (#[trigger] r@[j]).0 == pairs[j].0 && r@[j].1
                        == pairs[j].1,
                Err(_) => false,
            },
            Err(key) => match res {
                Err(DiscoverySelectionError::TargetWithoutTerm(t)) => t.spec_key() == key,
                _ => false,
            },
        },
{
    let mut res: Vec<(usize, usize)> = Vec::new();
    let mut i: usize = 0;
    while i < targets.len()
        invariant
            i <= targets@.len(),
            live_schedule(targets@, terms@, i as nat) is Ok,
            res@.len() == live_schedule(targets@, terms@, i as nat)->Ok_0.len(),
            forall|j: int|
                0 <= j < res@.len() ==> (#[trigger] res@[j]).0 == live_schedule(
                    targets@,
                    terms@,
                    i as nat,
                )->Ok_0[j].0 && res@[j].1 == live_schedule(targets@, terms@, i as nat)->Ok_0[j].1,
        decreases targets.len() - i,
    {
        let t = &targets[i];
        let skip = match t.enabled {
            Some(e) => !e,
            None => true,
        } || is_online_campus_alias(t.key.campus());
        if !skip {
            match find_live_term_index(terms, t.key.term()) {
                None => {
                    proof {
                        assert(live_schedule(targets@, terms@, (i + 1) as nat) is Err);
                        lemma_live_schedule_err_persists(targets@, terms@, (i + 1) as nat, targets@.len());
                    }
                    return Err(DiscoverySelectionError::TargetWithoutTerm(t.key.copied()));
                },
                Some(ti) => {
                    let published = match terms[ti].published {
                        Some(p) => p,
                        None => false,
                    };
                    if published {
                        res.push((i, ti));
                    }
                },
            }
        }
        i = i + 1;
    }
    Ok(res)
}

proof fn lemma_live_schedule_err_persists(
    targets: Seq<LiveDiscoveryTarget>,
    terms: Seq<LiveDiscoveryTerm>,
    n: nat,
    m: nat,
)
    requires
        n <= m,
        live_schedule(targets, terms, n) is Err,
    ensures
        live_schedule(targets, terms, m) == live_schedule(targets, terms, n),
    decreases m - n,
{
    if n < m {
        lemma_live_schedule_err_persists(targets, terms, n, (m - 1) as nat);
    }
}

/// The scheduled (campus index, term index) pairs of the first `n` stored targets, or the
/// first broken reference.
pub open spec fn stored_schedule(
    sources: Seq<String>,
    targets: Seq<StoredDiscoveryTarget>,
    terms: Seq<StoredDiscoveryTerm>,
    n: nat,
) -> Result<Seq<(int, int)>, DiscoverySelectionError>
    decreases n,
{
    if n == 0 {
        Ok(Seq::empty())
    } else {
        let i = n - 1;
        match stored_schedule(sources, targets, terms, (n - 1) as nat) {
            Err(e) => Err(e),
            Ok(pairs) => {
                let t = targets[i];
                if t.enabled != Some(true) || spec_is_online_alias(t.target.spec_campus()) {
                    Ok(pairs)
                } else {
                    match find_stored_term(terms, t.target.spec_term()) {
                        None => Err(DiscoverySelectionError::TargetWithoutTerm(t.target)),
                        Some(ti) => if terms[ti].published != Some(true) {
                            Ok(pairs)
                        } else if terms[ti].source_version_id@ != t.source_version_id@ {
                            Err(DiscoverySelectionError::TargetSourceOwnershipMismatch(t.target))
                        } else if !(exists|s: int| 0 <= s < sources.len() && (#[trigger] sources[s])@
                            == terms[ti].source_version_id@) {
                            Err(DiscoverySelectionError::UnknownSourceVersion)
                        } else {
                            Ok(pairs.push((i, ti)))
                        },
                    }
                }
            },
        }
    }
}

/// Errors of the stored selection are the same up to the target key's view.
pub open spec fn same_selection_error(a: DiscoverySelectionError, b: DiscoverySelectionError) -> bool {
    match (a, b) {
        (DiscoverySelectionError::TargetWithoutTerm(x), DiscoverySelectionError::TargetWithoutTerm(y)) =>
            x.spec_key() == y.spec_key(),
        (
            DiscoverySelectionError::TargetSourceOwnershipMismatch(x),
            DiscoverySelectionError::TargetSourceOwnershipMismatch(y),
        ) => x.spec_key() == y.spec_key(),
        (DiscoverySelectionError::DuplicateSourceVersion, DiscoverySelectionError::DuplicateSourceVersion) => true,
        (DiscoverySelectionError::UnknownSourceVersion, DiscoverySelectionError::UnknownSourceVersion) => true,
        _ => false,
    }
}

/// The characters of each source version id.
pub open spec fn source_ids(sources: Seq<String>) -> Seq<Seq<char>> {
    sources.map_values(|s: String| s@)
}

proof fn lemma_stored_schedule_err_persists(
    sources: Seq<String>,
    targets: Seq<StoredDiscoveryTarget>,
    terms: Seq<StoredDiscoveryTerm>,
    n: nat,
    m: nat,
)
    requires
        n <= m,
        stored_schedule(sources, targets, terms, n) is Err,
    ensures
        stored_schedule(sources, targets, terms, m) == stored_schedule(sources, targets, terms, n),
    decreases m - n,
{
    if n < m {
        lemma_stored_schedule_err_persists(sources, targets, terms, n, (m - 1) as nat);
    }
}

fn knows_source(sources: &Vec<String>, id: &str) -> (res: bool)
    ensures
        res == exists|s: int| 0 <= s < sources@.len() && (#[trigger] sources@[s])@ == id@,
{
    let mut i: usize = 0;
    while i < sources.len()
        invariant
            i <= sources@.len(),
            forall|j: int| 0 <= j < i ==> (#[trigger] sources@[j])@ != id@,
        decreases sources.len() - i,
    {
        if str_eq(sources[i].as_str(), id) {
            return true;
        }
        i = i + 1;
    }
    false
}

fn has_duplicate_source(sources: &Vec<String>) -> (res: bool)
    ensures
        res == !source_ids(sources@).no_duplicates(),
{
    let mut i: usize = 0;
    while i < sources.len()
        invariant
            i <= sources@.len(),
            forall|a: int, b: int| 0 <= a < b < i ==> (#[trigger] sources@[a])@ != (#[trigger] sources@[b])@,
        decreases sources.len() - i,
    {
        let mut j: usize = 0;
        while j < i
            invariant
                j <= i < sources@.len(),
                forall|a: int| 0 <= a < j ==> (#[trigger] sources@[a])@ != sources@[i as int]@,
            decreases i - j,
        {
            if str_eq(sources[j].as_str(), sources[i].as_str()) {
                proof {
                    assert(source_ids(sources@)[j as int] == source_ids(sources@)[i as int]);
                }
                return true;
            }
            j = j + 1;
        }
        i = i + 1;
    }
    proof {
        assert forall|a: int, b: int| 0 <= a < source_ids(sources@).len() && 0 <= b < source_ids(sources@).len()
            && a != b implies source_ids(sources@)[a] != source_ids(sources@)[b] by {
            if a < b {
                assert(sources@[a]@ != sources@[b]@);
            } else {
                assert(sources@[b]@ != sources@[a]@);
            }
        }
    }
    false
}

/// The targets the stored discovery schedules, as (target index, term index) pairs in target
/// order. Source versions must be distinct; each scheduled target's term must exist, belong to
/// the same source version, and that version must be listed.
pub fn scheduled_targets_from_persisted(
    sources: &Vec<String>,
    targets: &Vec<StoredDiscoveryTarget>,
    terms: &Vec<StoredDiscoveryTerm>,
) -> (res: Result<Vec<(usize, usize)>, DiscoverySelectionError>)
    ensures
        !source_ids(sources@).no_duplicates() ==> res == Err::<
            Vec<(usize, usize)>,
            DiscoverySelectionError,
        >(DiscoverySelectionError::DuplicateSourceVersion),
        source_ids(sources@).no_duplicates() ==> match stored_schedule(
            sources@,
            targets@,
            terms@,
            targets@.len(),
        ) {
            Ok(pairs) => match res {
                Ok(r) => r@.len() == pairs.len() && forall|j: int|
                    0 <= j < pairs.len() ==> (#[trigger] r@[j]).0 == pairs[j].0 && r@[j].1
                        == pairs[j].1,
                Err(_) => false,
            },
            Err(e) => match res {
                Err(f) => same_selection_error(f, e),
                Ok(_) => false,
            },
        },
{
    if has_duplicate_source(sources) {
        return Err(DiscoverySelectionError::DuplicateSourceVersion);
    }
    let mut res: Vec<(usize, usize)> = Vec::new();
    let mut i: usize = 0;
    while i < targets.len()
        invariant
            i <= targets@.len(),
            source_ids(sources@).no_duplicates(),
            stored_schedule(sources@, targets@, terms@, i as nat) is Ok,
            res@.len() == stored_schedule(sources@, targets@, terms@, i as nat)->Ok_0.len(),
            forall|j: int|
                0 <= j < res@.len() ==> (#[trigger] res@[j]).0 == stored_schedule(
                    sources@,
                    targets@,
                    terms@,
                    i as nat,
                )->Ok_0[j].0 && res@[j].1 == stored_schedule(
                    sources@,
                    targets@,
                    terms@,
                    i as nat,
                )->Ok_0[j].1,
        decreases targets.len() - i,
    {
        let t = &targets[i];
        let skip = match t.enabled {
            Some(e) => !e,
            None => true,
        } || is_online_campus_alias(t.target.campus());
        if !skip {
            match find_stored_term_index(terms, t.target.term()) {
                None => {
                    proof {
                        lemma_stored_schedule_err_persists(sources@, targets@, terms@, (i + 1) as nat, targets@.len());
                    }
                    return Err(DiscoverySelectionError::TargetWithoutTerm(t.target.copied()));
                },
                Some(ti) => {
                    let published = match terms[ti].published {
                        Some(p) => p,
                        None => false,
                    };
                    if published {
                        if !str_eq(terms[ti].source_version_id.as_str(), t.source_version_id.as_str()) {
                            proof {
                                lemma_stored_schedule_err_persists(sources@, targets@, terms@, (i + 1) as nat, targets@.len());
                            }
                            return Err(
                                DiscoverySelectionError::TargetSourceOwnershipMismatch(t.target.copied()),
                            );
                        }
                        if !knows_source(sources, terms[ti].source_version_id.as_str()) {
                            proof {
                                lemma_stored_schedule_err_persists(sources@, targets@, terms@, (i + 1) as nat, targets@.len());
                            }
                            return Err(DiscoverySelectionError::UnknownSourceVersion);
                        }
                        res.push((i, ti));
                    }
                },
            }
        }
        i = i + 1;
    }
    Ok(res)
}

/// Term `k` of a live discovery yields its product targets: it is published and one of its
/// enabled product targets sits on an enabled campus.
pub open spec fn live_term_has_product_demand(
    terms: Seq<LiveDiscoveryTerm>,
    targets: Seq<LiveDiscoveryTarget>,
    campuses: Seq<LiveDiscoveryCampus>,
    k: int,
) -> bool {
    &&& terms[k].published == Some(true)
    &&& exists|t: int|
        0 <= t < targets.len() && (#[trigger] targets[t]).key.spec_term() == terms[k].term_id@
            && spec_is_product_campus(targets[t].key.spec_campus()) && targets[t].enabled == Some(true)
            && exists|c: int|
            0 <= c < campuses.len() && (#[trigger] campuses[c]).campus_code@
                == targets[t].key.spec_campus() && campuses[c].enabled == Some(true)
}

fn campus_enabled(campuses: &Vec<LiveDiscoveryCampus>, code: &str) -> (res: bool)
    ensures
        res == exists|c: int|
            0 <= c < campuses@.len() && (#[trigger] campuses@[c]).campus_code@ == code@
                && campuses@[c].enabled == Some(true),
{
    let mut i: usize = 0;
    while i < campuses.len()
        invariant
            i <= campuses@.len(),
            forall|c: int|
                0 <= c < i ==> !((#[trigger] campuses@[c]).campus_code@ == code@ && campuses@[c].enabled
                    == Some(true)),
        decreases campuses.len() - i,
    {
        let on = match campuses[i].enabled {
            Some(e) => e,
            None => false,
        };
        if on && str_eq(campuses[i].campus_code.as_str(), code) {
            return true;
        }
        i = i + 1;
    }
    false
}

/// Whether an enabled product target of `term` sits on an enabled campus.
fn has_product_target(term: &str, targets: &Vec<LiveDiscoveryTarget>, campuses: &Vec<LiveDiscoveryCampus>) -> (res:
    bool)
    ensures
        res == exists|t: int|
            0 <= t < targets@.len() && (#[trigger] targets@[t]).key.spec_term() == term@
                && spec_is_product_campus(targets@[t].key.spec_campus()) && targets@[t].enabled
                == Some(true) && exists|c: int|
                0 <= c < campuses@.len() && (#[trigger] campuses@[c]).campus_code@
                    == targets@[t].key.spec_campus() && campuses@[c].enabled == Some(true),
{
    let mut t: usize = 0;
    while t < targets.len()
        invariant
            t <= targets@.len(),
            forall|u: int|
                0 <= u < t ==> !((#[trigger] targets@[u]).key.spec_term() == term@
                    && spec_is_product_campus(targets@[u].key.spec_campus())
                    && targets@[u].enabled == Some(true) && exists|c: int|
                    0 <= c < campuses@.len() && (#[trigger] campuses@[c]).campus_code@
                        == targets@[u].key.spec_campus() && campuses@[c].enabled == Some(true)),
        decreases targets.len() - t,
    {
        let target = &targets[t];
        let on = match target.enabled {
            Some(e) => e,
            None => false,
        };
        if on && str_eq(target.key.term(), term) && is_product_campus(target.key.campus())
            && campus_enabled(campuses, target.key.campus()) {
            return true;
        }
        t = t + 1;
    }
    false
}

/// The indices of the terms of a live discovery whose three product targets are scheduled,
/// in term order.
pub fn product_refresh_terms(
    terms: &Vec<LiveDiscoveryTerm>,
    targets: &Vec<LiveDiscoveryTarget>,
    campuses: &Vec<LiveDiscoveryCampus>,
) -> (res: Vec<usize>)
    ensures
        forall|a: int, b: int| 0 <= a < b < res@.len() ==> res@[a] < res@[b],
        forall|k: int|
            0 <= k < terms@.len() ==> (res@.contains(k as usize) <==> live_term_has_product_demand(
                terms@,
                targets@,
                campuses@,
                k,
            )),
        forall|j: int| 0 <= j < res@.len() ==> res@[j] < terms@.len(),
{
    let mut res: Vec<usize> = Vec::new();
    let mut k: usize = 0;
    while k < terms.len()
        invariant
            k <= terms@.len(),
            forall|a: int, b: int| 0 <= a < b < res@.len() ==> res@[a] < res@[b],
            forall|j: int| 0 <= j < res@.len() ==> res@[j] < k,
            forall|m: int|
                0 <= m < k ==> (res@.contains(m as usize) <==> live_term_has_product_demand(
                    terms@,
                    targets@,
                    campuses@,
                    m,
                )),
        decreases terms.len() - k,
    {
        let published = match terms[k].published {
            Some(p) => p,
            None => false,
        };
        let found = published && has_product_target(terms[k].term_id.as_str(), targets, campuses);
        let ghost before = res@;
        if found {
            res.push(k);
        }
        proof {
            assert forall|m: int| 0 <= m < k + 1 implies (res@.contains(m as usize) <==> live_term_has_product_demand(
                terms@,
                targets@,
                campuses@,
                m,
            )) by {
                if m < k {
                    if res@.contains(m as usize) {
                        let p = choose|p: int| 0 <= p < res@.len() && res@[p] == m as usize;
                        if p < before.len() {
                            assert(before[p] == m as usize);
                        }
                    }
                    if before.contains(m as usize) {
                        let p = choose|p: int| 0 <= p < before.len() && before[p] == m as usize;
                        assert(res@[p] == m as usize);
                    }
                } else {
                    if found {
                        assert(res@[res@.len() - 1] == k);
                    } else {
                        if res@.contains(m as usize) {
                            let p = choose|p: int| 0 <= p < res@.len() && res@[p] == m as usize;
                            assert(before[p] < k);
                        }
                    }
                }
            }
        }
        k = k + 1;
    }
    res
}


/// A stored target record that makes its term's product targets schedulable: a product
/// campus of the term, enabled, with both enabled facts proven true.
pub open spec fn stored_product_target(
    campuses: Seq<crate::product_scope::DiscoveredCampusEvidence>,
    term: Seq<char>,
    c: int,
) -> bool {
    &&& 0 <= c < campuses.len()
    &&& campuses[c].target.spec_term() == term
    &&& spec_is_product_campus(campuses[c].target.spec_campus())
    &&& campuses[c].enabled == Some(true)
    &&& spec_stored_bool_fact(campuses[c].campus_enabled_fact) == BoolEvidence::True
    &&& spec_stored_bool_fact(campuses[c].target_enabled_fact) == BoolEvidence::True
}

/// The indices of the stored discovery's terms whose three product targets are scheduled, in
/// term order: published terms with a schedulable product target record.
pub fn product_refresh_terms_from_persisted(evidence: &PublishedDiscoveryEvidence) -> (res: Vec<usize>)
    ensures
        forall|a: int, b: int| 0 <= a < b < res@.len() ==> res@[a] < res@[b],
        forall|j: int| 0 <= j < res@.len() ==> res@[j] < evidence.terms@.len(),
        forall|k: int|
            0 <= k < evidence.terms@.len() ==> (res@.contains(k as usize) <==> (
            evidence.terms@[k].published == Some(true) && exists|c: int|
                #[trigger] stored_product_target(evidence.campuses@, evidence.terms@[k].term_id@, c))),
{
    let mut res: Vec<usize> = Vec::new();
    let mut k: usize = 0;
    while k < evidence.terms.len()
        invariant
            k <= evidence.terms@.len(),
            forall|a: int, b: int| 0 <= a < b < res@.len() ==> res@[a] < res@[b],
            forall|j: int| 0 <= j < res@.len() ==> res@[j] < k,
            forall|m: int|
                0 <= m < k ==> (res@.contains(m as usize) <==> (evidence.terms@[m].published == Some(
                    true,
                ) && exists|c: int|
                    #[trigger] stored_product_target(evidence.campuses@, evidence.terms@[m].term_id@, c))),
        decreases evidence.terms.len() - k,
    {
        let published = match evidence.terms[k].published {
            Some(p) => p,
            None => false,
        };
        let mut found = false;
        if published {
            let term = evidence.terms[k].term_id.as_str();
            let mut c: usize = 0;
            while c < evidence.campuses.len()
                invariant
                    c <= evidence.campuses@.len(),
                    term@ == evidence.terms@[k as int].term_id@,
                    found == exists|u: int| 0 <= u < c && #[trigger] stored_product_target(evidence.campuses@, term@, u),
                decreases evidence.campuses.len() - c,
            {
                let record = &evidence.campuses[c];
                let on = match record.enabled {
                    Some(e) => e,
                    None => false,
                };
                if !found && on && str_eq(record.target.term(), term) && is_product_campus(record.target.campus())
                    && stored_presence_is_true(&record.campus_enabled_fact) && stored_presence_is_true(
                    &record.target_enabled_fact,
                ) {
                    found = true;
                }
                proof {
                    if stored_product_target(evidence.campuses@, term@, c as int) {
                        assert(found);
                    }
                }
                c = c + 1;
            }
        }
        let ghost before = res@;
        if found {
            res.push(k);
        }
        proof {
            assert forall|m: int| 0 <= m < k + 1 implies (res@.contains(m as usize) <==> (
            evidence.terms@[m].published == Some(true) && exists|c: int|
                #[trigger] stored_product_target(evidence.campuses@, evidence.terms@[m].term_id@, c))) by {
                if m < k {
                    if res@.contains(m as usize) {
                        let p = choose|p: int| 0 <= p < res@.len() && res@[p] == m as usize;
                        if p < before.len() {
                            assert(before[p] == m as usize);
                        }
                    }
                    if before.contains(m as usize) {
                        let p = choose|p: int| 0 <= p < before.len() && before[p] == m as usize;
                        assert(res@[p] == m as usize);
                    }
                } else {
                    if found {
                        assert(res@[res@.len() - 1] == k);
                    } else {
                        if res@.contains(m as usize) {
                            let p = choose|p: int| 0 <= p < res@.len() && res@[p] == m as usize;
                            assert(before[p] < k);
                        }
                    }
                }
            }
        }
        k = k + 1;
    }
    res
}


/// A schedulable target with the chronology of its term: the Open request's year and term code.
pub struct RefreshCandidate {
    pub target: TermCampusKey,
    pub year: Option<u16>,
    pub term_code: Option<String>,
}

/// Order of optional years: an unknown year comes first.
pub open spec fn year_lt(a: Option<u16>, b: Option<u16>) -> bool {
    match (a, b) {
        (None, Some(_)) => true,
        (Some(x), Some(y)) => x < y,
        _ => false,
    }
}

/// Order of optional term codes: an unknown code comes first.
pub open spec fn code_lt(a: Option<Seq<char>>, b: Option<Seq<char>>) -> bool {
    match (a, b) {
        (None, Some(_)) => true,
        (Some(x), Some(y)) => seq_lt(x, y),
        _ => false,
    }
}

/// The chronological key of a candidate.
pub open spec fn chronology(c: RefreshCandidate) -> (Option<u16>, Option<Seq<char>>) {
    (
        c.year,
        match c.term_code {
            Some(s) => Some(s@),
            None => None,
        },
    )
}

/// Whether candidate chronology `a` is earlier than `b`: by year, then by term code.
pub open spec fn chronology_lt(a: (Option<u16>, Option<Seq<char>>), b: (Option<u16>, Option<Seq<char>>)) -> bool {
    year_lt(a.0, b.0) || (a.0 == b.0 && code_lt(a.1, b.1))
}

/// `m` is the latest candidate: none is later, and every later position is strictly earlier
/// in chronology (the last of equally late candidates wins).
pub open spec fn is_latest(c: Seq<RefreshCandidate>, m: int) -> bool {
    &&& 0 <= m < c.len()
    &&& forall|j: int| 0 <= j < c.len() ==> !chronology_lt(chronology(c[m]), #[trigger] chronology(c[j]))
    &&& forall|j: int| m < j < c.len() ==> chronology_lt(#[trigger] chronology(c[j]), chronology(c[m]))
}

/// Chronology is a strict total order on its keys.
pub proof fn lemma_chronology_order(
    a: (Option<u16>, Option<Seq<char>>),
    b: (Option<u16>, Option<Seq<char>>),
    c: (Option<u16>, Option<Seq<char>>),
)
    ensures
        !chronology_lt(a, a),
        !(chronology_lt(a, b) && chronology_lt(b, a)),
        a != b ==> chronology_lt(a, b) || chronology_lt(b, a),
        chronology_lt(a, b) && chronology_lt(b, c) ==> chronology_lt(a, c),
{
    if a.1 is Some {
        lemma_seq_lt_irreflexive(a.1->0);
    }
    if a.1 is Some && b.1 is Some {
        lemma_seq_lt_total(a.1->0, b.1->0);
    }
    if a.1 is Some && b.1 is Some && c.1 is Some && seq_lt(a.1->0, b.1->0) && seq_lt(b.1->0, c.1->0) {
        lemma_seq_lt_transitive(a.1->0, b.1->0, c.1->0);
    }
    if a != b {
        assert(a.0 != b.0 || a.1 != b.1);
    }
}

/// There is exactly one latest candidate.
pub proof fn lemma_latest_is_unique(c: Seq<RefreshCandidate>, m: int, n: int)
    requires
        is_latest(c, m),
        is_latest(c, n),
    ensures
        m == n,
{
    if m < n {
        assert(chronology_lt(chronology(c[n]), chronology(c[m])));
        assert(!chronology_lt(chronology(c[m]), chronology(c[n])));
        lemma_chronology_order(chronology(c[n]), chronology(c[m]), chronology(c[m]));
    } else if n < m {
        assert(chronology_lt(chronology(c[m]), chronology(c[n])));
        lemma_chronology_order(chronology(c[m]), chronology(c[n]), chronology(c[n]));
    }
}

fn chronology_less(a: &RefreshCandidate, b: &RefreshCandidate) -> (res: bool)
    ensures
        res == chronology_lt(chronology(*a), chronology(*b)),
{
    let year_less = match (a.year, b.year) {
        (None, Some(_)) => true,
        (Some(x), Some(y)) => x < y,
        _ => false,
    };
    if year_less {
        return true;
    }
    if a.year != b.year {
        return false;
    }
    match (&a.term_code, &b.term_code) {
        (None, Some(_)) => true,
        (Some(x), Some(y)) => str_lt(x.as_str(), y.as_str()),
        _ => false,
    }
}

/// The latest candidate's position, or `None` when there is none.
pub fn latest_candidate(available: &Vec<RefreshCandidate>) -> (res: Option<usize>)
    ensures
        match res {
            Some(m) => is_latest(available@, m as int),
            None => available@.len() == 0,
        },
{
    if available.len() == 0 {
        return None;
    }
    let mut best: usize = 0;
    let mut j: usize = 1;
    proof {
        let c0 = chronology(available@[0]);
        lemma_chronology_order(c0, c0, c0);
    }
    while j < available.len()
        invariant
            1 <= j <= available@.len(),
            best < j,
            forall|k: int| 0 <= k < j ==> !chronology_lt(chronology(available@[best as int]), #[trigger] chronology(available@[k])),
            forall|k: int| best < k < j ==> chronology_lt(#[trigger] chronology(available@[k]), chronology(available@[best as int])),
        decreases available.len() - j,
    {
        if !chronology_less(&available[j], &available[best]) {
            proof {
                let nb = chronology(available@[j as int]);
                let ob = chronology(available@[best as int]);
                assert forall|k: int| 0 <= k < j + 1 implies !chronology_lt(nb, #[trigger] chronology(available@[k])) by {
                    let ck = chronology(available@[k]);
                    lemma_chronology_order(nb, ob, ck);
                    lemma_chronology_order(ob, nb, ck);
                    lemma_chronology_order(nb, ck, ob);
                    lemma_chronology_order(ck, ob, nb);
                    if k < j {
                        assert(!chronology_lt(ob, ck));
                        if ob == nb {
                        } else {
                            assert(chronology_lt(ob, nb));
                            if ck != ob {
                                assert(chronology_lt(ck, ob));
                            }
                        }
                    }
                }
            }
            best = j;
        } else {
            proof {
                lemma_chronology_order(chronology(available@[j as int]), chronology(available@[best as int]), chronology(available@[best as int]));
            }
        }
        j = j + 1;
    }
    Some(best)
}

/// The positions of the candidates whose key `demanded` lists, in order.
pub fn demanded_refresh_targets(available: &Vec<RefreshCandidate>, demanded: &Vec<TermCampusKey>) -> (res:
    Vec<usize>)
    ensures
        forall|a: int, b: int| 0 <= a < b < res@.len() ==> res@[a] < res@[b],
        forall|j: int| 0 <= j < res@.len() ==> res@[j] < available@.len(),
        forall|i: int|
            0 <= i < available@.len() ==> (res@.contains(i as usize) <==> keys_of(demanded@).contains(
                available@[i].target.spec_key(),
            )),
{
    select_positions(available, demanded, None)
}

/// The positions of the candidates a default refresh keeps, in order: every candidate of the
/// latest term, and every demanded one.
pub fn selected_refresh_targets(available: &Vec<RefreshCandidate>, demanded: &Vec<TermCampusKey>) -> (res:
    Vec<usize>)
    ensures
        forall|a: int, b: int| 0 <= a < b < res@.len() ==> res@[a] < res@[b],
        forall|j: int| 0 <= j < res@.len() ==> res@[j] < available@.len(),
        available@.len() > 0 ==> exists|m: int|
            is_latest(available@, m) && forall|i: int|
                0 <= i < available@.len() ==> (res@.contains(i as usize) <==> (
                available@[i].target.spec_term() == available@[m].target.spec_term() || keys_of(
                    demanded@,
                ).contains(available@[i].target.spec_key()))),
        available@.len() == 0 ==> res@.len() == 0,
{
    match latest_candidate(available) {
        None => Vec::new(),
        Some(m) => {
            let term = available[m].target.term();
            let res = select_positions(available, demanded, Some(term));
            proof {
                assert(is_latest(available@, m as int));
            }
            res
        },
    }
}

/// The positions whose key `demanded` lists or, when given, whose term is `term`.
fn select_positions(available: &Vec<RefreshCandidate>, demanded: &Vec<TermCampusKey>, term: Option<&str>) -> (res:
    Vec<usize>)
    ensures
        forall|a: int, b: int| 0 <= a < b < res@.len() ==> res@[a] < res@[b],
        forall|j: int| 0 <= j < res@.len() ==> res@[j] < available@.len(),
        forall|i: int|
            0 <= i < available@.len() ==> (res@.contains(i as usize) <==> ((term is Some
                && available@[i].target.spec_term() == term->0@) || keys_of(demanded@).contains(
                available@[i].target.spec_key(),
            ))),
{
    let mut res: Vec<usize> = Vec::new();
    let mut i: usize = 0;
    while i < available.len()
        invariant
            i <= available@.len(),
            forall|a: int, b: int| 0 <= a < b < res@.len() ==> res@[a] < res@[b],
            forall|j: int| 0 <= j < res@.len() ==> res@[j] < i,
            forall|m: int|
                0 <= m < i ==> (res@.contains(m as usize) <==> ((term is Some
                    && available@[m].target.spec_term() == term->0@) || keys_of(demanded@).contains(
                    available@[m].target.spec_key(),
                ))),
        decreases available.len() - i,
    {
        let in_term = match term {
            Some(t) => str_eq(available[i].target.term(), t),
            None => false,
        };
        let listed = crate::target::contains_key(demanded, &available[i].target);
        proof {
            let k = available@[i as int].target.spec_key();
            if listed {
                let n = choose|n: int| 0 <= n < demanded@.len() && (#[trigger] demanded@[n]).spec_key() == k;
                assert(keys_of(demanded@)[n] == k);
            } else {
                assert forall|n: int| 0 <= n < keys_of(demanded@).len() implies keys_of(demanded@)[n] != k by {
                    assert(keys_of(demanded@)[n] == demanded@[n].spec_key());
                }
            }
        }
        let ghost before = res@;
        if in_term || listed {
            res.push(i);
        }
        proof {
            assert forall|m: int| 0 <= m < i + 1 implies (res@.contains(m as usize) <==> ((term is Some
                && available@[m].target.spec_term() == term->0@) || keys_of(demanded@).contains(
                available@[m].target.spec_key(),
            ))) by {
                if m < i {
                    if res@.contains(m as usize) {
                        let p = choose|p: int| 0 <= p < res@.len() && res@[p] == m as usize;
                        if p < before.len() {
                            assert(before[p] == m as usize);
                        }
                    }
                    if before.contains(m as usize) {
                        let p = choose|p: int| 0 <= p < before.len() && before[p] == m as usize;
                        assert(res@[p] == m as usize);
                    }
                } else {
                    if in_term || listed {
                        assert(res@[res@.len() - 1] == i);
                    } else if res@.contains(m as usize) {
                        let p = choose|p: int| 0 <= p < res@.len() && res@[p] == m as usize;
                        assert(before[p] < i);
                    }
                }
            }
        }
        i = i + 1;
    }
    res
}

/// How a discovery request failed at the transport.
#[derive(Clone, Copy, Debug, Eq, PartialEq, Structural)]
pub enum DiscoveryTransportErrorKind {
    Timeout,
    Network,
    NonSuccessHttp,
    RequestConstruction,
    ResponseUrlMismatch,
    Redirect,
    InvalidContentType,
    ResponseTooLarge,
    ContentDecoding,
    InvalidBootstrap,
    InvalidSelectorScriptUrl,
    InvalidSelectorScript,
    InvalidDiscoveryDocument,
}

/// The stored code of a discovery transport failure.
pub open spec fn spec_discovery_failure_code(kind: DiscoveryTransportErrorKind) -> Seq<char> {
    match kind {
        DiscoveryTransportErrorKind::Timeout => "DISCOVERY_UPSTREAM_TIMEOUT"@,
        DiscoveryTransportErrorKind::Network => "DISCOVERY_UPSTREAM_NETWORK"@,
        DiscoveryTransportErrorKind::NonSuccessHttp => "DISCOVERY_UPSTREAM_HTTP"@,
        _ => "DISCOVERY_UPSTREAM_PROTOCOL"@,
    }
}

/// The stored code of a discovery transport failure: timeouts, network failures and HTTP
/// statuses have their own; every other failure is a protocol failure.
pub fn discovery_failure_code(kind: DiscoveryTransportErrorKind) -> (res: &'static str)
    ensures
        res@ == spec_discovery_failure_code(kind),
{
    match kind {
        DiscoveryTransportErrorKind::Timeout => "DISCOVERY_UPSTREAM_TIMEOUT",
        DiscoveryTransportErrorKind::Network => "DISCOVERY_UPSTREAM_NETWORK",
        DiscoveryTransportErrorKind::NonSuccessHttp => "DISCOVERY_UPSTREAM_HTTP",
        _ => "DISCOVERY_UPSTREAM_PROTOCOL",
    }
}


/// Pause after a failed discovery attempt, in seconds (five minutes).
pub const DISCOVERY_RETRY_INTERVAL_SECONDS: u64 = 300;

/// How often demanded targets are picked up while the runtime waits, in nanoseconds.
pub const TARGET_DEMAND_SCAN_INTERVAL_NANOS: u128 = 250000000;

/// How one discovery attempt ended.
#[derive(Clone, Copy, Debug, Eq, PartialEq, Structural)]
pub enum DiscoveryAttempt {
    /// The discovery was fetched and published.
    Published,
    /// The discovery was fetched but could not be published.
    PublishFailed,
    /// The discovery could not be fetched; the failure is recorded.
    TransportFailed,
    /// No timestamp could be taken, so nothing was attempted.
    ClockUnavailable,
}

/// What the discovery loop does after an attempt.
#[derive(Clone, Copy, Debug, Eq, PartialEq, Structural)]
pub struct DiscoveryCycleStep {
    /// Seconds before the next attempt.
    pub wait_seconds: u64,
    /// Whether the attempt succeeded: the runtime reports idle rather than a retry wait.
    pub succeeded: bool,
    /// Whether the selector membership is emptied: no target may use a stale selector.
    pub clear_membership: bool,
}

/// The step after a discovery attempt: a publication waits the full interval, every failure
/// retries after the retry interval, and a failed fetch or publication empties the membership.
pub fn discovery_cycle_step(attempt: DiscoveryAttempt) -> (res: DiscoveryCycleStep)
    ensures
        res.succeeded == (attempt == DiscoveryAttempt::Published),
        res.wait_seconds == (if attempt == DiscoveryAttempt::Published {
            crate::refresh_schedule::DISCOVERY_REFRESH_INTERVAL_SECONDS
        } else {
            DISCOVERY_RETRY_INTERVAL_SECONDS
        }),
        res.clear_membership == (attempt == DiscoveryAttempt::PublishFailed || attempt
            == DiscoveryAttempt::TransportFailed),
{
    match attempt {
        DiscoveryAttempt::Published => DiscoveryCycleStep {
            wait_seconds: crate::refresh_schedule::DISCOVERY_REFRESH_INTERVAL_SECONDS,
            succeeded: true,
            clear_membership: false,
        },
        DiscoveryAttempt::PublishFailed | DiscoveryAttempt::TransportFailed => DiscoveryCycleStep {
            wait_seconds: DISCOVERY_RETRY_INTERVAL_SECONDS,
            succeeded: false,
            clear_membership: true,
        },
        DiscoveryAttempt::ClockUnavailable => DiscoveryCycleStep {
            wait_seconds: DISCOVERY_RETRY_INTERVAL_SECONDS,
            succeeded: false,
            clear_membership: false,
        },
    }
}

/// The next slice of a wait: at most one demand scan interval.
pub fn wait_slice_nanos(remaining_nanos: u128) -> (res: u128)
    ensures
        res == (if remaining_nanos < TARGET_DEMAND_SCAN_INTERVAL_NANOS {
            remaining_nanos
        } else {
            TARGET_DEMAND_SCAN_INTERVAL_NANOS
        }),
{
    if remaining_nanos < TARGET_DEMAND_SCAN_INTERVAL_NANOS {
        remaining_nanos
    } else {
        TARGET_DEMAND_SCAN_INTERVAL_NANOS
    }
}

/// Not one of the three online campus aliases, in any letter case.
pub open spec fn not_online_campus(campus: Seq<char>) -> bool {
    &&& !eq_ascii_nocase(campus, seq!['O', 'N', 'L', 'I', 'N', 'E', '_', 'N', 'B'])
    &&& !eq_ascii_nocase(campus, seq!['O', 'N', 'L', 'I', 'N', 'E', '_', 'N', 'K'])
    &&& !eq_ascii_nocase(campus, seq!['O', 'N', 'L', 'I', 'N', 'E', '_', 'C', 'M'])
}

proof fn lemma_online_alias_literals()
    ensures
        "ONLINE_NB"@ == seq!['O', 'N', 'L', 'I', 'N', 'E', '_', 'N', 'B'],
        "ONLINE_NK"@ == seq!['O', 'N', 'L', 'I', 'N', 'E', '_', 'N', 'K'],
        "ONLINE_CM"@ == seq!['O', 'N', 'L', 'I', 'N', 'E', '_', 'C', 'M'],
{
    reveal_strlit("ONLINE_NB");
    reveal_strlit("ONLINE_NK");
    reveal_strlit("ONLINE_CM");
    assert("ONLINE_NB"@ =~= seq!['O', 'N', 'L', 'I', 'N', 'E', '_', 'N', 'B']);
    assert("ONLINE_NK"@ =~= seq!['O', 'N', 'L', 'I', 'N', 'E', '_', 'N', 'K']);
    assert("ONLINE_CM"@ =~= seq!['O', 'N', 'L', 'I', 'N', 'E', '_', 'C', 'M']);
}

/// Every target the stored discovery schedules is enabled, not an online alias, and paired
/// with its own published term of the same source version; the pairs come in target order.
pub proof fn lemma_stored_schedule_members(
    sources: Seq<String>,
    targets: Seq<StoredDiscoveryTarget>,
    terms: Seq<StoredDiscoveryTerm>,
    n: nat,
)
    requires
        n <= targets.len(),
        stored_schedule(sources, targets, terms, n) is Ok,
    ensures
        ({
            let pairs = stored_schedule(sources, targets, terms, n)->Ok_0;
            &&& forall|k: int|
                0 <= k < pairs.len() ==> {
                    let (i, ti) = #[trigger] pairs[k];
                    &&& 0 <= i < n
                    &&& targets[i].enabled == Some(true)
                    &&& not_online_campus(targets[i].target.spec_campus())
                    &&& 0 <= ti < terms.len()
                    &&& terms[ti].term_id@ == targets[i].target.spec_term()
                    &&& terms[ti].published == Some(true)
                    &&& terms[ti].source_version_id@ == targets[i].source_version_id@
                }
            &&& forall|a: int, b: int| 0 <= a < b < pairs.len() ==> (#[trigger] pairs[a]).0 < (#[trigger] pairs[b]).0
        }),
    decreases n,
{
    lemma_online_alias_literals();
    if n > 0 {
        lemma_stored_schedule_members(sources, targets, terms, (n - 1) as nat);
        let i = n - 1;
        let t = targets[i];
        if !(t.enabled != Some(true) || spec_is_online_alias(t.target.spec_campus())) {
            match find_stored_term(terms, t.target.spec_term()) {
                Some(ti) => {
                    assert(is_first_stored_term(terms, t.target.spec_term(), ti));
                },
                None => {},
            }
        }
    }
}

/// Every target the live discovery schedules is enabled, not an online alias, and paired
/// with its own published term; the pairs come in target order.
pub proof fn lemma_live_schedule_members(
    targets: Seq<LiveDiscoveryTarget>,
    terms: Seq<LiveDiscoveryTerm>,
    n: nat,
)
    requires
        n <= targets.len(),
        live_schedule(targets, terms, n) is Ok,
    ensures
        ({
            let pairs = live_schedule(targets, terms, n)->Ok_0;
            &&& forall|k: int|
                0 <= k < pairs.len() ==> {
                    let (i, ti) = #[trigger] pairs[k];
                    &&& 0 <= i < n
                    &&& targets[i].enabled == Some(true)
                    &&& not_online_campus(targets[i].key.spec_campus())
                    &&& 0 <= ti < terms.len()
                    &&& terms[ti].term_id@ == targets[i].key.spec_term()
                    &&& terms[ti].published == Some(true)
                }
            &&& forall|a: int, b: int| 0 <= a < b < pairs.len() ==> (#[trigger] pairs[a]).0 < (#[trigger] pairs[b]).0
        }),
    decreases n,
{
    lemma_online_alias_literals();
    if n > 0 {
        lemma_live_schedule_members(targets, terms, (n - 1) as nat);
        let i = n - 1;
        let t = targets[i];
        if !(t.enabled != Some(true) || spec_is_online_alias(t.key.spec_campus())) {
            match find_live_term(terms, t.key.spec_term()) {
                Some(ti) => {
                    assert(is_first_live_term(terms, t.key.spec_term(), ti));
                },
                None => {},
            }
        }
    }
}

} // verus!

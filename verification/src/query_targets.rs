//! The target sets a query may run on.
//!
//! A query names its (term, campus) targets explicitly. The set must be non-empty and name each
//! target once; it is then put in canonical order. A search must agree with its filters' term
//! and, when the filters list campuses, with exactly that campus set; a detail lookup must name
//! its own target among them.
use vstd::prelude::*;

use crate::target::{
    contains_key, insert_sorted, keys_of, keys_sorted, lemma_sorted_keys_equal, TermCampusKey,
};
use crate::text::str_eq;

verus! {

/// Why a query's target set was refused.
#[derive(Clone, Debug, Eq, PartialEq)]
pub enum QueryTargetError {
    EmptyTargetSet,
    DuplicateTarget(TermCampusKey),
    FilterTermMismatch { target: TermCampusKey, filter_term: String },
    FilterCampusSetMismatch,
    DetailTargetMismatch,
}

/// The target at `j` repeats one before it.
pub open spec fn repeats_at(keys: Seq<(Seq<char>, Seq<char>)>, j: int) -> bool {
    0 <= j < keys.len() && keys.subrange(0, j).contains(keys[j])
}

/// `j` is the first position at which a target repeats.
pub open spec fn first_repeat_at(keys: Seq<(Seq<char>, Seq<char>)>, j: int) -> bool {
    repeats_at(keys, j) && keys.subrange(0, j).no_duplicates()
}

/// The canonical form of a valid target set: each target once, in key order.
pub open spec fn is_canonical_of(result: Seq<TermCampusKey>, targets: Seq<TermCampusKey>) -> bool {
    &&& keys_sorted(keys_of(result))
    &&& forall|k: (Seq<char>, Seq<char>)| #[trigger] keys_of(result).contains(k) == keys_of(targets).contains(k)
}

/// The canonical form depends only on which targets are named: two target lists naming the
/// same targets, in any order, have the same canonical form.
pub proof fn lemma_canonical_form_ignores_order(
    r1: Seq<TermCampusKey>,
    t1: Seq<TermCampusKey>,
    r2: Seq<TermCampusKey>,
    t2: Seq<TermCampusKey>,
)
    requires
        is_canonical_of(r1, t1),
        is_canonical_of(r2, t2),
        forall|k: (Seq<char>, Seq<char>)| #[trigger] keys_of(t1).contains(k) == keys_of(t2).contains(k),
    ensures
        keys_of(r1) == keys_of(r2),
{
    assert forall|k: (Seq<char>, Seq<char>)| keys_of(r1).contains(k) <==> keys_of(r2).contains(k) by {
        assert(keys_of(r1).contains(k) == keys_of(t1).contains(k));
        assert(keys_of(r2).contains(k) == keys_of(t2).contains(k));
    }
    lemma_sorted_keys_equal(keys_of(r1), keys_of(r2));
}

/// Checks that `targets` is non-empty and names each target once, and returns it in key order.
/// The first target that repeats an earlier one is reported.
pub fn canonical_targets(targets: &Vec<TermCampusKey>) -> (res: Result<
    Vec<TermCampusKey>,
    QueryTargetError,
>)
    ensures
        targets@.len() == 0 ==> res == Err::<Vec<TermCampusKey>, QueryTargetError>(
            QueryTargetError::EmptyTargetSet,
        ),
        targets@.len() > 0 && keys_of(targets@).no_duplicates() ==> match res {
            Ok(r) => is_canonical_of(r@, targets@),
            Err(_) => false,
        },
        targets@.len() > 0 && !keys_of(targets@).no_duplicates() ==> match res {
            Err(QueryTargetError::DuplicateTarget(t)) => exists|j: int|
                first_repeat_at(keys_of(targets@), j) && t.spec_key() == keys_of(targets@)[j],
            _ => false,
        },
{
    if targets.len() == 0 {
        return Err(QueryTargetError::EmptyTargetSet);
    }
    let ghost keys = keys_of(targets@);
    let mut sorted: Vec<TermCampusKey> = Vec::new();
    let mut i: usize = 0;
    while i < targets.len()
        invariant
            i <= targets@.len(),
            keys == keys_of(targets@),
            keys_sorted(keys_of(sorted@)),
            keys.subrange(0, i as int).no_duplicates(),
            forall|k: (Seq<char>, Seq<char>)|
                #[trigger] keys_of(sorted@).contains(k) == keys.subrange(0, i as int).contains(k),
        decreases targets.len() - i,
    {
        let ghost prefix = keys.subrange(0, i as int);
        let ghost next = keys.subrange(0, i + 1);
        proof {
            assert(next =~= prefix.push(keys[i as int]));
            assert(keys[i as int] == targets@[i as int].spec_key());
        }
        if !insert_sorted(&mut sorted, &targets[i]) {
            proof {
                assert(repeats_at(keys, i as int));
            }
            return Err(QueryTargetError::DuplicateTarget(targets[i].copied()));
        }
        proof {
            assert(!prefix.contains(keys[i as int]));
            assert forall|a: int, b: int| 0 <= a < next.len() && 0 <= b < next.len() && a != b implies next[a]
                != next[b] by {
                if a == i {
                    assert(next[b] == prefix[b]);
                } else if b == i {
                    assert(next[a] == prefix[a]);
                } else {
                    assert(next[a] == prefix[a] && next[b] == prefix[b]);
                }
            }
            assert forall|k: (Seq<char>, Seq<char>)| #[trigger] next.contains(k) == (prefix.contains(k)
                || k == keys[i as int]) by {
                if next.contains(k) {
                    let m = choose|m: int| 0 <= m < next.len() && next[m] == k;
                    if m < i {
                        assert(prefix[m] == k);
                    }
                }
                if prefix.contains(k) {
                    let m = choose|m: int| 0 <= m < prefix.len() && prefix[m] == k;
                    assert(next[m] == k);
                }
                if k == keys[i as int] {
                    assert(next[i as int] == k);
                }
            }
        }
        i = i + 1;
    }
    proof {
        assert(keys.subrange(0, keys.len() as int) =~= keys);
    }
    Ok(sorted)
}

/// The campuses of a target sequence.
pub open spec fn campus_set(targets: Seq<TermCampusKey>) -> Set<Seq<char>> {
    Set::new(|c: Seq<char>| exists|i: int| 0 <= i < targets.len() && (#[trigger] targets[i]).spec_campus() == c)
}

/// The campuses a filter lists.
pub open spec fn listed_set(campuses: Seq<String>) -> Set<Seq<char>> {
    Set::new(|c: Seq<char>| exists|i: int| 0 <= i < campuses.len() && (#[trigger] campuses[i])@ == c)
}

fn lists_campus(campuses: &Vec<String>, campus: &str) -> (res: bool)
    ensures
        res == listed_set(campuses@).contains(campus@),
{
    let mut i: usize = 0;
    while i < campuses.len()
        invariant
            i <= campuses@.len(),
            forall|j: int| 0 <= j < i ==> (#[trigger] campuses@[j])@ != campus@,
        decreases campuses.len() - i,
    {
        if str_eq(campuses[i].as_str(), campus) {
            return true;
        }
        i = i + 1;
    }
    false
}

fn names_campus(targets: &Vec<TermCampusKey>, campus: &str) -> (res: bool)
    ensures
        res == campus_set(targets@).contains(campus@),
{
    let mut i: usize = 0;
    while i < targets.len()
        invariant
            i <= targets@.len(),
            forall|j: int| 0 <= j < i ==> (#[trigger] targets@[j]).spec_campus() != campus@,
        decreases targets.len() - i,
    {
        if str_eq(targets[i].campus(), campus) {
            return true;
        }
        i = i + 1;
    }
    false
}

/// The target set of a search with filters for `filter_term` and, when not empty,
/// `filter_campuses`. After the checks of `canonical_targets`, the first target in key order
/// whose term is not the filter's is reported; then the campuses must be exactly the listed
/// ones.
pub fn validate_search_targets(
    targets: &Vec<TermCampusKey>,
    filter_term: &str,
    filter_campuses: &Vec<String>,
) -> (res: Result<Vec<TermCampusKey>, QueryTargetError>)
    ensures
        targets@.len() == 0 ==> res == Err::<Vec<TermCampusKey>, QueryTargetError>(
            QueryTargetError::EmptyTargetSet,
        ),
        targets@.len() > 0 && !keys_of(targets@).no_duplicates() ==> match res {
            Err(QueryTargetError::DuplicateTarget(t)) => exists|j: int|
                first_repeat_at(keys_of(targets@), j) && t.spec_key() == keys_of(targets@)[j],
            _ => false,
        },
        targets@.len() > 0 && keys_of(targets@).no_duplicates() ==> match res {
            Ok(r) => {
                &&& is_canonical_of(r@, targets@)
                &&& forall|i: int| 0 <= i < r@.len() ==> (#[trigger] r@[i]).spec_term() == filter_term@
                &&& filter_campuses@.len() > 0 ==> campus_set(r@) == listed_set(filter_campuses@)
            },
            Err(QueryTargetError::FilterTermMismatch { target, filter_term: ft }) => {
                &&& ft@ == filter_term@
                &&& target.spec_term() != filter_term@
                &&& exists|r: Seq<TermCampusKey>, i: int|
                    is_canonical_of(r, targets@) && 0 <= i < r.len() && (#[trigger] r[i]).spec_key() == target.spec_key()
                        && forall|j: int| 0 <= j < i ==> (#[trigger] r[j]).spec_term() == filter_term@
            },
            Err(QueryTargetError::FilterCampusSetMismatch) => {
                &&& filter_campuses@.len() > 0
                &&& forall|k: (Seq<char>, Seq<char>)| #[trigger] keys_of(targets@).contains(k) ==> k.0 == filter_term@
                &&& exists|r: Seq<TermCampusKey>| is_canonical_of(r, targets@) && campus_set(r) != listed_set(filter_campuses@)
            },
            Err(_) => false,
        },
{
    let sorted = match canonical_targets(targets) {
        Ok(r) => r,
        Err(e) => return Err(e),
    };
    let mut i: usize = 0;
    while i < sorted.len()
        invariant
            i <= sorted@.len(),
            targets@.len() > 0,
            keys_of(targets@).no_duplicates(),
            is_canonical_of(sorted@, targets@),
            forall|j: int| 0 <= j < i ==> (#[trigger] sorted@[j]).spec_term() == filter_term@,
        decreases sorted.len() - i,
    {
        if !str_eq(sorted[i].term(), filter_term) {
            return Err(
                QueryTargetError::FilterTermMismatch {
                    target: sorted[i].copied(),
                    filter_term: filter_term.to_string(),
                },
            );
        }
        i = i + 1;
    }
    if filter_campuses.len() > 0 {
        let mut same = true;
        let mut j: usize = 0;
        while j < sorted.len()
            invariant
                j <= sorted@.len(),
                same ==> forall|m: int| 0 <= m < j ==> listed_set(filter_campuses@).contains(
                    (#[trigger] sorted@[m]).spec_campus(),
                ),
                !same ==> !(campus_set(sorted@) <= listed_set(filter_campuses@)),
            decreases sorted.len() - j,
        {
            if same && !lists_campus(filter_campuses, sorted[j].campus()) {
                same = false;
                proof {
                    assert(campus_set(sorted@).contains(sorted@[j as int].spec_campus()));
                }
            }
            j = j + 1;
        }
        let mut k: usize = 0;
        while k < filter_campuses.len()
            invariant
                k <= filter_campuses@.len(),
                same ==> forall|m: int| 0 <= m < sorted@.len() ==> listed_set(filter_campuses@).contains(
                    (#[trigger] sorted@[m]).spec_campus(),
                ),
                same ==> forall|m: int| 0 <= m < k ==> campus_set(sorted@).contains(
                    (#[trigger] filter_campuses@[m])@,
                ),
                !same ==> campus_set(sorted@) != listed_set(filter_campuses@),
            decreases filter_campuses.len() - k,
        {
            if same && !names_campus(&sorted, filter_campuses[k].as_str()) {
                same = false;
                proof {
                    assert(listed_set(filter_campuses@).contains(filter_campuses@[k as int]@));
                }
            }
            k = k + 1;
        }
        if !same {
            proof {
                assert forall|key: (Seq<char>, Seq<char>)| #[trigger] keys_of(targets@).contains(key) implies key.0 == filter_term@ by {
                    assert(keys_of(sorted@).contains(key));
                    let m = choose|m: int| 0 <= m < keys_of(sorted@).len() && keys_of(sorted@)[m] == key;
                    assert(sorted@[m].spec_term() == filter_term@);
                }
            }
            return Err(QueryTargetError::FilterCampusSetMismatch);
        }
        proof {
            assert forall|c: Seq<char>| #[trigger] campus_set(sorted@).contains(c) == listed_set(filter_campuses@).contains(c) by {
                if campus_set(sorted@).contains(c) {
                    let m = choose|m: int| 0 <= m < sorted@.len() && (#[trigger] sorted@[m]).spec_campus() == c;
                    assert(listed_set(filter_campuses@).contains(sorted@[m].spec_campus()));
                }
                if listed_set(filter_campuses@).contains(c) {
                    let m = choose|m: int| 0 <= m < filter_campuses@.len() && (#[trigger] filter_campuses@[m])@ == c;
                    assert(campus_set(sorted@).contains(filter_campuses@[m]@));
                }
            }
            assert(campus_set(sorted@) =~= listed_set(filter_campuses@));
        }
    }
    Ok(sorted)
}

/// The target set of a detail lookup of `detail_target`: after the checks of
/// `canonical_targets`, it must name the detail's own target.
pub fn validate_detail_targets(targets: &Vec<TermCampusKey>, detail_target: &TermCampusKey) -> (res:
    Result<Vec<TermCampusKey>, QueryTargetError>)
    ensures
        targets@.len() == 0 ==> res == Err::<Vec<TermCampusKey>, QueryTargetError>(
            QueryTargetError::EmptyTargetSet,
        ),
        targets@.len() > 0 && !keys_of(targets@).no_duplicates() ==> match res {
            Err(QueryTargetError::DuplicateTarget(t)) => exists|j: int|
                first_repeat_at(keys_of(targets@), j) && t.spec_key() == keys_of(targets@)[j],
            _ => false,
        },
        targets@.len() > 0 && keys_of(targets@).no_duplicates() ==> match res {
            Ok(r) => is_canonical_of(r@, targets@) && keys_of(targets@).contains(
                detail_target.spec_key(),
            ),
            Err(e) => e == QueryTargetError::DetailTargetMismatch && !keys_of(targets@).contains(
                detail_target.spec_key(),
            ),
        },
{
    let sorted = match canonical_targets(targets) {
        Ok(r) => r,
        Err(e) => return Err(e),
    };
    if !contains_key(&sorted, detail_target) {
        proof {
            if keys_of(targets@).contains(detail_target.spec_key()) {
                assert(keys_of(sorted@).contains(detail_target.spec_key()));
                let m = choose|m: int| 0 <= m < keys_of(sorted@).len() && keys_of(sorted@)[m] == detail_target.spec_key();
                assert(sorted@[m].spec_key() == detail_target.spec_key());
            }
        }
        return Err(QueryTargetError::DetailTargetMismatch);
    }
    proof {
        let m = choose|m: int| 0 <= m < sorted@.len() && (#[trigger] sorted@[m]).spec_key() == detail_target.spec_key();
        assert(keys_of(sorted@)[m] == detail_target.spec_key());
        assert(keys_of(sorted@).contains(detail_target.spec_key()));
    }
    Ok(sorted)
}

} // verus!

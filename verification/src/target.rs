use vstd::prelude::*;

use crate::text::{lemma_seq_lt_irreflexive, lemma_seq_lt_total, lemma_seq_lt_transitive, seq_lt, str_eq, str_lt};

verus! {

/// One (term, campus) refresh target, as the shared contract names it: a Rutgers term
/// identifier and a campus code.
#[derive(Clone, Debug, Eq, Hash, Ord, PartialEq, PartialOrd)]
pub struct TermCampusKey {
    term: String,
    campus: String,
}

impl TermCampusKey {
    pub closed spec fn spec_term(&self) -> Seq<char> {
        self.term@
    }

    pub closed spec fn spec_campus(&self) -> Seq<char> {
        self.campus@
    }

    /// The key as a pair of character sequences.
    pub open spec fn spec_key(&self) -> (Seq<char>, Seq<char>) {
        (self.spec_term(), self.spec_campus())
    }

    pub fn new(term: String, campus: String) -> (res: Self)
        ensures
            res.spec_term() == term@,
            res.spec_campus() == campus@,
    {
        TermCampusKey { term, campus }
    }

    pub fn term(&self) -> (res: &str)
        ensures
            res@ == self.spec_term(),
    {
        self.term.as_str()
    }

    pub fn campus(&self) -> (res: &str)
        ensures
            res@ == self.spec_campus(),
    {
        self.campus.as_str()
    }

    /// Whether two keys name the same target.
    pub fn same_as(&self, other: &TermCampusKey) -> (res: bool)
        ensures
            res == (self.spec_key() == other.spec_key()),
    {
        str_eq(self.term.as_str(), other.term.as_str()) && str_eq(
            self.campus.as_str(),
            other.campus.as_str(),
        )
    }

    /// A copy of the key.
    pub fn copied(&self) -> (res: TermCampusKey)
        ensures
            res.spec_key() == self.spec_key(),
    {
        TermCampusKey { term: self.term.clone(), campus: self.campus.clone() }
    }
}

/// The keys of a sequence of targets.
pub open spec fn keys_of(targets: Seq<TermCampusKey>) -> Seq<(Seq<char>, Seq<char>)> {
    targets.map_values(|t: TermCampusKey| t.spec_key())
}

/// Whether `key` is among `targets`.
pub fn contains_key(targets: &Vec<TermCampusKey>, key: &TermCampusKey) -> (res: bool)
    ensures
        res == exists|i: int| 0 <= i < targets@.len() && (#[trigger] targets@[i]).spec_key()
            == key.spec_key(),
{
    let mut i: usize = 0;
    while i < targets.len()
        invariant
            i <= targets@.len(),
            forall|j: int| 0 <= j < i ==> (#[trigger] targets@[j]).spec_key() != key.spec_key(),
        decreases targets.len() - i,
    {
        if targets[i].same_as(key) {
            return true;
        }
        i = i + 1;
    }
    false
}

/// Index of `key` among `targets`, if present.
pub fn position_of(targets: &Vec<TermCampusKey>, key: &TermCampusKey) -> (res: Option<usize>)
    ensures
        match res {
            Some(i) => i < targets@.len() && targets@[i as int].spec_key() == key.spec_key(),
            None => forall|j: int| 0 <= j < targets@.len() ==> (#[trigger] targets@[j]).spec_key()
                != key.spec_key(),
        },
{
    let mut i: usize = 0;
    while i < targets.len()
        invariant
            i <= targets@.len(),
            forall|j: int| 0 <= j < i ==> (#[trigger] targets@[j]).spec_key() != key.spec_key(),
        decreases targets.len() - i,
    {
        if targets[i].same_as(key) {
            return Some(i);
        }
        i = i + 1;
    }
    None
}


/// The targets of a list of keyed entries.
pub open spec fn entry_targets<V>(entries: Seq<(TermCampusKey, V)>) -> Seq<(Seq<char>, Seq<char>)> {
    entries.map_values(|p: (TermCampusKey, V)| p.0.spec_key())
}

/// Some index of `key`'s entry.
pub open spec fn index_of_target<V>(entries: Seq<(TermCampusKey, V)>, key: (Seq<char>, Seq<char>)) -> int {
    choose|i: int| 0 <= i < entries.len() && (#[trigger] entries[i]).0.spec_key() == key
}

/// Keyed entries as a map from target to value.
pub open spec fn entries_map<V>(entries: Seq<(TermCampusKey, V)>) -> Map<(Seq<char>, Seq<char>), V> {
    Map::new(
        |k: (Seq<char>, Seq<char>)|
            exists|i: int| 0 <= i < entries.len() && (#[trigger] entries[i]).0.spec_key() == k,
        |k: (Seq<char>, Seq<char>)| entries[index_of_target(entries, k)].1,
    )
}

proof fn lemma_index_of_unique<V>(entries: Seq<(TermCampusKey, V)>, i: int)
    requires
        entry_targets(entries).no_duplicates(),
        0 <= i < entries.len(),
    ensures
        index_of_target(entries, entries[i].0.spec_key()) == i,
        entries_map(entries).contains_key(entries[i].0.spec_key()),
        entries_map(entries)[entries[i].0.spec_key()] == entries[i].1,
{
    let k = entries[i].0.spec_key();
    assert(exists|j: int| 0 <= j < entries.len() && (#[trigger] entries[j]).0.spec_key() == k);
    let j = index_of_target(entries, k);
    if j != i {
        assert(entry_targets(entries)[i] == entry_targets(entries)[j]);
    }
}

/// A map from targets to small values, one entry per target.
pub struct TargetMap<V> {
    entries: Vec<(TermCampusKey, V)>,
}

impl<V: Copy> TargetMap<V> {
    pub closed spec fn spec_map(&self) -> Map<(Seq<char>, Seq<char>), V> {
        entries_map(self.entries@)
    }

    pub closed spec fn wf(&self) -> bool {
        entry_targets(self.entries@).no_duplicates()
    }

    /// An empty map.
    pub fn new() -> (res: Self)
        ensures
            res.wf(),
            res.spec_map() == Map::<(Seq<char>, Seq<char>), V>::empty(),
    {
        let res = TargetMap { entries: Vec::new() };
        proof {
            assert(entries_map(res.entries@) =~= Map::empty());
        }
        res
    }

    fn find(&self, key: &TermCampusKey) -> (res: Option<usize>)
        requires
            self.wf(),
        ensures
            match res {
                Some(i) => i < self.entries@.len() && self.entries@[i as int].0.spec_key()
                    == key.spec_key(),
                None => !self.spec_map().contains_key(key.spec_key()),
            },
    {
        let mut i: usize = 0;
        while i < self.entries.len()
            invariant
                i <= self.entries@.len(),
                forall|j: int|
                    0 <= j < i ==> (#[trigger] self.entries@[j]).0.spec_key() != key.spec_key(),
            decreases self.entries.len() - i,
        {
            if self.entries[i].0.same_as(key) {
                return Some(i);
            }
            i = i + 1;
        }
        None
    }

    /// The value of `key`, if it has one.
    pub fn get(&self, key: &TermCampusKey) -> (res: Option<V>)
        requires
            self.wf(),
        ensures
            res == self.spec_map().get(key.spec_key()),
    {
        match self.find(key) {
            Some(i) => {
                proof {
                    lemma_index_of_unique(self.entries@, i as int);
                }
                Some(self.entries[i].1)
            },
            None => None,
        }
    }

    /// Sets `key` to `value` and returns its previous value.
    pub fn insert(&mut self, key: &TermCampusKey, value: V) -> (previous: Option<V>)
        requires
            old(self).wf(),
        ensures
            final(self).wf(),
            previous == old(self).spec_map().get(key.spec_key()),
            final(self).spec_map() == old(self).spec_map().insert(key.spec_key(), value),
    {
        let ghost k = key.spec_key();
        let ghost before = self.entries@;
        match self.find(key) {
            Some(i) => {
                proof {
                    lemma_index_of_unique(before, i as int);
                }
                let previous = self.entries[i].1;
                let entry = (self.entries[i].0.copied(), value);
                self.entries.set(i, entry);
                proof {
                    let after = self.entries@;
                    assert(entry_targets(after) =~= entry_targets(before));
                    assert forall|j: int| 0 <= j < after.len() implies #[trigger] after[j].0.spec_key()
                        == before[j].0.spec_key() by {
                    }
                    assert forall|kk: (Seq<char>, Seq<char>)| #[trigger] entries_map(after).contains_key(kk)
                        == old(self).spec_map().insert(k, value).contains_key(kk) by {
                        if entries_map(after).contains_key(kk) {
                            let j = choose|j: int| 0 <= j < after.len() && (#[trigger] after[j]).0.spec_key() == kk;
                            assert(before[j].0.spec_key() == kk);
                        }
                        if entries_map(before).contains_key(kk) {
                            let j = choose|j: int| 0 <= j < before.len() && (#[trigger] before[j]).0.spec_key() == kk;
                            assert(after[j].0.spec_key() == kk);
                        }
                        if kk == k {
                            assert(after[i as int].0.spec_key() == kk);
                        }
                    }
                    assert forall|kk: (Seq<char>, Seq<char>)| #[trigger] entries_map(after).contains_key(kk)
                        implies entries_map(after)[kk] == old(self).spec_map().insert(k, value)[kk] by {
                        let j = choose|j: int| 0 <= j < after.len() && (#[trigger] after[j]).0.spec_key() == kk;
                        lemma_index_of_unique(after, j);
                        lemma_index_of_unique(before, j);
                    }
                    assert(entries_map(after) =~= old(self).spec_map().insert(k, value));
                }
                Some(previous)
            },
            None => {
                let entry = (key.copied(), value);
                self.entries.push(entry);
                proof {
                    let after = self.entries@;
                    assert(after.drop_last() =~= before);
                    assert(entry_targets(after) =~= entry_targets(before).push(k));
                    assert(!entry_targets(before).contains(k)) by {
                        if entry_targets(before).contains(k) {
                            let m = choose|m: int| 0 <= m < entry_targets(before).len() && entry_targets(before)[m] == k;
                            assert(before[m].0.spec_key() == k);
                        }
                    }
                    assert forall|a: int, b: int|
                        0 <= a < entry_targets(after).len() && 0 <= b < entry_targets(after).len() && a != b
                            implies entry_targets(after)[a] != entry_targets(after)[b] by {
                        if a == after.len() - 1 {
                            assert(entry_targets(before)[b] == entry_targets(after)[b]);
                        } else if b == after.len() - 1 {
                            assert(entry_targets(before)[a] == entry_targets(after)[a]);
                        }
                    }
                    assert forall|kk: (Seq<char>, Seq<char>)| #[trigger] entries_map(after).contains_key(kk)
                        == old(self).spec_map().insert(k, value).contains_key(kk) by {
                        if entries_map(after).contains_key(kk) {
                            let j = choose|j: int| 0 <= j < after.len() && (#[trigger] after[j]).0.spec_key() == kk;
                            if j < before.len() {
                                assert(before[j] == after[j]);
                            }
                        }
                        if entries_map(before).contains_key(kk) {
                            let j = choose|j: int| 0 <= j < before.len() && (#[trigger] before[j]).0.spec_key() == kk;
                            assert(after[j] == before[j]);
                        }
                        if kk == k {
                            assert(after[after.len() - 1].0.spec_key() == kk);
                        }
                    }
                    assert forall|kk: (Seq<char>, Seq<char>)| #[trigger] entries_map(after).contains_key(kk)
                        implies entries_map(after)[kk] == old(self).spec_map().insert(k, value)[kk] by {
                        let j = choose|j: int| 0 <= j < after.len() && (#[trigger] after[j]).0.spec_key() == kk;
                        lemma_index_of_unique(after, j);
                        if j < before.len() {
                            assert(before[j] == after[j]);
                            lemma_index_of_unique(before, j);
                        }
                    }
                    assert(entries_map(after) =~= old(self).spec_map().insert(k, value));
                }
                None
            },
        }
    }

    /// Removes `key` and returns its previous value.
    pub fn remove(&mut self, key: &TermCampusKey) -> (previous: Option<V>)
        requires
            old(self).wf(),
        ensures
            final(self).wf(),
            previous == old(self).spec_map().get(key.spec_key()),
            final(self).spec_map() == old(self).spec_map().remove(key.spec_key()),
    {
        let ghost k = key.spec_key();
        let ghost before = self.entries@;
        match self.find(key) {
            Some(i) => {
                proof {
                    lemma_index_of_unique(before, i as int);
                }
                let entry = self.entries.remove(i);
                proof {
                    let after = self.entries@;
                    assert(after =~= before.subrange(0, i as int) + before.subrange(i + 1, before.len() as int));
                    assert forall|j: int| 0 <= j < after.len() implies #[trigger] after[j] == (if j < i {
                        before[j]
                    } else {
                        before[j + 1]
                    }) by {
                    }
                    assert forall|a: int, b: int|
                        0 <= a < entry_targets(after).len() && 0 <= b < entry_targets(after).len() && a != b
                            implies entry_targets(after)[a] != entry_targets(after)[b] by {
                        let a2 = if a < i { a } else { a + 1 };
                        let b2 = if b < i { b } else { b + 1 };
                        assert(entry_targets(after)[a] == entry_targets(before)[a2]);
                        assert(entry_targets(after)[b] == entry_targets(before)[b2]);
                    }
                    assert forall|kk: (Seq<char>, Seq<char>)| #[trigger] entries_map(after).contains_key(kk)
                        == old(self).spec_map().remove(k).contains_key(kk) by {
                        if entries_map(after).contains_key(kk) {
                            let j = choose|j: int| 0 <= j < after.len() && (#[trigger] after[j]).0.spec_key() == kk;
                            let j2 = if j < i { j } else { j + 1 };
                            assert(before[j2].0.spec_key() == kk);
                            if kk == k {
                                assert(entry_targets(before)[j2] == entry_targets(before)[i as int]);
                            }
                        }
                        if entries_map(before).contains_key(kk) && kk != k {
                            let j = choose|j: int| 0 <= j < before.len() && (#[trigger] before[j]).0.spec_key() == kk;
                            let j2 = if j < i { j } else { j - 1 };
                            assert(after[j2].0.spec_key() == kk);
                        }
                    }
                    assert forall|kk: (Seq<char>, Seq<char>)| #[trigger] entries_map(after).contains_key(kk)
                        implies entries_map(after)[kk] == old(self).spec_map().remove(k)[kk] by {
                        let j = choose|j: int| 0 <= j < after.len() && (#[trigger] after[j]).0.spec_key() == kk;
                        let j2 = if j < i { j } else { j + 1 };
                        lemma_index_of_unique(after, j);
                        lemma_index_of_unique(before, j2);
                    }
                    assert(entries_map(after) =~= old(self).spec_map().remove(k));
                }
                Some(entry.1)
            },
            None => {
                proof {
                    assert(old(self).spec_map().remove(k) =~= old(self).spec_map());
                }
                None
            },
        }
    }

    /// The targets that have an entry, each once.
    pub fn keys(&self) -> (res: Vec<TermCampusKey>)
        requires
            self.wf(),
        ensures
            keys_of(res@).no_duplicates(),
            forall|k: (Seq<char>, Seq<char>)|
                #[trigger] keys_of(res@).contains(k) == self.spec_map().contains_key(k),
    {
        let mut res: Vec<TermCampusKey> = Vec::new();
        let mut i: usize = 0;
        while i < self.entries.len()
            invariant
                i <= self.entries@.len(),
                entry_targets(self.entries@).no_duplicates(),
                keys_of(res@) == entry_targets(self.entries@).subrange(0, i as int),
            decreases self.entries.len() - i,
        {
            let ghost before = res@;
            res.push(self.entries[i].0.copied());
            proof {
                assert(keys_of(before).len() == before.len());
                assert(before.len() == i);
                assert(res@ == before.push(res@[i as int]));
                assert forall|j: int| 0 <= j < i + 1 implies #[trigger] keys_of(res@)[j]
                    == entry_targets(self.entries@)[j] by {
                    if j < i {
                        assert(res@[j] == before[j]);
                        assert(keys_of(before)[j] == entry_targets(self.entries@).subrange(0, i as int)[j]);
                    }
                }
                assert(keys_of(res@) =~= entry_targets(self.entries@).subrange(0, i + 1));
            }
            i = i + 1;
        }
        proof {
            let ks = entry_targets(self.entries@);
            assert(ks.subrange(0, ks.len() as int) =~= ks);
            assert forall|k: (Seq<char>, Seq<char>)|
                #[trigger] keys_of(res@).contains(k) == self.spec_map().contains_key(k) by {
                if ks.contains(k) {
                    let j = choose|j: int| 0 <= j < ks.len() && ks[j] == k;
                    assert(self.entries@[j].0.spec_key() == k);
                }
                if self.spec_map().contains_key(k) {
                    let j = choose|j: int| 0 <= j < self.entries@.len() && (#[trigger] self.entries@[j]).0.spec_key() == k;
                    assert(ks[j] == k);
                }
            }
        }
        res
    }
}

/// Strict order of target keys: by term, then by campus.
pub open spec fn key_lt(a: (Seq<char>, Seq<char>), b: (Seq<char>, Seq<char>)) -> bool {
    seq_lt(a.0, b.0) || (a.0 == b.0 && seq_lt(a.1, b.1))
}


/// The order of keys is a strict total order.
pub proof fn lemma_key_lt_order(a: (Seq<char>, Seq<char>), b: (Seq<char>, Seq<char>), c: (Seq<char>, Seq<char>))
    ensures
        !key_lt(a, a),
        !(key_lt(a, b) && key_lt(b, a)),
        a != b ==> key_lt(a, b) || key_lt(b, a),
        key_lt(a, b) && key_lt(b, c) ==> key_lt(a, c),
{
    lemma_seq_lt_irreflexive(a.0);
    lemma_seq_lt_irreflexive(a.1);
    lemma_seq_lt_total(a.0, b.0);
    lemma_seq_lt_total(a.1, b.1);
    if key_lt(a, b) && key_lt(b, c) {
        if seq_lt(a.0, b.0) && seq_lt(b.0, c.0) {
            lemma_seq_lt_transitive(a.0, b.0, c.0);
        } else if seq_lt(a.1, b.1) && seq_lt(b.1, c.1) && a.0 == b.0 && b.0 == c.0 {
            lemma_seq_lt_transitive(a.1, b.1, c.1);
        }
    }
    if a != b {
        assert(a.0 != b.0 || a.1 != b.1);
    }
}

/// Whether `a` orders strictly before `b`: by term, then by campus.
pub fn key_less(a: &TermCampusKey, b: &TermCampusKey) -> (res: bool)
    ensures
        res == key_lt(a.spec_key(), b.spec_key()),
{
    if str_lt(a.term.as_str(), b.term.as_str()) {
        return true;
    }
    str_eq(a.term.as_str(), b.term.as_str()) && str_lt(a.campus.as_str(), b.campus.as_str())
}

/// Keys in strictly increasing order.
pub open spec fn keys_sorted(keys: Seq<(Seq<char>, Seq<char>)>) -> bool {
    forall|i: int, j: int| 0 <= i < j < keys.len() ==> key_lt(#[trigger] keys[i], #[trigger] keys[j])
}

/// Two strictly increasing key lists with the same members are the same list.
pub proof fn lemma_sorted_keys_equal(s1: Seq<(Seq<char>, Seq<char>)>, s2: Seq<(Seq<char>, Seq<char>)>)
    requires
        keys_sorted(s1),
        keys_sorted(s2),
        forall|k: (Seq<char>, Seq<char>)| s1.contains(k) <==> s2.contains(k),
    ensures
        s1 == s2,
    decreases s1.len(),
{
    if s1.len() == 0 {
        if s2.len() > 0 {
            assert(s2.contains(s2[0]));
        }
        assert(s1 =~= s2);
    } else {
        assert(s1.contains(s1[0]));
        let j = choose|j: int| 0 <= j < s2.len() && s2[j] == s1[0];
        assert(s2.contains(s2[0]));
        let k = choose|k: int| 0 <= k < s1.len() && s1[k] == s2[0];
        if j > 0 {
            assert(key_lt(s2[0], s2[j]));
            if k > 0 {
                assert(key_lt(s1[0], s1[k]));
            }
            lemma_key_lt_order(s1[0], s2[0], s1[0]);
        }
        assert(s2[0] == s1[0]);
        let t1 = s1.drop_first();
        let t2 = s2.drop_first();
        assert forall|i: int, jj: int| 0 <= i < jj < t1.len() implies key_lt(#[trigger] t1[i], #[trigger] t1[jj]) by {
            assert(t1[i] == s1[i + 1] && t1[jj] == s1[jj + 1]);
        }
        assert forall|i: int, jj: int| 0 <= i < jj < t2.len() implies key_lt(#[trigger] t2[i], #[trigger] t2[jj]) by {
            assert(t2[i] == s2[i + 1] && t2[jj] == s2[jj + 1]);
        }
        assert forall|x: (Seq<char>, Seq<char>)| t1.contains(x) <==> t2.contains(x) by {
            lemma_key_lt_order(x, x, x);
            if t1.contains(x) {
                let a = choose|a: int| 0 <= a < t1.len() && t1[a] == x;
                assert(s1[a + 1] == x);
                assert(key_lt(s1[0], s1[a + 1]));
                assert(s2.contains(x));
                let b = choose|b: int| 0 <= b < s2.len() && s2[b] == x;
                assert(b != 0);
                assert(t2[b - 1] == x);
            }
            if t2.contains(x) {
                let a = choose|a: int| 0 <= a < t2.len() && t2[a] == x;
                assert(s2[a + 1] == x);
                assert(key_lt(s2[0], s2[a + 1]));
                assert(s1.contains(x));
                let b = choose|b: int| 0 <= b < s1.len() && s1[b] == x;
                assert(b != 0);
                assert(t1[b - 1] == x);
            }
        }
        lemma_sorted_keys_equal(t1, t2);
        assert(s1 =~= seq![s1[0]] + t1);
        assert(s2 =~= seq![s2[0]] + t2);
    }
}

/// Strictly increasing keys are distinct.
pub proof fn lemma_sorted_keys_are_distinct(keys: Seq<(Seq<char>, Seq<char>)>)
    requires
        keys_sorted(keys),
    ensures
        keys.no_duplicates(),
{
    assert forall|i: int, j: int| 0 <= i < keys.len() && 0 <= j < keys.len() && i != j implies keys[i]
        != keys[j] by {
        lemma_key_lt_order(keys[i], keys[j], keys[j]);
        lemma_key_lt_order(keys[j], keys[i], keys[i]);
    }
}

/// Inserts `t` into strictly sorted `sorted` at its place; reports `false`, and changes
/// nothing, when its key is already there.
pub fn insert_sorted(sorted: &mut Vec<TermCampusKey>, t: &TermCampusKey) -> (inserted: bool)
    requires
        keys_sorted(keys_of(old(sorted)@)),
    ensures
        keys_sorted(keys_of(final(sorted)@)),
        inserted == !keys_of(old(sorted)@).contains(t.spec_key()),
        forall|k: (Seq<char>, Seq<char>)|
            #[trigger] keys_of(final(sorted)@).contains(k) == (keys_of(old(sorted)@).contains(k) || k
                == t.spec_key()),
{
    let ghost before = keys_of(sorted@);
    let ghost key = t.spec_key();
    let mut pos: usize = 0;
    while pos < sorted.len() && key_less(&sorted[pos], t)
        invariant
            pos <= sorted@.len(),
            before == keys_of(sorted@),
            key == t.spec_key(),
            forall|k: int| 0 <= k < pos ==> key_lt(#[trigger] before[k], key),
        decreases sorted.len() - pos,
    {
        pos = pos + 1;
    }
    if pos < sorted.len() && sorted[pos].same_as(t) {
        proof {
            assert(before[pos as int] == key);
        }
        return false;
    }
    proof {
        // Every key from `pos` on orders after `t`.
        assert forall|k: int| pos <= k < before.len() implies key_lt(key, #[trigger] before[k]) by {
            lemma_key_lt_order(before[pos as int], key, key);
            lemma_key_lt_order(key, before[pos as int], before[k]);
            if k > pos {
                assert(key_lt(before[pos as int], before[k]));
            }
        }
        assert(!before.contains(key)) by {
            if before.contains(key) {
                let m = choose|m: int| 0 <= m < before.len() && before[m] == key;
                lemma_key_lt_order(key, key, key);
                if m < pos {
                    assert(key_lt(before[m], key));
                } else {
                    assert(key_lt(key, before[m]));
                }
            }
        }
    }
    sorted.insert(pos, t.copied());
    proof {
        let after = keys_of(sorted@);
        assert(after.len() == before.len() + 1);
        assert forall|k: int| 0 <= k < after.len() implies #[trigger] after[k] == (if k < pos {
            before[k]
        } else if k == pos {
            key
        } else {
            before[k - 1]
        }) by {
            assert(after[k] == sorted@[k].spec_key());
        }
        assert forall|i: int, j: int| 0 <= i < j < after.len() implies key_lt(
            #[trigger] after[i],
            #[trigger] after[j],
        ) by {
            if j < pos {
            } else if j == pos {
            } else if i == pos {
            } else if i < pos {
                lemma_key_lt_order(before[i], key, before[j - 1]);
            } else {
            }
        }
        assert forall|k: (Seq<char>, Seq<char>)| #[trigger] after.contains(k) == (before.contains(k)
            || k == key) by {
            if after.contains(k) {
                let m = choose|m: int| 0 <= m < after.len() && after[m] == k;
                if m < pos {
                    assert(before[m] == k);
                } else if m > pos {
                    assert(before[m - 1] == k);
                }
            }
            if before.contains(k) {
                let m = choose|m: int| 0 <= m < before.len() && before[m] == k;
                if m < pos {
                    assert(after[m] == k);
                } else {
                    assert(after[m + 1] == k);
                }
            }
            if k == key {
                assert(after[pos as int] == k);
            }
        }
    }
    true
}

} // verus!

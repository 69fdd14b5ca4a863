//! The rebuild worker's pending work and its decisions.
//!
//! Committed publication tickets reach the worker as requests. The worker coalesces them: Full
//! epochs into one set, Open epochs into one set per target. A pending Full rebuild dominates:
//! it runs first and pending Open overlays wait for the pass after it. What a finished build
//! means for its tickets is decided here too; the worker performs it.
use vstd::prelude::*;

use crate::publication::PreparedServingError;
use crate::target::{
    key_less, key_lt, keys_sorted, lemma_key_lt_order, lemma_sorted_keys_are_distinct, TermCampusKey,
};

verus! {

/// A request for the rebuild worker.
#[derive(Debug)]
pub enum PreparedRebuildRequest {
    /// Rebuild everything for the committed Full ticket with this epoch.
    Full(u64),
    /// Rebuild one target's Open overlay for its committed ticket with this epoch.
    Open(TermCampusKey, u64),
    /// Stop once the pending work is done.
    Shutdown,
}

/// The target of an entry of an Open work list.
pub open spec fn entry_keys(entries: Seq<(TermCampusKey, Vec<u64>)>) -> Seq<(Seq<char>, Seq<char>)> {
    entries.map_values(|p: (TermCampusKey, Vec<u64>)| p.0.spec_key())
}

/// The epochs an Open work list holds for `key`.
pub open spec fn epochs_for(entries: Seq<(TermCampusKey, Vec<u64>)>, key: (Seq<char>, Seq<char>)) -> Set<
    u64,
> {
    Set::new(
        |e: u64|
            exists|i: int|
                0 <= i < entries.len() && (#[trigger] entries[i]).0.spec_key() == key
                    && entries[i].1@.contains(e),
    )
}

/// An Open work list as a map from target to its epochs.
pub open spec fn open_work(entries: Seq<(TermCampusKey, Vec<u64>)>) -> Map<
    (Seq<char>, Seq<char>),
    Set<u64>,
> {
    Map::new(
        |k: (Seq<char>, Seq<char>)| entry_keys(entries).contains(k),
        |k: (Seq<char>, Seq<char>)| epochs_for(entries, k),
    )
}

/// `work` with `epochs` added to `key`'s set.
pub open spec fn add_epochs(
    work: Map<(Seq<char>, Seq<char>), Set<u64>>,
    key: (Seq<char>, Seq<char>),
    epochs: Set<u64>,
) -> Map<(Seq<char>, Seq<char>), Set<u64>> {
    if work.contains_key(key) {
        work.insert(key, work[key].union(epochs))
    } else {
        work.insert(key, epochs)
    }
}

/// Epochs in strictly increasing order, each once.
pub open spec fn ascending(s: Seq<u64>) -> bool {
    forall|i: int, j: int| 0 <= i < j < s.len() ==> #[trigger] s[i] < #[trigger] s[j]
}

/// Adds `e` to a strictly increasing list at its place; a present epoch is not added twice.
fn insert_ascending(v: &mut Vec<u64>, e: u64)
    requires
        ascending(old(v)@),
    ensures
        ascending(final(v)@),
        final(v)@.to_set() == old(v)@.to_set().insert(e),
{
    let mut p: usize = 0;
    while p < v.len() && v[p] < e
        invariant
            p <= v@.len(),
            forall|q: int| 0 <= q < p ==> #[trigger] v@[q] < e,
        decreases v.len() - p,
    {
        p = p + 1;
    }
    if p < v.len() && v[p] == e {
        proof {
            assert(v@.to_set() =~= v@.to_set().insert(e)) by {
                assert(v@.to_set().contains(v@[p as int]));
            }
        }
        return;
    }
    let ghost before = v@;
    v.insert(p, e);
    proof {
        let after = v@;
        assert(after =~= before.subrange(0, p as int).push(e) + before.subrange(p as int, before.len() as int));
        assert forall|i: int, j: int| 0 <= i < j < after.len() implies #[trigger] after[i] < #[trigger] after[j] by {
            if j < p {
                assert(after[i] == before[i] && after[j] == before[j]);
            } else if j == p {
                assert(after[i] == before[i]);
            } else if i == p {
                assert(after[j] == before[j - 1]);
                assert(before[p as int] >= e);
                if j - 1 > p {
                    assert(before[p as int] < before[j - 1]);
                }
            } else if i < p {
                assert(after[i] == before[i] && after[j] == before[j - 1]);
                assert(before[i] < e);
                assert(before[p as int] >= e);
                if j - 1 > p {
                    assert(before[p as int] < before[j - 1]);
                }
            } else {
                assert(after[i] == before[i - 1] && after[j] == before[j - 1]);
            }
        }
        assert forall|x: u64| #[trigger] after.to_set().contains(x) == before.to_set().insert(e).contains(x) by {
            if after.contains(x) {
                let k = choose|k: int| 0 <= k < after.len() && after[k] == x;
                if k < p {
                    assert(before[k] == x);
                } else if k > p {
                    assert(before[k - 1] == x);
                }
            }
            if before.contains(x) {
                let k = choose|k: int| 0 <= k < before.len() && before[k] == x;
                if k < p {
                    assert(after[k] == x);
                } else {
                    assert(after[k + 1] == x);
                }
            }
            if x == e {
                assert(after[p as int] == e);
            }
        }
        assert(after.to_set() =~= before.to_set().insert(e));
    }
}

/// Adds every epoch of `epochs` to a strictly increasing list.
fn extend_ascending(v: &mut Vec<u64>, epochs: &Vec<u64>)
    requires
        ascending(old(v)@),
    ensures
        ascending(final(v)@),
        final(v)@.to_set() == old(v)@.to_set().union(epochs@.to_set()),
{
    let mut j: usize = 0;
    while j < epochs.len()
        invariant
            j <= epochs@.len(),
            ascending(v@),
            v@.to_set() == old(v)@.to_set().union(epochs@.subrange(0, j as int).to_set()),
        decreases epochs.len() - j,
    {
        insert_ascending(v, epochs[j]);
        proof {
            assert(epochs@.subrange(0, j + 1) =~= epochs@.subrange(0, j as int).push(epochs@[j as int]));
            let s0 = epochs@.subrange(0, j as int);
            let s1 = epochs@.subrange(0, j + 1);
            assert forall|x: u64| #[trigger] s1.to_set().contains(x) == s0.to_set().insert(epochs@[j as int]).contains(x) by {
                if s1.contains(x) {
                    let k = choose|k: int| 0 <= k < s1.len() && s1[k] == x;
                    if k < j {
                        assert(s0[k] == x);
                    }
                }
                if s0.contains(x) {
                    let k = choose|k: int| 0 <= k < s0.len() && s0[k] == x;
                    assert(s1[k] == x);
                }
                if x == epochs@[j as int] {
                    assert(s1[j as int] == x);
                }
            }
            assert(s1.to_set() =~= s0.to_set().insert(epochs@[j as int]));
            assert(v@.to_set() =~= old(v)@.to_set().union(epochs@.subrange(0, j + 1).to_set()));
        }
        j = j + 1;
    }
    proof {
        assert(epochs@.subrange(0, epochs@.len() as int) =~= epochs@);
    }
}

/// One pass of the worker: all pending Full epochs, or else all pending Open work.
pub enum RebuildBatch {
    Full(Vec<u64>),
    Open(Vec<(TermCampusKey, Vec<u64>)>),
    Idle,
}

/// The coalesced work the rebuild worker has not started yet.
pub struct PendingRebuilds {
    full_epochs: Vec<u64>,
    open_targets: Vec<(TermCampusKey, Vec<u64>)>,
}

/// The index of `target`'s entry in an Open work list, if it has one.
fn find_entry(entries: &Vec<(TermCampusKey, Vec<u64>)>, target: &TermCampusKey) -> (res: Option<
    usize,
>)
    ensures
        match res {
            Some(i) => i < entries@.len() && entries@[i as int].0.spec_key() == target.spec_key(),
            None => forall|j: int|
                0 <= j < entries@.len() ==> (#[trigger] entries@[j]).0.spec_key()
                    != target.spec_key(),
        },
{
    let mut i: usize = 0;
    while i < entries.len()
        invariant
            i <= entries@.len(),
            forall|j: int| 0 <= j < i ==> (#[trigger] entries@[j]).0.spec_key() != target.spec_key(),
        decreases entries.len() - i,
    {
        if entries[i].0.same_as(target) {
            return Some(i);
        }
        i = i + 1;
    }
    None
}

impl PendingRebuilds {
    pub closed spec fn spec_full(&self) -> Set<u64> {
        self.full_epochs@.to_set()
    }

    pub closed spec fn spec_open(&self) -> Map<(Seq<char>, Seq<char>), Set<u64>> {
        open_work(self.open_targets@)
    }

    /// The pending Full epochs in increasing order, each once; each target has one entry.
    pub closed spec fn wf(&self) -> bool {
        &&& ascending(self.full_epochs@)
        &&& keys_sorted(entry_keys(self.open_targets@))
        &&& entry_keys(self.open_targets@).no_duplicates()
        &&& forall|i: int| 0 <= i < self.open_targets@.len() ==> ascending(#[trigger] self.open_targets@[i].1@)
    }

    /// Nothing pending.
    pub fn new() -> (res: Self)
        ensures
            res.wf(),
            res.spec_full() == Set::<u64>::empty(),
            res.spec_open() == Map::<(Seq<char>, Seq<char>), Set<u64>>::empty(),
    {
        let res = PendingRebuilds { full_epochs: Vec::new(), open_targets: Vec::new() };
        proof {
            assert(res.full_epochs@.to_set() =~= Set::empty());
            assert(open_work(res.open_targets@) =~= Map::empty());
        }
        res
    }

    /// Whether no work is pending.
    pub fn is_idle(&self) -> (res: bool)
        ensures
            res == (self.spec_full().is_empty() && self.spec_open().dom().is_empty()),
    {
        proof {
            if self.full_epochs@.len() > 0 {
                assert(self.full_epochs@.to_set().contains(self.full_epochs@[0]));
            }
            if self.open_targets@.len() > 0 {
                assert(entry_keys(self.open_targets@)[0] == self.open_targets@[0].0.spec_key());
                assert(self.spec_open().dom().contains(self.open_targets@[0].0.spec_key()));
            }
        }
        self.full_epochs.len() == 0 && self.open_targets.len() == 0
    }

    /// Adds `epoch` to the pending Full epochs.
    pub fn add_full_epoch(&mut self, epoch: u64)
        requires
            old(self).wf(),
        ensures
            final(self).wf(),
            final(self).spec_full() == old(self).spec_full().insert(epoch),
            final(self).spec_open() == old(self).spec_open(),
    {
        insert_ascending(&mut self.full_epochs, epoch);
    }

    /// Adds every epoch of `epochs` to the pending Full epochs.
    pub fn add_full_epochs(&mut self, epochs: &Vec<u64>)
        requires
            old(self).wf(),
        ensures
            final(self).wf(),
            final(self).spec_full() == old(self).spec_full().union(epochs@.to_set()),
            final(self).spec_open() == old(self).spec_open(),
    {
        let mut i: usize = 0;
        while i < epochs.len()
            invariant
                i <= epochs@.len(),
                self.wf(),
                self.spec_open() == old(self).spec_open(),
                self.spec_full() == old(self).spec_full().union(epochs@.subrange(0, i as int).to_set()),
            decreases epochs.len() - i,
        {
            self.add_full_epoch(epochs[i]);
            proof {
                assert(epochs@.subrange(0, i + 1).to_set() =~= epochs@.subrange(0, i as int).to_set().insert(epochs@[i as int])) by {
                    assert forall|e: u64| #[trigger] epochs@.subrange(0, i + 1).to_set().contains(e)
                        == epochs@.subrange(0, i as int).to_set().insert(epochs@[i as int]).contains(e) by {
                        let s1 = epochs@.subrange(0, i + 1);
                        let s0 = epochs@.subrange(0, i as int);
                        if s1.contains(e) {
                            let j = choose|j: int| 0 <= j < s1.len() && s1[j] == e;
                            if j < i {
                                assert(s0[j] == e);
                            }
                        }
                        if s0.contains(e) {
                            let j = choose|j: int| 0 <= j < s0.len() && s0[j] == e;
                            assert(s1[j] == e);
                        }
                        assert(s1[i as int] == epochs@[i as int]);
                    }
                }
            }
            i = i + 1;
        }
        proof {
            assert(epochs@.subrange(0, epochs@.len() as int) =~= epochs@);
        }
    }

    /// Adds `epochs` to the pending Open work of `target`.
    pub fn add_open_epochs(&mut self, target: &TermCampusKey, epochs: &Vec<u64>)
        requires
            old(self).wf(),
        ensures
            final(self).wf(),
            final(self).spec_full() == old(self).spec_full(),
            final(self).spec_open() == add_epochs(
                old(self).spec_open(),
                target.spec_key(),
                epochs@.to_set(),
            ),
    {
        let ghost key = target.spec_key();
        let ghost old_entries = self.open_targets@;
        let found = find_entry(&self.open_targets, target);
        if let Some(i) = found {
            // The target has its entry at `i`: extend its epochs.
            let mut entry = self.open_targets.remove(i);
            let ghost before = entry.1@;
            proof {
                assert(ascending(old_entries[i as int].1@));
            }
            extend_ascending(&mut entry.1, epochs);
            self.open_targets.insert(i, entry);
            proof {
                let new_entries = self.open_targets@;
                assert forall|m: int| 0 <= m < new_entries.len() implies ascending(#[trigger] new_entries[m].1@) by {
                    if m != i {
                        assert(new_entries[m] == old_entries[m]);
                    }
                }
                assert(new_entries =~= old_entries.update(i as int, new_entries[i as int]));
                assert(entry_keys(new_entries) =~= entry_keys(old_entries));
                assert forall|k: (Seq<char>, Seq<char>)| #[trigger] epochs_for(new_entries, k) =~= (if k == key {
                    epochs_for(old_entries, k).union(epochs@.to_set())
                } else {
                    epochs_for(old_entries, k)
                }) by {
                    assert forall|e: u64| #[trigger] epochs_for(new_entries, k).contains(e) == (if k == key {
                        epochs_for(old_entries, k).union(epochs@.to_set())
                    } else {
                        epochs_for(old_entries, k)
                    }).contains(e) by {
                        if epochs_for(new_entries, k).contains(e) {
                            let m = choose|m: int| 0 <= m < new_entries.len() && (#[trigger] new_entries[m]).0.spec_key() == k
                                && new_entries[m].1@.contains(e);
                            if m != i {
                                assert(old_entries[m] == new_entries[m]);
                            } else {
                                assert(new_entries[m].1@.to_set().contains(e));
                                if before.contains(e) {
                                    assert(old_entries[m].1@.contains(e));
                                } else {
                                    assert(epochs@.to_set().contains(e));
                                }
                            }
                        }
                        if epochs_for(old_entries, k).contains(e) {
                            let m = choose|m: int| 0 <= m < old_entries.len() && (#[trigger] old_entries[m]).0.spec_key() == k
                                && old_entries[m].1@.contains(e);
                            if m != i {
                                assert(old_entries[m] == new_entries[m]);
                            } else {
                                assert(before.to_set().contains(e));
                                assert(new_entries[m].1@.to_set().contains(e));
                            }
                        }
                        if k == key && epochs@.contains(e) {
                            assert(epochs@.to_set().contains(e));
                            assert(new_entries[i as int].1@.to_set().contains(e));
                            assert(new_entries[i as int].0.spec_key() == k);
                        }
                    }
                }
                assert(self.spec_open() =~= add_epochs(old(self).spec_open(), key, epochs@.to_set())) by {
                    assert(old(self).spec_open().contains_key(key)) by {
                        assert(entry_keys(old_entries)[i as int] == key);
                    }
                }
            }
        } else {
            let mut fresh: Vec<u64> = Vec::new();
            extend_ascending(&mut fresh, epochs);
            proof {
                assert(fresh@.to_set() =~= epochs@.to_set());
            }
            let mut p: usize = 0;
            while p < self.open_targets.len() && key_less(&self.open_targets[p].0, target)
                invariant
                    p <= self.open_targets@.len(),
                    self.open_targets@ == old_entries,
                    key == target.spec_key(),
                    forall|q: int| 0 <= q < p ==> key_lt((#[trigger] old_entries[q]).0.spec_key(), key),
                decreases self.open_targets.len() - p,
            {
                p = p + 1;
            }
            let entry = (target.copied(), fresh);
            self.open_targets.insert(p, entry);
            proof {
                let new_entries = self.open_targets@;
                assert(!entry_keys(old_entries).contains(key)) by {
                    if entry_keys(old_entries).contains(key) {
                        let m = choose|m: int| 0 <= m < entry_keys(old_entries).len() && entry_keys(old_entries)[m] == key;
                        assert(old_entries[m].0.spec_key() == key);
                    }
                }
                assert forall|q: int| 0 <= q < p implies #[trigger] new_entries[q] == old_entries[q] by {}
                assert forall|q: int| p < q < new_entries.len() implies #[trigger] new_entries[q] == old_entries[q - 1] by {}
                lemma_insert_entry(old_entries, p as int, new_entries, key, epochs@.to_set());
            }
        }
    }
}


/// Two work maps together: each target gets the union of its epochs in both.
pub open spec fn merge_work(
    a: Map<(Seq<char>, Seq<char>), Set<u64>>,
    b: Map<(Seq<char>, Seq<char>), Set<u64>>,
) -> Map<(Seq<char>, Seq<char>), Set<u64>> {
    Map::new(
        |k: (Seq<char>, Seq<char>)| a.contains_key(k) || b.contains_key(k),
        |k: (Seq<char>, Seq<char>)|
            (if a.contains_key(k) {
                a[k]
            } else {
                Set::empty()
            }).union(
                if b.contains_key(k) {
                    b[k]
                } else {
                    Set::empty()
                },
            ),
    )
}

proof fn lemma_open_work_step(entries: Seq<(TermCampusKey, Vec<u64>)>, i: int)
    requires
        0 <= i < entries.len(),
    ensures
        open_work(entries.subrange(0, i + 1)) == add_epochs(
            open_work(entries.subrange(0, i)),
            entries[i].0.spec_key(),
            entries[i].1@.to_set(),
        ),
{
    let s0 = entries.subrange(0, i);
    let s1 = entries.subrange(0, i + 1);
    let key = entries[i].0.spec_key();
    assert(s1 =~= s0.push(entries[i]));
    assert forall|k: (Seq<char>, Seq<char>)| #[trigger] entry_keys(s1).contains(k) == (entry_keys(
        s0,
    ).contains(k) || k == key) by {
        if entry_keys(s1).contains(k) {
            let m = choose|m: int| 0 <= m < entry_keys(s1).len() && entry_keys(s1)[m] == k;
            if m < s0.len() {
                assert(entry_keys(s0)[m] == k);
            }
        }
        if entry_keys(s0).contains(k) {
            let m = choose|m: int| 0 <= m < entry_keys(s0).len() && entry_keys(s0)[m] == k;
            assert(entry_keys(s1)[m] == k);
        }
        if k == key {
            assert(entry_keys(s1)[i] == k);
        }
    }
    assert forall|k: (Seq<char>, Seq<char>)| #[trigger] epochs_for(s1, k) =~= (if k == key {
        epochs_for(s0, k).union(entries[i].1@.to_set())
    } else {
        epochs_for(s0, k)
    }) by {
        assert forall|e: u64| #[trigger] epochs_for(s1, k).contains(e) == (if k == key {
            epochs_for(s0, k).union(entries[i].1@.to_set())
        } else {
            epochs_for(s0, k)
        }).contains(e) by {
            if epochs_for(s1, k).contains(e) {
                let m = choose|m: int|
                    0 <= m < s1.len() && (#[trigger] s1[m]).0.spec_key() == k && s1[m].1@.contains(e);
                if m < i {
                    assert(s0[m] == s1[m]);
                }
            }
            if epochs_for(s0, k).contains(e) {
                let m = choose|m: int|
                    0 <= m < s0.len() && (#[trigger] s0[m]).0.spec_key() == k && s0[m].1@.contains(e);
                assert(s0[m] == s1[m]);
            }
            if k == key && entries[i].1@.contains(e) {
                assert(s1[i] == entries[i]);
            }
        }
    }
    if entry_keys(s0).contains(key) {
        assert(open_work(s1) =~= open_work(s0).insert(key, open_work(s0)[key].union(entries[i].1@.to_set())));
    } else {
        assert forall|e: u64| !#[trigger] epochs_for(s0, key).contains(e) by {
            if epochs_for(s0, key).contains(e) {
                let m = choose|m: int|
                    0 <= m < s0.len() && (#[trigger] s0[m]).0.spec_key() == key && s0[m].1@.contains(e);
                assert(entry_keys(s0)[m] == key);
            }
        }
        assert(epochs_for(s0, key).union(entries[i].1@.to_set()) =~= entries[i].1@.to_set());
        assert(open_work(s1) =~= open_work(s0).insert(key, entries[i].1@.to_set()));
    }
}

proof fn lemma_merge_add(
    a: Map<(Seq<char>, Seq<char>), Set<u64>>,
    b: Map<(Seq<char>, Seq<char>), Set<u64>>,
    k: (Seq<char>, Seq<char>),
    epochs: Set<u64>,
)
    ensures
        merge_work(a, add_epochs(b, k, epochs)) == add_epochs(merge_work(a, b), k, epochs),
{
    let lhs = merge_work(a, add_epochs(b, k, epochs));
    let rhs = add_epochs(merge_work(a, b), k, epochs);
    assert forall|j: (Seq<char>, Seq<char>)| #[trigger] lhs.contains_key(j) implies lhs[j] =~= rhs[j] by {
    }
    assert(lhs =~= rhs);
}

/// Inserting a new target's entry at its place in a key-sorted work list adds its epochs and
/// keeps the list sorted.
proof fn lemma_insert_entry(
    old_entries: Seq<(TermCampusKey, Vec<u64>)>,
    p: int,
    new_entries: Seq<(TermCampusKey, Vec<u64>)>,
    key: (Seq<char>, Seq<char>),
    epochs: Set<u64>,
)
    requires
        0 <= p <= old_entries.len(),
        keys_sorted(entry_keys(old_entries)),
        forall|i: int| 0 <= i < old_entries.len() ==> ascending(#[trigger] old_entries[i].1@),
        forall|q: int| 0 <= q < p ==> key_lt((#[trigger] old_entries[q]).0.spec_key(), key),
        p < old_entries.len() ==> !key_lt(old_entries[p].0.spec_key(), key),
        !entry_keys(old_entries).contains(key),
        new_entries.len() == old_entries.len() + 1,
        new_entries[p].0.spec_key() == key,
        new_entries[p].1@.to_set() == epochs,
        ascending(new_entries[p].1@),
        forall|q: int| 0 <= q < p ==> #[trigger] new_entries[q] == old_entries[q],
        forall|q: int| p < q < new_entries.len() ==> #[trigger] new_entries[q] == old_entries[q - 1],
    ensures
        keys_sorted(entry_keys(new_entries)),
        entry_keys(new_entries).no_duplicates(),
        forall|i: int| 0 <= i < new_entries.len() ==> ascending(#[trigger] new_entries[i].1@),
        open_work(new_entries) == add_epochs(open_work(old_entries), key, epochs),
{
    let ok = entry_keys(old_entries);
    let nk = entry_keys(new_entries);
    if p < old_entries.len() {
        lemma_key_lt_order(ok[p], key, key);
        assert(ok[p] != key) by {
            assert(ok.contains(ok[p]));
        }
    }
    assert forall|a: int, b: int| 0 <= a < b < nk.len() implies key_lt(#[trigger] nk[a], #[trigger] nk[b]) by {
        if b < p {
            assert(nk[a] == ok[a] && nk[b] == ok[b]);
        } else if b == p {
            assert(nk[a] == ok[a]);
        } else if a == p {
            assert(nk[b] == ok[b - 1]);
            if b - 1 > p {
                assert(key_lt(ok[p], ok[b - 1]));
                lemma_key_lt_order(key, ok[p], ok[b - 1]);
            }
        } else if a < p {
            assert(nk[a] == ok[a] && nk[b] == ok[b - 1]);
            lemma_key_lt_order(ok[a], key, ok[p]);
            if b - 1 > p {
                assert(key_lt(ok[p], ok[b - 1]));
                lemma_key_lt_order(ok[a], ok[p], ok[b - 1]);
            }
        } else {
            assert(nk[a] == ok[a - 1] && nk[b] == ok[b - 1]);
        }
    }
    lemma_sorted_keys_are_distinct(nk);
    assert forall|i: int| 0 <= i < new_entries.len() implies ascending(#[trigger] new_entries[i].1@) by {
        if i < p {
            assert(new_entries[i] == old_entries[i]);
        } else if i > p {
            assert(new_entries[i] == old_entries[i - 1]);
        }
    }
    assert forall|k: (Seq<char>, Seq<char>)| #[trigger] nk.contains(k) == (ok.contains(k) || k == key) by {
        if nk.contains(k) {
            let m = choose|m: int| 0 <= m < nk.len() && nk[m] == k;
            if m < p {
                assert(ok[m] == k);
            } else if m > p {
                assert(ok[m - 1] == k);
            }
        }
        if ok.contains(k) {
            let m = choose|m: int| 0 <= m < ok.len() && ok[m] == k;
            if m < p {
                assert(nk[m] == k);
            } else {
                assert(nk[m + 1] == k);
            }
        }
        if k == key {
            assert(nk[p] == k);
        }
    }
    assert forall|k: (Seq<char>, Seq<char>)| #[trigger] epochs_for(new_entries, k) =~= (if k == key {
        epochs
    } else {
        epochs_for(old_entries, k)
    }) by {
        assert forall|e: u64| #[trigger] epochs_for(new_entries, k).contains(e) == (if k == key {
            epochs
        } else {
            epochs_for(old_entries, k)
        }).contains(e) by {
            if epochs_for(new_entries, k).contains(e) {
                let m = choose|m: int| 0 <= m < new_entries.len() && (#[trigger] new_entries[m]).0.spec_key() == k
                    && new_entries[m].1@.contains(e);
                if m < p {
                    assert(old_entries[m] == new_entries[m]);
                    if k == key {
                        assert(ok[m] == key);
                        assert(ok.contains(key));
                    }
                } else if m > p {
                    assert(old_entries[m - 1] == new_entries[m]);
                    if k == key {
                        assert(ok[m - 1] == key);
                        assert(ok.contains(key));
                    }
                } else {
                    assert(new_entries[p].1@.to_set().contains(e));
                }
            }
            if k != key && epochs_for(old_entries, k).contains(e) {
                let m = choose|m: int| 0 <= m < old_entries.len() && (#[trigger] old_entries[m]).0.spec_key() == k
                    && old_entries[m].1@.contains(e);
                if m < p {
                    assert(new_entries[m] == old_entries[m]);
                } else {
                    assert(new_entries[m + 1] == old_entries[m]);
                }
            }
            if k == key && epochs.contains(e) {
                assert(new_entries[p].1@.to_set().contains(e));
            }
        }
    }
    assert forall|e: u64| !#[trigger] epochs_for(old_entries, key).contains(e) by {
        if epochs_for(old_entries, key).contains(e) {
            let m = choose|m: int| 0 <= m < old_entries.len() && (#[trigger] old_entries[m]).0.spec_key() == key
                && old_entries[m].1@.contains(e);
            assert(ok[m] == key);
            assert(ok.contains(key));
        }
    }
    assert(open_work(new_entries) =~= add_epochs(open_work(old_entries), key, epochs));
}

impl PendingRebuilds {
    /// Merges one request into the pending work; reports whether it asked to shut down.
    pub fn merge_request(&mut self, request: PreparedRebuildRequest) -> (shutdown: bool)
        requires
            old(self).wf(),
        ensures
            final(self).wf(),
            match request {
                PreparedRebuildRequest::Full(epoch) => {
                    &&& !shutdown
                    &&& final(self).spec_full() == old(self).spec_full().insert(epoch)
                    &&& final(self).spec_open() == old(self).spec_open()
                },
                PreparedRebuildRequest::Open(target, epoch) => {
                    &&& !shutdown
                    &&& final(self).spec_full() == old(self).spec_full()
                    &&& final(self).spec_open() == add_epochs(
                        old(self).spec_open(),
                        target.spec_key(),
                        Set::empty().insert(epoch),
                    )
                },
                PreparedRebuildRequest::Shutdown => {
                    &&& shutdown
                    &&& final(self).spec_full() == old(self).spec_full()
                    &&& final(self).spec_open() == old(self).spec_open()
                },
            },
    {
        match request {
            PreparedRebuildRequest::Full(epoch) => {
                self.add_full_epoch(epoch);
                false
            },
            PreparedRebuildRequest::Open(target, epoch) => {
                let epochs = vec![epoch];
                proof {
                    assert(epochs@.to_set() =~= Set::empty().insert(epoch)) by {
                        assert(epochs@[0] == epoch);
                    }
                }
                self.add_open_epochs(&target, &epochs);
                false
            },
            PreparedRebuildRequest::Shutdown => true,
        }
    }

    /// Puts the Open work of a pass that must run again back into the pending work.
    pub fn requeue_open(&mut self, executed: &Vec<(TermCampusKey, Vec<u64>)>)
        requires
            old(self).wf(),
        ensures
            final(self).wf(),
            final(self).spec_full() == old(self).spec_full(),
            final(self).spec_open() == merge_work(old(self).spec_open(), open_work(executed@)),
    {
        let mut i: usize = 0;
        proof {
            assert(open_work(executed@.subrange(0, 0)) =~= Map::empty());
            assert(merge_work(old(self).spec_open(), Map::empty()) =~= old(self).spec_open()) by {
                assert forall|j: (Seq<char>, Seq<char>)| #[trigger] old(self).spec_open().contains_key(j)
                    implies merge_work(old(self).spec_open(), Map::empty())[j] =~= old(self).spec_open()[j] by {
                }
            }
        }
        while i < executed.len()
            invariant
                i <= executed@.len(),
                self.wf(),
                self.spec_full() == old(self).spec_full(),
                self.spec_open() == merge_work(
                    old(self).spec_open(),
                    open_work(executed@.subrange(0, i as int)),
                ),
            decreases executed.len() - i,
        {
            self.add_open_epochs(&executed[i].0, &executed[i].1);
            proof {
                lemma_open_work_step(executed@, i as int);
                lemma_merge_add(
                    old(self).spec_open(),
                    open_work(executed@.subrange(0, i as int)),
                    executed@[i as int].0.spec_key(),
                    executed@[i as int].1@.to_set(),
                );
            }
            i = i + 1;
        }
        proof {
            assert(executed@.subrange(0, executed@.len() as int) =~= executed@);
        }
    }

    /// Takes the next pass: every pending Full epoch when there is one, which leaves the Open
    /// work pending; otherwise all the Open work.
    pub fn take_batch(&mut self) -> (res: RebuildBatch)
        requires
            old(self).wf(),
        ensures
            final(self).wf(),
            match res {
                RebuildBatch::Full(epochs) => {
                    &&& !old(self).spec_full().is_empty()
                    &&& ascending(epochs@)
                    &&& epochs@.to_set() == old(self).spec_full()
                    &&& final(self).spec_full().is_empty()
                    &&& final(self).spec_open() == old(self).spec_open()
                },
                RebuildBatch::Open(entries) => {
                    &&& old(self).spec_full().is_empty()
                    &&& !old(self).spec_open().dom().is_empty()
                    &&& open_work(entries@) == old(self).spec_open()
                    &&& keys_sorted(entry_keys(entries@))
                    &&& entry_keys(entries@).no_duplicates()
                    &&& forall|i: int| 0 <= i < entries@.len() ==> ascending(#[trigger] entries@[i].1@)
                    &&& final(self).spec_full().is_empty()
                    &&& final(self).spec_open().dom().is_empty()
                },
                RebuildBatch::Idle => {
                    &&& old(self).spec_full().is_empty()
                    &&& old(self).spec_open().dom().is_empty()
                    &&& final(self).spec_full() == old(self).spec_full()
                    &&& final(self).spec_open() == old(self).spec_open()
                },
            },
    {
        if self.full_epochs.len() > 0 {
            let mut epochs: Vec<u64> = Vec::new();
            std::mem::swap(&mut epochs, &mut self.full_epochs);
            proof {
                assert(epochs@.to_set().contains(epochs@[0]));
                assert(self.full_epochs@.to_set() =~= Set::empty());
            }
            RebuildBatch::Full(epochs)
        } else if self.open_targets.len() > 0 {
            let mut entries: Vec<(TermCampusKey, Vec<u64>)> = Vec::new();
            std::mem::swap(&mut entries, &mut self.open_targets);
            proof {
                assert(self.full_epochs@.to_set() =~= Set::empty());
                assert(entry_keys(entries@)[0] == entries@[0].0.spec_key());
                assert(old(self).spec_open().dom().contains(entries@[0].0.spec_key()));
                assert(open_work(self.open_targets@).dom() =~= Set::empty());
            }
            RebuildBatch::Open(entries)
        } else {
            proof {
                assert(self.full_epochs@.to_set() =~= Set::empty());
                assert(open_work(self.open_targets@).dom() =~= Set::empty());
            }
            RebuildBatch::Idle
        }
    }
}

/// How a rebuild pass ended, as far as the follow-up depends on it.
#[derive(Clone, Copy, Debug, Eq, PartialEq, Structural)]
pub enum RebuildOutcome {
    /// The generation was published.
    Published,
    /// The authoritative store or the current generation moved under the build.
    Superseded,
    /// Shutdown cancelled the build.
    Cancelled,
    /// An Open overlay could not be built on the current generation.
    TargetUnavailable,
    /// Any other failure, including a worker that did not finish.
    Failed,
}

/// What the worker does with the tickets of a finished pass.
#[derive(Clone, Copy, Debug, Eq, PartialEq, Structural)]
pub enum RebuildFollowup {
    /// Clear the executed tickets: admission may open.
    ClearExecuted,
    /// Put the executed work back and run it again at once.
    Retry,
    /// Put the executed work back and run it again after a pause.
    RetryAfterBackoff,
    /// Replace the executed Open tickets by one Full ticket and rebuild everything.
    PromoteToFull,
    /// Leave the tickets in place: admission stays closed while the worker stops.
    Hold,
}

/// The outcome a build error stands for.
pub fn rebuild_outcome_of(error: &PreparedServingError) -> (res: RebuildOutcome)
    ensures
        res == (match error {
            PreparedServingError::PublicationChanged | PreparedServingError::SupersededBuild =>
                RebuildOutcome::Superseded,
            PreparedServingError::RebuildCancelled => RebuildOutcome::Cancelled,
            PreparedServingError::TargetNotPrepared(_) | PreparedServingError::SnapshotUnavailable
            | PreparedServingError::PreparedDictionaryUnavailable => RebuildOutcome::TargetUnavailable,
            _ => RebuildOutcome::Failed,
        }),
{
    match error {
        PreparedServingError::PublicationChanged | PreparedServingError::SupersededBuild =>
            RebuildOutcome::Superseded,
        PreparedServingError::RebuildCancelled => RebuildOutcome::Cancelled,
        PreparedServingError::TargetNotPrepared(_) | PreparedServingError::SnapshotUnavailable
        | PreparedServingError::PreparedDictionaryUnavailable => RebuildOutcome::TargetUnavailable,
        _ => RebuildOutcome::Failed,
    }
}

/// The follow-up of a pass. A published pass clears its tickets. Otherwise a shutting-down
/// worker holds every ticket (fail-closed); a superseded pass runs again at once; an Open pass
/// whose overlay cannot be built becomes a Full rebuild; a failed Full pass clears its tickets
/// only if the authoritative Catalog generation is unchanged, and every other failure runs
/// again after a pause.
pub fn rebuild_followup(
    execute_full: bool,
    outcome: RebuildOutcome,
    shutdown_requested: bool,
    source_unchanged: bool,
) -> (res: RebuildFollowup)
    ensures
        outcome == RebuildOutcome::Published ==> res == RebuildFollowup::ClearExecuted,
        outcome != RebuildOutcome::Published && shutdown_requested ==> res == RebuildFollowup::Hold,
        outcome == RebuildOutcome::Cancelled ==> res == RebuildFollowup::Hold,
        outcome == RebuildOutcome::Superseded && !shutdown_requested ==> res
            == RebuildFollowup::Retry,
        outcome == RebuildOutcome::TargetUnavailable && !execute_full && !shutdown_requested ==> res
            == RebuildFollowup::PromoteToFull,
        (outcome == RebuildOutcome::Failed || (outcome == RebuildOutcome::TargetUnavailable
            && execute_full)) && !shutdown_requested ==> res == (if execute_full && source_unchanged {
            RebuildFollowup::ClearExecuted
        } else {
            RebuildFollowup::RetryAfterBackoff
        }),
{
    match outcome {
        RebuildOutcome::Published => RebuildFollowup::ClearExecuted,
        RebuildOutcome::Cancelled => RebuildFollowup::Hold,
        _ => {
            if shutdown_requested {
                RebuildFollowup::Hold
            } else {
                match outcome {
                    RebuildOutcome::Superseded => RebuildFollowup::Retry,
                    RebuildOutcome::TargetUnavailable if !execute_full => RebuildFollowup::PromoteToFull,
                    _ => {
                        if execute_full && source_unchanged {
                            RebuildFollowup::ClearExecuted
                        } else {
                            RebuildFollowup::RetryAfterBackoff
                        }
                    },
                }
            }
        },
    }
}

/// Requests coalesce: adding the same epochs for a target twice is adding them once.
pub proof fn lemma_repeated_request_coalesces(
    work: Map<(Seq<char>, Seq<char>), Set<u64>>,
    key: (Seq<char>, Seq<char>),
    epochs: Set<u64>,
)
    ensures
        add_epochs(add_epochs(work, key, epochs), key, epochs) == add_epochs(work, key, epochs),
{
    let once = add_epochs(work, key, epochs);
    assert(once[key].union(epochs) =~= once[key]);
    assert(add_epochs(once, key, epochs) =~= once);
}

/// Work that was taken for a pass and put back unchanged is exactly the work that was
/// pending, so a retried pass loses no ticket.
pub proof fn lemma_requeue_after_take_restores(work: Map<(Seq<char>, Seq<char>), Set<u64>>)
    ensures
        merge_work(Map::empty(), work) == work,
{
    let merged = merge_work(Map::empty(), work);
    assert forall|k: (Seq<char>, Seq<char>)| #[trigger] merged.contains_key(k) implies merged[k]
        =~= work[k] by {
    }
    assert(merged =~= work);
}

/// Requeued work keeps whatever arrived during the pass: no pending epoch is dropped.
pub proof fn lemma_requeue_keeps_arrivals(
    pending: Map<(Seq<char>, Seq<char>), Set<u64>>,
    executed: Map<(Seq<char>, Seq<char>), Set<u64>>,
    key: (Seq<char>, Seq<char>),
    epoch: u64,
)
    requires
        (pending.contains_key(key) && pending[key].contains(epoch)) || (executed.contains_key(key)
            && executed[key].contains(epoch)),
    ensures
        merge_work(pending, executed).contains_key(key),
        merge_work(pending, executed)[key].contains(epoch),
{
}

} // verus!

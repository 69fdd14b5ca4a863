//! Publication tickets of the prepared serving registry.
//!
//! Every authoritative publication installs a ticket before its SQLite transaction: a Full
//! ticket for a Catalog publication, an Open ticket for one target's Open commit. A ticket is
//! `Precommit` until the transaction commits and `Committed` until the rebuild worker has
//! published the generation that reflects it. Any Full ticket, or any committed Open ticket,
//! closes admission of new requests to the current generation; a precommit Open ticket only
//! marks its target's Open evidence as unavailable.
use std::sync::atomic::{AtomicBool, Ordering};
use std::sync::Arc;

use vstd::prelude::*;

use crate::target::{contains_key, insert_sorted, keys_of, keys_sorted, TermCampusKey};

verus! {

/// Resident byte budget of one prepared Catalog/FTS foundation.
pub const PREPARED_FOUNDATION_RESIDENT_BYTE_BUDGET: u64 = 536870912;

/// Byte budget of the SQLite page cache beside the prepared generation.
pub const PREPARED_SQLITE_CACHE_BYTE_BUDGET: u64 = 16777216;

/// Failures of the prepared serving registry and its publication tickets.
#[derive(Clone, Debug, Eq, PartialEq)]
pub enum PreparedServingError {
    SnapshotUnavailable,
    SnapshotRebuilding,
    RegistryUnavailable,
    PublicationBarrierBusy,
    PublicationBarrierUnavailable,
    PublicationWorkerUnavailable,
    StorageAccessUnavailable,
    SupersededBuild,
    RebuildCancelled,
    PreparedFtsUnavailable,
    InvalidFtsInput { field: &'static str },
    TargetNotPrepared(TermCampusKey),
    PublicationChanged,
    StoredIntegerOutOfRange,
    ResidentBudgetExceeded { estimated_bytes: u64, budget_bytes: u64 },
    PreparedDictionaryUnavailable,
}

/// A generation whose estimated resident size exceeds the foundation budget is refused.
pub fn ensure_prepared_resident_budget(estimated_bytes: u64) -> (res: Result<
    (),
    PreparedServingError,
>)
    ensures
        estimated_bytes <= PREPARED_FOUNDATION_RESIDENT_BYTE_BUDGET ==> res is Ok,
        estimated_bytes > PREPARED_FOUNDATION_RESIDENT_BYTE_BUDGET ==> res == Err::<
            (),
            PreparedServingError,
        >(
            PreparedServingError::ResidentBudgetExceeded {
                estimated_bytes,
                budget_bytes: PREPARED_FOUNDATION_RESIDENT_BYTE_BUDGET,
            },
        ),
{
    if estimated_bytes > PREPARED_FOUNDATION_RESIDENT_BYTE_BUDGET {
        Err(
            PreparedServingError::ResidentBudgetExceeded {
                estimated_bytes,
                budget_bytes: PREPARED_FOUNDATION_RESIDENT_BYTE_BUDGET,
            },
        )
    } else {
        Ok(())
    }
}

/// The resident estimate of a generation: four times the serialized Catalog bytes, plus the
/// dictionaries, the query indexes and the Open indexes. A sum past `u64::MAX` is refused as
/// out of range, and one past the foundation budget as over budget.
pub fn prepared_resident_estimate(
    catalog_json_bytes: u64,
    dictionary_bytes: u64,
    query_index_bytes: u64,
    open_index_bytes: u64,
) -> (res: Result<u64, PreparedServingError>)
    ensures
        ({
            let total = 4 * catalog_json_bytes + dictionary_bytes + query_index_bytes
                + open_index_bytes;
            if total > u64::MAX {
                res == Err::<u64, PreparedServingError>(
                    PreparedServingError::StoredIntegerOutOfRange,
                )
            } else if total > PREPARED_FOUNDATION_RESIDENT_BYTE_BUDGET {
                res == Err::<u64, PreparedServingError>(
                    PreparedServingError::ResidentBudgetExceeded {
                        estimated_bytes: total as u64,
                        budget_bytes: PREPARED_FOUNDATION_RESIDENT_BYTE_BUDGET,
                    },
                )
            } else {
                res == Ok::<u64, PreparedServingError>(total as u64)
            }
        }),
{
    let catalog = match catalog_json_bytes.checked_mul(4) {
        Some(v) => v,
        None => return Err(PreparedServingError::StoredIntegerOutOfRange),
    };
    let with_dictionaries = match catalog.checked_add(dictionary_bytes) {
        Some(v) => v,
        None => return Err(PreparedServingError::StoredIntegerOutOfRange),
    };
    let foundation = match with_dictionaries.checked_add(query_index_bytes) {
        Some(v) => v,
        None => return Err(PreparedServingError::StoredIntegerOutOfRange),
    };
    let resident = match foundation.checked_add(open_index_bytes) {
        Some(v) => v,
        None => return Err(PreparedServingError::StoredIntegerOutOfRange),
    };
    match ensure_prepared_resident_budget(resident) {
        Ok(()) => Ok(resident),
        Err(e) => Err(e),
    }
}

/// Adds one target's dictionary bytes to the running total, refusing a total past
/// `u64::MAX` and one that, with the Catalog estimate, is past the foundation budget.
pub fn add_dictionary_bytes(catalog_estimated_bytes: u64, so_far: u64, next: u64) -> (res: Result<
    u64,
    PreparedServingError,
>)
    ensures
        ({
            let sum = so_far + next;
            if sum > u64::MAX || catalog_estimated_bytes + sum > u64::MAX {
                res == Err::<u64, PreparedServingError>(
                    PreparedServingError::StoredIntegerOutOfRange,
                )
            } else if catalog_estimated_bytes + sum > PREPARED_FOUNDATION_RESIDENT_BYTE_BUDGET {
                res == Err::<u64, PreparedServingError>(
                    PreparedServingError::ResidentBudgetExceeded {
                        estimated_bytes: (catalog_estimated_bytes + sum) as u64,
                        budget_bytes: PREPARED_FOUNDATION_RESIDENT_BYTE_BUDGET,
                    },
                )
            } else {
                res == Ok::<u64, PreparedServingError>(sum as u64)
            }
        }),
{
    let sum = match so_far.checked_add(next) {
        Some(v) => v,
        None => return Err(PreparedServingError::StoredIntegerOutOfRange),
    };
    let total = match catalog_estimated_bytes.checked_add(sum) {
        Some(v) => v,
        None => return Err(PreparedServingError::StoredIntegerOutOfRange),
    };
    match ensure_prepared_resident_budget(total) {
        Ok(()) => Ok(sum),
        Err(e) => Err(e),
    }
}

/// Whether a ticket's transaction has committed.
#[derive(Clone, Copy, Debug, Eq, PartialEq, Structural)]
pub enum DirtyPhase {
    Precommit,
    Committed,
}

/// One publication ticket: Full when it has no target, Open for the target it names.
#[derive(Debug)]
pub struct DirtyTicket {
    pub target: Option<TermCampusKey>,
    pub epoch: u64,
    pub phase: DirtyPhase,
}

/// The scope of a ticket: `None` for Full, the target key for Open.
pub open spec fn scope_of(target: Option<TermCampusKey>) -> Option<(Seq<char>, Seq<char>)> {
    match target {
        None => None,
        Some(k) => Some(k.spec_key()),
    }
}

/// The identity of a ticket: its scope and epoch.
pub open spec fn ticket_key(t: DirtyTicket) -> (Option<(Seq<char>, Seq<char>)>, u64) {
    (scope_of(t.target), t.epoch)
}

/// The phase of the ticket `(scope, epoch)`, if it exists (the last entry wins).
pub open spec fn phase_of(
    tickets: Seq<DirtyTicket>,
    scope: Option<(Seq<char>, Seq<char>)>,
    epoch: u64,
) -> Option<DirtyPhase>
    decreases tickets.len(),
{
    if tickets.len() == 0 {
        None
    } else if ticket_key(tickets.last()) == (scope, epoch) {
        Some(tickets.last().phase)
    } else {
        phase_of(tickets.drop_last(), scope, epoch)
    }
}

/// No two tickets share a scope and an epoch.
pub open spec fn tickets_unique(tickets: Seq<DirtyTicket>) -> bool {
    forall|i: int, j: int|
        0 <= i < j < tickets.len() ==> ticket_key(#[trigger] tickets[i]) != ticket_key(
            #[trigger] tickets[j],
        )
}

proof fn lemma_phase_of_index(tickets: Seq<DirtyTicket>, i: int)
    requires
        tickets_unique(tickets),
        0 <= i < tickets.len(),
    ensures
        phase_of(tickets, ticket_key(tickets[i]).0, ticket_key(tickets[i]).1) == Some(
            tickets[i].phase,
        ),
    decreases tickets.len(),
{
    if i < tickets.len() - 1 {
        let d = tickets.drop_last();
        assert(ticket_key(tickets[i]) != ticket_key(tickets[tickets.len() - 1]));
        assert(d[i] == tickets[i]);
        assert(tickets_unique(d)) by {
            assert forall|a: int, b: int| 0 <= a < b < d.len() implies ticket_key(
                #[trigger] d[a],
            ) != ticket_key(#[trigger] d[b]) by {
                assert(d[a] == tickets[a] && d[b] == tickets[b]);
            }
        }
        lemma_phase_of_index(d, i);
    }
}

proof fn lemma_phase_of_some(
    tickets: Seq<DirtyTicket>,
    scope: Option<(Seq<char>, Seq<char>)>,
    epoch: u64,
)
    requires
        phase_of(tickets, scope, epoch) is Some,
    ensures
        exists|i: int|
            0 <= i < tickets.len() && ticket_key(#[trigger] tickets[i]) == (scope, epoch)
                && tickets[i].phase == phase_of(tickets, scope, epoch)->0,
    decreases tickets.len(),
{
    if ticket_key(tickets.last()) == (scope, epoch) {
        assert(ticket_key(tickets[tickets.len() - 1]) == (scope, epoch));
    } else {
        let d = tickets.drop_last();
        lemma_phase_of_some(d, scope, epoch);
        let i = choose|i: int|
            0 <= i < d.len() && ticket_key(#[trigger] d[i]) == (scope, epoch) && d[i].phase
                == phase_of(d, scope, epoch)->0;
        assert(tickets[i] == d[i]);
    }
}

/// The identity of a ticket: its scope (`None` for Full) and its epoch.
pub type TicketId = (Option<(Seq<char>, Seq<char>)>, u64);

/// The tickets as a map from identity to phase.
pub open spec fn ticket_map(tickets: Seq<DirtyTicket>) -> Map<TicketId, DirtyPhase> {
    Map::new(
        |k: TicketId| phase_of(tickets, k.0, k.1) is Some,
        |k: TicketId| phase_of(tickets, k.0, k.1)->0,
    )
}

/// A ticket map agrees with a map that gives the same phase for every identity.
proof fn lemma_view_from_phases(tickets: Seq<DirtyTicket>, m: Map<TicketId, DirtyPhase>)
    requires
        forall|scope: Option<(Seq<char>, Seq<char>)>, e: u64|
            #[trigger] phase_of(tickets, scope, e) == m.get((scope, e)),
    ensures
        ticket_map(tickets) == m,
{
    assert forall|k: TicketId| #[trigger] ticket_map(tickets).contains_key(k) == m.contains_key(k)
        by {
        assert(phase_of(tickets, k.0, k.1) == m.get((k.0, k.1)));
    }
    assert forall|k: TicketId| #[trigger] ticket_map(tickets).contains_key(k) implies ticket_map(
        tickets,
    )[k] == m[k] by {
        assert(phase_of(tickets, k.0, k.1) == m.get((k.0, k.1)));
    }
    assert(ticket_map(tickets) =~= m);
}

/// Drops Precommit ticket `k`; a committed or missing ticket is left alone.
pub open spec fn spec_rollback(m: Map<TicketId, DirtyPhase>, k: TicketId) -> Map<
    TicketId,
    DirtyPhase,
> {
    if m.get(k) == Some(DirtyPhase::Precommit) {
        m.remove(k)
    } else {
        m
    }
}

/// Drops the committed tickets of `scope` whose epoch is in `completed`.
pub open spec fn spec_clear_completed(
    m: Map<TicketId, DirtyPhase>,
    scope: Option<(Seq<char>, Seq<char>)>,
    completed: Seq<u64>,
) -> Map<TicketId, DirtyPhase> {
    Map::new(
        |k: TicketId|
            m.contains_key(k) && !(k.0 == scope && completed.contains(k.1) && m[k]
                == DirtyPhase::Committed),
        |k: TicketId| m[k],
    )
}

/// Drops the Open tickets listed in `executed`.
pub open spec fn spec_remove_executed(
    m: Map<TicketId, DirtyPhase>,
    executed: Seq<(TermCampusKey, Vec<u64>)>,
) -> Map<TicketId, DirtyPhase> {
    Map::new(
        |k: TicketId| m.contains_key(k) && !(k.0 is Some && executed_contains(executed, k.0->0, k.1)),
        |k: TicketId| m[k],
    )
}

/// Admission of new bindings is closed by any Full ticket or any committed Open ticket.
pub open spec fn spec_blocked(m: Map<TicketId, DirtyPhase>) -> bool {
    exists|k: TicketId| #[trigger] m.contains_key(k) && (k.0 is None || m[k] == DirtyPhase::Committed)
}

/// The target has some Open ticket, in either phase.
pub open spec fn spec_marked(m: Map<TicketId, DirtyPhase>, target: (Seq<char>, Seq<char>)) -> bool {
    exists|e: u64| #[trigger] m.contains_key((Some(target), e))
}

/// Every listed target has Open tickets and every listed epoch of it is committed.
pub open spec fn spec_promotion_ready(
    m: Map<TicketId, DirtyPhase>,
    executed: Seq<(TermCampusKey, Vec<u64>)>,
) -> bool {
    forall|i: int|
        0 <= i < executed.len() ==> {
            let key = (#[trigger] executed[i]).0.spec_key();
            &&& spec_marked(m, key)
            &&& forall|j: int|
                0 <= j < executed[i].1@.len() ==> m.get((Some(key), #[trigger] executed[i].1@[j]))
                    == Some(DirtyPhase::Committed)
        }
}

/// The publication ticket set and its epoch counter.
pub struct PreparedDirtyState {
    next_epoch: u64,
    tickets: Vec<DirtyTicket>,
}

impl View for PreparedDirtyState {
    type V = Map<TicketId, DirtyPhase>;

    open spec fn view(&self) -> Map<TicketId, DirtyPhase> {
        ticket_map(self.spec_tickets())
    }
}

/// What remains of `m` after `rule`.
spec fn removal_result(m: Map<TicketId, DirtyPhase>, rule: TicketRemoval) -> Map<
    TicketId,
    DirtyPhase,
> {
    Map::new(
        |k: TicketId| m.contains_key(k) && !spec_removes(rule, k.0, k.1, m[k]),
        |k: TicketId| m[k],
    )
}

/// Which tickets a removal drops.
enum TicketRemoval {
    /// Exactly the ticket with this scope and epoch.
    Key(Option<TermCampusKey>, u64),
    /// Committed tickets of this scope whose epoch is among these.
    CompletedIn(Option<TermCampusKey>, Vec<u64>),
    /// Open tickets of any listed target whose epoch is listed with it.
    ExecutedOpen(Vec<(TermCampusKey, Vec<u64>)>),
}

/// The listed epochs of `target` in an executed-Open list.
pub open spec fn executed_contains(
    executed: Seq<(TermCampusKey, Vec<u64>)>,
    target: (Seq<char>, Seq<char>),
    epoch: u64,
) -> bool {
    exists|i: int|
        0 <= i < executed.len() && (#[trigger] executed[i]).0.spec_key() == target
            && executed[i].1@.contains(epoch)
}

/// Whether `rule` drops the ticket `(scope, epoch)` in phase `phase`.
spec fn spec_removes(
    rule: TicketRemoval,
    scope: Option<(Seq<char>, Seq<char>)>,
    epoch: u64,
    phase: DirtyPhase,
) -> bool {
    match rule {
        TicketRemoval::Key(t, e) => scope == scope_of(t) && epoch == e,
        TicketRemoval::CompletedIn(t, epochs) => scope == scope_of(t) && epochs@.contains(epoch)
            && phase == DirtyPhase::Committed,
        TicketRemoval::ExecutedOpen(executed) => scope is Some && executed_contains(
            executed@,
            scope->0,
            epoch,
        ),
    }
}

fn same_scope(a: &Option<TermCampusKey>, b: &Option<TermCampusKey>) -> (res: bool)
    ensures
        res == (scope_of(*a) == scope_of(*b)),
{
    match (a, b) {
        (None, None) => true,
        (Some(x), Some(y)) => x.same_as(y),
        _ => false,
    }
}

fn names_target(scope: &Option<TermCampusKey>, target: &TermCampusKey) -> (res: bool)
    ensures
        res == (scope_of(*scope) == Some(target.spec_key())),
{
    match scope {
        Some(k) => k.same_as(target),
        None => false,
    }
}

fn copy_scope(a: &Option<TermCampusKey>) -> (res: Option<TermCampusKey>)
    ensures
        scope_of(res) == scope_of(*a),
{
    match a {
        None => None,
        Some(k) => Some(k.copied()),
    }
}

fn vec_contains_u64(v: &Vec<u64>, x: u64) -> (res: bool)
    ensures
        res == v@.contains(x),
{
    let mut i: usize = 0;
    while i < v.len()
        invariant
            i <= v@.len(),
            forall|j: int| 0 <= j < i ==> v@[j] != x,
        decreases v.len() - i,
    {
        if v[i] == x {
            assert(v@[i as int] == x);
            return true;
        }
        i = i + 1;
    }
    false
}

fn executed_has(executed: &Vec<(TermCampusKey, Vec<u64>)>, target: &TermCampusKey, epoch: u64) -> (res:
    bool)
    ensures
        res == executed_contains(executed@, target.spec_key(), epoch),
{
    let mut i: usize = 0;
    while i < executed.len()
        invariant
            i <= executed@.len(),
            forall|j: int|
                0 <= j < i ==> !((#[trigger] executed@[j]).0.spec_key() == target.spec_key()
                    && executed@[j].1@.contains(epoch)),
        decreases executed.len() - i,
    {
        if executed[i].0.same_as(target) && vec_contains_u64(&executed[i].1, epoch) {
            return true;
        }
        i = i + 1;
    }
    false
}

fn removes(rule: &TicketRemoval, ticket: &DirtyTicket) -> (res: bool)
    ensures
        res == spec_removes(*rule, scope_of(ticket.target), ticket.epoch, ticket.phase),
{
    match rule {
        TicketRemoval::Key(t, e) => same_scope(t, &ticket.target) && ticket.epoch == *e,
        TicketRemoval::CompletedIn(t, epochs) => same_scope(t, &ticket.target)
            && vec_contains_u64(epochs, ticket.epoch) && ticket.phase == DirtyPhase::Committed,
        TicketRemoval::ExecutedOpen(executed) => match &ticket.target {
            Some(k) => executed_has(executed, k, ticket.epoch),
            None => false,
        },
    }
}

impl PreparedDirtyState {
    pub closed spec fn spec_tickets(&self) -> Seq<DirtyTicket> {
        self.tickets@
    }

    pub closed spec fn spec_next_epoch(&self) -> u64 {
        self.next_epoch
    }

    /// The phase of ticket `(scope, epoch)` in this state.
    pub open spec fn phase(&self, scope: Option<(Seq<char>, Seq<char>)>, epoch: u64) -> Option<
        DirtyPhase,
    > {
        phase_of(self.spec_tickets(), scope, epoch)
    }

    /// Tickets are identified by scope and epoch.
    pub open spec fn wf(&self) -> bool {
        tickets_unique(self.spec_tickets())
    }

    /// The epoch the next ticket receives: one more than the last, never zero, saturating.
    pub open spec fn spec_following_epoch(&self) -> u64 {
        if self.spec_next_epoch() == u64::MAX {
            u64::MAX
        } else {
            (self.spec_next_epoch() + 1) as u64
        }
    }

    /// No tickets, and no epoch handed out yet.
    pub fn new() -> (res: Self)
        ensures
            res.wf(),
            res.spec_next_epoch() == 0,
            res@ == Map::<TicketId, DirtyPhase>::empty(),
    {
        let res = PreparedDirtyState { next_epoch: 0, tickets: Vec::new() };
        proof {
            lemma_view_from_phases(res.tickets@, Map::empty());
        }
        res
    }

    fn next_dirty_epoch(&mut self) -> (res: u64)
        ensures
            res == old(self).spec_following_epoch(),
            res >= 1,
            final(self).spec_next_epoch() == res,
            final(self).spec_tickets() == old(self).spec_tickets(),
    {
        self.next_epoch = if self.next_epoch == u64::MAX {
            u64::MAX
        } else {
            self.next_epoch + 1
        };
        self.next_epoch
    }

    /// Drops every ticket `rule` selects and keeps the rest in order.
    fn remove_tickets(&mut self, rule: &TicketRemoval)
        requires
            old(self).wf(),
        ensures
            final(self).wf(),
            final(self)@ == removal_result(old(self)@, *rule),
            final(self).spec_next_epoch() == old(self).spec_next_epoch(),
            forall|scope: Option<(Seq<char>, Seq<char>)>, epoch: u64|
                #[trigger] final(self).phase(scope, epoch) == (if old(self).phase(scope, epoch) is Some
                    && spec_removes(*rule, scope, epoch, old(self).phase(scope, epoch)->0) {
                    None
                } else {
                    old(self).phase(scope, epoch)
                }),
    {
        let ghost old_tickets = self.tickets@;
        let mut source: Vec<DirtyTicket> = Vec::new();
        std::mem::swap(&mut source, &mut self.tickets);
        let mut kept: Vec<DirtyTicket> = Vec::new();
        let total: usize = source.len();
        let mut i: usize = 0;
        while source.len() > 0
            invariant
                i <= total,
                old_tickets.len() == total,
                source@ == old_tickets.subrange(i as int, total as int),
                tickets_unique(old_tickets),
                tickets_unique(kept@),
                forall|j: int|
                    0 <= j < kept@.len() ==> exists|m: int|
                        0 <= m < i && old_tickets[m] == #[trigger] kept@[j],
                forall|scope: Option<(Seq<char>, Seq<char>)>, epoch: u64|
                    #[trigger] phase_of(kept@, scope, epoch) == (if phase_of(
                        old_tickets.subrange(0, i as int),
                        scope,
                        epoch,
                    ) is Some && spec_removes(
                        *rule,
                        scope,
                        epoch,
                        phase_of(old_tickets.subrange(0, i as int), scope, epoch)->0,
                    ) {
                        None
                    } else {
                        phase_of(old_tickets.subrange(0, i as int), scope, epoch)
                    }),
            decreases source@.len(),
        {
            let ghost prefix = old_tickets.subrange(0, i as int);
            let ghost next_prefix = old_tickets.subrange(0, i + 1);
            let t = source.remove(0);
            proof {
                assert(t == old_tickets[i as int]);
                assert(next_prefix.drop_last() =~= prefix);
                assert(next_prefix.last() == t);
            }
            let drop = removes(rule, &t);
            let ghost old_kept = kept@;
            proof {
                // The key of `t` does not occur in the scanned prefix.
                assert forall|sc: Option<(Seq<char>, Seq<char>)>, ep: u64|
                    (sc, ep) == ticket_key(t) implies #[trigger] phase_of(prefix, sc, ep) is None by {
                    if phase_of(prefix, sc, ep) is Some {
                        lemma_phase_of_some(prefix, sc, ep);
                        let m = choose|m: int|
                            0 <= m < prefix.len() && ticket_key(#[trigger] prefix[m]) == (sc, ep)
                                && prefix[m].phase == phase_of(prefix, sc, ep)->0;
                        assert(prefix[m] == old_tickets[m]);
                        assert(ticket_key(old_tickets[m]) != ticket_key(old_tickets[i as int]));
                    }
                }
            }
            if !drop {
                proof {
                    assert forall|j: int| 0 <= j < old_kept.len() implies ticket_key(
                        #[trigger] old_kept[j],
                    ) != ticket_key(t) by {
                        let m = choose|m: int| 0 <= m < i && old_tickets[m] == old_kept[j];
                        assert(ticket_key(old_tickets[m]) != ticket_key(old_tickets[i as int]));
                    }
                }
                kept.push(t);
                proof {
                    assert(kept@.drop_last() =~= old_kept);
                    assert(kept@.last() == t);
                    assert forall|a: int, b: int| 0 <= a < b < kept@.len() implies ticket_key(
                        #[trigger] kept@[a],
                    ) != ticket_key(#[trigger] kept@[b]) by {
                        if b == kept@.len() - 1 {
                            assert(kept@[a] == old_kept[a]);
                        } else {
                            assert(kept@[a] == old_kept[a] && kept@[b] == old_kept[b]);
                        }
                    }
                    assert forall|j: int| 0 <= j < kept@.len() implies exists|m: int|
                        0 <= m < i + 1 && old_tickets[m] == #[trigger] kept@[j] by {
                        if j == kept@.len() - 1 {
                            assert(old_tickets[i as int] == kept@[j]);
                        } else {
                            assert(kept@[j] == old_kept[j]);
                            let m = choose|m: int| 0 <= m < i && old_tickets[m] == old_kept[j];
                            assert(old_tickets[m] == kept@[j]);
                        }
                    }
                    assert forall|scope: Option<(Seq<char>, Seq<char>)>, epoch: u64|
                        #[trigger] phase_of(kept@, scope, epoch) == (if phase_of(
                            next_prefix,
                            scope,
                            epoch,
                        ) is Some && spec_removes(
                            *rule,
                            scope,
                            epoch,
                            phase_of(next_prefix, scope, epoch)->0,
                        ) {
                            None
                        } else {
                            phase_of(next_prefix, scope, epoch)
                        }) by {
                        if ticket_key(t) == (scope, epoch) {
                            assert(phase_of(prefix, scope, epoch) is None);
                        } else {
                            assert(phase_of(kept@, scope, epoch) == phase_of(old_kept, scope, epoch));
                            assert(phase_of(next_prefix, scope, epoch) == phase_of(
                                prefix,
                                scope,
                                epoch,
                            ));
                        }
                    }
                }
            } else {
                proof {
                    assert forall|j: int| 0 <= j < kept@.len() implies exists|m: int|
                        0 <= m < i + 1 && old_tickets[m] == #[trigger] kept@[j] by {
                        let m = choose|m: int| 0 <= m < i && old_tickets[m] == kept@[j];
                        assert(old_tickets[m] == kept@[j]);
                    }
                    assert forall|scope: Option<(Seq<char>, Seq<char>)>, epoch: u64|
                        #[trigger] phase_of(kept@, scope, epoch) == (if phase_of(
                            next_prefix,
                            scope,
                            epoch,
                        ) is Some && spec_removes(
                            *rule,
                            scope,
                            epoch,
                            phase_of(next_prefix, scope, epoch)->0,
                        ) {
                            None
                        } else {
                            phase_of(next_prefix, scope, epoch)
                        }) by {
                        if ticket_key(t) == (scope, epoch) {
                            assert(phase_of(prefix, scope, epoch) is None);
                        } else {
                            assert(phase_of(next_prefix, scope, epoch) == phase_of(
                                prefix,
                                scope,
                                epoch,
                            ));
                        }
                    }
                }
            }
            i = i + 1;
        }
        proof {
            assert(old_tickets.subrange(0, total as int) =~= old_tickets);
            let expected = removal_result(ticket_map(old_tickets), *rule);
            assert forall|scope: Option<(Seq<char>, Seq<char>)>, e: u64|
                #[trigger] phase_of(kept@, scope, e) == expected.get((scope, e)) by {
                assert(ticket_map(old_tickets).contains_key((scope, e)) == phase_of(
                    old_tickets,
                    scope,
                    e,
                ) is Some);
            }
            lemma_view_from_phases(kept@, expected);
        }
        self.tickets = kept;
    }
}


/// No ticket has the key `(scope, epoch)` when its phase is absent.
proof fn lemma_absent_key(tickets: Seq<DirtyTicket>, scope: Option<(Seq<char>, Seq<char>)>, epoch: u64)
    requires
        tickets_unique(tickets),
        phase_of(tickets, scope, epoch) is None,
    ensures
        forall|i: int| 0 <= i < tickets.len() ==> ticket_key(#[trigger] tickets[i]) != (scope, epoch),
{
    assert forall|i: int| 0 <= i < tickets.len() implies ticket_key(#[trigger] tickets[i]) != (
        scope,
        epoch,
    ) by {
        lemma_phase_of_index(tickets, i);
    }
}

impl PreparedDirtyState {
    /// Sets ticket `(target, epoch)` to `phase`, replacing any ticket with that identity.
    fn put_ticket(&mut self, target: Option<TermCampusKey>, epoch: u64, phase: DirtyPhase)
        requires
            old(self).wf(),
        ensures
            final(self).wf(),
            final(self).spec_next_epoch() == old(self).spec_next_epoch(),
            final(self)@ == old(self)@.insert((scope_of(target), epoch), phase),
    {
        let ghost old_state = *self;
        let rule = TicketRemoval::Key(copy_scope(&target), epoch);
        self.remove_tickets(&rule);
        let ghost before = self.tickets@;
        let ghost key = (scope_of(target), epoch);
        proof {
            assert(self.phase(key.0, key.1) is None);
            assert forall|sc: Option<(Seq<char>, Seq<char>)>, e: u64|
                (sc, e) != key implies #[trigger] phase_of(before, sc, e) == old_state.phase(sc, e) by {
                assert(self.phase(sc, e) == phase_of(before, sc, e));
            }
            lemma_absent_key(before, key.0, key.1);
        }
        let ticket = DirtyTicket { target, epoch, phase };
        self.tickets.push(ticket);
        proof {
            let after = self.tickets@;
            let expected = old_state@.insert(key, phase);
            assert(after.drop_last() =~= before);
            assert(after.last() == ticket);
            assert forall|sc: Option<(Seq<char>, Seq<char>)>, e: u64|
                #[trigger] phase_of(after, sc, e) == expected.get((sc, e)) by {
                if (sc, e) != key {
                    assert(phase_of(after, sc, e) == phase_of(before, sc, e));
                    assert(phase_of(before, sc, e) == old_state.phase(sc, e));
                    assert(old_state@.contains_key((sc, e)) == old_state.phase(sc, e) is Some);
                }
            }
            lemma_view_from_phases(after, expected);
            assert forall|a: int, b: int| 0 <= a < b < after.len() implies ticket_key(
                #[trigger] after[a],
            ) != ticket_key(#[trigger] after[b]) by {
                if b == after.len() - 1 {
                    assert(after[a] == before[a]);
                } else {
                    assert(after[a] == before[a] && after[b] == before[b]);
                }
            }
        }
    }

    /// Drops ticket `k` with `rule`, which must select exactly that identity.
    fn remove_key(&mut self, target: Option<TermCampusKey>, epoch: u64)
        requires
            old(self).wf(),
        ensures
            final(self).wf(),
            final(self).spec_next_epoch() == old(self).spec_next_epoch(),
            final(self)@ == old(self)@.remove((scope_of(target), epoch)),
    {
        let ghost key = (scope_of(target), epoch);
        let rule = TicketRemoval::Key(target, epoch);
        self.remove_tickets(&rule);
        proof {
            assert forall|k: TicketId| #[trigger] self@.contains_key(k) == old(self)@.remove(
                key,
            ).contains_key(k) by {
                assert(spec_removes(rule, k.0, k.1, old(self)@[k]) == (k == key));
            }
            assert(self@ =~= old(self)@.remove(key));
        }
    }

    /// The phase of ticket `(target, epoch)`, if it exists.
    pub fn ticket_phase(&self, target: &Option<TermCampusKey>, epoch: u64) -> (res: Option<
        DirtyPhase,
    >)
        requires
            self.wf(),
        ensures
            res == self@.get((scope_of(*target), epoch)),
    {
        let mut i: usize = 0;
        while i < self.tickets.len()
            invariant
                i <= self.tickets@.len(),
                tickets_unique(self.tickets@),
                forall|j: int|
                    0 <= j < i ==> ticket_key(#[trigger] self.tickets@[j]) != (
                        scope_of(*target),
                        epoch,
                    ),
            decreases self.tickets.len() - i,
        {
            let t = &self.tickets[i];
            if t.epoch == epoch && same_scope(&t.target, target) {
                proof {
                    lemma_phase_of_index(self.tickets@, i as int);
                }
                return Some(t.phase);
            }
            i = i + 1;
        }
        proof {
            if phase_of(self.tickets@, scope_of(*target), epoch) is Some {
                lemma_phase_of_some(self.tickets@, scope_of(*target), epoch);
            }
        }
        None
    }

    fn phase_is(&self, target: &Option<TermCampusKey>, epoch: u64, phase: DirtyPhase) -> (res:
        bool)
        requires
            self.wf(),
        ensures
            res == (self@.get((scope_of(*target), epoch)) == Some(phase)),
    {
        match self.ticket_phase(target, epoch) {
            Some(p) => p == phase,
            None => false,
        }
    }

    /// Opens a Full ticket in `Precommit` under a fresh epoch and returns the epoch.
    pub fn mark_full_dirty(&mut self) -> (epoch: u64)
        requires
            old(self).wf(),
        ensures
            final(self).wf(),
            epoch == old(self).spec_following_epoch(),
            final(self).spec_next_epoch() == epoch,
            final(self)@ == old(self)@.insert((None, epoch), DirtyPhase::Precommit),
    {
        let epoch = self.next_dirty_epoch();
        self.put_ticket(None, epoch, DirtyPhase::Precommit);
        epoch
    }

    /// Marks the Full ticket `epoch` committed; a missing ticket is a broken barrier.
    pub fn commit_full_dirty(&mut self, epoch: u64) -> (res: Result<(), PreparedServingError>)
        requires
            old(self).wf(),
        ensures
            final(self).wf(),
            final(self).spec_next_epoch() == old(self).spec_next_epoch(),
            res is Ok <==> old(self)@.contains_key((None, epoch)),
            res is Ok ==> final(self)@ == old(self)@.insert((None, epoch), DirtyPhase::Committed),
            res is Err ==> res == Err::<(), PreparedServingError>(
                PreparedServingError::PublicationBarrierUnavailable,
            ) && final(self)@ == old(self)@,
    {
        if self.ticket_phase(&None, epoch).is_some() {
            self.put_ticket(None, epoch, DirtyPhase::Committed);
            Ok(())
        } else {
            Err(PreparedServingError::PublicationBarrierUnavailable)
        }
    }

    /// Drops the Full ticket `epoch` if it has not committed; a committed ticket stays.
    pub fn rollback_full_dirty(&mut self, epoch: u64)
        requires
            old(self).wf(),
        ensures
            final(self).wf(),
            final(self).spec_next_epoch() == old(self).spec_next_epoch(),
            final(self)@ == spec_rollback(old(self)@, (None, epoch)),
    {
        if self.phase_is(&None, epoch, DirtyPhase::Precommit) {
            self.remove_key(None, epoch);
        }
    }

    /// Opens an Open ticket for `target` in `Precommit` under a fresh epoch.
    pub fn mark_open_dirty(&mut self, target: &TermCampusKey) -> (epoch: u64)
        requires
            old(self).wf(),
        ensures
            final(self).wf(),
            epoch == old(self).spec_following_epoch(),
            final(self).spec_next_epoch() == epoch,
            final(self)@ == old(self)@.insert((Some(target.spec_key()), epoch), DirtyPhase::Precommit),
    {
        let epoch = self.next_dirty_epoch();
        self.put_ticket(Some(target.copied()), epoch, DirtyPhase::Precommit);
        epoch
    }

    /// Marks the Open ticket `(target, epoch)` committed; a missing ticket is a broken barrier.
    pub fn commit_open_dirty(&mut self, target: &TermCampusKey, epoch: u64) -> (res: Result<
        (),
        PreparedServingError,
    >)
        requires
            old(self).wf(),
        ensures
            final(self).wf(),
            final(self).spec_next_epoch() == old(self).spec_next_epoch(),
            res is Ok <==> old(self)@.contains_key((Some(target.spec_key()), epoch)),
            res is Ok ==> final(self)@ == old(self)@.insert(
                (Some(target.spec_key()), epoch),
                DirtyPhase::Committed,
            ),
            res is Err ==> res == Err::<(), PreparedServingError>(
                PreparedServingError::PublicationBarrierUnavailable,
            ) && final(self)@ == old(self)@,
    {
        let scope = Some(target.copied());
        if self.ticket_phase(&scope, epoch).is_some() {
            self.put_ticket(scope, epoch, DirtyPhase::Committed);
            Ok(())
        } else {
            Err(PreparedServingError::PublicationBarrierUnavailable)
        }
    }

    /// Drops the Open ticket `(target, epoch)` if it has not committed.
    pub fn rollback_open_dirty(&mut self, target: &TermCampusKey, epoch: u64)
        requires
            old(self).wf(),
        ensures
            final(self).wf(),
            final(self).spec_next_epoch() == old(self).spec_next_epoch(),
            final(self)@ == spec_rollback(old(self)@, (Some(target.spec_key()), epoch)),
    {
        let scope = Some(target.copied());
        if self.phase_is(&scope, epoch, DirtyPhase::Precommit) {
            self.remove_key(scope, epoch);
        }
    }

    /// Turns the precommit Full ticket `full_epoch` into a committed Open ticket for `target`
    /// under a fresh epoch. A missing or already committed Full ticket is a broken barrier and
    /// leaves every ticket as it was.
    pub fn convert_full_dirty_to_open(&mut self, full_epoch: u64, target: &TermCampusKey) -> (res:
        Result<u64, PreparedServingError>)
        requires
            old(self).wf(),
        ensures
            final(self).wf(),
            res is Ok <==> old(self)@.get((None, full_epoch)) == Some(DirtyPhase::Precommit),
            match res {
                Ok(open_epoch) => {
                    &&& open_epoch == old(self).spec_following_epoch()
                    &&& final(self).spec_next_epoch() == open_epoch
                    &&& final(self)@ == old(self)@.remove((None, full_epoch)).insert(
                        (Some(target.spec_key()), open_epoch),
                        DirtyPhase::Committed,
                    )
                },
                Err(err) => {
                    &&& err == PreparedServingError::PublicationBarrierUnavailable
                    &&& final(self)@ == old(self)@
                    &&& final(self).spec_next_epoch() == old(self).spec_next_epoch()
                },
            },
    {
        if !self.phase_is(&None, full_epoch, DirtyPhase::Precommit) {
            return Err(PreparedServingError::PublicationBarrierUnavailable);
        }
        self.remove_key(None, full_epoch);
        let open_epoch = self.next_dirty_epoch();
        self.put_ticket(Some(target.copied()), open_epoch, DirtyPhase::Committed);
        Ok(open_epoch)
    }

    /// Drops the committed Full tickets whose epoch is in `completed`; precommit ones stay.
    pub fn clear_full_tickets(&mut self, completed: &Vec<u64>)
        requires
            old(self).wf(),
        ensures
            final(self).wf(),
            final(self).spec_next_epoch() == old(self).spec_next_epoch(),
            final(self)@ == spec_clear_completed(old(self)@, None, completed@),
    {
        let rule = TicketRemoval::CompletedIn(None, completed.clone());
        self.remove_tickets(&rule);
        proof {
            assert(self@ =~= spec_clear_completed(old(self)@, None, completed@));
        }
    }

    /// Drops the committed Open tickets of `target` whose epoch is in `completed`.
    pub fn clear_open_tickets(&mut self, target: &TermCampusKey, completed: &Vec<u64>)
        requires
            old(self).wf(),
        ensures
            final(self).wf(),
            final(self).spec_next_epoch() == old(self).spec_next_epoch(),
            final(self)@ == spec_clear_completed(old(self)@, Some(target.spec_key()), completed@),
    {
        let rule = TicketRemoval::CompletedIn(Some(target.copied()), completed.clone());
        self.remove_tickets(&rule);
        proof {
            assert(self@ =~= spec_clear_completed(
                old(self)@,
                Some(target.spec_key()),
                completed@,
            ));
        }
    }
}


impl PreparedDirtyState {
    /// Whether `target` has any Open ticket, in either phase.
    pub fn has_open_ticket(&self, target: &TermCampusKey) -> (res: bool)
        requires
            self.wf(),
        ensures
            res == spec_marked(self@, target.spec_key()),
    {
        let ghost key = target.spec_key();
        let mut i: usize = 0;
        while i < self.tickets.len()
            invariant
                i <= self.tickets@.len(),
                key == target.spec_key(),
                tickets_unique(self.tickets@),
                forall|j: int| 0 <= j < i ==> scope_of((#[trigger] self.tickets@[j]).target) != Some(key),
            decreases self.tickets.len() - i,
        {
            let t = &self.tickets[i];
            if names_target(&t.target, target) {
                proof {
                    lemma_phase_of_index(self.tickets@, i as int);
                    assert(scope_of(self.tickets@[i as int].target) == Some(key));
                    assert(ticket_key(self.tickets@[i as int]) == (Some(key), t.epoch));
                    assert(phase_of(self.tickets@, Some(key), t.epoch) is Some);
                    assert(self@.contains_key((Some(key), t.epoch)));
                }
                return true;
            }
            i = i + 1;
        }
        proof {
            if spec_marked(self@, key) {
                let e = choose|e: u64| #[trigger] self@.contains_key((Some(key), e));
                lemma_phase_of_some(self.tickets@, Some(key), e);
            }
        }
        false
    }

    /// Whether any Full ticket or any committed Open ticket closes admission.
    pub fn admission_blocked(&self) -> (res: bool)
        requires
            self.wf(),
        ensures
            res == spec_blocked(self@),
    {
        let mut i: usize = 0;
        while i < self.tickets.len()
            invariant
                i <= self.tickets@.len(),
                tickets_unique(self.tickets@),
                forall|j: int|
                    0 <= j < i ==> (#[trigger] self.tickets@[j]).target is Some
                        && self.tickets@[j].phase == DirtyPhase::Precommit,
            decreases self.tickets.len() - i,
        {
            let t = &self.tickets[i];
            let blocks = match t.phase {
                DirtyPhase::Committed => true,
                DirtyPhase::Precommit => t.target.is_none(),
            };
            if blocks {
                proof {
                    lemma_phase_of_index(self.tickets@, i as int);
                    assert(self@.contains_key(ticket_key(self.tickets@[i as int])));
                }
                return true;
            }
            i = i + 1;
        }
        proof {
            if spec_blocked(self@) {
                let k = choose|k: TicketId|
                    #[trigger] self@.contains_key(k) && (k.0 is None || self@[k]
                        == DirtyPhase::Committed);
                lemma_phase_of_some(self.tickets@, k.0, k.1);
            }
        }
        false
    }

    /// The targets that have an Open ticket, as a sorted set: a binding must treat their Open
    /// evidence as unavailable.
    pub fn forced_open_unavailable(&self) -> (res: Vec<TermCampusKey>)
        requires
            self.wf(),
        ensures
            forall|key: (Seq<char>, Seq<char>)|
                spec_marked(self@, key) <==> #[trigger] keys_of(res@).contains(key),
            keys_sorted(keys_of(res@)),
    {
        let mut res: Vec<TermCampusKey> = Vec::new();
        let mut i: usize = 0;
        while i < self.tickets.len()
            invariant
                i <= self.tickets@.len(),
                tickets_unique(self.tickets@),
                keys_sorted(keys_of(res@)),
                forall|key: (Seq<char>, Seq<char>)|
                    #[trigger] keys_of(res@).contains(key) <==> exists|j: int|
                        0 <= j < i && scope_of((#[trigger] self.tickets@[j]).target) == Some(key),
            decreases self.tickets.len() - i,
        {
            let t = &self.tickets[i];
            let ghost before = keys_of(res@);
            if let Some(k) = &t.target {
                insert_sorted(&mut res, k);
            }
            proof {
                assert forall|key: (Seq<char>, Seq<char>)|
                    #[trigger] keys_of(res@).contains(key) <==> exists|j: int|
                        0 <= j < i + 1 && scope_of((#[trigger] self.tickets@[j]).target)
                            == Some(key) by {
                    if scope_of(self.tickets@[i as int].target) == Some(key) {
                        assert(keys_of(res@).contains(key));
                    }
                    if keys_of(res@).contains(key) && !before.contains(key) {
                        assert(scope_of(self.tickets@[i as int].target) == Some(key));
                    }
                    if exists|j: int| 0 <= j < i + 1 && scope_of((#[trigger] self.tickets@[j]).target) == Some(key) {
                        let j = choose|j: int| 0 <= j < i + 1 && scope_of((#[trigger] self.tickets@[j]).target) == Some(key);
                        if j < i {
                            assert(before.contains(key));
                        }
                    }
                }
            }
            i = i + 1;
        }
        proof {
            assert forall|key: (Seq<char>, Seq<char>)|
                spec_marked(self@, key) <==> #[trigger] keys_of(res@).contains(key) by {
                if spec_marked(self@, key) {
                    let e = choose|e: u64| #[trigger] self@.contains_key((Some(key), e));
                    lemma_phase_of_some(self.tickets@, Some(key), e);
                }
                if keys_of(res@).contains(key) {
                    let j = choose|j: int|
                        0 <= j < self.tickets@.len() && scope_of((#[trigger] self.tickets@[j]).target)
                            == Some(key);
                    lemma_phase_of_index(self.tickets@, j);
                    assert(self@.contains_key((Some(key), self.tickets@[j].epoch)));
                }
            }
        }
        res
    }
}


/// A copy of an executed-Open list with the same targets and epochs.
fn copy_executed(executed: &Vec<(TermCampusKey, Vec<u64>)>) -> (res: Vec<(TermCampusKey, Vec<u64>)>)
    ensures
        res@.len() == executed@.len(),
        forall|i: int|
            0 <= i < res@.len() ==> (#[trigger] res@[i]).0.spec_key() == executed@[i].0.spec_key()
                && res@[i].1@ == executed@[i].1@,
{
    let mut res: Vec<(TermCampusKey, Vec<u64>)> = Vec::new();
    let mut i: usize = 0;
    while i < executed.len()
        invariant
            i <= executed@.len(),
            res@.len() == i,
            forall|j: int|
                0 <= j < i ==> (#[trigger] res@[j]).0.spec_key() == executed@[j].0.spec_key()
                    && res@[j].1@ == executed@[j].1@,
        decreases executed.len() - i,
    {
        let entry = (executed[i].0.copied(), executed[i].1.clone());
        res.push(entry);
        i = i + 1;
    }
    res
}

impl PreparedDirtyState {
    /// Whether every listed target has Open tickets and every listed epoch of it committed.
    fn promotion_ready(&self, executed: &Vec<(TermCampusKey, Vec<u64>)>) -> (res: bool)
        requires
            self.wf(),
        ensures
            res == spec_promotion_ready(self@, executed@),
    {
        let mut i: usize = 0;
        while i < executed.len()
            invariant
                self.wf(),
                i <= executed@.len(),
                forall|a: int|
                    0 <= a < i ==> {
                        let key = (#[trigger] executed@[a]).0.spec_key();
                        &&& spec_marked(self@, key)
                        &&& forall|j: int|
                            0 <= j < executed@[a].1@.len() ==> self@.get(
                                (Some(key), #[trigger] executed@[a].1@[j]),
                            ) == Some(DirtyPhase::Committed)
                    },
            decreases executed.len() - i,
        {
            let target = &executed[i].0;
            let epochs = &executed[i].1;
            if !self.has_open_ticket(target) {
                return false;
            }
            let scope = Some(target.copied());
            let mut j: usize = 0;
            while j < epochs.len()
                invariant
                    self.wf(),
                    j <= epochs@.len(),
                    i < executed@.len(),
                    epochs@ == executed@[i as int].1@,
                    target.spec_key() == executed@[i as int].0.spec_key(),
                    scope_of(scope) == Some(target.spec_key()),
                    forall|b: int|
                        0 <= b < j ==> self@.get((Some(target.spec_key()), #[trigger] epochs@[b]))
                            == Some(DirtyPhase::Committed),
                decreases epochs.len() - j,
            {
                if !self.phase_is(&scope, epochs[j], DirtyPhase::Committed) {
                    proof {
                        let entry = executed@[i as int];
                        assert(entry.1@[j as int] == epochs@[j as int]);
                        assert(self@.get((Some(entry.0.spec_key()), entry.1@[j as int])) != Some(
                            DirtyPhase::Committed,
                        ));
                    }
                    return false;
                }
                j = j + 1;
            }
            i = i + 1;
        }
        true
    }

    /// Replaces the listed committed Open tickets by one committed Full ticket under a fresh
    /// epoch. Each listed target must have Open tickets and each listed epoch must be a
    /// committed ticket of it; otherwise the barrier is broken and nothing changes.
    pub fn promote_open_tickets_to_full(&mut self, executed: &Vec<(TermCampusKey, Vec<u64>)>) -> (res:
        Result<u64, PreparedServingError>)
        requires
            old(self).wf(),
        ensures
            final(self).wf(),
            res is Ok <==> spec_promotion_ready(old(self)@, executed@),
            match res {
                Ok(epoch) => {
                    &&& epoch == old(self).spec_following_epoch()
                    &&& final(self).spec_next_epoch() == epoch
                    &&& final(self)@ == spec_remove_executed(old(self)@, executed@).insert(
                        (None, epoch),
                        DirtyPhase::Committed,
                    )
                },
                Err(err) => {
                    &&& err == PreparedServingError::PublicationBarrierUnavailable
                    &&& final(self)@ == old(self)@
                    &&& final(self).spec_next_epoch() == old(self).spec_next_epoch()
                },
            },
    {
        if !self.promotion_ready(executed) {
            return Err(PreparedServingError::PublicationBarrierUnavailable);
        }
        let listed = copy_executed(executed);
        let rule = TicketRemoval::ExecutedOpen(listed);
        self.remove_tickets(&rule);
        proof {
            assert forall|t: (Seq<char>, Seq<char>), e: u64|
                executed_contains(listed@, t, e) == executed_contains(executed@, t, e) by {
                if executed_contains(listed@, t, e) {
                    let i = choose|i: int|
                        0 <= i < listed@.len() && (#[trigger] listed@[i]).0.spec_key() == t
                            && listed@[i].1@.contains(e);
                    assert(executed@[i].0.spec_key() == t && executed@[i].1@.contains(e));
                }
                if executed_contains(executed@, t, e) {
                    let i = choose|i: int|
                        0 <= i < executed@.len() && (#[trigger] executed@[i]).0.spec_key() == t
                            && executed@[i].1@.contains(e);
                    assert(listed@[i].0.spec_key() == t && listed@[i].1@.contains(e));
                }
            }
            assert(self@ =~= spec_remove_executed(old(self)@, executed@));
        }
        let epoch = self.next_dirty_epoch();
        self.put_ticket(None, epoch, DirtyPhase::Committed);
        Ok(epoch)
    }
}


impl PreparedDirtyState {
    /// Whether a request that may wait should wait for admission: only while admission is
    /// closed, with a generation to bind once it opens, a nonzero wait and a live worker.
    pub fn waits_for_admission(&self, has_generation: bool, timeout_is_zero: bool, closed: bool) -> (res:
        bool)
        requires
            self.wf(),
        ensures
            res == (spec_blocked(self@) && has_generation && !timeout_is_zero && !closed),
    {
        self.admission_blocked() && has_generation && !timeout_is_zero && !closed
    }

    /// The answer to a binding request once any wait is over. Closed admission answers
    /// `SnapshotRebuilding`, except that a request that could wait while no generation exists
    /// is told `SnapshotUnavailable` at once; an open admission binds the generation, if any,
    /// with the targets whose Open evidence must be treated as unavailable.
    pub fn snapshot_admission(&self, has_generation: bool, timeout_is_zero: bool) -> (res: Result<
        Vec<TermCampusKey>,
        PreparedServingError,
    >)
        requires
            self.wf(),
        ensures
            spec_blocked(self@) && !has_generation && !timeout_is_zero ==> res == Err::<
                Vec<TermCampusKey>,
                PreparedServingError,
            >(PreparedServingError::SnapshotUnavailable),
            spec_blocked(self@) && (has_generation || timeout_is_zero) ==> res == Err::<
                Vec<TermCampusKey>,
                PreparedServingError,
            >(PreparedServingError::SnapshotRebuilding),
            !spec_blocked(self@) && !has_generation ==> res == Err::<
                Vec<TermCampusKey>,
                PreparedServingError,
            >(PreparedServingError::SnapshotUnavailable),
            !spec_blocked(self@) && has_generation ==> match res {
                Ok(forced) => {
                    &&& keys_sorted(keys_of(forced@))
                    &&& forall|key: (Seq<char>, Seq<char>)|
                        spec_marked(self@, key) <==> #[trigger] keys_of(forced@).contains(key)
                },
                Err(_) => false,
            },
    {
        if self.admission_blocked() {
            if !has_generation && !timeout_is_zero {
                Err(PreparedServingError::SnapshotUnavailable)
            } else {
                Err(PreparedServingError::SnapshotRebuilding)
            }
        } else if !has_generation {
            Err(PreparedServingError::SnapshotUnavailable)
        } else {
            Ok(self.forced_open_unavailable())
        }
    }
}

/// Whether the publication worker still accepts barriers, and how many are active.
pub struct PublicationLifecycleState {
    accepting: bool,
    active_admissions: usize,
}

impl PublicationLifecycleState {
    pub closed spec fn spec_accepting(&self) -> bool {
        self.accepting
    }

    pub closed spec fn spec_active(&self) -> nat {
        self.active_admissions as nat
    }

    /// Accepting, with no active barrier.
    pub fn new() -> (res: Self)
        ensures
            res.spec_accepting(),
            res.spec_active() == 0,
    {
        PublicationLifecycleState { accepting: true, active_admissions: 0 }
    }

    /// Admits one more barrier, or refuses once the worker has stopped accepting.
    pub fn begin(&mut self) -> (res: Result<(), PreparedServingError>)
        ensures
            final(self).spec_accepting() == old(self).spec_accepting(),
            old(self).spec_accepting() ==> res is Ok && final(self).spec_active() == (if old(
                self,
            ).spec_active() == usize::MAX {
                old(self).spec_active()
            } else {
                old(self).spec_active() + 1
            }),
            !old(self).spec_accepting() ==> res == Err::<(), PreparedServingError>(
                PreparedServingError::PublicationWorkerUnavailable,
            ) && final(self).spec_active() == old(self).spec_active(),
    {
        if !self.accepting {
            return Err(PreparedServingError::PublicationWorkerUnavailable);
        }
        self.active_admissions = self.active_admissions.saturating_add(1);
        Ok(())
    }

    /// Releases one barrier.
    pub fn end(&mut self)
        ensures
            final(self).spec_accepting() == old(self).spec_accepting(),
            final(self).spec_active() == (if old(self).spec_active() == 0 {
                0
            } else {
                old(self).spec_active() - 1
            }),
    {
        self.active_admissions = self.active_admissions.saturating_sub(1);
    }

    /// Refuses every later barrier; active ones stay until released.
    pub fn stop_accepting(&mut self)
        ensures
            !final(self).spec_accepting(),
            final(self).spec_active() == old(self).spec_active(),
    {
        self.accepting = false;
    }

    /// Whether every admitted barrier has been released.
    pub fn drained(&self) -> (res: bool)
        ensures
            res == (self.spec_active() == 0),
    {
        self.active_admissions == 0
    }
}

/// A cancellation flag shared between the rebuild worker and its owner.
#[derive(Clone, Debug, Default)]
pub struct PreparedRebuildCancellation {
    requested: Arc<AtomicBool>,
}

impl PreparedRebuildCancellation {
    /// A flag that has not been raised.
    pub fn new() -> (res: Self) {
        PreparedRebuildCancellation { requested: Arc::new(AtomicBool::new(false)) }
    }

    /// Raises the flag.
    pub fn request(&self) {
        self.requested.store(true, Ordering::Release);
    }

    /// Fails with `RebuildCancelled` once the flag is raised; what another thread stored
    /// decides which answer comes.
    pub fn check(&self) -> (res: Result<(), PreparedServingError>)
        ensures
            res is Err ==> res == Err::<(), PreparedServingError>(
                PreparedServingError::RebuildCancelled,
            ),
    {
        if self.requested.load(Ordering::Acquire) {
            Err(PreparedServingError::RebuildCancelled)
        } else {
            Ok(())
        }
    }

    /// Whether the flag has been raised.
    pub fn requested(&self) -> bool {
        self.requested.load(Ordering::Acquire)
    }
}


/// Rolling back a ticket that was just marked, on a state that did not have it, restores the
/// ticket set exactly.
pub proof fn lemma_mark_then_rollback_restores(m: Map<TicketId, DirtyPhase>, k: TicketId)
    requires
        !m.contains_key(k),
    ensures
        spec_rollback(m.insert(k, DirtyPhase::Precommit), k) == m,
{
    assert(m.insert(k, DirtyPhase::Precommit).remove(k) =~= m);
}

/// Two nested precommit tickets (a Full and an Open one, or two of one kind) can be rolled
/// back in either order, and both orders restore the ticket set.
pub proof fn lemma_nested_rollbacks_restore_in_both_orders(
    m: Map<TicketId, DirtyPhase>,
    first: TicketId,
    second: TicketId,
)
    requires
        first != second,
        !m.contains_key(first),
        !m.contains_key(second),
    ensures
        spec_rollback(
            spec_rollback(
                m.insert(first, DirtyPhase::Precommit).insert(second, DirtyPhase::Precommit),
                first,
            ),
            second,
        ) == m,
        spec_rollback(
            spec_rollback(
                m.insert(first, DirtyPhase::Precommit).insert(second, DirtyPhase::Precommit),
                second,
            ),
            first,
        ) == m,
{
    let both = m.insert(first, DirtyPhase::Precommit).insert(second, DirtyPhase::Precommit);
    assert(both.remove(first) =~= m.insert(second, DirtyPhase::Precommit));
    assert(m.insert(second, DirtyPhase::Precommit).remove(second) =~= m);
    assert(both.remove(second) =~= m.insert(first, DirtyPhase::Precommit));
    assert(m.insert(first, DirtyPhase::Precommit).remove(first) =~= m);
}

/// A rollback never removes a committed ticket.
pub proof fn lemma_rollback_keeps_committed(m: Map<TicketId, DirtyPhase>, k: TicketId)
    requires
        m.get(k) == Some(DirtyPhase::Committed),
    ensures
        spec_rollback(m, k) == m,
{
}

/// Any Full ticket, and any committed ticket, closes admission; a precommit Open ticket does
/// not close it, but marks its target.
pub proof fn lemma_admission_rule(m: Map<TicketId, DirtyPhase>, k: TicketId, phase: DirtyPhase)
    ensures
        k.0 is None ==> spec_blocked(m.insert(k, phase)),
        spec_blocked(m.insert(k, DirtyPhase::Committed)),
        k.0 is Some && !spec_blocked(m) && !m.contains_key(k) ==> !spec_blocked(
            m.insert(k, DirtyPhase::Precommit),
        ),
        k.0 is Some ==> spec_marked(m.insert(k, phase), k.0->0),
{
    let n = m.insert(k, phase);
    assert(n.contains_key(k));
    assert(m.insert(k, DirtyPhase::Committed).contains_key(k));
    assert(n.contains_key((Some(k.0->0), k.1)) <== k.0 is Some);
    if k.0 is Some && !spec_blocked(m) && !m.contains_key(k) {
        let p = m.insert(k, DirtyPhase::Precommit);
        assert forall|j: TicketId| #[trigger] p.contains_key(j) implies !(j.0 is None || p[j]
            == DirtyPhase::Committed) by {
            if j != k {
                assert(m.contains_key(j));
            }
        }
    }
}

/// With no tickets, admission is open and no target is marked.
pub proof fn lemma_no_tickets_admits()
    ensures
        !spec_blocked(Map::<TicketId, DirtyPhase>::empty()),
        forall|t: (Seq<char>, Seq<char>)| !spec_marked(Map::<TicketId, DirtyPhase>::empty(), t),
{
}

/// Clearing the tickets one build completed keeps every other ticket, so a newer committed
/// ticket of the same scope, or any ticket of another scope, keeps admission closed.
pub proof fn lemma_clear_keeps_newer_tickets(
    m: Map<TicketId, DirtyPhase>,
    scope: Option<(Seq<char>, Seq<char>)>,
    completed: Seq<u64>,
    k: TicketId,
)
    requires
        m.contains_key(k),
        !(k.0 == scope && completed.contains(k.1)),
    ensures
        spec_clear_completed(m, scope, completed).get(k) == m.get(k),
        (k.0 is None || m[k] == DirtyPhase::Committed) ==> spec_blocked(
            spec_clear_completed(m, scope, completed),
        ),
{
    assert(spec_clear_completed(m, scope, completed).contains_key(k));
}

/// Clearing a scope's completed epochs drops exactly those committed tickets: a precommit
/// ticket listed among them stays.
pub proof fn lemma_clear_drops_only_committed(
    m: Map<TicketId, DirtyPhase>,
    scope: Option<(Seq<char>, Seq<char>)>,
    completed: Seq<u64>,
    e: u64,
)
    requires
        completed.contains(e),
    ensures
        m.get((scope, e)) == Some(DirtyPhase::Committed) ==> !spec_clear_completed(
            m,
            scope,
            completed,
        ).contains_key((scope, e)),
        m.get((scope, e)) == Some(DirtyPhase::Precommit) ==> spec_clear_completed(
            m,
            scope,
            completed,
        ).get((scope, e)) == Some(DirtyPhase::Precommit),
{
}

/// Promotion keeps admission closed behind its committed Full ticket and drops the listed
/// Open tickets, while unlisted Open tickets of the same target stay.
pub proof fn lemma_promotion_stays_closed(
    m: Map<TicketId, DirtyPhase>,
    executed: Seq<(TermCampusKey, Vec<u64>)>,
    epoch: u64,
    k: TicketId,
)
    ensures
        spec_blocked(spec_remove_executed(m, executed).insert((None, epoch), DirtyPhase::Committed)),
        k.0 is Some && executed_contains(executed, k.0->0, k.1) && k != (None::<(Seq<char>, Seq<char>)>, epoch)
            ==> !spec_remove_executed(m, executed).insert((None, epoch), DirtyPhase::Committed).contains_key(k),
        m.contains_key(k) && k.0 is Some && !executed_contains(executed, k.0->0, k.1) ==> spec_remove_executed(
            m,
            executed,
        ).insert((None, epoch), DirtyPhase::Committed).get(k) == m.get(k),
{
    let n = spec_remove_executed(m, executed).insert((None, epoch), DirtyPhase::Committed);
    assert(n.contains_key((None, epoch)));
}


/// Fails with `RebuildCancelled` when a cancellation flag is given and raised; no flag never
/// cancels.
pub fn check_prepared_rebuild_cancellation(cancellation: Option<&PreparedRebuildCancellation>) -> (res:
    Result<(), PreparedServingError>)
    ensures
        cancellation is None ==> res is Ok,
        res is Err ==> res == Err::<(), PreparedServingError>(PreparedServingError::RebuildCancelled),
{
    match cancellation {
        Some(c) => c.check(),
        None => Ok(()),
    }
}

} // verus!

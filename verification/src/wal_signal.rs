//! The "maintenance due" flag the commit path raises and the refresh runtime consumes.
use std::sync::atomic::{AtomicU8, Ordering};
use std::sync::Arc;

use vstd::prelude::*;

use crate::wal_maintenance::WalMaintenanceReason;

verus! {

/// The pending bit an Open commit raises.
pub const SIGNAL_OPEN_COMMIT: u8 = 1;

/// The pending bit a Catalog publication raises.
pub const SIGNAL_CATALOG_PUBLISHED: u8 = 2;

/// The strongest reason recorded in a set of pending bits: a Catalog publication dominates an
/// Open commit, and no bit means nothing is due.
pub open spec fn spec_reason_of_pending(pending: u8) -> Option<WalMaintenanceReason> {
    if pending & SIGNAL_CATALOG_PUBLISHED != 0 {
        Some(WalMaintenanceReason::CatalogPublished)
    } else if pending & SIGNAL_OPEN_COMMIT != 0 {
        Some(WalMaintenanceReason::OpenCommit)
    } else {
        None
    }
}

/// The strongest reason recorded in `pending`.
pub fn reason_of_pending(pending: u8) -> (res: Option<WalMaintenanceReason>)
    ensures
        res == spec_reason_of_pending(pending),
{
    if pending & SIGNAL_CATALOG_PUBLISHED != 0 {
        Some(WalMaintenanceReason::CatalogPublished)
    } else if pending & SIGNAL_OPEN_COMMIT != 0 {
        Some(WalMaintenanceReason::OpenCommit)
    } else {
        None
    }
}

/// Raising both bits, in either order and any number of times, leaves a Catalog publication
/// as the reason; raising only the Open bit leaves an Open commit.
pub proof fn lemma_signal_coalesces_and_catalog_dominates(pending: u8)
    ensures
        spec_reason_of_pending(pending | SIGNAL_CATALOG_PUBLISHED)
            == Some(WalMaintenanceReason::CatalogPublished),
        spec_reason_of_pending((pending | SIGNAL_OPEN_COMMIT) | SIGNAL_CATALOG_PUBLISHED)
            == Some(WalMaintenanceReason::CatalogPublished),
        pending & SIGNAL_CATALOG_PUBLISHED == 0 ==> spec_reason_of_pending(
            pending | SIGNAL_OPEN_COMMIT,
        ) == Some(WalMaintenanceReason::OpenCommit),
        spec_reason_of_pending(0) is None,
{
    assert((pending | 2u8) & 2u8 != 0) by (bit_vector);
    assert(((pending | 1u8) | 2u8) & 2u8 != 0) by (bit_vector);
    assert(pending & 2u8 == 0 ==> (pending | 1u8) & 2u8 == 0 && (pending | 1u8) & 1u8 != 0)
        by (bit_vector);
    assert(0u8 & 2u8 == 0 && 0u8 & 1u8 == 0) by (bit_vector);
}

/// The pending bits after one mark: each reason raises its own bit.
pub open spec fn spec_mark(pending: u8, reason: WalMaintenanceReason) -> u8 {
    match reason {
        WalMaintenanceReason::OpenCommit => pending | SIGNAL_OPEN_COMMIT,
        WalMaintenanceReason::CatalogPublished => pending | SIGNAL_CATALOG_PUBLISHED,
    }
}

/// The pending bits after several marks, in order.
pub open spec fn spec_apply_marks(pending: u8, marks: Seq<WalMaintenanceReason>) -> u8
    decreases marks.len(),
{
    if marks.len() == 0 {
        pending
    } else {
        spec_mark(spec_apply_marks(pending, marks.drop_last()), marks.last())
    }
}

/// The pending maintenance bits as a value: what the shared flag holds between the commits
/// that raise it and the runtime that consumes it.
#[derive(Clone, Copy, Debug, Eq, PartialEq)]
pub struct WalMaintenancePending {
    bits: u8,
}

impl WalMaintenancePending {
    pub closed spec fn spec_bits(&self) -> u8 {
        self.bits
    }

    /// Nothing pending.
    pub fn new() -> (res: Self)
        ensures
            res.spec_bits() == 0,
    {
        WalMaintenancePending { bits: 0 }
    }

    /// Raises the bit of `reason`.
    pub fn mark(&mut self, reason: WalMaintenanceReason)
        ensures
            final(self).spec_bits() == spec_mark(old(self).spec_bits(), reason),
    {
        match reason {
            WalMaintenanceReason::OpenCommit => self.bits = self.bits | SIGNAL_OPEN_COMMIT,
            WalMaintenanceReason::CatalogPublished => self.bits = self.bits
                | SIGNAL_CATALOG_PUBLISHED,
        }
    }

    /// Whether any reason is pending.
    pub fn is_due(&self) -> (res: bool)
        ensures
            res == (self.spec_bits() != 0),
    {
        self.bits != 0
    }

    /// Consumes the pending bits: returns the strongest reason and leaves nothing pending.
    pub fn take(&mut self) -> (res: Option<WalMaintenanceReason>)
        ensures
            res == spec_reason_of_pending(old(self).spec_bits()),
            final(self).spec_bits() == 0,
    {
        let pending = self.bits;
        self.bits = 0;
        reason_of_pending(pending)
    }
}

/// Marks coalesce: starting from nothing pending, any number of marks in any order is one
/// maintenance run whose reason is a Catalog publication when any mark was one, an Open commit
/// when only Open commits were marked, and nothing when there was no mark.
pub proof fn lemma_marks_coalesce(marks: Seq<WalMaintenanceReason>)
    ensures
        (spec_apply_marks(0, marks) != 0) == (marks.len() > 0),
        spec_reason_of_pending(spec_apply_marks(0, marks)) == (if marks.contains(
            WalMaintenanceReason::CatalogPublished,
        ) {
            Some(WalMaintenanceReason::CatalogPublished)
        } else if marks.len() > 0 {
            Some(WalMaintenanceReason::OpenCommit)
        } else {
            None
        }),
{
    lemma_mark_bits(marks);
    let p = spec_apply_marks(0, marks);
    assert(p & 252u8 == 0 ==> (p != 0 <==> (p & 1u8 != 0 || p & 2u8 != 0))) by (bit_vector);
    if marks.len() > 0 {
        let r = marks.last();
        assert(marks.contains(r));
        if r == WalMaintenanceReason::OpenCommit {
            assert(marks.contains(WalMaintenanceReason::OpenCommit));
        } else {
            assert(marks.contains(WalMaintenanceReason::CatalogPublished));
        }
    }
}

/// Each bit of the marks' result is raised exactly when its reason was marked, and no other
/// bit is ever raised.
proof fn lemma_mark_bits(marks: Seq<WalMaintenanceReason>)
    ensures
        ({
            let p = spec_apply_marks(0, marks);
            &&& (p & SIGNAL_CATALOG_PUBLISHED != 0) == marks.contains(
                WalMaintenanceReason::CatalogPublished,
            )
            &&& (p & SIGNAL_OPEN_COMMIT != 0) == marks.contains(WalMaintenanceReason::OpenCommit)
            &&& p & 252u8 == 0
        }),
    decreases marks.len(),
{
    if marks.len() == 0 {
        assert(0u8 & 2u8 == 0 && 0u8 & 1u8 == 0 && 0u8 & 252u8 == 0) by (bit_vector);
    } else {
        let init = marks.drop_last();
        lemma_mark_bits(init);
        let q = spec_apply_marks(0, init);
        let r = marks.last();
        assert forall|x: WalMaintenanceReason| #[trigger] marks.contains(x) == (init.contains(x) || x == r) by {
            if marks.contains(x) {
                let k = choose|k: int| 0 <= k < marks.len() && marks[k] == x;
                if k < init.len() {
                    assert(init[k] == x);
                }
            }
            if init.contains(x) {
                let k = choose|k: int| 0 <= k < init.len() && init[k] == x;
                assert(marks[k] == x);
            }
            if x == r {
                assert(marks[marks.len() - 1] == x);
            }
        }
        assert((q | 1u8) & 2u8 == q & 2u8 && (q | 1u8) & 1u8 != 0 && (q & 252u8 == 0 ==> (q | 1u8)
            & 252u8 == 0)) by (bit_vector);
        assert((q | 2u8) & 1u8 == q & 1u8 && (q | 2u8) & 2u8 != 0 && (q & 252u8 == 0 ==> (q | 2u8)
            & 252u8 == 0)) by (bit_vector);
    }
}

/// A shared flag rather than a queue: several commits before the runtime looks are one
/// maintenance run, and a Catalog publication dominates. Cloning shares the flag.
#[derive(Clone, Debug, Default)]
pub struct WalMaintenanceSignal {
    due: Arc<AtomicU8>,
}

impl WalMaintenanceSignal {
    /// A signal with nothing pending.
    pub fn new() -> (res: Self) {
        WalMaintenanceSignal { due: Arc::new(AtomicU8::new(0)) }
    }

    pub fn mark_open_commit(&self) {
        let _ = self.due.fetch_or(SIGNAL_OPEN_COMMIT, Ordering::AcqRel);
    }

    pub fn mark_catalog_published(&self) {
        let _ = self.due.fetch_or(SIGNAL_CATALOG_PUBLISHED, Ordering::AcqRel);
    }

    /// Consumes the flag, returning the strongest reason that was pending. The pending bits
    /// are whatever concurrent writers left, so only their decoding is stated.
    pub fn take(&self) -> (res: Option<WalMaintenanceReason>)
        ensures
            exists|pending: u8| res == spec_reason_of_pending(pending),
    {
        let pending = self.due.swap(0, Ordering::AcqRel);
        reason_of_pending(pending)
    }

    /// Whether any reason is pending; what concurrent writers left decides it.
    pub fn is_due(&self) -> bool {
        self.due.load(Ordering::Acquire) != 0
    }
}

} // verus!

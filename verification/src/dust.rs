//! Collecting accounts that can never pay anything out.
use vstd::prelude::*;

use crate::adl::Exempt;
use crate::math::{add_u128, clamp_neg_i128, sat_u};
use crate::state::{EngineState, RiskEngine};
use crate::sweep::next_slot;
use crate::types::{Account, AccountKind, ACCOUNTS_PER_CRANK, GC_CLOSE_BUDGET, MAX_ACCOUNTS};
use crate::wide::I128;

verus! {

broadcast use crate::wide::group_wide;

impl Account {
    /// No position, no capital, nothing reserved and no profit.
    pub open spec fn is_dust(self) -> bool {
        self.position_size@ == 0 && self.capital@ == 0 && self.reserved_pnl == 0 && self.pnl@ <= 0
    }

    /// The account with its loss written off, settled against the funding index.
    pub open spec fn written_off(self, index: I128) -> Account {
        Account { pnl: I128::of(0), funding_index: index, ..self }
    }

    /// Whether there is nothing that the account could ever pay out.
    fn has_only_dust(&self) -> (r: bool)
        ensures
            r == self.is_dust(),
    {
        self.position_size.is_zero() && self.capital.is_zero() && self.reserved_pnl == 0
            && !self.pnl.is_positive()
    }

    /// Writes off the loss of a dust account; returns it.
    fn write_off(&mut self, index: I128) -> (r: u128)
        requires
            old(self).is_dust(),
        ensures
            *final(self) == old(self).written_off(index),
            r == -(old(self).pnl@ as int),
    {
        self.funding_index = index;
        let loss: u128 = clamp_neg_i128(self.pnl.get());
        self.pnl = I128::zero();
        loss
    }
}

impl EngineState {
    /// Whether the account in slot `idx` is collected, once its fees are charged. Liquidity
    /// providers never are.
    pub open spec fn collectable(self, idx: int) -> bool {
        self.is_used(idx) && self.accounts[idx].kind != AccountKind::LP && self.with_fees_charged(
            idx,
            self.current_slot,
        ).accounts[idx].is_dust()
    }

    /// The loss that the account in slot `idx` leaves behind when it is collected.
    pub open spec fn dust_loss(self, idx: int) -> int {
        if self.collectable(idx) {
            -(self.accounts[idx].pnl@ as int)
        } else {
            0
        }
    }

    /// Slot `idx` examined: fees are charged, and a dust account is written off.
    pub open spec fn dust_examined(self, idx: int) -> EngineState {
        if !self.is_used(idx) || self.accounts[idx].kind == AccountKind::LP {
            self
        } else {
            let s = self.with_fees_charged(idx, self.current_slot);
            let a = s.accounts[idx];
            if !a.is_dust() {
                s
            } else {
                s.with_account(idx, a.written_off(s.funding_index_qpb_e6))
            }
        }
    }

    /// `left` slots from slot `i` on examined, until enough dust accounts were found. Yields
    /// the state, the dust accounts and the loss they leave behind.
    pub open spec fn dust_scan(self, i: int, left: int, found: Seq<u16>, loss: int) -> (
        EngineState,
        Seq<u16>,
        int,
    )
        decreases left,
    {
        if left <= 0 || found.len() >= GC_CLOSE_BUDGET {
            (self, found, loss)
        } else {
            self.dust_examined(i).dust_scan(
                next_slot(i),
                left - 1,
                if self.collectable(i) {
                    found.push(i as u16)
                } else {
                    found
                },
                sat_u(loss + self.dust_loss(i)),
            )
        }
    }

    /// A loss that dust accounts leave behind shared among all accounts. Where the shares
    /// cannot be computed no profit is cut, and insurance covers the loss or it is accumulated.
    pub open spec fn with_dust_loss_shared(self, loss: int) -> EngineState {
        if self.can_share(loss, Exempt::Nobody) {
            self.deleverage(loss, Exempt::Nobody).0
        } else {
            self.with_loss_covered(loss).with_reserve()
        }
    }

    /// The listed slots freed, from the `k`-th on.
    pub open spec fn free_all(self, list: Seq<u16>, k: int) -> EngineState
        decreases list.len() - k,
    {
        if k >= list.len() {
            self
        } else {
            self.free_slot(list[k] as int).free_all(list, k + 1)
        }
    }

    /// Dust accounts collected from the next slots in turn. Yields the state and their number.
    pub open spec fn garbage_collect_dust(self) -> (EngineState, int) {
        let start = self.gc_cursor as int;
        let (s, found, loss) = self.dust_scan(
            start % (MAX_ACCOUNTS as int),
            ACCOUNTS_PER_CRANK as int,
            Seq::empty(),
            0,
        );
        (
            EngineState {
                gc_cursor: ((start + ACCOUNTS_PER_CRANK) % (MAX_ACCOUNTS as int)) as u16,
                ..s.with_dust_loss_shared(loss)
            }.free_all(found, 0),
            found.len() as int,
        )
    }
}

/// How many slots `i` comes after `start`.
pub open spec fn distance(start: int, i: int) -> int {
    (i - start) % (MAX_ACCOUNTS as int)
}

/// The entries from `k` on are distinct used slots.
#[verifier::opaque]
pub open spec fn all_used(used: Seq<bool>, list: Seq<u16>, k: int) -> bool {
    &&& forall|j: int|
        k <= j < list.len() ==> (#[trigger] list[j]) < MAX_ACCOUNTS && used[list[j] as int]
    &&& forall|j: int, l: int| k <= j < l < list.len() ==> list[j] != list[l]
}

/// The entries were found among the first `n` slots from `start` on.
#[verifier::opaque]
pub open spec fn found_within(start: int, n: int, list: Seq<u16>) -> bool {
    forall|j: int| 0 <= j < list.len() ==> distance(start, #[trigger] list[j] as int) < n
}

pub proof fn lemma_found_next(used: Seq<bool>, start: int, n: int, i: int, list: Seq<u16>)
    requires
        0 <= i < MAX_ACCOUNTS,
        0 <= n < MAX_ACCOUNTS,
        i == (start + n) % (MAX_ACCOUNTS as int),
        used.len() == MAX_ACCOUNTS,
        all_used(used, list, 0),
        found_within(start, n, list),
    ensures
        next_slot(i) == (start + n + 1) % (MAX_ACCOUNTS as int),
        found_within(start, n + 1, list),
        used[i] ==> all_used(used, list.push(i as u16), 0),
        used[i] ==> found_within(start, n + 1, list.push(i as u16)),
{
    reveal(all_used);
    reveal(found_within);
    assert(distance(start, i) == n);
}

/// One step of the scan.
proof fn lemma_dust_scan_step(s: EngineState, i: int, left: int, found: Seq<u16>, loss: int)
    requires
        left > 0,
        found.len() < GC_CLOSE_BUDGET,
    ensures
        s.dust_scan(i, left, found, loss) == s.dust_examined(i).dust_scan(
            next_slot(i),
            left - 1,
            if s.collectable(i) {
                found.push(i as u16)
            } else {
                found
            },
            sat_u(loss + s.dust_loss(i)),
        ),
        s.collectable(i) ==> s.used[i],
{
}

pub proof fn lemma_freed_next(s: EngineState, list: Seq<u16>, k: int)
    requires
        s.used.len() == MAX_ACCOUNTS,
        0 <= k < list.len(),
        all_used(s.used, list, k),
    ensures
        s.is_used(list[k] as int),
        all_used(s.free_slot(list[k] as int).used, list, k + 1),
{
    reveal(all_used);
}

impl RiskEngine {
    /// Examines one slot. Where it is to be freed, returns the loss that its account leaves
    /// behind.
    fn examine_dust(&mut self, idx: usize) -> (r: Option<u128>)
        requires
            old(self).wf(),
            idx < MAX_ACCOUNTS,
        ensures
            final(self)@ == old(self)@.dust_examined(idx as int),
            r is Some <==> old(self)@.collectable(idx as int),
            r matches Some(loss) ==> loss == old(self)@.dust_loss(idx as int),
            final(self).wf(),
            final(self)@.used == old(self)@.used,
            final(self)@.gc_cursor == old(self)@.gc_cursor,
    {
        if !self.is_used(idx) {
            return None;
        }
        if self.accounts[idx].is_lp() {
            return None;
        }
        let slot: u64 = self.current_slot;
        match self.settle_maintenance_fee_best_effort_for_crank(idx as u16, slot) {
            _ => {},
        }
        if !self.accounts[idx].has_only_dust() {
            return None;
        }
        let index: I128 = self.funding_index_qpb_e6;
        Some(self.accounts[idx].write_off(index))
    }

    /// Examines the next slots in turn; returns those to be freed and the loss that their
    /// accounts leave behind.
    fn scan_dust(&mut self, start: usize) -> (r: (Vec<u16>, u128))
        requires
            old(self).wf(),
            start <= u16::MAX,
        ensures
            final(self).wf(),
            ({
                let w = old(self)@.dust_scan(
                    start as int % (MAX_ACCOUNTS as int),
                    ACCOUNTS_PER_CRANK as int,
                    Seq::empty(),
                    0,
                );
                final(self)@ == w.0 && r.0@ == w.1 && r.1 == w.2
            }),
            r.0@.len() <= GC_CLOSE_BUDGET,
            all_used(final(self)@.used, r.0@, 0),
            final(self)@.gc_cursor == old(self)@.gc_cursor,
    {
        let mut to_free: Vec<u16> = Vec::new();
        let max_scan: usize = ACCOUNTS_PER_CRANK as usize;
        let mut idx: usize = Self::wrap_index(start);
        let mut scanned: usize = 0;
        let mut left_behind: u128 = 0;
        let ghost all = self@.dust_scan(idx as int, max_scan as int, Seq::empty(), 0);
        proof {
            reveal(all_used);
            reveal(found_within);
        }
        while scanned < max_scan && to_free.len() < GC_CLOSE_BUDGET as usize
            invariant
                self.wf(),
                idx < MAX_ACCOUNTS,
                idx == (start + scanned) % (MAX_ACCOUNTS as int),
                scanned <= max_scan,
                max_scan == ACCOUNTS_PER_CRANK,
                to_free@.len() <= GC_CLOSE_BUDGET,
                all_used(self@.used, to_free@, 0),
                found_within(start as int, scanned as int, to_free@),
                self@.gc_cursor == old(self)@.gc_cursor,
                self@.dust_scan(
                    idx as int,
                    max_scan - scanned,
                    to_free@,
                    left_behind as int,
                ) == all,
            decreases max_scan - scanned,
        {
            proof {
                lemma_found_next(
                    self@.used,
                    start as int,
                    scanned as int,
                    idx as int,
                    to_free@,
                );
                lemma_dust_scan_step(
                    self@,
                    idx as int,
                    max_scan - scanned,
                    to_free@,
                    left_behind as int,
                );
            }
            match self.examine_dust(idx) {
                Some(loss) => {
                    to_free.push(idx as u16);
                    left_behind = add_u128(left_behind, loss);
                },
                None => {},
            }
            idx = Self::next_index(idx);
            scanned += 1;
        }
        (to_free, left_behind)
    }

    /// Shares a loss that dust accounts leave behind among all accounts.
    fn share_dust_loss(&mut self, loss: u128)
        requires
            old(self).wf(),
        ensures
            final(self)@ == old(self)@.with_dust_loss_shared(loss as int),
            final(self).wf(),
            final(self)@.used == old(self)@.used,
    {
        if self.can_share(loss, Exempt::Nobody) {
            match self.apply_adl(loss) {
                _ => {},
            }
        } else {
            self.cover_loss(loss);
            self.recompute_warmup_insurance_reserved();
        }
    }

    /// Frees accounts that can never pay anything out, from the next slots in turn; returns
    /// how many were freed. The losses that such accounts still have are first shared among
    /// all accounts, like those of a liquidation.
    pub fn garbage_collect_dust(&mut self) -> (r: u32)
        requires
            old(self).wf(),
        ensures
            final(self)@ == old(self)@.garbage_collect_dust().0,
            r == old(self)@.garbage_collect_dust().1,
            final(self).wf(),
    {
        let start: usize = self.gc_cursor as usize;
        let (to_free, left_behind): (Vec<u16>, u128) = self.scan_dust(start);
        self.share_dust_loss(left_behind);
        self.gc_cursor = Self::wrap_index(start + ACCOUNTS_PER_CRANK as usize) as u16;
        let ghost freed = self@.free_all(to_free@, 0);
        let mut i: usize = 0;
        while i < to_free.len()
            invariant
                self.wf(),
                i <= to_free@.len(),
                all_used(self@.used, to_free@, i as int),
                self@.free_all(to_free@, i as int) == freed,
            decreases to_free@.len() - i,
        {
            proof {
                lemma_freed_next(self@, to_free@, i as int);
            }
            self.free_slot(to_free[i]);
            i += 1;
        }
        to_free.len() as u32
    }
}

} // verus!

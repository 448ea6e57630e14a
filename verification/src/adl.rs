//! Auto-deleveraging: a loss is taken from profit that has not matured, then from the
//! insurance fund, and what is left is accumulated as uncovered.
use vstd::prelude::*;

use crate::haircut::{
    ahead, among_first, borne, cuts, first_too_big, lemma_first_by_rank, lemma_raised_sum,
    lemma_share_bound, lemma_shares_bound, lemma_sum_nonneg, lemma_sum_zero, raised, remainders,
    shares, sum, sum_to, too_big, total_weight, units_left, weights_ok,
};
use crate::heap::{better, entries_ok, first_of, heap_from, members};
use crate::math::{add_u128, min_int, min_u128, sat_u, sub_u128, u128_as_i128};
use crate::state::{EngineState, RiskEngine};
use crate::types::{Account, OpClass, RiskError, MAX_ACCOUNTS};
use crate::wide::{I128, U128};

verus! {

broadcast use crate::wide::group_wide;

/// The accounts that a loss is not taken from.
#[derive(Clone, Copy, Debug, PartialEq, Eq)]
pub enum Exempt {
    /// No account
    Nobody,
    /// One account
    One(usize),
    /// The accounts marked in the exclusion set
    Marked,
}

impl Account {
    /// The account with `x` taken off its profit.
    pub open spec fn profit_cut(self, x: int) -> Account {
        Account { pnl: I128::of(self.pnl@ - x), ..self }
    }
}

impl EngineState {
    pub open spec fn is_exempt(self, e: Exempt, i: int) -> bool {
        match e {
            Exempt::Nobody => false,
            Exempt::One(x) => x == i,
            Exempt::Marked => self.adl_exclude_scratch[i] != 0,
        }
    }

    /// Profit of slot `i` that a loss may be taken from.
    pub open spec fn adl_weight(self, e: Exempt, i: int) -> int {
        if self.used[i] && !self.is_exempt(e, i) {
            self.accounts[i].unwrapped_pnl(self.effective_slot())
        } else {
            0
        }
    }

    pub open spec fn adl_weights(self, e: Exempt) -> Seq<int> {
        Seq::new(MAX_ACCOUNTS as nat, |i: int| self.adl_weight(e, i))
    }

    /// The state with `c[i]` taken off the profit of each slot `i` below `n`.
    pub open spec fn with_cuts(self, c: Seq<int>, n: int) -> EngineState {
        EngineState {
            accounts: Seq::new(
                self.accounts.len(),
                |i: int|
                    if i < n {
                        self.accounts[i].profit_cut(c[i])
                    } else {
                        self.accounts[i]
                    },
            ),
            ..self
        }
    }

    /// A loss covered by insurance that may be spent; what that does not cover accumulates.
    /// Risk-reduction-only mode begins when something is uncovered or the floor is reached.
    pub open spec fn with_loss_covered(self, loss: int) -> EngineState {
        if loss <= 0 {
            self
        } else {
            let spend = min_int(loss, self.spendable_unreserved());
            let uncovered = loss - spend;
            let s = EngineState {
                loss_accum: U128::of(sat_u(self.loss_accum@ + uncovered)),
                ..self
            }.with_insurance(self.insurance_fund.balance@ - spend);
            if uncovered > 0 || s.at_floor() {
                s.in_risk_reduction()
            } else {
                s
            }
        }
    }

    /// Whether the shares of a loss can be computed for all accounts.
    pub open spec fn can_share(self, loss: int, e: Exempt) -> bool {
        let w = self.adl_weights(e);
        borne(w, loss) > 0 ==> first_too_big(w, loss, 0) == MAX_ACCOUNTS
    }

    /// A loss shared among all accounts that are not exempt. It fails where a share cannot be
    /// computed; the accounts before that one have borne their shares then.
    pub open spec fn deleverage(self, loss: int, e: Exempt) -> (
        EngineState,
        Result<(), RiskError>,
    ) {
        let w = self.adl_weights(e);
        let n = first_too_big(w, loss, 0);
        if loss == 0 {
            (self, Ok(()))
        } else if borne(w, loss) > 0 && n < MAX_ACCOUNTS {
            (self.with_cuts(shares(w, loss), n), Err(RiskError::Overflow))
        } else {
            let c = cuts(w, loss);
            (
                self.with_cuts(c, MAX_ACCOUNTS as int).with_loss_covered(
                    loss - sum(c),
                ).with_reserve(),
                Ok(()),
            )
        }
    }
}

pub open spec fn exempt_of(exclude: Option<usize>) -> Exempt {
    match exclude {
        Some(i) => Exempt::One(i),
        None => Exempt::Nobody,
    }
}

pub proof fn lemma_weights_ok(s: EngineState, e: Exempt)
    ensures
        weights_ok(s.adl_weights(e)),
        s.adl_weights(e).len() == MAX_ACCOUNTS,
        forall|i: int|
            0 <= i < MAX_ACCOUNTS && #[trigger] s.adl_weights(e)[i] > 0 ==> s.adl_weights(e)[i]
                <= s.accounts[i].pnl@,
{
}

/// The accounts with a remainder among the first `n` slots, listed in order with their
/// remainders.
#[verifier::opaque]
spec fn lists_remainders(
    r: Seq<int>,
    scratch: Seq<U128>,
    idx: Seq<u16>,
    m: int,
    n: int,
) -> bool {
    &&& 0 <= m <= n
    &&& forall|k: int|
        0 <= k < m ==> (#[trigger] idx[k]) < n && r[idx[k] as int] > 0
            && scratch[idx[k] as int]@ == r[idx[k] as int]
    &&& forall|j: int, k: int| 0 <= j < k < m ==> idx[j] < idx[k]
    &&& forall|i: int| 0 <= i < n && #[trigger] r[i] > 0 ==> idx.take(m).contains(i as u16)
}

impl RiskEngine {
    fn is_exempt(&self, exempt: Exempt, idx: usize) -> (r: bool)
        requires
            self.wf(),
            idx < MAX_ACCOUNTS,
        ensures
            r == self@.is_exempt(exempt, idx as int),
    {
        match exempt {
            Exempt::Nobody => false,
            Exempt::One(x) => x == idx,
            Exempt::Marked => self.adl_exclude_scratch[idx] != 0,
        }
    }

    /// Profit of a slot that a loss may be taken from.
    fn adl_weight(&self, exempt: Exempt, idx: usize, effective_slot: u64) -> (r: u128)
        requires
            self.wf(),
            idx < MAX_ACCOUNTS,
            effective_slot == self@.effective_slot(),
        ensures
            r == self@.adl_weight(exempt, idx as int),
    {
        if self.is_used(idx) && !self.is_exempt(exempt, idx) {
            self.compute_unwrapped_pnl_at(&self.accounts[idx], effective_slot)
        } else {
            0
        }
    }

    /// All profit that a loss may be taken from.
    fn total_unwrapped(&self, exempt: Exempt, effective_slot: u64) -> (r: u128)
        requires
            self.wf(),
            effective_slot == self@.effective_slot(),
        ensures
            r == total_weight(self@.adl_weights(exempt)),
    {
        let ghost w = self@.adl_weights(exempt);
        let mut total: u128 = 0;
        let mut idx: usize = 0;
        while idx < MAX_ACCOUNTS
            invariant
                self.wf(),
                effective_slot == self@.effective_slot(),
                w == self@.adl_weights(exempt),
                idx <= MAX_ACCOUNTS,
                total == min_int(sum_to(w, idx as int), u128::MAX as int),
            decreases MAX_ACCOUNTS - idx,
        {
            proof {
                lemma_weights_ok(self@, exempt);
                lemma_sum_nonneg(w, idx as int);
            }
            total = total.saturating_add(self.adl_weight(exempt, idx, effective_slot));
            idx += 1;
        }
        total
    }

    /// Takes the share of one account off its profit. Returns the share and its remainder,
    /// or nothing where the product is out of range.
    fn cut_share(
        &mut self,
        exempt: Exempt,
        idx: usize,
        loss_to_socialize: u128,
        total_unwrapped: u128,
        effective_slot: u64,
    ) -> (r: Option<(u128, u128)>)
        requires
            old(self).wf(),
            idx < MAX_ACCOUNTS,
            effective_slot == old(self)@.effective_slot(),
            0 < loss_to_socialize <= total_unwrapped,
        ensures
            final(self).wf(),
            final(self).adl_remainder_scratch@ == old(self).adl_remainder_scratch@,
            final(self).adl_idx_scratch@ == old(self).adl_idx_scratch@,
            ({
                let product = loss_to_socialize * old(self)@.adl_weight(exempt, idx as int);
                match r {
                    Some((haircut, left)) => {
                        &&& product <= u128::MAX
                        &&& haircut == product / (total_unwrapped as int)
                        &&& left == product % (total_unwrapped as int)
                        &&& final(self)@ == old(self)@.with_account(
                            idx as int,
                            old(self)@.accounts[idx as int].profit_cut(haircut as int),
                        )
                    },
                    None => product > u128::MAX && final(self)@ == old(self)@,
                }
            }),
    {
        let unwrapped: u128 = self.adl_weight(exempt, idx, effective_slot);
        let numer: u128 = match loss_to_socialize.checked_mul(unwrapped) {
            Some(p) => p,
            None => {
                return None;
            },
        };
        let haircut: u128 = numer / total_unwrapped;
        let left: u128 = numer % total_unwrapped;
        proof {
            let l = loss_to_socialize as int;
            let x = unwrapped as int;
            let t = total_unwrapped as int;
            assert(l * x <= t * x) by (nonlinear_arith)
                requires
                    l <= t,
                    x >= 0,
            ;
            assert((l * x) / t <= x) by (nonlinear_arith)
                requires
                    l * x <= t * x,
                    t > 0,
            ;
        }
        self.accounts[idx].pnl = self.accounts[idx].pnl.saturating_sub(u128_as_i128(haircut));
        Some((haircut, left))
    }

    /// Adds the remainder of account `idx` to the list of remainders, if there is one.
    /// Returns the length of the list.
    fn note_remainder(&mut self, idx: usize, left: u128, m: usize, Ghost(rem): Ghost<Seq<int>>) -> (r:
        usize)
        requires
            old(self).wf(),
            idx < MAX_ACCOUNTS,
            rem.len() == MAX_ACCOUNTS,
            left == rem[idx as int],
            lists_remainders(
                rem,
                old(self).adl_remainder_scratch@,
                old(self).adl_idx_scratch@,
                m as int,
                idx as int,
            ),
        ensures
            final(self).wf(),
            final(self)@ == old(self)@,
            lists_remainders(
                rem,
                final(self).adl_remainder_scratch@,
                final(self).adl_idx_scratch@,
                r as int,
                idx + 1,
            ),
    {
        proof {
            reveal(lists_remainders);
        }
        if left == 0 {
            return m;
        }
        let ghost scratch = self.adl_remainder_scratch@;
        let ghost list = self.adl_idx_scratch@;
        self.adl_remainder_scratch[idx] = U128::new(left);
        self.adl_idx_scratch[m] = idx as u16;
        proof {
            lemma_lists_next(
                rem,
                scratch,
                list,
                self.adl_remainder_scratch@,
                self.adl_idx_scratch@,
                m as int,
                idx as int,
            );
        }
        m + 1
    }

    /// Takes the share of the loss off every account, and lists the remainders. Returns the
    /// sum of the shares and the number of remainders.
    fn cut_shares(&mut self, exempt: Exempt, total_loss: u128, total_unwrapped: u128) -> (r: Result<
        (u128, usize),
        RiskError,
    >)
        requires
            old(self).wf(),
            total_unwrapped == total_weight(old(self)@.adl_weights(exempt)),
            borne(old(self)@.adl_weights(exempt), total_loss as int) > 0,
        ensures
            final(self).wf(),
            ({
                let w = old(self)@.adl_weights(exempt);
                let n = first_too_big(w, total_loss as int, 0);
                &&& final(self)@ == old(self)@.with_cuts(shares(w, total_loss as int), n)
                &&& match r {
                    Ok((applied, m)) => {
                        &&& n == MAX_ACCOUNTS
                        &&& applied == sum(shares(w, total_loss as int))
                        &&& lists_remainders(
                            remainders(w, total_loss as int),
                            final(self).adl_remainder_scratch@,
                            final(self).adl_idx_scratch@,
                            m as int,
                            MAX_ACCOUNTS as int,
                        )
                    },
                    Err(e) => n < MAX_ACCOUNTS && e == RiskError::Overflow,
                }
            }),
    {
        let ghost w = self@.adl_weights(exempt);
        let ghost loss = total_loss as int;
        let ghost q = shares(w, loss);
        let ghost rem = remainders(w, loss);
        let effective_slot: u64 = self.effective_warmup_slot();
        let loss_to_socialize: u128 = min_u128(total_loss, total_unwrapped);
        let mut applied: u128 = 0;
        let mut m: usize = 0;
        let mut idx: usize = 0;
        proof {
            reveal(lists_remainders);
            assert(self@ =~= old(self)@.with_cuts(q, 0));
        }
        while idx < MAX_ACCOUNTS
            invariant
                self.wf(),
                old(self).wf(),
                effective_slot == old(self)@.effective_slot(),
                w == old(self)@.adl_weights(exempt),
                loss == total_loss,
                q == shares(w, loss),
                rem == remainders(w, loss),
                total_unwrapped == total_weight(w),
                loss_to_socialize == borne(w, loss),
                loss_to_socialize > 0,
                idx <= MAX_ACCOUNTS,
                self@ == old(self)@.with_cuts(q, idx as int),
                forall|i: int| 0 <= i < idx ==> !too_big(w, loss, i),
                first_too_big(w, loss, 0) == first_too_big(w, loss, idx as int),
                applied == sum_to(q, idx as int),
                lists_remainders(
                    rem,
                    self.adl_remainder_scratch@,
                    self.adl_idx_scratch@,
                    m as int,
                    idx as int,
                ),
            decreases MAX_ACCOUNTS - idx,
        {
            proof {
                lemma_weights_ok(old(self)@, exempt);
                lemma_share_bound(w, loss, idx as int);
            }
            let ghost before = *self;
            let (haircut, left): (u128, u128) = match self.cut_share(
                exempt,
                idx,
                loss_to_socialize,
                total_unwrapped,
                effective_slot,
            ) {
                Some(x) => x,
                None => {
                    return Err(RiskError::Overflow);
                },
            };
            proof {
                assert(!too_big(w, loss, idx as int));
                lemma_shares_bound(w, loss, idx + 1);
                lemma_next_cut(old(self)@, q, idx as int);
            }
            applied += haircut;
            m = self.note_remainder(idx, left, m, Ghost(rem));
            idx += 1;
        }
        Ok((applied, m))
    }

    /// Takes one more unit off one account.
    fn cut_unit(&mut self, idx: usize)
        requires
            old(self).wf(),
            idx < MAX_ACCOUNTS,
            old(self)@.accounts[idx as int].pnl@ > 0,
        ensures
            final(self).wf(),
            final(self).adl_remainder_scratch@ == old(self).adl_remainder_scratch@,
            final(self).adl_idx_scratch@ == old(self).adl_idx_scratch@,
            final(self)@ == old(self)@.with_account(
                idx as int,
                old(self)@.accounts[idx as int].profit_cut(1),
            ),
    {
        self.accounts[idx].pnl = self.accounts[idx].pnl.saturating_sub(1);
    }

    /// Takes one more unit off each of the accounts with the largest remainders, as many as
    /// there are units left. Returns how many units were taken.
    fn cut_units(&mut self, m: usize, leftover: u128, Ghost(rem): Ghost<Seq<int>>) -> (r: usize)
        requires
            old(self).wf(),
            rem.len() == MAX_ACCOUNTS,
            lists_remainders(
                rem,
                old(self).adl_remainder_scratch@,
                old(self).adl_idx_scratch@,
                m as int,
                MAX_ACCOUNTS as int,
            ),
            forall|i: int|
                0 <= i < MAX_ACCOUNTS && #[trigger] rem[i] > 0 ==> old(self)@.accounts[i].pnl@ > 0,
        ensures
            final(self).wf(),
            r <= leftover,
            exists|p: Set<int>|
                units_drawn(rem, p, leftover as int) && p.len() == r && final(self)@ == old(
                    self,
                )@.with_cuts(#[trigger] unit_cuts(p), MAX_ACCOUNTS as int),
    {
        let ghost base = self@;
        let ghost scratch = self.adl_remainder_scratch@;
        let ghost mut p: Set<int> = Set::empty();
        proof {
            lemma_list_is_heap_content(rem, scratch, self.adl_idx_scratch@, m as int);
            assert(base =~= base.with_cuts(unit_cuts(p), MAX_ACCOUNTS as int));
        }
        self.adl_build_heap(m);
        let take: usize = min_u128(leftover, m as u128) as usize;
        let mut heap_size: usize = m;
        let mut taken: usize = 0;
        while taken < take
            invariant
                self.wf(),
                old(self).wf(),
                old(self)@ == base,
                rem.len() == MAX_ACCOUNTS,
                forall|i: int|
                    0 <= i < MAX_ACCOUNTS && #[trigger] rem[i] > 0 ==> base.accounts[i].pnl@ > 0,
                taken <= take <= m,
                heap_size == m - taken,
                self.adl_remainder_scratch@ == scratch,
                entries_ok(self.adl_idx_scratch@, heap_size as int),
                heap_from(scratch, self.adl_idx_scratch@, heap_size as int, 0),
                drawn(rem, scratch, members(self.adl_idx_scratch@, heap_size as int), p),
                p.len() == taken,
                self@ == base.with_cuts(unit_cuts(p), MAX_ACCOUNTS as int),
            decreases take - taken,
        {
            let ghost h = members(self.adl_idx_scratch@, heap_size as int);
            let idx: u16 = self.adl_pop_max(&mut heap_size);
            proof {
                lemma_draw(rem, scratch, h, p, idx);
                lemma_next_unit(base, p, idx as int);
            }
            self.cut_unit(idx as usize);
            proof {
                p = p.insert(idx as int);
            }
            taken += 1;
        }
        proof {
            let h = members(self.adl_idx_scratch@, heap_size as int);
            if heap_size == 0 {
                assert(h =~= Set::empty()) by {
                    assert(self.adl_idx_scratch@.take(0) =~= Seq::empty());
                }
            }
            lemma_drawn_by_rank(rem, scratch, h, p, leftover as int);
        }
        taken
    }

    /// Covers a loss from the insurance fund as far as that may be spent.
    pub(crate) fn cover_loss(&mut self, remaining_loss: u128)
        requires
            old(self).wf(),
        ensures
            final(self).wf(),
            final(self)@ == old(self)@.with_loss_covered(remaining_loss as int),
    {
        if remaining_loss == 0 {
            return;
        }
        let spendable: u128 = self.insurance_spendable_unreserved();
        let spend: u128 = min_u128(remaining_loss, spendable);
        self.insurance_fund.balance = U128::new(
            sub_u128(self.insurance_fund.balance.get(), spend),
        );
        let uncovered: u128 = remaining_loss.saturating_sub(spend);
        self.loss_accum = U128::new(add_u128(self.loss_accum.get(), uncovered));
        if uncovered > 0 || self.insurance_fund.balance.get()
            <= self.params.risk_reduction_threshold.get() {
            self.enter_risk_reduction_only_mode();
        }
    }

    /// Takes a loss off unmatured profit; returns how much was taken.
    fn haircut_profits(&mut self, total_loss: u128, exempt: Exempt) -> (r: Result<u128, RiskError>)
        requires
            old(self).wf(),
        ensures
            final(self).wf(),
            ({
                let w = old(self)@.adl_weights(exempt);
                let n = first_too_big(w, total_loss as int, 0);
                let c = cuts(w, total_loss as int);
                if borne(w, total_loss as int) > 0 && n < MAX_ACCOUNTS {
                    &&& final(self)@ == old(self)@.with_cuts(shares(w, total_loss as int), n)
                    &&& r == Err::<u128, RiskError>(RiskError::Overflow)
                } else {
                    &&& final(self)@ == old(self)@.with_cuts(c, MAX_ACCOUNTS as int)
                    &&& r matches Ok(applied) && applied == sum(c)
                }
            }),
    {
        let ghost w = self@.adl_weights(exempt);
        let ghost loss = total_loss as int;
        let ghost rem = remainders(w, loss);
        let ghost s0 = self@;
        let effective_slot: u64 = self.effective_warmup_slot();
        let total_unwrapped: u128 = self.total_unwrapped(exempt, effective_slot);
        let loss_to_socialize: u128 = min_u128(total_loss, total_unwrapped);
        proof {
            lemma_weights_ok(s0, exempt);
        }
        if loss_to_socialize == 0 {
            proof {
                lemma_no_cuts(s0, w, loss);
            }
            return Ok(0);
        }
        let (applied, m): (u128, usize) = self.cut_shares(exempt, total_loss, total_unwrapped)?;
        let leftover: u128 = loss_to_socialize.saturating_sub(applied);
        let ghost s1 = self@;
        proof {
            lemma_remainder_needs_profit(s0, exempt, loss);
        }
        let taken: usize = self.cut_units(m, leftover, Ghost(rem));
        proof {
            let p = choose|p: Set<int>|
                units_drawn(rem, p, leftover as int) && p.len() == taken && self@ == s1.with_cuts(
                    #[trigger] unit_cuts(p),
                    MAX_ACCOUNTS as int,
                );
            lemma_shares_and_units(s0, exempt, loss, p);
        }
        Ok(applied + taken as u128)
    }

    /// Whether the shares of a loss can be computed for all accounts.
    pub(crate) fn can_share(&self, total_loss: u128, exempt: Exempt) -> (r: bool)
        requires
            self.wf(),
        ensures
            r == self@.can_share(total_loss as int, exempt),
    {
        let ghost w = self@.adl_weights(exempt);
        let ghost loss = total_loss as int;
        let effective_slot: u64 = self.effective_warmup_slot();
        let total_unwrapped: u128 = self.total_unwrapped(exempt, effective_slot);
        let loss_to_socialize: u128 = min_u128(total_loss, total_unwrapped);
        proof {
            lemma_weights_ok(self@, exempt);
        }
        if loss_to_socialize == 0 {
            return true;
        }
        let mut idx: usize = 0;
        while idx < MAX_ACCOUNTS
            invariant
                self.wf(),
                effective_slot == self@.effective_slot(),
                w == self@.adl_weights(exempt),
                w.len() == MAX_ACCOUNTS,
                loss == total_loss,
                loss_to_socialize == borne(w, loss),
                loss_to_socialize > 0,
                idx <= MAX_ACCOUNTS,
                first_too_big(w, loss, 0) == first_too_big(w, loss, idx as int),
            decreases MAX_ACCOUNTS - idx,
        {
            let unwrapped: u128 = self.adl_weight(exempt, idx, effective_slot);
            assert(unwrapped == w[idx as int]);
            if loss_to_socialize.checked_mul(unwrapped).is_none() {
                assert(too_big(w, loss, idx as int));
                return false;
            }
            assert(!too_big(w, loss, idx as int));
            idx += 1;
        }
        true
    }

    /// Shares a loss among the profits of all accounts that are not exempt, then covers the
    /// rest from the insurance fund.
    fn deleverage(&mut self, total_loss: u128, exempt: Exempt) -> (r: Result<(), RiskError>)
        requires
            old(self).wf(),
        ensures
            final(self)@ == old(self)@.deleverage(total_loss as int, exempt).0,
            r == old(self)@.deleverage(total_loss as int, exempt).1,
            final(self).wf(),
    {
        self.enforce_op(OpClass::RiskReduce)?;
        if total_loss == 0 {
            return Ok(());
        }
        let applied_from_pnl: u128 = self.haircut_profits(total_loss, exempt)?;
        let remaining_loss: u128 = total_loss.saturating_sub(applied_from_pnl);
        self.cover_loss(remaining_loss);
        self.recompute_warmup_insurance_reserved();
        Ok(())
    }

    /// Shares a loss among all accounts in proportion to their unmatured profit; the
    /// insurance fund covers what exceeds it.
    pub fn apply_adl(&mut self, total_loss: u128) -> (r: Result<(), RiskError>)
        requires
            old(self).wf(),
        ensures
            final(self)@ == old(self)@.deleverage(total_loss as int, Exempt::Nobody).0,
            r == old(self)@.deleverage(total_loss as int, Exempt::Nobody).1,
            final(self).wf(),
    {
        self.apply_adl_impl(total_loss, None)
    }

    /// The same with one account left out.
    pub fn apply_adl_excluding(&mut self, total_loss: u128, exclude_idx: usize) -> (r: Result<
        (),
        RiskError,
    >)
        requires
            old(self).wf(),
        ensures
            final(self)@ == old(self)@.deleverage(total_loss as int, Exempt::One(exclude_idx)).0,
            r == old(self)@.deleverage(total_loss as int, Exempt::One(exclude_idx)).1,
            final(self).wf(),
    {
        self.apply_adl_impl(total_loss, Some(exclude_idx))
    }

    /// Shares a loss among the accounts, with at most one left out.
    pub fn apply_adl_impl(&mut self, total_loss: u128, exclude: Option<usize>) -> (r: Result<
        (),
        RiskError,
    >)
        requires
            old(self).wf(),
        ensures
            final(self)@ == old(self)@.deleverage(total_loss as int, exempt_of(exclude)).0,
            r == old(self)@.deleverage(total_loss as int, exempt_of(exclude)).1,
            final(self).wf(),
    {
        let exempt: Exempt = match exclude {
            Some(i) => Exempt::One(i),
            None => Exempt::Nobody,
        };
        self.deleverage(total_loss, exempt)
    }

    /// The same with the accounts marked in the exclusion set left out.
    pub fn apply_adl_excluding_set(&mut self, total_loss: u128) -> (r: Result<(), RiskError>)
        requires
            old(self).wf(),
        ensures
            final(self)@ == old(self)@.deleverage(total_loss as int, Exempt::Marked).0,
            r == old(self)@.deleverage(total_loss as int, Exempt::Marked).1,
            final(self).wf(),
    {
        self.deleverage(total_loss, Exempt::Marked)
    }
}

/// A unit for each account in `p`.
spec fn unit_cuts(p: Set<int>) -> Seq<int> {
    raised(Seq::new(MAX_ACCOUNTS as nat, |i: int| 0), p)
}

/// Whether `p` holds the accounts with the `n` largest remainders.
spec fn units_drawn(rem: Seq<int>, p: Set<int>, n: int) -> bool {
    &&& p.finite()
    &&& forall|i: int| p.contains(i) ==> 0 <= i < rem.len()
    &&& forall|i: int| 0 <= i < rem.len() ==> (#[trigger] p.contains(i) <==> among_first(rem, i, n))
}

/// Of the accounts with a remainder, `p` have been drawn and `h` are in the heap; all that
/// were drawn are ahead of all in the heap.
#[verifier::opaque]
spec fn drawn(rem: Seq<int>, scratch: Seq<U128>, h: Set<u16>, p: Set<int>) -> bool {
    &&& p.finite()
    &&& forall|i: int| #[trigger] p.contains(i) ==> 0 <= i < MAX_ACCOUNTS && rem[i] > 0
    &&& forall|v: u16| #[trigger]
        h.contains(v) ==> v < MAX_ACCOUNTS && rem[v as int] > 0 && scratch[v as int]@ == rem[v as int]
            && !p.contains(v as int)
    &&& forall|i: int|
        0 <= i < MAX_ACCOUNTS && #[trigger] rem[i] > 0 ==> p.contains(i) || h.contains(i as u16)
    &&& forall|i: int, v: u16|
        #![trigger p.contains(i), h.contains(v)]
        p.contains(i) && h.contains(v) ==> ahead(rem, i, v as int)
}

proof fn lemma_list_is_heap_content(rem: Seq<int>, scratch: Seq<U128>, idx: Seq<u16>, m: int)
    requires
        lists_remainders(rem, scratch, idx, m, MAX_ACCOUNTS as int),
        idx.len() == MAX_ACCOUNTS,
    ensures
        entries_ok(idx, m),
        drawn(rem, scratch, members(idx, m), Set::empty()),
        m <= MAX_ACCOUNTS,
{
    reveal(lists_remainders);
    reveal(drawn);
    let t = idx.take(m);
    assert forall|v: u16| #[trigger] members(idx, m).contains(v) implies v < MAX_ACCOUNTS
        && rem[v as int] > 0 && scratch[v as int]@ == rem[v as int] by {
        let k = choose|k: int| 0 <= k < t.len() && t[k] == v;
        assert(idx[k] == v);
    }
}

proof fn lemma_draw(rem: Seq<int>, scratch: Seq<U128>, h: Set<u16>, p: Set<int>, a: u16)
    requires
        drawn(rem, scratch, h, p),
        h.contains(a),
        first_of(scratch, a, h.remove(a)),
    ensures
        drawn(rem, scratch, h.remove(a), p.insert(a as int)),
        p.insert(a as int).len() == p.len() + 1,
        !p.contains(a as int),
        a < MAX_ACCOUNTS,
        rem[a as int] > 0,
{
    reveal(drawn);
    let h2 = h.remove(a);
    let p2 = p.insert(a as int);
    assert forall|v: u16| #[trigger] h2.contains(v) implies v < MAX_ACCOUNTS && rem[v as int] > 0
        && scratch[v as int]@ == rem[v as int] && !p2.contains(v as int) by {
        assert(h.contains(v));
    }
    assert forall|i: int, v: u16|
        #![trigger p2.contains(i), h2.contains(v)]
        p2.contains(i) && h2.contains(v) implies ahead(rem, i, v as int) by {
        assert(h.contains(v));
        if i == a {
            assert(better(scratch, a, v));
        } else {
            assert(p.contains(i));
        }
    }
}

proof fn lemma_drawn_by_rank(
    rem: Seq<int>,
    scratch: Seq<U128>,
    h: Set<u16>,
    p: Set<int>,
    n: int,
)
    requires
        rem.len() == MAX_ACCOUNTS,
        drawn(rem, scratch, h, p),
        p.len() == n || (p.len() <= n && h == Set::<u16>::empty()),
    ensures
        units_drawn(rem, p, n),
{
    reveal(drawn);
    assert forall|i: int, j: int|
        #![trigger p.contains(i), rem[j]]
        p.contains(i) && 0 <= j < rem.len() && rem[j] > 0 && !p.contains(j) implies ahead(
        rem,
        i,
        j,
    ) by {
        assert(h.contains(j as u16));
    }
    lemma_first_by_rank(rem, p, p.len() as int);
}

proof fn lemma_next_unit(s: EngineState, p: Set<int>, a: int)
    requires
        s.accounts.len() == MAX_ACCOUNTS,
        0 <= a < MAX_ACCOUNTS,
        !p.contains(a),
    ensures
        ({
            let before = s.with_cuts(unit_cuts(p), MAX_ACCOUNTS as int);
            &&& before.accounts[a] == s.accounts[a]
            &&& before.with_account(a, before.accounts[a].profit_cut(1)) == s.with_cuts(
                unit_cuts(p.insert(a)),
                MAX_ACCOUNTS as int,
            )
        }),
{
    let before = s.with_cuts(unit_cuts(p), MAX_ACCOUNTS as int);
    let after = s.with_cuts(unit_cuts(p.insert(a)), MAX_ACCOUNTS as int);
    assert(before.accounts[a] == s.accounts[a]);
    assert(before.with_account(a, before.accounts[a].profit_cut(1)) =~= after);
}

proof fn lemma_no_cuts(s: EngineState, w: Seq<int>, loss: int)
    requires
        s.accounts.len() == MAX_ACCOUNTS,
        w.len() == MAX_ACCOUNTS,
        borne(w, loss) <= 0,
    ensures
        s.with_cuts(cuts(w, loss), MAX_ACCOUNTS as int) == s,
        sum(cuts(w, loss)) == 0,
{
    let c = cuts(w, loss);
    assert(s.with_cuts(c, MAX_ACCOUNTS as int) =~= s);
    lemma_sum_zero(c, c.len() as int);
}

/// An account whose share leaves a remainder has profit beyond its share.
proof fn lemma_remainder_needs_profit(s: EngineState, e: Exempt, loss: int)
    requires
        s.accounts.len() == MAX_ACCOUNTS,
        borne(s.adl_weights(e), loss) > 0,
    ensures
        forall|i: int|
            0 <= i < MAX_ACCOUNTS && #[trigger] remainders(s.adl_weights(e), loss)[i] > 0
                ==> s.with_cuts(
                shares(s.adl_weights(e), loss),
                MAX_ACCOUNTS as int,
            ).accounts[i].pnl@ > 0,
{
    let w = s.adl_weights(e);
    lemma_weights_ok(s, e);
    assert forall|i: int|
        0 <= i < MAX_ACCOUNTS && #[trigger] remainders(w, loss)[i] > 0 implies s.with_cuts(
        shares(w, loss),
        MAX_ACCOUNTS as int,
    ).accounts[i].pnl@ > 0 by {
        lemma_share_bound(w, loss, i);
        assert(w[i] > 0);
    }
}

/// The shares and the units that were drawn make up the cuts.
proof fn lemma_shares_and_units(s: EngineState, e: Exempt, loss: int, p: Set<int>)
    requires
        s.accounts.len() == MAX_ACCOUNTS,
        borne(s.adl_weights(e), loss) > 0,
        units_drawn(
            remainders(s.adl_weights(e), loss),
            p,
            units_left(s.adl_weights(e), loss),
        ),
    ensures
        ({
            let w = s.adl_weights(e);
            let c = cuts(w, loss);
            &&& s.with_cuts(shares(w, loss), MAX_ACCOUNTS as int).with_cuts(
                unit_cuts(p),
                MAX_ACCOUNTS as int,
            ) == s.with_cuts(c, MAX_ACCOUNTS as int)
            &&& sum(c) == sum(shares(w, loss)) + p.len()
        }),
{
    let w = s.adl_weights(e);
    let q = shares(w, loss);
    let c = cuts(w, loss);
    let s1 = s.with_cuts(q, MAX_ACCOUNTS as int);
    lemma_weights_ok(s, e);
    lemma_raised_sum(q, p);
    assert(raised(q, p) =~= c);
    assert forall|i: int| 0 <= i < MAX_ACCOUNTS implies s1.accounts[i].profit_cut(unit_cuts(p)[i])
        == s.accounts[i].profit_cut(c[i]) by {
        lemma_share_bound(w, loss, i);
    }
    assert(s1.with_cuts(unit_cuts(p), MAX_ACCOUNTS as int) =~= s.with_cuts(c, MAX_ACCOUNTS as int));
}

proof fn lemma_next_cut(s: EngineState, c: Seq<int>, n: int)
    requires
        0 <= n < s.accounts.len(),
    ensures
        s.with_cuts(c, n).with_account(n, s.accounts[n].profit_cut(c[n])) == s.with_cuts(c, n + 1),
        s.with_cuts(c, n).accounts[n] == s.accounts[n],
{
    assert(s.with_cuts(c, n).with_account(n, s.accounts[n].profit_cut(c[n])) =~= s.with_cuts(
        c,
        n + 1,
    ));
}

proof fn lemma_lists_next(
    r: Seq<int>,
    scratch: Seq<U128>,
    idx: Seq<u16>,
    scratch2: Seq<U128>,
    idx2: Seq<u16>,
    m: int,
    n: int,
)
    requires
        lists_remainders(r, scratch, idx, m, n),
        0 <= n < MAX_ACCOUNTS,
        r.len() == MAX_ACCOUNTS,
        scratch.len() == MAX_ACCOUNTS,
        idx.len() == MAX_ACCOUNTS,
        r[n] > 0,
        scratch2 == scratch.update(n, U128::of(r[n])),
        idx2 == idx.update(m, n as u16),
        r[n] <= u128::MAX,
    ensures
        lists_remainders(r, scratch2, idx2, m + 1, n + 1),
{
    reveal(lists_remainders);
    assert forall|i: int| 0 <= i < n + 1 && #[trigger] r[i] > 0 implies idx2.take(m + 1).contains(
        i as u16,
    ) by {
        if i == n {
            assert(idx2.take(m + 1)[m] == n as u16);
        } else {
            let k = choose|k: int| 0 <= k < m && idx.take(m)[k] == i as u16;
            assert(idx2.take(m + 1)[k] == i as u16);
        }
    }
}

} // verus!

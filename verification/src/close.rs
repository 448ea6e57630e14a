//! Closing positions at the oracle price: with losses and profits socialized at once, or left
//! to be socialized later.
use vstd::prelude::*;

use crate::adl::Exempt;
use crate::margin::{slice_pnl, slice_pnl_exec};
use crate::math::{
    abs_sat, abs_u128, clamp_pos_i128, max_int, min_int, monus, neg_i128_to_u128, sat_i,
    sat_u, u128_to_i128_clamped,
};
use crate::state::{EngineState, RiskEngine};
use crate::types::{Account, AccountKind, ClosedOutcome, DeferredAdl, RiskError, MAX_ACCOUNTS};
use crate::wide::{I128, U128};

verus! {

broadcast use crate::wide::group_wide;

impl DeferredAdl {
    /// Nothing to be socialized.
    pub open spec fn none() -> DeferredAdl {
        DeferredAdl { profit_to_fund: 0, unpaid_loss: 0, excluded: false }
    }

    /// What is left by a close with the given profit and unpaid loss.
    pub open spec fn left_by(mark: int, unpaid: int) -> DeferredAdl {
        DeferredAdl {
            profit_to_fund: max_int(mark, 0) as u128,
            unpaid_loss: unpaid as u128,
            excluded: mark > 0,
        }
    }

    /// Nothing to be socialized.
    pub fn zero() -> (r: DeferredAdl)
        ensures
            r == Self::none(),
    {
        DeferredAdl { profit_to_fund: 0, unpaid_loss: 0, excluded: false }
    }
}

impl ClosedOutcome {
    /// Nothing was closed.
    pub open spec fn unchanged(capital: u128) -> ClosedOutcome {
        ClosedOutcome {
            abs_pos: 0,
            mark_pnl: 0,
            cap_before: capital,
            cap_after: capital,
            position_was_closed: false,
        }
    }
}

impl Account {
    /// Absolute position size.
    pub open spec fn size(self) -> int {
        abs_sat(self.position_size@ as int)
    }

    /// Profit of closing `size` units; the loss of all capital where it cannot be computed.
    pub open spec fn close_pnl(self, size: int, oracle: u64) -> int {
        match slice_pnl(
            self.position_size@ as int,
            size,
            self.entry_price as int,
            oracle as int,
        ) {
            Some(m) => m,
            None => -min_int(self.capital@ as int, i128::MAX as int),
        }
    }

    /// The position that is left when `size` units are closed.
    pub open spec fn position_after(self, size: int) -> int {
        if self.position_size@ > 0 {
            self.size() - size
        } else {
            -(self.size() - size)
        }
    }

    /// The account after `size` units were closed. The entry price stays with what is left.
    pub open spec fn slice_closed(self, size: int, oracle: u64) -> Account {
        Account {
            pnl: I128::of(sat_i(self.pnl@ + self.close_pnl(size, oracle))),
            position_size: I128::of(self.position_after(size)),
            entry_price: if size == self.size() {
                oracle
            } else {
                self.entry_price
            },
            ..self
        }
    }

    /// The part of a loss that the capital cannot pay.
    pub open spec fn unpaid_loss(self) -> int {
        if self.pnl@ < 0 {
            -(self.pnl@ as int) - self.payable_loss()
        } else {
            0
        }
    }

    /// The account after its capital paid what it can of its loss, and the rest was written
    /// off.
    pub open spec fn loss_cleared(self) -> Account {
        if self.unpaid_loss() > 0 {
            Account { pnl: I128::of(0), ..self.loss_paid() }
        } else {
            self.loss_paid()
        }
    }

    /// Warmup restarted at `slot`.
    pub open spec fn warmup_restarted(self, slot: u64) -> Account {
        Account { warmup_started_at_slot: slot, ..self }
    }
}

impl EngineState {
    /// `size` units of account `idx` closed, and taken off the open interest and the totals
    /// over liquidity providers.
    pub open spec fn with_slice_closed(self, idx: int, size: int, oracle: u64) -> EngineState {
        let a = self.accounts[idx];
        EngineState {
            total_open_interest: U128::of(monus(self.total_open_interest@ as int, size)),
            ..self
        }.with_account(idx, a.slice_closed(size, oracle)).with_lp_closed(a, size)
    }

    /// The totals over liquidity providers after `size` units of account `a` are closed.
    pub open spec fn with_lp_closed(self, a: Account, size: int) -> EngineState {
        if a.kind == AccountKind::LP {
            EngineState {
                net_lp_pos: I128::of(
                    sat_i(sat_i(self.net_lp_pos@ - a.position_size@) + a.position_after(size)),
                ),
                lp_sum_abs: U128::of(monus(self.lp_sum_abs@ as int, size)),
                ..self
            }
        } else {
            self
        }
    }

    /// A loss of account `idx` paid from its capital as far as that goes, and the rest
    /// written off.
    pub open spec fn with_loss_cleared(self, idx: int) -> EngineState {
        let a = self.accounts[idx];
        EngineState {
            warmed_neg_total: U128::of(sat_u(self.warmed_neg_total@ + a.payable_loss())),
            ..self
        }.with_account(idx, a.loss_cleared())
    }

    /// `size` units of account `idx` closed and its loss paid; also what is left to be
    /// socialized.
    pub open spec fn with_close_deferred(self, idx: int, size: int, oracle: u64) -> (
        EngineState,
        DeferredAdl,
    ) {
        let a = self.accounts[idx];
        let closed = self.with_slice_closed(idx, size, oracle);
        (
            closed.with_loss_cleared(idx),
            DeferredAdl::left_by(a.close_pnl(size, oracle), closed.accounts[idx].unpaid_loss()),
        )
    }

    /// A deferred close, after which the vesting rate is set anew.
    pub open spec fn close_slice_deferred(self, idx: int, size: int, oracle: u64) -> (
        EngineState,
        Result<(ClosedOutcome, DeferredAdl), RiskError>,
    ) {
        let a = self.accounts[idx];
        let (s1, deferred) = self.with_close_deferred(idx, size, oracle);
        match s1.update_warmup_slope(idx) {
            (s2, Err(e)) => (s2, Err(e)),
            (s2, Ok(_)) => (
                s2.with_account(idx, s2.accounts[idx].warmup_restarted(s2.effective_slot())),
                Ok(
                    (
                        ClosedOutcome {
                            abs_pos: size as u128,
                            mark_pnl: a.close_pnl(size, oracle) as i128,
                            cap_before: a.capital@,
                            cap_after: s2.accounts[idx].capital@,
                            position_was_closed: true,
                        },
                        deferred,
                    ),
                ),
            ),
        }
    }

    /// The whole position of account `idx` closed, with socialization left for later.
    pub open spec fn close_deferred(self, idx: int, oracle: u64) -> (
        EngineState,
        Result<(ClosedOutcome, DeferredAdl), RiskError>,
    ) {
        let a = self.accounts[idx];
        if a.position_size@ == 0 {
            (self, Ok((ClosedOutcome::unchanged(a.capital@), DeferredAdl::none())))
        } else {
            self.close_slice_deferred(idx, a.size(), oracle)
        }
    }

    /// At most `size` units of account `idx` closed, with socialization left for later.
    pub open spec fn close_up_to_deferred(self, idx: int, oracle: u64, size: int) -> (
        EngineState,
        Result<(ClosedOutcome, DeferredAdl), RiskError>,
    ) {
        let a = self.accounts[idx];
        if size == 0 || a.size() == 0 {
            (self, Ok((ClosedOutcome::unchanged(a.capital@), DeferredAdl::none())))
        } else {
            self.close_slice_deferred(idx, min_int(size, a.size()), oracle)
        }
    }

    /// A loss that settlement has left on account `idx` socialized, and written off.
    pub open spec fn with_residual_socialized(self, idx: int) -> (
        EngineState,
        Result<(), RiskError>,
    ) {
        let pnl = self.accounts[idx].pnl@;
        if pnl >= 0 {
            (self, Ok(()))
        } else {
            match self.deleverage(-(pnl as int), Exempt::Nobody) {
                (s1, Err(e)) => (s1, Err(e)),
                (s1, Ok(_)) => (
                    s1.with_account(idx, Account { pnl: I128::of(0), ..s1.accounts[idx] }),
                    Ok(()),
                ),
            }
        }
    }

    /// `size` units of account `idx` closed: a profit is funded by the other accounts, a loss
    /// is paid from capital, and what capital cannot pay is socialized.
    pub open spec fn close_slice(self, idx: int, size: int, oracle: u64) -> (
        EngineState,
        Result<ClosedOutcome, RiskError>,
    ) {
        let a = self.accounts[idx];
        let mark = a.close_pnl(size, oracle);
        match self.with_slice_closed(idx, size, oracle).deleverage(
            max_int(mark, 0),
            Exempt::One(idx as usize),
        ) {
            (s1, Err(e)) => (s1, Err(e)),
            (s1, Ok(_)) => match s1.settle_warmup_to_capital(idx) {
                (s2, Err(e)) => (s2, Err(e)),
                (s2, Ok(_)) => match s2.with_residual_socialized(idx) {
                    (s3, Err(e)) => (s3, Err(e)),
                    (s3, Ok(_)) => (
                        s3,
                        Ok(
                            ClosedOutcome {
                                abs_pos: size as u128,
                                mark_pnl: mark as i128,
                                cap_before: a.capital@,
                                cap_after: s3.accounts[idx].capital@,
                                position_was_closed: true,
                            },
                        ),
                    ),
                },
            },
        }
    }

    pub open spec fn close_position(self, idx: int, oracle: u64) -> (
        EngineState,
        Result<ClosedOutcome, RiskError>,
    ) {
        let a = self.accounts[idx];
        if a.position_size@ == 0 {
            (self, Ok(ClosedOutcome::unchanged(a.capital@)))
        } else {
            self.close_slice(idx, a.size(), oracle)
        }
    }

    pub open spec fn close_position_up_to(self, idx: int, oracle: u64, size: int) -> (
        EngineState,
        Result<ClosedOutcome, RiskError>,
    ) {
        let a = self.accounts[idx];
        if size == 0 || a.size() == 0 {
            (self, Ok(ClosedOutcome::unchanged(a.capital@)))
        } else {
            self.close_slice(idx, min_int(size, a.size()), oracle)
        }
    }

    /// The position of account `idx` closed by force. Its profit stays young: the rate is
    /// kept, and the clock restarts.
    pub open spec fn force_close(self, idx: int, oracle: u64) -> (EngineState, (i128, DeferredAdl)) {
        let a = self.accounts[idx];
        if a.position_size@ == 0 {
            (self, (0, DeferredAdl::none()))
        } else {
            let (s1, deferred) = self.with_close_deferred(idx, a.size(), oracle);
            (
                s1.with_account(idx, s1.accounts[idx].warmup_restarted(s1.effective_slot())),
                (a.close_pnl(a.size(), oracle) as i128, deferred),
            )
        }
    }
}

impl Account {
    /// Profit of closing part of the position; the loss of all capital where it cannot be
    /// computed.
    fn profit_of_close(&self, close_abs: u128, oracle_price: u64) -> (r: i128)
        requires
            close_abs <= i128::MAX,
        ensures
            r == self.close_pnl(close_abs as int, oracle_price),
    {
        match slice_pnl_exec(self.position_size.get(), close_abs, self.entry_price, oracle_price) {
            Some(m) => m,
            None => -u128_to_i128_clamped(self.capital.get()),
        }
    }

    /// Closes part of the position; returns the profit that this realized.
    fn close_slice(&mut self, close_abs: u128, oracle_price: u64) -> (r: i128)
        requires
            0 < close_abs <= old(self).size(),
        ensures
            *final(self) == old(self).slice_closed(close_abs as int, oracle_price),
            r == old(self).close_pnl(close_abs as int, oracle_price),
    {
        let mark_pnl: i128 = self.profit_of_close(close_abs, oracle_price);
        let pos: i128 = self.position_size.get();
        let abs_pos: u128 = abs_u128(pos);
        self.pnl = self.pnl.saturating_add(mark_pnl);
        let new_abs_pos: u128 = abs_pos - close_abs;
        self.position_size = if pos > 0 {
            I128::new(new_abs_pos as i128)
        } else {
            I128::new(-(new_abs_pos as i128))
        };
        if close_abs == abs_pos {
            self.entry_price = oracle_price;
        }
        mark_pnl
    }

    /// Writes off a loss that the capital cannot pay; returns what it paid and what was
    /// written off.
    fn clear_loss(&mut self) -> (r: (u128, u128))
        ensures
            *final(self) == old(self).loss_cleared(),
            r.0 == old(self).payable_loss(),
            r.1 == old(self).unpaid_loss(),
    {
        let pnl: i128 = self.pnl.get();
        if pnl >= 0 {
            return (0, 0);
        }
        let need: u128 = neg_i128_to_u128(pnl);
        let pay: u128 = self.pay_loss();
        let unpaid: u128 = need - pay;
        if unpaid > 0 {
            self.pnl = I128::zero();
        }
        (pay, unpaid)
    }
}

impl RiskEngine {
    /// Closes part of a position, and takes it off the open interest and the totals over
    /// liquidity providers.
    pub(crate) fn close_slice_at_oracle(&mut self, idx: usize, close_abs: u128, oracle_price: u64) -> (r: i128)
        requires
            old(self).wf(),
            idx < MAX_ACCOUNTS,
            0 < close_abs <= old(self)@.accounts[idx as int].size(),
        ensures
            final(self)@ == old(self)@.with_slice_closed(
                idx as int,
                close_abs as int,
                oracle_price,
            ),
            r == old(self)@.accounts[idx as int].close_pnl(close_abs as int, oracle_price),
            final(self).wf(),
    {
        let pos: i128 = self.accounts[idx].position_size.get();
        let mark_pnl: i128 = self.accounts[idx].close_slice(close_abs, oracle_price);
        self.total_open_interest = self.total_open_interest - close_abs;
        if self.accounts[idx].is_lp() {
            let new_pos: i128 = self.accounts[idx].position_size.get();
            self.net_lp_pos = self.net_lp_pos - pos + new_pos;
            self.lp_sum_abs = self.lp_sum_abs - close_abs;
        }
        mark_pnl
    }

    /// Closes part of a position and pays its loss; returns the realized profit and what is
    /// left to be socialized.
    fn close_with_deferral(&mut self, idx: usize, close_abs: u128, oracle_price: u64) -> (r: (
        i128,
        DeferredAdl,
    ))
        requires
            old(self).wf(),
            idx < MAX_ACCOUNTS,
            0 < close_abs <= old(self)@.accounts[idx as int].size(),
        ensures
            final(self)@ == old(self)@.with_close_deferred(
                idx as int,
                close_abs as int,
                oracle_price,
            ).0,
            r.0 == old(self)@.accounts[idx as int].close_pnl(close_abs as int, oracle_price),
            r.1 == old(self)@.with_close_deferred(idx as int, close_abs as int, oracle_price).1,
            final(self).wf(),
    {
        let mark_pnl: i128 = self.close_slice_at_oracle(idx, close_abs, oracle_price);
        let (pay, unpaid): (u128, u128) = self.accounts[idx].clear_loss();
        self.warmed_neg_total = self.warmed_neg_total + pay;
        let deferred: DeferredAdl = DeferredAdl {
            profit_to_fund: clamp_pos_i128(mark_pnl),
            unpaid_loss: unpaid,
            excluded: mark_pnl > 0,
        };
        (mark_pnl, deferred)
    }

    /// Closes part of a position with deferral, and restarts the account's warmup.
    fn close_slice_deferred(&mut self, idx: u16, close_abs: u128, oracle_price: u64) -> (r: Result<
        (ClosedOutcome, DeferredAdl),
        RiskError,
    >)
        requires
            old(self).wf(),
            idx < MAX_ACCOUNTS,
            0 < close_abs <= old(self)@.accounts[idx as int].size(),
        ensures
            final(self)@ == old(self)@.close_slice_deferred(
                idx as int,
                close_abs as int,
                oracle_price,
            ).0,
            r == old(self)@.close_slice_deferred(idx as int, close_abs as int, oracle_price).1,
            final(self).wf(),
    {
        let cap_before: u128 = self.accounts[idx as usize].capital.get();
        let (mark_pnl, deferred): (i128, DeferredAdl) = self.close_with_deferral(
            idx as usize,
            close_abs,
            oracle_price,
        );
        self.update_warmup_slope(idx)?;
        let effective_slot: u64 = self.effective_warmup_slot();
        self.accounts[idx as usize].warmup_started_at_slot = effective_slot;
        let cap_after: u128 = self.accounts[idx as usize].capital.get();
        Ok(
            (
                ClosedOutcome {
                    abs_pos: close_abs,
                    mark_pnl,
                    cap_before,
                    cap_after,
                    position_was_closed: true,
                },
                deferred,
            ),
        )
    }

    /// The outcome when there is nothing to close.
    fn nothing_closed(&self, idx: u16) -> (r: ClosedOutcome)
        requires
            self.wf(),
            idx < MAX_ACCOUNTS,
        ensures
            r == ClosedOutcome::unchanged(self@.accounts[idx as int].capital@),
    {
        let capital: u128 = self.accounts[idx as usize].capital.get();
        ClosedOutcome {
            abs_pos: 0,
            mark_pnl: 0,
            cap_before: capital,
            cap_after: capital,
            position_was_closed: false,
        }
    }

    /// Closes a position at the oracle price and leaves socialization for later.
    pub fn oracle_close_position_core_deferred_adl(&mut self, idx: u16, oracle_price: u64) -> (r:
        Result<(ClosedOutcome, DeferredAdl), RiskError>)
        requires
            old(self).wf(),
            idx < MAX_ACCOUNTS,
        ensures
            final(self)@ == old(self)@.close_deferred(idx as int, oracle_price).0,
            r == old(self)@.close_deferred(idx as int, oracle_price).1,
            final(self).wf(),
    {
        if self.accounts[idx as usize].position_size.is_zero() {
            return Ok((self.nothing_closed(idx), DeferredAdl::zero()));
        }
        let abs_pos: u128 = abs_u128(self.accounts[idx as usize].position_size.get());
        self.close_slice_deferred(idx, abs_pos, oracle_price)
    }

    /// Closes at most `close_abs` units of a position and leaves socialization for later.
    pub fn oracle_close_position_slice_core_deferred_adl(
        &mut self,
        idx: u16,
        oracle_price: u64,
        close_abs: u128,
    ) -> (r: Result<(ClosedOutcome, DeferredAdl), RiskError>)
        requires
            old(self).wf(),
            idx < MAX_ACCOUNTS,
        ensures
            final(self)@ == old(self)@.close_up_to_deferred(
                idx as int,
                oracle_price,
                close_abs as int,
            ).0,
            r == old(self)@.close_up_to_deferred(idx as int, oracle_price, close_abs as int).1,
            final(self).wf(),
    {
        let current_abs_pos: u128 = abs_u128(self.accounts[idx as usize].position_size.get());
        if close_abs == 0 || current_abs_pos == 0 {
            return Ok((self.nothing_closed(idx), DeferredAdl::zero()));
        }
        if close_abs >= current_abs_pos {
            return self.oracle_close_position_core_deferred_adl(idx, oracle_price);
        }
        self.close_slice_deferred(idx, close_abs, oracle_price)
    }

    /// Socializes a loss that settlement has left on an account, and writes it off.
    fn socialize_residual(&mut self, idx: u16) -> (r: Result<(), RiskError>)
        requires
            old(self).wf(),
            idx < MAX_ACCOUNTS,
        ensures
            final(self)@ == old(self)@.with_residual_socialized(idx as int).0,
            r == old(self)@.with_residual_socialized(idx as int).1,
            final(self).wf(),
    {
        let residual_pnl: i128 = self.accounts[idx as usize].pnl.get();
        if residual_pnl < 0 {
            let unpaid: u128 = neg_i128_to_u128(residual_pnl);
            self.apply_adl(unpaid)?;
            self.accounts[idx as usize].pnl = I128::zero();
        }
        Ok(())
    }

    /// Closes part of a position and socializes at once.
    fn close_slice_now(&mut self, idx: u16, close_abs: u128, oracle_price: u64) -> (r: Result<
        ClosedOutcome,
        RiskError,
    >)
        requires
            old(self).wf(),
            idx < MAX_ACCOUNTS,
            0 < close_abs <= old(self)@.accounts[idx as int].size(),
        ensures
            final(self)@ == old(self)@.close_slice(idx as int, close_abs as int, oracle_price).0,
            r == old(self)@.close_slice(idx as int, close_abs as int, oracle_price).1,
            final(self).wf(),
    {
        let cap_before: u128 = self.accounts[idx as usize].capital.get();
        let mark_pnl: i128 = self.close_slice_at_oracle(idx as usize, close_abs, oracle_price);
        self.apply_adl_excluding(clamp_pos_i128(mark_pnl), idx as usize)?;
        self.settle_warmup_to_capital(idx)?;
        self.socialize_residual(idx)?;
        let cap_after: u128 = self.accounts[idx as usize].capital.get();
        Ok(
            ClosedOutcome {
                abs_pos: close_abs,
                mark_pnl,
                cap_before,
                cap_after,
                position_was_closed: true,
            },
        )
    }

    /// Closes a position at the oracle price and socializes at once.
    pub fn oracle_close_position_core(&mut self, idx: u16, oracle_price: u64) -> (r: Result<
        ClosedOutcome,
        RiskError,
    >)
        requires
            old(self).wf(),
            idx < MAX_ACCOUNTS,
        ensures
            final(self)@ == old(self)@.close_position(idx as int, oracle_price).0,
            r == old(self)@.close_position(idx as int, oracle_price).1,
            final(self).wf(),
    {
        if self.accounts[idx as usize].position_size.is_zero() {
            return Ok(self.nothing_closed(idx));
        }
        let abs_pos: u128 = abs_u128(self.accounts[idx as usize].position_size.get());
        self.close_slice_now(idx, abs_pos, oracle_price)
    }

    /// Closes at most `close_abs` units of a position and socializes at once.
    pub fn oracle_close_position_slice_core(
        &mut self,
        idx: u16,
        oracle_price: u64,
        close_abs: u128,
    ) -> (r: Result<ClosedOutcome, RiskError>)
        requires
            old(self).wf(),
            idx < MAX_ACCOUNTS,
        ensures
            final(self)@ == old(self)@.close_position_up_to(
                idx as int,
                oracle_price,
                close_abs as int,
            ).0,
            r == old(self)@.close_position_up_to(idx as int, oracle_price, close_abs as int).1,
            final(self).wf(),
    {
        let current_abs_pos: u128 = abs_u128(self.accounts[idx as usize].position_size.get());
        if close_abs == 0 || current_abs_pos == 0 {
            return Ok(self.nothing_closed(idx));
        }
        if close_abs >= current_abs_pos {
            return self.oracle_close_position_core(idx, oracle_price);
        }
        self.close_slice_now(idx, close_abs, oracle_price)
    }

    /// Closes a position by force; profits stay young, and socialization is left for later.
    pub fn force_close_position_deferred(&mut self, idx: usize, oracle_price: u64) -> (r: Result<
        (i128, DeferredAdl),
        RiskError,
    >)
        requires
            old(self).wf(),
            idx < MAX_ACCOUNTS,
        ensures
            final(self)@ == old(self)@.force_close(idx as int, oracle_price).0,
            r == Ok::<(i128, DeferredAdl), RiskError>(
                old(self)@.force_close(idx as int, oracle_price).1,
            ),
            final(self).wf(),
    {
        if self.accounts[idx].position_size.is_zero() {
            return Ok((0, DeferredAdl::zero()));
        }
        let abs_pos: u128 = abs_u128(self.accounts[idx].position_size.get());
        let (mark_pnl, deferred): (i128, DeferredAdl) = self.close_with_deferral(
            idx,
            abs_pos,
            oracle_price,
        );
        let effective_slot: u64 = self.effective_warmup_slot();
        self.accounts[idx].warmup_started_at_slot = effective_slot;
        Ok((mark_pnl, deferred))
    }
}

} // verus!

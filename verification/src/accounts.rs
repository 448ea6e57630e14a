//! Opening and closing accounts, deposits and withdrawals.
use vstd::prelude::*;

use crate::margin::{margin_required, margin_required_exec};
use crate::math::{add_u128, clamp_neg_i128, min_int, min_u128, monus, sat_u, sub_u128};
use crate::state::{EngineState, RiskEngine};
use crate::types::{zero_key, Account, AccountKind, OpClass, RiskError, MAX_ACCOUNTS, MAX_ORACLE_PRICE};
use crate::wide::{I128, U128};

verus! {

broadcast use crate::wide::group_wide;

/// The next account id.
pub open spec fn next_id(id: u64) -> u64 {
    if id == u64::MAX {
        id
    } else {
        (id + 1) as u64
    }
}

impl EngineState {
    /// An account as it is when opened: nothing but `capital`, and all clocks at the present.
    pub open spec fn opened(
        self,
        kind: AccountKind,
        capital: int,
        program: [u8; 32],
        context: [u8; 32],
    ) -> Account {
        Account {
            kind,
            account_id: self.next_account_id,
            capital: U128::of(capital),
            pnl: I128::of(0),
            reserved_pnl: 0,
            warmup_started_at_slot: self.current_slot,
            warmup_slope_per_step: U128::of(0),
            position_size: I128::of(0),
            entry_price: 0,
            funding_index: self.funding_index_qpb_e6,
            matcher_program: program,
            matcher_context: context,
            owner: Account::vacant().owner,
            fee_credits: I128::of(0),
            last_fee_slot: self.current_slot,
        }
    }

    /// A new account: the fee goes to the insurance fund, and what was paid beyond it becomes
    /// the account's capital. Where no slot is free the payment has been booked all the same.
    pub open spec fn add_account(
        self,
        kind: AccountKind,
        program: [u8; 32],
        context: [u8; 32],
        payment: u128,
    ) -> (EngineState, Result<u16, RiskError>) {
        let fee = self.params.new_account_fee@;
        if self.num_used_accounts >= self.params.max_accounts {
            (self, Err(RiskError::Overflow))
        } else if payment < fee {
            (self, Err(RiskError::InsufficientBalance))
        } else {
            let paid = EngineState {
                vault: U128::of(sat_u(self.vault@ + payment)),
                ..self
            }.with_fee_income(fee as int);
            match paid.alloc_slot() {
                (s, Err(e)) => (s, Err(e)),
                (s, Ok(idx)) => (
                    EngineState {
                        next_account_id: next_id(self.next_account_id),
                        ..s
                    }.with_account(
                        idx as int,
                        self.opened(kind, payment - fee, program, context),
                    ),
                    Ok(idx),
                ),
            }
        }
    }

    /// The state at slot `now`.
    pub open spec fn at_slot(self, now: u64) -> EngineState {
        EngineState { current_slot: now, ..self }
    }

    /// Whether the last crank is recent enough.
    pub open spec fn crank_is_fresh(self, now: u64) -> bool {
        now - self.last_crank_slot <= self.max_crank_staleness_slots
    }

    /// Whether a full sweep has started recently.
    pub open spec fn sweep_is_recent(self, now: u64) -> bool {
        now - self.last_full_sweep_start_slot <= self.max_crank_staleness_slots
    }

    /// Funds received for account `idx`: fees owed are paid first, the rest is capital.
    pub open spec fn with_deposit(self, idx: int, amount: u128, now: u64) -> EngineState {
        let a = self.accounts[idx].fees_accrued(self.fee_per_slot(), now);
        let fee = min_int(a.fee_debt(), amount as int);
        EngineState { vault: U128::of(sat_u(self.vault@ + amount)), ..self }.with_fee_income(
            fee,
        ).with_account(
            idx,
            Account { capital: U128::of(sat_u(a.capital@ + (amount - fee))), ..a.credited(fee) },
        )
    }

    /// A deposit, after which warmup and remaining fee debt are settled.
    pub open spec fn deposit(self, idx: int, amount: u128, now: u64) -> (
        EngineState,
        Result<(), RiskError>,
    ) {
        let s0 = self.at_slot(now);
        if !self.is_used(idx) {
            (s0, Err(RiskError::AccountNotFound))
        } else {
            match s0.with_deposit(idx, amount, now).settle_warmup_to_capital(idx) {
                (s1, Err(e)) => (s1, Err(e)),
                (s1, Ok(_)) => (s1.with_fee_debt_paid(idx), Ok(())),
            }
        }
    }

    /// The account with `amount` less capital.
    pub open spec fn capital_reduced(a: Account, amount: int) -> Account {
        Account { capital: U128::of(a.capital@ - amount), ..a }
    }

    /// `amount` paid out of the vault; in risk-reduction-only mode it counts as withdrawn in
    /// that mode.
    pub open spec fn paid_out(self, amount: int) -> EngineState {
        EngineState {
            vault: U128::of(monus(self.vault@ as int, amount)),
            risk_reduction_mode_withdrawn: if self.risk_reduction_only {
                U128::of(sat_u(self.risk_reduction_mode_withdrawn@ + amount))
            } else {
                self.risk_reduction_mode_withdrawn
            },
            ..self
        }
    }

    /// `amount` of capital taken out of a settled account. An account with a position keeps
    /// its initial margin and stays above its maintenance margin.
    pub open spec fn withdraw_settled(self, idx: int, amount: u128, oracle: u64) -> (
        EngineState,
        Result<(), RiskError>,
    ) {
        let a = self.accounts[idx];
        let b = Self::capital_reduced(a, amount as int);
        let pos = a.position_size@ as int;
        if a.capital@ < amount {
            (self, Err(RiskError::InsufficientBalance))
        } else if pos != 0 && b.equity_mtm(oracle as int) < margin_required(
            pos,
            oracle as int,
            self.params.initial_margin_bps as int,
        ) {
            (self, Err(RiskError::Undercollateralized))
        } else if b.below_margin(oracle as int, self.params.maintenance_margin_bps as int) {
            (
                EngineState {
                    vault: U128::of(sat_u(monus(self.vault@ as int, amount as int) + amount)),
                    ..self
                },
                Err(RiskError::Undercollateralized),
            )
        } else {
            (self.paid_out(amount as int).with_account(idx, b), Ok(()))
        }
    }

    pub open spec fn withdraw(self, idx: int, amount: u128, now: u64, oracle: u64) -> (
        EngineState,
        Result<(), RiskError>,
    ) {
        let s0 = self.at_slot(now);
        if oracle == 0 || oracle > MAX_ORACLE_PRICE {
            (s0, Err(RiskError::Overflow))
        } else if !self.crank_is_fresh(now) || !self.sweep_is_recent(now) || self.has_pending() {
            (s0, Err(RiskError::Unauthorized))
        } else if !self.is_used(idx) {
            (s0, Err(RiskError::AccountNotFound))
        } else {
            match s0.touch_account_full(idx, now, oracle) {
                (s1, Err(e)) => (s1, Err(e)),
                (s1, Ok(_)) => s1.withdraw_settled(idx, amount, oracle),
            }
        }
    }

    /// A settled account closed: it has no position, owes no fees and has neither profit nor
    /// loss. Its capital leaves the vault.
    pub open spec fn close_settled(self, idx: int) -> (EngineState, Result<u128, RiskError>) {
        let a = self.accounts[idx];
        if a.position_size@ != 0 {
            (self, Err(RiskError::Undercollateralized))
        } else if a.fee_credits@ < 0 {
            (self, Err(RiskError::InsufficientBalance))
        } else if a.pnl@ > 0 {
            (self, Err(RiskError::PnlNotWarmedUp))
        } else if a.pnl@ < 0 {
            (self, Err(RiskError::Undercollateralized))
        } else if a.capital@ > self.vault@ {
            (self, Err(RiskError::InsufficientBalance))
        } else {
            (self.paid_out(a.capital@ as int).free_slot(idx), Ok(a.capital@))
        }
    }

    pub open spec fn close_account(self, idx: int, now: u64, oracle: u64) -> (
        EngineState,
        Result<u128, RiskError>,
    ) {
        let s0 = self.at_slot(now);
        if !self.is_used(idx) {
            (s0, Err(RiskError::AccountNotFound))
        } else if self.has_pending() {
            (s0, Err(RiskError::Unauthorized))
        } else {
            match s0.touch_account_full(idx, now, oracle) {
                (s1, Err(e)) => (s1, Err(e)),
                (s1, Ok(_)) => s1.close_settled(idx),
            }
        }
    }
}

impl RiskEngine {
    /// Opens an account of the given kind.
    fn add_account(
        &mut self,
        kind: AccountKind,
        matcher_program: [u8; 32],
        matcher_context: [u8; 32],
        fee_payment: u128,
    ) -> (r: Result<u16, RiskError>)
        requires
            old(self).wf(),
        ensures
            final(self)@ == old(self)@.add_account(
                kind,
                matcher_program,
                matcher_context,
                fee_payment,
            ).0,
            r == old(self)@.add_account(kind, matcher_program, matcher_context, fee_payment).1,
            final(self).wf(),
    {
        let used_count: u64 = self.num_used_accounts as u64;
        if used_count >= self.params.max_accounts {
            return Err(RiskError::Overflow);
        }
        let required_fee: u128 = self.params.new_account_fee.get();
        if fee_payment < required_fee {
            return Err(RiskError::InsufficientBalance);
        }
        let excess: u128 = fee_payment.saturating_sub(required_fee);
        self.vault = self.vault + fee_payment;
        self.book_fee_income(required_fee);
        let idx: u16 = self.alloc_slot()?;
        let account_id: u64 = self.next_account_id;
        self.next_account_id = self.next_account_id.saturating_add(1);
        let account: Account = Account {
            kind,
            account_id,
            capital: U128::new(excess),
            pnl: I128::zero(),
            reserved_pnl: 0,
            warmup_started_at_slot: self.current_slot,
            warmup_slope_per_step: U128::zero(),
            position_size: I128::zero(),
            entry_price: 0,
            funding_index: self.funding_index_qpb_e6,
            matcher_program,
            matcher_context,
            owner: [0; 32],
            fee_credits: I128::zero(),
            last_fee_slot: self.current_slot,
        };
        self.accounts[idx as usize] = account;
        Ok(idx)
    }

    /// Opens a user account. Whatever is paid beyond the account fee becomes its capital.
    pub fn add_user(&mut self, fee_payment: u128) -> (r: Result<u16, RiskError>)
        requires
            old(self).wf(),
        ensures
            final(self)@ == old(self)@.add_account(
                AccountKind::User,
                zero_key(),
                zero_key(),
                fee_payment,
            ).0,
            r == old(self)@.add_account(
                AccountKind::User,
                zero_key(),
                zero_key(),
                fee_payment,
            ).1,
            final(self).wf(),
    {
        self.add_account(AccountKind::User, [0; 32], [0; 32], fee_payment)
    }

    /// Opens a liquidity provider account with its matching engine.
    pub fn add_lp(
        &mut self,
        matching_engine_program: [u8; 32],
        matching_engine_context: [u8; 32],
        fee_payment: u128,
    ) -> (r: Result<u16, RiskError>)
        requires
            old(self).wf(),
        ensures
            final(self)@ == old(self)@.add_account(
                AccountKind::LP,
                matching_engine_program,
                matching_engine_context,
                fee_payment,
            ).0,
            r == old(self)@.add_account(
                AccountKind::LP,
                matching_engine_program,
                matching_engine_context,
                fee_payment,
            ).1,
            final(self).wf(),
    {
        self.add_account(
            AccountKind::LP,
            matching_engine_program,
            matching_engine_context,
            fee_payment,
        )
    }

    /// Sets the owner key of an account.
    pub fn set_owner(&mut self, idx: u16, owner: [u8; 32]) -> (r: Result<(), RiskError>)
        requires
            old(self).wf(),
        ensures
            final(self)@ == (if old(self)@.is_used(idx as int) {
                old(self)@.with_account(
                    idx as int,
                    (Account { owner, ..old(self)@.accounts[idx as int] }),
                )
            } else {
                old(self)@
            }),
            r == (if old(self)@.is_used(idx as int) {
                Ok::<(), RiskError>(())
            } else {
                Err(RiskError::Unauthorized)
            }),
            final(self).wf(),
    {
        if idx as usize >= MAX_ACCOUNTS || !self.is_used(idx as usize) {
            return Err(RiskError::Unauthorized);
        }
        self.accounts[idx as usize].owner = owner;
        Ok(())
    }

    /// Refuses when the last crank is too old.
    pub fn require_fresh_crank(&self, now_slot: u64) -> (r: Result<(), RiskError>)
        ensures
            r == (if self@.crank_is_fresh(now_slot) {
                Ok::<(), RiskError>(())
            } else {
                Err(RiskError::Unauthorized)
            }),
    {
        if now_slot.saturating_sub(self.last_crank_slot) > self.max_crank_staleness_slots {
            return Err(RiskError::Unauthorized);
        }
        Ok(())
    }

    /// Refuses when no full sweep has started recently.
    pub fn require_recent_full_sweep(&self, now_slot: u64) -> (r: Result<(), RiskError>)
        ensures
            r == (if self@.sweep_is_recent(now_slot) {
                Ok::<(), RiskError>(())
            } else {
                Err(RiskError::Unauthorized)
            }),
    {
        if now_slot.saturating_sub(self.last_full_sweep_start_slot)
            > self.max_crank_staleness_slots {
            return Err(RiskError::Unauthorized);
        }
        Ok(())
    }

    /// Books funds received for an account: fees owed first, then capital.
    fn book_deposit(&mut self, idx: u16, amount: u128, now_slot: u64)
        requires
            old(self).wf(),
            idx < MAX_ACCOUNTS,
        ensures
            final(self)@ == old(self)@.with_deposit(idx as int, amount, now_slot),
            final(self).wf(),
    {
        let per_slot: u128 = self.params.maintenance_fee_per_slot.get();
        let account: &mut Account = &mut self.accounts[idx as usize];
        account.accrue_fees(per_slot, now_slot);
        let owed: u128 = clamp_neg_i128(account.fee_credits.get());
        let pay: u128 = min_u128(owed, amount);
        account.credit_fees(pay);
        account.capital = U128::new(add_u128(account.capital.get(), amount - pay));
        self.book_fee_income(pay);
        self.vault = U128::new(add_u128(self.vault.get(), amount));
    }

    /// Deposits funds to an account. Accrued fees are paid from the deposit first.
    pub fn deposit(&mut self, idx: u16, amount: u128, now_slot: u64) -> (r: Result<(), RiskError>)
        requires
            old(self).wf(),
        ensures
            final(self)@ == old(self)@.deposit(idx as int, amount, now_slot).0,
            r == old(self)@.deposit(idx as int, amount, now_slot).1,
            final(self).wf(),
    {
        self.current_slot = now_slot;
        self.enforce_op(OpClass::RiskReduce)?;
        if !self.is_used(idx as usize) {
            return Err(RiskError::AccountNotFound);
        }
        self.book_deposit(idx, amount, now_slot);
        self.settle_warmup_to_capital(idx)?;
        self.pay_fee_debt_from_capital(idx);
        Ok(())
    }

    /// Takes capital out of a settled account.
    fn withdraw_settled(&mut self, idx: u16, amount: u128, oracle_price: u64) -> (r: Result<
        (),
        RiskError,
    >)
        requires
            old(self).wf(),
            idx < MAX_ACCOUNTS,
        ensures
            final(self)@ == old(self)@.withdraw_settled(idx as int, amount, oracle_price).0,
            r == old(self)@.withdraw_settled(idx as int, amount, oracle_price).1,
            final(self).wf(),
    {
        let account: Account = self.accounts[idx as usize];
        let old_capital: U128 = account.capital;
        if old_capital.get() < amount {
            return Err(RiskError::InsufficientBalance);
        }
        let reduced: Account = Account {
            capital: U128::new(sub_u128(old_capital.get(), amount)),
            ..account
        };
        if !account.position_size.is_zero() {
            let new_equity_mtm: u128 = self.account_equity_mtm_at_oracle(&reduced, oracle_price);
            let initial_margin_required: u128 = margin_required_exec(
                account.position_size.get(),
                oracle_price,
                self.params.initial_margin_bps,
            );
            if new_equity_mtm < initial_margin_required {
                return Err(RiskError::Undercollateralized);
            }
        }
        self.accounts[idx as usize] = reduced;
        self.vault = U128::new(sub_u128(self.vault.get(), amount));
        if self.is_undercollateralized(idx, oracle_price) {
            self.accounts[idx as usize].capital = old_capital;
            self.vault = U128::new(add_u128(self.vault.get(), amount));
            return Err(RiskError::Undercollateralized);
        }
        self.count_withdrawn(amount);
        Ok(())
    }

    /// Counts an amount as withdrawn in risk-reduction-only mode, if that is on.
    fn count_withdrawn(&mut self, amount: u128)
        requires
            old(self).wf(),
        ensures
            final(self)@ == (EngineState {
                vault: old(self)@.vault,
                ..old(self)@.paid_out(amount as int)
            }),
            final(self).wf(),
    {
        if self.risk_reduction_only {
            self.risk_reduction_mode_withdrawn =
            self.risk_reduction_mode_withdrawn.saturating_add(amount);
        }
    }

    /// Withdraws capital from an account after settling it in full.
    pub fn withdraw(&mut self, idx: u16, amount: u128, now_slot: u64, oracle_price: u64) -> (r:
        Result<(), RiskError>)
        requires
            old(self).wf(),
        ensures
            final(self)@ == old(self)@.withdraw(idx as int, amount, now_slot, oracle_price).0,
            r == old(self)@.withdraw(idx as int, amount, now_slot, oracle_price).1,
            final(self).wf(),
    {
        self.current_slot = now_slot;
        if oracle_price == 0 || oracle_price > MAX_ORACLE_PRICE {
            return Err(RiskError::Overflow);
        }
        self.require_fresh_crank(now_slot)?;
        self.require_recent_full_sweep(now_slot)?;
        self.require_no_pending_socialization()?;
        self.enforce_op(OpClass::RiskNeutral)?;
        if !self.is_used(idx as usize) {
            return Err(RiskError::AccountNotFound);
        }
        self.touch_account_full(idx, now_slot, oracle_price)?;
        self.withdraw_settled(idx, amount, oracle_price)
    }

    /// Closes a settled account.
    fn close_settled(&mut self, idx: u16) -> (r: Result<u128, RiskError>)
        requires
            old(self).wf(),
            old(self)@.is_used(idx as int),
        ensures
            final(self)@ == old(self)@.close_settled(idx as int).0,
            r == old(self)@.close_settled(idx as int).1,
            final(self).wf(),
    {
        let account: Account = self.accounts[idx as usize];
        if !account.position_size.is_zero() {
            return Err(RiskError::Undercollateralized);
        }
        if account.fee_credits.is_negative() {
            return Err(RiskError::InsufficientBalance);
        }
        if account.pnl.is_positive() {
            return Err(RiskError::PnlNotWarmedUp);
        }
        if account.pnl.is_negative() {
            return Err(RiskError::Undercollateralized);
        }
        let capital: U128 = account.capital;
        if capital.get() > self.vault.get() {
            return Err(RiskError::InsufficientBalance);
        }
        self.vault = self.vault - capital;
        self.count_withdrawn(capital.get());
        self.free_slot(idx);
        Ok(capital.get())
    }

    /// Closes an account after settling it in full, and returns its capital.
    pub fn close_account(&mut self, idx: u16, now_slot: u64, oracle_price: u64) -> (r: Result<
        u128,
        RiskError,
    >)
        requires
            old(self).wf(),
        ensures
            final(self)@ == old(self)@.close_account(idx as int, now_slot, oracle_price).0,
            r == old(self)@.close_account(idx as int, now_slot, oracle_price).1,
            final(self).wf(),
    {
        self.current_slot = now_slot;
        if idx as usize >= MAX_ACCOUNTS || !self.is_used(idx as usize) {
            return Err(RiskError::AccountNotFound);
        }
        self.require_no_pending_socialization()?;
        self.touch_account_full(idx, now_slot, oracle_price)?;
        self.close_settled(idx)
    }
}

} // verus!

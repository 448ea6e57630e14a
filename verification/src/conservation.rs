//! The conservation check: the vault and the uncovered losses match what is owed, up to
//! rounding.
use vstd::prelude::*;

use crate::math::{
    add_u128, div_trunc_i128, fits_i, lemma_tdiv_fits, neg_i128_to_u128, sat_add_i128, sat_i,
    sat_mul_i128, sat_sub_i128, sat_u, tdiv,
};
use crate::state::{EngineState, RiskEngine};
use crate::types::{Account, MAX_ACCOUNTS, MAX_ROUNDING_SLACK};
use crate::wide::I128;

verus! {

broadcast use crate::wide::group_wide;

impl Account {
    /// What the account would owe if funding were settled now, with every step clamped.
    pub open spec fn funding_due_clamped(self, index: int) -> int {
        let raw = sat_i(self.position_size@ * sat_i(index - self.funding_index@));
        if raw > 0 {
            sat_i(raw + 999_999) / 1_000_000
        } else {
            tdiv(raw, 1_000_000)
        }
    }

    /// The profit that the account would have if funding were settled now.
    pub open spec fn settled_pnl(self, index: int) -> int {
        if self.position_size@ == 0 {
            self.pnl@ as int
        } else {
            sat_i(self.pnl@ - self.funding_due_clamped(index))
        }
    }
}

impl EngineState {
    /// Capital of the first `n` slots, clamped at each step.
    pub open spec fn capital_to(self, n: int) -> int
        decreases n,
    {
        if n <= 0 {
            0
        } else if self.used[n - 1] {
            sat_u(self.capital_to(n - 1) + self.accounts[n - 1].capital@)
        } else {
            self.capital_to(n - 1)
        }
    }

    /// Settled profit of the first `n` slots, clamped at each step.
    pub open spec fn settled_to(self, n: int) -> int
        decreases n,
    {
        if n <= 0 {
            0
        } else if self.used[n - 1] {
            sat_i(
                self.settled_to(n - 1) + self.accounts[n - 1].settled_pnl(
                    self.funding_index_qpb_e6@ as int,
                ),
            )
        } else {
            self.settled_to(n - 1)
        }
    }

    /// Mark profit of the first `n` slots, clamped at each step; nothing where one of them
    /// cannot be computed.
    pub open spec fn mark_to(self, n: int, oracle: u64) -> Option<int>
        decreases n,
    {
        if n <= 0 {
            Some(0)
        } else if self.used[n - 1] {
            match (self.mark_to(n - 1, oracle), self.accounts[n - 1].mark(oracle as int)) {
                (Some(t), Some(m)) => Some(sat_i(t + m)),
                _ => None,
            }
        } else {
            self.mark_to(n - 1, oracle)
        }
    }

    /// What is owed when the mark profits come to `mark`: capital, insurance and profits.
    pub open spec fn owed(self, mark: int) -> int {
        let pnl = sat_i(self.settled_to(MAX_ACCOUNTS as int) + mark);
        let base = sat_u(self.capital_to(MAX_ACCOUNTS as int) + self.insurance_fund.balance@);
        sat_u(base + pnl)
    }

    /// What there is: the vault, and losses that left it uncovered.
    pub open spec fn held(self) -> int {
        sat_u(self.vault@ + self.loss_accum@)
    }

    /// Whether there is at least what is owed, and hardly more.
    pub open spec fn is_conserved(self, oracle: u64) -> bool {
        match self.mark_to(MAX_ACCOUNTS as int, oracle) {
            Some(m) => self.owed(m) <= self.held() <= self.owed(m) + MAX_ROUNDING_SLACK,
            None => false,
        }
    }
}

impl Account {
    /// Mark profit of the account.
    fn mark_at(&self, oracle_price: u64) -> (r: Option<i128>)
        ensures
            match self.mark(oracle_price as int) {
                Some(m) => r == Some(m as i128) && fits_i(m),
                None => r is None,
            },
    {
        match RiskEngine::mark_pnl_for_position(
            self.position_size.get(),
            self.entry_price,
            oracle_price,
        ) {
            Ok(m) => Some(m),
            Err(_) => None,
        }
    }

    /// The profit that the account would have if funding were settled now.
    fn settled_pnl_at(&self, index: I128) -> (r: i128)
        ensures
            r == self.settled_pnl(index@ as int),
    {
        let pnl: i128 = self.pnl.get();
        if self.position_size.is_zero() {
            return pnl;
        }
        let delta_f: i128 = sat_sub_i128(index.get(), self.funding_index.get());
        let raw: i128 = sat_mul_i128(self.position_size.get(), delta_f);
        proof {
            lemma_tdiv_fits(raw as int, 1_000_000);
        }
        let payment: i128 = if raw > 0 {
            sat_add_i128(raw, 999_999) / 1_000_000
        } else {
            div_trunc_i128(raw, 1_000_000)
        };
        sat_sub_i128(pnl, payment)
    }
}

impl RiskEngine {
    /// Capital of all accounts.
    fn total_capital(&self) -> (r: u128)
        requires
            self.wf(),
        ensures
            r == self@.capital_to(MAX_ACCOUNTS as int),
    {
        let mut total: u128 = 0;
        let mut idx: usize = 0;
        while idx < MAX_ACCOUNTS
            invariant
                self.wf(),
                idx <= MAX_ACCOUNTS,
                total == self@.capital_to(idx as int),
            decreases MAX_ACCOUNTS - idx,
        {
            if self.is_used(idx) {
                total = add_u128(total, self.accounts[idx].capital.get());
            }
            idx += 1;
        }
        total
    }

    /// Profit of all accounts, with funding settled.
    fn net_settled_pnl(&self) -> (r: i128)
        requires
            self.wf(),
        ensures
            r == self@.settled_to(MAX_ACCOUNTS as int),
    {
        let mut net: i128 = 0;
        let mut idx: usize = 0;
        while idx < MAX_ACCOUNTS
            invariant
                self.wf(),
                idx <= MAX_ACCOUNTS,
                net == self@.settled_to(idx as int),
            decreases MAX_ACCOUNTS - idx,
        {
            if self.is_used(idx) {
                let settled: i128 = self.accounts[idx].settled_pnl_at(self.funding_index_qpb_e6);
                net = sat_add_i128(net, settled);
            }
            idx += 1;
        }
        net
    }

    /// Mark profit of all accounts; nothing where one of them cannot be computed.
    fn net_mark_pnl(&self, oracle_price: u64) -> (r: Option<i128>)
        requires
            self.wf(),
        ensures
            match self@.mark_to(MAX_ACCOUNTS as int, oracle_price) {
                Some(m) => r == Some(m as i128) && fits_i(m),
                None => r is None,
            },
    {
        let mut net: Option<i128> = Some(0);
        let mut idx: usize = 0;
        while idx < MAX_ACCOUNTS
            invariant
                self.wf(),
                idx <= MAX_ACCOUNTS,
                match self@.mark_to(idx as int, oracle_price) {
                    Some(m) => net == Some(m as i128) && fits_i(m),
                    None => net is None,
                },
            decreases MAX_ACCOUNTS - idx,
        {
            if self.is_used(idx) {
                let account: &Account = &self.accounts[idx];
                let mark: Option<i128> = account.mark_at(oracle_price);
                net = match (net, mark) {
                    (Some(t), Some(m)) => Some(sat_add_i128(t, m)),
                    _ => None,
                };
            }
            idx += 1;
        }
        net
    }

    /// Whether vault and uncovered losses hold at least what is owed to accounts and the
    /// insurance fund, and exceed it by no more than rounding explains.
    pub fn check_conservation(&self, oracle_price: u64) -> (r: bool)
        requires
            self.wf(),
        ensures
            r == self@.is_conserved(oracle_price),
    {
        let net_mark: i128 = match self.net_mark_pnl(oracle_price) {
            Some(m) => m,
            None => {
                return false;
            },
        };
        let total_pnl: i128 = sat_add_i128(self.net_settled_pnl(), net_mark);
        let base: u128 = add_u128(self.total_capital(), self.insurance_fund.balance.get());
        let expected: u128 = if total_pnl >= 0 {
            add_u128(base, total_pnl as u128)
        } else {
            base.saturating_sub(neg_i128_to_u128(total_pnl))
        };
        let actual: u128 = add_u128(self.vault.get(), self.loss_accum.get());
        if actual < expected {
            return false;
        }
        let slack: u128 = actual - expected;
        slack <= MAX_ROUNDING_SLACK
    }
}

} // verus!

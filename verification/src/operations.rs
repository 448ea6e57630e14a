//! The operations of the engine, as steps from one state to the next.
use vstd::prelude::*;

use crate::adl::Exempt;
use crate::state::EngineState;
use crate::types::{AccountKind, RiskError, TradeExecution};

verus! {

/// An operation with its arguments. What the matching engine answers to a trade is an argument
/// too.
pub enum Operation {
    Open { kind: AccountKind, program: [u8; 32], context: [u8; 32], payment: u128 },
    Deposit { idx: u16, amount: u128, now: u64 },
    Withdraw { idx: u16, amount: u128, now: u64, oracle: u64 },
    Close { idx: u16, now: u64, oracle: u64 },
    PrepayFees { idx: u16, amount: u128, now: u64 },
    TopUp { amount: u128 },
    AccrueFunding { now: u64, price: u64, rate: i64 },
    Settle { idx: u16, now: u64, oracle: u64 },
    SettleWarmup { idx: u16 },
    Deleverage { loss: u128 },
    Trade {
        lp: u16,
        user: u16,
        now: u64,
        oracle: u64,
        size: i128,
        answer: Result<TradeExecution, RiskError>,
    },
    Liquidate { idx: u16, now: u64, oracle: u64 },
    Crank { caller: u16, now: u64, oracle: u64, rate: i64, allow_panic: bool },
    PanicSettle { oracle: u64 },
    ForceRealize { oracle: u64 },
}

impl EngineState {
    /// The state after an operation, whether it succeeds or fails.
    #[verifier::opaque]
    pub open spec fn after(self, op: Operation) -> EngineState {
        match op {
            Operation::Open { kind, program, context, payment } => self.add_account(
                kind,
                program,
                context,
                payment,
            ).0,
            Operation::Deposit { idx, amount, now } => self.deposit(idx as int, amount, now).0,
            Operation::Withdraw { idx, amount, now, oracle } => self.withdraw(
                idx as int,
                amount,
                now,
                oracle,
            ).0,
            Operation::Close { idx, now, oracle } => self.close_account(idx as int, now, oracle).0,
            Operation::PrepayFees { idx, amount, now } => self.deposit_fee_credits(
                idx as int,
                amount,
                now,
            ).0,
            Operation::TopUp { amount } => self.top_up_insurance_fund(amount as int),
            Operation::AccrueFunding { now, price, rate } => self.accrue_funding(
                now,
                price,
                rate,
            ).0,
            Operation::Settle { idx, now, oracle } => self.touch_account_full(
                idx as int,
                now,
                oracle,
            ).0,
            Operation::SettleWarmup { idx } => self.settle_warmup_to_capital(idx as int).0,
            Operation::Deleverage { loss } => self.deleverage(loss as int, Exempt::Nobody).0,
            Operation::Trade { lp, user, now, oracle, size, answer } => self.execute_trade(
                lp as int,
                user as int,
                now,
                oracle,
                size,
                answer,
            ).0,
            Operation::Liquidate { idx, now, oracle } => self.liquidate_at_oracle(
                idx as int,
                now,
                oracle,
            ).0,
            Operation::Crank { caller, now, oracle, rate, allow_panic } => self.keeper_crank(
                caller as int,
                now,
                oracle,
                rate,
                allow_panic,
            ).0,
            Operation::PanicSettle { oracle } => self.panic_settle_all(oracle).0,
            Operation::ForceRealize { oracle } => self.force_realize_losses(oracle).0,
        }
    }

    /// The state after a list of operations.
    pub open spec fn after_all(self, ops: Seq<Operation>) -> EngineState
        decreases ops.len(),
    {
        if ops.len() == 0 {
            self
        } else {
            self.after_all(ops.drop_last()).after(ops.last())
        }
    }
}

} // verus!

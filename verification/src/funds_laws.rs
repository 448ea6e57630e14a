//! Conservation of funds, over the operations of the engine taken together.
use vstd::prelude::*;

use crate::close_laws::law_liquidation_conserves;
use crate::conservation_laws::{
    law_check_bounds_surplus, law_closing_conserves, law_deposit_conserves,
    law_fee_credits_conserve, law_full_settlement_conserves, law_opening_conserves,
    law_top_up_conserves, law_warmup_conserves, law_withdrawal_conserves,
};
use crate::operations::Operation;
use crate::settle_laws::law_trade_conserves;
use crate::state::EngineState;

verus! {

impl EngineState {
    /// An operation works at the price `oracle`, clamps nothing, and is one of those that leave
    /// the surplus as it is. The others move it, as their own laws say.
    pub open spec fn conserves_exactly(self, op: Operation, oracle: u64) -> bool {
        match op {
            Operation::Open { kind, program, context, payment } => {
                &&& self.add_account(kind, program, context, payment).1 is Ok
                &&& self.vault@ + payment <= u128::MAX
                &&& self.insurance_fund.balance@ + self.params.new_account_fee@ <= u128::MAX
            },
            Operation::Deposit { idx, amount, now } => self.is_used(idx as int)
                ==> self.deposit_exact(idx as int, amount, now),
            Operation::Withdraw { idx, amount, now, oracle: price } => {
                &&& price == oracle
                &&& self.is_used(idx as int) ==> self.at_slot(now).touch_full_exact(
                    idx as int,
                    now,
                    oracle,
                )
                &&& amount <= self.vault@
            },
            Operation::Close { idx, now, oracle: price } => {
                &&& price == oracle
                &&& self.is_used(idx as int) ==> self.at_slot(now).touch_full_exact(
                    idx as int,
                    now,
                    oracle,
                )
            },
            Operation::PrepayFees { idx, amount, now } => {
                &&& self.vault@ + amount <= u128::MAX
                &&& self.insurance_fund.balance@ + amount <= u128::MAX
            },
            Operation::TopUp { amount } => {
                &&& self.vault@ + amount <= u128::MAX
                &&& self.insurance_fund.balance@ + amount <= u128::MAX
            },
            Operation::Settle { idx, now, oracle: price } => {
                &&& price == oracle
                &&& self.is_used(idx as int) ==> self.touch_full_exact(idx as int, now, oracle)
            },
            Operation::SettleWarmup { idx } => self.is_used(idx as int) ==> self.warmup_exact(
                idx as int,
            ),
            Operation::Trade { lp, user, now, oracle: price, size, answer } => {
                &&& price == oracle
                &&& self.check_trade(lp as int, user as int, now, oracle, size) is Ok
                    && answer is Ok ==> self.at_slot(now).trade_exact(
                    lp as int,
                    user as int,
                    now,
                    oracle,
                    answer->Ok_0,
                )
            },
            Operation::Liquidate { idx, now, oracle: price } => {
                &&& price == oracle
                &&& self.is_used(idx as int) ==> self.liquidation_exact(idx as int, now, oracle)
                &&& self.liquidate_at_oracle(idx as int, now, oracle).1 is Ok
            },
            _ => false,
        }
    }
}

/// Operations at the oracle price conserve funds.
pub proof fn law_operations_conserve(s: EngineState, op: Operation, oracle: u64)
    requires
        s.wf(),
        s.conserves_exactly(op, oracle),
    ensures
        s.after(op).surplus(oracle) == s.surplus(oracle),
{
    let t = s.after(op);
    match op {
        Operation::Open { kind, program, context, payment } => {
            law_opening_conserves(s, kind, program, context, payment, oracle);
            assert(t == s.add_account(kind, program, context, payment).0) by {
                reveal(EngineState::after);
            }
        },
        Operation::Deposit { idx, amount, now } => {
            law_deposit_conserves(s, idx as int, amount, now, oracle);
            assert(t == s.deposit(idx as int, amount, now).0) by {
                reveal(EngineState::after);
            }
        },
        Operation::Withdraw { idx, amount, now, oracle: price } => {
            law_withdrawal_conserves(s, idx as int, amount, now, oracle);
            assert(t == s.withdraw(idx as int, amount, now, oracle).0) by {
                reveal(EngineState::after);
            }
        },
        Operation::Close { idx, now, oracle: price } => {
            law_closing_conserves(s, idx as int, now, oracle);
            assert(t == s.close_account(idx as int, now, oracle).0) by {
                reveal(EngineState::after);
            }
        },
        Operation::PrepayFees { idx, amount, now } => {
            law_fee_credits_conserve(s, idx as int, amount, now, oracle);
            assert(t == s.deposit_fee_credits(idx as int, amount, now).0) by {
                reveal(EngineState::after);
            }
        },
        Operation::TopUp { amount } => {
            law_top_up_conserves(s, amount, oracle);
            assert(t == s.top_up_insurance_fund(amount as int)) by {
                reveal(EngineState::after);
            }
        },
        Operation::Settle { idx, now, oracle: price } => {
            law_full_settlement_conserves(s, idx as int, now, oracle);
            assert(t == s.touch_account_full(idx as int, now, oracle).0) by {
                reveal(EngineState::after);
            }
        },
        Operation::SettleWarmup { idx } => {
            law_warmup_conserves(s, idx as int, oracle);
            assert(t == s.settle_warmup_to_capital(idx as int).0) by {
                reveal(EngineState::after);
            }
        },
        Operation::Trade { lp, user, now, oracle: price, size, answer } => {
            law_trade_conserves(s, lp as int, user as int, now, oracle, size, answer);
            assert(t == s.execute_trade(
                lp as int,
                user as int,
                now,
                oracle,
                size,
                answer,
            ).0) by {
                reveal(EngineState::after);
            }
        },
        Operation::Liquidate { idx, now, oracle: price } => {
            law_liquidation_conserves(s, idx as int, now, oracle);
            assert(t == s.liquidate_at_oracle(idx as int, now, oracle).0) by {
                reveal(EngineState::after);
            }
        },
        _ => {},
    }
}

/// The conservation check passes after an operation at the oracle price if and only if it
/// passed before.
pub proof fn law_operations_keep_check(s: EngineState, op: Operation, oracle: u64)
    requires
        s.wf(),
        s.conserves_exactly(op, oracle),
        s.check_exact(oracle),
        s.after(op).check_exact(oracle),
    ensures
        s.after(op).is_conserved(oracle) == s.is_conserved(oracle),
{
    law_operations_conserve(s, op, oracle);
    law_check_bounds_surplus(s, oracle);
    law_check_bounds_surplus(s.after(op), oracle);
}

} // verus!

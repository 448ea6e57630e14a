//! What the insurance fund may spend, what replenishes it, and when risk is only reduced.
use vstd::prelude::*;

use crate::state::EngineState;

verus! {

broadcast use crate::wide::group_wide;

/// The insurance that may be spent is what exceeds the floor and the reserve together; what
/// exceeds the floor alone is its upper bound.
pub proof fn law_floor_and_reserve_are_not_spent(s: EngineState)
    ensures
        ({
            let balance = s.insurance_fund.balance@ as int;
            let floor = s.params.risk_reduction_threshold@ as int;
            let reserve = s.warmup_insurance_reserved@ as int;
            &&& balance > floor ==> s.spendable_raw() == balance - floor
            &&& balance <= floor ==> s.spendable_raw() == 0
            &&& balance > floor + reserve ==> s.spendable_unreserved() == balance - floor - reserve
            &&& balance <= floor + reserve ==> s.spendable_unreserved() == 0
        }),
{
}

/// Profit may be converted as far as the losses paid and the insurance that may be spent exceed
/// the profit already converted.
pub proof fn law_budget_is_what_backs_profit(s: EngineState)
    requires
        s.warmed_neg_total@ + s.insurance_fund.balance@ <= u128::MAX,
    ensures
        ({
            let backing = s.warmed_neg_total@ + s.spendable_unreserved();
            &&& backing >= s.warmed_pos_total@ ==> s.warmup_budget() == backing
                - s.warmed_pos_total@
            &&& backing < s.warmed_pos_total@ ==> s.warmup_budget() == 0
        }),
{
}

/// The reserve is the converted profit that no paid loss covers, as far as insurance above the
/// floor goes; setting it changes nothing else.
pub proof fn law_reserve_backs_converted_profit(s: EngineState)
    ensures
        ({
            let t = s.with_reserve();
            let open = s.warmed_pos_total@ - s.warmed_neg_total@;
            let above = s.insurance_fund.balance@ - s.params.risk_reduction_threshold@;
            let reserve = t.warmup_insurance_reserved@;
            &&& open <= 0 || above <= 0 ==> reserve == 0
            &&& 0 < open <= above ==> reserve == open
            &&& 0 < above < open ==> reserve == above
            &&& t == (EngineState { warmup_insurance_reserved: t.warmup_insurance_reserved, ..s })
        }),
{
}

/// A top-up goes to the vault in full. It makes good uncovered losses first, and the insurance
/// fund has the rest. It is no fee revenue, and no account changes.
pub proof fn law_top_up_covers_losses_first(s: EngineState, amount: u128)
    requires
        s.vault@ + amount <= u128::MAX,
        s.insurance_fund.balance@ + amount <= u128::MAX,
    ensures
        ({
            let t = s.top_up_insurance_fund(amount as int);
            &&& t.vault@ == s.vault@ + amount
            &&& amount <= s.loss_accum@ ==> t.loss_accum@ == s.loss_accum@ - amount
                && t.insurance_fund.balance == s.insurance_fund.balance
            &&& amount > s.loss_accum@ ==> t.loss_accum@ == 0 && t.insurance_fund.balance@
                == s.insurance_fund.balance@ + amount - s.loss_accum@
            &&& t.insurance_fund.fee_revenue == s.insurance_fund.fee_revenue
            &&& t.accounts == s.accounts
        }),
{
}

/// Risk-reduction-only mode ends with a top-up exactly where no loss is left uncovered and the
/// insurance is at its floor or above; warmups go on then. Otherwise it stays as it is.
pub proof fn law_top_up_ends_mode_if_safe(s: EngineState, amount: u128)
    requires
        s.insurance_fund.balance@ + amount <= u128::MAX,
    ensures
        ({
            let t = s.top_up_insurance_fund(amount as int);
            let safe = t.loss_accum@ == 0 && t.insurance_fund.balance@
                >= s.params.risk_reduction_threshold@;
            &&& safe ==> !t.risk_reduction_only && !t.warmup_paused
                && t.risk_reduction_mode_withdrawn@ == 0
            &&& !safe ==> t.risk_reduction_only == s.risk_reduction_only && t.warmup_paused
                == s.warmup_paused && t.warmup_pause_slot == s.warmup_pause_slot
                && t.risk_reduction_mode_withdrawn == s.risk_reduction_mode_withdrawn
        }),
{
}

/// Entering the mode blocks risk, and freezes warmups where they stand: at the present slot, or
/// where they were frozen before.
pub proof fn law_mode_freezes_where_warmups_stand(s: EngineState)
    ensures
        ({
            let t = s.in_risk_reduction();
            &&& t.risk_reduction_only
            &&& t.warmup_paused
            &&& !s.warmup_paused ==> t.warmup_pause_slot == s.current_slot
            &&& s.warmup_paused ==> t.warmup_pause_slot == s.warmup_pause_slot
            &&& t.effective_slot() == s.effective_slot()
            &&& t == (EngineState {
                risk_reduction_only: t.risk_reduction_only,
                warmup_paused: t.warmup_paused,
                warmup_pause_slot: t.warmup_pause_slot,
                ..s
            })
        }),
{
}

/// Warmup has come as far as the present slot; frozen, no further than where it was frozen.
pub proof fn law_warmup_clock(s: EngineState)
    ensures
        !s.warmup_paused ==> s.effective_slot() == s.current_slot,
        s.warmup_paused && s.warmup_pause_slot <= s.current_slot ==> s.effective_slot()
            == s.warmup_pause_slot,
        s.warmup_paused && s.warmup_pause_slot > s.current_slot ==> s.effective_slot()
            == s.current_slot,
{
}

/// Something is pending exactly while profit waits to be funded or a loss to be socialized; the
/// floor is reached where the insurance does not exceed it.
pub proof fn law_what_is_pending(s: EngineState)
    ensures
        s.has_pending() <==> s.pending_profit_to_fund@ > 0 || s.pending_unpaid_loss@ > 0,
        s.at_floor() <==> s.insurance_fund.balance@ <= s.params.risk_reduction_threshold@,
{
}

} // verus!

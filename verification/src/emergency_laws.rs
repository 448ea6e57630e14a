//! What a settlement of all positions at once makes of each account.
use vstd::prelude::*;

use crate::adl::Exempt;
use crate::closing_laws::{lemma_close_gain, loss_from_capital, slice_gain};
use crate::liquidation_laws::in_bounds;
use crate::math::{sat_i, sat_u};
use crate::rounding::{magnitude, rounded_to_zero};
use crate::state::EngineState;
use crate::types::{Account, RiskError, MAX_ACCOUNTS};

verus! {

broadcast use crate::wide::group_wide;

/// Account `k` once funding is settled.
pub open spec fn funded(s: EngineState, k: int) -> Account {
    s.touch_account(k).0.accounts[k]
}

/// Whether `gained` is what the position of `a` has gained at the oracle price, in whole units.
pub open spec fn gained_by(a: Account, oracle: u64, gained: int) -> bool {
    rounded_to_zero(
        gained,
        slice_gain(a, magnitude(a.position_size@ as int), oracle as int),
        1_000_000,
    )
}

/// The same slots are taken, funding stands where it stood, and no account but that in slot `i`
/// has changed.
spec fn beside(s: EngineState, t: EngineState, i: int) -> bool {
    &&& t.wf()
    &&& t.used == s.used
    &&& t.funding_index_qpb_e6 == s.funding_index_qpb_e6
    &&& forall|j: int| 0 <= j < MAX_ACCOUNTS && j != i ==> #[trigger] t.accounts[j] == s.accounts[j]
}

/// What account `a` is left with when its position is closed and its loss dropped.
pub open spec fn flattened(a: Account, b: Account, oracle: u64) -> bool {
    &&& a.position_size@ == 0 ==> b == a
    &&& a.position_size@ != 0 ==> {
        &&& b.position_size@ == 0
        &&& b.entry_price == oracle
        &&& b.capital == a.capital
        &&& b.pnl@ >= 0
        &&& exists|gained: int|
            #[trigger] gained_by(a, oracle, gained) && b.pnl@ == if a.pnl@ + gained > 0 {
                a.pnl@ + gained
            } else {
                0
            }
    }
}

/// What account `a` is left with when its position is closed and a loss is paid from capital.
pub open spec fn realized(a: Account, b: Account, oracle: u64) -> bool {
    &&& a.position_size@ == 0 ==> b == a
    &&& a.position_size@ != 0 ==> {
        &&& b.position_size@ == 0
        &&& b.entry_price == oracle
        &&& exists|gained: int, unpaid: int| #[trigger]
            gained_by(a, oracle, gained) && #[trigger] loss_from_capital(a, b, gained, unpaid)
    }
}

proof fn lemma_panic_step(s: EngineState, i: int, oracle: u64)
    requires
        s.wf(),
        s.is_used(i),
        s.touch_account(i).1 is Ok,
    ensures
        beside(s, s.touch_account(i).0.panic_close(i, oracle).0, i),
        beside(s, s.touch_account(i).0.force_close(i, oracle).0, i),
{
}

proof fn lemma_panic_account(s: EngineState, i: int, oracle: u64)
    requires
        s.wf(),
        s.is_used(i),
        in_bounds(s.accounts[i], oracle as int),
    ensures
        flattened(s.accounts[i], s.panic_close(i, oracle).0.accounts[i], oracle),
        realized(s.accounts[i], s.force_close(i, oracle).0.accounts[i], oracle),
{
    let a = s.accounts[i];
    if a.position_size@ != 0 {
        let n = magnitude(a.position_size@ as int);
        lemma_close_gain(a, n, oracle);
        let gained = a.close_pnl(n, oracle);
        assert(gained_by(a, oracle, gained));
        let b = s.force_close(i, oracle).0.accounts[i];
        let unpaid = s.force_close(i, oracle).1.1.unpaid_loss as int;
        assert(loss_from_capital(a, b, gained, unpaid));
    }
}

proof fn lemma_panic_each(s: EngineState, i: int, oracle: u64, loss: int, mark: int, k: int)
    requires
        s.wf(),
        0 <= i <= MAX_ACCOUNTS,
        s.is_used(k),
        s.panic_close_from(i, oracle, loss, mark).1 is Ok,
        k >= i ==> in_bounds(funded(s, k), oracle as int),
    ensures
        ({
            let b = s.panic_close_from(i, oracle, loss, mark).0.accounts[k];
            &&& k < i ==> b == s.accounts[k]
            &&& k >= i ==> flattened(funded(s, k), b, oracle)
        }),
    decreases MAX_ACCOUNTS - i,
{
    if i < MAX_ACCOUNTS {
        if !s.is_used(i) {
            lemma_panic_each(s, i + 1, oracle, loss, mark, k);
        } else {
            lemma_panic_step(s, i, oracle);
            let s1 = s.touch_account(i).0;
            let (s2, l, m) = s1.panic_close(i, oracle);
            if k == i {
                lemma_panic_account(s1, i, oracle);
            } else {
                assert(s2.accounts[k] == s.accounts[k]);
                assert(funded(s2, k) == funded(s, k));
            }
            lemma_panic_each(s2, i + 1, oracle, sat_u(loss + l), sat_i(mark + m), k);
        }
    }
}

proof fn lemma_realize_each(s: EngineState, i: int, oracle: u64, loss: int, mark: int, k: int)
    requires
        s.wf(),
        0 <= i <= MAX_ACCOUNTS,
        s.is_used(k),
        s.force_close_from(i, oracle, loss, mark).1 is Ok,
        k >= i ==> in_bounds(funded(s, k), oracle as int),
    ensures
        ({
            let b = s.force_close_from(i, oracle, loss, mark).0.accounts[k];
            &&& k < i ==> b == s.accounts[k]
            &&& k >= i ==> realized(funded(s, k), b, oracle)
        }),
    decreases MAX_ACCOUNTS - i,
{
    if i < MAX_ACCOUNTS {
        if !s.is_used(i) {
            lemma_realize_each(s, i + 1, oracle, loss, mark, k);
        } else {
            lemma_panic_step(s, i, oracle);
            let s1 = s.touch_account(i).0;
            let (s2, (m, d)) = s1.force_close(i, oracle);
            if k == i {
                lemma_panic_account(s1, i, oracle);
            } else {
                assert(s2.accounts[k] == s.accounts[k]);
                assert(funded(s2, k) == funded(s, k));
            }
            lemma_realize_each(
                s2,
                i + 1,
                oracle,
                sat_u(loss + d.unpaid_loss),
                sat_i(mark + m),
                k,
            );
        }
    }
}

/// In an emergency settlement every account is settled for funding and closed at the oracle
/// price before anything is shared: its profit changes by what the position gained, and a loss
/// is dropped from it, to be shared.
pub proof fn law_emergency_closes_each_account(s: EngineState, oracle: u64, k: int)
    requires
        s.wf(),
        s.is_used(k),
        s.panic_close_from(0, oracle, 0, 0).1 is Ok,
        in_bounds(funded(s, k), oracle as int),
    ensures
        flattened(
            funded(s, k),
            s.panic_close_from(0, oracle, 0, 0).0.accounts[k],
            oracle,
        ),
{
    lemma_panic_each(s, 0, oracle, 0, 0, k);
}

/// In a forced realization of losses every account is settled for funding and closed at the
/// oracle price before anything is shared, and pays its loss from its capital.
pub proof fn law_forced_realization_closes_each_account(s: EngineState, oracle: u64, k: int)
    requires
        s.wf(),
        s.is_used(k),
        s.force_close_from(0, oracle, 0, 0).1 is Ok,
        in_bounds(funded(s, k), oracle as int),
    ensures
        realized(
            funded(s, k),
            s.force_close_from(0, oracle, 0, 0).0.accounts[k],
            oracle,
        ),
{
    lemma_realize_each(s, 0, oracle, 0, 0, k);
}

/// Both settlements refuse a price that is none or beyond a billion, and the second is for
/// insurance at its floor only. A refusal changes nothing.
pub proof fn law_settlement_of_all_is_refused(s: EngineState, oracle: u64)
    ensures
        ({
            let bad = oracle == 0 || oracle > 1_000_000_000_000_000;
            let above = s.insurance_fund.balance@ > s.params.risk_reduction_threshold@;
            &&& bad ==> s.panic_settle_all(oracle) == (s, Err::<(), RiskError>(RiskError::Overflow))
            &&& bad ==> s.force_realize_losses(oracle) == (
                s,
                Err::<(), RiskError>(RiskError::Overflow),
            )
            &&& !bad && above ==> s.force_realize_losses(oracle) == (
                s,
                Err::<(), RiskError>(RiskError::Unauthorized),
            )
        }),
{
}

/// An emergency settlement, and a forced realization of losses, once begun leave only risk to
/// be reduced, and the first forgets what was pending.
pub proof fn law_settlement_of_all_reduces_risk(s: EngineState, oracle: u64)
    requires
        s.wf(),
        0 < oracle <= 1_000_000_000_000_000,
    ensures
        s.panic_settle_all(oracle).1 is Ok ==> {
            let t = s.panic_settle_all(oracle).0;
            &&& t.risk_reduction_only
            &&& t.warmup_paused
            &&& t.pending_profit_to_fund@ == 0
            &&& t.pending_unpaid_loss@ == 0
            &&& t.vault == s.vault
            &&& t.lp_max_abs@ == 0
        },
        s.force_realize_losses(oracle).1 is Ok ==> {
            let t = s.force_realize_losses(oracle).0;
            &&& t.risk_reduction_only
            &&& t.warmup_paused
            &&& t.pending_profit_to_fund == s.pending_profit_to_fund
            &&& t.pending_unpaid_loss == s.pending_unpaid_loss
            &&& t.vault == s.vault
            &&& t.lp_max_abs@ == 0
        },
{
    lemma_panic_mode(s.panic_begun(), 0, oracle, 0, 0);
    lemma_realize_mode(s.in_risk_reduction(), 0, oracle, 0, 0);
    let (s1, r) = s.panic_begun().panic_close_from(0, oracle, 0, 0);
    if let Ok((loss, mark)) = r {
        let total = sat_u(
            loss + if mark > 0 {
                mark as int
            } else {
                0
            },
        );
        let s2 = s1.with_lp_totals_reset().deleverage(total, Exempt::Nobody).0;
        assert(same_mode(s1.with_lp_totals_reset(), s2));
        lemma_warmup_mode(s2, 0);
    }
}

/// Mode, pending amounts, vault and the bound on the positions of liquidity providers are the
/// same in both states.
spec fn same_mode(s: EngineState, t: EngineState) -> bool {
    &&& s.risk_reduction_only ==> t.risk_reduction_only
    &&& s.warmup_paused ==> t.warmup_paused
    &&& t.pending_profit_to_fund == s.pending_profit_to_fund
    &&& t.pending_unpaid_loss == s.pending_unpaid_loss
    &&& t.vault == s.vault
    &&& t.lp_max_abs == s.lp_max_abs
}

proof fn lemma_panic_mode(s: EngineState, i: int, oracle: u64, loss: int, mark: int)
    requires
        0 <= i,
    ensures
        same_mode(s, s.panic_close_from(i, oracle, loss, mark).0),
    decreases MAX_ACCOUNTS - i,
{
    if i < MAX_ACCOUNTS {
        if !s.is_used(i) {
            lemma_panic_mode(s, i + 1, oracle, loss, mark);
        } else {
            let s1 = s.touch_account(i).0;
            let (s2, l, m) = s1.panic_close(i, oracle);
            assert(same_mode(s, s1) && same_mode(s1, s2));
            lemma_panic_mode(s2, i + 1, oracle, sat_u(loss + l), sat_i(mark + m));
        }
    }
}

proof fn lemma_realize_mode(s: EngineState, i: int, oracle: u64, loss: int, mark: int)
    requires
        0 <= i,
    ensures
        same_mode(s, s.force_close_from(i, oracle, loss, mark).0),
    decreases MAX_ACCOUNTS - i,
{
    if i < MAX_ACCOUNTS {
        if !s.is_used(i) {
            lemma_realize_mode(s, i + 1, oracle, loss, mark);
        } else {
            let s1 = s.touch_account(i).0;
            let (s2, (m, d)) = s1.force_close(i, oracle);
            assert(same_mode(s, s1) && same_mode(s1, s2));
            lemma_realize_mode(s2, i + 1, oracle, sat_u(loss + d.unpaid_loss), sat_i(mark + m));
        }
    }
}

proof fn lemma_warmup_mode(s: EngineState, i: int)
    requires
        0 <= i,
    ensures
        same_mode(s, s.settle_warmup_from(i).0),
    decreases MAX_ACCOUNTS - i,
{
    if i < MAX_ACCOUNTS {
        if !s.is_used(i) {
            lemma_warmup_mode(s, i + 1);
        } else {
            let s1 = s.settle_warmup_to_capital(i).0;
            assert(same_mode(s, s1));
            lemma_warmup_mode(s1, i + 1);
        }
    }
}

} // verus!

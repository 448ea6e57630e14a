//! What passing over a stretch of slots makes of the accounts in it.
use vstd::prelude::*;

use crate::adl::Exempt;
use crate::adl_laws::{law_adl_spares_exempt, law_adl_takes_only_profit};
use crate::course_laws::{
    lemma_close_on_course, lemma_force_on_course, lemma_realize_on_course, lemma_sweep_on_course,
    lemma_touch_on_course, on_course, taken_from,
};
use crate::dust_laws::slots_after;
use crate::keeper_laws::{law_pending_is_taken_off_young_profit, young_at};
use crate::liquidation_laws::{
    covers, in_bounds, law_uncovered_account_is_liquidated, nearer_zero,
};
use crate::state::EngineState;
use crate::types::{DeferredAdl, RiskError, MAX_ACCOUNTS};

verus! {

broadcast use crate::wide::group_wide;

/// Settled at the oracle price, account `k` does not cover its maintenance margin.
pub open spec fn underwater(s: EngineState, k: int, now: u64, oracle: u64) -> bool {
    let (s1, r) = s.at_slot(now).touch_account_for_liquidation(k, now, oracle);
    &&& r is Ok
    &&& in_bounds(s1.accounts[k], oracle as int)
    &&& !covers(s1.accounts[k], oracle as int, s.params.maintenance_margin_bps as int)
}

proof fn lemma_underwater_is_local(s: EngineState, t: EngineState, k: int, now: u64, oracle: u64)
    requires
        s.wf(),
        t.wf(),
        s.is_used(k),
        t.is_used(k),
        s.accounts[k] == t.accounts[k],
        s.params == t.params,
        s.funding_index_qpb_e6 == t.funding_index_qpb_e6,
    ensures
        underwater(s, k, now, oracle) == underwater(t, k, now, oracle),
{
}

/// The slot after `i`, going round.
pub open spec fn slot_after(i: int) -> int {
    if i == 4095 {
        0
    } else {
        i + 1
    }
}

// Liquidation of a stretch

#[verifier::opaque]
spec fn stretch(
    s: EngineState,
    i: int,
    len: int,
    now: u64,
    oracle: u64,
    most: int,
    n: (int, int, int),
) -> (EngineState, (int, int, int)) {
    s.liquidate_window(i, len, now, oracle, most, n)
}

#[verifier::opaque]
spec fn checked(s: EngineState, i: int, now: u64, oracle: u64) -> (EngineState, int, int) {
    let (s1, l, e) = s.sweep_liquidate(i, now, oracle, s.pending_epoch);
    (s1.sweep_hopeless(i, oracle), l, e)
}

proof fn lemma_stretch_step(
    s: EngineState,
    i: int,
    len: int,
    now: u64,
    oracle: u64,
    most: int,
    n: (int, int, int),
)
    requires
        0 <= i < MAX_ACCOUNTS,
    ensures
        len <= 0 || n.1 >= most ==> stretch(s, i, len, now, oracle, most, n) == (s, n),
        len > 0 && n.1 < most ==> stretch(s, i, len, now, oracle, most, n) == if s.used[i] {
            let (s1, l, e) = checked(s, i, now, oracle);
            stretch(
                s1,
                slot_after(i),
                len - 1,
                now,
                oracle,
                most,
                (n.0 + 1, n.1 + l, n.2 + e),
            )
        } else {
            stretch(s, slot_after(i), len - 1, now, oracle, most, n)
        },
{
    reveal(stretch);
    reveal(checked);
}

proof fn lemma_checked(s: EngineState, i: int, now: u64, oracle: u64)
    requires
        s.wf(),
        s.is_used(i),
    ensures
        on_course(s, checked(s, i, now, oracle).0, i),
        0 <= checked(s, i, now, oracle).1 <= 1,
{
    reveal(checked);
    lemma_sweep_on_course(s, i, now, oracle, s.pending_epoch);
    let s1 = s.sweep_liquidate(i, now, oracle, s.pending_epoch).0;
    lemma_force_on_course(s1, i, oracle);
}

proof fn lemma_checked_shrinks(s: EngineState, k: int, now: u64, oracle: u64)
    requires
        s.wf(),
        s.is_used(k),
        s.accounts[k].position_size@ != 0,
        0 < oracle,
        s.params.maintenance_margin_bps <= 1_000_000_000,
        underwater(s, k, now, oracle),
    ensures
        nearer_zero(
            checked(s, k, now, oracle).0.accounts[k].position_size@ as int,
            s.accounts[k].position_size@ as int,
        ),
        checked(s, k, now, oracle).1 == 1,
{
    reveal(checked);
    law_uncovered_account_is_liquidated(s, k, now, oracle);
    lemma_sweep_on_course(s, k, now, oracle, s.pending_epoch);
    let s1 = s.sweep_liquidate(k, now, oracle, s.pending_epoch).0;
    assert(s1.accounts[k] == s.liquidate_deferred(k, now, oracle).0.accounts[k]);
    lemma_force_on_course(s1, k, oracle);
}

proof fn lemma_stretch_leaves(
    s: EngineState,
    i: int,
    len: int,
    now: u64,
    oracle: u64,
    most: int,
    n: (int, int, int),
    k: int,
)
    requires
        s.wf(),
        0 <= i < MAX_ACCOUNTS,
        0 <= k < MAX_ACCOUNTS,
    ensures
        ({
            let (t, m) = stretch(s, i, len, now, oracle, most, n);
            &&& t.wf()
            &&& t.used == s.used
            &&& m.1 >= n.1
            &&& m.1 < most && len >= 0 ==> m.0 == n.0 + taken_from(s.used, i, len)
            &&& slots_after(i, k) >= len ==> t.accounts[k] == s.accounts[k]
        }),
    decreases len,
{
    lemma_stretch_step(s, i, len, now, oracle, most, n);
    if len > 0 && n.1 < most {
        if s.used[i] {
            lemma_checked(s, i, now, oracle);
            let (s1, l, e) = checked(s, i, now, oracle);
            lemma_stretch_leaves(
                s1,
                slot_after(i),
                len - 1,
                now,
                oracle,
                most,
                (n.0 + 1, n.1 + l, n.2 + e),
                k,
            );
        } else {
            lemma_stretch_leaves(s, slot_after(i), len - 1, now, oracle, most, n, k);
        }
    }
}

proof fn lemma_stretch_shrinks(
    s: EngineState,
    i: int,
    len: int,
    now: u64,
    oracle: u64,
    most: int,
    n: (int, int, int),
    k: int,
)
    requires
        s.wf(),
        s.is_used(k),
        s.accounts[k].position_size@ != 0,
        0 < oracle,
        s.params.maintenance_margin_bps <= 1_000_000_000,
        underwater(s, k, now, oracle),
        0 <= i < MAX_ACCOUNTS,
        slots_after(i, k) < len <= 4096,
        stretch(s, i, len, now, oracle, most, n).1.1 < most,
    ensures
        nearer_zero(
            stretch(s, i, len, now, oracle, most, n).0.accounts[k].position_size@ as int,
            s.accounts[k].position_size@ as int,
        ),
    decreases len,
{
    lemma_stretch_step(s, i, len, now, oracle, most, n);
    lemma_stretch_leaves(s, i, len, now, oracle, most, n, k);
    if s.used[i] {
        lemma_checked(s, i, now, oracle);
        let (s1, l, e) = checked(s, i, now, oracle);
        let m = (n.0 + 1, n.1 + l, n.2 + e);
        if k == i {
            lemma_checked_shrinks(s, k, now, oracle);
            lemma_stretch_leaves(s1, slot_after(i), len - 1, now, oracle, most, m, k);
        } else {
            lemma_underwater_is_local(s, s1, k, now, oracle);
            lemma_stretch_shrinks(s1, slot_after(i), len - 1, now, oracle, most, m, k);
        }
    } else {
        lemma_stretch_shrinks(s, slot_after(i), len - 1, now, oracle, most, n, k);
    }
}

/// A stretch of slots liquidated: whoever in it does not cover the maintenance margin has a
/// smaller position afterwards, unless as many were liquidated as may be; accounts beyond it
/// are left alone, and every account in it is counted as checked.
pub proof fn law_stretch_is_liquidated(
    s: EngineState,
    start: int,
    len: int,
    now: u64,
    oracle: u64,
    most: int,
    k: int,
)
    requires
        s.wf(),
        s.is_used(k),
        0 <= start < MAX_ACCOUNTS,
        0 <= len <= 4096,
        0 < oracle,
        s.params.maintenance_margin_bps <= 1_000_000_000,
    ensures
        ({
            let (t, n) = s.liquidate_window(start, len, now, oracle, most, (0, 0, 0));
            let within = slots_after(start, k) < len;
            &&& !within ==> t.accounts[k] == s.accounts[k]
            &&& n.1 < most ==> n.0 == taken_from(s.used, start, len)
            &&& within && n.1 < most && s.accounts[k].position_size@ != 0 && underwater(
                s,
                k,
                now,
                oracle,
            ) ==> nearer_zero(
                t.accounts[k].position_size@ as int,
                s.accounts[k].position_size@ as int,
            )
        }),
{
    reveal(stretch);
    lemma_stretch_leaves(s, start, len, now, oracle, most, (0, 0, 0), k);
    let (t, n) = stretch(s, start, len, now, oracle, most, (0, 0, 0));
    if slots_after(start, k) < len && n.1 < most && s.accounts[k].position_size@ != 0
        && underwater(s, k, now, oracle) {
        lemma_stretch_shrinks(s, start, len, now, oracle, most, (0, 0, 0), k);
    }
}

// Socialization over a stretch

proof fn lemma_socialized_stretch(
    s: EngineState,
    i: int,
    len: int,
    slot: u64,
    epoch: u16,
    k: int,
)
    requires
        s.wf(),
        0 <= i < MAX_ACCOUNTS,
        s.is_used(k),
        len <= 4096,
    ensures
        ({
            let t = s.socialize_window(i, len, slot, epoch);
            let within = slots_after(i, k) < len;
            let young = young_at(t.accounts[k], slot);
            &&& t.wf()
            &&& t.pending_exclude_epoch == s.pending_exclude_epoch
            &&& t.pending_profit_to_fund@ <= s.pending_profit_to_fund@
            &&& t.pending_unpaid_loss@ <= s.pending_unpaid_loss@
            &&& !within ==> t.accounts[k] == s.accounts[k]
            &&& within && t.pending_unpaid_loss@ > 0 ==> young == 0
            &&& within && t.pending_profit_to_fund@ > 0 && s.pending_exclude_epoch[k] != epoch
                ==> young == 0
        }),
    decreases len,
{
    if len > 0 && s.has_pending() {
        let next = slot_after(i);
        if s.is_used(i) {
            law_pending_is_taken_off_young_profit(s, i, slot, epoch);
            let s1 = s.sweep_socialize(i, slot, epoch);
            lemma_socialized_stretch(s1, next, len - 1, slot, epoch, k);
        } else {
            lemma_socialized_stretch(s, next, len - 1, slot, epoch, k);
        }
    }
}

/// After a stretch of slots was socialized, whatever is still pending found no young profit
/// left in it: none at all for an unpaid loss, and none but of exempt accounts for a profit to
/// be funded. Accounts beyond the stretch are left alone.
pub proof fn law_stretch_is_socialized(
    s: EngineState,
    start: int,
    len: int,
    slot: u64,
    epoch: u16,
    k: int,
)
    requires
        s.wf(),
        0 <= start < MAX_ACCOUNTS,
        s.is_used(k),
        0 <= len <= 4096,
    ensures
        ({
            let t = s.socialize_window(start, len, slot, epoch);
            let within = slots_after(start, k) < len;
            let young = young_at(t.accounts[k], slot);
            &&& !within ==> t.accounts[k] == s.accounts[k]
            &&& within && t.pending_unpaid_loss@ > 0 ==> young == 0
            &&& within && t.pending_profit_to_fund@ > 0 && s.pending_exclude_epoch[k] != epoch
                ==> young == 0
        }),
{
    lemma_socialized_stretch(s, start, len, slot, epoch, k);
}

// Forced closes over a stretch

/// Account `k` can be settled for a forced close.
pub open spec fn settles(s: EngineState, k: int, now: u64, oracle: u64) -> bool {
    s.touch_account_for_force_realize(k, now, oracle).1 is Ok
}

proof fn lemma_realized_account(s: EngineState, k: int, now: u64, oracle: u64)
    requires
        s.wf(),
        s.is_used(k),
        settles(s, k, now, oracle),
    ensures
        s.sweep_force_realize(k, now, oracle).0.accounts[k].position_size@ == 0,
        0 <= s.sweep_force_realize(k, now, oracle).1 <= 1,
{
}

proof fn lemma_forced_stretch(
    s: EngineState,
    i: int,
    len: int,
    now: u64,
    oracle: u64,
    closed: int,
    errors: int,
    k: int,
)
    requires
        s.wf(),
        0 <= i < MAX_ACCOUNTS,
        s.is_used(k),
        len <= 4096,
    ensures
        ({
            let (t, c, e) = s.force_realize_window(i, len, now, oracle, closed, errors);
            let within = slots_after(i, k) < len;
            &&& t.wf()
            &&& c >= closed
            &&& !within ==> t.accounts[k] == s.accounts[k]
            &&& within && c < 32 && settles(s, k, now, oracle)
                ==> t.accounts[k].position_size@ == 0
        }),
    decreases len,
{
    if len > 0 && closed < 32 {
        let next = slot_after(i);
        if s.is_used(i) {
            lemma_realize_on_course(s, i, now, oracle);
            let (s1, c, e) = s.sweep_force_realize(i, now, oracle);
            if i == k {
                if settles(s, k, now, oracle) {
                    lemma_realized_account(s, k, now, oracle);
                }
            } else {
                assert(settles(s1, k, now, oracle) == settles(s, k, now, oracle));
            }
            lemma_forced_stretch(s1, next, len - 1, now, oracle, closed + c, errors + e, k);
        } else {
            lemma_forced_stretch(s, next, len - 1, now, oracle, closed, errors, k);
        }
    }
}

/// A stretch of slots closed by force: whoever in it can be settled has no position
/// afterwards, unless 32 were closed; and accounts beyond it are left alone.
pub proof fn law_stretch_is_closed(
    s: EngineState,
    start: int,
    len: int,
    now: u64,
    oracle: u64,
    k: int,
)
    requires
        s.wf(),
        0 <= start < MAX_ACCOUNTS,
        s.is_used(k),
        0 <= len <= 4096,
    ensures
        ({
            let (t, closed, failed) = s.force_realize_window(start, len, now, oracle, 0, 0);
            let within = slots_after(start, k) < len;
            &&& !within ==> t.accounts[k] == s.accounts[k]
            &&& within && closed < 32 && settles(s, k, now, oracle)
                ==> t.accounts[k].position_size@ == 0
        }),
{
    lemma_forced_stretch(s, start, len, now, oracle, 0, 0, k);
}

// Liquidation of all

/// From `s` to `t` no position but that in slot `i` has changed, and no account without profit
/// has but that in slot `i`.
spec fn others_kept(s: EngineState, t: EngineState, i: int) -> bool {
    &&& t.wf()
    &&& t.used == s.used
    &&& t.params == s.params
    &&& t.funding_index_qpb_e6 == s.funding_index_qpb_e6
    &&& forall|j: int|
        0 <= j < MAX_ACCOUNTS && j != i ==> (#[trigger] t.accounts[j]).position_size
            == s.accounts[j].position_size && (s.accounts[j].pnl@ <= 0 ==> t.accounts[j]
            == s.accounts[j])
}

proof fn lemma_shared_loss_keeps(s: EngineState, loss: int, e: Exempt)
    requires
        s.wf(),
        loss >= 0,
    ensures
        ({
            let t = s.deleverage(loss, e).0;
            &&& t.wf()
            &&& t.used == s.used
            &&& t.params == s.params
            &&& t.funding_index_qpb_e6 == s.funding_index_qpb_e6
            &&& forall|j: int|
                0 <= j < MAX_ACCOUNTS ==> (#[trigger] t.accounts[j]).position_size
                    == s.accounts[j].position_size && (s.accounts[j].pnl@ <= 0 ==> t.accounts[j]
                    == s.accounts[j])
        }),
{
    law_adl_takes_only_profit(s, loss, e);
    let t = s.deleverage(loss, e).0;
    assert forall|j: int| 0 <= j < MAX_ACCOUNTS implies (
    #[trigger] t.accounts[j]).position_size == s.accounts[j].position_size && (
    s.accounts[j].pnl@ <= 0 ==> t.accounts[j] == s.accounts[j]) by {
        if s.accounts[j].pnl@ <= 0 {
            law_adl_spares_exempt(s, loss, e, j);
        }
    }
}

proof fn lemma_settling_keeps_others(s: EngineState, i: int, now: u64, oracle: u64)
    requires
        s.wf(),
        s.is_used(i),
    ensures
        on_course(s, s.liquidate_settling(i, now, oracle).0, i),
{
    lemma_touch_on_course(s, i, now, oracle);
    let s1 = s.touch_account_for_liquidation(i, now, oracle).0;
    lemma_close_on_course(s1, i, oracle);
}

proof fn lemma_fee_keeps_others(s: EngineState, i: int, size: int, oracle: u64)
    requires
        s.wf(),
        s.is_used(i),
    ensures
        others_kept(s, s.with_liquidation_fee(i, size, oracle), i),
{
}

/// What follows the close of a liquidation.
#[verifier::opaque]
spec fn shared(s: EngineState, i: int, size: int, d: DeferredAdl, oracle: u64) -> EngineState {
    match s.deleverage(d.profit_to_fund as int, Exempt::One(i as usize)) {
        (s2, Err(_)) => s2,
        (s2, Ok(_)) => match s2.deleverage(d.unpaid_loss as int, Exempt::Nobody) {
            (s3, Err(_)) => s3,
            (s3, Ok(_)) => s3.with_liquidation_fee(i, size, oracle),
        },
    }
}

proof fn lemma_shared_keeps_others(
    s: EngineState,
    i: int,
    size: int,
    d: DeferredAdl,
    oracle: u64,
)
    requires
        s.wf(),
        s.is_used(i),
    ensures
        others_kept(s, shared(s, i, size, d, oracle), i),
{
    reveal(shared);
    lemma_shared_loss_keeps(s, d.profit_to_fund as int, Exempt::One(i as usize));
    let s2 = s.deleverage(d.profit_to_fund as int, Exempt::One(i as usize)).0;
    lemma_shared_loss_keeps(s2, d.unpaid_loss as int, Exempt::Nobody);
    let s3 = s2.deleverage(d.unpaid_loss as int, Exempt::Nobody).0;
    lemma_fee_keeps_others(s3, i, size, oracle);
    let t = s3.with_liquidation_fee(i, size, oracle);
    assert forall|j: int| 0 <= j < MAX_ACCOUNTS && j != i implies (
    #[trigger] t.accounts[j]).position_size == s.accounts[j].position_size && (
    s.accounts[j].pnl@ <= 0 ==> t.accounts[j] == s.accounts[j]) by {
        assert(s3.accounts[j].position_size == s2.accounts[j].position_size);
        assert(s2.accounts[j].position_size == s.accounts[j].position_size);
    }
}

proof fn lemma_liquidation_outcome(s: EngineState, i: int, now: u64, oracle: u64)
    requires
        s.is_used(i),
    ensures
        ({
            let s0 = s.at_slot(now);
            let (s1, r) = s0.liquidate_settling(i, now, oracle);
            let t = s.liquidate_at_oracle(i, now, oracle).0;
            ||| t == s0
            ||| t == s1
            ||| r matches Ok(Some((size, d))) && t == shared(s1, i, size as int, d, oracle)
        }),
{
    reveal(shared);
}

proof fn lemma_liquidation_keeps_others(s: EngineState, i: int, now: u64, oracle: u64)
    requires
        s.wf(),
        s.is_used(i),
    ensures
        others_kept(s, s.liquidate_at_oracle(i, now, oracle).0, i),
{
    let s0 = s.at_slot(now);
    lemma_settling_keeps_others(s0, i, now, oracle);
    let (s1, r) = s0.liquidate_settling(i, now, oracle);
    lemma_liquidation_outcome(s, i, now, oracle);
    if let Ok(Some((size, d))) = r {
        lemma_shared_keeps_others(s1, i, size as int, d, oracle);
    }
}

#[verifier::opaque]
spec fn scan(s: EngineState, i: int, now: u64, oracle: u64, n: int) -> (EngineState, int) {
    s.liquidate_from(i, now, oracle, n)
}

#[verifier::opaque]
spec fn tried(s: EngineState, i: int, now: u64, oracle: u64) -> (
    EngineState,
    Result<bool, RiskError>,
) {
    s.liquidate_at_oracle(i, now, oracle)
}

proof fn lemma_scan_step(s: EngineState, i: int, now: u64, oracle: u64, n: int)
    ensures
        i >= 4096 ==> scan(s, i, now, oracle, n) == (s, n),
        0 <= i < 4096 && !s.used[i] ==> scan(s, i, now, oracle, n) == scan(
            s,
            i + 1,
            now,
            oracle,
            n,
        ),
        0 <= i < 4096 && s.used[i] ==> {
            let (t, r) = tried(s, i, now, oracle);
            scan(s, i, now, oracle, n) == scan(
                t,
                i + 1,
                now,
                oracle,
                if r == Ok::<bool, RiskError>(true) {
                    n + 1
                } else {
                    n
                },
            )
        },
{
    reveal(scan);
    reveal(tried);
}

proof fn lemma_tried(s: EngineState, i: int, now: u64, oracle: u64)
    requires
        s.wf(),
        s.is_used(i),
    ensures
        others_kept(s, tried(s, i, now, oracle).0, i),
{
    reveal(tried);
    lemma_liquidation_keeps_others(s, i, now, oracle);
}

proof fn lemma_scan_shrinks(s: EngineState, i: int, now: u64, oracle: u64, n: int, k: int)
    requires
        s.wf(),
        s.is_used(k),
        0 <= i <= 4096,
        0 < oracle,
        s.params.maintenance_margin_bps <= 1_000_000_000,
        k >= i ==> s.accounts[k].position_size@ != 0 && s.accounts[k].pnl@ <= 0 && underwater(
            s,
            k,
            now,
            oracle,
        ),
    ensures
        ({
            let t = scan(s, i, now, oracle, n).0;
            let p = s.accounts[k].position_size@ as int;
            let q = t.accounts[k].position_size@ as int;
            &&& k < i ==> q == p
            &&& k >= i ==> nearer_zero(q, p)
        }),
    decreases 4096 - i,
{
    lemma_scan_step(s, i, now, oracle, n);
    if i < 4096 {
        if !s.used[i] {
            lemma_scan_shrinks(s, i + 1, now, oracle, n, k);
        } else {
            lemma_tried(s, i, now, oracle);
            let (t, r) = tried(s, i, now, oracle);
            let m = if r == Ok::<bool, RiskError>(true) {
                n + 1
            } else {
                n
            };
            if k == i {
                reveal(tried);
                law_uncovered_account_is_liquidated(s, k, now, oracle);
            } else if k > i {
                lemma_underwater_is_local(s, t, k, now, oracle);
            }
            lemma_scan_shrinks(t, i + 1, now, oracle, m, k);
        }
    }
}

/// A scan of all slots shrinks the position of every account that does not cover its
/// maintenance margin and has no profit that others could take meanwhile, in whatever slot.
pub proof fn law_scan_liquidates_all(s: EngineState, now: u64, oracle: u64, k: int)
    requires
        s.wf(),
        s.is_used(k),
        0 < oracle,
        s.params.maintenance_margin_bps <= 1_000_000_000,
        s.accounts[k].position_size@ != 0,
        s.accounts[k].pnl@ <= 0,
        underwater(s, k, now, oracle),
    ensures
        nearer_zero(
            s.liquidate_from(0, now, oracle, 0).0.accounts[k].position_size@ as int,
            s.accounts[k].position_size@ as int,
        ),
{
    reveal(scan);
    lemma_scan_shrinks(s, 0, now, oracle, 0, k);
}

} // verus!

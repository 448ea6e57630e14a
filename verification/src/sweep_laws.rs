//! What holds of cranks as a whole: the work they do is bounded, they reach every account, and
//! they collect only what holds nothing.
use vstd::prelude::*;
use vstd::set_lib::{lemma_int_range, lemma_len_subset, set_int_range};

use crate::adl::Exempt;
use crate::adl_laws::{
    law_adl_spares_exempt, law_adl_spares_matured_profit, law_adl_takes_only_profit,
};
use crate::crank::{CrankContext, Tally};
use crate::dust::distance;
use crate::isolation_laws::{lemma_fees_frame, lemma_forced_touch_frame};
use crate::math::sat_u;
use crate::position_laws::{
    law_deferred_liquidation_is_isolated, law_forced_close_is_isolated,
};
use crate::state::{count_set, EngineState};
use crate::sweep::next_slot;
use crate::types::{
    Account, AccountKind, ACCOUNTS_PER_CRANK, FORCE_REALIZE_BUDGET_PER_CRANK, GC_CLOSE_BUDGET,
    LIQ_BUDGET_PER_CRANK, MAX_ACCOUNTS,
};

verus! {

broadcast use crate::wide::group_wide;

impl Tally {
    /// The budgets of a crank are kept.
    pub open spec fn within_budget(self) -> bool {
        self.liquidations <= LIQ_BUDGET_PER_CRANK && self.force_closes
            <= FORCE_REALIZE_BUDGET_PER_CRANK
    }
}

/// A sweep keeps to the budgets of liquidations and forced closes.
pub proof fn law_sweep_keeps_budget(
    s: EngineState,
    i: int,
    scanned: int,
    processed: int,
    c: CrankContext,
    t: Tally,
)
    requires
        t.within_budget(),
    ensures
        s.swept(i, scanned, processed, c, t).2.within_budget(),
    decreases MAX_ACCOUNTS - scanned,
{
    if processed < ACCOUNTS_PER_CRANK && scanned < MAX_ACCOUNTS {
        let (s1, u) = if s.is_used(i) {
            s.visited(i, c, t)
        } else {
            (s, t)
        };
        let n = if s.is_used(i) {
            processed + 1
        } else {
            processed
        };
        lemma_visit_keeps_budget(s, i, c, t);
        law_sweep_keeps_budget(s1, next_slot(i), scanned + 1, n, c, u);
    }
}

proof fn lemma_visit_keeps_budget(s: EngineState, i: int, c: CrankContext, t: Tally)
    requires
        t.within_budget(),
    ensures
        s.visited(i, c, t).1.within_budget(),
{
}

/// The indices of the flags that are set among the first `n`.
spec fn set_below(flags: Seq<bool>, n: int) -> Set<int> {
    set_int_range(0, n).filter(|i: int| flags[i])
}

proof fn lemma_count_is_len(flags: Seq<bool>)
    ensures
        set_below(flags, flags.len() as int).finite(),
        set_below(flags, flags.len() as int).len() == count_set(flags),
    decreases flags.len(),
{
    let n = flags.len() as int;
    lemma_int_range(0, n);
    let all = set_below(flags, n);
    if n > 0 {
        let shorter = flags.drop_last();
        lemma_count_is_len(shorter);
        let rest = set_below(shorter, n - 1);
        if flags.last() {
            assert(all =~= rest.insert(n - 1));
        } else {
            assert(all =~= rest);
        }
    } else {
        assert(all =~= Set::empty());
    }
}

/// The same slots are taken, and the sweep began at the same one.
spec fn same_sweep(s: EngineState, t: EngineState) -> bool {
    t.used == s.used && t.sweep_start_idx == s.sweep_start_idx
}

proof fn lemma_liquidate_keeps_sweep(
    s: EngineState,
    idx: int,
    now: u64,
    oracle: u64,
    epoch: u16,
)
    requires
        s.wf(),
        s.is_used(idx),
    ensures
        s.sweep_liquidate(idx, now, oracle, epoch).0.wf(),
        same_sweep(s, s.sweep_liquidate(idx, now, oracle, epoch).0),
{
    law_deferred_liquidation_is_isolated(s, idx, now, oracle);
}

proof fn lemma_hopeless_keeps_sweep(s: EngineState, idx: int, oracle: u64)
    requires
        s.wf(),
        s.is_used(idx),
    ensures
        s.sweep_hopeless(idx, oracle).wf(),
        same_sweep(s, s.sweep_hopeless(idx, oracle)),
{
    law_forced_close_is_isolated(s, idx, oracle);
}

proof fn lemma_force_realize_keeps_sweep(s: EngineState, idx: int, now: u64, oracle: u64)
    requires
        s.wf(),
        s.is_used(idx),
    ensures
        s.sweep_force_realize(idx, now, oracle).0.wf(),
        same_sweep(s, s.sweep_force_realize(idx, now, oracle).0),
{
    lemma_forced_touch_frame(s, idx, now, oracle);
    let s1 = s.touch_account_for_force_realize(idx, now, oracle).0;
    law_forced_close_is_isolated(s1, idx, oracle);
}

/// A visit takes and frees no slot, and leaves the start of the sweep where it is.
proof fn lemma_visit_keeps_sweep(s: EngineState, idx: int, c: CrankContext, t: Tally)
    requires
        s.wf(),
        s.is_used(idx),
    ensures
        s.visited(idx, c, t).0.wf(),
        same_sweep(s, s.visited(idx, c, t).0),
{
    let now = c.now_slot;
    let oracle = c.oracle_price;
    lemma_fees_frame(s, idx, now, oracle);
    let s1 = s.with_fees_charged(idx, now);
    if !c.force_realize && t.liquidations < LIQ_BUDGET_PER_CRANK {
        lemma_liquidate_keeps_sweep(s1, idx, now, oracle, c.epoch);
        let s2 = s1.sweep_liquidate(idx, now, oracle, c.epoch).0;
        lemma_hopeless_keeps_sweep(s2, idx, oracle);
    } else if c.force_realize && t.force_closes < FORCE_REALIZE_BUDGET_PER_CRANK {
        lemma_force_realize_keeps_sweep(s1.in_risk_reduction(), idx, now, oracle);
    }
}

/// The used slots among the first `n` from `start` on.
spec fn window(used: Seq<bool>, start: int, n: int) -> Set<int> {
    set_int_range(0, MAX_ACCOUNTS as int).filter(|i: int| used[i] && distance(start, i) < n)
}

proof fn lemma_window_next(used: Seq<bool>, start: int, n: int, i: int)
    requires
        used.len() == MAX_ACCOUNTS,
        0 <= start < MAX_ACCOUNTS,
        0 <= n < MAX_ACCOUNTS,
        i == (start + n) % (MAX_ACCOUNTS as int),
    ensures
        window(used, start, n).finite(),
        window(used, start, n + 1).finite(),
        window(used, start, n + 1).len() == window(used, start, n).len() + if used[i] {
            1int
        } else {
            0
        },
        next_slot(i) == (start + n + 1) % (MAX_ACCOUNTS as int),
{
    lemma_int_range(0, MAX_ACCOUNTS as int);
    let w = window(used, start, n);
    let v = window(used, start, n + 1);
    assert(distance(start, i) == n);
    assert forall|j: int| 0 <= j < MAX_ACCOUNTS && distance(start, j) == n implies j == i by {}
    if used[i] {
        assert(v =~= w.insert(i));
        assert(!w.contains(i));
    } else {
        assert(v =~= w);
    }
}

proof fn lemma_window_bounded(used: Seq<bool>, start: int, n: int)
    requires
        used.len() == MAX_ACCOUNTS,
    ensures
        window(used, start, n).len() <= count_set(used),
{
    lemma_int_range(0, MAX_ACCOUNTS as int);
    lemma_count_is_len(used);
    lemma_len_subset(window(used, start, n), set_below(used, MAX_ACCOUNTS as int));
}

/// One slot visited, if it is taken.
#[verifier::opaque]
spec fn stepped(s: EngineState, i: int, c: CrankContext, t: Tally) -> (EngineState, Tally) {
    if s.is_used(i) {
        s.visited(i, c, t)
    } else {
        (s, t)
    }
}

/// Whether the visits of a crank complete the sweep.
spec fn completes(
    s: EngineState,
    i: int,
    scanned: int,
    processed: int,
    c: CrankContext,
    t: Tally,
) -> bool
    decreases MAX_ACCOUNTS - scanned,
{
    if processed >= ACCOUNTS_PER_CRANK || scanned >= MAX_ACCOUNTS {
        false
    } else {
        let (s1, u) = stepped(s, i, c, t);
        next_slot(i) == s1.sweep_start_idx || completes(
            s1,
            next_slot(i),
            scanned + 1,
            if s.is_used(i) {
                processed + 1
            } else {
                processed
            },
            c,
            u,
        )
    }
}

proof fn lemma_completes(
    s: EngineState,
    i: int,
    scanned: int,
    processed: int,
    c: CrankContext,
    t: Tally,
)
    ensures
        s.swept(i, scanned, processed, c, t).3 == completes(s, i, scanned, processed, c, t),
    decreases MAX_ACCOUNTS - scanned,
{
    if processed < ACCOUNTS_PER_CRANK && scanned < MAX_ACCOUNTS {
        reveal(stepped);
        let (s1, u) = stepped(s, i, c, t);
        let n = if s.is_used(i) {
            processed + 1
        } else {
            processed
        };
        lemma_completes(s1, next_slot(i), scanned + 1, n, c, u);
    }
}

proof fn lemma_step_keeps_sweep(s: EngineState, i: int, c: CrankContext, t: Tally)
    requires
        s.wf(),
    ensures
        stepped(s, i, c, t).0.wf(),
        same_sweep(s, stepped(s, i, c, t).0),
{
    reveal(stepped);
    if s.is_used(i) {
        lemma_visit_keeps_sweep(s, i, c, t);
    }
}

proof fn lemma_sweep_completes(
    s: EngineState,
    i: int,
    scanned: int,
    processed: int,
    c: CrankContext,
    t: Tally,
)
    requires
        s.wf(),
        s.sweep_start_idx < MAX_ACCOUNTS,
        0 <= scanned < MAX_ACCOUNTS,
        i == (s.sweep_start_idx + scanned) % (MAX_ACCOUNTS as int),
        processed == window(s.used, s.sweep_start_idx as int, scanned).len(),
        count_set(s.used) < ACCOUNTS_PER_CRANK,
    ensures
        completes(s, i, scanned, processed, c, t),
    decreases MAX_ACCOUNTS - scanned,
{
    let start = s.sweep_start_idx as int;
    lemma_window_bounded(s.used, start, scanned);
    lemma_window_next(s.used, start, scanned, i);
    lemma_step_keeps_sweep(s, i, c, t);
    let (s1, u) = stepped(s, i, c, t);
    if next_slot(i) != start {
        assert(scanned + 1 < MAX_ACCOUNTS);
        let n = if s.is_used(i) {
            processed + 1
        } else {
            processed
        };
        lemma_sweep_completes(s1, next_slot(i), scanned + 1, n, c, u);
    }
}

/// With fewer accounts than a crank may process, a crank that begins a sweep completes it.
pub proof fn law_one_crank_covers_all(s: EngineState, now: u64, oracle: u64)
    requires
        s.wf(),
        s.crank_cursor == s.sweep_start_idx,
        s.num_used_accounts < ACCOUNTS_PER_CRANK,
    ensures
        s.crank_run(now, oracle).3,
{
    let c = s.crank_context(now, oracle);
    let none = Tally { liquidations: 0, liq_errors: 0, force_closes: 0, force_errors: 0 };
    let start = s.sweep_start_idx as int;
    lemma_int_range(0, MAX_ACCOUNTS as int);
    assert(window(s.used, start, 0) =~= Set::empty());
    lemma_sweep_completes(s, start, 0, 0, c, none);
    lemma_completes(s, start, 0, 0, c, none);
}

/// Dust collection frees at most its budget.
pub proof fn law_dust_collection_keeps_budget(s: EngineState)
    ensures
        s.garbage_collect_dust().1 <= GC_CLOSE_BUDGET,
{
    lemma_scan_keeps_budget(
        s,
        s.gc_cursor as int % (MAX_ACCOUNTS as int),
        ACCOUNTS_PER_CRANK as int,
        Seq::empty(),
        0,
    );
}

proof fn lemma_scan_keeps_budget(s: EngineState, i: int, left: int, found: Seq<u16>, loss: int)
    requires
        found.len() <= GC_CLOSE_BUDGET,
    ensures
        s.dust_scan(i, left, found, loss).1.len() <= GC_CLOSE_BUDGET,
    decreases left,
{
    if left > 0 && found.len() < GC_CLOSE_BUDGET {
        let more = if s.collectable(i) {
            found.push(i as u16)
        } else {
            found
        };
        lemma_scan_keeps_budget(
            s.dust_examined(i),
            next_slot(i),
            left - 1,
            more,
            sat_u(loss + s.dust_loss(i)),
        );
    }
}

proof fn lemma_examined_keeps_lp(s: EngineState, i: int)
    requires
        s.wf(),
        0 <= i < MAX_ACCOUNTS,
    ensures
        s.dust_examined(i).wf(),
        s.dust_examined(i).used == s.used,
        forall|j: int|
            0 <= j < MAX_ACCOUNTS ==> (#[trigger] s.dust_examined(i).accounts[j]).kind
                == s.accounts[j].kind && (s.accounts[j].kind == AccountKind::LP
                ==> s.dust_examined(i).accounts[j] == s.accounts[j]),
{
    lemma_fees_frame(s, i, s.current_slot, 0);
}

proof fn lemma_scan_lists_no_lp(
    s: EngineState,
    i: int,
    left: int,
    found: Seq<u16>,
    loss: int,
    lp: int,
)
    requires
        s.wf(),
        0 <= i < MAX_ACCOUNTS,
        s.is_used(lp),
        s.accounts[lp].kind == AccountKind::LP,
        forall|j: int|
            0 <= j < found.len() ==> (#[trigger] found[j]) as int != lp && found[j] < MAX_ACCOUNTS,
    ensures
        ({
            let (t, list, _) = s.dust_scan(i, left, found, loss);
            &&& t.wf()
            &&& t.used == s.used
            &&& t.accounts[lp] == s.accounts[lp]
            &&& forall|j: int|
                0 <= j < list.len() ==> (#[trigger] list[j]) as int != lp && list[j]
                    < MAX_ACCOUNTS
        }),
    decreases left,
{
    if left > 0 && found.len() < GC_CLOSE_BUDGET {
        lemma_examined_keeps_lp(s, i);
        assert(s.dust_examined(i).accounts[lp] == s.accounts[lp]);
        let more = if s.collectable(i) {
            found.push(i as u16)
        } else {
            found
        };
        lemma_scan_lists_no_lp(
            s.dust_examined(i),
            next_slot(i),
            left - 1,
            more,
            sat_u(loss + s.dust_loss(i)),
            lp,
        );
    }
}

proof fn lemma_free_all_spares(s: EngineState, list: Seq<u16>, k: int, lp: int)
    requires
        0 <= k,
        0 <= lp < MAX_ACCOUNTS,
        s.used.len() == MAX_ACCOUNTS,
        s.accounts.len() == MAX_ACCOUNTS,
        forall|j: int|
            0 <= j < list.len() ==> (#[trigger] list[j]) as int != lp && list[j] < MAX_ACCOUNTS,
    ensures
        s.free_all(list, k).used[lp] == s.used[lp],
        s.free_all(list, k).accounts[lp] == s.accounts[lp],
    decreases list.len() - k,
{
    if k < list.len() {
        let t = s.free_slot(list[k] as int);
        assert(list[k] < MAX_ACCOUNTS);
        lemma_free_all_spares(t, list, k + 1, lp);
    }
}

/// Vault and pending amounts are the same in both states.
pub open spec fn same_vault_and_pending(s: EngineState, t: EngineState) -> bool {
    &&& t.vault == s.vault
    &&& t.pending_profit_to_fund == s.pending_profit_to_fund
    &&& t.pending_unpaid_loss == s.pending_unpaid_loss
}

proof fn lemma_scan_leaves_pending(s: EngineState, i: int, left: int, found: Seq<u16>, loss: int)
    ensures
        same_vault_and_pending(s, s.dust_scan(i, left, found, loss).0),
    decreases left,
{
    if left > 0 && found.len() < GC_CLOSE_BUDGET {
        let more = if s.collectable(i) {
            found.push(i as u16)
        } else {
            found
        };
        lemma_scan_leaves_pending(
            s.dust_examined(i),
            next_slot(i),
            left - 1,
            more,
            sat_u(loss + s.dust_loss(i)),
        );
    }
}

proof fn lemma_free_all_leaves_pending(s: EngineState, list: Seq<u16>, k: int)
    ensures
        same_vault_and_pending(s, s.free_all(list, k)),
    decreases list.len() - k,
{
    if k < list.len() {
        lemma_free_all_leaves_pending(s.free_slot(list[k] as int), list, k + 1);
    }
}

/// Dust collection moves no tokens and adds nothing to what is pending: the losses it finds are
/// shared there and then.
pub proof fn law_dust_collection_adds_nothing_pending(s: EngineState)
    ensures
        same_vault_and_pending(s, s.garbage_collect_dust().0),
{
    let start = s.gc_cursor as int;
    let i = start % (MAX_ACCOUNTS as int);
    let none = Seq::<u16>::empty();
    lemma_scan_leaves_pending(s, i, ACCOUNTS_PER_CRANK as int, none, 0);
    let (t, list, loss) = s.dust_scan(i, ACCOUNTS_PER_CRANK as int, none, 0);
    let u = EngineState {
        gc_cursor: ((start + ACCOUNTS_PER_CRANK) % (MAX_ACCOUNTS as int)) as u16,
        ..t.with_dust_loss_shared(loss)
    };
    lemma_free_all_leaves_pending(u, list, 0);
}

/// A liquidity provider is never collected, whatever it holds. Its account is left as it is,
/// but for a share of the losses that collected accounts leave behind, taken off its profit.
pub proof fn law_lp_is_never_collected(s: EngineState, lp: int)
    requires
        s.wf(),
        s.is_used(lp),
        s.accounts[lp].kind == AccountKind::LP,
    ensures
        s.garbage_collect_dust().0.used[lp],
        ({
            let a = s.accounts[lp];
            let b = s.garbage_collect_dust().0.accounts[lp];
            &&& b == Account { pnl: b.pnl, ..a }
            &&& b.pnl@ <= a.pnl@
            &&& a.pnl@ <= 0 ==> b == a
        }),
{
    let start = s.gc_cursor as int;
    let i = start % (MAX_ACCOUNTS as int);
    let none = Seq::<u16>::empty();
    lemma_scan_lists_no_lp(s, i, ACCOUNTS_PER_CRANK as int, none, 0, lp);
    let (t, list, loss) = s.dust_scan(i, ACCOUNTS_PER_CRANK as int, none, 0);
    law_adl_takes_only_profit(t, loss, Exempt::Nobody);
    law_adl_spares_matured_profit(t, loss, Exempt::Nobody, lp);
    if t.accounts[lp].pnl@ <= 0 {
        law_adl_spares_exempt(t, loss, Exempt::Nobody, lp);
    }
    let u = EngineState {
        gc_cursor: ((start + ACCOUNTS_PER_CRANK) % (MAX_ACCOUNTS as int)) as u16,
        ..t.with_dust_loss_shared(loss)
    };
    lemma_free_all_spares(u, list, 0, lp);
}

} // verus!

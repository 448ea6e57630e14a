//! Account slots: construction of the engine, the occupancy bitmap and the free list.
use vstd::prelude::*;

use crate::state::{
    bit_at, bits_of, count_set, is_free_list, links_unused, lists_unused, slab_ok, EngineState, RiskEngine,
};
use crate::types::{empty_account, Account, InsuranceFund, RiskError, RiskParams, BITMAP_WORDS, MAX_ACCOUNTS};
use crate::wide::{I128, U128};

verus! {

/// The links of a free list that holds all slots in order.
pub open spec fn full_free_list() -> Seq<u16> {
    Seq::new(
        MAX_ACCOUNTS as nat,
        |i: int|
            if i + 1 == MAX_ACCOUNTS {
                u16::MAX
            } else {
                (i + 1) as u16
            },
    )
}

impl EngineState {
    /// A new engine: no accounts, no funds, all slots free in order.
    pub open spec fn fresh(params: RiskParams) -> EngineState {
        EngineState {
            vault: U128::of(0),
            insurance_fund: InsuranceFund { balance: U128::of(0), fee_revenue: U128::of(0) },
            params,
            current_slot: 0,
            funding_index_qpb_e6: I128::of(0),
            last_funding_slot: 0,
            loss_accum: U128::of(0),
            risk_reduction_only: false,
            risk_reduction_mode_withdrawn: U128::of(0),
            warmup_paused: false,
            warmup_pause_slot: 0,
            last_crank_slot: 0,
            max_crank_staleness_slots: params.max_crank_staleness_slots,
            total_open_interest: U128::of(0),
            warmed_pos_total: U128::of(0),
            warmed_neg_total: U128::of(0),
            warmup_insurance_reserved: U128::of(0),
            adl_exclude_scratch: Seq::new(MAX_ACCOUNTS as nat, |i: int| 0u8),
            pending_profit_to_fund: U128::of(0),
            pending_unpaid_loss: U128::of(0),
            pending_epoch: 0,
            pending_exclude_epoch: Seq::new(MAX_ACCOUNTS as nat, |i: int| 0u16),
            liq_cursor: 0,
            gc_cursor: 0,
            last_full_sweep_start_slot: 0,
            last_full_sweep_completed_slot: 0,
            crank_cursor: 0,
            sweep_start_idx: 0,
            lifetime_liquidations: 0,
            lifetime_force_realize_closes: 0,
            net_lp_pos: I128::of(0),
            lp_sum_abs: U128::of(0),
            lp_max_abs: U128::of(0),
            lp_max_abs_sweep: U128::of(0),
            used: Seq::new(MAX_ACCOUNTS as nat, |i: int| false),
            num_used_accounts: 0,
            next_account_id: 0,
            free_head: 0,
            next_free: full_free_list(),
            accounts: Seq::new(MAX_ACCOUNTS as nat, |i: int| Account::vacant()),
        }
    }

    /// Takes the first free slot, if there is one.
    pub open spec fn alloc_slot(self) -> (EngineState, Result<u16, RiskError>) {
        if self.free_head == u16::MAX {
            (self, Err(RiskError::Overflow))
        } else {
            let idx = self.free_head;
            (
                EngineState {
                    free_head: self.next_free[idx as int],
                    used: self.used.update(idx as int, true),
                    num_used_accounts: (self.num_used_accounts + 1) as u16,
                    ..self
                },
                Ok(idx),
            )
        }
    }

    /// Clears slot `idx` and puts it in front of the free list.
    pub open spec fn free_slot(self, idx: int) -> EngineState {
        EngineState {
            accounts: self.accounts.update(idx, Account::vacant()),
            used: self.used.update(idx, false),
            next_free: self.next_free.update(idx, self.free_head),
            free_head: idx as u16,
            num_used_accounts: (self.num_used_accounts - 1) as u16,
            ..self
        }
    }
}

impl RiskEngine {
    /// Creates an engine without accounts.
    pub fn new(params: RiskParams) -> (r: RiskEngine)
        ensures
            r@ == EngineState::fresh(params),
            r.wf(),
    {
        let mut engine = RiskEngine {
            vault: U128::zero(),
            insurance_fund: InsuranceFund { balance: U128::zero(), fee_revenue: U128::zero() },
            params,
            current_slot: 0,
            funding_index_qpb_e6: I128::zero(),
            last_funding_slot: 0,
            loss_accum: U128::zero(),
            risk_reduction_only: false,
            risk_reduction_mode_withdrawn: U128::zero(),
            warmup_paused: false,
            warmup_pause_slot: 0,
            last_crank_slot: 0,
            max_crank_staleness_slots: params.max_crank_staleness_slots,
            total_open_interest: U128::zero(),
            warmed_pos_total: U128::zero(),
            warmed_neg_total: U128::zero(),
            warmup_insurance_reserved: U128::zero(),
            adl_remainder_scratch: vec![U128::zero(); MAX_ACCOUNTS],
            adl_idx_scratch: vec![0; MAX_ACCOUNTS],
            adl_exclude_scratch: vec![0; MAX_ACCOUNTS],
            pending_profit_to_fund: U128::zero(),
            pending_unpaid_loss: U128::zero(),
            pending_epoch: 0,
            pending_exclude_epoch: vec![0; MAX_ACCOUNTS],
            liq_cursor: 0,
            gc_cursor: 0,
            last_full_sweep_start_slot: 0,
            last_full_sweep_completed_slot: 0,
            crank_cursor: 0,
            sweep_start_idx: 0,
            lifetime_liquidations: 0,
            lifetime_force_realize_closes: 0,
            net_lp_pos: I128::zero(),
            lp_sum_abs: U128::zero(),
            lp_max_abs: U128::zero(),
            lp_max_abs_sweep: U128::zero(),
            used: vec![0; BITMAP_WORDS],
            num_used_accounts: 0,
            next_account_id: 0,
            free_head: 0,
            next_free: vec![0; MAX_ACCOUNTS],
            accounts: vec![empty_account(); MAX_ACCOUNTS],
        };
        assert(engine@.used =~= EngineState::fresh(params).used) by {
            assert forall|i: int| 0 <= i < MAX_ACCOUNTS implies !bit_at(engine.used@, i) by {
                lemma_zero_word((i % 64) as u64);
            }
        }
        engine.link_free_list();
        proof {
            lemma_fresh_slab_ok();
        }
        engine
    }

    /// Turns a zeroed engine into a new one: sets the parameters and links the free list,
    /// and relies on everything else being zero already.
    pub fn init_in_place(&mut self, params: RiskParams)
        requires
            old(self).next_free@.len() == MAX_ACCOUNTS,
        ensures
            final(self)@ == (EngineState {
                params,
                max_crank_staleness_slots: params.max_crank_staleness_slots,
                next_free: full_free_list(),
                ..old(self)@
            }),
            final(self).used@ == old(self).used@,
            final(self).adl_remainder_scratch@ == old(self).adl_remainder_scratch@,
            final(self).adl_idx_scratch@ == old(self).adl_idx_scratch@,
    {
        self.params = params;
        self.max_crank_staleness_slots = params.max_crank_staleness_slots;
        self.link_free_list();
    }

    /// Links all slots in order.
    fn link_free_list(&mut self)
        requires
            old(self).next_free@.len() == MAX_ACCOUNTS,
        ensures
            final(self)@ == (EngineState { next_free: full_free_list(), ..old(self)@ }),
            final(self).used@ == old(self).used@,
            final(self).adl_remainder_scratch@ == old(self).adl_remainder_scratch@,
            final(self).adl_idx_scratch@ == old(self).adl_idx_scratch@,
    {
        let mut i: usize = 0;
        while i < MAX_ACCOUNTS - 1
            invariant
                i <= MAX_ACCOUNTS - 1,
                self.next_free@.len() == MAX_ACCOUNTS,
                forall|j: int| 0 <= j < i ==> self.next_free@[j] == j + 1,
                self@ == (EngineState { next_free: self.next_free@, ..old(self)@ }),
                self.used@ == old(self).used@,
                self.adl_remainder_scratch@ == old(self).adl_remainder_scratch@,
                self.adl_idx_scratch@ == old(self).adl_idx_scratch@,
            decreases MAX_ACCOUNTS - i,
        {
            self.next_free[i] = (i + 1) as u16;
            i += 1;
        }
        self.next_free[MAX_ACCOUNTS - 1] = u16::MAX;
        assert(self.next_free@ =~= full_free_list());
    }

    /// Whether slot `idx` holds an account; there is none beyond the last slot.
    pub fn is_used(&self, idx: usize) -> (r: bool)
        requires
            self.used@.len() == BITMAP_WORDS,
        ensures
            r == self@.is_used(idx as int),
    {
        if idx >= MAX_ACCOUNTS {
            return false;
        }
        proof {
            lemma_index_split(idx);
        }
        let w: usize = idx >> 6;
        let b: usize = idx & 63;
        ((self.used[w] >> (b as u64)) & 1) == 1
    }

    /// Marks slot `idx` as used.
    pub(crate) fn set_used(&mut self, idx: usize)
        requires
            idx < MAX_ACCOUNTS,
            old(self).used@.len() == BITMAP_WORDS,
        ensures
            final(self)@ == (EngineState {
                used: old(self)@.used.update(idx as int, true),
                ..old(self)@
            }),
            final(self).used@.len() == BITMAP_WORDS,
            final(self).adl_remainder_scratch@ == old(self).adl_remainder_scratch@,
            final(self).adl_idx_scratch@ == old(self).adl_idx_scratch@,
    {
        proof {
            lemma_index_split(idx);
        }
        let w: usize = idx >> 6;
        let b: usize = idx & 63;
        let word: u64 = self.used[w];
        self.used[w] = word | (1u64 << (b as u64));
        proof {
            lemma_set_bit(old(self).used@, self.used@, idx as int);
        }
    }

    /// Marks slot `idx` as free.
    pub(crate) fn clear_used(&mut self, idx: usize)
        requires
            idx < MAX_ACCOUNTS,
            old(self).used@.len() == BITMAP_WORDS,
        ensures
            final(self)@ == (EngineState {
                used: old(self)@.used.update(idx as int, false),
                ..old(self)@
            }),
            final(self).used@.len() == BITMAP_WORDS,
            final(self).adl_remainder_scratch@ == old(self).adl_remainder_scratch@,
            final(self).adl_idx_scratch@ == old(self).adl_idx_scratch@,
    {
        proof {
            lemma_index_split(idx);
        }
        let w: usize = idx >> 6;
        let b: usize = idx & 63;
        let word: u64 = self.used[w];
        self.used[w] = word & !(1u64 << (b as u64));
        proof {
            lemma_clear_bit(old(self).used@, self.used@, idx as int);
        }
    }

    /// Takes the first free slot.
    pub(crate) fn alloc_slot(&mut self) -> (r: Result<u16, RiskError>)
        requires
            old(self).wf(),
        ensures
            final(self)@ == old(self)@.alloc_slot().0,
            r == old(self)@.alloc_slot().1,
            final(self).wf(),
            r matches Ok(idx) ==> idx < MAX_ACCOUNTS && !old(self)@.used[idx as int],
    {
        if self.free_head == u16::MAX {
            return Err(RiskError::Overflow);
        }
        proof {
            lemma_alloc(self@);
        }
        let idx: u16 = self.free_head;
        self.free_head = self.next_free[idx as usize];
        self.set_used(idx as usize);
        self.num_used_accounts = self.num_used_accounts.saturating_add(1);
        Ok(idx)
    }

    /// Clears slot `idx` and returns it to the free list.
    pub(crate) fn free_slot(&mut self, idx: u16)
        requires
            old(self).wf(),
            old(self)@.is_used(idx as int),
        ensures
            final(self)@ == old(self)@.free_slot(idx as int),
            final(self).wf(),
    {
        proof {
            lemma_free(self@, idx);
        }
        self.accounts[idx as usize] = empty_account();
        self.clear_used(idx as usize);
        self.next_free[idx as usize] = self.free_head;
        self.free_head = idx;
        self.num_used_accounts = self.num_used_accounts.saturating_sub(1);
    }

    /// Counts the used slots in the bitmap.
    pub fn count_used(&self) -> (r: u64)
        requires
            self.wf(),
        ensures
            r == count_set(self@.used),
    {
        let mut count: u64 = 0;
        let mut idx: usize = 0;
        while idx < MAX_ACCOUNTS
            invariant
                self.wf(),
                idx <= MAX_ACCOUNTS,
                count <= idx,
                count == count_set(self@.used.take(idx as int)),
            decreases MAX_ACCOUNTS - idx,
        {
            assert(self@.used.take(idx + 1).drop_last() =~= self@.used.take(idx as int));
            if self.is_used(idx) {
                count += 1;
            }
            idx += 1;
        }
        assert(self@.used.take(MAX_ACCOUNTS as int) =~= self@.used);
        count
    }
}

/// A slot index splits into a word and a bit of the bitmap.
pub(crate) proof fn lemma_index_split(idx: usize)
    requires
        idx < MAX_ACCOUNTS,
    ensures
        idx >> 6 == idx / 64,
        idx & 63 == idx % 64,
        (idx >> 6) < BITMAP_WORDS,
        (idx & 63) < 64,
{
    assert(idx >> 6 == idx / 64) by (bit_vector);
    assert(idx & 63 == idx % 64) by (bit_vector);
}

proof fn lemma_zero_word(b: u64)
    requires
        b < 64,
    ensures
        (0u64 >> b) & 1 == 0,
{
    assert((0u64 >> b) & 1 == 0) by (bit_vector);
}

proof fn lemma_set_bit(before: Seq<u64>, after: Seq<u64>, idx: int)
    requires
        0 <= idx < MAX_ACCOUNTS,
        before.len() == BITMAP_WORDS,
        after == before.update(idx / 64, before[idx / 64] | (1u64 << ((idx % 64) as u64))),
    ensures
        bits_of(after) == bits_of(before).update(idx, true),
{
    let w = before[idx / 64];
    let b = (idx % 64) as u64;
    assert forall|i: int| 0 <= i < MAX_ACCOUNTS implies bits_of(after)[i] == bits_of(
        before,
    ).update(idx, true)[i] by {
        let c = (i % 64) as u64;
        assert(((w | (1u64 << b)) >> c) & 1 == if b == c {
            1
        } else {
            (w >> c) & 1
        }) by (bit_vector)
            requires
                b < 64,
                c < 64,
        ;
    }
    assert(bits_of(after) =~= bits_of(before).update(idx, true));
}

proof fn lemma_clear_bit(before: Seq<u64>, after: Seq<u64>, idx: int)
    requires
        0 <= idx < MAX_ACCOUNTS,
        before.len() == BITMAP_WORDS,
        after == before.update(idx / 64, before[idx / 64] & !(1u64 << ((idx % 64) as u64))),
    ensures
        bits_of(after) == bits_of(before).update(idx, false),
{
    let w = before[idx / 64];
    let b = (idx % 64) as u64;
    assert forall|i: int| 0 <= i < MAX_ACCOUNTS implies bits_of(after)[i] == bits_of(
        before,
    ).update(idx, false)[i] by {
        let c = (i % 64) as u64;
        assert(((w & !(1u64 << b)) >> c) & 1 == if b == c {
            0
        } else {
            (w >> c) & 1
        }) by (bit_vector)
            requires
                b < 64,
                c < 64,
        ;
    }
    assert(bits_of(after) =~= bits_of(before).update(idx, false));
}

proof fn lemma_count_update(flags: Seq<bool>, i: int, v: bool)
    requires
        0 <= i < flags.len(),
    ensures
        count_set(flags.update(i, v)) == count_set(flags) + (if v {
            1int
        } else {
            0
        }) - (if flags[i] {
            1int
        } else {
            0
        }),
    decreases flags.len(),
{
    let u = flags.update(i, v);
    if i == flags.len() - 1 {
        assert(u.drop_last() =~= flags.drop_last());
    } else {
        assert(u.drop_last() =~= flags.drop_last().update(i, v));
        lemma_count_update(flags.drop_last(), i, v);
    }
}

proof fn lemma_count_bound(flags: Seq<bool>)
    ensures
        count_set(flags) <= flags.len(),
        (exists|i: int| 0 <= i < flags.len() && !flags[i]) ==> count_set(flags) < flags.len(),
        (exists|i: int| 0 <= i < flags.len() && flags[i]) ==> count_set(flags) > 0,
        (forall|i: int| 0 <= i < flags.len() ==> flags[i]) ==> count_set(flags) == flags.len(),
        (forall|i: int| 0 <= i < flags.len() ==> !flags[i]) ==> count_set(flags) == 0,
    decreases flags.len(),
{
    if flags.len() > 0 {
        let d = flags.drop_last();
        lemma_count_bound(d);
        assert(forall|i: int| 0 <= i < d.len() ==> d[i] == flags[i]);
        if exists|i: int| 0 <= i < flags.len() && !flags[i] {
            let i = choose|i: int| 0 <= i < flags.len() && !flags[i];
            if i < d.len() {
                assert(!d[i]);
            }
        }
        if exists|i: int| 0 <= i < flags.len() && flags[i] {
            let i = choose|i: int| 0 <= i < flags.len() && flags[i];
            if i < d.len() {
                assert(d[i]);
            }
        }
    }
}

/// A new engine's free list holds all slots.
pub proof fn lemma_fresh_slab_ok()
    ensures
        slab_ok(Seq::new(MAX_ACCOUNTS as nat, |i: int| false), full_free_list(), 0, 0),
{
    reveal(links_unused);
    let used = Seq::new(MAX_ACCOUNTS as nat, |i: int| false);
    lemma_count_bound(used);
    let list = Seq::new(MAX_ACCOUNTS as nat, |i: int| i as u16);
    assert forall|i: int| 0 <= i < MAX_ACCOUNTS implies list.contains(i as u16)
        <==> !#[trigger] used[i] by {
        assert(list[i] == i as u16);
    }
    assert(is_free_list(full_free_list(), 0, list));
    assert(lists_unused(used, list));
}

/// Taking the first free slot takes an unused one, and keeps the slab consistent.
pub proof fn lemma_alloc(s: EngineState)
    requires
        s.wf(),
        s.free_head != u16::MAX,
    ensures
        s.free_head < MAX_ACCOUNTS,
        !s.used[s.free_head as int],
        s.num_used_accounts < MAX_ACCOUNTS,
        s.alloc_slot().0.wf(),
{
    reveal(links_unused);
    let list = choose|list: Seq<u16>| #[trigger]
        is_free_list(s.next_free, s.free_head, list) && lists_unused(s.used, list);
    let idx = s.free_head;
    assert(list[0] == idx);
    assert(list.contains(idx));
    assert((idx as int) as u16 == idx);
    assert(!s.used[idx as int]);
    lemma_count_bound(s.used);
    lemma_count_update(s.used, idx as int, true);
    let n = s.alloc_slot().0;
    let rest = list.skip(1);
    assert(is_free_list(n.next_free, n.free_head, rest)) by {
        assert forall|i: int| 0 <= i < rest.len() implies #[trigger] rest[i] < MAX_ACCOUNTS
            && n.next_free[rest[i] as int] == if i + 1 == rest.len() {
            u16::MAX
        } else {
            rest[i + 1]
        } by {
            assert(rest[i] == list[i + 1]);
        }
        assert(rest.no_duplicates()) by {
            assert forall|i: int, j: int|
                0 <= i < rest.len() && 0 <= j < rest.len() && i != j implies rest[i]
                != rest[j] by {
                assert(list[i + 1] != list[j + 1]);
            }
        }
    }
    assert(lists_unused(n.used, rest)) by {
        assert forall|i: int| 0 <= i < MAX_ACCOUNTS implies (rest.contains(i as u16)
            <==> !#[trigger] n.used[i]) by {
            if i == idx {
                if rest.contains(idx) {
                    let k = choose|k: int| 0 <= k < rest.len() && rest[k] == idx;
                    assert(list[k + 1] == list[0]);
                }
            } else {
                assert(n.used[i] == s.used[i]);
                if list.contains(i as u16) {
                    let k = choose|k: int| 0 <= k < list.len() && list[k] == i as u16;
                    assert(k != 0);
                    assert(rest[k - 1] == i as u16);
                }
                if rest.contains(i as u16) {
                    let k = choose|k: int| 0 <= k < rest.len() && rest[k] == i as u16;
                    assert(list[k + 1] == i as u16);
                }
            }
        }
    }
}

/// Freeing a used slot keeps the slab consistent.
pub proof fn lemma_free(s: EngineState, idx: u16)
    requires
        s.wf(),
        s.is_used(idx as int),
    ensures
        s.num_used_accounts > 0,
        s.free_slot(idx as int).wf(),
{
    reveal(links_unused);
    let list = choose|list: Seq<u16>| #[trigger]
        is_free_list(s.next_free, s.free_head, list) && lists_unused(s.used, list);
    lemma_count_bound(s.used);
    lemma_count_update(s.used, idx as int, false);
    let n = s.free_slot(idx as int);
    assert((idx as int) as u16 == idx);
    assert(!list.contains(idx));
    let longer = seq![idx] + list;
    assert(is_free_list(n.next_free, n.free_head, longer)) by {
        assert forall|i: int| 0 <= i < longer.len() implies #[trigger] longer[i] < MAX_ACCOUNTS
            && n.next_free[longer[i] as int] == if i + 1 == longer.len() {
            u16::MAX
        } else {
            longer[i + 1]
        } by {
            if i > 0 {
                assert(longer[i] == list[i - 1]);
                assert(list.contains(list[i - 1]));
            }
        }
        assert(longer.no_duplicates()) by {
            assert forall|i: int, j: int|
                0 <= i < longer.len() && 0 <= j < longer.len() && i != j implies longer[i]
                != longer[j] by {
                if i == 0 {
                    assert(list.contains(list[j - 1]));
                } else if j == 0 {
                    assert(list.contains(list[i - 1]));
                } else {
                    assert(list[i - 1] != list[j - 1]);
                }
            }
        }
    }
    assert(lists_unused(n.used, longer)) by {
        assert forall|i: int| 0 <= i < MAX_ACCOUNTS implies (longer.contains(i as u16)
            <==> !#[trigger] n.used[i]) by {
            if i == idx {
                assert(longer[0] == idx);
            } else {
                assert(n.used[i] == s.used[i]);
                if list.contains(i as u16) {
                    let k = choose|k: int| 0 <= k < list.len() && list[k] == i as u16;
                    assert(longer[k + 1] == i as u16);
                }
                if longer.contains(i as u16) {
                    let k = choose|k: int| 0 <= k < longer.len() && longer[k] == i as u16;
                    assert(k > 0);
                    assert(list[k - 1] == i as u16);
                }
            }
        }
    }
}

/// No slot can be taken exactly when all slots are used.
pub proof fn law_slab_full_iff_all_used(s: EngineState)
    requires
        s.wf(),
    ensures
        s.alloc_slot().1 is Err <==> s.num_used_accounts == MAX_ACCOUNTS,
        s.alloc_slot().1 is Err <==> (forall|i: int| 0 <= i < MAX_ACCOUNTS ==> s.used[i]),
{
    reveal(links_unused);
    let list = choose|list: Seq<u16>| #[trigger]
        is_free_list(s.next_free, s.free_head, list) && lists_unused(s.used, list);
    lemma_count_bound(s.used);
    if list.len() > 0 {
        lemma_alloc(s);
    } else {
        assert forall|i: int| 0 <= i < MAX_ACCOUNTS implies s.used[i] by {
            assert(!list.contains(i as u16));
        }
    }
}

/// A slot that is freed is the next one to be taken.
pub proof fn law_freed_slot_is_taken_next(s: EngineState, idx: u16)
    requires
        s.wf(),
        s.is_used(idx as int),
    ensures
        s.free_slot(idx as int).alloc_slot().1 == Ok::<u16, RiskError>(idx),
        s.free_slot(idx as int).alloc_slot().0.used == s.used,
{
    assert(s.free_slot(idx as int).alloc_slot().0.used =~= s.used);
}

} // verus!

//! The engine's state, its mathematical model and its invariant.
use vstd::prelude::*;

use crate::types::{Account, InsuranceFund, RiskParams, BITMAP_WORDS, MAX_ACCOUNTS};
use crate::wide::{I128, U128};

verus! {

/// The risk engine: a fixed slab of accounts with an occupancy bitmap and a free list,
/// and the balances and totals kept over them.
#[derive(Clone, Debug, PartialEq, Eq)]
pub struct RiskEngine {
    /// Total vault balance (all deposited funds)
    pub vault: U128,
    /// Insurance fund
    pub insurance_fund: InsuranceFund,
    /// Risk parameters
    pub params: RiskParams,
    /// Current slot
    pub current_slot: u64,
    /// Global funding index (quote per base, scaled by a million)
    pub funding_index_qpb_e6: I128,
    /// Last slot when funding was accrued
    pub last_funding_slot: u64,
    /// Losses that nothing covered
    pub loss_accum: U128,
    /// Whether risk-increasing operations are blocked
    pub risk_reduction_only: bool,
    /// Amount withdrawn while in risk-reduction-only mode
    pub risk_reduction_mode_withdrawn: U128,
    /// Whether warmup is paused
    pub warmup_paused: bool,
    /// Slot when warmup was paused
    pub warmup_pause_slot: u64,
    /// Last slot when the keeper crank ran
    pub last_crank_slot: u64,
    /// Slots after which a crank is required
    pub max_crank_staleness_slots: u64,
    /// Sum of absolute position sizes
    pub total_open_interest: U128,
    /// Cumulative profit converted to capital
    pub warmed_pos_total: U128,
    /// Cumulative losses paid from capital
    pub warmed_neg_total: U128,
    /// Insurance above the floor that backs converted profit
    pub warmup_insurance_reserved: U128,
    /// Working storage: remainders of the pro-rata haircuts
    pub adl_remainder_scratch: Vec<U128>,
    /// Working storage: the heap of accounts with a remainder
    pub adl_idx_scratch: Vec<u16>,
    /// Non-zero for accounts that fund no profit in a batch
    pub adl_exclude_scratch: Vec<u8>,
    /// Profit from liquidations that is still to be funded
    pub pending_profit_to_fund: U128,
    /// Loss from liquidations that is still to be socialized
    pub pending_unpaid_loss: U128,
    /// Number of the current sweep, modulo two to the power 16
    pub pending_epoch: u16,
    /// Sweep in which an account last had a profit to be funded by others
    pub pending_exclude_epoch: Vec<u16>,
    /// Cursor for liquidation scans
    pub liq_cursor: u16,
    /// Cursor for the dust scan
    pub gc_cursor: u16,
    /// Slot when the current full sweep started
    pub last_full_sweep_start_slot: u64,
    /// Slot when the last full sweep completed
    pub last_full_sweep_completed_slot: u64,
    /// Index where the next crank starts
    pub crank_cursor: u16,
    /// Index where the current sweep started
    pub sweep_start_idx: u16,
    /// Liquidations performed so far
    pub lifetime_liquidations: u64,
    /// Force-realize closes performed so far
    pub lifetime_force_realize_closes: u64,
    /// Sum of the position sizes of liquidity providers
    pub net_lp_pos: I128,
    /// Sum of the absolute position sizes of liquidity providers
    pub lp_sum_abs: U128,
    /// Upper bound on the absolute position sizes of liquidity providers
    pub lp_max_abs: U128,
    /// The same bound, as collected by the current sweep
    pub lp_max_abs_sweep: U128,
    /// Occupancy of the slots
    pub used: Vec<u64>,
    /// Number of used slots
    pub num_used_accounts: u16,
    /// Next account id to assign
    pub next_account_id: u64,
    /// First free slot, or `u16::MAX`
    pub free_head: u16,
    /// For each free slot the next one, or `u16::MAX`
    pub next_free: Vec<u16>,
    /// Account slots
    pub accounts: Vec<Account>,
}

/// The model of a [`RiskEngine`]: its fields, with the bitmap as a sequence of flags, and
/// without the working storage of the deleveraging heap.
#[verifier::ext_equal]
pub struct EngineState {
    pub vault: U128,
    pub insurance_fund: InsuranceFund,
    pub params: RiskParams,
    pub current_slot: u64,
    pub funding_index_qpb_e6: I128,
    pub last_funding_slot: u64,
    pub loss_accum: U128,
    pub risk_reduction_only: bool,
    pub risk_reduction_mode_withdrawn: U128,
    pub warmup_paused: bool,
    pub warmup_pause_slot: u64,
    pub last_crank_slot: u64,
    pub max_crank_staleness_slots: u64,
    pub total_open_interest: U128,
    pub warmed_pos_total: U128,
    pub warmed_neg_total: U128,
    pub warmup_insurance_reserved: U128,
    pub adl_exclude_scratch: Seq<u8>,
    pub pending_profit_to_fund: U128,
    pub pending_unpaid_loss: U128,
    pub pending_epoch: u16,
    pub pending_exclude_epoch: Seq<u16>,
    pub liq_cursor: u16,
    pub gc_cursor: u16,
    pub last_full_sweep_start_slot: u64,
    pub last_full_sweep_completed_slot: u64,
    pub crank_cursor: u16,
    pub sweep_start_idx: u16,
    pub lifetime_liquidations: u64,
    pub lifetime_force_realize_closes: u64,
    pub net_lp_pos: I128,
    pub lp_sum_abs: U128,
    pub lp_max_abs: U128,
    pub lp_max_abs_sweep: U128,
    pub used: Seq<bool>,
    pub num_used_accounts: u16,
    pub next_account_id: u64,
    pub free_head: u16,
    pub next_free: Seq<u16>,
    pub accounts: Seq<Account>,
}

/// Bit `i` of a bitmap made of 64-bit words.
pub open spec fn bit_at(words: Seq<u64>, i: int) -> bool {
    (words[i / 64] >> ((i % 64) as u64)) & 1 == 1
}

/// The flags that a bitmap stands for.
pub open spec fn bits_of(words: Seq<u64>) -> Seq<bool> {
    Seq::new(MAX_ACCOUNTS as nat, |i: int| bit_at(words, i))
}

/// Number of flags that are set.
pub open spec fn count_set(flags: Seq<bool>) -> nat
    decreases flags.len(),
{
    if flags.len() == 0 {
        0
    } else {
        count_set(flags.drop_last()) + if flags.last() {
            1nat
        } else {
            0nat
        }
    }
}

/// Whether `list` is the free list that starts at `head` and is linked by `next`: distinct
/// slots, each linked to the one that follows it.
pub open spec fn is_free_list(next: Seq<u16>, head: u16, list: Seq<u16>) -> bool {
    &&& head == if list.len() == 0 {
        u16::MAX
    } else {
        list[0]
    }
    &&& forall|i: int|
        0 <= i < list.len() ==> #[trigger] list[i] < MAX_ACCOUNTS && next[list[i] as int]
            == if i + 1 == list.len() {
            u16::MAX
        } else {
            list[i + 1]
        }
    &&& list.no_duplicates()
}

/// Whether `list` holds exactly the slots that are not used.
pub open spec fn lists_unused(used: Seq<bool>, list: Seq<u16>) -> bool {
    forall|i: int|
        0 <= i < MAX_ACCOUNTS ==> (list.contains(i as u16) <==> !#[trigger] used[i])
}

/// Whether the free list that starts at `head` and is linked by `next` holds exactly the slots
/// that are not used.
#[verifier::opaque]
pub open spec fn links_unused(used: Seq<bool>, next: Seq<u16>, head: u16) -> bool {
    exists|list: Seq<u16>| #[trigger] is_free_list(next, head, list) && lists_unused(used, list)
}

/// The bookkeeping of the slab is consistent: the counter counts the used slots, and the
/// free list holds exactly the others.
pub open spec fn slab_ok(used: Seq<bool>, next: Seq<u16>, head: u16, num_used: u16) -> bool {
    &&& used.len() == MAX_ACCOUNTS
    &&& next.len() == MAX_ACCOUNTS
    &&& num_used == count_set(used)
    &&& links_unused(used, next, head)
}

impl EngineState {
    /// The engine's invariant, apart from the sizes of its working storage.
    pub open spec fn wf(self) -> bool {
        &&& slab_ok(self.used, self.next_free, self.free_head, self.num_used_accounts)
        &&& self.accounts.len() == MAX_ACCOUNTS
        &&& self.adl_exclude_scratch.len() == MAX_ACCOUNTS
        &&& self.pending_exclude_epoch.len() == MAX_ACCOUNTS
        &&& self.crank_cursor < MAX_ACCOUNTS
    }

    /// Whether slot `idx` holds an account.
    pub open spec fn is_used(self, idx: int) -> bool {
        0 <= idx < MAX_ACCOUNTS && self.used[idx]
    }

    /// The state with the account in slot `idx` replaced.
    pub open spec fn with_account(self, idx: int, a: Account) -> EngineState {
        EngineState { accounts: self.accounts.update(idx, a), ..self }
    }
}

impl View for RiskEngine {
    type V = EngineState;

    open spec fn view(&self) -> EngineState {
        EngineState {
            vault: self.vault,
            insurance_fund: self.insurance_fund,
            params: self.params,
            current_slot: self.current_slot,
            funding_index_qpb_e6: self.funding_index_qpb_e6,
            last_funding_slot: self.last_funding_slot,
            loss_accum: self.loss_accum,
            risk_reduction_only: self.risk_reduction_only,
            risk_reduction_mode_withdrawn: self.risk_reduction_mode_withdrawn,
            warmup_paused: self.warmup_paused,
            warmup_pause_slot: self.warmup_pause_slot,
            last_crank_slot: self.last_crank_slot,
            max_crank_staleness_slots: self.max_crank_staleness_slots,
            total_open_interest: self.total_open_interest,
            warmed_pos_total: self.warmed_pos_total,
            warmed_neg_total: self.warmed_neg_total,
            warmup_insurance_reserved: self.warmup_insurance_reserved,
            adl_exclude_scratch: self.adl_exclude_scratch@,
            pending_profit_to_fund: self.pending_profit_to_fund,
            pending_unpaid_loss: self.pending_unpaid_loss,
            pending_epoch: self.pending_epoch,
            pending_exclude_epoch: self.pending_exclude_epoch@,
            liq_cursor: self.liq_cursor,
            gc_cursor: self.gc_cursor,
            last_full_sweep_start_slot: self.last_full_sweep_start_slot,
            last_full_sweep_completed_slot: self.last_full_sweep_completed_slot,
            crank_cursor: self.crank_cursor,
            sweep_start_idx: self.sweep_start_idx,
            lifetime_liquidations: self.lifetime_liquidations,
            lifetime_force_realize_closes: self.lifetime_force_realize_closes,
            net_lp_pos: self.net_lp_pos,
            lp_sum_abs: self.lp_sum_abs,
            lp_max_abs: self.lp_max_abs,
            lp_max_abs_sweep: self.lp_max_abs_sweep,
            used: bits_of(self.used@),
            num_used_accounts: self.num_used_accounts,
            next_account_id: self.next_account_id,
            free_head: self.free_head,
            next_free: self.next_free@,
            accounts: self.accounts@,
        }
    }
}

impl RiskEngine {
    /// The engine's invariant. It is established by [`RiskEngine::new`] and kept by every
    /// operation.
    pub open spec fn wf(&self) -> bool {
        &&& self@.wf()
        &&& self.used@.len() == BITMAP_WORDS
        &&& self.adl_remainder_scratch@.len() == MAX_ACCOUNTS
        &&& self.adl_idx_scratch@.len() == MAX_ACCOUNTS
    }
}

} // verus!

//! Plain data of the risk engine: accounts, parameters, errors and outcomes.
use vstd::prelude::*;

use crate::wide::{I128, U128};

verus! {

/// Number of account slots.
pub const MAX_ACCOUNTS: usize = 4096;

/// Number of 64-bit words in the occupancy bitmap.
pub const BITMAP_WORDS: usize = 64;

/// Largest surplus that the conservation check puts down to rounding.
pub const MAX_ROUNDING_SLACK: u128 = 4096;

/// Maximum number of dust accounts to close per crank call.
pub const GC_CLOSE_BUDGET: u32 = 32;

/// Number of occupied accounts to process per crank call. With fewer accounts than this,
/// one crank covers everything.
pub const ACCOUNTS_PER_CRANK: u16 = 256;

/// Hard liquidation budget per crank call.
pub const LIQ_BUDGET_PER_CRANK: u16 = 120;

/// Maximum number of force-realize closes per crank call.
pub const FORCE_REALIZE_BUDGET_PER_CRANK: u16 = 32;

/// Largest accepted oracle price: a billion with six decimal places.
pub const MAX_ORACLE_PRICE: u64 = 1_000_000_000_000_000;

/// Largest accepted absolute position size. Together with [`MAX_ORACLE_PRICE`] it keeps
/// the product of a price difference and a position within `i128`.
pub const MAX_POSITION_ABS: u128 = 100_000_000_000_000_000_000;

/// What an account slot is used for.
#[derive(Clone, Copy, Debug, PartialEq, Eq, Structural)]
pub enum AccountKind {
    User,
    LP,
}

/// An account, of a user or of a liquidity provider. Both kinds have the same protections:
/// warmup of profits, auto-deleveraging and liquidation.
#[derive(Clone, Copy, Debug, PartialEq, Eq)]
pub struct Account {
    /// Unique account id, increasing and never recycled
    pub account_id: u64,
    /// Deposited capital; never reduced by deleveraging or socialization
    pub capital: U128,
    /// Account kind
    pub kind: AccountKind,
    /// Realized profit or loss from trading
    pub pnl: I128,
    /// Profit reserved for pending withdrawals
    pub reserved_pnl: u64,
    /// Slot when warmup started
    pub warmup_started_at_slot: u64,
    /// Linear vesting rate per slot
    pub warmup_slope_per_step: U128,
    /// Current position size (positive for long, negative for short)
    pub position_size: I128,
    /// Oracle price at which the position was last settled
    pub entry_price: u64,
    /// Funding index snapshot (quote per base, scaled by a million)
    pub funding_index: I128,
    /// Matching engine program id (zero for user accounts)
    pub matcher_program: [u8; 32],
    /// Matching engine context account (zero for user accounts)
    pub matcher_context: [u8; 32],
    /// Owner key; signatures are checked by the caller
    pub owner: [u8; 32],
    /// Fee credits in capital units; negative while fees are owed
    pub fee_credits: I128,
    /// Last slot when maintenance fees were settled
    pub last_fee_slot: u64,
}

/// The all-zero key.
pub open spec fn zero_key() -> [u8; 32] {
    vstd::array::spec_array_fill_for_copy_type::<u8, 32>(0)
}

impl Account {
    /// The contents of a slot that holds no account.
    pub open spec fn vacant() -> Account {
        Account {
            account_id: 0,
            capital: U128::of(0),
            kind: AccountKind::User,
            pnl: I128::of(0),
            reserved_pnl: 0,
            warmup_started_at_slot: 0,
            warmup_slope_per_step: U128::of(0),
            position_size: I128::of(0),
            entry_price: 0,
            funding_index: I128::of(0),
            matcher_program: zero_key(),
            matcher_context: zero_key(),
            owner: zero_key(),
            fee_credits: I128::of(0),
            last_fee_slot: 0,
        }
    }

    /// Whether this is the account of a liquidity provider.
    pub fn is_lp(&self) -> (r: bool)
        ensures
            r == (self.kind == AccountKind::LP),
    {
        matches!(self.kind, AccountKind::LP)
    }

    /// Whether this is a regular user account.
    pub fn is_user(&self) -> (r: bool)
        ensures
            r == (self.kind == AccountKind::User),
    {
        matches!(self.kind, AccountKind::User)
    }
}

/// The contents of a slot that holds no account.
pub fn empty_account() -> (r: Account)
    ensures
        r == Account::vacant(),
{
    Account {
        account_id: 0,
        capital: U128::zero(),
        kind: AccountKind::User,
        pnl: I128::zero(),
        reserved_pnl: 0,
        warmup_started_at_slot: 0,
        warmup_slope_per_step: U128::zero(),
        position_size: I128::zero(),
        entry_price: 0,
        funding_index: I128::zero(),
        matcher_program: [0; 32],
        matcher_context: [0; 32],
        owner: [0; 32],
        fee_credits: I128::zero(),
        last_fee_slot: 0,
    }
}

/// Insurance fund state
#[derive(Clone, Copy, Debug, PartialEq, Eq, Structural)]
pub struct InsuranceFund {
    /// Insurance fund balance
    pub balance: U128,
    /// Accumulated fees
    pub fee_revenue: U128,
}

/// What closing a position at the oracle price did.
#[derive(Clone, Copy, Debug, PartialEq, Eq, Structural)]
pub struct ClosedOutcome {
    /// Absolute position size that was closed
    pub abs_pos: u128,
    /// Mark profit or loss from closing at the oracle price
    pub mark_pnl: i128,
    /// Capital before settlement
    pub cap_before: u128,
    /// Capital after settlement
    pub cap_after: u128,
    /// Whether a position was actually closed
    pub position_was_closed: bool,
}

/// What a close leaves to be socialized later.
#[derive(Clone, Copy, Debug, PartialEq, Eq, Structural)]
pub struct DeferredAdl {
    /// Realized profit that others have to fund
    pub profit_to_fund: u128,
    /// Loss that the capital of the account could not pay
    pub unpaid_loss: u128,
    /// Whether the account had a profit, and must not fund it itself
    pub excluded: bool,
}

/// Risk engine parameters
#[derive(Clone, Copy, Debug, PartialEq, Eq, Structural)]
pub struct RiskParams {
    /// Warmup period in slots
    pub warmup_period_slots: u64,
    /// Maintenance margin ratio in basis points
    pub maintenance_margin_bps: u64,
    /// Initial margin ratio in basis points
    pub initial_margin_bps: u64,
    /// Trading fee in basis points
    pub trading_fee_bps: u64,
    /// Maximum number of accounts
    pub max_accounts: u64,
    /// Flat account creation fee
    pub new_account_fee: U128,
    /// Insurance floor: at or below it the engine only reduces risk
    pub risk_reduction_threshold: U128,
    /// Maintenance fee per account per slot
    pub maintenance_fee_per_slot: U128,
    /// Slots after which a crank is required; `u64::MAX` disables the check
    pub max_crank_staleness_slots: u64,
    /// Liquidation fee in basis points, paid into the insurance fund
    pub liquidation_fee_bps: u64,
    /// Absolute cap on the liquidation fee
    pub liquidation_fee_cap: U128,
    /// Margin above maintenance, in basis points, that a partial liquidation targets
    pub liquidation_buffer_bps: u64,
    /// Smallest position that a partial liquidation may leave
    pub min_liquidation_abs: U128,
}

/// How an operation bears on risk.
#[derive(Clone, Copy, Debug, PartialEq, Eq, Structural)]
pub enum OpClass {
    RiskIncrease,
    RiskNeutral,
    RiskReduce,
}

/// Outcome of a keeper crank operation
#[derive(Clone, Copy, Debug, PartialEq, Eq, Structural)]
pub struct CrankOutcome {
    /// Whether the crank advanced the last crank slot
    pub advanced: bool,
    /// Slots of maintenance fees forgiven to the caller
    pub slots_forgiven: u64,
    /// Whether the caller's maintenance fees were settled (not if undercollateralized)
    pub caller_settle_ok: bool,
    /// Whether force-realize mode is active (insurance at or below threshold)
    pub force_realize_needed: bool,
    /// Whether a global settlement is called for
    pub panic_needed: bool,
    /// Number of accounts liquidated during this crank
    pub num_liquidations: u32,
    /// Number of liquidation errors
    pub num_liq_errors: u16,
    /// Number of dust accounts closed during this crank
    pub num_gc_closed: u32,
    /// Number of positions force-closed during this crank
    pub force_realize_closed: u16,
    /// Number of force-realize errors during this crank
    pub force_realize_errors: u16,
    /// Index where this crank stopped
    pub last_cursor: u16,
    /// Whether this crank completed a full sweep of all accounts
    pub sweep_complete: bool,
}

/// A fill reported by a matching engine.
#[derive(Clone, Copy, Debug, PartialEq, Eq, Structural)]
pub struct TradeExecution {
    /// Execution price
    pub price: u64,
    /// Executed size; may be a partial fill
    pub size: i128,
}

/// A pluggable matching engine. It decides at which price and size a requested trade is
/// filled, or refuses it; the risk engine checks whatever it reports.
pub trait MatchingEngine {
    /// Executes a trade of `size` against the liquidity provider with id `lp_account_id`.
    fn execute_match(
        &self,
        lp_program: &[u8; 32],
        lp_context: &[u8; 32],
        lp_account_id: u64,
        oracle_price: u64,
        size: i128,
    ) -> Result<TradeExecution, RiskError>;
}

/// A matching engine that fills every request in full at the oracle price.
pub struct NoOpMatcher;

impl MatchingEngine for NoOpMatcher {
    fn execute_match(
        &self,
        _lp_program: &[u8; 32],
        _lp_context: &[u8; 32],
        _lp_account_id: u64,
        oracle_price: u64,
        size: i128,
    ) -> (r: Result<TradeExecution, RiskError>)
        ensures
            r == Ok::<TradeExecution, RiskError>(TradeExecution { price: oracle_price, size }),
    {
        Ok(TradeExecution { price: oracle_price, size })
    }
}

/// Why an engine operation was refused.
#[derive(Clone, Copy, Debug, PartialEq, Eq, Structural)]
pub enum RiskError {
    /// Insufficient balance for operation
    InsufficientBalance,
    /// Account would become undercollateralized
    Undercollateralized,
    /// Unauthorized operation
    Unauthorized,
    /// Invalid matching engine
    InvalidMatchingEngine,
    /// PNL not yet warmed up
    PnlNotWarmedUp,
    /// Arithmetic overflow
    Overflow,
    /// Account not found
    AccountNotFound,
    /// Account is not an LP account
    NotAnLPAccount,
    /// Position size mismatch
    PositionSizeMismatch,
    /// Risk-increasing operations are blocked
    RiskReductionOnlyMode,
    /// Account kind mismatch
    AccountKindMismatch,
}

} // verus!

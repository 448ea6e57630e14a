//! Binary prediction markets whose payout is bounded by the vault: winners get their capital
//! back first, and their profit pro rata as far as funds go.
use vstd::prelude::*;

use crate::haircut::{sum_to, weights_ok};
use crate::keys::same_key;
use crate::math::{min_int, min_u128, monus};

verus! {

/// Outcome of a market
#[derive(Clone, Copy, Debug, PartialEq, Eq, Structural)]
pub enum Outcome {
    /// The event happened
    Yes,
    /// The event did not happen
    No,
}

/// What a market is about
#[derive(Clone, Copy, Debug, PartialEq, Eq, Structural)]
pub enum MarketRule {
    /// The market capitalization at the close is at least the target
    MarketCapAtCloseAtLeast {
        /// The target
        target_quote_units: u128,
    },
}

/// A token when a market is created
#[derive(Clone, Copy, Debug, PartialEq, Eq)]
pub struct TokenStatus {
    /// Mint of the token
    pub mint: [u8; 32],
    /// Whether the token has migrated
    pub migrated_to_pumpswap: bool,
}

/// A token when a market is resolved
#[derive(Clone, Copy, Debug, PartialEq, Eq)]
pub struct TokenSnapshot {
    /// Mint of the token
    pub mint: [u8; 32],
    /// Whether the token has migrated
    pub migrated_to_pumpswap: bool,
    /// Market capitalization
    pub market_cap_quote_units: u128,
    /// Slot of the snapshot
    pub snapshot_slot: u64,
}

/// A market
#[derive(Clone, Copy, Debug, PartialEq, Eq)]
pub struct Market {
    /// Id of the market
    pub market_id: u64,
    /// Mint of the token that it is about
    pub token_mint: [u8; 32],
    /// Slot of its creation
    pub created_slot: u64,
    /// Slot of its close
    pub close_slot: u64,
    /// What it is about
    pub rule: MarketRule,
}

/// Capital put on each outcome
#[derive(Clone, Copy, Debug, PartialEq, Eq, Structural)]
pub struct Pools {
    /// Capital put on yes
    pub yes_capital: u128,
    /// Capital put on no
    pub no_capital: u128,
}

/// How a market is settled
#[derive(Clone, Copy, Debug, PartialEq, Eq, Structural)]
pub struct Settlement {
    /// Outcome
    pub outcome: Outcome,
    /// Capital of the winners
    pub winner_capital_total: u128,
    /// Capital of the losers
    pub loser_capital_total: u128,
    /// Funds beyond the winners' capital
    pub residual: u128,
    /// Profit that the winners claim
    pub profit_claim_total: u128,
    /// Numerator of the coverage ratio
    pub h_num: u128,
    /// Denominator of the coverage ratio
    pub h_den: u128,
    /// Profit that is paid
    pub winner_profit_paid: u128,
    /// All that is paid
    pub winner_payout_total: u128,
}

/// Errors of prediction markets
#[derive(Clone, Copy, Debug, PartialEq, Eq, Structural)]
pub enum PredictionError {
    /// The token has not migrated
    TokenNotMigrated,
    /// The close is not after the creation
    InvalidCloseSlot,
    /// The snapshot was taken before the close
    SnapshotBeforeClose,
    /// The snapshot is of another token
    SnapshotTokenMismatch,
    /// The token of the snapshot has not migrated
    SnapshotNotMigrated,
    /// Nobody put capital on the outcome
    EmptyWinnerSide,
    /// An amount is out of range
    MathOverflow,
}

impl Market {
    /// The outcome at a snapshot, if the snapshot can resolve the market.
    pub open spec fn outcome(self, snapshot: TokenSnapshot) -> Result<Outcome, PredictionError> {
        if snapshot.snapshot_slot < self.close_slot {
            Err(PredictionError::SnapshotBeforeClose)
        } else if snapshot.mint != self.token_mint {
            Err(PredictionError::SnapshotTokenMismatch)
        } else if !snapshot.migrated_to_pumpswap {
            Err(PredictionError::SnapshotNotMigrated)
        } else {
            match self.rule {
                MarketRule::MarketCapAtCloseAtLeast { target_quote_units } => if snapshot.market_cap_quote_units
                    >= target_quote_units {
                    Ok(Outcome::Yes)
                } else {
                    Ok(Outcome::No)
                },
            }
        }
    }
}

impl Pools {
    /// Capital put on an outcome.
    pub open spec fn capital_on(self, outcome: Outcome) -> u128 {
        match outcome {
            Outcome::Yes => self.yes_capital,
            Outcome::No => self.no_capital,
        }
    }

    /// Capital put against an outcome.
    pub open spec fn capital_against(self, outcome: Outcome) -> u128 {
        match outcome {
            Outcome::Yes => self.no_capital,
            Outcome::No => self.yes_capital,
        }
    }
}

/// The settlement when winners put in `winner`, losers `loser`, and `funds` are available.
pub open spec fn settlement(outcome: Outcome, winner: u128, loser: u128, funds: u128) -> Settlement {
    let residual = monus(funds as int, winner as int);
    let profit = min_int(residual, loser as int);
    Settlement {
        outcome,
        winner_capital_total: winner,
        loser_capital_total: loser,
        residual: residual as u128,
        profit_claim_total: loser,
        h_num: if loser == 0 {
            1
        } else {
            profit as u128
        },
        h_den: if loser == 0 {
            1
        } else {
            loser
        },
        winner_profit_paid: profit as u128,
        winner_payout_total: min_int(funds as int, winner + loser) as u128,
    }
}

/// Creates a market on a token that has migrated.
pub fn create_market(
    token: TokenStatus,
    market_id: u64,
    created_slot: u64,
    close_slot: u64,
    rule: MarketRule,
) -> (r: Result<Market, PredictionError>)
    ensures
        r == (if !token.migrated_to_pumpswap {
            Err::<Market, PredictionError>(PredictionError::TokenNotMigrated)
        } else if close_slot <= created_slot {
            Err(PredictionError::InvalidCloseSlot)
        } else {
            Ok((Market { market_id, token_mint: token.mint, created_slot, close_slot, rule }))
        }),
{
    if !token.migrated_to_pumpswap {
        return Err(PredictionError::TokenNotMigrated);
    }
    if close_slot <= created_slot {
        return Err(PredictionError::InvalidCloseSlot);
    }
    Ok(Market { market_id, token_mint: token.mint, created_slot, close_slot, rule })
}

/// The outcome of a market at a snapshot.
pub fn resolve_outcome(market: &Market, snapshot: &TokenSnapshot) -> (r: Result<
    Outcome,
    PredictionError,
>)
    ensures
        r == market.outcome(*snapshot),
{
    if snapshot.snapshot_slot < market.close_slot {
        return Err(PredictionError::SnapshotBeforeClose);
    }
    if !same_key(&snapshot.mint, &market.token_mint) {
        return Err(PredictionError::SnapshotTokenMismatch);
    }
    if !snapshot.migrated_to_pumpswap {
        return Err(PredictionError::SnapshotNotMigrated);
    }
    let outcome: Outcome = match market.rule {
        MarketRule::MarketCapAtCloseAtLeast { target_quote_units } => {
            if snapshot.market_cap_quote_units >= target_quote_units {
                Outcome::Yes
            } else {
                Outcome::No
            }
        },
    };
    Ok(outcome)
}

/// Settles a market. Winners get their capital first; their profit is the losers' capital, as
/// far as the available funds go beyond the winners' capital. No more is paid than there is.
pub fn settle_market(
    market: &Market,
    snapshot: &TokenSnapshot,
    pools: Pools,
    available_vault_funds: u128,
) -> (r: Result<Settlement, PredictionError>)
    ensures
        r == (match market.outcome(*snapshot) {
            Err(e) => Err::<Settlement, PredictionError>(e),
            Ok(outcome) => if pools.capital_on(outcome) == 0 {
                Err(PredictionError::EmptyWinnerSide)
            } else {
                Ok(
                    settlement(
                        outcome,
                        pools.capital_on(outcome),
                        pools.capital_against(outcome),
                        available_vault_funds,
                    ),
                )
            },
        }),
{
    let outcome: Outcome = resolve_outcome(market, snapshot)?;
    let (winner_capital_total, loser_capital_total): (u128, u128) = match outcome {
        Outcome::Yes => (pools.yes_capital, pools.no_capital),
        Outcome::No => (pools.no_capital, pools.yes_capital),
    };
    if winner_capital_total == 0 {
        return Err(PredictionError::EmptyWinnerSide);
    }
    let profit_claim_total: u128 = loser_capital_total;
    let residual: u128 = available_vault_funds.saturating_sub(winner_capital_total);
    let funded_profit: u128 = min_u128(residual, profit_claim_total);
    let (h_num, h_den): (u128, u128) = if profit_claim_total == 0 {
        (1, 1)
    } else {
        (funded_profit, profit_claim_total)
    };
    let funded_capital: u128 = min_u128(winner_capital_total, available_vault_funds);
    let winner_payout_total: u128 = funded_capital + funded_profit;
    Ok(
        Settlement {
            outcome,
            winner_capital_total,
            loser_capital_total,
            residual,
            profit_claim_total,
            h_num,
            h_den,
            winner_profit_paid: funded_profit,
            winner_payout_total,
        },
    )
}

/// A snapshot taken at or after the close, of the market's own token once it has migrated,
/// resolves the market: to yes exactly where the capitalization is at least the market's
/// target, and otherwise to no. No other snapshot resolves it.
pub proof fn law_target_decides_outcome(market: Market, snapshot: TokenSnapshot)
    ensures
        ({
            let r = market.outcome(snapshot);
            let fits = snapshot.snapshot_slot >= market.close_slot && snapshot.mint
                == market.token_mint && snapshot.migrated_to_pumpswap;
            let MarketRule::MarketCapAtCloseAtLeast { target_quote_units } = market.rule;
            let reached = snapshot.market_cap_quote_units >= target_quote_units;
            &&& r is Ok <==> fits
            &&& fits ==> (r == Ok::<Outcome, PredictionError>(Outcome::Yes) <==> reached)
            &&& fits ==> (r == Ok::<Outcome, PredictionError>(Outcome::No) <==> !reached)
            &&& r == Err::<Outcome, PredictionError>(PredictionError::SnapshotBeforeClose)
                <==> snapshot.snapshot_slot < market.close_slot
            &&& r == Err::<Outcome, PredictionError>(PredictionError::SnapshotTokenMismatch)
                <==> snapshot.snapshot_slot >= market.close_slot && snapshot.mint
                != market.token_mint
            &&& r == Err::<Outcome, PredictionError>(PredictionError::SnapshotNotMigrated)
                <==> snapshot.snapshot_slot >= market.close_slot && snapshot.mint
                == market.token_mint && !snapshot.migrated_to_pumpswap
        }),
{
}

/// A higher capitalization never turns yes into no, and a higher target never turns no into
/// yes.
pub proof fn law_outcome_is_monotonic(
    market: Market,
    snapshot: TokenSnapshot,
    higher_cap: u128,
    higher_target: u128,
)
    requires
        market.outcome(snapshot) is Ok,
        higher_cap >= snapshot.market_cap_quote_units,
        market.rule matches MarketRule::MarketCapAtCloseAtLeast { target_quote_units }
            && higher_target >= target_quote_units,
    ensures
        market.outcome(snapshot) == Ok::<Outcome, PredictionError>(Outcome::Yes)
            ==> market.outcome(
            TokenSnapshot { market_cap_quote_units: higher_cap, ..snapshot },
        ) == Ok::<Outcome, PredictionError>(Outcome::Yes),
        market.outcome(snapshot) == Ok::<Outcome, PredictionError>(Outcome::No) ==> (Market {
            rule: MarketRule::MarketCapAtCloseAtLeast { target_quote_units: higher_target },
            ..market
        }).outcome(snapshot) == Ok::<Outcome, PredictionError>(Outcome::No),
{
}

/// The two sides of a market are its two pools: the capital on an outcome and the capital
/// against it. What is put on yes is against no.
pub proof fn law_sides_are_the_pools(pools: Pools)
    ensures
        pools.capital_on(Outcome::Yes) == pools.yes_capital,
        pools.capital_on(Outcome::No) == pools.no_capital,
        pools.capital_against(Outcome::Yes) == pools.no_capital,
        pools.capital_against(Outcome::No) == pools.yes_capital,
{
}

/// What a settlement pays, in full: all funds up to the pooled capital; of that, as profit,
/// what exceeds the winners' capital. The ratio is the share of the losers' capital that is
/// paid as profit.
pub proof fn law_settlement_amounts(outcome: Outcome, winner: u128, loser: u128, funds: u128)
    ensures
        ({
            let s = settlement(outcome, winner, loser, funds);
            &&& s.outcome == outcome
            &&& s.winner_capital_total == winner
            &&& s.loser_capital_total == loser
            &&& s.profit_claim_total == loser
            &&& funds >= winner ==> s.residual == funds - winner
            &&& funds < winner ==> s.residual == 0
            &&& funds <= winner ==> s.winner_profit_paid == 0
            &&& winner < funds <= winner + loser ==> s.winner_profit_paid == funds - winner
            &&& funds > winner + loser ==> s.winner_profit_paid == loser
            &&& funds <= winner + loser ==> s.winner_payout_total == funds
            &&& funds > winner + loser ==> s.winner_payout_total == winner + loser
            &&& loser > 0 ==> s.h_num == s.winner_profit_paid && s.h_den == loser
            &&& loser == 0 ==> s.h_num == 1 && s.h_den == 1
        }),
{
}

/// No market pays out more than the vault holds.
pub proof fn law_payout_within_vault(outcome: Outcome, winner: u128, loser: u128, funds: u128)
    ensures
        settlement(outcome, winner, loser, funds).winner_payout_total <= funds,
{
}

/// Capital comes first: while the winners' capital is not covered no profit is paid, and once
/// it is covered it is paid in full.
pub proof fn law_capital_is_senior(outcome: Outcome, winner: u128, loser: u128, funds: u128)
    ensures
        ({
            let s = settlement(outcome, winner, loser, funds);
            &&& funds <= winner ==> s.winner_profit_paid == 0 && s.winner_payout_total == funds
            &&& funds >= winner ==> s.winner_payout_total == winner + s.winner_profit_paid
        }),
{
}

/// The coverage ratio is at most one, and one exactly when the profit is covered in full.
pub proof fn law_coverage_ratio(outcome: Outcome, winner: u128, loser: u128, funds: u128)
    ensures
        ({
            let s = settlement(outcome, winner, loser, funds);
            &&& s.h_den > 0
            &&& s.h_num <= s.h_den
            &&& loser > 0 ==> (s.h_num == s.h_den <==> funds >= winner + loser)
        }),
{
}

/// A vault that holds all pooled capital pays the full profit.
pub proof fn law_full_coverage_pays_full_profit(
    outcome: Outcome,
    winner: u128,
    loser: u128,
    funds: u128,
)
    requires
        funds >= winner + loser,
    ensures
        settlement(outcome, winner, loser, funds).winner_profit_paid == loser,
        settlement(outcome, winner, loser, funds).winner_payout_total == winner + loser,
{
}

/// What a winner gets who put in `capital` and claims `profit`.
pub open spec fn payout(s: Settlement, capital: int, profit: int) -> int {
    capital + (profit * s.h_num) / (s.h_den as int)
}

/// The payouts of all winners.
pub open spec fn payouts(s: Settlement, capitals: Seq<int>, profits: Seq<int>) -> Seq<int> {
    Seq::new(capitals.len(), |i: int| payout(s, capitals[i], profits[i]))
}

/// Paid out to each winner as capital and a rounded share of the profit, a covered market
/// never costs more than its total payout, and so never more than the vault holds.
pub proof fn law_single_payouts_within_total(
    outcome: Outcome,
    winner: u128,
    loser: u128,
    funds: u128,
    capitals: Seq<int>,
    profits: Seq<int>,
)
    requires
        funds >= winner,
        capitals.len() == profits.len(),
        weights_ok(capitals),
        weights_ok(profits),
        sum_to(capitals, capitals.len() as int) == winner,
        sum_to(profits, profits.len() as int) == loser,
    ensures
        ({
            let s = settlement(outcome, winner, loser, funds);
            sum_to(payouts(s, capitals, profits), capitals.len() as int) <= s.winner_payout_total
        }),
{
    let s = settlement(outcome, winner, loser, funds);
    let n = capitals.len() as int;
    lemma_payouts(s, capitals, profits, n);
    let total = sum_to(payouts(s, capitals, profits), n);
    let num = s.h_num as int;
    let den = s.h_den as int;
    if loser == 0 {
        assert(total - winner <= 0) by (nonlinear_arith)
            requires
                (total - winner) * den <= 0 * num,
                den == 1,
        ;
    } else {
        assert(total - winner <= num) by (nonlinear_arith)
            requires
                (total - winner) * den <= den * num,
                den > 0,
        ;
    }
}

proof fn lemma_payouts(s: Settlement, capitals: Seq<int>, profits: Seq<int>, n: int)
    requires
        0 <= n <= capitals.len(),
        capitals.len() == profits.len(),
        weights_ok(profits),
        s.h_den > 0,
    ensures
        (sum_to(payouts(s, capitals, profits), n) - sum_to(capitals, n)) * (s.h_den as int)
            <= sum_to(profits, n) * (s.h_num as int),
    decreases n,
{
    let num = s.h_num as int;
    let den = s.h_den as int;
    if n > 0 {
        lemma_payouts(s, capitals, profits, n - 1);
        let a = sum_to(payouts(s, capitals, profits), n - 1) - sum_to(capitals, n - 1);
        let p = profits[n - 1];
        let q = (p * num) / den;
        let b = sum_to(profits, n - 1);
        assert(q * den <= p * num) by (nonlinear_arith)
            requires
                q == (p * num) / den,
                den > 0,
        ;
        assert((a + q) * den == a * den + q * den && (b + p) * num == b * num + p * num)
            by (nonlinear_arith);
    } else {
        assert(0 * den == 0 && 0 * num == 0) by (nonlinear_arith);
    }
}

} // verus!

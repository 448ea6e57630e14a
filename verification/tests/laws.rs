use percolator::trade::is_valid_fill;
use percolator::types::{MAX_ACCOUNTS, MAX_ORACLE_PRICE, MAX_POSITION_ABS};
use percolator::{
    AccountKind, MatchingEngine, NoOpMatcher, RiskEngine, RiskError, RiskParams, TradeExecution,
    I128, U128,
};

const PRICE: u64 = 100_000_000;

fn params() -> RiskParams {
    RiskParams {
        warmup_period_slots: 100,
        maintenance_margin_bps: 500,
        initial_margin_bps: 1000,
        trading_fee_bps: 0,
        max_accounts: MAX_ACCOUNTS as u64,
        new_account_fee: U128::new(0),
        risk_reduction_threshold: U128::new(0),
        maintenance_fee_per_slot: U128::new(0),
        max_crank_staleness_slots: u64::MAX,
        liquidation_fee_bps: 0,
        liquidation_fee_cap: U128::new(1_000_000_000),
        liquidation_buffer_bps: 100,
        min_liquidation_abs: U128::new(0),
    }
}

fn engine_with(params: RiskParams) -> RiskEngine {
    RiskEngine::new(params)
}

/// A provider and a user with a million each, and some insurance.
fn market() -> (RiskEngine, u16, u16) {
    let mut engine = engine_with(params());
    let lp = engine.add_lp([1; 32], [2; 32], 0).unwrap();
    let user = engine.add_user(0).unwrap();
    engine.deposit(lp, 1_000_000, 1).unwrap();
    engine.deposit(user, 1_000_000, 1).unwrap();
    engine.top_up_insurance_fund(1_000).unwrap();
    (engine, lp, user)
}

fn give_profit(engine: &mut RiskEngine, idx: u16, pnl: i128) {
    engine.accounts[idx as usize].pnl = I128::new(pnl);
}

fn pnl(engine: &RiskEngine, idx: u16) -> i128 {
    engine.accounts[idx as usize].pnl.get()
}

fn capital(engine: &RiskEngine, idx: u16) -> u128 {
    engine.accounts[idx as usize].capital.get()
}

fn position(engine: &RiskEngine, idx: u16) -> i128 {
    engine.accounts[idx as usize].position_size.get()
}

struct Fills(u64, i128);

impl MatchingEngine for Fills {
    fn execute_match(
        &self,
        _lp_program: &[u8; 32],
        _lp_context: &[u8; 32],
        _lp_account_id: u64,
        _oracle_price: u64,
        _size: i128,
    ) -> Result<TradeExecution, RiskError> {
        Ok(TradeExecution { price: self.0, size: self.1 })
    }
}

struct Refuses;

impl MatchingEngine for Refuses {
    fn execute_match(
        &self,
        _lp_program: &[u8; 32],
        _lp_context: &[u8; 32],
        _lp_account_id: u64,
        _oracle_price: u64,
        _size: i128,
    ) -> Result<TradeExecution, RiskError> {
        Err(RiskError::Unauthorized)
    }
}

#[test]
fn losses_are_shared_in_proportion_to_profit() {
    let mut engine = engine_with(params());
    let a = engine.add_user(0).unwrap();
    let b = engine.add_user(0).unwrap();
    engine.deposit(a, 500, 0).unwrap();
    give_profit(&mut engine, a, 60);
    give_profit(&mut engine, b, 40);
    engine.apply_adl(50).unwrap();
    assert_eq!(pnl(&engine, a), 30);
    assert_eq!(pnl(&engine, b), 20);
    assert_eq!(capital(&engine, a), 500);
    assert_eq!(engine.loss_accum.get(), 0);
}

#[test]
fn cuts_add_up_to_the_loss_exactly() {
    let mut engine = engine_with(params());
    let ids: Vec<u16> = (0..3).map(|_| engine.add_user(0).unwrap()).collect();
    for i in &ids {
        give_profit(&mut engine, *i, 10);
    }
    engine.apply_adl(20).unwrap();
    // Six each, and a unit more from the first two.
    assert_eq!(pnl(&engine, ids[0]), 3);
    assert_eq!(pnl(&engine, ids[1]), 3);
    assert_eq!(pnl(&engine, ids[2]), 4);
}

#[test]
fn an_exempt_account_bears_nothing() {
    let mut engine = engine_with(params());
    let a = engine.add_user(0).unwrap();
    let b = engine.add_user(0).unwrap();
    give_profit(&mut engine, a, 60);
    give_profit(&mut engine, b, 40);
    engine.apply_adl_excluding(30, a as usize).unwrap();
    assert_eq!(pnl(&engine, a), 60);
    assert_eq!(pnl(&engine, b), 10);
    engine.adl_exclude_scratch[b as usize] = 1;
    engine.apply_adl_excluding_set(25).unwrap();
    assert_eq!(pnl(&engine, a), 35);
    assert_eq!(pnl(&engine, b), 10);
}

#[test]
fn what_profit_cannot_bear_insurance_does_above_the_floor() {
    let mut p = params();
    p.risk_reduction_threshold = U128::new(100);
    let mut engine = engine_with(p);
    let a = engine.add_user(0).unwrap();
    engine.top_up_insurance_fund(150).unwrap();
    give_profit(&mut engine, a, 30);
    engine.apply_adl(100).unwrap();
    assert_eq!(pnl(&engine, a), 0);
    assert_eq!(engine.insurance_fund.balance.get(), 100);
    assert_eq!(engine.loss_accum.get(), 20);
    assert!(engine.risk_reduction_only);
    assert!(engine.warmup_paused);
}

#[test]
fn matured_profit_is_not_cut() {
    let mut engine = engine_with(params());
    let a = engine.add_user(0).unwrap();
    give_profit(&mut engine, a, 100);
    engine.update_warmup_slope(a).unwrap();
    engine.advance_slot(60);
    assert_eq!(engine.withdrawable_pnl(&engine.accounts[a as usize]), 60);
    engine.apply_adl(70).unwrap();
    assert_eq!(pnl(&engine, a), 60);
    assert_eq!(engine.loss_accum.get(), 30);
}

#[test]
fn profit_matures_over_the_period() {
    let (mut engine, _lp, user) = market();
    give_profit(&mut engine, user, 500);
    engine.update_warmup_slope(user).unwrap();
    // Nothing in the same slot.
    engine.settle_warmup_to_capital(user).unwrap();
    assert_eq!(capital(&engine, user), 1_000_000);
    // Five per slot.
    engine.advance_slot(10);
    engine.settle_warmup_to_capital(user).unwrap();
    assert_eq!(capital(&engine, user), 1_000_050);
    assert_eq!(pnl(&engine, user), 450);
    // Settled twice in a slot, once converted.
    engine.settle_warmup_to_capital(user).unwrap();
    assert_eq!(capital(&engine, user), 1_000_050);
    engine.advance_slot(90);
    engine.settle_warmup_to_capital(user).unwrap();
    assert_eq!(capital(&engine, user), 1_000_500);
    assert_eq!(pnl(&engine, user), 0);
    assert_eq!(engine.warmed_pos_total.get(), 500);
    assert_eq!(engine.warmup_insurance_reserved.get(), 500);
}

#[test]
fn profit_is_converted_only_as_far_as_it_is_backed() {
    let (mut engine, _lp, user) = market();
    give_profit(&mut engine, user, 5_000);
    engine.update_warmup_slope(user).unwrap();
    engine.advance_slot(100);
    assert_eq!(engine.warmup_budget_remaining(), 1_000);
    engine.settle_warmup_to_capital(user).unwrap();
    assert_eq!(capital(&engine, user), 1_001_000);
    assert_eq!(pnl(&engine, user), 4_000);
    assert_eq!(engine.warmup_insurance_reserved.get(), 1_000);
    // The reserve is not spent on losses.
    engine.apply_adl(4_100).unwrap();
    assert_eq!(pnl(&engine, user), 0);
    assert_eq!(engine.insurance_fund.balance.get(), 1_000);
    assert_eq!(engine.loss_accum.get(), 100);
}

#[test]
fn a_paused_warmup_stands_still() {
    let (mut engine, _lp, user) = market();
    give_profit(&mut engine, user, 500);
    engine.update_warmup_slope(user).unwrap();
    engine.enter_risk_reduction_only_mode();
    engine.advance_slot(1_000);
    assert_eq!(engine.effective_warmup_slot(), 1);
    engine.settle_warmup_to_capital(user).unwrap();
    assert_eq!(capital(&engine, user), 1_000_000);
}

#[test]
fn losses_are_paid_at_once() {
    let (mut engine, _lp, user) = market();
    give_profit(&mut engine, user, -1_200_000);
    engine.settle_warmup_to_capital(user).unwrap();
    assert_eq!(capital(&engine, user), 0);
    assert_eq!(pnl(&engine, user), -200_000);
    assert_eq!(engine.warmed_neg_total.get(), 1_000_000);
}

#[test]
fn trades_and_liquidations_conserve_value() {
    let (mut engine, lp, user) = market();
    assert!(engine.check_conservation(PRICE));
    engine.execute_trade(&NoOpMatcher, lp, user, 2, PRICE, 50_000).unwrap();
    assert_eq!(position(&engine, user), 50_000);
    assert_eq!(position(&engine, lp), -50_000);
    assert_eq!(engine.total_open_interest.get(), 100_000);
    assert_eq!(engine.get_net_lp_pos(), -50_000);
    assert!(engine.check_conservation(PRICE));
    assert!(engine.check_conservation(PRICE + 7_777_777));
    engine.keeper_crank(u16::MAX, 5, PRICE + 3, 10, false).unwrap();
    assert!(engine.check_conservation(PRICE + 3));
    engine.deposit(user, 123, 6).unwrap();
    assert!(engine.check_conservation(PRICE + 3));
    engine.withdraw(user, 23, 7, PRICE + 3).unwrap();
    assert!(engine.check_conservation(PRICE + 3));
}

#[test]
fn a_fill_off_the_oracle_price_is_zero_sum() {
    let (mut engine, lp, user) = market();
    engine
        .execute_trade(&Fills(PRICE - 1_000_000, 10_000), lp, user, 2, PRICE, 10_000)
        .unwrap();
    assert_eq!(pnl(&engine, user), 10_000);
    assert_eq!(capital(&engine, lp), 990_000);
    assert_eq!(engine.accounts[user as usize].entry_price, PRICE);
    assert!(engine.check_conservation(PRICE));
}

#[test]
fn a_trading_fee_goes_to_insurance_and_comes_back_as_credits() {
    let mut p = params();
    p.trading_fee_bps = 10;
    let mut engine = engine_with(p);
    let lp = engine.add_lp([1; 32], [2; 32], 0).unwrap();
    let user = engine.add_user(0).unwrap();
    engine.deposit(lp, 1_000_000, 1).unwrap();
    engine.deposit(user, 1_000_000, 1).unwrap();
    engine.execute_trade(&NoOpMatcher, lp, user, 2, PRICE, 10_000).unwrap();
    // A notional of a million, ten basis points of it.
    assert_eq!(engine.insurance_fund.balance.get(), 1_000);
    assert_eq!(engine.accounts[user as usize].fee_credits.get(), 1_000);
    assert_eq!(capital(&engine, user), 999_000);
    assert!(engine.check_conservation(PRICE));
}

#[test]
fn funding_rounds_in_favour_of_the_vault() {
    let (mut engine, lp, user) = market();
    engine.execute_trade(&NoOpMatcher, lp, user, 2, PRICE, 33_333).unwrap();
    engine.accrue_funding(5, PRICE, 7).unwrap();
    // 100 a unit, 7 basis points, 5 slots.
    assert_eq!(engine.funding_index_qpb_e6.get(), 350_000);
    engine.settle_all_funding().unwrap();
    // Of 11666.55 one pays a full unit more than the other receives.
    assert_eq!(pnl(&engine, user), -11_667);
    assert_eq!(pnl(&engine, lp), 11_666);
    assert!(engine.check_conservation(PRICE));
    // Settled twice, paid once.
    engine.touch_account(user).unwrap();
    assert_eq!(pnl(&engine, user), -11_667);
}

#[test]
fn a_partial_liquidation_restores_the_target_margin() {
    let mut p = params();
    p.liquidation_fee_bps = 10;
    let mut engine = engine_with(p);
    let lp = engine.add_lp([1; 32], [2; 32], 0).unwrap();
    let user = engine.add_user(0).unwrap();
    engine.deposit(lp, 100_000_000, 1).unwrap();
    engine.deposit(user, 1_100_000, 1).unwrap();
    engine.top_up_insurance_fund(1).unwrap();
    engine.execute_trade(&NoOpMatcher, lp, user, 2, PRICE, 100_000).unwrap();
    assert!(!engine.liquidate_at_oracle(user, 3, PRICE).unwrap());
    // A notional of 9.4 million calls for 470 thousand; the equity is 500 thousand.
    assert!(!engine.liquidate_at_oracle(user, 3, 94_000_000).unwrap());
    // At 93 the equity is 400 thousand: 465 thousand is called for.
    assert!(engine.liquidate_at_oracle(user, 3, 93_000_000).unwrap());
    // 400000 * 10^10 / (93000000 * 600) is 71684, less one.
    assert_eq!(position(&engine, user), 71_683);
    let closed = 100_000u128 - 71_683;
    let fee = closed * 93 / 1_000;
    assert_eq!(capital(&engine, user), 400_000 - fee);
    assert_eq!(engine.insurance_fund.balance.get(), 1 + fee);
    assert!(engine.is_above_maintenance_margin_mtm(&engine.accounts[user as usize], 93_000_000));
    assert!(engine.check_conservation(93_000_000));
    assert_eq!(engine.total_open_interest.get(), 171_683);
}

#[test]
fn a_full_liquidation_socializes_what_capital_cannot_pay() {
    let mut engine = engine_with(params());
    let lp = engine.add_lp([1; 32], [2; 32], 0).unwrap();
    let user = engine.add_user(0).unwrap();
    engine.deposit(lp, 100_000_000, 1).unwrap();
    engine.deposit(user, 1_100_000, 1).unwrap();
    engine.top_up_insurance_fund(500_000).unwrap();
    engine.execute_trade(&NoOpMatcher, lp, user, 2, PRICE, 100_000).unwrap();
    // A fall of 15 costs 1.5 million: 400 thousand more than there is.
    let oracle = 85_000_000;
    engine.settle_mark_to_oracle(lp, oracle).unwrap();
    assert_eq!(pnl(&engine, lp), 1_500_000);
    assert!(engine.liquidate_at_oracle(user, 3, oracle).unwrap());
    assert_eq!(position(&engine, user), 0);
    assert_eq!(capital(&engine, user), 0);
    assert_eq!(pnl(&engine, user), 0);
    assert_eq!(pnl(&engine, lp), 1_100_000);
    assert_eq!(engine.insurance_fund.balance.get(), 500_000);
    assert!(engine.check_conservation(oracle));
}

#[test]
fn a_crank_liquidates_and_settles_what_is_pending() {
    let mut engine = engine_with(params());
    let lp = engine.add_lp([1; 32], [2; 32], 0).unwrap();
    let user = engine.add_user(0).unwrap();
    engine.deposit(lp, 100_000_000, 1).unwrap();
    engine.deposit(user, 1_100_000, 1).unwrap();
    engine.top_up_insurance_fund(500_000).unwrap();
    engine.execute_trade(&NoOpMatcher, lp, user, 2, PRICE, 100_000).unwrap();
    let outcome = engine.keeper_crank(u16::MAX, 3, 85_000_000, 0, false).unwrap();
    assert_eq!(outcome.num_liquidations, 1);
    assert_eq!(outcome.num_liq_errors, 0);
    assert!(outcome.sweep_complete);
    assert_eq!(engine.lifetime_liquidations, 1);
    // The provider had no realized profit to take from: insurance pays.
    assert_eq!(engine.insurance_fund.balance.get(), 100_000);
    assert_eq!(engine.pending_unpaid_loss.get(), 0);
    // The empty account is collected.
    assert_eq!(outcome.num_gc_closed, 1);
    assert!(!engine.is_used(user as usize));
    assert!(engine.is_used(lp as usize));
    assert!(engine.check_conservation(85_000_000));
}

#[test]
fn an_emergency_settlement_leaves_no_position() {
    let (mut engine, lp, user) = market();
    engine.execute_trade(&NoOpMatcher, lp, user, 2, PRICE, 50_000).unwrap();
    engine.panic_settle_all(101_000_000).unwrap();
    assert_eq!(position(&engine, user), 0);
    assert_eq!(position(&engine, lp), 0);
    assert_eq!(engine.total_open_interest.get(), 0);
    assert_eq!(engine.get_net_lp_pos(), 0);
    assert_eq!(pnl(&engine, user), 0);
    assert!(engine.risk_reduction_only);
    assert!(engine.check_conservation(101_000_000));
    assert_eq!(engine.panic_settle_all(0), Err(RiskError::Overflow));
}

#[test]
fn losses_are_realized_by_force_only_at_the_floor() {
    let (mut engine, lp, user) = market();
    engine.execute_trade(&NoOpMatcher, lp, user, 2, PRICE, 50_000).unwrap();
    assert_eq!(engine.force_realize_losses(PRICE), Err(RiskError::Unauthorized));
    engine.set_risk_reduction_threshold(1_000);
    engine.force_realize_losses(99_000_000).unwrap();
    assert_eq!(position(&engine, user), 0);
    assert_eq!(position(&engine, lp), 0);
    assert_eq!(capital(&engine, user), 950_000);
    assert_eq!(pnl(&engine, lp), 50_000);
    assert!(engine.check_conservation(99_000_000));
}

#[test]
fn account_ids_are_never_given_again() {
    let mut engine = engine_with(params());
    let a = engine.add_user(0).unwrap();
    let b = engine.add_user(0).unwrap();
    assert_eq!(engine.close_account(a, 1, PRICE), Ok(0));
    let c = engine.add_lp([0; 32], [0; 32], 0).unwrap();
    // The slot is taken again, the id is not.
    assert_eq!(c, a);
    assert_eq!(engine.accounts[b as usize].account_id, 1);
    assert_eq!(engine.accounts[c as usize].account_id, 2);
    assert_eq!(engine.accounts[c as usize].kind, AccountKind::LP);
    assert_eq!(engine.num_used_accounts, 2);
}

#[test]
fn operations_touch_only_their_account() {
    let (mut engine, lp, user) = market();
    let other = engine.add_user(0).unwrap();
    engine.deposit(other, 77, 1).unwrap();
    give_profit(&mut engine, other, 9);
    let before = engine.accounts[other as usize];
    engine.execute_trade(&NoOpMatcher, lp, user, 2, PRICE, 1_000).unwrap();
    engine.deposit(user, 5, 3).unwrap();
    engine.withdraw(user, 5, 4, PRICE).unwrap();
    engine.touch_account_full(user, 5, PRICE).unwrap();
    assert_eq!(engine.accounts[other as usize], before);
}

#[test]
fn fees_of_a_slot_are_charged_once() {
    let mut p = params();
    p.maintenance_fee_per_slot = U128::new(3);
    let mut engine = engine_with(p);
    let user = engine.add_user(0).unwrap();
    engine.deposit(user, 1_000, 0).unwrap();
    assert_eq!(engine.settle_maintenance_fee(user, 10, PRICE), Ok(30));
    assert_eq!(engine.settle_maintenance_fee(user, 10, PRICE), Ok(0));
    assert_eq!(capital(&engine, user), 970);
    assert_eq!(engine.insurance_fund.balance.get(), 30);
    assert!(engine.check_conservation(PRICE));
}

#[test]
fn a_crank_forgives_half_of_the_callers_slots() {
    let mut p = params();
    p.maintenance_fee_per_slot = U128::new(3);
    let mut engine = engine_with(p);
    let user = engine.add_user(0).unwrap();
    engine.deposit(user, 1_000, 0).unwrap();
    let outcome = engine.keeper_crank(user, 10, PRICE, 0, false).unwrap();
    assert_eq!(outcome.slots_forgiven, 5);
    assert!(outcome.advanced);
    assert_eq!(capital(&engine, user), 985);
}

#[test]
fn errors_of_withdrawals_and_closes() {
    let (mut engine, lp, user) = market();
    assert_eq!(engine.withdraw(user, 1, 2, 0), Err(RiskError::Overflow));
    assert_eq!(engine.withdraw(user, 1, 2, MAX_ORACLE_PRICE + 1), Err(RiskError::Overflow));
    assert_eq!(engine.withdraw(999, 1, 2, PRICE), Err(RiskError::AccountNotFound));
    assert_eq!(
        engine.withdraw(user, 1_000_001, 2, PRICE),
        Err(RiskError::InsufficientBalance)
    );
    engine.execute_trade(&NoOpMatcher, lp, user, 2, PRICE, 50_000).unwrap();
    // The position needs half a million at first.
    assert_eq!(
        engine.withdraw(user, 500_001, 3, PRICE),
        Err(RiskError::Undercollateralized)
    );
    assert_eq!(engine.close_account(user, 3, PRICE), Err(RiskError::Undercollateralized));
    engine.execute_trade(&NoOpMatcher, lp, user, 3, PRICE, -50_000).unwrap();
    give_profit(&mut engine, user, 10);
    assert_eq!(engine.close_account(user, 3, PRICE), Err(RiskError::PnlNotWarmedUp));
    give_profit(&mut engine, user, 0);
    engine.pending_unpaid_loss = U128::new(1);
    assert_eq!(engine.withdraw(user, 1, 3, PRICE), Err(RiskError::Unauthorized));
    assert_eq!(engine.close_account(user, 3, PRICE), Err(RiskError::Unauthorized));
    engine.pending_unpaid_loss = U128::new(0);
    assert_eq!(engine.close_account(user, 3, PRICE), Ok(1_000_000));
    assert_eq!(engine.close_account(user, 3, PRICE), Err(RiskError::AccountNotFound));
}

#[test]
fn an_account_with_unpaid_fees_does_not_close() {
    let (mut engine, _lp, user) = market();
    engine.withdraw(user, 1_000_000, 2, PRICE).unwrap();
    engine.accounts[user as usize].fee_credits = I128::new(-1);
    assert_eq!(engine.close_account(user, 2, PRICE), Err(RiskError::InsufficientBalance));
}

#[test]
fn errors_of_trades() {
    let (mut engine, lp, user) = market();
    let noop = NoOpMatcher;
    assert_eq!(
        engine.execute_trade(&noop, user, lp, 2, PRICE, 10),
        Err(RiskError::AccountKindMismatch)
    );
    assert_eq!(
        engine.execute_trade(&noop, lp, 99, 2, PRICE, 10),
        Err(RiskError::AccountNotFound)
    );
    assert_eq!(engine.execute_trade(&noop, lp, user, 2, 0, 10), Err(RiskError::Overflow));
    assert_eq!(engine.execute_trade(&noop, lp, user, 2, PRICE, 0), Err(RiskError::Overflow));
    assert_eq!(
        engine.execute_trade(&noop, lp, user, 2, PRICE, MAX_POSITION_ABS as i128 + 1),
        Err(RiskError::Overflow)
    );
    assert_eq!(
        engine.execute_trade(&Fills(0, 10), lp, user, 2, PRICE, 10),
        Err(RiskError::InvalidMatchingEngine)
    );
    assert_eq!(
        engine.execute_trade(&Refuses, lp, user, 2, PRICE, 10),
        Err(RiskError::Unauthorized)
    );
    assert_eq!(
        engine.execute_trade(&noop, lp, user, 2, PRICE, 300_000),
        Err(RiskError::Undercollateralized)
    );
    assert_eq!(engine.execute_trade(&Fills(PRICE, 0), lp, user, 2, PRICE, 10), Ok(()));
    engine.enter_risk_reduction_only_mode();
    assert_eq!(
        engine.execute_trade(&noop, lp, user, 2, PRICE, 10),
        Err(RiskError::RiskReductionOnlyMode)
    );
    assert_eq!(position(&engine, user), 0);
}

#[test]
fn a_stale_crank_stops_trades() {
    let mut p = params();
    p.max_crank_staleness_slots = 10;
    let mut engine = engine_with(p);
    let lp = engine.add_lp([1; 32], [2; 32], 0).unwrap();
    let user = engine.add_user(0).unwrap();
    engine.deposit(lp, 1_000_000, 1).unwrap();
    engine.deposit(user, 1_000_000, 1).unwrap();
    engine.top_up_insurance_fund(1).unwrap();
    assert_eq!(
        engine.execute_trade(&NoOpMatcher, lp, user, 11, PRICE, 10),
        Err(RiskError::Unauthorized)
    );
    engine.keeper_crank(u16::MAX, 11, PRICE, 0, false).unwrap();
    assert_eq!(engine.execute_trade(&NoOpMatcher, lp, user, 11, PRICE, 10), Ok(()));
}

#[test]
fn opening_costs_the_fee() {
    let mut p = params();
    p.new_account_fee = U128::new(50);
    p.max_accounts = 1;
    let mut engine = engine_with(p);
    assert_eq!(engine.add_user(49), Err(RiskError::InsufficientBalance));
    let user = engine.add_user(80).unwrap();
    assert_eq!(capital(&engine, user), 30);
    assert_eq!(engine.insurance_fund.balance.get(), 50);
    assert_eq!(engine.vault.get(), 80);
    assert_eq!(engine.add_user(50), Err(RiskError::Overflow));
    assert!(engine.check_conservation(PRICE));
}

#[test]
fn deposits_pay_fees_owed_first() {
    let mut p = params();
    p.maintenance_fee_per_slot = U128::new(5);
    let mut engine = engine_with(p);
    let user = engine.add_user(0).unwrap();
    engine.deposit(user, 100, 4).unwrap();
    assert_eq!(capital(&engine, user), 80);
    assert_eq!(engine.insurance_fund.balance.get(), 20);
    assert_eq!(engine.deposit(77, 1, 4), Err(RiskError::AccountNotFound));
}

#[test]
fn funding_is_refused_out_of_range() {
    let mut engine = engine_with(params());
    assert_eq!(engine.accrue_funding(5, 0, 1), Err(RiskError::Overflow));
    assert_eq!(engine.accrue_funding(5, PRICE, 10_001), Err(RiskError::Overflow));
    assert_eq!(engine.accrue_funding(5, PRICE, i64::MIN), Err(RiskError::Overflow));
    assert_eq!(engine.accrue_funding(31_536_001, PRICE, 1), Err(RiskError::Overflow));
    assert_eq!(engine.accrue_funding(5, PRICE, -10_000), Ok(()));
    assert_eq!(engine.funding_index_qpb_e6.get(), -500_000_000);
}

#[test]
fn fills_are_valid_within_the_request() {
    let fill = |price: u64, size: i128| TradeExecution { price, size };
    assert!(is_valid_fill(10, fill(PRICE, 10)));
    assert!(is_valid_fill(10, fill(PRICE, 3)));
    assert!(is_valid_fill(10, fill(PRICE, 0)));
    assert!(!is_valid_fill(10, fill(PRICE, 11)));
    assert!(!is_valid_fill(10, fill(PRICE, -3)));
    assert!(!is_valid_fill(10, fill(0, 3)));
    assert!(!is_valid_fill(10, fill(MAX_ORACLE_PRICE + 1, 3)));
    assert!(!is_valid_fill(-10, fill(PRICE, i128::MIN)));
}

#[test]
fn marks_and_margins_have_exact_values() {
    let (engine, _lp, user) = market();
    assert_eq!(RiskEngine::mark_pnl_for_position(3, PRICE, PRICE + 500_000), Ok(1));
    assert_eq!(RiskEngine::mark_pnl_for_position(-3, PRICE, PRICE + 500_000), Ok(-1));
    assert_eq!(
        RiskEngine::mark_pnl_for_position(i128::MAX, PRICE, PRICE + 500_000),
        Err(RiskError::Overflow)
    );
    let mut account = engine.accounts[user as usize];
    account.position_size = I128::new(-20_000);
    account.entry_price = PRICE;
    account.pnl = I128::new(-400_000);
    // A million, less 400 thousand, less 200 thousand of mark loss.
    assert_eq!(engine.account_equity_mtm_at_oracle(&account, 110_000_000), 400_000);
    // A notional of 2.2 million: 110 thousand at 5 percent.
    assert!(engine.is_above_margin_bps_mtm(&account, 110_000_000, 1_800));
    assert!(!engine.is_above_margin_bps_mtm(&account, 110_000_000, 1_819));
    assert_eq!(engine.compute_liquidation_close_amount(&account, 110_000_000), (1, false));
}

#[test]
fn a_slab_is_full_when_all_slots_are_taken() {
    let mut engine = engine_with(params());
    for i in 0..MAX_ACCOUNTS {
        assert_eq!(engine.add_user(0), Ok(i as u16));
    }
    assert_eq!(engine.add_user(0), Err(RiskError::Overflow));
    assert_eq!(engine.close_account(17, 0, PRICE), Ok(0));
    assert_eq!(engine.add_user(0), Ok(17));
}

#[test]
fn a_crank_processes_a_bounded_number_of_accounts() {
    let mut engine = engine_with(params());
    engine.top_up_insurance_fund(1).unwrap();
    for _ in 0..300 {
        let user = engine.add_user(0).unwrap();
        engine.deposit(user, 1, 0).unwrap();
    }
    let first = engine.keeper_crank(u16::MAX, 1, PRICE, 0, false).unwrap();
    assert!(!first.sweep_complete);
    assert_eq!(first.last_cursor, 256);
    let second = engine.keeper_crank(u16::MAX, 2, PRICE, 0, false).unwrap();
    assert!(second.sweep_complete);
    assert_eq!(engine.last_full_sweep_start_slot, 1);
    assert_eq!(engine.last_full_sweep_completed_slot, 2);
}

#[test]
fn a_fee_settlement_tells_what_fell_due() {
    let mut p = params();
    p.maintenance_fee_per_slot = U128::new(10);
    let mut engine = engine_with(p);
    let user = engine.add_user(0).unwrap();
    engine.deposit(user, 50, 1).unwrap();
    assert_eq!(capital(&engine, user), 40);
    engine.add_fee_credits(user, 30).unwrap();
    let revenue = engine.insurance_fund.fee_revenue.get();
    // Of the hundred that fall due, credits pay thirty and capital forty.
    assert_eq!(engine.settle_maintenance_fee(user, 11, PRICE), Ok(100));
    assert_eq!(engine.insurance_fund.fee_revenue.get() - revenue, 40);
    assert_eq!(capital(&engine, user), 0);
    assert_eq!(engine.accounts[user as usize].fee_credits.get(), -30);
    assert_eq!(engine.settle_maintenance_fee(user, 11, PRICE), Ok(0));
    assert_eq!(
        engine.settle_maintenance_fee(user + 1, 12, PRICE),
        Err(RiskError::Unauthorized)
    );
}

#[test]
fn nothing_stays_pending_after_a_sweep() {
    let mut p = params();
    p.risk_reduction_threshold = U128::new(1_000);
    let mut engine = engine_with(p);
    engine.top_up_insurance_fund(1_100).unwrap();
    engine.pending_profit_to_fund = U128::new(250);
    engine.pending_unpaid_loss = U128::new(70);
    engine.finalize_pending_after_window();
    // A hundred above the floor is spent, and the rest is accumulated.
    assert_eq!(engine.insurance_fund.balance.get(), 1_000);
    assert_eq!(engine.loss_accum.get(), 220);
    assert_eq!(engine.pending_profit_to_fund.get(), 0);
    assert_eq!(engine.pending_unpaid_loss.get(), 0);
    assert!(engine.risk_reduction_only);
    assert!(engine.warmup_paused);
    assert_eq!(engine.vault.get(), 1_100);
    // With nothing pending there is nothing to do.
    let before = engine.insurance_fund.balance.get();
    engine.finalize_pending_after_window();
    assert_eq!(engine.insurance_fund.balance.get(), before);
}

#[test]
fn insurance_pays_what_is_pending_if_it_can() {
    let mut engine = engine_with(params());
    engine.top_up_insurance_fund(500).unwrap();
    engine.pending_profit_to_fund = U128::new(250);
    engine.pending_unpaid_loss = U128::new(70);
    engine.finalize_pending_after_window();
    assert_eq!(engine.insurance_fund.balance.get(), 180);
    assert_eq!(engine.loss_accum.get(), 0);
    assert_eq!(engine.pending_profit_to_fund.get(), 0);
    assert_eq!(engine.pending_unpaid_loss.get(), 0);
    assert!(!engine.risk_reduction_only);
}

#[test]
fn the_loss_of_a_dust_account_is_shared() {
    let mut engine = engine_with(params());
    let user = engine.add_user(0).unwrap();
    give_profit(&mut engine, user, -5);
    assert_eq!(engine.garbage_collect_dust(), 1);
    assert!(!engine.is_used(user as usize));
    assert_eq!(engine.pending_unpaid_loss.get(), 0);
    assert_eq!(engine.loss_accum.get(), 5);
    assert!(engine.risk_reduction_only);
    assert_eq!(engine.vault.get(), 0);
}

#[test]
fn the_losses_of_dust_accounts_are_taken_off_profits_first() {
    let (mut engine, lp, user) = market();
    let dust = engine.add_user(0).unwrap();
    let more = engine.add_user(0).unwrap();
    give_profit(&mut engine, dust, -300);
    give_profit(&mut engine, more, -100);
    give_profit(&mut engine, lp, 750);
    give_profit(&mut engine, user, 250);
    assert_eq!(engine.garbage_collect_dust(), 2);
    assert_eq!(pnl(&engine, lp), 450);
    assert_eq!(pnl(&engine, user), 150);
    assert_eq!(engine.insurance_fund.balance.get(), 1_000);
    assert_eq!(engine.loss_accum.get(), 0);
    assert_eq!(engine.pending_unpaid_loss.get(), 0);
    assert!(engine.is_used(lp as usize) && engine.is_used(user as usize));
}

#[test]
fn the_loss_of_a_dust_account_is_booked_once_if_shares_overflow() {
    let (mut engine, lp, user) = market();
    let dust = engine.add_user(0).unwrap();
    give_profit(&mut engine, dust, -(1 << 100));
    give_profit(&mut engine, lp, 1_000);
    give_profit(&mut engine, user, 1 << 100);
    assert_eq!(engine.garbage_collect_dust(), 1);
    // No profit is cut; insurance pays what it has, and the rest is accumulated.
    assert_eq!(pnl(&engine, lp), 1_000);
    assert_eq!(pnl(&engine, user), 1 << 100);
    assert_eq!(engine.insurance_fund.balance.get(), 0);
    assert_eq!(engine.loss_accum.get(), (1 << 100) - 1_000);
    assert_eq!(engine.pending_unpaid_loss.get(), 0);
}

#[test]
fn a_forced_close_keeps_profit_young() {
    let (mut engine, lp, user) = market();
    engine.execute_trade(&NoOpMatcher, lp, user, 2, PRICE, 50_000).unwrap();
    give_profit(&mut engine, user, 700);
    engine.update_warmup_slope(user).unwrap();
    engine.current_slot = 1_000;
    engine.force_close_position_deferred(user as usize, PRICE).unwrap();
    assert_eq!(engine.accounts[user as usize].warmup_started_at_slot, 1_000);
    assert_eq!(engine.accounts[user as usize].warmup_slope_per_step.get(), 7);
    assert_eq!(engine.withdrawable_pnl(&engine.accounts[user as usize]), 0);
    // While warmups are frozen the clock starts where they were.
    engine.enter_risk_reduction_only_mode();
    engine.current_slot = 1_500;
    engine.force_close_position_deferred(lp as usize, PRICE).unwrap();
    assert_eq!(engine.accounts[lp as usize].warmup_started_at_slot, 1_000);
}

#[test]
fn nothing_has_matured_after_a_trade() {
    let (mut engine, lp, user) = market();
    give_profit(&mut engine, user, 700);
    give_profit(&mut engine, lp, 500);
    engine.update_warmup_slope(user).unwrap();
    engine.update_warmup_slope(lp).unwrap();
    engine.current_slot = 50;
    assert!(engine.withdrawable_pnl(&engine.accounts[user as usize]) > 0);
    engine.execute_trade(&NoOpMatcher, lp, user, 60, PRICE, 50_000).unwrap();
    for idx in [lp, user] {
        assert_eq!(engine.accounts[idx as usize].warmup_started_at_slot, 60);
        assert_eq!(engine.withdrawable_pnl(&engine.accounts[idx as usize]), 0);
    }
}

#[test]
fn forced_realization_leaves_no_exposure_of_providers() {
    let mut p = params();
    p.risk_reduction_threshold = U128::new(1_000);
    let mut engine = engine_with(p);
    let lp = engine.add_lp([1; 32], [2; 32], 0).unwrap();
    let user = engine.add_user(0).unwrap();
    engine.deposit(lp, 1_000_000, 1).unwrap();
    engine.deposit(user, 1_000_000, 1).unwrap();
    engine.top_up_insurance_fund(1_001).unwrap();
    engine.execute_trade(&NoOpMatcher, lp, user, 2, PRICE, 50_000).unwrap();
    assert_eq!(engine.get_net_lp_pos(), -50_000);
    assert_eq!(engine.get_lp_sum_abs(), 50_000);
    engine.insurance_fund.balance = U128::new(1_000);
    engine.force_realize_losses(99_000_000).unwrap();
    assert_eq!(position(&engine, lp), 0);
    assert_eq!(engine.get_net_lp_pos(), 0);
    assert_eq!(engine.get_lp_sum_abs(), 0);
    assert_eq!(engine.lp_max_abs.get(), 0);
}

#[test]
fn closes_keep_the_exposure_of_providers() {
    let (mut engine, lp, user) = market();
    engine.execute_trade(&NoOpMatcher, lp, user, 2, PRICE, 50_000).unwrap();
    engine.oracle_close_position_slice_core(lp, PRICE, 20_000).unwrap();
    assert_eq!(position(&engine, lp), -30_000);
    assert_eq!(engine.get_net_lp_pos(), -30_000);
    assert_eq!(engine.get_lp_sum_abs(), 30_000);
    assert_eq!(engine.total_open_interest.get(), 80_000);
    engine.oracle_close_position_core(lp, PRICE).unwrap();
    assert_eq!(engine.get_net_lp_pos(), 0);
    assert_eq!(engine.get_lp_sum_abs(), 0);
    engine.oracle_close_position_core(user, PRICE).unwrap();
    assert_eq!(engine.get_net_lp_pos(), 0);
    assert_eq!(engine.total_open_interest.get(), 0);
}

#[test]
fn a_crank_tells_whether_its_callers_fees_were_settled() {
    let (mut engine, lp, user) = market();
    engine.execute_trade(&NoOpMatcher, lp, user, 2, PRICE, 50_000).unwrap();
    engine.params.maintenance_fee_per_slot = U128::new(1);
    let outcome = engine.keeper_crank(user, 4, PRICE, 0, false).unwrap();
    assert_eq!(outcome.slots_forgiven, 1);
    assert!(outcome.caller_settle_ok);
    // The fees of ten slots eat up the capital.
    engine.params.maintenance_fee_per_slot = U128::new(100_000);
    let outcome = engine.keeper_crank(user, 24, PRICE, 0, false).unwrap();
    assert_eq!(outcome.slots_forgiven, 10);
    assert!(!outcome.caller_settle_ok);
    assert_eq!(capital(&engine, user), 0);
    let outcome = engine.keeper_crank(u16::MAX, 25, PRICE, 0, false).unwrap();
    assert!(outcome.caller_settle_ok);
}

#[test]
fn withdrawals_in_risk_reduction_mode_are_counted() {
    let (mut engine, _lp, user) = market();
    engine.withdraw(user, 100, 2, PRICE).unwrap();
    assert_eq!(engine.risk_reduction_mode_withdrawn.get(), 0);
    engine.enter_risk_reduction_only_mode();
    assert!(engine.warmup_paused);
    engine.withdraw(user, 30, 2, PRICE).unwrap();
    assert_eq!(engine.risk_reduction_mode_withdrawn.get(), 30);
    assert_eq!(engine.close_account(user, 2, PRICE), Ok(999_870));
    assert_eq!(engine.risk_reduction_mode_withdrawn.get(), 999_900);
    engine.exit_risk_reduction_only_mode_if_safe();
    assert!(!engine.warmup_paused);
    assert_eq!(engine.risk_reduction_mode_withdrawn.get(), 0);
}

#[test]
fn the_largest_position_is_known_while_a_sweep_is_under_way() {
    let (mut engine, lp, user) = market();
    for _ in 0..300 {
        engine.add_user(0).unwrap();
    }
    let first = engine.keeper_crank(u16::MAX, 2, PRICE, 0, false).unwrap();
    assert!(!first.sweep_complete);
    assert_eq!(engine.get_lp_max_abs(), 0);
    engine.execute_trade(&NoOpMatcher, lp, user, 3, PRICE, 50_000).unwrap();
    assert_eq!(engine.get_lp_max_abs(), 50_000);
    let second = engine.keeper_crank(u16::MAX, 4, PRICE, 0, false).unwrap();
    assert!(second.sweep_complete);
    assert_eq!(engine.get_lp_max_abs(), 50_000);
    assert_eq!(engine.compute_lp_risk_units(), 56_250);
    // A smaller position shows once a whole sweep has passed.
    engine.execute_trade(&NoOpMatcher, lp, user, 5, PRICE, -20_000).unwrap();
    assert_eq!(engine.get_lp_max_abs(), 50_000);
    let mut slot = 6;
    while !engine.keeper_crank(u16::MAX, slot, PRICE, 0, false).unwrap().sweep_complete {
        slot += 1;
    }
    assert_eq!(engine.get_lp_max_abs(), 30_000);
}

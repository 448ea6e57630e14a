use percolator::prediction::{
    create_market, settle_market, MarketRule, Outcome, Pools, PredictionError, TokenSnapshot,
    TokenStatus,
};

fn mint(byte: u8) -> [u8; 32] {
    [byte; 32]
}

#[test]
fn rejects_non_migrated_token_on_market_creation() {
    let token = TokenStatus {
        mint: mint(7),
        migrated_to_pumpswap: false,
    };

    let err = create_market(
        token,
        1,
        100,
        200,
        MarketRule::MarketCapAtCloseAtLeast {
            target_quote_units: 1_000_000,
        },
    )
    .unwrap_err();

    assert_eq!(err, PredictionError::TokenNotMigrated);
}

#[test]
fn full_coverage_settlement_pays_full_profit() {
    let token = TokenStatus {
        mint: mint(1),
        migrated_to_pumpswap: true,
    };
    let market = create_market(
        token,
        42,
        100,
        200,
        MarketRule::MarketCapAtCloseAtLeast {
            target_quote_units: 1_000_000,
        },
    )
    .unwrap();
    let snapshot = TokenSnapshot {
        mint: mint(1),
        migrated_to_pumpswap: true,
        market_cap_quote_units: 2_000_000,
        snapshot_slot: 201,
    };
    let pools = Pools {
        yes_capital: 100,
        no_capital: 40,
    };

    let settlement = settle_market(&market, &snapshot, pools, 140).unwrap();
    assert_eq!(settlement.outcome, Outcome::Yes);
    assert_eq!(settlement.h_num, 40);
    assert_eq!(settlement.h_den, 40);
    assert_eq!(settlement.winner_payout_total, 140);
}

#[test]
fn stressed_settlement_applies_haircut() {
    let token = TokenStatus {
        mint: mint(2),
        migrated_to_pumpswap: true,
    };
    let market = create_market(
        token,
        7,
        10,
        20,
        MarketRule::MarketCapAtCloseAtLeast {
            target_quote_units: 5_000_000,
        },
    )
    .unwrap();
    let snapshot = TokenSnapshot {
        mint: mint(2),
        migrated_to_pumpswap: true,
        market_cap_quote_units: 6_000_000,
        snapshot_slot: 21,
    };
    let pools = Pools {
        yes_capital: 100,
        no_capital: 80,
    };

    // Only 130 units are available, so winner profit is partially funded.
    let settlement = settle_market(&market, &snapshot, pools, 130).unwrap();
    assert_eq!(settlement.h_num, 30);
    assert_eq!(settlement.h_den, 80);
    assert_eq!(settlement.winner_profit_paid, 30);
    assert_eq!(settlement.winner_payout_total, 130);
}

#[test]
fn never_pays_more_than_available_vault() {
    let token = TokenStatus {
        mint: mint(3),
        migrated_to_pumpswap: true,
    };
    let market = create_market(
        token,
        99,
        5,
        15,
        MarketRule::MarketCapAtCloseAtLeast {
            target_quote_units: 10_000,
        },
    )
    .unwrap();
    let snapshot = TokenSnapshot {
        mint: mint(3),
        migrated_to_pumpswap: true,
        market_cap_quote_units: 100,
        snapshot_slot: 16,
    };
    let pools = Pools {
        yes_capital: 70,
        no_capital: 30,
    };
    let available = 20;

    let settlement = settle_market(&market, &snapshot, pools, available).unwrap();
    assert!(settlement.winner_payout_total <= available);
}

fn market_and_snapshot(cap: u128) -> (percolator::prediction::Market, TokenSnapshot) {
    let market = create_market(
        TokenStatus { mint: mint(5), migrated_to_pumpswap: true },
        1,
        10,
        20,
        MarketRule::MarketCapAtCloseAtLeast { target_quote_units: 1_000 },
    )
    .unwrap();
    let snapshot = TokenSnapshot {
        mint: mint(5),
        migrated_to_pumpswap: true,
        market_cap_quote_units: cap,
        snapshot_slot: 20,
    };
    (market, snapshot)
}

#[test]
fn a_market_closes_after_it_is_created() {
    let token = TokenStatus { mint: mint(7), migrated_to_pumpswap: true };
    let rule = MarketRule::MarketCapAtCloseAtLeast { target_quote_units: 1 };
    assert_eq!(
        create_market(token, 1, 100, 100, rule).unwrap_err(),
        PredictionError::InvalidCloseSlot
    );
    assert!(create_market(token, 1, 100, 101, rule).is_ok());
}

#[test]
fn a_snapshot_must_fit_the_market() {
    let (market, snapshot) = market_and_snapshot(1_000);
    let pools = Pools { yes_capital: 5, no_capital: 0 };
    let early = TokenSnapshot { snapshot_slot: 19, ..snapshot };
    let other = TokenSnapshot { mint: mint(6), ..snapshot };
    let stuck = TokenSnapshot { migrated_to_pumpswap: false, ..snapshot };
    assert_eq!(
        settle_market(&market, &early, pools, 5).unwrap_err(),
        PredictionError::SnapshotBeforeClose
    );
    assert_eq!(
        settle_market(&market, &other, pools, 5).unwrap_err(),
        PredictionError::SnapshotTokenMismatch
    );
    assert_eq!(
        settle_market(&market, &stuck, pools, 5).unwrap_err(),
        PredictionError::SnapshotNotMigrated
    );
    assert!(settle_market(&market, &snapshot, pools, 5).is_ok());
}

#[test]
fn nobody_wins_an_empty_side() {
    let (market, snapshot) = market_and_snapshot(999);
    let pools = Pools { yes_capital: 5, no_capital: 0 };
    assert_eq!(
        settle_market(&market, &snapshot, pools, 5).unwrap_err(),
        PredictionError::EmptyWinnerSide
    );
}

#[test]
fn capital_comes_before_profit() {
    let (market, snapshot) = market_and_snapshot(999);
    let pools = Pools { yes_capital: 50, no_capital: 100 };
    let settled = settle_market(&market, &snapshot, pools, 120).unwrap();
    assert_eq!(settled.outcome, Outcome::No);
    assert_eq!(settled.residual, 20);
    assert_eq!(settled.winner_profit_paid, 20);
    assert_eq!((settled.h_num, settled.h_den), (20, 50));
    assert_eq!(settled.winner_payout_total, 120);
    // Without losers the ratio is one.
    let alone = Pools { yes_capital: 0, no_capital: 100 };
    let settled = settle_market(&market, &snapshot, alone, 120).unwrap();
    assert_eq!((settled.h_num, settled.h_den), (1, 1));
    assert_eq!(settled.winner_payout_total, 100);
}

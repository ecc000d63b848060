use trading_backend::db::portfolio::MarketExposure;
use trading_backend::db::positions::{
    charge_redeem_fee, check_exercise_funds, decide_exercise, decide_redeem, OptionContract, OptionTerms, Redeemable,
};
use trading_backend::db::settlement::{
    decide_settle_market, settlement_payouts, AccountPosition, ConstituentSettlement,
    SettleMarketInfo,
};
use trading_backend::db::ValidationFailure;
use trading_backend::money::DecimalParts;

fn dec(mantissa: i128, scale: u32) -> DecimalParts {
    DecimalParts { mantissa, scale }
}

fn market(owner_id: i64) -> SettleMarketInfo {
    SettleMarketInfo {
        owner_id,
        already_settled: false,
        is_option: false,
        min_settlement: 1000,
        max_settlement: 2000,
    }
}

#[test]
fn settle_market_checks_owner_price_and_state() {
    assert_eq!(decide_settle_market(market(1), 1, false, dec(15, 0), &vec![]), Ok(1500));
    assert_eq!(
        decide_settle_market(market(1), 2, false, dec(15, 0), &vec![]),
        Err(ValidationFailure::NotMarketOwner)
    );
    // An admin in sudo mode may settle someone else's market.
    assert_eq!(decide_settle_market(market(1), 2, true, dec(15, 0), &vec![]), Ok(1500));
    assert_eq!(
        decide_settle_market(market(1), 1, false, dec(25, 0), &vec![]),
        Err(ValidationFailure::InvalidSettlementPrice)
    );
    assert_eq!(
        decide_settle_market(market(1), 1, false, dec(15001, 3), &vec![]),
        Err(ValidationFailure::InvalidSettlementPrice)
    );
    let settled = SettleMarketInfo { already_settled: true, ..market(1) };
    assert_eq!(
        decide_settle_market(settled, 1, false, dec(15, 0), &vec![]),
        Err(ValidationFailure::MarketSettled)
    );
    let option = SettleMarketInfo { is_option: true, ..market(1) };
    assert_eq!(
        decide_settle_market(option, 1, false, dec(15, 0), &vec![]),
        Err(ValidationFailure::NotOptionMarket)
    );
}

#[test]
fn fund_settles_at_its_constituents() {
    let fund = SettleMarketInfo { min_settlement: 0, max_settlement: 10_000, ..market(1) };
    let cs = vec![
        ConstituentSettlement { settled_price: Some(1500), multiplier: 2 },
        ConstituentSettlement { settled_price: Some(500), multiplier: -1 },
    ];
    assert_eq!(decide_settle_market(fund, 1, false, dec(0, 0), &cs), Ok(2500));
    let unsettled = vec![ConstituentSettlement { settled_price: None, multiplier: 1 }];
    assert_eq!(
        decide_settle_market(fund, 1, false, dec(0, 0), &unsettled),
        Err(ValidationFailure::ConstituentNotSettled)
    );
}

#[test]
fn settlement_pays_each_position_and_nets_to_zero() {
    let positions = vec![
        AccountPosition { account_id: 1, position: 150 },
        AccountPosition { account_id: 2, position: -100 },
        AccountPosition { account_id: 3, position: -50 },
    ];
    let payouts = settlement_payouts(&positions, 1500);
    assert_eq!(payouts.len(), 3);
    assert_eq!(payouts[0].account_id, 1);
    assert_eq!(payouts[0].change, 225_000);
    assert_eq!(payouts[1].change, -150_000);
    assert_eq!(payouts[2].change, -75_000);
    let total: i128 = payouts.iter().map(|p| p.change).sum();
    assert_eq!(total, 0);
}

#[test]
fn redeem_moves_fund_and_constituents() {
    let rs = vec![
        Redeemable { fund_id: 9, constituent_id: 3, multiplier: 2 },
        Redeemable { fund_id: 9, constituent_id: 4, multiplier: -1 },
    ];
    let changes = decide_redeem(dec(15, 1), 9, &rs, false).unwrap();
    assert_eq!(changes.len(), 3);
    assert_eq!((changes[0].market_id, changes[0].delta), (9, -150));
    assert_eq!((changes[1].market_id, changes[1].delta), (3, 300));
    assert_eq!((changes[2].market_id, changes[2].delta), (4, -150));
    assert_eq!(decide_redeem(dec(0, 0), 9, &rs, false).unwrap_err(), ValidationFailure::InvalidAmount);
    assert_eq!(decide_redeem(dec(1001, 3), 9, &rs, false).unwrap_err(), ValidationFailure::InvalidAmount);
    assert_eq!(decide_redeem(dec(1, 0), 9, &vec![], false).unwrap_err(), ValidationFailure::MarketNotRedeemable);
    assert_eq!(decide_redeem(dec(1, 0), 9, &rs, true).unwrap_err(), ValidationFailure::MarketSettled);
}

#[test]
fn redeem_fee_needs_available_balance() {
    assert_eq!(charge_redeem_fee(1_000_000, 5_000, 10_000), Err(ValidationFailure::InsufficientFunds));
    assert_eq!(charge_redeem_fee(1_000_000, 50_000, 10_000), Ok(990_000));
}

fn contract() -> OptionContract {
    OptionContract { id: 1, option_market_id: 5, buyer_id: 1, writer_id: 2, remaining_amount: 300 }
}

fn call() -> OptionTerms {
    OptionTerms { underlying_market_id: 4, strike_price: 1200, is_call: true, expiration: Some(1_000) }
}

#[test]
fn exercising_a_call_before_settlement_buys_at_the_strike() {
    let e = decide_exercise(1, 5, dec(1, 0), Some(contract()), Some(call()), false, None, 500).unwrap();
    assert!(!e.is_cash_settled);
    assert_eq!(e.exerciser_cash_change, -120_000);
    assert_eq!(e.exerciser_underlying_change, 100);
    assert_eq!(e.writer_cash_change, 120_000);
    assert_eq!(e.writer_underlying_change, -100);
    assert_eq!(e.amount, 100);
    assert_eq!(e.new_remaining_amount, 300 - 100);
    assert_eq!(e.exerciser_option_change, -100);
    assert_eq!(e.writer_option_change, 100);
}

#[test]
fn exercise_funds_are_checked_after_the_moves() {
    let short = MarketExposure {
        market_id: 2,
        position: -100,
        total_bid_size: 0,
        total_offer_size: 0,
        total_bid_value: 0,
        total_offer_value: 0,
        min_settlement: 0,
        max_settlement: 2000,
    };
    // Worst case of the short: -100 * 2000 = -200_000 money units.
    assert_eq!(check_exercise_funds(Some(300_000), &vec![short], Some(0), &vec![]), Ok(()));
    assert_eq!(
        check_exercise_funds(Some(100_000), &vec![short], Some(0), &vec![]),
        Err(ValidationFailure::InsufficientFunds)
    );
    assert_eq!(
        check_exercise_funds(Some(0), &vec![], Some(100_000), &vec![short]),
        Err(ValidationFailure::InsufficientFunds)
    );
    assert_eq!(check_exercise_funds(None, &vec![], Some(0), &vec![]), Err(ValidationFailure::AccountNotFound));
    assert_eq!(check_exercise_funds(Some(0), &vec![], None, &vec![]), Err(ValidationFailure::AccountNotFound));
}

#[test]
fn exercising_after_settlement_pays_intrinsic_value() {
    let e = decide_exercise(1, 5, dec(2, 0), Some(contract()), Some(call()), false, Some(1500), 5_000).unwrap();
    assert!(e.is_cash_settled);
    assert_eq!(e.exerciser_cash_change, 200 * 300);
    assert_eq!(e.exerciser_underlying_change, 0);
    let put = OptionTerms { is_call: false, ..call() };
    let e = decide_exercise(1, 5, dec(2, 0), Some(contract()), Some(put), false, Some(1500), 5_000).unwrap();
    assert_eq!(e.exerciser_cash_change, 0);
}

#[test]
fn exercise_refusals() {
    assert_eq!(
        decide_exercise(1, 5, dec(1, 0), Some(contract()), Some(call()), false, None, 2_000).unwrap_err(),
        ValidationFailure::OptionExpired
    );
    assert_eq!(
        decide_exercise(2, 5, dec(1, 0), Some(contract()), Some(call()), false, None, 0).unwrap_err(),
        ValidationFailure::NotContractBuyer
    );
    assert_eq!(
        decide_exercise(1, 5, dec(4, 0), Some(contract()), Some(call()), false, None, 0).unwrap_err(),
        ValidationFailure::InvalidAmount
    );
    assert_eq!(
        decide_exercise(1, 5, dec(1, 0), None, Some(call()), false, None, 0).unwrap_err(),
        ValidationFailure::ContractNotFound
    );
    assert_eq!(
        decide_exercise(1, 5, dec(1, 0), Some(contract()), None, false, None, 0).unwrap_err(),
        ValidationFailure::NotOptionMarket
    );
    assert_eq!(
        decide_exercise(1, 5, dec(1, 0), Some(contract()), Some(call()), true, None, 0).unwrap_err(),
        ValidationFailure::MarketSettled
    );
}

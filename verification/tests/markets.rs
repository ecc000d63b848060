use trading_backend::db::markets::{
    compute_fund_bounds, decide_create_market, decide_create_market_group,
    decide_create_market_type, decide_delete_market_type, decide_edit_market, effective_type_id,
    CreateMarketInput, CreateMarketLookups, MarketBounds, OptionInput, RedeemableInput,
};
use trading_backend::db::ValidationFailure;
use trading_backend::money::DecimalParts;

fn dec(mantissa: i128, scale: u32) -> DecimalParts {
    DecimalParts { mantissa, scale }
}

fn lookups() -> CreateMarketLookups {
    CreateMarketLookups {
        underlying: None,
        constituents: vec![],
        market_type_public: Some(true),
        group_type_id: None,
        universe_owner: None,
    }
}

fn plain(min: i128, max: i128) -> CreateMarketInput {
    CreateMarketInput {
        min_settlement: dec(min, 0),
        max_settlement: dec(max, 0),
        redeem_fee: dec(0, 0),
        redeemable_for: vec![],
        option: None,
        type_id: 0,
        group_id: 0,
    }
}

#[test]
fn plain_market_uses_requested_bounds() {
    let plan = decide_create_market(&plain(10, 20), false, 1, 0, &lookups()).unwrap();
    assert_eq!((plan.min_settlement, plan.max_settlement), (1000, 2000));
    assert_eq!(plan.type_id, 1);
    assert_eq!(plan.group_id, None);
    assert_eq!(plan.redeem_fee, 0);
    assert_eq!(
        decide_create_market(&plain(20, 10), false, 1, 0, &lookups()).unwrap_err(),
        ValidationFailure::InvalidSettlement
    );
    let with_fee = CreateMarketInput { redeem_fee: dec(1, 0), ..plain(10, 20) };
    assert_eq!(
        decide_create_market(&with_fee, false, 1, 0, &lookups()).unwrap_err(),
        ValidationFailure::InvalidRedeemFee
    );
}

#[test]
fn category_and_universe_rules() {
    let private = CreateMarketLookups { market_type_public: Some(false), ..lookups() };
    assert_eq!(
        decide_create_market(&plain(10, 20), false, 1, 0, &private).unwrap_err(),
        ValidationFailure::MarketTypeNotPublic
    );
    assert!(decide_create_market(&plain(10, 20), true, 1, 0, &private).is_ok());
    let missing = CreateMarketLookups { market_type_public: None, ..lookups() };
    assert_eq!(
        decide_create_market(&plain(10, 20), false, 1, 0, &missing).unwrap_err(),
        ValidationFailure::MarketTypeNotFound
    );
    let other_owner = CreateMarketLookups { universe_owner: Some(Some(7)), ..lookups() };
    assert_eq!(
        decide_create_market(&plain(10, 20), false, 1, 3, &other_owner).unwrap_err(),
        ValidationFailure::NotUniverseOwner
    );
    let own = CreateMarketLookups { universe_owner: Some(Some(1)), ..lookups() };
    assert!(decide_create_market(&plain(10, 20), false, 1, 3, &own).is_ok());
    let grouped = CreateMarketInput { group_id: 4, type_id: 2, ..plain(10, 20) };
    let group_lookup = CreateMarketLookups { group_type_id: Some(3), ..lookups() };
    assert_eq!(
        decide_create_market(&grouped, true, 1, 0, &group_lookup).unwrap_err(),
        ValidationFailure::MarketGroupTypeMismatch
    );
    let matching = CreateMarketLookups { group_type_id: Some(2), ..lookups() };
    assert_eq!(decide_create_market(&grouped, true, 1, 0, &matching).unwrap().group_id, Some(4));
}

#[test]
fn fund_bounds_follow_constituents() {
    let rs = vec![
        RedeemableInput { constituent_id: 3, multiplier: 2 },
        RedeemableInput { constituent_id: 4, multiplier: -1 },
    ];
    let cs = vec![
        Some(MarketBounds { min_settlement: 0, max_settlement: 1000, settled: false }),
        Some(MarketBounds { min_settlement: 500, max_settlement: 1500, settled: false }),
    ];
    assert_eq!(compute_fund_bounds(&rs, &cs), Ok((-1500, 1500)));
    let settled = vec![cs[0], Some(MarketBounds { settled: true, ..cs[1].unwrap() })];
    assert_eq!(compute_fund_bounds(&rs, &settled), Err(true));
    let missing = vec![cs[0], None];
    assert_eq!(compute_fund_bounds(&rs, &missing), Err(false));

    let fund = CreateMarketInput { redeemable_for: rs.clone(), redeem_fee: dec(5, 2), ..plain(0, 0) };
    let lk = CreateMarketLookups { constituents: cs, ..lookups() };
    let plan = decide_create_market(&fund, false, 1, 0, &lk).unwrap();
    assert_eq!((plan.min_settlement, plan.max_settlement, plan.redeem_fee), (-1500, 1500, 500));
    let zero = CreateMarketInput {
        redeemable_for: vec![RedeemableInput { constituent_id: 3, multiplier: 0 }],
        ..plain(0, 0)
    };
    assert_eq!(
        decide_create_market(&zero, false, 1, 0, &lk).unwrap_err(),
        ValidationFailure::InvalidMultiplier
    );
}

#[test]
fn option_market_bounds_and_permissions() {
    let option = CreateMarketInput {
        option: Some(OptionInput { underlying_market_id: 4, strike_price: dec(12, 0), is_call: true }),
        ..plain(0, 0)
    };
    let lk = CreateMarketLookups {
        underlying: Some(MarketBounds { min_settlement: 1000, max_settlement: 2000, settled: false }),
        ..lookups()
    };
    assert_eq!(
        decide_create_market(&option, false, 1, 0, &lk).unwrap_err(),
        ValidationFailure::SudoRequired
    );
    let plan = decide_create_market(&option, true, 1, 0, &lk).unwrap();
    assert_eq!((plan.min_settlement, plan.max_settlement), (0, 800));
    assert_eq!(plan.option_strike, Some(1200));
}

#[test]
fn category_and_group_decisions() {
    assert_eq!(effective_type_id(0), 1);
    assert_eq!(effective_type_id(5), 5);
    assert_eq!(decide_delete_market_type(false, Some(2)), Err(ValidationFailure::MarketTypeNotFound));
    assert_eq!(decide_delete_market_type(true, None), Err(ValidationFailure::CannotDeleteLastMarketType));
    assert_eq!(decide_delete_market_type(true, Some(2)), Ok(2));
    assert_eq!(decide_create_market_group(true, true), Err(ValidationFailure::MarketGroupNameExists));
    assert_eq!(decide_create_market_group(false, false), Err(ValidationFailure::MarketTypeNotFound));
    assert_eq!(decide_create_market_group(false, true), Ok(()));
    assert_eq!(decide_create_market_type(true), Err(ValidationFailure::MarketTypeNameExists));
    assert_eq!(decide_create_market_type(false), Ok(()));
    assert_eq!(decide_edit_market(false, false, 1, 1), Err(ValidationFailure::InvalidMarketStatus));
    assert_eq!(decide_edit_market(true, true, 1, 1), Err(ValidationFailure::MarketNotRedeemable));
    assert_eq!(decide_edit_market(true, false, 1, 2), Ok(true));
    assert_eq!(decide_edit_market(true, false, 2, 2), Ok(false));
}

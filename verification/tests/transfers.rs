use trading_backend::db::credits::{
    floor_div, rebalance_owner_credits, redistribute_owner_credit, split_proportionally,
};
use trading_backend::db::portfolio::{OwnerCredit, Portfolio};
use trading_backend::db::transfers::{
    decide_transfer, execute_credit_transfer, find_owner_credit, validate_transfer_amount,
    TransferParties,
};
use trading_backend::db::ValidationFailure;
use trading_backend::money::DecimalParts;

fn dec(mantissa: i128, scale: u32) -> DecimalParts {
    DecimalParts { mantissa, scale }
}

fn portfolio(account_id: i64, balance: i128, credits: Vec<OwnerCredit>) -> Portfolio {
    Portfolio {
        account_id,
        total_balance: balance,
        available_balance: balance,
        market_exposures: vec![],
        owner_credits: credits,
        traded_market_ids: vec![],
    }
}

fn parties(from: Portfolio, to: Portfolio) -> TransferParties {
    TransferParties {
        initiator_is_user: true,
        from: Some(from),
        to: Some(to),
        from_universe: 0,
        to_universe: 0,
        from_has_open_positions: false,
        to_has_open_positions: false,
    }
}

#[test]
fn transfer_amounts() {
    assert_eq!(validate_transfer_amount(dec(10, 0)), Ok(100_000));
    assert_eq!(validate_transfer_amount(dec(12345, 4)), Ok(12_345));
    assert_eq!(validate_transfer_amount(dec(123450, 5)), Ok(12_345));
    assert_eq!(validate_transfer_amount(dec(1, 5)), Err(ValidationFailure::InvalidAmount));
    assert_eq!(validate_transfer_amount(dec(0, 0)), Err(ValidationFailure::InvalidAmount));
    assert_eq!(validate_transfer_amount(dec(-5, 0)), Err(ValidationFailure::InvalidAmount));
}

#[test]
fn user_to_user_transfer_moves_the_amount() {
    // A user gives 10 to a user account nobody owns: balances 100 and 100.
    let p = parties(portfolio(1, 1_000_000, vec![]), portfolio(2, 1_000_000, vec![]));
    let plan = decide_transfer(None, 1, 1, 2, dec(10, 0), &p).unwrap();
    assert_eq!(plan.amount, 100_000);
    assert_eq!(plan.from_new_balance, 900_000);
    assert_eq!(plan.to_new_balance, 1_100_000);
    assert_eq!(plan.from_new_balance + plan.to_new_balance, 2_000_000);
    assert_eq!(plan.credit_update, None);
    assert_eq!(plan.recorded_initiator_id, 1);
}

#[test]
fn transfer_refusals() {
    let p = parties(portfolio(1, 1_000_000, vec![]), portfolio(2, 0, vec![]));
    assert_eq!(decide_transfer(None, 1, 1, 1, dec(1, 0), &p).unwrap_err(), ValidationFailure::SameAccount);
    assert_eq!(decide_transfer(None, 1, 1, 2, dec(0, 0), &p).unwrap_err(), ValidationFailure::InvalidAmount);
    assert_eq!(
        decide_transfer(None, 1, 1, 2, dec(1000, 0), &p).unwrap_err(),
        ValidationFailure::InsufficientFunds
    );
    let other_universe = TransferParties { to_universe: 3, ..parties(portfolio(1, 1_000_000, vec![]), portfolio(2, 0, vec![])) };
    assert_eq!(
        decide_transfer(None, 1, 1, 2, dec(1, 0), &other_universe).unwrap_err(),
        ValidationFailure::CrossUniverseTransfer
    );
    // Into an account owned by someone else.
    let owned = parties(
        portfolio(1, 1_000_000, vec![]),
        portfolio(2, 0, vec![OwnerCredit { owner_id: 5, credit: 0 }]),
    );
    assert_eq!(decide_transfer(None, 1, 1, 2, dec(1, 0), &owned).unwrap_err(), ValidationFailure::AccountNotOwned);
}

#[test]
fn deposit_and_withdrawal_move_owner_credit() {
    // Owner 1 deposits 10 into its account 2: its credit there grows.
    let deposit = parties(
        portfolio(1, 1_000_000, vec![]),
        portfolio(2, 0, vec![OwnerCredit { owner_id: 1, credit: 50_000 }]),
    );
    let plan = decide_transfer(None, 1, 1, 2, dec(10, 0), &deposit).unwrap();
    let update = plan.credit_update.unwrap();
    assert_eq!((update.account_id, update.owner_id, update.credit), (2, 1, 150_000));

    // Withdrawing 10 from account 2 back to owner 1 lowers the credit.
    let withdrawal = parties(
        portfolio(2, 1_000_000, vec![OwnerCredit { owner_id: 1, credit: 150_000 }]),
        portfolio(1, 0, vec![]),
    );
    let plan = decide_transfer(None, 1, 2, 1, dec(10, 0), &withdrawal).unwrap();
    assert_eq!(plan.credit_update.unwrap().credit, 50_000);
    let too_much = parties(
        portfolio(2, 1_000_000, vec![OwnerCredit { owner_id: 1, credit: 50_000 }]),
        portfolio(1, 0, vec![]),
    );
    assert_eq!(
        decide_transfer(None, 1, 2, 1, dec(10, 0), &too_much).unwrap_err(),
        ValidationFailure::InsufficientCredit
    );
}

#[test]
fn credit_transfer_rules() {
    let owner = portfolio(1, 0, vec![]);
    let shared = portfolio(2, 0, vec![OwnerCredit { owner_id: 1, credit: 1 }, OwnerCredit { owner_id: 3, credit: 1 }]);
    assert_eq!(
        execute_credit_transfer(1, &owner, &shared, true, 5).unwrap_err(),
        ValidationFailure::SharedOwnershipAccountHasOpenPositions
    );
    assert_eq!(execute_credit_transfer(9, &owner, &shared, false, 5).unwrap_err(), ValidationFailure::AccountNotOwned);
    let u = execute_credit_transfer(1, &owner, &shared, false, 5).unwrap();
    assert_eq!((u.account_id, u.owner_id, u.credit), (2, 1, 5));
    assert_eq!(find_owner_credit(&shared.owner_credits, 3), Some(1));
    assert_eq!(find_owner_credit(&shared.owner_credits, 4), None);
}

#[test]
fn floor_division_rounds_down() {
    assert_eq!(floor_div(7, 2), 3);
    assert_eq!(floor_div(-7, 2), -4);
    assert_eq!(floor_div(7, -2), -4);
    assert_eq!(floor_div(-7, -2), 3);
}

#[test]
fn proportional_split_always_adds_up() {
    let shares = split_proportionally(100, &vec![1, 1, 1]);
    assert_eq!(shares.iter().sum::<i128>(), 100);
    // Each share is 33 or 34.
    assert!(shares.iter().all(|s| *s == 33 || *s == 34));
    assert_eq!(shares.iter().filter(|s| **s == 34).count(), 1);
    let exact = split_proportionally(1000, &vec![1, 3]);
    assert_eq!(exact, vec![250, 750]);
}

#[test]
fn rebalancing_scales_credits_to_the_account_value() {
    let credits = vec![OwnerCredit { owner_id: 1, credit: 300 }, OwnerCredit { owner_id: 2, credit: 100 }];
    // The account is worth 800 now: credits double.
    let new = rebalance_owner_credits(&credits, false, 800, &vec![]).unwrap();
    assert_eq!((new[0].owner_id, new[0].credit), (1, 600));
    assert_eq!((new[1].owner_id, new[1].credit), (2, 200));
    // Credits the account holds elsewhere count too.
    let new = rebalance_owner_credits(&credits, false, 700, &vec![100]).unwrap();
    assert_eq!(new[0].credit + new[1].credit, 800);
    // Nothing changes while positions are open, without owners, or when
    // already balanced.
    assert!(rebalance_owner_credits(&credits, true, 800, &vec![]).is_none());
    assert!(rebalance_owner_credits(&vec![], false, 800, &vec![]).is_none());
    assert!(rebalance_owner_credits(&credits, false, 400, &vec![]).is_none());
    let zero = vec![OwnerCredit { owner_id: 1, credit: 0 }];
    assert!(rebalance_owner_credits(&zero, false, 400, &vec![]).is_none());
    // An uneven split keeps the total.
    let three = vec![
        OwnerCredit { owner_id: 1, credit: 1 },
        OwnerCredit { owner_id: 2, credit: 1 },
        OwnerCredit { owner_id: 3, credit: 1 },
    ];
    let new = rebalance_owner_credits(&three, false, 100, &vec![]).unwrap();
    assert_eq!(new.iter().map(|c| c.credit).sum::<i128>(), 100);
}

#[test]
fn redistributing_a_leaving_owners_credit() {
    let credits = vec![
        OwnerCredit { owner_id: 1, credit: 600 },
        OwnerCredit { owner_id: 2, credit: 300 },
        OwnerCredit { owner_id: 3, credit: 100 },
    ];
    let new = redistribute_owner_credit(&credits, 1).unwrap();
    assert_eq!(new[0].credit, 0);
    assert_eq!(new[1].credit, 300 + 450);
    assert_eq!(new[2].credit, 100 + 150);
    assert_eq!(new.iter().map(|c| c.credit).sum::<i128>(), 1000);

    // Others with nothing share equally.
    let even = vec![
        OwnerCredit { owner_id: 1, credit: 101 },
        OwnerCredit { owner_id: 2, credit: 0 },
        OwnerCredit { owner_id: 3, credit: 0 },
    ];
    let new = redistribute_owner_credit(&even, 1).unwrap();
    assert_eq!(new[0].credit, 0);
    assert_eq!(new[1].credit + new[2].credit, 101);
    assert!((new[1].credit == 50 && new[2].credit == 51) || (new[1].credit == 51 && new[2].credit == 50));

    assert_eq!(redistribute_owner_credit(&vec![], 1).unwrap_err(), ValidationFailure::AccountNotFound);
    assert_eq!(redistribute_owner_credit(&credits, 9).unwrap_err(), ValidationFailure::NotOwner);
    let alone = vec![OwnerCredit { owner_id: 1, credit: 5 }];
    assert_eq!(redistribute_owner_credit(&alone, 1).unwrap()[0].credit, 5);
    let nothing = vec![OwnerCredit { owner_id: 1, credit: 0 }, OwnerCredit { owner_id: 2, credit: 7 }];
    let same = redistribute_owner_credit(&nothing, 1).unwrap();
    assert_eq!((same[0].credit, same[1].credit), (0, 7));
}

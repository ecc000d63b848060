use trading_backend::db::auctions::{
    decide_auction_change, settle_auction_balances, split_percent_tenths,
    validate_auction_settlement, AuctionInfo, Contribution, ContributionInput,
    SettleAuctionRequest,
};
use trading_backend::db::ValidationFailure;
use trading_backend::money::DecimalParts;

fn dec(mantissa: i128, scale: u32) -> DecimalParts {
    DecimalParts { mantissa, scale }
}

fn request(price: i128, contributions: Vec<ContributionInput>, owner_id: Option<i64>) -> SettleAuctionRequest {
    SettleAuctionRequest {
        price: Some(dec(price, 0)),
        price_negative: price < 0,
        price_is_buy_now_marker: false,
        buyer_id: 0,
        contributions,
        owner_id,
    }
}

fn info() -> AuctionInfo {
    AuctionInfo { settled: false, buy_now_price: None, seller_id: 3 }
}

fn part(buyer_id: i64, amount: i128) -> ContributionInput {
    ContributionInput { buyer_id, amount: Some(dec(amount, 0)) }
}

#[test]
fn split_sale_with_labelled_owner() {
    // The painting sells for 100: alice (1) pays 60, bob (2) 40, alice owns it.
    let s = validate_auction_settlement(&request(100, vec![part(1, 60), part(2, 40)], Some(1)), info()).unwrap();
    assert_eq!(s.total, 10_000);
    assert_eq!(s.labeled_owner, 1);
    assert_eq!(
        s.contributions,
        vec![Contribution { buyer_id: 1, amount: 6_000 }, Contribution { buyer_id: 2, amount: 4_000 }]
    );
    let (buyers, seller) = settle_auction_balances(&s.contributions, &vec![1_000_000, 1_000_000], 0).unwrap();
    assert_eq!(buyers, vec![400_000, 600_000]);
    assert_eq!(seller, 1_000_000);
    assert_eq!(split_percent_tenths(6_000, 10_000), Some(600));
    assert_eq!(split_percent_tenths(4_000, 10_000), Some(400));
}

#[test]
fn single_buyer_and_buy_now() {
    let legacy = SettleAuctionRequest { buyer_id: 1, ..request(30, vec![], None) };
    let s = validate_auction_settlement(&legacy, info()).unwrap();
    assert_eq!((s.total, s.labeled_owner), (3_000, 1));
    assert_eq!(s.contributions, vec![Contribution { buyer_id: 1, amount: 3_000 }]);
    // The buy-it-now marker takes the stored price.
    let buy_now = SettleAuctionRequest {
        price: Some(dec(-1, 0)),
        price_negative: true,
        price_is_buy_now_marker: true,
        buyer_id: 2,
        contributions: vec![],
        owner_id: None,
    };
    let with_price = AuctionInfo { buy_now_price: Some(dec(25, 0)), ..info() };
    let s = validate_auction_settlement(&buy_now, with_price).unwrap();
    assert_eq!((s.total, s.labeled_owner), (2_500, 2));
    // Without a stored price the marker is just a negative price.
    assert!(matches!(
        validate_auction_settlement(&buy_now, info()),
        Err(ValidationFailure::InvalidSettlementPrice)
    ));
}

#[test]
fn settlement_refusals() {
    let unreadable = SettleAuctionRequest { price: None, ..request(10, vec![], None) };
    assert!(matches!(validate_auction_settlement(&unreadable, info()), Err(ValidationFailure::InvalidSettlementPrice)));
    let settled = AuctionInfo { settled: true, ..info() };
    assert!(matches!(validate_auction_settlement(&request(10, vec![part(1, 10)], None), settled), Err(ValidationFailure::MarketSettled)));
    let three_places = SettleAuctionRequest { price: Some(dec(1001, 3)), ..request(1, vec![], None) };
    assert!(matches!(validate_auction_settlement(&three_places, info()), Err(ValidationFailure::InvalidSettlementPrice)));
    assert!(matches!(
        validate_auction_settlement(&request(10, vec![part(1, -5), part(2, 15)], None), info()),
        Err(ValidationFailure::ContributionMustNotBeNegative)
    ));
    assert!(matches!(
        validate_auction_settlement(&request(10, vec![part(1, 5), part(1, 5)], None), info()),
        Err(ValidationFailure::DuplicateContributor)
    ));
    assert!(matches!(
        validate_auction_settlement(&request(10, vec![part(3, 10)], None), info()),
        Err(ValidationFailure::BuyerIsSeller)
    ));
    assert!(matches!(
        validate_auction_settlement(&request(10, vec![part(1, 5), part(2, 4)], None), info()),
        Err(ValidationFailure::ContributionsDontSumToTotal)
    ));
    assert!(matches!(
        validate_auction_settlement(&request(10, vec![part(1, 5), part(2, 5)], Some(9)), info()),
        Err(ValidationFailure::OwnerNotInContributions)
    ));
    // Several buyers and no owner picked: nobody is labelled.
    let s = validate_auction_settlement(&request(10, vec![part(1, 5), part(2, 5)], Some(0)), info()).unwrap();
    assert_eq!(s.labeled_owner, 0);
    let unreadable_part = vec![ContributionInput { buyer_id: 1, amount: None }];
    assert!(matches!(
        validate_auction_settlement(&request(10, unreadable_part, None), info()),
        Err(ValidationFailure::InvalidSettlementPrice)
    ));
}

#[test]
fn buyers_must_afford_their_part() {
    let parts = vec![Contribution { buyer_id: 1, amount: 6_000 }, Contribution { buyer_id: 2, amount: 4_000 }];
    assert_eq!(
        settle_auction_balances(&parts, &vec![1_000_000, 300_000], 0),
        Err(ValidationFailure::InsufficientFunds)
    );
}

#[test]
fn split_percentages_round_half_to_even() {
    assert_eq!(split_percent_tenths(1, 3), Some(333));
    assert_eq!(split_percent_tenths(2, 3), Some(667));
    // 0.25 % and 0.35 % of the total: ties go to the even tenth.
    assert_eq!(split_percent_tenths(1, 400), Some(2));
    assert_eq!(split_percent_tenths(7, 2000), Some(4));
    assert_eq!(split_percent_tenths(5, 0), None);
}

#[test]
fn who_may_change_an_auction() {
    assert_eq!(decide_auction_change(None, 1, true, true), Err(ValidationFailure::AuctionNotFound));
    assert_eq!(decide_auction_change(Some((1, true)), 1, false, false), Err(ValidationFailure::AuctionSettled));
    assert_eq!(decide_auction_change(Some((2, false)), 1, false, false), Err(ValidationFailure::NotAuctionOwner));
    assert_eq!(decide_auction_change(Some((2, false)), 1, true, false), Err(ValidationFailure::SudoRequired));
    assert_eq!(decide_auction_change(Some((2, true)), 1, true, true), Ok(()));
    assert_eq!(decide_auction_change(Some((1, false)), 1, false, false), Ok(()));
}

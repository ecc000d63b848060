use trading_backend::db::orders::option_contracts_for;
use trading_backend::db::orders::{
    check_funds, check_order_market, decide_cancel_order, decide_out_market, match_order,
    orders_cancelled_by_out, out_exposure, out_side, settle_fills, validate_order_request,
    OrderMarket,
};
use trading_backend::db::portfolio::{
    available_balance, update_exposure, Exposure, MarketExposure,
};
use trading_backend::db::{Order, OrderFill, Side, ValidationFailure};
use trading_backend::money::DecimalParts;

fn dec(mantissa: i128, scale: u32) -> DecimalParts {
    DecimalParts { mantissa, scale }
}

fn bid(id: i64, owner_id: i64, price: i128, size: i128) -> Order {
    Order { id, market_id: 1, owner_id, transaction_id: id, size, price, side: Side::Bid }
}

fn offer(id: i64, owner_id: i64, price: i128, size: i128) -> Order {
    Order { id, market_id: 1, owner_id, transaction_id: id, size, price, side: Side::Offer }
}

fn exposure_row(e: &Exposure) -> MarketExposure {
    MarketExposure {
        market_id: 1,
        position: e.position,
        total_bid_size: e.total_bid_size,
        total_offer_size: e.total_offer_size,
        total_bid_value: e.total_bid_value,
        total_offer_value: e.total_offer_value,
        min_settlement: 1000,
        max_settlement: 2000,
    }
}

#[test]
fn order_request_rejects_bad_prices_sizes_and_sides() {
    // 15.001 has three places.
    assert_eq!(
        validate_order_request(dec(15001, 3), dec(1, 0), 1).unwrap_err(),
        ValidationFailure::InvalidPrice
    );
    // A negative size.
    assert_eq!(
        validate_order_request(dec(15, 0), dec(-1, 0), 1).unwrap_err(),
        ValidationFailure::InvalidSize
    );
    // A zero size.
    assert_eq!(
        validate_order_request(dec(15, 0), dec(0, 0), 2).unwrap_err(),
        ValidationFailure::InvalidSize
    );
    // No side.
    assert_eq!(
        validate_order_request(dec(15, 0), dec(1, 0), 0).unwrap_err(),
        ValidationFailure::NoSideProvided
    );
    // 15.0100 normalizes to 15.01: accepted, in cents.
    let req = validate_order_request(dec(150100, 4), dec(1, 0), 2).unwrap();
    assert_eq!(req.side, Side::Offer);
    assert_eq!(req.price, 1501);
    assert_eq!(req.size, 100);
}

#[test]
fn order_market_checks() {
    let open = OrderMarket {
        min_settlement: 1000,
        max_settlement: 2000,
        settled: false,
        is_open: true,
        universe_id: 0,
    };
    assert_eq!(check_order_market(None, Some(0), 1500), Err(ValidationFailure::MarketNotFound));
    assert_eq!(check_order_market(Some(open), Some(3), 1500), Err(ValidationFailure::CrossUniverseTrade));
    // 30 is above the market's maximum of 20.
    assert_eq!(check_order_market(Some(open), Some(0), 3000), Err(ValidationFailure::InvalidPrice));
    let paused = OrderMarket { is_open: false, ..open };
    assert_eq!(check_order_market(Some(paused), Some(0), 1500), Err(ValidationFailure::MarketPaused));
    let settled = OrderMarket { settled: true, ..open };
    assert_eq!(check_order_market(Some(settled), None, 1500), Err(ValidationFailure::MarketSettled));
    assert_eq!(check_order_market(Some(open), None, 1500), Ok(()));
}

#[test]
fn three_orders_one_fill() {
    // Account 1 (balance 100) bids 12 for 1 and offers 1 at 16.
    let mut a = Exposure::zero();
    let bid_order = OrderFill {
        id: 1,
        market_id: 1,
        owner_id: 1,
        size_filled: 0,
        size_remaining: 100,
        price: 1200,
        side: Side::Bid,
    };
    a = update_exposure(&a, true, &bid_order);
    let offer_order = OrderFill { id: 2, size_remaining: 100, price: 1600, side: Side::Offer, ..bid_order };
    a = update_exposure(&a, true, &offer_order);
    assert_eq!(a.total_bid_size, 100);
    assert_eq!(a.total_bid_value, 120_000);
    assert_eq!(a.total_offer_size, 100);
    assert_eq!(a.total_offer_value, 160_000);
    assert_eq!(available_balance(1_000_000, &vec![exposure_row(&a)]), 960_000);

    // Account 2 offers 0.5 at 11: it trades with the bid at 12.
    let book = vec![bid(1, 1, 1200, 100)];
    let (fills, left) = match_order(Side::Offer, 1100, 50, &book);
    assert_eq!(left, 0);
    assert_eq!(fills.len(), 1);
    assert_eq!(fills[0].size_filled, 50);
    assert_eq!(fills[0].size_remaining, 50);
    assert_eq!(fills[0].price, 1200);
    assert_eq!(fills[0].side, Side::Bid);

    let (trades, taker_change) = settle_fills(2, Side::Offer, &fills);
    assert_eq!(trades.len(), 1);
    assert_eq!(trades[0].buyer_id, 1);
    assert_eq!(trades[0].seller_id, 2);
    assert_eq!(trades[0].size, 50);
    assert_eq!(trades[0].price, 1200);
    assert_eq!(trades[0].maker_balance_change, -60_000);
    assert_eq!(taker_change, 60_000);

    // Account 1 now holds 0.5 and 94; available 98.
    a = update_exposure(&a, false, &fills[0]);
    assert_eq!(a.position, 50);
    assert_eq!(a.total_bid_size, 50);
    assert_eq!(a.total_bid_value, 60_000);
    let a_balance = 1_000_000 + trades[0].maker_balance_change;
    assert_eq!(a_balance, 940_000);
    assert_eq!(available_balance(a_balance, &vec![exposure_row(&a)]), 980_000);
}

#[test]
fn matching_skips_uncrossed_orders_and_rests_the_remainder() {
    // Offers at 15 and 14 (best first would be 14, but the walk follows the
    // given order and skips what the limit does not reach).
    let book = vec![offer(1, 5, 1500, 100), offer(2, 6, 1400, 100)];
    let (fills, left) = match_order(Side::Bid, 1450, 300, &book);
    assert_eq!(fills.len(), 1);
    assert_eq!(fills[0].id, 2);
    assert_eq!(fills[0].size_filled, 100);
    assert_eq!(fills[0].size_remaining, 0);
    assert_eq!(left, 200);
}

#[test]
fn self_fill_makes_no_trade() {
    let fills = vec![OrderFill {
        id: 1,
        market_id: 1,
        owner_id: 7,
        size_filled: 100,
        size_remaining: 0,
        price: 1200,
        side: Side::Bid,
    }];
    let (trades, change) = settle_fills(7, Side::Offer, &fills);
    assert!(trades.is_empty());
    assert_eq!(change, 0);
}

#[test]
fn trades_are_zero_sum() {
    let fills = vec![
        OrderFill { id: 1, market_id: 1, owner_id: 3, size_filled: 100, size_remaining: 0, price: 1500, side: Side::Offer },
        OrderFill { id: 2, market_id: 1, owner_id: 4, size_filled: 30, size_remaining: 70, price: 1550, side: Side::Offer },
    ];
    let (trades, taker_change) = settle_fills(9, Side::Bid, &fills);
    let makers: i128 = trades.iter().map(|t| t.maker_balance_change).sum();
    assert_eq!(makers, 150_000 + 46_500);
    assert_eq!(taker_change, -makers);
}

#[test]
fn insufficient_funds_when_available_goes_negative() {
    // Bidding 15 for 100 with a balance of 100 cannot be covered.
    let e = MarketExposure {
        market_id: 1,
        position: 0,
        total_bid_size: 10_000,
        total_offer_size: 0,
        total_bid_value: 15_000_000,
        total_offer_value: 0,
        min_settlement: 1000,
        max_settlement: 2000,
    };
    assert_eq!(check_funds(1_000_000, &vec![e]), Err(ValidationFailure::InsufficientFunds));
    let small = MarketExposure { total_bid_size: 100, total_bid_value: 150_000, ..e };
    assert_eq!(check_funds(1_000_000, &vec![small]), Ok(()));
}

#[test]
fn cancelling_releases_the_reservation() {
    let order = bid(5, 1, 1200, 100);
    assert_eq!(decide_cancel_order(None, 1, Some(false)).unwrap_err(), ValidationFailure::OrderNotFound);
    assert_eq!(
        decide_cancel_order(Some(Order { size: 0, ..order }), 1, Some(false)).unwrap_err(),
        ValidationFailure::OrderNotFound
    );
    assert_eq!(decide_cancel_order(Some(order), 2, Some(false)).unwrap_err(), ValidationFailure::NotOrderOwner);
    assert_eq!(decide_cancel_order(Some(order), 1, None).unwrap_err(), ValidationFailure::MarketNotFound);
    assert_eq!(decide_cancel_order(Some(order), 1, Some(true)).unwrap_err(), ValidationFailure::MarketPaused);
    let fill = decide_cancel_order(Some(order), 1, Some(false)).unwrap();
    assert_eq!(fill.size_remaining, -100);
    let mut e = Exposure::zero();
    let placed = OrderFill { size_filled: 0, size_remaining: 100, ..fill };
    e = update_exposure(&e, true, &placed);
    e = update_exposure(&e, true, &fill);
    assert_eq!(e.total_bid_size, 0);
    assert_eq!(e.total_bid_value, 0);
    assert_eq!(e.position, 0);
}

#[test]
fn out_cancels_only_the_named_side() {
    assert_eq!(out_side(Some(1)), Some(Side::Bid));
    assert_eq!(out_side(Some(2)), Some(Side::Offer));
    assert_eq!(out_side(Some(0)), None);
    assert_eq!(out_side(None), None);
    assert_eq!(decide_out_market(None), Err(ValidationFailure::MarketNotFound));
    assert_eq!(decide_out_market(Some(true)), Err(ValidationFailure::MarketPaused));
    assert_eq!(decide_out_market(Some(false)), Ok(()));
    let orders = vec![
        bid(1, 1, 1200, 100),
        offer(2, 1, 1600, 100),
        bid(3, 2, 1100, 100),
        bid(4, 1, 1000, 0),
    ];
    assert_eq!(orders_cancelled_by_out(&orders, 1, 1, Some(Side::Bid)), vec![1]);
    assert_eq!(orders_cancelled_by_out(&orders, 1, 1, None), vec![1, 2]);
    assert_eq!(orders_cancelled_by_out(&orders, 1, 2, None), Vec::<i64>::new());
    let e = Exposure { position: 5, total_bid_size: 1, total_offer_size: 2, total_bid_value: 3, total_offer_value: 4 };
    let b = out_exposure(e, Some(1));
    assert_eq!((b.total_bid_size, b.total_bid_value, b.total_offer_size, b.position), (0, 0, 2, 5));
    let o = out_exposure(e, Some(2));
    assert_eq!((o.total_bid_size, o.total_offer_size, o.total_offer_value), (1, 0, 0));
    let both = out_exposure(e, None);
    assert_eq!((both.total_bid_size, both.total_offer_size, both.position), (0, 0, 5));
}

#[test]
fn sides_are_stored_as_text() {
    assert_eq!(Side::Bid.text(), "bid");
    assert_eq!(Side::Offer.text(), "offer");
    assert_eq!(Side::from_text("bid"), Some(Side::Bid));
    assert_eq!(Side::from_text("offer"), Some(Side::Offer));
    assert_eq!(Side::from_text(Side::Offer.text()), Some(Side::Offer));
    assert_eq!(Side::from_text("Bid"), None);
    assert_eq!(Side::from_text(""), None);
}

#[test]
fn option_market_trades_write_contracts() {
    let fills = vec![
        OrderFill { id: 1, market_id: 7, owner_id: 3, size_filled: 100, size_remaining: 0, price: 1500, side: Side::Bid },
        OrderFill { id: 2, market_id: 7, owner_id: 9, size_filled: 40, size_remaining: 0, price: 1490, side: Side::Bid },
        OrderFill { id: 3, market_id: 7, owner_id: 4, size_filled: 30, size_remaining: 70, price: 1480, side: Side::Bid },
    ];
    // The taker (9) sells; its fill against its own bid makes no trade.
    let (trades, taker_change) = settle_fills(9, Side::Offer, &fills);
    assert_eq!(trades.len(), 2);
    assert_eq!(taker_change, 150_000 + 44_400);
    let contracts = option_contracts_for(true, 7, &trades);
    assert_eq!(contracts.len(), 2);
    assert_eq!((contracts[0].buyer_id, contracts[0].writer_id, contracts[0].remaining_amount), (3, 9, 100));
    assert_eq!((contracts[1].buyer_id, contracts[1].writer_id, contracts[1].remaining_amount), (4, 9, 30));
    assert_eq!(contracts[0].option_market_id, 7);
    assert!(option_contracts_for(false, 7, &trades).is_empty());
}

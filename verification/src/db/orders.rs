//! Placing and matching orders.
use vstd::prelude::*;

use super::portfolio::{
    available_balance, exposures_bounded, spec_available_balance, updated_exposure, Exposure,
    MarketExposure,
};
use super::{Order, OrderFill, Side, ValidationFailure};
use crate::money::{
    cents_ok, lemma_cents_product, lemma_normalized_scaled_value, money_ok, normalize, normalized,
    pow10, to_scaled, scaled_value, wf_parts, DecimalParts, CENTS_LIMIT,
};

verus! {

/// A resting order at `other_price` can trade with an order on `side` limited
/// at `limit`: a bid buys at or below its limit, an offer sells at or above.
pub open spec fn crosses(side: Side, limit: int, other_price: int) -> bool {
    match side {
        Side::Bid => other_price <= limit,
        Side::Offer => other_price >= limit,
    }
}

pub open spec fn min_int(a: int, b: int) -> int {
    if a <= b {
        a
    } else {
        b
    }
}

/// The fill of resting order `other` by an order with `remaining` left.
pub open spec fn fill_of(other: Order, remaining: int) -> OrderFill {
    let filled = min_int(remaining, other.size as int);
    OrderFill {
        id: other.id,
        market_id: other.market_id,
        owner_id: other.owner_id,
        size_filled: filled as i128,
        size_remaining: (other.size - filled) as i128,
        price: other.price,
        side: other.side,
    }
}

/// Walk the resting orders in priority order: skip those the limit does not
/// reach, fill each reached one with as much as is left, and stop once the
/// incoming order is used up.  Gives the fills and the size left over.
pub open spec fn match_spec(side: Side, limit: int, remaining: int, others: Seq<Order>) -> (
    Seq<OrderFill>,
    int,
)
    decreases others.len(),
{
    if others.len() == 0 {
        (Seq::empty(), remaining)
    } else if !crosses(side, limit, others[0].price as int) {
        match_spec(side, limit, remaining, others.drop_first())
    } else {
        let fill = fill_of(others[0], remaining);
        let left = remaining - fill.size_filled;
        if left == 0 {
            (seq![fill], 0)
        } else {
            let rest = match_spec(side, limit, left, others.drop_first());
            (seq![fill] + rest.0, rest.1)
        }
    }
}

/// Resting orders whose sizes and prices are within the proved bounds.
pub open spec fn orders_bounded(others: Seq<Order>) -> bool {
    forall|i: int|
        0 <= i < others.len() ==> cents_ok((#[trigger] others[i]).size as int) && cents_ok(
            others[i].price as int,
        ) && others[i].size >= 0
}

proof fn lemma_match_bounds(side: Side, limit: int, remaining: int, others: Seq<Order>)
    requires
        orders_bounded(others),
        0 <= remaining <= CENTS_LIMIT,
    ensures
        0 <= match_spec(side, limit, remaining, others).1 <= remaining,
        forall|k: int|
            0 <= k < match_spec(side, limit, remaining, others).0.len() ==> {
                let f = #[trigger] match_spec(side, limit, remaining, others).0[k];
                &&& 0 <= f.size_filled <= remaining
                &&& 0 <= f.size_remaining <= CENTS_LIMIT
                &&& cents_ok(f.price as int)
            },
    decreases others.len(),
{
    if others.len() > 0 {
        let rest = others.drop_first();
        assert(orders_bounded(rest)) by {
            assert forall|i: int| 0 <= i < rest.len() implies cents_ok(
                (#[trigger] rest[i]).size as int,
            ) && cents_ok(rest[i].price as int) && rest[i].size >= 0 by {
                assert(rest[i] == others[i + 1]);
            }
        }
        assert(cents_ok(others[0].size as int) && others[0].size >= 0);
        if !crosses(side, limit, others[0].price as int) {
            lemma_match_bounds(side, limit, remaining, rest);
        } else {
            let fill = fill_of(others[0], remaining);
            let left = remaining - fill.size_filled;
            if left != 0 {
                lemma_match_bounds(side, limit, left, rest);
            }
        }
    }
}

/// Match an incoming order on `side`, limited at `price`, of `size`, against
/// resting orders given best price first (and oldest first at equal
/// prices).  Returns the fills and the size left to rest on the book.
pub fn match_order(side: Side, price: i128, size: i128, others: &Vec<Order>) -> (r: (
    Vec<OrderFill>,
    i128,
))
    requires
        orders_bounded(others@),
        0 < size <= CENTS_LIMIT,
    ensures
        (r.0@, r.1 as int) == match_spec(side, price as int, size as int, others@),
{
    let mut fills: Vec<OrderFill> = Vec::new();
    let mut remaining = size;
    let mut i: usize = 0;
    proof {
        assert(others@.skip(0) =~= others@);
    }
    while i < others.len()
        invariant
            i <= others.len(),
            orders_bounded(others@),
            0 < remaining <= size,
            size <= CENTS_LIMIT,
            match_spec(side, price as int, size as int, others@) == (
                fills@ + match_spec(side, price as int, remaining as int, others@.skip(i as int)).0,
                match_spec(side, price as int, remaining as int, others@.skip(i as int)).1,
            ),
        decreases others.len() - i,
    {
        let other = others[i];
        let ghost tail = others@.skip(i as int);
        proof {
            assert(tail[0] == other);
            assert(tail.drop_first() =~= others@.skip(i + 1));
            assert(cents_ok(other.size as int) && other.size >= 0);
        }
        {
            let skip = match side {
                Side::Bid => other.price > price,
                Side::Offer => other.price < price,
            };
            if skip {
                i = i + 1;
            } else {
                let size_filled = if remaining <= other.size {
                    remaining
                } else {
                    other.size
                };
                assert(0 <= size_filled <= other.size);
                let f = OrderFill {
                    id: other.id,
                    market_id: other.market_id,
                    owner_id: other.owner_id,
                    size_filled,
                    size_remaining: other.size - size_filled,
                    price: other.price,
                    side: other.side,
                };
                proof {
                    assert(f == fill_of(other, remaining as int));
                }
                remaining = remaining - size_filled;
                proof {
                    let rest = match_spec(side, price as int, remaining as int, others@.skip(i + 1));
                    if remaining != 0 {
                        assert(fills@ + (seq![f] + rest.0) =~= fills@.push(f) + rest.0);
                    } else {
                        assert(fills@ + seq![f] =~= fills@.push(f));
                    }
                }
                fills.push(f);
                i = i + 1;
                if remaining == 0 {
                    return (fills, 0);
                }
            }
        }
    }
    proof {
        assert(others@.skip(i as int).len() == 0);
        assert(fills@ + Seq::<OrderFill>::empty() =~= fills@);
    }
    (fills, remaining)
}

} // verus!

verus! {

/// Total size filled across a list of fills.
pub open spec fn sum_filled(fills: Seq<OrderFill>) -> int
    decreases fills.len(),
{
    if fills.len() == 0 {
        0
    } else {
        fills[0].size_filled + sum_filled(fills.drop_first())
    }
}

/// Total size of the resting orders an order on `side` limited at `limit`
/// can reach.
pub open spec fn crossing_liquidity(side: Side, limit: int, others: Seq<Order>) -> int
    decreases others.len(),
{
    if others.len() == 0 {
        0
    } else if crosses(side, limit, others[0].price as int) {
        others[0].size + crossing_liquidity(side, limit, others.drop_first())
    } else {
        crossing_liquidity(side, limit, others.drop_first())
    }
}

proof fn lemma_orders_bounded_tail(others: Seq<Order>)
    requires
        orders_bounded(others),
        others.len() > 0,
    ensures
        orders_bounded(others.drop_first()),
        cents_ok(others[0].size as int),
        others[0].size >= 0,
{
    let rest = others.drop_first();
    assert forall|i: int| 0 <= i < rest.len() implies cents_ok((#[trigger] rest[i]).size as int)
        && cents_ok(rest[i].price as int) && rest[i].size >= 0 by {
        assert(rest[i] == others[i + 1]);
    }
}

/// Matching conserves size: what was asked for is what filled plus what is
/// left to rest on the book.
pub proof fn lemma_match_conserves_size(side: Side, limit: int, size: int, others: Seq<Order>)
    requires
        orders_bounded(others),
        0 < size,
    ensures
        size == match_spec(side, limit, size, others).1 + sum_filled(
            match_spec(side, limit, size, others).0,
        ),
    decreases others.len(),
{
    if others.len() > 0 {
        lemma_orders_bounded_tail(others);
        if !crosses(side, limit, others[0].price as int) {
            lemma_match_conserves_size(side, limit, size, others.drop_first());
        } else {
            let fill = fill_of(others[0], size);
            let left = size - fill.size_filled;
            if left == 0 {
                assert(seq![fill].drop_first() =~= Seq::<OrderFill>::empty());
                assert(sum_filled(Seq::<OrderFill>::empty()) == 0);
                assert(sum_filled(seq![fill]) == fill.size_filled);
            } else {
                lemma_match_conserves_size(side, limit, left, others.drop_first());
                let rest = match_spec(side, limit, left, others.drop_first());
                assert((seq![fill] + rest.0).drop_first() =~= rest.0);
                assert((seq![fill] + rest.0)[0] == fill);
                assert(sum_filled(seq![fill] + rest.0) == fill.size_filled + sum_filled(rest.0));
            }
        }
    }
}

/// Every fill is at a price the incoming order's limit reaches: a bid never
/// pays above its limit, an offer never sells below it.
pub proof fn lemma_match_respects_limit(side: Side, limit: int, size: int, others: Seq<Order>)
    ensures
        forall|k: int|
            0 <= k < match_spec(side, limit, size, others).0.len() ==> crosses(
                side,
                limit,
                (#[trigger] match_spec(side, limit, size, others).0[k]).price as int,
            ),
    decreases others.len(),
{
    if others.len() > 0 {
        if !crosses(side, limit, others[0].price as int) {
            lemma_match_respects_limit(side, limit, size, others.drop_first());
        } else {
            let fill = fill_of(others[0], size);
            let left = size - fill.size_filled;
            if left != 0 {
                lemma_match_respects_limit(side, limit, left, others.drop_first());
                let rest = match_spec(side, limit, left, others.drop_first());
                assert forall|k: int| 0 <= k < (seq![fill] + rest.0).len() implies crosses(
                    side,
                    limit,
                    (#[trigger] (seq![fill] + rest.0)[k]).price as int,
                ) by {
                    if k > 0 {
                        assert((seq![fill] + rest.0)[k] == rest.0[k - 1]);
                    }
                }
            }
        }
    }
}

/// An order rests on the book only after taking every resting order its
/// limit reaches: then what is left is its size less all reachable
/// liquidity, and every order it matched is used up.
pub proof fn lemma_match_exhausts_book(side: Side, limit: int, size: int, others: Seq<Order>)
    requires
        orders_bounded(others),
        0 < size,
    ensures
        match_spec(side, limit, size, others).1 > 0 ==> {
            &&& match_spec(side, limit, size, others).1 == size - crossing_liquidity(
                side,
                limit,
                others,
            )
            &&& forall|k: int|
                0 <= k < match_spec(side, limit, size, others).0.len()
                    ==> (#[trigger] match_spec(side, limit, size, others).0[k]).size_remaining == 0
        },
    decreases others.len(),
{
    if others.len() > 0 {
        lemma_orders_bounded_tail(others);
        if !crosses(side, limit, others[0].price as int) {
            lemma_match_exhausts_book(side, limit, size, others.drop_first());
        } else {
            let fill = fill_of(others[0], size);
            let left = size - fill.size_filled;
            if left != 0 {
                lemma_match_exhausts_book(side, limit, left, others.drop_first());
                let rest = match_spec(side, limit, left, others.drop_first());
                if rest.1 > 0 {
                    assert forall|k: int| 0 <= k < (seq![fill] + rest.0).len() implies (#[trigger] (
                    seq![fill] + rest.0)[k]).size_remaining == 0 by {
                        if k > 0 {
                            assert((seq![fill] + rest.0)[k] == rest.0[k - 1]);
                        }
                    }
                }
            }
        }
    }
}

} // verus!

verus! {

/// A validated order request: side, limit price and size in cents.
#[derive(Clone, Copy, Debug)]
pub struct OrderRequest {
    pub side: Side,
    pub price: i128,
    pub size: i128,
}

/// Largest normalized mantissa a price or size may have.
pub const MAX_ORDER_MANTISSA: i128 = 1_000_000_000_000;

/// A normalized price is acceptable: at most two places, mantissa at most
/// a trillion.
pub open spec fn price_parts_ok(n: DecimalParts) -> bool {
    n.scale <= 2 && n.mantissa <= MAX_ORDER_MANTISSA
}

/// A normalized size is acceptable: positive, at most two places, mantissa
/// at most a trillion.
pub open spec fn size_parts_ok(n: DecimalParts) -> bool {
    n.mantissa > 0 && n.scale <= 2 && n.mantissa <= MAX_ORDER_MANTISSA
}

/// The side an order request names (1 bid, 2 offer; anything else is
/// unknown).
pub open spec fn side_of(side: i32) -> Option<Side> {
    if side == 1 {
        Some(Side::Bid)
    } else if side == 2 {
        Some(Side::Offer)
    } else {
        None
    }
}

pub open spec fn spec_validate_order_request(price: DecimalParts, size: DecimalParts, side: i32) -> Result<
    OrderRequest,
    ValidationFailure,
> {
    if side_of(side) is None {
        Err(ValidationFailure::NoSideProvided)
    } else if !price_parts_ok(normalized(price)) {
        Err(ValidationFailure::InvalidPrice)
    } else if !size_parts_ok(normalized(size)) {
        Err(ValidationFailure::InvalidSize)
    } else {
        Ok(
            OrderRequest {
                side: side_of(side)->0,
                price: scaled_value(normalized(price), 2) as i128,
                size: scaled_value(normalized(size), 2) as i128,
            },
        )
    }
}

/// Check an order's side, price and size before anything is read: a known
/// side, a price of at most two places with mantissa at most a trillion, a
/// positive size likewise bounded.
pub fn validate_order_request(price: DecimalParts, size: DecimalParts, side: i32) -> (r: Result<
    OrderRequest,
    ValidationFailure,
>)
    requires
        wf_parts(price),
        wf_parts(size),
    ensures
        r == spec_validate_order_request(price, size, side),
        r matches Ok(req) ==> 0 < req.size <= 100 * MAX_ORDER_MANTISSA && req.price <= 100
            * MAX_ORDER_MANTISSA,
{
    let side = if side == 1 {
        Side::Bid
    } else if side == 2 {
        Side::Offer
    } else {
        return Err(ValidationFailure::NoSideProvided);
    };
    let price = normalize(price);
    let size = normalize(size);
    if price.scale > 2 || price.mantissa > MAX_ORDER_MANTISSA {
        return Err(ValidationFailure::InvalidPrice);
    }
    if size.mantissa <= 0 || size.scale > 2 || size.mantissa > MAX_ORDER_MANTISSA {
        return Err(ValidationFailure::InvalidSize);
    }
    let price_cents = to_scaled(price, 2);
    let size_cents = to_scaled(size, 2);
    proof {
        crate::money::lemma_scaled_value_bounded(price, 2);
        crate::money::lemma_scaled_value_bounded(size, 2);
    }
    Ok(OrderRequest { side, price: price_cents, size: size_cents })
}

/// An order request with a known side, a price and a positive size each
/// given with at most two decimal places and a mantissa of at most a
/// trillion, is accepted: the price and size come back counted in cents
/// (the value times 100), on the named side.
pub proof fn lemma_order_request_accepted(price: DecimalParts, size: DecimalParts, side: i32)
    requires
        wf_parts(price),
        wf_parts(size),
        side == 1 || side == 2,
        price.scale <= 2,
        price.mantissa <= MAX_ORDER_MANTISSA,
        size.scale <= 2,
        0 < size.mantissa <= MAX_ORDER_MANTISSA,
    ensures
        spec_validate_order_request(price, size, side) matches Ok(req) && {
            &&& req.price == price.mantissa * pow10((2 - price.scale) as nat)
            &&& req.size == size.mantissa * pow10((2 - size.scale) as nat)
            &&& (side == 1 ==> req.side == Side::Bid)
            &&& (side == 2 ==> req.side == Side::Offer)
        },
{
    lemma_normalized_scaled_value(price, 2);
    lemma_normalized_scaled_value(size, 2);
    crate::money::lemma_scaled_value_bounded(normalized(price), 2);
    crate::money::lemma_scaled_value_bounded(normalized(size), 2);
}

/// The market row an order is checked against (settlement bounds in cents).
#[derive(Clone, Copy, Debug)]
pub struct OrderMarket {
    pub min_settlement: i128,
    pub max_settlement: i128,
    pub settled: bool,
    pub is_open: bool,
    pub universe_id: i64,
}

pub open spec fn spec_check_order_market(
    market: Option<OrderMarket>,
    account_universe: Option<i64>,
    price: int,
) -> Result<(), ValidationFailure> {
    match market {
        None => Err(ValidationFailure::MarketNotFound),
        Some(m) => if account_universe matches Some(u) && u != m.universe_id {
            Err(ValidationFailure::CrossUniverseTrade)
        } else if m.settled {
            Err(ValidationFailure::MarketSettled)
        } else if !m.is_open {
            Err(ValidationFailure::MarketPaused)
        } else if price < m.min_settlement || price > m.max_settlement {
            Err(ValidationFailure::InvalidPrice)
        } else {
            Ok(())
        },
    }
}

/// Check an order against its market: the market exists, the account is in
/// its universe, it is neither settled nor paused, and the price is within
/// its settlement bounds.
pub fn check_order_market(market: Option<OrderMarket>, account_universe: Option<i64>, price: i128) -> (r:
    Result<(), ValidationFailure>)
    ensures
        r == spec_check_order_market(market, account_universe, price as int),
{
    let m = match market {
        None => {
            return Err(ValidationFailure::MarketNotFound);
        },
        Some(m) => m,
    };
    if let Some(u) = account_universe {
        if u != m.universe_id {
            return Err(ValidationFailure::CrossUniverseTrade);
        }
    }
    if m.settled {
        return Err(ValidationFailure::MarketSettled);
    }
    if !m.is_open {
        return Err(ValidationFailure::MarketPaused);
    }
    if price < m.min_settlement || price > m.max_settlement {
        return Err(ValidationFailure::InvalidPrice);
    }
    Ok(())
}

/// After the new order's size is reserved in the account's exposure, the
/// order is refused when the available balance has gone negative.
pub fn check_funds(total_balance: i128, exposures: &Vec<MarketExposure>) -> (r: Result<
    (),
    ValidationFailure,
>)
    requires
        money_ok(total_balance as int),
        exposures_bounded(exposures@),
    ensures
        r is Err <==> spec_available_balance(total_balance as int, exposures@) < 0,
        r matches Err(f) ==> f == ValidationFailure::InsufficientFunds,
{
    if available_balance(total_balance, exposures) < 0 {
        Err(ValidationFailure::InsufficientFunds)
    } else {
        Ok(())
    }
}

/// A trade between the incoming order and another account's resting order.
#[derive(Clone, Copy, Debug)]
pub struct TradeRecord {
    pub buyer_id: i64,
    pub seller_id: i64,
    pub size: i128,
    pub price: i128,
    pub buyer_is_taker: bool,
    /// The resting order's owner, and the change in its balance.
    pub maker_id: i64,
    pub maker_balance_change: i128,
}

/// The trade a fill makes, unless the resting order is the taker's own.
pub open spec fn trade_of(taker_id: i64, side: Side, fill: OrderFill) -> Option<TradeRecord> {
    if taker_id == fill.owner_id {
        None
    } else {
        let value: int = fill.size_filled * fill.price;
        Some(
            TradeRecord {
                buyer_id: match side {
                    Side::Bid => taker_id,
                    Side::Offer => fill.owner_id,
                },
                seller_id: match side {
                    Side::Bid => fill.owner_id,
                    Side::Offer => taker_id,
                },
                size: fill.size_filled,
                price: fill.price,
                buyer_is_taker: side == Side::Bid,
                maker_id: fill.owner_id,
                maker_balance_change: (match side {
                    Side::Bid => value,
                    Side::Offer => -value,
                }) as i128,
            },
        )
    }
}

/// The trades of a list of fills, in order.
pub open spec fn trades_of(taker_id: i64, side: Side, fills: Seq<OrderFill>) -> Seq<TradeRecord>
    decreases fills.len(),
{
    if fills.len() == 0 {
        Seq::empty()
    } else {
        let rest = trades_of(taker_id, side, fills.drop_last());
        match trade_of(taker_id, side, fills.last()) {
            Some(t) => rest.push(t),
            None => rest,
        }
    }
}

/// The taker's balance change: it pays for what it buys, is paid for what it
/// sells; fills against its own orders move no cash.
pub open spec fn sum_maker_changes(trades: Seq<TradeRecord>) -> int
    decreases trades.len(),
{
    if trades.len() == 0 {
        0
    } else {
        sum_maker_changes(trades.drop_last()) + trades.last().maker_balance_change
    }
}

/// Each fill's value, and the taker's running cash change, are within the
/// money range (beyond what the decimal type the balances are kept in can
/// hold).
pub open spec fn fills_bounded(taker_id: i64, side: Side, fills: Seq<OrderFill>) -> bool {
    &&& forall|i: int|
        0 <= i < fills.len() ==> money_ok((#[trigger] fills[i]).size_filled * fills[i].price)
    &&& forall|k: int|
        0 <= k <= fills.len() ==> money_ok(
            #[trigger] sum_maker_changes(trades_of(taker_id, side, fills.take(k))),
        )
}

proof fn lemma_trades_len(taker_id: i64, side: Side, fills: Seq<OrderFill>)
    ensures
        trades_of(taker_id, side, fills).len() <= fills.len(),
    decreases fills.len(),
{
    if fills.len() > 0 {
        lemma_trades_len(taker_id, side, fills.drop_last());
    }
}

/// Turn the fills of an incoming order into trades and cash movements.
/// Returns the trades (one per fill against another account, in fill order)
/// and the taker's total balance change, which is exactly the opposite of
/// what the makers receive.
pub fn settle_fills(taker_id: i64, side: Side, fills: &Vec<OrderFill>) -> (r: (
    Vec<TradeRecord>,
    i128,
))
    requires
        fills_bounded(taker_id, side, fills@),
    ensures
        r.0@ == trades_of(taker_id, side, fills@),
        r.1 == -sum_maker_changes(r.0@),
{
    let mut trades: Vec<TradeRecord> = Vec::new();
    let mut change: i128 = 0;
    let mut i: usize = 0;
    while i < fills.len()
        invariant
            i <= fills.len(),
            fills_bounded(taker_id, side, fills@),
            trades@ == trades_of(taker_id, side, fills@.take(i as int)),
            change == -sum_maker_changes(trades@),
        decreases fills.len() - i,
    {
        let fill = fills[i];
        proof {
            assert(fills@.take(i + 1).drop_last() =~= fills@.take(i as int));
            assert(fills@.take(i + 1).last() == fill);
            assert(money_ok(fill.size_filled * fill.price));
            assert(money_ok(sum_maker_changes(trades_of(taker_id, side, fills@.take(i + 1)))));
        }
        if taker_id != fill.owner_id {
            let value = fill.size_filled * fill.price;
            let (buyer_id, seller_id, buyer_is_taker, maker_change) = match side {
                Side::Bid => (taker_id, fill.owner_id, true, value),
                Side::Offer => (fill.owner_id, taker_id, false, -value),
            };
            let t = TradeRecord {
                buyer_id,
                seller_id,
                size: fill.size_filled,
                price: fill.price,
                buyer_is_taker,
                maker_id: fill.owner_id,
                maker_balance_change: maker_change,
            };
            proof {
                assert(trade_of(taker_id, side, fill) == Some(t));
                assert(trades@.push(t).drop_last() =~= trades@);
            }
            trades.push(t);
            change = change - maker_change;
        }
        i = i + 1;
    }
    proof {
        assert(fills@.take(fills.len() as int) =~= fills@);
    }
    (trades, change)
}

/// Whether an order may be cancelled by `owner_id` (`market_paused` is
/// `None` when its market does not exist): it must exist and still rest
/// (size above zero), belong to the owner, and its market must not be
/// paused.  Gives the change that releases its reserved size.
pub open spec fn spec_decide_cancel(order: Option<Order>, owner_id: i64, market_paused: Option<bool>) -> Result<
    OrderFill,
    ValidationFailure,
> {
    match order {
        None => Err(ValidationFailure::OrderNotFound),
        Some(o) => if o.size == 0 {
            Err(ValidationFailure::OrderNotFound)
        } else if o.owner_id != owner_id {
            Err(ValidationFailure::NotOrderOwner)
        } else {
            match market_paused {
                None => Err(ValidationFailure::MarketNotFound),
                Some(true) => Err(ValidationFailure::MarketPaused),
                Some(false) => Ok(
                    OrderFill {
                        id: o.id,
                        market_id: o.market_id,
                        owner_id: o.owner_id,
                        size_filled: 0,
                        size_remaining: (-o.size) as i128,
                        price: o.price,
                        side: o.side,
                    },
                ),
            }
        },
    }
}

/// Decide the cancellation of an order.
pub fn decide_cancel_order(order: Option<Order>, owner_id: i64, market_paused: Option<bool>) -> (r: Result<
    OrderFill,
    ValidationFailure,
>)
    requires
        order matches Some(o) ==> cents_ok(o.size as int),
    ensures
        r == spec_decide_cancel(order, owner_id, market_paused),
{
    let o = match order {
        None => return Err(ValidationFailure::OrderNotFound),
        Some(o) => o,
    };
    if o.size == 0 {
        return Err(ValidationFailure::OrderNotFound);
    }
    if o.owner_id != owner_id {
        return Err(ValidationFailure::NotOrderOwner);
    }
    match market_paused {
        None => Err(ValidationFailure::MarketNotFound),
        Some(true) => Err(ValidationFailure::MarketPaused),
        Some(false) => Ok(
            OrderFill {
                id: o.id,
                market_id: o.market_id,
                owner_id: o.owner_id,
                size_filled: 0,
                size_remaining: -o.size,
                price: o.price,
                side: o.side,
            },
        ),
    }
}

/// Cancelling a resting order releases exactly what it reserved: the
/// owner's reserved size and value on its side drop by its size and by its
/// size times its price, and the position does not move.
pub proof fn lemma_cancel_releases_reservation(e: Exposure, order: Order, owner_id: i64)
    requires
        spec_decide_cancel(Some(order), owner_id, Some(false)) is Ok,
        e.bounded(),
        cents_ok(order.size as int),
        cents_ok(order.price as int),
    ensures
        ({
            let fill = spec_decide_cancel(Some(order), owner_id, Some(false))->Ok_0;
            let after = updated_exposure(e, true, fill);
            &&& after.position == e.position
            &&& order.side == Side::Bid ==> after.total_bid_size == e.total_bid_size - order.size
                && after.total_bid_value == e.total_bid_value - order.size * order.price
                && after.total_offer_size == e.total_offer_size
            &&& order.side == Side::Offer ==> after.total_offer_size == e.total_offer_size
                - order.size && after.total_offer_value == e.total_offer_value - order.size
                * order.price && after.total_bid_size == e.total_bid_size
        }),
{
    assert((-order.size) * order.price == -(order.size * order.price)) by (nonlinear_arith);
    lemma_cents_product(order.price as int, order.size as int);
    assert(order.size * order.price == order.price * order.size) by (nonlinear_arith);
}

/// The side an "out" request names: 1 for bids, 2 for offers, anything
/// else for both.
pub open spec fn spec_out_side(side: Option<i32>) -> Option<Side> {
    match side {
        Some(1) => Some(Side::Bid),
        Some(2) => Some(Side::Offer),
        _ => None,
    }
}

/// The side an "out" request names.
pub fn out_side(side: Option<i32>) -> (r: Option<Side>)
    ensures
        r == spec_out_side(side),
{
    match side {
        Some(1) => Some(Side::Bid),
        Some(2) => Some(Side::Offer),
        _ => None,
    }
}

/// Whether "out" may act in one named market (`market_paused` is `None`
/// when it does not exist).
pub fn decide_out_market(market_paused: Option<bool>) -> (r: Result<(), ValidationFailure>)
    ensures
        r == (match market_paused {
            None => Err(ValidationFailure::MarketNotFound),
            Some(true) => Err(ValidationFailure::MarketPaused),
            Some(false) => Ok(()),
        }),
{
    match market_paused {
        None => Err(ValidationFailure::MarketNotFound),
        Some(true) => Err(ValidationFailure::MarketPaused),
        Some(false) => Ok(()),
    }
}

/// An order "out" cancels: the owner's, in the market, still resting, on
/// the named side (or either).
pub open spec fn cancelled_by_out(o: Order, owner_id: i64, market_id: i64, side: Option<Side>) -> bool {
    &&& o.owner_id == owner_id
    &&& o.market_id == market_id
    &&& o.size > 0
    &&& (side matches Some(s) ==> o.side == s)
}

/// The ids of the orders "out" cancels, in order.
pub open spec fn out_cancelled_ids(orders: Seq<Order>, owner_id: i64, market_id: i64, side: Option<Side>) -> Seq<
    i64,
>
    decreases orders.len(),
{
    if orders.len() == 0 {
        Seq::empty()
    } else {
        let rest = out_cancelled_ids(orders.drop_last(), owner_id, market_id, side);
        if cancelled_by_out(orders.last(), owner_id, market_id, side) {
            rest.push(orders.last().id)
        } else {
            rest
        }
    }
}

/// The ids of the orders an "out" request cancels in one market.
pub fn orders_cancelled_by_out(orders: &Vec<Order>, owner_id: i64, market_id: i64, side: Option<Side>) -> (r:
    Vec<i64>)
    ensures
        r@ == out_cancelled_ids(orders@, owner_id, market_id, side),
{
    let mut ids: Vec<i64> = Vec::new();
    let mut i: usize = 0;
    while i < orders.len()
        invariant
            i <= orders@.len(),
            ids@ == out_cancelled_ids(orders@.take(i as int), owner_id, market_id, side),
        decreases orders@.len() - i,
    {
        proof {
            assert(orders@.take(i + 1).drop_last() =~= orders@.take(i as int));
            assert(orders@.take(i + 1).last() == orders@[i as int]);
        }
        let o = orders[i];
        let side_ok = match side {
            Some(s) => o.side == s,
            None => true,
        };
        if o.owner_id == owner_id && o.market_id == market_id && o.size > 0 && side_ok {
            ids.push(o.id);
        }
        i = i + 1;
    }
    proof {
        assert(orders@.take(orders@.len() as int) =~= orders@);
    }
    ids
}

/// An exposure after "out" cancelled orders in its market: the reserved
/// sizes and values of the named side (both for no side) are cleared.
pub open spec fn spec_out_exposure(e: Exposure, side: Option<i32>) -> Exposure {
    match side {
        Some(1) => Exposure { total_bid_size: 0, total_bid_value: 0, ..e },
        Some(2) => Exposure { total_offer_size: 0, total_offer_value: 0, ..e },
        _ => Exposure {
            total_bid_size: 0,
            total_offer_size: 0,
            total_bid_value: 0,
            total_offer_value: 0,
            ..e
        },
    }
}

/// Clear an exposure's reservations after "out".
pub fn out_exposure(e: Exposure, side: Option<i32>) -> (r: Exposure)
    ensures
        r == spec_out_exposure(e, side),
{
    match side {
        Some(1) => Exposure { total_bid_size: 0, total_bid_value: 0, ..e },
        Some(2) => Exposure { total_offer_size: 0, total_offer_value: 0, ..e },
        _ => Exposure {
            total_bid_size: 0,
            total_offer_size: 0,
            total_bid_value: 0,
            total_offer_value: 0,
            ..e
        },
    }
}


/// The other side of the book.
pub open spec fn opposite(side: Side) -> Side {
    match side {
        Side::Bid => Side::Offer,
        Side::Offer => Side::Bid,
    }
}

/// How filling `size` on `side` moves a position: up for a bid, down for an
/// offer.
pub open spec fn side_sign(side: Side, size: int) -> int {
    match side {
        Side::Bid => size,
        Side::Offer => -size,
    }
}

/// How a list of fills moves the positions of the resting orders' owners,
/// added up.
pub open spec fn fills_position_change(fills: Seq<OrderFill>) -> int
    decreases fills.len(),
{
    if fills.len() == 0 {
        0
    } else {
        side_sign(fills[0].side, fills[0].size_filled as int) + fills_position_change(fills.drop_first())
    }
}

proof fn lemma_match_fill_sides(side: Side, limit: int, size: int, others: Seq<Order>)
    requires
        forall|i: int| 0 <= i < others.len() ==> (#[trigger] others[i]).side == opposite(side),
    ensures
        forall|k: int|
            0 <= k < match_spec(side, limit, size, others).0.len() ==> (#[trigger] match_spec(
                side,
                limit,
                size,
                others,
            ).0[k]).side == opposite(side),
    decreases others.len(),
{
    if others.len() > 0 {
        let rest = others.drop_first();
        assert forall|i: int| 0 <= i < rest.len() implies (#[trigger] rest[i]).side == opposite(side) by {
            assert(rest[i] == others[i + 1]);
        }
        if !crosses(side, limit, others[0].price as int) {
            lemma_match_fill_sides(side, limit, size, rest);
        } else {
            let fill = fill_of(others[0], size);
            let left = size - fill.size_filled;
            if left != 0 {
                lemma_match_fill_sides(side, limit, left, rest);
                let r = match_spec(side, limit, left, rest);
                assert forall|k: int| 0 <= k < (seq![fill] + r.0).len() implies (#[trigger] (seq![fill]
                    + r.0)[k]).side == opposite(side) by {
                    if k > 0 {
                        assert((seq![fill] + r.0)[k] == r.0[k - 1]);
                    }
                }
            }
        }
    }
}

proof fn lemma_same_side_fills(fills: Seq<OrderFill>, s: Side)
    requires
        forall|k: int| 0 <= k < fills.len() ==> (#[trigger] fills[k]).side == s,
    ensures
        fills_position_change(fills) == side_sign(s, sum_filled(fills)),
    decreases fills.len(),
{
    if fills.len() > 0 {
        let rest = fills.drop_first();
        assert forall|k: int| 0 <= k < rest.len() implies (#[trigger] rest[k]).side == s by {
            assert(rest[k] == fills[k + 1]);
        }
        lemma_same_side_fills(rest, s);
        assert(fills[0].side == s);
    }
}

/// Placing an order moves no position into or out of the market: against
/// a book of orders on the other side, the position the taker gains from
/// what it filled is exactly what the resting orders' owners give up.
pub proof fn lemma_match_conserves_positions(side: Side, limit: int, size: int, others: Seq<Order>)
    requires
        orders_bounded(others),
        0 < size,
        forall|i: int| 0 <= i < others.len() ==> (#[trigger] others[i]).side == opposite(side),
    ensures
        ({
            let (fills, left) = match_spec(side, limit, size, others);
            side_sign(side, size - left) + fills_position_change(fills) == 0
        }),
{
    lemma_match_conserves_size(side, limit, size, others);
    lemma_match_fill_sides(side, limit, size, others);
    lemma_same_side_fills(match_spec(side, limit, size, others).0, opposite(side));
}

/// The value of a trade (money units).
pub open spec fn trade_value(t: TradeRecord) -> int {
    t.size * t.price
}

/// What a list of trades does to an account's cash: it is paid the value of
/// what it sold and pays the value of what it bought.
pub open spec fn trade_cash(trades: Seq<TradeRecord>, account: i64) -> int
    decreases trades.len(),
{
    if trades.len() == 0 {
        0
    } else {
        let t = trades.last();
        trade_cash(trades.drop_last(), account) + (if t.seller_id == account {
            trade_value(t)
        } else {
            0
        }) - (if t.buyer_id == account {
            trade_value(t)
        } else {
            0
        })
    }
}

/// What the makers of a list of trades are paid, for one account.
pub open spec fn maker_cash(trades: Seq<TradeRecord>, account: i64) -> int
    decreases trades.len(),
{
    if trades.len() == 0 {
        0
    } else {
        maker_cash(trades.drop_last(), account) + (if trades.last().maker_id == account {
            trades.last().maker_balance_change as int
        } else {
            0
        })
    }
}

/// The cash change placing an order applies to an account: the taker's
/// change (the opposite of all makers' changes) and what it is paid as a
/// maker.
pub open spec fn applied_cash(trades: Seq<TradeRecord>, taker_id: i64, account: i64) -> int {
    (if account == taker_id {
        -sum_maker_changes(trades)
    } else {
        0
    }) + maker_cash(trades, account)
}

/// A trade of an order placed by `taker_id` on `side`.
pub open spec fn taker_trade(taker_id: i64, side: Side, t: TradeRecord) -> bool {
    &&& t.maker_id != taker_id
    &&& side == Side::Bid ==> t.buyer_id == taker_id && t.seller_id == t.maker_id
        && t.maker_balance_change == trade_value(t)
    &&& side == Side::Offer ==> t.seller_id == taker_id && t.buyer_id == t.maker_id
        && t.maker_balance_change == -trade_value(t)
}

proof fn lemma_trades_are_taker_trades(taker_id: i64, side: Side, fills: Seq<OrderFill>)
    requires
        forall|i: int|
            0 <= i < fills.len() ==> money_ok((#[trigger] fills[i]).size_filled * fills[i].price),
    ensures
        forall|k: int|
            0 <= k < trades_of(taker_id, side, fills).len() ==> taker_trade(
                taker_id,
                side,
                #[trigger] trades_of(taker_id, side, fills)[k],
            ),
    decreases fills.len(),
{
    if fills.len() > 0 {
        let init = fills.drop_last();
        assert forall|i: int| 0 <= i < init.len() implies money_ok(
            (#[trigger] init[i]).size_filled * init[i].price,
        ) by {
            assert(init[i] == fills[i]);
        }
        lemma_trades_are_taker_trades(taker_id, side, init);
        assert(fills.last() == fills[fills.len() - 1]);
        assert(money_ok(fills.last().size_filled * fills.last().price));
        let rest = trades_of(taker_id, side, init);
        match trade_of(taker_id, side, fills.last()) {
            Some(t) => {
                assert(taker_trade(taker_id, side, t));
                let all = rest.push(t);
                assert(trades_of(taker_id, side, fills) == all);
                assert forall|k: int| 0 <= k < all.len() implies taker_trade(taker_id, side, #[trigger] all[k]) by {
                    if k < rest.len() {
                        assert(all[k] == rest[k]);
                    }
                }
            },
            None => {},
        }
    }
}

proof fn lemma_applied_cash(trades: Seq<TradeRecord>, taker_id: i64, side: Side, account: i64)
    requires
        forall|k: int| 0 <= k < trades.len() ==> taker_trade(taker_id, side, #[trigger] trades[k]),
    ensures
        applied_cash(trades, taker_id, account) == trade_cash(trades, account),
    decreases trades.len(),
{
    if trades.len() > 0 {
        let init = trades.drop_last();
        assert forall|k: int| 0 <= k < init.len() implies taker_trade(taker_id, side, #[trigger] init[k]) by {
            assert(init[k] == trades[k]);
        }
        lemma_applied_cash(init, taker_id, side, account);
        assert(taker_trade(taker_id, side, trades[trades.len() - 1]));
        assert(trades.last() == trades[trades.len() - 1]);
    }
}

/// Placing an order moves cash only between the two sides of each trade:
/// every trade is between the taker and another account, and the change
/// applied to each account (the taker's total and what each maker is paid)
/// is exactly the value of what it sold less the value of what it bought.
pub proof fn lemma_order_cash_follows_trades(taker_id: i64, side: Side, fills: Seq<OrderFill>, account: i64)
    requires
        forall|i: int|
            0 <= i < fills.len() ==> money_ok((#[trigger] fills[i]).size_filled * fills[i].price),
    ensures
        forall|k: int|
            0 <= k < trades_of(taker_id, side, fills).len() ==> (#[trigger] trades_of(
                taker_id,
                side,
                fills,
            )[k]).buyer_id != trades_of(taker_id, side, fills)[k].seller_id,
        applied_cash(trades_of(taker_id, side, fills), taker_id, account) == trade_cash(
            trades_of(taker_id, side, fills),
            account,
        ),
{
    lemma_trades_are_taker_trades(taker_id, side, fills);
    let ts = trades_of(taker_id, side, fills);
    assert forall|k: int| 0 <= k < ts.len() implies (#[trigger] ts[k]).buyer_id != ts[k].seller_id by {
        assert(taker_trade(taker_id, side, ts[k]));
    }
    lemma_applied_cash(ts, taker_id, side, account);
}

/// An option contract a trade on an option market writes: the buyer may
/// exercise the traded size against the seller.
#[derive(Clone, Copy, Debug, PartialEq, Eq, Structural)]
pub struct NewOptionContract {
    pub option_market_id: i64,
    pub buyer_id: i64,
    pub writer_id: i64,
    pub remaining_amount: i128,
}

pub open spec fn contract_of(market_id: i64, t: TradeRecord) -> NewOptionContract {
    NewOptionContract {
        option_market_id: market_id,
        buyer_id: t.buyer_id,
        writer_id: t.seller_id,
        remaining_amount: t.size,
    }
}

/// The option contracts an order's trades write: on an option market, one
/// per trade, in trade order (the buyer holds it, the seller writes it, for
/// the traded size); on any other market, none.
pub fn option_contracts_for(is_option_market: bool, market_id: i64, trades: &Vec<TradeRecord>) -> (r: Vec<
    NewOptionContract,
>)
    ensures
        !is_option_market ==> r@.len() == 0,
        is_option_market ==> r@ == trades@.map_values(|t: TradeRecord| contract_of(market_id, t)),
{
    let mut out: Vec<NewOptionContract> = Vec::new();
    if !is_option_market {
        return out;
    }
    let mut i: usize = 0;
    while i < trades.len()
        invariant
            i <= trades@.len(),
            out@ == trades@.take(i as int).map_values(|t: TradeRecord| contract_of(market_id, t)),
        decreases trades@.len() - i,
    {
        let t = trades[i];
        out.push(
            NewOptionContract {
                option_market_id: market_id,
                buyer_id: t.buyer_id,
                writer_id: t.seller_id,
                remaining_amount: t.size,
            },
        );
        proof {
            assert(trades@.take(i + 1).map_values(|t: TradeRecord| contract_of(market_id, t))
                =~= trades@.take(i as int).map_values(|t: TradeRecord| contract_of(market_id, t)).push(
                contract_of(market_id, t),
            ));
        }
        i = i + 1;
    }
    proof {
        assert(trades@.take(trades@.len() as int) =~= trades@);
    }
    out
}

} // verus!

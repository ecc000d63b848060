//! Exposure and portfolio arithmetic: what an account could lose in the worst
//! case, and how orders and fills move its cached exposure.
use vstd::prelude::*;

use super::{OrderFill, Side};
use crate::money::{cents_ok, lemma_cents_product, money_ok, CENTS_LIMIT, MONEY_LIMIT};

verus! {

/// The cached exposure of one account in one market.  Position and sizes are
/// in cents, values (size times price) in money units.
#[derive(Clone, Copy, Debug)]
pub struct Exposure {
    pub position: i128,
    pub total_bid_size: i128,
    pub total_offer_size: i128,
    pub total_bid_value: i128,
    pub total_offer_value: i128,
}

/// An account's exposure in a market, joined with the market's settlement
/// bounds (cents).
#[derive(Clone, Copy, Debug)]
pub struct MarketExposure {
    pub market_id: i64,
    pub position: i128,
    pub total_bid_size: i128,
    pub total_offer_size: i128,
    pub total_bid_value: i128,
    pub total_offer_value: i128,
    pub min_settlement: i128,
    pub max_settlement: i128,
}

/// An owner's credit in an account it owns (money units).
#[derive(Clone, Copy, Debug)]
pub struct OwnerCredit {
    pub owner_id: i64,
    pub credit: i128,
}

/// An account's balance, exposures and owner credits.
#[derive(Debug)]
pub struct Portfolio {
    pub account_id: i64,
    pub total_balance: i128,
    pub available_balance: i128,
    pub market_exposures: Vec<MarketExposure>,
    pub owner_credits: Vec<OwnerCredit>,
    pub traded_market_ids: Vec<i64>,
}

impl Exposure {
    /// A row with nothing in it, as a new cache entry starts.
    pub open spec fn is_zero(self) -> bool {
        &&& self.position == 0
        &&& self.total_bid_size == 0
        &&& self.total_offer_size == 0
        &&& self.total_bid_value == 0
        &&& self.total_offer_value == 0
    }

    /// Every field is within the money range (beyond what the decimal type
    /// the exposures are kept in can hold).
    pub open spec fn bounded(self) -> bool {
        &&& money_ok(self.position as int)
        &&& money_ok(self.total_bid_size as int)
        &&& money_ok(self.total_offer_size as int)
        &&& money_ok(self.total_bid_value as int)
        &&& money_ok(self.total_offer_value as int)
    }

    pub fn zero() -> (r: Exposure)
        ensures
            r.is_zero(),
    {
        Exposure {
            position: 0,
            total_bid_size: 0,
            total_offer_size: 0,
            total_bid_value: 0,
            total_offer_value: 0,
        }
    }
}

/// How a fill or a new order moves an exposure.  A new order (`is_new`)
/// reserves `size_remaining` at `price` on its side; a fill releases
/// `size_filled` of the reserved size at `price` and moves the position by it
/// (up for a bid, down for an offer).
pub open spec fn updated_exposure(e: Exposure, is_new: bool, fill: OrderFill) -> Exposure {
    let size_change: int = if is_new {
        fill.size_remaining as int
    } else {
        -fill.size_filled
    };
    match fill.side {
        Side::Bid => Exposure {
            total_bid_size: (e.total_bid_size + size_change) as i128,
            total_bid_value: (e.total_bid_value + size_change * fill.price) as i128,
            position: (e.position + fill.size_filled) as i128,
            ..e
        },
        Side::Offer => Exposure {
            total_offer_size: (e.total_offer_size + size_change) as i128,
            total_offer_value: (e.total_offer_value + size_change * fill.price) as i128,
            position: (e.position - fill.size_filled) as i128,
            ..e
        },
    }
}

/// The inputs for which an update stays within the proved bounds.
pub open spec fn update_in_bounds(e: Exposure, is_new: bool, fill: OrderFill) -> bool {
    &&& e.bounded()
    &&& cents_ok(fill.size_filled as int)
    &&& cents_ok(fill.size_remaining as int)
    &&& cents_ok(fill.price as int)
    &&& updated_exposure(e, is_new, fill).bounded()
}

/// The new value of an exposure row after a new order or a fill
/// (the computation of the exposure-cache update).
pub fn update_exposure(e: &Exposure, is_new: bool, fill: &OrderFill) -> (r: Exposure)
    requires
        update_in_bounds(*e, is_new, *fill),
    ensures
        r == updated_exposure(*e, is_new, *fill),
{
    let size_change: i128 = if is_new {
        fill.size_remaining
    } else {
        -fill.size_filled
    };
    proof {
        lemma_cents_product(fill.price as int, size_change as int);
        assert(size_change * fill.price == fill.price * size_change) by (nonlinear_arith);
    }
    match fill.side {
        Side::Bid => Exposure {
            total_bid_size: e.total_bid_size + size_change,
            total_bid_value: e.total_bid_value + size_change * fill.price,
            position: e.position + fill.size_filled,
            ..*e
        },
        Side::Offer => Exposure {
            total_offer_size: e.total_offer_size + size_change,
            total_offer_value: e.total_offer_value + size_change * fill.price,
            position: e.position - fill.size_filled,
            ..*e
        },
    }
}

impl MarketExposure {
    /// Settlement at the minimum while every bid fills.
    pub open spec fn min_case(self) -> int {
        self.min_settlement * (self.position + self.total_bid_size) - self.total_bid_value
    }

    /// Settlement at the maximum while every offer fills.
    pub open spec fn max_case(self) -> int {
        self.max_settlement * (self.position - self.total_offer_size) + self.total_offer_value
    }

    pub open spec fn spec_worst_case_outcome(self) -> int {
        if self.min_case() <= self.max_case() {
            self.min_case()
        } else {
            self.max_case()
        }
    }

    /// The terms of both worst cases are within the money range (beyond
    /// what the decimal type the exposures are kept in can hold).
    pub open spec fn bounded(self) -> bool {
        &&& money_ok(self.position + self.total_bid_size)
        &&& money_ok(self.position - self.total_offer_size)
        &&& money_ok(self.min_settlement * (self.position + self.total_bid_size))
        &&& money_ok(self.max_settlement * (self.position - self.total_offer_size))
        &&& money_ok(self.total_bid_value as int)
        &&& money_ok(self.total_offer_value as int)
    }

    /// The account's cash outcome in this market in the worst case: the
    /// lesser of settling at the minimum with all bids filled and settling at
    /// the maximum with all offers filled.
    pub fn worst_case_outcome(&self) -> (r: i128)
        requires
            self.bounded(),
        ensures
            r == self.spec_worst_case_outcome(),
            r <= self.min_case(),
            r <= self.max_case(),
            -2 * MONEY_LIMIT <= r <= 2 * MONEY_LIMIT,
    {
        let resolves_min_case = self.min_settlement * (self.position + self.total_bid_size)
            - self.total_bid_value;
        let resolves_max_case = self.max_settlement * (self.position - self.total_offer_size)
            + self.total_offer_value;
        if resolves_min_case <= resolves_max_case {
            resolves_min_case
        } else {
            resolves_max_case
        }
    }
}

/// The sum of worst-case outcomes over a list of exposures.
pub open spec fn sum_worst_cases(es: Seq<MarketExposure>) -> int
    decreases es.len(),
{
    if es.len() == 0 {
        0
    } else {
        sum_worst_cases(es.drop_last()) + es.last().spec_worst_case_outcome()
    }
}

/// Every exposure is within the proved bounds, and the running sum of their
/// worst-case outcomes stays within the money range (the decimal type the
/// balances are kept in overflows well before that).
pub open spec fn exposures_bounded(es: Seq<MarketExposure>) -> bool {
    &&& forall|i: int| 0 <= i < es.len() ==> (#[trigger] es[i]).bounded()
    &&& forall|k: int| 0 <= k <= es.len() ==> money_ok(#[trigger] sum_worst_cases(es.take(k)))
}

/// The balance left to commit: the total balance plus the worst-case outcome
/// of every market the account is exposed in.
pub open spec fn spec_available_balance(total_balance: int, es: Seq<MarketExposure>) -> int {
    total_balance + sum_worst_cases(es)
}

pub fn available_balance(total_balance: i128, es: &Vec<MarketExposure>) -> (r: i128)
    requires
        money_ok(total_balance as int),
        exposures_bounded(es@),
    ensures
        r == spec_available_balance(total_balance as int, es@),
{
    let mut sum: i128 = 0;
    let mut i: usize = 0;
    while i < es.len()
        invariant
            i <= es.len(),
            exposures_bounded(es@),
            sum == sum_worst_cases(es@.take(i as int)),
            money_ok(sum as int),
        decreases es.len() - i,
    {
        proof {
            assert(es@.take(i + 1).drop_last() =~= es@.take(i as int));
            assert(es@.take(i + 1).last() == es@[i as int]);
            assert(money_ok(sum_worst_cases(es@.take(i + 1))));
        }
        let w = es[i].worst_case_outcome();
        sum = sum + w;
        i = i + 1;
    }
    proof {
        assert(es@.take(es.len() as int) =~= es@);
    }
    total_balance + sum
}

/// Build a portfolio from an account's balance and exposures: the available
/// balance is computed, owner credits and traded markets start empty.
pub fn compute_portfolio(account_id: i64, total_balance: i128, es: Vec<MarketExposure>) -> (r:
    Portfolio)
    requires
        money_ok(total_balance as int),
        exposures_bounded(es@),
    ensures
        r.account_id == account_id,
        r.total_balance == total_balance,
        r.available_balance == spec_available_balance(total_balance as int, es@),
        r.market_exposures@ == es@,
        r.owner_credits@.len() == 0,
        r.traded_market_ids@.len() == 0,
{
    let available = available_balance(total_balance, &es);
    Portfolio {
        account_id,
        total_balance,
        available_balance: available,
        market_exposures: es,
        owner_credits: Vec::new(),
        traded_market_ids: Vec::new(),
    }
}

pub open spec fn spec_has_open_positions(es: Seq<MarketExposure>) -> bool {
    exists|i: int| 0 <= i < es.len() && es[i].position != 0
}

impl Portfolio {
    /// Whether any market position of the account is nonzero.
    pub fn has_open_positions(&self) -> (r: bool)
        ensures
            r == spec_has_open_positions(self.market_exposures@),
    {
        let mut i: usize = 0;
        while i < self.market_exposures.len()
            invariant
                i <= self.market_exposures.len(),
                forall|j: int| 0 <= j < i ==> self.market_exposures@[j].position == 0,
            decreases self.market_exposures.len() - i,
        {
            if self.market_exposures[i].position != 0 {
                return true;
            }
            i = i + 1;
        }
        false
    }

    /// Whether the account, or any account it owns (one level down), has an
    /// open position.
    pub fn has_open_positions_recursive(&self, owned: &Vec<Portfolio>) -> (r: bool)
        ensures
            r == (spec_has_open_positions(self.market_exposures@) || exists|k: int|
                0 <= k < owned@.len() && spec_has_open_positions(
                    #[trigger] owned@[k].market_exposures@,
                )),
    {
        if self.has_open_positions() {
            return true;
        }
        let mut k: usize = 0;
        while k < owned.len()
            invariant
                k <= owned.len(),
                forall|j: int|
                    0 <= j < k ==> !spec_has_open_positions(#[trigger] owned@[j].market_exposures@),
            decreases owned.len() - k,
        {
            if owned[k].has_open_positions() {
                return true;
            }
            k = k + 1;
        }
        false
    }
}

} // verus!

//! Settling a market: the settlement price and what each position is paid.
use vstd::prelude::*;

use super::ValidationFailure;
use crate::money::{
    cents_ok, lemma_normalized_scaled_value, money_ok, normalize, normalized, pow10, scaled_value,
    to_scaled, wf_parts,
    DecimalParts, CENTS_LIMIT,
};

verus! {

/// The market row a settlement is checked against (bounds in cents).
#[derive(Clone, Copy, Debug)]
pub struct SettleMarketInfo {
    pub owner_id: i64,
    pub already_settled: bool,
    pub is_option: bool,
    pub min_settlement: i128,
    pub max_settlement: i128,
}

/// A constituent of a fund: its settlement price (cents) if it has settled,
/// and how many of it one fund unit holds.
#[derive(Clone, Copy, Debug)]
pub struct ConstituentSettlement {
    pub settled_price: Option<i128>,
    pub multiplier: i64,
}

/// The sum of the constituents' settlement values, or `None` when one has not
/// settled yet.
pub open spec fn constituent_sum(cs: Seq<ConstituentSettlement>) -> Option<int>
    decreases cs.len(),
{
    if cs.len() == 0 {
        Some(0)
    } else {
        match (constituent_sum(cs.drop_last()), cs.last().settled_price) {
            (Some(s), Some(p)) => Some(s + p * cs.last().multiplier),
            _ => None,
        }
    }
}

/// Each constituent's settlement value, and the running sum of them, are
/// within the money range (beyond what the decimal type the price is
/// computed in can hold).
pub open spec fn constituents_bounded(cs: Seq<ConstituentSettlement>) -> bool {
    &&& forall|i: int|
        0 <= i < cs.len() ==> ((#[trigger] cs[i]).settled_price matches Some(p) ==> money_ok(
            p * cs[i].multiplier,
        ))
    &&& forall|k: int|
        0 <= k <= cs.len() ==> (#[trigger] constituent_sum(cs.take(k)) matches Some(s)
            ==> money_ok(s))
}

pub open spec fn spec_decide_settle_market(
    market: SettleMarketInfo,
    user_id: i64,
    admin_override: bool,
    requested: DecimalParts,
    constituents: Seq<ConstituentSettlement>,
) -> Result<int, ValidationFailure> {
    if market.already_settled {
        Err(ValidationFailure::MarketSettled)
    } else if market.is_option {
        Err(ValidationFailure::NotOptionMarket)
    } else if market.owner_id != user_id && !admin_override {
        Err(ValidationFailure::NotMarketOwner)
    } else if constituents.len() > 0 {
        match constituent_sum(constituents) {
            None => Err(ValidationFailure::ConstituentNotSettled),
            Some(p) => if market.min_settlement > p || market.max_settlement < p {
                Err(ValidationFailure::InvalidSettlementPrice)
            } else {
                Ok(p)
            },
        }
    } else if normalized(requested).scale > 2 {
        Err(ValidationFailure::InvalidSettlementPrice)
    } else {
        let p = scaled_value(normalized(requested), 2);
        if market.min_settlement > p || market.max_settlement < p {
            Err(ValidationFailure::InvalidSettlementPrice)
        } else {
            Ok(p)
        }
    }
}

/// Decide a settlement request.  A market settles once, never when it is an
/// option, only by its owner unless an admin overrides.  A fund settles at
/// the sum of its settled constituents times their multipliers (refused while
/// one is unsettled); any other market at the requested price, which must
/// have at most two places.  The price must lie within the market's bounds.
/// Returns the settlement price in cents.
pub fn decide_settle_market(
    market: SettleMarketInfo,
    user_id: i64,
    admin_override: bool,
    requested: DecimalParts,
    constituents: &Vec<ConstituentSettlement>,
) -> (r: Result<i128, ValidationFailure>)
    requires
        wf_parts(requested),
        constituents_bounded(constituents@),
    ensures
        r matches Ok(p) ==> spec_decide_settle_market(
            market,
            user_id,
            admin_override,
            requested,
            constituents@,
        ) == Ok::<int, ValidationFailure>(p as int),
        r matches Err(f) ==> spec_decide_settle_market(
            market,
            user_id,
            admin_override,
            requested,
            constituents@,
        ) == Err::<int, ValidationFailure>(f),
{
    if market.already_settled {
        return Err(ValidationFailure::MarketSettled);
    }
    if market.is_option {
        return Err(ValidationFailure::NotOptionMarket);
    }
    if market.owner_id != user_id && !admin_override {
        return Err(ValidationFailure::NotMarketOwner);
    }
    let price: i128 = if constituents.len() > 0 {
        let mut sum: i128 = 0;
        let mut i: usize = 0;
        while i < constituents.len()
            invariant
                i <= constituents.len(),
                constituents_bounded(constituents@),
                constituent_sum(constituents@.take(i as int)) == Some(sum as int),
                money_ok(sum as int),
                !market.already_settled,
                !market.is_option,
                market.owner_id == user_id || admin_override,
            decreases constituents.len() - i,
        {
            let c = constituents[i];
            proof {
                assert(constituents@.take(i + 1).drop_last() =~= constituents@.take(i as int));
                assert(constituents@.take(i + 1).last() == c);
            }
            match c.settled_price {
                None => {
                    proof {
                        lemma_constituent_sum_none(constituents@, (i + 1) as int);
                    }
                    return Err(ValidationFailure::ConstituentNotSettled);
                },
                Some(p) => {
                    proof {
                        assert(money_ok(p * c.multiplier));
                        assert(constituent_sum(constituents@.take(i + 1)) == Some(
                            sum + p * c.multiplier,
                        ));
                        assert(money_ok(sum + p * c.multiplier));
                    }
                    sum = sum + p * (c.multiplier as i128);
                },
            }
            i = i + 1;
        }
        proof {
            assert(constituents@.take(constituents.len() as int) =~= constituents@);
        }
        sum
    } else {
        let n = normalize(requested);
        if n.scale > 2 {
            return Err(ValidationFailure::InvalidSettlementPrice);
        }
        to_scaled(n, 2)
    };
    if market.min_settlement > price || market.max_settlement < price {
        return Err(ValidationFailure::InvalidSettlementPrice);
    }
    Ok(price)
}

/// A market that is not a fund or an option, unsettled, and settled by its
/// owner (or an admin) settles at the requested price whenever that price
/// has at most two decimal places and lies within the market's bounds: the
/// result is the price counted in cents.
pub proof fn lemma_settles_at_requested_price(
    market: SettleMarketInfo,
    user_id: i64,
    admin_override: bool,
    requested: DecimalParts,
)
    requires
        wf_parts(requested),
        requested.scale <= 2,
        !market.already_settled,
        !market.is_option,
        market.owner_id == user_id || admin_override,
        market.min_settlement <= requested.mantissa * pow10((2 - requested.scale) as nat)
            <= market.max_settlement,
    ensures
        spec_decide_settle_market(market, user_id, admin_override, requested, Seq::empty())
            == Ok::<int, ValidationFailure>(requested.mantissa * pow10((2 - requested.scale) as nat)),
{
    lemma_normalized_scaled_value(requested, 2);
}

/// Such a market refuses a requested price outside its bounds.
pub proof fn lemma_refuses_price_outside_bounds(
    market: SettleMarketInfo,
    user_id: i64,
    admin_override: bool,
    requested: DecimalParts,
)
    requires
        wf_parts(requested),
        requested.scale <= 2,
        !market.already_settled,
        !market.is_option,
        market.owner_id == user_id || admin_override,
        requested.mantissa * pow10((2 - requested.scale) as nat) < market.min_settlement
            || market.max_settlement < requested.mantissa * pow10((2 - requested.scale) as nat),
    ensures
        spec_decide_settle_market(market, user_id, admin_override, requested, Seq::empty())
            == Err::<int, ValidationFailure>(ValidationFailure::InvalidSettlementPrice),
{
    lemma_normalized_scaled_value(requested, 2);
}

proof fn lemma_constituent_sum_none(cs: Seq<ConstituentSettlement>, k: int)
    requires
        0 < k <= cs.len(),
        cs[k - 1].settled_price is None,
    ensures
        constituent_sum(cs) is None,
    decreases cs.len(),
{
    if k < cs.len() {
        lemma_constituent_sum_none(cs.drop_last(), k);
        assert(cs.drop_last()[k - 1] == cs[k - 1]);
    } else {
        assert(cs.last() == cs[k - 1]);
    }
}

/// An account's position (cents) in the market being settled.
#[derive(Clone, Copy, Debug)]
pub struct AccountPosition {
    pub account_id: i64,
    pub position: i128,
}

/// A change to an account's balance (money units).
#[derive(Clone, Copy, Debug)]
pub struct BalanceChange {
    pub account_id: i64,
    pub change: i128,
}

pub open spec fn payout_of(p: AccountPosition, price: int) -> BalanceChange {
    BalanceChange { account_id: p.account_id, change: (p.position * price) as i128 }
}

/// Every payout at `price` is within the money range (beyond what the
/// decimal type the balances are kept in can hold).
pub open spec fn payouts_fit(ps: Seq<AccountPosition>, price: int) -> bool {
    forall|i: int| 0 <= i < ps.len() ==> money_ok((#[trigger] ps[i]).position * price)
}

/// Pay every position at the settlement price: each account's balance moves
/// by its position times the price, in the order given.
pub fn settlement_payouts(positions: &Vec<AccountPosition>, price: i128) -> (r: Vec<BalanceChange>)
    requires
        payouts_fit(positions@, price as int),
    ensures
        r@.len() == positions@.len(),
        forall|i: int| 0 <= i < r@.len() ==> #[trigger] r@[i] == payout_of(positions@[i], price as int),
{
    let mut out: Vec<BalanceChange> = Vec::new();
    let mut i: usize = 0;
    while i < positions.len()
        invariant
            i <= positions.len(),
            payouts_fit(positions@, price as int),
            out@.len() == i,
            forall|j: int| 0 <= j < i ==> #[trigger] out@[j] == payout_of(positions@[j], price as int),
        decreases positions.len() - i,
    {
        let p = positions[i];
        proof {
            assert(money_ok(p.position * price));
        }
        out.push(BalanceChange { account_id: p.account_id, change: p.position * price });
        i = i + 1;
    }
    out
}

pub open spec fn sum_positions(ps: Seq<AccountPosition>) -> int
    decreases ps.len(),
{
    if ps.len() == 0 {
        0
    } else {
        sum_positions(ps.drop_last()) + ps.last().position
    }
}

pub open spec fn sum_changes(cs: Seq<BalanceChange>) -> int
    decreases cs.len(),
{
    if cs.len() == 0 {
        0
    } else {
        sum_changes(cs.drop_last()) + cs.last().change
    }
}

/// Settlement pays out exactly the price times the net position across all
/// accounts; when every long is matched by a short (net zero), settlement
/// moves no money into or out of the market.
pub proof fn lemma_settlement_total(positions: Seq<AccountPosition>, price: int, payouts: Seq<
    BalanceChange,
>)
    requires
        payouts_fit(positions, price),
        payouts.len() == positions.len(),
        forall|i: int| 0 <= i < payouts.len() ==> #[trigger] payouts[i] == payout_of(positions[i], price),
    ensures
        sum_changes(payouts) == price * sum_positions(positions),
        sum_positions(positions) == 0 ==> sum_changes(payouts) == 0,
    decreases positions.len(),
{
    if positions.len() > 0 {
        let n = (positions.len() - 1) as int;
        let pl = positions.drop_last();
        let cl = payouts.drop_last();
        assert forall|i: int| 0 <= i < cl.len() implies #[trigger] cl[i] == payout_of(pl[i], price) by {
            assert(cl[i] == payouts[i]);
            assert(pl[i] == positions[i]);
        }
        assert(payouts_fit(pl, price)) by {
            assert forall|i: int| 0 <= i < pl.len() implies money_ok((#[trigger] pl[i]).position * price) by {
                assert(pl[i] == positions[i]);
            }
        }
        lemma_settlement_total(pl, price, cl);
        assert(payouts.last() == payout_of(positions[n], price));
        assert(money_ok(positions[n].position * price));
        assert(price * (sum_positions(pl) + positions.last().position) == price * sum_positions(pl)
            + price * positions.last().position) by (nonlinear_arith);
        assert(positions.last().position * price == price * positions.last().position)
            by (nonlinear_arith);
    }
}

} // verus!

//! Auctions: who may change one, and settling one — the price, who pays
//! how much of it, whose it becomes, and the balances that move.
use vstd::prelude::*;

use super::ValidationFailure;
use crate::money::{
    lemma_normalized_scaled_value, lemma_scaled_value_bounded, normalize, pow10, normalized, scaled_value, to_scaled, wf_parts,
    DecimalParts, MAX_MANTISSA,
};

verus! {

/// Whether a user may delete or edit an auction (`auction` gives its owner
/// and whether it has settled, `None` when there is no such auction;
/// `actor_is_user` tells whether the acting account is a user account,
/// which is what lets it act on others' auctions, and then only in sudo
/// mode).
pub open spec fn spec_auction_change(
    auction: Option<(i64, bool)>,
    user_id: i64,
    actor_is_user: bool,
    sudo: bool,
) -> Result<(), ValidationFailure> {
    match auction {
        None => Err(ValidationFailure::AuctionNotFound),
        Some((owner_id, settled)) => if settled && !actor_is_user {
            Err(ValidationFailure::AuctionSettled)
        } else if owner_id != user_id && !actor_is_user {
            Err(ValidationFailure::NotAuctionOwner)
        } else if owner_id != user_id && !sudo {
            Err(ValidationFailure::SudoRequired)
        } else {
            Ok(())
        },
    }
}

/// Decide whether a user may delete or edit an auction.
pub fn decide_auction_change(auction: Option<(i64, bool)>, user_id: i64, actor_is_user: bool, sudo: bool) -> (r:
    Result<(), ValidationFailure>)
    ensures
        r == spec_auction_change(auction, user_id, actor_is_user, sudo),
{
    let (owner_id, settled) = match auction {
        None => return Err(ValidationFailure::AuctionNotFound),
        Some(a) => a,
    };
    if settled && !actor_is_user {
        return Err(ValidationFailure::AuctionSettled);
    }
    if owner_id != user_id {
        if !actor_is_user {
            return Err(ValidationFailure::NotAuctionOwner);
        }
        if !sudo {
            return Err(ValidationFailure::SudoRequired);
        }
    }
    Ok(())
}

/// One buyer's part of a settlement as requested: the amount is `None`
/// when the number sent could not be read as a decimal.
#[derive(Clone, Copy, Debug)]
pub struct ContributionInput {
    pub buyer_id: i64,
    pub amount: Option<DecimalParts>,
}

/// A settlement request.  `price` is `None` when the number sent could not
/// be read as a decimal; `price_negative` tells whether it was below zero,
/// `price_is_buy_now_marker` whether it was the marker (-1) asking for the
/// buy-it-now price.  Without contributions, `buyer_id` buys alone.
#[derive(Debug)]
pub struct SettleAuctionRequest {
    pub price: Option<DecimalParts>,
    pub price_negative: bool,
    pub price_is_buy_now_marker: bool,
    pub buyer_id: i64,
    pub contributions: Vec<ContributionInput>,
    pub owner_id: Option<i64>,
}

/// The auction being settled: whether it already is, its buy-it-now price
/// if any, and its seller.
#[derive(Clone, Copy, Debug)]
pub struct AuctionInfo {
    pub settled: bool,
    pub buy_now_price: Option<DecimalParts>,
    pub seller_id: i64,
}

/// A buyer's accepted part of a settlement, in cents.
#[derive(Clone, Copy, Debug, PartialEq, Eq, Structural)]
pub struct Contribution {
    pub buyer_id: i64,
    pub amount: i128,
}

/// An accepted settlement: the total price (cents), the account labelled
/// as the new owner (0 for none), and each buyer's part.
#[derive(Debug)]
pub struct AuctionSettlement {
    pub total: i128,
    pub labeled_owner: i64,
    pub contributions: Vec<Contribution>,
}

/// The price an auction settles at, before its places are checked.
pub open spec fn spec_settle_price(req: SettleAuctionRequest, auction: AuctionInfo) -> Result<
    DecimalParts,
    ValidationFailure,
> {
    if req.price is None {
        Err(ValidationFailure::InvalidSettlementPrice)
    } else if auction.settled {
        Err(ValidationFailure::MarketSettled)
    } else {
        match auction.buy_now_price {
            Some(b) => if req.contributions@.len() == 0 && req.price_is_buy_now_marker {
                Ok(b)
            } else if req.price_negative {
                Err(ValidationFailure::InvalidSettlementPrice)
            } else {
                Ok(req.price->Some_0)
            },
            None => if req.price_negative {
                Err(ValidationFailure::InvalidSettlementPrice)
            } else {
                Ok(req.price->Some_0)
            },
        }
    }
}

/// The contributions as requested, checked in order: each amount must be a
/// decimal with at most two places that is not negative.
pub open spec fn spec_contributions(cs: Seq<ContributionInput>) -> Result<Seq<Contribution>, ValidationFailure>
    decreases cs.len(),
{
    if cs.len() == 0 {
        Ok(Seq::empty())
    } else {
        match spec_contributions(cs.drop_last()) {
            Err(f) => Err(f),
            Ok(done) => {
                let c = cs.last();
                match c.amount {
                    None => Err(ValidationFailure::InvalidSettlementPrice),
                    Some(a) => if normalized(a).scale > 2 {
                        Err(ValidationFailure::InvalidSettlementPrice)
                    } else if normalized(a).mantissa < 0 {
                        Err(ValidationFailure::ContributionMustNotBeNegative)
                    } else {
                        Ok(
                            done.push(
                                Contribution {
                                    buyer_id: c.buyer_id,
                                    amount: scaled_value(normalized(a), 2) as i128,
                                },
                            ),
                        )
                    },
                }
            },
        }
    }
}

/// The first problem with the buyers, in order: a buyer named twice, or
/// the seller buying.
pub open spec fn buyer_problem(cs: Seq<Contribution>, seller_id: i64) -> Option<ValidationFailure>
    decreases cs.len(),
{
    if cs.len() == 0 {
        None
    } else {
        match buyer_problem(cs.drop_last(), seller_id) {
            Some(f) => Some(f),
            None => if exists|j: int|
                0 <= j < cs.len() - 1 && (#[trigger] cs[j]).buyer_id == cs.last().buyer_id {
                Some(ValidationFailure::DuplicateContributor)
            } else if cs.last().buyer_id == seller_id {
                Some(ValidationFailure::BuyerIsSeller)
            } else {
                None
            },
        }
    }
}

/// The sum of the contributions (cents).
pub open spec fn contribution_sum(cs: Seq<Contribution>) -> int
    decreases cs.len(),
{
    if cs.len() == 0 {
        0
    } else {
        contribution_sum(cs.drop_last()) + cs.last().amount
    }
}

/// The account labelled as the auction's new owner: the one asked for (not
/// 0), which must be a buyer; else the only buyer, if there is one; else 0.
pub open spec fn spec_labeled_owner(owner: Option<i64>, cs: Seq<Contribution>) -> Result<i64, ValidationFailure> {
    match owner {
        Some(id) => if id != 0 {
            if exists|j: int| 0 <= j < cs.len() && (#[trigger] cs[j]).buyer_id == id {
                Ok(id)
            } else {
                Err(ValidationFailure::OwnerNotInContributions)
            }
        } else if cs.len() == 1 {
            Ok(cs[0].buyer_id)
        } else {
            Ok(0)
        },
        None => if cs.len() == 1 {
            Ok(cs[0].buyer_id)
        } else {
            Ok(0)
        },
    }
}

/// What settling an auction as requested gives: the total (cents), the
/// labelled owner and the buyers' parts; or why it is refused.  Without
/// contributions, the legacy buyer pays the whole price.
pub open spec fn spec_settle_auction(req: SettleAuctionRequest, auction: AuctionInfo) -> Result<
    (int, i64, Seq<Contribution>),
    ValidationFailure,
> {
    match spec_settle_price(req, auction) {
        Err(f) => Err(f),
        Ok(p) => if normalized(p).scale > 2 {
            Err(ValidationFailure::InvalidSettlementPrice)
        } else {
            let total = scaled_value(normalized(p), 2);
            let parts: Result<Seq<Contribution>, ValidationFailure> = if req.contributions@.len()
                == 0 {
                Ok(seq![Contribution { buyer_id: req.buyer_id, amount: total as i128 }])
            } else {
                spec_contributions(req.contributions@)
            };
            match parts {
                Err(f) => Err(f),
                Ok(cs) => if cs.len() == 0 {
                    Err(ValidationFailure::EmptyContributions)
                } else {
                    match buyer_problem(cs, auction.seller_id) {
                        Some(f) => Err(f),
                        None => if contribution_sum(cs) != total {
                            Err(ValidationFailure::ContributionsDontSumToTotal)
                        } else {
                            match spec_labeled_owner(req.owner_id, cs) {
                                Err(f) => Err(f),
                                Ok(owner) => Ok((total, owner, cs)),
                            }
                        },
                    }
                },
            }
        },
    }
}

/// Requests within the proved bounds.
pub open spec fn settle_request_ok(req: SettleAuctionRequest, auction: AuctionInfo) -> bool {
    &&& req.price matches Some(p) ==> wf_parts(p)
    &&& auction.buy_now_price matches Some(p) ==> wf_parts(p)
    &&& forall|i: int|
        0 <= i < req.contributions@.len() ==> ((#[trigger] req.contributions@[i]).amount matches Some(
            a,
        ) ==> wf_parts(a))
}

proof fn lemma_contribution_sum_bound(cs: Seq<Contribution>)
    requires
        forall|i: int| 0 <= i < cs.len() ==> 0 <= (#[trigger] cs[i]).amount <= MAX_MANTISSA * 100,
    ensures
        0 <= contribution_sum(cs) <= MAX_MANTISSA * 100 * cs.len(),
    decreases cs.len(),
{
    if cs.len() > 0 {
        let t = cs.drop_last();
        assert forall|i: int| 0 <= i < t.len() implies 0 <= (#[trigger] t[i]).amount <= MAX_MANTISSA
            * 100 by {
            assert(t[i] == cs[i]);
        }
        lemma_contribution_sum_bound(t);
        assert(cs.last() == cs[cs.len() - 1]);
        assert(MAX_MANTISSA * 100 * cs.len() == MAX_MANTISSA * 100 * t.len() + MAX_MANTISSA * 100)
            by (nonlinear_arith)
            requires
                cs.len() == t.len() + 1,
        ;
    }
}

/// Check the requested contributions in order.
fn check_contributions(cs: &Vec<ContributionInput>) -> (r: Result<Vec<Contribution>, ValidationFailure>)
    requires
        forall|i: int| 0 <= i < cs@.len() ==> ((#[trigger] cs@[i]).amount matches Some(a) ==> wf_parts(a)),
    ensures
        match (r, spec_contributions(cs@)) {
            (Ok(a), Ok(b)) => a@ == b,
            (Err(a), Err(b)) => a == b,
            _ => false,
        },
        r matches Ok(v) ==> v@.len() == cs@.len() && forall|i: int|
            0 <= i < v@.len() ==> 0 <= (#[trigger] v@[i]).amount <= MAX_MANTISSA * 100,
{
    let mut out: Vec<Contribution> = Vec::new();
    let mut i: usize = 0;
    while i < cs.len()
        invariant
            i <= cs@.len(),
            forall|k: int| 0 <= k < cs@.len() ==> ((#[trigger] cs@[k]).amount matches Some(a) ==> wf_parts(a)),
            spec_contributions(cs@.take(i as int)) == Ok::<Seq<Contribution>, ValidationFailure>(out@),
            out@.len() == i,
            forall|k: int| 0 <= k < out@.len() ==> 0 <= (#[trigger] out@[k]).amount <= MAX_MANTISSA * 100,
        decreases cs@.len() - i,
    {
        proof {
            assert(cs@.take(i + 1).drop_last() =~= cs@.take(i as int));
            assert(cs@.take(i + 1).last() == cs@[i as int]);
        }
        let c = cs[i];
        let a = match c.amount {
            None => {
                proof {
                    lemma_contributions_stop(cs@, i as int);
                }
                return Err(ValidationFailure::InvalidSettlementPrice);
            },
            Some(a) => a,
        };
        let n = normalize(a);
        if n.scale > 2 {
            proof {
                lemma_contributions_stop(cs@, i as int);
            }
            return Err(ValidationFailure::InvalidSettlementPrice);
        }
        if n.mantissa < 0 {
            proof {
                lemma_contributions_stop(cs@, i as int);
            }
            return Err(ValidationFailure::ContributionMustNotBeNegative);
        }
        proof {
            lemma_scaled_value_bounded(n, 2);
        }
        let amount = to_scaled(n, 2);
        out.push(Contribution { buyer_id: c.buyer_id, amount });
        i = i + 1;
    }
    proof {
        assert(cs@.take(cs@.len() as int) =~= cs@);
    }
    Ok(out)
}

/// Once the contributions of a prefix fail, so do all of them.
proof fn lemma_contributions_stop(cs: Seq<ContributionInput>, i: int)
    requires
        0 <= i < cs.len(),
        spec_contributions(cs.take(i + 1)) is Err,
    ensures
        spec_contributions(cs) == spec_contributions(cs.take(i + 1)),
    decreases cs.len() - i,
{
    if i + 1 < cs.len() {
        assert(cs.take(i + 2).drop_last() =~= cs.take(i + 1));
        lemma_contributions_stop(cs, i + 1);
    } else {
        assert(cs.take(i + 1) =~= cs);
    }
}

/// The first problem with the buyers.
fn check_buyers(cs: &Vec<Contribution>, seller_id: i64) -> (r: Option<ValidationFailure>)
    ensures
        r == buyer_problem(cs@, seller_id),
{
    let mut i: usize = 0;
    while i < cs.len()
        invariant
            i <= cs@.len(),
            buyer_problem(cs@.take(i as int), seller_id) is None,
        decreases cs@.len() - i,
    {
        let ghost pre = cs@.take(i + 1);
        proof {
            assert(pre.drop_last() =~= cs@.take(i as int));
            assert(pre.last() == cs@[i as int]);
        }
        let mut dup = false;
        let mut j: usize = 0;
        while j < i
            invariant
                j <= i < cs@.len(),
                pre == cs@.take(i + 1),
                dup <==> exists|k: int| 0 <= k < j && (#[trigger] pre[k]).buyer_id == pre.last().buyer_id,
            decreases i - j,
        {
            if cs[j].buyer_id == cs[i].buyer_id {
                proof {
                    assert(pre[j as int] == cs@[j as int]);
                }
                dup = true;
            }
            proof {
                assert(pre[j as int] == cs@[j as int]);
            }
            j = j + 1;
        }
        if dup {
            proof {
                lemma_buyers_stop(cs@, seller_id, i as int);
            }
            return Some(ValidationFailure::DuplicateContributor);
        }
        if cs[i].buyer_id == seller_id {
            proof {
                lemma_buyers_stop(cs@, seller_id, i as int);
            }
            return Some(ValidationFailure::BuyerIsSeller);
        }
        i = i + 1;
    }
    proof {
        assert(cs@.take(cs@.len() as int) =~= cs@);
    }
    None
}

/// Once a prefix of the buyers has a problem, it is the first problem.
proof fn lemma_buyers_stop(cs: Seq<Contribution>, seller_id: i64, i: int)
    requires
        0 <= i < cs.len(),
        buyer_problem(cs.take(i + 1), seller_id) is Some,
    ensures
        buyer_problem(cs, seller_id) == buyer_problem(cs.take(i + 1), seller_id),
    decreases cs.len() - i,
{
    if i + 1 < cs.len() {
        assert(cs.take(i + 2).drop_last() =~= cs.take(i + 1));
        lemma_buyers_stop(cs, seller_id, i + 1);
    } else {
        assert(cs.take(i + 1) =~= cs);
    }
}

/// Whether the parts add up to exactly `total`.  The running sum is never
/// allowed past the total: once it is, the parts (none negative) cannot
/// add up to it.
fn contributions_sum_to(cs: &Vec<Contribution>, total: i128) -> (r: bool)
    requires
        0 <= total <= MAX_MANTISSA * 100,
        forall|i: int| 0 <= i < cs@.len() ==> 0 <= (#[trigger] cs@[i]).amount <= MAX_MANTISSA * 100,
    ensures
        r == (contribution_sum(cs@) == total),
{
    let mut s: i128 = 0;
    let mut i: usize = 0;
    while i < cs.len()
        invariant
            i <= cs@.len(),
            0 <= total <= MAX_MANTISSA * 100,
            forall|k: int| 0 <= k < cs@.len() ==> 0 <= (#[trigger] cs@[k]).amount <= MAX_MANTISSA * 100,
            s == contribution_sum(cs@.take(i as int)),
            s <= total,
        decreases cs@.len() - i,
    {
        proof {
            assert(cs@.take(i + 1).drop_last() =~= cs@.take(i as int));
            assert(cs@.take(i + 1).last() == cs@[i as int]);
        }
        s = s + cs[i].amount;
        if s > total {
            proof {
                lemma_prefix_sum_le(cs@, (i + 1) as int);
            }
            return false;
        }
        i = i + 1;
    }
    proof {
        assert(cs@.take(cs@.len() as int) =~= cs@);
    }
    s == total
}

/// Check and settle an auction's price and buyers: the price (or, asked
/// for with the marker, the buy-it-now price) must be a decimal with at
/// most two places that is not negative; each buyer's part likewise; no
/// buyer twice, none the seller; the parts must add up to the price; a
/// labelled owner must be one of the buyers.
pub fn validate_auction_settlement(req: &SettleAuctionRequest, auction: AuctionInfo) -> (r: Result<
    AuctionSettlement,
    ValidationFailure,
>)
    requires
        settle_request_ok(*req, auction),
    ensures
        match (r, spec_settle_auction(*req, auction)) {
            (Ok(s), Ok((total, owner, cs))) => s.total == total && s.labeled_owner == owner
                && s.contributions@ == cs,
            (Err(a), Err(b)) => a == b,
            _ => false,
        },
{
    let price = match req.price {
        None => return Err(ValidationFailure::InvalidSettlementPrice),
        Some(p) => p,
    };
    if auction.settled {
        return Err(ValidationFailure::MarketSettled);
    }
    let chosen = match auction.buy_now_price {
        Some(b) => {
            if req.contributions.len() == 0 && req.price_is_buy_now_marker {
                b
            } else if req.price_negative {
                return Err(ValidationFailure::InvalidSettlementPrice);
            } else {
                price
            }
        },
        None => {
            if req.price_negative {
                return Err(ValidationFailure::InvalidSettlementPrice);
            }
            price
        },
    };
    let n = normalize(chosen);
    if n.scale > 2 {
        return Err(ValidationFailure::InvalidSettlementPrice);
    }
    proof {
        lemma_scaled_value_bounded(n, 2);
    }
    let total = to_scaled(n, 2);
    let contributions: Vec<Contribution> = if req.contributions.len() == 0 {
        let mut v: Vec<Contribution> = Vec::new();
        v.push(Contribution { buyer_id: req.buyer_id, amount: total });
        proof {
            assert(v@ =~= seq![Contribution { buyer_id: req.buyer_id, amount: total }]);
        }
        v
    } else {
        match check_contributions(&req.contributions) {
            Ok(v) => v,
            Err(f) => return Err(f),
        }
    };
    if contributions.len() == 0 {
        return Err(ValidationFailure::EmptyContributions);
    }
    if let Some(f) = check_buyers(&contributions, auction.seller_id) {
        return Err(f);
    }
    proof {
        if req.contributions@.len() == 0 {
            reveal_with_fuel(contribution_sum, 2);
        }
    }
    let sums_to_total = if req.contributions.len() == 0 {
        true
    } else if total < 0 {
        proof {
            lemma_contribution_sum_bound(contributions@);
        }
        false
    } else {
        contributions_sum_to(&contributions, total)
    };
    if !sums_to_total {
        return Err(ValidationFailure::ContributionsDontSumToTotal);
    }
    let labeled_owner = match req.owner_id {
        Some(id) if id != 0 => {
            let mut found = false;
            let mut k: usize = 0;
            while k < contributions.len()
                invariant
                    k <= contributions@.len(),
                    found <==> exists|j: int| 0 <= j < k && (#[trigger] contributions@[j]).buyer_id == id,
                decreases contributions@.len() - k,
            {
                if contributions[k].buyer_id == id {
                    found = true;
                }
                k = k + 1;
            }
            if !found {
                return Err(ValidationFailure::OwnerNotInContributions);
            }
            id
        },
        _ => {
            if contributions.len() == 1 {
                contributions[0].buyer_id
            } else {
                0
            }
        },
    };
    Ok(AuctionSettlement { total, labeled_owner, contributions })
}

/// The buyers' new balances (money units) when each pays their part, or
/// `None` when a buyer (the first in order) cannot pay it.
pub open spec fn buyers_after(cs: Seq<Contribution>, balances: Seq<i128>) -> Option<Seq<int>>
    decreases cs.len(),
{
    if cs.len() == 0 {
        Some(Seq::empty())
    } else {
        match buyers_after(cs.drop_last(), balances) {
            None => None,
            Some(done) => {
                let k = cs.len() - 1;
                let left = balances[k] - 100 * cs[k].amount;
                if left < 0 {
                    None
                } else {
                    Some(done.push(left))
                }
            },
        }
    }
}

/// The sum of a sequence of integers.
pub open spec fn int_sum(s: Seq<int>) -> int
    decreases s.len(),
{
    if s.len() == 0 {
        0
    } else {
        int_sum(s.drop_last()) + s.last()
    }
}

/// The sum of a sequence of balances.
pub open spec fn balance_sum(s: Seq<i128>) -> int
    decreases s.len(),
{
    if s.len() == 0 {
        0
    } else {
        balance_sum(s.drop_last()) + s.last()
    }
}

/// Balances within the proved bounds.
pub open spec fn auction_balances_ok(cs: Seq<Contribution>, balances: Seq<i128>, seller_balance: i128) -> bool {
    &&& cs.len() == balances.len()
    &&& forall|i: int| 0 <= i < cs.len() ==> 0 <= (#[trigger] cs[i]).amount <= MAX_MANTISSA * 100
    &&& forall|i: int| 0 <= i < balances.len() ==> crate::money::money_ok(#[trigger] balances[i] as int)
    &&& crate::money::money_ok(seller_balance as int)
    &&& contribution_sum(cs) <= MAX_MANTISSA * 100
}

proof fn lemma_sum_nonneg(cs: Seq<Contribution>)
    requires
        forall|k: int| 0 <= k < cs.len() ==> 0 <= (#[trigger] cs[k]).amount,
    ensures
        0 <= contribution_sum(cs),
    decreases cs.len(),
{
    if cs.len() > 0 {
        let t = cs.drop_last();
        assert forall|k: int| 0 <= k < t.len() implies 0 <= (#[trigger] t[k]).amount by {
            assert(t[k] == cs[k]);
        }
        lemma_sum_nonneg(t);
        assert(cs.last() == cs[cs.len() - 1]);
    }
}

proof fn lemma_prefix_sum_le(cs: Seq<Contribution>, i: int)
    requires
        0 <= i <= cs.len(),
        forall|k: int| 0 <= k < cs.len() ==> 0 <= (#[trigger] cs[k]).amount,
    ensures
        0 <= contribution_sum(cs.take(i)) <= contribution_sum(cs),
    decreases cs.len(),
{
    if i == cs.len() {
        assert(cs.take(i) =~= cs);
        lemma_sum_nonneg(cs);
    } else {
        let t = cs.drop_last();
        assert forall|k: int| 0 <= k < t.len() implies 0 <= (#[trigger] t[k]).amount by {
            assert(t[k] == cs[k]);
        }
        lemma_prefix_sum_le(t, i);
        assert(t.take(i) =~= cs.take(i));
        assert(cs.last() == cs[cs.len() - 1]);
    }
}

/// Move the money of a settled auction: each buyer (in order) pays their
/// part out of their balance, which must not go below zero; the seller
/// receives the whole price.  Gives the buyers' new balances and the
/// seller's.
pub fn settle_auction_balances(cs: &Vec<Contribution>, balances: &Vec<i128>, seller_balance: i128) -> (r:
    Result<(Vec<i128>, i128), ValidationFailure>)
    requires
        auction_balances_ok(cs@, balances@, seller_balance),
    ensures
        r is Err <==> buyers_after(cs@, balances@) is None,
        r matches Err(f) ==> f == ValidationFailure::InsufficientFunds,
        r matches Ok((news, seller)) ==> {
            &&& buyers_after(cs@, balances@) == Some(news@.map_values(|b: i128| b as int))
            &&& seller == seller_balance + 100 * contribution_sum(cs@)
        },
{
    let mut news: Vec<i128> = Vec::new();
    let mut seller = seller_balance;
    let mut i: usize = 0;
    while i < cs.len()
        invariant
            i <= cs@.len(),
            auction_balances_ok(cs@, balances@, seller_balance),
            buyers_after(cs@.take(i as int), balances@) == Some(news@.map_values(|b: i128| b as int)),
            seller == seller_balance + 100 * contribution_sum(cs@.take(i as int)),
        decreases cs@.len() - i,
    {
        proof {
            assert(cs@.take(i + 1).drop_last() =~= cs@.take(i as int));
            assert(cs@.take(i + 1).last() == cs@[i as int]);
            assert(cs@.take(i + 1)[i as int] == cs@[i as int]);
            assert(crate::money::money_ok(balances@[i as int] as int));
            assert(0 <= cs@[i as int].amount <= MAX_MANTISSA * 100);
            lemma_prefix_sum_le(cs@, i + 1);
        }
        let c = cs[i];
        let left = balances[i] - 100 * c.amount;
        if left < 0 {
            proof {
                lemma_buyers_after_stop(cs@, balances@, i as int);
            }
            return Err(ValidationFailure::InsufficientFunds);
        }
        let ghost before = news@;
        news.push(left);
        proof {
            assert(news@.map_values(|b: i128| b as int) =~= before.map_values(|b: i128| b as int).push(
                left as int,
            ));
        }
        seller = seller + 100 * c.amount;
        i = i + 1;
    }
    proof {
        assert(cs@.take(cs@.len() as int) =~= cs@);
    }
    Ok((news, seller))
}

/// Once a buyer cannot pay, the settlement fails.
proof fn lemma_buyers_after_stop(cs: Seq<Contribution>, balances: Seq<i128>, i: int)
    requires
        0 <= i < cs.len(),
        buyers_after(cs.take(i + 1), balances) is None,
    ensures
        buyers_after(cs, balances) is None,
    decreases cs.len() - i,
{
    if i + 1 < cs.len() {
        assert(cs.take(i + 2).drop_last() =~= cs.take(i + 1));
        lemma_buyers_after_stop(cs, balances, i + 1);
    } else {
        assert(cs.take(i + 1) =~= cs);
    }
}

proof fn lemma_buyers_paid(cs: Seq<Contribution>, balances: Seq<i128>, news: Seq<int>)
    requires
        cs.len() <= balances.len(),
        buyers_after(cs, balances) == Some(news),
    ensures
        news.len() == cs.len(),
        balance_sum(balances.take(cs.len() as int)) - int_sum(news) == 100 * contribution_sum(cs),
    decreases cs.len(),
{
    if cs.len() == 0 {
        assert(balances.take(0) =~= Seq::<i128>::empty());
    } else {
        let k = cs.len() - 1;
        let done = buyers_after(cs.drop_last(), balances)->Some_0;
        lemma_buyers_paid(cs.drop_last(), balances, done);
        assert(news =~= done.push(balances[k] - 100 * cs[k].amount));
        assert(news.drop_last() =~= done);
        assert(balances.take(k + 1).drop_last() =~= balances.take(k));
        assert(cs.last() == cs[k]);
    }
}

/// Settling an auction moves money and creates none: what the buyers pay
/// in total is exactly what the seller receives, the whole price.
pub proof fn lemma_auction_settlement_conserves_money(
    cs: Seq<Contribution>,
    balances: Seq<i128>,
    seller_balance: int,
    news: Seq<int>,
    seller_new: int,
)
    requires
        cs.len() == balances.len(),
        buyers_after(cs, balances) == Some(news),
        seller_new == seller_balance + 100 * contribution_sum(cs),
    ensures
        balance_sum(balances) - int_sum(news) == seller_new - seller_balance,
        int_sum(news) + seller_new == balance_sum(balances) + seller_balance,
{
    lemma_buyers_paid(cs, balances, news);
    assert(balances.take(cs.len() as int) =~= balances);
}

/// `n / d` rounded to the nearest integer, ties to the even one.
pub open spec fn round_half_even(n: int, d: int) -> int {
    let q = n / d;
    let r = n % d;
    if 2 * r > d {
        q + 1
    } else if 2 * r < d {
        q
    } else if q % 2 == 0 {
        q
    } else {
        q + 1
    }
}

/// A buyer's share of a split settlement, in tenths of a percent rounded to
/// the nearest (ties to even): what the settlement note shows.  `None` for
/// a zero total, which has no shares.
pub fn split_percent_tenths(amount: i128, total: i128) -> (r: Option<i128>)
    requires
        0 <= amount <= MAX_MANTISSA * 100,
        0 <= total <= MAX_MANTISSA * 100,
    ensures
        total == 0 <==> r is None,
        r matches Some(p) ==> p == round_half_even(amount * 1000, total as int),
{
    if total == 0 {
        return None;
    }
    let n = amount * 1000;
    let q = n / total;
    let rem = n % total;
    proof {
        vstd::arithmetic::div_mod::lemma_fundamental_div_mod(n as int, total as int);
        vstd::arithmetic::div_mod::lemma_mod_bound(n as int, total as int);
        assert(0 <= q <= n) by (nonlinear_arith)
            requires
                n == total * q + rem,
                0 <= rem < total,
                total >= 1,
                n >= 0,
        ;
    }
    let twice = 2 * rem;
    if twice > total {
        Some(q + 1)
    } else if twice < total {
        Some(q)
    } else if q % 2 == 0 {
        Some(q)
    } else {
        Some(q + 1)
    }
}


/// Without a problem among the buyers, no buyer is named twice and none is
/// the seller.
proof fn lemma_no_buyer_problem(cs: Seq<Contribution>, seller_id: i64)
    requires
        buyer_problem(cs, seller_id) is None,
    ensures
        forall|i: int, j: int|
            0 <= i < j < cs.len() ==> (#[trigger] cs[i]).buyer_id != (#[trigger] cs[j]).buyer_id,
        forall|i: int| 0 <= i < cs.len() ==> (#[trigger] cs[i]).buyer_id != seller_id,
    decreases cs.len(),
{
    if cs.len() > 0 {
        let t = cs.drop_last();
        lemma_no_buyer_problem(t, seller_id);
        assert forall|i: int, j: int| 0 <= i < j < cs.len() implies (#[trigger] cs[i]).buyer_id
            != (#[trigger] cs[j]).buyer_id by {
            if j < cs.len() - 1 {
                assert(t[i] == cs[i] && t[j] == cs[j]);
            } else {
                assert(cs.last() == cs[j]);
                if cs[i].buyer_id == cs[j].buyer_id {
                    assert(0 <= i < cs.len() - 1 && cs[i].buyer_id == cs.last().buyer_id);
                }
            }
        }
        assert forall|i: int| 0 <= i < cs.len() implies (#[trigger] cs[i]).buyer_id != seller_id by {
            if i < cs.len() - 1 {
                assert(t[i] == cs[i]);
            }
        }
    }
}

/// Checked contributions are never negative: a request with a negative
/// part is refused.
pub proof fn lemma_contributions_nonnegative(cs: Seq<ContributionInput>)
    requires
        spec_contributions(cs) is Ok,
        forall|i: int| 0 <= i < cs.len() ==> ((#[trigger] cs[i]).amount matches Some(a) ==> wf_parts(a)),
    ensures
        forall|i: int|
            0 <= i < spec_contributions(cs)->Ok_0.len() ==> (#[trigger] spec_contributions(
                cs,
            )->Ok_0[i]).amount >= 0,
    decreases cs.len(),
{
    if cs.len() > 0 {
        lemma_contributions_nonnegative(cs.drop_last());
        let done = spec_contributions(cs.drop_last())->Ok_0;
        let a = cs.last().amount->Some_0;
        assert(cs.last() == cs[cs.len() - 1]);
        crate::money::lemma_normalize_value(a.mantissa as int, a.scale as nat);
        crate::money::lemma_scaled_value_bounded(normalized(a), 2);
        assert forall|i: int|
            0 <= i < spec_contributions(cs)->Ok_0.len() implies (#[trigger] spec_contributions(
                cs,
            )->Ok_0[i]).amount >= 0 by {
            if i < done.len() {
                assert(spec_contributions(cs)->Ok_0[i] == done[i]);
            }
        }
    }
}

/// An accepted settlement has at least one buyer, no buyer twice, never
/// the seller as a buyer, and parts that add up to the total price; parts
/// that were requested one by one are none of them negative.
pub proof fn lemma_accepted_settlement_parts(req: SettleAuctionRequest, auction: AuctionInfo)
    requires
        settle_request_ok(req, auction),
        spec_settle_auction(req, auction) is Ok,
    ensures
        ({
            let (total, owner, cs) = spec_settle_auction(req, auction)->Ok_0;
            &&& cs.len() > 0
            &&& forall|i: int, j: int|
                0 <= i < j < cs.len() ==> (#[trigger] cs[i]).buyer_id != (#[trigger] cs[j]).buyer_id
            &&& forall|i: int| 0 <= i < cs.len() ==> (#[trigger] cs[i]).buyer_id != auction.seller_id
            &&& contribution_sum(cs) == total
            &&& req.contributions@.len() > 0 ==> forall|i: int|
                0 <= i < cs.len() ==> (#[trigger] cs[i]).amount >= 0
        }),
{
    let cs = spec_settle_auction(req, auction)->Ok_0.2;
    lemma_no_buyer_problem(cs, auction.seller_id);
    if req.contributions@.len() > 0 {
        lemma_contributions_nonnegative(req.contributions@);
    }
}


/// Every requested part that is a non-negative amount with at most two
/// decimal places is accepted, in order, and kept as its value counted in
/// cents (the value times 100) for the same buyer.
pub proof fn lemma_contributions_accepted(cs: Seq<ContributionInput>)
    requires
        forall|i: int|
            0 <= i < cs.len() ==> ((#[trigger] cs[i]).amount matches Some(a) && wf_parts(a)
                && a.scale <= 2 && a.mantissa >= 0),
    ensures
        spec_contributions(cs) matches Ok(parts) && {
            &&& parts.len() == cs.len()
            &&& forall|i: int|
                0 <= i < cs.len() ==> (#[trigger] parts[i]).buyer_id == cs[i].buyer_id
                    && parts[i].amount == cs[i].amount->Some_0.mantissa * pow10(
                    (2 - cs[i].amount->Some_0.scale) as nat,
                )
        },
    decreases cs.len(),
{
    if cs.len() > 0 {
        let init = cs.drop_last();
        assert forall|i: int| 0 <= i < init.len() implies ((#[trigger] init[i]).amount matches Some(a)
            && wf_parts(a) && a.scale <= 2 && a.mantissa >= 0) by {
            assert(init[i] == cs[i]);
        }
        lemma_contributions_accepted(init);
        let k = cs.len() - 1;
        assert(cs.last() == cs[k]);
        let a = cs[k].amount->Some_0;
        lemma_normalized_scaled_value(a, 2);
        lemma_scaled_value_bounded(normalized(a), 2);
        let done = spec_contributions(init)->Ok_0;
        let parts = spec_contributions(cs)->Ok_0;
        assert forall|i: int| 0 <= i < cs.len() implies (#[trigger] parts[i]).buyer_id == cs[i].buyer_id
            && parts[i].amount == cs[i].amount->Some_0.mantissa * pow10(
            (2 - cs[i].amount->Some_0.scale) as nat,
        ) by {
            if i < k {
                assert(parts[i] == done[i]);
                assert(init[i] == cs[i]);
            }
        }
    }
}

} // verus!

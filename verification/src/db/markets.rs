//! Creating markets and their categories: settlement bounds of plain
//! markets, funds and options, and the category, group and universe rules.
use vstd::prelude::*;

use super::ValidationFailure;
use crate::money::{
    cents_ok, money_ok, normalize, normalized, scaled_value, to_scaled, wf_parts, DecimalParts, MAX_MANTISSA,
};

verus! {

/// One constituent a new fund is redeemable for.
#[derive(Clone, Copy, Debug)]
pub struct RedeemableInput {
    pub constituent_id: i64,
    pub multiplier: i64,
}

/// The option terms of a new option market.
#[derive(Clone, Copy, Debug)]
pub struct OptionInput {
    pub underlying_market_id: i64,
    pub strike_price: DecimalParts,
    pub is_call: bool,
}

/// What a create-market request asks for.
#[derive(Debug)]
pub struct CreateMarketInput {
    pub min_settlement: DecimalParts,
    pub max_settlement: DecimalParts,
    pub redeem_fee: DecimalParts,
    pub redeemable_for: Vec<RedeemableInput>,
    pub option: Option<OptionInput>,
    pub type_id: i64,
    pub group_id: i64,
}

/// Settlement bounds (cents) and settled state of an existing market.
#[derive(Clone, Copy, Debug)]
pub struct MarketBounds {
    pub min_settlement: i128,
    pub max_settlement: i128,
    pub settled: bool,
}

/// The rows a create-market decision reads.  `constituents[i]` is the
/// market of `redeemable_for[i]`; `market_type_public` is the category row
/// for the effective type id; `group_type_id` the group row's category;
/// `universe_owner` the universe row (`None` when missing).
#[derive(Debug)]
pub struct CreateMarketLookups {
    pub underlying: Option<MarketBounds>,
    pub constituents: Vec<Option<MarketBounds>>,
    pub market_type_public: Option<bool>,
    pub group_type_id: Option<i64>,
    pub universe_owner: Option<Option<i64>>,
}

/// What to insert for a new market: bounds in cents, fee in money units.
#[derive(Clone, Copy, Debug, PartialEq, Eq, Structural)]
pub struct MarketPlan {
    pub min_settlement: i128,
    pub max_settlement: i128,
    pub redeem_fee: i128,
    pub type_id: i64,
    pub group_id: Option<i64>,
    pub option_strike: Option<i128>,
}

/// The category a market goes in: the requested one, or 1 ("Other Markets")
/// when none is given.
pub open spec fn spec_effective_type_id(requested: i64) -> i64 {
    if requested > 0 {
        requested
    } else {
        1
    }
}

pub fn effective_type_id(requested: i64) -> (r: i64)
    ensures
        r == spec_effective_type_id(requested),
{
    if requested > 0 {
        requested
    } else {
        1
    }
}

pub open spec fn max0(x: int) -> int {
    if x >= 0 {
        x
    } else {
        0
    }
}

pub open spec fn min_int(a: int, b: int) -> int {
    if a <= b {
        a
    } else {
        b
    }
}

pub open spec fn max_int(a: int, b: int) -> int {
    if a >= b {
        a
    } else {
        b
    }
}

/// The settlement bounds of an option on an underlying with bounds
/// `[umin, umax]` at strike `k`: a call pays `max(0, U - K)`, a put
/// `max(0, K - U)`.
pub open spec fn option_bounds(is_call: bool, k: int, umin: int, umax: int) -> (int, int) {
    if is_call {
        (max0(umin - k), max0(umax - k))
    } else {
        (max0(k - umax), max0(k - umin))
    }
}

/// The settlement bounds of a fund: per constituent, the lesser and greater
/// of its bounds times the multiplier, summed.  `None` when a constituent is
/// missing (`Err(false)`) or settled (`Err(true)`) first.
pub open spec fn fund_bounds(rs: Seq<RedeemableInput>, cs: Seq<Option<MarketBounds>>) -> Result<
    (int, int),
    bool,
>
    decreases rs.len(),
{
    if rs.len() == 0 {
        Ok((0, 0))
    } else {
        match fund_bounds(rs.drop_last(), cs.drop_last()) {
            Err(e) => Err(e),
            Ok((lo, hi)) => match cs.last() {
                None => Err(false),
                Some(c) => if c.settled {
                    Err(true)
                } else {
                    let a = c.min_settlement * rs.last().multiplier;
                    let b = c.max_settlement * rs.last().multiplier;
                    Ok((lo + min_int(a, b), hi + max_int(a, b)))
                },
            },
        }
    }
}

/// A normalized settlement bound of at most two places and mantissa at most
/// a trillion.
pub open spec fn bound_ok(n: DecimalParts) -> bool {
    n.scale <= 2 && n.mantissa <= 1_000_000_000_000
}

/// A normalized fee of at most four places and mantissa at most a trillion.
pub open spec fn fee_ok(n: DecimalParts) -> bool {
    n.scale <= 4 && n.mantissa <= 1_000_000_000_000
}

/// The mantissa the decimal type keeps for a value of `c` cents once
/// trailing zeros are stripped.
pub open spec fn cents_mantissa(c: int) -> int {
    crate::money::normalize_spec(c, 2).0
}

pub fn cents_normalized_mantissa(c: i128) -> (r: i128)
    ensures
        r == cents_mantissa(c as int),
{
    proof {
        reveal_with_fuel(crate::money::normalize_spec, 3);
    }
    if c % 10 != 0 {
        c
    } else {
        let d = c / 10;
        assert(d == (c as int) / 10);
        if d % 10 != 0 {
            d
        } else {
            let e = d / 10;
            assert(e == (d as int) / 10);
            e
        }
    }
}

/// The remaining checks once the bounds (cents) are known: ordered, with
/// mantissas at most a trillion; the fee of at most four places with
/// mantissa at most a trillion; the category exists and is public unless
/// the creator is an admin; an admin's group exists and is of the same
/// category; in a universe other than the main one, the creator owns it.
pub open spec fn spec_finish_market(
    lo: int,
    hi: int,
    fee: DecimalParts,
    strike: Option<i128>,
    input_type_id: i64,
    input_group_id: i64,
    is_admin: bool,
    owner_id: i64,
    universe_id: i64,
    lk: CreateMarketLookups,
) -> Result<MarketPlan, ValidationFailure> {
    let fee_n = normalized(fee);
    let type_id = spec_effective_type_id(input_type_id);
    if lo >= hi || cents_mantissa(lo) > 1_000_000_000_000 || cents_mantissa(hi)
        > 1_000_000_000_000 {
        Err(ValidationFailure::InvalidSettlement)
    } else if !fee_ok(fee_n) {
        Err(ValidationFailure::InvalidRedeemFee)
    } else if lk.market_type_public is None {
        Err(ValidationFailure::MarketTypeNotFound)
    } else if !lk.market_type_public->0 && !is_admin {
        Err(ValidationFailure::MarketTypeNotPublic)
    } else if input_group_id > 0 && is_admin && lk.group_type_id is None {
        Err(ValidationFailure::MarketGroupNotFound)
    } else if input_group_id > 0 && is_admin && lk.group_type_id->0 != type_id {
        Err(ValidationFailure::MarketGroupTypeMismatch)
    } else if universe_id != 0 && lk.universe_owner is None {
        Err(ValidationFailure::UniverseNotFound)
    } else if universe_id != 0 && (lk.universe_owner->0 matches Some(uid) && uid != owner_id) {
        Err(ValidationFailure::NotUniverseOwner)
    } else {
        Ok(
            MarketPlan {
                min_settlement: lo as i128,
                max_settlement: hi as i128,
                redeem_fee: scaled_value(fee_n, 4) as i128,
                type_id,
                group_id: if input_group_id > 0 && is_admin {
                    Some(input_group_id)
                } else {
                    None
                },
                option_strike: strike,
            },
        )
    }
}

pub open spec fn any_zero_multiplier(rs: Seq<RedeemableInput>) -> bool {
    exists|i: int| 0 <= i < rs.len() && rs[i].multiplier == 0
}

/// The full create-market decision.
pub open spec fn spec_decide_create_market(
    input: CreateMarketInput,
    is_admin: bool,
    owner_id: i64,
    universe_id: i64,
    lk: CreateMarketLookups,
) -> Result<MarketPlan, ValidationFailure> {
    let rs = input.redeemable_for@;
    if any_zero_multiplier(rs) {
        Err(ValidationFailure::InvalidMultiplier)
    } else if input.option is Some && rs.len() > 0 {
        Err(ValidationFailure::InvalidSettlement)
    } else if input.option matches Some(o) && !bound_ok(normalized(o.strike_price)) {
        Err(ValidationFailure::InvalidStrikePrice)
    } else if input.option is Some && !is_admin {
        Err(ValidationFailure::SudoRequired)
    } else if input.option is Some {
        let o = input.option->0;
        let k = scaled_value(normalized(o.strike_price), 2);
        match lk.underlying {
            None => Err(ValidationFailure::ConstituentNotFound),
            Some(u) => if u.settled {
                Err(ValidationFailure::ConstituentSettled)
            } else {
                let (lo, hi) = option_bounds(o.is_call, k, u.min_settlement as int, u.max_settlement as int);
                spec_finish_market(
                    lo,
                    hi,
                    input.redeem_fee,
                    Some(k as i128),
                    input.type_id,
                    input.group_id,
                    is_admin,
                    owner_id,
                    universe_id,
                    lk,
                )
            },
        }
    } else if rs.len() > 0 {
        if input.redeem_fee.mantissa < 0 {
            Err(ValidationFailure::InvalidRedeemFee)
        } else {
            match fund_bounds(rs, lk.constituents@) {
                Err(false) => Err(ValidationFailure::ConstituentNotFound),
                Err(true) => Err(ValidationFailure::ConstituentSettled),
                Ok((lo, hi)) => spec_finish_market(
                    lo,
                    hi,
                    input.redeem_fee,
                    None,
                    input.type_id,
                    input.group_id,
                    is_admin,
                    owner_id,
                    universe_id,
                    lk,
                ),
            }
        }
    } else if input.redeem_fee.mantissa != 0 {
        Err(ValidationFailure::InvalidRedeemFee)
    } else if normalized(input.min_settlement).scale > 2 || normalized(input.max_settlement).scale
        > 2 {
        Err(ValidationFailure::InvalidSettlement)
    } else {
        spec_finish_market(
            scaled_value(normalized(input.min_settlement), 2),
            scaled_value(normalized(input.max_settlement), 2),
            input.redeem_fee,
            None,
            input.type_id,
            input.group_id,
            is_admin,
            owner_id,
            universe_id,
            lk,
        )
    }
}


pub fn finish_market(
    lo: i128,
    hi: i128,
    fee: DecimalParts,
    strike: Option<i128>,
    input_type_id: i64,
    input_group_id: i64,
    is_admin: bool,
    owner_id: i64,
    universe_id: i64,
    lk: &CreateMarketLookups,
) -> (r: Result<MarketPlan, ValidationFailure>)
    requires
        wf_parts(fee),
    ensures
        r == spec_finish_market(
            lo as int,
            hi as int,
            fee,
            strike,
            input_type_id,
            input_group_id,
            is_admin,
            owner_id,
            universe_id,
            *lk,
        ),
{
    if lo >= hi || cents_normalized_mantissa(lo) > 1_000_000_000_000 || cents_normalized_mantissa(hi)
        > 1_000_000_000_000 {
        return Err(ValidationFailure::InvalidSettlement);
    }
    let fee_n = normalize(fee);
    if fee_n.scale > 4 || fee_n.mantissa > 1_000_000_000_000 {
        return Err(ValidationFailure::InvalidRedeemFee);
    }
    let type_id = effective_type_id(input_type_id);
    match lk.market_type_public {
        None => {
            return Err(ValidationFailure::MarketTypeNotFound);
        },
        Some(public) => {
            if !public && !is_admin {
                return Err(ValidationFailure::MarketTypeNotPublic);
            }
        },
    }
    let group_id = if input_group_id > 0 && is_admin {
        match lk.group_type_id {
            None => {
                return Err(ValidationFailure::MarketGroupNotFound);
            },
            Some(t) => {
                if t != type_id {
                    return Err(ValidationFailure::MarketGroupTypeMismatch);
                }
            },
        }
        Some(input_group_id)
    } else {
        None
    };
    if universe_id != 0 {
        match lk.universe_owner {
            None => {
                return Err(ValidationFailure::UniverseNotFound);
            },
            Some(Some(uid)) => {
                if uid != owner_id {
                    return Err(ValidationFailure::NotUniverseOwner);
                }
            },
            Some(None) => {},
        }
    }
    let fee_money = to_scaled(fee_n, 4);
    Ok(
        MarketPlan {
            min_settlement: lo,
            max_settlement: hi,
            redeem_fee: fee_money,
            type_id,
            group_id,
            option_strike: strike,
        },
    )
}

/// Each constituent's bound products, and the running sums of them, are
/// within the money range (beyond what the decimal type the bounds are
/// computed in can hold).
pub open spec fn fund_inputs_bounded(rs: Seq<RedeemableInput>, cs: Seq<Option<MarketBounds>>) -> bool {
    &&& cs.len() == rs.len()
    &&& forall|i: int|
        0 <= i < rs.len() ==> ((#[trigger] cs[i]) matches Some(c) ==> {
            &&& money_ok(c.min_settlement * rs[i].multiplier)
            &&& money_ok(c.max_settlement * rs[i].multiplier)
        })
    &&& forall|k: int|
        0 <= k <= rs.len() ==> (#[trigger] fund_bounds(rs.take(k), cs.take(k)) matches Ok((lo, hi))
            ==> money_ok(lo) && money_ok(hi))
}

proof fn lemma_fund_bounds_err_sticks(rs: Seq<RedeemableInput>, cs: Seq<Option<MarketBounds>>, j: int, k: int)
    requires
        0 <= j <= k <= rs.len(),
        cs.len() == rs.len(),
        fund_bounds(rs.take(j), cs.take(j)) is Err,
    ensures
        fund_bounds(rs.take(k), cs.take(k)) == fund_bounds(rs.take(j), cs.take(j)),
    decreases k - j,
{
    if k > j {
        lemma_fund_bounds_err_sticks(rs, cs, j, k - 1);
        assert(rs.take(k).drop_last() =~= rs.take(k - 1));
        assert(cs.take(k).drop_last() =~= cs.take(k - 1));
    }
}

/// Compute a fund's settlement bounds from its constituents (the
/// constituent rows given in the same order as the redeemables).
pub fn compute_fund_bounds(rs: &Vec<RedeemableInput>, cs: &Vec<Option<MarketBounds>>) -> (r: Result<
    (i128, i128),
    bool,
>)
    requires
        fund_inputs_bounded(rs@, cs@),
    ensures
        r matches Ok((lo, hi)) ==> fund_bounds(rs@, cs@) == Ok::<(int, int), bool>(
            (lo as int, hi as int),
        ),
        r matches Err(e) ==> fund_bounds(rs@, cs@) == Err::<(int, int), bool>(e),
{
    let mut lo: i128 = 0;
    let mut hi: i128 = 0;
    let mut i: usize = 0;
    proof {
        assert(rs@.take(0) =~= Seq::<RedeemableInput>::empty());
        assert(cs@.take(0) =~= Seq::<Option<MarketBounds>>::empty());
    }
    while i < rs.len()
        invariant
            i <= rs.len(),
            fund_inputs_bounded(rs@, cs@),
            fund_bounds(rs@.take(i as int), cs@.take(i as int)) == Ok::<(int, int), bool>(
                (lo as int, hi as int),
            ),
            money_ok(lo as int),
            money_ok(hi as int),
        decreases rs.len() - i,
    {
        let rd = rs[i];
        proof {
            assert(rs@.take(i + 1).drop_last() =~= rs@.take(i as int));
            assert(cs@.take(i + 1).drop_last() =~= cs@.take(i as int));
            assert(rs@.take(i + 1).last() == rd);
            assert(cs@.take(i + 1).last() == cs@[i as int]);
        }
        match cs[i] {
            None => {
                proof {
                    lemma_fund_bounds_err_sticks(rs@, cs@, i + 1, rs@.len() as int);
                    assert(rs@.take(rs@.len() as int) =~= rs@);
                    assert(cs@.take(cs@.len() as int) =~= cs@);
                }
                return Err(false);
            },
            Some(c) => {
                if c.settled {
                    proof {
                        lemma_fund_bounds_err_sticks(rs@, cs@, i + 1, rs@.len() as int);
                        assert(rs@.take(rs@.len() as int) =~= rs@);
                        assert(cs@.take(cs@.len() as int) =~= cs@);
                    }
                    return Err(true);
                }
                proof {
                    assert(money_ok(c.min_settlement * rd.multiplier));
                    assert(money_ok(c.max_settlement * rd.multiplier));
                    assert(fund_bounds(rs@.take(i + 1), cs@.take(i + 1)) is Ok);
                }
                let a = c.min_settlement * (rd.multiplier as i128);
                let b = c.max_settlement * (rd.multiplier as i128);
                if a <= b {
                    lo = lo + a;
                    hi = hi + b;
                } else {
                    lo = lo + b;
                    hi = hi + a;
                }
            },
        }
        i = i + 1;
    }
    proof {
        assert(rs@.take(rs@.len() as int) =~= rs@);
        assert(cs@.take(cs@.len() as int) =~= cs@);
    }
    Ok((lo, hi))
}

/// Every part of a create-market request is a representable decimal.
pub open spec fn create_market_input_wf(input: CreateMarketInput) -> bool {
    &&& wf_parts(input.min_settlement)
    &&& wf_parts(input.max_settlement)
    &&& wf_parts(input.redeem_fee)
    &&& (input.option matches Some(o) ==> wf_parts(o.strike_price))
}

/// Decide a create-market request.  A fund takes its bounds from its
/// constituents (every multiplier nonzero, no constituent missing or
/// settled, a fee that is not negative); an option takes them from its
/// underlying and strike (admins only; strike of at most two places and
/// mantissa at most a trillion; no redeemables); any other market uses the
/// requested bounds, and may not charge a redeem fee.  Then the common
/// checks of [`spec_finish_market`] apply.  Returns what to insert.
pub fn decide_create_market(
    input: &CreateMarketInput,
    is_admin: bool,
    owner_id: i64,
    universe_id: i64,
    lk: &CreateMarketLookups,
) -> (r: Result<MarketPlan, ValidationFailure>)
    requires
        create_market_input_wf(*input),
        fund_inputs_bounded(input.redeemable_for@, lk.constituents@) || input.redeemable_for@.len()
            == 0,
        lk.underlying matches Some(u) ==> cents_ok(u.min_settlement as int) && cents_ok(
            u.max_settlement as int,
        ),
    ensures
        r == spec_decide_create_market(*input, is_admin, owner_id, universe_id, *lk),
{
    let rs = &input.redeemable_for;
    let mut i: usize = 0;
    while i < rs.len()
        invariant
            i <= rs.len(),
            forall|j: int| 0 <= j < i ==> rs@[j].multiplier != 0,
            rs@ == input.redeemable_for@,
        decreases rs.len() - i,
    {
        if rs[i].multiplier == 0 {
            assert(any_zero_multiplier(rs@)) by {
                assert(rs@[i as int].multiplier == 0);
            }
            return Err(ValidationFailure::InvalidMultiplier);
        }
        i = i + 1;
    }
    if input.option.is_some() && rs.len() > 0 {
        return Err(ValidationFailure::InvalidSettlement);
    }
    if let Some(o) = input.option {
        let strike = normalize(o.strike_price);
        if strike.scale > 2 || strike.mantissa > 1_000_000_000_000 {
            return Err(ValidationFailure::InvalidStrikePrice);
        }
        if !is_admin {
            return Err(ValidationFailure::SudoRequired);
        }
        let k = to_scaled(strike, 2);
        let u = match lk.underlying {
            None => {
                return Err(ValidationFailure::ConstituentNotFound);
            },
            Some(u) => u,
        };
        if u.settled {
            return Err(ValidationFailure::ConstituentSettled);
        }
        proof {
            crate::money::lemma_scaled_value_bounded(strike, 2);
        }
        let (lo, hi) = if o.is_call {
            (
                if u.min_settlement - k >= 0 {
                    u.min_settlement - k
                } else {
                    0
                },
                if u.max_settlement - k >= 0 {
                    u.max_settlement - k
                } else {
                    0
                },
            )
        } else {
            (
                if k - u.max_settlement >= 0 {
                    k - u.max_settlement
                } else {
                    0
                },
                if k - u.min_settlement >= 0 {
                    k - u.min_settlement
                } else {
                    0
                },
            )
        };
        return finish_market(
            lo,
            hi,
            input.redeem_fee,
            Some(k),
            input.type_id,
            input.group_id,
            is_admin,
            owner_id,
            universe_id,
            lk,
        );
    }
    if rs.len() > 0 {
        if input.redeem_fee.mantissa < 0 {
            return Err(ValidationFailure::InvalidRedeemFee);
        }
        return match compute_fund_bounds(rs, &lk.constituents) {
            Err(false) => Err(ValidationFailure::ConstituentNotFound),
            Err(true) => Err(ValidationFailure::ConstituentSettled),
            Ok((lo, hi)) => finish_market(
                lo,
                hi,
                input.redeem_fee,
                None,
                input.type_id,
                input.group_id,
                is_admin,
                owner_id,
                universe_id,
                lk,
            ),
        };
    }
    if input.redeem_fee.mantissa != 0 {
        return Err(ValidationFailure::InvalidRedeemFee);
    }
    let min_n = normalize(input.min_settlement);
    let max_n = normalize(input.max_settlement);
    if min_n.scale > 2 || max_n.scale > 2 {
        return Err(ValidationFailure::InvalidSettlement);
    }
    let lo = to_scaled(min_n, 2);
    let hi = to_scaled(max_n, 2);
    finish_market(
        lo,
        hi,
        input.redeem_fee,
        None,
        input.type_id,
        input.group_id,
        is_admin,
        owner_id,
        universe_id,
        lk,
    )
}

pub open spec fn spec_decide_delete_market_type(exists: bool, other_type: Option<i64>) -> Result<
    i64,
    ValidationFailure,
> {
    if !exists {
        Err(ValidationFailure::MarketTypeNotFound)
    } else {
        match other_type {
            None => Err(ValidationFailure::CannotDeleteLastMarketType),
            Some(t) => Ok(t),
        }
    }
}

/// Deleting a category: it must exist and must not be the last one.  Returns
/// the category its markets and groups move to (the lowest other id).
pub fn decide_delete_market_type(exists: bool, other_type: Option<i64>) -> (r: Result<
    i64,
    ValidationFailure,
>)
    ensures
        r == spec_decide_delete_market_type(exists, other_type),
{
    if !exists {
        return Err(ValidationFailure::MarketTypeNotFound);
    }
    match other_type {
        None => Err(ValidationFailure::CannotDeleteLastMarketType),
        Some(t) => Ok(t),
    }
}

/// Creating a market group: its name must be new and its category must
/// exist.
pub fn decide_create_market_group(name_exists: bool, type_exists: bool) -> (r: Result<
    (),
    ValidationFailure,
>)
    ensures
        name_exists ==> r == Err::<(), ValidationFailure>(ValidationFailure::MarketGroupNameExists),
        !name_exists && !type_exists ==> r == Err::<(), ValidationFailure>(
            ValidationFailure::MarketTypeNotFound,
        ),
        !name_exists && type_exists ==> r is Ok,
{
    if name_exists {
        return Err(ValidationFailure::MarketGroupNameExists);
    }
    if !type_exists {
        return Err(ValidationFailure::MarketTypeNotFound);
    }
    Ok(())
}

/// Creating a category: its name must be new.
pub fn decide_create_market_type(name_exists: bool) -> (r: Result<(), ValidationFailure>)
    ensures
        r == (if name_exists {
            Err(ValidationFailure::MarketTypeNameExists)
        } else {
            Ok(())
        }),
{
    if name_exists {
        Err(ValidationFailure::MarketTypeNameExists)
    } else {
        Ok(())
    }
}

/// Editing a market: the new status must be a known one and the redeemable
/// settings of a fund cannot be changed.  Gives whether the status change
/// is recorded (only when the status differs from the stored one).
pub fn decide_edit_market(status_known: bool, changes_redeemables: bool, old_status: i32, new_status: i32) -> (r:
    Result<bool, ValidationFailure>)
    ensures
        r == (if !status_known {
            Err(ValidationFailure::InvalidMarketStatus)
        } else if changes_redeemables {
            Err(ValidationFailure::MarketNotRedeemable)
        } else {
            Ok(old_status != new_status)
        }),
{
    if !status_known {
        return Err(ValidationFailure::InvalidMarketStatus);
    }
    if changes_redeemables {
        return Err(ValidationFailure::MarketNotRedeemable);
    }
    Ok(old_status != new_status)
}

} // verus!

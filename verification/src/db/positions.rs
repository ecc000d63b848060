//! Redeeming fund units for their constituents, and exercising options.
use vstd::prelude::*;

use super::portfolio::{available_balance, exposures_bounded, spec_available_balance, MarketExposure};
use super::ValidationFailure;
use crate::money::{
    cents_ok, lemma_cents_product, money_ok, normalize, normalized, pow10, scaled_value, to_scaled, wf_parts,
    DecimalParts, CENTS_LIMIT,
};

verus! {

/// A fund unit is redeemable for `multiplier` units of `constituent_id`.
#[derive(Clone, Copy, Debug, PartialEq, Eq, Structural)]
pub struct Redeemable {
    pub fund_id: i64,
    pub constituent_id: i64,
    pub multiplier: i64,
}

/// A change to an account's position in a market (cents).
#[derive(Clone, Copy, Debug, PartialEq, Eq, Structural)]
pub struct PositionChange {
    pub market_id: i64,
    pub delta: i128,
}

/// The amount of a redemption: at most two places (as given, before any
/// normalization) and not zero; it may be negative, which creates fund
/// units from constituents.
pub open spec fn redeem_amount_ok(a: DecimalParts) -> bool {
    a.scale <= 2 && a.mantissa != 0
}

pub open spec fn redeem_changes(fund_id: i64, amount: int, rs: Seq<Redeemable>) -> Seq<PositionChange> {
    seq![PositionChange { market_id: fund_id, delta: (-amount) as i128 }] + Seq::new(
        rs.len(),
        |i: int| PositionChange { market_id: rs[i].constituent_id, delta: (amount * rs[i].multiplier) as i128 },
    )
}

pub open spec fn spec_decide_redeem(
    amount: DecimalParts,
    fund_id: i64,
    rs: Seq<Redeemable>,
    any_settled: bool,
) -> Result<Seq<PositionChange>, ValidationFailure> {
    if !redeem_amount_ok(amount) {
        Err(ValidationFailure::InvalidAmount)
    } else if rs.len() == 0 {
        Err(ValidationFailure::MarketNotRedeemable)
    } else if any_settled {
        Err(ValidationFailure::MarketSettled)
    } else {
        Ok(redeem_changes(fund_id, scaled_value(amount, 2), rs))
    }
}

/// Decide a redemption of `amount` units of fund `fund_id`, whose
/// redeemables are `rs`, given whether the fund or a constituent has
/// settled.  On success returns the position changes: the fund position
/// goes down by the amount, each constituent position up by the amount times
/// its multiplier.
pub fn decide_redeem(amount: DecimalParts, fund_id: i64, rs: &Vec<Redeemable>, any_settled: bool) -> (r:
    Result<Vec<PositionChange>, ValidationFailure>)
    requires
        wf_parts(amount),
        amount.scale <= 2 ==> forall|i: int|
            0 <= i < rs@.len() ==> money_ok(scaled_value(amount, 2) * (#[trigger] rs@[i]).multiplier),
    ensures
        r matches Ok(v) ==> spec_decide_redeem(amount, fund_id, rs@, any_settled) == Ok::<
            Seq<PositionChange>,
            ValidationFailure,
        >(v@),
        r matches Err(f) ==> spec_decide_redeem(amount, fund_id, rs@, any_settled) == Err::<
            Seq<PositionChange>,
            ValidationFailure,
        >(f),
{
    if amount.scale > 2 || amount.mantissa == 0 {
        return Err(ValidationFailure::InvalidAmount);
    }
    if rs.len() == 0 {
        return Err(ValidationFailure::MarketNotRedeemable);
    }
    if any_settled {
        return Err(ValidationFailure::MarketSettled);
    }
    let a = to_scaled(amount, 2);
    proof {
        crate::money::lemma_scaled_value_bounded(amount, 2);
    }
    let mut out: Vec<PositionChange> = Vec::new();
    out.push(PositionChange { market_id: fund_id, delta: -a });
    let mut i: usize = 0;
    while i < rs.len()
        invariant
            i <= rs.len(),
            a == scaled_value(amount, 2),
            forall|j: int| 0 <= j < rs@.len() ==> money_ok(a * (#[trigger] rs@[j]).multiplier),
            out@ =~= redeem_changes(fund_id, a as int, rs@).take(i + 1),
        decreases rs.len() - i,
    {
        let rd = rs[i];
        proof {
            assert(money_ok(a * rs@[i as int].multiplier));
        }
        out.push(PositionChange { market_id: rd.constituent_id, delta: a * (rd.multiplier as i128) });
        i = i + 1;
    }
    proof {
        assert(redeem_changes(fund_id, a as int, rs@).take(rs.len() + 1) =~= redeem_changes(
            fund_id,
            a as int,
            rs@,
        ));
    }
    Ok(out)
}

/// After the positions move, the redemption fee is charged: refused when the
/// available balance is below the fee, else the new balance is the total
/// less the fee.
pub fn charge_redeem_fee(total_balance: i128, available_balance: i128, redeem_fee: i128) -> (r:
    Result<i128, ValidationFailure>)
    requires
        crate::money::money_ok(total_balance as int),
        crate::money::money_ok(redeem_fee as int),
    ensures
        r is Err <==> available_balance < redeem_fee,
        r matches Err(f) ==> f == ValidationFailure::InsufficientFunds,
        r matches Ok(b) ==> b == total_balance - redeem_fee,
{
    if available_balance < redeem_fee {
        Err(ValidationFailure::InsufficientFunds)
    } else {
        Ok(total_balance - redeem_fee)
    }
}

/// A written option contract: `buyer_id` may exercise up to
/// `remaining_amount` (cents) against `writer_id`.
#[derive(Clone, Copy, Debug)]
pub struct OptionContract {
    pub id: i64,
    pub option_market_id: i64,
    pub buyer_id: i64,
    pub writer_id: i64,
    pub remaining_amount: i128,
}

/// The terms of an option market (strike in cents; expiration in unix
/// nanoseconds).
#[derive(Clone, Copy, Debug)]
pub struct OptionTerms {
    pub underlying_market_id: i64,
    pub strike_price: i128,
    pub is_call: bool,
    pub expiration: Option<i128>,
}

/// What exercising moves: cash in money units, positions and amounts in
/// cents.  The exerciser gives up `amount` of its option position and the
/// writer takes it back; the contract keeps `new_remaining_amount`.
#[derive(Clone, Copy, Debug, PartialEq, Eq, Structural)]
pub struct ExerciseEffects {
    pub contract_id: i64,
    pub writer_id: i64,
    pub amount: i128,
    pub new_remaining_amount: i128,
    pub exerciser_option_change: i128,
    pub writer_option_change: i128,
    pub is_cash_settled: bool,
    pub exerciser_cash_change: i128,
    pub exerciser_underlying_change: i128,
    pub writer_cash_change: i128,
    pub writer_underlying_change: i128,
}

pub open spec fn max0(x: int) -> int {
    if x >= 0 {
        x
    } else {
        0
    }
}

/// The moves of exercising `amount` of an option.  Once the underlying has
/// settled, the intrinsic value is paid in cash; before, a call buys the
/// underlying at the strike and a put sells it at the strike.  The writer's
/// moves are the exact opposite of the exerciser's.
pub open spec fn exercise_effects(
    contract: OptionContract,
    option: OptionTerms,
    amount: int,
    underlying_settled_price: Option<i128>,
) -> ExerciseEffects {
    let (cash, underlying) = match underlying_settled_price {
        Some(settled) => {
            let intrinsic = if option.is_call {
                max0(settled - option.strike_price)
            } else {
                max0(option.strike_price - settled)
            };
            (amount * intrinsic, 0int)
        },
        None => if option.is_call {
            (-amount * option.strike_price, amount)
        } else {
            (amount * option.strike_price, -amount)
        },
    };
    ExerciseEffects {
        contract_id: contract.id,
        writer_id: contract.writer_id,
        amount: amount as i128,
        new_remaining_amount: (contract.remaining_amount - amount) as i128,
        exerciser_option_change: (-amount) as i128,
        writer_option_change: amount as i128,
        is_cash_settled: underlying_settled_price is Some,
        exerciser_cash_change: cash as i128,
        exerciser_underlying_change: underlying as i128,
        writer_cash_change: (-cash) as i128,
        writer_underlying_change: (-underlying) as i128,
    }
}

pub open spec fn exercise_amount_ok(a: DecimalParts) -> bool {
    let n = normalized(a);
    n.mantissa > 0 && n.scale <= 2
}

pub open spec fn spec_decide_exercise(
    exerciser_id: i64,
    option_market_id: i64,
    amount: DecimalParts,
    contract: Option<OptionContract>,
    option: Option<OptionTerms>,
    option_settled: bool,
    underlying_settled_price: Option<i128>,
    now: i128,
) -> Result<ExerciseEffects, ValidationFailure> {
    if !exercise_amount_ok(amount) {
        Err(ValidationFailure::InvalidAmount)
    } else {
        let a = scaled_value(normalized(amount), 2);
        match contract {
            None => Err(ValidationFailure::ContractNotFound),
            Some(c) => if c.buyer_id != exerciser_id {
                Err(ValidationFailure::NotContractBuyer)
            } else if c.option_market_id != option_market_id {
                Err(ValidationFailure::ContractNotFound)
            } else if a > c.remaining_amount {
                Err(ValidationFailure::InvalidAmount)
            } else {
                match option {
                    None => Err(ValidationFailure::NotOptionMarket),
                    Some(o) => if option_settled {
                        Err(ValidationFailure::MarketSettled)
                    } else if underlying_settled_price is None && (o.expiration matches Some(e)
                        && now > e) {
                        Err(ValidationFailure::OptionExpired)
                    } else {
                        Ok(exercise_effects(c, o, a, underlying_settled_price))
                    },
                }
            },
        }
    }
}

/// Decide an exercise request: a positive amount of at most two places, a
/// contract of this option market bought by the exerciser with at least that
/// much remaining, an unsettled option, and (unless the underlying has
/// settled, which allows cash exercise at any time) not past expiration.
pub fn decide_exercise(
    exerciser_id: i64,
    option_market_id: i64,
    amount: DecimalParts,
    contract: Option<OptionContract>,
    option: Option<OptionTerms>,
    option_settled: bool,
    underlying_settled_price: Option<i128>,
    now: i128,
) -> (r: Result<ExerciseEffects, ValidationFailure>)
    requires
        wf_parts(amount),
        contract matches Some(c) ==> cents_ok(c.remaining_amount as int),
        option matches Some(o) ==> cents_ok(o.strike_price as int),
        underlying_settled_price matches Some(p) ==> cents_ok(p as int),
    ensures
        r == spec_decide_exercise(
            exerciser_id,
            option_market_id,
            amount,
            contract,
            option,
            option_settled,
            underlying_settled_price,
            now,
        ),
        r matches Ok(e) ==> {
            &&& 0 < e.amount <= contract->Some_0.remaining_amount
            &&& e.new_remaining_amount == contract->Some_0.remaining_amount - e.amount
            &&& e.exerciser_option_change == -e.amount
            &&& e.writer_option_change == e.amount
            &&& e.writer_id == contract->Some_0.writer_id
        },
{
    let n = normalize(amount);
    if n.mantissa <= 0 || n.scale > 2 {
        return Err(ValidationFailure::InvalidAmount);
    }
    let a = to_scaled(n, 2);
    let c = match contract {
        None => {
            return Err(ValidationFailure::ContractNotFound);
        },
        Some(c) => c,
    };
    if c.buyer_id != exerciser_id {
        return Err(ValidationFailure::NotContractBuyer);
    }
    if c.option_market_id != option_market_id {
        return Err(ValidationFailure::ContractNotFound);
    }
    if a > c.remaining_amount {
        return Err(ValidationFailure::InvalidAmount);
    }
    let o = match option {
        None => {
            return Err(ValidationFailure::NotOptionMarket);
        },
        Some(o) => o,
    };
    if option_settled {
        return Err(ValidationFailure::MarketSettled);
    }
    if underlying_settled_price.is_none() {
        if let Some(e) = o.expiration {
            if now > e {
                return Err(ValidationFailure::OptionExpired);
            }
        }
    }
    proof {
        crate::money::lemma_scaled_value_bounded(n, 2);
        assert(0 < a <= CENTS_LIMIT);
        lemma_cents_product(a as int, o.strike_price as int);
        lemma_cents_product(-a as int, o.strike_price as int);
    }
    let (cash, underlying): (i128, i128) = match underlying_settled_price {
        Some(settled) => {
            let intrinsic = if o.is_call {
                if settled - o.strike_price >= 0 {
                    settled - o.strike_price
                } else {
                    0
                }
            } else {
                if o.strike_price - settled >= 0 {
                    o.strike_price - settled
                } else {
                    0
                }
            };
            proof {
                lemma_cents_product(a as int, intrinsic as int);
            }
            (a * intrinsic, 0)
        },
        None => if o.is_call {
            (-a * o.strike_price, a)
        } else {
            (a * o.strike_price, -a)
        },
    };
    proof {
        assert(-a * o.strike_price == -(a * o.strike_price)) by (nonlinear_arith);
    }
    Ok(
        ExerciseEffects {
            contract_id: c.id,
            writer_id: c.writer_id,
            amount: a,
            new_remaining_amount: c.remaining_amount - a,
            exerciser_option_change: -a,
            writer_option_change: a,
            is_cash_settled: underlying_settled_price.is_some(),
            exerciser_cash_change: cash,
            exerciser_underlying_change: underlying,
            writer_cash_change: -cash,
            writer_underlying_change: -underlying,
        },
    )
}

/// The funds check after an exercise's moves, given each party's balance
/// and exposures after them (`None` when the account does not exist): the
/// exerciser is checked first, then the writer; an account that is missing
/// is refused, and so is one whose available balance went negative.
pub open spec fn spec_exercise_funds(
    exerciser: Option<i128>,
    exerciser_exposures: Seq<MarketExposure>,
    writer: Option<i128>,
    writer_exposures: Seq<MarketExposure>,
) -> Result<(), ValidationFailure> {
    match exerciser {
        None => Err(ValidationFailure::AccountNotFound),
        Some(b) => if spec_available_balance(b as int, exerciser_exposures) < 0 {
            Err(ValidationFailure::InsufficientFunds)
        } else {
            match writer {
                None => Err(ValidationFailure::AccountNotFound),
                Some(w) => if spec_available_balance(w as int, writer_exposures) < 0 {
                    Err(ValidationFailure::InsufficientFunds)
                } else {
                    Ok(())
                },
            }
        },
    }
}

/// Check both parties' funds after an exercise's moves.
pub fn check_exercise_funds(
    exerciser: Option<i128>,
    exerciser_exposures: &Vec<MarketExposure>,
    writer: Option<i128>,
    writer_exposures: &Vec<MarketExposure>,
) -> (r: Result<(), ValidationFailure>)
    requires
        exerciser matches Some(b) ==> money_ok(b as int) && exposures_bounded(exerciser_exposures@),
        writer matches Some(b) ==> money_ok(b as int) && exposures_bounded(writer_exposures@),
    ensures
        r == spec_exercise_funds(exerciser, exerciser_exposures@, writer, writer_exposures@),
{
    let b = match exerciser {
        None => return Err(ValidationFailure::AccountNotFound),
        Some(b) => b,
    };
    if available_balance(b, exerciser_exposures) < 0 {
        return Err(ValidationFailure::InsufficientFunds);
    }
    let w = match writer {
        None => return Err(ValidationFailure::AccountNotFound),
        Some(w) => w,
    };
    if available_balance(w, writer_exposures) < 0 {
        return Err(ValidationFailure::InsufficientFunds);
    }
    Ok(())
}

/// Exercising before the underlying has settled trades the underlying at
/// the strike: a call holder receives the exercised amount of the
/// underlying and a put holder delivers it, and either way the holder's
/// cash moves by the strike times what it gives up (so a put holder is paid
/// the strike and a call holder pays it).  The writer takes the other side
/// of both moves.
pub proof fn lemma_physical_exercise_direction(
    exerciser_id: i64,
    option_market_id: i64,
    amount: DecimalParts,
    contract: Option<OptionContract>,
    option: Option<OptionTerms>,
    option_settled: bool,
    now: i128,
)
    requires
        spec_decide_exercise(exerciser_id, option_market_id, amount, contract, option, option_settled, None, now) is Ok,
        contract matches Some(c) ==> cents_ok(c.remaining_amount as int),
        option matches Some(o) ==> cents_ok(o.strike_price as int),
    ensures
        ({
            let e = spec_decide_exercise(
                exerciser_id,
                option_market_id,
                amount,
                contract,
                option,
                option_settled,
                None,
                now,
            )->Ok_0;
            let o = option->Some_0;
            &&& !e.is_cash_settled
            &&& e.amount > 0
            &&& o.is_call ==> e.exerciser_underlying_change == e.amount
            &&& !o.is_call ==> e.exerciser_underlying_change == -e.amount
            &&& e.exerciser_cash_change == -(o.strike_price * e.exerciser_underlying_change)
            &&& (o.strike_price >= 0 && !o.is_call) ==> e.exerciser_cash_change >= 0
            &&& (o.strike_price >= 0 && o.is_call) ==> e.exerciser_cash_change <= 0
            &&& e.writer_cash_change == -e.exerciser_cash_change
            &&& e.writer_underlying_change == -e.exerciser_underlying_change
        }),
{
    let n = normalized(amount);
    let a = scaled_value(n, 2);
    let c = contract->Some_0;
    let o = option->Some_0;
    crate::money::lemma_pow10_positive((2 - n.scale) as nat);
    assert(a > 0) by (nonlinear_arith)
        requires
            a == n.mantissa * pow10((2 - n.scale) as nat),
            n.mantissa > 0,
            pow10((2 - n.scale) as nat) >= 1,
    ;
    assert(0 < a <= CENTS_LIMIT);
    lemma_cents_product(a, o.strike_price as int);
    lemma_cents_product(-a, o.strike_price as int);
    assert(-a * o.strike_price == -(o.strike_price * a)) by (nonlinear_arith);
    assert(a * o.strike_price == -(o.strike_price * (-a))) by (nonlinear_arith);
    if o.strike_price >= 0 {
        assert(a * o.strike_price >= 0) by (nonlinear_arith)
            requires
                a > 0,
                o.strike_price >= 0,
        ;
    }
}

/// Exercising after the underlying has settled moves no underlying and
/// pays the holder the option's value at the settlement price: for a call,
/// the amount times how far the settlement price is above the strike; for
/// a put, how far it is below; nothing when the option is out of the money.
pub proof fn lemma_cash_exercise_pays_intrinsic_value(
    exerciser_id: i64,
    option_market_id: i64,
    amount: DecimalParts,
    contract: Option<OptionContract>,
    option: Option<OptionTerms>,
    option_settled: bool,
    settled_price: i128,
    now: i128,
)
    requires
        spec_decide_exercise(
            exerciser_id,
            option_market_id,
            amount,
            contract,
            option,
            option_settled,
            Some(settled_price),
            now,
        ) is Ok,
        contract matches Some(c) ==> cents_ok(c.remaining_amount as int),
        option matches Some(o) ==> cents_ok(o.strike_price as int),
        cents_ok(settled_price as int),
    ensures
        ({
            let e = spec_decide_exercise(
                exerciser_id,
                option_market_id,
                amount,
                contract,
                option,
                option_settled,
                Some(settled_price),
                now,
            )->Ok_0;
            let o = option->Some_0;
            &&& e.is_cash_settled
            &&& e.exerciser_underlying_change == 0
            &&& e.writer_underlying_change == 0
            &&& (o.is_call && settled_price > o.strike_price) ==> e.exerciser_cash_change == e.amount
                * (settled_price - o.strike_price)
            &&& (!o.is_call && settled_price < o.strike_price) ==> e.exerciser_cash_change == e.amount
                * (o.strike_price - settled_price)
            &&& ((o.is_call && settled_price <= o.strike_price) || (!o.is_call && settled_price
                >= o.strike_price)) ==> e.exerciser_cash_change == 0
            &&& e.writer_cash_change == -e.exerciser_cash_change
        }),
{
    let n = normalized(amount);
    let a = scaled_value(n, 2);
    let o = option->Some_0;
    crate::money::lemma_pow10_positive((2 - n.scale) as nat);
    assert(a > 0) by (nonlinear_arith)
        requires
            a == n.mantissa * pow10((2 - n.scale) as nat),
            n.mantissa > 0,
            pow10((2 - n.scale) as nat) >= 1,
    ;
    let intrinsic = if o.is_call {
        max0(settled_price - o.strike_price)
    } else {
        max0(o.strike_price - settled_price)
    };
    assert(a <= contract->Some_0.remaining_amount);
    lemma_cents_product(a, intrinsic);
    let e = exercise_effects(contract->Some_0, o, a, Some(settled_price));
    assert(e.amount == a);
    assert(e.exerciser_cash_change == a * intrinsic);
}

/// Exercise moves value between the two parties only: cash, underlying and
/// option position changes cancel out, and a cash exercise never costs the exerciser.
pub proof fn lemma_exercise_zero_sum(
    contract: OptionContract,
    option: OptionTerms,
    amount: int,
    underlying_settled_price: Option<i128>,
)
    requires
        0 < amount <= CENTS_LIMIT,
        cents_ok(option.strike_price as int),
        underlying_settled_price matches Some(p) ==> cents_ok(p as int),
    ensures
        ({
            let e = exercise_effects(contract, option, amount, underlying_settled_price);
            &&& e.exerciser_cash_change + e.writer_cash_change == 0
            &&& e.exerciser_underlying_change + e.writer_underlying_change == 0
            &&& e.exerciser_option_change + e.writer_option_change == 0
            &&& e.is_cash_settled ==> e.exerciser_cash_change >= 0
        }),
{
    lemma_cents_product(amount, option.strike_price as int);
    if let Some(settled) = underlying_settled_price {
        let intrinsic = if option.is_call {
            max0(settled - option.strike_price)
        } else {
            max0(option.strike_price - settled)
        };
        lemma_cents_product(amount, intrinsic);
        assert(amount * intrinsic >= 0) by (nonlinear_arith)
            requires
                amount > 0,
                intrinsic >= 0,
        ;
    } else {
        assert(-amount * option.strike_price == -(amount * option.strike_price)) by (nonlinear_arith);
    }
}

} // verus!

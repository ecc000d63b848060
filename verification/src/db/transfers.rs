//! Moving money between accounts: transfers, gifts, redeem codes, and the
//! owner credits that track what an owner has put into an account it owns.
use vstd::prelude::*;

use super::portfolio::{OwnerCredit, Portfolio};
use super::ValidationFailure;
use crate::money::{money_ok, normalize, pow10, normalized, scaled_value, to_scaled, wf_parts, DecimalParts};

verus! {

/// A transfer amount: positive with at most four places once normalized.
pub open spec fn transfer_amount_ok(a: DecimalParts) -> bool {
    normalized(a).mantissa > 0 && normalized(a).scale <= 4
}

pub open spec fn spec_transfer_amount(a: DecimalParts) -> Result<int, ValidationFailure> {
    if transfer_amount_ok(a) {
        Ok(scaled_value(normalized(a), 4))
    } else {
        Err(ValidationFailure::InvalidAmount)
    }
}

/// Check a transfer, gift or redeem-code amount; returns it in money units.
pub fn validate_transfer_amount(a: DecimalParts) -> (r: Result<i128, ValidationFailure>)
    requires
        wf_parts(a),
    ensures
        r matches Ok(m) ==> spec_transfer_amount(a) == Ok::<int, ValidationFailure>(m as int) && m
            > 0,
        r matches Err(f) ==> spec_transfer_amount(a) == Err::<int, ValidationFailure>(f),
{
    let n = normalize(a);
    if n.mantissa <= 0 || n.scale > 4 {
        return Err(ValidationFailure::InvalidAmount);
    }
    proof {
        crate::money::lemma_pow10_positive((4 - n.scale) as nat);
        assert(n.mantissa * crate::money::pow10((4 - n.scale) as nat) > 0) by (nonlinear_arith)
            requires
                n.mantissa > 0,
                crate::money::pow10((4 - n.scale) as nat) >= 1,
        ;
    }
    Ok(to_scaled(n, 4))
}

/// The first credit in `credits` held by `owner_id`, if any.
pub open spec fn find_credit(credits: Seq<OwnerCredit>, owner_id: i64) -> Option<int>
    decreases credits.len(),
{
    if credits.len() == 0 {
        None
    } else if credits[0].owner_id == owner_id {
        Some(0)
    } else {
        match find_credit(credits.drop_first(), owner_id) {
            Some(i) => Some(i + 1),
            None => None,
        }
    }
}

/// `find_credit` finds the first credit held by the owner, or none when
/// the owner holds none.
pub proof fn lemma_find_credit(credits: Seq<OwnerCredit>, owner_id: i64)
    ensures
        find_credit(credits, owner_id) matches Some(i) ==> 0 <= i < credits.len()
            && credits[i].owner_id == owner_id && forall|j: int|
            0 <= j < i ==> credits[j].owner_id != owner_id,
        find_credit(credits, owner_id) is None ==> forall|j: int|
            0 <= j < credits.len() ==> credits[j].owner_id != owner_id,
    decreases credits.len(),
{
    if credits.len() > 0 {
        lemma_find_credit(credits.drop_first(), owner_id);
        assert forall|j: int| 0 < j < credits.len() implies credits[j] == credits.drop_first()[j
            - 1] by {}
    }
}

/// Find the first credit held by `owner_id`.
pub fn find_owner_credit(credits: &Vec<OwnerCredit>, owner_id: i64) -> (r: Option<usize>)
    ensures
        r matches Some(i) ==> find_credit(credits@, owner_id) == Some(i as int) && i < credits@.len()
            && credits@[i as int].owner_id == owner_id,
        r is None ==> find_credit(credits@, owner_id) is None,
{
    let mut i: usize = 0;
    proof {
        lemma_find_credit(credits@, owner_id);
    }
    while i < credits.len()
        invariant
            i <= credits.len(),
            forall|j: int| 0 <= j < i ==> credits@[j].owner_id != owner_id,
            find_credit(credits@, owner_id) matches Some(k) ==> 0 <= k < credits@.len()
                && credits@[k].owner_id == owner_id && forall|j: int|
                0 <= j < k ==> credits@[j].owner_id != owner_id,
            find_credit(credits@, owner_id) is None ==> forall|j: int|
                0 <= j < credits@.len() ==> credits@[j].owner_id != owner_id,
        decreases credits.len() - i,
    {
        if credits[i].owner_id == owner_id {
            return Some(i);
        }
        i = i + 1;
    }
    None
}

/// A new value for the credit `owner_id` holds in `account_id`.
#[derive(Clone, Copy, Debug, PartialEq, Eq, Structural)]
pub struct CreditUpdate {
    pub account_id: i64,
    pub owner_id: i64,
    pub credit: i128,
}

pub open spec fn holds_credit(p: Portfolio, owner_id: i64) -> bool {
    exists|i: int| 0 <= i < p.owner_credits@.len() && p.owner_credits@[i].owner_id == owner_id
}

pub open spec fn spec_credit_transfer(
    initiator_id: i64,
    owner: Portfolio,
    owned: Portfolio,
    owned_has_open_positions: bool,
    new_credit: int,
) -> Result<CreditUpdate, ValidationFailure> {
    if owner.account_id != initiator_id && !holds_credit(owner, initiator_id) {
        Err(ValidationFailure::AccountNotOwned)
    } else if owned.owner_credits@.len() > 1 && owned_has_open_positions {
        Err(ValidationFailure::SharedOwnershipAccountHasOpenPositions)
    } else {
        Ok(CreditUpdate { account_id: owned.account_id, owner_id: owner.account_id, credit: new_credit as i128 })
    }
}

/// Moving money between an owner and an account it owns changes the owner's
/// credit there.  The initiator must be the owner or one of the owner's own
/// owners; an account shared by several owners cannot move credit while it
/// (or an account it owns) has open positions.
pub fn execute_credit_transfer(
    initiator_id: i64,
    owner: &Portfolio,
    owned: &Portfolio,
    owned_has_open_positions: bool,
    new_credit: i128,
) -> (r: Result<CreditUpdate, ValidationFailure>)
    ensures
        r == spec_credit_transfer(initiator_id, *owner, *owned, owned_has_open_positions, new_credit as int),
{
    if owner.account_id != initiator_id {
        let found = find_owner_credit(&owner.owner_credits, initiator_id);
        proof {
            lemma_find_credit(owner.owner_credits@, initiator_id);
        }
        if found.is_none() {
            return Err(ValidationFailure::AccountNotOwned);
        }
        proof {
            let k = find_credit(owner.owner_credits@, initiator_id)->0;
            assert(owner.owner_credits@[k].owner_id == initiator_id);
        }
    }
    if owned.owner_credits.len() > 1 && owned_has_open_positions {
        return Err(ValidationFailure::SharedOwnershipAccountHasOpenPositions);
    }
    Ok(CreditUpdate { account_id: owned.account_id, owner_id: owner.account_id, credit: new_credit })
}

/// What a transfer writes: an optional credit change, both new balances and
/// the initiator recorded on the transfer.
#[derive(Clone, Copy, Debug, PartialEq, Eq, Structural)]
pub struct TransferPlan {
    pub amount: i128,
    pub credit_update: Option<CreditUpdate>,
    pub from_new_balance: i128,
    pub to_new_balance: i128,
    pub recorded_initiator_id: i64,
}

/// The accounts a transfer reads, with their universes and whether each has
/// open positions (itself or an account it owns).
pub struct TransferParties {
    pub initiator_is_user: bool,
    pub from: Option<Portfolio>,
    pub to: Option<Portfolio>,
    pub from_universe: i64,
    pub to_universe: i64,
    pub from_has_open_positions: bool,
    pub to_has_open_positions: bool,
}

pub open spec fn spec_decide_transfer(
    admin_id: Option<i64>,
    initiator_id: i64,
    from_id: i64,
    to_id: i64,
    amount: DecimalParts,
    parties: TransferParties,
) -> Result<TransferPlan, ValidationFailure> {
    if from_id == to_id {
        Err(ValidationFailure::SameAccount)
    } else if !transfer_amount_ok(amount) {
        Err(ValidationFailure::InvalidAmount)
    } else if !parties.initiator_is_user {
        Err(ValidationFailure::InitiatorNotUser)
    } else if parties.from is None {
        Err(ValidationFailure::AccountNotFound)
    } else if parties.from->0.available_balance < scaled_value(normalized(amount), 4) {
        Err(ValidationFailure::InsufficientFunds)
    } else if parties.to is None {
        Err(ValidationFailure::AccountNotFound)
    } else if parties.from_universe != parties.to_universe {
        Err(ValidationFailure::CrossUniverseTransfer)
    } else {
        let a = scaled_value(normalized(amount), 4);
        let from = parties.from->0;
        let to = parties.to->0;
        let credit: Result<Option<CreditUpdate>, ValidationFailure> = match find_credit(
            from.owner_credits@,
            to_id,
        ) {
            Some(i) => if from.owner_credits@[i].credit < a {
                Err(ValidationFailure::InsufficientCredit)
            } else {
                match spec_credit_transfer(
                    initiator_id,
                    to,
                    from,
                    parties.from_has_open_positions,
                    from.owner_credits@[i].credit - a,
                ) {
                    Ok(u) => Ok(Some(u)),
                    Err(f) => Err(f),
                }
            },
            None => match find_credit(to.owner_credits@, from_id) {
                Some(i) => match spec_credit_transfer(
                    initiator_id,
                    from,
                    to,
                    parties.to_has_open_positions,
                    to.owner_credits@[i].credit + a,
                ) {
                    Ok(u) => Ok(Some(u)),
                    Err(f) => Err(f),
                },
                None => if initiator_id == from_id && to.owner_credits@.len() == 0 {
                    Ok(None)
                } else {
                    Err(ValidationFailure::AccountNotOwned)
                },
            },
        };
        match credit {
            Err(f) => Err(f),
            Ok(u) => Ok(
                TransferPlan {
                    amount: a as i128,
                    credit_update: u,
                    from_new_balance: (from.total_balance - a) as i128,
                    to_new_balance: (to.total_balance + a) as i128,
                    recorded_initiator_id: match admin_id {
                        Some(id) => id,
                        None => initiator_id,
                    },
                },
            ),
        }
    }
}

pub open spec fn parties_bounded(parties: TransferParties) -> bool {
    &&& (parties.from matches Some(p) ==> money_ok(p.total_balance as int) && forall|i: int|
        0 <= i < p.owner_credits@.len() ==> money_ok((#[trigger] p.owner_credits@[i]).credit as int))
    &&& (parties.to matches Some(p) ==> money_ok(p.total_balance as int) && forall|i: int|
        0 <= i < p.owner_credits@.len() ==> money_ok((#[trigger] p.owner_credits@[i]).credit as int))
}

/// Decide a transfer between two accounts.  Money moves freely from a user
/// to a user account nobody owns; otherwise one side must own the other:
/// a withdrawal from an owned account lowers the owner's credit (which must
/// cover it), a deposit raises it.  Returns the new balances and credit.
pub fn decide_transfer(
    admin_id: Option<i64>,
    initiator_id: i64,
    from_id: i64,
    to_id: i64,
    amount: DecimalParts,
    parties: &TransferParties,
) -> (r: Result<TransferPlan, ValidationFailure>)
    requires
        wf_parts(amount),
        parties_bounded(*parties),
        normalized(amount).scale <= 4 ==> money_ok(scaled_value(normalized(amount), 4)),
    ensures
        r == spec_decide_transfer(admin_id, initiator_id, from_id, to_id, amount, *parties),
        r matches Ok(plan) ==> parties.from matches Some(f) && 0 < plan.amount <= f.available_balance,
{
    if from_id == to_id {
        return Err(ValidationFailure::SameAccount);
    }
    let a = match validate_transfer_amount(amount) {
        Ok(a) => a,
        Err(f) => {
            return Err(f);
        },
    };
    if !parties.initiator_is_user {
        return Err(ValidationFailure::InitiatorNotUser);
    }
    let from = match &parties.from {
        None => {
            return Err(ValidationFailure::AccountNotFound);
        },
        Some(p) => p,
    };
    if from.available_balance < a {
        return Err(ValidationFailure::InsufficientFunds);
    }
    let to = match &parties.to {
        None => {
            return Err(ValidationFailure::AccountNotFound);
        },
        Some(p) => p,
    };
    if parties.from_universe != parties.to_universe {
        return Err(ValidationFailure::CrossUniverseTransfer);
    }
    proof {
        lemma_find_credit(from.owner_credits@, to_id);
        lemma_find_credit(to.owner_credits@, from_id);
    }
    let credit_update = match find_owner_credit(&from.owner_credits, to_id) {
        Some(i) => {
            let c = from.owner_credits[i].credit;
            if c < a {
                return Err(ValidationFailure::InsufficientCredit);
            }
            match execute_credit_transfer(initiator_id, to, from, parties.from_has_open_positions, c - a) {
                Ok(u) => Some(u),
                Err(f) => {
                    return Err(f);
                },
            }
        },
        None => match find_owner_credit(&to.owner_credits, from_id) {
            Some(i) => {
                let c = to.owner_credits[i].credit;
                proof {
                    assert(money_ok(to.owner_credits@[i as int].credit as int));
                }
                match execute_credit_transfer(
                    initiator_id,
                    from,
                    to,
                    parties.to_has_open_positions,
                    c + a,
                ) {
                    Ok(u) => Some(u),
                    Err(f) => {
                        return Err(f);
                    },
                }
            },
            None => {
                if !(initiator_id == from_id && to.owner_credits.len() == 0) {
                    return Err(ValidationFailure::AccountNotOwned);
                }
                None
            },
        },
    };
    let recorded = match admin_id {
        Some(id) => id,
        None => initiator_id,
    };
    Ok(
        TransferPlan {
            amount: a,
            credit_update,
            from_new_balance: from.total_balance - a,
            to_new_balance: to.total_balance + a,
            recorded_initiator_id: recorded,
        },
    )
}

/// A transfer moves money without creating or destroying any: the two new
/// balances sum to the two old ones.
pub proof fn lemma_transfer_conserves_money(
    admin_id: Option<i64>,
    initiator_id: i64,
    from_id: i64,
    to_id: i64,
    amount: DecimalParts,
    parties: TransferParties,
)
    requires
        spec_decide_transfer(admin_id, initiator_id, from_id, to_id, amount, parties) is Ok,
        parties_bounded(parties),
        money_ok(scaled_value(normalized(amount), 4)),
    ensures
        ({
            let plan = spec_decide_transfer(admin_id, initiator_id, from_id, to_id, amount, parties)->Ok_0;
            plan.from_new_balance + plan.to_new_balance == parties.from->0.total_balance
                + parties.to->0.total_balance
        }),
{
}


/// Only money that is free to spend can be transferred: an accepted
/// transfer moves a positive amount no larger than the sender's available
/// balance (its balance less what its open orders and positions could
/// still cost it), and the sender's new balance is its balance less that
/// amount.
pub proof fn lemma_transfer_within_available_balance(
    admin_id: Option<i64>,
    initiator_id: i64,
    from_id: i64,
    to_id: i64,
    amount: DecimalParts,
    parties: TransferParties,
)
    requires
        spec_decide_transfer(admin_id, initiator_id, from_id, to_id, amount, parties) is Ok,
        parties_bounded(parties),
        money_ok(scaled_value(normalized(amount), 4)),
    ensures
        ({
            let plan = spec_decide_transfer(admin_id, initiator_id, from_id, to_id, amount, parties)->Ok_0;
            &&& parties.from is Some
            &&& 0 < plan.amount <= parties.from->0.available_balance
            &&& plan.from_new_balance == parties.from->0.total_balance - plan.amount
            &&& plan.to_new_balance == parties.to->0.total_balance + plan.amount
        }),
{
    let n = normalized(amount);
    crate::money::lemma_pow10_positive((4 - n.scale) as nat);
    assert(n.mantissa * pow10((4 - n.scale) as nat) > 0) by (nonlinear_arith)
        requires
            n.mantissa > 0,
            pow10((4 - n.scale) as nat) >= 1,
    ;
}


/// A transfer of more than the sender's available balance is refused for
/// insufficient funds (once the accounts differ, the amount is valid, the
/// initiator is a user and the sender exists).
pub proof fn lemma_transfer_over_available_refused(
    admin_id: Option<i64>,
    initiator_id: i64,
    from_id: i64,
    to_id: i64,
    amount: DecimalParts,
    parties: TransferParties,
)
    requires
        wf_parts(amount),
        from_id != to_id,
        amount.scale <= 4,
        amount.mantissa > 0,
        parties.initiator_is_user,
        parties.from matches Some(f) && f.available_balance < amount.mantissa * pow10(
            (4 - amount.scale) as nat,
        ),
    ensures
        spec_decide_transfer(admin_id, initiator_id, from_id, to_id, amount, parties) == Err::<
            TransferPlan,
            ValidationFailure,
        >(ValidationFailure::InsufficientFunds),
{
    crate::money::lemma_normalized_scaled_value(amount, 4);
}


/// An accepted transfer moves exactly the amount asked for, counted in
/// money units (the value times 10^4).
pub proof fn lemma_transfer_moves_requested_amount(
    admin_id: Option<i64>,
    initiator_id: i64,
    from_id: i64,
    to_id: i64,
    amount: DecimalParts,
    parties: TransferParties,
)
    requires
        spec_decide_transfer(admin_id, initiator_id, from_id, to_id, amount, parties) is Ok,
        wf_parts(amount),
        amount.scale <= 4,
        money_ok(amount.mantissa * pow10((4 - amount.scale) as nat)),
    ensures
        spec_decide_transfer(admin_id, initiator_id, from_id, to_id, amount, parties)->Ok_0.amount
            == amount.mantissa * pow10((4 - amount.scale) as nat),
{
    crate::money::lemma_normalized_scaled_value(amount, 4);
}

} // verus!

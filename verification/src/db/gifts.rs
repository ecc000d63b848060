//! Money that enters an account from outside trading: gifts from a
//! universe's owner or an admin, the greeting gift new users receive, and
//! single-use redeem codes.
use vstd::prelude::*;

use super::transfers::{spec_transfer_amount, transfer_amount_ok, validate_transfer_amount};
use super::ValidationFailure;
use crate::money::{money_ok, normalized, scaled_value, wf_parts, DecimalParts};
use crate::random::random_below;
use crate::text::{char_string, to_uppercase, trim, trimmed, unicode_uppercase};

verus! {

/// What a gift writes: its amount (money units), the account it comes from,
/// the recipient's new balance and the initiator recorded on it.
#[derive(Clone, Copy, Debug, PartialEq, Eq, Structural)]
pub struct GiftPlan {
    pub amount: i128,
    pub from_account_id: i64,
    pub to_new_balance: i128,
    pub recorded_initiator_id: i64,
}

/// What a gift reads: whether the initiator is a user, the recipient's
/// balance (`None` when there is no such account), its universe and that
/// universe's owner.
#[derive(Clone, Copy, Debug)]
pub struct GiftFacts {
    pub initiator_is_user: bool,
    pub to_total_balance: Option<i128>,
    pub to_universe_id: i64,
    pub universe_owner: Option<i64>,
}

/// A gift: a positive amount with at most four places; from a user; to an
/// existing account.  In the main universe only an admin gifts, from the
/// greeting account; elsewhere the universe's owner (or an admin) gifts,
/// from the owner's account.
pub open spec fn spec_decide_gift(
    admin_id: Option<i64>,
    initiator_id: i64,
    amount: DecimalParts,
    greeter_account_id: i64,
    facts: GiftFacts,
) -> Result<GiftPlan, ValidationFailure> {
    if !transfer_amount_ok(amount) {
        Err(ValidationFailure::InvalidAmount)
    } else if !facts.initiator_is_user {
        Err(ValidationFailure::InitiatorNotUser)
    } else if facts.to_total_balance is None {
        Err(ValidationFailure::AccountNotFound)
    } else {
        let from: Result<i64, ValidationFailure> = if facts.to_universe_id == 0 {
            if admin_id is None {
                Err(ValidationFailure::NotUniverseOwner)
            } else {
                Ok(greeter_account_id)
            }
        } else {
            match facts.universe_owner {
                Some(o) => if o == initiator_id || admin_id is Some {
                    Ok(o)
                } else {
                    Err(ValidationFailure::NotUniverseOwner)
                },
                None => Err(ValidationFailure::NotUniverseOwner),
            }
        };
        match from {
            Err(f) => Err(f),
            Ok(from_id) => {
                let a = scaled_value(normalized(amount), 4);
                Ok(
                    GiftPlan {
                        amount: a as i128,
                        from_account_id: from_id,
                        to_new_balance: (facts.to_total_balance->0 + a) as i128,
                        recorded_initiator_id: match admin_id {
                            Some(id) => id,
                            None => initiator_id,
                        },
                    },
                )
            },
        }
    }
}

/// Decide a gift.
pub fn decide_gift(
    admin_id: Option<i64>,
    initiator_id: i64,
    amount: DecimalParts,
    greeter_account_id: i64,
    facts: GiftFacts,
) -> (r: Result<GiftPlan, ValidationFailure>)
    requires
        wf_parts(amount),
        normalized(amount).scale <= 4 ==> money_ok(scaled_value(normalized(amount), 4)),
        facts.to_total_balance matches Some(b) ==> money_ok(b as int),
    ensures
        r == spec_decide_gift(admin_id, initiator_id, amount, greeter_account_id, facts),
{
    let a = match validate_transfer_amount(amount) {
        Ok(a) => a,
        Err(f) => return Err(f),
    };
    if !facts.initiator_is_user {
        return Err(ValidationFailure::InitiatorNotUser);
    }
    let to_total = match facts.to_total_balance {
        Some(b) => b,
        None => return Err(ValidationFailure::AccountNotFound),
    };
    let from_id = if facts.to_universe_id == 0 {
        if admin_id.is_none() {
            return Err(ValidationFailure::NotUniverseOwner);
        }
        greeter_account_id
    } else {
        match facts.universe_owner {
            Some(o) => {
                if o == initiator_id || admin_id.is_some() {
                    o
                } else {
                    return Err(ValidationFailure::NotUniverseOwner);
                }
            },
            None => return Err(ValidationFailure::NotUniverseOwner),
        }
    };
    let recorded = match admin_id {
        Some(id) => id,
        None => initiator_id,
    };
    Ok(
        GiftPlan {
            amount: a,
            from_account_id: from_id,
            to_new_balance: to_total + a,
            recorded_initiator_id: recorded,
        },
    )
}

/// The greeting gift: a positive amount with at most four places, to a user
/// account, once; `Ok(None)` when the account already received it.  Gives
/// the amount and the recipient's new balance.
pub open spec fn spec_decide_greeting_gift(
    amount: DecimalParts,
    recipient_is_user: bool,
    already_gifted: bool,
    to_total_balance: Option<i128>,
) -> Result<Option<(int, int)>, ValidationFailure> {
    if !transfer_amount_ok(amount) {
        Err(ValidationFailure::InvalidAmount)
    } else if !recipient_is_user {
        Err(ValidationFailure::RecipientNotAUser)
    } else if already_gifted {
        Ok(None)
    } else {
        match to_total_balance {
            None => Err(ValidationFailure::AccountNotFound),
            Some(b) => {
                let a = scaled_value(normalized(amount), 4);
                Ok(Some((a, b + a)))
            },
        }
    }
}

/// Decide the greeting gift to a user.
pub fn decide_greeting_gift(
    amount: DecimalParts,
    recipient_is_user: bool,
    already_gifted: bool,
    to_total_balance: Option<i128>,
) -> (r: Result<Option<(i128, i128)>, ValidationFailure>)
    requires
        wf_parts(amount),
        normalized(amount).scale <= 4 ==> money_ok(scaled_value(normalized(amount), 4)),
        to_total_balance matches Some(b) ==> money_ok(b as int),
    ensures
        match (r, spec_decide_greeting_gift(amount, recipient_is_user, already_gifted, to_total_balance)) {
            (Ok(None), Ok(None)) => true,
            (Ok(Some(p)), Ok(Some(q))) => p.0 == q.0 && p.1 == q.1,
            (Err(a), Err(b)) => a == b,
            _ => false,
        },
{
    let a = match validate_transfer_amount(amount) {
        Ok(a) => a,
        Err(f) => return Err(f),
    };
    if !recipient_is_user {
        return Err(ValidationFailure::RecipientNotAUser);
    }
    if already_gifted {
        return Ok(None);
    }
    match to_total_balance {
        None => Err(ValidationFailure::AccountNotFound),
        Some(b) => Ok(Some((a, b + a))),
    }
}

/// A letter used in redeem codes: `A` to `Z` without `I`, `L` and `O`,
/// which are easily misread.
pub open spec fn is_code_letter(c: char) -> bool {
    'A' <= c <= 'Z' && c != 'I' && c != 'L' && c != 'O'
}

/// A digit used in redeem codes: `2` to `9` (no `0` or `1`).
pub open spec fn is_code_digit(c: char) -> bool {
    '2' <= c <= '9'
}

/// The shape of a redeem code: three capital letters, `-`, three digits.
pub open spec fn redeem_code_format(s: Seq<char>) -> bool {
    &&& s.len() == 7
    &&& s[3] == '-'
    &&& forall|i: int| 0 <= i < 3 ==> 'A' <= #[trigger] s[i] <= 'Z'
    &&& forall|i: int| 4 <= i < 7 ==> '0' <= #[trigger] s[i] <= '9'
}

/// The `i`-th code letter (of 23).
fn code_letter(i: usize) -> (r: char)
    requires
        i < 23,
    ensures
        is_code_letter(r),
{
    let offset: u8 = if i < 8 {
        i as u8
    } else if i < 10 {
        (i + 1) as u8
    } else if i < 12 {
        (i + 2) as u8
    } else {
        (i + 3) as u8
    };
    let b: u8 = 65 + offset;
    b as char
}

/// The `i`-th code digit (of 8).
fn code_digit(i: usize) -> (r: char)
    requires
        i < 8,
    ensures
        is_code_digit(r),
{
    let b: u8 = 50 + i as u8;
    b as char
}

/// A fresh redeem code: three random code letters, `-`, three random code
/// digits.
pub fn generate_redeem_code() -> (r: String)
    ensures
        r@.len() == 7,
        r@[3] == '-',
        forall|i: int| 0 <= i < 3 ==> is_code_letter(#[trigger] r@[i]),
        forall|i: int| 4 <= i < 7 ==> is_code_digit(#[trigger] r@[i]),
{
    let mut out = String::new();
    let mut k: usize = 0;
    while k < 3
        invariant
            k <= 3,
            out@.len() == k,
            forall|i: int| 0 <= i < k ==> is_code_letter(#[trigger] out@[i]),
        decreases 3 - k,
    {
        let c = code_letter(random_below(23));
        let piece = char_string(c);
        let ghost before = out@;
        out.append(piece.as_str());
        proof {
            assert forall|i: int| 0 <= i < k implies out@[i] == before[i] by {}
            assert(out@[k as int] == c);
        }
        k = k + 1;
    }
    let dash = char_string('-');
    let ghost before_dash = out@;
    out.append(dash.as_str());
    proof {
        assert forall|i: int| 0 <= i < 3 implies out@[i] == before_dash[i] by {}
    }
    while k < 6
        invariant
            3 <= k <= 6,
            out@.len() == k + 1,
            out@[3] == '-',
            forall|i: int| 0 <= i < 3 ==> is_code_letter(#[trigger] out@[i]),
            forall|i: int| 4 <= i < k + 1 ==> is_code_digit(#[trigger] out@[i]),
        decreases 6 - k,
    {
        let c = code_digit(random_below(8));
        let piece = char_string(c);
        let ghost before = out@;
        out.append(piece.as_str());
        proof {
            assert forall|i: int| 0 <= i < k + 1 implies out@[i] == before[i] by {}
            assert(out@[k + 1] == c);
        }
        k = k + 1;
    }
    out
}

/// Every generated redeem code has the shape redeem codes are checked
/// against.
pub proof fn lemma_generated_code_well_formed(s: Seq<char>)
    requires
        s.len() == 7,
        s[3] == '-',
        forall|i: int| 0 <= i < 3 ==> is_code_letter(#[trigger] s[i]),
        forall|i: int| 4 <= i < 7 ==> is_code_digit(#[trigger] s[i]),
    ensures
        redeem_code_format(s),
{
}

/// Whether `s` has the shape of a redeem code: three capital letters, `-`,
/// three digits.
pub fn is_valid_redeem_code_format(s: &str) -> (r: bool)
    ensures
        r == redeem_code_format(s@),
{
    if s.unicode_len() != 7 || s.get_char(3) != '-' {
        return false;
    }
    let mut i: usize = 0;
    while i < 7
        invariant
            s@.len() == 7,
            i <= 7,
            forall|k: int| 0 <= k < i && k < 3 ==> 'A' <= #[trigger] s@[k] <= 'Z',
            forall|k: int| 4 <= k < i ==> '0' <= #[trigger] s@[k] <= '9',
        decreases 7 - i,
    {
        let c = s.get_char(i);
        if i < 3 && !('A' <= c && c <= 'Z') {
            return false;
        }
        if i > 3 && !('0' <= c && c <= '9') {
            return false;
        }
        i = i + 1;
    }
    true
}

/// A code as typed by a user, made comparable: trimmed and uppercased.
pub fn normalize_redeem_code(raw: &str) -> (r: String)
    ensures
        r@ == unicode_uppercase(trimmed(raw@)),
{
    let t = trim(raw);
    to_uppercase(t.as_str())
}

/// A stored redeem code: its amount (money units), who minted it, when it
/// expires (unix nanoseconds, if ever) and who redeemed it (if anyone).
#[derive(Clone, Copy, Debug)]
pub struct RedeemCodeRow {
    pub id: i64,
    pub amount: i128,
    pub created_by: i64,
    pub expires_at: Option<i128>,
    pub redeemed_by: Option<i64>,
}

/// The accounts a claim reads: the minter's balance and available balance,
/// the claimer's balance (each `None` when there is no such account), and
/// their universes.
#[derive(Clone, Copy, Debug)]
pub struct ClaimFacts {
    pub from_balances: Option<(i128, i128)>,
    pub to_total_balance: Option<i128>,
    pub from_universe: i64,
    pub to_universe: i64,
}

/// What a claim writes: the amount, the account it comes from, and both new
/// balances.
#[derive(Clone, Copy, Debug, PartialEq, Eq, Structural)]
pub struct ClaimPlan {
    pub amount: i128,
    pub from_account_id: i64,
    pub from_new_balance: i128,
    pub to_new_balance: i128,
}

/// A claim of a redeem code at time `now`: the code must exist, be
/// unredeemed and unexpired, be claimed by another account than its
/// minter, the minter must be able to pay it from their available balance,
/// the claimer's account must exist, and both must be in one universe.
pub open spec fn spec_decide_claim(
    row: Option<RedeemCodeRow>,
    now: i128,
    claimer_id: i64,
    facts: ClaimFacts,
) -> Result<ClaimPlan, ValidationFailure> {
    match row {
        None => Err(ValidationFailure::RedeemCodeNotFound),
        Some(code) => if code.redeemed_by is Some {
            Err(ValidationFailure::RedeemCodeAlreadyRedeemed)
        } else if code.expires_at matches Some(t) && t < now {
            Err(ValidationFailure::RedeemCodeExpired)
        } else if code.created_by == claimer_id {
            Err(ValidationFailure::SameAccount)
        } else {
            match facts.from_balances {
                None => Err(ValidationFailure::AccountNotFound),
                Some((from_total, from_available)) => if from_available < code.amount {
                    Err(ValidationFailure::InsufficientFunds)
                } else {
                    match facts.to_total_balance {
                        None => Err(ValidationFailure::AccountNotFound),
                        Some(to_total) => if facts.from_universe != facts.to_universe {
                            Err(ValidationFailure::CrossUniverseTransfer)
                        } else {
                            Ok(
                                ClaimPlan {
                                    amount: code.amount,
                                    from_account_id: code.created_by,
                                    from_new_balance: (from_total - code.amount) as i128,
                                    to_new_balance: (to_total + code.amount) as i128,
                                },
                            )
                        },
                    }
                },
            }
        },
    }
}

/// Decide the claim of a redeem code.
pub fn decide_claim(row: Option<RedeemCodeRow>, now: i128, claimer_id: i64, facts: ClaimFacts) -> (r:
    Result<ClaimPlan, ValidationFailure>)
    requires
        row matches Some(code) ==> money_ok(code.amount as int),
        facts.from_balances matches Some(b) ==> money_ok(b.0 as int),
        facts.to_total_balance matches Some(b) ==> money_ok(b as int),
    ensures
        r == spec_decide_claim(row, now, claimer_id, facts),
{
    let code = match row {
        None => return Err(ValidationFailure::RedeemCodeNotFound),
        Some(c) => c,
    };
    if code.redeemed_by.is_some() {
        return Err(ValidationFailure::RedeemCodeAlreadyRedeemed);
    }
    if let Some(t) = code.expires_at {
        if t < now {
            return Err(ValidationFailure::RedeemCodeExpired);
        }
    }
    if code.created_by == claimer_id {
        return Err(ValidationFailure::SameAccount);
    }
    let (from_total, from_available) = match facts.from_balances {
        None => return Err(ValidationFailure::AccountNotFound),
        Some(b) => b,
    };
    if from_available < code.amount {
        return Err(ValidationFailure::InsufficientFunds);
    }
    let to_total = match facts.to_total_balance {
        None => return Err(ValidationFailure::AccountNotFound),
        Some(b) => b,
    };
    if facts.from_universe != facts.to_universe {
        return Err(ValidationFailure::CrossUniverseTransfer);
    }
    Ok(
        ClaimPlan {
            amount: code.amount,
            from_account_id: code.created_by,
            from_new_balance: from_total - code.amount,
            to_new_balance: to_total + code.amount,
        },
    )
}

/// Claiming a redeem code moves its amount from the minter to the claimer:
/// the two balances together are unchanged.
pub proof fn lemma_claim_conserves_money(
    row: Option<RedeemCodeRow>,
    now: i128,
    claimer_id: i64,
    facts: ClaimFacts,
)
    requires
        spec_decide_claim(row, now, claimer_id, facts) is Ok,
        row matches Some(code) ==> money_ok(code.amount as int),
        facts.from_balances matches Some(b) ==> money_ok(b.0 as int),
        facts.to_total_balance matches Some(b) ==> money_ok(b as int),
    ensures
        ({
            let plan = spec_decide_claim(row, now, claimer_id, facts)->Ok_0;
            plan.from_new_balance + plan.to_new_balance == facts.from_balances->Some_0.0
                + facts.to_total_balance->Some_0
        }),
{
}

} // verus!

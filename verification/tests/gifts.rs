use trading_backend::db::gifts::{
    decide_claim, decide_gift, decide_greeting_gift, generate_redeem_code,
    is_valid_redeem_code_format, normalize_redeem_code, ClaimFacts, GiftFacts, RedeemCodeRow,
};
use trading_backend::db::ValidationFailure;
use trading_backend::money::DecimalParts;

fn dec(mantissa: i128, scale: u32) -> DecimalParts {
    DecimalParts { mantissa, scale }
}

#[test]
fn generated_codes_have_the_checked_shape() {
    for _ in 0..200 {
        let code = generate_redeem_code();
        assert!(is_valid_redeem_code_format(&code), "{code}");
        let chars: Vec<char> = code.chars().collect();
        assert!(chars[..3].iter().all(|c| !matches!(c, 'I' | 'L' | 'O')));
        assert!(chars[4..].iter().all(|c| ('2'..='9').contains(c)));
    }
}

#[test]
fn redeem_code_format() {
    assert!(is_valid_redeem_code_format("ABC-234"));
    assert!(!is_valid_redeem_code_format("abc-234"));
    assert!(!is_valid_redeem_code_format("ABC234"));
    assert!(!is_valid_redeem_code_format("ABC-2345"));
    assert!(!is_valid_redeem_code_format("ABCD234"));
    assert_eq!(normalize_redeem_code("  abc-234 "), "ABC-234");
    assert!(is_valid_redeem_code_format(&normalize_redeem_code(" xyz-789\n")));
}

fn code(redeemed_by: Option<i64>, expires_at: Option<i128>) -> RedeemCodeRow {
    RedeemCodeRow { id: 1, amount: 50_000, created_by: 10, expires_at, redeemed_by }
}

fn facts() -> ClaimFacts {
    ClaimFacts {
        from_balances: Some((1_000_000, 600_000)),
        to_total_balance: Some(20_000),
        from_universe: 0,
        to_universe: 0,
    }
}

#[test]
fn claiming_a_code_moves_its_amount() {
    let plan = decide_claim(Some(code(None, Some(100))), 50, 20, facts()).unwrap();
    assert_eq!(plan.amount, 50_000);
    assert_eq!(plan.from_account_id, 10);
    assert_eq!(plan.from_new_balance, 950_000);
    assert_eq!(plan.to_new_balance, 70_000);
    assert_eq!(plan.from_new_balance + plan.to_new_balance, 1_000_000 + 20_000);
}

#[test]
fn claim_refusals() {
    assert_eq!(decide_claim(None, 0, 20, facts()).unwrap_err(), ValidationFailure::RedeemCodeNotFound);
    assert_eq!(
        decide_claim(Some(code(Some(3), None)), 0, 20, facts()).unwrap_err(),
        ValidationFailure::RedeemCodeAlreadyRedeemed
    );
    assert_eq!(
        decide_claim(Some(code(None, Some(100))), 101, 20, facts()).unwrap_err(),
        ValidationFailure::RedeemCodeExpired
    );
    assert_eq!(decide_claim(Some(code(None, None)), 0, 10, facts()).unwrap_err(), ValidationFailure::SameAccount);
    let poor = ClaimFacts { from_balances: Some((1_000_000, 40_000)), ..facts() };
    assert_eq!(decide_claim(Some(code(None, None)), 0, 20, poor).unwrap_err(), ValidationFailure::InsufficientFunds);
    let elsewhere = ClaimFacts { to_universe: 2, ..facts() };
    assert_eq!(
        decide_claim(Some(code(None, None)), 0, 20, elsewhere).unwrap_err(),
        ValidationFailure::CrossUniverseTransfer
    );
    let missing = ClaimFacts { to_total_balance: None, ..facts() };
    assert_eq!(decide_claim(Some(code(None, None)), 0, 20, missing).unwrap_err(), ValidationFailure::AccountNotFound);
}

fn gift_facts(universe: i64, owner: Option<i64>) -> GiftFacts {
    GiftFacts { initiator_is_user: true, to_total_balance: Some(10_000), to_universe_id: universe, universe_owner: owner }
}

#[test]
fn gifts() {
    // In the main universe only an admin gifts, from the greeting account.
    assert_eq!(
        decide_gift(None, 1, dec(5, 0), 6, gift_facts(0, None)).unwrap_err(),
        ValidationFailure::NotUniverseOwner
    );
    let plan = decide_gift(Some(99), 1, dec(5, 0), 6, gift_facts(0, None)).unwrap();
    assert_eq!((plan.amount, plan.from_account_id, plan.to_new_balance, plan.recorded_initiator_id), (50_000, 6, 60_000, 99));
    // Elsewhere the universe's owner gifts.
    let plan = decide_gift(None, 7, dec(5, 1), 6, gift_facts(3, Some(7))).unwrap();
    assert_eq!((plan.amount, plan.from_account_id, plan.recorded_initiator_id), (5_000, 7, 7));
    assert_eq!(
        decide_gift(None, 8, dec(5, 1), 6, gift_facts(3, Some(7))).unwrap_err(),
        ValidationFailure::NotUniverseOwner
    );
    assert_eq!(decide_gift(None, 7, dec(1, 5), 6, gift_facts(3, Some(7))).unwrap_err(), ValidationFailure::InvalidAmount);
    let not_user = GiftFacts { initiator_is_user: false, ..gift_facts(3, Some(7)) };
    assert_eq!(decide_gift(None, 7, dec(1, 0), 6, not_user).unwrap_err(), ValidationFailure::InitiatorNotUser);
}

#[test]
fn greeting_gift_is_given_once() {
    assert_eq!(decide_greeting_gift(dec(100, 0), true, false, Some(0)), Ok(Some((1_000_000, 1_000_000))));
    assert_eq!(decide_greeting_gift(dec(100, 0), true, true, Some(0)), Ok(None));
    assert_eq!(decide_greeting_gift(dec(100, 0), false, false, Some(0)), Err(ValidationFailure::RecipientNotAUser));
    assert_eq!(decide_greeting_gift(dec(0, 0), true, false, Some(0)), Err(ValidationFailure::InvalidAmount));
    assert_eq!(decide_greeting_gift(dec(1, 0), true, false, None), Err(ValidationFailure::AccountNotFound));
}

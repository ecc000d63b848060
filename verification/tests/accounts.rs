use trading_backend::db::accounts::suggest_account_name;
use trading_backend::db::accounts::{
    check_account_owner, check_account_universe, decide_create_universe, decide_revoke_ownership,
    decide_share_ownership, decide_user_account, email_name_base, is_arbor_pixie_name,
    is_valid_account_color, name_candidate, name_step, new_user_name, validate_account_request,
    NameStep, UserAccountPlan,
};
use trading_backend::db::portfolio::OwnerCredit;
use trading_backend::db::ValidationFailure;

#[test]
fn account_name_must_not_be_blank() {
    assert_eq!(validate_account_request("   ", None), Err(ValidationFailure::EmptyName));
    assert_eq!(validate_account_request("test_bot", None), Ok(None));
}

#[test]
fn account_colors() {
    assert_eq!(
        validate_account_request("test_bot_color", Some("#AaBbCc")),
        Ok(Some("#aabbcc".to_string()))
    );
    assert_eq!(
        validate_account_request("test_bot_bad_color", Some("blue")),
        Err(ValidationFailure::InvalidAccountColor)
    );
    assert_eq!(validate_account_request("x", Some("  ")), Ok(None));
    assert_eq!(validate_account_request("x", Some(" #00ff7A ")), Ok(Some("#00ff7a".to_string())));
    assert!(is_valid_account_color("#a1B2c3"));
    assert!(!is_valid_account_color("#a1B2c"));
    assert!(!is_valid_account_color("a1B2c3d"));
    assert!(!is_valid_account_color("#a1B2cg"));
    assert!(!is_valid_account_color("#é1B2c3"));
}

#[test]
fn account_universe_rules() {
    assert_eq!(check_account_universe(3, None, 1, false), Err(ValidationFailure::UniverseNotFound));
    assert_eq!(check_account_universe(3, Some(Some(2)), 1, false), Err(ValidationFailure::NotUniverseOwner));
    assert_eq!(check_account_universe(3, Some(None), 1, false), Err(ValidationFailure::NotUniverseOwner));
    assert_eq!(check_account_universe(3, Some(Some(1)), 1, true), Ok(()));
    assert_eq!(check_account_universe(0, Some(None), 1, true), Err(ValidationFailure::NotUniverseOwner));
    assert_eq!(check_account_universe(0, Some(None), 1, false), Ok(()));
}

#[test]
fn account_owner_rules() {
    assert_eq!(check_account_owner(5, 1, false, 0, true, 0, false), Err(ValidationFailure::InvalidOwner));
    assert_eq!(check_account_owner(5, 1, true, 4, true, 3, false), Err(ValidationFailure::OwnerInDifferentUniverse));
    assert_eq!(check_account_owner(5, 1, true, 0, false, 3, false), Err(ValidationFailure::OwnerMustBeUser));
    assert_eq!(check_account_owner(1, 1, false, 0, true, 0, true), Err(ValidationFailure::NameAlreadyExists));
    assert_eq!(check_account_owner(1, 1, false, 0, true, 3, false), Ok(()));
}

#[test]
fn universe_creation() {
    assert_eq!(decide_create_universe(" ", false), Err(ValidationFailure::EmptyName));
    assert_eq!(decide_create_universe("u", true), Err(ValidationFailure::UniverseNameExists));
    assert_eq!(decide_create_universe("u", false), Ok(()));
}

#[test]
fn sharing_and_revoking() {
    assert_eq!(decide_share_ownership(false, true, true, true), Err(ValidationFailure::OwnerNotAUser));
    assert_eq!(decide_share_ownership(true, false, true, true), Err(ValidationFailure::NotOwner));
    assert_eq!(decide_share_ownership(true, true, false, true), Err(ValidationFailure::RecipientNotAUser));
    assert_eq!(decide_share_ownership(true, true, true, false), Err(ValidationFailure::AlreadyOwner));
    assert_eq!(decide_share_ownership(true, true, true, true), Ok(()));
    let credits = vec![OwnerCredit { owner_id: 2, credit: 10 }, OwnerCredit { owner_id: 3, credit: 0 }];
    assert_eq!(decide_revoke_ownership(false, true, Some(&credits), 2), Err(ValidationFailure::RecipientNotAUser));
    assert_eq!(decide_revoke_ownership(true, false, Some(&credits), 2), Err(ValidationFailure::AccountNotShared));
    assert_eq!(decide_revoke_ownership(true, true, None, 2), Err(ValidationFailure::AccountNotFound));
    assert_eq!(decide_revoke_ownership(true, true, Some(&credits), 2), Err(ValidationFailure::CreditRemaining));
    assert_eq!(decide_revoke_ownership(true, true, Some(&credits), 3), Ok(()));
    assert_eq!(decide_revoke_ownership(true, true, Some(&credits), 4), Ok(()));
}

#[test]
fn user_account_names() {
    assert_eq!(new_user_name("Alice", "kp_1234567890", false), "Alice");
    assert_eq!(new_user_name("Alice", "kp_1234567890", true), "Alice-1234567");
    assert!(is_arbor_pixie_name("Arbor Pixie"));
    assert!(!is_arbor_pixie_name("arbor pixie"));
    assert_eq!(decide_user_account(Some(3), Some(4), Some(5)), UserAccountPlan::Existing(3));
    assert_eq!(decide_user_account(None, Some(4), Some(5)), UserAccountPlan::Claim(4));
    assert_eq!(decide_user_account(None, None, Some(5)), UserAccountPlan::Claim(5));
    assert_eq!(decide_user_account(None, None, None), UserAccountPlan::Create);
}

#[test]
fn cohort_name_suggestions() {
    assert_eq!(name_candidate("bob", 0), "bob");
    assert_eq!(name_candidate("bob", 1), "bob-2");
    assert_eq!(name_candidate("bob", 9), "bob-10");
    assert_eq!(name_candidate("bob", 998), "bob-999");
    assert_eq!(name_step(0, None, None), NameStep::Accept);
    assert_eq!(name_step(0, Some(4), Some(4)), NameStep::Accept);
    assert_eq!(name_step(0, Some(4), None), NameStep::Try(1));
    assert_eq!(name_step(998, Some(4), Some(5)), NameStep::Exhausted);
    assert_eq!(email_name_base("jane.doe@example.com"), "jane.doe");
    assert_eq!(email_name_base("no-at-sign"), "no-at-sign");
    assert_eq!(email_name_base("@x"), "");
}

fn named(id: i64, name: &str) -> trading_backend::db::accounts::Account {
    trading_backend::db::accounts::Account {
        id,
        name: name.to_string(),
        is_user: true,
        universe_id: 0,
        color: None,
    }
}

#[test]
fn suggested_names_take_the_first_free_suffix() {
    assert_eq!(suggest_account_name("ada", &vec![], None), Ok("ada".to_string()));
    let accounts = vec![named(1, "ada"), named(2, "ada-2"), named(3, "bob")];
    assert_eq!(suggest_account_name("ada", &accounts, None), Ok("ada-3".to_string()));
    // The account being renamed does not block its own name.
    assert_eq!(suggest_account_name("ada", &accounts, Some(1)), Ok("ada".to_string()));
    let mut all = vec![named(1, "x")];
    for k in 2..=999 {
        all.push(named(k, &format!("x-{k}")));
    }
    assert_eq!(suggest_account_name("x", &all, None), Err(ValidationFailure::NameSuffixExhausted));
    assert_eq!(suggest_account_name("x", &all, Some(500)), Ok("x-500".to_string()));
}

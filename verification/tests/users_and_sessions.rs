use trading_backend::admin_api::{
    cohort_name_for_config, config_flag_enabled, config_value_for_id, display_name_input,
    image_content_type, is_image_content_type, set_user_admin_response,
};
use trading_backend::auth::Role;
use trading_backend::global_db::{
    decide_set_user_admin, generate_unnamed_placeholder, new_global_user, normalize_email,
    sync_kinde_admin, sync_signed_in_user, CohortInfo, SetUserAdminResult,
};
use trading_backend::session::{
    admin_required_message, decide_act_as, decide_edit_market_permission, decide_sudo_change,
    effective_admin_id, hide_id, hide_ids, initial_user_balance, is_admin_role,
    market_shown, market_visible_to_any, may_act_as_on_connect, update_owned_accounts,
    ActAsDecision, MarketEditFields,
};
use trading_backend::session::{market_audience, order_created_notifications, rate_limited_message, Audience};
use trading_backend::db::{OrderFill, Side};
use trading_backend::single_player::jwt_payload;

#[test]
fn signing_in_syncs_email_and_provider_role() {
    let user = new_global_user(1, "kp_1", "Ada", Some("ada@x.io"), false);
    assert!(!user.is_admin && !user.admin_grant);
    let (user, changed) = sync_signed_in_user(user, Some("ada@x.io"), false);
    assert!(!changed);
    let (user, changed) = sync_signed_in_user(user, None, true);
    assert!(changed);
    assert!(user.is_admin && user.is_kinde_admin);
    assert_eq!(user.email, Some("ada@x.io".to_string()));
    let (user, changed) = sync_signed_in_user(user, Some("new@x.io"), true);
    assert!(changed);
    assert_eq!(user.email, Some("new@x.io".to_string()));
    assert_eq!(user.display_name, "Ada");
    let (user, changed) = sync_kinde_admin(user, false);
    assert!(changed);
    assert!(!user.is_admin);
    let (_, changed) = sync_kinde_admin(user, false);
    assert!(!changed);
}

#[test]
fn admin_grants() {
    assert_eq!(decide_set_user_admin(true, None), SetUserAdminResult::Applied);
    assert_eq!(decide_set_user_admin(false, None), SetUserAdminResult::UserNotFound);
    assert_eq!(decide_set_user_admin(false, Some(true)), SetUserAdminResult::BlockedByKindeRole);
    assert_eq!(decide_set_user_admin(false, Some(false)), SetUserAdminResult::Applied);
    assert_eq!(set_user_admin_response(SetUserAdminResult::Applied).0, 200);
    assert_eq!(set_user_admin_response(SetUserAdminResult::UserNotFound), (404, "User not found"));
    assert_eq!(set_user_admin_response(SetUserAdminResult::BlockedByKindeRole).0, 409);
}

#[test]
fn placeholders_and_emails() {
    for _ in 0..50 {
        let name = generate_unnamed_placeholder();
        assert_eq!(name.len(), 12);
        assert!(name.starts_with("Unnamed-"));
        assert!(name[8..].chars().all(|c| c.is_ascii_alphanumeric()));
    }
    assert_eq!(normalize_email("  Ada@Example.COM "), "ada@example.com");
}

#[test]
fn hiding_account_ids() {
    let owned = [1i64, 2];
    let mut id = 2;
    hide_id(&owned, &mut id);
    assert_eq!(id, 2);
    let mut id = 7;
    hide_id(&owned, &mut id);
    assert_eq!(id, 0);
    hide_id(&owned, &mut id);
    assert_eq!(id, 0);
    let mut ids = vec![1, 5, 2, 9];
    hide_ids(&owned, &mut ids);
    assert_eq!(ids, vec![1, 0, 2, 0]);
}

#[test]
fn market_visibility() {
    assert!(market_visible_to_any(&[], &[1]));
    assert!(market_visible_to_any(&[4, 2], &[1, 2]));
    assert!(!market_visible_to_any(&[4], &[1, 2]));
    assert!(market_shown(true, &[4], &[1]));
    assert!(!market_shown(false, &[4], &[1]));
}

#[test]
fn sudo_and_acting_as() {
    assert_eq!(effective_admin_id(true, Some(3)), Some(3));
    assert_eq!(effective_admin_id(false, Some(3)), None);
    assert_eq!(decide_sudo_change(false, true), Err("Only admins can enable sudo"));
    assert_eq!(decide_sudo_change(false, false), Ok(false));
    assert_eq!(decide_sudo_change(true, true), Ok(true));
    assert_eq!(admin_required_message(true, "ActAs"), "Sudo required");
    assert_eq!(admin_required_message(false, "ActAs"), "Not owner of account");
    assert_eq!(admin_required_message(false, "RevokeOwnership"), "Only admins can revoke ownership");
    assert_eq!(admin_required_message(false, "CreateMarketType"), "Admin access required");
    assert_eq!(decide_act_as(&[1, 2], 2, false, None), ActAsDecision::Act { account_id: 2, admin_as_user: false });
    assert_eq!(decide_act_as(&[1, 2], 5, false, Some(true)), ActAsDecision::AdminRequired);
    assert_eq!(decide_act_as(&[1, 2], 5, true, None), ActAsDecision::AccountNotFound);
    assert_eq!(decide_act_as(&[1, 2], 5, true, Some(false)), ActAsDecision::NotAUser);
    assert_eq!(decide_act_as(&[1, 2], 5, true, Some(true)), ActAsDecision::Act { account_id: 5, admin_as_user: true });
    assert!(may_act_as_on_connect(0, &[1]));
    assert!(may_act_as_on_connect(1, &[1]));
    assert!(!may_act_as_on_connect(2, &[1]));
    assert!(is_admin_role(&vec![Role::Trader, Role::Admin]));
    assert!(!is_admin_role(&vec![Role::Trader]));
    assert_eq!(initial_user_balance(true), 1_000_000_000_000);
    assert_eq!(initial_user_balance(false), 0);
}

#[test]
fn market_edit_permissions() {
    let description_only = MarketEditFields {
        name: false,
        description: true,
        pinned: false,
        status: 1,
        visible_to: false,
        hide_account_ids: false,
        redeemable_settings: false,
    };
    assert_eq!(decide_edit_market_permission(None, 1, true, description_only), Err("Market not found"));
    assert_eq!(decide_edit_market_permission(Some((1, 1)), 1, false, description_only), Ok(()));
    assert_eq!(
        decide_edit_market_permission(Some((2, 1)), 1, false, description_only),
        Err("You can only edit your own market's description")
    );
    let rename = MarketEditFields { name: true, ..description_only };
    assert!(decide_edit_market_permission(Some((1, 1)), 1, false, rename).is_err());
    assert_eq!(decide_edit_market_permission(Some((2, 1)), 1, true, rename), Ok(()));
    let status_change = MarketEditFields { status: 2, description: false, ..description_only };
    assert!(decide_edit_market_permission(Some((1, 1)), 1, false, status_change).is_err());
}

#[test]
fn owned_accounts_follow_ownership_changes() {
    let u = update_owned_accounts(&vec![1, 2, 3], &vec![3, 1, 4], 2, 1);
    assert_eq!(u.owned, vec![1, 3, 4]);
    assert_eq!(u.added, vec![4]);
    assert_eq!(u.removed, vec![2]);
    assert_eq!(u.acting_as, 1);
    let u = update_owned_accounts(&vec![1, 2], &vec![1, 2], 2, 1);
    assert_eq!(u.owned, vec![1, 2]);
    assert!(u.added.is_empty() && u.removed.is_empty());
    assert_eq!(u.acting_as, 2);
}

#[test]
fn admin_configuration_values() {
    let cohorts = vec![
        CohortInfo { id: 3, name: "spring".to_string(), display_name: "Spring".to_string(), db_path: "/d".to_string(), is_read_only: false },
        CohortInfo { id: 4, name: "fall".to_string(), display_name: "Fall".to_string(), db_path: "/e".to_string(), is_read_only: true },
    ];
    assert_eq!(cohort_name_for_config(Some("4"), &cohorts), Some("fall".to_string()));
    assert_eq!(cohort_name_for_config(Some("5"), &cohorts), None);
    assert_eq!(cohort_name_for_config(Some(""), &cohorts), None);
    assert_eq!(cohort_name_for_config(None, &cohorts), None);
    assert!(config_flag_enabled(Some("true")));
    assert!(!config_flag_enabled(Some("TRUE")));
    assert!(!config_flag_enabled(None));
    assert_eq!(config_value_for_id(Some(-12)), "-12");
    assert_eq!(config_value_for_id(None), "");
    assert_eq!(display_name_input("  Ada "), Ok("Ada".to_string()));
    assert_eq!(display_name_input(" "), Err("Display name cannot be empty"));
    assert!(is_image_content_type("image/png"));
    assert!(!is_image_content_type("text/html"));
    assert_eq!(image_content_type(Some("jpeg")), "image/jpeg");
    assert_eq!(image_content_type(Some("jpg")), "image/jpeg");
    assert_eq!(image_content_type(Some("webp")), "image/webp");
    assert_eq!(image_content_type(Some("svg")), "application/octet-stream");
    assert_eq!(image_content_type(None), "application/octet-stream");
}

#[test]
fn token_payloads() {
    // {"sub":"u1"} in unpadded URL-safe base64.
    let token = "eyJhbGciOiJub25lIn0.eyJzdWIiOiJ1MSJ9.sig";
    assert_eq!(jwt_payload(token).unwrap(), br#"{"sub":"u1"}"#.to_vec());
    assert_eq!(jwt_payload("a.b").unwrap_err().message, "Invalid JWT format");
    let bad = jwt_payload("a.!!.c").unwrap_err().message;
    assert!(bad.starts_with("Failed to decode JWT payload: "));
}

#[test]
fn who_hears_about_a_request() {
    assert_eq!(rate_limited_message(true), "ADMIN Rate Limited");
    assert_eq!(rate_limited_message(false), "Rate Limited");
    assert!(matches!(market_audience(vec![]), Audience::Public));
    match market_audience(vec![4, 9]) {
        Audience::Private(ids) => assert_eq!(ids, vec![4, 9]),
        Audience::Public => panic!("a restricted market is not public"),
    }
    let fill = |id: i64, owner_id: i64| OrderFill {
        id,
        market_id: 1,
        owner_id,
        size_filled: 100,
        size_remaining: 0,
        price: 5000,
        side: Side::Offer,
    };
    assert_eq!(order_created_notifications(&vec![fill(1, 7), fill(2, 8)], 3), vec![7, 8, 3]);
    assert_eq!(order_created_notifications(&vec![], 3), vec![3]);
}

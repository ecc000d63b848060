use trading_backend::auth::{apply_admin_m2m_allowlist_with, AccessClaims, Role};

fn claims(sub: &str, roles: Vec<Role>) -> AccessClaims {
    AccessClaims {
        sub: sub.to_string(),
        roles,
        email: None,
    }
}

#[test]
fn allowlist_grants_admin_to_matching_sub() {
    let allowlist = vec!["m2m_scenarios".to_string()];
    let result = apply_admin_m2m_allowlist_with(claims("m2m_scenarios", vec![]), &allowlist);
    assert!(result.roles.contains(&Role::Admin));
}

#[test]
fn allowlist_leaves_non_matching_sub_unchanged() {
    let allowlist = vec!["m2m_scenarios".to_string()];
    let result = apply_admin_m2m_allowlist_with(claims("kinde_user_42", vec![]), &allowlist);
    assert!(!result.roles.contains(&Role::Admin));
}

#[test]
fn allowlist_does_not_duplicate_admin_role() {
    let allowlist = vec!["m2m_scenarios".to_string()];
    let result = apply_admin_m2m_allowlist_with(
        claims("m2m_scenarios", vec![Role::Admin]),
        &allowlist,
    );
    let admin_count = result.roles.iter().filter(|r| **r == Role::Admin).count();
    assert_eq!(admin_count, 1);
}

#[test]
fn empty_allowlist_grants_nothing() {
    let result = apply_admin_m2m_allowlist_with(claims("m2m_scenarios", vec![]), &[]);
    assert!(!result.roles.contains(&Role::Admin));
}

use trading_backend::auth::{
    apply_admin_m2m_allowlist, client_from_claims, id_token_info, parse_client_ids,
    test_id_token_info, validate_test_token, AccessClaims, AuthError, IdClaims, Role,
};

fn id_claims(name: Option<&str>, given: Option<&str>, family: Option<&str>) -> IdClaims {
    IdClaims {
        name: name.map(str::to_string),
        given_name: given.map(str::to_string),
        family_name: family.map(str::to_string),
        sub: "kinde_user_42".to_string(),
        email: Some("u@example.com".to_string()),
    }
}

#[test]
fn display_name_from_id_claims() {
    assert_eq!(id_claims(Some("  Ada Lovelace "), Some("X"), None).resolve_name(), Some("Ada Lovelace".to_string()));
    assert_eq!(id_claims(Some("   "), Some(" Ada "), Some(" Lovelace")).resolve_name(), Some("Ada Lovelace".to_string()));
    assert_eq!(id_claims(None, Some("Ada"), None).resolve_name(), Some("Ada".to_string()));
    assert_eq!(id_claims(None, None, Some("Lovelace")).resolve_name(), Some("Lovelace".to_string()));
    assert_eq!(id_claims(None, Some(""), Some(" ")).resolve_name(), None);
}

#[test]
fn subject_prefers_sub_over_azp() {
    let c = AccessClaims::from_token_fields(
        Some("kinde_user_42".to_string()),
        Some("client_app_xyz".to_string()),
        vec![Role::Admin],
        None,
    )
    .unwrap();
    assert_eq!(c.sub, "kinde_user_42");
    assert!(c.roles.contains(&Role::Admin));
    let m2m = AccessClaims::from_token_fields(None, Some("7286aeea55f84e81acbe5bfc5aef8ff8".to_string()), vec![], None).unwrap();
    assert_eq!(m2m.sub, "7286aeea55f84e81acbe5bfc5aef8ff8");
    assert!(m2m.roles.is_empty());
    let empty_sub = AccessClaims::from_token_fields(Some(String::new()), Some("azp".to_string()), vec![], None).unwrap();
    assert_eq!(empty_sub.sub, "azp");
    assert!(AccessClaims::from_token_fields(None, None, vec![], None).is_none());
}

#[test]
fn allowlist_setting_is_parsed_and_applied() {
    assert_eq!(parse_client_ids(" a , ,b,"), vec!["a".to_string(), "b".to_string()]);
    assert!(parse_client_ids("").is_empty());
    let claims = AccessClaims { sub: "b".to_string(), roles: vec![Role::Trader], email: None };
    let r = apply_admin_m2m_allowlist(claims, Some("a, b"));
    assert_eq!(r.roles, vec![Role::Trader, Role::Admin]);
    let claims = AccessClaims { sub: "b".to_string(), roles: vec![], email: None };
    assert!(apply_admin_m2m_allowlist(claims, None).roles.is_empty());
    // Applying it twice changes nothing more.
    let claims = AccessClaims { sub: "a".to_string(), roles: vec![], email: None };
    let once = apply_admin_m2m_allowlist(claims, Some("a"));
    let twice = apply_admin_m2m_allowlist(once, Some("a"));
    assert_eq!(twice.roles, vec![Role::Admin]);
}

#[test]
fn test_tokens() {
    let c = validate_test_token("test::user123::Test User::true").unwrap();
    assert_eq!(c.id, "user123");
    assert_eq!(c.name, Some("Test User".to_string()));
    assert_eq!(c.roles, vec![Role::Admin]);
    assert_eq!(c.email, None);
    assert_eq!(c.auto_join_cohort, None);
    let guest = validate_test_token("test::guest1::Guest::false::::false").unwrap();
    assert!(guest.roles.is_empty());
    assert_eq!(guest.email, None);
    assert_eq!(guest.auto_join_cohort, Some(false));
    let odd = validate_test_token("test::u::N::yes::a@b.c::maybe").unwrap();
    assert!(odd.roles.is_empty());
    assert_eq!(odd.email, Some("a@b.c".to_string()));
    assert_eq!(odd.auto_join_cohort, None);
    assert_eq!(validate_test_token("jwt.abc.def").err(), Some(AuthError::NotTestToken));
    assert_eq!(validate_test_token("test::u::N").err(), Some(AuthError::TooFewTestTokenParts));
    assert_eq!(AuthError::SubMismatch.message(), "sub mismatch");
}

#[test]
fn rest_test_tokens() {
    let c = AccessClaims::from_test_token("test::alice::Alice::TRUE::a@x.io").unwrap();
    assert_eq!(c.sub, "alice");
    assert_eq!(c.roles, vec![Role::Trader, Role::Admin]);
    assert_eq!(c.email, Some("a@x.io".to_string()));
    let c = AccessClaims::from_test_token("test::bob::Bob::no").unwrap();
    assert_eq!(c.roles, vec![Role::Trader]);
    assert_eq!(c.email, None);
    assert!(AccessClaims::from_test_token("test::bob::Bob").is_none());
    assert!(AccessClaims::from_test_token("Bearer x").is_none());
}

#[test]
fn id_tokens_must_match_the_subject() {
    let access = AccessClaims { sub: "kinde_user_42".to_string(), roles: vec![Role::Trader], email: None };
    let client = client_from_claims(access, Some(id_claims(Some("Ada"), None, None))).unwrap();
    assert_eq!(client.id, "kinde_user_42");
    assert_eq!(client.name, Some("Ada".to_string()));
    assert_eq!(client.email, Some("u@example.com".to_string()));
    let other = AccessClaims { sub: "someone_else".to_string(), roles: vec![], email: None };
    assert_eq!(client_from_claims(other, Some(id_claims(None, None, None))).err(), Some(AuthError::SubMismatch));
    let alone = AccessClaims { sub: "x".to_string(), roles: vec![], email: None };
    let c = client_from_claims(alone, None).unwrap();
    assert_eq!((c.name, c.email), (None, None));
    let info = id_token_info(id_claims(Some("Ada"), None, None), "kinde_user_42").unwrap();
    assert_eq!(info.name, Some("Ada".to_string()));
    assert_eq!(id_token_info(id_claims(None, None, None), "nope").err(), Some(AuthError::SubMismatch));
    let t = test_id_token_info("test::u1::Una::false::u@x.io", "u1").unwrap();
    assert_eq!((t.name, t.email), (Some("Una".to_string()), Some("u@x.io".to_string())));
    assert_eq!(test_id_token_info("test::u1::Una::false", "u2").err(), Some(AuthError::SubMismatch));
}

/// The claims a decoded token payload gives, read field by field as the
/// server's token decoding does.
fn claims_from_payload(payload: &str) -> Option<AccessClaims> {
    let v: serde_json::Value = serde_json::from_str(payload).expect("payload is JSON");
    let text = |k: &str| v.get(k).and_then(|x| x.as_str()).map(str::to_string);
    let roles = v
        .get("roles")
        .and_then(|r| r.as_array())
        .map(|rs| {
            rs.iter()
                .map(|r| match r.get("key").and_then(|k| k.as_str()) {
                    Some("admin") => Role::Admin,
                    Some("trader") => Role::Trader,
                    other => panic!("unknown role {other:?}"),
                })
                .collect()
        })
        .unwrap_or_default();
    AccessClaims::from_token_fields(text("sub"), text("azp"), roles, text("email"))
}

#[test]
fn access_claims_falls_back_to_azp_when_sub_missing() {
    let m2m_payload = r#"{
        "aud": ["trading-server-api"],
        "azp": "7286aeea55f84e81acbe5bfc5aef8ff8",
        "iss": "https://account.trading.camp",
        "exp": 1777754010,
        "iat": 1777667610,
        "gty": ["client_credentials"]
    }"#;
    let parsed = claims_from_payload(m2m_payload).expect("M2M token deserialize");
    assert_eq!(parsed.sub, "7286aeea55f84e81acbe5bfc5aef8ff8");
    assert!(parsed.roles.is_empty());
}

#[test]
fn access_claims_prefers_sub_over_azp_when_both_present() {
    let user_payload = r#"{
        "sub": "kinde_user_42",
        "azp": "client_app_xyz",
        "roles": [{"key": "admin"}]
    }"#;
    let parsed = claims_from_payload(user_payload).expect("user token deserialize");
    assert_eq!(parsed.sub, "kinde_user_42");
    assert!(parsed.roles.contains(&Role::Admin));
}

use trading_backend::showcase::{
    is_reserved_showcase_key, normalize_database_key, normalize_key, normalize_showcase_key,
    DatabaseConfig, LegacyBootcampConfig, LegacyShowcaseConfig, ShowcaseConfig, ShowcaseEntry,
    ShowcaseFailure,
};

fn entry(display_name: &str, database_key: &str) -> ShowcaseEntry {
    ShowcaseEntry {
        display_name: display_name.to_string(),
        database_key: database_key.to_string(),
        anonymize_names: false,
        showcase_market_ids: vec![],
        hidden_category_ids: vec![],
        non_anonymous_account_ids: vec![],
        password: None,
    }
}

fn config() -> ShowcaseConfig {
    let mut c = ShowcaseConfig::empty();
    c.insert_database(
        "spring".to_string(),
        DatabaseConfig { db_path: "/data/spring.sqlite".to_string(), display_name: "Spring".to_string() },
    );
    c.insert_showcase("spring".to_string(), entry("Spring 2024", "spring"));
    c.insert_showcase("demo".to_string(), entry("Demo", "missing"));
    c
}

#[test]
fn keys_are_normalized() {
    assert_eq!(normalize_key("  Spring-2024_A "), Some("spring-2024_a".to_string()));
    assert_eq!(normalize_key("   "), None);
    assert_eq!(normalize_key("has space"), None);
    assert_eq!(normalize_key("é"), None);
    assert!(is_reserved_showcase_key("login"));
    assert!(is_reserved_showcase_key("api"));
    assert!(!is_reserved_showcase_key("spring"));
    assert_eq!(normalize_showcase_key("Login"), Err(ShowcaseFailure::BadRequest));
    assert_eq!(normalize_showcase_key(" Spring "), Ok("spring".to_string()));
    assert_eq!(normalize_database_key("Login"), Ok("login".to_string()));
    assert_eq!(normalize_database_key("a b"), Err(ShowcaseFailure::BadRequest));
}

#[test]
fn lookups_and_defaults() {
    let mut c = config();
    assert_eq!(c.get_showcase("spring").unwrap().display_name, "Spring 2024");
    assert!(c.get_showcase("winter").is_none());
    assert!(c.get_default_showcase().is_none());
    let (key, s) = c.resolve_showcase(Some("demo")).unwrap();
    assert_eq!((key, s.display_name.as_str()), ("demo", "Demo"));
    assert!(c.get_database_for_showcase(s).is_none());
    let db = c.get_database_for_showcase(c.get_showcase("spring").unwrap()).unwrap();
    assert_eq!(db.db_path, "/data/spring.sqlite");

    assert_eq!(c.set_default_showcase(Some("winter")).err(), Some(ShowcaseFailure::NotFound));
    assert_eq!(c.set_default_showcase(Some("demo")).err(), Some(ShowcaseFailure::BadRequest));
    let selected = c.set_default_showcase(Some("spring")).unwrap().unwrap();
    assert_eq!(selected, ("spring".to_string(), "/data/spring.sqlite".to_string()));
    let (key, s) = c.get_default_showcase().unwrap();
    assert_eq!((key, s.display_name.as_str()), ("spring", "Spring 2024"));
    assert_eq!(c.resolve_showcase(None).unwrap().0, "spring");
    assert_eq!(c.set_default_showcase(None).unwrap(), None);
    assert!(c.resolve_showcase(None).is_none());
}

#[test]
fn writes_are_read_back() {
    let mut c = config();
    c.insert_showcase("spring".to_string(), entry("Renamed", "spring"));
    assert_eq!(c.get_showcase("spring").unwrap().display_name, "Renamed");
    assert_eq!(c.showcases.len(), 2);
    assert!(c.set_showcase_markets("spring", vec![3, 1]));
    assert_eq!(c.get_showcase("spring").unwrap().showcase_market_ids, vec![3, 1]);
    assert!(c.set_showcase_anonymize("spring", true));
    assert!(c.get_showcase("spring").unwrap().anonymize_names);
    assert!(c.set_showcase_non_anonymous_accounts("spring", vec![9]));
    assert_eq!(c.get_showcase("spring").unwrap().non_anonymous_account_ids, vec![9]);
    assert!(!c.set_showcase_markets("winter", vec![]));
    assert_eq!(c.toggle_hidden_category("spring", 4), Some(true));
    assert_eq!(c.get_showcase("spring").unwrap().hidden_category_ids, vec![4]);
    assert_eq!(c.toggle_hidden_category("spring", 4), Some(false));
    assert!(c.get_showcase("spring").unwrap().hidden_category_ids.is_empty());
    assert_eq!(c.toggle_hidden_category("winter", 4), None);
}

#[test]
fn removing_a_showcase_clears_the_default() {
    let mut c = config();
    c.set_default_showcase(Some("spring")).unwrap();
    assert!(!c.remove_showcase("winter"));
    assert!(c.remove_showcase("spring"));
    assert!(c.get_showcase("spring").is_none());
    assert!(c.default_showcase.is_none());
}

#[test]
fn public_listing_is_sorted() {
    let mut c = config();
    c.set_default_showcase(Some("spring")).unwrap();
    let (default, items) = c.public_showcases();
    assert_eq!(default, Some("spring".to_string()));
    assert_eq!(
        items,
        vec![("demo".to_string(), "Demo".to_string()), ("spring".to_string(), "Spring 2024".to_string())]
    );
    c.default_showcase = Some("gone".to_string());
    assert_eq!(c.public_showcases().0, None);
}

#[test]
fn legacy_configuration_is_converted() {
    let legacy = LegacyShowcaseConfig {
        active_bootcamp: Some("fall".to_string()),
        bootcamps: vec![(
            "fall".to_string(),
            LegacyBootcampConfig {
                db_path: "/data/fall.sqlite".to_string(),
                display_name: "Fall".to_string(),
                anonymize_names: true,
                showcase_market_ids: vec![1, 2],
                hidden_category_ids: vec![5],
                non_anonymous_account_ids: vec![7],
            },
        )],
    };
    let c = ShowcaseConfig::from_legacy(legacy);
    assert_eq!(c.default_showcase, Some("fall".to_string()));
    let (key, s) = c.get_default_showcase().unwrap();
    assert_eq!(key, "fall");
    assert_eq!(s.database_key, "fall");
    assert_eq!(s.display_name, "Fall");
    assert!(s.anonymize_names);
    assert_eq!(s.showcase_market_ids, vec![1, 2]);
    assert_eq!(s.hidden_category_ids, vec![5]);
    assert_eq!(s.non_anonymous_account_ids, vec![7]);
    assert_eq!(s.password, None);
    let db = c.get_database_for_showcase(s).unwrap();
    assert_eq!((db.db_path.as_str(), db.display_name.as_str()), ("/data/fall.sqlite", "Fall"));
}

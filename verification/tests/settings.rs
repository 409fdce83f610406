use obslog::settings::bootstrap;
use obslog::settings::StoredSettings;

#[test]
fn default_target_when_store_is_unreadable() {
    let s = bootstrap(None);
    assert!(s.api_key.is_none());
    assert_eq!(s.target_file, "/periodic/daily/");
}

#[test]
fn default_target_when_store_is_empty() {
    let s = bootstrap(Some(StoredSettings { api_key: None, target_file: None }));
    assert!(s.api_key.is_none());
    assert_eq!(s.target_file, "/periodic/daily/");
}

#[test]
fn stored_entries_are_kept() {
    let s = bootstrap(Some(StoredSettings {
        api_key: Some("secret".to_string()),
        target_file: Some("/vault/inbox".to_string()),
    }));
    assert_eq!(s.api_key.as_deref(), Some("secret"));
    assert_eq!(s.target_file, "/vault/inbox");
}

#[test]
fn stored_key_without_target_still_defaults_target() {
    let s = bootstrap(Some(StoredSettings {
        api_key: Some("secret".to_string()),
        target_file: None,
    }));
    assert_eq!(s.api_key.as_deref(), Some("secret"));
    assert_eq!(s.target_file, "/periodic/daily/");
}

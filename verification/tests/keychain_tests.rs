use ke::keychain::{
    is_not_found_error, KeychainBackend, KeychainError, MockKeychain, RealKeychain,
};

#[test]
fn mock_keychain_roundtrip() {
    let mut mock = MockKeychain::new();
    mock.set_mut("myproject", "DB_URL", "postgres://localhost/mydb");

    let got = mock.get("myproject", "DB_URL");
    assert_eq!(got, Some("postgres://localhost/mydb".into()));

    // Non-existent key
    assert_eq!(mock.get("myproject", "MISSING"), None);
}

#[test]
fn mock_keychain_delete() {
    let mut mock = MockKeychain::new();
    mock.set_mut("myproject", "SECRET", "value123");
    assert!(mock.get("myproject", "SECRET").is_some());

    mock.delete_mut("myproject", "SECRET");
    assert!(mock.get("myproject", "SECRET").is_none());
}

#[test]
fn mock_keychain_list_values() {
    let mut mock = MockKeychain::new();
    mock.set_mut("p", "A", "1");
    mock.set_mut("p", "B", "2");

    let keys = vec!["A".into(), "B".into(), "MISSING".into()];
    let values = mock.list_values("p", &keys);
    assert_eq!(values.len(), 2);
    assert_eq!(values[0], ("A".into(), "1".into()));
    assert_eq!(values[1], ("B".into(), "2".into()));
}

#[test]
fn mock_set_replaces_and_keeps_other_pairs() {
    let mut mock = MockKeychain::new();
    mock.set_mut("p", "A", "1");
    mock.set_mut("q", "A", "other");
    mock.set_mut("p", "A", "2");
    assert_eq!(mock.get("p", "A"), Some("2".to_string()));
    assert_eq!(mock.get("q", "A"), Some("other".to_string()));
    assert!(mock.set("p", "B", "3").is_ok());
    assert!(mock.delete("p", "A").is_ok());
    assert_eq!(mock.get("p", "A"), None);
    assert_eq!(mock.get("p", "B"), Some("3".to_string()));
    // deleting a missing pair is no error
    assert!(mock.delete("p", "NOPE").is_ok());
}

#[test]
fn mock_list_values_keeps_key_order() {
    let mut mock = MockKeychain::new();
    mock.set_mut("p", "Z", "26");
    mock.set_mut("p", "A", "1");
    let keys = vec!["A".to_string(), "Z".to_string(), "A".to_string()];
    let values = mock.list_values("p", &keys);
    assert_eq!(
        values,
        vec![
            ("A".to_string(), "1".to_string()),
            ("Z".to_string(), "26".to_string()),
            ("A".to_string(), "1".to_string())
        ]
    );
    assert!(mock.list_values("other", &keys).is_empty());
}

#[test]
fn not_found_errors_are_recognised() {
    assert!(is_not_found_error(&KeychainError::NotFound));
    assert!(!is_not_found_error(&KeychainError::SaveFailed));
    assert!(!is_not_found_error(&KeychainError::DeleteFailed { detail: "boom".to_string() }));
    assert!(is_not_found_error(&KeychainError::Command {
        detail: "x secret not found in Keychain y".to_string()
    }));
    assert_eq!(KeychainError::SaveFailed.message(), "failed to save secret to Keychain");
    assert_eq!(
        KeychainError::DeleteFailed { detail: "bad".to_string() }.message(),
        "failed to delete secret from Keychain: bad"
    );
}

#[test]
fn decode_security_password_strips_one_line_ending() {
    assert_eq!(RealKeychain::decode_security_password(b"secret\n"), Some("secret".to_string()));
    assert_eq!(RealKeychain::decode_security_password(b"secret\r\n"), Some("secret".to_string()));
    assert_eq!(RealKeychain::decode_security_password(b"secret\n\n"), Some("secret\n".to_string()));
    assert_eq!(RealKeychain::decode_security_password(b"secret"), Some("secret".to_string()));
    assert_eq!(RealKeychain::decode_security_password(b"\n"), None);
    assert_eq!(RealKeychain::decode_security_password(b""), None);
    // invalid UTF-8 is replaced, not dropped
    assert_eq!(
        RealKeychain::decode_security_password(&[0x61, 0xff, 0x0a]),
        Some("a\u{FFFD}".to_string())
    );
}

#[test]
fn security_arguments() {
    assert_eq!(
        RealKeychain::find_password_args("proj", "KEY"),
        vec!["find-generic-password", "-s", "keychain-env-proj", "-a", "KEY", "-w"]
    );
    assert_eq!(
        RealKeychain::add_password_args("proj", "KEY", "v"),
        vec!["add-generic-password", "-s", "keychain-env-proj", "-a", "KEY", "-w", "v", "-U"]
    );
    assert_eq!(
        RealKeychain::delete_password_args("proj", "KEY"),
        vec!["delete-generic-password", "-s", "keychain-env-proj", "-a", "KEY"]
    );
}

#[test]
fn real_keychain_cache_follows_writes() {
    let mut rk = RealKeychain::new();
    assert_eq!(rk.cached_value("p", "K"), None);
    assert_eq!(rk.record_fetch("p", "K", None), None);
    assert_eq!(rk.cached_value("p", "K"), None);
    assert_eq!(rk.record_fetch("p", "K", Some("v1".to_string())), Some("v1".to_string()));
    assert_eq!(rk.cached_value("p", "K"), Some("v1".to_string()));
    assert!(matches!(rk.record_set("p", "K", "v2", false), Err(KeychainError::SaveFailed)));
    assert_eq!(rk.cached_value("p", "K"), Some("v1".to_string()));
    assert!(rk.record_set("p", "K", "v2", true).is_ok());
    assert_eq!(rk.cached_value("p", "K"), Some("v2".to_string()));
    assert!(rk.record_delete("p", "K", true, b"").is_ok());
    assert_eq!(rk.cached_value("p", "K"), None);
}

#[test]
fn real_keychain_delete_failures() {
    let mut rk = RealKeychain::new();
    rk.record_fetch("p", "K", Some("v".to_string()));
    let r = rk.record_delete(
        "p",
        "K",
        false,
        b"security: SecKeychainSearchCopyNext: The specified item could not be found in the keychain.\n",
    );
    assert!(matches!(r, Err(KeychainError::NotFound)));
    assert_eq!(rk.cached_value("p", "K"), Some("v".to_string()));
    let r = rk.record_delete("p", "K", false, b"  permission denied \n");
    match r {
        Err(KeychainError::DeleteFailed { detail }) => assert_eq!(detail, "permission denied"),
        _ => panic!("expected DeleteFailed"),
    }
}

#[test]
fn real_keychain_list_values_uses_cache_then_fetches() {
    let mut rk = RealKeychain::new();
    rk.record_fetch("p", "B", Some("cached-b".to_string()));
    let keys = vec!["A".to_string(), "B".to_string(), "C".to_string()];
    let (ordered, uncached) = rk.plan_list_values("p", &keys);
    assert_eq!(ordered, vec![None, Some("cached-b".to_string()), None]);
    assert_eq!(uncached, vec![(0, "A".to_string()), (2, "C".to_string())]);
    // only A is in the Keychain
    let fetched = vec![(0usize, "A".to_string(), "fetched-a".to_string())];
    let values = rk.finish_list_values("p", &keys, ordered, fetched);
    assert_eq!(
        values,
        vec![
            ("A".to_string(), "fetched-a".to_string()),
            ("B".to_string(), "cached-b".to_string())
        ]
    );
    assert_eq!(rk.cached_value("p", "A"), Some("fetched-a".to_string()));
    assert_eq!(rk.cached_value("p", "C"), None);
}

#[test]
fn worker_plan_splits_work() {
    assert_eq!(RealKeychain::worker_plan(10, Some(4)), (4, 3));
    assert_eq!(RealKeychain::worker_plan(3, Some(8)), (3, 1));
    assert_eq!(RealKeychain::worker_plan(9, None), (4, 3));
    assert_eq!(RealKeychain::worker_plan(8, None), (4, 2));
    assert_eq!(RealKeychain::worker_plan(1, Some(1)), (1, 1));
}

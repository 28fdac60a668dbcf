use ke::config::{move_allowed, ConfigError};
use ke::config::{
    copy_needed, detect_icloud, join, secondary_index_dirs, starts_with_path, status_label,
    Config, IndexUpdate,
};

fn strings(v: &[&str]) -> Vec<String> {
    v.iter().map(|s| s.to_string()).collect()
}

#[test]
fn service_names() {
    assert_eq!(Config::service_name("zer"), "keychain-env-zer");
    assert_eq!(Config::service_name(""), "keychain-env-");
}

#[test]
fn paths_join_like_path() {
    assert_eq!(join("/home/u", ".config"), "/home/u/.config");
    assert_eq!(join("/home/u/", ".config"), "/home/u/.config");
    assert_eq!(join("/home/u", "/abs"), "/abs");
    assert_eq!(join("", "rel"), "rel");
    assert!(starts_with_path("/a/b/c", "/a/b"));
    assert!(starts_with_path("/a/b/c", "/a//b/"));
    assert!(!starts_with_path("/a/bc", "/a/b"));
    assert!(!starts_with_path("a/b", "/a"));
    assert!(starts_with_path("/a/./b", "/a/b"));
}

#[test]
fn index_directory_and_icloud() {
    assert_eq!(Config::index_dir_for("/Users/me", true), "/Users/me/.config/ke");
    assert_eq!(Config::index_dir_for("/Users/me", false), "/Users/me/.config/keychain-env");
    let drive = "/Users/me/Library/Mobile Documents/com~apple~CloudDocs";
    assert_eq!(
        detect_icloud("/Users/me", &format!("{drive}/ke"), true),
        Some(format!("{drive}/ke"))
    );
    assert_eq!(detect_icloud("/Users/me", &format!("{drive}/ke"), false), None);
    assert_eq!(detect_icloud("/Users/me", "/Users/me/.config/ke", true), None);
    let cfg = Config::load("/Users/me", true, &format!("{drive}/ke"), true);
    assert_eq!(cfg.index_dir, "/Users/me/.config/ke");
    assert!(cfg.is_icloud_synced());
    let cfg = Config::load("/Users/me", false, "/Users/me/.config/keychain-env", true);
    assert_eq!(cfg.index_dir, "/Users/me/.config/keychain-env");
    assert!(!cfg.is_icloud_synced());
    assert_eq!(Config::icloud_ke_path("/Users/me", true), Some(format!("{drive}/ke")));
    assert_eq!(Config::icloud_ke_path("/Users/me", false), None);
    assert_eq!(cfg.index_file("proj"), "/Users/me/.config/keychain-env/proj");
}

#[test]
fn icloud_sync_steps() {
    let mut cfg = Config { index_dir: "/h/.config/ke".to_string(), icloud_dir: None };
    assert!(cfg.icloud_sync_target(None).is_err());
    assert_eq!(cfg.icloud_sync_target(Some("/d/ke".to_string())).ok(), Some(Some("/d/ke".to_string())));
    cfg.finish_icloud_sync("/h/.config/ke".to_string(), "/d/ke".to_string());
    assert!(cfg.is_icloud_synced());
    assert_eq!(cfg.icloud_sync_target(Some("/d/ke".to_string())).ok(), Some(None));
    assert!(copy_needed(true, true, true));
    assert!(copy_needed(false, true, false));
    assert!(!copy_needed(false, true, true));
    assert!(!copy_needed(true, false, false));
    assert_eq!(
        secondary_index_dirs("/h", "/h/.config/ke"),
        strings(&["/h/.config/keychain-env"])
    );
    assert_eq!(
        secondary_index_dirs("/h", "/elsewhere"),
        strings(&["/h/.config/ke", "/h/.config/keychain-env"])
    );
}

#[test]
fn index_files_read_and_write() {
    assert_eq!(Config::list_keys("B\n  A \n\n\r\nC\r\n"), strings(&["B", "A", "C"]));
    assert_eq!(Config::list_keys(""), Vec::<String>::new());
    assert_eq!(Config::index_content(&strings(&["A", "B"])), "A\nB\n");
    assert_eq!(Config::index_content(&Vec::new()), "\n");
    let keys = strings(&["KEY_A", "KEY_B"]);
    assert_eq!(Config::list_keys(&Config::index_content(&keys)), keys);
}

#[test]
fn adding_keys_keeps_a_sorted_set() {
    let keys = strings(&["B", "A", "B"]);
    assert_eq!(Config::add_key(&keys, "C"), strings(&["A", "B", "C"]));
    assert_eq!(Config::add_key(&keys, "A"), strings(&["A", "B"]));
    assert_eq!(Config::add_key(&Vec::new(), "X"), strings(&["X"]));
    assert_eq!(
        Config::add_keys(&strings(&["Z"]), &strings(&["A", "Z", "M"])),
        strings(&["A", "M", "Z"])
    );
    // String order is byte order: uppercase before lowercase
    assert_eq!(Config::add_key(&strings(&["a"]), "B"), strings(&["B", "a"]));
}

#[test]
fn removing_keys() {
    match Config::remove_key(&strings(&["A", "B", "A"]), "A") {
        IndexUpdate::Write { content } => assert_eq!(content, "B\n"),
        IndexUpdate::Delete => panic!("expected a write"),
    }
    assert!(matches!(Config::remove_key(&strings(&["A"]), "A"), IndexUpdate::Delete));
    assert!(matches!(Config::remove_key(&Vec::new(), "A"), IndexUpdate::Delete));
}

#[test]
fn project_list_is_sorted_files() {
    let entries = vec![
        (Some("zeta".to_string()), true),
        (Some("dir".to_string()), false),
        (None, true),
        (Some("alpha".to_string()), true),
        (Some("Mid".to_string()), true),
    ];
    assert_eq!(Config::list_projects(&entries), strings(&["Mid", "alpha", "zeta"]));
}

#[test]
fn status_counts() {
    let found = vec![
        ("a".to_string(), vec![true, false, true]),
        ("b".to_string(), vec![]),
    ];
    assert_eq!(
        Config::status(&found),
        vec![("a".to_string(), 3, 2), ("b".to_string(), 0, 0)]
    );
    assert_eq!(status_label(2, 2), "✓ all");
    assert_eq!(status_label(2, 0), "✗ 2 missing");
    assert_eq!(status_label(15, 3), "~ 12 missing");
}

#[test]
fn move_waits_for_every_needed_copy() {
    let copies = vec![
        ("app".to_string(), true, false, true),
        ("dir".to_string(), false, false, false),
        ("web".to_string(), true, true, false),
    ];
    // iCloud already had `web`: nothing to copy there
    assert!(move_allowed(false, &copies).is_ok());
    // a fresh folder needs every file
    match move_allowed(true, &copies) {
        Err(e) => {
            assert!(matches!(&e, ConfigError::CopyFailed { name } if name == "web"));
            assert_eq!(
                e.message(),
                "failed to copy web to iCloud Drive; the index was left in place"
            );
        }
        Ok(()) => panic!("a failed copy must stop the move"),
    }
    let failed = vec![
        ("a".to_string(), true, false, true),
        ("b".to_string(), true, false, false),
        ("c".to_string(), true, false, false),
    ];
    assert!(matches!(move_allowed(false, &failed), Err(ConfigError::CopyFailed { name }) if name == "b"));
    assert!(move_allowed(true, &Vec::new()).is_ok());
}

#[test]
fn adding_a_key_twice_changes_nothing() {
    let keys = vec!["KEY_B".to_string(), "KEY_A".to_string()];
    let once = Config::add_key(&keys, "KEY_C");
    let twice = Config::add_key(&once, "KEY_C");
    assert_eq!(once, vec!["KEY_A", "KEY_B", "KEY_C"]);
    assert_eq!(twice, once);
}

#[test]
fn removing_a_key_twice_changes_nothing() {
    let keys = vec!["A".to_string(), "B".to_string(), "A".to_string()];
    let after = match Config::remove_key(&keys, "A") {
        IndexUpdate::Write { content } => content,
        IndexUpdate::Delete => panic!("B is left"),
    };
    assert_eq!(after, "B\n");
    let again = match Config::remove_key(&Config::list_keys(&after), "A") {
        IndexUpdate::Write { content } => content,
        IndexUpdate::Delete => panic!("B is left"),
    };
    assert_eq!(again, after);
    assert!(matches!(Config::remove_key(&vec!["B".to_string()], "B"), IndexUpdate::Delete));
}

#[test]
fn sync_target_without_drive_is_not_found() {
    let cfg = Config { index_dir: "/h/.config/ke".to_string(), icloud_dir: None };
    match cfg.icloud_sync_target(None) {
        Err(e) => {
            assert!(matches!(e, ConfigError::ICloudNotFound));
            assert_eq!(
                e.message(),
                "iCloud Drive not found at ~/Library/Mobile Documents/com~apple~CloudDocs"
            );
        }
        Ok(_) => panic!("no drive, no target"),
    }
}

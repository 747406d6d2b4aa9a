use window_state::Builder;
use window_state::WindowMetadata;
use window_state::WindowStore;

fn meta(width: u32, height: u32, x: i32, y: i32) -> WindowMetadata {
    WindowMetadata {
        width,
        height,
        x,
        y,
        maximized: false,
        visible: true,
        decorated: true,
        fullscreen: false,
    }
}

#[test]
fn default_config_auto_shows_and_blacklists_nothing() {
    let config = Builder::default();
    assert!(config.auto_show());
    assert!(!config.is_blacklisted("main"));
    assert!(!config.is_blacklisted(""));
}

#[test]
fn with_auto_show_toggles_flag() {
    let config = Builder::default().with_auto_show(false);
    assert!(!config.auto_show());
    let config = config.with_auto_show(true);
    assert!(config.auto_show());
}

#[test]
fn with_blacklist_excludes_named_labels() {
    let config = Builder::default().with_blacklist(&["settings", "splash"]);
    assert!(config.is_blacklisted("settings"));
    assert!(config.is_blacklisted("splash"));
    assert!(!config.is_blacklisted("main"));
}

#[test]
fn empty_blacklist_argument_keeps_previous() {
    let config = Builder::default().with_blacklist(&["settings"]).with_blacklist(&[]);
    assert!(config.is_blacklisted("settings"));
}

#[test]
fn later_blacklist_replaces_earlier() {
    let config = Builder::default().with_blacklist(&["a"]).with_blacklist(&["b"]);
    assert!(!config.is_blacklisted("a"));
    assert!(config.is_blacklisted("b"));
}

#[test]
fn store_insert_and_get() {
    let mut store = WindowStore::new();
    assert_eq!(store.get("main"), None);
    store.insert("main", meta(1, 2, 3, 4));
    store.insert("other", meta(5, 6, 7, 8));
    assert_eq!(store.get("main"), Some(meta(1, 2, 3, 4)));
    assert_eq!(store.get("other"), Some(meta(5, 6, 7, 8)));
    store.insert("main", meta(9, 9, 9, 9));
    assert_eq!(store.get("main"), Some(meta(9, 9, 9, 9)));
    assert_eq!(store.len(), 2);
}

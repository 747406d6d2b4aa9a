use window_state::Builder;
use window_state::Position;
use window_state::ReadyAction;
use window_state::Size;
use window_state::WindowMetadata;
use window_state::WindowStore;
use window_state::on_close_requested;
use window_state::on_moved;
use window_state::on_resized;
use window_state::window_ready;

fn meta(width: u32, height: u32, x: i32, y: i32) -> WindowMetadata {
    WindowMetadata {
        width,
        height,
        x,
        y,
        maximized: false,
        visible: true,
        decorated: true,
        fullscreen: false,
    }
}

#[test]
fn ready_snapshots_unknown_window() {
    let mut store = WindowStore::new();
    let config = Builder::default();
    let live = meta(800, 600, 100, 100);
    let outcome = window_ready(&mut store, &config, "main", live);
    assert_eq!(outcome.action, ReadyAction::Recorded);
    assert!(outcome.show);
    assert_eq!(store.len(), 1);
    assert_eq!(store.get("main"), Some(live));
}

#[test]
fn ready_restores_prior_entry() {
    let mut store = WindowStore::new();
    let config = Builder::default();
    let stored = meta(1024, 768, -8, 31);
    store.insert("main", stored);
    let live = meta(800, 600, 0, 0);
    let outcome = window_ready(&mut store, &config, "main", live);
    assert_eq!(outcome.action, ReadyAction::Restore(stored));
    assert!(outcome.show);
    // The store is untouched by a restore.
    assert_eq!(store.len(), 1);
    assert_eq!(store.get("main"), Some(stored));
}

#[test]
fn ready_show_follows_stored_visibility() {
    let mut store = WindowStore::new();
    let config = Builder::default();
    let mut stored = meta(640, 480, 0, 0);
    stored.visible = false;
    store.insert("main", stored);
    let outcome = window_ready(&mut store, &config, "main", meta(1, 1, 0, 0));
    assert_eq!(outcome.action, ReadyAction::Restore(stored));
    assert!(!outcome.show);
}

#[test]
fn ready_show_respects_auto_show_off() {
    let mut store = WindowStore::new();
    let config = Builder::default().with_auto_show(false);
    let outcome = window_ready(&mut store, &config, "main", meta(800, 600, 0, 0));
    assert_eq!(outcome.action, ReadyAction::Recorded);
    assert!(!outcome.show);
    let outcome2 = window_ready(&mut store, &config, "main", meta(800, 600, 0, 0));
    assert!(matches!(outcome2.action, ReadyAction::Restore(_)));
    assert!(!outcome2.show);
}

#[test]
fn moved_inside_monitor_updates_position() {
    let mut store = WindowStore::new();
    store.insert("main", meta(800, 600, 100, 100));
    on_moved(
        &mut store,
        "main",
        Position { x: 50, y: 50 },
        false,
        Some(Position { x: 0, y: 0 }),
    );
    let m = store.get("main").unwrap();
    assert_eq!(m.x, 50);
    assert_eq!(m.y, 50);
}

#[test]
fn moved_outside_monitor_keeps_position() {
    let mut store = WindowStore::new();
    store.insert("main", meta(800, 600, 100, 100));
    // position.x <= monitor.x: the coordinates are rejected.
    on_moved(
        &mut store,
        "main",
        Position { x: 0, y: 50 },
        false,
        Some(Position { x: 0, y: 0 }),
    );
    let m = store.get("main").unwrap();
    assert_eq!(m.x, 100);
    assert_eq!(m.y, 100);
}

#[test]
fn moved_while_maximized_keeps_position() {
    let mut store = WindowStore::new();
    store.insert("main", meta(800, 600, 100, 100));
    on_moved(
        &mut store,
        "main",
        Position { x: 50, y: 50 },
        true,
        Some(Position { x: 0, y: 0 }),
    );
    let m = store.get("main").unwrap();
    assert_eq!(m.x, 100);
    assert_eq!(m.y, 100);
    assert!(m.maximized);
}

#[test]
fn moved_without_monitor_keeps_position() {
    let mut store = WindowStore::new();
    store.insert("main", meta(800, 600, 100, 100));
    on_moved(&mut store, "main", Position { x: 50, y: 50 }, false, None);
    let m = store.get("main").unwrap();
    assert_eq!(m.x, 100);
    assert_eq!(m.y, 100);
}

#[test]
fn resized_zero_dimension_keeps_size() {
    let mut store = WindowStore::new();
    store.insert("main", meta(800, 600, 100, 100));
    on_resized(
        &mut store,
        "main",
        Size { width: 0, height: 0 },
        false,
        false,
        true,
    );
    let m = store.get("main").unwrap();
    assert_eq!(m.width, 800);
    assert_eq!(m.height, 600);
}

#[test]
fn resized_positive_updates_size() {
    let mut store = WindowStore::new();
    store.insert("main", meta(800, 600, 100, 100));
    on_resized(
        &mut store,
        "main",
        Size { width: 1280, height: 720 },
        false,
        false,
        false,
    );
    let m = store.get("main").unwrap();
    assert_eq!(m.width, 1280);
    assert_eq!(m.height, 720);
    assert!(!m.decorated);
}

#[test]
fn resized_while_maximized_keeps_size() {
    let mut store = WindowStore::new();
    store.insert("main", meta(800, 600, 100, 100));
    on_resized(
        &mut store,
        "main",
        Size { width: 1920, height: 1080 },
        true,
        false,
        true,
    );
    let m = store.get("main").unwrap();
    assert_eq!(m.width, 800);
    assert_eq!(m.height, 600);
    assert!(m.maximized);
}

#[test]
fn close_requested_records_visibility() {
    let mut store = WindowStore::new();
    store.insert("main", meta(800, 600, 100, 100));
    on_close_requested(&mut store, "main", false);
    let m = store.get("main").unwrap();
    assert!(!m.visible);
    assert_eq!(m.width, 800);
}

#[test]
fn events_on_untracked_window_are_no_ops() {
    let mut store = WindowStore::new();
    on_moved(
        &mut store,
        "ghostly",
        Position { x: 1, y: 1 },
        false,
        Some(Position { x: 0, y: 0 }),
    );
    on_resized(
        &mut store,
        "ghostly",
        Size { width: 1, height: 1 },
        false,
        false,
        true,
    );
    on_close_requested(&mut store, "ghostly", false);
    assert_eq!(store.len(), 0);
    assert_eq!(store.get("ghostly"), None);
}

#[test]
fn blacklisted_window_never_tracked_or_shown() {
    let mut store = WindowStore::new();
    let config = Builder::default().with_blacklist(&["settings"]);
    let outcome = window_ready(&mut store, &config, "settings", meta(800, 600, 0, 0));
    assert_eq!(outcome.action, ReadyAction::Skipped);
    assert!(!outcome.show);
    assert_eq!(store.len(), 0);
    // Whatever events it fires, it gains no entry.
    on_moved(
        &mut store,
        "settings",
        Position { x: 5, y: 5 },
        false,
        Some(Position { x: 0, y: 0 }),
    );
    on_resized(
        &mut store,
        "settings",
        Size { width: 9, height: 9 },
        false,
        false,
        true,
    );
    on_close_requested(&mut store, "settings", true);
    assert_eq!(store.get("settings"), None);
    assert_eq!(store.len(), 0);
    // Other windows are unaffected by the blacklist.
    let outcome = window_ready(&mut store, &config, "main", meta(800, 600, 0, 0));
    assert_eq!(outcome.action, ReadyAction::Recorded);
    assert_eq!(store.len(), 1);
}

#[test]
fn end_to_end_session() {
    let mut store = WindowStore::new();
    let config = Builder::default();

    let live = meta(800, 600, 100, 100);
    let outcome = window_ready(&mut store, &config, "main", live);
    assert_eq!(outcome.action, ReadyAction::Recorded);
    assert!(outcome.show);
    assert_eq!(store.get("main"), Some(live));

    on_resized(
        &mut store,
        "main",
        Size { width: 0, height: 0 },
        false,
        false,
        true,
    );
    assert_eq!(store.get("main"), Some(live));

    on_moved(
        &mut store,
        "main",
        Position { x: 50, y: 50 },
        false,
        Some(Position { x: 0, y: 0 }),
    );
    let moved = store.get("main").unwrap();
    assert_eq!((moved.x, moved.y), (50, 50));
    assert_eq!((moved.width, moved.height), (800, 600));

    // The exit flush, reloaded, reproduces the exact entry.
    let bytes = window_state::serialize_store(&store);
    let reloaded = window_state::deserialize_store(&bytes).unwrap();
    assert_eq!(reloaded.len(), 1);
    assert_eq!(reloaded.get("main"), Some(moved));
}

use window_state::WindowMetadata;
use window_state::WindowStore;
use window_state::deserialize_store;
use window_state::load_store;
use window_state::serialize_store;

fn meta(width: u32, height: u32, x: i32, y: i32) -> WindowMetadata {
    WindowMetadata {
        width,
        height,
        x,
        y,
        maximized: false,
        visible: true,
        decorated: true,
        fullscreen: false,
    }
}

#[test]
fn empty_store_encodes_to_count_zero() {
    let store = WindowStore::new();
    let bytes = serialize_store(&store);
    assert_eq!(bytes, vec![0u8; 8]);
}

#[test]
fn one_entry_encodes_exactly() {
    let mut store = WindowStore::new();
    let m = WindowMetadata {
        width: 800,
        height: 600,
        x: -1,
        y: 2,
        maximized: false,
        visible: true,
        decorated: true,
        fullscreen: false,
    };
    store.insert("ab", m);
    let bytes = serialize_store(&store);
    let mut expected: Vec<u8> = Vec::new();
    expected.extend_from_slice(&[1, 0, 0, 0, 0, 0, 0, 0]); // one entry
    expected.extend_from_slice(&[2, 0, 0, 0, 0, 0, 0, 0]); // label length
    expected.extend_from_slice(b"ab");
    expected.extend_from_slice(&[0x20, 0x03, 0, 0]); // width 800
    expected.extend_from_slice(&[0x58, 0x02, 0, 0]); // height 600
    expected.extend_from_slice(&[0xff, 0xff, 0xff, 0xff]); // x == -1
    expected.extend_from_slice(&[0x02, 0, 0, 0]); // y == 2
    expected.extend_from_slice(&[0, 1, 1, 0]); // maximized, visible, decorated, fullscreen
    assert_eq!(bytes, expected);
}

#[test]
fn round_trip_preserves_entries_and_order() {
    let mut store = WindowStore::new();
    store.insert("main", meta(800, 600, 100, 100));
    let mut second = meta(300, 200, -20, -35);
    second.maximized = true;
    second.visible = false;
    second.fullscreen = true;
    store.insert("tools", second);
    store.insert("main", meta(801, 601, 101, 99)); // overwrite in place
    let bytes = serialize_store(&store);
    let reloaded = deserialize_store(&bytes).expect("valid encoding");
    assert_eq!(reloaded.len(), 2);
    assert_eq!(reloaded.get("main"), Some(meta(801, 601, 101, 99)));
    assert_eq!(reloaded.get("tools"), Some(second));
}

#[test]
fn reserialization_is_byte_identical() {
    let mut store = WindowStore::new();
    store.insert("main", meta(800, 600, 100, 100));
    store.insert("aux", meta(1, 1, -5, -5));
    let bytes = serialize_store(&store);
    let reloaded = deserialize_store(&bytes).unwrap();
    let bytes_again = serialize_store(&reloaded);
    assert_eq!(bytes, bytes_again);
}

#[test]
fn decode_rejects_short_input() {
    assert!(deserialize_store(&[]).is_none());
    assert!(deserialize_store(&[1, 0, 0]).is_none());
}

#[test]
fn decode_rejects_truncated_entry() {
    let mut store = WindowStore::new();
    store.insert("main", meta(800, 600, 100, 100));
    let mut bytes = serialize_store(&store);
    bytes.pop();
    assert!(deserialize_store(&bytes).is_none());
}

#[test]
fn decode_rejects_trailing_bytes() {
    let mut store = WindowStore::new();
    store.insert("main", meta(800, 600, 100, 100));
    let mut bytes = serialize_store(&store);
    bytes.push(0);
    assert!(deserialize_store(&bytes).is_none());
}

#[test]
fn decode_rejects_malformed_flag_byte() {
    let mut store = WindowStore::new();
    store.insert("main", meta(800, 600, 100, 100));
    let mut bytes = serialize_store(&store);
    let last = bytes.len() - 1;
    bytes[last] = 2; // fullscreen flag must be 0 or 1
    assert!(deserialize_store(&bytes).is_none());
}

#[test]
fn decode_rejects_duplicate_labels() {
    let mut store = WindowStore::new();
    store.insert("main", meta(800, 600, 100, 100));
    let one = serialize_store(&store);
    let mut bytes: Vec<u8> = vec![2, 0, 0, 0, 0, 0, 0, 0];
    bytes.extend_from_slice(&one[8..]);
    bytes.extend_from_slice(&one[8..]);
    assert!(deserialize_store(&bytes).is_none());
}

#[test]
fn load_store_falls_back_to_empty() {
    let garbage = [9u8, 9, 9, 9, 9, 9, 9, 9, 9, 9];
    let store = load_store(&garbage);
    assert_eq!(store.len(), 0);
    let store = load_store(&[]);
    assert_eq!(store.len(), 0);
}

#[test]
fn load_store_reads_valid_bytes() {
    let mut store = WindowStore::new();
    store.insert("main", meta(640, 480, 7, 8));
    let bytes = serialize_store(&store);
    let reloaded = load_store(&bytes);
    assert_eq!(reloaded.len(), 1);
    assert_eq!(reloaded.get("main"), Some(meta(640, 480, 7, 8)));
}

#[test]
fn empty_label_is_preserved() {
    let mut store = WindowStore::new();
    store.insert("", meta(10, 20, 0, 0));
    let bytes = serialize_store(&store);
    let reloaded = deserialize_store(&bytes).unwrap();
    assert_eq!(reloaded.get(""), Some(meta(10, 20, 0, 0)));
}

#[test]
fn extreme_values_round_trip() {
    let mut store = WindowStore::new();
    let m = WindowMetadata {
        width: u32::MAX,
        height: 1,
        x: i32::MIN,
        y: i32::MAX,
        maximized: true,
        visible: false,
        decorated: false,
        fullscreen: true,
    };
    store.insert("edge", m);
    let bytes = serialize_store(&store);
    let reloaded = deserialize_store(&bytes).unwrap();
    assert_eq!(reloaded.get("edge"), Some(m));
}

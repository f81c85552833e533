use kwork_parser::state::{
    ErrorRecord, Fingerprint, KworkSnapshot, StateData, StateStore, MAX_DIALOGS, MAX_ERROR_CHARS, MAX_FINGERPRINT_BYTES, MAX_KWORK_NAME_BYTES,
};

fn test_store() -> StateStore {
    StateStore::load("state-test.json".to_string(), None).unwrap()
}

#[test]
fn round_trip_and_health() {
    let mut store = test_store();
    store.set_dialog(7, "fingerprint".into());
    store.set_kwork(9, "Name".into(), 3, 1);
    store.set_order(11, "active".into());
    store.mark_orders_seeded();
    store.touch_ok("inbox");
    assert!(store.needs_save());
    assert_eq!(store.dialog(7), Some("fingerprint"));
    assert_eq!(store.kwork(9).map(|v| v.views), Some(3));
    assert_eq!(store.order(11), Some("active"));
    assert!(store.orders_seeded());
    assert!(store.last_ok("inbox").is_some());

    let reloaded = StateStore::load("state-test.json".to_string(), Some(store.into_data())).unwrap();
    assert!(!reloaded.needs_save());
    assert_eq!(reloaded.dialog(7), Some("fingerprint"));
    assert_eq!(reloaded.kwork(9).map(|v| (v.views, v.orders, v.name.as_str())), Some((3, 1, "Name")));
    assert_eq!(reloaded.order(11), Some("active"));
    assert!(reloaded.orders_seeded());
    assert!(reloaded.last_ok("inbox").is_some());
}

#[test]
fn rejects_unknown_version() {
    let mut data = StateData::default();
    data.version = 99;
    assert!(StateStore::load("v.json".to_string(), Some(data))
        .unwrap_err()
        .contains("unsupported state version"));
}

#[test]
fn pruning_keeps_bound() {
    let mut store = test_store();
    for id in 0..=MAX_DIALOGS as i64 {
        store.set_dialog(id, id.to_string());
    }
    assert_eq!(store.data().dialogs.len(), MAX_DIALOGS);
}

#[test]
fn pruning_drops_the_oldest() {
    let mut store = test_store();
    for id in 0..=MAX_DIALOGS as i64 {
        store.set_dialog_at(id, id.to_string(), 1_000 + id as u64);
    }
    assert_eq!(store.dialog(0), None);
    assert_eq!(store.dialog(1), Some("1"));
    assert_eq!(store.dialog(MAX_DIALOGS as i64), Some("1000"));
}

#[test]
fn error_is_bounded() {
    let mut store = test_store();
    store.touch_error(&"x".repeat(MAX_ERROR_CHARS + 10));
    assert_eq!(store.last_error().unwrap().message.len(), MAX_ERROR_CHARS);
}

#[test]
fn persistent_strings_are_bounded() {
    let mut store = test_store();
    store.set_dialog(1, "🙂".repeat(MAX_FINGERPRINT_BYTES));
    store.set_kwork(2, "n".repeat(MAX_KWORK_NAME_BYTES + 1), 0, 0);
    assert_eq!(store.dialog(1).unwrap().len(), MAX_FINGERPRINT_BYTES);
    assert_eq!(store.kwork(2).unwrap().name.len(), MAX_KWORK_NAME_BYTES);
}

#[test]
fn health_keeps_one_entry_per_job() {
    let mut store = test_store();
    store.touch_ok_at("inbox", 1);
    store.touch_ok_at("stats", 2);
    store.touch_ok_at("inbox", 3);
    assert_eq!(store.last_ok("inbox"), Some(3));
    assert_eq!(store.last_ok("stats"), Some(2));
    assert_eq!(store.last_ok("orders"), None);
    assert_eq!(store.data().health.len(), 2);
}

#[test]
fn fresh_store_is_clean() {
    let mut store = test_store();
    store.set_order_at(5, "ok".into(), 1);
    store.mark_saved();
    assert!(!store.needs_save());
    let fresh = StateStore::load("n.json".to_string(), None).unwrap();
    assert!(!fresh.needs_save());
    assert_eq!(fresh.path(), "n.json");
}

#[test]
fn retain_forgets_unlisted_kworks() {
    let mut store = test_store();
    store.set_kwork_at(1, "a".into(), 1, 1, 1);
    store.set_kwork_at(2, "b".into(), 1, 1, 1);
    store.mark_saved();
    store.retain_kworks(&[1, 2]);
    assert!(!store.needs_save());
    store.retain_kworks(&[2]);
    assert!(store.needs_save());
    assert!(store.kwork(1).is_none());
    assert_eq!(store.kworks().len(), 1);
}

#[test]
fn loading_cuts_oversized_entries() {
    use_data_with_long_values();
}

fn use_data_with_long_values() {
    let mut data = StateData::default();
    data.dialogs.insert(1, Fingerprint { value: "x".repeat(300), updated_at: 5 });
    data.kworks.insert(2, KworkSnapshot { name: "я".repeat(100), views: 1, orders: 2, updated_at: 5 });
    data.last_error = Some(ErrorRecord { message: "e".repeat(600), at: 5 });
    data.health.push(("inbox".to_string(), 9));
    let store = StateStore::load("big.json".to_string(), Some(data)).unwrap();
    assert!(store.needs_save());
    assert_eq!(store.dialog(1).unwrap().len(), MAX_FINGERPRINT_BYTES);
    assert_eq!(store.kwork(2).unwrap().name.len(), MAX_KWORK_NAME_BYTES);
    assert_eq!(store.last_error().unwrap().message.chars().count(), MAX_ERROR_CHARS);
    assert_eq!(store.last_ok("inbox"), Some(9));

    let mut small = StateData::default();
    small.orders.insert(3, Fingerprint { value: "active".into(), updated_at: 1 });
    let store = StateStore::load("small.json".to_string(), Some(small)).unwrap();
    assert!(!store.needs_save());
    assert_eq!(store.order(3), Some("active"));
}

#[test]
fn loading_prunes_to_the_caps() {
    let mut data = StateData::default();
    for id in 0..(MAX_DIALOGS as i64 + 5) {
        data.dialogs.insert(id, Fingerprint { value: "f".into(), updated_at: id as u64 });
    }
    let store = StateStore::load("many.json".to_string(), Some(data)).unwrap();
    assert!(store.needs_save());
    assert_eq!(store.data().dialogs.len(), MAX_DIALOGS);
    assert_eq!(store.dialog(4), None);
    assert_eq!(store.dialog(5), Some("f"));
}

use kwork_parser::kwork::api::{ApiError, OrderInfo};
use kwork_parser::kwork::orders::{
    bounded_chars, classify_order, finish_order, finish_orders, order_notice, orders_unavailable,
    OrderChange,
};
use kwork_parser::state::StateStore;

fn store() -> StateStore {
    StateStore::load("orders-test-state.json".to_string(), None).unwrap()
}

fn order(status: &str, username: &str) -> OrderInfo {
    OrderInfo {
        id: 9,
        status: status.to_string(),
        title: "Rust bot".to_string(),
        username: username.to_string(),
    }
}

#[test]
fn first_run_seeds_without_notifications() {
    assert_eq!(classify_order(false, None, "active"), OrderChange::Unchanged);
    assert_eq!(classify_order(true, None, "active"), OrderChange::New);
    assert_eq!(
        classify_order(true, Some("active"), "done"),
        OrderChange::Status("active")
    );
}

#[test]
fn same_status_is_unchanged() {
    assert_eq!(classify_order(true, Some("done"), "done"), OrderChange::Unchanged);
}

#[test]
fn statuses_are_cut_to_80_characters() {
    assert_eq!(bounded_chars(&"я".repeat(100), 80).chars().count(), 80);
    assert_eq!(bounded_chars("short", 80), "short");
}

#[test]
fn new_and_changed_orders_are_announced() {
    let mut state = store();
    let o = order("active", "buyer");
    assert!(order_notice(&state, false, &o).is_none());
    assert!(!finish_order(&mut state, &o, None, 10));
    finish_orders(&mut state, 10);
    assert!(state.orders_seeded());
    assert_eq!(state.order(9), Some("active"));
    assert_eq!(state.last_ok("orders"), Some(10));

    assert!(order_notice(&state, true, &o).is_none());
    let done = order("done", "");
    let notice = order_notice(&state, true, &done).unwrap();
    assert_eq!(notice, "📦 Заказ #9: active → done\nRust bot\nhttps://kwork.ru/track?id=9");
    assert!(!finish_order(&mut state, &done, Some(false), 20));
    assert_eq!(state.order(9), Some("active"));
    assert!(finish_order(&mut state, &done, Some(true), 20));
    assert_eq!(state.order(9), Some("done"));

    let mut fresh = order("active", "buyer");
    fresh.id = 10;
    assert_eq!(
        order_notice(&state, true, &fresh).unwrap(),
        "🆕 Новый заказ #10\nRust bot\nстатус: active\nпокупатель: @buyer\nhttps://kwork.ru/track?id=10"
    );
    fresh.username = String::new();
    assert_eq!(
        order_notice(&state, true, &fresh).unwrap(),
        "🆕 Новый заказ #10\nRust bot\nстатус: active\n\nhttps://kwork.ru/track?id=10"
    );
}

#[test]
fn no_orders_yet_is_not_a_failure() {
    assert!(orders_unavailable(&ApiError::Api("\"Вы пока ничего не заказали\"".into())));
    assert!(!orders_unavailable(&ApiError::Api("other".into())));
    assert!(!orders_unavailable(&ApiError::Http("ничего не заказали".into())));
}

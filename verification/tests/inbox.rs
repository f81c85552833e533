use kwork_parser::kwork::api::Dialog;
use kwork_parser::kwork::inbox::{
    begin_dialog, dialog_fingerprint_text, dialog_notice_text, finish_dialog, finish_inbox, should_notify,
    strip_html,
};
use kwork_parser::state::StateStore;

fn store() -> StateStore {
    StateStore::load("inbox-test-state.json".to_string(), None).unwrap()
}

fn dialog(unread: bool, text: &str) -> Dialog {
    Dialog {
        username: "buyer".to_string(),
        user_id: 42,
        unread,
        unread_count: if unread { 2 } else { 0 },
        last_message: text.to_string(),
        time: 123,
        link: "https://kwork.ru/inbox/42".to_string(),
    }
}

#[test]
fn strip_html_basic() {
    assert_eq!(strip_html("<p>hi &amp; bye</p>"), "hi & bye");
}

#[test]
fn strip_html_decodes_entities_and_collapses_space() {
    assert_eq!(strip_html("  a&nbsp;&nbsp;b\n\n<br/>c&lt;d&gt; &quot;q&quot; &mdash; &middot;  "), "a b c<d> \"q\" — ·");
    assert_eq!(strip_html("<b>"), "");
    assert_eq!(strip_html("x<unclosed tag y"), "x");
}

#[test]
fn unread_changes_notify_once() {
    assert!(should_notify(true, false));
    assert!(!should_notify(true, true));
    assert!(!should_notify(false, false));
}

#[test]
fn notice_names_sender_count_and_link() {
    let d = dialog(true, "<p>Здравствуйте</p>");
    assert_eq!(
        dialog_notice_text(&d),
        "📩 Новое сообщение от @buyer\nнепрочитано: 2\nЗдравствуйте\nhttps://kwork.ru/inbox/42"
    );
    let mut anon = dialog(true, "");
    anon.username = String::new();
    anon.unread_count = 0;
    assert_eq!(
        dialog_notice_text(&anon),
        "📩 Новое сообщение от id:42\nнепрочитано: 1\n(нет текста)\nhttps://kwork.ru/inbox/42"
    );
}

#[test]
fn delivered_dialog_is_not_announced_again() {
    let mut state = store();
    let d = dialog(true, "hello");
    let notice = begin_dialog(&mut state, &d, 100);
    assert!(notice.is_some());
    assert_eq!(state.dialog(42), None);
    assert!(finish_dialog(&mut state, &d, true, 100));
    assert_eq!(state.dialog(42), Some(dialog_fingerprint_text(&d).as_str()));
    assert!(begin_dialog(&mut state, &d, 200).is_none());
    let changed = dialog(true, "hello again");
    assert!(begin_dialog(&mut state, &changed, 300).is_some());
}

#[test]
fn undelivered_dialog_is_retried() {
    let mut state = store();
    let d = dialog(true, "hello");
    assert!(begin_dialog(&mut state, &d, 100).is_some());
    assert!(!finish_dialog(&mut state, &d, false, 100));
    assert_eq!(state.dialog(42), None);
    assert!(begin_dialog(&mut state, &d, 200).is_some());
}

#[test]
fn read_dialogs_are_recorded_silently() {
    let mut state = store();
    let d = dialog(false, "seen");
    assert!(begin_dialog(&mut state, &d, 100).is_none());
    assert!(state.dialog(42).is_some());
    finish_inbox(&mut state, 555);
    assert_eq!(state.last_ok("inbox"), Some(555));
    assert!(state.needs_save());
}

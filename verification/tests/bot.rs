use kwork_parser::bot::{backoff_secs, collect_commands, message_parts, parse_admin_command, Backoff, UpdateInfo};

#[test]
fn only_admin_commands_are_accepted() {
    assert_eq!(
        parse_admin_command(7, 7, Some(" /Stats@my_bot now ")),
        Some("stats".into())
    );
    assert_eq!(parse_admin_command(7, 8, Some("/stats")), None);
    assert_eq!(parse_admin_command(7, 7, Some("hello")), None);
}

#[test]
fn long_messages_split_on_utf8_boundaries() {
    let text = "🙂".repeat(9);
    let parts = message_parts(&text, 4);
    assert_eq!(
        parts
            .iter()
            .map(|part| part.chars().count())
            .collect::<Vec<_>>(),
        vec![4, 4, 1]
    );
}

#[test]
fn short_messages_stay_whole() {
    let parts = message_parts("привет", 4096);
    assert_eq!(parts, vec!["привет".to_string()]);
    assert_eq!(parts.concat(), "привет");
}

#[test]
fn message_pieces_rebuild_the_text() {
    let text = "abcdefghij";
    let parts = message_parts(text, 3);
    assert_eq!(parts, vec!["abc", "def", "ghi", "j"]);
    assert_eq!(parts.concat(), text);
}

#[test]
fn commands_lose_bot_suffix_and_case() {
    assert_eq!(parse_admin_command(1, 1, Some("/INBOX")), Some("inbox".into()));
    assert_eq!(parse_admin_command(1, 1, Some("/orders@kwork_bot")), Some("orders".into()));
    assert_eq!(parse_admin_command(1, 1, Some("/")), None);
    assert_eq!(parse_admin_command(1, 1, Some("/@bot")), None);
    assert_eq!(parse_admin_command(1, 1, None), None);
}

#[test]
fn backoff_doubles_up_to_a_minute() {
    assert_eq!(backoff_secs(0), 1);
    assert_eq!(backoff_secs(1), 2);
    assert_eq!(backoff_secs(5), 32);
    assert_eq!(backoff_secs(6), 64);
    assert_eq!(backoff_secs(100), 64);
}

#[test]
fn updates_yield_admin_commands_and_next_offset() {
    let updates = vec![
        UpdateInfo { update_id: 10, message: Some((5, Some("/stats".to_string()))) },
        UpdateInfo { update_id: 11, message: Some((6, Some("/inbox".to_string()))) },
        UpdateInfo { update_id: 12, message: None },
        UpdateInfo { update_id: 13, message: Some((5, Some("/Orders@bot x".to_string()))) },
    ];
    let (offset, commands) = collect_commands(5, None, &updates);
    assert_eq!(offset, Some(14));
    assert_eq!(commands, vec!["stats".to_string(), "orders".to_string()]);
    let (offset, commands) = collect_commands(5, Some(3), &Vec::new());
    assert_eq!(offset, Some(3));
    assert!(commands.is_empty());
}

#[test]
fn backoff_window_holds_requests_back() {
    let s = 1_000_000_000u128;
    let mut b = Backoff::new();
    assert!(!b.active(0));
    b.failed(10 * s);
    assert_eq!(b.consecutive_errors, 1);
    assert!(b.active(11 * s));
    assert!(!b.active(12 * s));
    for _ in 0..10 {
        b.failed(100 * s);
    }
    assert!(b.active(163 * s));
    assert!(!b.active(164 * s));
    b.succeeded();
    assert!(!b.active(100 * s));
    assert_eq!(b.consecutive_errors, 0);
}

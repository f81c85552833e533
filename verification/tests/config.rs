use kwork_parser::config::{in_quiet_at, in_quiet_hours, parse_hour, parse_quiet_hours, Config, EnvVars};

#[test]
fn quiet_hours_cross_midnight() {
    assert_eq!(
        parse_quiet_hours("22:00-08:00").unwrap(),
        (Some(22), Some(8))
    );
    assert!(parse_quiet_hours("24-8").is_err());
    assert!(in_quiet_at(22, 8, 23));
    assert!(in_quiet_at(22, 8, 7));
    assert!(!in_quiet_at(22, 8, 12));
}

#[test]
fn hour_parser_rejects_bad_values() {
    assert_eq!(parse_hour("0").unwrap(), 0);
    assert_eq!(parse_hour("23:00").unwrap(), 23);
    assert!(parse_hour("23:59").is_err());
    assert!(parse_hour("x").is_err());
}

#[test]
fn quiet_window_edges() {
    assert!(in_quiet_at(9, 17, 9));
    assert!(!in_quiet_at(9, 17, 17));
    assert!(!in_quiet_at(5, 5, 5));
    assert!(!in_quiet_hours(None, None, 3));
    assert!(in_quiet_hours(Some(22), Some(8), 0));
    assert_eq!(parse_quiet_hours("").unwrap(), (None, None));
}

fn env() -> EnvVars {
    EnvVars {
        telegram_bot_token: Some("token".into()),
        telegram_admin_id: Some("42".into()),
        kwork_login: Some("login".into()),
        kwork_password: Some("secret".into()),
        message_check_interval: None,
        message_check_min: None,
        message_check_max: None,
        stats_check_interval: None,
        orders_check_interval: None,
        summary_interval_hours: None,
        quiet_hours: None,
        quiet_allow_inbox: None,
        state_path: None,
        kwork_token_path: None,
    }
}

#[test]
fn defaults_fill_missing_settings() {
    let c: Config = Config::from_env(&env()).unwrap();
    assert_eq!(c.telegram_admin_id, 42);
    assert_eq!(c.message_check_interval, 180);
    assert_eq!(c.message_check_min, 60);
    assert_eq!(c.message_check_max, 600);
    assert_eq!(c.stats_check_interval, 3_600);
    assert_eq!(c.orders_check_interval, 300);
    assert_eq!(c.summary_interval, 21_600);
    assert_eq!(c.state_path, "kwork-state.json");
    assert_eq!(c.token_path, ".kwork-token.json");
    assert!(c.quiet_allow_inbox);
    assert!(c.message_check_min <= c.message_check_interval);
    assert!(c.message_check_interval <= c.message_check_max);
}

#[test]
fn missing_or_inconsistent_settings_are_refused() {
    let mut e = env();
    e.telegram_bot_token = None;
    assert!(Config::from_env(&e).is_err());
    let mut e = env();
    e.message_check_min = Some("20".into());
    assert!(Config::from_env(&e).is_err());
    let mut e = env();
    e.quiet_hours = Some("25-3".into());
    assert!(Config::from_env(&e).is_err());
}

#[test]
fn setting_errors_quote_the_value() {
    assert_eq!(parse_hour("x").unwrap_err(), "invalid hour in QUIET_HOURS: \"x\"");
    assert_eq!(parse_hour("23:59").unwrap_err(), "QUIET_HOURS supports whole hours only, got \"23:59\"");
    assert_eq!(parse_hour("24").unwrap_err(), "hour must be 0-23, got 24");
    assert_eq!(parse_quiet_hours("1-2-3").unwrap_err(), "QUIET_HOURS must look like 22-8, got \"1-2-3\"");
    let mut e = env();
    e.quiet_allow_inbox = Some("maybe".into());
    assert_eq!(
        Config::from_env(&e).unwrap_err(),
        "QUIET_ALLOW_INBOX must be true/false or 1/0, got \"maybe\""
    );
}

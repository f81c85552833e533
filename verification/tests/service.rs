use std::time::Duration;

use kwork_parser::config::Config;
use kwork_parser::control::{
    adaptive_inbox_interval, command_error_text, deliver_now, job_done_text, next_reconnect_delay,
    plan_command, record_digest, record_failure, startup_next, startup_text, status_text, CommandPlan,
    DigestOutcome, Job, Schedule, StartupAction, StartupStep,
};
use kwork_parser::kwork::api::ApiError;
use kwork_parser::state::StateStore;

fn config() -> Config {
    Config {
        telegram_bot_token: "token".into(),
        telegram_admin_id: 1,
        message_check_interval: 180,
        message_check_min: 60,
        message_check_max: 600,
        stats_check_interval: 3_600,
        orders_check_interval: 300,
        summary_interval: 21_600,
        state_path: "state.json".into(),
        kwork_login: "login".into(),
        kwork_password: "password".into(),
        token_path: "token.json".into(),
        quiet_start: None,
        quiet_end: None,
        quiet_allow_inbox: true,
    }
}

#[test]
fn adaptive_intervals_are_bounded() {
    let config = config();
    assert_eq!(
        adaptive_inbox_interval(&config, Duration::from_secs(1).as_nanos()),
        config.message_check_min
    );
    assert_eq!(
        adaptive_inbox_interval(&config, Duration::from_secs(8_000).as_nanos()),
        config.message_check_max
    );
}

#[test]
fn adaptive_interval_edges() {
    let config = config();
    assert_eq!(adaptive_inbox_interval(&config, Duration::from_secs(900).as_nanos()), 180);
    assert_eq!(adaptive_inbox_interval(&config, Duration::from_secs(7_200).as_nanos()), 180);
    assert_eq!(adaptive_inbox_interval(&config, Duration::from_secs(7_200).as_nanos() + 1), 600);
}

#[test]
fn reconnect_backoff_is_capped() {
    assert_eq!(next_reconnect_delay(2), 4);
    assert_eq!(next_reconnect_delay(200), 300);
    assert_eq!(next_reconnect_delay(149), 298);
    assert_eq!(next_reconnect_delay(u64::MAX), 300);
}

#[test]
fn status_text_is_russian_when_disconnected() {
    let state = StateStore::load("/tmp/kwork-parser-localization-test-state.json".to_string(), None).unwrap();
    let text = status_text(config().telegram_admin_id, false, None, &state, 1_000);
    assert!(text.contains("🩺 Состояние"));
    assert!(text.contains("нет подключения"));
    assert!(text.contains("никогда"));
    assert!(!text.contains("admin chat"));
    assert!(!text.contains("disconnected"));
}

#[test]
fn status_text_reports_runs_token_and_error() {
    let mut state = StateStore::load("s.json".to_string(), None).unwrap();
    state.touch_ok_at("inbox", 1_000);
    state.touch_error_at("inbox: http: boom", 1_000);
    let text = status_text(7, true, Some(7_300), &state, 1_130);
    assert_eq!(
        text,
        "🩺 Состояние\nчат администратора: 7\nтихие часы сейчас: да\nсрок действия токена: ~2 ч.\nфайл состояния: s.json\nвходящие: 2 мин. назад\nстатистика: никогда\nзаказы: никогда\nдайджест: никогда\nпоследняя ошибка: inbox: http: boom"
    );
    assert!(status_text(7, false, Some(-5), &state, 1_130).contains("~0 ч."));
}

#[test]
fn startup_text_lists_intervals() {
    assert_eq!(
        startup_text(&config()),
        "✅ Kwork Parser запущен\n📩 входящие: адаптивный интервал 1–10 мин. (база 3 мин.)\n📊 статистика: интервал 60 мин.\n📦 заказы: интервал 5 мин.\n📋 дайджест: интервал 6 ч.\nКоманды: /stats /inbox /orders /summary /status /start"
    );
}

#[test]
fn commands_are_planned() {
    assert!(matches!(plan_command("inbox", true), CommandPlan::Run(Job::Inbox, _)));
    assert!(matches!(plan_command("orders", true), CommandPlan::Run(Job::Orders, _)));
    assert!(matches!(plan_command("stats", true), CommandPlan::Run(Job::Stats, _)));
    assert!(matches!(plan_command("summary", false), CommandPlan::Summary));
    assert!(matches!(plan_command("status", false), CommandPlan::Status));
    assert!(matches!(plan_command("unknown", true), CommandPlan::Nothing));
    match plan_command("stats", false) {
        CommandPlan::Reply(t) => assert_eq!(t, "⚠️ Kwork отключён; повторное подключение выполняется в фоне."),
        other => panic!("unexpected {other:?}"),
    }
    match plan_command("start", false) {
        CommandPlan::Reply(t) => assert!(t.contains("/inbox")),
        other => panic!("unexpected {other:?}"),
    }
}

#[test]
fn job_replies_use_plural_forms() {
    assert_eq!(job_done_text(&Job::Inbox, 0).unwrap(), "✅ Новых непрочитанных сообщений нет.");
    assert_eq!(job_done_text(&Job::Inbox, 3).unwrap(), "✅ Отправлено: 3 уведомления.");
    assert_eq!(job_done_text(&Job::Orders, 0).unwrap(), "✅ Изменений в заказах нет.");
    assert_eq!(job_done_text(&Job::Orders, 5).unwrap(), "✅ 5 изменений заказов.");
    assert_eq!(job_done_text(&Job::Orders, 1).unwrap(), "✅ 1 изменение заказа.");
    assert!(job_done_text(&Job::Stats, 1).is_none());
}

#[test]
fn failures_are_recorded_and_classified() {
    let mut state = StateStore::load("s.json".to_string(), None).unwrap();
    let (alert, drop) = record_failure(&mut state, "orders", &ApiError::Auth("expired".into()), 5);
    assert_eq!(alert.unwrap(), "⚠️ Ошибка авторизации Kwork (заказы): auth: expired");
    assert!(drop);
    assert_eq!(state.last_error().unwrap().message, "orders: auth: expired");
    let (alert, drop) = record_failure(&mut state, "stats", &ApiError::Http("timeout".into()), 6);
    assert!(alert.is_none());
    assert!(drop);
    let (alert, drop) = record_failure(&mut state, "stats", &ApiError::Parse("bad".into()), 7);
    assert!(alert.is_none());
    assert!(!drop);
    assert_eq!(state.last_error().unwrap().at, 7);
    assert_eq!(command_error_text("inbox", &ApiError::Io("disk".into())), "⚠️ Ошибка (входящие сообщения): io: disk");
}

#[test]
fn digest_attempts_are_recorded() {
    let mut state = StateStore::load("s.json".to_string(), None).unwrap();
    record_digest(&mut state, true, 9);
    assert_eq!(state.last_ok("digest"), Some(9));
    record_digest(&mut state, false, 10);
    assert_eq!(state.last_error().unwrap().message, "digest: Telegram delivery failed; retry scheduled");
}

#[test]
fn quiet_hours_hold_back_scheduled_notices() {
    let mut c = config();
    assert!(deliver_now(&c, false, false));
    assert!(!deliver_now(&c, true, false));
    assert!(deliver_now(&c, true, true));
    c.quiet_allow_inbox = false;
    assert!(!deliver_now(&c, true, true));
}

#[test]
fn schedule_follows_the_jobs() {
    let c = config();
    let s = 1_000_000_000u128;
    let mut plan = Schedule::start(&c, 0, false);
    assert_eq!(plan.next_inbox, 180 * s);
    assert_eq!(plan.next_digest, 300 * s);
    assert_eq!(plan.next_reconnect, 2 * s);
    assert!(!plan.reconnect_due(s));
    assert!(plan.reconnect_due(2 * s));
    plan.reconnect_failed(10 * s);
    assert_eq!(plan.reconnect_delay, 4);
    assert_eq!(plan.next_reconnect, 14 * s);
    plan.inbox_ran(&c, 20 * s, 1);
    assert_eq!(plan.last_activity, 20 * s);
    assert_eq!(plan.next_inbox, 80 * s);
    plan.inbox_ran(&c, 8_000 * s, 0);
    assert_eq!(plan.next_inbox, 8_600 * s);
    plan.orders_ran(&c, 8_000 * s, 0);
    assert_eq!(plan.next_orders, 8_300 * s);
    plan.stats_ran(&c, 8_000 * s);
    assert_eq!(plan.next_stats, 11_600 * s);
    plan.digest_ran(&c, 8_000 * s, DigestOutcome::Failed);
    assert_eq!(plan.next_digest, 8_300 * s);
    plan.digest_ran(&c, 8_000 * s, DigestOutcome::Quiet);
    assert_eq!(plan.next_digest, 29_600 * s);
    plan.disconnected(9_000 * s);
    assert_eq!(plan.reconnect_delay, 2);
    plan.reconnected(&c, 9_001 * s, true);
    assert_eq!(plan.next_digest, 30_601 * s);
}

#[test]
fn startup_runs_jobs_in_order_and_stops_on_disconnect() {
    assert!(matches!(startup_next(StartupStep::Inbox, false, false, true), StartupAction::Run(StartupStep::Orders)));
    assert!(matches!(startup_next(StartupStep::Orders, false, false, true), StartupAction::Run(StartupStep::Stats)));
    assert!(matches!(startup_next(StartupStep::Stats, false, false, true), StartupAction::Run(StartupStep::Digest)));
    assert!(matches!(startup_next(StartupStep::Stats, true, false, true), StartupAction::Finish(true, true)));
    assert!(matches!(startup_next(StartupStep::Orders, false, true, true), StartupAction::Finish(false, true)));
    assert!(matches!(startup_next(StartupStep::Digest, false, false, false), StartupAction::Finish(true, false)));
    assert!(matches!(startup_next(StartupStep::Digest, false, true, true), StartupAction::Finish(false, true)));
}

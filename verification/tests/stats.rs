use kwork_parser::kwork::api::{ActorInfo, KworkActivity};
use kwork_parser::kwork::api::ApiError;
use kwork_parser::kwork::stats::{
    apply_stats, build_digest, build_summary, classify_stat, finish_stats, stats_outcome, stats_report, StatChange,
};
use kwork_parser::state::{KworkSnapshot, StateStore};

fn store() -> StateStore {
    StateStore::load("stats-test-state.json".to_string(), None).unwrap()
}

fn row(id: i64, name: &str, views: i64, orders: i64) -> KworkActivity {
    KworkActivity { id, name: name.to_string(), views, orders }
}

#[test]
fn reports_only_positive_deltas() {
    let previous = KworkSnapshot {
        name: "old name".into(),
        views: 10,
        orders: 2,
        updated_at: 0,
    };
    assert_eq!(
        classify_stat(Some(&previous), 12, 2),
        StatChange::Delta {
            views: 2,
            orders: 0
        }
    );
    assert_eq!(classify_stat(Some(&previous), 9, 1), StatChange::Unchanged);
    assert_eq!(classify_stat(None, 1, 0), StatChange::New);
}

#[test]
fn deltas_do_not_overflow() {
    let previous = KworkSnapshot { name: "n".into(), views: i64::MIN, orders: 0, updated_at: 0 };
    assert_eq!(
        classify_stat(Some(&previous), i64::MAX, 0),
        StatChange::Delta { views: (i64::MAX as i128) - (i64::MIN as i128), orders: 0 }
    );
}

#[test]
fn report_lists_growth_then_new_kworks() {
    let mut state = store();
    let first = vec![row(1, "Bot", 10, 1)];
    assert_eq!(stats_report(&state, &first).unwrap(), "🆕 Новые кворки:\n• Bot");
    apply_stats(&mut state, &first, true, 100);
    assert!(stats_report(&state, &first).is_none());
    assert_eq!(state.last_ok("stats"), Some(100));

    let second = vec![row(1, "Bot", 15, 2), row(2, "Site", 0, 0)];
    assert_eq!(
        stats_report(&state, &second).unwrap(),
        "📈 Статистика за период:\n\n📊 Bot\n👁 Просмотры: +5 (сейчас 15)\n📦 Заказы: +1 (сейчас 2)\nhttps://kwork.ru/1\n\n🆕 Новые кворки:\n• Site"
    );
    apply_stats(&mut state, &second, true, 200);
    assert!(stats_report(&state, &second).is_none());

    let third = vec![row(2, "Site", 3, 0)];
    assert_eq!(
        stats_report(&state, &third).unwrap(),
        "📈 Статистика за период:\n\n📊 Site\n👁 Просмотры: +3 (сейчас 3)\nhttps://kwork.ru/2"
    );
    apply_stats(&mut state, &third, true, 300);
    assert!(state.kwork(1).is_none());
    apply_stats(&mut state, &vec![row(5, "X", 0, 0)], false, 400);
    assert!(state.kwork(2).is_some());
}

#[test]
fn summary_is_sorted_by_name_with_totals() {
    let mut state = store();
    assert_eq!(build_summary(&state), "📊 Сводка: пока нет данных по кворкам.");
    apply_stats(&mut state, &vec![row(10, "Бот", 5, 1), row(9, "Сайт", 7, 2), row(3, "Бот", 1, 0)], true, 1);
    assert_eq!(
        build_summary(&state),
        "• Бот — 👁 5  📦 1\n• Бот — 👁 1  📦 0\n• Сайт — 👁 7  📦 2\n\nИтого: 3 кворков, 👁 13, 📦 3"
    );
}

#[test]
fn digest_lists_account_figures_and_summary() {
    let state = store();
    let actor = ActorInfo {
        username: "seller".into(),
        good_reviews: 10,
        bad_reviews: 1,
        unread_dialog_count: 2,
        unread_messages_count: 5,
        kworks_count: 3,
        completed_orders_count: 40,
    };
    assert_eq!(
        build_digest(&actor, "1500", "200", "4.90", Some((4, 9)), &state),
        "📋 Дайджест Kwork\n@seller\n💰 Баланс: 1500₽ (холд 200₽)\n⭐ Рейтинг: 4.90 (+10 / −1)\n📦 Заказов выполнено: 40\n🔗 Коннекты: 4 / 9\n📩 Непрочитано: 2 диал. / 5 сообщ.\n🛍 Кворков: 3\n\n📊 Сводка: пока нет данных по кворкам."
    );
    assert!(build_digest(&actor, "0", "0", "0.00", None, &state).contains("🔗 Коннекты: недоступно\n"));
}

#[test]
fn undelivered_stats_report_is_retried() {
    let mut state = store();
    let rows = vec![row(1, "Bot", 10, 1)];
    assert!(!finish_stats(&mut state, &rows, true, Some(false), 5));
    assert!(state.kwork(1).is_none());
    assert!(state.last_ok("stats").is_none());
    assert!(stats_report(&state, &rows).is_some());
    assert!(matches!(stats_outcome(Some(false)), Err(ApiError::Io(_))));
    assert!(finish_stats(&mut state, &rows, true, Some(true), 6));
    assert_eq!(state.kwork(1).map(|k| k.views), Some(10));
    assert_eq!(state.last_ok("stats"), Some(6));
    assert_eq!(stats_outcome(Some(true)).unwrap(), 1);
    assert_eq!(stats_outcome(None).unwrap(), 0);
    assert!(finish_stats(&mut state, &rows, true, None, 7));
    assert_eq!(state.last_ok("stats"), Some(7));
}

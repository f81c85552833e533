use kwork_parser::text::{bool_ru, format_ago, format_elapsed, job_label, russian_count, COMMAND_HELP};

#[test]
fn elapsed_zero_is_russian() {
    assert_eq!(format_ago(0), "никогда");
}

#[test]
fn count_forms_cover_russian_rules() {
    assert_eq!(
        russian_count(1, "уведомление", "уведомления", "уведомлений"),
        "1 уведомление"
    );
    assert_eq!(
        russian_count(2, "уведомление", "уведомления", "уведомлений"),
        "2 уведомления"
    );
    assert_eq!(
        russian_count(5, "уведомление", "уведомления", "уведомлений"),
        "5 уведомлений"
    );
    assert_eq!(
        russian_count(11, "уведомление", "уведомления", "уведомлений"),
        "11 уведомлений"
    );
    assert_eq!(
        russian_count(21, "уведомление", "уведомления", "уведомлений"),
        "21 уведомление"
    );
}

#[test]
fn command_help_is_russian() {
    assert!(COMMAND_HELP.contains("проверить сообщения"));
    assert!(!COMMAND_HELP.contains("check"));
    assert!(!COMMAND_HELP.contains("latest saved"));
}

#[test]
fn status_values_are_russian() {
    assert_eq!(bool_ru(true), "да");
    assert_eq!(bool_ru(false), "нет");
    assert_eq!(job_label("orders"), "заказы");
}

#[test]
fn elapsed_units() {
    assert_eq!(format_elapsed(100, 130), "30 сек. назад");
    assert_eq!(format_elapsed(100, 100 + 3 * 60), "3 мин. назад");
    assert_eq!(format_elapsed(100, 100 + 5 * 3600), "5 ч. назад");
    assert_eq!(format_elapsed(100, 100 + 2 * 86400), "2 дн. назад");
    assert_eq!(format_elapsed(200, 100), "0 сек. назад");
    assert_eq!(job_label("unknown"), "задача");
    assert_eq!(russian_count(112, "a", "b", "c"), "112 c");
}

//! Russian wording for the administrator: command help, elapsed time,
//! yes/no, job labels and plural forms.
use vstd::prelude::*;

use crate::clock::unix_now;
use crate::textops::{dec, push_int, str_eq};

verus! {

/// The `/start` help text.
pub const COMMAND_HELP: &'static str = "👋 Kwork Parser\n\n/inbox — проверить сообщения\n/stats — обновить просмотры и заказы кворков\n/orders — проверить заказы\n/summary — последняя сохранённая сводка по кворкам\n/status — состояние и последние проверки";

/// How long ago `unix` was, seen at `now`, in compact Russian.
pub open spec fn elapsed_text(unix: u64, now: u64) -> Seq<char> {
    let d: int = if now >= unix { now - unix } else { 0 };
    if unix == 0 {
        "никогда"@
    } else if d < 60 {
        dec(d) + " сек. назад"@
    } else if d < 3600 {
        dec(d / 60) + " мин. назад"@
    } else if d < 86400 {
        dec(d / 3600) + " ч. назад"@
    } else {
        dec(d / 86400) + " дн. назад"@
    }
}

/// Elapsed time between the Unix timestamp `unix` and `now`, in Russian
/// (`"никогда"` for the zero timestamp).
pub fn format_elapsed(unix: u64, now: u64) -> (r: String)
    ensures
        r@ == elapsed_text(unix, now),
{
    if unix == 0 {
        return "никогда".to_owned();
    }
    let d: u64 = now.saturating_sub(unix);
    let mut out = String::new();
    if d < 60 {
        push_int(&mut out, d as i128);
        out.append(" сек. назад");
    } else if d < 3600 {
        push_int(&mut out, (d / 60) as i128);
        out.append(" мин. назад");
    } else if d < 86400 {
        push_int(&mut out, (d / 3600) as i128);
        out.append(" ч. назад");
    } else {
        push_int(&mut out, (d / 86400) as i128);
        out.append(" дн. назад");
    }
    out
}

/// How long ago `unix` was, by the wall clock; whatever the clock read, the
/// text is the elapsed text for some current time.
pub fn format_ago(unix: u64) -> (r: String)
    ensures
        exists|now: u64| r@ == elapsed_text(unix, now),
{
    let now = unix_now();
    format_elapsed(unix, now)
}

/// Russian plural form for `count`: `one` (1, 21, …), `few` (2–4, 22–24, …)
/// or `many` (0, 5–20, 25–30, …, and every 11–14 ending).
pub open spec fn russian_form_of(count: nat, one: Seq<char>, few: Seq<char>, many: Seq<char>) -> Seq<
    char,
> {
    let last_two = count % 100;
    let last = count % 10;
    if 11 <= last_two && last_two <= 14 {
        many
    } else if last == 1 {
        one
    } else if 2 <= last && last <= 4 {
        few
    } else {
        many
    }
}

/// Picks the Russian plural form agreeing with `count`.
pub fn russian_form<'a>(count: usize, one: &'a str, few: &'a str, many: &'a str) -> (r: &'a str)
    ensures
        r@ == russian_form_of(count as nat, one@, few@, many@),
{
    let last_two = count % 100;
    let last = count % 10;
    if 11 <= last_two && last_two <= 14 {
        many
    } else if last == 1 {
        one
    } else if 2 <= last && last <= 4 {
        few
    } else {
        many
    }
}

/// `"{count} {form}"` with the agreeing plural form.
pub fn russian_count(count: usize, one: &str, few: &str, many: &str) -> (r: String)
    ensures
        r@ == dec(count as int) + " "@ + russian_form_of(count as nat, one@, few@, many@),
{
    let mut out = String::new();
    push_int(&mut out, count as i128);
    out.append(" ");
    out.append(russian_form(count, one, few, many));
    out
}

/// Russian yes/no.
pub open spec fn bool_ru_of(value: bool) -> Seq<char> {
    if value {
        "да"@
    } else {
        "нет"@
    }
}

/// `"да"` or `"нет"`.
pub fn bool_ru(value: bool) -> (r: &'static str)
    ensures
        r@ == bool_ru_of(value),
{
    if value {
        "да"
    } else {
        "нет"
    }
}

/// The Russian label of a scheduled job name.
pub open spec fn job_label_of(job: Seq<char>) -> Seq<char> {
    if job == "inbox"@ {
        "входящие сообщения"@
    } else if job == "orders"@ {
        "заказы"@
    } else if job == "stats"@ {
        "статистика"@
    } else if job == "digest"@ {
        "дайджест"@
    } else {
        "задача"@
    }
}

/// Russian label for a job name; unknown jobs are `"задача"`.
pub fn job_label(job: &str) -> (r: &'static str)
    ensures
        r@ == job_label_of(job@),
{
    if str_eq(job, "inbox") {
        "входящие сообщения"
    } else if str_eq(job, "orders") {
        "заказы"
    } else if str_eq(job, "stats") {
        "статистика"
    } else if str_eq(job, "digest") {
        "дайджест"
    } else {
        "задача"
    }
}

} // verus!

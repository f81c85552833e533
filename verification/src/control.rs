//! The service's decisions between I/O: polling intervals, reconnect
//! back-off, the schedule of the periodic jobs, command handling, failure
//! handling and the administrator's status and startup texts.
//!
//! Times are nanoseconds on the caller's monotonic clock; configured
//! intervals are whole seconds.
use vstd::prelude::*;

use crate::config::{Config, ConfigView};
use crate::kwork::api::{api_error_text, ApiError, ApiErrorView};
use crate::state::{StateStore, StoreView, StateView, stored_error};
use crate::text::{bool_ru, bool_ru_of, elapsed_text, format_elapsed, job_label, job_label_of, russian_count, russian_form_of, COMMAND_HELP};
use crate::textops::{dec, int_text, str_eq};

verus! {

/// Nanoseconds in a second.
pub const NANOS_PER_SEC: u128 = 1_000_000_000;

/// Inbox polling speeds up below this idle time (seconds).
pub const ACTIVE_IDLE_SECS: u64 = 900;

/// Inbox polling slows down beyond this idle time (seconds).
pub const IDLE_SECS: u64 = 7200;

/// Ceiling of the reconnect back-off (seconds).
pub const MAX_RECONNECT_SECS: u64 = 300;

/// First reconnect delay (seconds).
pub const FIRST_RECONNECT_SECS: u64 = 2;

/// Delay before a failed digest is tried again (seconds).
pub const DIGEST_RETRY_SECS: u64 = 300;

// ---------------------------------------------------------------------------
// Intervals
// ---------------------------------------------------------------------------

/// The inbox polling interval after `idle_nanos` without activity: the short
/// one while recently active, the long one after a long idle time, the base
/// one otherwise.
pub open spec fn inbox_interval_of(c: ConfigView, idle_nanos: int) -> u64 {
    if idle_nanos < ACTIVE_IDLE_SECS * NANOS_PER_SEC {
        c.message_check_min
    } else if idle_nanos > IDLE_SECS * NANOS_PER_SEC {
        c.message_check_max
    } else {
        c.message_check_interval
    }
}

/// The inbox polling interval (seconds) after `idle_nanos` without activity.
pub fn adaptive_inbox_interval(config: &Config, idle_nanos: u128) -> (r: u64)
    ensures
        r == inbox_interval_of(config@, idle_nanos as int),
{
    if idle_nanos < (ACTIVE_IDLE_SECS as u128) * NANOS_PER_SEC {
        config.message_check_min
    } else if idle_nanos > (IDLE_SECS as u128) * NANOS_PER_SEC {
        config.message_check_max
    } else {
        config.message_check_interval
    }
}

/// The next reconnect delay: twice the current one, at most five minutes.
pub open spec fn next_delay_of(current: int) -> int {
    if 2 * current < MAX_RECONNECT_SECS {
        2 * current
    } else {
        MAX_RECONNECT_SECS as int
    }
}

/// Doubles the reconnect delay (seconds), capped at five minutes.
pub fn next_reconnect_delay(current: u64) -> (r: u64)
    ensures
        r == next_delay_of(current as int),
{
    if current < MAX_RECONNECT_SECS / 2 {
        current * 2
    } else {
        MAX_RECONNECT_SECS
    }
}

// ---------------------------------------------------------------------------
// The schedule
// ---------------------------------------------------------------------------

/// Due times of the periodic jobs and the reconnect state, in nanoseconds.
#[derive(Debug)]
pub struct Schedule {
    pub next_inbox: u128,
    pub next_stats: u128,
    pub next_orders: u128,
    pub next_digest: u128,
    pub last_activity: u128,
    pub next_reconnect: u128,
    /// Seconds.
    pub reconnect_delay: u64,
}

/// `now` plus a whole number of seconds.
pub open spec fn after_secs(now: u128, secs: u64) -> u128 {
    (now + secs * NANOS_PER_SEC) as u128
}

/// Times at which `after_secs` cannot overflow.
pub open spec fn time_ok(now: u128) -> bool {
    now <= u128::MAX - (u64::MAX as u128) * NANOS_PER_SEC
}

fn after(now: u128, secs: u64) -> (r: u128)
    requires
        time_ok(now),
    ensures
        r == after_secs(now, secs),
{
    proof {
        assert(secs * NANOS_PER_SEC <= (u64::MAX as u128) * NANOS_PER_SEC) by (nonlinear_arith)
            requires
                secs <= u64::MAX,
        ;
    }
    now + (secs as u128) * NANOS_PER_SEC
}

/// The digest interval after a digest attempt: the configured one after a
/// delivery, a short retry otherwise.
pub open spec fn digest_wait(c: ConfigView, delivered: bool) -> u64 {
    if delivered {
        c.summary_interval
    } else {
        DIGEST_RETRY_SECS
    }
}

/// How a scheduled digest went.
#[derive(Debug)]
pub enum DigestOutcome {
    /// Delivered.
    Delivered,
    /// Built but not delivered, or not built.
    Failed,
    /// Suppressed by quiet hours.
    Quiet,
}

impl Schedule {
    /// The schedule when the service starts at `now`: each job one interval
    /// away (the digest sooner when the first digest was not delivered), the
    /// first reconnect two seconds away.
    pub fn start(config: &Config, now: u128, digest_delivered: bool) -> (r: Schedule)
        requires
            time_ok(now),
        ensures
            r == (Schedule {
                next_inbox: after_secs(now, config.message_check_interval),
                next_stats: after_secs(now, config.stats_check_interval),
                next_orders: after_secs(now, config.orders_check_interval),
                next_digest: after_secs(now, digest_wait(config@, digest_delivered)),
                last_activity: now,
                next_reconnect: after_secs(now, FIRST_RECONNECT_SECS),
                reconnect_delay: FIRST_RECONNECT_SECS,
            }),
    {
        let wait = if digest_delivered {
            config.summary_interval
        } else {
            DIGEST_RETRY_SECS
        };
        Schedule {
            next_inbox: after(now, config.message_check_interval),
            next_stats: after(now, config.stats_check_interval),
            next_orders: after(now, config.orders_check_interval),
            next_digest: after(now, wait),
            last_activity: now,
            next_reconnect: after(now, FIRST_RECONNECT_SECS),
            reconnect_delay: FIRST_RECONNECT_SECS,
        }
    }

    /// A reconnect attempt is due.
    pub fn reconnect_due(&self, now: u128) -> (r: bool)
        ensures
            r == (now >= self.next_reconnect),
    {
        now >= self.next_reconnect
    }

    /// The connection came back at `now`: the digest is rescheduled as after
    /// a digest attempt, and the back-off starts over.
    pub fn reconnected(&mut self, config: &Config, now: u128, digest_delivered: bool)
        requires
            time_ok(now),
        ensures
            *final(self) == (Schedule {
                next_digest: after_secs(now, digest_wait(config@, digest_delivered)),
                reconnect_delay: FIRST_RECONNECT_SECS,
                ..*old(self)
            }),
    {
        let wait = if digest_delivered {
            config.summary_interval
        } else {
            DIGEST_RETRY_SECS
        };
        self.next_digest = after(now, wait);
        self.reconnect_delay = FIRST_RECONNECT_SECS;
    }

    /// A reconnect attempt failed at `now`: the delay doubles (up to five
    /// minutes) and the next attempt waits that long.
    pub fn reconnect_failed(&mut self, now: u128)
        requires
            time_ok(now),
        ensures
            final(self).reconnect_delay == next_delay_of(old(self).reconnect_delay as int),
            *final(self) == (Schedule {
                reconnect_delay: final(self).reconnect_delay,
                next_reconnect: after_secs(now, final(self).reconnect_delay),
                ..*old(self)
            }),
    {
        self.reconnect_delay = next_reconnect_delay(self.reconnect_delay);
        self.next_reconnect = after(now, self.reconnect_delay);
    }

    /// The connection was lost at `now`: reconnecting starts in two seconds.
    pub fn disconnected(&mut self, now: u128)
        requires
            time_ok(now),
        ensures
            *final(self) == (Schedule {
                reconnect_delay: FIRST_RECONNECT_SECS,
                next_reconnect: after_secs(now, FIRST_RECONNECT_SECS),
                ..*old(self)
            }),
    {
        self.reconnect_delay = FIRST_RECONNECT_SECS;
        self.next_reconnect = after(now, FIRST_RECONNECT_SECS);
    }

    /// An inbox run ended at `now` having sent `sent` notices: activity is
    /// noted when something was sent, and the next run waits the adaptive
    /// interval for the idle time since the last activity.
    pub fn inbox_ran(&mut self, config: &Config, now: u128, sent: usize)
        requires
            time_ok(now),
            old(self).last_activity <= now,
        ensures
            final(self).last_activity == (if sent > 0 {
                now
            } else {
                old(self).last_activity
            }),
            *final(self) == (Schedule {
                last_activity: final(self).last_activity,
                next_inbox: after_secs(
                    now,
                    inbox_interval_of(config@, now - final(self).last_activity),
                ),
                ..*old(self)
            }),
    {
        if sent > 0 {
            self.last_activity = now;
        }
        let interval = adaptive_inbox_interval(config, now - self.last_activity);
        self.next_inbox = after(now, interval);
    }

    /// An orders run ended at `now` having sent `sent` notices.
    pub fn orders_ran(&mut self, config: &Config, now: u128, sent: usize)
        requires
            time_ok(now),
        ensures
            *final(self) == (Schedule {
                last_activity: if sent > 0 {
                    now
                } else {
                    old(self).last_activity
                },
                next_orders: after_secs(now, config.orders_check_interval),
                ..*old(self)
            }),
    {
        if sent > 0 {
            self.last_activity = now;
        }
        self.next_orders = after(now, config.orders_check_interval);
    }

    /// A statistics run ended at `now`.
    pub fn stats_ran(&mut self, config: &Config, now: u128)
        requires
            time_ok(now),
        ensures
            *final(self) == (Schedule {
                next_stats: after_secs(now, config.stats_check_interval),
                ..*old(self)
            }),
    {
        self.next_stats = after(now, config.stats_check_interval);
    }

    /// A scheduled digest was handled at `now`: after a delivery or during
    /// quiet hours the next one is an interval away, after a failure five
    /// minutes away.
    pub fn digest_ran(&mut self, config: &Config, now: u128, outcome: DigestOutcome)
        requires
            time_ok(now),
        ensures
            *final(self) == (Schedule {
                next_digest: after_secs(
                    now,
                    if outcome is Failed {
                        DIGEST_RETRY_SECS
                    } else {
                        config.summary_interval
                    },
                ),
                ..*old(self)
            }),
    {
        let wait = match outcome {
            DigestOutcome::Failed => DIGEST_RETRY_SECS,
            _ => config.summary_interval,
        };
        self.next_digest = after(now, wait);
    }
}

} // verus!

verus! {

// ---------------------------------------------------------------------------
// Quiet hours
// ---------------------------------------------------------------------------

/// Whether a notice goes out now: always outside quiet hours; during quiet
/// hours only inbox notices, and only when they are allowed then.  A notice
/// held back counts as handled.
pub fn deliver_now(config: &Config, quiet: bool, inbox: bool) -> (r: bool)
    ensures
        r == (!quiet || (inbox && config.quiet_allow_inbox)),
{
    !quiet || (inbox && config.quiet_allow_inbox)
}

// ---------------------------------------------------------------------------
// Failures
// ---------------------------------------------------------------------------

/// `"{context}: {error}"`.
pub fn failure_note(context: &str, err: &ApiError) -> (r: String)
    ensures
        r@ == context@ + ": "@ + api_error_text(err@),
{
    let mut t = context.to_owned();
    t.append(": ");
    let m = err.message();
    t.append(m.as_str());
    t
}

/// The alert for an authentication failure of a job.
pub open spec fn auth_alert(job: Seq<char>, e: ApiErrorView) -> Seq<char> {
    "⚠️ Ошибка авторизации Kwork ("@ + job_label_of(job) + "): "@ + api_error_text(e)
}

/// Records a failed job at `now` (`"{job}: {error}"` as the last error).
/// Returns the alert to send (for authentication failures) and whether the
/// connection is to be dropped (authentication and transport failures).
pub fn record_failure(state: &mut StateStore, job: &str, err: &ApiError, now: u64) -> (r: (Option<String>, bool))
    ensures
        final(state)@ == (StoreView {
            data: StateView {
                last_error: Some(stored_error(job@ + ": "@ + api_error_text(err@), now)),
                ..old(state)@.data
            },
            dirty: true,
            ..old(state)@
        }),
        crate::textops::opt_string_view(r.0) == (if err@ is Auth {
            Some(auth_alert(job@, err@))
        } else {
            None
        }),
        r.1 == (err@ is Auth || err@ is Http),
{
    let note = failure_note(job, err);
    state.touch_error_at(note.as_str(), now);
    let alert = if err.is_auth() {
        let mut t = "⚠️ Ошибка авторизации Kwork (".to_owned();
        t.append(job_label(job));
        t.append("): ");
        let m = err.message();
        t.append(m.as_str());
        Some(t)
    } else {
        None
    };
    (alert, err.disconnects())
}

/// The reply to an administrator's command whose job failed.
pub fn command_error_text(job: &str, err: &ApiError) -> (r: String)
    ensures
        r@ == "⚠️ Ошибка ("@ + job_label_of(job@) + "): "@ + api_error_text(err@),
{
    let mut t = "⚠️ Ошибка (".to_owned();
    t.append(job_label(job));
    t.append("): ");
    let m = err.message();
    t.append(m.as_str());
    t
}

/// The alert when the first connection to Kwork fails.
pub fn startup_alert_text(err: &ApiError) -> (r: String)
    ensures
        r@ == "⚠️ Ошибка авторизации Kwork при запуске: "@ + api_error_text(err@),
{
    let mut t = "⚠️ Ошибка авторизации Kwork при запуске: ".to_owned();
    let m = err.message();
    t.append(m.as_str());
    t
}

/// The failure note of an undelivered digest.
pub open spec fn digest_undelivered_note() -> Seq<char> {
    "digest: Telegram delivery failed; retry scheduled"@
}

/// Records a digest attempt at `now`: a delivered digest is a successful
/// `digest` run, an undelivered one a failure to retry.
pub fn record_digest(state: &mut StateStore, delivered: bool, now: u64)
    ensures
        delivered ==> final(state)@ == (StoreView {
            data: StateView { health: old(state)@.data.health.insert("digest"@, now), ..old(state)@.data },
            dirty: true,
            ..old(state)@
        }),
        !delivered ==> final(state)@ == (StoreView {
            data: StateView {
                last_error: Some(stored_error(digest_undelivered_note(), now)),
                ..old(state)@.data
            },
            dirty: true,
            ..old(state)@
        }),
{
    if delivered {
        state.touch_ok_at("digest", now);
    } else {
        state.touch_error_at("digest: Telegram delivery failed; retry scheduled", now);
    }
}

// ---------------------------------------------------------------------------
// Commands
// ---------------------------------------------------------------------------

/// A job that a command can start.
#[derive(Debug)]
pub enum Job {
    Inbox,
    Orders,
    Stats,
}

/// The job's name, as used for health records and failure notes.
pub open spec fn job_name_of(job: Job) -> Seq<char> {
    match job {
        Job::Inbox => "inbox"@,
        Job::Orders => "orders"@,
        Job::Stats => "stats"@,
    }
}

impl Job {
    pub fn name(&self) -> (r: &'static str)
        ensures
            r@ == job_name_of(*self),
    {
        match self {
            Job::Inbox => "inbox",
            Job::Orders => "orders",
            Job::Stats => "stats",
        }
    }
}

/// What to do for an administrator's command.
#[derive(Debug)]
pub enum CommandPlan {
    /// Unknown command: nothing.
    Nothing,
    /// Send this reply.
    Reply(String),
    /// Send the progress note, then run the job.
    Run(Job, String),
    /// Send the kwork summary.
    Summary,
    /// Send the status text.
    Status,
}

pub enum PlanView {
    Nothing,
    Reply(Seq<char>),
    Run(Job, Seq<char>),
    Summary,
    Status,
}

impl View for CommandPlan {
    type V = PlanView;

    open spec fn view(&self) -> PlanView {
        match self {
            CommandPlan::Nothing => PlanView::Nothing,
            CommandPlan::Reply(s) => PlanView::Reply(s@),
            CommandPlan::Run(j, s) => PlanView::Run(*j, s@),
            CommandPlan::Summary => PlanView::Summary,
            CommandPlan::Status => PlanView::Status,
        }
    }
}

/// The reply to a job command while Kwork is disconnected.
pub open spec fn disconnected_reply() -> Seq<char> {
    "⚠️ Kwork отключён; повторное подключение выполняется в фоне."@
}

/// The plan for a command: job commands are refused while disconnected;
/// `start` gets the help; `inbox`, `orders` and `stats` run their job after
/// a progress note; `summary` and `status` send their texts; anything else
/// is ignored.
pub open spec fn plan_of(command: Seq<char>, connected: bool) -> PlanView {
    if (command == "inbox"@ || command == "orders"@ || command == "stats"@) && !connected {
        PlanView::Reply(disconnected_reply())
    } else if command == "start"@ {
        PlanView::Reply(COMMAND_HELP@)
    } else if command == "inbox"@ {
        PlanView::Run(Job::Inbox, "⏳ Проверяю входящие сообщения…"@)
    } else if command == "orders"@ {
        PlanView::Run(Job::Orders, "⏳ Проверяю заказы…"@)
    } else if command == "stats"@ {
        PlanView::Run(Job::Stats, "⏳ Загружаю статистику Kwork…"@)
    } else if command == "summary"@ {
        PlanView::Summary
    } else if command == "status"@ {
        PlanView::Status
    } else {
        PlanView::Nothing
    }
}

/// Decides what to do for an administrator's command.
pub fn plan_command(command: &str, connected: bool) -> (r: CommandPlan)
    ensures
        r@ == plan_of(command@, connected),
{
    let is_job = str_eq(command, "inbox") || str_eq(command, "orders") || str_eq(command, "stats");
    if is_job && !connected {
        CommandPlan::Reply("⚠️ Kwork отключён; повторное подключение выполняется в фоне.".to_owned())
    } else if str_eq(command, "start") {
        CommandPlan::Reply(COMMAND_HELP.to_owned())
    } else if str_eq(command, "inbox") {
        CommandPlan::Run(Job::Inbox, "⏳ Проверяю входящие сообщения…".to_owned())
    } else if str_eq(command, "orders") {
        CommandPlan::Run(Job::Orders, "⏳ Проверяю заказы…".to_owned())
    } else if str_eq(command, "stats") {
        CommandPlan::Run(Job::Stats, "⏳ Загружаю статистику Kwork…".to_owned())
    } else if str_eq(command, "summary") {
        CommandPlan::Summary
    } else if str_eq(command, "status") {
        CommandPlan::Status
    } else {
        CommandPlan::Nothing
    }
}

/// The reply after a command's job succeeded having sent `count` notices;
/// `None` for the statistics job, which is answered with the summary.
pub open spec fn job_done_of(job: Job, count: nat) -> Option<Seq<char>> {
    match job {
        Job::Inbox => Some(
            if count == 0 {
                "✅ Новых непрочитанных сообщений нет."@
            } else {
                "✅ Отправлено: "@ + dec(count as int) + " "@ + russian_form_of(
                    count,
                    "уведомление"@,
                    "уведомления"@,
                    "уведомлений"@,
                ) + "."@
            },
        ),
        Job::Orders => Some(
            if count == 0 {
                "✅ Изменений в заказах нет."@
            } else {
                "✅ "@ + dec(count as int) + " "@ + russian_form_of(
                    count,
                    "изменение заказа"@,
                    "изменения заказа"@,
                    "изменений заказов"@,
                ) + "."@
            },
        ),
        Job::Stats => None,
    }
}

/// The reply after a command's job succeeded (see `job_done_of`).
pub fn job_done_text(job: &Job, count: usize) -> (r: Option<String>)
    ensures
        crate::textops::opt_string_view(r) == job_done_of(*job, count as nat),
{
    match job {
        Job::Inbox => {
            if count == 0 {
                Some("✅ Новых непрочитанных сообщений нет.".to_owned())
            } else {
                let mut t = "✅ Отправлено: ".to_owned();
                let c = russian_count(count, "уведомление", "уведомления", "уведомлений");
                t.append(c.as_str());
                t.append(".");
                Some(t)
            }
        },
        Job::Orders => {
            if count == 0 {
                Some("✅ Изменений в заказах нет.".to_owned())
            } else {
                let mut t = "✅ ".to_owned();
                let c = russian_count(count, "изменение заказа", "изменения заказа", "изменений заказов");
                t.append(c.as_str());
                t.append(".");
                Some(t)
            }
        },
        Job::Stats => None,
    }
}

// ---------------------------------------------------------------------------
// Texts for the administrator
// ---------------------------------------------------------------------------

/// The token line: hours left (negative counts as none), or a placeholder
/// without a connection.
pub open spec fn token_text(ttl: Option<i64>) -> Seq<char> {
    match ttl {
        Some(t) => "~"@ + dec((if t > 0 {
            t as int
        } else {
            0
        }) / 3600) + " ч."@,
        None => "нет подключения"@,
    }
}

/// When a job last succeeded, relative to `now`, or "never".
pub open spec fn last_run_text(store: StoreView, job: Seq<char>, now: u64) -> Seq<char> {
    if store.data.health.contains_key(job) {
        elapsed_text(store.data.health[job], now)
    } else {
        "никогда"@
    }
}

/// The status text: administrator chat, quiet-hours flag, token lifetime,
/// state file, the last success of each job, and the last error.
pub open spec fn status_of(admin_id: i64, quiet: bool, ttl: Option<i64>, store: StoreView, now: u64) -> Seq<char> {
    let error = match store.data.last_error {
        Some(e) => e.message,
        None => "—"@,
    };
    "🩺 Состояние\nчат администратора: "@ + dec(admin_id as int) + "\nтихие часы сейчас: "@ + bool_ru_of(quiet)
        + "\nсрок действия токена: "@ + token_text(ttl) + "\nфайл состояния: "@ + store.path
        + "\nвходящие: "@ + last_run_text(store, "inbox"@, now) + "\nстатистика: "@ + last_run_text(
        store,
        "stats"@,
        now,
    ) + "\nзаказы: "@ + last_run_text(store, "orders"@, now) + "\nдайджест: "@ + last_run_text(
        store,
        "digest"@,
        now,
    ) + "\nпоследняя ошибка: "@ + error
}

fn push_last_run(t: &mut String, state: &StateStore, job: &str, now: u64)
    ensures
        final(t)@ == old(t)@ + last_run_text(state@, job@, now),
{
    match state.last_ok(job) {
        Some(at) => {
            let e = format_elapsed(at, now);
            t.append(e.as_str());
        },
        None => {
            t.append("никогда");
        },
    }
}

/// The status text (see `status_of`); `ttl` is the token's remaining
/// lifetime in seconds, `None` without a connection.
pub fn status_text(admin_id: i64, quiet: bool, ttl: Option<i64>, state: &StateStore, now: u64) -> (r: String)
    ensures
        r@ == status_of(admin_id, quiet, ttl, state@, now),
{
    let mut t = "🩺 Состояние\nчат администратора: ".to_owned();
    let a = int_text(admin_id as i128);
    t.append(a.as_str());
    t.append("\nтихие часы сейчас: ");
    t.append(bool_ru(quiet));
    t.append("\nсрок действия токена: ");
    match ttl {
        Some(secs) => {
            let left: i64 = if secs > 0 {
                secs
            } else {
                0
            };
            t.append("~");
            let h = int_text((left / 3600) as i128);
            t.append(h.as_str());
            t.append(" ч.");
        },
        None => {
            t.append("нет подключения");
        },
    }
    t.append("\nфайл состояния: ");
    t.append(state.path());
    t.append("\nвходящие: ");
    push_last_run(&mut t, state, "inbox", now);
    t.append("\nстатистика: ");
    push_last_run(&mut t, state, "stats", now);
    t.append("\nзаказы: ");
    push_last_run(&mut t, state, "orders", now);
    t.append("\nдайджест: ");
    push_last_run(&mut t, state, "digest", now);
    t.append("\nпоследняя ошибка: ");
    match state.last_error() {
        Some(e) => {
            t.append(e.message.as_str());
        },
        None => {
            t.append("—");
        },
    }
    proof {
        assert(t@ =~= status_of(admin_id, quiet, ttl, state@, now));
    }
    t
}

/// The startup announcement: the inbox interval range and base, the other
/// intervals, and the commands.
pub open spec fn startup_of(c: ConfigView) -> Seq<char> {
    "✅ Kwork Parser запущен\n📩 входящие: адаптивный интервал "@ + dec((c.message_check_min / 60) as int) + "–"@
        + dec((c.message_check_max / 60) as int) + " мин. (база "@ + dec((c.message_check_interval / 60) as int)
        + " мин.)\n📊 статистика: интервал "@ + dec((c.stats_check_interval / 60) as int)
        + " мин.\n📦 заказы: интервал "@ + dec((c.orders_check_interval / 60) as int)
        + " мин.\n📋 дайджест: интервал "@ + dec((c.summary_interval / 3600) as int)
        + " ч.\nКоманды: /stats /inbox /orders /summary /status /start"@
}

fn push_u64(t: &mut String, v: u64)
    ensures
        final(t)@ == old(t)@ + dec(v as int),
{
    let s = int_text(v as i128);
    t.append(s.as_str());
}

/// The startup announcement (see `startup_of`).
pub fn startup_text(config: &Config) -> (r: String)
    ensures
        r@ == startup_of(config@),
{
    let mut t = "✅ Kwork Parser запущен\n📩 входящие: адаптивный интервал ".to_owned();
    push_u64(&mut t, config.message_check_min / 60);
    t.append("–");
    push_u64(&mut t, config.message_check_max / 60);
    t.append(" мин. (база ");
    push_u64(&mut t, config.message_check_interval / 60);
    t.append(" мин.)\n📊 статистика: интервал ");
    push_u64(&mut t, config.stats_check_interval / 60);
    t.append(" мин.\n📦 заказы: интервал ");
    push_u64(&mut t, config.orders_check_interval / 60);
    t.append(" мин.\n📋 дайджест: интервал ");
    push_u64(&mut t, config.summary_interval / 3600);
    t.append(" ч.\nКоманды: /stats /inbox /orders /summary /status /start");
    proof {
        assert(t@ =~= startup_of(config@));
    }
    t
}

} // verus!

verus! {

// ---------------------------------------------------------------------------
// The first runs after connecting
// ---------------------------------------------------------------------------

/// A step of the runs made right after connecting to Kwork.
#[derive(Debug)]
pub enum StartupStep {
    Inbox,
    Orders,
    Stats,
    Digest,
}

/// What follows a startup step.
#[derive(Debug)]
pub enum StartupAction {
    /// Run this step next.
    Run(StartupStep),
    /// The sequence is over: whether the connection is still good, and
    /// whether the digest went out (or was not attempted).
    Finish(bool, bool),
}

/// The startup sequence runs inbox, orders and statistics in turn, then the
/// digest unless it is quiet.  A job failure that drops the connection ends
/// it at once.  For the digest step, `delivered` says whether the built
/// digest was delivered; a digest that could not be built counts as
/// delivered and invalidates the connection when its failure drops it.
pub open spec fn startup_next_of(step: StartupStep, quiet: bool, disconnect: bool, delivered: bool) -> StartupAction {
    match step {
        StartupStep::Inbox => if disconnect {
            StartupAction::Finish(false, true)
        } else {
            StartupAction::Run(StartupStep::Orders)
        },
        StartupStep::Orders => if disconnect {
            StartupAction::Finish(false, true)
        } else {
            StartupAction::Run(StartupStep::Stats)
        },
        StartupStep::Stats => if disconnect {
            StartupAction::Finish(false, true)
        } else if quiet {
            StartupAction::Finish(true, true)
        } else {
            StartupAction::Run(StartupStep::Digest)
        },
        StartupStep::Digest => StartupAction::Finish(!disconnect, delivered),
    }
}

/// Decides what follows a startup step (see `startup_next_of`).
pub fn startup_next(step: StartupStep, quiet: bool, disconnect: bool, delivered: bool) -> (r: StartupAction)
    ensures
        r == startup_next_of(step, quiet, disconnect, delivered),
{
    match step {
        StartupStep::Inbox => if disconnect {
            StartupAction::Finish(false, true)
        } else {
            StartupAction::Run(StartupStep::Orders)
        },
        StartupStep::Orders => if disconnect {
            StartupAction::Finish(false, true)
        } else {
            StartupAction::Run(StartupStep::Stats)
        },
        StartupStep::Stats => if disconnect {
            StartupAction::Finish(false, true)
        } else if quiet {
            StartupAction::Finish(true, true)
        } else {
            StartupAction::Run(StartupStep::Digest)
        },
        StartupStep::Digest => StartupAction::Finish(!disconnect, delivered),
    }
}

} // verus!

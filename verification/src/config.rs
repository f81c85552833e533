//! Runtime configuration: validation of the environment values, and the
//! quiet-hours window.
use vstd::prelude::*;

use crate::textops::{
    count_char, first_index, first_index_exec, lemma_first_index_props,
    char_vec, dec, eq_ignore_ascii_case, parse_i64_range, parse_signed, parse_unsigned, parse_unsigned_range,
    push_int, str_eq, str_eq_ignore_ascii_case, string_of, trim, trim_range,
};

verus! {

/// What `format!("{s:?}")` renders for a string: the Rust debug quoting.
pub uninterp spec fn str_debug(s: Seq<char>) -> Seq<char>;

/// `format!("{s:?}")` (the `Debug` rendering of `str`).
#[verifier::external_body]
fn debug_quoted(s: &str) -> (r: String)
    ensures
        r@ == str_debug(s@),
{
    format!("{s:?}")
}

/// Validated settings.  Intervals are whole seconds.
#[derive(Debug)]
pub struct Config {
    pub telegram_bot_token: String,
    pub telegram_admin_id: i64,
    pub message_check_interval: u64,
    pub message_check_min: u64,
    pub message_check_max: u64,
    pub stats_check_interval: u64,
    pub orders_check_interval: u64,
    pub summary_interval: u64,
    pub state_path: String,
    pub kwork_login: String,
    pub kwork_password: String,
    pub token_path: String,
    /// Local hour [0,23], inclusive start of the quiet window.
    pub quiet_start: Option<u8>,
    pub quiet_end: Option<u8>,
    /// Still deliver inbox notifications during quiet hours.
    pub quiet_allow_inbox: bool,
}

/// The settings as mathematical values.
pub struct ConfigView {
    pub telegram_bot_token: Seq<char>,
    pub telegram_admin_id: i64,
    pub message_check_interval: u64,
    pub message_check_min: u64,
    pub message_check_max: u64,
    pub stats_check_interval: u64,
    pub orders_check_interval: u64,
    pub summary_interval: u64,
    pub state_path: Seq<char>,
    pub kwork_login: Seq<char>,
    pub kwork_password: Seq<char>,
    pub token_path: Seq<char>,
    pub quiet_start: Option<u8>,
    pub quiet_end: Option<u8>,
    pub quiet_allow_inbox: bool,
}

impl View for Config {
    type V = ConfigView;

    open spec fn view(&self) -> ConfigView {
        ConfigView {
            telegram_bot_token: self.telegram_bot_token@,
            telegram_admin_id: self.telegram_admin_id,
            message_check_interval: self.message_check_interval,
            message_check_min: self.message_check_min,
            message_check_max: self.message_check_max,
            stats_check_interval: self.stats_check_interval,
            orders_check_interval: self.orders_check_interval,
            summary_interval: self.summary_interval,
            state_path: self.state_path@,
            kwork_login: self.kwork_login@,
            kwork_password: self.kwork_password@,
            token_path: self.token_path@,
            quiet_start: self.quiet_start,
            quiet_end: self.quiet_end,
            quiet_allow_inbox: self.quiet_allow_inbox,
        }
    }
}

/// The environment variables that configure the service; `None` where a
/// variable is unset (or not valid Unicode).
#[derive(Debug)]
pub struct EnvVars {
    pub telegram_bot_token: Option<String>,
    pub telegram_admin_id: Option<String>,
    pub message_check_interval: Option<String>,
    pub message_check_min: Option<String>,
    pub message_check_max: Option<String>,
    pub stats_check_interval: Option<String>,
    pub orders_check_interval: Option<String>,
    pub summary_interval_hours: Option<String>,
    pub kwork_login: Option<String>,
    pub kwork_password: Option<String>,
    pub quiet_hours: Option<String>,
    pub quiet_allow_inbox: Option<String>,
    pub state_path: Option<String>,
    pub kwork_token_path: Option<String>,
}

pub open spec fn opt_view(v: Option<String>) -> Option<Seq<char>> {
    match v {
        Some(s) => Some(s@),
        None => None,
    }
}

/// A required variable: present, and non-empty once trimmed.
pub open spec fn required_spec(key: Seq<char>, v: Option<Seq<char>>) -> Result<Seq<char>, Seq<char>> {
    match v {
        None => Err(key + " is required"@),
        Some(s) => if trim(s).len() == 0 {
            Err(key + " is empty"@)
        } else {
            Ok(trim(s))
        },
    }
}

/// A bounded positive integer with a default for an unset or blank value.
pub open spec fn positive_spec(key: Seq<char>, v: Option<Seq<char>>, default: u64, max: u64) -> Result<
    u64,
    Seq<char>,
> {
    let parsed: Result<u64, Seq<char>> = match v {
        Some(s) => if trim(s).len() > 0 {
            match parse_unsigned(trim(s), u64::MAX as nat) {
                Some(n) => Ok(n as u64),
                None => Err(key + " must be a positive integer, got "@ + str_debug(s)),
            }
        } else {
            Ok(default)
        },
        None => Ok(default),
    };
    match parsed {
        Err(e) => Err(e),
        Ok(n) => if n == 0 || n > max {
            Err(key + " must be between 1 and "@ + dec(max as int))
        } else {
            Ok(n)
        },
    }
}

fn required(key: &str, v: &Option<String>) -> (r: Result<String, String>)
    ensures
        match r {
            Ok(s) => required_spec(key@, opt_view(*v)) == Ok::<Seq<char>, Seq<char>>(s@),
            Err(e) => required_spec(key@, opt_view(*v)) == Err::<Seq<char>, Seq<char>>(e@),
        },
{
    match v {
        None => {
            let mut e = key.to_owned();
            e.append(" is required");
            Err(e)
        },
        Some(s) => {
            let cs = char_vec(s.as_str());
            let (i, j) = trim_range(&cs, 0, cs.len());
            assert(cs@.subrange(0, cs@.len() as int) =~= cs@);
            if i == j {
                let mut e = key.to_owned();
                e.append(" is empty");
                Err(e)
            } else {
                Ok(string_of(&cs.as_slice()[i..j]))
            }
        },
    }
}

fn parse_positive(key: &str, v: &Option<String>, default: u64, max: u64) -> (r: Result<
    u64,
    String,
>)
    ensures
        match r {
            Ok(n) => positive_spec(key@, opt_view(*v), default, max) == Ok::<u64, Seq<char>>(n),
            Err(e) => positive_spec(key@, opt_view(*v), default, max) == Err::<u64, Seq<char>>(
                e@,
            ),
        },
{
    let value: u64 = match v {
        Some(s) => {
            let cs = char_vec(s.as_str());
            let (i, j) = trim_range(&cs, 0, cs.len());
            assert(cs@.subrange(0, cs@.len() as int) =~= cs@);
            if i < j {
                match parse_unsigned_range(&cs, i, j, u64::MAX) {
                    Some(n) => n,
                    None => {
                        let mut e = key.to_owned();
                        e.append(" must be a positive integer, got ");
                        e.append(debug_quoted(s.as_str()).as_str());
                        return Err(e);
                    },
                }
            } else {
                default
            }
        },
        None => default,
    };
    if value == 0 || value > max {
        let mut e = key.to_owned();
        e.append(" must be between 1 and ");
        push_int(&mut e, max as i128);
        return Err(e);
    }
    Ok(value)
}

/// One whole hour: `"H"` or `"H:00"`, 0–23.
pub open spec fn hour_spec(s: Seq<char>) -> Result<u8, Seq<char>> {
    let k = first_index(s, ':');
    let hour = s.take(k);
    let minutes = if k < s.len() {
        s.skip(k + 1)
    } else {
        "00"@
    };
    if minutes != "00"@ {
        Err("QUIET_HOURS supports whole hours only, got "@ + str_debug(s))
    } else {
        match parse_unsigned(hour, 255) {
            None => Err("invalid hour in QUIET_HOURS: "@ + str_debug(hour)),
            Some(h) => if h > 23 {
                Err("hour must be 0-23, got "@ + dec(h as int))
            } else {
                Ok(h as u8)
            },
        }
    }
}

/// `"22-8"` or `"22:00-08:00"` → start and end hours; blank → no window.
pub open spec fn quiet_hours_spec(raw: Seq<char>) -> Result<(Option<u8>, Option<u8>), Seq<char>> {
    let t = trim(raw);
    if t.len() == 0 {
        Ok((None, None))
    } else if count_char(t, '-') != 1 {
        Err("QUIET_HOURS must look like 22-8, got "@ + str_debug(t))
    } else {
        let k = first_index(t, '-');
        match hour_spec(trim(t.take(k))) {
            Err(e) => Err(e),
            Ok(start) => match hour_spec(trim(t.skip(k + 1))) {
                Err(e) => Err(e),
                Ok(end) => Ok((Some(start), Some(end))),
            },
        }
    }
}

fn hour_range(s: &[char], lo: usize, hi: usize) -> (r: Result<u8, String>)
    requires
        lo <= hi <= s@.len(),
    ensures
        match r {
            Ok(h) => hour_spec(s@.subrange(lo as int, hi as int)) == Ok::<u8, Seq<char>>(h),
            Err(e) => hour_spec(s@.subrange(lo as int, hi as int)) == Err::<u8, Seq<char>>(e@),
        },
{
    let ghost t = s@.subrange(lo as int, hi as int);
    let k = first_index_exec(s, lo, hi, ':');
    assert(t.take(k - lo) =~= s@.subrange(lo as int, k as int));
    let minutes_ok = if k < hi {
        assert(t.skip(k - lo + 1) =~= s@.subrange(k + 1, hi as int));
        let rest = &s[k + 1..hi];
        assert(rest@ =~= s@.subrange(k + 1, hi as int));
        proof {
            reveal_strlit("00");
        }
        rest.len() == 2 && rest[0] == '0' && rest[1] == '0'
    } else {
        true
    };
    assert(minutes_ok == ((if k - lo < t.len() {
        t.skip(k - lo + 1)
    } else {
        "00"@
    }) == "00"@)) by {
        reveal_strlit("00");
        if k < hi {
            let m = t.skip(k - lo + 1);
            if minutes_ok {
                assert(m =~= "00"@);
            }
        }
    }
    if !minutes_ok {
        let mut e = "QUIET_HOURS supports whole hours only, got ".to_owned();
        let raw = string_of(&s[lo..hi]);
        e.append(debug_quoted(raw.as_str()).as_str());
        return Err(e);
    }
    match parse_unsigned_range(s, lo, k, 255) {
        None => {
            let mut e = "invalid hour in QUIET_HOURS: ".to_owned();
            let raw = string_of(&s[lo..k]);
            e.append(debug_quoted(raw.as_str()).as_str());
            Err(e)
        },
        Some(h) => {
            if h > 23 {
                let mut e = "hour must be 0-23, got ".to_owned();
                push_int(&mut e, h as i128);
                Err(e)
            } else {
                Ok(h as u8)
            }
        },
    }
}

/// Parses one whole local hour, `"H"` or `"H:00"`, in 0–23.
pub fn parse_hour(s: &str) -> (r: Result<u8, String>)
    ensures
        match r {
            Ok(h) => hour_spec(s@) == Ok::<u8, Seq<char>>(h),
            Err(e) => hour_spec(s@) == Err::<u8, Seq<char>>(e@),
        },
{
    let cs = char_vec(s);
    assert(cs@.subrange(0, cs@.len() as int) =~= cs@);
    hour_range(&cs, 0, cs.len())
}

/// Parses a quiet-hours window such as `22-8` or `22:00-08:00`; a blank
/// value means no quiet hours.
pub fn parse_quiet_hours(raw: &str) -> (r: Result<(Option<u8>, Option<u8>), String>)
    ensures
        match r {
            Ok(p) => quiet_hours_spec(raw@) == Ok::<(Option<u8>, Option<u8>), Seq<char>>(p),
            Err(e) => quiet_hours_spec(raw@) == Err::<(Option<u8>, Option<u8>), Seq<char>>(e@),
        },
{
    let cs = char_vec(raw);
    let (lo, hi) = trim_range(&cs, 0, cs.len());
    assert(cs@.subrange(0, cs@.len() as int) =~= cs@);
    let ghost t = cs@.subrange(lo as int, hi as int);
    if lo == hi {
        return Ok((None, None));
    }
    let mut count: usize = 0;
    let mut i = lo;
    while i < hi
        invariant
            lo <= i <= hi <= cs@.len(),
            count as nat == count_char(cs@.subrange(lo as int, i as int), '-'),
            count <= i - lo,
        decreases hi - i,
    {
        assert(cs@.subrange(lo as int, i + 1).drop_last() =~= cs@.subrange(lo as int, i as int));
        if cs[i] == '-' {
            count = count + 1;
        }
        i = i + 1;
    }
    if count != 1 {
        let mut e = "QUIET_HOURS must look like 22-8, got ".to_owned();
        let trimmed = string_of(&cs.as_slice()[lo..hi]);
        e.append(debug_quoted(trimmed.as_str()).as_str());
        return Err(e);
    }
    let k = first_index_exec(&cs, lo, hi, '-');
    assert(k < hi) by {
        if k == hi {
            lemma_first_index_props(t, '-');
            assert forall|m: int| lo <= m < hi implies cs@[m] != '-' by {
                assert(t[m - lo] == cs@[m]);
            }
            lemma_no_dash_count(cs@, lo as int, hi as int);
        }
    }
    let (a, b) = trim_range(&cs, lo, k);
    assert(t.take(k - lo) =~= cs@.subrange(lo as int, k as int));
    let start = match hour_range(&cs, a, b) {
        Ok(h) => h,
        Err(e) => return Err(e),
    };
    let (c, d) = trim_range(&cs, k + 1, hi);
    assert(t.skip(k - lo + 1) =~= cs@.subrange(k + 1, hi as int));
    let end = match hour_range(&cs, c, d) {
        Ok(h) => h,
        Err(e) => return Err(e),
    };
    Ok((Some(start), Some(end)))
}

proof fn lemma_no_dash_count(s: Seq<char>, lo: int, m: int)
    requires
        0 <= lo <= m <= s.len(),
        forall|k: int| lo <= k < m ==> s[k] != '-',
    ensures
        count_char(s.subrange(lo, m), '-') == 0,
    decreases m - lo,
{
    if m > lo {
        lemma_no_dash_count(s, lo, m - 1);
        assert(s.subrange(lo, m).drop_last() =~= s.subrange(lo, m - 1));
    }
}

/// Whether local `hour` lies in the window `[start, end)`, which wraps past
/// midnight when `start > end`; an empty window (`start == end`) never does.
pub open spec fn quiet_at(start: u8, end: u8, hour: u8) -> bool {
    if start == end {
        false
    } else if start < end {
        start <= hour && hour < end
    } else {
        hour >= start || hour < end
    }
}

/// Whether `hour` falls in the quiet window from `start` to `end`.
pub fn in_quiet_at(start: u8, end: u8, hour: u8) -> (r: bool)
    ensures
        r == quiet_at(start, end, hour),
{
    if start == end {
        return false;
    }
    if start < end {
        hour >= start && hour < end
    } else {
        hour >= start || hour < end
    }
}

/// Whether the local `hour` is inside the configured quiet hours; without a
/// configured window it never is.
pub fn in_quiet_hours(start: Option<u8>, end: Option<u8>, hour: u8) -> (r: bool)
    ensures
        r == match (start, end) {
            (Some(s), Some(e)) => quiet_at(s, e, hour),
            _ => false,
        },
{
    match (start, end) {
        (Some(s), Some(e)) => in_quiet_at(s, e, hour),
        _ => false,
    }
}


/// The environment values as mathematical values.
pub struct EnvView {
    pub telegram_bot_token: Option<Seq<char>>,
    pub telegram_admin_id: Option<Seq<char>>,
    pub message_check_interval: Option<Seq<char>>,
    pub message_check_min: Option<Seq<char>>,
    pub message_check_max: Option<Seq<char>>,
    pub stats_check_interval: Option<Seq<char>>,
    pub orders_check_interval: Option<Seq<char>>,
    pub summary_interval_hours: Option<Seq<char>>,
    pub kwork_login: Option<Seq<char>>,
    pub kwork_password: Option<Seq<char>>,
    pub quiet_hours: Option<Seq<char>>,
    pub quiet_allow_inbox: Option<Seq<char>>,
    pub state_path: Option<Seq<char>>,
    pub kwork_token_path: Option<Seq<char>>,
}

impl View for EnvVars {
    type V = EnvView;

    open spec fn view(&self) -> EnvView {
        EnvView {
            telegram_bot_token: opt_view(self.telegram_bot_token),
            telegram_admin_id: opt_view(self.telegram_admin_id),
            message_check_interval: opt_view(self.message_check_interval),
            message_check_min: opt_view(self.message_check_min),
            message_check_max: opt_view(self.message_check_max),
            stats_check_interval: opt_view(self.stats_check_interval),
            orders_check_interval: opt_view(self.orders_check_interval),
            summary_interval_hours: opt_view(self.summary_interval_hours),
            kwork_login: opt_view(self.kwork_login),
            kwork_password: opt_view(self.kwork_password),
            quiet_hours: opt_view(self.quiet_hours),
            quiet_allow_inbox: opt_view(self.quiet_allow_inbox),
            state_path: opt_view(self.state_path),
            kwork_token_path: opt_view(self.kwork_token_path),
        }
    }
}

/// `QUIET_ALLOW_INBOX`: `1`/`true` or `0`/`false` (any ASCII case); unset
/// means `true`.
pub open spec fn allow_inbox_spec(v: Option<Seq<char>>) -> Result<bool, Seq<char>> {
    match v {
        None => Ok(true),
        Some(s) => if s == "1"@ || eq_ignore_ascii_case(s, "true"@) {
            Ok(true)
        } else if s == "0"@ || eq_ignore_ascii_case(s, "false"@) {
            Ok(false)
        } else {
            Err("QUIET_ALLOW_INBOX must be true/false or 1/0, got "@ + str_debug(s))
        },
    }
}

/// The admin chat id: a non-zero `i64`.
pub open spec fn admin_id_spec(v: Option<Seq<char>>) -> Result<i64, Seq<char>> {
    match required_spec("TELEGRAM_ADMIN_ID"@, v) {
        Err(e) => Err(e),
        Ok(s) => match parse_signed(s, i64::MIN as int, i64::MAX as int) {
            None => Err("TELEGRAM_ADMIN_ID must be an integer"@),
            Some(id) => if id == 0 {
                Err("TELEGRAM_ADMIN_ID cannot be zero"@)
            } else {
                Ok(id as i64)
            },
        },
    }
}

/// The intervals, in minutes (inbox base/min/max, stats, orders) and hours
/// (digest), validated in the order the service reads them.
pub open spec fn intervals_spec(env: EnvView) -> Result<(u64, u64, u64, u64, u64, u64), Seq<char>> {
    match positive_spec("MESSAGE_CHECK_INTERVAL"@, env.message_check_interval, 3, 1440) {
        Err(e) => Err(e),
        Ok(mins) => match positive_spec("MESSAGE_CHECK_MIN"@, env.message_check_min, 1, 1440) {
            Err(e) => Err(e),
            Ok(min) => match positive_spec("MESSAGE_CHECK_MAX"@, env.message_check_max, 10, 1440) {
                Err(e) => Err(e),
                Ok(max) => if !(min <= mins && mins <= max) {
                    Err("inbox intervals must satisfy MIN <= INTERVAL <= MAX"@)
                } else {
                    match positive_spec("STATS_CHECK_INTERVAL"@, env.stats_check_interval, 60, 10080) {
                        Err(e) => Err(e),
                        Ok(stats) => match positive_spec(
                            "ORDERS_CHECK_INTERVAL"@,
                            env.orders_check_interval,
                            5,
                            10080,
                        ) {
                            Err(e) => Err(e),
                            Ok(orders) => match positive_spec(
                                "SUMMARY_INTERVAL_HOURS"@,
                                env.summary_interval_hours,
                                6,
                                168,
                            ) {
                                Err(e) => Err(e),
                                Ok(hours) => Ok((mins, min, max, stats, orders, hours)),
                            },
                        },
                    }
                },
            },
        },
    }
}

/// The configuration read from `env`, or the first validation error.
pub open spec fn config_spec(env: EnvView) -> Result<ConfigView, Seq<char>> {
    match required_spec("TELEGRAM_BOT_TOKEN"@, env.telegram_bot_token) {
        Err(e) => Err(e),
        Ok(token) => match admin_id_spec(env.telegram_admin_id) {
            Err(e) => Err(e),
            Ok(admin) => match intervals_spec(env) {
                Err(e) => Err(e),
                Ok((mins, min, max, stats, orders, hours)) => match required_spec(
                    "KWORK_LOGIN"@,
                    env.kwork_login,
                ) {
                    Err(e) => Err(e),
                    Ok(login) => match required_spec("KWORK_PASSWORD"@, env.kwork_password) {
                        Err(e) => Err(e),
                        Ok(password) => match quiet_hours_spec(
                            match env.quiet_hours {
                                Some(q) => q,
                                None => ""@,
                            },
                        ) {
                            Err(e) => Err(e),
                            Ok((qs, qe)) => match allow_inbox_spec(env.quiet_allow_inbox) {
                                Err(e) => Err(e),
                                Ok(allow) => Ok(
                                    ConfigView {
                                        telegram_bot_token: token,
                                        telegram_admin_id: admin,
                                        message_check_interval: (mins * 60) as u64,
                                        message_check_min: (min * 60) as u64,
                                        message_check_max: (max * 60) as u64,
                                        stats_check_interval: (stats * 60) as u64,
                                        orders_check_interval: (orders * 60) as u64,
                                        summary_interval: (hours * 3600) as u64,
                                        state_path: match env.state_path {
                                            Some(p) => p,
                                            None => "kwork-state.json"@,
                                        },
                                        kwork_login: login,
                                        kwork_password: password,
                                        token_path: match env.kwork_token_path {
                                            Some(p) => p,
                                            None => ".kwork-token.json"@,
                                        },
                                        quiet_start: qs,
                                        quiet_end: qe,
                                        quiet_allow_inbox: allow,
                                    },
                                ),
                            },
                        },
                    },
                },
            },
        },
    }
}

fn parse_allow_inbox(v: &Option<String>) -> (r: Result<bool, String>)
    ensures
        match r {
            Ok(b) => allow_inbox_spec(opt_view(*v)) == Ok::<bool, Seq<char>>(b),
            Err(e) => allow_inbox_spec(opt_view(*v)) == Err::<bool, Seq<char>>(e@),
        },
{
    match v {
        None => Ok(true),
        Some(s) => {
            if str_eq(s.as_str(), "1") || str_eq_ignore_ascii_case(s.as_str(), "true") {
                Ok(true)
            } else if str_eq(s.as_str(), "0") || str_eq_ignore_ascii_case(s.as_str(), "false") {
                Ok(false)
            } else {
                let mut e = "QUIET_ALLOW_INBOX must be true/false or 1/0, got ".to_owned();
                e.append(debug_quoted(s.as_str()).as_str());
                Err(e)
            }
        },
    }
}

fn parse_admin_id(v: &Option<String>) -> (r: Result<i64, String>)
    ensures
        match r {
            Ok(n) => admin_id_spec(opt_view(*v)) == Ok::<i64, Seq<char>>(n),
            Err(e) => admin_id_spec(opt_view(*v)) == Err::<i64, Seq<char>>(e@),
        },
{
    let s = match required("TELEGRAM_ADMIN_ID", v) {
        Ok(s) => s,
        Err(e) => return Err(e),
    };
    let cs = char_vec(s.as_str());
    assert(cs@.subrange(0, cs@.len() as int) =~= cs@);
    match parse_i64_range(&cs, 0, cs.len()) {
        None => Err("TELEGRAM_ADMIN_ID must be an integer".to_owned()),
        Some(id) => if id == 0 {
            Err("TELEGRAM_ADMIN_ID cannot be zero".to_owned())
        } else {
            Ok(id)
        },
    }
}

fn parse_intervals(env: &EnvVars) -> (r: Result<(u64, u64, u64, u64, u64, u64), String>)
    ensures
        match r {
            Ok(p) => intervals_spec(env@) == Ok::<(u64, u64, u64, u64, u64, u64), Seq<char>>(p),
            Err(e) => intervals_spec(env@) == Err::<(u64, u64, u64, u64, u64, u64), Seq<char>>(
                e@,
            ),
        },
{
    let mins = match parse_positive("MESSAGE_CHECK_INTERVAL", &env.message_check_interval, 3, 1440) {
        Ok(n) => n,
        Err(e) => return Err(e),
    };
    let min = match parse_positive("MESSAGE_CHECK_MIN", &env.message_check_min, 1, 1440) {
        Ok(n) => n,
        Err(e) => return Err(e),
    };
    let max = match parse_positive("MESSAGE_CHECK_MAX", &env.message_check_max, 10, 1440) {
        Ok(n) => n,
        Err(e) => return Err(e),
    };
    if !(min <= mins && mins <= max) {
        return Err("inbox intervals must satisfy MIN <= INTERVAL <= MAX".to_owned());
    }
    let stats = match parse_positive("STATS_CHECK_INTERVAL", &env.stats_check_interval, 60, 10080) {
        Ok(n) => n,
        Err(e) => return Err(e),
    };
    let orders = match parse_positive(
        "ORDERS_CHECK_INTERVAL",
        &env.orders_check_interval,
        5,
        10080,
    ) {
        Ok(n) => n,
        Err(e) => return Err(e),
    };
    let hours = match parse_positive("SUMMARY_INTERVAL_HOURS", &env.summary_interval_hours, 6, 168) {
        Ok(n) => n,
        Err(e) => return Err(e),
    };
    Ok((mins, min, max, stats, orders, hours))
}

impl Config {
    /// Validates the environment values: the four required settings, the
    /// interval bounds (`MIN <= INTERVAL <= MAX` for the inbox), the quiet
    /// window and the quiet-inbox switch; the first failing check is the error.
    pub fn from_env(env: &EnvVars) -> (r: Result<Config, String>)
        ensures
            match r {
                Ok(c) => config_spec(env@) == Ok::<ConfigView, Seq<char>>(c@),
                Err(e) => config_spec(env@) == Err::<ConfigView, Seq<char>>(e@),
            },
    {
        let telegram_bot_token = match required("TELEGRAM_BOT_TOKEN", &env.telegram_bot_token) {
            Ok(s) => s,
            Err(e) => return Err(e),
        };
        let telegram_admin_id = match parse_admin_id(&env.telegram_admin_id) {
            Ok(n) => n,
            Err(e) => return Err(e),
        };
        let (mins, min, max, stats, orders, hours) = match parse_intervals(env) {
            Ok(p) => p,
            Err(e) => return Err(e),
        };
        let kwork_login = match required("KWORK_LOGIN", &env.kwork_login) {
            Ok(s) => s,
            Err(e) => return Err(e),
        };
        let kwork_password = match required("KWORK_PASSWORD", &env.kwork_password) {
            Ok(s) => s,
            Err(e) => return Err(e),
        };
        let quiet_raw = match &env.quiet_hours {
            Some(q) => q.as_str(),
            None => "",
        };
        proof {
            reveal_strlit("");
        }
        assert(quiet_raw@ == match env@.quiet_hours {
            Some(q) => q,
            None => ""@,
        });
        let (quiet_start, quiet_end) = match parse_quiet_hours(quiet_raw) {
            Ok(p) => p,
            Err(e) => return Err(e),
        };
        let quiet_allow_inbox = match parse_allow_inbox(&env.quiet_allow_inbox) {
            Ok(b) => b,
            Err(e) => return Err(e),
        };
        let state_path = match &env.state_path {
            Some(p) => p.clone(),
            None => "kwork-state.json".to_owned(),
        };
        let token_path = match &env.kwork_token_path {
            Some(p) => p.clone(),
            None => ".kwork-token.json".to_owned(),
        };
        let c = Config {
            telegram_bot_token,
            telegram_admin_id,
            message_check_interval: mins * 60,
            message_check_min: min * 60,
            message_check_max: max * 60,
            stats_check_interval: stats * 60,
            orders_check_interval: orders * 60,
            summary_interval: hours * 3600,
            state_path,
            kwork_login,
            kwork_password,
            token_path,
            quiet_start,
            quiet_end,
            quiet_allow_inbox,
        };
        Ok(c)
    }
}

} // verus!

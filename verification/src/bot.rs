//! Telegram-facing decisions: which updates are administrator commands,
//! how long messages are split, and the failure backoff.
use vstd::prelude::*;

use crate::textops::{
    char_vec, first_index, first_index_exec, is_ws, is_ws_exec, lower_ascii, lower_ascii_chars,
    opt_str_view, opt_string_view, string_of, trim, trim_range, trim_start,
};

verus! {

/// Index of the first whitespace character (the length when there is none).
pub open spec fn first_ws(s: Seq<char>) -> int
    decreases s.len(),
{
    if s.len() == 0 {
        0
    } else if is_ws(s[0]) {
        0
    } else {
        1 + first_ws(s.drop_first())
    }
}

/// `s.split_whitespace().next()`.
pub open spec fn first_word(s: Seq<char>) -> Option<Seq<char>> {
    let u = trim_start(s);
    if u.len() == 0 {
        None
    } else {
        Some(u.take(first_ws(u)))
    }
}

/// The command an administrator message carries: the first word after a
/// leading `/`, cut at `@` (the bot-name suffix), in ASCII lower case.
/// Messages from any other chat carry none.
pub open spec fn admin_command(admin_id: i64, chat_id: i64, text: Option<Seq<char>>) -> Option<
    Seq<char>,
> {
    if chat_id != admin_id {
        None
    } else {
        match text {
            None => None,
            Some(x) => {
                let t = trim(x);
                if t.len() == 0 || t[0] != '/' {
                    None
                } else {
                    match first_word(t.drop_first()) {
                        None => None,
                        Some(w) => {
                            let c = lower_ascii(w.take(first_index(w, '@')));
                            if c.len() == 0 {
                                None
                            } else {
                                Some(c)
                            }
                        },
                    }
                }
            },
        }
    }
}

proof fn lemma_first_ws(s: Seq<char>, i: int)
    requires
        0 <= i <= s.len(),
        forall|k: int| 0 <= k < i ==> !is_ws(s[k]),
        i == s.len() || is_ws(s[i]),
    ensures
        first_ws(s) == i,
    decreases s.len(),
{
    if s.len() > 0 && !is_ws(s[0]) {
        assert forall|k: int| 0 <= k < i - 1 implies !is_ws(s.drop_first()[k]) by {
            assert(!is_ws(s[k + 1]));
        }
        lemma_first_ws(s.drop_first(), i - 1);
    }
}

/// The word `s[r.0..r.1]` that `s[lo..hi].split_whitespace().next()` yields.
fn first_word_range(s: &[char], lo: usize, hi: usize) -> (r: Option<(usize, usize)>)
    requires
        lo <= hi <= s@.len(),
    ensures
        match r {
            None => first_word(s@.subrange(lo as int, hi as int)) is None,
            Some((a, b)) => lo <= a <= b <= hi && first_word(s@.subrange(lo as int, hi as int))
                == Some(s@.subrange(a as int, b as int)),
        },
{
    let mut i = lo;
    while i < hi && is_ws_exec(s[i])
        invariant
            lo <= i <= hi <= s@.len(),
            trim_start(s@.subrange(lo as int, hi as int)) == trim_start(
                s@.subrange(i as int, hi as int),
            ),
        decreases hi - i,
    {
        assert(s@.subrange(i as int, hi as int).drop_first() =~= s@.subrange(
            i + 1,
            hi as int,
        ));
        i = i + 1;
    }
    let ghost u = s@.subrange(i as int, hi as int);
    assert(trim_start(u) == u);
    if i == hi {
        return None;
    }
    let mut j = i;
    while j < hi && !is_ws_exec(s[j])
        invariant
            i <= j <= hi <= s@.len(),
            forall|k: int| i <= k < j ==> !is_ws(s@[k]),
        decreases hi - j,
    {
        j = j + 1;
    }
    proof {
        assert forall|k: int| 0 <= k < j - i implies !is_ws(u[k]) by {
            assert(u[k] == s@[i + k]);
        }
        lemma_first_ws(u, j - i);
        assert(u.take(j - i) =~= s@.subrange(i as int, j as int));
    }
    Some((i, j))
}

/// The lower-case command in an administrator's message, if any.
pub fn parse_admin_command(admin_id: i64, chat_id: i64, text: Option<&str>) -> (r: Option<String>)
    ensures
        r matches Some(c) ==> admin_command(admin_id, chat_id, opt_str_view(text)) == Some(
            c@,
        ),
        r is None ==> admin_command(admin_id, chat_id, opt_str_view(text)) is None,
{
    if chat_id != admin_id {
        return None;
    }
    let raw = match text {
        Some(t) => t,
        None => return None,
    };
    let cs = char_vec(raw);
    assert(cs@.subrange(0, cs@.len() as int) =~= cs@);
    let (lo, hi) = trim_range(&cs, 0, cs.len());
    let ghost t = cs@.subrange(lo as int, hi as int);
    if lo == hi || cs[lo] != '/' {
        return None;
    }
    assert(t.drop_first() =~= cs@.subrange(lo + 1, hi as int));
    let (a, b) = match first_word_range(&cs, lo + 1, hi) {
        Some(p) => p,
        None => return None,
    };
    let ghost w = cs@.subrange(a as int, b as int);
    let k = first_index_exec(&cs, a, b, '@');
    assert(w.take(k - a) =~= cs@.subrange(a as int, k as int));
    let lowered = lower_ascii_chars(&cs.as_slice()[a..k]);
    if lowered.len() == 0 {
        return None;
    }
    Some(string_of(&lowered))
}

/// Consecutive pieces of at most `max` characters, as the Telegram sender
/// splits long text; a text within the limit is one piece.  With a zero
/// limit the pieces are an empty one followed by each character.
pub open spec fn message_chunks(s: Seq<char>, max: nat) -> Seq<Seq<char>>
    decreases s.len(),
{
    if s.len() <= max {
        seq![s]
    } else if max == 0 {
        seq![Seq::<char>::empty()] + Seq::new(s.len(), |i: int| seq![s[i]])
    } else {
        seq![s.take(max as int)] + message_chunks(s.skip(max as int), max)
    }
}

/// Splits `text` into pieces of at most `max_chars` characters on character
/// boundaries.
pub fn message_parts(text: &str, max_chars: usize) -> (r: Vec<String>)
    ensures
        r@.map_values(|p: String| p@) == message_chunks(text@, max_chars as nat),
{
    let cs = char_vec(text);
    let n = cs.len();
    let mut parts: Vec<String> = Vec::new();
    if n <= max_chars {
        parts.push(string_of(&cs));
        assert(parts@.map_values(|p: String| p@) =~= message_chunks(text@, max_chars as nat));
        return parts;
    }
    if max_chars == 0 {
        parts.push(String::new());
        for i in 0..n
            invariant
                n == cs@.len(),
                cs@ == text@,
                parts@.map_values(|p: String| p@) =~= seq![Seq::<char>::empty()] + Seq::new(
                    i as nat,
                    |k: int| seq![cs@[k]],
                ),
        {
            let ghost before = parts@.map_values(|p: String| p@);
            let piece = string_of(&cs.as_slice()[i..i + 1]);
            assert(piece@ =~= seq![cs@[i as int]]);
            parts.push(piece);
            assert(parts@.map_values(|p: String| p@) =~= before.push(seq![cs@[i as int]]));
            assert(parts@.map_values(|p: String| p@) =~= seq![Seq::<char>::empty()] + Seq::new(
                (i + 1) as nat,
                |k: int| seq![cs@[k]],
            ));
        }
        return parts;
    }
    let mut start: usize = 0;
    assert(cs@.skip(0) =~= cs@);
    while n - start > max_chars
        invariant
            n == cs@.len(),
            cs@ == text@,
            max_chars > 0,
            start <= n,
            n > max_chars,
            parts@.map_values(|p: String| p@) + message_chunks(cs@.skip(start as int), max_chars as nat)
                == message_chunks(text@, max_chars as nat),
        decreases n - start,
    {
        let ghost rest = cs@.skip(start as int);
        let end = start + max_chars;
        let ghost before = parts@.map_values(|p: String| p@);
        parts.push(string_of(&cs.as_slice()[start..end]));
        assert(cs@.subrange(start as int, end as int) =~= rest.take(max_chars as int));
        assert(rest.skip(max_chars as int) =~= cs@.skip(end as int));
        assert(parts@.map_values(|p: String| p@) =~= before.push(rest.take(max_chars as int)));
        assert(message_chunks(rest, max_chars as nat) =~= seq![rest.take(max_chars as int)]
            + message_chunks(cs@.skip(end as int), max_chars as nat));
        start = end;
    }
    let ghost rest = cs@.skip(start as int);
    let ghost before = parts@.map_values(|p: String| p@);
    parts.push(string_of(&cs.as_slice()[start..n]));
    assert(cs@.subrange(start as int, n as int) =~= rest);
    assert(parts@.map_values(|p: String| p@) =~= before.push(rest));
    assert(message_chunks(rest, max_chars as nat) =~= seq![rest]);
    parts
}

/// Two to the power `n`.
pub open spec fn pow2(n: nat) -> nat
    decreases n,
{
    if n == 0 {
        1
    } else {
        2 * pow2((n - 1) as nat)
    }
}

/// Seconds of Telegram backoff after `consecutive_errors` failures in a row:
/// `2^min(errors, 6)`.
pub fn backoff_secs(consecutive_errors: u32) -> (r: u64)
    ensures
        r as nat == pow2(if consecutive_errors < 6 {
            consecutive_errors as nat
        } else {
            6
        }),
{
    proof {
        reveal_with_fuel(pow2, 7);
    }
    if consecutive_errors == 0 {
        1
    } else if consecutive_errors == 1 {
        2
    } else if consecutive_errors == 2 {
        4
    } else if consecutive_errors == 3 {
        8
    } else if consecutive_errors == 4 {
        16
    } else if consecutive_errors == 5 {
        32
    } else {
        64
    }
}

/// What the bot reads of one Telegram update: its id, and for a message the
/// chat id and text.
#[derive(Debug)]
pub struct UpdateInfo {
    pub update_id: u32,
    pub message: Option<(i64, Option<String>)>,
}

/// The commands in a batch of updates, in order.
pub open spec fn commands_in(admin_id: i64, updates: Seq<UpdateInfo>) -> Seq<Seq<char>>
    decreases updates.len(),
{
    if updates.len() == 0 {
        seq![]
    } else {
        let rest = commands_in(admin_id, updates.drop_last());
        match updates.last().message {
            Some((chat, text)) => match admin_command(
                admin_id,
                chat,
                opt_string_view(text),
            ) {
                Some(c) => rest.push(c),
                None => rest,
            },
            None => rest,
        }
    }
}

/// The next `getUpdates` offset: one past the last update seen.
pub open spec fn next_offset(offset: Option<i64>, updates: Seq<UpdateInfo>) -> Option<i64> {
    if updates.len() == 0 {
        offset
    } else {
        Some((updates.last().update_id + 1) as i64)
    }
}

/// Reads a batch of updates: advances the offset past every update and keeps
/// the administrator's commands; messages from other chats are ignored.
pub fn collect_commands(admin_id: i64, offset: Option<i64>, updates: &Vec<UpdateInfo>) -> (r: (
    Option<i64>,
    Vec<String>,
))
    ensures
        r.0 == next_offset(offset, updates@),
        r.1@.map_values(|c: String| c@) == commands_in(admin_id, updates@),
{
    let mut next = offset;
    let mut commands: Vec<String> = Vec::new();
    let n = updates.len();
    for i in 0..n
        invariant
            n == updates@.len(),
            next == next_offset(offset, updates@.take(i as int)),
            commands@.map_values(|c: String| c@) == commands_in(admin_id, updates@.take(i as int)),
    {
        let u = &updates[i];
        next = Some(u.update_id as i64 + 1);
        assert(updates@.take(i + 1).drop_last() =~= updates@.take(i as int));
        let ghost before = commands@.map_values(|c: String| c@);
        match &u.message {
            Some((chat, text)) => {
                let t: Option<&str> = match text {
                    Some(s) => Some(s.as_str()),
                    None => None,
                };
                assert(opt_str_view(t) == opt_string_view(*text));
                match parse_admin_command(admin_id, *chat, t) {
                    Some(c) => {
                        commands.push(c);
                        assert(commands@.map_values(|c: String| c@) =~= before.push(
                            commands@[commands@.len() - 1]@,
                        ));
                    },
                    None => {},
                }
            },
            None => {},
        }
    }
    assert(updates@.take(n as int) =~= updates@);
    (next, commands)
}

} // verus!

verus! {

// ---------------------------------------------------------------------------
// The failure backoff window
// ---------------------------------------------------------------------------

/// Nanoseconds in a second.
pub const BACKOFF_NANOS_PER_SEC: u128 = 1_000_000_000;

/// The backoff length in seconds after `errors` failures in a row.
pub open spec fn backoff_len(errors: u32) -> nat {
    pow2(if errors < 6 {
        errors as nat
    } else {
        6
    })
}

/// Consecutive Telegram failures and, after a failure, the time (in
/// nanoseconds on the caller's monotonic clock) until which no request is
/// made.
#[derive(Debug)]
pub struct Backoff {
    pub consecutive_errors: u32,
    pub until: Option<u128>,
}

/// Whether requests are held back at `now`.
pub open spec fn backoff_active(b: Backoff, now: u128) -> bool {
    b.until matches Some(t) && now < t
}

impl Backoff {
    /// No failures yet.
    pub fn new() -> (r: Backoff)
        ensures
            r == (Backoff { consecutive_errors: 0, until: None }),
    {
        Backoff { consecutive_errors: 0, until: None }
    }

    /// Whether requests are held back at `now`.
    pub fn active(&self, now: u128) -> (r: bool)
        ensures
            r == backoff_active(*self, now),
    {
        match self.until {
            Some(t) => now < t,
            None => false,
        }
    }

    /// A request succeeded: the count and the window are cleared.
    pub fn succeeded(&mut self)
        ensures
            *final(self) == (Backoff { consecutive_errors: 0, until: None }),
    {
        self.consecutive_errors = 0;
        self.until = None;
    }

    /// A request failed at `now`: one more failure in a row (saturating),
    /// and requests are held back for `backoff_secs` of the new count.
    pub fn failed(&mut self, now: u128)
        requires
            now <= u128::MAX - 64 * BACKOFF_NANOS_PER_SEC,
        ensures
            final(self).consecutive_errors == (if old(self).consecutive_errors == u32::MAX {
                u32::MAX
            } else {
                (old(self).consecutive_errors + 1) as u32
            }),
            final(self).until == Some(
                (now + backoff_len(final(self).consecutive_errors) * BACKOFF_NANOS_PER_SEC) as u128,
            ),
    {
        self.consecutive_errors = if self.consecutive_errors == u32::MAX {
            u32::MAX
        } else {
            self.consecutive_errors + 1
        };
        let secs = backoff_secs(self.consecutive_errors);
        proof {
            reveal_with_fuel(pow2, 7);
        }
        self.until = Some(now + (secs as u128) * BACKOFF_NANOS_PER_SEC);
    }
}

} // verus!

//! Inbox notifications: message text without markup, the fingerprint that
//! tells a dialog already announced, and the notice sent to the administrator.
//!
//! A run goes dialog by dialog: `begin_dialog` stores the fingerprint of a
//! dialog that needs no notice and otherwise hands back the notice; the caller
//! delivers it and reports the outcome to `finish_dialog`; `finish_inbox`
//! records the successful run.
use vstd::prelude::*;

use crate::kwork::api::{Dialog, DialogView};
use crate::state::{fingerprint_value, pruned, stored_fingerprint, Fingerprint, StateStore, StoreView, StateView, MAX_DIALOGS};
use crate::textops::{char_vec, dec, int_text, is_ws, is_ws_exec, prefix, push_char, replace_all, str_replace, take_chars};
use crate::util::{fingerprint, fingerprint_of};

verus! {

// ---------------------------------------------------------------------------
// Markup removal
// ---------------------------------------------------------------------------

/// Scans `s` left to right: the characters outside `<...>` tags, and whether
/// the scan ends inside a tag.
pub open spec fn tag_scan(s: Seq<char>) -> (Seq<char>, bool)
    decreases s.len(),
{
    if s.len() == 0 {
        (Seq::empty(), false)
    } else {
        let (out, in_tag) = tag_scan(s.drop_last());
        let c = s.last();
        if c == '<' {
            (out, true)
        } else if c == '>' {
            (out, false)
        } else if !in_tag {
            (out.push(c), in_tag)
        } else {
            (out, in_tag)
        }
    }
}

/// The five named entities and two typographic ones decoded, in this order.
pub open spec fn unescaped(s: Seq<char>) -> Seq<char> {
    replace_all(
        replace_all(
            replace_all(
                replace_all(
                    replace_all(
                        replace_all(replace_all(s, "&nbsp;"@, " "@), "&quot;"@, "\""@),
                        "&amp;"@,
                        "&"@,
                    ),
                    "&lt;"@,
                    "<"@,
                ),
                "&gt;"@,
                ">"@,
            ),
            "&mdash;"@,
            "—"@,
        ),
        "&middot;"@,
        "·"@,
    )
}

/// Scans `s` left to right, keeping its words (runs of non-whitespace) with a
/// single space between consecutive words; the flag says a space is owed
/// before the next word.
pub open spec fn ws_scan(s: Seq<char>) -> (Seq<char>, bool)
    decreases s.len(),
{
    if s.len() == 0 {
        (Seq::empty(), false)
    } else {
        let (out, pending) = ws_scan(s.drop_last());
        let c = s.last();
        if is_ws(c) {
            (out, out.len() > 0)
        } else if pending {
            (out.push(' ').push(c), false)
        } else {
            (out.push(c), false)
        }
    }
}

/// The words of `s` joined by single spaces.
pub open spec fn collapsed(s: Seq<char>) -> Seq<char> {
    ws_scan(s).0
}

/// A message body as plain text: tags dropped, entities decoded, whitespace
/// collapsed.
pub open spec fn plain_text(s: Seq<char>) -> Seq<char> {
    collapsed(unescaped(tag_scan(s).0))
}

fn drop_tags(s: &str) -> (r: String)
    ensures
        r@ == tag_scan(s@).0,
{
    let cs = char_vec(s);
    let n = cs.len();
    let mut out = String::new();
    let mut in_tag = false;
    let mut i: usize = 0;
    while i < n
        invariant
            n == cs@.len(),
            cs@ == s@,
            i <= n,
            (out@, in_tag) == tag_scan(s@.take(i as int)),
        decreases n - i,
    {
        let c = cs[i];
        assert(s@.take(i + 1).drop_last() =~= s@.take(i as int));
        if c == '<' {
            in_tag = true;
        } else if c == '>' {
            in_tag = false;
        } else if !in_tag {
            push_char(&mut out, c);
        }
        i = i + 1;
    }
    assert(s@.take(n as int) =~= s@);
    out
}

fn collapse_whitespace(s: &str) -> (r: String)
    ensures
        r@ == collapsed(s@),
{
    let cs = char_vec(s);
    let n = cs.len();
    let mut out = String::new();
    let mut pending = false;
    let mut started = false;
    let mut i: usize = 0;
    while i < n
        invariant
            n == cs@.len(),
            cs@ == s@,
            i <= n,
            (out@, pending) == ws_scan(s@.take(i as int)),
            started == (out@.len() > 0),
        decreases n - i,
    {
        let c = cs[i];
        assert(s@.take(i + 1).drop_last() =~= s@.take(i as int));
        if is_ws_exec(c) {
            pending = started;
        } else {
            if pending {
                push_char(&mut out, ' ');
            }
            push_char(&mut out, c);
            pending = false;
            started = true;
        }
        i = i + 1;
    }
    assert(s@.take(n as int) =~= s@);
    out
}

/// The plain text of an HTML message body: tags removed, `&nbsp;`, `&quot;`,
/// `&amp;`, `&lt;`, `&gt;`, `&mdash;` and `&middot;` decoded, and the words
/// joined by single spaces.
pub fn strip_html(s: &str) -> (r: String)
    ensures
        r@ == plain_text(s@),
{
    let t = drop_tags(s);
    proof {
        reveal_strlit("&nbsp;");
        reveal_strlit("&quot;");
        reveal_strlit("&amp;");
        reveal_strlit("&lt;");
        reveal_strlit("&gt;");
        reveal_strlit("&mdash;");
        reveal_strlit("&middot;");
    }
    let t = str_replace(t.as_str(), "&nbsp;", " ");
    let t = str_replace(t.as_str(), "&quot;", "\"");
    let t = str_replace(t.as_str(), "&amp;", "&");
    let t = str_replace(t.as_str(), "&lt;", "<");
    let t = str_replace(t.as_str(), "&gt;", ">");
    let t = str_replace(t.as_str(), "&mdash;", "—");
    let t = str_replace(t.as_str(), "&middot;", "·");
    collapse_whitespace(t.as_str())
}

// ---------------------------------------------------------------------------
// Dialog notices
// ---------------------------------------------------------------------------

/// Characters of the message text kept in a notice and in the fingerprint.
pub const PREVIEW_CHARS: usize = 400;

/// Characters of the username kept in the fingerprint.
pub const USERNAME_CHARS: usize = 80;

/// A notice is due for an unread dialog whose fingerprint changed.
pub open spec fn notify_due(unread: bool, unchanged: bool) -> bool {
    unread && !unchanged
}

/// Whether an unread dialog with this fingerprint state needs a notice.
pub fn should_notify(unread: bool, unchanged: bool) -> (r: bool)
    ensures
        r == notify_due(unread, unchanged),
{
    unread && !unchanged
}

/// The shortened message text of a dialog.
pub open spec fn preview_of(d: DialogView) -> Seq<char> {
    prefix(plain_text(d.last_message), PREVIEW_CHARS as nat)
}

/// What the fingerprint of a dialog is taken over: time, unread count,
/// shortened username and shortened text, separated by `|`.
pub open spec fn dialog_key(d: DialogView) -> Seq<char> {
    dec(d.time as int) + "|"@ + dec(d.unread_count as int) + "|"@ + prefix(
        d.username,
        USERNAME_CHARS as nat,
    ) + "|"@ + preview_of(d)
}

/// The fingerprint stored for a dialog once it needs no further notice.
pub open spec fn dialog_fingerprint(d: DialogView) -> Seq<char> {
    fingerprint_of(dialog_key(d))
}

/// Whether the dialog still needs a notice, given what is stored.
pub open spec fn dialog_due(store: StoreView, d: DialogView) -> bool {
    notify_due(
        d.unread,
        fingerprint_value(store.data.dialogs, d.user_id) == Some(dialog_fingerprint(d)),
    )
}

/// The notice about a dialog: sender, unread count (at least one), text or
/// a placeholder, and the dialog's link, one per line.
pub open spec fn dialog_notice(d: DialogView) -> Seq<char> {
    let sender = if d.username.len() == 0 {
        "id:"@ + dec(d.user_id as int)
    } else {
        "@"@ + d.username
    };
    let preview = if preview_of(d).len() == 0 {
        "(нет текста)"@
    } else {
        preview_of(d)
    };
    let count: int = if d.unread_count >= 1 {
        d.unread_count as int
    } else {
        1
    };
    "📩 Новое сообщение от "@ + sender + "\nнепрочитано: "@ + dec(count) + "\n"@ + preview + "\n"@
        + d.link
}

/// The store after the dialog's fingerprint was recorded at `now`.
pub open spec fn dialog_recorded(store: StoreView, d: DialogView, now: u64) -> StoreView {
    StoreView {
        data: StateView {
            dialogs: pruned::<Fingerprint>(
                store.data.dialogs.insert(
                    d.user_id,
                    stored_fingerprint(dialog_fingerprint(d), now),
                ),
                MAX_DIALOGS as nat,
            ),
            ..store.data
        },
        dirty: true,
        ..store
    }
}

/// The fingerprint of a dialog, as stored once it is announced.
pub fn dialog_fingerprint_text(d: &Dialog) -> (r: String)
    ensures
        r@ == dialog_fingerprint(d@),
{
    let text = strip_html(d.last_message.as_str());
    let short = take_chars(text.as_str(), PREVIEW_CHARS);
    let name = take_chars(d.username.as_str(), USERNAME_CHARS);
    let mut key = int_text(d.time as i128);
    key.append("|");
    let count = int_text(d.unread_count as i128);
    key.append(count.as_str());
    key.append("|");
    key.append(name.as_str());
    key.append("|");
    key.append(short.as_str());
    proof {
        reveal_strlit("|");
        assert(key@ =~= dialog_key(d@));
    }
    fingerprint(key.as_str())
}

/// The notice text for a dialog.
pub fn dialog_notice_text(d: &Dialog) -> (r: String)
    ensures
        r@ == dialog_notice(d@),
{
    let text = strip_html(d.last_message.as_str());
    let short = take_chars(text.as_str(), PREVIEW_CHARS);
    let mut msg = "📩 Новое сообщение от ".to_owned();
    if d.username.as_str().is_empty() {
        msg.append("id:");
        let id = int_text(d.user_id as i128);
        msg.append(id.as_str());
    } else {
        msg.append("@");
        msg.append(d.username.as_str());
    }
    msg.append("\nнепрочитано: ");
    let count: i64 = if d.unread_count >= 1 {
        d.unread_count
    } else {
        1
    };
    let c = int_text(count as i128);
    msg.append(c.as_str());
    msg.append("\n");
    if short.as_str().is_empty() {
        msg.append("(нет текста)");
    } else {
        msg.append(short.as_str());
    }
    msg.append("\n");
    msg.append(d.link.as_str());
    proof {
        assert(msg@ =~= dialog_notice(d@));
    }
    msg
}

/// First half of handling a dialog.  When no notice is due (the dialog is
/// read, or its fingerprint is already stored) the fingerprint is recorded
/// at `now` and `None` comes back; otherwise the store is left as it was and
/// the notice to deliver comes back.
pub fn begin_dialog(state: &mut StateStore, d: &Dialog, now: u64) -> (r: Option<String>)
    ensures
        dialog_due(old(state)@, d@) ==> final(state)@ == old(state)@ && (r matches Some(m)
            && m@ == dialog_notice(d@)),
        !dialog_due(old(state)@, d@) ==> r is None && final(state)@ == dialog_recorded(
            old(state)@,
            d@,
            now,
        ),
{
    let fp = dialog_fingerprint_text(d);
    let unchanged = match state.dialog(d.user_id) {
        Some(stored) => crate::textops::str_eq(stored, fp.as_str()),
        None => false,
    };
    if !should_notify(d.unread, unchanged) {
        state.set_dialog_at(d.user_id, fp, now);
        None
    } else {
        Some(dialog_notice_text(d))
    }
}

/// Second half of handling a dialog whose notice was handed out: a delivered
/// notice records the fingerprint at `now`, so the dialog is not announced
/// again; an undelivered one leaves the store as it was, so the next run tries
/// again.  Returns whether the notice counts as sent.
pub fn finish_dialog(state: &mut StateStore, d: &Dialog, delivered: bool, now: u64) -> (r: bool)
    ensures
        r == delivered,
        delivered ==> final(state)@ == dialog_recorded(old(state)@, d@, now),
        !delivered ==> final(state)@ == old(state)@,
{
    if delivered {
        let fp = dialog_fingerprint_text(d);
        state.set_dialog_at(d.user_id, fp, now);
    }
    delivered
}

/// Records a completed inbox run at `now`.
pub fn finish_inbox(state: &mut StateStore, now: u64)
    ensures
        final(state)@ == (StoreView {
            data: StateView { health: old(state)@.data.health.insert("inbox"@, now), ..old(state)@.data },
            dirty: true,
            ..old(state)@
        }),
{
    state.touch_ok_at("inbox", now);
}

} // verus!

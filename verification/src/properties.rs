//! Properties of the service as a whole: what holds of every input, every
//! stored state, or a run of several operations.
use vstd::prelude::*;
use vstd::utf8::encode_utf8;

use crate::bot::{admin_command, backoff_active, backoff_len, first_ws, message_chunks, pow2, Backoff, BACKOFF_NANOS_PER_SEC};
use crate::config::{config_spec, quiet_at, quiet_hours_spec, ConfigView, EnvView};
use crate::control::{inbox_interval_of, next_delay_of, MAX_RECONNECT_SECS};
use crate::kwork::api::{
    actor_of, dialog_of, dialogs_of, kwork_of, order_id_of, order_of,
    absorb_result, has_order_id, last_page_of, merge_orders, or_i64, order_list, orders_in, orders_of, reports_failure, sanitized,
    ApiErrorView, OrderView, PagerView, MAX_ORDERS, MAX_ORDER_PAGES, MAX_RESPONSE_BYTES,
};
use crate::kwork::json::{get_field, i64_of, Json};
use crate::kwork::inbox::{
    dialog_due, dialog_fingerprint, dialog_key, dialog_notice, dialog_recorded, preview_of, USERNAME_CHARS, plain_text, tag_scan, unescaped, ws_scan,
};
use crate::kwork::orders::{change_of, order_change, order_notice_of, order_recorded, status_key, ChangeView};
use crate::kwork::api::{DialogView, KworkActivityView};
use crate::kwork::stats::{
    kworks_retained, lemma_summary_before_irrefl, lemma_summary_before_total, lemma_summary_before_trans, rows_recorded,
    snapshot_of, stat_change_of, stat_lists, stats_applied, stats_report_of, summary_before, summary_keys, summary_order,
    summary_text, StatChange,
};
use crate::state::{
    load_spec, normalize_changes, normalized, over_bounds, trunc_fp, trunc_kw, FingerprintView, StateView,
    fingerprint_value, is_oldest, older, oldest, pruned, stored_error, stored_fingerprint, stored_kwork,
    Fingerprint, KworkSnapshot, KworkView, Stamped, StoreView, MAX_DIALOGS, MAX_KWORKS, MAX_ERROR_CHARS, MAX_FINGERPRINT_BYTES,
    MAX_KWORK_NAME_BYTES, MAX_ORDERS as MAX_STORED_ORDERS,
};
use crate::textops::{
    ascii_lower, dec, dec_nat, digit_char, eq_ignore_ascii_case, lemma_dec_inj, is_ws, parse_signed, parse_unsigned, starts_with, lemma_lex_asym, lemma_lex_irrefl, lex_lt, lemma_encode_scalar_len, lemma_encode_utf8_append, lemma_first_index_props, lower_ascii, prefix,
    first_index, trim, trim_start, truncate_bytes, utf8_width,
};
use crate::util::{fingerprint_of, hex_lower};

verus! {

// ---------------------------------------------------------------------------
// Telegram
// ---------------------------------------------------------------------------

/// Messages from any chat but the administrator's are never commands.
pub proof fn law_other_chats_ignored(admin_id: i64, chat_id: i64, text: Option<Seq<char>>)
    requires
        chat_id != admin_id,
    ensures
        admin_command(admin_id, chat_id, text) is None,
{
}

/// Splitting a long message loses and reorders nothing: the pieces, put back
/// together, are the message, and none is longer than the limit.
pub proof fn law_message_pieces_rebuild_text(s: Seq<char>, max: nat)
    requires
        max > 0,
    ensures
        message_chunks(s, max).flatten() == s,
        forall|i: int| 0 <= i < message_chunks(s, max).len() ==> (#[trigger] message_chunks(s, max)[i]).len() <= max,
    decreases s.len(),
{
    let c = message_chunks(s, max);
    if s.len() <= max {
        assert(c =~= seq![s]);
        assert(c.drop_first() =~= Seq::<Seq<char>>::empty());
        assert(c.drop_first().flatten() =~= Seq::<char>::empty());
        assert(c.first() == s);
        assert(c.flatten() =~= s);
    } else {
        let rest = message_chunks(s.skip(max as int), max);
        law_message_pieces_rebuild_text(s.skip(max as int), max);
        assert(c =~= seq![s.take(max as int)] + rest);
        assert(c.drop_first() =~= rest);
        assert(c.flatten() =~= s.take(max as int) + s.skip(max as int));
        assert(s.take(max as int) + s.skip(max as int) =~= s);
        assert forall|i: int| 0 <= i < c.len() implies (#[trigger] c[i]).len() <= max by {
            if i > 0 {
                assert(c[i] == rest[i - 1]);
            }
        }
    }
}

/// The Telegram backoff never exceeds 64 seconds and doubles with each
/// failure below that.
pub proof fn law_backoff_capped(errors: nat)
    ensures
        pow2(if errors < 6 {
            errors
        } else {
            6
        }) <= 64,
        errors < 6 ==> pow2(errors + 1) == 2 * pow2(errors),
{
    reveal_with_fuel(pow2, 7);
    if errors < 6 {
        assert(pow2(errors) <= 32);
    }
}

// ---------------------------------------------------------------------------
// Scheduling
// ---------------------------------------------------------------------------

/// The reconnect back-off never exceeds five minutes, and below the cap it
/// doubles.
pub proof fn law_reconnect_delay_capped(current: int)
    requires
        current >= 0,
    ensures
        next_delay_of(current) <= MAX_RECONNECT_SECS,
        next_delay_of(current) >= current || current > MAX_RECONNECT_SECS,
        2 * current <= MAX_RECONNECT_SECS ==> next_delay_of(current) == 2 * current,
{
}

/// With validated settings (MIN <= INTERVAL <= MAX) the inbox interval stays
/// within MIN and MAX, and it never shrinks as the idle time grows.
pub proof fn law_inbox_interval_bounded(c: ConfigView, idle: int, later: int)
    requires
        c.message_check_min <= c.message_check_interval <= c.message_check_max,
        idle <= later,
    ensures
        c.message_check_min <= inbox_interval_of(c, idle) <= c.message_check_max,
        inbox_interval_of(c, idle) <= inbox_interval_of(c, later),
{
}

/// Every configuration read from the environment has MIN <= INTERVAL <= MAX.
pub proof fn law_config_intervals_ordered(env: EnvView)
    requires
        config_spec(env) is Ok,
    ensures
        config_spec(env)->Ok_0.message_check_min <= config_spec(env)->Ok_0.message_check_interval
            <= config_spec(env)->Ok_0.message_check_max,
{
}

/// A quiet window that wraps past midnight covers the late and the early
/// hours and nothing between; an empty window covers nothing.
pub proof fn law_quiet_window(start: u8, end: u8, hour: u8)
    ensures
        start > end ==> (quiet_at(start, end, hour) <==> (hour >= start || hour < end)),
        start < end ==> (quiet_at(start, end, hour) <==> (start <= hour && hour < end)),
        start == end ==> !quiet_at(start, end, hour),
{
}

// ---------------------------------------------------------------------------
// Bounded state
// ---------------------------------------------------------------------------

proof fn lemma_oldest_exists<V: Stamped>(m: Map<i64, V::V>)
    requires
        m.dom().finite(),
        m.len() > 0,
    ensures
        is_oldest::<V>(m, oldest::<V>(m)),
    decreases m.len(),
{
    let k0 = m.dom().choose();
    assert(m.contains_key(k0));
    let rest = m.remove(k0);
    if rest.len() == 0 {
        assert forall|j: i64| #[trigger] m.contains_key(j) && j != k0 implies older::<V>(m, k0, j) by {
            assert(rest.contains_key(j));
        }
        assert(is_oldest::<V>(m, k0));
    } else {
        lemma_oldest_exists::<V>(rest);
        let o = oldest::<V>(rest);
        assert(rest.contains_key(o));
        assert(o != k0);
        crate::state::lemma_older_total::<V>(m, o, k0);
        if older::<V>(m, o, k0) {
            assert forall|j: i64| #[trigger] m.contains_key(j) && j != o implies older::<V>(m, o, j) by {
                if j != k0 {
                    assert(rest.contains_key(j));
                    assert(older::<V>(rest, o, j));
                }
            }
            assert(is_oldest::<V>(m, o));
        } else {
            assert forall|j: i64| #[trigger] m.contains_key(j) && j != k0 implies older::<V>(m, k0, j) by {
                if j != o {
                    assert(rest.contains_key(j));
                    assert(older::<V>(rest, o, j));
                    crate::state::lemma_older_trans::<V>(m, k0, o, j);
                }
            }
            assert(is_oldest::<V>(m, k0));
        }
    }
}

/// Pruning keeps at most `limit` entries, keeps only stored entries
/// unchanged, and changes nothing when the map is within the limit.
pub proof fn law_pruning_keeps_bound<V: Stamped>(m: Map<i64, V::V>, limit: nat)
    requires
        m.dom().finite(),
    ensures
        pruned::<V>(m, limit).dom().finite(),
        pruned::<V>(m, limit).len() <= limit,
        pruned::<V>(m, limit).submap_of(m),
        m.len() <= limit ==> pruned::<V>(m, limit) == m,
    decreases m.len(),
{
    if m.len() > limit {
        lemma_oldest_exists::<V>(m);
        let o = oldest::<V>(m);
        law_pruning_keeps_bound::<V>(m.remove(o), limit);
    }
}

/// Every stored fingerprint fits in 256 bytes, every stored kwork name in
/// 128 bytes, and every stored error message in 500 characters.
pub proof fn law_persistent_strings_bounded(value: Seq<char>, name: Seq<char>, message: Seq<char>, views: i64, orders: i64, at: u64)
    ensures
        encode_utf8(stored_fingerprint(value, at).value).len() <= MAX_FINGERPRINT_BYTES,
        encode_utf8(stored_kwork(name, views, orders, at).name).len() <= MAX_KWORK_NAME_BYTES,
        stored_error(message, at).message.len() <= MAX_ERROR_CHARS,
{
    lemma_truncate_fits(value, MAX_FINGERPRINT_BYTES as nat);
    lemma_truncate_fits(name, MAX_KWORK_NAME_BYTES as nat);
}

proof fn lemma_truncate_fits(s: Seq<char>, max: nat)
    ensures
        encode_utf8(truncate_bytes(s, max)).len() <= max,
        encode_utf8(s).len() <= max ==> truncate_bytes(s, max) == s,
    decreases s.len(),
{
    if s.len() == 0 {
        assert(encode_utf8(s) =~= Seq::<u8>::empty());
    } else if encode_utf8(s).len() > max {
        lemma_truncate_fits(s.drop_last(), max);
    }
}

/// An API error shown to the administrator is at most 200 characters.
pub proof fn law_api_errors_bounded(message: Seq<char>, login: Seq<char>, password: Seq<char>, token: Seq<char>)
    ensures
        sanitized(message, login, password, token).len() <= 200,
{
}

// ---------------------------------------------------------------------------
// Notifications are sent once
// ---------------------------------------------------------------------------

proof fn lemma_ascii_encode_len(s: Seq<char>)
    requires
        forall|i: int| 0 <= i < s.len() ==> (#[trigger] s[i] as int) < 128,
    ensures
        encode_utf8(s).len() == s.len(),
    decreases s.len(),
{
    if s.len() > 0 {
        let rest = s.drop_first();
        assert forall|i: int| 0 <= i < rest.len() implies (#[trigger] rest[i] as int) < 128 by {
            assert(rest[i] == s[i + 1]);
        }
        lemma_ascii_encode_len(rest);
        assert(s =~= seq![s[0]] + rest);
        lemma_encode_utf8_append(seq![s[0]], rest);
        lemma_encode_scalar_len(s[0]);
        assert(utf8_width(s[0]) == 1);
    }
}

/// A fingerprint is sixteen lower-case hexadecimal digits.
pub proof fn law_fingerprint_shape(value: Seq<char>)
    ensures
        fingerprint_of(value).len() == 16,
        forall|i: int| 0 <= i < 16 ==> {
            let c = #[trigger] fingerprint_of(value)[i];
            ('0' <= c && c <= '9') || ('a' <= c && c <= 'f')
        },
        encode_utf8(fingerprint_of(value)).len() == 16,
{
    let f = fingerprint_of(value);
    let h = crate::util::fnv1a(encode_utf8(value));
    assert forall|i: int| 0 <= i < 16 implies {
        let c = #[trigger] f[i];
        ('0' <= c && c <= '9') || ('a' <= c && c <= 'f')
    } by {
        let sh = (60 - 4 * i) as u64;
        let d = (h >> sh) & 15;
        assert(d <= 15) by (bit_vector)
            requires
                d == (h >> sh) & 15,
        ;
        assert(f[i] == hex_lower(d));
    }
    assert forall|i: int| 0 <= i < f.len() implies (#[trigger] f[i] as int) < 128 by {
        assert(('0' <= f[i] && f[i] <= '9') || ('a' <= f[i] && f[i] <= 'f'));
    }
    lemma_ascii_encode_len(f);
}

/// Once a dialog's notice was delivered (or no notice was due) and its
/// fingerprint recorded, the same dialog needs no notice again, as long as
/// the store held fewer dialogs than its cap.
pub proof fn law_dialog_announced_once(store: StoreView, d: DialogView, now: u64)
    requires
        store.data.dialogs.dom().finite(),
        store.data.dialogs.len() < MAX_DIALOGS,
    ensures
        !dialog_due(dialog_recorded(store, d, now), d),
{
    let fp = dialog_fingerprint(d);
    law_fingerprint_shape(crate::kwork::inbox::dialog_key(d));
    lemma_truncate_fits(fp, MAX_FINGERPRINT_BYTES as nat);
    let m = store.data.dialogs.insert(d.user_id, stored_fingerprint(fp, now));
    assert(m.len() <= MAX_DIALOGS) by {
        if store.data.dialogs.contains_key(d.user_id) {
            assert(m.dom() =~= store.data.dialogs.dom());
        } else {
            assert(m.dom() =~= store.data.dialogs.dom().insert(d.user_id));
        }
    }
    law_pruning_keeps_bound::<Fingerprint>(m, MAX_DIALOGS as nat);
    assert(fingerprint_value(pruned::<Fingerprint>(m, MAX_DIALOGS as nat), d.user_id) == Some(fp));
}

/// Before the first orders run has seeded the store, no order is announced.
pub proof fn law_first_orders_run_is_silent(store: StoreView, o: OrderView)
    ensures
        order_notice_of(store, false, o) is None,
{
}

/// Once an order's status is recorded, the same status is not announced
/// again, as long as the store held fewer orders than its cap and the status
/// (its first 80 characters) fits the 256 stored bytes.
pub proof fn law_order_status_announced_once(store: StoreView, o: OrderView, now: u64)
    requires
        store.data.orders.dom().finite(),
        store.data.orders.len() < MAX_STORED_ORDERS,
        encode_utf8(status_key(o)).len() <= MAX_FINGERPRINT_BYTES,
    ensures
        order_change(order_recorded(store, o, now), true, o) == ChangeView::Unchanged,
{
    lemma_truncate_fits(status_key(o), MAX_FINGERPRINT_BYTES as nat);
    let m = store.data.orders.insert(o.id, stored_fingerprint(status_key(o), now));
    assert(m.len() <= MAX_STORED_ORDERS) by {
        if store.data.orders.contains_key(o.id) {
            assert(m.dom() =~= store.data.orders.dom());
        } else {
            assert(m.dom() =~= store.data.orders.dom().insert(o.id));
        }
    }
    law_pruning_keeps_bound::<Fingerprint>(m, MAX_STORED_ORDERS as nat);
}

// ---------------------------------------------------------------------------
// Order collection
// ---------------------------------------------------------------------------

/// No two collected orders share an id.
pub open spec fn distinct_ids(s: Seq<OrderView>) -> bool {
    forall|i: int, j: int| 0 <= i < j < s.len() ==> (#[trigger] s[i]).id != (#[trigger] s[j]).id
}

/// Merging a page into orders collected without repeats keeps them without
/// repeats, keeps what was collected in front, and stops at the cap.
pub proof fn law_order_merge_distinct_and_capped(acc: Seq<OrderView>, items: Seq<OrderView>)
    requires
        distinct_ids(acc),
        acc.len() < MAX_ORDERS,
    ensures
        distinct_ids(merge_orders(acc, items).0),
        merge_orders(acc, items).0.len() <= MAX_ORDERS,
        merge_orders(acc, items).0.take(acc.len() as int) == acc,
        merge_orders(acc, items).0.len() == acc.len() + merge_orders(acc, items).1,
    decreases items.len(),
{
    if items.len() == 0 {
        assert(acc.take(acc.len() as int) =~= acc);
    } else if has_order_id(acc, items[0].id) {
        law_order_merge_distinct_and_capped(acc, items.drop_first());
    } else {
        let acc2 = acc.push(items[0]);
        assert(distinct_ids(acc2)) by {
            assert forall|i: int, j: int| 0 <= i < j < acc2.len() implies (#[trigger] acc2[i]).id != (
            #[trigger] acc2[j]).id by {
                if j == acc.len() {
                    if acc2[i].id == acc2[j].id {
                        assert(acc[i].id == items[0].id);
                        assert(has_order_id(acc, items[0].id));
                    }
                } else {
                    assert(acc2[i] == acc[i] && acc2[j] == acc[j]);
                }
            }
        }
        if acc2.len() >= MAX_ORDERS {
            assert(acc2.take(acc.len() as int) =~= acc);
        } else {
            law_order_merge_distinct_and_capped(acc2, items.drop_first());
            let r = merge_orders(acc2, items.drop_first()).0;
            assert(r.take(acc2.len() as int) == acc2);
            assert(r.take(acc.len() as int) =~= acc2.take(acc.len() as int));
            assert(acc2.take(acc.len() as int) =~= acc);
        }
    }
}

} // verus!

verus! {

// ---------------------------------------------------------------------------
// Statistics are reported once
// ---------------------------------------------------------------------------

/// No two rows share a kwork id.
pub open spec fn distinct_rows(rows: Seq<KworkActivityView>) -> bool {
    forall|i: int, j: int| 0 <= i < j < rows.len() ==> (#[trigger] rows[i]).id != (#[trigger] rows[j]).id
}

proof fn lemma_rows_recorded(store: StoreView, rows: Seq<KworkActivityView>, now: u64)
    requires
        store.data.kworks.dom().finite(),
        store.data.kworks.len() + rows.len() <= MAX_KWORKS,
        distinct_rows(rows),
    ensures
        rows_recorded(store, rows, now).data.kworks.dom().finite(),
        rows_recorded(store, rows, now).data.kworks.len() <= store.data.kworks.len() + rows.len(),
        forall|j: int| 0 <= j < rows.len() ==> {
            let r = #[trigger] rows[j];
            &&& rows_recorded(store, rows, now).data.kworks.contains_key(r.id)
            &&& rows_recorded(store, rows, now).data.kworks[r.id] == stored_kwork(r.name, r.views, r.orders, now)
        },
    decreases rows.len(),
{
    if rows.len() > 0 {
        let init = rows.drop_last();
        assert(distinct_rows(init)) by {
            assert forall|i: int, j: int| 0 <= i < j < init.len() implies (#[trigger] init[i]).id != (
            #[trigger] init[j]).id by {
                assert(init[i] == rows[i] && init[j] == rows[j]);
            }
        }
        lemma_rows_recorded(store, init, now);
        let s = rows_recorded(store, init, now);
        let r = rows.last();
        let m = s.data.kworks.insert(r.id, stored_kwork(r.name, r.views, r.orders, now));
        assert(m.len() <= store.data.kworks.len() + rows.len()) by {
            if s.data.kworks.contains_key(r.id) {
                assert(m.dom() =~= s.data.kworks.dom());
            } else {
                assert(m.dom() =~= s.data.kworks.dom().insert(r.id));
            }
        }
        law_pruning_keeps_bound::<KworkSnapshot>(m, MAX_KWORKS as nat);
        assert forall|j: int| 0 <= j < rows.len() implies {
            let q = #[trigger] rows[j];
            &&& m.contains_key(q.id)
            &&& m[q.id] == stored_kwork(q.name, q.views, q.orders, now)
        } by {
            if j < rows.len() - 1 {
                assert(rows[j] == init[j]);
                assert(rows[j].id != r.id);
            }
        }
    }
}

proof fn lemma_nothing_grew(m: Map<i64, KworkView>, rows: Seq<KworkActivityView>, now: u64)
    requires
        forall|j: int| 0 <= j < rows.len() ==> {
            let r = #[trigger] rows[j];
            &&& m.contains_key(r.id)
            &&& m[r.id] == stored_kwork(r.name, r.views, r.orders, now)
        },
    ensures
        stat_lists(m, rows).0.len() == 0,
        stat_lists(m, rows).1.len() == 0,
    decreases rows.len(),
{
    if rows.len() > 0 {
        let init = rows.drop_last();
        assert forall|j: int| 0 <= j < init.len() implies {
            let r = #[trigger] init[j];
            &&& m.contains_key(r.id)
            &&& m[r.id] == stored_kwork(r.name, r.views, r.orders, now)
        } by {
            assert(init[j] == rows[j]);
        }
        lemma_nothing_grew(m, init, now);
        assert(rows.last() == rows[rows.len() - 1]);
    }
}

/// Right after a statistics run has been applied, the same figures report
/// nothing: every kwork of the run is stored with its current views and
/// orders.  This needs the run's ids to be distinct and the store to have
/// room for all of them without dropping any.
pub proof fn law_stats_reported_once(store: StoreView, rows: Seq<KworkActivityView>, complete: bool, now: u64)
    requires
        store.data.kworks.dom().finite(),
        store.data.kworks.len() + rows.len() <= MAX_KWORKS,
        distinct_rows(rows),
    ensures
        stats_report_of(stats_applied(store, rows, complete, now).data.kworks, rows) is None,
{
    let s1 = if complete {
        kworks_retained(store, rows.map_values(|r: KworkActivityView| r.id))
    } else {
        store
    };
    if complete {
        let kept = store.data.kworks.restrict(Set::new(|k: i64| rows.map_values(|r: KworkActivityView| r.id).contains(k)));
        assert(kept.dom() =~= store.data.kworks.dom().intersect(
            Set::new(|k: i64| rows.map_values(|r: KworkActivityView| r.id).contains(k)),
        ));
        vstd::set_lib::lemma_len_intersect(
            store.data.kworks.dom(),
            Set::new(|k: i64| rows.map_values(|r: KworkActivityView| r.id).contains(k)),
        );
    }
    lemma_rows_recorded(s1, rows, now);
    lemma_nothing_grew(stats_applied(store, rows, complete, now).data.kworks, rows, now);
}

} // verus!

verus! {

// ---------------------------------------------------------------------------
// Reading back what was stored
// ---------------------------------------------------------------------------

/// A dialog fingerprint reads back as stored (cut to 256 bytes) when the
/// store held fewer dialogs than its cap.
pub proof fn law_dialog_read_after_write(store: StoreView, user_id: i64, value: Seq<char>, now: u64)
    requires
        store.data.dialogs.dom().finite(),
        store.data.dialogs.len() < MAX_DIALOGS,
    ensures
        fingerprint_value(
            pruned::<Fingerprint>(
                store.data.dialogs.insert(user_id, stored_fingerprint(value, now)),
                MAX_DIALOGS as nat,
            ),
            user_id,
        ) == Some(truncate_bytes(value, MAX_FINGERPRINT_BYTES as nat)),
{
    let m = store.data.dialogs.insert(user_id, stored_fingerprint(value, now));
    assert(m.len() <= MAX_DIALOGS) by {
        if store.data.dialogs.contains_key(user_id) {
            assert(m.dom() =~= store.data.dialogs.dom());
        } else {
            assert(m.dom() =~= store.data.dialogs.dom().insert(user_id));
        }
    }
    law_pruning_keeps_bound::<Fingerprint>(m, MAX_DIALOGS as nat);
}

/// After a job is recorded as successful at `now`, its last success is `now`.
pub proof fn law_last_success_after_record(store: StoreView, job: Seq<char>, now: u64)
    ensures
        store.data.health.insert(job, now).contains_key(job),
        store.data.health.insert(job, now)[job] == now,
{
}

} // verus!

verus! {

// ---------------------------------------------------------------------------
// Loading
// ---------------------------------------------------------------------------

proof fn lemma_prefix_idempotent(s: Seq<char>, n: nat)
    ensures
        prefix(prefix(s, n), n) == prefix(s, n),
        prefix(s, n).len() <= n,
{
}

proof fn lemma_normalized_fingerprints(m: Map<i64, FingerprintView>, limit: nat)
    requires
        m.dom().finite(),
    ensures
        ({
            let p = pruned::<Fingerprint>(m.map_values(|f: FingerprintView| trunc_fp(f)), limit);
            &&& p.dom().finite()
            &&& p.len() <= limit
            &&& forall|k: i64| #[trigger] p.contains_key(k) ==> encode_utf8(p[k].value).len()
                <= MAX_FINGERPRINT_BYTES
            &&& p.map_values(|f: FingerprintView| trunc_fp(f)) == p
            &&& pruned::<Fingerprint>(p.map_values(|f: FingerprintView| trunc_fp(f)), limit) == p
        }),
{
    let t = m.map_values(|f: FingerprintView| trunc_fp(f));
    assert(t.dom() =~= m.dom());
    law_pruning_keeps_bound::<Fingerprint>(t, limit);
    let p = pruned::<Fingerprint>(t, limit);
    assert forall|k: i64| #[trigger] p.contains_key(k) implies encode_utf8(p[k].value).len()
        <= MAX_FINGERPRINT_BYTES && trunc_fp(p[k]) == p[k] by {
        assert(t.contains_key(k) && t[k] == p[k]);
        lemma_truncate_fits(m[k].value, MAX_FINGERPRINT_BYTES as nat);
        lemma_truncate_fits(p[k].value, MAX_FINGERPRINT_BYTES as nat);
    }
    assert(p.map_values(|f: FingerprintView| trunc_fp(f)) =~= p);
    law_pruning_keeps_bound::<Fingerprint>(p, limit);
}

proof fn lemma_normalized_kworks(m: Map<i64, KworkView>, limit: nat)
    requires
        m.dom().finite(),
    ensures
        ({
            let p = pruned::<KworkSnapshot>(m.map_values(|k: KworkView| trunc_kw(k)), limit);
            &&& p.dom().finite()
            &&& p.len() <= limit
            &&& forall|k: i64| #[trigger] p.contains_key(k) ==> encode_utf8(p[k].name).len()
                <= MAX_KWORK_NAME_BYTES
            &&& p.map_values(|k: KworkView| trunc_kw(k)) == p
            &&& pruned::<KworkSnapshot>(p.map_values(|k: KworkView| trunc_kw(k)), limit) == p
        }),
{
    let t = m.map_values(|k: KworkView| trunc_kw(k));
    assert(t.dom() =~= m.dom());
    law_pruning_keeps_bound::<KworkSnapshot>(t, limit);
    let p = pruned::<KworkSnapshot>(t, limit);
    assert forall|k: i64| #[trigger] p.contains_key(k) implies encode_utf8(p[k].name).len()
        <= MAX_KWORK_NAME_BYTES && trunc_kw(p[k]) == p[k] by {
        assert(t.contains_key(k) && t[k] == p[k]);
        lemma_truncate_fits(m[k].name, MAX_KWORK_NAME_BYTES as nat);
        lemma_truncate_fits(p[k].name, MAX_KWORK_NAME_BYTES as nat);
    }
    assert(p.map_values(|k: KworkView| trunc_kw(k)) =~= p);
    law_pruning_keeps_bound::<KworkSnapshot>(p, limit);
}

/// A loaded state is within every bound (map caps, 256-byte fingerprints,
/// 128-byte names, 500-character error), and loading it again changes
/// nothing: what is saved after loading loads back as it was.
pub proof fn law_loaded_state_bounded_and_stable(d: StateView)
    requires
        d.dialogs.dom().finite(),
        d.kworks.dom().finite(),
        d.orders.dom().finite(),
    ensures
        normalized(d).dialogs.len() <= MAX_DIALOGS,
        normalized(d).kworks.len() <= MAX_KWORKS,
        normalized(d).orders.len() <= MAX_STORED_ORDERS,
        forall|k: i64| #[trigger] normalized(d).dialogs.contains_key(k) ==> encode_utf8(
            normalized(d).dialogs[k].value,
        ).len() <= MAX_FINGERPRINT_BYTES,
        forall|k: i64| #[trigger] normalized(d).orders.contains_key(k) ==> encode_utf8(
            normalized(d).orders[k].value,
        ).len() <= MAX_FINGERPRINT_BYTES,
        forall|k: i64| #[trigger] normalized(d).kworks.contains_key(k) ==> encode_utf8(
            normalized(d).kworks[k].name,
        ).len() <= MAX_KWORK_NAME_BYTES,
        normalized(d).last_error matches Some(e) ==> e.message.len() <= MAX_ERROR_CHARS,
        normalized(normalized(d)) == normalized(d),
        !normalize_changes(normalized(d)),
{
    lemma_normalized_fingerprints(d.dialogs, MAX_DIALOGS as nat);
    lemma_normalized_fingerprints(d.orders, MAX_STORED_ORDERS as nat);
    lemma_normalized_kworks(d.kworks, MAX_KWORKS as nat);
    let n = normalized(d);
    match d.last_error {
        Some(e) => {
            lemma_prefix_idempotent(e.message, MAX_ERROR_CHARS as nat);
        },
        None => {},
    }
    assert(normalized(n) =~= n);
    assert(!over_bounds(n));
}

} // verus!

verus! {

/// Worker orders are requested page by page, one page further each time,
/// and never beyond the page limit: a response that asks for more moves to
/// the next page, which is at most the limit, and the pager stops once done.
pub proof fn law_order_pages_are_bounded(
    p: PagerView,
    body: Json,
    login: Seq<char>,
    password: Seq<char>,
    token: Seq<char>,
)
    requires
        1 <= p.page <= MAX_ORDER_PAGES,
    ensures
        ({
            let (v, err, more) = absorb_result(p, body, login, password, token);
            &&& more ==> !p.done && !v.done && v.page == p.page + 1 && v.page <= MAX_ORDER_PAGES
            &&& !more ==> v.done
            &&& p.done ==> v == p && err is None
        }),
{
}

} // verus!

verus! {

// ---------------------------------------------------------------------------
// Administrator commands
// ---------------------------------------------------------------------------

proof fn lemma_first_ws_props(s: Seq<char>)
    ensures
        0 <= first_ws(s) <= s.len(),
        forall|k: int| 0 <= k < first_ws(s) ==> !is_ws(#[trigger] s[k]),
    decreases s.len(),
{
    if s.len() > 0 && !is_ws(s[0]) {
        lemma_first_ws_props(s.drop_first());
        assert forall|k: int| 0 <= k < first_ws(s) implies !is_ws(#[trigger] s[k]) by {
            if k > 0 {
                assert(s[k] == s.drop_first()[k - 1]);
            }
        }
    }
}

/// A command comes only from the administrator's chat, only from a message
/// with text whose trimmed form starts with `/`; it is a non-empty word in
/// ASCII lower case, without whitespace and without the `@bot` suffix.
pub proof fn law_admin_command_shape(admin_id: i64, chat_id: i64, text: Option<Seq<char>>)
    ensures
        text is None ==> admin_command(admin_id, chat_id, text) is None,
        chat_id != admin_id ==> admin_command(admin_id, chat_id, text) is None,
        (text matches Some(t) && (trim(t).len() == 0 || trim(t)[0] != '/')) ==> admin_command(
            admin_id,
            chat_id,
            text,
        ) is None,
        admin_command(admin_id, chat_id, text) matches Some(c) ==> {
            &&& chat_id == admin_id
            &&& text matches Some(t) && trim(t).len() > 0 && trim(t)[0] == '/'
            &&& c.len() > 0
            &&& lower_ascii(c) == c
            &&& forall|i: int| 0 <= i < c.len() ==> (#[trigger] c[i]) != '@' && !is_ws(c[i])
        },
{
    if let Some(x) = text {
        let t = trim(x);
        if chat_id == admin_id && t.len() > 0 && t[0] == '/' {
            let u = trim_start(t.drop_first());
            if u.len() > 0 {
                lemma_first_ws_props(u);
                let w = u.take(first_ws(u));
                lemma_first_index_props(w, '@');
                let v = w.take(first_index(w, '@'));
                let c = lower_ascii(v);
                assert forall|i: int| 0 <= i < c.len() implies (#[trigger] c[i]) != '@' && !is_ws(c[i]) by {
                    assert(v[i] == w[i] && w[i] == u[i]);
                    assert(c[i] == ascii_lower(v[i]));
                }
                assert(lower_ascii(c) =~= c);
            }
        }
    }
}

// ---------------------------------------------------------------------------
// Message pieces
// ---------------------------------------------------------------------------

/// A message splits into at least one piece; every piece but the last holds
/// exactly the limit, the last holds at most the limit, and no piece is empty
/// unless the message is.
pub proof fn law_message_pieces_shape(s: Seq<char>, max: nat)
    requires
        max > 0,
    ensures
        message_chunks(s, max).len() >= 1,
        forall|i: int| 0 <= i < message_chunks(s, max).len() - 1 ==> (#[trigger] message_chunks(s, max)[i]).len() == max,
        message_chunks(s, max).last().len() <= max,
        s.len() > 0 ==> forall|i: int| 0 <= i < message_chunks(s, max).len() ==> (#[trigger] message_chunks(s, max)[i]).len() > 0,
        s.len() <= max ==> message_chunks(s, max) == seq![s],
    decreases s.len(),
{
    let c = message_chunks(s, max);
    if s.len() > max {
        let rest = message_chunks(s.skip(max as int), max);
        law_message_pieces_shape(s.skip(max as int), max);
        assert(c =~= seq![s.take(max as int)] + rest);
        assert(c.last() == rest.last());
        assert forall|i: int| 0 <= i < c.len() - 1 implies (#[trigger] c[i]).len() == max by {
            if i > 0 {
                assert(c[i] == rest[i - 1]);
            }
        }
        assert forall|i: int| 0 <= i < c.len() implies (#[trigger] c[i]).len() > 0 by {
            if i > 0 {
                assert(c[i] == rest[i - 1]);
            }
        }
    }
}

// ---------------------------------------------------------------------------
// Telegram backoff
// ---------------------------------------------------------------------------

/// After a failure at `now` (the `n`-th in a row), requests are held back
/// exactly until `now` plus two to the power min(n, 6) seconds, which is at
/// most 64 seconds; after a success nothing is held back.
pub proof fn law_backoff_window(b: Backoff, now: u128, t: u128)
    requires
        b.until == Some((now + backoff_len(b.consecutive_errors) * BACKOFF_NANOS_PER_SEC) as u128),
        now + backoff_len(b.consecutive_errors) * BACKOFF_NANOS_PER_SEC <= u128::MAX,
    ensures
        backoff_active(b, t) <==> t < now + backoff_len(b.consecutive_errors) * BACKOFF_NANOS_PER_SEC,
        backoff_len(b.consecutive_errors) <= 64,
        backoff_len(b.consecutive_errors) == pow2(
            if b.consecutive_errors < 6 {
                b.consecutive_errors as nat
            } else {
                6
            },
        ),
        !backoff_active(Backoff { consecutive_errors: 0, until: None }, t),
{
    law_backoff_capped(b.consecutive_errors as nat);
}

// ---------------------------------------------------------------------------
// Plain text of messages
// ---------------------------------------------------------------------------

proof fn lemma_ws_scan_shape(s: Seq<char>)
    ensures
        ({
            let (o, p) = ws_scan(s);
            &&& p ==> o.len() > 0
            &&& o.len() > 0 ==> !is_ws(o[0]) && !is_ws(o.last())
            &&& forall|i: int| 0 <= i < o.len() && is_ws(#[trigger] o[i]) ==> o[i] == ' '
            &&& forall|i: int| 0 <= i < o.len() - 1 ==> !(is_ws(#[trigger] o[i]) && is_ws(o[i + 1]))
        }),
    decreases s.len(),
{
    if s.len() > 0 {
        lemma_ws_scan_shape(s.drop_last());
        let (o, p) = ws_scan(s.drop_last());
        let c = s.last();
        if !is_ws(c) {
            if p {
                let o2 = o.push(' ').push(c);
                assert(o2[o.len() as int] == ' ');
                assert forall|i: int| 0 <= i < o2.len() && is_ws(#[trigger] o2[i]) implies o2[i] == ' ' by {
                    if i < o.len() {
                        assert(o2[i] == o[i]);
                    }
                }
                assert forall|i: int| 0 <= i < o2.len() - 1 implies !(is_ws(#[trigger] o2[i]) && is_ws(o2[i + 1])) by {
                    if i < o.len() - 1 {
                        assert(o2[i] == o[i] && o2[i + 1] == o[i + 1]);
                    } else if i == o.len() - 1 {
                        assert(o2[i] == o.last());
                    }
                }
                assert(o2[0] == o[0]);
            } else {
                let o2 = o.push(c);
                assert forall|i: int| 0 <= i < o2.len() && is_ws(#[trigger] o2[i]) implies o2[i] == ' ' by {
                    if i < o.len() {
                        assert(o2[i] == o[i]);
                    }
                }
                assert forall|i: int| 0 <= i < o2.len() - 1 implies !(is_ws(#[trigger] o2[i]) && is_ws(o2[i + 1])) by {
                    if i < o.len() - 1 {
                        assert(o2[i] == o[i] && o2[i + 1] == o[i + 1]);
                    }
                }
                if o.len() > 0 {
                    assert(o2[0] == o[0]);
                }
            }
        }
    }
}

/// The plain text of a message has no whitespace at either end, no two
/// whitespace characters in a row, and no whitespace but plain spaces.
pub proof fn law_plain_text_is_trimmed(s: Seq<char>)
    ensures
        plain_text(s).len() > 0 ==> !is_ws(plain_text(s)[0]) && !is_ws(plain_text(s).last()),
        forall|i: int| 0 <= i < plain_text(s).len() && is_ws(#[trigger] plain_text(s)[i]) ==> plain_text(s)[i] == ' ',
        forall|i: int| 0 <= i < plain_text(s).len() - 1 ==> !(is_ws(#[trigger] plain_text(s)[i]) && is_ws(
            plain_text(s)[i + 1],
        )),
{
    lemma_ws_scan_shape(unescaped(tag_scan(s).0));
}

// ---------------------------------------------------------------------------
// Stored strings
// ---------------------------------------------------------------------------

/// A value cut to a byte bound (as `set_dialog`, `set_order` and `set_kwork`
/// store it) is the longest prefix of the value whose UTF-8 encoding fits.
pub proof fn law_stored_value_is_longest_prefix(s: Seq<char>, max: nat)
    ensures
        truncate_bytes(s, max) == s.take(truncate_bytes(s, max).len() as int),
        truncate_bytes(s, max).len() <= s.len(),
        encode_utf8(truncate_bytes(s, max)).len() <= max,
        truncate_bytes(s, max).len() < s.len() ==> encode_utf8(s.take(truncate_bytes(s, max).len() as int + 1)).len() > max,
    decreases s.len(),
{
    lemma_truncate_fits(s, max);
    if s.len() == 0 || encode_utf8(s).len() <= max {
        assert(s.take(s.len() as int) =~= s);
    } else {
        let d = s.drop_last();
        law_stored_value_is_longest_prefix(d, max);
        let t = truncate_bytes(d, max);
        assert(d.take(t.len() as int) =~= s.take(t.len() as int));
        if t.len() < d.len() {
            assert(d.take(t.len() as int + 1) =~= s.take(t.len() as int + 1));
        } else {
            assert(s.take(t.len() as int + 1) =~= s);
        }
    }
}

} // verus!

verus! {

// ---------------------------------------------------------------------------
// A statistics run
// ---------------------------------------------------------------------------

/// Whether a row grew or is new against the stored snapshots.
pub open spec fn row_changed(m: Map<i64, KworkView>, r: KworkActivityView) -> bool {
    stat_change_of(snapshot_of(m, r.id), r.views, r.orders) != StatChange::Unchanged
}

proof fn lemma_stat_lists_empty(m: Map<i64, KworkView>, rows: Seq<KworkActivityView>)
    ensures
        (stat_lists(m, rows).0.len() > 0 || stat_lists(m, rows).1.len() > 0) <==> exists|j: int|
            0 <= j < rows.len() && row_changed(m, #[trigger] rows[j]),
    decreases rows.len(),
{
    if rows.len() > 0 {
        let init = rows.drop_last();
        lemma_stat_lists_empty(m, init);
        if exists|j: int| 0 <= j < init.len() && row_changed(m, #[trigger] init[j]) {
            let j = choose|j: int| 0 <= j < init.len() && row_changed(m, #[trigger] init[j]);
            assert(rows[j] == init[j]);
        }
        if exists|j: int| 0 <= j < rows.len() && row_changed(m, #[trigger] rows[j]) {
            let j = choose|j: int| 0 <= j < rows.len() && row_changed(m, #[trigger] rows[j]);
            if j < init.len() {
                assert(init[j] == rows[j]);
            } else {
                assert(rows[j] == rows.last());
            }
        }
        assert(row_changed(m, rows.last()) ==> row_changed(m, rows[rows.len() - 1]));
    }
}

/// A statistics run sends at most one notice, and it sends one exactly when
/// some row is new or has more views or orders than its stored snapshot;
/// the run then counts one notice if it was delivered.
pub proof fn law_stats_run_notice(m: Map<i64, KworkView>, rows: Seq<KworkActivityView>)
    ensures
        stats_report_of(m, rows) is Some <==> exists|j: int| 0 <= j < rows.len() && row_changed(m, #[trigger] rows[j]),
{
    lemma_stat_lists_empty(m, rows);
}

// ---------------------------------------------------------------------------
// The summary
// ---------------------------------------------------------------------------

proof fn lemma_summary_first_exists(m: Map<i64, KworkView>)
    requires
        m.dom().finite(),
        m.len() > 0,
    ensures
        exists|k: i64| m.contains_key(k) && forall|j: i64| #[trigger] m.contains_key(j) && j != k ==> summary_before(m, k, j),
    decreases m.len(),
{
    let k0 = m.dom().choose();
    assert(m.contains_key(k0));
    let rest = m.remove(k0);
    if rest.len() == 0 {
        assert forall|j: i64| #[trigger] m.contains_key(j) && j != k0 implies summary_before(m, k0, j) by {
            assert(rest.contains_key(j));
        }
    } else {
        lemma_summary_first_exists(rest);
        let o = choose|k: i64| rest.contains_key(k) && forall|j: i64| #[trigger] rest.contains_key(j) && j != k ==> summary_before(rest, k, j);
        lemma_summary_before_total(m, o, k0);
        if summary_before(m, o, k0) {
            assert forall|j: i64| #[trigger] m.contains_key(j) && j != o implies summary_before(m, o, j) by {
                if j != k0 {
                    assert(rest.contains_key(j));
                    assert(summary_before(rest, o, j));
                }
            }
        } else {
            assert forall|j: i64| #[trigger] m.contains_key(j) && j != k0 implies summary_before(m, k0, j) by {
                if j != o {
                    assert(rest.contains_key(j));
                    assert(summary_before(rest, o, j));
                    lemma_summary_before_trans(m, k0, o, j);
                }
            }
        }
    }
}

proof fn lemma_summary_order_exists(m: Map<i64, KworkView>)
    requires
        m.dom().finite(),
    ensures
        exists|s: Seq<i64>| summary_order(m, s),
    decreases m.len(),
{
    if m.len() == 0 {
        let s = Seq::<i64>::empty();
        assert forall|k: i64| #[trigger] m.contains_key(k) implies s.contains(k) by {
            assert(m.dom().contains(k));
        }
        assert(summary_order(m, s));
    } else {
        lemma_summary_first_exists(m);
        let x = choose|k: i64| m.contains_key(k) && forall|j: i64| #[trigger] m.contains_key(j) && j != k ==> summary_before(m, k, j);
        let rest = m.remove(x);
        lemma_summary_order_exists(rest);
        let r = choose|s: Seq<i64>| summary_order(rest, s);
        let s = seq![x] + r;
        assert forall|i: int, j: int| 0 <= i < j < s.len() implies summary_before(m, #[trigger] s[i], #[trigger] s[j]) by {
            assert(s[j] == r[j - 1]);
            assert(rest.contains_key(r[j - 1]));
            if i == 0 {
                assert(s[0] == x);
            } else {
                assert(s[i] == r[i - 1]);
                assert(summary_before(rest, r[i - 1], r[j - 1]));
                assert(rest.contains_key(r[i - 1]));
            }
        }
        assert forall|i: int| 0 <= i < s.len() implies m.contains_key(#[trigger] s[i]) by {
            if i > 0 {
                assert(s[i] == r[i - 1]);
                assert(rest.contains_key(r[i - 1]));
            }
        }
        assert forall|k: i64| #[trigger] m.contains_key(k) implies s.contains(k) by {
            if k == x {
                assert(s[0] == x);
            } else {
                assert(rest.contains_key(k));
                assert(r.contains(k));
                let i = choose|i: int| 0 <= i < r.len() && r[i] == k;
                assert(s[i + 1] == k);
            }
        }
        assert(summary_order(m, s));
    }
}

/// The summary of the stored kworks: a fixed sentence when nothing is
/// stored; otherwise one line per stored kwork, ordered by name (kworks with
/// the same name by the decimal text of their ids, the order of the state
/// file's keys), then an empty line and the totals.
pub proof fn law_summary_by_name(m: Map<i64, KworkView>)
    requires
        m.dom().finite(),
    ensures
        summary_order(m, summary_keys(m)),
        summary_keys(m).len() == m.len(),
        m.len() == 0 ==> summary_text(m) == "📊 Сводка: пока нет данных по кворкам."@,
        forall|i: int, j: int| 0 <= i < j < summary_keys(m).len() ==> {
            let a = #[trigger] summary_keys(m)[i];
            let b = #[trigger] summary_keys(m)[j];
            &&& !lex_lt(m[b].name, m[a].name)
            &&& m[a].name == m[b].name ==> lex_lt(dec(a as int), dec(b as int))
        },
{
    lemma_summary_order_exists(m);
    let s = summary_keys(m);
    assert(summary_order(m, s));
    assert forall|i: int, j: int| 0 <= i < j < s.len() implies {
        let a = #[trigger] s[i];
        let b = #[trigger] s[j];
        &&& !lex_lt(m[b].name, m[a].name)
        &&& m[a].name == m[b].name ==> lex_lt(dec(a as int), dec(b as int))
    } by {
        assert(summary_before(m, s[i], s[j]));
        lemma_lex_asym(m[s[i]].name, m[s[j]].name);
        lemma_lex_irrefl(m[s[i]].name);
    }
    // The listing has no repeats and covers the store, so it is as long as the store.
    assert(s.no_duplicates()) by {
        assert forall|i: int, j: int| 0 <= i < s.len() && 0 <= j < s.len() && i != j implies s[i] != s[j] by {
            if i < j {
                assert(summary_before(m, s[i], s[j]));
                if s[i] == s[j] {
                    lemma_summary_before_irrefl(m, s[i]);
                }
            } else {
                assert(summary_before(m, s[j], s[i]));
                if s[i] == s[j] {
                    lemma_summary_before_irrefl(m, s[j]);
                }
            }
        }
    }
    assert(s.to_set() =~= m.dom()) by {
        assert forall|k: i64| s.to_set().contains(k) <==> m.dom().contains(k) by {
            if s.to_set().contains(k) {
                let i = choose|i: int| 0 <= i < s.len() && s[i] == k;
                assert(m.contains_key(s[i]));
            }
            if m.dom().contains(k) {
                assert(m.contains_key(k));
                assert(s.contains(k));
            }
        }
    }
    s.unique_seq_to_set();
}

// ---------------------------------------------------------------------------
// Normalization drops the oldest entries
// ---------------------------------------------------------------------------

/// Pruning drops only entries older than every entry it keeps.
pub proof fn law_pruning_drops_oldest<V: Stamped>(m: Map<i64, V::V>, limit: nat)
    requires
        m.dom().finite(),
    ensures
        forall|k: i64, j: i64|
            #![trigger m.contains_key(k), pruned::<V>(m, limit).contains_key(j)]
            m.contains_key(k) && !pruned::<V>(m, limit).contains_key(k) && pruned::<V>(m, limit).contains_key(j)
                ==> older::<V>(m, k, j),
    decreases m.len(),
{
    law_pruning_keeps_bound::<V>(m, limit);
    if m.len() > limit {
        lemma_oldest_exists::<V>(m);
        let o = oldest::<V>(m);
        let rest = m.remove(o);
        law_pruning_drops_oldest::<V>(rest, limit);
        law_pruning_keeps_bound::<V>(rest, limit);
        let p = pruned::<V>(m, limit);
        assert(p == pruned::<V>(rest, limit));
        assert forall|k: i64, j: i64|
            #![trigger m.contains_key(k), p.contains_key(j)]
            m.contains_key(k) && !p.contains_key(k) && p.contains_key(j) implies older::<V>(m, k, j) by {
            assert(rest.contains_key(j));
            if k != o {
                assert(rest.contains_key(k));
                assert(older::<V>(rest, k, j));
            }
        }
    }
}

/// Reloading what a load produced changes nothing and marks nothing to save.
pub proof fn law_reload_is_clean(path: Seq<char>, d: StateView)
    requires
        d.dialogs.dom().finite(),
        d.kworks.dom().finite(),
        d.orders.dom().finite(),
        d.version == crate::state::STATE_VERSION,
    ensures
        load_spec(path, Some(normalized(d))) == Ok::<StoreView, Seq<char>>(
            StoreView { path, data: normalized(d), dirty: false },
        ),
{
    law_loaded_state_bounded_and_stable(d);
}

} // verus!

verus! {

// ---------------------------------------------------------------------------
// A whole capped read
// ---------------------------------------------------------------------------

/// Chunks read one after another into a body: refused (`None`) at the first
/// chunk that would take the body past the limit, as `ResponseBody::absorb`
/// does; otherwise the body with every chunk appended.
pub open spec fn read_chunks(body: Seq<u8>, chunks: Seq<Seq<u8>>) -> Option<Seq<u8>>
    decreases chunks.len(),
{
    if chunks.len() == 0 {
        Some(body)
    } else if body.len() + chunks[0].len() > MAX_RESPONSE_BYTES {
        None
    } else {
        read_chunks(body + chunks[0], chunks.drop_first())
    }
}

proof fn lemma_read_chunks(body: Seq<u8>, chunks: Seq<Seq<u8>>)
    requires
        body.len() <= MAX_RESPONSE_BYTES,
    ensures
        read_chunks(body, chunks) is None <==> body.len() + chunks.flatten().len() > MAX_RESPONSE_BYTES,
        read_chunks(body, chunks) matches Some(b) ==> b == body + chunks.flatten(),
    decreases chunks.len(),
{
    if chunks.len() == 0 {
        assert(body + chunks.flatten() =~= body);
    } else {
        assert(chunks.flatten() == chunks[0] + chunks.drop_first().flatten());
        if body.len() + chunks[0].len() <= MAX_RESPONSE_BYTES {
            lemma_read_chunks(body + chunks[0], chunks.drop_first());
            assert(body + chunks[0] + chunks.drop_first().flatten() =~= body + chunks.flatten());
        }
    }
}

/// Reading a whole response chunk by chunk fails as oversized exactly when
/// all its bytes together pass the limit; otherwise the body is every byte
/// read, and it becomes text exactly when it is valid UTF-8.
pub proof fn law_capped_read(chunks: Seq<Seq<u8>>)
    ensures
        read_chunks(Seq::empty(), chunks) is None <==> chunks.flatten().len() > MAX_RESPONSE_BYTES,
        read_chunks(Seq::empty(), chunks) matches Some(b) ==> b == chunks.flatten() && b.len()
            <= MAX_RESPONSE_BYTES,
{
    lemma_read_chunks(Seq::empty(), chunks);
    assert(Seq::<u8>::empty() + chunks.flatten() =~= chunks.flatten());
}

// ---------------------------------------------------------------------------
// Paging through worker orders
// ---------------------------------------------------------------------------

/// A run of the pager over the responses to its requests, in order: the
/// pager at the end, the error it met (if any), and how many responses it
/// took before it stopped.
pub open spec fn pager_run(
    p: PagerView,
    bodies: Seq<Json>,
    login: Seq<char>,
    password: Seq<char>,
    token: Seq<char>,
) -> (PagerView, Option<ApiErrorView>, nat)
    decreases bodies.len(),
{
    if p.done || bodies.len() == 0 {
        (p, None, 0)
    } else {
        let (v, e, more) = absorb_result(p, bodies[0], login, password, token);
        if !more {
            (v, e, 1)
        } else {
            let (w, e2, n) = pager_run(v, bodies.drop_first(), login, password, token);
            (w, e2, n + 1)
        }
    }
}

/// The pager a run starts with.
pub open spec fn fresh_pager() -> PagerView {
    PagerView { orders: Seq::empty(), page: 1, done: false }
}

/// No collected order has id 0.
pub open spec fn nonzero_ids(s: Seq<OrderView>) -> bool {
    forall|i: int| 0 <= i < s.len() ==> (#[trigger] s[i]).id != 0
}

proof fn lemma_orders_in_nonzero(items: Seq<Json>)
    ensures
        nonzero_ids(orders_in(items)),
    decreases items.len(),
{
    if items.len() > 0 {
        lemma_orders_in_nonzero(items.drop_last());
    }
}

proof fn lemma_merge_nonzero_and_room(acc: Seq<OrderView>, items: Seq<OrderView>)
    requires
        nonzero_ids(acc),
        nonzero_ids(items),
        acc.len() < MAX_ORDERS,
    ensures
        nonzero_ids(merge_orders(acc, items).0),
        !merge_orders(acc, items).2 ==> merge_orders(acc, items).0.len() < MAX_ORDERS,
    decreases items.len(),
{
    if items.len() > 0 {
        let rest = items.drop_first();
        assert forall|i: int| 0 <= i < rest.len() implies (#[trigger] rest[i]).id != 0 by {
            assert(rest[i] == items[i + 1]);
        }
        if has_order_id(acc, items[0].id) {
            lemma_merge_nonzero_and_room(acc, rest);
        } else {
            let acc2 = acc.push(items[0]);
            assert forall|i: int| 0 <= i < acc2.len() implies (#[trigger] acc2[i]).id != 0 by {
                if i < acc.len() {
                    assert(acc2[i] == acc[i]);
                }
            }
            if acc2.len() < MAX_ORDERS {
                lemma_merge_nonzero_and_room(acc2, rest);
            }
        }
    }
}

/// Whether a pager state is one a run can reach.
pub open spec fn pager_ok(p: PagerView) -> bool {
    &&& 1 <= p.page <= MAX_ORDER_PAGES
    &&& distinct_ids(p.orders)
    &&& nonzero_ids(p.orders)
    &&& p.orders.len() <= MAX_ORDERS
    &&& !p.done ==> p.orders.len() < MAX_ORDERS
}

proof fn lemma_absorb_ok(p: PagerView, body: Json, login: Seq<char>, password: Seq<char>, token: Seq<char>)
    requires
        pager_ok(p),
        !p.done,
    ensures
        ({
            let (v, e, more) = absorb_result(p, body, login, password, token);
            &&& pager_ok(v)
            &&& more ==> !v.done && v.page == p.page + 1
            &&& !more ==> v.done
        }),
{
    law_order_pages_are_bounded(p, body, login, password, token);
    let response = match get_field(body, "response"@) {
        Some(r) => r,
        None => body,
    };
    let items = orders_of(response);
    match order_list(response) {
        Some(l) => lemma_orders_in_nonzero(l),
        None => {},
    }
    law_order_merge_distinct_and_capped(p.orders, items);
    lemma_merge_nonzero_and_room(p.orders, items);
}

proof fn lemma_pager_run(
    p: PagerView,
    bodies: Seq<Json>,
    login: Seq<char>,
    password: Seq<char>,
    token: Seq<char>,
)
    requires
        pager_ok(p),
    ensures
        ({
            let (w, e, n) = pager_run(p, bodies, login, password, token);
            &&& pager_ok(w)
            &&& n <= bodies.len()
            &&& !p.done ==> n <= MAX_ORDER_PAGES + 1 - p.page
            &&& e is Some ==> w.done
            &&& (!p.done && n < bodies.len()) ==> w.done
            &&& forall|i: int| #![trigger bodies.take(i)] 0 <= i < n ==> {
                let q = pager_run(p, bodies.take(i), login, password, token).0;
                !q.done && q.page == p.page + i
            }
        }),
    decreases bodies.len(),
{
    let (w, e, n) = pager_run(p, bodies, login, password, token);
    if !p.done && bodies.len() > 0 {
        lemma_absorb_ok(p, bodies[0], login, password, token);
        let (v, e1, more) = absorb_result(p, bodies[0], login, password, token);
        if more {
            let rest = bodies.drop_first();
            lemma_pager_run(v, rest, login, password, token);
            assert forall|i: int| #![trigger bodies.take(i)] 0 <= i < n implies {
                let q = pager_run(p, bodies.take(i), login, password, token).0;
                !q.done && q.page == p.page + i
            } by {
                if i == 0 {
                    assert(bodies.take(0).len() == 0);
                } else {
                    let t = bodies.take(i);
                    assert(t[0] == bodies[0]);
                    assert(t.drop_first() =~= rest.take(i - 1));
                    assert(pager_run(p, t, login, password, token).0 == pager_run(
                        v,
                        rest.take(i - 1),
                        login,
                        password,
                        token,
                    ).0);
                }
            }
        } else {
            assert forall|i: int| #![trigger bodies.take(i)] 0 <= i < n implies {
                let q = pager_run(p, bodies.take(i), login, password, token).0;
                !q.done && q.page == p.page + i
            } by {
                assert(i == 0);
                assert(bodies.take(0).len() == 0);
            }
        }
    }
}

/// A whole paging run, starting at page 1 and fed the responses in order,
/// asks for pages 1, 2, … one after another and for at most 20 of them; the
/// orders it collects have distinct, non-zero ids and number at most 2000;
/// it stops early only once done, and an error ends it.
pub proof fn law_order_paging_run(bodies: Seq<Json>, login: Seq<char>, password: Seq<char>, token: Seq<char>)
    ensures
        ({
            let (w, e, n) = pager_run(fresh_pager(), bodies, login, password, token);
            &&& n <= MAX_ORDER_PAGES
            &&& n <= bodies.len()
            &&& distinct_ids(w.orders)
            &&& nonzero_ids(w.orders)
            &&& w.orders.len() <= MAX_ORDERS
            &&& n < bodies.len() ==> w.done
            &&& e is Some ==> w.done
            &&& forall|i: int| #![trigger bodies.take(i)] 0 <= i < n ==> pager_run(
                fresh_pager(),
                bodies.take(i),
                login,
                password,
                token,
            ).0.page == i + 1
        }),
{
    lemma_pager_run(fresh_pager(), bodies, login, password, token);
}

/// On a page whose response reports failure: error code 151 ends the run
/// with the orders gathered so far (none on the first page); any other
/// failure with an error text ends it with an API error.
pub proof fn law_order_page_failures(p: PagerView, body: Json, login: Seq<char>, password: Seq<char>, token: Seq<char>)
    requires
        !p.done,
        reports_failure(body),
    ensures
        or_i64(i64_of(get_field(body, "error_code"@)), 0) == 151 ==> absorb_result(
            p,
            body,
            login,
            password,
            token,
        ) == (PagerView { done: true, ..p }, None::<ApiErrorView>, false),
        (or_i64(i64_of(get_field(body, "error_code"@)), 0) != 151 && get_field(body, "error"@) is Some)
            ==> absorb_result(p, body, login, password, token).1 matches Some(ApiErrorView::Api(_)),
{
}

} // verus!

verus! {

// ---------------------------------------------------------------------------
// A whole orders run
// ---------------------------------------------------------------------------

/// An orders run over the fetched orders, in order, as the job drives it: for
/// each order the due notice (if any) is handed out, and `delivered[i]` is
/// whether the notice for the `i`-th order went out; the store, the notices
/// handed out, and how many were delivered.
pub open spec fn orders_run(store: StoreView, seeded: bool, os: Seq<OrderView>, delivered: Seq<bool>, now: u64) -> (
    StoreView,
    Seq<Seq<char>>,
    nat,
)
    decreases os.len(),
{
    if os.len() == 0 {
        (store, Seq::empty(), 0)
    } else {
        let (s, ns, k) = orders_run(store, seeded, os.drop_last(), delivered, now);
        let o = os.last();
        match order_notice_of(s, seeded, o) {
            None => (order_recorded(s, o, now), ns, k),
            Some(m) => if delivered[os.len() - 1] {
                (order_recorded(s, o, now), ns.push(m), k + 1)
            } else {
                (s, ns.push(m), k)
            },
        }
    }
}

/// No two orders share an id.
pub open spec fn distinct_order_ids(os: Seq<OrderView>) -> bool {
    forall|i: int, j: int| 0 <= i < j < os.len() ==> (#[trigger] os[i]).id != (#[trigger] os[j]).id
}

proof fn lemma_first_orders_run(store: StoreView, os: Seq<OrderView>, delivered: Seq<bool>, now: u64)
    requires
        store.data.orders.dom().finite(),
        store.data.orders.len() + os.len() <= MAX_STORED_ORDERS,
        distinct_order_ids(os),
    ensures
        ({
            let (s, ns, k) = orders_run(store, false, os, delivered, now);
            &&& ns.len() == 0
            &&& k == 0
            &&& s.data.orders.dom().finite()
            &&& s.data.orders.len() <= store.data.orders.len() + os.len()
            &&& s.data.orders_seeded == store.data.orders_seeded
            &&& s.data.health == store.data.health
            &&& forall|j: int| 0 <= j < os.len() ==> {
                let o = #[trigger] os[j];
                &&& s.data.orders.contains_key(o.id)
                &&& s.data.orders[o.id] == stored_fingerprint(status_key(o), now)
            }
        }),
    decreases os.len(),
{
    if os.len() > 0 {
        let init = os.drop_last();
        assert(distinct_order_ids(init)) by {
            assert forall|i: int, j: int| 0 <= i < j < init.len() implies (#[trigger] init[i]).id != (
            #[trigger] init[j]).id by {
                assert(init[i] == os[i] && init[j] == os[j]);
            }
        }
        lemma_first_orders_run(store, init, delivered, now);
        let (s, ns, k) = orders_run(store, false, init, delivered, now);
        let o = os.last();
        let m = s.data.orders.insert(o.id, stored_fingerprint(status_key(o), now));
        assert(m.len() <= store.data.orders.len() + os.len()) by {
            if s.data.orders.contains_key(o.id) {
                assert(m.dom() =~= s.data.orders.dom());
            } else {
                assert(m.dom() =~= s.data.orders.dom().insert(o.id));
            }
        }
        law_pruning_keeps_bound::<Fingerprint>(m, MAX_STORED_ORDERS as nat);
        assert forall|j: int| 0 <= j < os.len() implies {
            let q = #[trigger] os[j];
            &&& m.contains_key(q.id)
            &&& m[q.id] == stored_fingerprint(status_key(q), now)
        } by {
            if j < os.len() - 1 {
                assert(os[j] == init[j]);
                assert(os[j].id != o.id);
            }
        }
    }
}

/// The first orders run (before the store is seeded) sends no notice and
/// counts none; it records every fetched order's status, and once the run
/// ends the store is seeded and the run recorded.  This needs the fetched
/// ids to be distinct and the store to have room for all of them.
pub proof fn law_first_orders_run(store: StoreView, os: Seq<OrderView>, delivered: Seq<bool>, now: u64)
    requires
        store.data.orders.dom().finite(),
        store.data.orders.len() + os.len() <= MAX_STORED_ORDERS,
        distinct_order_ids(os),
    ensures
        ({
            let (s, ns, k) = orders_run(store, false, os, delivered, now);
            let finished = StoreView {
                data: StateView {
                    orders_seeded: true,
                    health: s.data.health.insert("orders"@, now),
                    ..s.data
                },
                dirty: true,
                ..s
            };
            &&& ns.len() == 0
            &&& k == 0
            &&& finished.data.orders_seeded
            &&& finished.data.health["orders"@] == now
            &&& forall|j: int| 0 <= j < os.len() ==> fingerprint_value(finished.data.orders, (#[trigger] os[j]).id)
                == Some(truncate_bytes(status_key(os[j]), MAX_FINGERPRINT_BYTES as nat))
        }),
{
    lemma_first_orders_run(store, os, delivered, now);
}

} // verus!

verus! {

// ---------------------------------------------------------------------------
// A whole inbox run
// ---------------------------------------------------------------------------

/// An inbox run over the fetched dialogs, in order, as the job drives it: a
/// dialog that needs no notice is recorded; for one that does, the notice is
/// handed out and `delivered[i]` says whether it went out, in which case the
/// dialog is recorded.  The store, the notices handed out, and how many were
/// delivered.
pub open spec fn inbox_run(store: StoreView, ds: Seq<DialogView>, delivered: Seq<bool>, now: u64) -> (
    StoreView,
    Seq<Seq<char>>,
    nat,
)
    decreases ds.len(),
{
    if ds.len() == 0 {
        (store, Seq::empty(), 0)
    } else {
        let (s, ns, k) = inbox_run(store, ds.drop_last(), delivered, now);
        let d = ds.last();
        if dialog_due(s, d) {
            if delivered[ds.len() - 1] {
                (dialog_recorded(s, d, now), ns.push(dialog_notice(d)), k + 1)
            } else {
                (s, ns.push(dialog_notice(d)), k)
            }
        } else {
            (dialog_recorded(s, d, now), ns, k)
        }
    }
}

/// The notices due for the dialogs against the store, in order.
pub open spec fn due_notices(store: StoreView, ds: Seq<DialogView>) -> Seq<Seq<char>>
    decreases ds.len(),
{
    if ds.len() == 0 {
        Seq::empty()
    } else if dialog_due(store, ds.last()) {
        due_notices(store, ds.drop_last()).push(dialog_notice(ds.last()))
    } else {
        due_notices(store, ds.drop_last())
    }
}

/// How many of the notices due against the store were delivered.
pub open spec fn delivered_count(store: StoreView, ds: Seq<DialogView>, delivered: Seq<bool>) -> nat
    decreases ds.len(),
{
    if ds.len() == 0 {
        0
    } else {
        delivered_count(store, ds.drop_last(), delivered) + if dialog_due(store, ds.last())
            && delivered[ds.len() - 1] {
            1nat
        } else {
            0nat
        }
    }
}

/// No two dialogs share a user id.
pub open spec fn distinct_users(ds: Seq<DialogView>) -> bool {
    forall|i: int, j: int| 0 <= i < j < ds.len() ==> (#[trigger] ds[i]).user_id != (#[trigger] ds[j]).user_id
}

proof fn lemma_inbox_run(store: StoreView, ds: Seq<DialogView>, delivered: Seq<bool>, now: u64)
    requires
        store.data.dialogs.dom().finite(),
        store.data.dialogs.len() + ds.len() <= MAX_DIALOGS,
        distinct_users(ds),
        delivered.len() >= ds.len(),
    ensures
        ({
            let (s, ns, k) = inbox_run(store, ds, delivered, now);
            &&& s.data.dialogs.dom().finite()
            &&& s.data.dialogs.len() <= store.data.dialogs.len() + ds.len()
            &&& ns == due_notices(store, ds)
            &&& k == delivered_count(store, ds, delivered)
            &&& forall|x: i64| (forall|j: int| 0 <= j < ds.len() ==> (#[trigger] ds[j]).user_id != x) ==> fingerprint_value(s.data.dialogs, x)
                == fingerprint_value(store.data.dialogs, x)
            &&& forall|j: int| 0 <= j < ds.len() ==> {
                let d = #[trigger] ds[j];
                if dialog_due(store, d) && !delivered[j] {
                    fingerprint_value(s.data.dialogs, d.user_id) == fingerprint_value(store.data.dialogs, d.user_id)
                } else {
                    fingerprint_value(s.data.dialogs, d.user_id) == Some(dialog_fingerprint(d))
                }
            }
        }),
    decreases ds.len(),
{
    if ds.len() > 0 {
        let init = ds.drop_last();
        assert(distinct_users(init)) by {
            assert forall|i: int, j: int| 0 <= i < j < init.len() implies (#[trigger] init[i]).user_id != (
            #[trigger] init[j]).user_id by {
                assert(init[i] == ds[i] && init[j] == ds[j]);
            }
        }
        lemma_inbox_run(store, init, delivered, now);
        let (s, ns, k) = inbox_run(store, init, delivered, now);
        let d = ds.last();
        let last = ds.len() - 1;
        assert(ds[last] == d);
        assert forall|j: int| 0 <= j < init.len() implies (#[trigger] init[j]).user_id != d.user_id by {
            assert(init[j] == ds[j]);
        }
        assert(fingerprint_value(s.data.dialogs, d.user_id) == fingerprint_value(store.data.dialogs, d.user_id));
        assert(dialog_due(s, d) == dialog_due(store, d));
        let fp = dialog_fingerprint(d);
        law_fingerprint_shape(crate::kwork::inbox::dialog_key(d));
        lemma_truncate_fits(fp, MAX_FINGERPRINT_BYTES as nat);
        let m = s.data.dialogs.insert(d.user_id, stored_fingerprint(fp, now));
        assert(m.len() <= store.data.dialogs.len() + ds.len()) by {
            if s.data.dialogs.contains_key(d.user_id) {
                assert(m.dom() =~= s.data.dialogs.dom());
            } else {
                assert(m.dom() =~= s.data.dialogs.dom().insert(d.user_id));
            }
        }
        law_pruning_keeps_bound::<Fingerprint>(m, MAX_DIALOGS as nat);
        let (s2, ns2, k2) = inbox_run(store, ds, delivered, now);
        let recorded = !dialog_due(store, d) || delivered[last];
        if recorded {
            assert(s2.data.dialogs == m);
        } else {
            assert(s2 == s);
        }
        assert forall|x: i64| (forall|j: int| 0 <= j < ds.len() ==> (#[trigger] ds[j]).user_id != x) implies fingerprint_value(s2.data.dialogs, x)
            == fingerprint_value(store.data.dialogs, x) by {
            assert forall|j: int| 0 <= j < init.len() implies (#[trigger] init[j]).user_id != x by {
                assert(init[j] == ds[j]);
            }
            assert(ds[last].user_id != x);
        }
        assert forall|j: int| 0 <= j < ds.len() implies {
            let q = #[trigger] ds[j];
            if dialog_due(store, q) && !delivered[j] {
                fingerprint_value(s2.data.dialogs, q.user_id) == fingerprint_value(store.data.dialogs, q.user_id)
            } else {
                fingerprint_value(s2.data.dialogs, q.user_id) == Some(dialog_fingerprint(q))
            }
        } by {
            if j < last {
                assert(ds[j] == init[j]);
                assert(ds[j].user_id != d.user_id);
            }
        }
    }
}

/// An inbox run hands out, in order, exactly the notices due against the
/// store it started from (each unread dialog whose fingerprint changed, once
/// each), and counts how many of them were delivered.  Afterwards a dialog
/// whose notice was not delivered keeps what was stored for it, so the next
/// run tries again; every other fetched dialog has its fingerprint stored.
/// This needs distinct user ids and room in the store for all of them.
pub proof fn law_inbox_run(store: StoreView, ds: Seq<DialogView>, delivered: Seq<bool>, now: u64)
    requires
        store.data.dialogs.dom().finite(),
        store.data.dialogs.len() + ds.len() <= MAX_DIALOGS,
        distinct_users(ds),
        delivered.len() >= ds.len(),
    ensures
        ({
            let (s, ns, k) = inbox_run(store, ds, delivered, now);
            &&& ns == due_notices(store, ds)
            &&& k == delivered_count(store, ds, delivered)
            &&& forall|j: int| 0 <= j < ds.len() ==> {
                let d = #[trigger] ds[j];
                if dialog_due(store, d) && !delivered[j] {
                    fingerprint_value(s.data.dialogs, d.user_id) == fingerprint_value(store.data.dialogs, d.user_id)
                } else {
                    fingerprint_value(s.data.dialogs, d.user_id) == Some(dialog_fingerprint(d))
                }
            }
        }),
{
    lemma_inbox_run(store, ds, delivered, now);
}

} // verus!

verus! {

/// No row has kwork id `x`.
pub open spec fn no_row_has(rows: Seq<KworkActivityView>, x: i64) -> bool {
    forall|j: int| 0 <= j < rows.len() ==> (#[trigger] rows[j]).id != x
}

proof fn lemma_rows_recorded_others(store: StoreView, rows: Seq<KworkActivityView>, now: u64)
    requires
        store.data.kworks.dom().finite(),
        store.data.kworks.len() + rows.len() <= MAX_KWORKS,
        distinct_rows(rows),
    ensures
        forall|x: i64| #[trigger] no_row_has(rows, x) ==> {
            &&& rows_recorded(store, rows, now).data.kworks.contains_key(x) == store.data.kworks.contains_key(x)
            &&& rows_recorded(store, rows, now).data.kworks[x] == store.data.kworks[x]
        },
    decreases rows.len(),
{
    if rows.len() > 0 {
        let init = rows.drop_last();
        assert(distinct_rows(init)) by {
            assert forall|i: int, j: int| 0 <= i < j < init.len() implies (#[trigger] init[i]).id != (
            #[trigger] init[j]).id by {
                assert(init[i] == rows[i] && init[j] == rows[j]);
            }
        }
        lemma_rows_recorded(store, init, now);
        lemma_rows_recorded_others(store, init, now);
        let s = rows_recorded(store, init, now);
        let r = rows.last();
        let m = s.data.kworks.insert(r.id, stored_kwork(r.name, r.views, r.orders, now));
        assert(m.len() <= store.data.kworks.len() + rows.len()) by {
            if s.data.kworks.contains_key(r.id) {
                assert(m.dom() =~= s.data.kworks.dom());
            } else {
                assert(m.dom() =~= s.data.kworks.dom().insert(r.id));
            }
        }
        law_pruning_keeps_bound::<KworkSnapshot>(m, MAX_KWORKS as nat);
        assert(rows_recorded(store, rows, now).data.kworks == m);
        assert forall|x: i64| #[trigger] no_row_has(rows, x) implies {
            &&& rows_recorded(store, rows, now).data.kworks.contains_key(x) == store.data.kworks.contains_key(x)
            &&& rows_recorded(store, rows, now).data.kworks[x] == store.data.kworks[x]
        } by {
            assert forall|j: int| 0 <= j < init.len() implies (#[trigger] init[j]).id != x by {
                assert(init[j] == rows[j]);
            }
            assert(no_row_has(init, x));
            assert(rows[rows.len() - 1].id != x);
        }
    }
}

/// After a statistics run is applied, every row's snapshot holds its name
/// (cut to 128 bytes), views and orders; when the snapshot was complete no
/// other kwork is stored, and when it was partial every other stored
/// snapshot is kept as it was; the run is recorded.  This needs distinct ids
/// and room in the store for all of them.
pub proof fn law_stats_run_applied(store: StoreView, rows: Seq<KworkActivityView>, complete: bool, now: u64)
    requires
        store.data.kworks.dom().finite(),
        store.data.kworks.len() + rows.len() <= MAX_KWORKS,
        distinct_rows(rows),
    ensures
        ({
            let after = stats_applied(store, rows, complete, now);
            &&& forall|j: int| 0 <= j < rows.len() ==> {
                let r = #[trigger] rows[j];
                &&& after.data.kworks.contains_key(r.id)
                &&& after.data.kworks[r.id] == stored_kwork(r.name, r.views, r.orders, now)
            }
            &&& complete ==> forall|x: i64| #[trigger] after.data.kworks.contains_key(x) ==> exists|j: int|
                0 <= j < rows.len() && rows[j].id == x
            &&& !complete ==> forall|x: i64| #[trigger] no_row_has(rows, x) ==> {
                &&& after.data.kworks.contains_key(x) == store.data.kworks.contains_key(x)
                &&& after.data.kworks[x] == store.data.kworks[x]
            }
            &&& after.data.health["stats"@] == now
        }),
{
    let ids = rows.map_values(|r: KworkActivityView| r.id);
    let s1 = if complete {
        kworks_retained(store, ids)
    } else {
        store
    };
    if complete {
        let sel = Set::new(|k: i64| ids.contains(k));
        assert(s1.data.kworks.dom() =~= store.data.kworks.dom().intersect(sel));
        vstd::set_lib::lemma_len_intersect(store.data.kworks.dom(), sel);
    }
    lemma_rows_recorded(s1, rows, now);
    lemma_rows_recorded_others(s1, rows, now);
    let after = stats_applied(store, rows, complete, now);
    if complete {
        assert forall|x: i64| #[trigger] after.data.kworks.contains_key(x) implies exists|j: int|
            0 <= j < rows.len() && rows[j].id == x by {
            if !(exists|j: int| 0 <= j < rows.len() && rows[j].id == x) {
                assert forall|j: int| 0 <= j < rows.len() implies (#[trigger] rows[j]).id != x by {}
                assert(no_row_has(rows, x));
                assert(s1.data.kworks.contains_key(x));
                assert(ids.contains(x));
                let j = choose|j: int| 0 <= j < ids.len() && ids[j] == x;
                assert(rows[j].id == x);
            }
        }
    }
}

} // verus!

verus! {

// ---------------------------------------------------------------------------
// What each figure is read from
// ---------------------------------------------------------------------------

/// A kwork's growth is reported whenever its views or its orders went up
/// against the stored snapshot: each grown figure by how much it grew, the
/// other as 0; nothing grew means no report; no snapshot means a new kwork.
pub proof fn law_stat_growth(previous: Option<KworkView>, views: i64, orders: i64)
    ensures
        previous is None ==> stat_change_of(previous, views, orders) == StatChange::New,
        previous matches Some(p) ==> (orders > p.orders ==> (stat_change_of(previous, views, orders) matches StatChange::Delta {
            views: dv,
            orders: dor,
        } && dor == orders - p.orders && dv >= 0)),
        previous matches Some(p) ==> (views > p.views ==> (stat_change_of(previous, views, orders) matches StatChange::Delta {
            views: dv,
            orders: dor,
        } && dv == views - p.views && dor >= 0)),
        previous matches Some(p) ==> (views <= p.views && orders <= p.orders ==> stat_change_of(
            previous,
            views,
            orders,
        ) == StatChange::Unchanged),
        previous matches Some(p) ==> (stat_change_of(previous, views, orders) matches StatChange::Delta {
            views: dv,
            orders: dor,
        } ==> (dv == (if views > p.views {
            views - p.views
        } else {
            0int
        }) && dor == (if orders > p.orders {
            orders - p.orders
        } else {
            0int
        }))),
{
}

/// An order item's figures come from its own fields: the id from `order_id`
/// (else `id`), the status from `status` (else `status_name`, else `?`),
/// the title from `kwork_title` (else `title`, else `name`, else `order`),
/// the buyer from `username` (else `payer_username`, else empty).
pub proof fn law_order_fields(item: Json)
    ensures
        get_field(item, "order_id"@) matches Some(Json::Number(n)) ==> (n.as_i64 matches Some(x) ==> order_of(
            item,
        ).id == x),
        get_field(item, "order_id"@) is None ==> (get_field(item, "id"@) matches Some(Json::Number(n)) ==> (
        n.as_i64 matches Some(x) ==> order_of(item).id == x)),
        get_field(item, "status"@) matches Some(Json::Str(s)) ==> order_of(item).status == s@,
        get_field(item, "status"@) is None ==> (get_field(item, "status_name"@) matches Some(Json::Str(s))
            ==> order_of(item).status == s@),
        (get_field(item, "status"@) is None && get_field(item, "status_name"@) is None) ==> order_of(item).status
            == "?"@,
        get_field(item, "kwork_title"@) matches Some(Json::Str(s)) ==> order_of(item).title == s@,
        get_field(item, "kwork_title"@) is None ==> (get_field(item, "title"@) matches Some(Json::Str(s))
            ==> order_of(item).title == s@),
        get_field(item, "username"@) matches Some(Json::Str(s)) ==> order_of(item).username == s@,
        get_field(item, "username"@) is None ==> (get_field(item, "payer_username"@) matches Some(Json::Str(s))
            ==> order_of(item).username == s@),
{
}

proof fn lemma_orders_in_all(items: Seq<Json>)
    requires
        forall|i: int| 0 <= i < items.len() ==> order_id_of(#[trigger] items[i]) != 0,
    ensures
        orders_in(items) == items.map_values(|j: Json| order_of(j)),
    decreases items.len(),
{
    if items.len() > 0 {
        let init = items.drop_last();
        assert forall|i: int| 0 <= i < init.len() implies order_id_of(#[trigger] init[i]) != 0 by {
            assert(init[i] == items[i]);
        }
        lemma_orders_in_all(init);
        assert(order_id_of(items[items.len() - 1]) != 0);
        assert(orders_in(items) =~= items.map_values(|j: Json| order_of(j)));
    }
}

/// Every listed order item with a non-zero id is read, in order, into one
/// order; its status is its `status` text, else its `status_name` text.
pub proof fn law_parsed_order_status(items: Seq<Json>)
    requires
        forall|i: int| 0 <= i < items.len() ==> order_id_of(#[trigger] items[i]) != 0,
    ensures
        orders_in(items).len() == items.len(),
        forall|i: int| 0 <= i < items.len() ==> (#[trigger] orders_in(items)[i]).id == order_id_of(items[i]),
        forall|i: int|
            0 <= i < items.len() ==> (get_field(items[i], "status"@) matches Some(Json::Str(s)) ==> (
            #[trigger] orders_in(items)[i]).status == s@),
        forall|i: int|
            0 <= i < items.len() ==> (get_field(items[i], "status"@) is None ==> (get_field(
                items[i],
                "status_name"@,
            ) matches Some(Json::Str(s)) ==> (#[trigger] orders_in(items)[i]).status == s@)),
{
    lemma_orders_in_all(items);
    assert forall|i: int| 0 <= i < items.len() implies {
        &&& (#[trigger] orders_in(items)[i]).id == order_id_of(items[i])
        &&& (get_field(items[i], "status"@) matches Some(Json::Str(s)) ==> orders_in(items)[i].status == s@)
        &&& (get_field(items[i], "status"@) is None ==> (get_field(items[i], "status_name"@) matches Some(
            Json::Str(s),
        ) ==> orders_in(items)[i].status == s@))
    } by {
        law_order_fields(items[i]);
    }
}

/// A dialog item's figures come from its own fields: `username`,
/// `user_id`, `unread_count`, `last_message` and `time` as given (empty or 0
/// when absent); it is unread when `unread` is true or the count is
/// positive; its link is `link` made absolute, else the user's inbox page.
pub proof fn law_dialog_fields(item: Json)
    ensures
        get_field(item, "username"@) matches Some(Json::Str(s)) ==> dialog_of(item).username == s@,
        get_field(item, "username"@) is None ==> dialog_of(item).username == Seq::<char>::empty(),
        get_field(item, "user_id"@) matches Some(Json::Number(n)) ==> (n.as_i64 matches Some(x) ==> dialog_of(
            item,
        ).user_id == x),
        get_field(item, "unread_count"@) matches Some(Json::Number(n)) ==> (n.as_i64 matches Some(x)
            ==> dialog_of(item).unread_count == x),
        get_field(item, "last_message"@) matches Some(Json::Str(s)) ==> dialog_of(item).last_message == s@,
        get_field(item, "last_message"@) is None ==> dialog_of(item).last_message == Seq::<char>::empty(),
        get_field(item, "time"@) matches Some(Json::Number(n)) ==> (n.as_i64 matches Some(x) ==> dialog_of(
            item,
        ).time == x),
        dialog_of(item).unread == (get_field(item, "unread"@) == Some(Json::Bool(true)) || dialog_of(
            item,
        ).unread_count > 0),
        get_field(item, "link"@) matches Some(Json::Str(l)) ==> (dialog_of(item).link == if starts_with(
            l@,
            "http"@,
        ) {
            l@
        } else {
            "https://kwork.ru"@ + l@
        }),
        get_field(item, "link"@) is None ==> dialog_of(item).link == "https://kwork.ru/inbox/"@ + dec(
            dialog_of(item).user_id as int,
        ),
{
    reveal_strlit("");
}

/// The account figures come from the fields of the same names (0 or empty
/// when absent).
pub proof fn law_actor_fields(resp: Json)
    ensures
        get_field(resp, "username"@) matches Some(Json::Str(s)) ==> actor_of(resp).username == s@,
        get_field(resp, "good_reviews"@) matches Some(Json::Number(n)) ==> (n.as_i64 matches Some(x)
            ==> actor_of(resp).good_reviews == x),
        get_field(resp, "bad_reviews"@) matches Some(Json::Number(n)) ==> (n.as_i64 matches Some(x)
            ==> actor_of(resp).bad_reviews == x),
        get_field(resp, "unread_dialog_count"@) matches Some(Json::Number(n)) ==> (n.as_i64 matches Some(x)
            ==> actor_of(resp).unread_dialog_count == x),
        get_field(resp, "unread_messages_count"@) matches Some(Json::Number(n)) ==> (n.as_i64 matches Some(
            x,
        ) ==> actor_of(resp).unread_messages_count == x),
        get_field(resp, "kworks_count"@) matches Some(Json::Number(n)) ==> (n.as_i64 matches Some(x)
            ==> actor_of(resp).kworks_count == x),
        get_field(resp, "completed_orders_count"@) matches Some(Json::Number(n)) ==> (n.as_i64 matches Some(
            x,
        ) ==> actor_of(resp).completed_orders_count == x),
        get_field(resp, "unread_dialog_count"@) is None ==> actor_of(resp).unread_dialog_count == 0,
        get_field(resp, "unread_messages_count"@) is None ==> actor_of(resp).unread_messages_count == 0,
{
}

/// A kwork item's figures: the id from `id`, the name from `title` (else
/// `?`), views and orders from the `activity` member's fields of those names.
pub proof fn law_kwork_fields(item: Json)
    ensures
        get_field(item, "id"@) matches Some(Json::Number(n)) ==> (n.as_i64 matches Some(x) ==> kwork_of(item).id
            == x),
        get_field(item, "title"@) matches Some(Json::Str(s)) ==> kwork_of(item).name == s@,
        get_field(item, "activity"@) matches Some(a) ==> (get_field(a, "views"@) matches Some(Json::Number(n))
            ==> (n.as_i64 matches Some(x) ==> kwork_of(item).views == x)),
        get_field(item, "activity"@) matches Some(a) ==> (get_field(a, "orders"@) matches Some(Json::Number(n))
            ==> (n.as_i64 matches Some(x) ==> kwork_of(item).orders == x)),
{
}

} // verus!

verus! {

/// Every dialog item of a `dialogs` list is read, in order, into one dialog
/// carrying its `last_message` text.
pub proof fn law_parsed_dialog_message(value: Json)
    ensures
        value matches Json::Array(v) ==> (dialogs_of(value) matches Some(ds) && ds.len() == v@.len() && forall|i: int|
            0 <= i < ds.len() ==> (get_field(v@[i], "last_message"@) matches Some(Json::Str(s))
                ==> (#[trigger] ds[i]).last_message == s@)),
        !(value is Array) ==> dialogs_of(value) is None,
{
    match value {
        Json::Array(v) => {
            let ds = v@.map_values(|i: Json| dialog_of(i));
            assert forall|i: int| 0 <= i < ds.len() implies (get_field(v@[i], "last_message"@) matches Some(
                Json::Str(s),
            ) ==> (#[trigger] ds[i]).last_message == s@) by {
                law_dialog_fields(v@[i]);
            }
        },
        _ => {},
    }
}

/// The value of a numeric setting as the environment gives it: a blank or
/// unset variable takes the default; otherwise the number written (after
/// trimming), if it is one.
pub open spec fn setting_value(v: Option<Seq<char>>, default: nat) -> Option<nat> {
    match v {
        Some(t) => if trim(t).len() > 0 {
            parse_unsigned(trim(t), u64::MAX as nat)
        } else {
            Some(default)
        },
        None => Some(default),
    }
}

/// Each interval of a valid configuration comes from its own setting: the
/// inbox, statistics and orders intervals are their settings' minutes (3, 1,
/// 10, 60 and 5 by default) in seconds, the digest interval its setting's
/// hours (6 by default) in seconds.
pub proof fn law_config_intervals_from_settings(env: EnvView)
    requires
        config_spec(env) is Ok,
    ensures
        ({
            let c = config_spec(env)->Ok_0;
            &&& setting_value(env.message_check_interval, 3) matches Some(n) && c.message_check_interval == n * 60
            &&& setting_value(env.message_check_min, 1) matches Some(n) && c.message_check_min == n * 60
            &&& setting_value(env.message_check_max, 10) matches Some(n) && c.message_check_max == n * 60
            &&& setting_value(env.stats_check_interval, 60) matches Some(n) && c.stats_check_interval == n * 60
            &&& setting_value(env.orders_check_interval, 5) matches Some(n) && c.orders_check_interval == n * 60
            &&& setting_value(env.summary_interval_hours, 6) matches Some(n) && c.summary_interval == n * 3600
        }),
{
}

} // verus!

verus! {

/// The other settings of a valid configuration each come from their own
/// variable: the bot token, login and password are the trimmed variables;
/// the administrator id is the number written in its variable; the paths
/// are the variables or their defaults; quiet hours are read from
/// `QUIET_HOURS` (none when unset or blank); inbox notices are allowed in
/// quiet hours unless `QUIET_ALLOW_INBOX` says `0` or `false`.
pub proof fn law_config_settings_from_variables(env: EnvView)
    requires
        config_spec(env) is Ok,
    ensures
        ({
            let c = config_spec(env)->Ok_0;
            &&& env.telegram_bot_token matches Some(t) && c.telegram_bot_token == trim(t)
            &&& env.kwork_login matches Some(t) && c.kwork_login == trim(t)
            &&& env.kwork_password matches Some(t) && c.kwork_password == trim(t)
            &&& env.telegram_admin_id matches Some(t) && parse_signed(trim(t), i64::MIN as int, i64::MAX as int)
                == Some(c.telegram_admin_id as int) && c.telegram_admin_id != 0
            &&& c.state_path == (match env.state_path {
                Some(p) => p,
                None => "kwork-state.json"@,
            })
            &&& c.token_path == (match env.kwork_token_path {
                Some(p) => p,
                None => ".kwork-token.json"@,
            })
            &&& (env.quiet_hours is None ==> c.quiet_start is None && c.quiet_end is None)
            &&& (env.quiet_hours matches Some(q) ==> quiet_hours_spec(q) == Ok::<(Option<u8>, Option<u8>), Seq<char>>(
                (c.quiet_start, c.quiet_end),
            ))
            &&& (env.quiet_allow_inbox is None ==> c.quiet_allow_inbox)
            &&& (env.quiet_allow_inbox matches Some(v) ==> (c.quiet_allow_inbox <==> !(v == "0"@
                || eq_ignore_ascii_case(v, "false"@))))
        }),
{
    reveal_strlit("");
    reveal_strlit("1");
    reveal_strlit("0");
    reveal_strlit("true");
    reveal_strlit("false");
    let c = config_spec(env)->Ok_0;
    assert(env.telegram_bot_token matches Some(t) && c.telegram_bot_token == trim(t));
    assert(env.telegram_admin_id matches Some(t) && parse_signed(trim(t), i64::MIN as int, i64::MAX as int)
        == Some(c.telegram_admin_id as int));
    assert(env.quiet_hours is None ==> c.quiet_start is None && c.quiet_end is None);
    if let Some(v) = env.quiet_allow_inbox {
        assert(lower_ascii(v).len() == v.len());
        assert(lower_ascii("true"@).len() == 4);
        assert(lower_ascii("false"@).len() == 5);
        assert(lower_ascii("0"@) =~= "0"@);
        assert(lower_ascii("1"@) =~= "1"@);
        if v == "1"@ {
            assert(v != "0"@) by {
                assert(v[0] != "0"@[0]);
            }
        }
    }
}

} // verus!

verus! {

// ---------------------------------------------------------------------------
// Classifications stated on their inputs
// ---------------------------------------------------------------------------

/// Before the store is seeded no order is announced; afterwards an order
/// without a stored status is new, one whose stored status differs from the
/// current one changed (from the stored status), and one with the same
/// status is unchanged.
pub proof fn law_order_classification(seeded: bool, previous: Option<Seq<char>>, current: Seq<char>)
    ensures
        !seeded ==> change_of(seeded, previous, current) == ChangeView::Unchanged,
        seeded && previous is None ==> change_of(seeded, previous, current) == ChangeView::New,
        seeded && previous == Some(current) ==> change_of(seeded, previous, current) == ChangeView::Unchanged,
        previous matches Some(p) ==> (seeded && p != current ==> change_of(seeded, previous, current)
            == ChangeView::Status(p)),
{
}

/// Inbox polling speeds up to the short interval below fifteen minutes of
/// idleness, slows to the long one beyond two hours, and uses the base
/// interval in between.
pub proof fn law_inbox_interval_thresholds(c: ConfigView, idle_nanos: int)
    ensures
        idle_nanos < 900_000_000_000 ==> inbox_interval_of(c, idle_nanos) == c.message_check_min,
        idle_nanos > 7_200_000_000_000 ==> inbox_interval_of(c, idle_nanos) == c.message_check_max,
        900_000_000_000 <= idle_nanos <= 7_200_000_000_000 ==> inbox_interval_of(c, idle_nanos)
            == c.message_check_interval,
{
}

// ---------------------------------------------------------------------------
// What a dialog's fingerprint is taken over
// ---------------------------------------------------------------------------

proof fn lemma_dec_nat_no_bar(n: nat)
    ensures
        forall|i: int| 0 <= i < dec_nat(n).len() ==> (#[trigger] dec_nat(n)[i]) != '|',
    decreases n,
{
    if n >= 10 {
        lemma_dec_nat_no_bar(n / 10);
        assert forall|i: int| 0 <= i < dec_nat(n).len() implies (#[trigger] dec_nat(n)[i]) != '|' by {
            if i < dec_nat(n / 10).len() {
                assert(dec_nat(n)[i] == dec_nat(n / 10)[i]);
            } else {
                assert(dec_nat(n)[i] == digit_char(n % 10));
                assert(((n % 10) + 48) as char as int == (n % 10) + 48);
            }
        }
    } else {
        assert(dec_nat(n)[0] == digit_char(n));
        assert((n + 48) as char as int == n + 48);
    }
}

proof fn lemma_dec_no_bar(n: int)
    ensures
        forall|i: int| 0 <= i < dec(n).len() ==> (#[trigger] dec(n)[i]) != '|',
{
    if n < 0 {
        lemma_dec_nat_no_bar((-n) as nat);
        assert forall|i: int| 0 <= i < dec(n).len() implies (#[trigger] dec(n)[i]) != '|' by {
            if i > 0 {
                assert(dec(n)[i] == dec_nat((-n) as nat)[i - 1]);
            }
        }
    } else {
        lemma_dec_nat_no_bar(n as nat);
    }
}

/// `a + "|" + x == b + "|" + y` with no `|` in `a` or `b` means `a == b` and
/// `x == y`.
proof fn lemma_split_at_bar(a: Seq<char>, x: Seq<char>, b: Seq<char>, y: Seq<char>)
    requires
        forall|i: int| 0 <= i < a.len() ==> (#[trigger] a[i]) != '|',
        forall|i: int| 0 <= i < b.len() ==> (#[trigger] b[i]) != '|',
        a + seq!['|'] + x == b + seq!['|'] + y,
    ensures
        a == b,
        x == y,
{
    let s = a + seq!['|'] + x;
    let t = b + seq!['|'] + y;
    if a.len() < b.len() {
        assert(s[a.len() as int] == '|');
        assert(t[a.len() as int] == b[a.len() as int]);
    } else if b.len() < a.len() {
        assert(t[b.len() as int] == '|');
        assert(s[b.len() as int] == a[b.len() as int]);
    } else {
        assert forall|i: int| 0 <= i < a.len() implies a[i] == b[i] by {
            assert(s[i] == a[i] && t[i] == b[i]);
        }
        assert(a =~= b);
        assert(s.len() == t.len());
        assert(x.len() == y.len());
        assert forall|i: int| 0 <= i < x.len() implies x[i] == y[i] by {
            assert(s[a.len() + 1 + i] == x[i]);
            assert(t[b.len() + 1 + i] == y[i]);
        }
        assert(x =~= y);
    }
}

/// Two dialogs whose fingerprints are taken over the same text have the
/// same time and unread count: a dialog whose time or unread count changes
/// is fingerprinted over a different text.
pub proof fn law_dialog_key_tracks_time_and_count(d1: DialogView, d2: DialogView)
    requires
        dialog_key(d1) == dialog_key(d2),
    ensures
        d1.time == d2.time,
        d1.unread_count == d2.unread_count,
{
    reveal_strlit("|");
    let r1 = prefix(d1.username, USERNAME_CHARS as nat) + "|"@ + preview_of(d1);
    let r2 = prefix(d2.username, USERNAME_CHARS as nat) + "|"@ + preview_of(d2);
    assert("|"@ =~= seq!['|']);
    assert(dialog_key(d1) =~= dec(d1.time as int) + seq!['|'] + (dec(d1.unread_count as int) + seq!['|'] + r1));
    assert(dialog_key(d2) =~= dec(d2.time as int) + seq!['|'] + (dec(d2.unread_count as int) + seq!['|'] + r2));
    lemma_dec_no_bar(d1.time as int);
    lemma_dec_no_bar(d2.time as int);
    lemma_dec_no_bar(d1.unread_count as int);
    lemma_dec_no_bar(d2.unread_count as int);
    lemma_split_at_bar(
        dec(d1.time as int),
        dec(d1.unread_count as int) + seq!['|'] + r1,
        dec(d2.time as int),
        dec(d2.unread_count as int) + seq!['|'] + r2,
    );
    lemma_split_at_bar(dec(d1.unread_count as int), r1, dec(d2.unread_count as int), r2);
    lemma_dec_inj(d1.time as int, d2.time as int);
    lemma_dec_inj(d1.unread_count as int, d2.unread_count as int);
}

} // verus!

verus! {

/// When a page's response reports no failure, paging stops once the page
/// brought no new order, once the announced last page (in the body, else in
/// its `response`) is reached, or at page 20; otherwise it moves on.
pub proof fn law_order_page_stops(p: PagerView, body: Json, login: Seq<char>, password: Seq<char>, token: Seq<char>)
    requires
        !p.done,
        !reports_failure(body),
    ensures
        ({
            let response = match get_field(body, "response"@) {
                Some(r) => r,
                None => body,
            };
            let last = if last_page_of(body) is Some {
                last_page_of(body)
            } else {
                last_page_of(response)
            };
            let (orders, added, full) = merge_orders(p.orders, orders_of(response));
            let (v, e, more) = absorb_result(p, body, login, password, token);
            &&& e is None
            &&& v.orders == orders
            &&& added == 0 ==> !more
            &&& (last matches Some(l) && p.page >= l) ==> !more
            &&& p.page >= MAX_ORDER_PAGES ==> !more
            &&& (!full && added > 0 && !(last matches Some(l) && p.page >= l) && p.page < MAX_ORDER_PAGES) ==> more
        }),
{
}

/// Pruning removes entries by age: an entry updated earlier is older, and
/// among entries updated at the same time the one whose id comes first in
/// text order is older.
pub proof fn law_older_by_update_time<V: Stamped>(m: Map<i64, V::V>, a: i64, b: i64)
    ensures
        V::stamp_of(m[a]) < V::stamp_of(m[b]) ==> older::<V>(m, a, b),
        V::stamp_of(m[a]) > V::stamp_of(m[b]) ==> !older::<V>(m, a, b),
        V::stamp_of(m[a]) == V::stamp_of(m[b]) ==> (older::<V>(m, a, b) <==> lex_lt(dec(a as int), dec(b as int))),
{
}

} // verus!

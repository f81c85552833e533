//! Kwork statistics: the report of grown views and orders and of new kworks,
//! the update of the stored snapshots, the summary and the digest.
//!
//! A run takes the fetched rows: `stats_report` gives the text to deliver, if
//! any; once it is delivered (or when there is none) `apply_stats` updates the
//! store.  An undelivered report leaves the store as it was, so the next run
//! reports again.
use vstd::prelude::*;

use crate::kwork::api::{ActorInfo, ActorView, ApiError, ApiErrorView, KworkActivity, KworkActivityView};
use crate::state::{in_key_order, pruned, stored_kwork, KworkSnapshot, KworkView, StateStore, StateView, StoreView, MAX_KWORKS};
use crate::textops::{
    char_vec, chars_eq, dec, int_text, join, join_strings, lemma_dec_inj, lemma_lex_asym, lemma_lex_irrefl,
    lemma_lex_total, lemma_lex_trans, lex_less, lex_lt,
};

verus! {

/// How one kwork's counters moved since the stored snapshot.
#[derive(Debug, PartialEq, Eq)]
pub enum StatChange {
    /// No snapshot was stored.
    New,
    /// Views or orders grew; each figure is the growth, or 0 where it did not grow.
    Delta { views: i128, orders: i128 },
    /// Nothing grew.
    Unchanged,
}

/// The growth of a figure, or 0.
pub open spec fn growth(now: int, before: int) -> int {
    if now - before > 0 {
        now - before
    } else {
        0
    }
}

/// Classification against the stored snapshot: new without one, a delta
/// when views or orders grew, otherwise unchanged.
pub open spec fn stat_change_of(previous: Option<KworkView>, views: i64, orders: i64) -> StatChange {
    match previous {
        None => StatChange::New,
        Some(p) => if views - p.views > 0 || orders - p.orders > 0 {
            StatChange::Delta {
                views: growth(views as int, p.views as int) as i128,
                orders: growth(orders as int, p.orders as int) as i128,
            }
        } else {
            StatChange::Unchanged
        },
    }
}

pub open spec fn opt_kwork_view(p: Option<&KworkSnapshot>) -> Option<KworkView> {
    match p {
        Some(k) => Some(k@),
        None => None,
    }
}

/// Classifies a kwork's current views and orders against its snapshot.
pub fn classify_stat(previous: Option<&KworkSnapshot>, views: i64, orders: i64) -> (r: StatChange)
    ensures
        r == stat_change_of(opt_kwork_view(previous), views, orders),
        match previous {
            None => r == StatChange::New,
            Some(p) => if views > p.views || orders > p.orders {
                r matches StatChange::Delta { views: dv, orders: dor } && dv == (if views > p.views {
                    views - p.views
                } else {
                    0int
                }) && dor == (if orders > p.orders {
                    orders - p.orders
                } else {
                    0int
                })
            } else {
                r == StatChange::Unchanged
            },
        },
{
    match previous {
        None => StatChange::New,
        Some(p) => {
            let dv: i128 = views as i128 - p.views as i128;
            let dor: i128 = orders as i128 - p.orders as i128;
            if dv > 0 || dor > 0 {
                StatChange::Delta {
                    views: if dv > 0 {
                        dv
                    } else {
                        0
                    },
                    orders: if dor > 0 {
                        dor
                    } else {
                        0
                    },
                }
            } else {
                StatChange::Unchanged
            }
        },
    }
}

// ---------------------------------------------------------------------------
// The report
// ---------------------------------------------------------------------------

/// The stored snapshot of `id`, if any.
pub open spec fn snapshot_of(m: Map<i64, KworkView>, id: i64) -> Option<KworkView> {
    if m.contains_key(id) {
        Some(m[id])
    } else {
        None
    }
}

/// The report block of one kwork that grew: its name, the grown figures with
/// their current values, and its link.
pub open spec fn delta_block(r: KworkActivityView, dv: int, dor: int) -> Seq<char> {
    let views_line = if dv > 0 {
        "\n👁 Просмотры: +"@ + dec(dv) + " (сейчас "@ + dec(r.views as int) + ")"@
    } else {
        Seq::empty()
    };
    let orders_line = if dor > 0 {
        "\n📦 Заказы: +"@ + dec(dor) + " (сейчас "@ + dec(r.orders as int) + ")"@
    } else {
        Seq::empty()
    };
    "📊 "@ + r.name + views_line + orders_line + "\nhttps://kwork.ru/"@ + dec(r.id as int)
}

/// The blocks of the kworks that grew and the names of the new ones, in row
/// order, each classified against the stored snapshots `m`.
pub open spec fn stat_lists(m: Map<i64, KworkView>, rows: Seq<KworkActivityView>) -> (Seq<Seq<char>>, Seq<Seq<char>>)
    decreases rows.len(),
{
    if rows.len() == 0 {
        (Seq::empty(), Seq::empty())
    } else {
        let (d, f) = stat_lists(m, rows.drop_last());
        let r = rows.last();
        match stat_change_of(snapshot_of(m, r.id), r.views, r.orders) {
            StatChange::New => (d, f.push(r.name)),
            StatChange::Delta { views, orders } => (d.push(delta_block(r, views as int, orders as int)), f),
            StatChange::Unchanged => (d, f),
        }
    }
}

/// The bulleted list of new kwork names.
pub open spec fn bullets(names: Seq<Seq<char>>) -> Seq<Seq<char>> {
    names.map_values(|n: Seq<char>| "• "@ + n)
}

/// The statistics report: a section for grown kworks and one for new kworks,
/// each present only when non-empty; `None` when both are empty.
pub open spec fn stats_report_of(m: Map<i64, KworkView>, rows: Seq<KworkActivityView>) -> Option<Seq<char>> {
    let (d, f) = stat_lists(m, rows);
    let grown = "📈 Статистика за период:\n\n"@ + join(d, "\n\n"@);
    let fresh = "🆕 Новые кворки:\n"@ + join(bullets(f), "\n"@);
    if d.len() > 0 && f.len() > 0 {
        Some(grown + "\n\n"@ + fresh)
    } else if d.len() > 0 {
        Some(grown)
    } else if f.len() > 0 {
        Some(fresh)
    } else {
        None
    }
}

fn delta_text(r: &KworkActivity, dv: i128, dor: i128) -> (t: String)
    ensures
        t@ == delta_block(r@, dv as int, dor as int),
{
    let mut t = "📊 ".to_owned();
    t.append(r.name.as_str());
    if dv > 0 {
        t.append("\n👁 Просмотры: +");
        let a = int_text(dv);
        t.append(a.as_str());
        t.append(" (сейчас ");
        let b = int_text(r.views as i128);
        t.append(b.as_str());
        t.append(")");
    }
    if dor > 0 {
        t.append("\n📦 Заказы: +");
        let a = int_text(dor);
        t.append(a.as_str());
        t.append(" (сейчас ");
        let b = int_text(r.orders as i128);
        t.append(b.as_str());
        t.append(")");
    }
    t.append("\nhttps://kwork.ru/");
    let c = int_text(r.id as i128);
    t.append(c.as_str());
    proof {
        assert(t@ =~= delta_block(r@, dv as int, dor as int));
    }
    t
}

/// The report to deliver for the fetched rows, classified against the stored
/// snapshots; `None` when nothing grew and nothing is new.
pub fn stats_report(state: &StateStore, rows: &Vec<KworkActivity>) -> (r: Option<String>)
    ensures
        crate::textops::opt_string_view(r) == stats_report_of(
            state@.data.kworks,
            rows@.map_values(|k: KworkActivity| k@),
        ),
{
    let ghost m = state@.data.kworks;
    let ghost views = rows@.map_values(|k: KworkActivity| k@);
    let mut deltas: Vec<String> = Vec::new();
    let mut fresh: Vec<String> = Vec::new();
    let n = rows.len();
    let mut i: usize = 0;
    while i < n
        invariant
            n == rows@.len(),
            views == rows@.map_values(|k: KworkActivity| k@),
            m == state@.data.kworks,
            i <= n,
            (deltas@.map_values(|s: String| s@), fresh@.map_values(|s: String| s@)) == stat_lists(
                m,
                views.take(i as int),
            ),
        decreases n - i,
    {
        let r = &rows[i];
        assert(views.take(i + 1).drop_last() =~= views.take(i as int));
        assert(views.take(i + 1).last() == r@);
        let previous = state.kwork(r.id);
        let change = classify_stat(previous, r.views, r.orders);
        assert(opt_kwork_view(previous) == snapshot_of(m, r.id));
        match change {
            StatChange::New => {
                fresh.push(r.name.clone());
            },
            StatChange::Delta { views: dv, orders: dor } => {
                let t = delta_text(r, dv, dor);
                deltas.push(t);
            },
            StatChange::Unchanged => {},
        }
        proof {
            assert(deltas@.map_values(|s: String| s@) =~= stat_lists(m, views.take(i + 1)).0);
            assert(fresh@.map_values(|s: String| s@) =~= stat_lists(m, views.take(i + 1)).1);
        }
        i = i + 1;
    }
    assert(views.take(n as int) =~= views);
    let mut bulleted: Vec<String> = Vec::new();
    let nf = fresh.len();
    let mut j: usize = 0;
    while j < nf
        invariant
            nf == fresh@.len(),
            j <= nf,
            bulleted@.len() == j,
            forall|k: int| 0 <= k < j ==> (#[trigger] bulleted@[k])@ == "• "@ + fresh@[k]@,
        decreases nf - j,
    {
        let mut b = "• ".to_owned();
        b.append(fresh[j].as_str());
        bulleted.push(b);
        j = j + 1;
    }
    let ghost f = fresh@.map_values(|s: String| s@);
    assert(bulleted@.map_values(|s: String| s@) =~= bullets(f));
    if deltas.len() == 0 && fresh.len() == 0 {
        return None;
    }
    let mut text = String::new();
    if deltas.len() > 0 {
        text.append("📈 Статистика за период:\n\n");
        let body = join_strings(&deltas, "\n\n");
        text.append(body.as_str());
    }
    if fresh.len() > 0 {
        if deltas.len() > 0 {
            text.append("\n\n");
        }
        text.append("🆕 Новые кворки:\n");
        let list = join_strings(&bulleted, "\n");
        text.append(list.as_str());
    }
    proof {
        assert(text@ =~= stats_report_of(m, views)->0);
    }
    Some(text)
}

// ---------------------------------------------------------------------------
// Updating the store
// ---------------------------------------------------------------------------

/// The store after each row's snapshot was recorded at `now`, in row order.
pub open spec fn rows_recorded(store: StoreView, rows: Seq<KworkActivityView>, now: u64) -> StoreView
    decreases rows.len(),
{
    if rows.len() == 0 {
        store
    } else {
        let s = rows_recorded(store, rows.drop_last(), now);
        let r = rows.last();
        StoreView {
            data: StateView {
                kworks: pruned::<KworkSnapshot>(
                    s.data.kworks.insert(r.id, stored_kwork(r.name, r.views, r.orders, now)),
                    MAX_KWORKS as nat,
                ),
                ..s.data
            },
            dirty: true,
            ..s
        }
    }
}

/// The store with only the kworks among `ids` kept.
pub open spec fn kworks_retained(store: StoreView, ids: Seq<i64>) -> StoreView {
    let kept = store.data.kworks.restrict(Set::new(|k: i64| ids.contains(k)));
    StoreView {
        data: StateView { kworks: kept, ..store.data },
        dirty: store.dirty || kept.len() != store.data.kworks.len(),
        ..store
    }
}

/// The store after a statistics run at `now`: when the snapshot is complete
/// the kworks no longer listed are dropped; every row's snapshot is
/// recorded; the run is recorded.
pub open spec fn stats_applied(store: StoreView, rows: Seq<KworkActivityView>, complete: bool, now: u64) -> StoreView {
    let s1 = if complete {
        kworks_retained(store, rows.map_values(|r: KworkActivityView| r.id))
    } else {
        store
    };
    let s2 = rows_recorded(s1, rows, now);
    StoreView {
        data: StateView { health: s2.data.health.insert("stats"@, now), ..s2.data },
        dirty: true,
        ..s2
    }
}

/// Updates the store after a statistics run (see `stats_applied`).
pub fn apply_stats(state: &mut StateStore, rows: &Vec<KworkActivity>, complete: bool, now: u64)
    ensures
        final(state)@ == stats_applied(old(state)@, rows@.map_values(|k: KworkActivity| k@), complete, now),
{
    let ghost views = rows@.map_values(|k: KworkActivity| k@);
    let n = rows.len();
    if complete {
        let mut ids: Vec<i64> = Vec::new();
        let mut j: usize = 0;
        while j < n
            invariant
                n == rows@.len(),
                j <= n,
                ids@ == views.map_values(|r: KworkActivityView| r.id).take(j as int),
                views == rows@.map_values(|k: KworkActivity| k@),
            decreases n - j,
        {
            ids.push(rows[j].id);
            assert(ids@ =~= views.map_values(|r: KworkActivityView| r.id).take(j + 1));
            j = j + 1;
        }
        assert(ids@ =~= views.map_values(|r: KworkActivityView| r.id));
        state.retain_kworks(ids.as_slice());
    }
    let ghost start = state@;
    let mut i: usize = 0;
    while i < n
        invariant
            n == rows@.len(),
            views == rows@.map_values(|k: KworkActivity| k@),
            i <= n,
            state@ == rows_recorded(start, views.take(i as int), now),
        decreases n - i,
    {
        let r = &rows[i];
        assert(views.take(i + 1).drop_last() =~= views.take(i as int));
        state.set_kwork_at(r.id, r.name.clone(), r.views, r.orders, now);
        i = i + 1;
    }
    assert(views.take(n as int) =~= views);
    state.touch_ok_at("stats", now);
}

} // verus!

verus! {

// ---------------------------------------------------------------------------
// The summary
// ---------------------------------------------------------------------------

/// Summary order of two stored kworks: by name, then by the decimal text of
/// the id (the order in which the ids are written as keys in the state file).
pub open spec fn summary_before(m: Map<i64, KworkView>, a: i64, b: i64) -> bool {
    ||| lex_lt(m[a].name, m[b].name)
    ||| (m[a].name == m[b].name && lex_lt(dec(a as int), dec(b as int)))
}

/// `s` lists every stored kwork once, in summary order.
pub open spec fn summary_order(m: Map<i64, KworkView>, s: Seq<i64>) -> bool {
    &&& forall|i: int, j: int| 0 <= i < j < s.len() ==> summary_before(m, #[trigger] s[i], #[trigger] s[j])
    &&& forall|i: int| 0 <= i < s.len() ==> m.contains_key(#[trigger] s[i])
    &&& forall|k: i64| #[trigger] m.contains_key(k) ==> s.contains(k)
}

/// The stored kworks' ids in summary order (there is exactly one such
/// listing of a finite store; see `lemma_summary_order_unique`).
pub open spec fn summary_keys(m: Map<i64, KworkView>) -> Seq<i64> {
    choose|s: Seq<i64>| summary_order(m, s)
}

pub proof fn lemma_summary_before_irrefl(m: Map<i64, KworkView>, a: i64)
    ensures
        !summary_before(m, a, a),
{
    lemma_lex_irrefl(m[a].name);
    lemma_lex_irrefl(dec(a as int));
}

pub proof fn lemma_summary_before_asym(m: Map<i64, KworkView>, a: i64, b: i64)
    ensures
        summary_before(m, a, b) ==> !summary_before(m, b, a),
{
    lemma_lex_asym(m[a].name, m[b].name);
    lemma_lex_asym(dec(a as int), dec(b as int));
    lemma_lex_irrefl(m[a].name);
}

pub proof fn lemma_summary_before_trans(m: Map<i64, KworkView>, a: i64, b: i64, c: i64)
    requires
        summary_before(m, a, b),
        summary_before(m, b, c),
    ensures
        summary_before(m, a, c),
{
    if lex_lt(m[a].name, m[b].name) && lex_lt(m[b].name, m[c].name) {
        lemma_lex_trans(m[a].name, m[b].name, m[c].name);
    } else if m[a].name == m[b].name && m[b].name == m[c].name {
        lemma_lex_trans(dec(a as int), dec(b as int), dec(c as int));
    }
}

pub proof fn lemma_summary_before_total(m: Map<i64, KworkView>, a: i64, b: i64)
    requires
        a != b,
    ensures
        summary_before(m, a, b) || summary_before(m, b, a),
{
    if m[a].name != m[b].name {
        lemma_lex_total(m[a].name, m[b].name);
    } else {
        if dec(a as int) == dec(b as int) {
            lemma_dec_inj(a as int, b as int);
        }
        lemma_lex_total(dec(a as int), dec(b as int));
    }
}

/// Two listings of the store in summary order are the same listing.
pub proof fn lemma_summary_order_unique(m: Map<i64, KworkView>, s: Seq<i64>, t: Seq<i64>)
    requires
        summary_order(m, s),
        summary_order(m, t),
    ensures
        s == t,
    decreases s.len(),
{
    if s.len() == 0 || t.len() == 0 {
        if t.len() > 0 {
            assert(m.contains_key(t[0]));
            assert(s.contains(t[0]));
        }
        if s.len() > 0 {
            assert(m.contains_key(s[0]));
            assert(t.contains(s[0]));
        }
        assert(s =~= t);
    } else {
        let x = s[0];
        let y = t[0];
        assert(m.contains_key(x));
        assert(m.contains_key(y));
        assert(t.contains(x));
        assert(s.contains(y));
        if x != y {
            let j = choose|j: int| 0 <= j < t.len() && t[j] == x;
            let i = choose|i: int| 0 <= i < s.len() && s[i] == y;
            assert(summary_before(m, t[0], t[j]));
            assert(summary_before(m, s[0], s[i]));
            lemma_summary_before_asym(m, x, y);
        }
        let m2 = m.remove(x);
        let s2 = s.drop_first();
        let t2 = t.drop_first();
        assert forall|a: i64, b: i64| m2.contains_key(a) && m2.contains_key(b) implies summary_before(m2, a, b)
            == summary_before(m, a, b) by {}
        assert forall|k: int| 0 <= k < s2.len() implies m2.contains_key(#[trigger] s2[k]) by {
            assert(s2[k] == s[k + 1]);
            assert(summary_before(m, s[0], s[k + 1]));
            lemma_summary_before_irrefl(m, x);
        }
        assert forall|k: int| 0 <= k < t2.len() implies m2.contains_key(#[trigger] t2[k]) by {
            assert(t2[k] == t[k + 1]);
            assert(summary_before(m, t[0], t[k + 1]));
            lemma_summary_before_irrefl(m, x);
        }
        assert forall|i: int, j: int| 0 <= i < j < s2.len() implies summary_before(m2, #[trigger] s2[i], #[trigger] s2[j]) by {
            assert(s2[i] == s[i + 1] && s2[j] == s[j + 1]);
            assert(summary_before(m, s[i + 1], s[j + 1]));
            assert(m2.contains_key(s2[i]) && m2.contains_key(s2[j]));
        }
        assert forall|i: int, j: int| 0 <= i < j < t2.len() implies summary_before(m2, #[trigger] t2[i], #[trigger] t2[j]) by {
            assert(t2[i] == t[i + 1] && t2[j] == t[j + 1]);
            assert(summary_before(m, t[i + 1], t[j + 1]));
            assert(m2.contains_key(t2[i]) && m2.contains_key(t2[j]));
        }
        assert forall|k: i64| #[trigger] m2.contains_key(k) implies s2.contains(k) && t2.contains(k) by {
            assert(s.contains(k));
            assert(t.contains(k));
            let i = choose|i: int| 0 <= i < s.len() && s[i] == k;
            let j = choose|j: int| 0 <= j < t.len() && t[j] == k;
            assert(s2[i - 1] == k);
            assert(t2[j - 1] == k);
        }
        lemma_summary_order_unique(m2, s2, t2);
        assert(x == y);
        assert forall|k: int| 0 <= k < s.len() implies s[k] == t[k] by {
            if k > 0 {
                assert(s[k] == s2[k - 1]);
                assert(t[k] == t2[k - 1]);
            }
        }
        assert(s =~= t);
    }
}

/// Sum of the stored views of the listed kworks.
pub open spec fn views_total(m: Map<i64, KworkView>, ks: Seq<i64>) -> int
    decreases ks.len(),
{
    if ks.len() == 0 {
        0
    } else {
        views_total(m, ks.drop_last()) + m[ks.last()].views
    }
}

/// Sum of the stored orders of the listed kworks.
pub open spec fn orders_total(m: Map<i64, KworkView>, ks: Seq<i64>) -> int
    decreases ks.len(),
{
    if ks.len() == 0 {
        0
    } else {
        orders_total(m, ks.drop_last()) + m[ks.last()].orders
    }
}

/// The summary line of one kwork.
pub open spec fn summary_line(k: KworkView) -> Seq<char> {
    "• "@ + k.name + " — 👁 "@ + dec(k.views as int) + "  📦 "@ + dec(k.orders as int)
}

/// The summary of the stored kworks: one line each in summary order, an
/// empty line, and the totals; a fixed sentence when nothing is stored.
pub open spec fn summary_text(m: Map<i64, KworkView>) -> Seq<char> {
    let ks = summary_keys(m);
    if ks.len() == 0 {
        "📊 Сводка: пока нет данных по кворкам."@
    } else {
        join(
            ks.map_values(|k: i64| summary_line(m[k])).push(Seq::empty()).push(
                "Итого: "@ + dec(ks.len() as int) + " кворков, 👁 "@ + dec(views_total(m, ks))
                    + ", 📦 "@ + dec(orders_total(m, ks)),
            ),
            "\n"@,
        )
    }
}

fn kwork_before(a: (i64, &KworkSnapshot), b: (i64, &KworkSnapshot), Ghost(m): Ghost<Map<i64, KworkView>>) -> (r: bool)
    requires
        m.contains_key(a.0) && m[a.0] == a.1@,
        m.contains_key(b.0) && m[b.0] == b.1@,
    ensures
        r == summary_before(m, a.0, b.0),
{
    let na = char_vec(a.1.name.as_str());
    let nb = char_vec(b.1.name.as_str());
    if lex_less(&na, &nb) {
        return true;
    }
    if !chars_eq(&na, &nb) {
        return false;
    }
    let da = int_text(a.0 as i128);
    let db = int_text(b.0 as i128);
    let ca = char_vec(da.as_str());
    let cb = char_vec(db.as_str());
    lex_less(&ca, &cb)
}

fn summary_sorted<'a>(entries: &Vec<(i64, &'a KworkSnapshot)>, Ghost(m): Ghost<Map<i64, KworkView>>) -> (r: Vec<(i64, &'a KworkSnapshot)>)
    requires
        in_key_order(entries@.map_values(|e: (i64, &KworkSnapshot)| (e.0, e.1@)), m),
    ensures
        summary_order(m, r@.map_values(|e: (i64, &KworkSnapshot)| e.0)),
        forall|t: int| 0 <= t < r@.len() ==> m[(#[trigger] r@[t]).0] == r@[t].1@,
{
    let ghost es = entries@.map_values(|e: (i64, &KworkSnapshot)| (e.0, e.1@));
    let ghost ek = entries@.map_values(|e: (i64, &KworkSnapshot)| e.0);
    let mut res: Vec<(i64, &'a KworkSnapshot)> = Vec::new();
    let n = entries.len();
    let mut i: usize = 0;
    while i < n
        invariant
            n == entries@.len(),
            i <= n,
            es == entries@.map_values(|e: (i64, &KworkSnapshot)| (e.0, e.1@)),
            ek == entries@.map_values(|e: (i64, &KworkSnapshot)| e.0),
            in_key_order(es, m),
            forall|a: int, b: int| 0 <= a < b < res@.len() ==> summary_before(m, #[trigger] res@[a].0, #[trigger] res@[b].0),
            forall|t: int| 0 <= t < res@.len() ==> m.contains_key((#[trigger] res@[t]).0) && m[res@[t].0] == res@[t].1@,
            forall|k: i64| res@.map_values(|e: (i64, &KworkSnapshot)| e.0).contains(k) <==> ek.take(i as int).contains(k),
        decreases n - i,
    {
        let x = entries[i];
        assert(es[i as int] == (x.0, x.1@));
        assert(m.contains_key(es[i as int].0) && m[es[i as int].0] == es[i as int].1);
        assert(m.contains_key(x.0) && m[x.0] == x.1@);
        let ghost rk = res@.map_values(|e: (i64, &KworkSnapshot)| e.0);
        assert(!rk.contains(x.0)) by {
            if rk.contains(x.0) {
                assert(ek.take(i as int).contains(x.0));
                let u = choose|u: int| 0 <= u < i && ek.take(i as int)[u] == x.0;
                assert(es[u].0 < es[i as int].0);
            }
        }
        let mut p: usize = 0;
        while p < res.len() && kwork_before(res[p], x, Ghost(m))
            invariant
                p <= res@.len(),
                forall|t: int| 0 <= t < res@.len() ==> m.contains_key((#[trigger] res@[t]).0) && m[res@[t].0] == res@[t].1@,
                m.contains_key(x.0) && m[x.0] == x.1@,
                forall|t: int| 0 <= t < p ==> summary_before(m, #[trigger] res@[t].0, x.0),
            decreases res@.len() - p,
        {
            p = p + 1;
        }
        let ghost old_res = res@;
        proof {
            if p < old_res.len() {
                assert(!summary_before(m, old_res[p as int].0, x.0));
                assert(old_res[p as int].0 != x.0) by {
                    assert(rk[p as int] == old_res[p as int].0);
                }
                lemma_summary_before_total(m, old_res[p as int].0, x.0);
            }
        }
        res.insert(p, x);
        proof {
            let nr = res@;
            assert(nr == old_res.insert(p as int, x));
            assert forall|a: int, b: int| 0 <= a < b < nr.len() implies summary_before(m, #[trigger] nr[a].0, #[trigger] nr[b].0) by {
                if b < p {
                    assert(nr[a] == old_res[a] && nr[b] == old_res[b]);
                } else if b == p {
                    assert(nr[a] == old_res[a]);
                } else if a == p {
                    assert(nr[b] == old_res[b - 1]);
                    if b - 1 > p {
                        assert(summary_before(m, old_res[p as int].0, old_res[b - 1].0));
                        lemma_summary_before_trans(m, x.0, old_res[p as int].0, old_res[b - 1].0);
                    }
                } else if a < p {
                    assert(nr[a] == old_res[a] && nr[b] == old_res[b - 1]);
                    if a < b - 1 {
                    } else {
                        assert(false);
                    }
                } else {
                    assert(nr[a] == old_res[a - 1] && nr[b] == old_res[b - 1]);
                }
            }
            assert forall|t: int| 0 <= t < nr.len() implies m.contains_key((#[trigger] nr[t]).0) && m[nr[t].0] == nr[t].1@ by {
                if t < p {
                    assert(nr[t] == old_res[t]);
                } else if t > p {
                    assert(nr[t] == old_res[t - 1]);
                }
            }
            let nk = nr.map_values(|e: (i64, &KworkSnapshot)| e.0);
            let e0 = ek.take(i as int);
            let e1 = ek.take(i + 1);
            assert(nk =~= rk.insert(p as int, x.0));
            assert(e1 =~= e0.push(x.0));
            assert forall|k: i64| nk.contains(k) <==> e1.contains(k) by {
                if nk.contains(k) {
                    let t = choose|t: int| 0 <= t < nk.len() && nk[t] == k;
                    if t < p {
                        assert(rk[t] == k);
                        assert(rk.contains(k));
                        assert(e0.contains(k));
                        let u = choose|u: int| 0 <= u < i && e0[u] == k;
                        assert(e1[u] == k);
                    } else if t > p {
                        assert(rk[t - 1] == k);
                        assert(rk.contains(k));
                        assert(e0.contains(k));
                        let u = choose|u: int| 0 <= u < i && e0[u] == k;
                        assert(e1[u] == k);
                    } else {
                        assert(e1[i as int] == k);
                    }
                }
                if e1.contains(k) {
                    let u = choose|u: int| 0 <= u < i + 1 && e1[u] == k;
                    if u < i {
                        assert(e0[u] == k);
                        assert(e0.contains(k));
                        assert(rk.contains(k));
                        let t = choose|t: int| 0 <= t < rk.len() && rk[t] == k;
                        if t < p {
                            assert(nk[t] == k);
                        } else {
                            assert(nk[t + 1] == k);
                        }
                    } else {
                        assert(nk[p as int] == k);
                    }
                }
            }
        }
        i = i + 1;
    }
    proof {
        let rk = res@.map_values(|e: (i64, &KworkSnapshot)| e.0);
        assert(ek.take(n as int) =~= ek);
        assert forall|a: int, b: int| 0 <= a < b < rk.len() implies summary_before(m, #[trigger] rk[a], #[trigger] rk[b]) by {
            assert(rk[a] == res@[a].0 && rk[b] == res@[b].0);
        }
        assert forall|t: int| 0 <= t < rk.len() implies m.contains_key(#[trigger] rk[t]) by {
            assert(rk[t] == res@[t].0);
        }
        assert forall|k: i64| #[trigger] m.contains_key(k) implies rk.contains(k) by {
            let u = choose|u: int| 0 <= u < es.len() && es[u].0 == k;
            assert(ek[u] == k);
            assert(ek.contains(k));
        }
    }
    res
}

/// The summary of the stored kworks (see `summary_text`).
pub fn build_summary(state: &StateStore) -> (r: String)
    ensures
        r@ == summary_text(state@.data.kworks),
{
    let ghost m = state@.data.kworks;
    let entries = state.kwork_entries();
    let rows = summary_sorted(&entries, Ghost(m));
    let ghost ks = rows@.map_values(|e: (i64, &KworkSnapshot)| e.0);
    proof {
        lemma_summary_order_unique(m, ks, summary_keys(m));
    }
    let n = rows.len();
    if n == 0 {
        return "📊 Сводка: пока нет данных по кворкам.".to_owned();
    }
    let mut lines: Vec<String> = Vec::new();
    let mut total_views: i128 = 0;
    let mut total_orders: i128 = 0;
    let mut i: usize = 0;
    while i < n
        invariant
            n == rows@.len(),
            ks == rows@.map_values(|e: (i64, &KworkSnapshot)| e.0),
            forall|t: int| 0 <= t < rows@.len() ==> m[(#[trigger] rows@[t]).0] == rows@[t].1@,
            i <= n,
            lines@.map_values(|s: String| s@) == ks.take(i as int).map_values(|k: i64| summary_line(m[k])),
            total_views == views_total(m, ks.take(i as int)),
            total_orders == orders_total(m, ks.take(i as int)),
            -(i as int) * 0x8000_0000_0000_0000 <= total_views <= (i as int) * 0x8000_0000_0000_0000,
            -(i as int) * 0x8000_0000_0000_0000 <= total_orders <= (i as int) * 0x8000_0000_0000_0000,
        decreases n - i,
    {
        let (id, k) = rows[i];
        assert(m[id] == k@);
        assert(ks.take(i + 1).drop_last() =~= ks.take(i as int));
        assert(ks.take(i + 1).last() == id);
        proof {
            let ii = i as int;
            assert(ii + 1 <= 0xffff_ffff_ffff_ffff);
            assert((ii + 1) * 0x8000_0000_0000_0000 <= 0xffff_ffff_ffff_ffff * 0x8000_0000_0000_0000) by (nonlinear_arith)
                requires
                    ii + 1 <= 0xffff_ffff_ffff_ffff,
            ;
            assert(ii * 0x8000_0000_0000_0000 + 0x8000_0000_0000_0000 == (ii + 1) * 0x8000_0000_0000_0000) by (nonlinear_arith);
        }
        total_views = total_views + k.views as i128;
        total_orders = total_orders + k.orders as i128;
        let mut line = "• ".to_owned();
        line.append(k.name.as_str());
        line.append(" — 👁 ");
        let v = int_text(k.views as i128);
        line.append(v.as_str());
        line.append("  📦 ");
        let o = int_text(k.orders as i128);
        line.append(o.as_str());
        assert(line@ =~= summary_line(m[id]));
        let ghost before_lines = lines@.map_values(|s: String| s@);
        lines.push(line);
        assert(ks[i as int] == id);
        assert(ks.take(i + 1) =~= ks.take(i as int).push(id));
        assert(lines@.map_values(|s: String| s@) =~= before_lines.push(summary_line(m[id])));
        assert(ks.take(i + 1).map_values(|k: i64| summary_line(m[k])) =~= ks.take(i as int).map_values(
            |k: i64| summary_line(m[k]),
        ).push(summary_line(m[id])));
        assert(lines@.map_values(|s: String| s@) =~= ks.take(i + 1).map_values(|k: i64| summary_line(m[k])));
        i = i + 1;
    }
    assert(ks.take(n as int) =~= ks);
    lines.push(String::new());
    let mut last = "Итого: ".to_owned();
    let count = int_text(n as i128);
    last.append(count.as_str());
    last.append(" кворков, 👁 ");
    let tv = int_text(total_views);
    last.append(tv.as_str());
    last.append(", 📦 ");
    let to = int_text(total_orders);
    last.append(to.as_str());
    lines.push(last);
    let text = join_strings(&lines, "\n");
    proof {
        assert(lines@.map_values(|s: String| s@) =~= ks.map_values(|k: i64| summary_line(m[k])).push(
            Seq::empty(),
        ).push(
            "Итого: "@ + dec(ks.len() as int) + " кворков, 👁 "@ + dec(views_total(m, ks)) + ", 📦 "@
                + dec(orders_total(m, ks)),
        ));
    }
    text
}

} // verus!

verus! {

// ---------------------------------------------------------------------------
// The digest
// ---------------------------------------------------------------------------

/// The connects figure: active and total, or a placeholder when they could
/// not be read.
pub open spec fn connects_text(connects: Option<(i64, i64)>) -> Seq<char> {
    match connects {
        Some((active, all)) => dec(active as int) + " / "@ + dec(all as int),
        None => "недоступно"@,
    }
}

/// The periodic digest: account figures followed by the kwork summary.  The
/// money amounts and the rating come already rendered (`free`, `hold`,
/// `rating`).
pub open spec fn digest_text(
    a: ActorView,
    free: Seq<char>,
    hold: Seq<char>,
    rating: Seq<char>,
    connects: Option<(i64, i64)>,
    m: Map<i64, KworkView>,
) -> Seq<char> {
    "📋 Дайджест Kwork\n@"@ + a.username + "\n💰 Баланс: "@ + free + "₽ (холд "@ + hold + "₽)\n⭐ Рейтинг: "@
        + rating + " (+"@ + dec(a.good_reviews as int) + " / −"@ + dec(a.bad_reviews as int)
        + ")\n📦 Заказов выполнено: "@ + dec(a.completed_orders_count as int) + "\n🔗 Коннекты: "@
        + connects_text(connects) + "\n📩 Непрочитано: "@ + dec(a.unread_dialog_count as int)
        + " диал. / "@ + dec(a.unread_messages_count as int) + " сообщ.\n🛍 Кворков: "@ + dec(
        a.kworks_count as int,
    ) + "\n\n"@ + summary_text(m)
}

fn push_i64(s: &mut String, v: i64)
    ensures
        final(s)@ == old(s)@ + dec(v as int),
{
    let t = int_text(v as i128);
    s.append(t.as_str());
}

/// The digest for the account figures, the rendered amounts and rating, the
/// connects (if they could be read) and the stored kworks.
pub fn build_digest(
    actor: &ActorInfo,
    free: &str,
    hold: &str,
    rating: &str,
    connects: Option<(i64, i64)>,
    state: &StateStore,
) -> (r: String)
    ensures
        r@ == digest_text(actor@, free@, hold@, rating@, connects, state@.data.kworks),
{
    let mut t = "📋 Дайджест Kwork\n@".to_owned();
    t.append(actor.username.as_str());
    t.append("\n💰 Баланс: ");
    t.append(free);
    t.append("₽ (холд ");
    t.append(hold);
    t.append("₽)\n⭐ Рейтинг: ");
    t.append(rating);
    t.append(" (+");
    push_i64(&mut t, actor.good_reviews);
    t.append(" / −");
    push_i64(&mut t, actor.bad_reviews);
    t.append(")\n📦 Заказов выполнено: ");
    push_i64(&mut t, actor.completed_orders_count);
    t.append("\n🔗 Коннекты: ");
    match connects {
        Some((active, all)) => {
            push_i64(&mut t, active);
            t.append(" / ");
            push_i64(&mut t, all);
        },
        None => {
            t.append("недоступно");
        },
    }
    t.append("\n📩 Непрочитано: ");
    push_i64(&mut t, actor.unread_dialog_count);
    t.append(" диал. / ");
    push_i64(&mut t, actor.unread_messages_count);
    t.append(" сообщ.\n🛍 Кворков: ");
    push_i64(&mut t, actor.kworks_count);
    t.append("\n\n");
    let summary = build_summary(state);
    t.append(summary.as_str());
    proof {
        assert(t@ =~= digest_text(actor@, free@, hold@, rating@, connects, state@.data.kworks));
    }
    t
}

} // verus!

verus! {

/// Settles a statistics run after its report, if any, was handled.
/// `outcome` is `None` when there was nothing to report and otherwise whether
/// the report was delivered.  Unless an undelivered report must be retried,
/// the run is applied at `now` (see `stats_applied`).  Returns whether the
/// run went through.
pub fn finish_stats(state: &mut StateStore, rows: &Vec<KworkActivity>, complete: bool, outcome: Option<bool>, now: u64) -> (r: bool)
    ensures
        r == (outcome != Some(false)),
        outcome != Some(false) ==> final(state)@ == stats_applied(
            old(state)@,
            rows@.map_values(|k: KworkActivity| k@),
            complete,
            now,
        ),
        outcome == Some(false) ==> final(state)@ == old(state)@,
{
    match outcome {
        Some(false) => false,
        _ => {
            apply_stats(state, rows, complete, now);
            true
        },
    }
}

/// The result of a statistics run: one notice when the report went out,
/// none when there was nothing to report, a failure when the report was not
/// delivered (the run is then retried).
pub fn stats_outcome(outcome: Option<bool>) -> (r: Result<usize, ApiError>)
    ensures
        outcome == Some(true) ==> r == Ok::<usize, ApiError>(1),
        outcome is None ==> r == Ok::<usize, ApiError>(0),
        outcome == Some(false) ==> (r matches Err(e) && e@ == ApiErrorView::Io(
            "Telegram delivery failed; stats notification will be retried"@,
        )),
{
    match outcome {
        Some(true) => Ok(1),
        None => Ok(0),
        Some(false) => Err(ApiError::Io("Telegram delivery failed; stats notification will be retried".to_owned())),
    }
}

} // verus!

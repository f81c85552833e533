//! Worker-order notifications.  The first run only records what it sees;
//! later runs announce new orders and status changes.
//!
//! A run goes order by order: `order_notice` says whether a notice is due and
//! gives its text; the caller delivers it and reports the outcome to
//! `finish_order`; `finish_orders` marks the store seeded and records the run.
use vstd::prelude::*;

use crate::kwork::api::{ApiError, ApiErrorView, OrderInfo, OrderView};
use crate::state::{fingerprint_value, pruned, stored_fingerprint, Fingerprint, StateStore, StoreView, StateView, MAX_ORDERS};
use crate::textops::{contains_seq, dec, int_text, prefix, str_contains, str_eq, take_chars};

verus! {

/// Characters of an order's status kept as its fingerprint.
pub const STATUS_CHARS: usize = 80;

/// What happened to an order since the last run.
#[derive(Debug, PartialEq, Eq)]
pub enum OrderChange<'a> {
    /// Nothing to announce.
    Unchanged,
    /// An order not seen before.
    New,
    /// The status changed; the previous status is given.
    Status(&'a str),
}

pub enum ChangeView {
    Unchanged,
    New,
    Status(Seq<char>),
}

impl<'a> View for OrderChange<'a> {
    type V = ChangeView;

    open spec fn view(&self) -> ChangeView {
        match self {
            OrderChange::Unchanged => ChangeView::Unchanged,
            OrderChange::New => ChangeView::New,
            OrderChange::Status(s) => ChangeView::Status(s@),
        }
    }
}

/// Nothing is announced before the store is seeded; after that an order
/// without a stored status is new, and one whose stored status differs has
/// changed.
pub open spec fn change_of(seeded: bool, previous: Option<Seq<char>>, current: Seq<char>) -> ChangeView {
    if !seeded {
        ChangeView::Unchanged
    } else {
        match previous {
            None => ChangeView::New,
            Some(p) => if p != current {
                ChangeView::Status(p)
            } else {
                ChangeView::Unchanged
            },
        }
    }
}

/// Classifies an order from the seeded flag, its stored status and its
/// current status.
pub fn classify_order<'a>(seeded: bool, previous: Option<&'a str>, current: &str) -> (r: OrderChange<'a>)
    ensures
        r@ == change_of(seeded, crate::textops::opt_str_view(previous), current@),
{
    if !seeded {
        return OrderChange::Unchanged;
    }
    match previous {
        None => OrderChange::New,
        Some(p) => if !str_eq(p, current) {
            OrderChange::Status(p)
        } else {
            OrderChange::Unchanged
        },
    }
}

/// The first `max` characters of `value`.
pub fn bounded_chars(value: &str, max: usize) -> (r: String)
    ensures
        r@ == prefix(value@, max as nat),
{
    take_chars(value, max)
}

/// The status fingerprint stored for an order.
pub open spec fn status_key(o: OrderView) -> Seq<char> {
    prefix(o.status, STATUS_CHARS as nat)
}

/// The change of an order against the store.
pub open spec fn order_change(store: StoreView, seeded: bool, o: OrderView) -> ChangeView {
    change_of(seeded, fingerprint_value(store.data.orders, o.id), status_key(o))
}

/// The tracking link of an order.
pub open spec fn track_link(id: i64) -> Seq<char> {
    "https://kwork.ru/track?id="@ + dec(id as int)
}

/// The notice about a new order: id, title, status, buyer (an empty line
/// without one) and tracking link.
pub open spec fn new_order_notice(o: OrderView) -> Seq<char> {
    let buyer = if o.username.len() == 0 {
        Seq::empty()
    } else {
        "покупатель: @"@ + o.username
    };
    "🆕 Новый заказ #"@ + dec(o.id as int) + "\n"@ + o.title + "\nстатус: "@ + o.status + "\n"@ + buyer
        + "\n"@ + track_link(o.id)
}

/// The notice about a status change: id, old and new status, title and
/// tracking link.
pub open spec fn status_notice(o: OrderView, previous: Seq<char>) -> Seq<char> {
    "📦 Заказ #"@ + dec(o.id as int) + ": "@ + previous + " → "@ + o.status + "\n"@ + o.title + "\n"@
        + track_link(o.id)
}

/// The notice due for an order, if any.
pub open spec fn order_notice_of(store: StoreView, seeded: bool, o: OrderView) -> Option<Seq<char>> {
    match order_change(store, seeded, o) {
        ChangeView::Unchanged => None,
        ChangeView::New => Some(new_order_notice(o)),
        ChangeView::Status(p) => Some(status_notice(o, p)),
    }
}

/// The store after the order's status fingerprint was recorded at `now`.
pub open spec fn order_recorded(store: StoreView, o: OrderView, now: u64) -> StoreView {
    StoreView {
        data: StateView {
            orders: pruned::<Fingerprint>(
                store.data.orders.insert(o.id, stored_fingerprint(status_key(o), now)),
                MAX_ORDERS as nat,
            ),
            ..store.data
        },
        dirty: true,
        ..store
    }
}

fn push_track_link(msg: &mut String, id: i64)
    ensures
        final(msg)@ == old(msg)@ + track_link(id),
{
    msg.append("https://kwork.ru/track?id=");
    let t = int_text(id as i128);
    msg.append(t.as_str());
}

/// The notice due for an order given the store and whether it is seeded.
pub fn order_notice(state: &StateStore, seeded: bool, o: &OrderInfo) -> (r: Option<String>)
    ensures
        crate::textops::opt_string_view(r) == order_notice_of(state@, seeded, o@),
{
    let key = bounded_chars(o.status.as_str(), STATUS_CHARS);
    let change = classify_order(seeded, state.order(o.id), key.as_str());
    match change {
        OrderChange::Unchanged => None,
        OrderChange::New => {
            let mut msg = "🆕 Новый заказ #".to_owned();
            let id = int_text(o.id as i128);
            msg.append(id.as_str());
            msg.append("\n");
            msg.append(o.title.as_str());
            msg.append("\nстатус: ");
            msg.append(o.status.as_str());
            msg.append("\n");
            if !o.username.as_str().is_empty() {
                msg.append("покупатель: @");
                msg.append(o.username.as_str());
            }
            msg.append("\n");
            push_track_link(&mut msg, o.id);
            proof {
                assert(msg@ =~= new_order_notice(o@));
            }
            Some(msg)
        },
        OrderChange::Status(previous) => {
            let mut msg = "📦 Заказ #".to_owned();
            let id = int_text(o.id as i128);
            msg.append(id.as_str());
            msg.append(": ");
            msg.append(previous);
            msg.append(" → ");
            msg.append(o.status.as_str());
            msg.append("\n");
            msg.append(o.title.as_str());
            msg.append("\n");
            push_track_link(&mut msg, o.id);
            proof {
                assert(msg@ =~= status_notice(o@, previous@));
            }
            Some(msg)
        },
    }
}

/// Settles an order after its notice, if any, was handled.  `outcome` is
/// `None` when no notice was due and otherwise whether the notice was
/// delivered.  Unless an undelivered notice must be retried, the status
/// fingerprint is recorded at `now`.  Returns whether a notice was sent.
pub fn finish_order(state: &mut StateStore, o: &OrderInfo, outcome: Option<bool>, now: u64) -> (r: bool)
    ensures
        r == (outcome == Some(true)),
        outcome != Some(false) ==> final(state)@ == order_recorded(old(state)@, o@, now),
        outcome == Some(false) ==> final(state)@ == old(state)@,
{
    let delivered = match outcome {
        Some(d) => d,
        None => true,
    };
    if delivered {
        let key = bounded_chars(o.status.as_str(), STATUS_CHARS);
        state.set_order_at(o.id, key, now);
    }
    match outcome {
        Some(d) => d,
        None => false,
    }
}

/// Ends an orders run: a store that was not seeded becomes seeded, and the
/// run is recorded at `now`.
pub fn finish_orders(state: &mut StateStore, now: u64)
    ensures
        final(state)@ == (StoreView {
            data: StateView {
                orders_seeded: true,
                health: old(state)@.data.health.insert("orders"@, now),
                ..old(state)@.data
            },
            dirty: true,
            ..old(state)@
        }),
{
    state.mark_orders_seeded();
    state.touch_ok_at("orders", now);
}

/// The marker of the API error that means the account has no orders yet.
pub open spec fn nothing_ordered_marker() -> Seq<char> {
    "ничего не заказали"@
}

/// An API error saying that there are no orders at all: a run that meets it
/// succeeds with nothing to announce.
pub fn orders_unavailable(e: &ApiError) -> (r: bool)
    ensures
        r == (e@ matches ApiErrorView::Api(m) && contains_seq(m, nothing_ordered_marker())),
{
    match e {
        ApiError::Api(m) => str_contains(m.as_str(), "ничего не заказали"),
        _ => false,
    }
}

} // verus!

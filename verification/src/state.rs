//! Bounded persistent state: notification fingerprints per dialog and
//! order, the latest snapshot per kwork, job health and the last error.
//! Every map is capped; the oldest entries (by update time, ties broken by
//! the decimal id in text order) go first.
use std::collections::BTreeMap;

use vstd::prelude::*;
use vstd::std_specs::cmp::OrdSpec;
use vstd::std_specs::iter::IteratorSpec;

use vstd::utf8::encode_utf8;

use crate::clock::unix_now;
use crate::textops::{
    char_vec, dec, exceeds_bytes, int_text, lemma_dec_inj, lemma_lex_asym, lemma_lex_irrefl, lemma_lex_total,
    lemma_lex_trans, lex_less, lex_lt, prefix, push_int, str_eq, take_chars, truncate,
    truncate_bytes,
};

verus! {

broadcast use vstd::std_specs::btree::group_btree_axioms;

/// The state file format version this build reads and writes.
pub const STATE_VERSION: u32 = 1;

/// Dialog fingerprints kept.
pub const MAX_DIALOGS: usize = 1000;

/// Kwork snapshots kept.
pub const MAX_KWORKS: usize = 1000;

/// Order fingerprints kept.
pub const MAX_ORDERS: usize = 2000;

/// Characters of error text kept.
pub const MAX_ERROR_CHARS: usize = 500;

/// Bytes of a stored fingerprint kept.
pub const MAX_FINGERPRINT_BYTES: usize = 256;

/// Bytes of a stored kwork name kept.
pub const MAX_KWORK_NAME_BYTES: usize = 128;

// ---------------------------------------------------------------------------
// Oldest-first pruning
// ---------------------------------------------------------------------------

/// Entries that carry an update time.
pub trait Stamped: View + Sized {
    /// The update time of an entry's view.
    spec fn stamp_of(v: Self::V) -> u64;

    fn timestamp(&self) -> (t: u64)
        ensures
            t == Self::stamp_of(self@),
    ;
}

/// The views of a map's values.
pub open spec fn vmap<V: View>(m: Map<i64, V>) -> Map<i64, V::V> {
    m.map_values(|v: V| v@)
}

/// Entry `a` is older than entry `b`: earlier update time, or the same time
/// and a smaller id in text order (`"10" < "9"`).
pub open spec fn older<V: Stamped>(m: Map<i64, V::V>, a: i64, b: i64) -> bool {
    ||| V::stamp_of(m[a]) < V::stamp_of(m[b])
    ||| (V::stamp_of(m[a]) == V::stamp_of(m[b]) && lex_lt(dec(a as int), dec(b as int)))
}

/// `k` is the oldest entry of `m`.
pub open spec fn is_oldest<V: Stamped>(m: Map<i64, V::V>, k: i64) -> bool {
    &&& m.contains_key(k)
    &&& forall|j: i64| #[trigger] m.contains_key(j) && j != k ==> older::<V>(m, k, j)
}

/// The oldest entry of `m`.
pub open spec fn oldest<V: Stamped>(m: Map<i64, V::V>) -> i64 {
    choose|k: i64| is_oldest::<V>(m, k)
}

/// `m` with oldest entries removed until at most `limit` remain.
pub open spec fn pruned<V: Stamped>(m: Map<i64, V::V>, limit: nat) -> Map<i64, V::V>
    decreases m.len(),
    when m.dom().finite()
{
    if m.len() <= limit || !m.contains_key(oldest::<V>(m)) {
        m
    } else {
        pruned::<V>(m.remove(oldest::<V>(m)), limit)
    }
}

pub proof fn lemma_older_asym<V: Stamped>(m: Map<i64, V::V>, a: i64, b: i64)
    ensures
        older::<V>(m, a, b) ==> !older::<V>(m, b, a),
{
    lemma_lex_asym(dec(a as int), dec(b as int));
}

pub proof fn lemma_older_trans<V: Stamped>(m: Map<i64, V::V>, a: i64, b: i64, c: i64)
    requires
        older::<V>(m, a, b),
        older::<V>(m, b, c),
    ensures
        older::<V>(m, a, c),
{
    if V::stamp_of(m[a]) == V::stamp_of(m[b]) && V::stamp_of(m[b]) == V::stamp_of(m[c]) {
        lemma_lex_trans(dec(a as int), dec(b as int), dec(c as int));
    }
}

pub proof fn lemma_older_total<V: Stamped>(m: Map<i64, V::V>, a: i64, b: i64)
    requires
        a != b,
    ensures
        older::<V>(m, a, b) || older::<V>(m, b, a),
{
    if dec(a as int) == dec(b as int) {
        lemma_dec_inj(a as int, b as int);
    }
    lemma_lex_total(dec(a as int), dec(b as int));
}

proof fn lemma_oldest_unique<V: Stamped>(m: Map<i64, V::V>, k: i64)
    requires
        is_oldest::<V>(m, k),
    ensures
        oldest::<V>(m) == k,
{
    let o = oldest::<V>(m);
    assert(is_oldest::<V>(m, o));
    if o != k {
        assert(m.contains_key(o));
        assert(older::<V>(m, k, o));
        assert(older::<V>(m, o, k));
        lemma_older_asym::<V>(m, k, o);
    }
}

/// The oldest key of a non-empty map.
fn find_oldest<V: Stamped>(m: &BTreeMap<i64, V>) -> (r: i64)
    requires
        m@.len() > 0,
    ensures
        is_oldest::<V>(vmap(m@), r),
{
    let ghost vm = vmap(m@);
    let mut best: Option<(i64, u64, Vec<char>)> = None;
    for (k, v) in it: m.iter()
        invariant
            vm == vmap(m@),
            it.seq().len() == m@.len(),
            best is None ==> it.index() == 0,
            best matches Some((bk, bt, bd)) ==> {
                &&& m@.contains_key(bk)
                &&& bt == V::stamp_of(vm[bk])
                &&& bd@ == dec(bk as int)
                &&& forall|i: int|
                    0 <= i < it.index() && *(#[trigger] it.seq()[i]).0 != bk ==> older::<V>(
                        vm,
                        bk,
                        *it.seq()[i].0,
                    )
                &&& exists|i: int| 0 <= i < it.index() && *(#[trigger] it.seq()[i]).0 == bk
            },
    {
        let t = v.timestamp();
        let ghost idx = it.index();
        assert(m@.contains_key(*k) && m@[*k] == *v);
        let kd = char_vec(int_text(*k as i128).as_str());
        let replace = match &best {
            None => {
                assert(*it.seq()[idx].0 == *k);
                true
            },
            Some((bk, bt, bd)) => {
                let bk = *bk;
                let bt = *bt;
                let earlier = t < bt || (t == bt && lex_less(&kd, bd));
                proof {
                    if *k == bk {
                        lemma_lex_irrefl(kd@);
                    }
                }
                if earlier {
                    assert(older::<V>(vm, *k, bk));
                    proof {
                        assert forall|i: int|
                            0 <= i < idx + 1 && *(#[trigger] it.seq()[i]).0 != *k implies older::<V>(
                            vm,
                            *k,
                            *it.seq()[i].0,
                        ) by {
                            let j = *it.seq()[i].0;
                            if i < idx && j != bk {
                                lemma_older_trans::<V>(vm, *k, bk, j);
                            }
                        }
                    }
                    assert(*it.seq()[idx].0 == *k);
                } else if *k != bk {
                    proof {
                        lemma_older_total::<V>(vm, *k, bk);
                    }
                    assert(older::<V>(vm, bk, *k));
                }
                earlier
            },
        };
        if replace {
            best = Some((*k, t, kd));
        }
    }
    match best {
        Some((bk, _, _)) => {
            proof {
                assert forall|j: i64| #[trigger] vm.contains_key(j) && j != bk implies older::<V>(
                    vm,
                    bk,
                    j,
                ) by {
                    assert(m@.contains_key(j));
                }
            }
            bk
        },
        None => {
            proof {
                let k0 = m@.dom().choose();
                assert(m@.dom().len() > 0);
                assert(m@.contains_key(k0));
            }
            0
        },
    }
}

/// Removes oldest entries until at most `limit` remain.
fn prune_oldest<V: Stamped>(m: &mut BTreeMap<i64, V>, limit: usize)
    ensures
        vmap(final(m)@) == pruned::<V>(vmap(old(m)@), limit as nat),
{
    proof {
        lemma_vmap_finite(old(m)@);
    }
    while m.len() > limit
        invariant
            m@.dom().finite(),
            pruned::<V>(vmap(m@), limit as nat) == pruned::<V>(vmap(old(m)@), limit as nat),
        decreases m@.len(),
    {
        let k = find_oldest(m);
        proof {
            lemma_oldest_unique::<V>(vmap(m@), k);
            lemma_vmap_finite(m@);
        }
        let ghost before = m@;
        m.remove(&k);
        assert(vmap(m@) =~= vmap(before).remove(k));
        proof {
            lemma_vmap_finite(m@);
        }
    }
    proof {
        lemma_vmap_finite(m@);
    }
}

proof fn lemma_vmap_finite<V: View>(m: Map<i64, V>)
    requires
        m.dom().finite(),
    ensures
        vmap(m).dom() == m.dom(),
        vmap(m).dom().finite(),
        vmap(m).len() == m.len(),
{
    assert(vmap(m).dom() =~= m.dom());
}


// ---------------------------------------------------------------------------
// Stored records
// ---------------------------------------------------------------------------

/// The last notification fingerprint for a dialog or an order.
#[derive(Debug)]
pub struct Fingerprint {
    pub value: String,
    pub updated_at: u64,
}

pub struct FingerprintView {
    pub value: Seq<char>,
    pub updated_at: u64,
}

impl View for Fingerprint {
    type V = FingerprintView;

    open spec fn view(&self) -> FingerprintView {
        FingerprintView { value: self.value@, updated_at: self.updated_at }
    }
}

impl Stamped for Fingerprint {
    open spec fn stamp_of(v: FingerprintView) -> u64 {
        v.updated_at
    }

    fn timestamp(&self) -> (t: u64) {
        self.updated_at
    }
}

/// The last seen counters of one kwork.
#[derive(Debug)]
pub struct KworkSnapshot {
    pub name: String,
    pub views: i64,
    pub orders: i64,
    pub updated_at: u64,
}

pub struct KworkView {
    pub name: Seq<char>,
    pub views: i64,
    pub orders: i64,
    pub updated_at: u64,
}

impl View for KworkSnapshot {
    type V = KworkView;

    open spec fn view(&self) -> KworkView {
        KworkView {
            name: self.name@,
            views: self.views,
            orders: self.orders,
            updated_at: self.updated_at,
        }
    }
}

impl Stamped for KworkSnapshot {
    open spec fn stamp_of(v: KworkView) -> u64 {
        v.updated_at
    }

    fn timestamp(&self) -> (t: u64) {
        self.updated_at
    }
}

impl KworkSnapshot {
    pub fn copy(&self) -> (r: KworkSnapshot)
        ensures
            r@ == self@,
    {
        KworkSnapshot {
            name: self.name.clone(),
            views: self.views,
            orders: self.orders,
            updated_at: self.updated_at,
        }
    }
}

/// The most recent failure text and when it happened.
#[derive(Debug)]
pub struct ErrorRecord {
    pub message: String,
    pub at: u64,
}

pub struct ErrorView {
    pub message: Seq<char>,
    pub at: u64,
}

impl View for ErrorRecord {
    type V = ErrorView;

    open spec fn view(&self) -> ErrorView {
        ErrorView { message: self.message@, at: self.at }
    }
}

/// Successful-run times per job name, in insertion order; a later entry for a
/// name overrides an earlier one.
pub open spec fn health_map(h: Seq<(String, u64)>) -> Map<Seq<char>, u64>
    decreases h.len(),
{
    if h.len() == 0 {
        Map::empty()
    } else {
        health_map(h.drop_last()).insert(h.last().0@, h.last().1)
    }
}

/// The persisted document.
#[derive(Debug)]
pub struct StateData {
    pub version: u32,
    pub dialogs: BTreeMap<i64, Fingerprint>,
    pub kworks: BTreeMap<i64, KworkSnapshot>,
    pub orders: BTreeMap<i64, Fingerprint>,
    pub health: Vec<(String, u64)>,
    pub orders_seeded: bool,
    pub last_error: Option<ErrorRecord>,
}

pub struct StateView {
    pub version: u32,
    pub dialogs: Map<i64, FingerprintView>,
    pub kworks: Map<i64, KworkView>,
    pub orders: Map<i64, FingerprintView>,
    pub health: Map<Seq<char>, u64>,
    pub orders_seeded: bool,
    pub last_error: Option<ErrorView>,
}

pub open spec fn error_view(e: Option<ErrorRecord>) -> Option<ErrorView> {
    match e {
        Some(r) => Some(r@),
        None => None,
    }
}

impl View for StateData {
    type V = StateView;

    open spec fn view(&self) -> StateView {
        StateView {
            version: self.version,
            dialogs: vmap(self.dialogs@),
            kworks: vmap(self.kworks@),
            orders: vmap(self.orders@),
            health: health_map(self.health@),
            orders_seeded: self.orders_seeded,
            last_error: error_view(self.last_error),
        }
    }
}

/// The empty state of the current version.
pub open spec fn empty_state() -> StateView {
    StateView {
        version: STATE_VERSION,
        dialogs: Map::empty(),
        kworks: Map::empty(),
        orders: Map::empty(),
        health: Map::empty(),
        orders_seeded: false,
        last_error: None,
    }
}

impl Default for StateData {
    fn default() -> (r: StateData)
        ensures
            r@ == empty_state(),
    {
        let r = StateData {
            version: STATE_VERSION,
            dialogs: BTreeMap::new(),
            kworks: BTreeMap::new(),
            orders: BTreeMap::new(),
            health: Vec::new(),
            orders_seeded: false,
            last_error: None,
        };
        assert(vmap(r.dialogs@) =~= Map::empty());
        assert(vmap(r.kworks@) =~= Map::empty());
        assert(vmap(r.orders@) =~= Map::empty());
        r
    }
}

} // verus!


verus! {

// ---------------------------------------------------------------------------
// The store
// ---------------------------------------------------------------------------

/// The state in memory, the file it belongs to, and whether it changed since
/// it was last written.
#[derive(Debug)]
pub struct StateStore {
    path: String,
    data: StateData,
    dirty: bool,
}

pub struct StoreView {
    pub path: Seq<char>,
    pub data: StateView,
    pub dirty: bool,
}

impl View for StateStore {
    type V = StoreView;

    closed spec fn view(&self) -> StoreView {
        StoreView { path: self.path@, data: self.data@, dirty: self.dirty }
    }
}

/// A fingerprint record as stored: the value cut to its byte bound.
pub open spec fn stored_fingerprint(value: Seq<char>, at: u64) -> FingerprintView {
    FingerprintView { value: truncate_bytes(value, MAX_FINGERPRINT_BYTES as nat), updated_at: at }
}

/// A kwork snapshot as stored: the name cut to its byte bound.
pub open spec fn stored_kwork(name: Seq<char>, views: i64, orders: i64, at: u64) -> KworkView {
    KworkView {
        name: truncate_bytes(name, MAX_KWORK_NAME_BYTES as nat),
        views,
        orders,
        updated_at: at,
    }
}

/// An error record as stored: the first 500 characters of the message.
pub open spec fn stored_error(message: Seq<char>, at: u64) -> ErrorView {
    ErrorView { message: prefix(message, MAX_ERROR_CHARS as nat), at }
}

/// `Some(fingerprint value)` for a stored key.
pub open spec fn fingerprint_value(m: Map<i64, FingerprintView>, id: i64) -> Option<Seq<char>> {
    if m.contains_key(id) {
        Some(m[id].value)
    } else {
        None
    }
}

pub open spec fn opt_str_seq(o: Option<&str>) -> Option<Seq<char>> {
    match o {
        Some(s) => Some(s@),
        None => None,
    }
}

impl StateStore {
    spec fn inv(&self) -> bool {
        &&& self.data.dialogs@.dom().finite()
        &&& self.data.kworks@.dom().finite()
        &&& self.data.orders@.dom().finite()
    }

    /// The state file's path.
    pub fn path(&self) -> (r: &str)
        ensures
            r@ == self@.path,
    {
        self.path.as_str()
    }

    /// The document as it will be written.
    pub fn data(&self) -> (r: &StateData)
        ensures
            r@ == self@.data,
    {
        &self.data
    }

    /// The document, giving up the store.
    pub fn into_data(self) -> (r: StateData)
        ensures
            r@ == self@.data,
    {
        self.data
    }

    /// Whether there are changes that have not been written yet.
    pub fn needs_save(&self) -> (r: bool)
        ensures
            r == self@.dirty,
    {
        self.dirty
    }

    /// Records that the current document has been written.
    pub fn mark_saved(&mut self)
        ensures
            final(self)@ == (StoreView { dirty: false, ..old(self)@ }),
    {
        self.dirty = false;
    }

    /// The last notification fingerprint stored for a dialog.
    pub fn dialog(&self, user_id: i64) -> (r: Option<&str>)
        ensures
            opt_str_seq(r) == fingerprint_value(self@.data.dialogs, user_id),
    {
        match self.data.dialogs.get(&user_id) {
            Some(entry) => Some(entry.value.as_str()),
            None => None,
        }
    }

    /// Stores a dialog fingerprint stamped `now` (cut to its byte bound), then
    /// drops the oldest dialogs beyond the cap.
    pub fn set_dialog_at(&mut self, user_id: i64, value: String, now: u64)
        ensures
            final(self)@ == (StoreView {
                data: StateView {
                    dialogs: pruned::<Fingerprint>(
                        old(self)@.data.dialogs.insert(user_id, stored_fingerprint(value@, now)),
                        MAX_DIALOGS as nat,
                    ),
                    ..old(self)@.data
                },
                dirty: true,
                ..old(self)@
            }),
    {
        let v = truncate(value, MAX_FINGERPRINT_BYTES);
        let ghost before = self.data.dialogs@;
        self.data.dialogs.insert(user_id, Fingerprint { value: v, updated_at: now });
        assert(vmap(self.data.dialogs@) =~= vmap(before).insert(
            user_id,
            stored_fingerprint(value@, now),
        ));
        prune_oldest(&mut self.data.dialogs, MAX_DIALOGS);
        self.dirty = true;
    }

    /// Stores a dialog fingerprint stamped with the current time.
    pub fn set_dialog(&mut self, user_id: i64, value: String)
        ensures
            exists|now: u64|
                final(self)@ == (StoreView {
                    data: StateView {
                        dialogs: pruned::<Fingerprint>(
                            #[trigger] old(self)@.data.dialogs.insert(
                                user_id,
                                stored_fingerprint(value@, now),
                            ),
                            MAX_DIALOGS as nat,
                        ),
                        ..old(self)@.data
                    },
                    dirty: true,
                    ..old(self)@
                }),
    {
        let now = unix_now();
        self.set_dialog_at(user_id, value, now);
    }

    /// The stored snapshot of a kwork.
    pub fn kwork(&self, id: i64) -> (r: Option<&KworkSnapshot>)
        ensures
            r matches Some(k) ==> self@.data.kworks.contains_key(id) && k@ == self@.data.kworks[id],
            r is None ==> !self@.data.kworks.contains_key(id),
    {
        self.data.kworks.get(&id)
    }

    /// Stores a kwork snapshot stamped `now` (name cut to its byte bound), then
    /// drops the oldest snapshots beyond the cap.
    pub fn set_kwork_at(&mut self, id: i64, name: String, views: i64, orders: i64, now: u64)
        ensures
            final(self)@ == (StoreView {
                data: StateView {
                    kworks: pruned::<KworkSnapshot>(
                        old(self)@.data.kworks.insert(id, stored_kwork(name@, views, orders, now)),
                        MAX_KWORKS as nat,
                    ),
                    ..old(self)@.data
                },
                dirty: true,
                ..old(self)@
            }),
    {
        let n = truncate(name, MAX_KWORK_NAME_BYTES);
        let ghost before = self.data.kworks@;
        self.data.kworks.insert(id, KworkSnapshot { name: n, views, orders, updated_at: now });
        assert(vmap(self.data.kworks@) =~= vmap(before).insert(
            id,
            stored_kwork(name@, views, orders, now),
        ));
        prune_oldest(&mut self.data.kworks, MAX_KWORKS);
        self.dirty = true;
    }

    /// Stores a kwork snapshot stamped with the current time.
    pub fn set_kwork(&mut self, id: i64, name: String, views: i64, orders: i64)
        ensures
            exists|now: u64|
                final(self)@ == (StoreView {
                    data: StateView {
                        kworks: pruned::<KworkSnapshot>(
                            #[trigger] old(self)@.data.kworks.insert(
                                id,
                                stored_kwork(name@, views, orders, now),
                            ),
                            MAX_KWORKS as nat,
                        ),
                        ..old(self)@.data
                    },
                    dirty: true,
                    ..old(self)@
                }),
    {
        let now = unix_now();
        self.set_kwork_at(id, name, views, orders, now);
    }

    /// The last notification fingerprint stored for an order.
    pub fn order(&self, id: i64) -> (r: Option<&str>)
        ensures
            opt_str_seq(r) == fingerprint_value(self@.data.orders, id),
    {
        match self.data.orders.get(&id) {
            Some(entry) => Some(entry.value.as_str()),
            None => None,
        }
    }

    /// Stores an order fingerprint stamped `now` (cut to its byte bound), then
    /// drops the oldest orders beyond the cap.
    pub fn set_order_at(&mut self, id: i64, value: String, now: u64)
        ensures
            final(self)@ == (StoreView {
                data: StateView {
                    orders: pruned::<Fingerprint>(
                        old(self)@.data.orders.insert(id, stored_fingerprint(value@, now)),
                        MAX_ORDERS as nat,
                    ),
                    ..old(self)@.data
                },
                dirty: true,
                ..old(self)@
            }),
    {
        let v = truncate(value, MAX_FINGERPRINT_BYTES);
        let ghost before = self.data.orders@;
        self.data.orders.insert(id, Fingerprint { value: v, updated_at: now });
        assert(vmap(self.data.orders@) =~= vmap(before).insert(id, stored_fingerprint(value@, now)));
        prune_oldest(&mut self.data.orders, MAX_ORDERS);
        self.dirty = true;
    }

    /// Stores an order fingerprint stamped with the current time.
    pub fn set_order(&mut self, id: i64, value: String)
        ensures
            exists|now: u64|
                final(self)@ == (StoreView {
                    data: StateView {
                        orders: pruned::<Fingerprint>(
                            #[trigger] old(self)@.data.orders.insert(id, stored_fingerprint(value@, now)),
                            MAX_ORDERS as nat,
                        ),
                        ..old(self)@.data
                    },
                    dirty: true,
                    ..old(self)@
                }),
    {
        let now = unix_now();
        self.set_order_at(id, value, now);
    }

    /// Whether existing orders have been recorded once without notifying.
    pub fn orders_seeded(&self) -> (r: bool)
        ensures
            r == self@.data.orders_seeded,
    {
        self.data.orders_seeded
    }

    /// Records that existing orders have been seeded; a change only when they
    /// were not.
    pub fn mark_orders_seeded(&mut self)
        ensures
            final(self)@ == (if old(self)@.data.orders_seeded {
                old(self)@
            } else {
                StoreView {
                    data: StateView { orders_seeded: true, ..old(self)@.data },
                    dirty: true,
                    ..old(self)@
                }
            }),
    {
        if !self.data.orders_seeded {
            self.data.orders_seeded = true;
            self.dirty = true;
        }
    }

    /// When `job` last succeeded.
    pub fn last_ok(&self, job: &str) -> (r: Option<u64>)
        ensures
            r == (if self@.data.health.contains_key(job@) {
                Some(self@.data.health[job@])
            } else {
                None::<u64>
            }),
    {
        let h = &self.data.health;
        let mut i = h.len();
        while i > 0
            invariant
                i <= h@.len(),
                h@ == self.data.health@,
                forall|k: int| i <= k < h@.len() ==> h@[k].0@ != job@,
            decreases i,
        {
            let entry = &h[i - 1];
            if str_eq(entry.0.as_str(), job) {
                proof {
                    assert(h@[i - 1] == *entry);
                    lemma_health_last(h@, i as int, job@);
                    assert(self@.data.health == health_map(h@));
                }
                return Some(entry.1);
            }
            i = i - 1;
        }
        proof {
            lemma_health_absent(h@, job@);
        }
        None
    }

    /// Records that `job` succeeded at `now`.
    pub fn touch_ok_at(&mut self, job: &str, now: u64)
        ensures
            final(self)@ == (StoreView {
                data: StateView { health: old(self)@.data.health.insert(job@, now), ..old(self)@.data },
                dirty: true,
                ..old(self)@
            }),
    {
        let key = job.to_owned();
        let ghost before = self.data.health@;
        let n = self.data.health.len();
        let mut i = n;
        while i > 0
            invariant
                i <= n,
                n == self.data.health@.len(),
                self.data.health@ == before,
                forall|k: int| i <= k < n ==> self.data.health@[k].0@ != job@,
            ensures
                i <= n,
                self.data.health@ == before,
                forall|k: int| i <= k < n ==> self.data.health@[k].0@ != job@,
                i > 0 ==> self.data.health@[i - 1].0@ == job@,
            decreases i,
        {
            if str_eq(self.data.health[i - 1].0.as_str(), job) {
                break;
            }
            i = i - 1;
        }
        if i > 0 {
            proof {
                lemma_health_replace(before, i - 1, job@, (key, now));
            }
            self.data.health.set(i - 1, (key, now));
        } else {
            self.data.health.push((key, now));
            assert(self.data.health@.drop_last() =~= before);
        }
        self.dirty = true;
    }

    /// Records that `job` succeeded now.
    pub fn touch_ok(&mut self, job: &str)
        ensures
            exists|now: u64|
                final(self)@ == (StoreView {
                    data: StateView {
                        health: #[trigger] old(self)@.data.health.insert(job@, now),
                        ..old(self)@.data
                    },
                    dirty: true,
                    ..old(self)@
                }),
    {
        let now = unix_now();
        self.touch_ok_at(job, now);
    }

    /// Records a failure message (its first 500 characters) at `now`.
    pub fn touch_error_at(&mut self, message: &str, now: u64)
        ensures
            final(self)@ == (StoreView {
                data: StateView {
                    last_error: Some(stored_error(message@, now)),
                    ..old(self)@.data
                },
                dirty: true,
                ..old(self)@
            }),
    {
        self.data.last_error = Some(
            ErrorRecord { message: take_chars(message, MAX_ERROR_CHARS), at: now },
        );
        self.dirty = true;
    }

    /// Records a failure message with the current time.
    pub fn touch_error(&mut self, message: &str)
        ensures
            exists|now: u64|
                final(self)@ == (StoreView {
                    data: StateView {
                        last_error: Some(#[trigger] stored_error(message@, now)),
                        ..old(self)@.data
                    },
                    dirty: true,
                    ..old(self)@
                }),
    {
        let now = unix_now();
        self.touch_error_at(message, now);
    }

    /// The most recent failure.
    pub fn last_error(&self) -> (r: Option<&ErrorRecord>)
        ensures
            match r {
                Some(e) => self@.data.last_error == Some(e@),
                None => self@.data.last_error is None,
            },
    {
        match &self.data.last_error {
            Some(e) => Some(e),
            None => None,
        }
    }
}

proof fn lemma_health_last(h: Seq<(String, u64)>, i: int, job: Seq<char>)
    requires
        0 < i <= h.len(),
        h[i - 1].0@ == job,
        forall|k: int| i <= k < h.len() ==> h[k].0@ != job,
    ensures
        health_map(h).contains_key(job),
        health_map(h)[job] == h[i - 1].1,
    decreases h.len(),
{
    if h.len() > i {
        lemma_health_last(h.drop_last(), i, job);
    } else {
        assert(h.last() == h[i - 1]);
    }
}

proof fn lemma_health_replace(h: Seq<(String, u64)>, k: int, job: Seq<char>, e: (String, u64))
    requires
        0 <= k < h.len(),
        h[k].0@ == job,
        e.0@ == job,
        forall|j: int| k < j < h.len() ==> h[j].0@ != job,
    ensures
        health_map(h.update(k, e)) == health_map(h).insert(job, e.1),
    decreases h.len(),
{
    let u = h.update(k, e);
    if k == h.len() - 1 {
        assert(u.drop_last() =~= h.drop_last());
        assert(health_map(u) =~= health_map(h).insert(job, e.1));
    } else {
        lemma_health_replace(h.drop_last(), k, job, e);
        assert(u.drop_last() =~= h.drop_last().update(k, e));
        assert(h.last().0@ != job);
        assert(health_map(u) =~= health_map(h).insert(job, e.1));
    }
}

proof fn lemma_health_absent(h: Seq<(String, u64)>, job: Seq<char>)
    requires
        forall|k: int| 0 <= k < h.len() ==> h[k].0@ != job,
    ensures
        !health_map(h).contains_key(job),
    decreases h.len(),
{
    if h.len() > 0 {
        lemma_health_absent(h.drop_last(), job);
    }
}

} // verus!

verus! {

proof fn lemma_increasing_keys(keys: Seq<i64>)
    requires
        vstd::std_specs::btree::increasing_seq(keys),
    ensures
        forall|i: int, j: int| 0 <= i < j < keys.len() ==> keys[i] < keys[j],
{
    assert(vstd::laws_cmp::obeys_cmp::<i64>());
    assert forall|i: int, j: int| 0 <= i < j < keys.len() implies keys[i] < keys[j] by {
        assert(keys[i].cmp_spec(&keys[j]) is Less);
    }
}

/// `s` lists the entries of `m` once each, in increasing key order.
pub open spec fn in_key_order<V>(s: Seq<(i64, V)>, m: Map<i64, V>) -> bool {
    &&& s.len() == m.len()
    &&& forall|i: int, j: int| 0 <= i < j < s.len() ==> s[i].0 < s[j].0
    &&& forall|i: int| 0 <= i < s.len() ==> m.contains_key(#[trigger] s[i].0) && m[s[i].0] == s[i].1
    &&& forall|k: i64| #[trigger] m.contains_key(k) ==> exists|i: int| 0 <= i < s.len() && s[i].0 == k
}

impl StateStore {
    /// The stored kwork snapshots with their ids, in increasing id order.
    pub fn kwork_entries(&self) -> (r: Vec<(i64, &KworkSnapshot)>)
        ensures
            in_key_order(r@.map_values(|e: (i64, &KworkSnapshot)| (e.0, e.1@)), self@.data.kworks),
    {
        let mut out: Vec<(i64, &KworkSnapshot)> = Vec::new();
        let iter = self.data.kworks.iter();
        let ghost rem = iter.remaining();
        let ghost m = self.data.kworks@;
        let ghost keys = rem.map_values(|kv: (&i64, &KworkSnapshot)| *kv.0);
        assert(vstd::std_specs::btree::increasing_seq(keys));
        for (k, v) in it: iter
            invariant
                it.seq() == rem,
                out@.len() == it.index(),
                forall|i: int| 0 <= i < it.index() ==> out@[i].0 == *rem[i].0 && out@[i].1 == rem[i].1,
        {
            out.push((*k, v));
        }
        assert(out@.len() == rem.len());
        proof {
            let s = out@.map_values(|e: (i64, &KworkSnapshot)| (e.0, e.1@));
            let vm = self@.data.kworks;
            assert(vm == vmap(m));
            lemma_increasing_keys(keys);
            assert forall|i: int, j: int| 0 <= i < j < s.len() implies s[i].0 < s[j].0 by {
                assert(keys[i] == s[i].0);
                assert(keys[j] == s[j].0);
            }
            assert forall|i: int| 0 <= i < s.len() implies vm.contains_key(#[trigger] s[i].0)
                && vm[s[i].0] == s[i].1 by {
                assert(m.contains_key(*rem[i].0) && m[*rem[i].0] == *rem[i].1);
            }
            assert forall|k: i64| #[trigger] vm.contains_key(k) implies exists|i: int|
                0 <= i < s.len() && s[i].0 == k by {
                assert(m.contains_key(k));
                assert(rem.contains((&k, &m[k])));
                let i = choose|i: int| 0 <= i < rem.len() && rem[i] == (&k, &m[k]);
                assert(s[i].0 == k);
            }
            assert(m.dom().finite());
            assert(vm.dom() =~= m.dom());
        }
        out
    }
}

} // verus!

verus! {

impl StateStore {
    /// The stored kwork snapshots, in increasing id order.
    pub fn kworks(&self) -> (r: Vec<&KworkSnapshot>)
        ensures
            exists|s: Seq<(i64, KworkView)>|
                #[trigger] in_key_order(s, self@.data.kworks) && r@.map_values(
                    |k: &KworkSnapshot| k@,
                ) == s.map_values(|e: (i64, KworkView)| e.1),
    {
        let entries = self.kwork_entries();
        let ghost s = entries@.map_values(|e: (i64, &KworkSnapshot)| (e.0, e.1@));
        let mut out: Vec<&KworkSnapshot> = Vec::new();
        let n = entries.len();
        for i in 0..n
            invariant
                n == entries@.len(),
                out@.len() == i,
                forall|j: int| 0 <= j < i ==> out@[j] == entries@[j].1,
        {
            out.push(entries[i].1);
        }
        assert(out@.map_values(|k: &KworkSnapshot| k@) =~= s.map_values(
            |e: (i64, KworkView)| e.1,
        ));
        out
    }

    /// Forgets the kworks whose ids are not listed; a change only when some
    /// were dropped.
    pub fn retain_kworks(&mut self, active_ids: &[i64])
        ensures
            final(self)@ == (StoreView {
                data: StateView {
                    kworks: old(self)@.data.kworks.restrict(
                        Set::new(|k: i64| active_ids@.contains(k)),
                    ),
                    ..old(self)@.data
                },
                dirty: old(self)@.dirty || old(self)@.data.kworks.restrict(
                    Set::new(|k: i64| active_ids@.contains(k)),
                ).len() != old(self)@.data.kworks.len(),
                ..old(self)@
            }),
    {
        let ghost m = self.data.kworks@;
        let mut kept: BTreeMap<i64, KworkSnapshot> = BTreeMap::new();
        let iter = self.data.kworks.iter();
        let ghost rem = iter.remaining();
        assert(forall|i: int|
            0 <= i < rem.len() ==> m.contains_key(*rem[i].0) && m[*rem[i].0] == *rem[i].1);
        for (k, v) in it: iter
            invariant
                it.seq() == rem,
                m == self.data.kworks@,
                forall|i: int|
                    0 <= i < rem.len() ==> m.contains_key(*rem[i].0) && m[*rem[i].0] == *rem[i].1,
                forall|x: i64| #[trigger] kept@.contains_key(x) <==> (active_ids@.contains(x)
                    && exists|i: int| 0 <= i < it.index() && *rem[i].0 == x),
                forall|x: i64| #[trigger] kept@.contains_key(x) ==> kept@[x]@ == m[x]@,
        {
            let ghost idx = it.index();
            assert(rem[idx] == (k, v));
            assert(m.contains_key(*k) && m[*k] == *v);
            if slice_contains(active_ids, *k) {
                kept.insert(*k, v.copy());
                proof {
                    assert forall|x: i64| #[trigger] kept@.contains_key(x) <==> (
                    active_ids@.contains(x) && exists|i: int| 0 <= i < idx + 1 && *rem[i].0 == x) by {
                        if x == *k {
                            assert(*rem[idx].0 == x);
                        }
                    }
                }
            } else {
                proof {
                    assert forall|x: i64| #[trigger] kept@.contains_key(x) <==> (
                    active_ids@.contains(x) && exists|i: int| 0 <= i < idx + 1 && *rem[i].0 == x) by {
                        if active_ids@.contains(x) && (exists|i: int|
                            0 <= i < idx + 1 && *rem[i].0 == x) {
                            let i = choose|i: int| 0 <= i < idx + 1 && *rem[i].0 == x;
                            if i == idx {
                                assert(x == *k);
                            }
                        }
                    }
                }
            }
        }
        let ghost target = vmap(m).restrict(Set::new(|k: i64| active_ids@.contains(k)));
        proof {
            assert forall|x: i64| #[trigger] kept@.contains_key(x) <==> target.contains_key(x) by {
                if m.contains_key(x) {
                    assert(rem.contains((&x, &m[x])));
                }
            }
            assert(vmap(kept@) =~= target);
        }
        let before = self.data.kworks.len();
        let after = kept.len();
        proof {
            assert(m.dom().finite());
            assert(kept@.dom().finite());
            lemma_vmap_finite(m);
            lemma_vmap_finite(kept@);
            assert(target.len() == vmap(kept@).len());
        }
        self.data.kworks = kept;
        self.dirty = self.dirty || after != before;
    }
}

/// `s.contains(&x)`.
fn slice_contains(s: &[i64], x: i64) -> (r: bool)
    ensures
        r == s@.contains(x),
{
    let n = s.len();
    for i in 0..n
        invariant
            n == s@.len(),
            forall|j: int| 0 <= j < i ==> s@[j] != x,
    {
        if s[i] == x {
            assert(s@[i as int] == x);
            return true;
        }
    }
    false
}

} // verus!

verus! {

/// A fingerprint with its value cut to the byte bound.
pub open spec fn trunc_fp(f: FingerprintView) -> FingerprintView {
    FingerprintView {
        value: truncate_bytes(f.value, MAX_FINGERPRINT_BYTES as nat),
        updated_at: f.updated_at,
    }
}

/// A snapshot with its name cut to the byte bound.
pub open spec fn trunc_kw(k: KworkView) -> KworkView {
    KworkView { name: truncate_bytes(k.name, MAX_KWORK_NAME_BYTES as nat), ..k }
}

/// A loaded document brought within its bounds: strings cut, then each map
/// pruned oldest-first to its cap.
pub open spec fn normalized(d: StateView) -> StateView {
    StateView {
        dialogs: pruned::<Fingerprint>(
            d.dialogs.map_values(|f: FingerprintView| trunc_fp(f)),
            MAX_DIALOGS as nat,
        ),
        kworks: pruned::<KworkSnapshot>(
            d.kworks.map_values(|k: KworkView| trunc_kw(k)),
            MAX_KWORKS as nat,
        ),
        orders: pruned::<Fingerprint>(
            d.orders.map_values(|f: FingerprintView| trunc_fp(f)),
            MAX_ORDERS as nat,
        ),
        last_error: match d.last_error {
            Some(e) => Some(stored_error(e.message, e.at)),
            None => None,
        },
        ..d
    }
}

/// Some stored string exceeds its bound.
pub open spec fn over_bounds(d: StateView) -> bool {
    ||| exists|k: i64|
        #[trigger] d.dialogs.contains_key(k) && encode_utf8(d.dialogs[k].value).len()
            > MAX_FINGERPRINT_BYTES
    ||| exists|k: i64|
        #[trigger] d.orders.contains_key(k) && encode_utf8(d.orders[k].value).len()
            > MAX_FINGERPRINT_BYTES
    ||| exists|k: i64|
        #[trigger] d.kworks.contains_key(k) && encode_utf8(d.kworks[k].name).len()
            > MAX_KWORK_NAME_BYTES
    ||| (d.last_error matches Some(e) && e.message.len() > MAX_ERROR_CHARS)
}

/// Normalizing `d` changes it: a string was cut or a map was pruned.
pub open spec fn normalize_changes(d: StateView) -> bool {
    ||| over_bounds(d)
    ||| normalized(d).dialogs.len() != d.dialogs.len()
    ||| normalized(d).kworks.len() != d.kworks.len()
    ||| normalized(d).orders.len() != d.orders.len()
}

fn truncate_fingerprints(m: &BTreeMap<i64, Fingerprint>) -> (r: (BTreeMap<i64, Fingerprint>, bool))
    ensures
        vmap(r.0@) == vmap(m@).map_values(|f: FingerprintView| trunc_fp(f)),
        r.1 == exists|k: i64|
            #[trigger] m@.contains_key(k) && encode_utf8(m@[k].value@).len()
                > MAX_FINGERPRINT_BYTES,
{
    let mut out: BTreeMap<i64, Fingerprint> = BTreeMap::new();
    let mut changed = false;
    let iter = m.iter();
    let ghost rem = iter.remaining();
    assert(forall|i: int|
        0 <= i < rem.len() ==> m@.contains_key(*rem[i].0) && m@[*rem[i].0] == *rem[i].1);
    for (k, v) in it: iter
        invariant
            it.seq() == rem,
            forall|i: int|
                0 <= i < rem.len() ==> m@.contains_key(*rem[i].0) && m@[*rem[i].0] == *rem[i].1,
            forall|x: i64| #[trigger] out@.contains_key(x) <==> exists|i: int|
                0 <= i < it.index() && *rem[i].0 == x,
            forall|x: i64| #[trigger] out@.contains_key(x) ==> out@[x]@ == trunc_fp(m@[x]@),
            changed == exists|i: int|
                0 <= i < it.index() && encode_utf8((*rem[i].1).value@).len()
                    > MAX_FINGERPRINT_BYTES,
    {
        let ghost idx = it.index();
        assert(rem[idx] == (k, v));
        let too_long = exceeds_bytes(v.value.as_str(), MAX_FINGERPRINT_BYTES);
        out.insert(
            *k,
            Fingerprint {
                value: truncate(v.value.clone(), MAX_FINGERPRINT_BYTES),
                updated_at: v.updated_at,
            },
        );
        changed = changed || too_long;
        proof {
            assert forall|x: i64| #[trigger] out@.contains_key(x) <==> exists|i: int|
                0 <= i < idx + 1 && *rem[i].0 == x by {
                if x == *k {
                    assert(*rem[idx].0 == x);
                }
                if exists|i: int| 0 <= i < idx + 1 && *rem[i].0 == x {
                    let i = choose|i: int| 0 <= i < idx + 1 && *rem[i].0 == x;
                    if i == idx {
                        assert(x == *k);
                    }
                }
            }
            assert(too_long == (encode_utf8((*rem[idx].1).value@).len() > MAX_FINGERPRINT_BYTES));
            if exists|i: int| 0 <= i < idx + 1 && encode_utf8((*rem[i].1).value@).len() > MAX_FINGERPRINT_BYTES {
                let i = choose|i: int|
                    0 <= i < idx + 1 && encode_utf8((*rem[i].1).value@).len() > MAX_FINGERPRINT_BYTES;
                if i < idx {
                    assert(0 <= i < idx && encode_utf8((*rem[i].1).value@).len() > MAX_FINGERPRINT_BYTES);
                }
            }
            if too_long {
                assert(0 <= idx < idx + 1 && encode_utf8((*rem[idx].1).value@).len()
                    > MAX_FINGERPRINT_BYTES);
            }
        }
    }
    proof {
        assert forall|x: i64| #[trigger] out@.contains_key(x) <==> m@.contains_key(x) by {
            if m@.contains_key(x) {
                assert(rem.contains((&x, &m@[x])));
            }
        }
        assert(vmap(out@) =~= vmap(m@).map_values(|f: FingerprintView| trunc_fp(f)));
        if changed {
            let i = choose|i: int|
                0 <= i < rem.len() && encode_utf8((*rem[i].1).value@).len() > MAX_FINGERPRINT_BYTES;
            assert(m@.contains_key(*rem[i].0));
        }
        if exists|k: i64|
            #[trigger] m@.contains_key(k) && encode_utf8(m@[k].value@).len() > MAX_FINGERPRINT_BYTES {
            let k = choose|k: i64|
                #[trigger] m@.contains_key(k) && encode_utf8(m@[k].value@).len()
                    > MAX_FINGERPRINT_BYTES;
            assert(rem.contains((&k, &m@[k])));
            let i = choose|i: int| 0 <= i < rem.len() && rem[i] == (&k, &m@[k]);
            assert(encode_utf8((*rem[i].1).value@).len() > MAX_FINGERPRINT_BYTES);
        }
    }
    (out, changed)
}

fn truncate_names(m: &BTreeMap<i64, KworkSnapshot>) -> (r: (BTreeMap<i64, KworkSnapshot>, bool))
    ensures
        vmap(r.0@) == vmap(m@).map_values(|k: KworkView| trunc_kw(k)),
        r.1 == exists|k: i64|
            #[trigger] m@.contains_key(k) && encode_utf8(m@[k].name@).len() > MAX_KWORK_NAME_BYTES,
{
    let mut out: BTreeMap<i64, KworkSnapshot> = BTreeMap::new();
    let mut changed = false;
    let iter = m.iter();
    let ghost rem = iter.remaining();
    assert(forall|i: int|
        0 <= i < rem.len() ==> m@.contains_key(*rem[i].0) && m@[*rem[i].0] == *rem[i].1);
    for (k, v) in it: iter
        invariant
            it.seq() == rem,
            forall|i: int|
                0 <= i < rem.len() ==> m@.contains_key(*rem[i].0) && m@[*rem[i].0] == *rem[i].1,
            forall|x: i64| #[trigger] out@.contains_key(x) <==> exists|i: int|
                0 <= i < it.index() && *rem[i].0 == x,
            forall|x: i64| #[trigger] out@.contains_key(x) ==> out@[x]@ == trunc_kw(m@[x]@),
            changed == exists|i: int|
                0 <= i < it.index() && encode_utf8((*rem[i].1).name@).len() > MAX_KWORK_NAME_BYTES,
    {
        let ghost idx = it.index();
        assert(rem[idx] == (k, v));
        let too_long = exceeds_bytes(v.name.as_str(), MAX_KWORK_NAME_BYTES);
        out.insert(
            *k,
            KworkSnapshot {
                name: truncate(v.name.clone(), MAX_KWORK_NAME_BYTES),
                views: v.views,
                orders: v.orders,
                updated_at: v.updated_at,
            },
        );
        changed = changed || too_long;
        proof {
            assert forall|x: i64| #[trigger] out@.contains_key(x) <==> exists|i: int|
                0 <= i < idx + 1 && *rem[i].0 == x by {
                if x == *k {
                    assert(*rem[idx].0 == x);
                }
                if exists|i: int| 0 <= i < idx + 1 && *rem[i].0 == x {
                    let i = choose|i: int| 0 <= i < idx + 1 && *rem[i].0 == x;
                    if i == idx {
                        assert(x == *k);
                    }
                }
            }
            assert(too_long == (encode_utf8((*rem[idx].1).name@).len() > MAX_KWORK_NAME_BYTES));
            if exists|i: int| 0 <= i < idx + 1 && encode_utf8((*rem[i].1).name@).len() > MAX_KWORK_NAME_BYTES {
                let i = choose|i: int|
                    0 <= i < idx + 1 && encode_utf8((*rem[i].1).name@).len() > MAX_KWORK_NAME_BYTES;
                if i < idx {
                    assert(0 <= i < idx && encode_utf8((*rem[i].1).name@).len() > MAX_KWORK_NAME_BYTES);
                }
            }
            if too_long {
                assert(0 <= idx < idx + 1 && encode_utf8((*rem[idx].1).name@).len()
                    > MAX_KWORK_NAME_BYTES);
            }
        }
    }
    proof {
        assert forall|x: i64| #[trigger] out@.contains_key(x) <==> m@.contains_key(x) by {
            if m@.contains_key(x) {
                assert(rem.contains((&x, &m@[x])));
            }
        }
        assert(vmap(out@) =~= vmap(m@).map_values(|k: KworkView| trunc_kw(k)));
        if changed {
            let i = choose|i: int|
                0 <= i < rem.len() && encode_utf8((*rem[i].1).name@).len() > MAX_KWORK_NAME_BYTES;
            assert(m@.contains_key(*rem[i].0));
        }
        if exists|k: i64|
            #[trigger] m@.contains_key(k) && encode_utf8(m@[k].name@).len() > MAX_KWORK_NAME_BYTES {
            let k = choose|k: i64|
                #[trigger] m@.contains_key(k) && encode_utf8(m@[k].name@).len()
                    > MAX_KWORK_NAME_BYTES;
            assert(rem.contains((&k, &m@[k])));
            let i = choose|i: int| 0 <= i < rem.len() && rem[i] == (&k, &m@[k]);
            assert(encode_utf8((*rem[i].1).name@).len() > MAX_KWORK_NAME_BYTES);
        }
    }
    (out, changed)
}

/// Brings a loaded document within its bounds; true when that changed it.
fn normalize(data: &mut StateData) -> (changed: bool)
    ensures
        final(data)@ == normalized(old(data)@),
        changed == normalize_changes(old(data)@),
{
    let before_dialogs = data.dialogs.len();
    let before_kworks = data.kworks.len();
    let before_orders = data.orders.len();
    let (mut dialogs, c1) = truncate_fingerprints(&data.dialogs);
    let (mut orders, c2) = truncate_fingerprints(&data.orders);
    let (mut kworks, c3) = truncate_names(&data.kworks);
    let mut c4 = false;
    let mut last_error: Option<ErrorRecord> = None;
    match &data.last_error {
        Some(e) => {
            let n = char_vec(e.message.as_str()).len();
            c4 = n > MAX_ERROR_CHARS;
            last_error = Some(
                ErrorRecord { message: take_chars(e.message.as_str(), MAX_ERROR_CHARS), at: e.at },
            );
        },
        None => {},
    }
    prune_oldest(&mut dialogs, MAX_DIALOGS);
    prune_oldest(&mut kworks, MAX_KWORKS);
    prune_oldest(&mut orders, MAX_ORDERS);
    let after_dialogs = dialogs.len();
    let after_kworks = kworks.len();
    let after_orders = orders.len();
    proof {
        lemma_vmap_finite(data.dialogs@);
        lemma_vmap_finite(data.kworks@);
        lemma_vmap_finite(data.orders@);
        lemma_vmap_finite(dialogs@);
        lemma_vmap_finite(kworks@);
        lemma_vmap_finite(orders@);
    }
    data.dialogs = dialogs;
    data.kworks = kworks;
    data.orders = orders;
    data.last_error = last_error;
    c1 || c2 || c3 || c4 || before_dialogs != after_dialogs || before_kworks != after_kworks
        || before_orders != after_orders
}

/// The store that loading yields: the stored document (or an empty one),
/// refused when its version differs, otherwise normalized.
pub open spec fn load_spec(path: Seq<char>, stored: Option<StateView>) -> Result<StoreView, Seq<char>> {
    let d = match stored {
        Some(d) => d,
        None => empty_state(),
    };
    if d.version != STATE_VERSION {
        Err("unsupported state version "@ + dec(d.version as int) + " (expected 1)"@)
    } else {
        Ok(StoreView { path, data: normalized(d), dirty: normalize_changes(d) })
    }
}

pub open spec fn data_view(o: Option<StateData>) -> Option<StateView> {
    match o {
        Some(d) => Some(d@),
        None => None,
    }
}

impl StateStore {
    /// Opens the state for `path` from what the file held (`None` when there
    /// was no file): a foreign version is refused; otherwise strings are cut
    /// to their bounds and maps pruned to their caps, and the store is marked
    /// changed when that altered anything.
    pub fn load(path: String, stored: Option<StateData>) -> (r: Result<StateStore, String>)
        ensures
            match r {
                Ok(s) => load_spec(path@, data_view(stored)) == Ok::<StoreView, Seq<char>>(s@),
                Err(e) => load_spec(path@, data_view(stored)) == Err::<StoreView, Seq<char>>(e@),
            },
    {
        let mut data = match stored {
            Some(d) => d,
            None => StateData::default(),
        };
        if data.version != STATE_VERSION {
            let mut e = "unsupported state version ".to_owned();
            push_int(&mut e, data.version as i128);
            e.append(" (expected 1)");
            return Err(e);
        }
        let dirty = normalize(&mut data);
        Ok(StateStore { path, data, dirty })
    }
}

} // verus!

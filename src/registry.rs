//! The coordinator's registry of known workers.
//!
//! Each record is keyed by the worker's MAC. A worker whose MAC is in the
//! persistent table is known from startup and is never dropped, only marked
//! inactive; any other worker is added when it registers and dropped when it
//! cannot be reached.
use vstd::prelude::*;
use crate::command::{command_option_view, CommandView, MicroCommand, MicroTimer};
use crate::text::same_text;

verus! {

/// An IP address, as its octets or 16-bit groups.
#[derive(Clone, Copy, Debug, PartialEq, Eq)]
pub enum IpAddress {
    V4([u8; 4]),
    V6([u16; 8]),
}

/// Where a worker listens for directives.
#[derive(Clone, Copy, Debug, PartialEq, Eq)]
pub struct Endpoint {
    pub ip: IpAddress,
    pub port: u16,
}

pub open spec fn string_option_view(s: Option<String>) -> Option<Seq<char>> {
    match s {
        Some(s) => Some(s@),
        None => None,
    }
}

// ---------------------------------------------------------------------------
// The persistent table

/// phf's compile-time map, carried as an opaque value; what it holds is
/// known only through `phf_pairs`.
#[verifier::external_type_specification]
#[verifier::external_body]
#[verifier::reject_recursive_types(K)]
#[verifier::reject_recursive_types(V)]
pub struct ExPhfMap<K: 'static, V: 'static>(phf::Map<K, V>);

/// The MAC / alias pairs that a compile-time map holds, in the map's fixed order.
pub uninterp spec fn phf_pairs(m: phf::Map<&'static str, &'static str>) -> Seq<(Seq<char>, Seq<char>)>;

/// Relies on `phf::Map::entries`, which yields every key / value pair of the
/// map in an arbitrary but fixed order.
#[verifier::external_body]
fn phf_entries(m: &phf::Map<&'static str, &'static str>) -> (r: Vec<(String, String)>)
    ensures
        r@.map_values(|e: (String, String)| (e.0@, e.1@)) == phf_pairs(*m),
{
    m.entries().map(|(mac, alias)| (mac.to_string(), alias.to_string())).collect()
}

/// What `phf::Map::get` answers for `key` on the map `m`, as characters.
pub uninterp spec fn phf_lookup(m: phf::Map<&'static str, &'static str>, key: Seq<char>) -> Option<
    Seq<char>,
>;

/// Relies on `phf::Map::get`. On a map with at least one entry it cannot
/// divide by zero, and a value it returns comes from an entry whose key
/// equals `key`.
#[verifier::external_body]
fn phf_get(m: &phf::Map<&'static str, &'static str>, key: &str) -> (r: Option<String>)
    requires
        phf_pairs(*m).len() > 0,
    ensures
        string_option_view(r) == phf_lookup(*m, key@),
        r matches Some(a) ==> exists|i: int|
            0 <= i < phf_pairs(*m).len() && phf_pairs(*m)[i] == (key@, a@),
{
    m.get(key).map(|alias| alias.to_string())
}

/// Whether `get` on the map `m` finds every key of `m` with its own value.
pub open spec fn answers_own_keys(m: phf::Map<&'static str, &'static str>) -> bool {
    forall|i: int|
        0 <= i < phf_pairs(m).len() ==> phf_lookup(m, (#[trigger] phf_pairs(m)[i]).0) == Some(
            phf_pairs(m)[i].1,
        )
}

/// The table of persistent workers, a compile-time map from MAC to alias in
/// which each MAC appears at most once.
pub struct PersistentTable {
    map: &'static phf::Map<&'static str, &'static str>,
    count: usize,
}

pub open spec fn table_has(t: Seq<(Seq<char>, Seq<char>)>, mac: Seq<char>) -> bool {
    exists|i: int| 0 <= i < t.len() && #[trigger] t[i].0 == mac
}

/// The alias that the table `t` gives to `mac`.
pub open spec fn alias_of(t: Seq<(Seq<char>, Seq<char>)>, mac: Seq<char>) -> Option<Seq<char>> {
    if table_has(t, mac) {
        Some(t[choose|i: int| 0 <= i < t.len() && #[trigger] t[i].0 == mac].1)
    } else {
        None
    }
}

pub open spec fn table_keys_unique(t: Seq<(Seq<char>, Seq<char>)>) -> bool {
    forall|i: int, j: int|
        0 <= i < t.len() && 0 <= j < t.len() && i != j ==> #[trigger] t[i].0 != #[trigger] t[j].0
}

impl View for PersistentTable {
    type V = Seq<(Seq<char>, Seq<char>)>;

    closed spec fn view(&self) -> Seq<(Seq<char>, Seq<char>)> {
        phf_pairs(*self.map)
    }
}

proof fn lemma_alias_at(t: Seq<(Seq<char>, Seq<char>)>, i: int)
    requires
        table_keys_unique(t),
        0 <= i < t.len(),
    ensures
        table_has(t, t[i].0),
        alias_of(t, t[i].0) == Some(t[i].1),
{
    assert(table_has(t, t[i].0));
}

impl PersistentTable {
    pub open spec fn wf(&self) -> bool {
        &&& table_keys_unique(self@)
        &&& self.answers_lookups()
    }

    /// `get` on the underlying map finds each of its keys with its own
    /// alias, and the table knows how many pairs it has.
    pub closed spec fn answers_lookups(&self) -> bool {
        &&& answers_own_keys(*self.map)
        &&& self.count == self@.len()
    }

    /// Whether no two of the pairs `entries` share a MAC.
    fn keys_unique(entries: &Vec<(String, String)>) -> (r: bool)
        ensures
            r == table_keys_unique(entries@.map_values(|e: (String, String)| (e.0@, e.1@))),
    {
        let ghost v = entries@.map_values(|e: (String, String)| (e.0@, e.1@));
        let n = entries.len();
        let mut i: usize = 0;
        while i < n
            invariant
                n == entries@.len(),
                v == entries@.map_values(|e: (String, String)| (e.0@, e.1@)),
                i <= n,
                forall|a: int, b: int| 0 <= a < i && 0 <= b < n && a != b ==> #[trigger] v[a].0 != #[trigger] v[b].0,
            decreases n - i,
        {
            let mut j: usize = 0;
            while j < n
                invariant
                    n == entries@.len(),
                    v == entries@.map_values(|e: (String, String)| (e.0@, e.1@)),
                    i < n,
                    j <= n,
                    forall|a: int, b: int| 0 <= a < i && 0 <= b < n && a != b ==> #[trigger] v[a].0 != #[trigger] v[b].0,
                    forall|b: int| 0 <= b < j && b != i ==> v[i as int].0 != #[trigger] v[b].0,
                decreases n - j,
            {
                if j != i && entries[i].0 == entries[j].0 {
                    assert(v[i as int].0 == v[j as int].0);
                    return false;
                }
                j = j + 1;
            }
            i = i + 1;
        }
        true
    }

    /// The table that the compile-time map `m` holds, in the map's order;
    /// `None` when two of its pairs share a MAC, or when `get` does not find
    /// some key of `m` with its own alias.
    pub fn from_map(m: &'static phf::Map<&'static str, &'static str>) -> (r: Option<
        PersistentTable,
    >)
        ensures
            r matches Some(t) ==> t.wf() && t@ == phf_pairs(*m),
            r is None <==> !(table_keys_unique(phf_pairs(*m)) && answers_own_keys(*m)),
    {
        let pairs = phf_entries(m);
        let ghost v = phf_pairs(*m);
        if !PersistentTable::keys_unique(&pairs) {
            return None;
        }
        let n = pairs.len();
        let mut i: usize = 0;
        while i < n
            invariant
                pairs@.map_values(|e: (String, String)| (e.0@, e.1@)) == v,
                v == phf_pairs(*m),
                n == v.len(),
                i <= n,
                forall|j: int| 0 <= j < i ==> phf_lookup(*m, (#[trigger] v[j]).0) == Some(v[j].1),
            decreases n - i,
        {
            assert(v[i as int] == (pairs@[i as int].0@, pairs@[i as int].1@));
            match phf_get(m, pairs[i].0.as_str()) {
                Some(a) => {
                    if a != pairs[i].1 {
                        return None;
                    }
                },
                None => {
                    return None;
                },
            }
            i = i + 1;
        }
        Some(PersistentTable { map: m, count: n })
    }

    /// The alias of `mac`, if the table holds it.
    pub fn lookup(&self, mac: &str) -> (r: Option<String>)
        requires
            self.wf(),
        ensures
            string_option_view(r) == alias_of(self@, mac@),
    {
        let ghost t = self@;
        if self.count == 0 {
            return None;
        }
        let r = phf_get(self.map, mac);
        proof {
            if r is Some {
                let a = r->0;
                let i = choose|i: int| 0 <= i < t.len() && t[i] == (mac@, a@);
                lemma_alias_at(t, i);
            } else if table_has(t, mac@) {
                let i = choose|i: int| 0 <= i < t.len() && #[trigger] t[i].0 == mac@;
                assert(phf_lookup(*self.map, t[i].0) == Some(t[i].1));
            }
        }
        r
    }

    /// The pairs of the table, in order.
    pub fn entries(&self) -> (r: Vec<(String, String)>)
        ensures
            r@.map_values(|e: (String, String)| (e.0@, e.1@)) == self@,
    {
        phf_entries(self.map)
    }
}

// ---------------------------------------------------------------------------
// Worker records

/// What the coordinator knows of one worker.
#[derive(Clone, Debug, PartialEq, Eq)]
pub struct MicroWorker {
    pub mac_address: String,
    pub alias: Option<String>,
    pub ip_address: Option<Endpoint>,
    pub active: bool,
    pub persistent: bool,
    pub current_cmd: Option<MicroCommand>,
}

/// The mathematical value of a [`MicroWorker`].
pub struct WorkerView {
    pub mac: Seq<char>,
    pub alias: Option<Seq<char>>,
    pub address: Option<Endpoint>,
    pub active: bool,
    pub persistent: bool,
    pub current: Option<CommandView>,
}

impl View for MicroWorker {
    type V = WorkerView;

    open spec fn view(&self) -> WorkerView {
        WorkerView {
            mac: self.mac_address@,
            alias: string_option_view(self.alias),
            address: self.ip_address,
            active: self.active,
            persistent: self.persistent,
            current: command_option_view(self.current_cmd),
        }
    }
}

/// The name under which a worker is shown: its alias, else its MAC.
pub open spec fn display_name(w: WorkerView) -> Seq<char> {
    match w.alias {
        Some(a) => a,
        None => w.mac,
    }
}

impl MicroWorker {
    /// The alias that the persistent table gives to `mac_address`.
    pub fn get_alias(table: &PersistentTable, mac_address: &str) -> (r: Option<String>)
        requires
            table.wf(),
        ensures
            string_option_view(r) == alias_of(table@, mac_address@),
    {
        table.lookup(mac_address)
    }

    /// A record for a worker that has just announced itself: active, with no
    /// directive yet, persistent exactly when the table holds its MAC, and
    /// with the alias the table gives it.
    pub fn new(table: &PersistentTable, mac_address: String, ip_address: Option<Endpoint>) -> (r:
        Self)
        requires
            table.wf(),
        ensures
            r@ == (WorkerView {
                mac: mac_address@,
                alias: alias_of(table@, mac_address@),
                address: ip_address,
                active: true,
                persistent: table_has(table@, mac_address@),
                current: None,
            }),
    {
        let alias = MicroWorker::get_alias(table, mac_address.as_str());
        let persistent = alias.is_some();
        MicroWorker {
            alias,
            mac_address,
            ip_address,
            active: true,
            persistent,
            current_cmd: None,
        }
    }

    /// The alias when there is one, else the MAC.
    pub fn name(&self) -> (r: &str)
        ensures
            r@ == display_name(self@),
    {
        match &self.alias {
            Some(a) => a.as_str(),
            None => self.mac_address.as_str(),
        }
    }

    /// A copy of this record.
    pub fn duplicate(&self) -> (r: MicroWorker)
        ensures
            r@ == self@,
    {
        MicroWorker {
            mac_address: self.mac_address.clone(),
            alias: match &self.alias {
                Some(a) => Some(a.clone()),
                None => None,
            },
            ip_address: self.ip_address,
            active: self.active,
            persistent: self.persistent,
            current_cmd: match &self.current_cmd {
                Some(c) => Some(c.duplicate()),
                None => None,
            },
        }
    }
}

// ---------------------------------------------------------------------------
// The registry

pub open spec fn has_mac(ws: Seq<WorkerView>, mac: Seq<char>) -> bool {
    exists|i: int| 0 <= i < ws.len() && #[trigger] ws[i].mac == mac
}

/// The position of the record of `mac` (meaningful when there is one).
pub open spec fn index_of(ws: Seq<WorkerView>, mac: Seq<char>) -> int {
    choose|i: int| 0 <= i < ws.len() && #[trigger] ws[i].mac == mac
}

pub open spec fn macs_unique(ws: Seq<WorkerView>) -> bool {
    forall|i: int, j: int|
        0 <= i < ws.len() && 0 <= j < ws.len() && i != j ==> #[trigger] ws[i].mac
            != #[trigger] ws[j].mac
}

/// The record of `mac`, if the registry `ws` holds one.
pub open spec fn spec_get(ws: Seq<WorkerView>, mac: Seq<char>) -> Option<WorkerView> {
    if has_mac(ws, mac) {
        Some(ws[index_of(ws, mac)])
    } else {
        None
    }
}

/// The invariant of one record, given the persistent table `t`.
pub open spec fn record_wf(w: WorkerView, t: Seq<(Seq<char>, Seq<char>)>) -> bool {
    &&& w.persistent == table_has(t, w.mac)
    &&& w.alias == alias_of(t, w.mac)
    &&& w.active == w.address is Some
    &&& !w.persistent ==> w.active
}

/// The invariant of the registry `ws` under the persistent table `t`: MACs are
/// unique, each record is well formed, and every persistent worker is present.
pub open spec fn registry_wf(ws: Seq<WorkerView>, t: Seq<(Seq<char>, Seq<char>)>) -> bool {
    &&& macs_unique(ws)
    &&& forall|i: int| 0 <= i < ws.len() ==> record_wf(#[trigger] ws[i], t)
    &&& forall|k: int| 0 <= k < t.len() ==> has_mac(ws, #[trigger] t[k].0)
}

/// The record that startup creates for the persistent table entry `e`.
pub open spec fn startup_record(e: (Seq<char>, Seq<char>)) -> WorkerView {
    WorkerView {
        mac: e.0,
        alias: Some(e.1),
        address: None,
        active: false,
        persistent: true,
        current: None,
    }
}

pub open spec fn activated(w: WorkerView, a: Endpoint) -> WorkerView {
    WorkerView { active: true, address: Some(a), ..w }
}

pub open spec fn deactivated(w: WorkerView) -> WorkerView {
    WorkerView { active: false, address: None, ..w }
}

/// The registry after the worker `mac` announced itself from `a`: a known
/// worker becomes active at `a`; an unknown one is appended.
pub open spec fn spec_add(
    ws: Seq<WorkerView>,
    t: Seq<(Seq<char>, Seq<char>)>,
    mac: Seq<char>,
    a: Endpoint,
) -> Seq<WorkerView> {
    if has_mac(ws, mac) {
        ws.update(index_of(ws, mac), activated(ws[index_of(ws, mac)], a))
    } else {
        ws.push(
            WorkerView {
                mac,
                alias: alias_of(t, mac),
                address: Some(a),
                active: true,
                persistent: table_has(t, mac),
                current: None,
            },
        )
    }
}

/// The registry after the worker `mac` was found unreachable: a persistent
/// worker becomes inactive with no address; any other is dropped.
pub open spec fn spec_remove(ws: Seq<WorkerView>, mac: Seq<char>) -> Seq<WorkerView> {
    if has_mac(ws, mac) {
        if ws[index_of(ws, mac)].persistent {
            ws.update(index_of(ws, mac), deactivated(ws[index_of(ws, mac)]))
        } else {
            ws.remove(index_of(ws, mac))
        }
    } else {
        ws
    }
}

/// The selector that addresses every worker.
pub open spec fn broadcast_word() -> Seq<char> {
    seq!['B', 'r', 'o', 'a', 'd', 'c', 'a', 's', 't']
}

/// Whether `id` selects anything in `ws`: every worker, or a known one.
pub open spec fn selects(ws: Seq<WorkerView>, id: Seq<char>) -> bool {
    id == broadcast_word() || has_mac(ws, id)
}

pub open spec fn with_current(w: WorkerView, c: CommandView) -> WorkerView {
    WorkerView { current: Some(c), ..w }
}

/// Applies `f` to the records that `id` selects.
pub open spec fn apply_selected(
    ws: Seq<WorkerView>,
    id: Seq<char>,
    f: spec_fn(WorkerView) -> WorkerView,
) -> Seq<WorkerView> {
    if id == broadcast_word() {
        ws.map_values(f)
    } else if has_mac(ws, id) {
        ws.update(index_of(ws, id), f(ws[index_of(ws, id)]))
    } else {
        ws
    }
}

/// The registry after the directive `c` was set on what `id` selects.
pub open spec fn spec_set_current(ws: Seq<WorkerView>, id: Seq<char>, c: CommandView) -> Seq<
    WorkerView,
> {
    apply_selected(ws, id, |w: WorkerView| with_current(w, c))
}

pub open spec fn saturating_sum(a: u64, b: u64) -> u64 {
    if a + b > u64::MAX {
        u64::MAX
    } else {
        (a + b) as u64
    }
}

/// A record after `inc` seconds were added at `now_ms`: a running timer is
/// lengthened; anything else is replaced by a timer of `inc` seconds.
pub open spec fn extended(w: WorkerView, inc: u64, now_ms: u64) -> WorkerView {
    match w.current {
        Some(CommandView::Timer { start_ms, duration_secs }) => with_current(
            w,
            CommandView::Timer { start_ms, duration_secs: saturating_sum(duration_secs, inc) },
        ),
        _ => with_current(w, CommandView::Timer { start_ms: now_ms, duration_secs: inc }),
    }
}

/// The registry after `inc` seconds were added at `now_ms` to what `id` selects.
pub open spec fn spec_add_time(ws: Seq<WorkerView>, id: Seq<char>, inc: u64, now_ms: u64) -> Seq<
    WorkerView,
> {
    apply_selected(ws, id, |w: WorkerView| extended(w, inc, now_ms))
}

pub open spec fn worker_views(v: Seq<MicroWorker>) -> Seq<WorkerView> {
    v.map_values(|w: MicroWorker| w@)
}

proof fn lemma_index_of(ws: Seq<WorkerView>, i: int)
    requires
        macs_unique(ws),
        0 <= i < ws.len(),
    ensures
        has_mac(ws, ws[i].mac),
        index_of(ws, ws[i].mac) == i,
        spec_get(ws, ws[i].mac) == Some(ws[i]),
{
    assert(has_mac(ws, ws[i].mac));
}

/// Changing records without changing their MAC, persistence, presence or
/// alias keeps the registry well formed.
proof fn lemma_same_presence(
    ws: Seq<WorkerView>,
    us: Seq<WorkerView>,
    t: Seq<(Seq<char>, Seq<char>)>,
)
    requires
        registry_wf(ws, t),
        us.len() == ws.len(),
        forall|i: int|
            0 <= i < ws.len() ==> (#[trigger] us[i]).mac == ws[i].mac && us[i].alias
                == ws[i].alias && us[i].address == ws[i].address && us[i].active == ws[i].active
                && us[i].persistent == ws[i].persistent,
    ensures
        registry_wf(us, t),
{
    assert forall|k: int| 0 <= k < t.len() implies has_mac(us, #[trigger] t[k].0) by {
        let j = choose|j: int| 0 <= j < ws.len() && #[trigger] ws[j].mac == t[k].0;
        assert(us[j].mac == t[k].0);
    }
    assert forall|i: int| 0 <= i < us.len() implies record_wf(#[trigger] us[i], t) by {
        assert(record_wf(ws[i], t));
    }
    assert forall|i: int, j: int|
        0 <= i < us.len() && 0 <= j < us.len() && i != j implies #[trigger] us[i].mac
        != #[trigger] us[j].mac by {
        assert(ws[i].mac != ws[j].mac);
    }
}

/// Replacing a record by a well-formed one with the same MAC keeps the
/// registry well formed.
proof fn lemma_update_wf(
    ws: Seq<WorkerView>,
    t: Seq<(Seq<char>, Seq<char>)>,
    i: int,
    w: WorkerView,
)
    requires
        registry_wf(ws, t),
        0 <= i < ws.len(),
        w.mac == ws[i].mac,
        record_wf(w, t),
    ensures
        registry_wf(ws.update(i, w), t),
{
    let us = ws.update(i, w);
    assert forall|k: int| 0 <= k < t.len() implies has_mac(us, #[trigger] t[k].0) by {
        let j = choose|j: int| 0 <= j < ws.len() && #[trigger] ws[j].mac == t[k].0;
        assert(us[j].mac == t[k].0);
    }
    assert forall|k: int| 0 <= k < us.len() implies record_wf(#[trigger] us[k], t) by {
        assert(record_wf(ws[k], t));
    }
    assert forall|a: int, b: int|
        0 <= a < us.len() && 0 <= b < us.len() && a != b implies #[trigger] us[a].mac
        != #[trigger] us[b].mac by {
        assert(ws[a].mac != ws[b].mac);
    }
}

/// Appending a well-formed record for a MAC the registry lacks keeps it
/// well formed.
proof fn lemma_push_wf(ws: Seq<WorkerView>, t: Seq<(Seq<char>, Seq<char>)>, w: WorkerView)
    requires
        registry_wf(ws, t),
        !has_mac(ws, w.mac),
        record_wf(w, t),
    ensures
        registry_wf(ws.push(w), t),
{
    let us = ws.push(w);
    assert forall|k: int| 0 <= k < t.len() implies has_mac(us, #[trigger] t[k].0) by {
        let j = choose|j: int| 0 <= j < ws.len() && #[trigger] ws[j].mac == t[k].0;
        assert(us[j].mac == t[k].0);
    }
    assert forall|k: int| 0 <= k < us.len() implies record_wf(#[trigger] us[k], t) by {
        if k < ws.len() {
            assert(record_wf(ws[k], t));
        }
    }
    assert forall|a: int, b: int|
        0 <= a < us.len() && 0 <= b < us.len() && a != b implies #[trigger] us[a].mac
        != #[trigger] us[b].mac by {
        if a < ws.len() && b < ws.len() {
            assert(ws[a].mac != ws[b].mac);
        } else if a < ws.len() {
            assert(ws[a].mac != w.mac);
        } else {
            assert(ws[b].mac != w.mac);
        }
    }
}

/// Dropping a non-persistent record keeps the registry well formed.
proof fn lemma_remove_wf(ws: Seq<WorkerView>, t: Seq<(Seq<char>, Seq<char>)>, i: int)
    requires
        registry_wf(ws, t),
        0 <= i < ws.len(),
        !ws[i].persistent,
    ensures
        registry_wf(ws.remove(i), t),
{
    let us = ws.remove(i);
    assert(record_wf(ws[i], t));
    assert forall|k: int| 0 <= k < t.len() implies has_mac(us, #[trigger] t[k].0) by {
        let j = choose|j: int| 0 <= j < ws.len() && #[trigger] ws[j].mac == t[k].0;
        assert(table_has(t, t[k].0));
        assert(j != i);
        if j < i {
            assert(us[j].mac == t[k].0);
        } else {
            assert(us[j - 1].mac == t[k].0);
        }
    }
    assert forall|k: int| 0 <= k < us.len() implies record_wf(#[trigger] us[k], t) by {
        if k < i {
            assert(record_wf(ws[k], t));
        } else {
            assert(record_wf(ws[k + 1], t));
        }
    }
    assert forall|a: int, b: int|
        0 <= a < us.len() && 0 <= b < us.len() && a != b implies #[trigger] us[a].mac
        != #[trigger] us[b].mac by {
        let a2 = if a < i {
            a
        } else {
            a + 1
        };
        let b2 = if b < i {
            b
        } else {
            b + 1
        };
        assert(ws[a2].mac != ws[b2].mac);
    }
}

/// The registry of known workers.
pub struct MicroManager {
    table: PersistentTable,
    workers: Vec<MicroWorker>,
}

impl View for MicroManager {
    type V = Seq<WorkerView>;

    closed spec fn view(&self) -> Seq<WorkerView> {
        worker_views(self.workers@)
    }
}

impl MicroManager {
    /// The persistent table the registry was made with.
    pub closed spec fn table_view(&self) -> Seq<(Seq<char>, Seq<char>)> {
        self.table@
    }

    pub open spec fn wf(&self) -> bool {
        &&& table_keys_unique(self.table_view())
        &&& self.table_wf()
        &&& registry_wf(self@, self.table_view())
    }

    /// The persistent table is well formed.
    pub closed spec fn table_wf(&self) -> bool {
        self.table.wf()
    }

    /// A registry that holds one inactive record for each entry of the
    /// persistent table, in the table's order.
    pub fn new(table: PersistentTable) -> (r: Self)
        requires
            table.wf(),
        ensures
            r.wf(),
            r.table_view() == table@,
            r@ == table@.map_values(|e: (Seq<char>, Seq<char>)| startup_record(e)),
    {
        let ghost t = table@;
        let pairs = table.entries();
        let n = pairs.len();
        let mut workers: Vec<MicroWorker> = Vec::new();
        let mut i: usize = 0;
        while i < n
            invariant
                t == table@,
                pairs@.map_values(|e: (String, String)| (e.0@, e.1@)) == t,
                n == t.len(),
                i <= n,
                worker_views(workers@) =~= t.take(i as int).map_values(
                    |e: (Seq<char>, Seq<char>)| startup_record(e),
                ),
            decreases n - i,
        {
            let (mac_address, alias) = (&pairs[i].0, &pairs[i].1);
            let w = MicroWorker {
                mac_address: mac_address.clone(),
                alias: Some(alias.clone()),
                ip_address: None,
                active: false,
                persistent: true,
                current_cmd: None,
            };
            assert(t[i as int] == (mac_address@, alias@));
            assert(w@ == startup_record(t[i as int]));
            let ghost before = workers@;
            workers.push(w);
            assert(worker_views(workers@) =~= worker_views(before).push(w@));
            assert(t.take(i + 1) =~= t.take(i as int).push(t[i as int]));
            i = i + 1;
        }
        assert(t.take(n as int) =~= t);
        let r = MicroManager { table, workers };
        proof {
            let ws = r@;
            assert forall|k: int| 0 <= k < t.len() implies has_mac(ws, #[trigger] t[k].0) by {
                assert(ws[k].mac == t[k].0);
            }
            assert forall|k: int| 0 <= k < ws.len() implies record_wf(#[trigger] ws[k], t) by {
                lemma_alias_at(t, k);
            }
        }
        r
    }

    /// The persistent table.
    pub fn table(&self) -> (r: &PersistentTable)
        ensures
            r@ == self.table_view(),
    {
        &self.table
    }

    /// The records, in registry order.
    pub fn workers(&self) -> (r: &Vec<MicroWorker>)
        ensures
            worker_views(r@) == self@,
    {
        &self.workers
    }

    /// A copy of every record, in registry order.
    pub fn snapshot(&self) -> (r: Vec<MicroWorker>)
        ensures
            worker_views(r@) == self@,
    {
        let n = self.workers.len();
        let mut r: Vec<MicroWorker> = Vec::new();
        let mut i: usize = 0;
        while i < n
            invariant
                n == self@.len(),
                i <= n,
                worker_views(r@) =~= self@.take(i as int),
            decreases n - i,
        {
            r.push(self.workers[i].duplicate());
            assert(self@.take(i + 1) =~= self@.take(i as int).push(self@[i as int]));
            i = i + 1;
        }
        assert(self@.take(n as int) =~= self@);
        r
    }

    /// The position of the record of `mac`, if there is one.
    pub fn find(&self, mac_address: &str) -> (r: Option<usize>)
        requires
            self.wf(),
        ensures
            r matches Some(i) ==> i < self@.len() && self@[i as int].mac == mac_address@
                && index_of(self@, mac_address@) == i,
            r is None <==> !has_mac(self@, mac_address@),
    {
        let n = self.workers.len();
        let mut i: usize = 0;
        while i < n
            invariant
                self.wf(),
                n == self@.len(),
                i <= n,
                forall|j: int| 0 <= j < i ==> #[trigger] self@[j].mac != mac_address@,
            decreases n - i,
        {
            if same_text(self.workers[i].mac_address.as_str(), mac_address) {
                proof {
                    lemma_index_of(self@, i as int);
                }
                return Some(i);
            }
            i = i + 1;
        }
        None
    }

    /// The record of `mac_address`, if there is one.
    pub fn get_worker(&self, mac_address: &str) -> (r: Option<&MicroWorker>)
        requires
            self.wf(),
        ensures
            r is Some <==> has_mac(self@, mac_address@),
            r matches Some(w) ==> spec_get(self@, mac_address@) == Some(w@),
    {
        match self.find(mac_address) {
            Some(i) => Some(&self.workers[i]),
            None => None,
        }
    }

    /// Records that the worker `mac_address` announced itself from
    /// `ip_address`: a known worker becomes active there, an unknown one is
    /// added as a new record.
    pub fn add_worker(&mut self, mac_address: String, ip_address: Endpoint)
        requires
            old(self).wf(),
        ensures
            final(self).wf(),
            final(self).table_view() == old(self).table_view(),
            final(self)@ == spec_add(
                old(self)@,
                old(self).table_view(),
                mac_address@,
                ip_address,
            ),
    {
        let ghost ws = self@;
        let ghost t = self.table_view();
        match self.find(mac_address.as_str()) {
            Some(i) => {
                self.workers[i].active = true;
                self.workers[i].ip_address = Some(ip_address);
                proof {
                    assert(self@ =~= ws.update(i as int, activated(ws[i as int], ip_address)));
                    assert(record_wf(ws[i as int], t));
                    lemma_update_wf(ws, t, i as int, activated(ws[i as int], ip_address));
                }
            },
            None => {
                let w = MicroWorker::new(&self.table, mac_address, Some(ip_address));
                self.workers.push(w);
                proof {
                    assert(self@ =~= ws.push(w@));
                    lemma_push_wf(ws, t, w@);
                }
            },
        }
    }

    /// Records that the worker `mac_address` could not be reached: a
    /// persistent worker becomes inactive with no address, any other is
    /// dropped. An unknown MAC changes nothing.
    pub fn remove_worker(&mut self, mac_address: &str)
        requires
            old(self).wf(),
        ensures
            final(self).wf(),
            final(self).table_view() == old(self).table_view(),
            final(self)@ == spec_remove(old(self)@, mac_address@),
    {
        let ghost ws = self@;
        let ghost t = self.table_view();
        match self.find(mac_address) {
            Some(i) => {
                proof {
                    assert(record_wf(ws[i as int], t));
                }
                if self.workers[i].persistent {
                    self.workers[i].active = false;
                    self.workers[i].ip_address = None;
                    proof {
                        assert(self@ =~= ws.update(i as int, deactivated(ws[i as int])));
                        lemma_update_wf(ws, t, i as int, deactivated(ws[i as int]));
                    }
                } else {
                    self.workers.remove(i);
                    proof {
                        assert(self@ =~= ws.remove(i as int));
                        lemma_remove_wf(ws, t, i as int);
                    }
                }
            },
            None => {},
        }
    }

    fn set_current_at(&mut self, i: usize, cmd: &MicroCommand)
        requires
            i < old(self)@.len(),
        ensures
            final(self).table_view() == old(self).table_view(),
            final(self).table_wf() == old(self).table_wf(),
            final(self)@ == old(self)@.update(i as int, with_current(old(self)@[i as int], cmd@)),
    {
        let ghost ws = self@;
        self.workers[i].current_cmd = Some(cmd.duplicate());
        assert(self@ =~= ws.update(i as int, with_current(ws[i as int], cmd@)));
    }

    fn extend_at(&mut self, i: usize, inc: u64, now_ms: u64)
        requires
            i < old(self)@.len(),
        ensures
            final(self).table_view() == old(self).table_view(),
            final(self).table_wf() == old(self).table_wf(),
            final(self)@ == old(self)@.update(i as int, extended(old(self)@[i as int], inc, now_ms)),
    {
        let ghost ws = self@;
        let next = match &self.workers[i].current_cmd {
            Some(MicroCommand::Timer(t)) => MicroTimer {
                start_ms: t.start_ms,
                duration_secs: t.duration_secs.saturating_add(inc),
            },
            _ => MicroTimer { start_ms: now_ms, duration_secs: inc },
        };
        self.workers[i].current_cmd = Some(MicroCommand::Timer(next));
        assert(self@ =~= ws.update(i as int, extended(ws[i as int], inc, now_ms)));
    }

    /// Sets the directive `cmd` on the worker `id`, or on every worker when
    /// `id` is `Broadcast`. Returns whether `id` selected anything; when it
    /// did not, nothing changes.
    pub fn set_current(&mut self, id: &str, cmd: &MicroCommand) -> (r: bool)
        requires
            old(self).wf(),
        ensures
            final(self).wf(),
            final(self).table_view() == old(self).table_view(),
            final(self)@ == spec_set_current(old(self)@, id@, cmd@),
            r == selects(old(self)@, id@),
    {
        let ghost ws = self@;
        let ghost t = self.table_view();
        proof {
            reveal_strlit("Broadcast");
        }
        assert("Broadcast"@ =~= broadcast_word());
        if same_text(id, "Broadcast") {
            let n = self.workers.len();
            let mut i: usize = 0;
            while i < n
                invariant
                    self.table_view() == t,
                    self.table_wf(),
                    n == ws.len(),
                    self@.len() == n,
                    i <= n,
                    forall|j: int| 0 <= j < i ==> #[trigger] self@[j] == with_current(ws[j], cmd@),
                    forall|j: int| i <= j < n ==> #[trigger] self@[j] == ws[j],
                decreases n - i,
            {
                self.set_current_at(i, cmd);
                i = i + 1;
            }
            assert(self@ =~= spec_set_current(ws, id@, cmd@));
            proof {
                lemma_same_presence(ws, self@, t);
            }
            true
        } else {
            match self.find(id) {
                Some(i) => {
                    self.set_current_at(i, cmd);
                    proof {
                        lemma_same_presence(ws, self@, t);
                    }
                    true
                },
                None => false,
            }
        }
    }

    /// Adds `inc` seconds, at `now_ms`, to the worker `id` or to every worker
    /// when `id` is `Broadcast`: a running timer is lengthened (saturating),
    /// any other directive is replaced by a timer of `inc` seconds starting
    /// now. Returns whether `id` selected anything; when it did not, nothing
    /// changes.
    pub fn add_time(&mut self, id: &str, inc: u64, now_ms: u64) -> (r: bool)
        requires
            old(self).wf(),
        ensures
            final(self).wf(),
            final(self).table_view() == old(self).table_view(),
            final(self)@ == spec_add_time(old(self)@, id@, inc, now_ms),
            r == selects(old(self)@, id@),
    {
        let ghost ws = self@;
        let ghost t = self.table_view();
        proof {
            reveal_strlit("Broadcast");
        }
        assert("Broadcast"@ =~= broadcast_word());
        if same_text(id, "Broadcast") {
            let n = self.workers.len();
            let mut i: usize = 0;
            while i < n
                invariant
                    self.table_view() == t,
                    self.table_wf(),
                    n == ws.len(),
                    self@.len() == n,
                    i <= n,
                    forall|j: int| 0 <= j < i ==> #[trigger] self@[j] == extended(ws[j], inc, now_ms),
                    forall|j: int| i <= j < n ==> #[trigger] self@[j] == ws[j],
                decreases n - i,
            {
                self.extend_at(i, inc, now_ms);
                i = i + 1;
            }
            assert(self@ =~= spec_add_time(ws, id@, inc, now_ms));
            proof {
                lemma_same_presence(ws, self@, t);
            }
            true
        } else {
            match self.find(id) {
                Some(i) => {
                    self.extend_at(i, inc, now_ms);
                    proof {
                        lemma_same_presence(ws, self@, t);
                    }
                    true
                },
                None => false,
            }
        }
    }
}

// ---------------------------------------------------------------------------
// Laws

/// After the worker `mac` was found unreachable, a non-persistent worker is
/// gone from the registry, and a persistent one is still there, inactive
/// and without an address.
pub proof fn lemma_remove_then_get(
    ws: Seq<WorkerView>,
    t: Seq<(Seq<char>, Seq<char>)>,
    mac: Seq<char>,
)
    requires
        registry_wf(ws, t),
        has_mac(ws, mac),
    ensures
        !spec_get(ws, mac)->0.persistent ==> spec_get(spec_remove(ws, mac), mac) is None,
        spec_get(ws, mac)->0.persistent ==> (spec_get(spec_remove(ws, mac), mac) matches Some(w)
            && !w.active && w.address is None),
{
    let i = index_of(ws, mac);
    assert(ws[i].mac == mac);
    let us = spec_remove(ws, mac);
    if ws[i].persistent {
        assert(us =~= ws.update(i, deactivated(ws[i])));
        assert forall|a: int, b: int|
            0 <= a < us.len() && 0 <= b < us.len() && a != b implies #[trigger] us[a].mac
            != #[trigger] us[b].mac by {
            assert(ws[a].mac != ws[b].mac);
        }
        lemma_index_of(us, i);
    } else {
        assert(us =~= ws.remove(i));
        if has_mac(us, mac) {
            let k = choose|k: int| 0 <= k < us.len() && #[trigger] us[k].mac == mac;
            if k < i {
                assert(ws[k].mac == mac);
            } else {
                assert(ws[k + 1].mac == mac);
            }
        }
    }
}

/// Whether `after` has the same MAC, alias, address, presence and
/// persistence as `before`.
pub open spec fn same_presence(before: WorkerView, after: WorkerView) -> bool {
    &&& after.mac == before.mac
    &&& after.alias == before.alias
    &&& after.address == before.address
    &&& after.active == before.active
    &&& after.persistent == before.persistent
}

/// What the portal does (setting a directive, adding time) never drops a
/// worker, nor changes its MAC, alias, address or presence; what the
/// broadcaster does (evicting a worker) never changes the directive of any
/// worker that stays.
pub proof fn lemma_roles_separate(
    ws: Seq<WorkerView>,
    id: Seq<char>,
    c: CommandView,
    inc: u64,
    now_ms: u64,
    mac: Seq<char>,
)
    ensures
        spec_set_current(ws, id, c).len() == ws.len(),
        spec_add_time(ws, id, inc, now_ms).len() == ws.len(),
        forall|i: int|
            0 <= i < ws.len() ==> same_presence(ws[i], #[trigger] spec_set_current(ws, id, c)[i]),
        forall|i: int|
            0 <= i < ws.len() ==> same_presence(
                ws[i],
                #[trigger] spec_add_time(ws, id, inc, now_ms)[i],
            ),
        forall|k: int|
            0 <= k < spec_remove(ws, mac).len() ==> exists|j: int|
                0 <= j < ws.len() && #[trigger] ws[j].mac == (#[trigger] spec_remove(ws, mac)[k]).mac
                    && ws[j].current == spec_remove(ws, mac)[k].current,
{
    let us = spec_remove(ws, mac);
    assert forall|k: int| 0 <= k < us.len() implies exists|j: int|
        0 <= j < ws.len() && #[trigger] ws[j].mac == (#[trigger] us[k]).mac && ws[j].current
            == us[k].current by {
        if has_mac(ws, mac) {
            let i = index_of(ws, mac);
            if ws[i].persistent {
                assert(ws[k].mac == us[k].mac);
            } else if k < i {
                assert(ws[k].mac == us[k].mac);
            } else {
                assert(ws[k + 1].mac == us[k].mac);
            }
        } else {
            assert(ws[k].mac == us[k].mac);
        }
    }
}

/// Whether `after` still has the timer that `before` had, with the same
/// start and a length no shorter.
pub open spec fn never_shorter(before: WorkerView, after: WorkerView) -> bool {
    match before.current {
        Some(CommandView::Timer { start_ms, duration_secs }) => match after.current {
            Some(CommandView::Timer { start_ms: s, duration_secs: d }) => s == start_ms && d
                >= duration_secs,
            _ => false,
        },
        _ => true,
    }
}

/// Adding time never shortens a running timer: it keeps its start, and its
/// length grows or stays the same.
pub proof fn lemma_add_time_monotonic(ws: Seq<WorkerView>, id: Seq<char>, inc: u64, now_ms: u64)
    ensures
        spec_add_time(ws, id, inc, now_ms).len() == ws.len(),
        forall|i: int|
            0 <= i < ws.len() ==> never_shorter(ws[i], #[trigger] spec_add_time(ws, id, inc, now_ms)[i]),
{
}

/// Whether `after` holds what adding `inc` seconds at `now_ms` to `before`
/// asks for: a running timer keeps its start and grows by exactly `inc`
/// (when the sum fits in a `u64`); anything else becomes a timer of `inc`
/// seconds starting at `now_ms`.
pub open spec fn time_added(before: WorkerView, after: WorkerView, inc: u64, now_ms: u64) -> bool {
    match before.current {
        Some(CommandView::Timer { start_ms, duration_secs }) => duration_secs + inc <= u64::MAX
            ==> after.current == Some(
            CommandView::Timer { start_ms, duration_secs: (duration_secs + inc) as u64 },
        ),
        _ => after.current == Some(CommandView::Timer { start_ms: now_ms, duration_secs: inc }),
    }
}

/// Adding time to `id` (every worker for `Broadcast`) does exactly that to
/// each selected worker and leaves every other worker's directive alone.
pub proof fn lemma_add_time_exact(ws: Seq<WorkerView>, id: Seq<char>, inc: u64, now_ms: u64)
    requires
        macs_unique(ws),
    ensures
        forall|i: int|
            0 <= i < ws.len() && (id == broadcast_word() || ws[i].mac == id) ==> time_added(
                ws[i],
                #[trigger] spec_add_time(ws, id, inc, now_ms)[i],
                inc,
                now_ms,
            ),
        forall|i: int|
            0 <= i < ws.len() && id != broadcast_word() && ws[i].mac != id ==> (
            #[trigger] spec_add_time(ws, id, inc, now_ms)[i]).current == ws[i].current,
{
    assert forall|i: int|
        0 <= i < ws.len() && (id == broadcast_word() || ws[i].mac == id) implies time_added(
        ws[i],
        #[trigger] spec_add_time(ws, id, inc, now_ms)[i],
        inc,
        now_ms,
    ) by {
        if id != broadcast_word() {
            lemma_index_of(ws, i);
        }
    }
    assert forall|i: int|
        0 <= i < ws.len() && id != broadcast_word() && ws[i].mac != id implies (
        #[trigger] spec_add_time(ws, id, inc, now_ms)[i]).current == ws[i].current by {
        if has_mac(ws, id) {
            assert(ws[index_of(ws, id)].mac == id);
        }
    }
}

} // verus!

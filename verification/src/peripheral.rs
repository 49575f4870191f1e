//! Peripherals (phones, watches, headsets, input devices) and their batteries.
use vstd::prelude::*;

use crate::text::{chars_of, compare_chars, lemma_lex_order_range, lemma_lex_order_trans, lex_order};

verus! {

/// The kind of a peripheral, which also decides where it is listed.
#[derive(Debug, Clone, Copy, PartialEq, Eq, Structural)]
pub enum PeripheralType {
    Phone,
    Tablet,
    Watch,
    Headset,
    Mouse,
    Keyboard,
    Trackpad,
    Gamepad,
    Other,
}

/// One battery of a multi-battery peripheral (a pod, a case).
#[derive(Debug, PartialEq, Eq)]
pub struct BatteryCell {
    pub name: String,
    pub level: u8,
    pub is_charging: bool,
}

impl Clone for BatteryCell {
    fn clone(&self) -> (r: Self)
        ensures
            r == *self,
    {
        BatteryCell { name: self.name.clone(), level: self.level, is_charging: self.is_charging }
    }
}

/// A peripheral with its battery reading, as listed to the user.
#[derive(Debug, PartialEq, Eq)]
pub struct PeripheralInfo {
    pub id: String,
    pub name: String,
    pub peripheral_type: PeripheralType,
    pub battery_level: u8,
    pub is_charging: bool,
    pub cells: Vec<BatteryCell>,
    pub via: Option<String>,
    pub last_updated: u64,
}

/// A battery cell as a value: its name as characters.
pub struct CellView {
    pub name: Seq<char>,
    pub level: u8,
    pub is_charging: bool,
}

impl View for BatteryCell {
    type V = CellView;

    open spec fn view(&self) -> CellView {
        CellView { name: self.name@, level: self.level, is_charging: self.is_charging }
    }
}

/// A peripheral reading as a value: strings as characters, cells as values.
pub struct PeripheralView {
    pub id: Seq<char>,
    pub name: Seq<char>,
    pub peripheral_type: PeripheralType,
    pub battery_level: u8,
    pub is_charging: bool,
    pub cells: Seq<CellView>,
    pub via: Option<Seq<char>>,
    pub last_updated: u64,
}

pub open spec fn opt_str_view(o: Option<String>) -> Option<Seq<char>> {
    match o {
        Some(s) => Some(s@),
        None => None,
    }
}

pub open spec fn cells_view(cells: Seq<BatteryCell>) -> Seq<CellView> {
    cells.map_values(|c: BatteryCell| c@)
}

impl View for PeripheralInfo {
    type V = PeripheralView;

    open spec fn view(&self) -> PeripheralView {
        PeripheralView {
            id: self.id@,
            name: self.name@,
            peripheral_type: self.peripheral_type,
            battery_level: self.battery_level,
            is_charging: self.is_charging,
            cells: cells_view(self.cells@),
            via: opt_str_view(self.via),
            last_updated: self.last_updated,
        }
    }
}

impl Clone for PeripheralInfo {
    fn clone(&self) -> (r: Self)
        ensures
            r@ == self@,
    {
        let cells = self.cells.clone();
        proof {
            assert forall|i: int| 0 <= i < cells.len() implies cells[i] == self.cells[i] by {
                assert(vstd::pervasive::cloned::<BatteryCell>(self.cells[i], cells[i]));
            }
            assert(cells@ =~= self.cells@);
        }
        let via = match &self.via {
            Some(v) => Some(v.clone()),
            None => None,
        };
        PeripheralInfo {
            id: self.id.clone(),
            name: self.name.clone(),
            peripheral_type: self.peripheral_type,
            battery_level: self.battery_level,
            is_charging: self.is_charging,
            cells,
            via,
            last_updated: self.last_updated,
        }
    }
}

/// A Bluetooth accessory this Mac is paired with, including ones currently
/// connected to another device.
#[derive(Debug, PartialEq, Eq)]
pub struct KnownAccessory {
    pub name: String,
    pub vendor_id: u16,
    pub product_id: u16,
    pub connected: bool,
}

impl Clone for KnownAccessory {
    fn clone(&self) -> (r: Self)
        ensures
            r == *self,
    {
        KnownAccessory {
            name: self.name.clone(),
            vendor_id: self.vendor_id,
            product_id: self.product_id,
            connected: self.connected,
        }
    }
}

/// The listing sent to the window whenever it changes.
#[derive(Debug)]
pub struct PeripheralUpdatedEvent {
    pub peripherals: Vec<PeripheralInfo>,
}

/// Seconds since the Unix epoch by the system clock, 0 if the clock is set
/// before the epoch. Wraps `SystemTime::now`; nothing is stated of the
/// result, which is the clock's.
#[verifier::external_body]
pub fn unix_now() -> u64 {
    std::time::SystemTime::now().duration_since(std::time::UNIX_EPOCH).unwrap_or_default().as_secs()
}

/// The views of a list of peripherals.
pub open spec fn views(s: Seq<PeripheralInfo>) -> Seq<PeripheralView> {
    s.map_values(|p: PeripheralInfo| p@)
}

/// The group a kind is listed in: phones, tablets, watches, headsets,
/// keyboards, mice, trackpads, gamepads, others.
pub open spec fn type_rank(t: PeripheralType) -> int {
    match t {
        PeripheralType::Phone => 1,
        PeripheralType::Tablet => 2,
        PeripheralType::Watch => 3,
        PeripheralType::Headset => 4,
        PeripheralType::Keyboard => 5,
        PeripheralType::Mouse => 6,
        PeripheralType::Trackpad => 7,
        PeripheralType::Gamepad => 8,
        PeripheralType::Other => 9,
    }
}

/// The listing order: by group, then by name. Negative, zero or positive.
pub open spec fn listing_order(a: PeripheralView, b: PeripheralView) -> int {
    if type_rank(a.peripheral_type) < type_rank(b.peripheral_type) {
        -1
    } else if type_rank(a.peripheral_type) > type_rank(b.peripheral_type) {
        1
    } else {
        lex_order(a.name, b.name)
    }
}

/// `s` is in listing order.
pub open spec fn listed_in_order(s: Seq<PeripheralView>) -> bool {
    forall|i: int, j: int| 0 <= i < j < s.len() ==> listing_order(s[i], s[j]) <= 0
}

/// The entries of `s` that take the same place in the listing as `q`
/// (same group, same name), in their order in `s`.
pub open spec fn same_place_entries(s: Seq<PeripheralView>, q: PeripheralView) -> Seq<PeripheralView> {
    s.filter(|x: PeripheralView| listing_order(x, q) == 0)
}

/// `out` holds the entries of `inp`, and entries that tie in the listing
/// order keep their relative order.
pub open spec fn stable_arrangement(out: Seq<PeripheralView>, inp: Seq<PeripheralView>) -> bool {
    forall|q: PeripheralView| #[trigger] same_place_entries(out, q) == same_place_entries(inp, q)
}

pub proof fn lemma_listing_order(a: PeripheralView, b: PeripheralView, c: PeripheralView)
    ensures
        listing_order(a, b) == -listing_order(b, a),
        listing_order(a, b) == 0 <==> (type_rank(a.peripheral_type) == type_rank(b.peripheral_type)
            && a.name == b.name),
        listing_order(a, b) <= 0 && listing_order(b, c) <= 0 ==> listing_order(a, c) <= 0,
        listing_order(a, b) <= 0 && listing_order(b, c) <= 0 && (listing_order(a, b) < 0
            || listing_order(b, c) < 0) ==> listing_order(a, c) < 0,
{
    lemma_lex_order_range(a.name, b.name);
    lemma_lex_order_range(b.name, c.name);
    lemma_lex_order_range(a.name, c.name);
    if lex_order(a.name, b.name) <= 0 && lex_order(b.name, c.name) <= 0 {
        lemma_lex_order_trans(a.name, b.name, c.name);
    }
}

fn rank_of(t: PeripheralType) -> (r: u8)
    ensures
        r == type_rank(t),
{
    match t {
        PeripheralType::Phone => 1,
        PeripheralType::Tablet => 2,
        PeripheralType::Watch => 3,
        PeripheralType::Headset => 4,
        PeripheralType::Keyboard => 5,
        PeripheralType::Mouse => 6,
        PeripheralType::Trackpad => 7,
        PeripheralType::Gamepad => 8,
        PeripheralType::Other => 9,
    }
}

fn listing_compare(a: &PeripheralInfo, b: &PeripheralInfo) -> (r: i8)
    ensures
        r == listing_order(a@, b@),
{
    let ra = rank_of(a.peripheral_type);
    let rb = rank_of(b.peripheral_type);
    if ra < rb {
        -1
    } else if ra > rb {
        1
    } else {
        let an = chars_of(a.name.as_str());
        let bn = chars_of(b.name.as_str());
        compare_chars(&an, &bn)
    }
}

proof fn lemma_views_insert(v: Seq<PeripheralInfo>, p: int, x: PeripheralInfo)
    requires
        0 <= p <= v.len(),
    ensures
        views(v.insert(p, x)) == views(v).insert(p, x@),
{
    assert(views(v.insert(p, x)) =~= views(v).insert(p, x@));
}

proof fn lemma_insert_keeps_arrangement(o: Seq<PeripheralView>, inp: Seq<PeripheralView>, p: int, x: PeripheralView)
    requires
        0 <= p <= o.len(),
        listed_in_order(o),
        stable_arrangement(o, inp),
        forall|j: int| 0 <= j < p ==> listing_order(#[trigger] o[j], x) <= 0,
        p < o.len() ==> listing_order(o[p], x) > 0,
    ensures
        listed_in_order(o.insert(p, x)),
        stable_arrangement(o.insert(p, x), inp.push(x)),
{
    let n = o.insert(p, x);
    assert forall|i: int, j: int| 0 <= i < j < n.len() implies listing_order(n[i], n[j]) <= 0 by {
        if j < p {
        } else if j == p {
        } else if i < p {
            assert(n[j] == o[j - 1]);
        } else if i == p {
            assert(n[j] == o[j - 1]);
            lemma_listing_order(o[p], x, x);
            if j - 1 > p {
                lemma_listing_order(x, o[p], o[j - 1]);
            }
        } else {
            assert(n[i] == o[i - 1] && n[j] == o[j - 1]);
        }
    }
    assert(n =~= o.take(p) + seq![x] + o.skip(p));
    assert(o =~= o.take(p) + o.skip(p));
    assert forall|q: PeripheralView| #[trigger] same_place_entries(n, q) == same_place_entries(inp.push(x), q) by {
        let f = |y: PeripheralView| listing_order(y, q) == 0;
        inp.lemma_filter_push(x, f);
        Seq::filter_distributes_over_add(o.take(p) + seq![x], o.skip(p), f);
        Seq::filter_distributes_over_add(o.take(p), seq![x], f);
        Seq::filter_distributes_over_add(o.take(p), o.skip(p), f);
        assert(same_place_entries(o, q) == same_place_entries(inp, q));
        reveal_with_fuel(Seq::filter, 2);
        if f(x) {
            assert forall|k: int| 0 <= k < o.skip(p).len() implies !f(#[trigger] o.skip(p)[k]) by {
                let y = o.skip(p)[k];
                assert(y == o[p + k]);
                lemma_listing_order(o[p], o[p + k], o[p + k]);
                lemma_listing_order(x, o[p], o[p + k]);
                lemma_listing_order(y, q, x);
                lemma_listing_order(x, q, y);
                lemma_listing_order(x, y, q);
            }
            o.skip(p).lemma_all_neg_filter_empty(f);
            assert(seq![x].filter(f) =~= seq![x]);
        } else {
            assert(seq![x].filter(f) =~= Seq::<PeripheralView>::empty());
        }
    }
}

/// Puts peripherals in listing order: phones, tablets, watches, headsets,
/// keyboards, mice, trackpads, gamepads, then the rest, each group by name;
/// the sort is stable.
pub fn sort_peripherals(list: Vec<PeripheralInfo>) -> (r: Vec<PeripheralInfo>)
    ensures
        listed_in_order(views(r@)),
        stable_arrangement(views(r@), views(list@)),
        views(r@).to_multiset() == views(list@).to_multiset(),
{
    let mut out: Vec<PeripheralInfo> = Vec::new();
    let mut i: usize = 0;
    assert(views(out@) =~= views(list@.take(0)));
    while i < list.len()
        invariant
            i <= list@.len(),
            listed_in_order(views(out@)),
            stable_arrangement(views(out@), views(list@.take(i as int))),
            views(out@).to_multiset() == views(list@.take(i as int)).to_multiset(),
        decreases list.len() - i,
    {
        let x = list[i].clone();
        let mut p: usize = 0;
        while p < out.len() && listing_compare(&out[p], &x) <= 0
            invariant
                p <= out@.len(),
                forall|j: int| 0 <= j < p ==> listing_order(#[trigger] views(out@)[j], x@) <= 0,
            decreases out.len() - p,
        {
            p = p + 1;
        }
        proof {
            lemma_insert_keeps_arrangement(views(out@), views(list@.take(i as int)), p as int, x@);
            lemma_views_insert(out@, p as int, x);
            assert(views(list@.take(i + 1)) =~= views(list@.take(i as int)).push(x@));
            vstd::seq_lib::to_multiset_insert(views(out@), p as int, x@);
            vstd::seq_lib::to_multiset_build(views(list@.take(i as int)), x@);
        }
        out.insert(p, x);
        i = i + 1;
    }
    assert(list@.take(list@.len() as int) =~= list@);
    out
}

/// Remote entries are refreshed every 2-30 s by their device worker; anything
/// older than this belongs to a worker that is stuck or gone.
pub const REMOTE_STALE_SECS: u64 = 15 * 60;
/// BLE readings are duty-cycled, so a few cycles are allowed.
pub const NEARBY_STALE_SECS: u64 = 5 * 60;

/// The devices one lockdown worker reported, tagged with the worker's
/// generation so that a replaced worker cannot clear its successor's data.
pub struct RemoteEntry {
    pub generation: u64,
    pub devices: Vec<PeripheralInfo>,
}

/// The peripherals by ID, as the merge builds them.
pub type Listing = Map<Seq<char>, PeripheralView>;

/// A reading taken at `t` is younger than `limit` seconds at `now` (a reading
/// from the future counts as just taken).
pub open spec fn is_fresh(now: u64, t: u64, limit: u64) -> bool {
    (if now >= t { now - t } else { 0 }) < limit
}

/// A remote entry is kept while any of its devices is fresh.
pub open spec fn entry_fresh(devices: Seq<PeripheralView>, now: u64) -> bool {
    exists|i: int| 0 <= i < devices.len() && is_fresh(now, (#[trigger] devices[i]).last_updated, REMOTE_STALE_SECS)
}

/// Adds every reading, a later one replacing an earlier one with the same ID.
pub open spec fn put_all(m: Listing, s: Seq<PeripheralView>) -> Listing
    decreases s.len(),
{
    if s.len() == 0 {
        m
    } else {
        put_all(m, s.drop_last()).insert(s.last().id, s.last())
    }
}

/// Adds a reading unless one with the same ID is at least as recent.
pub open spec fn put_fresher(m: Listing, p: PeripheralView) -> Listing {
    if m.contains_key(p.id) && m[p.id].last_updated >= p.last_updated {
        m
    } else {
        m.insert(p.id, p)
    }
}

pub open spec fn put_fresher_all(m: Listing, s: Seq<PeripheralView>) -> Listing
    decreases s.len(),
{
    if s.len() == 0 {
        m
    } else {
        put_fresher(put_fresher_all(m, s.drop_last()), s.last())
    }
}

/// Adds a reading unless the listing already has a peripheral of the same
/// kind and name (a more accurate source already reports it).
pub open spec fn put_unlisted(m: Listing, p: PeripheralView) -> Listing {
    if exists|k: Seq<char>| #![trigger m[k]] m.contains_key(k) && m[k].name == p.name
        && m[k].peripheral_type == p.peripheral_type {
        m
    } else {
        m.insert(p.id, p)
    }
}

pub open spec fn put_unlisted_all(m: Listing, s: Seq<PeripheralView>) -> Listing
    decreases s.len(),
{
    if s.len() == 0 {
        m
    } else {
        put_unlisted(put_unlisted_all(m, s.drop_last()), s.last())
    }
}

/// Of two readings of one peripheral the more recent is kept (the earlier
/// one on a tie); other peripherals are untouched.
pub proof fn lemma_put_fresher(m: Listing, p: PeripheralView, other: Seq<char>)
    ensures
        put_fresher(m, p).contains_key(p.id),
        put_fresher(m, p)[p.id].last_updated >= p.last_updated,
        m.contains_key(p.id) ==> put_fresher(m, p)[p.id].last_updated >= m[p.id].last_updated,
        m.contains_key(p.id) && m[p.id].last_updated >= p.last_updated ==> put_fresher(m, p)[p.id] == m[p.id],
        other != p.id ==> put_fresher(m, p).contains_key(other) == m.contains_key(other) && put_fresher(m, p)[other]
            == m[other],
{
}

/// `s` holds each peripheral of `m` exactly once.
pub open spec fn lists(s: Seq<PeripheralView>, m: Listing) -> bool {
    &&& forall|i: int| 0 <= i < s.len() ==> m.contains_key(#[trigger] s[i].id) && m[s[i].id] == s[i]
    &&& forall|k: Seq<char>| #[trigger] m.contains_key(k) ==> exists|i: int| 0 <= i < s.len() && s[i].id == k
    &&& forall|i: int, j: int| 0 <= i < j < s.len() ==> s[i].id != s[j].id
}

/// A remote entry as a value.
pub struct RemoteView {
    pub generation: u64,
    pub devices: Seq<PeripheralView>,
}

impl View for RemoteEntry {
    type V = RemoteView;

    open spec fn view(&self) -> RemoteView {
        RemoteView { generation: self.generation, devices: views(self.devices@) }
    }
}

impl Clone for RemoteEntry {
    fn clone(&self) -> (r: Self)
        ensures
            r@ == self@,
    {
        let mut devices: Vec<PeripheralInfo> = Vec::new();
        let mut i: usize = 0;
        while i < self.devices.len()
            invariant
                i <= self.devices@.len(),
                views(devices@) == views(self.devices@.take(i as int)),
            decreases self.devices.len() - i,
        {
            let c = self.devices[i].clone();
            let ghost before = devices@;
            devices.push(c);
            proof {
                assert(views(devices@) =~= views(before).push(c@));
                assert(self.devices@.take(i + 1) =~= self.devices@.take(i as int).push(self.devices@[i as int]));
                assert(views(self.devices@.take(i + 1)) =~= views(self.devices@.take(i as int)).push(self.devices@[i as int]@));
            }
            i = i + 1;
        }
        assert(self.devices@.take(i as int) =~= self.devices@);
        RemoteEntry { generation: self.generation, devices }
    }
}

pub open spec fn remote_views(s: Seq<(String, RemoteEntry)>) -> Seq<(Seq<char>, RemoteView)> {
    s.map_values(|e: (String, RemoteEntry)| (e.0@, e.1@))
}

pub open spec fn nearby_views(s: Seq<(String, PeripheralInfo)>) -> Seq<(Seq<char>, PeripheralView)> {
    s.map_values(|e: (String, PeripheralInfo)| (e.0@, e.1@))
}

/// The devices of remote entries, entry after entry.
pub open spec fn remote_devices(entries: Seq<(Seq<char>, RemoteView)>) -> Seq<PeripheralView>
    decreases entries.len(),
{
    if entries.len() == 0 {
        Seq::empty()
    } else {
        remote_devices(entries.drop_last()) + entries.last().1.devices
    }
}

/// The remote entries worth keeping at `now`.
pub open spec fn kept_remote(entries: Seq<(Seq<char>, RemoteView)>, now: u64) -> Seq<(Seq<char>, RemoteView)> {
    entries.filter(|e: (Seq<char>, RemoteView)| entry_fresh(e.1.devices, now))
}

/// The nearby readings worth keeping at `now`.
pub open spec fn kept_nearby(entries: Seq<(Seq<char>, PeripheralView)>, now: u64) -> Seq<(Seq<char>, PeripheralView)> {
    entries.filter(|e: (Seq<char>, PeripheralView)| is_fresh(now, e.1.last_updated, NEARBY_STALE_SECS))
}

pub open spec fn readings(entries: Seq<(Seq<char>, PeripheralView)>) -> Seq<PeripheralView> {
    entries.map_values(|e: (Seq<char>, PeripheralView)| e.1)
}

/// What the peripheral sources add up to: Bluetooth and HID readings by ID,
/// then the devices of fresh remote entries unless a reading with their ID is
/// at least as recent, then fresh nearby readings unless something of the
/// same kind and name is already listed.
pub open spec fn merged_listing(
    bluetooth: Seq<PeripheralView>,
    hid: Seq<PeripheralView>,
    remote: Option<Seq<(Seq<char>, RemoteView)>>,
    nearby: Option<Seq<(Seq<char>, PeripheralView)>>,
    now: u64,
) -> Listing {
    let m1 = put_all(Map::empty(), bluetooth + hid);
    let m2 = match remote {
        Some(r) => put_fresher_all(m1, remote_devices(kept_remote(r, now))),
        None => m1,
    };
    match nearby {
        Some(n) => put_unlisted_all(m2, readings(kept_nearby(n, now))),
        None => m2,
    }
}

/// The merged peripherals, with the remote and nearby stores as they are
/// left once stale entries are dropped.
pub struct MergedPeripherals {
    pub peripherals: Vec<PeripheralInfo>,
    pub remote: Option<Vec<(String, RemoteEntry)>>,
    pub nearby: Option<Vec<(String, PeripheralInfo)>>,
}

pub open spec fn opt_remote_views(o: Option<Vec<(String, RemoteEntry)>>) -> Option<Seq<(Seq<char>, RemoteView)>> {
    match o {
        Some(v) => Some(remote_views(v@)),
        None => None,
    }
}

pub open spec fn opt_nearby_views(o: Option<Vec<(String, PeripheralInfo)>>) -> Option<Seq<(Seq<char>, PeripheralView)>> {
    match o {
        Some(v) => Some(nearby_views(v@)),
        None => None,
    }
}

fn find_id(v: &Vec<PeripheralInfo>, id: &String) -> (r: Option<usize>)
    ensures
        match r {
            Some(i) => i < v@.len() && v@[i as int]@.id == id@,
            None => forall|i: int| 0 <= i < v@.len() ==> v@[i]@.id != id@,
        },
{
    let mut i: usize = 0;
    while i < v.len()
        invariant
            i <= v@.len(),
            forall|j: int| 0 <= j < i ==> v@[j]@.id != id@,
        decreases v.len() - i,
    {
        if v[i].id == *id {
            return Some(i);
        }
        i = i + 1;
    }
    None
}

proof fn lemma_lists_set(s: Seq<PeripheralView>, m: Listing, i: int, p: PeripheralView)
    requires
        lists(s, m),
        0 <= i < s.len(),
        s[i].id == p.id,
    ensures
        lists(s.update(i, p), m.insert(p.id, p)),
{
    let t = s.update(i, p);
    let n = m.insert(p.id, p);
    assert forall|k: Seq<char>| #[trigger] n.contains_key(k) implies exists|j: int| 0 <= j < t.len() && t[j].id == k by {
        if k == p.id {
            assert(t[i].id == k);
        } else {
            let j = choose|j: int| 0 <= j < s.len() && s[j].id == k;
            assert(t[j].id == k);
        }
    }
}

proof fn lemma_lists_push(s: Seq<PeripheralView>, m: Listing, p: PeripheralView)
    requires
        lists(s, m),
        forall|i: int| 0 <= i < s.len() ==> s[i].id != p.id,
    ensures
        lists(s.push(p), m.insert(p.id, p)),
{
    let t = s.push(p);
    let n = m.insert(p.id, p);
    assert(!m.contains_key(p.id));
    assert forall|k: Seq<char>| #[trigger] n.contains_key(k) implies exists|j: int| 0 <= j < t.len() && t[j].id == k by {
        if k == p.id {
            assert(t[s.len() as int].id == k);
        } else {
            let j = choose|j: int| 0 <= j < s.len() && s[j].id == k;
            assert(t[j].id == k);
        }
    }
}

/// Adds `p` to the listing, replacing the peripheral with the same ID.
fn put(v: &mut Vec<PeripheralInfo>, p: PeripheralInfo, Ghost(m): Ghost<Listing>)
    requires
        lists(views(old(v)@), m),
    ensures
        lists(views(final(v)@), m.insert(p@.id, p@)),
{
    let ghost pv = p@;
    match find_id(v, &p.id) {
        Some(i) => {
            proof {
                lemma_lists_set(views(v@), m, i as int, pv);
            }
            v.set(i, p);
            assert(views(v@) =~= views(old(v)@).update(i as int, pv));
        },
        None => {
            proof {
                lemma_lists_push(views(v@), m, pv);
            }
            v.push(p);
            assert(views(v@) =~= views(old(v)@).push(pv));
        },
    }
}

/// Adds `p` unless the listing has a reading with its ID that is at least as
/// recent.
fn put_if_fresher(v: &mut Vec<PeripheralInfo>, p: PeripheralInfo, Ghost(m): Ghost<Listing>)
    requires
        lists(views(old(v)@), m),
    ensures
        lists(views(final(v)@), put_fresher(m, p@)),
{
    let ghost pv = p@;
    match find_id(v, &p.id) {
        Some(i) => {
            assert(views(v@)[i as int] == v@[i as int]@);
            if v[i].last_updated >= p.last_updated {
                assert(m.contains_key(pv.id) && m[pv.id] == views(v@)[i as int]);
            } else {
                proof {
                    lemma_lists_set(views(v@), m, i as int, pv);
                }
                v.set(i, p);
                assert(views(v@) =~= views(old(v)@).update(i as int, pv));
            }
        },
        None => {
            proof {
                lemma_lists_push(views(v@), m, pv);
                if m.contains_key(pv.id) {
                    let j = choose|j: int| 0 <= j < views(v@).len() && views(v@)[j].id == pv.id;
                }
            }
            v.push(p);
            assert(views(v@) =~= views(old(v)@).push(pv));
        },
    }
}

/// Adds `p` unless the listing has a peripheral of the same kind and name.
fn put_if_unlisted(v: &mut Vec<PeripheralInfo>, p: PeripheralInfo, Ghost(m): Ghost<Listing>)
    requires
        lists(views(old(v)@), m),
    ensures
        lists(views(final(v)@), put_unlisted(m, p@)),
{
    let ghost pv = p@;
    let mut i: usize = 0;
    while i < v.len()
        invariant
            i <= v@.len(),
            pv == p@,
            lists(views(v@), m),
            forall|j: int| 0 <= j < i ==> (#[trigger] views(v@)[j]).name != pv.name || views(v@)[j].peripheral_type != pv.peripheral_type,
        decreases v.len() - i,
    {
        assert(views(v@)[i as int] == v@[i as int]@);
        let same_name = v[i].name == p.name;
        let same_type = v[i].peripheral_type == p.peripheral_type;
        assert(same_name == (v@[i as int].name@ == p.name@));
        assert(same_type == (v@[i as int].peripheral_type == p.peripheral_type));
        if same_name && same_type {
            assert(m.contains_key(views(v@)[i as int].id));
            return;
        }
        assert(views(v@)[i as int].name != pv.name || views(v@)[i as int].peripheral_type != pv.peripheral_type);
        i = i + 1;
    }
    assert forall|k: Seq<char>| #![trigger m[k]] m.contains_key(k) implies !(m[k].name == pv.name
        && m[k].peripheral_type == pv.peripheral_type) by {
        let j = choose|j: int| 0 <= j < views(v@).len() && views(v@)[j].id == k;
        assert(views(v@)[j] == m[k]);
    }
    put(v, p, Ghost(m));
}

proof fn lemma_lists_permutation(a: Seq<PeripheralView>, b: Seq<PeripheralView>, m: Listing)
    requires
        lists(a, m),
        a.to_multiset() == b.to_multiset(),
    ensures
        lists(b, m),
{
    broadcast use vstd::seq_lib::group_to_multiset_ensures;

    assert forall|i: int| 0 <= i < b.len() implies m.contains_key(#[trigger] b[i].id) && m[b[i].id] == b[i] by {
        assert(b.to_multiset().count(b[i]) > 0);
        assert(a.contains(b[i]));
    }
    assert forall|k: Seq<char>| #[trigger] m.contains_key(k) implies exists|i: int| 0 <= i < b.len() && b[i].id == k by {
        let j = choose|j: int| 0 <= j < a.len() && a[j].id == k;
        assert(a.to_multiset().count(a[j]) > 0);
        assert(b.contains(a[j]));
    }
    assert(a.no_duplicates()) by {
        assert forall|i: int, j: int| 0 <= i < a.len() && 0 <= j < a.len() && i != j implies a[i] != a[j] by {
            if i < j {
            } else {
            }
        }
    }
    a.lemma_multiset_has_no_duplicates();
    b.lemma_multiset_has_no_duplicates_conv();
}

/// Merges the peripheral sources into one listing: Bluetooth then HID
/// readings by ID; then, if the remote store is given, the devices of its
/// entries that are still fresh unless a reading with their ID is at least as
/// recent; then, if the nearby store is given, its fresh readings unless
/// something of the same kind and name is already listed. Stale entries are
/// dropped from both stores. The result is in listing order.
pub fn merge_peripherals(
    bluetooth: Vec<PeripheralInfo>,
    hid: Vec<PeripheralInfo>,
    remote: Option<Vec<(String, RemoteEntry)>>,
    nearby: Option<Vec<(String, PeripheralInfo)>>,
    now: u64,
) -> (r: MergedPeripherals)
    ensures
        listed_in_order(views(r.peripherals@)),
        lists(
            views(r.peripherals@),
            merged_listing(views(bluetooth@), views(hid@), opt_remote_views(remote), opt_nearby_views(nearby), now),
        ),
        opt_remote_views(r.remote) == match opt_remote_views(remote) {
            Some(rv) => Some(kept_remote(rv, now)),
            None => None,
        },
        opt_nearby_views(r.nearby) == match opt_nearby_views(nearby) {
            Some(nv) => Some(kept_nearby(nv, now)),
            None => None,
        },
{
    let ghost all = views(bluetooth@) + views(hid@);
    let mut by_id: Vec<PeripheralInfo> = Vec::new();
    let ghost empty: Listing = Map::empty();
    assert(lists(views(by_id@), put_all(empty, all.take(0))));
    let nb = bluetooth.len();
    let mut i: usize = 0;
    while i < nb
        invariant
            nb == bluetooth@.len(),
            i <= nb,
            all == views(bluetooth@) + views(hid@),
            lists(views(by_id@), put_all(empty, all.take(i as int))),
        decreases nb - i,
    {
        let p = bluetooth[i].clone();
        assert(p@ == all[i as int]);
        put(&mut by_id, p, Ghost(put_all(empty, all.take(i as int))));
        assert(all.take(i + 1).drop_last() =~= all.take(i as int));
        i = i + 1;
    }
    let nh = hid.len();
    let mut j: usize = 0;
    while j < nh
        invariant
            nb == bluetooth@.len(),
            nh == hid@.len(),
            j <= nh,
            all == views(bluetooth@) + views(hid@),
            lists(views(by_id@), put_all(empty, all.take(nb + j))),
        decreases nh - j,
    {
        let p = hid[j].clone();
        assert(p@ == all[nb + j]);
        put(&mut by_id, p, Ghost(put_all(empty, all.take(nb + j))));
        assert(all.take(nb + j + 1).drop_last() =~= all.take(nb + j));
        j = j + 1;
    }
    assert(all.take(nb + nh) =~= all);
    let ghost m1 = put_all(empty, all);
    let ghost m2 = match opt_remote_views(remote) {
        Some(rv) => put_fresher_all(m1, remote_devices(kept_remote(rv, now))),
        None => m1,
    };
    let kept_remote_store = match remote {
        Some(entries) => {
            let ghost ev = remote_views(entries@);
            let ghost fresh = |e: (Seq<char>, RemoteView)| entry_fresh(e.1.devices, now);
            let mut kept: Vec<(String, RemoteEntry)> = Vec::new();
            let mut e: usize = 0;
            while e < entries.len()
                invariant
                    e <= entries@.len(),
                    ev == remote_views(entries@),
                    fresh == (|e: (Seq<char>, RemoteView)| entry_fresh(e.1.devices, now)),
                    remote_views(kept@) == ev.take(e as int).filter(fresh),
                decreases entries.len() - e,
            {
                let entry = &entries[e];
                let ghost before = kept@;
                proof {
                    assert(ev.take(e + 1) =~= ev.take(e as int).push(ev[e as int]));
                    ev.take(e as int).lemma_filter_push(ev[e as int], fresh);
                }
                let mut d: usize = 0;
                let mut any = false;
                while d < entry.1.devices.len()
                    invariant
                        d <= entry.1.devices@.len(),
                        any <==> exists|q: int| 0 <= q < d && is_fresh(now, (#[trigger] views(entry.1.devices@)[q]).last_updated, REMOTE_STALE_SECS),
                    decreases entry.1.devices.len() - d,
                {
                    let t = entry.1.devices[d].last_updated;
                    assert(views(entry.1.devices@)[d as int].last_updated == t);
                    let age = if now >= t { now - t } else { 0 };
                    if age < REMOTE_STALE_SECS {
                        any = true;
                    }
                    d = d + 1;
                }
                if any {
                    kept.push((entry.0.clone(), entry.1.clone()));
                    assert(remote_views(kept@) =~= remote_views(before).push(ev[e as int]));
                } else {
                    assert(!fresh(ev[e as int]));
                }
                e = e + 1;
            }
            assert(ev.take(e as int) =~= ev);
            let ghost kv = remote_views(kept@);
            let mut k: usize = 0;
            assert(remote_devices(kv.take(0)) =~= Seq::<PeripheralView>::empty());
            while k < kept.len()
                invariant
                    k <= kept@.len(),
                    kv == remote_views(kept@),
                    lists(views(by_id@), put_fresher_all(m1, remote_devices(kv.take(k as int)))),
                decreases kept.len() - k,
            {
                let ghost base = remote_devices(kv.take(k as int));
                let devs = &kept[k].1.devices;
                let ghost dv = views(devs@);
                assert(dv == kv[k as int].1.devices);
                let mut d: usize = 0;
                assert(base + dv.take(0) =~= base);
                while d < devs.len()
                    invariant
                        d <= devs@.len(),
                        dv == views(devs@),
                        lists(views(by_id@), put_fresher_all(m1, base + dv.take(d as int))),
                    decreases devs.len() - d,
                {
                    let p = devs[d].clone();
                    put_if_fresher(&mut by_id, p, Ghost(put_fresher_all(m1, base + dv.take(d as int))));
                    assert((base + dv.take(d + 1)).drop_last() =~= base + dv.take(d as int));
                    assert((base + dv.take(d + 1)).last() == dv[d as int]);
                    d = d + 1;
                }
                assert(dv.take(d as int) =~= dv);
                assert(kv.take(k + 1).drop_last() =~= kv.take(k as int));
                k = k + 1;
            }
            assert(kv.take(k as int) =~= kv);
            Some(kept)
        },
        None => None,
    };
    let kept_nearby_store = match nearby {
        Some(entries) => {
            let ghost ev = nearby_views(entries@);
            let ghost fresh = |e: (Seq<char>, PeripheralView)| is_fresh(now, e.1.last_updated, NEARBY_STALE_SECS);
            let mut kept: Vec<(String, PeripheralInfo)> = Vec::new();
            let mut e: usize = 0;
            while e < entries.len()
                invariant
                    e <= entries@.len(),
                    ev == nearby_views(entries@),
                    fresh == (|e: (Seq<char>, PeripheralView)| is_fresh(now, e.1.last_updated, NEARBY_STALE_SECS)),
                    nearby_views(kept@) == ev.take(e as int).filter(fresh),
                decreases entries.len() - e,
            {
                let entry = &entries[e];
                let ghost before = kept@;
                proof {
                    assert(ev.take(e + 1) =~= ev.take(e as int).push(ev[e as int]));
                    ev.take(e as int).lemma_filter_push(ev[e as int], fresh);
                }
                let t = entry.1.last_updated;
                let age = if now >= t { now - t } else { 0 };
                if age < NEARBY_STALE_SECS {
                    kept.push((entry.0.clone(), entry.1.clone()));
                    assert(nearby_views(kept@) =~= nearby_views(before).push(ev[e as int]));
                }
                e = e + 1;
            }
            assert(ev.take(e as int) =~= ev);
            let ghost rv = readings(nearby_views(kept@));
            let mut k: usize = 0;
            assert(rv.take(0) =~= Seq::<PeripheralView>::empty());
            while k < kept.len()
                invariant
                    k <= kept@.len(),
                    rv == readings(nearby_views(kept@)),
                    lists(views(by_id@), put_unlisted_all(m2, rv.take(k as int))),
                decreases kept.len() - k,
            {
                let p = kept[k].1.clone();
                assert(p@ == rv[k as int]);
                put_if_unlisted(&mut by_id, p, Ghost(put_unlisted_all(m2, rv.take(k as int))));
                assert(rv.take(k + 1).drop_last() =~= rv.take(k as int));
                k = k + 1;
            }
            assert(rv.take(k as int) =~= rv);
            Some(kept)
        },
        None => None,
    };
    let ghost before_sort = views(by_id@);
    let sorted = sort_peripherals(by_id);
    proof {
        lemma_lists_permutation(before_sort, views(sorted@), merged_listing(views(bluetooth@), views(hid@), opt_remote_views(remote), opt_nearby_views(nearby), now));
    }
    MergedPeripherals { peripherals: sorted, remote: kept_remote_store, nearby: kept_nearby_store }
}

} // verus!

//! One Bluetooth LE scan cycle: which paired headsets were heard (the
//! strongest advertisement of each wins), which iOS devices to ask over
//! GATT, and when a device may be asked again.
use vstd::prelude::*;

use crate::nearby::{
    apple_records, model_kind, parse_proximity_pairing, proximity_info, proximity_peripheral, proximity_reading,
    records, GATT_ID_PREFIX, TYPE_HANDOFF, TYPE_NEARBY_INFO, TYPE_PROXIMITY_PAIRING,
};
use crate::peripheral::{opt_str_view, KnownAccessory, PeripheralInfo, PeripheralView};
use crate::store::{find_last_key, keyed_views, lookup, remove_key, with_entry};
use crate::text::{chars_of, owned, string_of, trim, trim_end_matches_char, trim_end_char, trim_ws, utf8_lossy, utf8_lossy_string};

verus! {

/// Anything weaker than this is likely in another room or flat.
pub const MIN_RSSI: i16 = -75;

/// At most this many devices are asked over GATT per cycle.
pub const MAX_GATT_PER_CYCLE: usize = 3;

/// Scan for this many seconds out of every `SCAN_INTERVAL_SECS`.
pub const SCAN_WINDOW_SECS: u64 = 10;

pub const SCAN_INTERVAL_SECS: u64 = 60;

pub const GATT_TIMEOUT_SECS: u64 = 10;

/// A device that answered, or failed to, is asked again after this long.
pub const GATT_RETRY_SECS: u64 = 5 * 60;

/// A device without a battery service (a Mac) is left alone for this long.
pub const GATT_IGNORE_SECS: u64 = 30 * 60;

/// The preference that turns GATT discovery of iOS devices on.
pub const PREF_DISCOVER_IOS: &'static str = "discoverIosOverBluetooth";

/// An advertisement heard in the scan window: the peripheral, its signal
/// strength if known, and its Apple manufacturer data.
pub struct Advert {
    pub id: String,
    pub rssi: Option<i16>,
    pub data: Vec<u8>,
}

pub struct AdvertView {
    pub id: Seq<char>,
    pub rssi: Option<i16>,
    pub data: Seq<u8>,
}

impl View for Advert {
    type V = AdvertView;

    open spec fn view(&self) -> AdvertView {
        AdvertView { id: self.id@, rssi: self.rssi, data: self.data@ }
    }
}

pub open spec fn advert_views(s: Seq<Advert>) -> Seq<AdvertView> {
    s.map_values(|a: Advert| a@)
}

/// Whether an advertisement is strong enough to be taken into account.
pub open spec fn strong(a: AdvertView) -> bool {
    a.rssi is Some && a.rssi.unwrap() >= MIN_RSSI
}

/// The paired headsets that Proximity Pairing records report, in record
/// order.
pub open spec fn headset_infos(recs: Seq<(u8, Seq<u8>)>, known: Seq<KnownAccessory>, now: u64) -> Seq<PeripheralView>
    decreases recs.len(),
{
    if recs.len() == 0 {
        Seq::empty()
    } else {
        let rest = headset_infos(recs.drop_last(), known, now);
        let last = recs.last();
        if last.0 == TYPE_PROXIMITY_PAIRING {
            match proximity_reading(last.1) {
                Some(pp) => match proximity_info(pp, known, now) {
                    Some(info) => rest.push(info),
                    None => rest,
                },
                None => rest,
            }
        } else {
            rest
        }
    }
}

/// Whether a record asks for a GATT read (Handoff or Nearby Info: an iOS
/// device or a Mac).
pub open spec fn is_device_record(ty: u8) -> bool {
    ty == TYPE_HANDOFF || ty == TYPE_NEARBY_INFO
}

pub open spec fn has_device_record(recs: Seq<(u8, Seq<u8>)>) -> bool {
    exists|i: int| 0 <= i < recs.len() && is_device_record(#[trigger] recs[i].0)
}

/// Headsets by ID with the signal strength they were heard at.
pub type Heard = Seq<(Seq<char>, (i16, PeripheralView))>;

/// Keeps the reading unless its headset was already heard at least as
/// strongly.
pub open spec fn keep_strongest(s: Heard, rssi: i16, info: PeripheralView) -> Heard {
    match lookup(s, info.id) {
        Some(e) => if e.0 >= rssi {
            s
        } else {
            with_entry(s, info.id, (rssi, info))
        },
        None => with_entry(s, info.id, (rssi, info)),
    }
}

pub open spec fn keep_strongest_all(s: Heard, rssi: i16, infos: Seq<PeripheralView>) -> Heard
    decreases infos.len(),
{
    if infos.len() == 0 {
        s
    } else {
        keep_strongest(keep_strongest_all(s, rssi, infos.drop_last()), rssi, infos.last())
    }
}

/// The headsets heard in a cycle: every strong advertisement's readings, the
/// strongest (and of equally strong ones the first) kept for each headset.
pub open spec fn headsets_heard(ads: Seq<AdvertView>, known: Seq<KnownAccessory>, now: u64) -> Heard
    decreases ads.len(),
{
    if ads.len() == 0 {
        Seq::empty()
    } else {
        let s = headsets_heard(ads.drop_last(), known, now);
        let a = ads.last();
        if strong(a) {
            keep_strongest_all(s, a.rssi.unwrap(), headset_infos(records(a.data), known, now))
        } else {
            s
        }
    }
}

/// The devices to consider for a GATT read, once each, with their signal
/// strength: strong advertisements carrying a Handoff or Nearby Info record,
/// and only when GATT discovery is on.
pub open spec fn gatt_candidates(ads: Seq<AdvertView>, discover_ios: bool) -> Seq<(i16, Seq<char>)>
    decreases ads.len(),
{
    if ads.len() == 0 {
        Seq::empty()
    } else {
        let c = gatt_candidates(ads.drop_last(), discover_ios);
        let a = ads.last();
        if discover_ios && strong(a) && has_device_record(records(a.data)) && !(exists|i: int|
            0 <= i < c.len() && (#[trigger] c[i]).1 == a.id) {
            c.push((a.rssi.unwrap(), a.id))
        } else {
            c
        }
    }
}

/// After a reading, its headset is held at the stronger of the reading's and
/// the earlier signal, and a weaker or equal reading never replaces an
/// earlier one; other headsets are untouched.
pub proof fn lemma_keep_strongest(s: Heard, rssi: i16, info: PeripheralView, other: Seq<char>)
    ensures
        lookup(keep_strongest(s, rssi, info), info.id) matches Some(e) && e.0 >= rssi && (lookup(s, info.id) matches Some(
            p,
        ) ==> e.0 >= p.0),
        (lookup(s, info.id) matches Some(p) && p.0 >= rssi) ==> keep_strongest(s, rssi, info) == s,
        other != info.id ==> lookup(keep_strongest(s, rssi, info), other) == lookup(s, other),
{
    crate::store::lemma_lookup_with_entry(s, info.id, (rssi, info), other);
}

/// Keeping readings never weakens what a headset is held at, and each
/// reading's headset ends up held at least at the reading's strength.
pub proof fn lemma_keep_strongest_all(s: Heard, rssi: i16, infos: Seq<PeripheralView>)
    ensures
        forall|k: Seq<char>|
            #![trigger lookup(s, k)]
            lookup(s, k) is Some ==> (lookup(keep_strongest_all(s, rssi, infos), k) matches Some(e) && e.0
                >= lookup(s, k).unwrap().0),
        forall|t: int|
            0 <= t < infos.len() ==> (lookup(keep_strongest_all(s, rssi, infos), (#[trigger] infos[t]).id) matches Some(
                e,
            ) && e.0 >= rssi),
    decreases infos.len(),
{
    if infos.len() > 0 {
        let d = infos.drop_last();
        lemma_keep_strongest_all(s, rssi, d);
        let mid = keep_strongest_all(s, rssi, d);
        let last = infos.last();
        assert forall|k: Seq<char>| #![trigger lookup(s, k)] lookup(s, k) is Some implies (lookup(
            keep_strongest_all(s, rssi, infos),
            k,
        ) matches Some(e) && e.0 >= lookup(s, k).unwrap().0) by {
            lemma_keep_strongest(mid, rssi, last, k);
            assert(lookup(mid, k) is Some);
        }
        assert forall|t: int| 0 <= t < infos.len() implies (lookup(
            keep_strongest_all(s, rssi, infos),
            (#[trigger] infos[t]).id,
        ) matches Some(e) && e.0 >= rssi) by {
            lemma_keep_strongest(mid, rssi, last, infos[t].id);
            if t < d.len() {
                assert(d[t] == infos[t]);
                assert(lookup(mid, d[t].id) is Some);
            }
        }
    }
}

/// Over a whole cycle, every paired headset heard in a strong advertisement
/// is kept, at no less than the strength of any advertisement it was heard
/// in: the strongest advertisement wins.
pub proof fn lemma_strongest_advert_wins(ads: Seq<AdvertView>, known: Seq<KnownAccessory>, now: u64)
    ensures
        forall|a: int, t: int|
            #![trigger ads[a], headset_infos(records(ads[a].data), known, now)[t]]
            0 <= a < ads.len() && strong(ads[a]) && 0 <= t < headset_infos(records(ads[a].data), known, now).len()
                ==> (lookup(headsets_heard(ads, known, now), headset_infos(records(ads[a].data), known, now)[t].id) matches Some(
                e,
            ) && e.0 >= ads[a].rssi.unwrap()),
    decreases ads.len(),
{
    if ads.len() > 0 {
        let d = ads.drop_last();
        lemma_strongest_advert_wins(d, known, now);
        let s = headsets_heard(d, known, now);
        let last = ads.last();
        let infos = headset_infos(records(last.data), known, now);
        if strong(last) {
            lemma_keep_strongest_all(s, last.rssi.unwrap(), infos);
        }
        assert forall|a: int, t: int|
            #![trigger ads[a], headset_infos(records(ads[a].data), known, now)[t]]
            0 <= a < ads.len() && strong(ads[a]) && 0 <= t < headset_infos(records(ads[a].data), known, now).len()
                implies (lookup(headsets_heard(ads, known, now), headset_infos(records(ads[a].data), known, now)[t].id) matches Some(
                e,
            ) && e.0 >= ads[a].rssi.unwrap()) by {
            if a < d.len() {
                assert(d[a] == ads[a]);
                let id = headset_infos(records(d[a].data), known, now)[t].id;
                assert(lookup(s, id) is Some);
            }
        }
    }
}

/// The plan of a scan cycle.
pub struct CyclePlan {
    /// The strongest reading of each paired headset heard.
    pub headsets: Vec<(String, (i16, PeripheralInfo))>,
    /// The devices that may be asked over GATT, with their signal strength.
    pub candidates: Vec<(i16, String)>,
}

pub open spec fn cand_views(s: Seq<(i16, String)>) -> Seq<(i16, Seq<char>)> {
    s.map_values(|c: (i16, String)| (c.0, c.1@))
}

fn keep_strongest_exec(s: &mut Vec<(String, (i16, PeripheralInfo))>, rssi: i16, info: PeripheralInfo)
    ensures
        keyed_views(final(s)@) == keep_strongest(keyed_views(old(s)@), rssi, info@),
{
    match find_last_key(s, &info.id) {
        Some(i) => {
            if s[i].1.0 >= rssi {
                return ;
            }
        },
        None => {},
    }
    let k = info.id.clone();
    let ghost iv = info@;
    remove_key(s, &k);
    let ghost before = s@;
    s.push((k, (rssi, info)));
    assert(keyed_views(s@) =~= keyed_views(before).push((iv.id, (rssi, iv))));
}

fn has_candidate(c: &Vec<(i16, String)>, id: &String) -> (r: bool)
    ensures
        r == exists|i: int| 0 <= i < cand_views(c@).len() && (#[trigger] cand_views(c@)[i]).1 == id@,
{
    let mut i: usize = 0;
    while i < c.len()
        invariant
            i <= c@.len(),
            forall|j: int| 0 <= j < i ==> (#[trigger] cand_views(c@)[j]).1 != id@,
        decreases c.len() - i,
    {
        if c[i].1 == *id {
            assert(cand_views(c@)[i as int].1 == id@);
            return true;
        }
        i = i + 1;
    }
    false
}

/// Plans a scan cycle from the advertisements heard: the strongest reading of
/// each paired headset, and the devices that may be asked over GATT.
pub fn plan_cycle(ads: &Vec<Advert>, known: &[KnownAccessory], discover_ios: bool, now: u64) -> (r: CyclePlan)
    ensures
        keyed_views(r.headsets@) == headsets_heard(advert_views(ads@), known@, now),
        cand_views(r.candidates@) == gatt_candidates(advert_views(ads@), discover_ios),
{
    let ghost av = advert_views(ads@);
    let mut heard: Vec<(String, (i16, PeripheralInfo))> = Vec::new();
    let mut cands: Vec<(i16, String)> = Vec::new();
    let mut n: usize = 0;
    assert(av.take(0) =~= Seq::<AdvertView>::empty());
    assert(keyed_views(heard@) =~= Seq::<(Seq<char>, (i16, PeripheralView))>::empty());
    assert(cand_views(cands@) =~= Seq::<(i16, Seq<char>)>::empty());
    while n < ads.len()
        invariant
            n <= ads@.len(),
            av == advert_views(ads@),
            keyed_views(heard@) == headsets_heard(av.take(n as int), known@, now),
            cand_views(cands@) == gatt_candidates(av.take(n as int), discover_ios),
        decreases ads.len() - n,
    {
        let a = &ads[n];
        proof {
            assert(av.take(n + 1).drop_last() =~= av.take(n as int));
            assert(av.take(n + 1).last() == a@);
        }
        let is_strong = match a.rssi {
            Some(r) => r >= MIN_RSSI,
            None => false,
        };
        if is_strong {
            let rssi = match a.rssi {
                Some(r) => r,
                None => 0,
            };
            let recs = apple_records(&a.data);
            let ghost rv = records(a.data@);
            let ghost start = keyed_views(heard@);
            let mut asks = false;
            let mut j: usize = 0;
            assert(rv.take(0) =~= Seq::<(u8, Seq<u8>)>::empty());
            while j < recs.len()
                invariant
                    j <= recs@.len(),
                    recs@.len() == rv.len(),
                    forall|t: int| 0 <= t < recs@.len() ==> (#[trigger] recs@[t]).0 == rv[t].0 && recs@[t].1@ == rv[t].1,
                    keyed_views(heard@) == keep_strongest_all(start, rssi, headset_infos(rv.take(j as int), known@, now)),
                    asks == has_device_record(rv.take(j as int)),
                decreases recs.len() - j,
            {
                let ghost before = rv.take(j as int);
                proof {
                    assert(rv.take(j + 1).drop_last() =~= before);
                    assert(rv.take(j + 1).last() == rv[j as int]);
                }
                let ty = recs[j].0;
                if ty == TYPE_PROXIMITY_PAIRING {
                    match parse_proximity_pairing(recs[j].1.as_slice()) {
                        Some(pp) => {
                            match proximity_peripheral(&pp, known, now) {
                                Some(info) => {
                                    let ghost iv = info@;
                                    keep_strongest_exec(&mut heard, rssi, info);
                                    proof {
                                        let hs = headset_infos(before, known@, now);
                                        assert(headset_infos(rv.take(j + 1), known@, now) == hs.push(iv));
                                        assert(hs.push(iv).drop_last() =~= hs);
                                    }
                                },
                                None => {},
                            }
                        },
                        None => {},
                    }
                }
                if ty == TYPE_HANDOFF || ty == TYPE_NEARBY_INFO {
                    asks = true;
                    assert(rv.take(j + 1)[j as int].0 == ty);
                } else {
                    proof {
                        if has_device_record(rv.take(j + 1)) {
                            let t = choose|t: int| 0 <= t < rv.take(j + 1).len() && is_device_record(
                                #[trigger] rv.take(j + 1)[t].0,
                            );
                            assert(t < j);
                            assert(rv.take(j + 1)[t] == before[t]);
                        }
                        if has_device_record(before) {
                            let t = choose|t: int| 0 <= t < before.len() && is_device_record(#[trigger] before[t].0);
                            assert(rv.take(j + 1)[t] == before[t]);
                        }
                    }
                }
                proof {
                    if asks && ty != TYPE_HANDOFF && ty != TYPE_NEARBY_INFO {
                        let t = choose|t: int| 0 <= t < before.len() && is_device_record(#[trigger] before[t].0);
                        assert(rv.take(j + 1)[t] == before[t]);
                    }
                }
                j = j + 1;
            }
            proof {
                assert(rv.take(j as int) =~= rv);
            }
            if discover_ios && asks {
                if !has_candidate(&cands, &a.id) {
                    let ghost before = cands@;
                    cands.push((rssi, a.id.clone()));
                    assert(cand_views(cands@) =~= cand_views(before).push((rssi, a.id@)));
                }
            }
        }
        n = n + 1;
    }
    proof {
        assert(av.take(n as int) =~= av);
    }
    CyclePlan { headsets: heard, candidates: cands }
}

/// When each device may next be asked over GATT, by device, in
/// seconds of a monotonic clock (the unit of the retry constants).
pub struct GattSchedule {
    next_attempt: Vec<(String, u64)>,
}

/// Whether a device may be asked at `now`: never deferred, or its time has
/// come.
pub open spec fn due_at(t: Seq<(Seq<char>, u64)>, id: Seq<char>, now: u64) -> bool {
    match lookup(t, id) {
        Some(at) => now >= at,
        None => true,
    }
}

/// The deferrals still pending after `now`.
pub open spec fn pending_after(t: Seq<(Seq<char>, u64)>, now: u64) -> Seq<(Seq<char>, u64)>
    decreases t.len(),
{
    if t.len() == 0 {
        t
    } else {
        let rest = pending_after(t.drop_last(), now);
        if t.last().1 > now {
            rest.push(t.last())
        } else {
            rest
        }
    }
}

impl GattSchedule {
    pub closed spec fn table(&self) -> Seq<(Seq<char>, u64)> {
        keyed_views(self.next_attempt@)
    }

    pub fn new() -> (r: Self)
        ensures
            r.table().len() == 0,
    {
        GattSchedule { next_attempt: Vec::new() }
    }

    pub fn due(&self, id: &String, now: u64) -> (r: bool)
        ensures
            r == due_at(self.table(), id@, now),
    {
        match find_last_key(&self.next_attempt, id) {
            Some(i) => now >= self.next_attempt[i].1,
            None => true,
        }
    }

    /// Defers a device by `by` seconds from `now`. Deferrals that have
    /// already passed are dropped first, so rotating addresses do not pile
    /// up.
    pub fn defer(&mut self, id: String, now: u64, by: u64)
        requires
            now + by <= u64::MAX,
        ensures
            final(self).table() == with_entry(pending_after(old(self).table(), now), id@, (now + by) as u64),
            forall|at: u64| #[trigger] due_at(final(self).table(), id@, at) == (at >= now + by),
    {
        let ghost orig = keyed_views(self.next_attempt@);
        let mut i: usize = 0;
        let ghost mut j: int = 0;
        while i < self.next_attempt.len()
            invariant
                0 <= i <= self.next_attempt@.len(),
                0 <= j <= orig.len(),
                self.next_attempt@.len() - i == orig.len() - j,
                keyed_views(self.next_attempt@).take(i as int) == pending_after(orig.take(j), now),
                keyed_views(self.next_attempt@).skip(i as int) == orig.skip(j),
            decreases self.next_attempt@.len() - i,
        {
            let ghost before = keyed_views(self.next_attempt@);
            assert(orig.take(j + 1).drop_last() =~= orig.take(j));
            assert(orig[j] == before.skip(i as int)[0]);
            if self.next_attempt[i].1 <= now {
                self.next_attempt.remove(i);
                proof {
                    let v = keyed_views(self.next_attempt@);
                    assert(v =~= before.take(i as int) + before.skip(i + 1));
                    assert(v.take(i as int) =~= before.take(i as int));
                    assert forall|t: int| 0 <= t < v.skip(i as int).len() implies #[trigger] v.skip(i as int)[t]
                        == orig.skip(j + 1)[t] by {
                        assert(before.skip(i as int)[t + 1] == orig.skip(j)[t + 1]);
                    }
                    assert(v.skip(i as int) =~= orig.skip(j + 1));
                    j = j + 1;
                }
            } else {
                proof {
                    let v = keyed_views(self.next_attempt@);
                    assert(v.take(i + 1) =~= before.take(i as int).push(orig[j]));
                    assert forall|t: int| 0 <= t < v.skip(i + 1).len() implies #[trigger] v.skip(i + 1)[t]
                        == orig.skip(j + 1)[t] by {
                        assert(before.skip(i as int)[t + 1] == orig.skip(j)[t + 1]);
                    }
                    assert(v.skip(i + 1) =~= orig.skip(j + 1));
                    j = j + 1;
                }
                i = i + 1;
            }
        }
        proof {
            assert(keyed_views(self.next_attempt@).take(i as int) =~= keyed_views(self.next_attempt@));
            assert(orig.take(j) =~= orig);
        }
        remove_key(&mut self.next_attempt, &id);
        let ghost kept = keyed_views(self.next_attempt@);
        let ghost idv = id@;
        self.next_attempt.push((id, now + by));
        assert(keyed_views(self.next_attempt@) =~= kept.push((idv, (now + by) as u64)));
        proof {
            assert forall|at: u64| #[trigger] due_at(self.table(), idv, at) == (at >= now + by) by {
                lemma_defer(keyed_views(old(self).next_attempt@), idv, now, by, at, idv);
            }
        }
    }
}

/// Every deferral left pending after `now` is for a time after `now`, and
/// every such deferral is kept.
pub proof fn lemma_pending_after(t: Seq<(Seq<char>, u64)>, now: u64, k: Seq<char>)
    ensures
        lookup(pending_after(t, now), k) matches Some(at) ==> at > now,
        (lookup(t, k) matches Some(at) && at > now) ==> lookup(pending_after(t, now), k) == lookup(t, k),
    decreases t.len(),
{
    if t.len() > 0 {
        let d = t.drop_last();
        lemma_pending_after(d, now, k);
        let rest = pending_after(d, now);
        if t.last().1 > now {
            assert(rest.push(t.last()).drop_last() =~= rest);
        }
    }
}

/// After a deferral the device is not due until `by` seconds have passed
/// from `now`, and due from then on; passed deferrals are dropped, pending
/// ones of other devices kept.
pub proof fn lemma_defer(t: Seq<(Seq<char>, u64)>, id: Seq<char>, now: u64, by: u64, at: u64, other: Seq<char>)
    requires
        now + by <= u64::MAX,
    ensures
        ({
            let d = with_entry(pending_after(t, now), id, (now + by) as u64);
            &&& due_at(d, id, at) == (at >= now + by)
            &&& other != id ==> (lookup(d, other) matches Some(x) ==> x > now)
            &&& other != id ==> ((lookup(t, other) matches Some(x) && x > now) ==> lookup(d, other) == lookup(t, other))
        }),
{
    crate::store::lemma_lookup_with_entry(pending_after(t, now), id, (now + by) as u64, other);
    lemma_pending_after(t, now, other);
}

/// The candidates that are due, in order.
pub open spec fn due_candidates(c: Seq<(i16, Seq<char>)>, t: Seq<(Seq<char>, u64)>, now: u64) -> Seq<(i16, Seq<char>)>
    decreases c.len(),
{
    if c.len() == 0 {
        c
    } else {
        let rest = due_candidates(c.drop_last(), t, now);
        if due_at(t, c.last().1, now) {
            rest.push(c.last())
        } else {
            rest
        }
    }
}

/// The position of the first of the strongest candidates.
pub open spec fn first_strongest(c: Seq<(i16, Seq<char>)>) -> int
    decreases c.len(),
{
    if c.len() <= 1 {
        0
    } else {
        let j = first_strongest(c.drop_last());
        if c.last().0 > c[j].0 {
            c.len() - 1
        } else {
            j
        }
    }
}

/// Up to `k` candidates, strongest first, equally strong ones in the order
/// they were heard.
pub open spec fn strongest_first(c: Seq<(i16, Seq<char>)>, k: nat) -> Seq<Seq<char>>
    decreases k,
{
    if k == 0 || c.len() == 0 {
        Seq::empty()
    } else {
        let i = first_strongest(c);
        seq![c[i].1] + strongest_first(c.remove(i), (k - 1) as nat)
    }
}

/// The device asked first is at least as strong as every other candidate,
/// and stronger than every candidate heard before it.
pub proof fn lemma_first_strongest(c: Seq<(i16, Seq<char>)>)
    requires
        c.len() > 0,
    ensures
        0 <= first_strongest(c) < c.len(),
        forall|t: int| 0 <= t < c.len() ==> #[trigger] c[t].0 <= c[first_strongest(c)].0,
        forall|t: int| 0 <= t < first_strongest(c) ==> #[trigger] c[t].0 < c[first_strongest(c)].0,
    decreases c.len(),
{
    if c.len() > 1 {
        let d = c.drop_last();
        lemma_first_strongest(d);
        assert forall|t: int| 0 <= t < d.len() implies #[trigger] d[t] == c[t] by {}
        let j = first_strongest(d);
        assert(d[j] == c[j]);
        let f = first_strongest(c);
        assert forall|t: int| 0 <= t < c.len() implies #[trigger] c[t].0 <= c[f].0 by {
            if t < d.len() {
                assert(d[t].0 <= d[j].0);
            }
        }
        assert forall|t: int| 0 <= t < f implies #[trigger] c[t].0 < c[f].0 by {
            if t < d.len() && f == j {
                assert(d[t].0 < d[j].0);
            } else if t < d.len() {
                assert(d[t].0 <= d[j].0);
            }
        }
    }
}

/// As many devices are asked as the limit allows and there are due
/// candidates, each of them a due candidate.
pub proof fn lemma_strongest_first_len(c: Seq<(i16, Seq<char>)>, k: nat)
    ensures
        strongest_first(c, k).len() == if k < c.len() { k } else { c.len() },
        forall|t: int|
            0 <= t < strongest_first(c, k).len() ==> exists|j: int|
                0 <= j < c.len() && (#[trigger] c[j]).1 == #[trigger] strongest_first(c, k)[t],
    decreases k,
{
    if k > 0 && c.len() > 0 {
        let i = first_strongest(c);
        lemma_first_strongest(c);
        let rest = c.remove(i);
        lemma_strongest_first_len(rest, (k - 1) as nat);
        let r = strongest_first(c, k);
        assert forall|t: int| 0 <= t < r.len() implies exists|j: int| 0 <= j < c.len() && (#[trigger] c[j]).1 == #[trigger] r[t] by {
            if t == 0 {
                assert(c[i].1 == r[0]);
            } else {
                let q = strongest_first(rest, (k - 1) as nat);
                assert(r[t] == q[t - 1]);
                let j = choose|j: int| 0 <= j < rest.len() && (#[trigger] rest[j]).1 == #[trigger] q[t - 1];
                if j < i {
                    assert(rest[j] == c[j]);
                } else {
                    assert(rest[j] == c[j + 1]);
                }
            }
        }
    }
}

fn first_strongest_index(c: &Vec<(i16, String)>) -> (r: usize)
    requires
        c@.len() > 0,
    ensures
        r == first_strongest(cand_views(c@)),
        r < c@.len(),
{
    let ghost cv = cand_views(c@);
    let mut best: usize = 0;
    let mut i: usize = 1;
    assert(cv.take(1).len() <= 1);
    while i < c.len()
        invariant
            1 <= i <= c@.len(),
            cv == cand_views(c@),
            best < i,
            best == first_strongest(cv.take(i as int)),
        decreases c.len() - i,
    {
        proof {
            assert(cv.take(i + 1).drop_last() =~= cv.take(i as int));
            assert(cv.take(i + 1)[best as int] == cv[best as int]);
        }
        if c[i].0 > c[best].0 {
            best = i;
        }
        i = i + 1;
    }
    assert(cv.take(i as int) =~= cv);
    best
}

pub open spec fn string_views(s: Seq<String>) -> Seq<Seq<char>> {
    s.map_values(|x: String| x@)
}

/// The devices to ask over GATT this cycle: of the candidates that are due,
/// the strongest, at most three.
pub fn gatt_targets(cands: &Vec<(i16, String)>, schedule: &GattSchedule, now: u64) -> (r: Vec<String>)
    ensures
        string_views(r@) == strongest_first(
            due_candidates(cand_views(cands@), schedule.table(), now),
            MAX_GATT_PER_CYCLE as nat,
        ),
{
    let ghost cv = cand_views(cands@);
    let mut pool: Vec<(i16, String)> = Vec::new();
    let mut i: usize = 0;
    assert(cv.take(0) =~= Seq::<(i16, Seq<char>)>::empty());
    while i < cands.len()
        invariant
            i <= cands@.len(),
            cv == cand_views(cands@),
            cand_views(pool@) == due_candidates(cv.take(i as int), schedule.table(), now),
        decreases cands.len() - i,
    {
        proof {
            assert(cv.take(i + 1).drop_last() =~= cv.take(i as int));
        }
        if schedule.due(&cands[i].1, now) {
            let ghost before = pool@;
            pool.push((cands[i].0, cands[i].1.clone()));
            assert(cand_views(pool@) =~= cand_views(before).push(cv[i as int]));
        }
        i = i + 1;
    }
    assert(cv.take(i as int) =~= cv);
    let ghost due = cand_views(pool@);
    let mut out: Vec<String> = Vec::new();
    let mut k: usize = 0;
    while k < MAX_GATT_PER_CYCLE && pool.len() > 0
        invariant
            k <= MAX_GATT_PER_CYCLE,
            string_views(out@) + strongest_first(cand_views(pool@), (MAX_GATT_PER_CYCLE - k) as nat)
                == strongest_first(due, MAX_GATT_PER_CYCLE as nat),
        decreases MAX_GATT_PER_CYCLE - k,
    {
        let ghost pv = cand_views(pool@);
        let b = first_strongest_index(&pool);
        let ghost before_out = out@;
        let (_, id) = pool.remove(b);
        out.push(id);
        proof {
            assert(cand_views(pool@) =~= pv.remove(b as int));
            assert(string_views(out@) =~= string_views(before_out).push(pv[b as int].1));
            let rest = strongest_first(pv.remove(b as int), (MAX_GATT_PER_CYCLE - k - 1) as nat);
            assert(strongest_first(pv, (MAX_GATT_PER_CYCLE - k) as nat) == seq![pv[b as int].1] + rest);
            assert(string_views(out@) + rest =~= string_views(before_out) + (seq![pv[b as int].1] + rest));
        }
        k = k + 1;
    }
    proof {
        assert(strongest_first(cand_views(pool@), (MAX_GATT_PER_CYCLE - k) as nat) =~= Seq::<Seq<char>>::empty());
        assert(string_views(out@) + Seq::<Seq<char>>::empty() =~= string_views(out@));
    }
    out
}

/// What a GATT read came to.
pub enum GattOutcome {
    Found(PeripheralInfo),
    /// Not an iOS device (a Mac, say), or no battery service.
    NotApplicable,
    Failed,
}

/// How long to leave a device alone after a GATT read: devices without a
/// battery service for half an hour, the others for five minutes.
pub open spec fn retry_secs(o: GattOutcome) -> u64 {
    match o {
        GattOutcome::NotApplicable => GATT_IGNORE_SECS,
        _ => GATT_RETRY_SECS,
    }
}

pub fn retry_after_secs(o: &GattOutcome) -> (r: u64)
    ensures
        r == retry_secs(*o),
{
    match o {
        GattOutcome::NotApplicable => GATT_IGNORE_SECS,
        _ => GATT_RETRY_SECS,
    }
}

/// A model number as read over GATT: decoded leniently, trailing NULs and
/// surrounding whitespace removed.
pub open spec fn model_text_of(bytes: Seq<u8>) -> Seq<char> {
    trim_ws(trim_end_char(utf8_lossy(bytes), '\0'))
}

pub fn model_text(bytes: &[u8]) -> (r: String)
    ensures
        r@ == model_text_of(bytes@),
{
    let s = utf8_lossy_string(bytes);
    clean_model_text(s.as_str())
}

/// A decoded model number with trailing NULs and surrounding whitespace
/// removed.
pub fn clean_model_text(s: &str) -> (r: String)
    ensures
        r@ == trim_ws(trim_end_char(s@, '\0')),
{
    let c = chars_of(s);
    let c = trim_end_matches_char(&c, '\0');
    let c = trim(&c);
    string_of(&c)
}

/// The reading a GATT read gives: an iOS device (by its model number) with a
/// battery level. It is named by its advertised name, else its model, else
/// "iPhone", keyed by that name, and its level is capped at 100.
pub open spec fn gatt_info(
    model: Option<Seq<char>>,
    level: Option<u8>,
    local_name: Option<Seq<char>>,
    now: u64,
) -> Option<PeripheralView> {
    let kind = match model {
        Some(m) => model_kind(m),
        None => None,
    };
    if kind is Some && level is Some {
        let name = match local_name {
            Some(n) => n,
            None => match model {
                Some(m) => m,
                None => "iPhone"@,
            },
        };
        Some(
            PeripheralView {
                id: GATT_ID_PREFIX@ + name,
                name,
                peripheral_type: kind.unwrap(),
                battery_level: if level.unwrap() <= 100 { level.unwrap() } else { 100 },
                is_charging: false,
                cells: Seq::empty(),
                via: Some("Bluetooth LE"@),
                last_updated: now,
            },
        )
    } else {
        None
    }
}

pub fn gatt_outcome(model: Option<String>, level: Option<u8>, local_name: Option<String>, now: u64) -> (r: GattOutcome)
    ensures
        match gatt_info(opt_str_view(model), level, opt_str_view(local_name), now) {
            Some(v) => r matches GattOutcome::Found(info) && info@ == v,
            None => r is NotApplicable,
        },
{
    let kind = match &model {
        Some(m) => crate::nearby::model_to_type(m.as_str()),
        None => None,
    };
    match (kind, level) {
        (Some(peripheral_type), Some(l)) => {
            let name = match local_name {
                Some(n) => n,
                None => match model {
                    Some(m) => m,
                    None => owned("iPhone"),
                },
            };
            let p = chars_of(GATT_ID_PREFIX);
            let n = chars_of(name.as_str());
            let mut id = p;
            let mut i: usize = 0;
            while i < n.len()
                invariant
                    i <= n@.len(),
                    n@ == name@,
                    id@ == GATT_ID_PREFIX@ + n@.take(i as int),
                decreases n.len() - i,
            {
                id.push(n[i]);
                assert(n@.take(i + 1) =~= n@.take(i as int).push(n@[i as int]));
                i = i + 1;
            }
            assert(n@.take(i as int) =~= n@);
            let cells = Vec::new();
            let info = PeripheralInfo {
                id: string_of(&id),
                name,
                peripheral_type,
                battery_level: if l <= 100 { l } else { 100 },
                is_charging: false,
                cells,
                via: Some(owned("Bluetooth LE")),
                last_updated: now,
            };
            assert(info@.cells =~= Seq::<crate::peripheral::CellView>::empty());
            GattOutcome::Found(info)
        },
        _ => GattOutcome::NotApplicable,
    }
}

} // verus!

//! The app's shared peripheral store: the last listing, the lockdown workers'
//! entries, the nearby readings, and the known accessories.
use vstd::prelude::*;

use crate::peripheral::{
    kept_nearby, kept_remote, listed_in_order, lists, merge_peripherals, merged_listing, nearby_views,
    remote_views, views, KnownAccessory, PeripheralInfo, PeripheralView, RemoteEntry, RemoteView,
};
use crate::text::{chars_of, has_prefix, owned, starts_with_lit};

verus! {

/// Keyed entries as values.
pub open spec fn keyed_views<V: View>(s: Seq<(String, V)>) -> Seq<(Seq<char>, V::V)> {
    s.map_values(|e: (String, V)| (e.0@, e.1@))
}

/// The entries of `s` whose key is not `k`, in order.
pub open spec fn without_key<V>(s: Seq<(Seq<char>, V)>, k: Seq<char>) -> Seq<(Seq<char>, V)>
    decreases s.len(),
{
    if s.len() == 0 {
        s
    } else {
        let rest = without_key(s.drop_last(), k);
        if s.last().0 == k {
            rest
        } else {
            rest.push(s.last())
        }
    }
}

/// The value stored under `k`: the last entry with that key.
pub open spec fn lookup<V>(s: Seq<(Seq<char>, V)>, k: Seq<char>) -> Option<V>
    decreases s.len(),
{
    if s.len() == 0 {
        None
    } else if s.last().0 == k {
        Some(s.last().1)
    } else {
        lookup(s.drop_last(), k)
    }
}

/// `s` with `v` stored under `k`, replacing what was there.
pub open spec fn with_entry<V>(s: Seq<(Seq<char>, V)>, k: Seq<char>, v: V) -> Seq<(Seq<char>, V)> {
    without_key(s, k).push((k, v))
}

/// `s` without the entry under `k` if that entry was written by generation
/// `g`; unchanged otherwise.
pub open spec fn cleared(s: Seq<(Seq<char>, RemoteView)>, k: Seq<char>, g: u64) -> Seq<(Seq<char>, RemoteView)> {
    match lookup(s, k) {
        Some(e) => if e.generation == g {
            without_key(s, k)
        } else {
            s
        },
        None => s,
    }
}

/// Dropping one key leaves every other key's value as it was.
pub proof fn lemma_without_key<V>(s: Seq<(Seq<char>, V)>, k: Seq<char>, other: Seq<char>)
    ensures
        lookup(without_key(s, k), k) is None,
        other != k ==> lookup(without_key(s, k), other) == lookup(s, other),
    decreases s.len(),
{
    if s.len() > 0 {
        lemma_without_key(s.drop_last(), k, other);
        let rest = without_key(s.drop_last(), k);
        if s.last().0 != k {
            assert(rest.push(s.last()).drop_last() =~= rest);
        }
    }
}

/// What is stored under a key is read back; other keys are unaffected.
pub proof fn lemma_lookup_with_entry<V>(s: Seq<(Seq<char>, V)>, k: Seq<char>, v: V, other: Seq<char>)
    ensures
        lookup(with_entry(s, k, v), k) == Some(v),
        other != k ==> lookup(with_entry(s, k, v), other) == lookup(s, other),
{
    lemma_without_key(s, k, other);
    assert(with_entry(s, k, v).drop_last() =~= without_key(s, k));
}

/// A worker's clear removes its own entry, and only that entry.
pub proof fn lemma_clear_own_generation(s: Seq<(Seq<char>, RemoteView)>, k: Seq<char>, e: RemoteView, other: Seq<char>)
    ensures
        lookup(cleared(with_entry(s, k, e), k, e.generation), k) is None,
        other != k ==> lookup(cleared(with_entry(s, k, e), k, e.generation), other) == lookup(s, other),
{
    lemma_lookup_with_entry(s, k, e, other);
    lemma_without_key(with_entry(s, k, e), k, other);
}

/// A worker whose entry was replaced by a later generation cannot clear it.
pub proof fn lemma_clear_other_generation(s: Seq<(Seq<char>, RemoteView)>, k: Seq<char>, e: RemoteView, g: u64)
    requires
        g != e.generation,
    ensures
        cleared(with_entry(s, k, e), k, g) == with_entry(s, k, e),
        lookup(cleared(with_entry(s, k, e), k, g), k) == Some(e),
{
    lemma_lookup_with_entry(s, k, e, k);
}

/// Removes the entries under `k`, keeping the others in order.
pub(crate) fn remove_key<V: View>(v: &mut Vec<(String, V)>, k: &String)
    ensures
        keyed_views(final(v)@) == without_key(keyed_views(old(v)@), k@),
{
    let ghost orig = keyed_views(v@);
    let mut i: usize = 0;
    let ghost mut j: int = 0;
    while i < v.len()
        invariant
            0 <= i <= v@.len(),
            0 <= j <= orig.len(),
            v@.len() - i == orig.len() - j,
            keyed_views(v@).take(i as int) == without_key(orig.take(j), k@),
            keyed_views(v@).skip(i as int) == orig.skip(j),
        decreases v@.len() - i,
    {
        let ghost before = keyed_views(v@);
        assert(orig.take(j + 1).drop_last() =~= orig.take(j));
        assert(orig[j] == before.skip(i as int)[0]);
        if v[i].0 == *k {
            v.remove(i);
            proof {
                assert(keyed_views(v@) =~= before.take(i as int) + before.skip(i + 1));
                assert(keyed_views(v@).take(i as int) =~= before.take(i as int));
                assert forall|t: int| 0 <= t < keyed_views(v@).skip(i as int).len() implies
                    #[trigger] keyed_views(v@).skip(i as int)[t] == orig.skip(j + 1)[t] by {
                    assert(before.skip(i as int)[t + 1] == orig.skip(j)[t + 1]);
                }
                assert(keyed_views(v@).skip(i as int) =~= orig.skip(j + 1));
                j = j + 1;
            }
        } else {
            proof {
                assert(keyed_views(v@).take(i + 1) =~= before.take(i as int).push(orig[j]));
                assert forall|t: int| 0 <= t < keyed_views(v@).skip(i + 1).len() implies
                    #[trigger] keyed_views(v@).skip(i + 1)[t] == orig.skip(j + 1)[t] by {
                    assert(before.skip(i as int)[t + 1] == orig.skip(j)[t + 1]);
                }
                assert(keyed_views(v@).skip(i + 1) =~= orig.skip(j + 1));
                j = j + 1;
            }
            i = i + 1;
        }
    }
    assert(keyed_views(v@).take(i as int) =~= keyed_views(v@));
    assert(orig.take(j) =~= orig);
}

/// Whether a nearby reading's ID marks it as read over GATT.
pub open spec fn is_gatt_id(k: Seq<char>) -> bool {
    has_prefix(k, crate::nearby::GATT_ID_PREFIX@)
}

/// The entries whose key does not mark a GATT reading, in order.
pub open spec fn without_gatt<V>(s: Seq<(Seq<char>, V)>) -> Seq<(Seq<char>, V)>
    decreases s.len(),
{
    if s.len() == 0 {
        s
    } else {
        let rest = without_gatt(s.drop_last());
        if is_gatt_id(s.last().0) {
            rest
        } else {
            rest.push(s.last())
        }
    }
}

/// Readings stored under their IDs, one after the other.
pub open spec fn with_readings(s: Seq<(Seq<char>, PeripheralView)>, ps: Seq<PeripheralView>) -> Seq<(Seq<char>, PeripheralView)>
    decreases ps.len(),
{
    if ps.len() == 0 {
        s
    } else {
        let rest = with_readings(s, ps.drop_last());
        with_entry(rest, ps.last().id, ps.last())
    }
}

/// The nearby store after a scan cycle: GATT readings dropped unless GATT
/// discovery is on, then the new readings stored under their IDs.
pub open spec fn nearby_after_cycle(
    s: Seq<(Seq<char>, PeripheralView)>,
    discover_ios: bool,
    found: Seq<PeripheralView>,
) -> Seq<(Seq<char>, PeripheralView)> {
    with_readings(if discover_ios { s } else { without_gatt(s) }, found)
}

/// The peripheral store shared by the scanners and the commands.
pub struct PeripheralState {
    peripherals: Vec<PeripheralInfo>,
    remote: Vec<(String, RemoteEntry)>,
    nearby: Vec<(String, PeripheralInfo)>,
    known_accessories: Vec<KnownAccessory>,
}

impl PeripheralState {
    /// The last listing.
    pub closed spec fn listing(&self) -> Seq<PeripheralView> {
        views(self.peripherals@)
    }

    /// The lockdown workers' entries, by worker key.
    pub closed spec fn remote_entries(&self) -> Seq<(Seq<char>, RemoteView)> {
        remote_views(self.remote@)
    }

    /// The nearby readings, by peripheral ID.
    pub closed spec fn nearby_entries(&self) -> Seq<(Seq<char>, PeripheralView)> {
        nearby_views(self.nearby@)
    }

    pub closed spec fn known(&self) -> Seq<KnownAccessory> {
        self.known_accessories@
    }

    pub fn new() -> (r: Self)
        ensures
            r.listing().len() == 0,
            r.remote_entries().len() == 0,
            r.nearby_entries().len() == 0,
            r.known().len() == 0,
    {
        PeripheralState {
            peripherals: Vec::new(),
            remote: Vec::new(),
            nearby: Vec::new(),
            known_accessories: Vec::new(),
        }
    }

    /// Stores the devices a lockdown worker reports, replacing what that
    /// worker's key held.
    pub fn set_remote(&mut self, key: &str, generation: u64, devices: Vec<PeripheralInfo>)
        ensures
            final(self).remote_entries() == with_entry(
                old(self).remote_entries(),
                key@,
                RemoteView { generation, devices: views(devices@) },
            ),
            final(self).nearby_entries() == old(self).nearby_entries(),
            final(self).listing() == old(self).listing(),
            final(self).known() == old(self).known(),
    {
        let k = owned(key);
        proof {
            assert(keyed_views(self.remote@) =~= remote_views(self.remote@));
        }
        remove_key(&mut self.remote, &k);
        let ghost before = self.remote@;
        self.remote.push((k, RemoteEntry { generation, devices }));
        proof {
            assert(keyed_views(before) =~= remote_views(before));
            assert(remote_views(self.remote@) =~= remote_views(before).push(
                (key@, RemoteView { generation, devices: views(devices@) }),
            ));
        }
    }

    /// Removes a lockdown worker's entry, but only if that worker's
    /// generation wrote it.
    pub fn clear_remote(&mut self, key: &str, generation: u64)
        ensures
            final(self).remote_entries() == cleared(old(self).remote_entries(), key@, generation),
            final(self).nearby_entries() == old(self).nearby_entries(),
            final(self).listing() == old(self).listing(),
            final(self).known() == old(self).known(),
    {
        let k = owned(key);
        proof {
            assert(keyed_views(self.remote@) =~= remote_views(self.remote@));
        }
        match find_last_key(&self.remote, &k) {
            Some(i) => {
                if self.remote[i].1.generation == generation {
                    remove_key(&mut self.remote, &k);
                    assert(keyed_views(self.remote@) =~= remote_views(self.remote@));
                }
            },
            None => {},
        }
    }

    /// Stores the readings of a nearby scan cycle: GATT readings are dropped
    /// first unless GATT discovery is on, then each new reading is stored
    /// under its ID.
    pub fn store_nearby(&mut self, discover_ios: bool, found: Vec<PeripheralInfo>)
        ensures
            final(self).nearby_entries() == nearby_after_cycle(old(self).nearby_entries(), discover_ios, views(found@)),
            final(self).remote_entries() == old(self).remote_entries(),
            final(self).listing() == old(self).listing(),
            final(self).known() == old(self).known(),
    {
        proof {
            assert(keyed_views(self.nearby@) =~= nearby_views(self.nearby@));
        }
        if !discover_ios {
            remove_gatt(&mut self.nearby);
        }
        let ghost start = keyed_views(self.nearby@);
        let mut found = found;
        let ghost fv = views(found@);
        let ghost mut i: int = 0;
        assert(fv.take(0) =~= Seq::<PeripheralView>::empty());
        assert(fv.skip(0) =~= fv);
        while found.len() > 0
            invariant
                0 <= i <= fv.len(),
                views(found@) == fv.skip(i),
                remote_views(self.remote@) == remote_views(old(self).remote@),
                views(self.peripherals@) == views(old(self).peripherals@),
                self.known_accessories@ == old(self).known_accessories@,
                keyed_views(self.nearby@) == with_readings(start, fv.take(i)),
            decreases found@.len(),
        {
            let ghost rest = found@;
            assert(views(rest).len() == rest.len());
            assert(i < fv.len());
            let p = found.remove(0);
            assert(p@ == fv[i]) by {
                assert(views(rest)[0] == rest[0]@);
                assert(fv.skip(i)[0] == fv[i]);
            }
            let key = p.id.clone();
            remove_key(&mut self.nearby, &key);
            let ghost before = keyed_views(self.nearby@);
            self.nearby.push((key, p));
            proof {
                assert(keyed_views(self.nearby@) =~= before.push((fv[i].id, fv[i])));
                assert(fv.take(i + 1).drop_last() =~= fv.take(i));
                assert(views(found@) =~= fv.skip(i + 1)) by {
                    assert(found@ =~= rest.subrange(1, rest.len() as int));
                    assert forall|t: int| 0 <= t < views(found@).len() implies #[trigger] views(found@)[t]
                        == fv.skip(i + 1)[t] by {
                        assert(views(rest)[t + 1] == fv.skip(i)[t + 1]);
                    }
                }
                i = i + 1;
            }
        }
        proof {
            assert(fv.take(i) =~= fv);
            assert(keyed_views(self.nearby@) =~= nearby_views(self.nearby@));
        }
    }
}

impl PeripheralState {
    /// Merges the Bluetooth and HID readings with the stored remote and
    /// nearby readings (see `merge_peripherals`), drops stale entries from
    /// both stores, and keeps the result as the last listing.
    pub fn refresh(&mut self, bluetooth: Vec<PeripheralInfo>, hid: Vec<PeripheralInfo>, now: u64) -> (r: Vec<
        PeripheralInfo,
    >)
        ensures
            listed_in_order(views(r@)),
            lists(
                views(r@),
                merged_listing(
                    views(bluetooth@),
                    views(hid@),
                    Some(old(self).remote_entries()),
                    Some(old(self).nearby_entries()),
                    now,
                ),
            ),
            final(self).listing() == views(r@),
            final(self).remote_entries() == kept_remote(old(self).remote_entries(), now),
            final(self).nearby_entries() == kept_nearby(old(self).nearby_entries(), now),
            final(self).known() == old(self).known(),
    {
        let mut remote: Vec<(String, RemoteEntry)> = Vec::new();
        let mut nearby: Vec<(String, PeripheralInfo)> = Vec::new();
        std::mem::swap(&mut remote, &mut self.remote);
        std::mem::swap(&mut nearby, &mut self.nearby);
        let merged = merge_peripherals(bluetooth, hid, Some(remote), Some(nearby), now);
        match merged.remote {
            Some(r) => {
                self.remote = r;
            },
            None => {},
        }
        match merged.nearby {
            Some(n) => {
                self.nearby = n;
            },
            None => {},
        }
        let out = clone_infos(&merged.peripherals);
        self.peripherals = merged.peripherals;
        out
    }

    /// The last listing, unless it is empty.
    pub fn cached(&self) -> (r: Option<Vec<PeripheralInfo>>)
        ensures
            self.listing().len() == 0 ==> r is None,
            self.listing().len() > 0 ==> (r matches Some(v) && views(v@) == self.listing()),
    {
        if self.peripherals.len() == 0 {
            None
        } else {
            Some(clone_infos(&self.peripherals))
        }
    }

    /// Replaces the known accessories.
    pub fn set_known_accessories(&mut self, known: Vec<KnownAccessory>)
        ensures
            final(self).known() == known@,
            final(self).listing() == old(self).listing(),
            final(self).remote_entries() == old(self).remote_entries(),
            final(self).nearby_entries() == old(self).nearby_entries(),
    {
        self.known_accessories = known;
    }

    /// The known accessories.
    pub fn known_accessories(&self) -> (r: Vec<KnownAccessory>)
        ensures
            r@ == self.known(),
    {
        let mut out: Vec<KnownAccessory> = Vec::new();
        let mut i: usize = 0;
        while i < self.known_accessories.len()
            invariant
                i <= self.known_accessories@.len(),
                out@ == self.known_accessories@.take(i as int),
            decreases self.known_accessories.len() - i,
        {
            out.push(self.known_accessories[i].clone());
            assert(self.known_accessories@.take(i + 1) =~= self.known_accessories@.take(i as int).push(
                self.known_accessories@[i as int],
            ));
            i = i + 1;
        }
        assert(self.known_accessories@.take(i as int) =~= self.known_accessories@);
        out
    }
}

/// A copy of a list of peripherals.
fn clone_infos(v: &Vec<PeripheralInfo>) -> (r: Vec<PeripheralInfo>)
    ensures
        views(r@) == views(v@),
{
    let mut out: Vec<PeripheralInfo> = Vec::new();
    let mut i: usize = 0;
    while i < v.len()
        invariant
            i <= v@.len(),
            views(out@) == views(v@.take(i as int)),
        decreases v.len() - i,
    {
        let c = v[i].clone();
        let ghost before = out@;
        out.push(c);
        proof {
            assert(views(out@) =~= views(before).push(c@));
            assert(v@.take(i + 1) =~= v@.take(i as int).push(v@[i as int]));
            assert(views(v@.take(i + 1)) =~= views(v@.take(i as int)).push(v@[i as int]@));
        }
        i = i + 1;
    }
    assert(v@.take(i as int) =~= v@);
    out
}

/// The position of the last entry under `k`, whose value is what `lookup`
/// reads.
pub(crate) fn find_last_key<V: View>(v: &Vec<(String, V)>, k: &String) -> (r: Option<usize>)
    ensures
        match r {
            Some(i) => i < v@.len() && keyed_views(v@)[i as int].0 == k@ && lookup(keyed_views(v@), k@) == Some(
                keyed_views(v@)[i as int].1,
            ),
            None => lookup(keyed_views(v@), k@) is None,
        },
{
    let ghost kv = keyed_views(v@);
    let mut i = v.len();
    assert(kv.take(i as int) =~= kv);
    while i > 0
        invariant
            i <= v@.len(),
            kv == keyed_views(v@),
            lookup(kv, k@) == lookup(kv.take(i as int), k@),
        decreases i,
    {
        assert(kv.take(i as int).drop_last() =~= kv.take(i - 1));
        if v[i - 1].0 == *k {
            return Some(i - 1);
        }
        i = i - 1;
    }
    None
}

/// Removes the entries whose key marks a GATT reading, keeping the others in
/// order.
fn remove_gatt<V: View>(v: &mut Vec<(String, V)>)
    ensures
        keyed_views(final(v)@) == without_gatt(keyed_views(old(v)@)),
{
    let ghost orig = keyed_views(v@);
    let mut i: usize = 0;
    let ghost mut j: int = 0;
    while i < v.len()
        invariant
            0 <= i <= v@.len(),
            0 <= j <= orig.len(),
            v@.len() - i == orig.len() - j,
            keyed_views(v@).take(i as int) == without_gatt(orig.take(j)),
            keyed_views(v@).skip(i as int) == orig.skip(j),
        decreases v@.len() - i,
    {
        let ghost before = keyed_views(v@);
        assert(orig.take(j + 1).drop_last() =~= orig.take(j));
        assert(orig[j] == before.skip(i as int)[0]);
        let c = chars_of(v[i].0.as_str());
        if starts_with_lit(&c, crate::nearby::GATT_ID_PREFIX) {
            v.remove(i);
            proof {
                assert(keyed_views(v@) =~= before.take(i as int) + before.skip(i + 1));
                assert(keyed_views(v@).take(i as int) =~= before.take(i as int));
                assert forall|t: int| 0 <= t < keyed_views(v@).skip(i as int).len() implies
                    #[trigger] keyed_views(v@).skip(i as int)[t] == orig.skip(j + 1)[t] by {
                    assert(before.skip(i as int)[t + 1] == orig.skip(j)[t + 1]);
                }
                assert(keyed_views(v@).skip(i as int) =~= orig.skip(j + 1));
                j = j + 1;
            }
        } else {
            proof {
                assert(keyed_views(v@).take(i + 1) =~= before.take(i as int).push(orig[j]));
                assert forall|t: int| 0 <= t < keyed_views(v@).skip(i + 1).len() implies
                    #[trigger] keyed_views(v@).skip(i + 1)[t] == orig.skip(j + 1)[t] by {
                    assert(before.skip(i as int)[t + 1] == orig.skip(j)[t + 1]);
                }
                assert(keyed_views(v@).skip(i + 1) =~= orig.skip(j + 1));
                j = j + 1;
            }
            i = i + 1;
        }
    }
    assert(keyed_views(v@).take(i as int) =~= keyed_views(v@));
    assert(orig.take(j) =~= orig);
}

} // verus!

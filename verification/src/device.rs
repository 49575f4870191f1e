//! The devices seen over MobileDevice: which interfaces each one is attached
//! by, and the events the device sender emits.
use vstd::prelude::*;

use crate::events::DeviceEvent;
use crate::ffi::{Action, InterfaceType};
use crate::store::{find_last_key, keyed_views, lookup, remove_key, with_entry};
use crate::text::owned;

verus! {

/// A set of interfaces.
#[derive(Debug, Clone, Copy, Default, PartialEq, Eq, Structural)]
pub struct InterfaceSet {
    unknown: bool,
    usb: bool,
    wifi: bool,
}

impl View for InterfaceSet {
    type V = Set<InterfaceType>;

    closed spec fn view(&self) -> Set<InterfaceType> {
        Set::new(
            |i: InterfaceType|
                match i {
                    InterfaceType::Unknown => self.unknown,
                    InterfaceType::USB => self.usb,
                    InterfaceType::WiFi => self.wifi,
                },
        )
    }
}

impl InterfaceSet {
    pub fn empty() -> (r: Self)
        ensures
            r@ == Set::<InterfaceType>::empty(),
    {
        let r = InterfaceSet { unknown: false, usb: false, wifi: false };
        assert(r@ =~= Set::<InterfaceType>::empty());
        r
    }

    pub fn contains(&self, i: InterfaceType) -> (r: bool)
        ensures
            r == self@.contains(i),
    {
        match i {
            InterfaceType::Unknown => self.unknown,
            InterfaceType::USB => self.usb,
            InterfaceType::WiFi => self.wifi,
        }
    }

    pub fn insert(&mut self, i: InterfaceType)
        ensures
            final(self)@ == old(self)@.insert(i),
    {
        match i {
            InterfaceType::Unknown => self.unknown = true,
            InterfaceType::USB => self.usb = true,
            InterfaceType::WiFi => self.wifi = true,
        }
        assert(self@ =~= old(self)@.insert(i));
    }

    pub fn remove(&mut self, i: InterfaceType)
        ensures
            final(self)@ == old(self)@.remove(i),
    {
        match i {
            InterfaceType::Unknown => self.unknown = false,
            InterfaceType::USB => self.usb = false,
            InterfaceType::WiFi => self.wifi = false,
        }
        assert(self@ =~= old(self)@.remove(i));
    }
}

/// A device's name and the interfaces it is attached by.
#[derive(Debug)]
pub struct DeviceRecord {
    pub name: String,
    pub interfaces: InterfaceSet,
}

impl View for DeviceRecord {
    type V = (Seq<char>, Set<InterfaceType>);

    open spec fn view(&self) -> (Seq<char>, Set<InterfaceType>) {
        (self.name@, self.interfaces@)
    }
}

impl Clone for DeviceRecord {
    fn clone(&self) -> (r: Self)
        ensures
            r@ == self@,
    {
        DeviceRecord { name: self.name.clone(), interfaces: self.interfaces }
    }
}

/// The record a device event leaves: the name the device was first seen
/// with (this event's if it is new), and its interfaces with the event's
/// interface added on attach and removed on detach.
pub open spec fn record_after(
    s: Seq<(Seq<char>, (Seq<char>, Set<InterfaceType>))>,
    udid: Seq<char>,
    name: Seq<char>,
    interface: InterfaceType,
    action: Action,
) -> (Seq<char>, Set<InterfaceType>) {
    let (n, set) = match lookup(s, udid) {
        Some(r) => r,
        None => (name, Set::empty()),
    };
    let set2 = match action {
        Action::Attached => set.insert(interface),
        Action::Detached => set.remove(interface),
        _ => set,
    };
    (n, set2)
}

/// The devices seen, by id.
pub struct DeviceState {
    entries: Vec<(String, DeviceRecord)>,
}

impl DeviceState {
    pub closed spec fn table(&self) -> Seq<(Seq<char>, (Seq<char>, Set<InterfaceType>))> {
        keyed_views(self.entries@)
    }

    pub fn new() -> (r: Self)
        ensures
            r.table().len() == 0,
    {
        DeviceState { entries: Vec::new() }
    }

    /// Records a device event.
    pub fn apply(&mut self, e: &DeviceEvent)
        ensures
            final(self).table() == with_entry(
                old(self).table(),
                e.udid@,
                record_after(old(self).table(), e.udid@, e.name@, e.interface, e.action),
            ),
    {
        let mut rec = match find_last_key(&self.entries, &e.udid) {
            Some(i) => self.entries[i].1.clone(),
            None => DeviceRecord { name: e.name.clone(), interfaces: InterfaceSet::empty() },
        };
        match e.action {
            Action::Attached => rec.interfaces.insert(e.interface),
            Action::Detached => rec.interfaces.remove(e.interface),
            _ => {},
        }
        let ghost r = rec@;
        remove_key(&mut self.entries, &e.udid);
        let ghost before = self.entries@;
        self.entries.push((e.udid.clone(), rec));
        assert(keyed_views(self.entries@) =~= keyed_views(before).push((e.udid@, r)));
    }

    /// The name and interfaces of a device, if it has been seen.
    pub fn get(&self, udid: &str) -> (r: Option<DeviceRecord>)
        ensures
            match lookup(self.table(), udid@) {
                Some(v) => r matches Some(rec) && rec@ == v,
                None => r is None,
            },
    {
        let k = owned(udid);
        match find_last_key(&self.entries, &k) {
            Some(i) => Some(self.entries[i].1.clone()),
            None => None,
        }
    }
}

/// An attach adds the interface and a detach of the same interface takes it
/// away again; the name a device was first seen with is kept; other devices
/// are untouched.
pub proof fn lemma_device_table(
    s: Seq<(Seq<char>, (Seq<char>, Set<InterfaceType>))>,
    udid: Seq<char>,
    name: Seq<char>,
    later_name: Seq<char>,
    interface: InterfaceType,
    other: Seq<char>,
)
    ensures
        ({
            let s1 = with_entry(s, udid, record_after(s, udid, name, interface, Action::Attached));
            let s2 = with_entry(s1, udid, record_after(s1, udid, later_name, interface, Action::Detached));
            &&& lookup(s1, udid).unwrap().1.contains(interface)
            &&& !lookup(s2, udid).unwrap().1.contains(interface)
            &&& (lookup(s, udid) is None ==> lookup(s2, udid).unwrap().0 == name)
            &&& (other != udid ==> lookup(s2, other) == lookup(s, other))
        }),
{
    let s1 = with_entry(s, udid, record_after(s, udid, name, interface, Action::Attached));
    crate::store::lemma_lookup_with_entry(s, udid, record_after(s, udid, name, interface, Action::Attached), other);
    crate::store::lemma_lookup_with_entry(
        s1,
        udid,
        record_after(s1, udid, later_name, interface, Action::Detached),
        other,
    );
}

/// The event the device sender emits for a notification: attaches carry the
/// device's name, detaches an empty one; other notifications emit nothing.
pub open spec fn sender_event_of(action: Action, udid: Seq<char>, name: Seq<char>) -> Option<(Seq<char>, Seq<char>)> {
    match action {
        Action::Attached => Some((udid, name)),
        Action::Detached => Some((udid, Seq::empty())),
        _ => None,
    }
}

pub fn device_event(action: Action, udid: &String, name: &String, interface: InterfaceType) -> (r: Option<DeviceEvent>)
    ensures
        match sender_event_of(action, udid@, name@) {
            Some((u, n)) => r matches Some(e) && e.udid@ == u && e.name@ == n && e.interface == interface
                && e.action == action,
            None => r is None,
        },
{
    match action {
        Action::Attached => Some(DeviceEvent { udid: udid.clone(), name: name.clone(), interface, action }),
        Action::Detached => {
            let empty = String::new();
            Some(DeviceEvent { udid: udid.clone(), name: empty, interface, action })
        },
        _ => None,
    }
}

pub open spec fn id_views(s: Seq<String>) -> Seq<Seq<char>> {
    s.map_values(|x: String| x@)
}

/// The ids of `s` other than `k`, in order.
pub open spec fn without_id(s: Seq<Seq<char>>, k: Seq<char>) -> Seq<Seq<char>>
    decreases s.len(),
{
    if s.len() == 0 {
        s
    } else {
        let rest = without_id(s.drop_last(), k);
        if s.last() == k {
            rest
        } else {
            rest.push(s.last())
        }
    }
}

/// The devices the sender reads after a notification, and whether it emits
/// an event: an attach that got its diagnostics service started is followed
/// (replacing an earlier entry) and reported; one that did not is ignored; a
/// detach is no longer followed and is reported; other notifications change
/// nothing.
pub open spec fn followed_after(s: Seq<Seq<char>>, udid: Seq<char>, action: Action, started: bool) -> (Seq<Seq<char>>, bool) {
    match action {
        Action::Attached => if started {
            (without_id(s, udid).push(udid), true)
        } else {
            (s, false)
        },
        Action::Detached => (without_id(s, udid), true),
        _ => (s, false),
    }
}

/// One decision of the device sender; `started` says whether an attached
/// device was prepared and its diagnostics service started.
pub fn device_step(followed: &mut Vec<String>, udid: &String, action: Action, started: bool) -> (emit: bool)
    ensures
        (id_views(final(followed)@), emit) == followed_after(id_views(old(followed)@), udid@, action, started),
{
    let drop = match action {
        Action::Attached => started,
        Action::Detached => true,
        _ => false,
    };
    if !drop {
        return false;
    }
    let ghost orig = id_views(followed@);
    let mut i: usize = 0;
    let ghost mut j: int = 0;
    while i < followed.len()
        invariant
            0 <= i <= followed@.len(),
            0 <= j <= orig.len(),
            followed@.len() - i == orig.len() - j,
            id_views(followed@).take(i as int) == without_id(orig.take(j), udid@),
            id_views(followed@).skip(i as int) == orig.skip(j),
        decreases followed@.len() - i,
    {
        let ghost before = id_views(followed@);
        assert(orig.take(j + 1).drop_last() =~= orig.take(j));
        assert(orig[j] == before.skip(i as int)[0]);
        if followed[i] == *udid {
            followed.remove(i);
            proof {
                let v = id_views(followed@);
                assert(v =~= before.take(i as int) + before.skip(i + 1));
                assert(v.take(i as int) =~= before.take(i as int));
                assert forall|t: int| 0 <= t < v.skip(i as int).len() implies #[trigger] v.skip(i as int)[t]
                    == orig.skip(j + 1)[t] by {
                    assert(before.skip(i as int)[t + 1] == orig.skip(j)[t + 1]);
                }
                assert(v.skip(i as int) =~= orig.skip(j + 1));
                j = j + 1;
            }
        } else {
            proof {
                let v = id_views(followed@);
                assert(v.take(i + 1) =~= before.take(i as int).push(orig[j]));
                assert forall|t: int| 0 <= t < v.skip(i + 1).len() implies #[trigger] v.skip(i + 1)[t]
                    == orig.skip(j + 1)[t] by {
                    assert(before.skip(i as int)[t + 1] == orig.skip(j)[t + 1]);
                }
                assert(v.skip(i + 1) =~= orig.skip(j + 1));
                j = j + 1;
            }
            i = i + 1;
        }
    }
    proof {
        assert(id_views(followed@).take(i as int) =~= id_views(followed@));
        assert(orig.take(j) =~= orig);
    }
    if action == Action::Attached {
        let ghost before = followed@;
        followed.push(udid.clone());
        assert(id_views(followed@) =~= id_views(before).push(udid@));
    }
    true
}

/// Without duplicates.
pub open spec fn distinct_ids(s: Seq<Seq<char>>) -> bool {
    forall|a: int, b: int| 0 <= a < b < s.len() ==> s[a] != s[b]
}

/// Dropping an id removes it and keeps every other id, without adding
/// duplicates.
pub proof fn lemma_without_id(s: Seq<Seq<char>>, k: Seq<char>, x: Seq<char>)
    ensures
        !without_id(s, k).contains(k),
        x != k ==> (without_id(s, k).contains(x) == s.contains(x)),
        distinct_ids(s) ==> distinct_ids(without_id(s, k)),
    decreases s.len(),
{
    if s.len() > 0 {
        let d = s.drop_last();
        lemma_without_id(d, k, x);
        lemma_without_id(d, k, s.last());
        let rest = without_id(d, k);
        if s.last() != k {
            let r = rest.push(s.last());
            assert(r.drop_last() =~= rest);
            if x != k && s.contains(x) && !d.contains(x) {
                let t = choose|t: int| 0 <= t < s.len() && s[t] == x;
                if t < d.len() {
                    assert(d[t] == x);
                }
                assert(x == s.last());
                assert(r[r.len() - 1] == x);
            }
            if x != k && d.contains(x) {
                let t = choose|t: int| 0 <= t < d.len() && d[t] == x;
                assert(s[t] == x);
            }
            if x != k && r.contains(x) && !rest.contains(x) {
                assert(x == s.last());
                assert(s[s.len() - 1] == x);
            }
            if distinct_ids(s) {
                assert(!d.contains(s.last())) by {
                    if d.contains(s.last()) {
                        let t = choose|t: int| 0 <= t < d.len() && d[t] == s.last();
                        assert(s[t] == s[s.len() - 1]);
                    }
                }
                assert forall|a: int, b: int| 0 <= a < b < r.len() implies r[a] != r[b] by {
                    if b == r.len() - 1 {
                        assert(rest[a] == r[a]);
                    } else {
                        assert(rest[a] == r[a] && rest[b] == r[b]);
                    }
                }
            }
        } else {
            if x != k && d.contains(x) {
                let t = choose|t: int| 0 <= t < d.len() && d[t] == x;
                assert(s[t] == x);
            }
            if x != k && s.contains(x) {
                let t = choose|t: int| 0 <= t < s.len() && s[t] == x;
                assert(t < d.len());
                assert(d[t] == x);
            }
        }
    } else {
        assert(!s.contains(k));
    }
}

/// The sender follows each device at most once: an attach replaces an
/// earlier entry rather than adding a second one, a detach leaves the device
/// unfollowed, and other devices keep their place in the set.
pub proof fn lemma_device_step(s: Seq<Seq<char>>, udid: Seq<char>, action: Action, started: bool, x: Seq<char>)
    requires
        distinct_ids(s),
    ensures
        distinct_ids(followed_after(s, udid, action, started).0),
        action == Action::Attached && started ==> followed_after(s, udid, action, started).0.contains(udid),
        action == Action::Detached ==> !followed_after(s, udid, action, started).0.contains(udid),
        x != udid ==> followed_after(s, udid, action, started).0.contains(x) == s.contains(x),
{
    lemma_without_id(s, udid, x);
    let w = without_id(s, udid);
    if action == Action::Attached && started {
        let r = w.push(udid);
        assert(r[r.len() - 1] == udid);
        assert forall|a: int, b: int| 0 <= a < b < r.len() implies r[a] != r[b] by {
            if b == r.len() - 1 {
                assert(w[a] == r[a]);
                assert(w.contains(w[a]));
            } else {
                assert(w[a] == r[a] && w[b] == r[b]);
            }
        }
        if x != udid {
            if r.contains(x) {
                let t = choose|t: int| 0 <= t < r.len() && r[t] == x;
                assert(t < w.len());
                assert(w[t] == x);
            }
            if w.contains(x) {
                let t = choose|t: int| 0 <= t < w.len() && w[t] == x;
                assert(r[t] == x);
            }
        }
    }
}

} // verus!

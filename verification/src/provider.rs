//! Turning a battery registry into the figures the app shows, and the
//! power history behind its charts.
use std::collections::VecDeque;

use vstd::prelude::*;

use crate::de::{empty_registry, registry_of, repr, AdapterDetails, IORegistry};
use crate::ffi::InterfaceType;

pub mod remote;

verus! {

broadcast use vstd::std_specs::vecdeque::group_vec_dequeue_axioms;

/// `anyhow::Error`, carried through unread.
#[verifier::external_type_specification]
#[verifier::external_body]
pub struct ExAnyhowError(anyhow::Error);

/// This Mac's battery registry from what reading `AppleSmartBattery` gave:
/// the raw registry read into its final form, or the failure passed on.
pub fn get_mac_ioreg(read: Result<repr::IORegistry, anyhow::Error>) -> (r: Result<IORegistry, anyhow::Error>)
    ensures
        match read {
            Ok(raw) => r == Ok::<IORegistry, anyhow::Error>(registry_of(raw)),
            Err(e) => r == Err::<IORegistry, anyhow::Error>(e),
        },
{
    match read {
        Ok(raw) => Ok(IORegistry::from(raw)),
        Err(e) => Err(e),
    }
}

/// The registry to use for this Mac: the one read, or an empty one when
/// reading failed.
pub fn read_local_ioreg(read: Result<IORegistry, anyhow::Error>) -> (r: IORegistry)
    ensures
        match read {
            Ok(io) => r == io,
            Err(_) => r == empty_registry(),
        },
{
    match read {
        Ok(io) => io,
        Err(_) => IORegistry::default(),
    }
}

/// The capacities the battery really has, in mAh: full-charge, remaining and
/// design capacity. The gauge's own figures win where it reports them
/// (non-zero); otherwise the nominal charge capacity (if positive) and then
/// the raw maximum, the raw current capacity, and the registry's design
/// capacity.
pub open spec fn real_capacity(io: IORegistry) -> (i32, i32, i32) {
    let bd = io.battery_data;
    let max_cap = if bd is Some && bd.unwrap().full_charge_capacity > 0 {
        bd.unwrap().full_charge_capacity
    } else if io.nominal_charge_capacity is Some && io.nominal_charge_capacity.unwrap() > 0 {
        io.nominal_charge_capacity.unwrap()
    } else {
        io.apple_raw_max_capacity
    };
    let cur_cap = if bd is Some && bd.unwrap().remaining_capacity > 0 {
        bd.unwrap().remaining_capacity
    } else {
        io.apple_raw_current_capacity
    };
    let design_cap = if bd is Some && bd.unwrap().design_capacity > 0 {
        bd.unwrap().design_capacity
    } else {
        io.design_capacity
    };
    (max_cap, cur_cap, design_cap)
}

pub fn real_capacity_from(io: &IORegistry) -> (r: (i32, i32, i32))
    ensures
        r == real_capacity(*io),
{
    let max_cap = match io.battery_data {
        Some(b) if b.full_charge_capacity > 0 => b.full_charge_capacity,
        _ => match io.nominal_charge_capacity {
            Some(c) if c > 0 => c,
            _ => io.apple_raw_max_capacity,
        },
    };
    let cur_cap = match io.battery_data {
        Some(b) if b.remaining_capacity > 0 => b.remaining_capacity,
        _ => io.apple_raw_current_capacity,
    };
    let design_cap = match io.battery_data {
        Some(b) if b.design_capacity > 0 => b.design_capacity,
        _ => io.design_capacity,
    };
    (max_cap, cur_cap, design_cap)
}

/// The registry's minutes-remaining figure in seconds; 65535 and above, and
/// anything not positive, mean "unknown" and give zero.
pub open spec fn time_remain_secs(minutes: i32) -> u64 {
    if minutes >= 65535 || minutes <= 0 {
        0
    } else {
        (minutes * 60) as u64
    }
}

pub fn remain_secs_from_minutes(minutes: i32) -> (r: u64)
    ensures
        r == time_remain_secs(minutes),
{
    if minutes >= 65535 || minutes <= 0 {
        0
    } else {
        minutes as u64 * 60
    }
}

/// The adapter's name, else its description.
pub open spec fn adapter_label(ad: AdapterDetails) -> Option<String> {
    match ad.name {
        Some(n) => Some(n),
        None => ad.description,
    }
}

pub fn adapter_name(ad: &AdapterDetails) -> (r: Option<String>)
    ensures
        r == adapter_label(*ad),
{
    match &ad.name {
        Some(n) => Some(n.clone()),
        None => match &ad.description {
            Some(d) => Some(d.clone()),
            None => None,
        },
    }
}

/// Whether an adapter reporting a positive wattage is attached.
pub open spec fn adapter_powered(ad: AdapterDetails) -> bool {
    ad.watts is Some && ad.watts.unwrap() > 0
}

/// The integer part of a normalized battery reading: what is shown besides
/// the power figures.
#[derive(Debug, Clone, PartialEq, Eq)]
pub struct ResourceSummary {
    pub is_local: bool,
    pub is_charging: bool,
    pub time_remain_secs: u64,
    pub last_update: i64,
    pub adapter_name: Option<String>,
    pub cycle_count: i32,
    pub current_capacity: i32,
    pub max_capacity: i32,
    pub design_capacity: i32,
    pub not_charging_reason: Option<i64>,
    pub battery_level: i32,
}

/// A remote (phone or tablet) reading: charging when the registry says so or
/// an adapter is delivering power; the time left from the registry.
pub open spec fn remote_summary_of(io: IORegistry) -> ResourceSummary {
    let (max_capacity, current_capacity, design_capacity) = real_capacity(io);
    ResourceSummary {
        is_local: false,
        is_charging: io.is_charging || adapter_powered(io.adapter_details),
        time_remain_secs: time_remain_secs(io.time_remaining),
        last_update: io.update_time,
        adapter_name: adapter_label(io.adapter_details),
        cycle_count: io.cycle_count,
        current_capacity,
        max_capacity,
        design_capacity,
        not_charging_reason: io.not_charging_reason,
        battery_level: io.current_capacity,
    }
}

pub fn remote_summary(io: &IORegistry) -> (r: ResourceSummary)
    ensures
        r == remote_summary_of(*io),
{
    let (max_capacity, current_capacity, design_capacity) = real_capacity_from(io);
    let powered = match io.adapter_details.watts {
        Some(w) => w > 0,
        None => false,
    };
    ResourceSummary {
        is_local: false,
        is_charging: io.is_charging || powered,
        time_remain_secs: remain_secs_from_minutes(io.time_remaining),
        last_update: io.update_time,
        adapter_name: adapter_name(&io.adapter_details),
        cycle_count: io.cycle_count,
        current_capacity,
        max_capacity,
        design_capacity,
        not_charging_reason: io.not_charging_reason,
        battery_level: io.current_capacity,
    }
}

/// The cycle count of this Mac: the registry's when positive, else the SMC's
/// when positive, else the registry's.
pub open spec fn local_cycles(io_cycles: i32, smc_cycles: u16) -> i32 {
    if io_cycles > 0 {
        io_cycles
    } else if smc_cycles > 0 {
        smc_cycles as i32
    } else {
        io_cycles
    }
}

pub fn local_cycle_count(io_cycles: i32, smc_cycles: u16) -> (r: i32)
    ensures
        r == local_cycles(io_cycles, smc_cycles),
{
    if io_cycles > 0 {
        io_cycles
    } else if smc_cycles > 0 {
        smc_cycles as i32
    } else {
        io_cycles
    }
}

/// Which SMC timer gives this Mac's time left.
#[derive(Debug, Clone, Copy, PartialEq, Eq, Structural)]
pub enum TimeSource {
    /// On power and actually charging: time to full.
    ToFull,
    /// On power but charging is held (passthrough): no figure.
    Nothing,
    /// On battery: time to empty.
    ToEmpty,
}

pub open spec fn time_source_of(on_power: bool, actively_charging: bool) -> TimeSource {
    if on_power {
        if actively_charging { TimeSource::ToFull } else { TimeSource::Nothing }
    } else {
        TimeSource::ToEmpty
    }
}

/// On battery the time left is always the time to empty, whatever the
/// registry says of charging; on power it is the time to full while the cell
/// charges and none while charging is held.
pub proof fn lemma_time_source(actively_charging: bool)
    ensures
        time_source_of(false, actively_charging) == TimeSource::ToEmpty,
        time_source_of(true, actively_charging) == (if actively_charging { TimeSource::ToFull } else { TimeSource::Nothing }),
        time_source_of(false, true) == time_source_of(false, false),
{
}

pub fn local_time_source(on_power: bool, actively_charging: bool) -> (r: TimeSource)
    ensures
        r == time_source_of(on_power, actively_charging),
{
    if on_power {
        if actively_charging { TimeSource::ToFull } else { TimeSource::Nothing }
    } else {
        TimeSource::ToEmpty
    }
}

/// This Mac's reading. It counts as charging when the SMC reports charging
/// or an adapter reports a positive wattage; `time_remain_secs` is what the
/// chosen SMC timer gave.
pub open spec fn local_summary_of(
    io: IORegistry,
    smc_charging: bool,
    time_remain_secs: u64,
    smc_cycles: u16,
) -> ResourceSummary {
    let (max_capacity, current_capacity, design_capacity) = real_capacity(io);
    ResourceSummary {
        is_local: true,
        is_charging: smc_charging || adapter_powered(io.adapter_details),
        time_remain_secs,
        last_update: io.update_time,
        adapter_name: adapter_label(io.adapter_details),
        cycle_count: local_cycles(io.cycle_count, smc_cycles),
        current_capacity,
        max_capacity,
        design_capacity,
        not_charging_reason: io.not_charging_reason,
        battery_level: io.current_capacity,
    }
}

pub fn local_summary(
    io: &IORegistry,
    smc_charging: bool,
    time_remain_secs: u64,
    smc_cycles: u16,
) -> (r: ResourceSummary)
    ensures
        r == local_summary_of(*io, smc_charging, time_remain_secs, smc_cycles),
{
    let (max_capacity, current_capacity, design_capacity) = real_capacity_from(io);
    let powered = match io.adapter_details.watts {
        Some(w) => w > 0,
        None => false,
    };
    ResourceSummary {
        is_local: true,
        is_charging: smc_charging || powered,
        time_remain_secs,
        last_update: io.update_time,
        adapter_name: adapter_name(&io.adapter_details),
        cycle_count: local_cycle_count(io.cycle_count, smc_cycles),
        current_capacity,
        max_capacity,
        design_capacity,
        not_charging_reason: io.not_charging_reason,
        battery_level: io.current_capacity,
    }
}

/// Where a reading came from: this Mac, or a device (its id, its name, its
/// connection).
#[derive(Debug, Default, PartialEq, Eq, PartialOrd, Ord, Hash)]
pub enum PowerDataFrom {
    #[default]
    Local,
    Remote((String, String, InterfaceType)),
}

impl Clone for PowerDataFrom {
    fn clone(&self) -> (r: Self)
        ensures
            r == *self,
    {
        match self {
            PowerDataFrom::Local => PowerDataFrom::Local,
            PowerDataFrom::Remote((udid, name, interface)) => PowerDataFrom::Remote(
                (udid.clone(), name.clone(), *interface),
            ),
        }
    }
}

pub const BATTERY_HISTORY_LEN: usize = 50;

pub const INPUT_HISTORY_LEN: usize = 50;

pub const SYSTEM_HISTORY_LEN: usize = 200;

/// `s` with `v` appended, dropping the oldest value when that exceeds `cap`.
pub open spec fn bounded_push(s: Seq<u64>, v: u64, cap: nat) -> Seq<u64> {
    let t = s.push(v);
    if t.len() > cap {
        t.subrange(1, t.len() as int)
    } else {
        t
    }
}

/// The last `width` values of `s` (all of them when there are fewer).
pub open spec fn last_values(s: Seq<u64>, width: nat) -> Seq<u64> {
    if width >= s.len() {
        s
    } else {
        s.subrange(s.len() - width, s.len() as int)
    }
}

/// The recent battery, input and system power samples (whole watts), oldest
/// first, each kept to its own length.
pub struct PowerHistory {
    battery: VecDeque<u64>,
    input: VecDeque<u64>,
    system: VecDeque<u64>,
}

/// The three histories as sequences.
pub struct HistoryView {
    pub battery: Seq<u64>,
    pub input: Seq<u64>,
    pub system: Seq<u64>,
}

impl View for PowerHistory {
    type V = HistoryView;

    closed spec fn view(&self) -> HistoryView {
        HistoryView { battery: self.battery@, input: self.input@, system: self.system@ }
    }
}

impl PowerHistory {
    /// No history is longer than its limit.
    #[verifier::type_invariant]
    spec fn bounded(&self) -> bool {
        &&& self.battery@.len() <= BATTERY_HISTORY_LEN
        &&& self.input@.len() <= INPUT_HISTORY_LEN
        &&& self.system@.len() <= SYSTEM_HISTORY_LEN
    }

    pub fn new() -> (r: Self)
        ensures
            r@.battery.len() == 0,
            r@.input.len() == 0,
            r@.system.len() == 0,
    {
        PowerHistory { battery: VecDeque::new(), input: VecDeque::new(), system: VecDeque::new() }
    }

    fn push_bounded(q: &mut VecDeque<u64>, v: u64, cap: usize)
        requires
            old(q)@.len() <= cap,
        ensures
            final(q)@ == bounded_push(old(q)@, v, cap as nat),
    {
        q.push_back(v);
        if q.len() > cap {
            q.pop_front();
        }
    }

    /// Records one sample of each power figure.
    pub fn push(&mut self, battery: u64, input: u64, system: u64)
        ensures
            final(self)@.battery.len() <= BATTERY_HISTORY_LEN,
            final(self)@.input.len() <= INPUT_HISTORY_LEN,
            final(self)@.system.len() <= SYSTEM_HISTORY_LEN,
            final(self)@.battery == bounded_push(old(self)@.battery, battery, BATTERY_HISTORY_LEN as nat),
            final(self)@.input == bounded_push(old(self)@.input, input, INPUT_HISTORY_LEN as nat),
            final(self)@.system == bounded_push(old(self)@.system, system, SYSTEM_HISTORY_LEN as nat),
    {
        proof {
            use_type_invariant(&*self);
        }
        let mut b = VecDeque::new();
        let mut i = VecDeque::new();
        let mut s = VecDeque::new();
        std::mem::swap(&mut b, &mut self.battery);
        std::mem::swap(&mut i, &mut self.input);
        std::mem::swap(&mut s, &mut self.system);
        Self::push_bounded(&mut b, battery, BATTERY_HISTORY_LEN);
        Self::push_bounded(&mut i, input, INPUT_HISTORY_LEN);
        Self::push_bounded(&mut s, system, SYSTEM_HISTORY_LEN);
        self.battery = b;
        self.input = i;
        self.system = s;
    }

    fn window(q: &VecDeque<u64>, width: usize) -> (r: Vec<u64>)
        ensures
            r@ == last_values(q@, width as nat),
    {
        let n = q.len();
        let start = if width >= n { 0 } else { n - width };
        let mut out: Vec<u64> = Vec::new();
        let mut i = start;
        while i < n
            invariant
                start <= i <= n,
                n == q@.len(),
                start == (if width >= n { 0 } else { n - width }),
                out@ == q@.subrange(start as int, i as int),
            decreases n - i,
        {
            out.push(q[i]);
            i = i + 1;
        }
        assert(out@ == last_values(q@, width as nat));
        out
    }

    /// The last `width` battery samples.
    pub fn battery_history(&self, width: usize) -> (r: Vec<u64>)
        ensures
            r@ == last_values(self@.battery, width as nat),
    {
        Self::window(&self.battery, width)
    }

    /// The last `width` input samples.
    pub fn input_history(&self, width: usize) -> (r: Vec<u64>)
        ensures
            r@ == last_values(self@.input, width as nat),
    {
        Self::window(&self.input, width)
    }

    /// The last `width` system samples.
    pub fn system_history(&self, width: usize) -> (r: Vec<u64>)
        ensures
            r@ == last_values(self@.system, width as nat),
    {
        Self::window(&self.system, width)
    }
}

/// A bounded history never grows past its limit, always ends with the newest
/// sample, and otherwise keeps the previous samples in order, dropping only
/// the oldest.
pub proof fn lemma_bounded_push(s: Seq<u64>, v: u64, cap: nat)
    requires
        cap > 0,
        s.len() <= cap,
    ensures
        bounded_push(s, v, cap).len() <= cap,
        bounded_push(s, v, cap).last() == v,
        s.len() < cap ==> bounded_push(s, v, cap) == s.push(v),
        s.len() == cap ==> bounded_push(s, v, cap) == s.subrange(1, s.len() as int).push(v),
{
    if s.len() == cap {
        assert(s.push(v).subrange(1, s.len() + 1int) =~= s.subrange(1, s.len() as int).push(v));
    }
}

/// A window holds `width` samples (or all there are), and they are the most
/// recent ones, in order.
pub proof fn lemma_last_values(s: Seq<u64>, width: nat)
    ensures
        last_values(s, width).len() == if width < s.len() { width } else { s.len() },
        forall|i: int|
            0 <= i < last_values(s, width).len() ==> #[trigger] last_values(s, width)[i] == s[s.len()
                - last_values(s, width).len() + i],
{
}

} // verus!

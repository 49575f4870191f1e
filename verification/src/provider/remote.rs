//! Readings from iPhones and iPads over lockdown, and from the watches
//! paired to them.
use vstd::prelude::*;

verus! {

/// Why a device reading failed.
#[derive(Debug, Clone, PartialEq, Eq)]
pub enum DeviceDataError {
    /// Sending the request failed with this status.
    Send(i32),
    /// Receiving the answer failed with this status.
    Receive(i32),
    /// The answer did not have the expected shape.
    Parse(String),
    /// The service could not be started.
    Service(i32),
    /// The service answered with an error.
    Protocol(String),
}

/// Whether an error is a transport failure (send or receive), after which the
/// request/answer pairs on the connection are out of step.
pub open spec fn is_transport(e: DeviceDataError) -> bool {
    e is Send || e is Receive
}

/// A per-key answer as the reading loop uses it: transport failures are
/// passed on, any other failure just means the key has no value.
pub open spec fn key_answer<V>(r: Result<Option<V>, DeviceDataError>) -> Result<Option<V>, DeviceDataError> {
    match r {
        Ok(v) => Ok(v),
        Err(e) => if is_transport(e) {
            Err(e)
        } else {
            Ok(None)
        },
    }
}

pub fn keep_transport_errors<V>(r: Result<Option<V>, DeviceDataError>) -> (out: Result<Option<V>, DeviceDataError>)
    ensures
        out == key_answer(r),
{
    match r {
        Ok(v) => Ok(v),
        Err(DeviceDataError::Send(c)) => Err(DeviceDataError::Send(c)),
        Err(DeviceDataError::Receive(c)) => Err(DeviceDataError::Receive(c)),
        Err(_) => Ok(None),
    }
}

/// Battery state from the lockdown battery domain.
#[derive(Debug, Clone, Copy, PartialEq, Eq, Structural)]
pub struct LockdownBattery {
    pub level: u8,
    pub is_charging: bool,
    pub external_connected: bool,
}

/// A percentage, if the value is one (0 to 100).
pub open spec fn percent_of(v: Option<i64>) -> Option<u8> {
    match v {
        Some(l) => if 0 <= l <= 100 {
            Some(l as u8)
        } else {
            None
        },
        None => None,
    }
}

pub fn percent(v: Option<i64>) -> (r: Option<u8>)
    ensures
        r == percent_of(v),
{
    match v {
        Some(l) => if 0 <= l && l <= 100 {
            Some(l as u8)
        } else {
            None
        },
        None => None,
    }
}

/// The battery state of a device from its lockdown values: none unless the
/// level is a percentage.
pub fn lockdown_battery(level: Option<i64>, is_charging: bool, external_connected: bool) -> (r: Option<LockdownBattery>)
    ensures
        r == match percent_of(level) {
            Some(l) => Some(LockdownBattery { level: l, is_charging, external_connected }),
            None => None,
        },
{
    match percent(level) {
        Some(l) => Some(LockdownBattery { level: l, is_charging, external_connected }),
        None => None,
    }
}

/// A watch paired with an iPhone.
#[derive(Debug, Clone, PartialEq, Eq)]
pub struct CompanionDevice {
    pub udid: String,
    pub name: Option<String>,
    pub product_type: Option<String>,
    pub battery_level: Option<u8>,
    pub is_charging: bool,
}

/// A value read from the phone's registry of its watch.
#[derive(Debug, Clone, PartialEq, Eq)]
pub enum CompanionValue {
    Integer(i64),
    Boolean(bool),
    Text(String),
    Other,
}

/// The registry keys read for each watch, in the order they are read: the
/// battery first, as it is the value that matters if the watch stalls.
pub const COMPANION_KEYS: [&'static str; 4] = ["BatteryCurrentCapacity", "BatteryIsCharging", "DeviceName", "ProductType"];

pub open spec fn level_value(v: Option<CompanionValue>) -> Option<u8> {
    match v {
        Some(CompanionValue::Integer(l)) => percent_of(Some(l)),
        _ => None,
    }
}

pub open spec fn flag_value(v: Option<CompanionValue>) -> bool {
    match v {
        Some(CompanionValue::Boolean(b)) => b,
        _ => false,
    }
}

pub open spec fn text_value(v: Option<CompanionValue>) -> Option<String> {
    match v {
        Some(CompanionValue::Text(s)) => Some(s),
        _ => None,
    }
}

/// A watch from the values read for it, in key order; keys not reached (the
/// connection failed first) keep their empty value.
pub open spec fn companion_watch(udid: String, reads: Seq<Option<CompanionValue>>) -> CompanionDevice {
    CompanionDevice {
        udid,
        battery_level: if reads.len() > 0 { level_value(reads[0]) } else { None },
        is_charging: if reads.len() > 1 { flag_value(reads[1]) } else { false },
        name: if reads.len() > 2 { text_value(reads[2]) } else { None },
        product_type: if reads.len() > 3 { text_value(reads[3]) } else { None },
    }
}

fn level_from(v: &Option<CompanionValue>) -> (r: Option<u8>)
    ensures
        r == level_value(*v),
{
    match v {
        Some(CompanionValue::Integer(l)) => percent(Some(*l)),
        _ => None,
    }
}

fn flag_from(v: &Option<CompanionValue>) -> (r: bool)
    ensures
        r == flag_value(*v),
{
    match v {
        Some(CompanionValue::Boolean(b)) => *b,
        _ => false,
    }
}

fn text_from(v: &Option<CompanionValue>) -> (r: Option<String>)
    ensures
        r == text_value(*v),
{
    match v {
        Some(CompanionValue::Text(s)) => Some(s.clone()),
        _ => None,
    }
}

pub fn watch_from_reads(udid: String, reads: &Vec<Option<CompanionValue>>) -> (r: CompanionDevice)
    ensures
        r == companion_watch(udid, reads@),
{
    let n = reads.len();
    CompanionDevice {
        udid,
        battery_level: if n > 0 { level_from(&reads[0]) } else { None },
        is_charging: if n > 1 { flag_from(&reads[1]) } else { false },
        name: if n > 2 { text_from(&reads[2]) } else { None },
        product_type: if n > 3 { text_from(&reads[3]) } else { None },
    }
}

/// The walk over the watches paired to a phone: one watch per paired id, in
/// order, until the list ends or a transport failure leaves the connection
/// out of step.
pub struct CompanionScan {
    paired: Vec<String>,
    watches: Vec<CompanionDevice>,
    stopped: bool,
}

impl CompanionScan {
    pub closed spec fn paired(&self) -> Seq<String> {
        self.paired@
    }

    pub closed spec fn watches(&self) -> Seq<CompanionDevice> {
        self.watches@
    }

    pub closed spec fn stopped(&self) -> bool {
        self.stopped
    }

    /// The watches so far belong, in order, to the first paired ids.
    #[verifier::type_invariant]
    spec fn in_order(&self) -> bool {
        &&& self.watches@.len() <= self.paired@.len()
        &&& forall|i: int| 0 <= i < self.watches@.len() ==> #[trigger] self.watches@[i].udid == self.paired@[i]
    }

    /// The watches so far belong, in order, to the first paired ids.
    pub open spec fn wf(&self) -> bool {
        &&& self.watches().len() <= self.paired().len()
        &&& forall|i: int| 0 <= i < self.watches().len() ==> #[trigger] self.watches()[i].udid == self.paired()[i]
    }

    /// Starts the walk from the phone's registry answer: its error, if it
    /// reported one, and the ids of the paired watches.
    pub fn start(error: Option<String>, paired: Vec<String>) -> (r: Result<CompanionScan, DeviceDataError>)
        ensures
            error is Some ==> r == Err::<CompanionScan, DeviceDataError>(DeviceDataError::Protocol(error.unwrap())),
            error is None ==> (r matches Ok(s) && s.wf() && s.paired() == paired@ && s.watches().len() == 0
                && !s.stopped()),
    {
        match error {
            Some(e) => Err(DeviceDataError::Protocol(e)),
            None => Ok(CompanionScan { paired, watches: Vec::new(), stopped: false }),
        }
    }

    /// The id of the next watch to read, if the walk goes on.
    pub fn next_udid(&self) -> (r: Option<String>)
        ensures
            !self.stopped() && self.watches().len() < self.paired().len() ==> r == Some(
                self.paired()[self.watches().len() as int],
            ),
            self.stopped() || self.watches().len() >= self.paired().len() ==> r is None,
    {
        proof {
            use_type_invariant(self);
        }
        if self.stopped || self.watches.len() >= self.paired.len() {
            None
        } else {
            Some(self.paired[self.watches.len()].clone())
        }
    }

    /// Records the values read for the next watch; `desynced` when the reading
    /// stopped on a transport failure, which ends the walk.
    pub fn record(&mut self, reads: &Vec<Option<CompanionValue>>, desynced: bool)
        requires
            !old(self).stopped(),
            old(self).watches().len() < old(self).paired().len(),
        ensures
            final(self).wf(),
            final(self).paired() == old(self).paired(),
            final(self).watches() == old(self).watches().push(
                companion_watch(old(self).paired()[old(self).watches().len() as int], reads@),
            ),
            final(self).stopped() == desynced,
    {
        proof {
            use_type_invariant(&*self);
        }
        let udid = self.paired[self.watches.len()].clone();
        let w = watch_from_reads(udid, reads);
        let mut watches: Vec<CompanionDevice> = Vec::new();
        std::mem::swap(&mut watches, &mut self.watches);
        watches.push(w);
        self.watches = watches;
        self.stopped = desynced;
    }

    /// The watches read.
    pub fn into_watches(self) -> (r: Vec<CompanionDevice>)
        ensures
            r@ == self.watches(),
            r@.len() <= self.paired().len(),
            forall|i: int| 0 <= i < r@.len() ==> #[trigger] r@[i].udid == self.paired()[i],
    {
        proof {
            use_type_invariant(&self);
        }
        self.watches
    }
}

} // verus!

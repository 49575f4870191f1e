//! MobileDevice notifications and the device preparation sequence.
use vstd::prelude::*;

verus! {

/// An opaque MobileDevice device record; only ever handled by reference.
#[derive(Copy, Clone, Debug, Default)]
pub struct AMDevice {
    _data: [u8; 0],
}

/// An opaque MobileDevice notification subscription.
#[derive(Copy, Clone, Debug, Default)]
pub struct AMDeviceNotification {
    _data: [u8; 0],
}

/// What a device notification reports.
#[derive(Clone, Copy, Debug, PartialEq, Eq, Structural)]
#[non_exhaustive]
pub enum Action {
    /// A device has attached.
    Attached,
    /// A device has detached.
    Detached,
    /// The notification subscription has ended (unsubscribed, or the
    /// underlying notification system stopped responding).
    NotificationStopped,
    Paired,
}

/// The action a raw notification code stands for; `None` for codes that name
/// no action.
pub open spec fn action_of(raw: i32) -> Option<Action> {
    if raw == 1 {
        Some(Action::Attached)
    } else if raw == 2 {
        Some(Action::Detached)
    } else if raw == 3 {
        Some(Action::NotificationStopped)
    } else if raw == 4 {
        Some(Action::Paired)
    } else {
        None
    }
}

/// The raw notification code of an action.
pub open spec fn action_code(a: Action) -> i32 {
    match a {
        Action::Attached => 1,
        Action::Detached => 2,
        Action::NotificationStopped => 3,
        Action::Paired => 4,
    }
}

impl Action {
    /// The raw notification code of this action (1 to 4).
    pub fn to_raw(self) -> (r: i32)
        ensures
            r == action_code(self),
    {
        match self {
            Action::Attached => 1,
            Action::Detached => 2,
            Action::NotificationStopped => 3,
            Action::Paired => 4,
        }
    }

    /// Decodes the callback's raw action field, which is not trusted to be a
    /// valid code.
    pub fn from_raw(raw: i32) -> (r: Option<Self>)
        ensures
            r == action_of(raw),
    {
        match raw {
            1 => Some(Action::Attached),
            2 => Some(Action::Detached),
            3 => Some(Action::NotificationStopped),
            4 => Some(Action::Paired),
            _ => None,
        }
    }
}

/// Encoding an action and decoding its code gives the action back, and the
/// codes that decode are exactly the codes of actions.
pub proof fn lemma_action_code_roundtrip(a: Action, raw: i32)
    ensures
        action_of(action_code(a)) == Some(a),
        action_of(raw) matches Some(b) ==> action_code(b) == raw,
{
}

/// How a device is connected.
#[derive(Copy, Clone, Debug, PartialEq, Eq, PartialOrd, Ord, Hash, Structural)]
pub enum InterfaceType {
    Unknown,
    USB,
    WiFi,
}

/// The interface a raw code stands for; unknown codes are `Unknown`.
pub open spec fn interface_of(raw: i32) -> InterfaceType {
    if raw == 1 {
        InterfaceType::USB
    } else if raw == 2 {
        InterfaceType::WiFi
    } else {
        InterfaceType::Unknown
    }
}

impl InterfaceType {
    pub fn from_raw(raw: i32) -> (r: Self)
        ensures
            r == interface_of(raw),
    {
        match raw {
            1 => InterfaceType::USB,
            2 => InterfaceType::WiFi,
            _ => InterfaceType::Unknown,
        }
    }
}

/// Keys accepted in the options of a notification subscription.
pub const ENABLE_USBMUX: &'static str = "NotificationOptionEnableUSBMux";

pub const SEARCH_FOR_PAIRED_DEVICES: &'static str = "NotificationOptionSearchForPairedDevices";

pub const ENABLE_REMOTE_XPC: &'static str = "NotificationOptionEnableRemoteXPC";

/// A failed step of preparing a device, with the status code it returned.
#[derive(Debug, Clone, Copy, PartialEq, Eq, Structural)]
pub enum DeviceError {
    Connect(i32),
    Pair(i32),
    Validate(i32),
    Session(i32),
}

/// A MobileDevice call's status: 0 is success, anything else the error code.
pub open spec fn status_of(code: i32) -> Result<(), i32> {
    if code == 0 {
        Ok(())
    } else {
        Err(code)
    }
}

/// The result of a MobileDevice call by its status code.
pub fn call_status(code: i32) -> (r: Result<(), i32>)
    ensures
        r == status_of(code),
{
    if code == 0 {
        Ok(())
    } else {
        Err(code)
    }
}

/// The steps of preparing a device: connect, pair unless already paired,
/// validate the pairing, start a session.
#[derive(Debug, Clone, Copy, PartialEq, Eq, Structural)]
pub enum PrepareStep {
    Connect,
    CheckPaired,
    Pair,
    Validate,
    StartSession,
}

/// Where preparation stands after a step.
#[derive(Debug, Clone, Copy, PartialEq, Eq, Structural)]
pub enum PrepareOutcome {
    Next(PrepareStep),
    Ready,
    Failed(DeviceError),
}

/// What follows a step, given the code the step's call returned (for
/// `CheckPaired`, the is-paired answer: 1 when paired).
pub open spec fn prepare_after(step: PrepareStep, code: i32) -> PrepareOutcome {
    match step {
        PrepareStep::Connect => if code == 0 {
            PrepareOutcome::Next(PrepareStep::CheckPaired)
        } else {
            PrepareOutcome::Failed(DeviceError::Connect(code))
        },
        PrepareStep::CheckPaired => if code == 1 {
            PrepareOutcome::Next(PrepareStep::Validate)
        } else {
            PrepareOutcome::Next(PrepareStep::Pair)
        },
        PrepareStep::Pair => if code == 0 {
            PrepareOutcome::Next(PrepareStep::Validate)
        } else {
            PrepareOutcome::Failed(DeviceError::Pair(code))
        },
        PrepareStep::Validate => if code == 0 {
            PrepareOutcome::Next(PrepareStep::StartSession)
        } else {
            PrepareOutcome::Failed(DeviceError::Validate(code))
        },
        PrepareStep::StartSession => if code == 0 {
            PrepareOutcome::Ready
        } else {
            PrepareOutcome::Failed(DeviceError::Session(code))
        },
    }
}

/// Advances device preparation by one step.
pub fn prepare_step(step: PrepareStep, code: i32) -> (r: PrepareOutcome)
    ensures
        r == prepare_after(step, code),
{
    match step {
        PrepareStep::Connect => if code == 0 {
            PrepareOutcome::Next(PrepareStep::CheckPaired)
        } else {
            PrepareOutcome::Failed(DeviceError::Connect(code))
        },
        PrepareStep::CheckPaired => if code == 1 {
            PrepareOutcome::Next(PrepareStep::Validate)
        } else {
            PrepareOutcome::Next(PrepareStep::Pair)
        },
        PrepareStep::Pair => if code == 0 {
            PrepareOutcome::Next(PrepareStep::Validate)
        } else {
            PrepareOutcome::Failed(DeviceError::Pair(code))
        },
        PrepareStep::Validate => if code == 0 {
            PrepareOutcome::Next(PrepareStep::StartSession)
        } else {
            PrepareOutcome::Failed(DeviceError::Validate(code))
        },
        PrepareStep::StartSession => if code == 0 {
            PrepareOutcome::Ready
        } else {
            PrepareOutcome::Failed(DeviceError::Session(code))
        },
    }
}

/// The codes each step's call returns on one device.
pub struct PrepareCodes {
    pub connect: i32,
    pub is_paired: i32,
    pub pair: i32,
    pub validate: i32,
    pub session: i32,
}

pub open spec fn code_for(step: PrepareStep, c: PrepareCodes) -> i32 {
    match step {
        PrepareStep::Connect => c.connect,
        PrepareStep::CheckPaired => c.is_paired,
        PrepareStep::Pair => c.pair,
        PrepareStep::Validate => c.validate,
        PrepareStep::StartSession => c.session,
    }
}

/// Runs the steps from `step` on, for at most `fuel` steps.
pub open spec fn drive(step: PrepareStep, c: PrepareCodes, fuel: nat) -> PrepareOutcome
    decreases fuel,
{
    if fuel == 0 {
        PrepareOutcome::Next(step)
    } else {
        match prepare_after(step, code_for(step, c)) {
            PrepareOutcome::Next(s) => drive(s, c, (fuel - 1) as nat),
            o => o,
        }
    }
}

/// Preparation as one procedure: connect; pair if the device is not paired;
/// validate the pairing; start a session; the first failure is the result.
pub open spec fn prepare_result(c: PrepareCodes) -> Result<(), DeviceError> {
    if c.connect != 0 {
        Err(DeviceError::Connect(c.connect))
    } else if c.is_paired != 1 && c.pair != 0 {
        Err(DeviceError::Pair(c.pair))
    } else if c.validate != 0 {
        Err(DeviceError::Validate(c.validate))
    } else if c.session != 0 {
        Err(DeviceError::Session(c.session))
    } else {
        Ok(())
    }
}

/// Stepping from `Connect` ends, within five steps, in `Ready` exactly when
/// the procedure succeeds, and otherwise in the procedure's first failure.
pub proof fn lemma_prepare_steps_match_procedure(c: PrepareCodes)
    ensures
        drive(PrepareStep::Connect, c, 5) == match prepare_result(c) {
            Ok(()) => PrepareOutcome::Ready,
            Err(e) => PrepareOutcome::Failed(e),
        },
{
    reveal_with_fuel(drive, 6);
}

} // verus!

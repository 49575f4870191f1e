//! The app's events and preferences, and the decisions of the local power
//! sender.
use vstd::prelude::*;

use crate::ffi::{Action, InterfaceType};
use crate::text::{chars_of, eq_lit};

verus! {

#[derive(Debug, Clone, Copy, PartialEq, Eq, Structural)]
pub enum Theme {
    Light,
    Dark,
    System,
}

/// Which figure the status bar shows.
#[derive(Debug, Clone, Copy, Default, PartialEq, Eq, Structural)]
pub enum StatusBarItem {
    #[default]
    System,
    Screen,
    Heatpipe,
}

/// The status bar item a stored preference names; names it does not know
/// fall back to `System`.
pub open spec fn status_bar_item_named(s: Seq<char>) -> StatusBarItem {
    if s == "screen"@ {
        StatusBarItem::Screen
    } else if s == "heatpipe"@ {
        StatusBarItem::Heatpipe
    } else {
        StatusBarItem::System
    }
}

impl StatusBarItem {
    pub fn from_name(name: &str) -> (r: StatusBarItem)
        ensures
            r == status_bar_item_named(name@),
    {
        let c = chars_of(name);
        if eq_lit(&c, "screen") {
            StatusBarItem::Screen
        } else if eq_lit(&c, "heatpipe") {
            StatusBarItem::Heatpipe
        } else {
            StatusBarItem::System
        }
    }
}

/// A preference changed in the window.
#[derive(Debug, Clone)]
pub enum PreferenceEvent {
    Theme(Theme),
    AnimationsEnabled(bool),
    UpdateInterval(u32),
    Language(String),
    StatusBarItem(StatusBarItem),
    StatusBarShowCharging(bool),
}

/// A device attached or detached.
#[derive(Debug, Clone)]
pub struct DeviceEvent {
    pub udid: String,
    pub name: String,
    pub interface: InterfaceType,
    pub action: Action,
}

/// The status bar text.
#[derive(Debug, Clone)]
pub struct PowerUpdatedEvent(pub String);

/// The main window has loaded.
#[derive(Debug, Clone, Copy)]
pub struct WindowLoadedEvent;

/// A message to the local power sender. Intervals are in milliseconds.
#[derive(Debug, Clone, Copy, PartialEq, Eq, Structural)]
pub enum SenderMessage {
    ImmediateSend,
    ChangeInterval(u64),
    ChangeStatusBarItem(StatusBarItem),
    StatusBarShowCharging(bool),
}

/// The sender message a preference change calls for, if any.
pub open spec fn message_for(e: PreferenceEvent) -> Option<SenderMessage> {
    match e {
        PreferenceEvent::UpdateInterval(ms) => Some(SenderMessage::ChangeInterval(ms as u64)),
        PreferenceEvent::StatusBarItem(item) => Some(SenderMessage::ChangeStatusBarItem(item)),
        PreferenceEvent::StatusBarShowCharging(show) => Some(SenderMessage::StatusBarShowCharging(show)),
        _ => None,
    }
}

pub fn preference_message(e: &PreferenceEvent) -> (r: Option<SenderMessage>)
    ensures
        r == message_for(*e),
{
    match e {
        PreferenceEvent::UpdateInterval(ms) => Some(SenderMessage::ChangeInterval(*ms as u64)),
        PreferenceEvent::StatusBarItem(item) => Some(SenderMessage::ChangeStatusBarItem(*item)),
        PreferenceEvent::StatusBarShowCharging(show) => Some(SenderMessage::StatusBarShowCharging(*show)),
        _ => None,
    }
}

pub const MIN_INTERVAL_MS: u64 = 500;

pub const MAX_INTERVAL_MS: u64 = 60_000;

pub const DEFAULT_INTERVAL_MS: u64 = 2000;

/// An update interval brought within 500 ms to 60 s.
pub open spec fn clamped_interval(ms: u64) -> u64 {
    if ms < MIN_INTERVAL_MS {
        MIN_INTERVAL_MS
    } else if ms > MAX_INTERVAL_MS {
        MAX_INTERVAL_MS
    } else {
        ms
    }
}

pub fn clamp_interval(ms: u64) -> (r: u64)
    ensures
        r == clamped_interval(ms),
{
    if ms < MIN_INTERVAL_MS {
        MIN_INTERVAL_MS
    } else if ms > MAX_INTERVAL_MS {
        MAX_INTERVAL_MS
    } else {
        ms
    }
}

/// The SMC figure the status bar shows.
#[derive(Debug, Clone, Copy, PartialEq, Eq, Structural)]
pub enum StatusBarSource {
    DeliveryRate,
    SystemTotal,
    Brightness,
    Heatpipe,
}

/// While charging, and if asked to, the power delivered; otherwise the
/// chosen item.
pub open spec fn status_source_of(is_charging: bool, item: StatusBarItem, show_charging: bool) -> StatusBarSource {
    if is_charging && show_charging {
        StatusBarSource::DeliveryRate
    } else {
        match item {
            StatusBarItem::System => StatusBarSource::SystemTotal,
            StatusBarItem::Screen => StatusBarSource::Brightness,
            StatusBarItem::Heatpipe => StatusBarSource::Heatpipe,
        }
    }
}

pub fn status_bar_source(is_charging: bool, item: StatusBarItem, show_charging: bool) -> (r: StatusBarSource)
    ensures
        r == status_source_of(is_charging, item, show_charging),
{
    if is_charging && show_charging {
        return StatusBarSource::DeliveryRate;
    }
    match item {
        StatusBarItem::System => StatusBarSource::SystemTotal,
        StatusBarItem::Screen => StatusBarSource::Brightness,
        StatusBarItem::Heatpipe => StatusBarSource::Heatpipe,
    }
}

/// The local power sender's settings.
#[derive(Debug, Clone, Copy, PartialEq, Eq, Structural)]
pub struct SenderState {
    pub interval_ms: u64,
    pub status_bar_item: StatusBarItem,
    pub show_charging: bool,
}

/// What the sender does after a message.
#[derive(Debug, Clone, Copy, PartialEq, Eq, Structural)]
pub enum SenderAction {
    /// Read the sensors and send a full power tick.
    EmitTick,
    /// Restart the timer with this interval.
    ResetTimer(u64),
    /// Read the sensors and send the status bar text only.
    EmitStatus,
}

impl SenderState {
    /// The settings read from the stored preferences, with their defaults:
    /// a 2 s interval, the system figure, showing the charge rate.
    pub fn from_preferences(interval_ms: Option<u64>, item: Option<StatusBarItem>, show_charging: Option<bool>) -> (r: Self)
        ensures
            r.interval_ms == match interval_ms {
                Some(ms) => ms,
                None => DEFAULT_INTERVAL_MS,
            },
            r.status_bar_item == match item {
                Some(i) => i,
                None => StatusBarItem::System,
            },
            r.show_charging == match show_charging {
                Some(b) => b,
                None => true,
            },
    {
        SenderState {
            interval_ms: match interval_ms {
                Some(ms) => ms,
                None => DEFAULT_INTERVAL_MS,
            },
            status_bar_item: match item {
                Some(i) => i,
                None => StatusBarItem::System,
            },
            show_charging: match show_charging {
                Some(b) => b,
                None => true,
            },
        }
    }
}

/// The sender's settings and action after a message.
pub open spec fn sender_after(s: SenderState, m: SenderMessage) -> (SenderState, SenderAction) {
    match m {
        SenderMessage::ImmediateSend => (s, SenderAction::EmitTick),
        SenderMessage::ChangeInterval(ms) => {
            let c = clamped_interval(ms);
            (SenderState { interval_ms: c, ..s }, SenderAction::ResetTimer(c))
        },
        SenderMessage::ChangeStatusBarItem(item) => (SenderState { status_bar_item: item, ..s }, SenderAction::EmitStatus),
        SenderMessage::StatusBarShowCharging(show) => (SenderState { show_charging: show, ..s }, SenderAction::EmitStatus),
    }
}

/// Handles one message: updates the settings and says what to do.
pub fn sender_step(state: &mut SenderState, m: SenderMessage) -> (r: SenderAction)
    ensures
        (*final(state), r) == sender_after(*old(state), m),
{
    match m {
        SenderMessage::ImmediateSend => SenderAction::EmitTick,
        SenderMessage::ChangeInterval(ms) => {
            let c = clamp_interval(ms);
            state.interval_ms = c;
            SenderAction::ResetTimer(c)
        },
        SenderMessage::ChangeStatusBarItem(item) => {
            state.status_bar_item = item;
            SenderAction::EmitStatus
        },
        SenderMessage::StatusBarShowCharging(show) => {
            state.show_charging = show;
            SenderAction::EmitStatus
        },
    }
}

/// Every interval the sender restarts its timer with lies within 500 ms and
/// 60 s, and a message changes at most the one setting it is about.
pub proof fn lemma_sender_settings(s: SenderState, m: SenderMessage)
    ensures
        sender_after(s, m).1 matches SenderAction::ResetTimer(ms) ==> MIN_INTERVAL_MS <= ms <= MAX_INTERVAL_MS
            && sender_after(s, m).0.interval_ms == ms,
        m is ImmediateSend ==> sender_after(s, m).0 == s,
        !(m is ChangeInterval) ==> sender_after(s, m).0.interval_ms == s.interval_ms,
        !(m is ChangeStatusBarItem) ==> sender_after(s, m).0.status_bar_item == s.status_bar_item,
        !(m is StatusBarShowCharging) ==> sender_after(s, m).0.show_charging == s.show_charging,
{
}

} // verus!

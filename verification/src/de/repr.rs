//! The battery registry as the power manager reports it, field for field,
//! before the charger's own data is folded in.
use vstd::prelude::*;

use crate::de::BatteryData;

verus! {

/// The diagnostics relay's answer, which wraps the registry.
#[derive(Debug, Clone)]
pub struct IORegistryDiagnostic {
    pub diagnostics: Diagnostics,
}

#[derive(Debug, Clone)]
pub struct Diagnostics {
    pub ioregistry: IORegistry,
}

#[derive(Debug, Clone, Default)]
pub struct AdapterDetails {
    pub adapter_voltage: Option<i32>,
    pub is_wireless: Option<bool>,
    pub watts: Option<i32>,
    pub name: Option<String>,
    pub current: Option<i32>,
    pub description: Option<String>,
}

#[derive(Debug, Clone, Copy, Default)]
pub struct PowerTelemetryData {
    pub adapter_efficiency_loss: i32,
    pub battery_power: i64,
    pub system_current_in: i32,
    pub system_energy_consumed: i64,
    pub system_load: i64,
    pub system_power_in: i32,
    pub system_voltage_in: i32,
}

#[derive(Debug, Clone, Copy, Default)]
pub struct ChargerData {
    pub not_charging_reason: Option<i64>,
}

#[derive(Debug, Clone, Default)]
pub struct IORegistry {
    pub adapter_details: AdapterDetails,
    pub charger_data: Option<ChargerData>,
    pub power_telemetry_data: Option<PowerTelemetryData>,
    pub battery_data: Option<BatteryData>,
    pub absolute_capacity: i32,
    pub amperage: i32,
    pub voltage: i32,
    pub apple_raw_battery_voltage: Option<i32>,
    pub apple_raw_current_capacity: i32,
    pub apple_raw_max_capacity: i32,
    pub nominal_charge_capacity: Option<i32>,
    pub current_capacity: i32,
    pub cycle_count: i32,
    pub design_capacity: i32,
    pub fully_charged: bool,
    pub instant_amperage: i32,
    pub is_charging: bool,
    pub max_capacity: i32,
    pub temperature: i32,
    pub time_remaining: i32,
    pub not_charging_reason: Option<i64>,
    pub update_time: i64,
}

} // verus!

//! The battery registry (`AppleSmartBattery` / `IOPMPowerSource`): the
//! values the library works with, and how they are read from the raw form.
use vstd::prelude::*;
use vstd::std_specs::convert::FromSpecImpl;

pub mod repr;

verus! {

/// The diagnostics relay's answer, which wraps the registry.
#[derive(Debug, Clone)]
pub struct IORegistryDiagnostic {
    pub diagnostics: Diagnostics,
}

#[derive(Debug, Clone)]
pub struct Diagnostics {
    pub ioregistry: IORegistry,
}

/// What the power adapter reports about itself.
#[derive(Debug, Clone)]
pub struct AdapterDetails {
    pub adapter_voltage: Option<i32>,
    pub is_wireless: Option<bool>,
    pub watts: Option<i32>,
    pub name: Option<String>,
    pub current: Option<i32>,
    pub description: Option<String>,
}

/// Power telemetry, in milliwatts and milliamps.
#[derive(Debug, Clone, Copy, Default)]
pub struct PowerTelemetryData {
    pub adapter_efficiency_loss: i32,
    pub battery_power: i64,
    pub system_current_in: i32,
    pub system_energy_consumed: i64,
    pub system_load: i64,
    pub system_power_in: i32,
    pub system_voltage_in: i32,
}

/// The charger's own report.
#[derive(Debug, Clone, Copy, Default)]
pub struct ChargerData {
    pub not_charging_reason: Option<i64>,
}

/// The battery gauge's capacities in mAh (0 when it does not report one).
#[derive(Debug, Clone, Copy, Default)]
pub struct BatteryData {
    pub full_charge_capacity: i32,
    pub remaining_capacity: i32,
    pub design_capacity: i32,
}

/// The battery registry.
#[derive(Debug, Clone)]
pub struct IORegistry {
    pub adapter_details: AdapterDetails,
    pub charger_data: Option<ChargerData>,
    pub power_telemetry_data: Option<PowerTelemetryData>,
    pub battery_data: Option<BatteryData>,
    pub absolute_capacity: i32,
    pub amperage: i32,
    pub voltage: i32,
    pub apple_raw_battery_voltage: Option<i32>,
    pub apple_raw_current_capacity: i32,
    pub apple_raw_max_capacity: i32,
    pub nominal_charge_capacity: Option<i32>,
    pub current_capacity: i32,
    pub cycle_count: i32,
    pub design_capacity: i32,
    pub fully_charged: bool,
    pub instant_amperage: i32,
    pub is_charging: bool,
    pub max_capacity: i32,
    pub temperature: i32,
    pub time_remaining: i32,
    pub not_charging_reason: Option<i64>,
    pub update_time: i64,
}

/// An adapter that reports nothing.
pub open spec fn no_adapter() -> AdapterDetails {
    AdapterDetails {
        adapter_voltage: None,
        is_wireless: None,
        watts: None,
        name: None,
        current: None,
        description: None,
    }
}

impl Default for AdapterDetails {
    fn default() -> (r: Self)
        ensures
            r == no_adapter(),
    {
        AdapterDetails {
            adapter_voltage: None,
            is_wireless: None,
            watts: None,
            name: None,
            current: None,
            description: None,
        }
    }
}

/// A registry that reports nothing: every figure zero, nothing present.
pub open spec fn empty_registry() -> IORegistry {
    IORegistry {
        adapter_details: no_adapter(),
        charger_data: None,
        power_telemetry_data: None,
        battery_data: None,
        absolute_capacity: 0,
        amperage: 0,
        voltage: 0,
        apple_raw_battery_voltage: None,
        apple_raw_current_capacity: 0,
        apple_raw_max_capacity: 0,
        nominal_charge_capacity: None,
        current_capacity: 0,
        cycle_count: 0,
        design_capacity: 0,
        fully_charged: false,
        instant_amperage: 0,
        is_charging: false,
        max_capacity: 0,
        temperature: 0,
        time_remaining: 0,
        not_charging_reason: None,
        update_time: 0,
    }
}

impl Default for IORegistry {
    fn default() -> (r: Self)
        ensures
            r == empty_registry(),
    {
        IORegistry {
            adapter_details: AdapterDetails::default(),
            charger_data: None,
            power_telemetry_data: None,
            battery_data: None,
            absolute_capacity: 0,
            amperage: 0,
            voltage: 0,
            apple_raw_battery_voltage: None,
            apple_raw_current_capacity: 0,
            apple_raw_max_capacity: 0,
            nominal_charge_capacity: None,
            current_capacity: 0,
            cycle_count: 0,
            design_capacity: 0,
            fully_charged: false,
            instant_amperage: 0,
            is_charging: false,
            max_capacity: 0,
            temperature: 0,
            time_remaining: 0,
            not_charging_reason: None,
            update_time: 0,
        }
    }
}

/// Why the battery is not charging: the registry's own reason, else the one
/// the charger reports.
pub open spec fn reason_of(r: repr::IORegistry) -> Option<i64> {
    match r.not_charging_reason {
        Some(n) => Some(n),
        None => match r.charger_data {
            Some(c) => c.not_charging_reason,
            None => None,
        },
    }
}

pub open spec fn telemetry_of(d: Option<repr::PowerTelemetryData>) -> Option<PowerTelemetryData> {
    match d {
        Some(d) => Some(
            PowerTelemetryData {
                adapter_efficiency_loss: d.adapter_efficiency_loss,
                battery_power: d.battery_power,
                system_current_in: d.system_current_in,
                system_energy_consumed: d.system_energy_consumed,
                system_load: d.system_load,
                system_power_in: d.system_power_in,
                system_voltage_in: d.system_voltage_in,
            },
        ),
        None => None,
    }
}

pub open spec fn charger_of(c: Option<repr::ChargerData>) -> Option<ChargerData> {
    match c {
        Some(c) => Some(ChargerData { not_charging_reason: c.not_charging_reason }),
        None => None,
    }
}

/// The registry read from its raw form: every field carried over, and the
/// charger's reason used where the registry has none.
pub open spec fn registry_of(r: repr::IORegistry) -> IORegistry {
    IORegistry {
        adapter_details: AdapterDetails {
            adapter_voltage: r.adapter_details.adapter_voltage,
            is_wireless: r.adapter_details.is_wireless,
            watts: r.adapter_details.watts,
            name: r.adapter_details.name,
            current: r.adapter_details.current,
            description: r.adapter_details.description,
        },
        charger_data: charger_of(r.charger_data),
        power_telemetry_data: telemetry_of(r.power_telemetry_data),
        battery_data: r.battery_data,
        absolute_capacity: r.absolute_capacity,
        amperage: r.amperage,
        voltage: r.voltage,
        apple_raw_battery_voltage: r.apple_raw_battery_voltage,
        apple_raw_current_capacity: r.apple_raw_current_capacity,
        apple_raw_max_capacity: r.apple_raw_max_capacity,
        nominal_charge_capacity: r.nominal_charge_capacity,
        current_capacity: r.current_capacity,
        cycle_count: r.cycle_count,
        design_capacity: r.design_capacity,
        fully_charged: r.fully_charged,
        instant_amperage: r.instant_amperage,
        is_charging: r.is_charging,
        max_capacity: r.max_capacity,
        temperature: r.temperature,
        time_remaining: r.time_remaining,
        not_charging_reason: reason_of(r),
        update_time: r.update_time,
    }
}

impl From<repr::IORegistry> for IORegistry {
    fn from(r: repr::IORegistry) -> (out: Self) {
        let not_charging_reason = match r.not_charging_reason {
            Some(n) => Some(n),
            None => match r.charger_data {
                Some(c) => c.not_charging_reason,
                None => None,
            },
        };
        let power_telemetry_data = match r.power_telemetry_data {
            Some(d) => Some(
                PowerTelemetryData {
                    adapter_efficiency_loss: d.adapter_efficiency_loss,
                    battery_power: d.battery_power,
                    system_current_in: d.system_current_in,
                    system_energy_consumed: d.system_energy_consumed,
                    system_load: d.system_load,
                    system_power_in: d.system_power_in,
                    system_voltage_in: d.system_voltage_in,
                },
            ),
            None => None,
        };
        let charger_data = match r.charger_data {
            Some(c) => Some(ChargerData { not_charging_reason: c.not_charging_reason }),
            None => None,
        };
        IORegistry {
            adapter_details: AdapterDetails {
                adapter_voltage: r.adapter_details.adapter_voltage,
                is_wireless: r.adapter_details.is_wireless,
                watts: r.adapter_details.watts,
                name: r.adapter_details.name,
                current: r.adapter_details.current,
                description: r.adapter_details.description,
            },
            charger_data,
            power_telemetry_data,
            battery_data: r.battery_data,
            absolute_capacity: r.absolute_capacity,
            amperage: r.amperage,
            voltage: r.voltage,
            apple_raw_battery_voltage: r.apple_raw_battery_voltage,
            apple_raw_current_capacity: r.apple_raw_current_capacity,
            apple_raw_max_capacity: r.apple_raw_max_capacity,
            nominal_charge_capacity: r.nominal_charge_capacity,
            current_capacity: r.current_capacity,
            cycle_count: r.cycle_count,
            design_capacity: r.design_capacity,
            fully_charged: r.fully_charged,
            instant_amperage: r.instant_amperage,
            is_charging: r.is_charging,
            max_capacity: r.max_capacity,
            temperature: r.temperature,
            time_remaining: r.time_remaining,
            not_charging_reason,
            update_time: r.update_time,
        }
    }
}

impl FromSpecImpl<repr::IORegistry> for IORegistry {
    open spec fn obeys_from_spec() -> bool {
        true
    }

    open spec fn from_spec(v: repr::IORegistry) -> IORegistry {
        registry_of(v)
    }
}

impl std::ops::Deref for IORegistry {
    type Target = Option<PowerTelemetryData>;

    /// The registry reads as its power telemetry.
    fn deref(&self) -> (r: &Option<PowerTelemetryData>)
        ensures
            *r == self.power_telemetry_data,
    {
        &self.power_telemetry_data
    }
}

impl IORegistry {
    /// The power telemetry, where the registry has it.
    pub fn ptd(&self) -> (r: Option<&PowerTelemetryData>)
        ensures
            r is Some <==> self.power_telemetry_data is Some,
            r is Some ==> *r.unwrap() == self.power_telemetry_data.unwrap(),
    {
        match &self.power_telemetry_data {
            Some(d) => Some(d),
            None => None,
        }
    }

    /// Reads the registry out of the diagnostics relay's answer.
    pub fn from_diagnostic(d: repr::IORegistryDiagnostic) -> (r: IORegistry)
        ensures
            r == registry_of(d.diagnostics.ioregistry),
    {
        IORegistry::from(d.diagnostics.ioregistry)
    }
}

/// Where the registry reports a reason of its own, the charger's is not
/// consulted; where it reports none, the charger's reason (if any) is kept.
pub proof fn lemma_reason_fallback(r: repr::IORegistry)
    ensures
        r.not_charging_reason is Some ==> registry_of(r).not_charging_reason == r.not_charging_reason,
        r.not_charging_reason is None && r.charger_data is Some ==> registry_of(r).not_charging_reason
            == r.charger_data.unwrap().not_charging_reason,
        r.not_charging_reason is None && r.charger_data is None ==> registry_of(r).not_charging_reason is None,
{
}

} // verus!

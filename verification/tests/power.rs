use tpower::de::{repr, AdapterDetails, BatteryData, ChargerData, IORegistry, PowerTelemetryData};
use tpower::provider::{
    adapter_name, get_mac_ioreg, local_cycle_count, local_summary, local_time_source, read_local_ioreg,
    real_capacity_from, remain_secs_from_minutes, remote_summary, PowerHistory, TimeSource,
};

fn registry() -> IORegistry {
    IORegistry::default()
}

#[test]
fn gauge_capacities_win_when_reported() {
    let mut io = registry();
    io.apple_raw_max_capacity = 5000;
    io.apple_raw_current_capacity = 2500;
    io.design_capacity = 6000;
    io.nominal_charge_capacity = Some(5100);
    assert_eq!(real_capacity_from(&io), (5100, 2500, 6000));
    io.battery_data = Some(BatteryData { full_charge_capacity: 5200, remaining_capacity: 2600, design_capacity: 0 });
    assert_eq!(real_capacity_from(&io), (5200, 2600, 6000));
    io.battery_data = Some(BatteryData { full_charge_capacity: 0, remaining_capacity: 0, design_capacity: 6100 });
    io.nominal_charge_capacity = Some(0);
    assert_eq!(real_capacity_from(&io), (5000, 2500, 6100));
}

#[test]
fn unknown_time_left_is_zero() {
    assert_eq!(remain_secs_from_minutes(65535), 0);
    assert_eq!(remain_secs_from_minutes(0), 0);
    assert_eq!(remain_secs_from_minutes(-5), 0);
    assert_eq!(remain_secs_from_minutes(90), 5400);
}

#[test]
fn adapter_name_falls_back_to_description() {
    let mut ad = AdapterDetails::default();
    assert_eq!(adapter_name(&ad), None);
    ad.description = Some("pd charger".into());
    assert_eq!(adapter_name(&ad).as_deref(), Some("pd charger"));
    ad.name = Some("96W USB-C".into());
    assert_eq!(adapter_name(&ad).as_deref(), Some("96W USB-C"));
}

#[test]
fn a_phone_charges_when_an_adapter_delivers_power() {
    let mut io = registry();
    io.time_remaining = 30;
    io.current_capacity = 80;
    io.cycle_count = 12;
    io.update_time = 99;
    io.adapter_details.watts = Some(20);
    let s = remote_summary(&io);
    assert!(!s.is_local);
    assert!(s.is_charging);
    assert_eq!(s.time_remain_secs, 1800);
    assert_eq!((s.battery_level, s.cycle_count, s.last_update), (80, 12, 99));
    io.adapter_details.watts = Some(0);
    assert!(!remote_summary(&io).is_charging);
}

#[test]
fn local_cycle_count_prefers_the_registry() {
    assert_eq!(local_cycle_count(120, 130), 120);
    assert_eq!(local_cycle_count(0, 130), 130);
    assert_eq!(local_cycle_count(0, 0), 0);
    assert_eq!(local_cycle_count(-1, 0), -1);
}

#[test]
fn local_reading_charges_by_smc_status_or_adapter_watts() {
    let mut io = registry();
    let s = local_summary(&io, true, 60, 3);
    assert!(s.is_local && s.is_charging);
    assert_eq!((s.time_remain_secs, s.cycle_count), (60, 3));
    assert!(!local_summary(&io, false, 0, 0).is_charging);
    io.adapter_details.watts = Some(30);
    assert!(local_summary(&io, false, 0, 0).is_charging);
    io.adapter_details.watts = Some(0);
    assert!(!local_summary(&io, false, 0, 0).is_charging);
    assert_eq!(local_time_source(true, true), TimeSource::ToFull);
    assert_eq!(local_time_source(true, false), TimeSource::Nothing);
    assert_eq!(local_time_source(false, true), TimeSource::ToEmpty);
}

#[test]
fn registry_uses_the_chargers_reason_as_fallback() {
    let mut raw = repr::IORegistry::default();
    raw.charger_data = Some(repr::ChargerData { not_charging_reason: Some(7) });
    raw.power_telemetry_data = Some(repr::PowerTelemetryData { system_load: 5000, ..Default::default() });
    let io = IORegistry::from(raw.clone());
    assert_eq!(io.not_charging_reason, Some(7));
    assert_eq!(io.charger_data.map(|c| c.not_charging_reason), Some(Some(7)));
    assert_eq!(io.ptd().map(|d| d.system_load), Some(5000));
    raw.not_charging_reason = Some(2);
    assert_eq!(IORegistry::from(raw).not_charging_reason, Some(2));
    let empty: ChargerData = ChargerData::default();
    assert_eq!(empty.not_charging_reason, None);
    let _unused = PowerTelemetryData::default();
}

#[test]
fn reading_failures_fall_back_to_an_empty_registry() {
    let io = read_local_ioreg(Err(anyhow::Error::msg("no battery")));
    assert_eq!(io.current_capacity, 0);
    assert!(io.power_telemetry_data.is_none());
    let mut raw = repr::IORegistry::default();
    raw.cycle_count = 3;
    assert_eq!(get_mac_ioreg(Ok(raw)).unwrap().cycle_count, 3);
    assert!(get_mac_ioreg(Err(anyhow::Error::msg("no service"))).is_err());
}

#[test]
fn histories_keep_their_latest_samples() {
    let mut h = PowerHistory::new();
    for i in 0..60u64 {
        h.push(i, i * 2, i * 3);
    }
    let b = h.battery_history(1000);
    assert_eq!(b.len(), 50);
    assert_eq!(b[0], 10);
    assert_eq!(*b.last().unwrap(), 59);
    assert_eq!(h.input_history(3), vec![114, 116, 118]);
    assert_eq!(h.system_history(1000).len(), 60);
    assert_eq!(h.system_history(0), Vec::<u64>::new());
}

#[test]
fn the_registry_reads_as_its_telemetry() {
    let mut io = registry();
    assert!(io.is_none());
    io.power_telemetry_data = Some(PowerTelemetryData { system_load: 9, ..Default::default() });
    assert_eq!(io.as_ref().map(|d| d.system_load), Some(9));
}

use tpower::provider::remote::{
    keep_transport_errors, lockdown_battery, percent, watch_from_reads, CompanionScan, CompanionValue,
    DeviceDataError, LockdownBattery,
};

#[test]
fn lockdown_levels_must_be_percentages() {
    assert_eq!(
        lockdown_battery(Some(64), true, false),
        Some(LockdownBattery { level: 64, is_charging: true, external_connected: false })
    );
    assert_eq!(lockdown_battery(Some(101), true, true), None);
    assert_eq!(lockdown_battery(Some(-1), false, false), None);
    assert_eq!(lockdown_battery(None, false, false), None);
    assert_eq!(percent(Some(100)), Some(100));
    assert_eq!(percent(Some(0)), Some(0));
}

#[test]
fn only_transport_errors_stop_a_watch_read() {
    assert_eq!(keep_transport_errors::<u8>(Ok(Some(3))), Ok(Some(3)));
    assert_eq!(keep_transport_errors::<u8>(Err(DeviceDataError::Send(4))), Err(DeviceDataError::Send(4)));
    assert_eq!(keep_transport_errors::<u8>(Err(DeviceDataError::Receive(5))), Err(DeviceDataError::Receive(5)));
    assert_eq!(keep_transport_errors::<u8>(Err(DeviceDataError::Parse("bad".into()))), Ok(None));
    assert_eq!(keep_transport_errors::<u8>(Err(DeviceDataError::Protocol("no".into()))), Ok(None));
    assert_eq!(keep_transport_errors::<u8>(Err(DeviceDataError::Service(1))), Ok(None));
}

#[test]
fn watch_values_fill_in_key_order() {
    let reads = vec![
        Some(CompanionValue::Integer(55)),
        Some(CompanionValue::Boolean(true)),
        Some(CompanionValue::Text("Watch".into())),
        Some(CompanionValue::Text("Watch6,1".into())),
    ];
    let w = watch_from_reads("w1".into(), &reads);
    assert_eq!(w.battery_level, Some(55));
    assert!(w.is_charging);
    assert_eq!(w.name.as_deref(), Some("Watch"));
    assert_eq!(w.product_type.as_deref(), Some("Watch6,1"));
    let partial = watch_from_reads("w2".into(), &vec![Some(CompanionValue::Integer(150))]);
    assert_eq!((partial.battery_level, partial.is_charging, partial.name), (None, false, None));
}

#[test]
fn the_watch_walk_stops_after_a_transport_failure() {
    assert_eq!(
        CompanionScan::start(Some("busy".into()), vec![]).err(),
        Some(DeviceDataError::Protocol("busy".into()))
    );
    let mut scan = CompanionScan::start(None, vec!["a".into(), "b".into(), "c".into()]).ok().unwrap();
    assert_eq!(scan.next_udid().as_deref(), Some("a"));
    scan.record(&vec![Some(CompanionValue::Integer(10))], false);
    assert_eq!(scan.next_udid().as_deref(), Some("b"));
    scan.record(&vec![], true);
    assert_eq!(scan.next_udid(), None);
    let watches = scan.into_watches();
    assert_eq!(watches.len(), 2);
    assert_eq!(watches[0].udid, "a");
    assert_eq!(watches[0].battery_level, Some(10));
    assert_eq!(watches[1].udid, "b");
    assert_eq!(watches[1].battery_level, None);
}

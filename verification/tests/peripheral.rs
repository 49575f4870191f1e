use tpower::accessories::{
    bluetooth_profile,
    hid_peripheral, parse_connected_accessories, parse_hex_u16, parse_known_accessories, scan_bluetooth_accessories,
    BluetoothController, DeviceDetails, HidProperties, SystemProfile,
};
use tpower::peripheral::{merge_peripherals, sort_peripherals, unix_now, BatteryCell, PeripheralInfo, PeripheralType, RemoteEntry};
use tpower::store::PeripheralState;
use tpower::text::trim_start_matches_lit;

fn info(id: &str, name: &str, kind: PeripheralType, level: u8, updated: u64) -> PeripheralInfo {
    PeripheralInfo {
        id: id.to_string(),
        name: name.to_string(),
        peripheral_type: kind,
        battery_level: level,
        is_charging: false,
        cells: Vec::new(),
        via: None,
        last_updated: updated,
    }
}

fn details() -> DeviceDetails {
    DeviceDetails {
        address: None,
        minor_type: None,
        battery_main: None,
        battery_left: None,
        battery_right: None,
        battery_case: None,
        vendor_id: None,
        product_id: None,
    }
}

#[test]
fn test_scan_bluetooth() {
    let items = scan_bluetooth_accessories(None, unix_now());
    println!("Found {} bluetooth devices: {:?}", items.len(), items);
}

#[test]
fn connected_accessories_with_levels_are_listed() {
    let pods = DeviceDetails {
        address: Some("AA:BB:CC:DD:EE:FF".into()),
        minor_type: Some("Headphones".into()),
        battery_left: Some("80%".into()),
        battery_right: Some(" 60 %".into()),
        battery_case: Some("40%".into()),
        ..details()
    };
    let mouse = DeviceDetails { minor_type: Some("Mouse".into()), battery_main: Some("150%".into()), ..details() };
    let silent = DeviceDetails { minor_type: Some("Keyboard".into()), ..details() };
    let profile = SystemProfile {
        bluetooth: Some(BluetoothController {
            connected: Some(vec![vec![
                ("AirPods".to_string(), pods),
                ("Mouse".to_string(), mouse),
                ("Keys".to_string(), silent),
            ]]),
            not_connected: None,
        }),
    };
    let list = parse_connected_accessories(&profile, 7);
    assert_eq!(list.len(), 2);
    assert_eq!(list[0].id, "AA:BB:CC:DD:EE:FF");
    assert_eq!(list[0].peripheral_type, PeripheralType::Headset);
    assert_eq!(list[0].battery_level, 60);
    assert_eq!(list[0].cells.len(), 3);
    assert_eq!(list[0].via.as_deref(), Some("Bluetooth"));
    assert_eq!(list[1].id, "Mouse");
    assert_eq!(list[1].battery_level, 100);
    assert_eq!(list[1].peripheral_type, PeripheralType::Mouse);
    assert_eq!(list[1].last_updated, 7);
}

#[test]
fn known_accessories_come_from_both_lists() {
    let a = DeviceDetails { vendor_id: Some("0x004C".into()), product_id: Some("0x2014".into()), ..details() };
    let b = DeviceDetails { vendor_id: Some("0x004C".into()), product_id: Some("0x200A".into()), ..details() };
    let profile = SystemProfile {
        bluetooth: Some(BluetoothController {
            connected: Some(vec![vec![("Pods".to_string(), a)]]),
            not_connected: Some(vec![vec![("Max".to_string(), b)]]),
        }),
    };
    let known = parse_known_accessories(&profile);
    assert_eq!(known.len(), 2);
    assert_eq!(known[0].name, "Pods");
    assert_eq!((known[0].vendor_id, known[0].product_id, known[0].connected), (0x004C, 0x2014, true));
    assert_eq!(known[1].name, "Max");
    assert!(!known[1].connected);
}

#[test]
fn hex_ids_parse_with_or_without_prefix() {
    assert_eq!(parse_hex_u16("0x004C"), Some(0x004C));
    assert_eq!(parse_hex_u16("  200a "), Some(0x200A));
    assert_eq!(parse_hex_u16("0x"), None);
    assert_eq!(parse_hex_u16("0x1FFFF"), None);
}

#[test]
fn hid_devices_are_read_unless_built_in() {
    let h = HidProperties {
        is_builtin: false,
        product: "Magic Trackpad".into(),
        battery_percent: 77,
        battery_status: 1,
        address: Some("aa-bb-cc".into()),
    };
    let p = hid_peripheral(&h, 5).unwrap();
    assert_eq!(p.id, "AA:BB:CC");
    assert_eq!(p.peripheral_type, PeripheralType::Trackpad);
    assert_eq!(p.battery_level, 77);
    assert!(p.is_charging);
    let builtin = HidProperties { is_builtin: true, ..h };
    assert!(hid_peripheral(&builtin, 5).is_none());
}

#[test]
fn sorting_groups_by_kind_then_name_stably() {
    let list = vec![
        info("m", "Mouse", PeripheralType::Mouse, 1, 0),
        info("b", "Zed", PeripheralType::Phone, 2, 0),
        info("a", "Alpha", PeripheralType::Phone, 3, 0),
        info("a2", "Alpha", PeripheralType::Phone, 4, 0),
        info("h", "Pods", PeripheralType::Headset, 5, 0),
    ];
    let sorted = sort_peripherals(list);
    let ids: Vec<&str> = sorted.iter().map(|p| p.id.as_str()).collect();
    assert_eq!(ids, vec!["a", "a2", "b", "h", "m"]);
}

#[test]
fn merge_prefers_fresher_remote_and_skips_duplicate_nearby() {
    let bt = vec![info("x", "Phone", PeripheralType::Phone, 50, 100)];
    let remote = vec![(
        "usb".to_string(),
        RemoteEntry { generation: 1, devices: vec![info("x", "Phone", PeripheralType::Phone, 60, 200)] },
    )];
    let nearby = vec![
        ("n1".to_string(), info("n1", "Phone", PeripheralType::Phone, 10, 200)),
        ("n2".to_string(), info("n2", "Pods", PeripheralType::Headset, 20, 200)),
        ("old".to_string(), info("old", "Old", PeripheralType::Other, 20, 0)),
    ];
    let merged = merge_peripherals(bt, Vec::new(), Some(remote), Some(nearby), 400);
    assert_eq!(merged.peripherals.len(), 2);
    assert_eq!(merged.peripherals[0].id, "x");
    assert_eq!(merged.peripherals[0].battery_level, 60);
    assert_eq!(merged.peripherals[1].id, "n2");
    // The stale nearby reading is dropped from the store.
    assert_eq!(merged.nearby.unwrap().len(), 2);
    assert_eq!(merged.remote.unwrap().len(), 1);
}

#[test]
fn stale_remote_entries_are_dropped() {
    let remote = vec![(
        "wifi".to_string(),
        RemoteEntry { generation: 1, devices: vec![info("p", "Phone", PeripheralType::Phone, 60, 0)] },
    )];
    let merged = merge_peripherals(Vec::new(), Vec::new(), Some(remote), None, 15 * 60);
    assert!(merged.peripherals.is_empty());
    assert!(merged.remote.unwrap().is_empty());
    assert!(merged.nearby.is_none());
}

#[test]
fn a_replaced_worker_cannot_clear_its_successor() {
    let mut state = PeripheralState::new();
    state.set_remote("usb-1", 1, vec![info("p", "Phone", PeripheralType::Phone, 60, 100)]);
    state.set_remote("usb-1", 2, vec![info("p", "Phone", PeripheralType::Phone, 61, 101)]);
    state.clear_remote("usb-1", 1);
    let listing = state.refresh(Vec::new(), Vec::new(), 110);
    assert_eq!(listing.len(), 1);
    assert_eq!(listing[0].battery_level, 61);
    state.clear_remote("usb-1", 2);
    let listing = state.refresh(Vec::new(), Vec::new(), 110);
    assert!(listing.is_empty());
    assert!(state.cached().is_none());
}

#[test]
fn nearby_store_drops_gatt_readings_when_discovery_is_off() {
    let mut state = PeripheralState::new();
    state.store_nearby(true, vec![info("ble-gatt-Phone", "Phone", PeripheralType::Phone, 50, 10)]);
    state.store_nearby(false, vec![info("ble-pp-2014", "Pods", PeripheralType::Headset, 70, 10)]);
    let listing = state.refresh(Vec::new(), Vec::new(), 20);
    assert_eq!(listing.len(), 1);
    assert_eq!(listing[0].id, "ble-pp-2014");
    let cached = state.cached().unwrap();
    assert_eq!(cached, listing);
}

#[test]
fn cells_compare_by_value() {
    let a = BatteryCell { name: "L".into(), level: 10, is_charging: false };
    assert_eq!(a.clone(), a);
}

#[test]
fn accessory_kinds_come_from_the_lowercased_name() {
    let pods = DeviceDetails { battery_main: Some("50%".into()), ..details() };
    let watch = DeviceDetails { battery_main: Some("20%".into()), minor_type: Some("Unknown".into()), ..details() };
    let speaker = DeviceDetails { battery_main: Some("20%".into()), minor_type: Some("Speaker".into()), ..details() };
    let profile = SystemProfile {
        bluetooth: Some(BluetoothController {
            connected: Some(vec![vec![
                ("My AIRPODS".to_string(), pods),
                ("Sport WATCH".to_string(), watch),
                ("Boom Headset".to_string(), speaker),
            ]]),
            not_connected: None,
        }),
    };
    let list = parse_connected_accessories(&profile, 0);
    assert_eq!(list[0].peripheral_type, PeripheralType::Headset);
    assert_eq!(list[1].peripheral_type, PeripheralType::Watch);
    assert_eq!(list[2].peripheral_type, PeripheralType::Other);
}

#[test]
fn an_empty_prefix_is_not_trimmed() {
    assert_eq!(trim_start_matches_lit(&['a', 'b'], ""), vec!['a', 'b']);
    assert_eq!(trim_start_matches_lit(&['x', 'x', 'x', 'b'], "xx"), vec!['x', 'b']);
}

#[test]
fn the_bluetooth_report_is_read_from_its_json() {
    let report = br#"{"SPBluetoothDataType":[{"device_connected":[{"AirPods":{"device_address":"AA:BB","device_minorType":"Headphones","device_batteryLevelLeft":"90%","device_batteryLevelRight":"80%","device_vendorID":"0x004C","device_productID":"0x2014"}},5],"device_not_connected":[{"Max":{"device_vendorID":"0x004C","device_productID":"0x200A","device_batteryLevelMain":7}}]}]}"#;
    let profile = bluetooth_profile(report).unwrap();
    let known = parse_known_accessories(&profile);
    assert_eq!(known.len(), 2);
    assert_eq!((known[0].name.as_str(), known[0].product_id, known[0].connected), ("AirPods", 0x2014, true));
    assert_eq!((known[1].name.as_str(), known[1].product_id, known[1].connected), ("Max", 0x200A, false));
    let list = scan_bluetooth_accessories(Some(profile), 3);
    assert_eq!(list.len(), 1);
    assert_eq!(list[0].id, "AA:BB");
    assert_eq!(list[0].battery_level, 80);
    assert!(bluetooth_profile(b"not json").is_none());
    let empty = bluetooth_profile(br#"{"SPBluetoothDataType":[]}"#).unwrap();
    assert!(empty.bluetooth.is_none());
    assert!(scan_bluetooth_accessories(Some(empty), 0).is_empty());
}

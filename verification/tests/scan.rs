use tpower::nearby::APPLE_COMPANY_ID;
use tpower::peripheral::{KnownAccessory, PeripheralType};
use tpower::scan::{gatt_outcome, gatt_targets, model_text, plan_cycle, retry_after_secs, Advert, GattOutcome, GattSchedule};

fn pods_known() -> Vec<KnownAccessory> {
    vec![KnownAccessory { name: "AirPods Pro".into(), vendor_id: APPLE_COMPANY_ID, product_id: 0x2014, connected: false }]
}

fn pods_advert(id: &str, rssi: Option<i16>, left: u8) -> Advert {
    let mut data = vec![0x07, 0x08, 0x01, 0x14, 0x20, 0x0B, 0x87, 0x55, 0x00, 0x00];
    data[6] = (left << 4) | 0x07;
    Advert { id: id.into(), rssi, data }
}

#[test]
fn the_strongest_advertisement_of_a_headset_wins() {
    let ads = vec![
        pods_advert("p1", Some(-60), 8),
        pods_advert("p2", Some(-50), 9),
        pods_advert("p3", Some(-50), 5),
        pods_advert("p4", Some(-80), 1),
        pods_advert("p5", None, 1),
    ];
    let plan = plan_cycle(&ads, &pods_known(), true, 9);
    assert_eq!(plan.headsets.len(), 1);
    let (id, (rssi, info)) = &plan.headsets[0];
    assert_eq!(id, "ble-pp-2014");
    assert_eq!(*rssi, -50);
    assert_eq!(info.cells[0].level, 90);
    assert!(plan.candidates.is_empty());
}

#[test]
fn devices_are_candidates_once_and_only_when_discovery_is_on() {
    let ads = vec![
        Advert { id: "phone".into(), rssi: Some(-40), data: vec![0x10, 0x01, 0x00, 0x0C, 0x00] },
        Advert { id: "phone".into(), rssi: Some(-30), data: vec![0x0C, 0x00] },
        Advert { id: "mac".into(), rssi: Some(-70), data: vec![0x10, 0x00] },
        Advert { id: "far".into(), rssi: Some(-90), data: vec![0x10, 0x00] },
    ];
    let plan = plan_cycle(&ads, &[], true, 0);
    assert_eq!(plan.candidates, vec![(-40, "phone".to_string()), (-70, "mac".to_string())]);
    assert!(plan_cycle(&ads, &[], false, 0).candidates.is_empty());
}

#[test]
fn the_strongest_due_devices_are_asked_first() {
    let cands = vec![
        (-70, "a".to_string()),
        (-40, "b".to_string()),
        (-40, "c".to_string()),
        (-60, "d".to_string()),
        (-20, "e".to_string()),
    ];
    let mut schedule = GattSchedule::new();
    schedule.defer("e".into(), 1000, 300_000);
    assert!(!schedule.due(&"e".to_string(), 2000));
    assert!(schedule.due(&"a".to_string(), 2000));
    assert_eq!(gatt_targets(&cands, &schedule, 2000), vec!["b", "c", "d"]);
    assert_eq!(gatt_targets(&cands, &schedule, 301_000), vec!["e", "b", "c"]);
    schedule.defer("b".into(), 400_000, 10);
    assert!(schedule.due(&"e".to_string(), 400_000));
    assert!(!schedule.due(&"b".to_string(), 400_005));
}

#[test]
fn gatt_reads_of_ios_devices_are_readings() {
    match gatt_outcome(Some("iPhone15,2".into()), Some(120), Some("Anna's iPhone".into()), 5) {
        GattOutcome::Found(info) => {
            assert_eq!(info.id, "ble-gatt-Anna's iPhone");
            assert_eq!(info.name, "Anna's iPhone");
            assert_eq!(info.peripheral_type, PeripheralType::Phone);
            assert_eq!(info.battery_level, 100);
            assert_eq!(info.via.as_deref(), Some("Bluetooth LE"));
        },
        _ => panic!("an iPhone with a level is a reading"),
    }
    match gatt_outcome(Some("iPad13,1".into()), Some(40), None, 5) {
        GattOutcome::Found(info) => assert_eq!(info.name, "iPad13,1"),
        _ => panic!("an iPad with a level is a reading"),
    }
    assert!(matches!(gatt_outcome(Some("Mac14,2".into()), Some(40), None, 5), GattOutcome::NotApplicable));
    assert!(matches!(gatt_outcome(Some("iPhone15,2".into()), None, None, 5), GattOutcome::NotApplicable));
    assert!(matches!(gatt_outcome(None, Some(3), None, 5), GattOutcome::NotApplicable));
    assert_eq!(retry_after_secs(&GattOutcome::NotApplicable), 1800);
    assert_eq!(retry_after_secs(&GattOutcome::Failed), 300);
}

#[test]
fn model_numbers_are_cleaned() {
    assert_eq!(model_text(b" iPhone15,2\0\0"), "iPhone15,2");
    assert_eq!(model_text(&[0x57, 0xff, 0x00]), "W\u{FFFD}");
}

#[test]
fn a_deferred_device_is_due_again_once_its_time_has_come() {
    let mut schedule = GattSchedule::new();
    schedule.defer("d".into(), 100, 300);
    assert!(!schedule.due(&"d".to_string(), 399));
    assert!(schedule.due(&"d".to_string(), 400));
}

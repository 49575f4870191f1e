use tpower::nearby::{apple_records, model_to_type, parse_proximity_pairing, proximity_peripheral, ProximityPairing, APPLE_COMPANY_ID};
use tpower::peripheral::{KnownAccessory, PeripheralType};

#[test]
fn splits_records() {
    let data = [0x10, 0x02, 0xAA, 0xBB, 0x07, 0x01, 0xCC];
    let records = apple_records(&data);
    assert_eq!(records, vec![(0x10, vec![0xAA, 0xBB]), (0x07, vec![0xCC])]);
    // Truncated trailing record is dropped rather than over-read.
    assert_eq!(apple_records(&[0x07, 0x19, 0x01]).len(), 0);
}

#[test]
fn decodes_airpods_pro_2() {
    // prefix, model 0x2014 (LE), status (bit 5 clear), L=8 R=7, charging
    // flags 0b0101 (case + first pod), case=5.
    let value = [0x01, 0x14, 0x20, 0x0B, 0x87, 0x55, 0x00, 0x00];
    let pp = parse_proximity_pairing(&value).unwrap();
    assert_eq!(pp.model, 0x2014);
    assert_eq!((pp.left, pp.right, pp.case), (Some(80), Some(70), Some(50)));
    assert!(pp.right_charging && !pp.left_charging && pp.case_charging);

    // Same payload with status bit 5 set swaps the pods.
    let value = [0x01, 0x14, 0x20, 0x2B, 0x87, 0x55, 0x00, 0x00];
    let pp = parse_proximity_pairing(&value).unwrap();
    assert_eq!((pp.left, pp.right), (Some(70), Some(80)));
    assert!(pp.left_charging && !pp.right_charging);
}

#[test]
fn rejects_unavailable_levels() {
    let value = [0x01, 0x0A, 0x20, 0x00, 0xFF, 0x0F, 0x00];
    assert_eq!(parse_proximity_pairing(&value), None);
}

#[test]
fn only_reports_accessories_paired_with_this_mac() {
    let pp = ProximityPairing {
        model: 0x200A,
        left: Some(60),
        right: None,
        case: None,
        left_charging: false,
        right_charging: false,
        case_charging: false,
    };
    assert!(proximity_peripheral(&pp, &[], 1000).is_none());

    let known = [KnownAccessory {
        name: "AirPods Max".into(),
        vendor_id: APPLE_COMPANY_ID,
        product_id: 0x200A,
        connected: false,
    }];
    let info = proximity_peripheral(&pp, &known, 1000).unwrap();
    assert_eq!(info.name, "AirPods Max");
    assert_eq!(info.battery_level, 60);
    assert!(info.cells.is_empty());

    let connected = [KnownAccessory {
        connected: true,
        ..known[0].clone()
    }];
    assert!(proximity_peripheral(&pp, &connected, 1000).is_none());
}

#[test]
fn short_proximity_value_is_rejected() {
    assert_eq!(parse_proximity_pairing(&[0x01, 0x14, 0x20, 0x0B, 0x87]), None);
}

#[test]
fn proximity_reading_of_two_pods_and_case() {
    let value = [0x01, 0x14, 0x20, 0x0B, 0x87, 0x55, 0x00, 0x00];
    let pp = parse_proximity_pairing(&value).unwrap();
    let known = [KnownAccessory {
        name: "AirPods Pro".into(),
        vendor_id: APPLE_COMPANY_ID,
        product_id: 0x2014,
        connected: false,
    }];
    let info = proximity_peripheral(&pp, &known, 42).unwrap();
    assert_eq!(info.id, "ble-pp-2014");
    assert_eq!(info.battery_level, 70);
    assert!(info.is_charging);
    assert_eq!(info.cells.len(), 3);
    assert_eq!(info.cells[0].name, "L");
    assert_eq!(info.cells[2].name, "Case");
    assert_eq!(info.cells[2].level, 50);
    assert_eq!(info.via.as_deref(), Some("Bluetooth LE"));
    assert_eq!(info.last_updated, 42);
    assert_eq!(info.peripheral_type, PeripheralType::Headset);
}

#[test]
fn two_paired_accessories_of_one_model_get_a_generic_name() {
    let value = [0x01, 0x14, 0x20, 0x0B, 0x87, 0x55, 0x00, 0x00];
    let pp = parse_proximity_pairing(&value).unwrap();
    let one = KnownAccessory { name: "A".into(), vendor_id: APPLE_COMPANY_ID, product_id: 0x2014, connected: false };
    let two = KnownAccessory { name: "B".into(), ..one.clone() };
    let info = proximity_peripheral(&pp, &[one, two], 0).unwrap();
    assert_eq!(info.name, "AirPods (nearby)");
}

#[test]
fn model_numbers_name_ios_kinds() {
    assert_eq!(model_to_type("iPhone15,2"), Some(PeripheralType::Phone));
    assert_eq!(model_to_type("iPod9,1"), Some(PeripheralType::Phone));
    assert_eq!(model_to_type("iPad13,1"), Some(PeripheralType::Tablet));
    assert_eq!(model_to_type("Watch6,1"), Some(PeripheralType::Watch));
    assert_eq!(model_to_type("Mac14,2"), None);
}

#[test]
fn records_written_out_again_are_a_prefix_of_the_data() {
    let data = [0x10, 0x02, 0xAA, 0xBB, 0x0C, 0x00, 0x07, 0x05, 0x01];
    let records = apple_records(&data);
    let mut written = Vec::new();
    for (ty, value) in &records {
        written.push(*ty);
        written.push(value.len() as u8);
        written.extend_from_slice(value);
    }
    assert_eq!(records.len(), 2);
    assert_eq!(&data[..written.len()], &written[..]);
    assert_eq!(written.len(), 6);
}

#[test]
fn written_records_split_back() {
    let written = [0x10, 0x02, 0xAA, 0xBB, 0x0C, 0x00, 0x07];
    assert_eq!(apple_records(&written), vec![(0x10, vec![0xAA, 0xBB]), (0x0C, vec![])]);
}

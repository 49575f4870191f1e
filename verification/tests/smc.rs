use tpower::smc::{
    key_name_from_reply, sensor_field, str_to_u32, u32_to_bytes, KeyInfo, KeyInfoCache, KeyInfoStep, SMCKeyData,
    SMCType, SMCVal, SensorField, SmcReading, CMD_READ_BYTES, CMD_READ_KEYBYINDEX, CMD_READ_KEYINFO,
    CMD_WRITE_BYTES, KERN_INVALID_ARGUMENT, SMC_SENSORS,
};

fn val(data_type: &[u8; 4], bytes: &[u8]) -> SMCVal {
    let mut v = SMCVal::default();
    v.key = *b"PPBR";
    v.data_type = *data_type;
    v.bytes[..bytes.len()].copy_from_slice(bytes);
    v.data_size = bytes.len() as u32;
    v
}

#[test]
fn key_names_pack_big_endian() {
    assert_eq!(str_to_u32("PPBR"), 0x5050_4252);
    assert_eq!(u32_to_bytes(0x5050_4252), *b"PPBR");
    assert_eq!(u32_to_bytes(str_to_u32("B0FC")), *b"B0FC");
}

#[test]
fn type_codes_parse() {
    assert_eq!("flt ".trim().parse::<SMCType>(), Ok(SMCType::FLT));
    assert_eq!("ui16".parse::<SMCType>(), Ok(SMCType::UI16));
    assert_eq!("{fds".parse::<SMCType>(), Ok(SMCType::FDS));
    assert_eq!("_hex".parse::<SMCType>(), Ok(SMCType::HEX));
    assert_eq!("fp1f".parse::<SMCType>(), Err(()));
}

#[test]
fn values_read_by_type() {
    assert_eq!(val(b"ui8 ", &[42]).reading(), Some(SmcReading::Unsigned(42)));
    assert_eq!(val(b"ui16", &[0x34, 0x12]).reading(), Some(SmcReading::Unsigned(0x1234)));
    assert_eq!(val(b"ui32", &[1, 0, 0, 1]).reading(), Some(SmcReading::Unsigned(0x0100_0001)));
    let bits = 12.5f32.to_bits().to_le_bytes();
    assert_eq!(val(b"flt ", &bits).reading(), Some(SmcReading::Float(12.5f32.to_bits())));
    assert_eq!(
        val(b"ioft", &[0x00, 0x01]).reading(),
        Some(SmcReading::Fixed { raw: 0x0100, divisor: 0, signed: false })
    );
    assert_eq!(val(b"flag", &[1]).reading(), None);
    assert_eq!(val(&[0xff, 0xfe, 0, 0], &[1]).reading(), None);
    assert_eq!(val(b"ui8 ", &[1]).data_type_str(), vec!['u', 'i', '8']);
}

#[test]
fn requests_carry_their_command() {
    let info = KeyInfo { data_size: 4, data_type: str_to_u32("flt "), data_attributes: 0 };
    let r = SMCKeyData::key_info_request(7);
    assert_eq!((r.key, r.data8, r.data32), (7, CMD_READ_KEYINFO, 0));
    let r = SMCKeyData::read_request(7, info);
    assert_eq!((r.key, r.data8, r.key_info), (7, CMD_READ_BYTES, info));
    let r = SMCKeyData::index_request(3);
    assert_eq!((r.key, r.data8, r.data32), (0, CMD_READ_KEYBYINDEX, 3));
}

#[test]
fn a_reply_becomes_a_value() {
    let info = KeyInfo { data_size: 4, data_type: str_to_u32("flt "), data_attributes: 0 };
    let mut reply = SMCKeyData::default();
    reply.bytes[..4].copy_from_slice(&2.0f32.to_le_bytes());
    let v = SMCVal::from_reply("PSTR", info, &reply);
    assert_eq!(&v.key, b"PSTR");
    assert_eq!(&v.data_type, b"flt ");
    assert_eq!(v.data_size, 4);
    assert_eq!(v.reading(), Some(SmcReading::Float(2.0f32.to_bits())));
}

#[test]
fn writes_must_match_the_key_size() {
    let v = val(b"ui8 ", &[1]);
    let wrong = KeyInfo { data_size: 2, data_type: 0, data_attributes: 0 };
    assert_eq!(v.write_frame(wrong).err(), Some(KERN_INVALID_ARGUMENT));
    let right = KeyInfo { data_size: 1, data_type: 0, data_attributes: 0 };
    let f = v.write_frame(right).unwrap();
    assert_eq!((f.key, f.data8, f.bytes[0]), (str_to_u32("PPBR"), CMD_WRITE_BYTES, 1));
    assert_eq!(v.key_code(), 0x5050_4252);
}

#[test]
fn key_info_is_asked_once() {
    let mut cache = KeyInfoCache::new();
    let key = str_to_u32("PPBR");
    match cache.plan(key) {
        KeyInfoStep::Ask(req) => assert_eq!((req.key, req.data8), (key, CMD_READ_KEYINFO)),
        KeyInfoStep::Cached(_) => panic!("nothing is cached yet"),
    }
    let mut reply = SMCKeyData::default();
    reply.key_info = KeyInfo { data_size: 4, data_type: 1, data_attributes: 2 };
    assert_eq!(cache.learn(key, &reply), reply.key_info);
    match cache.plan(key) {
        KeyInfoStep::Cached(info) => assert_eq!(info, reply.key_info),
        KeyInfoStep::Ask(_) => panic!("the info was learned"),
    }
}

#[test]
fn key_names_by_index_are_decoded_leniently() {
    let mut reply = SMCKeyData::default();
    reply.key = str_to_u32("TB0T");
    assert_eq!(key_name_from_reply(&reply), "TB0T");
    reply.key = 0x41FF_4243;
    assert_eq!(key_name_from_reply(&reply), "A\u{FFFD}BC");
}

#[test]
fn sensor_keys_map_to_fields() {
    assert_eq!(sensor_field("PPBR"), Some(SensorField::BatteryRate));
    assert_eq!(sensor_field("B0CT"), Some(SensorField::CycleCount));
    assert_eq!(sensor_field("XXXX"), None);
    assert!(SMC_SENSORS.iter().all(|k| sensor_field(k).is_some()));
}

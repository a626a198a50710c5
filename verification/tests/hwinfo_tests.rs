use bubble_bridge::hwinfo::{
    InnerHwInfo, HwInfo, encode_hw_info, decode_hw_info, get_device_info, DebugMeta, config_from_encoded,
    checked_config_from_encoded, config_from_validation_data, HwInfoDecodeError,
};
use bubble_bridge::config::{JoinedOSConfig, HardwareConfig, HwExtra, RelayConfig, MacOSConfig, reload_mac_config};

fn inner() -> InnerHwInfo {
    InnerHwInfo {
        product_name: "Mac14,3".to_string(),
        io_mac_address: vec![1, 2, 3, 4, 5, 6],
        platform_serial_number: "C02XYZ".to_string(),
        platform_uuid: "UUID-1".to_string(),
        root_disk_uuid: "UUID-2".to_string(),
        board_id: "Mac-ABC".to_string(),
        os_build_num: "22F66".to_string(),
        platform_serial_number_enc: vec![9, 9],
        platform_uuid_enc: vec![],
        root_disk_uuid_enc: vec![7],
        rom: vec![0xaa, 0xbb],
        rom_enc: vec![],
        mlb: "MLB123".to_string(),
        mlb_enc: vec![1],
    }
}

fn info(inner: Option<InnerHwInfo>, protocol_version: i32) -> HwInfo {
    HwInfo {
        inner,
        version: "13.4.1".to_string(),
        protocol_version,
        device_id: "DEV".to_string(),
        icloud_ua: "ua".to_string(),
        aoskit_version: "aos".to_string(),
    }
}

#[test]
fn encode_small_record_bytes() {
    let r = HwInfo { inner: None, version: "1".to_string(), protocol_version: 5, device_id: String::new(), icloud_ua: String::new(), aoskit_version: String::new() };
    assert_eq!(encode_hw_info(&r), vec![0x12, 0x01, 0x31, 0x18, 0x05]);
    let n = HwInfo { protocol_version: -1, version: String::new(), ..r };
    assert_eq!(encode_hw_info(&n), vec![0x18, 0xff, 0xff, 0xff, 0xff, 0xff, 0xff, 0xff, 0xff, 0xff, 0x01]);
}

#[test]
fn hw_info_round_trip() {
    let r = info(Some(inner()), 1640);
    let bytes = encode_hw_info(&r);
    let back = decode_hw_info(&bytes).ok().expect("decodes");
    assert_eq!(back.version, "13.4.1");
    assert_eq!(back.protocol_version, 1640);
    let i = back.inner.expect("inner");
    assert_eq!(i.io_mac_address, vec![1, 2, 3, 4, 5, 6]);
    assert_eq!(i.mlb, "MLB123");
    assert_eq!(i.root_disk_uuid_enc, vec![7]);
}

#[test]
fn decode_rejects_garbage() {
    assert!(matches!(decode_hw_info(&[0x12, 0x05, 0x31]), Err(HwInfoDecodeError::Malformed)));
    assert!(decode_hw_info(&[]).is_ok());
}

#[test]
fn decode_last_field_wins_and_skips_unknown() {
    // version "a", then an unknown varint field 9, then version "b"
    let bytes = vec![0x12, 0x01, b'a', 0x48, 0x07, 0x12, 0x01, b'b'];
    let r = decode_hw_info(&bytes).ok().expect("decodes");
    assert_eq!(r.version, "b");
}

#[test]
fn device_info_for_relay_has_no_data() {
    let relay: JoinedOSConfig<u8> = JoinedOSConfig::Relay(RelayConfig {
        version: 1, icloud_ua: String::new(), aoskit_version: String::new(), dev_uuid: String::new(),
        protocol_version: 1660, host: "h".to_string(), code: "c".to_string(), beeper_token: None, udid: None,
    });
    let d = get_device_info(DebugMeta { hardware_version: "hw".to_string(), serial_number: "sn".to_string(), user_version: "uv".to_string() }, &relay);
    assert_eq!(d.name, "hw");
    assert_eq!(d.serial, "sn");
    assert_eq!(d.os_version, "uv");
    assert!(d.encoded_data.is_none());
}

#[test]
fn stored_config_restores() {
    let bytes = encode_hw_info(&info(Some(inner()), 1660));
    match config_from_encoded::<u8>(bytes.clone()) {
        Ok(JoinedOSConfig::MacOS(c)) => {
            assert_eq!(c.inner.io_mac_address, [1, 2, 3, 4, 5, 6]);
            assert_eq!(c.protocol_version, 1660);
            assert_eq!(c.device_id, "DEV");
            assert_eq!(c.udid.as_ref().expect("udid").len(), 64);
            let d = get_device_info(DebugMeta { hardware_version: String::new(), serial_number: String::new(), user_version: String::new() }, &JoinedOSConfig::<u8>::MacOS(c));
            assert_eq!(d.encoded_data.expect("data"), bytes);
        }
        _ => panic!("expected a Mac configuration"),
    }
    assert!(checked_config_from_encoded::<u8>(encode_hw_info(&info(None, 3))).is_none());
}

#[test]
fn validation_data_config() {
    let hw = HardwareConfig {
        product_name: "p".to_string(), io_mac_address: [0; 6], platform_serial_number: "s".to_string(),
        platform_uuid: String::new(), root_disk_uuid: String::new(), board_id: String::new(), os_build_num: String::new(),
        platform_serial_number_enc: vec![], platform_uuid_enc: vec![], root_disk_uuid_enc: vec![], rom: vec![], rom_enc: vec![],
        mlb: String::new(), mlb_enc: vec![],
    };
    let extra = HwExtra { version: "v".to_string(), protocol_version: 1, device_id: "d".to_string(), icloud_ua: "i".to_string(), aoskit_version: "a".to_string() };
    match config_from_validation_data::<u8>(hw, extra) {
        JoinedOSConfig::MacOS(c) => {
            assert_eq!(c.version, "v");
            assert_eq!(c.inner.product_name, "p");
            assert!(c.udid.is_some());
        }
        _ => panic!("expected a Mac configuration"),
    }
}

fn nested_groups_record(depth: usize) -> Vec<u8> {
    let mut payload = vec![];
    for _ in 0..depth {
        payload.extend([0xa3, 0x01]);
    }
    payload.extend([0xa8, 0x01, 0x00]);
    for _ in 0..depth {
        payload.extend([0xa4, 0x01]);
    }
    let mut len = payload.len();
    let mut out = vec![0x0a];
    loop {
        let b = (len & 0x7f) as u8;
        len >>= 7;
        if len == 0 {
            out.push(b);
            break;
        }
        out.push(b | 0x80);
    }
    out.extend(payload);
    out
}

#[test]
fn inner_unknown_groups_skipped_one_level_down() {
    assert!(decode_hw_info(&nested_groups_record(98)).is_ok());
    assert!(matches!(decode_hw_info(&nested_groups_record(99)), Err(HwInfoDecodeError::Malformed)));
    // the same group at the top level is one level shallower
    let top = nested_groups_record(99)[3..].to_vec();
    assert!(decode_hw_info(&top).is_ok());
}

#[test]
fn mac_config_reloads_with_same_hardware() {
    let hw = HardwareConfig {
        product_name: "Mac14,3".to_string(), io_mac_address: [1, 2, 3, 4, 5, 6], platform_serial_number: "C02".to_string(),
        platform_uuid: "u".to_string(), root_disk_uuid: String::new(), board_id: "b".to_string(), os_build_num: "22F".to_string(),
        platform_serial_number_enc: vec![1], platform_uuid_enc: vec![], root_disk_uuid_enc: vec![2], rom: vec![3], rom_enc: vec![],
        mlb: "m".to_string(), mlb_enc: vec![4],
    };
    let c = MacOSConfig { inner: hw, version: "13.4".to_string(), protocol_version: 3_000_000_000, device_id: "d".to_string(), icloud_ua: "ua".to_string(), aoskit_version: "a".to_string(), udid: None };
    match reload_mac_config::<u8>(&c) {
        JoinedOSConfig::MacOS(c2) => {
            assert_eq!(c2.inner.io_mac_address, [1, 2, 3, 4, 5, 6]);
            assert_eq!(c2.inner.mlb_enc, vec![4]);
            assert_eq!(c2.protocol_version, 3_000_000_000);
            assert_eq!(c2.version, "13.4");
            assert_eq!(c2.udid.expect("udid").len(), 64);
        }
        _ => panic!("expected a Mac configuration"),
    }
}

use bubble_bridge::relay::{config_from_relay, validate_relay, ValidationOutcome, RELAY_PROTOCOL_VERSION};
use bubble_bridge::config::{JoinedOSConfig, MacOSConfig, HardwareConfig};

fn relay() -> JoinedOSConfig<u8> {
    config_from_relay(7u8, "CODE".to_string(), "relay.example".to_string(), Some("tok".to_string()))
}

#[test]
fn relay_config_fields() {
    match relay() {
        JoinedOSConfig::Relay(c) => {
            assert_eq!(c.version, 7);
            assert_eq!(c.icloud_ua, "com.apple.iCloudHelper/282 CFNetwork/1408.0.4 Darwin/22.5.0");
            assert_eq!(c.aoskit_version, "com.apple.AOSKit/282 (com.apple.accountsd/113)");
            assert_eq!(c.protocol_version, RELAY_PROTOCOL_VERSION);
            assert_eq!(c.protocol_version, 1660);
            assert_eq!(c.host, "relay.example");
            assert_eq!(c.code, "CODE");
            assert_eq!(c.beeper_token.as_deref(), Some("tok"));
            assert_eq!(c.dev_uuid.len(), 36);
            assert_eq!(c.dev_uuid.as_bytes()[14], b'4');
            assert_eq!(c.dev_uuid, c.dev_uuid.to_lowercase());
            assert_eq!(c.udid.expect("udid").len(), 64);
        }
        _ => panic!("expected a relay configuration"),
    }
}

#[test]
fn relay_validation_outcomes() {
    let r = relay();
    assert_eq!(validate_relay(&r, &ValidationOutcome::Passed).as_deref(), Some("CODE"));
    assert_eq!(validate_relay(&r, &ValidationOutcome::Failed).as_deref(), Some("CODE"));
    assert_eq!(validate_relay(&r, &ValidationOutcome::RelayRefused("Error: Ticket not activated!".to_string())).as_deref(), Some("CODE"));
    assert_eq!(validate_relay(&r, &ValidationOutcome::RelayRefused("Subscription not active!".to_string())).as_deref(), Some("CODE"));
    assert_eq!(validate_relay(&r, &ValidationOutcome::RelayRefused("Sorry, your hosted device is currently offline!".to_string())).as_deref(), Some("CODE"));
    assert_eq!(validate_relay(&r, &ValidationOutcome::RelayRefused("Bad code".to_string())), None);
}

#[test]
fn mac_validation_has_no_code() {
    let hw = HardwareConfig {
        product_name: String::new(), io_mac_address: [0; 6], platform_serial_number: String::new(),
        platform_uuid: String::new(), root_disk_uuid: String::new(), board_id: String::new(), os_build_num: String::new(),
        platform_serial_number_enc: vec![], platform_uuid_enc: vec![], root_disk_uuid_enc: vec![], rom: vec![], rom_enc: vec![],
        mlb: String::new(), mlb_enc: vec![],
    };
    let mac: JoinedOSConfig<u8> = JoinedOSConfig::MacOS(MacOSConfig {
        inner: hw, version: String::new(), protocol_version: 1, device_id: String::new(), icloud_ua: String::new(),
        aoskit_version: String::new(), udid: None,
    });
    assert_eq!(validate_relay(&mac, &ValidationOutcome::Passed), None);
    assert_eq!(validate_relay(&mac, &ValidationOutcome::RelayRefused("Ticket not activated!".to_string())), None);
}

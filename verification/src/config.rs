//! The device configurations the services register with: a Mac's hardware
//! description, or a relay that answers validation requests for a hosted
//! device; and what storing a Mac's configuration and restoring it gives.

use vstd::prelude::*;
use crate::hwinfo::{hw_info_from_config, encode_hw_info, config_from_encoded, same_hardware, lemma_reload};
use crate::hex::hex_lower;
use crate::text::upper_seq;

verus! {

/// The hardware description of a Mac.
pub struct HardwareConfig {
    pub product_name: String,
    pub io_mac_address: [u8; 6],
    pub platform_serial_number: String,
    pub platform_uuid: String,
    pub root_disk_uuid: String,
    pub board_id: String,
    pub os_build_num: String,
    pub platform_serial_number_enc: Vec<u8>,
    pub platform_uuid_enc: Vec<u8>,
    pub root_disk_uuid_enc: Vec<u8>,
    pub rom: Vec<u8>,
    pub rom_enc: Vec<u8>,
    pub mlb: String,
    pub mlb_enc: Vec<u8>,
}

/// A Mac's configuration: its hardware and the versions it reports.
pub struct MacOSConfig {
    pub inner: HardwareConfig,
    pub version: String,
    pub protocol_version: u32,
    pub device_id: String,
    pub icloud_ua: String,
    pub aoskit_version: String,
    pub udid: Option<String>,
}

/// A relay's configuration; `V` is the version information the relay
/// reported.
pub struct RelayConfig<V> {
    pub version: V,
    pub icloud_ua: String,
    pub aoskit_version: String,
    pub dev_uuid: String,
    pub protocol_version: u32,
    pub host: String,
    pub code: String,
    pub beeper_token: Option<String>,
    pub udid: Option<String>,
}

/// The configuration in use: a Mac, or a relay.
pub enum JoinedOSConfig<V> {
    MacOS(MacOSConfig),
    Relay(RelayConfig<V>),
}

/// The version fields a Mac's configuration is built with, besides its
/// hardware.
pub struct HwExtra {
    pub version: String,
    pub protocol_version: u32,
    pub device_id: String,
    pub icloud_ua: String,
    pub aoskit_version: String,
}

/// Stores a Mac's configuration as its hardware-info record and rebuilds a
/// configuration from the record, as saving the device information and
/// restoring from it do: the configuration rebuilt has the same hardware
/// and versions, and a fresh device identifier.
pub fn reload_mac_config<V>(c: &MacOSConfig) -> (r: JoinedOSConfig<V>)
    ensures
        r matches JoinedOSConfig::MacOS(c2) && same_hardware(*c, c2) && (c2.udid matches Some(u)
            && exists|b: Seq<u8>| b.len() == 32 && u@ == upper_seq(hex_lower(b))),
{
    let info = hw_info_from_config(c);
    let bytes = encode_hw_info(&info);
    // the record is in memory, so its length fits
    let _len = bytes.len();
    let ghost b = bytes@;
    proof {
        assert(b.len() <= u64::MAX);
        lemma_reload(*c, info.wire(), b, *c);
    }
    let r = config_from_encoded::<V>(bytes);
    match r {
        Ok(JoinedOSConfig::MacOS(c2)) => {
            proof {
                lemma_reload(*c, info.wire(), b, c2);
            }
            JoinedOSConfig::MacOS(c2)
        },
        _ => {
            assert(false);
            r.unwrap()
        },
    }
}

} // verus!

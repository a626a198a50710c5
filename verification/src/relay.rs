//! Relay configurations: building one for a relay code, and reading what
//! the relay answered to a validation request.

use vstd::prelude::*;
use crate::config::{JoinedOSConfig, RelayConfig};
use crate::text::{contains, contains_seq, string_of, opt_view};
use crate::hex::{generate_udid, new_uuid_text, uuid_v4_text, hex_lower};
use crate::text::upper_seq;

verus! {

/// The user agent a relay configuration reports to iCloud.
pub open spec fn relay_icloud_ua() -> Seq<char> {
    "com.apple.iCloudHelper/282 CFNetwork/1408.0.4 Darwin/22.5.0"@
}

/// The account-services version a relay configuration reports.
pub open spec fn relay_aoskit_version() -> Seq<char> {
    "com.apple.AOSKit/282 (com.apple.accountsd/113)"@
}

/// The protocol version a relay configuration speaks.
pub const RELAY_PROTOCOL_VERSION: u32 = 1660;

/// Builds the configuration of the relay at `host` with code `code`;
/// `version` is what the relay reported of itself. The configuration gets
/// a fresh device UUID and a fresh device identifier.
pub fn config_from_relay<V>(version: V, code: String, host: String, token: Option<String>) -> (r:
    JoinedOSConfig<V>)
    ensures
        r matches JoinedOSConfig::Relay(c) && {
            &&& c.version == version
            &&& c.icloud_ua@ == relay_icloud_ua()
            &&& c.aoskit_version@ == relay_aoskit_version()
            &&& uuid_v4_text(c.dev_uuid@)
            &&& c.protocol_version == RELAY_PROTOCOL_VERSION
            &&& c.host == host
            &&& c.code == code
            &&& c.beeper_token == token
            &&& c.udid matches Some(u) && exists|b: Seq<u8>|
                b.len() == 32 && u@ == upper_seq(hex_lower(b))
        },
{
    let icloud_ua = string_of("com.apple.iCloudHelper/282 CFNetwork/1408.0.4 Darwin/22.5.0");
    let aoskit_version = string_of("com.apple.AOSKit/282 (com.apple.accountsd/113)");
    let dev_uuid = new_uuid_text();
    let udid = generate_udid();
    JoinedOSConfig::Relay(
        RelayConfig {
            version,
            icloud_ua,
            aoskit_version,
            dev_uuid,
            protocol_version: RELAY_PROTOCOL_VERSION,
            host,
            code,
            beeper_token: token,
            udid: Some(udid),
        },
    )
}

/// How a validation request through the configuration ended.
pub enum ValidationOutcome {
    /// Validation data came back.
    Passed,
    /// The relay refused, with this message.
    RelayRefused(String),
    /// It failed otherwise.
    Failed,
}

/// The relay's code, for a relay configuration.
pub open spec fn relay_code<V>(c: JoinedOSConfig<V>) -> Option<Seq<char>> {
    match c {
        JoinedOSConfig::MacOS(_) => None,
        JoinedOSConfig::Relay(r) => Some(r.code@),
    }
}

/// A refusal that concerns the relay account rather than the request:
/// an inactive subscription, a ticket not activated, or the hosted
/// device offline.
pub open spec fn is_account_refusal(message: Seq<char>) -> bool {
    ||| contains_seq(message, "Subscription not active!"@)
    ||| contains_seq(message, "Ticket not activated!"@)
    ||| contains_seq(message, "Sorry, your hosted device is currently offline!"@)
}

/// The relay code to report after a validation request: the relay's code,
/// unless the relay refused for a reason that does not concern its
/// account; never a code for a Mac configuration.
pub fn validate_relay<V>(config: &JoinedOSConfig<V>, outcome: &ValidationOutcome) -> (r: Option<String>)
    ensures
        opt_view(r) == if outcome matches ValidationOutcome::RelayRefused(m)
            && !is_account_refusal(m@) {
            None
        } else {
            relay_code(*config)
        },
{
    if let ValidationOutcome::RelayRefused(message) = outcome {
        let m = message.as_str();
        if !contains(m, "Subscription not active!") && !contains(m, "Ticket not activated!")
            && !contains(m, "Sorry, your hosted device is currently offline!") {
            return None;
        }
    }
    match config {
        JoinedOSConfig::MacOS(_) => None,
        JoinedOSConfig::Relay(r) => Some(r.code.clone()),
    }
}

} // verus!

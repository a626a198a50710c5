use bubble_bridge::login::{
    login_ids, LoginError, hash_password, settle_login, LoginStage, clique_result, CliqueSetup, GsaState,
    mark_postdata, require_mac, ProvisionedFlavor, spd_dsid, registration_reply, RegisterError,
};
use bubble_bridge::plist::PlistValue;

fn spd(entries: &[(&str, PlistValue)]) -> Vec<(String, PlistValue)> {
    entries.iter().map(|(k, v)| (k.to_string(), clone(v))).collect()
}

fn clone(v: &PlistValue) -> PlistValue {
    bubble_bridge::migrate::clone_value(v)
}

#[test]
fn login_ids_reads_identifiers() {
    let d = spd(&[
        ("acname", PlistValue::String("me@example.com".to_string())),
        ("DsPrsId", PlistValue::Integer(1234567)),
        ("adsid", PlistValue::String("ADSID".to_string())),
    ]);
    let ids = login_ids(true, Some(&d)).ok().expect("ids");
    assert_eq!(ids.acname, "me@example.com");
    assert_eq!(ids.dsid, "1234567");
    assert_eq!(ids.adsid, "ADSID");
}

#[test]
fn login_errors_in_order() {
    let d = spd(&[("DsPrsId", PlistValue::Integer(1))]);
    assert!(login_ids(false, Some(&d)).err() == Some(LoginError::NoPet));
    assert!(login_ids(true, None).err() == Some(LoginError::NoSpd));
    assert!(login_ids(true, Some(&d)).err() == Some(LoginError::NoAcname));
    let d = spd(&[("acname", PlistValue::String("a".to_string()))]);
    assert!(login_ids(true, Some(&d)).err() == Some(LoginError::NoDsid));
    let d = spd(&[("acname", PlistValue::String("a".to_string())), ("DsPrsId", PlistValue::Integer(5))]);
    assert!(login_ids(true, Some(&d)).err() == Some(LoginError::NoAdsid));
    assert_eq!(LoginError::NoAdsid.message(), "No adsid!");
    assert_eq!(LoginError::NoPet.message(), "No pet!");
}

#[test]
fn password_digest_is_sha256() {
    let d = hash_password("password");
    let hex: String = d.iter().map(|b| format!("{b:02x}")).collect();
    assert_eq!(hex, "5e884898da28047151d0e56f8dc6292773603d0d6aabbdd62a11ef721d1542d8");
    assert_eq!(hash_password("").len(), 32);
}

#[test]
fn extra_step_skipped_with_token() {
    assert!(matches!(settle_login::<u8>(LoginStage::NeedsExtraStep("x".to_string()), true), LoginStage::LoggedIn));
    assert!(matches!(settle_login::<u8>(LoginStage::NeedsExtraStep("x".to_string()), false), LoginStage::NeedsExtraStep(_)));
    assert!(matches!(settle_login(LoginStage::Other(3u8), true), LoginStage::Other(3)));
}

#[test]
fn clique_outcomes() {
    assert_eq!(clique_result::<u8>(CliqueSetup::NoSession), Ok(true));
    assert_eq!(clique_result::<u8>(CliqueSetup::CircleOver), Ok(true));
    assert_eq!(clique_result::<u8>(CliqueSetup::Done), Ok(false));
    assert_eq!(clique_result(CliqueSetup::Failed(9u8)), Err(9));
}

#[test]
fn postdata_marked_once() {
    let mut s = GsaState { username: "u".to_string(), encrypted_password: vec![1], postdata_done: None };
    assert!(mark_postdata(&mut s));
    assert_eq!(s.postdata_done, Some(true));
    assert!(!mark_postdata(&mut s));
}

#[test]
fn mac_flavor_required() {
    assert!(require_mac(Some(Some(ProvisionedFlavor::Mac))));
    assert!(!require_mac(Some(Some(ProvisionedFlavor::IOS))));
    assert!(!require_mac(Some(None)));
    assert!(!require_mac(None));
}

#[test]
fn dsid_from_spd() {
    let d = spd(&[("DsPrsId", PlistValue::Integer(42))]);
    assert_eq!(spd_dsid(&d), 42);
}

#[test]
fn registration_replies() {
    assert!(matches!(registration_reply::<u8, u8, u8>(Ok(1)), Ok((Some(1), None))));
    assert!(matches!(registration_reply::<u8, u8, u8>(Err(RegisterError::CustomerMessage(2))), Ok((None, Some(2)))));
    assert!(matches!(registration_reply::<u8, u8, u8>(Err(RegisterError::Other(3))), Err(3)));
}

use bubble_bridge::plist::PlistValue;
use bubble_bridge::summaries::{
    get_bottles, get_quota_info, MediaUsage, sync_failure, get_regstate, ResourceKind, RegisterState, status_of,
    get_groups, GroupFacts, ShareFacts, ParticipantFacts, wifi_networks,
};

fn dict(entries: Vec<(&str, PlistValue)>) -> PlistValue {
    PlistValue::Dictionary(entries.into_iter().map(|(k, v)| (k.to_string(), v)).collect())
}

#[test]
fn bottles_with_defaults() {
    let records = vec![
        (1u8, dict(vec![("SecureBackupNumericPassphraseLength", PlistValue::Integer(6)), ("device_name", PlistValue::String("Phone".to_string())), ("device_model_class", PlistValue::String("iPhone".to_string()))])),
        (2u8, PlistValue::String("not metadata".to_string())),
        (3u8, dict(vec![("SecureBackupNumericPassphraseLength", PlistValue::Integer(-1)), ("device_name", PlistValue::Integer(3))])),
    ];
    let b = get_bottles(records);
    assert_eq!(b.len(), 2);
    assert_eq!(b[0].escrow, 1);
    assert_eq!(b[0].numeric_length, 6);
    assert_eq!(b[0].device_name, "Phone");
    assert_eq!(b[0].model_class, "iPhone");
    assert_eq!(b[1].escrow, 3);
    assert_eq!(b[1].numeric_length, 0);
    assert_eq!(b[1].device_name, "No Name");
    assert_eq!(b[1].model_class, "iMac");
}

#[test]
fn quota_messages_usage() {
    let usage = vec![
        MediaUsage { media_key: "photos".to_string(), usage_in_bytes: 10 },
        MediaUsage { media_key: "messages".to_string(), usage_in_bytes: 20 },
        MediaUsage { media_key: "messages".to_string(), usage_in_bytes: 30 },
    ];
    let q = get_quota_info(100, 50, &usage);
    assert_eq!((q.total_bytes, q.available_bytes, q.messages_bytes), (100, 50, 20));
    assert_eq!(get_quota_info(1, 1, &vec![]).messages_bytes, 0);
}

#[test]
fn sync_failure_wait_defaults_to_max() {
    assert_eq!(sync_failure(Some(("boom".to_string(), None))), Some(("boom".to_string(), u64::MAX)));
    assert_eq!(sync_failure(Some(("boom".to_string(), Some(30)))), Some(("boom".to_string(), 30)));
    assert_eq!(sync_failure(None), None);
}

#[test]
fn registration_states() {
    assert!(matches!(get_regstate::<i64>(ResourceKind::Generating), RegisterState::Registering));
    assert!(matches!(get_regstate(ResourceKind::Generated(600i64)), RegisterState::Registered { next_s: 600 }));
    match get_regstate::<i64>(ResourceKind::Closed) {
        RegisterState::Failed { retry_wait, error } => {
            assert_eq!(retry_wait, None);
            assert_eq!(error, "Closed");
        }
        _ => panic!("expected failure"),
    }
    match get_regstate::<i64>(ResourceKind::Failed { retry_wait: Some(5), error: "e".to_string() }) {
        RegisterState::Failed { retry_wait, error } => assert_eq!((retry_wait, error.as_str()), (Some(5), "e")),
        _ => panic!("expected failure"),
    }
}

#[test]
fn shared_status() {
    let s = status_of(None);
    assert!(s.active && s.id.is_none());
    let s = status_of(Some("busy".to_string()));
    assert!(!s.active);
    assert_eq!(s.id.as_deref(), Some("busy"));
}

fn participant(state: i32, name: Option<&str>, handle: Option<&str>) -> ParticipantFacts<String> {
    ParticipantFacts { state, contact_name: name.map(|s| s.to_string()), handle: handle.map(|s| s.to_string()), user_name: Some("uid".to_string()) }
}

#[test]
fn group_members_filtered() {
    let groups = vec![
        GroupFacts { id: "g1".to_string(), is_owner: true, share: Some(ShareFacts {
            display_name: "Family".to_string(),
            participants: vec![
                participant(2, Some("Ann"), Some("mailto:ann@example.com")),
                participant(3, Some("Bob"), Some("tel:+1")),
                participant(1, None, None),
                participant(1, Some("Cy"), None),
                participant(1, Some("Di"), Some("tel:+2")),
            ],
        }) },
        GroupFacts { id: "g2".to_string(), is_owner: false, share: None },
    ];
    let r = get_groups(groups);
    assert_eq!(r.len(), 1);
    assert_eq!(r[0].0, "g1");
    assert_eq!(r[0].1.display_name, "Family");
    assert!(r[0].1.is_owner);
    let m = &r[0].1.members;
    assert_eq!(m.len(), 2);
    assert_eq!(m[0].name, "Ann");
    assert!(m[0].is_joined);
    assert_eq!(m[1].handle, "tel:+2");
    assert!(!m[1].is_joined);
    assert_eq!(m[1].user_id.as_deref(), Some("uid"));
}

#[test]
fn wifi_passwords_decoded() {
    let r = wifi_networks(vec![("Home".to_string(), "pässword".as_bytes().to_vec())]);
    assert_eq!(r, vec![("Home".to_string(), "pässword".to_string())]);
}

use bubble_bridge::plist::PlistValue;
use bubble_bridge::files::{clear_id_cache, StateFile, Step, reset_user, reset_state, login_writes, incident_plan, PresentFiles, BuiltStates};

#[test]
fn reset_user_removes_user_states() {
    let steps = reset_user();
    assert_eq!(steps.len(), 8);
    assert!(steps[0] == Step::Remove(StateFile::Gsa));
    assert!(steps[6] == Step::Remove(StateFile::SharedStreams));
    assert!(steps[7] == Step::ForgetStatusKey);
}

#[test]
fn reset_state_without_logout() {
    let steps = reset_state(false, true, false);
    assert_eq!(steps.len(), 3);
    assert!(steps[0] == Step::StopPoll);
    assert!(steps[1] == Step::Remove(StateFile::Id));
    assert!(steps[2] == Step::ClearIdCache);
}

#[test]
fn reset_state_full() {
    let steps = reset_state(true, true, true);
    assert_eq!(steps.len(), 1 + 2 + 8 + 2 + 3);
    assert!(steps[1] == Step::Deregister);
    assert!(steps[2] == Step::LogoutAll);
    assert!(steps[11] == Step::Remove(StateFile::Id));
    assert!(steps[13] == Step::Remove(StateFile::HwInfo));
    assert!(steps[15] == Step::Remove(StateFile::StatusKit));
    let no_account = reset_state(true, false, false);
    assert!(no_account[2] == Step::Remove(StateFile::Gsa));
}

#[test]
fn file_names() {
    assert_eq!(StateFile::Gsa.file_name(), "gsa.plist");
    assert_eq!(StateFile::IdCache.file_name(), "id_cache.plist");
    assert_eq!(StateFile::IncidentAffected.file_name(), "incident_affected");
}

#[test]
fn login_writes_only_missing_states() {
    let present = PresentFiles { findmy: true, shared_streams: false, cloudkit: true, keychain: false };
    let built = BuiltStates { shared_streams: true, cloudkit: true, keychain: false };
    let steps = login_writes(&present, &built);
    assert_eq!(steps.len(), 3);
    assert!(steps[0] == Step::Write(StateFile::Gsa));
    assert!(steps[1] == Step::ForgetStatusKey);
    assert!(steps[2] == Step::Write(StateFile::SharedStreams));
}

#[test]
fn incident_marker() {
    assert_eq!(incident_plan(true, true).len(), 0);
    let s = incident_plan(false, true);
    assert!(s[0] == Step::Create(StateFile::IncidentAffected) && s[1] == Step::Create(StateFile::Incident));
    let s = incident_plan(false, false);
    assert_eq!(s.len(), 1);
}

#[test]
fn id_cache_keeps_counters() {
    let mut c = vec![
        ("counters".to_string(), PlistValue::Integer(7)),
        ("cache".to_string(), PlistValue::Dictionary(vec![("k".to_string(), PlistValue::Boolean(true))])),
        ("other".to_string(), PlistValue::String("x".to_string())),
    ];
    clear_id_cache(&mut c);
    assert_eq!(c.len(), 3);
    assert!(matches!(c[0], (ref k, PlistValue::Integer(7)) if k == "counters"));
    assert!(matches!(c[1], (ref k, PlistValue::Dictionary(ref d)) if k == "cache" && d.is_empty()));
    assert!(matches!(c[2], (ref k, PlistValue::String(ref v)) if k == "other" && v == "x"));
}

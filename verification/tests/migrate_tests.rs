use bubble_bridge::plist::PlistValue;
use bubble_bridge::migrate::{
    ImportKind, migrate_user, migrate_users, migrate_activation_key, identity_needs_conversion,
    migrate_keychain_keys, take_password, replace_value, insert_value, remove_value, clear_dict_at, clone_value,
};

fn s(x: &str) -> PlistValue {
    PlistValue::String(x.to_string())
}

fn dict(entries: Vec<(&str, PlistValue)>) -> PlistValue {
    PlistValue::Dictionary(entries.into_iter().map(|(k, v)| (k.to_string(), v)).collect())
}

fn entries(v: PlistValue) -> Vec<(String, PlistValue)> {
    match v {
        PlistValue::Dictionary(d) => d,
        _ => panic!("not a dictionary"),
    }
}

fn get<'a>(d: &'a [(String, PlistValue)], k: &str) -> Option<&'a PlistValue> {
    d.iter().find(|(key, _)| key == k).map(|(_, v)| v)
}

fn as_str(v: Option<&PlistValue>) -> Option<&str> {
    match v {
        Some(PlistValue::String(s)) => Some(s.as_str()),
        _ => None,
    }
}

fn user(id: &str, key: Option<Vec<u8>>) -> Vec<(String, PlistValue)> {
    let private = match key {
        Some(k) => PlistValue::Data(k),
        None => s(&format!("ids:{id}")),
    };
    entries(dict(vec![
        ("user_id", s(id)),
        ("auth_keypair", dict(vec![("cert", PlistValue::Data(vec![0])), ("private", private)])),
        ("registration", dict(vec![
            ("com.apple.madrid", dict(vec![("id_keypair", dict(vec![("private", PlistValue::Data(vec![5, 5]))]))])),
            ("com.apple.private.alloy.facetime.video", dict(vec![("other", s("x"))])),
        ])),
    ]))
}

#[test]
fn migrate_user_moves_keys_to_handles() {
    let mut u = user("P:+15551234", Some(vec![1, 2, 3]));
    let imp = migrate_user(&mut u).expect("import");
    assert_eq!(imp.handle, "ids:P:+15551234");
    assert!(imp.kind == ImportKind::IdentityRsa);
    assert_eq!(imp.der, vec![1, 2, 3]);
    let auth = match get(&u, "auth_keypair") { Some(PlistValue::Dictionary(d)) => d.clone_entries(), _ => panic!() };
    assert_eq!(as_str(get(&auth, "private")), Some("ids:P:+15551234"));
    match get(&u, "registration") {
        Some(PlistValue::Dictionary(reg)) => match &reg[0].1 {
            PlistValue::Dictionary(svc) => match get(svc, "id_keypair") {
                Some(PlistValue::Dictionary(kp)) => assert_eq!(as_str(get(kp, "private")), Some("ids:P:+15551234")),
                _ => panic!("no key pair"),
            },
            _ => panic!("service is not a dictionary"),
        },
        _ => panic!("no registration"),
    }
    // a second migration asks for nothing
    assert!(migrate_user(&mut u).is_none());
}

trait CloneEntries {
    fn clone_entries(&self) -> Vec<(String, PlistValue)>;
}

impl CloneEntries for Vec<(String, PlistValue)> {
    fn clone_entries(&self) -> Vec<(String, PlistValue)> {
        self.iter().map(|(k, v)| (k.clone(), clone_value(v))).collect()
    }
}

#[test]
fn migrate_users_collects_imports_in_order() {
    let mut users = vec![user("a", Some(vec![1])), user("b", None), user("c", Some(vec![3]))];
    let (imports, modified) = migrate_users(&mut users);
    assert!(modified);
    assert_eq!(imports.len(), 2);
    assert_eq!(imports[0].handle, "ids:a");
    assert_eq!(imports[1].handle, "ids:c");
    assert_eq!(imports[1].der, vec![3]);
    let (again, modified) = migrate_users(&mut users);
    assert!(again.is_empty());
    assert!(!modified);
}

fn hw() -> Vec<(String, PlistValue)> {
    entries(dict(vec![
        ("push", dict(vec![("token", PlistValue::Data(vec![9])), ("keypair", dict(vec![("cert", PlistValue::Data(vec![1])), ("private", PlistValue::Data(vec![7, 7]))]))])),
        ("os_config", dict(vec![])),
        ("identity", dict(vec![("k", s("v"))])),
    ]))
}

#[test]
fn activation_key_migration() {
    let mut h = hw();
    assert!(migrate_activation_key(&mut h, None).is_none());
    let (imp, kp) = migrate_activation_key(&mut h, Some("C02SERIAL")).expect("import");
    assert_eq!(imp.handle, "activation:C02SERIAL");
    assert!(imp.kind == ImportKind::ActivationRsa);
    assert_eq!(imp.der, vec![7, 7]);
    assert_eq!(kp.len(), 2);
    assert_eq!(as_str(get(&kp, "private")), Some("activation:C02SERIAL"));
    assert!(migrate_activation_key(&mut h, Some("C02SERIAL")).is_none());
    assert!(identity_needs_conversion(&h));
    replace_value(&mut h, "identity", PlistValue::Data(vec![1]));
    assert!(!identity_needs_conversion(&h));
}

#[test]
fn keychain_migration() {
    let mut kc = entries(dict(vec![
        ("dsid", s("123")),
        ("user_identity", dict(vec![("signing_key", PlistValue::Data(vec![1])), ("encryption_key", PlistValue::Data(vec![2]))])),
        ("items", dict(vec![("x", s("y"))])),
    ]));
    let m = migrate_keychain_keys(&mut kc, "TUlE");
    assert_eq!(m.dsid, "123");
    assert!(m.migrate);
    assert_eq!(m.imports.len(), 2);
    assert_eq!(m.imports[0].handle, "keychain:signing:TUlE");
    assert!(m.imports[0].kind == ImportKind::KeychainSigning);
    assert_eq!(m.imports[1].handle, "keychain:encryption:TUlE");
    assert!(m.imports[1].kind == ImportKind::KeychainEncryption);
    match get(&kc, "items") {
        Some(PlistValue::Dictionary(d)) => assert!(d.is_empty()),
        _ => panic!("items gone"),
    }
    let again = migrate_keychain_keys(&mut kc, "TUlE");
    assert!(!again.migrate && again.imports.is_empty());
}

#[test]
fn keychain_encryption_only_does_not_migrate() {
    let mut kc = entries(dict(vec![
        ("dsid", s("1")),
        ("user_identity", dict(vec![("encryption_key", PlistValue::Data(vec![2]))])),
        ("items", dict(vec![("x", s("y"))])),
    ]));
    let m = migrate_keychain_keys(&mut kc, "M");
    assert!(!m.migrate);
    assert_eq!(m.imports.len(), 1);
    match get(&kc, "items") {
        Some(PlistValue::Dictionary(d)) => assert_eq!(d.len(), 1),
        _ => panic!("items gone"),
    }
}

#[test]
fn password_taken_out() {
    let mut a = entries(dict(vec![("username", s("me")), ("password", PlistValue::Data(vec![4, 2])), ("other", s("o"))]));
    assert_eq!(take_password(&mut a), Some(vec![4, 2]));
    assert!(get(&a, "password").is_none());
    assert_eq!(a[1].0, "other");
    insert_value(&mut a, "encrypted_password", PlistValue::Data(vec![9]));
    assert_eq!(a.last().unwrap().0, "encrypted_password");
    let mut b = entries(dict(vec![("password", s("plain"))]));
    assert_eq!(take_password(&mut b), None);
    assert!(b.is_empty());
}

#[test]
fn dictionary_operations() {
    let mut d = entries(dict(vec![("a", s("1")), ("b", s("2")), ("c", s("3"))]));
    insert_value(&mut d, "b", s("20"));
    assert_eq!(d[1].0, "b");
    assert_eq!(as_str(get(&d, "b")), Some("20"));
    assert!(matches!(remove_value(&mut d, "a"), Some(PlistValue::String(x)) if x == "1"));
    assert_eq!(d[0].0, "c");
    assert!(remove_value(&mut d, "zz").is_none());
    let mut e = entries(dict(vec![("cache", dict(vec![("k", s("v"))])), ("counters", s("keep"))]));
    clear_dict_at(&mut e, "cache");
    assert!(matches!(get(&e, "cache"), Some(PlistValue::Dictionary(x)) if x.is_empty()));
    assert_eq!(as_str(get(&e, "counters")), Some("keep"));
}

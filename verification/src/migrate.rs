//! Migration of stored state written by earlier releases: private keys
//! kept inline in the state files move into the platform key store, and
//! the files then hold only the key store's handle for each key.
//!
//! The rewriting of the stored dictionaries is decided here; the key
//! imports it asks for are returned, for the caller to perform before it
//! writes the rewritten state back.

use vstd::prelude::*;
use crate::text::{string_of, push_str};
use crate::plist::{
    PlistValue, PlistView, Entries, entries_view, dget, dreplace, dinsert, dremove, dict_find, lemma_dictionary_view, lemma_key_pos, lemma_replace_other, lemma_replace_same, lemma_replace_noop, keys_unique, lemma_remove_get, lemma_insert_other,
};

verus! {

/// Which key a store import is for, which fixes its algorithm and use.
#[derive(PartialEq, Eq, Structural, Clone, Copy)]
pub enum ImportKind {
    /// The device's activation key: RSA-1024, PKCS#1 signatures over SHA-1.
    ActivationRsa,
    /// A user's identity key: RSA-2048, PKCS#1 signatures over SHA-1.
    IdentityRsa,
    /// The keychain signing key: P-384, signing over SHA-384 or SHA-256.
    KeychainSigning,
    /// The keychain encryption key: P-384, key agreement.
    KeychainEncryption,
}

/// A private key to import into the key store under `handle`.
pub struct KeyImport {
    pub handle: String,
    pub kind: ImportKind,
    pub der: Vec<u8>,
}

impl KeyImport {
    pub open spec fn view(&self) -> (Seq<char>, ImportKind, Seq<u8>) {
        (self.handle@, self.kind, self.der@)
    }
}

/// The imports, seen.
pub open spec fn imports_view(v: Seq<KeyImport>) -> Seq<(Seq<char>, ImportKind, Seq<u8>)> {
    Seq::new(v.len(), |i: int| v[i].view())
}

type Entry = (String, PlistValue);

/// Key `k`'s value replaced by a string `h` where it holds data.
pub open spec fn data_to_handle(d: Entries, k: Seq<char>, h: Seq<char>) -> Entries {
    match dget(d, k) {
        Some(PlistView::Data(_)) => dreplace(d, k, PlistView::String(h)),
        _ => d,
    }
}

/// The data key `k` holds, if it holds data.
pub open spec fn data_at(d: Entries, k: Seq<char>) -> Option<Seq<u8>> {
    match dget(d, k) {
        Some(PlistView::Data(c)) => Some(c),
        _ => None,
    }
}

/// The dictionary key `k` holds, if it holds one.
pub open spec fn dict_at(d: Entries, k: Seq<char>) -> Option<Entries> {
    match dget(d, k) {
        Some(PlistView::Dictionary(inner)) => Some(inner),
        _ => None,
    }
}

/// In the dictionary at key `outer`, the data at key `inner` replaced by
/// the string `h`.
pub open spec fn nested_to_handle(d: Entries, outer: Seq<char>, inner: Seq<char>, h: Seq<char>) -> Entries {
    match dget(d, outer) {
        Some(PlistView::Dictionary(kp)) => dreplace(
            d,
            outer,
            PlistView::Dictionary(data_to_handle(kp, inner, h)),
        ),
        _ => d,
    }
}

/// The data at key `inner` of the dictionary at key `outer`.
pub open spec fn nested_data(d: Entries, outer: Seq<char>, inner: Seq<char>) -> Option<Seq<u8>> {
    match dict_at(d, outer) {
        Some(kp) => data_at(kp, inner),
        None => None,
    }
}

/// The dictionary at key `k` emptied, where `k` holds a dictionary.
pub open spec fn cleared_at(d: Entries, k: Seq<char>) -> Entries {
    match dget(d, k) {
        Some(PlistView::Dictionary(_)) => dreplace(d, k, PlistView::Dictionary(Seq::empty())),
        _ => d,
    }
}

/// Replaces the data at key `key` by the string `handle`; returns the data
/// that was there.
fn data_to_handle_exec(d: &mut Vec<Entry>, key: &str, handle: &String) -> (r: Option<Vec<u8>>)
    ensures
        entries_view(final(d)@) == data_to_handle(entries_view(old(d)@), key@, handle@),
        match r {
            Some(c) => data_at(entries_view(old(d)@), key@) == Some(c@),
            None => data_at(entries_view(old(d)@), key@) is None,
        },
{
    let ghost e = entries_view(d@);
    match dict_find(d, key) {
        None => None,
        Some(i) => {
            let (k, v) = d.remove(i);
            match v {
                PlistValue::Data(cert) => {
                    let s = handle.clone();
                    d.insert(i, (k, PlistValue::String(s)));
                    assert(entries_view(d@) =~= e.update(i as int, (key@, PlistView::String(handle@))));
                    Some(cert)
                },
                other => {
                    d.insert(i, (k, other));
                    assert(entries_view(d@) =~= e);
                    None
                },
            }
        },
    }
}

/// Replaces the value at key `key`, where the key is present.
pub fn replace_value(d: &mut Vec<Entry>, key: &str, v: PlistValue)
    ensures
        entries_view(final(d)@) == dreplace(entries_view(old(d)@), key@, v.view()),
{
    let ghost e = entries_view(d@);
    let ghost vv = v.view();
    match dict_find(d, key) {
        None => {},
        Some(i) => {
            let (k, _old) = d.remove(i);
            d.insert(i, (k, v));
            assert(entries_view(d@) =~= e.update(i as int, (key@, vv)));
        },
    }
}

/// Sets key `key` to `v`: in place where the key is present, last
/// otherwise.
pub fn insert_value(d: &mut Vec<Entry>, key: &str, v: PlistValue)
    ensures
        entries_view(final(d)@) == dinsert(entries_view(old(d)@), key@, v.view()),
{
    let ghost e = entries_view(d@);
    let ghost vv = v.view();
    match dict_find(d, key) {
        None => {
            d.push((string_of(key), v));
            assert(entries_view(d@) =~= e.push((key@, vv)));
        },
        Some(i) => {
            let (k, _old) = d.remove(i);
            d.insert(i, (k, v));
            assert(entries_view(d@) =~= e.update(i as int, (key@, vv)));
        },
    }
}

/// Removes key `key`, the last entry taking its place; returns the value
/// that was there.
pub fn remove_value(d: &mut Vec<Entry>, key: &str) -> (r: Option<PlistValue>)
    ensures
        entries_view(final(d)@) == dremove(entries_view(old(d)@), key@),
        match r {
            Some(v) => dget(entries_view(old(d)@), key@) == Some(v.view()),
            None => dget(entries_view(old(d)@), key@) is None,
        },
{
    let ghost e = entries_view(d@);
    match dict_find(d, key) {
        None => None,
        Some(i) => {
            let (_k, v) = d.swap_remove(i);
            proof {
                if i as int == e.len() - 1 {
                    assert(entries_view(d@) =~= e.drop_last());
                } else {
                    assert(entries_view(d@) =~= e.drop_last().update(i as int, e.last()));
                }
            }
            Some(v)
        },
    }
}

/// Empties the dictionary at key `key`, where the key holds a dictionary.
pub fn clear_dict_at(d: &mut Vec<Entry>, key: &str)
    ensures
        entries_view(final(d)@) == cleared_at(entries_view(old(d)@), key@),
{
    let ghost e = entries_view(d@);
    match dict_find(d, key) {
        None => {},
        Some(i) => {
            let (k, v) = d.remove(i);
            match v {
                PlistValue::Dictionary(_inner) => {
                    let empty: Vec<Entry> = Vec::new();
                    proof {
                        lemma_dictionary_view(empty);
                        assert(entries_view(empty@) =~= Seq::empty());
                    }
                    d.insert(i, (k, PlistValue::Dictionary(empty)));
                    assert(entries_view(d@) =~= e.update(
                        i as int,
                        (key@, PlistView::Dictionary(Seq::empty())),
                    ));
                },
                other => {
                    d.insert(i, (k, other));
                    assert(entries_view(d@) =~= e);
                },
            }
        },
    }
}

/// In the dictionary at key `outer`, replaces the data at key `inner` by
/// the string `handle`; returns the data that was there.
fn nested_to_handle_exec(d: &mut Vec<Entry>, outer: &str, inner: &str, handle: &String) -> (r: Option<Vec<u8>>)
    ensures
        entries_view(final(d)@) == nested_to_handle(entries_view(old(d)@), outer@, inner@, handle@),
        match r {
            Some(c) => nested_data(entries_view(old(d)@), outer@, inner@) == Some(c@),
            None => nested_data(entries_view(old(d)@), outer@, inner@) is None,
        },
{
    let ghost e = entries_view(d@);
    match dict_find(d, outer) {
        None => None,
        Some(i) => {
            let (k, v) = d.remove(i);
            match v {
                PlistValue::Dictionary(kp) => {
                    let mut kp = kp;
                    proof {
                        lemma_dictionary_view(kp);
                    }
                    let ghost kp0 = entries_view(kp@);
                    let r = data_to_handle_exec(&mut kp, inner, handle);
                    proof {
                        lemma_dictionary_view(kp);
                    }
                    d.insert(i, (k, PlistValue::Dictionary(kp)));
                    assert(entries_view(d@) =~= e.update(
                        i as int,
                        (outer@, PlistView::Dictionary(data_to_handle(kp0, inner@, handle@))),
                    ));
                    r
                },
                other => {
                    d.insert(i, (k, other));
                    assert(entries_view(d@) =~= e);
                    None
                },
            }
        },
    }
}

/// The handle of a user's identity key.
pub open spec fn ids_handle(user_id: Seq<char>) -> Seq<char> {
    "ids:"@ + user_id
}

/// A service's registration with its identity key's data replaced by the
/// user's handle.
pub open spec fn migrate_service_view(sd: Entries, h: Seq<char>) -> Entries {
    nested_to_handle(sd, "id_keypair"@, "private"@, h)
}

/// All registrations of a user migrated.
pub open spec fn migrate_registration_view(reg: Entries, h: Seq<char>) -> Entries {
    Seq::new(
        reg.len(),
        |i: int|
            (
                reg[i].0,
                match reg[i].1 {
                    PlistView::Dictionary(sd) => PlistView::Dictionary(migrate_service_view(sd, h)),
                    other => other,
                },
            ),
    )
}

/// The registrations at key `registration` migrated.
pub open spec fn registrations_migrated(u: Entries, h: Seq<char>) -> Entries {
    match dget(u, "registration"@) {
        Some(PlistView::Dictionary(reg)) => dreplace(
            u,
            "registration"@,
            PlistView::Dictionary(migrate_registration_view(reg, h)),
        ),
        _ => u,
    }
}

/// A stored user migrated: the authentication key's data and every
/// registration's identity key data replaced by the user's handle.
pub open spec fn migrate_user_view(u: Entries, user_id: Seq<char>) -> Entries {
    let h = ids_handle(user_id);
    registrations_migrated(nested_to_handle(u, "auth_keypair"@, "private"@, h), h)
}

/// The user's identifier, where it is a string.
pub open spec fn user_id_of(u: Entries) -> Option<Seq<char>> {
    match dget(u, "user_id"@) {
        Some(PlistView::String(s)) => Some(s),
        _ => None,
    }
}

/// Every registration is a dictionary.
pub open spec fn registrations_are_dicts(u: Entries) -> bool {
    match dict_at(u, "registration"@) {
        Some(reg) => forall|i: int| 0 <= i < reg.len() ==> (#[trigger] reg[i]).1 is Dictionary,
        None => true,
    }
}

/// A stored user that the migration can go through: it has a string
/// identifier, and each of its registrations is a dictionary.
pub open spec fn user_migratable(u: Entries) -> bool {
    &&& user_id_of(u) is Some
    &&& registrations_are_dicts(u)
}

/// The authentication key data a stored user holds inline.
pub open spec fn user_auth_data(u: Entries) -> Option<Seq<u8>> {
    nested_data(u, "auth_keypair"@, "private"@)
}

fn migrate_registrations(reg: &mut Vec<Entry>, h: &String)
    requires
        forall|i: int|
            0 <= i < entries_view(old(reg)@).len() ==> (#[trigger] entries_view(old(reg)@)[i]).1 is Dictionary,
    ensures
        entries_view(final(reg)@) == migrate_registration_view(entries_view(old(reg)@), h@),
{
    let ghost e = entries_view(reg@);
    let ghost target = migrate_registration_view(e, h@);
    let n = reg.len();
    let mut j: usize = 0;
    while j < n
        invariant
            n == e.len(),
            reg@.len() == n,
            j <= n,
            target == migrate_registration_view(e, h@),
            forall|i: int| 0 <= i < n ==> (#[trigger] e[i]).1 is Dictionary,
            forall|i: int| 0 <= i < j ==> #[trigger] entries_view(reg@)[i] == target[i],
            forall|i: int| j <= i < n ==> #[trigger] entries_view(reg@)[i] == e[i],
        decreases n - j,
    {
        let ghost before = entries_view(reg@);
        assert(before[j as int] == e[j as int]);
        let (k, v) = reg.remove(j);
        match v {
            PlistValue::Dictionary(sd) => {
                let mut sd = sd;
                proof {
                    lemma_dictionary_view(sd);
                }
                let ghost sd0 = entries_view(sd@);
                migrate_service(&mut sd, h);
                proof {
                    lemma_dictionary_view(sd);
                }
                reg.insert(j, (k, PlistValue::Dictionary(sd)));
                assert(target[j as int] == (e[j as int].0, PlistView::Dictionary(migrate_service_view(sd0, h@))));
                assert(entries_view(reg@) =~= before.update(j as int, target[j as int]));
            },
            other => {
                reg.insert(j, (k, other));
                assert(false);
            },
        }
        j = j + 1;
    }
    assert(entries_view(reg@) =~= target);
}

fn migrate_service(sd: &mut Vec<Entry>, h: &String)
    ensures
        entries_view(final(sd)@) == migrate_service_view(entries_view(old(sd)@), h@),
{
    let _ = nested_to_handle_exec(sd, "id_keypair", "private", h);
}

fn migrate_registrations_at(user: &mut Vec<Entry>, h: &String)
    requires
        registrations_are_dicts(entries_view(old(user)@)),
    ensures
        entries_view(final(user)@) == registrations_migrated(entries_view(old(user)@), h@),
{
    let ghost e = entries_view(user@);
    match dict_find(user, "registration") {
        None => {},
        Some(i) => {
            let (k, v) = user.remove(i);
            match v {
                PlistValue::Dictionary(reg) => {
                    let mut reg = reg;
                    proof {
                        lemma_dictionary_view(reg);
                    }
                    let ghost reg0 = entries_view(reg@);
                    migrate_registrations(&mut reg, h);
                    proof {
                        lemma_dictionary_view(reg);
                    }
                    user.insert(i, (k, PlistValue::Dictionary(reg)));
                    assert(entries_view(user@) =~= e.update(
                        i as int,
                        ("registration"@, PlistView::Dictionary(migrate_registration_view(reg0, h@))),
                    ));
                },
                other => {
                    user.insert(i, (k, other));
                    assert(entries_view(user@) =~= e);
                },
            }
        },
    }
}

fn string_value_at(d: &Vec<Entry>, key: &str) -> (r: String)
    requires
        dget(entries_view(d@), key@) matches Some(PlistView::String(_)),
    ensures
        dget(entries_view(d@), key@) == Some(PlistView::String(r@)),
{
    let i = dict_find(d, key).unwrap();
    match &d[i].1 {
        PlistValue::String(s) => s.clone(),
        _ => {
            assert(false);
            String::new()
        },
    }
}

/// Rewriting the authentication key leaves the registrations as they were.
proof fn lemma_auth_keeps_registrations(u: Entries, h: Seq<char>)
    ensures
        dget(nested_to_handle(u, "auth_keypair"@, "private"@, h), "registration"@) == dget(
            u,
            "registration"@,
        ),
{
    reveal_strlit("auth_keypair");
    reveal_strlit("registration");
    assert("auth_keypair"@[0] != "registration"@[0]);
    if let Some(PlistView::Dictionary(kp)) = dget(u, "auth_keypair"@) {
        lemma_replace_other(
            u,
            "auth_keypair"@,
            PlistView::Dictionary(data_to_handle(kp, "private"@, h)),
            "registration"@,
        );
    }
}

/// Migrates one stored user: the authentication key's data and the
/// identity keys' data of its registrations become the handle
/// `ids:<user id>`; returns the import the authentication key needs.
pub fn migrate_user(user: &mut Vec<Entry>) -> (r: Option<KeyImport>)
    requires
        user_migratable(entries_view(old(user)@)),
    ensures
        entries_view(final(user)@) == migrate_user_view(
            entries_view(old(user)@),
            user_id_of(entries_view(old(user)@))->0,
        ),
        match r {
            Some(imp) => user_auth_data(entries_view(old(user)@)) == Some(imp.der@) && imp.kind
                == ImportKind::IdentityRsa && imp.handle@ == ids_handle(
                user_id_of(entries_view(old(user)@))->0,
            ),
            None => user_auth_data(entries_view(old(user)@)) is None,
        },
{
    let ghost e = entries_view(user@);
    let uid = string_value_at(user, "user_id");
    let mut handle = string_of("ids:");
    push_str(&mut handle, uid.as_str());
    let cert = nested_to_handle_exec(user, "auth_keypair", "private", &handle);
    proof {
        lemma_auth_keeps_registrations(e, handle@);
    }
    migrate_registrations_at(user, &handle);
    match cert {
        Some(der) => Some(KeyImport { handle, kind: ImportKind::IdentityRsa, der }),
        None => None,
    }
}

/// The stored users, seen.
pub open spec fn users_view(us: Seq<Vec<Entry>>) -> Seq<Entries> {
    Seq::new(us.len(), |i: int| entries_view(us[i]@))
}

/// The import that migrating a user asks for, if any.
pub open spec fn user_import(u: Entries) -> Option<(Seq<char>, ImportKind, Seq<u8>)> {
    match user_auth_data(u) {
        Some(c) => Some((ids_handle(user_id_of(u)->0), ImportKind::IdentityRsa, c)),
        None => None,
    }
}

/// The imports that migrating the users asks for, in the users' order.
pub open spec fn users_imports(us: Seq<Entries>) -> Seq<(Seq<char>, ImportKind, Seq<u8>)>
    decreases us.len(),
{
    if us.len() == 0 {
        Seq::empty()
    } else {
        let prev = users_imports(us.drop_last());
        match user_import(us.last()) {
            Some(imp) => prev.push(imp),
            None => prev,
        }
    }
}

/// Migrates every stored user; returns the key imports asked for, in the
/// users' order, and whether any user's authentication key moved (only
/// then is the rewritten list worth saving).
pub fn migrate_users(users: &mut Vec<Vec<Entry>>) -> (r: (Vec<KeyImport>, bool))
    requires
        forall|i: int|
            0 <= i < old(users)@.len() ==> user_migratable(#[trigger] entries_view(old(users)@[i]@)),
    ensures
        final(users)@.len() == old(users)@.len(),
        forall|i: int|
            0 <= i < old(users)@.len() ==> #[trigger] entries_view(final(users)@[i]@)
                == migrate_user_view(
                entries_view(old(users)@[i]@),
                user_id_of(entries_view(old(users)@[i]@))->0,
            ),
        imports_view(r.0@) == users_imports(users_view(old(users)@)),
        r.1 == exists|i: int|
            0 <= i < old(users)@.len() && (#[trigger] user_auth_data(entries_view(old(users)@[i]@))) is Some,
{
    let ghost orig = users_view(users@);
    let ghost old_users = users@;
    let n = users.len();
    let mut imports: Vec<KeyImport> = Vec::new();
    let mut modified = false;
    let mut j: usize = 0;
    while j < n
        invariant
            n == orig.len(),
            users@.len() == n,
            j <= n,
            forall|i: int| 0 <= i < n ==> user_migratable(#[trigger] orig[i]),
            forall|i: int|
                0 <= i < j ==> #[trigger] entries_view(users@[i]@) == migrate_user_view(
                    orig[i],
                    user_id_of(orig[i])->0,
                ),
            forall|i: int| j <= i < n ==> #[trigger] entries_view(users@[i]@) == orig[i],
            imports_view(imports@) == users_imports(orig.take(j as int)),
            modified == exists|i: int| 0 <= i < j && (#[trigger] user_auth_data(orig[i])) is Some,
        decreases n - j,
    {
        assert(entries_view(users@[j as int]@) == orig[j as int]);
        let mut u = users.remove(j);
        let imp = migrate_user(&mut u);
        users.insert(j, u);
        assert(orig.take(j as int + 1).drop_last() =~= orig.take(j as int));
        assert(orig.take(j as int + 1).last() == orig[j as int]);
        match imp {
            Some(k) => {
                imports.push(k);
                modified = true;
                assert(imports_view(imports@) =~= users_imports(orig.take(j as int)).push(
                    user_import(orig[j as int])->0,
                ));
            },
            None => {
                assert(imports_view(imports@) =~= users_imports(orig.take(j as int)));
            },
        }
        j = j + 1;
    }
    assert(orig.take(n as int) =~= orig);
    assert(forall|i: int| 0 <= i < n ==> #[trigger] orig[i] == entries_view(old_users[i]@));
    proof {
        if modified {
            let w = choose|i: int| 0 <= i < n && (#[trigger] user_auth_data(orig[i])) is Some;
            assert(user_auth_data(entries_view(old_users[w]@)) is Some);
        } else {
            assert forall|i: int| 0 <= i < n implies user_auth_data(
                entries_view(old_users[i]@),
            ) is None by {
                assert(orig[i] == entries_view(old_users[i]@));
            }
        }
    }
    (imports, modified)
}

/// The handle of the device's activation key.
pub open spec fn activation_handle(serial: Seq<char>) -> Seq<char> {
    "activation:"@ + serial
}

/// The push state's key pair, if the stored hardware state has one.
pub open spec fn push_keypair(hw: Entries) -> Option<Entries> {
    match dict_at(hw, "push"@) {
        Some(p) => dict_at(p, "keypair"@),
        None => None,
    }
}

/// The activation key data the hardware state holds inline.
pub open spec fn activation_data(hw: Entries) -> Option<Seq<u8>> {
    match push_keypair(hw) {
        Some(kp) => data_at(kp, "private"@),
        None => None,
    }
}

/// The hardware state with the activation key's data replaced by `h`.
pub open spec fn activation_migrated(hw: Entries, h: Seq<char>) -> Entries {
    match dget(hw, "push"@) {
        Some(PlistView::Dictionary(p)) => dreplace(
            hw,
            "push"@,
            PlistView::Dictionary(nested_to_handle(p, "keypair"@, "private"@, h)),
        ),
        _ => hw,
    }
}

/// A copy of a value.
#[verifier::loop_isolation(false)]
pub fn clone_value(v: &PlistValue) -> (r: PlistValue)
    ensures
        r.view() == v.view(),
    decreases v,
{
    match v {
        PlistValue::Array(items) => {
            let mut out: Vec<PlistValue> = Vec::new();
            let mut i: usize = 0;
            while i < items.len()
                invariant
                    i <= items@.len(),
                    out@.len() == i,
                    forall|j: int| 0 <= j < i ==> (#[trigger] out@[j]).view() == items@[j].view(),
                decreases items@.len() - i,
            {
                proof {
                    assert(decreases_to!(*v => v->Array_0));
                    assert(decreases_to!(items => items@));
                    assert(decreases_to!(items@ => items@[i as int]));
                }
                let c = clone_value(&items[i]);
                out.push(c);
                i = i + 1;
            }
            let r = PlistValue::Array(out);
            assert(r.view()->Array_0 =~= v.view()->Array_0);
            r
        },
        PlistValue::Dictionary(entries) => {
            let mut out: Vec<Entry> = Vec::new();
            let mut i: usize = 0;
            while i < entries.len()
                invariant
                    i <= entries@.len(),
                    out@.len() == i,
                    forall|j: int|
                        0 <= j < i ==> (#[trigger] out@[j]).0@ == entries@[j].0@ && out@[j].1.view()
                            == entries@[j].1.view(),
                decreases entries@.len() - i,
            {
                proof {
                    assert(decreases_to!(*v => v->Dictionary_0));
                    assert(decreases_to!(entries => entries@));
                    assert(decreases_to!(entries@ => entries@[i as int]));
                    assert(decreases_to!(entries@[i as int] => entries@[i as int].1));
                }
                let c = clone_value(&entries[i].1);
                out.push((entries[i].0.clone(), c));
                i = i + 1;
            }
            let r = PlistValue::Dictionary(out);
            assert(r.view()->Dictionary_0 =~= v.view()->Dictionary_0);
            r
        },
        PlistValue::Boolean(b) => PlistValue::Boolean(*b),
        PlistValue::Data(d) => PlistValue::Data(d.clone()),
        PlistValue::Date(t) => PlistValue::Date(*t),
        PlistValue::Real(x) => PlistValue::Real(*x),
        PlistValue::Integer(n) => PlistValue::Integer(*n),
        PlistValue::String(s) => PlistValue::String(s.clone()),
        PlistValue::Uid(u) => PlistValue::Uid(*u),
    }
}

/// The dictionary at key `key`, if the key holds one.
fn dict_value_at<'a>(d: &'a Vec<Entry>, key: &str) -> (r: Option<&'a Vec<Entry>>)
    ensures
        match r {
            Some(inner) => dict_at(entries_view(d@), key@) == Some(entries_view(inner@)),
            None => dict_at(entries_view(d@), key@) is None,
        },
{
    match dict_find(d, key) {
        None => None,
        Some(i) => match &d[i].1 {
            PlistValue::Dictionary(inner) => {
                proof {
                    lemma_dictionary_view(*inner);
                }
                Some(inner)
            },
            _ => None,
        },
    }
}

/// Moves the device's activation key out of the stored hardware state:
/// where the push key pair holds its private key inline, that data
/// becomes the handle `activation:<serial>`. Returns the import the key
/// needs and the rewritten key pair, which is what gets saved in place of
/// the hardware state. `serial` is the serial number of the stored
/// configuration; without one nothing moves.
pub fn migrate_activation_key(hw: &mut Vec<Entry>, serial: Option<&str>) -> (r: Option<
    (KeyImport, Vec<Entry>),
>)
    ensures
        match serial {
            None => final(hw)@ == old(hw)@ && r is None,
            Some(sn) => {
                &&& entries_view(final(hw)@) == activation_migrated(
                    entries_view(old(hw)@),
                    activation_handle(sn@),
                )
                &&& match r {
                    Some((imp, kp)) => {
                        &&& activation_data(entries_view(old(hw)@)) == Some(imp.der@)
                        &&& imp.kind == ImportKind::ActivationRsa
                        &&& imp.handle@ == activation_handle(sn@)
                        &&& entries_view(kp@) == data_to_handle(
                            push_keypair(entries_view(old(hw)@))->0,
                            "private"@,
                            activation_handle(sn@),
                        )
                    },
                    None => activation_data(entries_view(old(hw)@)) is None,
                }
            },
        },
{
    let sn = match serial {
        None => return None,
        Some(sn) => sn,
    };
    let mut handle = string_of("activation:");
    push_str(&mut handle, sn);
    let ghost e = entries_view(hw@);
    match dict_find(hw, "push") {
        None => None,
        Some(i) => {
            let (k, v) = hw.remove(i);
            match v {
                PlistValue::Dictionary(p) => {
                    let mut p = p;
                    proof {
                        lemma_dictionary_view(p);
                    }
                    let ghost p0 = entries_view(p@);
                    let cert = nested_to_handle_exec(&mut p, "keypair", "private", &handle);
                    let saved = match cert {
                        Some(der) => {
                            proof {
                                let kp0 = dict_at(p0, "keypair"@)->0;
                                lemma_replace_same(
                                    p0,
                                    "keypair"@,
                                    PlistView::Dictionary(data_to_handle(kp0, "private"@, handle@)),
                                );
                            }
                            let j = dict_find(&p, "keypair").unwrap();
                            let copy = clone_value(&p[j].1);
                            Some((KeyImport { handle, kind: ImportKind::ActivationRsa, der }, copy))
                        },
                        None => None,
                    };
                    proof {
                        lemma_dictionary_view(p);
                    }
                    hw.insert(i, (k, PlistValue::Dictionary(p)));
                    assert(entries_view(hw@) =~= e.update(
                        i as int,
                        ("push"@, PlistView::Dictionary(nested_to_handle(p0, "keypair"@, "private"@, handle@))),
                    ));
                    match saved {
                        Some((imp, PlistValue::Dictionary(kp))) => {
                            proof {
                                lemma_dictionary_view(kp);
                            }
                            Some((imp, kp))
                        },
                        _ => None,
                    }
                },
                other => {
                    hw.insert(i, (k, other));
                    assert(entries_view(hw@) =~= e);
                    None
                },
            }
        },
    }
}

/// Whether the stored hardware state holds its identity as a dictionary,
/// the form that must be converted to the saved identity's bytes.
pub fn identity_needs_conversion(hw: &Vec<Entry>) -> (r: bool)
    ensures
        r == dict_at(entries_view(hw@), "identity"@) is Some,
{
    dict_value_at(hw, "identity").is_some()
}

/// The handle of the keychain signing key of machine `mid`.
pub open spec fn signing_handle(mid: Seq<char>) -> Seq<char> {
    "keychain:signing:"@ + mid
}

/// The handle of the keychain encryption key of machine `mid`.
pub open spec fn encryption_handle(mid: Seq<char>) -> Seq<char> {
    "keychain:encryption:"@ + mid
}

/// The keychain state with both identity keys' data replaced by their
/// handles, and, where the signing key moved, the cached items dropped.
pub open spec fn keychain_migrated(kc: Entries, mid: Seq<char>) -> Entries {
    let k1 = nested_to_handle(kc, "user_identity"@, "signing_key"@, signing_handle(mid));
    let k2 = nested_to_handle(k1, "user_identity"@, "encryption_key"@, encryption_handle(mid));
    if nested_data(kc, "user_identity"@, "signing_key"@) is Some {
        cleared_at(k2, "items"@)
    } else {
        k2
    }
}

/// The imports that migrating the keychain state asks for: the signing
/// key's, then the encryption key's.
pub open spec fn keychain_imports(kc: Entries, mid: Seq<char>) -> Seq<(Seq<char>, ImportKind, Seq<u8>)> {
    let k1 = nested_to_handle(kc, "user_identity"@, "signing_key"@, signing_handle(mid));
    let s: Seq<(Seq<char>, ImportKind, Seq<u8>)> = match nested_data(kc, "user_identity"@, "signing_key"@) {
        Some(c) => seq![(signing_handle(mid), ImportKind::KeychainSigning, c)],
        None => Seq::empty(),
    };
    match nested_data(k1, "user_identity"@, "encryption_key"@) {
        Some(c) => s.push((encryption_handle(mid), ImportKind::KeychainEncryption, c)),
        None => s,
    }
}

/// What migrating the keychain state found.
pub struct KeychainMigration {
    /// The account the keychain belongs to.
    pub dsid: String,
    /// The key imports asked for.
    pub imports: Vec<KeyImport>,
    /// Whether the signing key moved: only then are the bottle and the
    /// stored keys converted and the state saved.
    pub migrate: bool,
}

/// Migrates the keychain state of machine `mid` (its identifier, base64):
/// the identity's signing and encryption keys held inline become the
/// handles `keychain:signing:<mid>` and `keychain:encryption:<mid>`, and
/// where the signing key moved the cached items are dropped.
pub fn migrate_keychain_keys(kc: &mut Vec<Entry>, mid: &str) -> (r: KeychainMigration)
    requires
        dget(entries_view(old(kc)@), "dsid"@) matches Some(PlistView::String(_)),
    ensures
        dget(entries_view(old(kc)@), "dsid"@) == Some(PlistView::String(r.dsid@)),
        entries_view(final(kc)@) == keychain_migrated(entries_view(old(kc)@), mid@),
        imports_view(r.imports@) == keychain_imports(entries_view(old(kc)@), mid@),
        r.migrate == nested_data(entries_view(old(kc)@), "user_identity"@, "signing_key"@) is Some,
{
    let ghost e = entries_view(kc@);
    let dsid = string_value_at(kc, "dsid");
    let mut signing = string_of("keychain:signing:");
    push_str(&mut signing, mid);
    let mut encryption = string_of("keychain:encryption:");
    push_str(&mut encryption, mid);
    let mut imports: Vec<KeyImport> = Vec::new();
    let s = nested_to_handle_exec(kc, "user_identity", "signing_key", &signing);
    let migrate = s.is_some();
    match s {
        Some(der) => imports.push(KeyImport { handle: signing, kind: ImportKind::KeychainSigning, der }),
        None => {},
    }
    let c = nested_to_handle_exec(kc, "user_identity", "encryption_key", &encryption);
    match c {
        Some(der) => imports.push(
            KeyImport { handle: encryption, kind: ImportKind::KeychainEncryption, der },
        ),
        None => {},
    }
    if migrate {
        clear_dict_at(kc, "items");
    }
    assert(imports_view(imports@) =~= keychain_imports(e, mid@));
    KeychainMigration { dsid, imports, migrate }
}

/// The stored account with its password removed.
pub open spec fn password_taken(a: Entries) -> Entries {
    dremove(a, "password"@)
}

/// Takes the stored password out of an account: the key goes whatever it
/// holds; the password is returned where it was data, for the caller to
/// store again encrypted under `encrypted_password`.
pub fn take_password(account: &mut Vec<Entry>) -> (r: Option<Vec<u8>>)
    ensures
        entries_view(final(account)@) == password_taken(entries_view(old(account)@)),
        match r {
            Some(p) => data_at(entries_view(old(account)@), "password"@) == Some(p@),
            None => data_at(entries_view(old(account)@), "password"@) is None,
        },
{
    match remove_value(account, "password") {
        Some(PlistValue::Data(p)) => Some(p),
        _ => None,
    }
}

/// Replacing data by a handle twice is replacing it once; afterwards the
/// key holds no data.
pub proof fn lemma_data_to_handle_idempotent(d: Entries, k: Seq<char>, h: Seq<char>)
    ensures
        data_to_handle(data_to_handle(d, k, h), k, h) == data_to_handle(d, k, h),
        data_at(data_to_handle(d, k, h), k) is None,
{
    if let Some(PlistView::Data(_)) = dget(d, k) {
        lemma_replace_same(d, k, PlistView::String(h));
    }
}

/// Rewriting a nested key pair twice is rewriting it once; afterwards it
/// holds no data.
pub proof fn lemma_nested_idempotent(d: Entries, outer: Seq<char>, inner: Seq<char>, h: Seq<char>)
    ensures
        nested_to_handle(nested_to_handle(d, outer, inner, h), outer, inner, h) == nested_to_handle(
            d,
            outer,
            inner,
            h,
        ),
        nested_data(nested_to_handle(d, outer, inner, h), outer, inner) is None,
{
    if let Some(PlistView::Dictionary(kp)) = dget(d, outer) {
        let kp2 = data_to_handle(kp, inner, h);
        let d2 = dreplace(d, outer, PlistView::Dictionary(kp2));
        lemma_replace_same(d, outer, PlistView::Dictionary(kp2));
        lemma_data_to_handle_idempotent(kp, inner, h);
        lemma_replace_noop(d2, outer, PlistView::Dictionary(kp2));
    }
}

/// Migrating registrations twice is migrating them once.
proof fn lemma_registrations_idempotent(reg: Entries, h: Seq<char>)
    ensures
        migrate_registration_view(migrate_registration_view(reg, h), h) == migrate_registration_view(
            reg,
            h,
        ),
{
    let m = migrate_registration_view(reg, h);
    let m2 = migrate_registration_view(m, h);
    assert forall|i: int| 0 <= i < reg.len() implies #[trigger] m2[i] == m[i] by {
        if let PlistView::Dictionary(sd) = reg[i].1 {
            lemma_nested_idempotent(sd, "id_keypair"@, "private"@, h);
        }
    }
    assert(m2 =~= m);
}

/// The keys a stored user is read by differ.
proof fn lemma_user_keys_differ()
    ensures
        "auth_keypair"@ != "registration"@,
        "auth_keypair"@ != "user_id"@,
        "registration"@ != "user_id"@,
{
    reveal_strlit("auth_keypair");
    reveal_strlit("registration");
    reveal_strlit("user_id");
    assert("auth_keypair"@[0] != "registration"@[0]);
    assert("auth_keypair"@[0] != "user_id"@[0]);
    assert("registration"@[0] != "user_id"@[0]);
}

/// Rewriting the key at `k` leaves the value at `k2` as it was.
proof fn lemma_nested_other(d: Entries, k: Seq<char>, inner: Seq<char>, h: Seq<char>, k2: Seq<char>)
    requires
        k != k2,
    ensures
        dget(nested_to_handle(d, k, inner, h), k2) == dget(d, k2),
{
    if let Some(PlistView::Dictionary(kp)) = dget(d, k) {
        lemma_replace_other(d, k, PlistView::Dictionary(data_to_handle(kp, inner, h)), k2);
    }
}

/// Migrating the registrations leaves the value at `k2` as it was.
proof fn lemma_registrations_other(u: Entries, h: Seq<char>, k2: Seq<char>)
    requires
        k2 != "registration"@,
    ensures
        dget(registrations_migrated(u, h), k2) == dget(u, k2),
{
    if let Some(PlistView::Dictionary(reg)) = dget(u, "registration"@) {
        lemma_replace_other(u, "registration"@, PlistView::Dictionary(migrate_registration_view(reg, h)), k2);
    }
}

/// Migration is done once: a migrated user keeps its identifier, holds no
/// key data inline any more (so migrating it again asks for no import),
/// can be migrated again, and migrating it again changes nothing.
pub proof fn lemma_migrate_user_idempotent(u: Entries)
    requires
        user_migratable(u),
    ensures
        ({
            let m = migrate_user_view(u, user_id_of(u)->0);
            &&& user_id_of(m) == user_id_of(u)
            &&& user_auth_data(m) is None
            &&& user_migratable(m)
            &&& migrate_user_view(m, user_id_of(m)->0) == m
        }),
{
    lemma_user_keys_differ();
    let h = ids_handle(user_id_of(u)->0);
    let u1 = nested_to_handle(u, "auth_keypair"@, "private"@, h);
    let m = registrations_migrated(u1, h);
    lemma_nested_other(u, "auth_keypair"@, "private"@, h, "user_id"@);
    lemma_nested_other(u, "auth_keypair"@, "private"@, h, "registration"@);
    lemma_registrations_other(u1, h, "user_id"@);
    lemma_registrations_other(u1, h, "auth_keypair"@);
    lemma_nested_idempotent(u, "auth_keypair"@, "private"@, h);
    assert(user_auth_data(m) is None);
    // The authentication key pair of `m` needs no more rewriting.
    assert(nested_to_handle(m, "auth_keypair"@, "private"@, h) == m) by {
        if let Some(PlistView::Dictionary(kp)) = dget(u1, "auth_keypair"@) {
            lemma_nested_idempotent(u, "auth_keypair"@, "private"@, h);
            if let Some(PlistView::Dictionary(kp0)) = dget(u, "auth_keypair"@) {
                lemma_replace_same(u, "auth_keypair"@, PlistView::Dictionary(data_to_handle(kp0, "private"@, h)));
                lemma_data_to_handle_idempotent(kp0, "private"@, h);
            }
            lemma_data_to_handle_idempotent(kp, "private"@, h);
            lemma_replace_noop(m, "auth_keypair"@, PlistView::Dictionary(kp));
        }
    }
    // The registrations of `m` need no more migrating.
    if let Some(PlistView::Dictionary(reg)) = dget(u1, "registration"@) {
        let mr = migrate_registration_view(reg, h);
        lemma_replace_same(u1, "registration"@, PlistView::Dictionary(mr));
        lemma_registrations_idempotent(reg, h);
        lemma_replace_noop(m, "registration"@, PlistView::Dictionary(mr));
        assert(registrations_migrated(m, h) == m);
        assert forall|i: int| 0 <= i < mr.len() implies (#[trigger] mr[i]).1 is Dictionary by {
            assert(reg[i].1 is Dictionary);
        }
    } else {
        assert(registrations_migrated(m, h) == m);
    }
}

/// The key at `inner` of the dictionary at `outer` moved to the key store
/// under handle `h`: no data is held there any more; where data was held,
/// the entry is the string `h`; where none was, nothing changed; every other
/// entry, of the dictionary and of the one at `outer`, is as it was.
pub open spec fn nested_key_moved(
    before: Entries,
    after: Entries,
    outer: Seq<char>,
    inner: Seq<char>,
    h: Seq<char>,
) -> bool {
    &&& nested_data(after, outer, inner) is None
    &&& nested_data(before, outer, inner) is Some ==> (dict_at(after, outer) matches Some(kp)
        && dget(kp, inner) == Some(PlistView::String(h)))
    &&& nested_data(before, outer, inner) is None ==> after == before
    &&& forall|k: Seq<char>| k != outer ==> #[trigger] dget(after, k) == dget(before, k)
    &&& dict_at(before, outer) matches Some(kp0) ==> (dict_at(after, outer) matches Some(kp1) && (
    forall|k: Seq<char>| k != inner ==> #[trigger] dget(kp1, k) == dget(kp0, k)))
}

/// Rewriting a nested key moves it to the key store.
proof fn lemma_nested_moved(d: Entries, outer: Seq<char>, inner: Seq<char>, h: Seq<char>)
    ensures
        nested_key_moved(d, nested_to_handle(d, outer, inner, h), outer, inner, h),
{
    let d2 = nested_to_handle(d, outer, inner, h);
    lemma_nested_idempotent(d, outer, inner, h);
    assert forall|k: Seq<char>| k != outer implies #[trigger] dget(d2, k) == dget(d, k) by {
        lemma_nested_other(d, outer, inner, h, k);
    }
    if nested_data(d, outer, inner) is None {
        lemma_nested_noop(d, outer, inner, h);
    }
    if let Some(PlistView::Dictionary(kp)) = dget(d, outer) {
        let kp2 = data_to_handle(kp, inner, h);
        lemma_replace_same(d, outer, PlistView::Dictionary(kp2));
        assert(dict_at(d2, outer) == Some(kp2));
        if let Some(PlistView::Data(_)) = dget(kp, inner) {
            lemma_replace_same(kp, inner, PlistView::String(h));
            assert forall|k: Seq<char>| k != inner implies #[trigger] dget(kp2, k) == dget(kp, k) by {
                lemma_replace_other(kp, inner, PlistView::String(h), k);
            }
        }
    }
}

/// Migrating a user moves every private key it holds inline to the key
/// store under the handle `ids:<user id>`: the authentication key, and the
/// identity key of each registration, whichever service it is for. Every
/// registration keeps its name and its place.
pub proof fn lemma_migrate_user_moves_keys(u: Entries)
    requires
        user_migratable(u),
    ensures
        ({
            let m = migrate_user_view(u, user_id_of(u)->0);
            let h = ids_handle(user_id_of(u)->0);
            &&& dict_at(u, "auth_keypair"@) is Some ==> nested_key_moved(
                u,
                nested_to_handle(u, "auth_keypair"@, "private"@, h),
                "auth_keypair"@,
                "private"@,
                h,
            ) && dget(m, "auth_keypair"@) == dget(
                nested_to_handle(u, "auth_keypair"@, "private"@, h),
                "auth_keypair"@,
            )
            &&& user_auth_data(u) is Some ==> (dict_at(m, "auth_keypair"@) matches Some(kp) && dget(
                kp,
                "private"@,
            ) == Some(PlistView::String(h)))
            &&& user_id_of(m) == user_id_of(u)
            &&& match dict_at(u, "registration"@) {
                Some(reg) => (dict_at(m, "registration"@) matches Some(reg2) && reg2.len()
                    == reg.len() && forall|i: int|
                    0 <= i < reg.len() ==> (#[trigger] reg2[i]).0 == reg[i].0 && (
                    reg[i].1 matches PlistView::Dictionary(sd) ==> (reg2[i].1 matches PlistView::Dictionary(
                        sd2,
                    ) && nested_key_moved(sd, sd2, "id_keypair"@, "private"@, h)))),
                None => dget(m, "registration"@) == dget(u, "registration"@),
            }
        }),
{
    lemma_user_keys_differ();
    let h = ids_handle(user_id_of(u)->0);
    let u1 = nested_to_handle(u, "auth_keypair"@, "private"@, h);
    let m = registrations_migrated(u1, h);
    lemma_nested_moved(u, "auth_keypair"@, "private"@, h);
    lemma_nested_other(u, "auth_keypair"@, "private"@, h, "user_id"@);
    lemma_registrations_other(u1, h, "user_id"@);
    lemma_registrations_other(u1, h, "auth_keypair"@);
    lemma_auth_keeps_registrations(u, h);
    if let Some(PlistView::Dictionary(reg)) = dget(u1, "registration"@) {
        let reg2 = migrate_registration_view(reg, h);
        lemma_replace_same(u1, "registration"@, PlistView::Dictionary(reg2));
        assert(dict_at(m, "registration"@) == Some(reg2));
        assert forall|i: int| 0 <= i < reg.len() implies (#[trigger] reg2[i]).0 == reg[i].0 && (
        reg[i].1 matches PlistView::Dictionary(sd) ==> (reg2[i].1 matches PlistView::Dictionary(sd2)
            && nested_key_moved(sd, sd2, "id_keypair"@, "private"@, h))) by {
            if let PlistView::Dictionary(sd) = reg[i].1 {
                lemma_nested_moved(sd, "id_keypair"@, "private"@, h);
            }
        }
    }
}

/// Rewriting a nested key that holds no data changes nothing.
proof fn lemma_nested_noop(d: Entries, outer: Seq<char>, inner: Seq<char>, h: Seq<char>)
    requires
        nested_data(d, outer, inner) is None,
    ensures
        nested_to_handle(d, outer, inner, h) == d,
{
    if let Some(PlistView::Dictionary(kp)) = dget(d, outer) {
        assert(data_to_handle(kp, inner, h) == kp);
        lemma_replace_noop(d, outer, PlistView::Dictionary(kp));
    }
}

/// Rewriting one nested key leaves the data of another nested key of the
/// same dictionary as it was.
proof fn lemma_nested_other_inner(
    d: Entries,
    outer: Seq<char>,
    inner: Seq<char>,
    h: Seq<char>,
    inner2: Seq<char>,
)
    requires
        inner != inner2,
    ensures
        nested_data(nested_to_handle(d, outer, inner, h), outer, inner2) == nested_data(d, outer, inner2),
{
    if let Some(PlistView::Dictionary(kp)) = dget(d, outer) {
        let kp2 = data_to_handle(kp, inner, h);
        lemma_replace_same(d, outer, PlistView::Dictionary(kp2));
        if let Some(PlistView::Data(_)) = dget(kp, inner) {
            lemma_replace_other(kp, inner, PlistView::String(h), inner2);
        }
    }
}

/// The keys the keychain state is read by differ.
proof fn lemma_keychain_keys_differ()
    ensures
        "signing_key"@ != "encryption_key"@,
        "items"@ != "user_identity"@,
{
    reveal_strlit("signing_key");
    reveal_strlit("encryption_key");
    reveal_strlit("items");
    reveal_strlit("user_identity");
    assert("signing_key"@[0] != "encryption_key"@[0]);
    assert("items"@[0] != "user_identity"@[0]);
}

/// Migrating the keychain state is done once: the migrated state holds
/// neither identity key inline, so migrating it again asks for no import
/// and changes nothing.
pub proof fn lemma_keychain_idempotent(kc: Entries, mid: Seq<char>)
    ensures
        ({
            let m = keychain_migrated(kc, mid);
            &&& keychain_imports(m, mid).len() == 0
            &&& keychain_migrated(m, mid) == m
        }),
{
    lemma_keychain_keys_differ();
    let ui = "user_identity"@;
    let sk = "signing_key"@;
    let ek = "encryption_key"@;
    let sh = signing_handle(mid);
    let eh = encryption_handle(mid);
    let k1 = nested_to_handle(kc, ui, sk, sh);
    let k2 = nested_to_handle(k1, ui, ek, eh);
    let m = keychain_migrated(kc, mid);
    lemma_nested_idempotent(kc, ui, sk, sh);
    lemma_nested_idempotent(k1, ui, ek, eh);
    lemma_nested_other_inner(k1, ui, ek, eh, sk);
    assert(nested_data(k2, ui, sk) is None);
    assert(nested_data(k2, ui, ek) is None);
    if nested_data(kc, ui, sk) is Some {
        if let Some(PlistView::Dictionary(_)) = dget(k2, "items"@) {
            lemma_replace_other(k2, "items"@, PlistView::Dictionary(Seq::empty()), ui);
        }
    }
    assert(dget(m, ui) == dget(k2, ui));
    assert(nested_data(m, ui, sk) is None);
    assert(nested_data(m, ui, ek) is None);
    lemma_nested_noop(m, ui, sk, sh);
    lemma_nested_noop(m, ui, ek, eh);
    assert(keychain_imports(m, mid) =~= Seq::<(Seq<char>, ImportKind, Seq<u8>)>::empty());
}

/// Migrating the activation key is done once: the migrated hardware state
/// holds no activation key data, so migrating it again asks for no import
/// and changes nothing.
pub proof fn lemma_activation_idempotent(hw: Entries, h: Seq<char>)
    ensures
        activation_data(activation_migrated(hw, h)) is None,
        activation_migrated(activation_migrated(hw, h), h) == activation_migrated(hw, h),
{
    if let Some(PlistView::Dictionary(p)) = dget(hw, "push"@) {
        let p2 = nested_to_handle(p, "keypair"@, "private"@, h);
        lemma_replace_same(hw, "push"@, PlistView::Dictionary(p2));
        lemma_nested_idempotent(p, "keypair"@, "private"@, h);
        lemma_replace_noop(activation_migrated(hw, h), "push"@, PlistView::Dictionary(p2));
    }
}

/// A password is taken out once: afterwards the account holds none, and
/// still has no repeated keys.
pub proof fn lemma_password_taken_once(a: Entries)
    requires
        keys_unique(a),
    ensures
        dget(password_taken(a), "password"@) is None,
        data_at(password_taken(a), "password"@) is None,
        keys_unique(password_taken(a)),
{
    lemma_remove_get(a, "password"@);
}

/// The migration moves the activation key: the stored configuration is
/// there, and the key is held inline.
pub open spec fn hw_activates(hw: Entries) -> bool {
    dget(hw, "os_config"@) is Some && activation_data(hw) is Some
}

/// The hardware state after the activation step, `serial` being the
/// serial number of its stored configuration (the step runs only where
/// the configuration is there).
pub open spec fn hw_migrated(hw: Entries, serial: Seq<char>) -> Entries {
    if dget(hw, "os_config"@) is Some {
        activation_migrated(hw, activation_handle(serial))
    } else {
        hw
    }
}

/// The migration writes the hardware-state file: the activation key moved,
/// or the identity is still a dictionary.
pub open spec fn hw_saves(hw: Entries, serial: Seq<char>) -> bool {
    hw_activates(hw) || dict_at(hw_migrated(hw, serial), "identity"@) is Some
}

/// What the hardware-state file holds after the migration, `identity`
/// being the saved identity's bytes: the whole state with the identity
/// converted, where the identity was a dictionary; otherwise the rewritten
/// key pair alone, where the activation key moved; otherwise the state as
/// it was.
pub open spec fn hw_stored_after(hw: Entries, serial: Seq<char>, identity: Seq<u8>) -> Entries {
    let m = hw_migrated(hw, serial);
    if dict_at(m, "identity"@) is Some {
        dreplace(m, "identity"@, PlistView::Data(identity))
    } else if hw_activates(hw) {
        data_to_handle(push_keypair(hw)->0, "private"@, activation_handle(serial))
    } else {
        hw
    }
}

/// The stored users after the migration: rewritten where an
/// authentication key moved, as they were otherwise.
pub open spec fn users_stored_after(us: Seq<Entries>) -> Seq<Entries> {
    if exists|i: int| 0 <= i < us.len() && (#[trigger] user_auth_data(us[i])) is Some {
        Seq::new(us.len(), |i: int| migrate_user_view(us[i], user_id_of(us[i])->0))
    } else {
        us
    }
}

/// The migration writes the users' file: an authentication key moved.
pub open spec fn users_saves(us: Seq<Entries>) -> bool {
    exists|i: int| 0 <= i < us.len() && (#[trigger] user_auth_data(us[i])) is Some
}

/// The migration writes the keychain file: the signing key moved.
pub open spec fn keychain_saves(kc: Entries) -> bool {
    nested_data(kc, "user_identity"@, "signing_key"@) is Some
}

/// What the keychain file holds after the migration: where the signing key
/// moved, the migrated state with the bottle and the stored keys converted
/// (`bottle`, `keystore`: what the conversions gave); the state as it was
/// otherwise.
pub open spec fn keychain_stored_after(kc: Entries, mid: Seq<char>, bottle: PlistView, keystore: PlistView) -> Entries {
    if keychain_saves(kc) {
        let m = keychain_migrated(kc, mid);
        let b = dreplace(m, "current_bottle"@, bottle);
        match dget(b, "keystore"@) {
            Some(PlistView::Array(_)) => dreplace(b, "keystore"@, keystore),
            _ => b,
        }
    } else {
        kc
    }
}

/// The migration writes the account file: the password was held inline.
pub open spec fn account_saves(a: Entries) -> bool {
    data_at(a, "password"@) is Some
}

/// What the account file holds after the migration, `encrypted` being the
/// encrypted password.
pub open spec fn account_stored_after(a: Entries, encrypted: Seq<u8>) -> Entries {
    if account_saves(a) {
        dinsert(password_taken(a), "encrypted_password"@, PlistView::Data(encrypted))
    } else {
        a
    }
}

/// Whether a migration of the stored files writes any of them. Each file
/// is `None` where it cannot be read; the keychain is migrated only with
/// the machine identifier `mid` of a provisioned anisette state.
pub open spec fn migration_saves(
    hw: Option<Entries>,
    serial: Seq<char>,
    users: Option<Seq<Entries>>,
    kc: Option<Entries>,
    mid: Option<Seq<char>>,
    account: Option<Entries>,
) -> bool {
    ||| hw matches Some(h) && hw_saves(h, serial)
    ||| users matches Some(us) && users_saves(us)
    ||| (kc matches Some(k) && mid is Some && keychain_saves(k))
    ||| account matches Some(a) && account_saves(a)
}

/// How many keys a migration of the stored files imports.
pub open spec fn migration_imports(
    hw: Option<Entries>,
    users: Option<Seq<Entries>>,
    kc: Option<Entries>,
    mid: Option<Seq<char>>,
) -> nat {
    (match hw {
        Some(h) => if hw_activates(h) {
            1nat
        } else {
            0nat
        },
        None => 0nat,
    }) + (match users {
        Some(us) => users_imports(us).len(),
        None => 0nat,
    }) + (match (kc, mid) {
        (Some(k), Some(m)) => keychain_imports(k, m).len(),
        _ => 0nat,
    })
}

/// The state files after a migration.
pub open spec fn migrated_files(
    hw: Option<Entries>,
    serial: Seq<char>,
    identity: Seq<u8>,
    users: Option<Seq<Entries>>,
    kc: Option<Entries>,
    mid: Option<Seq<char>>,
    bottle: PlistView,
    keystore: PlistView,
    account: Option<Entries>,
    encrypted: Seq<u8>,
) -> (Option<Entries>, Option<Seq<Entries>>, Option<Entries>, Option<Entries>) {
    (
        match hw {
            Some(h) => Some(hw_stored_after(h, serial, identity)),
            None => None,
        },
        match users {
            Some(us) => Some(users_stored_after(us)),
            None => None,
        },
        match (kc, mid) {
            (Some(k), Some(m)) => Some(keychain_stored_after(k, m, bottle, keystore)),
            _ => kc,
        },
        match account {
            Some(a) => Some(account_stored_after(a, encrypted)),
            None => None,
        },
    )
}

proof fn lemma_migration_keys_differ()
    ensures
        "identity"@ != "push"@,
        "identity"@ != "os_config"@,
        "push"@ != "os_config"@,
        "private"@ != "identity"@,
        "private"@ != "push"@,
        "private"@ != "os_config"@,
        "current_bottle"@ != "user_identity"@,
        "keystore"@ != "user_identity"@,
        "encrypted_password"@ != "password"@,
{
    reveal_strlit("identity");
    reveal_strlit("push");
    reveal_strlit("os_config");
    reveal_strlit("private");
    reveal_strlit("current_bottle");
    reveal_strlit("keystore");
    reveal_strlit("user_identity");
    reveal_strlit("encrypted_password");
    reveal_strlit("password");
    assert("identity"@[0] != "push"@[0]);
    assert("identity"@[0] != "os_config"@[0]);
    assert("push"@[0] != "os_config"@[0]);
    assert("private"@[0] != "identity"@[0]);
    assert("private"@[1] != "push"@[1]);
    assert("private"@[0] != "os_config"@[0]);
    assert("current_bottle"@[0] != "user_identity"@[0]);
    assert("keystore"@[0] != "user_identity"@[0]);
    assert("encrypted_password"@[0] != "password"@[0]);
}

/// Replacing the value of `k` where it holds data leaves the other keys.
proof fn lemma_data_to_handle_other(d: Entries, k: Seq<char>, h: Seq<char>, k2: Seq<char>)
    requires
        k != k2,
    ensures
        dget(data_to_handle(d, k, h), k2) == dget(d, k2),
{
    if let Some(PlistView::Data(_)) = dget(d, k) {
        lemma_replace_other(d, k, PlistView::String(h), k2);
    }
}

/// The activation step leaves the configuration and the identity alone.
proof fn lemma_hw_migrated_keeps(hw: Entries, serial: Seq<char>)
    ensures
        dget(hw_migrated(hw, serial), "identity"@) == dget(hw, "identity"@),
        dget(hw_migrated(hw, serial), "os_config"@) == dget(hw, "os_config"@),
{
    lemma_migration_keys_differ();
    if dget(hw, "os_config"@) is Some {
        let h = activation_handle(serial);
        if let Some(PlistView::Dictionary(p)) = dget(hw, "push"@) {
            let v = PlistView::Dictionary(nested_to_handle(p, "keypair"@, "private"@, h));
            lemma_replace_other(hw, "push"@, v, "identity"@);
            lemma_replace_other(hw, "push"@, v, "os_config"@);
        }
    }
}

/// What the hardware-state file holds after a migration asks for nothing
/// more of the next one.
proof fn lemma_hw_once(hw: Entries, serial: Seq<char>, serial2: Seq<char>, identity: Seq<u8>)
    requires
        hw_activates(hw) && dict_at(hw_migrated(hw, serial), "identity"@) is None ==> ({
            let kp = push_keypair(hw)->0;
            &&& !(dget(kp, "os_config"@) is Some && activation_data(kp) is Some)
            &&& dict_at(kp, "identity"@) is None
        }),
    ensures
        !hw_activates(hw_stored_after(hw, serial, identity)),
        !hw_saves(hw_stored_after(hw, serial, identity), serial2),
{
    lemma_migration_keys_differ();
    let m = hw_migrated(hw, serial);
    let a = hw_stored_after(hw, serial, identity);
    lemma_hw_migrated_keeps(hw, serial);
    lemma_hw_migrated_keeps(a, serial2);
    if dict_at(m, "identity"@) is Some {
        let v = PlistView::Data(identity);
        lemma_replace_same(m, "identity"@, v);
        lemma_replace_other(m, "identity"@, v, "push"@);
        lemma_replace_other(m, "identity"@, v, "os_config"@);
        if dget(hw, "os_config"@) is Some {
            lemma_activation_idempotent(hw, activation_handle(serial));
        }
        assert(activation_data(a) == activation_data(m));
    } else if hw_activates(hw) {
        let kp = push_keypair(hw)->0;
        let h = activation_handle(serial);
        lemma_data_to_handle_other(kp, "private"@, h, "os_config"@);
        lemma_data_to_handle_other(kp, "private"@, h, "push"@);
        lemma_data_to_handle_other(kp, "private"@, h, "identity"@);
        assert(activation_data(a) == activation_data(kp));
    }
}

/// No user holds key data inline: no import is asked for.
proof fn lemma_no_user_imports(us: Seq<Entries>)
    requires
        forall|i: int| 0 <= i < us.len() ==> (#[trigger] user_auth_data(us[i])) is None,
    ensures
        users_imports(us).len() == 0,
    decreases us.len(),
{
    if us.len() > 0 {
        assert(user_auth_data(us[us.len() - 1]) is None);
        lemma_no_user_imports(us.drop_last());
    }
}

/// The users' file after a migration asks for nothing of the next one.
proof fn lemma_users_once(us: Seq<Entries>)
    requires
        forall|i: int| 0 <= i < us.len() ==> user_migratable(#[trigger] us[i]),
    ensures
        forall|i: int|
            0 <= i < users_stored_after(us).len() ==> user_migratable(#[trigger] users_stored_after(us)[i]),
        !users_saves(users_stored_after(us)),
        users_imports(users_stored_after(us)).len() == 0,
{
    let a = users_stored_after(us);
    if users_saves(us) {
        assert forall|i: int| 0 <= i < a.len() implies user_migratable(#[trigger] a[i])
            && user_auth_data(a[i]) is None by {
            lemma_migrate_user_idempotent(us[i]);
        }
    }
    assert forall|i: int| 0 <= i < a.len() implies #[trigger] user_auth_data(a[i]) is None by {
        if users_saves(us) {
            lemma_migrate_user_idempotent(us[i]);
        }
    }
    lemma_no_user_imports(a);
}

/// The keychain file after a migration asks for nothing of the next one,
/// where the encryption key does not move without the signing key.
proof fn lemma_keychain_once(kc: Entries, mid: Seq<char>, bottle: PlistView, keystore: PlistView)
    requires
        keychain_saves(kc) || nested_data(kc, "user_identity"@, "encryption_key"@) is None,
    ensures
        !keychain_saves(keychain_stored_after(kc, mid, bottle, keystore)),
        keychain_imports(keychain_stored_after(kc, mid, bottle, keystore), mid).len() == 0,
{
    lemma_migration_keys_differ();
    let ui = "user_identity"@;
    let sk = "signing_key"@;
    let ek = "encryption_key"@;
    let sh = signing_handle(mid);
    let a = keychain_stored_after(kc, mid, bottle, keystore);
    if keychain_saves(kc) {
        let m = keychain_migrated(kc, mid);
        lemma_keychain_idempotent(kc, mid);
        assert(nested_data(m, ui, sk) is None) by {
            if nested_data(m, ui, sk) is Some {
                assert(keychain_imports(m, mid).len() >= 1);
            }
        }
        lemma_nested_noop(m, ui, sk, sh);
        let b = dreplace(m, "current_bottle"@, bottle);
        lemma_replace_other(m, "current_bottle"@, bottle, ui);
        if let Some(PlistView::Array(_)) = dget(b, "keystore"@) {
            lemma_replace_other(b, "keystore"@, keystore, ui);
        }
        assert(dget(a, ui) == dget(m, ui));
        assert(nested_data(a, ui, sk) == nested_data(m, ui, sk));
        assert(nested_data(a, ui, ek) == nested_data(m, ui, ek));
        lemma_nested_noop(a, ui, sk, sh);
        assert(keychain_imports(m, mid) =~= Seq::<(Seq<char>, ImportKind, Seq<u8>)>::empty());
        assert(nested_data(m, ui, ek) is None);
        assert(keychain_imports(a, mid) =~= Seq::<(Seq<char>, ImportKind, Seq<u8>)>::empty());
    } else {
        lemma_nested_noop(kc, ui, sk, sh);
        assert(keychain_imports(a, mid) =~= Seq::<(Seq<char>, ImportKind, Seq<u8>)>::empty());
    }
}

/// The account file after a migration asks for nothing of the next one.
proof fn lemma_account_once(a: Entries, encrypted: Seq<u8>)
    requires
        keys_unique(a),
    ensures
        !account_saves(account_stored_after(a, encrypted)),
{
    lemma_migration_keys_differ();
    if account_saves(a) {
        lemma_remove_get(a, "password"@);
        lemma_insert_other(password_taken(a), "encrypted_password"@, PlistView::Data(encrypted), "password"@);
    }
}

/// Migration happens once: run again on the files a migration left, it
/// imports no key and writes no file, whatever the serial number read from
/// the stored configuration and whatever the conversions of the identity,
/// the bottle, the stored keys and the password gave. Left out are the
/// inputs on which a second run does work: a key pair saved alone that
/// itself holds an identity dictionary, or a configuration with inline
/// activation key data; and a keychain whose encryption key is held inline
/// while the signing key is not (that key is imported on every run, as the
/// state is then never saved).
pub proof fn lemma_migration_once(
    hw: Option<Entries>,
    serial: Seq<char>,
    serial2: Seq<char>,
    identity: Seq<u8>,
    users: Option<Seq<Entries>>,
    kc: Option<Entries>,
    mid: Option<Seq<char>>,
    bottle: PlistView,
    keystore: PlistView,
    account: Option<Entries>,
    encrypted: Seq<u8>,
)
    requires
        hw matches Some(h) ==> (hw_activates(h) && dict_at(hw_migrated(h, serial), "identity"@) is None
            ==> ({
            let kp = push_keypair(h)->0;
            &&& !(dget(kp, "os_config"@) is Some && activation_data(kp) is Some)
            &&& dict_at(kp, "identity"@) is None
        })),
        users matches Some(us) ==> forall|i: int| 0 <= i < us.len() ==> user_migratable(#[trigger] us[i]),
        kc matches Some(k) ==> (mid is Some ==> keychain_saves(k) || nested_data(
            k,
            "user_identity"@,
            "encryption_key"@,
        ) is None),
        account matches Some(a) ==> keys_unique(a),
    ensures
        ({
            let after = migrated_files(hw, serial, identity, users, kc, mid, bottle, keystore, account, encrypted);
            &&& !migration_saves(after.0, serial2, after.1, after.2, mid, after.3)
            &&& migration_imports(after.0, after.1, after.2, mid) == 0
        }),
{
    if let Some(h) = hw {
        lemma_hw_once(h, serial, serial2, identity);
    }
    if let Some(us) = users {
        lemma_users_once(us);
    }
    if let (Some(k), Some(m)) = (kc, mid) {
        lemma_keychain_once(k, m, bottle, keystore);
    }
    if let Some(a) = account {
        lemma_account_once(a, encrypted);
    }
}

} // verus!

//! The state files kept in the configuration directory, and the plans of
//! file work that logging in, logging out and resetting carry out.

use vstd::prelude::*;
use crate::plist::{PlistValue, PlistView, Entries, entries_view, dget, lemma_replace_same, lemma_replace_other};
use crate::migrate::{clear_dict_at, cleared_at, dict_at};

verus! {

/// A file of the configuration directory.
#[derive(PartialEq, Eq, Structural, Clone, Copy)]
pub enum StateFile {
    Gsa,
    FindMy,
    FaceTime,
    CloudKit,
    Keychain,
    Passwords,
    SharedStreams,
    StatusKit,
    Id,
    IdCache,
    HwInfo,
    Incident,
    IncidentAffected,
}

/// The name of a state file in the configuration directory.
pub open spec fn file_name_of(f: StateFile) -> Seq<char> {
    match f {
        StateFile::Gsa => "gsa.plist"@,
        StateFile::FindMy => "findmy.plist"@,
        StateFile::FaceTime => "facetime.plist"@,
        StateFile::CloudKit => "cloudkit.plist"@,
        StateFile::Keychain => "keychain.plist"@,
        StateFile::Passwords => "passwords.plist"@,
        StateFile::SharedStreams => "sharedstreams.plist"@,
        StateFile::StatusKit => "statuskit.plist"@,
        StateFile::Id => "id.plist"@,
        StateFile::IdCache => "id_cache.plist"@,
        StateFile::HwInfo => "hw_info.plist"@,
        StateFile::Incident => "incident"@,
        StateFile::IncidentAffected => "incident_affected"@,
    }
}

impl StateFile {
    /// The file's name in the configuration directory.
    pub fn file_name(&self) -> (r: &'static str)
        ensures
            r@ == file_name_of(*self),
    {
        match self {
            StateFile::Gsa => "gsa.plist",
            StateFile::FindMy => "findmy.plist",
            StateFile::FaceTime => "facetime.plist",
            StateFile::CloudKit => "cloudkit.plist",
            StateFile::Keychain => "keychain.plist",
            StateFile::Passwords => "passwords.plist",
            StateFile::SharedStreams => "sharedstreams.plist",
            StateFile::StatusKit => "statuskit.plist",
            StateFile::Id => "id.plist",
            StateFile::IdCache => "id_cache.plist",
            StateFile::HwInfo => "hw_info.plist",
            StateFile::Incident => "incident",
            StateFile::IncidentAffected => "incident_affected",
        }
    }
}

/// One step of a plan of file and account work.
#[derive(PartialEq, Eq, Structural, Clone, Copy)]
pub enum Step {
    /// Tell a running poll to stop.
    StopPoll,
    /// Deregister from the messaging service, where the stored hardware
    /// identity can be restored; a failure is ignored.
    Deregister,
    /// Log the account out of all its services; a failure is ignored.
    LogoutAll,
    /// Remove the file, where it exists.
    Remove(StateFile),
    /// Write the file's new state.
    Write(StateFile),
    /// Create the file, empty.
    Create(StateFile),
    /// Rewrite the status-sharing state without its key.
    ForgetStatusKey,
    /// Empty the identity cache's `cache` dictionary, keeping the rest
    /// (the replay counters), where the cache file can be read: what
    /// `clear_id_cache` does to the cache's entries.
    ClearIdCache,
}

/// What forgetting the logged-in user does: the user's service states go,
/// and the status-sharing state loses its key.
pub open spec fn reset_user_steps() -> Seq<Step> {
    seq![
        Step::Remove(StateFile::Gsa),
        Step::Remove(StateFile::FindMy),
        Step::Remove(StateFile::FaceTime),
        Step::Remove(StateFile::CloudKit),
        Step::Remove(StateFile::Keychain),
        Step::Remove(StateFile::Passwords),
        Step::Remove(StateFile::SharedStreams),
        Step::ForgetStatusKey,
    ]
}

/// The steps that forget the logged-in user.
pub fn reset_user() -> (r: Vec<Step>)
    ensures
        r@ == reset_user_steps(),
{
    let r = vec![
        Step::Remove(StateFile::Gsa),
        Step::Remove(StateFile::FindMy),
        Step::Remove(StateFile::FaceTime),
        Step::Remove(StateFile::CloudKit),
        Step::Remove(StateFile::Keychain),
        Step::Remove(StateFile::Passwords),
        Step::Remove(StateFile::SharedStreams),
        Step::ForgetStatusKey,
    ];
    assert(r@ =~= reset_user_steps());
    r
}

/// What resetting the bridge does: stop polling; on logout, deregister,
/// log the account out where there is one, and forget the user; drop the
/// registered users and the identity cache's entries; and where the
/// hardware is reset too, drop the hardware state, the identity cache and
/// the status-sharing state.
pub open spec fn reset_state_steps(logout: bool, has_account: bool, reset_hw: bool) -> Seq<Step> {
    let logout_steps = if logout {
        seq![Step::Deregister] + (if has_account {
            seq![Step::LogoutAll]
        } else {
            Seq::empty()
        }) + reset_user_steps()
    } else {
        Seq::empty()
    };
    let hw_steps = if reset_hw {
        seq![
            Step::Remove(StateFile::HwInfo),
            Step::Remove(StateFile::IdCache),
            Step::Remove(StateFile::StatusKit),
        ]
    } else {
        Seq::empty()
    };
    seq![Step::StopPoll] + logout_steps + seq![Step::Remove(StateFile::Id), Step::ClearIdCache]
        + hw_steps
}

/// The steps of a reset.
pub fn reset_state(logout: bool, has_account: bool, reset_hw: bool) -> (r: Vec<Step>)
    ensures
        r@ == reset_state_steps(logout, has_account, reset_hw),
{
    let mut r: Vec<Step> = vec![Step::StopPoll];
    if logout {
        r.push(Step::Deregister);
        if has_account {
            r.push(Step::LogoutAll);
        }
        let mut u = reset_user();
        r.append(&mut u);
    }
    r.push(Step::Remove(StateFile::Id));
    r.push(Step::ClearIdCache);
    if reset_hw {
        r.push(Step::Remove(StateFile::HwInfo));
        r.push(Step::Remove(StateFile::IdCache));
        r.push(Step::Remove(StateFile::StatusKit));
    }
    assert(r@ =~= reset_state_steps(logout, has_account, reset_hw));
    r
}

/// Which service states exist in the configuration directory.
pub struct PresentFiles {
    pub findmy: bool,
    pub shared_streams: bool,
    pub cloudkit: bool,
    pub keychain: bool,
}

/// Which service states a login could build from the tokens it got.
pub struct BuiltStates {
    pub shared_streams: bool,
    pub cloudkit: bool,
    pub keychain: bool,
}

/// What a login writes: the account's credentials, the status-sharing
/// state without its key, and each service state that could be built and
/// does not exist yet (the Find My state can always be built).
pub open spec fn login_steps(present: PresentFiles, built: BuiltStates) -> Seq<Step> {
    let fm = if !present.findmy {
        seq![Step::Write(StateFile::FindMy)]
    } else {
        Seq::empty()
    };
    let ss = if built.shared_streams && !present.shared_streams {
        seq![Step::Write(StateFile::SharedStreams)]
    } else {
        Seq::empty()
    };
    let ck = if built.cloudkit && !present.cloudkit {
        seq![Step::Write(StateFile::CloudKit)]
    } else {
        Seq::empty()
    };
    let kc = if built.keychain && !present.keychain {
        seq![Step::Write(StateFile::Keychain)]
    } else {
        Seq::empty()
    };
    seq![Step::Write(StateFile::Gsa), Step::ForgetStatusKey] + fm + ss + ck + kc
}

/// The writes of a login.
pub fn login_writes(present: &PresentFiles, built: &BuiltStates) -> (r: Vec<Step>)
    ensures
        r@ == login_steps(*present, *built),
{
    let mut r: Vec<Step> = vec![Step::Write(StateFile::Gsa), Step::ForgetStatusKey];
    if !present.findmy {
        r.push(Step::Write(StateFile::FindMy));
    }
    if built.shared_streams && !present.shared_streams {
        r.push(Step::Write(StateFile::SharedStreams));
    }
    if built.cloudkit && !present.cloudkit {
        r.push(Step::Write(StateFile::CloudKit));
    }
    if built.keychain && !present.keychain {
        r.push(Step::Write(StateFile::Keychain));
    }
    assert(r@ =~= login_steps(*present, *built));
    r
}

/// What starting the messaging client does once: where the marker of the
/// identity-cache incident is missing, it marks the installation affected
/// when an identity cache can be read, then sets the marker.
pub open spec fn incident_steps(marker_exists: bool, cache_readable: bool) -> Seq<Step> {
    if marker_exists {
        Seq::empty()
    } else if cache_readable {
        seq![Step::Create(StateFile::IncidentAffected), Step::Create(StateFile::Incident)]
    } else {
        seq![Step::Create(StateFile::Incident)]
    }
}

/// The incident-marker steps of starting the messaging client.
pub fn incident_plan(marker_exists: bool, cache_readable: bool) -> (r: Vec<Step>)
    ensures
        r@ == incident_steps(marker_exists, cache_readable),
{
    let mut r: Vec<Step> = Vec::new();
    if !marker_exists {
        if cache_readable {
            r.push(Step::Create(StateFile::IncidentAffected));
        }
        r.push(Step::Create(StateFile::Incident));
    }
    assert(r@ =~= incident_steps(marker_exists, cache_readable));
    r
}

/// A reset keeps to what it is asked for: the hardware state goes only on
/// a hardware reset, and the account is logged out and the user forgotten
/// only on logout; every reset stops polling first and drops the
/// registered users.
pub proof fn lemma_reset_scope(logout: bool, has_account: bool, reset_hw: bool)
    ensures
        ({
            let s = reset_state_steps(logout, has_account, reset_hw);
            &&& s[0] == Step::StopPoll
            &&& s.contains(Step::Remove(StateFile::Id))
            &&& !reset_hw ==> !s.contains(Step::Remove(StateFile::HwInfo))
            &&& !logout ==> !s.contains(Step::LogoutAll) && !s.contains(Step::Remove(StateFile::Gsa))
            &&& logout ==> s.contains(Step::Remove(StateFile::Gsa))
        }),
{
    let s = reset_state_steps(logout, has_account, reset_hw);
    let logout_steps = if logout {
        seq![Step::Deregister] + (if has_account {
            seq![Step::LogoutAll]
        } else {
            Seq::empty()
        }) + reset_user_steps()
    } else {
        Seq::empty()
    };
    let hw_steps = if reset_hw {
        seq![
            Step::Remove(StateFile::HwInfo),
            Step::Remove(StateFile::IdCache),
            Step::Remove(StateFile::StatusKit),
        ]
    } else {
        Seq::empty()
    };
    let mid = seq![Step::Remove(StateFile::Id), Step::ClearIdCache];
    let head = seq![Step::StopPoll] + logout_steps;
    assert(s == head + mid + hw_steps);
    let k = head.len() as int;
    assert(s[k] == Step::Remove(StateFile::Id));
    if !reset_hw {
        assert(s =~= head + mid);
        assert forall|i: int| 0 <= i < s.len() implies s[i] != Step::Remove(StateFile::HwInfo) by {
            if i >= 1 && i < k {
                assert(s[i] == logout_steps[i - 1]);
            }
        }
    }
    if !logout {
        assert(s =~= seq![Step::StopPoll] + mid + hw_steps);
    } else {
        let u = reset_user_steps();
        let j = k - u.len();
        assert(s[j] == Step::Remove(StateFile::Gsa));
    }
}

/// A login never overwrites a service state that exists, and writes only
/// the states it could build.
pub proof fn lemma_login_keeps_existing(present: PresentFiles, built: BuiltStates)
    ensures
        ({
            let s = login_steps(present, built);
            &&& s.contains(Step::Write(StateFile::FindMy)) ==> !present.findmy
            &&& s.contains(Step::Write(StateFile::SharedStreams)) ==> !present.shared_streams
                && built.shared_streams
            &&& s.contains(Step::Write(StateFile::CloudKit)) ==> !present.cloudkit && built.cloudkit
            &&& s.contains(Step::Write(StateFile::Keychain)) ==> !present.keychain && built.keychain
        }),
{
    let s = login_steps(present, built);
    assert forall|i: int| 0 <= i < s.len() implies {
        &&& s[i] == Step::Write(StateFile::FindMy) ==> !present.findmy
        &&& s[i] == Step::Write(StateFile::SharedStreams) ==> !present.shared_streams
            && built.shared_streams
        &&& s[i] == Step::Write(StateFile::CloudKit) ==> !present.cloudkit && built.cloudkit
        &&& s[i] == Step::Write(StateFile::Keychain) ==> !present.keychain && built.keychain
    } by {
        let fm = if !present.findmy {
            seq![Step::Write(StateFile::FindMy)]
        } else {
            Seq::empty()
        };
        let ss = if built.shared_streams && !present.shared_streams {
            seq![Step::Write(StateFile::SharedStreams)]
        } else {
            Seq::empty()
        };
        let ck = if built.cloudkit && !present.cloudkit {
            seq![Step::Write(StateFile::CloudKit)]
        } else {
            Seq::empty()
        };
        let kc = if built.keychain && !present.keychain {
            seq![Step::Write(StateFile::Keychain)]
        } else {
            Seq::empty()
        };
        assert(s == seq![Step::Write(StateFile::Gsa), Step::ForgetStatusKey] + fm + ss + ck + kc);
    }
}

/// The files that belong to the logged-in user: the account's credentials
/// and the state of each service the account runs.
pub open spec fn user_file(f: StateFile) -> bool {
    match f {
        StateFile::Gsa | StateFile::FindMy | StateFile::FaceTime | StateFile::CloudKit
        | StateFile::Keychain | StateFile::Passwords | StateFile::SharedStreams => true,
        _ => false,
    }
}

/// Forgetting the user removes every file that belongs to the user and no
/// other file, and makes the status-sharing state lose its key.
pub proof fn lemma_reset_user_removes(f: StateFile)
    ensures
        reset_user_steps().contains(Step::Remove(f)) <==> user_file(f),
        reset_user_steps().contains(Step::ForgetStatusKey),
{
    broadcast use {
        vstd::seq_lib::lemma_seq_contains_after_push,
        vstd::seq_lib::lemma_seq_empty_contains_nothing,
    };
}

/// A reset with logout forgets the user: every file that belongs to the
/// user is removed and the status-sharing state loses its key; a reset
/// without logout removes none of them. Every reset drops the registered
/// users and the identity cache's entries, and a hardware reset removes the
/// hardware state, the identity cache and the status-sharing state.
pub proof fn lemma_reset_removes(logout: bool, has_account: bool, reset_hw: bool, f: StateFile)
    ensures
        ({
            let s = reset_state_steps(logout, has_account, reset_hw);
            &&& user_file(f) ==> (s.contains(Step::Remove(f)) <==> logout)
            &&& s.contains(Step::ForgetStatusKey) <==> logout
            &&& s.contains(Step::Remove(StateFile::Id))
            &&& s.contains(Step::ClearIdCache)
            &&& reset_hw ==> s.contains(Step::Remove(StateFile::HwInfo))
                && s.contains(Step::Remove(StateFile::IdCache))
                && s.contains(Step::Remove(StateFile::StatusKit))
        }),
{
    broadcast use {
        vstd::seq_lib::lemma_seq_concat_contains_all_elements,
        vstd::seq_lib::lemma_seq_contains_after_push,
        vstd::seq_lib::lemma_seq_empty_contains_nothing,
    };
    lemma_reset_user_removes(f);
}

/// A login writes the account's credentials and the status-sharing state
/// without its key, and each service state that it could build and that
/// does not exist yet (Find My's whenever it is missing).
pub proof fn lemma_login_writes_missing(present: PresentFiles, built: BuiltStates)
    ensures
        ({
            let s = login_steps(present, built);
            &&& s.contains(Step::Write(StateFile::Gsa))
            &&& s.contains(Step::ForgetStatusKey)
            &&& !present.findmy ==> s.contains(Step::Write(StateFile::FindMy))
            &&& built.shared_streams && !present.shared_streams ==> s.contains(
                Step::Write(StateFile::SharedStreams),
            )
            &&& built.cloudkit && !present.cloudkit ==> s.contains(Step::Write(StateFile::CloudKit))
            &&& built.keychain && !present.keychain ==> s.contains(Step::Write(StateFile::Keychain))
        }),
{
    broadcast use {
        vstd::seq_lib::lemma_seq_concat_contains_all_elements,
        vstd::seq_lib::lemma_seq_contains_after_push,
        vstd::seq_lib::lemma_seq_empty_contains_nothing,
    };
}

/// Empties the identity cache's `cache` dictionary on a reset. Every other
/// entry, the replay counters among them, keeps its key, its place and its
/// value; `cache` keeps its place and holds an empty dictionary.
pub fn clear_id_cache(cache: &mut Vec<(String, PlistValue)>)
    requires
        dict_at(entries_view(old(cache)@), "cache"@) is Some,
    ensures
        entries_view(final(cache)@) == cleared_at(entries_view(old(cache)@), "cache"@),
        entries_view(final(cache)@).len() == entries_view(old(cache)@).len(),
        forall|i: int|
            0 <= i < entries_view(old(cache)@).len() ==> (#[trigger] entries_view(final(cache)@)[i]).0
                == entries_view(old(cache)@)[i].0,
        dget(entries_view(final(cache)@), "cache"@) == Some(PlistView::Dictionary(Seq::empty())),
        forall|k: Seq<char>|
            k != "cache"@ ==> #[trigger] dget(entries_view(final(cache)@), k) == dget(
                entries_view(old(cache)@),
                k,
            ),
{
    let ghost e = entries_view(cache@);
    clear_dict_at(cache, "cache");
    proof {
        let v = PlistView::Dictionary(Seq::<(Seq<char>, PlistView)>::empty());
        lemma_cleared_entries(e, "cache"@);
        lemma_replace_same(e, "cache"@, v);
        assert forall|k: Seq<char>| k != "cache"@ implies #[trigger] dget(entries_view(cache@), k)
            == dget(e, k) by {
            lemma_replace_other(e, "cache"@, v, k);
        }
    }
}

/// Emptying a dictionary entry keeps every key where it was.
proof fn lemma_cleared_entries(d: Entries, k: Seq<char>)
    requires
        dict_at(d, k) is Some,
    ensures
        cleared_at(d, k).len() == d.len(),
        forall|i: int| 0 <= i < d.len() ==> (#[trigger] cleared_at(d, k)[i]).0 == d[i].0,
{
    let i = crate::plist::key_pos(d, k);
    assert(crate::plist::key_at(d, k, i));
}

} // verus!

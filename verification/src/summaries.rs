//! Summaries the app shows of the account's services: recovery bottles,
//! storage quota, sync and registration status, status sharing and
//! password-sharing groups.

use vstd::prelude::*;
use crate::plist::{PlistValue, PlistView, Entries, entries_view, dget, as_unsigned, lookup, value_as_unsigned, value_as_string, lemma_dictionary_view};
use crate::text::{string_of, str_eq_string};
use crate::protowire::utf8_to_string;
use vstd::utf8::{valid_utf8, decode_utf8};

verus! {

/// A recovery bottle the account can be restored from.
pub struct ViableBottle<E> {
    pub escrow: E,
    /// The length of the numeric passcode it is protected by, 0 where
    /// unknown.
    pub numeric_length: u64,
    pub device_name: String,
    pub model_class: String,
}

/// The string at key `k`, or `default`.
pub open spec fn string_or(d: Entries, k: Seq<char>, default: Seq<char>) -> Seq<char> {
    match dget(d, k) {
        Some(PlistView::String(s)) => s,
        _ => default,
    }
}

/// The unsigned integer at key `k`, or 0.
pub open spec fn unsigned_or_zero(d: Entries, k: Seq<char>) -> u64 {
    match dget(d, k) {
        Some(v) => match as_unsigned(v) {
            Some(n) => n,
            None => 0,
        },
        None => 0,
    }
}

/// A bottle, described by its client metadata: only metadata that is a
/// dictionary describes one.
pub open spec fn bottle_of<E>(escrow: E, metadata: PlistView) -> Option<(E, u64, Seq<char>, Seq<char>)> {
    match metadata {
        PlistView::Dictionary(d) => Some(
            (
                escrow,
                unsigned_or_zero(d, "SecureBackupNumericPassphraseLength"@),
                string_or(d, "device_name"@, "No Name"@),
                string_or(d, "device_model_class"@, "iMac"@),
            ),
        ),
        _ => None,
    }
}

impl<E> ViableBottle<E> {
    pub open spec fn view(&self) -> (E, u64, Seq<char>, Seq<char>) {
        (self.escrow, self.numeric_length, self.device_name@, self.model_class@)
    }
}

/// The bottles described, in order.
pub open spec fn bottles_of<E>(items: Seq<(E, PlistValue)>) -> Seq<(E, u64, Seq<char>, Seq<char>)>
    decreases items.len(),
{
    if items.len() == 0 {
        Seq::empty()
    } else {
        let prev = bottles_of(items.drop_last());
        match bottle_of(items.last().0, items.last().1.view()) {
            Some(b) => prev.push(b),
            None => prev,
        }
    }
}

fn string_at_or(d: &Vec<(String, PlistValue)>, key: &str, default: &str) -> (r: String)
    ensures
        r@ == string_or(entries_view(d@), key@, default@),
{
    match lookup(d, key) {
        Some(v) => match value_as_string(v) {
            Some(s) => s.clone(),
            None => string_of(default),
        },
        None => string_of(default),
    }
}

/// The bottle a recovery record describes, from its client metadata.
pub fn viable_bottle<E>(escrow: E, metadata: &PlistValue) -> (r: Option<ViableBottle<E>>)
    ensures
        match r {
            Some(b) => bottle_of(escrow, metadata.view()) == Some(b.view()),
            None => bottle_of(escrow, metadata.view()) is None,
        },
{
    match metadata {
        PlistValue::Dictionary(d) => {
            proof {
                lemma_dictionary_view(*d);
            }
            let numeric_length = match lookup(d, "SecureBackupNumericPassphraseLength") {
                Some(v) => match value_as_unsigned(v) {
                    Some(n) => n,
                    None => 0,
                },
                None => 0,
            };
            let device_name = string_at_or(d, "device_name", "No Name");
            let model_class = string_at_or(d, "device_model_class", "iMac");
            Some(ViableBottle { escrow, numeric_length, device_name, model_class })
        },
        _ => None,
    }
}

/// The bottles the recovery records describe, in order; records whose
/// metadata is not a dictionary are left out.
pub fn get_bottles<E>(records: Vec<(E, PlistValue)>) -> (r: Vec<ViableBottle<E>>)
    ensures
        Seq::new(r@.len(), |i: int| r@[i].view()) == bottles_of(records@),
{
    let ghost orig = records@;
    let mut rest = records;
    let mut r: Vec<ViableBottle<E>> = Vec::new();
    let mut i: usize = 0;
    let n = rest.len();
    while 0 < rest.len()
        invariant
            n == orig.len(),
            i + rest@.len() == n,
            rest@ == orig.subrange(i as int, n as int),
            Seq::new(r@.len(), |j: int| r@[j].view()) == bottles_of(orig.subrange(0, i as int)),
        decreases rest@.len(),
    {
        let ghost sub = orig.subrange(0, i + 1);
        assert(sub.drop_last() =~= orig.subrange(0, i as int));
        let (escrow, metadata) = rest.remove(0);
        assert(sub.last() == (escrow, metadata));
        let ghost before = Seq::new(r@.len(), |j: int| r@[j].view());
        match viable_bottle(escrow, &metadata) {
            Some(b) => {
                r.push(b);
                assert(Seq::new(r@.len(), |j: int| r@[j].view()) =~= before.push(r@[r@.len() - 1].view()));
            },
            None => {},
        }
        i = i + 1;
        assert(rest@ =~= orig.subrange(i as int, n as int));
    }
    assert(orig.subrange(0, n as int) =~= orig);
    r
}

/// The account's storage quota.
pub struct QuotaInfo {
    pub total_bytes: u64,
    pub available_bytes: u64,
    /// What messages use.
    pub messages_bytes: u64,
}

/// Storage used by one kind of media.
pub struct MediaUsage {
    pub media_key: String,
    pub usage_in_bytes: u64,
}

/// What the first entry for key `k` uses, or 0.
pub open spec fn usage_of(usage: Seq<MediaUsage>, k: Seq<char>) -> u64
    decreases usage.len(),
{
    if usage.len() == 0 {
        0
    } else if usage[0].media_key@ == k {
        usage[0].usage_in_bytes
    } else {
        usage_of(usage.drop_first(), k)
    }
}

/// The quota summary: the totals as reported, and what messages use (0
/// where not reported).
pub fn get_quota_info(total_bytes: u64, available_bytes: u64, usage: &Vec<MediaUsage>) -> (r: QuotaInfo)
    ensures
        r.total_bytes == total_bytes,
        r.available_bytes == available_bytes,
        r.messages_bytes == usage_of(usage@, "messages"@),
{
    let messages = string_of("messages");
    let mut i: usize = 0;
    let found: u64 = 0;
    assert(usage@.subrange(0, usage@.len() as int) =~= usage@);
    while i < usage.len()
        invariant
            i <= usage@.len(),
            messages@ == "messages"@,
            usage_of(usage@, "messages"@) == usage_of(usage@.subrange(i as int, usage@.len() as int), "messages"@),
        decreases usage@.len() - i,
    {
        let ghost rest = usage@.subrange(i as int, usage@.len() as int);
        assert(rest.drop_first() =~= usage@.subrange(i + 1, usage@.len() as int));
        if str_eq_string(&usage[i].media_key, &messages) {
            return QuotaInfo { total_bytes, available_bytes, messages_bytes: usage[i].usage_in_bytes };
        }
        i = i + 1;
    }
    assert(usage@.subrange(i as int, usage@.len() as int) =~= Seq::<MediaUsage>::empty());
    QuotaInfo { total_bytes, available_bytes, messages_bytes: found }
}

/// The sync failure to report: the error's text and how long to wait
/// before retrying, the longest wait where none is given.
pub fn sync_failure(failure: Option<(String, Option<u64>)>) -> (r: Option<(String, u64)>)
    ensures
        match failure {
            None => r is None,
            Some((text, wait)) => r matches Some((t, w)) && t == text && w == match wait {
                Some(x) => x,
                None => u64::MAX,
            },
        },
{
    match failure {
        None => None,
        Some((text, wait)) => Some(
            (
                text,
                match wait {
                    Some(x) => x,
                    None => u64::MAX,
                },
            ),
        ),
    }
}

/// The state of the registration resource; `N` stands for the time of the
/// next registration.
pub enum ResourceKind<N> {
    Generating,
    Generated(N),
    Failed { retry_wait: Option<u64>, error: String },
    Closed,
}

/// The registration state the app shows.
pub enum RegisterState<N> {
    Registering,
    Registered { next_s: N },
    Failed { retry_wait: Option<u64>, error: String },
}

/// The registration state of a registration resource: a closed resource
/// shows as failed, without a retry, with the error `Closed`.
pub fn get_regstate<N>(r: ResourceKind<N>) -> (s: RegisterState<N>)
    ensures
        r is Generating ==> s is Registering,
        r is Generated ==> s is Registered && s->next_s == r->Generated_0,
        r is Failed ==> s is Failed && s->retry_wait == r->retry_wait && s->error == r->error,
        r is Closed ==> s is Failed && s->retry_wait is None && s->error@ == "Closed"@,
{
    match r {
        ResourceKind::Generating => RegisterState::Registering,
        ResourceKind::Generated(n) => RegisterState::Registered { next_s: n },
        ResourceKind::Failed { retry_wait, error } => RegisterState::Failed { retry_wait, error },
        ResourceKind::Closed => RegisterState::Failed { retry_wait: None, error: string_of("Closed") },
    }
}

/// A status shared with contacts.
pub struct SharedStatus {
    pub active: bool,
    pub id: Option<String>,
}

/// The status to share: active (available) where no status is set,
/// otherwise the status set.
pub fn status_of(new_status: Option<String>) -> (r: SharedStatus)
    ensures
        r.active == new_status is None,
        r.id == new_status,
{
    SharedStatus { active: new_status.is_none(), id: new_status }
}

/// What the bridge knows of a participant of a shared password group:
/// its sharing state, its contact's name where it has contact information,
/// the handle of that contact where one can be derived, and its user
/// record's name.
pub struct ParticipantFacts<N> {
    pub state: i32,
    pub contact_name: Option<N>,
    pub handle: Option<String>,
    pub user_name: Option<String>,
}

/// A member of a password group, as the app shows it.
pub struct GroupSummaryMember<N> {
    pub name: N,
    pub handle: String,
    pub user_id: Option<String>,
    /// The member accepted the invitation.
    pub is_joined: bool,
}

/// The participant state of a member that was removed.
pub const PARTICIPANT_REMOVED: i32 = 3;

/// The participant state of a member that joined.
pub const PARTICIPANT_JOINED: i32 = 2;

/// The member a participant shows as: removed participants and those
/// without contact information or a handle are not shown.
pub open spec fn member_of<N>(p: ParticipantFacts<N>) -> Option<GroupSummaryMember<N>> {
    if p.state == PARTICIPANT_REMOVED {
        None
    } else {
        match (p.contact_name, p.handle) {
            (Some(n), Some(h)) => Some(
                GroupSummaryMember {
                    name: n,
                    handle: h,
                    user_id: p.user_name,
                    is_joined: p.state == PARTICIPANT_JOINED,
                },
            ),
            _ => None,
        }
    }
}

/// The members shown, in the participants' order.
pub open spec fn members_of<N>(ps: Seq<ParticipantFacts<N>>) -> Seq<GroupSummaryMember<N>>
    decreases ps.len(),
{
    if ps.len() == 0 {
        Seq::empty()
    } else {
        let prev = members_of(ps.drop_last());
        match member_of(ps.last()) {
            Some(m) => prev.push(m),
            None => prev,
        }
    }
}

fn member<N>(p: ParticipantFacts<N>) -> (r: Option<GroupSummaryMember<N>>)
    ensures
        r == member_of(p),
{
    if p.state == PARTICIPANT_REMOVED {
        return None;
    }
    let is_joined = p.state == PARTICIPANT_JOINED;
    match (p.contact_name, p.handle) {
        (Some(name), Some(handle)) => Some(
            GroupSummaryMember { name, handle, user_id: p.user_name, is_joined },
        ),
        _ => None,
    }
}

/// The members of a group shown, in the participants' order.
pub fn group_members<N>(participants: Vec<ParticipantFacts<N>>) -> (r: Vec<GroupSummaryMember<N>>)
    ensures
        r@ == members_of(participants@),
{
    let ghost orig = participants@;
    let mut rest = participants;
    let mut r: Vec<GroupSummaryMember<N>> = Vec::new();
    let mut i: usize = 0;
    let n = rest.len();
    while 0 < rest.len()
        invariant
            n == orig.len(),
            i + rest@.len() == n,
            rest@ == orig.subrange(i as int, n as int),
            r@ == members_of(orig.subrange(0, i as int)),
        decreases rest@.len(),
    {
        let ghost sub = orig.subrange(0, i + 1);
        assert(sub.drop_last() =~= orig.subrange(0, i as int));
        let p = rest.remove(0);
        assert(sub.last() == p);
        match member(p) {
            Some(m) => r.push(m),
            None => {},
        }
        i = i + 1;
        assert(rest@ =~= orig.subrange(i as int, n as int));
    }
    assert(orig.subrange(0, n as int) =~= orig);
    r
}

/// The share of a password group: its display name and participants.
pub struct ShareFacts<D, N> {
    pub display_name: D,
    pub participants: Vec<ParticipantFacts<N>>,
}

/// A password group, where it is shared.
pub struct GroupFacts<D, N> {
    pub id: String,
    pub is_owner: bool,
    pub share: Option<ShareFacts<D, N>>,
}

/// A password group as the app shows it.
pub struct GroupSummary<D, N> {
    pub display_name: D,
    pub is_owner: bool,
    pub members: Vec<GroupSummaryMember<N>>,
}

/// A group's summary, seen: its identifier, display name, ownership and
/// members.
pub open spec fn summary_view<D, N>(s: (String, GroupSummary<D, N>)) -> (Seq<char>, D, bool, Seq<GroupSummaryMember<N>>) {
    (s.0@, s.1.display_name, s.1.is_owner, s.1.members@)
}

/// The summaries shown, in the groups' order: groups that are not shared
/// are left out.
pub open spec fn summaries_of<D, N>(gs: Seq<GroupFacts<D, N>>) -> Seq<(Seq<char>, D, bool, Seq<GroupSummaryMember<N>>)>
    decreases gs.len(),
{
    if gs.len() == 0 {
        Seq::empty()
    } else {
        let prev = summaries_of(gs.drop_last());
        let g = gs.last();
        match g.share {
            Some(sh) => prev.push((g.id@, sh.display_name, g.is_owner, members_of(sh.participants@))),
            None => prev,
        }
    }
}

/// The summaries of the shared password groups.
pub fn get_groups<D, N>(groups: Vec<GroupFacts<D, N>>) -> (r: Vec<(String, GroupSummary<D, N>)>)
    ensures
        Seq::new(r@.len(), |i: int| summary_view(r@[i])) == summaries_of(groups@),
{
    let ghost orig = groups@;
    let mut rest = groups;
    let mut r: Vec<(String, GroupSummary<D, N>)> = Vec::new();
    let mut i: usize = 0;
    let n = rest.len();
    while 0 < rest.len()
        invariant
            n == orig.len(),
            i + rest@.len() == n,
            rest@ == orig.subrange(i as int, n as int),
            Seq::new(r@.len(), |j: int| summary_view(r@[j])) == summaries_of(orig.subrange(0, i as int)),
        decreases rest@.len(),
    {
        let ghost sub = orig.subrange(0, i + 1);
        assert(sub.drop_last() =~= orig.subrange(0, i as int));
        let g = rest.remove(0);
        assert(sub.last() == g);
        let ghost before = Seq::new(r@.len(), |j: int| summary_view(r@[j]));
        match g.share {
            Some(sh) => {
                let members = group_members(sh.participants);
                r.push((g.id, GroupSummary { display_name: sh.display_name, is_owner: g.is_owner, members }));
                assert(Seq::new(r@.len(), |j: int| summary_view(r@[j])) =~= before.push(summary_view(r@[r@.len() - 1])));
            },
            None => {},
        }
        i = i + 1;
        assert(rest@ =~= orig.subrange(i as int, n as int));
    }
    assert(orig.subrange(0, n as int) =~= orig);
    r
}

/// The Wi-Fi networks to hand to the platform: each stored network's
/// account name with its password, which is UTF-8.
pub fn wifi_networks(entries: Vec<(String, Vec<u8>)>) -> (r: Vec<(String, String)>)
    requires
        forall|i: int| 0 <= i < entries@.len() ==> valid_utf8(#[trigger] entries@[i].1@),
    ensures
        r@.len() == entries@.len(),
        forall|i: int|
            0 <= i < entries@.len() ==> (#[trigger] r@[i]).0 == entries@[i].0 && r@[i].1@
                == decode_utf8(entries@[i].1@),
{
    let ghost orig = entries@;
    let mut rest = entries;
    let mut r: Vec<(String, String)> = Vec::new();
    let n = rest.len();
    while 0 < rest.len()
        invariant
            n == orig.len(),
            r@.len() + rest@.len() == n,
            rest@ == orig.subrange(r@.len() as int, n as int),
            forall|i: int| 0 <= i < orig.len() ==> valid_utf8(#[trigger] orig[i].1@),
            forall|i: int|
                0 <= i < r@.len() ==> (#[trigger] r@[i]).0 == orig[i].0 && r@[i].1@ == decode_utf8(
                    orig[i].1@,
                ),
        decreases rest@.len(),
    {
        let ghost k = r@.len();
        let (acct, data) = rest.remove(0);
        assert(orig[k as int] == (acct, data));
        let password = utf8_to_string(data).unwrap();
        r.push((acct, password));
        assert(rest@ =~= orig.subrange(r@.len() as int, n as int));
    }
    r
}

} // verus!

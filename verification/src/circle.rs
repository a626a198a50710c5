//! Bookkeeping of the "circle" sign-in exchanges that this device answers
//! for other devices of the account, and the decisions taken on each
//! incoming circle message.
//!
//! The session objects themselves and the messages are opaque here (`S`
//! and `M`): the library decides which session an incoming message goes
//! to, when a session is opened, how many are kept and when one is dropped.

use vstd::prelude::*;

verus! {

/// Most sessions kept at once; opening one more drops the oldest.
pub const MAX_CIRCLE_SESSIONS: usize = 5;

/// The step of a circle exchange whose reply reports whether the other
/// device was let in.
pub const CIRCLE_LOGIN_STEP: u64 = 3;

/// The last step of a circle exchange.
pub const CIRCLE_LAST_STEP: u64 = 5;

/// Bound of the one-time codes shown to the user (exclusive).
pub const OTP_BOUND: u32 = 1_000_000;

/// A circle exchange in progress, answered by this device.
pub struct ActiveCircleSession<S, M> {
    pub session: S,
    pub atxnid: String,
    pub txnid: String,
    pub init_message: Option<M>,
    pub otp: u32,
}

/// The sessions' exchange identifiers, in order.
pub open spec fn atxnids<S, M>(s: Seq<ActiveCircleSession<S, M>>) -> Seq<Seq<char>> {
    s.map_values(|x: ActiveCircleSession<S, M>| x.atxnid@)
}

/// A session list as this module keeps it: at most
/// `MAX_CIRCLE_SESSIONS` entries, no exchange identifier twice.
pub open spec fn sessions_wf<S, M>(s: Seq<ActiveCircleSession<S, M>>) -> bool {
    &&& s.len() <= MAX_CIRCLE_SESSIONS
    &&& forall|i: int, j: int|
        0 <= i < s.len() && 0 <= j < s.len() && i != j ==> s[i].atxnid@ != s[j].atxnid@
}

/// Whether some session belongs to exchange `a`.
pub open spec fn has_atxnid<S, M>(s: Seq<ActiveCircleSession<S, M>>, a: Seq<char>) -> bool {
    exists|i: int| 0 <= i < s.len() && s[i].atxnid@ == a
}

/// The predicate that keeps every session but those of exchange `a`.
pub open spec fn other_exchange<S, M>(a: Seq<char>) -> spec_fn(ActiveCircleSession<S, M>) -> bool {
    |x: ActiveCircleSession<S, M>| x.atxnid@ != a
}

/// An empty session list.
pub fn make_circle_sessions<S, M>() -> (r: Vec<ActiveCircleSession<S, M>>)
    ensures
        r@.len() == 0,
        sessions_wf(r@),
{
    Vec::new()
}

/// The position of the session of exchange `atxnid`, the first one if
/// several match.
pub fn find_by_atxnid<S, M>(sessions: &Vec<ActiveCircleSession<S, M>>, atxnid: &String) -> (r:
    Option<usize>)
    ensures
        match r {
            Some(i) => i < sessions@.len() && sessions@[i as int].atxnid@ == atxnid@ && forall|
                k: int,
            |
                0 <= k < i ==> sessions@[k].atxnid@ != atxnid@,
            None => !has_atxnid(sessions@, atxnid@),
        },
{
    let mut i: usize = 0;
    while i < sessions.len()
        invariant
            i <= sessions@.len(),
            forall|k: int| 0 <= k < i ==> sessions@[k].atxnid@ != atxnid@,
        decreases sessions@.len() - i,
    {
        if sessions[i].atxnid == *atxnid {
            return Some(i);
        }
        i = i + 1;
    }
    None
}

/// The position of the first session whose sign-in transaction is `txnid`.
pub fn find_by_txnid<S, M>(sessions: &Vec<ActiveCircleSession<S, M>>, txnid: &String) -> (r:
    Option<usize>)
    ensures
        match r {
            Some(i) => i < sessions@.len() && sessions@[i as int].txnid@ == txnid@ && forall|
                k: int,
            |
                0 <= k < i ==> sessions@[k].txnid@ != txnid@,
            None => forall|k: int| 0 <= k < sessions@.len() ==> sessions@[k].txnid@ != txnid@,
        },
{
    let mut i: usize = 0;
    while i < sessions.len()
        invariant
            i <= sessions@.len(),
            forall|k: int| 0 <= k < i ==> sessions@[k].txnid@ != txnid@,
        decreases sessions@.len() - i,
    {
        if sessions[i].txnid == *txnid {
            return Some(i);
        }
        i = i + 1;
    }
    None
}

/// Who handles a circle message: even steps are for this device as the
/// one signing in (client), odd steps for this device as the one vouching
/// (server).
pub enum CircleRole {
    Client,
    Server,
}

/// The role for a message of step `step`.
pub fn circle_role(step: u64) -> (r: CircleRole)
    ensures
        (r is Client) <==> step % 2 == 0,
{
    if step % 2 == 0 {
        CircleRole::Client
    } else {
        CircleRole::Server
    }
}

/// How handling a circle message went for this device as the one signing
/// in.
pub enum ClientStep {
    /// Handling the message failed.
    Failed,
    /// The sign-in completed: the account is logged in.
    LoggedIn,
    /// The exchange goes on.
    Continued,
}

/// What this device does after a client step.
#[derive(PartialEq, Eq, Structural, Clone, Copy)]
pub enum ClientAction {
    /// Drop the client session, which is done, and tell the app the circle
    /// finished.
    FinishCircle,
    /// Keep the session for the next step.
    Keep,
}

/// The action after a client step: only a completed sign-in ends the
/// client session and is announced.
pub fn client_step_action(s: ClientStep) -> (a: ClientAction)
    ensures
        a == (if s is LoggedIn {
            ClientAction::FinishCircle
        } else {
            ClientAction::Keep
        }),
{
    match s {
        ClientStep::LoggedIn => ClientAction::FinishCircle,
        _ => ClientAction::Keep,
    }
}

/// What the server side does with an incoming message.
pub enum ServerAction {
    /// The message opens no session and continues none: it is dropped.
    Ignore,
    /// A new exchange starts: open a session for it.
    Open,
    /// The message continues the session at this position.
    Continue(usize),
}

/// Decides what to do with a server-side message of exchange `atxnid` at
/// step `step`; `has_sign_in` tells whether the message came with the
/// sign-in request that a new exchange needs.
pub fn circle_server_action<S, M>(
    sessions: &Vec<ActiveCircleSession<S, M>>,
    atxnid: &String,
    step: u64,
    has_sign_in: bool,
) -> (r: ServerAction)
    ensures
        match r {
            ServerAction::Continue(i) => i < sessions@.len() && sessions@[i as int].atxnid@
                == atxnid@,
            ServerAction::Open => !has_atxnid(sessions@, atxnid@) && step == 1 && has_sign_in,
            ServerAction::Ignore => !has_atxnid(sessions@, atxnid@) && (step != 1
                || !has_sign_in),
        },
{
    match find_by_atxnid(sessions, atxnid) {
        Some(i) => ServerAction::Continue(i),
        None => {
            if step != 1 || !has_sign_in {
                ServerAction::Ignore
            } else {
                ServerAction::Open
            }
        },
    }
}

/// A one-time code below `OTP_BOUND`.
///
/// Trusted: `rand::Rng::gen_range(0..1_000_000)` on the thread's generator,
/// which returns a value of the half-open range.
#[verifier::external_body]
fn random_below_otp_bound() -> (r: u32)
    ensures
        r < OTP_BOUND,
{
    rand::Rng::gen_range(&mut rand::thread_rng(), 0..OTP_BOUND)
}

/// Draws the one-time code of a new exchange.
pub fn draw_otp() -> (r: u32)
    ensures
        r < OTP_BOUND,
{
    random_below_otp_bound()
}

/// Opens a session for a new exchange: it is added last, and the oldest
/// session is dropped when more than `MAX_CIRCLE_SESSIONS` would remain.
pub fn open_session<S, M>(
    sessions: &mut Vec<ActiveCircleSession<S, M>>,
    s: ActiveCircleSession<S, M>,
)
    requires
        sessions_wf(old(sessions)@),
        !has_atxnid(old(sessions)@, s.atxnid@),
    ensures
        sessions_wf(final(sessions)@),
        old(sessions)@.len() < MAX_CIRCLE_SESSIONS ==> final(sessions)@ == old(sessions)@.push(s),
        old(sessions)@.len() == MAX_CIRCLE_SESSIONS ==> final(sessions)@ == old(sessions)@.push(
            s,
        ).remove(0),
{
    sessions.push(s);
    if sessions.len() > MAX_CIRCLE_SESSIONS {
        sessions.remove(0);
    }
}

/// Drops the sessions of exchange `atxnid` once its last step went by;
/// earlier steps leave the list as it is.
pub fn finish_step<S, M>(sessions: &mut Vec<ActiveCircleSession<S, M>>, atxnid: &String, step: u64)
    ensures
        step == CIRCLE_LAST_STEP ==> final(sessions)@ == old(sessions)@.filter(
            other_exchange(atxnid@),
        ),
        step != CIRCLE_LAST_STEP ==> final(sessions)@ == old(sessions)@,
{
    if step != CIRCLE_LAST_STEP {
        return;
    }
    let ghost orig = sessions@;
    let ghost p = other_exchange::<S, M>(atxnid@);
    let n = sessions.len();
    let mut i: usize = 0;
    let mut k: usize = 0;
    assert(orig.take(0).filter(p) =~= Seq::<ActiveCircleSession<S, M>>::empty()) by {
        reveal(Seq::filter);
    }
    assert(orig.skip(0) =~= orig);
    while k < n
        invariant
            n == orig.len(),
            k <= n,
            p == other_exchange::<S, M>(atxnid@),
            i == orig.take(k as int).filter(p).len(),
            sessions@ =~= orig.take(k as int).filter(p) + orig.skip(k as int),
        decreases n - k,
    {
        let ghost before = orig.take(k as int).filter(p);
        assert(sessions@[i as int] == orig[k as int]);
        assert(orig.take(k + 1) =~= orig.take(k as int).push(orig[k as int]));
        proof { orig.take(k as int).lemma_filter_push(orig[k as int], p); }
        if sessions[i].atxnid == *atxnid {
            sessions.remove(i);
            assert(sessions@ =~= orig.take(k + 1).filter(p) + orig.skip(k + 1));
        } else {
            assert(sessions@ =~= orig.take(k + 1).filter(p) + orig.skip(k + 1));
            i = i + 1;
        }
        k = k + 1;
    }
    assert(orig.take(n as int) =~= orig);
    assert(sessions@ =~= orig.filter(p));
}

/// Whether the reply to step `step` is reported to the app as the outcome of
/// the other device's sign-in: only the login step's successful replies
/// are, carrying the answer.
pub fn two_fa_event(step: u64, reply: Option<bool>) -> (r: Option<bool>)
    ensures
        r == (if step == CIRCLE_LOGIN_STEP {
            reply
        } else {
            None::<bool>
        }),
{
    if step == CIRCLE_LOGIN_STEP {
        reply
    } else {
        None
    }
}

/// What approving a sign-in transaction leads to.
pub enum ApproveAction<M> {
    /// No exchange is open for the transaction: the code comes from the
    /// account's device instead.
    UseDeviceCode,
    /// The exchange's first message is handed on; the user is shown `otp`.
    Handle { otp: u32, message: M },
    /// The exchange's first message was already used.
    MissingInitMessage,
}

/// Approves the exchange of sign-in transaction `txnid`: its first message
/// is taken out of the session (it is handled once) and returned with the
/// session's one-time code.
pub fn approve_circle<S, M>(sessions: &mut Vec<ActiveCircleSession<S, M>>, txnid: &String) -> (r:
    ApproveAction<M>)
    ensures
        final(sessions)@.len() == old(sessions)@.len(),
        match r {
            ApproveAction::UseDeviceCode => final(sessions)@ == old(sessions)@ && forall|k: int|
                0 <= k < old(sessions)@.len() ==> old(sessions)@[k].txnid@ != txnid@,
            ApproveAction::MissingInitMessage => final(sessions)@ == old(sessions)@ && exists|
                i: int,
            |
                0 <= i < old(sessions)@.len() && old(sessions)@[i].txnid@ == txnid@
                    && old(sessions)@[i].init_message is None && forall|k: int|
                    0 <= k < i ==> old(sessions)@[k].txnid@ != txnid@,
            ApproveAction::Handle { otp, message } => exists|i: int|
                0 <= i < old(sessions)@.len() && old(sessions)@[i].txnid@ == txnid@ && (forall|
                    k: int,
                |
                    0 <= k < i ==> old(sessions)@[k].txnid@ != txnid@) && old(sessions)@[i].init_message
                    == Some(message) && otp == old(sessions)@[i].otp && final(sessions)@ == old(
                    sessions,
                )@.update(
                    i,
                    ActiveCircleSession {
                        session: old(sessions)@[i].session,
                        atxnid: old(sessions)@[i].atxnid,
                        txnid: old(sessions)@[i].txnid,
                        init_message: None,
                        otp: old(sessions)@[i].otp,
                    },
                ),
        },
{
    match find_by_txnid(sessions, txnid) {
        None => ApproveAction::UseDeviceCode,
        Some(i) => {
            let mut entry = sessions.remove(i);
            let taken = entry.init_message.take();
            let otp = entry.otp;
            sessions.insert(i, entry);
            match taken {
                None => {
                    assert(sessions@ =~= old(sessions)@);
                    ApproveAction::MissingInitMessage
                },
                Some(message) => {
                    assert(sessions@ =~= old(sessions)@.update(
                        i as int,
                        ActiveCircleSession {
                            session: old(sessions)@[i as int].session,
                            atxnid: old(sessions)@[i as int].atxnid,
                            txnid: old(sessions)@[i as int].txnid,
                            init_message: None,
                            otp: old(sessions)@[i as int].otp,
                        },
                    ));
                    ApproveAction::Handle { otp, message }
                },
            }
        },
    }
}

/// Exchange identifiers occur once at most.
pub open spec fn atxnids_unique<S, M>(s: Seq<ActiveCircleSession<S, M>>) -> bool {
    forall|i: int, j: int|
        0 <= i < s.len() && 0 <= j < s.len() && i != j ==> s[i].atxnid@ != s[j].atxnid@
}

proof fn lemma_filter_unique<S, M>(s: Seq<ActiveCircleSession<S, M>>, p: spec_fn(ActiveCircleSession<S, M>) -> bool)
    requires
        atxnids_unique(s),
    ensures
        atxnids_unique(s.filter(p)),
    decreases s.len(),
{
    reveal(Seq::filter);
    if s.len() > 0 {
        let d = s.drop_last();
        assert(atxnids_unique(d));
        lemma_filter_unique(d, p);
        let f = d.filter(p);
        if p(s.last()) {
            assert(s.filter(p) == f.push(s.last()));
            assert forall|i: int| 0 <= i < f.len() implies f[i].atxnid@ != s.last().atxnid@ by {
                d.lemma_filter_contains_rev(p, f[i]);
                let j = choose|j: int| 0 <= j < d.len() && d[j] == f[i];
                assert(s[j] == f[i]);
            }
        }
    }
}

/// Once an exchange's last step went by, none of its sessions remain, and
/// the list stays as this module keeps it.
pub proof fn lemma_finish_clears<S, M>(s: Seq<ActiveCircleSession<S, M>>, a: Seq<char>)
    ensures
        !has_atxnid(s.filter(other_exchange(a)), a),
        sessions_wf(s) ==> sessions_wf(s.filter(other_exchange(a))),
{
    let p = other_exchange::<S, M>(a);
    let f = s.filter(p);
    assert forall|i: int| 0 <= i < f.len() implies f[i].atxnid@ != a by {
        s.lemma_filter_pred(p, i);
    }
    s.lemma_filter_len(p);
    if sessions_wf(s) {
        lemma_filter_unique(s, p);
    }
}

} // verus!

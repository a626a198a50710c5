//! The decisions of the poll loop that turns incoming push traffic into
//! events for the app: which services see an incoming message, in which
//! order, and which of their answers ends the poll with what.

use vstd::prelude::*;

verus! {

/// What one poll returns to the app.
pub enum PollResult<M> {
    /// Polling was cancelled.
    Stop,
    /// Polling goes on; with an event for the app, or without one.
    Cont(Option<M>),
}

/// The services an incoming push message may be handed to.
#[derive(PartialEq, Eq, Structural, Clone, Copy)]
pub enum Handler {
    FindMy,
    SharedStreams,
    StatusKit,
    Passwords,
    Idms,
    FaceTime,
    IMessage,
}

/// Which optional services are running.
pub struct AvailableServices {
    /// An iCloud account is signed in.
    pub icloud: bool,
    /// Find My runs (with the account).
    pub findmy: bool,
    /// Shared albums run (with the account).
    pub shared_streams: bool,
    /// The password manager runs (with the account).
    pub passwords: bool,
}

/// The services an incoming message visits, in order: the account's
/// services first where an account is signed in (Find My, shared albums,
/// status, passwords, each where it runs), then sign-in requests, FaceTime
/// and iMessage.
pub open spec fn route(s: AvailableServices) -> Seq<Handler> {
    (if s.icloud {
        (if s.findmy {
            seq![Handler::FindMy]
        } else {
            Seq::empty()
        }) + (if s.shared_streams {
            seq![Handler::SharedStreams]
        } else {
            Seq::empty()
        }) + seq![Handler::StatusKit] + (if s.passwords {
            seq![Handler::Passwords]
        } else {
            Seq::empty()
        })
    } else {
        Seq::empty()
    }) + seq![Handler::Idms, Handler::FaceTime, Handler::IMessage]
}

/// The services an incoming message visits, in order.
pub fn handler_route(s: &AvailableServices) -> (r: Vec<Handler>)
    ensures
        r@ == route(*s),
{
    let mut r: Vec<Handler> = Vec::new();
    if s.icloud {
        if s.findmy {
            r.push(Handler::FindMy);
        }
        if s.shared_streams {
            r.push(Handler::SharedStreams);
        }
        r.push(Handler::StatusKit);
        if s.passwords {
            r.push(Handler::Passwords);
        }
    }
    r.push(Handler::Idms);
    r.push(Handler::FaceTime);
    r.push(Handler::IMessage);
    assert(r@ =~= route(*s));
    r
}

/// A service's answer to a message.
pub enum Reply<T> {
    /// The service failed on the message.
    Failed,
    /// The message was not for the service, or gave nothing to report.
    Nothing,
    /// The service produced something for the app.
    Produced(T),
}

/// How the poll goes on after a service answered.
pub enum Settle<T> {
    /// Hand the message to the next service.
    Next,
    /// End the poll with this for the app.
    Deliver(T),
    /// End the poll with nothing for the app.
    Silence,
}

/// The poll result a settled message gives; `None` while the message goes
/// on to the next service.
pub open spec fn settled_result<T>(s: Settle<T>) -> Option<PollResult<T>> {
    match s {
        Settle::Next => None,
        Settle::Deliver(t) => Some(PollResult::Cont(Some(t))),
        Settle::Silence => Some(PollResult::Cont(None)),
    }
}

/// The poll result of a settled message.
pub fn settle_result<T>(s: Settle<T>) -> (r: Option<PollResult<T>>)
    ensures
        r == settled_result(s),
{
    match s {
        Settle::Next => None,
        Settle::Deliver(t) => Some(PollResult::Cont(Some(t))),
        Settle::Silence => Some(PollResult::Cont(None)),
    }
}

/// Settles the answer of the status service, of FaceTime, or (with `last`)
/// of iMessage: a failure ends the poll with nothing, a produced event is
/// delivered, and nothing to report goes on to the next service, or ends
/// the poll with nothing after the last one.
pub fn settle_reply<T>(r: Reply<T>, last: bool) -> (s: Settle<T>)
    ensures
        match r {
            Reply::Failed => s is Silence,
            Reply::Nothing => if last {
                s is Silence
            } else {
                s is Next
            },
            Reply::Produced(t) => s == Settle::Deliver(t),
        },
{
    match r {
        Reply::Failed => Settle::Silence,
        Reply::Nothing => {
            if last {
                Settle::Silence
            } else {
                Settle::Next
            }
        },
        Reply::Produced(t) => Settle::Deliver(t),
    }
}

/// Settles Find My's answer: the first shared item it reports is
/// delivered; a failure or an empty report goes on to the next service.
pub fn settle_findmy<B>(r: Option<Vec<B>>) -> (s: Settle<B>)
    ensures
        match r {
            None => s is Next,
            Some(items) => if items@.len() == 0 {
                s is Next
            } else {
                s == Settle::Deliver(items@[0])
            },
        },
{
    match r {
        None => Settle::Next,
        Some(items) => {
            let mut items = items;
            if items.len() == 0 {
                Settle::Next
            } else {
                Settle::Deliver(items.remove(0))
            }
        },
    }
}

/// The kinds of answers of the sign-in request service.
#[derive(PartialEq, Eq, Structural, Clone, Copy)]
pub enum IdmsKind {
    Failed,
    Nothing,
    /// A circle message, with or without a sign-in request along.
    Circle { with_sign_in: bool },
    /// A sign-in request.
    SignIn,
    /// Any other message of the service.
    Other,
}

/// Whether the account must be checked against the sign-in request before
/// the answer is settled.
pub fn idms_needs_check(k: IdmsKind) -> (b: bool)
    ensures
        b == (k == IdmsKind::SignIn || k == IdmsKind::Circle { with_sign_in: true }),
{
    match k {
        IdmsKind::SignIn => true,
        IdmsKind::Circle { with_sign_in } => with_sign_in,
        _ => false,
    }
}

/// How the poll goes on after the sign-in request service answered.
#[derive(PartialEq, Eq, Structural, Clone, Copy)]
pub enum IdmsOutcome {
    /// End the poll with nothing.
    Silence,
    /// Go on to the next service.
    Next,
    /// End the poll with the service's message.
    Deliver,
    /// Handle the circle message, then go on to the next service.
    CircleThenNext,
    /// Handle the circle message, then end the poll with the sign-in request.
    CircleThenDeliverSignIn,
}

/// Settles the sign-in request service's answer; `account_matches` is the
/// outcome of the account check where `idms_needs_check` asked for one.
pub fn settle_idms(k: IdmsKind, account_matches: bool) -> (o: IdmsOutcome)
    ensures
        o == match k {
            IdmsKind::Failed => IdmsOutcome::Silence,
            IdmsKind::Nothing => IdmsOutcome::Next,
            IdmsKind::Circle { with_sign_in } => if !with_sign_in {
                IdmsOutcome::CircleThenNext
            } else if account_matches {
                IdmsOutcome::CircleThenDeliverSignIn
            } else {
                IdmsOutcome::Silence
            },
            IdmsKind::SignIn => if account_matches {
                IdmsOutcome::Deliver
            } else {
                IdmsOutcome::Silence
            },
            IdmsKind::Other => IdmsOutcome::Deliver,
        },
{
    match k {
        IdmsKind::Failed => IdmsOutcome::Silence,
        IdmsKind::Nothing => IdmsOutcome::Next,
        IdmsKind::Circle { with_sign_in } => {
            if !with_sign_in {
                IdmsOutcome::CircleThenNext
            } else if account_matches {
                IdmsOutcome::CircleThenDeliverSignIn
            } else {
                IdmsOutcome::Silence
            }
        },
        IdmsKind::SignIn => {
            if account_matches {
                IdmsOutcome::Deliver
            } else {
                IdmsOutcome::Silence
            }
        },
        IdmsKind::Other => IdmsOutcome::Deliver,
    }
}

/// Whether a sign-in request is for the signed-in account: the account's
/// identifier, once known, must equal the request's. Without an account,
/// or when the account's identifier cannot be had, the request is dropped.
pub fn sign_in_matches(account_adsid: Option<&String>, request_adsid: &String) -> (b: bool)
    ensures
        b == match account_adsid {
            Some(a) => a@ == request_adsid@,
            None => false,
        },
{
    match account_adsid {
        Some(a) => *a == *request_adsid,
        None => false,
    }
}

/// What the poll waited for and got.
pub enum PollEvent<M> {
    /// Cancellation was requested.
    Cancelled,
    /// A push message arrived: it goes through the services.
    Push,
    /// The registration state changed.
    RegistrationChanged,
    /// An event was queued by the library itself.
    Local(M),
}

/// What the poll does with what it waited for.
pub enum PollAction<M> {
    Finish(PollResult<M>),
    /// Run the message through the services.
    Dispatch,
    /// Report the registration state.
    ReportRegistration,
}

/// The poll's first decision: a pending cancellation stops it before
/// anything else, then what was waited for decides.
pub fn poll_action<M>(cancel_pending: bool, event: PollEvent<M>) -> (a: PollAction<M>)
    ensures
        cancel_pending ==> a == PollAction::<M>::Finish(PollResult::Stop),
        !cancel_pending ==> a == match event {
            PollEvent::Cancelled => PollAction::Finish(PollResult::Stop),
            PollEvent::Push => PollAction::Dispatch,
            PollEvent::RegistrationChanged => PollAction::ReportRegistration,
            PollEvent::Local(m) => PollAction::Finish(PollResult::Cont(Some(m))),
        },
{
    if cancel_pending {
        return PollAction::Finish(PollResult::Stop);
    }
    match event {
        PollEvent::Cancelled => PollAction::Finish(PollResult::Stop),
        PollEvent::Push => PollAction::Dispatch,
        PollEvent::RegistrationChanged => PollAction::ReportRegistration,
        PollEvent::Local(m) => PollAction::Finish(PollResult::Cont(Some(m))),
    }
}

/// Every route ends with iMessage, the one service whose answer always
/// ends the poll; so a dispatched message always yields a poll result.
pub proof fn lemma_route_ends_with_imessage(s: AvailableServices)
    ensures
        route(s).len() >= 3,
        route(s).last() == Handler::IMessage,
        forall|i: int| 0 <= i < route(s).len() - 1 ==> route(s)[i] != Handler::IMessage,
{
    let pre = if s.icloud {
        (if s.findmy {
            seq![Handler::FindMy]
        } else {
            Seq::empty()
        }) + (if s.shared_streams {
            seq![Handler::SharedStreams]
        } else {
            Seq::empty()
        }) + seq![Handler::StatusKit] + (if s.passwords {
            seq![Handler::Passwords]
        } else {
            Seq::empty()
        })
    } else {
        Seq::empty()
    };
    assert(forall|i: int| 0 <= i < pre.len() ==> pre[i] != Handler::IMessage);
    assert(route(s) == pre + seq![Handler::Idms, Handler::FaceTime, Handler::IMessage]);
}

/// Where a service stands in the order in which an incoming message visits
/// the services.
pub open spec fn handler_rank(h: Handler) -> int {
    match h {
        Handler::FindMy => 0,
        Handler::SharedStreams => 1,
        Handler::StatusKit => 2,
        Handler::Passwords => 3,
        Handler::Idms => 4,
        Handler::FaceTime => 5,
        Handler::IMessage => 6,
    }
}

/// Which services see an incoming message: Find My, shared albums and the
/// password manager exactly when an account is signed in and that service
/// runs, each independently of the others; the status service exactly when
/// an account is signed in; sign-in requests, FaceTime and iMessage always.
/// Each service is visited at most once, in the fixed order of
/// `handler_rank`.
pub proof fn lemma_route_services(s: AvailableServices)
    ensures
        route(s).contains(Handler::FindMy) <==> s.icloud && s.findmy,
        route(s).contains(Handler::SharedStreams) <==> s.icloud && s.shared_streams,
        route(s).contains(Handler::StatusKit) <==> s.icloud,
        route(s).contains(Handler::Passwords) <==> s.icloud && s.passwords,
        route(s).contains(Handler::Idms),
        route(s).contains(Handler::FaceTime),
        route(s).contains(Handler::IMessage),
        forall|i: int, j: int|
            0 <= i < j < route(s).len() ==> handler_rank(#[trigger] route(s)[i]) < handler_rank(
                #[trigger] route(s)[j],
            ),
{
    broadcast use {
        vstd::seq_lib::lemma_seq_concat_contains_all_elements,
        vstd::seq_lib::lemma_seq_contains_after_push,
        vstd::seq_lib::lemma_seq_empty_contains_nothing,
    };
    let r = route(s);
    if s.icloud {
        if s.findmy {
            if s.shared_streams {
                if s.passwords {
                    assert(r =~= seq![Handler::FindMy, Handler::SharedStreams, Handler::StatusKit, Handler::Passwords, Handler::Idms, Handler::FaceTime, Handler::IMessage]);
                } else {
                    assert(r =~= seq![Handler::FindMy, Handler::SharedStreams, Handler::StatusKit, Handler::Idms, Handler::FaceTime, Handler::IMessage]);
                }
            } else {
                if s.passwords {
                    assert(r =~= seq![Handler::FindMy, Handler::StatusKit, Handler::Passwords, Handler::Idms, Handler::FaceTime, Handler::IMessage]);
                } else {
                    assert(r =~= seq![Handler::FindMy, Handler::StatusKit, Handler::Idms, Handler::FaceTime, Handler::IMessage]);
                }
            }
        } else {
            if s.shared_streams {
                if s.passwords {
                    assert(r =~= seq![Handler::SharedStreams, Handler::StatusKit, Handler::Passwords, Handler::Idms, Handler::FaceTime, Handler::IMessage]);
                } else {
                    assert(r =~= seq![Handler::SharedStreams, Handler::StatusKit, Handler::Idms, Handler::FaceTime, Handler::IMessage]);
                }
            } else {
                if s.passwords {
                    assert(r =~= seq![Handler::StatusKit, Handler::Passwords, Handler::Idms, Handler::FaceTime, Handler::IMessage]);
                } else {
                    assert(r =~= seq![Handler::StatusKit, Handler::Idms, Handler::FaceTime, Handler::IMessage]);
                }
            }
        }
    } else {
        assert(r =~= seq![Handler::Idms, Handler::FaceTime, Handler::IMessage]);
    }
}

} // verus!

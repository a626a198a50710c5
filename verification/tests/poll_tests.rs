use bubble_bridge::poll::{
    PollResult, Handler, AvailableServices, handler_route, Reply, Settle, settle_result, settle_reply,
    settle_findmy, IdmsKind, idms_needs_check, IdmsOutcome, settle_idms, sign_in_matches, PollEvent,
    PollAction, poll_action,
};

#[test]
fn route_order() {
    let all = AvailableServices { icloud: true, findmy: true, shared_streams: true, passwords: true };
    let r = handler_route(&all);
    assert!(r == vec![Handler::FindMy, Handler::SharedStreams, Handler::StatusKit, Handler::Passwords, Handler::Idms, Handler::FaceTime, Handler::IMessage]);
    let none = AvailableServices { icloud: false, findmy: true, shared_streams: true, passwords: true };
    assert!(handler_route(&none) == vec![Handler::Idms, Handler::FaceTime, Handler::IMessage]);
    let some = AvailableServices { icloud: true, findmy: false, shared_streams: false, passwords: false };
    assert!(handler_route(&some) == vec![Handler::StatusKit, Handler::Idms, Handler::FaceTime, Handler::IMessage]);
}

#[test]
fn settle_replies() {
    assert!(matches!(settle_reply::<u8>(Reply::Failed, false), Settle::Silence));
    assert!(matches!(settle_reply::<u8>(Reply::Nothing, false), Settle::Next));
    assert!(matches!(settle_reply::<u8>(Reply::Nothing, true), Settle::Silence));
    assert!(matches!(settle_reply(Reply::Produced(4u8), false), Settle::Deliver(4)));
    assert!(matches!(settle_result(Settle::Deliver(1u8)), Some(PollResult::Cont(Some(1)))));
    assert!(matches!(settle_result::<u8>(Settle::Silence), Some(PollResult::Cont(None))));
    assert!(settle_result::<u8>(Settle::Next).is_none());
}

#[test]
fn findmy_delivers_first_item() {
    assert!(matches!(settle_findmy(Some(vec![3u8, 4])), Settle::Deliver(3)));
    assert!(matches!(settle_findmy::<u8>(Some(vec![])), Settle::Next));
    assert!(matches!(settle_findmy::<u8>(None), Settle::Next));
}

#[test]
fn idms_settling() {
    assert!(idms_needs_check(IdmsKind::SignIn));
    assert!(idms_needs_check(IdmsKind::Circle { with_sign_in: true }));
    assert!(!idms_needs_check(IdmsKind::Circle { with_sign_in: false }));
    assert!(settle_idms(IdmsKind::SignIn, false) == IdmsOutcome::Silence);
    assert!(settle_idms(IdmsKind::SignIn, true) == IdmsOutcome::Deliver);
    assert!(settle_idms(IdmsKind::Circle { with_sign_in: true }, true) == IdmsOutcome::CircleThenDeliverSignIn);
    assert!(settle_idms(IdmsKind::Circle { with_sign_in: false }, false) == IdmsOutcome::CircleThenNext);
    assert!(settle_idms(IdmsKind::Failed, true) == IdmsOutcome::Silence);
    assert!(settle_idms(IdmsKind::Nothing, true) == IdmsOutcome::Next);
    assert!(settle_idms(IdmsKind::Other, false) == IdmsOutcome::Deliver);
}

#[test]
fn sign_in_account_check() {
    let a = "abc".to_string();
    assert!(sign_in_matches(Some(&a), &"abc".to_string()));
    assert!(!sign_in_matches(Some(&a), &"abd".to_string()));
    assert!(!sign_in_matches(None, &"abc".to_string()));
}

#[test]
fn poll_first_decision() {
    assert!(matches!(poll_action(true, PollEvent::Local(1u8)), PollAction::Finish(PollResult::Stop)));
    assert!(matches!(poll_action::<u8>(false, PollEvent::Push), PollAction::Dispatch));
    assert!(matches!(poll_action::<u8>(false, PollEvent::RegistrationChanged), PollAction::ReportRegistration));
    assert!(matches!(poll_action::<u8>(false, PollEvent::Cancelled), PollAction::Finish(PollResult::Stop)));
    assert!(matches!(poll_action(false, PollEvent::Local(9u8)), PollAction::Finish(PollResult::Cont(Some(9)))));
}

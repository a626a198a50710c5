use bubble_bridge::circle::{
    ActiveCircleSession, make_circle_sessions, find_by_atxnid, find_by_txnid, circle_role, CircleRole,
    circle_server_action, ServerAction, draw_otp, open_session, finish_step, two_fa_event, approve_circle,
    ApproveAction, MAX_CIRCLE_SESSIONS, OTP_BOUND, client_step_action, ClientStep, ClientAction,
};

fn session(id: u32, atx: &str, tx: &str, init: Option<&str>) -> ActiveCircleSession<u32, String> {
    ActiveCircleSession { session: id, atxnid: atx.to_string(), txnid: tx.to_string(), init_message: init.map(|s| s.to_string()), otp: 100 + id }
}

#[test]
fn sessions_start_empty() {
    let s = make_circle_sessions::<u32, String>();
    assert!(s.is_empty());
}

#[test]
fn open_drops_oldest_beyond_limit() {
    let mut s = make_circle_sessions::<u32, String>();
    for i in 0..6u32 {
        open_session(&mut s, session(i, &format!("a{i}"), &format!("t{i}"), None));
    }
    assert_eq!(s.len(), MAX_CIRCLE_SESSIONS);
    assert_eq!(s[0].session, 1);
    assert_eq!(s[4].session, 5);
}

#[test]
fn roles_by_step_parity() {
    assert!(matches!(circle_role(2), CircleRole::Client));
    assert!(matches!(circle_role(1), CircleRole::Server));
}

#[test]
fn server_action_decisions() {
    let mut s = make_circle_sessions::<u32, String>();
    open_session(&mut s, session(0, "x", "t", None));
    assert!(matches!(circle_server_action(&s, &"x".to_string(), 3, false), ServerAction::Continue(0)));
    assert!(matches!(circle_server_action(&s, &"y".to_string(), 1, true), ServerAction::Open));
    assert!(matches!(circle_server_action(&s, &"y".to_string(), 1, false), ServerAction::Ignore));
    assert!(matches!(circle_server_action(&s, &"y".to_string(), 3, true), ServerAction::Ignore));
    assert_eq!(find_by_atxnid(&s, &"x".to_string()), Some(0));
    assert_eq!(find_by_txnid(&s, &"t".to_string()), Some(0));
    assert_eq!(find_by_txnid(&s, &"u".to_string()), None);
}

#[test]
fn otp_in_range() {
    for _ in 0..100 {
        assert!(draw_otp() < OTP_BOUND);
    }
}

#[test]
fn finish_drops_exchange_at_last_step() {
    let mut s = make_circle_sessions::<u32, String>();
    open_session(&mut s, session(0, "x", "t0", None));
    open_session(&mut s, session(1, "y", "t1", None));
    finish_step(&mut s, &"x".to_string(), 3);
    assert_eq!(s.len(), 2);
    finish_step(&mut s, &"x".to_string(), 5);
    assert_eq!(s.len(), 1);
    assert_eq!(s[0].atxnid, "y");
}

#[test]
fn two_fa_reported_at_login_step() {
    assert_eq!(two_fa_event(3, Some(true)), Some(true));
    assert_eq!(two_fa_event(3, None), None);
    assert_eq!(two_fa_event(4, Some(false)), None);
}

#[test]
fn approve_takes_first_message_once() {
    let mut s = make_circle_sessions::<u32, String>();
    open_session(&mut s, session(7, "x", "t", Some("hello")));
    match approve_circle(&mut s, &"t".to_string()) {
        ApproveAction::Handle { otp, message } => {
            assert_eq!(otp, 107);
            assert_eq!(message, "hello");
        }
        _ => panic!("expected a message"),
    }
    assert!(matches!(approve_circle(&mut s, &"t".to_string()), ApproveAction::MissingInitMessage));
    assert!(matches!(approve_circle(&mut s, &"other".to_string()), ApproveAction::UseDeviceCode));
}

#[test]
fn client_session_ends_on_login() {
    assert!(client_step_action(ClientStep::LoggedIn) == ClientAction::FinishCircle);
    assert!(client_step_action(ClientStep::Continued) == ClientAction::Keep);
    assert!(client_step_action(ClientStep::Failed) == ClientAction::Keep);
}

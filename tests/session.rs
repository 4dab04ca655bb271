use websocket_proxy::session::{EndReason, Session, SessionAction, SessionEvent};

#[test]
fn session_lag_ends() {
    let mut s = Session::new(0);
    assert_eq!(s.step(SessionEvent::Forwarded), SessionAction::Continue);
    assert_eq!(s.step(SessionEvent::Lagged(3)), SessionAction::End(EndReason::Lagged));
    assert_eq!(s.step(SessionEvent::ClientClosed), SessionAction::Continue);
}

#[test]
fn session_pong_timeout() {
    let mut s = Session::new(0);
    assert_eq!(s.step(SessionEvent::PingTick { now: 30 }), SessionAction::SendPing);
    assert_eq!(s.step(SessionEvent::PingTick { now: 60 }), SessionAction::SendPing);
    assert_eq!(s.step(SessionEvent::Pong { now: 61 }), SessionAction::Continue);
    assert_eq!(s.step(SessionEvent::PingTick { now: 121 }), SessionAction::SendPing);
    assert_eq!(
        s.step(SessionEvent::PingTick { now: 122 }),
        SessionAction::End(EndReason::PongTimeout)
    );
}

#[test]
fn session_cancel_and_errors() {
    let mut s = Session::new(5);
    assert_eq!(s.step(SessionEvent::Cancelled), SessionAction::End(EndReason::Cancelled));
    let mut s = Session::new(5);
    assert_eq!(s.step(SessionEvent::WriteFailed), SessionAction::End(EndReason::WriteFailed));
    let mut s = Session::new(5);
    assert_eq!(s.step(SessionEvent::ClientClosed), SessionAction::End(EndReason::ClientClosed));
}

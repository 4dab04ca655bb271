use websocket_proxy::backoff::Backoff;
use websocket_proxy::subscriber::{Subscriber, UpstreamAction, UpstreamEvent, UpstreamPhase};

#[test]
fn reconnect_sleeps() {
    let mut s = Subscriber::new(20);
    let mut sleeps = vec![s.delay_secs()];
    for _ in 0..3 {
        assert_eq!(s.step(UpstreamEvent::SleepElapsed), UpstreamAction::Connect);
        match s.step(UpstreamEvent::ConnectFailed) {
            UpstreamAction::Sleep(d) => sleeps.push(d),
            other => panic!("unexpected {:?}", other),
        }
    }
    assert_eq!(&sleeps[..3], &[1, 2, 4]);
    assert_eq!(s.step(UpstreamEvent::SleepElapsed), UpstreamAction::Connect);
    assert_eq!(s.step(UpstreamEvent::ConnectSucceeded { now: 100 }), UpstreamAction::Wait);
    assert_eq!(s.step(UpstreamEvent::ConnectionLost), UpstreamAction::Sleep(1));
}

#[test]
fn backoff_is_capped() {
    let mut b = Backoff::new(20);
    let mut seen = Vec::new();
    for _ in 0..6 {
        b.on_failure();
        seen.push(b.delay_secs);
    }
    assert_eq!(seen, vec![2, 4, 8, 16, 20, 20]);
    b.on_success();
    assert_eq!(b.delay_secs, 1);
    let mut z = Backoff::new(0);
    z.on_failure();
    assert_eq!(z.delay_secs, 0);
    let mut big = Backoff { delay_secs: u64::MAX / 2 + 1, max_secs: u64::MAX };
    big.on_failure();
    assert_eq!(big.delay_secs, u64::MAX);
}

#[test]
fn upstream_ping_timeout() {
    let mut s = Subscriber::new(20);
    s.step(UpstreamEvent::SleepElapsed);
    s.step(UpstreamEvent::ConnectSucceeded { now: 0 });
    assert_eq!(s.step(UpstreamEvent::PingTick { now: 10 }), UpstreamAction::SendPing);
    assert_eq!(s.step(UpstreamEvent::PingTick { now: 20 }), UpstreamAction::SendPing);
    s.step(UpstreamEvent::Pong { now: 20 });
    assert_eq!(s.step(UpstreamEvent::PingTick { now: 40 }), UpstreamAction::SendPing);
    assert_eq!(s.step(UpstreamEvent::PingTick { now: 41 }), UpstreamAction::CloseAndSleep(1));
    assert_eq!(s.phase, UpstreamPhase::Disconnected);
}

#[test]
fn upstream_cancel_exits() {
    let mut s = Subscriber::new(20);
    assert_eq!(s.step(UpstreamEvent::Cancelled), UpstreamAction::Exit);
    assert_eq!(s.step(UpstreamEvent::SleepElapsed), UpstreamAction::Exit);
    assert_eq!(s.phase, UpstreamPhase::Stopped);
}

use crate::backoff::{delay_after, next_delay, Backoff, INITIAL_DELAY_SECS};
use vstd::prelude::*;

verus! {

/// Seconds between two pings on an upstream connection.
pub const PING_INTERVAL_SECS: u64 = 10;

/// Seconds without a pong after which an upstream connection is dropped:
/// twice the ping interval.
pub const PONG_TIMEOUT_SECS: u64 = 20;

/// Where the connect loop of one upstream stands.
#[derive(Clone, Copy, Debug, PartialEq, Eq, Structural)]
pub enum UpstreamPhase {
    /// Waiting out the current delay before the next attempt.
    Disconnected,
    /// A handshake is under way.
    Connecting,
    /// Connected; the last pong was seen at `last_pong` (seconds).
    Connected { last_pong: u64 },
    /// Shut down for good.
    Stopped,
}

/// What happened to an upstream connection, as the I/O side reports it.
#[derive(Clone, Copy, Debug, PartialEq, Eq, Structural)]
pub enum UpstreamEvent {
    SleepElapsed,
    ConnectFailed,
    ConnectSucceeded { now: u64 },
    Pong { now: u64 },
    PingTick { now: u64 },
    /// A read or write error, or a close frame.
    ConnectionLost,
    Cancelled,
}

/// What the I/O side is to do next.
#[derive(Clone, Copy, Debug, PartialEq, Eq, Structural)]
pub enum UpstreamAction {
    /// Sleep this many seconds, then report `SleepElapsed`.
    Sleep(u64),
    /// Attempt the handshake.
    Connect,
    SendPing,
    /// Close the unhealthy connection, then sleep this many seconds.
    CloseAndSleep(u64),
    /// Close whatever is open and end the task.
    Exit,
    /// Nothing to do until the next event.
    Wait,
}

/// The decisions of one upstream subscriber.
#[derive(Clone, Copy, Debug, PartialEq, Eq, Structural)]
pub struct Subscriber {
    pub backoff: Backoff,
    pub phase: UpstreamPhase,
}

/// Whether a connection whose last pong was at `last_pong` is overdue at `now`.
pub open spec fn pong_overdue(last_pong: u64, now: u64) -> bool {
    now as int - last_pong as int > PONG_TIMEOUT_SECS as int
}

/// The transition table of the connect loop.
pub open spec fn upstream_step(s: Subscriber, ev: UpstreamEvent) -> (Subscriber, UpstreamAction) {
    let b = s.backoff;
    match (s.phase, ev) {
        (UpstreamPhase::Stopped, _) => (s, UpstreamAction::Exit),
        (_, UpstreamEvent::Cancelled) => (
            Subscriber { backoff: b, phase: UpstreamPhase::Stopped },
            UpstreamAction::Exit,
        ),
        (UpstreamPhase::Disconnected, UpstreamEvent::SleepElapsed) => (
            Subscriber { backoff: b, phase: UpstreamPhase::Connecting },
            UpstreamAction::Connect,
        ),
        (UpstreamPhase::Connecting, UpstreamEvent::ConnectFailed) => {
            let d = next_delay(b.delay_secs as nat, b.max_secs as nat) as u64;
            (
                Subscriber {
                    backoff: Backoff { delay_secs: d, max_secs: b.max_secs },
                    phase: UpstreamPhase::Disconnected,
                },
                UpstreamAction::Sleep(d),
            )
        },
        (UpstreamPhase::Connecting, UpstreamEvent::ConnectSucceeded { now }) => (
            Subscriber {
                backoff: Backoff { delay_secs: INITIAL_DELAY_SECS, max_secs: b.max_secs },
                phase: UpstreamPhase::Connected { last_pong: now },
            },
            UpstreamAction::Wait,
        ),
        (UpstreamPhase::Connected { .. }, UpstreamEvent::Pong { now }) => (
            Subscriber { backoff: b, phase: UpstreamPhase::Connected { last_pong: now } },
            UpstreamAction::Wait,
        ),
        (UpstreamPhase::Connected { last_pong }, UpstreamEvent::PingTick { now }) => {
            if pong_overdue(last_pong, now) {
                (
                    Subscriber { backoff: b, phase: UpstreamPhase::Disconnected },
                    UpstreamAction::CloseAndSleep(b.delay_secs),
                )
            } else {
                (s, UpstreamAction::SendPing)
            }
        },
        (UpstreamPhase::Connected { .. }, UpstreamEvent::ConnectionLost) => (
            Subscriber { backoff: b, phase: UpstreamPhase::Disconnected },
            UpstreamAction::Sleep(b.delay_secs),
        ),
        _ => (s, UpstreamAction::Wait),
    }
}

impl Subscriber {
    /// A subscriber that has not connected yet: the I/O side first sleeps
    /// the initial delay.
    pub fn new(max_secs: u64) -> (r: Subscriber)
        ensures
            r.backoff.delay_secs == INITIAL_DELAY_SECS,
            r.backoff.max_secs == max_secs,
            r.phase == UpstreamPhase::Disconnected,
    {
        Subscriber { backoff: Backoff::new(max_secs), phase: UpstreamPhase::Disconnected }
    }

    /// The delay to sleep before the next attempt.
    pub fn delay_secs(&self) -> (r: u64)
        ensures
            r == self.backoff.delay_secs,
    {
        self.backoff.delay_secs
    }

    /// Takes one event and says what to do next.
    pub fn step(&mut self, ev: UpstreamEvent) -> (r: UpstreamAction)
        ensures
            (*final(self), r) == upstream_step(*old(self), ev),
    {
        match (self.phase, ev) {
            (UpstreamPhase::Stopped, _) => UpstreamAction::Exit,
            (_, UpstreamEvent::Cancelled) => {
                self.phase = UpstreamPhase::Stopped;
                UpstreamAction::Exit
            },
            (UpstreamPhase::Disconnected, UpstreamEvent::SleepElapsed) => {
                self.phase = UpstreamPhase::Connecting;
                UpstreamAction::Connect
            },
            (UpstreamPhase::Connecting, UpstreamEvent::ConnectFailed) => {
                self.backoff.on_failure();
                self.phase = UpstreamPhase::Disconnected;
                UpstreamAction::Sleep(self.backoff.delay_secs)
            },
            (UpstreamPhase::Connecting, UpstreamEvent::ConnectSucceeded { now }) => {
                self.backoff.on_success();
                self.phase = UpstreamPhase::Connected { last_pong: now };
                UpstreamAction::Wait
            },
            (UpstreamPhase::Connected { .. }, UpstreamEvent::Pong { now }) => {
                self.phase = UpstreamPhase::Connected { last_pong: now };
                UpstreamAction::Wait
            },
            (UpstreamPhase::Connected { last_pong }, UpstreamEvent::PingTick { now }) => {
                if now > last_pong && now - last_pong > PONG_TIMEOUT_SECS {
                    self.phase = UpstreamPhase::Disconnected;
                    UpstreamAction::CloseAndSleep(self.backoff.delay_secs)
                } else {
                    UpstreamAction::SendPing
                }
            },
            (UpstreamPhase::Connected { .. }, UpstreamEvent::ConnectionLost) => {
                self.phase = UpstreamPhase::Disconnected;
                UpstreamAction::Sleep(self.backoff.delay_secs)
            },
            _ => UpstreamAction::Wait,
        }
    }
}

/// A successful connection resets the delay: whatever the delay was, the
/// next loss of the connection sleeps the initial delay.
pub proof fn lemma_success_resets(s: Subscriber, now: u64)
    requires
        s.phase == UpstreamPhase::Connecting,
    ensures
        ({
            let (c, _) = upstream_step(s, UpstreamEvent::ConnectSucceeded { now });
            let (_, a) = upstream_step(c, UpstreamEvent::ConnectionLost);
            a == UpstreamAction::Sleep(INITIAL_DELAY_SECS)
        }),
{
}

/// Each failed attempt moves the delay one step along `delay_after`, and the
/// subscriber sleeps exactly that delay before the next attempt.
pub proof fn lemma_failure_advances(s: Subscriber, k: nat)
    requires
        s.phase == UpstreamPhase::Connecting,
        s.backoff.delay_secs == delay_after(k, s.backoff.max_secs as nat),
    ensures
        ({
            let (t, a) = upstream_step(s, UpstreamEvent::ConnectFailed);
            let d = delay_after(k + 1, s.backoff.max_secs as nat);
            &&& t.backoff.delay_secs == d
            &&& t.backoff.max_secs == s.backoff.max_secs
            &&& a == UpstreamAction::Sleep(d as u64)
        }),
{
    assert(delay_after(k + 1, s.backoff.max_secs as nat) == next_delay(
        delay_after(k, s.backoff.max_secs as nat),
        s.backoff.max_secs as nat,
    ));
}

} // verus!

use vstd::prelude::*;

verus! {

/// Seconds between two pings to a client.
pub const CLIENT_PING_INTERVAL_SECS: u64 = 30;

/// Seconds without a pong after which a client is dropped.
pub const CLIENT_PONG_TIMEOUT_SECS: u64 = 60;

/// What happened to a client session, as the I/O side reports it.
#[derive(Clone, Copy, Debug, PartialEq, Eq, Structural)]
pub enum SessionEvent {
    /// The bus handed the session a message, which went out to the client.
    Forwarded,
    /// The bus reported that this reader fell behind.
    Lagged(u64),
    Pong { now: u64 },
    PingTick { now: u64 },
    /// A close frame or a read error from the client.
    ClientClosed,
    WriteFailed,
    Cancelled,
}

/// Why a session ended.
#[derive(Clone, Copy, Debug, PartialEq, Eq, Structural)]
pub enum EndReason {
    Lagged,
    PongTimeout,
    ClientClosed,
    WriteFailed,
    Cancelled,
}

/// What the I/O side is to do next.
#[derive(Clone, Copy, Debug, PartialEq, Eq, Structural)]
pub enum SessionAction {
    Continue,
    SendPing,
    /// Close the socket (with a lag notice where the reason is a lag), stop
    /// the other activities and give the admission ticket back.
    End(EndReason),
}

/// The liveness state of one client session.
#[derive(Clone, Copy, Debug, PartialEq, Eq, Structural)]
pub struct Session {
    pub last_pong: u64,
    pub ended: bool,
}

pub open spec fn session_step(s: Session, ev: SessionEvent) -> (Session, SessionAction) {
    let done = Session { last_pong: s.last_pong, ended: true };
    if s.ended {
        (s, SessionAction::Continue)
    } else {
        match ev {
            SessionEvent::Forwarded => (s, SessionAction::Continue),
            SessionEvent::Lagged(_) => (done, SessionAction::End(EndReason::Lagged)),
            SessionEvent::Pong { now } => (
                Session { last_pong: now, ended: false },
                SessionAction::Continue,
            ),
            SessionEvent::PingTick { now } => if now as int - s.last_pong as int
                > CLIENT_PONG_TIMEOUT_SECS as int {
                (done, SessionAction::End(EndReason::PongTimeout))
            } else {
                (s, SessionAction::SendPing)
            },
            SessionEvent::ClientClosed => (done, SessionAction::End(EndReason::ClientClosed)),
            SessionEvent::WriteFailed => (done, SessionAction::End(EndReason::WriteFailed)),
            SessionEvent::Cancelled => (done, SessionAction::End(EndReason::Cancelled)),
        }
    }
}

impl Session {
    /// A session that starts at `now` counts as having just seen a pong.
    pub fn new(now: u64) -> (r: Session)
        ensures
            r == (Session { last_pong: now, ended: false }),
    {
        Session { last_pong: now, ended: false }
    }

    /// Takes one event and says what to do next. A session ends once: after
    /// an `End`, every further event is ignored.
    pub fn step(&mut self, ev: SessionEvent) -> (r: SessionAction)
        ensures
            (*final(self), r) == session_step(*old(self), ev),
    {
        if self.ended {
            return SessionAction::Continue;
        }
        match ev {
            SessionEvent::Forwarded => SessionAction::Continue,
            SessionEvent::Lagged(_) => {
                self.ended = true;
                SessionAction::End(EndReason::Lagged)
            },
            SessionEvent::Pong { now } => {
                self.last_pong = now;
                SessionAction::Continue
            },
            SessionEvent::PingTick { now } => {
                if now > self.last_pong && now - self.last_pong > CLIENT_PONG_TIMEOUT_SECS {
                    self.ended = true;
                    SessionAction::End(EndReason::PongTimeout)
                } else {
                    SessionAction::SendPing
                }
            },
            SessionEvent::ClientClosed => {
                self.ended = true;
                SessionAction::End(EndReason::ClientClosed)
            },
            SessionEvent::WriteFailed => {
                self.ended = true;
                SessionAction::End(EndReason::WriteFailed)
            },
            SessionEvent::Cancelled => {
                self.ended = true;
                SessionAction::End(EndReason::Cancelled)
            },
        }
    }
}

/// A session ends exactly once: the first `End` leaves it ended, and an
/// ended session never asks for another, so its ticket is given back once.
pub proof fn lemma_ends_once(s: Session, ev: SessionEvent)
    ensures
        session_step(s, ev).1 is End ==> !s.ended && session_step(s, ev).0.ended,
        s.ended ==> session_step(s, ev).0 == s && !(session_step(s, ev).1 is End),
{
}

} // verus!

//! The visualization's connection to the server as a sequence of decisions.
//!
//! The connection sends what it is given while it is up. When a send fails
//! or the stream ends it reconnects, waiting longer after each failed
//! attempt (see [`crate::viz::next_backoff`]). Messages that could not be
//! sent wait in order: one that failed goes back to the front, one that
//! arrives while the connection is down joins the back, and the whole queue
//! is sent before anything new once the connection is up again. Whoever
//! drives the connection performs the actions and reports what happened.
use vstd::prelude::*;

use crate::viz::{next_backoff, spec_next_backoff, INITIAL_BACKOFF_MS};

verus! {

/// Where the connection stands.
#[derive(Debug, Clone, Copy, PartialEq, Eq, Structural)]
pub enum LinkPhase {
    /// Up, sending the messages that waited, oldest first.
    Flushing,
    /// Up, with nothing waiting.
    Live,
    /// Down; the next wait after a failed attempt lasts `backoff_ms`.
    Waiting { backoff_ms: u64 },
    /// Finished for good.
    Stopped,
}

/// What happened since the last action.
#[derive(Debug)]
pub enum LinkEvent<T> {
    /// A connection is up.
    Connected,
    /// The message handed out was sent.
    Sent,
    /// The message handed out could not be sent; here it is back.
    SendFailed(T),
    /// A message to send arrived.
    Outgoing(T),
    /// No more messages will arrive to be sent.
    OutgoingClosed,
    /// Reading failed or the stream ended.
    StreamLost,
    /// Nobody takes what arrives from the server any more.
    InboundClosed,
    /// A connection attempt failed.
    ConnectFailed,
    /// The wait before the next attempt is over.
    WaitOver,
}

/// What to do next.
#[derive(Debug)]
pub enum LinkAction<T> {
    /// Send this message and report whether it went.
    Send(T),
    /// Wait for the next event: on the live connection, or for the wait
    /// already under way (queueing what arrives meanwhile).
    Listen,
    /// Try to connect.
    Connect,
    /// Wait this many milliseconds, queueing what arrives meanwhile, then
    /// report [`LinkEvent::WaitOver`].
    Sleep(u64),
    /// Stop.
    Stop,
}

/// The connection: its phase and the messages waiting to be sent, oldest
/// first.
pub struct Link<T> {
    pub phase: LinkPhase,
    pub pending: Vec<T>,
}

/// Sending what waited: the oldest message next, or, with nothing left,
/// the connection is live.
pub open spec fn flush_next<T>(pending: Seq<T>) -> (LinkPhase, Seq<T>, LinkAction<T>) {
    if pending.len() == 0 {
        (LinkPhase::Live, pending, LinkAction::Listen)
    } else {
        (LinkPhase::Flushing, pending.drop_first(), LinkAction::Send(pending[0]))
    }
}

/// The next phase, waiting messages and action after `event`.
pub open spec fn link_step<T>(phase: LinkPhase, pending: Seq<T>, event: LinkEvent<T>) -> (
    LinkPhase,
    Seq<T>,
    LinkAction<T>,
) {
    let lost = (LinkPhase::Waiting { backoff_ms: INITIAL_BACKOFF_MS }, pending, LinkAction::Connect);
    let unchanged = (phase, pending, LinkAction::Listen);
    if phase is Stopped {
        (phase, pending, LinkAction::Stop)
    } else {
        match event {
            LinkEvent::Connected => flush_next(pending),
            LinkEvent::Sent => if phase is Flushing {
                flush_next(pending)
            } else {
                unchanged
            },
            LinkEvent::SendFailed(m) => (
                LinkPhase::Waiting { backoff_ms: INITIAL_BACKOFF_MS },
                seq![m] + pending,
                LinkAction::Connect,
            ),
            LinkEvent::Outgoing(m) => if phase is Live {
                (phase, pending, LinkAction::Send(m))
            } else {
                (phase, pending.push(m), LinkAction::Listen)
            },
            LinkEvent::OutgoingClosed => (LinkPhase::Stopped, pending, LinkAction::Stop),
            LinkEvent::InboundClosed => (LinkPhase::Stopped, pending, LinkAction::Stop),
            LinkEvent::StreamLost => if phase is Waiting {
                unchanged
            } else {
                lost
            },
            LinkEvent::ConnectFailed => match phase {
                LinkPhase::Waiting { backoff_ms } => (phase, pending, LinkAction::Sleep(backoff_ms)),
                _ => unchanged,
            },
            LinkEvent::WaitOver => match phase {
                LinkPhase::Waiting { backoff_ms } => (
                    LinkPhase::Waiting { backoff_ms: spec_next_backoff(backoff_ms) },
                    pending,
                    LinkAction::Connect,
                ),
                _ => unchanged,
            },
        }
    }
}

/// The message an action hands out, if any.
pub open spec fn handed_out<T>(action: LinkAction<T>) -> Seq<T> {
    match action {
        LinkAction::Send(m) => seq![m],
        _ => Seq::empty(),
    }
}

/// The message an event hands back after a failed send, if any.
pub open spec fn handed_back<T>(event: LinkEvent<T>) -> Seq<T> {
    match event {
        LinkEvent::SendFailed(m) => seq![m],
        _ => Seq::empty(),
    }
}

/// The new message an event brings, if any.
pub open spec fn brought<T>(event: LinkEvent<T>) -> Seq<T> {
    match event {
        LinkEvent::Outgoing(m) => seq![m],
        _ => Seq::empty(),
    }
}

impl<T> Link<T> {
    /// Nothing waits while the connection is live.
    pub open spec fn wf(&self) -> bool {
        self.phase is Live ==> self.pending@.len() == 0
    }

    /// A live connection with nothing waiting.
    pub fn new() -> (r: Link<T>)
        ensures
            r.wf(),
            r.phase == LinkPhase::Live,
            r.pending@.len() == 0,
    {
        Link { phase: LinkPhase::Live, pending: Vec::new() }
    }

    /// Whether the connection is up.
    pub fn is_connected(&self) -> (r: bool)
        ensures
            r == (self.phase is Flushing || self.phase is Live),
    {
        match self.phase {
            LinkPhase::Flushing | LinkPhase::Live => true,
            _ => false,
        }
    }

    /// Takes what happened and decides what comes next (see [`link_step`]).
    /// Until the connection stops, no message is lost, repeated or
    /// reordered: what is handed out, then what waits, is what was handed
    /// back, then what waited, then what arrived.
    pub fn step(self, event: LinkEvent<T>) -> (r: (Link<T>, LinkAction<T>))
        requires
            self.wf(),
        ensures
            r.0.wf(),
            (r.0.phase, r.0.pending@, r.1) == link_step(self.phase, self.pending@, event),
            !(self.phase is Stopped) ==> handed_out(r.1) + r.0.pending@ == handed_back(event)
                + self.pending@ + brought(event),
    {
        let mut link = self;
        let ghost old_pending = link.pending@;
        if link.phase == LinkPhase::Stopped {
            return (link, LinkAction::Stop);
        }
        let action = match event {
            LinkEvent::Connected => link.flush_next(),
            LinkEvent::Sent => {
                if link.phase == LinkPhase::Flushing {
                    link.flush_next()
                } else {
                    LinkAction::Listen
                }
            },
            LinkEvent::SendFailed(m) => {
                link.pending.insert(0, m);
                link.phase = LinkPhase::Waiting { backoff_ms: INITIAL_BACKOFF_MS };
                proof {
                    assert(link.pending@ =~= seq![m] + old_pending);
                }
                LinkAction::Connect
            },
            LinkEvent::Outgoing(m) => {
                if link.phase == LinkPhase::Live {
                    proof {
                        assert(old_pending =~= Seq::<T>::empty());
                    }
                    LinkAction::Send(m)
                } else {
                    link.pending.push(m);
                    LinkAction::Listen
                }
            },
            LinkEvent::OutgoingClosed | LinkEvent::InboundClosed => {
                link.phase = LinkPhase::Stopped;
                LinkAction::Stop
            },
            LinkEvent::StreamLost => {
                if let LinkPhase::Waiting { .. } = link.phase {
                    LinkAction::Listen
                } else {
                    link.phase = LinkPhase::Waiting { backoff_ms: INITIAL_BACKOFF_MS };
                    LinkAction::Connect
                }
            },
            LinkEvent::ConnectFailed => match link.phase {
                LinkPhase::Waiting { backoff_ms } => LinkAction::Sleep(backoff_ms),
                _ => LinkAction::Listen,
            },
            LinkEvent::WaitOver => match link.phase {
                LinkPhase::Waiting { backoff_ms } => {
                    link.phase = LinkPhase::Waiting { backoff_ms: next_backoff(backoff_ms) };
                    LinkAction::Connect
                },
                _ => LinkAction::Listen,
            },
        };
        proof {
            assert(handed_out(action) + link.pending@ =~= handed_back(event) + old_pending
                + brought(event));
        }
        (link, action)
    }

    fn flush_next(&mut self) -> (r: LinkAction<T>)
        ensures
            (final(self).phase, final(self).pending@, r) == flush_next(old(self).pending@),
    {
        if self.pending.len() == 0 {
            self.phase = LinkPhase::Live;
            LinkAction::Listen
        } else {
            let m = self.pending.remove(0);
            self.phase = LinkPhase::Flushing;
            proof {
                assert(self.pending@ =~= old(self).pending@.drop_first());
            }
            LinkAction::Send(m)
        }
    }
}

} // verus!

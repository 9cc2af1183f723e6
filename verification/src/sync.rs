//! Keeping a visualization in step with one battle instance on the server.
//!
//! The synchronizer reads the server's messages for the instance it
//! follows, keeps the cycle events that arrive before they are shown, and
//! decides what the status line says. The connection itself (sending,
//! receiving, reconnecting) belongs to the frontend, which hands the
//! messages in and sends what the synchronizer asks for.
use vstd::prelude::*;

use crate::protocol::{
    BattleResultMsg, CellInfo, ClientMessage, CycleEvent, PROTOCOL_VERSION,
};
use crate::text::{chars_of, decimal, decimal_chars, same_text, string_of};
use crate::viewer::{
    apply_snapshot, blank_cells, next_cycle, no_details, replay, touched, unowned, with_listings,
    with_owners, CoreState, Viewer,
};
use crate::viz::{format_battle_result, spec_result_banner};

verus! {

/// A server message, as far as following an instance is concerned.
#[derive(Debug, Clone)]
pub enum SyncMessage {
    Hello { version: u32 },
    CoreSnapshot { instance_id: String, cells: Vec<CellInfo> },
    CycleEvents { instance_id: String, events: Vec<CycleEvent> },
    BattleComplete { instance_id: String, result: BattleResultMsg },
    Error { message: String },
    /// Instance lists, leaderboards and the like, which change nothing here.
    Other,
}

/// The status line for a server speaking another protocol version.
pub open spec fn mismatch_text(version: u32) -> Seq<char> {
    "protocol mismatch: expected "@ + decimal(PROTOCOL_VERSION as nat) + ", got "@ + decimal(
        version as nat,
    )
}

/// The status line for a finished battle.
pub open spec fn banner(result: BattleResultMsg) -> Seq<char> {
    match result {
        BattleResultMsg::Win { winner } => spec_result_banner(Some(winner@), Seq::empty()),
        BattleResultMsg::Draw { survivors } => spec_result_banner(
            None,
            survivors@.map_values(|s: String| s@),
        ),
    }
}

/// Follows one battle instance for a visualization.
pub struct StateSynchronizer {
    instance_id: String,
    pending_events: Vec<CycleEvent>,
    overlay_message: Option<String>,
    initialized: bool,
    was_connected: bool,
}

impl StateSynchronizer {
    /// The instance followed.
    pub closed spec fn instance(&self) -> Seq<char> {
        self.instance_id@
    }

    /// Cycle events received and not yet shown, in order.
    pub closed spec fn pending(&self) -> Seq<CycleEvent> {
        self.pending_events@
    }

    /// The status line, if any.
    pub closed spec fn overlay(&self) -> Option<Seq<char>> {
        match self.overlay_message {
            Some(m) => Some(m@),
            None => None,
        }
    }

    /// Whether a snapshot has been shown since the last (re)connection.
    pub closed spec fn initialized(&self) -> bool {
        self.initialized
    }

    /// Whether the connection was up when last looked at.
    pub closed spec fn was_connected(&self) -> bool {
        self.was_connected
    }

    /// A synchronizer for `instance_id`, right after subscribing to it over
    /// a connection that is up or not as `connected` says.
    pub fn new(instance_id: String, connected: bool) -> (r: Self)
        ensures
            r.instance() == instance_id@,
            r.pending() == Seq::<CycleEvent>::empty(),
            r.overlay() is None,
            !r.initialized(),
            r.was_connected() == connected,
    {
        StateSynchronizer {
            instance_id,
            pending_events: Vec::new(),
            overlay_message: None,
            initialized: false,
            was_connected: connected,
        }
    }

    /// The subscription request for the instance followed.
    pub fn subscription(&self) -> (m: ClientMessage)
        ensures
            m matches ClientMessage::Subscribe { instance_id } && instance_id@ == self.instance(),
    {
        ClientMessage::Subscribe { instance_id: self.instance_id.clone() }
    }

    /// The status line, if any.
    pub fn overlay_message(&self) -> (r: Option<&str>)
        ensures
            match r {
                Some(m) => self.overlay() == Some(m@),
                None => self.overlay() is None,
            },
    {
        match &self.overlay_message {
            Some(m) => Some(m.as_str()),
            None => None,
        }
    }

    pub fn is_initialized(&self) -> (r: bool)
        ensures
            r == self.initialized(),
    {
        self.initialized
    }

    /// Looks at the connection. Coming back up, everything received is
    /// dropped, the view waits for a new snapshot, and the subscription is
    /// returned to be sent again; [`StateSynchronizer::resubscribed`] is
    /// called once it was sent. While the connection is down the status
    /// line says so.
    pub fn refresh_connection_state(&mut self, connected: bool) -> (r: Option<ClientMessage>)
        ensures
            final(self).instance() == old(self).instance(),
            connected && !old(self).was_connected() ==> {
                &&& r matches Some(ClientMessage::Subscribe { instance_id })
                    && instance_id@ == old(self).instance()
                &&& final(self).pending() == Seq::<CycleEvent>::empty()
                &&& !final(self).initialized()
                &&& final(self).overlay() == Some("reconnected - syncing..."@)
                &&& !final(self).was_connected()
            },
            !(connected && !old(self).was_connected()) ==> {
                &&& r is None
                &&& final(self).pending() == old(self).pending()
                &&& final(self).initialized() == old(self).initialized()
                &&& final(self).overlay() == if connected {
                    old(self).overlay()
                } else {
                    Some("reconnecting..."@)
                }
                &&& final(self).was_connected() == connected
            },
    {
        if connected && !self.was_connected {
            self.pending_events = Vec::new();
            self.initialized = false;
            self.overlay_message = Some("reconnected - syncing...".to_owned());
            return Some(self.subscription());
        } else if !connected {
            self.overlay_message = Some("reconnecting...".to_owned());
        }
        self.was_connected = connected;
        None
    }

    /// Records that the subscription asked for on reconnection was sent.
    pub fn resubscribed(&mut self)
        ensures
            final(self).was_connected(),
            final(self).instance() == old(self).instance(),
            final(self).pending() == old(self).pending(),
            final(self).initialized() == old(self).initialized(),
            final(self).overlay() == old(self).overlay(),
    {
        self.was_connected = true;
    }

    /// Whether `instance_id` is the instance followed.
    fn follows(&self, instance_id: &String) -> (r: bool)
        ensures
            r == (instance_id@ == self.instance()),
    {
        same_text(instance_id, self.instance_id.as_str())
    }

    /// Sets the status line.
    fn set_overlay(&mut self, text: String)
        ensures
            final(self).overlay() == Some(text@),
            final(self).instance() == old(self).instance(),
            final(self).pending() == old(self).pending(),
            final(self).initialized() == old(self).initialized(),
            final(self).was_connected() == old(self).was_connected(),
    {
        self.overlay_message = Some(text);
    }

    /// Reads one server message, showing snapshots on `core` directly; says
    /// whether it showed one.
    pub fn handle_message(&mut self, core: &mut CoreState, message: SyncMessage) -> (shown: bool)
        ensures
            shown == (message matches SyncMessage::CoreSnapshot { instance_id, .. }
                && instance_id@ == old(self).instance()),
            final(self).instance() == old(self).instance(),
            final(self).was_connected() == old(self).was_connected(),
            match message {
                SyncMessage::Hello { version } => {
                    &&& *final(core) == *old(core)
                    &&& final(self).pending() == old(self).pending()
                    &&& final(self).initialized() == old(self).initialized()
                    &&& final(self).overlay() == if version != PROTOCOL_VERSION {
                        Some(mismatch_text(version))
                    } else {
                        old(self).overlay()
                    }
                },
                SyncMessage::CoreSnapshot { instance_id, cells } => if instance_id@
                    == old(self).instance() {
                    &&& final(core).cells@ == with_owners(
                        blank_cells(old(core).cells@.len()),
                        cells@,
                    )
                    &&& final(core).current_cycle == 0
                    &&& final(core).width == old(core).width
                    &&& final(core).height == old(core).height
                    &&& final(self).pending() == Seq::<CycleEvent>::empty()
                    &&& final(self).overlay() is None
                    &&& final(self).initialized()
                } else {
                    unchanged(*old(self), *final(self), *old(core), *final(core))
                },
                SyncMessage::CycleEvents { instance_id, events } => if instance_id@
                    == old(self).instance() {
                    &&& *final(core) == *old(core)
                    &&& final(self).pending() == old(self).pending() + events@
                    &&& final(self).initialized() == old(self).initialized()
                    &&& final(self).overlay() == if old(self).initialized() {
                        None
                    } else {
                        old(self).overlay()
                    }
                } else {
                    unchanged(*old(self), *final(self), *old(core), *final(core))
                },
                SyncMessage::BattleComplete { instance_id, result } => if instance_id@
                    == old(self).instance() {
                    &&& *final(core) == *old(core)
                    &&& final(self).pending() == old(self).pending()
                    &&& final(self).initialized() == old(self).initialized()
                    &&& final(self).overlay() == Some(banner(result))
                } else {
                    unchanged(*old(self), *final(self), *old(core), *final(core))
                },
                SyncMessage::Error { message } => {
                    &&& *final(core) == *old(core)
                    &&& final(self).pending() == old(self).pending()
                    &&& final(self).initialized() == old(self).initialized()
                    &&& final(self).overlay() == Some(message@)
                },
                SyncMessage::Other => unchanged(*old(self), *final(self), *old(core), *final(core)),
            },
    {
        match message {
            SyncMessage::Hello { version } => {
                if version != PROTOCOL_VERSION {
                    let text = mismatch_message(version);
                    self.set_overlay(text);
                }
                false
            },
            SyncMessage::CoreSnapshot { instance_id, cells } => {
                if self.follows(&instance_id) {
                    apply_snapshot(core, cells.as_slice());
                    self.pending_events = Vec::new();
                    self.overlay_message = None;
                    self.initialized = true;
                    true
                } else {
                    false
                }
            },
            SyncMessage::CycleEvents { instance_id, events } => {
                if self.follows(&instance_id) {
                    let mut events = events;
                    self.pending_events.append(&mut events);
                    if self.initialized {
                        self.overlay_message = None;
                    }
                }
                false
            },
            SyncMessage::BattleComplete { instance_id, result } => {
                if self.follows(&instance_id) {
                    let text = format_battle_result(&result);
                    self.set_overlay(text);
                }
                false
            },
            SyncMessage::Error { message } => {
                self.set_overlay(message);
                false
            },
            SyncMessage::Other => false,
        }
    }

    /// Shows the events received since the last call as one cycle on
    /// `core`, if there are any; returns the addresses touched.
    pub fn flush_pending(&mut self, core: &mut CoreState) -> (lit: Vec<usize>)
        ensures
            final(self).pending() == Seq::<CycleEvent>::empty(),
            final(self).instance() == old(self).instance(),
            final(self).initialized() == old(self).initialized(),
            final(self).overlay() == old(self).overlay(),
            final(self).was_connected() == old(self).was_connected(),
            old(self).pending().len() == 0 ==> *final(core) == *old(core) && lit@.len() == 0,
            old(self).pending().len() > 0 ==> {
                &&& final(core).current_cycle == next_cycle(old(core).current_cycle)
                &&& final(core).cells@ == replay(
                    old(core).cells@,
                    old(self).pending(),
                    final(core).current_cycle,
                )
                &&& final(core).width == old(core).width
                &&& final(core).height == old(core).height
                &&& lit@ == touched(old(self).pending(), old(core).cells@.len())
            },
    {
        if self.pending_events.len() == 0 {
            return Vec::new();
        }
        let lit = core.apply_events(self.pending_events.as_slice());
        self.pending_events = Vec::new();
        lit
    }

    /// Reads one server message for a [`Viewer`]: snapshots are shown at
    /// once, cycle events are queued on the viewer to be played back. Says
    /// whether it showed a snapshot.
    pub fn handle_app_message(&mut self, viewer: &mut Viewer, message: SyncMessage) -> (shown:
        bool)
        ensures
            shown == (message matches SyncMessage::CoreSnapshot { instance_id, .. }
                && instance_id@ == old(self).instance()),
            final(self).instance() == old(self).instance(),
            final(self).was_connected() == old(self).was_connected(),
            match message {
                SyncMessage::Hello { version } => {
                    &&& viewer_unchanged(*old(viewer), *final(viewer))
                    &&& final(self).pending() == old(self).pending()
                    &&& final(self).initialized() == old(self).initialized()
                    &&& final(self).overlay() == if version != PROTOCOL_VERSION {
                        Some(mismatch_text(version))
                    } else {
                        old(self).overlay()
                    }
                },
                SyncMessage::CoreSnapshot { instance_id, cells } => if instance_id@
                    == old(self).instance() {
                    &&& final(viewer).core_state().cells@ == with_owners(
                        unowned(old(viewer).core_state().cells@),
                        cells@,
                    )
                    &&& final(viewer).core_state().current_cycle == old(
                        viewer,
                    ).core_state().current_cycle
                    &&& final(viewer).details() == with_listings(
                        no_details(old(viewer).core_state().cells@.len()),
                        cells@,
                    )
                    &&& final(viewer).core_state().width == old(viewer).core_state().width
                    &&& final(viewer).core_state().height == old(viewer).core_state().height
                    &&& final(viewer).paused() == old(viewer).paused()
                    &&& final(viewer).speed() == old(viewer).speed()
                    &&& final(viewer).selected() == old(viewer).selected()
                    &&& final(viewer).pending() == old(viewer).pending()
                    &&& final(viewer).counts() == old(viewer).counts()
                    &&& final(self).pending() == Seq::<CycleEvent>::empty()
                    &&& final(self).overlay() is None
                    &&& final(self).initialized()
                } else {
                    &&& viewer_unchanged(*old(viewer), *final(viewer))
                    &&& unchanged_state(*old(self), *final(self))
                },
                SyncMessage::CycleEvents { instance_id, events } => if instance_id@
                    == old(self).instance() {
                    &&& final(viewer).pending() == old(viewer).pending().push(events@)
                    &&& final(viewer).core_state() == old(viewer).core_state()
                    &&& final(viewer).paused() == old(viewer).paused()
                    &&& final(viewer).speed() == old(viewer).speed()
                    &&& final(viewer).selected() == old(viewer).selected()
                    &&& final(viewer).details() == old(viewer).details()
                    &&& final(viewer).counts() == old(viewer).counts()
                    &&& final(self).pending() == old(self).pending()
                    &&& final(self).initialized() == old(self).initialized()
                    &&& final(self).overlay() == if old(self).initialized() {
                        None
                    } else {
                        old(self).overlay()
                    }
                } else {
                    &&& viewer_unchanged(*old(viewer), *final(viewer))
                    &&& unchanged_state(*old(self), *final(self))
                },
                SyncMessage::BattleComplete { instance_id, result } => if instance_id@
                    == old(self).instance() {
                    &&& viewer_unchanged(*old(viewer), *final(viewer))
                    &&& final(self).pending() == old(self).pending()
                    &&& final(self).initialized() == old(self).initialized()
                    &&& final(self).overlay() == Some(banner(result))
                } else {
                    &&& viewer_unchanged(*old(viewer), *final(viewer))
                    &&& unchanged_state(*old(self), *final(self))
                },
                SyncMessage::Error { message } => {
                    &&& viewer_unchanged(*old(viewer), *final(viewer))
                    &&& final(self).pending() == old(self).pending()
                    &&& final(self).initialized() == old(self).initialized()
                    &&& final(self).overlay() == Some(message@)
                },
                SyncMessage::Other => {
                    &&& viewer_unchanged(*old(viewer), *final(viewer))
                    &&& unchanged_state(*old(self), *final(self))
                },
            },
    {
        match message {
            SyncMessage::Hello { version } => {
                if version != PROTOCOL_VERSION {
                    let text = mismatch_message(version);
                    self.set_overlay(text);
                }
                false
            },
            SyncMessage::CoreSnapshot { instance_id, cells } => {
                if self.follows(&instance_id) {
                    viewer.apply_snapshot(cells.as_slice());
                    self.pending_events = Vec::new();
                    self.overlay_message = None;
                    self.initialized = true;
                    true
                } else {
                    false
                }
            },
            SyncMessage::CycleEvents { instance_id, events } => {
                if self.follows(&instance_id) {
                    let ghost batch = events@;
                    let mut batches: Vec<Vec<CycleEvent>> = Vec::new();
                    batches.push(events);
                    assert(batches@.map_values(|b: Vec<CycleEvent>| b@) =~= seq![batch]);
                    viewer.queue_cycle_events(batches);
                    if self.initialized {
                        self.overlay_message = None;
                    }
                }
                false
            },
            SyncMessage::BattleComplete { instance_id, result } => {
                if self.follows(&instance_id) {
                    let text = format_battle_result(&result);
                    self.set_overlay(text);
                }
                false
            },
            SyncMessage::Error { message } => {
                self.set_overlay(message);
                false
            },
            SyncMessage::Other => false,
        }
    }
}

/// The synchronizer's state did not change.
pub open spec fn unchanged_state(before: StateSynchronizer, after: StateSynchronizer) -> bool {
    &&& after.pending() == before.pending()
    &&& after.initialized() == before.initialized()
    &&& after.overlay() == before.overlay()
}

/// Neither the synchronizer's state nor the core changed.
pub open spec fn unchanged(
    before: StateSynchronizer,
    after: StateSynchronizer,
    core_before: CoreState,
    core_after: CoreState,
) -> bool {
    &&& core_after == core_before
    &&& unchanged_state(before, after)
}

/// The viewer did not change.
pub open spec fn viewer_unchanged(before: Viewer, after: Viewer) -> bool {
    &&& after.core_state() == before.core_state()
    &&& after.paused() == before.paused()
    &&& after.speed() == before.speed()
    &&& after.pending() == before.pending()
    &&& after.selected() == before.selected()
    &&& after.details() == before.details()
    &&& after.counts() == before.counts()
}

/// The status line for a server speaking protocol `version`.
fn mismatch_message(version: u32) -> (r: String)
    ensures
        r@ == mismatch_text(version),
{
    let mut text = chars_of("protocol mismatch: expected ");
    let mut expected = decimal_chars(PROTOCOL_VERSION as u64);
    let mut got = chars_of(", got ");
    let mut number = decimal_chars(version as u64);
    text.append(&mut expected);
    text.append(&mut got);
    text.append(&mut number);
    string_of(text.as_slice())
}

} // verus!

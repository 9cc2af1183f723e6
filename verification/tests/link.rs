use corewar::link::{Link, LinkAction, LinkEvent, LinkPhase};

fn sent(action: &LinkAction<&'static str>) -> Option<&'static str> {
    match action {
        LinkAction::Send(m) => Some(*m),
        _ => None,
    }
}

#[test]
fn a_new_link_is_live_and_sends_what_arrives() {
    let link: Link<&str> = Link::new();
    assert!(link.is_connected());
    assert_eq!(link.phase, LinkPhase::Live);
    let (link, action) = link.step(LinkEvent::Outgoing("hello"));
    assert_eq!(sent(&action), Some("hello"));
    let (link, action) = link.step(LinkEvent::Sent);
    assert!(matches!(action, LinkAction::Listen));
    assert_eq!(link.phase, LinkPhase::Live);
    assert!(link.pending.is_empty());
}

#[test]
fn a_failed_send_waits_and_reconnects() {
    let (link, _) = Link::new().step(LinkEvent::Outgoing("a"));
    let (link, action) = link.step(LinkEvent::SendFailed("a"));
    assert!(matches!(action, LinkAction::Connect));
    assert_eq!(link.phase, LinkPhase::Waiting { backoff_ms: 250 });
    assert!(!link.is_connected());
    assert_eq!(link.pending, vec!["a"]);
}

#[test]
fn waits_grow_until_the_cap() {
    let (mut link, _) = Link::<&str>::new().step(LinkEvent::StreamLost);
    let mut waits = Vec::new();
    for _ in 0..7 {
        let (l, action) = link.step(LinkEvent::ConnectFailed);
        match action {
            LinkAction::Sleep(ms) => waits.push(ms),
            _ => panic!("expected a wait"),
        }
        let (l, action) = l.step(LinkEvent::WaitOver);
        assert!(matches!(action, LinkAction::Connect));
        link = l;
    }
    assert_eq!(waits, vec![250, 500, 1000, 2000, 4000, 5000, 5000]);
}

#[test]
fn messages_that_wait_are_sent_in_order_once_connected() {
    let (link, _) = Link::new().step(LinkEvent::Outgoing("first"));
    let (link, _) = link.step(LinkEvent::SendFailed("first"));
    let (link, _) = link.step(LinkEvent::ConnectFailed);
    let (link, action) = link.step(LinkEvent::Outgoing("second"));
    assert!(matches!(action, LinkAction::Listen));
    let (link, _) = link.step(LinkEvent::Outgoing("third"));
    assert_eq!(link.pending, vec!["first", "second", "third"]);
    let (link, _) = link.step(LinkEvent::WaitOver);
    let (link, action) = link.step(LinkEvent::Connected);
    assert_eq!(sent(&action), Some("first"));
    assert_eq!(link.phase, LinkPhase::Flushing);
    assert!(link.is_connected());
    let (link, action) = link.step(LinkEvent::Sent);
    assert_eq!(sent(&action), Some("second"));
    // A failed flush puts the message back in front of the rest.
    let (link, action) = link.step(LinkEvent::SendFailed("second"));
    assert!(matches!(action, LinkAction::Connect));
    assert_eq!(link.pending, vec!["second", "third"]);
    let (link, action) = link.step(LinkEvent::Connected);
    assert_eq!(sent(&action), Some("second"));
    let (link, action) = link.step(LinkEvent::Sent);
    assert_eq!(sent(&action), Some("third"));
    let (link, action) = link.step(LinkEvent::Sent);
    assert!(matches!(action, LinkAction::Listen));
    assert_eq!(link.phase, LinkPhase::Live);
    assert!(link.pending.is_empty());
}

#[test]
fn a_lost_stream_reconnects_from_the_first_wait() {
    let (link, _) = Link::<&str>::new().step(LinkEvent::StreamLost);
    let (link, _) = link.step(LinkEvent::ConnectFailed);
    let (link, _) = link.step(LinkEvent::WaitOver);
    assert_eq!(link.phase, LinkPhase::Waiting { backoff_ms: 500 });
    let (link, _) = link.step(LinkEvent::Connected);
    assert_eq!(link.phase, LinkPhase::Live);
    let (link, action) = link.step(LinkEvent::StreamLost);
    assert!(matches!(action, LinkAction::Connect));
    assert_eq!(link.phase, LinkPhase::Waiting { backoff_ms: 250 });
}

#[test]
fn closed_channels_stop_the_link_for_good() {
    let (link, action) = Link::<&str>::new().step(LinkEvent::OutgoingClosed);
    assert!(matches!(action, LinkAction::Stop));
    assert_eq!(link.phase, LinkPhase::Stopped);
    let (link, action) = link.step(LinkEvent::Connected);
    assert!(matches!(action, LinkAction::Stop));
    assert_eq!(link.phase, LinkPhase::Stopped);

    let (link, _) = Link::<&str>::new().step(LinkEvent::StreamLost);
    let (link, action) = link.step(LinkEvent::InboundClosed);
    assert!(matches!(action, LinkAction::Stop));
    assert_eq!(link.phase, LinkPhase::Stopped);
}

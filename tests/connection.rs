use swarm_core::connection::{Connection, HandlerEvent};
use swarm_core::keep_alive::{aggregate_keep_alive, should_close_idle};
use swarm_core::negotiation::NegotiationError;
use swarm_core::protocol::StreamProtocol;

fn p(s: &'static str) -> StreamProtocol {
    StreamProtocol::new(s)
}

fn closed_stream(e: &HandlerEvent) -> Option<u64> {
    match e {
        HandlerEvent::SubstreamClosed { stream } => Some(*stream),
        _ => None,
    }
}

#[test]
fn keep_alive_vote_blocks_idle_close_until_it_flips() {
    let mut votes = vec![true, false];
    assert!(aggregate_keep_alive(&votes));
    assert!(!should_close_idle(1_000, 10, &votes));
    votes[0] = false;
    assert!(!aggregate_keep_alive(&votes));
    assert!(should_close_idle(1_000, 10, &votes));
    assert!(!should_close_idle(10, 10, &votes));
}

#[test]
fn no_votes_allow_idle_close() {
    assert!(!aggregate_keep_alive(&vec![]));
    assert!(should_close_idle(5, 4, &vec![]));
}

#[test]
fn negotiated_stream_opens_and_reports_its_protocol() {
    let mut c = Connection::new();
    let e = c.on_negotiated(7, Ok(p("/b/1.0"))).unwrap();
    match e {
        HandlerEvent::StreamNegotiated { stream, protocol } => {
            assert_eq!(stream, 7);
            assert_eq!(protocol.as_ref(), "/b/1.0");
        }
        _ => panic!("expected a negotiated stream"),
    }
    assert_eq!(c.open_streams(), 1);
}

#[test]
fn failed_negotiation_leaves_other_streams_alone() {
    let mut c = Connection::new();
    assert!(c.on_negotiated(1, Ok(p("/a"))).is_some());
    assert!(c
        .on_negotiated(2, Err(NegotiationError::NegotiationFailed))
        .is_none());
    assert!(c.on_negotiated(1, Ok(p("/b"))).is_none());
    assert_eq!(c.open_streams(), 1);
    assert!(!c.closed());
}

#[test]
fn closing_stream_reports_it_once() {
    let mut c = Connection::new();
    c.on_negotiated(1, Ok(p("/a")));
    c.on_negotiated(2, Ok(p("/a")));
    let e = c.on_stream_closed(1).unwrap();
    assert_eq!(closed_stream(&e), Some(1));
    assert!(c.on_stream_closed(1).is_none());
    assert_eq!(c.open_streams(), 1);
}

#[test]
fn closing_connection_reports_each_stream_then_itself() {
    let mut c = Connection::new();
    for s in [3u64, 5, 9] {
        assert!(c.on_negotiated(s, Ok(p("/a"))).is_some());
    }
    let events = c.close();
    assert_eq!(events.len(), 4);
    let mut closed: Vec<u64> = events[..3].iter().filter_map(closed_stream).collect();
    closed.sort();
    assert_eq!(closed, vec![3, 5, 9]);
    assert!(matches!(events[3], HandlerEvent::ConnectionClosed));
    assert!(c.closed());
    assert_eq!(c.open_streams(), 0);
    // Nothing more reaches the handlers.
    assert!(c.close().is_empty());
    assert!(c.on_negotiated(11, Ok(p("/a"))).is_none());
    assert!(c.on_stream_closed(3).is_none());
}

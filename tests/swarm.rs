use swarm_core::connection::HandlerEvent;
use swarm_core::negotiation::NegotiationError;
use swarm_core::protocol::StreamProtocol;
use swarm_core::swarm::{Swarm, SwarmEvent};

#[test]
fn unreachable_dial_yields_one_failure_and_no_connection() {
    let mut s = Swarm::new();
    let d = s.dial().unwrap();
    s.on_dial_outcome(d, Err(String::from("connection refused")));
    assert_eq!(s.connection_count(), 0);
    match s.next_event() {
        Some(SwarmEvent::DialFailure { dial, reason }) => {
            assert_eq!(dial, d);
            assert_eq!(reason, "connection refused");
        }
        _ => panic!("expected a dial failure"),
    }
    assert!(s.next_event().is_none());
    // A second report for the same dial changes nothing.
    s.on_dial_outcome(d, Err(String::from("again")));
    assert!(s.next_event().is_none());
    assert_eq!(s.connection_count(), 0);
}

#[test]
fn successful_dial_establishes_connection() {
    let mut s = Swarm::new();
    let d = s.dial().unwrap();
    s.on_dial_outcome(d, Ok(42));
    assert_eq!(s.connection_count(), 1);
    match s.next_event() {
        Some(SwarmEvent::ConnectionEstablished { connection, peer }) => {
            assert_eq!(connection, d);
            assert_eq!(peer, 42);
        }
        _ => panic!("expected an established connection"),
    }
}

#[test]
fn events_come_out_in_order() {
    let mut s = Swarm::new();
    let l = s.listen_on().unwrap();
    s.on_listen_addr(l, String::from("/ip4/127.0.0.1/tcp/4001"));
    let c = s.on_inbound_connection(7).unwrap();
    assert_ne!(c, l);
    match s.next_event() {
        Some(SwarmEvent::NewListenAddr { listener, address }) => {
            assert_eq!(listener, l);
            assert_eq!(address, "/ip4/127.0.0.1/tcp/4001");
        }
        _ => panic!("expected a listen address"),
    }
    assert!(matches!(
        s.next_event(),
        Some(SwarmEvent::ConnectionEstablished { connection, peer: 7 }) if connection == c
    ));
    assert!(s.next_event().is_none());
}

#[test]
fn closing_connection_tells_handlers_then_application() {
    let mut s = Swarm::new();
    let c = s.on_inbound_connection(1).unwrap();
    let _ = s.next_event();
    let events = s.close_connection(c);
    assert_eq!(events.len(), 1);
    assert!(matches!(events[0], HandlerEvent::ConnectionClosed));
    assert_eq!(s.connection_count(), 0);
    assert!(matches!(
        s.next_event(),
        Some(SwarmEvent::ConnectionClosed { connection, peer: 1 }) if connection == c
    ));
    assert!(s.close_connection(c).is_empty());
    assert!(s.next_event().is_none());
}

#[test]
fn closing_connection_with_three_streams_notifies_each_once() {
    let mut s = Swarm::new();
    let c = s.on_inbound_connection(9).unwrap();
    for id in [1u64, 2, 3] {
        let e = s.on_stream_negotiated(c, id, Ok(StreamProtocol::new("/a/1.0")));
        assert!(matches!(e, Some(HandlerEvent::StreamNegotiated { stream, .. }) if stream == id));
    }
    assert!(s
        .on_stream_negotiated(c, 4, Err(NegotiationError::NegotiationFailed))
        .is_none());
    let events = s.close_connection(c);
    assert_eq!(events.len(), 4);
    let mut closed: Vec<u64> = events[..3]
        .iter()
        .map(|e| match e {
            HandlerEvent::SubstreamClosed { stream } => *stream,
            _ => panic!("expected a stream closure"),
        })
        .collect();
    closed.sort();
    assert_eq!(closed, vec![1, 2, 3]);
    assert!(matches!(events[3], HandlerEvent::ConnectionClosed));
    // The connection is gone: nothing more is delivered for it.
    assert!(s
        .on_stream_negotiated(c, 5, Ok(StreamProtocol::new("/a/1.0")))
        .is_none());
    assert!(s.on_stream_closed(c, 1).is_none());
}

#[test]
fn stream_closure_is_routed_to_its_connection() {
    let mut s = Swarm::new();
    let a = s.on_inbound_connection(1).unwrap();
    let b = s.on_inbound_connection(2).unwrap();
    s.on_stream_negotiated(a, 7, Ok(StreamProtocol::new("/x")));
    assert!(s.on_stream_closed(b, 7).is_none());
    assert!(matches!(
        s.on_stream_closed(a, 7),
        Some(HandlerEvent::SubstreamClosed { stream: 7 })
    ));
    assert!(s.on_stream_closed(a, 7).is_none());
}

#[test]
fn shutdown_closes_every_connection_with_notifications() {
    let mut s = Swarm::new();
    let a = s.on_inbound_connection(1).unwrap();
    let d = s.dial().unwrap();
    s.on_dial_outcome(d, Ok(2));
    s.on_stream_negotiated(a, 10, Ok(StreamProtocol::new("/p")));
    s.on_stream_negotiated(d, 20, Ok(StreamProtocol::new("/q")));
    s.on_stream_negotiated(d, 21, Ok(StreamProtocol::new("/q")));
    while s.next_event().is_some() {}
    let events = s.shutdown();
    assert_eq!(s.connection_count(), 0);
    assert_eq!(events.len(), 5);
    assert!(matches!(events[0], HandlerEvent::SubstreamClosed { stream: 10 }));
    assert!(matches!(events[1], HandlerEvent::ConnectionClosed));
    assert!(matches!(events[2], HandlerEvent::SubstreamClosed { stream: 20 }));
    assert!(matches!(events[3], HandlerEvent::SubstreamClosed { stream: 21 }));
    assert!(matches!(events[4], HandlerEvent::ConnectionClosed));
    assert!(matches!(
        s.next_event(),
        Some(SwarmEvent::ConnectionClosed { connection, peer: 1 }) if connection == a
    ));
    assert!(matches!(
        s.next_event(),
        Some(SwarmEvent::ConnectionClosed { connection, peer: 2 }) if connection == d
    ));
    assert!(s.next_event().is_none());
    assert!(s.shutdown().is_empty());
}

#[test]
fn dial_leaves_pending_until_resolved() {
    let mut s = Swarm::new();
    let d1 = s.dial().unwrap();
    let d2 = s.dial().unwrap();
    assert_ne!(d1, d2);
    s.on_dial_outcome(d2, Err(String::from("unreachable")));
    s.on_dial_outcome(d1, Ok(5));
    assert_eq!(s.connection_count(), 1);
    assert!(matches!(s.next_event(), Some(SwarmEvent::DialFailure { dial, .. }) if dial == d2));
    assert!(matches!(
        s.next_event(),
        Some(SwarmEvent::ConnectionEstablished { connection, peer: 5 }) if connection == d1
    ));
}

#[test]
fn disconnect_closes_only_the_peers_connections() {
    let mut s = Swarm::new();
    let a = s.on_inbound_connection(1).unwrap();
    let b = s.on_inbound_connection(2).unwrap();
    let c = s.on_inbound_connection(1).unwrap();
    s.on_stream_negotiated(c, 4, Ok(StreamProtocol::new("/p")));
    s.on_stream_negotiated(b, 5, Ok(StreamProtocol::new("/p")));
    while s.next_event().is_some() {}
    let events = s.disconnect(1);
    assert_eq!(events.len(), 3);
    assert!(matches!(events[0], HandlerEvent::ConnectionClosed));
    assert!(matches!(events[1], HandlerEvent::SubstreamClosed { stream: 4 }));
    assert!(matches!(events[2], HandlerEvent::ConnectionClosed));
    assert_eq!(s.connection_count(), 1);
    assert!(matches!(
        s.next_event(),
        Some(SwarmEvent::ConnectionClosed { connection, peer: 1 }) if connection == a
    ));
    assert!(matches!(
        s.next_event(),
        Some(SwarmEvent::ConnectionClosed { connection, peer: 1 }) if connection == c
    ));
    assert!(s.next_event().is_none());
    // The other peer's connection and its stream are untouched.
    assert!(matches!(
        s.on_stream_closed(b, 5),
        Some(HandlerEvent::SubstreamClosed { stream: 5 })
    ));
    assert!(s.disconnect(7).is_empty());
    assert_eq!(s.connection_count(), 1);
}

#[test]
fn idle_connection_closes_only_once_every_vote_allows() {
    let mut s = Swarm::new();
    let c = s.on_inbound_connection(3).unwrap();
    let _ = s.next_event();
    // One sub-behaviour still needs the connection.
    assert!(s.close_if_idle(c, 500, 100, &vec![true, false]).is_empty());
    assert_eq!(s.connection_count(), 1);
    assert!(s.next_event().is_none());
    // Not idle long enough.
    assert!(s.close_if_idle(c, 100, 100, &vec![false, false]).is_empty());
    assert_eq!(s.connection_count(), 1);
    // The vote flipped: the idle timeout applies.
    let events = s.close_if_idle(c, 500, 100, &vec![false, false]);
    assert_eq!(events.len(), 1);
    assert!(matches!(events[0], HandlerEvent::ConnectionClosed));
    assert_eq!(s.connection_count(), 0);
    assert!(matches!(
        s.next_event(),
        Some(SwarmEvent::ConnectionClosed { connection, peer: 3 }) if connection == c
    ));
}

use swarm_core::composition::contains_protocol;
use swarm_core::connection::bounded_outcome;
use swarm_core::negotiation::{negotiate_inbound, negotiate_outbound, NegotiationError};
use swarm_core::protocol::StreamProtocol;

fn p(s: &'static str) -> StreamProtocol {
    StreamProtocol::new(s)
}

#[test]
fn two_peers_negotiate_only_shared_protocol() {
    let peer_a = vec![p("/a/1.0"), p("/b/1.0")];
    let peer_b = vec![p("/b/1.0")];
    // A opens a stream for "/b/1.0"; B supports it.
    let r = negotiate_outbound(&p("/b/1.0"), &peer_b).ok().unwrap();
    assert_eq!(r.as_ref(), "/b/1.0");
    // Inbound on B: A proposes what it offers, B accepts the shared one.
    let r = negotiate_inbound(&peer_b, &peer_a).ok().unwrap();
    assert_eq!(r.as_ref(), "/b/1.0");
    // "/a/1.0" on B's side has no taker.
    let r = negotiate_outbound(&p("/a/1.0"), &peer_b);
    assert_eq!(r.err(), Some(NegotiationError::NegotiationFailed));
}

#[test]
fn outbound_request_of_unsupported_protocol_fails() {
    let peer_b = vec![p("/b/1.0")];
    let r = negotiate_outbound(&p("/a/1.0"), &peer_b);
    assert_eq!(r.err(), Some(NegotiationError::NegotiationFailed));
}

#[test]
fn inbound_negotiation_takes_first_accepted_proposal() {
    let local = vec![p("/a/1.0"), p("/b/1.0")];
    let proposals = vec![p("/z/1.0"), p("/b/1.0"), p("/a/1.0")];
    let r = negotiate_inbound(&local, &proposals).ok().unwrap();
    assert_eq!(r.as_ref(), "/b/1.0");
}

#[test]
fn inbound_negotiation_without_match_fails() {
    let local = vec![p("/b/1.0")];
    let proposals = vec![p("/a/1.0")];
    assert_eq!(
        negotiate_inbound(&local, &proposals).err(),
        Some(NegotiationError::NegotiationFailed)
    );
    assert_eq!(
        negotiate_inbound(&local, &vec![]).err(),
        Some(NegotiationError::NegotiationFailed)
    );
}

#[test]
fn late_negotiation_times_out() {
    let ok = negotiate_outbound(&p("/b/1.0"), &vec![p("/b/1.0")]);
    assert_eq!(
        bounded_outcome(ok, 11, 10).err(),
        Some(NegotiationError::NegotiationTimeout)
    );
    let ok = negotiate_outbound(&p("/b/1.0"), &vec![p("/b/1.0")]);
    assert_eq!(bounded_outcome(ok, 10, 10).ok().unwrap().as_ref(), "/b/1.0");
}

#[test]
fn contains_protocol_compares_text() {
    let v = vec![p("/a"), StreamProtocol::try_from_owned(String::from("/b")).unwrap()];
    assert!(contains_protocol(&v, &p("/b")));
    assert!(!contains_protocol(&v, &p("/c")));
}

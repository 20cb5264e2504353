use swarm_core::composition::{next_in_turn, Composition};
use swarm_core::protocol::StreamProtocol;

fn p(s: &'static str) -> StreamProtocol {
    StreamProtocol::new(s)
}

fn texts(v: &[StreamProtocol]) -> Vec<String> {
    let mut t: Vec<String> = v.iter().map(|x| x.to_string()).collect();
    t.sort();
    t
}

#[test]
fn overlapping_sub_behaviours_are_refused() {
    let r = Composition::new(vec![
        vec![p("/a/1.0"), p("/b/1.0")],
        vec![p("/c/1.0")],
        vec![p("/b/1.0")],
    ]);
    let e = r.err().unwrap();
    assert_eq!(e.protocol.as_ref(), "/b/1.0");
    assert_eq!(e.first, 0);
    assert_eq!(e.second, 2);
}

#[test]
fn disjoint_sub_behaviours_offer_the_union() {
    let c = Composition::new(vec![
        vec![p("/a/1.0"), p("/b/1.0")],
        vec![p("/c/1.0")],
    ])
    .ok()
    .unwrap();
    assert_eq!(c.len(), 2);
    assert_eq!(texts(&c.protocols_offered()), vec!["/a/1.0", "/b/1.0", "/c/1.0"]);
}

#[test]
fn empty_composition_offers_nothing() {
    let c = Composition::new(vec![]).ok().unwrap();
    assert_eq!(c.len(), 0);
    assert!(c.protocols_offered().is_empty());
}

#[test]
fn repeated_protocol_within_one_sub_behaviour_is_no_conflict() {
    let c = Composition::new(vec![vec![p("/a"), p("/a")], vec![p("/b")]]);
    assert!(c.is_ok());
}

#[test]
fn owner_of_routes_to_the_declaring_sub_behaviour() {
    let c = Composition::new(vec![
        vec![p("/a/1.0")],
        vec![p("/b/1.0"), p("/c/1.0")],
    ])
    .ok()
    .unwrap();
    assert_eq!(c.owner_of(&p("/a/1.0")), Some(0));
    assert_eq!(c.owner_of(&p("/c/1.0")), Some(1));
    let owned = StreamProtocol::try_from_owned(String::from("/b/1.0")).unwrap();
    assert_eq!(c.owner_of(&owned), Some(1));
    assert_eq!(c.owner_of(&p("/d/1.0")), None);
}

#[test]
fn round_robin_starts_at_the_given_source() {
    let pending = vec![true, false, true, true];
    assert_eq!(next_in_turn(&pending, 0), Some(0));
    assert_eq!(next_in_turn(&pending, 1), Some(2));
    assert_eq!(next_in_turn(&pending, 3), Some(3));
    // Past the last source the turn wraps around.
    assert_eq!(next_in_turn(&vec![true, false, false], 1), Some(0));
    // A start beyond the number of sources is taken modulo it.
    assert_eq!(next_in_turn(&pending, 5), Some(2));
}

#[test]
fn round_robin_with_nothing_pending() {
    assert_eq!(next_in_turn(&vec![false, false], 1), None);
    assert_eq!(next_in_turn(&vec![], 0), None);
}

#[test]
fn round_robin_serves_every_busy_source_in_turn() {
    let pending = vec![true, true, true];
    let mut start = 0usize;
    let mut served = Vec::new();
    for _ in 0..6 {
        let i = next_in_turn(&pending, start).unwrap();
        served.push(i);
        start = i + 1;
    }
    assert_eq!(served, vec![0, 1, 2, 0, 1, 2]);
}

use crate::connection::{Connection, HandlerEvent};
use crate::keep_alive::{idle_close_allowed, should_close_idle};
use crate::negotiation::NegotiationError;
use crate::protocol::StreamProtocol;
use vstd::prelude::*;

verus! {

/// What the swarm reports to the application, in the order it happened.
#[derive(Debug)]
pub enum SwarmEvent {
    /// A listener bound an address.
    NewListenAddr { listener: u64, address: String },
    /// A connection to `peer` was established, by a dial or by a listener.
    ConnectionEstablished { connection: u64, peer: u64 },
    /// A connection closed; its handlers were told first.
    ConnectionClosed { connection: u64, peer: u64 },
    /// A dial failed; the reason is the transport's or the handshake's error.
    DialFailure { dial: u64, reason: String },
}

/// What the handlers are told when connections with the given open streams
/// close one after another.
pub open spec fn closing_all(streams: Seq<Seq<u64>>) -> Seq<HandlerEvent>
    decreases streams.len(),
{
    if streams.len() == 0 {
        Seq::empty()
    } else {
        crate::connection::closing_events(streams[0]) + closing_all(streams.drop_first())
    }
}

/// What the application is told when the given connections close one after
/// another.
pub open spec fn closed_reports(ids: Seq<u64>, peers: Seq<u64>) -> Seq<SwarmEvent> {
    Seq::new(ids.len(), |i: int| SwarmEvent::ConnectionClosed { connection: ids[i], peer: peers[i] })
}

/// One record per connection: its identifier, its peer and its open streams.
pub type ConnectionRecord = (u64, u64, Seq<u64>);

/// What the handlers are told when the recorded connections close one after
/// another.
pub open spec fn closing_records(recs: Seq<ConnectionRecord>) -> Seq<HandlerEvent>
    decreases recs.len(),
{
    if recs.len() == 0 {
        Seq::empty()
    } else {
        closing_records(recs.drop_last()) + crate::connection::closing_events(recs.last().2)
    }
}

/// What the application is told when the recorded connections close one
/// after another.
pub open spec fn closed_record_reports(recs: Seq<ConnectionRecord>) -> Seq<SwarmEvent> {
    recs.map_values(|c: ConnectionRecord| SwarmEvent::ConnectionClosed { connection: c.0, peer: c.1 })
}

/// The record belongs to a connection with `peer`.
pub open spec fn with_peer(peer: u64) -> spec_fn(ConnectionRecord) -> bool {
    |c: ConnectionRecord| c.1 == peer
}

/// The record belongs to a connection with another peer than `peer`.
pub open spec fn without_peer(peer: u64) -> spec_fn(ConnectionRecord) -> bool {
    |c: ConnectionRecord| c.1 != peer
}

/// An established connection and the peer at its other end.
#[derive(Debug)]
pub struct ConnectionEntry {
    pub id: u64,
    pub peer: u64,
    pub connection: Connection,
}

/// The swarm's bookkeeping: pending dials, established connections and the
/// queue of events not yet handed to the application.
#[derive(Debug)]
pub struct Swarm {
    connections: Vec<ConnectionEntry>,
    pending_dials: Vec<u64>,
    events: Vec<SwarmEvent>,
    next_id: u64,
}

impl Swarm {
    /// The identifiers of the established connections, in the order they were established.
    pub closed spec fn connection_ids(&self) -> Seq<u64> {
        self.connections@.map_values(|e: ConnectionEntry| e.id)
    }

    /// The peer of each established connection, in the same order.
    pub closed spec fn connection_peers(&self) -> Seq<u64> {
        self.connections@.map_values(|e: ConnectionEntry| e.peer)
    }

    /// The open streams of the `i`-th established connection.
    pub closed spec fn open_streams_of(&self, i: int) -> Seq<u64> {
        self.connections@[i].connection.stream_ids()
    }

    /// The open streams of every established connection, in order.
    pub open spec fn all_open_streams(&self) -> Seq<Seq<u64>> {
        Seq::new(self.connection_ids().len(), |i: int| self.open_streams_of(i))
    }

    /// Every established connection, in the order they were established.
    pub closed spec fn records(&self) -> Seq<ConnectionRecord> {
        self.connections@.map_values(|e: ConnectionEntry| (e.id, e.peer, e.connection.stream_ids()))
    }

    /// Every identifier has been handed out: no dial, listener or incoming
    /// connection can get a new one.
    pub closed spec fn ids_exhausted(&self) -> bool {
        self.next_id == u64::MAX
    }

    /// The dials that have not resolved yet.
    pub closed spec fn pending(&self) -> Seq<u64> {
        self.pending_dials@
    }

    /// The events not yet handed to the application, oldest first.
    pub closed spec fn queued(&self) -> Seq<SwarmEvent> {
        self.events@
    }

    /// Identifiers below the next one to hand out are in use; connection
    /// identifiers are unique and each connection's streams are well formed.
    pub closed spec fn well_formed(&self) -> bool {
        &&& self.connection_ids().no_duplicates()
        &&& forall|i: int| 0 <= i < self.connections@.len() ==> #[trigger] self.connections@[i].id < self.next_id
        &&& forall|i: int| 0 <= i < self.pending_dials@.len() ==> #[trigger] self.pending_dials@[i] < self.next_id
        &&& forall|i: int| 0 <= i < self.connections@.len() ==> (#[trigger] self.connections@[i]).connection.well_formed()
            && !self.connections@[i].connection.is_closed()
        &&& self.pending_dials@.no_duplicates()
        &&& forall|d: u64| self.pending_dials@.contains(d) ==> !#[trigger] self.connection_ids().contains(d)
    }

    /// A swarm with no connection, no dial and no event.
    pub fn new() -> (r: Swarm)
        ensures
            r.well_formed(),
            r.connection_ids() == Seq::<u64>::empty(),
            r.pending() == Seq::<u64>::empty(),
            r.queued() == Seq::<SwarmEvent>::empty(),
    {
        let r = Swarm { connections: Vec::new(), pending_dials: Vec::new(), events: Vec::new(), next_id: 0 };
        assert(r.connection_ids() =~= Seq::<u64>::empty());
        r
    }

    /// The number of established connections.
    pub fn connection_count(&self) -> (r: usize)
        ensures
            r == self.connection_ids().len(),
    {
        self.connections.len()
    }

    /// Starts a dial and returns its identifier, or `None` once identifiers
    /// are exhausted. The transport is asked by the caller; the outcome comes
    /// back through `on_dial_outcome`.
    pub fn dial(&mut self) -> (r: Option<u64>)
        requires
            old(self).well_formed(),
        ensures
            final(self).well_formed(),
            r matches Some(d) ==> final(self).pending() == old(self).pending().push(d)
                && !old(self).pending().contains(d) && !old(self).connection_ids().contains(d),
            r is None ==> final(self).pending() == old(self).pending(),
            r is None <==> old(self).ids_exhausted(),
            final(self).connection_ids() == old(self).connection_ids(),
            final(self).connection_peers() == old(self).connection_peers(),
            final(self).queued() == old(self).queued(),
    {
        match self.fresh_id() {
            None => None,
            Some(d) => {
                self.pending_dials.push(d);
                Some(d)
            },
        }
    }

    fn fresh_id(&mut self) -> (r: Option<u64>)
        requires
            old(self).well_formed(),
        ensures
            final(self).well_formed(),
            final(self).connections == old(self).connections,
            final(self).pending_dials == old(self).pending_dials,
            final(self).events == old(self).events,
            r matches Some(d) ==> d == old(self).next_id && final(self).next_id == d + 1
                && !old(self).pending_dials@.contains(d) && !old(self).connection_ids().contains(d),
            r is None ==> final(self).next_id == old(self).next_id,
            r is None <==> old(self).ids_exhausted(),
            forall|i: int| 0 <= i < final(self).connections@.len() ==> final(self).connections@[i].id < final(self).next_id,
            forall|i: int| 0 <= i < final(self).pending_dials@.len() ==> final(self).pending_dials@[i] < final(self).next_id,
    {
        if self.next_id == u64::MAX {
            return None;
        }
        let d = self.next_id;
        self.next_id = d + 1;
        assert(!self.connection_ids().contains(d)) by {
            if self.connection_ids().contains(d) {
                let i = choose|i: int| 0 <= i < self.connection_ids().len() && self.connection_ids()[i] == d;
                assert(self.connections@[i].id < d);
            }
        }
        assert(!self.pending_dials@.contains(d)) by {
            if self.pending_dials@.contains(d) {
                let i = choose|i: int| 0 <= i < self.pending_dials@.len() && self.pending_dials@[i] == d;
                assert(self.pending_dials@[i] < d);
            }
        }
        Some(d)
    }

    fn connection_position(&self, connection: u64) -> (r: Option<usize>)
        ensures
            r matches Some(i) ==> i < self.connection_ids().len() && self.connection_ids()[i as int] == connection,
            r is None <==> !self.connection_ids().contains(connection),
    {
        let mut i: usize = 0;
        while i < self.connections.len()
            invariant
                i <= self.connections@.len(),
                forall|m: int| 0 <= m < i ==> self.connection_ids()[m] != connection,
            decreases self.connections@.len() - i,
        {
            if self.connections[i].id == connection {
                assert(self.connection_ids()[i as int] == connection);
                return Some(i);
            }
            i = i + 1;
        }
        None
    }

    fn pending_position(&self, dial: u64) -> (r: Option<usize>)
        ensures
            r matches Some(i) ==> i < self.pending().len() && self.pending()[i as int] == dial,
            r is None <==> !self.pending().contains(dial),
    {
        let mut i: usize = 0;
        while i < self.pending_dials.len()
            invariant
                i <= self.pending_dials@.len(),
                forall|m: int| 0 <= m < i ==> self.pending_dials@[m] != dial,
            decreases self.pending_dials@.len() - i,
        {
            if self.pending_dials[i] == dial {
                return Some(i);
            }
            i = i + 1;
        }
        None
    }

    /// Records how dial `dial` ended. A failure is reported by exactly one
    /// `DialFailure` and leaves the connections as they were; a success
    /// registers the connection to `peer`, under the dial's identifier, and
    /// reports it. An unknown or already resolved dial changes nothing.
    pub fn on_dial_outcome(&mut self, dial: u64, outcome: Result<u64, String>)
        requires
            old(self).well_formed(),
        ensures
            final(self).well_formed(),
            !old(self).pending().contains(dial) ==> final(self).pending() == old(self).pending()
                && final(self).queued() == old(self).queued(),
            old(self).pending().contains(dial) ==> exists|i: int|
                0 <= i < old(self).pending().len() && old(self).pending()[i] == dial
                    && final(self).pending() == old(self).pending().remove(i),
            old(self).pending().contains(dial) && outcome is Err ==> final(self).queued() == old(self).queued().push(
                SwarmEvent::DialFailure { dial, reason: outcome->Err_0 },
            ),
            old(self).pending().contains(dial) && outcome is Ok ==> final(self).queued() == old(self).queued().push(
                SwarmEvent::ConnectionEstablished { connection: dial, peer: outcome->Ok_0 },
            ) && final(self).connection_ids() == old(self).connection_ids().push(dial)
                && final(self).connection_peers() == old(self).connection_peers().push(outcome->Ok_0),
            !(old(self).pending().contains(dial) && outcome is Ok) ==> final(self).connection_ids() == old(
                self,
            ).connection_ids() && final(self).connection_peers() == old(self).connection_peers(),
    {
        let i = match self.pending_position(dial) {
            None => return,
            Some(i) => i,
        };
        let ghost before = *self;
        let _ = self.pending_dials.remove(i);
        proof {
            assert forall|a: int, b: int|
                0 <= a < b < self.pending_dials@.len() implies self.pending_dials@[a] != self.pending_dials@[b] by {
                let a0 = if a < i { a } else { a + 1 };
                let b0 = if b < i { b } else { b + 1 };
                assert(before.pending_dials@[a0] != before.pending_dials@[b0]);
            }
            assert forall|d: u64| self.pending_dials@.contains(d) implies !#[trigger] self.connection_ids().contains(d) by {
                let m = choose|m: int| 0 <= m < self.pending_dials@.len() && self.pending_dials@[m] == d;
                let m0 = if m < i { m } else { m + 1 };
                assert(before.pending_dials@.contains(before.pending_dials@[m0]));
            }
            assert forall|m: int| 0 <= m < self.pending_dials@.len() implies #[trigger] self.pending_dials@[m] < self.next_id by {
                let m0 = if m < i { m } else { m + 1 };
                assert(before.pending_dials@[m0] < before.next_id);
            }
        }
        match outcome {
            Err(reason) => {
                self.events.push(SwarmEvent::DialFailure { dial, reason });
            },
            Ok(peer) => {
                assert(before.pending_dials@.contains(dial));
                assert(!self.connection_ids().contains(dial));
                self.connections.push(ConnectionEntry { id: dial, peer, connection: Connection::new() });
                self.events.push(SwarmEvent::ConnectionEstablished { connection: dial, peer });
                proof {
                    assert(self.connection_ids() =~= before.connection_ids().push(dial));
                    assert(self.connection_peers() =~= before.connection_peers().push(peer));
                    assert forall|d: u64| self.pending_dials@.contains(d) implies !#[trigger] self.connection_ids().contains(d) by {
                        let m = choose|m: int| 0 <= m < self.pending_dials@.len() && self.pending_dials@[m] == d;
                        let m0 = if m < i { m } else { m + 1 };
                        assert(before.pending_dials@[m0] != before.pending_dials@[i as int]);
                        assert(before.pending_dials@.contains(before.pending_dials@[m0]));
                        assert(!before.connection_ids().contains(d));
                    }
                }
            },
        }
    }

    /// Starts a listener and returns its identifier, or `None` once
    /// identifiers are exhausted.
    pub fn listen_on(&mut self) -> (r: Option<u64>)
        requires
            old(self).well_formed(),
        ensures
            final(self).well_formed(),
            r is None <==> old(self).ids_exhausted(),
            r matches Some(l) ==> !old(self).pending().contains(l) && !old(self).connection_ids().contains(l),
            final(self).pending() == old(self).pending(),
            final(self).connection_ids() == old(self).connection_ids(),
            final(self).connection_peers() == old(self).connection_peers(),
            final(self).queued() == old(self).queued(),
    {
        self.fresh_id()
    }

    /// Records that listener `listener` bound `address`.
    pub fn on_listen_addr(&mut self, listener: u64, address: String)
        requires
            old(self).well_formed(),
        ensures
            final(self).well_formed(),
            final(self).queued() == old(self).queued().push(SwarmEvent::NewListenAddr { listener, address }),
            final(self).pending() == old(self).pending(),
            final(self).connection_ids() == old(self).connection_ids(),
            final(self).connection_peers() == old(self).connection_peers(),
    {
        self.events.push(SwarmEvent::NewListenAddr { listener, address });
    }

    /// Admits a connection that a listener accepted from `peer`, and returns
    /// its identifier, or `None` once identifiers are exhausted.
    pub fn on_inbound_connection(&mut self, peer: u64) -> (r: Option<u64>)
        requires
            old(self).well_formed(),
        ensures
            final(self).well_formed(),
            r is None <==> old(self).ids_exhausted(),
            r matches Some(c) ==> !old(self).pending().contains(c) && !old(self).connection_ids().contains(c),
            final(self).pending() == old(self).pending(),
            r matches Some(c) ==> final(self).connection_ids() == old(self).connection_ids().push(c)
                && final(self).connection_peers() == old(self).connection_peers().push(peer)
                && final(self).queued() == old(self).queued().push(
                SwarmEvent::ConnectionEstablished { connection: c, peer },
            ),
            r is None ==> final(self).connection_ids() == old(self).connection_ids(),
            r is None ==> final(self).connection_peers() == old(self).connection_peers(),
            r is None ==> final(self).queued() == old(self).queued(),
    {
        let ghost before = *self;
        match self.fresh_id() {
            None => None,
            Some(c) => {
                self.connections.push(ConnectionEntry { id: c, peer, connection: Connection::new() });
                self.events.push(SwarmEvent::ConnectionEstablished { connection: c, peer });
                proof {
                    assert(self.connection_ids() =~= before.connection_ids().push(c));
                    assert(self.connection_peers() =~= before.connection_peers().push(peer));
                    assert forall|d: u64| self.pending_dials@.contains(d) implies !#[trigger] self.connection_ids().contains(d) by {
                        assert(!before.connection_ids().contains(d));
                        assert(d != c);
                    }
                }
                Some(c)
            },
        }
    }

    /// Closes connection `connection`: its handlers are told of every open
    /// stream's closure and then of the connection's, and the application is
    /// told with one `ConnectionClosed`. Returns what the handlers are told; an
    /// unknown connection yields nothing and changes nothing.
    pub fn close_connection(&mut self, connection: u64) -> (r: Vec<HandlerEvent>)
        requires
            old(self).well_formed(),
        ensures
            final(self).well_formed(),
            final(self).pending() == old(self).pending(),
            !old(self).connection_ids().contains(connection) ==> r@.len() == 0,
            !old(self).connection_ids().contains(connection) ==> final(self).records() == old(self).records(),
            !old(self).connection_ids().contains(connection) ==> final(self).connection_ids() == old(self).connection_ids(),
            !old(self).connection_ids().contains(connection) ==> final(self).queued() == old(self).queued(),
            old(self).connection_ids().contains(connection) ==> exists|i: int|
                0 <= i < old(self).connection_ids().len() && old(self).connection_ids()[i] == connection
                    && final(self).connection_ids() == old(self).connection_ids().remove(i)
                    && final(self).connection_peers() == old(self).connection_peers().remove(i)
                    && final(self).all_open_streams() == old(self).all_open_streams().remove(i)
                    && final(self).records() == old(self).records().remove(i)
                    && old(self).records()[i] == (connection, old(self).connection_peers()[i], old(
                    self,
                ).open_streams_of(i))
                    && r@ == crate::connection::closing_events(old(self).open_streams_of(i))
                    && final(self).queued() == old(self).queued().push(
                    SwarmEvent::ConnectionClosed { connection, peer: old(self).connection_peers()[i] },
                ),
    {
        let i = match self.connection_position(connection) {
            None => return Vec::new(),
            Some(i) => i,
        };
        let ghost before = *self;
        let mut entry = self.connections.remove(i);
        assert(!entry.connection.is_closed());
        let r = entry.connection.close();
        self.events.push(SwarmEvent::ConnectionClosed { connection, peer: entry.peer });
        proof {
            let ids = before.connection_ids();
            assert(self.connection_ids() =~= ids.remove(i as int));
            assert(self.connection_peers() =~= before.connection_peers().remove(i as int));
            assert(self.all_open_streams() =~= before.all_open_streams().remove(i as int)) by {
                assert forall|m: int| 0 <= m < self.connection_ids().len() implies self.open_streams_of(m)
                    == before.all_open_streams().remove(i as int)[m] by {
                    if m < i {
                        assert(self.connections@[m] == before.connections@[m]);
                    } else {
                        assert(self.connections@[m] == before.connections@[m + 1]);
                    }
                }
            }
            assert(self.records() =~= before.records().remove(i as int));
            assert forall|a: int, b: int|
                0 <= a < b < self.connection_ids().len() implies self.connection_ids()[a] != self.connection_ids()[b] by {
                let a0 = if a < i { a } else { a + 1 };
                let b0 = if b < i { b } else { b + 1 };
                assert(ids[a0] != ids[b0]);
            }
            assert forall|m: int| 0 <= m < self.connections@.len() implies #[trigger] self.connections@[m].id < self.next_id
                && self.connections@[m].connection.well_formed() && !self.connections@[m].connection.is_closed() by {
                let m0 = if m < i { m } else { m + 1 };
                assert(before.connections@[m0].id < before.next_id);
                assert(before.connections@[m0].connection.well_formed());
                assert(!before.connections@[m0].connection.is_closed());
            }
            assert forall|d: u64| self.pending_dials@.contains(d) implies !#[trigger] self.connection_ids().contains(d) by {
                if self.connection_ids().contains(d) {
                    let m = choose|m: int| 0 <= m < self.connection_ids().len() && self.connection_ids()[m] == d;
                    let m0 = if m < i { m } else { m + 1 };
                    assert(ids[m0] == d);
                    assert(ids.contains(d));
                }
            }
            assert(self.queued() == before.queued().push(
                SwarmEvent::ConnectionClosed { connection, peer: before.connection_peers()[i as int] },
            ));
            assert(r@ == crate::connection::closing_events(before.open_streams_of(i as int)));
        }
        r
    }

    /// Hands the oldest queued event to the application, if there is one.
    pub fn next_event(&mut self) -> (r: Option<SwarmEvent>)
        requires
            old(self).well_formed(),
        ensures
            final(self).well_formed(),
            old(self).queued().len() == 0 ==> r is None && final(self).queued() == old(self).queued(),
            old(self).queued().len() > 0 ==> r == Some(old(self).queued()[0]) && final(self).queued() == old(
                self,
            ).queued().subrange(1, old(self).queued().len() as int),
            final(self).pending() == old(self).pending(),
            final(self).connection_ids() == old(self).connection_ids(),
            final(self).connection_peers() == old(self).connection_peers(),
    {
        if self.events.len() == 0 {
            None
        } else {
            let e = self.events.remove(0);
            assert(self.events@ =~= old(self).events@.subrange(1, old(self).events@.len() as int));
            Some(e)
        }
    }

    /// Hands the end of negotiation on stream `stream` to connection
    /// `connection`; what its handlers are to be told comes back. An unknown
    /// connection changes nothing. The connections stay as they are.
    pub fn on_stream_negotiated(
        &mut self,
        connection: u64,
        stream: u64,
        outcome: Result<StreamProtocol, NegotiationError>,
    ) -> (r: Option<HandlerEvent>)
        requires
            old(self).well_formed(),
        ensures
            final(self).well_formed(),
            final(self).pending() == old(self).pending(),
            final(self).connection_ids() == old(self).connection_ids(),
            final(self).connection_peers() == old(self).connection_peers(),
            final(self).queued() == old(self).queued(),
            !old(self).connection_ids().contains(connection) ==> r is None,
            forall|i: int|
                0 <= i < old(self).connection_ids().len() && old(self).connection_ids()[i] == connection ==> {
                    &&& Connection::accepts_stream(old(self).open_streams_of(i), stream, outcome) ==> r == Some(
                        HandlerEvent::StreamNegotiated { stream, protocol: outcome->Ok_0 },
                    ) && final(self).open_streams_of(i) == old(self).open_streams_of(i).push(stream)
                    &&& !Connection::accepts_stream(old(self).open_streams_of(i), stream, outcome) ==> r is None
                        && final(self).open_streams_of(i) == old(self).open_streams_of(i)
                },
    {
        let i = match self.connection_position(connection) {
            None => return None,
            Some(i) => i,
        };
        let ghost before = *self;
        let mut entry = self.connections.remove(i);
        let r = entry.connection.on_negotiated(stream, outcome);
        self.connections.insert(i, entry);
        proof {
            assert(self.connections@ =~= before.connections@.update(i as int, entry));
            assert(self.connection_ids() =~= before.connection_ids());
            assert(self.connection_peers() =~= before.connection_peers());
            assert forall|m: int| 0 <= m < self.connections@.len() implies #[trigger] self.connections@[m].id
                < self.next_id && self.connections@[m].connection.well_formed()
                && !self.connections@[m].connection.is_closed() by {
                if m != i {
                    assert(self.connections@[m] == before.connections@[m]);
                }
            }
            assert forall|m: int|
                0 <= m < before.connection_ids().len() && before.connection_ids()[m] == connection implies m
                == i by {
                if m != i {
                    assert(before.connection_ids()[m] != before.connection_ids()[i as int]);
                }
            }
        }
        r
    }

    /// Hands the closure of stream `stream` to connection `connection`; what
    /// its handlers are to be told comes back. An unknown connection or stream
    /// changes nothing. The connections stay as they are.
    pub fn on_stream_closed(&mut self, connection: u64, stream: u64) -> (r: Option<HandlerEvent>)
        requires
            old(self).well_formed(),
        ensures
            final(self).well_formed(),
            final(self).pending() == old(self).pending(),
            final(self).connection_ids() == old(self).connection_ids(),
            final(self).connection_peers() == old(self).connection_peers(),
            final(self).queued() == old(self).queued(),
            !old(self).connection_ids().contains(connection) ==> r is None,
            forall|i: int|
                0 <= i < old(self).connection_ids().len() && old(self).connection_ids()[i] == connection ==> {
                    &&& old(self).open_streams_of(i).contains(stream) ==> r == Some(
                        HandlerEvent::SubstreamClosed { stream },
                    ) && exists|j: int|
                        0 <= j < old(self).open_streams_of(i).len() && old(self).open_streams_of(i)[j] == stream
                            && final(self).open_streams_of(i) == old(self).open_streams_of(i).remove(j)
                    &&& !old(self).open_streams_of(i).contains(stream) ==> r is None && final(self).open_streams_of(i)
                        == old(self).open_streams_of(i)
                },
    {
        let i = match self.connection_position(connection) {
            None => return None,
            Some(i) => i,
        };
        let ghost before = *self;
        let mut entry = self.connections.remove(i);
        let r = entry.connection.on_stream_closed(stream);
        self.connections.insert(i, entry);
        proof {
            assert(self.connections@ =~= before.connections@.update(i as int, entry));
            assert(self.connection_ids() =~= before.connection_ids());
            assert(self.connection_peers() =~= before.connection_peers());
            assert forall|m: int| 0 <= m < self.connections@.len() implies #[trigger] self.connections@[m].id
                < self.next_id && self.connections@[m].connection.well_formed()
                && !self.connections@[m].connection.is_closed() by {
                if m != i {
                    assert(self.connections@[m] == before.connections@[m]);
                }
            }
            assert forall|m: int|
                0 <= m < before.connection_ids().len() && before.connection_ids()[m] == connection implies m
                == i by {
                if m != i {
                    assert(before.connection_ids()[m] != before.connection_ids()[i as int]);
                }
            }
        }
        r
    }

    /// Closes every connection, oldest first, with the same notifications as
    /// closing each one alone; returns what the handlers are told.
    pub fn shutdown(&mut self) -> (r: Vec<HandlerEvent>)
        requires
            old(self).well_formed(),
        ensures
            final(self).well_formed(),
            final(self).connection_ids().len() == 0,
            final(self).pending() == old(self).pending(),
            final(self).queued() == old(self).queued() + closed_reports(
                old(self).connection_ids(),
                old(self).connection_peers(),
            ),
            r@ == closing_all(old(self).all_open_streams()),
    {
        let ghost ids0 = self.connection_ids();
        let ghost peers0 = self.connection_peers();
        let ghost streams0 = self.all_open_streams();
        let ghost queued0 = self.queued();
        let mut r: Vec<HandlerEvent> = Vec::new();
        let ghost mut done: int = 0;
        while self.connections.len() > 0
            invariant
                self.well_formed(),
                self.pending() == old(self).pending(),
                0 <= done,
                done + self.connection_ids().len() == ids0.len(),
                self.connection_ids() == ids0.subrange(done, ids0.len() as int),
                self.connection_peers() == peers0.subrange(done, peers0.len() as int),
                self.all_open_streams() == streams0.subrange(done, streams0.len() as int),
                ids0.len() == peers0.len() && ids0.len() == streams0.len(),
                self.queued() == queued0 + closed_reports(ids0.take(done), peers0.take(done)),
                r@ + closing_all(self.all_open_streams()) == closing_all(streams0),
            decreases self.connections@.len(),
        {
            let ghost before = *self;
            let id = self.connections[0].id;
            assert(before.connection_ids()[0] == id);
            let mut events = self.close_connection(id);
            proof {
                let i = choose|i: int|
                    0 <= i < before.connection_ids().len() && before.connection_ids()[i] == id
                        && self.connection_ids() == before.connection_ids().remove(i)
                        && self.connection_peers() == before.connection_peers().remove(i)
                        && self.all_open_streams() == before.all_open_streams().remove(i)
                        && events@ == crate::connection::closing_events(before.open_streams_of(i))
                        && self.queued() == before.queued().push(
                        SwarmEvent::ConnectionClosed { connection: id, peer: before.connection_peers()[i] },
                    );
                if i != 0 {
                    assert(before.connection_ids()[i] != before.connection_ids()[0]);
                }
                assert(self.all_open_streams() =~= before.all_open_streams().drop_first());
                assert(closing_all(before.all_open_streams()) == events@ + closing_all(self.all_open_streams()));
                assert(ids0.take(done + 1) =~= ids0.take(done).push(id));
                assert(peers0.take(done + 1) =~= peers0.take(done).push(before.connection_peers()[0]));
                assert(closed_reports(ids0.take(done + 1), peers0.take(done + 1)) =~= closed_reports(
                    ids0.take(done),
                    peers0.take(done),
                ).push(SwarmEvent::ConnectionClosed { connection: id, peer: before.connection_peers()[0] }));
                assert(self.connection_ids() =~= ids0.subrange(done + 1, ids0.len() as int));
                assert(self.connection_peers() =~= peers0.subrange(done + 1, peers0.len() as int));
                assert(self.all_open_streams() =~= streams0.subrange(done + 1, streams0.len() as int));
            }
            let ghost r_before = r@;
            let ghost added = events@;
            r.append(&mut events);
            proof {
                assert(r@ + closing_all(self.all_open_streams()) =~= r_before + (added + closing_all(
                    self.all_open_streams(),
                )));
            }
            proof {
                done = done + 1;
            }
        }
        proof {
            assert(ids0.take(done) =~= ids0);
            assert(peers0.take(done) =~= peers0);
            assert(self.all_open_streams() =~= Seq::<Seq<u64>>::empty());
            assert(r@ =~= r@ + closing_all(self.all_open_streams()));
        }
        r
    }

    /// Closes every connection with `peer`, oldest first, with the same
    /// notifications as closing each one alone; the other connections stay,
    /// in their order. Returns what the handlers are told.
    pub fn disconnect(&mut self, peer: u64) -> (r: Vec<HandlerEvent>)
        requires
            old(self).well_formed(),
        ensures
            final(self).well_formed(),
            final(self).pending() == old(self).pending(),
            final(self).records() == old(self).records().filter(without_peer(peer)),
            final(self).queued() == old(self).queued() + closed_record_reports(
                old(self).records().filter(with_peer(peer)),
            ),
            r@ == closing_records(old(self).records().filter(with_peer(peer))),
    {
        let ghost recs0 = self.records();
        let ghost queued0 = self.queued();
        let mut r: Vec<HandlerEvent> = Vec::new();
        let mut k: usize = 0;
        let ghost mut j: int = 0;
        while k < self.connections.len()
            invariant
                self.well_formed(),
                self.pending() == old(self).pending(),
                0 <= j <= recs0.len(),
                k == recs0.take(j).filter(without_peer(peer)).len(),
                self.records() == recs0.take(j).filter(without_peer(peer)) + recs0.skip(j),
                self.queued() == queued0 + closed_record_reports(recs0.take(j).filter(with_peer(peer))),
                r@ == closing_records(recs0.take(j).filter(with_peer(peer))),
            decreases self.connections@.len() - k,
        {
            proof {
                reveal(Seq::filter);
                assert(self.records()[k as int] == recs0[j]);
                assert(recs0.take(j + 1).drop_last() =~= recs0.take(j));
                assert(recs0.take(j + 1).last() == recs0[j]);
            }
            if self.connections[k].peer == peer {
                let id = self.connections[k].id;
                let ghost before = *self;
                assert(before.records()[k as int].0 == id);
                assert(before.connection_ids()[k as int] == id);
                let mut events = self.close_connection(id);
                proof {
                    let i = choose|i: int|
                        0 <= i < before.connection_ids().len() && before.connection_ids()[i] == id
                            && self.records() == before.records().remove(i)
                            && before.records()[i] == (id, before.connection_peers()[i], before.open_streams_of(i))
                            && events@ == crate::connection::closing_events(before.open_streams_of(i))
                            && self.queued() == before.queued().push(
                            SwarmEvent::ConnectionClosed { connection: id, peer: before.connection_peers()[i] },
                        );
                    if i != k {
                        assert(before.connection_ids()[i] != before.connection_ids()[k as int]);
                    }
                    let kept = recs0.take(j).filter(without_peer(peer));
                    assert(self.records() =~= kept + recs0.skip(j + 1));
                    assert(recs0.take(j + 1).filter(without_peer(peer)) == kept);
                    let gone = recs0.take(j).filter(with_peer(peer));
                    assert(recs0.take(j + 1).filter(with_peer(peer)) == gone.push(recs0[j]));
                    assert(gone.push(recs0[j]).drop_last() =~= gone);
                    assert(closed_record_reports(gone.push(recs0[j])) =~= closed_record_reports(gone).push(
                        SwarmEvent::ConnectionClosed { connection: id, peer: before.connection_peers()[i] },
                    ));
                }
                r.append(&mut events);
                proof {
                    j = j + 1;
                }
            } else {
                proof {
                    let kept = recs0.take(j).filter(without_peer(peer));
                    assert(recs0.take(j + 1).filter(without_peer(peer)) == kept.push(recs0[j]));
                    assert(recs0.take(j + 1).filter(with_peer(peer)) == recs0.take(j).filter(with_peer(peer)));
                    assert(kept.push(recs0[j]) + recs0.skip(j + 1) =~= kept + recs0.skip(j));
                    j = j + 1;
                }
                k = k + 1;
            }
        }
        proof {
            assert(self.records().len() == k);
            assert(recs0.skip(j).len() == 0);
            assert(j == recs0.len());
            assert(recs0.take(j) =~= recs0);
            assert(self.records() =~= recs0.take(j).filter(without_peer(peer)));
        }
        r
    }

    /// Closes connection `connection` for idleness when it has been idle
    /// longer than the timeout and every sub-behaviour's vote, in `votes`,
    /// allows it; otherwise changes nothing. Returns what the handlers are told.
    pub fn close_if_idle(&mut self, connection: u64, idle_ms: u64, timeout_ms: u64, votes: &Vec<bool>) -> (r: Vec<
        HandlerEvent,
    >)
        requires
            old(self).well_formed(),
        ensures
            final(self).well_formed(),
            final(self).pending() == old(self).pending(),
            !idle_close_allowed(idle_ms, timeout_ms, votes@) ==> r@.len() == 0 && final(self).records() == old(
                self,
            ).records() && final(self).queued() == old(self).queued(),
            idle_close_allowed(idle_ms, timeout_ms, votes@) && old(self).connection_ids().contains(connection)
                ==> exists|i: int|
                0 <= i < old(self).connection_ids().len() && old(self).connection_ids()[i] == connection
                    && final(self).records() == old(self).records().remove(i)
                    && r@ == crate::connection::closing_events(old(self).open_streams_of(i))
                    && final(self).queued() == old(self).queued().push(
                    SwarmEvent::ConnectionClosed { connection, peer: old(self).connection_peers()[i] },
                ),
            idle_close_allowed(idle_ms, timeout_ms, votes@) && !old(self).connection_ids().contains(connection)
                ==> r@.len() == 0 && final(self).records() == old(self).records() && final(self).queued() == old(
                self,
            ).queued(),
    {
        if should_close_idle(idle_ms, timeout_ms, votes) {
            self.close_connection(connection)
        } else {
            Vec::new()
        }
    }
}

} // verus!

use crate::negotiation::NegotiationError;
use crate::protocol::StreamProtocol;
use vstd::prelude::*;

verus! {

/// A stream that negotiation has opened, with the protocol agreed on it.
#[derive(Debug)]
pub struct OpenStream {
    pub id: u64,
    pub protocol: StreamProtocol,
}

/// What a connection hands to its sub-behaviours' handlers.
#[derive(Debug)]
pub enum HandlerEvent {
    /// A stream reached the open state with the given protocol.
    StreamNegotiated { stream: u64, protocol: StreamProtocol },
    /// An open stream closed.
    SubstreamClosed { stream: u64 },
    /// The connection closed; nothing follows this event.
    ConnectionClosed,
}

/// The events that closing a connection with the given open streams delivers:
/// one closure per stream, in the order the streams were opened, then the
/// closure of the connection.
pub open spec fn closing_events(ids: Seq<u64>) -> Seq<HandlerEvent> {
    ids.map_values(|s: u64| HandlerEvent::SubstreamClosed { stream: s }).push(HandlerEvent::ConnectionClosed)
}

/// The outcome of a negotiation that took `elapsed_ms`: past the bound, the
/// stream fails with a timeout whatever the exchange produced.
pub fn bounded_outcome(outcome: Result<StreamProtocol, NegotiationError>, elapsed_ms: u64, timeout_ms: u64) -> (r:
    Result<StreamProtocol, NegotiationError>)
    ensures
        elapsed_ms > timeout_ms ==> r == Err::<StreamProtocol, NegotiationError>(
            NegotiationError::NegotiationTimeout,
        ),
        elapsed_ms <= timeout_ms ==> r == outcome,
{
    if elapsed_ms > timeout_ms {
        Err(NegotiationError::NegotiationTimeout)
    } else {
        outcome
    }
}

/// The stream bookkeeping of one established connection.
#[derive(Debug)]
pub struct Connection {
    streams: Vec<OpenStream>,
    closed: bool,
}

impl Connection {
    /// The identifiers of the open streams, in the order they opened.
    pub closed spec fn stream_ids(&self) -> Seq<u64> {
        self.streams@.map_values(|s: OpenStream| s.id)
    }

    /// The protocol negotiated on each open stream, in the same order.
    pub closed spec fn stream_protocols(&self) -> Seq<Seq<char>> {
        self.streams@.map_values(|s: OpenStream| s.protocol@)
    }

    pub closed spec fn is_closed(&self) -> bool {
        self.closed
    }

    /// Stream identifiers are unique, and a closed connection has no stream.
    pub closed spec fn well_formed(&self) -> bool {
        &&& self.stream_ids().no_duplicates()
        &&& self.closed ==> self.streams@.len() == 0
    }

    /// A connection with no open stream.
    pub fn new() -> (r: Connection)
        ensures
            r.stream_ids() == Seq::<u64>::empty(),
            !r.is_closed(),
            r.well_formed(),
    {
        let r = Connection { streams: Vec::new(), closed: false };
        assert(r.stream_ids() =~= Seq::<u64>::empty());
        r
    }

    /// Whether the connection has closed.
    pub fn closed(&self) -> (r: bool)
        ensures
            r == self.is_closed(),
    {
        self.closed
    }

    /// The number of open streams.
    pub fn open_streams(&self) -> (r: usize)
        ensures
            r == self.stream_ids().len(),
    {
        self.streams.len()
    }

    fn position(&self, stream: u64) -> (r: Option<usize>)
        ensures
            r matches Some(i) ==> i < self.stream_ids().len() && self.stream_ids()[i as int] == stream,
            r is None <==> !self.stream_ids().contains(stream),
    {
        let mut i: usize = 0;
        while i < self.streams.len()
            invariant
                i <= self.streams@.len(),
                forall|m: int| 0 <= m < i ==> self.stream_ids()[m] != stream,
            decreases self.streams@.len() - i,
        {
            if self.streams[i].id == stream {
                assert(self.stream_ids()[i as int] == stream);
                return Some(i);
            }
            i = i + 1;
        }
        None
    }

    /// A stream that negotiated `outcome` opens on `conn`: the connection is
    /// open, negotiation succeeded and the identifier is not in use.
    pub open spec fn accepts(conn: Connection, stream: u64, outcome: Result<StreamProtocol, NegotiationError>) -> bool {
        !conn.is_closed() && Self::accepts_stream(conn.stream_ids(), stream, outcome)
    }

    /// A stream that negotiated `outcome` opens on an open connection whose
    /// open streams are `ids`.
    pub open spec fn accepts_stream(ids: Seq<u64>, stream: u64, outcome: Result<StreamProtocol, NegotiationError>) -> bool {
        outcome is Ok && !ids.contains(stream)
    }

    /// Records the end of negotiation on stream `stream`.
    ///
    /// A stream whose negotiation failed never opens and leaves the others as
    /// they are; so does one whose identifier is already open, or any stream
    /// once the connection has closed.
    pub fn on_negotiated(&mut self, stream: u64, outcome: Result<StreamProtocol, NegotiationError>) -> (r: Option<
        HandlerEvent,
    >)
        requires
            old(self).well_formed(),
        ensures
            Self::accepts(*old(self), stream, outcome) ==> r == Some(
                HandlerEvent::StreamNegotiated { stream, protocol: outcome->Ok_0 },
            ),
            Self::accepts(*old(self), stream, outcome) ==> final(self).stream_ids() == old(self).stream_ids().push(
                stream,
            ),
            Self::accepts(*old(self), stream, outcome) ==> final(self).stream_protocols() == old(
                self,
            ).stream_protocols().push(outcome->Ok_0@),
            !Self::accepts(*old(self), stream, outcome) ==> r is None,
            !Self::accepts(*old(self), stream, outcome) ==> final(self).stream_ids() == old(self).stream_ids(),
            !Self::accepts(*old(self), stream, outcome) ==> final(self).stream_protocols() == old(
                self,
            ).stream_protocols(),
            final(self).is_closed() == old(self).is_closed(),
            final(self).well_formed(),
    {
        if self.closed {
            return None;
        }
        match outcome {
            Err(_) => None,
            Ok(protocol) => {
                if self.position(stream).is_some() {
                    return None;
                }
                let kept = protocol.clone();
                let ghost before = self.streams@;
                self.streams.push(OpenStream { id: stream, protocol: kept });
                proof {
                    assert(self.stream_ids() =~= before.map_values(|s: OpenStream| s.id).push(stream));
                    assert(self.stream_protocols() =~= before.map_values(|s: OpenStream| s.protocol@).push(
                        protocol@,
                    ));
                }
                Some(HandlerEvent::StreamNegotiated { stream, protocol })
            },
        }
    }

    /// Records that stream `stream` closed.
    pub fn on_stream_closed(&mut self, stream: u64) -> (r: Option<HandlerEvent>)
        requires
            old(self).well_formed(),
        ensures
            old(self).stream_ids().contains(stream) ==> r == Some(HandlerEvent::SubstreamClosed { stream })
                && exists|i: int|
                0 <= i < old(self).stream_ids().len() && old(self).stream_ids()[i] == stream
                    && final(self).stream_ids() == old(self).stream_ids().remove(i)
                    && final(self).stream_protocols() == old(self).stream_protocols().remove(i),
            !old(self).stream_ids().contains(stream) ==> r is None && final(self).stream_ids() == old(
                self,
            ).stream_ids() && final(self).stream_protocols() == old(self).stream_protocols(),
            final(self).is_closed() == old(self).is_closed(),
            final(self).well_formed(),
    {
        match self.position(stream) {
            None => None,
            Some(i) => {
                let ghost before = self.streams@;
                let _ = self.streams.remove(i);
                proof {
                    assert(self.stream_ids() =~= before.map_values(|s: OpenStream| s.id).remove(i as int));
                    assert(self.stream_protocols() =~= before.map_values(|s: OpenStream| s.protocol@).remove(
                        i as int,
                    ));
                    let ids = before.map_values(|s: OpenStream| s.id);
                    assert forall|a: int, b: int|
                        0 <= a < b < self.stream_ids().len() implies self.stream_ids()[a] != self.stream_ids()[b] by {
                        let a0 = if a < i { a } else { a + 1 };
                        let b0 = if b < i { b } else { b + 1 };
                        assert(ids[a0] != ids[b0]);
                    }
                }
                Some(HandlerEvent::SubstreamClosed { stream })
            },
        }
    }

    /// Closes the connection: every open stream is reported closed, in the
    /// order the streams opened, then the connection itself. A connection that
    /// has already closed reports nothing more.
    pub fn close(&mut self) -> (r: Vec<HandlerEvent>)
        requires
            old(self).well_formed(),
        ensures
            !old(self).is_closed() ==> r@ == closing_events(old(self).stream_ids()),
            old(self).is_closed() ==> r@.len() == 0,
            final(self).is_closed(),
            final(self).stream_ids().len() == 0,
            final(self).well_formed(),
    {
        let mut r: Vec<HandlerEvent> = Vec::new();
        if self.closed {
            return r;
        }
        let ghost ids = self.stream_ids();
        let mut i: usize = 0;
        while i < self.streams.len()
            invariant
                ids == self.stream_ids(),
                i <= ids.len(),
                r@ == ids.take(i as int).map_values(|s: u64| HandlerEvent::SubstreamClosed { stream: s }),
            decreases ids.len() - i,
        {
            r.push(HandlerEvent::SubstreamClosed { stream: self.streams[i].id });
            proof {
                assert(ids.take(i + 1) =~= ids.take(i as int).push(ids[i as int]));
                assert(r@ =~= ids.take(i + 1).map_values(|s: u64| HandlerEvent::SubstreamClosed { stream: s }));
            }
            i = i + 1;
        }
        r.push(HandlerEvent::ConnectionClosed);
        assert(ids.take(ids.len() as int) =~= ids);
        self.streams = Vec::new();
        self.closed = true;
        assert(self.stream_ids() =~= Seq::<u64>::empty());
        r
    }
}

/// Closing a connection whose open streams are `ids` reports each stream
/// closed exactly once, and the connection closed exactly once, last.
pub proof fn lemma_close_reports_each_stream_once(ids: Seq<u64>)
    requires
        ids.no_duplicates(),
    ensures
        closing_events(ids).len() == ids.len() + 1,
        closing_events(ids).last() == HandlerEvent::ConnectionClosed,
        forall|m: int| 0 <= m < ids.len() ==> closing_events(ids)[m] != HandlerEvent::ConnectionClosed,
        forall|s: u64|
            #![trigger ids.contains(s)]
            ids.contains(s) ==> exists|m: int|
                0 <= m < closing_events(ids).len() && closing_events(ids)[m] == (HandlerEvent::SubstreamClosed {
                    stream: s,
                }) && forall|n: int|
                    0 <= n < closing_events(ids).len() && #[trigger] closing_events(ids)[n] == (
                    HandlerEvent::SubstreamClosed { stream: s }) ==> n == m,
{
    let ev = closing_events(ids);
    assert forall|s: u64| #![trigger ids.contains(s)] ids.contains(s) implies exists|m: int|
        0 <= m < ev.len() && ev[m] == (HandlerEvent::SubstreamClosed { stream: s }) && forall|n: int|
            0 <= n < ev.len() && #[trigger] ev[n] == (HandlerEvent::SubstreamClosed { stream: s }) ==> n == m by {
        let m = choose|m: int| 0 <= m < ids.len() && ids[m] == s;
        assert(ev[m] == (HandlerEvent::SubstreamClosed { stream: s }));
        assert forall|n: int|
            0 <= n < ev.len() && #[trigger] ev[n] == (HandlerEvent::SubstreamClosed { stream: s }) implies n == m by {
            if n < ids.len() {
                assert(ev[n] == (HandlerEvent::SubstreamClosed { stream: ids[n] }));
            }
        }
    }
}

} // verus!

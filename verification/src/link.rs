//! A client and the echo endpoint, joined by a connection.
//!
//! The model puts the exchange of a client and the session of the endpoint
//! at the two ends of a pair of byte queues and lets them take turns in any
//! order the transport allows. It shows what the two state machines promise
//! each other: an exchange against the endpoint cannot fail, cannot stall,
//! and leaves the connection clean for the next one.

use crate::server::{EchoState, ServerAction};
use crate::wire::{is_sentinel_fill, sentinel_fill, ExchangeState, Transfer, BUFFER_SIZE};
use vstd::prelude::*;

verus! {

/// A connection with a client at one end and the echo endpoint at the other.
pub struct Link {
    /// The exchange the client is running.
    pub client: ExchangeState,
    /// The session of the endpoint.
    pub server: EchoState,
    /// Bytes the client has written and the endpoint has not read yet.
    pub upstream: Seq<u8>,
    /// Bytes the endpoint has written and the client has not read yet.
    pub downstream: Seq<u8>,
}

/// One successful read or write at either end, with the bytes it moved.
pub enum LinkStep {
    /// A write of the client took this many bytes.
    ClientWrites(nat),
    /// A read of the endpoint delivered this many bytes.
    ServerReads(nat),
    /// A write of the endpoint took this many bytes.
    ServerWrites(nat),
    /// A read of the client delivered this many bytes.
    ClientReads(nat),
}

impl Link {
    /// The endpoint has the header and owes nothing, and no byte is under
    /// way: the connection as it is after the handshake and between two
    /// exchanges.
    pub open spec fn idle(self) -> bool {
        &&& self.server.closed is None
        &&& self.server.message_size is Some
        &&& self.server.echoed == self.server.chunk.len() <= BUFFER_SIZE
        &&& self.upstream.len() == 0
        &&& self.downstream.len() == 0
    }

    /// Bytes of the current exchange that are under way or waiting to be
    /// echoed.
    pub open spec fn in_transit(self) -> nat {
        self.upstream.len() + self.server.unsent().len() + self.downstream.len()
    }

    /// The transport can perform this step now: the end that moves has asked
    /// for the transfer, at least one byte moves, no more than was asked for,
    /// and a read delivers no more than is there.
    pub open spec fn allows(self, step: LinkStep) -> bool {
        match step {
            LinkStep::ClientWrites(count) => self.client.next() matches Transfer::Write(len)
                && 0 < count <= len,
            LinkStep::ServerReads(count) => self.server.next() matches ServerAction::Read(limit)
                && 0 < count <= limit && count <= self.upstream.len(),
            LinkStep::ServerWrites(count) => self.server.next() matches ServerAction::Write {
                from,
                len,
            } && 0 < count <= len,
            LinkStep::ClientReads(count) => self.client.next() matches Transfer::Read(len) && 0
                < count <= len && count <= self.downstream.len(),
        }
    }

    /// The connection after the step.
    pub open spec fn step(self, step: LinkStep) -> Link {
        match step {
            LinkStep::ClientWrites(count) => Link {
                client: self.client.on_written(count),
                upstream: self.upstream + sentinel_fill(count),
                ..self
            },
            LinkStep::ServerReads(count) => Link {
                server: self.server.on_received(self.upstream.take(count as int)),
                upstream: self.upstream.skip(count as int),
                ..self
            },
            LinkStep::ServerWrites(count) => Link {
                server: self.server.on_written(count),
                downstream: self.downstream + self.server.chunk.subrange(
                    self.server.echoed as int,
                    (self.server.echoed + count) as int,
                ),
                ..self
            },
            LinkStep::ClientReads(count) => Link {
                client: self.client.on_received(self.downstream.take(count as int)),
                downstream: self.downstream.skip(count as int),
                ..self
            },
        }
    }

    /// The connection after a sequence of steps.
    pub open spec fn after(self, steps: Seq<LinkStep>) -> Link
        decreases steps.len(),
    {
        if steps.len() == 0 {
            self
        } else {
            self.after(steps.drop_last()).step(steps.last())
        }
    }

    /// Every step of the sequence is one the transport can perform when its
    /// turn comes.
    pub open spec fn admits(self, steps: Seq<LinkStep>) -> bool
        decreases steps.len(),
    {
        steps.len() > 0 ==> self.admits(steps.drop_last()) && self.after(
            steps.drop_last(),
        ).allows(steps.last())
    }

    /// Nothing can move any more.
    pub open spec fn quiescent(self) -> bool {
        forall|step: LinkStep| !self.allows(step)
    }
}

/// An exchange that starts on an idle connection to the echo endpoint never
/// fails and never closes the session, whatever the sizes and the order of
/// the reads and writes. Every step moves a byte forward, so after at most
/// four steps per payload byte nothing can move any more; by then the
/// exchange has succeeded and the connection is idle again, ready for the
/// next exchange.
pub proof fn lemma_exchange_with_echo_endpoint_succeeds(
    start: Link,
    size: nat,
    steps: Seq<LinkStep>,
)
    requires
        size <= usize::MAX,
        start.idle(),
        start.client == ExchangeState::begin(size),
        start.admits(steps),
    ensures
        ({
            let end = start.after(steps);
            &&& end.client.failure is None
            &&& end.server.closed is None
            &&& end.server.message_size == start.server.message_size
            &&& end.server.echoed <= end.server.chunk.len() <= BUFFER_SIZE
            &&& is_sentinel_fill(end.upstream)
            &&& is_sentinel_fill(end.server.unsent())
            &&& is_sentinel_fill(end.downstream)
            &&& end.client.to_receive == end.client.to_send + end.in_transit()
            &&& steps.len() + 4 * end.client.to_send + 3 * end.upstream.len() + 2
                * end.server.unsent().len() + end.downstream.len() <= 4 * size
            &&& end.quiescent() ==> end.client.succeeded() && end.idle()
        }),
    decreases steps.len(),
{
    if steps.len() == 0 {
        let end = start;
        assert(end.server.unsent() =~= Seq::<u8>::empty());
        if end.quiescent() {
            if end.client.to_send > 0 {
                assert(end.allows(LinkStep::ClientWrites(1)));
            }
        }
    } else {
        let earlier = steps.drop_last();
        lemma_exchange_with_echo_endpoint_succeeds(start, size, earlier);
        let before = start.after(earlier);
        let end = start.after(steps);
        assert(before.allows(steps.last()));
        match steps.last() {
            LinkStep::ClientWrites(count) => {
                assert(end.upstream.len() == before.upstream.len() + count);
            },
            LinkStep::ServerReads(count) => {
                assert(before.server.unsent() =~= Seq::<u8>::empty());
                assert(end.server.unsent() =~= before.upstream.take(count as int));
            },
            LinkStep::ServerWrites(count) => {
                let sent = before.server.chunk.subrange(
                    before.server.echoed as int,
                    (before.server.echoed + count) as int,
                );
                let (waiting, left) = (before.server.unsent(), end.server.unsent());
                assert(sent + left =~= waiting);
                assert forall|i: int| 0 <= i < sent.len() implies sent[i] == waiting[i] by {}
                assert forall|i: int| 0 <= i < left.len() implies left[i] == waiting[i + count]
                by {}
            },
            LinkStep::ClientReads(count) => {
                assert(is_sentinel_fill(before.downstream.take(count as int)));
            },
        }
        if end.quiescent() {
            if end.client.to_send > 0 {
                assert(end.allows(LinkStep::ClientWrites(1)));
            } else if end.server.unsent().len() > 0 {
                assert(end.allows(LinkStep::ServerWrites(1)));
            } else if end.upstream.len() > 0 {
                assert(end.allows(LinkStep::ServerReads(1)));
            } else if end.downstream.len() > 0 {
                assert(end.allows(LinkStep::ClientReads(1)));
            }
        }
    }
}

} // verus!

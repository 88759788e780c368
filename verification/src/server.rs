//! Byte-stream echo endpoint: the session of one accepted connection.
//!
//! The peer opens with the eight-byte size header; after that every byte that
//! comes in is written back unchanged and in order. The caller owns the
//! socket and the buffer, asks [`EchoSession::next`] what to do and hands the
//! result in.

use crate::error::IoFault;
use crate::wire::{be_value, header_size, BUFFER_SIZE};
use vstd::prelude::*;

verus! {

/// Why a session was closed.
#[derive(Clone, Copy, Debug, PartialEq, Eq, Structural)]
pub enum CloseReason {
    /// The peer ended the stream.
    PeerClosed,
    /// A read or a write broke down.
    Failed(IoFault),
}

/// What the caller does next for a session.
#[derive(Clone, Copy, Debug, PartialEq, Eq, Structural)]
pub enum ServerAction {
    /// Read exactly the eight header bytes and hand them in.
    ReadHeader,
    /// Read at most this many bytes into the start of the buffer and hand in
    /// what came.
    Read(usize),
    /// Offer `len` bytes of the buffer, starting at `from`, to one write and
    /// hand in how many it took.
    Write { from: usize, len: usize },
    /// Shut the connection down.
    Close(CloseReason),
}

/// What the transport did for a session.
pub enum ServerEvent {
    /// The header arrived.
    Header(Seq<u8>),
    /// A read delivered these bytes; none at all means the peer is gone.
    Received(Seq<u8>),
    /// A write took this many bytes.
    Wrote(nat),
    /// A read or a write reported an error.
    Failed,
}

/// Mathematical state of an echo session.
pub struct EchoState {
    /// The message size the peer announced, once the header is in.
    pub message_size: Option<nat>,
    /// The bytes of the latest read.
    pub chunk: Seq<u8>,
    /// How many of them have been written back.
    pub echoed: nat,
    /// Why the session is closed, once it is.
    pub closed: Option<CloseReason>,
}

impl EchoState {
    /// A session on a connection that was just accepted.
    pub open spec fn accepted() -> EchoState {
        EchoState { message_size: None, chunk: Seq::<u8>::empty(), echoed: 0, closed: None }
    }

    /// The bytes that were read and still have to be written back.
    pub open spec fn unsent(self) -> Seq<u8> {
        self.chunk.skip(self.echoed as int)
    }

    /// The same session, closed for `reason`.
    pub open spec fn close(self, reason: CloseReason) -> EchoState {
        EchoState { closed: Some(reason), ..self }
    }

    /// What the caller has to do next.
    pub open spec fn next(self) -> ServerAction {
        if self.closed is Some {
            ServerAction::Close(self.closed->0)
        } else if self.message_size is None {
            ServerAction::ReadHeader
        } else if self.echoed < self.chunk.len() {
            ServerAction::Write {
                from: self.echoed as usize,
                len: (self.chunk.len() - self.echoed) as usize,
            }
        } else {
            ServerAction::Read(BUFFER_SIZE)
        }
    }

    /// Effect of the header.
    pub open spec fn on_header(self, header: Seq<u8>) -> EchoState {
        if self.closed is Some {
            self
        } else if self.message_size is Some {
            self.close(CloseReason::Failed(IoFault::OutOfTurn))
        } else {
            EchoState { message_size: Some(be_value(header)), ..self }
        }
    }

    /// Effect of a read that delivered `chunk`.
    pub open spec fn on_received(self, chunk: Seq<u8>) -> EchoState {
        if self.closed is Some {
            self
        } else if self.message_size is None || self.echoed < self.chunk.len() {
            self.close(CloseReason::Failed(IoFault::OutOfTurn))
        } else if chunk.len() == 0 {
            self.close(CloseReason::PeerClosed)
        } else if chunk.len() > BUFFER_SIZE {
            self.close(CloseReason::Failed(IoFault::Overrun))
        } else {
            EchoState { chunk, echoed: 0, ..self }
        }
    }

    /// Effect of a write that took `count` bytes.
    pub open spec fn on_written(self, count: nat) -> EchoState {
        if self.closed is Some {
            self
        } else if self.echoed >= self.chunk.len() {
            self.close(CloseReason::Failed(IoFault::OutOfTurn))
        } else if count == 0 {
            self.close(CloseReason::Failed(IoFault::WriteStalled))
        } else if count > self.chunk.len() - self.echoed {
            self.close(CloseReason::Failed(IoFault::Overrun))
        } else {
            EchoState { echoed: self.echoed + count, ..self }
        }
    }

    /// Effect of a read or write that reported an error.
    pub open spec fn on_io_failure(self) -> EchoState {
        if self.closed is Some {
            self
        } else {
            self.close(CloseReason::Failed(IoFault::Broken))
        }
    }

    /// Effect of one event.
    pub open spec fn step(self, event: ServerEvent) -> EchoState {
        match event {
            ServerEvent::Header(header) => self.on_header(header),
            ServerEvent::Received(chunk) => self.on_received(chunk),
            ServerEvent::Wrote(count) => self.on_written(count),
            ServerEvent::Failed => self.on_io_failure(),
        }
    }

    /// State after a sequence of events.
    pub open spec fn after(self, events: Seq<ServerEvent>) -> EchoState
        decreases events.len(),
    {
        if events.len() == 0 {
            self
        } else {
            self.after(events.drop_last()).step(events.last())
        }
    }

    /// The payload bytes this event brings in, if the session takes them.
    pub open spec fn taken_in(self, event: ServerEvent) -> Seq<u8> {
        match event {
            ServerEvent::Received(chunk) => if self.step(event).closed is None {
                chunk
            } else {
                Seq::<u8>::empty()
            },
            _ => Seq::<u8>::empty(),
        }
    }

    /// The bytes this event sends back, if the session asked for the write.
    pub open spec fn sent_back(self, event: ServerEvent) -> Seq<u8> {
        match event {
            ServerEvent::Wrote(count) => if self.step(event).closed is None {
                self.chunk.subrange(self.echoed as int, (self.echoed + count) as int)
            } else {
                Seq::<u8>::empty()
            },
            _ => Seq::<u8>::empty(),
        }
    }

    /// All payload bytes taken in over a sequence of events.
    pub open spec fn received(self, events: Seq<ServerEvent>) -> Seq<u8>
        decreases events.len(),
    {
        if events.len() == 0 {
            Seq::<u8>::empty()
        } else {
            self.received(events.drop_last()) + self.after(events.drop_last()).taken_in(
                events.last(),
            )
        }
    }

    /// All bytes sent back over a sequence of events.
    pub open spec fn echoed_back(self, events: Seq<ServerEvent>) -> Seq<u8>
        decreases events.len(),
    {
        if events.len() == 0 {
            Seq::<u8>::empty()
        } else {
            self.echoed_back(events.drop_last()) + self.after(events.drop_last()).sent_back(
                events.last(),
            )
        }
    }
}

/// What a session has sent back is, byte for byte and in order, what it has
/// taken in, less the bytes of the latest read that are still waiting: the
/// echo never alters, drops, repeats or reorders a byte.
pub proof fn lemma_echo_tracks_input(events: Seq<ServerEvent>)
    ensures
        ({
            let start = EchoState::accepted();
            let end = start.after(events);
            &&& end.echoed <= end.chunk.len() <= BUFFER_SIZE
            &&& start.echoed_back(events) + end.unsent() == start.received(events)
        }),
    decreases events.len(),
{
    let start = EchoState::accepted();
    if events.len() == 0 {
        assert(start.echoed_back(events) + start.unsent() =~= start.received(events));
    } else {
        let earlier = events.drop_last();
        lemma_echo_tracks_input(earlier);
        let before = start.after(earlier);
        let end = start.after(events);
        assert(start.echoed_back(events) + end.unsent() =~= start.received(events)) by {
            assert(start.echoed_back(earlier) + before.unsent() == start.received(earlier));
            if before.taken_in(events.last()).len() > 0 {
                assert(before.unsent() =~= Seq::<u8>::empty());
                assert(end.unsent() =~= before.taken_in(events.last()));
            } else if before.sent_back(events.last()).len() > 0 {
                assert(before.sent_back(events.last()) + end.unsent() =~= before.unsent());
            } else {
                assert(end.unsent() =~= before.unsent());
            }
        }
    }
}

/// Session of one connection of the echo endpoint.
pub struct EchoSession {
    message_size: Option<u64>,
    filled: usize,
    echoed: usize,
    closed: Option<CloseReason>,
    chunk: Ghost<Seq<u8>>,
}

impl View for EchoSession {
    type V = EchoState;

    closed spec fn view(&self) -> EchoState {
        EchoState {
            message_size: match self.message_size {
                Some(size) => Some(size as nat),
                None => None,
            },
            chunk: self.chunk@,
            echoed: self.echoed as nat,
            closed: self.closed,
        }
    }
}

impl EchoSession {
    #[verifier::type_invariant]
    spec fn consistent(self) -> bool {
        self.filled == self.chunk@.len() && self.echoed <= self.filled
    }

    /// The session of a connection that was just accepted.
    pub fn accept() -> (session: EchoSession)
        ensures
            session@ == EchoState::accepted(),
    {
        EchoSession {
            message_size: None,
            filled: 0,
            echoed: 0,
            closed: None,
            chunk: Ghost(Seq::<u8>::empty()),
        }
    }

    /// The message size the peer announced, once the header is in.
    pub fn message_size(&self) -> (size: Option<u64>)
        ensures
            size is Some <==> self@.message_size is Some,
            size matches Some(n) ==> self@.message_size == Some(n as nat),
    {
        self.message_size
    }

    /// What to do next.
    pub fn next(&self) -> (action: ServerAction)
        ensures
            action == self@.next(),
            action matches ServerAction::Write { from, len } ==> len > 0 && from + len
                == self@.chunk.len(),
    {
        proof {
            use_type_invariant(self);
        }
        if let Some(reason) = self.closed {
            ServerAction::Close(reason)
        } else if self.message_size.is_none() {
            ServerAction::ReadHeader
        } else if self.echoed < self.filled {
            ServerAction::Write { from: self.echoed, len: self.filled - self.echoed }
        } else {
            ServerAction::Read(BUFFER_SIZE)
        }
    }

    /// Hands in the header.
    pub fn header(&mut self, header: &[u8; 8])
        ensures
            final(self)@ == old(self)@.on_header(header@),
    {
        proof {
            use_type_invariant(&*self);
        }
        if self.closed.is_some() {
            return ;
        }
        if self.message_size.is_some() {
            self.closed = Some(CloseReason::Failed(IoFault::OutOfTurn));
        } else {
            self.message_size = Some(header_size(header));
        }
    }

    /// Hands in the bytes that a read delivered; an empty `chunk` says that
    /// the peer has ended the stream.
    pub fn received(&mut self, chunk: &[u8])
        ensures
            final(self)@ == old(self)@.on_received(chunk@),
    {
        proof {
            use_type_invariant(&*self);
        }
        if self.closed.is_some() {
            return ;
        }
        if self.message_size.is_none() || self.echoed < self.filled {
            self.closed = Some(CloseReason::Failed(IoFault::OutOfTurn));
        } else if chunk.len() == 0 {
            self.closed = Some(CloseReason::PeerClosed);
        } else if chunk.len() > BUFFER_SIZE {
            self.closed = Some(CloseReason::Failed(IoFault::Overrun));
        } else {
            *self = EchoSession {
                message_size: self.message_size,
                filled: chunk.len(),
                echoed: 0,
                closed: None,
                chunk: Ghost(chunk@),
            };
        }
    }

    /// Hands in that a write took `count` bytes.
    pub fn wrote(&mut self, count: usize)
        ensures
            final(self)@ == old(self)@.on_written(count as nat),
    {
        proof {
            use_type_invariant(&*self);
        }
        if self.closed.is_some() {
            return ;
        }
        if self.echoed >= self.filled {
            self.closed = Some(CloseReason::Failed(IoFault::OutOfTurn));
        } else if count == 0 {
            self.closed = Some(CloseReason::Failed(IoFault::WriteStalled));
        } else if count > self.filled - self.echoed {
            self.closed = Some(CloseReason::Failed(IoFault::Overrun));
        } else {
            self.echoed = self.echoed + count;
        }
    }

    /// Hands in that a read or a write reported an error.
    pub fn io_failed(&mut self)
        ensures
            final(self)@ == old(self)@.on_io_failure(),
    {
        proof {
            use_type_invariant(&*self);
        }
        if self.closed.is_none() {
            self.closed = Some(CloseReason::Failed(IoFault::Broken));
        }
    }
}

} // verus!

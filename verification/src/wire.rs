//! Byte-stream transport: payload pattern, size handshake and the exchange
//! state machine.

use crate::error::{ExchangeError, IoFault, Mismatch};
use vstd::prelude::*;

verus! {

/// Value of every payload byte.
pub const SENTINEL: u8 = 42;

/// Upper bound on the bytes moved by a single read or write.
pub const BUFFER_SIZE: usize = 65536;

/// Every byte of `bytes` is the sentinel.
pub open spec fn is_sentinel_fill(bytes: Seq<u8>) -> bool {
    forall|i: int| 0 <= i < bytes.len() ==> bytes[i] == SENTINEL
}

/// The payload of `len` sentinel bytes.
pub open spec fn sentinel_fill(len: nat) -> Seq<u8> {
    Seq::new(len, |i: int| SENTINEL)
}

/// Number of bytes to move next when `remaining` bytes are outstanding.
pub open spec fn chunk_len(remaining: nat) -> nat {
    if remaining <= BUFFER_SIZE {
        remaining
    } else {
        BUFFER_SIZE as nat
    }
}

/// Size of the next transfer: what is outstanding, capped by the buffer.
pub fn next_chunk_len(remaining: usize) -> (len: usize)
    ensures
        len == chunk_len(remaining as nat),
{
    if remaining <= BUFFER_SIZE {
        remaining
    } else {
        BUFFER_SIZE
    }
}

/// Length of the longest prefix of `bytes` that holds only sentinel bytes.
pub open spec fn sentinel_prefix_len(bytes: Seq<u8>) -> nat
    decreases bytes.len(),
{
    if bytes.len() > 0 && bytes[0] == SENTINEL {
        1 + sentinel_prefix_len(bytes.drop_first())
    } else {
        0
    }
}

/// The sentinel prefix ends at the first other byte, or covers all of `bytes`
/// when there is none.
pub proof fn lemma_sentinel_prefix(bytes: Seq<u8>)
    ensures
        sentinel_prefix_len(bytes) <= bytes.len(),
        is_sentinel_fill(bytes.take(sentinel_prefix_len(bytes) as int)),
        sentinel_prefix_len(bytes) < bytes.len() ==> bytes[sentinel_prefix_len(bytes) as int]
            != SENTINEL,
        is_sentinel_fill(bytes) <==> sentinel_prefix_len(bytes) == bytes.len(),
    decreases bytes.len(),
{
    if bytes.len() > 0 && bytes[0] == SENTINEL {
        let rest = bytes.drop_first();
        lemma_sentinel_prefix(rest);
        let n = sentinel_prefix_len(rest) as int;
        let head = bytes.take(n + 1);
        assert forall|i: int| 0 <= i < head.len() implies head[i] == SENTINEL by {
            if i > 0 {
                assert(head[i] == rest.take(n)[i - 1]);
            }
        }
        if n < rest.len() {
            assert(bytes[n + 1] == rest[n]);
        }
        if is_sentinel_fill(bytes) {
            assert forall|i: int| 0 <= i < rest.len() implies rest[i] == SENTINEL by {
                assert(rest[i] == bytes[i + 1]);
            }
        }
        if n == rest.len() {
            assert(bytes.take(n + 1) =~= bytes);
        }
    } else if bytes.len() > 0 {
        assert(!is_sentinel_fill(bytes));
    }
}

/// Index of the first byte of `chunk` that is not the sentinel.
pub fn first_mismatch(chunk: &[u8]) -> (found: Option<usize>)
    ensures
        found == if is_sentinel_fill(chunk@) {
            None
        } else {
            Some(sentinel_prefix_len(chunk@) as usize)
        },
        found matches Some(i) ==> {
            &&& i == sentinel_prefix_len(chunk@)
            &&& i < chunk@.len()
            &&& chunk@[i as int] != SENTINEL
            &&& is_sentinel_fill(chunk@.take(i as int))
        },
{
    let mut i: usize = 0;
    assert(chunk@.skip(0) =~= chunk@);
    while i < chunk.len()
        invariant
            i <= chunk@.len(),
            sentinel_prefix_len(chunk@) == i + sentinel_prefix_len(chunk@.skip(i as int)),
        decreases chunk@.len() - i,
    {
        assert(chunk@.skip(i as int)[0] == chunk@[i as int]);
        if chunk[i] != SENTINEL {
            proof {
                lemma_sentinel_prefix(chunk@);
            }
            return Some(i);
        }
        assert(chunk@.skip(i as int).drop_first() =~= chunk@.skip(i + 1));
        i += 1;
    }
    proof {
        lemma_sentinel_prefix(chunk@);
    }
    None
}

/// The payload of a request: `size` sentinel bytes.
pub fn sentinel_payload(size: usize) -> (payload: Vec<u8>)
    ensures
        payload@ == sentinel_fill(size as nat),
{
    let payload = vec![SENTINEL; size];
    assert(payload@ =~= sentinel_fill(size as nat));
    payload
}

/// Number of bytes of the size header that opens a session.
pub const HEADER_LEN: usize = 8;

/// The number that `bytes` spell in base 256, most significant byte first.
pub open spec fn be_value(bytes: Seq<u8>) -> nat
    decreases bytes.len(),
{
    if bytes.len() == 0 {
        0
    } else {
        be_value(bytes.drop_last()) * 256 + bytes.last() as nat
    }
}

/// The `width` low-order base-256 digits of `value`, most significant first.
pub open spec fn be_bytes(value: nat, width: nat) -> Seq<u8>
    decreases width,
{
    if width == 0 {
        Seq::<u8>::empty()
    } else {
        be_bytes(value / 256, (width - 1) as nat).push((value % 256) as u8)
    }
}

/// Number of values that `width` bytes can spell.
pub open spec fn radix(width: nat) -> nat
    decreases width,
{
    if width == 0 {
        1
    } else {
        256 * radix((width - 1) as nat)
    }
}

/// Decoding undoes encoding for every value that fits the width.
pub proof fn lemma_decode_encode(value: nat, width: nat)
    requires
        value < radix(width),
    ensures
        be_bytes(value, width).len() == width,
        be_value(be_bytes(value, width)) == value,
    decreases width,
{
    if width > 0 {
        lemma_decode_encode(value / 256, (width - 1) as nat);
        assert(be_bytes(value, width).drop_last() =~= be_bytes(value / 256, (width - 1) as nat));
    }
}

/// Encoding undoes decoding.
pub proof fn lemma_encode_decode(bytes: Seq<u8>)
    ensures
        be_value(bytes) < radix(bytes.len()),
        be_bytes(be_value(bytes), bytes.len()) == bytes,
    decreases bytes.len(),
{
    if bytes.len() > 0 {
        lemma_encode_decode(bytes.drop_last());
        assert(be_bytes(be_value(bytes), bytes.len()) =~= bytes);
    }
}

/// Both ends of a session agree on the message size: every size that fits
/// 64 bits is what its header announces, and every eight bytes are the header
/// of the size they announce.
pub proof fn lemma_header_round_trip(size: u64, header: Seq<u8>)
    requires
        header.len() == HEADER_LEN,
    ensures
        be_bytes(size as nat, HEADER_LEN as nat).len() == HEADER_LEN,
        be_value(be_bytes(size as nat, HEADER_LEN as nat)) == size,
        be_value(header) <= u64::MAX,
        be_bytes(be_value(header), HEADER_LEN as nat) == header,
{
    reveal_with_fuel(radix, 9);
    lemma_decode_encode(size as nat, 8);
    lemma_encode_decode(header);
}

/// The header that announces a message size: its eight bytes, big-endian.
pub fn size_header(size: u64) -> (header: [u8; 8])
    ensures
        header@ == be_bytes(size as nat, 8),
        be_value(header@) == size,
{
    let b7: u8 = (size % 256) as u8;
    let r6: u64 = size / 256;
    let b6: u8 = (r6 % 256) as u8;
    let r5: u64 = r6 / 256;
    let b5: u8 = (r5 % 256) as u8;
    let r4: u64 = r5 / 256;
    let b4: u8 = (r4 % 256) as u8;
    let r3: u64 = r4 / 256;
    let b3: u8 = (r3 % 256) as u8;
    let r2: u64 = r3 / 256;
    let b2: u8 = (r2 % 256) as u8;
    let r1: u64 = r2 / 256;
    let b1: u8 = (r1 % 256) as u8;
    let r0: u64 = r1 / 256;
    let b0: u8 = (r0 % 256) as u8;
    let header = [b0, b1, b2, b3, b4, b5, b6, b7];
    proof {
        reveal_with_fuel(be_bytes, 9);
        reveal_with_fuel(radix, 9);
        assert(header@ =~= be_bytes(size as nat, 8));
        lemma_decode_encode(size as nat, 8);
    }
    header
}

/// The message size that a header announces.
pub fn header_size(header: &[u8; 8]) -> (size: u64)
    ensures
        size == be_value(header@),
        header@ == be_bytes(size as nat, 8),
{
    let v0: u64 = header[0] as u64;
    let v1: u64 = v0 * 256 + header[1] as u64;
    let v2: u64 = v1 * 256 + header[2] as u64;
    let v3: u64 = v2 * 256 + header[3] as u64;
    let v4: u64 = v3 * 256 + header[4] as u64;
    let v5: u64 = v4 * 256 + header[5] as u64;
    let v6: u64 = v5 * 256 + header[6] as u64;
    let v7: u64 = v6 * 256 + header[7] as u64;
    proof {
        let s = header@;
        assert(s.take(1).drop_last() =~= Seq::<u8>::empty());
        assert(s.take(2).drop_last() =~= s.take(1));
        assert(s.take(3).drop_last() =~= s.take(2));
        assert(s.take(4).drop_last() =~= s.take(3));
        assert(s.take(5).drop_last() =~= s.take(4));
        assert(s.take(6).drop_last() =~= s.take(5));
        assert(s.take(7).drop_last() =~= s.take(6));
        assert(s.drop_last() =~= s.take(7));
        assert(be_value(Seq::<u8>::empty()) == 0);
        assert(be_value(s.take(1)) == v0);
        assert(be_value(s.take(2)) == v1);
        assert(be_value(s.take(3)) == v2);
        assert(be_value(s.take(4)) == v3);
        assert(be_value(s.take(5)) == v4);
        assert(be_value(s.take(6)) == v5);
        assert(be_value(s.take(7)) == v6);
        lemma_encode_decode(s);
    }
    v7
}

/// What the caller does next for an exchange.
#[derive(Clone, Copy, Debug, PartialEq, Eq, Structural)]
pub enum Transfer {
    /// Offer this many sentinel bytes to one write and hand in how many it
    /// took.
    Write(usize),
    /// Read at most this many bytes and hand in what came.
    Read(usize),
    /// Nothing: every byte went out and came back as it was sent.
    Succeeded,
    /// Nothing: the exchange failed with this error.
    Failed(ExchangeError),
}

/// What the transport did for an exchange.
pub enum WireEvent {
    /// A write took this many bytes.
    Wrote(nat),
    /// A read delivered these bytes; none at all means the stream has ended.
    Received(Seq<u8>),
    /// A read or a write reported an error.
    Failed,
}

/// Mathematical state of an exchange.
pub struct ExchangeState {
    /// Payload size in bytes.
    pub size: nat,
    /// Bytes of the request that still have to be written.
    pub to_send: nat,
    /// Bytes of the response that still have to come back.
    pub to_receive: nat,
    /// Why the exchange failed, once it has.
    pub failure: Option<ExchangeError>,
}

impl ExchangeState {
    /// An exchange of `size` bytes of which nothing has been written.
    pub open spec fn begin(size: nat) -> ExchangeState {
        ExchangeState { size, to_send: size, to_receive: size, failure: None }
    }

    /// Every byte went out and came back as it was sent.
    pub open spec fn succeeded(self) -> bool {
        self.failure is None && self.to_send == 0 && self.to_receive == 0
    }

    /// The same exchange, failed for `error`.
    pub open spec fn fail(self, error: ExchangeError) -> ExchangeState {
        ExchangeState { failure: Some(error), ..self }
    }

    /// What the caller has to do next.
    pub open spec fn next(self) -> Transfer {
        if self.failure is Some {
            Transfer::Failed(self.failure->0)
        } else if self.to_send > 0 {
            Transfer::Write(chunk_len(self.to_send) as usize)
        } else if self.to_receive > 0 {
            Transfer::Read(chunk_len(self.to_receive) as usize)
        } else {
            Transfer::Succeeded
        }
    }

    /// Effect of a write that took `count` bytes.
    pub open spec fn on_written(self, count: nat) -> ExchangeState {
        if self.failure is Some {
            self
        } else if self.to_send == 0 {
            self.fail(ExchangeError::Io(IoFault::OutOfTurn))
        } else if count == 0 {
            self.fail(ExchangeError::Io(IoFault::WriteStalled))
        } else if count > chunk_len(self.to_send) {
            self.fail(ExchangeError::Io(IoFault::Overrun))
        } else {
            ExchangeState { to_send: (self.to_send - count) as nat, ..self }
        }
    }

    /// Effect of a read that delivered `chunk`.
    pub open spec fn on_received(self, chunk: Seq<u8>) -> ExchangeState {
        if self.failure is Some {
            self
        } else if self.to_send > 0 || self.to_receive == 0 {
            self.fail(ExchangeError::Io(IoFault::OutOfTurn))
        } else if chunk.len() == 0 {
            self.fail(ExchangeError::Io(IoFault::EndOfStream))
        } else if chunk.len() > chunk_len(self.to_receive) {
            self.fail(ExchangeError::Io(IoFault::Overrun))
        } else if !is_sentinel_fill(chunk) {
            self.fail(
                ExchangeError::Verification(
                    Mismatch::WrongByte {
                        offset: (self.size - self.to_receive + sentinel_prefix_len(chunk)) as usize,
                        found: chunk[sentinel_prefix_len(chunk) as int],
                    },
                ),
            )
        } else {
            ExchangeState { to_receive: (self.to_receive - chunk.len()) as nat, ..self }
        }
    }

    /// Effect of a read or write that reported an error.
    pub open spec fn on_io_failure(self) -> ExchangeState {
        if self.failure is Some {
            self
        } else if self.to_send == 0 && self.to_receive == 0 {
            self.fail(ExchangeError::Io(IoFault::OutOfTurn))
        } else {
            self.fail(ExchangeError::Io(IoFault::Broken))
        }
    }

    /// Effect of one event.
    pub open spec fn step(self, event: WireEvent) -> ExchangeState {
        match event {
            WireEvent::Wrote(count) => self.on_written(count),
            WireEvent::Received(chunk) => self.on_received(chunk),
            WireEvent::Failed => self.on_io_failure(),
        }
    }

    /// State after a sequence of events.
    pub open spec fn after(self, events: Seq<WireEvent>) -> ExchangeState
        decreases events.len(),
    {
        if events.len() == 0 {
            self
        } else {
            self.after(events.drop_last()).step(events.last())
        }
    }

    /// The event is what a working transport and a faithful echo hand in for
    /// the transfer this state asks for: a write takes at least one byte and
    /// no more than offered, a read delivers at least one byte, no more than
    /// asked for, and only bytes that were sent.
    pub open spec fn is_answered_by(self, event: WireEvent) -> bool {
        match self.next() {
            Transfer::Write(len) => event matches WireEvent::Wrote(count) && 0 < count <= len,
            Transfer::Read(len) => event matches WireEvent::Received(chunk) && 0 < chunk.len()
                <= len && is_sentinel_fill(chunk),
            Transfer::Succeeded => false,
            Transfer::Failed(_) => false,
        }
    }
}

/// Bytes taken by the writes of `events`.
pub open spec fn bytes_written(events: Seq<WireEvent>) -> nat
    decreases events.len(),
{
    if events.len() == 0 {
        0
    } else {
        bytes_written(events.drop_last()) + match events.last() {
            WireEvent::Wrote(count) => count,
            _ => 0,
        }
    }
}

/// Bytes delivered by the reads of `events`, in order.
pub open spec fn bytes_received(events: Seq<WireEvent>) -> Seq<u8>
    decreases events.len(),
{
    if events.len() == 0 {
        Seq::<u8>::empty()
    } else {
        bytes_received(events.drop_last()) + match events.last() {
            WireEvent::Received(chunk) => chunk,
            _ => Seq::<u8>::empty(),
        }
    }
}

/// Every event of `events` answers the transfer that was asked for before it.
pub open spec fn faithfully_answered(size: nat, events: Seq<WireEvent>) -> bool
    decreases events.len(),
{
    events.len() > 0 ==> faithfully_answered(size, events.drop_last()) && ExchangeState::begin(
        size,
    ).after(events.drop_last()).is_answered_by(events.last())
}

/// While an exchange has not failed, what was written and what is still to
/// send add up to its size, and so do what came back and what is still to
/// come; everything that came back is sentinel bytes.
pub proof fn lemma_exchange_accounts(size: nat, events: Seq<WireEvent>)
    requires
        size <= usize::MAX,
    ensures
        ({
            let end = ExchangeState::begin(size).after(events);
            &&& end.size == size
            &&& end.failure is None ==> {
                &&& end.to_send + bytes_written(events) == size
                &&& end.to_receive + bytes_received(events).len() == size
                &&& is_sentinel_fill(bytes_received(events))
            }
        }),
    decreases events.len(),
{
    if events.len() > 0 {
        lemma_exchange_accounts(size, events.drop_last());
    }
}

/// A failure is final: later events neither clear nor replace it.
pub proof fn lemma_failure_is_final(
    start: ExchangeState,
    earlier: Seq<WireEvent>,
    later: Seq<WireEvent>,
)
    requires
        start.after(earlier).failure is Some,
    ensures
        start.after(earlier + later) == start.after(earlier),
    decreases later.len(),
{
    if later.len() == 0 {
        assert(earlier + later =~= earlier);
    } else {
        lemma_failure_is_final(start, earlier, later.drop_last());
        assert((earlier + later).drop_last() =~= earlier + later.drop_last());
        assert((earlier + later).last() == later.last());
    }
}

/// An exchange succeeds only if exactly `size` bytes were written and exactly
/// the `size` sentinel bytes came back: a response that is short, long or
/// wrong in any byte never passes.
pub proof fn lemma_success_is_exact(size: nat, events: Seq<WireEvent>)
    requires
        size <= usize::MAX,
        ExchangeState::begin(size).after(events).succeeded(),
    ensures
        bytes_written(events) == size,
        bytes_received(events) == sentinel_fill(size),
{
    lemma_exchange_accounts(size, events);
    assert(bytes_received(events) =~= sentinel_fill(size));
}

/// A response with a byte that is not the sentinel fails the exchange.
pub proof fn lemma_corruption_fails(size: nat, events: Seq<WireEvent>, at: int)
    requires
        size <= usize::MAX,
        0 <= at < bytes_received(events).len(),
        bytes_received(events)[at] != SENTINEL,
    ensures
        ExchangeState::begin(size).after(events).failure is Some,
{
    lemma_exchange_accounts(size, events);
}

/// A response that ends before `size` bytes have come back fails the
/// exchange with an I/O error at the read that finds the stream closed.
pub proof fn lemma_truncation_fails(size: nat, events: Seq<WireEvent>)
    requires
        size <= usize::MAX,
        bytes_written(events) == size,
        bytes_received(events).len() < size,
        ExchangeState::begin(size).after(events).failure is None,
    ensures
        !ExchangeState::begin(size).after(events).succeeded(),
        ExchangeState::begin(size).after(events).step(
            WireEvent::Received(Seq::<u8>::empty()),
        ).failure == Some(ExchangeError::Io(IoFault::EndOfStream)),
{
    lemma_exchange_accounts(size, events);
}

/// Whatever the transport does, an echo that returns only bytes that were
/// sent never makes an exchange fail verification.
pub proof fn lemma_faithful_echo_passes_verification(size: nat, events: Seq<WireEvent>)
    requires
        forall|i: int|
            0 <= i < events.len() ==> (#[trigger] events[i] matches WireEvent::Received(chunk)
                ==> is_sentinel_fill(chunk)),
    ensures
        !(ExchangeState::begin(size).after(events).failure matches Some(
            ExchangeError::Verification(_),
        )),
    decreases events.len(),
{
    if events.len() > 0 {
        let earlier = events.drop_last();
        assert forall|i: int| 0 <= i < earlier.len() implies (#[trigger] earlier[i] matches
            WireEvent::Received(chunk) ==> is_sentinel_fill(chunk)) by {
            assert(earlier[i] == events[i]);
        }
        lemma_faithful_echo_passes_verification(size, earlier);
        assert(events.last() == events[events.len() - 1]);
    }
}

/// Against a working transport and a faithful echo an exchange never fails,
/// and every answer moves at least one byte: after at most `2 * size`
/// answers nothing is outstanding and the exchange has succeeded.
pub proof fn lemma_faithful_echo_completes(size: nat, events: Seq<WireEvent>)
    requires
        size <= usize::MAX,
        faithfully_answered(size, events),
    ensures
        ({
            let end = ExchangeState::begin(size).after(events);
            &&& end.failure is None
            &&& events.len() + end.to_send + end.to_receive <= 2 * size
            &&& events.len() == 2 * size ==> end.succeeded()
            &&& !end.succeeded() ==> end.next() is Write || end.next() is Read
        }),
    decreases events.len(),
{
    if events.len() > 0 {
        lemma_faithful_echo_completes(size, events.drop_last());
        lemma_exchange_accounts(size, events.drop_last());
    }
}

/// One request/response round trip over a byte stream.
///
/// The caller asks [`Exchange::next`] what to do, does it on the stream and
/// hands the result in, until the answer is [`Transfer::Succeeded`] or
/// [`Transfer::Failed`].
pub struct Exchange {
    size: usize,
    to_send: usize,
    to_receive: usize,
    failure: Option<ExchangeError>,
}

impl View for Exchange {
    type V = ExchangeState;

    closed spec fn view(&self) -> ExchangeState {
        ExchangeState {
            size: self.size as nat,
            to_send: self.to_send as nat,
            to_receive: self.to_receive as nat,
            failure: self.failure,
        }
    }
}

impl Exchange {
    #[verifier::type_invariant]
    spec fn within_size(self) -> bool {
        self.to_send <= self.size && self.to_receive <= self.size
    }

    /// Starts an exchange of `size` payload bytes.
    pub fn begin(size: usize) -> (exchange: Exchange)
        ensures
            exchange@ == ExchangeState::begin(size as nat),
    {
        Exchange { size, to_send: size, to_receive: size, failure: None }
    }

    /// What to do next. A read never asks for more bytes than this exchange
    /// is still owed, so it cannot take bytes that answer another exchange on
    /// the same stream.
    pub fn next(&self) -> (transfer: Transfer)
        ensures
            transfer == self@.next(),
            transfer matches Transfer::Write(len) ==> 0 < len <= self@.to_send && len
                <= BUFFER_SIZE,
            transfer matches Transfer::Read(len) ==> 0 < len <= self@.to_receive && len
                <= BUFFER_SIZE,
    {
        if let Some(error) = self.failure {
            Transfer::Failed(error)
        } else if self.to_send > 0 {
            Transfer::Write(next_chunk_len(self.to_send))
        } else if self.to_receive > 0 {
            Transfer::Read(next_chunk_len(self.to_receive))
        } else {
            Transfer::Succeeded
        }
    }

    /// Hands in that a write took `count` bytes.
    pub fn wrote(&mut self, count: usize)
        ensures
            final(self)@ == old(self)@.on_written(count as nat),
    {
        proof {
            use_type_invariant(&*self);
        }
        if self.failure.is_some() {
            return ;
        }
        if self.to_send == 0 {
            self.failure = Some(ExchangeError::Io(IoFault::OutOfTurn));
        } else if count == 0 {
            self.failure = Some(ExchangeError::Io(IoFault::WriteStalled));
        } else if count > next_chunk_len(self.to_send) {
            self.failure = Some(ExchangeError::Io(IoFault::Overrun));
        } else {
            self.to_send = self.to_send - count;
        }
    }

    /// Hands in the bytes that a read delivered; an empty `chunk` says that
    /// the stream has ended.
    pub fn received(&mut self, chunk: &[u8])
        ensures
            final(self)@ == old(self)@.on_received(chunk@),
    {
        proof {
            use_type_invariant(&*self);
        }
        if self.failure.is_some() {
            return ;
        }
        if self.to_send > 0 || self.to_receive == 0 {
            self.failure = Some(ExchangeError::Io(IoFault::OutOfTurn));
        } else if chunk.len() == 0 {
            self.failure = Some(ExchangeError::Io(IoFault::EndOfStream));
        } else if chunk.len() > next_chunk_len(self.to_receive) {
            self.failure = Some(ExchangeError::Io(IoFault::Overrun));
        } else {
            match first_mismatch(chunk) {
                Some(index) => {
                    self.failure = Some(
                        ExchangeError::Verification(
                            Mismatch::WrongByte {
                                offset: self.size - self.to_receive + index,
                                found: chunk[index],
                            },
                        ),
                    );
                },
                None => {
                    self.to_receive = self.to_receive - chunk.len();
                },
            }
        }
    }

    /// Hands in that a read or a write reported an error.
    pub fn io_failed(&mut self)
        ensures
            final(self)@ == old(self)@.on_io_failure(),
    {
        proof {
            use_type_invariant(&*self);
        }
        if self.failure.is_some() {
            return ;
        }
        if self.to_send == 0 && self.to_receive == 0 {
            self.failure = Some(ExchangeError::Io(IoFault::OutOfTurn));
        } else {
            self.failure = Some(ExchangeError::Io(IoFault::Broken));
        }
    }
}

/// One logical connection to a byte-stream echo target, with the message
/// size that both ends agreed on when it was opened.
pub struct Session {
    message_size: usize,
}

impl Session {
    /// Opens a session for messages of `message_size` bytes. The header has to
    /// be written to the stream once, before the first exchange.
    pub fn negotiate(message_size: usize) -> (opened: (Session, [u8; 8]))
        ensures
            opened.0.size() == message_size,
            opened.1@ == be_bytes(message_size as nat, 8),
            be_value(opened.1@) == message_size,
    {
        (Session { message_size }, size_header(message_size as u64))
    }

    /// The agreed message size.
    pub closed spec fn size(&self) -> usize {
        self.message_size
    }

    /// The agreed message size.
    #[verifier::when_used_as_spec(size)]
    pub fn message_size(&self) -> (size: usize)
        ensures
            size == self.size(),
    {
        self.message_size
    }

    /// Starts the next exchange on this session.
    pub fn begin_exchange(&self) -> (exchange: Exchange)
        ensures
            exchange@ == ExchangeState::begin(self.size() as nat),
    {
        Exchange::begin(self.message_size)
    }
}

} // verus!

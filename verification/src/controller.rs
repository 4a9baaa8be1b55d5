//! The incremental stream decoder.
//!
//! The decoder owns the bytes that have arrived and are not yet consumed, and
//! the message under construction if there is one. Each call hands it what
//! one read from the transport came to; it advances as far as the bytes allow
//! and reports at most one completed message. It performs no I/O itself: the
//! owner of the transport reads, hands over the result, and acts on the
//! outcome.

use vstd::prelude::*;
use std::collections::VecDeque;
use crate::big_endian::{be_value, lemma_be_value_fits_u64, read_u64};
use crate::error::DecodeError;
use crate::request::{
    package, payload_decoding, prepare_package, Request, RequestData, RequestDataView,
    RequestState, RequestType, RequestView,
};
use crate::serialization::Serializable;

verus! {

/// What one read from the transport came to.
pub enum StreamRead<'a> {
    /// The read delivered these bytes. None at all: the peer closed the
    /// stream.
    Data(&'a [u8]),
    /// The read would have blocked.
    WouldBlock,
    /// The connection was reset while reading.
    ConnectionReset,
    /// The read failed for another reason.
    Failed,
}

impl<'a> StreamRead<'a> {
    /// The bytes that the read delivered; none where it delivered nothing
    /// and the stream is still open.
    pub open spec fn delivered(self) -> Option<Seq<u8>> {
        match self {
            StreamRead::Data(bytes) => Some(bytes@),
            StreamRead::WouldBlock => None,
            StreamRead::ConnectionReset => None,
            StreamRead::Failed => None,
        }
    }
}

/// What a call of the decoder came to.
pub enum ReadOutcome {
    /// A message was completed and decoded.
    Completed(RequestData),
    /// No message yet: more bytes are needed.
    Pending,
    /// The peer closed the stream.
    EndOfStream,
    /// A message was completed, but its payload is no value of its kind. The
    /// message is dropped and the connection stays open.
    DecodeFailed(DecodeError),
    /// The stream is out of step: the transport is to be shut down in both
    /// directions, and the decoder will complete no further message.
    Reset,
}

/// What a call of the decoder came to, as mathematical values.
pub enum ReadOutcomeView {
    Completed(RequestDataView),
    Pending,
    EndOfStream,
    DecodeFailed(DecodeError),
    Reset,
}

impl View for ReadOutcome {
    type V = ReadOutcomeView;

    open spec fn view(&self) -> ReadOutcomeView {
        match self {
            ReadOutcome::Completed(value) => ReadOutcomeView::Completed(value@),
            ReadOutcome::Pending => ReadOutcomeView::Pending,
            ReadOutcome::EndOfStream => ReadOutcomeView::EndOfStream,
            ReadOutcome::DecodeFailed(error) => ReadOutcomeView::DecodeFailed(*error),
            ReadOutcome::Reset => ReadOutcomeView::Reset,
        }
    }
}

/// Where a decoder stands between two calls.
#[derive(Clone, Copy, Debug, PartialEq, Eq, Structural)]
pub enum Phase {
    /// Between messages: the next byte is read as a tag.
    Idle,
    /// A tag was read; the eight bytes of the length have not all arrived.
    AwaitingLength,
    /// The length is known; payload bytes are being gathered.
    Accumulating,
    /// The stream was found out of step. Nothing is decoded any more.
    Reset,
}

/// The state of a decoder, as mathematical values.
pub struct ControllerView {
    /// Bytes that have arrived and are not yet consumed, oldest first.
    pub backlog: Seq<u8>,
    /// The message under construction; none between messages.
    pub active: Option<RequestView>,
    /// Whether the stream was found out of step.
    pub reset: bool,
}

impl ControllerView {
    /// A decoder that has seen nothing yet.
    pub open spec fn fresh() -> ControllerView {
        ControllerView { backlog: Seq::empty(), active: None, reset: false }
    }

    /// Between messages, with the given bytes waiting.
    pub open spec fn idle(backlog: Seq<u8>) -> ControllerView {
        ControllerView { backlog, active: None, reset: false }
    }

    /// In the middle of a message, with the given bytes waiting.
    pub open spec fn busy(request: RequestView, backlog: Seq<u8>) -> ControllerView {
        ControllerView { backlog, active: Some(request), reset: false }
    }

    /// Out of step: all state is cleared, for good.
    pub open spec fn halted() -> ControllerView {
        ControllerView { backlog: Seq::empty(), active: None, reset: true }
    }

    /// Where the decoder stands.
    pub open spec fn phase(self) -> Phase {
        if self.reset {
            Phase::Reset
        } else {
            match self.active {
                None => Phase::Idle,
                Some(request) => if request.len is None {
                    Phase::AwaitingLength
                } else {
                    Phase::Accumulating
                },
            }
        }
    }

    /// The message under construction, if any, is well-formed, and a decoder
    /// that is out of step holds nothing.
    pub open spec fn wf(self) -> bool {
        &&& self.active matches Some(request) ==> request.wf()
        &&& self.reset ==> self == ControllerView::halted()
    }
}

/// The outcome that a complete payload leads to.
#[verifier::opaque]
pub open spec fn completion(request_type: RequestType, payload: Seq<u8>) -> ReadOutcomeView {
    match payload_decoding(request_type, payload) {
        Ok(value) => ReadOutcomeView::Completed(value),
        Err(error) => ReadOutcomeView::DecodeFailed(error),
    }
}

/// Payload accumulation: the message takes from the head of the backlog what
/// it is still owed, or all there is. While bytes are owed the message stays;
/// once none is owed the payload is decoded and the message is dropped,
/// whatever came of the decoding.
pub open spec fn accumulate(request: RequestView, backlog: Seq<u8>) -> (
    ControllerView,
    ReadOutcomeView,
)
    recommends
        request.len is Some,
        request.wf(),
{
    let count = if backlog.len() <= request.owed() {
        backlog.len() as int
    } else {
        request.owed()
    };
    let filled = request.extended(backlog.take(count));
    if filled.owed() > 0 {
        (ControllerView::busy(filled, backlog.skip(count)), ReadOutcomeView::Pending)
    } else {
        (
            ControllerView::idle(backlog.skip(count)),
            completion(filled.request_type, filled.data),
        )
    }
}

/// A message whose tag was read: while its length is unknown and fewer than
/// eight bytes wait, nothing is consumed. Once eight wait they are consumed
/// as the length, and accumulation follows in the same call.
pub open spec fn resume(request: RequestView, backlog: Seq<u8>) -> (
    ControllerView,
    ReadOutcomeView,
)
    recommends
        request.wf(),
{
    if request.len is Some {
        accumulate(request, backlog)
    } else if backlog.len() < 8 {
        (ControllerView::busy(request, backlog), ReadOutcomeView::Pending)
    } else {
        accumulate(request.with_length(be_value(backlog.take(8)) as u64), backlog.skip(8))
    }
}

/// Decoding a backlog that holds at least one byte: between messages the
/// first byte is consumed as a tag, and a byte that is no tag puts the
/// decoder out of step.
pub open spec fn advance(active: Option<RequestView>, backlog: Seq<u8>) -> (
    ControllerView,
    ReadOutcomeView,
)
    recommends
        backlog.len() > 0,
{
    match active {
        Some(request) => resume(request, backlog),
        None => match RequestType::spec_from_u8(backlog[0]) {
            Some(kind) => resume(RequestView::fresh(kind), backlog.skip(1)),
            None => (ControllerView::halted(), ReadOutcomeView::Reset),
        },
    }
}

/// One call of the decoder: the state it leaves and the outcome it reports.
///
/// A read of zero bytes is the end of the stream and leaves the state alone.
/// A decoder that is out of step stays so. Otherwise the bytes, if any, join
/// the backlog, and decoding advances as far as the backlog allows.
pub open spec fn step(state: ControllerView, read: Option<Seq<u8>>) -> (
    ControllerView,
    ReadOutcomeView,
) {
    let incoming = match read {
        Some(bytes) => bytes,
        None => Seq::empty(),
    };
    if read is Some && incoming.len() == 0 {
        (state, ReadOutcomeView::EndOfStream)
    } else if state.reset {
        (state, ReadOutcomeView::Reset)
    } else if state.backlog.len() + incoming.len() == 0 {
        (state, ReadOutcomeView::Pending)
    } else {
        advance(state.active, state.backlog + incoming)
    }
}

/// The decoder of one connection.
pub struct Controller {
    cached_buffer: VecDeque<u8>,
    active_request: Option<Request>,
    reset: bool,
}

impl View for Controller {
    type V = ControllerView;

    closed spec fn view(&self) -> ControllerView {
        ControllerView {
            backlog: self.cached_buffer@,
            active: match self.active_request {
                Some(request) => Some(request@),
                None => None,
            },
            reset: self.reset,
        }
    }
}

/// Moves the first `count` bytes of the queue into a buffer of their own.
fn drain_front(queue: &mut VecDeque<u8>, count: usize) -> (head: Vec<u8>)
    requires
        count <= old(queue)@.len(),
    ensures
        head@ == old(queue)@.take(count as int),
        final(queue)@ == old(queue)@.skip(count as int),
{
    let mut head: Vec<u8> = Vec::with_capacity(count);
    while head.len() < count
        invariant
            head.len() <= count <= old(queue)@.len(),
            head@ == old(queue)@.take(head.len() as int),
            queue@ == old(queue)@.skip(head.len() as int),
        decreases count - head.len(),
    {
        let ghost moved = head@;
        let ghost left = queue@;
        match queue.pop_front() {
            Some(byte) => {
                head.push(byte);
            },
            None => {},
        }
        proof {
            assert(head@ =~= old(queue)@.take(head.len() as int));
            assert(queue@ =~= old(queue)@.skip(head.len() as int));
        }
    }
    head
}

/// Appends the bytes to the back of the queue.
fn extend_back(queue: &mut VecDeque<u8>, bytes: &[u8])
    ensures
        final(queue)@ == old(queue)@ + bytes@,
{
    let mut moved: usize = 0;
    while moved < bytes.len()
        invariant
            moved <= bytes.len(),
            queue@ == old(queue)@ + bytes@.take(moved as int),
        decreases bytes.len() - moved,
    {
        queue.push_back(bytes[moved]);
        moved = moved + 1;
        proof {
            assert(queue@ =~= old(queue)@ + bytes@.take(moved as int));
        }
    }
    proof {
        assert(bytes@.take(bytes.len() as int) =~= bytes@);
    }
}

impl Controller {
    /// A decoder for a connection on which nothing has arrived yet.
    pub fn new() -> (controller: Controller)
        ensures
            controller@ == ControllerView::fresh(),
            controller@.wf(),
    {
        Controller { cached_buffer: VecDeque::new(), active_request: None, reset: false }
    }

    /// Where the decoder stands.
    pub fn phase(&self) -> (phase: Phase)
        ensures
            phase == self@.phase(),
    {
        if self.reset {
            Phase::Reset
        } else {
            match &self.active_request {
                None => Phase::Idle,
                Some(request) => if request.get_length().is_none() {
                    Phase::AwaitingLength
                } else {
                    Phase::Accumulating
                },
            }
        }
    }

    /// Takes what one read from the transport came to and advances the
    /// decoding: see [`step`].
    pub fn read(&mut self, input: StreamRead<'_>) -> (outcome: ReadOutcome)
        requires
            old(self)@.wf(),
        ensures
            final(self)@ == step(old(self)@, input.delivered()).0,
            outcome@ == step(old(self)@, input.delivered()).1,
            final(self)@.wf(),
    {
        if let StreamRead::Data(bytes) = input {
            if bytes.len() == 0 {
                return ReadOutcome::EndOfStream;
            }
        }
        if self.reset {
            return ReadOutcome::Reset;
        }
        if let StreamRead::Data(bytes) = input {
            extend_back(&mut self.cached_buffer, bytes);
        }
        if self.cached_buffer.len() == 0 {
            proof {
                assert(self.cached_buffer@ =~= old(self)@.backlog);
            }
            return ReadOutcome::Pending;
        }
        let mut request = match self.active_request.take() {
            Some(request) => request,
            None => match self.cached_buffer.pop_front() {
                Some(tag) => match Request::from_u8(tag) {
                    Some(request) => request,
                    None => {
                        self.cached_buffer.clear();
                        self.reset = true;
                        return ReadOutcome::Reset;
                    },
                },
                None => {
                    return ReadOutcome::Pending;
                },
            },
        };
        if request.get_length().is_none() {
            if self.cached_buffer.len() < 8 {
                self.active_request = Some(request);
                return ReadOutcome::Pending;
            }
            let prefix = drain_front(&mut self.cached_buffer, 8);
            proof {
                assert(prefix@.subrange(0, 8) =~= prefix@);
                lemma_be_value_fits_u64(prefix@);
            }
            request.init_length(read_u64(&prefix, 0));
        }
        let owed = request.pending_bytes();
        let waiting = self.cached_buffer.len();
        let count: usize = if waiting as u64 <= owed {
            waiting
        } else {
            owed as usize
        };
        let drained = drain_front(&mut self.cached_buffer, count);
        proof {
            reveal(completion);
        }
        match request.add(&drained) {
            RequestState::PENDING => {
                self.active_request = Some(request);
                ReadOutcome::Pending
            },
            RequestState::COMPLETED(request_data) => ReadOutcome::Completed(request_data),
            RequestState::ERROR(error) => ReadOutcome::DecodeFailed(error),
        }
    }

    /// The bytes to write to the transport for a message that carries the
    /// given value. Writing does not depend on where the decoding stands.
    pub fn write<S: Serializable>(
        &self,
        request_type: RequestType,
        serializable_data: Box<S>,
    ) -> (data: Vec<u8>)
        ensures
            data@ == package(request_type, S::encoding(serializable_data@)),
    {
        prepare_package(request_type, serializable_data)
    }
}

} // verus!

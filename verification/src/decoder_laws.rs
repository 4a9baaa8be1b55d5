//! What holds of the stream decoder, call by call and over whole
//! conversations.

use vstd::prelude::*;
use crate::big_endian::{
    be_digits, be_value, lemma_be_digits_len, lemma_value_of_digits, radix_power,
};
use crate::controller::{
    accumulate, completion, resume, step, ControllerView, Phase, ReadOutcomeView,
};
use crate::request::{
    lemma_payload_round_trip, package, RequestDataView, RequestType, RequestView,
};

verus! {

/// The bytes that a read delivered; none for a read that delivered nothing.
pub open spec fn bytes_of(read: Option<Seq<u8>>) -> Seq<u8> {
    match read {
        Some(bytes) => bytes,
        None => Seq::empty(),
    }
}

/// All bytes that a series of reads delivered, in order of arrival.
pub open spec fn received(reads: Seq<Option<Seq<u8>>>) -> Seq<u8>
    decreases reads.len(),
{
    if reads.len() == 0 {
        Seq::empty()
    } else {
        bytes_of(reads.first()) + received(reads.drop_first())
    }
}

/// A series of calls of the decoder, one for each read: the state that the
/// last call leaves, and the outcomes in order.
pub open spec fn run(state: ControllerView, reads: Seq<Option<Seq<u8>>>) -> (
    ControllerView,
    Seq<ReadOutcomeView>,
)
    decreases reads.len(),
{
    if reads.len() == 0 {
        (state, Seq::empty())
    } else {
        let first = step(state, reads.first());
        let rest = run(first.0, reads.drop_first());
        (rest.0, seq![first.1] + rest.1)
    }
}

/// A call leaves the decoder well-formed: the message under construction
/// never holds more than its length, and a decoder out of step holds nothing.
pub proof fn lemma_step_keeps_wf(state: ControllerView, read: Option<Seq<u8>>)
    requires
        state.wf(),
    ensures
        step(state, read).0.wf(),
{
}

/// A read of zero bytes is the end of the stream, in every state, and leaves
/// the state alone. A call that is given nothing while nothing waits reports
/// that no message is there yet: the two are told apart.
pub proof fn lemma_zero_byte_read(state: ControllerView)
    ensures
        step(state, Some(Seq::<u8>::empty())) == (state, ReadOutcomeView::EndOfStream),
        !state.reset && state.backlog.len() == 0 ==> step(state, None) == (
            state,
            ReadOutcomeView::Pending,
        ),
{
}

/// Bytes that wait in the backlog count as if they had just arrived: a call
/// does with the backlog and what it is given what it would do, with an empty
/// backlog, if it were given both at once.
pub proof fn lemma_backlog_counts_as_read(state: ControllerView, read: Option<Seq<u8>>)
    requires
        !state.reset,
        read != Some(Seq::<u8>::empty()),
        (state.backlog + bytes_of(read)).len() > 0,
    ensures
        step(state, read) == step(
            (ControllerView { backlog: Seq::empty(), ..state }),
            Some(state.backlog + bytes_of(read)),
        ),
{
    let waiting = state.backlog + bytes_of(read);
    if read is Some {
        assert(!(bytes_of(read) =~= Seq::<u8>::empty()));
    }
    assert(Seq::<u8>::empty() + waiting =~= waiting);
}

/// While the length prefix of a message is incomplete nothing of it is
/// consumed, and the call that brings its eighth byte goes on to gather the
/// payload.
///
/// With fewer than eight bytes waiting behind the tag, a call that leaves
/// fewer than eight waiting reports nothing and keeps them all. A call that
/// brings the number to eight or more reads the first eight as the length and
/// does in the same call what accumulation does with the rest.
pub proof fn lemma_length_prefix(request_type: RequestType, held: Seq<u8>, read: Option<Seq<u8>>)
    requires
        held.len() < 8,
        read != Some(Seq::<u8>::empty()),
    ensures
        ControllerView::busy(RequestView::fresh(request_type), held).phase()
            == Phase::AwaitingLength,
        (held + bytes_of(read)).len() >= 8 ==> step(
            ControllerView::busy(RequestView::fresh(request_type), held),
            read,
        ).0.phase() != Phase::AwaitingLength,
        step(ControllerView::busy(RequestView::fresh(request_type), held), read) == (if (held
            + bytes_of(read)).len() < 8 {
            (
                ControllerView::busy(RequestView::fresh(request_type), held + bytes_of(read)),
                ReadOutcomeView::Pending,
            )
        } else {
            accumulate(
                RequestView::fresh(request_type).with_length(
                    be_value((held + bytes_of(read)).take(8)) as u64,
                ),
                (held + bytes_of(read)).skip(8),
            )
        }),
{
    if read is Some {
        assert(!(bytes_of(read) =~= Seq::<u8>::empty()));
    } else {
        assert(held + bytes_of(read) =~= held);
    }
}

/// A decoder that is out of step stays so and completes no message, whatever
/// it is given afterwards.
pub proof fn lemma_reset_is_final(reads: Seq<Option<Seq<u8>>>)
    ensures
        run(ControllerView::halted(), reads).0 == ControllerView::halted(),
        run(ControllerView::halted(), reads).1.len() == reads.len(),
        forall|i: int|
            0 <= i < reads.len() ==> !(#[trigger] run(ControllerView::halted(), reads).1[i]
                is Completed),
    decreases reads.len(),
{
    if reads.len() > 0 {
        lemma_reset_is_final(reads.drop_first());
    }
}

/// A byte that is no tag, met where a message should start, puts the decoder
/// out of step for good.
///
/// Between messages, the call that finds a byte other than 0 and 1 at the
/// head of the backlog reports the reset and clears all state; no call after
/// it, whatever it is given, completes a message.
pub proof fn lemma_unknown_tag_resets(
    backlog: Seq<u8>,
    read: Option<Seq<u8>>,
    later: Seq<Option<Seq<u8>>>,
)
    requires
        read != Some(Seq::<u8>::empty()),
        (backlog + bytes_of(read)).len() > 0,
        (backlog + bytes_of(read))[0] != 0,
        (backlog + bytes_of(read))[0] != 1,
    ensures
        step(ControllerView::idle(backlog), read) == (
            ControllerView::halted(),
            ReadOutcomeView::Reset,
        ),
        ControllerView::halted().phase() == Phase::Reset,
        run(ControllerView::idle(backlog), seq![read] + later).0 == ControllerView::halted(),
        run(ControllerView::idle(backlog), seq![read] + later).1.len() == 1 + later.len(),
        forall|i: int|
            0 <= i < 1 + later.len() ==> !(#[trigger] run(
                ControllerView::idle(backlog),
                seq![read] + later,
            ).1[i] is Completed),
{
    let reads = seq![read] + later;
    if read is Some {
        assert(!(bytes_of(read) =~= Seq::<u8>::empty()));
    }
    lemma_reset_is_final(later);
    assert(reads.first() == read);
    assert(reads.drop_first() =~= later);
    let after = run(ControllerView::halted(), later);
    assert(run(ControllerView::idle(backlog), reads) == (
        after.0,
        seq![ReadOutcomeView::Reset] + after.1,
    ));
    assert forall|i: int| 0 <= i < 1 + later.len() implies !(#[trigger] run(
        ControllerView::idle(backlog),
        reads,
    ).1[i] is Completed) by {
        if i > 0 {
            assert(!(after.1[i - 1] is Completed));
        }
    }
}

/// The message under construction after the first `have` payload bytes of a
/// message have been gathered.
pub open spec fn gathering(request_type: RequestType, payload: Seq<u8>, have: int) -> RequestView {
    RequestView { request_type, len: Some(payload.len() as u64), data: payload.take(have) }
}

/// The state of a decoder that started fresh and has been given the first
/// `consumed` bytes of a message, and not yet all of them.
pub open spec fn midway(
    request_type: RequestType,
    payload: Seq<u8>,
    consumed: int,
) -> ControllerView {
    if consumed == 0 {
        ControllerView::fresh()
    } else if consumed < 9 {
        ControllerView::busy(
            RequestView::fresh(request_type),
            package(request_type, payload).subrange(1, consumed),
        )
    } else {
        ControllerView::busy(gathering(request_type, payload, consumed - 9), Seq::empty())
    }
}

/// Whether `chunk` continues `message` from position `consumed` on: the two
/// agree as far as both reach.
pub open spec fn continues(message: Seq<u8>, consumed: int, chunk: Seq<u8>) -> bool {
    forall|i: int|
        0 <= i < chunk.len() && consumed + i < message.len() ==> #[trigger] chunk[i] == message[
            consumed + i
        ]
}

/// A message is nine bytes longer than its payload, and its length prefix
/// gives the length of the payload.
pub proof fn lemma_package_layout(request_type: RequestType, payload: Seq<u8>)
    requires
        payload.len() <= u64::MAX,
    ensures
        package(request_type, payload).len() == 9 + payload.len(),
        package(request_type, payload)[0] == request_type.tag(),
        be_value(package(request_type, payload).subrange(1, 9)) == payload.len(),
        package(request_type, payload).skip(9) == payload,
{
    let message = package(request_type, payload);
    let prefix = be_digits(payload.len(), 8);
    lemma_be_digits_len(payload.len(), 8);
    reveal_with_fuel(radix_power, 9);
    lemma_value_of_digits(payload.len(), 8);
    assert(message.subrange(1, 9) =~= prefix);
    assert(message.skip(9) =~= payload);
}

/// Accumulation within one message: bytes that continue the payload leave the
/// message pending until the last payload byte is among them; the call that
/// brings it completes the message and leaves what follows it in the backlog.
proof fn lemma_accumulate_payload(
    request_type: RequestType,
    payload: Seq<u8>,
    have: int,
    backlog: Seq<u8>,
)
    requires
        payload.len() <= u64::MAX,
        0 <= have <= payload.len(),
        continues(payload, have, backlog),
    ensures
        accumulate(gathering(request_type, payload, have), backlog) == (if have + backlog.len()
            < payload.len() {
            (
                ControllerView::busy(
                    gathering(request_type, payload, have + backlog.len()),
                    Seq::empty(),
                ),
                ReadOutcomeView::Pending,
            )
        } else {
            (
                ControllerView::idle(backlog.skip(payload.len() - have)),
                completion(request_type, payload),
            )
        }),
{
    let request = gathering(request_type, payload, have);
    let owed = payload.len() - have;
    assert(request.owed() == owed);
    if backlog.len() <= owed {
        let filled = request.extended(backlog.take(backlog.len() as int));
        assert(filled.data =~= payload.take(have + backlog.len()));
        assert(backlog.skip(backlog.len() as int) =~= Seq::<u8>::empty());
        if have + backlog.len() == payload.len() {
            assert(filled.data =~= payload);
        }
    } else {
        let filled = request.extended(backlog.take(owed));
        assert(filled.data =~= payload);
    }
}

/// A call while the payload is being gathered.
proof fn lemma_step_in_payload(
    request_type: RequestType,
    payload: Seq<u8>,
    have: int,
    chunk: Seq<u8>,
)
    requires
        payload.len() <= u64::MAX,
        0 <= have < payload.len(),
        chunk.len() > 0,
        continues(payload, have, chunk),
    ensures
        step(
            ControllerView::busy(gathering(request_type, payload, have), Seq::empty()),
            Some(chunk),
        ) == (if have + chunk.len() < payload.len() {
            (
                ControllerView::busy(
                    gathering(request_type, payload, have + chunk.len()),
                    Seq::empty(),
                ),
                ReadOutcomeView::Pending,
            )
        } else {
            (
                ControllerView::idle(chunk.skip(payload.len() - have)),
                completion(request_type, payload),
            )
        }),
{
    let request = gathering(request_type, payload, have);
    assert(Seq::<u8>::empty() + chunk =~= chunk);
    assert(step(ControllerView::busy(request, Seq::empty()), Some(chunk)) == accumulate(
        request,
        chunk,
    ));
    lemma_accumulate_payload(request_type, payload, have, chunk);
}

/// The bytes that wait behind the tag of a message, once the length prefix
/// is among them: the prefix is consumed and accumulation follows.
proof fn lemma_resume_with_prefix(request_type: RequestType, payload: Seq<u8>, waiting: Seq<u8>)
    requires
        payload.len() <= u64::MAX,
        waiting.len() >= 8,
        continues(package(request_type, payload), 1, waiting),
    ensures
        resume(RequestView::fresh(request_type), waiting) == (if waiting.len() - 8
            < payload.len() {
            (
                ControllerView::busy(
                    gathering(request_type, payload, waiting.len() - 8),
                    Seq::empty(),
                ),
                ReadOutcomeView::Pending,
            )
        } else {
            (
                ControllerView::idle(waiting.skip(8 + payload.len() as int)),
                completion(request_type, payload),
            )
        }),
{
    let message = package(request_type, payload);
    let request = RequestView::fresh(request_type);
    let rest = waiting.skip(8);
    lemma_package_layout(request_type, payload);
    assert(waiting.take(8) =~= message.subrange(1, 9)) by {
        assert forall|i: int| 0 <= i < 8 implies waiting[i] == message[1 + i] by {}
    }
    assert(request.with_length(payload.len() as u64) == gathering(request_type, payload, 0)) by {
        assert(payload.take(0) =~= Seq::<u8>::empty());
    }
    assert(resume(request, waiting) == accumulate(gathering(request_type, payload, 0), rest));
    assert(continues(payload, 0, rest)) by {
        assert forall|i: int| 0 <= i < rest.len() && i < payload.len() implies rest[i]
            == payload[0 + i] by {
            assert(waiting[8 + i] == message[1 + (8 + i)]);
            assert(message.skip(9)[i] == payload[i]);
        }
    }
    if rest.len() >= payload.len() {
        assert(rest.skip(payload.len() as int) =~= waiting.skip(8 + payload.len() as int));
    }
    lemma_accumulate_payload(request_type, payload, 0, rest);
}

/// A call before the length prefix of a message has been consumed.
proof fn lemma_step_in_header(
    request_type: RequestType,
    payload: Seq<u8>,
    consumed: int,
    chunk: Seq<u8>,
)
    requires
        payload.len() <= u64::MAX,
        0 <= consumed < 9,
        chunk.len() > 0,
        continues(package(request_type, payload), consumed, chunk),
    ensures
        step(midway(request_type, payload, consumed), Some(chunk)) == (if consumed + chunk.len() < 9
            + payload.len() {
            (midway(request_type, payload, consumed + chunk.len()), ReadOutcomeView::Pending)
        } else {
            (
                ControllerView::idle(chunk.skip(9 + payload.len() - consumed)),
                completion(request_type, payload),
            )
        }),
{
    let message = package(request_type, payload);
    let state = midway(request_type, payload, consumed);
    let request = RequestView::fresh(request_type);
    lemma_package_layout(request_type, payload);
    let backlog = state.backlog + chunk;
    let waiting = if consumed == 0 {
        backlog.skip(1)
    } else {
        backlog
    };
    assert(step(state, Some(chunk)) == resume(request, waiting)) by {
        if consumed == 0 {
            assert(backlog =~= chunk);
            assert(chunk[0] == message[0int + 0]);
        }
    }
    assert(waiting.len() == consumed + chunk.len() - 1);
    assert(continues(message, 1, waiting)) by {
        assert forall|i: int| 0 <= i < waiting.len() && 1 + i < message.len() implies waiting[i]
            == message[1 + i] by {
            if consumed == 0 {
                assert(chunk[1 + i] == message[0 + (1 + i)]);
            } else if i >= consumed - 1 {
                assert(chunk[i - (consumed - 1)] == message[consumed + (i - (consumed - 1))]);
            }
        }
    }
    if waiting.len() < 8 {
        assert(waiting =~= message.subrange(1, consumed + chunk.len()));
    } else {
        lemma_resume_with_prefix(request_type, payload, waiting);
        if waiting.len() - 8 >= payload.len() {
            assert(waiting.skip(8 + payload.len() as int) =~= chunk.skip(
                9 + payload.len() - consumed,
            ));
        }
    }
}

/// One call in the middle of a message. Bytes that continue the message leave
/// the decoder midway, with nothing reported, as long as the message is not
/// complete; the call that brings its last byte reports the completion and
/// leaves the decoder between messages, with the bytes after the message in
/// the backlog.
pub proof fn lemma_step_midway(
    request_type: RequestType,
    payload: Seq<u8>,
    consumed: int,
    chunk: Seq<u8>,
)
    requires
        payload.len() <= u64::MAX,
        0 <= consumed < 9 + payload.len(),
        chunk.len() > 0,
        continues(package(request_type, payload), consumed, chunk),
    ensures
        step(midway(request_type, payload, consumed), Some(chunk)) == (if consumed + chunk.len() < 9
            + payload.len() {
            (midway(request_type, payload, consumed + chunk.len()), ReadOutcomeView::Pending)
        } else {
            (
                ControllerView::idle(chunk.skip(9 + payload.len() - consumed)),
                completion(request_type, payload),
            )
        }),
{
    let message = package(request_type, payload);
    lemma_package_layout(request_type, payload);
    if consumed < 9 {
        lemma_step_in_header(request_type, payload, consumed, chunk);
    } else {
        let have = consumed - 9;
        assert(continues(payload, have, chunk)) by {
            assert forall|i: int| 0 <= i < chunk.len() && have + i < payload.len() implies chunk[i]
                == payload[have + i] by {
                assert(chunk[i] == message[consumed + i]);
                assert(message.skip(9)[have + i] == payload[have + i]);
            }
        }
        lemma_step_in_payload(request_type, payload, have, chunk);
    }
}

/// Every read of the series delivered at least one byte.
pub open spec fn all_deliver(reads: Seq<Option<Seq<u8>>>) -> bool {
    forall|i: int|
        0 <= i < reads.len() ==> (#[trigger] reads[i]) is Some && bytes_of(reads[i]).len() > 0
}

/// The outcomes of a series of calls of which only the last reports
/// something.
pub open spec fn pending_until_last(calls: nat, last: ReadOutcomeView) -> Seq<ReadOutcomeView> {
    Seq::new(
        calls,
        |i: int|
            if i + 1 < calls {
                ReadOutcomeView::Pending
            } else {
                last
            },
    )
}

/// Reads that each deliver something deliver something together.
proof fn lemma_received_nonempty(reads: Seq<Option<Seq<u8>>>)
    requires
        reads.len() >= 1,
        all_deliver(reads),
    ensures
        received(reads).len() >= bytes_of(reads.first()).len() > 0,
{
    assert(reads[0] is Some);
}

/// The rest of a message, in any split: every call but the last leaves the
/// message pending, and the last completes it.
proof fn lemma_run_rest_of_message(
    request_type: RequestType,
    payload: Seq<u8>,
    consumed: int,
    reads: Seq<Option<Seq<u8>>>,
)
    requires
        payload.len() <= u64::MAX,
        0 <= consumed < 9 + payload.len(),
        reads.len() >= 1,
        all_deliver(reads),
        received(reads) == package(request_type, payload).skip(consumed),
    ensures
        run(midway(request_type, payload, consumed), reads) == (
            ControllerView::fresh(),
            pending_until_last(reads.len(), completion(request_type, payload)),
        ),
    decreases reads.len(),
{
    let message = package(request_type, payload);
    let state = midway(request_type, payload, consumed);
    let chunk = bytes_of(reads.first());
    let later = reads.drop_first();
    let expected = pending_until_last(reads.len(), completion(request_type, payload));
    lemma_package_layout(request_type, payload);
    assert(reads[0] is Some);
    assert(reads.first() == Some(chunk));
    assert(all_deliver(later)) by {
        assert forall|i: int| 0 <= i < later.len() implies (#[trigger] later[i]) is Some
            && bytes_of(later[i]).len() > 0 by {
            assert(later[i] == reads[i + 1]);
        }
    }
    assert(continues(message, consumed, chunk)) by {
        assert forall|i: int| 0 <= i < chunk.len() && consumed + i < message.len() implies chunk[i]
            == message[consumed + i] by {
            assert(received(reads)[i] == message.skip(consumed)[i]);
        }
    }
    lemma_step_midway(request_type, payload, consumed, chunk);
    let first = step(state, reads.first());
    let rest = run(first.0, later);
    assert(run(state, reads) == (rest.0, seq![first.1] + rest.1));
    assert(received(reads) == chunk + received(later));
    assert(message.skip(consumed).len() == 9 + payload.len() - consumed);
    assert(received(later) =~= received(reads).skip(chunk.len() as int));
    if later.len() == 0 {
        assert(received(later).len() == 0);
        assert(consumed + chunk.len() == 9 + payload.len());
        assert(chunk.skip(9 + payload.len() - consumed) =~= Seq::<u8>::empty());
        assert(first.0 == ControllerView::fresh());
        assert(rest == (first.0, Seq::<ReadOutcomeView>::empty()));
        assert(seq![first.1] + rest.1 =~= expected);
    } else {
        lemma_received_nonempty(later);
        assert(consumed + chunk.len() < 9 + payload.len());
        assert(message.skip(consumed).skip(chunk.len() as int) =~= message.skip(
            consumed + chunk.len(),
        ));
        lemma_run_rest_of_message(request_type, payload, consumed + chunk.len(), later);
        assert(seq![first.1] + rest.1 =~= expected);
    }
}

/// A message that arrives in pieces is completed by the call that brings its
/// last byte, and by no call before it.
///
/// For every payload and every way of cutting the message that carries it
/// into reads of at least one byte each, a fresh decoder reports nothing for
/// every read but the last, reports for the last what the complete payload
/// decodes to, and is then again as it was at the start.
pub proof fn lemma_fragmented_payload(
    request_type: RequestType,
    payload: Seq<u8>,
    reads: Seq<Option<Seq<u8>>>,
)
    requires
        payload.len() <= u64::MAX,
        reads.len() >= 1,
        all_deliver(reads),
        received(reads) == package(request_type, payload),
    ensures
        run(ControllerView::fresh(), reads) == (
            ControllerView::fresh(),
            pending_until_last(reads.len(), completion(request_type, payload)),
        ),
{
    let message = package(request_type, payload);
    lemma_package_layout(request_type, payload);
    assert(message.skip(0) =~= message);
    lemma_run_rest_of_message(request_type, payload, 0, reads);
}

/// An encoded value that arrives in pieces comes out as that value, once.
///
/// For every value and every way of cutting its message into reads of at
/// least one byte each, a fresh decoder reports nothing for every read but
/// the last and reports the value, field for field, for the last.
pub proof fn lemma_fragmented_message(value: RequestDataView, reads: Seq<Option<Seq<u8>>>)
    requires
        value.encodable(),
        value.encoding().len() <= u64::MAX,
        reads.len() >= 1,
        all_deliver(reads),
        received(reads) == package(value.kind(), value.encoding()),
    ensures
        run(ControllerView::fresh(), reads) == (
            ControllerView::fresh(),
            pending_until_last(reads.len(), ReadOutcomeView::Completed(value)),
        ),
{
    lemma_payload_round_trip(value);
    reveal(completion);
    lemma_fragmented_payload(value.kind(), value.encoding(), reads);
}

/// Two messages that arrive in one read come out in two calls.
///
/// The call that is given both messages reports the first value and keeps
/// the second message in the backlog. The next call, whatever it is given
/// short of the end of the stream, reports the second value and keeps what
/// it was given.
pub proof fn lemma_two_messages_one_read(
    first: RequestDataView,
    second: RequestDataView,
    next: Option<Seq<u8>>,
)
    requires
        first.encodable(),
        first.encoding().len() <= u64::MAX,
        second.encodable(),
        second.encoding().len() <= u64::MAX,
        next != Some(Seq::<u8>::empty()),
    ensures
        step(
            ControllerView::fresh(),
            Some(
                package(first.kind(), first.encoding()) + package(second.kind(), second.encoding()),
            ),
        ) == (
            ControllerView::idle(package(second.kind(), second.encoding())),
            ReadOutcomeView::Completed(first),
        ),
        step(ControllerView::idle(package(second.kind(), second.encoding())), next) == (
            ControllerView::idle(bytes_of(next)),
            ReadOutcomeView::Completed(second),
        ),
{
    let one = package(first.kind(), first.encoding());
    let two = package(second.kind(), second.encoding());
    assert(completion(first.kind(), first.encoding()) == ReadOutcomeView::Completed(first)) by {
        reveal(completion);
        lemma_payload_round_trip(first);
    }
    assert(completion(second.kind(), second.encoding()) == ReadOutcomeView::Completed(second)) by {
        reveal(completion);
        lemma_payload_round_trip(second);
    }
    lemma_package_layout(first.kind(), first.encoding());
    lemma_package_layout(second.kind(), second.encoding());
    lemma_step_midway(first.kind(), first.encoding(), 0, one + two);
    assert((one + two).skip(one.len() as int) =~= two);
    let waiting = two + bytes_of(next);
    lemma_backlog_counts_as_read(ControllerView::idle(two), next);
    lemma_step_midway(second.kind(), second.encoding(), 0, waiting);
    assert(waiting.skip(two.len() as int) =~= bytes_of(next));
}

} // verus!

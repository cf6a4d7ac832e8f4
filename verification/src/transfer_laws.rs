//! What holds of transfers from end to end.

use vstd::prelude::*;

use crate::batch::{BatchView, TransferStatus};
use crate::error::TransferError;
use crate::memory;
use crate::metadata::SegmentView;
use crate::server::{ActionView, EventView, Outcome, SessionState};
use crate::transfer;
use crate::transfer::RequestView;
use crate::transfer_engine;
use crate::transfer_engine::DispatchView;
use crate::wire;
use crate::wire::{OpCode, HEADER_LEN};

verus! {

// ---------------------------------------------------------------- exchanges

/// What a server that holds `memory` and waits for a request does with the
/// message of one: it takes the header and, if the header asks for it, the
/// data behind it.
pub open spec fn answer(memory: Seq<u8>, message: Seq<u8>) -> Outcome {
    let first = SessionState::Header.step(
        EventView::Header(message.subrange(0, HEADER_LEN as int)),
        memory,
    );
    match first.action {
        ActionView::ReceivePayload(length) => first.state.step(
            EventView::Payload(message.subrange(HEADER_LEN as int, HEADER_LEN + length)),
            first.memory,
        ),
        _ => first,
    }
}

/// A write that fits is stored and acknowledged. One that does not fit is not
/// acknowledged: the connection ends with the error and the segment stays as
/// it is.
pub proof fn law_server_answers_write(memory: Seq<u8>, offset: usize, data: Seq<u8>)
    requires
        data.len() <= usize::MAX,
    ensures
        memory::in_bounds(offset as nat, data.len(), memory.len()) ==> answer(
            memory,
            transfer::write_exchange(offset as nat, data).message,
        ) == Outcome::replied(memory::overwrite(memory, offset as nat, data), seq![wire::ACK]),
        !memory::in_bounds(offset as nat, data.len(), memory.len()) ==> answer(
            memory,
            transfer::write_exchange(offset as nat, data).message,
        ) == Outcome::finished(
            memory,
            Err(
                TransferError::OutOfBounds {
                    offset,
                    length: data.len() as usize,
                    capacity: memory.len() as usize,
                },
            ),
        ),
{
    let message = transfer::write_exchange(offset as nat, data).message;
    let header = wire::header_bytes(data.len(), offset as nat, OpCode::Write);
    wire::law_header_round_trip(data.len() as usize, offset, OpCode::Write);
    assert(message.subrange(0, HEADER_LEN as int) =~= header);
    assert(message.subrange(HEADER_LEN as int, HEADER_LEN + data.len()) =~= data);
}

/// A read that fits is answered with the bytes that it asks for. One that
/// does not fit gets no byte: the connection ends with the error. The segment
/// stays as it is.
pub proof fn law_server_answers_read(memory: Seq<u8>, offset: usize, length: usize)
    ensures
        memory::in_bounds(offset as nat, length as nat, memory.len()) ==> answer(
            memory,
            transfer::read_exchange(offset as nat, length as nat).message,
        ) == Outcome::replied(memory, memory::slice_of(memory, offset as nat, length as nat)),
        !memory::in_bounds(offset as nat, length as nat, memory.len()) ==> answer(
            memory,
            transfer::read_exchange(offset as nat, length as nat).message,
        ) == Outcome::finished(
            memory,
            Err(TransferError::OutOfBounds { offset, length, capacity: memory.len() as usize }),
        ),
{
    let message = transfer::read_exchange(offset as nat, length as nat).message;
    wire::law_header_round_trip(length, offset, OpCode::Read);
    assert(message.subrange(0, HEADER_LEN as int) =~= message);
}

/// Reading a remote range that was just written gives back what was written.
pub proof fn law_remote_read_returns_what_was_written(
    memory: Seq<u8>,
    offset: usize,
    data: Seq<u8>,
)
    requires
        data.len() <= usize::MAX,
        memory::in_bounds(offset as nat, data.len(), memory.len()),
    ensures
        ({
            let written = answer(memory, transfer::write_exchange(offset as nat, data).message);
            let read = answer(
                written.memory,
                transfer::read_exchange(offset as nat, data.len()).message,
            );
            &&& read.action == ActionView::Send(data)
            &&& read.memory == written.memory
        }),
{
    law_server_answers_write(memory, offset, data);
    law_server_answers_read(
        memory::overwrite(memory, offset as nat, data),
        offset,
        data.len() as usize,
    );
    memory::law_read_back_of_write(memory, offset as nat, data);
}

/// A write transfer copies the local range to the remote one: the server is
/// sent the source bytes, holds them at the target afterwards, and its reply
/// has the length that is waited for and acknowledges the write.
pub proof fn law_write_transfer_copies_source_to_target(
    source_offset: usize,
    target_id: Seq<char>,
    target_offset: usize,
    length: usize,
    local: Seq<u8>,
    remote: Seq<u8>,
)
    requires
        memory::in_bounds(source_offset as nat, length as nat, local.len()),
        memory::in_bounds(target_offset as nat, length as nat, remote.len()),
    ensures
        ({
            let request = RequestView {
                opcode: OpCode::Write,
                source_offset: source_offset as nat,
                target_id,
                target_offset: target_offset as nat,
                length: length as nat,
            };
            let exchange = transfer::request_exchange(request, local);
            let outcome = answer(remote, exchange.message);
            &&& outcome.action == ActionView::Send(seq![wire::ACK])
            &&& exchange.reply_length == 1
            &&& outcome.memory == memory::overwrite(
                remote,
                target_offset as nat,
                memory::slice_of(local, source_offset as nat, length as nat),
            )
            &&& memory::slice_of(outcome.memory, target_offset as nat, length as nat)
                == memory::slice_of(local, source_offset as nat, length as nat)
        }),
{
    let data = memory::slice_of(local, source_offset as nat, length as nat);
    law_server_answers_write(remote, target_offset, data);
    memory::law_read_back_of_write(remote, target_offset as nat, data);
}

/// A read transfer copies the remote range to the local one: the server's
/// reply has the length that is waited for, and laid over the local range it
/// makes that equal to the remote one. The server's segment stays as it is.
pub proof fn law_read_transfer_copies_target_to_source(
    source_offset: usize,
    target_id: Seq<char>,
    target_offset: usize,
    length: usize,
    local: Seq<u8>,
    remote: Seq<u8>,
)
    requires
        memory::in_bounds(source_offset as nat, length as nat, local.len()),
        memory::in_bounds(target_offset as nat, length as nat, remote.len()),
    ensures
        ({
            let request = RequestView {
                opcode: OpCode::Read,
                source_offset: source_offset as nat,
                target_id,
                target_offset: target_offset as nat,
                length: length as nat,
            };
            let exchange = transfer::request_exchange(request, local);
            let outcome = answer(remote, exchange.message);
            let reply = memory::slice_of(remote, target_offset as nat, length as nat);
            let filled = memory::overwrite(local, source_offset as nat, reply);
            &&& outcome == Outcome::replied(remote, reply)
            &&& reply.len() == exchange.reply_length
            &&& memory::slice_of(filled, source_offset as nat, length as nat) == reply
        }),
{
    let reply = memory::slice_of(remote, target_offset as nat, length as nat);
    law_server_answers_read(remote, target_offset, length);
    memory::law_read_back_of_write(local, source_offset as nat, reply);
}

// ----------------------------------------------------------------- sessions

/// No event changes the size of the segment, only the data of a write changes
/// what it holds, and a connection that ends leaves it as it is.
pub proof fn law_sessions_keep_the_segment(
    state: SessionState,
    event: EventView,
    memory: Seq<u8>,
)
    requires
        state.accepts(event),
    ensures
        state.step(event, memory).memory.len() == memory.len(),
        !(event is Payload) ==> state.step(event, memory).memory == memory,
        state.step(event, memory).action is Finish ==> state.step(event, memory).memory == memory,
        state.step(event, memory).action is Finish <==> state.step(event, memory).state
            == SessionState::Finished,
{
}

/// Whatever a step says to do next, what comes of it can be taken in: the
/// connection then waits for the header, for just as much data, or for the
/// answer to have gone out. A connection that ends waits for nothing.
pub proof fn law_session_takes_what_it_asks_for(
    state: SessionState,
    event: EventView,
    memory: Seq<u8>,
    header: Seq<u8>,
    data: Seq<u8>,
)
    requires
        state.accepts(event),
    ensures
        ({
            let next = state.step(event, memory);
            match next.action {
                ActionView::ReceiveHeader => header.len() == HEADER_LEN ==> next.state.accepts(
                    EventView::Header(header),
                ),
                ActionView::ReceivePayload(length) => data.len() == length ==> next.state.accepts(
                    EventView::Payload(data),
                ),
                ActionView::Send(_) => next.state.accepts(EventView::Sent),
                ActionView::Finish(_) => next.state == SessionState::Finished,
            }
        }),
{
}

/// A connection serves any number of requests: once an answer has gone out,
/// it waits for the next header.
pub proof fn law_session_serves_the_next_request(memory: Seq<u8>)
    ensures
        SessionState::Reply.accepts(EventView::Sent),
        SessionState::Reply.step(EventView::Sent, memory) == (Outcome {
            state: SessionState::Header,
            memory,
            action: ActionView::ReceiveHeader,
        }),
{
}

// ------------------------------------------------------------------ batches

/// Every transfer that a submission hands out is a task of the batch which is
/// under way, and it goes to the segment that its request names.
pub proof fn law_dispatched_tasks_are_pending(
    batch: BatchView,
    requests: Seq<RequestView>,
    segments: Map<Seq<char>, SegmentView>,
    k: int,
)
    requires
        0 <= k < transfer_engine::dispatches(requests, segments, batch.tasks.len()).len(),
    ensures
        ({
            let todo = transfer_engine::dispatches(requests, segments, batch.tasks.len())[k];
            let after = transfer_engine::submitted(batch, requests, segments);
            &&& batch.tasks.len() <= todo.task_index
            &&& after.is_pending(todo.task_index)
            &&& after.tasks[todo.task_index as int].request == todo.request
            &&& segments.contains_key(todo.request.target_id)
            &&& todo.remote == segments[todo.request.target_id]
        }),
    decreases requests.len(),
{
    let start = batch.tasks.len();
    let earlier = requests.drop_last();
    let after = transfer_engine::submitted(batch, requests, segments);
    let before = transfer_engine::submitted(batch, earlier, segments);
    if k < transfer_engine::dispatches(earlier, segments, start).len() {
        law_dispatched_tasks_are_pending(batch, earlier, segments, k);
        let todo = transfer_engine::dispatches(earlier, segments, start)[k];
        assert(after.tasks[todo.task_index as int] == before.tasks[todo.task_index as int]);
    } else {
        assert(after.tasks[start + requests.len() - 1] == transfer_engine::submitted_task(
            requests.last(),
            segments,
        ));
    }
}

/// No task is handed out twice: the transfers come in the order of their
/// tasks.
pub proof fn law_dispatches_are_in_order(
    requests: Seq<RequestView>,
    segments: Map<Seq<char>, SegmentView>,
    start: nat,
)
    ensures
        ({
            let todo = transfer_engine::dispatches(requests, segments, start);
            &&& forall|k: int|
                0 <= k < todo.len() ==> (#[trigger] todo[k]).task_index < start + requests.len()
            &&& forall|j: int, k: int|
                0 <= j < k < todo.len() ==> (#[trigger] todo[j]).task_index < (
                #[trigger] todo[k]).task_index
        }),
    decreases requests.len(),
{
    if requests.len() > 0 {
        law_dispatches_are_in_order(requests.drop_last(), segments, start);
    }
}

/// A request whose target is registered is handed out.
pub proof fn law_known_targets_are_dispatched(
    requests: Seq<RequestView>,
    segments: Map<Seq<char>, SegmentView>,
    start: nat,
    i: int,
)
    requires
        0 <= i < requests.len(),
        segments.contains_key(requests[i].target_id),
    ensures
        transfer_engine::dispatches(requests, segments, start).contains(
            DispatchView {
                task_index: (start + i) as nat,
                request: requests[i],
                remote: segments[requests[i].target_id],
            },
        ),
    decreases requests.len(),
{
    let todo = transfer_engine::dispatches(requests, segments, start);
    let wanted = DispatchView {
        task_index: (start + i) as nat,
        request: requests[i],
        remote: segments[requests[i].target_id],
    };
    if i == requests.len() - 1 {
        assert(todo[todo.len() - 1] == wanted);
    } else {
        law_known_targets_are_dispatched(requests.drop_last(), segments, start, i);
        let earlier = transfer_engine::dispatches(requests.drop_last(), segments, start);
        let k = choose|k: int| 0 <= k < earlier.len() && earlier[k] == wanted;
        assert(todo[k] == wanted);
    }
}

/// A batch to which a request with an unknown target was submitted does not
/// complete.
pub proof fn law_unknown_target_fails_the_batch(
    batch: BatchView,
    requests: Seq<RequestView>,
    segments: Map<Seq<char>, SegmentView>,
    i: int,
)
    requires
        0 <= i < requests.len(),
        !segments.contains_key(requests[i].target_id),
    ensures
        transfer_engine::submitted(batch, requests, segments).has_failure,
        transfer_engine::submitted(batch, requests, segments).overall_status()
            != TransferStatus::Completed,
    decreases requests.len(),
{
    if i < requests.len() - 1 {
        law_unknown_target_fails_the_batch(batch, requests.drop_last(), segments, i);
        assert(transfer_engine::missing_count(requests.drop_last(), segments) > 0 || batch.has_failure);
    }
}

} // verus!

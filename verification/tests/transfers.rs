use nano_mooncake::batch::BatchState;
use nano_mooncake::memory;
use nano_mooncake::server::{Session, SessionAction, SessionEvent};
use nano_mooncake::transfer::{begin_transfer, check_ack, finish_transfer, read_bytes, write_bytes, Exchange};
use nano_mooncake::transfer_engine::{wait_step, WaitStep};
use nano_mooncake::wire::{encode_header, HEADER_LEN};
use nano_mooncake::{
    IoError, IoErrorKind, MetadataStore, OpCode, SegmentDesc, TransferEngine, TransferError,
    TransferRequest, TransferStatus,
};

const SECOND: u128 = 1_000_000_000;

/// Carries an exchange to a server that holds `remote` and brings back what
/// it sends.
fn carry(remote: &mut Vec<u8>, exchange: &Exchange) -> Result<Vec<u8>, TransferError> {
    let mut session = Session::new();
    let mut header = [0u8; HEADER_LEN];
    header.copy_from_slice(&exchange.message[..HEADER_LEN]);
    let mut action = session.step(SessionEvent::Header(header), remote);
    if let SessionAction::ReceivePayload(length) = action {
        assert_eq!(exchange.message.len(), HEADER_LEN + length);
        let payload = exchange.message[HEADER_LEN..].to_vec();
        action = session.step(SessionEvent::Payload(payload), remote);
    }
    match action {
        SessionAction::Send(reply) => {
            assert_eq!(session.step(SessionEvent::Sent, remote), SessionAction::ReceiveHeader);
            Ok(reply)
        }
        SessionAction::Finish(result) => Err(result.unwrap_err()),
        other => panic!("unexpected action {:?}", other),
    }
}

fn run(
    engine: &mut TransferEngine,
    batch_id: usize,
    requests: Vec<TransferRequest>,
    metadata: &MetadataStore,
    local: &mut Vec<u8>,
    remote: &mut Vec<u8>,
) {
    for dispatch in engine.submit_transfer(batch_id, requests, metadata).unwrap() {
        let outcome = begin_transfer(&dispatch.request, local)
            .and_then(|exchange| carry(remote, &exchange))
            .and_then(|reply| finish_transfer(&dispatch.request, &reply, local));
        assert!(engine.task_is_pending(batch_id, dispatch.task_index));
        engine.mark_task_done(batch_id, dispatch.task_index, outcome.is_ok());
    }
}

fn request(opcode: OpCode, source: usize, target: &str, offset: usize, length: usize) -> TransferRequest {
    TransferRequest {
        opcode,
        source_offset: source,
        target_id: target.to_owned(),
        target_offset: offset,
        length,
    }
}

#[test]
fn transfers_write_and_read_between_segments() {
    let mut metadata = MetadataStore::new();
    let mut prefill = TransferEngine::new("prefill".to_owned());
    let mut prefill_buffer = memory::zeroed(4096);
    prefill.register_local_memory(4096, "127.0.0.1".to_owned(), 4001, &mut metadata);

    let mut decode = TransferEngine::new("decode".to_owned());
    let mut decode_buffer = memory::zeroed(4096);
    decode.register_local_memory(4096, "127.0.0.1".to_owned(), 4002, &mut metadata);

    prefill_buffer[0..5].copy_from_slice(b"hello");

    let batch_id = prefill.allocate_batch_id(1);
    run(
        &mut prefill,
        batch_id,
        vec![request(OpCode::Write, 0, "decode", 100, 5)],
        &metadata,
        &mut prefill_buffer,
        &mut decode_buffer,
    );

    assert_eq!(
        wait_step(prefill.get_transfer_status(batch_id).unwrap(), 0, 2 * SECOND),
        WaitStep::Done(TransferStatus::Completed),
    );
    assert_eq!(&decode_buffer[100..105], b"hello");

    decode_buffer[200..205].copy_from_slice(b"world");

    let batch_id = prefill.allocate_batch_id(1);
    run(
        &mut prefill,
        batch_id,
        vec![request(OpCode::Read, 50, "decode", 200, 5)],
        &metadata,
        &mut prefill_buffer,
        &mut decode_buffer,
    );

    assert_eq!(
        wait_step(prefill.get_transfer_status(batch_id).unwrap(), 0, 2 * SECOND),
        WaitStep::Done(TransferStatus::Completed),
    );
    assert_eq!(&prefill_buffer[50..55], b"world");
}

#[test]
fn remote_read_returns_what_was_written() {
    let mut remote = memory::zeroed(32);
    assert_eq!(carry(&mut remote, &write_bytes(7, b"kv-cache")).unwrap(), vec![1]);
    assert_eq!(carry(&mut remote, &read_bytes(7, 8)).unwrap(), b"kv-cache".to_vec());
    assert_eq!(&remote[..7], &[0u8; 7]);
    assert_eq!(&remote[15..], &[0u8; 17]);
}

#[test]
fn exchanges_have_the_wire_format() {
    let write = write_bytes(0x0102, b"ab");
    assert_eq!(
        write.message,
        vec![2, 0, 0, 0, 0, 0, 0, 0, 2, 1, 0, 0, 0, 0, 0, 0, 1, b'a', b'b'],
    );
    assert_eq!(write.reply_length, 1);

    let read = read_bytes(3, 300);
    assert_eq!(read.message, vec![44, 1, 0, 0, 0, 0, 0, 0, 3, 0, 0, 0, 0, 0, 0, 0, 0]);
    assert_eq!(read.reply_length, 300);
}

#[test]
fn server_refuses_ranges_out_of_bounds() {
    let mut remote = vec![9u8; 10];
    assert_eq!(
        carry(&mut remote, &write_bytes(8, b"abc")).unwrap_err(),
        TransferError::OutOfBounds { offset: 8, length: 3, capacity: 10 },
    );
    assert_eq!(
        carry(&mut remote, &read_bytes(usize::MAX, 2)).unwrap_err(),
        TransferError::OutOfBounds { offset: usize::MAX, length: 2, capacity: 10 },
    );
    assert_eq!(remote, vec![9u8; 10]);
    assert_eq!(carry(&mut remote, &write_bytes(8, b"ab")).unwrap(), vec![1]);
    assert_eq!(carry(&mut remote, &read_bytes(10, 0)).unwrap(), Vec::<u8>::new());
}

#[test]
fn server_refuses_unknown_opcodes() {
    let mut remote = vec![0u8; 4];
    let mut header = encode_header(1, 0, OpCode::Write);
    header[16] = 7;
    let mut session = Session::new();
    assert_eq!(
        session.step(SessionEvent::Header(header), &mut remote),
        SessionAction::Finish(Err(TransferError::InvalidOpcode(7))),
    );
}

fn failure(kind: IoErrorKind) -> IoError {
    IoError { kind, message: "gone".to_owned() }
}

#[test]
fn a_peer_that_leaves_between_requests_ends_the_connection_well() {
    for kind in [
        IoErrorKind::UnexpectedEof,
        IoErrorKind::ConnectionReset,
        IoErrorKind::ConnectionAborted,
    ] {
        let mut session = Session::new();
        assert_eq!(
            session.step(SessionEvent::Failed(failure(kind)), &mut Vec::new()),
            SessionAction::Finish(Ok(())),
        );
    }
    let mut session = Session::new();
    assert_eq!(
        session.step(SessionEvent::Failed(failure(IoErrorKind::Other)), &mut Vec::new()),
        SessionAction::Finish(Err(TransferError::Io(failure(IoErrorKind::Other)))),
    );
}

#[test]
fn a_peer_that_leaves_within_a_request_is_an_error() {
    let mut remote = vec![0u8; 8];
    let mut session = Session::new();
    let header = encode_header(4, 0, OpCode::Write);
    assert_eq!(
        session.step(SessionEvent::Header(header), &mut remote),
        SessionAction::ReceivePayload(4),
    );
    assert_eq!(
        session.step(SessionEvent::Failed(failure(IoErrorKind::UnexpectedEof)), &mut remote),
        SessionAction::Finish(Err(TransferError::Io(failure(IoErrorKind::UnexpectedEof)))),
    );

    let mut session = Session::new();
    let header = encode_header(4, 0, OpCode::Read);
    assert_eq!(
        session.step(SessionEvent::Header(header), &mut remote),
        SessionAction::Send(vec![0; 4]),
    );
    assert_eq!(
        session.step(SessionEvent::Failed(failure(IoErrorKind::ConnectionReset)), &mut remote),
        SessionAction::Finish(Err(TransferError::Io(failure(IoErrorKind::ConnectionReset)))),
    );
}

#[test]
fn a_write_out_of_local_bounds_sends_nothing() {
    let local = vec![1u8, 2, 3];
    assert_eq!(
        begin_transfer(&request(OpCode::Write, 2, "r", 0, 2), &local).unwrap_err(),
        TransferError::OutOfBounds { offset: 2, length: 2, capacity: 3 },
    );
    let exchange = begin_transfer(&request(OpCode::Write, 1, "r", 5, 2), &local).unwrap();
    assert_eq!(exchange, write_bytes(5, &[2, 3]));
}

#[test]
fn a_read_out_of_local_bounds_fails_after_the_exchange() {
    let mut local = vec![1u8, 2, 3];
    let read = request(OpCode::Read, 2, "r", 0, 2);
    assert_eq!(begin_transfer(&read, &local).unwrap(), read_bytes(0, 2));
    assert_eq!(
        finish_transfer(&read, &vec![8, 9], &mut local).unwrap_err(),
        TransferError::OutOfBounds { offset: 2, length: 2, capacity: 3 },
    );
    assert_eq!(local, vec![1, 2, 3]);
    let read = request(OpCode::Read, 1, "r", 0, 2);
    finish_transfer(&read, &vec![8, 9], &mut local).unwrap();
    assert_eq!(local, vec![1, 8, 9]);
}

#[test]
fn a_write_needs_its_acknowledgement() {
    assert_eq!(check_ack(1), Ok(()));
    assert_eq!(check_ack(0), Err(TransferError::AckFailed));
    assert_eq!(check_ack(2), Err(TransferError::AckFailed));
    let mut local = vec![0u8; 4];
    let write = request(OpCode::Write, 0, "r", 0, 4);
    assert_eq!(finish_transfer(&write, &vec![1], &mut local), Ok(()));
    assert_eq!(finish_transfer(&write, &vec![0], &mut local), Err(TransferError::AckFailed));
}

#[test]
fn batches_sum_up_their_tasks() {
    let mut batch = BatchState::new(2);
    assert_eq!(batch.overall_status(), TransferStatus::Completed);
    assert_eq!(batch.add_pending(request(OpCode::Read, 0, "r", 0, 1)), 0);
    assert_eq!(batch.add_pending(request(OpCode::Read, 1, "r", 1, 1)), 1);
    assert_eq!(batch.overall_status(), TransferStatus::Pending);
    batch.mark_task_done(1, false);
    assert_eq!(batch.overall_status(), TransferStatus::Pending);
    assert!(batch.is_pending(0));
    assert!(!batch.is_pending(1));
    assert!(!batch.is_pending(2));
    batch.mark_task_done(0, true);
    assert_eq!(batch.overall_status(), TransferStatus::Failed);
    batch.add_pending(request(OpCode::Read, 2, "r", 2, 1));
    assert_eq!(batch.overall_status(), TransferStatus::Pending);
    batch.mark_task_done(2, true);
    assert_eq!(batch.overall_status(), TransferStatus::Failed);
}

#[test]
fn a_task_outside_the_batch_counts_as_done() {
    let mut batch = BatchState::new(1);
    batch.add_pending(request(OpCode::Read, 0, "r", 0, 1));
    batch.mark_task_done(5, true);
    assert!(batch.is_pending(0));
    assert_eq!(batch.overall_status(), TransferStatus::Completed);
}

#[test]
fn submission_needs_a_batch_and_local_memory() {
    let mut metadata = MetadataStore::new();
    let mut engine = TransferEngine::new("n".to_owned());
    assert_eq!(
        engine.submit_transfer(3, vec![], &metadata).unwrap_err(),
        TransferError::UnknownBatch(3),
    );
    let batch = engine.allocate_batch_id(1);
    assert_eq!(batch, 0);
    assert_eq!(
        engine.submit_transfer(batch, vec![], &metadata).unwrap_err(),
        TransferError::NoLocalMemory,
    );
    assert_eq!(engine.local_segment(), None);
    let desc = engine.register_local_memory(64, "h".to_owned(), 9, &mut metadata);
    assert_eq!(desc.port, 9);
    assert_eq!(engine.local_segment(), Some(desc));
    assert!(engine.submit_transfer(batch, vec![], &metadata).unwrap().is_empty());
    assert_eq!(engine.get_transfer_status(batch).unwrap(), TransferStatus::Completed);
    assert_eq!(engine.get_transfer_status(1).unwrap_err(), TransferError::UnknownBatch(1));
}

#[test]
fn unknown_targets_fail_at_once_and_the_rest_is_handed_out() {
    let mut metadata = MetadataStore::new();
    let mut engine = TransferEngine::new("n".to_owned());
    engine.register_local_memory(64, "h".to_owned(), 9, &mut metadata);
    metadata.register_segment(SegmentDesc {
        name: "r".to_owned(),
        host: "far".to_owned(),
        port: 10,
        size: 64,
    });
    let batch = engine.allocate_batch_id(3);
    let todo = engine
        .submit_transfer(
            batch,
            vec![
                request(OpCode::Read, 0, "r", 0, 1),
                request(OpCode::Read, 1, "nowhere", 1, 1),
                request(OpCode::Read, 2, "r", 2, 1),
            ],
            &metadata,
        )
        .unwrap();
    assert_eq!(todo.len(), 2);
    assert_eq!(todo[0].task_index, 0);
    assert_eq!(todo[1].task_index, 2);
    assert_eq!(todo[1].request, request(OpCode::Read, 2, "r", 2, 1));
    assert_eq!(todo[1].remote.host, "far");
    assert!(!engine.task_is_pending(batch, 1));
    assert_eq!(engine.get_transfer_status(batch).unwrap(), TransferStatus::Pending);
    engine.mark_task_done(batch, 0, true);
    engine.mark_task_done(batch, 2, true);
    assert_eq!(engine.get_transfer_status(batch).unwrap(), TransferStatus::Failed);
}

#[test]
fn batch_ids_are_fresh() {
    let mut engine = TransferEngine::new("n".to_owned());
    assert_eq!(engine.allocate_batch_id(1), 0);
    assert_eq!(engine.allocate_batch_id(64), 1);
    assert_eq!(engine.allocate_batch_id(0), 2);
}

#[test]
fn waiting_ends_with_the_batch_or_at_the_deadline() {
    assert_eq!(wait_step(TransferStatus::Pending, 9, 10), WaitStep::Pause);
    assert_eq!(wait_step(TransferStatus::Waiting, 9, 10), WaitStep::Pause);
    assert_eq!(
        wait_step(TransferStatus::Pending, 10, 10),
        WaitStep::Done(TransferStatus::Failed),
    );
    assert_eq!(
        wait_step(TransferStatus::Completed, 11, 10),
        WaitStep::Done(TransferStatus::Completed),
    );
    assert_eq!(
        wait_step(TransferStatus::Failed, 0, 10),
        WaitStep::Done(TransferStatus::Failed),
    );
}

#[test]
fn remote_bytes_need_a_registered_segment() {
    let mut metadata = MetadataStore::new();
    let engine = TransferEngine::new("n".to_owned());
    assert_eq!(
        engine.write_remote_bytes("r", 0, b"x", &metadata).unwrap_err(),
        TransferError::MissingSegment("r".to_owned()),
    );
    assert_eq!(
        engine.read_remote_bytes("r", 0, 1, &metadata).unwrap_err(),
        TransferError::MissingSegment("r".to_owned()),
    );
    metadata.register_segment(SegmentDesc {
        name: "r".to_owned(),
        host: "h".to_owned(),
        port: 1,
        size: 4,
    });
    let call = engine.write_remote_bytes("r", 3, b"x", &metadata).unwrap();
    assert_eq!(call.remote.port, 1);
    assert_eq!(call.exchange, write_bytes(3, b"x"));
    let call = engine.read_remote_bytes("r", 2, 1, &metadata).unwrap();
    assert_eq!(call.exchange, read_bytes(2, 1));
    assert_eq!(engine.open_segment("r", &metadata).map(|desc| desc.size), Some(4));
    assert_eq!(engine.open_segment("q", &metadata), None);
}

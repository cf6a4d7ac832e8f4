use nano_mooncake::clock::{Clock, MAX_NANOS};
use nano_mooncake::memory;
use nano_mooncake::server::{Session, SessionAction, SessionEvent};
use nano_mooncake::store_client::{source_replica, GetStep, PutStep};
use nano_mooncake::transfer::{check_ack, Exchange};
use nano_mooncake::wire::HEADER_LEN;
use nano_mooncake::{
    MasterService, MetadataStore, Replica, ReplicaStatus, SegmentDesc, StoreClient, TransferError,
};

const MILLI: u128 = 1_000_000;
const HOUR: u128 = 3_600_000 * MILLI;

fn segment(name: &str, size: usize) -> SegmentDesc {
    SegmentDesc { name: name.to_owned(), host: "127.0.0.1".to_owned(), port: 1, size }
}

fn carry(remote: &mut Vec<u8>, exchange: &Exchange) -> Vec<u8> {
    let mut session = Session::new();
    let mut header = [0u8; HEADER_LEN];
    header.copy_from_slice(&exchange.message[..HEADER_LEN]);
    let mut action = session.step(SessionEvent::Header(header), remote);
    if action == SessionAction::ReceivePayload(exchange.message.len() - HEADER_LEN) {
        action = session.step(
            SessionEvent::Payload(exchange.message[HEADER_LEN..].to_vec()),
            remote,
        );
    }
    match action {
        SessionAction::Send(reply) => reply,
        other => panic!("unexpected action {:?}", other),
    }
}

#[test]
fn store_put_get_and_lease_expiry() {
    let mut metadata = MetadataStore::new();
    let mut master = MasterService::new(30 * MILLI);

    let writer = StoreClient::new(
        &mut master,
        &mut metadata,
        "writer".to_owned(),
        "127.0.0.1".to_owned(),
        4001,
        4096,
    );
    let mut writer_buffer = memory::zeroed(4096);
    let reader = StoreClient::new(
        &mut master,
        &mut metadata,
        "reader".to_owned(),
        "127.0.0.1".to_owned(),
        4002,
        4096,
    );

    let step = writer.begin_put("req-1:layer-0", b"kv-cache", &mut master, &metadata).unwrap();
    assert_eq!(step, PutStep::WriteLocal { offset: 0 });
    let written = memory::write_range(&mut writer_buffer, 0, b"kv-cache");
    assert!(writer.end_put_at("req-1:layer-0", written, 5 * MILLI, &mut master).unwrap());

    match reader.begin_get_at("req-1:layer-0", 6 * MILLI, &mut master, &metadata).unwrap() {
        GetStep::ReadRemote(call) => {
            assert_eq!(call.remote.name, "writer");
            assert_eq!(call.remote.port, 4001);
            assert_eq!(carry(&mut writer_buffer, &call.exchange), b"kv-cache".to_vec());
        }
        other => panic!("unexpected step {:?}", other),
    }

    master.run_eviction_at(55 * MILLI);
    assert_eq!(
        reader.begin_get_at("req-1:layer-0", 55 * MILLI, &mut master, &metadata).unwrap(),
        GetStep::Absent,
    );
}

#[test]
fn a_put_on_another_node_is_got_back() {
    let mut metadata = MetadataStore::new();
    let mut master = MasterService::new(30 * MILLI);
    let mut far_buffer = memory::zeroed(16);
    let far = StoreClient::new(
        &mut master,
        &mut metadata,
        "far".to_owned(),
        "h".to_owned(),
        1,
        16,
    );
    let near = StoreClient::new(
        &mut master,
        &mut metadata,
        "near".to_owned(),
        "h".to_owned(),
        2,
        16,
    );
    let written = match near.begin_put("k", b"abc", &mut master, &metadata).unwrap() {
        PutStep::WriteRemote(call) => {
            assert_eq!(call.remote.name, "far");
            check_ack(carry(&mut far_buffer, &call.exchange)[0])
        }
        other => panic!("unexpected step {:?}", other),
    };
    assert_eq!(
        near.begin_get_at("k", 0, &mut master, &metadata).unwrap(),
        GetStep::Absent,
    );
    assert!(near.end_put_at("k", written, 0, &mut master).unwrap());
    assert_eq!(
        far.begin_get_at("k", 29 * MILLI, &mut master, &metadata).unwrap(),
        GetStep::ReadLocal { offset: 0, size: 3 },
    );
    assert_eq!(memory::read_range(&far_buffer, 0, 3).unwrap(), b"abc".to_vec());
    assert_eq!(near.local_segment().map(|desc| desc.port), Some(2));
}

#[test]
fn a_failed_write_is_passed_on_and_not_committed() {
    let mut metadata = MetadataStore::new();
    let mut master = MasterService::new(30 * MILLI);
    let client = StoreClient::new(
        &mut master,
        &mut metadata,
        "n".to_owned(),
        "h".to_owned(),
        1,
        16,
    );
    client.begin_put("k", b"abc", &mut master, &metadata).unwrap();
    assert_eq!(
        client.end_put_at("k", Err(TransferError::AckFailed), 0, &mut master).unwrap_err(),
        TransferError::AckFailed,
    );
    let object = master.query_at("k", 0).unwrap();
    assert_eq!(object.replicas[0].status, ReplicaStatus::Processing);
    assert!(source_replica(&object).is_none());
    master.remove("k");
    assert!(!client.end_put("k", Ok(()), &mut master).unwrap());
}

#[test]
fn a_replica_on_an_unregistered_node_is_missing() {
    let metadata = MetadataStore::new();
    let mut other = MetadataStore::new();
    let mut master = MasterService::new(30 * MILLI);
    master.register_segment(segment("gone", 8));
    let client = StoreClient::new(
        &mut master,
        &mut other,
        "n".to_owned(),
        "h".to_owned(),
        1,
        16,
    );
    assert_eq!(
        client.begin_put("k", b"abc", &mut master, &metadata).unwrap_err(),
        TransferError::MissingSegment("gone".to_owned()),
    );
    assert!(master.put_end_at("k", 0));
    assert_eq!(
        client.begin_get_at("k", 0, &mut master, &metadata).unwrap_err(),
        TransferError::MissingSegment("gone".to_owned()),
    );
}

#[test]
fn data_survives_other_traffic() {
    let mut metadata = MetadataStore::new();
    let mut master = MasterService::new(30 * MILLI);
    let mut buffer = memory::zeroed(16);
    let client = StoreClient::new(
        &mut master,
        &mut metadata,
        "n".to_owned(),
        "h".to_owned(),
        1,
        16,
    );
    let put = |master: &mut MasterService, buffer: &mut Vec<u8>, key: &str, data: &[u8], now: u128| {
        match client.begin_put(key, data, master, &metadata).unwrap() {
            PutStep::WriteLocal { offset } => {
                let written = memory::write_range(buffer, offset, data);
                assert!(client.end_put_at(key, written, now, master).unwrap());
            }
            other => panic!("unexpected step {:?}", other),
        }
    };
    put(&mut master, &mut buffer, "early", b"1111", 0);
    let step = client.begin_put("kept", b"abcd", &mut master, &metadata).unwrap();
    assert_eq!(step, PutStep::WriteLocal { offset: 4 });
    put(&mut master, &mut buffer, "other", b"2222", MILLI);
    assert!(master.remove("early"));
    let written = memory::write_range(&mut buffer, 4, b"abcd");
    assert!(client.end_put_at("kept", written, 20 * MILLI, &mut master).unwrap());
    put(&mut master, &mut buffer, "late", b"3333", 25 * MILLI);
    master.register_segment(segment("new", 8));
    master.run_eviction_at(31 * MILLI);
    assert!(master.query_at("other", 31 * MILLI).is_none());
    assert_eq!(
        client.begin_get_at("kept", 49 * MILLI, &mut master, &metadata).unwrap(),
        GetStep::ReadLocal { offset: 4, size: 4 },
    );
    assert_eq!(memory::read_range(&buffer, 4, 4).unwrap(), b"abcd".to_vec());
    assert_eq!(buffer, b"1111abcd22223333".to_vec());
}

#[test]
fn placement_is_first_fit() {
    let mut master = MasterService::new(MILLI);
    assert_eq!(master.put_start("c", "none", 0), None);
    master.register_segment(segment("small", 4));
    master.register_segment(segment("large", 10));
    let place = |master: &mut MasterService, key: &str, size: usize| {
        master.put_start("c", key, size).map(|replica| (replica.segment_name, replica.offset))
    };
    assert_eq!(place(&mut master, "a", 3), Some(("small".to_owned(), 0)));
    assert_eq!(place(&mut master, "b", 3), Some(("large".to_owned(), 0)));
    assert_eq!(place(&mut master, "c", 1), Some(("small".to_owned(), 3)));
    assert_eq!(place(&mut master, "d", 7), Some(("large".to_owned(), 3)));
    assert_eq!(place(&mut master, "e", 1), None);
    assert_eq!(place(&mut master, "f", 0), Some(("small".to_owned(), 4)));
    assert_eq!(place(&mut master, "g", usize::MAX), None);
    assert!(master.query_at("e", 0).is_none());
}

#[test]
fn registering_a_segment_again_frees_it() {
    let mut master = MasterService::new(MILLI);
    master.register_segment(segment("s", 4));
    assert!(master.put_start("c", "a", 4).is_some());
    assert!(master.put_start("c", "b", 1).is_none());
    master.register_segment(segment("s", 2));
    assert_eq!(
        master.put_start("c", "b", 2),
        Some(Replica {
            segment_name: "s".to_owned(),
            offset: 0,
            size: 2,
            status: ReplicaStatus::Processing,
        }),
    );
}

#[test]
fn removal_gives_no_space_back() {
    let mut master = MasterService::new(MILLI);
    master.register_segment(segment("s", 4));
    assert!(master.put_start("c", "a", 3).is_some());
    assert!(master.remove("a"));
    assert!(!master.remove("a"));
    assert!(master.put_start("c", "a", 2).is_none());
    assert_eq!(master.put_start("c", "a", 1).map(|replica| replica.offset), Some(3));
}

#[test]
fn metadata_of_an_object_tells_its_first_put() {
    let mut master = MasterService::new(10);
    master.register_segment(segment("s", 100));
    master.put_start("first", "k", 5);
    let object = master.query_at("k", u128::MAX).unwrap();
    assert_eq!(object.key, "k");
    assert_eq!(object.size, 5);
    assert_eq!(object.created_by, "first");
    assert_eq!(object.lease_deadline, None);
    assert!(master.put_end_at("k", 7));
    master.put_start("second", "k", 9);
    let object = master.query_at("k", 16).unwrap();
    assert_eq!(object.size, 5);
    assert_eq!(object.created_by, "first");
    assert_eq!(object.lease_deadline, Some(17));
    assert_eq!(object.replicas.len(), 2);
    assert_eq!(object.replicas[0].status, ReplicaStatus::Complete);
    assert_eq!(object.replicas[1].status, ReplicaStatus::Processing);
    assert_eq!(object.replicas[1].offset, 5);
    assert!(master.put_end_at("k", 16));
    let object = master.query_at("k", 25).unwrap();
    assert_eq!(object.replicas[1].status, ReplicaStatus::Complete);
    assert_eq!(source_replica(&object).map(|replica| replica.offset), Some(0));
    assert!(master.query_at("k", 26).is_none());
    assert!(master.query_at("k", 0).is_none());
    assert!(!master.put_end_at("k", 0));
}

#[test]
fn eviction_takes_exactly_the_expired() {
    let mut master = MasterService::new(10);
    master.register_segment(segment("s", 100));
    for key in ["a", "b", "c", "d", "e"] {
        master.put_start("x", key, 1);
    }
    master.put_end_at("a", 0);
    master.put_end_at("c", 5);
    master.put_end_at("d", 0);
    master.put_end_at("e", 1);
    master.run_eviction_at(10);
    assert!(master.query_at("a", 0).is_none());
    assert!(master.query_at("d", 0).is_none());
    assert!(master.query_at("b", 0).is_some());
    assert!(master.query_at("c", 0).is_some());
    assert!(master.query_at("e", 0).is_some());
    assert!(master.query_at("e", 11).is_none());
    master.run_eviction_at(15);
    assert!(!master.remove("c"));
    assert!(master.remove("b"));
}

#[test]
fn the_clock_runs() {
    let mut clock = Clock::start();
    let first = clock.now();
    let mut second = clock.now();
    while second == first {
        second = clock.now();
    }
    assert!(first < second);
    let third = clock.tick();
    assert!(second <= third);
    assert!(third <= clock.now());
    assert!(third <= clock.tick());
    assert!(clock.now() < MAX_NANOS);
}

#[test]
fn a_clock_keeps_its_greatest_reading() {
    let mut clock = Clock::start();
    assert_eq!(clock.advance(HOUR), HOUR);
    assert_eq!(clock.advance(5), HOUR);
    assert_eq!(clock.advance(HOUR + 1), HOUR + 1);
    assert_eq!(clock.now(), HOUR + 1);
    assert_eq!(clock.tick(), HOUR + 1);
}

#[test]
fn deadlines_compare_with_the_master_clock() {
    let mut master = MasterService::new(HOUR);
    master.register_segment(segment("s", 100));
    master.put_start("x", "k", 1);
    let before = master.now();
    assert!(master.put_end("k"));
    let after = master.now();
    let deadline = master.query("k").unwrap().lease_deadline.unwrap();
    assert!(before + HOUR <= deadline);
    assert!(deadline <= after + HOUR);
    assert!(master.now() < deadline);
}

#[test]
fn late_data_leaves_other_objects_alone() {
    let mut master = MasterService::new(HOUR);
    let mut buffer = memory::zeroed(20);
    master.register_segment(segment("s", 20));
    let gone = master.put_start("x", "gone", 4).unwrap();
    assert!(master.remove("gone"));
    let one = master.put_start("x", "twice", 4).unwrap();
    let two = master.put_start("y", "twice", 4).unwrap();
    let kept = master.put_start("z", "kept", 4).unwrap();
    memory::write_range(&mut buffer, kept.offset, b"kept").unwrap();
    assert!(master.put_end_at("kept", 0));
    memory::write_range(&mut buffer, one.offset, b"one.").unwrap();
    assert!(master.put_end_at("twice", 0));
    let object = master.query_at("twice", 1).unwrap();
    assert_eq!(object.replicas[1].status, ReplicaStatus::Complete);
    memory::write_range(&mut buffer, two.offset, b"two.").unwrap();
    memory::write_range(&mut buffer, gone.offset, b"gone").unwrap();
    assert_eq!(buffer, b"goneone.two.kept\0\0\0\0".to_vec());
}

#[test]
fn a_replica_of_a_shrunk_segment_is_refused() {
    let mut metadata = MetadataStore::new();
    let mut master = MasterService::new(HOUR);
    let near = StoreClient::new(
        &mut master,
        &mut metadata,
        "near".to_owned(),
        "h".to_owned(),
        1,
        0,
    );
    master.register_segment(segment("far", 8));
    metadata.register_segment(segment("far", 8));
    near.begin_put("k", b"abcd", &mut master, &metadata).unwrap();
    assert!(master.put_end_at("k", 0));
    master.register_segment(segment("far", 2));
    let mut held = memory::zeroed(2);
    let exchange = match near.begin_get_at("k", 1, &mut master, &metadata).unwrap() {
        GetStep::ReadRemote(call) => call.exchange,
        other => panic!("unexpected step {:?}", other),
    };
    let mut header = [0u8; HEADER_LEN];
    header.copy_from_slice(&exchange.message);
    assert_eq!(
        Session::new().step(SessionEvent::Header(header), &mut held),
        SessionAction::Finish(Err(TransferError::OutOfBounds {
            offset: 0,
            length: 4,
            capacity: 2,
        })),
    );
}

#[test]
fn a_later_commit_never_shortens_a_lease() {
    let mut master = MasterService::new(HOUR);
    master.register_segment(segment("s", 100));
    master.put_start("x", "k", 1);
    assert!(master.put_end("k"));
    let first = master.query("k").unwrap().lease_deadline.unwrap();
    master.put_start("x", "k", 1);
    assert!(master.put_end("k"));
    let second = master.query("k").unwrap().lease_deadline.unwrap();
    assert!(first >= HOUR);
    assert!(second >= first);
}

#[test]
fn leases_run_on_the_clock() {
    let mut master = MasterService::new(HOUR);
    master.register_segment(segment("s", 100));
    master.put_start("x", "long", 1);
    assert!(master.put_end("long"));
    assert!(!master.put_end("missing"));
    master.run_eviction();
    assert!(master.query("long").is_some());

    let mut master = MasterService::new(0);
    master.register_segment(segment("s", 100));
    master.put_start("x", "short", 1);
    master.put_start("x", "shorter", 1);
    master.put_start("x", "open", 1);
    assert!(master.put_end("short"));
    assert!(master.put_end("shorter"));
    assert!(master.query("short").is_none());
    master.run_eviction();
    assert!(!master.remove("shorter"));
    assert!(master.query("open").is_some());
}

#[test]
fn a_get_runs_on_the_clock() {
    let mut metadata = MetadataStore::new();
    let mut master = MasterService::new(HOUR);
    let client = StoreClient::new(
        &mut master,
        &mut metadata,
        "n".to_owned(),
        "h".to_owned(),
        1,
        16,
    );
    client.begin_put("k", b"abc", &mut master, &metadata).unwrap();
    assert!(client.end_put("k", Ok(()), &mut master).unwrap());
    assert_eq!(
        client.begin_get("k", &mut master, &metadata).unwrap(),
        GetStep::ReadLocal { offset: 0, size: 3 },
    );
    assert_eq!(client.begin_get("q", &mut master, &metadata).unwrap(), GetStep::Absent);
    assert_eq!(
        client.begin_put("big", &[0u8; 14], &mut master, &metadata).unwrap(),
        PutStep::NoSpace,
    );
}

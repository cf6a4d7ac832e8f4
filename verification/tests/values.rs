use nano_mooncake::allocator::BumpAllocator;
use nano_mooncake::decimal::push_decimal;
use nano_mooncake::memory::{checked_range, read_range, write_range, zeroed};
use nano_mooncake::name_map::NameMap;
use nano_mooncake::server::{after_accept, AcceptAction};
use nano_mooncake::wire::{decode_header, encode_header};
use nano_mooncake::{IoError, IoErrorKind, MetadataStore, OpCode, SegmentDesc, TransferError};

fn segment(name: &str, port: u16) -> SegmentDesc {
    SegmentDesc { name: name.to_owned(), host: "h".to_owned(), port, size: 8 }
}

#[test]
fn headers_are_little_endian() {
    assert_eq!(
        encode_header(0x0807060504030201, 0x1817161514131211, OpCode::Write),
        [1, 2, 3, 4, 5, 6, 7, 8, 0x11, 0x12, 0x13, 0x14, 0x15, 0x16, 0x17, 0x18, 1],
    );
    assert_eq!(encode_header(5, 100, OpCode::Read), [5, 0, 0, 0, 0, 0, 0, 0, 100, 0, 0, 0, 0, 0, 0, 0, 0]);
}

#[test]
fn headers_round_trip() {
    for length in [0usize, 1, 255, 256, 65_537, usize::MAX] {
        for offset in [0usize, 7, 1 << 20, usize::MAX - 1] {
            for opcode in [OpCode::Read, OpCode::Write] {
                let header = encode_header(length, offset, opcode);
                assert_eq!(decode_header(&header), Ok((length, offset, opcode)));
            }
        }
    }
}

#[test]
fn headers_with_unknown_opcodes_are_refused() {
    for opcode in [2u8, 17, 255] {
        let mut header = encode_header(1, 2, OpCode::Read);
        header[16] = opcode;
        assert_eq!(decode_header(&header), Err(TransferError::InvalidOpcode(opcode)));
    }
}

#[test]
fn opcodes_have_codes() {
    assert_eq!(OpCode::try_from(0), Ok(OpCode::Read));
    assert_eq!(OpCode::try_from(1), Ok(OpCode::Write));
    assert_eq!(OpCode::try_from(2), Err(TransferError::InvalidOpcode(2)));
    assert_eq!(OpCode::Read.code(), 0);
    assert_eq!(OpCode::Write.code(), 1);
}

#[test]
fn ranges_are_checked() {
    assert_eq!(checked_range(2, 3, 5), Ok(2..5));
    assert_eq!(checked_range(5, 0, 5), Ok(5..5));
    assert_eq!(
        checked_range(2, 4, 5),
        Err(TransferError::OutOfBounds { offset: 2, length: 4, capacity: 5 }),
    );
    assert_eq!(
        checked_range(usize::MAX, 1, usize::MAX),
        Err(TransferError::OutOfBounds { offset: usize::MAX, length: 1, capacity: usize::MAX }),
    );
}

#[test]
fn segments_are_read_and_written_by_range() {
    let mut memory = zeroed(6);
    assert_eq!(memory, vec![0; 6]);
    assert_eq!(write_range(&mut memory, 2, &[7, 8, 9]), Ok(()));
    assert_eq!(memory, vec![0, 0, 7, 8, 9, 0]);
    assert_eq!(read_range(&memory, 2, 3), Ok(vec![7, 8, 9]));
    assert_eq!(read_range(&memory, 0, 2), Ok(vec![0, 0]));
    assert_eq!(
        write_range(&mut memory, 5, &[1, 2]),
        Err(TransferError::OutOfBounds { offset: 5, length: 2, capacity: 6 }),
    );
    assert_eq!(memory, vec![0, 0, 7, 8, 9, 0]);
    assert_eq!(
        read_range(&memory, 7, 0),
        Err(TransferError::OutOfBounds { offset: 7, length: 0, capacity: 6 }),
    );
}

#[test]
fn errors_are_told() {
    let io = IoError { kind: IoErrorKind::Other, message: "refused".to_owned() };
    let told = [
        (TransferError::Io(io), "I/O error: refused"),
        (TransferError::MissingSegment("decode".to_owned()), "segment not found: decode"),
        (TransferError::UnknownBatch(40), "unknown batch: 40"),
        (TransferError::NoLocalMemory, "local memory has not been registered"),
        (
            TransferError::OutOfBounds { offset: 0, length: 123, capacity: 9 },
            "range out of bounds: offset=0, length=123, capacity=9",
        ),
        (TransferError::InvalidOpcode(255), "invalid opcode: 255"),
        (
            TransferError::IntegerOverflow(u64::MAX),
            "integer does not fit into usize: 18446744073709551615",
        ),
        (TransferError::AckFailed, "remote write was not acknowledged"),
    ];
    for (error, text) in told {
        assert_eq!(error.message(), text);
    }
}

#[test]
fn numerals_are_decimal() {
    for value in [0u64, 9, 10, 90, 101, 1_000_000_007, u64::MAX] {
        let mut text = "n=".to_owned();
        push_decimal(&mut text, value);
        assert_eq!(text, format!("n={}", value));
    }
}

#[test]
fn allocations_are_disjoint() {
    let mut allocator = BumpAllocator::new(10);
    assert_eq!(allocator.allocate(4), Some(0));
    assert_eq!(allocator.allocate(7), None);
    assert_eq!(allocator.allocate(usize::MAX), None);
    assert_eq!(allocator.allocate(0), Some(4));
    assert_eq!(allocator.allocate(6), Some(4));
    assert_eq!(allocator.allocate(0), Some(10));
    assert_eq!(allocator.allocate(1), None);
}

#[test]
fn lookups_find_the_last_registration() {
    let mut store = MetadataStore::new();
    assert_eq!(store.get_segment("a"), None);
    store.register_segment(segment("a", 1));
    store.register_segment(segment("b", 2));
    store.register_segment(segment("a", 3));
    assert_eq!(store.get_segment("a"), Some(segment("a", 3)));
    assert_eq!(store.get_segment("b"), Some(segment("b", 2)));
    let all = store.all_segments();
    assert_eq!(all.len(), 2);
    assert_eq!(all.value_of("a"), Some(&segment("a", 3)));
    assert_eq!(all.value_of("b"), Some(&segment("b", 2)));
    assert!(all.value_of("c").is_none());
    assert_eq!(MetadataStore::default().all_segments().len(), 0);
}

#[test]
fn name_maps_keep_one_value_for_each_name() {
    let mut map: NameMap<u32> = NameMap::new();
    for (i, name) in ["a", "b", "c", "d"].iter().enumerate() {
        map.insert((*name).to_owned(), i as u32);
    }
    map.insert("b".to_owned(), 10);
    assert_eq!(map.len(), 4);
    assert_eq!(map.remove("a"), Some(0));
    assert_eq!(map.remove("a"), None);
    assert!(!map.contains_key("a"));
    assert_eq!(map.value_of("b"), Some(&10));
    assert_eq!(map.value_of("c"), Some(&2));
    assert_eq!(map.value_of("d"), Some(&3));
    let mut names: Vec<String> = (0..map.len()).map(|i| map.name_at(i).clone()).collect();
    names.sort();
    assert_eq!(names, vec!["b", "c", "d"]);
    for i in 0..map.len() {
        assert_eq!(map.value_of(map.name_at(i).as_str()), Some(map.value_at(i)));
    }
    assert_eq!(map.remove("d"), Some(3));
    assert_eq!(map.remove("b"), Some(10));
    assert_eq!(map.remove("c"), Some(2));
    assert_eq!(map.len(), 0);
}

#[test]
fn accepting_goes_on_until_it_fails() {
    assert_eq!(after_accept(None), AcceptAction::Serve);
    assert_eq!(after_accept(Some(IoErrorKind::WouldBlock)), AcceptAction::Pause);
    assert_eq!(after_accept(Some(IoErrorKind::Other)), AcceptAction::Stop);
    assert_eq!(after_accept(Some(IoErrorKind::ConnectionReset)), AcceptAction::Stop);
}

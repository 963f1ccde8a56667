use measureme::encoding::{u32_from_le, u32_to_le, u64_from_le, u64_to_le};
use measureme::file_header::{
    read_file_header, write_file_header, FILE_HEADER_SIZE, FILE_MAGIC_EVENT_STREAM,
    FILE_MAGIC_STRINGTABLE_DATA, FILE_MAGIC_STRINGTABLE_INDEX,
};
use measureme::raw_event::{MAX_TIMESTAMP_NANOS, RAW_EVENT_SIZE};
use measureme::text::{command_line, push_decimal};
use measureme::{
    BackedSink, ByteVecSink, FormatError, IoError, Profiler, ProfilerError, RawEvent,
    SerializationSink, SessionMetadata, StorageBackend, StringId, Timestamp, TimestampKind,
};

struct MemoryStore {
    path: String,
    bytes: Vec<u8>,
}

impl StorageBackend for MemoryStore {
    fn create(path: &str) -> Result<Self, IoError> {
        if path.starts_with("/forbidden/") {
            return Err(IoError { message: format!("{}: permission denied", path) });
        }
        Ok(MemoryStore { path: path.to_string(), bytes: Vec::new() })
    }

    fn append(&mut self, data: &[u8]) {
        self.bytes.extend_from_slice(data);
    }
}

#[test]
fn u32_is_written_least_significant_byte_first() {
    assert_eq!(u32_to_le(0x0102_0304), [0x04, 0x03, 0x02, 0x01]);
    assert_eq!(u32_to_le(0), [0, 0, 0, 0]);
    assert_eq!(u32_to_le(u32::MAX), [0xff, 0xff, 0xff, 0xff]);
    assert_eq!(u32_to_le(256), [0, 1, 0, 0]);
}

#[test]
fn u64_is_written_least_significant_byte_first() {
    assert_eq!(
        u64_to_le(0x0102_0304_0506_0708),
        [0x08, 0x07, 0x06, 0x05, 0x04, 0x03, 0x02, 0x01]
    );
    assert_eq!(u64_to_le(u64::MAX), [0xff; 8]);
    assert_eq!(u64_to_le(1 << 32), [0, 0, 0, 0, 1, 0, 0, 0]);
}

#[test]
fn integers_agree_with_std_little_endian() {
    for x in [0u32, 1, 255, 256, 65535, 65536, 0x7fff_ffff, 0x8000_0000, u32::MAX] {
        assert_eq!(u32_to_le(x), x.to_le_bytes());
        assert_eq!(u32_from_le(&x.to_le_bytes(), 0), x);
    }
    for x in [0u64, 1, 0xffff_ffff, 0x1_0000_0000, 0x0123_4567_89ab_cdef, u64::MAX] {
        assert_eq!(u64_to_le(x), x.to_le_bytes());
        assert_eq!(u64_from_le(&x.to_le_bytes(), 0), x);
    }
}

#[test]
fn integers_are_read_at_an_offset() {
    let bytes = [0xaa, 0x78, 0x56, 0x34, 0x12, 0xbb, 1, 2, 3, 4, 5, 6, 7, 8];
    assert_eq!(u32_from_le(&bytes, 1), 0x1234_5678);
    assert_eq!(u64_from_le(&bytes, 6), 0x0807_0605_0403_0201);
}

#[test]
fn magic_constants_are_distinct_and_four_bytes_wide() {
    assert_eq!(FILE_HEADER_SIZE, 4);
    assert_eq!(&FILE_MAGIC_EVENT_STREAM, b"MMES");
    assert_eq!(&FILE_MAGIC_STRINGTABLE_DATA, b"MMSD");
    assert_eq!(&FILE_MAGIC_STRINGTABLE_INDEX, b"MMSI");
    assert_ne!(FILE_MAGIC_EVENT_STREAM, FILE_MAGIC_STRINGTABLE_DATA);
    assert_ne!(FILE_MAGIC_EVENT_STREAM, FILE_MAGIC_STRINGTABLE_INDEX);
    assert_ne!(FILE_MAGIC_STRINGTABLE_DATA, FILE_MAGIC_STRINGTABLE_INDEX);
}

#[test]
fn file_header_is_the_first_write() {
    let mut sink = ByteVecSink::new();
    write_file_header(&mut sink, &FILE_MAGIC_EVENT_STREAM);
    assert_eq!(sink.as_slice(), b"MMES");
    assert_eq!(read_file_header(sink.as_slice(), &FILE_MAGIC_EVENT_STREAM), Ok(()));
}

#[test]
fn file_header_of_another_kind_is_rejected() {
    assert_eq!(
        read_file_header(b"MMSD and more", &FILE_MAGIC_EVENT_STREAM),
        Err(FormatError::BadMagic)
    );
    assert_eq!(read_file_header(b"MMEX", &FILE_MAGIC_EVENT_STREAM), Err(FormatError::BadMagic));
}

#[test]
fn short_file_header_is_truncated() {
    assert_eq!(read_file_header(b"", &FILE_MAGIC_EVENT_STREAM), Err(FormatError::Truncated));
    assert_eq!(read_file_header(b"MME", &FILE_MAGIC_EVENT_STREAM), Err(FormatError::Truncated));
}

#[test]
fn sink_appends_and_reports_offsets() {
    let mut sink = ByteVecSink::from_path("ignored").unwrap();
    assert_eq!(sink.len(), 0);
    sink.write_atomic(b"abc");
    assert_eq!(sink.len(), 3);
    sink.write_atomic(b"");
    sink.write_atomic(b"de");
    assert_eq!(sink.len(), 5);
    assert_eq!(sink.as_slice(), b"abcde");
    assert_eq!(sink.into_bytes(), b"abcde".to_vec());
}

#[test]
fn timestamp_keeps_nanos_and_kind() {
    let start = Timestamp::new(5_000_000, TimestampKind::Start);
    assert_eq!(start.nanos(), 5_000_000);
    assert_eq!(start.kind(), TimestampKind::Start);
    assert_eq!(start.raw, 5_000_000);
    let end = Timestamp::new(5_000_000, TimestampKind::End);
    assert_eq!(end.nanos(), 5_000_000);
    assert_eq!(end.kind(), TimestampKind::End);
    assert_eq!(end.raw, 5_000_000 | (1 << 63));
    let last = Timestamp::new(MAX_TIMESTAMP_NANOS, TimestampKind::End);
    assert_eq!(last.nanos(), MAX_TIMESTAMP_NANOS);
    assert_eq!(last.raw, u64::MAX);
}

#[test]
fn timestamp_saturates_beyond_63_bits() {
    let t = Timestamp::saturating(u64::MAX, TimestampKind::Start);
    assert_eq!(t.nanos(), MAX_TIMESTAMP_NANOS);
    assert_eq!(t.kind(), TimestampKind::Start);
    let t = Timestamp::saturating(17, TimestampKind::End);
    assert_eq!(t.nanos(), 17);
    assert_eq!(t.kind(), TimestampKind::End);
}

#[test]
fn raw_event_has_a_fixed_layout() {
    assert_eq!(RAW_EVENT_SIZE, 24);
    let event = RawEvent {
        event_kind: StringId(1),
        id: StringId(0x8000_0002),
        thread_id: 3,
        timestamp: Timestamp::new(5, TimestampKind::End),
    };
    let bytes = event.encode();
    assert_eq!(
        bytes,
        [1, 0, 0, 0, 2, 0, 0, 0x80, 3, 0, 0, 0, 0, 0, 0, 0, 5, 0, 0, 0, 0, 0, 0, 0x80]
    );
    assert_eq!(RawEvent::decode(&bytes, 0), event);
}

#[test]
fn raw_event_is_decoded_at_an_offset() {
    let event = RawEvent {
        event_kind: StringId(u32::MAX),
        id: StringId(7),
        thread_id: u64::MAX,
        timestamp: Timestamp::new(123_456_789, TimestampKind::Start),
    };
    let mut bytes = vec![0xee; 9];
    bytes.extend_from_slice(&event.encode());
    bytes.push(0xee);
    assert_eq!(RawEvent::decode(&bytes, 9), event);
}

#[test]
fn decimal_digits_are_exact() {
    let mut out = String::from("n=");
    push_decimal(&mut out, 0);
    assert_eq!(out, "n=0");
    let mut out = String::new();
    push_decimal(&mut out, 9);
    push_decimal(&mut out, 10);
    push_decimal(&mut out, 1_000_000);
    assert_eq!(out, "9101000000");
    let mut out = String::new();
    push_decimal(&mut out, u128::MAX);
    assert_eq!(out, "340282366920938463463374607431768211455");
}

#[test]
fn command_line_escapes_every_argument() {
    assert_eq!(command_line(&vec![]), "");
    let args = vec![String::from("prog"), String::from("--flag")];
    assert_eq!(command_line(&args), "prog --flag ");
    let args = vec![String::from("say \"hi\""), String::from("a\tb\\c"), String::from("\u{e9}")];
    assert_eq!(command_line(&args), "say \\\"hi\\\" a\\tb\\\\c \\u{e9} ");
}

#[test]
fn backed_sink_hands_every_write_to_its_store() {
    let mut sink: BackedSink<MemoryStore> = BackedSink::from_path("a/b.events").unwrap();
    sink.write_atomic(b"MMES");
    sink.write_atomic(b"");
    sink.write_atomic(b"xyz");
    let store = sink.into_backend();
    assert_eq!(store.path, "a/b.events");
    assert_eq!(store.bytes, b"MMESxyz");
}

#[test]
fn session_is_written_into_the_three_files_of_its_stem() {
    let session = SessionMetadata { start_time_nanos: 5, process_id: 6, args: Vec::new() };
    let mut p: Profiler<BackedSink<MemoryStore>> = Profiler::new("dir/run", &session).unwrap();
    let id = p.alloc_string("label");
    p.record_event_at(id, id, 1, 9, TimestampKind::Start);
    let (events, data, index) = p.into_sinks();
    let (events, data, index) = (events.into_backend(), data.into_backend(), index.into_backend());
    assert_eq!(events.path, "dir/run.events");
    assert_eq!(data.path, "dir/run.string_data");
    assert_eq!(index.path, "dir/run.string_index");
    assert_eq!(events.bytes.len(), 4 + 24);
    assert_eq!(&events.bytes[..4], b"MMES");
    assert_eq!(&data.bytes[..4], b"MMSD");
    assert!(data.bytes.ends_with(b"label"));
    assert_eq!(index.bytes.len(), 4 + 2 * 16);
    assert_eq!(&index.bytes[..4], b"MMSI");
}

#[test]
fn session_fails_if_a_sink_cannot_be_created() {
    let session = SessionMetadata { start_time_nanos: 5, process_id: 6, args: Vec::new() };
    let r: Result<Profiler<BackedSink<MemoryStore>>, ProfilerError> =
        Profiler::new("/forbidden/run", &session);
    match r {
        Err(ProfilerError::Io(e)) => {
            assert_eq!(e.message, "/forbidden/run.events: permission denied")
        }
        _ => panic!("the session started"),
    }
}

#[test]
fn sink_is_made_of_what_creating_its_store_gave() {
    let store = MemoryStore { path: String::from("p"), bytes: vec![1, 2] };
    let sink = BackedSink::from_created(Ok(store)).unwrap();
    let store = sink.into_backend();
    assert_eq!(store.path, "p");
    assert_eq!(store.bytes, vec![1, 2]);
    let failed: Result<BackedSink<MemoryStore>, IoError> =
        BackedSink::from_created(Err(IoError { message: String::from("no space") }));
    assert_eq!(failed.err().unwrap().message, "no space");
    let failed: Result<BackedSink<MemoryStore>, IoError> = BackedSink::from_path("/forbidden/x");
    assert_eq!(failed.err().unwrap().message, "/forbidden/x: permission denied");
}

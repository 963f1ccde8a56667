use measureme::profiler::{clock_nanos, format_metadata, metadata_fits};
use measureme::raw_event::{MAX_TIMESTAMP_NANOS, RAW_EVENT_SIZE};
use measureme::stringtable::{FIRST_REGULAR_STRING_ID, METADATA_STRING_ID};
use measureme::{
    ByteVecSink, FormatError, Profiler, ProfilerError, ProfilerFiles, ProfilingData,
    SessionMetadata, StringId, TimestampKind,
};

fn session() -> SessionMetadata {
    SessionMetadata {
        start_time_nanos: 1_234_567_890_123_456_789,
        process_id: 4242,
        args: vec![String::from("rustc"), String::from("--crate-name"), String::from("\"x\"")],
    }
}

fn profiler() -> Profiler<ByteVecSink> {
    Profiler::new("trace", &session()).unwrap()
}

fn read_back(profiler: Profiler<ByteVecSink>) -> ProfilingData {
    let (events, data, index) = profiler.into_sinks();
    ProfilingData::new(events.into_bytes(), data.into_bytes(), index.as_slice()).unwrap()
}

#[test]
fn files_are_the_stem_with_fixed_suffixes() {
    let files = ProfilerFiles::new("/tmp/trace");
    assert_eq!(files.events_file, "/tmp/trace.events");
    assert_eq!(files.string_data_file, "/tmp/trace.string_data");
    assert_eq!(files.string_index_file, "/tmp/trace.string_index");
    let files = ProfilerFiles::new("run.1");
    assert_eq!(files.events_file, "run.1.events");
    assert_eq!(files.string_data_file, "run.1.string_data");
    assert_eq!(files.string_index_file, "run.1.string_index");
}

#[test]
fn metadata_describes_the_session() {
    assert_eq!(
        format_metadata(&session()),
        "{ \"start_time\": 1234567890123456789, \"process_id\": 4242, \
         \"cmd\": \"rustc --crate-name \\\"x\\\" \" }"
    );
    let bare = SessionMetadata { start_time_nanos: 0, process_id: 0, args: Vec::new() };
    assert_eq!(format_metadata(&bare), "{ \"start_time\": 0, \"process_id\": 0, \"cmd\": \"\" }");
}

#[test]
fn new_session_holds_header_and_metadata() {
    let (events, data, index) = profiler().into_sinks();
    assert_eq!(events.as_slice(), b"MMES");
    let payload = format_metadata(&session());
    let mut expected = b"MMSD".to_vec();
    expected.extend_from_slice(payload.as_bytes());
    assert_eq!(data.as_slice(), expected.as_slice());
    assert_eq!(index.len(), 4 + 16);
    let read = ProfilingData::new(events.into_bytes(), data.into_bytes(), index.as_slice()).unwrap();
    assert_eq!(read.num_events(), 0);
}

#[test]
fn from_sinks_starts_the_same_session() {
    let s = session();
    let p: Profiler<ByteVecSink> =
        Profiler::from_sinks(ByteVecSink::new(), ByteVecSink::new(), ByteVecSink::new(), &s).unwrap();
    let (events, data, index) = p.into_sinks();
    let (events2, data2, index2) = profiler().into_sinks();
    assert_eq!(events.as_slice(), events2.as_slice());
    assert_eq!(data.as_slice(), data2.as_slice());
    assert_eq!(index.as_slice(), index2.as_slice());
}

#[test]
fn profiler_allocates_strings_in_both_ranges() {
    let mut p = profiler();
    let query = p.alloc_string_with_reserved_id(StringId::reserved(0), "query");
    let foo = p.alloc_string("foo");
    let bar = p.alloc_string("bar");
    assert_eq!(query, StringId(0));
    assert_eq!(foo, StringId(FIRST_REGULAR_STRING_ID));
    assert_eq!(bar, StringId(FIRST_REGULAR_STRING_ID + 1));
    assert_eq!(p.try_alloc_string_with_reserved_id(StringId(0), "again"), None);
    assert_eq!(p.try_alloc_string_with_reserved_id(StringId(1), "one"), Some(StringId(1)));
    assert_eq!(p.try_alloc_string("baz"), Some(StringId(FIRST_REGULAR_STRING_ID + 2)));
    assert_eq!(
        p.try_alloc_string_with_reserved_id(StringId(METADATA_STRING_ID), "meta"),
        None
    );
}

#[test]
fn every_event_is_one_record() {
    let mut p = profiler();
    let kind = p.alloc_string("query");
    let id = p.alloc_string("foo");
    for n in 0..10u64 {
        p.record_event_at(kind, id, 1, n * 100, TimestampKind::Start);
    }
    let (events, _, _) = p.into_sinks();
    assert_eq!(events.len(), 4 + 10 * RAW_EVENT_SIZE);
}

#[test]
fn recorded_events_are_read_back_in_order() {
    let mut p = profiler();
    let kind = p.alloc_string_with_reserved_id(StringId::reserved(3), "query");
    let foo = p.alloc_string("foo");
    let bar = p.alloc_string("bar");
    p.record_event_at(kind, foo, 1, 0, TimestampKind::Start);
    p.record_event_at(kind, bar, 2, 10, TimestampKind::Start);
    p.record_event_at(kind, bar, 2, 20, TimestampKind::End);
    p.record_event_at(kind, foo, 1, 5_000_000, TimestampKind::End);
    let data = read_back(p);
    assert_eq!(data.num_events(), 4);
    let expected = [
        ("foo", 1, 0, TimestampKind::Start),
        ("bar", 2, 10, TimestampKind::Start),
        ("bar", 2, 20, TimestampKind::End),
        ("foo", 1, 5_000_000, TimestampKind::End),
    ];
    let events = data.events().unwrap();
    assert_eq!(events.len(), 4);
    for (i, (label, thread, nanos, kind)) in expected.iter().enumerate() {
        let event = data.event(i).unwrap();
        assert_eq!(event.event_kind, "query");
        assert_eq!(event.label, *label);
        assert_eq!(event.thread_id, *thread);
        assert_eq!(event.nanos, *nanos);
        assert_eq!(event.timestamp_kind, *kind);
        assert_eq!(events[i].label, *label);
        assert_eq!(events[i].nanos, *nanos);
        let raw = data.raw_event(i).unwrap();
        assert_eq!(raw.event_kind, StringId(3));
        assert_eq!(raw.thread_id, *thread);
    }
    assert_eq!(data.raw_event(4), None);
    assert_eq!(data.event(4).err(), Some(FormatError::NoSuchEvent));
}

#[test]
fn timestamps_never_fall() {
    let mut p = profiler();
    let s = p.alloc_string("s");
    p.record_event_at(s, s, 1, 100, TimestampKind::Start);
    p.record_event_at(s, s, 1, 40, TimestampKind::End);
    p.record_event_at(s, s, 1, u64::MAX, TimestampKind::Start);
    p.record_event_at(s, s, 1, 7, TimestampKind::End);
    let data = read_back(p);
    let nanos: Vec<u64> = (0..4).map(|i| data.event(i).unwrap().nanos).collect();
    assert_eq!(nanos, vec![100, 100, MAX_TIMESTAMP_NANOS, MAX_TIMESTAMP_NANOS]);
    let kinds: Vec<TimestampKind> = (0..4).map(|i| data.event(i).unwrap().timestamp_kind).collect();
    assert_eq!(
        kinds,
        vec![TimestampKind::Start, TimestampKind::End, TimestampKind::Start, TimestampKind::End]
    );
}

#[test]
fn clock_stamps_events_in_order() {
    let mut p = profiler();
    let s = p.alloc_string("s");
    for _ in 0..50 {
        p.record_event(s, s, 9, TimestampKind::Start);
        p.record_event(s, s, 9, TimestampKind::End);
    }
    let data = read_back(p);
    assert_eq!(data.num_events(), 100);
    let mut last = 0u64;
    for i in 0..100 {
        let event = data.event(i).unwrap();
        assert!(event.nanos >= last);
        assert!(event.nanos <= MAX_TIMESTAMP_NANOS);
        assert_eq!(event.thread_id, 9);
        let expected = if i % 2 == 0 { TimestampKind::Start } else { TimestampKind::End };
        assert_eq!(event.timestamp_kind, expected);
        last = event.nanos;
    }
}

#[test]
fn guard_records_exactly_one_matching_end() {
    let mut p = profiler();
    let kind = p.alloc_string("query");
    let id = p.alloc_string("typeck");
    let guard = p.start_recording_interval_event(kind, id, 77);
    guard.finish(&mut p);
    let data = read_back(p);
    assert_eq!(data.num_events(), 2);
    let start = data.raw_event(0).unwrap();
    let end = data.raw_event(1).unwrap();
    assert_eq!(start.timestamp.kind(), TimestampKind::Start);
    assert_eq!(end.timestamp.kind(), TimestampKind::End);
    assert_eq!((start.event_kind, start.id, start.thread_id), (kind, id, 77));
    assert_eq!((end.event_kind, end.id, end.thread_id), (kind, id, 77));
    assert!(end.timestamp.nanos() >= start.timestamp.nanos());
}

fn early_exit(p: &mut Profiler<ByteVecSink>, kind: StringId, id: StringId, fail: bool) -> Result<u32, ()> {
    let guard = p.start_recording_interval_event_at(kind, id, 1, 10);
    let outcome = if fail { Err(()) } else { Ok(1) };
    guard.finish_at(p, 20);
    outcome
}

#[test]
fn guard_records_its_end_on_a_failure_path() {
    let mut p = profiler();
    let kind = p.alloc_string("query");
    let id = p.alloc_string("typeck");
    assert_eq!(early_exit(&mut p, kind, id, true), Err(()));
    assert_eq!(early_exit(&mut p, kind, id, false), Ok(1));
    let data = read_back(p);
    assert_eq!(data.num_events(), 4);
    for i in 0..4 {
        let raw = data.raw_event(i).unwrap();
        let expected = if i % 2 == 0 { TimestampKind::Start } else { TimestampKind::End };
        assert_eq!(raw.timestamp.kind(), expected);
        assert_eq!((raw.event_kind, raw.id, raw.thread_id), (kind, id, 1));
    }
}

#[test]
fn nested_guards_close_innermost_first() {
    let mut p = profiler();
    let kind = p.alloc_string("query");
    let a = p.alloc_string("a");
    let b = p.alloc_string("b");
    let outer = p.start_recording_interval_event_at(kind, a, 1, 0);
    let inner = p.start_recording_interval_event_at(kind, b, 1, 1_000_000);
    inner.finish_at(&mut p, 3_000_000);
    outer.finish_at(&mut p, 4_000_000);
    let data = read_back(p);
    let labels: Vec<String> = (0..4).map(|i| data.event(i).unwrap().label).collect();
    assert_eq!(labels, vec!["a", "b", "b", "a"]);
}

#[test]
fn two_threads_of_one_profiler_lose_no_event() {
    let mut p = profiler();
    let kind = p.alloc_string("query");
    let id = p.alloc_string("work");
    for n in 0..100u64 {
        let t1 = if n % 2 == 0 { TimestampKind::Start } else { TimestampKind::End };
        p.record_event_at(kind, id, 1, 2 * n, t1);
        p.record_event_at(kind, id, 2, 2 * n + 1, t1);
    }
    let (events, data, index) = p.into_sinks();
    assert_eq!(events.len() - 4, 200 * RAW_EVENT_SIZE);
    let data = ProfilingData::new(events.into_bytes(), data.into_bytes(), index.as_slice()).unwrap();
    assert_eq!(data.num_events(), 200);
    for thread in [1u64, 2] {
        let mut seen = 0u64;
        for i in 0..200 {
            let raw = data.raw_event(i).unwrap();
            if raw.thread_id == thread {
                assert_eq!(raw.timestamp.nanos(), 2 * seen + (thread - 1));
                seen += 1;
            }
        }
        assert_eq!(seen, 100);
    }
}

#[test]
fn event_stream_with_wrong_magic_is_rejected() {
    let r = ProfilingData::new(b"MMSD".to_vec(), b"MMSD".to_vec(), b"MMSI");
    assert_eq!(r.err(), Some(FormatError::BadMagic));
}

#[test]
fn truncated_event_stream_is_rejected() {
    let r = ProfilingData::new(b"MME".to_vec(), b"MMSD".to_vec(), b"MMSI");
    assert_eq!(r.err(), Some(FormatError::Truncated));
    let mut events = b"MMES".to_vec();
    events.extend_from_slice(&[0u8; 23]);
    let r = ProfilingData::new(events, b"MMSD".to_vec(), b"MMSI");
    assert_eq!(r.err(), Some(FormatError::Truncated));
}

#[test]
fn broken_string_table_is_rejected_after_the_events() {
    let r = ProfilingData::new(b"MMES".to_vec(), b"MMSD".to_vec(), b"MMS");
    assert_eq!(r.err(), Some(FormatError::Truncated));
    let r = ProfilingData::new(b"XXXX".to_vec(), b"MMSD".to_vec(), b"MMS");
    assert_eq!(r.err(), Some(FormatError::BadMagic));
}

#[test]
fn event_with_unknown_string_is_a_format_error() {
    let mut p = profiler();
    let known = p.alloc_string("known");
    p.record_event_at(known, StringId(12345), 1, 0, TimestampKind::Start);
    p.record_event_at(known, known, 1, 1, TimestampKind::End);
    let data = read_back(p);
    assert_eq!(data.event(0).err(), Some(FormatError::UnknownStringId));
    assert_eq!(data.event(1).unwrap().label, "known");
    assert_eq!(data.events().err(), Some(FormatError::UnknownStringId));
}

#[test]
fn label_that_is_not_text_is_a_format_error() {
    let mut events = b"MMES".to_vec();
    let raw = measureme::RawEvent {
        event_kind: StringId(1),
        id: StringId(2),
        thread_id: 0,
        timestamp: measureme::Timestamp::new(0, TimestampKind::Start),
    };
    events.extend_from_slice(&raw.encode());
    let data = b"MMSDok\xff\xfe".to_vec();
    let mut index = b"MMSI".to_vec();
    index.extend_from_slice(&measureme::stringtable::encode_index_entry(1, 4, 2));
    index.extend_from_slice(&measureme::stringtable::encode_index_entry(2, 6, 2));
    let read = ProfilingData::new(events, data, &index).unwrap();
    assert_eq!(read.event(0).err(), Some(FormatError::InvalidUtf8));
}

#[test]
fn text_is_decoded_as_utf8() {
    let mut p = profiler();
    let kind = p.alloc_string("\u{4e16}\u{754c}");
    let id = p.alloc_string("caf\u{e9} \u{1f600}");
    p.record_event_at(kind, id, 1, 0, TimestampKind::Start);
    let data = read_back(p);
    let event = data.event(0).unwrap();
    assert_eq!(event.event_kind, "\u{4e16}\u{754c}");
    assert_eq!(event.label, "caf\u{e9} \u{1f600}");
}

#[test]
fn metadata_must_fit_a_32_bit_length() {
    assert!(metadata_fits(0).is_ok());
    assert!(metadata_fits(u32::MAX as usize).is_ok());
    if usize::BITS > 32 {
        assert!(matches!(
            metadata_fits(u32::MAX as usize + 1),
            Err(ProfilerError::MetadataTooLong)
        ));
        assert!(matches!(metadata_fits(usize::MAX), Err(ProfilerError::MetadataTooLong)));
    }
}

#[test]
fn clock_counts_at_most_what_64_bits_hold() {
    assert_eq!(clock_nanos(0), 0);
    assert_eq!(clock_nanos(5_000_000), 5_000_000);
    assert_eq!(clock_nanos(u64::MAX as u128), u64::MAX);
    assert_eq!(clock_nanos(u64::MAX as u128 + 1), u64::MAX);
    assert_eq!(clock_nanos(u128::MAX), u64::MAX);
}

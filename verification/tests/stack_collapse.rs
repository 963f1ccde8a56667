use measureme::{
    collapse_profiling_data, collapse_stacks, AnalysisError, ByteVecSink, CollapseError, Event,
    FoldedStacks, FormatError, Profiler, ProfilingData, SessionMetadata, StackCollapser, StringId,
    TimestampKind,
};

fn start(kind: &str, label: &str, thread: u64, nanos: u64) -> Event {
    Event::new(kind, label, nanos, TimestampKind::Start, thread)
}

fn end(kind: &str, label: &str, thread: u64, nanos: u64) -> Event {
    Event::new(kind, label, nanos, TimestampKind::End, thread)
}

fn folded(events: &[Event], interval_ms: u64) -> Vec<(String, u128)> {
    match collapse_stacks(events, interval_ms) {
        Ok(stacks) => entries(&stacks),
        Err(e) => panic!("the trace does not fold: {:?}", e),
    }
}

fn entries(stacks: &FoldedStacks) -> Vec<(String, u128)> {
    let mut out: Vec<(String, u128)> =
        (0..stacks.len()).map(|i| (stacks.label(i).to_string(), stacks.weight(i))).collect();
    out.sort();
    out
}

fn failure(events: &[Event], interval_ms: u64) -> CollapseError {
    match collapse_stacks(events, interval_ms) {
        Ok(_) => panic!("the trace folds"),
        Err(e) => e,
    }
}

#[test]
fn single_frame_of_five_milliseconds() {
    let events = [start("query", "foo", 1, 0), end("query", "foo", 1, 5_000_000)];
    assert_eq!(folded(&events, 1), vec![(String::from("query;foo"), 5)]);
}

#[test]
fn nested_frames_count_inclusive_time() {
    let events = [
        start("A", "", 7, 0),
        start("B", "", 7, 1_000_000),
        end("B", "", 7, 3_000_000),
        end("A", "", 7, 4_000_000),
    ];
    assert_eq!(folded(&events, 1), vec![(String::from("A"), 4), (String::from("A;B"), 2)]);
}

#[test]
fn end_of_another_frame_is_an_error() {
    let events = [start("A", "", 1, 0), end("B", "", 1, 1_000_000)];
    let e = failure(&events, 1);
    assert_eq!(e, CollapseError::MismatchedEnd { index: 1 });
    assert!(e.is_well_formedness());
}

#[test]
fn weight_is_elapsed_over_interval_rounded_down() {
    let cases: [(u64, u64, u128); 8] = [
        (5_000_000, 1, 5),
        (5_999_999, 1, 5),
        (5_000_000, 2, 2),
        (1_000_000, 1, 1),
        (10_000_000_000, 1000, 10),
        (9_999_999_999, 1000, 9),
        (u64::MAX / 2, 1, (u64::MAX / 2 / 1_000_000) as u128),
        (3_000_000, 3, 1),
    ];
    for (elapsed, interval, weight) in cases {
        let events = [start("k", "f", 1, 0), end("k", "f", 1, elapsed)];
        assert_eq!(folded(&events, interval), vec![(String::from("k;f"), weight)]);
    }
}

#[test]
fn weight_counts_from_the_start_of_the_frame() {
    let events = [start("k", "f", 1, 2_500_000), end("k", "f", 1, 6_000_000)];
    assert_eq!(folded(&events, 1), vec![(String::from("k;f"), 3)]);
}

#[test]
fn frame_shorter_than_one_unit_leaves_no_entry() {
    let events = [start("k", "f", 1, 0), end("k", "f", 1, 999_999)];
    assert_eq!(folded(&events, 1), vec![]);
    let events = [start("k", "f", 1, 0), end("k", "f", 1, 5_000_000)];
    assert_eq!(folded(&events, u64::MAX), vec![]);
    let events = [start("k", "f", 1, 0), end("k", "f", 1, 5_000_000)];
    assert_eq!(folded(&events, 6), vec![]);
}

#[test]
fn short_child_adds_nothing_but_its_parent_counts() {
    let events = [
        start("a", "", 1, 0),
        start("b", "", 1, 100),
        end("b", "", 1, 200),
        end("a", "", 1, 2_000_000),
    ];
    assert_eq!(folded(&events, 1), vec![(String::from("a"), 2)]);
}

#[test]
fn frame_that_ends_before_it_starts_weighs_nothing() {
    let events = [start("k", "f", 1, 9_000_000), end("k", "f", 1, 1_000_000)];
    assert_eq!(folded(&events, 1), vec![]);
}

#[test]
fn equal_paths_sum_their_weights() {
    let events = [
        start("k", "f", 1, 0),
        end("k", "f", 1, 2_000_000),
        start("k", "g", 1, 2_000_000),
        end("k", "g", 1, 3_000_000),
        start("k", "f", 1, 5_000_000),
        end("k", "f", 1, 8_500_000),
    ];
    assert_eq!(folded(&events, 1), vec![(String::from("k;f"), 5), (String::from("k;g"), 1)]);
}

#[test]
fn threads_have_stacks_of_their_own() {
    let events = [
        start("a", "", 1, 0),
        start("b", "", 2, 0),
        start("c", "", 1, 1_000_000),
        end("b", "", 2, 4_000_000),
        end("c", "", 1, 2_000_000),
        start("a", "", 2, 5_000_000),
        end("a", "", 1, 3_000_000),
        end("a", "", 2, 7_000_000),
    ];
    assert_eq!(
        folded(&events, 1),
        vec![(String::from("a"), 5), (String::from("a;c"), 1), (String::from("b"), 4)]
    );
}

#[test]
fn deep_paths_join_every_frame() {
    let events = [
        start("query", "a", 1, 0),
        start("query", "b", 1, 0),
        start("activity", "", 1, 0),
        start("query", "c", 1, 0),
        end("query", "c", 1, 1_000_000),
        end("activity", "", 1, 2_000_000),
        end("query", "b", 1, 3_000_000),
        end("query", "a", 1, 4_000_000),
    ];
    assert_eq!(
        folded(&events, 1),
        vec![
            (String::from("query;a"), 4),
            (String::from("query;a;query;b"), 3),
            (String::from("query;a;query;b;activity"), 2),
            (String::from("query;a;query;b;activity;query;c"), 1),
        ]
    );
}

#[test]
fn empty_trace_folds_to_nothing() {
    assert_eq!(folded(&[], 1), vec![]);
}

#[test]
fn zero_interval_is_a_configuration_error() {
    let e = failure(&[], 0);
    assert_eq!(e, CollapseError::InvalidInterval);
    assert!(!e.is_well_formedness());
    let events = [end("k", "f", 1, 0)];
    assert_eq!(failure(&events, 0), CollapseError::InvalidInterval);
    assert!(StackCollapser::new(0).is_err());
}

#[test]
fn end_without_start_is_an_error() {
    let e = failure(&[end("k", "f", 1, 0)], 1);
    assert_eq!(e, CollapseError::UnmatchedEnd { index: 0 });
    assert!(e.is_well_formedness());
    let events = [
        start("k", "f", 1, 0),
        end("k", "f", 1, 1),
        start("k", "f", 2, 2),
        end("k", "f", 1, 3),
        end("k", "f", 2, 4),
    ];
    assert_eq!(failure(&events, 1), CollapseError::UnmatchedEnd { index: 3 });
}

#[test]
fn dangling_start_is_an_error() {
    let e = failure(&[start("k", "f", 1, 0)], 1);
    assert_eq!(e, CollapseError::UnclosedStart);
    assert!(e.is_well_formedness());
    let events = [
        start("a", "", 1, 0),
        start("b", "", 2, 0),
        end("a", "", 1, 5_000_000),
    ];
    assert_eq!(failure(&events, 1), CollapseError::UnclosedStart);
}

#[test]
fn end_of_another_label_is_an_error() {
    let events = [start("k", "f", 1, 0), end("k", "g", 1, 1)];
    assert_eq!(failure(&events, 1), CollapseError::MismatchedEnd { index: 1 });
    let events = [start("k", "f", 1, 0), end("q", "f", 1, 1)];
    assert_eq!(failure(&events, 1), CollapseError::MismatchedEnd { index: 1 });
    let events = [
        start("a", "", 1, 0),
        start("b", "", 1, 1),
        end("a", "", 1, 2),
        end("b", "", 1, 3),
    ];
    assert_eq!(failure(&events, 1), CollapseError::MismatchedEnd { index: 2 });
}

#[test]
fn first_fault_wins() {
    let events = [end("a", "", 1, 0), start("b", "", 1, 1), end("c", "", 1, 2)];
    assert_eq!(failure(&events, 1), CollapseError::UnmatchedEnd { index: 0 });
    let events = [start("b", "", 1, 1), end("c", "", 1, 2), end("a", "", 2, 0)];
    assert_eq!(failure(&events, 1), CollapseError::MismatchedEnd { index: 1 });
}

#[test]
fn collapsing_twice_gives_the_same_weights() {
    let events = [
        start("a", "x", 1, 0),
        start("b", "y", 2, 500_000),
        start("c", "", 1, 1_000_000),
        end("c", "", 1, 3_000_000),
        end("b", "y", 2, 9_000_000),
        end("a", "x", 1, 10_000_000),
    ];
    let first = folded(&events, 1);
    let second = folded(&events, 1);
    assert_eq!(first, second);
    assert_eq!(
        first,
        vec![(String::from("a;x"), 10), (String::from("a;x;c"), 2), (String::from("b;y"), 8)]
    );
    let a = collapse_stacks(&events, 1).ok().unwrap().lines();
    let b = collapse_stacks(&events, 1).ok().unwrap().lines();
    assert_eq!(a, b);
}

#[test]
fn folded_stacks_answer_by_label_and_by_position() {
    let events = [
        start("a", "", 1, 0),
        start("b", "", 1, 1_000_000),
        end("b", "", 1, 3_000_000),
        end("a", "", 1, 4_000_000),
    ];
    let stacks = collapse_stacks(&events, 1).ok().unwrap();
    assert_eq!(stacks.len(), 2);
    assert_eq!(stacks.label(0), "a;b");
    assert_eq!(stacks.weight(0), 2);
    assert_eq!(stacks.label(1), "a");
    assert_eq!(stacks.weight(1), 4);
    assert_eq!(stacks.get("a"), Some(4));
    assert_eq!(stacks.get("a;b"), Some(2));
    assert_eq!(stacks.get("b"), None);
    assert_eq!(stacks.get(""), None);
    assert_eq!(stacks.lines(), vec![String::from("a;b 2"), String::from("a 4")]);
    let none = FoldedStacks::new();
    assert_eq!(none.len(), 0);
    assert_eq!(none.get("a"), None);
    assert_eq!(none.lines(), Vec::<String>::new());
}

#[test]
fn collapser_takes_events_one_at_a_time() {
    let mut c = StackCollapser::new(1).ok().unwrap();
    assert_eq!(c.push(&start("k", "f", 1, 0)), Ok(()));
    assert_eq!(c.push(&end("k", "g", 1, 1)), Err(CollapseError::MismatchedEnd { index: 1 }));
    assert_eq!(c.push(&end("k", "f", 2, 1)), Err(CollapseError::UnmatchedEnd { index: 1 }));
    assert_eq!(c.push(&end("k", "f", 1, 7_000_000)), Ok(()));
    let stacks = c.finish().ok().unwrap();
    assert_eq!(entries(&stacks), vec![(String::from("k;f"), 7)]);
    let mut c = StackCollapser::new(1).ok().unwrap();
    assert_eq!(c.push(&start("k", "f", 1, 0)), Ok(()));
    assert_eq!(c.finish().err(), Some(CollapseError::UnclosedStart));
}

fn recorded_session(interleave: bool) -> ProfilingData {
    let session = SessionMetadata { start_time_nanos: 1, process_id: 2, args: Vec::new() };
    let mut p: Profiler<ByteVecSink> = Profiler::new("stem", &session).unwrap();
    let query = p.alloc_string_with_reserved_id(StringId::reserved(0), "query");
    let foo = p.alloc_string("foo");
    let bar = p.alloc_string("bar");
    p.record_event_at(query, foo, 1, 0, TimestampKind::Start);
    if interleave {
        p.record_event_at(query, bar, 2, 1_000_000, TimestampKind::Start);
        p.record_event_at(query, bar, 1, 1_000_000, TimestampKind::Start);
        p.record_event_at(query, bar, 2, 2_000_000, TimestampKind::End);
        p.record_event_at(query, bar, 1, 3_000_000, TimestampKind::End);
    }
    p.record_event_at(query, foo, 1, 5_000_000, TimestampKind::End);
    let (events, data, index) = p.into_sinks();
    ProfilingData::new(events.into_bytes(), data.into_bytes(), index.as_slice()).unwrap()
}

#[test]
fn recorded_session_folds_end_to_end() {
    let data = recorded_session(false);
    let stacks = collapse_profiling_data(&data, 1).ok().unwrap();
    assert_eq!(entries(&stacks), vec![(String::from("query;foo"), 5)]);
    assert_eq!(stacks.lines(), vec![String::from("query;foo 5")]);
    let data = recorded_session(true);
    let stacks = collapse_profiling_data(&data, 1).ok().unwrap();
    assert_eq!(
        entries(&stacks),
        vec![
            (String::from("query;bar"), 1),
            (String::from("query;foo"), 5),
            (String::from("query;foo;query;bar"), 2),
        ]
    );
    let events = data.events().unwrap();
    assert_eq!(folded(&events, 1), entries(&stacks));
}

#[test]
fn session_faults_are_reported_in_event_order() {
    let session = SessionMetadata { start_time_nanos: 1, process_id: 2, args: Vec::new() };
    let mut p: Profiler<ByteVecSink> = Profiler::new("stem", &session).unwrap();
    let a = p.alloc_string("a");
    let b = p.alloc_string("b");
    p.record_event_at(a, a, 1, 0, TimestampKind::Start);
    p.record_event_at(a, b, 1, 1, TimestampKind::End);
    p.record_event_at(a, StringId(77), 1, 2, TimestampKind::End);
    let (events, data, index) = p.into_sinks();
    let data =
        ProfilingData::new(events.into_bytes(), data.into_bytes(), index.as_slice()).unwrap();
    assert_eq!(
        collapse_profiling_data(&data, 1).err(),
        Some(AnalysisError::Collapse(CollapseError::MismatchedEnd { index: 1 }))
    );
    assert_eq!(
        collapse_profiling_data(&data, 0).err(),
        Some(AnalysisError::Collapse(CollapseError::InvalidInterval))
    );
    assert_eq!(data.events().err(), Some(FormatError::UnknownStringId));

    let mut p: Profiler<ByteVecSink> = Profiler::new("stem", &session).unwrap();
    let a = p.alloc_string("a");
    p.record_event_at(a, StringId(77), 1, 0, TimestampKind::Start);
    p.record_event_at(a, a, 2, 1, TimestampKind::End);
    let (events, data, index) = p.into_sinks();
    let data =
        ProfilingData::new(events.into_bytes(), data.into_bytes(), index.as_slice()).unwrap();
    assert_eq!(
        collapse_profiling_data(&data, 1).err(),
        Some(AnalysisError::Format(FormatError::UnknownStringId))
    );
}

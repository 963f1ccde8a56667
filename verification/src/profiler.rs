//! The profiler: one session of recording.
//!
//! A profiler owns the sink of the event stream and the string table of the
//! session. Recording an event appends one record of fixed width to the
//! event stream, stamped with the time that has passed since the session
//! began. No timestamp of a session is smaller than one recorded before it.

use crate::error::IoError;
use crate::file_header::{write_file_header, FILE_MAGIC_EVENT_STREAM};
use crate::raw_event::{
    event_stream_image, lemma_event_stream_len, RawEvent, Timestamp, TimestampKind,
    MAX_TIMESTAMP_NANOS, RAW_EVENT_SIZE,
};
use crate::file_header::FILE_HEADER_SIZE;
use crate::serialization::SerializationSink;
use crate::stringtable::{
    StringEntry, StringId, StringTableBuilder, MAX_PRE_RESERVED_STRING_ID, METADATA_STRING_ID,
};
use crate::text::{command_line, command_line_spec, decimal, push_decimal};
use vstd::prelude::*;
use vstd::string::StringExecFns;
use vstd::string::StringSliceAdditionalSpecFns;
use vstd::utf8::encode_utf8;

verus! {

/// A point of the monotonic clock of std. Nothing is known of what it
/// holds.
#[verifier::external_type_specification]
#[verifier::external_body]
pub struct ExInstant(std::time::Instant);

/// `Instant::now` of std reads the monotonic clock. Nothing is claimed of
/// the point it returns.
pub assume_specification[ std::time::Instant::now ]() -> std::time::Instant;

/// `Instant::saturating_duration_since` of std gives the time from
/// `earlier` to `later`, and no time at all if `earlier` is the later one.
/// Nothing is claimed of the duration it returns.
pub assume_specification[ std::time::Instant::saturating_duration_since ](
    later: &std::time::Instant,
    earlier: std::time::Instant,
) -> std::time::Duration;

/// `Duration::as_nanos` of std gives a duration in nanoseconds. Nothing is
/// claimed of the number it returns.
pub assume_specification[ std::time::Duration::as_nanos ](duration: &std::time::Duration) -> u128;

/// The three files of a session.
pub struct ProfilerFiles {
    /// Holds the event stream.
    pub events_file: String,
    /// Holds the bytes of the interned strings.
    pub string_data_file: String,
    /// Holds the index of the interned strings.
    pub string_index_file: String,
}

impl ProfilerFiles {
    /// The files of the session with the stem `path_stem`: the stem with
    /// the suffixes `.events`, `.string_data` and `.string_index`.
    pub fn new(path_stem: &str) -> (r: ProfilerFiles)
        ensures
            r.events_file@ == path_stem@ + ".events"@,
            r.string_data_file@ == path_stem@ + ".string_data"@,
            r.string_index_file@ == path_stem@ + ".string_index"@,
    {
        ProfilerFiles {
            events_file: path_stem.to_owned().concat(".events"),
            string_data_file: path_stem.to_owned().concat(".string_data"),
            string_index_file: path_stem.to_owned().concat(".string_index"),
        }
    }
}

/// What a session records of itself: when it began, by the wall clock, in
/// nanoseconds since the Unix epoch; the process that recorded it; and the
/// arguments the process was started with.
pub struct SessionMetadata {
    pub start_time_nanos: u128,
    pub process_id: u32,
    pub args: Vec<String>,
}

/// The text that describes a session.
pub open spec fn metadata_payload(session: &SessionMetadata) -> Seq<char> {
    "{ \"start_time\": "@ + decimal(session.start_time_nanos as nat) + ", \"process_id\": "@
        + decimal(session.process_id as nat) + ", \"cmd\": \""@ + command_line_spec(
        session.args@,
    ) + "\" }"@
}

/// Writes the text that describes a session.
pub fn format_metadata(session: &SessionMetadata) -> (r: String)
    ensures
        r@ == metadata_payload(session),
{
    let mut out = String::new();
    out.append("{ \"start_time\": ");
    push_decimal(&mut out, session.start_time_nanos);
    out.append(", \"process_id\": ");
    push_decimal(&mut out, session.process_id as u128);
    out.append(", \"cmd\": \"");
    let cmd = command_line(&session.args);
    out.append(cmd.as_str());
    out.append("\" }");
    assert(out@ =~= metadata_payload(session));
    out
}

/// Why no session could be started.
#[derive(Debug)]
pub enum ProfilerError {
    /// A sink could not be created.
    Io(IoError),
    /// The description of the session does not fit one entry of the string
    /// table.
    MetadataTooLong,
}

/// Whether a description of `len` bytes fits one entry of the string table,
/// whose lengths are 32 bits wide.
pub fn metadata_fits(len: usize) -> (r: Result<(), ProfilerError>)
    ensures
        r is Ok <==> len <= u32::MAX,
        r matches Err(e) ==> e is MetadataTooLong,
{
    if len as u64 > 0xffff_ffff {
        Err(ProfilerError::MetadataTooLong)
    } else {
        Ok(())
    }
}

/// The nanoseconds `elapsed` as the clock of a session counts them: the
/// most that 64 bits hold if they are more.
pub open spec fn spec_clock_nanos(elapsed: u128) -> u64 {
    if elapsed > u64::MAX {
        u64::MAX
    } else {
        elapsed as u64
    }
}

/// The nanoseconds `elapsed` as the clock of a session counts them.
#[verifier::when_used_as_spec(spec_clock_nanos)]
pub fn clock_nanos(elapsed: u128) -> (r: u64)
    ensures
        r == spec_clock_nanos(elapsed),
{
    if elapsed > 0xffff_ffff_ffff_ffff {
        0xffff_ffff_ffff_ffff
    } else {
        elapsed as u64
    }
}

/// The nanoseconds of the event recorded last, and zero before the first.
pub open spec fn latest_nanos(events: Seq<RawEvent>) -> u64 {
    if events.len() == 0 {
        0
    } else {
        events.last().timestamp.nanos()
    }
}

/// Whether no event carries a smaller timestamp than one before it.
pub open spec fn timestamps_ordered(events: Seq<RawEvent>) -> bool {
    forall|i: int, j: int|
        0 <= i <= j < events.len() ==> events[i].timestamp.nanos() <= events[j].timestamp.nanos()
}

/// Records the events of one session.
pub struct Profiler<S: SerializationSink> {
    event_sink: S,
    string_table: StringTableBuilder<S>,
    start_time: std::time::Instant,
    last_nanos: u64,
    events: Ghost<Seq<RawEvent>>,
}

/// Records the end of an interval when it is finished.
#[must_use]
pub struct TimingGuard {
    event_id: StringId,
    event_kind: StringId,
    thread_id: u64,
}

impl<S: SerializationSink> Profiler<S> {
    /// The events recorded so far, in the order of their recording.
    pub closed spec fn events(&self) -> Seq<RawEvent> {
        self.events@
    }

    /// What the sink of the event stream holds.
    pub closed spec fn event_bytes(&self) -> Seq<u8> {
        self.event_sink.bytes()
    }

    /// The string table of the session.
    pub closed spec fn string_table(&self) -> StringTableBuilder<S> {
        self.string_table
    }

    /// The strings interned so far, each under its id.
    pub open spec fn strings(&self) -> Map<u32, Seq<u8>> {
        self.string_table().strings()
    }

    /// The nanoseconds of the event recorded last, as the profiler keeps
    /// them.
    pub closed spec fn last_nanos(&self) -> u64 {
        self.last_nanos
    }

    /// The invariant of the profiler: the string table is sound, the event
    /// sink holds the header and the records of the events recorded so far,
    /// and their timestamps never fall.
    pub open spec fn wf(&self) -> bool {
        &&& self.string_table().wf()
        &&& self.event_bytes() == event_stream_image(self.events())
        &&& timestamps_ordered(self.events())
        &&& self.last_nanos() == latest_nanos(self.events())
    }

    /// The timestamp that an event gets when the clock shows `nanos`: no
    /// more than a timestamp can hold, and no less than the one before.
    pub open spec fn next_nanos(&self, nanos: u64) -> u64 {
        let capped = if nanos > MAX_TIMESTAMP_NANOS {
            MAX_TIMESTAMP_NANOS
        } else {
            nanos
        };
        if capped < latest_nanos(self.events()) {
            latest_nanos(self.events())
        } else {
            capped
        }
    }

    /// The event that is recorded when the clock shows `nanos`.
    pub open spec fn next_event(
        &self,
        event_kind: StringId,
        event_id: StringId,
        thread_id: u64,
        nanos: u64,
        timestamp_kind: TimestampKind,
    ) -> RawEvent {
        RawEvent {
            event_kind,
            id: event_id,
            thread_id,
            timestamp: Timestamp::spec_new(self.next_nanos(nanos), timestamp_kind),
        }
    }

    /// The size of the event stream: its header and one record of fixed
    /// width for every event recorded.
    pub proof fn lemma_event_stream_size(&self)
        requires
            self.wf(),
        ensures
            self.event_bytes().len() == FILE_HEADER_SIZE + RAW_EVENT_SIZE * self.events().len(),
    {
        lemma_event_stream_len(self.events());
    }

    fn assemble(event_sink: S, string_data_sink: S, string_index_sink: S, payload: &str) -> (r:
        Profiler<S>)
        requires
            event_sink.bytes() == FILE_MAGIC_EVENT_STREAM@,
            string_data_sink.bytes().len() == 0,
            string_index_sink.bytes().len() == 0,
            payload.spec_bytes().len() <= u32::MAX,
        ensures
            r.wf(),
            r.events() == Seq::<RawEvent>::empty(),
            r.string_table().entries() == seq![
                StringEntry { id: METADATA_STRING_ID, bytes: payload.spec_bytes() },
            ],
            r.strings() == Map::<u32, Seq<u8>>::empty().insert(
                METADATA_STRING_ID,
                payload.spec_bytes(),
            ),
    {
        let mut string_table = StringTableBuilder::new(string_data_sink, string_index_sink);
        let _ = string_table.alloc_metadata(payload);
        let r = Profiler {
            event_sink,
            string_table,
            start_time: std::time::Instant::now(),
            last_nanos: 0,
            events: Ghost(Seq::empty()),
        };
        assert(r.event_sink.bytes() =~= event_stream_image(r.events@));
        assert(r.string_table.entries() =~= seq![
            StringEntry { id: METADATA_STRING_ID, bytes: payload.spec_bytes() },
        ]);
        r
    }

    /// Starts a session in three empty sinks: the event stream gets its
    /// file header, the string table is begun, the description of the
    /// session is interned under the id reserved for it, and the clock of
    /// the session starts.
    pub fn from_sinks(
        event_sink: S,
        string_data_sink: S,
        string_index_sink: S,
        session: &SessionMetadata,
    ) -> (r: Result<Profiler<S>, ProfilerError>)
        requires
            event_sink.bytes().len() == 0,
            string_data_sink.bytes().len() == 0,
            string_index_sink.bytes().len() == 0,
        ensures
            r is Ok <==> encode_utf8(metadata_payload(session)).len() <= u32::MAX,
            r matches Err(e) ==> e is MetadataTooLong,
            r matches Ok(p) ==> {
                &&& p.wf()
                &&& p.events() == Seq::<RawEvent>::empty()
                &&& p.strings() == Map::<u32, Seq<u8>>::empty().insert(
                    METADATA_STRING_ID,
                    encode_utf8(metadata_payload(session)),
                )
            },
    {
        let payload = format_metadata(session);
        match metadata_fits(payload.as_str().as_bytes().len()) {
            Err(e) => {
                return Err(e);
            },
            Ok(()) => {},
        }
        let mut event_sink = event_sink;
        write_file_header(&mut event_sink, &FILE_MAGIC_EVENT_STREAM);
        assert(event_sink.bytes() =~= FILE_MAGIC_EVENT_STREAM@);
        Ok(Profiler::assemble(event_sink, string_data_sink, string_index_sink, payload.as_str()))
    }

    /// Starts a session in the three files of the stem `path_stem`. Fails
    /// if a sink cannot be created.
    pub fn new(path_stem: &str, session: &SessionMetadata) -> (r: Result<
        Profiler<S>,
        ProfilerError,
    >)
        ensures
            r matches Err(ProfilerError::MetadataTooLong) <==> encode_utf8(
                metadata_payload(session),
            ).len() > u32::MAX,
            r matches Ok(p) ==> {
                &&& p.wf()
                &&& p.events() == Seq::<RawEvent>::empty()
                &&& p.strings() == Map::<u32, Seq<u8>>::empty().insert(
                    METADATA_STRING_ID,
                    encode_utf8(metadata_payload(session)),
                )
            },
    {
        let payload = format_metadata(session);
        match metadata_fits(payload.as_str().as_bytes().len()) {
            Err(e) => {
                return Err(e);
            },
            Ok(()) => {},
        }
        let paths = ProfilerFiles::new(path_stem);
        let mut event_sink = match S::from_path(paths.events_file.as_str()) {
            Ok(sink) => sink,
            Err(e) => {
                return Err(ProfilerError::Io(e));
            },
        };
        // The first thing in every stream must be its file header.
        write_file_header(&mut event_sink, &FILE_MAGIC_EVENT_STREAM);
        assert(event_sink.bytes() =~= FILE_MAGIC_EVENT_STREAM@);
        let string_data_sink = match S::from_path(paths.string_data_file.as_str()) {
            Ok(sink) => sink,
            Err(e) => {
                return Err(ProfilerError::Io(e));
            },
        };
        let string_index_sink = match S::from_path(paths.string_index_file.as_str()) {
            Ok(sink) => sink,
            Err(e) => {
                return Err(ProfilerError::Io(e));
            },
        };
        Ok(Profiler::assemble(event_sink, string_data_sink, string_index_sink, payload.as_str()))
    }

    /// Interns `s` under `id`, an id of the reserved range that is not in
    /// use.
    pub fn alloc_string_with_reserved_id(&mut self, id: StringId, s: &str) -> (r: StringId)
        requires
            old(self).wf(),
            id.0 <= MAX_PRE_RESERVED_STRING_ID,
            !old(self).strings().dom().contains(id.0),
            s.spec_bytes().len() <= u32::MAX,
            old(self).string_table().data_bytes().len() + s.spec_bytes().len() <= u64::MAX,
        ensures
            final(self).wf(),
            r == id,
            final(self).strings() == old(self).strings().insert(id.0, s.spec_bytes()),
            final(self).string_table().entries() == old(self).string_table().entries().push(
                StringEntry { id: id.0, bytes: s.spec_bytes() },
            ),
            final(self).string_table().next_id() == old(self).string_table().next_id(),
            final(self).events() == old(self).events(),
    {
        self.string_table.alloc_with_reserved_id(id, s)
    }

    /// Interns `s` under `id` if `id` is a free id of the range that
    /// callers choose from and `s` fits an entry of the string table, and
    /// changes nothing otherwise.
    pub fn try_alloc_string_with_reserved_id(&mut self, id: StringId, s: &str) -> (r: Option<
        StringId,
    >)
        requires
            old(self).wf(),
        ensures
            final(self).wf(),
            r is Some <==> id.0 <= MAX_PRE_RESERVED_STRING_ID && !old(
                self,
            ).strings().dom().contains(id.0) && s.spec_bytes().len() <= u32::MAX && old(
                self,
            ).string_table().data_bytes().len() + s.spec_bytes().len() <= u64::MAX,
            r is None ==> final(self).strings() == old(self).strings(),
            r matches Some(given) ==> given == id && final(self).strings() == old(
                self,
            ).strings().insert(id.0, s.spec_bytes()),
            final(self).events() == old(self).events(),
    {
        self.string_table.try_alloc_with_reserved_id(id, s)
    }

    /// Interns `s` under a fresh id, which is none of the reserved range.
    pub fn alloc_string(&mut self, s: &str) -> (id: StringId)
        requires
            old(self).wf(),
            old(self).string_table().next_id() <= u32::MAX,
            s.spec_bytes().len() <= u32::MAX,
            old(self).string_table().data_bytes().len() + s.spec_bytes().len() <= u64::MAX,
        ensures
            final(self).wf(),
            id.0 == old(self).string_table().next_id(),
            !id.is_reserved(),
            !old(self).strings().dom().contains(id.0),
            final(self).strings() == old(self).strings().insert(id.0, s.spec_bytes()),
            final(self).string_table().entries() == old(self).string_table().entries().push(
                StringEntry { id: id.0, bytes: s.spec_bytes() },
            ),
            final(self).string_table().next_id() == old(self).string_table().next_id() + 1,
            final(self).events() == old(self).events(),
    {
        self.string_table.alloc_string(s)
    }

    /// Interns `s` under a fresh id if one is left and `s` fits an entry of
    /// the string table, and changes nothing otherwise.
    pub fn try_alloc_string(&mut self, s: &str) -> (r: Option<StringId>)
        requires
            old(self).wf(),
        ensures
            final(self).wf(),
            r is Some <==> old(self).string_table().next_id() <= u32::MAX && s.spec_bytes().len()
                <= u32::MAX && old(self).string_table().data_bytes().len() + s.spec_bytes().len()
                <= u64::MAX,
            r is None ==> final(self).strings() == old(self).strings(),
            r matches Some(id) ==> !id.is_reserved() && !old(self).strings().dom().contains(id.0)
                && final(self).strings() == old(self).strings().insert(id.0, s.spec_bytes()),
            final(self).events() == old(self).events(),
    {
        self.string_table.try_alloc_string(s)
    }

    /// Records an event at `nanos` nanoseconds since the session began:
    /// appends its record to the event stream in one write. A time that a
    /// timestamp cannot hold is recorded as the greatest that it can, and a
    /// time before the last event as the time of that event.
    pub fn record_event_at(
        &mut self,
        event_kind: StringId,
        event_id: StringId,
        thread_id: u64,
        nanos: u64,
        timestamp_kind: TimestampKind,
    )
        requires
            old(self).wf(),
        ensures
            final(self).wf(),
            final(self).events() == old(self).events().push(
                old(self).next_event(event_kind, event_id, thread_id, nanos, timestamp_kind),
            ),
            final(self).event_bytes() == old(self).event_bytes() + old(self).next_event(
                event_kind,
                event_id,
                thread_id,
                nanos,
                timestamp_kind,
            ).encoding(),
            final(self).string_table() == old(self).string_table(),
    {
        let capped: u64 = if nanos > MAX_TIMESTAMP_NANOS {
            MAX_TIMESTAMP_NANOS
        } else {
            nanos
        };
        let at: u64 = if capped < self.last_nanos {
            self.last_nanos
        } else {
            capped
        };
        let raw_event = RawEvent {
            event_kind,
            id: event_id,
            thread_id,
            timestamp: Timestamp::new(at, timestamp_kind),
        };
        let bytes = raw_event.encode();
        self.event_sink.write_atomic(bytes.as_slice());
        self.last_nanos = at;
        let ghost before = self.events@;
        self.events = Ghost(before.push(raw_event));
        assert(self.events@.drop_last() =~= before);
    }

    /// Records an event. The time of the event is read from the clock of
    /// the session.
    pub fn record_event(
        &mut self,
        event_kind: StringId,
        event_id: StringId,
        thread_id: u64,
        timestamp_kind: TimestampKind,
    )
        requires
            old(self).wf(),
        ensures
            final(self).wf(),
            exists|nanos: u64|
                final(self).events() == old(self).events().push(
                    #[trigger] old(self).next_event(
                        event_kind,
                        event_id,
                        thread_id,
                        nanos,
                        timestamp_kind,
                    ),
                ),
            final(self).string_table() == old(self).string_table(),
    {
        let nanos = self.nanos_since_start();
        self.record_event_at(event_kind, event_id, thread_id, nanos, timestamp_kind);
    }

    /// The instant at which the session began.
    pub closed spec fn start_time(&self) -> std::time::Instant {
        self.start_time
    }

    /// Reads the clock: the time from the start of the session to now, as
    /// std reports it, in nanoseconds that fit 64 bits.
    fn nanos_since_start(&self) -> (r: u64)
        ensures
            exists|now: std::time::Instant, since_start: std::time::Duration, nanos: u128|
                {
                    &&& call_ensures(std::time::Instant::now, (), now)
                    &&& #[trigger] call_ensures(
                        std::time::Instant::saturating_duration_since,
                        (&now, self.start_time()),
                        since_start,
                    )
                    &&& #[trigger] call_ensures(
                        std::time::Duration::as_nanos,
                        (&since_start,),
                        nanos,
                    )
                    &&& r == clock_nanos(nanos)
                },
    {
        let now = std::time::Instant::now();
        assert(call_ensures(std::time::Instant::now, (), now));
        let since_start = now.saturating_duration_since(self.start_time);
        assert(call_ensures(
            std::time::Instant::saturating_duration_since,
            (&now, self.start_time()),
            since_start,
        ));
        let nanos: u128 = since_start.as_nanos();
        assert(call_ensures(std::time::Duration::as_nanos, (&since_start,), nanos));
        clock_nanos(nanos)
    }

    /// Records the start of an interval at `nanos` nanoseconds since the
    /// session began, and returns the guard that records its end.
    pub fn start_recording_interval_event_at(
        &mut self,
        event_kind: StringId,
        event_id: StringId,
        thread_id: u64,
        nanos: u64,
    ) -> (guard: TimingGuard)
        requires
            old(self).wf(),
        ensures
            final(self).wf(),
            final(self).events() == old(self).events().push(
                old(self).next_event(event_kind, event_id, thread_id, nanos, TimestampKind::Start),
            ),
            final(self).string_table() == old(self).string_table(),
            guard.event_kind() == event_kind,
            guard.event_id() == event_id,
            guard.thread_id() == thread_id,
    {
        self.record_event_at(event_kind, event_id, thread_id, nanos, TimestampKind::Start);
        TimingGuard { event_id, event_kind, thread_id }
    }

    /// Records the start of an interval and returns the guard that records
    /// its end.
    pub fn start_recording_interval_event(
        &mut self,
        event_kind: StringId,
        event_id: StringId,
        thread_id: u64,
    ) -> (guard: TimingGuard)
        requires
            old(self).wf(),
        ensures
            final(self).wf(),
            exists|nanos: u64|
                final(self).events() == old(self).events().push(
                    #[trigger] old(self).next_event(
                        event_kind,
                        event_id,
                        thread_id,
                        nanos,
                        TimestampKind::Start,
                    ),
                ),
            final(self).string_table() == old(self).string_table(),
            guard.event_kind() == event_kind,
            guard.event_id() == event_id,
            guard.thread_id() == thread_id,
    {
        self.record_event(event_kind, event_id, thread_id, TimestampKind::Start);
        TimingGuard { event_id, event_kind, thread_id }
    }

    /// Gives up the profiler for its three sinks: the event stream, the
    /// string data and the string index.
    pub fn into_sinks(self) -> (r: (S, S, S))
        ensures
            r.0.bytes() == self.event_bytes(),
            r.1.bytes() == self.string_table().data_bytes(),
            r.2.bytes() == self.string_table().index_bytes(),
    {
        let (data, index) = self.string_table.into_sinks();
        (self.event_sink, data, index)
    }
}

impl TimingGuard {
    /// The kind of the interval.
    pub closed spec fn event_kind(&self) -> StringId {
        self.event_kind
    }

    /// The label of the interval.
    pub closed spec fn event_id(&self) -> StringId {
        self.event_id
    }

    /// The thread that the interval runs on.
    pub closed spec fn thread_id(&self) -> u64 {
        self.thread_id
    }

    /// Records the end of the interval at `nanos` nanoseconds since the
    /// session began: one event of the kind, label and thread that the
    /// interval started with.
    pub fn finish_at<S: SerializationSink>(self, profiler: &mut Profiler<S>, nanos: u64)
        requires
            old(profiler).wf(),
        ensures
            final(profiler).wf(),
            final(profiler).events() == old(profiler).events().push(
                old(profiler).next_event(
                    self.event_kind(),
                    self.event_id(),
                    self.thread_id(),
                    nanos,
                    TimestampKind::End,
                ),
            ),
            final(profiler).string_table() == old(profiler).string_table(),
    {
        profiler.record_event_at(
            self.event_kind,
            self.event_id,
            self.thread_id,
            nanos,
            TimestampKind::End,
        );
    }

    /// Records the end of the interval: one event of the kind, label and
    /// thread that the interval started with.
    pub fn finish<S: SerializationSink>(self, profiler: &mut Profiler<S>)
        requires
            old(profiler).wf(),
        ensures
            final(profiler).wf(),
            exists|nanos: u64|
                final(profiler).events() == old(profiler).events().push(
                    #[trigger] old(profiler).next_event(
                        self.event_kind(),
                        self.event_id(),
                        self.thread_id(),
                        nanos,
                        TimestampKind::End,
                    ),
                ),
            final(profiler).string_table() == old(profiler).string_table(),
    {
        assert(self.event_kind() == self.event_kind && self.event_id() == self.event_id
            && self.thread_id() == self.thread_id);
        profiler.record_event(self.event_kind, self.event_id, self.thread_id, TimestampKind::End);
    }
}

} // verus!

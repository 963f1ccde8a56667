//! Reading a session back.
//!
//! A [`ProfilingData`] holds the three streams of a finished session. It
//! checks their headers and loads the string index when it is made; the
//! events are decoded, and their strings looked up, one at a time and only
//! when they are asked for.

use crate::error::FormatError;
use crate::file_header::{read_file_header, FILE_HEADER_SIZE, FILE_MAGIC_EVENT_STREAM};
use crate::profiler::Profiler;
use crate::raw_event::{
    event_count, event_record_at, lemma_event_stream_round_trip, parse_event_stream, RawEvent,
    TimestampKind, RAW_EVENT_SIZE,
};
use crate::serialization::SerializationSink;
use crate::stringtable::{parse_string_table, StringTable};
use vstd::prelude::*;
use vstd::string::StringSliceAdditionalSpecFns;
use vstd::utf8::{decode_utf8, valid_utf8};

verus! {

/// Why bytes are no text. Nothing is known of what it holds.
#[verifier::external_type_specification]
#[verifier::external_body]
pub struct ExUtf8Error(core::str::Utf8Error);

/// `core::str::from_utf8` of std checks that `v` is UTF-8. If it is, the
/// string slice that comes back consists of the very bytes of `v`; if it is
/// not, an error comes back.
pub assume_specification<'a>[ core::str::from_utf8 ](v: &'a [u8]) -> (r: Result<
    &'a str,
    core::str::Utf8Error,
>)
    ensures
        r is Ok <==> valid_utf8(v@),
        r matches Ok(s) ==> s.spec_bytes() == v@,
;

/// One event, with its strings looked up.
#[derive(Debug)]
pub struct Event {
    /// The name of the kind of event.
    pub event_kind: String,
    /// The label of the event.
    pub label: String,
    /// The nanoseconds since the session began.
    pub nanos: u64,
    /// Whether the event starts an interval or ends one.
    pub timestamp_kind: TimestampKind,
    /// The thread that recorded the event.
    pub thread_id: u64,
}

/// What an event says.
pub struct EventView {
    pub event_kind: Seq<char>,
    pub label: Seq<char>,
    pub nanos: u64,
    pub timestamp_kind: TimestampKind,
    pub thread_id: u64,
}

impl View for Event {
    type V = EventView;

    open spec fn view(&self) -> EventView {
        EventView {
            event_kind: self.event_kind@,
            label: self.label@,
            nanos: self.nanos,
            timestamp_kind: self.timestamp_kind,
            thread_id: self.thread_id,
        }
    }
}

impl Event {
    /// An event of kind `event_kind` with the label `label`.
    pub fn new(
        event_kind: &str,
        label: &str,
        nanos: u64,
        timestamp_kind: TimestampKind,
        thread_id: u64,
    ) -> (r: Event)
        ensures
            r@ == (EventView {
                event_kind: event_kind@,
                label: label@,
                nanos,
                timestamp_kind,
                thread_id,
            }),
    {
        Event {
            event_kind: event_kind.to_owned(),
            label: label.to_owned(),
            nanos,
            timestamp_kind,
            thread_id,
        }
    }
}

/// What the three streams of a session hold: its events as recorded, and
/// its strings, each under its id. The event stream is looked at first.
pub open spec fn parse_profiling_data(
    event_data: Seq<u8>,
    string_data: Seq<u8>,
    string_index: Seq<u8>,
) -> Result<(Seq<RawEvent>, Map<u32, Seq<u8>>), FormatError> {
    match parse_event_stream(event_data) {
        Err(e) => Err(e),
        Ok(events) => match parse_string_table(string_data, string_index) {
            Err(e) => Err(e),
            Ok(strings) => Ok((events, strings)),
        },
    }
}

/// What a recorded event says once its two ids are looked up in `strings`:
/// both must be there, and both must be text.
pub open spec fn resolve_event(raw: RawEvent, strings: Map<u32, Seq<u8>>) -> Result<
    EventView,
    FormatError,
> {
    if !strings.dom().contains(raw.event_kind.0) || !strings.dom().contains(raw.id.0) {
        Err(FormatError::UnknownStringId)
    } else if !valid_utf8(strings[raw.event_kind.0]) || !valid_utf8(strings[raw.id.0]) {
        Err(FormatError::InvalidUtf8)
    } else {
        Ok(
            EventView {
                event_kind: decode_utf8(strings[raw.event_kind.0]),
                label: decode_utf8(strings[raw.id.0]),
                nanos: raw.timestamp.nanos(),
                timestamp_kind: raw.timestamp.kind(),
                thread_id: raw.thread_id,
            },
        )
    }
}

/// What the first `n` of `events` say, or the fault of the first that
/// cannot be resolved.
pub open spec fn resolve_events(events: Seq<RawEvent>, strings: Map<u32, Seq<u8>>, n: nat) -> Result<
    Seq<EventView>,
    FormatError,
>
    decreases n,
{
    if n == 0 {
        Ok(Seq::empty())
    } else {
        match resolve_events(events, strings, (n - 1) as nat) {
            Err(e) => Err(e),
            Ok(resolved) => match resolve_event(events[n - 1], strings) {
                Err(e) => Err(e),
                Ok(event) => Ok(resolved.push(event)),
            },
        }
    }
}

/// The views of a run of events.
pub open spec fn event_views(events: Seq<Event>) -> Seq<EventView> {
    Seq::new(events.len(), |i: int| events[i]@)
}

/// The streams of a finished session.
pub struct ProfilingData {
    event_data: Vec<u8>,
    string_table: StringTable,
}

fn text_of(bytes: &[u8]) -> (r: Option<String>)
    ensures
        r is Some <==> valid_utf8(bytes@),
        r matches Some(s) ==> s@ == decode_utf8(bytes@),
{
    broadcast use vstd::utf8::encode_utf8_decode_utf8;

    match core::str::from_utf8(bytes) {
        Ok(s) => Some(s.to_owned()),
        Err(_) => None,
    }
}

impl ProfilingData {
    /// The events of the session as they were recorded.
    pub closed spec fn raw_events(&self) -> Seq<RawEvent> {
        Seq::new(
            event_count(self.event_data@),
            |i: int| RawEvent::decoding(event_record_at(self.event_data@, i)),
        )
    }

    /// The strings of the session, each under its id.
    pub closed spec fn strings(&self) -> Map<u32, Seq<u8>> {
        self.string_table.strings()
    }

    /// The invariant of the data: the event stream consists of its header
    /// and whole records, and the string table is sound.
    pub closed spec fn wf(&self) -> bool {
        &&& self.string_table.wf()
        &&& self.event_data@.len() >= FILE_HEADER_SIZE
        &&& (self.event_data@.len() - FILE_HEADER_SIZE) % (RAW_EVENT_SIZE as int) == 0
    }

    /// Takes the three streams of a session. The event stream must open
    /// with its magic constant and go on in whole records, and the two
    /// streams of the string table must make a table.
    pub fn new(event_data: Vec<u8>, string_data: Vec<u8>, string_index: &[u8]) -> (r: Result<
        ProfilingData,
        FormatError,
    >)
        ensures
            match parse_profiling_data(event_data@, string_data@, string_index@) {
                Ok((events, strings)) => r matches Ok(data) && data.wf() && data.raw_events()
                    == events && data.strings() == strings,
                Err(e) => r matches Err(found) && found == e,
            },
    {
        match read_file_header(event_data.as_slice(), &FILE_MAGIC_EVENT_STREAM) {
            Err(e) => {
                return Err(e);
            },
            Ok(()) => {},
        }
        if (event_data.len() - FILE_HEADER_SIZE) % RAW_EVENT_SIZE != 0 {
            return Err(FormatError::Truncated);
        }
        match StringTable::new(string_data, string_index) {
            Err(e) => Err(e),
            Ok(string_table) => Ok(ProfilingData { event_data, string_table }),
        }
    }

    /// The number of events of the session.
    pub fn num_events(&self) -> (n: usize)
        requires
            self.wf(),
        ensures
            n == self.raw_events().len(),
    {
        (self.event_data.len() - FILE_HEADER_SIZE) / RAW_EVENT_SIZE
    }

    /// The `i`-th event as it was recorded, if there are that many.
    pub fn raw_event(&self, i: usize) -> (r: Option<RawEvent>)
        requires
            self.wf(),
        ensures
            r == if i < self.raw_events().len() {
                Some(self.raw_events()[i as int])
            } else {
                None
            },
    {
        let n = self.num_events();
        if i < n {
            assert(RAW_EVENT_SIZE * n == self.event_data@.len() - FILE_HEADER_SIZE);
            assert(self.event_data.len() == self.event_data@.len());
            Some(RawEvent::decode(self.event_data.as_slice(), FILE_HEADER_SIZE + RAW_EVENT_SIZE * i))
        } else {
            None
        }
    }

    /// The `i`-th event with its strings looked up.
    pub fn event(&self, i: usize) -> (r: Result<Event, FormatError>)
        requires
            self.wf(),
        ensures
            match r {
                Ok(event) => i < self.raw_events().len() && resolve_event(
                    self.raw_events()[i as int],
                    self.strings(),
                ) == Ok::<EventView, FormatError>(event@),
                Err(e) => if i < self.raw_events().len() {
                    resolve_event(self.raw_events()[i as int], self.strings()) == Err::<
                        EventView,
                        FormatError,
                    >(e)
                } else {
                    e == FormatError::NoSuchEvent
                },
            },
    {
        let raw = match self.raw_event(i) {
            None => {
                return Err(FormatError::NoSuchEvent);
            },
            Some(raw) => raw,
        };
        let kind_bytes = match self.string_table.get(raw.event_kind) {
            None => {
                return Err(FormatError::UnknownStringId);
            },
            Some(bytes) => bytes,
        };
        let label_bytes = match self.string_table.get(raw.id) {
            None => {
                return Err(FormatError::UnknownStringId);
            },
            Some(bytes) => bytes,
        };
        let event_kind = match text_of(kind_bytes) {
            None => {
                return Err(FormatError::InvalidUtf8);
            },
            Some(text) => text,
        };
        let label = match text_of(label_bytes) {
            None => {
                return Err(FormatError::InvalidUtf8);
            },
            Some(text) => text,
        };
        Ok(
            Event {
                event_kind,
                label,
                nanos: raw.timestamp.nanos(),
                timestamp_kind: raw.timestamp.kind(),
                thread_id: raw.thread_id,
            },
        )
    }

    /// All events of the session, in the order of their recording, with
    /// their strings looked up; or the fault of the first event that cannot
    /// be resolved.
    pub fn events(&self) -> (r: Result<Vec<Event>, FormatError>)
        requires
            self.wf(),
        ensures
            match resolve_events(self.raw_events(), self.strings(), self.raw_events().len()) {
                Ok(views) => r matches Ok(events) && event_views(events@) == views,
                Err(e) => r matches Err(found) && found == e,
            },
    {
        let n = self.num_events();
        let mut out: Vec<Event> = Vec::new();
        let mut i: usize = 0;
        assert(event_views(out@) =~= Seq::<EventView>::empty());
        while i < n
            invariant
                self.wf(),
                i <= n,
                n == self.raw_events().len(),
                resolve_events(self.raw_events(), self.strings(), i as nat) == Ok::<
                    Seq<EventView>,
                    FormatError,
                >(event_views(out@)),
            decreases n - i,
        {
            match self.event(i) {
                Err(e) => {
                    proof {
                        lemma_resolve_events_error_is_final(
                            self.raw_events(),
                            self.strings(),
                            (i + 1) as nat,
                            n as nat,
                        );
                    }
                    return Err(e);
                },
                Ok(event) => {
                    let ghost before = out@;
                    out.push(event);
                    assert(event_views(out@) =~= event_views(before).push(event@));
                },
            }
            i += 1;
        }
        Ok(out)
    }
}

/// The fault of one event is the fault of every longer run of events.
pub proof fn lemma_resolve_events_error_is_final(
    events: Seq<RawEvent>,
    strings: Map<u32, Seq<u8>>,
    k: nat,
    n: nat,
)
    requires
        k <= n,
        resolve_events(events, strings, k) is Err,
    ensures
        resolve_events(events, strings, n) == resolve_events(events, strings, k),
    decreases n,
{
    if k < n {
        lemma_resolve_events_error_is_final(events, strings, k, (n - 1) as nat);
    }
}

/// Reading back the streams that a profiler wrote gives the events that it
/// recorded, in the order of their recording, and every string that it
/// interned, under the id it was given.
pub proof fn lemma_session_round_trip<S: SerializationSink>(profiler: &Profiler<S>)
    requires
        profiler.wf(),
    ensures
        parse_profiling_data(
            profiler.event_bytes(),
            profiler.string_table().data_bytes(),
            profiler.string_table().index_bytes(),
        ) == Ok::<(Seq<RawEvent>, Map<u32, Seq<u8>>), FormatError>(
            (profiler.events(), profiler.strings()),
        ),
{
    lemma_event_stream_round_trip(profiler.events());
    profiler.string_table().lemma_round_trip();
}

} // verus!

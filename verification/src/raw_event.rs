//! The fixed-width event record and the stream of such records.
//!
//! A record is 24 bytes: the id of the event's kind, the id of its label,
//! the thread that recorded it, and its timestamp, each little-endian. The
//! timestamp counts nanoseconds since the session began in its low 63 bits;
//! its highest bit tells an end from a start.

use crate::encoding::{
    lemma_u32_le_bytes_round_trip, lemma_u32_le_round_trip, lemma_u64_le_bytes_round_trip,
    lemma_u64_le_round_trip, u32_from_le, u32_from_le_bytes, u32_le_bytes, u32_to_le,
    u64_from_le, u64_from_le_bytes, u64_le_bytes, u64_to_le,
};
use crate::error::FormatError;
use crate::file_header::{has_file_header, FILE_HEADER_SIZE, FILE_MAGIC_EVENT_STREAM};
use crate::stringtable::StringId;
use vstd::prelude::*;

verus! {

/// The number of bytes of one event record.
pub const RAW_EVENT_SIZE: usize = 24;

/// The greatest number of nanoseconds that a timestamp can hold.
pub const MAX_TIMESTAMP_NANOS: u64 = 0x7fff_ffff_ffff_ffff;

/// The bit of a timestamp that marks the end of an interval.
pub const TIMESTAMP_END_BIT: u64 = 0x8000_0000_0000_0000;

/// Whether an event opens an interval or closes one.
#[derive(Debug, Clone, Copy, PartialEq, Eq, Structural)]
pub enum TimestampKind {
    Start,
    End,
}

/// Nanoseconds since the session began, tagged with a kind.
#[derive(Debug, Clone, Copy, PartialEq, Eq, Structural)]
pub struct Timestamp {
    /// The timestamp as it stands in a record.
    pub raw: u64,
}

impl Timestamp {
    /// The nanoseconds since the session began.
    pub open spec fn spec_nanos(self) -> u64 {
        if self.raw >= TIMESTAMP_END_BIT {
            (self.raw - TIMESTAMP_END_BIT) as u64
        } else {
            self.raw
        }
    }

    /// The kind of the event.
    pub open spec fn spec_kind(self) -> TimestampKind {
        if self.raw >= TIMESTAMP_END_BIT {
            TimestampKind::End
        } else {
            TimestampKind::Start
        }
    }

    /// The timestamp of kind `kind` at `nanos` nanoseconds.
    pub open spec fn spec_new(nanos: u64, kind: TimestampKind) -> Timestamp {
        Timestamp {
            raw: match kind {
                TimestampKind::Start => nanos,
                TimestampKind::End => (nanos + TIMESTAMP_END_BIT) as u64,
            },
        }
    }

    /// The timestamp of kind `kind` at `nanos` nanoseconds.
    #[verifier::when_used_as_spec(spec_new)]
    pub fn new(nanos: u64, kind: TimestampKind) -> (r: Timestamp)
        requires
            nanos <= MAX_TIMESTAMP_NANOS,
        ensures
            r == Timestamp::spec_new(nanos, kind),
            r.nanos() == nanos,
            r.kind() == kind,
    {
        match kind {
            TimestampKind::Start => Timestamp { raw: nanos },
            TimestampKind::End => Timestamp { raw: nanos + TIMESTAMP_END_BIT },
        }
    }

    /// The timestamp of kind `kind` at `nanos` nanoseconds, or at the
    /// greatest number that a timestamp can hold if `nanos` is beyond it.
    pub fn saturating(nanos: u64, kind: TimestampKind) -> (r: Timestamp)
        ensures
            r.nanos() == if nanos <= MAX_TIMESTAMP_NANOS {
                nanos
            } else {
                MAX_TIMESTAMP_NANOS
            },
            r.kind() == kind,
    {
        if nanos <= MAX_TIMESTAMP_NANOS {
            Timestamp::new(nanos, kind)
        } else {
            Timestamp::new(MAX_TIMESTAMP_NANOS, kind)
        }
    }

    /// The nanoseconds since the session began.
    #[verifier::when_used_as_spec(spec_nanos)]
    pub fn nanos(self) -> (r: u64)
        ensures
            r == self.spec_nanos(),
            r <= MAX_TIMESTAMP_NANOS,
    {
        if self.raw >= TIMESTAMP_END_BIT {
            self.raw - TIMESTAMP_END_BIT
        } else {
            self.raw
        }
    }

    /// The kind of the event.
    #[verifier::when_used_as_spec(spec_kind)]
    pub fn kind(self) -> (r: TimestampKind)
        ensures
            r == self.spec_kind(),
    {
        if self.raw >= TIMESTAMP_END_BIT {
            TimestampKind::End
        } else {
            TimestampKind::Start
        }
    }
}

/// One recorded event.
#[derive(Debug, Clone, Copy, PartialEq, Eq, Structural)]
pub struct RawEvent {
    /// The interned name of the kind of event.
    pub event_kind: StringId,
    /// The interned label of the event.
    pub id: StringId,
    /// The thread that recorded the event.
    pub thread_id: u64,
    /// When the event was recorded, and whether it starts or ends.
    pub timestamp: Timestamp,
}

impl RawEvent {
    /// The 24 bytes of the record.
    pub open spec fn encoding(self) -> Seq<u8> {
        u32_le_bytes(self.event_kind.0) + u32_le_bytes(self.id.0) + u64_le_bytes(self.thread_id)
            + u64_le_bytes(self.timestamp.raw)
    }

    /// The record that 24 bytes stand for.
    pub open spec fn decoding(bytes: Seq<u8>) -> RawEvent
        recommends
            bytes.len() == RAW_EVENT_SIZE,
    {
        RawEvent {
            event_kind: StringId(u32_from_le_bytes(bytes.subrange(0, 4))),
            id: StringId(u32_from_le_bytes(bytes.subrange(4, 8))),
            thread_id: u64_from_le_bytes(bytes.subrange(8, 16)),
            timestamp: Timestamp { raw: u64_from_le_bytes(bytes.subrange(16, 24)) },
        }
    }

    /// Every record has the same width, and decoding its bytes gives the
    /// record back.
    pub proof fn lemma_round_trip(self)
        ensures
            self.encoding().len() == RAW_EVENT_SIZE,
            RawEvent::decoding(self.encoding()) == self,
    {
        lemma_u32_le_round_trip(self.event_kind.0);
        lemma_u32_le_round_trip(self.id.0);
        lemma_u64_le_round_trip(self.thread_id);
        lemma_u64_le_round_trip(self.timestamp.raw);
        let bytes = self.encoding();
        assert(bytes.subrange(0, 4) =~= u32_le_bytes(self.event_kind.0));
        assert(bytes.subrange(4, 8) =~= u32_le_bytes(self.id.0));
        assert(bytes.subrange(8, 16) =~= u64_le_bytes(self.thread_id));
        assert(bytes.subrange(16, 24) =~= u64_le_bytes(self.timestamp.raw));
    }

    /// Any 24 bytes are the encoding of the record that they decode to.
    pub proof fn lemma_bytes_round_trip(bytes: Seq<u8>)
        requires
            bytes.len() == RAW_EVENT_SIZE,
        ensures
            RawEvent::decoding(bytes).encoding() == bytes,
    {
        lemma_u32_le_bytes_round_trip(bytes.subrange(0, 4));
        lemma_u32_le_bytes_round_trip(bytes.subrange(4, 8));
        lemma_u64_le_bytes_round_trip(bytes.subrange(8, 16));
        lemma_u64_le_bytes_round_trip(bytes.subrange(16, 24));
        assert(bytes.subrange(0, 4) + bytes.subrange(4, 8) + bytes.subrange(8, 16)
            + bytes.subrange(16, 24) =~= bytes);
    }

    /// Encodes the record, field by field.
    pub fn encode(&self) -> (r: [u8; 24])
        ensures
            r@ == self.encoding(),
    {
        let a = u32_to_le(self.event_kind.0);
        let b = u32_to_le(self.id.0);
        let c = u64_to_le(self.thread_id);
        let d = u64_to_le(self.timestamp.raw);
        let r: [u8; 24] = [
            a[0], a[1], a[2], a[3],
            b[0], b[1], b[2], b[3],
            c[0], c[1], c[2], c[3], c[4], c[5], c[6], c[7],
            d[0], d[1], d[2], d[3], d[4], d[5], d[6], d[7],
        ];
        assert(r@ =~= self.encoding());
        r
    }

    /// Decodes the record that starts at `at`.
    pub fn decode(bytes: &[u8], at: usize) -> (r: RawEvent)
        requires
            at + RAW_EVENT_SIZE <= bytes.len(),
        ensures
            r == RawEvent::decoding(bytes@.subrange(at as int, at + RAW_EVENT_SIZE)),
    {
        let event_kind = u32_from_le(bytes, at);
        let id = u32_from_le(bytes, at + 4);
        let thread_id = u64_from_le(bytes, at + 8);
        let raw = u64_from_le(bytes, at + 16);
        proof {
            let record = bytes@.subrange(at as int, at + RAW_EVENT_SIZE);
            assert(record.subrange(0, 4) =~= bytes@.subrange(at as int, at + 4));
            assert(record.subrange(4, 8) =~= bytes@.subrange(at + 4, at + 8));
            assert(record.subrange(8, 16) =~= bytes@.subrange(at + 8, at + 16));
            assert(record.subrange(16, 24) =~= bytes@.subrange(at + 16, at + 24));
        }
        RawEvent {
            event_kind: StringId(event_kind),
            id: StringId(id),
            thread_id,
            timestamp: Timestamp { raw },
        }
    }
}

/// The event stream after `events` were recorded in order: the file header,
/// then one record per event.
pub open spec fn event_stream_image(events: Seq<RawEvent>) -> Seq<u8>
    decreases events.len(),
{
    if events.len() == 0 {
        FILE_MAGIC_EVENT_STREAM@
    } else {
        event_stream_image(events.drop_last()) + events.last().encoding()
    }
}

/// The bytes of the `i`-th record of an event stream.
pub open spec fn event_record_at(bytes: Seq<u8>, i: int) -> Seq<u8> {
    bytes.subrange(FILE_HEADER_SIZE + RAW_EVENT_SIZE * i, FILE_HEADER_SIZE + RAW_EVENT_SIZE * (i + 1))
}

/// The number of whole records behind the header of an event stream.
pub open spec fn event_count(bytes: Seq<u8>) -> nat {
    ((bytes.len() - FILE_HEADER_SIZE) / (RAW_EVENT_SIZE as int)) as nat
}

/// The events that an event stream holds, or what is wrong with it: it must
/// open with the magic constant of event streams and go on in whole
/// records.
pub open spec fn parse_event_stream(bytes: Seq<u8>) -> Result<Seq<RawEvent>, FormatError> {
    if bytes.len() < FILE_HEADER_SIZE {
        Err(FormatError::Truncated)
    } else if !has_file_header(bytes, FILE_MAGIC_EVENT_STREAM@) {
        Err(FormatError::BadMagic)
    } else if (bytes.len() - FILE_HEADER_SIZE) % (RAW_EVENT_SIZE as int) != 0 {
        Err(FormatError::Truncated)
    } else {
        Ok(Seq::new(event_count(bytes), |i: int| RawEvent::decoding(event_record_at(bytes, i))))
    }
}

/// An event stream is its header and one record of fixed width per event.
pub proof fn lemma_event_stream_len(events: Seq<RawEvent>)
    ensures
        event_stream_image(events).len() == FILE_HEADER_SIZE + RAW_EVENT_SIZE * events.len(),
    decreases events.len(),
{
    if events.len() > 0 {
        lemma_event_stream_len(events.drop_last());
        events.last().lemma_round_trip();
    }
}

/// Recording more events only appends: the `i`-th record of a stream is the
/// encoding of the `i`-th event, and the stream opens with its header.
pub proof fn lemma_event_stream_records(events: Seq<RawEvent>, i: int)
    requires
        0 <= i < events.len(),
    ensures
        event_record_at(event_stream_image(events), i) == events[i].encoding(),
    decreases events.len(),
{
    let init = events.drop_last();
    lemma_event_stream_len(init);
    events.last().lemma_round_trip();
    let stream = event_stream_image(events);
    if i == events.len() - 1 {
        assert(event_record_at(stream, i) =~= events.last().encoding());
    } else {
        lemma_event_stream_records(init, i);
        assert(event_record_at(stream, i) =~= event_record_at(event_stream_image(init), i));
    }
}

/// An event stream opens with the magic constant of event streams.
pub proof fn lemma_event_stream_header(events: Seq<RawEvent>)
    ensures
        has_file_header(event_stream_image(events), FILE_MAGIC_EVENT_STREAM@),
    decreases events.len(),
{
    if events.len() == 0 {
        assert(event_stream_image(events).subrange(0, 4) =~= FILE_MAGIC_EVENT_STREAM@);
    } else {
        lemma_event_stream_header(events.drop_last());
        assert(event_stream_image(events).subrange(0, 4) =~= event_stream_image(
            events.drop_last(),
        ).subrange(0, 4));
    }
}

/// Reading back a stream of recorded events gives exactly those events, in
/// the order of their recording.
pub proof fn lemma_event_stream_round_trip(events: Seq<RawEvent>)
    ensures
        parse_event_stream(event_stream_image(events)) == Ok::<Seq<RawEvent>, FormatError>(events),
{
    let stream = event_stream_image(events);
    lemma_event_stream_len(events);
    lemma_event_stream_header(events);
    assert(event_count(stream) == events.len());
    let parsed = Seq::new(
        event_count(stream),
        |i: int| RawEvent::decoding(event_record_at(stream, i)),
    );
    assert forall|i: int| 0 <= i < events.len() implies parsed[i] == events[i] by {
        lemma_event_stream_records(events, i);
        events[i].lemma_round_trip();
    }
    assert(parsed =~= events);
}

} // verus!

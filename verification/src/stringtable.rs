//! The string table: strings interned under compact ids.
//!
//! Two streams hold a table. The data stream holds the bytes of the strings,
//! one after the other. The index stream holds one fixed-width record per
//! string: its id, the offset of its bytes in the data stream, and their
//! number. Ids come from two ranges that never meet: a caller chooses
//! reserved ids for labels it knows in advance, and the table hands out the
//! ids above them on demand.

use crate::encoding::{
    lemma_u32_le_round_trip, lemma_u64_le_round_trip, u32_from_le, u32_from_le_bytes,
    u32_le_bytes, u32_to_le, u64_from_le, u64_from_le_bytes, u64_le_bytes, u64_to_le,
};
use crate::error::FormatError;
use crate::file_header::{
    has_file_header, read_file_header, write_file_header, FILE_HEADER_SIZE,
    FILE_MAGIC_STRINGTABLE_DATA, FILE_MAGIC_STRINGTABLE_INDEX,
};
use crate::serialization::SerializationSink;
use std::collections::HashMap;
use vstd::prelude::*;
use vstd::slice::slice_subrange;
use vstd::string::StringSliceAdditionalSpecFns;

verus! {

/// The greatest id that a caller may choose for a label of its own.
pub const MAX_PRE_RESERVED_STRING_ID: u32 = 0x7fff_ffff;

/// The reserved id under which a session describes itself.
pub const METADATA_STRING_ID: u32 = 0x8000_0000;

/// The least id that the table hands out on demand.
pub const FIRST_REGULAR_STRING_ID: u32 = 0x8000_0001;

/// The number of bytes of one index record.
pub const INDEX_ENTRY_SIZE: usize = 16;

/// Names an interned string.
#[derive(Debug, Clone, Copy, PartialEq, Eq, Hash, Structural)]
pub struct StringId(pub u32);

impl StringId {
    /// Whether the id lies in the reserved range, which the table never
    /// hands out on demand.
    pub open spec fn spec_is_reserved(self) -> bool {
        self.0 <= METADATA_STRING_ID
    }

    /// The id `id` of the range that callers choose from.
    pub fn reserved(id: u32) -> (r: StringId)
        requires
            id <= MAX_PRE_RESERVED_STRING_ID,
        ensures
            r == StringId(id),
            r.spec_is_reserved(),
    {
        StringId(id)
    }

    /// Whether the id lies in the reserved range.
    #[verifier::when_used_as_spec(spec_is_reserved)]
    pub fn is_reserved(self) -> (r: bool)
        ensures
            r == self.spec_is_reserved(),
    {
        self.0 <= METADATA_STRING_ID
    }

    /// The id as a number.
    pub fn as_u32(self) -> (r: u32)
        ensures
            r == self.0,
    {
        self.0
    }
}

/// One interned string: the id it was given and its bytes.
pub struct StringEntry {
    pub id: u32,
    pub bytes: Seq<u8>,
}

/// The index record of the string `id`, whose `len` bytes start at `offset`.
pub open spec fn index_record(id: u32, offset: u64, len: u32) -> Seq<u8> {
    u32_le_bytes(id) + u64_le_bytes(offset) + u32_le_bytes(len)
}

/// The id that an index record carries.
pub open spec fn record_id(record: Seq<u8>) -> u32 {
    u32_from_le_bytes(record.subrange(0, 4))
}

/// The offset that an index record carries.
pub open spec fn record_offset(record: Seq<u8>) -> u64 {
    u64_from_le_bytes(record.subrange(4, 12))
}

/// The length that an index record carries.
pub open spec fn record_len(record: Seq<u8>) -> u32 {
    u32_from_le_bytes(record.subrange(12, 16))
}

/// The data stream after the strings of `entries` were interned in order.
pub open spec fn data_image(entries: Seq<StringEntry>) -> Seq<u8>
    decreases entries.len(),
{
    if entries.len() == 0 {
        FILE_MAGIC_STRINGTABLE_DATA@
    } else {
        data_image(entries.drop_last()) + entries.last().bytes
    }
}

/// The index stream after the strings of `entries` were interned in order.
pub open spec fn index_image(entries: Seq<StringEntry>) -> Seq<u8>
    decreases entries.len(),
{
    if entries.len() == 0 {
        FILE_MAGIC_STRINGTABLE_INDEX@
    } else {
        index_image(entries.drop_last()) + index_record(
            entries.last().id,
            data_image(entries.drop_last()).len() as u64,
            entries.last().bytes.len() as u32,
        )
    }
}

/// The strings of `entries`, each under its id.
pub open spec fn table_of(entries: Seq<StringEntry>) -> Map<u32, Seq<u8>>
    decreases entries.len(),
{
    if entries.len() == 0 {
        Map::empty()
    } else {
        table_of(entries.drop_last()).insert(entries.last().id, entries.last().bytes)
    }
}

/// Whether every string of `entries` got an id of its own and fits the
/// fields of its index record.
pub open spec fn entries_fit(entries: Seq<StringEntry>) -> bool
    decreases entries.len(),
{
    entries.len() > 0 ==> {
        &&& entries_fit(entries.drop_last())
        &&& !table_of(entries.drop_last()).dom().contains(entries.last().id)
        &&& data_image(entries.drop_last()).len() <= u64::MAX
        &&& entries.last().bytes.len() <= u32::MAX
    }
}

/// Encodes one index record.
pub fn encode_index_entry(id: u32, offset: u64, len: u32) -> (r: [u8; 16])
    ensures
        r@ == index_record(id, offset, len),
{
    let a = u32_to_le(id);
    let b = u64_to_le(offset);
    let c = u32_to_le(len);
    let r: [u8; 16] = [
        a[0], a[1], a[2], a[3],
        b[0], b[1], b[2], b[3], b[4], b[5], b[6], b[7],
        c[0], c[1], c[2], c[3],
    ];
    assert(r@ =~= index_record(id, offset, len));
    r
}

/// Writes a string table into two sinks.
pub struct StringTableBuilder<S: SerializationSink> {
    data_sink: S,
    index_sink: S,
    data_len: u64,
    next_id: u64,
    reserved: Vec<u32>,
    entries: Ghost<Seq<StringEntry>>,
}

impl<S: SerializationSink> StringTableBuilder<S> {
    /// The strings interned so far, in the order of their interning.
    pub closed spec fn entries(&self) -> Seq<StringEntry> {
        self.entries@
    }

    /// The strings interned so far, each under its id.
    pub open spec fn strings(&self) -> Map<u32, Seq<u8>> {
        table_of(self.entries())
    }

    /// What the data sink holds.
    pub closed spec fn data_bytes(&self) -> Seq<u8> {
        self.data_sink.bytes()
    }

    /// What the index sink holds.
    pub closed spec fn index_bytes(&self) -> Seq<u8> {
        self.index_sink.bytes()
    }

    /// The id that the next string interned on demand will get; 2^32 once
    /// the ids are used up.
    pub closed spec fn next_id(&self) -> nat {
        self.next_id as nat
    }

    spec fn ids_wf(&self) -> bool {
        &&& FIRST_REGULAR_STRING_ID <= self.next_id <= 0x1_0000_0000
        &&& forall|id: u32|
            id >= FIRST_REGULAR_STRING_ID ==> (#[trigger] table_of(self.entries@).dom().contains(id)
                <==> id < self.next_id)
        &&& forall|id: u32|
            id < FIRST_REGULAR_STRING_ID ==> (#[trigger] table_of(self.entries@).dom().contains(id)
                <==> self.reserved@.contains(id))
    }

    /// The invariant of the builder: the two sinks hold the images of the
    /// strings interned so far, no id was given twice, and the ids handed
    /// out on demand are exactly those between the first regular id and the
    /// next one.
    pub closed spec fn wf(&self) -> bool {
        &&& self.streams_wf()
        &&& self.ids_wf()
    }

    /// Starts a table in two empty sinks: each gets its file header.
    pub fn new(data_sink: S, index_sink: S) -> (r: Self)
        requires
            data_sink.bytes().len() == 0,
            index_sink.bytes().len() == 0,
        ensures
            r.wf(),
            r.entries() == Seq::<StringEntry>::empty(),
            r.next_id() == FIRST_REGULAR_STRING_ID,
            r.data_bytes() == FILE_MAGIC_STRINGTABLE_DATA@,
            r.index_bytes() == FILE_MAGIC_STRINGTABLE_INDEX@,
    {
        let mut data_sink = data_sink;
        let mut index_sink = index_sink;
        write_file_header(&mut data_sink, &FILE_MAGIC_STRINGTABLE_DATA);
        write_file_header(&mut index_sink, &FILE_MAGIC_STRINGTABLE_INDEX);
        let r = StringTableBuilder {
            data_sink,
            index_sink,
            data_len: FILE_HEADER_SIZE as u64,
            next_id: FIRST_REGULAR_STRING_ID as u64,
            reserved: Vec::new(),
            entries: Ghost(Seq::empty()),
        };
        assert(r.data_sink.bytes() =~= data_image(r.entries@));
        assert(r.index_sink.bytes() =~= index_image(r.entries@));
        r
    }

    /// Whether a string was interned under `id`.
    pub fn is_allocated(&self, id: StringId) -> (r: bool)
        requires
            self.wf(),
        ensures
            r == self.strings().dom().contains(id.0),
    {
        if id.0 >= FIRST_REGULAR_STRING_ID {
            (id.0 as u64) < self.next_id
        } else {
            let mut i: usize = 0;
            while i < self.reserved.len()
                invariant
                    i <= self.reserved.len(),
                    forall|j: int| 0 <= j < i ==> self.reserved@[j] != id.0,
                    self.wf(),
                    id.0 < FIRST_REGULAR_STRING_ID,
                decreases self.reserved.len() - i,
            {
                if self.reserved[i] == id.0 {
                    assert(self.reserved@.contains(id.0));
                    return true;
                }
                i += 1;
            }
            assert(!self.reserved@.contains(id.0));
            false
        }
    }

    /// Whether the ids that are handed out on demand are used up.
    pub fn is_full(&self) -> (r: bool)
        ensures
            r == (self.next_id() > u32::MAX),
    {
        self.next_id > 0xffff_ffff
    }

    spec fn streams_wf(&self) -> bool {
        &&& self.data_sink.bytes() == data_image(self.entries@)
        &&& self.index_sink.bytes() == index_image(self.entries@)
        &&& self.data_len == self.data_sink.bytes().len()
        &&& entries_fit(self.entries@)
    }

    /// Whether `len` more bytes of string data can still be addressed by
    /// the 64-bit offsets of the index.
    pub fn has_room_for(&self, len: usize) -> (r: bool)
        requires
            self.wf(),
        ensures
            r == (self.data_bytes().len() + len <= u64::MAX),
    {
        len as u64 <= 0xffff_ffff_ffff_ffff - self.data_len
    }

    fn alloc_unchecked(&mut self, id: u32, bytes: &[u8])
        requires
            old(self).streams_wf(),
            !table_of(old(self).entries@).dom().contains(id),
            bytes@.len() <= u32::MAX,
            old(self).data_sink.bytes().len() + bytes@.len() <= u64::MAX,
        ensures
            final(self).streams_wf(),
            final(self).entries@ == old(self).entries@.push(StringEntry { id, bytes: bytes@ }),
            table_of(final(self).entries@) == table_of(old(self).entries@).insert(id, bytes@),
            final(self).next_id == old(self).next_id,
            final(self).reserved == old(self).reserved,
            final(self).data_sink.bytes() == old(self).data_sink.bytes() + bytes@,
            final(self).index_sink.bytes() == old(self).index_sink.bytes() + index_record(
                id,
                old(self).data_sink.bytes().len() as u64,
                bytes@.len() as u32,
            ),
    {
        let addr: u64 = self.data_len;
        self.data_sink.write_atomic(bytes);
        self.data_len = addr + bytes.len() as u64;
        let record = encode_index_entry(id, addr, bytes.len() as u32);
        self.index_sink.write_atomic(record.as_slice());
        let ghost before = self.entries@;
        let ghost after = before.push(StringEntry { id, bytes: bytes@ });
        self.entries = Ghost(after);
        assert(after.drop_last() =~= before);
    }

    /// Interns `s` under the next id of the range that is handed out on
    /// demand: appends its bytes to the data stream and its record to the
    /// index stream.
    pub fn alloc_string(&mut self, s: &str) -> (id: StringId)
        requires
            old(self).wf(),
            old(self).next_id() <= u32::MAX,
            s.spec_bytes().len() <= u32::MAX,
            old(self).data_bytes().len() + s.spec_bytes().len() <= u64::MAX,
        ensures
            final(self).wf(),
            id.0 == old(self).next_id(),
            !id.is_reserved(),
            !old(self).strings().dom().contains(id.0),
            final(self).next_id() == old(self).next_id() + 1,
            final(self).entries() == old(self).entries().push(
                StringEntry { id: id.0, bytes: s.spec_bytes() },
            ),
            final(self).strings() == old(self).strings().insert(id.0, s.spec_bytes()),
            final(self).data_bytes() == old(self).data_bytes() + s.spec_bytes(),
            final(self).index_bytes() == old(self).index_bytes() + index_record(
                id.0,
                old(self).data_bytes().len() as u64,
                s.spec_bytes().len() as u32,
            ),
    {
        let id: u32 = self.next_id as u32;
        self.alloc_unchecked(id, s.as_bytes());
        self.next_id = self.next_id + 1;
        StringId(id)
    }

    /// Interns `s` on demand if an id is left and `s` fits an index record,
    /// and changes nothing otherwise.
    pub fn try_alloc_string(&mut self, s: &str) -> (r: Option<StringId>)
        requires
            old(self).wf(),
        ensures
            final(self).wf(),
            r is Some <==> old(self).next_id() <= u32::MAX && s.spec_bytes().len() <= u32::MAX
                && old(self).data_bytes().len() + s.spec_bytes().len() <= u64::MAX,
            r is None ==> *final(self) == *old(self),
            r matches Some(id) ==> {
                &&& id.0 == old(self).next_id()
                &&& !id.is_reserved()
                &&& !old(self).strings().dom().contains(id.0)
                &&& final(self).next_id() == old(self).next_id() + 1
                &&& final(self).entries() == old(self).entries().push(
                    StringEntry { id: id.0, bytes: s.spec_bytes() },
                )
                &&& final(self).strings() == old(self).strings().insert(id.0, s.spec_bytes())
            },
    {
        if self.next_id > 0xffff_ffff || s.as_bytes().len() as u64 > 0xffff_ffff
            || !self.has_room_for(s.as_bytes().len()) {
            None
        } else {
            Some(self.alloc_string(s))
        }
    }

    fn alloc_reserved(&mut self, id: u32, s: &str)
        requires
            old(self).wf(),
            id <= METADATA_STRING_ID,
            !old(self).strings().dom().contains(id),
            s.spec_bytes().len() <= u32::MAX,
            old(self).data_bytes().len() + s.spec_bytes().len() <= u64::MAX,
        ensures
            final(self).wf(),
            final(self).next_id() == old(self).next_id(),
            final(self).entries() == old(self).entries().push(
                StringEntry { id, bytes: s.spec_bytes() },
            ),
            final(self).strings() == old(self).strings().insert(id, s.spec_bytes()),
            final(self).data_bytes() == old(self).data_bytes() + s.spec_bytes(),
            final(self).index_bytes() == old(self).index_bytes() + index_record(
                id,
                old(self).data_bytes().len() as u64,
                s.spec_bytes().len() as u32,
            ),
    {
        self.alloc_unchecked(id, s.as_bytes());
        self.reserved.push(id);
        proof {
            let before = old(self).reserved@;
            assert forall|other: u32| #[trigger]
                self.reserved@.contains(other) <==> before.contains(other) || other == id by {
                vstd::seq_lib::lemma_seq_contains_after_push(before, id, other);
            }
        }
    }

    /// Interns `s` under `id`, an id of the reserved range that the caller
    /// chose and that is not in use: appends its bytes to the data stream
    /// and its record to the index stream.
    pub fn alloc_with_reserved_id(&mut self, id: StringId, s: &str) -> (r: StringId)
        requires
            old(self).wf(),
            id.0 <= MAX_PRE_RESERVED_STRING_ID,
            !old(self).strings().dom().contains(id.0),
            s.spec_bytes().len() <= u32::MAX,
            old(self).data_bytes().len() + s.spec_bytes().len() <= u64::MAX,
        ensures
            final(self).wf(),
            r == id,
            final(self).next_id() == old(self).next_id(),
            final(self).entries() == old(self).entries().push(
                StringEntry { id: id.0, bytes: s.spec_bytes() },
            ),
            final(self).strings() == old(self).strings().insert(id.0, s.spec_bytes()),
            final(self).data_bytes() == old(self).data_bytes() + s.spec_bytes(),
            final(self).index_bytes() == old(self).index_bytes() + index_record(
                id.0,
                old(self).data_bytes().len() as u64,
                s.spec_bytes().len() as u32,
            ),
    {
        self.alloc_reserved(id.0, s);
        id
    }

    /// Interns `s` under `id` if `id` is a free id of the range that callers
    /// choose from and `s` fits an index record, and changes nothing
    /// otherwise.
    pub fn try_alloc_with_reserved_id(&mut self, id: StringId, s: &str) -> (r: Option<StringId>)
        requires
            old(self).wf(),
        ensures
            final(self).wf(),
            r is Some <==> id.0 <= MAX_PRE_RESERVED_STRING_ID && !old(
                self,
            ).strings().dom().contains(id.0) && s.spec_bytes().len() <= u32::MAX && old(
                self,
            ).data_bytes().len() + s.spec_bytes().len() <= u64::MAX,
            r is None ==> *final(self) == *old(self),
            r matches Some(given) ==> {
                &&& given == id
                &&& final(self).next_id() == old(self).next_id()
                &&& final(self).entries() == old(self).entries().push(
                    StringEntry { id: id.0, bytes: s.spec_bytes() },
                )
                &&& final(self).strings() == old(self).strings().insert(id.0, s.spec_bytes())
            },
    {
        if id.0 > MAX_PRE_RESERVED_STRING_ID || s.as_bytes().len() as u64 > 0xffff_ffff
            || !self.has_room_for(s.as_bytes().len()) || self.is_allocated(id) {
            None
        } else {
            Some(self.alloc_with_reserved_id(id, s))
        }
    }

    /// Interns the description of the session under the id reserved for it.
    pub fn alloc_metadata(&mut self, s: &str) -> (r: StringId)
        requires
            old(self).wf(),
            !old(self).strings().dom().contains(METADATA_STRING_ID),
            s.spec_bytes().len() <= u32::MAX,
            old(self).data_bytes().len() + s.spec_bytes().len() <= u64::MAX,
        ensures
            final(self).wf(),
            r == StringId(METADATA_STRING_ID),
            final(self).next_id() == old(self).next_id(),
            final(self).entries() == old(self).entries().push(
                StringEntry { id: METADATA_STRING_ID, bytes: s.spec_bytes() },
            ),
            final(self).strings() == old(self).strings().insert(
                METADATA_STRING_ID,
                s.spec_bytes(),
            ),
            final(self).data_bytes() == old(self).data_bytes() + s.spec_bytes(),
            final(self).index_bytes() == old(self).index_bytes() + index_record(
                METADATA_STRING_ID,
                old(self).data_bytes().len() as u64,
                s.spec_bytes().len() as u32,
            ),
    {
        self.alloc_reserved(METADATA_STRING_ID, s);
        StringId(METADATA_STRING_ID)
    }

    /// The two sinks hold the images of the strings interned so far, and no
    /// id was given twice.
    pub proof fn lemma_streams(&self)
        requires
            self.wf(),
        ensures
            self.data_bytes() == data_image(self.entries()),
            self.index_bytes() == index_image(self.entries()),
            entries_fit(self.entries()),
    {
    }

    /// Reading back what the builder wrote gives every string that was
    /// interned, under the id it was given.
    pub proof fn lemma_round_trip(&self)
        requires
            self.wf(),
        ensures
            parse_string_table(self.data_bytes(), self.index_bytes()) == Ok::<
                Map<u32, Seq<u8>>,
                FormatError,
            >(self.strings()),
    {
        let entries = self.entries@;
        lemma_image_lengths(entries);
        lemma_images_of_prefix(entries, 0);
        lemma_parse_entries_of_images(entries, entries.len());
        assert(entries.take(entries.len() as int) =~= entries);
        assert(entries.take(0) =~= Seq::<StringEntry>::empty());
    }

    /// Gives up the builder for its two sinks: the data sink, then the
    /// index sink.
    pub fn into_sinks(self) -> (r: (S, S))
        ensures
            r.0.bytes() == self.data_bytes(),
            r.1.bytes() == self.index_bytes(),
    {
        (self.data_sink, self.index_sink)
    }
}

/// The `k`-th record of an index stream.
pub open spec fn index_record_at(index: Seq<u8>, k: int) -> Seq<u8> {
    index.subrange(
        FILE_HEADER_SIZE + INDEX_ENTRY_SIZE * k,
        FILE_HEADER_SIZE + INDEX_ENTRY_SIZE * (k + 1),
    )
}

/// The strings that the first `n` records of `index` name in `data`, or the
/// fault of the first record that names none.
pub open spec fn parse_entries(data: Seq<u8>, index: Seq<u8>, n: nat) -> Result<
    Map<u32, Seq<u8>>,
    FormatError,
>
    decreases n,
{
    if n == 0 {
        Ok(Map::empty())
    } else {
        match parse_entries(data, index, (n - 1) as nat) {
            Err(e) => Err(e),
            Ok(table) => {
                let record = index_record_at(index, n - 1);
                let id = record_id(record);
                let offset = record_offset(record);
                let len = record_len(record);
                if offset < FILE_HEADER_SIZE || offset + len > data.len() {
                    Err(FormatError::StringOutOfBounds)
                } else if table.dom().contains(id) {
                    Err(FormatError::DuplicateStringId)
                } else {
                    Ok(table.insert(id, data.subrange(offset as int, offset + len)))
                }
            },
        }
    }
}

/// A fault in one record is the fault of every longer run of records.
pub proof fn lemma_parse_entries_error_is_final(data: Seq<u8>, index: Seq<u8>, k: nat, n: nat)
    requires
        k <= n,
        parse_entries(data, index, k) is Err,
    ensures
        parse_entries(data, index, n) == parse_entries(data, index, k),
    decreases n,
{
    if k < n {
        lemma_parse_entries_error_is_final(data, index, k, (n - 1) as nat);
    }
}

/// The strings that a data stream and an index stream hold, or the first
/// fault in them.
pub open spec fn parse_string_table(data: Seq<u8>, index: Seq<u8>) -> Result<
    Map<u32, Seq<u8>>,
    FormatError,
> {
    if data.len() < FILE_HEADER_SIZE {
        Err(FormatError::Truncated)
    } else if !has_file_header(data, FILE_MAGIC_STRINGTABLE_DATA@) {
        Err(FormatError::BadMagic)
    } else if index.len() < FILE_HEADER_SIZE {
        Err(FormatError::Truncated)
    } else if !has_file_header(index, FILE_MAGIC_STRINGTABLE_INDEX@) {
        Err(FormatError::BadMagic)
    } else if (index.len() - FILE_HEADER_SIZE) % (INDEX_ENTRY_SIZE as int) != 0 {
        Err(FormatError::Truncated)
    } else {
        parse_entries(
            data,
            index,
            ((index.len() - FILE_HEADER_SIZE) / (INDEX_ENTRY_SIZE as int)) as nat,
        )
    }
}

/// The strings that the ranges of `index` cut out of `data`.
pub open spec fn strings_of(data: Seq<u8>, index: Map<u32, (u64, u32)>) -> Map<u32, Seq<u8>> {
    Map::new(
        |id: u32| index.dom().contains(id),
        |id: u32| data.subrange(index[id].0 as int, index[id].0 + index[id].1),
    )
}

/// A string table that was read back: the data stream, and the index held
/// in memory for lookup by id.
pub struct StringTable {
    data: Vec<u8>,
    index: HashMap<u32, (u64, u32)>,
}

impl StringTable {
    /// The strings of the table, each under its id.
    pub closed spec fn strings(&self) -> Map<u32, Seq<u8>> {
        strings_of(self.data@, self.index@)
    }

    /// The invariant of the table: every range of the index lies in the
    /// data stream, behind its header.
    pub closed spec fn wf(&self) -> bool {
        forall|id: u32| #[trigger]
            self.index@.dom().contains(id) ==> FILE_HEADER_SIZE <= self.index@[id].0
                && self.index@[id].0 + self.index@[id].1 <= self.data@.len()
    }

    /// Reads a table from its data stream and its index stream. Both must
    /// open with their magic constant; the index must consist of whole
    /// records, each with an id of its own and a range inside the data.
    pub fn new(data: Vec<u8>, index: &[u8]) -> (r: Result<StringTable, FormatError>)
        ensures
            match parse_string_table(data@, index@) {
                Ok(strings) => r matches Ok(table) && table.wf() && table.strings() == strings,
                Err(e) => r matches Err(found) && found == e,
            },
    {
        broadcast use vstd::std_specs::hash::group_hash_axioms;

        match read_file_header(data.as_slice(), &FILE_MAGIC_STRINGTABLE_DATA) {
            Err(e) => {
                return Err(e);
            },
            Ok(()) => {},
        }
        match read_file_header(index, &FILE_MAGIC_STRINGTABLE_INDEX) {
            Err(e) => {
                return Err(e);
            },
            Ok(()) => {},
        }
        if (index.len() - FILE_HEADER_SIZE) % INDEX_ENTRY_SIZE != 0 {
            return Err(FormatError::Truncated);
        }
        let n: usize = (index.len() - FILE_HEADER_SIZE) / INDEX_ENTRY_SIZE;
        let data_len: u64 = data.len() as u64;
        let mut map: HashMap<u32, (u64, u32)> = HashMap::new();
        let mut k: usize = 0;
        assert(strings_of(data@, map@) =~= Map::<u32, Seq<u8>>::empty());
        while k < n
            invariant
                k <= n,
                index.len() == FILE_HEADER_SIZE + INDEX_ENTRY_SIZE * n,
                parse_string_table(data@, index@) == parse_entries(data@, index@, n as nat),
                data_len == data@.len(),
                parse_entries(data@, index@, k as nat) == Ok::<Map<u32, Seq<u8>>, FormatError>(
                    strings_of(data@, map@),
                ),
                forall|id: u32| #[trigger]
                    map@.dom().contains(id) ==> FILE_HEADER_SIZE <= map@[id].0 && map@[id].0
                        + map@[id].1 <= data@.len(),
            decreases n - k,
        {
            let at: usize = FILE_HEADER_SIZE + INDEX_ENTRY_SIZE * k;
            let id = u32_from_le(index, at);
            let offset = u64_from_le(index, at + 4);
            let len = u32_from_le(index, at + 12);
            proof {
                let record = index_record_at(index@, k as int);
                assert(record.subrange(0, 4) =~= index@.subrange(at as int, at + 4));
                assert(record.subrange(4, 12) =~= index@.subrange(at + 4, at + 12));
                assert(record.subrange(12, 16) =~= index@.subrange(at + 12, at + 16));
            }
            if offset < FILE_HEADER_SIZE as u64 || offset > data_len || len as u64 > data_len
                - offset {
                proof {
                    lemma_parse_entries_error_is_final(data@, index@, (k + 1) as nat, n as nat);
                }
                return Err(FormatError::StringOutOfBounds);
            }
            if map.contains_key(&id) {
                proof {
                    lemma_parse_entries_error_is_final(data@, index@, (k + 1) as nat, n as nat);
                }
                return Err(FormatError::DuplicateStringId);
            }
            let ghost before = map@;
            map.insert(id, (offset, len));
            proof {
                assert(strings_of(data@, map@) =~= strings_of(data@, before).insert(
                    id,
                    data@.subrange(offset as int, offset + len),
                ));
            }
            k += 1;
        }
        Ok(StringTable { data, index: map })
    }

    /// Whether the table holds a string under `id`.
    pub fn contains(&self, id: StringId) -> (r: bool)
        ensures
            r == self.strings().dom().contains(id.0),
    {
        broadcast use vstd::std_specs::hash::group_hash_axioms;

        self.index.contains_key(&id.0)
    }

    /// The bytes that were interned under `id`, if any were.
    pub fn get(&self, id: StringId) -> (r: Option<&[u8]>)
        requires
            self.wf(),
        ensures
            match r {
                Some(bytes) => self.strings().dom().contains(id.0) && bytes@
                    == self.strings()[id.0],
                None => !self.strings().dom().contains(id.0),
            },
    {
        broadcast use vstd::std_specs::hash::group_hash_axioms;

        match self.index.get(&id.0) {
            None => None,
            Some(range) => {
                let data_len: usize = self.data.len();
                assert(self.index@.dom().contains(id.0));
                assert(range.0 + range.1 <= data_len);
                let start: usize = range.0 as usize;
                let end: usize = start + range.1 as usize;
                Some(slice_subrange(self.data.as_slice(), start, end))
            },
        }
    }
}

/// Decoding an index record gives its three fields back.
pub proof fn lemma_index_record_fields(id: u32, offset: u64, len: u32)
    ensures
        index_record(id, offset, len).len() == INDEX_ENTRY_SIZE,
        record_id(index_record(id, offset, len)) == id,
        record_offset(index_record(id, offset, len)) == offset,
        record_len(index_record(id, offset, len)) == len,
{
    lemma_u32_le_round_trip(id);
    lemma_u64_le_round_trip(offset);
    lemma_u32_le_round_trip(len);
    let record = index_record(id, offset, len);
    assert(record.subrange(0, 4) =~= u32_le_bytes(id));
    assert(record.subrange(4, 12) =~= u64_le_bytes(offset));
    assert(record.subrange(12, 16) =~= u32_le_bytes(len));
}

/// The index stream holds its header and one whole record per string; the
/// data stream holds at least its header.
pub proof fn lemma_image_lengths(entries: Seq<StringEntry>)
    ensures
        index_image(entries).len() == FILE_HEADER_SIZE + INDEX_ENTRY_SIZE * entries.len(),
        data_image(entries).len() >= FILE_HEADER_SIZE,
    decreases entries.len(),
{
    if entries.len() > 0 {
        let last = entries.last();
        lemma_image_lengths(entries.drop_last());
        lemma_index_record_fields(
            last.id,
            data_image(entries.drop_last()).len() as u64,
            last.bytes.len() as u32,
        );
    }
}

/// Interning more strings only appends: the streams after the first `j`
/// strings open the streams after all of them.
pub proof fn lemma_images_of_prefix(entries: Seq<StringEntry>, j: nat)
    requires
        j <= entries.len(),
    ensures
        data_image(entries.take(j as int)).is_prefix_of(data_image(entries)),
        index_image(entries.take(j as int)).is_prefix_of(index_image(entries)),
        entries_fit(entries) ==> entries_fit(entries.take(j as int)),
    decreases entries.len(),
{
    if j == entries.len() {
        assert(entries.take(j as int) =~= entries);
    } else {
        let init = entries.drop_last();
        assert(entries.take(j as int) =~= init.take(j as int));
        lemma_images_of_prefix(init, j);
    }
}

/// Reading the first `k` records of a table that was written gives the
/// first `k` strings that were interned.
pub proof fn lemma_parse_entries_of_images(entries: Seq<StringEntry>, k: nat)
    requires
        entries_fit(entries),
        k <= entries.len(),
    ensures
        parse_entries(data_image(entries), index_image(entries), k) == Ok::<
            Map<u32, Seq<u8>>,
            FormatError,
        >(table_of(entries.take(k as int))),
    decreases k,
{
    let data = data_image(entries);
    let index = index_image(entries);
    if k == 0 {
        assert(entries.take(0) =~= Seq::<StringEntry>::empty());
    } else {
        lemma_parse_entries_of_images(entries, (k - 1) as nat);
        let prev = entries.take(k - 1);
        let cur = entries.take(k as int);
        let e = entries[k - 1];
        assert(cur.drop_last() =~= prev);
        assert(cur.last() == e);
        lemma_images_of_prefix(entries, k);
        lemma_image_lengths(prev);
        lemma_image_lengths(cur);
        let offset = data_image(prev).len() as u64;
        let len = e.bytes.len() as u32;
        let record = index_record(e.id, offset, len);
        lemma_index_record_fields(e.id, offset, len);
        assert(entries_fit(cur));
        let index_cur = index_image(cur);
        let data_cur = data_image(cur);
        assert(index_cur == index_image(prev) + record);
        assert(data_cur == data_image(prev) + e.bytes);
        assert(index_cur == index.subrange(0, index_cur.len() as int));
        assert(data_cur == data.subrange(0, data_cur.len() as int));
        let at = FILE_HEADER_SIZE + INDEX_ENTRY_SIZE * (k - 1);
        assert(index_cur.subrange(at, at + 16) =~= record);
        assert(index.subrange(at, at + 16) =~= index.subrange(0, index_cur.len() as int).subrange(
            at,
            at + 16,
        ));
        assert(data_cur.subrange(offset as int, offset + len) =~= e.bytes);
        assert(data.subrange(offset as int, offset + len) =~= data.subrange(
            0,
            data_cur.len() as int,
        ).subrange(offset as int, offset + len));
    }
}

} // verus!

//! The magic constant that opens every stream of a session.

use crate::error::FormatError;
use crate::serialization::SerializationSink;
use vstd::prelude::*;

verus! {

/// The number of bytes that a file header occupies.
pub const FILE_HEADER_SIZE: usize = 4;

/// Opens the stream of event records.
pub const FILE_MAGIC_EVENT_STREAM: [u8; 4] = [0x4d, 0x4d, 0x45, 0x53];

/// Opens the stream that holds the bytes of the interned strings.
pub const FILE_MAGIC_STRINGTABLE_DATA: [u8; 4] = [0x4d, 0x4d, 0x53, 0x44];

/// Opens the stream that holds the index of the interned strings.
pub const FILE_MAGIC_STRINGTABLE_INDEX: [u8; 4] = [0x4d, 0x4d, 0x53, 0x49];

/// Whether `bytes` begins with `magic`.
pub open spec fn has_file_header(bytes: Seq<u8>, magic: Seq<u8>) -> bool {
    bytes.len() >= magic.len() && bytes.subrange(0, magic.len() as int) == magic
}

/// Writes `magic` to `sink` in one write.
pub fn write_file_header<S: SerializationSink>(sink: &mut S, magic: &[u8; 4])
    ensures
        final(sink).bytes() == old(sink).bytes() + magic@,
{
    sink.write_atomic(magic.as_slice());
}

/// Checks that `bytes` opens with `expected_magic`.
pub fn read_file_header(bytes: &[u8], expected_magic: &[u8; 4]) -> (r: Result<(), FormatError>)
    ensures
        r is Ok <==> has_file_header(bytes@, expected_magic@),
        r == Err::<(), FormatError>(FormatError::Truncated) <==> bytes@.len() < FILE_HEADER_SIZE,
        r == Err::<(), FormatError>(FormatError::BadMagic) <==> bytes@.len() >= FILE_HEADER_SIZE
            && !has_file_header(bytes@, expected_magic@),
{
    if bytes.len() < FILE_HEADER_SIZE {
        return Err(FormatError::Truncated);
    }
    let mut i: usize = 0;
    while i < FILE_HEADER_SIZE
        invariant
            i <= FILE_HEADER_SIZE,
            bytes@.len() >= FILE_HEADER_SIZE,
            forall|j: int| 0 <= j < i ==> bytes@[j] == expected_magic@[j],
        decreases FILE_HEADER_SIZE - i,
    {
        if bytes[i] != expected_magic[i] {
            assert(bytes@.subrange(0, 4)[i as int] == bytes@[i as int]);
            return Err(FormatError::BadMagic);
        }
        i += 1;
    }
    assert(bytes@.subrange(0, 4) =~= expected_magic@);
    Ok(())
}

} // verus!

//! Append-only byte storage.
//!
//! A sink only ever grows: each write lands whole at the current end. The
//! profiler and the string table are written against the trait alone, so the
//! same code records into memory or into a file. A store that lives outside
//! the library, such as a file, implements [`StorageBackend`] and is used
//! through a [`BackedSink`].

use crate::error::IoError;
use vstd::prelude::*;

verus! {

/// An append-only store of bytes.
pub trait SerializationSink: Sized {
    /// Everything that was written so far, in order.
    spec fn bytes(&self) -> Seq<u8>;

    /// Creates a fresh, empty store for `path`.
    fn from_path(path: &str) -> (r: Result<Self, IoError>)
        ensures
            r matches Ok(sink) ==> sink.bytes() == Seq::<u8>::empty(),
    ;

    /// Appends `data` at the end, as one contiguous run.
    fn write_atomic(&mut self, data: &[u8])
        ensures
            final(self).bytes() == old(self).bytes() + data@,
    ;
}

/// A sink that keeps its bytes in memory.
pub struct ByteVecSink {
    data: Vec<u8>,
}

impl ByteVecSink {
    /// An empty sink.
    pub fn new() -> (r: Self)
        ensures
            r.bytes() == Seq::<u8>::empty(),
    {
        ByteVecSink { data: Vec::new() }
    }

    /// The number of bytes written so far.
    pub fn len(&self) -> (n: usize)
        ensures
            n == self.bytes().len(),
    {
        self.data.len()
    }

    /// The bytes written so far.
    pub fn as_slice(&self) -> (r: &[u8])
        ensures
            r@ == self.bytes(),
    {
        self.data.as_slice()
    }

    /// Gives up the sink for the bytes written into it.
    pub fn into_bytes(self) -> (r: Vec<u8>)
        ensures
            r@ == self.bytes(),
    {
        self.data
    }
}

impl SerializationSink for ByteVecSink {
    closed spec fn bytes(&self) -> Seq<u8> {
        self.data@
    }

    fn from_path(path: &str) -> (r: Result<Self, IoError>)
        ensures
            r is Ok,
    {
        Ok(ByteVecSink::new())
    }

    fn write_atomic(&mut self, data: &[u8]) {
        self.data.extend_from_slice(data);
    }
}

/// A store outside the library that takes bytes and keeps them in the order
/// in which it gets them. Nothing is known of what it does with them.
pub trait StorageBackend: Sized {
    /// Creates a fresh, empty store for `path`.
    fn create(path: &str) -> Result<Self, IoError>;

    /// Takes `data` behind everything it took before. A store that cannot
    /// take them does not return.
    fn append(&mut self, data: &[u8]);
}

/// A sink that hands every write on to a store outside the library.
pub struct BackedSink<B: StorageBackend> {
    backend: B,
    written: Ghost<Seq<u8>>,
}

impl<B: StorageBackend> BackedSink<B> {
    /// The store that the sink hands its writes to.
    pub closed spec fn backend(&self) -> B {
        self.backend
    }

    /// What becomes of the outcome of creating a store: a sink on the store
    /// that was created, to which nothing was handed yet, or the error that
    /// creating it gave.
    pub fn from_created(created: Result<B, IoError>) -> (r: Result<Self, IoError>)
        ensures
            match created {
                Ok(backend) => r matches Ok(sink) && sink.backend() == backend && sink.bytes()
                    == Seq::<u8>::empty(),
                Err(e) => r matches Err(found) && found == e,
            },
    {
        match created {
            Ok(backend) => Ok(BackedSink { backend, written: Ghost(Seq::empty()) }),
            Err(e) => Err(e),
        }
    }

    /// Gives up the sink for its store.
    pub fn into_backend(self) -> (r: B)
        ensures
            r == self.backend(),
    {
        self.backend
    }
}

impl<B: StorageBackend> SerializationSink for BackedSink<B> {
    /// What was handed to the store so far, in order.
    closed spec fn bytes(&self) -> Seq<u8> {
        self.written@
    }

    /// Creates the store for `path`: the sink is on the store that
    /// `B::create` gave for `path`, and fails with the error that it gave.
    fn from_path(path: &str) -> (r: Result<Self, IoError>)
        ensures
            match r {
                Ok(sink) => call_ensures(B::create, (path,), Ok::<B, IoError>(sink.backend())),
                Err(e) => call_ensures(B::create, (path,), Err::<B, IoError>(e)),
            },
    {
        let created = B::create(path);
        BackedSink::from_created(created)
    }

    fn write_atomic(&mut self, data: &[u8]) {
        self.backend.append(data);
        self.written = Ghost(self.written@ + data@);
    }
}

} // verus!

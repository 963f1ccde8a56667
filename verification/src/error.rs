//! The errors of the write path, of the read path and of the analysis.

use vstd::prelude::*;

verus! {

/// A sink could not be created or opened.
#[derive(Debug)]
pub struct IoError {
    /// What the backing store reported.
    pub message: String,
}

/// A byte stream does not have the layout of a recorded session.
#[derive(Debug, Clone, Copy, PartialEq, Eq, Structural)]
pub enum FormatError {
    /// The stream ends before its header or in the middle of a record.
    Truncated,
    /// The leading bytes are not the magic constant of the stream's kind.
    BadMagic,
    /// An index record names bytes that lie outside the string data.
    StringOutOfBounds,
    /// Two index records carry the same string id.
    DuplicateStringId,
    /// An event refers to a string id that the index does not hold.
    UnknownStringId,
    /// The bytes of an interned label are not UTF-8.
    InvalidUtf8,
    /// No event is recorded at the requested position.
    NoSuchEvent,
}

/// Why a trace cannot be folded into call stacks.
#[derive(Debug, Clone, Copy, PartialEq, Eq, Structural)]
pub enum CollapseError {
    /// The sampling interval is zero.
    InvalidInterval,
    /// The event at `index` ends an interval on a thread that has none
    /// open.
    UnmatchedEnd { index: u64 },
    /// The event at `index` ends an interval of another kind or label than
    /// the one that its thread opened last.
    MismatchedEnd { index: u64 },
    /// The trace is over while an interval is still open.
    UnclosedStart,
}

impl CollapseError {
    /// Whether the error says that the trace is not well formed.
    pub open spec fn spec_is_well_formedness(self) -> bool {
        !(self is InvalidInterval)
    }

    /// Whether the error says that the trace is not well formed.
    #[verifier::when_used_as_spec(spec_is_well_formedness)]
    pub fn is_well_formedness(self) -> (r: bool)
        ensures
            r == self.spec_is_well_formedness(),
    {
        match self {
            CollapseError::InvalidInterval => false,
            _ => true,
        }
    }
}

/// Why the streams of a session cannot be folded into call stacks.
#[derive(Debug, Clone, Copy, PartialEq, Eq, Structural)]
pub enum AnalysisError {
    /// An event of the session cannot be read.
    Format(FormatError),
    /// The events of the session make no well formed trace, or the
    /// sampling interval is zero.
    Collapse(CollapseError),
}

} // verus!

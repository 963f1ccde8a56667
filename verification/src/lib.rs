//! Event tracing for long-running programs, and the offline analysis that
//! turns a recorded trace into weighted, folded call stacks.
//!
//! A [`Profiler`] appends fixed-width event records to an append-only sink
//! and interns the strings they refer to in a string table. A
//! [`ProfilingData`] reads the three byte streams of a finished session
//! back, and [`collapse_stacks`] folds the decoded events into one weight
//! per call path.

pub mod analysis;
pub mod encoding;
pub mod error;
pub mod file_header;
pub mod profiler;
pub mod profiling_data;
pub mod raw_event;
pub mod serialization;
pub mod stack_collapse;
pub mod stringtable;
pub mod text;
pub mod well_formedness;

pub use crate::analysis::collapse_profiling_data;
pub use crate::error::{AnalysisError, CollapseError, FormatError, IoError};
pub use crate::profiler::{Profiler, ProfilerError, ProfilerFiles, SessionMetadata, TimingGuard};
pub use crate::profiling_data::{Event, ProfilingData};
pub use crate::raw_event::{RawEvent, Timestamp, TimestampKind};
pub use crate::serialization::{BackedSink, ByteVecSink, SerializationSink, StorageBackend};
pub use crate::stack_collapse::{collapse_stacks, FoldedStacks, StackCollapser};
pub use crate::stringtable::{StringId, StringTable, StringTableBuilder};

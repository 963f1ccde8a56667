//! Folding a session straight from its streams.
//!
//! The events are decoded and folded one by one, in a single pass: at no
//! time is more of the trace held than the open intervals of its threads.

use crate::error::{AnalysisError, CollapseError, FormatError};
use crate::profiling_data::{
    resolve_event, resolve_events, EventView, ProfilingData,
};
use crate::raw_event::RawEvent;
use crate::stack_collapse::{
    collapse, initial_state, no_open_frame, run, step, CollapseState, FoldedStacks, FoldedView,
    StackCollapser,
};
use vstd::prelude::*;

verus! {

/// The state after the first `n` events of a session, each looked up in
/// `strings` and folded in turn; or the fault of the first event that
/// cannot be read or does not fit the state before it.
pub open spec fn session_run(
    events: Seq<RawEvent>,
    strings: Map<u32, Seq<u8>>,
    n: nat,
    interval_ms: u64,
) -> Result<CollapseState, AnalysisError>
    decreases n,
{
    if n == 0 {
        Ok(initial_state())
    } else {
        match session_run(events, strings, (n - 1) as nat, interval_ms) {
            Err(e) => Err(e),
            Ok(state) => match resolve_event(events[n - 1], strings) {
                Err(e) => Err(AnalysisError::Format(e)),
                Ok(event) => match step(state, event, (n - 1) as nat, interval_ms) {
                    Err(e) => Err(AnalysisError::Collapse(e)),
                    Ok(next) => Ok(next),
                },
            },
        }
    }
}

/// The weight of every path of a session: what folding its events in one
/// pass gives.
pub open spec fn collapse_session(
    events: Seq<RawEvent>,
    strings: Map<u32, Seq<u8>>,
    interval_ms: u64,
) -> Result<FoldedView, AnalysisError> {
    if interval_ms == 0 {
        Err(AnalysisError::Collapse(CollapseError::InvalidInterval))
    } else {
        match session_run(events, strings, events.len(), interval_ms) {
            Err(e) => Err(e),
            Ok(state) => if no_open_frame(state.stacks) {
                Ok(state.folded)
            } else {
                Err(AnalysisError::Collapse(CollapseError::UnclosedStart))
            },
        }
    }
}

/// A fault in a session is the fault of every session that goes on from
/// it.
pub proof fn lemma_session_run_error_is_final(
    events: Seq<RawEvent>,
    strings: Map<u32, Seq<u8>>,
    k: nat,
    n: nat,
    interval_ms: u64,
)
    requires
        k <= n,
        session_run(events, strings, k, interval_ms) is Err,
    ensures
        session_run(events, strings, n, interval_ms) == session_run(
            events,
            strings,
            k,
            interval_ms,
        ),
    decreases n,
{
    if k < n {
        lemma_session_run_error_is_final(events, strings, k, (n - 1) as nat, interval_ms);
    }
}

proof fn lemma_session_run_of_resolved(
    events: Seq<RawEvent>,
    strings: Map<u32, Seq<u8>>,
    n: nat,
    interval_ms: u64,
)
    requires
        resolve_events(events, strings, n) is Ok,
    ensures
        session_run(events, strings, n, interval_ms) == match run(
            resolve_events(events, strings, n)->Ok_0,
            interval_ms,
        ) {
            Ok(state) => Ok::<CollapseState, AnalysisError>(state),
            Err(e) => Err::<CollapseState, AnalysisError>(AnalysisError::Collapse(e)),
        },
        resolve_events(events, strings, n)->Ok_0.len() == n,
    decreases n,
{
    if n > 0 {
        lemma_session_run_of_resolved(events, strings, (n - 1) as nat, interval_ms);
        let before = resolve_events(events, strings, (n - 1) as nat)->Ok_0;
        let all = resolve_events(events, strings, n)->Ok_0;
        assert(all.drop_last() =~= before);
    }
}

/// Where every event of a session can be read, folding the session in one
/// pass gives what folding its events gives.
pub proof fn lemma_collapse_session_of_resolved(
    events: Seq<RawEvent>,
    strings: Map<u32, Seq<u8>>,
    interval_ms: u64,
)
    requires
        resolve_events(events, strings, events.len()) is Ok,
    ensures
        collapse_session(events, strings, interval_ms) == match collapse(
            resolve_events(events, strings, events.len())->Ok_0,
            interval_ms,
        ) {
            Ok(view) => Ok::<FoldedView, AnalysisError>(view),
            Err(e) => Err::<FoldedView, AnalysisError>(AnalysisError::Collapse(e)),
        },
{
    lemma_session_run_of_resolved(events, strings, events.len(), interval_ms);
}

/// Folds the events of a session into the weight of every call path. One
/// unit of weight is `interval_ms` milliseconds. The events are read one at
/// a time; the first that cannot be read, or that does not fit the trace
/// before it, ends the folding with its fault.
pub fn collapse_profiling_data(data: &ProfilingData, interval_ms: u64) -> (r: Result<
    FoldedStacks,
    AnalysisError,
>)
    requires
        data.wf(),
    ensures
        match collapse_session(data.raw_events(), data.strings(), interval_ms) {
            Ok(view) => r matches Ok(folded) && folded.wf() && folded@ == view,
            Err(e) => r matches Err(found) && found == e,
        },
{
    let mut collapser = match StackCollapser::new(interval_ms) {
        Err(e) => {
            return Err(AnalysisError::Collapse(e));
        },
        Ok(collapser) => collapser,
    };
    let n = data.num_events();
    let mut i: usize = 0;
    proof {
        collapser.lemma_state();
    }
    while i < n
        invariant
            data.wf(),
            i <= n,
            n == data.raw_events().len(),
            interval_ms > 0,
            collapser.wf(),
            collapser.interval_ms() == interval_ms,
            collapser.events().len() == i,
            session_run(data.raw_events(), data.strings(), i as nat, interval_ms) == Ok::<
                CollapseState,
                AnalysisError,
            >(collapser.state()),
        decreases n - i,
    {
        let event = match data.event(i) {
            Err(e) => {
                proof {
                    lemma_session_run_error_is_final(
                        data.raw_events(),
                        data.strings(),
                        (i + 1) as nat,
                        n as nat,
                        interval_ms,
                    );
                }
                return Err(AnalysisError::Format(e));
            },
            Ok(event) => event,
        };
        match collapser.push(&event) {
            Err(e) => {
                proof {
                    lemma_session_run_error_is_final(
                        data.raw_events(),
                        data.strings(),
                        (i + 1) as nat,
                        n as nat,
                        interval_ms,
                    );
                }
                return Err(AnalysisError::Collapse(e));
            },
            Ok(()) => {},
        }
        i += 1;
    }
    proof {
        collapser.lemma_state();
    }
    match collapser.finish() {
        Ok(folded) => Ok(folded),
        Err(e) => Err(AnalysisError::Collapse(e)),
    }
}

} // verus!

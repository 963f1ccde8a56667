//! What holds of folding a trace, whatever the trace.
//!
//! A trace is well nested if, thread by thread, its events are intervals
//! that lie side by side or one inside the other. Such a trace always folds.
//! A trace in which a thread ends more intervals than it has started, at any
//! point, never folds, and neither does one in which a thread ends fewer
//! than it has started.

use crate::error::CollapseError;
use crate::profiling_data::EventView;
use crate::raw_event::TimestampKind;
use crate::stack_collapse::{
    collapse, frame_label, frame_of, initial_state, lemma_run_error_is_final, run, stack_label,
    stack_of, weight_of, CollapseState, FrameView,
};
use vstd::prelude::*;

verus! {

/// The events of `events` that `thread` recorded, in their order.
pub open spec fn thread_events(events: Seq<EventView>, thread: u64) -> Seq<EventView>
    decreases events.len(),
{
    if events.len() == 0 {
        Seq::empty()
    } else if events.last().thread_id == thread {
        thread_events(events.drop_last(), thread).push(events.last())
    } else {
        thread_events(events.drop_last(), thread)
    }
}

/// Whether the event at `j` starts an interval of the kind and label that
/// the last event of `s` ends.
pub open spec fn opens_last(s: Seq<EventView>, j: int) -> bool {
    &&& s[j].timestamp_kind is Start
    &&& s[j].event_kind == s.last().event_kind
    &&& s[j].label == s.last().label
}

/// Whether the events of one thread are whole intervals, side by side or
/// nested: the last event ends an interval that an earlier event started,
/// and what lies before that start, and what lies between the two, is
/// balanced itself.
pub open spec fn balanced(s: Seq<EventView>) -> bool
    decreases s.len(),
{
    s.len() == 0 || (s.last().timestamp_kind is End && exists|j: int|
        0 <= j < s.len() - 1 && #[trigger] opens_last(s, j) && balanced(s.subrange(0, j))
            && balanced(s.subrange(j + 1, s.len() - 1)))
}

/// Whether the events of every thread are balanced.
pub open spec fn well_nested(events: Seq<EventView>) -> bool {
    forall|thread: u64| balanced(#[trigger] thread_events(events, thread))
}

/// The intervals that `thread` has started and not ended by the end of
/// `events`, counted: its starts less its ends.
pub open spec fn open_depth(events: Seq<EventView>, thread: u64) -> int
    decreases events.len(),
{
    if events.len() == 0 {
        0
    } else {
        open_depth(events.drop_last(), thread) + if events.last().thread_id != thread {
            0int
        } else if events.last().timestamp_kind is Start {
            1int
        } else {
            -1int
        }
    }
}

/// The stack of one thread after `event`, or nothing if the event ends an
/// interval that is not the one on top.
pub open spec fn thread_step(stack: Seq<FrameView>, event: EventView) -> Option<Seq<FrameView>> {
    match event.timestamp_kind {
        TimestampKind::Start => Some(stack.push(frame_of(event))),
        TimestampKind::End => if stack.len() > 0 && stack.last().event_kind == event.event_kind
            && stack.last().label == event.label {
            Some(stack.drop_last())
        } else {
            None
        },
    }
}

/// The stack of one thread after its events `s`, begun with `stack`.
pub open spec fn thread_run(s: Seq<EventView>, stack: Seq<FrameView>) -> Option<Seq<FrameView>>
    decreases s.len(),
{
    if s.len() == 0 {
        Some(stack)
    } else {
        match thread_run(s.drop_last(), stack) {
            None => None,
            Some(before) => thread_step(before, s.last()),
        }
    }
}

proof fn lemma_thread_run_concat(x: Seq<EventView>, y: Seq<EventView>, stack: Seq<FrameView>)
    ensures
        thread_run(x + y, stack) == match thread_run(x, stack) {
            None => None,
            Some(between) => thread_run(y, between),
        },
    decreases y.len(),
{
    if y.len() == 0 {
        assert(x + y =~= x);
    } else {
        assert((x + y).drop_last() =~= x + y.drop_last());
        assert((x + y).last() == y.last());
        lemma_thread_run_concat(x, y.drop_last(), stack);
    }
}

proof fn lemma_balanced_keeps_stack(s: Seq<EventView>, stack: Seq<FrameView>)
    requires
        balanced(s),
    ensures
        thread_run(s, stack) == Some(stack),
    decreases s.len(),
{
    if s.len() > 0 {
        let j = choose|j: int|
            0 <= j < s.len() - 1 && #[trigger] opens_last(s, j) && balanced(s.subrange(0, j))
                && balanced(s.subrange(j + 1, s.len() - 1));
        let before = s.subrange(0, j);
        let inside = s.subrange(j + 1, s.len() - 1);
        let start = s[j];
        let opened = stack.push(frame_of(start));
        lemma_balanced_keeps_stack(before, stack);
        lemma_balanced_keeps_stack(inside, opened);
        let head = before.push(start);
        assert(head.drop_last() =~= before);
        assert(head.last() == start);
        assert(thread_run(head, stack) == Some(opened));
        lemma_thread_run_concat(head, inside, stack);
        assert(s.drop_last() =~= head + inside);
        assert(thread_run(s.drop_last(), stack) == Some(opened));
        assert(opened.drop_last() =~= stack);
    }
}

proof fn lemma_run_by_threads(events: Seq<EventView>, interval_ms: u64)
    requires
        forall|thread: u64|
            thread_run(#[trigger] thread_events(events, thread), Seq::empty()) is Some,
    ensures
        run(events, interval_ms) is Ok,
        forall|thread: u64|
            Some(stack_of(run(events, interval_ms)->Ok_0.stacks, thread)) == thread_run(
                #[trigger] thread_events(events, thread),
                Seq::empty(),
            ),
    decreases events.len(),
{
    if events.len() > 0 {
        let init = events.drop_last();
        let last = events.last();
        assert forall|thread: u64|
            thread_run(#[trigger] thread_events(init, thread), Seq::empty()) is Some by {
            assert(thread_run(thread_events(events, thread), Seq::empty()) is Some);
            if last.thread_id == thread {
                assert(thread_events(events, thread).drop_last() =~= thread_events(init, thread));
            }
        }
        lemma_run_by_threads(init, interval_ms);
        let state = run(init, interval_ms)->Ok_0;
        let own = thread_events(init, last.thread_id);
        assert(thread_events(events, last.thread_id).drop_last() =~= own);
        assert(Some(stack_of(state.stacks, last.thread_id)) == thread_run(own, Seq::empty()));
        assert(thread_run(thread_events(events, last.thread_id), Seq::empty()) is Some);
        let after = run(events, interval_ms);
        assert(after is Ok);
        assert forall|thread: u64|
            Some(stack_of(after->Ok_0.stacks, thread)) == thread_run(
                #[trigger] thread_events(events, thread),
                Seq::empty(),
            ) by {
            assert(Some(stack_of(state.stacks, thread)) == thread_run(
                thread_events(init, thread),
                Seq::empty(),
            ));
        }
    }
}

/// A well nested trace always folds, whatever its timestamps.
pub proof fn lemma_well_nested_collapses(events: Seq<EventView>, interval_ms: u64)
    requires
        well_nested(events),
        interval_ms > 0,
    ensures
        collapse(events, interval_ms) is Ok,
{
    assert forall|thread: u64|
        thread_run(#[trigger] thread_events(events, thread), Seq::empty()) == Some(
            Seq::<FrameView>::empty(),
        ) by {
        lemma_balanced_keeps_stack(thread_events(events, thread), Seq::empty());
    }
    lemma_run_by_threads(events, interval_ms);
    let state = run(events, interval_ms)->Ok_0;
    assert forall|thread: u64| stack_of(state.stacks, thread).len() == 0 by {
        assert(Some(stack_of(state.stacks, thread)) == thread_run(
            thread_events(events, thread),
            Seq::empty(),
        ));
    }
}

/// While a trace folds, every thread has as many intervals open as it has
/// started and not ended.
pub proof fn lemma_stack_depth(events: Seq<EventView>, interval_ms: u64, thread: u64)
    requires
        run(events, interval_ms) is Ok,
    ensures
        stack_of(run(events, interval_ms)->Ok_0.stacks, thread).len() == open_depth(events, thread),
    decreases events.len(),
{
    if events.len() > 0 {
        lemma_stack_depth(events.drop_last(), interval_ms, thread);
    }
}

/// A trace in which an event ends an interval on a thread that has none
/// open never folds: the fault is one of the trace, not of the interval.
pub proof fn lemma_end_without_start_fails(events: Seq<EventView>, interval_ms: u64, i: int)
    requires
        interval_ms > 0,
        0 <= i < events.len(),
        events[i].timestamp_kind is End,
        open_depth(events.take(i), events[i].thread_id) <= 0,
    ensures
        collapse(events, interval_ms) matches Err(e) && e.is_well_formedness(),
{
    let upto = events.take(i + 1);
    assert(upto.drop_last() =~= events.take(i));
    assert(upto.last() == events[i]);
    if run(events.take(i), interval_ms) is Ok {
        lemma_stack_depth(events.take(i), interval_ms, events[i].thread_id);
    }
    assert(run(upto, interval_ms) is Err);
    lemma_run_error_is_final(events, i + 1, interval_ms);
    lemma_run_errors(upto, interval_ms);
}

/// A trace that leaves an interval open never folds: the fault is one of the
/// trace, not of the interval.
pub proof fn lemma_unclosed_start_fails(events: Seq<EventView>, interval_ms: u64, thread: u64)
    requires
        interval_ms > 0,
        open_depth(events, thread) > 0,
    ensures
        collapse(events, interval_ms) matches Err(e) && e.is_well_formedness(),
{
    if run(events, interval_ms) is Ok {
        lemma_stack_depth(events, interval_ms, thread);
    } else {
        lemma_run_errors(events, interval_ms);
    }
}

/// Whatever stops the folding of a trace on the way is a fault of the
/// trace.
pub proof fn lemma_run_errors(events: Seq<EventView>, interval_ms: u64)
    requires
        run(events, interval_ms) is Err,
    ensures
        run(events, interval_ms)->Err_0.is_well_formedness(),
    decreases events.len(),
{
    if events.len() > 0 && run(events.drop_last(), interval_ms) is Err {
        lemma_run_errors(events.drop_last(), interval_ms);
    }
}

/// One interval alone, of `elapsed` nanoseconds, gives its label the weight
/// `elapsed / (interval_ms * 1_000_000)`, rounded down, and nothing else
/// any weight.
pub proof fn lemma_single_frame_weight(start: EventView, end: EventView, interval_ms: u64)
    requires
        interval_ms > 0,
        start.timestamp_kind is Start,
        end.timestamp_kind is End,
        start.thread_id == end.thread_id,
        start.event_kind == end.event_kind,
        start.label == end.label,
        start.nanos <= end.nanos,
    ensures
        collapse(seq![start, end], interval_ms) is Ok,
        weight_of(
            collapse(seq![start, end], interval_ms)->Ok_0.weights,
            frame_label(frame_of(start)),
        ) == (end.nanos - start.nanos) / (interval_ms * 1_000_000),
        forall|label: Seq<char>|
            label != frame_label(frame_of(start)) ==> weight_of(
                collapse(seq![start, end], interval_ms)->Ok_0.weights,
                label,
            ) == 0,
{
    let events = seq![start, end];
    let first = events.drop_last();
    assert(first =~= seq![start]);
    assert(first.drop_last() =~= Seq::<EventView>::empty());
    assert(run(first.drop_last(), interval_ms) == Ok::<CollapseState, CollapseError>(
        initial_state(),
    ));
    let opened = run(first, interval_ms)->Ok_0;
    let stack = seq![frame_of(start)];
    assert(opened.stacks =~= Map::<u64, Seq<FrameView>>::empty().insert(
        start.thread_id,
        Seq::<FrameView>::empty().push(frame_of(start)),
    ));
    assert(stack_of(opened.stacks, end.thread_id) =~= stack);
    let closed = run(events, interval_ms)->Ok_0;
    assert(closed.stacks =~= Map::<u64, Seq<FrameView>>::empty());
    assert(stack_label(stack) == frame_label(frame_of(start)));
}

/// Folding is a function of the trace and the interval: the same events
/// give the same weights, however often they are folded.
pub proof fn lemma_collapse_deterministic(
    first: Seq<EventView>,
    second: Seq<EventView>,
    interval_ms: u64,
)
    requires
        first =~= second,
    ensures
        collapse(first, interval_ms) == collapse(second, interval_ms),
{
}

} // verus!

//! Folding a trace into weighted call stacks.
//!
//! Every thread of a trace has a stack of open intervals. A start event
//! pushes a frame on the stack of its thread; an end event pops the frame on
//! top, which must be of its kind and label. The interval that closes adds
//! its weight to the path that leads to it: the labels of the frames from
//! the bottom of the stack to the closed one, joined by semicolons. The
//! weight is the whole time between start and end in units of the sampling
//! interval, whatever ran nested inside; an interval shorter than one unit
//! adds nothing and leaves no entry of its own.

use crate::error::CollapseError;
use crate::profiling_data::{event_views, Event, EventView};
use crate::raw_event::TimestampKind;
use crate::text::{decimal, push_decimal};
use std::collections::HashMap;
use vstd::hash_map::StringHashMap;
use vstd::prelude::*;
use vstd::string::StringExecFns;

verus! {

/// An interval that was started and not yet ended.
pub struct FrameView {
    pub event_kind: Seq<char>,
    pub label: Seq<char>,
    pub start: u64,
}

/// The weights of the paths of a trace: the paths that have any weight, in
/// the order in which each first got some, and the weight of each.
#[verifier::ext_equal]
pub struct FoldedView {
    pub paths: Seq<Seq<char>>,
    pub weights: Map<Seq<char>, nat>,
}

/// Where the folding of a trace stands: the open intervals of every thread
/// that has any, innermost last, and the weights of the paths closed so
/// far.
#[verifier::ext_equal]
pub struct CollapseState {
    pub stacks: Map<u64, Seq<FrameView>>,
    pub folded: FoldedView,
}

/// No path with any weight.
pub open spec fn no_weights() -> FoldedView {
    FoldedView { paths: Seq::empty(), weights: Map::empty() }
}

/// The state before the first event.
pub open spec fn initial_state() -> CollapseState {
    CollapseState { stacks: Map::empty(), folded: no_weights() }
}

/// The open intervals of `thread`.
pub open spec fn stack_of(stacks: Map<u64, Seq<FrameView>>, thread: u64) -> Seq<FrameView> {
    if stacks.dom().contains(thread) {
        stacks[thread]
    } else {
        Seq::empty()
    }
}

/// The frame that a start event opens.
pub open spec fn frame_of(event: EventView) -> FrameView {
    FrameView { event_kind: event.event_kind, label: event.label, start: event.nanos }
}

/// The label of one frame: its kind, and behind a semicolon its label if it
/// has one.
pub open spec fn frame_label(frame: FrameView) -> Seq<char> {
    if frame.label.len() == 0 {
        frame.event_kind
    } else {
        frame.event_kind + seq![';'] + frame.label
    }
}

/// The path of a stack: the labels of its frames from the bottom up, joined
/// by semicolons.
pub open spec fn stack_label(frames: Seq<FrameView>) -> Seq<char>
    decreases frames.len(),
{
    if frames.len() == 0 {
        Seq::empty()
    } else if frames.len() == 1 {
        frame_label(frames[0])
    } else {
        stack_label(frames.drop_last()) + seq![';'] + frame_label(frames.last())
    }
}

/// The nanoseconds that one unit of weight stands for.
pub open spec fn weight_unit(interval_ms: u64) -> int {
    interval_ms * 1_000_000
}

/// The weight of an interval from `start` to `end`: the time between them
/// in whole units. An interval that ends before it starts weighs nothing.
pub open spec fn frame_weight(start: u64, end: u64, interval_ms: u64) -> nat {
    if end >= start && interval_ms > 0 {
        ((end - start) / weight_unit(interval_ms)) as nat
    } else {
        0
    }
}

/// The weight that `weights` holds for `label`: nothing where it holds no
/// entry.
pub open spec fn weight_of(weights: Map<Seq<char>, nat>, label: Seq<char>) -> nat {
    if weights.dom().contains(label) {
        weights[label]
    } else {
        0
    }
}

/// Adds `weight` to the entry of `label`, behind all others if it is new.
/// No weight makes no entry.
pub open spec fn add_weight(folded: FoldedView, label: Seq<char>, weight: nat) -> FoldedView {
    if weight == 0 {
        folded
    } else if folded.weights.dom().contains(label) {
        FoldedView {
            paths: folded.paths,
            weights: folded.weights.insert(label, folded.weights[label] + weight),
        }
    } else {
        FoldedView { paths: folded.paths.push(label), weights: folded.weights.insert(label, weight) }
    }
}

/// The state after `event`, which is the event at `index`.
pub open spec fn step(state: CollapseState, event: EventView, index: nat, interval_ms: u64) -> Result<
    CollapseState,
    CollapseError,
> {
    let thread = event.thread_id;
    let stack = stack_of(state.stacks, thread);
    match event.timestamp_kind {
        TimestampKind::Start => Ok(
            CollapseState {
                stacks: state.stacks.insert(thread, stack.push(frame_of(event))),
                folded: state.folded,
            },
        ),
        TimestampKind::End => if stack.len() == 0 {
            Err(CollapseError::UnmatchedEnd { index: index as u64 })
        } else if stack.last().event_kind != event.event_kind || stack.last().label != event.label {
            Err(CollapseError::MismatchedEnd { index: index as u64 })
        } else {
            Ok(
                CollapseState {
                    stacks: if stack.len() == 1 {
                        state.stacks.remove(thread)
                    } else {
                        state.stacks.insert(thread, stack.drop_last())
                    },
                    folded: add_weight(
                        state.folded,
                        stack_label(stack),
                        frame_weight(stack.last().start, event.nanos, interval_ms),
                    ),
                },
            )
        },
    }
}

/// The state after all of `events`, or the fault of the first event that
/// does not fit the state before it.
pub open spec fn run(events: Seq<EventView>, interval_ms: u64) -> Result<
    CollapseState,
    CollapseError,
>
    decreases events.len(),
{
    if events.len() == 0 {
        Ok(initial_state())
    } else {
        match run(events.drop_last(), interval_ms) {
            Err(e) => Err(e),
            Ok(state) => step(state, events.last(), (events.len() - 1) as nat, interval_ms),
        }
    }
}

/// Whether no thread has an interval open.
pub open spec fn no_open_frame(stacks: Map<u64, Seq<FrameView>>) -> bool {
    forall|thread: u64| stack_of(stacks, thread).len() == 0
}

/// The weight of every path of a trace: what folding it gives. The interval
/// must be positive, every end must close the interval that its thread
/// opened last, and no interval may stay open.
pub open spec fn collapse(events: Seq<EventView>, interval_ms: u64) -> Result<
    FoldedView,
    CollapseError,
> {
    if interval_ms == 0 {
        Err(CollapseError::InvalidInterval)
    } else {
        match run(events, interval_ms) {
            Err(e) => Err(e),
            Ok(state) => if no_open_frame(state.stacks) {
                Ok(state.folded)
            } else {
                Err(CollapseError::UnclosedStart)
            },
        }
    }
}

/// A fault in a trace is the fault of every trace that goes on from it.
pub proof fn lemma_run_error_is_final(events: Seq<EventView>, k: int, interval_ms: u64)
    requires
        0 <= k <= events.len(),
        run(events.take(k), interval_ms) is Err,
    ensures
        run(events, interval_ms) == run(events.take(k), interval_ms),
    decreases events.len(),
{
    if k == events.len() {
        assert(events.take(k) =~= events);
    } else {
        assert(events.drop_last().take(k) =~= events.take(k));
        lemma_run_error_is_final(events.drop_last(), k, interval_ms);
    }
}

/// The weights of the paths of a trace, in the order in which the paths
/// were first closed.
pub struct FoldedStacks {
    labels: Vec<String>,
    weights: Vec<u128>,
    index: StringHashMap<usize>,
}

impl View for FoldedStacks {
    type V = FoldedView;

    closed spec fn view(&self) -> FoldedView {
        FoldedView {
            paths: Seq::new(self.labels@.len(), |i: int| self.labels@[i]@),
            weights: Map::new(
                |label: Seq<char>| self.index@.contains_key(label),
                |label: Seq<char>| self.weights@[self.index@[label] as int] as nat,
            ),
        }
    }
}

impl FoldedStacks {
    /// The invariant of the table: every path stands in it once, with a
    /// weight that is not zero.
    pub closed spec fn wf(&self) -> bool {
        &&& self.labels@.len() == self.weights@.len()
        &&& forall|i: int|
            0 <= i < self.labels@.len() ==> self.index@.contains_key(#[trigger] self.labels@[i]@)
                && self.index@[self.labels@[i]@] == i
        &&& forall|label: Seq<char>| #[trigger]
            self.index@.contains_key(label) ==> 0 <= self.index@[label] < self.labels@.len()
                && self.labels@[self.index@[label] as int]@ == label
        &&& forall|i: int| 0 <= i < self.weights@.len() ==> #[trigger] self.weights@[i] > 0
    }

    /// The paths and their weights are two views of one table: no path
    /// stands twice, every path has a weight that is not zero, and no other
    /// label has any.
    pub proof fn lemma_entries(&self)
        requires
            self.wf(),
        ensures
            forall|i: int|
                0 <= i < self@.paths.len() ==> self@.weights.dom().contains(
                    #[trigger] self@.paths[i],
                ) && 0 < self@.weights[self@.paths[i]] <= u128::MAX,
            forall|i: int, j: int|
                0 <= i < j < self@.paths.len() ==> self@.paths[i] != self@.paths[j],
            forall|label: Seq<char>| #[trigger]
                self@.weights.dom().contains(label) ==> self@.paths.contains(label),
    {
        assert forall|label: Seq<char>| #[trigger]
            self@.weights.dom().contains(label) implies self@.paths.contains(label) by {
            let i = self.index@[label] as int;
            assert(self@.paths[i] == label);
        }
        assert forall|i: int, j: int| 0 <= i < j < self@.paths.len() implies self@.paths[i]
            != self@.paths[j] by {
            assert(self.index@[self.labels@[i]@] == i);
            assert(self.index@[self.labels@[j]@] == j);
        }
    }

    /// A table without paths.
    pub fn new() -> (r: FoldedStacks)
        ensures
            r.wf(),
            r@ == no_weights(),
    {
        let r = FoldedStacks { labels: Vec::new(), weights: Vec::new(), index: StringHashMap::new() };
        assert(r@ =~= no_weights());
        r
    }

    /// The number of paths.
    pub fn len(&self) -> (n: usize)
        requires
            self.wf(),
        ensures
            n == self@.paths.len(),
    {
        self.labels.len()
    }

    /// The `i`-th path.
    pub fn label(&self, i: usize) -> (r: &str)
        requires
            self.wf(),
            i < self@.paths.len(),
        ensures
            r@ == self@.paths[i as int],
    {
        self.labels[i].as_str()
    }

    /// The weight of the `i`-th path.
    pub fn weight(&self, i: usize) -> (r: u128)
        requires
            self.wf(),
            i < self@.paths.len(),
        ensures
            r == self@.weights[self@.paths[i as int]],
    {
        self.weights[i]
    }

    /// The weight of the path `label`, if it has any.
    pub fn get(&self, label: &str) -> (r: Option<u128>)
        requires
            self.wf(),
        ensures
            match r {
                Some(weight) => self@.weights.dom().contains(label@) && self@.weights[label@]
                    == weight,
                None => !self@.weights.dom().contains(label@),
            },
    {
        match self.index.get(label) {
            None => None,
            Some(i) => Some(self.weights[*i]),
        }
    }

    fn add(&mut self, label: String, weight: u128)
        requires
            old(self).wf(),
            weight > 0,
            weight_of(old(self)@.weights, label@) + weight <= u128::MAX,
        ensures
            final(self).wf(),
            final(self)@ == add_weight(old(self)@, label@, weight as nat),
    {
        let ghost before = self@;
        match self.index.get(label.as_str()) {
            Some(i) => {
                let i: usize = *i;
                let sum: u128 = self.weights[i] + weight;
                self.weights.set(i, sum);
            },
            None => {
                let n: usize = self.labels.len();
                self.index.insert(label.clone(), n);
                self.labels.push(label);
                self.weights.push(weight);
            },
        }
        assert(self@ =~= add_weight(before, label@, weight as nat));
    }

    /// One line per path, in the order of the paths: the path, a space, and
    /// its weight in decimal digits.
    pub fn lines(&self) -> (r: Vec<String>)
        requires
            self.wf(),
        ensures
            r@.len() == self@.paths.len(),
            forall|i: int|
                0 <= i < r@.len() ==> #[trigger] r@[i]@ == folded_line(
                    self@.paths[i],
                    self@.weights[self@.paths[i]],
                ),
    {
        let mut out: Vec<String> = Vec::new();
        let mut i: usize = 0;
        proof {
            reveal_strlit(" ");
        }
        while i < self.labels.len()
            invariant
                self.wf(),
                i <= self.labels@.len(),
                out@.len() == i,
                " "@ == seq![' '],
                forall|j: int|
                    0 <= j < i ==> #[trigger] out@[j]@ == folded_line(
                        self@.paths[j],
                        self@.weights[self@.paths[j]],
                    ),
            decreases self.labels@.len() - i,
        {
            let mut line = self.labels[i].clone();
            line.append(" ");
            push_decimal(&mut line, self.weights[i]);
            out.push(line);
            i += 1;
        }
        out
    }
}

/// The line of one path: the path, a space, and its weight in decimal
/// digits.
pub open spec fn folded_line(label: Seq<char>, weight: nat) -> Seq<char> {
    label + seq![' '] + decimal(weight)
}

/// An interval that was started and not yet ended.
pub struct Frame {
    event_kind: String,
    label: String,
    start: u64,
}

impl View for Frame {
    type V = FrameView;

    closed spec fn view(&self) -> FrameView {
        FrameView { event_kind: self.event_kind@, label: self.label@, start: self.start }
    }
}

/// The frames of a stack as the model sees them.
pub open spec fn frames_view(frames: Seq<Frame>) -> Seq<FrameView> {
    Seq::new(frames.len(), |i: int| frames[i]@)
}

/// The stacks of all threads as the model sees them.
pub open spec fn stacks_view(stacks: Map<u64, Vec<Frame>>) -> Map<u64, Seq<FrameView>> {
    Map::new(|thread: u64| stacks.dom().contains(thread), |thread: u64| frames_view(stacks[thread]@))
}

fn path_of(stack: &Vec<Frame>) -> (r: String)
    requires
        stack@.len() > 0,
    ensures
        r@ == stack_label(frames_view(stack@)),
{
    let ghost frames = frames_view(stack@);
    let mut out = String::new();
    let mut i: usize = 0;
    proof {
        reveal_strlit(";");
    }
    while i < stack.len()
        invariant
            i <= stack@.len(),
            frames == frames_view(stack@),
            ";"@ == seq![';'],
            out@ == stack_label(frames.take(i as int)),
        decreases stack@.len() - i,
    {
        let ghost before = out@;
        if i > 0 {
            out.append(";");
        }
        out.append(stack[i].event_kind.as_str());
        if !stack[i].label.as_str().is_empty() {
            out.append(";");
            out.append(stack[i].label.as_str());
        }
        proof {
            let next = frames.take(i + 1);
            assert(next.drop_last() =~= frames.take(i as int));
            assert(next.last() == frames[i as int]);
            assert(frames[i as int] == stack@[i as int]@);
            if i == 0 {
                assert(before =~= Seq::<char>::empty());
                assert(out@ =~= frame_label(frames[0]));
            } else {
                assert(out@ =~= before + seq![';'] + frame_label(frames[i as int]));
            }
        }
        i += 1;
    }
    assert(frames.take(stack@.len() as int) =~= frames);
    out
}

/// Folds a trace into call stacks, one event at a time.
pub struct StackCollapser {
    interval_ms: u64,
    stacks: HashMap<u64, Vec<Frame>>,
    folded: FoldedStacks,
    seen: u64,
    events: Ghost<Seq<EventView>>,
}

impl StackCollapser {
    /// The events taken so far.
    pub closed spec fn events(&self) -> Seq<EventView> {
        self.events@
    }

    /// The sampling interval, in milliseconds.
    pub closed spec fn interval_ms(&self) -> u64 {
        self.interval_ms
    }

    /// Where the folding stands.
    pub closed spec fn state(&self) -> CollapseState {
        CollapseState { stacks: stacks_view(self.stacks@), folded: self.folded@ }
    }

    /// The invariant of the collapser: its interval is positive, and its
    /// state is the state that the events taken so far lead to.
    pub closed spec fn wf(&self) -> bool {
        &&& self.interval_ms > 0
        &&& self.folded.wf()
        &&& self.seen == self.events@.len()
        &&& run(self.events@, self.interval_ms) == Ok::<CollapseState, CollapseError>(self.state())
        &&& forall|thread: u64| #[trigger]
            self.stacks@.dom().contains(thread) ==> self.stacks@[thread]@.len() > 0
        &&& forall|label: Seq<char>|
            #[trigger] weight_of(self.folded@.weights, label) <= self.seen * u64::MAX
    }

    /// The number of events taken so far.
    pub fn events_taken(&self) -> (n: u64)
        requires
            self.wf(),
        ensures
            n == self.events().len(),
    {
        self.seen
    }

    /// What the invariant says to the outside: the state is the one that
    /// the events taken so far lead to.
    pub proof fn lemma_state(&self)
        requires
            self.wf(),
        ensures
            self.interval_ms() > 0,
            run(self.events(), self.interval_ms()) == Ok::<CollapseState, CollapseError>(
                self.state(),
            ),
    {
    }

    /// A collapser that has taken no event. The interval must be positive.
    pub fn new(interval_ms: u64) -> (r: Result<StackCollapser, CollapseError>)
        ensures
            match r {
                Ok(collapser) => interval_ms > 0 && collapser.wf() && collapser.interval_ms()
                    == interval_ms && collapser.events() == Seq::<EventView>::empty(),
                Err(e) => interval_ms == 0 && e == CollapseError::InvalidInterval,
            },
    {
        if interval_ms == 0 {
            return Err(CollapseError::InvalidInterval);
        }
        let collapser = StackCollapser {
            interval_ms,
            stacks: HashMap::new(),
            folded: FoldedStacks::new(),
            seen: 0,
            events: Ghost(Seq::empty()),
        };
        assert(collapser.state() =~= initial_state());
        Ok(collapser)
    }

    /// Takes the next event of the trace. A start opens an interval on the
    /// stack of its thread. An end closes the interval on top, which must
    /// be of its kind and label, and adds the weight of the interval to its
    /// path. An event that does not fit changes nothing.
    pub fn push(&mut self, event: &Event) -> (r: Result<(), CollapseError>)
        requires
            old(self).wf(),
            old(self).events().len() < u64::MAX,
        ensures
            final(self).interval_ms() == old(self).interval_ms(),
            match step(
                old(self).state(),
                event@,
                old(self).events().len(),
                old(self).interval_ms(),
            ) {
                Ok(next) => {
                    &&& r is Ok
                    &&& final(self).wf()
                    &&& final(self).state() == next
                    &&& final(self).events() == old(self).events().push(event@)
                },
                Err(e) => r == Err::<(), CollapseError>(e) && *final(self) == *old(self),
            },
    {
        broadcast use vstd::std_specs::hash::group_hash_axioms;

        let thread = event.thread_id;
        let ghost before = self.state();
        let ghost taken = self.events@;
        match event.timestamp_kind {
            TimestampKind::Start => {
                let frame = Frame {
                    event_kind: event.event_kind.clone(),
                    label: event.label.clone(),
                    start: event.nanos,
                };
                let mut stack = match self.stacks.remove(&thread) {
                    Some(stack) => stack,
                    None => Vec::new(),
                };
                let ghost below = stack@;
                assert(frames_view(below) =~= stack_of(before.stacks, thread));
                stack.push(frame);
                assert(frames_view(stack@) =~= frames_view(below).push(frame_of(event@)));
                self.stacks.insert(thread, stack);
                assert(stacks_view(self.stacks@) =~= before.stacks.insert(
                    thread,
                    stack_of(before.stacks, thread).push(frame_of(event@)),
                ));
            },
            TimestampKind::End => {
                let (path, weight) = match self.stacks.get(&thread) {
                    None => {
                        return Err(CollapseError::UnmatchedEnd { index: self.seen });
                    },
                    Some(stack) => {
                        assert(self.stacks@.dom().contains(thread));
                        let top = &stack[stack.len() - 1];
                        assert(top@ == frames_view(stack@).last());
                        if !(top.event_kind == event.event_kind) || !(top.label == event.label) {
                            return Err(CollapseError::MismatchedEnd { index: self.seen });
                        }
                        let elapsed: u64 = if event.nanos >= top.start {
                            event.nanos - top.start
                        } else {
                            0
                        };
                        let unit: u128 = self.interval_ms as u128 * 1_000_000;
                        let weight: u128 = elapsed as u128 / unit;
                        assert(weight <= elapsed) by (nonlinear_arith)
                            requires
                                weight == elapsed as u128 / unit,
                                unit >= 1,
                        ;
                        (path_of(stack), weight)
                    },
                };
                let mut stack = match self.stacks.remove(&thread) {
                    Some(stack) => stack,
                    None => Vec::new(),
                };
                let ghost whole = stack@;
                assert(frames_view(whole) =~= stack_of(before.stacks, thread));
                let _ = stack.pop();
                assert(frames_view(stack@) =~= frames_view(whole).drop_last());
                if stack.len() > 0 {
                    self.stacks.insert(thread, stack);
                    assert(stacks_view(self.stacks@) =~= before.stacks.insert(
                        thread,
                        stack_of(before.stacks, thread).drop_last(),
                    ));
                } else {
                    assert(stacks_view(self.stacks@) =~= before.stacks.remove(thread));
                }
                if weight > 0 {
                    assert(weight_of(self.folded@.weights, path@) <= self.seen * u64::MAX);
                    self.folded.add(path, weight);
                }
            },
        }
        self.seen = self.seen + 1;
        self.events = Ghost(taken.push(event@));
        proof {
            let next = step(before, event@, taken.len(), self.interval_ms)->Ok_0;
            assert(self.events@.drop_last() =~= taken);
            assert(self.state().stacks =~= next.stacks);
            assert(self.state() =~= next);
            assert forall|label: Seq<char>|
                #[trigger] weight_of(self.folded@.weights, label) <= self.seen * u64::MAX by {
                assert(weight_of(before.folded.weights, label) <= (self.seen - 1) * u64::MAX);
            }
        }
        Ok(())
    }

    /// Ends the trace and gives the weight of every path. No interval may
    /// be open.
    pub fn finish(self) -> (r: Result<FoldedStacks, CollapseError>)
        requires
            self.wf(),
        ensures
            match collapse(self.events(), self.interval_ms()) {
                Ok(view) => r matches Ok(folded) && folded.wf() && folded@ == view,
                Err(e) => r matches Err(found) && found == e,
            },
    {
        broadcast use vstd::std_specs::hash::group_hash_axioms;

        if self.stacks.is_empty() {
            assert forall|thread: u64| stack_of(self.state().stacks, thread).len() == 0 by {
                assert(!self.stacks@.dom().contains(thread));
            }
            Ok(self.folded)
        } else {
            proof {
                let thread = choose|thread: u64| self.stacks@.dom().contains(thread);
                assert(self.stacks@.dom().contains(thread));
                assert(stack_of(self.state().stacks, thread).len() > 0);
            }
            Err(CollapseError::UnclosedStart)
        }
    }
}

/// Folds a trace into the weight of every call path. One unit of weight is
/// `interval_ms` milliseconds.
pub fn collapse_stacks(events: &[Event], interval_ms: u64) -> (r: Result<
    FoldedStacks,
    CollapseError,
>)
    ensures
        match collapse(event_views(events@), interval_ms) {
            Ok(view) => r matches Ok(folded) && folded.wf() && folded@ == view,
            Err(e) => r matches Err(found) && found == e,
        },
{
    let mut collapser = match StackCollapser::new(interval_ms) {
        Err(e) => {
            return Err(e);
        },
        Ok(collapser) => collapser,
    };
    let ghost views = event_views(events@);
    let mut i: usize = 0;
    assert(views.take(0) =~= Seq::<EventView>::empty());
    while i < events.len()
        invariant
            i <= events.len(),
            views == event_views(events@),
            collapser.wf(),
            collapser.interval_ms() == interval_ms,
            collapser.events() == views.take(i as int),
        decreases events.len() - i,
    {
        proof {
            collapser.lemma_state();
            assert(views.take(i + 1).drop_last() =~= views.take(i as int));
            assert(views.take(i + 1).last() == events@[i as int]@);
            assert(views.take(i as int).push(events@[i as int]@) =~= views.take(i + 1));
        }
        match collapser.push(&events[i]) {
            Err(e) => {
                proof {
                    lemma_run_error_is_final(views, i + 1, interval_ms);
                }
                return Err(e);
            },
            Ok(()) => {},
        }
        i += 1;
    }
    assert(views.take(events.len() as int) =~= views);
    collapser.finish()
}

} // verus!

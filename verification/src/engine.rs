//! Gathers the results of all commands in the order of the command list,
//! whichever command finishes first.

use vstd::prelude::*;
use crate::report::{views, CmdOutput, CmdOutputView};
use crate::source::{commands_on, is_command, lemma_one_command_per_usable_line};

verus! {

/// Where one command stands.
enum Slot {
    Queued,
    Running,
    Done(CmdOutput),
    Lost,
}

/// Where one command stands, its result as sequences of characters.
pub enum SlotView {
    /// Not started yet.
    Queued,
    /// Started, not finished.
    Running,
    /// Finished, with this result.
    Done(CmdOutputView),
    /// Started, and its result never arrived.
    Lost,
}

impl View for Slot {
    type V = SlotView;

    closed spec fn view(&self) -> SlotView {
        match *self {
            Slot::Queued => SlotView::Queued,
            Slot::Running => SlotView::Running,
            Slot::Done(out) => SlotView::Done(out@),
            Slot::Lost => SlotView::Lost,
        }
    }
}

/// What can happen to a run.
pub enum Event {
    /// The caller asks which commands to start.
    Dispatch,
    /// The command at `index` has finished with `outcome`, or was lost.
    Finish { index: int, outcome: Option<CmdOutputView> },
}

/// The slot of a command that has finished with `outcome`.
pub open spec fn settle(outcome: Option<CmdOutputView>) -> SlotView {
    match outcome {
        Some(out) => SlotView::Done(out),
        None => SlotView::Lost,
    }
}

/// The result that a slot holds, if it holds one.
pub open spec fn result_in(slot: SlotView) -> Option<CmdOutputView> {
    match slot {
        SlotView::Done(out) => Some(out),
        _ => None,
    }
}

/// The results that the slots hold, in the slots' order.
pub open spec fn gathered(slots: Seq<SlotView>) -> Seq<CmdOutputView> {
    slots.filter_map(|slot: SlotView| result_in(slot))
}

/// A run of the command list: one slot per command, in the list's order.
pub struct Run {
    pub parallel: bool,
    pub slots: Seq<SlotView>,
}

impl Run {
    /// The run of `count` commands before anything has happened.
    pub open spec fn fresh(count: nat, parallel: bool) -> Run {
        Run { parallel, slots: Seq::new(count, |i: int| SlotView::Queued) }
    }

    /// Whether the command at `index` has finished or was lost.
    pub open spec fn settled(self, index: int) -> bool {
        self.slots[index] is Done || self.slots[index] is Lost
    }

    /// Whether some command is running.
    pub open spec fn busy(self) -> bool {
        exists|i: int| 0 <= i < self.slots.len() && #[trigger] self.slots[i] is Running
    }

    /// Whether a dispatch starts the command at `index`. A parallel run starts
    /// every command that waits. A sequential run starts the first command
    /// that waits, and only while no command is running.
    pub open spec fn starts(self, index: int) -> bool {
        &&& 0 <= index < self.slots.len()
        &&& self.slots[index] is Queued
        &&& !self.parallel ==> {
            &&& !self.busy()
            &&& forall|j: int| 0 <= j < index ==> !(#[trigger] self.slots[j] is Queued)
        }
    }

    /// The run after `event`. A finish for a command that is not running
    /// changes nothing.
    pub open spec fn step(self, event: Event) -> Run {
        match event {
            Event::Dispatch => Run {
                parallel: self.parallel,
                slots: Seq::new(
                    self.slots.len(),
                    |i: int|
                        if self.starts(i) {
                            SlotView::Running
                        } else {
                            self.slots[i]
                        },
                ),
            },
            Event::Finish { index, outcome } => if 0 <= index < self.slots.len()
                && self.slots[index] is Running {
                Run { parallel: self.parallel, slots: self.slots.update(index, settle(outcome)) }
            } else {
                self
            },
        }
    }

    /// The run after `events`, one after the other.
    pub open spec fn after(self, events: Seq<Event>) -> Run
        decreases events.len(),
    {
        if events.len() == 0 {
            self
        } else {
            self.after(events.drop_last()).step(events.last())
        }
    }

    /// Whether every command has finished or was lost.
    pub open spec fn complete(self) -> bool {
        forall|i: int| 0 <= i < self.slots.len() ==> self.settled(i)
    }

    /// The result list: the results that have arrived, in the order of the
    /// command list.
    pub open spec fn results(self) -> Seq<CmdOutputView> {
        gathered(self.slots)
    }
}

/// The outcome of a command over sequences of characters.
pub open spec fn outcome_view(outcome: Option<CmdOutput>) -> Option<CmdOutputView> {
    match outcome {
        Some(out) => Some(out@),
        None => None,
    }
}

/// Gathers results by position in the command list.
pub struct Collector {
    parallel: bool,
    slots: Vec<Slot>,
}

impl View for Collector {
    type V = Run;

    closed spec fn view(&self) -> Run {
        Run {
            parallel: self.parallel,
            slots: Seq::new(self.slots@.len(), |i: int| self.slots@[i]@),
        }
    }
}

impl Collector {
    /// A collector for `count` commands, none of them started.
    pub fn new(count: usize, parallel: bool) -> (collector: Collector)
        ensures
            collector@ == Run::fresh(count as nat, parallel),
    {
        let mut slots: Vec<Slot> = Vec::new();
        let mut i: usize = 0;
        while i < count
            invariant
                i <= count,
                slots@.len() == i,
                forall|k: int| 0 <= k < i ==> slots@[k] is Queued,
            decreases count - i,
        {
            slots.push(Slot::Queued);
            i = i + 1;
        }
        let collector = Collector { parallel, slots };
        assert(collector@.slots =~= Run::fresh(count as nat, parallel).slots);
        collector
    }

    /// The number of commands.
    pub fn len(&self) -> (count: usize)
        ensures
            count == self@.slots.len(),
    {
        self.slots.len()
    }

    /// Whether some command is running.
    fn is_busy(&self) -> (busy: bool)
        ensures
            busy == self@.busy(),
    {
        let mut i: usize = 0;
        while i < self.slots.len()
            invariant
                i <= self.slots.len(),
                forall|k: int| 0 <= k < i ==> !(#[trigger] self@.slots[k] is Running),
            decreases self.slots.len() - i,
        {
            if let Slot::Running = &self.slots[i] {
                assert(self@.slots[i as int] is Running);
                return true;
            }
            i = i + 1;
        }
        false
    }

    /// The position of the first command that waits, or the number of
    /// commands if none waits.
    fn first_queued(&self) -> (at: usize)
        ensures
            at <= self@.slots.len(),
            forall|k: int| 0 <= k < at ==> !(#[trigger] self@.slots[k] is Queued),
            at < self@.slots.len() ==> self@.slots[at as int] is Queued,
    {
        let mut i: usize = 0;
        while i < self.slots.len()
            invariant
                i <= self.slots.len(),
                forall|k: int| 0 <= k < i ==> !(#[trigger] self@.slots[k] is Queued),
            decreases self.slots.len() - i,
        {
            if let Slot::Queued = &self.slots[i] {
                return i;
            }
            i = i + 1;
        }
        i
    }

    /// Starts the commands that are to run now, and names them by position,
    /// lowest first. A parallel run starts all that wait. A sequential run
    /// starts the next that waits once the one before it has finished.
    pub fn dispatch(&mut self) -> (started: Vec<usize>)
        ensures
            final(self)@ == old(self)@.step(Event::Dispatch),
            forall|k: int|
                0 <= k < started.len() ==> old(self)@.starts(#[trigger] started[k] as int),
            forall|i: int|
                old(self)@.starts(i) ==> exists|k: int|
                    0 <= k < started.len() && #[trigger] started[k] == i,
            forall|a: int, b: int| 0 <= a < b < started.len() ==> started[a] < started[b],
    {
        let ghost before = self@;
        let mut started: Vec<usize> = Vec::new();
        if self.parallel {
            let mut i: usize = 0;
            while i < self.slots.len()
                invariant
                    i <= self.slots.len(),
                    self.parallel,
                    before.parallel,
                    self.slots.len() == before.slots.len(),
                    forall|k: int|
                        0 <= k < i ==> #[trigger] self@.slots[k] == if before.starts(k) {
                            SlotView::Running
                        } else {
                            before.slots[k]
                        },
                    forall|k: int|
                        i <= k < self.slots.len() ==> #[trigger] self@.slots[k] == before.slots[k],
                    forall|k: int|
                        0 <= k < started.len() ==> (#[trigger] started[k]) < i && before.starts(
                            started[k] as int,
                        ),
                    forall|j: int|
                        0 <= j < i && before.starts(j) ==> exists|k: int|
                            0 <= k < started.len() && #[trigger] started[k] == j,
                    forall|a: int, b: int| 0 <= a < b < started.len() ==> started[a] < started[b],
                decreases self.slots.len() - i,
            {
                let ghost mid = self@;
                let ghost named = started@;
                if let Slot::Queued = &self.slots[i] {
                    self.slots.set(i, Slot::Running);
                    started.push(i);
                    assert(started[named.len() as int] == i);
                    assert forall|j: int| 0 <= j < i + 1 && before.starts(j) implies exists|k: int|
                        0 <= k < started.len() && #[trigger] started[k] == j by {
                        if j < i {
                            let k = choose|k: int|
                                0 <= k < named.len() && #[trigger] named[k] == j;
                            assert(started[k] == j);
                        }
                    }
                } else {
                    assert(!(mid.slots[i as int] is Queued));
                }
                assert forall|k: int| 0 <= k < self.slots.len() && k != i implies #[trigger] self@
                    .slots[k] == mid.slots[k] by {}
                i = i + 1;
            }
        } else {
            let busy: bool = self.is_busy();
            let first: usize = self.first_queued();
            if !busy && first < self.slots.len() {
                self.slots.set(first, Slot::Running);
                started.push(first);
                assert(started[0] == first);
            }
        }
        assert(self@.slots =~= before.step(Event::Dispatch).slots);
        started
    }

    /// Takes the outcome of the command at `index`: its result, or `None` if
    /// the result was lost. An outcome for a command that is not running is
    /// dropped.
    pub fn record(&mut self, index: usize, outcome: Option<CmdOutput>)
        ensures
            final(self)@ == old(self)@.step(
                Event::Finish { index: index as int, outcome: outcome_view(outcome) },
            ),
    {
        let ghost before = self@;
        if index < self.slots.len() {
            if let Slot::Running = &self.slots[index] {
                match outcome {
                    Some(out) => {
                        self.slots.set(index, Slot::Done(out));
                    },
                    None => {
                        self.slots.set(index, Slot::Lost);
                    },
                }
                assert(self@.slots =~= before.slots.update(
                    index as int,
                    settle(outcome_view(outcome)),
                ));
            }
        }
    }

    /// Whether every command has finished or was lost.
    pub fn is_complete(&self) -> (complete: bool)
        ensures
            complete == self@.complete(),
    {
        let mut i: usize = 0;
        while i < self.slots.len()
            invariant
                i <= self.slots.len(),
                forall|k: int| 0 <= k < i ==> self@.settled(k),
            decreases self.slots.len() - i,
        {
            match &self.slots[i] {
                Slot::Queued => {
                    assert(!self@.settled(i as int));
                    return false;
                },
                Slot::Running => {
                    assert(!self@.settled(i as int));
                    return false;
                },
                _ => {},
            }
            i = i + 1;
        }
        true
    }
}

/// The result list of a run: the results that have arrived, in the order of
/// the command list. A command that waits, runs or was lost has no place in it.
pub fn collect(collector: Collector) -> (results: Vec<CmdOutput>)
    ensures
        views(results@) == collector@.results(),
{
    let ghost slots = collector@.slots;
    let ghost pick = |slot: SlotView| result_in(slot);
    let ghost owned = collector.slots@;
    let mut results: Vec<CmdOutput> = Vec::new();
    for slot in it: collector.slots
        invariant
            it.seq() == owned,
            slots.len() == owned.len(),
            forall|k: int| 0 <= k < owned.len() ==> #[trigger] slots[k] == owned[k]@,
            pick == |slot: SlotView| result_in(slot),
            views(results@) == slots.take(it.index() as int).filter_map(pick),
    {
        proof {
            slots.lemma_filter_map_take_succ(pick, it.index() as int);
        }
        if let Slot::Done(out) = slot {
            results.push(out);
        }
    }
    assert(slots.take(slots.len() as int) == slots);
    results
}

/// Whether every finish among `events` carries the outcome that `outcomes`
/// holds for its command: what a command gives does not depend on when it
/// finishes.
pub open spec fn faithful(events: Seq<Event>, outcomes: Seq<Option<CmdOutputView>>) -> bool {
    forall|k: int|
        0 <= k < events.len() ==> match #[trigger] events[k] {
            Event::Finish { index, outcome } => 0 <= index < outcomes.len() ==> outcome
                == outcomes[index],
            Event::Dispatch => true,
        }
}

/// The outcomes that are results, in their order.
pub open spec fn present(outcomes: Seq<Option<CmdOutputView>>) -> Seq<CmdOutputView> {
    outcomes.filter_map(|outcome: Option<CmdOutputView>| outcome)
}

/// Whether the commands of a run were started one at a time and in the order
/// of the list: before a command that has been started, every command has
/// finished or was lost.
pub open spec fn one_at_a_time(run: Run) -> bool {
    forall|i: int, j: int|
        0 <= i < j < run.slots.len() && !(#[trigger] run.slots[j] is Queued)
            ==> #[trigger] run.settled(i)
}

/// Slots that hold the outcomes give the outcomes that are results.
proof fn lemma_gathered_outcomes(slots: Seq<SlotView>, outcomes: Seq<Option<CmdOutputView>>)
    requires
        slots.len() == outcomes.len(),
        forall|i: int| 0 <= i < slots.len() ==> slots[i] == settle(#[trigger] outcomes[i]),
    ensures
        gathered(slots) == present(outcomes),
    decreases slots.len(),
{
    if slots.len() > 0 {
        lemma_gathered_outcomes(slots.drop_last(), outcomes.drop_last());
    }
}

/// Where every outcome is a result, the results are the outcomes.
proof fn lemma_present_all(outcomes: Seq<Option<CmdOutputView>>)
    requires
        forall|i: int| 0 <= i < outcomes.len() ==> #[trigger] outcomes[i] is Some,
    ensures
        present(outcomes).len() == outcomes.len(),
        forall|i: int|
            0 <= i < outcomes.len() ==> Some(#[trigger] present(outcomes)[i]) == outcomes[i],
    decreases outcomes.len(),
{
    if outcomes.len() > 0 {
        lemma_present_all(outcomes.drop_last());
    }
}

/// Whatever happens to a run, it keeps its mode and its number of commands,
/// and a command that has finished holds its own outcome.
proof fn lemma_run_holds_outcomes(
    outcomes: Seq<Option<CmdOutputView>>,
    parallel: bool,
    events: Seq<Event>,
)
    requires
        faithful(events, outcomes),
    ensures
        ({
            let end = Run::fresh(outcomes.len(), parallel).after(events);
            &&& end.parallel == parallel
            &&& end.slots.len() == outcomes.len()
            &&& forall|i: int|
                0 <= i < outcomes.len() && #[trigger] end.settled(i) ==> end.slots[i] == settle(
                    outcomes[i],
                )
        }),
    decreases events.len(),
{
    if events.len() > 0 {
        let earlier = events.drop_last();
        assert(faithful(earlier, outcomes));
        lemma_run_holds_outcomes(outcomes, parallel, earlier);
        let before = Run::fresh(outcomes.len(), parallel).after(earlier);
        let end = before.step(events.last());
        assert forall|i: int| 0 <= i < outcomes.len() && #[trigger] end.settled(i) implies end
            .slots[i] == settle(outcomes[i]) by {
            assert(before.settled(i) ==> before.slots[i] == settle(outcomes[i]));
        }
    }
}

/// Once every command has finished or was lost, the result list holds the
/// outcomes that are results, in the order of the command list: in which
/// order the commands finished makes no difference.
pub proof fn lemma_results_ignore_timing(
    outcomes: Seq<Option<CmdOutputView>>,
    parallel: bool,
    events: Seq<Event>,
)
    requires
        faithful(events, outcomes),
        Run::fresh(outcomes.len(), parallel).after(events).complete(),
    ensures
        Run::fresh(outcomes.len(), parallel).after(events).results() == present(outcomes),
{
    lemma_run_holds_outcomes(outcomes, parallel, events);
    let end = Run::fresh(outcomes.len(), parallel).after(events);
    assert forall|i: int| 0 <= i < end.slots.len() implies end.slots[i] == settle(
        #[trigger] outcomes[i],
    ) by {
        assert(end.settled(i));
    }
    lemma_gathered_outcomes(end.slots, outcomes);
}

/// A sequential run and a parallel run of the same commands end with the
/// same result list, in the same order.
pub proof fn lemma_modes_agree(
    outcomes: Seq<Option<CmdOutputView>>,
    sequential: Seq<Event>,
    parallel: Seq<Event>,
)
    requires
        faithful(sequential, outcomes),
        faithful(parallel, outcomes),
        Run::fresh(outcomes.len(), false).after(sequential).complete(),
        Run::fresh(outcomes.len(), true).after(parallel).complete(),
    ensures
        Run::fresh(outcomes.len(), false).after(sequential).results() == Run::fresh(
            outcomes.len(),
            true,
        ).after(parallel).results(),
{
    lemma_results_ignore_timing(outcomes, false, sequential);
    lemma_results_ignore_timing(outcomes, true, parallel);
}

/// Where no result is lost, the result list holds one result for each
/// command, each at its command's position.
pub proof fn lemma_one_result_per_command(
    outcomes: Seq<Option<CmdOutputView>>,
    parallel: bool,
    events: Seq<Event>,
)
    requires
        faithful(events, outcomes),
        Run::fresh(outcomes.len(), parallel).after(events).complete(),
        forall|i: int| 0 <= i < outcomes.len() ==> #[trigger] outcomes[i] is Some,
    ensures
        Run::fresh(outcomes.len(), parallel).after(events).results().len() == outcomes.len(),
        forall|i: int|
            0 <= i < outcomes.len() ==> Some(
                #[trigger] Run::fresh(outcomes.len(), parallel).after(events).results()[i],
            ) == outcomes[i],
{
    lemma_results_ignore_timing(outcomes, parallel, events);
    lemma_present_all(outcomes);
}

/// A run over the commands of a command list that loses no result ends with
/// as many results as the list has lines that are neither blank nor only a
/// comment.
pub proof fn lemma_one_result_per_usable_line(
    lines: Seq<Seq<char>>,
    outcomes: Seq<Option<CmdOutputView>>,
    parallel: bool,
    events: Seq<Event>,
)
    requires
        outcomes.len() == commands_on(lines).len(),
        faithful(events, outcomes),
        Run::fresh(outcomes.len(), parallel).after(events).complete(),
        forall|i: int| 0 <= i < outcomes.len() ==> #[trigger] outcomes[i] is Some,
    ensures
        Run::fresh(outcomes.len(), parallel).after(events).results().len() == lines.filter(
            |line: Seq<char>| is_command(line),
        ).len(),
{
    lemma_one_result_per_command(outcomes, parallel, events);
    lemma_one_command_per_usable_line(lines);
}

/// A sequential run starts its commands one at a time and in the order of
/// the list, whatever happens to it.
pub proof fn lemma_sequential_is_one_at_a_time(count: nat, events: Seq<Event>)
    ensures
        one_at_a_time(Run::fresh(count, false).after(events)),
        !Run::fresh(count, false).after(events).parallel,
    decreases events.len(),
{
    if events.len() > 0 {
        lemma_sequential_is_one_at_a_time(count, events.drop_last());
        let before = Run::fresh(count, false).after(events.drop_last());
        let end = before.step(events.last());
        assert forall|i: int, j: int|
            0 <= i < j < end.slots.len() && !(#[trigger] end.slots[j] is Queued)
            implies #[trigger] end.settled(i) by {
            if !(before.slots[j] is Queued) {
                assert(before.settled(i));
            }
        }
    }
}

} // verus!

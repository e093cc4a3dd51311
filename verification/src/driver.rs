//! The harness driver: hands out the task identifiers of one run, takes what
//! the scheduler reports of each task, and reports once every task has
//! settled. One task's failure never touches another task.

use vstd::prelude::*;
use crate::config::ConfigurationError;
use crate::report::lasts_workload;
use crate::report::lemma_summary_lasts_workload;
use crate::report::statistics_at_least;
use crate::report::summarize_outcomes;
use crate::report::summary_of_outcomes;
use crate::report::RunSummary;
use crate::task::next_state;
use crate::task::action_for;
use crate::task::settled_outcome;
use crate::task::state_after;
use crate::task::Outcome;
use crate::task::TaskAction;
use crate::task::TaskEvent;
use crate::task::TaskState;
use crate::task::TaskUnit;

verus! {

/// Why the driver did not take an event.
#[derive(Clone, Copy, Debug, PartialEq, Eq, Structural)]
pub enum DriverError {
    /// The run has no task of that identifier.
    UnknownTask,
    /// The task's identifier has not been handed out yet.
    NotSpawned,
}

/// Why a run gave no summary.
#[derive(Clone, Copy, Debug, PartialEq, Eq, Structural)]
pub enum BenchmarkError {
    /// The run could not be set up.
    Configuration(ConfigurationError),
    /// An event names a task that the run does not have.
    UnknownTask,
    /// The events leave a task that has not settled.
    Unsettled,
}

/// Every unit has settled.
pub open spec fn all_settled(units: Seq<TaskUnit>) -> bool {
    forall|i: int| 0 <= i < units.len() ==> (#[trigger] units[i]).is_settled()
}

/// The outcomes of settled units, one for each unit, in the units' order.
pub open spec fn outcomes_of(units: Seq<TaskUnit>) -> Seq<Outcome> {
    Seq::new(units.len(), |i: int| settled_outcome(units[i].state)->Some_0)
}

/// `count` units that have not started, with identifiers from zero up.
pub open spec fn pending_units(count: nat, workload: u64) -> Seq<TaskUnit> {
    Seq::new(count, |i: int| TaskUnit { task_id: i as usize, workload, state: TaskState::Pending })
}

/// The units after the unit at `task_id` took `event`.
pub open spec fn units_after_event(units: Seq<TaskUnit>, task_id: int, event: TaskEvent) -> Seq<TaskUnit>
    recommends
        0 <= task_id < units.len(),
{
    let unit = units[task_id];
    units.update(
        task_id,
        TaskUnit {
            task_id: unit.task_id,
            workload: unit.workload,
            state: next_state(unit.task_id, unit.workload, unit.state, event),
        },
    )
}

/// The units after a sequence of events, each with the identifier of the
/// task it is about, applied first to last. An event about no unit changes
/// nothing.
pub open spec fn units_after(units: Seq<TaskUnit>, events: Seq<(usize, TaskEvent)>) -> Seq<TaskUnit>
    decreases events.len(),
{
    if events.len() == 0 {
        units
    } else {
        let before = units_after(units, events.drop_last());
        let (task_id, event) = events.last();
        if task_id < before.len() {
            units_after_event(before, task_id as int, event)
        } else {
            before
        }
    }
}

/// Every event is about a task with an identifier below `count`.
pub open spec fn all_known(events: Seq<(usize, TaskEvent)>, count: nat) -> bool {
    forall|i: int| 0 <= i < events.len() ==> (#[trigger] events[i]).0 < count
}

/// The events among `events` that are about task `task_id`, in their order.
pub open spec fn events_of(events: Seq<(usize, TaskEvent)>, task_id: usize) -> Seq<TaskEvent>
    decreases events.len(),
{
    if events.len() == 0 {
        Seq::empty()
    } else {
        let earlier = events_of(events.drop_last(), task_id);
        if events.last().0 == task_id {
            earlier.push(events.last().1)
        } else {
            earlier
        }
    }
}

/// One of `outcomes` is that of task `task_id`.
pub open spec fn settles_task(outcomes: Seq<Outcome>, task_id: usize) -> bool {
    exists|i: int| 0 <= i < outcomes.len() && (#[trigger] outcomes[i]).spec_task_id() == task_id
}

/// What a driver holds.
pub struct DriverView {
    /// The duration of each task's simulated workload.
    pub workload: u64,
    /// One unit for each task of the run, at the index of its identifier.
    pub units: Seq<TaskUnit>,
    /// How many identifiers have been handed out: those below this number.
    pub spawned: nat,
}

impl DriverView {
    /// The run has a task; each unit stands at its identifier, has the run's
    /// workload and is well formed; and a task whose identifier has not been
    /// handed out has not started.
    pub open spec fn wf(self) -> bool {
        &&& self.units.len() >= 1
        &&& self.spawned <= self.units.len()
        &&& forall|i: int|
            0 <= i < self.units.len() ==> {
                &&& (#[trigger] self.units[i]).task_id == i
                &&& self.units[i].workload == self.workload
                &&& self.units[i].wf()
                &&& i >= self.spawned ==> self.units[i].state == TaskState::Pending
            }
    }
}

/// The driver of one run.
#[derive(Debug)]
pub struct Driver {
    workload: u64,
    units: Vec<TaskUnit>,
    spawned: usize,
}

impl View for Driver {
    type V = DriverView;

    closed spec fn view(&self) -> DriverView {
        DriverView { workload: self.workload, units: self.units@, spawned: self.spawned as nat }
    }
}

impl Driver {
    /// The driver's invariant.
    pub open spec fn wf(&self) -> bool {
        self@.wf()
    }

    /// Sets up a run of `num_tasks` tasks, each with a simulated workload of
    /// `workload` time units. A count of zero or less is refused, and so is
    /// one beyond the machine's index range; no task is started then.
    pub fn new(num_tasks: i64, workload: u64) -> (result: Result<Driver, ConfigurationError>)
        ensures
            num_tasks <= 0 ==> result == Err::<Driver, ConfigurationError>(
                ConfigurationError::NonPositiveTaskCount,
            ),
            num_tasks > usize::MAX ==> result == Err::<Driver, ConfigurationError>(
                ConfigurationError::TaskCountTooLarge,
            ),
            0 < num_tasks <= usize::MAX ==> result is Ok,
            result is Ok ==> {
                &&& result->Ok_0.wf()
                &&& result->Ok_0@.workload == workload
                &&& result->Ok_0@.spawned == 0
                &&& result->Ok_0@.units == pending_units(num_tasks as nat, workload)
            },
    {
        if num_tasks <= 0 {
            return Err(ConfigurationError::NonPositiveTaskCount);
        }
        if num_tasks as u64 > usize::MAX as u64 {
            return Err(ConfigurationError::TaskCountTooLarge);
        }
        let count: usize = num_tasks as usize;
        let mut units: Vec<TaskUnit> = Vec::new();
        let mut task_id: usize = 0;
        while task_id < count
            invariant
                task_id <= count,
                units@ == pending_units(task_id as nat, workload),
            decreases count - task_id,
        {
            units.push(TaskUnit::new(task_id, workload));
            task_id = task_id + 1;
            assert(units@ =~= pending_units(task_id as nat, workload));
        }
        Ok(Driver { workload, units, spawned: 0 })
    }

    /// The number of tasks of the run.
    pub fn num_tasks(&self) -> (count: usize)
        ensures
            count == self@.units.len(),
    {
        self.units.len()
    }

    /// The duration of each task's simulated workload.
    pub fn workload(&self) -> (workload: u64)
        ensures
            workload == self@.workload,
    {
        self.workload
    }

    /// Hands out the identifier of the next task to start: zero first, then
    /// one more each time, and none once every task has one.
    pub fn next_spawn(&mut self) -> (task_id: Option<usize>)
        requires
            old(self).wf(),
        ensures
            final(self).wf(),
            final(self)@.workload == old(self)@.workload,
            final(self)@.units == old(self)@.units,
            old(self)@.spawned < old(self)@.units.len() ==> {
                &&& task_id == Some(old(self)@.spawned as usize)
                &&& final(self)@.spawned == old(self)@.spawned + 1
            },
            old(self)@.spawned == old(self)@.units.len() ==> {
                &&& task_id is None
                &&& final(self)@.spawned == old(self)@.spawned
            },
    {
        if self.spawned < self.units.len() {
            let task_id: usize = self.spawned;
            self.spawned = task_id + 1;
            Some(task_id)
        } else {
            None
        }
    }

    /// Takes what the scheduler reports of task `task_id`: that task's unit
    /// moves on, every other unit stays as it is, and the result says what
    /// the caller is to do. An event about a task that the run does not have,
    /// or whose identifier has not been handed out, is refused and changes
    /// nothing.
    pub fn deliver(&mut self, task_id: usize, event: TaskEvent) -> (result: Result<TaskAction, DriverError>)
        requires
            old(self).wf(),
        ensures
            final(self).wf(),
            final(self)@.workload == old(self)@.workload,
            final(self)@.spawned == old(self)@.spawned,
            task_id >= old(self)@.units.len() ==> {
                &&& result == Err::<TaskAction, DriverError>(DriverError::UnknownTask)
                &&& final(self)@ == old(self)@
            },
            old(self)@.spawned <= task_id < old(self)@.units.len() ==> {
                &&& result == Err::<TaskAction, DriverError>(DriverError::NotSpawned)
                &&& final(self)@ == old(self)@
            },
            task_id < old(self)@.spawned ==> {
                &&& result == Ok::<TaskAction, DriverError>(
                    action_for(task_id, old(self)@.workload, old(self)@.units[task_id as int].state, event),
                )
                &&& final(self)@.units == units_after_event(old(self)@.units, task_id as int, event)
            },
    {
        if task_id >= self.units.len() {
            return Err(DriverError::UnknownTask);
        }
        if task_id >= self.spawned {
            return Err(DriverError::NotSpawned);
        }
        let mut unit: TaskUnit = self.units[task_id];
        let action = unit.step(event);
        self.units.set(task_id, unit);
        Ok(action)
    }

    /// The outcome of each task, at the index of its identifier, once every
    /// task has settled; until then, nothing.
    pub fn outcomes(&self) -> (result: Option<Vec<Outcome>>)
        requires
            self.wf(),
        ensures
            result is Some <==> all_settled(self@.units),
            result is Some ==> {
                &&& result->Some_0@ == outcomes_of(self@.units)
                &&& result->Some_0@.len() == self@.units.len()
                &&& forall|i: int|
                    0 <= i < self@.units.len() ==> {
                        &&& (#[trigger] result->Some_0@[i]).spec_task_id() == i
                        &&& lasts_workload(result->Some_0@[i], self@.workload)
                    }
            },
    {
        let mut outcomes: Vec<Outcome> = Vec::new();
        let mut i: usize = 0;
        while i < self.units.len()
            invariant
                i <= self.units.len(),
                outcomes@.len() == i,
                forall|j: int| 0 <= j < i ==> (#[trigger] self.units@[j]).is_settled(),
                forall|j: int| 0 <= j < i ==> Some(#[trigger] outcomes@[j]) == settled_outcome(self.units@[j].state),
            decreases self.units.len() - i,
        {
            match self.units[i].outcome() {
                Some(outcome) => {
                    outcomes.push(outcome);
                },
                None => {
                    assert(!self.units@[i as int].is_settled());
                    return None;
                },
            }
            i = i + 1;
        }
        proof {
            assert(outcomes@ =~= outcomes_of(self@.units));
            lemma_settled_run_covers_ids(self@);
        }
        Some(outcomes)
    }

    /// The summary of the run, once every task has settled; until then,
    /// nothing. The completed and the failed tasks together are all the
    /// tasks of the run.
    pub fn report(&self) -> (result: Option<RunSummary>)
        requires
            self.wf(),
        ensures
            result is Some <==> all_settled(self@.units),
            result is Some ==> {
                &&& result->Some_0 == summary_of_outcomes(outcomes_of(self@.units))
                &&& result->Some_0.completed + result->Some_0.failed == self@.units.len()
                &&& statistics_at_least(result->Some_0, self@.workload)
            },
    {
        match self.outcomes() {
            Some(outcomes) => {
                proof {
                    lemma_summary_lasts_workload(outcomes@, self@.workload);
                }
                Some(summarize_outcomes(&outcomes))
            },
            None => None,
        }
    }
}

/// Runs a benchmark of `num_tasks` tasks over what the scheduler reported:
/// sets up the run, hands out every task's identifier, takes the events in
/// their order, and summarises. The events may come in any order between
/// tasks; a task that fails does not keep the others from being counted.
pub fn run_benchmark(num_tasks: i64, workload: u64, events: &Vec<(usize, TaskEvent)>) -> (result: Result<
    RunSummary,
    BenchmarkError,
>)
    ensures
        num_tasks <= 0 ==> result == Err::<RunSummary, BenchmarkError>(
            BenchmarkError::Configuration(ConfigurationError::NonPositiveTaskCount),
        ),
        num_tasks > usize::MAX ==> result == Err::<RunSummary, BenchmarkError>(
            BenchmarkError::Configuration(ConfigurationError::TaskCountTooLarge),
        ),
        0 < num_tasks <= usize::MAX && !all_known(events@, num_tasks as nat) ==> result == Err::<
            RunSummary,
            BenchmarkError,
        >(BenchmarkError::UnknownTask),
        0 < num_tasks <= usize::MAX && all_known(events@, num_tasks as nat) ==> {
            let units = units_after(pending_units(num_tasks as nat, workload), events@);
            &&& !all_settled(units) ==> result == Err::<RunSummary, BenchmarkError>(BenchmarkError::Unsettled)
            &&& all_settled(units) ==> result == Ok::<RunSummary, BenchmarkError>(
                summary_of_outcomes(outcomes_of(units)),
            )
        },
        result is Ok ==> {
            &&& result->Ok_0.completed + result->Ok_0.failed == num_tasks
            &&& statistics_at_least(result->Ok_0, workload)
        },
{
    let mut driver = match Driver::new(num_tasks, workload) {
        Ok(driver) => driver,
        Err(error) => {
            return Err(BenchmarkError::Configuration(error));
        },
    };
    let count: usize = driver.num_tasks();
    let mut handed: usize = 0;
    while handed < count
        invariant
            driver.wf(),
            handed <= count,
            count == driver@.units.len(),
            driver@.spawned == handed,
            driver@.workload == workload,
            driver@.units == pending_units(num_tasks as nat, workload),
        decreases count - handed,
    {
        let _ = driver.next_spawn();
        handed = handed + 1;
    }
    let mut i: usize = 0;
    while i < events.len()
        invariant
            driver.wf(),
            i <= events.len(),
            count == num_tasks,
            count == driver@.units.len(),
            driver@.spawned == count,
            driver@.workload == workload,
            all_known(events@.take(i as int), count as nat),
            driver@.units == units_after(pending_units(num_tasks as nat, workload), events@.take(i as int)),
        decreases events.len() - i,
    {
        let (task_id, event) = events[i];
        if task_id >= count {
            assert(!all_known(events@, num_tasks as nat)) by {
                assert(events@[i as int].0 >= count);
            }
            return Err(BenchmarkError::UnknownTask);
        }
        proof {
            let next = events@.take(i + 1);
            assert(next.drop_last() =~= events@.take(i as int));
            assert(next.last() == events@[i as int]);
            assert forall|j: int| 0 <= j < next.len() implies (#[trigger] next[j]).0 < count by {
                if j < i {
                    assert(next[j] == events@.take(i as int)[j]);
                }
            }
        }
        let _ = driver.deliver(task_id, event);
        i = i + 1;
    }
    proof {
        assert(events@.take(i as int) =~= events@);
    }
    match driver.report() {
        Some(summary) => Ok(summary),
        None => Err(BenchmarkError::Unsettled),
    }
}

/// Once every task of a run has settled, there is one outcome for each
/// identifier from zero up to the number of tasks, at the index of that
/// identifier, so no identifier is missing and none occurs twice; and each
/// completed task's record is consistent and lasts at least the workload.
pub proof fn lemma_settled_run_covers_ids(run: DriverView)
    requires
        run.wf(),
        all_settled(run.units),
    ensures
        outcomes_of(run.units).len() == run.units.len(),
        forall|i: int|
            0 <= i < run.units.len() ==> (#[trigger] outcomes_of(run.units)[i]).spec_task_id() == i,
        forall|i: int, j: int|
            0 <= i < j < run.units.len() ==> (#[trigger] outcomes_of(run.units)[i]).spec_task_id() != (
            #[trigger] outcomes_of(run.units)[j]).spec_task_id(),
        forall|id: usize| id < run.units.len() ==> #[trigger] settles_task(outcomes_of(run.units), id),
        forall|i: int|
            0 <= i < run.units.len() ==> lasts_workload(#[trigger] outcomes_of(run.units)[i], run.workload),
{
    let outcomes = outcomes_of(run.units);
    assert forall|i: int| 0 <= i < run.units.len() implies (#[trigger] outcomes[i]).spec_task_id() == i
        && lasts_workload(outcomes[i], run.workload) by {
        assert(run.units[i].is_settled());
        assert(run.units[i].wf());
    }
    assert forall|id: usize| id < run.units.len() implies #[trigger] settles_task(outcomes, id) by {
        assert(outcomes[id as int].spec_task_id() == id);
    }
}

/// Where a task stands after a sequence of events depends on the events
/// about that task alone: whatever happens to the other tasks, a failure
/// among them too, its unit is where its own events bring it.
pub proof fn lemma_task_follows_its_own_events(
    units: Seq<TaskUnit>,
    events: Seq<(usize, TaskEvent)>,
    task_id: usize,
)
    requires
        task_id < units.len(),
    ensures
        units_after(units, events).len() == units.len(),
        units_after(units, events)[task_id as int] == (TaskUnit {
            task_id: units[task_id as int].task_id,
            workload: units[task_id as int].workload,
            state: state_after(
                units[task_id as int].task_id,
                units[task_id as int].workload,
                units[task_id as int].state,
                events_of(events, task_id),
            ),
        }),
    decreases events.len(),
{
    if events.len() > 0 {
        lemma_task_follows_its_own_events(units, events.drop_last(), task_id);
        if events.last().0 == task_id {
            let earlier = events_of(events.drop_last(), task_id);
            assert(earlier.push(events.last().1).drop_last() =~= earlier);
        }
    }
}

/// An event about one task leaves every other task's unit as it was.
pub proof fn lemma_event_leaves_other_tasks(units: Seq<TaskUnit>, task_id: int, event: TaskEvent, other: int)
    requires
        0 <= task_id < units.len(),
        0 <= other < units.len(),
        other != task_id,
    ensures
        units_after_event(units, task_id, event).len() == units.len(),
        units_after_event(units, task_id, event)[other] == units[other],
{
}

/// Events about two different tasks may come in either order.
pub proof fn lemma_events_of_two_tasks_commute(
    units: Seq<TaskUnit>,
    first_id: int,
    first_event: TaskEvent,
    second_id: int,
    second_event: TaskEvent,
)
    requires
        0 <= first_id < units.len(),
        0 <= second_id < units.len(),
        first_id != second_id,
    ensures
        units_after_event(units_after_event(units, first_id, first_event), second_id, second_event)
            == units_after_event(units_after_event(units, second_id, second_event), first_id, first_event),
{
    assert(units_after_event(units_after_event(units, first_id, first_event), second_id, second_event)
        =~= units_after_event(units_after_event(units, second_id, second_event), first_id, first_event));
}

} // verus!

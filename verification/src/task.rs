//! The task unit: one schedulable piece of simulated work with its own
//! timing and memory bookkeeping, as a state machine that the caller feeds
//! with what the scheduler reports.

use vstd::prelude::*;

verus! {

/// What a task that ran to completion measured.
#[derive(Clone, Copy, Debug, PartialEq, Eq, Structural)]
pub struct TaskRecord {
    /// The task's identifier, unique within one run.
    pub task_id: usize,
    /// Monotonic time at which the task began.
    pub start_time: u64,
    /// Monotonic time at which the task ended.
    pub end_time: u64,
    /// `end_time - start_time`.
    pub duration: u64,
    /// The accountant's snapshot at the end less the one at the start.
    /// Negative where concurrent tasks released memory meanwhile.
    pub memory_delta: i128,
}

impl TaskRecord {
    /// The record's times are in order and its duration is their difference.
    pub open spec fn is_consistent(self) -> bool {
        &&& self.start_time <= self.end_time
        &&& self.duration == self.end_time - self.start_time
    }

    /// The record of task `task_id` that ran from `start_time` to `end_time`
    /// while the accountant went from `start_mem` to `end_mem`.
    pub open spec fn measured(
        task_id: usize,
        start_time: u64,
        start_mem: usize,
        end_time: u64,
        end_mem: usize,
    ) -> TaskRecord {
        TaskRecord {
            task_id,
            start_time,
            end_time,
            duration: (end_time - start_time) as u64,
            memory_delta: (end_mem - start_mem) as i128,
        }
    }
}

/// Why a task did not complete.
#[derive(Clone, Copy, Debug, PartialEq, Eq, Structural)]
pub enum FailureCause {
    /// The task was cancelled while it ran.
    Cancelled,
    /// The scheduler reported a fault, or resumed the task before its
    /// workload had elapsed.
    ExecutionFault,
    /// The scheduler could not accept the task.
    SchedulerExhaustion,
}

impl FailureCause {
    /// The cause in words.
    pub fn label(self) -> (text: &'static str)
        ensures
            self == FailureCause::Cancelled ==> text@ == "cancelled"@,
            self == FailureCause::ExecutionFault ==> text@ == "execution fault"@,
            self == FailureCause::SchedulerExhaustion ==> text@ == "scheduler exhausted"@,
    {
        match self {
            FailureCause::Cancelled => "cancelled",
            FailureCause::ExecutionFault => "execution fault",
            FailureCause::SchedulerExhaustion => "scheduler exhausted",
        }
    }
}

/// A task that could not complete.
#[derive(Clone, Copy, Debug, PartialEq, Eq, Structural)]
pub struct TaskFailure {
    pub task_id: usize,
    pub cause: FailureCause,
}

/// How one task settled.
#[derive(Clone, Copy, Debug, PartialEq, Eq, Structural)]
pub enum Outcome {
    Completed(TaskRecord),
    Failed(TaskFailure),
}

impl Outcome {
    /// The identifier of the task that settled.
    pub open spec fn spec_task_id(self) -> usize {
        match self {
            Outcome::Completed(record) => record.task_id,
            Outcome::Failed(failure) => failure.task_id,
        }
    }

    /// The identifier of the task that settled.
    #[verifier::when_used_as_spec(spec_task_id)]
    pub fn task_id(self) -> (id: usize)
        ensures
            id == self.spec_task_id(),
    {
        match self {
            Outcome::Completed(record) => record.task_id,
            Outcome::Failed(failure) => failure.task_id,
        }
    }
}

/// Where a task stands.
#[derive(Clone, Copy, Debug, PartialEq, Eq, Structural)]
pub enum TaskState {
    /// Not yet running.
    Pending,
    /// Suspended in its workload since `start_time`.
    Running { start_time: u64, start_mem: usize },
    /// Cancelled while running; its resources are being released.
    Cancelled,
    /// Ran to completion.
    Completed(TaskRecord),
    /// Did not complete.
    Failed(TaskFailure),
}

/// What the scheduler reports of a task.
#[derive(Clone, Copy, Debug, PartialEq, Eq, Structural)]
pub enum TaskEvent {
    /// The task began to run at time `now`, with the accountant at `mem`.
    Started { now: u64, mem: usize },
    /// The task's suspension ended at time `now`, with the accountant at `mem`.
    Resumed { now: u64, mem: usize },
    /// The task was cancelled.
    CancelRequested,
    /// The resources of a cancelled task have been released.
    TornDown,
    /// The scheduler reported an execution fault.
    Faulted,
    /// The scheduler could not accept the task.
    Refused,
}

/// What the caller is to do after an event.
#[derive(Clone, Copy, Debug, PartialEq, Eq, Structural)]
pub enum TaskAction {
    /// Suspend the task for this long: its simulated workload.
    Suspend(u64),
    /// Release what the task holds, then report `TornDown`.
    Release,
    /// The task has settled with this outcome.
    Settle(Outcome),
    /// The event does not apply in the task's state; nothing changed.
    Ignore,
}

/// Whether a task that resumes at `now` after starting at `start_time` has
/// been suspended for at least `workload`.
pub open spec fn workload_elapsed(start_time: u64, now: u64, workload: u64) -> bool {
    start_time <= now && now - start_time >= workload
}

/// The state that follows `state` on `event`, for task `task_id` with the
/// given workload.
pub open spec fn next_state(task_id: usize, workload: u64, state: TaskState, event: TaskEvent) -> TaskState {
    match (state, event) {
        (TaskState::Pending, TaskEvent::Started { now, mem }) => TaskState::Running {
            start_time: now,
            start_mem: mem,
        },
        (TaskState::Pending, TaskEvent::Refused) => TaskState::Failed(
            TaskFailure { task_id, cause: FailureCause::SchedulerExhaustion },
        ),
        (TaskState::Running { start_time, start_mem }, TaskEvent::Resumed { now, mem }) => {
            if workload_elapsed(start_time, now, workload) {
                TaskState::Completed(TaskRecord::measured(task_id, start_time, start_mem, now, mem))
            } else {
                TaskState::Failed(TaskFailure { task_id, cause: FailureCause::ExecutionFault })
            }
        },
        (TaskState::Running { .. }, TaskEvent::CancelRequested) => TaskState::Cancelled,
        (TaskState::Running { .. }, TaskEvent::Faulted) => TaskState::Failed(
            TaskFailure { task_id, cause: FailureCause::ExecutionFault },
        ),
        (TaskState::Cancelled, TaskEvent::TornDown)
        | (TaskState::Cancelled, TaskEvent::Resumed { .. })
        | (TaskState::Cancelled, TaskEvent::Faulted) => TaskState::Failed(
            TaskFailure { task_id, cause: FailureCause::Cancelled },
        ),
        _ => state,
    }
}

/// The outcome with which a task in `state` has settled, if it has.
pub open spec fn settled_outcome(state: TaskState) -> Option<Outcome> {
    match state {
        TaskState::Completed(record) => Some(Outcome::Completed(record)),
        TaskState::Failed(failure) => Some(Outcome::Failed(failure)),
        _ => None,
    }
}

/// What the caller is to do when `event` arrives in `state`.
pub open spec fn action_for(task_id: usize, workload: u64, state: TaskState, event: TaskEvent) -> TaskAction {
    let next = next_state(task_id, workload, state, event);
    if settled_outcome(state) is Some || next == state {
        TaskAction::Ignore
    } else {
        match next {
            TaskState::Running { .. } => TaskAction::Suspend(workload),
            TaskState::Cancelled => TaskAction::Release,
            TaskState::Completed(record) => TaskAction::Settle(Outcome::Completed(record)),
            TaskState::Failed(failure) => TaskAction::Settle(Outcome::Failed(failure)),
            TaskState::Pending => TaskAction::Ignore,
        }
    }
}

/// The state after a sequence of events, applied first to last.
pub open spec fn state_after(task_id: usize, workload: u64, state: TaskState, events: Seq<TaskEvent>) -> TaskState
    decreases events.len(),
{
    if events.len() == 0 {
        state
    } else {
        next_state(task_id, workload, state_after(task_id, workload, state, events.drop_last()), events.last())
    }
}

/// One task unit: its identifier, the duration of its simulated workload,
/// and where it stands.
#[derive(Clone, Copy, Debug, PartialEq, Eq, Structural)]
pub struct TaskUnit {
    pub task_id: usize,
    pub workload: u64,
    pub state: TaskState,
}

impl TaskUnit {
    /// What the unit holds agrees with its identifier and workload: a record
    /// or failure is its own, and a record is consistent and lasts at least
    /// the workload.
    pub open spec fn wf(self) -> bool {
        match self.state {
            TaskState::Completed(record) => {
                &&& record.task_id == self.task_id
                &&& record.is_consistent()
                &&& record.duration >= self.workload
            },
            TaskState::Failed(failure) => failure.task_id == self.task_id,
            _ => true,
        }
    }

    /// The unit has settled, as completed or as failed.
    pub open spec fn is_settled(self) -> bool {
        settled_outcome(self.state) is Some
    }

    /// A unit for task `task_id` that has not started.
    pub fn new(task_id: usize, workload: u64) -> (unit: TaskUnit)
        ensures
            unit == (TaskUnit { task_id, workload, state: TaskState::Pending }),
            unit.wf(),
    {
        TaskUnit { task_id, workload, state: TaskState::Pending }
    }

    /// Takes one event: moves to the state that follows and says what the
    /// caller is to do. An event that does not apply changes nothing.
    pub fn step(&mut self, event: TaskEvent) -> (action: TaskAction)
        ensures
            final(self).task_id == old(self).task_id,
            final(self).workload == old(self).workload,
            final(self).state == next_state(old(self).task_id, old(self).workload, old(self).state, event),
            action == action_for(old(self).task_id, old(self).workload, old(self).state, event),
            old(self).wf() ==> final(self).wf(),
    {
        let task_id = self.task_id;
        let workload = self.workload;
        match (self.state, event) {
            (TaskState::Pending, TaskEvent::Started { now, mem }) => {
                self.state = TaskState::Running { start_time: now, start_mem: mem };
                TaskAction::Suspend(workload)
            },
            (TaskState::Pending, TaskEvent::Refused) => {
                let failure = TaskFailure { task_id, cause: FailureCause::SchedulerExhaustion };
                self.state = TaskState::Failed(failure);
                TaskAction::Settle(Outcome::Failed(failure))
            },
            (TaskState::Running { start_time, start_mem }, TaskEvent::Resumed { now, mem }) => {
                if start_time <= now && now - start_time >= workload {
                    let record = TaskRecord {
                        task_id,
                        start_time,
                        end_time: now,
                        duration: now - start_time,
                        memory_delta: mem as i128 - start_mem as i128,
                    };
                    self.state = TaskState::Completed(record);
                    TaskAction::Settle(Outcome::Completed(record))
                } else {
                    let failure = TaskFailure { task_id, cause: FailureCause::ExecutionFault };
                    self.state = TaskState::Failed(failure);
                    TaskAction::Settle(Outcome::Failed(failure))
                }
            },
            (TaskState::Running { .. }, TaskEvent::CancelRequested) => {
                self.state = TaskState::Cancelled;
                TaskAction::Release
            },
            (TaskState::Running { .. }, TaskEvent::Faulted) => {
                let failure = TaskFailure { task_id, cause: FailureCause::ExecutionFault };
                self.state = TaskState::Failed(failure);
                TaskAction::Settle(Outcome::Failed(failure))
            },
            (TaskState::Cancelled, TaskEvent::TornDown)
            | (TaskState::Cancelled, TaskEvent::Resumed { .. })
            | (TaskState::Cancelled, TaskEvent::Faulted) => {
                let failure = TaskFailure { task_id, cause: FailureCause::Cancelled };
                self.state = TaskState::Failed(failure);
                TaskAction::Settle(Outcome::Failed(failure))
            },
            _ => TaskAction::Ignore,
        }
    }

    /// The outcome with which the unit has settled, if it has.
    pub fn outcome(&self) -> (outcome: Option<Outcome>)
        ensures
            outcome == settled_outcome(self.state),
    {
        match self.state {
            TaskState::Completed(record) => Some(Outcome::Completed(record)),
            TaskState::Failed(failure) => Some(Outcome::Failed(failure)),
            _ => None,
        }
    }
}

/// Runs one task from the scheduler's observations: started at `start_time`
/// with the accountant at `start_mem`, resumed at `end_time` with the
/// accountant at `end_mem`. Gives the task's record where its suspension
/// lasted at least `workload`, else a failure.
pub fn perform_task(
    task_id: usize,
    workload: u64,
    start_time: u64,
    start_mem: usize,
    end_time: u64,
    end_mem: usize,
) -> (result: Result<TaskRecord, TaskFailure>)
    ensures
        workload_elapsed(start_time, end_time, workload) ==> result == Ok::<TaskRecord, TaskFailure>(
            TaskRecord::measured(task_id, start_time, start_mem, end_time, end_mem),
        ),
        !workload_elapsed(start_time, end_time, workload) ==> result == Err::<TaskRecord, TaskFailure>(
            TaskFailure { task_id, cause: FailureCause::ExecutionFault },
        ),
        result is Ok ==> result->Ok_0.is_consistent() && result->Ok_0.duration >= workload,
{
    let mut unit = TaskUnit::new(task_id, workload);
    unit.step(TaskEvent::Started { now: start_time, mem: start_mem });
    unit.step(TaskEvent::Resumed { now: end_time, mem: end_mem });
    match unit.state {
        TaskState::Completed(record) => Ok(record),
        _ => Err(TaskFailure { task_id, cause: FailureCause::ExecutionFault }),
    }
}

/// A settled task stays as it is, whatever is reported of it afterwards.
pub proof fn lemma_settled_is_final(task_id: usize, workload: u64, state: TaskState, events: Seq<TaskEvent>)
    requires
        settled_outcome(state) is Some,
    ensures
        state_after(task_id, workload, state, events) == state,
    decreases events.len(),
{
    if events.len() > 0 {
        lemma_settled_is_final(task_id, workload, state, events.drop_last());
    }
}

/// A cancelled task never completes: after any further events it is still
/// cancelled, or has failed with the cause `Cancelled`.
pub proof fn lemma_cancelled_never_completes(task_id: usize, workload: u64, events: Seq<TaskEvent>)
    ensures
        ({
            let end = state_after(task_id, workload, TaskState::Cancelled, events);
            end == TaskState::Cancelled || end == TaskState::Failed(
                TaskFailure { task_id, cause: FailureCause::Cancelled },
            )
        }),
    decreases events.len(),
{
    if events.len() > 0 {
        lemma_cancelled_never_completes(task_id, workload, events.drop_last());
    }
}

/// Whatever is reported of a task that has not started, a record it settles
/// with is its own, is consistent, and lasts at least the workload; a
/// failure it settles with is its own.
pub proof fn lemma_completed_lasts_workload(task_id: usize, workload: u64, events: Seq<TaskEvent>)
    ensures
        (TaskUnit {
            task_id,
            workload,
            state: state_after(task_id, workload, TaskState::Pending, events),
        }).wf(),
    decreases events.len(),
{
    if events.len() > 0 {
        lemma_completed_lasts_workload(task_id, workload, events.drop_last());
    }
}

} // verus!

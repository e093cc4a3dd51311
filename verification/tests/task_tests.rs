use task_bench::task::perform_task;
use task_bench::task::FailureCause;
use task_bench::task::Outcome;
use task_bench::task::TaskAction;
use task_bench::task::TaskEvent;
use task_bench::task::TaskFailure;
use task_bench::task::TaskRecord;
use task_bench::task::TaskState;
use task_bench::task::TaskUnit;

#[test]
fn perform_task_gives_the_measured_record() {
    let result = perform_task(3, 10, 100, 1000, 110, 900);
    assert_eq!(
        result,
        Ok(TaskRecord { task_id: 3, start_time: 100, end_time: 110, duration: 10, memory_delta: -100 })
    );
}

#[test]
fn perform_task_memory_delta_may_be_positive() {
    let result = perform_task(0, 10, 5, 0, 40, 4096);
    assert_eq!(
        result,
        Ok(TaskRecord { task_id: 0, start_time: 5, end_time: 40, duration: 35, memory_delta: 4096 })
    );
}

#[test]
fn perform_task_memory_delta_spans_the_whole_range() {
    let down = perform_task(1, 0, 0, usize::MAX, 0, 0).unwrap();
    assert_eq!(down.memory_delta, -(usize::MAX as i128));
    let up = perform_task(1, 0, 0, 0, 0, usize::MAX).unwrap();
    assert_eq!(up.memory_delta, usize::MAX as i128);
}

#[test]
fn perform_task_fails_when_resumed_early() {
    let result = perform_task(4, 10, 100, 0, 109, 0);
    assert_eq!(result, Err(TaskFailure { task_id: 4, cause: FailureCause::ExecutionFault }));
}

#[test]
fn perform_task_fails_when_time_runs_backwards() {
    let result = perform_task(4, 0, 100, 0, 99, 0);
    assert_eq!(result, Err(TaskFailure { task_id: 4, cause: FailureCause::ExecutionFault }));
}

#[test]
fn completed_duration_is_at_least_the_workload() {
    let workload: u64 = 10;
    let ends: Vec<u64> = vec![0, 9, 10, 11, 1000];
    for end in ends.iter() {
        match perform_task(0, workload, 0, 0, *end, 0) {
            Ok(record) => {
                assert!(record.duration >= workload);
                assert_eq!(record.duration, record.end_time - record.start_time);
            }
            Err(failure) => {
                assert!(*end < workload);
                assert_eq!(failure.task_id, 0);
            }
        }
    }
}

#[test]
fn unit_runs_from_pending_to_completed() {
    let mut unit = TaskUnit::new(7, 10);
    assert_eq!(unit.state, TaskState::Pending);
    assert_eq!(unit.outcome(), None);
    let action = unit.step(TaskEvent::Started { now: 50, mem: 200 });
    assert_eq!(action, TaskAction::Suspend(10));
    assert_eq!(unit.state, TaskState::Running { start_time: 50, start_mem: 200 });
    assert_eq!(unit.outcome(), None);
    let action = unit.step(TaskEvent::Resumed { now: 61, mem: 260 });
    let record = TaskRecord { task_id: 7, start_time: 50, end_time: 61, duration: 11, memory_delta: 60 };
    assert_eq!(action, TaskAction::Settle(Outcome::Completed(record)));
    assert_eq!(unit.state, TaskState::Completed(record));
    assert_eq!(unit.outcome(), Some(Outcome::Completed(record)));
    assert_eq!(unit.task_id, 7);
    assert_eq!(unit.workload, 10);
}

#[test]
fn cancelled_unit_fails_and_never_completes() {
    let mut unit = TaskUnit::new(2, 10);
    unit.step(TaskEvent::Started { now: 0, mem: 0 });
    assert_eq!(unit.step(TaskEvent::CancelRequested), TaskAction::Release);
    assert_eq!(unit.state, TaskState::Cancelled);
    let failed = Outcome::Failed(TaskFailure { task_id: 2, cause: FailureCause::Cancelled });
    assert_eq!(unit.step(TaskEvent::Resumed { now: 100, mem: 0 }), TaskAction::Settle(failed));
    assert_eq!(unit.outcome(), Some(failed));
    assert_eq!(unit.step(TaskEvent::Resumed { now: 200, mem: 0 }), TaskAction::Ignore);
    assert_eq!(unit.outcome(), Some(failed));
}

#[test]
fn cancelled_unit_fails_after_teardown() {
    let mut unit = TaskUnit::new(2, 10);
    unit.step(TaskEvent::Started { now: 0, mem: 0 });
    unit.step(TaskEvent::CancelRequested);
    assert_eq!(unit.step(TaskEvent::CancelRequested), TaskAction::Ignore);
    assert_eq!(unit.state, TaskState::Cancelled);
    let failed = Outcome::Failed(TaskFailure { task_id: 2, cause: FailureCause::Cancelled });
    assert_eq!(unit.step(TaskEvent::TornDown), TaskAction::Settle(failed));
}

#[test]
fn refused_unit_fails_with_scheduler_exhaustion() {
    let mut unit = TaskUnit::new(9, 10);
    let failed = Outcome::Failed(TaskFailure { task_id: 9, cause: FailureCause::SchedulerExhaustion });
    assert_eq!(unit.step(TaskEvent::Refused), TaskAction::Settle(failed));
    assert_eq!(unit.outcome(), Some(failed));
}

#[test]
fn faulted_unit_fails_with_execution_fault() {
    let mut unit = TaskUnit::new(1, 10);
    unit.step(TaskEvent::Started { now: 0, mem: 0 });
    let failed = Outcome::Failed(TaskFailure { task_id: 1, cause: FailureCause::ExecutionFault });
    assert_eq!(unit.step(TaskEvent::Faulted), TaskAction::Settle(failed));
}

#[test]
fn events_that_do_not_apply_change_nothing() {
    let mut unit = TaskUnit::new(1, 10);
    assert_eq!(unit.step(TaskEvent::Resumed { now: 100, mem: 0 }), TaskAction::Ignore);
    assert_eq!(unit.step(TaskEvent::CancelRequested), TaskAction::Ignore);
    assert_eq!(unit.step(TaskEvent::TornDown), TaskAction::Ignore);
    assert_eq!(unit.step(TaskEvent::Faulted), TaskAction::Ignore);
    assert_eq!(unit.state, TaskState::Pending);
    unit.step(TaskEvent::Started { now: 3, mem: 4 });
    assert_eq!(unit.step(TaskEvent::Started { now: 5, mem: 6 }), TaskAction::Ignore);
    assert_eq!(unit.step(TaskEvent::Refused), TaskAction::Ignore);
    assert_eq!(unit.step(TaskEvent::TornDown), TaskAction::Ignore);
    assert_eq!(unit.state, TaskState::Running { start_time: 3, start_mem: 4 });
}

#[test]
fn settled_unit_ignores_every_event() {
    let mut unit = TaskUnit::new(0, 1);
    unit.step(TaskEvent::Started { now: 0, mem: 0 });
    unit.step(TaskEvent::Resumed { now: 1, mem: 0 });
    let settled = unit.state;
    let events = vec![
        TaskEvent::Started { now: 9, mem: 9 },
        TaskEvent::Resumed { now: 9, mem: 9 },
        TaskEvent::CancelRequested,
        TaskEvent::TornDown,
        TaskEvent::Faulted,
        TaskEvent::Refused,
    ];
    for event in events {
        assert_eq!(unit.step(event), TaskAction::Ignore);
        assert_eq!(unit.state, settled);
    }
}

#[test]
fn outcome_names_its_task() {
    let record = TaskRecord { task_id: 12, start_time: 0, end_time: 1, duration: 1, memory_delta: 0 };
    assert_eq!(Outcome::Completed(record).task_id(), 12);
    let failure = TaskFailure { task_id: 13, cause: FailureCause::Cancelled };
    assert_eq!(Outcome::Failed(failure).task_id(), 13);
}

#[test]
fn failure_causes_have_labels() {
    assert_eq!(FailureCause::Cancelled.label(), "cancelled");
    assert_eq!(FailureCause::ExecutionFault.label(), "execution fault");
    assert_eq!(FailureCause::SchedulerExhaustion.label(), "scheduler exhausted");
}

use task_bench::report::summarize;
use task_bench::report::RunSummary;
use task_bench::task::FailureCause;
use task_bench::task::TaskFailure;
use task_bench::task::TaskRecord;

fn record(task_id: usize, duration: u64) -> TaskRecord {
    TaskRecord { task_id, start_time: 0, end_time: duration, duration, memory_delta: 0 }
}

fn failure(task_id: usize) -> TaskFailure {
    TaskFailure { task_id, cause: FailureCause::ExecutionFault }
}

#[test]
fn summarize_of_nothing_has_no_statistics() {
    let summary = summarize(&Vec::new(), &Vec::new());
    assert_eq!(
        summary,
        RunSummary { completed: 0, failed: 0, min_duration: None, max_duration: None, mean_duration: None }
    );
}

#[test]
fn summarize_takes_min_max_and_mean() {
    let records = vec![record(0, 20), record(1, 10), record(2, 31)];
    let summary = summarize(&records, &Vec::new());
    assert_eq!(
        summary,
        RunSummary {
            completed: 3,
            failed: 0,
            min_duration: Some(10),
            max_duration: Some(31),
            mean_duration: Some(20),
        }
    );
}

#[test]
fn summarize_of_one_record() {
    let summary = summarize(&vec![record(0, 42)], &Vec::new());
    assert_eq!(summary.completed, 1);
    assert_eq!(summary.min_duration, Some(42));
    assert_eq!(summary.max_duration, Some(42));
    assert_eq!(summary.mean_duration, Some(42));
}

#[test]
fn failures_are_counted_but_not_timed() {
    let records = vec![record(0, 10), record(2, 30)];
    let failures = vec![failure(1), failure(3), failure(4)];
    let summary = summarize(&records, &failures);
    assert_eq!(
        summary,
        RunSummary {
            completed: 2,
            failed: 3,
            min_duration: Some(10),
            max_duration: Some(30),
            mean_duration: Some(20),
        }
    );
}

#[test]
fn only_failures_leave_statistics_absent() {
    let failures = vec![failure(0), failure(1)];
    let summary = summarize(&Vec::new(), &failures);
    assert_eq!(
        summary,
        RunSummary { completed: 0, failed: 2, min_duration: None, max_duration: None, mean_duration: None }
    );
}

#[test]
fn summary_does_not_depend_on_order() {
    let forward = vec![record(0, 5), record(1, 100), record(2, 17), record(3, 17)];
    let backward = vec![record(3, 17), record(2, 17), record(1, 100), record(0, 5)];
    let mixed = vec![record(2, 17), record(0, 5), record(3, 17), record(1, 100)];
    let first = summarize(&forward, &vec![failure(4)]);
    assert_eq!(first, summarize(&backward, &vec![failure(4)]));
    assert_eq!(first, summarize(&mixed, &vec![failure(4)]));
    assert_eq!(first.mean_duration, Some(34));
}

#[test]
fn mean_of_the_largest_durations_does_not_overflow() {
    let records = vec![record(0, u64::MAX), record(1, u64::MAX), record(2, u64::MAX - 3)];
    let summary = summarize(&records, &Vec::new());
    assert_eq!(summary.min_duration, Some(u64::MAX - 3));
    assert_eq!(summary.max_duration, Some(u64::MAX));
    assert_eq!(summary.mean_duration, Some(u64::MAX - 1));
}

#[test]
fn mean_is_rounded_down() {
    let summary = summarize(&vec![record(0, 1), record(1, 2)], &Vec::new());
    assert_eq!(summary.mean_duration, Some(1));
}

//! The report aggregator: from the records of the completed tasks and the
//! failures of the others to one summary.

use vstd::prelude::*;
use vstd::seq_lib::to_multiset_build;
use vstd::seq_lib::to_multiset_contains;
use vstd::seq_lib::to_multiset_len;
use vstd::seq_lib::to_multiset_remove;
use crate::task::Outcome;
use crate::task::TaskFailure;
use crate::task::TaskRecord;

verus! {

/// The aggregate of one run. The duration statistics are over the completed
/// tasks only, and absent where none completed.
#[derive(Clone, Copy, Debug, PartialEq, Eq, Structural)]
pub struct RunSummary {
    /// How many tasks completed.
    pub completed: usize,
    /// How many tasks failed.
    pub failed: usize,
    /// The shortest duration of a completed task.
    pub min_duration: Option<u64>,
    /// The longest duration of a completed task.
    pub max_duration: Option<u64>,
    /// The mean duration of the completed tasks, rounded down.
    pub mean_duration: Option<u64>,
}

/// The sum of the durations of `records`.
pub open spec fn total_duration(records: Seq<TaskRecord>) -> nat
    decreases records.len(),
{
    if records.len() == 0 {
        0
    } else {
        total_duration(records.drop_last()) + records.last().duration as nat
    }
}

/// The shortest duration among `records`; of no records, the largest value.
pub open spec fn shortest_duration(records: Seq<TaskRecord>) -> u64
    decreases records.len(),
{
    if records.len() == 0 {
        u64::MAX
    } else {
        let rest = shortest_duration(records.drop_last());
        if records.last().duration < rest {
            records.last().duration
        } else {
            rest
        }
    }
}

/// The longest duration among `records`; of no records, zero.
pub open spec fn longest_duration(records: Seq<TaskRecord>) -> u64
    decreases records.len(),
{
    if records.len() == 0 {
        0
    } else {
        let rest = longest_duration(records.drop_last());
        if records.last().duration > rest {
            records.last().duration
        } else {
            rest
        }
    }
}

/// The summary of a run in which the tasks of `records` completed and
/// `failed` tasks failed.
pub open spec fn summary_of(records: Seq<TaskRecord>, failed: nat) -> RunSummary {
    if records.len() == 0 {
        RunSummary {
            completed: 0,
            failed: failed as usize,
            min_duration: None,
            max_duration: None,
            mean_duration: None,
        }
    } else {
        RunSummary {
            completed: records.len() as usize,
            failed: failed as usize,
            min_duration: Some(shortest_duration(records)),
            max_duration: Some(longest_duration(records)),
            mean_duration: Some((total_duration(records) / records.len()) as u64),
        }
    }
}

/// The records among `outcomes`, in their order.
pub open spec fn records_of(outcomes: Seq<Outcome>) -> Seq<TaskRecord>
    decreases outcomes.len(),
{
    if outcomes.len() == 0 {
        Seq::empty()
    } else {
        let rest = records_of(outcomes.drop_last());
        match outcomes.last() {
            Outcome::Completed(record) => rest.push(record),
            Outcome::Failed(_) => rest,
        }
    }
}

/// The failures among `outcomes`, in their order.
pub open spec fn failures_of(outcomes: Seq<Outcome>) -> Seq<TaskFailure>
    decreases outcomes.len(),
{
    if outcomes.len() == 0 {
        Seq::empty()
    } else {
        let rest = failures_of(outcomes.drop_last());
        match outcomes.last() {
            Outcome::Completed(_) => rest,
            Outcome::Failed(failure) => rest.push(failure),
        }
    }
}

/// The summary of a run whose tasks settled with `outcomes`.
pub open spec fn summary_of_outcomes(outcomes: Seq<Outcome>) -> RunSummary {
    summary_of(records_of(outcomes), failures_of(outcomes).len())
}

/// A completed task's record is consistent and lasts at least `workload`;
/// of a failed task nothing is asked.
pub open spec fn lasts_workload(outcome: Outcome, workload: u64) -> bool {
    match outcome {
        Outcome::Completed(record) => record.is_consistent() && record.duration >= workload,
        Outcome::Failed(_) => true,
    }
}

/// Each duration statistic of `summary` that is present is at least `bound`.
pub open spec fn statistics_at_least(summary: RunSummary, bound: u64) -> bool {
    &&& summary.min_duration is Some ==> summary.min_duration->Some_0 >= bound
    &&& summary.max_duration is Some ==> summary.max_duration->Some_0 >= bound
    &&& summary.mean_duration is Some ==> summary.mean_duration->Some_0 >= bound
}

/// Summarises a run: counts the completed and the failed tasks, and takes
/// the shortest, longest and mean duration over the completed ones. With no
/// completed task the three are absent.
pub fn summarize(records: &Vec<TaskRecord>, failures: &Vec<TaskFailure>) -> (summary: RunSummary)
    ensures
        summary == summary_of(records@, failures@.len()),
        summary.completed == records@.len(),
        summary.failed == failures@.len(),
        records@.len() == 0 <==> summary.min_duration is None,
        records@.len() == 0 <==> summary.max_duration is None,
        records@.len() == 0 <==> summary.mean_duration is None,
{
    let count: usize = records.len();
    if count == 0 {
        return RunSummary {
            completed: 0,
            failed: failures.len(),
            min_duration: None,
            max_duration: None,
            mean_duration: None,
        };
    }
    let mut shortest: u64 = u64::MAX;
    let mut longest: u64 = 0;
    let mut total: u128 = 0;
    let mut i: usize = 0;
    while i < count
        invariant
            i <= count,
            count == records@.len(),
            shortest == shortest_duration(records@.take(i as int)),
            longest == longest_duration(records@.take(i as int)),
            total == total_duration(records@.take(i as int)),
            total <= i * u64::MAX,
        decreases count - i,
    {
        let duration: u64 = records[i].duration;
        proof {
            let next = records@.take(i + 1);
            assert(next.drop_last() =~= records@.take(i as int));
            assert(next.last() == records@[i as int]);
            assert((i + 1) * u64::MAX == i * u64::MAX + u64::MAX) by (nonlinear_arith);
            assert((i + 1) * u64::MAX <= u128::MAX) by (nonlinear_arith)
                requires
                    i + 1 <= u64::MAX,
            ;
        }
        if duration < shortest {
            shortest = duration;
        }
        if duration > longest {
            longest = duration;
        }
        total = total + duration as u128;
        i = i + 1;
    }
    proof {
        assert(records@.take(i as int) =~= records@);
        lemma_mean_between_extremes(records@);
    }
    let mean: u128 = total / (count as u128);
    RunSummary {
        completed: count,
        failed: failures.len(),
        min_duration: Some(shortest),
        max_duration: Some(longest),
        mean_duration: Some(mean as u64),
    }
}

/// Summarises a run from the outcomes of its tasks, in whatever order they
/// settled: each outcome is counted once, as completed or as failed, and
/// the duration statistics are over the completed ones.
pub fn summarize_outcomes(outcomes: &Vec<Outcome>) -> (summary: RunSummary)
    ensures
        summary == summary_of_outcomes(outcomes@),
        summary.completed == records_of(outcomes@).len(),
        summary.failed == failures_of(outcomes@).len(),
        summary.completed + summary.failed == outcomes@.len(),
{
    let mut records: Vec<TaskRecord> = Vec::new();
    let mut failures: Vec<TaskFailure> = Vec::new();
    let mut i: usize = 0;
    while i < outcomes.len()
        invariant
            i <= outcomes.len(),
            records@ == records_of(outcomes@.take(i as int)),
            failures@ == failures_of(outcomes@.take(i as int)),
        decreases outcomes.len() - i,
    {
        proof {
            let next = outcomes@.take(i + 1);
            assert(next.drop_last() =~= outcomes@.take(i as int));
            assert(next.last() == outcomes@[i as int]);
        }
        match outcomes[i] {
            Outcome::Completed(record) => {
                records.push(record);
            },
            Outcome::Failed(failure) => {
                failures.push(failure);
            },
        }
        i = i + 1;
    }
    proof {
        assert(outcomes@.take(i as int) =~= outcomes@);
        lemma_outcomes_partition(outcomes@);
    }
    summarize(&records, &failures)
}

/// The shortest and the longest duration are durations of records, and no
/// record is shorter than the one or longer than the other.
pub proof fn lemma_duration_extremes(records: Seq<TaskRecord>)
    requires
        records.len() > 0,
    ensures
        exists|i: int| 0 <= i < records.len() && #[trigger] records[i].duration == shortest_duration(records),
        exists|i: int| 0 <= i < records.len() && #[trigger] records[i].duration == longest_duration(records),
        forall|i: int| 0 <= i < records.len() ==> shortest_duration(records) <= #[trigger] records[i].duration,
        forall|i: int| 0 <= i < records.len() ==> #[trigger] records[i].duration <= longest_duration(records),
    decreases records.len(),
{
    let rest = records.drop_last();
    let last = records.len() - 1;
    if rest.len() == 0 {
        assert(records[last].duration == shortest_duration(records));
        assert(records[last].duration == longest_duration(records));
    } else {
        lemma_duration_extremes(rest);
        let i = choose|i: int| 0 <= i < rest.len() && #[trigger] rest[i].duration == shortest_duration(rest);
        let j = choose|j: int| 0 <= j < rest.len() && #[trigger] rest[j].duration == longest_duration(rest);
        assert(records[i] == rest[i] && records[j] == rest[j]);
        if records.last().duration < shortest_duration(rest) {
            assert(records[last].duration == shortest_duration(records));
        } else {
            assert(records[i].duration == shortest_duration(records));
        }
        if records.last().duration > longest_duration(rest) {
            assert(records[last].duration == longest_duration(records));
        } else {
            assert(records[j].duration == longest_duration(records));
        }
        assert forall|k: int| 0 <= k < records.len() implies shortest_duration(records)
            <= #[trigger] records[k].duration && records[k].duration <= longest_duration(records) by {
            if k < last {
                assert(records[k] == rest[k]);
            }
        }
    }
}

/// The sum of the durations lies between the shortest and the longest,
/// each taken once for every record.
pub proof fn lemma_total_duration_bounds(records: Seq<TaskRecord>)
    ensures
        records.len() > 0 ==> records.len() * shortest_duration(records) <= total_duration(records),
        total_duration(records) <= records.len() * longest_duration(records),
    decreases records.len(),
{
    if records.len() > 0 {
        let rest = records.drop_last();
        let n = rest.len() as int;
        lemma_total_duration_bounds(rest);
        let lo = shortest_duration(records) as int;
        let hi = longest_duration(records) as int;
        let rest_hi = longest_duration(rest) as int;
        assert(n * rest_hi <= n * hi) by (nonlinear_arith)
            requires
                0 <= n,
                rest_hi <= hi,
        ;
        assert((n + 1) * hi == n * hi + hi) by (nonlinear_arith);
        assert((n + 1) * lo == n * lo + lo) by (nonlinear_arith);
        if n > 0 {
            let rest_lo = shortest_duration(rest) as int;
            assert(n * lo <= n * rest_lo) by (nonlinear_arith)
                requires
                    0 <= n,
                    lo <= rest_lo,
            ;
        } else {
            assert(n * lo == 0) by (nonlinear_arith)
                requires
                    n == 0,
            ;
        }
    }
}

/// The mean duration lies between the shortest and the longest duration.
pub proof fn lemma_mean_between_extremes(records: Seq<TaskRecord>)
    requires
        records.len() > 0,
    ensures
        shortest_duration(records) <= total_duration(records) / records.len() <= longest_duration(records),
{
    lemma_total_duration_bounds(records);
    let n = records.len() as int;
    let total = total_duration(records) as int;
    let lo = shortest_duration(records) as int;
    let hi = longest_duration(records) as int;
    assert(lo <= total / n <= hi) by (nonlinear_arith)
        requires
            n > 0,
            n * lo <= total,
            total <= n * hi,
    ;
}

/// Taking one record out takes its duration from the sum.
pub proof fn lemma_total_duration_remove(records: Seq<TaskRecord>, at: int)
    requires
        0 <= at < records.len(),
    ensures
        total_duration(records) == total_duration(records.remove(at)) + records[at].duration,
    decreases records.len(),
{
    if at == records.len() - 1 {
        assert(records.remove(at) =~= records.drop_last());
    } else {
        lemma_total_duration_remove(records.drop_last(), at);
        assert(records.remove(at).drop_last() =~= records.drop_last().remove(at));
        assert(records.remove(at).last() == records.last());
    }
}

/// Two lists of the same records, in whatever order, have the same sum of
/// durations.
pub proof fn lemma_total_duration_of_permutation(first: Seq<TaskRecord>, second: Seq<TaskRecord>)
    requires
        first.to_multiset() == second.to_multiset(),
    ensures
        total_duration(first) == total_duration(second),
    decreases first.len(),
{
    to_multiset_len(first);
    to_multiset_len(second);
    if first.len() > 0 {
        let last = first.len() - 1;
        let record = first[last];
        assert(first.contains(record));
        to_multiset_contains(first, record);
        to_multiset_contains(second, record);
        let at = choose|at: int| 0 <= at < second.len() && second[at] == record;
        to_multiset_remove(first, last);
        to_multiset_remove(second, at);
        assert(first.remove(last) =~= first.drop_last());
        lemma_total_duration_of_permutation(first.drop_last(), second.remove(at));
        lemma_total_duration_remove(second, at);
    }
}

/// The shortest duration of a list of records is no shorter than that of a
/// list that holds each of its records, and its longest is no longer.
proof fn lemma_extremes_within(inner: Seq<TaskRecord>, outer: Seq<TaskRecord>)
    requires
        inner.len() > 0,
        forall|i: int| 0 <= i < inner.len() ==> outer.contains(#[trigger] inner[i]),
    ensures
        shortest_duration(outer) <= shortest_duration(inner),
        longest_duration(inner) <= longest_duration(outer),
{
    lemma_duration_extremes(inner);
    let i = choose|i: int| 0 <= i < inner.len() && #[trigger] inner[i].duration == shortest_duration(inner);
    let j = choose|j: int| 0 <= j < inner.len() && #[trigger] inner[j].duration == longest_duration(inner);
    assert(outer.contains(inner[i]));
    assert(outer.contains(inner[j]));
    let k = choose|k: int| 0 <= k < outer.len() && outer[k] == inner[i];
    let l = choose|l: int| 0 <= l < outer.len() && outer[l] == inner[j];
    lemma_duration_extremes(outer);
    assert(shortest_duration(outer) <= outer[k].duration);
    assert(outer[l].duration <= longest_duration(outer));
}

/// The summary does not depend on the order in which the tasks settled: two
/// lists of the same records, in whatever order, have the same summary.
pub proof fn lemma_summary_ignores_order(first: Seq<TaskRecord>, second: Seq<TaskRecord>, failed: nat)
    requires
        first.to_multiset() == second.to_multiset(),
    ensures
        summary_of(first, failed) == summary_of(second, failed),
{
    to_multiset_len(first);
    to_multiset_len(second);
    lemma_total_duration_of_permutation(first, second);
    if first.len() > 0 {
        assert forall|i: int| 0 <= i < first.len() implies second.contains(#[trigger] first[i]) by {
            assert(first.contains(first[i]));
            to_multiset_contains(first, first[i]);
            to_multiset_contains(second, first[i]);
        }
        assert forall|i: int| 0 <= i < second.len() implies first.contains(#[trigger] second[i]) by {
            assert(second.contains(second[i]));
            to_multiset_contains(first, second[i]);
            to_multiset_contains(second, second[i]);
        }
        lemma_extremes_within(first, second);
        lemma_extremes_within(second, first);
    }
}

/// Every outcome is a record or a failure: the two lists together are as
/// long as the list of outcomes.
pub proof fn lemma_outcomes_partition(outcomes: Seq<Outcome>)
    ensures
        records_of(outcomes).len() + failures_of(outcomes).len() == outcomes.len(),
    decreases outcomes.len(),
{
    if outcomes.len() > 0 {
        lemma_outcomes_partition(outcomes.drop_last());
    }
}

/// Where every completed task among `outcomes` lasted at least `workload`,
/// so did every record taken from them.
pub proof fn lemma_records_last_workload(outcomes: Seq<Outcome>, workload: u64)
    requires
        forall|i: int| 0 <= i < outcomes.len() ==> lasts_workload(#[trigger] outcomes[i], workload),
    ensures
        forall|j: int|
            0 <= j < records_of(outcomes).len() ==> (#[trigger] records_of(outcomes)[j]).duration >= workload,
    decreases outcomes.len(),
{
    if outcomes.len() > 0 {
        let rest = outcomes.drop_last();
        assert forall|i: int| 0 <= i < rest.len() implies lasts_workload(#[trigger] rest[i], workload) by {
            assert(rest[i] == outcomes[i]);
        }
        lemma_records_last_workload(rest, workload);
        assert(lasts_workload(outcomes[outcomes.len() - 1], workload));
        let records = records_of(outcomes);
        let earlier = records_of(rest);
        assert forall|j: int| 0 <= j < records.len() implies (#[trigger] records[j]).duration >= workload by {
            if j < earlier.len() {
                assert(records[j] == earlier[j]);
            }
        }
    }
}

/// Where every completed task lasted at least `workload`, the shortest, the
/// longest and the mean duration of the summary, where present, are each at
/// least `workload`.
pub proof fn lemma_summary_lasts_workload(outcomes: Seq<Outcome>, workload: u64)
    requires
        forall|i: int| 0 <= i < outcomes.len() ==> lasts_workload(#[trigger] outcomes[i], workload),
    ensures
        statistics_at_least(summary_of_outcomes(outcomes), workload),
{
    let records = records_of(outcomes);
    lemma_records_last_workload(outcomes, workload);
    if records.len() > 0 {
        lemma_duration_extremes(records);
        lemma_mean_between_extremes(records);
        let i = choose|i: int| 0 <= i < records.len() && #[trigger] records[i].duration == shortest_duration(records);
        assert(records[i].duration >= workload);
        assert(total_duration(records) / records.len() <= u64::MAX);
    }
}

/// Where exactly one task failed and every other task completed, the
/// summary counts one failed task and all the others as completed.
pub proof fn lemma_one_failure_is_isolated(outcomes: Seq<Outcome>, failed_at: int)
    requires
        outcomes.len() <= usize::MAX,
        0 <= failed_at < outcomes.len(),
        outcomes[failed_at] is Failed,
        forall|i: int| 0 <= i < outcomes.len() && i != failed_at ==> #[trigger] outcomes[i] is Completed,
    ensures
        summary_of_outcomes(outcomes).failed == 1,
        summary_of_outcomes(outcomes).completed == outcomes.len() - 1,
{
    lemma_failure_count(outcomes, failed_at);
    lemma_outcomes_partition(outcomes);
}

/// With no failed task among them, outcomes hold no failure; with exactly
/// one, at `failed_at`, they hold one.
proof fn lemma_failure_count(outcomes: Seq<Outcome>, failed_at: int)
    requires
        forall|i: int| 0 <= i < outcomes.len() && i != failed_at ==> #[trigger] outcomes[i] is Completed,
        0 <= failed_at < outcomes.len() ==> outcomes[failed_at] is Failed,
    ensures
        failures_of(outcomes).len() == if 0 <= failed_at < outcomes.len() {
            1nat
        } else {
            0nat
        },
    decreases outcomes.len(),
{
    if outcomes.len() > 0 {
        let rest = outcomes.drop_last();
        assert forall|i: int| 0 <= i < rest.len() && i != failed_at implies #[trigger] rest[i] is Completed by {
            assert(rest[i] == outcomes[i]);
        }
        if 0 <= failed_at < rest.len() {
            assert(rest[failed_at] == outcomes[failed_at]);
        }
        lemma_failure_count(rest, failed_at);
    }
}

/// Taking one outcome out takes its record, if it has one, from the records
/// and its failure, if it has one, from the failures.
proof fn lemma_outcome_removed(outcomes: Seq<Outcome>, at: int)
    requires
        0 <= at < outcomes.len(),
    ensures
        records_of(outcomes).to_multiset() == match outcomes[at] {
            Outcome::Completed(record) => records_of(outcomes.remove(at)).to_multiset().insert(record),
            Outcome::Failed(_) => records_of(outcomes.remove(at)).to_multiset(),
        },
        failures_of(outcomes).len() == failures_of(outcomes.remove(at)).len() + if outcomes[at] is Failed {
            1nat
        } else {
            0nat
        },
    decreases outcomes.len(),
{
    let rest = outcomes.drop_last();
    if at == outcomes.len() - 1 {
        assert(outcomes.remove(at) =~= rest);
        if let Outcome::Completed(record) = outcomes[at] {
            to_multiset_build(records_of(rest), record);
        }
    } else {
        lemma_outcome_removed(rest, at);
        assert(outcomes.remove(at).drop_last() =~= rest.remove(at));
        assert(outcomes.remove(at).last() == outcomes.last());
        if let Outcome::Completed(last) = outcomes.last() {
            to_multiset_build(records_of(rest), last);
            to_multiset_build(records_of(rest.remove(at)), last);
            let fewer = records_of(rest.remove(at)).to_multiset();
            if let Outcome::Completed(record) = outcomes[at] {
                assert(fewer.insert(record).insert(last) =~= fewer.insert(last).insert(record));
            }
        }
    }
}

/// Two lists of the same outcomes, in whatever order, hold the same records
/// and as many failures.
pub proof fn lemma_outcomes_of_permutation(first: Seq<Outcome>, second: Seq<Outcome>)
    requires
        first.to_multiset() == second.to_multiset(),
    ensures
        records_of(first).to_multiset() == records_of(second).to_multiset(),
        failures_of(first).len() == failures_of(second).len(),
    decreases first.len(),
{
    to_multiset_len(first);
    to_multiset_len(second);
    if first.len() > 0 {
        let last = first.len() - 1;
        let outcome = first[last];
        assert(first.contains(outcome));
        to_multiset_contains(first, outcome);
        to_multiset_contains(second, outcome);
        let at = choose|at: int| 0 <= at < second.len() && second[at] == outcome;
        to_multiset_remove(first, last);
        to_multiset_remove(second, at);
        lemma_outcomes_of_permutation(first.remove(last), second.remove(at));
        lemma_outcome_removed(first, last);
        lemma_outcome_removed(second, at);
    }
}

/// The summary of a run does not depend on the order in which its tasks
/// settled: two lists of the same outcomes have the same summary.
pub proof fn lemma_outcome_summary_ignores_order(first: Seq<Outcome>, second: Seq<Outcome>)
    requires
        first.to_multiset() == second.to_multiset(),
    ensures
        summary_of_outcomes(first) == summary_of_outcomes(second),
{
    lemma_outcomes_of_permutation(first, second);
    lemma_summary_ignores_order(records_of(first), records_of(second), failures_of(first).len());
}

} // verus!

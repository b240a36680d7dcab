//! What a worker does with its tasks.

use crate::error::ErrorView;
use crate::protocol::{TaskAttemptView, TaskLeaseView};
use crate::worker::{attempts_of, without_attempt, CancelledView, TaskOutputView, WorkerView};
use vstd::prelude::*;

verus! {

/// A worker takes a task whose lease is its own while it has a slot free, and refuses every other.
pub proof fn which_tasks_are_taken(state: WorkerView, lease: TaskLeaseView)
    ensures
        state.assignment_check(lease) is Ok <==> lease.worker_id == state.worker_id
            && state.active.len() < state.slots,
{
}

/// A task that is taken is worked on, beside all others.
pub proof fn a_task_that_is_taken(state: WorkerView, task: TaskAttemptView, other: TaskAttemptView)
    requires
        state.running < u64::MAX,
    ensures
        state.with_attempt(task).active.contains(task),
        other != task ==> (state.with_attempt(task).active.contains(other)
            <==> state.active.contains(other)),
        state.with_attempt(task).running == state.running + 1,
        state.with_attempt(task).cancelled_queries == state.cancelled_queries,
{
    let next = state.with_attempt(task);
    if !state.active.contains(task) {
        assert(next.active[state.active.len() as int] == task);
        if state.active.contains(other) {
            let i = choose|i: int| 0 <= i < state.active.len() && state.active[i] == other;
            assert(next.active[i] == other);
        }
        if next.active.contains(other) && other != task {
            let i = choose|i: int| 0 <= i < next.active.len() && next.active[i] == other;
            assert(state.active[i] == other);
        }
    }
}

/// The reason for which a query was cancelled is the one that was given last, and a query of which
/// nobody spoke was not cancelled.
pub proof fn the_last_reason_counts(
    state: WorkerView,
    query: Seq<char>,
    reason: Seq<char>,
    other: Seq<char>,
)
    ensures
        state.with_cancelled(query, reason).cancellation(query) == Some(reason),
        other != query ==> state.with_cancelled(query, reason).cancellation(other)
            == state.cancellation(other),
        state.cancelled_queries.len() == 0 ==> state.cancellation(other) is None,
        state.with_cancelled(query, reason).active == state.active,
{
    let next = state.with_cancelled(query, reason);
    let count = state.cancelled_queries.len() as int;
    if other != query {
        cancellations_of_a_prefix(
            state.cancelled_queries,
            next.cancelled_queries,
            other,
            count,
        );
    }
}

proof fn cancellations_of_a_prefix(
    a: Seq<CancelledView>,
    b: Seq<CancelledView>,
    query: Seq<char>,
    upto: int,
)
    requires
        0 <= upto <= a.len(),
        upto <= b.len(),
        forall|i: int| 0 <= i < upto ==> a[i] == b[i],
    ensures
        crate::worker::cancellation_of(a, query, upto) == crate::worker::cancellation_of(
            b,
            query,
            upto,
        ),
    decreases upto,
{
    if upto > 0 {
        cancellations_of_a_prefix(a, b, query, upto - 1);
    }
}

/// The end of a task is reported as it was: cancelled with its query's reason where its query was
/// cancelled; else a success with its blocks; else a failure, which another attempt may mend where a
/// worker failed to read, write or reach something, or was shut down.
pub proof fn how_an_end_is_reported(
    state: WorkerView,
    task: TaskAttemptView,
    lease: TaskLeaseView,
    result: Result<TaskOutputView, ErrorView>,
)
    ensures
        ({
            let report = state.terminal_state(task, lease, result);
            match (state.cancellation(task.query_id), result) {
                (Some(reason), _) => report is Cancelled && report->Cancelled_reason == reason,
                (None, Ok(output)) => report is Succeeded && report->Succeeded_output_blocks
                    == output.blocks,
                (None, Err(error)) => if error is Cancelled && !state.stopping {
                    report is Cancelled
                } else {
                    report is Failed && (report->Failed_retryable <==> error is Io
                        || error is Parquet || error is Transport || error is Cancelled)
                },
            }
        }),
{
}

proof fn all_but_one_stay(
    attempts: Seq<TaskAttemptView>,
    task: TaskAttemptView,
    other: TaskAttemptView,
    upto: int,
)
    requires
        0 <= upto <= attempts.len(),
    ensures
        without_attempt(attempts, task, upto).contains(other) <==> other != task && attempts.take(
            upto,
        ).contains(other),
    decreases upto,
{
    let all = attempts.take(upto);
    let rest = without_attempt(attempts, task, upto);
    if upto > 0 {
        all_but_one_stay(attempts, task, other, upto - 1);
        let few = attempts.take(upto - 1);
        let before = without_attempt(attempts, task, upto - 1);
        let last = attempts[upto - 1];
        assert(all =~= few.push(last));
        if few.contains(other) {
            let i = choose|i: int| 0 <= i < few.len() && few[i] == other;
            assert(all[i] == other);
        }
        if all.contains(other) {
            let i = choose|i: int| 0 <= i < all.len() && all[i] == other;
            if i < few.len() {
                assert(few[i] == other);
            } else {
                assert(other == last);
            }
        }
        if last == other {
            assert(all[upto - 1] == other);
        }
        if last != task {
            assert(rest =~= before.push(last));
            assert(rest[before.len() as int] == last);
            if before.contains(other) {
                let i = choose|i: int| 0 <= i < before.len() && before[i] == other;
                assert(rest[i] == other);
            }
            if rest.contains(other) {
                let i = choose|i: int| 0 <= i < rest.len() && rest[i] == other;
                if i < before.len() {
                    assert(before[i] == other);
                } else {
                    assert(other == last);
                }
            }
        }
    }
}

/// A task that has ended is worked on no more, every other stays, and the end counts once: as a success
/// with its rows and bytes, as a failure, or as cancelled, as it is reported.
pub proof fn what_an_end_does(
    state: WorkerView,
    task: TaskAttemptView,
    lease: TaskLeaseView,
    result: Result<TaskOutputView, ErrorView>,
    other: TaskAttemptView,
)
    requires
        state.running > 0,
        state.completed_tasks < u64::MAX,
        state.failed_tasks < u64::MAX,
        state.cancelled_tasks < u64::MAX,
    ensures
        ({
            let next = state.ended(task, lease, result);
            let report = state.terminal_state(task, lease, result);
            &&& next.active.contains(other) <==> other != task && state.active.contains(other)
            &&& next.running == state.running - 1
            &&& next.completed_tasks == state.completed_tasks + (if report is Succeeded {
                1int
            } else {
                0
            })
            &&& next.failed_tasks == state.failed_tasks + (if report is Failed {
                1int
            } else {
                0
            })
            &&& next.cancelled_tasks == state.cancelled_tasks + (if report is Cancelled {
                1int
            } else {
                0
            })
            &&& report is Succeeded && state.output_rows + result->Ok_0.rows <= u64::MAX
                ==> next.output_rows == state.output_rows + result->Ok_0.rows
            &&& report is Succeeded && state.output_bytes + result->Ok_0.bytes <= u64::MAX
                ==> next.output_bytes == state.output_bytes + result->Ok_0.bytes
            &&& !(report is Succeeded) ==> next.output_rows == state.output_rows
                && next.output_bytes == state.output_bytes
            &&& next.cancelled_queries == state.cancelled_queries
            &&& next.stopping == state.stopping
        }),
{
    all_but_one_stay(state.active, task, other, state.active.len() as int);
    assert(state.active.take(state.active.len() as int) =~= state.active);
}

/// A worker has done what it was to do once as many tasks have ended as it was asked for.
pub proof fn when_a_worker_is_done(state: WorkerView)
    requires
        state.completed_tasks + state.failed_tasks + state.cancelled_tasks <= u64::MAX,
    ensures
        state.is_done() <==> state.max_terminal_tasks is Some && state.completed_tasks
            + state.failed_tasks + state.cancelled_tasks >= state.max_terminal_tasks->Some_0,
        state.is_over() <==> state.stopping && state.running == 0,
{
}

/// Cancelling a query interrupts the attempts of that query, and no others.
pub proof fn which_attempts_are_interrupted(
    attempts: Seq<TaskAttemptView>,
    query: Seq<char>,
    upto: int,
    task: TaskAttemptView,
)
    requires
        0 <= upto <= attempts.len(),
    ensures
        attempts_of(attempts, query, upto).contains(task) <==> task.query_id == query
            && attempts.take(upto).contains(task),
    decreases upto,
{
    let all = attempts.take(upto);
    let found = attempts_of(attempts, query, upto);
    if upto > 0 {
        which_attempts_are_interrupted(attempts, query, upto - 1, task);
        let few = attempts.take(upto - 1);
        let before = attempts_of(attempts, query, upto - 1);
        let last = attempts[upto - 1];
        assert(all =~= few.push(last));
        if few.contains(task) {
            let i = choose|i: int| 0 <= i < few.len() && few[i] == task;
            assert(all[i] == task);
        }
        if all.contains(task) {
            let i = choose|i: int| 0 <= i < all.len() && all[i] == task;
            if i < few.len() {
                assert(few[i] == task);
            } else {
                assert(task == last);
            }
        }
        if last == task {
            assert(all[upto - 1] == task);
        }
        if last.query_id == query {
            assert(found =~= before.push(last));
            assert(found[before.len() as int] == last);
            if before.contains(task) {
                let i = choose|i: int| 0 <= i < before.len() && before[i] == task;
                assert(found[i] == task);
            }
            if found.contains(task) {
                let i = choose|i: int| 0 <= i < found.len() && found[i] == task;
                if i < before.len() {
                    assert(before[i] == task);
                } else {
                    assert(task == last);
                }
            }
        }
    }
}

} // verus!

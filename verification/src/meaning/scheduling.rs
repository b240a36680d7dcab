//! What the coordinator does with workers and tasks.

use crate::coordinator::counting::{a_lease_counts, count_after_advance, count_after_update};
use crate::coordinator::laws::{
    heartbeat_keeps_validity, stage_index_is, time_keeps_validity, times_out_is_by_worker,
    worker_index_is,
};
use crate::coordinator::model::{
    count, leased, CoordinatorState, PartitionState, StageState, WorkerState,
};
use crate::error::ErrorView;
use crate::protocol::{
    CoordinatorMessageView, PartitionId, ShuffleBlockView, StageId, StagePlanView, TaskAttemptView,
    TaskStateView, WorkerHeartbeatView, WorkerMessageView, WorkerRegistrationView,
};
use vstd::prelude::*;

verus! {

// ---- workers

/// Whether a worker is there and taken for alive.
pub open spec fn is_alive(state: CoordinatorState, id: Seq<char>) -> bool {
    exists|i: int|
        0 <= i < state.workers.len() && (#[trigger] state.workers[i]).registration.worker_id == id
            && state.workers[i].alive
}

/// Whether a partition of a stage is being worked on by a worker whose lease runs beyond a time.
pub open spec fn is_held(partition: PartitionState, id: Seq<char>, now: u64) -> bool {
    partition matches PartitionState::Active { worker_id, lease, .. } && worker_id == id && now
        < lease.expires_at_ms
}

/// A worker that was heard of stays alive as long as its silence is no longer than the timeout, and
/// keeps every task with a lease that has not run out.
proof fn a_worker_heard_of_stays(state: CoordinatorState, w: int, heard: u64, now: u64)
    requires
        state.ordered(),
        0 <= w < state.workers.len(),
        state.workers[w].alive,
        state.workers[w].last_received_at_ms == heard,
        now - heard <= state.config.heartbeat_timeout_ms,
    ensures
        is_alive(state.advanced(now), state.workers[w].registration.worker_id),
        state.advanced(now).workers[w].alive,
        forall|s: int, p: int|
            0 <= s < state.stages.len() && 0 <= p < state.stages[s].partitions.len() && is_held(
                #[trigger] state.stages[s].partitions[p],
                state.workers[w].registration.worker_id,
                now,
            ) ==> state.advanced(now).stages[s].partitions[p] == state.stages[s].partitions[p],
{
    times_out_is_by_worker(state, w, now);
    let next = state.advanced(now);
    assert(next.workers[w].registration == state.workers[w].registration);
    assert(next.workers[w].alive);
}

/// A worker that was not heard of for longer than the timeout is given up, and every task that it held
/// is tried again, or fails where it was tried often enough.
proof fn a_silent_worker_goes(state: CoordinatorState, w: int, heard: u64, now: u64)
    requires
        state.ordered(),
        0 <= w < state.workers.len(),
        state.workers[w].alive,
        state.workers[w].last_received_at_ms == heard,
        now - heard > state.config.heartbeat_timeout_ms,
    ensures
        !state.advanced(now).workers[w].alive,
        state.advanced(now).workers[w].available_slots == 0,
        state.advanced(now).workers[w].registration == state.workers[w].registration,
        forall|s: int, p: int|
            0 <= s < state.stages.len() && 0 <= p < state.stages[s].partitions.len()
                && is_with(
                #[trigger] state.stages[s].partitions[p],
                state.workers[w].registration.worker_id,
            ) ==> goes_on_after(
                state.advanced(now).stages[s].partitions[p],
                state.stages[s].partitions[p]->Active_task.attempt,
                state.config.max_task_attempts,
            ),
{
    times_out_is_by_worker(state, w, now);
}

/// Whether a worker works on a partition.
pub open spec fn is_with(partition: PartitionState, id: Seq<char>) -> bool {
    partition is Active && partition->worker_id == id
}

/// Whether a partition waits for the next attempt after one that failed, or has failed where no attempt
/// is left.
pub open spec fn goes_on_after(partition: PartitionState, attempt: u32, most: u32) -> bool {
    if attempt + 1 < most {
        partition is Pending && partition->next_attempt == attempt + 1
    } else {
        partition is Failed && partition->Failed_attempt == attempt
    }
}

proof fn names_stay(state: CoordinatorState, now: u64)
    ensures
        state.advanced(now).workers.len() == state.workers.len(),
        state.advanced(now).stages.len() == state.stages.len(),
        state.advanced(now).config == state.config,
        forall|i: int|
            0 <= i < state.workers.len() ==> (#[trigger] state.advanced(now).workers[i]).registration
                == state.workers[i].registration,
{
}

/// After a heartbeat was taken, the worker stays alive until the timeout has passed since then, whatever
/// it was before, and until then it keeps every task with a lease that has not run out. Once the timeout
/// has passed without another heartbeat, it is given up and its tasks are tried again.
pub proof fn a_heartbeat_keeps_a_worker_alive(
    state: CoordinatorState,
    message: WorkerMessageView,
    received: u64,
    next: CoordinatorState,
    w: int,
    now: u64,
)
    requires
        state.wf(),
        message is Heartbeat,
        state.handles(message, received, next, Ok(())),
        0 <= w < state.workers.len(),
        state.workers[w].registration.worker_id == message->Heartbeat_heartbeat.worker_id,
    ensures
        now - received <= state.config.heartbeat_timeout_ms ==> {
            let id = message->Heartbeat_heartbeat.worker_id;
            &&& is_alive(next.advanced(now), id)
            &&& forall|s: int, p: int|
                0 <= s < next.stages.len() && 0 <= p < next.stages[s].partitions.len() && is_held(
                    #[trigger] next.stages[s].partitions[p],
                    id,
                    now,
                ) ==> next.advanced(now).stages[s].partitions[p] == next.stages[s].partitions[p]
        },
        now - received > state.config.heartbeat_timeout_ms ==> {
            let id = message->Heartbeat_heartbeat.worker_id;
            &&& !is_alive(next.advanced(now), id)
            &&& forall|s: int, p: int|
                0 <= s < next.stages.len() && 0 <= p < next.stages[s].partitions.len() && is_with(
                    #[trigger] next.stages[s].partitions[p],
                    id,
                ) ==> goes_on_after(
                    next.advanced(now).stages[s].partitions[p],
                    next.stages[s].partitions[p]->Active_task.attempt,
                    next.config.max_task_attempts,
                )
        },
        next.workers[w].alive,
        next.workers[w].available_slots == message->Heartbeat_heartbeat.available_slots,
        next.workers[w].available_memory_bytes
            == message->Heartbeat_heartbeat.available_memory_bytes,
        next.workers[w].registration == state.workers[w].registration,
        next.stages == state.advanced(received).stages,
        forall|i: int|
            0 <= i < state.workers.len() && i != w ==> #[trigger] next.workers[i]
                == state.advanced(received).workers[i],
{
    let beat = message->Heartbeat_heartbeat;
    let then = state.advanced(received);
    time_keeps_validity(state, received);
    names_stay(state, received);
    assert(then.workers[w].registration == state.workers[w].registration);
    worker_index_is(then, w);
    heartbeat_keeps_validity(then, beat, received);
    assert((next, Ok::<(), ErrorView>(())) == then.heartbeat(beat, received));
    assert(next.workers[w].alive);
    assert(next.config == state.config);
    if now - received <= state.config.heartbeat_timeout_ms {
        a_worker_heard_of_stays(next, w, received, now);
    } else {
        a_silent_worker_goes(next, w, received, now);
        nobody_else_is_called(next, w, now);
    }
}

proof fn nobody_else_is_called(state: CoordinatorState, w: int, now: u64)
    requires
        state.wf(),
        0 <= w < state.workers.len(),
        !state.advanced(now).workers[w].alive,
    ensures
        !is_alive(state.advanced(now), state.workers[w].registration.worker_id),
{
    let next = state.advanced(now);
    let id = state.workers[w].registration.worker_id;
    time_keeps_validity(state, now);
    names_stay(state, now);
    if is_alive(next, id) {
        let i = choose|i: int|
            0 <= i < next.workers.len() && (#[trigger] next.workers[i]).registration.worker_id == id
                && next.workers[i].alive;
        assert(next.workers[w].registration == state.workers[w].registration);
        worker_index_is(next, i);
        worker_index_is(next, w);
    }
}

/// A heartbeat is refused of a worker that never registered, where it is older than the last one, and
/// where it reports more slots than are free beside the tasks of the worker or more memory than it
/// has, and else it is taken.
pub proof fn which_heartbeats_are_taken(
    state: CoordinatorState,
    beat: WorkerHeartbeatView,
    received: u64,
    w: int,
)
    requires
        state.wf(),
        0 <= w < state.workers.len(),
        state.workers[w].registration.worker_id == beat.worker_id,
    ensures
        state.heartbeat(beat, received).1 is Ok <==> {
            &&& beat.observed_at_ms >= state.workers[w].last_observed_at_ms
            &&& beat.available_slots + count(state.stages, leased(beat.worker_id))
                <= state.workers[w].registration.slots
            &&& beat.available_memory_bytes <= state.workers[w].registration.memory_bytes
        },
        state.heartbeat(beat, received).1 is Ok ==> state.heartbeat(
            beat,
            received,
        ).0.workers[w].last_observed_at_ms == beat.observed_at_ms,
        state.heartbeat(beat, received).1 is Err ==> state.heartbeat(beat, received).0 == state,
{
    worker_index_is(state, w);
    assert(state.worker_wf(state.workers[w]));
}

/// A worker that registers has all its slots and memory free and stays alive until the timeout has
/// passed; nothing else changes.
pub proof fn a_registration_adds_a_worker(
    state: CoordinatorState,
    registration: WorkerRegistrationView,
    received: u64,
    next: CoordinatorState,
    now: u64,
)
    requires
        state.wf(),
        state.registers(registration, received, next, Ok(())),
    ensures
        !state.has_worker(registration.worker_id),
        next.stages == state.stages,
        next.cancelled == state.cancelled,
        exists|at: int|
            {
                &&& 0 <= at < next.workers.len()
                &&& next.workers.remove(at) == state.workers
                &&& (#[trigger] next.workers[at]).registration == registration
                &&& next.workers[at].alive
                &&& next.workers[at].available_slots == registration.slots
                &&& next.workers[at].available_memory_bytes == registration.memory_bytes
                &&& now - received <= state.config.heartbeat_timeout_ms ==> next.advanced(
                    now,
                ).workers[at].alive
                &&& now - received > state.config.heartbeat_timeout_ms ==> !next.advanced(
                    now,
                ).workers[at].alive
            },
{
    let worker = CoordinatorState::fresh_worker(registration, received);
    let at = choose|at: int|
        0 <= at <= state.workers.len() && next.workers == #[trigger] state.workers.insert(
            at,
            worker,
        );
    assert(next.workers[at] == worker);
    assert(next.workers.remove(at) =~= state.workers);
    if now - received <= state.config.heartbeat_timeout_ms {
        a_worker_heard_of_stays(next, at, received, now);
    } else {
        a_silent_worker_goes(next, at, received, now);
    }
}

// ---- leases

/// A task with a lease that has run out is tried again, or fails where it was tried often enough; one
/// of which neither the lease has run out nor the worker fell silent stays as it is, and so does
/// everything that is no task.
pub proof fn leases_run_out(state: CoordinatorState, w: int, s: int, p: int, now: u64)
    requires
        state.wf(),
        0 <= w < state.workers.len(),
        0 <= s < state.stages.len(),
        0 <= p < state.stages[s].partitions.len(),
    ensures
        ({
            let before = state.stages[s].partitions[p];
            let after = state.advanced(now).stages[s].partitions[p];
            let worker = state.workers[w];
            &&& !(before is Active) ==> after == before
            &&& before is Active && before->Active_lease.expires_at_ms <= now ==> goes_on_after(
                after,
                before->Active_task.attempt,
                state.config.max_task_attempts,
            )
            &&& is_held(before, worker.registration.worker_id, now) && !(worker.alive && now
                - worker.last_received_at_ms > state.config.heartbeat_timeout_ms) ==> after == before
        }),
        state.advanced(now).stages[s].plan == state.stages[s].plan,
        state.advanced(now).stages[s].partitions.len() == state.stages[s].partitions.len(),
        state.advanced(now).cancelled == state.cancelled,
{
    times_out_is_by_worker(state, w, now);
}

/// The slots of a worker that stays alive, those that are free and those of its tasks together, are as
/// many after the clock has gone on as before: a lease that runs out gives its slot back.
pub proof fn time_loses_no_slots(state: CoordinatorState, w: int, now: u64)
    requires
        state.wf(),
        0 <= w < state.workers.len(),
        state.advanced(now).workers[w].alive,
    ensures
        ({
            let id = state.workers[w].registration.worker_id;
            let next = state.advanced(now);
            next.workers[w].available_slots + count(next.stages, leased(id))
                == state.workers[w].available_slots + count(state.stages, leased(id))
        }),
{
    let id = state.workers[w].registration.worker_id;
    assert(state.worker_wf(state.workers[w]));
    times_out_is_by_worker(state, w, now);
    count_after_advance(state, now, state.stages.len() as int, id);
}

// ---- assignments

/// Whether nothing but one partition of a stage differs.
pub open spec fn only_partition_differs(
    a: CoordinatorState,
    b: CoordinatorState,
    s: int,
    p: int,
) -> bool {
    &&& a.config == b.config
    &&& a.cancelled == b.cancelled
    &&& a.stages.len() == b.stages.len()
    &&& a.workers.len() == b.workers.len()
    &&& forall|i: int|
        #![trigger b.stages[i]]
        0 <= i < a.stages.len() ==> b.stages[i].plan == a.stages[i].plan
            && b.stages[i].partitions.len() == a.stages[i].partitions.len()
    &&& forall|i: int, j: int|
        #![trigger b.stages[i].partitions[j]]
        0 <= i < a.stages.len() && 0 <= j < a.stages[i].partitions.len() && !(i == s && j == p)
            ==> b.stages[i].partitions[j] == a.stages[i].partitions[j]
}

/// Whether every partition of a stage has succeeded.
pub open spec fn is_done(state: CoordinatorState, query: Seq<char>, stage: StageId) -> bool {
    exists|i: int|
        {
            &&& 0 <= i < state.stages.len()
            &&& (#[trigger] state.stages[i]).plan.query_id == query
            &&& state.stages[i].plan.stage_id == stage
            &&& forall|p: int|
                0 <= p < state.stages[i].partitions.len() ==> (
                #[trigger] state.stages[i].partitions[p]) is Succeeded
        }
}

/// Whether a partition may be given to a worker: it waits, its query was not cancelled, and every stage
/// that its stage reads of is done.
pub open spec fn may_be_given(state: CoordinatorState, s: int, p: int) -> bool {
    let stage = state.stages[s];
    &&& 0 <= s < state.stages.len()
    &&& 0 <= p < stage.partitions.len()
    &&& stage.partitions[p] is Pending
    &&& forall|i: int|
        0 <= i < state.cancelled.len() ==> (#[trigger] state.cancelled[i]).query_id
            != stage.plan.query_id
    &&& forall|k: int|
        0 <= k < stage.plan.input_stages.len() ==> is_done(
            state,
            stage.plan.query_id,
            #[trigger] stage.plan.input_stages[k],
        )
}

proof fn done_is_succeeded(state: CoordinatorState, query: Seq<char>, stage: StageId)
    ensures
        state.stage_succeeded(query, stage) <==> is_done(state, query, stage),
{
    if state.stage_succeeded(query, stage) {
        let i = choose|i: int|
            0 <= i < state.stages.len() && (#[trigger] state.stages[i]).is(query, stage)
                && state.stages[i].all_succeeded();
        assert(state.stages[i].plan.query_id == query);
    }
    if is_done(state, query, stage) {
        let i = choose|i: int|
            {
                &&& 0 <= i < state.stages.len()
                &&& (#[trigger] state.stages[i]).plan.query_id == query
                &&& state.stages[i].plan.stage_id == stage
                &&& forall|p: int|
                    0 <= p < state.stages[i].partitions.len() ==> (
                    #[trigger] state.stages[i].partitions[p]) is Succeeded
            };
        assert(state.stages[i].is(query, stage));
    }
}

proof fn assignable_is_given(state: CoordinatorState, s: int)
    requires
        0 <= s < state.stages.len(),
    ensures
        state.is_assignable(state.stages[s]) <==> {
            let stage = state.stages[s];
            &&& forall|i: int|
                0 <= i < state.cancelled.len() ==> (#[trigger] state.cancelled[i]).query_id
                    != stage.plan.query_id
            &&& forall|k: int|
                0 <= k < stage.plan.input_stages.len() ==> is_done(
                    state,
                    stage.plan.query_id,
                    #[trigger] stage.plan.input_stages[k],
                )
        },
{
    let stage = state.stages[s];
    assert forall|k: int| 0 <= k < stage.plan.input_stages.len() implies state.stage_succeeded(
        stage.plan.query_id,
        #[trigger] stage.plan.input_stages[k],
    ) == is_done(state, stage.plan.query_id, stage.plan.input_stages[k]) by {
        done_is_succeeded(state, stage.plan.query_id, stage.plan.input_stages[k]);
    }
}

proof fn what_waits_is_found(state: CoordinatorState, from: int)
    requires
        0 <= from,
    ensures
        state.pending_from(from) matches Some((s, p)) ==> from <= s && may_be_given(state, s, p)
            && forall|i: int, j: int|
            from <= i < s || i == s && j < p ==> !#[trigger] may_be_given(state, i, j),
        state.pending_from(from) is None ==> forall|i: int, j: int|
            from <= i ==> !#[trigger] may_be_given(state, i, j),
    decreases state.stages.len() - from,
{
    if from < state.stages.len() {
        what_waits_is_found(state, from + 1);
        assignable_is_given(state, from);
        waiting_is_found(state.stages[from], 0);
    }
}

proof fn waiting_is_found(stage: StageState, from: int)
    requires
        0 <= from,
    ensures
        stage.pending_from(from) matches Some(p) ==> from <= p < stage.partitions.len()
            && stage.partitions[p] is Pending && forall|j: int|
            from <= j < p ==> !((#[trigger] stage.partitions[j]) is Pending),
        stage.pending_from(from) is None ==> forall|j: int|
            from <= j < stage.partitions.len() ==> !((#[trigger] stage.partitions[j]) is Pending),
    decreases stage.partitions.len() - from,
{
    if from < stage.partitions.len() {
        waiting_is_found(stage, from + 1);
    }
}

/// A worker is given the first partition that may be given, with the attempt that it waits for and a
/// lease in the worker's name from now on for as long as leases last, and has one slot less. Where it is
/// given none, there is none that may be given.
pub proof fn what_a_worker_is_given(
    state: CoordinatorState,
    w: int,
    now: u64,
    next: CoordinatorState,
    result: Result<Option<CoordinatorMessageView>, ErrorView>,
)
    requires
        state.wf(),
        0 <= w < state.workers.len(),
        state.workers[w].alive,
        state.workers[w].available_slots > 0,
        state.assigned(w, now) == (next, result),
    ensures
        result == Ok::<Option<CoordinatorMessageView>, ErrorView>(None) ==> next == state && forall|
            s: int,
            p: int,
        | !#[trigger] may_be_given(state, s, p),
        result matches Ok(Some(message)) ==> exists|s: int, p: int|
            #![trigger may_be_given(state, s, p)]
            {
                &&& may_be_given(state, s, p)
                &&& forall|i: int, j: int|
                    0 <= i < s || i == s && j < p ==> !#[trigger] may_be_given(state, i, j)
                &&& message is AssignTask
                &&& message->AssignTask_stage == state.stages[s].plan
                &&& message->AssignTask_task.query_id == state.stages[s].plan.query_id
                &&& message->AssignTask_task.stage_id == state.stages[s].plan.stage_id
                &&& message->AssignTask_task.partition_id.0 == p
                &&& message->AssignTask_task.attempt == state.stages[s].partitions[p]->next_attempt
                &&& message->AssignTask_lease.worker_id == state.workers[w].registration.worker_id
                &&& message->AssignTask_lease.issued_at_ms == now
                &&& message->AssignTask_lease.expires_at_ms == now + state.config.lease_duration_ms
                &&& next.stages[s].partitions[p] is Active
                &&& next.stages[s].partitions[p]->Active_task == message->AssignTask_task
                &&& next.stages[s].partitions[p]->Active_lease == message->AssignTask_lease
                &&& next.stages[s].partitions[p]->worker_id
                    == state.workers[w].registration.worker_id
                &&& next.stages[s].partitions[p]->started_at_ms is None
                &&& only_partition_differs(state, next, s, p)
                &&& next.workers[w].available_slots == state.workers[w].available_slots - 1
                &&& next.workers[w].registration == state.workers[w].registration
                &&& next.workers[w].alive
                &&& forall|i: int|
                    0 <= i < state.workers.len() && i != w ==> #[trigger] next.workers[i]
                        == state.workers[i]
            },
        result is Err ==> next == state && now + state.config.lease_duration_ms > u64::MAX,
{
    what_waits_is_found(state, 0);
    if let Ok(Some(message)) = result {
        let (s, p) = state.pending_from(0)->Some_0;
        assert(state.stage_wf(state.stages[s]));
        assert(may_be_given(state, s, p));
        assert(only_partition_differs(state, next, s, p));
    }
}

/// Who asks for a task for anyone gives it to the first worker that is alive and has a slot free, and
/// gives none only where no worker has one or nothing may be given.
pub proof fn who_is_given_a_task(
    state: CoordinatorState,
    now: u64,
    next: CoordinatorState,
    result: Result<Option<CoordinatorMessageView>, ErrorView>,
)
    requires
        state.next_assignment(now) == (next, result),
    ensures
        ({
            let then = state.advanced(now);
            ||| (exists|w: int|
                {
                    &&& 0 <= w < then.workers.len()
                    &&& then.workers[w].alive
                    &&& then.workers[w].available_slots > 0
                    &&& #[trigger] then.assigned(w, now) == (next, result)
                    &&& forall|i: int|
                        0 <= i < w ==> !((#[trigger] then.workers[i]).alive
                            && then.workers[i].available_slots > 0)
                })
            ||| {
                &&& next == then
                &&& result == Ok::<Option<CoordinatorMessageView>, ErrorView>(None)
                &&& forall|i: int|
                    0 <= i < then.workers.len() ==> !((#[trigger] then.workers[i]).alive
                        && then.workers[i].available_slots > 0)
            }
        }),
{
    let then = state.advanced(now);
    the_first_free_worker(then.workers, 0);
    if let Some(w) = crate::coordinator::model::free_worker_from(then.workers, 0) {
        assert(then.assigned(w, now) == (next, result));
    }
}

proof fn the_first_free_worker(workers: Seq<WorkerState>, from: int)
    requires
        0 <= from,
    ensures
        crate::coordinator::model::free_worker_from(workers, from) matches Some(w) ==> {
            &&& from <= w < workers.len()
            &&& workers[w].alive
            &&& workers[w].available_slots > 0
            &&& forall|i: int|
                from <= i < w ==> !((#[trigger] workers[i]).alive && workers[i].available_slots > 0)
        },
        crate::coordinator::model::free_worker_from(workers, from) is None ==> forall|i: int|
            from <= i < workers.len() ==> !((#[trigger] workers[i]).alive
                && workers[i].available_slots > 0),
    decreases workers.len() - from,
{
    if from < workers.len() {
        the_first_free_worker(workers, from + 1);
    }
}

/// A worker that asks for a task is given one of its own, and none while it is given up or has no slot
/// free.
pub proof fn a_worker_asks_for_itself(
    state: CoordinatorState,
    w: int,
    now: u64,
)
    requires
        state.wf(),
        0 <= w < state.workers.len(),
    ensures
        ({
            let then = state.advanced(now);
            let r = state.next_assignment_for(state.workers[w].registration.worker_id, now);
            if then.workers[w].alive && then.workers[w].available_slots > 0 {
                r == then.assigned(w, now)
            } else {
                r.0 == then && r.1 == Ok::<Option<CoordinatorMessageView>, ErrorView>(None)
            }
        }),
{
    time_keeps_validity(state, now);
    names_stay(state, now);
    let then = state.advanced(now);
    assert(then.workers[w].registration == state.workers[w].registration);
    worker_index_is(then, w);
}

// ---- reports

/// What becomes of a partition of which a worker reports.
pub open spec fn is_after_report(
    before: PartitionState,
    report: TaskStateView,
    most: u32,
    after: PartitionState,
) -> bool {
    let task = before->Active_task;
    match report {
        TaskStateView::Running { started_at_ms } => after is Active && after->Active_task == task
            && after->worker_id == before->worker_id && after->Active_lease == before->Active_lease
            && after->started_at_ms == Some(started_at_ms),
        TaskStateView::Succeeded { output_blocks, .. } => after is Succeeded
            && after->Succeeded_task == task && after->Succeeded_output_blocks == output_blocks,
        TaskStateView::Failed { retryable, error, .. } => if retryable {
            goes_on_after(after, task.attempt, most)
        } else {
            after is Failed && after->Failed_attempt == task.attempt && after->Failed_error == error
        },
        TaskStateView::Cancelled { .. } => after is Cancelled,
    }
}

/// The time of which a report speaks.
pub open spec fn reported_time(report: TaskStateView) -> u64 {
    match report {
        TaskStateView::Running { started_at_ms } => started_at_ms,
        TaskStateView::Succeeded { finished_at_ms, .. } => finished_at_ms,
        TaskStateView::Failed { finished_at_ms, .. } => finished_at_ms,
        TaskStateView::Cancelled { finished_at_ms, .. } => finished_at_ms,
    }
}

/// A report is taken only of the worker and the attempt that hold the partition, while the lease runs,
/// of a time within the lease and not later than the report. It changes the partition of which it
/// speaks and no other, and where the task has ended its slot is free again.
pub proof fn what_a_report_does(
    state: CoordinatorState,
    worker: Seq<char>,
    task: TaskAttemptView,
    report: TaskStateView,
    received: u64,
    next: CoordinatorState,
    s: int,
)
    requires
        state.wf(),
        0 <= s < state.stages.len(),
        state.stages[s].plan.query_id == task.query_id,
        state.stages[s].plan.stage_id == task.stage_id,
        state.task_update(worker, task, report, received) == (next, Ok::<(), ErrorView>(())),
    ensures
        ({
            let p = task.partition_id.0 as int;
            let before = state.stages[s].partitions[p];
            &&& 0 <= p < state.stages[s].partitions.len()
            &&& before is Active
            &&& before->Active_task == task
            &&& before->worker_id == worker
            &&& received < before->Active_lease.expires_at_ms
            &&& before->Active_lease.issued_at_ms <= reported_time(report)
                < before->Active_lease.expires_at_ms
            &&& reported_time(report) <= received
            &&& is_after_report(
                before,
                report,
                state.config.max_task_attempts,
                next.stages[s].partitions[p],
            )
            &&& only_partition_differs(state, next, s, p)
        }),
{
    stage_index_is(state, s);
    assert(state.stage_wf(state.stages[s]));
}

/// A report on a running task of the worker that holds it is taken, where its times are in order and it
/// does not change the time at which the task started.
pub proof fn which_reports_are_taken(
    state: CoordinatorState,
    report: TaskStateView,
    received: u64,
    s: int,
    p: int,
)
    requires
        state.wf(),
        0 <= s < state.stages.len(),
        0 <= p < state.stages[s].partitions.len(),
        state.stages[s].partitions[p] is Active,
        received < state.stages[s].partitions[p]->Active_lease.expires_at_ms,
        state.stages[s].partitions[p]->Active_lease.issued_at_ms <= reported_time(report),
        reported_time(report) <= received,
        report is Running ==> state.stages[s].partitions[p]->started_at_ms is None
            || state.stages[s].partitions[p]->started_at_ms == Some(report->Running_started_at_ms),
    ensures
        ({
            let partition = state.stages[s].partitions[p];
            state.task_update(
                partition->worker_id,
                partition->Active_task,
                report,
                received,
            ).1 is Ok
        }),
{
    let stage = state.stages[s];
    let partition = stage.partitions[p];
    assert(state.stage_wf(stage));
    assert(state.partition_wf(stage.plan, p, partition));
    stage_index_is(state, s);
    let task = partition->Active_task;
    assert(task.query_id == stage.plan.query_id);
    assert(stage.plan.check() is Ok);
    assert(task.check_for(stage.plan) is Ok);
}

/// The slots of a worker, those that are free and those of its tasks together, are as many after a
/// report as before.
pub proof fn reports_lose_no_slots(
    state: CoordinatorState,
    task: TaskAttemptView,
    report: TaskStateView,
    received: u64,
    next: CoordinatorState,
    w: int,
    s: int,
)
    requires
        state.wf(),
        0 <= w < state.workers.len(),
        0 <= s < state.stages.len(),
        state.stages[s].plan.query_id == task.query_id,
        state.stages[s].plan.stage_id == task.stage_id,
        state.task_update(state.workers[w].registration.worker_id, task, report, received) == (
            next,
            Ok::<(), ErrorView>(()),
        ),
    ensures
        ({
            let id = state.workers[w].registration.worker_id;
            next.workers[w].available_slots + count(next.stages, leased(id))
                == state.workers[w].available_slots + count(state.stages, leased(id))
        }),
{
    let id = state.workers[w].registration.worker_id;
    let p = task.partition_id.0 as int;
    let worker = state.workers[w];
    stage_index_is(state, s);
    worker_index_is(state, w);
    what_a_report_does(state, id, task, report, received, next, s);
    assert(state.worker_wf(worker));
    let after = next.stages[s].partitions[p];
    a_lease_counts(state, s, p, id);
    count_after_update(state, s, p, after, state.stages.len() as int, id);
    assert(state.with_partition(s, p, after).stages =~= next.stages);
}

// ---- cancelling

/// Cancelling a query ends every task of it that has not succeeded, and leaves what has succeeded and
/// all other queries as they are.
pub proof fn what_cancelling_does(
    state: CoordinatorState,
    query: Seq<char>,
    reason: Seq<char>,
    next: CoordinatorState,
    message: CoordinatorMessageView,
    s: int,
    p: int,
)
    requires
        state.wf(),
        state.cancel_query(query, reason) == (next, Ok::<CoordinatorMessageView, ErrorView>(message)),
        0 <= s < state.stages.len(),
        0 <= p < state.stages[s].partitions.len(),
    ensures
        message is CancelQuery,
        message->CancelQuery_query_id == query,
        message->CancelQuery_reason == reason,
        next.stages.len() == state.stages.len(),
        next.stages[s].plan == state.stages[s].plan,
        next.stages[s].partitions.len() == state.stages[s].partitions.len(),
        ({
            let before = state.stages[s].partitions[p];
            let after = next.stages[s].partitions[p];
            if state.stages[s].plan.query_id != query || before is Succeeded {
                after == before
            } else {
                after is Cancelled
            }
        }),
        next.is_cancelled(query),
{
    if state.is_cancelled_for(query, reason) {
        assert(state.is_cancelled(query));
        assert(state.stage_wf(state.stages[s]));
        if state.stages[s].plan.query_id == query {
            let partition = state.stages[s].partitions[p];
            assert(partition is Succeeded || partition is Cancelled);
        }
    } else {
        let last = state.cancelled.len() as int;
        assert(next.cancelled[last].query_id == query);
    }
}

// ---- questions

/// What is said of a stage follows from its partitions: cancelled with its query, failed where one has
/// failed, succeeded where all have, running where one is at work, and else ready where every stage
/// that it reads of is done and blocked where one is not.
pub proof fn what_is_said_of_a_stage(state: CoordinatorState, s: int)
    requires
        state.wf(),
        0 <= s < state.stages.len(),
    ensures
        ({
            let stage = state.stages[s];
            let cancelled = exists|i: int|
                0 <= i < state.cancelled.len() && (#[trigger] state.cancelled[i]).query_id
                    == stage.plan.query_id;
            let failed = exists|p: int|
                0 <= p < stage.partitions.len() && (#[trigger] stage.partitions[p]) is Failed;
            let done = forall|p: int|
                0 <= p < stage.partitions.len() ==> (#[trigger] stage.partitions[p]) is Succeeded;
            let at_work = exists|p: int|
                0 <= p < stage.partitions.len() && (#[trigger] stage.partitions[p]) is Active;
            let inputs = forall|k: int|
                0 <= k < stage.plan.input_stages.len() ==> is_done(
                    state,
                    stage.plan.query_id,
                    #[trigger] stage.plan.input_stages[k],
                );
            let said = state.stage_status(stage.plan.query_id, stage.plan.stage_id);
            &&& said is Ok
            &&& said->Ok_0 is Cancelled <==> cancelled
            &&& said->Ok_0 is Failed <==> !cancelled && failed
            &&& said->Ok_0 is Succeeded <==> !cancelled && done && !failed
            &&& said->Ok_0 is Running <==> !cancelled && !failed && !done && at_work
            &&& said->Ok_0 is Ready <==> !cancelled && !failed && !done && !at_work && inputs
            &&& said->Ok_0 is Blocked <==> !cancelled && !failed && !done && !at_work && !inputs
        }),
{
    stage_index_is(state, s);
    assignable_is_given(state, s);
    let stage = state.stages[s];
    assert forall|k: int| 0 <= k < stage.plan.input_stages.len() implies state.stage_succeeded(
        stage.plan.query_id,
        #[trigger] stage.plan.input_stages[k],
    ) == is_done(state, stage.plan.query_id, stage.plan.input_stages[k]) by {
        done_is_succeeded(state, stage.plan.query_id, stage.plan.input_stages[k]);
    }
}

/// What is said of a partition is how it stands.
pub proof fn what_is_said_of_a_partition(state: CoordinatorState, s: int, p: u32)
    requires
        state.wf(),
        0 <= s < state.stages.len(),
        p < state.stages[s].partitions.len(),
    ensures
        ({
            let plan = state.stages[s].plan;
            let partition = state.stages[s].partitions[p as int];
            let said = state.partition_status(plan.query_id, plan.stage_id, PartitionId(p));
            &&& said is Ok
            &&& match partition {
                PartitionState::Pending { next_attempt } => said->Ok_0 is Pending
                    && said->Ok_0->next_attempt == next_attempt,
                PartitionState::Active { task, .. } => said->Ok_0 is Running
                    && said->Ok_0->Running_attempt == task.attempt,
                PartitionState::Succeeded { task, .. } => said->Ok_0 is Succeeded
                    && said->Ok_0->Succeeded_attempt == task.attempt,
                PartitionState::Failed { attempt, error } => said->Ok_0 is Failed
                    && said->Ok_0->Failed_attempt == attempt && said->Ok_0->Failed_error == error,
                PartitionState::Cancelled => said->Ok_0 is Cancelled,
            }
        }),
{
    stage_index_is(state, s);
}

/// A submitted stage has all its partitions waiting for their first attempt; nothing else changes.
pub proof fn a_stage_starts_waiting(plan: StagePlanView, p: int)
    requires
        0 <= p < plan.partition_count,
    ensures
        CoordinatorState::fresh_stage(plan).plan == plan,
        CoordinatorState::fresh_stage(plan).partitions.len() == plan.partition_count,
        CoordinatorState::fresh_stage(plan).partitions[p] is Pending,
        CoordinatorState::fresh_stage(plan).partitions[p]->next_attempt == 0,
{
}

proof fn blocks_up_to(stage: StageState, upto: int)
    requires
        0 <= upto <= stage.partitions.len(),
        forall|p: int|
            0 <= p < stage.partitions.len() ==> (#[trigger] stage.partitions[p]) is Succeeded,
    ensures
        stage.output_blocks(upto) == Seq::new(
            upto as nat,
            |p: int| stage.partitions[p]->Succeeded_output_blocks,
        ).flatten(),
    decreases upto,
{
    let lists = Seq::new(
        upto as nat,
        |p: int| stage.partitions[p]->Succeeded_output_blocks,
    );
    if upto > 0 {
        blocks_up_to(stage, upto - 1);
        let before = Seq::new(
            (upto - 1) as nat,
            |p: int| stage.partitions[p]->Succeeded_output_blocks,
        );
        assert(lists.drop_last() =~= before);
        assert(stage.partitions[upto - 1] is Succeeded);
        lists.lemma_flatten_and_flatten_alt_are_equivalent();
        before.lemma_flatten_and_flatten_alt_are_equivalent();
    } else {
        assert(lists.flatten() =~= Seq::empty());
    }
}

/// The blocks of a stage that is done are those of its partitions, one partition after the other.
pub proof fn the_blocks_of_a_stage(
    state: CoordinatorState,
    s: int,
    blocks: Seq<ShuffleBlockView>,
)
    requires
        state.wf(),
        0 <= s < state.stages.len(),
        state.stage_output_blocks(state.stages[s].plan.query_id, state.stages[s].plan.stage_id)
            == Ok::<Seq<ShuffleBlockView>, ErrorView>(blocks),
    ensures
        forall|p: int|
            0 <= p < state.stages[s].partitions.len() ==> (
            #[trigger] state.stages[s].partitions[p]) is Succeeded,
        blocks == Seq::new(
            state.stages[s].partitions.len(),
            |p: int| state.stages[s].partitions[p]->Succeeded_output_blocks,
        ).flatten(),
{
    stage_index_is(state, s);
    blocks_up_to(state.stages[s], state.stages[s].partitions.len() as int);
}

/// A stage is taken on where it is valid, has no more partitions than are allowed, belongs to no cancelled
/// query, is not there yet, and every stage that it reads of is; and it is refused otherwise.
pub proof fn which_stages_are_taken_on(state: CoordinatorState, plan: StagePlanView)
    ensures
        state.submission_check(plan) is Ok <==> {
            &&& plan.check() is Ok
            &&& plan.partition_count <= state.config.max_stage_partitions
            &&& forall|i: int|
                0 <= i < state.cancelled.len() ==> (#[trigger] state.cancelled[i]).query_id
                    != plan.query_id
            &&& !is_there(state, plan.query_id, plan.stage_id)
            &&& forall|k: int|
                0 <= k < plan.input_stages.len() ==> is_there(
                    state,
                    plan.query_id,
                    #[trigger] plan.input_stages[k],
                )
        },
{
    there_is_has(state, plan.query_id, plan.stage_id);
    inputs_are_there(state, plan, 0);
}

/// Whether a stage was submitted.
pub open spec fn is_there(state: CoordinatorState, query: Seq<char>, stage: StageId) -> bool {
    exists|i: int|
        0 <= i < state.stages.len() && (#[trigger] state.stages[i]).plan.query_id == query
            && state.stages[i].plan.stage_id == stage
}

proof fn there_is_has(state: CoordinatorState, query: Seq<char>, stage: StageId)
    ensures
        state.has_stage(query, stage) <==> is_there(state, query, stage),
{
    if state.has_stage(query, stage) {
        let i = choose|i: int|
            0 <= i < state.stages.len() && (#[trigger] state.stages[i]).is(query, stage);
        assert(state.stages[i].plan.query_id == query);
    }
    if is_there(state, query, stage) {
        let i = choose|i: int|
            0 <= i < state.stages.len() && (#[trigger] state.stages[i]).plan.query_id == query
                && state.stages[i].plan.stage_id == stage;
        assert(state.stages[i].is(query, stage));
    }
}

proof fn inputs_are_there(state: CoordinatorState, plan: StagePlanView, from: int)
    requires
        0 <= from <= plan.input_stages.len(),
    ensures
        state.dependencies_check(plan, from) is Ok <==> forall|k: int|
            from <= k < plan.input_stages.len() ==> is_there(
                state,
                plan.query_id,
                #[trigger] plan.input_stages[k],
            ),
    decreases plan.input_stages.len() - from,
{
    if from < plan.input_stages.len() {
        there_is_has(state, plan.query_id, plan.input_stages[from]);
        inputs_are_there(state, plan, from + 1);
    }
}

/// A query is cancelled where the request is valid, the query is known, and it was not cancelled for another
/// reason; a request that is refused changes nothing.
pub proof fn which_queries_are_cancelled(
    state: CoordinatorState,
    query: Seq<char>,
    reason: Seq<char>,
)
    requires
        state.wf(),
    ensures
        state.cancel_query(query, reason).1 is Ok <==> {
            &&& crate::meaning::messages::is_identifier(query)
            &&& crate::meaning::messages::says_something(reason)
            &&& exists|i: int|
                0 <= i < state.stages.len() && (#[trigger] state.stages[i]).plan.query_id == query
            &&& forall|i: int|
                0 <= i < state.cancelled.len() && (#[trigger] state.cancelled[i]).query_id == query
                    ==> state.cancelled[i].reason == reason
        },
        state.cancel_query(query, reason).1 is Err ==> state.cancel_query(query, reason).0 == state,
{
    let message = CoordinatorState::cancellation(query, reason);
    crate::meaning::messages::which_messages_are_valid(
        WorkerMessageView::Register { version: 0, registration: arbitrary() },
        message,
    );
    if state.is_cancelled_for(query, reason) {
        let k = choose|k: int|
            0 <= k < state.cancelled.len() && (#[trigger] state.cancelled[k]).query_id == query
                && state.cancelled[k].reason == reason;
        assert forall|i: int|
            0 <= i < state.cancelled.len() && (#[trigger] state.cancelled[i]).query_id
                == query implies state.cancelled[i].reason == reason by {
            if i < k {
                assert(state.cancelled[i].query_id != state.cancelled[k].query_id);
            } else if k < i {
                assert(state.cancelled[k].query_id != state.cancelled[i].query_id);
            }
        }
    } else if state.is_cancelled(query) {
        let k = choose|k: int|
            0 <= k < state.cancelled.len() && (#[trigger] state.cancelled[k]).query_id == query;
        assert(state.cancelled[k].reason != reason);
    }
}

/// The free slots that are told of a worker are those that it has while it is alive, and none are told of
/// one that is not.
pub proof fn which_slots_are_told(state: CoordinatorState, w: int)
    requires
        state.wf(),
        0 <= w < state.workers.len(),
    ensures
        state.worker_available_slots(state.workers[w].registration.worker_id) == (
        if state.workers[w].alive {
            Some(state.workers[w].available_slots)
        } else {
            None
        }),
{
    worker_index_is(state, w);
}

} // verus!

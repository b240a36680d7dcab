//! What holds of the coordinator whatever it is asked.

use crate::coordinator::counting::{
    a_lease_counts, count_after_advance, count_after_cancel, count_after_insert, count_after_update,
};
use crate::coordinator::model::{
    count, free_worker_from, leased, reported, stage_before, Cancellation, CoordinatorState,
    PartitionState, StageState, WorkerState,
};
use crate::error::ErrorView;
use crate::protocol::{
    CoordinatorMessageView, StageId, StagePlanView, TaskAttemptView, TaskStateView,
    WorkerHeartbeatView, WorkerMessageView, WorkerRegistrationView,
};
use crate::text::{before, before_is_strict};
use vstd::prelude::*;

verus! {

/// An identifier names one worker.
pub proof fn worker_index_is(state: CoordinatorState, i: int)
    requires
        state.ordered(),
        0 <= i < state.workers.len(),
    ensures
        state.has_worker(state.workers[i].id()),
        state.worker_index(state.workers[i].id()) == i,
{
    let id = state.workers[i].id();
    let j = state.worker_index(id);
    assert(state.workers[i].id() == id);
    assert(state.workers[j].id() == id);
    before_is_strict(id, id);
    if i < j {
        assert(before(state.workers[i].id(), state.workers[j].id()));
    } else if j < i {
        assert(before(state.workers[j].id(), state.workers[i].id()));
    }
}

/// A query and a number name one stage.
pub proof fn stage_index_is(state: CoordinatorState, i: int)
    requires
        state.ordered(),
        0 <= i < state.stages.len(),
    ensures
        state.has_stage(state.stages[i].plan.query_id, state.stages[i].plan.stage_id),
        state.stage_index(state.stages[i].plan.query_id, state.stages[i].plan.stage_id) == i,
{
    let query = state.stages[i].plan.query_id;
    let number = state.stages[i].plan.stage_id;
    let j = state.stage_index(query, number);
    assert(state.stages[i].is(query, number));
    assert(state.stages[j].is(query, number));
    before_is_strict(query, query);
    if i < j {
        assert(stage_before(state.stages[i], state.stages[j]));
    } else if j < i {
        assert(stage_before(state.stages[j], state.stages[i]));
    }
}

/// A worker is given up exactly when the record under its identifier says so.
pub proof fn times_out_is_by_worker(state: CoordinatorState, i: int, now_ms: u64)
    requires
        state.ordered(),
        0 <= i < state.workers.len(),
    ensures
        state.worker_times_out(state.workers[i].id(), now_ms) == state.times_out(
            state.workers[i],
            now_ms,
        ),
{
    let id = state.workers[i].id();
    if state.times_out(state.workers[i], now_ms) {
        assert(state.workers[i].id() == id);
    }
    if state.worker_times_out(id, now_ms) {
        let j = choose|j: int|
            0 <= j < state.workers.len() && (#[trigger] state.workers[j]).id() == id
                && state.times_out(state.workers[j], now_ms);
        worker_index_is(state, i);
        worker_index_is(state, j);
    }
}

/// The clock keeps a state valid: in particular no worker ever holds more leases and free slots
/// together than the slots it registered.
pub proof fn time_keeps_validity(state: CoordinatorState, now_ms: u64)
    requires
        state.wf(),
    ensures
        state.advanced(now_ms).wf(),
{
    let next = state.advanced(now_ms);
    assert forall|i: int, j: int| 0 <= i < j < next.workers.len() implies before(
        (#[trigger] next.workers[i]).id(),
        (#[trigger] next.workers[j]).id(),
    ) by {
        assert(before(state.workers[i].id(), state.workers[j].id()));
    }
    assert forall|i: int, j: int| 0 <= i < j < next.stages.len() implies stage_before(
        #[trigger] next.stages[i],
        #[trigger] next.stages[j],
    ) by {
        assert(stage_before(state.stages[i], state.stages[j]));
    }
    same_names(state, next);
    assert forall|i: int| 0 <= i < next.workers.len() implies next.worker_wf(
        #[trigger] next.workers[i],
    ) by {
        let worker = state.workers[i];
        assert(state.worker_wf(worker));
        times_out_is_by_worker(state, i, now_ms);
        count_after_advance(state, now_ms, state.stages.len() as int, worker.id());
    }
    assert forall|i: int| 0 <= i < next.stages.len() implies next.stage_wf(
        #[trigger] next.stages[i],
    ) by {
        let stage = state.stages[i];
        assert(state.stage_wf(stage));
        assert forall|p: int| 0 <= p < next.stages[i].partitions.len() implies next.partition_wf(
            stage.plan,
            p,
            #[trigger] next.stages[i].partitions[p],
        ) by {
            assert(state.partition_wf(stage.plan, p, stage.partitions[p]));
        }
        assert forall|p: int|
            0 <= p < next.stages[i].partitions.len() && next.is_cancelled(
                stage.plan.query_id,
            ) implies {
            ||| (#[trigger] next.stages[i].partitions[p]) is Succeeded
            ||| next.stages[i].partitions[p] is Cancelled
        } by {
            assert(stage.partitions[p] is Succeeded || stage.partitions[p] is Cancelled);
        }
    }
    assert forall|i: int| 0 <= i < next.cancelled.len() implies next.has_query(
        (#[trigger] next.cancelled[i]).query_id,
    ) by {
        assert(state.has_query(state.cancelled[i].query_id));
    }
}

/// States that name the same workers, stages and cancelled queries answer alike who is there.
proof fn same_names(a: CoordinatorState, b: CoordinatorState)
    requires
        a.workers.len() == b.workers.len(),
        a.stages.len() == b.stages.len(),
        forall|i: int| 0 <= i < a.workers.len() ==> (#[trigger] b.workers[i]).id()
            == a.workers[i].id(),
        forall|i: int| 0 <= i < a.stages.len() ==> (#[trigger] b.stages[i]).plan
            == a.stages[i].plan,
    ensures
        forall|id: Seq<char>| #[trigger] a.has_worker(id) == b.has_worker(id),
        forall|id: Seq<char>| a.has_worker(id) == #[trigger] b.has_worker(id),
        forall|q: Seq<char>, s: StageId| #[trigger] a.has_stage(q, s) == b.has_stage(q, s),
        forall|q: Seq<char>, s: StageId| a.has_stage(q, s) == #[trigger] b.has_stage(q, s),
        forall|q: Seq<char>| #[trigger] a.has_query(q) == b.has_query(q),
        forall|q: Seq<char>| a.has_query(q) == #[trigger] b.has_query(q),
{
    assert forall|id: Seq<char>| #[trigger] a.has_worker(id) == b.has_worker(id) by {
        if a.has_worker(id) {
            let i = a.worker_index(id);
            assert(b.workers[i].id() == id);
        }
        if b.has_worker(id) {
            let i = b.worker_index(id);
            assert(a.workers[i].id() == id);
        }
    }
    assert forall|q: Seq<char>, s: StageId| #[trigger] a.has_stage(q, s) == b.has_stage(q, s) by {
        if a.has_stage(q, s) {
            let i = a.stage_index(q, s);
            assert(b.stages[i].is(q, s));
        }
        if b.has_stage(q, s) {
            let i = b.stage_index(q, s);
            assert(a.stages[i].is(q, s));
        }
    }
    assert forall|q: Seq<char>| #[trigger] a.has_query(q) == b.has_query(q) by {
        if a.has_query(q) {
            let i = choose|i: int|
                0 <= i < a.stages.len() && (#[trigger] a.stages[i]).plan.query_id == q;
            assert(b.stages[i].plan.query_id == q);
        }
        if b.has_query(q) {
            let i = choose|i: int|
                0 <= i < b.stages.len() && (#[trigger] b.stages[i]).plan.query_id == q;
            assert(a.stages[i].plan.query_id == q);
        }
    }
}

/// A new coordinator is valid.
pub proof fn initial_is_valid(config: crate::coordinator::CoordinatorConfig)
    requires
        config.check() is Ok,
    ensures
        CoordinatorState::initial(config).wf(),
{
}

/// A submitted stage keeps a state valid.
#[verifier::spinoff_prover]
#[verifier::rlimit(60)]
pub proof fn submission_keeps_validity(
    state: CoordinatorState,
    plan: StagePlanView,
    next: CoordinatorState,
)
    requires
        state.wf(),
        state.submission_check(plan) is Ok,
        state.is_with_stage(CoordinatorState::fresh_stage(plan), next),
    ensures
        next.wf(),
{
    let stage = CoordinatorState::fresh_stage(plan);
    let at = choose|at: int|
        0 <= at <= state.stages.len() && next.stages == #[trigger] state.stages.insert(at, stage);
    assert forall|q: Seq<char>, s: StageId| #[trigger] state.has_stage(q, s) implies next.has_stage(
        q,
        s,
    ) by {
        let i = state.stage_index(q, s);
        let j = if i < at { i } else { i + 1 };
        assert(next.stages[j] == state.stages[i]);
        assert(next.stages[j].is(q, s));
    }
    assert forall|id: Seq<char>| #[trigger] state.has_worker(id) implies next.has_worker(id) by {
        let i = state.worker_index(id);
        assert(next.workers[i].id() == id);
    }
    assert forall|i: int| 0 <= i < next.workers.len() implies next.worker_wf(
        #[trigger] next.workers[i],
    ) by {
        let worker = state.workers[i];
        assert(state.worker_wf(worker));
        count_after_insert(state.stages, at, stage, next.stages.len() as int, worker.id());
    }
    assert forall|i: int| 0 <= i < next.stages.len() implies next.stage_wf(
        #[trigger] next.stages[i],
    ) by {
        if i == at {
            dependencies_are_there(state, plan, 0);
            assert forall|k: int| 0 <= k < plan.input_stages.len() implies next.has_stage(
                plan.query_id,
                #[trigger] plan.input_stages[k],
            ) by {
                assert(state.has_stage(plan.query_id, plan.input_stages[k]));
            }
        } else {
            let old = state.stages[if i < at { i } else { i - 1 }];
            assert(next.stages[i] == old);
            assert(state.stage_wf(old));
            assert forall|p: int| 0 <= p < old.partitions.len() implies next.partition_wf(
                old.plan,
                p,
                #[trigger] old.partitions[p],
            ) by {
                assert(state.partition_wf(old.plan, p, old.partitions[p]));
            }
        }
    }
    assert forall|i: int| 0 <= i < next.cancelled.len() implies next.has_query(
        (#[trigger] next.cancelled[i]).query_id,
    ) by {
        let q = state.cancelled[i].query_id;
        assert(state.has_query(q));
        let k = choose|k: int|
            0 <= k < state.stages.len() && (#[trigger] state.stages[k]).plan.query_id == q;
        let j = if k < at { k } else { k + 1 };
        assert(next.stages[j] == state.stages[k]);
    }
}

proof fn dependencies_are_there(state: CoordinatorState, plan: StagePlanView, from: int)
    requires
        0 <= from,
        state.dependencies_check(plan, from) is Ok,
    ensures
        forall|k: int|
            from <= k < plan.input_stages.len() ==> state.has_stage(
                plan.query_id,
                #[trigger] plan.input_stages[k],
            ),
    decreases plan.input_stages.len() - from,
{
    if from < plan.input_stages.len() {
        dependencies_are_there(state, plan, from + 1);
    }
}

/// A registration keeps a state valid.
pub proof fn registration_keeps_validity(
    state: CoordinatorState,
    registration: WorkerRegistrationView,
    received_at_ms: u64,
    next: CoordinatorState,
)
    requires
        state.wf(),
        registration.check() is Ok,
        !state.has_worker(registration.worker_id),
        state.is_with_worker(
            CoordinatorState::fresh_worker(registration, received_at_ms),
            next,
        ),
    ensures
        next.wf(),
{
    let worker = CoordinatorState::fresh_worker(registration, received_at_ms);
    let at = choose|at: int|
        0 <= at <= state.workers.len() && next.workers == #[trigger] state.workers.insert(
            at,
            worker,
        );
    assert forall|id: Seq<char>| #[trigger] state.has_worker(id) implies next.has_worker(id) by {
        let i = state.worker_index(id);
        let j = if i < at { i } else { i + 1 };
        assert(next.workers[j] == state.workers[i]);
        assert(next.workers[j].id() == id);
    }
    assert forall|q: Seq<char>, s: StageId| #[trigger] state.has_stage(q, s) implies next.has_stage(
        q,
        s,
    ) by {
        let i = state.stage_index(q, s);
        assert(next.stages[i].is(q, s));
    }
    nobody_holds_leases(state, registration.worker_id, state.stages.len() as int);
    assert forall|i: int| 0 <= i < next.workers.len() implies next.worker_wf(
        #[trigger] next.workers[i],
    ) by {
        if i != at {
            let old = state.workers[if i < at { i } else { i - 1 }];
            assert(next.workers[i] == old);
            assert(state.worker_wf(old));
        }
    }
    assert forall|i: int| 0 <= i < next.stages.len() implies next.stage_wf(
        #[trigger] next.stages[i],
    ) by {
        let old = state.stages[i];
        assert(state.stage_wf(old));
        assert forall|p: int| 0 <= p < old.partitions.len() implies next.partition_wf(
            old.plan,
            p,
            #[trigger] old.partitions[p],
        ) by {
            assert(state.partition_wf(old.plan, p, old.partitions[p]));
        }
    }
    assert forall|i: int| 0 <= i < next.cancelled.len() implies next.has_query(
        (#[trigger] next.cancelled[i]).query_id,
    ) by {
        let q = state.cancelled[i].query_id;
        assert(state.has_query(q));
        let k = choose|k: int|
            0 <= k < state.stages.len() && (#[trigger] state.stages[k]).plan.query_id == q;
        assert(next.stages[k].plan.query_id == q);
    }
}

/// A worker that is not registered holds no leases.
proof fn nobody_holds_leases(state: CoordinatorState, id: Seq<char>, upto: int)
    requires
        state.wf(),
        !state.has_worker(id),
        0 <= upto <= state.stages.len(),
    ensures
        crate::coordinator::model::count_in_stages(state.stages, upto, leased(id)) == 0,
    decreases upto,
{
    if upto > 0 {
        nobody_holds_leases(state, id, upto - 1);
        let stage = state.stages[upto - 1];
        assert(state.stage_wf(stage));
        assert forall|p: int| 0 <= p < stage.partitions.len() implies !(
        #[trigger] stage.partitions[p]).leased_to(id) by {
            assert(state.partition_wf(stage.plan, p, stage.partitions[p]));
        }
        crate::coordinator::counting::no_lease_counts_nothing(
            stage,
            stage.partitions.len() as int,
            id,
        );
    }
}

/// A change of one worker's record keeps a state valid where the new record is valid.
proof fn worker_change_keeps_validity(state: CoordinatorState, w: int, worker: WorkerState)
    requires
        state.wf(),
        0 <= w < state.workers.len(),
        worker.id() == state.workers[w].id(),
        state.worker_wf(worker),
    ensures
        state.with_worker(w, worker).wf(),
{
    let next = state.with_worker(w, worker);
    assert forall|i: int, j: int| 0 <= i < j < next.workers.len() implies before(
        (#[trigger] next.workers[i]).id(),
        (#[trigger] next.workers[j]).id(),
    ) by {
        assert(before(state.workers[i].id(), state.workers[j].id()));
    }
    same_names(state, next);
    assert forall|i: int| 0 <= i < next.workers.len() implies next.worker_wf(
        #[trigger] next.workers[i],
    ) by {
        assert(state.worker_wf(state.workers[i]));
    }
    assert forall|i: int| 0 <= i < next.stages.len() implies next.stage_wf(
        #[trigger] next.stages[i],
    ) by {
        let old = state.stages[i];
        assert(state.stage_wf(old));
        assert forall|p: int| 0 <= p < old.partitions.len() implies next.partition_wf(
            old.plan,
            p,
            #[trigger] old.partitions[p],
        ) by {
            assert(state.partition_wf(old.plan, p, old.partitions[p]));
        }
    }
    assert forall|i: int| 0 <= i < next.cancelled.len() implies next.has_query(
        (#[trigger] next.cancelled[i]).query_id,
    ) by {
        assert(state.has_query(state.cancelled[i].query_id));
    }
}

/// A heartbeat keeps a state valid.
pub proof fn heartbeat_keeps_validity(
    state: CoordinatorState,
    beat: WorkerHeartbeatView,
    received_at_ms: u64,
)
    requires
        state.wf(),
    ensures
        state.heartbeat(beat, received_at_ms).0.wf(),
{
    if state.heartbeat(beat, received_at_ms).1 is Ok {
        let index = state.worker_index(beat.worker_id);
        let worker = state.workers[index];
        assert(state.worker_wf(worker));
        worker_change_keeps_validity(
            state,
            index,
            WorkerState {
                last_observed_at_ms: beat.observed_at_ms,
                last_received_at_ms: received_at_ms,
                available_slots: beat.available_slots,
                available_memory_bytes: beat.available_memory_bytes,
                alive: true,
                ..worker
            },
        );
    }
}

/// A change of one partition, and of the workers' free slots with it, keeps a state valid where
/// the new records are valid.
proof fn partition_change_keeps_validity(
    state: CoordinatorState,
    s: int,
    p: int,
    partition: PartitionState,
    next: CoordinatorState,
)
    requires
        state.wf(),
        0 <= s < state.stages.len(),
        0 <= p < state.stages[s].partitions.len(),
        state.partition_wf(state.stages[s].plan, p, partition),
        !state.is_cancelled(state.stages[s].plan.query_id),
        next.config == state.config,
        next.cancelled == state.cancelled,
        next.stages == state.with_partition(s, p, partition).stages,
        next.workers.len() == state.workers.len(),
        forall|i: int|
            0 <= i < state.workers.len() ==> {
                &&& (#[trigger] next.workers[i]).id() == state.workers[i].id()
                &&& next.worker_wf(next.workers[i])
            },
    ensures
        next.wf(),
{
    assert forall|i: int, j: int| 0 <= i < j < next.workers.len() implies before(
        (#[trigger] next.workers[i]).id(),
        (#[trigger] next.workers[j]).id(),
    ) by {
        assert(before(state.workers[i].id(), state.workers[j].id()));
    }
    assert forall|i: int, j: int| 0 <= i < j < next.stages.len() implies stage_before(
        #[trigger] next.stages[i],
        #[trigger] next.stages[j],
    ) by {
        assert(stage_before(state.stages[i], state.stages[j]));
    }
    same_names(state, next);
    assert forall|i: int| 0 <= i < next.stages.len() implies next.stage_wf(
        #[trigger] next.stages[i],
    ) by {
        let old = state.stages[i];
        assert(state.stage_wf(old));
        assert forall|q: int| 0 <= q < next.stages[i].partitions.len() implies next.partition_wf(
            old.plan,
            q,
            #[trigger] next.stages[i].partitions[q],
        ) by {
            assert(state.partition_wf(old.plan, q, old.partitions[q]));
        }
        assert forall|q: int|
            0 <= q < next.stages[i].partitions.len() && next.is_cancelled(
                old.plan.query_id,
            ) implies {
            ||| (#[trigger] next.stages[i].partitions[q]) is Succeeded
            ||| next.stages[i].partitions[q] is Cancelled
        } by {
            assert(state.is_cancelled(old.plan.query_id));
            assert(old.partitions[q] is Succeeded || old.partitions[q] is Cancelled);
        }
    }
    assert forall|i: int| 0 <= i < next.cancelled.len() implies next.has_query(
        (#[trigger] next.cancelled[i]).query_id,
    ) by {
        assert(state.has_query(state.cancelled[i].query_id));
    }
}

/// A report on a task keeps a state valid.
pub proof fn report_keeps_validity(
    state: CoordinatorState,
    worker: Seq<char>,
    task: TaskAttemptView,
    report: TaskStateView,
    received_at_ms: u64,
)
    requires
        state.wf(),
    ensures
        state.task_update(worker, task, report, received_at_ms).0.wf(),
{
    let (next, result) = state.task_update(worker, task, report, received_at_ms);
    if result is Ok {
        let s = state.stage_index(task.query_id, task.stage_id);
        let p = task.partition_id.0 as int;
        let stage = state.stages[s];
        assert(stage.is(task.query_id, task.stage_id));
        assert(state.stage_wf(stage));
        let partition = stage.partitions[p];
        assert(state.partition_wf(stage.plan, p, partition));
        let changed = reported(
            state.config.max_task_attempts,
            partition,
            report,
            received_at_ms,
        )->Ok_0;
        assert forall|i: int| 0 <= i < state.workers.len() implies {
            &&& (#[trigger] next.workers[i]).id() == state.workers[i].id()
            &&& next.worker_wf(next.workers[i])
        } by {
            let id = state.workers[i].id();
            assert(state.worker_wf(state.workers[i]));
            count_after_update(state, s, p, changed, state.stages.len() as int, id);
            if id == worker {
                a_lease_counts(state, s, p, id);
            }
        }
        partition_change_keeps_validity(state, s, p, changed, next);
    }
}

/// The pending partition that is found is one, and may be assigned.
pub proof fn pending_is_assignable(state: CoordinatorState, from: int)
    requires
        0 <= from,
    ensures
        state.pending_from(from) matches Some((s, p)) ==> {
            &&& from <= s < state.stages.len()
            &&& 0 <= p < state.stages[s].partitions.len()
            &&& state.is_assignable(state.stages[s])
            &&& state.stages[s].partitions[p] is Pending
        },
    decreases state.stages.len() - from,
{
    if from < state.stages.len() {
        pending_partition_is_pending(state.stages[from], 0);
        pending_is_assignable(state, from + 1);
    }
}

proof fn pending_partition_is_pending(stage: StageState, from: int)
    requires
        0 <= from,
    ensures
        stage.pending_from(from) matches Some(p) ==> {
            &&& from <= p < stage.partitions.len()
            &&& stage.partitions[p] is Pending
        },
    decreases stage.partitions.len() - from,
{
    if from < stage.partitions.len() {
        pending_partition_is_pending(stage, from + 1);
    }
}

/// The free worker that is found is one.
pub proof fn free_worker_is_free(workers: Seq<WorkerState>, from: int)
    requires
        0 <= from,
    ensures
        free_worker_from(workers, from) matches Some(w) ==> from <= w < workers.len()
            && workers[w].is_free(),
    decreases workers.len() - from,
{
    if from < workers.len() {
        free_worker_is_free(workers, from + 1);
    }
}

/// An assignment keeps a state valid, and the message that announces it is valid.
pub proof fn assignment_keeps_validity(state: CoordinatorState, w: int, now_ms: u64)
    requires
        state.wf(),
        0 <= w < state.workers.len(),
        state.workers[w].is_free(),
    ensures
        state.assigned(w, now_ms).0.wf(),
        state.assigned(w, now_ms).1 matches Ok(Some(message)) ==> message.check() is Ok,
{
    let (next, result) = state.assigned(w, now_ms);
    pending_is_assignable(state, 0);
    if let Ok(Some(message)) = result {
        let (s, p) = state.pending_from(0)->Some_0;
        let stage = state.stages[s];
        assert(state.stage_wf(stage));
        assert(state.partition_wf(stage.plan, p, stage.partitions[p]));
        let worker = state.workers[w];
        assert(state.worker_wf(worker));
        let task = state.attempt_at(s, p);
        let lease = state.lease_for(w, now_ms);
        let changed = PartitionState::Active {
            task,
            worker_id: worker.id(),
            lease,
            started_at_ms: None,
        };
        assert(state.has_worker(worker.id()));
        assert forall|i: int| 0 <= i < state.workers.len() implies {
            &&& (#[trigger] next.workers[i]).id() == state.workers[i].id()
            &&& next.worker_wf(next.workers[i])
        } by {
            let id = state.workers[i].id();
            assert(state.worker_wf(state.workers[i]));
            count_after_update(state, s, p, changed, state.stages.len() as int, id);
            worker_index_is(state, i);
            worker_index_is(state, w);
        }
        partition_change_keeps_validity(state, s, p, changed, next);
    }
}

/// A cancellation keeps a state valid.
pub proof fn cancellation_keeps_validity(
    state: CoordinatorState,
    query_id: Seq<char>,
    reason: Seq<char>,
)
    requires
        state.wf(),
    ensures
        state.cancel_query(query_id, reason).0.wf(),
{
    let (next, result) = state.cancel_query(query_id, reason);
    if result is Ok && !state.is_cancelled_for(query_id, reason) {
        assert(next == state.with_cancelled(query_id, reason));
        assert forall|i: int, j: int| 0 <= i < j < next.workers.len() implies before(
            (#[trigger] next.workers[i]).id(),
            (#[trigger] next.workers[j]).id(),
        ) by {
            assert(before(state.workers[i].id(), state.workers[j].id()));
        }
        assert forall|i: int, j: int| 0 <= i < j < next.stages.len() implies stage_before(
            #[trigger] next.stages[i],
            #[trigger] next.stages[j],
        ) by {
            assert(stage_before(state.stages[i], state.stages[j]));
        }
        assert forall|i: int, j: int| 0 <= i < j < next.cancelled.len() implies (
        #[trigger] next.cancelled[i]).query_id != (#[trigger] next.cancelled[j]).query_id by {
            if j < state.cancelled.len() {
                assert(state.cancelled[i].query_id != state.cancelled[j].query_id);
            } else {
                assert(state.cancelled[i] == next.cancelled[i]);
            }
        }
        same_names(state, next);
        assert forall|i: int| 0 <= i < next.workers.len() implies next.worker_wf(
            #[trigger] next.workers[i],
        ) by {
            let worker = state.workers[i];
            assert(state.worker_wf(worker));
            count_after_cancel(
                state,
                query_id,
                reason,
                state.stages.len() as int,
                worker.id(),
            );
        }
        assert forall|q: Seq<char>| #[trigger] next.is_cancelled(q) implies state.is_cancelled(q)
            || q == query_id by {
            let i = choose|i: int|
                0 <= i < next.cancelled.len() && (#[trigger] next.cancelled[i]).query_id == q;
            if i < state.cancelled.len() {
                assert(state.cancelled[i].query_id == q);
            }
        }
        assert forall|i: int| 0 <= i < next.stages.len() implies next.stage_wf(
            #[trigger] next.stages[i],
        ) by {
            let old = state.stages[i];
            assert(state.stage_wf(old));
            assert forall|p: int|
                0 <= p < next.stages[i].partitions.len() implies next.partition_wf(
                old.plan,
                p,
                #[trigger] next.stages[i].partitions[p],
            ) by {
                assert(state.partition_wf(old.plan, p, old.partitions[p]));
            }
            assert forall|p: int|
                0 <= p < next.stages[i].partitions.len() && next.is_cancelled(
                    old.plan.query_id,
                ) implies {
                ||| (#[trigger] next.stages[i].partitions[p]) is Succeeded
                ||| next.stages[i].partitions[p] is Cancelled
            } by {
                if old.plan.query_id != query_id {
                    assert(state.is_cancelled(old.plan.query_id));
                    assert(old.partitions[p] is Succeeded || old.partitions[p] is Cancelled);
                }
            }
        }
        assert forall|i: int| 0 <= i < next.cancelled.len() implies next.has_query(
            (#[trigger] next.cancelled[i]).query_id,
        ) by {
            if i < state.cancelled.len() {
                assert(state.has_query(state.cancelled[i].query_id));
            }
        }
    }
}

/// A message from a worker keeps a state valid.
pub proof fn message_keeps_validity(
    state: CoordinatorState,
    message: WorkerMessageView,
    received_at_ms: u64,
    next: CoordinatorState,
    result: Result<(), ErrorView>,
)
    requires
        state.wf(),
        state.handles(message, received_at_ms, next, result),
    ensures
        next.wf(),
{
    if message.check() is Ok {
        time_keeps_validity(state, received_at_ms);
        let now = state.advanced(received_at_ms);
        match message {
            WorkerMessageView::Register { registration, .. } => {
                if !now.has_worker(registration.worker_id) {
                    registration_keeps_validity(now, registration, received_at_ms, next);
                }
            },
            WorkerMessageView::Heartbeat { heartbeat, .. } => {
                heartbeat_keeps_validity(now, heartbeat, received_at_ms);
            },
            WorkerMessageView::TaskUpdate { worker_id, task, state: report, .. } => {
                report_keeps_validity(now, worker_id, task, report, received_at_ms);
            },
        }
    }
}

/// Asking for a task keeps a state valid.
pub proof fn next_assignment_keeps_validity(state: CoordinatorState, now_ms: u64)
    requires
        state.wf(),
    ensures
        state.next_assignment(now_ms).0.wf(),
        state.next_assignment(now_ms).1 matches Ok(Some(message)) ==> message.check() is Ok,
{
    time_keeps_validity(state, now_ms);
    let now = state.advanced(now_ms);
    free_worker_is_free(now.workers, 0);
    if let Some(w) = free_worker_from(now.workers, 0) {
        assignment_keeps_validity(now, w, now_ms);
    }
}

/// A worker's asking for a task keeps a state valid.
pub proof fn next_assignment_for_keeps_validity(
    state: CoordinatorState,
    worker: Seq<char>,
    now_ms: u64,
)
    requires
        state.wf(),
    ensures
        state.next_assignment_for(worker, now_ms).0.wf(),
        state.next_assignment_for(worker, now_ms).1 matches Ok(Some(message)) ==> message.check()
            is Ok,
{
    time_keeps_validity(state, now_ms);
    let now = state.advanced(now_ms);
    if now.has_worker(worker) && now.workers[now.worker_index(worker)].is_free() {
        assignment_keeps_validity(now, now.worker_index(worker), now_ms);
    }
}

/// A worker that asks for a task is never handed the lease of another.
pub proof fn a_worker_is_assigned_only_its_own_lease(
    state: CoordinatorState,
    worker: Seq<char>,
    now_ms: u64,
)
    requires
        state.wf(),
    ensures
        state.next_assignment_for(worker, now_ms).1 matches Ok(
            Some(CoordinatorMessageView::AssignTask { lease, .. }),
        ) ==> lease.worker_id == worker,
{
}

/// A task is assigned only once every stage that its own reads from has succeeded, never for a
/// cancelled query, and for the lease time from now.
pub proof fn an_assignment_is_ready(state: CoordinatorState, now_ms: u64)
    requires
        state.wf(),
    ensures
        state.next_assignment(now_ms).1 matches Ok(
            Some(CoordinatorMessageView::AssignTask { stage, task, lease, .. }),
        ) ==> {
            let now = state.advanced(now_ms);
            &&& !state.is_cancelled(stage.query_id)
            &&& now.has_stage(stage.query_id, stage.stage_id)
            &&& forall|k: int|
                0 <= k < stage.input_stages.len() ==> now.stage_succeeded(
                    stage.query_id,
                    #[trigger] stage.input_stages[k],
                )
            &&& task.attempt < state.config.max_task_attempts
            &&& lease.issued_at_ms == now_ms
            &&& lease.expires_at_ms == now_ms + state.config.lease_duration_ms
        },
{
    time_keeps_validity(state, now_ms);
    let now = state.advanced(now_ms);
    pending_is_assignable(now, 0);
    if let Some((s, p)) = now.pending_from(0) {
        let stage = now.stages[s];
        stage_index_is(now, s);
        assert(now.stage_wf(stage));
        assert(now.partition_wf(stage.plan, p, stage.partitions[p]));
        if state.is_cancelled(stage.plan.query_id) {
            let i = choose|i: int|
                0 <= i < state.cancelled.len() && (#[trigger] state.cancelled[i]).query_id
                    == stage.plan.query_id;
            assert(now.cancelled[i].query_id == stage.plan.query_id);
        }
    }
}

/// A cancelled query stays cancelled, and none of its partitions waits or runs again.
pub proof fn a_cancelled_query_stands_still(state: CoordinatorState, s: int, p: int)
    requires
        state.wf(),
        0 <= s < state.stages.len(),
        0 <= p < state.stages[s].partitions.len(),
        state.is_cancelled(state.stages[s].plan.query_id),
    ensures
        state.stages[s].partitions[p] is Succeeded || state.stages[s].partitions[p] is Cancelled,
{
    assert(state.stage_wf(state.stages[s]));
}

/// Cancelling a query twice for one reason is cancelling it once, with the same answer.
pub proof fn cancelling_again_changes_nothing(
    state: CoordinatorState,
    query_id: Seq<char>,
    reason: Seq<char>,
)
    requires
        state.wf(),
        state.cancel_query(query_id, reason).1 is Ok,
    ensures
        ({
            let (once, answer) = state.cancel_query(query_id, reason);
            once.cancel_query(query_id, reason) == (once, answer)
        }),
{
    let (once, answer) = state.cancel_query(query_id, reason);
    if !state.is_cancelled_for(query_id, reason) {
        let last = state.cancelled.len() as int;
        assert(once.cancelled[last] == Cancellation { query_id, reason });
        same_names(state, once);
    }
}

/// A refused report changes nothing.
pub proof fn a_refused_report_changes_nothing(
    state: CoordinatorState,
    worker: Seq<char>,
    task: TaskAttemptView,
    report: TaskStateView,
    received_at_ms: u64,
)
    ensures
        state.task_update(worker, task, report, received_at_ms).1 is Err ==> state.task_update(
            worker,
            task,
            report,
            received_at_ms,
        ).0 == state,
{
}

/// A report on an attempt other than the one that holds the partition's lease is refused.
pub proof fn a_stale_report_is_refused(
    state: CoordinatorState,
    worker: Seq<char>,
    task: TaskAttemptView,
    report: TaskStateView,
    received_at_ms: u64,
    s: int,
)
    requires
        state.wf(),
        0 <= s < state.stages.len(),
        state.stages[s].is(task.query_id, task.stage_id),
        task.partition_id.0 < state.stages[s].partitions.len(),
        !(state.stages[s].partitions[task.partition_id.0 as int] matches PartitionState::Active {
            task: active,
            worker_id,
            ..
        } && active == task && worker_id == worker),
    ensures
        state.task_update(worker, task, report, received_at_ms).1 is Err,
{
    stage_index_is(state, s);
}

/// At most one worker holds the lease of a partition, and it owns what it holds.
pub proof fn no_worker_exceeds_its_slots(state: CoordinatorState, w: int)
    requires
        state.wf(),
        0 <= w < state.workers.len(),
    ensures
        count(state.stages, leased(state.workers[w].id())) + state.workers[w].available_slots
            <= state.workers[w].registration.slots,
{
    assert(state.worker_wf(state.workers[w]));
}

/// The clock may read the same time twice: nothing more happens.
pub proof fn time_standing_still_changes_nothing(state: CoordinatorState, now_ms: u64)
    requires
        state.wf(),
    ensures
        state.advanced(now_ms).advanced(now_ms) == state.advanced(now_ms),
{
    let once = state.advanced(now_ms);
    let twice = once.advanced(now_ms);
    time_keeps_validity(state, now_ms);
    assert forall|id: Seq<char>| !once.worker_times_out(id, now_ms) by {
        if once.worker_times_out(id, now_ms) {
            let i = choose|i: int|
                0 <= i < once.workers.len() && (#[trigger] once.workers[i]).id() == id
                    && once.times_out(once.workers[i], now_ms);
            assert(once.workers[i] == state.advanced_worker(state.workers[i], now_ms));
        }
    }
    assert forall|i: int| 0 <= i < once.stages.len() implies twice.stages[i]
        == #[trigger] once.stages[i] by {
        assert forall|p: int| 0 <= p < once.stages[i].partitions.len() implies
            twice.stages[i].partitions[p] == #[trigger] once.stages[i].partitions[p] by {
            let old = state.stages[i].partitions[p];
            assert(once.stages[i].partitions[p] == state.advanced_partition(old, now_ms));
        }
        assert(twice.stages[i].partitions =~= once.stages[i].partitions);
    }
    assert forall|i: int| 0 <= i < once.workers.len() implies twice.workers[i]
        == #[trigger] once.workers[i] by {
        let worker = once.workers[i];
        assert(!once.worker_times_out(worker.id(), now_ms));
        times_out_is_by_worker(once, i, now_ms);
        count_after_advance(once, now_ms, once.stages.len() as int, worker.id());
        assert(twice.stages =~= once.stages);
        assert(once.worker_wf(worker));
    }
    assert(twice.workers =~= once.workers);
    assert(twice.stages =~= once.stages);
}

} // verus!

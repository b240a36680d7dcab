//! What holds over any sequence of requests to a coordinator.

use crate::coordinator::laws::{
    cancellation_keeps_validity, message_keeps_validity, next_assignment_for_keeps_validity,
    next_assignment_keeps_validity, pending_is_assignable, stage_index_is,
    submission_keeps_validity, time_keeps_validity,
};
use crate::coordinator::model::{coordinator_failure, CoordinatorState, PartitionState};
use crate::coordinator::StageStatus;
use crate::error::ErrorView;
use crate::protocol::{
    CoordinatorMessageView, StageId, StagePlanView, TaskAttemptView, TaskStateView,
    WorkerMessageView,
};
use vstd::prelude::*;

verus! {

/// A request that can change a coordinator's state.
pub ghost enum Request {
    AdvanceTime { now_ms: u64 },
    SubmitStage { plan: StagePlanView },
    Message { message: WorkerMessageView, received_at_ms: u64 },
    NextAssignment { now_ms: u64 },
    NextAssignmentFor { worker: Seq<char>, now_ms: u64 },
    CancelQuery { query_id: Seq<char>, reason: Seq<char> },
}

/// The assignment in an answer, if there is one.
pub open spec fn assignment(r: Result<Option<CoordinatorMessageView>, ErrorView>) -> Option<
    CoordinatorMessageView,
> {
    match r {
        Ok(message) => message,
        Err(_) => None,
    }
}

/// Whether a request leads from one state to the next, and hands out an assignment or none.
pub open spec fn steps(
    state: CoordinatorState,
    request: Request,
    next: CoordinatorState,
    issued: Option<CoordinatorMessageView>,
) -> bool {
    match request {
        Request::AdvanceTime { now_ms } => next == state.advanced(now_ms) && issued is None,
        Request::SubmitStage { plan } => issued is None && if state.submission_check(plan) is Ok {
            state.is_with_stage(CoordinatorState::fresh_stage(plan), next)
        } else {
            next == state
        },
        Request::Message { message, received_at_ms } => issued is None && exists|
            result: Result<(), ErrorView>,
        | #[trigger] state.handles(message, received_at_ms, next, result),
        Request::NextAssignment { now_ms } => {
            &&& next == state.next_assignment(now_ms).0
            &&& issued == assignment(state.next_assignment(now_ms).1)
        },
        Request::NextAssignmentFor { worker, now_ms } => {
            &&& next == state.next_assignment_for(worker, now_ms).0
            &&& issued == assignment(state.next_assignment_for(worker, now_ms).1)
        },
        Request::CancelQuery { query_id, reason } => next == state.cancel_query(
            query_id,
            reason,
        ).0 && issued is None,
    }
}

/// Requests one after the other: the states before and after each, and what each handed out.
pub ghost struct History {
    pub states: Seq<CoordinatorState>,
    pub requests: Seq<Request>,
    pub issued: Seq<Option<CoordinatorMessageView>>,
}

impl History {
    pub open spec fn wf(self) -> bool {
        &&& self.states.len() == self.requests.len() + 1
        &&& self.issued.len() == self.requests.len()
        &&& self.states[0].wf()
        &&& forall|i: int|
            0 <= i < self.requests.len() ==> steps(
                self.states[i],
                #[trigger] self.requests[i],
                self.states[i + 1],
                self.issued[i],
            )
    }
}

/// Every request keeps a state valid.
proof fn a_step_keeps_validity(
    state: CoordinatorState,
    request: Request,
    next: CoordinatorState,
    issued: Option<CoordinatorMessageView>,
)
    requires
        state.wf(),
        steps(state, request, next, issued),
    ensures
        next.wf(),
{
    match request {
        Request::AdvanceTime { now_ms } => {
            time_keeps_validity(state, now_ms);
        },
        Request::SubmitStage { plan } => {
            if state.submission_check(plan) is Ok {
                submission_keeps_validity(state, plan, next);
            }
        },
        Request::Message { message, received_at_ms } => {
            let result = choose|result: Result<(), ErrorView>| #[trigger]
                state.handles(message, received_at_ms, next, result);
            message_keeps_validity(state, message, received_at_ms, next, result);
        },
        Request::NextAssignment { now_ms } => {
            next_assignment_keeps_validity(state, now_ms);
        },
        Request::NextAssignmentFor { worker, now_ms } => {
            next_assignment_for_keeps_validity(state, worker, now_ms);
        },
        Request::CancelQuery { query_id, reason } => {
            cancellation_keeps_validity(state, query_id, reason);
        },
    }
}

/// Every state that requests lead to is valid.
pub proof fn every_state_is_valid(history: History, at: int)
    requires
        history.wf(),
        0 <= at < history.states.len(),
    ensures
        history.states[at].wf(),
    decreases at,
{
    if at > 0 {
        every_state_is_valid(history, at - 1);
        let request = history.requests[at - 1];
        a_step_keeps_validity(
            history.states[at - 1],
            request,
            history.states[at],
            history.issued[at - 1],
        );
    }
}

// ---- cancelled queries

/// Every request keeps what was cancelled cancelled.
proof fn a_step_keeps_cancellations(
    state: CoordinatorState,
    request: Request,
    next: CoordinatorState,
    issued: Option<CoordinatorMessageView>,
    query_id: Seq<char>,
)
    requires
        steps(state, request, next, issued),
        state.is_cancelled(query_id),
    ensures
        next.is_cancelled(query_id),
{
    let i = choose|i: int|
        0 <= i < state.cancelled.len() && (#[trigger] state.cancelled[i]).query_id == query_id;
    if let Request::Message { message, received_at_ms } = request {
        let result = choose|result: Result<(), ErrorView>| #[trigger]
            state.handles(message, received_at_ms, next, result);
    }
    assert(next.cancelled[i] == state.cancelled[i]);
}

/// Once a query is cancelled it is so for good: whatever is asked of a coordinator later, each stage
/// of the query reads as cancelled, none is taken on any more, none of its tasks is handed out, no
/// worker works for it, and every report on one of its tasks is refused.
pub proof fn cancelled_queries_stay_cancelled(
    history: History,
    at: int,
    later: int,
    query_id: Seq<char>,
)
    requires
        history.wf(),
        0 <= at <= later < history.states.len(),
        history.states[at].is_cancelled(query_id),
    ensures
        history.states[later].is_cancelled(query_id),
        ({
            let state = history.states[later];
            &&& forall|stage_id: StageId| #[trigger]
                state.has_stage(query_id, stage_id) ==> state.stage_status(query_id, stage_id)
                    == Ok::<StageStatus, ErrorView>(StageStatus::Cancelled)
            &&& forall|plan: StagePlanView|
                plan.query_id == query_id ==> (#[trigger] state.submission_check(plan)) is Err
            &&& forall|plan: StagePlanView|
                plan.query_id == query_id && plan.check() is Ok && plan.partition_count
                    <= state.config.max_stage_partitions ==> #[trigger] state.submission_check(plan)
                    == Err::<(), ErrorView>(
                    coordinator_failure("query "@ + query_id + " is already cancelled"@),
                )
            &&& forall|worker: Seq<char>| !#[trigger] state.works_for(worker, query_id)
            &&& forall|worker: Seq<char>, task: TaskAttemptView, report: TaskStateView, time: u64|
                task.query_id == query_id ==> (#[trigger] state.task_update(
                    worker,
                    task,
                    report,
                    time,
                )).1 is Err
        }),
        later < history.issued.len() ==> (history.issued[later] matches Some(
            CoordinatorMessageView::AssignTask { stage, task, .. },
        ) ==> stage.query_id != query_id && task.query_id != query_id),
    decreases later - at,
{
    let state = history.states[later];
    if at < later {
        cancelled_queries_stay_cancelled(history, at, later - 1, query_id);
        let request = history.requests[later - 1];
        a_step_keeps_cancellations(
            history.states[later - 1],
            request,
            state,
            history.issued[later - 1],
            query_id,
        );
    }
    every_state_is_valid(history, later);
    assert forall|worker: Seq<char>| !#[trigger] state.works_for(worker, query_id) by {
        if state.works_for(worker, query_id) {
            let (s, p) = choose|s: int, p: int|
                0 <= s < state.stages.len() && 0 <= p < state.stages[s].partitions.len()
                    && state.stages[s].plan.query_id == query_id && (
                #[trigger] state.stages[s].partitions[p]).leased_to(worker);
            assert(state.stage_wf(state.stages[s]));
        }
    }
    assert forall|worker: Seq<char>, task: TaskAttemptView, report: TaskStateView, time: u64|
        task.query_id == query_id implies (#[trigger] state.task_update(
        worker,
        task,
        report,
        time,
    )).1 is Err by {
        if state.has_stage(task.query_id, task.stage_id) {
            let s = state.stage_index(task.query_id, task.stage_id);
            assert(0 <= s < state.stages.len() && state.stages[s].is(
                task.query_id,
                task.stage_id,
            ));
            assert(state.stage_wf(state.stages[s]));
        }
    }
    if later < history.issued.len() {
        let request = history.requests[later];
        a_step_assigns_what_waits(
            state,
            request,
            history.states[later + 1],
            history.issued[later],
        );
    }
}

// ---- attempts

/// The time at which a request hands out assignments.
pub open spec fn time_of(request: Request) -> u64 {
    match request {
        Request::NextAssignment { now_ms } => now_ms,
        Request::NextAssignmentFor { now_ms, .. } => now_ms,
        _ => 0,
    }
}

/// What an assignment hands out waits for it: the partition is nobody's, and the attempt is the next
/// one.
proof fn a_step_assigns_what_waits(
    state: CoordinatorState,
    request: Request,
    next: CoordinatorState,
    issued: Option<CoordinatorMessageView>,
)
    requires
        state.wf(),
        steps(state, request, next, issued),
    ensures
        issued matches Some(message) ==> {
            let now = state.advanced(time_of(request));
            &&& message is AssignTask
            &&& now.pending_from(0) is Some
            &&& ({
                let (s, p) = now.pending_from(0)->Some_0;
                let task = message->AssignTask_task;
                &&& 0 <= s < now.stages.len()
                &&& 0 <= p < now.stages[s].partitions.len()
                &&& p <= u32::MAX
                &&& message->AssignTask_stage == now.stages[s].plan
                &&& task == now.attempt_at(s, p)
                &&& now.stages[s].partitions[p] == (PartitionState::Pending {
                    next_attempt: task.attempt,
                })
                &&& task.attempt < now.config.max_task_attempts
                &&& !state.is_cancelled(now.stages[s].plan.query_id)
                &&& next.stages == now.stages.update(
                    s,
                    now.stages[s].with_partition(p, next.stages[s].partitions[p]),
                )
                &&& (next.stages[s].partitions[p] matches PartitionState::Active { task: active, .. }
                    && active == task)
            })
        },
{
    if issued is Some {
        let now = state.advanced(time_of(request));
        time_keeps_validity(state, time_of(request));
        pending_is_assignable(now, 0);
        let (s, p) = now.pending_from(0)->Some_0;
        assert(now.stage_wf(now.stages[s]));
        assert(now.partition_wf(now.stages[s].plan, p, now.stages[s].partitions[p]));
        assert(next.stages =~= now.stages.update(
            s,
            now.stages[s].with_partition(p, next.stages[s].partitions[p]),
        ));
        if state.is_cancelled(now.stages[s].plan.query_id) {
            let i = choose|i: int|
                0 <= i < state.cancelled.len() && (#[trigger] state.cancelled[i]).query_id
                    == now.stages[s].plan.query_id;
            assert(now.cancelled[i].query_id == now.stages[s].plan.query_id);
        }
    }
}

/// Whether a message hands out a task of a partition.
pub open spec fn is_for(
    issued: Option<CoordinatorMessageView>,
    query_id: Seq<char>,
    stage_id: StageId,
    partition: u32,
) -> bool {
    issued matches Some(CoordinatorMessageView::AssignTask { task, .. }) && task.query_id == query_id
        && task.stage_id == stage_id && task.partition_id.0 == partition
}

/// The attempts of a partition that the first `upto` requests handed out.
pub open spec fn attempts(
    history: History,
    query_id: Seq<char>,
    stage_id: StageId,
    partition: u32,
    upto: int,
) -> Seq<u32>
    decreases upto,
{
    if upto <= 0 {
        Seq::empty()
    } else {
        let before = attempts(history, query_id, stage_id, partition, upto - 1);
        if is_for(history.issued[upto - 1], query_id, stage_id, partition) {
            before.push(history.issued[upto - 1]->Some_0->AssignTask_task.attempt)
        } else {
            before
        }
    }
}

/// Whether a partition stands as it does after `count` attempts.
pub open spec fn is_after(partition: PartitionState, count: nat) -> bool {
    match partition {
        PartitionState::Pending { next_attempt } => count == next_attempt,
        PartitionState::Active { task, .. } => count == task.attempt + 1,
        PartitionState::Succeeded { task, .. } => count == task.attempt + 1,
        PartitionState::Failed { attempt, .. } => count == attempt + 1,
        PartitionState::Cancelled => true,
    }
}

/// Whether a partition of a state stands as it does after `count` attempts.
pub open spec fn stands_after(
    state: CoordinatorState,
    query_id: Seq<char>,
    stage_id: StageId,
    partition: u32,
    count: nat,
) -> bool {
    &&& !state.has_stage(query_id, stage_id) ==> count == 0
    &&& forall|s: int|
        0 <= s < state.stages.len() && (#[trigger] state.stages[s]).is(query_id, stage_id)
            && partition < state.stages[s].partitions.len() ==> is_after(
            state.stages[s].partitions[partition as int],
            count,
        )
}

/// Stages that change only within stand as before where their partitions do.
proof fn standing_is_by_partition(
    state: CoordinatorState,
    next: CoordinatorState,
    query_id: Seq<char>,
    stage_id: StageId,
    partition: u32,
    count: nat,
)
    requires
        stands_after(state, query_id, stage_id, partition, count),
        state.stages.len() == next.stages.len(),
        forall|s: int|
            0 <= s < state.stages.len() ==> (#[trigger] next.stages[s]).plan == state.stages[s].plan
                && next.stages[s].partitions.len() == state.stages[s].partitions.len(),
        forall|s: int|
            0 <= s < state.stages.len() && (#[trigger] next.stages[s]).is(query_id, stage_id)
                && partition < next.stages[s].partitions.len() && is_after(
                state.stages[s].partitions[partition as int],
                count,
            ) ==> is_after(next.stages[s].partitions[partition as int], count),
    ensures
        stands_after(next, query_id, stage_id, partition, count),
{
    if state.has_stage(query_id, stage_id) {
        let s = choose|s: int|
            0 <= s < state.stages.len() && (#[trigger] state.stages[s]).is(query_id, stage_id);
        assert(next.stages[s].is(query_id, stage_id));
    }
    assert forall|s: int|
        0 <= s < next.stages.len() && (#[trigger] next.stages[s]).is(query_id, stage_id)
            && partition < next.stages[s].partitions.len() implies is_after(
        next.stages[s].partitions[partition as int],
        count,
    ) by {
        assert(state.stages[s].is(query_id, stage_id));
    }
}

/// Every request that hands out a task of a partition hands out the next attempt, and others change
/// nothing of how many there were.
#[verifier::rlimit(60)]
proof fn a_step_counts_attempts(
    state: CoordinatorState,
    request: Request,
    next: CoordinatorState,
    issued: Option<CoordinatorMessageView>,
    query_id: Seq<char>,
    stage_id: StageId,
    partition: u32,
    count: nat,
)
    requires
        state.wf(),
        steps(state, request, next, issued),
        stands_after(state, query_id, stage_id, partition, count),
    ensures
        is_for(issued, query_id, stage_id, partition) ==> issued->Some_0->AssignTask_task.attempt
            == count && count < state.config.max_task_attempts && stands_after(
            next,
            query_id,
            stage_id,
            partition,
            count + 1,
        ),
        !is_for(issued, query_id, stage_id, partition) ==> stands_after(
            next,
            query_id,
            stage_id,
            partition,
            count,
        ),
        next.config == state.config,
{
    match request {
        Request::AdvanceTime { now_ms } => {
            standing_is_by_partition(state, next, query_id, stage_id, partition, count);
        },
        Request::SubmitStage { plan } => {
            if state.submission_check(plan) is Ok {
                let fresh = CoordinatorState::fresh_stage(plan);
                let at = choose|at: int|
                    0 <= at <= state.stages.len() && next.stages == #[trigger] state.stages.insert(
                        at,
                        fresh,
                    );
                if state.has_stage(query_id, stage_id) {
                    let s = choose|s: int|
                        0 <= s < state.stages.len() && (#[trigger] state.stages[s]).is(
                            query_id,
                            stage_id,
                        );
                    let moved = if s < at {
                        s
                    } else {
                        s + 1
                    };
                    assert(next.stages[moved] == state.stages[s]);
                }
                assert forall|s: int|
                    0 <= s < next.stages.len() && (#[trigger] next.stages[s]).is(query_id, stage_id)
                        && partition < next.stages[s].partitions.len() implies is_after(
                    next.stages[s].partitions[partition as int],
                    count,
                ) by {
                    if s < at {
                        assert(state.stages[s].is(query_id, stage_id));
                    } else if s > at {
                        assert(next.stages[s] == state.stages[s - 1]);
                        assert(state.stages[s - 1].is(query_id, stage_id));
                    }
                }
            }
        },
        Request::Message { message, received_at_ms } => {
            let result = choose|result: Result<(), ErrorView>| #[trigger]
                state.handles(message, received_at_ms, next, result);
            if message.check() is Ok {
                let now = state.advanced(received_at_ms);
                time_keeps_validity(state, received_at_ms);
                standing_is_by_partition(state, now, query_id, stage_id, partition, count);
                if let WorkerMessageView::TaskUpdate { worker_id, task, state: report, .. }
                    = message {
                    if result is Ok {
                        let s = now.stage_index(task.query_id, task.stage_id);
                        assert(0 <= s < now.stages.len());
                        assert(now.stage_wf(now.stages[s]));
                        assert(now.partition_wf(
                            now.stages[s].plan,
                            task.partition_id.0 as int,
                            now.stages[s].partitions[task.partition_id.0 as int],
                        ));
                        standing_is_by_partition(now, next, query_id, stage_id, partition, count);
                    }
                } else {
                    standing_is_by_partition(now, next, query_id, stage_id, partition, count);
                }
            }
        },
        Request::CancelQuery { query_id: query, reason } => {
            standing_is_by_partition(state, next, query_id, stage_id, partition, count);
        },
        Request::NextAssignment { .. } | Request::NextAssignmentFor { .. } => {
            let now = state.advanced(time_of(request));
            time_keeps_validity(state, time_of(request));
            standing_is_by_partition(state, now, query_id, stage_id, partition, count);
            a_step_assigns_what_waits(state, request, next, issued);
            if issued is Some {
                let (s, p) = now.pending_from(0)->Some_0;
                if is_for(issued, query_id, stage_id, partition) {
                    assert(now.stages[s].is(query_id, stage_id));
                    assert(now.has_stage(query_id, stage_id));
                    assert(next.stages[s].is(query_id, stage_id));
                    stage_index_is(now, s);
                    assert forall|t: int|
                        0 <= t < next.stages.len() && (#[trigger] next.stages[t]).is(
                            query_id,
                            stage_id,
                        ) && partition < next.stages[t].partitions.len() implies is_after(
                        next.stages[t].partitions[partition as int],
                        count + 1,
                    ) by {
                        assert(now.stages[t].is(query_id, stage_id));
                        stage_index_is(now, t);
                    }
                } else {
                    standing_is_by_partition(now, next, query_id, stage_id, partition, count);
                }
            } else {
                assert(next.stages == now.stages);
            }
        },
    }
}

/// The attempts of a partition are handed out as 0, 1, 2 and so on, without a gap and without a
/// repetition, and fewer than the configured number of them. Each is handed out only when the
/// partition waits for it, so after the lease of the one before has ended.
pub proof fn attempts_go_up_one_by_one(
    history: History,
    query_id: Seq<char>,
    stage_id: StageId,
    partition: u32,
    upto: int,
)
    requires
        history.wf(),
        history.states[0].stages.len() == 0,
        0 <= upto < history.states.len(),
    ensures
        ({
            let numbers = attempts(history, query_id, stage_id, partition, upto);
            &&& forall|i: int| 0 <= i < numbers.len() ==> #[trigger] numbers[i] == i
            &&& numbers.len() <= history.states[0].config.max_task_attempts
            &&& stands_after(
                history.states[upto],
                query_id,
                stage_id,
                partition,
                numbers.len(),
            )
        }),
        history.states[upto].config == history.states[0].config,
        upto < history.issued.len() && is_for(
            history.issued[upto],
            query_id,
            stage_id,
            partition,
        ) ==> {
            let now = history.states[upto].advanced(time_of(history.requests[upto]));
            exists|s: int|
                0 <= s < now.stages.len() && (#[trigger] now.stages[s]).is(query_id, stage_id)
                    && partition < now.stages[s].partitions.len()
                    && now.stages[s].partitions[partition as int] is Pending
        },
    decreases upto,
{
    every_state_is_valid(history, upto);
    if upto > 0 {
        attempts_go_up_one_by_one(history, query_id, stage_id, partition, upto - 1);
        every_state_is_valid(history, upto - 1);
        let request = history.requests[upto - 1];
        let before = attempts(history, query_id, stage_id, partition, upto - 1);
        a_step_counts_attempts(
            history.states[upto - 1],
            request,
            history.states[upto],
            history.issued[upto - 1],
            query_id,
            stage_id,
            partition,
            before.len(),
        );
    }
    if upto < history.issued.len() && is_for(history.issued[upto], query_id, stage_id, partition) {
        let request = history.requests[upto];
        a_step_assigns_what_waits(
            history.states[upto],
            request,
            history.states[upto + 1],
            history.issued[upto],
        );
        let now = history.states[upto].advanced(time_of(request));
        let (s, p) = now.pending_from(0)->Some_0;
        assert(now.stages[s].is(query_id, stage_id));
    }
}

} // verus!

//! Which messages are valid, and in what order they are delivered.

use crate::control_plane::{after_delivery, first_waiting, waiting_place, with_message, WaitingView};
use crate::fragment::MAX_PLAN_FRAGMENT_BYTES;
use crate::protocol::{
    blocks_check, dependency_check, text_id_check, CoordinatorMessageView, ShuffleBlockView,
    ShuffleLocationView, StageId, StagePlanView, TaskAttemptView, TaskLeaseView, TaskStateView,
    WorkerMessageView, WorkerRegistrationView, MAX_ID_BYTES, PROTOCOL_VERSION,
};
use crate::text::white_space;
use vstd::prelude::*;
use vstd::utf8::encode_utf8;

verus! {

// ---- what is valid

/// Whether a text says something.
pub open spec fn says_something(text: Seq<char>) -> bool {
    exists|i: int| 0 <= i < text.len() && !white_space(#[trigger] text[i])
}

/// Whether a text can name something: it says something and is not too long.
pub open spec fn is_identifier(text: Seq<char>) -> bool {
    says_something(text) && encode_utf8(text).len() <= MAX_ID_BYTES
}

/// An identifier is refused where it says nothing or is too long.
pub proof fn which_identifiers_are_valid(kind: Seq<char>, text: Seq<char>)
    ensures
        text_id_check(kind, text) is Ok <==> is_identifier(text),
{
}

proof fn dependencies_are_other_stages(stage: StageId, dependencies: Seq<StageId>, count: int)
    requires
        0 <= count <= dependencies.len(),
    ensures
        dependency_check(stage, dependencies, count) is Ok <==> {
            &&& forall|i: int| 0 <= i < count ==> #[trigger] dependencies[i] != stage
            &&& forall|i: int, j: int|
                0 <= i < j < count ==> #[trigger] dependencies[i] != #[trigger] dependencies[j]
        },
    decreases count,
{
    if count > 0 {
        dependencies_are_other_stages(stage, dependencies, count - 1);
        let before = dependencies.take(count - 1);
        let last = dependencies[count - 1];
        if before.contains(last) {
            let i = choose|i: int| 0 <= i < before.len() && before[i] == last;
            assert(dependencies[i] == dependencies[count - 1]);
        } else {
            assert forall|i: int| 0 <= i < count - 1 implies dependencies[i] != last by {
                assert(before[i] == dependencies[i]);
            }
        }
    }
}

/// A stage is valid where its query is named, it has partitions and a plan that is not too large, and it
/// reads of other stages only, of each once.
pub proof fn which_stages_are_valid(plan: StagePlanView)
    ensures
        plan.check() is Ok <==> {
            &&& is_identifier(plan.query_id)
            &&& plan.partition_count > 0
            &&& 0 < plan.plan_fragment.len() <= MAX_PLAN_FRAGMENT_BYTES
            &&& forall|i: int|
                0 <= i < plan.input_stages.len() ==> #[trigger] plan.input_stages[i]
                    != plan.stage_id
            &&& forall|i: int, j: int|
                0 <= i < j < plan.input_stages.len() ==> #[trigger] plan.input_stages[i]
                    != #[trigger] plan.input_stages[j]
        },
{
    which_identifiers_are_valid("query"@, plan.query_id);
    dependencies_are_other_stages(
        plan.stage_id,
        plan.input_stages,
        plan.input_stages.len() as int,
    );
}

/// A task is one of a stage where it names its query and its number and one of its partitions.
pub proof fn which_tasks_are_of_a_stage(task: TaskAttemptView, plan: StagePlanView)
    ensures
        task.check_for(plan) is Ok <==> is_identifier(task.query_id) && task.query_id
            == plan.query_id && task.stage_id == plan.stage_id && task.partition_id.0
            < plan.partition_count,
{
    which_identifiers_are_valid("query"@, task.query_id);
}

/// A lease is valid where it names its worker and ends after it begins.
pub proof fn which_leases_are_valid(lease: TaskLeaseView)
    ensures
        lease.check() is Ok <==> is_identifier(lease.worker_id) && lease.issued_at_ms
            < lease.expires_at_ms,
{
    which_identifiers_are_valid("worker"@, lease.worker_id);
}

/// A registration is valid where it names the worker, with a slot and some memory.
pub proof fn which_registrations_are_valid(registration: WorkerRegistrationView)
    ensures
        registration.check() is Ok <==> is_identifier(registration.worker_id) && registration.slots
            > 0 && registration.memory_bytes > 0,
{
    which_identifiers_are_valid("worker"@, registration.worker_id);
}

/// Whether a block can be had where it says: of the worker that reports it, or of an object store.
pub open spec fn can_be_had(location: ShuffleLocationView, worker: Seq<char>) -> bool {
    match location {
        ShuffleLocationView::Worker { worker_id } => is_identifier(worker_id) && worker_id == worker,
        ShuffleLocationView::Flight { worker_id, endpoint, ticket } => is_identifier(worker_id)
            && worker_id == worker && says_something(endpoint) && says_something(ticket),
        ShuffleLocationView::ObjectStore { uri } => says_something(uri),
    }
}

/// Whether a block is one of a task that a worker reports.
pub open spec fn is_block_of(
    block: ShuffleBlockView,
    task: TaskAttemptView,
    worker: Seq<char>,
) -> bool {
    block.producer == task && says_something(block.checksum) && can_be_had(block.location, worker)
}

proof fn which_blocks_are_valid(block: ShuffleBlockView, task: TaskAttemptView, worker: Seq<char>)
    ensures
        block.check_for(task, worker) is Ok <==> is_block_of(block, task, worker),
{
    match block.location {
        ShuffleLocationView::Worker { worker_id } => {
            which_identifiers_are_valid("worker"@, worker_id);
        },
        ShuffleLocationView::Flight { worker_id, .. } => {
            which_identifiers_are_valid("worker"@, worker_id);
        },
        _ => {},
    }
}

proof fn all_blocks_are_valid(
    blocks: Seq<ShuffleBlockView>,
    task: TaskAttemptView,
    worker: Seq<char>,
)
    ensures
        blocks_check(blocks, task, worker) is Ok <==> forall|i: int|
            0 <= i < blocks.len() ==> is_block_of(#[trigger] blocks[i], task, worker),
    decreases blocks.len(),
{
    if blocks.len() > 0 {
        which_blocks_are_valid(blocks[0], task, worker);
        let rest = blocks.drop_first();
        all_blocks_are_valid(rest, task, worker);
        if forall|i: int| 0 <= i < rest.len() ==> is_block_of(#[trigger] rest[i], task, worker) {
            assert forall|i: int| 1 <= i < blocks.len() implies is_block_of(
                #[trigger] blocks[i],
                task,
                worker,
            ) by {
                assert(rest[i - 1] == blocks[i]);
            }
        }
        if forall|i: int| 0 <= i < blocks.len() ==> is_block_of(#[trigger] blocks[i], task, worker) {
            assert forall|i: int| 0 <= i < rest.len() implies is_block_of(
                #[trigger] rest[i],
                task,
                worker,
            ) by {
                assert(rest[i] == blocks[i + 1]);
            }
        }
    }
}

/// A report is valid where every block that a task put out is one of it that can be had of the worker, and
/// where a failure or an end by request says why.
pub proof fn which_reports_are_valid(state: TaskStateView, task: TaskAttemptView, worker: Seq<char>)
    ensures
        state.check_for(task, worker) is Ok <==> match state {
            TaskStateView::Running { .. } => true,
            TaskStateView::Succeeded { output_blocks, .. } => forall|i: int|
                0 <= i < output_blocks.len() ==> is_block_of(
                    #[trigger] output_blocks[i],
                    task,
                    worker,
                ),
            TaskStateView::Failed { error, .. } => says_something(error),
            TaskStateView::Cancelled { reason, .. } => says_something(reason),
        },
{
    if let TaskStateView::Succeeded { output_blocks, .. } = state {
        all_blocks_are_valid(output_blocks, task, worker);
    }
}

/// A message is valid in this version of the protocol alone, and where each of its parts is.
pub proof fn which_messages_are_valid(message: WorkerMessageView, order: CoordinatorMessageView)
    ensures
        message.check() is Ok <==> match message {
            WorkerMessageView::Register { version, registration } => version == PROTOCOL_VERSION
                && registration.check() is Ok,
            WorkerMessageView::Heartbeat { version, heartbeat } => version == PROTOCOL_VERSION
                && is_identifier(heartbeat.worker_id),
            WorkerMessageView::TaskUpdate { version, worker_id, task, state } => version
                == PROTOCOL_VERSION && is_identifier(worker_id) && is_identifier(task.query_id)
                && state.check_for(task, worker_id) is Ok,
        },
        order.check() is Ok <==> match order {
            CoordinatorMessageView::AssignTask { version, stage, task, lease } => version
                == PROTOCOL_VERSION && stage.check() is Ok && task.check_for(stage) is Ok
                && lease.check() is Ok,
            CoordinatorMessageView::CancelQuery { version, query_id, reason } => version
                == PROTOCOL_VERSION && is_identifier(query_id) && says_something(reason),
        },
{
    match message {
        WorkerMessageView::Register { .. } => {},
        WorkerMessageView::Heartbeat { heartbeat, .. } => {
            which_identifiers_are_valid("worker"@, heartbeat.worker_id);
        },
        WorkerMessageView::TaskUpdate { worker_id, task, .. } => {
            which_identifiers_are_valid("worker"@, worker_id);
            which_identifiers_are_valid("query"@, task.query_id);
        },
    }
    if let CoordinatorMessageView::CancelQuery { query_id, .. } = order {
        which_identifiers_are_valid("query"@, query_id);
    }
}

// ---- what waits

/// The messages that wait for a worker, from the oldest on.
pub open spec fn queue_of(waiting: Seq<WaitingView>, worker: Seq<char>) -> Seq<CoordinatorMessageView>
    decreases waiting.len(),
{
    if waiting.len() == 0 {
        Seq::empty()
    } else if waiting[0].worker_id == worker {
        waiting[0].messages
    } else {
        queue_of(waiting.drop_first(), worker)
    }
}

proof fn queues_are_at_their_place(waiting: Seq<WaitingView>, worker: Seq<char>, from: int)
    requires
        0 <= from <= waiting.len(),
    ensures
        ({
            let place = waiting_place(waiting, worker, from);
            &&& from <= place <= waiting.len()
            &&& place < waiting.len() ==> waiting[place].worker_id == worker
                && queue_of(waiting.skip(from), worker) == waiting[place].messages
            &&& place == waiting.len() ==> queue_of(waiting.skip(from), worker).len() == 0
        }),
    decreases waiting.len() - from,
{
    if from < waiting.len() {
        queues_are_at_their_place(waiting, worker, from + 1);
        assert(waiting.skip(from).drop_first() =~= waiting.skip(from + 1));
        assert(waiting.skip(from)[0] == waiting[from]);
    } else {
        assert(waiting.skip(from).len() == 0);
    }
}

/// Queues change with the entries of their worker alone.
proof fn other_queues_stay(
    waiting: Seq<WaitingView>,
    next: Seq<WaitingView>,
    worker: Seq<char>,
    other: Seq<char>,
)
    requires
        other != worker,
        waiting.len() <= next.len(),
        forall|i: int|
            0 <= i < waiting.len() ==> (#[trigger] next[i]).worker_id == waiting[i].worker_id && (
            waiting[i].worker_id != worker ==> next[i] == waiting[i]),
        forall|i: int|
            waiting.len() <= i < next.len() ==> (#[trigger] next[i]).worker_id == worker,
    ensures
        queue_of(next, other) == queue_of(waiting, other),
    decreases next.len(),
{
    if next.len() > 0 {
        assert(next[0].worker_id == next[0].worker_id);
        if waiting.len() > 0 {
            let (a, b) = (waiting.drop_first(), next.drop_first());
            assert forall|i: int| 0 <= i < a.len() implies (#[trigger] b[i]).worker_id
                == a[i].worker_id && (a[i].worker_id != worker ==> b[i] == a[i]) by {
                assert(next[i + 1].worker_id == waiting[i + 1].worker_id);
            }
            assert forall|i: int| a.len() <= i < b.len() implies (#[trigger] b[i]).worker_id
                == worker by {
                assert(next[i + 1].worker_id == worker);
            }
            other_queues_stay(a, b, worker, other);
        } else {
            let (a, b) = (waiting, next.drop_first());
            assert forall|i: int| 0 <= i < b.len() implies (#[trigger] b[i]).worker_id
                == worker by {
                assert(next[i + 1].worker_id == worker);
            }
            other_queues_stay(a, b, worker, other);
        }
    }
}

proof fn places_stay(
    waiting: Seq<WaitingView>,
    next: Seq<WaitingView>,
    worker: Seq<char>,
    from: int,
)
    requires
        0 <= from <= waiting.len(),
        next.len() == waiting.len() || next.len() == waiting.len() + 1 && next[waiting.len() as int].worker_id
            == worker,
        forall|i: int|
            0 <= i < waiting.len() ==> (#[trigger] next[i]).worker_id == waiting[i].worker_id,
    ensures
        waiting_place(next, worker, from) == waiting_place(waiting, worker, from),
    decreases waiting.len() - from,
{
    if from < waiting.len() {
        assert(next[from].worker_id == waiting[from].worker_id);
        places_stay(waiting, next, worker, from + 1);
    }
}

/// A message waits behind those that wait already for its worker, and those for other workers stay as
/// they are.
pub proof fn messages_wait_their_turn(
    waiting: Seq<WaitingView>,
    worker: Seq<char>,
    message: CoordinatorMessageView,
    other: Seq<char>,
)
    ensures
        queue_of(with_message(waiting, worker, message), worker) == queue_of(waiting, worker).push(
            message,
        ),
        other != worker ==> queue_of(with_message(waiting, worker, message), other) == queue_of(
            waiting,
            other,
        ),
{
    let next = with_message(waiting, worker, message);
    queues_are_at_their_place(waiting, worker, 0);
    places_stay(waiting, next, worker, 0);
    queues_are_at_their_place(next, worker, 0);
    assert(waiting.skip(0) =~= waiting);
    assert(next.skip(0) =~= next);
    let place = waiting_place(waiting, worker, 0);
    if place == waiting.len() {
        assert(queue_of(waiting, worker) =~= Seq::empty());
        assert(seq![message] =~= Seq::<CoordinatorMessageView>::empty().push(message));
    }
    if other != worker {
        other_queues_stay(waiting, next, worker, other);
    }
}

/// A worker is given the message that has waited for it longest, which then waits no more.
pub proof fn the_oldest_message_is_delivered(
    waiting: Seq<WaitingView>,
    worker: Seq<char>,
    other: Seq<char>,
)
    ensures
        first_waiting(waiting, worker) is None <==> queue_of(waiting, worker).len() == 0,
        queue_of(waiting, worker).len() > 0 ==> {
            &&& first_waiting(waiting, worker) == Some(queue_of(waiting, worker)[0])
            &&& queue_of(after_delivery(waiting, worker), worker) == queue_of(
                waiting,
                worker,
            ).drop_first()
            &&& other != worker ==> queue_of(after_delivery(waiting, worker), other) == queue_of(
                waiting,
                other,
            )
        },
{
    queues_are_at_their_place(waiting, worker, 0);
    assert(waiting.skip(0) =~= waiting);
    let place = waiting_place(waiting, worker, 0);
    if queue_of(waiting, worker).len() > 0 {
        let next = after_delivery(waiting, worker);
        places_stay(waiting, next, worker, 0);
        queues_are_at_their_place(next, worker, 0);
        assert(next.skip(0) =~= next);
        assert(waiting[place].messages.skip(1) =~= waiting[place].messages.drop_first());
        if other != worker {
            other_queues_stay(waiting, next, worker, other);
        }
    }
}

} // verus!

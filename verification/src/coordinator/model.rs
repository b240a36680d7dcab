//! The coordinator as a mathematical object: its states, and what each request makes of one.

use crate::coordinator::{CoordinatorConfig, StageStatus};
use crate::error::ErrorView;
use crate::protocol::{
    CoordinatorMessageView, PartitionId, ShuffleBlockView, StageId, StagePlanView, TaskAttemptView,
    TaskLeaseView, TaskStateView, WorkerHeartbeatView, WorkerMessageView, WorkerRegistrationView,
    PROTOCOL_VERSION,
};
use crate::text::{before, numeral};
use vstd::prelude::*;

verus! {

/// A worker as the coordinator knows it.
pub struct WorkerState {
    pub registration: WorkerRegistrationView,
    pub last_observed_at_ms: u64,
    pub last_received_at_ms: u64,
    pub available_slots: u32,
    pub available_memory_bytes: u64,
    pub alive: bool,
}

/// How far one partition of a stage has come.
pub enum PartitionState {
    Pending { next_attempt: u32 },
    Active {
        task: TaskAttemptView,
        worker_id: Seq<char>,
        lease: TaskLeaseView,
        started_at_ms: Option<u64>,
    },
    Succeeded { task: TaskAttemptView, output_blocks: Seq<ShuffleBlockView> },
    Failed { attempt: u32, error: Seq<char> },
    Cancelled,
}

/// A submitted stage.
pub struct StageState {
    pub plan: StagePlanView,
    pub partitions: Seq<PartitionState>,
}

/// A query that was cancelled, and why.
pub struct Cancellation {
    pub query_id: Seq<char>,
    pub reason: Seq<char>,
}

/// Everything the coordinator knows: workers in the order of their identifiers, stages in the
/// order of query and stage number.
pub struct CoordinatorState {
    pub config: CoordinatorConfig,
    pub workers: Seq<WorkerState>,
    pub stages: Seq<StageState>,
    pub cancelled: Seq<Cancellation>,
}

/// The error of a request that the coordinator's state does not admit.
pub open spec fn coordinator_failure(message: Seq<char>) -> ErrorView {
    ErrorView::Protocol("invalid coordinator transition: "@ + message)
}

pub open spec fn stage_not_found_failure(query_id: Seq<char>, stage_id: StageId) -> ErrorView {
    ErrorView::NotFound(
        "query "@ + query_id + " stage "@ + numeral(stage_id.0 as nat)
            + " is not registered with the coordinator"@,
    )
}

pub open spec fn query_not_found_failure(query_id: Seq<char>) -> ErrorView {
    ErrorView::NotFound("query "@ + query_id + " is not registered with the coordinator"@)
}

impl CoordinatorConfig {
    /// What is wrong with a configuration, if anything is.
    pub open spec fn check(self) -> Result<(), ErrorView> {
        if self.lease_duration_ms == 0 {
            Err(coordinator_failure("lease duration must be greater than zero"@))
        } else if self.heartbeat_timeout_ms == 0 {
            Err(coordinator_failure("heartbeat timeout must be greater than zero"@))
        } else if self.max_task_attempts == 0 {
            Err(coordinator_failure("maximum task attempts must be greater than zero"@))
        } else if self.max_stage_partitions == 0 {
            Err(coordinator_failure("maximum stage partitions must be greater than zero"@))
        } else {
            Ok(())
        }
    }
}

impl WorkerState {
    pub open spec fn id(self) -> Seq<char> {
        self.registration.worker_id
    }

    /// This worker with `count` of its slots given back, never more than it registered.
    pub open spec fn released(self, count: nat) -> WorkerState {
        if self.alive {
            let free = self.available_slots + count;
            WorkerState {
                available_slots: if free < self.registration.slots {
                    free as u32
                } else {
                    self.registration.slots
                },
                ..self
            }
        } else {
            self
        }
    }

    /// This worker given up for lost.
    pub open spec fn lost(self) -> WorkerState {
        WorkerState { alive: false, available_slots: 0, available_memory_bytes: 0, ..self }
    }

    pub open spec fn is_free(self) -> bool {
        self.alive && self.available_slots > 0
    }
}

/// The partition after `attempt` failed with an error that another attempt may mend.
pub open spec fn retried(max_task_attempts: u32, attempt: u32, error: Seq<char>) -> PartitionState {
    if attempt + 1 < max_task_attempts {
        PartitionState::Pending { next_attempt: (attempt + 1) as u32 }
    } else {
        PartitionState::Failed { attempt, error }
    }
}

impl PartitionState {
    /// Whether `worker` holds the lease of this partition.
    pub open spec fn leased_to(self, worker: Seq<char>) -> bool {
        self matches PartitionState::Active { worker_id, .. } && worker_id == worker
    }

    /// Whether this partition's lease, if it has one, has run out at `now_ms`.
    pub open spec fn lease_expired(self, now_ms: u64) -> bool {
        self matches PartitionState::Active { lease, .. } && lease.expires_at_ms <= now_ms
    }

    /// This partition after its query was cancelled.
    pub open spec fn cancelled(self) -> PartitionState {
        if self is Succeeded {
            self
        } else {
            PartitionState::Cancelled
        }
    }
}

impl StageState {
    /// Whether this is stage `stage_id` of query `query_id`.
    pub open spec fn is(self, query_id: Seq<char>, stage_id: StageId) -> bool {
        self.plan.query_id == query_id && self.plan.stage_id == stage_id
    }

    pub open spec fn all_succeeded(self) -> bool {
        forall|p: int|
            0 <= p < self.partitions.len() ==> (#[trigger] self.partitions[p]) is Succeeded
    }

    pub open spec fn any_failed(self) -> bool {
        exists|p: int| 0 <= p < self.partitions.len() && (#[trigger] self.partitions[p]) is Failed
    }

    pub open spec fn any_active(self) -> bool {
        exists|p: int| 0 <= p < self.partitions.len() && (#[trigger] self.partitions[p]) is Active
    }

    /// This stage with one partition replaced.
    pub open spec fn with_partition(self, index: int, partition: PartitionState) -> StageState {
        StageState { partitions: self.partitions.update(index, partition), ..self }
    }

    /// The first pending partition at or after `from`.
    pub open spec fn pending_from(self, from: int) -> Option<int>
        decreases self.partitions.len() - from,
    {
        if from >= self.partitions.len() {
            None
        } else if self.partitions[from] is Pending {
            Some(from)
        } else {
            self.pending_from(from + 1)
        }
    }
}

/// The order of stages: by query, then by number.
pub open spec fn stage_before(a: StageState, b: StageState) -> bool {
    before(a.plan.query_id, b.plan.query_id) || (a.plan.query_id == b.plan.query_id
        && a.plan.stage_id.0 < b.plan.stage_id.0)
}

/// How many partitions of a stage have a property.
pub open spec fn count_in_stage(
    stage: StageState,
    upto: int,
    property: spec_fn(StageState, PartitionState) -> bool,
) -> nat
    decreases upto,
{
    if upto <= 0 {
        0
    } else {
        count_in_stage(stage, upto - 1, property) + if property(stage, stage.partitions[upto - 1]) {
            1nat
        } else {
            0nat
        }
    }
}

/// How many partitions of the first `upto` stages have a property.
pub open spec fn count_in_stages(
    stages: Seq<StageState>,
    upto: int,
    property: spec_fn(StageState, PartitionState) -> bool,
) -> nat
    decreases upto,
{
    if upto <= 0 {
        0
    } else {
        count_in_stages(stages, upto - 1, property) + count_in_stage(
            stages[upto - 1],
            stages[upto - 1].partitions.len() as int,
            property,
        )
    }
}

/// How many partitions have a property.
pub open spec fn count(
    stages: Seq<StageState>,
    property: spec_fn(StageState, PartitionState) -> bool,
) -> nat {
    count_in_stages(stages, stages.len() as int, property)
}

/// Being leased to `worker`.
pub open spec fn leased(worker: Seq<char>) -> spec_fn(StageState, PartitionState) -> bool {
    |s: StageState, p: PartitionState| p.leased_to(worker)
}

/// Being leased to `worker` with a lease that has run out at `now_ms`.
pub open spec fn expired(worker: Seq<char>, now_ms: u64) -> spec_fn(
    StageState,
    PartitionState,
) -> bool {
    |s: StageState, p: PartitionState| p.leased_to(worker) && p.lease_expired(now_ms)
}

/// Being leased to `worker` for a task of `query`.
pub open spec fn leased_for(query: Seq<char>, worker: Seq<char>) -> spec_fn(
    StageState,
    PartitionState,
) -> bool {
    |s: StageState, p: PartitionState| s.plan.query_id == query && p.leased_to(worker)
}

/// The first worker at or after `from` that can take a task.
pub open spec fn free_worker_from(workers: Seq<WorkerState>, from: int) -> Option<int>
    decreases workers.len() - from,
{
    if from >= workers.len() {
        None
    } else if workers[from].is_free() {
        Some(from)
    } else {
        free_worker_from(workers, from + 1)
    }
}

/// Whether a reported time lies within a lease and not after its report.
pub open spec fn reported_time_check(
    event: Seq<char>,
    timestamp_ms: u64,
    lease: TaskLeaseView,
    received_at_ms: u64,
) -> Result<(), ErrorView> {
    if timestamp_ms < lease.issued_at_ms {
        Err(coordinator_failure("task "@ + event + " before its lease was issued"@))
    } else if timestamp_ms >= lease.expires_at_ms {
        Err(coordinator_failure("task "@ + event + " after its lease expired"@))
    } else if timestamp_ms > received_at_ms {
        Err(
            coordinator_failure(
                "task "@ + event + " time is later than the coordinator receive time"@,
            ),
        )
    } else {
        Ok(())
    }
}

/// What a report makes of the active partition that it speaks of.
pub open spec fn reported(
    max_task_attempts: u32,
    partition: PartitionState,
    state: TaskStateView,
    received_at_ms: u64,
) -> Result<PartitionState, ErrorView>
    recommends
        partition is Active,
{
    let task = partition->Active_task;
    let lease = partition->Active_lease;
    match state {
        TaskStateView::Running { started_at_ms } => match reported_time_check(
            "started"@,
            started_at_ms,
            lease,
            received_at_ms,
        ) {
            Err(error) => Err(error),
            Ok(()) => match partition->started_at_ms {
                Some(existing) => if existing != started_at_ms {
                    Err(coordinator_failure("task start time changed between updates"@))
                } else {
                    Ok(partition)
                },
                None => Ok(
                    PartitionState::Active {
                        task,
                        worker_id: partition->worker_id,
                        lease,
                        started_at_ms: Some(started_at_ms),
                    },
                ),
            },
        },
        TaskStateView::Succeeded { finished_at_ms, output_blocks } => match reported_time_check(
            "finished"@,
            finished_at_ms,
            lease,
            received_at_ms,
        ) {
            Err(error) => Err(error),
            Ok(()) => Ok(PartitionState::Succeeded { task, output_blocks }),
        },
        TaskStateView::Failed { finished_at_ms, error, retryable } => match reported_time_check(
            "finished"@,
            finished_at_ms,
            lease,
            received_at_ms,
        ) {
            Err(failure) => Err(failure),
            Ok(()) => Ok(
                if retryable {
                    retried(max_task_attempts, task.attempt, error)
                } else {
                    PartitionState::Failed { attempt: task.attempt, error }
                },
            ),
        },
        TaskStateView::Cancelled { finished_at_ms, .. } => match reported_time_check(
            "finished"@,
            finished_at_ms,
            lease,
            received_at_ms,
        ) {
            Err(error) => Err(error),
            Ok(()) => Ok(PartitionState::Cancelled),
        },
    }
}

impl CoordinatorState {
    // ---- looking things up

    pub open spec fn has_worker(self, id: Seq<char>) -> bool {
        exists|i: int| 0 <= i < self.workers.len() && (#[trigger] self.workers[i]).id() == id
    }

    /// The place of worker `id`, where there is one.
    pub open spec fn worker_index(self, id: Seq<char>) -> int {
        choose|i: int| 0 <= i < self.workers.len() && (#[trigger] self.workers[i]).id() == id
    }

    pub open spec fn has_stage(self, query_id: Seq<char>, stage_id: StageId) -> bool {
        exists|i: int|
            0 <= i < self.stages.len() && (#[trigger] self.stages[i]).is(query_id, stage_id)
    }

    /// The place of a stage, where there is one.
    pub open spec fn stage_index(self, query_id: Seq<char>, stage_id: StageId) -> int {
        choose|i: int|
            0 <= i < self.stages.len() && (#[trigger] self.stages[i]).is(query_id, stage_id)
    }

    pub open spec fn has_query(self, query_id: Seq<char>) -> bool {
        exists|i: int|
            0 <= i < self.stages.len() && (#[trigger] self.stages[i]).plan.query_id == query_id
    }

    pub open spec fn is_cancelled(self, query_id: Seq<char>) -> bool {
        exists|i: int|
            0 <= i < self.cancelled.len() && (#[trigger] self.cancelled[i]).query_id == query_id
    }

    /// Whether `query_id` was cancelled for `reason`.
    pub open spec fn is_cancelled_for(self, query_id: Seq<char>, reason: Seq<char>) -> bool {
        exists|i: int|
            0 <= i < self.cancelled.len() && (#[trigger] self.cancelled[i]).query_id == query_id
                && self.cancelled[i].reason == reason
    }

    /// Whether a stage is there and every partition of it has succeeded.
    pub open spec fn stage_succeeded(self, query_id: Seq<char>, stage_id: StageId) -> bool {
        exists|i: int|
            0 <= i < self.stages.len() && (#[trigger] self.stages[i]).is(query_id, stage_id)
                && self.stages[i].all_succeeded()
    }

    pub open spec fn dependencies_succeeded(self, stage: StageState) -> bool {
        forall|k: int|
            0 <= k < stage.plan.input_stages.len() ==> self.stage_succeeded(
                stage.plan.query_id,
                #[trigger] stage.plan.input_stages[k],
            )
    }

    /// Whether partitions of `stage` may be assigned.
    pub open spec fn is_assignable(self, stage: StageState) -> bool {
        !self.is_cancelled(stage.plan.query_id) && self.dependencies_succeeded(stage)
    }

    /// The first pending partition of the first assignable stage at or after `from`.
    pub open spec fn pending_from(self, from: int) -> Option<(int, int)>
        decreases self.stages.len() - from,
    {
        if from >= self.stages.len() {
            None
        } else if self.is_assignable(self.stages[from]) && self.stages[from].pending_from(
            0,
        ) is Some {
            Some((from, self.stages[from].pending_from(0)->Some_0))
        } else {
            self.pending_from(from + 1)
        }
    }

    // ---- what holds of every state

    /// What holds of a worker in every state.
    pub open spec fn worker_wf(self, worker: WorkerState) -> bool {
        &&& worker.registration.check() is Ok
        &&& worker.available_slots + count(self.stages, leased(worker.id()))
            <= worker.registration.slots
        &&& worker.available_memory_bytes <= worker.registration.memory_bytes
        &&& !worker.alive ==> worker.available_slots == 0 && worker.available_memory_bytes == 0
            && count(self.stages, leased(worker.id())) == 0
    }

    /// What holds of a partition in every state.
    pub open spec fn partition_wf(
        self,
        plan: StagePlanView,
        index: int,
        partition: PartitionState,
    ) -> bool {
        match partition {
            PartitionState::Pending { next_attempt } => next_attempt
                < self.config.max_task_attempts,
            PartitionState::Active { task, worker_id, lease, started_at_ms } => {
                &&& task_wf(plan, index, task)
                &&& task.attempt < self.config.max_task_attempts
                &&& lease.worker_id == worker_id
                &&& lease.check() is Ok
                &&& self.has_worker(worker_id)
                &&& started_at_ms matches Some(t) ==> lease.issued_at_ms <= t
                    < lease.expires_at_ms
            },
            PartitionState::Succeeded { task, output_blocks } => {
                &&& task_wf(plan, index, task)
                &&& task.attempt < self.config.max_task_attempts
            },
            PartitionState::Failed { attempt, .. } => attempt < self.config.max_task_attempts,
            PartitionState::Cancelled => true,
        }
    }

    /// What holds of a stage in every state.
    pub open spec fn stage_wf(self, stage: StageState) -> bool {
        &&& stage.plan.check() is Ok
        &&& stage.partitions.len() == stage.plan.partition_count
        &&& stage.plan.partition_count <= self.config.max_stage_partitions
        &&& forall|p: int|
            0 <= p < stage.partitions.len() ==> self.partition_wf(
                stage.plan,
                p,
                #[trigger] stage.partitions[p],
            )
        &&& forall|k: int|
            0 <= k < stage.plan.input_stages.len() ==> self.has_stage(
                stage.plan.query_id,
                #[trigger] stage.plan.input_stages[k],
            )
        &&& self.is_cancelled(stage.plan.query_id) ==> forall|p: int|
            0 <= p < stage.partitions.len() ==> {
                ||| (#[trigger] stage.partitions[p]) is Succeeded
                ||| stage.partitions[p] is Cancelled
            }
    }

    /// What holds of every state of a coordinator.
    pub open spec fn wf(self) -> bool {
        &&& self.config.check() is Ok
        &&& self.ordered()
        &&& forall|i: int| 0 <= i < self.workers.len() ==> self.worker_wf(#[trigger] self.workers[i])
        &&& forall|i: int| 0 <= i < self.stages.len() ==> self.stage_wf(#[trigger] self.stages[i])
        &&& forall|i: int|
            0 <= i < self.cancelled.len() ==> self.has_query(
                (#[trigger] self.cancelled[i]).query_id,
            )
    }

    /// Workers, stages and cancellations: no two with one key, and in the order of their keys.
    pub open spec fn ordered(self) -> bool {
        &&& forall|i: int, j: int|
            0 <= i < j < self.workers.len() ==> before(
                (#[trigger] self.workers[i]).id(),
                (#[trigger] self.workers[j]).id(),
            )
        &&& forall|i: int, j: int|
            0 <= i < j < self.stages.len() ==> stage_before(
                #[trigger] self.stages[i],
                #[trigger] self.stages[j],
            )
        &&& forall|i: int, j: int|
            0 <= i < j < self.cancelled.len() ==> (#[trigger] self.cancelled[i]).query_id != (
            #[trigger] self.cancelled[j]).query_id
    }

    // ---- transitions

    /// The state of a new coordinator.
    pub open spec fn initial(config: CoordinatorConfig) -> CoordinatorState {
        CoordinatorState {
            config,
            workers: Seq::empty(),
            stages: Seq::empty(),
            cancelled: Seq::empty(),
        }
    }

    pub open spec fn with_partition(
        self,
        stage: int,
        index: int,
        partition: PartitionState,
    ) -> CoordinatorState {
        CoordinatorState {
            stages: self.stages.update(stage, self.stages[stage].with_partition(index, partition)),
            ..self
        }
    }

    pub open spec fn with_worker(self, index: int, worker: WorkerState) -> CoordinatorState {
        CoordinatorState { workers: self.workers.update(index, worker), ..self }
    }

    /// This state with a slot given back to worker `id`.
    pub open spec fn slot_released(self, id: Seq<char>) -> CoordinatorState {
        CoordinatorState {
            workers: Seq::new(
                self.workers.len(),
                |i: int|
                    if self.workers[i].id() == id {
                        self.workers[i].released(1)
                    } else {
                        self.workers[i]
                    },
            ),
            ..self
        }
    }

    /// Whether a worker is given up for lost at `now_ms`.
    pub open spec fn times_out(self, worker: WorkerState, now_ms: u64) -> bool {
        worker.alive && now_ms - worker.last_received_at_ms > self.config.heartbeat_timeout_ms
    }

    pub open spec fn worker_times_out(self, id: Seq<char>, now_ms: u64) -> bool {
        exists|i: int|
            0 <= i < self.workers.len() && (#[trigger] self.workers[i]).id() == id
                && self.times_out(self.workers[i], now_ms)
    }

    /// A partition once the clock reads `now_ms`.
    pub open spec fn advanced_partition(
        self,
        partition: PartitionState,
        now_ms: u64,
    ) -> PartitionState {
        match partition {
            PartitionState::Active { task, worker_id, lease, .. } => {
                if self.worker_times_out(worker_id, now_ms) {
                    retried(
                        self.config.max_task_attempts,
                        task.attempt,
                        "worker heartbeat timed out"@,
                    )
                } else if lease.expires_at_ms <= now_ms {
                    retried(self.config.max_task_attempts, task.attempt, "task lease expired"@)
                } else {
                    partition
                }
            },
            _ => partition,
        }
    }

    pub open spec fn advanced_stage(self, stage: StageState, now_ms: u64) -> StageState {
        StageState {
            partitions: Seq::new(
                stage.partitions.len(),
                |p: int| self.advanced_partition(stage.partitions[p], now_ms),
            ),
            ..stage
        }
    }

    pub open spec fn advanced_worker(self, worker: WorkerState, now_ms: u64) -> WorkerState {
        if self.times_out(worker, now_ms) {
            worker.lost()
        } else {
            worker.released(count(self.stages, expired(worker.id(), now_ms)))
        }
    }

    /// The state once the clock reads `now_ms`: workers that were silent for too long are given up
    /// for lost, and every task of theirs, or with a lease that has run out, is retried or fails.
    pub open spec fn advanced(self, now_ms: u64) -> CoordinatorState {
        CoordinatorState {
            workers: Seq::new(
                self.workers.len(),
                |i: int| self.advanced_worker(self.workers[i], now_ms),
            ),
            stages: Seq::new(
                self.stages.len(),
                |i: int| self.advanced_stage(self.stages[i], now_ms),
            ),
            ..self
        }
    }

    /// What keeps a stage from being submitted, if anything does.
    pub open spec fn submission_check(self, plan: StagePlanView) -> Result<(), ErrorView> {
        if plan.check() is Err {
            plan.check()
        } else if plan.partition_count > self.config.max_stage_partitions {
            Err(
                coordinator_failure(
                    "stage has "@ + numeral(plan.partition_count as nat)
                        + " partitions but the configured maximum is "@ + numeral(
                        self.config.max_stage_partitions as nat,
                    ),
                ),
            )
        } else if self.is_cancelled(plan.query_id) {
            Err(coordinator_failure("query "@ + plan.query_id + " is already cancelled"@))
        } else if self.has_stage(plan.query_id, plan.stage_id) {
            Err(
                coordinator_failure(
                    "stage "@ + numeral(plan.stage_id.0 as nat) + " for query "@ + plan.query_id
                        + " is already submitted"@,
                ),
            )
        } else {
            self.dependencies_check(plan, 0)
        }
    }

    /// The error of the first dependency at or after `from` that was never submitted.
    pub open spec fn dependencies_check(self, plan: StagePlanView, from: int) -> Result<
        (),
        ErrorView,
    >
        decreases plan.input_stages.len() - from,
    {
        if from >= plan.input_stages.len() {
            Ok(())
        } else if !self.has_stage(plan.query_id, plan.input_stages[from]) {
            Err(
                coordinator_failure(
                    "stage "@ + numeral(plan.stage_id.0 as nat) + " depends on unsubmitted stage "@
                        + numeral(plan.input_stages[from].0 as nat),
                ),
            )
        } else {
            self.dependencies_check(plan, from + 1)
        }
    }

    /// A stage of which nothing has been tried yet.
    pub open spec fn fresh_stage(plan: StagePlanView) -> StageState {
        StageState {
            plan,
            partitions: Seq::new(
                plan.partition_count as nat,
                |p: int| PartitionState::Pending { next_attempt: 0 },
            ),
        }
    }

    /// Whether `next` is this state with `stage` put in its place among the stages.
    pub open spec fn is_with_stage(self, stage: StageState, next: CoordinatorState) -> bool {
        &&& next.config == self.config
        &&& next.workers == self.workers
        &&& next.cancelled == self.cancelled
        &&& exists|at: int|
            0 <= at <= self.stages.len() && next.stages == #[trigger] self.stages.insert(at, stage)
        &&& next.ordered()
    }

    /// Whether `next` is this state with `worker` put in its place among the workers.
    pub open spec fn is_with_worker(self, worker: WorkerState, next: CoordinatorState) -> bool {
        &&& next.config == self.config
        &&& next.stages == self.stages
        &&& next.cancelled == self.cancelled
        &&& exists|at: int|
            0 <= at <= self.workers.len() && next.workers == #[trigger] self.workers.insert(
                at,
                worker,
            )
        &&& next.ordered()
    }

    /// A worker that has just joined.
    pub open spec fn fresh_worker(
        registration: WorkerRegistrationView,
        received_at_ms: u64,
    ) -> WorkerState {
        WorkerState {
            registration,
            last_observed_at_ms: 0,
            last_received_at_ms: received_at_ms,
            available_slots: registration.slots,
            available_memory_bytes: registration.memory_bytes,
            alive: true,
        }
    }

    /// Whether a registration leads from this state to `next` with result `result`.
    pub open spec fn registers(
        self,
        registration: WorkerRegistrationView,
        received_at_ms: u64,
        next: CoordinatorState,
        result: Result<(), ErrorView>,
    ) -> bool {
        if self.has_worker(registration.worker_id) {
            &&& next == self
            &&& result == Err::<(), ErrorView>(
                coordinator_failure(
                    "worker "@ + registration.worker_id + " is already registered"@,
                ),
            )
        } else {
            &&& self.is_with_worker(Self::fresh_worker(registration, received_at_ms), next)
            &&& result == Ok::<(), ErrorView>(())
        }
    }

    /// The most slots that a worker can have free beside the tasks it runs.
    pub open spec fn possible_slots(self, worker: WorkerState) -> nat {
        let active = count(self.stages, leased(worker.id()));
        if active <= worker.registration.slots {
            (worker.registration.slots - active) as nat
        } else {
            0
        }
    }

    /// What a heartbeat makes of this state.
    pub open spec fn heartbeat(self, beat: WorkerHeartbeatView, received_at_ms: u64) -> (
        CoordinatorState,
        Result<(), ErrorView>,
    ) {
        if !self.has_worker(beat.worker_id) {
            (
                self,
                Err(
                    coordinator_failure(
                        "heartbeat came from unregistered worker "@ + beat.worker_id,
                    ),
                ),
            )
        } else {
            let index = self.worker_index(beat.worker_id);
            let worker = self.workers[index];
            if beat.observed_at_ms < worker.last_observed_at_ms {
                (
                    self,
                    Err(
                        coordinator_failure(
                            "worker "@ + beat.worker_id + " heartbeat time moved backwards"@,
                        ),
                    ),
                )
            } else if beat.available_slots > self.possible_slots(worker) {
                (
                    self,
                    Err(
                        coordinator_failure(
                            "worker "@ + beat.worker_id + " reports "@ + numeral(
                                beat.available_slots as nat,
                            ) + " available slots but at most "@ + numeral(
                                self.possible_slots(worker),
                            ) + " are possible"@,
                        ),
                    ),
                )
            } else if beat.available_memory_bytes > worker.registration.memory_bytes {
                (
                    self,
                    Err(
                        coordinator_failure(
                            "worker "@ + beat.worker_id
                                + " reports more memory than it registered"@,
                        ),
                    ),
                )
            } else {
                (
                    self.with_worker(
                        index,
                        WorkerState {
                            last_observed_at_ms: beat.observed_at_ms,
                            last_received_at_ms: received_at_ms,
                            available_slots: beat.available_slots,
                            available_memory_bytes: beat.available_memory_bytes,
                            alive: true,
                            ..worker
                        },
                    ),
                    Ok(()),
                )
            }
        }
    }

    /// What a report on a task makes of this state.
    pub open spec fn task_update(
        self,
        worker: Seq<char>,
        task: TaskAttemptView,
        state: TaskStateView,
        received_at_ms: u64,
    ) -> (CoordinatorState, Result<(), ErrorView>) {
        let s = self.stage_index(task.query_id, task.stage_id);
        let p = task.partition_id.0 as int;
        let stage = self.stages[s];
        let partition = stage.partitions[p];
        if !self.has_worker(worker) {
            (
                self,
                Err(coordinator_failure("task update came from unregistered worker "@ + worker)),
            )
        } else if !self.has_stage(task.query_id, task.stage_id) {
            (self, Err(stage_not_found_failure(task.query_id, task.stage_id)))
        } else if task.check_for(stage.plan) is Err {
            (self, task.check_for(stage.plan))
        } else if !(partition is Active) {
            (self, Err(coordinator_failure("task update is stale or was not assigned"@)))
        } else if partition->Active_task != task {
            (self, Err(coordinator_failure("task update does not match the active attempt"@)))
        } else if partition->worker_id != worker {
            (
                self,
                Err(
                    coordinator_failure(
                        "task update came from a worker that does not own its lease"@,
                    ),
                ),
            )
        } else if partition->Active_lease.expires_at_ms <= received_at_ms {
            (self, Err(coordinator_failure("task update arrived after its lease expired"@)))
        } else {
            match reported(self.config.max_task_attempts, partition, state, received_at_ms) {
                Err(error) => (self, Err(error)),
                Ok(next) => if next is Active {
                    (self.with_partition(s, p, next), Ok(()))
                } else {
                    (self.with_partition(s, p, next).slot_released(worker), Ok(()))
                },
            }
        }
    }

    /// Whether a message from a worker leads from this state to `next` with result `result`.
    pub open spec fn handles(
        self,
        message: WorkerMessageView,
        received_at_ms: u64,
        next: CoordinatorState,
        result: Result<(), ErrorView>,
    ) -> bool {
        if message.check() is Err {
            next == self && result == message.check()
        } else {
            let now = self.advanced(received_at_ms);
            match message {
                WorkerMessageView::Register { registration, .. } => now.registers(
                    registration,
                    received_at_ms,
                    next,
                    result,
                ),
                WorkerMessageView::Heartbeat { heartbeat, .. } => (next, result)
                    == now.heartbeat(heartbeat, received_at_ms),
                WorkerMessageView::TaskUpdate { worker_id, task, state, .. } => (next, result)
                    == now.task_update(worker_id, task, state, received_at_ms),
            }
        }
    }

    /// The attempt that an assignment of partition `p` of stage `s` starts.
    pub open spec fn attempt_at(self, s: int, p: int) -> TaskAttemptView {
        TaskAttemptView {
            query_id: self.stages[s].plan.query_id,
            stage_id: self.stages[s].plan.stage_id,
            partition_id: PartitionId(p as u32),
            attempt: self.stages[s].partitions[p]->next_attempt,
        }
    }

    /// The lease of an assignment to worker `w` at `now_ms`.
    pub open spec fn lease_for(self, w: int, now_ms: u64) -> TaskLeaseView {
        TaskLeaseView {
            worker_id: self.workers[w].id(),
            issued_at_ms: now_ms,
            expires_at_ms: (now_ms + self.config.lease_duration_ms) as u64,
        }
    }

    /// What comes of asking for a task for worker `w`.
    pub open spec fn assigned(self, w: int, now_ms: u64) -> (
        CoordinatorState,
        Result<Option<CoordinatorMessageView>, ErrorView>,
    ) {
        match self.pending_from(0) {
            None => (self, Ok(None)),
            Some((s, p)) => {
                if now_ms + self.config.lease_duration_ms > u64::MAX {
                    (self, Err(coordinator_failure("task lease timestamp overflowed"@)))
                } else {
                    let task = self.attempt_at(s, p);
                    let lease = self.lease_for(w, now_ms);
                    let worker = self.workers[w];
                    (
                        self.with_partition(
                            s,
                            p,
                            PartitionState::Active {
                                task,
                                worker_id: worker.id(),
                                lease,
                                started_at_ms: None,
                            },
                        ).with_worker(
                            w,
                            WorkerState {
                                available_slots: (worker.available_slots - 1) as u32,
                                ..worker
                            },
                        ),
                        Ok(
                            Some(
                                CoordinatorMessageView::AssignTask {
                                    version: PROTOCOL_VERSION,
                                    stage: self.stages[s].plan,
                                    task,
                                    lease,
                                },
                            ),
                        ),
                    )
                }
            },
        }
    }

    /// What comes of asking for a task for whichever worker is free.
    pub open spec fn next_assignment(self, now_ms: u64) -> (
        CoordinatorState,
        Result<Option<CoordinatorMessageView>, ErrorView>,
    ) {
        let now = self.advanced(now_ms);
        match free_worker_from(now.workers, 0) {
            None => (now, Ok(None)),
            Some(w) => now.assigned(w, now_ms),
        }
    }

    /// What comes of a worker's asking for a task.
    pub open spec fn next_assignment_for(self, worker: Seq<char>, now_ms: u64) -> (
        CoordinatorState,
        Result<Option<CoordinatorMessageView>, ErrorView>,
    ) {
        let now = self.advanced(now_ms);
        if !now.has_worker(worker) {
            (
                now,
                Err(
                    coordinator_failure(
                        "unregistered worker "@ + worker + " requested an assignment"@,
                    ),
                ),
            )
        } else if !now.workers[now.worker_index(worker)].is_free() {
            (now, Ok(None))
        } else {
            now.assigned(now.worker_index(worker), now_ms)
        }
    }

    /// The message that cancels a query.
    pub open spec fn cancellation(query_id: Seq<char>, reason: Seq<char>) -> CoordinatorMessageView {
        CoordinatorMessageView::CancelQuery { version: PROTOCOL_VERSION, query_id, reason }
    }

    /// This state once a query is cancelled.
    pub open spec fn with_cancelled(self, query_id: Seq<char>, reason: Seq<char>) -> CoordinatorState {
        CoordinatorState {
            workers: Seq::new(
                self.workers.len(),
                |i: int|
                    self.workers[i].released(
                        count(self.stages, leased_for(query_id, self.workers[i].id())),
                    ),
            ),
            stages: Seq::new(
                self.stages.len(),
                |i: int|
                    if self.stages[i].plan.query_id == query_id {
                        StageState {
                            partitions: Seq::new(
                                self.stages[i].partitions.len(),
                                |p: int| self.stages[i].partitions[p].cancelled(),
                            ),
                            ..self.stages[i]
                        }
                    } else {
                        self.stages[i]
                    },
            ),
            cancelled: self.cancelled.push(Cancellation { query_id, reason }),
            ..self
        }
    }

    /// What comes of asking to cancel a query.
    pub open spec fn cancel_query(self, query_id: Seq<char>, reason: Seq<char>) -> (
        CoordinatorState,
        Result<CoordinatorMessageView, ErrorView>,
    ) {
        let message = Self::cancellation(query_id, reason);
        if message.check() is Err {
            (self, Err(message.check()->Err_0))
        } else if !self.has_query(query_id) {
            (self, Err(query_not_found_failure(query_id)))
        } else if self.is_cancelled_for(query_id, reason) {
            (self, Ok(message))
        } else if self.is_cancelled(query_id) {
            (
                self,
                Err(
                    coordinator_failure(
                        "query "@ + query_id + " was already cancelled for a different reason"@,
                    ),
                ),
            )
        } else {
            (self.with_cancelled(query_id, reason), Ok(message))
        }
    }
}

/// What a caller is told of a partition.
pub enum PartitionStatusView {
    Pending { next_attempt: u32 },
    Running { attempt: u32 },
    Succeeded { attempt: u32 },
    Failed { attempt: u32, error: Seq<char> },
    Cancelled,
}

impl PartitionState {
    pub open spec fn status(self) -> PartitionStatusView {
        match self {
            PartitionState::Pending { next_attempt } => PartitionStatusView::Pending {
                next_attempt,
            },
            PartitionState::Active { task, .. } => PartitionStatusView::Running {
                attempt: task.attempt,
            },
            PartitionState::Succeeded { task, .. } => PartitionStatusView::Succeeded {
                attempt: task.attempt,
            },
            PartitionState::Failed { attempt, error } => PartitionStatusView::Failed {
                attempt,
                error,
            },
            PartitionState::Cancelled => PartitionStatusView::Cancelled,
        }
    }
}

impl StageState {
    /// The blocks that the first `upto` partitions put out, in the order of the partitions.
    pub open spec fn output_blocks(self, upto: int) -> Seq<ShuffleBlockView>
        decreases upto,
    {
        if upto <= 0 {
            Seq::empty()
        } else {
            self.output_blocks(upto - 1) + match self.partitions[upto - 1] {
                PartitionState::Succeeded { output_blocks, .. } => output_blocks,
                _ => Seq::empty(),
            }
        }
    }
}

impl CoordinatorState {
    // ---- questions

    pub open spec fn worker_available_slots(self, id: Seq<char>) -> Option<u32> {
        if self.has_worker(id) && self.workers[self.worker_index(id)].alive {
            Some(self.workers[self.worker_index(id)].available_slots)
        } else {
            None
        }
    }

    /// Whether worker `id` holds a lease for a task of `query_id`.
    pub open spec fn works_for(self, id: Seq<char>, query_id: Seq<char>) -> bool {
        exists|s: int, p: int|
            0 <= s < self.stages.len() && 0 <= p < self.stages[s].partitions.len()
                && self.stages[s].plan.query_id == query_id && (
            #[trigger] self.stages[s].partitions[p]).leased_to(id)
    }

    pub open spec fn stage_status(self, query_id: Seq<char>, stage_id: StageId) -> Result<
        StageStatus,
        ErrorView,
    > {
        let stage = self.stages[self.stage_index(query_id, stage_id)];
        if !self.has_stage(query_id, stage_id) {
            Err(stage_not_found_failure(query_id, stage_id))
        } else if self.is_cancelled(query_id) {
            Ok(StageStatus::Cancelled)
        } else if stage.any_failed() {
            Ok(StageStatus::Failed)
        } else if stage.all_succeeded() {
            Ok(StageStatus::Succeeded)
        } else if stage.any_active() {
            Ok(StageStatus::Running)
        } else if self.dependencies_succeeded(stage) {
            Ok(StageStatus::Ready)
        } else {
            Ok(StageStatus::Blocked)
        }
    }

    pub open spec fn partition_status(
        self,
        query_id: Seq<char>,
        stage_id: StageId,
        partition_id: PartitionId,
    ) -> Result<PartitionStatusView, ErrorView> {
        let stage = self.stages[self.stage_index(query_id, stage_id)];
        if !self.has_stage(query_id, stage_id) {
            Err(stage_not_found_failure(query_id, stage_id))
        } else if partition_id.0 >= stage.partitions.len() {
            Err(
                ErrorView::NotFound(
                    "partition "@ + numeral(partition_id.0 as nat) + " does not exist in query "@
                        + query_id + " stage "@ + numeral(stage_id.0 as nat),
                ),
            )
        } else {
            Ok(stage.partitions[partition_id.0 as int].status())
        }
    }

    pub open spec fn stage_output_blocks(self, query_id: Seq<char>, stage_id: StageId) -> Result<
        Seq<ShuffleBlockView>,
        ErrorView,
    > {
        let stage = self.stages[self.stage_index(query_id, stage_id)];
        if !self.has_stage(query_id, stage_id) {
            Err(stage_not_found_failure(query_id, stage_id))
        } else if !stage.all_succeeded() {
            Err(
                coordinator_failure(
                    "query "@ + query_id + " stage "@ + numeral(stage_id.0 as nat)
                        + " has not succeeded"@,
                ),
            )
        } else {
            Ok(stage.output_blocks(stage.partitions.len() as int))
        }
    }
}

/// What holds of every task that was assigned: it is one of its stage, at its own place.
pub open spec fn task_wf(plan: StagePlanView, index: int, task: TaskAttemptView) -> bool {
    &&& task.query_id == plan.query_id
    &&& task.stage_id == plan.stage_id
    &&& task.partition_id.0 == index
}

} // verus!

//! The coordinator of a cluster: it hands out tasks under leases, retries what fails or falls
//! silent, and keeps what the tasks put out.
//!
//! It is a state machine without a clock or a transport of its own. Whoever runs it feeds in the
//! messages of the workers with the time at which each arrived, and sends out the assignments.

pub mod counting;
pub mod history;
pub mod laws;
pub mod model;

use crate::error::{outcome, ErrorView, SparkXError};
use crate::protocol::{
    clone_blocks, CoordinatorMessage, CoordinatorMessageView, PartitionId, QueryId, ShuffleBlock,
    StageId, StagePlan, TaskAttemptId, TaskLease, TaskState, WorkerHeartbeat, WorkerId,
    WorkerMessage, WorkerRegistration, PROTOCOL_VERSION, block_views,
};
use crate::text::{
    before, before_is_strict, before_is_total, before_is_transitive, decimal, join, same_text,
    Relation,
};
use laws::{
    cancellation_keeps_validity, initial_is_valid, message_keeps_validity,
    next_assignment_for_keeps_validity, next_assignment_keeps_validity, stage_index_is,
    submission_keeps_validity, time_keeps_validity, times_out_is_by_worker, worker_index_is,
};
use model::{
    coordinator_failure, count, count_in_stage, count_in_stages, expired, free_worker_from, leased,
    leased_for, query_not_found_failure, reported_time_check, retried, stage_before,
    stage_not_found_failure, Cancellation, CoordinatorState, PartitionState, PartitionStatusView,
    StageState, WorkerState,
};
use vstd::prelude::*;

verus! {

/// How long things may take, and how often they may be tried.
#[derive(Debug, Clone, Copy, PartialEq, Eq)]
pub struct CoordinatorConfig {
    pub lease_duration_ms: u64,
    pub heartbeat_timeout_ms: u64,
    pub max_task_attempts: u32,
    pub max_stage_partitions: u32,
}

impl Default for CoordinatorConfig {
    fn default() -> (r: Self)
        ensures
            r.lease_duration_ms == 30_000,
            r.heartbeat_timeout_ms == 15_000,
            r.max_task_attempts == 3,
            r.max_stage_partitions == 100_000,
    {
        CoordinatorConfig {
            lease_duration_ms: 30_000,
            heartbeat_timeout_ms: 15_000,
            max_task_attempts: 3,
            max_stage_partitions: 100_000,
        }
    }
}

fn coordinator_error(message: &str) -> (r: SparkXError)
    ensures
        r@ == coordinator_failure(message@),
{
    SparkXError::protocol(join("invalid coordinator transition: ", message))
}

impl CoordinatorConfig {
    fn validate(self) -> (r: Result<(), SparkXError>)
        ensures
            outcome(r) == self.check(),
    {
        if self.lease_duration_ms == 0 {
            return Err(coordinator_error("lease duration must be greater than zero"));
        }
        if self.heartbeat_timeout_ms == 0 {
            return Err(coordinator_error("heartbeat timeout must be greater than zero"));
        }
        if self.max_task_attempts == 0 {
            return Err(coordinator_error("maximum task attempts must be greater than zero"));
        }
        if self.max_stage_partitions == 0 {
            return Err(coordinator_error("maximum stage partitions must be greater than zero"));
        }
        Ok(())
    }
}

/// What a caller is told of a stage.
#[derive(Debug, Clone, Copy, PartialEq, Eq, Structural)]
pub enum StageStatus {
    Blocked,
    Ready,
    Running,
    Succeeded,
    Failed,
    Cancelled,
}

/// What a caller is told of a partition.
#[derive(Debug, PartialEq, Eq)]
pub enum PartitionStatus {
    Pending { next_attempt: u32 },
    Running { attempt: u32 },
    Succeeded { attempt: u32 },
    Failed { attempt: u32, error: String },
    Cancelled,
}

impl View for PartitionStatus {
    type V = PartitionStatusView;

    open spec fn view(&self) -> PartitionStatusView {
        match self {
            PartitionStatus::Pending { next_attempt } => PartitionStatusView::Pending {
                next_attempt: *next_attempt,
            },
            PartitionStatus::Running { attempt } => PartitionStatusView::Running {
                attempt: *attempt,
            },
            PartitionStatus::Succeeded { attempt } => PartitionStatusView::Succeeded {
                attempt: *attempt,
            },
            PartitionStatus::Failed { attempt, error } => PartitionStatusView::Failed {
                attempt: *attempt,
                error: error@,
            },
            PartitionStatus::Cancelled => PartitionStatusView::Cancelled,
        }
    }
}

#[derive(Debug)]
struct WorkerRuntime {
    registration: WorkerRegistration,
    last_observed_at_ms: u64,
    last_received_at_ms: u64,
    available_slots: u32,
    available_memory_bytes: u64,
    alive: bool,
}

impl View for WorkerRuntime {
    type V = WorkerState;

    closed spec fn view(&self) -> WorkerState {
        WorkerState {
            registration: self.registration@,
            last_observed_at_ms: self.last_observed_at_ms,
            last_received_at_ms: self.last_received_at_ms,
            available_slots: self.available_slots,
            available_memory_bytes: self.available_memory_bytes,
            alive: self.alive,
        }
    }
}

#[derive(Debug)]
enum PartitionRuntime {
    Pending { next_attempt: u32 },
    Active {
        task: TaskAttemptId,
        worker_id: WorkerId,
        lease: TaskLease,
        started_at_ms: Option<u64>,
    },
    Succeeded { task: TaskAttemptId, output_blocks: Vec<ShuffleBlock> },
    Failed { attempt: u32, error: String },
    Cancelled,
}

impl View for PartitionRuntime {
    type V = PartitionState;

    closed spec fn view(&self) -> PartitionState {
        match self {
            PartitionRuntime::Pending { next_attempt } => PartitionState::Pending {
                next_attempt: *next_attempt,
            },
            PartitionRuntime::Active { task, worker_id, lease, started_at_ms } => {
                PartitionState::Active {
                    task: task@,
                    worker_id: worker_id@,
                    lease: lease@,
                    started_at_ms: *started_at_ms,
                }
            },
            PartitionRuntime::Succeeded { task, output_blocks } => PartitionState::Succeeded {
                task: task@,
                output_blocks: block_views(output_blocks@),
            },
            PartitionRuntime::Failed { attempt, error } => PartitionState::Failed {
                attempt: *attempt,
                error: error@,
            },
            PartitionRuntime::Cancelled => PartitionState::Cancelled,
        }
    }
}

#[derive(Debug)]
struct StageRuntime {
    plan: StagePlan,
    partitions: Vec<PartitionRuntime>,
}

impl View for StageRuntime {
    type V = StageState;

    closed spec fn view(&self) -> StageState {
        StageState { plan: self.plan@, partitions: partition_states(self.partitions@) }
    }
}

#[derive(Debug)]
struct CancelledQuery {
    query_id: QueryId,
    reason: String,
}

impl View for CancelledQuery {
    type V = Cancellation;

    closed spec fn view(&self) -> Cancellation {
        Cancellation { query_id: self.query_id@, reason: self.reason@ }
    }
}

spec fn worker_states(workers: Seq<WorkerRuntime>) -> Seq<WorkerState> {
    Seq::new(workers.len(), |i: int| workers[i]@)
}

spec fn partition_states(partitions: Seq<PartitionRuntime>) -> Seq<PartitionState> {
    Seq::new(partitions.len(), |i: int| partitions[i]@)
}

spec fn stage_states(stages: Seq<StageRuntime>) -> Seq<StageState> {
    Seq::new(stages.len(), |i: int| stages[i]@)
}

spec fn cancellations(queries: Seq<CancelledQuery>) -> Seq<Cancellation> {
    Seq::new(queries.len(), |i: int| queries[i]@)
}

/// The state of a cluster's scheduling.
///
/// Workers are kept in the order of their identifiers and stages in the order of query and
/// number, which makes every choice of the coordinator a function of its state.
#[derive(Debug)]
pub struct Coordinator {
    config: CoordinatorConfig,
    workers: Vec<WorkerRuntime>,
    stages: Vec<StageRuntime>,
    cancelled_queries: Vec<CancelledQuery>,
}

impl View for Coordinator {
    type V = CoordinatorState;

    closed spec fn view(&self) -> CoordinatorState {
        CoordinatorState {
            config: self.config,
            workers: worker_states(self.workers@),
            stages: stage_states(self.stages@),
            cancelled: cancellations(self.cancelled_queries@),
        }
    }
}

/// The result of a request for a task, as contracts see it.
pub open spec fn assignment_outcome(
    r: Result<Option<CoordinatorMessage>, SparkXError>,
) -> Result<Option<CoordinatorMessageView>, ErrorView> {
    match r {
        Ok(Some(message)) => Ok(Some(message@)),
        Ok(None) => Ok(None),
        Err(error) => Err(error@),
    }
}

/// The result of a cancellation, as contracts see it.
pub open spec fn cancellation_outcome(r: Result<CoordinatorMessage, SparkXError>) -> Result<
    CoordinatorMessageView,
    ErrorView,
> {
    match r {
        Ok(message) => Ok(message@),
        Err(error) => Err(error@),
    }
}

fn stage_not_found(query_id: &QueryId, stage_id: StageId) -> (r: SparkXError)
    ensures
        r@ == stage_not_found_failure(query_id@, stage_id),
{
    let mut message: String = join("query ", query_id.as_str());
    message.append(" stage ");
    message.append(decimal(stage_id.0 as u64).as_str());
    message.append(" is not registered with the coordinator");
    SparkXError::NotFound(message)
}

fn query_not_found(query_id: &QueryId) -> (r: SparkXError)
    ensures
        r@ == query_not_found_failure(query_id@),
{
    let mut message: String = join("query ", query_id.as_str());
    message.append(" is not registered with the coordinator");
    SparkXError::NotFound(message)
}

fn retry_or_fail(max_task_attempts: u32, attempt: u32, error: &str) -> (r: PartitionRuntime)
    ensures
        r@ == retried(max_task_attempts, attempt, error@),
{
    let next_attempt: u32 = attempt.saturating_add(1);
    if next_attempt < max_task_attempts {
        PartitionRuntime::Pending { next_attempt }
    } else {
        PartitionRuntime::Failed { attempt, error: error.to_owned() }
    }
}

fn validate_reported_time(
    event: &str,
    timestamp_ms: u64,
    lease: &TaskLease,
    received_at_ms: u64,
) -> (r: Result<(), SparkXError>)
    ensures
        outcome(r) == reported_time_check(event@, timestamp_ms, lease@, received_at_ms),
{
    if timestamp_ms < lease.issued_at_ms {
        let message = join(join("task ", event).as_str(), " before its lease was issued");
        return Err(coordinator_error(message.as_str()));
    }
    if timestamp_ms >= lease.expires_at_ms {
        let message = join(join("task ", event).as_str(), " after its lease expired");
        return Err(coordinator_error(message.as_str()));
    }
    if timestamp_ms > received_at_ms {
        let message = join(
            join("task ", event).as_str(),
            " time is later than the coordinator receive time",
        );
        return Err(coordinator_error(message.as_str()));
    }
    Ok(())
}

/// Whether every partition of a stage has succeeded.
fn all_succeeded(stage: &StageRuntime) -> (r: bool)
    ensures
        r == stage@.all_succeeded(),
{
    for p in 0..stage.partitions.len()
        invariant
            forall|k: int| 0 <= k < p ==> (#[trigger] stage@.partitions[k]) is Succeeded,
    {
        match &stage.partitions[p] {
            PartitionRuntime::Succeeded { .. } => {},
            _ => {
                proof {
                    assert(!(stage@.partitions[p as int] is Succeeded));
                }
                return false;
            },
        }
    }
    true
}

/// The first pending partition of a stage and the attempt that it waits for.
fn first_pending(stage: &StageRuntime) -> (r: Option<(usize, u32)>)
    ensures
        match r {
            Some((p, attempt)) => {
                &&& stage@.pending_from(0) == Some(p as int)
                &&& p < stage@.partitions.len()
                &&& stage@.partitions[p as int] == (PartitionState::Pending {
                    next_attempt: attempt,
                })
            },
            None => stage@.pending_from(0) is None,
        },
{
    for p in 0..stage.partitions.len()
        invariant
            stage@.pending_from(0) == stage@.pending_from(p as int),
    {
        if let PartitionRuntime::Pending { next_attempt } = &stage.partitions[p] {
            return Some((p, *next_attempt));
        }
    }
    None
}

/// How stage `stage_id` of `query_id` stands to `stage` in the order of stages.
fn relate_stage(query_id: &QueryId, stage_id: StageId, stage: &StageRuntime) -> (r: Relation)
    ensures
        r == Relation::Less <==> (before(query_id@, stage@.plan.query_id) || (query_id@
            == stage@.plan.query_id && stage_id.0 < stage@.plan.stage_id.0)),
        r == Relation::Same <==> stage@.is(query_id@, stage_id),
        r == Relation::Greater <==> (before(stage@.plan.query_id, query_id@) || (query_id@
            == stage@.plan.query_id && stage@.plan.stage_id.0 < stage_id.0)),
{
    proof {
        before_is_strict(query_id@, stage@.plan.query_id);
    }
    match query_id.relate(&stage.plan.query_id) {
        Relation::Less => Relation::Less,
        Relation::Greater => Relation::Greater,
        Relation::Same => {
            if stage_id.0 < stage.plan.stage_id.0 {
                Relation::Less
            } else if stage_id.0 > stage.plan.stage_id.0 {
                Relation::Greater
            } else {
                Relation::Same
            }
        },
    }
}

impl Coordinator {
    /// Whether the state is one that a coordinator can be in.
    pub open spec fn wf(&self) -> bool {
        self@.wf()
    }

    /// A coordinator without workers and stages.
    pub fn new(config: CoordinatorConfig) -> (r: Result<Self, SparkXError>)
        ensures
            match r {
                Ok(coordinator) => {
                    &&& config.check() is Ok
                    &&& coordinator@ == CoordinatorState::initial(config)
                    &&& coordinator.wf()
                },
                Err(error) => config.check() == Err::<(), _>(error@),
            },
    {
        match config.validate() {
            Ok(()) => {},
            Err(error) => return Err(error),
        }
        let coordinator = Coordinator {
            config,
            workers: Vec::new(),
            stages: Vec::new(),
            cancelled_queries: Vec::new(),
        };
        proof {
            initial_is_valid(config);
            assert(coordinator@.workers =~= Seq::empty());
            assert(coordinator@.stages =~= Seq::empty());
            assert(coordinator@.cancelled =~= Seq::empty());
        }
        Ok(coordinator)
    }

    /// The number of workers that ever registered.
    pub fn worker_count(&self) -> (r: usize)
        ensures
            r == self@.workers.len(),
    {
        self.workers.len()
    }

    /// The place of the first worker that does not come before `id`.
    fn locate_worker(&self, id: &WorkerId) -> (at: usize)
        requires
            self@.ordered(),
        ensures
            at <= self@.workers.len(),
            forall|k: int| 0 <= k < at ==> before((#[trigger] self@.workers[k]).id(), id@),
            forall|k: int|
                at <= k < self@.workers.len() ==> !before((#[trigger] self@.workers[k]).id(), id@),
    {
        let mut low: usize = 0;
        let mut high: usize = self.workers.len();
        while low < high
            invariant
                self@.ordered(),
                low <= high <= self.workers.len(),
                forall|k: int| 0 <= k < low ==> before((#[trigger] self@.workers[k]).id(), id@),
                forall|k: int|
                    high <= k < self@.workers.len() ==> !before(
                        (#[trigger] self@.workers[k]).id(),
                        id@,
                    ),
            decreases high - low,
        {
            let middle: usize = low + (high - low) / 2;
            let ghost at_middle = self@.workers[middle as int].id();
            match self.workers[middle].registration.worker_id.relate(id) {
                Relation::Less => {
                    proof {
                        assert forall|k: int| 0 <= k < middle + 1 implies before(
                            (#[trigger] self@.workers[k]).id(),
                            id@,
                        ) by {
                            if k < middle {
                                before_is_transitive(self@.workers[k].id(), at_middle, id@);
                            }
                        }
                    }
                    low = middle + 1;
                },
                _ => {
                    proof {
                        assert forall|k: int| middle <= k < self@.workers.len() implies !before(
                            (#[trigger] self@.workers[k]).id(),
                            id@,
                        ) by {
                            if middle < k && before(self@.workers[k].id(), id@) {
                                before_is_transitive(at_middle, self@.workers[k].id(), id@);
                            }
                        }
                    }
                    high = middle;
                },
            }
        }
        low
    }

    /// The place of worker `id`.
    fn find_worker(&self, id: &WorkerId) -> (r: Option<usize>)
        requires
            self@.ordered(),
        ensures
            match r {
                Some(i) => {
                    &&& i < self@.workers.len()
                    &&& self@.workers[i as int].id() == id@
                    &&& self@.has_worker(id@)
                    &&& self@.worker_index(id@) == i
                },
                None => !self@.has_worker(id@),
            },
    {
        let at: usize = self.locate_worker(id);
        if at < self.workers.len() && self.workers[at].registration.worker_id.same(id) {
            proof {
                worker_index_is(self@, at as int);
            }
            Some(at)
        } else {
            proof {
                before_is_strict(id@, id@);
                if self@.has_worker(id@) {
                    let k = self@.worker_index(id@);
                    assert(self@.workers[k].id() == id@);
                    if at < k {
                        assert(before(self@.workers[at as int].id(), self@.workers[k].id()));
                    } else if k < at {
                        assert(before(self@.workers[k].id(), id@));
                    }
                }
            }
            None
        }
    }

    /// The place of the first stage that does not come before stage `stage_id` of `query_id`.
    fn locate_stage(&self, query_id: &QueryId, stage_id: StageId) -> (at: usize)
        requires
            self@.ordered(),
        ensures
            at <= self@.stages.len(),
            forall|k: int|
                0 <= k < at ==> before((#[trigger] self@.stages[k]).plan.query_id, query_id@) || (
                self@.stages[k].plan.query_id == query_id@ && self@.stages[k].plan.stage_id.0
                    < stage_id.0),
            forall|k: int|
                at <= k < self@.stages.len() ==> !before(
                    (#[trigger] self@.stages[k]).plan.query_id,
                    query_id@,
                ) && !(self@.stages[k].plan.query_id == query_id@
                    && self@.stages[k].plan.stage_id.0 < stage_id.0),
    {
        let mut low: usize = 0;
        let mut high: usize = self.stages.len();
        while low < high
            invariant
                self@.ordered(),
                low <= high <= self.stages.len(),
                forall|k: int|
                    0 <= k < low ==> before((#[trigger] self@.stages[k]).plan.query_id, query_id@)
                        || (self@.stages[k].plan.query_id == query_id@
                        && self@.stages[k].plan.stage_id.0 < stage_id.0),
                forall|k: int|
                    high <= k < self@.stages.len() ==> !before(
                        (#[trigger] self@.stages[k]).plan.query_id,
                        query_id@,
                    ) && !(self@.stages[k].plan.query_id == query_id@
                        && self@.stages[k].plan.stage_id.0 < stage_id.0),
            decreases high - low,
        {
            let middle: usize = low + (high - low) / 2;
            let ghost at_middle = self@.stages[middle as int];
            match relate_stage(query_id, stage_id, &self.stages[middle]) {
                Relation::Greater => {
                    proof {
                        assert forall|k: int| 0 <= k < middle + 1 implies before(
                            (#[trigger] self@.stages[k]).plan.query_id,
                            query_id@,
                        ) || (self@.stages[k].plan.query_id == query_id@
                            && self@.stages[k].plan.stage_id.0 < stage_id.0) by {
                            if k < middle {
                                assert(stage_before(self@.stages[k], at_middle));
                                if before(self@.stages[k].plan.query_id, at_middle.plan.query_id)
                                    && before(at_middle.plan.query_id, query_id@) {
                                    before_is_transitive(
                                        self@.stages[k].plan.query_id,
                                        at_middle.plan.query_id,
                                        query_id@,
                                    );
                                }
                            }
                        }
                    }
                    low = middle + 1;
                },
                _ => {
                    proof {
                        before_is_strict(at_middle.plan.query_id, query_id@);
                        assert forall|k: int| middle <= k < self@.stages.len() implies !before(
                            (#[trigger] self@.stages[k]).plan.query_id,
                            query_id@,
                        ) && !(self@.stages[k].plan.query_id == query_id@
                            && self@.stages[k].plan.stage_id.0 < stage_id.0) by {
                            if middle < k {
                                assert(stage_before(at_middle, self@.stages[k]));
                                if before(self@.stages[k].plan.query_id, query_id@) && before(
                                    at_middle.plan.query_id,
                                    self@.stages[k].plan.query_id,
                                ) {
                                    before_is_transitive(
                                        at_middle.plan.query_id,
                                        self@.stages[k].plan.query_id,
                                        query_id@,
                                    );
                                }
                            }
                        }
                    }
                    high = middle;
                },
            }
        }
        low
    }

    /// The place of stage `stage_id` of `query_id`.
    fn find_stage(&self, query_id: &QueryId, stage_id: StageId) -> (r: Option<usize>)
        requires
            self@.ordered(),
        ensures
            match r {
                Some(i) => {
                    &&& i < self@.stages.len()
                    &&& self@.stages[i as int].is(query_id@, stage_id)
                    &&& self@.has_stage(query_id@, stage_id)
                    &&& self@.stage_index(query_id@, stage_id) == i
                },
                None => !self@.has_stage(query_id@, stage_id),
            },
    {
        let at: usize = self.locate_stage(query_id, stage_id);
        if at < self.stages.len() {
            if let Relation::Same = relate_stage(query_id, stage_id, &self.stages[at]) {
                proof {
                    stage_index_is(self@, at as int);
                }
                return Some(at);
            }
        }
        proof {
            before_is_strict(query_id@, query_id@);
            if self@.has_stage(query_id@, stage_id) {
                let k = self@.stage_index(query_id@, stage_id);
                assert(self@.stages[k].is(query_id@, stage_id));
                if at < k {
                    assert(stage_before(self@.stages[at as int], self@.stages[k]));
                }
            }
        }
        None
    }

    fn query_is_known(&self, query_id: &QueryId) -> (r: bool)
        ensures
            r == self@.has_query(query_id@),
    {
        for i in 0..self.stages.len()
            invariant
                forall|k: int|
                    0 <= k < i ==> (#[trigger] self@.stages[k]).plan.query_id != query_id@,
        {
            if self.stages[i].plan.query_id.same(query_id) {
                proof {
                    assert(self@.stages[i as int].plan.query_id == query_id@);
                }
                return true;
            }
        }
        false
    }

    /// Where the cancellation of a query is noted.
    fn find_cancellation(&self, query_id: &QueryId) -> (r: Option<usize>)
        ensures
            match r {
                Some(i) => i < self@.cancelled.len() && self@.cancelled[i as int].query_id
                    == query_id@ && self@.is_cancelled(query_id@),
                None => !self@.is_cancelled(query_id@),
            },
    {
        for i in 0..self.cancelled_queries.len()
            invariant
                forall|k: int| 0 <= k < i ==> (#[trigger] self@.cancelled[k]).query_id != query_id@,
        {
            if self.cancelled_queries[i].query_id.same(query_id) {
                proof {
                    assert(self@.cancelled[i as int].query_id == query_id@);
                }
                return Some(i);
            }
        }
        None
    }

    fn dependencies_succeeded(&self, stage: &StageRuntime) -> (r: bool)
        requires
            self@.ordered(),
        ensures
            r == self@.dependencies_succeeded(stage@),
    {
        for k in 0..stage.plan.input_stages.len()
            invariant
                self@.ordered(),
                forall|j: int|
                    0 <= j < k ==> self@.stage_succeeded(
                        stage@.plan.query_id,
                        #[trigger] stage@.plan.input_stages[j],
                    ),
        {
            let dependency = stage.plan.input_stages[k];
            let done: bool = match self.find_stage(&stage.plan.query_id, dependency) {
                Some(i) => all_succeeded(&self.stages[i]),
                None => false,
            };
            if !done {
                proof {
                    assert(stage@.plan.input_stages[k as int] == dependency);
                    if self@.stage_succeeded(stage@.plan.query_id, dependency) {
                        let i = choose|i: int|
                            0 <= i < self@.stages.len() && (#[trigger] self@.stages[i]).is(
                                stage@.plan.query_id,
                                dependency,
                            ) && self@.stages[i].all_succeeded();
                        stage_index_is(self@, i);
                    }
                }
                return false;
            }
            proof {
                let i = self@.stage_index(stage@.plan.query_id, dependency);
                assert(self@.stages[i].is(stage@.plan.query_id, dependency));
            }
        }
        true
    }
}

impl Coordinator {
    fn set_partition(&mut self, s: usize, p: usize, partition: PartitionRuntime)
        requires
            s < old(self)@.stages.len(),
            p < old(self)@.stages[s as int].partitions.len(),
        ensures
            final(self)@ == old(self)@.with_partition(s as int, p as int, partition@),
    {
        let ghost before_stages = self@.stages;
        self.stages[s].partitions[p] = partition;
        proof {
            let stage = before_stages[s as int].with_partition(p as int, partition@);
            assert(self@.stages[s as int].partitions =~= stage.partitions);
            assert(self@.stages =~= before_stages.update(s as int, stage));
        }
    }

    fn release_slot(&mut self, w: usize)
        requires
            w < old(self)@.workers.len(),
            old(self)@.workers[w as int].available_slots
                <= old(self)@.workers[w as int].registration.slots,
        ensures
            final(self)@ == old(self)@.with_worker(w as int, old(self)@.workers[w as int].released(1)),
    {
        let ghost before_workers = self@.workers;
        if self.workers[w].alive {
            if self.workers[w].available_slots < self.workers[w].registration.slots {
                let slots: u32 = self.workers[w].available_slots + 1;
                self.workers[w].available_slots = slots;
            }
        }
        proof {
            assert(self@.workers =~= before_workers.update(
                w as int,
                before_workers[w as int].released(1),
            ));
        }
    }

    /// Gives up the workers that were silent for too long, and says which those are.
    fn give_up_silent_workers(&mut self, now_ms: u64) -> (lost: Vec<bool>)
        ensures
            final(self)@ == (CoordinatorState {
                workers: Seq::new(
                    old(self)@.workers.len(),
                    |i: int|
                        if old(self)@.times_out(old(self)@.workers[i], now_ms) {
                            old(self)@.workers[i].lost()
                        } else {
                            old(self)@.workers[i]
                        },
                ),
                ..old(self)@
            }),
            lost.len() == old(self)@.workers.len(),
            forall|i: int|
                0 <= i < lost.len() ==> lost@[i] == old(self)@.times_out(
                    #[trigger] old(self)@.workers[i],
                    now_ms,
                ),
    {
        let ghost state = self@;
        let mut lost: Vec<bool> = Vec::new();
        let count: usize = self.workers.len();
        let mut i: usize = 0;
        while i < count
            invariant
                i <= count,
                count == state.workers.len(),
                lost.len() == i,
                self@.config == state.config,
                self@.stages == state.stages,
                self@.cancelled == state.cancelled,
                self@.workers.len() == count,
                self.config == state.config,
                forall|k: int|
                    0 <= k < i ==> {
                        &&& lost@[k] == state.times_out(#[trigger] state.workers[k], now_ms)
                        &&& self@.workers[k] == if lost@[k] {
                            state.workers[k].lost()
                        } else {
                            state.workers[k]
                        }
                    },
                forall|k: int| i <= k < count ==> #[trigger] self@.workers[k] == state.workers[k],
            decreases count - i,
        {
            let worker = &self.workers[i];
            let ghost worker_state = worker@;
            proof {
                assert(self@.workers[i as int] == state.workers[i as int]);
            }
            let gone: bool = worker.alive && now_ms.saturating_sub(worker.last_received_at_ms)
                > self.config.heartbeat_timeout_ms;
            if gone {
                let ghost before_workers = self@.workers;
                self.workers[i].alive = false;
                self.workers[i].available_slots = 0;
                self.workers[i].available_memory_bytes = 0;
                proof {
                    assert(self@.workers =~= before_workers.update(i as int, worker_state.lost()));
                }
            }
            lost.push(gone);
            i += 1;
        }
        proof {
            assert(self@.workers =~= Seq::new(
                state.workers.len(),
                |i: int|
                    if state.times_out(state.workers[i], now_ms) {
                        state.workers[i].lost()
                    } else {
                        state.workers[i]
                    },
            ));
        }
        lost
    }

    /// Lets the clock go on to `now_ms`.
    pub fn advance_time(&mut self, now_ms: u64) -> (r: Result<(), SparkXError>)
        requires
            old(self).wf(),
        ensures
            final(self)@ == old(self)@.advanced(now_ms),
            final(self).wf(),
            r is Ok,
    {
        let ghost state = self@;
        let lost = self.give_up_silent_workers(now_ms);
        let stage_count: usize = self.stages.len();
        let max_task_attempts: u32 = self.config.max_task_attempts;
        proof {
            assert forall|i: int| 0 <= i < state.workers.len() implies #[trigger] self@.workers[i]
                == partly_advanced_worker(state, i, now_ms, 0, 0) by {
                assert(state.worker_wf(state.workers[i]));
            }
            assert(self@.ordered()) by {
                same_ids_are_ordered(state, self@);
            }
        }
        let mut s: usize = 0;
        while s < stage_count
            invariant
                s <= stage_count,
                stage_count == state.stages.len(),
                max_task_attempts == state.config.max_task_attempts,
                state.wf(),
                lost.len() == state.workers.len(),
                forall|i: int|
                    0 <= i < lost.len() ==> lost@[i] == state.times_out(
                        #[trigger] state.workers[i],
                        now_ms,
                    ),
                self@.ordered(),
                self@.config == state.config,
                self@.cancelled == state.cancelled,
                self@.workers.len() == state.workers.len(),
                self@.stages.len() == state.stages.len(),
                forall|i: int|
                    0 <= i < state.workers.len() ==> #[trigger] self@.workers[i]
                        == partly_advanced_worker(state, i, now_ms, s as int, 0),
                forall|i: int|
                    0 <= i < s ==> #[trigger] self@.stages[i] == state.advanced_stage(
                        state.stages[i],
                        now_ms,
                    ),
                forall|i: int|
                    s <= i < state.stages.len() ==> #[trigger] self@.stages[i] == state.stages[i],
            decreases stage_count - s,
        {
            let partition_count: usize = self.stages[s].partitions.len();
            proof {
                assert(self@.stages[s as int] == state.stages[s as int]);
            }
            let mut p: usize = 0;
            while p < partition_count
                invariant
                    s < stage_count,
                    p <= partition_count,
                    stage_count == state.stages.len(),
                    partition_count == state.stages[s as int].partitions.len(),
                    max_task_attempts == state.config.max_task_attempts,
                    state.wf(),
                    lost.len() == state.workers.len(),
                    forall|i: int|
                        0 <= i < lost.len() ==> lost@[i] == state.times_out(
                            #[trigger] state.workers[i],
                            now_ms,
                        ),
                    self@.ordered(),
                    self@.config == state.config,
                    self@.cancelled == state.cancelled,
                    self@.workers.len() == state.workers.len(),
                    self@.stages.len() == state.stages.len(),
                    forall|i: int|
                        0 <= i < state.workers.len() ==> #[trigger] self@.workers[i]
                            == partly_advanced_worker(state, i, now_ms, s as int, p as int),
                    forall|i: int|
                        0 <= i < s ==> #[trigger] self@.stages[i] == state.advanced_stage(
                            state.stages[i],
                            now_ms,
                        ),
                    forall|i: int|
                        s < i < state.stages.len() ==> #[trigger] self@.stages[i]
                            == state.stages[i],
                    self@.stages[s as int].plan == state.stages[s as int].plan,
                    self@.stages[s as int].partitions.len() == partition_count,
                    forall|q: int|
                        0 <= q < p ==> #[trigger] self@.stages[s as int].partitions[q]
                            == state.advanced_partition(
                            state.stages[s as int].partitions[q],
                            now_ms,
                        ),
                    forall|q: int|
                        p <= q < partition_count ==> #[trigger] self@.stages[s as int].partitions[q]
                            == state.stages[s as int].partitions[q],
                decreases partition_count - p,
            {
                let ghost partition = state.stages[s as int].partitions[p as int];
                let ghost before_step = self@;
                let mut replacement: Option<PartitionRuntime> = None;
                let mut freed: Option<usize> = None;
                proof {
                    assert(self@.stages[s as int].partitions[p as int] == partition);
                    assert(state.stage_wf(state.stages[s as int]));
                    assert(state.partition_wf(
                        state.stages[s as int].plan,
                        p as int,
                        partition,
                    ));
                    crate::coordinator::worker_step(state, now_ms, s as int, p as int);
                }
                if let PartitionRuntime::Active { task, worker_id, lease, .. } = &self.stages[s]
                    .partitions[p] {
                    let ghost id = worker_id@;
                    proof {
                        assert(partition->worker_id == id);
                        let i = state.worker_index(id);
                        assert(state.workers[i].id() == id);
                        assert(self@.workers[i].id() == id);
                    }
                    match self.find_worker(worker_id) {
                        Some(w) => {
                            proof {
                                assert(self@.workers[w as int].id() == state.workers[w as int].id());
                                times_out_is_by_worker(state, w as int, now_ms);
                            }
                            if lost[w] {
                                replacement = Some(
                                    retry_or_fail(
                                        max_task_attempts,
                                        task.attempt,
                                        "worker heartbeat timed out",
                                    ),
                                );
                            } else if lease.expires_at_ms <= now_ms {
                                replacement = Some(
                                    retry_or_fail(
                                        max_task_attempts,
                                        task.attempt,
                                        "task lease expired",
                                    ),
                                );
                                freed = Some(w);
                            }
                        },
                        None => {
                            proof {
                                assert(self@.has_worker(id));
                            }
                        },
                    }
                }
                if let Some(w) = freed {
                    proof {
                        assert(state.worker_wf(state.workers[w as int]));
                        released_stays_within(
                            state.workers[w as int],
                            partly_expired(
                                state,
                                state.workers[w as int].id(),
                                now_ms,
                                s as int,
                                p as int,
                            ),
                        );
                    }
                    self.release_slot(w);
                }
                if let Some(partition_now) = replacement {
                    self.set_partition(s, p, partition_now);
                }
                proof {
                    assert forall|i: int| 0 <= i < state.workers.len() implies
                        #[trigger] self@.workers[i] == partly_advanced_worker(
                        state,
                        i,
                        now_ms,
                        s as int,
                        p + 1,
                    ) by {
                        assert(before_step.workers[i] == partly_advanced_worker(
                            state,
                            i,
                            now_ms,
                            s as int,
                            p as int,
                        ));
                        worker_index_is(state, i);
                        times_out_is_by_worker(state, i, now_ms);
                        assert(state.worker_wf(state.workers[i]));
                        released_stays_within(
                            state.workers[i],
                            partly_expired(
                                state,
                                state.workers[i].id(),
                                now_ms,
                                s as int,
                                p as int,
                            ),
                        );
                        if let Some(w) = freed {
                            worker_index_is(state, w as int);
                        }
                    }
                    same_ids_are_ordered(state, self@);
                }
                p += 1;
            }
            proof {
                assert(self@.stages[s as int].partitions =~= state.advanced_stage(
                    state.stages[s as int],
                    now_ms,
                ).partitions);
            }
            s += 1;
        }
        proof {
            time_keeps_validity(state, now_ms);
            assert forall|i: int| 0 <= i < state.workers.len() implies #[trigger] self@.workers[i]
                == state.advanced_worker(state.workers[i], now_ms) by {}
            assert(self@.workers =~= state.advanced(now_ms).workers);
            assert(self@.stages =~= state.advanced(now_ms).stages);
        }
        Ok(())
    }
}

/// How many leases of a worker have run out among the first `s` stages and the first `p`
/// partitions of the next.
spec fn partly_expired(
    state: CoordinatorState,
    id: Seq<char>,
    now_ms: u64,
    s: int,
    p: int,
) -> nat {
    count_in_stages(state.stages, s, expired(id, now_ms)) + count_in_stage(
        state.stages[s],
        p,
        expired(id, now_ms),
    )
}

/// A worker once the clock has gone on for the first `s` stages and the first `p` partitions of
/// the next.
spec fn partly_advanced_worker(
    state: CoordinatorState,
    i: int,
    now_ms: u64,
    s: int,
    p: int,
) -> WorkerState {
    let worker = state.workers[i];
    if state.times_out(worker, now_ms) {
        worker.lost()
    } else {
        worker.released(partly_expired(state, worker.id(), now_ms, s, p))
    }
}

proof fn worker_step(state: CoordinatorState, now_ms: u64, s: int, p: int)
    requires
        0 <= s < state.stages.len(),
        0 <= p < state.stages[s].partitions.len(),
    ensures
        forall|id: Seq<char>| #[trigger]
            partly_expired(state, id, now_ms, s, p + 1) == partly_expired(state, id, now_ms, s, p)
                + if state.stages[s].partitions[p].leased_to(id)
                && state.stages[s].partitions[p].lease_expired(now_ms) {
                1nat
            } else {
                0nat
            },
{
}

/// Slots that are given back one by one are given back together.
proof fn released_stays_within(worker: WorkerState, count: nat)
    requires
        worker.available_slots <= worker.registration.slots,
    ensures
        worker.released(count).available_slots <= worker.registration.slots,
        worker.released(count).released(1) == worker.released(count + 1),
        worker.released(0) == worker,
{
}

/// The order of a state's records is that of their names alone.
proof fn same_ids_are_ordered(a: CoordinatorState, b: CoordinatorState)
    requires
        a.ordered(),
        a.cancelled == b.cancelled,
        a.workers.len() == b.workers.len(),
        a.stages.len() == b.stages.len(),
        forall|i: int|
            0 <= i < a.workers.len() ==> (#[trigger] b.workers[i]).id() == a.workers[i].id(),
        forall|i: int|
            0 <= i < a.stages.len() ==> (#[trigger] b.stages[i]).plan == a.stages[i].plan,
    ensures
        b.ordered(),
{
    assert forall|i: int, j: int| 0 <= i < j < b.workers.len() implies before(
        (#[trigger] b.workers[i]).id(),
        (#[trigger] b.workers[j]).id(),
    ) by {
        assert(before(a.workers[i].id(), a.workers[j].id()));
    }
    assert forall|i: int, j: int| 0 <= i < j < b.stages.len() implies stage_before(
        #[trigger] b.stages[i],
        #[trigger] b.stages[j],
    ) by {
        assert(stage_before(a.stages[i], a.stages[j]));
    }
}

/// A stage that is put where those before it come first and those behind it later.
proof fn inserted_stage_is_in_order(
    state: CoordinatorState,
    at: int,
    fresh: StageState,
    next: CoordinatorState,
)
    requires
        state.ordered(),
        0 <= at <= state.stages.len(),
        next == (CoordinatorState { stages: state.stages.insert(at, fresh), ..state }),
        !state.has_stage(fresh.plan.query_id, fresh.plan.stage_id),
        forall|k: int|
            0 <= k < at ==> before(
                (#[trigger] state.stages[k]).plan.query_id,
                fresh.plan.query_id,
            ) || (state.stages[k].plan.query_id == fresh.plan.query_id
                && state.stages[k].plan.stage_id.0 < fresh.plan.stage_id.0),
        forall|k: int|
            at <= k < state.stages.len() ==> !before(
                (#[trigger] state.stages[k]).plan.query_id,
                fresh.plan.query_id,
            ) && !(state.stages[k].plan.query_id == fresh.plan.query_id
                && state.stages[k].plan.stage_id.0 < fresh.plan.stage_id.0),
    ensures
        state.is_with_stage(fresh, next),
{
    assert forall|i: int, j: int| 0 <= i < j < next.stages.len() implies stage_before(
        #[trigger] next.stages[i],
        #[trigger] next.stages[j],
    ) by {
        if j < at {
            assert(stage_before(state.stages[i], state.stages[j]));
        } else if j == at {
            assert(next.stages[i] == state.stages[i]);
        } else {
            let later = state.stages[j - 1];
            assert(next.stages[j] == later);
            if i < at {
                assert(stage_before(state.stages[i], later));
            } else if i == at {
                before_is_total(fresh.plan.query_id, later.plan.query_id);
                assert(!later.is(fresh.plan.query_id, fresh.plan.stage_id));
            } else {
                assert(stage_before(state.stages[i - 1], later));
            }
        }
    }
}

/// As many pending partitions as a stage has.
fn pending_partitions(count: u32) -> (r: Vec<PartitionRuntime>)
    ensures
        partition_states(r@) == Seq::new(
            count as nat,
            |p: int| PartitionState::Pending { next_attempt: 0 },
        ),
{
    let mut r: Vec<PartitionRuntime> = Vec::new();
    for i in 0..count
        invariant
            r.len() == i,
            forall|k: int|
                0 <= k < i ==> (#[trigger] r@[k])@ == (PartitionState::Pending { next_attempt: 0 }),
    {
        r.push(PartitionRuntime::Pending { next_attempt: 0 });
    }
    proof {
        assert(partition_states(r@) =~= Seq::new(
            count as nat,
            |p: int| PartitionState::Pending { next_attempt: 0 },
        ));
    }
    r
}

impl Coordinator {
    /// Takes on a stage, whose dependencies were submitted before it.
    pub fn submit_stage(&mut self, stage: StagePlan) -> (r: Result<(), SparkXError>)
        requires
            old(self).wf(),
        ensures
            final(self).wf(),
            outcome(r) == old(self)@.submission_check(stage@),
            r is Err ==> final(self)@ == old(self)@,
            r is Ok ==> old(self)@.is_with_stage(
                CoordinatorState::fresh_stage(stage@),
                final(self)@,
            ),
    {
        match stage.validate() {
            Ok(()) => {},
            Err(error) => return Err(error),
        }
        if stage.partition_count > self.config.max_stage_partitions {
            let mut message: String = join(
                "stage has ",
                decimal(stage.partition_count as u64).as_str(),
            );
            message.append(" partitions but the configured maximum is ");
            message.append(decimal(self.config.max_stage_partitions as u64).as_str());
            return Err(coordinator_error(message.as_str()));
        }
        if self.find_cancellation(&stage.query_id).is_some() {
            let message = join(join("query ", stage.query_id.as_str()).as_str(), " is already cancelled");
            return Err(coordinator_error(message.as_str()));
        }
        if self.find_stage(&stage.query_id, stage.stage_id).is_some() {
            let mut message: String = join("stage ", decimal(stage.stage_id.0 as u64).as_str());
            message.append(" for query ");
            message.append(stage.query_id.as_str());
            message.append(" is already submitted");
            return Err(coordinator_error(message.as_str()));
        }
        for k in 0..stage.input_stages.len()
            invariant
                old(self).wf(),
                self@ == old(self)@,
                !self@.has_stage(stage@.query_id, stage@.stage_id),
                old(self)@.submission_check(stage@) == self@.dependencies_check(stage@, k as int),
        {
            let dependency = stage.input_stages[k];
            if self.find_stage(&stage.query_id, dependency).is_none() {
                let mut message: String = join("stage ", decimal(stage.stage_id.0 as u64).as_str());
                message.append(" depends on unsubmitted stage ");
                message.append(decimal(dependency.0 as u64).as_str());
                return Err(coordinator_error(message.as_str()));
            }
        }
        let ghost plan = stage@;
        let ghost fresh = CoordinatorState::fresh_stage(plan);
        let ghost state = self@;
        let at: usize = self.locate_stage(&stage.query_id, stage.stage_id);
        let partitions = pending_partitions(stage.partition_count);
        self.stages.insert(at, StageRuntime { plan: stage, partitions });
        proof {
            assert(self@.stages =~= state.stages.insert(at as int, fresh));
            assert(self@.workers == state.workers);
            assert(self@.cancelled == state.cancelled);
            inserted_stage_is_in_order(state, at as int, fresh, self@);
            submission_keeps_validity(state, plan, self@);
        }
        Ok(())
    }

    /// Takes in a message of a worker that arrived at `received_at_ms`.
    pub fn handle_worker_message(&mut self, message: WorkerMessage, received_at_ms: u64) -> (r:
        Result<(), SparkXError>)
        requires
            old(self).wf(),
        ensures
            old(self)@.handles(message@, received_at_ms, final(self)@, outcome(r)),
            final(self).wf(),
    {
        match message.validate() {
            Ok(()) => {},
            Err(error) => return Err(error),
        }
        match self.advance_time(received_at_ms) {
            Ok(()) => {},
            Err(error) => return Err(error),
        }
        let ghost view = message@;
        let r = match message {
            WorkerMessage::Register { registration, .. } => self.register_worker(
                registration,
                received_at_ms,
            ),
            WorkerMessage::Heartbeat { heartbeat, .. } => self.record_heartbeat(
                heartbeat,
                received_at_ms,
            ),
            WorkerMessage::TaskUpdate { worker_id, task, state, .. } => self.record_task_update(
                worker_id,
                task,
                state,
                received_at_ms,
            ),
        };
        proof {
            message_keeps_validity(old(self)@, view, received_at_ms, self@, outcome(r));
        }
        r
    }

    fn register_worker(&mut self, registration: WorkerRegistration, received_at_ms: u64) -> (r:
        Result<(), SparkXError>)
        requires
            old(self).wf(),
        ensures
            old(self)@.registers(registration@, received_at_ms, final(self)@, outcome(r)),
    {
        let at: usize = self.locate_worker(&registration.worker_id);
        if self.find_worker(&registration.worker_id).is_some() {
            let message = join(
                join("worker ", registration.worker_id.as_str()).as_str(),
                " is already registered",
            );
            return Err(coordinator_error(message.as_str()));
        }
        let ghost state = self@;
        let ghost fresh = CoordinatorState::fresh_worker(registration@, received_at_ms);
        let worker = WorkerRuntime {
            available_slots: registration.slots,
            available_memory_bytes: registration.memory_bytes,
            registration,
            last_observed_at_ms: 0,
            last_received_at_ms: received_at_ms,
            alive: true,
        };
        self.workers.insert(at, worker);
        proof {
            assert(self@.workers =~= state.workers.insert(at as int, fresh));
            assert forall|i: int, j: int| 0 <= i < j < self@.workers.len() implies before(
                (#[trigger] self@.workers[i]).id(),
                (#[trigger] self@.workers[j]).id(),
            ) by {
                if j < at {
                    assert(before(state.workers[i].id(), state.workers[j].id()));
                } else if j == at {
                    assert(self@.workers[i] == state.workers[i]);
                } else {
                    let later = state.workers[j - 1];
                    assert(self@.workers[j] == later);
                    if i < at {
                        assert(before(state.workers[i].id(), later.id()));
                    } else if i == at {
                        before_is_total(fresh.id(), later.id());
                        assert(later.id() != fresh.id());
                    } else {
                        assert(before(state.workers[i - 1].id(), later.id()));
                    }
                }
            }
            assert(self@.stages == state.stages);
            assert(self@.cancelled == state.cancelled);
            assert(self@.ordered());
        }
        Ok(())
    }

    /// How many tasks a registered worker runs.
    fn active_tasks_for_worker(&self, worker_id: &WorkerId) -> (r: u32)
        requires
            count(self@.stages, leased(worker_id@)) <= u32::MAX,
        ensures
            r == count(self@.stages, leased(worker_id@)),
    {
        let mut active: u32 = 0;
        let ghost property = leased(worker_id@);
        for s in 0..self.stages.len()
            invariant
                property == leased(worker_id@),
                active == count_in_stages(self@.stages, s as int, property),
                count(self@.stages, property) <= u32::MAX,
        {
            let stage = &self.stages[s];
            let ghost earlier = count_in_stages(self@.stages, s as int, property);
            for p in 0..stage.partitions.len()
                invariant
                    s < self.stages.len(),
                    stage@ == self@.stages[s as int],
                    property == leased(worker_id@),
                    earlier == count_in_stages(self@.stages, s as int, property),
                    active == earlier + count_in_stage(stage@, p as int, property),
                    count(self@.stages, property) <= u32::MAX,
            {
                proof {
                    assert(stage@.partitions[p as int] == stage.partitions@[p as int]@);
                    counting::count_in_stage_grows(
                        stage@,
                        p + 1,
                        stage@.partitions.len() as int,
                        property,
                    );
                    counting::count_in_stages_grows(
                        self@.stages,
                        s + 1,
                        self@.stages.len() as int,
                        property,
                    );
                }
                if let PartitionRuntime::Active { worker_id: assigned, .. } = &stage.partitions[p] {
                    if assigned.same(worker_id) {
                        active += 1;
                    }
                }
            }
        }
        active
    }

    fn record_heartbeat(&mut self, heartbeat: WorkerHeartbeat, received_at_ms: u64) -> (r: Result<
        (),
        SparkXError,
    >)
        requires
            old(self).wf(),
        ensures
            (final(self)@, outcome(r)) == old(self)@.heartbeat(heartbeat@, received_at_ms),
    {
        let ghost state = self@;
        let id = heartbeat.worker_id.as_str();
        let w: usize = match self.find_worker(&heartbeat.worker_id) {
            Some(w) => w,
            None => {
                let message = join("heartbeat came from unregistered worker ", id);
                return Err(coordinator_error(message.as_str()));
            },
        };
        proof {
            assert(state.worker_wf(state.workers[w as int]));
        }
        let active_tasks: u32 = self.active_tasks_for_worker(&heartbeat.worker_id);
        let worker = &self.workers[w];
        if heartbeat.observed_at_ms < worker.last_observed_at_ms {
            let message = join(join("worker ", id).as_str(), " heartbeat time moved backwards");
            return Err(coordinator_error(message.as_str()));
        }
        let maximum_available_slots: u32 = worker.registration.slots.saturating_sub(active_tasks);
        if heartbeat.available_slots > maximum_available_slots {
            let mut message: String = join("worker ", id);
            message.append(" reports ");
            message.append(decimal(heartbeat.available_slots as u64).as_str());
            message.append(" available slots but at most ");
            message.append(decimal(maximum_available_slots as u64).as_str());
            message.append(" are possible");
            return Err(coordinator_error(message.as_str()));
        }
        if heartbeat.available_memory_bytes > worker.registration.memory_bytes {
            let message = join(
                join("worker ", id).as_str(),
                " reports more memory than it registered",
            );
            return Err(coordinator_error(message.as_str()));
        }
        self.workers[w].last_observed_at_ms = heartbeat.observed_at_ms;
        self.workers[w].last_received_at_ms = received_at_ms;
        self.workers[w].available_slots = heartbeat.available_slots;
        self.workers[w].available_memory_bytes = heartbeat.available_memory_bytes;
        self.workers[w].alive = true;
        proof {
            let (next, result) = state.heartbeat(heartbeat@, received_at_ms);
            assert(self@.workers =~= next.workers);
        }
        Ok(())
    }

    fn record_task_update(
        &mut self,
        worker_id: WorkerId,
        task: TaskAttemptId,
        state: TaskState,
        received_at_ms: u64,
    ) -> (r: Result<(), SparkXError>)
        requires
            old(self).wf(),
        ensures
            (final(self)@, outcome(r)) == old(self)@.task_update(
                worker_id@,
                task@,
                state@,
                received_at_ms,
            ),
    {
        let ghost before_update = self@;
        let ghost task_view = task@;
        let ghost report = state@;
        let max_task_attempts: u32 = self.config.max_task_attempts;
        let w: usize = match self.find_worker(&worker_id) {
            Some(w) => w,
            None => {
                let message = join(
                    "task update came from unregistered worker ",
                    worker_id.as_str(),
                );
                return Err(coordinator_error(message.as_str()));
            },
        };
        let s: usize = match self.find_stage(&task.query_id, task.stage_id) {
            Some(s) => s,
            None => return Err(stage_not_found(&task.query_id, task.stage_id)),
        };
        match task.validate_for(&self.stages[s].plan) {
            Ok(()) => {},
            Err(error) => return Err(error),
        }
        proof {
            assert(before_update.stage_wf(before_update.stages[s as int]));
            assert(before_update.worker_wf(before_update.workers[w as int]));
        }
        let p: usize = task.partition_id.0 as usize;
        let ghost partition = before_update.stages[s as int].partitions[p as int];
        proof {
            assert(before_update.partition_wf(
                before_update.stages[s as int].plan,
                p as int,
                partition,
            ));
        }
        let replacement: PartitionRuntime = match &self.stages[s].partitions[p] {
            PartitionRuntime::Active {
                task: active_task,
                worker_id: assigned_worker,
                lease,
                started_at_ms,
            } => {
                if !active_task.same(&task) {
                    return Err(coordinator_error("task update does not match the active attempt"));
                }
                if !assigned_worker.same(&worker_id) {
                    return Err(
                        coordinator_error(
                            "task update came from a worker that does not own its lease",
                        ),
                    );
                }
                if lease.expires_at_ms <= received_at_ms {
                    return Err(coordinator_error("task update arrived after its lease expired"));
                }
                match state {
                    TaskState::Running { started_at_ms: reported_start } => {
                        match validate_reported_time(
                            "started",
                            reported_start,
                            lease,
                            received_at_ms,
                        ) {
                            Ok(()) => {},
                            Err(error) => return Err(error),
                        }
                        if let Some(existing_start) = *started_at_ms {
                            if existing_start != reported_start {
                                return Err(
                                    coordinator_error("task start time changed between updates"),
                                );
                            }
                        }
                        PartitionRuntime::Active {
                            task: active_task.clone(),
                            worker_id: assigned_worker.clone(),
                            lease: lease.clone(),
                            started_at_ms: Some(reported_start),
                        }
                    },
                    TaskState::Succeeded { finished_at_ms, output_blocks } => {
                        match validate_reported_time(
                            "finished",
                            finished_at_ms,
                            lease,
                            received_at_ms,
                        ) {
                            Ok(()) => {},
                            Err(error) => return Err(error),
                        }
                        PartitionRuntime::Succeeded { task, output_blocks }
                    },
                    TaskState::Failed { finished_at_ms, error, retryable } => {
                        match validate_reported_time(
                            "finished",
                            finished_at_ms,
                            lease,
                            received_at_ms,
                        ) {
                            Ok(()) => {},
                            Err(failure) => return Err(failure),
                        }
                        if retryable {
                            retry_or_fail(max_task_attempts, task.attempt, error.as_str())
                        } else {
                            PartitionRuntime::Failed { attempt: task.attempt, error }
                        }
                    },
                    TaskState::Cancelled { finished_at_ms, .. } => {
                        match validate_reported_time(
                            "finished",
                            finished_at_ms,
                            lease,
                            received_at_ms,
                        ) {
                            Ok(()) => {},
                            Err(error) => return Err(error),
                        }
                        PartitionRuntime::Cancelled
                    },
                }
            },
            _ => {
                return Err(coordinator_error("task update is stale or was not assigned"));
            },
        };
        proof {
            let changed = model::reported(
                max_task_attempts,
                partition,
                report,
                received_at_ms,
            );
            assert(changed == Ok::<PartitionState, ErrorView>(replacement@));
        }
        let still_active: bool = match &replacement {
            PartitionRuntime::Active { .. } => true,
            _ => false,
        };
        self.set_partition(s, p, replacement);
        if !still_active {
            let ghost between = self@;
            self.release_slot(w);
            proof {
                assert forall|i: int| 0 <= i < between.workers.len() && i != w implies (
                #[trigger] between.workers[i]).id() != worker_id@ by {
                    worker_index_is(before_update, i);
                }
                assert(self@.workers =~= between.slot_released(worker_id@).workers);
            }
        }
        Ok(())
    }
}

impl Coordinator {
    /// A task for the first worker that is free, where there is one to do.
    pub fn next_assignment(&mut self, now_ms: u64) -> (r: Result<
        Option<CoordinatorMessage>,
        SparkXError,
    >)
        requires
            old(self).wf(),
        ensures
            (final(self)@, assignment_outcome(r)) == old(self)@.next_assignment(now_ms),
            final(self).wf(),
            r matches Ok(Some(message)) ==> message@.check() is Ok,
    {
        match self.advance_time(now_ms) {
            Ok(()) => {},
            Err(error) => return Err(error),
        }
        proof {
            next_assignment_keeps_validity(old(self)@, now_ms);
        }
        let ghost now = self@;
        let count: usize = self.workers.len();
        let mut w: usize = 0;
        while w < count
            invariant
                self@ == now,
                now == old(self)@.advanced(now_ms),
                self.wf(),
                count == now.workers.len(),
                w <= count,
                free_worker_from(now.workers, 0) == free_worker_from(now.workers, w as int),
                old(self)@.next_assignment(now_ms).0.wf(),
                old(self)@.next_assignment(now_ms).1 matches Ok(Some(message)) ==> message.check()
                    is Ok,
            decreases count - w,
        {
            let worker = &self.workers[w];
            proof {
                assert(worker@ == now.workers[w as int]);
            }
            if worker.alive && worker.available_slots > 0 {
                return self.assign_to_worker(w, now_ms);
            }
            w += 1;
        }
        Ok(None)
    }

    /// A task for `worker_id`, where it is free and there is one to do.
    pub fn next_assignment_for(&mut self, worker_id: &WorkerId, now_ms: u64) -> (r: Result<
        Option<CoordinatorMessage>,
        SparkXError,
    >)
        requires
            old(self).wf(),
        ensures
            (final(self)@, assignment_outcome(r)) == old(self)@.next_assignment_for(
                worker_id@,
                now_ms,
            ),
            final(self).wf(),
            r matches Ok(Some(message)) ==> message@.check() is Ok,
    {
        match self.advance_time(now_ms) {
            Ok(()) => {},
            Err(error) => return Err(error),
        }
        proof {
            next_assignment_for_keeps_validity(old(self)@, worker_id@, now_ms);
        }
        let w: usize = match self.find_worker(worker_id) {
            Some(w) => w,
            None => {
                let message = join(
                    join("unregistered worker ", worker_id.as_str()).as_str(),
                    " requested an assignment",
                );
                return Err(coordinator_error(message.as_str()));
            },
        };
        let worker = &self.workers[w];
        if !worker.alive || worker.available_slots == 0 {
            return Ok(None);
        }
        self.assign_to_worker(w, now_ms)
    }

    /// The first pending partition that may be assigned, and the attempt that it waits for.
    fn next_pending_partition(&self) -> (r: Option<(usize, usize, u32)>)
        requires
            self@.ordered(),
        ensures
            match r {
                Some((s, p, attempt)) => {
                    &&& self@.pending_from(0) == Some((s as int, p as int))
                    &&& s < self@.stages.len()
                    &&& p < self@.stages[s as int].partitions.len()
                    &&& self@.stages[s as int].partitions[p as int] == (PartitionState::Pending {
                        next_attempt: attempt,
                    })
                },
                None => self@.pending_from(0) is None,
            },
    {
        for s in 0..self.stages.len()
            invariant
                self@.ordered(),
                self@.pending_from(0) == self@.pending_from(s as int),
        {
            let stage = &self.stages[s];
            proof {
                assert(stage@ == self@.stages[s as int]);
            }
            if self.find_cancellation(&stage.plan.query_id).is_none()
                && self.dependencies_succeeded(stage) {
                if let Some((p, attempt)) = first_pending(stage) {
                    return Some((s, p, attempt));
                }
            }
        }
        None
    }

    fn assign_to_worker(&mut self, w: usize, now_ms: u64) -> (r: Result<
        Option<CoordinatorMessage>,
        SparkXError,
    >)
        requires
            old(self).wf(),
            w < old(self)@.workers.len(),
            old(self)@.workers[w as int].is_free(),
        ensures
            (final(self)@, assignment_outcome(r)) == old(self)@.assigned(w as int, now_ms),
    {
        let ghost state = self@;
        let (s, p, attempt): (usize, usize, u32) = match self.next_pending_partition() {
            Some(found) => found,
            None => return Ok(None),
        };
        let expires_at_ms: u64 = match now_ms.checked_add(self.config.lease_duration_ms) {
            Some(t) => t,
            None => return Err(coordinator_error("task lease timestamp overflowed")),
        };
        proof {
            assert(state.stage_wf(state.stages[s as int]));
        }
        let plan = self.stages[s].plan.clone();
        let worker_id = self.workers[w].registration.worker_id.clone();
        let task = TaskAttemptId {
            query_id: plan.query_id.clone(),
            stage_id: plan.stage_id,
            partition_id: PartitionId(p as u32),
            attempt,
        };
        let lease = TaskLease { worker_id: worker_id.clone(), issued_at_ms: now_ms, expires_at_ms };
        self.set_partition(
            s,
            p,
            PartitionRuntime::Active {
                task: task.clone(),
                worker_id,
                lease: lease.clone(),
                started_at_ms: None,
            },
        );
        let ghost between = self@;
        let slots: u32 = self.workers[w].available_slots - 1;
        self.workers[w].available_slots = slots;
        proof {
            assert(self@.workers =~= state.assigned(w as int, now_ms).0.workers);
            assert(self@.stages == between.stages);
        }
        Ok(
            Some(
                CoordinatorMessage::AssignTask {
                    version: PROTOCOL_VERSION,
                    stage: plan,
                    task,
                    lease,
                },
            ),
        )
    }

    /// Cancels a query: nothing of it is assigned any more, and its tasks give their slots back.
    pub fn cancel_query(&mut self, query_id: QueryId, reason: String) -> (r: Result<
        CoordinatorMessage,
        SparkXError,
    >)
        requires
            old(self).wf(),
        ensures
            (final(self)@, cancellation_outcome(r)) == old(self)@.cancel_query(query_id@, reason@),
            final(self).wf(),
    {
        let message = CoordinatorMessage::CancelQuery {
            version: PROTOCOL_VERSION,
            query_id: query_id.clone(),
            reason: reason.clone(),
        };
        proof {
            cancellation_keeps_validity(self@, query_id@, reason@);
        }
        match message.validate() {
            Ok(()) => {},
            Err(error) => return Err(error),
        }
        if !self.query_is_known(&query_id) {
            return Err(query_not_found(&query_id));
        }
        if let Some(c) = self.find_cancellation(&query_id) {
            proof {
                assert forall|i: int|
                    0 <= i < self@.cancelled.len() && (#[trigger] self@.cancelled[i]).query_id
                        == query_id@ implies i == c by {
                    if i < c {
                        assert(self@.cancelled[i].query_id != self@.cancelled[c as int].query_id);
                    } else if c < i {
                        assert(self@.cancelled[c as int].query_id != self@.cancelled[i].query_id);
                    }
                }
            }
            if same_text(self.cancelled_queries[c].reason.as_str(), reason.as_str()) {
                proof {
                    assert(self@.cancelled[c as int].reason == reason@);
                }
                return Ok(message);
            }
            let text = join(
                join("query ", query_id.as_str()).as_str(),
                " was already cancelled for a different reason",
            );
            return Err(coordinator_error(text.as_str()));
        }
        self.stop_query(&query_id);
        let ghost between = self@;
        self.cancelled_queries.push(CancelledQuery { query_id, reason });
        proof {
            let next = old(self)@.with_cancelled(query_id@, reason@);
            assert(self@.cancelled =~= next.cancelled);
            assert(self@.stages =~= next.stages);
            assert(self@.workers =~= next.workers);
        }
        Ok(message)
    }

    /// Takes the partitions of a query out of the running, and frees the slots of its tasks.
    fn stop_query(&mut self, query_id: &QueryId)
        requires
            old(self).wf(),
        ensures
            final(self)@.config == old(self)@.config,
            final(self)@.cancelled == old(self)@.cancelled,
            final(self)@.workers == old(self)@.with_cancelled(query_id@, Seq::empty()).workers,
            final(self)@.stages == old(self)@.with_cancelled(query_id@, Seq::empty()).stages,
    {
        let ghost state = self@;
        let ghost next = state.with_cancelled(query_id@, Seq::empty());
        let stage_count: usize = self.stages.len();
        proof {
            assert forall|i: int| 0 <= i < state.workers.len() implies #[trigger] self@.workers[i]
                == partly_stopped_worker(state, i, query_id@, 0, 0) by {
                assert(state.worker_wf(state.workers[i]));
                released_stays_within(state.workers[i], 0);
            }
        }
        let mut s: usize = 0;
        while s < stage_count
            invariant
                s <= stage_count,
                stage_count == state.stages.len(),
                state.wf(),
                next == state.with_cancelled(query_id@, Seq::empty()),
                self@.ordered(),
                self@.config == state.config,
                self@.cancelled == state.cancelled,
                self@.workers.len() == state.workers.len(),
                self@.stages.len() == state.stages.len(),
                forall|i: int|
                    0 <= i < state.workers.len() ==> #[trigger] self@.workers[i]
                        == partly_stopped_worker(state, i, query_id@, s as int, 0),
                forall|i: int| 0 <= i < s ==> #[trigger] self@.stages[i] == next.stages[i],
                forall|i: int|
                    s <= i < state.stages.len() ==> #[trigger] self@.stages[i] == state.stages[i],
            decreases stage_count - s,
        {
            proof {
                assert(self@.stages[s as int] == state.stages[s as int]);
            }
            let ghost stage = state.stages[s as int];
            if self.stages[s].plan.query_id.same(query_id) {
                let partition_count: usize = self.stages[s].partitions.len();
                let mut p: usize = 0;
                while p < partition_count
                    invariant
                        s < stage_count,
                        p <= partition_count,
                        stage_count == state.stages.len(),
                        stage == state.stages[s as int],
                        stage.plan.query_id == query_id@,
                        partition_count == stage.partitions.len(),
                        state.wf(),
                        next == state.with_cancelled(query_id@, Seq::empty()),
                        self@.ordered(),
                        self@.config == state.config,
                        self@.cancelled == state.cancelled,
                        self@.workers.len() == state.workers.len(),
                        self@.stages.len() == state.stages.len(),
                        forall|i: int|
                            0 <= i < state.workers.len() ==> #[trigger] self@.workers[i]
                                == partly_stopped_worker(state, i, query_id@, s as int, p as int),
                        forall|i: int| 0 <= i < s ==> #[trigger] self@.stages[i] == next.stages[i],
                        forall|i: int|
                            s < i < state.stages.len() ==> #[trigger] self@.stages[i]
                                == state.stages[i],
                        self@.stages[s as int].plan == stage.plan,
                        self@.stages[s as int].partitions.len() == partition_count,
                        forall|q: int|
                            0 <= q < p ==> #[trigger] self@.stages[s as int].partitions[q]
                                == stage.partitions[q].cancelled(),
                        forall|q: int|
                            p <= q < partition_count
                                ==> #[trigger] self@.stages[s as int].partitions[q]
                                == stage.partitions[q],
                    decreases partition_count - p,
                {
                    let ghost partition = stage.partitions[p as int];
                    let ghost before_step = self@;
                    proof {
                        assert(self@.stages[s as int].partitions[p as int] == partition);
                        stopping_step(state, query_id@, s as int, p as int);
                    }
                    let mut freed: Option<usize> = None;
                    let mut done: bool = false;
                    match &self.stages[s].partitions[p] {
                        PartitionRuntime::Active { worker_id, .. } => {
                            freed = self.find_worker(worker_id);
                        },
                        PartitionRuntime::Succeeded { .. } => {
                            done = true;
                        },
                        _ => {},
                    }
                    if let Some(w) = freed {
                        proof {
                            assert(state.worker_wf(state.workers[w as int]));
                            released_stays_within(
                                state.workers[w as int],
                                partly_leased(
                                    state,
                                    state.workers[w as int].id(),
                                    query_id@,
                                    s as int,
                                    p as int,
                                ),
                            );
                        }
                        self.release_slot(w);
                    }
                    if !done {
                        self.set_partition(s, p, PartitionRuntime::Cancelled);
                    }
                    proof {
                        assert forall|i: int| 0 <= i < state.workers.len() implies
                            #[trigger] self@.workers[i] == partly_stopped_worker(
                            state,
                            i,
                            query_id@,
                            s as int,
                            p + 1,
                        ) by {
                            assert(before_step.workers[i] == partly_stopped_worker(
                                state,
                                i,
                                query_id@,
                                s as int,
                                p as int,
                            ));
                            assert(before_step.workers[i].id() == state.workers[i].id());
                            worker_index_is(before_step, i);
                            assert(state.worker_wf(state.workers[i]));
                            released_stays_within(
                                state.workers[i],
                                partly_leased(
                                    state,
                                    state.workers[i].id(),
                                    query_id@,
                                    s as int,
                                    p as int,
                                ),
                            );
                            if let Some(w) = freed {
                                worker_index_is(before_step, w as int);
                            }
                        }
                        same_ids_are_ordered(state, self@);
                    }
                    p += 1;
                }
                proof {
                    assert(self@.stages[s as int].partitions =~= next.stages[s as int].partitions);
                }
            } else {
                proof {
                    assert forall|i: int| 0 <= i < state.workers.len() implies
                        partly_stopped_worker(state, i, query_id@, s + 1, 0)
                        == #[trigger] self@.workers[i] by {
                        no_lease_for_other_query(
                            stage,
                            stage.partitions.len() as int,
                            query_id@,
                            state.workers[i].id(),
                        );
                    }
                }
            }
            s += 1;
        }
        proof {
            assert(self@.workers =~= next.workers);
            assert(self@.stages =~= next.stages);
        }
    }
}

/// How many leases a worker holds for a query among the first `s` stages and the first `p`
/// partitions of the next.
spec fn partly_leased(
    state: CoordinatorState,
    id: Seq<char>,
    query_id: Seq<char>,
    s: int,
    p: int,
) -> nat {
    count_in_stages(state.stages, s, leased_for(query_id, id)) + count_in_stage(
        state.stages[s],
        p,
        leased_for(query_id, id),
    )
}

/// A worker once a query was stopped in the first `s` stages and the first `p` partitions of the
/// next.
spec fn partly_stopped_worker(
    state: CoordinatorState,
    i: int,
    query_id: Seq<char>,
    s: int,
    p: int,
) -> WorkerState {
    let worker = state.workers[i];
    worker.released(partly_leased(state, worker.id(), query_id, s, p))
}

proof fn stopping_step(state: CoordinatorState, query_id: Seq<char>, s: int, p: int)
    requires
        0 <= s < state.stages.len(),
        0 <= p < state.stages[s].partitions.len(),
        state.stages[s].plan.query_id == query_id,
    ensures
        forall|id: Seq<char>| #[trigger]
            partly_leased(state, id, query_id, s, p + 1) == partly_leased(
                state,
                id,
                query_id,
                s,
                p,
            ) + if state.stages[s].partitions[p].leased_to(id) {
                1nat
            } else {
                0nat
            },
{
}

/// A stage of one query has no leases for another.
proof fn no_lease_for_other_query(
    stage: StageState,
    upto: int,
    query_id: Seq<char>,
    worker: Seq<char>,
)
    requires
        stage.plan.query_id != query_id,
    ensures
        count_in_stage(stage, upto, leased_for(query_id, worker)) == 0,
    decreases upto,
{
    if upto > 0 {
        no_lease_for_other_query(stage, upto - 1, query_id, worker);
    }
}

/// The views of a list of worker identifiers.
pub open spec fn worker_names(workers: Seq<WorkerId>) -> Seq<Seq<char>> {
    Seq::new(workers.len(), |i: int| workers[i]@)
}

/// What a caller is told of a partition, as contracts see it.
pub open spec fn partition_status_outcome(r: Result<PartitionStatus, SparkXError>) -> Result<
    PartitionStatusView,
    ErrorView,
> {
    match r {
        Ok(status) => Ok(status@),
        Err(error) => Err(error@),
    }
}

/// A list of blocks that was asked for, as contracts see it.
pub open spec fn blocks_outcome(r: Result<Vec<ShuffleBlock>, SparkXError>) -> Result<
    Seq<crate::protocol::ShuffleBlockView>,
    ErrorView,
> {
    match r {
        Ok(blocks) => Ok(block_views(blocks@)),
        Err(error) => Err(error@),
    }
}

impl Coordinator {
    /// The free slots of a worker that is alive.
    pub fn worker_available_slots(&self, worker_id: &WorkerId) -> (r: Option<u32>)
        requires
            self.wf(),
        ensures
            r == self@.worker_available_slots(worker_id@),
    {
        match self.find_worker(worker_id) {
            Some(w) => {
                let worker = &self.workers[w];
                if worker.alive {
                    Some(worker.available_slots)
                } else {
                    None
                }
            },
            None => None,
        }
    }

    /// The workers that run tasks of a query: each once, in the order of their identifiers.
    pub fn active_workers_for_query(&self, query_id: &QueryId) -> (r: Result<
        Vec<WorkerId>,
        SparkXError,
    >)
        requires
            self.wf(),
        ensures
            match r {
                Ok(workers) => {
                    let names = worker_names(workers@);
                    &&& self@.has_query(query_id@)
                    &&& forall|id: Seq<char>|
                        names.contains(id) <==> #[trigger] self@.works_for(id, query_id@)
                    &&& forall|i: int, j: int|
                        0 <= i < j < names.len() ==> before(#[trigger] names[i], #[trigger] names[j])
                },
                Err(error) => !self@.has_query(query_id@) && error@ == query_not_found_failure(
                    query_id@,
                ),
            },
    {
        if !self.query_is_known(query_id) {
            return Err(query_not_found(query_id));
        }
        let busy = self.busy_workers(query_id);
        let mut workers: Vec<WorkerId> = Vec::new();
        let ghost mut places: Seq<int> = Seq::empty();
        for w in 0..self.workers.len()
            invariant
                self.wf(),
                self@.has_query(query_id@),
                busy.len() == self@.workers.len(),
                forall|i: int|
                    0 <= i < busy.len() ==> busy@[i] == self@.works_for(
                        (#[trigger] self@.workers[i]).id(),
                        query_id@,
                    ),
                places.len() == workers.len(),
                forall|k: int|
                    0 <= k < places.len() ==> {
                        &&& 0 <= (#[trigger] places[k]) < w
                        &&& workers@[k]@ == self@.workers[places[k]].id()
                        &&& busy@[places[k]]
                    },
                forall|j: int, k: int|
                    0 <= j < k < places.len() ==> (#[trigger] places[j]) < (#[trigger] places[k]),
                forall|i: int|
                    0 <= i < w && #[trigger] busy@[i] ==> worker_names(workers@).contains(
                        self@.workers[i].id(),
                    ),
        {
            if busy[w] {
                let ghost earlier = worker_names(workers@);
                workers.push(self.workers[w].registration.worker_id.clone());
                proof {
                    places = places.push(w as int);
                    let names = worker_names(workers@);
                    assert(names =~= earlier.push(self@.workers[w as int].id()));
                    assert(names[earlier.len() as int] == self@.workers[w as int].id());
                    assert forall|i: int| 0 <= i < w + 1 && #[trigger] busy@[i] implies
                        names.contains(self@.workers[i].id()) by {
                        if i < w {
                            assert(earlier.contains(self@.workers[i].id()));
                            let k = choose|k: int|
                                0 <= k < earlier.len() && earlier[k] == self@.workers[i].id();
                            assert(names[k] == self@.workers[i].id());
                        }
                    }
                }
            }
        }
        proof {
            let names = worker_names(workers@);
            assert forall|i: int, j: int| 0 <= i < j < names.len() implies before(
                #[trigger] names[i],
                #[trigger] names[j],
            ) by {
                assert(before(self@.workers[places[i]].id(), self@.workers[places[j]].id()));
            }
            assert forall|id: Seq<char>| names.contains(id) <==> #[trigger] self@.works_for(
                id,
                query_id@,
            ) by {
                if names.contains(id) {
                    let k = choose|k: int| 0 <= k < names.len() && names[k] == id;
                    assert(busy@[places[k]]);
                    assert(self@.workers[places[k]].id() == id);
                }
                if self@.works_for(id, query_id@) {
                    let (s, p) = choose|s: int, p: int|
                        0 <= s < self@.stages.len() && 0 <= p < self@.stages[s].partitions.len()
                            && self@.stages[s].plan.query_id == query_id@ && (
                        #[trigger] self@.stages[s].partitions[p]).leased_to(id);
                    assert(self@.stage_wf(self@.stages[s]));
                    assert(self@.partition_wf(
                        self@.stages[s].plan,
                        p,
                        self@.stages[s].partitions[p],
                    ));
                    let i = self@.worker_index(id);
                    assert(self@.workers[i].id() == id);
                    assert(busy@[i]);
                }
            }
        }
        Ok(workers)
    }

    /// For each worker, whether it runs a task of a query.
    fn busy_workers(&self, query_id: &QueryId) -> (busy: Vec<bool>)
        requires
            self.wf(),
        ensures
            busy.len() == self@.workers.len(),
            forall|i: int|
                0 <= i < busy.len() ==> busy@[i] == self@.works_for(
                    (#[trigger] self@.workers[i]).id(),
                    query_id@,
                ),
    {
        let mut busy: Vec<bool> = Vec::new();
        let worker_count: usize = self.workers.len();
        for w in 0..worker_count
            invariant
                busy.len() == w,
                forall|i: int| 0 <= i < w ==> !#[trigger] busy@[i],
        {
            busy.push(false);
        }
        for s in 0..self.stages.len()
            invariant
                self.wf(),
                busy.len() == self@.workers.len(),
                forall|i: int|
                    0 <= i < busy.len() && #[trigger] busy@[i] ==> self@.works_for(
                        self@.workers[i].id(),
                        query_id@,
                    ),
                forall|t: int, p: int, i: int|
                    0 <= t < s && 0 <= p < self@.stages[t].partitions.len()
                        && self@.stages[t].plan.query_id == query_id@ && 0 <= i < busy.len() && (
                    #[trigger] self@.stages[t].partitions[p]).leased_to(self@.workers[i].id())
                        ==> #[trigger] busy@[i],
        {
            let stage = &self.stages[s];
            proof {
                assert(stage@ == self@.stages[s as int]);
            }
            if stage.plan.query_id.same(query_id) {
                for p in 0..stage.partitions.len()
                    invariant
                        self.wf(),
                        s < self.stages.len(),
                        stage@ == self@.stages[s as int],
                        stage@.plan.query_id == query_id@,
                        busy.len() == self@.workers.len(),
                        forall|i: int|
                            0 <= i < busy.len() && #[trigger] busy@[i] ==> self@.works_for(
                                self@.workers[i].id(),
                                query_id@,
                            ),
                        forall|t: int, q: int, i: int|
                            0 <= t < s && 0 <= q < self@.stages[t].partitions.len()
                                && self@.stages[t].plan.query_id == query_id@ && 0 <= i
                                < busy.len() && (#[trigger] self@.stages[t].partitions[q]).leased_to(
                                self@.workers[i].id(),
                            ) ==> #[trigger] busy@[i],
                        forall|q: int, i: int|
                            0 <= q < p && 0 <= i < busy.len() && (
                            #[trigger] stage@.partitions[q]).leased_to(self@.workers[i].id())
                                ==> #[trigger] busy@[i],
                {
                    proof {
                        assert(stage@.partitions[p as int] == stage.partitions@[p as int]@);
                    }
                    if let PartitionRuntime::Active { worker_id, .. } = &stage.partitions[p] {
                        if let Some(w) = self.find_worker(worker_id) {
                            proof {
                                assert(self@.stages[s as int].partitions[p as int].leased_to(
                                    self@.workers[w as int].id(),
                                ));
                                assert forall|i: int|
                                    0 <= i < busy.len() && self@.workers[i].id()
                                        == worker_id@ implies i == w by {
                                    worker_index_is(self@, i);
                                }
                            }
                            busy.set(w, true);
                        } else {
                            proof {
                                assert forall|i: int| 0 <= i < busy.len() implies
                                    self@.workers[i].id() != worker_id@ by {
                                    worker_index_is(self@, i);
                                }
                            }
                        }
                    }
                }
            }
        }
        proof {
            assert forall|i: int| 0 <= i < busy.len() implies busy@[i] == self@.works_for(
                (#[trigger] self@.workers[i]).id(),
                query_id@,
            ) by {
                let id = self@.workers[i].id();
                if self@.works_for(id, query_id@) {
                    let (s, p) = choose|s: int, p: int|
                        0 <= s < self@.stages.len() && 0 <= p < self@.stages[s].partitions.len()
                            && self@.stages[s].plan.query_id == query_id@ && (
                        #[trigger] self@.stages[s].partitions[p]).leased_to(id);
                    assert(self@.stages[s].partitions[p].leased_to(self@.workers[i].id()));
                    assert(busy@[i]);
                }
            }
        }
        busy
    }

    /// How far a stage has come.
    pub fn stage_status(&self, query_id: &QueryId, stage_id: StageId) -> (r: Result<
        StageStatus,
        SparkXError,
    >)
        requires
            self.wf(),
        ensures
            outcome(r) == self@.stage_status(query_id@, stage_id),
    {
        let s: usize = match self.find_stage(query_id, stage_id) {
            Some(s) => s,
            None => return Err(stage_not_found(query_id, stage_id)),
        };
        let stage = &self.stages[s];
        if self.find_cancellation(query_id).is_some() {
            return Ok(StageStatus::Cancelled);
        }
        let mut failed: bool = false;
        let mut active: bool = false;
        for p in 0..stage.partitions.len()
            invariant
                failed == exists|k: int| 0 <= k < p && (#[trigger] stage@.partitions[k]) is Failed,
                active == exists|k: int| 0 <= k < p && (#[trigger] stage@.partitions[k]) is Active,
        {
            let ghost now = stage@.partitions[p as int];
            proof {
                assert(now == stage.partitions@[p as int]@);
            }
            match &stage.partitions[p] {
                PartitionRuntime::Failed { .. } => {
                    failed = true;
                },
                PartitionRuntime::Active { .. } => {
                    active = true;
                },
                _ => {},
            }
        }
        if failed {
            return Ok(StageStatus::Failed);
        }
        if all_succeeded(stage) {
            return Ok(StageStatus::Succeeded);
        }
        if active {
            return Ok(StageStatus::Running);
        }
        if self.dependencies_succeeded(stage) {
            Ok(StageStatus::Ready)
        } else {
            Ok(StageStatus::Blocked)
        }
    }

    /// How far a partition has come.
    pub fn partition_status(
        &self,
        query_id: &QueryId,
        stage_id: StageId,
        partition_id: PartitionId,
    ) -> (r: Result<PartitionStatus, SparkXError>)
        requires
            self.wf(),
        ensures
            partition_status_outcome(r) == self@.partition_status(
                query_id@,
                stage_id,
                partition_id,
            ),
    {
        let s: usize = match self.find_stage(query_id, stage_id) {
            Some(s) => s,
            None => return Err(stage_not_found(query_id, stage_id)),
        };
        let stage = &self.stages[s];
        let p: usize = partition_id.0 as usize;
        if p >= stage.partitions.len() {
            let mut message: String = join("partition ", decimal(partition_id.0 as u64).as_str());
            message.append(" does not exist in query ");
            message.append(query_id.as_str());
            message.append(" stage ");
            message.append(decimal(stage_id.0 as u64).as_str());
            return Err(SparkXError::NotFound(message));
        }
        Ok(
            match &stage.partitions[p] {
                PartitionRuntime::Pending { next_attempt } => PartitionStatus::Pending {
                    next_attempt: *next_attempt,
                },
                PartitionRuntime::Active { task, .. } => PartitionStatus::Running {
                    attempt: task.attempt,
                },
                PartitionRuntime::Succeeded { task, .. } => PartitionStatus::Succeeded {
                    attempt: task.attempt,
                },
                PartitionRuntime::Failed { attempt, error } => PartitionStatus::Failed {
                    attempt: *attempt,
                    error: error.clone(),
                },
                PartitionRuntime::Cancelled => PartitionStatus::Cancelled,
            },
        )
    }

    /// The blocks that a stage put out, once all of it has succeeded.
    pub fn stage_output_blocks(&self, query_id: &QueryId, stage_id: StageId) -> (r: Result<
        Vec<ShuffleBlock>,
        SparkXError,
    >)
        requires
            self.wf(),
        ensures
            blocks_outcome(r) == self@.stage_output_blocks(query_id@, stage_id),
    {
        let s: usize = match self.find_stage(query_id, stage_id) {
            Some(s) => s,
            None => return Err(stage_not_found(query_id, stage_id)),
        };
        let stage = &self.stages[s];
        if !all_succeeded(stage) {
            let mut message: String = join("query ", query_id.as_str());
            message.append(" stage ");
            message.append(decimal(stage_id.0 as u64).as_str());
            message.append(" has not succeeded");
            return Err(coordinator_error(message.as_str()));
        }
        let mut blocks: Vec<ShuffleBlock> = Vec::new();
        proof {
            assert(block_views(blocks@) =~= stage@.output_blocks(0));
        }
        for p in 0..stage.partitions.len()
            invariant
                block_views(blocks@) == stage@.output_blocks(p as int),
        {
            proof {
                assert(stage@.partitions[p as int] == stage.partitions@[p as int]@);
            }
            if let PartitionRuntime::Succeeded { output_blocks, .. } = &stage.partitions[p] {
                let mut copy = clone_blocks(output_blocks);
                let ghost earlier = blocks@;
                let ghost added = copy@;
                blocks.append(&mut copy);
                proof {
                    assert(block_views(blocks@) =~= block_views(earlier) + block_views(added));
                }
            } else {
                proof {
                    assert(stage@.output_blocks(p + 1) =~= stage@.output_blocks(p as int));
                }
            }
        }
        Ok(blocks)
    }
}

} // verus!

//! What a worker decides: its configuration, and its answer to each event of its run.

use crate::error::{outcome, ErrorView, SparkXError};
use crate::memory::{QueryMemory, DEFAULT_MEMORY_LIMIT_BYTES};
use crate::metrics::MetricsSnapshot;
use crate::protocol::{
    block_views, clone_blocks, CoordinatorMessage, CoordinatorMessageView, QueryId, ShuffleBlock,
    ShuffleBlockView, StagePlan, StagePlanView, TaskAttemptId, TaskAttemptView, TaskLease,
    TaskLeaseView, TaskState, TaskStateView, WorkerHeartbeat, WorkerHeartbeatView, WorkerId,
    WorkerMessage, WorkerMessageView, WorkerRegistration, WorkerRegistrationView,
    PROTOCOL_VERSION,
};
use crate::text::{blank, decimal, is_blank, join, numeral};
use vstd::prelude::*;

verus! {

/// How a worker is set up. Intervals are in nanoseconds, and addresses and paths are texts.
#[derive(Debug)]
pub struct WorkerConfig {
    pub coordinator_endpoint: String,
    pub worker_id: WorkerId,
    pub slots: u32,
    pub memory_bytes: u64,
    pub batch_size: usize,
    pub channel_capacity: usize,
    pub heartbeat_interval_ns: u64,
    pub poll_interval_ns: u64,
    pub data_bind_address: String,
    pub data_advertised_host: Option<String>,
    pub data_storage_bytes: u64,
    pub data_directory: Option<String>,
    /// For development and tests: after so many finished tasks the worker stops.
    pub max_terminal_tasks: Option<u64>,
}

/// What is wrong with a worker's configuration, if anything is.
pub open spec fn config_check(config: WorkerConfig) -> Result<(), ErrorView> {
    if blank(config.coordinator_endpoint@) {
        Err(ErrorView::Planning("worker coordinator endpoint must not be empty"@))
    } else if config.slots == 0 {
        Err(ErrorView::Planning("worker must have at least one execution slot"@))
    } else if config.memory_bytes == 0 {
        Err(ErrorView::Planning("worker memory limit must be greater than zero"@))
    } else if config.batch_size == 0 || config.channel_capacity == 0 {
        Err(
            ErrorView::Planning(
                "worker batch size and channel capacity must be greater than zero"@,
            ),
        )
    } else if config.heartbeat_interval_ns == 0 || config.poll_interval_ns == 0 {
        Err(
            ErrorView::Planning(
                "worker heartbeat and poll intervals must be greater than zero"@,
            ),
        )
    } else if config.data_storage_bytes == 0 {
        Err(ErrorView::Planning("worker data-plane storage must be greater than zero"@))
    } else if config.max_terminal_tasks == Some(0u64) {
        Err(ErrorView::Planning("worker maximum terminal tasks must be greater than zero"@))
    } else {
        Ok(())
    }
}

impl WorkerConfig {
    /// The usual set-up: one slot, and an address of the machine's choice.
    pub fn new(coordinator_endpoint: String, worker_id: WorkerId) -> (r: Self)
        ensures
            r.coordinator_endpoint@ == coordinator_endpoint@,
            r.worker_id@ == worker_id@,
            r.slots == 1,
            r.memory_bytes == DEFAULT_MEMORY_LIMIT_BYTES,
            r.batch_size == 8192,
            r.channel_capacity == 2,
            r.heartbeat_interval_ns == 5_000_000_000,
            r.poll_interval_ns == 100_000_000,
            r.data_bind_address@ == "127.0.0.1:0"@,
            r.data_advertised_host is None,
            r.data_storage_bytes == DEFAULT_MEMORY_LIMIT_BYTES,
            r.data_directory is None,
            r.max_terminal_tasks is None,
            !blank(coordinator_endpoint@) ==> config_check(r) is Ok,
    {
        WorkerConfig {
            coordinator_endpoint,
            worker_id,
            slots: 1,
            memory_bytes: DEFAULT_MEMORY_LIMIT_BYTES,
            batch_size: 8192,
            channel_capacity: 2,
            heartbeat_interval_ns: 5_000_000_000,
            poll_interval_ns: 100_000_000,
            data_bind_address: "127.0.0.1:0".to_owned(),
            data_advertised_host: None,
            data_storage_bytes: DEFAULT_MEMORY_LIMIT_BYTES,
            data_directory: None,
            max_terminal_tasks: None,
        }
    }

    pub fn validate(&self) -> (r: Result<(), SparkXError>)
        ensures
            outcome(r) == config_check(*self),
    {
        if is_blank(self.coordinator_endpoint.as_str()) {
            return Err(
                SparkXError::planning("worker coordinator endpoint must not be empty".to_owned()),
            );
        }
        if self.slots == 0 {
            return Err(
                SparkXError::planning("worker must have at least one execution slot".to_owned()),
            );
        }
        if self.memory_bytes == 0 {
            return Err(
                SparkXError::planning("worker memory limit must be greater than zero".to_owned()),
            );
        }
        if self.batch_size == 0 || self.channel_capacity == 0 {
            return Err(
                SparkXError::planning(
                    "worker batch size and channel capacity must be greater than zero".to_owned(),
                ),
            );
        }
        if self.heartbeat_interval_ns == 0 || self.poll_interval_ns == 0 {
            return Err(
                SparkXError::planning(
                    "worker heartbeat and poll intervals must be greater than zero".to_owned(),
                ),
            );
        }
        if self.data_storage_bytes == 0 {
            return Err(
                SparkXError::planning(
                    "worker data-plane storage must be greater than zero".to_owned(),
                ),
            );
        }
        if let Some(maximum) = self.max_terminal_tasks {
            if maximum == 0 {
                return Err(
                    SparkXError::planning(
                        "worker maximum terminal tasks must be greater than zero".to_owned(),
                    ),
                );
            }
        }
        Ok(())
    }
}

/// What a worker did in its run.
#[derive(Debug)]
pub struct WorkerRunSummary {
    pub completed_tasks: u64,
    pub failed_tasks: u64,
    pub cancelled_tasks: u64,
    pub output_rows: u64,
    pub output_bytes: u64,
    pub metrics: MetricsSnapshot,
}

/// What a task put out.
#[derive(Debug)]
pub struct TaskOutput {
    pub rows: u64,
    pub bytes: u64,
    pub blocks: Vec<ShuffleBlock>,
}

pub struct TaskOutputView {
    pub rows: u64,
    pub bytes: u64,
    pub blocks: Seq<ShuffleBlockView>,
}

impl View for TaskOutput {
    type V = TaskOutputView;

    open spec fn view(&self) -> TaskOutputView {
        TaskOutputView { rows: self.rows, bytes: self.bytes, blocks: block_views(self.blocks@) }
    }
}

pub open spec fn output_outcome(r: Result<TaskOutput, SparkXError>) -> Result<
    TaskOutputView,
    ErrorView,
> {
    match r {
        Ok(output) => Ok(output@),
        Err(error) => Err(error@),
    }
}

/// The rows of the first `upto` blocks, up to the most that can be counted.
pub open spec fn block_rows(blocks: Seq<ShuffleBlockView>, upto: int) -> nat
    decreases upto,
{
    if upto <= 0 {
        0
    } else {
        block_rows(blocks, upto - 1) + blocks[upto - 1].rows as nat
    }
}

/// The bytes of the first `upto` blocks.
pub open spec fn block_bytes(blocks: Seq<ShuffleBlockView>, upto: int) -> nat
    decreases upto,
{
    if upto <= 0 {
        0
    } else {
        block_bytes(blocks, upto - 1) + blocks[upto - 1].bytes as nat
    }
}

pub proof fn block_sums_grow(blocks: Seq<ShuffleBlockView>, low: int, high: int)
    requires
        low <= high,
    ensures
        block_rows(blocks, low) <= block_rows(blocks, high),
        block_bytes(blocks, low) <= block_bytes(blocks, high),
    decreases high - low,
{
    if low < high {
        block_sums_grow(blocks, low, high - 1);
    }
}

impl TaskOutput {
    /// The output that some blocks make up.
    pub fn of_blocks(blocks: Vec<ShuffleBlock>) -> (r: Self)
        requires
            block_rows(block_views(blocks@), blocks.len() as int) <= u64::MAX,
            block_bytes(block_views(blocks@), blocks.len() as int) <= u64::MAX,
        ensures
            r@.blocks == block_views(blocks@),
            r@.rows == block_rows(block_views(blocks@), blocks.len() as int),
            r@.bytes == block_bytes(block_views(blocks@), blocks.len() as int),
    {
        let ghost views = block_views(blocks@);
        let mut rows: u64 = 0;
        let mut bytes: u64 = 0;
        for i in 0..blocks.len()
            invariant
                views == block_views(blocks@),
                rows == block_rows(views, i as int),
                bytes == block_bytes(views, i as int),
                block_rows(views, blocks.len() as int) <= u64::MAX,
                block_bytes(views, blocks.len() as int) <= u64::MAX,
        {
            proof {
                assert(views[i as int] == blocks@[i as int]@);
                block_sums_grow(views, i + 1, blocks.len() as int);
            }
            rows = rows + blocks[i].rows;
            bytes = bytes + blocks[i].bytes;
        }
        TaskOutput { rows, bytes, blocks }
    }
}

/// A query that was cancelled, and why.
#[derive(Debug)]
struct CancelledQuery {
    query_id: QueryId,
    reason: String,
}

pub struct CancelledView {
    pub query_id: Seq<char>,
    pub reason: Seq<char>,
}

/// The state of a worker's run.
#[derive(Debug)]
pub struct WorkerState {
    worker_id: WorkerId,
    slots: u32,
    max_terminal_tasks: Option<u64>,
    active: Vec<TaskAttemptId>,
    running: u64,
    cancelled_queries: Vec<CancelledQuery>,
    completed_tasks: u64,
    failed_tasks: u64,
    cancelled_tasks: u64,
    output_rows: u64,
    output_bytes: u64,
    stopping: bool,
}

pub struct WorkerView {
    pub worker_id: Seq<char>,
    pub slots: u32,
    pub max_terminal_tasks: Option<u64>,
    /// The attempts that the worker is at, each once.
    pub active: Seq<TaskAttemptView>,
    /// How many executions have not yet ended.
    pub running: u64,
    pub cancelled_queries: Seq<CancelledView>,
    pub completed_tasks: u64,
    pub failed_tasks: u64,
    pub cancelled_tasks: u64,
    pub output_rows: u64,
    pub output_bytes: u64,
    pub stopping: bool,
}

pub open spec fn attempt_views(attempts: Seq<TaskAttemptId>) -> Seq<TaskAttemptView> {
    Seq::new(attempts.len(), |i: int| attempts[i]@)
}

closed spec fn cancelled_views(queries: Seq<CancelledQuery>) -> Seq<CancelledView> {
    Seq::new(
        queries.len(),
        |i: int| CancelledView { query_id: queries[i].query_id@, reason: queries[i].reason@ },
    )
}

impl View for WorkerState {
    type V = WorkerView;

    closed spec fn view(&self) -> WorkerView {
        WorkerView {
            worker_id: self.worker_id@,
            slots: self.slots,
            max_terminal_tasks: self.max_terminal_tasks,
            active: attempt_views(self.active@),
            running: self.running,
            cancelled_queries: cancelled_views(self.cancelled_queries@),
            completed_tasks: self.completed_tasks,
            failed_tasks: self.failed_tasks,
            cancelled_tasks: self.cancelled_tasks,
            output_rows: self.output_rows,
            output_bytes: self.output_bytes,
            stopping: self.stopping,
        }
    }
}

/// The reason that was last given for cancelling a query, among the first `upto` cancellations.
pub open spec fn cancellation_of(queries: Seq<CancelledView>, query: Seq<char>, upto: int) -> Option<
    Seq<char>,
>
    decreases upto,
{
    if upto <= 0 {
        None
    } else if queries[upto - 1].query_id == query {
        Some(queries[upto - 1].reason)
    } else {
        cancellation_of(queries, query, upto - 1)
    }
}

/// The attempts among the first `upto` that belong to a query.
pub open spec fn attempts_of(
    attempts: Seq<TaskAttemptView>,
    query: Seq<char>,
    upto: int,
) -> Seq<TaskAttemptView>
    decreases upto,
{
    if upto <= 0 {
        Seq::empty()
    } else if attempts[upto - 1].query_id == query {
        attempts_of(attempts, query, upto - 1).push(attempts[upto - 1])
    } else {
        attempts_of(attempts, query, upto - 1)
    }
}

/// The attempts among the first `upto` other than one.
pub open spec fn without_attempt(
    attempts: Seq<TaskAttemptView>,
    attempt: TaskAttemptView,
    upto: int,
) -> Seq<TaskAttemptView>
    decreases upto,
{
    if upto <= 0 {
        Seq::empty()
    } else if attempts[upto - 1] == attempt {
        without_attempt(attempts, attempt, upto - 1)
    } else {
        without_attempt(attempts, attempt, upto - 1).push(attempts[upto - 1])
    }
}

/// Two counts added, up to the most that can be counted.
pub open spec fn saturated(a: u64, b: u64) -> u64 {
    if a + b > u64::MAX {
        u64::MAX
    } else {
        (a + b) as u64
    }
}

fn saturate(a: u64, b: u64) -> (r: u64)
    ensures
        r == saturated(a, b),
{
    match a.checked_add(b) {
        Some(sum) => sum,
        None => u64::MAX,
    }
}

/// Whether a task that failed so may succeed elsewhere or later.
pub open spec fn may_succeed_later(error: ErrorView) -> bool {
    error is Io || error is Parquet || error is Transport
}

pub fn is_retryable(error: &SparkXError) -> (r: bool)
    ensures
        r == may_succeed_later(error@),
{
    match error {
        SparkXError::Io(_) | SparkXError::Parquet(_) | SparkXError::Transport(_) => true,
        _ => false,
    }
}

impl WorkerView {
    pub open spec fn wf(self) -> bool {
        &&& self.active.len() <= self.slots
        &&& self.active.len() <= self.running
        &&& forall|i: int, j: int|
            0 <= i < j < self.active.len() ==> #[trigger] self.active[i]
                != #[trigger] self.active[j]
    }

    /// The state of a run that begins.
    pub open spec fn initial(
        worker_id: Seq<char>,
        slots: u32,
        max_terminal_tasks: Option<u64>,
    ) -> WorkerView {
        WorkerView {
            worker_id,
            slots,
            max_terminal_tasks,
            active: Seq::empty(),
            running: 0,
            cancelled_queries: Seq::empty(),
            completed_tasks: 0,
            failed_tasks: 0,
            cancelled_tasks: 0,
            output_rows: 0,
            output_bytes: 0,
            stopping: false,
        }
    }

    /// Whether the run is over: the worker stops and nothing runs any more.
    pub open spec fn is_over(self) -> bool {
        self.stopping && self.running == 0
    }

    pub open spec fn terminal_tasks(self) -> u64 {
        saturated(saturated(self.completed_tasks, self.failed_tasks), self.cancelled_tasks)
    }

    /// What keeps an assignment from being taken, if anything does.
    pub open spec fn assignment_check(self, lease: TaskLeaseView) -> Result<(), ErrorView> {
        if lease.worker_id != self.worker_id {
            Err(
                ErrorView::Protocol(
                    "worker "@ + self.worker_id + " received a lease owned by "@
                        + lease.worker_id,
                ),
            )
        } else if self.active.len() >= self.slots {
            Err(
                ErrorView::Protocol(
                    "worker "@ + self.worker_id + " received more assignments than its "@
                        + numeral(self.slots as nat) + " slots"@,
                ),
            )
        } else {
            Ok(())
        }
    }

    /// The state with one attempt more.
    pub open spec fn with_attempt(self, task: TaskAttemptView) -> WorkerView {
        WorkerView {
            active: if self.active.contains(task) {
                self.active
            } else {
                self.active.push(task)
            },
            running: (self.running + 1) as u64,
            ..self
        }
    }

    /// The state with one cancelled query more.
    pub open spec fn with_cancelled(self, query_id: Seq<char>, reason: Seq<char>) -> WorkerView {
        WorkerView {
            cancelled_queries: self.cancelled_queries.push(CancelledView { query_id, reason }),
            ..self
        }
    }

    /// Why the query of a task was cancelled, if it was.
    pub open spec fn cancellation(self, query: Seq<char>) -> Option<Seq<char>> {
        cancellation_of(self.cancelled_queries, query, self.cancelled_queries.len() as int)
    }

    /// How the end of an execution is reported.
    pub open spec fn terminal_state(
        self,
        task: TaskAttemptView,
        lease: TaskLeaseView,
        result: Result<TaskOutputView, ErrorView>,
    ) -> TaskStateView {
        let finished_at_ms = lease.issued_at_ms;
        match self.cancellation(task.query_id) {
            Some(reason) => TaskStateView::Cancelled { finished_at_ms, reason },
            None => match result {
                Ok(output) => TaskStateView::Succeeded {
                    finished_at_ms,
                    output_blocks: output.blocks,
                },
                Err(ErrorView::Cancelled) => if self.stopping {
                    TaskStateView::Failed {
                        finished_at_ms,
                        error: "worker shut down before the task completed"@,
                        retryable: true,
                    }
                } else {
                    TaskStateView::Cancelled {
                        finished_at_ms,
                        reason: "task execution was cancelled"@,
                    }
                },
                Err(error) => TaskStateView::Failed {
                    finished_at_ms,
                    error: error.text(),
                    retryable: may_succeed_later(error),
                },
            },
        }
    }

    /// The state after an execution ended.
    pub open spec fn ended(
        self,
        task: TaskAttemptView,
        lease: TaskLeaseView,
        result: Result<TaskOutputView, ErrorView>,
    ) -> WorkerView {
        let rest = WorkerView {
            active: without_attempt(self.active, task, self.active.len() as int),
            running: (self.running - 1) as u64,
            ..self
        };
        match self.terminal_state(task, lease, result) {
            TaskStateView::Cancelled { .. } => WorkerView {
                cancelled_tasks: (self.cancelled_tasks + 1) as u64,
                ..rest
            },
            TaskStateView::Failed { .. } => WorkerView {
                failed_tasks: (self.failed_tasks + 1) as u64,
                ..rest
            },
            _ => WorkerView {
                completed_tasks: (self.completed_tasks + 1) as u64,
                output_rows: saturated(self.output_rows, result->Ok_0.rows),
                output_bytes: saturated(self.output_bytes, result->Ok_0.bytes),
                ..rest
            },
        }
    }

    /// Whether as many tasks have finished as the worker is to finish.
    pub open spec fn is_done(self) -> bool {
        self.max_terminal_tasks matches Some(maximum) && self.terminal_tasks() >= maximum
    }
}

proof fn without_attempt_shrinks(
    attempts: Seq<TaskAttemptView>,
    attempt: TaskAttemptView,
    upto: int,
)
    requires
        0 <= upto <= attempts.len(),
        forall|i: int, j: int|
            0 <= i < j < attempts.len() ==> #[trigger] attempts[i] != #[trigger] attempts[j],
    ensures
        without_attempt(attempts, attempt, upto).len() <= upto,
        attempts.take(upto).contains(attempt) ==> without_attempt(attempts, attempt, upto).len()
            < upto,
        forall|i: int|
            0 <= i < without_attempt(attempts, attempt, upto).len() ==> {
                &&& (#[trigger] without_attempt(attempts, attempt, upto)[i]) != attempt
                &&& attempts.take(upto).contains(without_attempt(attempts, attempt, upto)[i])
            },
        forall|i: int, j: int|
            0 <= i < j < without_attempt(attempts, attempt, upto).len()
                ==> #[trigger] without_attempt(attempts, attempt, upto)[i]
                != #[trigger] without_attempt(attempts, attempt, upto)[j],
    decreases upto,
{
    if upto > 0 {
        without_attempt_shrinks(attempts, attempt, upto - 1);
        let before = without_attempt(attempts, attempt, upto - 1);
        let now = without_attempt(attempts, attempt, upto);
        assert(attempts.take(upto) =~= attempts.take(upto - 1).push(attempts[upto - 1]));
        let shorter = attempts.take(upto - 1);
        let longer = attempts.take(upto);
        assert forall|x: TaskAttemptView| #[trigger] shorter.contains(x) implies longer.contains(x)
            && x != attempts[upto - 1] by {
            let k = choose|k: int| 0 <= k < shorter.len() && shorter[k] == x;
            assert(longer[k] == x);
            assert(attempts[k] != attempts[upto - 1]);
        }
        assert(longer[upto - 1] == attempts[upto - 1]);
        if longer.contains(attempt) && attempts[upto - 1] != attempt {
            let k = choose|k: int| 0 <= k < longer.len() && longer[k] == attempt;
            assert(shorter[k] == attempt);
        }
        assert forall|i: int, j: int| 0 <= i < j < now.len() implies #[trigger] now[i]
            != #[trigger] now[j] by {
            if j == before.len() {
                assert(shorter.contains(before[i]));
            }
        }
    }
}

/// A worker never is at more attempts than it has slots, whatever it is assigned.
pub proof fn a_worker_keeps_to_its_slots(state: WorkerView, task: TaskAttemptView, lease: TaskLeaseView)
    requires
        state.wf(),
        state.assignment_check(lease) is Ok,
        state.running < u64::MAX,
    ensures
        state.with_attempt(task).wf(),
        state.with_attempt(task).active.len() <= state.slots,
        state.with_attempt(task).active.contains(task),
{
    let next = state.with_attempt(task);
    if !state.active.contains(task) {
        assert(next.active[state.active.len() as int] == task);
        assert forall|i: int, j: int| 0 <= i < j < next.active.len() implies #[trigger] next.active[i]
            != #[trigger] next.active[j] by {
            if j == state.active.len() {
                assert(state.active.contains(state.active[i]));
            }
        }
    }
}

/// The end of an execution frees what the attempt held.
pub proof fn an_ended_attempt_is_forgotten(
    state: WorkerView,
    task: TaskAttemptView,
    lease: TaskLeaseView,
    result: Result<TaskOutputView, ErrorView>,
)
    requires
        state.wf(),
        state.active.contains(task) || state.active.len() < state.running,
    ensures
        state.ended(task, lease, result).wf(),
        !state.ended(task, lease, result).active.contains(task),
{
    without_attempt_shrinks(state.active, task, state.active.len() as int);
    assert(state.active.take(state.active.len() as int) =~= state.active);
    let next = state.ended(task, lease, result);
    if next.active.contains(task) {
        let k = choose|k: int| 0 <= k < next.active.len() && next.active[k] == task;
        assert(next.active[k] != task);
    }
}

/// Once a query is cancelled, whatever comes of its tasks is reported as cancelled.
pub proof fn a_cancelled_query_ends_cancelled(
    state: WorkerView,
    query: Seq<char>,
    reason: Seq<char>,
    task: TaskAttemptView,
    lease: TaskLeaseView,
    result: Result<TaskOutputView, ErrorView>,
)
    requires
        task.query_id == query,
    ensures
        state.with_cancelled(query, reason).terminal_state(task, lease, result)
            == (TaskStateView::Cancelled { finished_at_ms: lease.issued_at_ms, reason }),
{
}

/// What a worker does with a message of the coordinator.
#[derive(Debug)]
pub enum WorkerAction {
    /// Reports the task as running and begins it.
    Start { report: WorkerMessage, stage: StagePlan, task: TaskAttemptId, lease: TaskLease },
    /// Interrupts these attempts.
    Interrupt { tasks: Vec<TaskAttemptId> },
}

#[allow(inconsistent_fields)]
pub enum WorkerActionView {
    Start {
        report: WorkerMessageView,
        stage: StagePlanView,
        task: TaskAttemptView,
        lease: TaskLeaseView,
    },
    Interrupt { tasks: Seq<TaskAttemptView> },
}

impl View for WorkerAction {
    type V = WorkerActionView;

    open spec fn view(&self) -> WorkerActionView {
        match self {
            WorkerAction::Start { report, stage, task, lease } => WorkerActionView::Start {
                report: report@,
                stage: stage@,
                task: task@,
                lease: lease@,
            },
            WorkerAction::Interrupt { tasks } => WorkerActionView::Interrupt {
                tasks: attempt_views(tasks@),
            },
        }
    }
}

/// The report of how a task stands.
pub open spec fn task_report(
    worker_id: Seq<char>,
    task: TaskAttemptView,
    state: TaskStateView,
) -> WorkerMessageView {
    WorkerMessageView::TaskUpdate { version: PROTOCOL_VERSION, worker_id, task, state }
}

/// What is to be done after an execution ended: the report, and the blocks that nobody will read.
/// Where the report does not arrive, the blocks that it lists are to be deleted too.
#[derive(Debug)]
pub struct Ending {
    pub report: WorkerMessage,
    pub discard: Vec<ShuffleBlock>,
    pub uncommitted: Vec<ShuffleBlock>,
}

fn find_attempt(attempts: &Vec<TaskAttemptId>, attempt: &TaskAttemptId) -> (r: bool)
    ensures
        r == attempt_views(attempts@).contains(attempt@),
{
    let ghost views = attempt_views(attempts@);
    for i in 0..attempts.len()
        invariant
            views == attempt_views(attempts@),
            forall|k: int| 0 <= k < i ==> #[trigger] views[k] != attempt@,
    {
        proof {
            assert(views[i as int] == attempts@[i as int]@);
        }
        if attempts[i].same(attempt) {
            return true;
        }
    }
    false
}

fn copy_attempts(attempts: &Vec<TaskAttemptId>) -> (r: Vec<TaskAttemptId>)
    ensures
        attempt_views(r@) == attempt_views(attempts@),
{
    let mut copy: Vec<TaskAttemptId> = Vec::new();
    for i in 0..attempts.len()
        invariant
            copy.len() == i,
            forall|k: int| 0 <= k < i ==> (#[trigger] copy@[k])@ == attempts@[k]@,
    {
        copy.push(attempts[i].clone());
    }
    proof {
        assert(attempt_views(copy@) =~= attempt_views(attempts@));
    }
    copy
}

impl WorkerState {
    pub open spec fn wf(&self) -> bool {
        self@.wf()
    }

    /// The state of a run that begins.
    pub fn new(config: &WorkerConfig) -> (r: Self)
        ensures
            r@ == WorkerView::initial(
                config.worker_id@,
                config.slots,
                config.max_terminal_tasks,
            ),
            r.wf(),
    {
        let r = WorkerState {
            worker_id: config.worker_id.clone(),
            slots: config.slots,
            max_terminal_tasks: config.max_terminal_tasks,
            active: Vec::new(),
            running: 0,
            cancelled_queries: Vec::new(),
            completed_tasks: 0,
            failed_tasks: 0,
            cancelled_tasks: 0,
            output_rows: 0,
            output_bytes: 0,
            stopping: false,
        };
        proof {
            assert(r@.active =~= Seq::empty());
            assert(r@.cancelled_queries =~= Seq::empty());
        }
        r
    }

    /// How the worker registers.
    pub fn registration(&self, memory_bytes: u64) -> (r: WorkerRegistration)
        ensures
            r@ == (WorkerRegistrationView {
                worker_id: self@.worker_id,
                slots: self@.slots,
                memory_bytes,
            }),
    {
        WorkerRegistration { worker_id: self.worker_id.clone(), slots: self.slots, memory_bytes }
    }

    pub fn is_over(&self) -> (r: bool)
        ensures
            r == self@.is_over(),
    {
        self.stopping && self.running == 0
    }

    pub fn is_stopping(&self) -> (r: bool)
        ensures
            r == self@.stopping,
    {
        self.stopping
    }

    /// Begins to stop: all that the worker is at is to be interrupted.
    pub fn shut_down(&mut self) -> (r: Vec<TaskAttemptId>)
        requires
            old(self).wf(),
        ensures
            final(self)@ == (WorkerView { stopping: true, ..old(self)@ }),
            final(self).wf(),
            attempt_views(r@) == old(self)@.active,
    {
        self.stopping = true;
        copy_attempts(&self.active)
    }

    /// The sign of life that is due at a time.
    pub fn heartbeat(&self, observed_at_ms: u64, memory: &QueryMemory) -> (r: WorkerHeartbeat)
        requires
            self.wf(),
            memory.wf(),
        ensures
            r@ == (WorkerHeartbeatView {
                worker_id: self@.worker_id,
                observed_at_ms,
                available_slots: (self@.slots - self@.active.len()) as u32,
                available_memory_bytes: (memory@.limit - memory@.reserved) as u64,
            }),
    {
        WorkerHeartbeat {
            worker_id: self.worker_id.clone(),
            observed_at_ms,
            available_slots: self.slots - self.active.len() as u32,
            available_memory_bytes: memory.limit_bytes() - memory.reserved_bytes(),
        }
    }

    /// Takes a message of the coordinator.
    pub fn receive(&mut self, message: CoordinatorMessage) -> (r: Result<WorkerAction, SparkXError>)
        requires
            old(self).wf(),
            old(self)@.running < u64::MAX,
        ensures
            final(self).wf(),
            match message@ {
                CoordinatorMessageView::AssignTask { stage, task, lease, .. } => match old(
                    self,
                )@.assignment_check(lease) {
                    Ok(()) => {
                        &&& r matches Ok(action)
                        &&& action@ == (WorkerActionView::Start {
                            report: task_report(
                                old(self)@.worker_id,
                                task,
                                TaskStateView::Running { started_at_ms: lease.issued_at_ms },
                            ),
                            stage,
                            task,
                            lease,
                        })
                        &&& final(self)@ == old(self)@.with_attempt(task)
                    },
                    Err(failure) => {
                        &&& r matches Err(error)
                        &&& error@ == failure
                        &&& final(self)@ == old(self)@
                    },
                },
                CoordinatorMessageView::CancelQuery { query_id, reason, .. } => {
                    &&& r matches Ok(action)
                    &&& action@ == (WorkerActionView::Interrupt {
                        tasks: attempts_of(
                            old(self)@.active,
                            query_id,
                            old(self)@.active.len() as int,
                        ),
                    })
                    &&& final(self)@ == old(self)@.with_cancelled(query_id, reason)
                },
            },
    {
        let ghost before = self@;
        match message {
            CoordinatorMessage::AssignTask { stage, task, lease, .. } => {
                if !lease.worker_id.same(&self.worker_id) {
                    let mut text: String = join("worker ", self.worker_id.as_str());
                    text.append(" received a lease owned by ");
                    text.append(lease.worker_id.as_str());
                    return Err(SparkXError::protocol(text));
                }
                if self.active.len() >= self.slots as usize {
                    let mut text: String = join("worker ", self.worker_id.as_str());
                    text.append(" received more assignments than its ");
                    text.append(decimal(self.slots as u64).as_str());
                    text.append(" slots");
                    return Err(SparkXError::protocol(text));
                }
                let report = WorkerMessage::TaskUpdate {
                    version: PROTOCOL_VERSION,
                    worker_id: self.worker_id.clone(),
                    task: task.clone(),
                    state: TaskState::Running { started_at_ms: lease.issued_at_ms },
                };
                if !find_attempt(&self.active, &task) {
                    self.active.push(task.clone());
                    proof {
                        assert(self@.active =~= before.active.push(task@));
                    }
                }
                self.running = self.running + 1;
                proof {
                    assert(self@.cancelled_queries =~= before.cancelled_queries);
                    a_worker_keeps_to_its_slots(before, task@, lease@);
                }
                Ok(WorkerAction::Start { report, stage, task, lease })
            },
            CoordinatorMessage::CancelQuery { query_id, reason, .. } => {
                let ghost query = query_id@;
                let ghost views = attempt_views(self.active@);
                let mut tasks: Vec<TaskAttemptId> = Vec::new();
                proof {
                    assert(attempt_views(tasks@) =~= Seq::empty());
                }
                for i in 0..self.active.len()
                    invariant
                        query == query_id@,
                        views == attempt_views(self.active@),
                        self@ == before,
                        attempt_views(tasks@) == attempts_of(views, query, i as int),
                {
                    let ghost so_far = attempt_views(tasks@);
                    proof {
                        assert(views[i as int] == self.active@[i as int]@);
                    }
                    if self.active[i].query_id.same(&query_id) {
                        tasks.push(self.active[i].clone());
                        proof {
                            assert(attempt_views(tasks@) =~= so_far.push(views[i as int]));
                        }
                    }
                }
                self.cancelled_queries.push(CancelledQuery { query_id, reason });
                proof {
                    assert(self@.cancelled_queries =~= before.cancelled_queries.push(
                        CancelledView { query_id: query, reason: reason@ },
                    ));
                }
                Ok(WorkerAction::Interrupt { tasks })
            },
        }
    }

    fn reason_for(&self, query: &QueryId) -> (r: Option<String>)
        ensures
            match r {
                Some(reason) => self@.cancellation(query@) == Some(reason@),
                None => self@.cancellation(query@) is None,
            },
    {
        let ghost views = self@.cancelled_queries;
        let mut i: usize = self.cancelled_queries.len();
        while i > 0
            invariant
                i <= self.cancelled_queries.len(),
                views == cancelled_views(self.cancelled_queries@),
                self@.cancellation(query@) == cancellation_of(views, query@, i as int),
            decreases i,
        {
            i = i - 1;
            proof {
                assert(views[i as int].query_id == self.cancelled_queries@[i as int].query_id@);
                assert(views[i as int].reason == self.cancelled_queries@[i as int].reason@);
            }
            if self.cancelled_queries[i].query_id.same(query) {
                return Some(self.cancelled_queries[i].reason.clone());
            }
        }
        None
    }

    fn forget(&mut self, task: &TaskAttemptId)
        requires
            old(self)@.running > 0,
        ensures
            final(self)@ == (WorkerView {
                active: without_attempt(
                    old(self)@.active,
                    task@,
                    old(self)@.active.len() as int,
                ),
                running: (old(self)@.running - 1) as u64,
                ..old(self)@
            }),
    {
        let ghost before = self@;
        let ghost views = attempt_views(self.active@);
        let mut rest: Vec<TaskAttemptId> = Vec::new();
        proof {
            assert(attempt_views(rest@) =~= Seq::empty());
        }
        for i in 0..self.active.len()
            invariant
                self@ == before,
                views == attempt_views(self.active@),
                attempt_views(rest@) == without_attempt(views, task@, i as int),
        {
            let ghost so_far = attempt_views(rest@);
            proof {
                assert(views[i as int] == self.active@[i as int]@);
            }
            if !self.active[i].same(task) {
                rest.push(self.active[i].clone());
                proof {
                    assert(attempt_views(rest@) =~= so_far.push(views[i as int]));
                }
            }
        }
        self.active = rest;
        self.running = self.running - 1;
        proof {
            assert(self@.cancelled_queries =~= before.cancelled_queries);
        }
    }

    /// Takes the end of an execution.
    pub fn complete(
        &mut self,
        task: TaskAttemptId,
        lease: &TaskLease,
        result: Result<TaskOutput, SparkXError>,
    ) -> (r: Ending)
        requires
            old(self).wf(),
            old(self)@.active.contains(task@) || old(self)@.active.len() < old(self)@.running,
            old(self)@.completed_tasks < u64::MAX,
            old(self)@.failed_tasks < u64::MAX,
            old(self)@.cancelled_tasks < u64::MAX,
        ensures
            final(self)@ == old(self)@.ended(task@, lease@, output_outcome(result)),
            final(self).wf(),
            r.report@ == task_report(
                old(self)@.worker_id,
                task@,
                old(self)@.terminal_state(task@, lease@, output_outcome(result)),
            ),
            block_views(r.discard@) == (if result is Ok && old(self)@.cancellation(
                task@.query_id,
            ) is Some {
                output_outcome(result)->Ok_0.blocks
            } else {
                Seq::empty()
            }),
            block_views(r.uncommitted@) == (match old(self)@.terminal_state(
                task@,
                lease@,
                output_outcome(result),
            ) {
                TaskStateView::Succeeded { output_blocks, .. } => output_blocks,
                _ => Seq::empty(),
            }),
    {
        proof {
            an_ended_attempt_is_forgotten(self@, task@, lease@, output_outcome(result));
            if self@.active.contains(task@) {
                let k = choose|k: int| 0 <= k < self@.active.len() && self@.active[k] == task@;
            }
        }
        let finished_at_ms: u64 = lease.issued_at_ms;
        let cancellation = self.reason_for(&task.query_id);
        self.forget(&task);
        let mut discard: Vec<ShuffleBlock> = Vec::new();
        let mut uncommitted: Vec<ShuffleBlock> = Vec::new();
        proof {
            assert(block_views(discard@) =~= Seq::empty());
        }
        let state = match cancellation {
            Some(reason) => {
                if let Ok(output) = result {
                    discard = output.blocks;
                }
                self.cancelled_tasks = self.cancelled_tasks + 1;
                TaskState::Cancelled { finished_at_ms, reason }
            },
            None => match result {
                Ok(output) => {
                    self.completed_tasks = self.completed_tasks + 1;
                    self.output_rows = saturate(self.output_rows, output.rows);
                    self.output_bytes = saturate(self.output_bytes, output.bytes);
                    uncommitted = clone_blocks(&output.blocks);
                    TaskState::Succeeded { finished_at_ms, output_blocks: output.blocks }
                },
                Err(SparkXError::Cancelled) => {
                    if self.stopping {
                        self.failed_tasks = self.failed_tasks + 1;
                        TaskState::Failed {
                            finished_at_ms,
                            error: "worker shut down before the task completed".to_owned(),
                            retryable: true,
                        }
                    } else {
                        self.cancelled_tasks = self.cancelled_tasks + 1;
                        TaskState::Cancelled {
                            finished_at_ms,
                            reason: "task execution was cancelled".to_owned(),
                        }
                    }
                },
                Err(error) => {
                    self.failed_tasks = self.failed_tasks + 1;
                    let retryable: bool = is_retryable(&error);
                    TaskState::Failed { finished_at_ms, error: error.to_text(), retryable }
                },
            },
        };
        let report = WorkerMessage::TaskUpdate {
            version: PROTOCOL_VERSION,
            worker_id: self.worker_id.clone(),
            task,
            state,
        };
        Ending { report, discard, uncommitted }
    }

    /// After a report arrived: where enough tasks have finished, begins to stop, and tells what is
    /// to be interrupted.
    pub fn settle(&mut self) -> (r: Option<Vec<TaskAttemptId>>)
        requires
            old(self).wf(),
        ensures
            final(self).wf(),
            match r {
                Some(tasks) => {
                    &&& old(self)@.is_done()
                    &&& final(self)@ == (WorkerView { stopping: true, ..old(self)@ })
                    &&& attempt_views(tasks@) == old(self)@.active
                },
                None => !old(self)@.is_done() && final(self)@ == old(self)@,
            },
    {
        let terminal: u64 = saturate(
            saturate(self.completed_tasks, self.failed_tasks),
            self.cancelled_tasks,
        );
        if let Some(maximum) = self.max_terminal_tasks {
            if terminal >= maximum {
                return Some(self.shut_down());
            }
        }
        None
    }

    /// What the worker did.
    pub fn summary(&self, metrics: MetricsSnapshot) -> (r: WorkerRunSummary)
        ensures
            r.completed_tasks == self@.completed_tasks,
            r.failed_tasks == self@.failed_tasks,
            r.cancelled_tasks == self@.cancelled_tasks,
            r.output_rows == self@.output_rows,
            r.output_bytes == self@.output_bytes,
            r.metrics == metrics,
    {
        WorkerRunSummary {
            completed_tasks: self.completed_tasks,
            failed_tasks: self.failed_tasks,
            cancelled_tasks: self.cancelled_tasks,
            output_rows: self.output_rows,
            output_bytes: self.output_bytes,
            metrics,
        }
    }
}

} // verus!

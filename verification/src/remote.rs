//! What a client decides while workers run a stage for it.

use crate::batch::{batch_views, Batch};
use crate::cluster::block_store::{has_prefix, starts_with};
use crate::cluster::join::{plan_remote_join, remote_join, stage_views};
use crate::coordinator::StageStatus;
use crate::distributed::local::{partitions_of, scan_partitions};
use crate::error::{outcome, ErrorView, SparkXError};
use crate::physical::{PhysicalPlan, PhysicalView};
use crate::plan_codec::stage_of;
use crate::protocol::{
    text_id_check, QueryId, ShuffleBlock, ShuffleLocation, ShuffleLocationView, StageId, StagePlan,
    StagePlanView, TaskAttemptView,
};
use crate::text::{blank, characters, decimal, is_blank, join, numeral};
use crate::types::{Schema, SchemaView};
use vstd::prelude::*;

verus! {

/// How a client waits for a stage. Times are in nanoseconds.
#[derive(Debug)]
pub struct RemoteStageConfig {
    pub coordinator_endpoint: String,
    pub poll_interval_ns: u64,
    pub timeout_ns: u64,
    pub delete_output_after_fetch: bool,
    /// How often a query whose output was lost is run again as a whole.
    pub max_query_retries: u32,
}

/// What is wrong with a client's configuration, if anything is.
pub open spec fn remote_config_check(config: RemoteStageConfig) -> Result<(), ErrorView> {
    if blank(config.coordinator_endpoint@) {
        Err(ErrorView::Planning("remote-stage coordinator endpoint must not be empty"@))
    } else if config.poll_interval_ns == 0 || config.timeout_ns == 0 {
        Err(
            ErrorView::Planning(
                "remote-stage poll interval and timeout must be greater than zero"@,
            ),
        )
    } else {
        Ok(())
    }
}

impl RemoteStageConfig {
    /// The usual configuration: fifty milliseconds between questions, and five minutes in all.
    pub fn new(coordinator_endpoint: String) -> (r: Self)
        ensures
            r.coordinator_endpoint@ == coordinator_endpoint@,
            r.poll_interval_ns == 50_000_000,
            r.timeout_ns == 300_000_000_000,
            r.delete_output_after_fetch,
            r.max_query_retries == 0,
            !blank(coordinator_endpoint@) ==> remote_config_check(r) is Ok,
    {
        RemoteStageConfig {
            coordinator_endpoint,
            poll_interval_ns: 50_000_000,
            timeout_ns: 300_000_000_000,
            delete_output_after_fetch: true,
            max_query_retries: 0,
        }
    }

    pub fn validate(&self) -> (r: Result<(), SparkXError>)
        ensures
            outcome(r) == remote_config_check(*self),
    {
        if is_blank(self.coordinator_endpoint.as_str()) {
            return Err(
                SparkXError::planning(
                    "remote-stage coordinator endpoint must not be empty".to_owned(),
                ),
            );
        }
        if self.poll_interval_ns == 0 || self.timeout_ns == 0 {
            return Err(
                SparkXError::planning(
                    "remote-stage poll interval and timeout must be greater than zero".to_owned(),
                ),
            );
        }
        Ok(())
    }
}

/// Whether a plan works on each partition by itself.
pub open spec fn is_partition_local(plan: PhysicalView) -> bool
    decreases plan,
{
    match plan {
        PhysicalView::Scan { .. } => true,
        PhysicalView::Filter { input, .. } => is_partition_local(*input),
        PhysicalView::Projection { input, .. } => is_partition_local(*input),
        _ => false,
    }
}

fn works_on_partitions(plan: &PhysicalPlan) -> (r: bool)
    ensures
        r == is_partition_local(plan@),
    decreases plan,
{
    match plan {
        PhysicalPlan::Scan { .. } => true,
        PhysicalPlan::Filter { input, .. } => works_on_partitions(input),
        PhysicalPlan::Projection { input, .. } => works_on_partitions(input),
        _ => false,
    }
}

/// Whether a plan can be run by workers in one stage. One that needs all rows together cannot.
pub fn check_remote_plan(plan: &PhysicalPlan) -> (r: Result<(), SparkXError>)
    ensures
        outcome(r) == (if is_partition_local(plan@) {
            Ok(())
        } else {
            Err(
                ErrorView::Unsupported(
                    "remote execution of global operators requires multi-stage merge planning"@,
                ),
            )
        }),
{
    if works_on_partitions(plan) {
        Ok(())
    } else {
        Err(
            SparkXError::unsupported(
                "remote execution of global operators requires multi-stage merge planning".to_owned(),
            ),
        )
    }
}

/// The stages of a plan that workers run, or why there are none.
pub open spec fn stages_of(plan: PhysicalView, query_id: Seq<char>) -> Result<
    Seq<StagePlanView>,
    ErrorView,
> {
    match remote_join(plan, query_id) {
        Err(error) => Err(error),
        Ok(Some(stages)) => Ok(stages),
        Ok(None) => if !is_partition_local(plan) {
            Err(
                ErrorView::Unsupported(
                    "remote execution of global operators requires multi-stage merge planning"@,
                ),
            )
        } else {
            let partitions = match partitions_of(plan) {
                Some(partitions) => partitions,
                None => 1usize,
            };
            if partitions > u32::MAX {
                Err(
                    ErrorView::Execution(
                        "remote partition count "@ + numeral(partitions as nat)
                            + " exceeds the protocol limit"@,
                    ),
                )
            } else {
                match stage_of(query_id, StageId(0), Seq::empty(), partitions as u32, plan) {
                    Err(error) => Err(error),
                    Ok(stage) => Ok(seq![stage]),
                }
            }
        },
    }
}

/// The stages of a plan that workers run. The last of them gives the result.
pub fn remote_stages(plan: &PhysicalPlan, query_id: QueryId) -> (r: Result<
    Vec<StagePlan>,
    SparkXError,
>)
    ensures
        match r {
            Ok(stages) => stages_of(plan@, query_id@) == Ok::<Seq<StagePlanView>, ErrorView>(
                stage_views(stages@),
            ),
            Err(error) => stages_of(plan@, query_id@) == Err::<Seq<StagePlanView>, ErrorView>(
                error@,
            ),
        },
{
    match plan_remote_join(plan, query_id.clone()) {
        Err(error) => return Err(error),
        Ok(Some(stages)) => return Ok(stages),
        Ok(None) => {},
    }
    match check_remote_plan(plan) {
        Ok(()) => {},
        Err(error) => return Err(error),
    }
    let partitions: usize = match scan_partitions(plan) {
        Some(partitions) => partitions,
        None => 1,
    };
    if partitions as u64 > u32::MAX as u64 {
        let mut text: String = join("remote partition count ", decimal(partitions as u64).as_str());
        text.append(" exceeds the protocol limit");
        return Err(SparkXError::execution(text));
    }
    match StagePlan::from_physical_plan(
        query_id,
        StageId(0),
        Vec::new(),
        partitions as u32,
        plan,
    ) {
        Err(error) => Err(error),
        Ok(stage) => {
            let ghost view = stage@;
            let mut stages: Vec<StagePlan> = Vec::new();
            stages.push(stage);
            proof {
                assert(stage_views(stages@) =~= seq![view]);
            }
            Ok(stages)
        },
    }
}

/// A client that has stages run, with a configuration that is sound.
#[derive(Debug)]
pub struct RemoteStageRunner {
    config: RemoteStageConfig,
}

impl View for RemoteStageRunner {
    type V = RemoteStageConfig;

    closed spec fn view(&self) -> RemoteStageConfig {
        self.config
    }
}

impl RemoteStageRunner {
    /// Whether the configuration is sound.
    #[verifier::type_invariant]
    spec fn is_sound(self) -> bool {
        remote_config_check(self.config) is Ok
    }

    pub fn new(config: RemoteStageConfig) -> (r: Result<Self, SparkXError>)
        ensures
            match r {
                Ok(runner) => remote_config_check(config) is Ok && runner@ == config,
                Err(error) => remote_config_check(config) == Err::<(), ErrorView>(error@),
            },
    {
        match config.validate() {
            Ok(()) => Ok(RemoteStageRunner { config }),
            Err(error) => Err(error),
        }
    }

    pub fn config(&self) -> (r: &RemoteStageConfig)
        ensures
            *r == self@,
            remote_config_check(*r) is Ok,
    {
        proof {
            use_type_invariant(self);
        }
        &self.config
    }
}

/// Which of some stages tells how a query stands: the first that failed, and where none did, the
/// last.
pub open spec fn telling(statuses: Seq<StageStatus>, from: int) -> int
    decreases statuses.len() - from,
{
    if from >= statuses.len() - 1 || statuses[from] == StageStatus::Failed {
        from
    } else {
        telling(statuses, from + 1)
    }
}

/// Which of some stages tells how a query stands.
pub fn telling_stage(statuses: &Vec<StageStatus>) -> (r: usize)
    requires
        statuses.len() > 0,
    ensures
        r < statuses.len(),
        r == telling(statuses@, 0),
        forall|i: int| 0 <= i < r ==> #[trigger] statuses@[i] != StageStatus::Failed,
        statuses@[r as int] == StageStatus::Failed || r == statuses.len() - 1,
{
    let mut at: usize = 0;
    while at < statuses.len() - 1 && statuses[at] != StageStatus::Failed
        invariant
            at < statuses.len(),
            telling(statuses@, 0) == telling(statuses@, at as int),
            forall|i: int| 0 <= i < at ==> #[trigger] statuses@[i] != StageStatus::Failed,
        decreases statuses.len() - at,
    {
        at += 1;
    }
    at
}

/// What a client does next.
#[derive(Debug, Clone, Copy, PartialEq, Eq, Structural)]
pub enum StageStep {
    /// Cancels the query for the client's sake, and fails as cancelled.
    Withdraw,
    /// Fetches the output.
    Fetch,
    /// Fails with what failed.
    Explain,
    /// Fails as cancelled.
    Stop,
    /// Cancels the query, and fails for want of time.
    TimeOut,
    /// Asks again later.
    Wait,
}

/// What a client does next.
pub open spec fn next_step(
    cancelled: bool,
    status: StageStatus,
    elapsed_ns: u64,
    timeout_ns: u64,
) -> StageStep {
    if cancelled {
        StageStep::Withdraw
    } else {
        match status {
            StageStatus::Succeeded => StageStep::Fetch,
            StageStatus::Failed => StageStep::Explain,
            StageStatus::Cancelled => StageStep::Stop,
            _ => if elapsed_ns >= timeout_ns {
                StageStep::TimeOut
            } else {
                StageStep::Wait
            },
        }
    }
}

/// What a client does next, by how its stage stands.
pub fn decide(cancelled: bool, status: StageStatus, elapsed_ns: u64, timeout_ns: u64) -> (r:
    StageStep)
    ensures
        r == next_step(cancelled, status, elapsed_ns, timeout_ns),
{
    if cancelled {
        return StageStep::Withdraw;
    }
    match status {
        StageStatus::Succeeded => StageStep::Fetch,
        StageStatus::Failed => StageStep::Explain,
        StageStatus::Cancelled => StageStep::Stop,
        _ => {
            if elapsed_ns >= timeout_ns {
                StageStep::TimeOut
            } else {
                StageStep::Wait
            }
        },
    }
}

/// A partition that failed.
#[derive(Debug)]
pub struct PartitionFailure {
    pub partition: u32,
    pub attempt: u32,
    pub error: String,
}

pub open spec fn failure_text(failure: PartitionFailure) -> Seq<char> {
    "partition "@ + numeral(failure.partition as nat) + " attempt "@ + numeral(
        failure.attempt as nat,
    ) + ": "@ + failure.error@
}

/// How the first `upto` failures read.
pub open spec fn failures_text(failures: Seq<PartitionFailure>, upto: int) -> Seq<char>
    decreases upto,
{
    if upto <= 0 {
        Seq::empty()
    } else if upto == 1 {
        ": "@ + failure_text(failures[0])
    } else {
        failures_text(failures, upto - 1) + "; "@ + failure_text(failures[upto - 1])
    }
}

fn show_failure(failure: &PartitionFailure) -> (r: String)
    ensures
        r@ == failure_text(*failure),
{
    let mut text: String = join("partition ", decimal(failure.partition as u64).as_str());
    text.append(" attempt ");
    text.append(decimal(failure.attempt as u64).as_str());
    text.append(": ");
    text.append(failure.error.as_str());
    text
}

fn show_failures(failures: &Vec<PartitionFailure>) -> (r: String)
    ensures
        r@ == failures_text(failures@, failures.len() as int),
{
    let mut text: String = String::new();
    proof {
        assert(text@ =~= Seq::empty());
    }
    for i in 0..failures.len()
        invariant
            text@ == failures_text(failures@, i as int),
    {
        let shown = show_failure(&failures[i]);
        if i == 0 {
            text = join(": ", shown.as_str());
        } else {
            text.append("; ");
            text.append(shown.as_str());
        }
    }
    text
}

/// How a stage of a query reads.
pub open spec fn stage_text(query: Seq<char>, stage: StageId) -> Seq<char> {
    "remote query "@ + query + " stage "@ + numeral(stage.0 as nat)
}

fn show_stage(query_id: &QueryId, stage_id: StageId) -> (r: String)
    ensures
        r@ == stage_text(query_id@, stage_id),
{
    let mut text: String = join("remote query ", query_id.as_str());
    text.append(" stage ");
    text.append(decimal(stage_id.0 as u64).as_str());
    text
}

/// The error of a stage of which partitions failed.
pub fn stage_failure(query_id: &QueryId, stage_id: StageId, failures: &Vec<PartitionFailure>) -> (r:
    SparkXError)
    ensures
        r@ == ErrorView::Execution(
            stage_text(query_id@, stage_id) + " failed"@ + failures_text(
                failures@,
                failures.len() as int,
            ),
        ),
{
    let mut message = show_stage(query_id, stage_id);
    message.append(" failed");
    message.append(show_failures(failures).as_str());
    SparkXError::execution(message)
}

/// The error of a stage that took too long; `timeout` is how the limit reads.
pub fn stage_timeout(query_id: &QueryId, stage_id: StageId, timeout: &str) -> (r: SparkXError)
    ensures
        r@ == ErrorView::Execution(
            stage_text(query_id@, stage_id) + " exceeded its "@ + timeout@ + " timeout"@,
        ),
{
    let mut message = show_stage(query_id, stage_id);
    message.append(" exceeded its ");
    message.append(timeout);
    message.append(" timeout");
    SparkXError::execution(message)
}

/// The endpoint at which a block of a stage's output is had, or why there is none.
pub open spec fn output_endpoint(location: ShuffleLocationView) -> Result<Seq<char>, ErrorView> {
    match location {
        ShuffleLocationView::Flight { endpoint, .. } => Ok(endpoint),
        ShuffleLocationView::Worker { .. } => Err(
            ErrorView::Unsupported(
                "remote stage output uses a worker-local location without a Flight endpoint"@,
            ),
        ),
        ShuffleLocationView::ObjectStore { .. } => Err(
            ErrorView::Unsupported("object-store remote stage output is not implemented"@),
        ),
    }
}

pub open spec fn text_outcome(r: Result<&str, SparkXError>) -> Result<Seq<char>, ErrorView> {
    match r {
        Ok(text) => Ok(text@),
        Err(error) => Err(error@),
    }
}

/// The endpoint at which a block of a stage's output is had.
pub fn flight_endpoint(block: &ShuffleBlock) -> (r: Result<&str, SparkXError>)
    ensures
        text_outcome(r) == output_endpoint(block@.location),
{
    match &block.location {
        ShuffleLocation::Flight { endpoint, .. } => Ok(endpoint.as_str()),
        ShuffleLocation::Worker { .. } => Err(
            SparkXError::unsupported(
                "remote stage output uses a worker-local location without a Flight endpoint".to_owned(),
            ),
        ),
        ShuffleLocation::ObjectStore { .. } => Err(
            SparkXError::unsupported(
                "object-store remote stage output is not implemented".to_owned(),
            ),
        ),
    }
}

/// What came of a stage.
#[derive(Debug)]
pub struct RemoteStageResult {
    pub schema: Option<Schema>,
    pub batches: Vec<Batch>,
    pub output_blocks: Vec<ShuffleBlock>,
    /// What went wrong when the blocks were deleted, after all of them had arrived.
    pub cleanup_errors: Vec<String>,
    /// How often the query was run again as a whole.
    pub recovery_attempts: u32,
}

pub open spec fn schema_view(schema: Option<Schema>) -> Option<SchemaView> {
    match schema {
        Some(schema) => Some(schema@),
        None => None,
    }
}

impl RemoteStageResult {
    /// The result of blocks of which none has arrived.
    pub fn new(output_blocks: Vec<ShuffleBlock>) -> (r: Self)
        ensures
            r.schema is None,
            r.batches@ == Seq::<Batch>::empty(),
            r.output_blocks@ == output_blocks@,
            r.cleanup_errors@ == Seq::<String>::empty(),
            r.recovery_attempts == 0,
    {
        RemoteStageResult {
            schema: None,
            batches: Vec::new(),
            output_blocks,
            cleanup_errors: Vec::new(),
            recovery_attempts: 0,
        }
    }

    /// Takes in a block that arrived. All blocks are to have one schema.
    pub fn merge_download(&mut self, schema: Schema, batches: Vec<Batch>) -> (r: Result<
        (),
        SparkXError,
    >)
        ensures
            final(self).output_blocks == old(self).output_blocks,
            final(self).cleanup_errors == old(self).cleanup_errors,
            final(self).recovery_attempts == old(self).recovery_attempts,
            match r {
                Ok(()) => {
                    &&& schema_view(old(self).schema) is None || schema_view(old(self).schema)
                        == Some(schema@)
                    &&& schema_view(final(self).schema) == Some(schema@)
                    &&& batch_views(final(self).batches@) == batch_views(old(self).batches@)
                        + batch_views(batches@)
                },
                Err(error) => {
                    &&& schema_view(old(self).schema) is Some && schema_view(old(self).schema)
                        != Some(schema@)
                    &&& error@ == ErrorView::Protocol(
                        "remote stage output blocks contain different Arrow schemas"@,
                    )
                    &&& final(self).schema == old(self).schema
                    &&& final(self).batches == old(self).batches
                },
            },
    {
        let differs: bool = match &self.schema {
            Some(expected) => !expected.same(&schema),
            None => false,
        };
        if differs {
            return Err(
                SparkXError::protocol(
                    "remote stage output blocks contain different Arrow schemas".to_owned(),
                ),
            );
        }
        if self.schema.is_none() {
            self.schema = Some(schema);
        }
        let ghost first = self.batches@;
        let ghost second = batches@;
        let mut batches = batches;
        self.batches.append(&mut batches);
        proof {
            assert(batch_views(self.batches@) =~= batch_views(first) + batch_views(second));
        }
        Ok(())
    }
}

/// Whether an error is that of a peer or of output that is gone, which running the query again may
/// mend. An error that partitions failed with counts by what they report.
pub open spec fn is_recoverable(error: ErrorView, failures: Seq<PartitionFailure>) -> bool {
    if failures.len() > 0 {
        forall|i: int|
            0 <= i < failures.len() ==> starts_with(
                (#[trigger] failures[i]).error@,
                "transport error: "@,
            )
    } else {
        error is Transport || error is NotFound
    }
}

/// Whether a query that failed is run again as a whole: its output was lost, it has retries left,
/// and the time that it has for all of them has not run out.
pub fn may_recover(
    error: &SparkXError,
    failures: &Vec<PartitionFailure>,
    attempts: u32,
    config: &RemoteStageConfig,
    elapsed_ns: u64,
) -> (r: bool)
    ensures
        r == (is_recoverable(error@, failures@) && attempts < config.max_query_retries
            && elapsed_ns < config.timeout_ns),
{
    if attempts >= config.max_query_retries || elapsed_ns >= config.timeout_ns {
        return false;
    }
    if failures.len() == 0 {
        return match error {
            SparkXError::Transport(_) | SparkXError::NotFound(_) => true,
            _ => false,
        };
    }
    for i in 0..failures.len()
        invariant
            forall|k: int|
                0 <= k < i ==> starts_with(
                    (#[trigger] failures@[k]).error@,
                    "transport error: "@,
                ),
    {
        let text = characters(failures[i].error.as_str());
        if !has_prefix(&text, "transport error: ") {
            return false;
        }
    }
    true
}

/// The name of a query that is run again.
pub open spec fn retry_name(query_id: Seq<char>, attempt: u32) -> Seq<char> {
    query_id + "-retry-"@ + numeral(attempt as nat)
}

/// A stage of a query that is run again: the same, under another query.
pub open spec fn renewed(stage: StagePlanView, attempt: u32) -> StagePlanView {
    StagePlanView { query_id: retry_name(stage.query_id, attempt), ..stage }
}

/// A stage of a query that is run again, or why the query cannot have the name that it needs.
pub fn renew_stage(stage: &StagePlan, attempt: u32) -> (r: Result<StagePlan, SparkXError>)
    ensures
        match r {
            Ok(again) => {
                &&& text_id_check("query"@, retry_name(stage@.query_id, attempt)) is Ok
                &&& again@ == renewed(stage@, attempt)
            },
            Err(error) => text_id_check("query"@, retry_name(stage@.query_id, attempt)) == Err::<
                (),
                ErrorView,
            >(error@),
        },
{
    let mut name: String = join(stage.query_id.as_str(), "-retry-");
    name.append(decimal(attempt as u64).as_str());
    let query_id = match QueryId::new(name.as_str()) {
        Ok(query_id) => query_id,
        Err(error) => return Err(error),
    };
    let again = stage.clone();
    Ok(
        StagePlan {
            query_id,
            stage_id: again.stage_id,
            input_stages: again.input_stages,
            partition_count: again.partition_count,
            plan_fragment: again.plan_fragment,
            output_exchange: again.output_exchange,
            partitioned_input: again.partitioned_input,
        },
    )
}

/// A task of a query can commit nothing to the query that was run in its place.
pub proof fn an_old_task_cannot_commit(stage: StagePlanView, attempt: u32, task: TaskAttemptView)
    requires
        task.query_id == stage.query_id,
    ensures
        task.check_for(renewed(stage, attempt)) is Err,
{
    reveal_strlit("-retry-");
    assert(retry_name(stage.query_id, attempt).len() > stage.query_id.len());
}

} // verus!

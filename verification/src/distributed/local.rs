//! Aggregation by several workers of one process.

use crate::batch::{batch_outcome, batch_views, Batch, BatchView};
use crate::catalog::{Catalog, TableView};
use crate::distributed::merge::{
    column_place, fresh_merges, holds_partials, merged, merged_peak,
};
use crate::distributed::partial::{MergeState, MergeView};
use crate::distributed::run::{
    arrival_of_one, arrivals_metrics, growth_check, step_fails, LocalRun,
};
use crate::cluster::hash_exchange::batch_charge;
use crate::error::{ErrorView, SparkXError};
use crate::execution::aggregate::{aggregate_specs, call_views, calls_of, AggregateCall, CallView};
use crate::execution::run::{
    aggregate_step, execute_metered, meters, misfit, misfit_error, operator_metrics, produces,
    run_aggregate,
};
use crate::expr::{clone_exprs, expr_views, AggregateFunction, Expr, ExprView};
use crate::logical::{fields_of, infer_fields};
use crate::memory::{MemoryView, QueryMemory};
use crate::metrics::{MetricsView, QueryMetrics};
use crate::physical::{PhysicalPlan, PhysicalView};
use crate::plan_codec::{decoded_fragment, stage_of};
use crate::protocol::{
    QueryId, StageId, StagePlan, StagePlanView, TaskState, TaskStateView, WorkerId, WorkerMessage,
    WorkerMessageView, WorkerRegistration, WorkerRegistrationView, PROTOCOL_VERSION,
};
use crate::table::{named_views, NamedTable, NamedTableView};
use crate::text::{decimal, join, numeral};
use crate::types::{plain_schema, Schema, SchemaView};
use vstd::prelude::*;

verus! {

/// Whether an expression is an aggregate that takes each value but once.
pub open spec fn is_distinct(expr: ExprView) -> bool {
    expr.unalias() matches ExprView::Aggregate { distinct, .. } && distinct
}

pub fn is_distinct_aggregate(expr: &Expr) -> (r: bool)
    ensures
        r == is_distinct(expr@),
{
    match expr.unalias() {
        Expr::Aggregate { distinct, .. } => *distinct,
        _ => false,
    }
}

/// Whether a plan joins.
pub open spec fn joins(plan: PhysicalView) -> bool
    decreases plan,
{
    match plan {
        PhysicalView::HashJoin { .. } => true,
        PhysicalView::Projection { input, .. } => joins(*input),
        PhysicalView::Filter { input, .. } => joins(*input),
        PhysicalView::HashAggregate { input, .. } => joins(*input),
        PhysicalView::Sort { input, .. } => joins(*input),
        PhysicalView::TopK { input, .. } => joins(*input),
        PhysicalView::Limit { input, .. } => joins(*input),
        PhysicalView::Scan { .. } => false,
    }
}

pub fn contains_join(plan: &PhysicalPlan) -> (r: bool)
    ensures
        r == joins(plan@),
    decreases plan,
{
    match plan {
        PhysicalPlan::HashJoin { .. } => true,
        PhysicalPlan::Projection { input, .. } => contains_join(input),
        PhysicalPlan::Filter { input, .. } => contains_join(input),
        PhysicalPlan::HashAggregate { input, .. } => contains_join(input),
        PhysicalPlan::Sort { input, .. } => contains_join(input),
        PhysicalPlan::TopK { input, .. } => contains_join(input),
        PhysicalPlan::Limit { input, .. } => contains_join(input),
        PhysicalPlan::Scan { .. } => false,
    }
}

/// The partitions of the one table that a plan without a join scans.
pub open spec fn partitions_of(plan: PhysicalView) -> Option<usize>
    decreases plan,
{
    match plan {
        PhysicalView::Scan { provider, .. } => Some(provider.partition_count),
        PhysicalView::Projection { input, .. } => partitions_of(*input),
        PhysicalView::Filter { input, .. } => partitions_of(*input),
        PhysicalView::HashAggregate { input, .. } => partitions_of(*input),
        PhysicalView::Sort { input, .. } => partitions_of(*input),
        PhysicalView::TopK { input, .. } => partitions_of(*input),
        PhysicalView::Limit { input, .. } => partitions_of(*input),
        PhysicalView::HashJoin { .. } => None,
    }
}

pub fn scan_partitions(plan: &PhysicalPlan) -> (r: Option<usize>)
    ensures
        r == partitions_of(plan@),
    decreases plan,
{
    match plan {
        PhysicalPlan::Scan { provider, .. } => Some(provider.partition_count),
        PhysicalPlan::Projection { input, .. } => scan_partitions(input),
        PhysicalPlan::Filter { input, .. } => scan_partitions(input),
        PhysicalPlan::HashAggregate { input, .. } => scan_partitions(input),
        PhysicalPlan::Sort { input, .. } => scan_partitions(input),
        PhysicalPlan::TopK { input, .. } => scan_partitions(input),
        PhysicalPlan::Limit { input, .. } => scan_partitions(input),
        PhysicalPlan::HashJoin { .. } => None,
    }
}

/// The partitions over which a plan can be spread: an aggregation at the top, of which no function
/// takes each value but once, over more than one partition and without a join.
pub open spec fn spread(plan: PhysicalView) -> Option<usize> {
    match plan {
        PhysicalView::HashAggregate { input, aggregate_exprs, .. } => if joins(*input) || (exists|
            i: int,
        |
            0 <= i < aggregate_exprs.len() && is_distinct(#[trigger] aggregate_exprs[i])) {
            None
        } else {
            match partitions_of(*input) {
                Some(partitions) => if partitions > 1 {
                    Some(partitions)
                } else {
                    None
                },
                None => None,
            }
        },
        _ => None,
    }
}

/// The partitions over which a plan can be spread.
pub fn distributed_partitions(plan: &PhysicalPlan) -> (r: Option<usize>)
    ensures
        r == spread(plan@),
{
    match plan {
        PhysicalPlan::HashAggregate { input, aggregate_exprs, .. } => {
            if contains_join(input) {
                return None;
            }
            let ghost views = expr_views(aggregate_exprs@);
            for i in 0..aggregate_exprs.len()
                invariant
                    views == expr_views(aggregate_exprs@),
                    forall|k: int| 0 <= k < i ==> !is_distinct(#[trigger] views[k]),
                    plan@ matches PhysicalView::HashAggregate { aggregate_exprs: exprs, .. }
                        && exprs == views,
            {
                proof {
                    assert(views[i as int] == aggregate_exprs@[i as int]@);
                }
                if is_distinct_aggregate(&aggregate_exprs[i]) {
                    return None;
                }
            }
            match scan_partitions(input) {
                Some(partitions) => {
                    if partitions > 1 {
                        Some(partitions)
                    } else {
                        None
                    }
                },
                None => None,
            }
        },
        _ => None,
    }
}

/// The partial aggregates for one aggregate: for an average the sum and the count, for every other
/// function itself under its name.
pub open spec fn partials_for(aggregate: ExprView, index: nat) -> Result<Seq<ExprView>, ErrorView> {
    match aggregate.unalias() {
        ExprView::Aggregate { function, expr, distinct } => if function == AggregateFunction::Avg {
            Ok(
                seq![
                    ExprView::Alias(
                        Box::new(
                            ExprView::Aggregate { function: AggregateFunction::Sum, expr, distinct },
                        ),
                        "__sparkx_avg_sum_"@ + numeral(index),
                    ),
                    ExprView::Alias(
                        Box::new(
                            ExprView::Aggregate {
                                function: AggregateFunction::Count,
                                expr,
                                distinct,
                            },
                        ),
                        "__sparkx_avg_count_"@ + numeral(index),
                    ),
                ],
            )
        } else {
            Ok(seq![ExprView::Alias(Box::new(aggregate.unalias()), aggregate.name())])
        },
        _ => Err(
            ErrorView::Planning("expected aggregate expression, got "@ + aggregate.text()),
        ),
    }
}

/// The partial aggregates for the first `upto` aggregates.
pub open spec fn partials_of(aggregates: Seq<ExprView>, upto: int) -> Result<
    Seq<ExprView>,
    ErrorView,
>
    decreases upto,
{
    if upto <= 0 {
        Ok(Seq::empty())
    } else {
        match partials_of(aggregates, upto - 1) {
            Err(error) => Err(error),
            Ok(before) => match partials_for(aggregates[upto - 1], (upto - 1) as nat) {
                Err(error) => Err(error),
                Ok(more) => Ok(before + more),
            },
        }
    }
}

proof fn partials_fail_early(aggregates: Seq<ExprView>, upto: int, full: int)
    requires
        0 <= upto <= full,
        partials_of(aggregates, upto) is Err,
    ensures
        partials_of(aggregates, full) == partials_of(aggregates, upto),
    decreases full - upto,
{
    if upto < full {
        partials_fail_early(aggregates, upto, full - 1);
    }
}

/// The partial aggregates take as many columns as the merge reads.
pub proof fn partials_fill_their_columns(aggregates: Seq<ExprView>, first: int, upto: int)
    requires
        0 <= upto <= aggregates.len(),
    ensures
        match (partials_of(aggregates, upto), calls_of(aggregates, upto)) {
            (Ok(partials), Ok(calls)) => calls.len() == upto && column_place(
                fresh_merges(calls),
                first,
                upto,
            ) == first + partials.len(),
            (Err(_), Err(_)) => true,
            _ => false,
        },
    decreases upto,
{
    if upto > 0 {
        partials_fill_their_columns(aggregates, first, upto - 1);
        if let Ok(calls) = calls_of(aggregates, upto) {
            let before = calls_of(aggregates, upto - 1)->Ok_0;
            same_places(fresh_merges(calls), fresh_merges(before), first, upto - 1);
        }
    }
}

proof fn same_places(longer: Seq<MergeView>, shorter: Seq<MergeView>, first: int, upto: int)
    requires
        0 <= upto <= shorter.len() <= longer.len(),
        forall|i: int| 0 <= i < shorter.len() ==> #[trigger] longer[i] == shorter[i],
    ensures
        column_place(longer, first, upto) == column_place(shorter, first, upto),
    decreases upto,
{
    if upto > 0 {
        same_places(longer, shorter, first, upto - 1);
    }
}

pub open spec fn partials_outcome(r: Result<Vec<Expr>, SparkXError>) -> Result<
    Seq<ExprView>,
    ErrorView,
> {
    match r {
        Ok(exprs) => Ok(expr_views(exprs@)),
        Err(error) => Err(error@),
    }
}

/// The aggregates that are computed for each partition.
pub fn partial_aggregate_exprs(aggregates: &Vec<Expr>) -> (r: Result<Vec<Expr>, SparkXError>)
    ensures
        partials_outcome(r) == partials_of(expr_views(aggregates@), aggregates.len() as int),
{
    let ghost views = expr_views(aggregates@);
    let mut partials: Vec<Expr> = Vec::new();
    proof {
        assert(expr_views(partials@) =~= Seq::empty());
    }
    for i in 0..aggregates.len()
        invariant
            views == expr_views(aggregates@),
            partials_of(views, i as int) == Ok::<Seq<ExprView>, ErrorView>(expr_views(partials@)),
    {
        let ghost before = expr_views(partials@);
        proof {
            assert(views[i as int] == aggregates@[i as int]@);
        }
        let aggregate = &aggregates[i];
        match aggregate.unalias() {
            Expr::Aggregate { function, expr, distinct } => {
                if *function == AggregateFunction::Avg {
                    let sum = Expr::Aggregate {
                        function: AggregateFunction::Sum,
                        expr: Box::new((**expr).clone()),
                        distinct: *distinct,
                    };
                    let count = Expr::Aggregate {
                        function: AggregateFunction::Count,
                        expr: Box::new((**expr).clone()),
                        distinct: *distinct,
                    };
                    let sum = sum.alias(join("__sparkx_avg_sum_", decimal(i as u64).as_str()));
                    let count = count.alias(
                        join("__sparkx_avg_count_", decimal(i as u64).as_str()),
                    );
                    let ghost first = sum@;
                    let ghost second = count@;
                    partials.push(sum);
                    partials.push(count);
                    proof {
                        assert(expr_views(partials@) =~= before + seq![first, second]);
                    }
                } else {
                    let partial = aggregate.unalias().clone().alias(aggregate.name());
                    let ghost view = partial@;
                    partials.push(partial);
                    proof {
                        assert(expr_views(partials@) =~= before + seq![view]);
                    }
                }
            },
            _ => {
                proof {
                    partials_fail_early(views, i + 1, aggregates.len() as int);
                }
                return Err(
                    SparkXError::planning(
                        join(
                            "expected aggregate expression, got ",
                            aggregate.to_text().as_str(),
                        ),
                    ),
                );
            },
        }
    }
    Ok(partials)
}

/// The schema of groups and aggregates over an input, or why there is none.
pub open spec fn schema_of(
    input: SchemaView,
    groups: Seq<ExprView>,
    aggregates: Seq<ExprView>,
) -> Result<SchemaView, ErrorView> {
    let all = groups + aggregates;
    match fields_of(all, input, all.len() as int) {
        Err(error) => Err(error),
        Ok(fields) => Ok(plain_schema(fields)),
    }
}

fn aggregate_schema(input: &Schema, groups: &Vec<Expr>, aggregates: &Vec<Expr>) -> (r: Result<
    Schema,
    SparkXError,
>)
    ensures
        match r {
            Ok(schema) => schema_of(input@, expr_views(groups@), expr_views(aggregates@)) == Ok::<
                SchemaView,
                ErrorView,
            >(schema@),
            Err(error) => schema_of(input@, expr_views(groups@), expr_views(aggregates@))
                == Err::<SchemaView, ErrorView>(error@),
        },
{
    let mut all = clone_exprs(groups);
    let mut more = clone_exprs(aggregates);
    let ghost first = all@;
    let ghost second = more@;
    all.append(&mut more);
    proof {
        assert(expr_views(all@) =~= expr_views(first) + expr_views(second));
    }
    match infer_fields(&all, input) {
        Ok(fields) => Ok(Schema::new(fields)),
        Err(error) => Err(error),
    }
}

/// How an aggregation is spread: the stage that every partition runs, and what is computed of its
/// rows.
#[derive(Debug)]
pub struct ClusterPlan {
    pub stage: StagePlan,
    pub partial_exprs: Vec<Expr>,
    pub partial_schema: Schema,
}

pub struct ClusterPlanView {
    pub stage: StagePlanView,
    pub partial_exprs: Seq<ExprView>,
    pub partial_schema: SchemaView,
}

impl View for ClusterPlan {
    type V = ClusterPlanView;

    open spec fn view(&self) -> ClusterPlanView {
        ClusterPlanView {
            stage: self.stage@,
            partial_exprs: expr_views(self.partial_exprs@),
            partial_schema: self.partial_schema@,
        }
    }
}

/// How a plan is spread over partitions, or why it cannot be.
pub open spec fn spread_plan(plan: PhysicalView, partitions: usize) -> Result<
    ClusterPlanView,
    ErrorView,
> {
    match plan {
        PhysicalView::HashAggregate { input, group_exprs, aggregate_exprs, .. } => match partials_of(
            aggregate_exprs,
            aggregate_exprs.len() as int,
        ) {
            Err(error) => Err(error),
            Ok(partial_exprs) => match schema_of(input.schema(), group_exprs, partial_exprs) {
                Err(error) => Err(error),
                Ok(partial_schema) => if partitions > u32::MAX {
                    Err(
                        ErrorView::Execution(
                            "local cluster partition count "@ + numeral(partitions as nat)
                                + " exceeds the protocol limit"@,
                        ),
                    )
                } else {
                    match stage_of(
                        "local-cluster-query"@,
                        StageId(0),
                        Seq::empty(),
                        partitions as u32,
                        *input,
                    ) {
                        Err(error) => Err(error),
                        Ok(stage) => Ok(ClusterPlanView { stage, partial_exprs, partial_schema }),
                    }
                },
            },
        },
        _ => Err(misfit()),
    }
}

/// How a plan is spread over partitions.
pub fn plan_cluster(plan: &PhysicalPlan, partitions: usize) -> (r: Result<ClusterPlan, SparkXError>)
    ensures
        match r {
            Ok(cluster) => spread_plan(plan@, partitions) == Ok::<ClusterPlanView, ErrorView>(
                cluster@,
            ),
            Err(error) => spread_plan(plan@, partitions) == Err::<ClusterPlanView, ErrorView>(
                error@,
            ),
        },
{
    match plan {
        PhysicalPlan::HashAggregate { input, group_exprs, aggregate_exprs, .. } => {
            let partial_exprs = match partial_aggregate_exprs(aggregate_exprs) {
                Ok(exprs) => exprs,
                Err(error) => return Err(error),
            };
            let partial_schema = match aggregate_schema(
                input.schema(),
                group_exprs,
                &partial_exprs,
            ) {
                Ok(schema) => schema,
                Err(error) => return Err(error),
            };
            if partitions as u64 > u32::MAX as u64 {
                let mut message: String = join(
                    "local cluster partition count ",
                    decimal(partitions as u64).as_str(),
                );
                message.append(" exceeds the protocol limit");
                return Err(SparkXError::execution(message));
            }
            let no_inputs: Vec<StageId> = Vec::new();
            proof {
                assert(no_inputs@ =~= Seq::empty());
            }
            match StagePlan::from_physical_plan(
                QueryId::unchecked("local-cluster-query".to_owned()),
                StageId(0),
                no_inputs,
                partitions as u32,
                input,
            ) {
                Ok(stage) => Ok(ClusterPlan { stage, partial_exprs, partial_schema }),
                Err(error) => Err(error),
            }
        },
        _ => Err(misfit_error()),
    }
}

/// Whether a result is one that a partition of a spread plan can give.
#[verifier::opaque]
pub open spec fn partition_gives(
    cluster: ClusterPlanView,
    group_exprs: Seq<ExprView>,
    catalog: Map<Seq<char>, TableView>,
    tables: Seq<NamedTableView>,
    partition: usize,
    r: Result<Seq<BatchView>, ErrorView>,
) -> bool {
    match cluster.stage.check() {
        Err(error) => r == Err::<Seq<BatchView>, ErrorView>(error),
        Ok(()) => match decoded_fragment(cluster.stage.plan_fragment, catalog) {
            Err(error) => r == Err::<Seq<BatchView>, ErrorView>(error),
            Ok(plan) => exists|rows: Result<Seq<BatchView>, ErrorView>|
                #[trigger] produces(plan, tables, Some(partition), rows) && r == aggregate_step(
                    rows,
                    group_exprs,
                    cluster.partial_exprs,
                    cluster.partial_schema,
                ),
        },
    }
}

/// Whether a partition of a spread plan can give a result and count from some metrics to others on
/// the way.
#[verifier::opaque]
pub open spec fn partition_meters(
    cluster: ClusterPlanView,
    group_exprs: Seq<ExprView>,
    catalog: Map<Seq<char>, TableView>,
    tables: Seq<NamedTableView>,
    partition: usize,
    before: MetricsView,
    r: Result<Seq<BatchView>, ErrorView>,
    after: MetricsView,
) -> bool {
    match cluster.stage.check() {
        Err(error) => r == Err::<Seq<BatchView>, ErrorView>(error),
        Ok(()) => match decoded_fragment(cluster.stage.plan_fragment, catalog) {
            Err(error) => r == Err::<Seq<BatchView>, ErrorView>(error),
            Ok(plan) => exists|rows: Result<Seq<BatchView>, ErrorView>|
                #[trigger] meters(plan, tables, Some(partition), before, rows, after) && r
                    == aggregate_step(
                    rows,
                    group_exprs,
                    cluster.partial_exprs,
                    cluster.partial_schema,
                ),
        },
    }
}

/// The partial aggregates of a partition, as a worker computes them from the stage that it was
/// assigned.
pub fn run_partition(
    stage: &StagePlan,
    cluster: &ClusterPlan,
    group_exprs: &Vec<Expr>,
    catalog: &Catalog,
    tables: &Vec<NamedTable>,
    partition: usize,
    metrics: &mut QueryMetrics,
) -> (r: Result<Vec<Batch>, SparkXError>)
    requires
        catalog.wf(),
        forall|i: int| 0 <= i < tables.len() ==> (#[trigger] tables@[i]).table.wf(),
    ensures
        partition_gives(
            (ClusterPlanView { stage: stage@, ..cluster@ }),
            expr_views(group_exprs@),
            catalog@,
            named_views(tables@),
            partition,
            crate::table::batches_outcome(r),
        ),
        partition_meters(
            (ClusterPlanView { stage: stage@, ..cluster@ }),
            expr_views(group_exprs@),
            catalog@,
            named_views(tables@),
            partition,
            old(metrics)@,
            crate::table::batches_outcome(r),
            final(metrics)@,
        ),
        r matches Ok(batches) ==> crate::table::all_valid(batch_views(batches@)),
{
    proof {
        reveal(partition_gives);
        reveal(partition_meters);
    }
    let plan = match stage.decode_physical_plan(catalog) {
        Ok(plan) => plan,
        Err(error) => return Err(error),
    };
    let rows = execute_metered(&plan, tables, Some(partition), metrics);
    let ghost view = crate::table::batches_outcome(rows);
    let r = match rows {
        Ok(batches) => run_aggregate(
            &batches,
            group_exprs,
            &cluster.partial_exprs,
            &cluster.partial_schema,
        ),
        Err(error) => Err(error),
    };
    proof {
        assert(produces(plan@, named_views(tables@), Some(partition), view));
        assert(meters(
            plan@,
            named_views(tables@),
            Some(partition),
            old(metrics)@,
            view,
            metrics@,
        ));
    }
    r
}

/// The numeral of a worker of the process, with four digits at least.
pub open spec fn worker_number(n: nat) -> Seq<char> {
    if n < 10 {
        "000"@ + numeral(n)
    } else if n < 100 {
        "00"@ + numeral(n)
    } else if n < 1000 {
        "0"@ + numeral(n)
    } else {
        numeral(n)
    }
}

/// The registration of a worker of the process.
pub fn local_registration(index: u64, memory_bytes: u64) -> (r: WorkerMessage)
    ensures
        r@ == (WorkerMessageView::Register {
            version: PROTOCOL_VERSION,
            registration: WorkerRegistrationView {
                worker_id: "local-worker-"@ + worker_number(index as nat),
                slots: 1,
                memory_bytes,
            },
        }),
{
    let digits = decimal(index);
    let number: String = if index < 10 {
        join("000", digits.as_str())
    } else if index < 100 {
        join("00", digits.as_str())
    } else if index < 1000 {
        join("0", digits.as_str())
    } else {
        digits
    };
    WorkerMessage::Register {
        version: PROTOCOL_VERSION,
        registration: WorkerRegistration {
            worker_id: WorkerId::unchecked(join("local-worker-", number.as_str())),
            slots: 1,
            memory_bytes,
        },
    }
}

/// How the end of a partition is reported.
pub open spec fn partition_state(error: Option<ErrorView>) -> TaskStateView {
    match error {
        None => TaskStateView::Succeeded { finished_at_ms: 0, output_blocks: Seq::empty() },
        Some(ErrorView::Cancelled) => TaskStateView::Cancelled {
            finished_at_ms: 0,
            reason: "query cancellation reached local worker"@,
        },
        Some(error) => TaskStateView::Failed {
            finished_at_ms: 0,
            error: error.text(),
            retryable: false,
        },
    }
}

/// How the end of a partition is reported.
pub fn report_partition(error: Option<&SparkXError>) -> (r: TaskState)
    ensures
        r@ == partition_state(
            match error {
                Some(error) => Some(error@),
                None => None,
            },
        ),
{
    match error {
        None => {
            let blocks: Vec<crate::protocol::ShuffleBlock> = Vec::new();
            proof {
                assert(crate::protocol::block_views(blocks@) =~= Seq::empty());
            }
            TaskState::Succeeded { finished_at_ms: 0, output_blocks: blocks }
        },
        Some(SparkXError::Cancelled) => TaskState::Cancelled {
            finished_at_ms: 0,
            reason: "query cancellation reached local worker".to_owned(),
        },
        Some(error) => TaskState::Failed {
            finished_at_ms: 0,
            error: error.to_text(),
            retryable: false,
        },
    }
}

/// A cluster of workers in this process.
#[derive(Debug, Clone, Copy)]
pub struct LocalCluster {
    workers: usize,
}

/// What a cluster computed.
#[derive(Debug)]
pub struct ClusterResult {
    pub batches: Vec<Batch>,
    pub distributed: bool,
    pub stages: usize,
}

/// Whether some batches are what the first `upto` partitions of a spread plan can give.
pub open spec fn partitions_give(
    cluster: ClusterPlanView,
    group_exprs: Seq<ExprView>,
    catalog: Map<Seq<char>, TableView>,
    tables: Seq<NamedTableView>,
    batches: Seq<BatchView>,
    upto: int,
) -> bool {
    &&& batches.len() == upto
    &&& forall|i: int|
        0 <= i < upto ==> #[trigger] partition_gives(
            cluster,
            group_exprs,
            catalog,
            tables,
            i as usize,
            Ok(seq![batches[i]]),
        )
}

/// Metrics at the beginning of a partition: after those before it, and what they gave, arrived.
pub open spec fn metrics_before(
    start: MetricsView,
    batches: Seq<BatchView>,
    ends: Seq<MetricsView>,
    partition: int,
) -> MetricsView {
    if partition <= 0 {
        start
    } else {
        arrivals_metrics(ends[partition - 1], seq![batches[partition - 1]], 1)
    }
}

/// Whether some batches are what the first `upto` partitions of a spread plan can give, with `ends`
/// the metrics after each.
pub open spec fn partitions_meter(
    cluster: ClusterPlanView,
    group_exprs: Seq<ExprView>,
    catalog: Map<Seq<char>, TableView>,
    tables: Seq<NamedTableView>,
    start: MetricsView,
    batches: Seq<BatchView>,
    ends: Seq<MetricsView>,
    upto: int,
) -> bool {
    &&& partitions_give(cluster, group_exprs, catalog, tables, batches, upto)
    &&& ends.len() == upto
    &&& forall|i: int|
        0 <= i < upto ==> partition_meters(
            cluster,
            group_exprs,
            catalog,
            tables,
            i as usize,
            metrics_before(start, batches, ends, i),
            Ok(seq![batches[i]]),
            #[trigger] ends[i],
        )
}

/// What the merge of a spread plan's partial results gives.
pub open spec fn merge_step(
    plan: PhysicalView,
    partials: Seq<BatchView>,
    memory: MemoryView,
) -> Result<BatchView, ErrorView> {
    match plan {
        PhysicalView::HashAggregate { group_exprs, aggregate_exprs, schema, .. } => {
            if mergeable(partials, group_exprs.len(), aggregate_exprs, schema) {
                merged(partials, group_exprs.len(), aggregate_exprs, schema, memory)
            } else {
                Err(misfit())
            }
        },
        _ => Err(misfit()),
    }
}

/// The most that is claimed while a spread plan's partial results are merged, where they can be.
pub open spec fn step_peak(plan: PhysicalView, partials: Seq<BatchView>, memory: MemoryView) -> nat {
    merged_peak(
        partials,
        plan->HashAggregate_group_exprs.len(),
        plan->HashAggregate_aggregate_exprs,
        plan->HashAggregate_schema,
        memory,
    )
}

/// Whether partial results have the columns that their merge reads.
pub open spec fn mergeable(
    partials: Seq<BatchView>,
    group_count: nat,
    aggregates: Seq<ExprView>,
    schema: SchemaView,
) -> bool {
    &&& group_count <= schema.fields.len()
    &&& forall|i: int|
        0 <= i < group_count ==> !((#[trigger] schema.fields[i]).data_type is Other)
    &&& holds_partials(partials, group_count, aggregates)
}

pub(crate) fn is_mergeable(
    partials: &Vec<Batch>,
    group_count: usize,
    aggregates: &Vec<Expr>,
    schema: &Schema,
) -> (r: bool)
    ensures
        r == mergeable(
            batch_views(partials@),
            group_count as nat,
            expr_views(aggregates@),
            schema@,
        ),
{
    if group_count > schema.fields.len() {
        return false;
    }
    for i in 0..group_count
        invariant
            group_count <= schema.fields.len(),
            forall|k: int|
                0 <= k < i ==> !((#[trigger] schema@.fields[k]).data_type is Other),
    {
        proof {
            assert(schema@.fields[i as int] == schema.fields@[i as int]@);
        }
        if let crate::types::DataType::Other(_) = &schema.fields[i].data_type {
            return false;
        }
    }
    let ghost views = batch_views(partials@);
    let calls = match aggregate_specs(aggregates) {
        Ok(calls) => calls,
        Err(_) => return true,
    };
    let ghost call_list = call_views(calls@);
    let ghost fresh = fresh_merges(call_list);
    for i in 0..partials.len()
        invariant
            views == batch_views(partials@),
            call_list == call_views(calls@),
            fresh == fresh_merges(call_list),
            calls_of(expr_views(aggregates@), aggregates.len() as int) == Ok::<
                Seq<CallView>,
                ErrorView,
            >(call_list),
            forall|k: int|
                0 <= k < i ==> column_place(fresh, group_count as int, call_list.len() as int) <= (
                #[trigger] views[k]).columns.len(),
    {
        proof {
            assert(views[i as int] == partials@[i as int]@);
        }
        if !has_columns(&calls, group_count, partials[i].num_columns()) {
            return false;
        }
    }
    true
}

fn has_columns(calls: &Vec<AggregateCall>, group_count: usize, width: usize) -> (r: bool)
    ensures
        r == (column_place(
            fresh_merges(call_views(calls@)),
            group_count as int,
            calls.len() as int,
        ) <= width),
{
    let ghost fresh = fresh_merges(call_views(calls@));
    let mut place: usize = group_count;
    if group_count > width {
        proof {
            crate::distributed::merge::places_grow(
                fresh,
                group_count as int,
                0,
                calls.len() as int,
            );
        }
        return false;
    }
    for i in 0..calls.len()
        invariant
            fresh == fresh_merges(call_views(calls@)),
            place == column_place(fresh, group_count as int, i as int),
            place <= width,
    {
        let more: usize = MergeState::new(calls[i].function).width();
        proof {
            assert(fresh[i as int] == MergeView::fresh(calls@[i as int].function));
            crate::distributed::merge::places_grow(
                fresh,
                group_count as int,
                i + 1,
                calls.len() as int,
            );
        }
        if more > width - place {
            return false;
        }
        place = place + more;
    }
    true
}

/// What a cluster computed, as contracts see it.
pub struct ClusterView {
    pub batches: Seq<BatchView>,
    pub distributed: bool,
    pub stages: usize,
}

pub open spec fn cluster_outcome(r: Result<ClusterResult, SparkXError>) -> Result<
    ClusterView,
    ErrorView,
> {
    match r {
        Ok(result) => Ok(
            ClusterView {
                batches: batch_views(result.batches@),
                distributed: result.distributed,
                stages: result.stages,
            },
        ),
        Err(error) => Err(error@),
    }
}

/// A budget after room for the first `upto` partial results was claimed, for one after the other.
pub open spec fn shuffled(partials: Seq<BatchView>, memory: MemoryView, upto: int) -> Result<
    MemoryView,
    ErrorView,
>
    decreases upto,
{
    if upto <= 0 {
        Ok(memory)
    } else {
        match shuffled(partials, memory, upto - 1) {
            Err(error) => Err(error),
            Ok(now) => {
                let bytes = batch_charge(partials[upto - 1].columns);
                match growth_check((now.reserved - memory.reserved) as nat, now, bytes) {
                    Err(error) => Err(error),
                    Ok(()) => Ok(now.claimed(bytes)),
                }
            },
        }
    }
}

/// Whether a result is one that a plan spread over partitions can give, while metrics go from some
/// to others: some partition's error, the error of a budget that the partial aggregates exceed, or
/// what comes of merging those of all. Nothing is said of what a run that fails has counted.
#[verifier::opaque]
pub open spec fn spread_gives(
    plan: PhysicalView,
    cluster: ClusterPlanView,
    partitions: usize,
    catalog: Map<Seq<char>, TableView>,
    tables: Seq<NamedTableView>,
    memory: MemoryView,
    before: MetricsView,
    r: Result<ClusterView, ErrorView>,
    after: MetricsView,
) -> bool {
    let keys = plan->HashAggregate_group_exprs;
    match r {
        Ok(result) => {
            &&& result.distributed
            &&& result.stages == 2
            &&& result.batches.len() == 1
            &&& exists|partials: Seq<BatchView>, ends: Seq<MetricsView>|
                #[trigger] partitions_meter(
                    cluster,
                    keys,
                    catalog,
                    tables,
                    before,
                    partials,
                    ends,
                    partitions as int,
                ) && after == operator_metrics(
                    metrics_before(before, partials, ends, partitions as int),
                    plan,
                    Ok(result.batches),
                ) && (shuffled(partials, memory, partitions as int) matches Ok(now) && merge_step(
                    plan,
                    partials,
                    now,
                ) == Ok::<BatchView, ErrorView>(result.batches[0]))
        },
        Err(error) => {
            ||| exists|partition: int|
                0 <= partition < partitions && #[trigger] partition_gives(
                    cluster,
                    keys,
                    catalog,
                    tables,
                    partition as usize,
                    Err(error),
                )
            ||| exists|partials: Seq<BatchView>|
                partials.len() <= partitions && #[trigger] partitions_give(
                    cluster,
                    keys,
                    catalog,
                    tables,
                    partials,
                    partials.len() as int,
                ) && shuffled(partials, memory, partials.len() as int) == Err::<
                    MemoryView,
                    ErrorView,
                >(error)
            ||| exists|partials: Seq<BatchView>|
                #[trigger] partitions_give(
                    cluster,
                    keys,
                    catalog,
                    tables,
                    partials,
                    partitions as int,
                ) && (shuffled(partials, memory, partitions as int) matches Ok(now) && merge_step(
                    plan,
                    partials,
                    now,
                ) == Err::<BatchView, ErrorView>(error))
        },
    }
}

/// Whether a budget's peak is what a run of a spread plan that gave a result makes of it: the most
/// that was claimed while the partial results arrived and were merged.
#[verifier::opaque]
pub open spec fn spread_peaks(
    plan: PhysicalView,
    cluster: ClusterPlanView,
    partitions: usize,
    catalog: Map<Seq<char>, TableView>,
    tables: Seq<NamedTableView>,
    memory: MemoryView,
    result: ClusterView,
    peak: nat,
) -> bool {
    exists|partials: Seq<BatchView>|
        #[trigger] partitions_give(
            cluster,
            plan->HashAggregate_group_exprs,
            catalog,
            tables,
            partials,
            partitions as int,
        ) && (shuffled(partials, memory, partitions as int) matches Ok(now) && merge_step(
            plan,
            partials,
            now,
        ) == Ok::<BatchView, ErrorView>(result.batches[0]) && peak == step_peak(
            plan,
            partials,
            now,
        ))
}

/// Whether a budget's peak is what a run that gave a result makes of it. One in a single stage claims
/// nothing.
pub open spec fn cluster_peaks(
    plan: PhysicalView,
    catalog: Map<Seq<char>, TableView>,
    tables: Seq<NamedTableView>,
    memory: MemoryView,
    result: ClusterView,
    peak: nat,
) -> bool {
    match spread(plan) {
        None => peak == memory.peak,
        Some(partitions) => spread_plan(plan, partitions) matches Ok(cluster) && spread_peaks(
            plan,
            cluster,
            partitions,
            catalog,
            tables,
            memory,
            result,
            peak,
        ),
    }
}

/// Whether a result is one that a cluster can give for a plan.
pub open spec fn cluster_gives(
    plan: PhysicalView,
    catalog: Map<Seq<char>, TableView>,
    tables: Seq<NamedTableView>,
    memory: MemoryView,
    cancelled: bool,
    before: MetricsView,
    r: Result<ClusterView, ErrorView>,
    after: MetricsView,
) -> bool {
    if cancelled {
        r == Err::<ClusterView, ErrorView>(ErrorView::Cancelled)
    } else {
        match spread(plan) {
            None => match r {
                Ok(result) => {
                    &&& meters(plan, tables, None, before, Ok(result.batches), after)
                    &&& !result.distributed
                    &&& result.stages == 1
                },
                Err(error) => produces(plan, tables, None, Err(error)),
            },
            Some(partitions) => match spread_plan(plan, partitions) {
                Err(failure) => r == Err::<ClusterView, ErrorView>(failure),
                Ok(cluster) => spread_gives(
                    plan,
                    cluster,
                    partitions,
                    catalog,
                    tables,
                    memory,
                    before,
                    r,
                    after,
                ),
            },
        }
    }
}

impl LocalCluster {
    pub closed spec fn worker_total(&self) -> usize {
        self.workers
    }

    /// A cluster of some workers, of one where none is asked for.
    pub fn new(workers: usize) -> (r: Self)
        ensures
            r.worker_total() == (if workers == 0 {
                1
            } else {
                workers
            }),
    {
        if workers == 0 {
            LocalCluster { workers: 1 }
        } else {
            LocalCluster { workers }
        }
    }

    /// How many workers take part where there are so many partitions.
    pub fn workers_for(&self, partitions: usize) -> (r: usize)
        ensures
            r == (if self.worker_total() < partitions {
                self.worker_total()
            } else {
                partitions
            }),
    {
        if self.workers < partitions {
            self.workers
        } else {
            partitions
        }
    }

    /// Runs a plan: in two stages where it can be spread over partitions, and else as it is.
    pub fn execute(
        &self,
        plan: &PhysicalPlan,
        catalog: &Catalog,
        tables: &Vec<NamedTable>,
        memory: &mut QueryMemory,
        metrics: &mut QueryMetrics,
        cancelled: bool,
    ) -> (r: Result<ClusterResult, SparkXError>)
        requires
            self.worker_total() >= 1,
            catalog.wf(),
            old(memory).wf(),
            forall|i: int| 0 <= i < tables.len() ==> (#[trigger] tables@[i]).table.wf(),
        ensures
            final(memory).wf(),
            final(memory)@.reserved == old(memory)@.reserved,
            final(memory)@.limit == old(memory)@.limit,
            cluster_gives(
                plan@,
                catalog@,
                named_views(tables@),
                old(memory)@,
                cancelled,
                old(metrics)@,
                cluster_outcome(r),
                final(metrics)@,
            ),
            r is Ok ==> cluster_peaks(
                plan@,
                catalog@,
                named_views(tables@),
                old(memory)@,
                cluster_outcome(r)->Ok_0,
                final(memory)@.peak,
            ),
            r matches Ok(result) ==> crate::table::all_valid(batch_views(result.batches@)),
    {
        if cancelled {
            return Err(SparkXError::Cancelled);
        }
        let partitions: usize = match distributed_partitions(plan) {
            Some(partitions) => partitions,
            None => {
                return match execute_metered(plan, tables, None, metrics) {
                    Ok(batches) => Ok(ClusterResult { batches, distributed: false, stages: 1 }),
                    Err(error) => Err(error),
                };
            },
        };
        let cluster = match plan_cluster(plan, partitions) {
            Ok(cluster) => cluster,
            Err(error) => return Err(error),
        };
        self.execute_spread(plan, cluster, partitions, catalog, tables, memory, metrics)
    }

    fn execute_spread(
        &self,
        plan: &PhysicalPlan,
        cluster: ClusterPlan,
        partitions: usize,
        catalog: &Catalog,
        tables: &Vec<NamedTable>,
        memory: &mut QueryMemory,
        metrics: &mut QueryMetrics,
    ) -> (r: Result<ClusterResult, SparkXError>)
        requires
            self.worker_total() >= 1,
            catalog.wf(),
            old(memory).wf(),
            forall|i: int| 0 <= i < tables.len() ==> (#[trigger] tables@[i]).table.wf(),
            partitions >= 1,
            spread(plan@) == Some(partitions),
            spread_plan(plan@, partitions) == Ok::<ClusterPlanView, ErrorView>(cluster@),
        ensures
            final(memory).wf(),
            final(memory)@.reserved == old(memory)@.reserved,
            final(memory)@.limit == old(memory)@.limit,
            spread_gives(
                plan@,
                cluster@,
                partitions,
                catalog@,
                named_views(tables@),
                old(memory)@,
                old(metrics)@,
                cluster_outcome(r),
                final(metrics)@,
            ),
            r is Ok ==> spread_peaks(
                plan@,
                cluster@,
                partitions,
                catalog@,
                named_views(tables@),
                old(memory)@,
                cluster_outcome(r)->Ok_0,
                final(memory)@.peak,
            ),
            r matches Ok(result) ==> crate::table::all_valid(batch_views(result.batches@)),
    {
        let mut run = match LocalRun::start(cluster, self.workers_for(partitions), memory) {
            Ok(run) => run,
            Err(error) => return Err(error),
        };
        let Ghost(ends) = match gather(
            &mut run,
            plan,
            partitions,
            catalog,
            tables,
            memory,
            metrics,
        ) {
            Ok(ends) => ends,
            Err(error) => {
                run.abandon(memory);
                return Err(error);
            },
        };
        let ghost partials = run.partials();
        let ghost now = memory@;
        let merged = run.finish(plan, memory, metrics);
        proof {
            a_merge_ends_a_run(
                plan@,
                cluster@,
                partitions,
                catalog@,
                named_views(tables@),
                old(memory)@,
                old(metrics)@,
                partials,
                ends,
                now,
                batch_outcome(merged),
                metrics@,
            );
        }
        match merged {
            Ok(batch) => {
                let ghost view = batch@;
                let batches: Vec<Batch> = vec![batch];
                proof {
                    assert(batch_views(batches@) =~= seq![view]);
                    reveal(spread_peaks);
                    assert(partitions_give(
                        cluster@,
                        plan@->HashAggregate_group_exprs,
                        catalog@,
                        named_views(tables@),
                        partials,
                        partitions as int,
                    ));
                }
                Ok(ClusterResult { batches, distributed: true, stages: 2 })
            },
            Err(error) => Err(error),
        }
    }
}

/// What a merge gives as the result of a run.
pub open spec fn merge_outcome(r: Result<BatchView, ErrorView>) -> Result<ClusterView, ErrorView> {
    match r {
        Ok(batch) => Ok(ClusterView { batches: seq![batch], distributed: true, stages: 2 }),
        Err(error) => Err(error),
    }
}

proof fn a_merge_ends_a_run(
    plan: PhysicalView,
    cluster: ClusterPlanView,
    partitions: usize,
    catalog: Map<Seq<char>, TableView>,
    tables: Seq<NamedTableView>,
    memory: MemoryView,
    before: MetricsView,
    partials: Seq<BatchView>,
    ends: Seq<MetricsView>,
    now: MemoryView,
    r: Result<BatchView, ErrorView>,
    after: MetricsView,
)
    requires
        partitions_meter(
            cluster,
            plan->HashAggregate_group_exprs,
            catalog,
            tables,
            before,
            partials,
            ends,
            partitions as int,
        ),
        shuffled(partials, memory, partitions as int) == Ok::<MemoryView, ErrorView>(now),
        merge_step(plan, partials, now) == r,
        r matches Ok(batch) ==> after == operator_metrics(
            metrics_before(before, partials, ends, partitions as int),
            plan,
            Ok(seq![batch]),
        ),
    ensures
        spread_gives(
            plan,
            cluster,
            partitions,
            catalog,
            tables,
            memory,
            before,
            merge_outcome(r),
            after,
        ),
{
    reveal(spread_gives);
}

/// Runs all partitions of a run that begins. What a partition gives arrives as it was sent.
fn gather(
    run: &mut LocalRun,
    plan: &PhysicalPlan,
    partitions: usize,
    catalog: &Catalog,
    tables: &Vec<NamedTable>,
    memory: &mut QueryMemory,
    metrics: &mut QueryMetrics,
) -> (r: Result<Ghost<Seq<MetricsView>>, SparkXError>)
    requires
        old(run).wf(),
        old(run).done() == 0,
        old(run).claim() == 0,
        old(run).partials() == Seq::<BatchView>::empty(),
        old(run).partitions() == partitions,
        catalog.wf(),
        old(memory).wf(),
        forall|i: int| 0 <= i < tables.len() ==> (#[trigger] tables@[i]).table.wf(),
        plan@ is HashAggregate,
    ensures
        final(memory).wf(),
        final(memory)@.limit == old(memory)@.limit,
        final(memory)@.reserved == old(memory)@.reserved + final(run).claim(),
        match r {
            Ok(ends) => {
                &&& final(run).wf()
                &&& partitions_meter(
                    old(run).cluster(),
                    plan@->HashAggregate_group_exprs,
                    catalog@,
                    named_views(tables@),
                    old(metrics)@,
                    final(run).partials(),
                    ends@,
                    partitions as int,
                )
                &&& final(metrics)@ == metrics_before(
                    old(metrics)@,
                    final(run).partials(),
                    ends@,
                    partitions as int,
                )
                &&& shuffled(final(run).partials(), old(memory)@, partitions as int) == Ok::<
                    MemoryView,
                    ErrorView,
                >(final(memory)@)
            },
            Err(error) => spread_gives(
                plan@,
                old(run).cluster(),
                partitions,
                catalog@,
                named_views(tables@),
                old(memory)@,
                old(metrics)@,
                Err(error@),
                final(metrics)@,
            ),
        },
{
    let group_exprs = match plan {
        PhysicalPlan::HashAggregate { group_exprs, .. } => group_exprs,
        _ => return Err(misfit_error()),
    };
    let ghost cluster = run.cluster();
    let ghost budget = memory@;
    let ghost keys = expr_views(group_exprs@);
    let ghost views = named_views(tables@);
    let ghost mut ends: Seq<MetricsView> = Seq::empty();
    let mut done: usize = 0;
    while done < partitions
        invariant
            partitions_meter(
                cluster,
                keys,
                catalog@,
                views,
                old(metrics)@,
                run.partials(),
                ends,
                done as int,
            ),
            metrics@ == metrics_before(old(metrics)@, run.partials(), ends, done as int),
            catalog.wf(),
            memory.wf(),
            budget == old(memory)@,
            budget.wf(),
            run.wf(),
            cluster == old(run).cluster(),
            run.cluster() == cluster,
            run.partitions() == partitions,
            run.done() == done <= partitions,
            memory@.reserved == budget.reserved + run.claim(),
            memory@.limit == budget.limit,
            forall|i: int| 0 <= i < tables.len() ==> (#[trigger] tables@[i]).table.wf(),
            views == named_views(tables@),
            keys == expr_views(group_exprs@),
            plan@ is HashAggregate,
            plan@->HashAggregate_group_exprs == keys,
            partitions_give(cluster, keys, catalog@, views, run.partials(), done as int),
            shuffled(run.partials(), budget, done as int) == Ok::<MemoryView, ErrorView>(memory@),
        decreases partitions - done,
    {
        let ghost before = run.partials();
        let ghost now = memory@;
        let batch = match run.next_partial(group_exprs, catalog, tables, memory, metrics) {
            Ok(batch) => batch,
            Err(error) => {
                proof {
                    failed_step(
                        plan@,
                        cluster,
                        partitions,
                        catalog@,
                        views,
                        budget,
                        before,
                        now,
                        error@,
                        old(metrics)@,
                        metrics@,
                    );
                }
                return Err(error);
            },
        };
        let ghost partial = batch@;
        let ghost end = metrics@;
        let sent: u64 = batch.memory_size();
        let batches: Vec<Batch> = vec![batch];
        proof {
            assert(batch_views(batches@) =~= seq![partial]);
            one_more(cluster, keys, catalog@, views, budget, before, now, partial);
            arrival_of_one(partial);
            one_end_more(
                cluster,
                keys,
                catalog@,
                views,
                old(metrics)@,
                before,
                ends,
                partial,
                end,
            );
        }
        match run.arrived(sent, batches, memory, metrics) {
            Ok(()) => {},
            Err(error) => return Err(error),
        }
        proof {
            assert(run.partials() =~= before.push(partial));
            assert(memory@ == now.claimed(sent));
            ends = ends.push(end);
        }
        done = done + 1;
    }
    Ok(Ghost(ends))
}

/// The metrics after the next partition, put behind those after the ones before it.
proof fn one_end_more(
    cluster: ClusterPlanView,
    keys: Seq<ExprView>,
    catalog: Map<Seq<char>, TableView>,
    tables: Seq<NamedTableView>,
    start: MetricsView,
    before: Seq<BatchView>,
    ends: Seq<MetricsView>,
    partial: BatchView,
    end: MetricsView,
)
    requires
        before.len() < usize::MAX,
        partitions_meter(
            cluster,
            keys,
            catalog,
            tables,
            start,
            before,
            ends,
            before.len() as int,
        ),
        partitions_give(
            cluster,
            keys,
            catalog,
            tables,
            before.push(partial),
            before.len() as int + 1,
        ),
        partition_meters(
            cluster,
            keys,
            catalog,
            tables,
            before.len() as usize,
            metrics_before(start, before, ends, before.len() as int),
            Ok(seq![partial]),
            end,
        ),
    ensures
        partitions_meter(
            cluster,
            keys,
            catalog,
            tables,
            start,
            before.push(partial),
            ends.push(end),
            before.len() as int + 1,
        ),
        metrics_before(start, before.push(partial), ends.push(end), before.len() as int + 1)
            == arrivals_metrics(end, seq![partial], 1),
{
    let batches = before.push(partial);
    let all = ends.push(end);
    assert forall|i: int| 0 <= i < before.len() + 1 implies partition_meters(
        cluster,
        keys,
        catalog,
        tables,
        i as usize,
        metrics_before(start, batches, all, i),
        Ok(seq![batches[i]]),
        #[trigger] all[i],
    ) by {
        assert(metrics_before(start, batches, all, i) == metrics_before(start, before, ends, i));
        if i < before.len() {
            assert(all[i] == ends[i]);
            assert(batches[i] == before[i]);
        }
    }
}

/// What the next partition gives, put behind what those before it gave.
proof fn one_more(
    cluster: ClusterPlanView,
    keys: Seq<ExprView>,
    catalog: Map<Seq<char>, TableView>,
    tables: Seq<NamedTableView>,
    budget: MemoryView,
    before: Seq<BatchView>,
    now: MemoryView,
    partial: BatchView,
)
    requires
        before.len() < usize::MAX,
        partitions_give(cluster, keys, catalog, tables, before, before.len() as int),
        partition_gives(cluster, keys, catalog, tables, before.len() as usize, Ok(seq![partial])),
        shuffled(before, budget, before.len() as int) == Ok::<MemoryView, ErrorView>(now),
    ensures
        partitions_give(
            cluster,
            keys,
            catalog,
            tables,
            before.push(partial),
            before.len() as int + 1,
        ),
        shuffled(before.push(partial), budget, before.len() as int + 1) == {
            let bytes = batch_charge(partial.columns);
            match growth_check((now.reserved - budget.reserved) as nat, now, bytes) {
                Err(error) => Err(error),
                Ok(()) => Ok(now.claimed(bytes)),
            }
        },
{
    let after = before.push(partial);
    assert forall|i: int| 0 <= i < before.len() + 1 implies #[trigger] partition_gives(
        cluster,
        keys,
        catalog,
        tables,
        i as usize,
        Ok(seq![after[i]]),
    ) by {
        if i < before.len() {
            assert(after[i] == before[i]);
            assert(partition_gives(
                cluster,
                keys,
                catalog,
                tables,
                i as usize,
                Ok(seq![before[i]]),
            ));
        }
    }
    shuffling_reads_a_prefix(before, after, budget, before.len() as int);
}

proof fn shuffling_reads_a_prefix(
    a: Seq<BatchView>,
    b: Seq<BatchView>,
    memory: MemoryView,
    upto: int,
)
    requires
        upto <= a.len(),
        upto <= b.len(),
        forall|i: int| 0 <= i < upto ==> a[i] == b[i],
    ensures
        shuffled(a, memory, upto) == shuffled(b, memory, upto),
    decreases upto,
{
    if upto > 0 {
        shuffling_reads_a_prefix(a, b, memory, upto - 1);
    }
}

proof fn failed_step(
    plan: PhysicalView,
    cluster: ClusterPlanView,
    partitions: usize,
    catalog: Map<Seq<char>, TableView>,
    tables: Seq<NamedTableView>,
    budget: MemoryView,
    before: Seq<BatchView>,
    now: MemoryView,
    error: ErrorView,
    start: MetricsView,
    end: MetricsView,
)
    requires
        plan is HashAggregate,
        before.len() < partitions,
        partitions_give(
            cluster,
            plan->HashAggregate_group_exprs,
            catalog,
            tables,
            before,
            before.len() as int,
        ),
        shuffled(before, budget, before.len() as int) == Ok::<MemoryView, ErrorView>(now),
        step_fails(
            cluster,
            plan->HashAggregate_group_exprs,
            catalog,
            tables,
            before.len() as usize,
            (now.reserved - budget.reserved) as nat,
            now,
            error,
        ),
    ensures
        spread_gives(
            plan,
            cluster,
            partitions,
            catalog,
            tables,
            budget,
            start,
            Err(error),
            end,
        ),
{
    reveal(spread_gives);
    let keys = plan->HashAggregate_group_exprs;
    let place = before.len() as int;
    if !partition_gives(cluster, keys, catalog, tables, place as usize, Err(error)) {
        let partial = choose|partial: BatchView|
            #[trigger] partition_gives(
                cluster,
                keys,
                catalog,
                tables,
                before.len() as usize,
                Ok(seq![partial]),
            ) && growth_check(
                (now.reserved - budget.reserved) as nat,
                now,
                batch_charge(partial.columns),
            ) == Err::<(), ErrorView>(error);
        one_more(cluster, keys, catalog, tables, budget, before, now, partial);
        let after = before.push(partial);
        assert(partitions_give(cluster, keys, catalog, tables, after, after.len() as int));
    }
}

pub(crate) proof fn one_batch_each(
    cluster: ClusterPlanView,
    group_exprs: Seq<ExprView>,
    catalog: Map<Seq<char>, TableView>,
    tables: Seq<NamedTableView>,
    partition: usize,
    batches: Seq<BatchView>,
)
    requires
        partition_gives(cluster, group_exprs, catalog, tables, partition, Ok(batches)),
    ensures
        batches.len() == 1,
{
    reveal(partition_gives);
}

} // verus!

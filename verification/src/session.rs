//! A session: its settings, its tables, and what becomes of a query.

use crate::batch::{batch_views, Batch, BatchView};
use crate::catalog::{Catalog, TableView};
use crate::distributed::local::{
    cluster_gives, cluster_outcome, cluster_peaks, ClusterResult, ClusterView, LocalCluster,
};
use crate::error::{ErrorView, SparkXError};
use crate::execution::concat::{total_rows, total_rows_grow};
use crate::execution::run::{execute_metered, meters, produces};
use crate::logical::{plan_outcome, LogicalPlan, LogicalView};
use crate::memory::{MemoryView, QueryMemory, DEFAULT_MEMORY_LIMIT_BYTES};
use crate::metrics::{MetricsSnapshot, MetricsView, QueryMetrics};
use crate::optimizer::{optimized, Optimizer};
use crate::physical::{PhysicalPlan, PhysicalView};
use crate::planner::{operator_count, physical_plan, PhysicalPlanner};
use crate::sql::query::{plan_statements, planned_statements};
use crate::sql::reader::{are_statements, read_sql};
use crate::sql::syntax::SqlStatement;
use crate::sql::tree::parsed_sql;
use crate::table::{named_views, MemoryTable, NamedTable, NamedTableView};
use crate::text::{join, lowercase, small_letters};
use vstd::prelude::*;

verus! {

/// The settings of a session.
#[derive(Debug, Clone, Copy)]
pub struct SessionConfig {
    pub batch_size: usize,
    pub channel_capacity: usize,
    pub workers: usize,
    pub memory_limit_bytes: u64,
    pub distributed: bool,
}

/// `num_cpus::get`: the number of processors that the machine offers. It depends on the machine
/// alone, so nothing is said of it.
#[verifier::external_body]
fn processor_count() -> (r: usize) {
    num_cpus::get()
}

impl Default for SessionConfig {
    fn default() -> (r: Self)
        ensures
            r.batch_size == 8192,
            r.channel_capacity == 2,
            r.workers >= 1,
            r.memory_limit_bytes == DEFAULT_MEMORY_LIMIT_BYTES,
            !r.distributed,
    {
        SessionConfig {
            batch_size: 8192,
            channel_capacity: 2,
            workers: at_least_one(processor_count()),
            memory_limit_bytes: DEFAULT_MEMORY_LIMIT_BYTES,
            distributed: false,
        }
    }
}

fn at_least_one(n: usize) -> (r: usize)
    ensures
        r == (if n == 0 {
            1
        } else {
            n as int
        }),
{
    if n == 0 {
        1
    } else {
        n
    }
}

/// Settings of which none is zero.
pub open spec fn normalized(config: SessionConfig) -> SessionConfig {
    SessionConfig {
        batch_size: if config.batch_size == 0 {
            1
        } else {
            config.batch_size
        },
        channel_capacity: if config.channel_capacity == 0 {
            1
        } else {
            config.channel_capacity
        },
        workers: if config.workers == 0 {
            1
        } else {
            config.workers
        },
        memory_limit_bytes: if config.memory_limit_bytes == 0 {
            1
        } else {
            config.memory_limit_bytes
        },
        distributed: config.distributed,
    }
}

/// Whether a result is the plan of the one query that a text of SQL holds, or the error that there
/// is none. The parser says which statements a text holds.
pub open spec fn plans_sql(
    sql: Seq<char>,
    tables: Map<Seq<char>, TableView>,
    r: Result<LogicalView, ErrorView>,
) -> bool {
    match parsed_sql(sql) {
        Err(message) => r == Err::<LogicalView, ErrorView>(ErrorView::Sql(message)),
        Ok(tree) => exists|statements: Seq<SqlStatement>|
            #[trigger] are_statements(tree, statements) && r == planned_statements(
                statements,
                tables,
            ),
    }
}

/// A query's plans.
#[derive(Debug)]
pub struct PlannedQuery {
    pub logical: LogicalPlan,
    pub optimized: LogicalPlan,
    pub physical: PhysicalPlan,
}

pub struct PlannedView {
    pub logical: LogicalView,
    pub optimized: LogicalView,
    pub physical: PhysicalView,
}

impl View for PlannedQuery {
    type V = PlannedView;

    open spec fn view(&self) -> PlannedView {
        PlannedView {
            logical: self.logical@,
            optimized: self.optimized@,
            physical: self.physical@,
        }
    }
}

pub open spec fn planned_outcome(r: Result<PlannedQuery, SparkXError>) -> Result<
    PlannedView,
    ErrorView,
> {
    match r {
        Ok(planned) => Ok(planned@),
        Err(error) => Err(error@),
    }
}

/// The plans of a query, or why there are none.
pub open spec fn all_plans(logical: LogicalView, tables: Map<Seq<char>, TableView>) -> Result<
    PlannedView,
    ErrorView,
> {
    match optimized(logical) {
        Err(error) => Err(error),
        Ok(plan) => if operator_count(plan) > u32::MAX {
            Err(ErrorView::Planning("plan has too many operators"@))
        } else {
            match physical_plan(plan, tables, 0) {
                Err(error) => Err(error),
                Ok(physical) => Ok(PlannedView { logical, optimized: plan, physical }),
            }
        },
    }
}

/// How the plans of a query read.
pub open spec fn plans_text(planned: PlannedView) -> Seq<char> {
    "== Logical Plan ==\n"@ + planned.logical.text(Seq::empty())
        + "\n== Optimized Logical Plan ==\n"@ + planned.optimized.text(Seq::empty())
        + "\n== Physical Plan ==\n"@ + planned.physical.text(Seq::empty())
}

/// How many operators a plan has, up to one more than can be numbered.
fn count_operators(plan: &LogicalPlan) -> (r: u64)
    ensures
        r <= u32::MAX + 1,
        r <= u32::MAX ==> r == operator_count(plan@),
        r > u32::MAX ==> operator_count(plan@) > u32::MAX,
    decreases plan,
{
    let below: u64 = match plan {
        LogicalPlan::Scan { .. } => 0,
        LogicalPlan::Projection { input, .. } => count_operators(input),
        LogicalPlan::Filter { input, .. } => count_operators(input),
        LogicalPlan::Aggregate { input, .. } => count_operators(input),
        LogicalPlan::Sort { input, .. } => count_operators(input),
        LogicalPlan::Limit { input, .. } => {
            proof {
                assert(operator_count(plan@) == (match (**input)@ {
                    LogicalView::Sort { input: sorted, .. } => operator_count(*sorted) + 1,
                    _ => operator_count((**input)@) + 1,
                }));
            }
            match &**input {
                LogicalPlan::Sort { input: sorted, .. } => count_operators(sorted),
                _ => count_operators(input),
            }
        },
        LogicalPlan::Join { left, right, .. } => count_operators(left) + count_operators(right),
    };
    if below >= 0xFFFF_FFFF {
        0x1_0000_0000
    } else {
        below + 1
    }
}

/// A session.
#[derive(Debug)]
pub struct Session {
    config: SessionConfig,
    catalog: Catalog,
    tables: Vec<NamedTable>,
}

pub struct SessionView {
    pub config: SessionConfig,
    /// What planning knows of the tables.
    pub catalog: Map<Seq<char>, TableView>,
    /// The tables in memory; of two with one name the first counts.
    pub tables: Seq<NamedTableView>,
}

impl View for Session {
    type V = SessionView;

    closed spec fn view(&self) -> SessionView {
        SessionView {
            config: self.config,
            catalog: self.catalog@,
            tables: named_views(self.tables@),
        }
    }
}

impl Session {
    pub closed spec fn wf(&self) -> bool {
        &&& self.catalog.wf()
        &&& forall|i: int| 0 <= i < self.tables.len() ==> (#[trigger] self.tables@[i]).table.wf()
    }

    /// A session without tables, with settings of which none is zero.
    pub fn new(config: SessionConfig) -> (r: Self)
        ensures
            r.wf(),
            r@.config == normalized(config),
            r@.catalog == Map::<Seq<char>, TableView>::empty(),
            r@.tables == Seq::<NamedTableView>::empty(),
    {
        let memory_limit_bytes: u64 = if config.memory_limit_bytes == 0 {
            1
        } else {
            config.memory_limit_bytes
        };
        let r = Session {
            config: SessionConfig {
                batch_size: at_least_one(config.batch_size),
                channel_capacity: at_least_one(config.channel_capacity),
                workers: at_least_one(config.workers),
                memory_limit_bytes,
                distributed: config.distributed,
            },
            catalog: Catalog::default(),
            tables: Vec::new(),
        };
        proof {
            assert(r@.tables =~= Seq::empty());
        }
        r
    }

    pub fn config(&self) -> (r: &SessionConfig)
        ensures
            *r == self@.config,
    {
        &self.config
    }

    pub fn catalog(&self) -> (r: &Catalog)
        requires
            self.wf(),
        ensures
            r@ == self@.catalog,
            r.wf(),
    {
        &self.catalog
    }

    /// Makes a table in memory known under a name, in the place of one that had it.
    pub fn register_memory(&mut self, name: &str, table: MemoryTable)
        requires
            old(self).wf(),
            table.wf(),
        ensures
            final(self).wf(),
            final(self)@.config == old(self)@.config,
            final(self)@.catalog == old(self)@.catalog.insert(
                small_letters(name@),
                table@.described(),
            ),
            final(self)@.tables == seq![
                NamedTableView { name: small_letters(name@), table: table@ },
            ] + old(self)@.tables,
    {
        let ghost before = named_views(self.tables@);
        let ghost old_tables = self.tables@;
        self.catalog.register(name, table.describe());
        let named = NamedTable { name: lowercase(name), table };
        let ghost view = named@;
        self.tables.insert(0, named);
        proof {
            assert(named_views(self.tables@) =~= seq![view] + before);
            assert forall|i: int| 0 <= i < self.tables.len() implies (
            #[trigger] self.tables@[i]).table.wf() by {
                if i > 0 {
                    assert(self.tables@[i] == old_tables[i - 1]);
                }
            }
        }
    }

    /// The plan of the one query that a text of SQL holds.
    pub fn sql(&self, sql: &str) -> (r: Result<LogicalPlan, SparkXError>)
        requires
            self.wf(),
        ensures
            plans_sql(sql@, self@.catalog, plan_outcome(r)),
    {
        match read_sql(sql) {
            Ok(statements) => plan_statements(&statements, &self.catalog),
            Err(error) => Err(error),
        }
    }

    /// The plans of a query.
    pub fn plan(&self, logical: LogicalPlan) -> (r: Result<PlannedQuery, SparkXError>)
        requires
            self.wf(),
        ensures
            planned_outcome(r) == all_plans(logical@, self@.catalog),
    {
        let optimized = match Optimizer.optimize(logical.clone()) {
            Ok(plan) => plan,
            Err(error) => return Err(error),
        };
        if count_operators(&optimized) > u32::MAX as u64 {
            return Err(SparkXError::planning("plan has too many operators".to_owned()));
        }
        match PhysicalPlanner::create_physical_plan(&optimized, &self.catalog) {
            Ok(physical) => Ok(PlannedQuery { logical, optimized, physical }),
            Err(error) => Err(error),
        }
    }

    /// How the plans of a text of SQL read.
    pub fn explain(&self, sql: &str) -> (r: Result<String, SparkXError>)
        requires
            self.wf(),
        ensures
            exists|logical: Result<LogicalView, ErrorView>|
                #[trigger] plans_sql(sql@, self@.catalog, logical) && match logical {
                    Err(failure) => r matches Err(error) && error@ == failure,
                    Ok(logical) => match all_plans(logical, self@.catalog) {
                        Err(failure) => r matches Err(error) && error@ == failure,
                        Ok(planned) => r matches Ok(text) && text@ == plans_text(planned),
                    },
                },
    {
        let read = self.sql(sql);
        proof {
            assert(plans_sql(sql@, self@.catalog, plan_outcome(read)));
        }
        let logical = match read {
            Ok(plan) => plan,
            Err(error) => return Err(error),
        };
        let planned = match self.plan(logical) {
            Ok(planned) => planned,
            Err(error) => return Err(error),
        };
        let mut text: String = join("== Logical Plan ==\n", planned.logical.explain().as_str());
        text.append("\n== Optimized Logical Plan ==\n");
        text.append(planned.optimized.explain().as_str());
        text.append("\n== Physical Plan ==\n");
        text.append(planned.physical.explain().as_str());
        Ok(text)
    }

    /// Runs a plan over this session's tables in memory: by a cluster of workers where the session
    /// is a distributed one.
    pub fn execute_plan(&self, logical: LogicalPlan, cancelled: bool) -> (r: Result<
        QueryResult,
        SparkXError,
    >)
        requires
            self.wf(),
        ensures
            answers(self@, logical@, cancelled, result_outcome(r)),
    {
        let planned = match self.plan(logical) {
            Ok(planned) => planned,
            Err(error) => return Err(error),
        };
        if !self.config.distributed && cancelled {
            return Err(SparkXError::Cancelled);
        }
        let mut memory = QueryMemory::new(self.config.memory_limit_bytes);
        let mut metrics = QueryMetrics::default();
        let (batches, distributed, stages): (Vec<Batch>, bool, usize) = match self.run(
            &planned.physical,
            cancelled,
            &mut memory,
            &mut metrics,
        ) {
            Ok(result) => (result.batches, result.distributed, result.stages),
            Err(error) => {
                proof {
                    let r = Err::<QueryResultView, ErrorView>(error@);
                    an_answer(self@, logical@, planned@, cancelled, r, metrics@);
                }
                return Err(error);
            },
        };
        let ghost run = metrics@;
        record_outputs(&batches, &mut metrics);
        metrics.set_memory_usage(memory.limit_bytes(), memory.peak_bytes());
        let result = QueryResult {
            batches,
            logical_plan: planned.logical.explain(),
            optimized_plan: planned.optimized.explain(),
            physical_plan: planned.physical.explain(),
            distributed,
            stages,
            metrics: metrics.snapshot(),
        };
        let r = Ok(result);
        proof {
            an_answer(self@, logical@, planned@, cancelled, result_outcome(r), run);
        }
        r
    }

    fn run(
        &self,
        plan: &PhysicalPlan,
        cancelled: bool,
        memory: &mut QueryMemory,
        metrics: &mut QueryMetrics,
    ) -> (r: Result<ClusterResult, SparkXError>)
        requires
            self.wf(),
            old(memory).wf(),
            old(memory)@ == self@.budget(),
            old(metrics)@ == MetricsView::fresh(),
        ensures
            runner_gives(self@, plan@, cancelled, cluster_outcome(r), final(metrics)@),
            final(memory)@.limit == old(memory)@.limit,
            r is Ok ==> runner_peaks(
                self@,
                plan@,
                cluster_outcome(r)->Ok_0,
                final(memory)@.peak,
            ),
    {
        if self.config.distributed {
            let cluster = LocalCluster::new(self.config.workers);
            cluster.execute(plan, &self.catalog, &self.tables, memory, metrics, cancelled)
        } else {
            match execute_metered(plan, &self.tables, None, metrics) {
                Ok(batches) => Ok(ClusterResult { batches, distributed: false, stages: 1 }),
                Err(error) => Err(error),
            }
        }
    }

    /// Runs the one query that a text of SQL holds.
    pub fn execute_sql(&self, sql: &str, cancelled: bool) -> (r: Result<QueryResult, SparkXError>)
        requires
            self.wf(),
        ensures
            exists|logical: Result<LogicalView, ErrorView>|
                #[trigger] plans_sql(sql@, self@.catalog, logical) && match logical {
                    Err(failure) => r matches Err(error) && error@ == failure,
                    Ok(logical) => answers(self@, logical, cancelled, result_outcome(r)),
                },
    {
        let read = self.sql(sql);
        proof {
            assert(plans_sql(sql@, self@.catalog, plan_outcome(read)));
        }
        match read {
            Ok(logical) => self.execute_plan(logical, cancelled),
            Err(error) => Err(error),
        }
    }

    pub fn tables(&self) -> (r: &Vec<NamedTable>)
        requires
            self.wf(),
        ensures
            named_views(r@) == self@.tables,
            forall|i: int| 0 <= i < r.len() ==> (#[trigger] r@[i]).table.wf(),
    {
        &self.tables
    }
}

/// What came of a query.
#[derive(Debug)]
pub struct QueryResult {
    pub batches: Vec<Batch>,
    pub logical_plan: String,
    pub optimized_plan: String,
    pub physical_plan: String,
    pub distributed: bool,
    pub stages: usize,
    /// What the query did in numbers. Times are left to whoever has a clock.
    pub metrics: MetricsSnapshot,
}

pub struct QueryResultView {
    pub batches: Seq<BatchView>,
    pub logical_plan: Seq<char>,
    pub optimized_plan: Seq<char>,
    pub physical_plan: Seq<char>,
    pub distributed: bool,
    pub stages: usize,
    pub metrics: MetricsView,
}

pub open spec fn result_outcome(r: Result<QueryResult, SparkXError>) -> Result<
    QueryResultView,
    ErrorView,
> {
    match r {
        Ok(result) => Ok(
            QueryResultView {
                batches: batch_views(result.batches@),
                logical_plan: result.logical_plan@,
                optimized_plan: result.optimized_plan@,
                physical_plan: result.physical_plan@,
                distributed: result.distributed,
                stages: result.stages,
                metrics: result.metrics@,
            },
        ),
        Err(error) => Err(error@),
    }
}

/// Metrics after the first `upto` batches of a result were put out.
pub open spec fn output_metrics(metrics: MetricsView, batches: Seq<BatchView>, upto: int) -> MetricsView
    decreases upto,
{
    if upto <= 0 {
        metrics
    } else {
        output_metrics(metrics, batches, upto - 1).with_output(batches[upto - 1].rows)
    }
}

fn record_outputs(batches: &Vec<Batch>, metrics: &mut QueryMetrics)
    ensures
        final(metrics)@ == output_metrics(
            old(metrics)@,
            batch_views(batches@),
            batches.len() as int,
        ),
{
    let ghost views = batch_views(batches@);
    for i in 0..batches.len()
        invariant
            views == batch_views(batches@),
            metrics@ == output_metrics(old(metrics)@, views, i as int),
    {
        proof {
            assert(views[i as int] == batches@[i as int]@);
        }
        metrics.record_output(batches[i].num_rows());
    }
}

/// The metrics of a result whose run counted `run`.
pub open spec fn final_metrics(
    run: MetricsView,
    batches: Seq<BatchView>,
    limit: nat,
    metrics: MetricsView,
) -> bool {
    metrics == MetricsView {
        memory_limit_bytes: limit as u64,
        peak_memory_bytes: metrics.peak_memory_bytes,
        ..output_metrics(run, batches, batches.len() as int)
    }
}

/// What a session's cluster makes of a plan, without its texts.
pub open spec fn run_part(r: Result<QueryResultView, ErrorView>) -> Result<ClusterView, ErrorView> {
    match r {
        Ok(result) => Ok(
            ClusterView {
                batches: result.batches,
                distributed: result.distributed,
                stages: result.stages,
            },
        ),
        Err(error) => Err(error),
    }
}

/// Whether a result is one that a session can give for a plan.
pub open spec fn answers(
    session: SessionView,
    logical: LogicalView,
    cancelled: bool,
    r: Result<QueryResultView, ErrorView>,
) -> bool {
    match all_plans(logical, session.catalog) {
        Err(failure) => r == Err::<QueryResultView, ErrorView>(failure),
        Ok(planned) => {
            &&& r matches Ok(result) ==> {
                &&& result.logical_plan == planned.logical.text(Seq::empty())
                &&& result.optimized_plan == planned.optimized.text(Seq::empty())
                &&& result.physical_plan == planned.physical.text(Seq::empty())
            }
            &&& if !session.config.distributed && cancelled {
                r == Err::<QueryResultView, ErrorView>(ErrorView::Cancelled)
            } else {
                exists|run: MetricsView|
                    {
                        &&& #[trigger] run_gives(session, planned.physical, cancelled, r, run)
                        &&& r matches Ok(result) ==> final_metrics(
                            run,
                            result.batches,
                            session.budget().limit,
                            result.metrics,
                        ) && runner_peaks(
                            session,
                            planned.physical,
                            run_part(r)->Ok_0,
                            result.metrics.peak_memory_bytes as nat,
                        )
                    }
            }
        },
    }
}

/// What a session's runner gives is an answer.
proof fn an_answer(
    session: SessionView,
    logical: LogicalView,
    planned: PlannedView,
    cancelled: bool,
    r: Result<QueryResultView, ErrorView>,
    run: MetricsView,
)
    requires
        all_plans(logical, session.catalog) == Ok::<PlannedView, ErrorView>(planned),
        session.config.distributed || !cancelled,
        runner_gives(session, planned.physical, cancelled, run_part(r), run),
        r matches Ok(result) ==> {
            &&& result.logical_plan == planned.logical.text(Seq::empty())
            &&& result.optimized_plan == planned.optimized.text(Seq::empty())
            &&& result.physical_plan == planned.physical.text(Seq::empty())
            &&& final_metrics(run, result.batches, session.budget().limit, result.metrics)
            &&& runner_peaks(
                session,
                planned.physical,
                run_part(r)->Ok_0,
                result.metrics.peak_memory_bytes as nat,
            )
        },
    ensures
        answers(session, logical, cancelled, r),
{
    assert(run_gives(session, planned.physical, cancelled, r, run));
}

/// Whether a session's runner can give a result for a plan and count to some metrics on the way.
pub open spec fn runner_gives(
    session: SessionView,
    plan: PhysicalView,
    cancelled: bool,
    r: Result<ClusterView, ErrorView>,
    run: MetricsView,
) -> bool {
    if session.config.distributed {
        cluster_gives(
            plan,
            session.catalog,
            session.tables,
            session.budget(),
            cancelled,
            MetricsView::fresh(),
            r,
            run,
        )
    } else {
        match r {
            Ok(result) => {
                &&& meters(
                    plan,
                    session.tables,
                    None,
                    MetricsView::fresh(),
                    Ok(result.batches),
                    run,
                )
                &&& !result.distributed
                &&& result.stages == 1
            },
            Err(error) => produces(plan, session.tables, None, Err(error)),
        }
    }
}

/// Whether the most that was claimed in a run that gave a result is what the run claims: nothing
/// where it is not spread over partitions.
pub open spec fn runner_peaks(
    session: SessionView,
    plan: PhysicalView,
    result: ClusterView,
    peak: nat,
) -> bool {
    if session.config.distributed {
        cluster_peaks(plan, session.catalog, session.tables, session.budget(), result, peak)
    } else {
        peak == 0
    }
}

/// Whether a session's runner can give the rows of a result and count to some metrics on the way.
pub open spec fn run_gives(
    session: SessionView,
    plan: PhysicalView,
    cancelled: bool,
    r: Result<QueryResultView, ErrorView>,
    run: MetricsView,
) -> bool {
    runner_gives(session, plan, cancelled, run_part(r), run)
}

impl SessionView {
    /// The memory that a query of this session may claim.
    pub open spec fn budget(self) -> MemoryView {
        MemoryView {
            limit: if self.config.memory_limit_bytes == 0 {
                1
            } else {
                self.config.memory_limit_bytes as nat
            },
            reserved: 0,
            peak: 0,
        }
    }
}

impl QueryResult {
    /// The number of rows of all batches.
    pub fn row_count(&self) -> (r: usize)
        requires
            total_rows(batch_views(self.batches@), self.batches.len() as int) <= usize::MAX,
        ensures
            r == total_rows(batch_views(self.batches@), self.batches.len() as int),
    {
        let ghost views = batch_views(self.batches@);
        let mut total: usize = 0;
        for i in 0..self.batches.len()
            invariant
                views == batch_views(self.batches@),
                total == total_rows(views, i as int),
                total_rows(views, self.batches.len() as int) <= usize::MAX,
        {
            proof {
                assert(views[i as int] == self.batches@[i as int]@);
                total_rows_grow(views, i + 1, self.batches.len() as int);
            }
            total = total + self.batches[i].num_rows();
        }
        total
    }
}

} // verus!

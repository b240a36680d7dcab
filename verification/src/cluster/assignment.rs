//! The work of one task: its inputs, its plan, and where its rows go.

use crate::batch::{batch_views, Batch, BatchView};
use crate::catalog::{Catalog, TableView};
use crate::cluster::hash_exchange::{
    held_by, output_views, repartition, repartitioned, PartitionOutput, PartitionView,
};
use crate::error::{ErrorView, SparkXError};
use crate::execution::run::{execute_metered, meters};
use crate::memory::{MemoryView, QueryMemory};
use crate::metrics::{MetricsView, QueryMetrics};
use crate::physical::PhysicalView;
use crate::plan_codec::decoded_fragment;
use crate::protocol::{
    block_views, stage_input_name, stage_input_table_name, PartitionId, ShuffleBlock, ShuffleBlockView, ShuffleLocation,
    ShuffleLocationView, StageId, StagePlan, StagePlanView, TaskAttemptId, TaskAttemptView,
};
use crate::table::{
    all_valid, named_views, partition_views, MemoryTable, NamedTable, NamedTableView,
};
use crate::text::{decimal, join, numeral};
use crate::types::{Schema, SchemaView};
use vstd::prelude::*;

verus! {

/// What has arrived of a stage on which a task depends.
#[derive(Debug)]
struct StageInput {
    stage_id: StageId,
    schema: Option<Schema>,
    batches: Vec<Batch>,
}

pub struct StageInputView {
    pub stage_id: StageId,
    pub schema: Option<SchemaView>,
    pub batches: Seq<BatchView>,
}

impl View for StageInput {
    type V = StageInputView;

    closed spec fn view(&self) -> StageInputView {
        StageInputView {
            stage_id: self.stage_id,
            schema: crate::remote::schema_view(self.schema),
            batches: batch_views(self.batches@),
        }
    }
}

/// The inputs of a task.
#[derive(Debug)]
pub struct StageInputs {
    inputs: Vec<StageInput>,
}

impl View for StageInputs {
    type V = Seq<StageInputView>;

    closed spec fn view(&self) -> Seq<StageInputView> {
        Seq::new(self.inputs.len() as nat, |i: int| self.inputs@[i]@)
    }
}

/// The inputs before any block arrived.
pub open spec fn no_inputs(stages: Seq<StageId>) -> Seq<StageInputView> {
    Seq::new(
        stages.len(),
        |i: int| StageInputView { stage_id: stages[i], schema: None, batches: Seq::empty() },
    )
}

/// The place of a stage among inputs from `from` on, or their number.
pub open spec fn input_place(inputs: Seq<StageInputView>, stage: StageId, from: int) -> int
    decreases inputs.len() - from,
{
    if from >= inputs.len() {
        inputs.len() as int
    } else if inputs[from].stage_id == stage {
        from
    } else {
        input_place(inputs, stage, from + 1)
    }
}

/// The endpoint from which a block of an input is had, or why it is not.
pub open spec fn input_endpoint(inputs: Seq<StageInputView>, block: ShuffleBlockView) -> Result<
    Seq<char>,
    ErrorView,
> {
    if input_place(inputs, block.producer.stage_id, 0) >= inputs.len() {
        Err(
            ErrorView::Protocol(
                "worker received a block from undeclared stage "@ + numeral(
                    block.producer.stage_id.0 as nat,
                ),
            ),
        )
    } else {
        match block.location {
            ShuffleLocationView::Flight { endpoint, .. } => Ok(endpoint),
            ShuffleLocationView::Worker { .. } => Err(
                ErrorView::Unsupported("remote workers cannot fetch worker-local input blocks"@),
            ),
            ShuffleLocationView::ObjectStore { .. } => Err(
                ErrorView::Unsupported(
                    "remote workers cannot fetch object-store input blocks yet"@,
                ),
            ),
        }
    }
}

/// What is wrong with the schema of a block that arrived, if anything is.
pub open spec fn admission_check(
    inputs: Seq<StageInputView>,
    stage: StageId,
    schema: SchemaView,
) -> Result<(), ErrorView> {
    let input = inputs[input_place(inputs, stage, 0)];
    if input.schema matches Some(expected) && expected != schema {
        Err(
            ErrorView::Protocol(
                "stage "@ + numeral(stage.0 as nat)
                    + " input blocks contain different Arrow schemas"@,
            ),
        )
    } else {
        Ok(())
    }
}

/// The inputs after a block arrived.
pub open spec fn admitted(
    inputs: Seq<StageInputView>,
    stage: StageId,
    schema: SchemaView,
    batches: Seq<BatchView>,
) -> Seq<StageInputView> {
    let place = input_place(inputs, stage, 0);
    inputs.update(
        place,
        StageInputView {
            stage_id: inputs[place].stage_id,
            schema: Some(schema),
            batches: inputs[place].batches + batches,
        },
    )
}

/// Whether the inputs hold valid batches of their schemas.
pub open spec fn inputs_wf(inputs: Seq<StageInputView>) -> bool {
    forall|i: int|
        0 <= i < inputs.len() ==> all_valid((#[trigger] inputs[i]).batches) && (
        inputs[i].schema is None ==> inputs[i].batches.len() == 0)
}

/// The blocks among the first `upto` that a task reads: all, or those for its own partition.
pub open spec fn blocks_read(
    blocks: Seq<ShuffleBlockView>,
    partition: Option<PartitionId>,
    upto: int,
) -> Seq<ShuffleBlockView>
    decreases upto,
{
    if upto <= 0 {
        Seq::empty()
    } else if partition matches Some(partition) && blocks[upto - 1].output_partition != partition {
        blocks_read(blocks, partition, upto - 1)
    } else {
        blocks_read(blocks, partition, upto - 1).push(blocks[upto - 1])
    }
}

/// The blocks that a task of a stage reads of the output of a stage on which it depends.
pub fn select_blocks(stage: &StagePlan, task: &TaskAttemptId, blocks: &Vec<ShuffleBlock>) -> (r: Vec<
    ShuffleBlock,
>)
    ensures
        block_views(r@) == blocks_read(
            block_views(blocks@),
            if stage@.partitioned_input {
                Some(task@.partition_id)
            } else {
                None
            },
            blocks.len() as int,
        ),
{
    let ghost views = block_views(blocks@);
    let ghost wanted = if stage@.partitioned_input {
        Some(task@.partition_id)
    } else {
        None
    };
    let mut selected: Vec<ShuffleBlock> = Vec::new();
    proof {
        assert(block_views(selected@) =~= Seq::empty());
    }
    for i in 0..blocks.len()
        invariant
            views == block_views(blocks@),
            wanted == (if stage@.partitioned_input {
                Some(task@.partition_id)
            } else {
                None
            }),
            block_views(selected@) == blocks_read(views, wanted, i as int),
    {
        let ghost before = block_views(selected@);
        proof {
            assert(views[i as int] == blocks@[i as int]@);
        }
        if !stage.partitioned_input || blocks[i].output_partition == task.partition_id {
            selected.push(blocks[i].clone());
            proof {
                assert(block_views(selected@) =~= before.push(views[i as int]));
            }
        }
    }
    selected
}

/// The error of a download as the worker reports it: a block that is gone may be made again.
pub fn map_download_error(error: SparkXError) -> (r: SparkXError)
    ensures
        r@ == (match error@ {
            ErrorView::NotFound(message) => ErrorView::Transport(
                "upstream block unavailable: "@ + message,
            ),
            other => other,
        }),
{
    match error {
        SparkXError::NotFound(message) => SparkXError::Transport(
            join("upstream block unavailable: ", message.as_str()),
        ),
        other => other,
    }
}

/// The tables that the first `upto` inputs become, after those before them.
pub open spec fn input_tables(
    inputs: Seq<StageInputView>,
    base: Seq<NamedTableView>,
    upto: int,
) -> Result<Seq<NamedTableView>, ErrorView>
    decreases upto,
{
    if upto <= 0 {
        Ok(base)
    } else {
        match input_tables(inputs, base, upto - 1) {
            Err(error) => Err(error),
            Ok(tables) => match inputs[upto - 1].schema {
                None => Err(
                    ErrorView::Protocol(
                        "stage "@ + numeral(inputs[upto - 1].stage_id.0 as nat)
                            + " dependency produced no input block manifest"@,
                    ),
                ),
                Some(schema) => match crate::table::made_table(
                    schema,
                    seq![inputs[upto - 1].batches],
                ) {
                    Err(error) => Err(error),
                    Ok(table) => Ok(
                        tables.push(
                            NamedTableView {
                                name: stage_input_name(inputs[upto - 1].stage_id),
                                table,
                            },
                        ),
                    ),
                },
            },
        }
    }
}

proof fn tables_fail_early(
    inputs: Seq<StageInputView>,
    base: Seq<NamedTableView>,
    upto: int,
    full: int,
)
    requires
        0 <= upto <= full,
        input_tables(inputs, base, upto) is Err,
    ensures
        input_tables(inputs, base, full) == input_tables(inputs, base, upto),
    decreases full - upto,
{
    if upto < full {
        tables_fail_early(inputs, base, upto, full - 1);
    }
}

impl StageInputs {
    pub open spec fn wf(&self) -> bool {
        inputs_wf(self@)
    }

    /// The inputs of a task that depends on some stages and was told of so many blocks.
    pub fn new(stages: &Vec<StageId>, blocks: usize) -> (r: Result<Self, SparkXError>)
        ensures
            match r {
                Ok(inputs) => {
                    &&& stages.len() > 0 || blocks == 0
                    &&& inputs@ == no_inputs(stages@)
                    &&& inputs.wf()
                },
                Err(error) => stages.len() == 0 && blocks > 0 && error@ == ErrorView::Protocol(
                    "task without stage dependencies received input blocks"@,
                ),
            },
    {
        if stages.len() == 0 && blocks > 0 {
            return Err(
                SparkXError::protocol(
                    "task without stage dependencies received input blocks".to_owned(),
                ),
            );
        }
        let mut inputs: Vec<StageInput> = Vec::new();
        for i in 0..stages.len()
            invariant
                inputs.len() == i,
                forall|k: int| 0 <= k < i ==> (#[trigger] inputs@[k])@ == no_inputs(stages@)[k],
        {
            let batches: Vec<Batch> = Vec::new();
            proof {
                assert(batch_views(batches@) =~= Seq::empty());
            }
            inputs.push(StageInput { stage_id: stages[i], schema: None, batches });
        }
        let r = StageInputs { inputs };
        proof {
            assert(r@ =~= no_inputs(stages@));
        }
        Ok(r)
    }

    fn find(&self, stage: StageId) -> (r: usize)
        ensures
            r == input_place(self@, stage, 0),
            r <= self.inputs.len(),
            self@.len() == self.inputs.len(),
    {
        let ghost views = self@;
        let mut i: usize = 0;
        while i < self.inputs.len()
            invariant
                views == self@,
                views.len() == self.inputs.len(),
                i <= self.inputs.len(),
                input_place(views, stage, 0) == input_place(views, stage, i as int),
            decreases self.inputs.len() - i,
        {
            proof {
                assert(views[i as int] == self.inputs@[i as int]@);
            }
            if self.inputs[i].stage_id == stage {
                return i;
            }
            i = i + 1;
        }
        i
    }

    /// The endpoint from which a block is to be had.
    pub fn endpoint_of(&self, block: &ShuffleBlock) -> (r: Result<String, SparkXError>)
        ensures
            match r {
                Ok(endpoint) => input_endpoint(self@, block@) == Ok::<Seq<char>, ErrorView>(
                    endpoint@,
                ),
                Err(error) => input_endpoint(self@, block@) == Err::<Seq<char>, ErrorView>(error@),
            },
    {
        let stage = block.producer.stage_id;
        if self.find(stage) >= self.inputs.len() {
            return Err(
                SparkXError::protocol(
                    join(
                        "worker received a block from undeclared stage ",
                        decimal(stage.0 as u64).as_str(),
                    ),
                ),
            );
        }
        match &block.location {
            ShuffleLocation::Flight { endpoint, .. } => Ok(endpoint.clone()),
            ShuffleLocation::Worker { .. } => Err(
                SparkXError::unsupported(
                    "remote workers cannot fetch worker-local input blocks".to_owned(),
                ),
            ),
            ShuffleLocation::ObjectStore { .. } => Err(
                SparkXError::unsupported(
                    "remote workers cannot fetch object-store input blocks yet".to_owned(),
                ),
            ),
        }
    }

    /// Takes in a block that arrived.
    pub fn take_in(&mut self, stage: StageId, schema: Schema, batches: Vec<Batch>) -> (r: Result<
        (),
        SparkXError,
    >)
        requires
            old(self).wf(),
            input_place(old(self)@, stage, 0) < old(self)@.len(),
            all_valid(batch_views(batches@)),
        ensures
            final(self).wf(),
            crate::error::outcome(r) == admission_check(old(self)@, stage, schema@),
            final(self)@ == (if r is Ok {
                admitted(old(self)@, stage, schema@, batch_views(batches@))
            } else {
                old(self)@
            }),
    {
        let ghost before = self@;
        let place: usize = self.find(stage);
        proof {
            assert(before[place as int] == self.inputs@[place as int]@);
        }
        let differs: bool = match &self.inputs[place].schema {
            Some(expected) => !expected.same(&schema),
            None => false,
        };
        if differs {
            let mut message: String = join("stage ", decimal(stage.0 as u64).as_str());
            message.append(" input blocks contain different Arrow schemas");
            return Err(SparkXError::protocol(message));
        }
        let mut input = self.inputs.remove(place);
        let ghost first = batch_views(input.batches@);
        let ghost second = batch_views(batches@);
        let mut batches = batches;
        input.batches.append(&mut batches);
        input.schema = Some(schema);
        proof {
            assert(batch_views(input.batches@) =~= first + second);
            assert forall|k: int| 0 <= k < (first + second).len() implies (
            #[trigger] (first + second)[k]).wf() by {
                if k < first.len() {
                    assert(first[k].wf());
                } else {
                    assert(second[k - first.len()].wf());
                }
            }
        }
        let ghost view = input@;
        self.inputs.insert(place, input);
        proof {
            assert(self@ =~= before.update(place as int, view));
            assert forall|i: int| 0 <= i < self@.len() implies all_valid(
                (#[trigger] self@[i]).batches,
            ) && (self@[i].schema is None ==> self@[i].batches.len() == 0) by {
                if i != place {
                    assert(self@[i] == before[i]);
                }
            }
        }
        Ok(())
    }

    /// The tables of a task: those of the worker, and one for each input.
    pub fn into_tables(self, base: Vec<NamedTable>) -> (r: Result<Vec<NamedTable>, SparkXError>)
        requires
            self.wf(),
            forall|i: int| 0 <= i < base.len() ==> (#[trigger] base@[i]).table.wf(),
        ensures
            match r {
                Ok(tables) => {
                    &&& input_tables(self@, named_views(base@), self@.len() as int) == Ok::<
                        Seq<NamedTableView>,
                        ErrorView,
                    >(named_views(tables@))
                    &&& forall|i: int|
                        0 <= i < tables.len() ==> (#[trigger] tables@[i]).table.wf()
                },
                Err(error) => input_tables(self@, named_views(base@), self@.len() as int) == Err::<
                    Seq<NamedTableView>,
                    ErrorView,
                >(error@),
            },
    {
        let ghost views = self@;
        let ghost first = named_views(base@);
        let count: usize = self.inputs.len();
        let mut rest = self.inputs;
        let mut tables = base;
        let mut done: usize = 0;
        while rest.len() > 0
            invariant
                views == self@,
                first == named_views(base@),
                inputs_wf(views),
                count == views.len(),
                done + rest.len() == count,
                forall|k: int| 0 <= k < rest.len() ==> (#[trigger] rest@[k])@ == views[done + k],
                forall|i: int| 0 <= i < tables.len() ==> (#[trigger] tables@[i]).table.wf(),
                input_tables(views, first, done as int) == Ok::<Seq<NamedTableView>, ErrorView>(
                    named_views(tables@),
                ),
            decreases rest.len(),
        {
            let ghost so_far = named_views(tables@);
            let ghost rest_before = rest@;
            proof {
                assert(rest@[0]@ == views[done as int]);
            }
            let input = rest.remove(0);
            let schema = match input.schema {
                Some(schema) => schema,
                None => {
                    let mut message: String = join(
                        "stage ",
                        decimal(input.stage_id.0 as u64).as_str(),
                    );
                    message.append(" dependency produced no input block manifest");
                    proof {
                        tables_fail_early(views, first, done + 1, count as int);
                    }
                    return Err(SparkXError::protocol(message));
                },
            };
            let partitions: Vec<Vec<Batch>> = vec![input.batches];
            proof {
                assert(partition_views(partitions@) =~= seq![views[done as int].batches]);
            }
            let table = match MemoryTable::new(schema, partitions) {
                Ok(table) => table,
                Err(error) => {
                    proof {
                        tables_fail_early(views, first, done + 1, count as int);
                    }
                    return Err(error);
                },
            };
            let named = NamedTable { name: stage_input_table_name(input.stage_id), table };
            let ghost view = named@;
            tables.push(named);
            done = done + 1;
            proof {
                assert(named_views(tables@) =~= so_far.push(view));
                assert forall|k: int| 0 <= k < rest.len() implies (#[trigger] rest@[k])@
                    == views[done + k] by {
                    assert(rest@[k] == rest_before[k + 1]);
                }
            }
        }
        Ok(tables)
    }
}

/// The partition of its tables that a task reads: its own, and the only one where its tables are
/// its inputs.
pub open spec fn partition_read(stage: StagePlanView, task: TaskAttemptView) -> usize {
    if stage.input_stages.len() > 0 {
        0
    } else {
        task.partition_id.0 as usize
    }
}

/// Whether outputs are what a task's rows become: dealt by the stage's exchange, or all for the
/// task's own partition.
pub open spec fn rows_sent(
    stage: StagePlanView,
    task: TaskAttemptView,
    schema: SchemaView,
    rows: Seq<BatchView>,
    memory: MemoryView,
    cancelled: bool,
    r: Result<Seq<PartitionView>, ErrorView>,
) -> bool {
    match stage.output_exchange {
        None => r == Ok::<Seq<PartitionView>, ErrorView>(
            seq![PartitionView { partition: task.partition_id, batches: rows, held: 0 }],
        ),
        Some(exchange) => if !widths_fit(rows, schema) {
            r == Err::<Seq<PartitionView>, ErrorView>(crate::execution::run::misfit())
        } else {
            match repartitioned(schema, rows, exchange, memory, cancelled) {
                Err(error) => r == Err::<Seq<PartitionView>, ErrorView>(error),
                Ok(table) => r == Ok::<Seq<PartitionView>, ErrorView>(table.outputs),
            }
        },
    }
}

/// Whether every batch has as many columns as a schema has fields.
pub open spec fn widths_fit(rows: Seq<BatchView>, schema: SchemaView) -> bool {
    forall|i: int|
        0 <= i < rows.len() ==> (#[trigger] rows[i]).columns.len() == schema.fields.len()
}

/// Whether a result is one that a task can give, while metrics go from some to others.
pub open spec fn task_gives(
    stage: StagePlanView,
    task: TaskAttemptView,
    catalog: Map<Seq<char>, TableView>,
    tables: Seq<NamedTableView>,
    memory: MemoryView,
    cancelled: bool,
    before: MetricsView,
    r: Result<Seq<PartitionView>, ErrorView>,
    after: MetricsView,
) -> bool {
    if cancelled {
        r == Err::<Seq<PartitionView>, ErrorView>(ErrorView::Cancelled)
    } else {
        match stage.check() {
            Err(error) => r == Err::<Seq<PartitionView>, ErrorView>(error),
            Ok(()) => match decoded_fragment(stage.plan_fragment, catalog) {
                Err(error) => r == Err::<Seq<PartitionView>, ErrorView>(error),
                Ok(plan) => exists|rows: Result<Seq<BatchView>, ErrorView>|
                    {
                        &&& #[trigger] meters(
                            plan,
                            tables,
                            Some(partition_read(stage, task)),
                            before,
                            rows,
                            after,
                        )
                        &&& match rows {
                            Err(error) => r == Err::<Seq<PartitionView>, ErrorView>(error),
                            Ok(batches) => rows_sent(
                                stage,
                                task,
                                plan.schema(),
                                batches,
                                memory,
                                cancelled,
                                r,
                            ),
                        }
                    },
            },
        }
    }
}

fn do_widths_fit(batches: &Vec<Batch>, schema: &Schema) -> (r: bool)
    ensures
        r == widths_fit(batch_views(batches@), schema@),
{
    let ghost views = batch_views(batches@);
    let width: usize = schema.fields.len();
    for i in 0..batches.len()
        invariant
            views == batch_views(batches@),
            width == schema@.fields.len(),
            forall|k: int| 0 <= k < i ==> (#[trigger] views[k]).columns.len() == width,
    {
        proof {
            assert(views[i as int] == batches@[i as int]@);
        }
        if batches[i].num_columns() != width {
            return false;
        }
    }
    true
}

/// Deals a task's rows to the partitions of its stage's output.
fn send_rows(
    stage: &StagePlan,
    task: &TaskAttemptId,
    schema: &Schema,
    batches: Vec<Batch>,
    memory: &mut QueryMemory,
) -> (r: Result<Vec<PartitionOutput>, SparkXError>)
    requires
        old(memory).wf(),
        all_valid(batch_views(batches@)),
    ensures
        rows_sent(
            stage@,
            task@,
            schema@,
            batch_views(batches@),
            old(memory)@,
            false,
            sent_outcome(r),
        ),
        final(memory).wf(),
        final(memory)@.limit == old(memory)@.limit,
        final(memory)@.reserved == old(memory)@.reserved + held_after(r),
{
    match &stage.output_exchange {
        None => {
            let reservation = match memory.try_reserve(0) {
                Ok(reservation) => reservation,
                Err(error) => return Err(error),
            };
            let output = PartitionOutput { partition: task.partition_id, batches, reservation };
            let ghost one = output@;
            let outputs: Vec<PartitionOutput> = vec![output];
            proof {
                let views = output_views(outputs@);
                assert(views =~= seq![one]);
                assert(held_by(views, 0) == 0);
                assert(held_by(views, 1) == held_by(views, 0) + views[0].held);
            }
            Ok(outputs)
        },
        Some(exchange) => {
            if !do_widths_fit(&batches, schema) {
                return Err(crate::execution::run::misfit_error());
            }
            proof {
                let views = batch_views(batches@);
                assert forall|i: int| 0 <= i < batches.len() implies (
                #[trigger] batches@[i]).wf() && batches@[i]@.columns.len()
                    == schema@.fields.len() by {
                    assert(views[i] == batches@[i]@);
                    assert(views[i].wf());
                }
            }
            repartition(schema, &batches, exchange, memory, false)
        },
    }
}

pub open spec fn sent_outcome(r: Result<Vec<PartitionOutput>, SparkXError>) -> Result<
    Seq<PartitionView>,
    ErrorView,
> {
    match r {
        Ok(outputs) => Ok(output_views(outputs@)),
        Err(error) => Err(error@),
    }
}

/// What outputs are charged, and nothing where there are none.
pub open spec fn held_after(r: Result<Vec<PartitionOutput>, SparkXError>) -> nat {
    match r {
        Ok(outputs) => held_by(output_views(outputs@), outputs.len() as int),
        Err(_) => 0,
    }
}

proof fn tasks_give(
    stage: StagePlanView,
    task: TaskAttemptView,
    catalog: Map<Seq<char>, TableView>,
    tables: Seq<NamedTableView>,
    memory: MemoryView,
    plan: PhysicalView,
    rows: Result<Seq<BatchView>, ErrorView>,
    r: Result<Seq<PartitionView>, ErrorView>,
    before: MetricsView,
    after: MetricsView,
)
    requires
        stage.check() is Ok,
        decoded_fragment(stage.plan_fragment, catalog) == Ok::<PhysicalView, ErrorView>(plan),
        meters(plan, tables, Some(partition_read(stage, task)), before, rows, after),
        match rows {
            Err(error) => r == Err::<Seq<PartitionView>, ErrorView>(error),
            Ok(batches) => rows_sent(stage, task, plan.schema(), batches, memory, false, r),
        },
    ensures
        task_gives(stage, task, catalog, tables, memory, false, before, r, after),
{
}

/// Runs a task: decodes the plan of its stage, runs it over its partition, and deals the rows to
/// the partitions of the stage's output. What fails leaves nothing claimed. The schema of the rows
/// is that of the plan.
pub fn run_task(
    stage: &StagePlan,
    task: &TaskAttemptId,
    catalog: &Catalog,
    tables: &Vec<NamedTable>,
    memory: &mut QueryMemory,
    metrics: &mut QueryMetrics,
    cancelled: bool,
) -> (r: Result<Vec<PartitionOutput>, SparkXError>)
    requires
        catalog.wf(),
        old(memory).wf(),
        forall|i: int| 0 <= i < tables.len() ==> (#[trigger] tables@[i]).table.wf(),
    ensures
        task_gives(
            stage@,
            task@,
            catalog@,
            named_views(tables@),
            old(memory)@,
            cancelled,
            old(metrics)@,
            sent_outcome(r),
            final(metrics)@,
        ),
        final(memory).wf(),
        final(memory)@.limit == old(memory)@.limit,
        final(memory)@.reserved == old(memory)@.reserved + held_after(r),
{
    if cancelled {
        return Err(SparkXError::Cancelled);
    }
    let plan = match stage.decode_physical_plan(catalog) {
        Ok(plan) => plan,
        Err(error) => return Err(error),
    };
    let partition: usize = if stage.input_stages.len() > 0 {
        0
    } else {
        task.partition_id.0 as usize
    };
    let rows = execute_metered(&plan, tables, Some(partition), metrics);
    let ghost view = crate::table::batches_outcome(rows);
    let r = match rows {
        Ok(batches) => send_rows(stage, task, plan.schema(), batches, memory),
        Err(error) => Err(error),
    };
    proof {
        tasks_give(
            stage@,
            task@,
            catalog@,
            named_views(tables@),
            old(memory)@,
            plan@,
            view,
            sent_outcome(r),
            old(metrics)@,
            metrics@,
        );
    }
    r
}

} // verus!

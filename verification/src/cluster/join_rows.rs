//! A join that workers run gives the rows of the same join in one place.

use crate::batch::BatchView;
use crate::catalog::{find_table, TableView};
use crate::cluster::assignment::{
    admitted, blocks_read, input_place, input_tables, no_inputs, partition_read, rows_sent,
    task_gives, StageInputView,
};
use crate::cluster::hash_exchange::{repartitioned, PartitionView};
use crate::cluster::join::{
    dependency_scan, key_columns, local_partitions, producers, remote_join, rewritten,
};
use crate::cluster::spread_join::{
    all_even, are_dealt, batches_are_dealt, dealt_joins_give_all, is_even, outputs_hold, routed,
    routed_of_two, rows_of_a_prefix, valid_batches_are_even, JoinView,
};
use crate::column::ColumnView;
use crate::coordinator::model::StageState;
use crate::distributed::spreading::{
    all_have, joined_lists, local_plans_are_settled, local_result, partitions_have_the_schema,
    partitions_make_the_whole, scanned_partitions,
};
use crate::error::ErrorView;
use crate::execution::join::joined;
use crate::execution::rowwise::{
    a_filter_carries_rows, a_projection_carries_rows, all_rows, carried, carried_of_two,
    carrying_the_same_rows, filtering, projecting, result_rows, rows_in,
};
use crate::execution::rows::computed;
use crate::execution::run::{
    all_filtered, all_projected, input_of, meters, produces, runs, scanned_batch, scanned_batches,
    Trace,
};
use crate::execution::stream::{filtered, projected};
use crate::expr::ExprView;
use crate::logical::{joined_fields, JoinType};
use crate::memory::MemoryView;
use crate::metrics::MetricsView;
use crate::physical::PhysicalView;
use crate::plan_codec::checks::transportable;
use crate::plan_codec::plans::{encoded_plan, join_schema, scan_check, scan_fields_check};
use crate::plan_codec::{decoded_fragment, stage_of, stage_runs_its_plan};
use crate::protocol::{
    stage_input_name, HashExchangeView, PartitionId, ShuffleBlockView, StageId, StagePlanView,
    TaskAttemptView,
};
use crate::remote::is_partition_local;
use crate::table::{all_valid, projected_batches, table_place, NamedTableView};
use crate::text::{blank, numeral, small_letters, white_space};
use crate::types::{FieldView, SchemaView};
use crate::wire::fields::RECURSION_LIMIT;
use crate::wire::plans::plan_fits;
use vstd::prelude::*;

verus! {

/// The join under the filters and projections of a plan.
pub open spec fn join_of(plan: PhysicalView) -> PhysicalView
    decreases plan,
{
    match plan {
        PhysicalView::Projection { input, .. } => join_of(*input),
        PhysicalView::Filter { input, .. } => join_of(*input),
        _ => plan,
    }
}

/// The one batch that each of some runs gave.
pub open spec fn batches_given(traces: Seq<Trace>) -> Seq<BatchView> {
    Seq::new(traces.len(), |p: int| traces[p].result()->Ok_0[0])
}

/// Whether some batches hold the rows of another together, in some order.
pub open spec fn hold_together(parts: Seq<BatchView>, whole: BatchView) -> bool {
    &&& whole.wf()
    &&& forall|p: int|
        0 <= p < parts.len() ==> (#[trigger] parts[p]).wf() && parts[p].schema == whole.schema
    &&& all_rows(parts).to_multiset() == result_rows(whole).to_multiset()
}

proof fn parts_are_contained(parts: Seq<BatchView>, p: int, r: int, upto: int)
    requires
        0 <= p < upto <= parts.len(),
        0 <= r < parts[p].rows,
    ensures
        rows_in(parts, upto).contains(result_rows(parts[p])[r]),
    decreases upto,
{
    let before = rows_in(parts, upto - 1);
    let all = rows_in(parts, upto);
    if p < upto - 1 {
        parts_are_contained(parts, p, r, upto - 1);
        let i = choose|i: int| 0 <= i < before.len() && before[i] == result_rows(parts[p])[r];
        assert(all[i] == before[i]);
    } else {
        assert(all[before.len() + r] == result_rows(parts[p])[r]);
    }
}

proof fn rows_of_parts_are_rows_of_all(parts: Seq<BatchView>, whole: BatchView, p: int)
    requires
        hold_together(parts, whole),
        0 <= p < parts.len(),
    ensures
        forall|r: int|
            0 <= r < parts[p].rows ==> result_rows(whole).contains(
                #[trigger] result_rows(parts[p])[r],
            ),
{
    assert forall|r: int| 0 <= r < parts[p].rows implies result_rows(whole).contains(
        #[trigger] result_rows(parts[p])[r],
    ) by {
        parts_are_contained(parts, p, r, parts.len() as int);
        all_rows(parts).to_multiset_ensures();
        result_rows(whole).to_multiset_ensures();
        assert(all_rows(parts).contains(result_rows(parts[p])[r]));
        assert(all_rows(parts).to_multiset().count(result_rows(parts[p])[r]) > 0);
    }
}

proof fn carrying_parts(
    parts: Seq<BatchView>,
    next: Seq<BatchView>,
    f: spec_fn(Seq<ColumnView>) -> Option<Seq<ColumnView>>,
    upto: int,
)
    requires
        0 <= upto <= parts.len(),
        next.len() == parts.len(),
        forall|p: int|
            0 <= p < parts.len() ==> result_rows(#[trigger] next[p]) == carried(
                result_rows(parts[p]),
                f,
            ),
    ensures
        rows_in(next, upto) == carried(rows_in(parts, upto), f),
    decreases upto,
{
    if upto > 0 {
        carrying_parts(parts, next, f, upto - 1);
        assert(result_rows(next[upto - 1]) == carried(result_rows(parts[upto - 1]), f));
        carried_of_two(rows_in(parts, upto - 1), result_rows(parts[upto - 1]), f);
    }
}

/// A filter over parts gives what it gives over all of them.
proof fn filtering_parts(
    parts: Seq<BatchView>,
    whole: BatchView,
    predicate: ExprView,
    next: Seq<BatchView>,
    result: BatchView,
)
    requires
        hold_together(parts, whole),
        filtered(whole, predicate) == Ok::<BatchView, ErrorView>(result),
        next.len() == parts.len(),
        forall|p: int|
            0 <= p < parts.len() ==> filtered(parts[p], predicate) == Ok::<BatchView, ErrorView>(
                #[trigger] next[p],
            ),
    ensures
        all_rows(next).to_multiset() == result_rows(result).to_multiset(),
        forall|p: int| 0 <= p < next.len() ==> (#[trigger] next[p]).schema == result.schema,
{
    let f = filtering(whole, predicate);
    assert forall|r: int| 0 <= r < whole.rows implies result_rows(whole).contains(
        #[trigger] result_rows(whole)[r],
    ) by {}
    a_filter_carries_rows(whole, whole, predicate);
    assert forall|p: int| 0 <= p < parts.len() implies result_rows(#[trigger] next[p]) == carried(
        result_rows(parts[p]),
        f,
    ) && next[p].schema == result.schema by {
        rows_of_parts_are_rows_of_all(parts, whole, p);
        assert(parts[p].wf());
        assert(filtered(parts[p], predicate) == Ok::<BatchView, ErrorView>(next[p]));
        a_filter_carries_rows(whole, parts[p], predicate);
    }
    carrying_parts(parts, next, f, parts.len() as int);
    carrying_the_same_rows(all_rows(parts), result_rows(whole), f);
}

/// A projection over parts gives what it gives over all of them.
proof fn projecting_parts(
    parts: Seq<BatchView>,
    whole: BatchView,
    exprs: Seq<ExprView>,
    schema: SchemaView,
    next: Seq<BatchView>,
    result: BatchView,
)
    requires
        hold_together(parts, whole),
        projected(whole, exprs, schema) == Ok::<BatchView, ErrorView>(result),
        next.len() == parts.len(),
        forall|p: int|
            0 <= p < parts.len() ==> projected(parts[p], exprs, schema) == Ok::<
                BatchView,
                ErrorView,
            >(#[trigger] next[p]),
    ensures
        all_rows(next).to_multiset() == result_rows(result).to_multiset(),
        forall|p: int| 0 <= p < next.len() ==> (#[trigger] next[p]).schema == result.schema,
{
    let f = projecting(whole, computed(exprs, whole, exprs.len() as int)->Ok_0);
    assert forall|r: int| 0 <= r < whole.rows implies result_rows(whole).contains(
        #[trigger] result_rows(whole)[r],
    ) by {}
    a_projection_carries_rows(whole, whole, exprs, schema);
    assert forall|p: int| 0 <= p < parts.len() implies result_rows(#[trigger] next[p]) == carried(
        result_rows(parts[p]),
        f,
    ) && next[p].schema == result.schema by {
        rows_of_parts_are_rows_of_all(parts, whole, p);
        assert(parts[p].wf());
        assert(projected(parts[p], exprs, schema) == Ok::<BatchView, ErrorView>(next[p]));
        a_projection_carries_rows(whole, parts[p], exprs, schema);
    }
    carrying_parts(parts, next, f, parts.len() as int);
    carrying_the_same_rows(all_rows(parts), result_rows(whole), f);
}

// ---- the plan over the join

/// A join, with what its sides give, in one place and dealt to partitions.
pub ghost struct SpreadJoin {
    pub join: JoinView,
    pub count: u32,
    pub left_parts: Seq<Seq<BatchView>>,
    pub right_parts: Seq<Seq<BatchView>>,
}

impl SpreadJoin {
    pub open spec fn wf(self) -> bool {
        let (lefts, rights) = self.join.places();
        &&& self.join.wf()
        &&& self.join.has_plain_keys()
        &&& self.count > 0
        &&& are_dealt(
            self.left_parts,
            all_rows(self.join.lefts),
            lefts,
            self.count,
            self.join.left,
        )
        &&& are_dealt(
            self.right_parts,
            all_rows(self.join.rights),
            rights,
            self.count,
            self.join.right,
        )
    }

    /// Whether this is the join of a plan over some tables.
    pub open spec fn is_of(self, plan: PhysicalView, tables: Seq<NamedTableView>) -> bool {
        &&& plan matches PhysicalView::HashJoin {
            left,
            right,
            join_type,
            left_on,
            right_on,
            schema,
            ..
        }
        &&& is_partition_local(*left)
        &&& is_partition_local(*right)
        &&& local_result(*left, tables, None) == Ok::<Seq<BatchView>, ErrorView>(self.join.lefts)
        &&& local_result(*right, tables, None) == Ok::<Seq<BatchView>, ErrorView>(self.join.rights)
        &&& self.join.left == left.schema()
        &&& self.join.right == right.schema()
        &&& self.join.join_type == join_type
        &&& self.join.left_on == left_on
        &&& self.join.right_on == right_on
        &&& self.join.schema == schema
    }

    /// Whether the tables of each partition hold what was dealt to it.
    pub open spec fn is_read_from(self, inputs: Seq<Seq<NamedTableView>>) -> bool {
        &&& inputs.len() == self.count
        &&& forall|p: int|
            0 <= p < self.count ==> {
                &&& holds_stage(#[trigger] inputs[p], StageId(0), self.left_parts[p])
                &&& holds_stage(inputs[p], StageId(1), self.right_parts[p])
            }
    }
}

/// Whether some tables hold the input of a stage.
pub open spec fn holds_stage(
    tables: Seq<NamedTableView>,
    stage: StageId,
    batches: Seq<BatchView>,
) -> bool {
    table_place(tables, stage_input_name(stage), 0) matches Ok(place)
        && tables[place].table.partitions == seq![batches]
}

proof fn scanning_even_batches(batches: Seq<BatchView>, schema: SchemaView, upto: int)
    requires
        all_even(batches, schema),
        0 <= upto <= batches.len(),
    ensures
        scanned_batches(Seq::empty(), batches, Seq::empty(), schema, upto) matches Ok(all) ==> all
            == batches.take(upto),
    decreases upto,
{
    if upto > 0 {
        scanning_even_batches(batches, schema, upto - 1);
        let batch = batches[upto - 1];
        assert(is_even(batches[upto - 1], schema));
        if let Ok(one) = scanned_batch(batch, Seq::empty(), schema) {
            assert(one == batch);
        }
        assert(batches.take(upto) =~= batches.take(upto - 1).push(batch));
    } else {
        assert(batches.take(0) =~= Seq::<BatchView>::empty());
    }
}

proof fn all_batches_are_read(batches: Seq<BatchView>, upto: int)
    requires
        0 <= upto <= batches.len(),
    ensures
        projected_batches(batches, None, upto) == Ok::<Seq<BatchView>, ErrorView>(
            batches.take(upto),
        ),
    decreases upto,
{
    if upto > 0 {
        all_batches_are_read(batches, upto - 1);
        assert(batches.take(upto) =~= batches.take(upto - 1).push(batches[upto - 1]));
    } else {
        assert(batches.take(0) =~= Seq::<BatchView>::empty());
    }
}

/// The scan of a stage's input gives what arrived.
proof fn a_dependency_is_read(
    side: PhysicalView,
    stage: StageId,
    tables: Seq<NamedTableView>,
    batches: Seq<BatchView>,
    trace: Trace,
)
    requires
        holds_stage(tables, stage, batches),
        all_even(batches, side.schema()),
        runs(dependency_scan(side, stage), tables, Some(0usize), trace),
        trace.result() is Ok,
    ensures
        trace.result() == Ok::<Seq<BatchView>, ErrorView>(batches),
{
    let count = batches.len() as int;
    all_batches_are_read(batches, count);
    scanning_even_batches(batches, side.schema(), count);
    assert(batches.take(count) =~= batches);
}

proof fn a_local_trace(
    plan: PhysicalView,
    tables: Seq<NamedTableView>,
    trace: Trace,
)
    requires
        is_partition_local(plan),
        runs(plan, tables, None, trace),
    ensures
        trace.result() == local_result(plan, tables, None),
{
    assert(produces(plan, tables, None, trace.result()));
    local_plans_are_settled(plan, tables, None, trace.result());
}

/// The join itself.
#[verifier::rlimit(40)]
proof fn the_join_holds_together(
    plan: PhysicalView,
    query: Seq<char>,
    s: SpreadJoin,
    tables: Seq<NamedTableView>,
    inputs: Seq<Seq<NamedTableView>>,
    trace: Trace,
    traces: Seq<Trace>,
)
    requires
        plan is HashJoin,
        rewritten(plan, query) is Ok,
        s.wf(),
        s.is_of(plan, tables),
        s.is_read_from(inputs),
        runs(plan, tables, None, trace),
        trace.result() is Ok,
        traces.len() == inputs.len(),
        forall|p: int|
            0 <= p < traces.len() ==> runs(
                rewritten(plan, query)->Ok_0.0,
                inputs[p],
                Some(0usize),
                #[trigger] traces[p],
            ) && traces[p].result() is Ok,
    ensures
        trace.result()->Ok_0.len() == 1,
        forall|p: int|
            0 <= p < traces.len() ==> (#[trigger] traces[p]).result()->Ok_0.len() == 1,
        hold_together(batches_given(traces), trace.result()->Ok_0[0]),
{
    let parts = batches_given(traces);
    let whole = trace.result()->Ok_0[0];
    let j = s.join;
    let left = *plan->HashJoin_left;
    let right = *plan->HashJoin_right;
    let below_left = *trace->Join_left;
    let below_right = *trace->Join_right;
    a_local_trace(left, tables, below_left);
    a_local_trace(right, tables, below_right);
    let one = joined(j.lefts, j.rights, j.join_type, j.left_on, j.right_on, j.schema);
    assert(trace.result()->Ok_0 == seq![one->Ok_0]);
    assert(trace.result()->Ok_0[0].wf());
    assert forall|p: int| 0 <= p < traces.len() implies {
        &&& joined(
            s.left_parts[p],
            s.right_parts[p],
            j.join_type,
            j.left_on,
            j.right_on,
            j.schema,
        ) == Ok::<BatchView, ErrorView>(#[trigger] parts[p])
        &&& traces[p].result()->Ok_0.len() == 1
        &&& parts[p].wf()
    } by {
        let own = traces[p];
        assert(runs(rewritten(plan, query)->Ok_0.0, inputs[p], Some(0usize), traces[p]));
        assert(holds_stage(inputs[p], StageId(0), s.left_parts[p]));
        assert(all_even(s.left_parts[p], j.left));
        assert(all_even(s.right_parts[p], j.right));
        a_dependency_is_read(left, StageId(0), inputs[p], s.left_parts[p], *own->Join_left);
        a_dependency_is_read(right, StageId(1), inputs[p], s.right_parts[p], *own->Join_right);
        let here = joined(
            s.left_parts[p],
            s.right_parts[p],
            j.join_type,
            j.left_on,
            j.right_on,
            j.schema,
        );
        assert(own.result()->Ok_0 == seq![here->Ok_0]);
        assert(own.result()->Ok_0[0].wf());
    }
    assert forall|p: int| 0 <= p < traces.len() implies (
    #[trigger] traces[p]).result()->Ok_0.len() == 1 by {
        assert(parts[p] == parts[p]);
    }
    dealt_joins_give_all(j, s.count, s.left_parts, s.right_parts, whole, parts, s.count as int);
    assert forall|p: int| 0 <= p < parts.len() implies (#[trigger] parts[p]).wf()
        && parts[p].schema == whole.schema by {
        assert(traces[p].result()->Ok_0.len() == 1);
    }
}

/// What a filter or a projection makes of a batch.
pub open spec fn step_on(plan: PhysicalView, batch: BatchView) -> Result<BatchView, ErrorView> {
    match plan {
        PhysicalView::Filter { predicate, .. } => filtered(batch, predicate),
        PhysicalView::Projection { exprs, schema, .. } => projected(batch, exprs, schema),
        _ => Ok(batch),
    }
}

proof fn one_step(
    plan: PhysicalView,
    tables: Seq<NamedTableView>,
    partition: Option<usize>,
    trace: Trace,
)
    requires
        plan is Filter || plan is Projection,
        runs(plan, tables, partition, trace),
        trace.result() is Ok,
    ensures
        trace is Step,
        runs(input_of(plan), tables, partition, *trace->Step_input),
        trace->Step_input.result() is Ok,
        trace->Step_input.result()->Ok_0.len() == 1 ==> {
            &&& trace.result()->Ok_0.len() == 1
            &&& step_on(plan, trace->Step_input.result()->Ok_0[0]) == Ok::<BatchView, ErrorView>(
                trace.result()->Ok_0[0],
            )
            &&& trace.result()->Ok_0[0].wf()
        },
{
    let input = *trace->Step_input;
    if input.result()->Ok_0.len() == 1 {
        let batch = input.result()->Ok_0[0];
        assert(input.result()->Ok_0 =~= seq![batch]);
        reveal_with_fuel(all_filtered, 2);
        reveal_with_fuel(all_projected, 2);
        let result = trace.result()->Ok_0;
        assert(result =~= seq![step_on(plan, batch)->Ok_0]);
        assert(result[0].wf());
    }
}

proof fn steps_hold_together(
    plan: PhysicalView,
    parts: Seq<BatchView>,
    whole: BatchView,
    next: Seq<BatchView>,
    result: BatchView,
)
    requires
        plan is Filter || plan is Projection,
        hold_together(parts, whole),
        step_on(plan, whole) == Ok::<BatchView, ErrorView>(result),
        result.wf(),
        next.len() == parts.len(),
        forall|p: int|
            0 <= p < parts.len() ==> step_on(plan, parts[p]) == Ok::<BatchView, ErrorView>(
                #[trigger] next[p],
            ) && next[p].wf(),
    ensures
        hold_together(next, result),
{
    if let PhysicalView::Filter { predicate, .. } = plan {
        filtering_parts(parts, whole, predicate, next, result);
    } else {
        projecting_parts(
            parts,
            whole,
            plan->Projection_exprs,
            plan->Projection_schema,
            next,
            result,
        );
    }
}

/// What filters and projections over the join give holds together as what the join gives does.
proof fn the_plan_holds_together(
    plan: PhysicalView,
    query: Seq<char>,
    s: SpreadJoin,
    tables: Seq<NamedTableView>,
    inputs: Seq<Seq<NamedTableView>>,
    trace: Trace,
    traces: Seq<Trace>,
)
    requires
        rewritten(plan, query) is Ok,
        s.wf(),
        s.is_of(join_of(plan), tables),
        s.is_read_from(inputs),
        runs(plan, tables, None, trace),
        trace.result() is Ok,
        traces.len() == inputs.len(),
        forall|p: int|
            0 <= p < traces.len() ==> runs(
                rewritten(plan, query)->Ok_0.0,
                inputs[p],
                Some(0usize),
                #[trigger] traces[p],
            ) && traces[p].result() is Ok,
    ensures
        trace.result()->Ok_0.len() == 1,
        forall|p: int|
            0 <= p < traces.len() ==> (#[trigger] traces[p]).result()->Ok_0.len() == 1,
        hold_together(batches_given(traces), trace.result()->Ok_0[0]),
    decreases plan,
{
    if plan is HashJoin {
        the_join_holds_together(plan, query, s, tables, inputs, trace, traces);
    } else {
        let below = input_of(plan);
        let down = rewritten(plan, query)->Ok_0.0;
        let input = *trace->Step_input;
        let others = Seq::new(traces.len(), |p: int| *traces[p]->Step_input);
        one_step(plan, tables, None, trace);
        assert forall|p: int| 0 <= p < others.len() implies runs(
            rewritten(below, query)->Ok_0.0,
            inputs[p],
            Some(0usize),
            #[trigger] others[p],
        ) && others[p].result() is Ok by {
            assert(runs(down, inputs[p], Some(0usize), traces[p]));
            one_step(down, inputs[p], Some(0usize), traces[p]);
        }
        the_plan_holds_together(below, query, s, tables, inputs, input, others);
        let parts = batches_given(others);
        let next = batches_given(traces);
        assert forall|p: int| 0 <= p < traces.len() implies {
            &&& step_on(plan, parts[p]) == Ok::<BatchView, ErrorView>(#[trigger] next[p])
            &&& next[p].wf()
            &&& traces[p].result()->Ok_0.len() == 1
        } by {
            assert(runs(down, inputs[p], Some(0usize), traces[p]));
            assert(others[p].result()->Ok_0.len() == 1);
            one_step(down, inputs[p], Some(0usize), traces[p]);
        }
        steps_hold_together(
            plan,
            parts,
            input.result()->Ok_0[0],
            next,
            trace.result()->Ok_0[0],
        );
        assert forall|p: int| 0 <= p < traces.len() implies (
        #[trigger] traces[p]).result()->Ok_0.len() == 1 by {
            assert(next[p].wf());
        }
    }
}

// ---- what arrives

/// What the first `upto` tasks of a stage put out for a partition, one after the other.
pub open spec fn collected(
    outputs: Seq<Seq<PartitionView>>,
    partition: int,
    upto: int,
) -> Seq<BatchView>
    decreases upto,
{
    if upto <= 0 {
        Seq::empty()
    } else {
        collected(outputs, partition, upto - 1) + outputs[upto - 1][partition].batches
    }
}

/// The blocks of what each task of a stage put out, as a coordinator lists them.
pub open spec fn are_published(
    stage: StageState,
    outputs: Seq<Seq<PartitionView>>,
    schema: SchemaView,
    content: spec_fn(ShuffleBlockView) -> (SchemaView, Seq<BatchView>),
) -> bool {
    &&& stage.partitions.len() == outputs.len()
    &&& forall|t: int|
        0 <= t < outputs.len() ==> (#[trigger] stage.partitions[t]) is Succeeded && are_blocks(
            stage.partitions[t]->output_blocks,
            outputs[t],
            stage.plan.stage_id,
            schema,
            content,
        )
}

/// Whether blocks hold what a task put out, one for each partition.
pub open spec fn are_blocks(
    blocks: Seq<ShuffleBlockView>,
    outputs: Seq<PartitionView>,
    stage: StageId,
    schema: SchemaView,
    content: spec_fn(ShuffleBlockView) -> (SchemaView, Seq<BatchView>),
) -> bool {
    &&& blocks.len() == outputs.len()
    &&& forall|k: int|
        0 <= k < blocks.len() ==> {
            &&& (#[trigger] blocks[k]).producer.stage_id == stage
            &&& blocks[k].output_partition == outputs[k].partition
            &&& content(blocks[k]) == (schema, outputs[k].batches)
        }
}

/// The inputs of a task after the first `upto` of some blocks arrived.
pub open spec fn arrived(
    start: Seq<StageInputView>,
    blocks: Seq<ShuffleBlockView>,
    content: spec_fn(ShuffleBlockView) -> (SchemaView, Seq<BatchView>),
    upto: int,
) -> Seq<StageInputView>
    decreases upto,
{
    if upto <= 0 {
        start
    } else {
        let block = blocks[upto - 1];
        admitted(
            arrived(start, blocks, content, upto - 1),
            block.producer.stage_id,
            content(block).0,
            content(block).1,
        )
    }
}

/// The batches in those of the first `upto` blocks that come from a stage and are for a partition.
pub open spec fn sent_to(
    blocks: Seq<ShuffleBlockView>,
    content: spec_fn(ShuffleBlockView) -> (SchemaView, Seq<BatchView>),
    stage: StageId,
    partition: PartitionId,
    upto: int,
) -> Seq<BatchView>
    decreases upto,
{
    if upto <= 0 {
        Seq::empty()
    } else {
        let before = sent_to(blocks, content, stage, partition, upto - 1);
        let block = blocks[upto - 1];
        if block.producer.stage_id == stage && block.output_partition == partition {
            before + content(block).1
        } else {
            before
        }
    }
}

proof fn sent_of_a_prefix(
    a: Seq<ShuffleBlockView>,
    b: Seq<ShuffleBlockView>,
    content: spec_fn(ShuffleBlockView) -> (SchemaView, Seq<BatchView>),
    stage: StageId,
    partition: PartitionId,
    upto: int,
)
    requires
        upto <= a.len(),
        upto <= b.len(),
        forall|i: int| 0 <= i < upto ==> a[i] == b[i],
    ensures
        sent_to(a, content, stage, partition, upto) == sent_to(b, content, stage, partition, upto),
    decreases upto,
{
    if upto > 0 {
        sent_of_a_prefix(a, b, content, stage, partition, upto - 1);
    }
}

proof fn sent_of_two(
    a: Seq<ShuffleBlockView>,
    b: Seq<ShuffleBlockView>,
    content: spec_fn(ShuffleBlockView) -> (SchemaView, Seq<BatchView>),
    stage: StageId,
    partition: PartitionId,
    upto: int,
)
    requires
        0 <= upto <= b.len(),
    ensures
        sent_to(a + b, content, stage, partition, a.len() + upto) == sent_to(
            a,
            content,
            stage,
            partition,
            a.len() as int,
        ) + sent_to(b, content, stage, partition, upto),
    decreases upto,
{
    let first = sent_to(a, content, stage, partition, a.len() as int);
    if upto > 0 {
        sent_of_two(a, b, content, stage, partition, upto - 1);
        assert((a + b)[a.len() + upto - 1] == b[upto - 1]);
        let before = sent_to(b, content, stage, partition, upto - 1);
        let more = content(b[upto - 1]).1;
        assert((first + before) + more =~= first + (before + more));
    } else {
        sent_of_a_prefix(a + b, a, content, stage, partition, a.len() as int);
        assert(first + Seq::<BatchView>::empty() =~= first);
    }
}

/// What a task of one stage sent to a partition.
proof fn one_task_sent(
    blocks: Seq<ShuffleBlockView>,
    outputs: Seq<PartitionView>,
    own: StageId,
    schema: SchemaView,
    content: spec_fn(ShuffleBlockView) -> (SchemaView, Seq<BatchView>),
    stage: StageId,
    partition: int,
    upto: int,
)
    requires
        are_blocks(blocks, outputs, own, schema, content),
        forall|k: int|
            0 <= k < outputs.len() ==> (#[trigger] outputs[k]).partition == PartitionId(k as u32),
        outputs.len() <= u32::MAX,
        0 <= partition < outputs.len(),
        0 <= upto <= blocks.len(),
    ensures
        sent_to(blocks, content, stage, PartitionId(partition as u32), upto) == if own == stage
            && partition < upto {
            outputs[partition].batches
        } else {
            Seq::empty()
        },
    decreases upto,
{
    if upto > 0 {
        one_task_sent(blocks, outputs, own, schema, content, stage, partition, upto - 1);
        let k = upto - 1;
        assert(blocks[k].producer.stage_id == own);
        assert(outputs[k].partition == PartitionId(k as u32));
        assert(Seq::<BatchView>::empty() + outputs[k].batches =~= outputs[k].batches);
    }
}

/// Whether what each task of a stage put out is for the partitions in order.
pub open spec fn outputs_are_in_order(outputs: Seq<Seq<PartitionView>>, count: u32) -> bool {
    forall|t: int|
        0 <= t < outputs.len() ==> (#[trigger] outputs[t]).len() == count && forall|k: int|
            0 <= k < count ==> (#[trigger] outputs[t][k]).partition == PartitionId(k as u32)
}

/// What a stage sent to a partition.
proof fn a_stage_sent(
    state: StageState,
    outputs: Seq<Seq<PartitionView>>,
    schema: SchemaView,
    content: spec_fn(ShuffleBlockView) -> (SchemaView, Seq<BatchView>),
    count: u32,
    stage: StageId,
    partition: int,
    upto: int,
)
    requires
        are_published(state, outputs, schema, content),
        outputs_are_in_order(outputs, count),
        0 <= partition < count,
        0 <= upto <= outputs.len(),
    ensures
        ({
            let blocks = state.output_blocks(upto);
            sent_to(
                blocks,
                content,
                stage,
                PartitionId(partition as u32),
                blocks.len() as int,
            ) == if state.plan.stage_id == stage {
                collected(outputs, partition, upto)
            } else {
                Seq::empty()
            }
        }),
    decreases upto,
{
    if upto > 0 {
        a_stage_sent(
            state,
            outputs,
            schema,
            content,
            count,
            stage,
            partition,
            upto - 1,
        );
        let t = upto - 1;
        assert(state.partitions[t] is Succeeded);
        let own = state.partitions[t]->output_blocks;
        assert(outputs[t].len() == count);
        assert forall|k: int| 0 <= k < outputs[t].len() implies (
        #[trigger] outputs[t][k]).partition == PartitionId(k as u32) by {}
        one_task_sent(
            own,
            outputs[t],
            state.plan.stage_id,
            schema,
            content,
            stage,
            partition,
            own.len() as int,
        );
        let before = state.output_blocks(upto - 1);
        assert(state.output_blocks(upto) == before + own);
        sent_of_two(
            before,
            own,
            content,
            stage,
            PartitionId(partition as u32),
            own.len() as int,
        );
        assert(Seq::<BatchView>::empty() + Seq::<BatchView>::empty() =~= Seq::<
            BatchView,
        >::empty());
    }
}

/// The inputs of the third stage are those of the first two.
pub open spec fn both_stages() -> Seq<StageId> {
    seq![StageId(0), StageId(1)]
}

proof fn what_arrives(
    blocks: Seq<ShuffleBlockView>,
    content: spec_fn(ShuffleBlockView) -> (SchemaView, Seq<BatchView>),
    partition: PartitionId,
    upto: int,
)
    requires
        0 <= upto <= blocks.len(),
        forall|i: int|
            0 <= i < blocks.len() ==> (#[trigger] blocks[i]).producer.stage_id == StageId(0)
                || blocks[i].producer.stage_id == StageId(1),
    ensures
        ({
            let read = blocks_read(blocks, Some(partition), upto);
            let inputs = arrived(no_inputs(both_stages()), read, content, read.len() as int);
            &&& inputs.len() == 2
            &&& inputs[0].stage_id == StageId(0)
            &&& inputs[1].stage_id == StageId(1)
            &&& inputs[0].batches == sent_to(blocks, content, StageId(0), partition, upto)
            &&& inputs[1].batches == sent_to(blocks, content, StageId(1), partition, upto)
        }),
    decreases upto,
{
    reveal_with_fuel(input_place, 3);
    if upto > 0 {
        what_arrives(blocks, content, partition, upto - 1);
        let block = blocks[upto - 1];
        let before = blocks_read(blocks, Some(partition), upto - 1);
        let start = no_inputs(both_stages());
        assert(block.producer.stage_id == StageId(0) || block.producer.stage_id == StageId(1));
        if block.output_partition == partition {
            arriving_reads_a_prefix(
                start,
                before.push(block),
                before,
                content,
                before.len() as int,
            );
        }
    }
}

proof fn arriving_reads_a_prefix(
    start: Seq<StageInputView>,
    a: Seq<ShuffleBlockView>,
    b: Seq<ShuffleBlockView>,
    content: spec_fn(ShuffleBlockView) -> (SchemaView, Seq<BatchView>),
    upto: int,
)
    requires
        upto <= a.len(),
        upto <= b.len(),
        forall|i: int| 0 <= i < upto ==> a[i] == b[i],
    ensures
        arrived(start, a, content, upto) == arrived(start, b, content, upto),
    decreases upto,
{
    if upto > 0 {
        arriving_reads_a_prefix(start, a, b, content, upto - 1);
    }
}

proof fn names_of_stages_differ()
    ensures
        small_letters(stage_input_name(StageId(0))) != small_letters(stage_input_name(StageId(1))),
        !blank(stage_input_name(StageId(0))),
        !blank(stage_input_name(StageId(1))),
{
    let prefix = "__sparkx_stage_input_"@;
    reveal_strlit("__sparkx_stage_input_");
    let a = stage_input_name(StageId(0));
    let b = stage_input_name(StageId(1));
    assert(numeral(0).len() == 1 && numeral(1).len() == 1);
    assert(a.len() == prefix.len() + 1);
    assert(a[prefix.len() as int] == '0');
    assert(b[prefix.len() as int] == '1');
    assert(small_letters(a)[prefix.len() as int] == '0');
    assert(small_letters(b)[prefix.len() as int] == '1');
    assert(!white_space(a[0]));
    assert(!white_space(b[0]));
}

proof fn tables_go_on(
    base: Seq<NamedTableView>,
    more: Seq<NamedTableView>,
    name: Seq<char>,
    from: int,
)
    requires
        0 <= from <= base.len(),
        table_place(base, name, from) is Err,
    ensures
        table_place(base + more, name, from) == table_place(base + more, name, base.len() as int),
    decreases base.len() - from,
{
    if from < base.len() {
        assert((base + more)[from] == base[from]);
        tables_go_on(base, more, name, from + 1);
    }
}

/// The tables of a task hold what arrived for it.
proof fn inputs_become_tables(
    inputs: Seq<StageInputView>,
    base: Seq<NamedTableView>,
    tables: Seq<NamedTableView>,
)
    requires
        inputs.len() == 2,
        inputs[0].stage_id == StageId(0),
        inputs[1].stage_id == StageId(1),
        table_place(base, stage_input_name(StageId(0)), 0) is Err,
        table_place(base, stage_input_name(StageId(1)), 0) is Err,
        input_tables(inputs, base, 2) == Ok::<Seq<NamedTableView>, ErrorView>(tables),
    ensures
        holds_stage(tables, StageId(0), inputs[0].batches),
        holds_stage(tables, StageId(1), inputs[1].batches),
{
    reveal_with_fuel(input_tables, 3);
    names_of_stages_differ();
    let first = tables[base.len() as int];
    let second = tables[base.len() + 1int];
    let more = seq![first, second];
    assert(tables =~= base + more);
    tables_go_on(base, more, stage_input_name(StageId(0)), 0);
    tables_go_on(base, more, stage_input_name(StageId(1)), 0);
    reveal_with_fuel(table_place, 3);
}

// ---- the stages

/// Whether a task of a stage has put out what it says, over some tables.
#[verifier::opaque]
pub open spec fn task_succeeds(
    stage: StagePlanView,
    partition: int,
    catalog: Map<Seq<char>, TableView>,
    tables: Seq<NamedTableView>,
    outputs: Seq<PartitionView>,
) -> bool {
    exists|task: TaskAttemptView, memory: MemoryView, before: MetricsView, after: MetricsView|
        task.partition_id == PartitionId(partition as u32) && #[trigger] task_gives(
            stage,
            task,
            catalog,
            tables,
            memory,
            false,
            before,
            Ok(outputs),
            after,
        )
}

/// The stages of a plan with a join, and what its join is.
proof fn the_stages_of_a_join(plan: PhysicalView, query: Seq<char>)
    requires
        rewritten(plan, query) is Ok,
    ensures
        ({
            let (down, stages) = rewritten(plan, query)->Ok_0;
            let join = join_of(plan);
            &&& join is HashJoin
            &&& producers(
                query,
                *join->HashJoin_left,
                *join->HashJoin_right,
                join->HashJoin_left_on,
                join->HashJoin_right_on,
            ) == Ok::<Seq<StagePlanView>, ErrorView>(stages)
        }),
    decreases plan,
{
    match plan {
        PhysicalView::Projection { input, .. } => the_stages_of_a_join(*input, query),
        PhysicalView::Filter { input, .. } => the_stages_of_a_join(*input, query),
        _ => {},
    }
}

proof fn local_sides(plan: PhysicalView)
    requires
        local_partitions(plan) is Ok,
    ensures
        is_partition_local(plan),
        local_partitions(plan)->Ok_0 > 0,
    decreases plan,
{
    match plan {
        PhysicalView::Projection { input, .. } => local_sides(*input),
        PhysicalView::Filter { input, .. } => local_sides(*input),
        _ => {},
    }
}

proof fn the_join_is_transportable(plan: PhysicalView, catalog: Map<Seq<char>, TableView>)
    requires
        transportable(plan, catalog),
    ensures
        transportable(join_of(plan), catalog),
    decreases plan,
{
    match plan {
        PhysicalView::Projection { input, .. } => the_join_is_transportable(*input, catalog),
        PhysicalView::Filter { input, .. } => the_join_is_transportable(*input, catalog),
        _ => {},
    }
}

proof fn fields_match_themselves(table: Seq<char>, fields: Seq<FieldView>, from: int)
    requires
        0 <= from <= fields.len(),
    ensures
        scan_fields_check(table, fields, fields, from) is Ok,
    decreases fields.len() - from,
{
    if from < fields.len() {
        fields_match_themselves(table, fields, from + 1);
    }
}

/// Whether a catalog describes what arrives of a stage.
pub open spec fn describes(
    catalog: Map<Seq<char>, TableView>,
    stage: StageId,
    schema: SchemaView,
) -> bool {
    find_table(catalog, stage_input_name(stage)) == Ok::<TableView, ErrorView>(
        TableView { schema, partition_count: 1 },
    )
}

proof fn a_dependency_is_transportable(
    side: PhysicalView,
    stage: StageId,
    other: Map<Seq<char>, TableView>,
)
    requires
        crate::plan_codec::schemas::schema_wf(side.schema()),
        describes(other, stage, side.schema()),
        !blank(stage_input_name(stage)),
    ensures
        transportable(dependency_scan(side, stage), other),
{
    let schema = side.schema();
    fields_match_themselves(stage_input_name(stage), schema.fields, 0);
    assert(scan_check(stage_input_name(stage), schema, None, schema) is Ok);
}

proof fn an_operator_is_transportable(
    plan: PhysicalView,
    other: PhysicalView,
    catalog: Map<Seq<char>, TableView>,
    another: Map<Seq<char>, TableView>,
)
    requires
        transportable(plan, catalog),
        plan matches PhysicalView::Projection { id, input, exprs, schema } ==> (
        other matches PhysicalView::Projection { input: below, exprs: kept, schema: same, .. }
            && kept == exprs && same == schema && below.schema() == input.schema()
            && transportable(*below, another)),
        plan matches PhysicalView::Filter { id, input, predicate, schema } ==> (
        other matches PhysicalView::Filter { input: below, predicate: kept, schema: same, .. }
            && kept == predicate && same == schema && below.schema() == input.schema()
            && transportable(*below, another)),
        plan is Projection || plan is Filter,
    ensures
        transportable(other, another),
        other.schema() == plan.schema(),
{
}

proof fn sides_are_transportable(plan: PhysicalView, catalog: Map<Seq<char>, TableView>)
    requires
        plan is HashJoin,
        transportable(plan, catalog),
    ensures
        transportable(*plan->HashJoin_left, catalog),
        transportable(*plan->HashJoin_right, catalog),
        crate::plan_codec::schemas::schema_wf(plan->HashJoin_left.schema()),
        crate::plan_codec::schemas::schema_wf(plan->HashJoin_right.schema()),
        plan->HashJoin_schema == join_schema(
            plan->HashJoin_left.schema(),
            plan->HashJoin_right.schema(),
            plan->HashJoin_join_type,
        ),
{
    reveal_with_fuel(transportable, 2);
}

proof fn a_join_is_transportable(
    plan: PhysicalView,
    query: Seq<char>,
    catalog: Map<Seq<char>, TableView>,
    other: Map<Seq<char>, TableView>,
)
    requires
        plan is HashJoin,
        rewritten(plan, query) is Ok,
        transportable(plan, catalog),
        describes(other, StageId(0), plan->HashJoin_left.schema()),
        describes(other, StageId(1), plan->HashJoin_right.schema()),
    ensures
        transportable(rewritten(plan, query)->Ok_0.0, other),
        rewritten(plan, query)->Ok_0.0.schema() == plan.schema(),
{
    names_of_stages_differ();
    sides_are_transportable(plan, catalog);
    a_dependency_is_transportable(*plan->HashJoin_left, StageId(0), other);
    a_dependency_is_transportable(*plan->HashJoin_right, StageId(1), other);
}

/// The plan of the third stage can be sent where that of the whole can.
proof fn the_rest_is_transportable(
    plan: PhysicalView,
    query: Seq<char>,
    catalog: Map<Seq<char>, TableView>,
    other: Map<Seq<char>, TableView>,
)
    requires
        rewritten(plan, query) is Ok,
        transportable(plan, catalog),
        describes(other, StageId(0), join_of(plan)->HashJoin_left.schema()),
        describes(other, StageId(1), join_of(plan)->HashJoin_right.schema()),
    ensures
        transportable(rewritten(plan, query)->Ok_0.0, other),
        rewritten(plan, query)->Ok_0.0.schema() == plan.schema(),
    decreases plan,
{
    let down = rewritten(plan, query)->Ok_0.0;
    if plan is HashJoin {
        a_join_is_transportable(plan, query, catalog, other);
    } else {
        the_rest_is_transportable(input_of(plan), query, catalog, other);
        an_operator_is_transportable(plan, down, catalog, other);
    }
}

/// What a task of a side gives: the rows of its partition, dealt by the key columns.
proof fn a_side_task(
    side: PhysicalView,
    query: Seq<char>,
    id: StageId,
    partitions: u32,
    exchange: HashExchangeView,
    stage: StagePlanView,
    partition: int,
    catalog: Map<Seq<char>, TableView>,
    tables: Seq<NamedTableView>,
    outputs: Seq<PartitionView>,
)
    requires
        is_partition_local(side),
        transportable(side, catalog),
        plan_fits(encoded_plan(side, 0)->Ok_0, (RECURSION_LIMIT - 1) as nat),
        stage_of(query, id, Seq::empty(), partitions, side) is Ok,
        stage == (StagePlanView {
            output_exchange: Some(exchange),
            ..stage_of(query, id, Seq::empty(), partitions, side)->Ok_0
        }),
        0 <= partition <= u32::MAX,
        task_succeeds(stage, partition, catalog, tables, outputs),
    ensures
        ({
            let rows = local_result(side, tables, Some(partition as usize));
            &&& rows is Ok
            &&& all_valid(rows->Ok_0)
            &&& all_have(rows->Ok_0, side.schema())
            &&& outputs_hold(
                outputs,
                all_rows(rows->Ok_0),
                exchange.columns,
                exchange.partition_count,
                side.schema(),
            )
        }),
{
    reveal(task_succeeds);
    let (task, memory, before, after) = choose|
        task: TaskAttemptView,
        memory: MemoryView,
        before: MetricsView,
        after: MetricsView,
    |
        task.partition_id == PartitionId(partition as u32) && #[trigger] task_gives(
            stage,
            task,
            catalog,
            tables,
            memory,
            false,
            before,
            Ok(outputs),
            after,
        );
    stage_runs_its_plan(query, id, Seq::empty(), partitions, side, catalog);
    let rows = choose|rows: Result<Seq<BatchView>, ErrorView>|
        #[trigger] meters(side, tables, Some(partition_read(stage, task)), before, rows, after)
            && match rows {
            Err(error) => Ok::<Seq<PartitionView>, ErrorView>(outputs) == Err::<
                Seq<PartitionView>,
                ErrorView,
            >(error),
            Ok(batches) => rows_sent(
                stage,
                task,
                side.schema(),
                batches,
                memory,
                false,
                Ok(outputs),
            ),
        };
    let at = Some(partition as usize);
    assert(partition_read(stage, task) == partition as usize);
    assert(produces(side, tables, at, rows));
    local_plans_are_settled(side, tables, at, rows);
    partitions_have_the_schema(side, catalog, tables, partition as usize);
    let batches = rows->Ok_0;
    valid_batches_are_even(batches, side.schema());
    let table = repartitioned(side.schema(), batches, exchange, memory, false)->Ok_0;
    batches_are_dealt(side.schema(), batches, exchange, memory, batches.len() as int);
}

proof fn rows_of_two_lists(a: Seq<BatchView>, b: Seq<BatchView>, upto: int)
    requires
        0 <= upto <= b.len(),
    ensures
        rows_in(a + b, a.len() + upto) == all_rows(a) + rows_in(b, upto),
    decreases upto,
{
    if upto > 0 {
        rows_of_two_lists(a, b, upto - 1);
        assert((a + b)[a.len() + upto - 1] == b[upto - 1]);
        let more = result_rows(b[upto - 1]);
        assert((all_rows(a) + rows_in(b, upto - 1)) + more =~= all_rows(a) + (rows_in(b, upto - 1)
            + more));
    } else {
        rows_of_a_prefix(a + b, a, a.len() as int);
        assert(all_rows(a) + Seq::<Seq<ColumnView>>::empty() =~= all_rows(a));
    }
}

/// What the tasks of a side put out for a partition are the rows of the side that are dealt to it.
proof fn a_side_is_dealt(
    outputs: Seq<Seq<PartitionView>>,
    lists: Seq<Seq<BatchView>>,
    places: Seq<usize>,
    count: u32,
    schema: SchemaView,
    partition: int,
    upto: int,
)
    requires
        outputs.len() == lists.len(),
        forall|t: int|
            0 <= t < lists.len() ==> outputs_hold(
                #[trigger] outputs[t],
                all_rows(lists[t]),
                places,
                count,
                schema,
            ),
        0 <= partition < count,
        0 <= upto <= lists.len(),
    ensures
        all_even(collected(outputs, partition, upto), schema),
        all_rows(collected(outputs, partition, upto)) == routed(
            all_rows(joined_lists(lists, upto)),
            places,
            count,
            partition,
        ),
    decreases upto,
{
    if upto > 0 {
        a_side_is_dealt(outputs, lists, places, count, schema, partition, upto - 1);
        let before = collected(outputs, partition, upto - 1);
        let more = outputs[upto - 1][partition].batches;
        let list = lists[upto - 1];
        let earlier = joined_lists(lists, upto - 1);
        assert(outputs_hold(outputs[upto - 1], all_rows(lists[upto - 1]), places, count, schema));
        rows_of_two_lists(before, more, more.len() as int);
        rows_of_two_lists(earlier, list, list.len() as int);
        routed_of_two(all_rows(earlier), all_rows(list), places, count, partition);
        let all = before + more;
        assert forall|i: int| 0 <= i < all.len() implies is_even(#[trigger] all[i], schema) by {
            if i < before.len() {
                assert(is_even(before[i], schema));
            } else {
                assert(is_even(more[i - before.len()], schema));
            }
        }
    }
}

proof fn joined_lists_are_valid(lists: Seq<Seq<BatchView>>, schema: SchemaView, upto: int)
    requires
        0 <= upto <= lists.len(),
        forall|t: int|
            0 <= t < lists.len() ==> all_valid(#[trigger] lists[t]) && all_have(lists[t], schema),
    ensures
        all_valid(joined_lists(lists, upto)),
        all_have(joined_lists(lists, upto), schema),
    decreases upto,
{
    if upto > 0 {
        joined_lists_are_valid(lists, schema, upto - 1);
        assert(all_valid(lists[upto - 1]) && all_have(lists[upto - 1], schema));
        let before = joined_lists(lists, upto - 1);
        let all = joined_lists(lists, upto);
        assert forall|i: int| 0 <= i < all.len() implies (#[trigger] all[i]).wf() && all[i].schema
            == schema by {
            if i < before.len() {
                assert(all[i] == before[i]);
            } else {
                assert(all[i] == lists[upto - 1][i - before.len()]);
            }
        }
    }
}

proof fn joined_fields_count(
    left: Seq<FieldView>,
    right: Seq<FieldView>,
    join_type: JoinType,
    upto: int,
)
    requires
        0 <= upto,
    ensures
        joined_fields(left, right, join_type, upto).len() == left.len() + upto,
    decreases upto,
{
    if upto > 0 {
        joined_fields_count(left, right, join_type, upto - 1);
    }
}

/// A query with a join that workers have run: what the tasks of its three stages put out, the blocks
/// that carried it, and what arrived of them at the tasks of the third stage.
pub ghost struct RemoteRun {
    pub plan: PhysicalView,
    pub query: Seq<char>,
    pub stages: Seq<StagePlanView>,
    /// What every worker knows of tables, and the tables.
    pub catalog: Map<Seq<char>, TableView>,
    pub tables: Seq<NamedTableView>,
    /// What the tasks of the first two stages put out, and these stages as a coordinator has them.
    pub left_outputs: Seq<Seq<PartitionView>>,
    pub right_outputs: Seq<Seq<PartitionView>>,
    pub left_stage: StageState,
    pub right_stage: StageState,
    /// What a block carries.
    pub content: spec_fn(ShuffleBlockView) -> (SchemaView, Seq<BatchView>),
    /// What each task of the third stage knows of tables, its tables, and what it put out.
    pub catalogs: Seq<Map<Seq<char>, TableView>>,
    pub inputs: Seq<Seq<NamedTableView>>,
    pub outputs: Seq<Seq<PartitionView>>,
}

impl RemoteRun {
    pub open spec fn left(self) -> PhysicalView {
        *join_of(self.plan)->HashJoin_left
    }

    pub open spec fn right(self) -> PhysicalView {
        *join_of(self.plan)->HashJoin_right
    }

    /// The blocks that the first two stages have put out.
    pub open spec fn blocks(self) -> Seq<ShuffleBlockView> {
        self.left_stage.output_blocks(self.left_outputs.len() as int)
            + self.right_stage.output_blocks(self.right_outputs.len() as int)
    }

    /// The blocks that a task of the third stage reads.
    pub open spec fn read_by(self, partition: int) -> Seq<ShuffleBlockView> {
        blocks_read(
            self.blocks(),
            Some(PartitionId(partition as u32)),
            self.blocks().len() as int,
        )
    }

    /// The plan can be sent to workers, at which its tables are as it takes them to be.
    pub open spec fn is_sendable(self) -> bool {
        let limit = (RECURSION_LIMIT - 1) as nat;
        &&& remote_join(self.plan, self.query) == Ok::<Option<Seq<StagePlanView>>, ErrorView>(
            Some(self.stages),
        )
        &&& transportable(self.plan, self.catalog)
        &&& plan_fits(encoded_plan(self.left(), 0)->Ok_0, limit)
        &&& plan_fits(encoded_plan(self.right(), 0)->Ok_0, limit)
        &&& plan_fits(encoded_plan(rewritten(self.plan, self.query)->Ok_0.0, 0)->Ok_0, limit)
        &&& self.left().schema().fields.len() <= usize::MAX
        &&& self.right().schema().fields.len() <= usize::MAX
        &&& scanned_partitions(self.left(), self.tables) == Some(
            self.stages[0].partition_count as nat,
        )
        &&& scanned_partitions(self.right(), self.tables) == Some(
            self.stages[1].partition_count as nat,
        )
        &&& table_place(self.tables, stage_input_name(StageId(0)), 0) is Err
        &&& table_place(self.tables, stage_input_name(StageId(1)), 0) is Err
    }

    /// Every task has succeeded, and what it put out has arrived.
    pub open spec fn has_succeeded(self) -> bool {
        &&& self.left_outputs.len() == self.stages[0].partition_count
        &&& self.right_outputs.len() == self.stages[1].partition_count
        &&& self.outputs.len() == self.stages[2].partition_count
        &&& self.inputs.len() == self.outputs.len()
        &&& self.catalogs.len() == self.outputs.len()
        &&& forall|t: int|
            0 <= t < self.left_outputs.len() ==> task_succeeds(
                self.stages[0],
                t,
                self.catalog,
                self.tables,
                #[trigger] self.left_outputs[t],
            )
        &&& forall|t: int|
            0 <= t < self.right_outputs.len() ==> task_succeeds(
                self.stages[1],
                t,
                self.catalog,
                self.tables,
                #[trigger] self.right_outputs[t],
            )
        &&& self.left_stage.plan == self.stages[0]
        &&& self.right_stage.plan == self.stages[1]
        &&& are_published(
            self.left_stage,
            self.left_outputs,
            self.left().schema(),
            self.content,
        )
        &&& are_published(
            self.right_stage,
            self.right_outputs,
            self.right().schema(),
            self.content,
        )
        &&& forall|p: int|
            0 <= p < self.inputs.len() ==> input_tables(
                arrived(
                    no_inputs(self.stages[2].input_stages),
                    self.read_by(p),
                    self.content,
                    self.read_by(p).len() as int,
                ),
                self.tables,
                2,
            ) == Ok::<Seq<NamedTableView>, ErrorView>(#[trigger] self.inputs[p])
        &&& forall|p: int|
            0 <= p < self.catalogs.len() ==> describes(
                #[trigger] self.catalogs[p],
                StageId(0),
                self.left().schema(),
            ) && describes(self.catalogs[p], StageId(1), self.right().schema())
        &&& forall|p: int|
            0 <= p < self.outputs.len() ==> task_succeeds(
                self.stages[2],
                p,
                self.catalogs[p],
                self.inputs[p],
                #[trigger] self.outputs[p],
            )
    }

    /// What each partition of a side gives.
    pub open spec fn lists(self, side: PhysicalView, count: nat) -> Seq<Seq<BatchView>> {
        Seq::new(count, |t: int| local_result(side, self.tables, Some(t as usize))->Ok_0)
    }

    /// The join, in one place and spread.
    pub open spec fn spread(self) -> SpreadJoin {
        let join = join_of(self.plan);
        let lefts = self.lists(self.left(), self.left_outputs.len());
        let rights = self.lists(self.right(), self.right_outputs.len());
        let count = self.stages[2].partition_count;
        SpreadJoin {
            join: JoinView {
                lefts: joined_lists(lefts, lefts.len() as int),
                rights: joined_lists(rights, rights.len() as int),
                left: self.left().schema(),
                right: self.right().schema(),
                join_type: join->HashJoin_join_type,
                left_on: join->HashJoin_left_on,
                right_on: join->HashJoin_right_on,
                schema: join->HashJoin_schema,
            },
            count,
            left_parts: Seq::new(
                count as nat,
                |p: int| collected(self.left_outputs, p, self.left_outputs.len() as int),
            ),
            right_parts: Seq::new(
                count as nat,
                |p: int| collected(self.right_outputs, p, self.right_outputs.len() as int),
            ),
        }
    }

    /// The batches that the third stage put out.
    pub open spec fn result(self) -> Seq<BatchView> {
        collected(self.outputs, 0, self.outputs.len() as int)
    }
}

/// What the stages of a run are made of.
proof fn the_stages_of_a_run(run: RemoteRun)
    requires
        run.is_sendable(),
    ensures
        ({
            let join = join_of(run.plan);
            let (left, right) = (run.left(), run.right());
            let count = run.stages[2].partition_count;
            let places = key_columns(
                join->HashJoin_left_on,
                join->HashJoin_right_on,
                left.schema(),
                right.schema(),
                join->HashJoin_left_on.len() as int,
            );
            let first = stage_of(
                run.query,
                StageId(0),
                Seq::empty(),
                run.stages[0].partition_count,
                left,
            );
            let second = stage_of(
                run.query,
                StageId(1),
                Seq::empty(),
                run.stages[1].partition_count,
                right,
            );
            let third = stage_of(
                run.query,
                StageId(2),
                both_stages(),
                count,
                rewritten(run.plan, run.query)->Ok_0.0,
            );
            &&& join is HashJoin
            &&& rewritten(run.plan, run.query) is Ok
            &&& is_partition_local(left)
            &&& is_partition_local(right)
            &&& count > 0
            &&& places is Ok
            &&& join->HashJoin_left_on.len() > 0
            &&& join->HashJoin_left_on.len() == join->HashJoin_right_on.len()
            &&& first is Ok && second is Ok && third is Ok
            &&& run.stages.len() == 3
            &&& run.stages[0] == (StagePlanView {
                output_exchange: Some(
                    HashExchangeView { columns: places->Ok_0.0, partition_count: count },
                ),
                ..first->Ok_0
            })
            &&& run.stages[1] == (StagePlanView {
                output_exchange: Some(
                    HashExchangeView { columns: places->Ok_0.1, partition_count: count },
                ),
                ..second->Ok_0
            })
            &&& run.stages[2] == (StagePlanView { partitioned_input: true, ..third->Ok_0 })
        }),
{
    the_stages_of_a_join(run.plan, run.query);
    local_sides(run.left());
    local_sides(run.right());
}

/// What a side of a run gives in one place, and to each partition.
proof fn a_side_of_a_run(
    run: RemoteRun,
    side: PhysicalView,
    id: StageId,
    stage: StagePlanView,
    exchange: HashExchangeView,
    outputs: Seq<Seq<PartitionView>>,
)
    requires
        is_partition_local(side),
        transportable(side, run.catalog),
        plan_fits(encoded_plan(side, 0)->Ok_0, (RECURSION_LIMIT - 1) as nat),
        stage_of(run.query, id, Seq::empty(), stage.partition_count, side) is Ok,
        stage == (StagePlanView {
            output_exchange: Some(exchange),
            ..stage_of(run.query, id, Seq::empty(), stage.partition_count, side)->Ok_0
        }),
        outputs.len() == stage.partition_count,
        scanned_partitions(side, run.tables) == Some(stage.partition_count as nat),
        forall|t: int|
            0 <= t < outputs.len() ==> task_succeeds(
                stage,
                t,
                run.catalog,
                run.tables,
                #[trigger] outputs[t],
            ),
    ensures
        ({
            let lists = run.lists(side, outputs.len());
            let all = joined_lists(lists, lists.len() as int);
            let count = exchange.partition_count;
            &&& local_result(side, run.tables, None) == Ok::<Seq<BatchView>, ErrorView>(all)
            &&& all_valid(all)
            &&& all_have(all, side.schema())
            &&& outputs_are_in_order(outputs, count)
            &&& are_dealt(
                Seq::new(count as nat, |p: int| collected(outputs, p, outputs.len() as int)),
                all_rows(all),
                exchange.columns,
                count,
                side.schema(),
            )
        }),
{
    let lists = run.lists(side, outputs.len());
    let count = exchange.partition_count;
    let places = exchange.columns;
    let schema = side.schema();
    assert forall|t: int| 0 <= t < outputs.len() implies {
        &&& local_result(side, run.tables, Some(t as usize)) == Ok::<Seq<BatchView>, ErrorView>(
            #[trigger] lists[t],
        )
        &&& all_valid(lists[t])
        &&& all_have(lists[t], schema)
        &&& outputs_hold(outputs[t], all_rows(lists[t]), places, count, schema)
    } by {
        assert(task_succeeds(stage, t, run.catalog, run.tables, outputs[t]));
        a_side_task(
            side,
            run.query,
            id,
            stage.partition_count,
            exchange,
            stage,
            t,
            run.catalog,
            run.tables,
            outputs[t],
        );
    }
    partitions_make_the_whole(side, run.tables, lists);
    joined_lists_are_valid(lists, schema, lists.len() as int);
    assert forall|t: int| 0 <= t < lists.len() implies outputs_hold(
        #[trigger] outputs[t],
        all_rows(lists[t]),
        places,
        count,
        schema,
    ) by {
        assert(all_valid(lists[t]));
    }
    let all = joined_lists(lists, lists.len() as int);
    let parts = Seq::new(count as nat, |p: int| collected(outputs, p, outputs.len() as int));
    assert forall|p: int| 0 <= p < parts.len() implies all_even(#[trigger] parts[p], schema)
        && all_rows(parts[p]) == routed(all_rows(all), places, count, p) by {
        a_side_is_dealt(outputs, lists, places, count, schema, p, lists.len() as int);
    }
}

/// What both stages sent to a partition arrives in its tables.
proof fn what_both_stages_sent(
    left_stage: StageState,
    right_stage: StageState,
    left_outputs: Seq<Seq<PartitionView>>,
    right_outputs: Seq<Seq<PartitionView>>,
    left: SchemaView,
    right: SchemaView,
    content: spec_fn(ShuffleBlockView) -> (SchemaView, Seq<BatchView>),
    count: u32,
    stage: StageId,
    p: int,
)
    requires
        left_stage.plan.stage_id == StageId(0),
        right_stage.plan.stage_id == StageId(1),
        are_published(left_stage, left_outputs, left, content),
        are_published(right_stage, right_outputs, right, content),
        outputs_are_in_order(left_outputs, count),
        outputs_are_in_order(right_outputs, count),
        0 <= p < count,
        stage == StageId(0) || stage == StageId(1),
    ensures
        ({
            let blocks = left_stage.output_blocks(left_outputs.len() as int)
                + right_stage.output_blocks(right_outputs.len() as int);
            sent_to(blocks, content, stage, PartitionId(p as u32), blocks.len() as int) == (
            if stage == StageId(0) {
                collected(left_outputs, p, left_outputs.len() as int)
            } else {
                collected(right_outputs, p, right_outputs.len() as int)
            })
        }),
{
    let lefts = left_stage.output_blocks(left_outputs.len() as int);
    let rights = right_stage.output_blocks(right_outputs.len() as int);
    let none = Seq::<BatchView>::empty();
    a_stage_sent(
        left_stage,
        left_outputs,
        left,
        content,
        count,
        stage,
        p,
        left_outputs.len() as int,
    );
    a_stage_sent(
        right_stage,
        right_outputs,
        right,
        content,
        count,
        stage,
        p,
        right_outputs.len() as int,
    );
    sent_of_two(lefts, rights, content, stage, PartitionId(p as u32), rights.len() as int);
    let own = collected(left_outputs, p, left_outputs.len() as int);
    let other = collected(right_outputs, p, right_outputs.len() as int);
    assert(own + none =~= own);
    assert(none + other =~= other);
}

/// The tables of the tasks of the third stage hold what was dealt to them.
proof fn inputs_of_a_task(
    left_stage: StageState,
    right_stage: StageState,
    left_outputs: Seq<Seq<PartitionView>>,
    right_outputs: Seq<Seq<PartitionView>>,
    left: SchemaView,
    right: SchemaView,
    content: spec_fn(ShuffleBlockView) -> (SchemaView, Seq<BatchView>),
    count: u32,
    base: Seq<NamedTableView>,
    tables: Seq<NamedTableView>,
    p: int,
)
    requires
        left_stage.plan.stage_id == StageId(0),
        right_stage.plan.stage_id == StageId(1),
        are_published(left_stage, left_outputs, left, content),
        are_published(right_stage, right_outputs, right, content),
        outputs_are_in_order(left_outputs, count),
        outputs_are_in_order(right_outputs, count),
        0 <= p < count,
        table_place(base, stage_input_name(StageId(0)), 0) is Err,
        table_place(base, stage_input_name(StageId(1)), 0) is Err,
        ({
            let blocks = left_stage.output_blocks(left_outputs.len() as int)
                + right_stage.output_blocks(right_outputs.len() as int);
            let read = blocks_read(blocks, Some(PartitionId(p as u32)), blocks.len() as int);
            input_tables(
                arrived(no_inputs(both_stages()), read, content, read.len() as int),
                base,
                2,
            ) == Ok::<Seq<NamedTableView>, ErrorView>(tables)
        }),
    ensures
        holds_stage(tables, StageId(0), collected(left_outputs, p, left_outputs.len() as int)),
        holds_stage(tables, StageId(1), collected(right_outputs, p, right_outputs.len() as int)),
{
    let partition = PartitionId(p as u32);
    let lefts = left_stage.output_blocks(left_outputs.len() as int);
    let rights = right_stage.output_blocks(right_outputs.len() as int);
    let blocks = lefts + rights;
    blocks_are_of_a_stage(left_stage, left_outputs, left, content, left_outputs.len() as int);
    blocks_are_of_a_stage(right_stage, right_outputs, right, content, right_outputs.len() as int);
    assert forall|i: int| 0 <= i < blocks.len() implies (#[trigger] blocks[i]).producer.stage_id
        == StageId(0) || blocks[i].producer.stage_id == StageId(1) by {
        if i < lefts.len() {
            assert(blocks[i] == lefts[i]);
        } else {
            assert(blocks[i] == rights[i - lefts.len()]);
        }
    }
    what_arrives(blocks, content, partition, blocks.len() as int);
    what_both_stages_sent(
        left_stage,
        right_stage,
        left_outputs,
        right_outputs,
        left,
        right,
        content,
        count,
        StageId(0),
        p,
    );
    what_both_stages_sent(
        left_stage,
        right_stage,
        left_outputs,
        right_outputs,
        left,
        right,
        content,
        count,
        StageId(1),
        p,
    );
    let read = blocks_read(blocks, Some(partition), blocks.len() as int);
    let inputs = arrived(no_inputs(both_stages()), read, content, read.len() as int);
    inputs_become_tables(inputs, base, tables);
}

proof fn blocks_are_of_a_stage(
    state: StageState,
    outputs: Seq<Seq<PartitionView>>,
    schema: SchemaView,
    content: spec_fn(ShuffleBlockView) -> (SchemaView, Seq<BatchView>),
    upto: int,
)
    requires
        are_published(state, outputs, schema, content),
        0 <= upto <= outputs.len(),
    ensures
        forall|i: int|
            0 <= i < state.output_blocks(upto).len() ==> (#[trigger] state.output_blocks(
                upto,
            )[i]).producer.stage_id == state.plan.stage_id,
    decreases upto,
{
    if upto > 0 {
        blocks_are_of_a_stage(state, outputs, schema, content, upto - 1);
        assert(state.partitions[upto - 1] is Succeeded);
        let own = state.partitions[upto - 1]->output_blocks;
        let before = state.output_blocks(upto - 1);
        let all = state.output_blocks(upto);
        assert forall|i: int| 0 <= i < all.len() implies (#[trigger] all[i]).producer.stage_id
            == state.plan.stage_id by {
            if i < before.len() {
                assert(all[i] == before[i]);
            } else {
                assert(all[i] == own[i - before.len()]);
            }
        }
    }
}

proof fn a_stage_has_its_plan(
    query: Seq<char>,
    id: StageId,
    dependencies: Seq<StageId>,
    partitions: u32,
    plan: PhysicalView,
    catalog: Map<Seq<char>, TableView>,
)
    requires
        can_be_sent(plan, catalog),
        stage_of(query, id, dependencies, partitions, plan) is Ok,
    ensures
        decoded_fragment(
            stage_of(query, id, dependencies, partitions, plan)->Ok_0.plan_fragment,
            catalog,
        ) == Ok::<PhysicalView, ErrorView>(plan),
{
    reveal(can_be_sent);
    stage_runs_its_plan(query, id, dependencies, partitions, plan, catalog);
}

/// Whether a trace is one of a task that ran a plan over some tables.
#[verifier::opaque]
spec fn is_run(
    plan: PhysicalView,
    tables: Seq<NamedTableView>,
    outputs: Seq<PartitionView>,
    trace: Trace,
) -> bool {
    &&& runs(plan, tables, Some(0usize), trace)
    &&& trace.result() == Ok::<Seq<BatchView>, ErrorView>(outputs[0].batches)
}

/// A task whose stage deals nothing has run the plan of its stage.
proof fn a_task_has_run(
    query: Seq<char>,
    id: StageId,
    dependencies: Seq<StageId>,
    partitions: u32,
    plan: PhysicalView,
    stage: StagePlanView,
    partition: int,
    catalog: Map<Seq<char>, TableView>,
    tables: Seq<NamedTableView>,
    outputs: Seq<PartitionView>,
) -> (trace: Trace)
    requires
        can_be_sent(plan, catalog),
        stage_of(query, id, dependencies, partitions, plan) is Ok,
        stage == (StagePlanView {
            partitioned_input: true,
            ..stage_of(query, id, dependencies, partitions, plan)->Ok_0
        }),
        dependencies.len() > 0,
        task_succeeds(stage, partition, catalog, tables, outputs),
    ensures
        is_run(plan, tables, outputs, trace),
{
    reveal(is_run);
    reveal(task_succeeds);
    let (task, memory, before, after) = choose|
        task: TaskAttemptView,
        memory: MemoryView,
        before: MetricsView,
        after: MetricsView,
    |
        task.partition_id == PartitionId(partition as u32) && #[trigger] task_gives(
            stage,
            task,
            catalog,
            tables,
            memory,
            false,
            before,
            Ok(outputs),
            after,
        );
    a_stage_has_its_plan(query, id, dependencies, partitions, plan, catalog);
    let rows = choose|rows: Result<Seq<BatchView>, ErrorView>|
        #[trigger] meters(plan, tables, Some(partition_read(stage, task)), before, rows, after)
            && match rows {
            Err(error) => Ok::<Seq<PartitionView>, ErrorView>(outputs) == Err::<
                Seq<PartitionView>,
                ErrorView,
            >(error),
            Ok(batches) => rows_sent(
                stage,
                task,
                plan.schema(),
                batches,
                memory,
                false,
                Ok(outputs),
            ),
        };
    choose|trace: Trace| #[trigger]
        runs(plan, tables, Some(0usize), trace) && trace.result() == rows
}

proof fn rows_of_the_result(
    outputs: Seq<Seq<PartitionView>>,
    traces: Seq<Trace>,
    upto: int,
)
    requires
        outputs.len() == traces.len(),
        0 <= upto <= outputs.len(),
        forall|p: int|
            0 <= p < traces.len() ==> (#[trigger] traces[p]).result() == Ok::<
                Seq<BatchView>,
                ErrorView,
            >(outputs[p][0].batches) && outputs[p][0].batches.len() == 1,
    ensures
        all_rows(collected(outputs, 0, upto)) == rows_in(batches_given(traces), upto),
    decreases upto,
{
    if upto > 0 {
        rows_of_the_result(outputs, traces, upto - 1);
        let before = collected(outputs, 0, upto - 1);
        let more = outputs[upto - 1][0].batches;
        assert(traces[upto - 1].result()->Ok_0 == more);
        rows_of_two_lists(before, more, 1);
        assert(rows_in(more, 0) + result_rows(more[0]) =~= result_rows(more[0]));
        assert(rows_in(more, 1) == rows_in(more, 0) + result_rows(more[0]));
        assert(batches_given(traces)[upto - 1] == more[0]);
    }
}

/// Whether a trace is one of a task of the third stage.
spec fn is_the_run(run: RemoteRun, p: int, trace: Trace) -> bool {
    is_run(rewritten(run.plan, run.query)->Ok_0.0, run.inputs[p], run.outputs[p], trace)
}

spec fn the_run_of(run: RemoteRun, p: int) -> Trace {
    choose|trace: Trace| is_the_run(run, p, trace)
}

/// The join of a run, in one place and spread, is what its stages work on.
#[verifier::rlimit(40)]
proof fn the_join_of_a_run(run: RemoteRun)
    requires
        run.is_sendable(),
        run.has_succeeded(),
        run.spread().join.has_plain_keys(),
    ensures
        run.spread().wf(),
        run.spread().is_of(join_of(run.plan), run.tables),
        outputs_are_in_order(run.left_outputs, run.spread().count),
        outputs_are_in_order(run.right_outputs, run.spread().count),
{
    the_stages_of_a_run(run);
    let s = run.spread();
    let join = join_of(run.plan);
    let (lefts, rights) = s.join.places();
    the_join_is_transportable(run.plan, run.catalog);
    sides_are_transportable(join, run.catalog);
    joined_fields_count(
        s.join.left.fields,
        s.join.right.fields,
        s.join.join_type,
        s.join.right.fields.len() as int,
    );
    a_side_of_a_run(
        run,
        run.left(),
        StageId(0),
        run.stages[0],
        HashExchangeView { columns: lefts, partition_count: s.count },
        run.left_outputs,
    );
    a_side_of_a_run(
        run,
        run.right(),
        StageId(1),
        run.stages[1],
        HashExchangeView { columns: rights, partition_count: s.count },
        run.right_outputs,
    );
}

/// The tables of the tasks of the third stage hold what the first two sent to them.
#[verifier::rlimit(40)]
proof fn the_inputs_of_a_run(run: RemoteRun)
    requires
        run.is_sendable(),
        run.has_succeeded(),
        outputs_are_in_order(run.left_outputs, run.spread().count),
        outputs_are_in_order(run.right_outputs, run.spread().count),
    ensures
        run.spread().is_read_from(run.inputs),
{
    the_stages_of_a_run(run);
    let s = run.spread();
    assert forall|p: int| 0 <= p < s.count implies holds_stage(
        #[trigger] run.inputs[p],
        StageId(0),
        s.left_parts[p],
    ) && holds_stage(run.inputs[p], StageId(1), s.right_parts[p]) by {
        inputs_of_a_task(
            run.left_stage,
            run.right_stage,
            run.left_outputs,
            run.right_outputs,
            s.join.left,
            s.join.right,
            run.content,
            s.count,
            run.tables,
            run.inputs[p],
            p,
        );
    }
}

/// Whether a plan can be sent to a worker with some tables, and fits.
#[verifier::opaque]
spec fn can_be_sent(plan: PhysicalView, catalog: Map<Seq<char>, TableView>) -> bool {
    &&& transportable(plan, catalog)
    &&& plan_fits(encoded_plan(plan, 0)->Ok_0, (RECURSION_LIMIT - 1) as nat)
}

/// The plan of the third stage can be sent to its tasks.
#[verifier::rlimit(40)]
proof fn the_rest_can_be_sent(run: RemoteRun, p: int)
    requires
        run.is_sendable(),
        rewritten(run.plan, run.query) is Ok,
        describes(run.catalogs[p], StageId(0), run.left().schema()),
        describes(run.catalogs[p], StageId(1), run.right().schema()),
    ensures
        can_be_sent(rewritten(run.plan, run.query)->Ok_0.0, run.catalogs[p]),
{
    reveal(can_be_sent);
    the_rest_is_transportable(run.plan, run.query, run.catalog, run.catalogs[p]);
}

/// The tasks of the third stage have run the plan over the join.
proof fn the_last_stage_of_a_run(run: RemoteRun, p: int, down: PhysicalView)
    requires
        rewritten(run.plan, run.query) matches Ok((rest, _)) && rest == down,
        can_be_sent(down, run.catalogs[p]),
        stage_of(
            run.query,
            StageId(2),
            both_stages(),
            run.stages[2].partition_count,
            down,
        ) is Ok,
        run.stages[2] == (StagePlanView {
            partitioned_input: true,
            ..stage_of(
                run.query,
                StageId(2),
                both_stages(),
                run.stages[2].partition_count,
                down,
            )->Ok_0
        }),
        task_succeeds(run.stages[2], p, run.catalogs[p], run.inputs[p], run.outputs[p]),
    ensures
        is_the_run(run, p, the_run_of(run, p)),
{
    let trace = a_task_has_run(
        run.query,
        StageId(2),
        both_stages(),
        run.stages[2].partition_count,
        down,
        run.stages[2],
        p,
        run.catalogs[p],
        run.inputs[p],
        run.outputs[p],
    );
    assert(is_the_run(run, p, trace));
}

#[verifier::rlimit(40)]
proof fn all_last_tasks(run: RemoteRun, p: int)
    requires
        run.is_sendable(),
        run.has_succeeded(),
        0 <= p < run.outputs.len(),
    ensures
        is_the_run(run, p, the_run_of(run, p)),
{
    the_stages_of_a_run(run);
    assert(describes(run.catalogs[p], StageId(0), run.left().schema()));
    the_rest_can_be_sent(run, p);
    assert(task_succeeds(run.stages[2], p, run.catalogs[p], run.inputs[p], run.outputs[p]));
    the_last_stage_of_a_run(run, p, rewritten(run.plan, run.query)->Ok_0.0);
}

/// A join that workers run gives the rows of the same join in one place. Where every task of the
/// three stages has succeeded, and what it put out has arrived, the third stage has put out the rows
/// that one run of the plan over all tables gives, in some order: none is missing and none comes
/// twice.
pub proof fn a_remote_join_gives_the_native_rows(run: RemoteRun, native: Seq<BatchView>)
    requires
        run.is_sendable(),
        run.has_succeeded(),
        run.spread().join.has_plain_keys(),
        produces(run.plan, run.tables, None, Ok(native)),
    ensures
        all_rows(run.result()).to_multiset() == all_rows(native).to_multiset(),
{
    the_join_of_a_run(run);
    the_inputs_of_a_run(run);
    let traces = Seq::new(run.outputs.len(), |p: int| the_run_of(run, p));
    assert forall|p: int| 0 <= p < traces.len() implies is_the_run(
        run,
        p,
        #[trigger] traces[p],
    ) by {
        all_last_tasks(run, p);
    }
    results_of_a_run(run, native, traces);
}

proof fn results_of_a_run(run: RemoteRun, native: Seq<BatchView>, traces: Seq<Trace>)
    requires
        rewritten(run.plan, run.query) is Ok,
        run.spread().wf(),
        run.spread().is_of(join_of(run.plan), run.tables),
        run.spread().is_read_from(run.inputs),
        run.inputs.len() == run.outputs.len(),
        traces.len() == run.outputs.len(),
        forall|p: int| 0 <= p < traces.len() ==> is_the_run(run, p, #[trigger] traces[p]),
        produces(run.plan, run.tables, None, Ok(native)),
    ensures
        all_rows(run.result()).to_multiset() == all_rows(native).to_multiset(),
{
    reveal(is_run);
    let s = run.spread();
    let trace = choose|trace: Trace| #[trigger]
        runs(run.plan, run.tables, None, trace) && trace.result() == Ok::<
            Seq<BatchView>,
            ErrorView,
        >(native);
    assert forall|p: int| 0 <= p < traces.len() implies runs(
        rewritten(run.plan, run.query)->Ok_0.0,
        run.inputs[p],
        Some(0usize),
        #[trigger] traces[p],
    ) && traces[p].result() is Ok by {
        assert(is_the_run(run, p, traces[p]));
    }
    the_plan_holds_together(run.plan, run.query, s, run.tables, run.inputs, trace, traces);
    assert forall|p: int| 0 <= p < traces.len() implies (#[trigger] traces[p]).result() == Ok::<
        Seq<BatchView>,
        ErrorView,
    >(run.outputs[p][0].batches) && run.outputs[p][0].batches.len() == 1 by {
        assert(is_the_run(run, p, traces[p]));
        assert(traces[p].result()->Ok_0.len() == 1);
    }
    rows_of_the_result(run.outputs, traces, traces.len() as int);
    assert(rows_in(native, 1) == rows_in(native, 0) + result_rows(native[0]));
    assert(rows_in(native, 0) + result_rows(native[0]) =~= result_rows(native[0]));
}

} // verus!

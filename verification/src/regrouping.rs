//! An aggregation made better gives the same rows.

use crate::batch::BatchView;
use crate::catalog::TableView;
use crate::distributed::partials::calls_are_by_expr;
use crate::distributed::spreading::{local_plans_are_settled, local_result, scans_have_the_schema};
use crate::error::ErrorView;
use crate::execution::aggregate::{
    aggregated, call_of, calls_of, group_rows, grouped, sorted_groups, CallView,
};
use crate::execution::rows::table_columns;
use crate::execution::run::{all_filtered, input_of, produces, runs, scan_result, Trace};
use crate::expr::ExprView;
use crate::logical::LogicalView;
use crate::optimizer::{all_simplified, optimized, with_optimized_inputs};
use crate::physical::PhysicalView;
use crate::planner::physical_plan;
use crate::remote::is_partition_local;
use crate::rewriting::{
    a_filter_in_a_scan_keeps_the_rows, a_scan_has_its_schema, a_simple_aggregation_keeps_the_groups,
    a_simple_filter_keeps_the_rows, all_small, an_input_gives_rows, are_plain, are_simple_calls,
    filtering_scan, filters_give_the_schema, nothing_becomes_a_wildcard, same_rows,
    simple_lists_are_as_long,
};
use crate::scalar::ScalarView;
use crate::table::{all_valid, scanned_partition, table_place, NamedTableView};
use crate::types::{FieldView, SchemaView};
use crate::values::all_typed;
use vstd::prelude::*;

verus! {

proof fn simple_lists_are_by_expr(exprs: Seq<ExprView>, schema: SchemaView, upto: int)
    requires
        0 <= upto <= exprs.len(),
    ensures
        all_simplified(exprs, schema, upto) matches Ok(simple) ==> simple.len() == upto && forall|
            i: int,
        |
            0 <= i < upto ==> exprs[i].simplified(schema) == Ok::<ExprView, ErrorView>(
                #[trigger] simple[i],
            ),
    decreases upto,
{
    if upto > 0 {
        simple_lists_are_by_expr(exprs, schema, upto - 1);
    }
}

/// The call of an aggregate made simple is its call with the argument made simple.
proof fn a_simple_call(expr: ExprView, simple: ExprView, schema: SchemaView, call: CallView)
    requires
        expr.simplified(schema) == Ok::<ExprView, ErrorView>(simple),
        call_of(expr) == Ok::<CallView, ErrorView>(call),
    ensures
        call_of(simple) is Ok,
        ({
            let next = call_of(simple)->Ok_0;
            &&& call.expr.simplified(schema) == Ok::<ExprView, ErrorView>(next.expr)
            &&& next.function == call.function
            &&& next.distinct == call.distinct
            &&& next.expr is Wildcard <==> call.expr is Wildcard
        }),
{
    reveal_with_fuel(ExprView::simplified, 3);
    if !(call.expr is Wildcard) {
        nothing_becomes_a_wildcard(call.expr, schema);
    }
}

proof fn calls_of_named_exprs(exprs: Seq<ExprView>, calls: Seq<CallView>, upto: int)
    requires
        0 <= upto <= exprs.len(),
        calls.len() == exprs.len(),
        forall|i: int|
            0 <= i < exprs.len() ==> call_of(exprs[i]) == Ok::<CallView, ErrorView>(
                #[trigger] calls[i],
            ),
    ensures
        calls_of(exprs, upto) == Ok::<Seq<CallView>, ErrorView>(calls.take(upto)),
    decreases upto,
{
    if upto > 0 {
        calls_of_named_exprs(exprs, calls, upto - 1);
        assert(call_of(exprs[upto - 1]) == Ok::<CallView, ErrorView>(calls[upto - 1]));
        assert(calls.take(upto) =~= calls.take(upto - 1).push(calls[upto - 1]));
    } else {
        assert(calls.take(0) =~= Seq::<CallView>::empty());
    }
}

/// The calls of aggregates made simple are their calls with the arguments made simple.
proof fn simple_calls(exprs: Seq<ExprView>, schema: SchemaView, calls: Seq<CallView>)
    requires
        calls_of(exprs, exprs.len() as int) == Ok::<Seq<CallView>, ErrorView>(calls),
        all_simplified(exprs, schema, exprs.len() as int) is Ok,
    ensures
        ({
            let simple = all_simplified(exprs, schema, exprs.len() as int)->Ok_0;
            &&& simple.len() == exprs.len()
            &&& calls_of(simple, simple.len() as int) is Ok
            &&& are_simple_calls(calls_of(simple, simple.len() as int)->Ok_0, calls, schema)
        }),
{
    let count = exprs.len() as int;
    let simple = all_simplified(exprs, schema, count)->Ok_0;
    simple_lists_are_by_expr(exprs, schema, count);
    calls_are_by_expr(exprs, count);
    let next = Seq::new(exprs.len(), |i: int| call_of(simple[i])->Ok_0);
    assert forall|i: int| 0 <= i < exprs.len() implies call_of(simple[i]) == Ok::<
        CallView,
        ErrorView,
    >(#[trigger] next[i]) by {
        assert(call_of(exprs[i]) == Ok::<CallView, ErrorView>(calls[i]));
        assert(exprs[i].simplified(schema) == Ok::<ExprView, ErrorView>(simple[i]));
        a_simple_call(exprs[i], simple[i], schema, calls[i]);
    }
    calls_of_named_exprs(simple, next, count);
    assert(next.take(count) =~= next);
    assert forall|c: int| 0 <= c < calls.len() implies {
        &&& (#[trigger] calls[c]).expr.simplified(schema) == Ok::<ExprView, ErrorView>(next[c].expr)
        &&& next[c].function == calls[c].function
        &&& next[c].distinct == calls[c].distinct
        &&& next[c].expr is Wildcard <==> calls[c].expr is Wildcard
    } by {
        assert(call_of(exprs[c]) == Ok::<CallView, ErrorView>(calls[c]));
        assert(exprs[c].simplified(schema) == Ok::<ExprView, ErrorView>(simple[c]));
        a_simple_call(exprs[c], simple[c], schema, calls[c]);
    }
}

/// Whether two schemas have the same types, whatever their columns are called.
pub open spec fn same_types(a: SchemaView, b: SchemaView) -> bool {
    &&& a.fields.len() == b.fields.len()
    &&& forall|i: int|
        0 <= i < a.fields.len() ==> (#[trigger] a.fields[i]).data_type == b.fields[i].data_type
}

proof fn columns_are_by_type(
    rows: Seq<Seq<ScalarView>>,
    a: Seq<FieldView>,
    b: Seq<FieldView>,
    upto: int,
)
    requires
        upto <= a.len(),
        a.len() == b.len(),
        forall|i: int| 0 <= i < a.len() ==> (#[trigger] a[i]).data_type == b[i].data_type,
    ensures
        table_columns(rows, a, upto) == table_columns(rows, b, upto),
    decreases upto,
{
    if upto > 0 {
        columns_are_by_type(rows, a, b, upto - 1);
        assert(a[upto - 1].data_type == b[upto - 1].data_type);
    }
}

/// An aggregation whose expressions are made simple gives the same rows.
pub proof fn a_simple_aggregation_keeps_the_rows(
    batches: Seq<BatchView>,
    schema: SchemaView,
    group_exprs: Seq<ExprView>,
    aggregate_exprs: Seq<ExprView>,
    out: SchemaView,
    other: SchemaView,
    before: BatchView,
    after: BatchView,
)
    requires
        are_plain(batches, schema),
        all_simplified(group_exprs, schema, group_exprs.len() as int) is Ok,
        all_simplified(aggregate_exprs, schema, aggregate_exprs.len() as int) is Ok,
        same_types(out, other),
        aggregated(batches, group_exprs, aggregate_exprs, out) == Ok::<BatchView, ErrorView>(
            before,
        ),
        aggregated(
            batches,
            all_simplified(group_exprs, schema, group_exprs.len() as int)->Ok_0,
            all_simplified(aggregate_exprs, schema, aggregate_exprs.len() as int)->Ok_0,
            other,
        ) == Ok::<BatchView, ErrorView>(after),
    ensures
        after.columns == before.columns,
        after.rows == before.rows,
{
    let calls = calls_of(aggregate_exprs, aggregate_exprs.len() as int)->Ok_0;
    let keys = all_simplified(group_exprs, schema, group_exprs.len() as int)->Ok_0;
    let exprs = all_simplified(aggregate_exprs, schema, aggregate_exprs.len() as int)->Ok_0;
    simple_calls(aggregate_exprs, schema, calls);
    simple_lists_are_as_long(group_exprs, schema, group_exprs.len() as int);
    let simple = calls_of(exprs, exprs.len() as int)->Ok_0;
    a_simple_aggregation_keeps_the_groups(
        batches,
        schema,
        group_exprs,
        calls,
        simple,
        batches.len() as int,
    );
    let groups = grouped(batches, calls, group_exprs, batches.len() as int)->Ok_0;
    let rows = group_rows(sorted_groups(groups, groups.len() as int));
    let width = group_exprs.len() + aggregate_exprs.len();
    let count = if width < out.fields.len() {
        width
    } else {
        out.fields.len()
    };
    columns_are_by_type(rows, out.fields, other.fields, count as int);
}

// ---- a query

/// An aggregation of the rows of a table of which a predicate holds.
pub open spec fn aggregation_plan(
    table: Seq<char>,
    schema: SchemaView,
    predicate: ExprView,
    group_exprs: Seq<ExprView>,
    aggregate_exprs: Seq<ExprView>,
    out: SchemaView,
) -> LogicalView {
    LogicalView::Aggregate {
        input: Box::new(
            LogicalView::Filter {
                input: Box::new(
                    LogicalView::Scan { table, projection: None, filters: Seq::empty(), schema },
                ),
                predicate,
                schema,
            },
        ),
        group_exprs,
        aggregate_exprs,
        schema: out,
    }
}

/// What comes of making such an aggregation better.
proof fn an_aggregation_made_better(
    table: Seq<char>,
    schema: SchemaView,
    predicate: ExprView,
    group_exprs: Seq<ExprView>,
    aggregate_exprs: Seq<ExprView>,
    out: SchemaView,
    best: LogicalView,
)
    requires
        optimized(
            aggregation_plan(table, schema, predicate, group_exprs, aggregate_exprs, out),
        ) == Ok::<LogicalView, ErrorView>(best),
    ensures
        predicate.simplified(schema) is Ok,
        all_simplified(group_exprs, schema, group_exprs.len() as int) is Ok,
        all_simplified(aggregate_exprs, schema, aggregate_exprs.len() as int) is Ok,
        best is Aggregate,
        *best->Aggregate_input == filtering_scan(
            table,
            schema,
            predicate.simplified(schema)->Ok_0,
        ),
        best->Aggregate_group_exprs == all_simplified(
            group_exprs,
            schema,
            group_exprs.len() as int,
        )->Ok_0,
        best->Aggregate_aggregate_exprs == all_simplified(
            aggregate_exprs,
            schema,
            aggregate_exprs.len() as int,
        )->Ok_0,
{
    let start = LogicalView::Scan { table, projection: None, filters: Seq::empty(), schema };
    let filter = LogicalView::Filter { input: Box::new(start), predicate, schema };
    assert(all_simplified(Seq::empty(), schema, 0) == Ok::<Seq<ExprView>, ErrorView>(Seq::empty()));
    assert(optimized(start) == Ok::<LogicalView, ErrorView>(start));
    let scan = filtering_scan(table, schema, predicate.simplified(schema)->Ok_0);
    assert(optimized(filter) == Ok::<LogicalView, ErrorView>(scan)) by {
        assert(with_optimized_inputs(filter) == crate::logical::filtered(start, predicate));
    }
}

/// The operators of an aggregation over a scan.
pub open spec fn aggregation_operators(
    scan: PhysicalView,
    group_exprs: Seq<ExprView>,
    aggregate_exprs: Seq<ExprView>,
    out: SchemaView,
) -> PhysicalView {
    PhysicalView::HashAggregate {
        id: 0,
        input: Box::new(scan),
        group_exprs,
        aggregate_exprs,
        schema: out,
    }
}

proof fn an_aggregation_is_planned(
    plan: LogicalView,
    catalog: Map<Seq<char>, TableView>,
)
    requires
        plan is Aggregate,
    ensures
        physical_plan(plan, catalog, 0) matches Ok(physical) ==> physical_plan(
            *plan->Aggregate_input,
            catalog,
            1,
        ) is Ok && physical == aggregation_operators(
            physical_plan(*plan->Aggregate_input, catalog, 1)->Ok_0,
            plan->Aggregate_group_exprs,
            plan->Aggregate_aggregate_exprs,
            plan->Aggregate_schema,
        ),
{
}

proof fn a_filter_is_planned(
    table: Seq<char>,
    schema: SchemaView,
    predicate: ExprView,
    catalog: Map<Seq<char>, TableView>,
)
    ensures
        ({
            let start = LogicalView::Scan {
                table,
                projection: None,
                filters: Seq::empty(),
                schema,
            };
            let filter = LogicalView::Filter { input: Box::new(start), predicate, schema };
            physical_plan(filter, catalog, 1) matches Ok(physical) ==> {
                &&& physical is Filter
                &&& physical->Filter_predicate == predicate
                &&& is_partition_local(physical)
                &&& *physical->Filter_input matches PhysicalView::Scan {
                    table_name,
                    projection,
                    filters,
                    schema: own,
                    ..
                }
                &&& table_name == table
                &&& projection is None
                &&& filters == Seq::<ExprView>::empty()
                &&& own == schema
            }
        }),
{
    let start = LogicalView::Scan { table, projection: None, filters: Seq::empty(), schema };
    let filter = LogicalView::Filter { input: Box::new(start), predicate, schema };
    if let Ok(physical) = physical_plan(filter, catalog, 1) {
        let below = physical_plan(start, catalog, 2);
        assert(below is Ok);
        assert(is_partition_local(below->Ok_0));
    }
}

/// What the input of an aggregation gives, and what the aggregation gives of it.
proof fn the_steps_of_an_aggregation(
    plan: PhysicalView,
    tables: Seq<NamedTableView>,
    partition: Option<usize>,
    result: Seq<BatchView>,
) -> (rows: Seq<BatchView>)
    requires
        plan is HashAggregate,
        is_partition_local(*plan->HashAggregate_input),
        produces(plan, tables, partition, Ok(result)),
    ensures
        produces(*plan->HashAggregate_input, tables, partition, Ok(rows)),
        local_result(*plan->HashAggregate_input, tables, partition) == Ok::<
            Seq<BatchView>,
            ErrorView,
        >(rows),
        all_valid(rows),
        result.len() == 1,
        aggregated(
            rows,
            plan->HashAggregate_group_exprs,
            plan->HashAggregate_aggregate_exprs,
            plan->HashAggregate_schema,
        ) == Ok::<BatchView, ErrorView>(result[0]),
{
    let trace = choose|trace: Trace| #[trigger]
        runs(plan, tables, partition, trace) && trace.result() == Ok::<Seq<BatchView>, ErrorView>(
            result,
        );
    let input = *plan->HashAggregate_input;
    let below = *trace->Step_input;
    assert(runs(input, tables, partition, below));
    assert(produces(input, tables, partition, below.result()));
    local_plans_are_settled(input, tables, partition, below.result());
    let rows = below.result()->Ok_0;
    let one = aggregated(
        rows,
        plan->HashAggregate_group_exprs,
        plan->HashAggregate_aggregate_exprs,
        plan->HashAggregate_schema,
    );
    assert(result == seq![one->Ok_0]);
    rows
}

/// An aggregation of the rows of a table of which a predicate holds gives the same rows once it was
/// made better, over any tables over which both plans run.
#[verifier::rlimit(40)]
pub proof fn a_better_aggregation_gives_the_same_rows(
    table: Seq<char>,
    schema: SchemaView,
    predicate: ExprView,
    group_exprs: Seq<ExprView>,
    aggregate_exprs: Seq<ExprView>,
    out: SchemaView,
    best: LogicalView,
    catalog: Map<Seq<char>, TableView>,
    tables: Seq<NamedTableView>,
    partition: Option<usize>,
    plan: PhysicalView,
    better: PhysicalView,
    before: Seq<BatchView>,
    after: Seq<BatchView>,
)
    requires
        optimized(
            aggregation_plan(table, schema, predicate, group_exprs, aggregate_exprs, out),
        ) == Ok::<LogicalView, ErrorView>(best),
        physical_plan(
            aggregation_plan(table, schema, predicate, group_exprs, aggregate_exprs, out),
            catalog,
            0,
        ) == Ok::<PhysicalView, ErrorView>(plan),
        physical_plan(best, catalog, 0) == Ok::<PhysicalView, ErrorView>(better),
        produces(plan, tables, partition, Ok(before)),
        produces(better, tables, partition, Ok(after)),
        same_types(out, best.schema()),
        all_typed(schema),
        local_result(input_of(plan), tables, partition) matches Ok(rows) ==> all_small(rows),
        local_result(input_of(input_of(plan)), tables, partition) matches Ok(rows) ==> all_small(
            rows,
        ),
    ensures
        same_rows(after, before),
{
    let whole = aggregation_plan(table, schema, predicate, group_exprs, aggregate_exprs, out);
    an_aggregation_made_better(
        table,
        schema,
        predicate,
        group_exprs,
        aggregate_exprs,
        out,
        best,
    );
    an_aggregation_is_planned(whole, catalog);
    an_aggregation_is_planned(best, catalog);
    a_filter_is_planned(table, schema, predicate, catalog);
    let kept = predicate.simplified(schema)->Ok_0;
    let none = Seq::<ExprView>::empty();
    let filter = *plan->HashAggregate_input;
    let scan = *filter->Filter_input;
    let found = the_steps_of_an_aggregation(plan, tables, partition, before);
    an_input_gives_rows(filter, tables, partition, found);
    let rows = local_result(scan, tables, partition)->Ok_0;
    assert(scan_result(tables, table, partition, None, none, schema) == Ok::<
        Seq<BatchView>,
        ErrorView,
    >(rows));
    filtered_rows_are_plain(table, schema, predicate, tables, partition, rows, found);
    assert(is_partition_local(*better->HashAggregate_input));
    let other = the_steps_of_an_aggregation(better, tables, partition, after);
    assert(other == found);
    a_simple_aggregation_keeps_the_rows(
        found,
        schema,
        group_exprs,
        aggregate_exprs,
        out,
        best.schema(),
        before[0],
        after[0],
    );
}

/// What a filter leaves of a scan is what the scan gives that filters itself.
proof fn filtered_rows_are_plain(
    table: Seq<char>,
    schema: SchemaView,
    predicate: ExprView,
    tables: Seq<NamedTableView>,
    partition: Option<usize>,
    rows: Seq<BatchView>,
    found: Seq<BatchView>,
)
    requires
        scan_result(tables, table, partition, None, Seq::empty(), schema) == Ok::<
            Seq<BatchView>,
            ErrorView,
        >(rows),
        all_filtered(rows, predicate, rows.len() as int) == Ok::<Seq<BatchView>, ErrorView>(found),
        all_valid(rows),
        all_valid(found),
        all_small(rows),
        all_small(found),
        all_typed(schema),
        predicate.simplified(schema) is Ok,
    ensures
        are_plain(found, schema),
        scan_result(
            tables,
            table,
            partition,
            None,
            Seq::<ExprView>::empty().push(predicate.simplified(schema)->Ok_0),
            schema,
        ) == Ok::<Seq<BatchView>, ErrorView>(found),
{
    let none = Seq::<ExprView>::empty();
    let place = table_place(tables, table, 0)->Ok_0;
    let source = tables[place].table;
    match partition {
        None => {
            a_scan_has_its_schema(source, None, none, schema, source.partitions.len() as int);
        },
        Some(number) => {
            let batches = scanned_partition(source, number as nat, None)->Ok_0;
            scans_have_the_schema(Seq::empty(), batches, none, schema, batches.len() as int);
        },
    }
    assert(are_plain(rows, schema));
    a_simple_filter_keeps_the_rows(rows, schema, predicate, rows.len() as int);
    a_filter_in_a_scan_keeps_the_rows(
        tables,
        table,
        partition,
        None,
        none,
        predicate.simplified(schema)->Ok_0,
        schema,
    );
    filters_give_the_schema(rows, predicate, rows.len() as int);
}

} // verus!

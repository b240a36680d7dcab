//! A join made better gives the same rows.

use crate::batch::BatchView;
use crate::catalog::TableView;
use crate::distributed::spreading::scans_have_the_schema;
use crate::error::ErrorView;
use crate::execution::run::{join_step, produces, runs, scan_result, Trace};
use crate::expr::ExprView;
use crate::logical::{joined, JoinType, LogicalView};
use crate::optimizer::{all_simplified, optimized};
use crate::physical::PhysicalView;
use crate::planner::{operator_count, physical_plan};
use crate::rewriting::{a_scan_has_its_schema, a_simple_join_keeps_the_rows, all_small, are_plain};
use crate::table::{all_valid, scanned_partition, table_place, NamedTableView};
use crate::types::SchemaView;
use crate::values::all_typed;
use vstd::prelude::*;

verus! {

/// A scan of a whole table.
pub open spec fn whole_scan(table: Seq<char>, schema: SchemaView) -> LogicalView {
    LogicalView::Scan { table, projection: None, filters: Seq::empty(), schema }
}

proof fn whole_scans_stay(table: Seq<char>, schema: SchemaView)
    ensures
        optimized(whole_scan(table, schema)) == Ok::<LogicalView, ErrorView>(
            whole_scan(table, schema),
        ),
{
    assert(all_simplified(Seq::empty(), schema, 0) == Ok::<Seq<ExprView>, ErrorView>(Seq::empty()));
}

/// Whether a physical plan scans a whole table.
spec fn scans_all(plan: PhysicalView, table: Seq<char>, schema: SchemaView) -> bool {
    &&& plan is Scan
    &&& plan->Scan_table_name == table
    &&& plan->Scan_projection is None
    &&& plan->Scan_filters == Seq::<ExprView>::empty()
    &&& plan->Scan_schema == schema
}

/// How a join of two tables is planned.
proof fn a_join_is_planned(
    left: Seq<char>,
    left_schema: SchemaView,
    right: Seq<char>,
    right_schema: SchemaView,
    plan: LogicalView,
    catalog: Map<Seq<char>, TableView>,
)
    requires
        plan is Join,
        *plan->Join_left == whole_scan(left, left_schema),
        *plan->Join_right == whole_scan(right, right_schema),
    ensures
        physical_plan(plan, catalog, 0) matches Ok(physical) ==> {
            &&& physical is HashJoin
            &&& scans_all(*physical->HashJoin_left, left, left_schema)
            &&& scans_all(*physical->HashJoin_right, right, right_schema)
            &&& physical->HashJoin_join_type == plan->Join_join_type
            &&& physical->HashJoin_left_on == plan->Join_left_on
            &&& physical->HashJoin_right_on == plan->Join_right_on
            &&& physical->HashJoin_schema == plan->Join_schema
        },
{
    let first = physical_plan(whole_scan(left, left_schema), catalog, 1);
    let second = physical_plan(
        whole_scan(right, right_schema),
        catalog,
        1 + operator_count(whole_scan(left, left_schema)),
    );
}

/// What a join of two tables gives.
proof fn the_steps_of_a_join(
    left: Seq<char>,
    left_schema: SchemaView,
    right: Seq<char>,
    right_schema: SchemaView,
    plan: PhysicalView,
    tables: Seq<NamedTableView>,
    partition: Option<usize>,
    result: Seq<BatchView>,
)
    requires
        plan is HashJoin,
        scans_all(*plan->HashJoin_left, left, left_schema),
        scans_all(*plan->HashJoin_right, right, right_schema),
        produces(plan, tables, partition, Ok(result)),
    ensures
        ({
            let lefts = scan_result(tables, left, partition, None, Seq::empty(), left_schema);
            let rights = scan_result(tables, right, partition, None, Seq::empty(), right_schema);
            &&& lefts is Ok && all_valid(lefts->Ok_0)
            &&& rights is Ok && all_valid(rights->Ok_0)
            &&& join_step(
                lefts,
                rights,
                plan->HashJoin_join_type,
                plan->HashJoin_left_on,
                plan->HashJoin_right_on,
                plan->HashJoin_schema,
            ) == Ok::<Seq<BatchView>, ErrorView>(result)
        }),
{
    let trace = choose|trace: Trace| #[trigger]
        runs(plan, tables, partition, trace) && trace.result() == Ok::<Seq<BatchView>, ErrorView>(
            result,
        );
    let first = *trace->Join_left;
    let second = *trace->Join_right;
    assert(runs(*plan->HashJoin_left, tables, partition, first));
    assert(runs(*plan->HashJoin_right, tables, partition, second));
}

proof fn scanned_rows_are_plain(
    table: Seq<char>,
    schema: SchemaView,
    tables: Seq<NamedTableView>,
    partition: Option<usize>,
)
    requires
        scan_result(tables, table, partition, None, Seq::empty(), schema) is Ok,
        all_valid(scan_result(tables, table, partition, None, Seq::empty(), schema)->Ok_0),
        all_small(scan_result(tables, table, partition, None, Seq::empty(), schema)->Ok_0),
        all_typed(schema),
    ensures
        are_plain(
            scan_result(tables, table, partition, None, Seq::empty(), schema)->Ok_0,
            schema,
        ),
{
    let none = Seq::<ExprView>::empty();
    let place = table_place(tables, table, 0)->Ok_0;
    let source = tables[place].table;
    match partition {
        None => {
            a_scan_has_its_schema(source, None, none, schema, source.partitions.len() as int);
        },
        Some(number) => {
            let batches = scanned_partition(source, number as nat, None)->Ok_0;
            scans_have_the_schema(Seq::empty(), batches, none, schema, batches.len() as int);
        },
    }
}

/// A join of two tables gives the same batches once it was made better, over any tables over which
/// both plans run.
pub proof fn a_better_join_gives_the_same_rows(
    left: Seq<char>,
    left_schema: SchemaView,
    right: Seq<char>,
    right_schema: SchemaView,
    join_type: JoinType,
    left_on: Seq<ExprView>,
    right_on: Seq<ExprView>,
    catalog: Map<Seq<char>, TableView>,
    tables: Seq<NamedTableView>,
    partition: Option<usize>,
    logical: LogicalView,
    best: LogicalView,
    plan: PhysicalView,
    better: PhysicalView,
    before: Seq<BatchView>,
    after: Seq<BatchView>,
)
    requires
        joined(
            whole_scan(left, left_schema),
            whole_scan(right, right_schema),
            join_type,
            left_on,
            right_on,
        ) == Ok::<LogicalView, ErrorView>(logical),
        optimized(logical) == Ok::<LogicalView, ErrorView>(best),
        physical_plan(logical, catalog, 0) == Ok::<PhysicalView, ErrorView>(plan),
        physical_plan(best, catalog, 0) == Ok::<PhysicalView, ErrorView>(better),
        produces(plan, tables, partition, Ok(before)),
        produces(better, tables, partition, Ok(after)),
        all_typed(left_schema),
        all_typed(right_schema),
        scan_result(tables, left, partition, None, Seq::empty(), left_schema) matches Ok(rows)
            ==> all_small(rows),
        scan_result(tables, right, partition, None, Seq::empty(), right_schema) matches Ok(rows)
            ==> all_small(rows),
    ensures
        after == before,
{
    whole_scans_stay(left, left_schema);
    whole_scans_stay(right, right_schema);
    let lefts = all_simplified(left_on, left_schema, left_on.len() as int);
    let rights = all_simplified(right_on, right_schema, right_on.len() as int);
    assert(lefts is Ok && rights is Ok);
    assert(best is Join && best->Join_left_on == lefts->Ok_0 && best->Join_right_on
        == rights->Ok_0);
    a_join_is_planned(left, left_schema, right, right_schema, logical, catalog);
    a_join_is_planned(left, left_schema, right, right_schema, best, catalog);
    the_steps_of_a_join(
        left,
        left_schema,
        right,
        right_schema,
        plan,
        tables,
        partition,
        before,
    );
    the_steps_of_a_join(
        left,
        left_schema,
        right,
        right_schema,
        better,
        tables,
        partition,
        after,
    );
    scanned_rows_are_plain(left, left_schema, tables, partition);
    scanned_rows_are_plain(right, right_schema, tables, partition);
    a_simple_join_keeps_the_rows(
        scan_result(tables, left, partition, None, Seq::empty(), left_schema)->Ok_0,
        scan_result(tables, right, partition, None, Seq::empty(), right_schema)->Ok_0,
        left_schema,
        right_schema,
        join_type,
        left_on,
        right_on,
        plan->HashJoin_schema,
    );
}

} // verus!

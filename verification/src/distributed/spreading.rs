//! The rows that a plan gives over all partitions are those that it gives over each.

use crate::batch::{made_batch, BatchView};
use crate::catalog::TableView;
use crate::error::ErrorView;
use crate::execution::run::{
    all_filtered, all_projected, produces, runs, scan_result, scanned, scanned_batches, Trace,
};
use crate::execution::stream::{filtered, filtered_by_all, projected};
use crate::expr::ExprView;
use crate::physical::PhysicalView;
use crate::plan_codec::checks::transportable;
use crate::remote::is_partition_local;
use crate::table::{all_valid, scanned_partition, table_place, NamedTableView};
use crate::types::SchemaView;
use vstd::prelude::*;

verus! {

/// What a plan that works on each batch by itself gives.
pub open spec fn local_result(
    plan: PhysicalView,
    tables: Seq<NamedTableView>,
    partition: Option<usize>,
) -> Result<Seq<BatchView>, ErrorView>
    decreases plan,
{
    match plan {
        PhysicalView::Scan { table_name, projection, filters, schema, .. } => scan_result(
            tables,
            table_name,
            partition,
            projection,
            filters,
            schema,
        ),
        PhysicalView::Filter { input, predicate, .. } => match local_result(
            *input,
            tables,
            partition,
        ) {
            Err(error) => Err(error),
            Ok(batches) => all_filtered(batches, predicate, batches.len() as int),
        },
        PhysicalView::Projection { input, exprs, schema, .. } => match local_result(
            *input,
            tables,
            partition,
        ) {
            Err(error) => Err(error),
            Ok(batches) => all_projected(batches, exprs, schema, batches.len() as int),
        },
        _ => Ok(Seq::empty()),
    }
}

proof fn a_trace_is_local(
    plan: PhysicalView,
    tables: Seq<NamedTableView>,
    partition: Option<usize>,
    trace: Trace,
)
    requires
        is_partition_local(plan),
        runs(plan, tables, partition, trace),
    ensures
        trace.result() == local_result(plan, tables, partition),
    decreases trace,
{
    match trace {
        Trace::Step { input, .. } => {
            match plan {
                PhysicalView::Filter { input: below, .. } => {
                    a_trace_is_local(*below, tables, partition, *input);
                },
                PhysicalView::Projection { input: below, .. } => {
                    a_trace_is_local(*below, tables, partition, *input);
                },
                _ => {},
            }
        },
        _ => {},
    }
}

/// What a plan that works on each batch by itself gives is settled, and valid.
pub proof fn local_plans_are_settled(
    plan: PhysicalView,
    tables: Seq<NamedTableView>,
    partition: Option<usize>,
    r: Result<Seq<BatchView>, ErrorView>,
)
    requires
        is_partition_local(plan),
        produces(plan, tables, partition, r),
    ensures
        r == local_result(plan, tables, partition),
        r matches Ok(batches) ==> all_valid(batches),
{
    let trace = choose|trace: Trace| #[trigger]
        runs(plan, tables, partition, trace) && trace.result() == r;
    a_trace_is_local(plan, tables, partition, trace);
}

// ---- one list after the other

/// The lists of the first `upto` partitions, one after the other.
pub open spec fn joined_lists(lists: Seq<Seq<BatchView>>, upto: int) -> Seq<BatchView>
    decreases upto,
{
    if upto <= 0 {
        Seq::empty()
    } else {
        joined_lists(lists, upto - 1) + lists[upto - 1]
    }
}

proof fn filtering_reads_a_prefix(
    a: Seq<BatchView>,
    b: Seq<BatchView>,
    predicate: ExprView,
    upto: int,
)
    requires
        upto <= a.len(),
        upto <= b.len(),
        forall|i: int| 0 <= i < upto ==> a[i] == b[i],
    ensures
        all_filtered(a, predicate, upto) == all_filtered(b, predicate, upto),
    decreases upto,
{
    if upto > 0 {
        filtering_reads_a_prefix(a, b, predicate, upto - 1);
    }
}

proof fn filtering_goes_on(
    a: Seq<BatchView>,
    b: Seq<BatchView>,
    predicate: ExprView,
    upto: int,
)
    requires
        0 <= upto <= b.len(),
        all_filtered(a, predicate, a.len() as int) is Ok,
        all_filtered(b, predicate, upto) is Ok,
    ensures
        all_filtered(a + b, predicate, a.len() + upto) == Ok::<Seq<BatchView>, ErrorView>(
            all_filtered(a, predicate, a.len() as int)->Ok_0 + all_filtered(
                b,
                predicate,
                upto,
            )->Ok_0,
        ),
    decreases upto,
{
    let x = all_filtered(a, predicate, a.len() as int)->Ok_0;
    if upto > 0 {
        filtering_goes_on(a, b, predicate, upto - 1);
        assert((a + b)[a.len() + upto - 1] == b[upto - 1]);
        let before = all_filtered(b, predicate, upto - 1)->Ok_0;
        let batch = filtered(b[upto - 1], predicate)->Ok_0;
        assert(x + before.push(batch) =~= (x + before).push(batch));
    } else {
        filtering_reads_a_prefix(a, a + b, predicate, a.len() as int);
        assert(x + Seq::<BatchView>::empty() =~= x);
    }
}

proof fn projecting_reads_a_prefix(
    a: Seq<BatchView>,
    b: Seq<BatchView>,
    exprs: Seq<ExprView>,
    schema: SchemaView,
    upto: int,
)
    requires
        upto <= a.len(),
        upto <= b.len(),
        forall|i: int| 0 <= i < upto ==> a[i] == b[i],
    ensures
        all_projected(a, exprs, schema, upto) == all_projected(b, exprs, schema, upto),
    decreases upto,
{
    if upto > 0 {
        projecting_reads_a_prefix(a, b, exprs, schema, upto - 1);
    }
}

proof fn projecting_goes_on(
    a: Seq<BatchView>,
    b: Seq<BatchView>,
    exprs: Seq<ExprView>,
    schema: SchemaView,
    upto: int,
)
    requires
        0 <= upto <= b.len(),
        all_projected(a, exprs, schema, a.len() as int) is Ok,
        all_projected(b, exprs, schema, upto) is Ok,
    ensures
        all_projected(a + b, exprs, schema, a.len() + upto) == Ok::<Seq<BatchView>, ErrorView>(
            all_projected(a, exprs, schema, a.len() as int)->Ok_0 + all_projected(
                b,
                exprs,
                schema,
                upto,
            )->Ok_0,
        ),
    decreases upto,
{
    let x = all_projected(a, exprs, schema, a.len() as int)->Ok_0;
    if upto > 0 {
        projecting_goes_on(a, b, exprs, schema, upto - 1);
        assert((a + b)[a.len() + upto - 1] == b[upto - 1]);
        let before = all_projected(b, exprs, schema, upto - 1)->Ok_0;
        let batch = projected(b[upto - 1], exprs, schema)->Ok_0;
        assert(x + before.push(batch) =~= (x + before).push(batch));
    } else {
        projecting_reads_a_prefix(a, a + b, exprs, schema, a.len() as int);
        assert(x + Seq::<BatchView>::empty() =~= x);
    }
}

proof fn scanning_goes_on(
    before: Seq<BatchView>,
    batches: Seq<BatchView>,
    filters: Seq<ExprView>,
    schema: SchemaView,
    upto: int,
)
    requires
        0 <= upto <= batches.len(),
    ensures
        match scanned_batches(Seq::empty(), batches, filters, schema, upto) {
            Ok(out) => scanned_batches(before, batches, filters, schema, upto) == Ok::<
                Seq<BatchView>,
                ErrorView,
            >(before + out),
            Err(_) => true,
        },
    decreases upto,
{
    if upto > 0 {
        scanning_goes_on(before, batches, filters, schema, upto - 1);
        if let Ok(out) = scanned_batches(Seq::empty(), batches, filters, schema, upto) {
            let shorter = scanned_batches(Seq::empty(), batches, filters, schema, upto - 1)->Ok_0;
            assert(before + shorter.push(out.last()) =~= (before + shorter).push(out.last()));
        }
    } else {
        assert(before + Seq::<BatchView>::empty() =~= before);
    }
}

proof fn partitions_are_scanned(
    tables: Seq<NamedTableView>,
    name: Seq<char>,
    projection: Option<Seq<usize>>,
    filters: Seq<ExprView>,
    schema: SchemaView,
    lists: Seq<Seq<BatchView>>,
    upto: int,
)
    requires
        0 <= upto <= lists.len() <= usize::MAX,
        table_place(tables, name, 0) is Ok,
        forall|i: int|
            0 <= i < lists.len() ==> scan_result(
                tables,
                name,
                Some(i as usize),
                projection,
                filters,
                schema,
            ) == Ok::<Seq<BatchView>, ErrorView>(#[trigger] lists[i]),
    ensures
        scanned(
            tables[table_place(tables, name, 0)->Ok_0].table,
            projection,
            filters,
            schema,
            upto,
        ) == Ok::<Seq<BatchView>, ErrorView>(joined_lists(lists, upto)),
    decreases upto,
{
    if upto > 0 {
        partitions_are_scanned(tables, name, projection, filters, schema, lists, upto - 1);
        let table = tables[table_place(tables, name, 0)->Ok_0].table;
        assert(scan_result(
            tables,
            name,
            Some((upto - 1) as usize),
            projection,
            filters,
            schema,
        ) == Ok::<Seq<BatchView>, ErrorView>(lists[upto - 1]));
        let batches = scanned_partition(table, (upto - 1) as nat, projection)->Ok_0;
        scanning_goes_on(
            joined_lists(lists, upto - 1),
            batches,
            filters,
            schema,
            batches.len() as int,
        );
    }
}

/// The partitions of the table that a plan scans.
pub open spec fn scanned_partitions(plan: PhysicalView, tables: Seq<NamedTableView>) -> Option<nat>
    decreases plan,
{
    match plan {
        PhysicalView::Scan { table_name, .. } => match table_place(tables, table_name, 0) {
            Ok(place) => Some(tables[place].table.partitions.len()),
            Err(_) => None,
        },
        PhysicalView::Filter { input, .. } => scanned_partitions(*input, tables),
        PhysicalView::Projection { input, .. } => scanned_partitions(*input, tables),
        _ => None,
    }
}

/// What a plan that works on each batch by itself gives over all partitions is what it gives over
/// each, one after the other.
pub proof fn partitions_make_the_whole(
    plan: PhysicalView,
    tables: Seq<NamedTableView>,
    lists: Seq<Seq<BatchView>>,
)
    requires
        is_partition_local(plan),
        lists.len() <= usize::MAX,
        scanned_partitions(plan, tables) == Some(lists.len()),
        forall|i: int|
            0 <= i < lists.len() ==> local_result(plan, tables, Some(i as usize)) == Ok::<
                Seq<BatchView>,
                ErrorView,
            >(#[trigger] lists[i]),
    ensures
        local_result(plan, tables, None) == Ok::<Seq<BatchView>, ErrorView>(
            joined_lists(lists, lists.len() as int),
        ),
    decreases plan,
{
    match plan {
        PhysicalView::Scan { table_name, projection, filters, schema, .. } => {
            assert forall|i: int| 0 <= i < lists.len() implies scan_result(
                tables,
                table_name,
                Some(i as usize),
                projection,
                filters,
                schema,
            ) == Ok::<Seq<BatchView>, ErrorView>(#[trigger] lists[i]) by {}
            partitions_are_scanned(
                tables,
                table_name,
                projection,
                filters,
                schema,
                lists,
                lists.len() as int,
            );
        },
        PhysicalView::Filter { input, predicate, .. } => {
            let below = Seq::new(
                lists.len(),
                |i: int| local_result(*input, tables, Some(i as usize))->Ok_0,
            );
            assert forall|i: int| 0 <= i < below.len() implies local_result(
                *input,
                tables,
                Some(i as usize),
            ) == Ok::<Seq<BatchView>, ErrorView>(#[trigger] below[i]) by {
                let list = lists[i];
            }
            partitions_make_the_whole(*input, tables, below);
            filtered_lists(below, lists, predicate, lists.len() as int);
        },
        PhysicalView::Projection { input, exprs, schema, .. } => {
            let below = Seq::new(
                lists.len(),
                |i: int| local_result(*input, tables, Some(i as usize))->Ok_0,
            );
            assert forall|i: int| 0 <= i < below.len() implies local_result(
                *input,
                tables,
                Some(i as usize),
            ) == Ok::<Seq<BatchView>, ErrorView>(#[trigger] below[i]) by {
                let list = lists[i];
            }
            partitions_make_the_whole(*input, tables, below);
            projected_lists(below, lists, exprs, schema, lists.len() as int);
        },
        _ => {},
    }
}

proof fn filtered_lists(
    below: Seq<Seq<BatchView>>,
    lists: Seq<Seq<BatchView>>,
    predicate: ExprView,
    upto: int,
)
    requires
        0 <= upto <= lists.len(),
        below.len() == lists.len(),
        forall|i: int|
            0 <= i < lists.len() ==> all_filtered(below[i], predicate, below[i].len() as int)
                == Ok::<Seq<BatchView>, ErrorView>(#[trigger] lists[i]),
    ensures
        ({
            let all = joined_lists(below, upto);
            all_filtered(all, predicate, all.len() as int) == Ok::<Seq<BatchView>, ErrorView>(
                joined_lists(lists, upto),
            )
        }),
    decreases upto,
{
    if upto > 0 {
        filtered_lists(below, lists, predicate, upto - 1);
        assert(all_filtered(below[upto - 1], predicate, below[upto - 1].len() as int) == Ok::<
            Seq<BatchView>,
            ErrorView,
        >(lists[upto - 1]));
        filtering_goes_on(
            joined_lists(below, upto - 1),
            below[upto - 1],
            predicate,
            below[upto - 1].len() as int,
        );
    }
}

proof fn projected_lists(
    below: Seq<Seq<BatchView>>,
    lists: Seq<Seq<BatchView>>,
    exprs: Seq<ExprView>,
    schema: SchemaView,
    upto: int,
)
    requires
        0 <= upto <= lists.len(),
        below.len() == lists.len(),
        forall|i: int|
            0 <= i < lists.len() ==> all_projected(below[i], exprs, schema, below[i].len() as int)
                == Ok::<Seq<BatchView>, ErrorView>(#[trigger] lists[i]),
    ensures
        ({
            let all = joined_lists(below, upto);
            all_projected(all, exprs, schema, all.len() as int) == Ok::<Seq<BatchView>, ErrorView>(
                joined_lists(lists, upto),
            )
        }),
    decreases upto,
{
    if upto > 0 {
        projected_lists(below, lists, exprs, schema, upto - 1);
        assert(all_projected(below[upto - 1], exprs, schema, below[upto - 1].len() as int) == Ok::<
            Seq<BatchView>,
            ErrorView,
        >(lists[upto - 1]));
        projecting_goes_on(
            joined_lists(below, upto - 1),
            below[upto - 1],
            exprs,
            schema,
            below[upto - 1].len() as int,
        );
    }
}

// ---- schemas

/// Whether every batch has a schema.
pub open spec fn all_have(batches: Seq<BatchView>, schema: SchemaView) -> bool {
    forall|i: int| 0 <= i < batches.len() ==> (#[trigger] batches[i]).schema == schema
}

pub(crate) proof fn filters_keep_the_schema(batch: BatchView, predicates: Seq<ExprView>, upto: int)
    ensures
        filtered_by_all(batch, predicates, upto) matches Ok(out) ==> out.schema == batch.schema,
    decreases upto,
{
    if upto > 0 {
        filters_keep_the_schema(batch, predicates, upto - 1);
    }
}

pub(crate) proof fn scans_have_the_schema(
    before: Seq<BatchView>,
    batches: Seq<BatchView>,
    filters: Seq<ExprView>,
    schema: SchemaView,
    upto: int,
)
    requires
        all_have(before, schema),
    ensures
        scanned_batches(before, batches, filters, schema, upto) matches Ok(out) ==> all_have(
            out,
            schema,
        ),
    decreases upto,
{
    if upto > 0 {
        scans_have_the_schema(before, batches, filters, schema, upto - 1);
        if let Ok(out) = scanned_batches(before, batches, filters, schema, upto) {
            let batch = batches[upto - 1];
            if let Ok(named) = made_batch(schema, batch.columns, Some(batch.rows as usize)) {
                filters_keep_the_schema(named, filters, filters.len() as int);
            }
        }
    }
}

proof fn filtering_has_the_schema(
    batches: Seq<BatchView>,
    predicate: ExprView,
    schema: SchemaView,
    upto: int,
)
    requires
        all_have(batches, schema),
        0 <= upto <= batches.len(),
    ensures
        all_filtered(batches, predicate, upto) matches Ok(out) ==> all_have(out, schema),
    decreases upto,
{
    if upto > 0 {
        filtering_has_the_schema(batches, predicate, schema, upto - 1);
        assert(batches[upto - 1].schema == schema);
    }
}

proof fn projecting_has_the_schema(
    batches: Seq<BatchView>,
    exprs: Seq<ExprView>,
    schema: SchemaView,
    upto: int,
)
    ensures
        all_projected(batches, exprs, schema, upto) matches Ok(out) ==> all_have(out, schema),
    decreases upto,
{
    if upto > 0 {
        projecting_has_the_schema(batches, exprs, schema, upto - 1);
    }
}

/// What a partition of a plan gives has the plan's schema.
pub proof fn partitions_have_the_schema(
    plan: PhysicalView,
    catalog: Map<Seq<char>, TableView>,
    tables: Seq<NamedTableView>,
    partition: usize,
)
    requires
        is_partition_local(plan),
        transportable(plan, catalog),
    ensures
        local_result(plan, tables, Some(partition)) matches Ok(batches) ==> all_have(
            batches,
            plan.schema(),
        ),
    decreases plan,
{
    match plan {
        PhysicalView::Scan { table_name, projection, filters, schema, .. } => {
            if let Ok(place) = table_place(tables, table_name, 0) {
                if let Ok(batches) = scanned_partition(
                    tables[place].table,
                    partition as nat,
                    projection,
                ) {
                    scans_have_the_schema(
                        Seq::empty(),
                        batches,
                        filters,
                        schema,
                        batches.len() as int,
                    );
                }
            }
        },
        PhysicalView::Filter { input, predicate, schema, .. } => {
            partitions_have_the_schema(*input, catalog, tables, partition);
            if let Ok(batches) = local_result(*input, tables, Some(partition)) {
                filtering_has_the_schema(batches, predicate, schema, batches.len() as int);
            }
        },
        PhysicalView::Projection { input, exprs, schema, .. } => {
            if let Ok(batches) = local_result(*input, tables, Some(partition)) {
                projecting_has_the_schema(batches, exprs, schema, batches.len() as int);
            }
        },
        _ => {},
    }
}

} // verus!

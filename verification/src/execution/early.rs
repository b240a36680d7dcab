//! What comes out of a plan before it fails.

use crate::batch::{batch_outcome, batch_views, Batch, BatchView};
use crate::error::{ErrorView, SparkXError};
use crate::execution::run::{
    copy_columns, pushed_is_valid, run_limit, scanned, scanned_batch, scanned_batches,
};
use crate::execution::stream::{
    filter_batch, filter_scanned, filtered, limited, project_batch, projected, remaining_after,
};
use crate::expr::{expr_views, Expr, ExprView};
use crate::physical::{indices_view, PhysicalPlan, PhysicalView};
use crate::table::{
    all_valid, find_named, named_views, scanned_partition, table_place, MemoryTable,
    MemoryTableView, NamedTable, NamedTableView,
};
use crate::types::{Schema, SchemaView};
use vstd::prelude::*;

verus! {

/// What a scan makes of the first `upto` batches, up to the first of which it makes nothing.
pub open spec fn early_batches(
    batches: Seq<BatchView>,
    filters: Seq<ExprView>,
    schema: SchemaView,
    upto: int,
) -> Seq<BatchView>
    decreases upto,
{
    if upto <= 0 {
        Seq::empty()
    } else {
        let before = early_batches(batches, filters, schema, upto - 1);
        match scanned_batch(batches[upto - 1], filters, schema) {
            Ok(batch) => if before.len() == upto - 1 {
                before.push(batch)
            } else {
                before
            },
            Err(_) => before,
        }
    }
}

/// What a scan makes of the first `upto` partitions, up to the first batch of which it makes nothing.
pub open spec fn early_scanned(
    table: MemoryTableView,
    projection: Option<Seq<usize>>,
    filters: Seq<ExprView>,
    schema: SchemaView,
    upto: int,
) -> Seq<BatchView>
    decreases upto,
{
    if upto <= 0 {
        Seq::empty()
    } else {
        let before = early_scanned(table, projection, filters, schema, upto - 1);
        if scanned(table, projection, filters, schema, upto - 1) is Err {
            before
        } else {
            match scanned_partition(table, (upto - 1) as nat, projection) {
                Err(_) => before,
                Ok(batches) => before + early_batches(
                    batches,
                    filters,
                    schema,
                    batches.len() as int,
                ),
            }
        }
    }
}

/// What a filter makes of the first `upto` batches, up to the first of which it makes nothing.
pub open spec fn early_filtered(batches: Seq<BatchView>, predicate: ExprView, upto: int) -> Seq<
    BatchView,
>
    decreases upto,
{
    if upto <= 0 {
        Seq::empty()
    } else {
        let before = early_filtered(batches, predicate, upto - 1);
        match filtered(batches[upto - 1], predicate) {
            Ok(batch) => if before.len() == upto - 1 {
                before.push(batch)
            } else {
                before
            },
            Err(_) => before,
        }
    }
}

/// What a projection makes of the first `upto` batches, up to the first of which it makes nothing.
pub open spec fn early_projected(
    batches: Seq<BatchView>,
    exprs: Seq<ExprView>,
    schema: SchemaView,
    upto: int,
) -> Seq<BatchView>
    decreases upto,
{
    if upto <= 0 {
        Seq::empty()
    } else {
        let before = early_projected(batches, exprs, schema, upto - 1);
        match projected(batches[upto - 1], exprs, schema) {
            Ok(batch) => if before.len() == upto - 1 {
                before.push(batch)
            } else {
                before
            },
            Err(_) => before,
        }
    }
}

/// What comes out of a plan that fails before it does. An operator that needs all rows together puts
/// out one batch or fails, so that nothing comes out of it before.
pub open spec fn early(
    plan: PhysicalView,
    tables: Seq<NamedTableView>,
    partition: Option<usize>,
) -> Seq<BatchView>
    decreases plan,
{
    match plan {
        PhysicalView::Scan { table_name, projection, filters, schema, .. } => match table_place(
            tables,
            table_name,
            0,
        ) {
            Err(_) => Seq::empty(),
            Ok(place) => match partition {
                Some(partition) => match scanned_partition(
                    tables[place].table,
                    partition as nat,
                    projection,
                ) {
                    Err(_) => Seq::empty(),
                    Ok(batches) => early_batches(batches, filters, schema, batches.len() as int),
                },
                None => early_scanned(
                    tables[place].table,
                    projection,
                    filters,
                    schema,
                    tables[place].table.partitions.len() as int,
                ),
            },
        },
        PhysicalView::Filter { input, predicate, .. } => {
            let batches = early(*input, tables, partition);
            early_filtered(batches, predicate, batches.len() as int)
        },
        PhysicalView::Projection { input, exprs, schema, .. } => {
            let batches = early(*input, tables, partition);
            early_projected(batches, exprs, schema, batches.len() as int)
        },
        PhysicalView::Limit { input, limit, .. } => {
            let batches = early(*input, tables, partition);
            limited(batches, limit as int, batches.len() as int)
        },
        _ => Seq::empty(),
    }
}

/// Whether batches hold as many rows as a limit lets through.
pub open spec fn fills(batches: Seq<BatchView>, limit: usize) -> bool {
    remaining_after(batches, limit as int, batches.len() as int) == 0
}

proof fn a_scan_fails_where_it_stops(
    before: Seq<BatchView>,
    batches: Seq<BatchView>,
    filters: Seq<ExprView>,
    schema: SchemaView,
    upto: int,
)
    requires
        0 <= upto <= batches.len(),
    ensures
        early_batches(batches, filters, schema, upto).len() <= upto,
        match scanned_batches(before, batches, filters, schema, upto) {
            Ok(all) => early_batches(batches, filters, schema, upto).len() == upto && all == before
                + early_batches(batches, filters, schema, upto),
            Err(_) => early_batches(batches, filters, schema, upto).len() < upto,
        },
    decreases upto,
{
    if upto > 0 {
        a_scan_fails_where_it_stops(before, batches, filters, schema, upto - 1);
        let some = early_batches(batches, filters, schema, upto - 1);
        if let Ok(batch) = scanned_batch(batches[upto - 1], filters, schema) {
            assert((before + some).push(batch) =~= before + some.push(batch));
        }
    } else {
        assert(before + Seq::<BatchView>::empty() =~= before);
    }
}

fn scan_one(batch: &Batch, filters: &Vec<Expr>, schema: &Schema) -> (r: Result<Batch, SparkXError>)
    requires
        batch.wf(),
    ensures
        batch_outcome(r) == scanned_batch(batch@, expr_views(filters@), schema@),
        r matches Ok(next) ==> next.wf(),
{
    match Batch::try_new(schema.clone(), copy_columns(batch), Some(batch.num_rows())) {
        Ok(named) => filter_scanned(&named, filters),
        Err(error) => Err(error),
    }
}

/// Adds what a scan makes of batches before it fails; tells whether it does.
fn add_early(before: Vec<Batch>, batches: &Vec<Batch>, filters: &Vec<Expr>, schema: &Schema) -> (r: (
    Vec<Batch>,
    bool,
))
    requires
        all_valid(batch_views(before@)),
        all_valid(batch_views(batches@)),
    ensures
        ({
            let some = early_batches(
                batch_views(batches@),
                expr_views(filters@),
                schema@,
                batches.len() as int,
            );
            &&& batch_views(r.0@) == batch_views(before@) + some
            &&& r.1 == (some.len() < batches.len())
        }),
        all_valid(batch_views(r.0@)),
{
    let ghost first = batch_views(before@);
    let ghost views = batch_views(batches@);
    let ghost predicates = expr_views(filters@);
    let mut out = before;
    let mut stopped: bool = false;
    proof {
        assert(first + Seq::empty() =~= first);
    }
    for i in 0..batches.len()
        invariant
            first == batch_views(before@),
            views == batch_views(batches@),
            predicates == expr_views(filters@),
            all_valid(views),
            all_valid(batch_views(out@)),
            batch_views(out@) == first + early_batches(views, predicates, schema@, i as int),
            early_batches(views, predicates, schema@, i as int).len() <= i,
            stopped == (early_batches(views, predicates, schema@, i as int).len() < i),
    {
        let ghost so_far = batch_views(out@);
        let ghost some = early_batches(views, predicates, schema@, i as int);
        proof {
            assert(views[i as int] == batches@[i as int]@);
            assert(views[i as int].wf());
        }
        if !stopped {
            match scan_one(&batches[i], filters, schema) {
                Ok(batch) => {
                    let ghost view = batch@;
                    out.push(batch);
                    proof {
                        pushed_is_valid(so_far, view);
                        assert(batch_views(out@) =~= so_far.push(view));
                        assert((first + some).push(view) =~= first + some.push(view));
                    }
                },
                Err(_) => {
                    stopped = true;
                },
            }
        }
    }
    (out, stopped)
}

fn early_table_rows(
    table: &MemoryTable,
    projection: &Option<Vec<usize>>,
    filters: &Vec<Expr>,
    schema: &Schema,
) -> (r: Vec<Batch>)
    requires
        table.wf(),
    ensures
        batch_views(r@) == early_scanned(
            table@,
            indices_view(*projection),
            expr_views(filters@),
            schema@,
            table@.partitions.len() as int,
        ),
        all_valid(batch_views(r@)),
{
    let ghost indices = indices_view(*projection);
    let ghost predicates = expr_views(filters@);
    let mut out: Vec<Batch> = Vec::new();
    let mut stopped: bool = false;
    proof {
        assert(batch_views(out@) =~= Seq::empty());
    }
    let count: usize = table.partition_count();
    for i in 0..count
        invariant
            table.wf(),
            count == table@.partitions.len(),
            indices == indices_view(*projection),
            predicates == expr_views(filters@),
            all_valid(batch_views(out@)),
            batch_views(out@) == early_scanned(table@, indices, predicates, schema@, i as int),
            stopped == (scanned(table@, indices, predicates, schema@, i as int) is Err),
            !stopped ==> scanned(table@, indices, predicates, schema@, i as int) == Ok::<
                Seq<BatchView>,
                ErrorView,
            >(batch_views(out@)),
    {
        if !stopped {
            match table.scan_partition(i, projection) {
                Ok(batches) => {
                    let ghost before = batch_views(out@);
                    let (next, failed) = add_early(out, &batches, filters, schema);
                    out = next;
                    stopped = failed;
                    proof {
                        a_scan_fails_where_it_stops(
                            before,
                            batch_views(batches@),
                            predicates,
                            schema@,
                            batches.len() as int,
                        );
                    }
                },
                Err(_) => {
                    stopped = true;
                },
            }
        }
    }
    out
}

fn early_scan_rows(
    tables: &Vec<NamedTable>,
    name: &String,
    partition: Option<usize>,
    projection: &Option<Vec<usize>>,
    filters: &Vec<Expr>,
    schema: &Schema,
) -> (r: Vec<Batch>)
    requires
        forall|i: int| 0 <= i < tables.len() ==> (#[trigger] tables@[i]).table.wf(),
    ensures
        batch_views(r@) == (match table_place(named_views(tables@), name@, 0) {
            Err(_) => Seq::empty(),
            Ok(place) => {
                let table = named_views(tables@)[place].table;
                match partition {
                    Some(partition) => match scanned_partition(
                        table,
                        partition as nat,
                        indices_view(*projection),
                    ) {
                        Err(_) => Seq::empty(),
                        Ok(batches) => early_batches(
                            batches,
                            expr_views(filters@),
                            schema@,
                            batches.len() as int,
                        ),
                    },
                    None => early_scanned(
                        table,
                        indices_view(*projection),
                        expr_views(filters@),
                        schema@,
                        table.partitions.len() as int,
                    ),
                }
            },
        }),
        all_valid(batch_views(r@)),
{
    let none: Vec<Batch> = Vec::new();
    proof {
        assert(batch_views(none@) =~= Seq::empty());
    }
    let table = match find_named(tables, name.as_str()) {
        Ok(table) => table,
        Err(_) => return none,
    };
    match partition {
        Some(partition) => match table.scan_partition(partition, projection) {
            Ok(batches) => {
                let (out, _) = add_early(none, &batches, filters, schema);
                proof {
                    let some = early_batches(
                        batch_views(batches@),
                        expr_views(filters@),
                        schema@,
                        batches.len() as int,
                    );
                    assert(Seq::<BatchView>::empty() + some =~= some);
                }
                out
            },
            Err(_) => none,
        },
        None => early_table_rows(table, projection, filters, schema),
    }
}

fn filter_early(batches: &Vec<Batch>, predicate: &Expr) -> (r: Vec<Batch>)
    requires
        all_valid(batch_views(batches@)),
    ensures
        batch_views(r@) == early_filtered(
            batch_views(batches@),
            predicate@,
            batches.len() as int,
        ),
        all_valid(batch_views(r@)),
{
    let ghost views = batch_views(batches@);
    let mut out: Vec<Batch> = Vec::new();
    proof {
        assert(batch_views(out@) =~= Seq::empty());
    }
    for i in 0..batches.len()
        invariant
            views == batch_views(batches@),
            all_valid(views),
            all_valid(batch_views(out@)),
            batch_views(out@) == early_filtered(views, predicate@, i as int),
    {
        let ghost so_far = batch_views(out@);
        proof {
            assert(views[i as int] == batches@[i as int]@);
            assert(views[i as int].wf());
        }
        if let Ok(batch) = filter_batch(&batches[i], predicate) {
            if out.len() == i {
                let ghost view = batch@;
                out.push(batch);
                proof {
                    pushed_is_valid(so_far, view);
                    assert(batch_views(out@) =~= so_far.push(view));
                }
            }
        }
    }
    out
}

fn project_early(batches: &Vec<Batch>, exprs: &Vec<Expr>, schema: &Schema) -> (r: Vec<Batch>)
    requires
        all_valid(batch_views(batches@)),
    ensures
        batch_views(r@) == early_projected(
            batch_views(batches@),
            expr_views(exprs@),
            schema@,
            batches.len() as int,
        ),
        all_valid(batch_views(r@)),
{
    let ghost views = batch_views(batches@);
    let mut out: Vec<Batch> = Vec::new();
    proof {
        assert(batch_views(out@) =~= Seq::empty());
    }
    for i in 0..batches.len()
        invariant
            views == batch_views(batches@),
            all_valid(views),
            all_valid(batch_views(out@)),
            batch_views(out@) == early_projected(views, expr_views(exprs@), schema@, i as int),
    {
        let ghost so_far = batch_views(out@);
        proof {
            assert(views[i as int] == batches@[i as int]@);
            assert(views[i as int].wf());
        }
        if let Ok(batch) = project_batch(&batches[i], exprs, schema) {
            if out.len() == i {
                let ghost view = batch@;
                out.push(batch);
                proof {
                    pushed_is_valid(so_far, view);
                    assert(batch_views(out@) =~= so_far.push(view));
                }
            }
        }
    }
    out
}

/// What comes out of a plan that fails before it does.
pub(crate) fn early_rows(
    plan: &PhysicalPlan,
    tables: &Vec<NamedTable>,
    partition: Option<usize>,
) -> (r: Vec<Batch>)
    requires
        forall|i: int| 0 <= i < tables.len() ==> (#[trigger] tables@[i]).table.wf(),
    ensures
        batch_views(r@) == early(plan@, named_views(tables@), partition),
        all_valid(batch_views(r@)),
    decreases plan,
{
    match plan {
        PhysicalPlan::Scan { table_name, projection, filters, schema, .. } => {
            early_scan_rows(tables, table_name, partition, projection, filters, schema)
        },
        PhysicalPlan::Filter { input, predicate, .. } => {
            filter_early(&early_rows(input, tables, partition), predicate)
        },
        PhysicalPlan::Projection { input, exprs, schema, .. } => {
            project_early(&early_rows(input, tables, partition), exprs, schema)
        },
        PhysicalPlan::Limit { input, limit, .. } => {
            run_limit(&early_rows(input, tables, partition), *limit)
        },
        _ => {
            let none: Vec<Batch> = Vec::new();
            proof {
                assert(batch_views(none@) =~= Seq::empty());
            }
            none
        },
    }
}

/// Whether batches hold as many rows as a limit lets through.
pub(crate) fn do_fill(batches: &Vec<Batch>, limit: usize) -> (r: bool)
    ensures
        r == fills(batch_views(batches@), limit),
{
    let ghost views = batch_views(batches@);
    let mut remaining: usize = limit;
    for i in 0..batches.len()
        invariant
            views == batch_views(batches@),
            remaining == remaining_after(views, limit as int, i as int),
    {
        proof {
            assert(views[i as int] == batches@[i as int]@);
        }
        let rows: usize = batches[i].num_rows();
        remaining = if remaining < rows {
            0
        } else {
            remaining - rows
        };
    }
    remaining == 0
}

} // verus!

//! A whole plan at work.

use crate::batch::{batch_outcome, batch_views, made_batch, Batch, BatchView};
use crate::cluster::hash_exchange::batch_charge;
use crate::error::{ErrorView, SparkXError};
use crate::execution::aggregate::{aggregated, hash_aggregate};
use crate::execution::concat::{of_schema, total_rows, total_rows_grow};
use crate::execution::early::{do_fill, early, early_rows, fills};
use crate::execution::join::{hash_join, joined, right_width_of, rows_fit};
use crate::execution::sort::{are_sorted, computable, sort_batches};
use crate::execution::state::MAX_VALUES;
use crate::execution::stream::{
    filter_batch, filter_scanned, filtered, filtered_by_all, first_rows, limit_batch, limited,
    project_batch, projected, remaining_after, rows_kept,
};
use crate::expr::{expr_views, Expr, ExprView};
use crate::logical::{sort_views, JoinType, SortExpr, SortView};
use crate::metrics::{MetricsView, QueryMetrics};
use crate::physical::{indices_view, PhysicalPlan, PhysicalView};
use crate::table::{
    all_valid, batches_outcome, find_named, named_views, scanned_partition, table_place,
    MemoryTable, MemoryTableView, NamedTable, NamedTableView,
};
use crate::types::{Schema, SchemaView};
use vstd::prelude::*;

verus! {

/// A batch of a scan under the names of the scan's schema, with the rows that pass the filters.
pub open spec fn scanned_batch(batch: BatchView, filters: Seq<ExprView>, schema: SchemaView) -> Result<
    BatchView,
    ErrorView,
> {
    match made_batch(schema, batch.columns, Some(batch.rows as usize)) {
        Err(error) => Err(error),
        Ok(named) => filtered_by_all(named, filters, filters.len() as int),
    }
}

/// What the first `upto` batches of a partition give.
pub open spec fn scanned_batches(
    before: Seq<BatchView>,
    batches: Seq<BatchView>,
    filters: Seq<ExprView>,
    schema: SchemaView,
    upto: int,
) -> Result<Seq<BatchView>, ErrorView>
    decreases upto,
{
    if upto <= 0 {
        Ok(before)
    } else {
        match scanned_batches(before, batches, filters, schema, upto - 1) {
            Err(error) => Err(error),
            Ok(out) => match scanned_batch(batches[upto - 1], filters, schema) {
                Err(error) => Err(error),
                Ok(batch) => Ok(out.push(batch)),
            },
        }
    }
}

proof fn scanning_batches_fails_early(
    before: Seq<BatchView>,
    batches: Seq<BatchView>,
    filters: Seq<ExprView>,
    schema: SchemaView,
    upto: int,
    full: int,
)
    requires
        0 <= upto <= full,
        scanned_batches(before, batches, filters, schema, upto) is Err,
    ensures
        scanned_batches(before, batches, filters, schema, full) == scanned_batches(
            before,
            batches,
            filters,
            schema,
            upto,
        ),
    decreases full - upto,
{
    if upto < full {
        scanning_batches_fails_early(before, batches, filters, schema, upto, full - 1);
    }
}

/// What the scan of a partition adds.
pub open spec fn scan_added(
    before: Seq<BatchView>,
    table: MemoryTableView,
    partition: nat,
    projection: Option<Seq<usize>>,
    filters: Seq<ExprView>,
    schema: SchemaView,
) -> Result<Seq<BatchView>, ErrorView> {
    match scanned_partition(table, partition, projection) {
        Err(error) => Err(error),
        Ok(batches) => scanned_batches(before, batches, filters, schema, batches.len() as int),
    }
}

/// What the scan of the first `upto` partitions gives.
pub open spec fn scanned(
    table: MemoryTableView,
    projection: Option<Seq<usize>>,
    filters: Seq<ExprView>,
    schema: SchemaView,
    upto: int,
) -> Result<Seq<BatchView>, ErrorView>
    decreases upto,
{
    if upto <= 0 {
        Ok(Seq::empty())
    } else {
        match scanned(table, projection, filters, schema, upto - 1) {
            Err(error) => Err(error),
            Ok(before) => scan_added(
                before,
                table,
                (upto - 1) as nat,
                projection,
                filters,
                schema,
            ),
        }
    }
}

proof fn scanning_fails_early(
    table: MemoryTableView,
    projection: Option<Seq<usize>>,
    filters: Seq<ExprView>,
    schema: SchemaView,
    upto: int,
    full: int,
)
    requires
        0 <= upto <= full,
        scanned(table, projection, filters, schema, upto) is Err,
    ensures
        scanned(table, projection, filters, schema, full) == scanned(
            table,
            projection,
            filters,
            schema,
            upto,
        ),
    decreases full - upto,
{
    if upto < full {
        scanning_fails_early(table, projection, filters, schema, upto, full - 1);
    }
}

/// What a scan gives: of one partition, or of all.
pub open spec fn scan_result(
    tables: Seq<NamedTableView>,
    name: Seq<char>,
    partition: Option<usize>,
    projection: Option<Seq<usize>>,
    filters: Seq<ExprView>,
    schema: SchemaView,
) -> Result<Seq<BatchView>, ErrorView> {
    match table_place(tables, name, 0) {
        Err(error) => Err(error),
        Ok(place) => match partition {
            Some(partition) => scan_added(
                Seq::empty(),
                tables[place].table,
                partition as nat,
                projection,
                filters,
                schema,
            ),
            None => scanned(
                tables[place].table,
                projection,
                filters,
                schema,
                tables[place].table.partitions.len() as int,
            ),
        },
    }
}

/// Metrics after the first `upto` batches of a partition were read.
pub open spec fn read_metrics(metrics: MetricsView, batches: Seq<BatchView>, upto: int) -> MetricsView
    decreases upto,
{
    if upto <= 0 {
        metrics
    } else {
        let batch = batches[upto - 1];
        read_metrics(metrics, batches, upto - 1).with_input(batch.rows).with_scanned_bytes(
            batch_charge(batch.columns),
        )
    }
}

/// Metrics after a task read a partition.
pub open spec fn partition_metrics(
    metrics: MetricsView,
    table: MemoryTableView,
    partition: nat,
    projection: Option<Seq<usize>>,
) -> MetricsView {
    match scanned_partition(table, partition, projection) {
        Err(_) => metrics.with_task(),
        Ok(batches) => read_metrics(metrics.with_task(), batches, batches.len() as int),
    }
}

/// Metrics after the first `upto` partitions were read.
pub open spec fn partitions_metrics(
    metrics: MetricsView,
    table: MemoryTableView,
    projection: Option<Seq<usize>>,
    upto: int,
) -> MetricsView
    decreases upto,
{
    if upto <= 0 {
        metrics
    } else {
        partition_metrics(
            partitions_metrics(metrics, table, projection, upto - 1),
            table,
            (upto - 1) as nat,
            projection,
        )
    }
}

/// Metrics after a scan: of one partition, or of all.
pub open spec fn scan_metrics(
    metrics: MetricsView,
    tables: Seq<NamedTableView>,
    name: Seq<char>,
    partition: Option<usize>,
    projection: Option<Seq<usize>>,
) -> MetricsView {
    match table_place(tables, name, 0) {
        Err(_) => metrics,
        Ok(place) => match partition {
            Some(partition) => partition_metrics(
                metrics,
                tables[place].table,
                partition as nat,
                projection,
            ),
            None => partitions_metrics(
                metrics,
                tables[place].table,
                projection,
                tables[place].table.partitions.len() as int,
            ),
        },
    }
}

fn add_scan(
    before: Vec<Batch>,
    table: &MemoryTable,
    partition: usize,
    projection: &Option<Vec<usize>>,
    filters: &Vec<Expr>,
    schema: &Schema,
    metrics: &mut QueryMetrics,
) -> (r: Result<Vec<Batch>, SparkXError>)
    requires
        table.wf(),
        all_valid(batch_views(before@)),
    ensures
        r is Ok ==> final(metrics)@ == partition_metrics(
            old(metrics)@,
            table@,
            partition as nat,
            indices_view(*projection),
        ),
        batches_outcome(r) == scan_added(
            batch_views(before@),
            table@,
            partition as nat,
            indices_view(*projection),
            expr_views(filters@),
            schema@,
        ),
        r matches Ok(out) ==> all_valid(batch_views(out@)),
{
    metrics.add_task();
    let ghost begun = metrics@;
    let batches = match table.scan_partition(partition, projection) {
        Ok(batches) => batches,
        Err(error) => return Err(error),
    };
    let ghost first = batch_views(before@);
    let ghost views = batch_views(batches@);
    let ghost predicates = expr_views(filters@);
    let mut out = before;
    for i in 0..batches.len()
        invariant
            views == batch_views(batches@),
            predicates == expr_views(filters@),
            all_valid(views),
            first == batch_views(before@),
            begun == old(metrics)@.with_task(),
            metrics@ == read_metrics(begun, views, i as int),
            all_valid(batch_views(out@)),
            scanned_partition(table@, partition as nat, indices_view(*projection)) == Ok::<
                Seq<BatchView>,
                ErrorView,
            >(views),
            scanned_batches(first, views, predicates, schema@, i as int) == Ok::<
                Seq<BatchView>,
                ErrorView,
            >(batch_views(out@)),
    {
        let ghost so_far = batch_views(out@);
        proof {
            assert(views[i as int] == batches@[i as int]@);
            assert(views[i as int].wf());
        }
        metrics.record_input(batches[i].num_rows());
        metrics.add_scanned_bytes(batches[i].memory_size());
        let named = match Batch::try_new(
            schema.clone(),
            copy_columns(&batches[i]),
            Some(batches[i].num_rows()),
        ) {
            Ok(named) => named,
            Err(error) => {
                proof {
                    scanning_batches_fails_early(
                        first,
                        views,
                        predicates,
                        schema@,
                        i + 1,
                        batches.len() as int,
                    );
                }
                return Err(error);
            },
        };
        match filter_scanned(&named, filters) {
            Ok(batch) => {
                let ghost view = batch@;
                out.push(batch);
                proof {
                    pushed_is_valid(so_far, view);
                    assert(batch_views(out@) =~= so_far.push(view));
                }
            },
            Err(error) => {
                proof {
                    scanning_batches_fails_early(
                        first,
                        views,
                        predicates,
                        schema@,
                        i + 1,
                        batches.len() as int,
                    );
                }
                return Err(error);
            },
        }
    }
    Ok(out)
}

pub fn copy_columns(batch: &Batch) -> (r: Vec<crate::column::Column>)
    ensures
        crate::column::column_views(r@) == batch@.columns,
{
    let columns = batch.columns();
    let ghost views = crate::column::column_views(columns@);
    let mut copy: Vec<crate::column::Column> = Vec::new();
    for i in 0..columns.len()
        invariant
            views == crate::column::column_views(columns@),
            copy.len() == i,
            forall|k: int| 0 <= k < i ==> (#[trigger] copy@[k])@ == columns@[k]@,
    {
        copy.push(columns[i].clone());
    }
    proof {
        assert(crate::column::column_views(copy@) =~= views);
    }
    copy
}

pub(crate) proof fn pushed_is_valid(batches: Seq<BatchView>, batch: BatchView)
    requires
        all_valid(batches),
        batch.wf(),
    ensures
        all_valid(batches.push(batch)),
{
    assert forall|k: int| 0 <= k < batches.push(batch).len() implies (#[trigger] batches.push(
        batch,
    )[k]).wf() by {
        if k < batches.len() {
            assert(batches[k].wf());
        }
    }
}

#[verifier::rlimit(60)]
fn run_scan(
    tables: &Vec<NamedTable>,
    name: &String,
    partition: Option<usize>,
    projection: &Option<Vec<usize>>,
    filters: &Vec<Expr>,
    schema: &Schema,
    metrics: &mut QueryMetrics,
) -> (r: Result<Vec<Batch>, SparkXError>)
    requires
        forall|i: int| 0 <= i < tables.len() ==> (#[trigger] tables@[i]).table.wf(),
    ensures
        r is Ok ==> final(metrics)@ == scan_metrics(
            old(metrics)@,
            named_views(tables@),
            name@,
            partition,
            indices_view(*projection),
        ),
        batches_outcome(r) == scan_result(
            named_views(tables@),
            name@,
            partition,
            indices_view(*projection),
            expr_views(filters@),
            schema@,
        ),
        r matches Ok(out) ==> all_valid(batch_views(out@)),
{
    let table = match find_named(tables, name.as_str()) {
        Ok(table) => table,
        Err(error) => return Err(error),
    };
    let mut out: Vec<Batch> = Vec::new();
    proof {
        assert(batch_views(out@) =~= Seq::empty());
    }
    if let Some(partition) = partition {
        return add_scan(out, table, partition, projection, filters, schema, metrics);
    }
    let ghost indices = indices_view(*projection);
    let ghost predicates = expr_views(filters@);
    let count: usize = table.partition_count();
    for i in 0..count
        invariant
            table.wf(),
            count == table@.partitions.len(),
            indices == indices_view(*projection),
            predicates == expr_views(filters@),
            all_valid(batch_views(out@)),
            metrics@ == partitions_metrics(old(metrics)@, table@, indices, i as int),
            partition is None,
            table_place(named_views(tables@), name@, 0) matches Ok(place) && table@ == named_views(
                tables@,
            )[place].table,
            scanned(table@, indices, predicates, schema@, i as int) == Ok::<
                Seq<BatchView>,
                ErrorView,
            >(batch_views(out@)),
    {
        match add_scan(out, table, i, projection, filters, schema, metrics) {
            Ok(next) => {
                out = next;
            },
            Err(error) => {
                proof {
                    scanning_fails_early(
                        table@,
                        indices,
                        predicates,
                        schema@,
                        i + 1,
                        count as int,
                    );
                }
                return Err(error);
            },
        }
    }
    Ok(out)
}

/// The first `upto` batches, each projected.
pub open spec fn all_projected(
    batches: Seq<BatchView>,
    exprs: Seq<ExprView>,
    schema: SchemaView,
    upto: int,
) -> Result<Seq<BatchView>, ErrorView>
    decreases upto,
{
    if upto <= 0 {
        Ok(Seq::empty())
    } else {
        match all_projected(batches, exprs, schema, upto - 1) {
            Err(error) => Err(error),
            Ok(out) => match projected(batches[upto - 1], exprs, schema) {
                Err(error) => Err(error),
                Ok(batch) => Ok(out.push(batch)),
            },
        }
    }
}

proof fn projecting_fails_early(
    batches: Seq<BatchView>,
    exprs: Seq<ExprView>,
    schema: SchemaView,
    upto: int,
    full: int,
)
    requires
        0 <= upto <= full,
        all_projected(batches, exprs, schema, upto) is Err,
    ensures
        all_projected(batches, exprs, schema, full) == all_projected(batches, exprs, schema, upto),
    decreases full - upto,
{
    if upto < full {
        projecting_fails_early(batches, exprs, schema, upto, full - 1);
    }
}

fn run_projection(batches: &Vec<Batch>, exprs: &Vec<Expr>, schema: &Schema) -> (r: Result<
    Vec<Batch>,
    SparkXError,
>)
    requires
        all_valid(batch_views(batches@)),
    ensures
        batches_outcome(r) == all_projected(
            batch_views(batches@),
            expr_views(exprs@),
            schema@,
            batches.len() as int,
        ),
        r matches Ok(out) ==> all_valid(batch_views(out@)),
{
    let ghost views = batch_views(batches@);
    let ghost wanted = expr_views(exprs@);
    let mut out: Vec<Batch> = Vec::new();
    proof {
        assert(batch_views(out@) =~= Seq::empty());
    }
    for i in 0..batches.len()
        invariant
            views == batch_views(batches@),
            wanted == expr_views(exprs@),
            all_valid(views),
            all_valid(batch_views(out@)),
            all_projected(views, wanted, schema@, i as int) == Ok::<Seq<BatchView>, ErrorView>(
                batch_views(out@),
            ),
    {
        let ghost so_far = batch_views(out@);
        proof {
            assert(views[i as int] == batches@[i as int]@);
            assert(views[i as int].wf());
        }
        match project_batch(&batches[i], exprs, schema) {
            Ok(batch) => {
                let ghost view = batch@;
                out.push(batch);
                proof {
                    pushed_is_valid(so_far, view);
                    assert(batch_views(out@) =~= so_far.push(view));
                }
            },
            Err(error) => {
                proof {
                    projecting_fails_early(views, wanted, schema@, i + 1, batches.len() as int);
                }
                return Err(error);
            },
        }
    }
    Ok(out)
}

/// The first `upto` batches, each filtered.
pub open spec fn all_filtered(batches: Seq<BatchView>, predicate: ExprView, upto: int) -> Result<
    Seq<BatchView>,
    ErrorView,
>
    decreases upto,
{
    if upto <= 0 {
        Ok(Seq::empty())
    } else {
        match all_filtered(batches, predicate, upto - 1) {
            Err(error) => Err(error),
            Ok(out) => match filtered(batches[upto - 1], predicate) {
                Err(error) => Err(error),
                Ok(batch) => Ok(out.push(batch)),
            },
        }
    }
}

proof fn filtering_fails_early(
    batches: Seq<BatchView>,
    predicate: ExprView,
    upto: int,
    full: int,
)
    requires
        0 <= upto <= full,
        all_filtered(batches, predicate, upto) is Err,
    ensures
        all_filtered(batches, predicate, full) == all_filtered(batches, predicate, upto),
    decreases full - upto,
{
    if upto < full {
        filtering_fails_early(batches, predicate, upto, full - 1);
    }
}

fn run_filter(batches: &Vec<Batch>, predicate: &Expr) -> (r: Result<Vec<Batch>, SparkXError>)
    requires
        all_valid(batch_views(batches@)),
    ensures
        batches_outcome(r) == all_filtered(
            batch_views(batches@),
            predicate@,
            batches.len() as int,
        ),
        r matches Ok(out) ==> all_valid(batch_views(out@)),
{
    let ghost views = batch_views(batches@);
    let mut out: Vec<Batch> = Vec::new();
    proof {
        assert(batch_views(out@) =~= Seq::empty());
    }
    for i in 0..batches.len()
        invariant
            views == batch_views(batches@),
            all_valid(views),
            all_valid(batch_views(out@)),
            all_filtered(views, predicate@, i as int) == Ok::<Seq<BatchView>, ErrorView>(
                batch_views(out@),
            ),
    {
        let ghost so_far = batch_views(out@);
        proof {
            assert(views[i as int] == batches@[i as int]@);
            assert(views[i as int].wf());
        }
        match filter_batch(&batches[i], predicate) {
            Ok(batch) => {
                let ghost view = batch@;
                out.push(batch);
                proof {
                    pushed_is_valid(so_far, view);
                    assert(batch_views(out@) =~= so_far.push(view));
                }
            },
            Err(error) => {
                proof {
                    filtering_fails_early(views, predicate@, i + 1, batches.len() as int);
                }
                return Err(error);
            },
        }
    }
    Ok(out)
}

pub(crate) fn run_limit(batches: &Vec<Batch>, limit: usize) -> (r: Vec<Batch>)
    requires
        all_valid(batch_views(batches@)),
    ensures
        batch_views(r@) == limited(batch_views(batches@), limit as int, batches.len() as int),
        all_valid(batch_views(r@)),
{
    let ghost views = batch_views(batches@);
    let mut out: Vec<Batch> = Vec::new();
    let mut remaining: usize = limit;
    proof {
        assert(batch_views(out@) =~= Seq::empty());
    }
    for i in 0..batches.len()
        invariant
            views == batch_views(batches@),
            all_valid(views),
            all_valid(batch_views(out@)),
            batch_views(out@) == limited(views, limit as int, i as int),
            remaining == remaining_after(views, limit as int, i as int),
    {
        let ghost so_far = batch_views(out@);
        proof {
            assert(views[i as int] == batches@[i as int]@);
            assert(views[i as int].wf());
        }
        let (kept, next) = limit_batch(&batches[i], remaining);
        remaining = next;
        if let Some(batch) = kept {
            let ghost view = batch@;
            out.push(batch);
            proof {
                pushed_is_valid(so_far, view);
                assert(batch_views(out@) =~= so_far.push(view));
            }
        }
    }
    out
}

/// The error of an operator whose input it cannot take.
pub open spec fn misfit() -> ErrorView {
    ErrorView::Execution("operator input does not fit its schema"@)
}

pub fn misfit_error() -> (r: SparkXError)
    ensures
        r@ == misfit(),
{
    SparkXError::execution("operator input does not fit its schema".to_owned())
}

/// Whether there are no more rows than can be counted.
pub open spec fn countable(batches: Seq<BatchView>) -> bool {
    total_rows(batches, batches.len() as int) <= MAX_VALUES && total_rows(
        batches,
        batches.len() as int,
    ) <= usize::MAX
}

fn is_countable(batches: &Vec<Batch>) -> (r: bool)
    ensures
        r == countable(batch_views(batches@)),
{
    let ghost views = batch_views(batches@);
    let limit: u64 = if (usize::MAX as u64) < MAX_VALUES {
        usize::MAX as u64
    } else {
        MAX_VALUES
    };
    let mut total: u64 = 0;
    for i in 0..batches.len()
        invariant
            views == batch_views(batches@),
            total == total_rows(views, i as int),
            total <= limit,
            limit <= MAX_VALUES,
            limit <= usize::MAX,
            limit == MAX_VALUES || limit == usize::MAX,
    {
        proof {
            assert(views[i as int] == batches@[i as int]@);
            total_rows_grow(views, i + 1, batches.len() as int);
        }
        let more: u64 = batches[i].num_rows() as u64;
        if more > limit - total {
            return false;
        }
        total = total + more;
    }
    true
}

/// Whether batches can be put together into one of a schema.
pub open spec fn fits(batches: Seq<BatchView>, schema: SchemaView) -> bool {
    &&& computable(schema)
    &&& of_schema(batches, schema)
    &&& countable(batches)
}

fn does_fit(batches: &Vec<Batch>, schema: &Schema) -> (r: bool)
    requires
        all_valid(batch_views(batches@)),
    ensures
        r == fits(batch_views(batches@), schema@),
{
    let ghost views = batch_views(batches@);
    let width: usize = schema.fields.len();
    for k in 0..width
        invariant
            width == schema.fields.len(),
            forall|j: int|
                0 <= j < k ==> !((#[trigger] schema@.fields[j]).data_type is Other),
    {
        proof {
            assert(schema@.fields[k as int] == schema.fields@[k as int]@);
        }
        if let crate::types::DataType::Other(_) = &schema.fields[k].data_type {
            return false;
        }
    }
    for i in 0..batches.len()
        invariant
            width == schema.fields.len(),
            views == batch_views(batches@),
            all_valid(views),
            forall|j: int, k: int|
                #![trigger views[j].columns[k]]
                0 <= j < i ==> views[j].columns.len() == width && (0 <= k < width
                    ==> views[j].columns[k].data_type() == schema@.fields[k].data_type),
    {
        proof {
            assert(views[i as int] == batches@[i as int]@);
            assert(views[i as int].wf());
            let column = views[i as int].columns[0];
        }
        if batches[i].num_columns() != width {
            return false;
        }
        for k in 0..width
            invariant
                width == schema.fields.len(),
                views == batch_views(batches@),
                i < batches.len(),
                views[i as int] == batches@[i as int]@,
                views[i as int].columns.len() == width,
                forall|j: int|
                    0 <= j < k ==> (#[trigger] views[i as int].columns[j]).data_type()
                        == schema@.fields[j].data_type,
        {
            proof {
                assert(schema@.fields[k as int] == schema.fields@[k as int]@);
                let column = views[i as int].columns[k as int];
            }
            if !batches[i].column(k).data_type().same(&schema.fields[k].data_type) {
                return false;
            }
        }
    }
    proof {
        assert forall|i: int, k: int|
            #![trigger views[i].columns[k]]
            0 <= i < views.len() implies views[i].wf() && views[i].columns.len()
            == schema@.fields.len() && (0 <= k < schema@.fields.len()
            ==> views[i].columns[k].data_type() == schema@.fields[k].data_type) by {
            assert(views[i].wf());
        }
    }
    is_countable(batches)
}

fn do_rows_fit(
    left: &Vec<Batch>,
    right: &Vec<Batch>,
    join_type: JoinType,
    schema: &Schema,
) -> (r: bool)
    ensures
        r == rows_fit(batch_views(left@), batch_views(right@), join_type, schema@),
{
    let ghost lefts = batch_views(left@);
    let ghost rights = batch_views(right@);
    let width: usize = schema.fields.len();
    let first_left: usize = if left.len() > 0 {
        proof {
            assert(lefts[0] == left@[0]@);
        }
        left[0].num_columns()
    } else {
        0
    };
    let right_width: usize = if right.len() > 0 {
        proof {
            assert(rights[0] == right@[0]@);
        }
        right[0].num_columns()
    } else if first_left < width {
        width - first_left
    } else {
        0
    };
    proof {
        assert(right_width == right_width_of(lefts, rights, schema@));
    }
    for i in 0..left.len()
        invariant
            lefts == batch_views(left@),
            rights == batch_views(right@),
            width == schema@.fields.len(),
            right_width == right_width_of(lefts, rights, schema@),
            forall|j: int, k: int|
                0 <= j < i && 0 <= k < rights.len() ==> (#[trigger] lefts[j]).columns.len() + (
                #[trigger] rights[k]).columns.len() <= width,
            join_type == JoinType::Left ==> forall|j: int|
                0 <= j < i ==> (#[trigger] lefts[j]).columns.len() + right_width <= width,
    {
        proof {
            assert(lefts[i as int] == left@[i as int]@);
        }
        let columns: usize = left[i].num_columns();
        if join_type == JoinType::Left && (columns > width || right_width > width - columns) {
            return false;
        }
        for k in 0..right.len()
            invariant
                lefts == batch_views(left@),
                rights == batch_views(right@),
                width == schema@.fields.len(),
                i < left.len(),
                columns == lefts[i as int].columns.len(),
                forall|j: int|
                    0 <= j < k ==> columns + (#[trigger] rights[j]).columns.len() <= width,
        {
            proof {
                assert(rights[k as int] == right@[k as int]@);
            }
            if columns > width || right[k].num_columns() > width - columns {
                proof {
                    assert(lefts[i as int].columns.len() + rights[k as int].columns.len() > width);
                }
                return false;
            }
        }
    }
    true
}

/// What sorting an operator's input gives.
pub open spec fn sort_step(
    input: Result<Seq<BatchView>, ErrorView>,
    sorts: Seq<SortView>,
    schema: SchemaView,
    r: Result<BatchView, ErrorView>,
) -> bool {
    match input {
        Err(error) => r == Err::<BatchView, ErrorView>(error),
        Ok(batches) => if fits(batches, schema) {
            are_sorted(r, batches, sorts, schema)
        } else {
            r == Err::<BatchView, ErrorView>(misfit())
        },
    }
}

/// One batch as a list.
pub open spec fn alone(r: Result<BatchView, ErrorView>) -> Result<Seq<BatchView>, ErrorView> {
    match r {
        Ok(batch) => Ok(seq![batch]),
        Err(error) => Err(error),
    }
}

/// The first rows of a sorted batch as a list.
pub open spec fn topmost(r: Result<BatchView, ErrorView>, limit: int) -> Result<
    Seq<BatchView>,
    ErrorView,
> {
    match r {
        Ok(batch) => Ok(seq![first_rows(batch, rows_kept(batch, limit))]),
        Err(error) => Err(error),
    }
}

/// What aggregating an operator's input gives.
pub open spec fn aggregate_step(
    input: Result<Seq<BatchView>, ErrorView>,
    group_exprs: Seq<ExprView>,
    aggregate_exprs: Seq<ExprView>,
    schema: SchemaView,
) -> Result<Seq<BatchView>, ErrorView> {
    match input {
        Err(error) => Err(error),
        Ok(batches) => if countable(batches) && group_exprs.len() + aggregate_exprs.len()
            <= usize::MAX {
            alone(aggregated(batches, group_exprs, aggregate_exprs, schema))
        } else {
            Err(misfit())
        },
    }
}

/// What joining two inputs gives.
pub open spec fn join_step(
    left: Result<Seq<BatchView>, ErrorView>,
    right: Result<Seq<BatchView>, ErrorView>,
    join_type: JoinType,
    left_on: Seq<ExprView>,
    right_on: Seq<ExprView>,
    schema: SchemaView,
) -> Result<Seq<BatchView>, ErrorView> {
    match left {
        Err(error) => Err(error),
        Ok(lefts) => match right {
            Err(error) => Err(error),
            Ok(rights) => if rows_fit(lefts, rights, join_type, schema) {
                alone(joined(lefts, rights, join_type, left_on, right_on, schema))
            } else {
                Err(misfit())
            },
        },
    }
}

/// What the operators of a plan gave in a run: for a scan, for an operator with one input (with what
/// came of sorting it, where it sorts), and for a join.
pub enum Trace {
    Scan { result: Result<Seq<BatchView>, ErrorView> },
    Step {
        input: Box<Trace>,
        sorted: Result<BatchView, ErrorView>,
        result: Result<Seq<BatchView>, ErrorView>,
    },
    Join { left: Box<Trace>, right: Box<Trace>, result: Result<Seq<BatchView>, ErrorView> },
}

impl Trace {
    /// What the operator at the top gave.
    pub open spec fn result(self) -> Result<Seq<BatchView>, ErrorView> {
        match self {
            Trace::Scan { result } => result,
            Trace::Step { result, .. } => result,
            Trace::Join { result, .. } => result,
        }
    }
}

/// What an operator with one input makes of it.
pub open spec fn step_holds(
    plan: PhysicalView,
    input: Result<Seq<BatchView>, ErrorView>,
    sorted: Result<BatchView, ErrorView>,
    r: Result<Seq<BatchView>, ErrorView>,
) -> bool {
    match plan {
        PhysicalView::Projection { exprs, schema, .. } => r == (match input {
            Err(error) => Err(error),
            Ok(batches) => all_projected(batches, exprs, schema, batches.len() as int),
        }),
        PhysicalView::Filter { predicate, .. } => r == (match input {
            Err(error) => Err(error),
            Ok(batches) => all_filtered(batches, predicate, batches.len() as int),
        }),
        PhysicalView::HashAggregate { group_exprs, aggregate_exprs, schema, .. } => r
            == aggregate_step(input, group_exprs, aggregate_exprs, schema),
        PhysicalView::Sort { exprs, schema, .. } => sort_step(input, exprs, schema, sorted) && r
            == alone(sorted),
        PhysicalView::Limit { limit, .. } => r == (match input {
            Err(error) => Err(error),
            Ok(batches) => Ok(limited(batches, limit as int, batches.len() as int)),
        }),
        PhysicalView::TopK { exprs, limit, schema, .. } => sort_step(input, exprs, schema, sorted)
            && r == topmost(sorted, limit as int),
        PhysicalView::Scan { .. } | PhysicalView::HashJoin { .. } => false,
    }
}

/// The input of an operator that has one.
pub open spec fn input_of(plan: PhysicalView) -> PhysicalView
    recommends
        !(plan is Scan),
        !(plan is HashJoin),
{
    match plan {
        PhysicalView::Projection { input, .. } => *input,
        PhysicalView::Filter { input, .. } => *input,
        PhysicalView::HashAggregate { input, .. } => *input,
        PhysicalView::Sort { input, .. } => *input,
        PhysicalView::Limit { input, .. } => *input,
        PhysicalView::TopK { input, .. } => *input,
        PhysicalView::Scan { .. } | PhysicalView::HashJoin { .. } => plan,
    }
}

/// Whether a plan has its rows before its input fails: a limit reads no more than it lets through.
pub open spec fn stops_early(
    plan: PhysicalView,
    tables: Seq<NamedTableView>,
    partition: Option<usize>,
    input: Result<Seq<BatchView>, ErrorView>,
) -> bool {
    plan is Limit && input is Err && fills(
        early(input_of(plan), tables, partition),
        plan->Limit_limit,
    )
}

/// Whether no operator failed in a run.
pub open spec fn is_whole(trace: Trace) -> bool
    decreases trace,
{
    &&& trace.result() is Ok
    &&& match trace {
        Trace::Scan { .. } => true,
        Trace::Step { input, .. } => is_whole(*input),
        Trace::Join { left, right, .. } => is_whole(*left) && is_whole(*right),
    }
}

/// Whether a trace is one of a plan over some tables. A sort leaves open in which order rows with
/// equal keys come; all else is settled by the plan and the tables.
pub open spec fn runs(
    plan: PhysicalView,
    tables: Seq<NamedTableView>,
    partition: Option<usize>,
    trace: Trace,
) -> bool
    decreases trace,
{
    &&& trace.result() matches Ok(batches) ==> all_valid(batches)
    &&& match trace {
        Trace::Scan { result } => plan matches PhysicalView::Scan {
            table_name,
            projection,
            filters,
            schema,
            ..
        } && result == scan_result(tables, table_name, partition, projection, filters, schema),
        Trace::Step { input, sorted, result } => (if stops_early(
            plan,
            tables,
            partition,
            input.result(),
        ) {
            let batches = early(input_of(plan), tables, partition);
            result == Ok::<Seq<BatchView>, ErrorView>(
                limited(batches, plan->Limit_limit as int, batches.len() as int),
            )
        } else {
            step_holds(plan, input.result(), sorted, result)
        }) && runs(input_of(plan), tables, partition, *input),
        Trace::Join { left, right, result } => plan matches PhysicalView::HashJoin {
            left: left_plan,
            right: right_plan,
            join_type,
            left_on,
            right_on,
            schema,
            ..
        } && runs(*left_plan, tables, partition, *left) && runs(
            *right_plan,
            tables,
            partition,
            *right,
        ) && result == join_step(
            left.result(),
            right.result(),
            join_type,
            left_on,
            right_on,
            schema,
        ),
    }
}

/// How an operator is called.
pub open spec fn operator_name(plan: PhysicalView) -> Seq<char> {
    match plan {
        PhysicalView::Scan { .. } => "Scan"@,
        PhysicalView::Projection { .. } => "Projection"@,
        PhysicalView::Filter { .. } => "Filter"@,
        PhysicalView::HashAggregate { .. } => "HashAggregate"@,
        PhysicalView::HashJoin { .. } => "HashJoin"@,
        PhysicalView::Sort { .. } => "Sort"@,
        PhysicalView::Limit { .. } => "Limit"@,
        PhysicalView::TopK { .. } => "TopK"@,
    }
}

/// Metrics after an operator put out its first `upto` batches.
pub open spec fn emitted(
    metrics: MetricsView,
    id: u32,
    name: Seq<char>,
    batches: Seq<BatchView>,
    upto: int,
) -> MetricsView
    decreases upto,
{
    if upto <= 0 {
        metrics
    } else {
        emitted(metrics, id, name, batches, upto - 1).with_operator_output(
            id,
            name,
            batches[upto - 1].rows,
        )
    }
}

/// Metrics after an operator put out its result.
pub open spec fn operator_metrics(
    metrics: MetricsView,
    plan: PhysicalView,
    r: Result<Seq<BatchView>, ErrorView>,
) -> MetricsView {
    match r {
        Err(_) => metrics,
        Ok(batches) => emitted(
            metrics,
            plan.id(),
            operator_name(plan),
            batches,
            batches.len() as int,
        ),
    }
}

/// Metrics after a run that a trace tells of.
pub open spec fn metered(
    plan: PhysicalView,
    tables: Seq<NamedTableView>,
    partition: Option<usize>,
    trace: Trace,
    metrics: MetricsView,
) -> MetricsView
    decreases trace,
{
    match trace {
        Trace::Scan { result } => operator_metrics(
            scan_metrics(
                metrics,
                tables,
                plan->Scan_table_name,
                partition,
                plan->Scan_projection,
            ),
            plan,
            result,
        ),
        Trace::Step { input, result, .. } => operator_metrics(
            metered(input_of(plan), tables, partition, *input, metrics),
            plan,
            result,
        ),
        Trace::Join { left, right, result } => operator_metrics(
            metered(
                *plan->HashJoin_right,
                tables,
                partition,
                *right,
                metered(*plan->HashJoin_left, tables, partition, *left, metrics),
            ),
            plan,
            result,
        ),
    }
}

/// Whether a plan can give a result over some tables and count from some metrics to others on the
/// way. Nothing is said of what a run has counted in which an operator failed.
pub open spec fn meters(
    plan: PhysicalView,
    tables: Seq<NamedTableView>,
    partition: Option<usize>,
    before: MetricsView,
    r: Result<Seq<BatchView>, ErrorView>,
    after: MetricsView,
) -> bool {
    exists|trace: Trace| #[trigger]
        runs(plan, tables, partition, trace) && trace.result() == r && (is_whole(trace) ==> after
            == metered(plan, tables, partition, trace, before))
}

/// Whether a result is one that a plan can give over some tables.
pub open spec fn produces(
    plan: PhysicalView,
    tables: Seq<NamedTableView>,
    partition: Option<usize>,
    r: Result<Seq<BatchView>, ErrorView>,
) -> bool {
    exists|trace: Trace| #[trigger] runs(plan, tables, partition, trace) && trace.result() == r
}

fn run_sort(
    rows: Result<Vec<Batch>, SparkXError>,
    sorts: &Vec<SortExpr>,
    schema: &Schema,
) -> (r: Result<Batch, SparkXError>)
    requires
        rows matches Ok(batches) ==> all_valid(batch_views(batches@)),
    ensures
        sort_step(batches_outcome(rows), sort_views(sorts@), schema@, batch_outcome(r)),
        r matches Ok(batch) ==> batch.wf(),
{
    match rows {
        Ok(batches) => {
            if !does_fit(&batches, schema) {
                return Err(misfit_error());
            }
            sort_batches(&batches, sorts, schema)
        },
        Err(error) => Err(error),
    }
}

fn only(batch: Batch) -> (r: Vec<Batch>)
    requires
        batch.wf(),
    ensures
        batch_views(r@) == seq![batch@],
        all_valid(batch_views(r@)),
{
    let r: Vec<Batch> = vec![batch];
    proof {
        assert(batch_views(r@) =~= seq![batch@]);
    }
    r
}

/// A step of a trace.
spec fn stepped(
    input: Trace,
    sorted: Result<BatchView, ErrorView>,
    result: Result<Seq<BatchView>, ErrorView>,
) -> Trace {
    Trace::Step { input: Box::new(input), sorted, result }
}

/// An operator's step continues a trace of its input.
proof fn steps_continue(
    plan: PhysicalView,
    tables: Seq<NamedTableView>,
    partition: Option<usize>,
    input: Trace,
    sorted: Result<BatchView, ErrorView>,
    result: Result<Seq<BatchView>, ErrorView>,
)
    requires
        runs(input_of(plan), tables, partition, input),
        step_holds(plan, input.result(), sorted, result),
        result matches Ok(batches) ==> all_valid(batches),
    ensures
        !stops_early(plan, tables, partition, input.result()) ==> runs(
            plan,
            tables,
            partition,
            stepped(input, sorted, result),
        ),
        stepped(input, sorted, result).result() == result,
{
}

/// What an operator with one input makes of it, with what came of sorting it.
fn run_step(plan: &PhysicalPlan, rows: Result<Vec<Batch>, SparkXError>) -> (r: (
    Result<Vec<Batch>, SparkXError>,
    Ghost<Result<BatchView, ErrorView>>,
))
    requires
        rows matches Ok(batches) ==> all_valid(batch_views(batches@)),
        !(plan is Scan),
        !(plan is HashJoin),
    ensures
        step_holds(plan@, batches_outcome(rows), r.1@, batches_outcome(r.0)),
        r.0 matches Ok(batches) ==> all_valid(batch_views(batches@)),
{
    let ghost unsorted: Result<BatchView, ErrorView> = Err(misfit());
    match plan {
        PhysicalPlan::Projection { exprs, schema, .. } => (
            match rows {
                Ok(batches) => run_projection(&batches, exprs, schema),
                Err(error) => Err(error),
            },
            Ghost(unsorted),
        ),
        PhysicalPlan::Filter { predicate, .. } => (
            match rows {
                Ok(batches) => run_filter(&batches, predicate),
                Err(error) => Err(error),
            },
            Ghost(unsorted),
        ),
        PhysicalPlan::HashAggregate { group_exprs, aggregate_exprs, schema, .. } => (
            match rows {
                Ok(batches) => run_aggregate(&batches, group_exprs, aggregate_exprs, schema),
                Err(error) => Err(error),
            },
            Ghost(unsorted),
        ),
        PhysicalPlan::Sort { exprs, schema, .. } => {
            let sorted = run_sort(rows, exprs, schema);
            let ghost view = batch_outcome(sorted);
            (
                match sorted {
                    Ok(batch) => Ok(only(batch)),
                    Err(error) => Err(error),
                },
                Ghost(view),
            )
        },
        PhysicalPlan::Limit { limit, .. } => (
            match rows {
                Ok(batches) => Ok(run_limit(&batches, *limit)),
                Err(error) => Err(error),
            },
            Ghost(unsorted),
        ),
        PhysicalPlan::TopK { exprs, limit, schema, .. } => {
            let sorted = run_sort(rows, exprs, schema);
            let ghost view = batch_outcome(sorted);
            (
                match sorted {
                    Ok(batch) => Ok(only(top_rows(&batch, *limit))),
                    Err(error) => Err(error),
                },
                Ghost(view),
            )
        },
        PhysicalPlan::Scan { .. } | PhysicalPlan::HashJoin { .. } => (rows, Ghost(unsorted)),
    }
}

fn show_operator(plan: &PhysicalPlan) -> (r: &'static str)
    ensures
        r@ == operator_name(plan@),
{
    match plan {
        PhysicalPlan::Scan { .. } => "Scan",
        PhysicalPlan::Projection { .. } => "Projection",
        PhysicalPlan::Filter { .. } => "Filter",
        PhysicalPlan::HashAggregate { .. } => "HashAggregate",
        PhysicalPlan::HashJoin { .. } => "HashJoin",
        PhysicalPlan::Sort { .. } => "Sort",
        PhysicalPlan::Limit { .. } => "Limit",
        PhysicalPlan::TopK { .. } => "TopK",
    }
}

/// Counts what an operator put out.
pub fn record_result(
    plan: &PhysicalPlan,
    r: &Result<Vec<Batch>, SparkXError>,
    metrics: &mut QueryMetrics,
)
    ensures
        final(metrics)@ == operator_metrics(old(metrics)@, plan@, batches_outcome(*r)),
{
    let batches = match r {
        Ok(batches) => batches,
        Err(_) => return,
    };
    let name: &'static str = show_operator(plan);
    let ghost views = batch_views(batches@);
    for i in 0..batches.len()
        invariant
            views == batch_views(batches@),
            name@ == operator_name(plan@),
            metrics@ == emitted(old(metrics)@, plan@.id(), name@, views, i as int),
    {
        proof {
            assert(views[i as int] == batches@[i as int]@);
        }
        metrics.record_operator_output(plan.id(), name, batches[i].num_rows());
    }
}

/// Runs a plan, counts what its operators give, and tells what that was.
fn run_plan(
    plan: &PhysicalPlan,
    tables: &Vec<NamedTable>,
    partition: Option<usize>,
    metrics: &mut QueryMetrics,
) -> (r: (Result<Vec<Batch>, SparkXError>, Ghost<Trace>))
    requires
        forall|i: int| 0 <= i < tables.len() ==> (#[trigger] tables@[i]).table.wf(),
    ensures
        runs(plan@, named_views(tables@), partition, r.1@),
        r.1@.result() == batches_outcome(r.0),
        r.0 matches Ok(batches) ==> all_valid(batch_views(batches@)),
        is_whole(r.1@) ==> final(metrics)@ == metered(
            plan@,
            named_views(tables@),
            partition,
            r.1@,
            old(metrics)@,
        ),
    decreases plan,
{
    let ghost views = named_views(tables@);
    let (rows, Ghost(before)) = match plan {
        PhysicalPlan::Scan { table_name, projection, filters, schema, .. } => {
            let r = run_scan(tables, table_name, partition, projection, filters, schema, metrics);
            record_result(plan, &r, metrics);
            let ghost trace = Trace::Scan { result: batches_outcome(r) };
            return (r, Ghost(trace));
        },
        PhysicalPlan::HashJoin { left, right, join_type, left_on, right_on, schema, .. } => {
            let (lefts, Ghost(left_trace)) = run_plan(left, tables, partition, metrics);
            let (rights, Ghost(right_trace)) = run_plan(right, tables, partition, metrics);
            let r = run_join(lefts, rights, *join_type, left_on, right_on, schema);
            record_result(plan, &r, metrics);
            let ghost trace = Trace::Join {
                left: Box::new(left_trace),
                right: Box::new(right_trace),
                result: batches_outcome(r),
            };
            return (r, Ghost(trace));
        },
        PhysicalPlan::Projection { input, .. } => run_plan(input, tables, partition, metrics),
        PhysicalPlan::Filter { input, .. } => run_plan(input, tables, partition, metrics),
        PhysicalPlan::HashAggregate { input, .. } => run_plan(input, tables, partition, metrics),
        PhysicalPlan::Sort { input, .. } => run_plan(input, tables, partition, metrics),
        PhysicalPlan::Limit { input, .. } => run_plan(input, tables, partition, metrics),
        PhysicalPlan::TopK { input, .. } => run_plan(input, tables, partition, metrics),
    };
    let ghost input = batches_outcome(rows);
    if let PhysicalPlan::Limit { input: below, limit, .. } = plan {
        if rows.is_err() {
            let batches = early_rows(below, tables, partition);
            if do_fill(&batches, *limit) {
                let r = Ok(run_limit(&batches, *limit));
                record_result(plan, &r, metrics);
                let ghost unsorted: Result<BatchView, ErrorView> = Err(misfit());
                let ghost trace = stepped(before, unsorted, batches_outcome(r));
                proof {
                    assert(stops_early(plan@, views, partition, before.result()));
                    assert(runs(plan@, views, partition, trace));
                }
                return (r, Ghost(trace));
            }
        }
    }
    let (r, Ghost(sorted)) = run_step(plan, rows);
    record_result(plan, &r, metrics);
    proof {
        assert(!stops_early(plan@, views, partition, before.result()));
        steps_continue(plan@, views, partition, before, sorted, batches_outcome(r));
    }
    let ghost trace = stepped(before, sorted, batches_outcome(r));
    (r, Ghost(trace))
}

/// Runs a plan over tables in memory, over one partition of each table that it scans or over all,
/// and counts what its operators give.
pub fn execute_metered(
    plan: &PhysicalPlan,
    tables: &Vec<NamedTable>,
    partition: Option<usize>,
    metrics: &mut QueryMetrics,
) -> (r: Result<Vec<Batch>, SparkXError>)
    requires
        forall|i: int| 0 <= i < tables.len() ==> (#[trigger] tables@[i]).table.wf(),
    ensures
        meters(
            plan@,
            named_views(tables@),
            partition,
            old(metrics)@,
            batches_outcome(r),
            final(metrics)@,
        ),
        produces(plan@, named_views(tables@), partition, batches_outcome(r)),
        r matches Ok(batches) ==> all_valid(batch_views(batches@)),
{
    let (r, Ghost(trace)) = run_plan(plan, tables, partition, metrics);
    proof {
        assert(runs(plan@, named_views(tables@), partition, trace));
    }
    r
}

/// Runs a plan over tables in memory: over one partition of each table that it scans, or over all.
pub fn execute(plan: &PhysicalPlan, tables: &Vec<NamedTable>, partition: Option<usize>) -> (r:
    Result<Vec<Batch>, SparkXError>)
    requires
        forall|i: int| 0 <= i < tables.len() ==> (#[trigger] tables@[i]).table.wf(),
    ensures
        produces(plan@, named_views(tables@), partition, batches_outcome(r)),
        r matches Ok(batches) ==> all_valid(batch_views(batches@)),
{
    let mut metrics = QueryMetrics::default();
    execute_metered(plan, tables, partition, &mut metrics)
}

fn top_rows(batch: &Batch, limit: usize) -> (r: Batch)
    requires
        batch.wf(),
    ensures
        r@ == first_rows(batch@, rows_kept(batch@, limit as int)),
        r.wf(),
{
    let rows: usize = batch.num_rows();
    let count: usize = if limit < rows {
        limit
    } else {
        rows
    };
    batch.head(count)
}

pub fn run_aggregate(
    batches: &Vec<Batch>,
    group_exprs: &Vec<Expr>,
    aggregate_exprs: &Vec<Expr>,
    schema: &Schema,
) -> (r: Result<Vec<Batch>, SparkXError>)
    requires
        all_valid(batch_views(batches@)),
    ensures
        batches_outcome(r) == aggregate_step(
            Ok(batch_views(batches@)),
            expr_views(group_exprs@),
            expr_views(aggregate_exprs@),
            schema@,
        ),
        r matches Ok(out) ==> all_valid(batch_views(out@)),
{
    if !is_countable(batches) || group_exprs.len() > usize::MAX - aggregate_exprs.len() {
        return Err(misfit_error());
    }
    proof {
        let views = batch_views(batches@);
        assert forall|i: int| 0 <= i < batches.len() implies (#[trigger] batches@[i]).wf() by {
            assert(views[i] == batches@[i]@);
            assert(views[i].wf());
        }
    }
    match hash_aggregate(batches, group_exprs, aggregate_exprs, schema) {
        Ok(batch) => Ok(only(batch)),
        Err(error) => Err(error),
    }
}

fn run_join(
    lefts: Result<Vec<Batch>, SparkXError>,
    rights: Result<Vec<Batch>, SparkXError>,
    join_type: JoinType,
    left_on: &Vec<Expr>,
    right_on: &Vec<Expr>,
    schema: &Schema,
) -> (r: Result<Vec<Batch>, SparkXError>)
    requires
        lefts matches Ok(batches) ==> all_valid(batch_views(batches@)),
        rights matches Ok(batches) ==> all_valid(batch_views(batches@)),
    ensures
        batches_outcome(r) == join_step(
            batches_outcome(lefts),
            batches_outcome(rights),
            join_type,
            expr_views(left_on@),
            expr_views(right_on@),
            schema@,
        ),
        r matches Ok(out) ==> all_valid(batch_views(out@)),
{
    let left = match lefts {
        Ok(batches) => batches,
        Err(error) => return Err(error),
    };
    let right = match rights {
        Ok(batches) => batches,
        Err(error) => return Err(error),
    };
    if !do_rows_fit(&left, &right, join_type, schema) {
        return Err(misfit_error());
    }
    proof {
        let views = batch_views(left@);
        assert forall|i: int| 0 <= i < left.len() implies (#[trigger] left@[i]).wf() by {
            assert(views[i] == left@[i]@);
            assert(views[i].wf());
        }
        let others = batch_views(right@);
        assert forall|i: int| 0 <= i < right.len() implies (#[trigger] right@[i]).wf() by {
            assert(others[i] == right@[i]@);
            assert(others[i].wf());
        }
    }
    match hash_join(&left, &right, join_type, left_on, right_on, schema) {
        Ok(batch) => Ok(only(batch)),
        Err(error) => Err(error),
    }
}

} // verus!

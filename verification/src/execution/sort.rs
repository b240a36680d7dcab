//! Sorting.

use crate::batch::{
    batch_outcome, batch_views, made_batch, nulls_check, types_check, Batch, BatchView,
};
use crate::column::{column_views, row_numbers, Column, ColumnView};
use crate::error::{ErrorView, SparkXError};
use crate::evaluate::evaluate;
use crate::execution::concat::{concat_batches, concatenated, of_schema, total_rows};
use crate::execution::rows::{computed, computed_fails_early};
use crate::expr::ExprView;
use crate::kernels::{is_sort_order, sort_rows, too_large_failure, unsortable};
use crate::logical::{sort_views, SortExpr, SortView};
use crate::types::{DataType, DataTypeView, Schema, SchemaView};
use vstd::prelude::*;

verus! {

pub open spec fn sort_exprs(sorts: Seq<SortView>) -> Seq<ExprView> {
    Seq::new(sorts.len(), |i: int| sorts[i].expr)
}

pub open spec fn descending_flags(sorts: Seq<SortView>) -> Seq<bool> {
    Seq::new(sorts.len(), |i: int| !sorts[i].ascending)
}

pub open spec fn nulls_first_flags(sorts: Seq<SortView>) -> Seq<bool> {
    Seq::new(sorts.len(), |i: int| sorts[i].nulls_first)
}

/// The error of a sort by nothing.
pub open spec fn no_sort_key() -> ErrorView {
    ErrorView::Arrow("Invalid argument error: Sort requires at least one column"@)
}

/// Whether a result is what sorting a batch gives: the same rows, in the order of the keys.
pub open spec fn is_sorted(
    r: Result<BatchView, ErrorView>,
    batch: BatchView,
    sorts: Seq<SortView>,
) -> bool {
    match computed(sort_exprs(sorts), batch, sorts.len() as int) {
        Err(error) => r == Err::<BatchView, ErrorView>(error),
        Ok(keys) => if sorts.len() == 0 {
            r == Err::<BatchView, ErrorView>(no_sort_key())
        } else if unsortable(keys, batch.rows) {
            r == Err::<BatchView, ErrorView>(too_large_failure())
        } else {
            exists|order: Seq<int>|
                {
                    &&& #[trigger] is_sort_order(
                        order,
                        keys,
                        descending_flags(sorts),
                        nulls_first_flags(sorts),
                        batch.rows,
                    )
                    &&& r == Ok::<BatchView, ErrorView>(batch.taken(order))
                }
        },
    }
}

/// The rows of a batch in the order of some keys.
pub fn sort_batch(batch: &Batch, sorts: &Vec<SortExpr>) -> (r: Result<Batch, SparkXError>)
    requires
        batch.wf(),
    ensures
        is_sorted(batch_outcome(r), batch@, sort_views(sorts@)),
        r matches Ok(next) ==> next.wf(),
{
    let ghost views = sort_views(sorts@);
    let ghost exprs = sort_exprs(views);
    let mut keys: Vec<Column> = Vec::new();
    let mut descending: Vec<bool> = Vec::new();
    let mut nulls_first: Vec<bool> = Vec::new();
    proof {
        assert(column_views(keys@) =~= Seq::empty());
    }
    for i in 0..sorts.len()
        invariant
            batch.wf(),
            views == sort_views(sorts@),
            exprs == sort_exprs(views),
            keys.len() == i,
            descending.len() == i,
            nulls_first.len() == i,
            computed(exprs, batch@, i as int) == Ok::<Seq<ColumnView>, ErrorView>(
                column_views(keys@),
            ),
            forall|k: int| 0 <= k < i ==> (#[trigger] keys@[k])@.len() == batch@.rows,
            forall|k: int| 0 <= k < i ==> #[trigger] descending@[k] == !views[k].ascending,
            forall|k: int| 0 <= k < i ==> #[trigger] nulls_first@[k] == views[k].nulls_first,
    {
        let ghost before = column_views(keys@);
        proof {
            assert(views[i as int] == sorts@[i as int]@);
            assert(exprs[i as int] == views[i as int].expr);
        }
        match evaluate(&sorts[i].expr, batch) {
            Ok(column) => {
                let ghost view = column@;
                keys.push(column);
                proof {
                    assert(column_views(keys@) =~= before.push(view));
                }
            },
            Err(error) => {
                proof {
                    computed_fails_early(exprs, batch@, i + 1, sorts.len() as int);
                }
                return Err(error);
            },
        }
        descending.push(!sorts[i].ascending);
        nulls_first.push(sorts[i].nulls_first);
    }
    if sorts.len() == 0 {
        return Err(
            SparkXError::Arrow(
                "Invalid argument error: Sort requires at least one column".to_owned(),
            ),
        );
    }
    proof {
        assert(descending@ =~= descending_flags(views));
        assert(nulls_first@ =~= nulls_first_flags(views));
    }
    let order = match sort_rows(&keys, &descending, &nulls_first, batch.num_rows()) {
        Some(order) => order,
        None => return Err(
            SparkXError::resource_exhausted("column is too large to compute with".to_owned()),
        ),
    };
    let ghost places = order@.map_values(|row: u32| row as int);
    let mut rows: Vec<Option<usize>> = Vec::new();
    for i in 0..order.len()
        invariant
            places == order@.map_values(|row: u32| row as int),
            rows.len() == i,
            forall|k: int| 0 <= k < i ==> #[trigger] rows@[k] == Some(order@[k] as usize),
    {
        rows.push(Some(order[i] as usize));
    }
    proof {
        assert(row_numbers(rows@) =~= places);
        assert forall|i: int| 0 <= i < rows.len() implies (#[trigger] rows@[i]) is Some
            && rows@[i]->Some_0 < batch@.rows by {
            assert(places[i] == order@[i] as int);
        }
    }
    Ok(batch.take(&rows))
}

/// A column without rows.
pub open spec fn empty_column(data_type: DataTypeView) -> ColumnView {
    match data_type {
        DataTypeView::Boolean => ColumnView::Boolean(Seq::empty()),
        DataTypeView::Int32 => ColumnView::Int32(Seq::empty()),
        DataTypeView::Int64 => ColumnView::Int64(Seq::empty()),
        DataTypeView::UInt32 => ColumnView::UInt32(Seq::empty()),
        DataTypeView::UInt64 => ColumnView::UInt64(Seq::empty()),
        DataTypeView::Float32 => ColumnView::Float32(Seq::empty()),
        DataTypeView::Float64 => ColumnView::Float64(Seq::empty()),
        DataTypeView::Utf8 => ColumnView::Utf8(Seq::empty()),
        DataTypeView::Null | DataTypeView::Other(_) => ColumnView::Null(0),
    }
}

/// Whether every field is of a type that the engine computes with.
pub open spec fn computable(schema: SchemaView) -> bool {
    forall|i: int|
        0 <= i < schema.fields.len() ==> !((#[trigger] schema.fields[i]).data_type is Other)
}

/// The batch of a schema without rows.
pub open spec fn empty_batch(schema: SchemaView) -> BatchView {
    BatchView {
        schema,
        columns: Seq::new(schema.fields.len(), |i: int| empty_column(schema.fields[i].data_type)),
        rows: 0,
    }
}

pub fn new_column(data_type: &DataType) -> (r: Column)
    ensures
        r@ == empty_column(data_type@),
{
    let r = match data_type {
        DataType::Boolean => Column::Boolean(Vec::new()),
        DataType::Int32 => Column::Int32(Vec::new()),
        DataType::Int64 => Column::Int64(Vec::new()),
        DataType::UInt32 => Column::UInt32(Vec::new()),
        DataType::UInt64 => Column::UInt64(Vec::new()),
        DataType::Float32 => Column::Float32(Vec::new()),
        DataType::Float64 => Column::Float64(Vec::new()),
        DataType::Utf8 => Column::Utf8(Vec::new()),
        DataType::Null | DataType::Other(_) => Column::Null(0),
    };
    proof {
        if let ColumnView::Utf8(cells) = r@ {
            assert(cells =~= Seq::empty());
        }
    }
    r
}

proof fn empty_columns_are_valid(schema: SchemaView)
    requires
        computable(schema),
    ensures
        made_batch(schema, empty_batch(schema).columns, Some(0)) == Ok::<
            BatchView,
            ErrorView,
        >(empty_batch(schema)),
{
    empty_nulls_are_fine(schema, 0);
    empty_types_are_fine(schema, 0);
}

proof fn empty_nulls_are_fine(schema: SchemaView, from: int)
    requires
        0 <= from,
    ensures
        nulls_check(schema, empty_batch(schema).columns, from) is Ok,
    decreases schema.fields.len() - from,
{
    if from < schema.fields.len() {
        empty_nulls_are_fine(schema, from + 1);
    }
}

proof fn empty_types_are_fine(schema: SchemaView, from: int)
    requires
        0 <= from,
        computable(schema),
    ensures
        types_check(schema, empty_batch(schema).columns, from) is Ok,
    decreases schema.fields.len() - from,
{
    if from < schema.fields.len() {
        assert(!(schema.fields[from].data_type is Other));
        empty_types_are_fine(schema, from + 1);
    }
}

impl Batch {
    /// The batch of a schema without rows.
    pub fn new_empty(schema: &Schema) -> (r: Batch)
        requires
            computable(schema@),
        ensures
            r@ == empty_batch(schema@),
            r.wf(),
    {
        let mut columns: Vec<Column> = Vec::new();
        for i in 0..schema.fields.len()
            invariant
                columns.len() == i,
                forall|k: int|
                    0 <= k < i ==> (#[trigger] columns@[k])@ == empty_column(
                        schema@.fields[k].data_type,
                    ),
        {
            columns.push(new_column(&schema.fields[i].data_type));
        }
        proof {
            assert(column_views(columns@) =~= empty_batch(schema@).columns);
            empty_columns_are_valid(schema@);
        }
        Batch::try_new(schema.clone(), columns, Some(0)).unwrap()
    }
}

/// Whether a result is what sorting the rows of batches of a schema gives.
pub open spec fn are_sorted(
    r: Result<BatchView, ErrorView>,
    batches: Seq<BatchView>,
    sorts: Seq<SortView>,
    schema: SchemaView,
) -> bool {
    if batches.len() == 0 {
        r == Ok::<BatchView, ErrorView>(empty_batch(schema))
    } else {
        match concatenated(schema, batches) {
            Err(error) => r == Err::<BatchView, ErrorView>(error),
            Ok(batch) => is_sorted(r, batch, sorts),
        }
    }
}

/// The rows of batches of a schema in the order of some keys.
pub fn sort_batches(batches: &Vec<Batch>, sorts: &Vec<SortExpr>, schema: &Schema) -> (r: Result<
    Batch,
    SparkXError,
>)
    requires
        computable(schema@),
        of_schema(batch_views(batches@), schema@),
        total_rows(batch_views(batches@), batches.len() as int) <= usize::MAX,
    ensures
        are_sorted(
            batch_outcome(r),
            batch_views(batches@),
            sort_views(sorts@),
            schema@,
        ),
        r matches Ok(batch) ==> batch.wf(),
{
    if batches.len() == 0 {
        return Ok(Batch::new_empty(schema));
    }
    match concat_batches(schema, batches) {
        Ok(batch) => sort_batch(&batch, sorts),
        Err(error) => Err(error),
    }
}

} // verus!

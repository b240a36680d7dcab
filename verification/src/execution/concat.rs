//! Batches put together into one.

use crate::batch::{batch_outcome, batch_views, made_batch, Batch, BatchView};
use crate::column::{column_views, text_cell, text_cells, Column, ColumnView};
use crate::error::{ErrorView, SparkXError};
use crate::types::{Schema, SchemaView};
use vstd::prelude::*;

verus! {

/// The rows of the first `upto` batches.
pub open spec fn total_rows(batches: Seq<BatchView>, upto: int) -> nat
    decreases upto,
{
    if upto <= 0 {
        0
    } else {
        total_rows(batches, upto - 1) + batches[upto - 1].rows
    }
}

pub proof fn total_rows_grow(batches: Seq<BatchView>, low: int, high: int)
    requires
        low <= high,
    ensures
        total_rows(batches, low) <= total_rows(batches, high),
    decreases high - low,
{
    if low < high {
        total_rows_grow(batches, low, high - 1);
    }
}

impl ColumnView {
    /// The cells of this column and then those of another of the same type.
    pub open spec fn joined(self, other: ColumnView) -> ColumnView {
        match (self, other) {
            (ColumnView::Null(a), ColumnView::Null(b)) => ColumnView::Null(a + b),
            (ColumnView::Boolean(a), ColumnView::Boolean(b)) => ColumnView::Boolean(a + b),
            (ColumnView::Int32(a), ColumnView::Int32(b)) => ColumnView::Int32(a + b),
            (ColumnView::Int64(a), ColumnView::Int64(b)) => ColumnView::Int64(a + b),
            (ColumnView::UInt32(a), ColumnView::UInt32(b)) => ColumnView::UInt32(a + b),
            (ColumnView::UInt64(a), ColumnView::UInt64(b)) => ColumnView::UInt64(a + b),
            (ColumnView::Float32(a), ColumnView::Float32(b)) => ColumnView::Float32(a + b),
            (ColumnView::Float64(a), ColumnView::Float64(b)) => ColumnView::Float64(a + b),
            (ColumnView::Utf8(a), ColumnView::Utf8(b)) => ColumnView::Utf8(a + b),
            _ => self,
        }
    }
}

fn extended<T: Copy>(cells: Vec<Option<T>>, more: &Vec<Option<T>>) -> (r: Vec<Option<T>>)
    ensures
        r@ == cells@ + more@,
{
    let mut r = cells;
    for i in 0..more.len()
        invariant
            r@ == cells@ + more@.subrange(0, i as int),
    {
        r.push(more[i]);
        proof {
            assert(r@ =~= cells@ + more@.subrange(0, i + 1));
        }
    }
    proof {
        assert(r@ =~= cells@ + more@);
    }
    r
}

fn extended_texts(cells: Vec<Option<String>>, more: &Vec<Option<String>>) -> (r: Vec<
    Option<String>,
>)
    ensures
        text_cells(r@) == text_cells(cells@) + text_cells(more@),
{
    let mut r = cells;
    for i in 0..more.len()
        invariant
            r.len() == cells.len() + i,
            forall|k: int|
                0 <= k < r.len() ==> text_cell(#[trigger] r@[k]) == (if k < cells.len() {
                    text_cell(cells@[k])
                } else {
                    text_cell(more@[k - cells.len()])
                }),
    {
        let cell = match &more[i] {
            Some(text) => Some(text.clone()),
            None => None,
        };
        r.push(cell);
    }
    proof {
        assert(text_cells(r@) =~= text_cells(cells@) + text_cells(more@));
    }
    r
}

/// The cells of a column and then those of another of the same type.
pub fn append_column(column: Column, other: &Column) -> (r: Column)
    requires
        column@.data_type() == other@.data_type(),
        column@.len() + other@.len() <= usize::MAX,
    ensures
        r@ == column@.joined(other@),
        r@.data_type() == column@.data_type(),
        r@.len() == column@.len() + other@.len(),
{
    match (column, other) {
        (Column::Null(a), Column::Null(b)) => Column::Null(a + *b),
        (Column::Boolean(a), Column::Boolean(b)) => Column::Boolean(extended(a, b)),
        (Column::Int32(a), Column::Int32(b)) => Column::Int32(extended(a, b)),
        (Column::Int64(a), Column::Int64(b)) => Column::Int64(extended(a, b)),
        (Column::UInt32(a), Column::UInt32(b)) => Column::UInt32(extended(a, b)),
        (Column::UInt64(a), Column::UInt64(b)) => Column::UInt64(extended(a, b)),
        (Column::Float32(a), Column::Float32(b)) => Column::Float32(extended(a, b)),
        (Column::Float64(a), Column::Float64(b)) => Column::Float64(extended(a, b)),
        (Column::Utf8(a), Column::Utf8(b)) => Column::Utf8(extended_texts(a, b)),
        (column, _) => column,
    }
}

/// A column of the first `upto` batches, one after the other.
pub open spec fn joined_column(batches: Seq<BatchView>, place: int, upto: int) -> ColumnView
    decreases upto,
{
    if upto <= 1 {
        batches[0].columns[place]
    } else {
        joined_column(batches, place, upto - 1).joined(batches[upto - 1].columns[place])
    }
}

/// Whether batches have columns of a schema's types.
pub open spec fn of_schema(batches: Seq<BatchView>, schema: SchemaView) -> bool {
    forall|i: int, k: int|
        #![trigger batches[i].columns[k]]
        0 <= i < batches.len() ==> batches[i].wf() && batches[i].columns.len()
            == schema.fields.len() && (0 <= k < schema.fields.len()
            ==> batches[i].columns[k].data_type() == schema.fields[k].data_type)
}

/// The batch of a schema with the rows of several batches, or why there is none.
pub open spec fn concatenated(schema: SchemaView, batches: Seq<BatchView>) -> Result<
    BatchView,
    ErrorView,
> {
    made_batch(
        schema,
        Seq::new(
            schema.fields.len(),
            |i: int| joined_column(batches, i, batches.len() as int),
        ),
        Some(total_rows(batches, batches.len() as int) as usize),
    )
}

fn join_column(batches: &Vec<Batch>, place: usize, schema: &Schema) -> (r: Column)
    requires
        batches.len() > 0,
        of_schema(batch_views(batches@), schema@),
        place < schema@.fields.len(),
        total_rows(batch_views(batches@), batches.len() as int) <= usize::MAX,
    ensures
        r@ == joined_column(batch_views(batches@), place as int, batches.len() as int),
{
    let ghost views = batch_views(batches@);
    proof {
        assert(views[0] == batches@[0]@);
        let first = views[0].columns[place as int];
    }
    let mut column = batches[0].column(place).clone();
    proof {
        assert(total_rows(views, 0) == 0);
        assert(total_rows(views, 1) == views[0].rows);
    }
    for i in 1..batches.len()
        invariant
            batches.len() > 0,
            views == batch_views(batches@),
            of_schema(views, schema@),
            place < schema@.fields.len(),
            total_rows(views, batches.len() as int) <= usize::MAX,
            column@ == joined_column(views, place as int, i as int),
            column@.data_type() == schema@.fields[place as int].data_type,
            column@.len() == total_rows(views, i as int),
    {
        proof {
            assert(views[i as int] == batches@[i as int]@);
            let more = views[i as int].columns[place as int];
            assert(more.len() == views[i as int].rows);
            total_rows_grow(views, i + 1, batches.len() as int);
        }
        column = append_column(column, batches[i].column(place));
    }
    column
}

/// One batch of a schema with the rows of several.
pub fn concat_batches(schema: &Schema, batches: &Vec<Batch>) -> (r: Result<Batch, SparkXError>)
    requires
        batches.len() > 0,
        of_schema(batch_views(batches@), schema@),
        total_rows(batch_views(batches@), batches.len() as int) <= usize::MAX,
    ensures
        batch_outcome(r) == concatenated(schema@, batch_views(batches@)),
        r matches Ok(batch) ==> batch.wf(),
{
    let ghost views = batch_views(batches@);
    let mut total: usize = 0;
    for i in 0..batches.len()
        invariant
            views == batch_views(batches@),
            total == total_rows(views, i as int),
            total_rows(views, batches.len() as int) <= usize::MAX,
    {
        proof {
            assert(views[i as int] == batches@[i as int]@);
            total_rows_grow(views, i + 1, batches.len() as int);
        }
        total = total + batches[i].num_rows();
    }
    let mut columns: Vec<Column> = Vec::new();
    for i in 0..schema.fields.len()
        invariant
            batches.len() > 0,
            views == batch_views(batches@),
            of_schema(views, schema@),
            total_rows(views, batches.len() as int) <= usize::MAX,
            columns.len() == i,
            forall|k: int|
                0 <= k < i ==> (#[trigger] columns@[k])@ == joined_column(
                    views,
                    k,
                    batches.len() as int,
                ),
    {
        columns.push(join_column(batches, i, schema));
    }
    proof {
        assert(column_views(columns@) =~= Seq::new(
            schema@.fields.len(),
            |i: int| joined_column(views, i, views.len() as int),
        ));
    }
    Batch::try_new(schema.clone(), columns, Some(total))
}

} // verus!

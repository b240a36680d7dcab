//! Between batches and rows of single values.

use crate::batch::{batch_outcome, made_batch, Batch, BatchView};
use crate::cells::{cell_value, column_of, scalars_to_array, value_at};
use crate::column::{column_views, Column, ColumnView};
use crate::error::{ErrorView, SparkXError};
use crate::evaluate::evaluate;
use crate::expr::{expr_views, Expr, ExprView};
use crate::scalar::{scalar_views, ScalarValue, ScalarView};
use crate::types::{FieldView, Schema, SchemaView};
use vstd::prelude::*;

verus! {

/// The columns that the first `upto` expressions give over a batch, or the first error.
pub open spec fn computed(exprs: Seq<ExprView>, batch: BatchView, upto: int) -> Result<
    Seq<ColumnView>,
    ErrorView,
>
    decreases upto,
{
    if upto <= 0 {
        Ok(Seq::empty())
    } else {
        match computed(exprs, batch, upto - 1) {
            Err(error) => Err(error),
            Ok(columns) => match exprs[upto - 1].value(batch) {
                Err(error) => Err(error),
                Ok(column) => Ok(columns.push(column)),
            },
        }
    }
}

pub proof fn computed_fails_early(exprs: Seq<ExprView>, batch: BatchView, upto: int, full: int)
    requires
        0 <= upto <= full,
        computed(exprs, batch, upto) is Err,
    ensures
        computed(exprs, batch, full) == computed(exprs, batch, upto),
    decreases full - upto,
{
    if upto < full {
        computed_fails_early(exprs, batch, upto, full - 1);
    }
}

/// Columns that were computed, as contracts see them.
pub open spec fn columns_outcome(r: Result<Vec<Column>, SparkXError>) -> Result<
    Seq<ColumnView>,
    ErrorView,
> {
    match r {
        Ok(columns) => Ok(column_views(columns@)),
        Err(error) => Err(error@),
    }
}

/// The columns that expressions give over a batch.
pub fn evaluate_all(exprs: &Vec<Expr>, batch: &Batch) -> (r: Result<Vec<Column>, SparkXError>)
    requires
        batch.wf(),
    ensures
        columns_outcome(r) == computed(expr_views(exprs@), batch@, exprs.len() as int),
        r matches Ok(columns) ==> columns.len() == exprs.len() && forall|i: int|
            0 <= i < columns.len() ==> (#[trigger] columns@[i])@.len() == batch@.rows,
{
    let mut columns: Vec<Column> = Vec::new();
    let ghost views = expr_views(exprs@);
    proof {
        assert(column_views(columns@) =~= Seq::empty());
    }
    for i in 0..exprs.len()
        invariant
            batch.wf(),
            views == expr_views(exprs@),
            columns.len() == i,
            computed(views, batch@, i as int) == Ok::<Seq<ColumnView>, ErrorView>(
                column_views(columns@),
            ),
            forall|k: int| 0 <= k < i ==> (#[trigger] columns@[k])@.len() == batch@.rows,
    {
        proof {
            assert(views[i as int] == exprs@[i as int]@);
        }
        let ghost before = column_views(columns@);
        match evaluate(&exprs[i], batch) {
            Ok(column) => {
                columns.push(column);
                proof {
                    assert(column_views(columns@) =~= before.push(columns@[i as int]@));
                }
            },
            Err(error) => {
                proof {
                    computed_fails_early(views, batch@, i + 1, exprs.len() as int);
                }
                return Err(error);
            },
        }
    }
    Ok(columns)
}

/// The values of a row in the first `upto` columns, or the first error.
pub open spec fn row_values(columns: Seq<ColumnView>, row: int, upto: int) -> Result<
    Seq<ScalarView>,
    ErrorView,
>
    decreases upto,
{
    if upto <= 0 {
        Ok(Seq::empty())
    } else {
        match row_values(columns, row, upto - 1) {
            Err(error) => Err(error),
            Ok(values) => match cell_value(columns[upto - 1], row) {
                Err(error) => Err(error),
                Ok(value) => Ok(values.push(value)),
            },
        }
    }
}

proof fn row_values_fail_early(columns: Seq<ColumnView>, row: int, upto: int, full: int)
    requires
        0 <= upto <= full,
        row_values(columns, row, upto) is Err,
    ensures
        row_values(columns, row, full) == row_values(columns, row, upto),
    decreases full - upto,
{
    if upto < full {
        row_values_fail_early(columns, row, upto, full - 1);
    }
}

/// A row that was read, as contracts see it.
pub open spec fn values_outcome(r: Result<Vec<ScalarValue>, SparkXError>) -> Result<
    Seq<ScalarView>,
    ErrorView,
> {
    match r {
        Ok(values) => Ok(scalar_views(values@)),
        Err(error) => Err(error@),
    }
}

/// The values of a row of columns.
pub fn read_row(columns: &Vec<Column>, row: usize) -> (r: Result<Vec<ScalarValue>, SparkXError>)
    requires
        forall|i: int| 0 <= i < columns.len() ==> row < (#[trigger] columns@[i])@.len(),
    ensures
        values_outcome(r) == row_values(column_views(columns@), row as int, columns.len() as int),
        r matches Ok(values) ==> values.len() == columns.len(),
{
    let mut values: Vec<ScalarValue> = Vec::new();
    let ghost views = column_views(columns@);
    proof {
        assert(scalar_views(values@) =~= Seq::empty());
    }
    for i in 0..columns.len()
        invariant
            forall|i: int| 0 <= i < columns.len() ==> row < (#[trigger] columns@[i])@.len(),
            views == column_views(columns@),
            values.len() == i,
            row_values(views, row as int, i as int) == Ok::<Seq<ScalarView>, ErrorView>(
                scalar_views(values@),
            ),
    {
        proof {
            assert(views[i as int] == columns@[i as int]@);
        }
        let ghost before = scalar_views(values@);
        match value_at(&columns[i], row) {
            Ok(value) => {
                values.push(value);
                proof {
                    assert(scalar_views(values@) =~= before.push(values@[i as int]@));
                }
            },
            Err(error) => {
                proof {
                    row_values_fail_early(views, row as int, i + 1, columns.len() as int);
                }
                return Err(error);
            },
        }
    }
    Ok(values)
}

/// The values of a row of a batch.
pub fn read_batch_row(batch: &Batch, row: usize) -> (r: Result<Vec<ScalarValue>, SparkXError>)
    requires
        batch.wf(),
        row < batch@.rows,
    ensures
        values_outcome(r) == row_values(
            batch@.columns,
            row as int,
            batch@.columns.len() as int,
        ),
        r matches Ok(values) ==> values.len() == batch@.columns.len(),
{
    let mut values: Vec<ScalarValue> = Vec::new();
    let ghost views = batch@.columns;
    let count: usize = batch.num_columns();
    proof {
        assert(scalar_views(values@) =~= Seq::empty());
    }
    for i in 0..count
        invariant
            batch.wf(),
            row < batch@.rows,
            views == batch@.columns,
            count == views.len(),
            values.len() == i,
            row_values(views, row as int, i as int) == Ok::<Seq<ScalarView>, ErrorView>(
                scalar_views(values@),
            ),
    {
        let ghost before = scalar_views(values@);
        proof {
            assert(batch@.columns[i as int].len() == batch@.rows);
        }
        match value_at(batch.column(i), row) {
            Ok(value) => {
                values.push(value);
                proof {
                    assert(scalar_views(values@) =~= before.push(values@[i as int]@));
                }
            },
            Err(error) => {
                proof {
                    row_values_fail_early(views, row as int, i + 1, count as int);
                }
                return Err(error);
            },
        }
    }
    Ok(values)
}

pub open spec fn rows_views(rows: Seq<Vec<ScalarValue>>) -> Seq<Seq<ScalarView>> {
    Seq::new(rows.len(), |i: int| scalar_views(rows[i]@))
}

/// The values at a place of the first `upto` rows; a row too short to have one is left out.
pub open spec fn values_at_place(rows: Seq<Seq<ScalarView>>, place: int, upto: int) -> Seq<ScalarView>
    decreases upto,
{
    if upto <= 0 {
        Seq::empty()
    } else if place < rows[upto - 1].len() {
        values_at_place(rows, place, upto - 1).push(rows[upto - 1][place])
    } else {
        values_at_place(rows, place, upto - 1)
    }
}

fn gather(rows: &Vec<Vec<ScalarValue>>, place: usize) -> (r: Vec<ScalarValue>)
    ensures
        scalar_views(r@) == values_at_place(rows_views(rows@), place as int, rows.len() as int),
{
    let ghost views = rows_views(rows@);
    let mut values: Vec<ScalarValue> = Vec::new();
    proof {
        assert(scalar_views(values@) =~= Seq::empty());
    }
    for i in 0..rows.len()
        invariant
            views == rows_views(rows@),
            scalar_views(values@) == values_at_place(views, place as int, i as int),
    {
        let ghost before = scalar_views(values@);
        proof {
            assert(views[i as int] == scalar_views(rows@[i as int]@));
        }
        let row = &rows[i];
        if place < row.len() {
            values.push(row[place].clone());
            proof {
                assert(scalar_views(values@) =~= before.push(views[i as int][place as int]));
            }
        }
    }
    values
}

/// The columns of the types of the first `upto` fields that hold the rows' values, or the first
/// error.
pub open spec fn table_columns(
    rows: Seq<Seq<ScalarView>>,
    fields: Seq<FieldView>,
    upto: int,
) -> Result<Seq<ColumnView>, ErrorView>
    decreases upto,
{
    if upto <= 0 {
        Ok(Seq::empty())
    } else {
        match table_columns(rows, fields, upto - 1) {
            Err(error) => Err(error),
            Ok(columns) => match column_of(
                values_at_place(rows, upto - 1, rows.len() as int),
                fields[upto - 1].data_type,
            ) {
                Err(error) => Err(error),
                Ok(column) => Ok(columns.push(column)),
            },
        }
    }
}

proof fn table_columns_fail_early(
    rows: Seq<Seq<ScalarView>>,
    fields: Seq<FieldView>,
    upto: int,
    full: int,
)
    requires
        0 <= upto <= full,
        table_columns(rows, fields, upto) is Err,
    ensures
        table_columns(rows, fields, full) == table_columns(rows, fields, upto),
    decreases full - upto,
{
    if upto < full {
        table_columns_fail_early(rows, fields, upto, full - 1);
    }
}

/// The batch of a schema that holds rows of at most `width` values, or why there is none.
pub open spec fn batch_of_rows(
    rows: Seq<Seq<ScalarView>>,
    width: nat,
    schema: SchemaView,
) -> Result<BatchView, ErrorView> {
    let count = if width < schema.fields.len() {
        width
    } else {
        schema.fields.len()
    };
    match table_columns(rows, schema.fields, count as int) {
        Err(error) => Err(error),
        Ok(columns) => made_batch(schema, columns, None),
    }
}

/// The batch of a schema that holds rows of values.
pub fn rows_to_batch(rows: &Vec<Vec<ScalarValue>>, width: usize, schema: &Schema) -> (r: Result<
    Batch,
    SparkXError,
>)
    ensures
        batch_outcome(r) == batch_of_rows(rows_views(rows@), width as nat, schema@),
        r matches Ok(batch) ==> batch.wf(),
{
    let ghost views = rows_views(rows@);
    let count: usize = if width < schema.fields.len() {
        width
    } else {
        schema.fields.len()
    };
    let mut columns: Vec<Column> = Vec::new();
    proof {
        assert(column_views(columns@) =~= Seq::empty());
    }
    for i in 0..count
        invariant
            views == rows_views(rows@),
            count == (if width < schema.fields.len() {
                width
            } else {
                schema.fields.len()
            }),
            table_columns(views, schema@.fields, i as int) == Ok::<Seq<ColumnView>, ErrorView>(
                column_views(columns@),
            ),
    {
        let ghost before = column_views(columns@);
        let values = gather(rows, i);
        proof {
            assert(schema@.fields[i as int] == schema.fields@[i as int]@);
        }
        match scalars_to_array(&values, &schema.fields[i].data_type) {
            Ok(column) => {
                let ghost view = column@;
                columns.push(column);
                proof {
                    assert(column_views(columns@) =~= before.push(view));
                }
            },
            Err(error) => {
                proof {
                    table_columns_fail_early(views, schema@.fields, i + 1, count as int);
                }
                return Err(error);
            },
        }
    }
    Batch::try_new(schema.clone(), columns, None)
}

} // verus!

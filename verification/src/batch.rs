//! Batches of rows.

use crate::column::{column_views, row_numbers, Column, ColumnView};
use crate::error::{ErrorView, SparkXError};
use crate::text::{decimal, join, numeral};
use crate::types::{Schema, SchemaView};
use vstd::prelude::*;

verus! {

/// Some rows of a table: a column for each field of the schema.
#[derive(Debug, PartialEq, Eq)]
pub struct Batch {
    schema: Schema,
    columns: Vec<Column>,
    rows: usize,
}

pub struct BatchView {
    pub schema: SchemaView,
    pub columns: Seq<ColumnView>,
    pub rows: nat,
}

impl View for Batch {
    type V = BatchView;

    closed spec fn view(&self) -> BatchView {
        BatchView {
            schema: self.schema@,
            columns: column_views(self.columns@),
            rows: self.rows as nat,
        }
    }
}

impl BatchView {
    /// What holds of every batch: columns of the schema's types, all of one length, and NULL only
    /// where a field admits it.
    pub open spec fn wf(self) -> bool {
        &&& self.columns.len() == self.schema.fields.len()
        &&& self.rows <= usize::MAX
        &&& forall|i: int|
            0 <= i < self.columns.len() ==> {
                &&& (#[trigger] self.columns[i]).len() == self.rows
                &&& self.columns[i].data_type() == self.schema.fields[i].data_type
                &&& !self.schema.fields[i].nullable ==> !has_null(self.columns[i])
            }
    }
}

/// Whether a column holds a NULL that is marked as one: a column of nothing but NULLs marks none.
pub open spec fn has_null(column: ColumnView) -> bool {
    !(column is Null) && exists|row: int|
        0 <= row < column.len() && #[trigger] column.null_at(row)
}

/// What keeps the first `upto` columns from holding what their fields admit, if anything does.
pub open spec fn nulls_check(schema: SchemaView, columns: Seq<ColumnView>, from: int) -> Result<
    (),
    ErrorView,
>
    decreases columns.len() - from,
{
    if from >= columns.len() {
        Ok(())
    } else if !schema.fields[from].nullable && has_null(columns[from]) {
        Err(
            invalid_batch(
                "Column '"@ + schema.fields[from].name
                    + "' is declared as non-nullable but contains null values"@,
            ),
        )
    } else {
        nulls_check(schema, columns, from + 1)
    }
}

/// What is wrong with the type of the first column that is not of its field's type.
pub open spec fn types_check(schema: SchemaView, columns: Seq<ColumnView>, from: int) -> Result<
    (),
    ErrorView,
>
    decreases columns.len() - from,
{
    if from >= columns.len() {
        Ok(())
    } else if columns[from].data_type() != schema.fields[from].data_type {
        Err(
            invalid_batch(
                "column types must match schema types, expected "@
                    + schema.fields[from].data_type.name() + " but found "@
                    + columns[from].data_type().name() + " at column index "@ + numeral(
                    from as nat,
                ),
            ),
        )
    } else {
        types_check(schema, columns, from + 1)
    }
}

/// The error of columns that make no batch.
pub open spec fn invalid_batch(message: Seq<char>) -> ErrorView {
    ErrorView::Arrow("Invalid argument error: "@ + message)
}

/// What keeps columns from being a batch of a schema, if anything does.
pub open spec fn batch_check(
    schema: SchemaView,
    columns: Seq<ColumnView>,
    rows: Option<usize>,
) -> Result<(), ErrorView> {
    if columns.len() != schema.fields.len() {
        Err(
            invalid_batch(
                "number of columns("@ + numeral(columns.len()) + ") must match number of fields("@
                    + numeral(schema.fields.len()) + ") in schema"@,
            ),
        )
    } else if rows is None && columns.len() == 0 {
        Err(invalid_batch("must either specify a row count or at least one column"@))
    } else if nulls_check(schema, columns, 0) is Err {
        nulls_check(schema, columns, 0)
    } else if exists|i: int|
        0 <= i < columns.len() && (#[trigger] columns[i]).len() != row_count(columns, rows) {
        Err(
            invalid_batch(
                if rows is Some {
                    "all columns in a record batch must have the specified row count"@
                } else {
                    "all columns in a record batch must have the same length"@
                },
            ),
        )
    } else {
        types_check(schema, columns, 0)
    }
}

/// The number of rows of a batch: as specified, or that of the first column.
pub open spec fn row_count(columns: Seq<ColumnView>, rows: Option<usize>) -> nat {
    match rows {
        Some(rows) => rows as nat,
        None => columns[0].len(),
    }
}

/// A batch that was made, as contracts see it.
pub open spec fn batch_outcome(r: Result<Batch, SparkXError>) -> Result<BatchView, ErrorView> {
    match r {
        Ok(batch) => Ok(batch@),
        Err(error) => Err(error@),
    }
}

/// What comes of making a batch.
pub open spec fn made_batch(
    schema: SchemaView,
    columns: Seq<ColumnView>,
    rows: Option<usize>,
) -> Result<BatchView, ErrorView> {
    match batch_check(schema, columns, rows) {
        Ok(()) => Ok(BatchView { schema, columns, rows: row_count(columns, rows) }),
        Err(error) => Err(error),
    }
}

fn invalid(message: String) -> (r: SparkXError)
    ensures
        r@ == invalid_batch(message@),
{
    SparkXError::Arrow(join("Invalid argument error: ", message.as_str()))
}

/// Whether a column holds a NULL that is marked as one.
fn holds_null(column: &Column) -> (r: bool)
    ensures
        r == has_null(column@),
{
    if let Column::Null(_) = column {
        return false;
    }
    let count: usize = column.len();
    for row in 0..count
        invariant
            count == column@.len(),
            !(column@ is Null),
            forall|k: int| 0 <= k < row ==> !(#[trigger] column@.null_at(k)),
    {
        if column.is_null(row) {
            proof {
                assert(column@.null_at(row as int));
            }
            return true;
        }
    }
    false
}

pub proof fn nulls_check_is_exact(schema: SchemaView, columns: Seq<ColumnView>, from: int)
    requires
        0 <= from,
        nulls_check(schema, columns, from) is Ok,
    ensures
        forall|i: int|
            from <= i < columns.len() ==> (!schema.fields[i].nullable ==> !has_null(
                #[trigger] columns[i],
            )),
    decreases columns.len() - from,
{
    if from < columns.len() {
        nulls_check_is_exact(schema, columns, from + 1);
    }
}

pub proof fn types_check_is_exact(schema: SchemaView, columns: Seq<ColumnView>, from: int)
    requires
        0 <= from,
        types_check(schema, columns, from) is Ok,
    ensures
        forall|i: int|
            from <= i < columns.len() ==> (#[trigger] columns[i]).data_type()
                == schema.fields[i].data_type,
    decreases columns.len() - from,
{
    if from < columns.len() {
        types_check_is_exact(schema, columns, from + 1);
    }
}

impl Batch {
    pub open spec fn wf(&self) -> bool {
        self@.wf()
    }

    /// A batch of the given columns, as many rows as specified or as the first column has.
    pub fn try_new(schema: Schema, columns: Vec<Column>, rows: Option<usize>) -> (r: Result<
        Self,
        SparkXError,
    >)
        ensures
            batch_outcome(r) == made_batch(schema@, column_views(columns@), rows),
            r matches Ok(batch) ==> batch.wf(),
    {
        let ghost views = column_views(columns@);
        let count: usize = columns.len();
        if count != schema.fields.len() {
            let mut message: String = join("number of columns(", decimal(count as u64).as_str());
            message.append(") must match number of fields(");
            message.append(decimal(schema.fields.len() as u64).as_str());
            message.append(") in schema");
            return Err(invalid(message));
        }
        let row_total: usize = match rows {
            Some(rows) => rows,
            None => {
                if count == 0 {
                    return Err(
                        invalid(
                            "must either specify a row count or at least one column".to_owned(),
                        ),
                    );
                }
                columns[0].len()
            },
        };
        for i in 0..count
            invariant
                count == columns.len(),
                count == schema.fields.len(),
                views == column_views(columns@),
                rows is None ==> count > 0,
                nulls_check(schema@, views, 0) == nulls_check(schema@, views, i as int),
        {
            if !schema.fields[i].nullable && holds_null(&columns[i]) {
                let mut message: String = join("Column '", schema.fields[i].name.as_str());
                message.append("' is declared as non-nullable but contains null values");
                return Err(invalid(message));
            }
        }
        for i in 0..count
            invariant
                count == columns.len(),
                count == schema.fields.len(),
                views == column_views(columns@),
                rows is None ==> count > 0,
                nulls_check(schema@, views, 0) is Ok,
                row_total == row_count(views, rows),
                forall|k: int| 0 <= k < i ==> (#[trigger] views[k]).len() == row_total,
        {
            if columns[i].len() != row_total {
                proof {
                    assert(views[i as int].len() != row_count(views, rows));
                }
                return Err(
                    invalid(
                        if rows.is_some() {
                            "all columns in a record batch must have the specified row count".to_owned()
                        } else {
                            "all columns in a record batch must have the same length".to_owned()
                        },
                    ),
                );
            }
            proof {
                assert(views[i as int] == columns@[i as int]@);
            }
        }
        for i in 0..count
            invariant
                count == columns.len(),
                count == schema.fields.len(),
                views == column_views(columns@),
                rows is None ==> count > 0,
                nulls_check(schema@, views, 0) is Ok,
                row_total == row_count(views, rows),
                forall|k: int| 0 <= k < count ==> (#[trigger] views[k]).len() == row_total,
                types_check(schema@, views, 0) == types_check(schema@, views, i as int),
        {
            let data_type = columns[i].data_type();
            if !data_type.same(&schema.fields[i].data_type) {
                let mut message: String = join(
                    "column types must match schema types, expected ",
                    schema.fields[i].data_type.to_text().as_str(),
                );
                message.append(" but found ");
                message.append(data_type.to_text().as_str());
                message.append(" at column index ");
                message.append(decimal(i as u64).as_str());
                return Err(invalid(message));
            }
        }
        proof {
            nulls_check_is_exact(schema@, views, 0);
            types_check_is_exact(schema@, views, 0);
        }
        Ok(Batch { schema, columns, rows: row_total })
    }

    pub fn num_rows(&self) -> (r: usize)
        ensures
            r == self@.rows,
    {
        self.rows
    }

    pub fn num_columns(&self) -> (r: usize)
        ensures
            r == self@.columns.len(),
    {
        self.columns.len()
    }

    pub fn schema(&self) -> (r: &Schema)
        ensures
            r@ == self@.schema,
    {
        &self.schema
    }

    pub fn columns(&self) -> (r: &Vec<Column>)
        ensures
            column_views(r@) == self@.columns,
    {
        &self.columns
    }

    pub fn column(&self, i: usize) -> (r: &Column)
        requires
            i < self@.columns.len(),
        ensures
            r@ == self@.columns[i as int],
    {
        &self.columns[i]
    }
}

impl BatchView {
    /// The batch with some rows of this one.
    pub open spec fn taken(self, rows: Seq<int>) -> BatchView {
        BatchView {
            schema: self.schema,
            columns: Seq::new(self.columns.len(), |i: int| self.columns[i].taken(rows)),
            rows: rows.len(),
        }
    }
}

/// Whether every entry names one of the first `count` rows.
pub open spec fn rows_within(rows: Seq<Option<usize>>, count: nat) -> bool {
    forall|i: int|
        0 <= i < rows.len() ==> (#[trigger] rows[i]) is Some && rows[i]->Some_0 < count
}

/// Rows of a batch stay rows of a batch.
pub proof fn taken_keeps_validity(batch: BatchView, rows: Seq<int>)
    requires
        batch.wf(),
        rows.len() <= usize::MAX,
        forall|i: int| 0 <= i < rows.len() ==> 0 <= #[trigger] rows[i] < batch.rows,
    ensures
        batch.taken(rows).wf(),
{
    let next = batch.taken(rows);
    assert forall|i: int| 0 <= i < next.columns.len() implies {
        &&& (#[trigger] next.columns[i]).len() == next.rows
        &&& next.columns[i].data_type() == next.schema.fields[i].data_type
        &&& !next.schema.fields[i].nullable ==> !has_null(next.columns[i])
    } by {
        let column = batch.columns[i];
        if has_null(next.columns[i]) {
            let row = choose|row: int|
                0 <= row < next.columns[i].len() && #[trigger] next.columns[i].null_at(row);
            assert(0 <= rows[row] < batch.rows);
            assert(column.null_at(rows[row]));
        }
    }
}

impl Batch {
    /// The batch with some rows of this one, in the order in which they are named.
    pub fn take(&self, rows: &Vec<Option<usize>>) -> (r: Batch)
        requires
            self.wf(),
            rows_within(rows@, self@.rows),
        ensures
            r@ == self@.taken(row_numbers(rows@)),
            r.wf(),
    {
        let mut columns: Vec<Column> = Vec::new();
        for i in 0..self.columns.len()
            invariant
                self.wf(),
                columns.len() == i,
                rows_within(rows@, self@.rows),
                forall|k: int|
                    0 <= k < i ==> (#[trigger] columns@[k])@ == self@.columns[k].taken(
                        row_numbers(rows@),
                    ),
        {
            proof {
                assert(self@.columns[i as int].len() == self@.rows);
            }
            columns.push(self.columns[i].take(rows));
        }
        let r = Batch { schema: self.schema.clone(), columns, rows: rows.len() };
        proof {
            assert(r@.columns =~= self@.taken(row_numbers(rows@)).columns);
            taken_keeps_validity(self@, row_numbers(rows@));
        }
        r
    }

    /// The first rows of this batch.
    pub fn head(&self, count: usize) -> (r: Batch)
        requires
            self.wf(),
            count <= self@.rows,
        ensures
            r@ == self@.taken(Seq::new(count as nat, |i: int| i)),
            r.wf(),
    {
        let mut rows: Vec<Option<usize>> = Vec::new();
        for i in 0..count
            invariant
                rows.len() == i,
                forall|k: int| 0 <= k < i ==> #[trigger] rows@[k] == Some(k as usize),
        {
            rows.push(Some(i));
        }
        proof {
            assert(row_numbers(rows@) =~= Seq::new(count as nat, |i: int| i));
        }
        self.take(&rows)
    }
}

impl Clone for Batch {
    fn clone(&self) -> (r: Self)
        ensures
            r@ == self@,
    {
        let mut columns: Vec<Column> = Vec::new();
        for i in 0..self.columns.len()
            invariant
                columns.len() == i,
                forall|k: int| 0 <= k < i ==> (#[trigger] columns@[k])@ == self@.columns[k],
        {
            columns.push(self.columns[i].clone());
        }
        proof {
            assert(column_views(columns@) =~= self@.columns);
        }
        Batch { schema: self.schema.clone(), columns, rows: self.rows }
    }
}

pub open spec fn batch_views(batches: Seq<Batch>) -> Seq<BatchView> {
    Seq::new(batches.len(), |i: int| batches[i]@)
}

} // verus!

//! Values that are written into columns and read back.

use crate::batch::BatchView;
use crate::cells::{
    all_float32s, all_floats, cell_value, column_of, float32_of, float_of, lower_half,
    lower_half_signed, only_float, only_float32, widened,
};
use crate::column::{cells_make_a_column, CellView, ColumnView};
use crate::error::ErrorView;
use crate::execution::rows::{batch_of_rows, table_columns, values_at_place};
use crate::floats::{
    is_single_nan, narrowing_undoes_widening, numbers_stay_numbers, widened_bits, NO_SINGLE_NUMBER,
};
use crate::kernels::{cast_to_type, too_large};
use crate::scalar::{is_nan, ScalarView};
use crate::types::{DataTypeView, FieldView, SchemaView};
use crate::values::casting_is_by_cell;
use vstd::prelude::*;

verus! {

/// A value as a column of a type with one row.
pub open spec fn written(value: ScalarView, data_type: DataTypeView) -> ColumnView {
    column_of(seq![value], data_type)->Ok_0
}

/// Whether a value that is written into a column of a type is read back.
pub open spec fn is_kept(value: ScalarView, data_type: DataTypeView) -> bool {
    &&& column_of(seq![value], data_type) is Ok
    &&& cell_value(written(value, data_type), 0) == Ok::<ScalarView, ErrorView>(value)
}

proof fn floats_are_by_value(values: Seq<ScalarView>, upto: int)
    requires
        0 <= upto <= values.len(),
    ensures
        all_floats(values, upto) matches Ok(cells) ==> cells.len() == upto && forall|i: int|
            0 <= i < upto ==> float_of(values[i]) == Ok::<Option<u64>, ErrorView>(
                #[trigger] cells[i],
            ),
        all_float32s(values, upto) matches Ok(cells) ==> cells.len() == upto && forall|i: int|
            0 <= i < upto ==> float32_of(values[i]) == Ok::<Option<u32>, ErrorView>(
                #[trigger] cells[i],
            ),
    decreases upto,
{
    if upto > 0 {
        floats_are_by_value(values, upto - 1);
    }
}

/// A column of values is made of each value.
pub proof fn writing_is_by_value(values: Seq<ScalarView>, data_type: DataTypeView)
    ensures
        column_of(values, data_type) matches Ok(column) ==> {
            &&& column.data_type() == data_type
            &&& column.len() == values.len()
            &&& forall|i: int|
                0 <= i < values.len() ==> column_of(seq![values[i]], data_type) is Ok
                    && #[trigger] column.taken(seq![i]) == written(values[i], data_type)
        },
{
    if let Ok(column) = column_of(values, data_type) {
        floats_are_by_value(values, values.len() as int);
        assert forall|i: int| 0 <= i < values.len() implies column_of(
            seq![values[i]],
            data_type,
        ) is Ok && #[trigger] column.taken(seq![i]) == written(values[i], data_type) by {
            let one = seq![values[i]];
            reveal_with_fuel(all_floats, 2);
            reveal_with_fuel(all_float32s, 2);
            let other = written(values[i], data_type);
            assert(column_of(one, data_type) is Ok);
            assert(column.taken(seq![i]).cell(0) == other.cell(0));
            cells_make_a_column(column.taken(seq![i]), other);
        }
    }
}

/// The value in a row of a column is the one of that row by itself.
pub proof fn reading_is_by_row(column: ColumnView, row: int)
    requires
        0 <= row < column.len(),
    ensures
        cell_value(column, row) == cell_value(column.taken(seq![row]), 0),
{
}

/// A single-precision number is read at double precision.
pub proof fn singles_are_read_widened(bits: u32)
    ensures
        widened(bits) == Ok::<ScalarView, ErrorView>(ScalarView::Float64(widened_bits(bits))),
{
    let one = ColumnView::Float32(seq![Some(bits)]);
    casting_is_by_cell(one, DataTypeView::Float64, 0);
    let wide = cast_to_type(one, DataTypeView::Float64);
    assert(one.cell(0) == Some(CellView::Float32(bits)));
    assert(!too_large(one));
    if !is_single_nan(bits) {
        numbers_stay_numbers(bits);
    }
    assert(wide.cell(0) is Some);
    assert(only_float(wide) == Some(widened_bits(bits)));
}

proof fn singles_are_kept(bits: u32)
    ensures
        is_kept(ScalarView::Float64(widened_bits(bits)), DataTypeView::Float32),
{
    reveal_with_fuel(all_float32s, 2);
    let wide = widened_bits(bits);
    let one = ColumnView::Float64(seq![Some(wide)]);
    casting_is_by_cell(one, DataTypeView::Float32, 0);
    let narrow = cast_to_type(one, DataTypeView::Float32);
    assert(one.cell(0) == Some(CellView::Float64(wide)));
    assert(!too_large(one));
    if is_single_nan(bits) {
        assert(is_nan(wide));
        assert(narrow.cell(0) == Some(CellView::Float32(NO_SINGLE_NUMBER)));
        assert(only_float32(narrow) == Some(NO_SINGLE_NUMBER));
        singles_are_read_widened(NO_SINGLE_NUMBER);
    } else {
        numbers_stay_numbers(bits);
        narrowing_undoes_widening(bits);
        assert(narrow.cell(0) == Some(CellView::Float32(bits)));
        assert(only_float32(narrow) == Some(bits));
        singles_are_read_widened(bits);
    }
}

/// What is read from a column is kept when it is written into one of its type.
pub proof fn what_is_read_is_kept(column: ColumnView, row: int, value: ScalarView)
    requires
        0 <= row < column.len(),
        !(column is Null),
        cell_value(column, row) == Ok::<ScalarView, ErrorView>(value),
    ensures
        is_kept(value, column.data_type()),
{
    reveal_with_fuel(all_floats, 2);
    reveal_with_fuel(all_float32s, 2);
    if !column.null_at(row) {
        match column {
            ColumnView::Int32(cells) => {
                let n = cells[row]->Some_0 as int;
                assert(lower_half_signed(n) == n);
            },
            ColumnView::UInt32(cells) => {
                let n = cells[row]->Some_0 as int;
                assert(lower_half(n) == n);
            },
            ColumnView::Float32(cells) => {
                singles_are_read_widened(cells[row]->Some_0);
                singles_are_kept(cells[row]->Some_0);
            },
            _ => {},
        }
    }
}

proof fn places_are_by_row(rows: Seq<Seq<ScalarView>>, width: nat, place: int, upto: int)
    requires
        0 <= upto <= rows.len(),
        0 <= place < width,
        forall|r: int| 0 <= r < rows.len() ==> (#[trigger] rows[r]).len() == width,
    ensures
        values_at_place(rows, place, upto) == Seq::new(upto as nat, |r: int| rows[r][place]),
    decreases upto,
{
    if upto > 0 {
        places_are_by_row(rows, width, place, upto - 1);
        assert(rows[upto - 1].len() == width);
    }
    assert(values_at_place(rows, place, upto) =~= Seq::new(
        upto as nat,
        |r: int| rows[r][place],
    ));
}

proof fn columns_are_by_field(rows: Seq<Seq<ScalarView>>, fields: Seq<FieldView>, upto: int)
    requires
        0 <= upto,
    ensures
        table_columns(rows, fields, upto) matches Ok(columns) ==> columns.len() == upto && forall|
            j: int,
        |
            0 <= j < upto ==> column_of(
                values_at_place(rows, j, rows.len() as int),
                fields[j].data_type,
            ) == Ok::<ColumnView, ErrorView>(#[trigger] columns[j]),
    decreases upto,
{
    if upto > 0 {
        columns_are_by_field(rows, fields, upto - 1);
    }
}

/// Whether a batch holds rows of values, written at the types of some fields.
pub open spec fn holds_rows(
    batch: BatchView,
    rows: Seq<Seq<ScalarView>>,
    fields: Seq<FieldView>,
) -> bool {
    &&& batch.columns.len() == fields.len()
    &&& batch.rows == rows.len()
    &&& forall|j: int|
        #![trigger batch.columns[j]]
        0 <= j < fields.len() ==> batch.columns[j].len() == rows.len()
            && batch.columns[j].data_type() == fields[j].data_type
    &&& forall|j: int, r: int|
        #![trigger batch.columns[j].taken(seq![r])]
        0 <= j < fields.len() && 0 <= r < rows.len() ==> batch.columns[j].taken(seq![r])
            == written(rows[r][j], fields[j].data_type) && column_of(
            seq![rows[r][j]],
            fields[j].data_type,
        ) is Ok
}

/// A batch made of rows holds them.
pub proof fn rows_are_held(rows: Seq<Seq<ScalarView>>, schema: SchemaView)
    requires
        forall|r: int|
            0 <= r < rows.len() ==> (#[trigger] rows[r]).len() == schema.fields.len(),
        schema.fields.len() > 0,
    ensures
        batch_of_rows(rows, schema.fields.len(), schema) matches Ok(batch) ==> holds_rows(
            batch,
            rows,
            schema.fields,
        ),
{
    let width = schema.fields.len();
    if let Ok(batch) = batch_of_rows(rows, width, schema) {
        columns_are_by_field(rows, schema.fields, width as int);
        assert forall|j: int| 0 <= j < width implies {
            let values = Seq::new(rows.len(), |r: int| rows[r][j]);
            &&& column_of(values, schema.fields[j].data_type) == Ok::<ColumnView, ErrorView>(
                #[trigger] batch.columns[j],
            )
        } by {
            places_are_by_row(rows, width, j, rows.len() as int);
        }
        assert forall|j: int|
            #![trigger batch.columns[j]]
            0 <= j < width implies batch.columns[j].len() == rows.len()
            && batch.columns[j].data_type() == schema.fields[j].data_type by {
            let values = Seq::new(rows.len(), |r: int| rows[r][j]);
            writing_is_by_value(values, schema.fields[j].data_type);
        }
        assert forall|j: int, r: int|
            #![trigger batch.columns[j].taken(seq![r])]
            0 <= j < width && 0 <= r < rows.len() implies batch.columns[j].taken(seq![r])
            == written(rows[r][j], schema.fields[j].data_type) && column_of(
            seq![rows[r][j]],
            schema.fields[j].data_type,
        ) is Ok by {
            let values = Seq::new(rows.len(), |r: int| rows[r][j]);
            writing_is_by_value(values, schema.fields[j].data_type);
            assert(values[r] == rows[r][j]);
            let one = batch.columns[j].taken(seq![r]);
        }
        assert(batch.columns[0].len() == rows.len());
    }
}

} // verus!

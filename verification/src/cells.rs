//! Between the cells of columns and single values.

use crate::column::{text_cell, text_cells, Column, ColumnView};
use crate::error::{ErrorView, SparkXError};
use crate::kernels::{cast_column, cast_outcome, column_outcome};
use crate::scalar::{scalar_views, ScalarValue, ScalarView};
use crate::text::join;
use crate::types::{DataType, DataTypeView};
use vstd::prelude::*;

verus! {

/// The one cell of a column of one row, where it is a double-precision number.
pub open spec fn only_float(column: ColumnView) -> Option<u64> {
    match column {
        ColumnView::Float64(cells) if cells.len() == 1 => cells[0],
        _ => None,
    }
}

/// The one cell of a column of one row, where it is a single-precision number.
pub open spec fn only_float32(column: ColumnView) -> Option<u32> {
    match column {
        ColumnView::Float32(cells) if cells.len() == 1 => cells[0],
        _ => None,
    }
}

/// A value that was read or made, as contracts see it.
pub open spec fn scalar_outcome(r: Result<ScalarValue, SparkXError>) -> Result<
    ScalarView,
    ErrorView,
> {
    match r {
        Ok(value) => Ok(value@),
        Err(error) => Err(error@),
    }
}

/// The value in a row of a column: whole numbers and floating-point numbers at their full width.
pub open spec fn cell_value(column: ColumnView, row: int) -> Result<ScalarView, ErrorView> {
    if column.null_at(row) {
        Ok(ScalarView::Null)
    } else {
        match column {
            ColumnView::Null(_) => Ok(ScalarView::Null),
            ColumnView::Boolean(cells) => Ok(ScalarView::Boolean(cells[row]->Some_0)),
            ColumnView::Int32(cells) => Ok(ScalarView::Int64(cells[row]->Some_0 as i64)),
            ColumnView::Int64(cells) => Ok(ScalarView::Int64(cells[row]->Some_0)),
            ColumnView::UInt32(cells) => Ok(ScalarView::UInt64(cells[row]->Some_0 as u64)),
            ColumnView::UInt64(cells) => Ok(ScalarView::UInt64(cells[row]->Some_0)),
            ColumnView::Float32(cells) => widened(cells[row]->Some_0),
            ColumnView::Float64(cells) => Ok(ScalarView::Float64(cells[row]->Some_0)),
            ColumnView::Utf8(cells) => Ok(ScalarView::Utf8(cells[row]->Some_0)),
        }
    }
}

/// A single-precision number at double precision.
pub open spec fn widened(bits: u32) -> Result<ScalarView, ErrorView> {
    match cast_outcome(ColumnView::Float32(seq![Some(bits)]), DataTypeView::Float64) {
        Err(error) => Err(error),
        Ok(column) => Ok(
            match only_float(column) {
                Some(wide) => ScalarView::Float64(wide),
                None => ScalarView::Null,
            },
        ),
    }
}

/// The value in a row of a column.
pub fn value_at(column: &Column, row: usize) -> (r: Result<ScalarValue, SparkXError>)
    requires
        row < column@.len(),
    ensures
        scalar_outcome(r) == cell_value(column@, row as int),
{
    if column.is_null(row) {
        return Ok(ScalarValue::Null);
    }
    match column {
        Column::Null(_) => Ok(ScalarValue::Null),
        Column::Boolean(cells) => Ok(ScalarValue::Boolean(cells[row].unwrap())),
        Column::Int32(cells) => Ok(ScalarValue::Int64(cells[row].unwrap() as i64)),
        Column::Int64(cells) => Ok(ScalarValue::Int64(cells[row].unwrap())),
        Column::UInt32(cells) => Ok(ScalarValue::UInt64(cells[row].unwrap() as u64)),
        Column::UInt64(cells) => Ok(ScalarValue::UInt64(cells[row].unwrap())),
        Column::Float32(cells) => {
            let bits: u32 = cells[row].unwrap();
            let one = Column::Float32(vec![Some(bits)]);
            proof {
                assert(one@->Float32_0 =~= seq![Some(bits)]);
            }
            match cast_column(&one, &DataType::Float64) {
                Ok(Column::Float64(wide)) => match wide[0] {
                    Some(b) => Ok(ScalarValue::Float64(b)),
                    None => Ok(ScalarValue::Null),
                },
                Ok(_) => Ok(ScalarValue::Null),
                Err(error) => Err(error),
            }
        },
        Column::Float64(cells) => Ok(ScalarValue::Float64(cells[row].unwrap())),
        Column::Utf8(cells) => {
            proof {
                assert(text_cells(cells@)[row as int] == text_cell(cells@[row as int]));
            }
            match &cells[row] {
                Some(text) => Ok(ScalarValue::Utf8(text.clone())),
                None => Ok(ScalarValue::Null),
            }
        },
    }
}

/// The signed 32-bit number with the lower 32 bits of a whole number.
pub open spec fn lower_half_signed(n: int) -> i32 {
    let low = n % 0x1_0000_0000;
    if low >= 0x8000_0000 {
        (low - 0x1_0000_0000) as i32
    } else {
        low as i32
    }
}

/// The unsigned 32-bit number with the lower 32 bits of a whole number.
pub open spec fn lower_half(n: int) -> u32 {
    (n % 0x1_0000_0000) as u32
}

fn wrap_signed(n: i64) -> (r: i32)
    ensures
        r == lower_half_signed(n as int),
{
    let wide: i128 = if n < 0 {
        n as i128 + 0x1_0000_0000_0000_0000i128
    } else {
        n as i128
    };
    proof {
        assert((n + 0x1_0000_0000_0000_0000) % 0x1_0000_0000 == n as int % 0x1_0000_0000) by {
            vstd::arithmetic::div_mod::lemma_mod_multiples_vanish(
                0x1_0000_0000,
                n as int,
                0x1_0000_0000,
            );
        }
    }
    let bits: u64 = wide as u64;
    let low: i64 = (bits % 0x1_0000_0000) as i64;
    if low >= 0x8000_0000 {
        (low - 0x1_0000_0000) as i32
    } else {
        low as i32
    }
}

/// The cells of a Boolean column that holds some values; what is no truth value becomes NULL.
pub open spec fn boolean_of(value: ScalarView) -> Option<bool> {
    match value {
        ScalarView::Boolean(b) => Some(b),
        _ => None,
    }
}

pub open spec fn int32_of(value: ScalarView) -> Option<i32> {
    match value {
        ScalarView::Int64(n) => Some(lower_half_signed(n as int)),
        _ => None,
    }
}

pub open spec fn int64_of(value: ScalarView) -> Option<i64> {
    match value {
        ScalarView::Int64(n) => Some(n),
        _ => None,
    }
}

pub open spec fn uint32_of(value: ScalarView) -> Option<u32> {
    match value {
        ScalarView::UInt64(n) => Some(lower_half(n as int)),
        _ => None,
    }
}

pub open spec fn uint64_of(value: ScalarView) -> Option<u64> {
    match value {
        ScalarView::UInt64(n) => Some(n),
        _ => None,
    }
}

pub open spec fn text_of(value: ScalarView) -> Option<Seq<char>> {
    match value {
        ScalarView::Utf8(s) => Some(s),
        _ => None,
    }
}

/// A number as a double-precision one, or as a single-precision one.
pub open spec fn float_of(value: ScalarView) -> Result<Option<u64>, ErrorView> {
    match value {
        ScalarView::Float64(bits) => Ok(Some(bits)),
        ScalarView::Int64(n) => cast_float(ColumnView::Int64(seq![Some(n)])),
        ScalarView::UInt64(n) => cast_float(ColumnView::UInt64(seq![Some(n)])),
        _ => Ok(None),
    }
}

pub open spec fn cast_float(column: ColumnView) -> Result<Option<u64>, ErrorView> {
    match cast_outcome(column, DataTypeView::Float64) {
        Ok(cast) => Ok(only_float(cast)),
        Err(error) => Err(error),
    }
}

pub open spec fn float32_of(value: ScalarView) -> Result<Option<u32>, ErrorView> {
    match value {
        ScalarView::Float64(bits) => cast_float32(ColumnView::Float64(seq![Some(bits)])),
        ScalarView::Int64(n) => cast_float32(ColumnView::Int64(seq![Some(n)])),
        ScalarView::UInt64(n) => cast_float32(ColumnView::UInt64(seq![Some(n)])),
        _ => Ok(None),
    }
}

pub open spec fn cast_float32(column: ColumnView) -> Result<Option<u32>, ErrorView> {
    match cast_outcome(column, DataTypeView::Float32) {
        Ok(cast) => Ok(only_float32(cast)),
        Err(error) => Err(error),
    }
}

/// The first error among results, if there is one.
pub open spec fn all_floats(values: Seq<ScalarView>, upto: int) -> Result<
    Seq<Option<u64>>,
    ErrorView,
>
    decreases upto,
{
    if upto <= 0 {
        Ok(Seq::empty())
    } else {
        match all_floats(values, upto - 1) {
            Err(error) => Err(error),
            Ok(cells) => match float_of(values[upto - 1]) {
                Err(error) => Err(error),
                Ok(cell) => Ok(cells.push(cell)),
            },
        }
    }
}

pub open spec fn all_float32s(values: Seq<ScalarView>, upto: int) -> Result<
    Seq<Option<u32>>,
    ErrorView,
>
    decreases upto,
{
    if upto <= 0 {
        Ok(Seq::empty())
    } else {
        match all_float32s(values, upto - 1) {
            Err(error) => Err(error),
            Ok(cells) => match float32_of(values[upto - 1]) {
                Err(error) => Err(error),
                Ok(cell) => Ok(cells.push(cell)),
            },
        }
    }
}

/// The column of a type that holds some values, or why there is none. A value that is not of the
/// type becomes NULL.
pub open spec fn column_of(values: Seq<ScalarView>, data_type: DataTypeView) -> Result<
    ColumnView,
    ErrorView,
> {
    match data_type {
        DataTypeView::Boolean => Ok(
            ColumnView::Boolean(Seq::new(values.len(), |i: int| boolean_of(values[i]))),
        ),
        DataTypeView::Int32 => Ok(
            ColumnView::Int32(Seq::new(values.len(), |i: int| int32_of(values[i]))),
        ),
        DataTypeView::Int64 => Ok(
            ColumnView::Int64(Seq::new(values.len(), |i: int| int64_of(values[i]))),
        ),
        DataTypeView::UInt32 => Ok(
            ColumnView::UInt32(Seq::new(values.len(), |i: int| uint32_of(values[i]))),
        ),
        DataTypeView::UInt64 => Ok(
            ColumnView::UInt64(Seq::new(values.len(), |i: int| uint64_of(values[i]))),
        ),
        DataTypeView::Float32 => match all_float32s(values, values.len() as int) {
            Ok(cells) => Ok(ColumnView::Float32(cells)),
            Err(error) => Err(error),
        },
        DataTypeView::Float64 => match all_floats(values, values.len() as int) {
            Ok(cells) => Ok(ColumnView::Float64(cells)),
            Err(error) => Err(error),
        },
        DataTypeView::Utf8 => Ok(
            ColumnView::Utf8(Seq::new(values.len(), |i: int| text_of(values[i]))),
        ),
        DataTypeView::Null | DataTypeView::Other(_) => Err(
            ErrorView::Unsupported("building output arrays for "@ + data_type.name()),
        ),
    }
}

fn float_cast(column: &Column) -> (r: Result<Option<u64>, SparkXError>)
    requires
        column@.len() == 1,
    ensures
        crate::error::outcome(r) == cast_float(column@),
{
    match cast_column(column, &DataType::Float64) {
        Ok(Column::Float64(cells)) => Ok(cells[0]),
        Ok(_) => Ok(None),
        Err(error) => Err(error),
    }
}

fn float32_cast(column: &Column) -> (r: Result<Option<u32>, SparkXError>)
    requires
        column@.len() == 1,
    ensures
        crate::error::outcome(r) == cast_float32(column@),
{
    match cast_column(column, &DataType::Float32) {
        Ok(Column::Float32(cells)) => Ok(cells[0]),
        Ok(_) => Ok(None),
        Err(error) => Err(error),
    }
}

/// A number as a double-precision one, by its bits.
pub fn to_float(value: &ScalarValue) -> (r: Result<Option<u64>, SparkXError>)
    ensures
        crate::error::outcome(r) == float_of(value@),
{
    match value {
        ScalarValue::Float64(bits) => Ok(Some(*bits)),
        ScalarValue::Int64(n) => {
            let one = Column::Int64(vec![Some(*n)]);
            proof {
                assert(one@->Int64_0 =~= seq![Some(*n)]);
            }
            float_cast(&one)
        },
        ScalarValue::UInt64(n) => {
            let one = Column::UInt64(vec![Some(*n)]);
            proof {
                assert(one@->UInt64_0 =~= seq![Some(*n)]);
            }
            float_cast(&one)
        },
        _ => Ok(None),
    }
}

fn to_float32(value: &ScalarValue) -> (r: Result<Option<u32>, SparkXError>)
    ensures
        crate::error::outcome(r) == float32_of(value@),
{
    match value {
        ScalarValue::Float64(bits) => {
            let one = Column::Float64(vec![Some(*bits)]);
            proof {
                assert(one@->Float64_0 =~= seq![Some(*bits)]);
            }
            float32_cast(&one)
        },
        ScalarValue::Int64(n) => {
            let one = Column::Int64(vec![Some(*n)]);
            proof {
                assert(one@->Int64_0 =~= seq![Some(*n)]);
            }
            float32_cast(&one)
        },
        ScalarValue::UInt64(n) => {
            let one = Column::UInt64(vec![Some(*n)]);
            proof {
                assert(one@->UInt64_0 =~= seq![Some(*n)]);
            }
            float32_cast(&one)
        },
        _ => Ok(None),
    }
}

proof fn floats_fail_early(values: Seq<ScalarView>, upto: int, full: int)
    requires
        0 <= upto <= full,
    ensures
        all_floats(values, upto) is Err ==> all_floats(values, full) == all_floats(values, upto),
        all_float32s(values, upto) is Err ==> all_float32s(values, full) == all_float32s(
            values,
            upto,
        ),
    decreases full - upto,
{
    if upto < full {
        floats_fail_early(values, upto, full - 1);
    }
}

/// The column of a type that holds some values.
pub fn scalars_to_array(values: &Vec<ScalarValue>, data_type: &DataType) -> (r: Result<
    Column,
    SparkXError,
>)
    ensures
        column_outcome(r) == column_of(scalar_views(values@), data_type@),
        r matches Ok(column) ==> column@.len() == values.len() && column@.data_type()
            == data_type@,
{
    let ghost views = scalar_views(values@);
    let count: usize = values.len();
    match data_type {
        DataType::Boolean => {
            let mut cells: Vec<Option<bool>> = Vec::new();
            for i in 0..count
                invariant
                    count == values.len(),
                    cells.len() == i,
                    forall|k: int| 0 <= k < i ==> #[trigger] cells@[k] == boolean_of(values@[k]@),
            {
                cells.push(
                    match &values[i] {
                        ScalarValue::Boolean(b) => Some(*b),
                        _ => None,
                    },
                );
            }
            proof {
                assert(cells@ =~= Seq::new(views.len(), |i: int| boolean_of(views[i])));
            }
            Ok(Column::Boolean(cells))
        },
        DataType::Int32 => {
            let mut cells: Vec<Option<i32>> = Vec::new();
            for i in 0..count
                invariant
                    count == values.len(),
                    cells.len() == i,
                    forall|k: int| 0 <= k < i ==> #[trigger] cells@[k] == int32_of(values@[k]@),
            {
                cells.push(
                    match &values[i] {
                        ScalarValue::Int64(n) => Some(wrap_signed(*n)),
                        _ => None,
                    },
                );
            }
            proof {
                assert(cells@ =~= Seq::new(views.len(), |i: int| int32_of(views[i])));
            }
            Ok(Column::Int32(cells))
        },
        DataType::Int64 => {
            let mut cells: Vec<Option<i64>> = Vec::new();
            for i in 0..count
                invariant
                    count == values.len(),
                    cells.len() == i,
                    forall|k: int| 0 <= k < i ==> #[trigger] cells@[k] == int64_of(values@[k]@),
            {
                cells.push(
                    match &values[i] {
                        ScalarValue::Int64(n) => Some(*n),
                        _ => None,
                    },
                );
            }
            proof {
                assert(cells@ =~= Seq::new(views.len(), |i: int| int64_of(views[i])));
            }
            Ok(Column::Int64(cells))
        },
        DataType::UInt32 => {
            let mut cells: Vec<Option<u32>> = Vec::new();
            for i in 0..count
                invariant
                    count == values.len(),
                    cells.len() == i,
                    forall|k: int| 0 <= k < i ==> #[trigger] cells@[k] == uint32_of(values@[k]@),
            {
                cells.push(
                    match &values[i] {
                        ScalarValue::UInt64(n) => Some((*n % 0x1_0000_0000) as u32),
                        _ => None,
                    },
                );
            }
            proof {
                assert(cells@ =~= Seq::new(views.len(), |i: int| uint32_of(views[i])));
            }
            Ok(Column::UInt32(cells))
        },
        DataType::UInt64 => {
            let mut cells: Vec<Option<u64>> = Vec::new();
            for i in 0..count
                invariant
                    count == values.len(),
                    cells.len() == i,
                    forall|k: int| 0 <= k < i ==> #[trigger] cells@[k] == uint64_of(values@[k]@),
            {
                cells.push(
                    match &values[i] {
                        ScalarValue::UInt64(n) => Some(*n),
                        _ => None,
                    },
                );
            }
            proof {
                assert(cells@ =~= Seq::new(views.len(), |i: int| uint64_of(views[i])));
            }
            Ok(Column::UInt64(cells))
        },
        DataType::Float32 => {
            let mut cells: Vec<Option<u32>> = Vec::new();
            proof {
                assert(cells@ =~= Seq::empty());
            }
            for i in 0..count
                invariant
                    count == values.len(),
                    views == scalar_views(values@),
                    data_type@ is Float32,
                    cells.len() == i,
                    all_float32s(views, i as int) == Ok::<Seq<Option<u32>>, ErrorView>(cells@),
            {
                proof {
                    floats_fail_early(views, i + 1, count as int);
                    assert(views[i as int] == values@[i as int]@);
                }
                match to_float32(&values[i]) {
                    Ok(cell) => cells.push(cell),
                    Err(error) => return Err(error),
                }
            }
            Ok(Column::Float32(cells))
        },
        DataType::Float64 => {
            let mut cells: Vec<Option<u64>> = Vec::new();
            proof {
                assert(cells@ =~= Seq::empty());
            }
            for i in 0..count
                invariant
                    count == values.len(),
                    views == scalar_views(values@),
                    data_type@ is Float64,
                    cells.len() == i,
                    all_floats(views, i as int) == Ok::<Seq<Option<u64>>, ErrorView>(cells@),
            {
                proof {
                    floats_fail_early(views, i + 1, count as int);
                    assert(views[i as int] == values@[i as int]@);
                }
                match to_float(&values[i]) {
                    Ok(cell) => cells.push(cell),
                    Err(error) => return Err(error),
                }
            }
            Ok(Column::Float64(cells))
        },
        DataType::Utf8 => {
            let mut cells: Vec<Option<String>> = Vec::new();
            for i in 0..count
                invariant
                    count == values.len(),
                    cells.len() == i,
                    forall|k: int|
                        0 <= k < i ==> text_cell(#[trigger] cells@[k]) == text_of(values@[k]@),
            {
                cells.push(
                    match &values[i] {
                        ScalarValue::Utf8(s) => Some(s.clone()),
                        _ => None,
                    },
                );
            }
            proof {
                assert(text_cells(cells@) =~= Seq::new(views.len(), |i: int| text_of(views[i])));
            }
            Ok(Column::Utf8(cells))
        },
        DataType::Null | DataType::Other(_) => Err(
            SparkXError::unsupported(
                join("building output arrays for ", data_type.to_text().as_str()),
            ),
        ),
    }
}

} // verus!

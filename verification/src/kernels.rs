//! The parts of the columnar format's compute library that the engine calls.
//!
//! Everything here that is marked as external is believed, not proved. An array of that library is
//! opaque; [`array_column`] names what it holds, and what a kernel makes of given columns has a
//! name too.

use crate::column::{column_views, column_with, text_cells, CellView, Column, ColumnView};
use crate::error::{ErrorView, SparkXError};
use crate::evaluate::cell_relation;
use crate::floats::{is_single_nan, narrowed_bits, widened_bits, NO_NUMBER, NO_SINGLE_NUMBER};
use crate::scalar::{is_nan, INFINITY_BITS, SIGN_BIT};
use crate::text::{join, signed_numeral, Relation};
use crate::types::{named_inverts_name, DataType, DataTypeView};
use arrow::array::{
    make_array, Array, ArrayData, BooleanArray, Decimal128Array, Float64Array, Int32Array,
    Int64Array, NullArray, StringArray, UInt32Array, UInt64Array,
};
use arrow::compute::kernels::numeric;
use arrow::compute::{lexsort_to_indices, SortColumn, SortOptions};
use arrow::row::{RowConverter, SortField};
use vstd::prelude::*;
use vstd::utf8::encode_utf8;

verus! {

#[verifier::external_type_specification]
#[verifier::external_body]
pub struct ExArrayData(arrow::array::ArrayData);

/// What an array holds, where it is of one of the engine's types.
pub uninterp spec fn array_column(array: ArrayData) -> Option<ColumnView>;

/// What `arrow::compute::cast` makes of a cell, where that is more than a change of width.
pub uninterp spec fn cast_cell(cell: CellView, target: DataTypeView) -> Option<CellView>;

/// What `numeric::add` makes of two double-precision numbers given by their bits.
pub uninterp spec fn float_sum(a: u64, b: u64) -> u64;

/// What `numeric::sub` makes of two double-precision numbers given by their bits.
pub uninterp spec fn float_difference(a: u64, b: u64) -> u64;

/// What `numeric::mul` makes of two double-precision numbers given by their bits.
pub uninterp spec fn float_product(a: u64, b: u64) -> u64;

/// What `numeric::div` makes of two double-precision numbers given by their bits.
pub uninterp spec fn float_quotient(a: u64, b: u64) -> u64;

/// The text that the standard library prints for a double-precision number given by its bits.
pub uninterp spec fn float_numeral(bits: u64) -> Seq<char>;

/// The text that the standard library's `Debug` prints for a double-precision number given by its
/// bits.
pub uninterp spec fn float_debug_text(bits: u64) -> Seq<char>;

/// The bits of the double-precision number nearest to a whole number.
pub uninterp spec fn whole_float(n: i128) -> u64;

/// The bytes that the row format gives to one row of columns, each here with that row alone.
pub uninterp spec fn row_key(row: Seq<ColumnView>) -> Seq<u8>;

/// The most cells of an array: what so many take can still be counted.
pub const MAX_CELLS: usize = usize::MAX / 32;

/// The most cells of other types that are turned into texts at once: the texts of so many numbers fit
/// the offsets of a text array.
pub const MAX_TEXT_CELLS: usize = 0x400_0000;

/// The most bytes of a text array, whose offsets are signed 32-bit numbers.
pub const MAX_TEXT_BYTES: usize = 0x7FFF_FFFF;

/// The bytes of the first `upto` texts of a column.
pub open spec fn text_bytes(cells: Seq<Option<Seq<char>>>, upto: int) -> nat
    decreases upto,
{
    if upto <= 0 {
        0
    } else {
        text_bytes(cells, upto - 1) + match cells[upto - 1] {
            Some(text) => encode_utf8(text).len(),
            None => 0,
        }
    }
}

pub open spec fn settled_bits(bits: u64) -> u64 {
    if is_nan(bits) {
        NO_NUMBER
    } else {
        bits
    }
}

pub open spec fn settled_cell(cell: Option<u64>) -> Option<u64> {
    match cell {
        Some(bits) => Some(settled_bits(bits)),
        None => None,
    }
}

pub open spec fn settled_single_cell(cell: Option<u32>) -> Option<u32> {
    match cell {
        Some(bits) => Some(
            if is_single_nan(bits) {
                NO_SINGLE_NUMBER
            } else {
                bits
            },
        ),
        None => None,
    }
}

/// A column with one bit pattern for all that is no number.
pub open spec fn settled(column: ColumnView) -> ColumnView {
    match column {
        ColumnView::Float32(cells) => ColumnView::Float32(
            Seq::new(cells.len(), |i: int| settled_single_cell(cells[i])),
        ),
        ColumnView::Float64(cells) => ColumnView::Float64(
            Seq::new(cells.len(), |i: int| settled_cell(cells[i])),
        ),
        _ => column,
    }
}

/// The whole number that a cell is, if it is one.
pub open spec fn whole_of(cell: CellView) -> Option<int> {
    match cell {
        CellView::Int32(n) => Some(n as int),
        CellView::Int64(n) => Some(n as int),
        CellView::UInt32(n) => Some(n as int),
        CellView::UInt64(n) => Some(n as int),
        _ => None,
    }
}

/// A whole number as a cell of a type of whole numbers, where it fits.
pub open spec fn whole_cell(n: int, target: DataTypeView) -> Option<CellView> {
    match target {
        DataTypeView::Int32 => if i32::MIN <= n <= i32::MAX {
            Some(CellView::Int32(n as i32))
        } else {
            None
        },
        DataTypeView::Int64 => if i64::MIN <= n <= i64::MAX {
            Some(CellView::Int64(n as i64))
        } else {
            None
        },
        DataTypeView::UInt32 => if 0 <= n <= u32::MAX {
            Some(CellView::UInt32(n as u32))
        } else {
            None
        },
        DataTypeView::UInt64 => if 0 <= n <= u64::MAX {
            Some(CellView::UInt64(n as u64))
        } else {
            None
        },
        _ => None,
    }
}

pub open spec fn is_whole(data_type: DataTypeView) -> bool {
    data_type.is_signed() || data_type.is_unsigned()
}

/// A cell as one of another type: NULL where it cannot be converted. A cell of the same type stays,
/// a whole number stays where it fits, and a number stays where the other precision has it.
pub open spec fn cast_value(cell: CellView, target: DataTypeView) -> Option<CellView> {
    if cell.data_type() == target {
        Some(cell)
    } else if whole_of(cell) is Some && is_whole(target) {
        whole_cell(whole_of(cell)->Some_0, target)
    } else {
        match (cell, target) {
            (CellView::Float32(bits), DataTypeView::Float64) => Some(
                CellView::Float64(widened_bits(bits)),
            ),
            (CellView::Float64(bits), DataTypeView::Float32) => if is_nan(bits) {
                Some(CellView::Float32(NO_SINGLE_NUMBER))
            } else {
                match narrowed_bits(bits) {
                    Some(single) => Some(CellView::Float32(single)),
                    None => cast_cell(cell, target),
                }
            },
            _ => cast_cell(cell, target),
        }
    }
}

/// The cells of a column as cells of another type.
pub open spec fn cast_cells(column: ColumnView, target: DataTypeView) -> Seq<Option<CellView>> {
    Seq::new(
        column.len(),
        |row: int|
            match column.cell(row) {
                Some(cell) => cast_value(cell, target),
                None => None,
            },
    )
}

/// A column as one of another type.
pub open spec fn cast_to_type(column: ColumnView, target: DataTypeView) -> ColumnView {
    settled(column_with(target, cast_cells(column, target)))
}

/// Whether cells of a type can become cells of another. Only NULLs can become cells without a type.
pub open spec fn castable(from: DataTypeView, target: DataTypeView) -> bool {
    from == target || from is Null || !(target is Null)
}

pub open spec fn cast_refusal(from: DataTypeView, target: DataTypeView) -> Seq<char> {
    "Cast error: Casting from "@ + from.name() + " to "@ + target.name() + " not supported"@
}

/// The four operations on numbers.
#[derive(Debug, Clone, Copy, PartialEq, Eq, Structural)]
pub enum Arithmetic {
    Add,
    Subtract,
    Multiply,
    Divide,
}

impl Arithmetic {
    pub open spec fn sign(self) -> Seq<char> {
        match self {
            Arithmetic::Add => "+"@,
            Arithmetic::Subtract => "-"@,
            Arithmetic::Multiply => "*"@,
            Arithmetic::Divide => "/"@,
        }
    }
}

/// The quotient of whole numbers, without its fraction.
pub open spec fn whole_quotient(a: int, b: int) -> int {
    if a >= 0 {
        if b > 0 {
            a / b
        } else {
            -(a / -b)
        }
    } else if b > 0 {
        -((-a) / b)
    } else {
        (-a) / -b
    }
}

/// The result of an operation on whole numbers between a least and a greatest, or the text of its
/// error.
pub open spec fn whole_result(operation: Arithmetic, a: int, b: int, least: int, greatest: int) -> Result<
    int,
    Seq<char>,
> {
    if operation is Divide && b == 0 {
        Err("Divide by zero error"@)
    } else {
        let n = match operation {
            Arithmetic::Add => a + b,
            Arithmetic::Subtract => a - b,
            Arithmetic::Multiply => a * b,
            Arithmetic::Divide => whole_quotient(a, b),
        };
        if least <= n <= greatest {
            Ok(n)
        } else {
            Err(
                "Arithmetic overflow: Overflow happened on: "@ + signed_numeral(a) + " "@
                    + operation.sign() + " "@ + signed_numeral(b),
            )
        }
    }
}

/// The cells of a result on whole numbers in the first `upto` rows, or the first error. A row in which
/// either number is missing has none.
pub open spec fn whole_results(
    operation: Arithmetic,
    left: Seq<Option<int>>,
    right: Seq<Option<int>>,
    least: int,
    greatest: int,
    upto: int,
) -> Result<Seq<Option<int>>, Seq<char>>
    decreases upto,
{
    if upto <= 0 {
        Ok(Seq::empty())
    } else {
        match whole_results(operation, left, right, least, greatest, upto - 1) {
            Err(message) => Err(message),
            Ok(before) => match (left[upto - 1], right[upto - 1]) {
                (Some(a), Some(b)) => match whole_result(operation, a, b, least, greatest) {
                    Err(message) => Err(message),
                    Ok(n) => Ok(before.push(Some(n))),
                },
                _ => Ok(before.push(None)),
            },
        }
    }
}

pub open spec fn float_result(operation: Arithmetic, a: u64, b: u64) -> u64 {
    match operation {
        Arithmetic::Add => float_sum(a, b),
        Arithmetic::Subtract => float_difference(a, b),
        Arithmetic::Multiply => float_product(a, b),
        Arithmetic::Divide => float_quotient(a, b),
    }
}

pub open spec fn float_results(
    operation: Arithmetic,
    left: Seq<Option<u64>>,
    right: Seq<Option<u64>>,
) -> Seq<Option<u64>> {
    Seq::new(
        left.len(),
        |row: int|
            match (left[row], right[row]) {
                (Some(a), Some(b)) => Some(float_result(operation, a, b)),
                _ => None,
            },
    )
}

pub open spec fn signed_wholes(cells: Seq<Option<i64>>) -> Seq<Option<int>> {
    Seq::new(
        cells.len(),
        |row: int|
            match cells[row] {
                Some(n) => Some(n as int),
                None => None,
            },
    )
}

pub open spec fn unsigned_wholes(cells: Seq<Option<u64>>) -> Seq<Option<int>> {
    Seq::new(
        cells.len(),
        |row: int|
            match cells[row] {
                Some(n) => Some(n as int),
                None => None,
            },
    )
}

/// Whether columns can be computed with: numbers of one type, at their full width, in as many rows.
pub open spec fn computes(left: ColumnView, right: ColumnView) -> bool {
    &&& left.data_type() == right.data_type()
    &&& left is Int64 || left is UInt64 || left is Float64
    &&& left.len() == right.len()
}

/// What an operation makes of two columns of numbers, row by row, or the text of its error.
pub open spec fn arithmetic_result(
    operation: Arithmetic,
    left: ColumnView,
    right: ColumnView,
) -> Result<ColumnView, Seq<char>> {
    match (left, right) {
        (ColumnView::Int64(a), ColumnView::Int64(b)) => match whole_results(
            operation,
            signed_wholes(a),
            signed_wholes(b),
            i64::MIN as int,
            i64::MAX as int,
            a.len() as int,
        ) {
            Err(message) => Err(message),
            Ok(cells) => Ok(
                ColumnView::Int64(
                    Seq::new(
                        cells.len(),
                        |row: int|
                            match cells[row] {
                                Some(n) => Some(n as i64),
                                None => None,
                            },
                    ),
                ),
            ),
        },
        (ColumnView::UInt64(a), ColumnView::UInt64(b)) => match whole_results(
            operation,
            unsigned_wholes(a),
            unsigned_wholes(b),
            0,
            u64::MAX as int,
            a.len() as int,
        ) {
            Err(message) => Err(message),
            Ok(cells) => Ok(
                ColumnView::UInt64(
                    Seq::new(
                        cells.len(),
                        |row: int|
                            match cells[row] {
                                Some(n) => Some(n as u64),
                                None => None,
                            },
                    ),
                ),
            ),
        },
        (ColumnView::Float64(a), ColumnView::Float64(b)) => Ok(
            ColumnView::Float64(float_results(operation, a, b)),
        ),
        _ => Err(Seq::empty()),
    }
}

proof fn results_are_as_many(
    operation: Arithmetic,
    left: Seq<Option<int>>,
    right: Seq<Option<int>>,
    least: int,
    greatest: int,
    upto: int,
)
    requires
        0 <= upto,
    ensures
        whole_results(operation, left, right, least, greatest, upto) matches Ok(cells)
            ==> cells.len() == upto,
    decreases upto,
{
    if upto > 0 {
        results_are_as_many(operation, left, right, least, greatest, upto - 1);
    }
}

/// A result on columns has their type and as many rows.
pub proof fn results_keep_the_shape(operation: Arithmetic, left: ColumnView, right: ColumnView)
    requires
        computes(left, right),
    ensures
        arithmetic_result(operation, left, right) matches Ok(column) ==> column.data_type()
            == left.data_type() && column.len() == left.len(),
{
    match (left, right) {
        (ColumnView::Int64(a), ColumnView::Int64(b)) => {
            results_are_as_many(
                operation,
                signed_wholes(a),
                signed_wholes(b),
                i64::MIN as int,
                i64::MAX as int,
                a.len() as int,
            );
        },
        (ColumnView::UInt64(a), ColumnView::UInt64(b)) => {
            results_are_as_many(
                operation,
                unsigned_wholes(a),
                unsigned_wholes(b),
                0,
                u64::MAX as int,
                a.len() as int,
            );
        },
        _ => {},
    }
}

/// A column with one double-precision number.
pub open spec fn one_float(bits: u64) -> ColumnView {
    ColumnView::Float64(seq![Some(bits)])
}

/// Whether an array has one double-precision number, but for the bits of what is no number.
pub open spec fn gives_float(r: Result<ArrayData, String>, bits: u64) -> bool {
    match r {
        Ok(array) => array_column(array) matches Some(column) && settled(column) == one_float(bits),
        Err(_) => false,
    }
}

/// Whether an array, or an error, is what an operation gives, but for the bits of what is no number.
pub open spec fn is_arithmetic_result(
    r: Result<ArrayData, String>,
    result: Result<ColumnView, Seq<char>>,
) -> bool {
    match r {
        Ok(array) => {
            &&& array_column(array) matches Some(column)
            &&& result == Ok::<ColumnView, Seq<char>>(settled(column))
        },
        Err(message) => result == Err::<ColumnView, Seq<char>>(message@),
    }
}

/// `NullArray::new`: as many NULLs as asked for.
#[verifier::external_body]
fn null_array(length: usize) -> (r: ArrayData)
    ensures
        array_column(r) == Some(ColumnView::Null(length as nat)),
{
    NullArray::new(length).into_data()
}

/// `BooleanArray::from`: the values of the list, with NULL for `None`.
#[verifier::external_body]
fn boolean_array(cells: &Vec<Option<bool>>) -> (r: ArrayData)
    ensures
        array_column(r) == Some(ColumnView::Boolean(cells@)),
{
    BooleanArray::from(cells.clone()).into_data()
}

/// `Int32Array::from`: the values of the list, with NULL for `None`.
#[verifier::external_body]
fn int32_array(cells: &Vec<Option<i32>>) -> (r: ArrayData)
    ensures
        array_column(r) == Some(ColumnView::Int32(cells@)),
{
    Int32Array::from(cells.clone()).into_data()
}

/// `Int64Array::from`: the values of the list, with NULL for `None`.
#[verifier::external_body]
fn int64_array(cells: &Vec<Option<i64>>) -> (r: ArrayData)
    ensures
        array_column(r) == Some(ColumnView::Int64(cells@)),
{
    Int64Array::from(cells.clone()).into_data()
}

/// `UInt32Array::from`: the values of the list, with NULL for `None`.
#[verifier::external_body]
fn uint32_array(cells: &Vec<Option<u32>>) -> (r: ArrayData)
    ensures
        array_column(r) == Some(ColumnView::UInt32(cells@)),
{
    UInt32Array::from(cells.clone()).into_data()
}

/// `UInt64Array::from`: the values of the list, with NULL for `None`.
#[verifier::external_body]
fn uint64_array(cells: &Vec<Option<u64>>) -> (r: ArrayData)
    ensures
        array_column(r) == Some(ColumnView::UInt64(cells@)),
{
    UInt64Array::from(cells.clone()).into_data()
}

/// `StringArray::from`: the texts of the list, with NULL for `None`.
#[verifier::external_body]
fn utf8_array(cells: &Vec<Option<String>>) -> (r: ArrayData)
    requires
        text_bytes(text_cells(cells@), cells.len() as int) <= MAX_TEXT_BYTES,
    ensures
        array_column(r) == Some(ColumnView::Utf8(text_cells(cells@))),
{
    StringArray::from(cells.clone()).into_data()
}

/// `ArrayDataBuilder::data_type` on unsigned numbers: the same bits, as single-precision numbers.
#[verifier::external_body]
fn float32_array(bits: &Vec<Option<u32>>) -> (r: ArrayData)
    ensures
        array_column(r) == Some(ColumnView::Float32(bits@)),
{
    let builder = UInt32Array::from(bits.clone()).into_data().into_builder();
    builder.data_type(arrow::datatypes::DataType::Float32).build().unwrap()
}

/// `ArrayDataBuilder::data_type` on unsigned numbers: the same bits, as double-precision numbers.
#[verifier::external_body]
fn float64_array(bits: &Vec<Option<u64>>) -> (r: ArrayData)
    ensures
        array_column(r) == Some(ColumnView::Float64(bits@)),
{
    let builder = UInt64Array::from(bits.clone()).into_data().into_builder();
    builder.data_type(arrow::datatypes::DataType::Float64).build().unwrap()
}

/// `ArrayData::len`: how many cells an array has.
#[verifier::external_body]
fn array_length(array: &ArrayData) -> (r: usize)
    ensures
        array_column(*array) matches Some(column) ==> r == column.len(),
{
    array.len()
}

/// `BooleanArray::iter`: the cells of the array, with `None` for NULL.
#[verifier::external_body]
fn boolean_cells(array: &ArrayData) -> (r: Vec<Option<bool>>)
    requires
        array_column(*array) matches Some(ColumnView::Boolean(_)),
    ensures
        array_column(*array) == Some(ColumnView::Boolean(r@)),
{
    BooleanArray::from(array.clone()).iter().collect()
}

/// `Int32Array::iter`: the cells of the array, with `None` for NULL.
#[verifier::external_body]
fn int32_cells(array: &ArrayData) -> (r: Vec<Option<i32>>)
    requires
        array_column(*array) matches Some(ColumnView::Int32(_)),
    ensures
        array_column(*array) == Some(ColumnView::Int32(r@)),
{
    Int32Array::from(array.clone()).iter().collect()
}

/// `Int64Array::iter`: the cells of the array, with `None` for NULL.
#[verifier::external_body]
fn int64_cells(array: &ArrayData) -> (r: Vec<Option<i64>>)
    requires
        array_column(*array) matches Some(ColumnView::Int64(_)),
    ensures
        array_column(*array) == Some(ColumnView::Int64(r@)),
{
    Int64Array::from(array.clone()).iter().collect()
}

/// `UInt32Array::iter`: the cells of the array, with `None` for NULL.
#[verifier::external_body]
fn uint32_cells(array: &ArrayData) -> (r: Vec<Option<u32>>)
    requires
        array_column(*array) matches Some(ColumnView::UInt32(_)),
    ensures
        array_column(*array) == Some(ColumnView::UInt32(r@)),
{
    UInt32Array::from(array.clone()).iter().collect()
}

/// `UInt64Array::iter`: the cells of the array, with `None` for NULL.
#[verifier::external_body]
fn uint64_cells(array: &ArrayData) -> (r: Vec<Option<u64>>)
    requires
        array_column(*array) matches Some(ColumnView::UInt64(_)),
    ensures
        array_column(*array) == Some(ColumnView::UInt64(r@)),
{
    UInt64Array::from(array.clone()).iter().collect()
}

/// `StringArray::iter`: the texts of the array, with `None` for NULL.
#[verifier::external_body]
fn utf8_cells(array: &ArrayData) -> (r: Vec<Option<String>>)
    requires
        array_column(*array) matches Some(ColumnView::Utf8(_)),
    ensures
        array_column(*array) == Some(ColumnView::Utf8(text_cells(r@))),
{
    StringArray::from(array.clone()).iter().map(|cell| cell.map(str::to_owned)).collect()
}

/// `ArrayDataBuilder::data_type` on single-precision numbers: their bits.
#[verifier::external_body]
fn float32_cells(array: &ArrayData) -> (r: Vec<Option<u32>>)
    requires
        array_column(*array) matches Some(ColumnView::Float32(_)),
    ensures
        array_column(*array) == Some(ColumnView::Float32(r@)),
{
    let builder = array.clone().into_builder().data_type(arrow::datatypes::DataType::UInt32);
    UInt32Array::from(builder.build().unwrap()).iter().collect()
}

/// `ArrayDataBuilder::data_type` on double-precision numbers: their bits.
#[verifier::external_body]
fn float64_cells(array: &ArrayData) -> (r: Vec<Option<u64>>)
    requires
        array_column(*array) matches Some(ColumnView::Float64(_)),
    ensures
        array_column(*array) == Some(ColumnView::Float64(r@)),
{
    let builder = array.clone().into_builder().data_type(arrow::datatypes::DataType::UInt64);
    UInt64Array::from(builder.build().unwrap()).iter().collect()
}

/// `arrow::compute::cast`, which turns what cannot be converted into NULL: the array as one of the
/// type with the given name, cell by cell. Which cell a cell becomes is said where it keeps its value,
/// and has a name where it does not; the bits of what is no number are left open.
#[verifier::external_body]
fn cast_array(array: &ArrayData, target: &str) -> (r: Result<ArrayData, String>)
    requires
        array_column(*array) matches Some(column) && column.len() <= MAX_CELLS && (
        DataTypeView::named(target@) is Utf8 ==> column is Utf8 || column is Null || column.len()
            <= MAX_TEXT_CELLS),
        !(DataTypeView::named(target@) is Other),
    ensures
        ({
            let column = array_column(*array)->Some_0;
            let data_type = DataTypeView::named(target@);
            match r {
                Ok(result) => {
                    &&& castable(column.data_type(), data_type)
                    &&& array_column(result) matches Some(cast)
                    &&& cast.data_type() == data_type
                    &&& settled(cast) == cast_to_type(column, data_type)
                    &&& forall|row: int|
                        0 <= row < column.len() && column is Utf8 && data_type is Boolean
                            && !column.null_at(row) ==> (#[trigger] cast.cell(row)) == cast_cell(
                            column.cell(row)->Some_0,
                            data_type,
                        )
                },
                Err(message) => {
                    &&& !castable(column.data_type(), data_type)
                    &&& message@ == cast_refusal(column.data_type(), data_type)
                },
            }
        }),
{
    let data_type = target.parse::<arrow::datatypes::DataType>().map_err(|e| e.to_string())?;
    let cast = arrow::compute::cast(&make_array(array.clone()), &data_type);
    cast.map(|result| result.to_data()).map_err(|error| error.to_string())
}

/// `numeric::add`: the sums of the cells of two arrays of numbers, with NULL where either is, or the
/// error of the first row that has none. For double-precision numbers it has a name; the bits of
/// what is no number are left open.
#[verifier::external_body]
fn add_arrays(left: &ArrayData, right: &ArrayData) -> (r: Result<ArrayData, String>)
    requires
        array_column(*left) is Some,
        array_column(*right) is Some,
        computes(array_column(*left)->Some_0, array_column(*right)->Some_0),
    ensures
        is_arithmetic_result(
            r,
            arithmetic_result(
                Arithmetic::Add,
                array_column(*left)->Some_0,
                array_column(*right)->Some_0,
            ),
        ),
        forall|a: u64, b: u64|
            array_column(*left) == Some(one_float(a)) && array_column(*right) == Some(one_float(b))
                ==> gives_float(r, #[trigger] float_sum(a, b)),
{
    let sums = numeric::add(&make_array(left.clone()), &make_array(right.clone()));
    sums.map(|result| result.to_data()).map_err(|error| error.to_string())
}

/// `numeric::sub`: the differences of the cells of two arrays of numbers, with NULL where either is, or the
/// error of the first row that has none. For double-precision numbers it has a name; the bits of
/// what is no number are left open.
#[verifier::external_body]
fn subtract_arrays(left: &ArrayData, right: &ArrayData) -> (r: Result<ArrayData, String>)
    requires
        array_column(*left) is Some,
        array_column(*right) is Some,
        computes(array_column(*left)->Some_0, array_column(*right)->Some_0),
    ensures
        is_arithmetic_result(
            r,
            arithmetic_result(
                Arithmetic::Subtract,
                array_column(*left)->Some_0,
                array_column(*right)->Some_0,
            ),
        ),
        forall|a: u64, b: u64|
            array_column(*left) == Some(one_float(a)) && array_column(*right) == Some(one_float(b))
                ==> gives_float(r, #[trigger] float_difference(a, b)),
{
    let differences = numeric::sub(&make_array(left.clone()), &make_array(right.clone()));
    differences.map(|result| result.to_data()).map_err(|error| error.to_string())
}

/// `numeric::mul`: the products of the cells of two arrays of numbers, with NULL where either is, or the
/// error of the first row that has none. For double-precision numbers it has a name; the bits of
/// what is no number are left open.
#[verifier::external_body]
fn multiply_arrays(left: &ArrayData, right: &ArrayData) -> (r: Result<ArrayData, String>)
    requires
        array_column(*left) is Some,
        array_column(*right) is Some,
        computes(array_column(*left)->Some_0, array_column(*right)->Some_0),
    ensures
        is_arithmetic_result(
            r,
            arithmetic_result(
                Arithmetic::Multiply,
                array_column(*left)->Some_0,
                array_column(*right)->Some_0,
            ),
        ),
        forall|a: u64, b: u64|
            array_column(*left) == Some(one_float(a)) && array_column(*right) == Some(one_float(b))
                ==> gives_float(r, #[trigger] float_product(a, b)),
{
    let products = numeric::mul(&make_array(left.clone()), &make_array(right.clone()));
    products.map(|result| result.to_data()).map_err(|error| error.to_string())
}

/// `numeric::div`: the quotients of the cells of two arrays of numbers, with NULL where either is, or the
/// error of the first row that has none. For double-precision numbers it has a name; the bits of
/// what is no number are left open.
#[verifier::external_body]
fn divide_arrays(left: &ArrayData, right: &ArrayData) -> (r: Result<ArrayData, String>)
    requires
        array_column(*left) is Some,
        array_column(*right) is Some,
        computes(array_column(*left)->Some_0, array_column(*right)->Some_0),
    ensures
        is_arithmetic_result(
            r,
            arithmetic_result(
                Arithmetic::Divide,
                array_column(*left)->Some_0,
                array_column(*right)->Some_0,
            ),
        ),
        forall|a: u64, b: u64|
            array_column(*left) == Some(one_float(a)) && array_column(*right) == Some(one_float(b))
                ==> gives_float(r, #[trigger] float_quotient(a, b)),
{
    let quotients = numeric::div(&make_array(left.clone()), &make_array(right.clone()));
    quotients.map(|result| result.to_data()).map_err(|error| error.to_string())
}

/// `Display` of a double-precision number, here the one cell of an array with the given bits: the
/// shortest decimal text that reads back as the same number.
#[verifier::external_body]
pub(crate) fn float_text(bits: u64) -> (r: String)
    ensures
        r@ == float_numeral(bits),
{
    let builder = UInt64Array::from(vec![bits]).into_data().into_builder();
    let data = builder.data_type(arrow::datatypes::DataType::Float64).build().unwrap();
    format!("{}", Float64Array::from(data).value(0))
}

/// `Debug` of a double-precision number, here the one cell of an array with the given bits.
#[verifier::external_body]
pub(crate) fn float_debug(bits: u64) -> (r: String)
    ensures
        r@ == float_debug_text(bits),
{
    let builder = UInt64Array::from(vec![bits]).into_data().into_builder();
    let data = builder.data_type(arrow::datatypes::DataType::Float64).build().unwrap();
    format!("{:?}", Float64Array::from(data).value(0))
}

/// `arrow::compute::cast` of a decimal number without fraction to double precision: the nearest
/// number, by its bits.
#[verifier::external_body]
pub(crate) fn whole_to_float(n: i128) -> (r: u64)
    ensures
        r == whole_float(n),
{
    let whole = Decimal128Array::from(vec![n]).with_precision_and_scale(38, 0).unwrap();
    let float = arrow::compute::cast(&whole, &arrow::datatypes::DataType::Float64).unwrap();
    let bits = float.to_data().into_builder().data_type(arrow::datatypes::DataType::UInt64);
    UInt64Array::from(bits.build().unwrap()).value(0)
}

/// What some arrays hold.
pub open spec fn array_columns(arrays: Seq<ArrayData>) -> Seq<Option<ColumnView>> {
    Seq::new(arrays.len(), |i: int| array_column(arrays[i]))
}

/// One row of columns.
pub open spec fn row_of(columns: Seq<ColumnView>, row: int) -> Seq<ColumnView> {
    Seq::new(columns.len(), |i: int| columns[i].taken(seq![row]))
}

/// Whether some columns are one row of the types of others.
pub open spec fn is_row_of_types(row: Seq<ColumnView>, columns: Seq<ColumnView>) -> bool {
    &&& row.len() == columns.len()
    &&& forall|i: int|
        0 <= i < row.len() ==> (#[trigger] row[i]).len() == 1 && row[i].data_type()
            == columns[i].data_type()
}

/// `RowConverter::convert_columns`: for each row of the arrays, which are as long as each other, the
/// bytes of the row format. Those of a row are a function of the types and cells of that row alone,
/// and no other row of the types has them.
#[verifier::external_body]
fn row_keys_of(arrays: &Vec<ArrayData>, rows: usize) -> (r: Vec<Vec<u8>>)
    requires
        arrays.len() > 0,
        forall|i: int|
            0 <= i < arrays.len() ==> (array_column(#[trigger] arrays@[i]) matches Some(column)
                && column.len() == rows),
    ensures
        r.len() == rows,
        forall|columns: Seq<ColumnView>, row: int|
            #![trigger row_of(columns, row)]
            array_columns(arrays@) == some_columns(columns) && 0 <= row < rows ==> r@[row]@
                == row_key(row_of(columns, row)),
        forall|columns: Seq<ColumnView>, row: int, other: Seq<ColumnView>|
            #![trigger row_of(columns, row), row_key(other)]
            array_columns(arrays@) == some_columns(columns) && 0 <= row < rows && is_row_of_types(
                other,
                columns,
            ) && row_key(other) == r@[row]@ ==> other == row_of(columns, row),
{
    let arrays: Vec<_> = arrays.iter().map(|array| make_array(array.clone())).collect();
    let fields = arrays.iter().map(|a| SortField::new(a.data_type().clone())).collect();
    let rows = RowConverter::new(fields).unwrap().convert_columns(&arrays).unwrap();
    rows.iter().map(|row| row.data().to_vec()).collect()
}

/// How two rows of a column stand to each other in a sort. In a column of nothing but NULLs all
/// rows stand alike.
pub open spec fn sort_relation(
    column: ColumnView,
    descending: bool,
    nulls_first: bool,
    a: int,
    b: int,
) -> Relation {
    if column.null_at(a) && column.null_at(b) {
        Relation::Same
    } else if column.null_at(a) {
        if nulls_first {
            Relation::Less
        } else {
            Relation::Greater
        }
    } else if column.null_at(b) {
        if nulls_first {
            Relation::Greater
        } else {
            Relation::Less
        }
    } else {
        match cell_relation(column.taken(seq![a]), column.taken(seq![b]), 0) {
            Relation::Same => Relation::Same,
            Relation::Less => if descending {
                Relation::Greater
            } else {
                Relation::Less
            },
            Relation::Greater => if descending {
                Relation::Less
            } else {
                Relation::Greater
            },
        }
    }
}

/// How two rows stand to each other by several columns: by the first in which they differ.
pub open spec fn rows_relation(
    columns: Seq<ColumnView>,
    descending: Seq<bool>,
    nulls_first: Seq<bool>,
    a: int,
    b: int,
    from: int,
) -> Relation
    decreases columns.len() - from,
{
    if from >= columns.len() {
        Relation::Same
    } else {
        match sort_relation(columns[from], descending[from], nulls_first[from], a, b) {
            Relation::Same => rows_relation(columns, descending, nulls_first, a, b, from + 1),
            relation => relation,
        }
    }
}

/// Whether a list names each of so many rows once, none before one that it comes after.
pub open spec fn is_sort_order(
    order: Seq<int>,
    columns: Seq<ColumnView>,
    descending: Seq<bool>,
    nulls_first: Seq<bool>,
    rows: nat,
) -> bool {
    &&& order.len() == rows
    &&& forall|i: int| 0 <= i < rows ==> 0 <= #[trigger] order[i] < rows
    &&& forall|i: int, j: int|
        0 <= i < j < rows ==> #[trigger] order[i] != #[trigger] order[j] && rows_relation(
            columns,
            descending,
            nulls_first,
            order[i],
            order[j],
            0,
        ) != Relation::Greater
}

/// `lexsort_to_indices` without a limit: for arrays of the engine's types, all of one length, each
/// row once, in an order that goes by the columns one after the other. How rows that stand alike
/// follow each other is left open.
#[verifier::external_body]
fn sorted_rows(
    arrays: &Vec<ArrayData>,
    descending: &Vec<bool>,
    nulls_first: &Vec<bool>,
    rows: usize,
) -> (r: Vec<u32>)
    requires
        arrays.len() > 0,
        arrays.len() == descending.len(),
        arrays.len() == nulls_first.len(),
        forall|i: int|
            0 <= i < arrays.len() ==> (array_column(#[trigger] arrays@[i]) matches Some(column)
                && column.len() == rows),
        rows <= u32::MAX,
    ensures
        forall|columns: Seq<ColumnView>|
            array_columns(arrays@) == #[trigger] some_columns(columns) ==> is_sort_order(
                r@.map_values(|row: u32| row as int),
                columns,
                descending@,
                nulls_first@,
                rows as nat,
            ),
{
    let flags = descending.iter().zip(nulls_first);
    let columns: Vec<SortColumn> = arrays.iter().zip(flags).map(|(array, flags)| SortColumn {
        values: make_array(array.clone()),
        options: Some(SortOptions { descending: *flags.0, nulls_first: *flags.1 }),
    }).collect();
    lexsort_to_indices(&columns, None).unwrap().values().to_vec()
}

/// An order of rows that goes by several columns one after the other, or `None` where a column is
/// too large for the compute library.
pub fn sort_rows(
    columns: &Vec<Column>,
    descending: &Vec<bool>,
    nulls_first: &Vec<bool>,
    rows: usize,
) -> (r: Option<Vec<u32>>)
    requires
        columns.len() > 0,
        columns.len() == descending.len(),
        columns.len() == nulls_first.len(),
        forall|i: int| 0 <= i < columns.len() ==> (#[trigger] columns@[i])@.len() == rows,
    ensures
        match r {
            Some(order) => {
                &&& is_sort_order(
                    order@.map_values(|row: u32| row as int),
                    column_views(columns@),
                    descending@,
                    nulls_first@,
                    rows as nat,
                )
                &&& !unsortable(column_views(columns@), rows as nat)
            },
            None => unsortable(column_views(columns@), rows as nat),
        },
{
    if rows as u64 > u32::MAX as u64 {
        return None;
    }
    let arrays = match to_arrays(columns) {
        Some(arrays) => arrays,
        None => return None,
    };
    let ghost views = column_views(columns@);
    proof {
        assert(array_columns(arrays@) =~= some_columns(views));
        assert(views[0] == columns@[0]@);
        assert(!too_large(views[0]));
    }
    Some(sorted_rows(&arrays, descending, nulls_first, rows))
}

/// Whether rows cannot be sorted by some columns: one of them is too large for the compute library, or
/// there are more rows than it numbers.
pub open spec fn unsortable(columns: Seq<ColumnView>, rows: nat) -> bool {
    any_too_large(columns) || rows > u32::MAX
}

/// Whether one of some columns is too large for the compute library.
pub open spec fn any_too_large(columns: Seq<ColumnView>) -> bool {
    exists|i: int| 0 <= i < columns.len() && too_large(#[trigger] columns[i])
}

fn to_arrays(columns: &Vec<Column>) -> (r: Option<Vec<ArrayData>>)
    ensures
        match r {
            Some(arrays) => {
                &&& arrays.len() == columns.len()
                &&& forall|i: int|
                    0 <= i < arrays.len() ==> array_column(#[trigger] arrays@[i]) == Some(
                        columns@[i]@,
                    )
                &&& !any_too_large(column_views(columns@))
            },
            None => any_too_large(column_views(columns@)),
        },
{
    let ghost views = column_views(columns@);
    let mut arrays: Vec<ArrayData> = Vec::new();
    for i in 0..columns.len()
        invariant
            views == column_views(columns@),
            arrays.len() == i,
            forall|k: int| 0 <= k < i ==> array_column(#[trigger] arrays@[k]) == Some(columns@[k]@),
            forall|k: int| 0 <= k < i ==> !too_large(#[trigger] views[k]),
    {
        proof {
            assert(views[i as int] == columns@[i as int]@);
        }
        match to_array(&columns[i]) {
            Some(array) => arrays.push(array),
            None => return None,
        }
    }
    Some(arrays)
}

/// Columns as what arrays of the engine's types hold.
pub open spec fn some_columns(columns: Seq<ColumnView>) -> Seq<Option<ColumnView>> {
    Seq::new(columns.len(), |i: int| Some(columns[i]))
}

/// Whether no other row of the types of some columns has the bytes of one of their rows.
pub open spec fn keys_tell_apart(keys: Seq<Vec<u8>>, columns: Seq<ColumnView>) -> bool {
    forall|row: int, other: Seq<ColumnView>|
        #![trigger keys[row], row_key(other)]
        0 <= row < keys.len() && is_row_of_types(other, columns) && row_key(other) == keys[row]@
            ==> other == row_of(columns, row)
}

/// For each row, the bytes by which its cells in some columns are told apart and put in order, or
/// `None` where a column is too large for the compute library.
pub fn row_keys(columns: &Vec<Column>, rows: usize) -> (r: Option<Vec<Vec<u8>>>)
    requires
        columns.len() > 0,
        forall|i: int| 0 <= i < columns.len() ==> (#[trigger] columns@[i])@.len() == rows,
    ensures
        match r {
            Some(keys) => {
                &&& keys.len() == rows
                &&& forall|row: int|
                    0 <= row < rows ==> (#[trigger] keys@[row])@ == row_key(
                        row_of(column_views(columns@), row),
                    )
                &&& keys_tell_apart(keys@, column_views(columns@))
                &&& !any_too_large(column_views(columns@))
            },
            None => any_too_large(column_views(columns@)),
        },
{
    let arrays = match to_arrays(columns) {
        Some(arrays) => arrays,
        None => return None,
    };
    let keys = row_keys_of(&arrays, rows);
    proof {
        let views = column_views(columns@);
        assert(array_columns(arrays@) =~= some_columns(views));
        assert forall|row: int| 0 <= row < rows implies (#[trigger] keys@[row])@ == row_key(
            row_of(views, row),
        ) by {
            let one = row_of(views, row);
        }
        assert forall|row: int, other: Seq<ColumnView>|
            #![trigger keys@[row], row_key(other)]
            0 <= row < keys.len() && is_row_of_types(other, views) && row_key(other)
                == keys@[row]@ implies other == row_of(views, row) by {
            let one = row_of(views, row);
        }
    }
    Some(keys)
}

/// How many bytes the texts of a column take, up to one more than a text array can hold.
fn measure_text(cells: &Vec<Option<String>>) -> (r: bool)
    ensures
        r == (text_bytes(text_cells(cells@), cells.len() as int) <= MAX_TEXT_BYTES),
{
    let mut total: usize = 0;
    let ghost views = text_cells(cells@);
    for i in 0..cells.len()
        invariant
            views == text_cells(cells@),
            total == text_bytes(views, i as int),
            total <= MAX_TEXT_BYTES,
    {
        proof {
            text_bytes_grow(views, i + 1, cells.len() as int);
            assert(views[i as int] == crate::column::text_cell(cells@[i as int]));
        }
        if let Some(text) = &cells[i] {
            let more: usize = text.as_str().as_bytes().len();
            if more > MAX_TEXT_BYTES - total {
                return false;
            }
            total = total + more;
        }
    }
    true
}

proof fn text_bytes_grow(cells: Seq<Option<Seq<char>>>, low: int, high: int)
    requires
        low <= high,
    ensures
        text_bytes(cells, low) <= text_bytes(cells, high),
    decreases high - low,
{
    if low < high {
        text_bytes_grow(cells, low, high - 1);
    }
}

/// Whether a column is too large for the arrays of the compute library.
pub open spec fn too_large(column: ColumnView) -> bool {
    ||| column.len() > MAX_CELLS
    ||| column matches ColumnView::Utf8(cells) && text_bytes(cells, cells.len() as int)
        > MAX_TEXT_BYTES
}

/// The array with the cells of a column.
fn to_array(column: &Column) -> (r: Option<ArrayData>)
    ensures
        match r {
            Some(array) => array_column(array) == Some(column@) && !too_large(column@),
            None => too_large(column@),
        },
{
    if column.len() > MAX_CELLS {
        return None;
    }
    Some(
        match column {
            Column::Null(length) => null_array(*length),
            Column::Boolean(cells) => boolean_array(cells),
            Column::Int32(cells) => int32_array(cells),
            Column::Int64(cells) => int64_array(cells),
            Column::UInt32(cells) => uint32_array(cells),
            Column::UInt64(cells) => uint64_array(cells),
            Column::Float32(cells) => float32_array(cells),
            Column::Float64(cells) => float64_array(cells),
            Column::Utf8(cells) => {
                if !measure_text(cells) {
                    return None;
                }
                utf8_array(cells)
            },
        },
    )
}

fn settle_bits(bits: u64) -> (r: u64)
    ensures
        r == settled_bits(bits),
{
    let magnitude: u64 = if bits >= SIGN_BIT {
        bits - SIGN_BIT
    } else {
        bits
    };
    if magnitude > INFINITY_BITS {
        NO_NUMBER
    } else {
        bits
    }
}

fn settle(cells: Vec<Option<u64>>) -> (r: Vec<Option<u64>>)
    ensures
        ColumnView::Float64(r@) == settled(ColumnView::Float64(cells@)),
{
    let mut out: Vec<Option<u64>> = Vec::new();
    for i in 0..cells.len()
        invariant
            out.len() == i,
            forall|k: int| 0 <= k < i ==> #[trigger] out@[k] == settled_cell(cells@[k]),
    {
        out.push(
            match cells[i] {
                Some(bits) => Some(settle_bits(bits)),
                None => None,
            },
        );
    }
    proof {
        assert(out@ =~= Seq::new(cells@.len(), |i: int| settled_cell(cells@[i])));
    }
    out
}

fn settle_singles(cells: Vec<Option<u32>>) -> (r: Vec<Option<u32>>)
    ensures
        ColumnView::Float32(r@) == settled(ColumnView::Float32(cells@)),
{
    let mut out: Vec<Option<u32>> = Vec::new();
    for i in 0..cells.len()
        invariant
            out.len() == i,
            forall|k: int| 0 <= k < i ==> #[trigger] out@[k] == settled_single_cell(cells@[k]),
    {
        out.push(
            match cells[i] {
                Some(bits) => if (0x7F80_0000 < bits && bits < 0x8000_0000) || 0xFF80_0000 < bits {
                    Some(NO_SINGLE_NUMBER)
                } else {
                    Some(bits)
                },
                None => None,
            },
        );
    }
    proof {
        assert(out@ =~= Seq::new(cells@.len(), |i: int| settled_single_cell(cells@[i])));
    }
    out
}

/// The column with the cells of an array of a known type.
fn from_array(array: &ArrayData, data_type: &DataType) -> (r: Column)
    requires
        array_column(*array) matches Some(column) && column.data_type() == data_type@,
    ensures
        r@ == settled(array_column(*array)->Some_0),
        r@.data_type() == data_type@,
        r@.len() == array_column(*array)->Some_0.len(),
{
    match data_type {
        DataType::Null => Column::Null(array_length(array)),
        DataType::Boolean => Column::Boolean(boolean_cells(array)),
        DataType::Int32 => Column::Int32(int32_cells(array)),
        DataType::Int64 => Column::Int64(int64_cells(array)),
        DataType::UInt32 => Column::UInt32(uint32_cells(array)),
        DataType::UInt64 => Column::UInt64(uint64_cells(array)),
        DataType::Float32 => Column::Float32(settle_singles(float32_cells(array))),
        DataType::Float64 => Column::Float64(settle(float64_cells(array))),
        DataType::Utf8 => Column::Utf8(utf8_cells(array)),
        DataType::Other(_) => Column::Null(0),
    }
}

/// A column's computation, as contracts see it.
pub open spec fn column_outcome(r: Result<Column, SparkXError>) -> Result<ColumnView, ErrorView> {
    match r {
        Ok(column) => Ok(column@),
        Err(error) => Err(error@),
    }
}

/// The error of a column that the compute library cannot hold.
pub open spec fn too_large_failure() -> ErrorView {
    ErrorView::ResourceExhausted("column is too large to compute with"@)
}

fn too_large_error() -> (r: SparkXError)
    ensures
        r@ == too_large_failure(),
{
    SparkXError::resource_exhausted("column is too large to compute with".to_owned())
}

/// What comes of casting a column.
pub open spec fn cast_outcome(column: ColumnView, target: DataTypeView) -> Result<
    ColumnView,
    ErrorView,
> {
    if target is Other {
        Err(ErrorView::Unsupported("casting a column to "@ + target.name()))
    } else if too_large(column) {
        Err(too_large_failure())
    } else if !castable(column.data_type(), target) {
        Err(ErrorView::Arrow(cast_refusal(column.data_type(), target)))
    } else {
        Ok(cast_to_type(column, target))
    }
}

/// The numbers of the rows from one to before another.
fn rows_between(start: usize, end: usize) -> (r: Vec<Option<usize>>)
    requires
        start <= end,
    ensures
        r.len() == end - start,
        forall|i: int| 0 <= i < r.len() ==> #[trigger] r@[i] == Some((start + i) as usize),
{
    let mut rows: Vec<Option<usize>> = Vec::new();
    for row in start..end
        invariant
            start <= end,
            rows.len() == row - start,
            forall|i: int| 0 <= i < rows.len() ==> #[trigger] rows@[i] == Some((start + i) as usize),
    {
        rows.push(Some(row));
    }
    rows
}

/// Some rows of a column as texts.
fn cast_rows(column: &Column, target: &DataType, start: usize, end: usize) -> (r: Vec<
    Option<String>,
>)
    requires
        target@ is Utf8,
        !(column@ is Utf8),
        start <= end <= column@.len(),
        end - start <= MAX_TEXT_CELLS,
        !too_large(column@),
    ensures
        cast_to_type(column@, DataTypeView::Utf8) matches ColumnView::Utf8(cells) && text_cells(r@)
            == cells.subrange(start as int, end as int),
{
    let rows = rows_between(start, end);
    let part = column.take(&rows);
    let ghost places = crate::column::row_numbers(rows@);
    let ghost whole = cast_to_type(column@, DataTypeView::Utf8);
    let ghost some = cast_to_type(part@, DataTypeView::Utf8);
    proof {
        named_inverts_name(target@);
        crate::values::casting_keeps_the_shape(column@, DataTypeView::Utf8);
        crate::values::casting_keeps_the_shape(part@, DataTypeView::Utf8);
        assert(part@.len() == end - start);
        assert(!too_large(part@));
        let all = whole->Utf8_0;
        let texts = some->Utf8_0;
        assert forall|i: int| 0 <= i < end - start implies texts[i] == all.subrange(
            start as int,
            end as int,
        )[i] by {
            assert(rows@[i] == Some((start + i) as usize));
            assert(places[i] == start + i);
            assert(part@.cell(i) == column@.cell(start + i));
            crate::values::casting_is_by_cell(part@, DataTypeView::Utf8, i);
            crate::values::casting_is_by_cell(column@, DataTypeView::Utf8, start + i);
            assert(some.cell(i) == whole.cell(start + i));
        }
        assert(texts =~= all.subrange(start as int, end as int));
    }
    let none: Vec<Option<String>> = Vec::new();
    let array = match to_array(&part) {
        Some(array) => array,
        None => return none,
    };
    match cast_array(&array, target.to_text().as_str()) {
        Ok(result) => match from_array(&result, target) {
            Column::Utf8(cells) => cells,
            _ => none,
        },
        Err(_) => none,
    }
}

/// A column as texts, part by part.
fn cast_in_parts(column: &Column, target: &DataType) -> (r: Column)
    requires
        target@ is Utf8,
        !(column@ is Utf8),
        !too_large(column@),
    ensures
        r@ == cast_to_type(column@, DataTypeView::Utf8),
{
    let count: usize = column.len();
    let mut texts: Vec<Option<String>> = Vec::new();
    let mut done: usize = 0;
    let ghost whole = cast_to_type(column@, DataTypeView::Utf8);
    let ghost all = whole->Utf8_0;
    proof {
        crate::values::casting_keeps_the_shape(column@, DataTypeView::Utf8);
        assert(text_cells(texts@) =~= all.take(0));
    }
    while done < count
        invariant
            target@ is Utf8,
            !(column@ is Utf8),
            !too_large(column@),
            count == column@.len(),
            done <= count,
            whole == cast_to_type(column@, DataTypeView::Utf8),
            whole == ColumnView::Utf8(all),
            all.len() == count,
            text_cells(texts@) == all.take(done as int),
        decreases count - done,
    {
        let end: usize = if count - done > MAX_TEXT_CELLS {
            done + MAX_TEXT_CELLS
        } else {
            count
        };
        let mut more = cast_rows(column, target, done, end);
        let ghost before = texts@;
        let ghost added = more@;
        texts.append(&mut more);
        proof {
            assert(text_cells(texts@) =~= text_cells(before) + text_cells(added));
            assert(all.take(done as int) + all.subrange(done as int, end as int) =~= all.take(
                end as int,
            ));
        }
        done = end;
    }
    proof {
        assert(all.take(count as int) =~= all);
    }
    Column::Utf8(texts)
}

/// The column as one of another type. What cannot be converted becomes NULL.
pub fn cast_column(column: &Column, target: &DataType) -> (r: Result<Column, SparkXError>)
    ensures
        column_outcome(r) == cast_outcome(column@, target@),
        r matches Ok(result) ==> result@.data_type() == target@ && result@.len() == column@.len(),
{
    if let DataType::Other(name) = target {
        return Err(SparkXError::unsupported(join("casting a column to ", name.as_str())));
    }
    let array = match to_array(column) {
        Some(array) => array,
        None => return Err(too_large_error()),
    };
    let to_text: bool = match (column, target) {
        (Column::Utf8(_), _) | (Column::Null(_), _) => false,
        (_, DataType::Utf8) => true,
        _ => false,
    };
    if to_text && column.len() > MAX_TEXT_CELLS {
        return Ok(cast_in_parts(column, target));
    }
    proof {
        named_inverts_name(target@);
    }
    match cast_array(&array, target.to_text().as_str()) {
        Ok(result) => Ok(from_array(&result, target)),
        Err(message) => Err(SparkXError::Arrow(message)),
    }
}

/// What comes of computing with two columns.
pub open spec fn arithmetic_outcome(
    operation: Arithmetic,
    left: ColumnView,
    right: ColumnView,
) -> Result<ColumnView, ErrorView> {
    if too_large(left) || too_large(right) {
        Err(too_large_failure())
    } else {
        match arithmetic_result(operation, left, right) {
            Ok(column) => Ok(column),
            Err(message) => Err(ErrorView::Arrow(message)),
        }
    }
}

/// Computes with the cells of two columns, row by row.
pub fn compute(operation: Arithmetic, left: &Column, right: &Column) -> (r: Result<
    Column,
    SparkXError,
>)
    requires
        computes(left@, right@),
    ensures
        column_outcome(r) == arithmetic_outcome(operation, left@, right@),
        r matches Ok(result) ==> result@.data_type() == left@.data_type() && result@.len()
            == left@.len(),
{
    let left_array = match to_array(left) {
        Some(array) => array,
        None => return Err(too_large_error()),
    };
    let right_array = match to_array(right) {
        Some(array) => array,
        None => return Err(too_large_error()),
    };
    let result = match operation {
        Arithmetic::Add => add_arrays(&left_array, &right_array),
        Arithmetic::Subtract => subtract_arrays(&left_array, &right_array),
        Arithmetic::Multiply => multiply_arrays(&left_array, &right_array),
        Arithmetic::Divide => divide_arrays(&left_array, &right_array),
    };
    proof {
        results_keep_the_shape(operation, left@, right@);
    }
    match result {
        Ok(array) => Ok(from_array(&array, &left.data_type())),
        Err(message) => Err(SparkXError::Arrow(message)),
    }
}

fn one_cell(bits: u64) -> (r: Vec<Option<u64>>)
    ensures
        r@ == seq![Some(bits)],
{
    let cells: Vec<Option<u64>> = vec![Some(bits)];
    proof {
        assert(cells@ =~= seq![Some(bits)]);
    }
    cells
}

pub fn add_floats(a: u64, b: u64) -> (r: u64)
    ensures
        r == float_sum(a, b),
{
    match add_arrays(&float64_array(&one_cell(a)), &float64_array(&one_cell(b))) {
        Ok(array) => {
            let cells = settle(float64_cells(&array));
            cells[0].unwrap()
        },
        Err(_) => 0,
    }
}

pub fn divide_floats(a: u64, b: u64) -> (r: u64)
    ensures
        r == float_quotient(a, b),
{
    match divide_arrays(&float64_array(&one_cell(a)), &float64_array(&one_cell(b))) {
        Ok(array) => {
            let cells = settle(float64_cells(&array));
            cells[0].unwrap()
        },
        Err(_) => 0,
    }
}

} // verus!

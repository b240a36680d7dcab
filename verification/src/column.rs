//! Columns of plain values.

use crate::types::{DataType, DataTypeView};
use vstd::prelude::*;

verus! {

/// A column of one of the types that the engine computes with. `None` is NULL, and a
/// floating-point number is held by its bits.
#[derive(Debug, PartialEq, Eq)]
pub enum Column {
    Null(usize),
    Boolean(Vec<Option<bool>>),
    Int32(Vec<Option<i32>>),
    Int64(Vec<Option<i64>>),
    UInt32(Vec<Option<u32>>),
    UInt64(Vec<Option<u64>>),
    Float32(Vec<Option<u32>>),
    Float64(Vec<Option<u64>>),
    Utf8(Vec<Option<String>>),
}

pub enum ColumnView {
    Null(nat),
    Boolean(Seq<Option<bool>>),
    Int32(Seq<Option<i32>>),
    Int64(Seq<Option<i64>>),
    UInt32(Seq<Option<u32>>),
    UInt64(Seq<Option<u64>>),
    Float32(Seq<Option<u32>>),
    Float64(Seq<Option<u64>>),
    Utf8(Seq<Option<Seq<char>>>),
}

pub open spec fn text_cell(cell: Option<String>) -> Option<Seq<char>> {
    match cell {
        Some(text) => Some(text@),
        None => None,
    }
}

pub open spec fn text_cells(cells: Seq<Option<String>>) -> Seq<Option<Seq<char>>> {
    Seq::new(cells.len(), |i: int| text_cell(cells[i]))
}

/// A cell that is not NULL.
pub enum CellView {
    Boolean(bool),
    Int32(i32),
    Int64(i64),
    UInt32(u32),
    UInt64(u64),
    Float32(u32),
    Float64(u64),
    Utf8(Seq<char>),
}

impl View for Column {
    type V = ColumnView;

    open spec fn view(&self) -> ColumnView {
        match self {
            Column::Null(length) => ColumnView::Null(*length as nat),
            Column::Boolean(cells) => ColumnView::Boolean(cells@),
            Column::Int32(cells) => ColumnView::Int32(cells@),
            Column::Int64(cells) => ColumnView::Int64(cells@),
            Column::UInt32(cells) => ColumnView::UInt32(cells@),
            Column::UInt64(cells) => ColumnView::UInt64(cells@),
            Column::Float32(cells) => ColumnView::Float32(cells@),
            Column::Float64(cells) => ColumnView::Float64(cells@),
            Column::Utf8(cells) => ColumnView::Utf8(text_cells(cells@)),
        }
    }
}

impl ColumnView {
    pub open spec fn data_type(self) -> DataTypeView {
        match self {
            ColumnView::Null(_) => DataTypeView::Null,
            ColumnView::Boolean(_) => DataTypeView::Boolean,
            ColumnView::Int32(_) => DataTypeView::Int32,
            ColumnView::Int64(_) => DataTypeView::Int64,
            ColumnView::UInt32(_) => DataTypeView::UInt32,
            ColumnView::UInt64(_) => DataTypeView::UInt64,
            ColumnView::Float32(_) => DataTypeView::Float32,
            ColumnView::Float64(_) => DataTypeView::Float64,
            ColumnView::Utf8(_) => DataTypeView::Utf8,
        }
    }

    pub open spec fn len(self) -> nat {
        match self {
            ColumnView::Null(length) => length,
            ColumnView::Boolean(cells) => cells.len(),
            ColumnView::Int32(cells) => cells.len(),
            ColumnView::Int64(cells) => cells.len(),
            ColumnView::UInt32(cells) => cells.len(),
            ColumnView::UInt64(cells) => cells.len(),
            ColumnView::Float32(cells) => cells.len(),
            ColumnView::Float64(cells) => cells.len(),
            ColumnView::Utf8(cells) => cells.len(),
        }
    }

    /// Whether the cell of a row is NULL.
    pub open spec fn null_at(self, row: int) -> bool {
        match self {
            ColumnView::Null(_) => true,
            ColumnView::Boolean(cells) => cells[row] is None,
            ColumnView::Int32(cells) => cells[row] is None,
            ColumnView::Int64(cells) => cells[row] is None,
            ColumnView::UInt32(cells) => cells[row] is None,
            ColumnView::UInt64(cells) => cells[row] is None,
            ColumnView::Float32(cells) => cells[row] is None,
            ColumnView::Float64(cells) => cells[row] is None,
            ColumnView::Utf8(cells) => cells[row] is None,
        }
    }

    /// The cell of a row, where it is not NULL.
    pub open spec fn cell(self, row: int) -> Option<CellView> {
        if self.null_at(row) {
            None
        } else {
            match self {
                ColumnView::Null(_) => None,
                ColumnView::Boolean(cells) => Some(CellView::Boolean(cells[row]->Some_0)),
                ColumnView::Int32(cells) => Some(CellView::Int32(cells[row]->Some_0)),
                ColumnView::Int64(cells) => Some(CellView::Int64(cells[row]->Some_0)),
                ColumnView::UInt32(cells) => Some(CellView::UInt32(cells[row]->Some_0)),
                ColumnView::UInt64(cells) => Some(CellView::UInt64(cells[row]->Some_0)),
                ColumnView::Float32(cells) => Some(CellView::Float32(cells[row]->Some_0)),
                ColumnView::Float64(cells) => Some(CellView::Float64(cells[row]->Some_0)),
                ColumnView::Utf8(cells) => Some(CellView::Utf8(cells[row]->Some_0)),
            }
        }
    }

    /// The column with the cells of some rows, in the order in which they are named.
    pub open spec fn taken(self, rows: Seq<int>) -> ColumnView {
        match self {
            ColumnView::Null(_) => ColumnView::Null(rows.len()),
            ColumnView::Boolean(cells) => ColumnView::Boolean(taken_cells(cells, rows)),
            ColumnView::Int32(cells) => ColumnView::Int32(taken_cells(cells, rows)),
            ColumnView::Int64(cells) => ColumnView::Int64(taken_cells(cells, rows)),
            ColumnView::UInt32(cells) => ColumnView::UInt32(taken_cells(cells, rows)),
            ColumnView::UInt64(cells) => ColumnView::UInt64(taken_cells(cells, rows)),
            ColumnView::Float32(cells) => ColumnView::Float32(taken_cells(cells, rows)),
            ColumnView::Float64(cells) => ColumnView::Float64(taken_cells(cells, rows)),
            ColumnView::Utf8(cells) => ColumnView::Utf8(taken_cells(cells, rows)),
        }
    }
}

/// The column of a type with some cells. A cell of another type becomes NULL.
pub open spec fn column_with(data_type: DataTypeView, cells: Seq<Option<CellView>>) -> ColumnView {
    match data_type {
        DataTypeView::Boolean => ColumnView::Boolean(
            Seq::new(
                cells.len(),
                |i: int|
                    match cells[i] {
                        Some(CellView::Boolean(b)) => Some(b),
                        _ => None,
                    },
            ),
        ),
        DataTypeView::Int32 => ColumnView::Int32(
            Seq::new(
                cells.len(),
                |i: int|
                    match cells[i] {
                        Some(CellView::Int32(n)) => Some(n),
                        _ => None,
                    },
            ),
        ),
        DataTypeView::Int64 => ColumnView::Int64(
            Seq::new(
                cells.len(),
                |i: int|
                    match cells[i] {
                        Some(CellView::Int64(n)) => Some(n),
                        _ => None,
                    },
            ),
        ),
        DataTypeView::UInt32 => ColumnView::UInt32(
            Seq::new(
                cells.len(),
                |i: int|
                    match cells[i] {
                        Some(CellView::UInt32(n)) => Some(n),
                        _ => None,
                    },
            ),
        ),
        DataTypeView::UInt64 => ColumnView::UInt64(
            Seq::new(
                cells.len(),
                |i: int|
                    match cells[i] {
                        Some(CellView::UInt64(n)) => Some(n),
                        _ => None,
                    },
            ),
        ),
        DataTypeView::Float32 => ColumnView::Float32(
            Seq::new(
                cells.len(),
                |i: int|
                    match cells[i] {
                        Some(CellView::Float32(bits)) => Some(bits),
                        _ => None,
                    },
            ),
        ),
        DataTypeView::Float64 => ColumnView::Float64(
            Seq::new(
                cells.len(),
                |i: int|
                    match cells[i] {
                        Some(CellView::Float64(bits)) => Some(bits),
                        _ => None,
                    },
            ),
        ),
        DataTypeView::Utf8 => ColumnView::Utf8(
            Seq::new(
                cells.len(),
                |i: int|
                    match cells[i] {
                        Some(CellView::Utf8(s)) => Some(s),
                        _ => None,
                    },
            ),
        ),
        DataTypeView::Null | DataTypeView::Other(_) => ColumnView::Null(cells.len()),
    }
}

impl CellView {
    pub open spec fn data_type(self) -> DataTypeView {
        match self {
            CellView::Boolean(_) => DataTypeView::Boolean,
            CellView::Int32(_) => DataTypeView::Int32,
            CellView::Int64(_) => DataTypeView::Int64,
            CellView::UInt32(_) => DataTypeView::UInt32,
            CellView::UInt64(_) => DataTypeView::UInt64,
            CellView::Float32(_) => DataTypeView::Float32,
            CellView::Float64(_) => DataTypeView::Float64,
            CellView::Utf8(_) => DataTypeView::Utf8,
        }
    }
}

/// Columns of one type with the same cells are one column.
pub proof fn cells_make_a_column(a: ColumnView, b: ColumnView)
    requires
        a.data_type() == b.data_type(),
        a.len() == b.len(),
        forall|row: int| 0 <= row < a.len() ==> #[trigger] a.cell(row) == b.cell(row),
    ensures
        a == b,
{
    assert forall|row: int| 0 <= row < a.len() implies a.cell(row) == b.cell(row) && a.null_at(row)
        == b.null_at(row) by {
        assert(a.cell(row) == b.cell(row));
    }
    match (a, b) {
        (ColumnView::Boolean(x), ColumnView::Boolean(y)) => {
            assert forall|i: int| 0 <= i < x.len() implies x[i] == y[i] by {
                assert(a.cell(i) == b.cell(i));
            }
            assert(x =~= y);
        },
        (ColumnView::Int32(x), ColumnView::Int32(y)) => {
            assert forall|i: int| 0 <= i < x.len() implies x[i] == y[i] by {
                assert(a.cell(i) == b.cell(i));
            }
            assert(x =~= y);
        },
        (ColumnView::Int64(x), ColumnView::Int64(y)) => {
            assert forall|i: int| 0 <= i < x.len() implies x[i] == y[i] by {
                assert(a.cell(i) == b.cell(i));
            }
            assert(x =~= y);
        },
        (ColumnView::UInt32(x), ColumnView::UInt32(y)) => {
            assert forall|i: int| 0 <= i < x.len() implies x[i] == y[i] by {
                assert(a.cell(i) == b.cell(i));
            }
            assert(x =~= y);
        },
        (ColumnView::UInt64(x), ColumnView::UInt64(y)) => {
            assert forall|i: int| 0 <= i < x.len() implies x[i] == y[i] by {
                assert(a.cell(i) == b.cell(i));
            }
            assert(x =~= y);
        },
        (ColumnView::Float32(x), ColumnView::Float32(y)) => {
            assert forall|i: int| 0 <= i < x.len() implies x[i] == y[i] by {
                assert(a.cell(i) == b.cell(i));
            }
            assert(x =~= y);
        },
        (ColumnView::Float64(x), ColumnView::Float64(y)) => {
            assert forall|i: int| 0 <= i < x.len() implies x[i] == y[i] by {
                assert(a.cell(i) == b.cell(i));
            }
            assert(x =~= y);
        },
        (ColumnView::Utf8(x), ColumnView::Utf8(y)) => {
            assert forall|i: int| 0 <= i < x.len() implies x[i] == y[i] by {
                assert(a.cell(i) == b.cell(i));
            }
            assert(x =~= y);
        },
        _ => {},
    }
}

/// The cells of a column made of cells of its type are those cells.
pub proof fn made_cells_are_kept(data_type: DataTypeView, cells: Seq<Option<CellView>>, row: int)
    requires
        0 <= row < cells.len(),
        cells[row] matches Some(cell) ==> cell.data_type() == data_type,
    ensures
        column_with(data_type, cells).cell(row) == cells[row],
{
}

/// The cells of some rows; no row (a negative one) gives NULL.
pub open spec fn taken_cells<T>(cells: Seq<Option<T>>, rows: Seq<int>) -> Seq<Option<T>> {
    Seq::new(
        rows.len(),
        |i: int|
            if rows[i] < 0 {
                None
            } else {
                cells[rows[i]]
            },
    )
}

/// Rows as whole numbers, with -1 for none.
pub open spec fn row_numbers(rows: Seq<Option<usize>>) -> Seq<int> {
    Seq::new(
        rows.len(),
        |i: int|
            match rows[i] {
                Some(row) => row as int,
                None => -1,
            },
    )
}

fn clone_text_cells(cells: &Vec<Option<String>>) -> (r: Vec<Option<String>>)
    ensures
        text_cells(r@) == text_cells(cells@),
{
    let mut r: Vec<Option<String>> = Vec::new();
    for i in 0..cells.len()
        invariant
            r.len() == i,
            forall|k: int| 0 <= k < i ==> text_cell(#[trigger] r@[k]) == text_cell(cells@[k]),
    {
        let cell = match &cells[i] {
            Some(text) => Some(text.clone()),
            None => None,
        };
        r.push(cell);
    }
    proof {
        assert(text_cells(r@) =~= text_cells(cells@));
    }
    r
}

fn clone_cells<T: Copy>(cells: &Vec<Option<T>>) -> (r: Vec<Option<T>>)
    ensures
        r@ == cells@,
{
    let mut r: Vec<Option<T>> = Vec::new();
    for i in 0..cells.len()
        invariant
            r.len() == i,
            forall|k: int| 0 <= k < i ==> #[trigger] r@[k] == cells@[k],
    {
        r.push(cells[i]);
    }
    proof {
        assert(r@ =~= cells@);
    }
    r
}

fn take_cells<T: Copy>(cells: &Vec<Option<T>>, rows: &Vec<Option<usize>>) -> (r: Vec<Option<T>>)
    requires
        forall|i: int| 0 <= i < rows.len() ==> (#[trigger] rows@[i] matches Some(row) ==> row
            < cells.len()),
    ensures
        r@ == taken_cells(cells@, row_numbers(rows@)),
{
    let mut r: Vec<Option<T>> = Vec::new();
    for i in 0..rows.len()
        invariant
            r.len() == i,
            forall|i: int| 0 <= i < rows.len() ==> (#[trigger] rows@[i] matches Some(row) ==> row
                < cells.len()),
            forall|k: int|
                0 <= k < i ==> #[trigger] r@[k] == taken_cells(cells@, row_numbers(rows@))[k],
    {
        match rows[i] {
            Some(row) => r.push(cells[row]),
            None => r.push(None),
        }
    }
    proof {
        assert(r@ =~= taken_cells(cells@, row_numbers(rows@)));
    }
    r
}

fn take_text_cells(cells: &Vec<Option<String>>, rows: &Vec<Option<usize>>) -> (r: Vec<
    Option<String>,
>)
    requires
        forall|i: int| 0 <= i < rows.len() ==> (#[trigger] rows@[i] matches Some(row) ==> row
            < cells.len()),
    ensures
        text_cells(r@) == taken_cells(text_cells(cells@), row_numbers(rows@)),
{
    let mut r: Vec<Option<String>> = Vec::new();
    for i in 0..rows.len()
        invariant
            r.len() == i,
            forall|i: int| 0 <= i < rows.len() ==> (#[trigger] rows@[i] matches Some(row) ==> row
                < cells.len()),
            forall|k: int|
                0 <= k < i ==> text_cell(#[trigger] r@[k]) == taken_cells(
                    text_cells(cells@),
                    row_numbers(rows@),
                )[k],
    {
        match rows[i] {
            Some(row) => {
                let cell = match &cells[row] {
                    Some(text) => Some(text.clone()),
                    None => None,
                };
                r.push(cell);
            },
            None => r.push(None),
        }
    }
    proof {
        assert(text_cells(r@) =~= taken_cells(text_cells(cells@), row_numbers(rows@)));
    }
    r
}

impl Clone for Column {
    fn clone(&self) -> (r: Self)
        ensures
            r@ == self@,
    {
        match self {
            Column::Null(length) => Column::Null(*length),
            Column::Boolean(cells) => Column::Boolean(clone_cells(cells)),
            Column::Int32(cells) => Column::Int32(clone_cells(cells)),
            Column::Int64(cells) => Column::Int64(clone_cells(cells)),
            Column::UInt32(cells) => Column::UInt32(clone_cells(cells)),
            Column::UInt64(cells) => Column::UInt64(clone_cells(cells)),
            Column::Float32(cells) => Column::Float32(clone_cells(cells)),
            Column::Float64(cells) => Column::Float64(clone_cells(cells)),
            Column::Utf8(cells) => Column::Utf8(clone_text_cells(cells)),
        }
    }
}

impl Column {
    pub fn data_type(&self) -> (r: DataType)
        ensures
            r@ == self@.data_type(),
    {
        match self {
            Column::Null(_) => DataType::Null,
            Column::Boolean(_) => DataType::Boolean,
            Column::Int32(_) => DataType::Int32,
            Column::Int64(_) => DataType::Int64,
            Column::UInt32(_) => DataType::UInt32,
            Column::UInt64(_) => DataType::UInt64,
            Column::Float32(_) => DataType::Float32,
            Column::Float64(_) => DataType::Float64,
            Column::Utf8(_) => DataType::Utf8,
        }
    }

    pub fn len(&self) -> (r: usize)
        ensures
            r == self@.len(),
    {
        match self {
            Column::Null(length) => *length,
            Column::Boolean(cells) => cells.len(),
            Column::Int32(cells) => cells.len(),
            Column::Int64(cells) => cells.len(),
            Column::UInt32(cells) => cells.len(),
            Column::UInt64(cells) => cells.len(),
            Column::Float32(cells) => cells.len(),
            Column::Float64(cells) => cells.len(),
            Column::Utf8(cells) => cells.len(),
        }
    }

    pub fn is_null(&self, row: usize) -> (r: bool)
        requires
            row < self@.len(),
        ensures
            r == self@.null_at(row as int),
    {
        match self {
            Column::Null(_) => true,
            Column::Boolean(cells) => cells[row].is_none(),
            Column::Int32(cells) => cells[row].is_none(),
            Column::Int64(cells) => cells[row].is_none(),
            Column::UInt32(cells) => cells[row].is_none(),
            Column::UInt64(cells) => cells[row].is_none(),
            Column::Float32(cells) => cells[row].is_none(),
            Column::Float64(cells) => cells[row].is_none(),
            Column::Utf8(cells) => cells[row].is_none(),
        }
    }

    /// The column with the cells of some rows, in the order in which they are named; `None` gives
    /// NULL.
    pub fn take(&self, rows: &Vec<Option<usize>>) -> (r: Column)
        requires
            forall|i: int| 0 <= i < rows.len() ==> (#[trigger] rows@[i] matches Some(row) ==> row
                < self@.len()),
        ensures
            r@ == self@.taken(row_numbers(rows@)),
    {
        match self {
            Column::Null(_) => Column::Null(rows.len()),
            Column::Boolean(cells) => Column::Boolean(take_cells(cells, rows)),
            Column::Int32(cells) => Column::Int32(take_cells(cells, rows)),
            Column::Int64(cells) => Column::Int64(take_cells(cells, rows)),
            Column::UInt32(cells) => Column::UInt32(take_cells(cells, rows)),
            Column::UInt64(cells) => Column::UInt64(take_cells(cells, rows)),
            Column::Float32(cells) => Column::Float32(take_cells(cells, rows)),
            Column::Float64(cells) => Column::Float64(take_cells(cells, rows)),
            Column::Utf8(cells) => Column::Utf8(take_text_cells(cells, rows)),
        }
    }
}

pub open spec fn column_views(columns: Seq<Column>) -> Seq<ColumnView> {
    Seq::new(columns.len(), |i: int| columns[i]@)
}

} // verus!

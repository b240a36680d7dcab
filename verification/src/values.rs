//! What holds of the values of expressions.

use crate::batch::BatchView;
use crate::cells::{cell_value, only_float};
use crate::column::{cells_make_a_column, column_with, CellView, ColumnView};
use crate::error::ErrorView;
use crate::evaluate::{
    applied, at_type, cell_relation, literal_column, null_test, operand_type, operated, repeated,
};
use crate::expr::{binary_type, resolve, resolve_is_within, ExprView, Operator};
use crate::floats::{is_single_nan, narrowing_undoes_widening, numbers_stay_numbers, NO_SINGLE_NUMBER};
use crate::kernels::{
    arithmetic_result, cast_cells, cast_outcome, cast_to_type, cast_value, computes,
    results_keep_the_shape, settled, settled_cell, settled_single_cell, signed_wholes, too_large,
    unsigned_wholes, whole_results, whole_result, Arithmetic, MAX_CELLS,
};
use crate::scalar::ScalarView;
use crate::simplify::{deciding_changes_no_value, one_row, typed};
use crate::types::{DataTypeView, SchemaView};
use vstd::prelude::*;

verus! {

/// A cell with one bit pattern for what is no number.
pub open spec fn settled_value(cell: Option<CellView>) -> Option<CellView> {
    match cell {
        Some(CellView::Float32(bits)) => Some(
            CellView::Float32(settled_single_cell(Some(bits))->Some_0),
        ),
        Some(CellView::Float64(bits)) => Some(CellView::Float64(settled_cell(Some(bits))->Some_0)),
        _ => cell,
    }
}

proof fn settling_is_by_cell(column: ColumnView, row: int)
    requires
        0 <= row < column.len(),
    ensures
        settled(column).cell(row) == settled_value(column.cell(row)),
        settled(column).data_type() == column.data_type(),
        settled(column).len() == column.len(),
{
}

/// A cell of a type, or NULL.
pub open spec fn of_type(cell: Option<CellView>, data_type: DataTypeView) -> Option<CellView> {
    match cell {
        Some(value) => if value.data_type() == data_type {
            cell
        } else {
            None
        },
        None => None,
    }
}

proof fn making_is_by_cell(data_type: DataTypeView, cells: Seq<Option<CellView>>, row: int)
    requires
        0 <= row < cells.len(),
        !(data_type is Other),
    ensures
        column_with(data_type, cells).cell(row) == of_type(cells[row], data_type),
        column_with(data_type, cells).data_type() == data_type,
        column_with(data_type, cells).len() == cells.len(),
{
}

/// What a cast makes of a cell.
pub open spec fn cast_of(cell: Option<CellView>, target: DataTypeView) -> Option<CellView> {
    match cell {
        Some(value) => settled_value(of_type(cast_value(value, target), target)),
        None => None,
    }
}

/// A cast goes cell by cell.
pub proof fn casting_is_by_cell(column: ColumnView, target: DataTypeView, row: int)
    requires
        0 <= row < column.len(),
        !(target is Other),
    ensures
        cast_to_type(column, target).cell(row) == cast_of(column.cell(row), target),
        cast_to_type(column, target).data_type() == target,
        cast_to_type(column, target).len() == column.len(),
{
    making_is_by_cell(target, cast_cells(column, target), row);
    settling_is_by_cell(column_with(target, cast_cells(column, target)), row);
}

pub proof fn casting_keeps_the_shape(column: ColumnView, target: DataTypeView)
    requires
        !(target is Other),
    ensures
        cast_to_type(column, target).data_type() == target,
        cast_to_type(column, target).len() == column.len(),
{
}

proof fn at_type_keeps_the_shape(column: ColumnView, target: DataTypeView)
    ensures
        at_type(column, target) matches Ok(r) ==> r.data_type() == target && r.len()
            == column.len(),
        at_type(column, target) matches Ok(r) ==> forall|row: int|
            0 <= row < column.len() ==> (#[trigger] r.cell(row)) == (if column.data_type()
                == target {
                column.cell(row)
            } else {
                cast_of(column.cell(row), target)
            }),
{
    if column.data_type() != target && !(target is Other) {
        casting_keeps_the_shape(column, target);
        assert forall|row: int| 0 <= row < column.len() implies (
        #[trigger] cast_to_type(column, target).cell(row)) == cast_of(
            column.cell(row),
            target,
        ) by {
            casting_is_by_cell(column, target, row);
        }
    }
}

/// The result of an operation has the type that was inferred, and as many rows.
pub proof fn operations_are_typed(op: Operator, left: ColumnView, right: ColumnView)
    requires
        left.len() == right.len(),
    ensures
        operated(op, left, right) matches Ok(r) ==> r.len() == left.len() && (binary_type(
            op,
            left.data_type(),
            right.data_type(),
        ) matches Ok(t) ==> r.data_type() == t),
{
    if !(left is Null && right is Null) {
        if let Some(target) = operand_type(op, left.data_type(), right.data_type()) {
            at_type_keeps_the_shape(left, target);
            at_type_keeps_the_shape(right, target);
            if let (Ok(l), Ok(r)) = (at_type(left, target), at_type(right, target)) {
                if op.is_arithmetic() {
                    results_keep_the_shape(Arithmetic::Add, l, r);
                    results_keep_the_shape(Arithmetic::Subtract, l, r);
                    results_keep_the_shape(Arithmetic::Multiply, l, r);
                    results_keep_the_shape(Arithmetic::Divide, l, r);
                }
            }
        }
    }
}

/// The value of an expression has the type that was inferred, and as many rows as the batch.
pub proof fn values_are_typed(expr: ExprView, batch: BatchView)
    requires
        batch.wf(),
    ensures
        expr.value(batch) matches Ok(column) ==> column.len() == batch.rows && (expr.data_type(
            batch.schema,
        ) matches Ok(t) ==> column.data_type() == t),
    decreases expr,
{
    match expr {
        ExprView::Column(name) => {
            resolve_is_within(batch.schema.names(), name);
        },
        ExprView::Binary { left, op, right } => {
            values_are_typed(*left, batch);
            values_are_typed(*right, batch);
            if let (Ok(l), Ok(r)) = (left.value(batch), right.value(batch)) {
                operations_are_typed(op, l, r);
            }
        },
        ExprView::Cast { expr: inner, data_type } => {
            values_are_typed(*inner, batch);
            if let Ok(column) = inner.value(batch) {
                if !(data_type is Other) {
                    casting_keeps_the_shape(column, data_type);
                }
            }
        },
        ExprView::IsNull { expr: inner, .. } => {
            values_are_typed(*inner, batch);
        },
        ExprView::Alias(inner, _) => {
            values_are_typed(*inner, batch);
        },
        _ => {},
    }
}

// ---- constants

/// Whether every cell of a column is the one of a column of one row.
pub open spec fn uniform(column: ColumnView, one: ColumnView) -> bool {
    &&& column.data_type() == one.data_type()
    &&& one.len() == 1
    &&& forall|row: int| 0 <= row < column.len() ==> #[trigger] column.cell(row) == one.cell(0)
}

proof fn uniform_casts(column: ColumnView, one: ColumnView, target: DataTypeView)
    requires
        uniform(column, one),
    ensures
        match (cast_outcome(column, target), cast_outcome(one, target)) {
            (Ok(a), Ok(b)) => uniform(a, b),
            _ => true,
        },
        match (at_type(column, target), at_type(one, target)) {
            (Ok(a), Ok(b)) => uniform(a, b),
            _ => true,
        },
{
    if !(target is Other) {
        casting_is_by_cell(one, target, 0);
        casting_keeps_the_shape(column, target);
        assert forall|row: int| 0 <= row < column.len() implies #[trigger] cast_to_type(
            column,
            target,
        ).cell(row) == cast_to_type(one, target).cell(0) by {
            casting_is_by_cell(column, target, row);
            assert(column.cell(row) == one.cell(0));
        }
    }
}

proof fn relations_are_by_cell(
    left: ColumnView,
    right: ColumnView,
    row: int,
    l: ColumnView,
    r: ColumnView,
    place: int,
)
    requires
        left.data_type() == right.data_type(),
        l.data_type() == left.data_type(),
        r.data_type() == left.data_type(),
        left.cell(row) == l.cell(place),
        right.cell(row) == r.cell(place),
        !left.null_at(row),
        !right.null_at(row),
    ensures
        !l.null_at(place),
        !r.null_at(place),
        cell_relation(left, right, row) == cell_relation(l, r, place),
{
    assert(left.cell(row) is Some);
    assert(right.cell(row) is Some);
}

proof fn null_cells(column: ColumnView, row: int)
    ensures
        column.null_at(row) == (column.cell(row) is None),
{
}

/// The results on whole numbers are those of each row.
proof fn whole_results_are_by_row(
    operation: Arithmetic,
    left: Seq<Option<int>>,
    right: Seq<Option<int>>,
    least: int,
    greatest: int,
    upto: int,
    row: int,
)
    requires
        0 <= row < upto,
    ensures
        whole_results(operation, left, right, least, greatest, upto) matches Ok(cells)
            ==> cells.len() == upto && match (left[row], right[row]) {
            (Some(a), Some(b)) => whole_result(operation, a, b, least, greatest) matches Ok(n)
                && cells[row] == Some(n),
            _ => cells[row] is None,
        },
    decreases upto,
{
    if row < upto - 1 {
        whole_results_are_by_row(operation, left, right, least, greatest, upto - 1, row);
    } else if upto - 1 > 0 {
        whole_results_are_by_row(operation, left, right, least, greatest, upto - 1, 0);
    }
}

proof fn arithmetic_is_by_row(
    operation: Arithmetic,
    left: ColumnView,
    right: ColumnView,
    row: int,
    l: ColumnView,
    r: ColumnView,
    place: int,
)
    requires
        computes(left, right),
        computes(l, r),
        l.data_type() == left.data_type(),
        0 <= row < left.len(),
        0 <= place < l.len(),
        left.cell(row) == l.cell(place),
        right.cell(row) == r.cell(place),
    ensures
        match (arithmetic_result(operation, left, right), arithmetic_result(operation, l, r)) {
            (Ok(a), Ok(b)) => a.cell(row) == b.cell(place),
            _ => true,
        },
{
    null_cells(left, row);
    null_cells(right, row);
    null_cells(l, place);
    null_cells(r, place);
    match (left, right, l, r) {
        (
            ColumnView::Int64(a),
            ColumnView::Int64(b),
            ColumnView::Int64(c),
            ColumnView::Int64(d),
        ) => {
            let (least, greatest) = (i64::MIN as int, i64::MAX as int);
            whole_results_are_by_row(
                operation,
                signed_wholes(a),
                signed_wholes(b),
                least,
                greatest,
                a.len() as int,
                row,
            );
            whole_results_are_by_row(
                operation,
                signed_wholes(c),
                signed_wholes(d),
                least,
                greatest,
                c.len() as int,
                place,
            );
            assert(a[row] == c[place]);
            assert(b[row] == d[place]);
        },
        (
            ColumnView::UInt64(a),
            ColumnView::UInt64(b),
            ColumnView::UInt64(c),
            ColumnView::UInt64(d),
        ) => {
            whole_results_are_by_row(
                operation,
                unsigned_wholes(a),
                unsigned_wholes(b),
                0,
                u64::MAX as int,
                a.len() as int,
                row,
            );
            whole_results_are_by_row(
                operation,
                unsigned_wholes(c),
                unsigned_wholes(d),
                0,
                u64::MAX as int,
                c.len() as int,
                place,
            );
            assert(a[row] == c[place]);
            assert(b[row] == d[place]);
        },
        (
            ColumnView::Float64(a),
            ColumnView::Float64(b),
            ColumnView::Float64(c),
            ColumnView::Float64(d),
        ) => {
            assert(a[row] == c[place]);
            assert(b[row] == d[place]);
        },
        _ => {},
    }
}

/// An operation on two columns of one type goes row by row.
proof fn applying_is_by_row(
    op: Operator,
    left: ColumnView,
    right: ColumnView,
    row: int,
    l: ColumnView,
    r: ColumnView,
    place: int,
)
    requires
        left.data_type() == right.data_type(),
        l.data_type() == left.data_type(),
        r.data_type() == left.data_type(),
        op.is_arithmetic() ==> computes(left, right) && computes(l, r),
        left.len() == right.len(),
        l.len() == r.len(),
        0 <= row < left.len(),
        0 <= place < l.len(),
        left.cell(row) == l.cell(place),
        right.cell(row) == r.cell(place),
    ensures
        match (applied(op, left, right), applied(op, l, r)) {
            (Ok(a), Ok(b)) => a.cell(row) == b.cell(place) && a.data_type() == b.data_type(),
            _ => true,
        },
{
    null_cells(left, row);
    null_cells(right, row);
    null_cells(l, place);
    null_cells(r, place);
    if op.is_arithmetic() {
        arithmetic_is_by_row(Arithmetic::Add, left, right, row, l, r, place);
        arithmetic_is_by_row(Arithmetic::Subtract, left, right, row, l, r, place);
        arithmetic_is_by_row(Arithmetic::Multiply, left, right, row, l, r, place);
        arithmetic_is_by_row(Arithmetic::Divide, left, right, row, l, r, place);
        results_keep_the_shape(Arithmetic::Add, left, right);
        results_keep_the_shape(Arithmetic::Add, l, r);
        results_keep_the_shape(Arithmetic::Subtract, left, right);
        results_keep_the_shape(Arithmetic::Subtract, l, r);
        results_keep_the_shape(Arithmetic::Multiply, left, right);
        results_keep_the_shape(Arithmetic::Multiply, l, r);
        results_keep_the_shape(Arithmetic::Divide, left, right);
        results_keep_the_shape(Arithmetic::Divide, l, r);
    } else if op.is_comparison() {
        if !left.null_at(row) && !right.null_at(row) {
            relations_are_by_cell(left, right, row, l, r, place);
        }
    } else {
        if let (ColumnView::Boolean(a), ColumnView::Boolean(c)) = (left, l) {
            assert(a[row] == c[place]);
        }
        if let (ColumnView::Boolean(b), ColumnView::Boolean(d)) = (right, r) {
            assert(b[row] == d[place]);
        }
    }
}

/// What an operation gives in a row depends on that row alone.
pub proof fn operating_is_by_row(
    op: Operator,
    left: ColumnView,
    right: ColumnView,
    row: int,
    l: ColumnView,
    r: ColumnView,
    place: int,
)
    requires
        left.data_type() == l.data_type(),
        right.data_type() == r.data_type(),
        left.len() == right.len(),
        l.len() == r.len(),
        0 <= row < left.len(),
        0 <= place < l.len(),
        left.cell(row) == l.cell(place),
        right.cell(row) == r.cell(place),
    ensures
        match (operated(op, left, right), operated(op, l, r)) {
            (Ok(a), Ok(b)) => a.cell(row) == b.cell(place) && a.data_type() == b.data_type(),
            _ => true,
        },
{
    if !(left is Null && right is Null) {
        if let Some(target) = operand_type(op, left.data_type(), right.data_type()) {
            at_type_keeps_the_shape(left, target);
            at_type_keeps_the_shape(right, target);
            at_type_keeps_the_shape(l, target);
            at_type_keeps_the_shape(r, target);
            if let (Ok(a), Ok(b), Ok(c), Ok(d)) = (
                at_type(left, target),
                at_type(right, target),
                at_type(l, target),
                at_type(r, target),
            ) {
                assert(a.cell(row) == c.cell(place));
                assert(b.cell(row) == d.cell(place));
                applying_is_by_row(op, a, b, row, c, d, place);
            }
        }
    }
}

proof fn no_columns_in_either(left: ExprView, right: ExprView)
    requires
        left.columns().union(right.columns()) == Set::<Seq<char>>::empty(),
    ensures
        left.columns() == Set::<Seq<char>>::empty(),
        right.columns() == Set::<Seq<char>>::empty(),
{
    assert forall|name: Seq<char>| !left.columns().contains(name) && !right.columns().contains(
        name,
    ) by {
        assert(!left.columns().union(right.columns()).contains(name));
    }
    assert(left.columns() =~= Set::<Seq<char>>::empty());
    assert(right.columns() =~= Set::<Seq<char>>::empty());
}

/// A constant has one value in every row, which is the one that it has by itself.
pub proof fn constants_are_uniform(expr: ExprView, batch: BatchView)
    requires
        batch.wf(),
        expr.is_constant(),
    ensures
        match (expr.value(batch), expr.value(one_row())) {
            (Ok(a), Ok(b)) => {
                &&& uniform(a, b)
                &&& b matches ColumnView::Float32(cells) ==> cells[0] == settled_single_cell(
                    cells[0],
                )
            },
            _ => true,
        },
    decreases expr,
{
    let one = one_row();
    match expr {
        ExprView::Column(name) => {
            assert(expr.columns().contains(crate::text::short_name(name)));
        },
        ExprView::Literal(value) => {},
        ExprView::Binary { left, op, right } => {
            no_columns_in_either(*left, *right);
            constants_are_uniform(*left, batch);
            constants_are_uniform(*right, batch);
            values_are_typed(*left, batch);
            values_are_typed(*right, batch);
            values_are_typed(*left, one);
            values_are_typed(*right, one);
            if let (Ok(a), Ok(b)) = (expr.value(batch), expr.value(one)) {
                let (l, r) = (left.value(batch)->Ok_0, right.value(batch)->Ok_0);
                let (m, s) = (left.value(one)->Ok_0, right.value(one)->Ok_0);
                operations_are_typed(op, l, r);
                operations_are_typed(op, m, s);
                operations_have_one_type(op, l, r, m, s);
                assert forall|row: int| 0 <= row < a.len() implies #[trigger] a.cell(row)
                    == b.cell(0) by {
                    assert(l.cell(row) == m.cell(0));
                    assert(r.cell(row) == s.cell(0));
                    operating_is_by_row(op, l, r, row, m, s, 0);
                }
            }
        },
        ExprView::Cast { expr: inner, data_type } => {
            constants_are_uniform(*inner, batch);
            values_are_typed(*inner, one);
            if let (Ok(a), Ok(b)) = (inner.value(batch), inner.value(one)) {
                uniform_casts(a, b, data_type);
            }
        },
        ExprView::IsNull { expr: inner, negated } => {
            constants_are_uniform(*inner, batch);
            values_are_typed(*inner, one);
            if let (Ok(a), Ok(b)) = (inner.value(batch), inner.value(one)) {
                assert forall|row: int| 0 <= row < a.len() implies #[trigger] null_test(
                    a,
                    negated,
                ).cell(row) == null_test(b, negated).cell(0) by {
                    assert(a.cell(row) == b.cell(0));
                    null_cells(a, row);
                    null_cells(b, 0);
                }
            }
        },
        ExprView::Alias(inner, _) => {
            constants_are_uniform(*inner, batch);
        },
        _ => {},
    }
}

/// The value of an expression in a row depends on the cells of that row alone.
pub proof fn values_are_by_row(
    expr: ExprView,
    a: BatchView,
    b: BatchView,
    row: int,
    place: int,
)
    requires
        a.wf(),
        b.wf(),
        a.schema == b.schema,
        0 <= row < a.rows,
        0 <= place < b.rows,
        forall|c: int|
            0 <= c < a.columns.len() ==> (#[trigger] a.columns[c]).cell(row) == b.columns[c].cell(
                place,
            ),
    ensures
        match (expr.value(a), expr.value(b)) {
            (Ok(x), Ok(y)) => x.cell(row) == y.cell(place) && x.data_type() == y.data_type(),
            _ => true,
        },
    decreases expr,
{
    match expr {
        ExprView::Column(name) => {
            resolve_is_within(a.schema.names(), name);
            if let Ok(at) = resolve(a.schema.names(), name) {
                assert(a.columns[at].cell(row) == b.columns[at].cell(place));
                assert(b.columns[at].data_type() == b.schema.fields[at].data_type);
            }
        },
        ExprView::Binary { left, op, right } => {
            values_are_by_row(*left, a, b, row, place);
            values_are_by_row(*right, a, b, row, place);
            values_are_typed(*left, a);
            values_are_typed(*right, a);
            values_are_typed(*left, b);
            values_are_typed(*right, b);
            if let (Ok(l), Ok(r), Ok(m), Ok(s)) = (
                left.value(a),
                right.value(a),
                left.value(b),
                right.value(b),
            ) {
                operating_is_by_row(op, l, r, row, m, s, place);
            }
        },
        ExprView::Cast { expr: inner, data_type } => {
            values_are_by_row(*inner, a, b, row, place);
            values_are_typed(*inner, a);
            values_are_typed(*inner, b);
            if let (Ok(x), Ok(y)) = (inner.value(a), inner.value(b)) {
                if !(data_type is Other) {
                    casting_is_by_cell(x, data_type, row);
                    casting_is_by_cell(y, data_type, place);
                }
            }
        },
        ExprView::IsNull { expr: inner, .. } => {
            values_are_by_row(*inner, a, b, row, place);
            values_are_typed(*inner, a);
            values_are_typed(*inner, b);
            if let (Ok(x), Ok(y)) = (inner.value(a), inner.value(b)) {
                null_cells(x, row);
                null_cells(y, place);
            }
        },
        ExprView::Alias(inner, _) => {
            values_are_by_row(*inner, a, b, row, place);
        },
        _ => {},
    }
}

/// The type of a result depends on the types of the operands alone, and is not single precision.
proof fn operations_have_one_type(
    op: Operator,
    left: ColumnView,
    right: ColumnView,
    l: ColumnView,
    r: ColumnView,
)
    requires
        left.data_type() == l.data_type(),
        right.data_type() == r.data_type(),
        left.len() == right.len(),
        l.len() == r.len(),
    ensures
        match (operated(op, left, right), operated(op, l, r)) {
            (Ok(a), Ok(b)) => a.data_type() == b.data_type() && !(b is Float32),
            _ => true,
        },
{
    if !(left is Null && right is Null) {
        if let Some(target) = operand_type(op, left.data_type(), right.data_type()) {
            at_type_keeps_the_shape(left, target);
            at_type_keeps_the_shape(right, target);
            at_type_keeps_the_shape(l, target);
            at_type_keeps_the_shape(r, target);
            if let (Ok(a), Ok(b), Ok(c), Ok(d)) = (
                at_type(left, target),
                at_type(right, target),
                at_type(l, target),
                at_type(r, target),
            ) {
                if op.is_arithmetic() {
                    results_keep_the_shape(Arithmetic::Add, a, b);
                    results_keep_the_shape(Arithmetic::Add, c, d);
                    results_keep_the_shape(Arithmetic::Subtract, a, b);
                    results_keep_the_shape(Arithmetic::Subtract, c, d);
                    results_keep_the_shape(Arithmetic::Multiply, a, b);
                    results_keep_the_shape(Arithmetic::Multiply, c, d);
                    results_keep_the_shape(Arithmetic::Divide, a, b);
                    results_keep_the_shape(Arithmetic::Divide, c, d);
                }
            }
        }
    }
}

/// A literal gives its value back in every row.
proof fn folding_changes_no_value(expr: ExprView, batch: BatchView, value: ScalarView)
    requires
        batch.wf(),
        batch.rows <= MAX_CELLS,
        expr.is_constant(),
        expr.value(batch) is Ok,
        expr.value(one_row()) is Ok,
        cell_value(expr.value(one_row())->Ok_0, 0) == Ok::<ScalarView, ErrorView>(value),
    ensures
        typed(value, expr.value(one_row())->Ok_0.data_type()).value(batch) == expr.value(batch),
{
    reveal_with_fuel(ExprView::value, 3);
    let a = expr.value(batch)->Ok_0;
    let b = expr.value(one_row())->Ok_0;
    let t = b.data_type();
    constants_are_uniform(expr, batch);
    values_are_typed(expr, batch);
    let literal = literal_column(value, batch.rows);
    null_cells(b, 0);
    if let ColumnView::Float32(cells) = b {
        if let Some(bits) = cells[0] {
            let one = ColumnView::Float32(seq![Some(bits)]);
            casting_is_by_cell(one, DataTypeView::Float64, 0);
            let wide = cast_to_type(one, DataTypeView::Float64);
            assert(one.cell(0) == Some(CellView::Float32(bits)));
            assert(!too_large(one));
            if is_single_nan(bits) {
                assert(bits == NO_SINGLE_NUMBER);
            } else {
                narrowing_undoes_widening(bits);
                numbers_stay_numbers(bits);
            }
            assert(wide.cell(0) is Some);
            assert(only_float(wide) is Some);
        }
    }
    if value.data_type() == t {
        assert forall|row: int| 0 <= row < a.len() implies #[trigger] a.cell(row) == literal.cell(
            row,
        ) by {
            assert(a.cell(row) == b.cell(0));
        }
        cells_make_a_column(a, literal);
    } else {
        assert(!(t is Other));
        assert(!too_large(literal));
        let cast = cast_to_type(literal, t);
        casting_keeps_the_shape(literal, t);
        assert forall|row: int| 0 <= row < a.len() implies #[trigger] a.cell(row) == cast.cell(
            row,
        ) by {
            assert(a.cell(row) == b.cell(0));
            casting_is_by_cell(literal, t, row);
        }
        cells_make_a_column(a, cast);
    }
}

/// NULL, cast or not, is NULL in every row.
proof fn null_literals_are_null(expr: ExprView, batch: BatchView)
    requires
        batch.wf(),
        expr.is_null_literal(),
    ensures
        expr.value(batch) matches Ok(column) ==> forall|row: int|
            0 <= row < column.len() ==> (#[trigger] column.cell(row)) is None,
    decreases expr,
{
    reveal_with_fuel(ExprView::value, 3);
    match expr {
        ExprView::Cast { expr: inner, data_type } => {
            null_literals_are_null(*inner, batch);
            casts_of_null(*inner, data_type, batch);
        },
        ExprView::Alias(inner, _) => {
            if let ExprView::Cast { expr: innermost, data_type } = *inner {
                null_literals_are_null(*innermost, batch);
                casts_of_null(*innermost, data_type, batch);
            }
        },
        _ => {},
    }
}

proof fn casts_of_null(inner: ExprView, data_type: DataTypeView, batch: BatchView)
    requires
        inner.value(batch) matches Ok(column) ==> forall|row: int|
            0 <= row < column.len() ==> (#[trigger] column.cell(row)) is None,
    ensures
        inner.value(batch) matches Ok(column) ==> (cast_outcome(column, data_type) matches Ok(cast)
            ==> forall|row: int|
            0 <= row < cast.len() ==> (#[trigger] cast.cell(row)) is None),
{
    if let Ok(column) = inner.value(batch) {
        if let Ok(cast) = cast_outcome(column, data_type) {
            casting_keeps_the_shape(column, data_type);
            assert forall|row: int| 0 <= row < cast.len() implies (
            #[trigger] cast.cell(row)) is None by {
                casting_is_by_cell(column, data_type, row);
                assert(column.cell(row) is None);
            }
        }
    }
}

/// A comparison or a computation with NULL is NULL in every row.
proof fn operations_on_null(op: Operator, left: ColumnView, right: ColumnView)
    requires
        !op.is_logical(),
        left.len() == right.len(),
        (forall|row: int| 0 <= row < left.len() ==> (#[trigger] left.cell(row)) is None) || (
        forall|row: int| 0 <= row < right.len() ==> (#[trigger] right.cell(row)) is None),
    ensures
        operated(op, left, right) matches Ok(r) ==> forall|row: int|
            0 <= row < r.len() ==> (#[trigger] r.cell(row)) is None,
{
    if let Ok(result) = operated(op, left, right) {
        operations_are_typed(op, left, right);
        if !(left is Null && right is Null) {
            if let Some(target) = operand_type(op, left.data_type(), right.data_type()) {
                at_type_keeps_the_shape(left, target);
                at_type_keeps_the_shape(right, target);
                let (l, r) = (at_type(left, target)->Ok_0, at_type(right, target)->Ok_0);
                assert forall|row: int| 0 <= row < result.len() implies (
                #[trigger] result.cell(row)) is None by {
                    assert(left.cell(row) is None || right.cell(row) is None);
                    assert(l.cell(row) is None || r.cell(row) is None);
                    null_cells(l, row);
                    null_cells(r, row);
                    if op.is_arithmetic() {
                        missing_numbers(op, l, r, row);
                    }
                }
            }
        }
    }
}

proof fn missing_numbers(op: Operator, left: ColumnView, right: ColumnView, row: int)
    requires
        op.is_arithmetic(),
        computes(left, right),
        0 <= row < left.len(),
        left.null_at(row) || right.null_at(row),
    ensures
        applied(op, left, right) matches Ok(r) ==> r.cell(row) is None,
{
    let operation = match op {
        Operator::Add => Arithmetic::Add,
        Operator::Subtract => Arithmetic::Subtract,
        Operator::Multiply => Arithmetic::Multiply,
        _ => Arithmetic::Divide,
    };
    results_keep_the_shape(operation, left, right);
    match (left, right) {
        (ColumnView::Int64(a), ColumnView::Int64(b)) => {
            whole_results_are_by_row(
                operation,
                signed_wholes(a),
                signed_wholes(b),
                i64::MIN as int,
                i64::MAX as int,
                a.len() as int,
                row,
            );
        },
        (ColumnView::UInt64(a), ColumnView::UInt64(b)) => {
            whole_results_are_by_row(
                operation,
                unsigned_wholes(a),
                unsigned_wholes(b),
                0,
                u64::MAX as int,
                a.len() as int,
                row,
            );
        },
        _ => {},
    }
}

/// Whether every column of a schema has a type of its own.
pub open spec fn all_typed(schema: SchemaView) -> bool {
    forall|i: int| 0 <= i < schema.fields.len() ==> !((#[trigger] schema.fields[i]).data_type is Null)
}

proof fn operations_have_a_type(op: Operator, left: ColumnView, right: ColumnView)
    requires
        left.len() == right.len(),
    ensures
        operated(op, left, right) matches Ok(r) ==> !(r is Null),
{
    operations_have_one_type(op, left, right, left, right);
    if !(left is Null && right is Null) {
        if let Some(target) = operand_type(op, left.data_type(), right.data_type()) {
            at_type_keeps_the_shape(left, target);
            at_type_keeps_the_shape(right, target);
            if let (Ok(a), Ok(b)) = (at_type(left, target), at_type(right, target)) {
                if op.is_arithmetic() {
                    results_keep_the_shape(Arithmetic::Add, a, b);
                    results_keep_the_shape(Arithmetic::Subtract, a, b);
                    results_keep_the_shape(Arithmetic::Multiply, a, b);
                    results_keep_the_shape(Arithmetic::Divide, a, b);
                }
            }
        }
    }
}

/// Where all columns have a type, only a constant has none.
proof fn only_constants_are_untyped(expr: ExprView, batch: BatchView)
    requires
        batch.wf(),
        all_typed(batch.schema),
        expr.value(batch) matches Ok(column) && column is Null,
    ensures
        expr.is_constant(),
    decreases expr,
{
    match expr {
        ExprView::Column(name) => {
            resolve_is_within(batch.schema.names(), name);
            values_are_typed(expr, batch);
        },
        ExprView::Binary { left, op, right } => {
            values_are_typed(*left, batch);
            values_are_typed(*right, batch);
            operations_have_a_type(op, left.value(batch)->Ok_0, right.value(batch)->Ok_0);
        },
        ExprView::Cast { expr: inner, data_type } => {
            casting_keeps_the_shape(inner.value(batch)->Ok_0, data_type);
            only_constants_are_untyped(*inner, batch);
        },
        ExprView::Alias(inner, _) => {
            only_constants_are_untyped(*inner, batch);
        },
        _ => {},
    }
}

proof fn a_truth_literal_is_constant(expr: ExprView)
    requires
        expr.truth_literal() is Some,
    ensures
        expr.is_constant(),
{
    reveal_with_fuel(ExprView::columns, 3);
    reveal_with_fuel(ExprView::contains_aggregate, 3);
}

proof fn constants_together(left: ExprView, op: Operator, right: ExprView)
    requires
        left.is_constant(),
        right.is_constant(),
    ensures
        (ExprView::Binary { left: Box::new(left), op, right: Box::new(right) }).is_constant(),
{
    assert(left.columns().union(right.columns()) =~= Set::<Seq<char>>::empty());
}

/// Whether the operands of AND or OR have types.
pub open spec fn has_typed_operands(expr: ExprView, batch: BatchView) -> bool {
    expr.is_constant() || match expr {
        ExprView::Binary { left, op, right } => op.is_logical() && (left.truth_literal() is Some
            || right.truth_literal() is Some) ==> !(left.value(batch)->Ok_0 is Null) && !(
        right.value(batch)->Ok_0 is Null),
        _ => true,
    }
}

proof fn typed_columns_make_typed_operands(expr: ExprView, batch: BatchView)
    requires
        batch.wf(),
        all_typed(batch.schema),
        expr.value(batch) is Ok,
    ensures
        has_typed_operands(expr, batch),
{
    if let ExprView::Binary { left, op, right } = expr {
        if left.truth_literal() is Some || right.truth_literal() is Some {
            if left.truth_literal() is Some {
                a_truth_literal_is_constant(*left);
            } else {
                a_truth_literal_is_constant(*right);
            }
            if left.is_constant() && right.is_constant() {
                constants_together(*left, op, *right);
            }
            if left.value(batch)->Ok_0 is Null {
                only_constants_are_untyped(*left, batch);
                truth_literals_have_a_type(*left, batch);
            }
            if right.value(batch)->Ok_0 is Null {
                only_constants_are_untyped(*right, batch);
                truth_literals_have_a_type(*right, batch);
            }
        }
    }
}

proof fn truth_literals_have_a_type(expr: ExprView, batch: BatchView)
    ensures
        expr.truth_literal() matches Some(b) ==> expr.value(batch) == Ok::<ColumnView, ErrorView>(
            ColumnView::Boolean(repeated(Some(b), batch.rows)),
        ),
    decreases expr,
{
    reveal_with_fuel(ExprView::value, 3);
    if let ExprView::Alias(inner, _) = expr {
        truth_literals_have_a_type(*inner, batch);
    }
}

/// One step of making an expression simple changes no value.
proof fn a_step_changes_no_value(expr: ExprView, schema: SchemaView, batch: BatchView)
    requires
        batch.wf(),
        batch.schema == schema,
        batch.rows <= MAX_CELLS,
        has_typed_operands(expr, batch),
        expr.simplified_node(schema) is Ok,
        expr.value(batch) is Ok,
    ensures
        expr.simplified_node(schema)->Ok_0.value(batch) == expr.value(batch),
{
    reveal_with_fuel(ExprView::value, 3);
    let a = expr.value(batch)->Ok_0;
    let output = expr.data_type(schema)->Ok_0;
    values_are_typed(expr, batch);
    if expr.is_constant() {
        let b = expr.value(one_row())->Ok_0;
        folding_changes_no_value(expr, batch, cell_value(b, 0)->Ok_0);
    } else if let ExprView::Binary { left, op, right } = expr {
        let (l, r) = (left.value(batch)->Ok_0, right.value(batch)->Ok_0);
        values_are_typed(*left, batch);
        values_are_typed(*right, batch);
        if !op.is_logical() {
            if left.is_null_literal() || right.is_null_literal() {
                if left.is_null_literal() {
                    null_literals_are_null(*left, batch);
                } else {
                    null_literals_are_null(*right, batch);
                }
                operations_on_null(op, l, r);
                operations_have_a_type(op, l, r);
                let nulls = ColumnView::Null(batch.rows);
                let cast = cast_to_type(nulls, output);
                assert(!(output is Other));
                assert(!too_large(nulls));
                casting_keeps_the_shape(nulls, output);
                assert forall|row: int| 0 <= row < a.len() implies #[trigger] a.cell(row)
                    == cast.cell(row) by {
                    casting_is_by_cell(nulls, output, row);
                    assert(a.cell(row) is None);
                }
                cells_make_a_column(a, cast);
            }
        } else if left.truth_literal() is Some || right.truth_literal() is Some {
            truth_columns(*left, op, *right, batch, schema);
            deciding_changes_no_value(
                op,
                *left,
                *right,
                batch,
                l->Boolean_0,
                r->Boolean_0,
            );
        }
    }
}

proof fn truth_columns(
    left: ExprView,
    op: Operator,
    right: ExprView,
    batch: BatchView,
    schema: SchemaView,
)
    requires
        batch.wf(),
        batch.schema == schema,
        op.is_logical(),
        left.value(batch) is Ok,
        right.value(batch) is Ok,
        left.truth_literal() is Some || !(left.value(batch)->Ok_0 is Null),
        right.truth_literal() is Some || !(right.value(batch)->Ok_0 is Null),
        (ExprView::Binary { left: Box::new(left), op, right: Box::new(right) }).data_type(
            schema,
        ) is Ok,
    ensures
        left.value(batch)->Ok_0 is Boolean,
        right.value(batch)->Ok_0 is Boolean,
{
    reveal_with_fuel(ExprView::value, 3);
    values_are_typed(left, batch);
    values_are_typed(right, batch);
}

/// Where every column of a batch has a type, an expression made simple has the very column of the one
/// that it was made from, over every batch over which that has one.
pub proof fn simplifying_changes_no_value(expr: ExprView, schema: SchemaView, batch: BatchView)
    requires
        batch.wf(),
        batch.schema == schema,
        batch.rows <= MAX_CELLS,
        all_typed(schema),
        expr.simplified(schema) is Ok,
        expr.value(batch) is Ok,
    ensures
        expr.simplified(schema)->Ok_0.value(batch) == expr.value(batch),
    decreases expr,
{
    match expr {
        ExprView::Column(_) | ExprView::Literal(_) => {
            typed_columns_make_typed_operands(expr, batch);
            a_step_changes_no_value(expr, schema, batch);
        },
        ExprView::Binary { left, op, right } => {
            simplifying_changes_no_value(*left, schema, batch);
            simplifying_changes_no_value(*right, schema, batch);
            let next = ExprView::Binary {
                left: Box::new(left.simplified(schema)->Ok_0),
                op,
                right: Box::new(right.simplified(schema)->Ok_0),
            };
            assert(next.value(batch) == expr.value(batch));
            typed_columns_make_typed_operands(next, batch);
            a_step_changes_no_value(next, schema, batch);
        },
        ExprView::IsNull { expr: inner, negated } => {
            simplifying_changes_no_value(*inner, schema, batch);
            let next = ExprView::IsNull {
                expr: Box::new(inner.simplified(schema)->Ok_0),
                negated,
            };
            assert(next.value(batch) == expr.value(batch));
            typed_columns_make_typed_operands(next, batch);
            a_step_changes_no_value(next, schema, batch);
        },
        ExprView::Cast { expr: inner, data_type } => {
            simplifying_changes_no_value(*inner, schema, batch);
            let next = ExprView::Cast {
                expr: Box::new(inner.simplified(schema)->Ok_0),
                data_type,
            };
            assert(next.value(batch) == expr.value(batch));
            typed_columns_make_typed_operands(next, batch);
            a_step_changes_no_value(next, schema, batch);
        },
        ExprView::Alias(inner, alias) => {
            simplifying_changes_no_value(*inner, schema, batch);
            let next = ExprView::Alias(Box::new(inner.simplified(schema)->Ok_0), alias);
            assert(next.value(batch) == expr.value(batch));
        },
        _ => {},
    }
}

// ---- columns without a type

/// Whether a column has the value of another in every row: it is the same, or holds nothing but NULLs
/// without a type where the other holds nothing but NULLs.
pub open spec fn alike(x: ColumnView, y: ColumnView) -> bool {
    x == y || (y is Null && x is Boolean && x.len() == y.len() && forall|row: int|
        0 <= row < x.len() ==> (#[trigger] x.cell(row)) is None)
}

proof fn nulls_at_a_type(column: ColumnView, x: ColumnView)
    requires
        column is Null,
        x is Boolean,
        x.len() == column.len(),
        column.len() <= MAX_CELLS,
        forall|row: int| 0 <= row < x.len() ==> (#[trigger] x.cell(row)) is None,
    ensures
        at_type(column, DataTypeView::Boolean) == Ok::<ColumnView, ErrorView>(x),
{
    assert(!too_large(column));
    let cast = cast_to_type(column, DataTypeView::Boolean);
    casting_keeps_the_shape(column, DataTypeView::Boolean);
    assert forall|row: int| 0 <= row < x.len() implies #[trigger] cast.cell(row) == x.cell(row) by {
        casting_is_by_cell(column, DataTypeView::Boolean, row);
    }
    cells_make_a_column(cast, x);
}

/// Operations give alike results for operands that are alike.
proof fn operating_alike(
    op: Operator,
    a: ColumnView,
    b: ColumnView,
    x: ColumnView,
    y: ColumnView,
)
    requires
        a.len() == b.len(),
        a.len() <= MAX_CELLS,
        alike(a, x),
        alike(b, y),
        operated(op, a, b) is Ok,
    ensures
        operated(op, x, y) == operated(op, a, b),
{
    if a != x {
        nulls_at_a_type(x, a);
    }
    if b != y {
        nulls_at_a_type(y, b);
    }
    if x is Null && y is Null && (a != x || b != y) {
        let all = operated(op, a, b)->Ok_0;
        let none = ColumnView::Boolean(repeated(None, x.len()));
        if a is Null {
            nulls_at_a_type(a, ColumnView::Boolean(repeated(None, a.len())));
        }
        if b is Null {
            nulls_at_a_type(b, ColumnView::Boolean(repeated(None, b.len())));
        }
        assert forall|row: int| 0 <= row < all.len() implies #[trigger] all.cell(row) == none.cell(
            row,
        ) by {
            if a is Boolean {
                assert(a.cell(row) is None);
            }
            if b is Boolean {
                assert(b.cell(row) is None);
            }
        }
        operations_are_typed(op, a, b);
        operations_have_a_type(op, a, b);
        cells_make_a_column(all, none);
    }
}

proof fn casting_alike(x: ColumnView, y: ColumnView, target: DataTypeView)
    requires
        alike(x, y),
        x.len() <= MAX_CELLS,
        cast_outcome(x, target) is Ok,
    ensures
        cast_outcome(y, target) == cast_outcome(x, target),
{
    if x != y {
        assert(!too_large(y));
        casting_keeps_the_shape(x, target);
        casting_keeps_the_shape(y, target);
        let a = cast_to_type(x, target);
        let b = cast_to_type(y, target);
        assert forall|row: int| 0 <= row < a.len() implies #[trigger] a.cell(row) == b.cell(
            row,
        ) by {
            casting_is_by_cell(x, target, row);
            casting_is_by_cell(y, target, row);
            assert(x.cell(row) is None);
        }
        cells_make_a_column(a, b);
    }
}

/// One step of making an expression simple changes the value in no row.
proof fn a_step_is_alike(expr: ExprView, schema: SchemaView, batch: BatchView)
    requires
        batch.wf(),
        batch.schema == schema,
        batch.rows <= MAX_CELLS,
        expr.simplified_node(schema) is Ok,
        expr.value(batch) is Ok,
    ensures
        expr.simplified_node(schema)->Ok_0.value(batch) is Ok,
        alike(expr.value(batch)->Ok_0, expr.simplified_node(schema)->Ok_0.value(batch)->Ok_0),
{
    if has_typed_operands(expr, batch) {
        a_step_changes_no_value(expr, schema, batch);
    } else if let ExprView::Binary { left, op, right } = expr {
        let (l, r) = (left.value(batch)->Ok_0, right.value(batch)->Ok_0);
        let all = expr.value(batch)->Ok_0;
        let neutral = op is And;
        reveal_with_fuel(ExprView::value, 2);
        values_are_typed(*left, batch);
        values_are_typed(*right, batch);
        truth_literals_have_a_type(*left, batch);
        truth_literals_have_a_type(*right, batch);
        let none = ColumnView::Boolean(repeated(None, batch.rows));
        if left.truth_literal() is Some {
            nulls_at_a_type(r, none);
        } else {
            nulls_at_a_type(l, none);
        }
        let fixed = ColumnView::Boolean(repeated(Some(!neutral), batch.rows));
        let decides = left.truth_literal() == Some(!neutral) || right.truth_literal() == Some(
            !neutral,
        );
        if decides {
            assert forall|row: int| 0 <= row < all.len() implies #[trigger] all.cell(row)
                == fixed.cell(row) by {}
            cells_make_a_column(all, fixed);
        } else {
            assert forall|row: int| 0 <= row < all.len() implies (
            #[trigger] all.cell(row)) is None by {}
        }
    }
}

/// An expression made simple has the value of the one that it was made from in every row, over every
/// batch over which that has one, whatever the types of its columns. Where every column has a type,
/// `simplifying_changes_no_value` says that the columns are the same.
pub proof fn simplifying_changes_no_row(expr: ExprView, schema: SchemaView, batch: BatchView)
    requires
        batch.wf(),
        batch.schema == schema,
        batch.rows <= MAX_CELLS,
        expr.simplified(schema) is Ok,
        expr.value(batch) is Ok,
    ensures
        expr.simplified(schema)->Ok_0.value(batch) is Ok,
        ({
            let simple = expr.simplified(schema)->Ok_0.value(batch)->Ok_0;
            let value = expr.value(batch)->Ok_0;
            &&& simple.len() == value.len()
            &&& forall|row: int|
                0 <= row < value.len() ==> #[trigger] simple.cell(row) == value.cell(row)
            &&& alike(value, simple)
        }),
    decreases expr,
{
    values_are_typed(expr, batch);
    match expr {
        ExprView::Column(_) | ExprView::Literal(_) => {
            a_step_is_alike(expr, schema, batch);
        },
        ExprView::Binary { left, op, right } => {
            simplifying_changes_no_row(*left, schema, batch);
            simplifying_changes_no_row(*right, schema, batch);
            values_are_typed(*left, batch);
            values_are_typed(*right, batch);
            let next = ExprView::Binary {
                left: Box::new(left.simplified(schema)->Ok_0),
                op,
                right: Box::new(right.simplified(schema)->Ok_0),
            };
            operating_alike(
                op,
                left.value(batch)->Ok_0,
                right.value(batch)->Ok_0,
                left.simplified(schema)->Ok_0.value(batch)->Ok_0,
                right.simplified(schema)->Ok_0.value(batch)->Ok_0,
            );
            assert(next.value(batch) == expr.value(batch));
            a_step_is_alike(next, schema, batch);
        },
        ExprView::IsNull { expr: inner, negated } => {
            simplifying_changes_no_row(*inner, schema, batch);
            values_are_typed(*inner, batch);
            let next = ExprView::IsNull {
                expr: Box::new(inner.simplified(schema)->Ok_0),
                negated,
            };
            let x = inner.value(batch)->Ok_0;
            let y = inner.simplified(schema)->Ok_0.value(batch)->Ok_0;
            if x != y {
                assert forall|row: int| 0 <= row < x.len() implies x.null_at(row)
                    == y.null_at(row) by {
                    assert(x.cell(row) is None);
                    null_cells(x, row);
                }
                assert(null_test(x, negated)->Boolean_0 =~= null_test(y, negated)->Boolean_0);
            }
            assert(next.value(batch) == expr.value(batch));
            a_step_is_alike(next, schema, batch);
        },
        ExprView::Cast { expr: inner, data_type } => {
            simplifying_changes_no_row(*inner, schema, batch);
            values_are_typed(*inner, batch);
            let next = ExprView::Cast {
                expr: Box::new(inner.simplified(schema)->Ok_0),
                data_type,
            };
            casting_alike(
                inner.value(batch)->Ok_0,
                inner.simplified(schema)->Ok_0.value(batch)->Ok_0,
                data_type,
            );
            assert(next.value(batch) == expr.value(batch));
            a_step_is_alike(next, schema, batch);
        },
        ExprView::Alias(inner, alias) => {
            simplifying_changes_no_row(*inner, schema, batch);
            let next = ExprView::Alias(Box::new(inner.simplified(schema)->Ok_0), alias);
            assert(next.value(batch) == inner.simplified(schema)->Ok_0.value(batch));
        },
        _ => {},
    }
    let simple = expr.simplified(schema)->Ok_0.value(batch)->Ok_0;
    let value = expr.value(batch)->Ok_0;
    assert forall|row: int| 0 <= row < value.len() implies #[trigger] simple.cell(row)
        == value.cell(row) by {
        if simple != value {
            assert(value.cell(row) is None);
        }
    }
}

} // verus!

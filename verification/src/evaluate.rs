//! Evaluating expressions over batches.

use crate::batch::{Batch, BatchView};
use crate::column::{text_cells, Column, ColumnView};
use crate::error::{ErrorView, SparkXError};
use crate::expr::{binary_type, find_column, resolve, Expr, ExprView, Operator};
use crate::kernels::{
    arithmetic_outcome, cast_column, cast_outcome, column_outcome, compute, computes, Arithmetic,
};
use crate::scalar::{relation_of, ScalarValue, ScalarView};
use crate::text::{before, join, relate, Relation};
use crate::types::{common_numeric, common_numeric_type, DataType, DataTypeView};
use vstd::prelude::*;

verus! {

// ---- comparing cells

/// A whole number that orders double-precision numbers totally: by sign and magnitude, with the
/// negative zero before the positive one and what is no number outermost.
pub open spec fn total_rank(bits: u64) -> int {
    if bits >= 0x8000_0000_0000_0000 {
        -(bits - 0x8000_0000_0000_0000) - 1
    } else {
        bits as int
    }
}

/// The same for single-precision numbers.
pub open spec fn total_rank32(bits: u32) -> int {
    if bits >= 0x8000_0000 {
        -(bits - 0x8000_0000) - 1
    } else {
        bits as int
    }
}

fn total_place(bits: u64) -> (r: i128)
    ensures
        r == total_rank(bits),
{
    if bits >= 0x8000_0000_0000_0000 {
        -((bits - 0x8000_0000_0000_0000) as i128) - 1
    } else {
        bits as i128
    }
}

fn total_place32(bits: u32) -> (r: i64)
    ensures
        r == total_rank32(bits),
{
    if bits >= 0x8000_0000 {
        -((bits - 0x8000_0000) as i64) - 1
    } else {
        bits as i64
    }
}

/// How the cells of a row of two columns of one type stand to each other, where neither is NULL.
pub open spec fn cell_relation(left: ColumnView, right: ColumnView, row: int) -> Relation {
    match (left, right) {
        (ColumnView::Boolean(l), ColumnView::Boolean(r)) => relation_of(
            !l[row]->Some_0 && r[row]->Some_0,
            l[row] == r[row],
        ),
        (ColumnView::Int32(l), ColumnView::Int32(r)) => relation_of(
            l[row]->Some_0 < r[row]->Some_0,
            l[row] == r[row],
        ),
        (ColumnView::Int64(l), ColumnView::Int64(r)) => relation_of(
            l[row]->Some_0 < r[row]->Some_0,
            l[row] == r[row],
        ),
        (ColumnView::UInt32(l), ColumnView::UInt32(r)) => relation_of(
            l[row]->Some_0 < r[row]->Some_0,
            l[row] == r[row],
        ),
        (ColumnView::UInt64(l), ColumnView::UInt64(r)) => relation_of(
            l[row]->Some_0 < r[row]->Some_0,
            l[row] == r[row],
        ),
        (ColumnView::Float32(l), ColumnView::Float32(r)) => relation_of(
            total_rank32(l[row]->Some_0) < total_rank32(r[row]->Some_0),
            l[row] == r[row],
        ),
        (ColumnView::Float64(l), ColumnView::Float64(r)) => relation_of(
            total_rank(l[row]->Some_0) < total_rank(r[row]->Some_0),
            l[row] == r[row],
        ),
        (ColumnView::Utf8(l), ColumnView::Utf8(r)) => relation_of(
            before(l[row]->Some_0, r[row]->Some_0),
            l[row] == r[row],
        ),
        _ => Relation::Same,
    }
}

/// Whether a comparison holds of operands that stand to each other in some way.
pub open spec fn comparison_holds(op: Operator, relation: Relation) -> bool {
    match op {
        Operator::Eq => relation is Same,
        Operator::NotEq => !(relation is Same),
        Operator::Lt => relation is Less,
        Operator::LtEq => !(relation is Greater),
        Operator::Gt => relation is Greater,
        Operator::GtEq => !(relation is Less),
        _ => false,
    }
}

/// The result of comparing two columns of one type: NULL where a side is.
pub open spec fn compared(op: Operator, left: ColumnView, right: ColumnView) -> ColumnView {
    ColumnView::Boolean(
        Seq::new(
            left.len(),
            |row: int|
                if left.null_at(row) || right.null_at(row) {
                    None
                } else {
                    Some(comparison_holds(op, cell_relation(left, right, row)))
                },
        ),
    )
}

fn relation(less: bool, same: bool) -> (r: Relation)
    ensures
        r == relation_of(less, same),
{
    if less {
        Relation::Less
    } else if same {
        Relation::Same
    } else {
        Relation::Greater
    }
}

fn relate_cells(left: &Column, right: &Column, row: usize) -> (r: Relation)
    requires
        left@.data_type() == right@.data_type(),
        row < left@.len(),
        row < right@.len(),
        !left@.null_at(row as int),
        !right@.null_at(row as int),
    ensures
        r == cell_relation(left@, right@, row as int),
{
    match (left, right) {
        (Column::Boolean(l), Column::Boolean(r)) => {
            let (a, b): (bool, bool) = (l[row].unwrap(), r[row].unwrap());
            relation(!a && b, a == b)
        },
        (Column::Int32(l), Column::Int32(r)) => {
            let (a, b): (i32, i32) = (l[row].unwrap(), r[row].unwrap());
            relation(a < b, a == b)
        },
        (Column::Int64(l), Column::Int64(r)) => {
            let (a, b): (i64, i64) = (l[row].unwrap(), r[row].unwrap());
            relation(a < b, a == b)
        },
        (Column::UInt32(l), Column::UInt32(r)) => {
            let (a, b): (u32, u32) = (l[row].unwrap(), r[row].unwrap());
            relation(a < b, a == b)
        },
        (Column::UInt64(l), Column::UInt64(r)) => {
            let (a, b): (u64, u64) = (l[row].unwrap(), r[row].unwrap());
            relation(a < b, a == b)
        },
        (Column::Float32(l), Column::Float32(r)) => {
            let (a, b): (u32, u32) = (l[row].unwrap(), r[row].unwrap());
            relation(total_place32(a) < total_place32(b), a == b)
        },
        (Column::Float64(l), Column::Float64(r)) => {
            let (a, b): (u64, u64) = (l[row].unwrap(), r[row].unwrap());
            relation(total_place(a) < total_place(b), a == b)
        },
        (Column::Utf8(l), Column::Utf8(r)) => {
            match (&l[row], &r[row]) {
                (Some(a), Some(b)) => {
                    proof {
                        assert(text_cells(l@)[row as int] == Some(a@));
                        assert(text_cells(r@)[row as int] == Some(b@));
                        crate::text::before_is_strict(a@, b@);
                        crate::text::before_is_total(a@, b@);
                    }
                    relate(a.as_str(), b.as_str())
                },
                _ => Relation::Same,
            }
        },
        _ => Relation::Same,
    }
}

fn holds(op: Operator, relation: Relation) -> (r: bool)
    ensures
        r == comparison_holds(op, relation),
{
    match (op, relation) {
        (Operator::Eq, Relation::Same) => true,
        (Operator::NotEq, Relation::Less) | (Operator::NotEq, Relation::Greater) => true,
        (Operator::Lt, Relation::Less) => true,
        (Operator::LtEq, Relation::Less) | (Operator::LtEq, Relation::Same) => true,
        (Operator::Gt, Relation::Greater) => true,
        (Operator::GtEq, Relation::Greater) | (Operator::GtEq, Relation::Same) => true,
        _ => false,
    }
}

fn compare_columns(op: Operator, left: &Column, right: &Column) -> (r: Column)
    requires
        left@.data_type() == right@.data_type(),
        left@.len() == right@.len(),
    ensures
        r@ == compared(op, left@, right@),
{
    let count: usize = left.len();
    let mut cells: Vec<Option<bool>> = Vec::new();
    for row in 0..count
        invariant
            left@.data_type() == right@.data_type(),
            count == left@.len(),
            count == right@.len(),
            cells.len() == row,
            forall|k: int|
                0 <= k < row ==> #[trigger] cells@[k] == compared(op, left@, right@)->Boolean_0[k],
    {
        if left.is_null(row) || right.is_null(row) {
            cells.push(None);
        } else {
            cells.push(Some(holds(op, relate_cells(left, right, row))));
        }
    }
    proof {
        assert(cells@ =~= compared(op, left@, right@)->Boolean_0);
    }
    Column::Boolean(cells)
}

// ---- truth values

/// AND over truth values, one of which is NULL.
pub open spec fn kleene_and(left: Option<bool>, right: Option<bool>) -> Option<bool> {
    if left == Some(false) || right == Some(false) {
        Some(false)
    } else if left == Some(true) && right == Some(true) {
        Some(true)
    } else {
        None
    }
}

/// OR over truth values, one of which is NULL.
pub open spec fn kleene_or(left: Option<bool>, right: Option<bool>) -> Option<bool> {
    if left == Some(true) || right == Some(true) {
        Some(true)
    } else if left == Some(false) && right == Some(false) {
        Some(false)
    } else {
        None
    }
}

/// NOT over truth values, one of which is NULL.
pub open spec fn kleene_not(value: Option<bool>) -> Option<bool> {
    match value {
        Some(b) => Some(!b),
        None => None,
    }
}

/// AND and OR mirror each other.
pub proof fn kleene_duality(left: Option<bool>, right: Option<bool>)
    ensures
        kleene_not(kleene_and(left, right)) == kleene_or(kleene_not(left), kleene_not(right)),
        kleene_and(left, right) == kleene_and(right, left),
        kleene_or(left, right) == kleene_or(right, left),
{
}

/// The result of AND or OR over two columns of truth values.
pub open spec fn combined(op: Operator, left: Seq<Option<bool>>, right: Seq<Option<bool>>) -> ColumnView {
    ColumnView::Boolean(
        Seq::new(
            left.len(),
            |row: int|
                if op is And {
                    kleene_and(left[row], right[row])
                } else {
                    kleene_or(left[row], right[row])
                },
        ),
    )
}

fn combine(op: Operator, left: &Vec<Option<bool>>, right: &Vec<Option<bool>>) -> (r: Column)
    requires
        left.len() == right.len(),
    ensures
        r@ == combined(op, left@, right@),
{
    let conjunction: bool = match op {
        Operator::And => true,
        _ => false,
    };
    let mut cells: Vec<Option<bool>> = Vec::new();
    for row in 0..left.len()
        invariant
            conjunction == (op is And),
            left.len() == right.len(),
            cells.len() == row,
            forall|k: int|
                0 <= k < row ==> #[trigger] cells@[k] == combined(op, left@, right@)->Boolean_0[k],
    {
        let cell: Option<bool> = match (left[row], right[row]) {
            (Some(a), Some(b)) => Some(
                if conjunction {
                    a && b
                } else {
                    a || b
                },
            ),
            (Some(a), None) | (None, Some(a)) => if a == conjunction {
                None
            } else {
                Some(a)
            },
            (None, None) => None,
        };
        cells.push(cell);
    }
    proof {
        assert(cells@ =~= combined(op, left@, right@)->Boolean_0);
    }
    Column::Boolean(cells)
}

// ---- literals and NULL tests

pub open spec fn repeated<T>(value: T, count: nat) -> Seq<T> {
    Seq::new(count, |i: int| value)
}

/// A column that holds one value in every row.
pub open spec fn literal_column(value: ScalarView, rows: nat) -> ColumnView {
    match value {
        ScalarView::Null => ColumnView::Null(rows),
        ScalarView::Boolean(b) => ColumnView::Boolean(repeated(Some(b), rows)),
        ScalarView::Int64(n) => ColumnView::Int64(repeated(Some(n), rows)),
        ScalarView::UInt64(n) => ColumnView::UInt64(repeated(Some(n), rows)),
        ScalarView::Float64(bits) => ColumnView::Float64(repeated(Some(bits), rows)),
        ScalarView::Utf8(s) => ColumnView::Utf8(repeated(Some(s), rows)),
    }
}

fn repeat<T: Copy>(value: T, count: usize) -> (r: Vec<Option<T>>)
    ensures
        r@ == repeated(Some(value), count as nat),
{
    let mut r: Vec<Option<T>> = Vec::new();
    for i in 0..count
        invariant
            r.len() == i,
            forall|k: int| 0 <= k < i ==> #[trigger] r@[k] == Some(value),
    {
        r.push(Some(value));
    }
    proof {
        assert(r@ =~= repeated(Some(value), count as nat));
    }
    r
}

/// A column that holds one value in every row.
pub fn scalar_array(value: &ScalarValue, rows: usize) -> (r: Column)
    ensures
        r@ == literal_column(value@, rows as nat),
{
    match value {
        ScalarValue::Null => Column::Null(rows),
        ScalarValue::Boolean(b) => Column::Boolean(repeat(*b, rows)),
        ScalarValue::Int64(n) => Column::Int64(repeat(*n, rows)),
        ScalarValue::UInt64(n) => Column::UInt64(repeat(*n, rows)),
        ScalarValue::Float64(bits) => Column::Float64(repeat(*bits, rows)),
        ScalarValue::Utf8(s) => {
            let mut cells: Vec<Option<String>> = Vec::new();
            for i in 0..rows
                invariant
                    cells.len() == i,
                    forall|k: int|
                        0 <= k < i ==> crate::column::text_cell(#[trigger] cells@[k]) == Some(s@),
            {
                cells.push(Some(s.clone()));
            }
            proof {
                assert(text_cells(cells@) =~= repeated(Some(s@), rows as nat));
            }
            Column::Utf8(cells)
        },
    }
}

/// For each row, whether the cell is NULL, or is not.
pub open spec fn null_test(column: ColumnView, negated: bool) -> ColumnView {
    ColumnView::Boolean(Seq::new(column.len(), |row: int| Some(column.null_at(row) != negated)))
}

fn test_null(column: &Column, negated: bool) -> (r: Column)
    ensures
        r@ == null_test(column@, negated),
{
    let count: usize = column.len();
    let mut cells: Vec<Option<bool>> = Vec::new();
    for row in 0..count
        invariant
            count == column@.len(),
            cells.len() == row,
            forall|k: int|
                0 <= k < row ==> #[trigger] cells@[k] == Some(column@.null_at(k) != negated),
    {
        cells.push(Some(column.is_null(row) != negated));
    }
    proof {
        assert(cells@ =~= null_test(column@, negated)->Boolean_0);
    }
    Column::Boolean(cells)
}

/// As many truth values as there are rows, all of them NULL.
fn unknown(rows: usize) -> (r: Column)
    ensures
        r@ == ColumnView::Boolean(repeated(None, rows as nat)),
{
    let mut cells: Vec<Option<bool>> = Vec::new();
    for i in 0..rows
        invariant
            cells.len() == i,
            forall|k: int| 0 <= k < i ==> #[trigger] cells@[k] is None,
    {
        cells.push(None);
    }
    proof {
        assert(cells@ =~= repeated(None, rows as nat));
    }
    Column::Boolean(cells)
}

// ---- expressions

/// The type in which an operator's operands are computed: numbers at their full width, and NULL as
/// one of the type that it is compared with.
pub open spec fn operand_type(op: Operator, left: DataTypeView, right: DataTypeView) -> Option<
    DataTypeView,
> {
    if op.is_arithmetic() {
        common_numeric(left, right)
    } else if left == right || left is Null {
        Some(right)
    } else if right is Null {
        Some(left)
    } else {
        common_numeric(left, right)
    }
}

fn operand_data_type(op: Operator, left: &DataType, right: &DataType) -> (r: Option<DataType>)
    ensures
        match r {
            Some(t) => operand_type(op, left@, right@) == Some(t@),
            None => operand_type(op, left@, right@) is None,
        },
{
    if op.arithmetic() {
        common_numeric_type(left, right)
    } else if left.same(right) || left.is_null() {
        Some(right.clone())
    } else if right.is_null() {
        Some(left.clone())
    } else {
        common_numeric_type(left, right)
    }
}

/// A column as one of a type: cast where it is of another.
pub open spec fn at_type(column: ColumnView, target: DataTypeView) -> Result<
    ColumnView,
    ErrorView,
> {
    if column.data_type() == target {
        Ok(column)
    } else {
        cast_outcome(column, target)
    }
}

fn cast_to(column: &Column, target: &DataType) -> (r: Result<Column, SparkXError>)
    ensures
        column_outcome(r) == at_type(column@, target@),
        r matches Ok(result) ==> result@.data_type() == target@ && result@.len() == column@.len(),
{
    if column.data_type().same(target) {
        Ok(column.clone())
    } else {
        cast_column(column, target)
    }
}

/// What an operator makes of two columns of one type.
pub open spec fn applied(op: Operator, left: ColumnView, right: ColumnView) -> Result<
    ColumnView,
    ErrorView,
> {
    match op {
        Operator::And | Operator::Or => match (left, right) {
            (ColumnView::Boolean(l), ColumnView::Boolean(r)) => Ok(combined(op, l, r)),
            _ => Err(ErrorView::Execution("boolean expression expected"@)),
        },
        Operator::Add => arithmetic_outcome(Arithmetic::Add, left, right),
        Operator::Subtract => arithmetic_outcome(Arithmetic::Subtract, left, right),
        Operator::Multiply => arithmetic_outcome(Arithmetic::Multiply, left, right),
        Operator::Divide => arithmetic_outcome(Arithmetic::Divide, left, right),
        _ => Ok(compared(op, left, right)),
    }
}

/// What an operator makes of two columns.
pub open spec fn operated(op: Operator, left: ColumnView, right: ColumnView) -> Result<
    ColumnView,
    ErrorView,
> {
    let left_type = left.data_type();
    let right_type = right.data_type();
    if left_type is Null && right_type is Null {
        if op.is_arithmetic() {
            Err(ErrorView::Execution("cannot infer the type of arithmetic on NULL values"@))
        } else {
            Ok(ColumnView::Boolean(repeated(None, left.len())))
        }
    } else {
        match operand_type(op, left_type, right_type) {
            None => Err(
                ErrorView::Execution(
                    "cannot apply "@ + op.text() + " to "@ + left_type.name() + " and "@
                        + right_type.name(),
                ),
            ),
            Some(target) => match at_type(left, target) {
                Err(error) => Err(error),
                Ok(l) => match at_type(right, target) {
                    Err(error) => Err(error),
                    Ok(r) => applied(op, l, r),
                },
            },
        }
    }
}

impl ExprView {
    /// The column that an expression gives over a batch, or why there is none.
    pub open spec fn value(self, batch: BatchView) -> Result<ColumnView, ErrorView>
        decreases self,
    {
        match self {
            ExprView::Column(name) => match resolve(batch.schema.names(), name) {
                Ok(i) => Ok(batch.columns[i]),
                Err(error) => Err(error),
            },
            ExprView::Literal(value) => Ok(literal_column(value, batch.rows)),
            ExprView::Binary { left, op, right } => match left.value(batch) {
                Err(error) => Err(error),
                Ok(l) => match right.value(batch) {
                    Err(error) => Err(error),
                    Ok(r) => operated(op, l, r),
                },
            },
            ExprView::Cast { expr, data_type } => match expr.value(batch) {
                Err(error) => Err(error),
                Ok(column) => cast_outcome(column, data_type),
            },
            ExprView::IsNull { expr, negated } => match expr.value(batch) {
                Err(error) => Err(error),
                Ok(column) => Ok(null_test(column, negated)),
            },
            ExprView::Alias(expr, _) => expr.value(batch),
            ExprView::Aggregate { .. } => Err(
                ErrorView::Execution("aggregate expression cannot be evaluated row-wise"@),
            ),
            ExprView::Wildcard => Err(
                ErrorView::Execution("wildcard must be expanded before execution"@),
            ),
        }
    }
}

fn apply(op: Operator, left: &Column, right: &Column) -> (r: Result<Column, SparkXError>)
    requires
        op.is_arithmetic() ==> computes(left@, right@),
        left@.data_type() == right@.data_type(),
        left@.len() == right@.len(),
    ensures
        column_outcome(r) == applied(op, left@, right@),
        r matches Ok(column) ==> {
            &&& column@.len() == left@.len()
            &&& column@.data_type() == if op.is_arithmetic() {
                left@.data_type()
            } else {
                DataTypeView::Boolean
            }
        },
{
    match op {
        Operator::And | Operator::Or => match (left, right) {
            (Column::Boolean(l), Column::Boolean(r)) => Ok(combine(op, l, r)),
            _ => Err(SparkXError::execution("boolean expression expected".to_owned())),
        },
        Operator::Add => compute(Arithmetic::Add, left, right),
        Operator::Subtract => compute(Arithmetic::Subtract, left, right),
        Operator::Multiply => compute(Arithmetic::Multiply, left, right),
        Operator::Divide => compute(Arithmetic::Divide, left, right),
        _ => Ok(compare_columns(op, left, right)),
    }
}

fn operate(op: Operator, left: &Column, right: &Column) -> (r: Result<Column, SparkXError>)
    requires
        left@.len() == right@.len(),
    ensures
        column_outcome(r) == operated(op, left@, right@),
        r matches Ok(column) ==> {
            &&& column@.len() == left@.len()
            &&& binary_type(op, left@.data_type(), right@.data_type()) matches Ok(t)
                ==> column@.data_type() == t
        },
{
    let left_type = left.data_type();
    let right_type = right.data_type();
    if left_type.is_null() && right_type.is_null() {
        if op.arithmetic() {
            return Err(
                SparkXError::execution(
                    "cannot infer the type of arithmetic on NULL values".to_owned(),
                ),
            );
        }
        return Ok(unknown(left.len()));
    }
    let target = match operand_data_type(op, &left_type, &right_type) {
        Some(target) => target,
        None => {
            let mut message: String = join("cannot apply ", op.to_text());
            message.append(" to ");
            message.append(left_type.to_text().as_str());
            message.append(" and ");
            message.append(right_type.to_text().as_str());
            return Err(SparkXError::execution(message));
        },
    };
    let left = match cast_to(left, &target) {
        Ok(column) => column,
        Err(error) => return Err(error),
    };
    let right = match cast_to(right, &target) {
        Ok(column) => column,
        Err(error) => return Err(error),
    };
    apply(op, &left, &right)
}

/// The column that an expression gives over a batch: one cell for each row, of the type that the
/// expression has over the batch's schema.
pub fn evaluate(expr: &Expr, batch: &Batch) -> (r: Result<Column, SparkXError>)
    requires
        batch.wf(),
    ensures
        column_outcome(r) == expr@.value(batch@),
        r matches Ok(column) ==> {
            &&& column@.len() == batch@.rows
            &&& expr@.data_type(batch@.schema) matches Ok(t) ==> column@.data_type() == t
        },
    decreases expr,
{
    match expr {
        Expr::Column(name) => match find_column(batch.schema(), name.as_str()) {
            Ok(i) => {
                proof {
                    assert(batch@.columns[i as int].len() == batch@.rows);
                }
                Ok(batch.column(i).clone())
            },
            Err(error) => Err(error),
        },
        Expr::Literal(value) => Ok(scalar_array(value, batch.num_rows())),
        Expr::Binary { left, op, right } => {
            let left = match evaluate(left, batch) {
                Ok(column) => column,
                Err(error) => return Err(error),
            };
            let right = match evaluate(right, batch) {
                Ok(column) => column,
                Err(error) => return Err(error),
            };
            operate(*op, &left, &right)
        },
        Expr::Cast { expr, data_type } => match evaluate(expr, batch) {
            Ok(column) => cast_column(&column, data_type),
            Err(error) => Err(error),
        },
        Expr::IsNull { expr, negated } => match evaluate(expr, batch) {
            Ok(column) => Ok(test_null(&column, *negated)),
            Err(error) => Err(error),
        },
        Expr::Alias(expr, _) => evaluate(expr, batch),
        Expr::Aggregate { .. } => Err(
            SparkXError::execution("aggregate expression cannot be evaluated row-wise".to_owned()),
        ),
        Expr::Wildcard => Err(
            SparkXError::execution("wildcard must be expanded before execution".to_owned()),
        ),
    }
}

} // verus!

//! Simplifying expressions before they are run.

use crate::batch::{Batch, BatchView};
use crate::cells::{cell_value, value_at};
use crate::column::{column_views, Column, ColumnView};
use crate::error::{ErrorView, SparkXError};
use crate::evaluate::{combined, evaluate, operated, repeated};
use crate::expr::{expr_view, Expr, ExprView, Operator};
use crate::scalar::{ScalarValue, ScalarView};
use crate::text::text_views;
use crate::types::{plain_schema, DataType, DataTypeView, Field, Schema, SchemaView};
use vstd::prelude::*;

verus! {

/// A batch of one row and no columns.
pub open spec fn one_row() -> BatchView {
    BatchView { schema: plain_schema(Seq::empty()), columns: Seq::empty(), rows: 1 }
}

/// A literal of a type: the value itself, or a cast of it.
pub open spec fn typed(value: ScalarView, data_type: DataTypeView) -> ExprView {
    if value.data_type() == data_type {
        ExprView::Literal(value)
    } else {
        ExprView::Cast { expr: Box::new(ExprView::Literal(value)), data_type }
    }
}

impl ExprView {
    /// Whether an expression is NULL, cast or not.
    pub open spec fn is_null_literal(self) -> bool
        decreases self,
    {
        match self {
            ExprView::Alias(inner, _) => match *inner {
                ExprView::Literal(ScalarView::Null) => true,
                ExprView::Cast { expr, .. } => expr.is_null_literal(),
                _ => false,
            },
            ExprView::Literal(ScalarView::Null) => true,
            ExprView::Cast { expr, .. } => expr.is_null_literal(),
            _ => false,
        }
    }

    /// The truth value that an expression is, if it is one.
    pub open spec fn truth_literal(self) -> Option<bool> {
        match self.unalias() {
            ExprView::Literal(ScalarView::Boolean(b)) => Some(b),
            _ => None,
        }
    }

    /// Whether an expression has one value whatever the row.
    pub open spec fn is_constant(self) -> bool {
        self.columns() == Set::<Seq<char>>::empty() && !self.contains_aggregate()
    }

    /// The value of a constant as a literal, or why it has none.
    pub open spec fn folded(self) -> Result<ExprView, ErrorView> {
        match self.value(one_row()) {
            Err(error) => Err(error),
            Ok(column) => match cell_value(column, 0) {
                Err(error) => Err(error),
                Ok(value) => Ok(typed(value, column.data_type())),
            },
        }
    }

    /// An expression with simple operands made simple itself: constants are computed, NULL
    /// absorbs comparisons and arithmetic, and truth values decide AND and OR.
    pub open spec fn simplified_node(self, schema: SchemaView) -> Result<ExprView, ErrorView> {
        match self.data_type(schema) {
            Err(error) => Err(error),
            Ok(output) => if self.is_constant() {
                self.folded()
            } else {
                match self {
                    ExprView::Binary { left, op, right } => Ok(
                        if !op.is_logical() {
                            if left.is_null_literal() || right.is_null_literal() {
                                typed(ScalarView::Null, output)
                            } else {
                                self
                            }
                        } else {
                            decided(self, op, *left, *right)
                        },
                    ),
                    _ => Ok(self),
                }
            },
        }
    }

    /// An expression made simple from the leaves up, or why it cannot be typed or computed.
    pub open spec fn simplified(self, schema: SchemaView) -> Result<ExprView, ErrorView>
        decreases self,
    {
        match self {
            ExprView::Column(_) | ExprView::Literal(_) => self.simplified_node(schema),
            ExprView::Binary { left, op, right } => match left.simplified(schema) {
                Err(error) => Err(error),
                Ok(l) => match right.simplified(schema) {
                    Err(error) => Err(error),
                    Ok(r) => (ExprView::Binary {
                        left: Box::new(l),
                        op,
                        right: Box::new(r),
                    }).simplified_node(schema),
                },
            },
            ExprView::IsNull { expr, negated } => match expr.simplified(schema) {
                Err(error) => Err(error),
                Ok(e) => (ExprView::IsNull { expr: Box::new(e), negated }).simplified_node(schema),
            },
            ExprView::Cast { expr, data_type } => match expr.simplified(schema) {
                Err(error) => Err(error),
                Ok(e) => (ExprView::Cast { expr: Box::new(e), data_type }).simplified_node(schema),
            },
            ExprView::Alias(expr, alias) => match expr.simplified(schema) {
                Err(error) => Err(error),
                Ok(e) => Ok(ExprView::Alias(Box::new(e), alias)),
            },
            ExprView::Aggregate { function, expr, distinct } => match expr.simplified(schema) {
                Err(error) => Err(error),
                Ok(e) => Ok(ExprView::Aggregate { function, expr: Box::new(e), distinct }),
            },
            ExprView::Wildcard => Ok(ExprView::Wildcard),
        }
    }
}

/// AND or OR with its operands, made simple where one of them is a truth value.
pub open spec fn decided(whole: ExprView, op: Operator, left: ExprView, right: ExprView) -> ExprView {
    // The operand that leaves the other as it is: true for AND, false for OR.
    let neutral = op is And;
    if left.truth_literal() == Some(neutral) {
        right
    } else if right.truth_literal() == Some(neutral) {
        left
    } else if left.truth_literal() == Some(!neutral) || right.truth_literal() == Some(!neutral) {
        ExprView::Literal(ScalarView::Boolean(!neutral))
    } else {
        whole
    }
}

/// An expression that was made, as contracts see it.
pub open spec fn expr_outcome(r: Result<Expr, SparkXError>) -> Result<ExprView, ErrorView> {
    match r {
        Ok(expr) => Ok(expr@),
        Err(error) => Err(error@),
    }
}

fn typed_literal(value: ScalarValue, data_type: DataType) -> (r: Expr)
    ensures
        r@ == typed(value@, data_type@),
{
    if value.data_type().same(&data_type) {
        Expr::literal(value)
    } else {
        Expr::cast(Expr::literal(value), data_type)
    }
}

fn is_null_expression(expr: &Expr) -> (r: bool)
    ensures
        r == expr@.is_null_literal(),
    decreases expr,
{
    proof {
        reveal_with_fuel(expr_view, 3);
        reveal_with_fuel(ExprView::is_null_literal, 3);
    }
    match expr {
        Expr::Alias(inner, _) => match &**inner {
            Expr::Literal(ScalarValue::Null) => true,
            Expr::Cast { expr, .. } => is_null_expression(expr),
            _ => false,
        },
        Expr::Literal(ScalarValue::Null) => true,
        Expr::Cast { expr, .. } => is_null_expression(expr),
        _ => false,
    }
}

fn boolean_literal(expr: &Expr) -> (r: Option<bool>)
    ensures
        r == expr@.truth_literal(),
{
    match expr.unalias() {
        Expr::Literal(ScalarValue::Boolean(b)) => Some(*b),
        _ => None,
    }
}

/// The batch of one row and no columns.
fn single_row() -> (r: Result<Batch, SparkXError>)
    ensures
        r matches Ok(batch) && batch@ == one_row() && batch.wf(),
{
    let fields: Vec<Field> = Vec::new();
    let columns: Vec<Column> = Vec::new();
    proof {
        assert(crate::types::field_views(fields@) =~= Seq::empty());
        assert(column_views(columns@) =~= Seq::empty());
    }
    Batch::try_new(Schema::new(fields), columns, Some(1))
}

/// Whether an expression has one value whatever the row.
fn is_constant(expr: &Expr) -> (r: bool)
    ensures
        r == expr@.is_constant(),
{
    let columns = expr.columns();
    proof {
        if columns.len() == 0 {
            assert(expr@.columns() =~= Set::<Seq<char>>::empty()) by {
                assert forall|name: Seq<char>| !expr@.columns().contains(name) by {
                    assert(!text_views(columns@).contains(name));
                }
            }
        } else {
            let name = text_views(columns@)[0];
            assert(text_views(columns@).contains(name));
            assert(expr@.columns().contains(name));
        }
    }
    columns.len() == 0 && !expr.contains_aggregate()
}

fn simplify_node(expr: Expr, schema: &Schema) -> (r: Result<Expr, SparkXError>)
    ensures
        expr_outcome(r) == expr@.simplified_node(schema@),
{
    let output = match expr.data_type(schema) {
        Ok(data_type) => data_type,
        Err(error) => return Err(error),
    };
    if is_constant(&expr) {
        let batch = match single_row() {
            Ok(batch) => batch,
            Err(error) => return Err(error),
        };
        let column = match evaluate(&expr, &batch) {
            Ok(column) => column,
            Err(error) => return Err(error),
        };
        return match value_at(&column, 0) {
            Ok(value) => Ok(typed_literal(value, column.data_type())),
            Err(error) => Err(error),
        };
    }
    match &expr {
        Expr::Binary { left, op, right } => {
            if !op.logical() {
                if is_null_expression(left) || is_null_expression(right) {
                    return Ok(typed_literal(ScalarValue::Null, output));
                }
            } else {
                let neutral: bool = match op {
                    Operator::And => true,
                    _ => false,
                };
                let left_truth = boolean_literal(left);
                let right_truth = boolean_literal(right);
                if let Some(truth) = left_truth {
                    if truth == neutral {
                        return Ok((**right).clone());
                    }
                }
                if let Some(truth) = right_truth {
                    if truth == neutral {
                        return Ok((**left).clone());
                    }
                }
                if left_truth.is_some() || right_truth.is_some() {
                    return Ok(Expr::literal(ScalarValue::Boolean(!neutral)));
                }
            }
        },
        _ => {},
    }
    Ok(expr)
}

impl Expr {
    /// This expression made simple: constants computed, NULL and truth values taken into account.
    pub fn simplify(&self, schema: &Schema) -> (r: Result<Expr, SparkXError>)
        ensures
            expr_outcome(r) == self@.simplified(schema@),
        decreases self,
    {
        match self {
            Expr::Column(_) | Expr::Literal(_) => simplify_node(self.clone(), schema),
            Expr::Binary { left, op, right } => {
                let left = match left.simplify(schema) {
                    Ok(expr) => expr,
                    Err(error) => return Err(error),
                };
                let right = match right.simplify(schema) {
                    Ok(expr) => expr,
                    Err(error) => return Err(error),
                };
                simplify_node(Expr::binary(left, *op, right), schema)
            },
            Expr::IsNull { expr, negated } => match expr.simplify(schema) {
                Ok(expr) => simplify_node(Expr::is_null(expr, *negated), schema),
                Err(error) => Err(error),
            },
            Expr::Cast { expr, data_type } => match expr.simplify(schema) {
                Ok(expr) => simplify_node(Expr::cast(expr, data_type.clone()), schema),
                Err(error) => Err(error),
            },
            Expr::Alias(expr, alias) => match expr.simplify(schema) {
                Ok(expr) => Ok(expr.alias(alias.clone())),
                Err(error) => Err(error),
            },
            Expr::Aggregate { function, expr, distinct } => match expr.simplify(schema) {
                Ok(expr) => Ok(
                    Expr::Aggregate { function: *function, expr: Box::new(expr), distinct: *distinct },
                ),
                Err(error) => Err(error),
            },
            Expr::Wildcard => Ok(Expr::Wildcard),
        }
    }
}

/// A truth value is the same in every row.
proof fn a_truth_literal_is_one_value(expr: ExprView, batch: BatchView)
    ensures
        expr.truth_literal() matches Some(b) ==> expr.value(batch) == Ok::<ColumnView, ErrorView>(
            ColumnView::Boolean(repeated(Some(b), batch.rows)),
        ),
{
    reveal_with_fuel(ExprView::value, 3);
    if let ExprView::Alias(inner, _) = expr {
        assert(expr.value(batch) == inner.value(batch));
    }
}

/// What is left of AND or OR when an operand is a truth value has the value of the whole.
pub proof fn deciding_changes_no_value(
    op: Operator,
    left: ExprView,
    right: ExprView,
    batch: BatchView,
    lefts: Seq<Option<bool>>,
    rights: Seq<Option<bool>>,
)
    requires
        op is And || op is Or,
        left.value(batch) == Ok::<ColumnView, ErrorView>(ColumnView::Boolean(lefts)),
        right.value(batch) == Ok::<ColumnView, ErrorView>(ColumnView::Boolean(rights)),
        lefts.len() == batch.rows,
        rights.len() == batch.rows,
    ensures
        ({
            let whole = ExprView::Binary { left: Box::new(left), op, right: Box::new(right) };
            decided(whole, op, left, right).value(batch) == whole.value(batch)
        }),
{
    let whole = ExprView::Binary { left: Box::new(left), op, right: Box::new(right) };
    let neutral = op is And;
    let rows = batch.rows;
    a_truth_literal_is_one_value(left, batch);
    a_truth_literal_is_one_value(right, batch);
    assert(operated(op, ColumnView::Boolean(lefts), ColumnView::Boolean(rights)) == Ok::<
        ColumnView,
        ErrorView,
    >(combined(op, lefts, rights)));
    assert(whole.value(batch) == Ok::<ColumnView, ErrorView>(combined(op, lefts, rights)));
    let cells = combined(op, lefts, rights)->Boolean_0;
    if left.truth_literal() == Some(neutral) {
        assert(lefts == repeated(Some(neutral), rows));
        assert forall|row: int| 0 <= row < rows implies cells[row] == #[trigger] rights[row] by {
            assert(lefts[row] == Some(neutral));
            let cell = rights[row];
            assert(cell is None || cell == Some(true) || cell == Some(false));
        }
        assert(cells =~= rights);
    } else if right.truth_literal() == Some(neutral) {
        assert(rights == repeated(Some(neutral), rows));
        assert forall|row: int| 0 <= row < rows implies cells[row] == #[trigger] lefts[row] by {
            assert(rights[row] == Some(neutral));
            let cell = lefts[row];
            assert(cell is None || cell == Some(true) || cell == Some(false));
        }
        assert(cells =~= lefts);
    } else if left.truth_literal() == Some(!neutral) || right.truth_literal() == Some(!neutral) {
        assert(cells =~= repeated(Some(!neutral), rows));
    }
}

} // verus!

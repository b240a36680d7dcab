//! Expressions and schemas to and from their messages.

use crate::error::{ErrorView, SparkXError};
use crate::expr::{Expr, ExprView};
use crate::fragment::{codec_error, codec_failure};
use crate::plan_codec::codes::{
    decode_aggregate_function, decode_data_type, decode_operator, encode_aggregate_function,
    encode_data_type, encode_operator, function_code, function_of, operator_code, operator_of,
    type_code, type_of,
};
use crate::scalar::{ScalarValue, ScalarView};
use crate::simplify::expr_outcome;
use crate::text::{blank, is_blank, join};
use crate::wire::exprs::{WireExpr, WireExprView};
use crate::wire::schema::{WireValue, WireValueView};
use vstd::prelude::*;

verus! {

// ---- values

pub open spec fn encoded_value(value: ScalarView) -> WireValueView {
    match value {
        ScalarView::Null => WireValueView::Null(true),
        ScalarView::Boolean(b) => WireValueView::Boolean(b),
        ScalarView::Int64(n) => WireValueView::Int64(n),
        ScalarView::UInt64(n) => WireValueView::UInt64(n),
        ScalarView::Float64(bits) => WireValueView::Float64(bits),
        ScalarView::Utf8(s) => WireValueView::Utf8(s),
    }
}

pub open spec fn missing(name: Seq<char>) -> ErrorView {
    codec_failure(name + " is missing"@)
}

pub(crate) fn missing_error(name: &str) -> (r: SparkXError)
    ensures
        r@ == missing(name@),
{
    codec_error(join(name, " is missing").as_str())
}

pub open spec fn decoded_value(value: WireValueView) -> Result<ScalarView, ErrorView> {
    match value {
        WireValueView::Missing => Err(missing("scalar value"@)),
        WireValueView::Null(marker) => if marker {
            Ok(ScalarView::Null)
        } else {
            Err(codec_failure("null scalar marker must be true"@))
        },
        WireValueView::Boolean(b) => Ok(ScalarView::Boolean(b)),
        WireValueView::Int64(n) => Ok(ScalarView::Int64(n)),
        WireValueView::UInt64(n) => Ok(ScalarView::UInt64(n)),
        WireValueView::Float64(bits) => Ok(ScalarView::Float64(bits)),
        WireValueView::Utf8(s) => Ok(ScalarView::Utf8(s)),
    }
}

fn encode_scalar(value: &ScalarValue) -> (r: WireValue)
    ensures
        r@ == encoded_value(value@),
{
    match value {
        ScalarValue::Null => WireValue::Null(true),
        ScalarValue::Boolean(b) => WireValue::Boolean(*b),
        ScalarValue::Int64(n) => WireValue::Int64(*n),
        ScalarValue::UInt64(n) => WireValue::UInt64(*n),
        ScalarValue::Float64(bits) => WireValue::Float64(*bits),
        ScalarValue::Utf8(s) => WireValue::Utf8(s.clone()),
    }
}

fn decode_scalar(value: &WireValue) -> (r: Result<ScalarValue, SparkXError>)
    ensures
        crate::cells::scalar_outcome(r) == decoded_value(value@),
{
    match value {
        WireValue::Missing => Err(missing_error("scalar value")),
        WireValue::Null(marker) => if *marker {
            Ok(ScalarValue::Null)
        } else {
            Err(codec_error("null scalar marker must be true"))
        },
        WireValue::Boolean(b) => Ok(ScalarValue::Boolean(*b)),
        WireValue::Int64(n) => Ok(ScalarValue::Int64(*n)),
        WireValue::UInt64(n) => Ok(ScalarValue::UInt64(*n)),
        WireValue::Float64(bits) => Ok(ScalarValue::Float64(*bits)),
        WireValue::Utf8(s) => Ok(ScalarValue::Utf8(s.clone())),
    }
}

// ---- expressions

/// The message of an expression, or the error that it has none.
pub open spec fn encoded_expr(expr: ExprView) -> Result<WireExprView, ErrorView>
    decreases expr,
{
    match expr {
        ExprView::Column(name) => Ok(WireExprView::Column(name)),
        ExprView::Literal(value) => Ok(WireExprView::Literal(encoded_value(value))),
        ExprView::Binary { left, op, right } => match encoded_expr(*left) {
            Err(error) => Err(error),
            Ok(left) => match encoded_expr(*right) {
                Err(error) => Err(error),
                Ok(right) => Ok(
                    WireExprView::Binary {
                        left: Box::new(left),
                        operator: operator_code(op),
                        right: Box::new(right),
                    },
                ),
            },
        },
        ExprView::IsNull { expr, negated } => match encoded_expr(*expr) {
            Err(error) => Err(error),
            Ok(expr) => Ok(WireExprView::IsNull { expr: Box::new(expr), negated }),
        },
        ExprView::Cast { expr, data_type } => match encoded_expr(*expr) {
            Err(error) => Err(error),
            Ok(expr) => match type_code(data_type) {
                Err(error) => Err(error),
                Ok(data_type) => Ok(WireExprView::Cast { expr: Box::new(expr), data_type }),
            },
        },
        ExprView::Alias(expr, alias) => match encoded_expr(*expr) {
            Err(error) => Err(error),
            Ok(expr) => Ok(WireExprView::Alias { expr: Box::new(expr), alias }),
        },
        ExprView::Aggregate { function, expr, distinct } => match encoded_expr(*expr) {
            Err(error) => Err(error),
            Ok(expr) => Ok(
                WireExprView::Aggregate {
                    function: function_code(function),
                    expr: Box::new(expr),
                    distinct,
                },
            ),
        },
        ExprView::Wildcard => Ok(WireExprView::Wildcard(true)),
    }
}

/// The expression of an operand, or the error that there is none.
pub open spec fn decoded_operand(expr: WireExprView, name: Seq<char>) -> Result<
    ExprView,
    ErrorView,
>
    decreases expr, 1int,
{
    if expr is Absent {
        Err(missing(name))
    } else {
        decoded_expr(expr)
    }
}

/// The expression of a message, or the error that it holds none.
pub open spec fn decoded_expr(expr: WireExprView) -> Result<ExprView, ErrorView>
    decreases expr, 0int,
{
    match expr {
        WireExprView::Absent | WireExprView::Empty => Err(missing("expression kind"@)),
        WireExprView::Column(name) => if blank(name) {
            Err(codec_failure("column name must not be empty"@))
        } else {
            Ok(ExprView::Column(name))
        },
        WireExprView::Literal(value) => match decoded_value(value) {
            Err(error) => Err(error),
            Ok(value) => Ok(ExprView::Literal(value)),
        },
        WireExprView::Binary { left, operator, right } => match decoded_operand(
            *left,
            "binary left operand"@,
        ) {
            Err(error) => Err(error),
            Ok(left) => match operator_of(operator) {
                Err(error) => Err(error),
                Ok(op) => match decoded_operand(*right, "binary right operand"@) {
                    Err(error) => Err(error),
                    Ok(right) => Ok(
                        ExprView::Binary { left: Box::new(left), op, right: Box::new(right) },
                    ),
                },
            },
        },
        WireExprView::IsNull { expr, negated } => match decoded_operand(
            *expr,
            "IS NULL operand"@,
        ) {
            Err(error) => Err(error),
            Ok(expr) => Ok(ExprView::IsNull { expr: Box::new(expr), negated }),
        },
        WireExprView::Cast { expr, data_type } => match decoded_operand(*expr, "cast operand"@) {
            Err(error) => Err(error),
            Ok(expr) => match type_of(data_type) {
                Err(error) => Err(error),
                Ok(data_type) => Ok(ExprView::Cast { expr: Box::new(expr), data_type }),
            },
        },
        WireExprView::Alias { expr, alias } => if blank(alias) {
            Err(codec_failure("expression alias must not be empty"@))
        } else {
            match decoded_operand(*expr, "aliased expression"@) {
                Err(error) => Err(error),
                Ok(expr) => Ok(ExprView::Alias(Box::new(expr), alias)),
            }
        },
        WireExprView::Aggregate { function, expr, distinct } => match function_of(function) {
            Err(error) => Err(error),
            Ok(function) => match decoded_operand(*expr, "aggregate argument"@) {
                Err(error) => Err(error),
                Ok(expr) => Ok(ExprView::Aggregate { function, expr: Box::new(expr), distinct }),
            },
        },
        WireExprView::Wildcard(marker) => if marker {
            Ok(ExprView::Wildcard)
        } else {
            Err(codec_failure("wildcard marker must be true"@))
        },
    }
}

impl ExprView {
    /// Whether the names of an expression are such as can be sent: none of them blank.
    pub open spec fn is_named(self) -> bool
        decreases self,
    {
        match self {
            ExprView::Column(name) => !blank(name),
            ExprView::Literal(_) | ExprView::Wildcard => true,
            ExprView::Binary { left, right, .. } => left.is_named() && right.is_named(),
            ExprView::IsNull { expr, .. } => expr.is_named(),
            ExprView::Cast { expr, .. } => expr.is_named(),
            ExprView::Alias(expr, alias) => !blank(alias) && expr.is_named(),
            ExprView::Aggregate { expr, .. } => expr.is_named(),
        }
    }
}

/// An expression that was sent arrives as it was.
pub proof fn expr_survives(expr: ExprView)
    requires
        encoded_expr(expr) is Ok,
        expr.is_named(),
    ensures
        decoded_expr(encoded_expr(expr)->Ok_0) == Ok::<ExprView, ErrorView>(expr),
        !(encoded_expr(expr)->Ok_0 is Absent),
        !(encoded_expr(expr)->Ok_0 is Empty),
    decreases expr,
{
    match expr {
        ExprView::Binary { left, op, right } => {
            expr_survives(*left);
            expr_survives(*right);
        },
        ExprView::IsNull { expr: inner, .. } => expr_survives(*inner),
        ExprView::Cast { expr: inner, .. } => expr_survives(*inner),
        ExprView::Alias(inner, _) => expr_survives(*inner),
        ExprView::Aggregate { function, expr: inner, .. } => expr_survives(*inner),
        _ => {},
    }
}

/// A message of an expression, as contracts see it.
pub open spec fn wire_outcome(r: Result<WireExpr, SparkXError>) -> Result<WireExprView, ErrorView> {
    match r {
        Ok(expr) => Ok(expr@),
        Err(error) => Err(error@),
    }
}

pub fn encode_expr(expr: &Expr) -> (r: Result<WireExpr, SparkXError>)
    ensures
        wire_outcome(r) == encoded_expr(expr@),
    decreases expr,
{
    match expr {
        Expr::Column(name) => Ok(WireExpr::Column(name.clone())),
        Expr::Literal(value) => Ok(WireExpr::Literal(encode_scalar(value))),
        Expr::Binary { left, op, right } => {
            let left = match encode_expr(left) {
                Ok(expr) => expr,
                Err(error) => return Err(error),
            };
            let right = match encode_expr(right) {
                Ok(expr) => expr,
                Err(error) => return Err(error),
            };
            Ok(
                WireExpr::Binary {
                    left: Box::new(left),
                    operator: encode_operator(*op),
                    right: Box::new(right),
                },
            )
        },
        Expr::IsNull { expr, negated } => match encode_expr(expr) {
            Ok(expr) => Ok(WireExpr::IsNull { expr: Box::new(expr), negated: *negated }),
            Err(error) => Err(error),
        },
        Expr::Cast { expr, data_type } => {
            let expr = match encode_expr(expr) {
                Ok(expr) => expr,
                Err(error) => return Err(error),
            };
            match encode_data_type(data_type) {
                Ok(data_type) => Ok(WireExpr::Cast { expr: Box::new(expr), data_type }),
                Err(error) => Err(error),
            }
        },
        Expr::Alias(expr, alias) => match encode_expr(expr) {
            Ok(expr) => Ok(WireExpr::Alias { expr: Box::new(expr), alias: alias.clone() }),
            Err(error) => Err(error),
        },
        Expr::Aggregate { function, expr, distinct } => match encode_expr(expr) {
            Ok(expr) => Ok(
                WireExpr::Aggregate {
                    function: encode_aggregate_function(*function),
                    expr: Box::new(expr),
                    distinct: *distinct,
                },
            ),
            Err(error) => Err(error),
        },
        Expr::Wildcard => Ok(WireExpr::Wildcard(true)),
    }
}

pub fn decode_operand(expr: &WireExpr, name: &str) -> (r: Result<Expr, SparkXError>)
    ensures
        expr_outcome(r) == decoded_operand(expr@, name@),
    decreases expr, 1int,
{
    if let WireExpr::Absent = expr {
        return Err(missing_error(name));
    }
    decode_expr(expr)
}

pub fn decode_expr(expr: &WireExpr) -> (r: Result<Expr, SparkXError>)
    ensures
        expr_outcome(r) == decoded_expr(expr@),
    decreases expr, 0int,
{
    match expr {
        WireExpr::Absent | WireExpr::Empty => Err(missing_error("expression kind")),
        WireExpr::Column(name) => {
            if is_blank(name.as_str()) {
                return Err(codec_error("column name must not be empty"));
            }
            Ok(Expr::Column(name.clone()))
        },
        WireExpr::Literal(value) => match decode_scalar(value) {
            Ok(value) => Ok(Expr::Literal(value)),
            Err(error) => Err(error),
        },
        WireExpr::Binary { left, operator, right } => {
            let left = match decode_operand(left, "binary left operand") {
                Ok(expr) => expr,
                Err(error) => return Err(error),
            };
            let op = match decode_operator(*operator) {
                Ok(op) => op,
                Err(error) => return Err(error),
            };
            match decode_operand(right, "binary right operand") {
                Ok(right) => Ok(Expr::binary(left, op, right)),
                Err(error) => Err(error),
            }
        },
        WireExpr::IsNull { expr, negated } => match decode_operand(expr, "IS NULL operand") {
            Ok(expr) => Ok(Expr::is_null(expr, *negated)),
            Err(error) => Err(error),
        },
        WireExpr::Cast { expr, data_type } => {
            let expr = match decode_operand(expr, "cast operand") {
                Ok(expr) => expr,
                Err(error) => return Err(error),
            };
            match decode_data_type(*data_type) {
                Ok(data_type) => Ok(Expr::cast(expr, data_type)),
                Err(error) => Err(error),
            }
        },
        WireExpr::Alias { expr, alias } => {
            if is_blank(alias.as_str()) {
                return Err(codec_error("expression alias must not be empty"));
            }
            match decode_operand(expr, "aliased expression") {
                Ok(expr) => Ok(expr.alias(alias.clone())),
                Err(error) => Err(error),
            }
        },
        WireExpr::Aggregate { function, expr, distinct } => {
            let function = match decode_aggregate_function(*function) {
                Ok(function) => function,
                Err(error) => return Err(error),
            };
            match decode_operand(expr, "aggregate argument") {
                Ok(expr) => Ok(
                    Expr::Aggregate { function, expr: Box::new(expr), distinct: *distinct },
                ),
                Err(error) => Err(error),
            }
        },
        WireExpr::Wildcard(marker) => {
            if *marker {
                Ok(Expr::Wildcard)
            } else {
                Err(codec_error("wildcard marker must be true"))
            }
        },
    }
}

} // verus!

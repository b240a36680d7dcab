//! Expressions of SQL as expressions of the engine.

use crate::cells::only_float;
use crate::column::{Column, ColumnView};
use crate::error::{ErrorView, SparkXError};
use crate::expr::{AggregateFunction, Expr, ExprView, Operator};
use crate::kernels::{cast_column, cast_outcome};
use crate::scalar::{ScalarValue, ScalarView};
use crate::sql::syntax::{SqlArgument, SqlArguments, SqlExpr, SqlKind, SqlOperator};
use crate::text::{
    capital_letters, characters, join, lowercase, parse_signed, same_text, small_letters, uppercase,
    written_number,
};
use crate::types::{DataType, DataTypeView};
use vstd::prelude::*;

verus! {

/// The first `upto` parts of a name, with stops between them.
pub open spec fn dotted(parts: Seq<String>, upto: int) -> Seq<char>
    decreases upto,
{
    if upto <= 0 {
        Seq::empty()
    } else if upto == 1 {
        parts[0]@
    } else {
        dotted(parts, upto - 1) + "."@ + parts[upto - 1]@
    }
}

fn join_parts(parts: &Vec<String>) -> (r: String)
    ensures
        r@ == dotted(parts@, parts.len() as int),
{
    if parts.len() == 0 {
        let r = String::new();
        proof {
            assert(r@ =~= Seq::empty());
        }
        return r;
    }
    let mut r: String = parts[0].clone();
    for i in 1..parts.len()
        invariant
            parts.len() > 0,
            r@ == dotted(parts@, i as int),
    {
        r.append(".");
        r.append(parts[i].as_str());
    }
    r
}

/// Whether a number is written with a point or an exponent.
pub open spec fn is_fractional(text: Seq<char>) -> bool {
    exists|i: int| 0 <= i < text.len() && is_float_mark(#[trigger] text[i])
}

pub open spec fn is_float_mark(c: char) -> bool {
    c == '.' || c == 'e' || c == 'E'
}

fn has_float_mark(text: &str) -> (r: bool)
    ensures
        r == is_fractional(text@),
{
    let chars = characters(text);
    for i in 0..chars.len()
        invariant
            chars@ == text@,
            forall|k: int| 0 <= k < i ==> !is_float_mark(#[trigger] text@[k]),
    {
        let c: char = chars[i];
        if c == '.' || c == 'e' || c == 'E' {
            proof {
                assert(is_float_mark(text@[i as int]));
            }
            return true;
        }
    }
    false
}

/// The double-precision number that a text writes, by its bits, or why there is none.
pub open spec fn written_float(text: Seq<char>) -> Result<u64, ErrorView> {
    match cast_outcome(ColumnView::Utf8(seq![Some(text)]), DataTypeView::Float64) {
        Err(error) => Err(error),
        Ok(column) => match only_float(column) {
            Some(bits) => Ok(bits),
            None => Err(ErrorView::Planning("invalid floating-point literal "@ + text)),
        },
    }
}

fn parse_float(text: &String) -> (r: Result<u64, SparkXError>)
    ensures
        crate::error::outcome(r) == written_float(text@),
{
    let column = Column::Utf8(vec![Some(text.clone())]);
    proof {
        assert(column@->Utf8_0 =~= seq![Some(text@)]);
    }
    match cast_column(&column, &DataType::Float64) {
        Ok(Column::Float64(cells)) => match cells[0] {
            Some(bits) => Ok(bits),
            None => Err(
                SparkXError::planning(join("invalid floating-point literal ", text.as_str())),
            ),
        },
        Ok(_) => Err(
            SparkXError::planning(join("invalid floating-point literal ", text.as_str())),
        ),
        Err(error) => Err(error),
    }
}

/// The value of a number as it was written.
pub open spec fn number_value(text: Seq<char>) -> Result<ScalarView, ErrorView> {
    if is_fractional(text) {
        match written_float(text) {
            Ok(bits) => Ok(ScalarView::Float64(bits)),
            Err(error) => Err(error),
        }
    } else {
        match written_number(text) {
            Some(n) => if i64::MIN <= n <= i64::MAX {
                Ok(ScalarView::Int64(n as i64))
            } else {
                Err(ErrorView::Planning("invalid integer literal "@ + text))
            },
            None => Err(ErrorView::Planning("invalid integer literal "@ + text)),
        }
    }
}

fn parse_number(text: &String) -> (r: Result<ScalarValue, SparkXError>)
    ensures
        crate::cells::scalar_outcome(r) == number_value(text@),
{
    if has_float_mark(text.as_str()) {
        return match parse_float(text) {
            Ok(bits) => Ok(ScalarValue::Float64(bits)),
            Err(error) => Err(error),
        };
    }
    match parse_signed(text.as_str()) {
        Some(n) => Ok(ScalarValue::Int64(n)),
        None => Err(SparkXError::planning(join("invalid integer literal ", text.as_str()))),
    }
}

/// The engine's operator for one of SQL.
pub open spec fn operator_of(op: SqlOperator) -> Result<Operator, ErrorView> {
    match op {
        SqlOperator::Eq => Ok(Operator::Eq),
        SqlOperator::NotEq => Ok(Operator::NotEq),
        SqlOperator::Lt => Ok(Operator::Lt),
        SqlOperator::LtEq => Ok(Operator::LtEq),
        SqlOperator::Gt => Ok(Operator::Gt),
        SqlOperator::GtEq => Ok(Operator::GtEq),
        SqlOperator::And => Ok(Operator::And),
        SqlOperator::Or => Ok(Operator::Or),
        SqlOperator::Plus => Ok(Operator::Add),
        SqlOperator::Minus => Ok(Operator::Subtract),
        SqlOperator::Multiply => Ok(Operator::Multiply),
        SqlOperator::Divide => Ok(Operator::Divide),
        SqlOperator::Other(text) => Err(ErrorView::Unsupported("operator "@ + text@)),
    }
}

fn sql_operator(op: &SqlOperator) -> (r: Result<Operator, SparkXError>)
    ensures
        crate::error::outcome(r) == operator_of(*op),
{
    match op {
        SqlOperator::Eq => Ok(Operator::Eq),
        SqlOperator::NotEq => Ok(Operator::NotEq),
        SqlOperator::Lt => Ok(Operator::Lt),
        SqlOperator::LtEq => Ok(Operator::LtEq),
        SqlOperator::Gt => Ok(Operator::Gt),
        SqlOperator::GtEq => Ok(Operator::GtEq),
        SqlOperator::And => Ok(Operator::And),
        SqlOperator::Or => Ok(Operator::Or),
        SqlOperator::Plus => Ok(Operator::Add),
        SqlOperator::Minus => Ok(Operator::Subtract),
        SqlOperator::Multiply => Ok(Operator::Multiply),
        SqlOperator::Divide => Ok(Operator::Divide),
        SqlOperator::Other(text) => Err(
            SparkXError::unsupported(join("operator ", text.as_str())),
        ),
    }
}

/// Where the length of a type stands, or the end of its name.
pub open spec fn bracket_place(name: Seq<char>, from: int) -> int
    decreases name.len() - from,
{
    if from >= name.len() {
        name.len() as int
    } else if name[from] == '(' {
        from
    } else {
        bracket_place(name, from + 1)
    }
}

/// The name of a type without its length, in small letters.
pub open spec fn bare_type_name(name: Seq<char>) -> Seq<char> {
    small_letters(name.take(bracket_place(name, 0)))
}

/// The engine's type for the name of one of SQL.
pub open spec fn type_of_name(name: Seq<char>) -> Option<DataTypeView> {
    if name == "boolean"@ || name == "bool"@ {
        Some(DataTypeView::Boolean)
    } else if name == "tinyint"@ || name == "smallint"@ || name == "mediumint"@ || name == "int"@
        || name == "integer"@ || name == "int2"@ || name == "int4"@ || name == "int32"@ {
        Some(DataTypeView::Int32)
    } else if name == "bigint"@ || name == "int8"@ || name == "int64"@ {
        Some(DataTypeView::Int64)
    } else if name == "tinyint unsigned"@ || name == "smallint unsigned"@ || name
        == "mediumint unsigned"@ || name == "int unsigned"@ || name == "integer unsigned"@ || name
        == "uint32"@ {
        Some(DataTypeView::UInt32)
    } else if name == "bigint unsigned"@ || name == "uint64"@ {
        Some(DataTypeView::UInt64)
    } else if name == "real"@ || name == "float4"@ || name == "float32"@ {
        Some(DataTypeView::Float32)
    } else if name == "float"@ || name == "double"@ || name == "double precision"@ || name
        == "float8"@ || name == "float64"@ {
        Some(DataTypeView::Float64)
    } else if name == "char"@ || name == "character"@ || name == "varchar"@ || name
        == "character varying"@ || name == "text"@ || name == "string"@ {
        Some(DataTypeView::Utf8)
    } else {
        None
    }
}

fn is_one_of(name: &str, a: &str, b: &str, c: &str) -> (r: bool)
    ensures
        r == (name@ == a@ || name@ == b@ || name@ == c@),
{
    same_text(name, a) || same_text(name, b) || same_text(name, c)
}

fn named_type(name: &str) -> (r: Option<DataType>)
    ensures
        match r {
            Some(data_type) => type_of_name(name@) == Some(data_type@),
            None => type_of_name(name@) is None,
        },
{
    if is_one_of(name, "boolean", "bool", "bool") {
        Some(DataType::Boolean)
    } else if is_one_of(name, "tinyint", "smallint", "mediumint") || is_one_of(
        name,
        "int",
        "integer",
        "int2",
    ) || is_one_of(name, "int4", "int32", "int32") {
        Some(DataType::Int32)
    } else if is_one_of(name, "bigint", "int8", "int64") {
        Some(DataType::Int64)
    } else if is_one_of(name, "tinyint unsigned", "smallint unsigned", "mediumint unsigned")
        || is_one_of(name, "int unsigned", "integer unsigned", "uint32") {
        Some(DataType::UInt32)
    } else if is_one_of(name, "bigint unsigned", "uint64", "uint64") {
        Some(DataType::UInt64)
    } else if is_one_of(name, "real", "float4", "float32") {
        Some(DataType::Float32)
    } else if is_one_of(name, "float", "double", "double precision") || is_one_of(
        name,
        "float8",
        "float64",
        "float64",
    ) {
        Some(DataType::Float64)
    } else if is_one_of(name, "char", "character", "varchar") || is_one_of(
        name,
        "character varying",
        "text",
        "string",
    ) {
        Some(DataType::Utf8)
    } else {
        None
    }
}

/// The engine's type for the target of a cast, or the error that there is none.
pub open spec fn cast_target(name: Seq<char>) -> Result<DataTypeView, ErrorView> {
    match type_of_name(bare_type_name(name)) {
        Some(data_type) => Ok(data_type),
        None => Err(ErrorView::Unsupported("CAST target type "@ + name)),
    }
}

fn target_type(name: &String) -> (r: Result<DataType, SparkXError>)
    ensures
        match r {
            Ok(data_type) => cast_target(name@) == Ok::<DataTypeView, ErrorView>(data_type@),
            Err(error) => cast_target(name@) == Err::<DataTypeView, ErrorView>(error@),
        },
{
    let chars = characters(name.as_str());
    let mut bare: String = String::new();
    proof {
        assert(bare@ =~= name@.take(0));
    }
    let mut i: usize = 0;
    while i < chars.len() && chars[i] != '('
        invariant
            chars@ == name@,
            i <= chars.len(),
            bare@ == name@.take(i as int),
            bracket_place(name@, 0) == bracket_place(name@, i as int),
        decreases chars.len() - i,
    {
        crate::text::push_char(&mut bare, chars[i]);
        i = i + 1;
        proof {
            assert(bare@ =~= name@.take(i as int));
        }
    }
    match named_type(lowercase(bare.as_str()).as_str()) {
        Some(data_type) => Ok(data_type),
        None => Err(SparkXError::unsupported(join("CAST target type ", name.as_str()))),
    }
}

/// The aggregate function of a name in capitals.
pub open spec fn function_of(name: Seq<char>) -> Option<AggregateFunction> {
    if name == "COUNT"@ {
        Some(AggregateFunction::Count)
    } else if name == "SUM"@ {
        Some(AggregateFunction::Sum)
    } else if name == "MIN"@ {
        Some(AggregateFunction::Min)
    } else if name == "MAX"@ {
        Some(AggregateFunction::Max)
    } else if name == "AVG"@ {
        Some(AggregateFunction::Avg)
    } else {
        None
    }
}

fn named_function(name: &str) -> (r: Option<AggregateFunction>)
    ensures
        r == function_of(name@),
{
    if same_text(name, "COUNT") {
        Some(AggregateFunction::Count)
    } else if same_text(name, "SUM") {
        Some(AggregateFunction::Sum)
    } else if same_text(name, "MIN") {
        Some(AggregateFunction::Min)
    } else if same_text(name, "MAX") {
        Some(AggregateFunction::Max)
    } else if same_text(name, "AVG") {
        Some(AggregateFunction::Avg)
    } else {
        None
    }
}

/// The engine's expression for one of SQL, or why there is none.
pub open spec fn planned_expr(expr: SqlExpr) -> Result<ExprView, ErrorView>
    decreases expr,
{
    match expr.kind {
        SqlKind::Identifier(name) => Ok(ExprView::Column(name@)),
        SqlKind::Compound(parts) => Ok(ExprView::Column(dotted(parts@, parts.len() as int))),
        SqlKind::Number(text) => match number_value(text@) {
            Ok(value) => Ok(ExprView::Literal(value)),
            Err(error) => Err(error),
        },
        SqlKind::Text(text) => Ok(ExprView::Literal(ScalarView::Utf8(text@))),
        SqlKind::Boolean(value) => Ok(ExprView::Literal(ScalarView::Boolean(value))),
        SqlKind::Null => Ok(ExprView::Literal(ScalarView::Null)),
        SqlKind::OtherLiteral => Err(ErrorView::Unsupported("literal "@ + expr.text@)),
        SqlKind::Nested(inner) => planned_expr(*inner),
        SqlKind::Binary { left, op, right } => match planned_expr(*left) {
            Err(error) => Err(error),
            Ok(first) => match operator_of(op) {
                Err(error) => Err(error),
                Ok(op) => match planned_expr(*right) {
                    Err(error) => Err(error),
                    Ok(second) => Ok(
                        ExprView::Binary { left: Box::new(first), op, right: Box::new(second) },
                    ),
                },
            },
        },
        SqlKind::IsNull { expr: inner, negated } => match planned_expr(*inner) {
            Err(error) => Err(error),
            Ok(inner) => Ok(ExprView::IsNull { expr: Box::new(inner), negated }),
        },
        SqlKind::Cast { expr: inner, target } => match planned_expr(*inner) {
            Err(error) => Err(error),
            Ok(inner) => match cast_target(target@) {
                Err(error) => Err(error),
                Ok(data_type) => Ok(ExprView::Cast { expr: Box::new(inner), data_type }),
            },
        },
        SqlKind::Function(function) => {
            let name = capital_letters(function.name@);
            if function.is_special {
                Err(
                    ErrorView::Unsupported(
                        "aggregate parameters, windows, filters, null treatment, or WITHIN GROUP"@,
                    ),
                )
            } else {
                match function_of(name) {
                    None => Err(ErrorView::Unsupported("function "@ + name)),
                    Some(aggregate) => match function.arguments {
                        SqlArguments::Missing => Err(
                            ErrorView::Planning(name + " requires arguments"@),
                        ),
                        SqlArguments::NotOne => Err(
                            ErrorView::Planning(name + " requires exactly one argument"@),
                        ),
                        SqlArguments::One { argument, has_clauses, distinct } => if has_clauses {
                            Err(
                                ErrorView::Unsupported(
                                    "aggregate argument ORDER BY/LIMIT clauses"@,
                                ),
                            )
                        } else {
                            match *argument {
                                SqlArgument::Expr(inner) => match planned_expr(inner) {
                                    Err(error) => Err(error),
                                    Ok(inner) => Ok(
                                        ExprView::Aggregate {
                                            function: aggregate,
                                            expr: Box::new(inner),
                                            distinct,
                                        },
                                    ),
                                },
                                SqlArgument::Wildcard => if distinct {
                                    Err(ErrorView::Unsupported("DISTINCT wildcard aggregate"@))
                                } else {
                                    Ok(
                                        ExprView::Aggregate {
                                            function: aggregate,
                                            expr: Box::new(ExprView::Wildcard),
                                            distinct,
                                        },
                                    )
                                },
                                SqlArgument::Other(text) => Err(
                                    ErrorView::Unsupported("aggregate argument "@ + text@),
                                ),
                            }
                        },
                    },
                }
            }
        },
        SqlKind::Other => Err(ErrorView::Unsupported("SQL expression "@ + expr.text@)),
    }
}

pub open spec fn expr_outcome(r: Result<Expr, SparkXError>) -> Result<ExprView, ErrorView> {
    match r {
        Ok(expr) => Ok(expr@),
        Err(error) => Err(error@),
    }
}

/// The engine's expression for one of SQL.
pub fn sql_expr(expr: &SqlExpr) -> (r: Result<Expr, SparkXError>)
    ensures
        expr_outcome(r) == planned_expr(*expr),
    decreases expr,
{
    match &expr.kind {
        SqlKind::Identifier(name) => Ok(Expr::Column(name.clone())),
        SqlKind::Compound(parts) => Ok(Expr::Column(join_parts(parts))),
        SqlKind::Number(text) => match parse_number(text) {
            Ok(value) => Ok(Expr::Literal(value)),
            Err(error) => Err(error),
        },
        SqlKind::Text(text) => Ok(Expr::Literal(ScalarValue::Utf8(text.clone()))),
        SqlKind::Boolean(value) => Ok(Expr::Literal(ScalarValue::Boolean(*value))),
        SqlKind::Null => Ok(Expr::Literal(ScalarValue::Null)),
        SqlKind::OtherLiteral => Err(
            SparkXError::unsupported(join("literal ", expr.text.as_str())),
        ),
        SqlKind::Nested(inner) => sql_expr(inner),
        SqlKind::Binary { left, op, right } => {
            let left = match sql_expr(left) {
                Ok(left) => left,
                Err(error) => return Err(error),
            };
            let op = match sql_operator(op) {
                Ok(op) => op,
                Err(error) => return Err(error),
            };
            let right = match sql_expr(right) {
                Ok(right) => right,
                Err(error) => return Err(error),
            };
            Ok(Expr::Binary { left: Box::new(left), op, right: Box::new(right) })
        },
        SqlKind::IsNull { expr: inner, negated } => match sql_expr(inner) {
            Ok(inner) => Ok(Expr::IsNull { expr: Box::new(inner), negated: *negated }),
            Err(error) => Err(error),
        },
        SqlKind::Cast { expr: inner, target } => {
            let inner = match sql_expr(inner) {
                Ok(inner) => inner,
                Err(error) => return Err(error),
            };
            match target_type(target) {
                Ok(data_type) => Ok(Expr::Cast { expr: Box::new(inner), data_type }),
                Err(error) => Err(error),
            }
        },
        SqlKind::Function(function) => {
            if function.is_special {
                return Err(
                    SparkXError::unsupported(
                        "aggregate parameters, windows, filters, null treatment, or WITHIN GROUP".to_owned(),
                    ),
                );
            }
            let name = uppercase(function.name.as_str());
            let aggregate = match named_function(name.as_str()) {
                Some(aggregate) => aggregate,
                None => return Err(SparkXError::unsupported(join("function ", name.as_str()))),
            };
            match &function.arguments {
                SqlArguments::Missing => Err(
                    SparkXError::planning(join(name.as_str(), " requires arguments")),
                ),
                SqlArguments::NotOne => Err(
                    SparkXError::planning(join(name.as_str(), " requires exactly one argument")),
                ),
                SqlArguments::One { argument, has_clauses, distinct } => {
                    if *has_clauses {
                        return Err(
                            SparkXError::unsupported(
                                "aggregate argument ORDER BY/LIMIT clauses".to_owned(),
                            ),
                        );
                    }
                    match &**argument {
                        SqlArgument::Expr(inner) => match sql_expr(inner) {
                            Ok(inner) => Ok(
                                Expr::Aggregate {
                                    function: aggregate,
                                    expr: Box::new(inner),
                                    distinct: *distinct,
                                },
                            ),
                            Err(error) => Err(error),
                        },
                        SqlArgument::Wildcard => {
                            if *distinct {
                                return Err(
                                    SparkXError::unsupported(
                                        "DISTINCT wildcard aggregate".to_owned(),
                                    ),
                                );
                            }
                            let wildcard = Expr::Wildcard;
                            proof {
                                assert(wildcard@ == ExprView::Wildcard);
                            }
                            Ok(
                                Expr::Aggregate {
                                    function: aggregate,
                                    expr: Box::new(wildcard),
                                    distinct: *distinct,
                                },
                            )
                        },
                        SqlArgument::Other(text) => Err(
                            SparkXError::unsupported(join("aggregate argument ", text.as_str())),
                        ),
                    }
                },
            }
        },
        SqlKind::Other => Err(
            SparkXError::unsupported(join("SQL expression ", expr.text.as_str())),
        ),
    }
}

/// The table or alias that qualifies the column which an expression is.
pub open spec fn qualifier_of(expr: SqlExpr) -> Option<Seq<char>> {
    match expr.kind {
        SqlKind::Compound(parts) => if parts.len() > 1 {
            Some(parts@[parts.len() - 2]@)
        } else {
            None
        },
        _ => None,
    }
}

/// Whether the column which an expression is has a certain qualifier.
pub fn is_qualified_by(expr: &SqlExpr, qualifier: &str) -> (r: bool)
    ensures
        r == (qualifier_of(*expr) == Some(qualifier@)),
{
    match &expr.kind {
        SqlKind::Compound(parts) => {
            if parts.len() > 1 {
                same_text(parts[parts.len() - 2].as_str(), qualifier)
            } else {
                false
            }
        },
        _ => false,
    }
}

} // verus!

//! Expressions: what they are, how they read, and which type they have.

use crate::error::{ErrorView, SparkXError};
use crate::kernels::{float_numeral, float_text};
use crate::scalar::{ScalarValue, ScalarView};
use crate::text::{
    comma_list, contains_stop, decimal, has_stop, in_order, insert_text, join, list, numeral,
    same_text, short_name, signed_decimal, signed_numeral, text_views, unqualified,
};
use crate::types::{
    common_numeric, common_numeric_type, plain_field, DataType, DataTypeView, Field, FieldView,
    Schema, SchemaView,
};
use vstd::prelude::*;

verus! {

/// What stands between two operands.
#[derive(Debug, Clone, Copy, PartialEq, Eq, Structural)]
pub enum Operator {
    Eq,
    NotEq,
    Lt,
    LtEq,
    Gt,
    GtEq,
    And,
    Or,
    Add,
    Subtract,
    Multiply,
    Divide,
}

impl Operator {
    pub open spec fn text(self) -> Seq<char> {
        match self {
            Operator::Eq => "="@,
            Operator::NotEq => "!="@,
            Operator::Lt => "<"@,
            Operator::LtEq => "<="@,
            Operator::Gt => ">"@,
            Operator::GtEq => ">="@,
            Operator::And => "AND"@,
            Operator::Or => "OR"@,
            Operator::Add => "+"@,
            Operator::Subtract => "-"@,
            Operator::Multiply => "*"@,
            Operator::Divide => "/"@,
        }
    }

    /// Whether this is AND or OR.
    pub open spec fn is_logical(self) -> bool {
        self is And || self is Or
    }

    /// Whether this computes a number.
    pub open spec fn is_arithmetic(self) -> bool {
        self is Add || self is Subtract || self is Multiply || self is Divide
    }

    /// Whether this compares its operands.
    pub open spec fn is_comparison(self) -> bool {
        !self.is_logical() && !self.is_arithmetic()
    }

    /// How this operator is written.
    pub fn to_text(&self) -> (r: &'static str)
        ensures
            r@ == self.text(),
    {
        match self {
            Operator::Eq => "=",
            Operator::NotEq => "!=",
            Operator::Lt => "<",
            Operator::LtEq => "<=",
            Operator::Gt => ">",
            Operator::GtEq => ">=",
            Operator::And => "AND",
            Operator::Or => "OR",
            Operator::Add => "+",
            Operator::Subtract => "-",
            Operator::Multiply => "*",
            Operator::Divide => "/",
        }
    }

    pub fn logical(&self) -> (r: bool)
        ensures
            r == self.is_logical(),
    {
        match self {
            Operator::And | Operator::Or => true,
            _ => false,
        }
    }

    pub fn arithmetic(&self) -> (r: bool)
        ensures
            r == self.is_arithmetic(),
    {
        match self {
            Operator::Add | Operator::Subtract | Operator::Multiply | Operator::Divide => true,
            _ => false,
        }
    }
}

/// What is computed over the rows of a group.
#[derive(Debug, Clone, Copy, PartialEq, Eq, Structural)]
pub enum AggregateFunction {
    Count,
    Sum,
    Min,
    Max,
    Avg,
}

impl AggregateFunction {
    pub open spec fn text(self) -> Seq<char> {
        match self {
            AggregateFunction::Count => "Count"@,
            AggregateFunction::Sum => "Sum"@,
            AggregateFunction::Min => "Min"@,
            AggregateFunction::Max => "Max"@,
            AggregateFunction::Avg => "Avg"@,
        }
    }

    /// The function's name in capitals, as in SQL.
    pub open spec fn capitals(self) -> Seq<char> {
        match self {
            AggregateFunction::Count => "COUNT"@,
            AggregateFunction::Sum => "SUM"@,
            AggregateFunction::Min => "MIN"@,
            AggregateFunction::Max => "MAX"@,
            AggregateFunction::Avg => "AVG"@,
        }
    }

    /// How this function is written.
    pub fn to_text(&self) -> (r: &'static str)
        ensures
            r@ == self.text(),
    {
        match self {
            AggregateFunction::Count => "Count",
            AggregateFunction::Sum => "Sum",
            AggregateFunction::Min => "Min",
            AggregateFunction::Max => "Max",
            AggregateFunction::Avg => "Avg",
        }
    }

    /// How this function is written in SQL.
    pub fn to_capitals(&self) -> (r: &'static str)
        ensures
            r@ == self.capitals(),
    {
        match self {
            AggregateFunction::Count => "COUNT",
            AggregateFunction::Sum => "SUM",
            AggregateFunction::Min => "MIN",
            AggregateFunction::Max => "MAX",
            AggregateFunction::Avg => "AVG",
        }
    }
}

/// An expression over the columns of a row.
#[derive(Debug, PartialEq, Eq)]
pub enum Expr {
    Column(String),
    Literal(ScalarValue),
    Binary { left: Box<Expr>, op: Operator, right: Box<Expr> },
    IsNull { expr: Box<Expr>, negated: bool },
    Cast { expr: Box<Expr>, data_type: DataType },
    Alias(Box<Expr>, String),
    Aggregate { function: AggregateFunction, expr: Box<Expr>, distinct: bool },
    Wildcard,
}

pub enum ExprView {
    Column(Seq<char>),
    Literal(ScalarView),
    Binary { left: Box<ExprView>, op: Operator, right: Box<ExprView> },
    IsNull { expr: Box<ExprView>, negated: bool },
    Cast { expr: Box<ExprView>, data_type: DataTypeView },
    Alias(Box<ExprView>, Seq<char>),
    Aggregate { function: AggregateFunction, expr: Box<ExprView>, distinct: bool },
    Wildcard,
}

pub open spec fn expr_view(expr: Expr) -> ExprView
    decreases expr,
{
    match expr {
        Expr::Column(name) => ExprView::Column(name@),
        Expr::Literal(value) => ExprView::Literal(value@),
        Expr::Binary { left, op, right } => ExprView::Binary {
            left: Box::new(expr_view(*left)),
            op,
            right: Box::new(expr_view(*right)),
        },
        Expr::IsNull { expr, negated } => ExprView::IsNull {
            expr: Box::new(expr_view(*expr)),
            negated,
        },
        Expr::Cast { expr, data_type } => ExprView::Cast {
            expr: Box::new(expr_view(*expr)),
            data_type: data_type@,
        },
        Expr::Alias(expr, alias) => ExprView::Alias(Box::new(expr_view(*expr)), alias@),
        Expr::Aggregate { function, expr, distinct } => ExprView::Aggregate {
            function,
            expr: Box::new(expr_view(*expr)),
            distinct,
        },
        Expr::Wildcard => ExprView::Wildcard,
    }
}

impl View for Expr {
    type V = ExprView;

    open spec fn view(&self) -> ExprView {
        expr_view(*self)
    }
}

impl Clone for Expr {
    fn clone(&self) -> (r: Self)
        ensures
            r@ == self@,
    {
        self.copied()
    }
}

impl Expr {
    /// A copy of this expression.
    fn copied(&self) -> (r: Expr)
        ensures
            r@ == self@,
        decreases self,
    {
        match self {
            Expr::Column(name) => Expr::Column(name.clone()),
            Expr::Literal(value) => Expr::Literal(value.clone()),
            Expr::Binary { left, op, right } => {
                let left = left.copied();
                let right = right.copied();
                Expr::Binary { left: Box::new(left), op: *op, right: Box::new(right) }
            },
            Expr::IsNull { expr, negated } => Expr::IsNull {
                expr: Box::new(expr.copied()),
                negated: *negated,
            },
            Expr::Cast { expr, data_type } => Expr::Cast {
                expr: Box::new(expr.copied()),
                data_type: data_type.clone(),
            },
            Expr::Alias(expr, alias) => Expr::Alias(Box::new(expr.copied()), alias.clone()),
            Expr::Aggregate { function, expr, distinct } => Expr::Aggregate {
                function: *function,
                expr: Box::new(expr.copied()),
                distinct: *distinct,
            },
            Expr::Wildcard => Expr::Wildcard,
        }
    }
}

impl ScalarView {
    /// How a value is written.
    pub open spec fn text(self) -> Seq<char> {
        match self {
            ScalarView::Null => "NULL"@,
            ScalarView::Boolean(b) => if b {
                "true"@
            } else {
                "false"@
            },
            ScalarView::Int64(n) => signed_numeral(n as int),
            ScalarView::UInt64(n) => numeral(n as nat),
            ScalarView::Float64(bits) => float_numeral(bits),
            ScalarView::Utf8(s) => "'"@ + s + "'"@,
        }
    }
}

impl ScalarValue {
    /// How this value is written.
    pub fn to_text(&self) -> (r: String)
        ensures
            r@ == self@.text(),
    {
        match self {
            ScalarValue::Null => "NULL".to_owned(),
            ScalarValue::Boolean(b) => if *b {
                "true".to_owned()
            } else {
                "false".to_owned()
            },
            ScalarValue::Int64(n) => signed_decimal(*n),
            ScalarValue::UInt64(n) => decimal(*n),
            ScalarValue::Float64(bits) => float_text(*bits),
            ScalarValue::Utf8(s) => join(join("'", s.as_str()).as_str(), "'"),
        }
    }
}

impl ExprView {
    /// How an expression is written.
    pub open spec fn text(self) -> Seq<char>
        decreases self,
    {
        match self {
            ExprView::Column(name) => "#"@ + name,
            ExprView::Literal(value) => value.text(),
            ExprView::Binary { left, op, right } => "("@ + left.text() + " "@ + op.text() + " "@
                + right.text() + ")"@,
            ExprView::IsNull { expr, negated } => "("@ + expr.text() + (if negated {
                " IS NOT NULL)"@
            } else {
                " IS NULL)"@
            }),
            ExprView::Cast { expr, data_type } => "CAST("@ + expr.text() + " AS "@
                + data_type.name() + ")"@,
            ExprView::Alias(expr, alias) => expr.text() + " AS "@ + alias,
            ExprView::Aggregate { function, expr, distinct } => function.capitals() + (if distinct {
                "(DISTINCT "@
            } else {
                "("@
            }) + expr.text() + ")"@,
            ExprView::Wildcard => "*"@,
        }
    }

    /// The name of the column that an expression puts out.
    pub open spec fn name(self) -> Seq<char> {
        match self {
            ExprView::Column(name) => short_name(name),
            ExprView::Literal(value) => value.text(),
            ExprView::Binary { .. } | ExprView::IsNull { .. } | ExprView::Cast {
                ..
            } => self.text(),
            ExprView::Alias(_, alias) => alias,
            ExprView::Aggregate { function, expr, .. } => function.capitals() + "("@ + expr.text()
                + ")"@,
            ExprView::Wildcard => "*"@,
        }
    }

    /// The expression under an alias.
    pub open spec fn unalias(self) -> ExprView {
        match self {
            ExprView::Alias(expr, _) => *expr,
            _ => self,
        }
    }

    /// The columns that an expression reads, without their tables.
    pub open spec fn columns(self) -> Set<Seq<char>>
        decreases self,
    {
        match self {
            ExprView::Column(name) => Set::<Seq<char>>::empty().insert(short_name(name)),
            ExprView::Binary { left, right, .. } => left.columns().union(right.columns()),
            ExprView::IsNull { expr, .. } => expr.columns(),
            ExprView::Cast { expr, .. } => expr.columns(),
            ExprView::Alias(expr, _) => expr.columns(),
            ExprView::Aggregate { expr, .. } => expr.columns(),
            ExprView::Literal(_) | ExprView::Wildcard => Set::empty(),
        }
    }

    pub open spec fn contains_aggregate(self) -> bool
        decreases self,
    {
        match self {
            ExprView::Aggregate { .. } => true,
            ExprView::Binary { left, right, .. } => left.contains_aggregate()
                || right.contains_aggregate(),
            ExprView::IsNull { expr, .. } => expr.contains_aggregate(),
            ExprView::Cast { expr, .. } => expr.contains_aggregate(),
            ExprView::Alias(expr, _) => expr.contains_aggregate(),
            ExprView::Column(_) | ExprView::Literal(_) | ExprView::Wildcard => false,
        }
    }
}

impl Expr {
    pub fn column(name: String) -> (r: Self)
        ensures
            r@ == ExprView::Column(name@),
    {
        Expr::Column(name)
    }

    pub fn literal(value: ScalarValue) -> (r: Self)
        ensures
            r@ == ExprView::Literal(value@),
    {
        Expr::Literal(value)
    }

    pub fn binary(left: Expr, op: Operator, right: Expr) -> (r: Self)
        ensures
            r@ == (ExprView::Binary { left: Box::new(left@), op, right: Box::new(right@) }),
    {
        Expr::Binary { left: Box::new(left), op, right: Box::new(right) }
    }

    pub fn alias(self, alias: String) -> (r: Self)
        ensures
            r@ == ExprView::Alias(Box::new(self@), alias@),
    {
        Expr::Alias(Box::new(self), alias)
    }

    pub fn is_null(expr: Expr, negated: bool) -> (r: Self)
        ensures
            r@ == (ExprView::IsNull { expr: Box::new(expr@), negated }),
    {
        Expr::IsNull { expr: Box::new(expr), negated }
    }

    pub fn cast(expr: Expr, data_type: DataType) -> (r: Self)
        ensures
            r@ == (ExprView::Cast { expr: Box::new(expr@), data_type: data_type@ }),
    {
        Expr::Cast { expr: Box::new(expr), data_type }
    }

    /// How this expression is written.
    pub fn to_text(&self) -> (r: String)
        ensures
            r@ == self@.text(),
        decreases self,
    {
        match self {
            Expr::Column(name) => join("#", name.as_str()),
            Expr::Literal(value) => value.to_text(),
            Expr::Binary { left, op, right } => {
                let mut text: String = join("(", left.to_text().as_str());
                text.append(" ");
                text.append(op.to_text());
                text.append(" ");
                text.append(right.to_text().as_str());
                text.append(")");
                text
            },
            Expr::IsNull { expr, negated } => {
                let mut text: String = join("(", expr.to_text().as_str());
                if *negated {
                    text.append(" IS NOT NULL)");
                } else {
                    text.append(" IS NULL)");
                }
                text
            },
            Expr::Cast { expr, data_type } => {
                let mut text: String = join("CAST(", expr.to_text().as_str());
                text.append(" AS ");
                text.append(data_type.to_text().as_str());
                text.append(")");
                text
            },
            Expr::Alias(expr, alias) => {
                let mut text: String = expr.to_text();
                text.append(" AS ");
                text.append(alias.as_str());
                text
            },
            Expr::Aggregate { function, expr, distinct } => {
                let mut text: String = function.to_capitals().to_owned();
                if *distinct {
                    text.append("(DISTINCT ");
                } else {
                    text.append("(");
                }
                text.append(expr.to_text().as_str());
                text.append(")");
                text
            },
            Expr::Wildcard => "*".to_owned(),
        }
    }

    /// The name of the column that this expression puts out.
    pub fn name(&self) -> (r: String)
        ensures
            r@ == self@.name(),
    {
        match self {
            Expr::Column(name) => unqualified(name.as_str()).to_owned(),
            Expr::Literal(value) => value.to_text(),
            Expr::Binary { .. } | Expr::IsNull { .. } | Expr::Cast { .. } => self.to_text(),
            Expr::Alias(_, alias) => alias.clone(),
            Expr::Aggregate { function, expr, .. } => {
                let mut text: String = join(function.to_capitals(), "(");
                text.append(expr.to_text().as_str());
                text.append(")");
                text
            },
            Expr::Wildcard => "*".to_owned(),
        }
    }

    /// The expression under an alias, or this one where there is none.
    pub fn unalias(&self) -> (r: &Expr)
        ensures
            r@ == self@.unalias(),
    {
        match self {
            Expr::Alias(expr, _) => expr,
            _ => self,
        }
    }

    /// The columns that this expression reads: each once, in the order of their names.
    pub fn columns(&self) -> (r: Vec<String>)
        ensures
            in_order(text_views(r@)),
            forall|name: Seq<char>| #[trigger]
                text_views(r@).contains(name) <==> self@.columns().contains(name),
    {
        let mut columns: Vec<String> = Vec::new();
        self.collect_columns(&mut columns);
        columns
    }

    /// Adds the columns that this expression reads.
    pub fn collect_columns(&self, columns: &mut Vec<String>)
        requires
            in_order(text_views(old(columns)@)),
        ensures
            in_order(text_views(final(columns)@)),
            forall|name: Seq<char>| #[trigger]
                text_views(final(columns)@).contains(name) <==> text_views(old(columns)@).contains(
                    name,
                ) || self@.columns().contains(name),
        decreases self,
    {
        match self {
            Expr::Column(name) => insert_text(columns, unqualified(name.as_str())),
            Expr::Binary { left, right, .. } => {
                left.collect_columns(columns);
                right.collect_columns(columns);
            },
            Expr::IsNull { expr, .. } => expr.collect_columns(columns),
            Expr::Cast { expr, .. } => expr.collect_columns(columns),
            Expr::Alias(expr, _) => expr.collect_columns(columns),
            Expr::Aggregate { expr, .. } => expr.collect_columns(columns),
            Expr::Literal(_) | Expr::Wildcard => {},
        }
    }

    pub fn contains_aggregate(&self) -> (r: bool)
        ensures
            r == self@.contains_aggregate(),
        decreases self,
    {
        match self {
            Expr::Aggregate { .. } => true,
            Expr::Binary { left, right, .. } => left.contains_aggregate()
                || right.contains_aggregate(),
            Expr::IsNull { expr, .. } => expr.contains_aggregate(),
            Expr::Cast { expr, .. } => expr.contains_aggregate(),
            Expr::Alias(expr, _) => expr.contains_aggregate(),
            Expr::Column(_) | Expr::Literal(_) | Expr::Wildcard => false,
        }
    }
}

/// Where a name occurs among others.
pub enum Occurrence {
    Nowhere,
    Once(int),
    Often,
}

/// Where `name` occurs among the first `upto` of `names`.
pub open spec fn occurrence(names: Seq<Seq<char>>, name: Seq<char>, upto: int) -> Occurrence
    decreases upto,
{
    if upto <= 0 {
        Occurrence::Nowhere
    } else {
        let earlier = occurrence(names, name, upto - 1);
        if names[upto - 1] != name {
            earlier
        } else if earlier is Nowhere {
            Occurrence::Once(upto - 1)
        } else {
            Occurrence::Often
        }
    }
}

/// Names without the tables that qualify them.
pub open spec fn short_names(names: Seq<Seq<char>>) -> Seq<Seq<char>> {
    Seq::new(names.len(), |i: int| short_name(names[i]))
}

/// Whether some name is qualified.
pub open spec fn any_qualified(names: Seq<Seq<char>>) -> bool {
    exists|i: int| 0 <= i < names.len() && has_stop(#[trigger] names[i])
}

pub open spec fn ambiguous_failure(name: Seq<char>) -> ErrorView {
    ErrorView::Planning(
        "column '"@ + name + "' is ambiguous; qualify it with a table name or alias"@,
    )
}

pub open spec fn no_column_failure(name: Seq<char>) -> ErrorView {
    ErrorView::Planning("column '"@ + name + "' does not exist"@)
}

/// The column that a name stands for among the columns of a schema: the one with that very name,
/// or else the one with that name when tables are left out. A qualified name that does not occur
/// stands for no column of a schema with qualified names.
pub open spec fn resolve(names: Seq<Seq<char>>, name: Seq<char>) -> Result<int, ErrorView> {
    match occurrence(names, name, names.len() as int) {
        Occurrence::Once(i) => Ok(i),
        Occurrence::Often => Err(ambiguous_failure(name)),
        Occurrence::Nowhere => if has_stop(name) && any_qualified(names) {
            Err(no_column_failure(name))
        } else {
            match occurrence(short_names(names), short_name(name), names.len() as int) {
                Occurrence::Once(i) => Ok(i),
                Occurrence::Often => Err(ambiguous_failure(name)),
                Occurrence::Nowhere => Err(no_column_failure(name)),
            }
        },
    }
}

/// A name that is found is found within.
pub proof fn occurrence_is_within(names: Seq<Seq<char>>, name: Seq<char>, upto: int)
    ensures
        occurrence(names, name, upto) matches Occurrence::Once(i) ==> 0 <= i < upto && names[i]
            == name,
    decreases upto,
{
    if upto > 0 {
        occurrence_is_within(names, name, upto - 1);
    }
}

/// What a name stands for is a column of the schema.
pub proof fn resolve_is_within(names: Seq<Seq<char>>, name: Seq<char>)
    ensures
        resolve(names, name) matches Ok(i) ==> 0 <= i < names.len() && short_name(names[i])
            == short_name(name),
{
    occurrence_is_within(names, name, names.len() as int);
    occurrence_is_within(short_names(names), short_name(name), names.len() as int);
}

fn ambiguous_column(name: &str) -> (r: SparkXError)
    ensures
        r@ == ambiguous_failure(name@),
{
    let mut message: String = join("column '", name);
    message.append("' is ambiguous; qualify it with a table name or alias");
    SparkXError::planning(message)
}

fn no_column(name: &str) -> (r: SparkXError)
    ensures
        r@ == no_column_failure(name@),
{
    let mut message: String = join("column '", name);
    message.append("' does not exist");
    SparkXError::planning(message)
}

/// A place that was looked for, as contracts see it.
pub open spec fn place_outcome(r: Result<usize, SparkXError>) -> Result<int, ErrorView> {
    match r {
        Ok(i) => Ok(i as int),
        Err(error) => Err(error@),
    }
}

/// The place of the column that a name stands for.
pub fn find_column(schema: &Schema, name: &str) -> (r: Result<usize, SparkXError>)
    ensures
        place_outcome(r) == resolve(schema@.names(), name@),
        r matches Ok(i) ==> i < schema.fields.len(),
{
    let ghost names = schema@.names();
    let count: usize = schema.fields.len();
    let mut found: Option<usize> = None;
    let mut often: bool = false;
    let mut qualified: bool = false;
    for i in 0..count
        invariant
            names == schema@.names(),
            count == schema.fields.len(),
            often == (occurrence(names, name@, i as int) is Often),
            match found {
                Some(k) => k < i && (often || occurrence(names, name@, i as int)
                    == Occurrence::Once(k as int)),
                None => occurrence(names, name@, i as int) is Nowhere,
            },
            qualified == exists|k: int| 0 <= k < i && has_stop(#[trigger] names[k]),
    {
        proof {
            assert(names[i as int] == schema.fields@[i as int].name@);
        }
        if same_text(schema.fields[i].name.as_str(), name) {
            if found.is_some() {
                often = true;
            } else {
                found = Some(i);
            }
        }
        if contains_stop(schema.fields[i].name.as_str()) {
            qualified = true;
        }
    }
    if often {
        return Err(ambiguous_column(name));
    }
    if let Some(i) = found {
        return Ok(i);
    }
    if contains_stop(name) && qualified {
        return Err(no_column(name));
    }
    let short = unqualified(name);
    let ghost shorts = short_names(names);
    let mut found: Option<usize> = None;
    let mut often: bool = false;
    for i in 0..count
        invariant
            names == schema@.names(),
            shorts == short_names(names),
            short@ == short_name(name@),
            count == schema.fields.len(),
            often == (occurrence(shorts, short@, i as int) is Often),
            match found {
                Some(k) => k < i && (often || occurrence(shorts, short@, i as int)
                    == Occurrence::Once(k as int)),
                None => occurrence(shorts, short@, i as int) is Nowhere,
            },
    {
        proof {
            assert(shorts[i as int] == short_name(schema.fields@[i as int].name@));
        }
        if same_text(unqualified(schema.fields[i].name.as_str()), short) {
            if found.is_some() {
                often = true;
            } else {
                found = Some(i);
            }
        }
    }
    if often {
        return Err(ambiguous_column(name));
    }
    match found {
        Some(i) => Ok(i),
        None => Err(no_column(name)),
    }
}

/// The field that a name stands for.
pub fn find_field<'a>(schema: &'a Schema, name: &str) -> (r: Result<&'a Field, SparkXError>)
    ensures
        match r {
            Ok(field) => {
                &&& resolve(schema@.names(), name@) is Ok
                &&& field@ == schema@.fields[resolve(schema@.names(), name@)->Ok_0]
            },
            Err(error) => resolve(schema@.names(), name@) == Err::<int, ErrorView>(error@),
        },
{
    match find_column(schema, name) {
        Ok(i) => Ok(&schema.fields[i]),
        Err(error) => Err(error),
    }
}

impl ExprView {
    /// The type of an expression over the columns of a schema, or why it has none.
    pub open spec fn data_type(self, schema: SchemaView) -> Result<DataTypeView, ErrorView>
        decreases self,
    {
        match self {
            ExprView::Column(name) => match resolve(schema.names(), name) {
                Ok(i) => Ok(schema.fields[i].data_type),
                Err(error) => Err(error),
            },
            ExprView::Literal(value) => Ok(value.data_type()),
            ExprView::Binary { left, op, right } => match left.data_type(schema) {
                Err(error) => Err(error),
                Ok(left_type) => match right.data_type(schema) {
                    Err(error) => Err(error),
                    Ok(right_type) => binary_type(op, left_type, right_type),
                },
            },
            ExprView::IsNull { .. } => Ok(DataTypeView::Boolean),
            ExprView::Cast { data_type, .. } => Ok(data_type),
            ExprView::Alias(expr, _) => expr.data_type(schema),
            ExprView::Aggregate { function, expr, .. } => match function {
                AggregateFunction::Count => Ok(DataTypeView::UInt64),
                AggregateFunction::Min | AggregateFunction::Max => expr.data_type(schema),
                AggregateFunction::Sum | AggregateFunction::Avg => match expr.data_type(schema) {
                    Err(error) => Err(error),
                    Ok(input) => if input.is_numeric() {
                        Ok(DataTypeView::Float64)
                    } else {
                        Err(
                            ErrorView::Planning(
                                function.text() + " requires a numeric argument, got "@
                                    + input.name(),
                            ),
                        )
                    },
                },
            },
            ExprView::Wildcard => Err(
                ErrorView::Planning("wildcard must be expanded before type inference"@),
            ),
        }
    }

    /// The field that an expression puts out.
    pub open spec fn field(self, schema: SchemaView) -> Result<FieldView, ErrorView> {
        match self.data_type(schema) {
            Ok(data_type) => Ok(plain_field(self.name(), data_type, true)),
            Err(error) => Err(error),
        }
    }
}

/// The type of an operator's result, given those of its operands, or why it has none.
pub open spec fn binary_type(op: Operator, left: DataTypeView, right: DataTypeView) -> Result<
    DataTypeView,
    ErrorView,
> {
    if op.is_logical() {
        if left.is_boolean_or_null() && right.is_boolean_or_null() {
            Ok(DataTypeView::Boolean)
        } else {
            Err(
                ErrorView::Planning(
                    op.text() + " requires Boolean operands, got "@ + left.name() + " and "@
                        + right.name(),
                ),
            )
        }
    } else if op.is_comparison() {
        if left == right || left is Null || right is Null || common_numeric(left, right) is Some {
            Ok(DataTypeView::Boolean)
        } else {
            Err(ErrorView::Planning("cannot compare "@ + left.name() + " and "@ + right.name()))
        }
    } else {
        match common_numeric(left, right) {
            Some(data_type) => Ok(data_type),
            None => Err(
                ErrorView::Planning(
                    op.text() + " requires numeric operands, got "@ + left.name() + " and "@
                        + right.name(),
                ),
            ),
        }
    }
}

/// A type that was inferred, as contracts see it.
pub open spec fn type_outcome(r: Result<DataType, SparkXError>) -> Result<DataTypeView, ErrorView> {
    match r {
        Ok(data_type) => Ok(data_type@),
        Err(error) => Err(error@),
    }
}

/// A field that was inferred, as contracts see it.
pub open spec fn field_outcome(r: Result<Field, SparkXError>) -> Result<FieldView, ErrorView> {
    match r {
        Ok(field) => Ok(field@),
        Err(error) => Err(error@),
    }
}

fn infer_binary(op: Operator, left: &DataType, right: &DataType) -> (r: Result<
    DataType,
    SparkXError,
>)
    ensures
        type_outcome(r) == binary_type(op, left@, right@),
{
    if op.logical() {
        if left.is_boolean_or_null() && right.is_boolean_or_null() {
            return Ok(DataType::Boolean);
        }
        let mut message: String = join(op.to_text(), " requires Boolean operands, got ");
        message.append(left.to_text().as_str());
        message.append(" and ");
        message.append(right.to_text().as_str());
        return Err(SparkXError::planning(message));
    }
    if op.arithmetic() {
        return match common_numeric_type(left, right) {
            Some(data_type) => Ok(data_type),
            None => {
                let mut message: String = join(op.to_text(), " requires numeric operands, got ");
                message.append(left.to_text().as_str());
                message.append(" and ");
                message.append(right.to_text().as_str());
                Err(SparkXError::planning(message))
            },
        };
    }
    if left.same(right) || left.is_null() || right.is_null() || common_numeric_type(
        left,
        right,
    ).is_some() {
        return Ok(DataType::Boolean);
    }
    let mut message: String = join("cannot compare ", left.to_text().as_str());
    message.append(" and ");
    message.append(right.to_text().as_str());
    Err(SparkXError::planning(message))
}

impl Expr {
    /// The type of this expression over the columns of a schema.
    pub fn data_type(&self, schema: &Schema) -> (r: Result<DataType, SparkXError>)
        ensures
            type_outcome(r) == self@.data_type(schema@),
        decreases self,
    {
        match self {
            Expr::Column(name) => match find_field(schema, name.as_str()) {
                Ok(field) => Ok(field.data_type.clone()),
                Err(error) => Err(error),
            },
            Expr::Literal(value) => Ok(value.data_type()),
            Expr::Binary { left, op, right } => {
                let left_type = match left.data_type(schema) {
                    Ok(data_type) => data_type,
                    Err(error) => return Err(error),
                };
                let right_type = match right.data_type(schema) {
                    Ok(data_type) => data_type,
                    Err(error) => return Err(error),
                };
                infer_binary(*op, &left_type, &right_type)
            },
            Expr::IsNull { .. } => Ok(DataType::Boolean),
            Expr::Cast { data_type, .. } => Ok(data_type.clone()),
            Expr::Alias(expr, _) => expr.data_type(schema),
            Expr::Aggregate { function, expr, .. } => match function {
                AggregateFunction::Count => Ok(DataType::UInt64),
                AggregateFunction::Sum | AggregateFunction::Avg => {
                    let input = match expr.data_type(schema) {
                        Ok(data_type) => data_type,
                        Err(error) => return Err(error),
                    };
                    if input.is_numeric() {
                        return Ok(DataType::Float64);
                    }
                    let mut message: String = join(
                        function.to_text(),
                        " requires a numeric argument, got ",
                    );
                    message.append(input.to_text().as_str());
                    Err(SparkXError::planning(message))
                },
                AggregateFunction::Min | AggregateFunction::Max => expr.data_type(schema),
            },
            Expr::Wildcard => Err(
                SparkXError::planning("wildcard must be expanded before type inference".to_owned()),
            ),
        }
    }

    /// The field that this expression puts out.
    pub fn field(&self, schema: &Schema) -> (r: Result<Field, SparkXError>)
        ensures
            field_outcome(r) == self@.field(schema@),
    {
        match self.data_type(schema) {
            Ok(data_type) => Ok(Field::new(self.name(), data_type, true)),
            Err(error) => Err(error),
        }
    }
}

pub open spec fn expr_views(exprs: Seq<Expr>) -> Seq<ExprView> {
    Seq::new(exprs.len(), |i: int| exprs[i]@)
}

pub fn clone_exprs(exprs: &Vec<Expr>) -> (r: Vec<Expr>)
    ensures
        expr_views(r@) == expr_views(exprs@),
{
    let mut r: Vec<Expr> = Vec::new();
    for i in 0..exprs.len()
        invariant
            r.len() == i,
            forall|k: int| 0 <= k < i ==> (#[trigger] r@[k])@ == exprs@[k]@,
    {
        r.push(exprs[i].clone());
    }
    proof {
        assert(expr_views(r@) =~= expr_views(exprs@));
    }
    r
}

/// How a list of expressions is written.
pub open spec fn exprs_text(exprs: Seq<ExprView>) -> Seq<char> {
    list(Seq::new(exprs.len(), |i: int| exprs[i].text()))
}

/// How a list of expressions is written.
pub fn display_exprs(exprs: &Vec<Expr>) -> (r: String)
    ensures
        r@ == exprs_text(expr_views(exprs@)),
{
    let mut texts: Vec<String> = Vec::new();
    for i in 0..exprs.len()
        invariant
            texts.len() == i,
            forall|k: int| 0 <= k < i ==> (#[trigger] texts@[k])@ == exprs@[k]@.text(),
    {
        texts.push(exprs[i].to_text());
    }
    proof {
        let views = expr_views(exprs@);
        assert(text_views(texts@) =~= Seq::new(views.len(), |i: int| views[i].text()));
    }
    comma_list(&texts)
}

} // verus!

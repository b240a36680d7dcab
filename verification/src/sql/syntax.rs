//! The parts of parsed SQL that the engine reads.

use vstd::prelude::*;

verus! {

/// An expression, with the text that the parser prints for it.
#[derive(Debug)]
pub struct SqlExpr {
    pub text: String,
    pub kind: SqlKind,
}

#[derive(Debug)]
pub enum SqlKind {
    Identifier(String),
    /// A name with its qualifiers, from the outermost.
    Compound(Vec<String>),
    /// A number as it was written.
    Number(String),
    Text(String),
    Boolean(bool),
    Null,
    /// A literal of another kind.
    OtherLiteral,
    Nested(Box<SqlExpr>),
    Binary { left: Box<SqlExpr>, op: SqlOperator, right: Box<SqlExpr> },
    IsNull { expr: Box<SqlExpr>, negated: bool },
    /// A plain cast, with the name of the type.
    Cast { expr: Box<SqlExpr>, target: String },
    Function(SqlFunction),
    Other,
}

#[derive(Debug)]
pub enum SqlOperator {
    Eq,
    NotEq,
    Lt,
    LtEq,
    Gt,
    GtEq,
    And,
    Or,
    Plus,
    Minus,
    Multiply,
    Divide,
    /// Another operator, as it is printed.
    Other(String),
}

/// A call of a function.
#[derive(Debug)]
pub struct SqlFunction {
    pub name: String,
    /// Whether the call has a window, a filter, parameters or the like.
    pub is_special: bool,
    pub arguments: SqlArguments,
}

#[derive(Debug)]
pub enum SqlArguments {
    /// No list of arguments.
    Missing,
    /// A list without or with more than one argument.
    NotOne,
    One { argument: Box<SqlArgument>, has_clauses: bool, distinct: bool },
}

#[derive(Debug)]
pub enum SqlArgument {
    Expr(SqlExpr),
    Wildcard,
    /// Another argument, as it is printed.
    Other(String),
}

/// What a SELECT lists.
#[derive(Debug)]
pub enum SqlItem {
    Expr(SqlExpr),
    Aliased { expr: SqlExpr, alias: String },
    Wildcard,
    QualifiedWildcard,
    MultipleAliases,
}

#[derive(Debug)]
pub enum SqlRelation {
    Table { name: String, alias: Option<String>, has_arguments: bool },
    /// Another relation, as it is printed.
    Other(String),
}

#[derive(Debug)]
pub enum SqlConstraint {
    On(SqlExpr),
    Other,
}

#[derive(Debug)]
pub enum SqlJoinOperator {
    Inner(SqlConstraint),
    Left(SqlConstraint),
    /// Another operator, as it is printed.
    Other(String),
}

#[derive(Debug)]
pub struct SqlJoin {
    pub relation: SqlRelation,
    pub operator: SqlJoinOperator,
}

#[derive(Debug)]
pub struct SqlFrom {
    pub relation: SqlRelation,
    pub joins: Vec<SqlJoin>,
}

#[derive(Debug)]
pub enum SqlGroupBy {
    Expressions { exprs: Vec<SqlExpr>, has_modifiers: bool },
    All,
}

#[derive(Debug)]
pub struct SqlSelect {
    pub distinct: bool,
    pub from: Vec<SqlFrom>,
    pub selection: Option<SqlExpr>,
    pub projection: Vec<SqlItem>,
    pub group_by: SqlGroupBy,
    pub having: Option<SqlExpr>,
}

#[derive(Debug)]
pub struct SqlOrder {
    pub expr: SqlExpr,
    pub ascending: Option<bool>,
    pub nulls_first: Option<bool>,
    pub with_fill: bool,
}

#[derive(Debug)]
pub struct SqlOrderBy {
    pub interpolate: bool,
    /// The keys, or `None` for all columns.
    pub keys: Option<Vec<SqlOrder>>,
}

#[derive(Debug)]
pub enum SqlLimit {
    Limit { limit: Option<SqlExpr>, has_offset: bool },
    OffsetComma,
}

#[derive(Debug)]
pub struct SqlQuery {
    pub has_with: bool,
    /// The SELECT, or `None` for a combination of queries.
    pub body: Option<SqlSelect>,
    pub order_by: Option<SqlOrderBy>,
    pub limit: Option<SqlLimit>,
}

#[derive(Debug)]
pub enum SqlStatement {
    Query(SqlQuery),
    /// Another statement, as it is printed.
    Other(String),
}

} // verus!

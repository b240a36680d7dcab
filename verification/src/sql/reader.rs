//! From the parser's syntax tree to what the engine reads of it.

use crate::error::SparkXError;
use crate::sql::syntax::{
    SqlArgument, SqlArguments, SqlConstraint, SqlExpr, SqlFrom, SqlFunction, SqlGroupBy, SqlItem,
    SqlJoin, SqlJoinOperator, SqlKind, SqlLimit, SqlOperator, SqlOrder, SqlOrderBy, SqlQuery,
    SqlRelation, SqlSelect, SqlStatement,
};
use crate::sql::tree::{
    field, flag_of, is_missing, items, json_tree, node_text, parse_sql, parsed_sql,
    parts_are_smaller, show_node, text_of, tree_of, trees, JsonView, NodeKind,
};
use crate::text::same_text;
use serde_json::Value;
use vstd::prelude::*;

verus! {

/// The text that a value is, and nothing where it is none.
pub open spec fn word(tree: JsonView) -> Seq<char> {
    match tree.text() {
        Some(text) => text,
        None => Seq::empty(),
    }
}

fn read_word(value: Option<&Value>) -> (r: String)
    ensures
        r@ == word(tree_of(value)),
{
    match text_of(value) {
        Some(text) => text,
        None => {
            let r = String::new();
            proof {
                assert(r@ =~= Seq::empty());
            }
            r
        },
    }
}

fn is_word(value: Option<&Value>, text: &str) -> (r: bool)
    ensures
        r == tree_of(value).is_text(text@),
{
    match text_of(value) {
        Some(found) => same_text(found.as_str(), text),
        None => false,
    }
}

fn is_true(value: Option<&Value>) -> (r: bool)
    ensures
        r == (tree_of(value).flag() == Some(true)),
{
    match flag_of(value) {
        Some(flag) => flag,
        None => false,
    }
}

/// The first item of a list, and nothing where there is none.
pub open spec fn first_item(tree: JsonView) -> JsonView {
    if tree.items().len() > 0 {
        tree.items()[0]
    } else {
        JsonView::Null
    }
}

fn read_first<'a>(value: Option<&'a Value>) -> (r: Option<&'a Value>)
    ensures
        tree_of(r) == first_item(tree_of(value)),
{
    let list = items(value);
    if list.len() > 0 {
        proof {
            assert(trees(list@)[0] == json_tree(*list@[0]));
        }
        Some(list[0])
    } else {
        None
    }
}

/// Whether an operator is the one that a tree is.
pub open spec fn is_operator(tree: JsonView, op: SqlOperator) -> bool {
    if tree.is_text("Eq"@) {
        op is Eq
    } else if tree.is_text("NotEq"@) {
        op is NotEq
    } else if tree.is_text("Lt"@) {
        op is Lt
    } else if tree.is_text("LtEq"@) {
        op is LtEq
    } else if tree.is_text("Gt"@) {
        op is Gt
    } else if tree.is_text("GtEq"@) {
        op is GtEq
    } else if tree.is_text("And"@) {
        op is And
    } else if tree.is_text("Or"@) {
        op is Or
    } else if tree.is_text("Plus"@) {
        op is Plus
    } else if tree.is_text("Minus"@) {
        op is Minus
    } else if tree.is_text("Multiply"@) {
        op is Multiply
    } else if tree.is_text("Divide"@) {
        op is Divide
    } else {
        op matches SqlOperator::Other(text) && text@ == node_text(NodeKind::Operator, tree)
    }
}

fn read_operator(value: Option<&Value>) -> (r: SqlOperator)
    ensures
        is_operator(tree_of(value), r),
{
    if is_word(value, "Eq") {
        SqlOperator::Eq
    } else if is_word(value, "NotEq") {
        SqlOperator::NotEq
    } else if is_word(value, "Lt") {
        SqlOperator::Lt
    } else if is_word(value, "LtEq") {
        SqlOperator::LtEq
    } else if is_word(value, "Gt") {
        SqlOperator::Gt
    } else if is_word(value, "GtEq") {
        SqlOperator::GtEq
    } else if is_word(value, "And") {
        SqlOperator::And
    } else if is_word(value, "Or") {
        SqlOperator::Or
    } else if is_word(value, "Plus") {
        SqlOperator::Plus
    } else if is_word(value, "Minus") {
        SqlOperator::Minus
    } else if is_word(value, "Multiply") {
        SqlOperator::Multiply
    } else if is_word(value, "Divide") {
        SqlOperator::Divide
    } else {
        SqlOperator::Other(show_node(NodeKind::Operator, value))
    }
}

/// Whether a literal is the one that a tree is.
pub open spec fn is_literal(tree: JsonView, kind: SqlKind) -> bool {
    if tree.has("Number"@) {
        kind matches SqlKind::Number(text) && text@ == word(first_item(tree.get("Number"@)))
    } else if tree.has("SingleQuotedString"@) {
        kind matches SqlKind::Text(text) && text@ == word(tree.get("SingleQuotedString"@))
    } else if tree.has("DoubleQuotedString"@) {
        kind matches SqlKind::Text(text) && text@ == word(tree.get("DoubleQuotedString"@))
    } else if tree.has("Boolean"@) {
        kind matches SqlKind::Boolean(value) && value == (tree.get("Boolean"@).flag() == Some(true))
    } else if tree.is_text("Null"@) {
        kind is Null
    } else {
        kind is OtherLiteral
    }
}

fn read_literal(value: Option<&Value>) -> (r: SqlKind)
    ensures
        is_literal(tree_of(value), r),
{
    if let Some(number) = field(value, "Number") {
        SqlKind::Number(read_word(read_first(Some(number))))
    } else if let Some(text) = field(value, "SingleQuotedString") {
        SqlKind::Text(read_word(Some(text)))
    } else if let Some(text) = field(value, "DoubleQuotedString") {
        SqlKind::Text(read_word(Some(text)))
    } else if let Some(flag) = field(value, "Boolean") {
        SqlKind::Boolean(is_true(Some(flag)))
    } else if is_word(value, "Null") {
        SqlKind::Null
    } else {
        SqlKind::OtherLiteral
    }
}

/// Whether texts are the names that a list of identifiers holds.
pub open spec fn are_names(trees: Seq<JsonView>, names: Seq<String>) -> bool {
    &&& names.len() == trees.len()
    &&& forall|i: int|
        0 <= i < names.len() ==> (#[trigger] names[i])@ == word(trees[i].get("value"@))
}

fn read_names(value: Option<&Value>) -> (r: Vec<String>)
    ensures
        are_names(tree_of(value).items(), r@),
{
    let list = items(value);
    let ghost parts = trees(list@);
    let mut names: Vec<String> = Vec::new();
    for i in 0..list.len()
        invariant
            parts == trees(list@),
            names.len() == i,
            forall|k: int| 0 <= k < i ==> (#[trigger] names@[k])@ == word(parts[k].get("value"@)),
    {
        proof {
            assert(parts[i as int] == json_tree(*list@[i as int]));
        }
        names.push(read_word(field(Some(list[i]), "value")));
    }
    names
}

/// Whether a cast is a plain one.
pub open spec fn is_plain_cast(tree: JsonView) -> bool {
    (tree.get("kind"@).is_text("Cast"@) || tree.get("kind"@).is_text("DoubleColon"@)) && tree.get(
        "format"@,
    ) is Null
}

/// Whether a call has a window, a filter, parameters or the like.
pub open spec fn is_special_call(tree: JsonView) -> bool {
    ||| !(tree.get("over"@) is Null)
    ||| !(tree.get("filter"@) is Null)
    ||| !(tree.get("null_treatment"@) is Null)
    ||| tree.get("within_group"@).items().len() > 0
    ||| !tree.get("parameters"@).is_text("None"@)
}

/// Whether an expression is the one that a tree is.
pub open spec fn is_expr(tree: JsonView, expr: SqlExpr) -> bool
    decreases expr,
{
    expr.text@ == node_text(NodeKind::Expr, tree) && if tree.has("Identifier"@) {
        expr.kind matches SqlKind::Identifier(name) && name@ == word(
            tree.get("Identifier"@).get("value"@),
        )
    } else if tree.has("CompoundIdentifier"@) {
        expr.kind matches SqlKind::Compound(parts) && are_names(
            tree.get("CompoundIdentifier"@).items(),
            parts@,
        )
    } else if tree.has("Value"@) {
        is_literal(tree.get("Value"@).get("value"@), expr.kind)
    } else if tree.has("Nested"@) {
        expr.kind matches SqlKind::Nested(inner) && is_expr(tree.get("Nested"@), *inner)
    } else if tree.has("BinaryOp"@) {
        expr.kind matches SqlKind::Binary { left, op, right } && is_expr(
            tree.get("BinaryOp"@).get("left"@),
            *left,
        ) && is_operator(tree.get("BinaryOp"@).get("op"@), op) && is_expr(
            tree.get("BinaryOp"@).get("right"@),
            *right,
        )
    } else if tree.has("IsNull"@) {
        expr.kind matches SqlKind::IsNull { expr: inner, negated } && !negated && is_expr(
            tree.get("IsNull"@),
            *inner,
        )
    } else if tree.has("IsNotNull"@) {
        expr.kind matches SqlKind::IsNull { expr: inner, negated } && negated && is_expr(
            tree.get("IsNotNull"@),
            *inner,
        )
    } else if tree.has("Cast"@) && is_plain_cast(tree.get("Cast"@)) {
        expr.kind matches SqlKind::Cast { expr: inner, target } && is_expr(
            tree.get("Cast"@).get("expr"@),
            *inner,
        ) && target@ == node_text(NodeKind::Type, tree.get("Cast"@).get("data_type"@))
    } else if tree.has("Function"@) {
        expr.kind matches SqlKind::Function(function) && is_function(
            tree.get("Function"@),
            function,
        )
    } else {
        expr.kind is Other
    }
}

/// Whether a call is the one that a tree is.
pub open spec fn is_function(tree: JsonView, function: SqlFunction) -> bool
    decreases function,
{
    &&& function.name@ == node_text(NodeKind::Name, tree.get("name"@))
    &&& function.is_special == is_special_call(tree)
    &&& is_arguments(tree.get("args"@), function.arguments)
}

/// Whether arguments are those that a tree is.
pub open spec fn is_arguments(tree: JsonView, arguments: SqlArguments) -> bool
    decreases arguments,
{
    if !tree.has("List"@) {
        arguments is Missing
    } else if tree.get("List"@).get("args"@).items().len() != 1 {
        arguments is NotOne
    } else {
        arguments matches SqlArguments::One { argument, has_clauses, distinct } && is_argument(
            tree.get("List"@).get("args"@).items()[0],
            *argument,
        ) && has_clauses == (tree.get("List"@).get("clauses"@).items().len() > 0) && distinct
            == tree.get("List"@).get("duplicate_treatment"@).is_text("Distinct"@)
    }
}

/// Whether an argument is the one that a tree is.
pub open spec fn is_argument(tree: JsonView, argument: SqlArgument) -> bool
    decreases argument,
{
    if tree.get("Unnamed"@).has("Expr"@) {
        argument matches SqlArgument::Expr(expr) && is_expr(tree.get("Unnamed"@).get("Expr"@), expr)
    } else if tree.get("Unnamed"@).is_text("Wildcard"@) {
        argument is Wildcard
    } else {
        argument matches SqlArgument::Other(text) && text@ == node_text(NodeKind::Argument, tree)
    }
}

/// One where there is a value, and nothing where there is none.
pub open spec fn presence(value: Option<&Value>) -> int {
    if value is Some {
        1
    } else {
        0
    }
}

/// The expression that a value is.
pub fn read_expr(value: Option<&Value>) -> (r: SqlExpr)
    ensures
        is_expr(tree_of(value), r),
    decreases presence(value), tree_of(value), 4int,
{
    let text = show_node(NodeKind::Expr, value);
    if value.is_none() {
        return SqlExpr { text, kind: SqlKind::Other };
    }
    let ghost tree = tree_of(value);
    if let Some(name) = field(value, "Identifier") {
        return SqlExpr { text, kind: SqlKind::Identifier(read_word(field(Some(name), "value"))) };
    }
    if let Some(parts) = field(value, "CompoundIdentifier") {
        return SqlExpr { text, kind: SqlKind::Compound(read_names(Some(parts))) };
    }
    if let Some(literal) = field(value, "Value") {
        return SqlExpr { text, kind: read_literal(field(Some(literal), "value")) };
    }
    if let Some(inner) = field(value, "Nested") {
        proof {
            parts_are_smaller(tree, "Nested"@);
        }
        return SqlExpr { text, kind: SqlKind::Nested(Box::new(read_expr(Some(inner)))) };
    }
    if let Some(parts) = field(value, "BinaryOp") {
        proof {
            parts_are_smaller(tree, "BinaryOp"@);
            parts_are_smaller(tree.get("BinaryOp"@), "left"@);
            parts_are_smaller(tree.get("BinaryOp"@), "right"@);
        }
        let left = read_expr(field(Some(parts), "left"));
        let op = read_operator(field(Some(parts), "op"));
        let right = read_expr(field(Some(parts), "right"));
        return SqlExpr {
            text,
            kind: SqlKind::Binary { left: Box::new(left), op, right: Box::new(right) },
        };
    }
    if let Some(inner) = field(value, "IsNull") {
        proof {
            parts_are_smaller(tree, "IsNull"@);
        }
        return SqlExpr {
            text,
            kind: SqlKind::IsNull { expr: Box::new(read_expr(Some(inner))), negated: false },
        };
    }
    if let Some(inner) = field(value, "IsNotNull") {
        proof {
            parts_are_smaller(tree, "IsNotNull"@);
        }
        return SqlExpr {
            text,
            kind: SqlKind::IsNull { expr: Box::new(read_expr(Some(inner))), negated: true },
        };
    }
    if let Some(cast) = field(value, "Cast") {
        let kind = field(Some(cast), "kind");
        if (is_word(kind, "Cast") || is_word(kind, "DoubleColon")) && is_missing(
            field(Some(cast), "format"),
        ) {
            proof {
                parts_are_smaller(tree, "Cast"@);
                parts_are_smaller(tree.get("Cast"@), "expr"@);
            }
            let inner = read_expr(field(Some(cast), "expr"));
            let target = show_node(NodeKind::Type, field(Some(cast), "data_type"));
            return SqlExpr { text, kind: SqlKind::Cast { expr: Box::new(inner), target } };
        }
    }
    if let Some(function) = field(value, "Function") {
        proof {
            parts_are_smaller(tree, "Function"@);
        }
        return SqlExpr { text, kind: SqlKind::Function(read_function(Some(function))) };
    }
    SqlExpr { text, kind: SqlKind::Other }
}

fn read_function(value: Option<&Value>) -> (r: SqlFunction)
    ensures
        is_function(tree_of(value), r),
    decreases presence(value), tree_of(value), 3int,
{
    let name = show_node(NodeKind::Name, field(value, "name"));
    let is_special: bool = !is_missing(field(value, "over")) || !is_missing(field(value, "filter"))
        || !is_missing(field(value, "null_treatment")) || has_items(field(value, "within_group"))
        || !is_word(field(value, "parameters"), "None");
    proof {
        parts_are_smaller(tree_of(value), "args"@);
    }
    let arguments = read_arguments(field(value, "args"));
    SqlFunction { name, is_special, arguments }
}

fn has_items(value: Option<&Value>) -> (r: bool)
    ensures
        r == (tree_of(value).items().len() > 0),
{
    let list = items(value);
    proof {
        assert(trees(list@).len() == list.len());
    }
    list.len() > 0
}

fn read_arguments(value: Option<&Value>) -> (r: SqlArguments)
    ensures
        is_arguments(tree_of(value), r),
    decreases presence(value), tree_of(value), 2int,
{
    let list = match field(value, "List") {
        Some(list) => list,
        None => return SqlArguments::Missing,
    };
    let arguments = field(Some(list), "args");
    let found = items(arguments);
    proof {
        assert(trees(found@).len() == found.len());
    }
    if found.len() != 1 {
        return SqlArguments::NotOne;
    }
    proof {
        let tree = tree_of(value);
        parts_are_smaller(tree, "List"@);
        parts_are_smaller(tree.get("List"@), "args"@);
        parts_are_smaller(tree.get("List"@).get("args"@), "args"@);
        assert(trees(found@)[0] == json_tree(*found@[0]));
        assert(tree.get("List"@).has("args"@));
        assert(decreases_to!(
            tree.get("List"@).get("args"@) => tree.get("List"@).get("args"@).items()[0]
        ));
    }
    let argument = read_argument(Some(found[0]));
    SqlArguments::One {
        argument: Box::new(argument),
        has_clauses: has_items(field(Some(list), "clauses")),
        distinct: is_word(field(Some(list), "duplicate_treatment"), "Distinct"),
    }
}

fn read_argument(value: Option<&Value>) -> (r: SqlArgument)
    ensures
        is_argument(tree_of(value), r),
    decreases presence(value), tree_of(value), 1int,
{
    let unnamed = field(value, "Unnamed");
    if let Some(expr) = field(unnamed, "Expr") {
        proof {
            parts_are_smaller(tree_of(value), "Unnamed"@);
            parts_are_smaller(tree_of(unnamed), "Expr"@);
        }
        return SqlArgument::Expr(read_expr(Some(expr)));
    }
    if is_word(unnamed, "Wildcard") {
        return SqlArgument::Wildcard;
    }
    SqlArgument::Other(show_node(NodeKind::Argument, value))
}

/// Whether expressions are those of a list.
pub open spec fn are_exprs(trees: Seq<JsonView>, exprs: Seq<SqlExpr>) -> bool {
    &&& exprs.len() == trees.len()
    &&& forall|i: int| 0 <= i < exprs.len() ==> is_expr(trees[i], #[trigger] exprs[i])
}

fn read_exprs(value: Option<&Value>) -> (r: Vec<SqlExpr>)
    ensures
        are_exprs(tree_of(value).items(), r@),
{
    let list = items(value);
    let ghost parts = trees(list@);
    let mut exprs: Vec<SqlExpr> = Vec::new();
    for i in 0..list.len()
        invariant
            parts == trees(list@),
            exprs.len() == i,
            forall|k: int| 0 <= k < i ==> is_expr(parts[k], #[trigger] exprs@[k]),
    {
        proof {
            assert(parts[i as int] == json_tree(*list@[i as int]));
        }
        exprs.push(read_expr(Some(list[i])));
    }
    exprs
}

/// Whether an expression that may be missing is the one that a tree is.
pub open spec fn is_optional_expr(tree: JsonView, expr: Option<SqlExpr>) -> bool {
    match expr {
        Some(expr) => !(tree is Null) && is_expr(tree, expr),
        None => tree is Null,
    }
}

fn read_optional_expr(value: Option<&Value>) -> (r: Option<SqlExpr>)
    ensures
        is_optional_expr(tree_of(value), r),
{
    if is_missing(value) {
        None
    } else {
        Some(read_expr(value))
    }
}

/// Whether what a SELECT lists is what a tree is.
pub open spec fn is_item(tree: JsonView, item: SqlItem) -> bool {
    if tree.has("UnnamedExpr"@) {
        item matches SqlItem::Expr(expr) && is_expr(tree.get("UnnamedExpr"@), expr)
    } else if tree.has("ExprWithAlias"@) {
        item matches SqlItem::Aliased { expr, alias } && is_expr(
            tree.get("ExprWithAlias"@).get("expr"@),
            expr,
        ) && alias@ == word(tree.get("ExprWithAlias"@).get("alias"@).get("value"@))
    } else if tree.has("Wildcard"@) {
        item is Wildcard
    } else if tree.has("QualifiedWildcard"@) {
        item is QualifiedWildcard
    } else {
        item is MultipleAliases
    }
}

fn read_item(value: Option<&Value>) -> (r: SqlItem)
    ensures
        is_item(tree_of(value), r),
{
    if let Some(expr) = field(value, "UnnamedExpr") {
        SqlItem::Expr(read_expr(Some(expr)))
    } else if let Some(parts) = field(value, "ExprWithAlias") {
        SqlItem::Aliased {
            expr: read_expr(field(Some(parts), "expr")),
            alias: read_word(field(field(Some(parts), "alias"), "value")),
        }
    } else if field(value, "Wildcard").is_some() {
        SqlItem::Wildcard
    } else if field(value, "QualifiedWildcard").is_some() {
        SqlItem::QualifiedWildcard
    } else {
        SqlItem::MultipleAliases
    }
}

/// Whether a relation is the one that a tree is.
pub open spec fn is_relation(tree: JsonView, relation: SqlRelation) -> bool {
    if tree.has("Table"@) {
        let table = tree.get("Table"@);
        relation matches SqlRelation::Table { name, alias, has_arguments } && name@ == node_text(
            NodeKind::Name,
            table.get("name"@),
        ) && has_arguments == !(table.get("args"@) is Null) && match alias {
            Some(alias) => !(table.get("alias"@) is Null) && alias@ == word(
                table.get("alias"@).get("name"@).get("value"@),
            ),
            None => table.get("alias"@) is Null,
        }
    } else {
        relation matches SqlRelation::Other(text) && text@ == node_text(NodeKind::Relation, tree)
    }
}

fn read_relation(value: Option<&Value>) -> (r: SqlRelation)
    ensures
        is_relation(tree_of(value), r),
{
    match field(value, "Table") {
        None => SqlRelation::Other(show_node(NodeKind::Relation, value)),
        Some(table) => {
            let alias = field(Some(table), "alias");
            SqlRelation::Table {
                name: show_node(NodeKind::Name, field(Some(table), "name")),
                alias: if is_missing(alias) {
                    None
                } else {
                    Some(read_word(field(field(alias, "name"), "value")))
                },
                has_arguments: !is_missing(field(Some(table), "args")),
            }
        },
    }
}

/// Whether the constraint of a join is the one that a tree is.
pub open spec fn is_constraint(tree: JsonView, constraint: SqlConstraint) -> bool {
    if tree.has("On"@) {
        constraint matches SqlConstraint::On(expr) && is_expr(tree.get("On"@), expr)
    } else {
        constraint is Other
    }
}

fn read_constraint(value: Option<&Value>) -> (r: SqlConstraint)
    ensures
        is_constraint(tree_of(value), r),
{
    match field(value, "On") {
        Some(condition) => SqlConstraint::On(read_expr(Some(condition))),
        None => SqlConstraint::Other,
    }
}

/// Whether a join is the one that a tree is.
pub open spec fn is_join(tree: JsonView, join: SqlJoin) -> bool {
    let operator = tree.get("join_operator"@);
    is_relation(tree.get("relation"@), join.relation) && if operator.has("Join"@) {
        join.operator matches SqlJoinOperator::Inner(on) && is_constraint(operator.get("Join"@), on)
    } else if operator.has("Inner"@) {
        join.operator matches SqlJoinOperator::Inner(on) && is_constraint(
            operator.get("Inner"@),
            on,
        )
    } else if operator.has("Left"@) {
        join.operator matches SqlJoinOperator::Left(on) && is_constraint(operator.get("Left"@), on)
    } else if operator.has("LeftOuter"@) {
        join.operator matches SqlJoinOperator::Left(on) && is_constraint(
            operator.get("LeftOuter"@),
            on,
        )
    } else {
        join.operator matches SqlJoinOperator::Other(text) && text@ == node_text(
            NodeKind::Join,
            tree,
        )
    }
}

fn read_join(value: Option<&Value>) -> (r: SqlJoin)
    ensures
        is_join(tree_of(value), r),
{
    let relation = read_relation(field(value, "relation"));
    let kind = field(value, "join_operator");
    let operator = if let Some(on) = field(kind, "Join") {
        SqlJoinOperator::Inner(read_constraint(Some(on)))
    } else if let Some(on) = field(kind, "Inner") {
        SqlJoinOperator::Inner(read_constraint(Some(on)))
    } else if let Some(on) = field(kind, "Left") {
        SqlJoinOperator::Left(read_constraint(Some(on)))
    } else if let Some(on) = field(kind, "LeftOuter") {
        SqlJoinOperator::Left(read_constraint(Some(on)))
    } else {
        SqlJoinOperator::Other(show_node(NodeKind::Join, value))
    };
    SqlJoin { relation, operator }
}

/// Whether a FROM clause is the one that a tree is.
pub open spec fn is_from(tree: JsonView, from: SqlFrom) -> bool {
    &&& is_relation(tree.get("relation"@), from.relation)
    &&& from.joins.len() == tree.get("joins"@).items().len()
    &&& forall|i: int|
        0 <= i < from.joins.len() ==> is_join(
            tree.get("joins"@).items()[i],
            #[trigger] from.joins@[i],
        )
}

fn read_from(value: Option<&Value>) -> (r: SqlFrom)
    ensures
        is_from(tree_of(value), r),
{
    let relation = read_relation(field(value, "relation"));
    let list = items(field(value, "joins"));
    let ghost parts = trees(list@);
    let mut joins: Vec<SqlJoin> = Vec::new();
    for i in 0..list.len()
        invariant
            parts == trees(list@),
            joins.len() == i,
            forall|k: int| 0 <= k < i ==> is_join(parts[k], #[trigger] joins@[k]),
    {
        proof {
            assert(parts[i as int] == json_tree(*list@[i as int]));
        }
        joins.push(read_join(Some(list[i])));
    }
    SqlFrom { relation, joins }
}

/// Whether a GROUP BY is the one that a tree is.
pub open spec fn is_group_by(tree: JsonView, group_by: SqlGroupBy) -> bool {
    if tree.has("Expressions"@) {
        let parts = tree.get("Expressions"@).items();
        group_by matches SqlGroupBy::Expressions { exprs, has_modifiers } && are_exprs(
            first_item(tree.get("Expressions"@)).items(),
            exprs@,
        ) && has_modifiers == (parts.len() > 1 && parts[1].items().len() > 0)
    } else {
        group_by is All
    }
}

fn read_group_by(value: Option<&Value>) -> (r: SqlGroupBy)
    ensures
        is_group_by(tree_of(value), r),
{
    match field(value, "Expressions") {
        None => SqlGroupBy::All,
        Some(parts) => {
            let list = items(Some(parts));
            proof {
                assert(trees(list@).len() == list.len());
                if list.len() > 1 {
                    assert(trees(list@)[1] == json_tree(*list@[1]));
                }
            }
            SqlGroupBy::Expressions {
                exprs: read_exprs(read_first(Some(parts))),
                has_modifiers: list.len() > 1 && has_items(Some(list[1])),
            }
        },
    }
}

/// Whether a SELECT is the one that a tree is.
pub open spec fn is_select(tree: JsonView, select: SqlSelect) -> bool {
    &&& select.distinct == !(tree.get("distinct"@) is Null)
    &&& select.from.len() == tree.get("from"@).items().len()
    &&& forall|i: int|
        0 <= i < select.from.len() ==> is_from(
            tree.get("from"@).items()[i],
            #[trigger] select.from@[i],
        )
    &&& is_optional_expr(tree.get("selection"@), select.selection)
    &&& select.projection.len() == tree.get("projection"@).items().len()
    &&& forall|i: int|
        0 <= i < select.projection.len() ==> is_item(
            tree.get("projection"@).items()[i],
            #[trigger] select.projection@[i],
        )
    &&& is_group_by(tree.get("group_by"@), select.group_by)
    &&& is_optional_expr(tree.get("having"@), select.having)
}

fn read_select(value: Option<&Value>) -> (r: SqlSelect)
    ensures
        is_select(tree_of(value), r),
{
    let sources = items(field(value, "from"));
    let ghost source_parts = trees(sources@);
    let mut from: Vec<SqlFrom> = Vec::new();
    for i in 0..sources.len()
        invariant
            source_parts == trees(sources@),
            from.len() == i,
            forall|k: int| 0 <= k < i ==> is_from(source_parts[k], #[trigger] from@[k]),
    {
        proof {
            assert(source_parts[i as int] == json_tree(*sources@[i as int]));
        }
        from.push(read_from(Some(sources[i])));
    }
    let listed = items(field(value, "projection"));
    let ghost listed_parts = trees(listed@);
    let mut projection: Vec<SqlItem> = Vec::new();
    for i in 0..listed.len()
        invariant
            listed_parts == trees(listed@),
            projection.len() == i,
            forall|k: int| 0 <= k < i ==> is_item(listed_parts[k], #[trigger] projection@[k]),
    {
        proof {
            assert(listed_parts[i as int] == json_tree(*listed@[i as int]));
        }
        projection.push(read_item(Some(listed[i])));
    }
    SqlSelect {
        distinct: !is_missing(field(value, "distinct")),
        from,
        selection: read_optional_expr(field(value, "selection")),
        projection,
        group_by: read_group_by(field(value, "group_by")),
        having: read_optional_expr(field(value, "having")),
    }
}

/// Whether a key of an ORDER BY ascends, where that is said.
pub open spec fn direction(tree: JsonView) -> Option<bool> {
    if tree is Null {
        None
    } else {
        Some(!tree.is_text("Desc"@))
    }
}

/// Whether a key of an ORDER BY is the one that a tree is.
pub open spec fn is_order(tree: JsonView, order: SqlOrder) -> bool {
    &&& is_expr(tree.get("expr"@), order.expr)
    &&& order.ascending == direction(tree.get("options"@).get("sort"@))
    &&& order.nulls_first == tree.get("options"@).get("nulls_first"@).flag()
    &&& order.with_fill == !(tree.get("with_fill"@) is Null)
}

fn read_order(value: Option<&Value>) -> (r: SqlOrder)
    ensures
        is_order(tree_of(value), r),
{
    let options = field(value, "options");
    let sort = field(options, "sort");
    SqlOrder {
        expr: read_expr(field(value, "expr")),
        ascending: if is_missing(sort) {
            None
        } else {
            Some(!is_word(sort, "Desc"))
        },
        nulls_first: flag_of(field(options, "nulls_first")),
        with_fill: !is_missing(field(value, "with_fill")),
    }
}

/// Whether an ORDER BY is the one that a tree is.
pub open spec fn is_order_by(tree: JsonView, order_by: Option<SqlOrderBy>) -> bool {
    match order_by {
        None => tree is Null,
        Some(order_by) => {
            &&& !(tree is Null)
            &&& order_by.interpolate == !(tree.get("interpolate"@) is Null)
            &&& match order_by.keys {
                None => !tree.get("kind"@).has("Expressions"@),
                Some(keys) => {
                    let parts = tree.get("kind"@).get("Expressions"@).items();
                    &&& tree.get("kind"@).has("Expressions"@)
                    &&& keys.len() == parts.len()
                    &&& forall|i: int|
                        0 <= i < keys.len() ==> is_order(parts[i], #[trigger] keys@[i])
                },
            }
        },
    }
}

fn read_order_by(value: Option<&Value>) -> (r: Option<SqlOrderBy>)
    ensures
        is_order_by(tree_of(value), r),
{
    if is_missing(value) {
        return None;
    }
    let interpolate: bool = !is_missing(field(value, "interpolate"));
    let found = match field(field(value, "kind"), "Expressions") {
        None => return Some(SqlOrderBy { interpolate, keys: None }),
        Some(found) => found,
    };
    let list = items(Some(found));
    let ghost parts = trees(list@);
    let mut keys: Vec<SqlOrder> = Vec::new();
    for i in 0..list.len()
        invariant
            parts == trees(list@),
            keys.len() == i,
            forall|k: int| 0 <= k < i ==> is_order(parts[k], #[trigger] keys@[k]),
    {
        proof {
            assert(parts[i as int] == json_tree(*list@[i as int]));
        }
        keys.push(read_order(Some(list[i])));
    }
    Some(SqlOrderBy { interpolate, keys: Some(keys) })
}

/// Whether a LIMIT is the one that a tree is.
pub open spec fn is_limit(tree: JsonView, limit: Option<SqlLimit>) -> bool {
    let parts = tree.get("LimitOffset"@);
    match limit {
        None => tree is Null,
        Some(SqlLimit::OffsetComma) => !(tree is Null) && !tree.has("LimitOffset"@),
        Some(SqlLimit::Limit { limit, has_offset }) => {
            &&& tree.has("LimitOffset"@)
            &&& is_optional_expr(parts.get("limit"@), limit)
            &&& has_offset == (!(parts.get("offset"@) is Null) || parts.get(
                "limit_by"@,
            ).items().len() > 0)
        },
    }
}

fn read_limit(value: Option<&Value>) -> (r: Option<SqlLimit>)
    ensures
        is_limit(tree_of(value), r),
{
    if is_missing(value) {
        return None;
    }
    match field(value, "LimitOffset") {
        None => Some(SqlLimit::OffsetComma),
        Some(parts) => Some(
            SqlLimit::Limit {
                limit: read_optional_expr(field(Some(parts), "limit")),
                has_offset: !is_missing(field(Some(parts), "offset")) || has_items(
                    field(Some(parts), "limit_by"),
                ),
            },
        ),
    }
}

/// Whether a query is the one that a tree is.
pub open spec fn is_query(tree: JsonView, query: SqlQuery) -> bool {
    &&& query.has_with == !(tree.get("with"@) is Null)
    &&& match query.body {
        Some(select) => tree.get("body"@).has("Select"@) && is_select(
            tree.get("body"@).get("Select"@),
            select,
        ),
        None => !tree.get("body"@).has("Select"@),
    }
    &&& is_order_by(tree.get("order_by"@), query.order_by)
    &&& is_limit(tree.get("limit_clause"@), query.limit)
}

fn read_query(value: Option<&Value>) -> (r: SqlQuery)
    ensures
        is_query(tree_of(value), r),
{
    SqlQuery {
        has_with: !is_missing(field(value, "with")),
        body: match field(field(value, "body"), "Select") {
            Some(select) => Some(read_select(Some(select))),
            None => None,
        },
        order_by: read_order_by(field(value, "order_by")),
        limit: read_limit(field(value, "limit_clause")),
    }
}

/// Whether a statement is the one that a tree is.
pub open spec fn is_statement(tree: JsonView, statement: SqlStatement) -> bool {
    if tree.has("Query"@) {
        statement matches SqlStatement::Query(query) && is_query(tree.get("Query"@), query)
    } else {
        statement matches SqlStatement::Other(text) && text@ == node_text(NodeKind::Statement, tree)
    }
}

/// Whether statements are those that a text of SQL was parsed into.
pub open spec fn are_statements(tree: JsonView, statements: Seq<SqlStatement>) -> bool {
    &&& statements.len() == tree.items().len()
    &&& forall|i: int|
        0 <= i < statements.len() ==> is_statement(tree.items()[i], #[trigger] statements[i])
}

/// The statements of a text of SQL.
pub fn read_sql(text: &str) -> (r: Result<Vec<SqlStatement>, SparkXError>)
    ensures
        match parsed_sql(text@) {
            Ok(tree) => r matches Ok(statements) && are_statements(tree, statements@),
            Err(message) => r matches Err(error) && error@ == crate::error::ErrorView::Sql(message),
        },
{
    let value = match parse_sql(text) {
        Ok(value) => value,
        Err(message) => return Err(SparkXError::Sql(message)),
    };
    let list = items(Some(&value));
    let ghost parts = trees(list@);
    let mut statements: Vec<SqlStatement> = Vec::new();
    for i in 0..list.len()
        invariant
            parts == trees(list@),
            statements.len() == i,
            forall|k: int| 0 <= k < i ==> is_statement(parts[k], #[trigger] statements@[k]),
    {
        proof {
            assert(parts[i as int] == json_tree(*list@[i as int]));
        }
        let statement = match field(Some(list[i]), "Query") {
            Some(query) => SqlStatement::Query(read_query(Some(query))),
            None => SqlStatement::Other(show_node(NodeKind::Statement, Some(list[i]))),
        };
        statements.push(statement);
    }
    Ok(statements)
}

} // verus!

//! What of a parsed text each part of a query is read from.

use crate::sql::reader::{
    first_item, is_expr, is_from, is_item, is_join, is_literal, is_operator, is_order, is_query,
    is_select, word,
};
use crate::sql::syntax::{
    SqlExpr, SqlItem, SqlJoin, SqlKind, SqlLimit, SqlOperator, SqlQuery, SqlSelect,
};
use crate::sql::tree::JsonView;
use vstd::prelude::*;

verus! {

/// An operation is read with its sides in their places: what stands on the left on the left.
pub proof fn sides_stay_in_their_places(tree: JsonView, expr: SqlExpr)
    requires
        is_expr(tree, expr),
        expr.kind is Binary,
    ensures
        tree.has("BinaryOp"@),
        is_expr(tree.get("BinaryOp"@).get("left"@), *expr.kind->Binary_left),
        is_expr(tree.get("BinaryOp"@).get("right"@), *expr.kind->Binary_right),
        is_operator(tree.get("BinaryOp"@).get("op"@), expr.kind->Binary_op),
{
}

/// An operator is read by its word.
pub proof fn operators_are_read_by_their_words(tree: JsonView, op: SqlOperator)
    requires
        is_operator(tree, op),
    ensures
        op is Eq ==> tree == JsonView::Text("Eq"@),
        op is NotEq ==> tree == JsonView::Text("NotEq"@),
        op is Lt ==> tree == JsonView::Text("Lt"@),
        op is LtEq ==> tree == JsonView::Text("LtEq"@),
        op is Gt ==> tree == JsonView::Text("Gt"@),
        op is GtEq ==> tree == JsonView::Text("GtEq"@),
        op is And ==> tree == JsonView::Text("And"@),
        op is Or ==> tree == JsonView::Text("Or"@),
        op is Plus ==> tree == JsonView::Text("Plus"@),
        op is Minus ==> tree == JsonView::Text("Minus"@),
        op is Multiply ==> tree == JsonView::Text("Multiply"@),
        op is Divide ==> tree == JsonView::Text("Divide"@),
{
}

/// A test for NULL is read as one, and one that is negated as negated.
pub proof fn null_tests_are_read(tree: JsonView, expr: SqlExpr)
    requires
        is_expr(tree, expr),
        expr.kind is IsNull,
    ensures
        expr.kind->IsNull_negated ==> tree.has("IsNotNull"@) && is_expr(
            tree.get("IsNotNull"@),
            *expr.kind->IsNull_expr,
        ),
        !expr.kind->IsNull_negated ==> tree.has("IsNull"@) && is_expr(
            tree.get("IsNull"@),
            *expr.kind->IsNull_expr,
        ),
{
}

/// A constant is read as it was written.
pub proof fn constants_are_read(tree: JsonView, kind: SqlKind)
    requires
        is_literal(tree, kind),
    ensures
        kind is Number ==> first_item(tree.get("Number"@)) == JsonView::Text(kind->Number_0@)
            || kind->Number_0@.len() == 0,
        kind is Boolean && tree.get("Boolean"@) is Bool ==> tree.get("Boolean"@) == JsonView::Bool(
            kind->Boolean_0,
        ),
        kind is Null ==> tree == JsonView::Text("Null"@),
{
}

/// A SELECT is read clause by clause: the condition of its WHERE is not that of its HAVING, and what it
/// lists and where it reads from come in the order in which they were written.
pub proof fn clauses_are_read_apart(tree: JsonView, select: SqlSelect)
    requires
        is_select(tree, select),
    ensures
        select.selection is Some <==> !(tree.get("selection"@) is Null),
        select.selection matches Some(condition) ==> is_expr(tree.get("selection"@), condition),
        select.having is Some <==> !(tree.get("having"@) is Null),
        select.having matches Some(condition) ==> is_expr(tree.get("having"@), condition),
        select.distinct <==> !(tree.get("distinct"@) is Null),
        select.projection.len() == tree.get("projection"@).items().len(),
        forall|i: int|
            0 <= i < select.projection.len() ==> is_item(
                tree.get("projection"@).items()[i],
                #[trigger] select.projection@[i],
            ),
        select.from.len() == tree.get("from"@).items().len(),
        forall|i: int|
            0 <= i < select.from.len() ==> is_from(
                tree.get("from"@).items()[i],
                #[trigger] select.from@[i],
            ),
        select.group_by is Expressions ==> tree.get("group_by"@).has("Expressions"@)
            && select.group_by->exprs.len() == first_item(
            tree.get("group_by"@).get("Expressions"@),
        ).items().len() && forall|i: int|
            0 <= i < select.group_by->exprs.len() ==> is_expr(
                first_item(tree.get("group_by"@).get("Expressions"@)).items()[i],
                #[trigger] select.group_by->exprs@[i],
            ),
{
}

/// What is listed under a name is read with the name.
pub proof fn names_are_read_with_what_they_name(tree: JsonView, item: SqlItem)
    requires
        is_item(tree, item),
    ensures
        item is Expr ==> tree.has("UnnamedExpr"@) && is_expr(
            tree.get("UnnamedExpr"@),
            item->Expr_0,
        ),
        item is Aliased ==> tree.has("ExprWithAlias"@) && is_expr(
            tree.get("ExprWithAlias"@).get("expr"@),
            item->Aliased_expr,
        ) && item->Aliased_alias@ == word(
            tree.get("ExprWithAlias"@).get("alias"@).get("value"@),
        ),
        item is Wildcard ==> tree.has("Wildcard"@),
{
}

/// An ORDER BY is read key by key, in the order in which they were written; a key descends where it says
/// so, and says itself where NULL goes.
pub proof fn keys_are_read_in_order(tree: JsonView, query: SqlQuery)
    requires
        is_query(tree, query),
    ensures
        query.order_by is Some <==> !(tree.get("order_by"@) is Null),
        query.order_by is Some && query.order_by->Some_0.keys is Some ==> {
            let keys = query.order_by->Some_0.keys->Some_0;
            let parts = tree.get("order_by"@).get("kind"@).get("Expressions"@).items();
            &&& keys.len() == parts.len()
            &&& forall|k: int|
                0 <= k < keys.len() ==> is_expr(
                    parts[k].get("expr"@),
                    (#[trigger] keys@[k]).expr,
                )
            &&& forall|k: int|
                0 <= k < keys.len() ==> ((#[trigger] keys@[k]).ascending == Some(false)
                    <==> parts[k].get("options"@).get("sort"@) == JsonView::Text("Desc"@))
            &&& forall|k: int|
                0 <= k < keys.len() ==> ((#[trigger] keys@[k]).nulls_first is Some
                    ==> parts[k].get("options"@).get("nulls_first"@) == JsonView::Bool(
                    keys@[k].nulls_first->Some_0,
                ))
        },
        query.body is Some ==> is_select(
            tree.get("body"@).get("Select"@),
            query.body->Some_0,
        ),
        query.limit is Some <==> !(tree.get("limit_clause"@) is Null),
        query.limit matches Some(SqlLimit::Limit { limit: Some(number), .. }) ==> is_expr(
            tree.get("limit_clause"@).get("LimitOffset"@).get("limit"@),
            number,
        ),
{
    if let Some(order_by) = query.order_by {
        if let Some(keys) = order_by.keys {
            let parts = tree.get("order_by"@).get("kind"@).get("Expressions"@).items();
            assert forall|k: int| 0 <= k < keys.len() implies is_order(
                parts[k],
                #[trigger] keys@[k],
            ) by {}
        }
    }
}

/// A join is read as an inner or a left one by its word.
pub proof fn joins_are_read_by_their_words(tree: JsonView, join: SqlJoin)
    requires
        is_join(tree, join),
    ensures
        join.operator is Left ==> tree.get("join_operator"@).has("Left"@) || tree.get(
            "join_operator"@,
        ).has("LeftOuter"@),
        join.operator is Inner ==> tree.get("join_operator"@).has("Join"@) || tree.get(
            "join_operator"@,
        ).has("Inner"@),
{
}

} // verus!

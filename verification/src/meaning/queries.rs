//! What the clauses of a query come to.

use crate::batch::BatchView;
use crate::catalog::TableView;
use crate::error::ErrorView;
use crate::execution::run::produces;
use crate::expr::{AggregateFunction, ExprView, Operator};
use crate::logical::{LogicalView, SortView};
use crate::meaning::results::{is_true_of_all, rows_in_order, the_rows_of_a_filter, the_rows_of_a_sort};
use crate::physical::PhysicalView;
use crate::planner::physical_plan;
use crate::scalar::ScalarView;
use crate::sql::query::{
    chosen, join_keys, join_pairs, limit_of, planned_exprs, planned_from, planned_groups,
    planned_items, planned_join, planned_order, planned_orders, planned_query, planned_relation,
    planned_select,
};
use crate::sql::scalar::planned_expr;
use crate::sql::syntax::{
    SqlArgument, SqlExpr, SqlFrom, SqlGroupBy, SqlItem, SqlJoin, SqlJoinOperator, SqlKind, SqlLimit,
    SqlOperator, SqlOrder, SqlQuery, SqlRelation, SqlSelect,
};
use crate::table::NamedTableView;
use crate::text::{digit, digit_value, digits_value, numeral, written_number};
use vstd::prelude::*;

verus! {

/// Whether an expression is the engine's for one of SQL.
pub open spec fn stands_for(expr: ExprView, sql: SqlExpr) -> bool {
    planned_expr(sql) == Ok::<ExprView, ErrorView>(expr)
}

// ---- numbers

proof fn digits_stay(a: Seq<char>, b: Seq<char>, upto: int)
    requires
        0 <= upto <= a.len(),
        upto <= b.len(),
        forall|i: int| 0 <= i < upto ==> a[i] == b[i],
    ensures
        digits_value(a, upto) == digits_value(b, upto),
    decreases upto,
{
    if upto > 0 {
        digits_stay(a, b, upto - 1);
    }
}

/// A number is what its decimal numeral writes.
pub proof fn a_numeral_writes_its_number(n: nat)
    ensures
        written_number(numeral(n)) == Some(n as int),
        numeral(n).len() > 0,
        forall|i: int| 0 <= i < numeral(n).len() ==> '0' <= #[trigger] numeral(n)[i] <= '9',
        digits_value(numeral(n), numeral(n).len() as int) == Some(n),
    decreases n,
{
    let text = numeral(n);
    if n >= 10 {
        let high = numeral(n / 10);
        a_numeral_writes_its_number(n / 10);
        assert(text == high.push(digit(n % 10)));
        digits_stay(text, high, high.len() as int);
        assert(digit_value(digit(n % 10)) == Some(n % 10));
        assert(text[high.len() as int] == digit(n % 10));
        assert forall|i: int| 0 <= i < text.len() implies '0' <= #[trigger] text[i] <= '9' by {
            if i < high.len() {
                assert(text[i] == high[i]);
            }
        }
    } else {
        assert(digits_value(text, 0) == Some(0nat));
        assert(digit_value(text[0]) == Some(n));
    }
    assert('0' <= text[0] <= '9');
}

// ---- expressions

/// Whether an operator of the engine is the one of SQL.
pub open spec fn same_operator(op: Operator, sql: SqlOperator) -> bool {
    match sql {
        SqlOperator::Eq => op is Eq,
        SqlOperator::NotEq => op is NotEq,
        SqlOperator::Lt => op is Lt,
        SqlOperator::LtEq => op is LtEq,
        SqlOperator::Gt => op is Gt,
        SqlOperator::GtEq => op is GtEq,
        SqlOperator::And => op is And,
        SqlOperator::Or => op is Or,
        SqlOperator::Plus => op is Add,
        SqlOperator::Minus => op is Subtract,
        SqlOperator::Multiply => op is Multiply,
        SqlOperator::Divide => op is Divide,
        SqlOperator::Other(_) => false,
    }
}

/// An expression keeps its operator and its operands, in their order.
pub proof fn operations_keep_their_operands(sql: SqlExpr, expr: ExprView)
    requires
        stands_for(expr, sql),
        sql.kind is Binary,
    ensures
        expr is Binary,
        same_operator(expr->Binary_op, sql.kind->Binary_op),
        stands_for(*expr->Binary_left, *sql.kind->Binary_left),
        stands_for(*expr->Binary_right, *sql.kind->Binary_right),
{
}

/// Names, constants and brackets are what they say.
pub proof fn simple_expressions(sql: SqlExpr, expr: ExprView)
    requires
        stands_for(expr, sql),
    ensures
        sql.kind is Identifier ==> expr == ExprView::Column(sql.kind->Identifier_0@),
        sql.kind is Text ==> expr == ExprView::Literal(ScalarView::Utf8(sql.kind->Text_0@)),
        sql.kind is Boolean ==> expr == ExprView::Literal(
            ScalarView::Boolean(sql.kind->Boolean_0),
        ),
        sql.kind is Null ==> expr == ExprView::Literal(ScalarView::Null),
        sql.kind is Nested ==> stands_for(expr, *sql.kind->Nested_0),
        sql.kind is IsNull ==> expr is IsNull && expr->IsNull_negated == sql.kind->IsNull_negated
            && stands_for(*expr->IsNull_expr, *sql.kind->IsNull_expr),
        sql.kind is Cast ==> expr is Cast && stands_for(*expr->Cast_expr, *sql.kind->Cast_expr),
        !(sql.kind is OtherLiteral),
        !(sql.kind is Other),
{
}

/// A name of two parts has a full stop between them.
pub proof fn qualified_names(sql: SqlExpr, expr: ExprView)
    requires
        stands_for(expr, sql),
        sql.kind is Compound,
        sql.kind->Compound_0.len() == 2,
    ensures
        expr == ExprView::Column(
            sql.kind->Compound_0@[0]@ + "."@ + sql.kind->Compound_0@[1]@,
        ),
{
    assert(crate::sql::scalar::dotted(sql.kind->Compound_0@, 1) == sql.kind->Compound_0@[0]@);
}

/// A whole number in decimal digits is that number.
pub proof fn whole_literals(sql: SqlExpr, n: nat)
    requires
        sql.kind is Number,
        sql.kind->Number_0@ == numeral(n),
        n <= i64::MAX,
    ensures
        stands_for(ExprView::Literal(ScalarView::Int64(n as i64)), sql),
{
    a_numeral_writes_its_number(n);
    let text = sql.kind->Number_0@;
    assert forall|i: int| 0 <= i < text.len() implies !crate::sql::scalar::is_float_mark(
        #[trigger] text[i],
    ) by {
        assert('0' <= numeral(n)[i] <= '9');
    }
}

/// The name of an aggregate function, in capitals.
pub open spec fn function_name(function: AggregateFunction) -> Seq<char> {
    match function {
        AggregateFunction::Count => "COUNT"@,
        AggregateFunction::Sum => "SUM"@,
        AggregateFunction::Min => "MIN"@,
        AggregateFunction::Max => "MAX"@,
        AggregateFunction::Avg => "AVG"@,
    }
}

/// A call keeps its function, its argument and whether it takes each value once.
pub proof fn calls_keep_their_arguments(sql: SqlExpr, expr: ExprView)
    requires
        stands_for(expr, sql),
        sql.kind is Function,
    ensures
        expr is Aggregate,
        crate::text::capital_letters(sql.kind->Function_0.name@) == function_name(
            expr->Aggregate_function,
        ),
        !sql.kind->Function_0.is_special,
        sql.kind->Function_0.arguments is One,
        ({
            let arguments = sql.kind->Function_0.arguments;
            &&& expr->Aggregate_distinct == arguments->One_distinct
            &&& !arguments->One_has_clauses
            &&& match *arguments->One_argument {
                SqlArgument::Expr(inner) => stands_for(*expr->Aggregate_expr, inner),
                SqlArgument::Wildcard => *expr->Aggregate_expr is Wildcard,
                SqlArgument::Other(_) => false,
            }
        }),
{
}

// ---- lists

/// Whether an expression is what an item of a SELECT lists.
pub open spec fn is_listed(expr: ExprView, item: SqlItem) -> bool {
    match item {
        SqlItem::Expr(sql) => stands_for(expr, sql),
        SqlItem::Aliased { expr: sql, alias } => expr is Alias && expr->Alias_1 == alias@
            && stands_for(*expr->Alias_0, sql),
        SqlItem::Wildcard => expr is Wildcard,
        SqlItem::QualifiedWildcard => false,
        SqlItem::MultipleAliases => false,
    }
}

/// Whether expressions are what the items of a SELECT list, one by one.
pub open spec fn are_listed(exprs: Seq<ExprView>, items: Seq<SqlItem>) -> bool {
    &&& exprs.len() == items.len()
    &&& forall|k: int| 0 <= k < items.len() ==> is_listed(#[trigger] exprs[k], items[k])
}

/// Whether expressions stand for those of SQL, one by one.
pub open spec fn all_stand_for(exprs: Seq<ExprView>, sql: Seq<SqlExpr>) -> bool {
    &&& exprs.len() == sql.len()
    &&& forall|k: int| 0 <= k < sql.len() ==> stands_for(#[trigger] exprs[k], sql[k])
}

proof fn items_are_listed(items: Seq<SqlItem>, upto: int)
    requires
        0 <= upto <= items.len(),
    ensures
        planned_items(items, upto) matches Ok(exprs) ==> are_listed(exprs, items.take(upto)),
    decreases upto,
{
    if upto > 0 {
        items_are_listed(items, upto - 1);
        if let Ok(exprs) = planned_items(items, upto) {
            let before = planned_items(items, upto - 1)->Ok_0;
            assert forall|k: int| 0 <= k < upto implies is_listed(
                #[trigger] exprs[k],
                items.take(upto)[k],
            ) by {
                if k < upto - 1 {
                    assert(is_listed(before[k], items.take(upto - 1)[k]));
                }
            }
        }
    }
}

proof fn exprs_stand_for(sql: Seq<SqlExpr>, upto: int)
    requires
        0 <= upto <= sql.len(),
    ensures
        planned_exprs(sql, upto) matches Ok(exprs) ==> all_stand_for(exprs, sql.take(upto)),
    decreases upto,
{
    if upto > 0 {
        exprs_stand_for(sql, upto - 1);
        if let Ok(exprs) = planned_exprs(sql, upto) {
            let before = planned_exprs(sql, upto - 1)->Ok_0;
            assert forall|k: int| 0 <= k < upto implies stands_for(
                #[trigger] exprs[k],
                sql.take(upto)[k],
            ) by {
                if k < upto - 1 {
                    assert(stands_for(before[k], sql.take(upto - 1)[k]));
                }
            }
        }
    }
}

/// Whether some places are those of the expressions that hold an aggregate, or that hold none, from
/// the first to the last, and other expressions are those at the places.
pub open spec fn picks(
    picked: Seq<ExprView>,
    exprs: Seq<ExprView>,
    aggregates: bool,
    places: Seq<int>,
) -> bool {
    &&& picked.len() == places.len()
    &&& forall|k: int|
        0 <= k < places.len() ==> 0 <= #[trigger] places[k] < exprs.len()
            && exprs[places[k]].contains_aggregate() == aggregates && picked[k] == exprs[places[k]]
    &&& forall|k: int, l: int|
        0 <= k < l < places.len() ==> #[trigger] places[k] < #[trigger] places[l]
    &&& forall|i: int|
        0 <= i < exprs.len() && (#[trigger] exprs[i]).contains_aggregate() == aggregates
            ==> places.contains(i)
}

proof fn choosing_picks(exprs: Seq<ExprView>, aggregates: bool, upto: int) -> (places: Seq<int>)
    requires
        0 <= upto <= exprs.len(),
    ensures
        picks(chosen(exprs, aggregates, upto), exprs.take(upto), aggregates, places),
    decreases upto,
{
    if upto <= 0 {
        Seq::empty()
    } else {
        let before = choosing_picks(exprs, aggregates, upto - 1);
        let (few, more) = (exprs.take(upto - 1), exprs.take(upto));
        let at = upto - 1;
        let places = if exprs[at].contains_aggregate() == aggregates {
            before.push(at)
        } else {
            before
        };
        assert forall|k: int| 0 <= k < before.len() implies 0 <= #[trigger] before[k] < few.len()
            && few[before[k]] == more[before[k]] by {}
        assert forall|i: int|
            0 <= i < more.len() && (#[trigger] more[i]).contains_aggregate()
                == aggregates implies places.contains(i) by {
            if i < at {
                assert(few[i] == more[i]);
                assert(before.contains(i));
                let k = choose|k: int| 0 <= k < before.len() && before[k] == i;
                assert(places[k] == i);
            } else {
                assert(places[places.len() - 1] == i);
            }
        }
        let picked = chosen(exprs, aggregates, upto);
        assert forall|k: int| 0 <= k < places.len() implies 0 <= #[trigger] places[k] < more.len()
            && more[places[k]].contains_aggregate() == aggregates && picked[k] == more[places[k]] by {
            if k < before.len() {
                assert(places[k] == before[k]);
            }
        }
        assert forall|k: int, l: int| 0 <= k < l < places.len() implies #[trigger] places[k]
            < #[trigger] places[l] by {
            assert(places[k] == before[k]);
            if l < before.len() {
                assert(places[l] == before[l]);
            }
        }
        places
    }
}

// ---- SELECT

/// Whether a SELECT makes groups: by its GROUP BY, or by an aggregate that it lists.
pub open spec fn makes_groups(select: SqlSelect) -> bool {
    ||| select.group_by is Expressions && select.group_by->exprs.len() > 0
    ||| exists|k: int, expr: ExprView|
        0 <= k < select.projection.len() && #[trigger] is_listed(expr, select.projection@[k])
            && expr.contains_aggregate()
}

/// Whether a plan is that of the FROM and WHERE of a SELECT.
pub open spec fn is_source(
    plan: LogicalView,
    select: SqlSelect,
    tables: Map<Seq<char>, TableView>,
) -> bool {
    match select.selection {
        None => planned_from(select.from@[0], tables) == Ok::<LogicalView, ErrorView>(plan),
        Some(condition) => plan is Filter && stands_for(plan->Filter_predicate, condition)
            && planned_from(select.from@[0], tables) == Ok::<LogicalView, ErrorView>(
            *plan->Filter_input,
        ),
    }
}

/// The part of a plan that a HAVING filters.
pub open spec fn before_having(plan: LogicalView, select: SqlSelect) -> LogicalView {
    if select.having is Some {
        *plan->Filter_input
    } else {
        plan
    }
}

/// Whether a projection of groups has a column for each expression that a SELECT lists, in their
/// order, and the aggregates of the groups are those that it lists.
pub open spec fn gives_what_is_listed(
    output: LogicalView,
    select: SqlSelect,
    listed: Seq<ExprView>,
    places: Seq<int>,
) -> bool {
    &&& are_listed(listed, select.projection@)
    &&& picks(output->Projection_input->Aggregate_aggregate_exprs, listed, true, places)
    &&& output->Projection_exprs.len() == listed.len()
    &&& forall|k: int|
        0 <= k < listed.len() ==> #[trigger] output->Projection_exprs[k] == ExprView::Column(
            listed[k].name(),
        )
}

/// The plan of a SELECT that makes groups: it groups what its FROM and WHERE give by what it says,
/// computes the aggregates that it lists, gives the columns in the order in which it lists them, and
/// keeps those of which its HAVING is true.
pub proof fn a_select_that_makes_groups(
    select: SqlSelect,
    tables: Map<Seq<char>, TableView>,
    plan: LogicalView,
)
    requires
        planned_select(select, tables) == Ok::<LogicalView, ErrorView>(plan),
        makes_groups(select),
    ensures
        select.having matches Some(condition) ==> plan is Filter && stands_for(
            plan->Filter_predicate,
            condition,
        ),
        before_having(plan, select) is Projection,
        *before_having(plan, select)->Projection_input is Aggregate,
        is_source(
            *before_having(plan, select)->Projection_input->Aggregate_input,
            select,
            tables,
        ),
        select.group_by is Expressions ==> all_stand_for(
            before_having(plan, select)->Projection_input->Aggregate_group_exprs,
            select.group_by->exprs@,
        ),
        exists|listed: Seq<ExprView>, places: Seq<int>| #[trigger]
            gives_what_is_listed(before_having(plan, select), select, listed, places),
{
    let items = select.projection@;
    let count = items.len() as int;
    items_are_listed(items, count);
    assert(items.take(count) =~= items);
    let listed = planned_items(items, count)->Ok_0;
    let groups = planned_groups(select.group_by, listed)->Ok_0;
    if let SqlGroupBy::Expressions { exprs, .. } = select.group_by {
        exprs_stand_for(exprs@, exprs.len() as int);
        assert(exprs@.take(exprs.len() as int) =~= exprs@);
    }
    let aggregates = chosen(listed, true, count);
    let places = choosing_picks(listed, true, count);
    assert(listed.take(count) =~= listed);
    assert(picks(aggregates, listed, true, places));
    if !(select.group_by is Expressions && select.group_by->exprs.len() > 0) {
        let (k, expr) = choose|k: int, expr: ExprView|
            0 <= k < select.projection.len() && #[trigger] is_listed(expr, select.projection@[k])
                && expr.contains_aggregate();
        assert(is_listed(listed[k], items[k]));
        assert(expr == listed[k]);
        assert(places.contains(k));
    }
    let columns = crate::sql::query::output_columns(listed);
    let output = before_having(plan, select);
    let inner = *output->Projection_input;
    names_need_no_widening(columns, inner.schema(), columns.len() as int);
    assert(columns.take(columns.len() as int) =~= columns);
    assert(output is Projection);
    assert(inner is Aggregate);
    assert(inner->Aggregate_aggregate_exprs == aggregates);
    assert(inner->Aggregate_group_exprs == groups);
    assert(output->Projection_exprs == columns);
    assert(is_source(*inner->Aggregate_input, select, tables));
    assert(picks(inner->Aggregate_aggregate_exprs, listed, true, places));
    assert forall|k: int| 0 <= k < listed.len() implies #[trigger] output->Projection_exprs[k]
        == ExprView::Column(listed[k].name()) by {}
    assert(gives_what_is_listed(output, select, listed, places));
    if select.group_by is Expressions {
        assert(all_stand_for(groups, select.group_by->exprs@));
    }
}

proof fn names_need_no_widening(
    exprs: Seq<ExprView>,
    schema: crate::types::SchemaView,
    upto: int,
)
    requires
        0 <= upto <= exprs.len(),
        forall|k: int| 0 <= k < upto ==> !((#[trigger] exprs[k]) is Wildcard),
    ensures
        crate::logical::expanded(exprs, schema, upto) == exprs.take(upto),
    decreases upto,
{
    if upto > 0 {
        names_need_no_widening(exprs, schema, upto - 1);
        assert(exprs.take(upto) =~= exprs.take(upto - 1).push(exprs[upto - 1]));
    } else {
        assert(exprs.take(0) =~= Seq::empty());
    }
}

/// GROUP BY ALL groups by what is listed without an aggregate.
pub proof fn grouping_by_all(listed: Seq<ExprView>, groups: Seq<ExprView>)
    requires
        planned_groups(SqlGroupBy::All, listed) == Ok::<Seq<ExprView>, ErrorView>(groups),
    ensures
        exists|places: Seq<int>| picks(groups, listed, false, places),
{
    let places = choosing_picks(listed, false, listed.len() as int);
    assert(listed.take(listed.len() as int) =~= listed);
    assert(picks(groups, listed, false, places));
}

/// The plan of a SELECT without groups computes what it lists, in the order in which it lists it, of
/// what its FROM and WHERE give. A star alone stands for all columns, in their order.
pub proof fn a_select_without_groups(
    select: SqlSelect,
    tables: Map<Seq<char>, TableView>,
    plan: LogicalView,
)
    requires
        planned_select(select, tables) == Ok::<LogicalView, ErrorView>(plan),
        !makes_groups(select),
        select.group_by is Expressions,
    ensures
        plan is Projection,
        is_source(*plan->Projection_input, select, tables),
        (forall|k: int|
            0 <= k < select.projection.len() ==> !(#[trigger] select.projection@[k] is Wildcard))
            ==> are_listed(plan->Projection_exprs, select.projection@),
        select.projection.len() == 1 && select.projection@[0] is Wildcard ==> {
            let fields = plan->Projection_input.schema().fields;
            &&& plan->Projection_exprs.len() == fields.len()
            &&& forall|c: int|
                0 <= c < fields.len() ==> #[trigger] plan->Projection_exprs[c] == ExprView::Column(
                    fields[c].name,
                )
        },
{
    let items = select.projection@;
    let count = items.len() as int;
    items_are_listed(items, count);
    assert(items.take(count) =~= items);
    let listed = planned_items(items, count)->Ok_0;
    let aggregates = chosen(listed, true, count);
    let places = choosing_picks(listed, true, count);
    assert(listed.take(count) =~= listed);
    if aggregates.len() > 0 {
        let k = places[0];
        assert(is_listed(listed[k], items[k]));
        assert(listed[k].contains_aggregate());
    }
    let schema = plan->Projection_input.schema();
    if forall|k: int|
        0 <= k < select.projection.len() ==> !(#[trigger] select.projection@[k] is Wildcard) {
        assert forall|k: int| 0 <= k < count implies !((#[trigger] listed[k]) is Wildcard) by {
            assert(is_listed(listed[k], items[k]));
            assert(!(select.projection@[k] is Wildcard));
            match items[k] {
                SqlItem::Expr(sql) => {
                    nothing_stands_for_a_star(sql);
                },
                _ => {},
            }
        }
        names_need_no_widening(listed, schema, count);
    }
    if count == 1 && items[0] is Wildcard {
        assert(is_listed(listed[0], items[0]));
        assert(crate::logical::expanded(listed, schema, 0) == Seq::<ExprView>::empty());
    }
}

proof fn nothing_stands_for_a_star(sql: SqlExpr)
    ensures
        !stands_for(ExprView::Wildcard, sql),
    decreases sql,
{
    if let SqlKind::Nested(inner) = sql.kind {
        nothing_stands_for_a_star(*inner);
    }
}

/// Every row that a SELECT with groups gives makes its HAVING true.
pub proof fn having_is_true_of_every_row(
    select: SqlSelect,
    tables: Map<Seq<char>, TableView>,
    plan: LogicalView,
    id: nat,
    physical: PhysicalView,
    named: Seq<NamedTableView>,
    partition: Option<usize>,
    out: Seq<BatchView>,
    i: int,
)
    requires
        planned_select(select, tables) == Ok::<LogicalView, ErrorView>(plan),
        makes_groups(select),
        select.having is Some,
        physical_plan(plan, tables, id) == Ok::<PhysicalView, ErrorView>(physical),
        produces(physical, named, partition, Ok(out)),
        0 <= i < out.len(),
    ensures
        planned_expr(select.having->Some_0) is Ok,
        is_true_of_all(planned_expr(select.having->Some_0)->Ok_0, out[i]),
{
    a_select_that_makes_groups(select, tables, plan);
    the_rows_of_a_filter(physical, named, partition, out, i);
}

// ---- ORDER BY and LIMIT

/// Whether a sort key is what an ORDER BY lists: its expression, ascending unless it says otherwise,
/// and with NULL last where it ascends and first where it descends unless it says otherwise.
pub open spec fn is_key_of(sort: SortView, order: SqlOrder) -> bool {
    &&& stands_for(sort.expr, order.expr)
    &&& order.ascending is None ==> sort.ascending
    &&& order.ascending matches Some(ascending) ==> sort.ascending == ascending
    &&& order.nulls_first matches Some(first) ==> sort.nulls_first == first
    &&& order.nulls_first is None && sort.ascending ==> !sort.nulls_first
    &&& order.nulls_first is None && !sort.ascending ==> sort.nulls_first
}

/// Whether sort keys are those that an ORDER BY lists, one by one.
pub open spec fn are_keys_of(sorts: Seq<SortView>, orders: Seq<SqlOrder>) -> bool {
    &&& sorts.len() == orders.len()
    &&& forall|k: int| 0 <= k < orders.len() ==> is_key_of(#[trigger] sorts[k], orders[k])
}

/// The keys of a plan are as many as an ORDER BY lists, and in the order in which it lists them.
pub proof fn keys_are_in_the_order_listed(orders: Seq<SqlOrder>, upto: int)
    requires
        0 <= upto <= orders.len(),
    ensures
        planned_orders(orders, upto) matches Ok(sorts) ==> are_keys_of(sorts, orders.take(upto)),
    decreases upto,
{
    if upto > 0 {
        keys_are_in_the_order_listed(orders, upto - 1);
        if let Ok(sorts) = planned_orders(orders, upto) {
            let before = planned_orders(orders, upto - 1)->Ok_0;
            assert forall|k: int| 0 <= k < upto implies is_key_of(
                #[trigger] sorts[k],
                orders.take(upto)[k],
            ) by {
                if k < upto - 1 {
                    assert(is_key_of(before[k], orders.take(upto - 1)[k]));
                } else {
                    assert(planned_order(orders[k]) is Ok);
                }
            }
        }
    }
}

/// The plan of a query sorts what its SELECT gives by what its ORDER BY lists, and gives as many of the
/// first rows as its LIMIT says.
pub proof fn a_query_is_sorted_and_limited(
    query: SqlQuery,
    tables: Map<Seq<char>, TableView>,
    plan: LogicalView,
)
    requires
        planned_query(query, tables) == Ok::<LogicalView, ErrorView>(plan),
    ensures
        query.body is Some,
        query.limit is Some ==> plan is Limit,
        ({
            let rows = if query.limit is Some {
                *plan->Limit_input
            } else {
                plan
            };
            match query.order_by {
                None => planned_select(query.body->Some_0, tables) == Ok::<LogicalView, ErrorView>(
                    rows,
                ),
                Some(order_by) => rows is Sort && order_by.keys is Some && are_keys_of(
                    rows->Sort_exprs,
                    order_by.keys->Some_0@,
                ) && planned_select(query.body->Some_0, tables) == Ok::<LogicalView, ErrorView>(
                    *rows->Sort_input,
                ),
            }
        }),
        forall|n: nat|
            query.limit is Some && n <= usize::MAX && (#[trigger] is_limit(query.limit->Some_0, n))
                ==> plan->Limit_limit == n,
{
    if let Some(order_by) = query.order_by {
        let keys = order_by.keys->Some_0@;
        keys_are_in_the_order_listed(keys, keys.len() as int);
        assert(keys.take(keys.len() as int) =~= keys);
    }
    assert forall|n: nat|
        query.limit is Some && n <= usize::MAX && (#[trigger] is_limit(
            query.limit->Some_0,
            n,
        )) implies plan->Limit_limit == n by {
        a_numeral_writes_its_number(n);
    }
}

/// Whether a LIMIT is a number in decimal digits.
pub open spec fn is_limit(limit: SqlLimit, n: nat) -> bool {
    limit is Limit && limit->Limit_limit is Some && limit->Limit_limit->Some_0.kind is Number
        && limit->Limit_limit->Some_0.kind->Number_0@ == numeral(n)
}

/// A number in decimal digits is taken for a LIMIT.
pub proof fn limits_are_read(limit: SqlLimit, n: nat)
    requires
        is_limit(limit, n),
        n <= usize::MAX,
    ensures
        !limit->Limit_has_offset ==> limit_of(Some(limit)) == Ok::<Option<usize>, ErrorView>(
            Some(n as usize),
        ),
        limit->Limit_has_offset ==> limit_of(Some(limit)) is Err,
{
    a_numeral_writes_its_number(n);
    assert('0' <= numeral(n)[0] <= '9');
}

/// The rows of a query with an ORDER BY stand in the order of what it lists: by the first key, those
/// that are alike in it by the second, and so on, whether all rows are given or but the first.
pub proof fn the_rows_of_an_ordered_query(
    query: SqlQuery,
    tables: Map<Seq<char>, TableView>,
    plan: LogicalView,
    id: nat,
    physical: PhysicalView,
    named: Seq<NamedTableView>,
    partition: Option<usize>,
    out: Seq<BatchView>,
)
    requires
        planned_query(query, tables) == Ok::<LogicalView, ErrorView>(plan),
        query.order_by is Some,
        physical_plan(plan, tables, id) == Ok::<PhysicalView, ErrorView>(physical),
        produces(physical, named, partition, Ok(out)),
    ensures
        out.len() == 1,
        exists|sorts: Seq<SortView>|
            are_keys_of(sorts, query.order_by->Some_0.keys->Some_0@) && #[trigger] rows_in_order(
                out[0],
                sorts,
            ),
        forall|n: nat|
            query.limit is Some && n <= usize::MAX && (#[trigger] is_limit(query.limit->Some_0, n))
                ==> out[0].rows <= n,
{
    a_query_is_sorted_and_limited(query, tables, plan);
    the_rows_of_a_sort(physical, named, partition, out);
    let sorts = if query.limit is Some {
        plan->Limit_input->Sort_exprs
    } else {
        plan->Sort_exprs
    };
    assert(rows_in_order(out[0], sorts));
}

// ---- FROM and JOIN

/// A table in a FROM is scanned whole, under the name that it was given or else under its own, which
/// stands before those of its columns.
pub proof fn a_table_is_scanned_whole(
    relation: SqlRelation,
    tables: Map<Seq<char>, TableView>,
    plan: LogicalView,
    qualifier: Seq<char>,
)
    requires
        planned_relation(relation, tables) == Ok::<(LogicalView, Seq<char>), ErrorView>(
            (plan, qualifier),
        ),
    ensures
        relation is Table,
        relation->alias is Some ==> qualifier == relation->alias->Some_0@,
        relation->alias is None ==> qualifier == relation->name@,
        plan is Scan,
        plan->Scan_table == relation->name@,
        plan->Scan_projection is None,
        plan->Scan_filters.len() == 0,
        ({
            let name = crate::text::small_letters(relation->name@);
            let (from, fields) = (tables[name].schema.fields, plan->Scan_schema.fields);
            &&& tables.dom().contains(name)
            &&& fields.len() == from.len()
            &&& forall|c: int|
                0 <= c < fields.len() ==> (#[trigger] fields[c]).name == qualifier + "."@
                    + from[c].name && fields[c].data_type == from[c].data_type
                    && fields[c].nullable == from[c].nullable
        }),
{
}

/// A FROM without a join is its table, and one with a join joins what comes before it.
pub proof fn a_from_is_its_tables(
    from: SqlFrom,
    tables: Map<Seq<char>, TableView>,
    plan: LogicalView,
)
    requires
        planned_from(from, tables) == Ok::<LogicalView, ErrorView>(plan),
    ensures
        from.joins.len() <= 1,
        exists|table: LogicalView, qualifier: Seq<char>|
            #![trigger planned_join(table, qualifier, from.joins@[0], tables)]
            planned_relation(from.relation, tables) == Ok::<(LogicalView, Seq<char>), ErrorView>(
                (table, qualifier),
            ) && (from.joins.len() == 0 ==> plan == table) && (from.joins.len() == 1
                ==> planned_join(table, qualifier, from.joins@[0], tables) == Ok::<
                LogicalView,
                ErrorView,
            >(plan)),
{
    let (table, qualifier) = planned_relation(from.relation, tables)->Ok_0;
    let joined = planned_join(table, qualifier, from.joins@[0], tables);
    assert(from.joins.len() == 1 ==> joined == Ok::<LogicalView, ErrorView>(plan));
}

/// Whether two lists of keys are the sides of an equality, where the sides name a column of the left
/// input and one of the right.
pub open spec fn are_sides(
    left: ExprView,
    right: ExprView,
    pair: (SqlExpr, SqlExpr),
    left_name: Seq<char>,
    right_name: Seq<char>,
) -> bool {
    let first = named_input(pair.0);
    let second = named_input(pair.1);
    let as_written = stands_for(left, pair.0) && stands_for(right, pair.1);
    let turned = stands_for(left, pair.1) && stands_for(right, pair.0);
    &&& as_written || turned
    &&& first == Some(left_name) && second == Some(right_name) && left_name != right_name
        ==> as_written
    &&& first == Some(right_name) && second == Some(left_name) && left_name != right_name ==> turned
    &&& first is None && second is None ==> as_written
}

/// The part of a name before the column's own, where it has several.
pub open spec fn named_input(sql: SqlExpr) -> Option<Seq<char>> {
    if sql.kind is Compound && sql.kind->Compound_0.len() > 1 {
        Some(sql.kind->Compound_0@[sql.kind->Compound_0.len() - 2]@)
    } else {
        None
    }
}

proof fn keys_are_sides(
    pairs: Seq<(SqlExpr, SqlExpr)>,
    left_name: Seq<char>,
    right_name: Seq<char>,
    upto: int,
)
    requires
        0 <= upto <= pairs.len(),
    ensures
        join_keys(pairs, left_name, right_name, upto) matches Ok(keys) ==> keys.0.len() == upto
            && keys.1.len() == upto && forall|k: int|
            0 <= k < upto ==> are_sides(
                #[trigger] keys.0[k],
                keys.1[k],
                pairs[k],
                left_name,
                right_name,
            ),
    decreases upto,
{
    if upto > 0 {
        keys_are_sides(pairs, left_name, right_name, upto - 1);
    }
}

/// A join is of the kind that its operator says, of what comes before it on the left with its table on
/// the right, and its keys are the sides of the equalities that its condition puts together, one by
/// one.
pub proof fn a_join_is_on_its_condition(
    plan: LogicalView,
    left_name: Seq<char>,
    join: SqlJoin,
    tables: Map<Seq<char>, TableView>,
    out: LogicalView,
)
    requires
        planned_join(plan, left_name, join, tables) == Ok::<LogicalView, ErrorView>(out),
    ensures
        out is Join,
        *out->Join_left == plan,
        planned_relation(join.relation, tables) is Ok,
        *out->Join_right == planned_relation(join.relation, tables)->Ok_0.0,
        ({
            let right_name = planned_relation(join.relation, tables)->Ok_0.1;
            let condition = match join.operator {
                SqlJoinOperator::Inner(constraint) => constraint->On_0,
                SqlJoinOperator::Left(constraint) => constraint->On_0,
                SqlJoinOperator::Other(_) => arbitrary(),
            };
            let pairs = join_pairs(condition)->Ok_0;
            &&& match join.operator {
                SqlJoinOperator::Inner(constraint) => out->Join_join_type is Inner
                    && constraint is On,
                SqlJoinOperator::Left(constraint) => out->Join_join_type is Left
                    && constraint is On,
                SqlJoinOperator::Other(_) => false,
            }
            &&& join_pairs(condition) is Ok
            &&& out->Join_left_on.len() == pairs.len()
            &&& out->Join_right_on.len() == pairs.len()
            &&& forall|k: int|
                0 <= k < pairs.len() ==> are_sides(
                    #[trigger] out->Join_left_on[k],
                    out->Join_right_on[k],
                    pairs[k],
                    left_name,
                    right_name,
                )
        }),
{
    let (right, right_name) = planned_relation(join.relation, tables)->Ok_0;
    let condition = match join.operator {
        SqlJoinOperator::Inner(constraint) => constraint->On_0,
        SqlJoinOperator::Left(constraint) => constraint->On_0,
        SqlJoinOperator::Other(_) => arbitrary(),
    };
    let pairs = join_pairs(condition)->Ok_0;
    keys_are_sides(pairs, left_name, right_name, pairs.len() as int);
}

/// Whether an equality is one of those that a condition puts together with AND.
pub open spec fn requires_equal(condition: SqlExpr, pair: (SqlExpr, SqlExpr)) -> bool
    decreases condition,
{
    match condition.kind {
        SqlKind::Binary { left, op: SqlOperator::And, right } => requires_equal(*left, pair)
            || requires_equal(*right, pair),
        SqlKind::Binary { left, op: SqlOperator::Eq, right } => pair == (*left, *right),
        _ => false,
    }
}

/// The equalities of a join are exactly those that its condition puts together.
pub proof fn conditions_are_taken_apart(condition: SqlExpr, pair: (SqlExpr, SqlExpr))
    ensures
        join_pairs(condition) matches Ok(pairs) ==> (pairs.contains(pair) <==> requires_equal(
            condition,
            pair,
        )),
    decreases condition,
{
    match condition.kind {
        SqlKind::Binary { left, op: SqlOperator::And, right } => {
            conditions_are_taken_apart(*left, pair);
            conditions_are_taken_apart(*right, pair);
            if let (Ok(a), Ok(b)) = (join_pairs(*left), join_pairs(*right)) {
                let all = a + b;
                if a.contains(pair) {
                    let i = choose|i: int| 0 <= i < a.len() && a[i] == pair;
                    assert(all[i] == pair);
                }
                if b.contains(pair) {
                    let i = choose|i: int| 0 <= i < b.len() && b[i] == pair;
                    assert(all[a.len() + i] == pair);
                }
                if all.contains(pair) {
                    let i = choose|i: int| 0 <= i < all.len() && all[i] == pair;
                    if i < a.len() {
                        assert(a[i] == pair);
                    } else {
                        assert(b[i - a.len()] == pair);
                    }
                }
            }
        },
        SqlKind::Binary { left, op: SqlOperator::Eq, right } => {
            let one = seq![(*left, *right)];
            assert(one[0] == (*left, *right));
        },
        _ => {},
    }
}

} // verus!

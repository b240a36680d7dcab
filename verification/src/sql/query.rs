//! Queries of SQL as logical plans.

use crate::catalog::{find_table, Catalog, TableView};
use crate::error::{outcome, ErrorView, SparkXError};
use crate::expr::{clone_exprs, expr_views, Expr, ExprView};
use crate::logical::{
    aggregated, filtered, joined, limited, plan_outcome, projected, sort_views, sorted, JoinType,
    LogicalPlan, LogicalView, SortExpr, SortView,
};
use crate::sql::scalar::{is_qualified_by, planned_expr, qualifier_of, sql_expr};
use crate::sql::syntax::{
    SqlConstraint, SqlExpr, SqlFrom, SqlGroupBy, SqlItem, SqlJoin, SqlJoinOperator, SqlKind,
    SqlLimit, SqlOperator, SqlOrder, SqlOrderBy, SqlQuery, SqlRelation, SqlSelect, SqlStatement,
};
use crate::text::{join, parse_size, written_number};
use crate::types::{Field, FieldView, Schema, SchemaView};
use vstd::prelude::*;

verus! {

/// The schema of a table under a name that qualifies its columns.
pub open spec fn qualified(schema: SchemaView, qualifier: Seq<char>) -> SchemaView {
    SchemaView {
        fields: Seq::new(
            schema.fields.len(),
            |i: int|
                FieldView {
                    name: qualifier + "."@ + schema.fields[i].name,
                    ..schema.fields[i]
                },
        ),
        ..schema
    }
}

fn qualify(schema: &Schema, qualifier: &str) -> (r: Schema)
    ensures
        r@ == qualified(schema@, qualifier@),
{
    let mut fields: Vec<Field> = Vec::new();
    for i in 0..schema.fields.len()
        invariant
            fields.len() == i,
            forall|k: int|
                0 <= k < i ==> (#[trigger] fields@[k])@ == qualified(schema@, qualifier@).fields[k],
    {
        let mut name: String = join(qualifier, ".");
        name.append(schema.fields[i].name.as_str());
        let mut field = schema.fields[i].clone();
        field.name = name;
        fields.push(field);
    }
    let r = Schema { fields, metadata: crate::types::clone_metadata(&schema.metadata) };
    proof {
        assert(r@.fields =~= qualified(schema@, qualifier@).fields);
    }
    r
}

/// The name under which a relation's columns are known.
pub open spec fn relation_name(name: String, alias: Option<String>) -> Seq<char> {
    match alias {
        Some(alias) => alias@,
        None => name@,
    }
}

/// The scan that a relation is, with the name that qualifies its columns.
pub open spec fn planned_relation(relation: SqlRelation, tables: Map<Seq<char>, TableView>) -> Result<
    (LogicalView, Seq<char>),
    ErrorView,
> {
    match relation {
        SqlRelation::Other(text) => Err(ErrorView::Unsupported("table factor "@ + text@)),
        SqlRelation::Table { name, alias, has_arguments } => if has_arguments {
            Err(ErrorView::Unsupported("table-valued functions"@))
        } else {
            match find_table(tables, name@) {
                Err(error) => Err(error),
                Ok(table) => Ok(
                    (
                        LogicalView::Scan {
                            table: name@,
                            projection: None,
                            filters: Seq::empty(),
                            schema: qualified(table.schema, relation_name(name, alias)),
                        },
                        relation_name(name, alias),
                    ),
                ),
            }
        },
    }
}

fn table_factor(relation: &SqlRelation, catalog: &Catalog) -> (r: Result<
    (LogicalPlan, String),
    SparkXError,
>)
    requires
        catalog.wf(),
    ensures
        match r {
            Ok((plan, qualifier)) => planned_relation(*relation, catalog@) == Ok::<
                (LogicalView, Seq<char>),
                ErrorView,
            >((plan@, qualifier@)),
            Err(error) => planned_relation(*relation, catalog@) == Err::<
                (LogicalView, Seq<char>),
                ErrorView,
            >(error@),
        },
{
    match relation {
        SqlRelation::Other(text) => Err(
            SparkXError::unsupported(join("table factor ", text.as_str())),
        ),
        SqlRelation::Table { name, alias, has_arguments } => {
            if *has_arguments {
                return Err(SparkXError::unsupported("table-valued functions".to_owned()));
            }
            let qualifier: String = match alias {
                Some(alias) => alias.clone(),
                None => name.clone(),
            };
            match catalog.table(name.as_str()) {
                Ok(table) => Ok(
                    (
                        LogicalPlan::scan(name.clone(), qualify(&table.schema, qualifier.as_str())),
                        qualifier,
                    ),
                ),
                Err(error) => Err(error),
            }
        },
    }
}

/// The pairs that a join condition sets equal, or the error where it is of another form.
pub open spec fn join_pairs(condition: SqlExpr) -> Result<Seq<(SqlExpr, SqlExpr)>, ErrorView>
    decreases condition,
{
    match condition.kind {
        SqlKind::Binary { left, op: SqlOperator::And, right } => match join_pairs(*left) {
            Err(error) => Err(error),
            Ok(first) => match join_pairs(*right) {
                Err(error) => Err(error),
                Ok(second) => Ok(first + second),
            },
        },
        SqlKind::Binary { left, op: SqlOperator::Eq, right } => Ok(seq![(*left, *right)]),
        _ => Err(
            ErrorView::Unsupported(
                "join condition "@ + condition.text@
                    + "; only equality joined with AND is supported"@,
            ),
        ),
    }
}

pub open spec fn pair_values(pairs: Seq<(&SqlExpr, &SqlExpr)>) -> Seq<(SqlExpr, SqlExpr)> {
    Seq::new(pairs.len(), |i: int| (*pairs[i].0, *pairs[i].1))
}

fn extract_join_pairs<'a>(condition: &'a SqlExpr) -> (r: Result<
    Vec<(&'a SqlExpr, &'a SqlExpr)>,
    SparkXError,
>)
    ensures
        match r {
            Ok(pairs) => join_pairs(*condition) == Ok::<Seq<(SqlExpr, SqlExpr)>, ErrorView>(
                pair_values(pairs@),
            ),
            Err(error) => join_pairs(*condition) == Err::<Seq<(SqlExpr, SqlExpr)>, ErrorView>(
                error@,
            ),
        },
    decreases condition,
{
    match &condition.kind {
        SqlKind::Binary { left, op: SqlOperator::And, right } => {
            let mut first = match extract_join_pairs(left) {
                Ok(pairs) => pairs,
                Err(error) => return Err(error),
            };
            let mut second = match extract_join_pairs(right) {
                Ok(pairs) => pairs,
                Err(error) => return Err(error),
            };
            let ghost a = first@;
            let ghost b = second@;
            first.append(&mut second);
            proof {
                assert(pair_values(first@) =~= pair_values(a) + pair_values(b));
            }
            Ok(first)
        },
        SqlKind::Binary { left, op: SqlOperator::Eq, right } => {
            let mut pairs: Vec<(&'a SqlExpr, &'a SqlExpr)> = Vec::new();
            pairs.push((&**left, &**right));
            proof {
                assert(pair_values(pairs@) =~= seq![(**left, **right)]);
            }
            Ok(pairs)
        },
        _ => {
            let mut message: String = join("join condition ", condition.text.as_str());
            message.append("; only equality joined with AND is supported");
            Err(SparkXError::unsupported(message))
        },
    }
}

/// Whether the sides of a pair belong to the inputs the other way round.
pub open spec fn is_swapped(
    pair: (SqlExpr, SqlExpr),
    left_qualifier: Seq<char>,
    right_qualifier: Seq<char>,
) -> bool {
    qualifier_of(pair.0) == Some(right_qualifier) || qualifier_of(pair.1) == Some(left_qualifier)
}

/// The keys of both inputs that the first `upto` pairs name.
pub open spec fn join_keys(
    pairs: Seq<(SqlExpr, SqlExpr)>,
    left_qualifier: Seq<char>,
    right_qualifier: Seq<char>,
    upto: int,
) -> Result<(Seq<ExprView>, Seq<ExprView>), ErrorView>
    decreases upto,
{
    if upto <= 0 {
        Ok((Seq::empty(), Seq::empty()))
    } else {
        match join_keys(pairs, left_qualifier, right_qualifier, upto - 1) {
            Err(error) => Err(error),
            Ok(keys) => {
                let pair = pairs[upto - 1];
                let swapped = is_swapped(pair, left_qualifier, right_qualifier);
                match planned_expr(
                    if swapped {
                        pair.1
                    } else {
                        pair.0
                    },
                ) {
                    Err(error) => Err(error),
                    Ok(left) => match planned_expr(
                        if swapped {
                            pair.0
                        } else {
                            pair.1
                        },
                    ) {
                        Err(error) => Err(error),
                        Ok(right) => Ok((keys.0.push(left), keys.1.push(right))),
                    },
                }
            },
        }
    }
}

proof fn keys_fail_early(
    pairs: Seq<(SqlExpr, SqlExpr)>,
    left_qualifier: Seq<char>,
    right_qualifier: Seq<char>,
    upto: int,
    full: int,
)
    requires
        0 <= upto <= full,
        join_keys(pairs, left_qualifier, right_qualifier, upto) is Err,
    ensures
        join_keys(pairs, left_qualifier, right_qualifier, full) == join_keys(
            pairs,
            left_qualifier,
            right_qualifier,
            upto,
        ),
    decreases full - upto,
{
    if upto < full {
        keys_fail_early(pairs, left_qualifier, right_qualifier, upto, full - 1);
    }
}

fn plan_keys(pairs: &Vec<(&SqlExpr, &SqlExpr)>, left_qualifier: &str, right_qualifier: &str) -> (r:
    Result<(Vec<Expr>, Vec<Expr>), SparkXError>)
    ensures
        match r {
            Ok((left, right)) => join_keys(
                pair_values(pairs@),
                left_qualifier@,
                right_qualifier@,
                pairs.len() as int,
            ) == Ok::<(Seq<ExprView>, Seq<ExprView>), ErrorView>(
                (expr_views(left@), expr_views(right@)),
            ),
            Err(error) => join_keys(
                pair_values(pairs@),
                left_qualifier@,
                right_qualifier@,
                pairs.len() as int,
            ) == Err::<(Seq<ExprView>, Seq<ExprView>), ErrorView>(error@),
        },
{
    let ghost values = pair_values(pairs@);
    let mut left_on: Vec<Expr> = Vec::new();
    let mut right_on: Vec<Expr> = Vec::new();
    proof {
        assert(expr_views(left_on@) =~= Seq::empty());
        assert(expr_views(right_on@) =~= Seq::empty());
    }
    for i in 0..pairs.len()
        invariant
            values == pair_values(pairs@),
            join_keys(values, left_qualifier@, right_qualifier@, i as int) == Ok::<
                (Seq<ExprView>, Seq<ExprView>),
                ErrorView,
            >((expr_views(left_on@), expr_views(right_on@))),
    {
        let ghost lefts = expr_views(left_on@);
        let ghost rights = expr_views(right_on@);
        let (first, second) = pairs[i];
        proof {
            assert(values[i as int] == (*first, *second));
        }
        let swapped: bool = is_qualified_by(first, right_qualifier) || is_qualified_by(
            second,
            left_qualifier,
        );
        let (of_left, of_right) = if swapped {
            (second, first)
        } else {
            (first, second)
        };
        let left = match sql_expr(of_left) {
            Ok(expr) => expr,
            Err(error) => {
                proof {
                    keys_fail_early(
                        values,
                        left_qualifier@,
                        right_qualifier@,
                        i + 1,
                        pairs.len() as int,
                    );
                }
                return Err(error);
            },
        };
        let right = match sql_expr(of_right) {
            Ok(expr) => expr,
            Err(error) => {
                proof {
                    keys_fail_early(
                        values,
                        left_qualifier@,
                        right_qualifier@,
                        i + 1,
                        pairs.len() as int,
                    );
                }
                return Err(error);
            },
        };
        left_on.push(left);
        right_on.push(right);
        proof {
            assert(expr_views(left_on@) =~= lefts.push(left@));
            assert(expr_views(right_on@) =~= rights.push(right@));
        }
    }
    Ok((left_on, right_on))
}

/// The kind of a join and its condition.
pub open spec fn join_parts(operator: SqlJoinOperator) -> Result<(JoinType, SqlExpr), ErrorView> {
    match operator {
        SqlJoinOperator::Inner(SqlConstraint::On(condition)) => Ok((JoinType::Inner, condition)),
        SqlJoinOperator::Left(SqlConstraint::On(condition)) => Ok((JoinType::Left, condition)),
        SqlJoinOperator::Other(text) => Err(ErrorView::Unsupported("join operator "@ + text@)),
        _ => Err(
            ErrorView::Unsupported("only JOIN ... ON equality constraints are supported"@),
        ),
    }
}

/// The error of the first expression from `from` on that has no meaning over a schema. A key of a
/// join has to have one over both inputs together, so that no name stands for a column of each.
pub open spec fn visibility_check(exprs: Seq<ExprView>, schema: SchemaView, from: int) -> Result<
    (),
    ErrorView,
>
    decreases exprs.len() - from,
{
    if from >= exprs.len() {
        Ok(())
    } else {
        match exprs[from].data_type(schema) {
            Err(error) => Err(error),
            Ok(_) => visibility_check(exprs, schema, from + 1),
        }
    }
}

fn check_visibility(exprs: &Vec<Expr>, schema: &Schema) -> (r: Result<(), SparkXError>)
    ensures
        outcome(r) == visibility_check(expr_views(exprs@), schema@, 0),
{
    let ghost views = expr_views(exprs@);
    for i in 0..exprs.len()
        invariant
            views == expr_views(exprs@),
            visibility_check(views, schema@, 0) == visibility_check(views, schema@, i as int),
    {
        proof {
            assert(views[i as int] == exprs@[i as int]@);
        }
        match exprs[i].data_type(schema) {
            Ok(_) => {},
            Err(error) => return Err(error),
        }
    }
    Ok(())
}

/// The plan of a relation with a join.
pub open spec fn planned_join(
    plan: LogicalView,
    left_qualifier: Seq<char>,
    join: SqlJoin,
    tables: Map<Seq<char>, TableView>,
) -> Result<LogicalView, ErrorView> {
    match planned_relation(join.relation, tables) {
        Err(error) => Err(error),
        Ok((right, right_qualifier)) => match join_parts(join.operator) {
            Err(error) => Err(error),
            Ok((join_type, condition)) => match join_pairs(condition) {
                Err(error) => Err(error),
                Ok(pairs) => match join_keys(
                    pairs,
                    left_qualifier,
                    right_qualifier,
                    pairs.len() as int,
                ) {
                    Err(error) => Err(error),
                    Ok((left_on, right_on)) => match joined(
                        plan,
                        right,
                        join_type,
                        left_on,
                        right_on,
                    ) {
                        Err(error) => Err(error),
                        Ok(output) => match visibility_check(
                            left_on + right_on,
                            output.schema(),
                            0,
                        ) {
                            Err(error) => Err(error),
                            Ok(()) => Ok(output),
                        },
                    },
                },
            },
        },
    }
}

/// The plan of a FROM clause.
pub open spec fn planned_from(from: SqlFrom, tables: Map<Seq<char>, TableView>) -> Result<
    LogicalView,
    ErrorView,
> {
    if from.joins.len() > 1 {
        Err(ErrorView::Unsupported("more than one JOIN in a SELECT"@))
    } else {
        match planned_relation(from.relation, tables) {
            Err(error) => Err(error),
            Ok((plan, qualifier)) => if from.joins.len() == 0 {
                Ok(plan)
            } else {
                planned_join(plan, qualifier, from.joins@[0], tables)
            },
        }
    }
}

fn plan_join(plan: LogicalPlan, left_qualifier: &str, join: &SqlJoin, catalog: &Catalog) -> (r:
    Result<LogicalPlan, SparkXError>)
    requires
        catalog.wf(),
    ensures
        plan_outcome(r) == planned_join(plan@, left_qualifier@, *join, catalog@),
{
    let (right, right_qualifier) = match table_factor(&join.relation, catalog) {
        Ok(parts) => parts,
        Err(error) => return Err(error),
    };
    let (join_type, condition) = match &join.operator {
        SqlJoinOperator::Inner(SqlConstraint::On(condition)) => (JoinType::Inner, condition),
        SqlJoinOperator::Left(SqlConstraint::On(condition)) => (JoinType::Left, condition),
        SqlJoinOperator::Other(text) => return Err(
            SparkXError::unsupported(crate::text::join("join operator ", text.as_str())),
        ),
        _ => return Err(
            SparkXError::unsupported(
                "only JOIN ... ON equality constraints are supported".to_owned(),
            ),
        ),
    };
    let pairs = match extract_join_pairs(condition) {
        Ok(pairs) => pairs,
        Err(error) => return Err(error),
    };
    match plan_keys(&pairs, left_qualifier, right_qualifier.as_str()) {
        Ok((left_on, right_on)) => {
            let mut keys = clone_exprs(&left_on);
            let mut more = clone_exprs(&right_on);
            let ghost first = keys@;
            let ghost second = more@;
            keys.append(&mut more);
            proof {
                assert(expr_views(keys@) =~= expr_views(first) + expr_views(second));
            }
            let output = match LogicalPlan::join(plan, right, join_type, left_on, right_on) {
                Ok(output) => output,
                Err(error) => return Err(error),
            };
            match check_visibility(&keys, output.schema()) {
                Ok(()) => Ok(output),
                Err(error) => Err(error),
            }
        },
        Err(error) => Err(error),
    }
}

fn plan_from(from: &SqlFrom, catalog: &Catalog) -> (r: Result<LogicalPlan, SparkXError>)
    requires
        catalog.wf(),
    ensures
        plan_outcome(r) == planned_from(*from, catalog@),
{
    if from.joins.len() > 1 {
        return Err(SparkXError::unsupported("more than one JOIN in a SELECT".to_owned()));
    }
    let (plan, qualifier) = match table_factor(&from.relation, catalog) {
        Ok(parts) => parts,
        Err(error) => return Err(error),
    };
    if from.joins.len() == 0 {
        return Ok(plan);
    }
    plan_join(plan, qualifier.as_str(), &from.joins[0], catalog)
}

/// The expression that a SELECT lists.
pub open spec fn planned_item(item: SqlItem) -> Result<ExprView, ErrorView> {
    match item {
        SqlItem::Expr(expr) => planned_expr(expr),
        SqlItem::Aliased { expr, alias } => match planned_expr(expr) {
            Err(error) => Err(error),
            Ok(expr) => Ok(ExprView::Alias(Box::new(expr), alias@)),
        },
        SqlItem::Wildcard => Ok(ExprView::Wildcard),
        SqlItem::QualifiedWildcard => Err(
            ErrorView::Unsupported("qualified wildcard projection"@),
        ),
        SqlItem::MultipleAliases => Err(ErrorView::Unsupported("multi-alias projection"@)),
    }
}

/// The expressions that the first `upto` items of a SELECT list.
pub open spec fn planned_items(items: Seq<SqlItem>, upto: int) -> Result<Seq<ExprView>, ErrorView>
    decreases upto,
{
    if upto <= 0 {
        Ok(Seq::empty())
    } else {
        match planned_items(items, upto - 1) {
            Err(error) => Err(error),
            Ok(exprs) => match planned_item(items[upto - 1]) {
                Err(error) => Err(error),
                Ok(expr) => Ok(exprs.push(expr)),
            },
        }
    }
}

proof fn items_fail_early(items: Seq<SqlItem>, upto: int, full: int)
    requires
        0 <= upto <= full,
        planned_items(items, upto) is Err,
    ensures
        planned_items(items, full) == planned_items(items, upto),
    decreases full - upto,
{
    if upto < full {
        items_fail_early(items, upto, full - 1);
    }
}

pub open spec fn list_outcome(r: Result<Vec<Expr>, SparkXError>) -> Result<
    Seq<ExprView>,
    ErrorView,
> {
    match r {
        Ok(exprs) => Ok(expr_views(exprs@)),
        Err(error) => Err(error@),
    }
}

fn select_item(item: &SqlItem) -> (r: Result<Expr, SparkXError>)
    ensures
        crate::sql::scalar::expr_outcome(r) == planned_item(*item),
{
    match item {
        SqlItem::Expr(expr) => sql_expr(expr),
        SqlItem::Aliased { expr, alias } => match sql_expr(expr) {
            Ok(expr) => Ok(expr.alias(alias.clone())),
            Err(error) => Err(error),
        },
        SqlItem::Wildcard => Ok(Expr::Wildcard),
        SqlItem::QualifiedWildcard => Err(
            SparkXError::unsupported("qualified wildcard projection".to_owned()),
        ),
        SqlItem::MultipleAliases => Err(
            SparkXError::unsupported("multi-alias projection".to_owned()),
        ),
    }
}

fn select_items(items: &Vec<SqlItem>) -> (r: Result<Vec<Expr>, SparkXError>)
    ensures
        list_outcome(r) == planned_items(items@, items.len() as int),
{
    let mut exprs: Vec<Expr> = Vec::new();
    proof {
        assert(expr_views(exprs@) =~= Seq::empty());
    }
    for i in 0..items.len()
        invariant
            planned_items(items@, i as int) == Ok::<Seq<ExprView>, ErrorView>(expr_views(exprs@)),
    {
        let ghost before = expr_views(exprs@);
        match select_item(&items[i]) {
            Ok(expr) => {
                let ghost view = expr@;
                exprs.push(expr);
                proof {
                    assert(expr_views(exprs@) =~= before.push(view));
                }
            },
            Err(error) => {
                proof {
                    items_fail_early(items@, i + 1, items.len() as int);
                }
                return Err(error);
            },
        }
    }
    Ok(exprs)
}

/// The engine's expressions for the first `upto` of a list.
pub open spec fn planned_exprs(exprs: Seq<SqlExpr>, upto: int) -> Result<Seq<ExprView>, ErrorView>
    decreases upto,
{
    if upto <= 0 {
        Ok(Seq::empty())
    } else {
        match planned_exprs(exprs, upto - 1) {
            Err(error) => Err(error),
            Ok(before) => match planned_expr(exprs[upto - 1]) {
                Err(error) => Err(error),
                Ok(expr) => Ok(before.push(expr)),
            },
        }
    }
}

proof fn exprs_fail_early(exprs: Seq<SqlExpr>, upto: int, full: int)
    requires
        0 <= upto <= full,
        planned_exprs(exprs, upto) is Err,
    ensures
        planned_exprs(exprs, full) == planned_exprs(exprs, upto),
    decreases full - upto,
{
    if upto < full {
        exprs_fail_early(exprs, upto, full - 1);
    }
}

fn sql_exprs(exprs: &Vec<SqlExpr>) -> (r: Result<Vec<Expr>, SparkXError>)
    ensures
        list_outcome(r) == planned_exprs(exprs@, exprs.len() as int),
{
    let mut out: Vec<Expr> = Vec::new();
    proof {
        assert(expr_views(out@) =~= Seq::empty());
    }
    for i in 0..exprs.len()
        invariant
            planned_exprs(exprs@, i as int) == Ok::<Seq<ExprView>, ErrorView>(expr_views(out@)),
    {
        let ghost before = expr_views(out@);
        match sql_expr(&exprs[i]) {
            Ok(expr) => {
                let ghost view = expr@;
                out.push(expr);
                proof {
                    assert(expr_views(out@) =~= before.push(view));
                }
            },
            Err(error) => {
                proof {
                    exprs_fail_early(exprs@, i + 1, exprs.len() as int);
                }
                return Err(error);
            },
        }
    }
    Ok(out)
}

/// The expressions among the first `upto` that hold an aggregate, or those that do not.
pub open spec fn chosen(exprs: Seq<ExprView>, with_aggregate: bool, upto: int) -> Seq<ExprView>
    decreases upto,
{
    if upto <= 0 {
        Seq::empty()
    } else if exprs[upto - 1].contains_aggregate() == with_aggregate {
        chosen(exprs, with_aggregate, upto - 1).push(exprs[upto - 1])
    } else {
        chosen(exprs, with_aggregate, upto - 1)
    }
}

fn choose_exprs(exprs: &Vec<Expr>, with_aggregate: bool) -> (r: Vec<Expr>)
    ensures
        expr_views(r@) == chosen(expr_views(exprs@), with_aggregate, exprs.len() as int),
{
    let ghost views = expr_views(exprs@);
    let mut out: Vec<Expr> = Vec::new();
    proof {
        assert(expr_views(out@) =~= Seq::empty());
    }
    for i in 0..exprs.len()
        invariant
            views == expr_views(exprs@),
            expr_views(out@) == chosen(views, with_aggregate, i as int),
    {
        let ghost before = expr_views(out@);
        proof {
            assert(views[i as int] == exprs@[i as int]@);
        }
        if exprs[i].contains_aggregate() == with_aggregate {
            out.push(exprs[i].clone());
            proof {
                assert(expr_views(out@) =~= before.push(views[i as int]));
            }
        }
    }
    out
}

/// The expressions by which a SELECT groups.
pub open spec fn planned_groups(group_by: SqlGroupBy, projection: Seq<ExprView>) -> Result<
    Seq<ExprView>,
    ErrorView,
> {
    match group_by {
        SqlGroupBy::Expressions { exprs, has_modifiers } => if has_modifiers {
            Err(ErrorView::Unsupported("GROUP BY modifiers"@))
        } else {
            planned_exprs(exprs@, exprs.len() as int)
        },
        SqlGroupBy::All => Ok(chosen(projection, false, projection.len() as int)),
    }
}

/// The error of the first aggregate expression from `from` on that is no call, but holds one.
pub open spec fn direct_check(exprs: Seq<ExprView>, from: int) -> Result<(), ErrorView>
    decreases exprs.len() - from,
{
    if from >= exprs.len() {
        Ok(())
    } else if !(exprs[from].unalias() is Aggregate) {
        Err(
            ErrorView::Unsupported(
                "aggregate expressions must be directly projected; got "@ + exprs[from].text(),
            ),
        )
    } else {
        direct_check(exprs, from + 1)
    }
}

/// The columns with the names of expressions.
pub open spec fn output_columns(exprs: Seq<ExprView>) -> Seq<ExprView> {
    Seq::new(exprs.len(), |i: int| ExprView::Column(exprs[i].name()))
}

fn name_columns(exprs: &Vec<Expr>) -> (r: Vec<Expr>)
    ensures
        expr_views(r@) == output_columns(expr_views(exprs@)),
{
    let mut out: Vec<Expr> = Vec::new();
    for i in 0..exprs.len()
        invariant
            out.len() == i,
            forall|k: int|
                0 <= k < i ==> (#[trigger] out@[k])@ == ExprView::Column(exprs@[k]@.name()),
    {
        out.push(Expr::Column(exprs[i].name()));
    }
    proof {
        assert(expr_views(out@) =~= output_columns(expr_views(exprs@)));
    }
    out
}

/// A plan filtered by a condition, where there is one.
pub open spec fn filtered_by(plan: LogicalView, condition: Option<SqlExpr>) -> Result<
    LogicalView,
    ErrorView,
> {
    match condition {
        None => Ok(plan),
        Some(condition) => match planned_expr(condition) {
            Err(error) => Err(error),
            Ok(predicate) => filtered(plan, predicate),
        },
    }
}

fn filter_by(plan: LogicalPlan, condition: &Option<SqlExpr>) -> (r: Result<
    LogicalPlan,
    SparkXError,
>)
    ensures
        plan_outcome(r) == filtered_by(plan@, *condition),
{
    match condition {
        None => Ok(plan),
        Some(condition) => match sql_expr(condition) {
            Ok(predicate) => LogicalPlan::filter(plan, predicate),
            Err(error) => Err(error),
        },
    }
}

/// A plan with the projection, grouping and HAVING of a SELECT.
pub open spec fn planned_output(
    plan: LogicalView,
    projection: Seq<ExprView>,
    group_exprs: Seq<ExprView>,
    having: Option<SqlExpr>,
) -> Result<LogicalView, ErrorView> {
    let aggregates = chosen(projection, true, projection.len() as int);
    match direct_check(aggregates, 0) {
        Err(error) => Err(error),
        Ok(()) => if group_exprs.len() > 0 || aggregates.len() > 0 {
            match aggregated(plan, group_exprs, aggregates) {
                Err(error) => Err(error),
                Ok(grouped) => match projected(grouped, output_columns(projection)) {
                    Err(error) => Err(error),
                    Ok(output) => filtered_by(output, having),
                },
            }
        } else {
            projected(plan, projection)
        },
    }
}

fn plan_output(
    plan: LogicalPlan,
    projection: Vec<Expr>,
    group_exprs: Vec<Expr>,
    having: &Option<SqlExpr>,
) -> (r: Result<LogicalPlan, SparkXError>)
    ensures
        plan_outcome(r) == planned_output(
            plan@,
            expr_views(projection@),
            expr_views(group_exprs@),
            *having,
        ),
{
    let aggregates = choose_exprs(&projection, true);
    let ghost views = expr_views(aggregates@);
    for i in 0..aggregates.len()
        invariant
            views == expr_views(aggregates@),
            views == chosen(expr_views(projection@), true, projection.len() as int),
            direct_check(views, 0) == direct_check(views, i as int),
    {
        proof {
            assert(views[i as int] == aggregates@[i as int]@);
        }
        let is_call: bool = match aggregates[i].unalias() {
            Expr::Aggregate { .. } => true,
            _ => false,
        };
        if !is_call {
            return Err(
                SparkXError::unsupported(
                    join(
                        "aggregate expressions must be directly projected; got ",
                        aggregates[i].to_text().as_str(),
                    ),
                ),
            );
        }
    }
    if group_exprs.len() > 0 || aggregates.len() > 0 {
        let grouped = match LogicalPlan::aggregate(plan, group_exprs, aggregates) {
            Ok(plan) => plan,
            Err(error) => return Err(error),
        };
        match LogicalPlan::project(grouped, name_columns(&projection)) {
            Ok(output) => filter_by(output, having),
            Err(error) => Err(error),
        }
    } else {
        LogicalPlan::project(plan, projection)
    }
}

/// The plan of a SELECT.
pub open spec fn planned_select(select: SqlSelect, tables: Map<Seq<char>, TableView>) -> Result<
    LogicalView,
    ErrorView,
> {
    if select.distinct {
        Err(ErrorView::Unsupported("SELECT DISTINCT"@))
    } else if select.from.len() != 1 {
        Err(ErrorView::Planning("a SELECT must contain exactly one FROM relation"@))
    } else {
        match planned_from(select.from@[0], tables) {
            Err(error) => Err(error),
            Ok(source) => match filtered_by(source, select.selection) {
                Err(error) => Err(error),
                Ok(plan) => match planned_items(
                    select.projection@,
                    select.projection.len() as int,
                ) {
                    Err(error) => Err(error),
                    Ok(projection) => match planned_groups(select.group_by, projection) {
                        Err(error) => Err(error),
                        Ok(groups) => planned_output(plan, projection, groups, select.having),
                    },
                },
            },
        }
    }
}

fn plan_select(select: &SqlSelect, catalog: &Catalog) -> (r: Result<LogicalPlan, SparkXError>)
    requires
        catalog.wf(),
    ensures
        plan_outcome(r) == planned_select(*select, catalog@),
{
    if select.distinct {
        return Err(SparkXError::unsupported("SELECT DISTINCT".to_owned()));
    }
    if select.from.len() != 1 {
        return Err(
            SparkXError::planning("a SELECT must contain exactly one FROM relation".to_owned()),
        );
    }
    let source = match plan_from(&select.from[0], catalog) {
        Ok(plan) => plan,
        Err(error) => return Err(error),
    };
    let plan = match filter_by(source, &select.selection) {
        Ok(plan) => plan,
        Err(error) => return Err(error),
    };
    let projection = match select_items(&select.projection) {
        Ok(exprs) => exprs,
        Err(error) => return Err(error),
    };
    let group_exprs = match &select.group_by {
        SqlGroupBy::Expressions { exprs, has_modifiers } => {
            if *has_modifiers {
                return Err(SparkXError::unsupported("GROUP BY modifiers".to_owned()));
            }
            match sql_exprs(exprs) {
                Ok(exprs) => exprs,
                Err(error) => return Err(error),
            }
        },
        SqlGroupBy::All => choose_exprs(&projection, false),
    };
    plan_output(plan, projection, group_exprs, &select.having)
}

/// The sort key that an ORDER BY names: ascending where nothing else is said, with NULL last where
/// it ascends and first where it descends.
pub open spec fn planned_order(order: SqlOrder) -> Result<SortView, ErrorView> {
    let ascending = match order.ascending {
        Some(ascending) => ascending,
        None => true,
    };
    if order.with_fill {
        Err(ErrorView::Unsupported("ORDER BY WITH FILL"@))
    } else {
        match planned_expr(order.expr) {
            Err(error) => Err(error),
            Ok(expr) => Ok(
                SortView {
                    expr,
                    ascending,
                    nulls_first: match order.nulls_first {
                        Some(nulls_first) => nulls_first,
                        None => !ascending,
                    },
                },
            ),
        }
    }
}

/// The first `upto` sort keys of an ORDER BY.
pub open spec fn planned_orders(orders: Seq<SqlOrder>, upto: int) -> Result<
    Seq<SortView>,
    ErrorView,
>
    decreases upto,
{
    if upto <= 0 {
        Ok(Seq::empty())
    } else {
        match planned_orders(orders, upto - 1) {
            Err(error) => Err(error),
            Ok(before) => match planned_order(orders[upto - 1]) {
                Err(error) => Err(error),
                Ok(sort) => Ok(before.push(sort)),
            },
        }
    }
}

proof fn orders_fail_early(orders: Seq<SqlOrder>, upto: int, full: int)
    requires
        0 <= upto <= full,
        planned_orders(orders, upto) is Err,
    ensures
        planned_orders(orders, full) == planned_orders(orders, upto),
    decreases full - upto,
{
    if upto < full {
        orders_fail_early(orders, upto, full - 1);
    }
}

fn plan_orders(orders: &Vec<SqlOrder>) -> (r: Result<Vec<SortExpr>, SparkXError>)
    ensures
        match r {
            Ok(sorts) => planned_orders(orders@, orders.len() as int) == Ok::<
                Seq<SortView>,
                ErrorView,
            >(sort_views(sorts@)),
            Err(error) => planned_orders(orders@, orders.len() as int) == Err::<
                Seq<SortView>,
                ErrorView,
            >(error@),
        },
{
    let mut sorts: Vec<SortExpr> = Vec::new();
    proof {
        assert(sort_views(sorts@) =~= Seq::empty());
    }
    for i in 0..orders.len()
        invariant
            planned_orders(orders@, i as int) == Ok::<Seq<SortView>, ErrorView>(
                sort_views(sorts@),
            ),
    {
        let ghost before = sort_views(sorts@);
        let order = &orders[i];
        if order.with_fill {
            proof {
                orders_fail_early(orders@, i + 1, orders.len() as int);
            }
            return Err(SparkXError::unsupported("ORDER BY WITH FILL".to_owned()));
        }
        let expr = match sql_expr(&order.expr) {
            Ok(expr) => expr,
            Err(error) => {
                proof {
                    orders_fail_early(orders@, i + 1, orders.len() as int);
                }
                return Err(error);
            },
        };
        let ascending: bool = match order.ascending {
            Some(ascending) => ascending,
            None => true,
        };
        let nulls_first: bool = match order.nulls_first {
            Some(nulls_first) => nulls_first,
            None => !ascending,
        };
        let sort = SortExpr { expr, ascending, nulls_first };
        let ghost view = sort@;
        sorts.push(sort);
        proof {
            assert(sort_views(sorts@) =~= before.push(view));
        }
    }
    Ok(sorts)
}

/// A plan in the order of an ORDER BY, where there is one.
pub open spec fn ordered(plan: LogicalView, order_by: Option<SqlOrderBy>) -> Result<
    LogicalView,
    ErrorView,
> {
    match order_by {
        None => Ok(plan),
        Some(order_by) => if order_by.interpolate {
            Err(ErrorView::Unsupported("ORDER BY INTERPOLATE"@))
        } else {
            match order_by.keys {
                None => Err(ErrorView::Unsupported("ORDER BY ALL"@)),
                Some(keys) => match planned_orders(keys@, keys.len() as int) {
                    Err(error) => Err(error),
                    Ok(sorts) => sorted(plan, sorts),
                },
            }
        },
    }
}

/// The number of rows to which a LIMIT limits, where there is one.
pub open spec fn limit_of(limit: Option<SqlLimit>) -> Result<Option<usize>, ErrorView> {
    match limit {
        None => Ok(None),
        Some(SqlLimit::OffsetComma) => Err(ErrorView::Unsupported("LIMIT offset, count"@)),
        Some(SqlLimit::Limit { limit, has_offset }) => if has_offset {
            Err(ErrorView::Unsupported("LIMIT OFFSET/BY"@))
        } else {
            match limit {
                Some(SqlExpr { kind: SqlKind::Number(text), .. }) => match written_number(text@) {
                    Some(n) => if n <= usize::MAX && text@[0] != '-' {
                        Ok(Some(n as usize))
                    } else {
                        Err(ErrorView::Planning("invalid LIMIT "@ + text@))
                    },
                    None => Err(ErrorView::Planning("invalid LIMIT "@ + text@)),
                },
                _ => Err(ErrorView::Planning("LIMIT must be an integer literal"@)),
            }
        },
    }
}

fn parse_limit(limit: &Option<SqlLimit>) -> (r: Result<Option<usize>, SparkXError>)
    ensures
        outcome(r) == limit_of(*limit),
{
    match limit {
        None => Ok(None),
        Some(SqlLimit::OffsetComma) => Err(
            SparkXError::unsupported("LIMIT offset, count".to_owned()),
        ),
        Some(SqlLimit::Limit { limit, has_offset }) => {
            if *has_offset {
                return Err(SparkXError::unsupported("LIMIT OFFSET/BY".to_owned()));
            }
            match limit {
                Some(expr) => match &expr.kind {
                    SqlKind::Number(text) => match parse_size(text.as_str()) {
                        Some(n) => Ok(Some(n)),
                        None => Err(SparkXError::planning(join("invalid LIMIT ", text.as_str()))),
                    },
                    _ => Err(
                        SparkXError::planning("LIMIT must be an integer literal".to_owned()),
                    ),
                },
                None => Err(SparkXError::planning("LIMIT must be an integer literal".to_owned())),
            }
        },
    }
}

/// The plan of a query.
pub open spec fn planned_query(query: SqlQuery, tables: Map<Seq<char>, TableView>) -> Result<
    LogicalView,
    ErrorView,
> {
    if query.has_with {
        Err(ErrorView::Unsupported("CTEs are not implemented yet"@))
    } else {
        match query.body {
            None => Err(
                ErrorView::Unsupported("UNION, INTERSECT, and EXCEPT are not implemented yet"@),
            ),
            Some(select) => match planned_select(select, tables) {
                Err(error) => Err(error),
                Ok(plan) => match ordered(plan, query.order_by) {
                    Err(error) => Err(error),
                    Ok(plan) => match limit_of(query.limit) {
                        Err(error) => Err(error),
                        Ok(None) => Ok(plan),
                        Ok(Some(limit)) => Ok(limited(plan, limit)),
                    },
                },
            },
        }
    }
}

/// The plan of a query over the tables of a catalog.
pub fn plan_query(query: &SqlQuery, catalog: &Catalog) -> (r: Result<LogicalPlan, SparkXError>)
    requires
        catalog.wf(),
    ensures
        plan_outcome(r) == planned_query(*query, catalog@),
{
    if query.has_with {
        return Err(SparkXError::unsupported("CTEs are not implemented yet".to_owned()));
    }
    let select = match &query.body {
        Some(select) => select,
        None => return Err(
            SparkXError::unsupported(
                "UNION, INTERSECT, and EXCEPT are not implemented yet".to_owned(),
            ),
        ),
    };
    let mut plan = match plan_select(select, catalog) {
        Ok(plan) => plan,
        Err(error) => return Err(error),
    };
    if let Some(order_by) = &query.order_by {
        if order_by.interpolate {
            return Err(SparkXError::unsupported("ORDER BY INTERPOLATE".to_owned()));
        }
        let keys = match &order_by.keys {
            Some(keys) => keys,
            None => return Err(SparkXError::unsupported("ORDER BY ALL".to_owned())),
        };
        let sorts = match plan_orders(keys) {
            Ok(sorts) => sorts,
            Err(error) => return Err(error),
        };
        plan = match LogicalPlan::sort(plan, sorts) {
            Ok(plan) => plan,
            Err(error) => return Err(error),
        };
    }
    match parse_limit(&query.limit) {
        Ok(None) => Ok(plan),
        Ok(Some(limit)) => Ok(LogicalPlan::limit(plan, limit)),
        Err(error) => Err(error),
    }
}

/// The plan of a text of SQL by its statements: there is to be one, and it a query.
pub open spec fn planned_statements(
    statements: Seq<SqlStatement>,
    tables: Map<Seq<char>, TableView>,
) -> Result<LogicalView, ErrorView> {
    if statements.len() != 1 {
        Err(ErrorView::Planning("exactly one SQL statement is required"@))
    } else {
        match statements[0] {
            SqlStatement::Query(query) => planned_query(query, tables),
            SqlStatement::Other(text) => Err(
                ErrorView::Unsupported("only SELECT queries are supported, got "@ + text@),
            ),
        }
    }
}

/// The plan of the one query that a text of SQL holds.
pub fn plan_statements(statements: &Vec<SqlStatement>, catalog: &Catalog) -> (r: Result<
    LogicalPlan,
    SparkXError,
>)
    requires
        catalog.wf(),
    ensures
        plan_outcome(r) == planned_statements(statements@, catalog@),
{
    if statements.len() != 1 {
        return Err(SparkXError::planning("exactly one SQL statement is required".to_owned()));
    }
    match &statements[0] {
        SqlStatement::Query(query) => plan_query(query, catalog),
        SqlStatement::Other(text) => Err(
            SparkXError::unsupported(
                join("only SELECT queries are supported, got ", text.as_str()),
            ),
        ),
    }
}

} // verus!

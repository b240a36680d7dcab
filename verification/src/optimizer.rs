//! Rewriting logical plans before they are run.

use crate::error::{ErrorView, SparkXError};
use crate::expr::{expr_views, find_column, resolve, Expr, ExprView};
use crate::logical::{
    aggregated, filtered, joined, limited, plan_outcome, projected, sort_views, sorted, LogicalPlan,
    LogicalView, SortExpr, SortView,
};
use crate::text::{
    before, before_is_total, before_is_transitive, in_order, same_text, short_name, text_views,
    unqualified,
};
use crate::types::{field_views, plain_schema, Field, Schema, SchemaView};
use vstd::prelude::*;

verus! {

// ---- simplifying the expressions of one operator

/// The first `upto` expressions made simple, or the first error.
pub open spec fn all_simplified(exprs: Seq<ExprView>, schema: SchemaView, upto: int) -> Result<
    Seq<ExprView>,
    ErrorView,
>
    decreases upto,
{
    if upto <= 0 {
        Ok(Seq::empty())
    } else {
        match all_simplified(exprs, schema, upto - 1) {
            Err(error) => Err(error),
            Ok(earlier) => match exprs[upto - 1].simplified(schema) {
                Err(error) => Err(error),
                Ok(expr) => Ok(earlier.push(expr)),
            },
        }
    }
}

/// The first `upto` sort keys made simple, or the first error.
pub open spec fn sorts_simplified(exprs: Seq<SortView>, schema: SchemaView, upto: int) -> Result<
    Seq<SortView>,
    ErrorView,
>
    decreases upto,
{
    if upto <= 0 {
        Ok(Seq::empty())
    } else {
        match sorts_simplified(exprs, schema, upto - 1) {
            Err(error) => Err(error),
            Ok(earlier) => match exprs[upto - 1].expr.simplified(schema) {
                Err(error) => Err(error),
                Ok(expr) => Ok(earlier.push(SortView { expr, ..exprs[upto - 1] })),
            },
        }
    }
}

proof fn simplification_fails_early(
    exprs: Seq<ExprView>,
    schema: SchemaView,
    upto: int,
    full: int,
)
    requires
        0 <= upto <= full,
        all_simplified(exprs, schema, upto) is Err,
    ensures
        all_simplified(exprs, schema, full) == all_simplified(exprs, schema, upto),
    decreases full - upto,
{
    if upto < full {
        simplification_fails_early(exprs, schema, upto, full - 1);
    }
}

proof fn sort_simplification_fails_early(
    exprs: Seq<SortView>,
    schema: SchemaView,
    upto: int,
    full: int,
)
    requires
        0 <= upto <= full,
        sorts_simplified(exprs, schema, upto) is Err,
    ensures
        sorts_simplified(exprs, schema, full) == sorts_simplified(exprs, schema, upto),
    decreases full - upto,
{
    if upto < full {
        sort_simplification_fails_early(exprs, schema, upto, full - 1);
    }
}

/// A plan with the expressions of its top operator made simple.
pub open spec fn simplified_plan(plan: LogicalView) -> Result<LogicalView, ErrorView> {
    match plan {
        LogicalView::Scan { table, projection, filters, schema } => match all_simplified(
            filters,
            schema,
            filters.len() as int,
        ) {
            Err(error) => Err(error),
            Ok(filters) => Ok(LogicalView::Scan { table, projection, filters, schema }),
        },
        LogicalView::Projection { input, exprs, .. } => match all_simplified(
            exprs,
            input.schema(),
            exprs.len() as int,
        ) {
            Err(error) => Err(error),
            Ok(exprs) => projected(*input, exprs),
        },
        LogicalView::Filter { input, predicate, .. } => match predicate.simplified(
            input.schema(),
        ) {
            Err(error) => Err(error),
            Ok(predicate) => filtered(*input, predicate),
        },
        LogicalView::Aggregate { input, group_exprs, aggregate_exprs, .. } => match all_simplified(
            group_exprs,
            input.schema(),
            group_exprs.len() as int,
        ) {
            Err(error) => Err(error),
            Ok(groups) => match all_simplified(
                aggregate_exprs,
                input.schema(),
                aggregate_exprs.len() as int,
            ) {
                Err(error) => Err(error),
                Ok(aggregates) => aggregated(*input, groups, aggregates),
            },
        },
        LogicalView::Sort { input, exprs, .. } => match sorts_simplified(
            exprs,
            input.schema(),
            exprs.len() as int,
        ) {
            Err(error) => Err(error),
            Ok(exprs) => sorted(*input, exprs),
        },
        LogicalView::Limit { input, limit, .. } => Ok(limited(*input, limit)),
        LogicalView::Join { left, right, join_type, left_on, right_on, .. } => match all_simplified(
            left_on,
            left.schema(),
            left_on.len() as int,
        ) {
            Err(error) => Err(error),
            Ok(left_keys) => match all_simplified(
                right_on,
                right.schema(),
                right_on.len() as int,
            ) {
                Err(error) => Err(error),
                Ok(right_keys) => joined(*left, *right, join_type, left_keys, right_keys),
            },
        },
    }
}

/// Expressions that were made, as contracts see them.
pub open spec fn exprs_outcome(r: Result<Vec<Expr>, SparkXError>) -> Result<
    Seq<ExprView>,
    ErrorView,
> {
    match r {
        Ok(exprs) => Ok(expr_views(exprs@)),
        Err(error) => Err(error@),
    }
}

fn simplify_all(exprs: &Vec<Expr>, schema: &Schema) -> (r: Result<Vec<Expr>, SparkXError>)
    ensures
        exprs_outcome(r) == all_simplified(expr_views(exprs@), schema@, exprs.len() as int),
{
    let ghost views = expr_views(exprs@);
    let mut simple: Vec<Expr> = Vec::new();
    proof {
        assert(expr_views(simple@) =~= Seq::empty());
    }
    for i in 0..exprs.len()
        invariant
            views == expr_views(exprs@),
            all_simplified(views, schema@, i as int) == Ok::<Seq<ExprView>, ErrorView>(
                expr_views(simple@),
            ),
    {
        let ghost earlier = expr_views(simple@);
        proof {
            assert(views[i as int] == exprs@[i as int]@);
        }
        match exprs[i].simplify(schema) {
            Ok(expr) => {
                simple.push(expr);
                proof {
                    assert(expr_views(simple@) =~= earlier.push(expr@));
                }
            },
            Err(error) => {
                proof {
                    simplification_fails_early(views, schema@, i + 1, exprs.len() as int);
                }
                return Err(error);
            },
        }
    }
    Ok(simple)
}

fn simplify_sorts(exprs: &Vec<SortExpr>, schema: &Schema) -> (r: Result<
    Vec<SortExpr>,
    SparkXError,
>)
    ensures
        match r {
            Ok(simple) => sorts_simplified(sort_views(exprs@), schema@, exprs.len() as int)
                == Ok::<Seq<SortView>, ErrorView>(sort_views(simple@)),
            Err(error) => sorts_simplified(sort_views(exprs@), schema@, exprs.len() as int)
                == Err::<Seq<SortView>, ErrorView>(error@),
        },
{
    let ghost views = sort_views(exprs@);
    let mut simple: Vec<SortExpr> = Vec::new();
    proof {
        assert(sort_views(simple@) =~= Seq::empty());
    }
    for i in 0..exprs.len()
        invariant
            views == sort_views(exprs@),
            sorts_simplified(views, schema@, i as int) == Ok::<Seq<SortView>, ErrorView>(
                sort_views(simple@),
            ),
    {
        let ghost earlier = sort_views(simple@);
        proof {
            assert(views[i as int] == exprs@[i as int]@);
        }
        match exprs[i].expr.simplify(schema) {
            Ok(expr) => {
                let sort = SortExpr {
                    expr,
                    ascending: exprs[i].ascending,
                    nulls_first: exprs[i].nulls_first,
                };
                simple.push(sort);
                proof {
                    assert(sort_views(simple@) =~= earlier.push(sort@));
                }
            },
            Err(error) => {
                proof {
                    sort_simplification_fails_early(views, schema@, i + 1, exprs.len() as int);
                }
                return Err(error);
            },
        }
    }
    Ok(simple)
}

fn simplify_expressions(plan: LogicalPlan) -> (r: Result<LogicalPlan, SparkXError>)
    ensures
        plan_outcome(r) == simplified_plan(plan@),
{
    match plan {
        LogicalPlan::Scan { table, projection, filters, schema } => {
            match simplify_all(&filters, &schema) {
                Ok(filters) => Ok(LogicalPlan::Scan { table, projection, filters, schema }),
                Err(error) => Err(error),
            }
        },
        LogicalPlan::Projection { input, exprs, .. } => {
            match simplify_all(&exprs, input.schema()) {
                Ok(exprs) => LogicalPlan::project(*input, exprs),
                Err(error) => Err(error),
            }
        },
        LogicalPlan::Filter { input, predicate, .. } => {
            match predicate.simplify(input.schema()) {
                Ok(predicate) => LogicalPlan::filter(*input, predicate),
                Err(error) => Err(error),
            }
        },
        LogicalPlan::Aggregate { input, group_exprs, aggregate_exprs, .. } => {
            let groups = match simplify_all(&group_exprs, input.schema()) {
                Ok(exprs) => exprs,
                Err(error) => return Err(error),
            };
            match simplify_all(&aggregate_exprs, input.schema()) {
                Ok(aggregates) => LogicalPlan::aggregate(*input, groups, aggregates),
                Err(error) => Err(error),
            }
        },
        LogicalPlan::Sort { input, exprs, .. } => {
            match simplify_sorts(&exprs, input.schema()) {
                Ok(exprs) => LogicalPlan::sort(*input, exprs),
                Err(error) => Err(error),
            }
        },
        LogicalPlan::Limit { input, limit, .. } => Ok(LogicalPlan::limit(*input, limit)),
        LogicalPlan::Join { left, right, join_type, left_on, right_on, .. } => {
            let left_keys = match simplify_all(&left_on, left.schema()) {
                Ok(exprs) => exprs,
                Err(error) => return Err(error),
            };
            match simplify_all(&right_on, right.schema()) {
                Ok(right_keys) => LogicalPlan::join(
                    *left,
                    *right,
                    join_type,
                    left_keys,
                    right_keys,
                ),
                Err(error) => Err(error),
            }
        },
    }
}

// ---- moving filters and projections into scans

/// A filter over a scan made a filter of the scan; any other filter is checked again.
pub open spec fn filter_pushed(plan: LogicalView) -> Result<LogicalView, ErrorView> {
    match plan {
        LogicalView::Filter { input, predicate, .. } => match *input {
            LogicalView::Scan { table, projection, filters, schema } => Ok(
                LogicalView::Scan { table, projection, filters: filters.push(predicate), schema },
            ),
            _ => filtered(*input, predicate),
        },
        _ => Ok(plan),
    }
}

fn push_filter_into_scan(plan: LogicalPlan) -> (r: Result<LogicalPlan, SparkXError>)
    ensures
        plan_outcome(r) == filter_pushed(plan@),
{
    proof {
        reveal_with_fuel(crate::logical::logical_view, 3);
    }
    match plan {
        LogicalPlan::Filter { input, predicate, schema } => {
            match *input {
                LogicalPlan::Scan { table, projection, filters, schema } => {
                    let mut filters = filters;
                    let ghost earlier = expr_views(filters@);
                    filters.push(predicate);
                    proof {
                        assert(expr_views(filters@) =~= earlier.push(predicate@));
                    }
                    Ok(LogicalPlan::Scan { table, projection, filters, schema })
                },
                other => LogicalPlan::filter(other, predicate),
            }
        },
        other => Ok(other),
    }
}

/// The columns that some expressions read, without their tables.
pub open spec fn columns_of(exprs: Seq<ExprView>) -> Set<Seq<char>> {
    Set::new(
        |name: Seq<char>|
            exists|i: int| 0 <= i < exprs.len() && (#[trigger] exprs[i]).columns().contains(name),
    )
}

/// The places of named columns in a schema, or the first error.
pub open spec fn places_of(names: Seq<Seq<char>>, schema: SchemaView, upto: int) -> Result<
    Seq<int>,
    ErrorView,
>
    decreases upto,
{
    if upto <= 0 {
        Ok(Seq::empty())
    } else {
        match places_of(names, schema, upto - 1) {
            Err(error) => Err(error),
            Ok(places) => match resolve(schema.names(), names[upto - 1]) {
                Err(error) => Err(error),
                Ok(place) => Ok(places.push(place)),
            },
        }
    }
}

proof fn places_fail_early(names: Seq<Seq<char>>, schema: SchemaView, upto: int, full: int)
    requires
        0 <= upto <= full,
        places_of(names, schema, upto) is Err,
    ensures
        places_of(names, schema, full) == places_of(names, schema, upto),
    decreases full - upto,
{
    if upto < full {
        places_fail_early(names, schema, upto, full - 1);
    }
}

/// A scan of some columns of a schema, by their places.
pub open spec fn narrowed(
    table: Seq<char>,
    filters: Seq<ExprView>,
    schema: SchemaView,
    places: Seq<int>,
) -> LogicalView {
    LogicalView::Scan {
        table,
        projection: Some(Seq::new(places.len(), |i: int| schema.fields[places[i]].name)),
        filters,
        schema: plain_schema(Seq::new(places.len(), |i: int| schema.fields[places[i]])),
    }
}

/// Whether names are the members of a set, each once, in order.
pub open spec fn is_listing(names: Seq<Seq<char>>, set: Set<Seq<char>>) -> bool {
    in_order(names) && forall|name: Seq<char>| #[trigger]
        names.contains(name) <==> set.contains(name)
}

/// The members of a set of names, in order.
pub open spec fn listing(set: Set<Seq<char>>) -> Seq<Seq<char>> {
    choose|names: Seq<Seq<char>>| #[trigger] is_listing(names, set)
}

/// A plan with a projection over a scan made to read only the columns that the projection and the
/// scan's filters need, in the order of their names. Any other plan stays.
pub open spec fn projection_pushed(plan: LogicalView) -> Result<LogicalView, ErrorView> {
    match plan {
        LogicalView::Projection { input, exprs, .. } => match *input {
            LogicalView::Scan { table, filters, schema, .. } => {
                let required = columns_of(exprs + filters);
                let names = listing(required);
                if required == Set::<Seq<char>>::empty() {
                    projected(*input, exprs)
                } else {
                    match places_of(names, schema, names.len() as int) {
                        Err(error) => Err(error),
                        Ok(places) => projected(narrowed(table, filters, schema, places), exprs),
                    }
                }
            },
            _ => projected(*input, exprs),
        },
        _ => Ok(plan),
    }
}

/// A set of names has one listing.
pub proof fn listing_is_unique(a: Seq<Seq<char>>, b: Seq<Seq<char>>, set: Set<Seq<char>>)
    requires
        is_listing(a, set),
        is_listing(b, set),
    ensures
        a == b,
    decreases a.len(),
{
    if a.len() == 0 {
        if b.len() > 0 {
            assert(b.contains(b[0]));
            assert(a.contains(b[0]));
        }
        assert(a =~= b);
    } else {
        assert(a.contains(a.last()));
        assert(b.contains(a.last()));
        assert(b.len() > 0);
        assert(b.contains(b.last()));
        assert(a.contains(b.last()));
        // The last of each is the greatest member, so both are the same.
        let i = choose|i: int| 0 <= i < b.len() && b[i] == a.last();
        let j = choose|j: int| 0 <= j < a.len() && a[j] == b.last();
        if a.last() != b.last() {
            assert(crate::text::before(b[i], b[b.len() - 1]));
            assert(crate::text::before(a[j], a[a.len() - 1]));
            crate::text::before_is_strict(a.last(), b.last());
        }
        let last = a.last();
        let rest = set.remove(last);
        drop_last_lists(a, set);
        drop_last_lists(b, set);
        listing_is_unique(a.drop_last(), b.drop_last(), rest);
        assert(a =~= a.drop_last().push(last));
        assert(b =~= b.drop_last().push(last));
    }
}

/// A listing with one name more.
proof fn one_name_more(names: Seq<Seq<char>>, set: Set<Seq<char>>, name: Seq<char>) -> (more: Seq<
    Seq<char>,
>)
    requires
        is_listing(names, set),
    ensures
        is_listing(more, set.insert(name)),
    decreases names.len(),
{
    if names.contains(name) {
        assert(set.insert(name) =~= set);
        names
    } else if names.len() == 0 || before(names.last(), name) {
        let more = names.push(name);
        assert forall|i: int, j: int| 0 <= i < j < more.len() implies before(
            #[trigger] more[i],
            #[trigger] more[j],
        ) by {
            if j == names.len() && i < names.len() - 1 {
                assert(before(names[i], names[names.len() - 1]));
                before_is_transitive(names[i], names.last(), name);
            }
        }
        assert forall|other: Seq<char>| #[trigger] more.contains(other) <==> set.insert(
            name,
        ).contains(other) by {
            if more.contains(other) {
                let i = choose|i: int| 0 <= i < more.len() && more[i] == other;
                if i < names.len() {
                    assert(names[i] == other);
                    assert(names.contains(other));
                }
            }
            if set.contains(other) {
                assert(names.contains(other));
                let i = choose|i: int| 0 <= i < names.len() && names[i] == other;
                assert(more[i] == other);
            }
            assert(more[names.len() as int] == name);
        }
        more
    } else {
        let last = names.last();
        let rest = set.remove(last);
        drop_last_lists(names, set);
        before_is_total(last, name);
        assert(names.contains(last));
        assert(before(name, last));
        let some = one_name_more(names.drop_last(), rest, name);
        let more = some.push(last);
        assert forall|i: int, j: int| 0 <= i < j < more.len() implies before(
            #[trigger] more[i],
            #[trigger] more[j],
        ) by {
            if j == some.len() {
                assert(some.contains(some[i]));
                if some[i] != name {
                    assert(rest.contains(some[i]));
                    assert(names.drop_last().contains(some[i]));
                    let k = choose|k: int|
                        0 <= k < names.len() - 1 && names.drop_last()[k] == some[i];
                    assert(before(names[k], names[names.len() - 1]));
                }
            }
        }
        assert forall|other: Seq<char>| #[trigger] more.contains(other) <==> set.insert(
            name,
        ).contains(other) by {
            if more.contains(other) {
                let i = choose|i: int| 0 <= i < more.len() && more[i] == other;
                if i < some.len() {
                    assert(some[i] == other);
                    assert(some.contains(other));
                } else {
                    assert(set.contains(last));
                }
            }
            if set.insert(name).contains(other) {
                if other == last {
                    assert(more[some.len() as int] == last);
                } else {
                    assert(rest.insert(name).contains(other));
                    assert(some.contains(other));
                    let i = choose|i: int| 0 <= i < some.len() && some[i] == other;
                    assert(more[i] == other);
                }
            }
        }
        more
    }
}

proof fn two_listings(
    a: Seq<Seq<char>>,
    first: Set<Seq<char>>,
    b: Seq<Seq<char>>,
    second: Set<Seq<char>>,
) -> (more: Seq<Seq<char>>)
    requires
        is_listing(a, first),
        is_listing(b, second),
    ensures
        is_listing(more, first.union(second)),
    decreases b.len(),
{
    if b.len() == 0 {
        assert forall|name: Seq<char>| !second.contains(name) by {
            assert(!b.contains(name));
        }
        assert(first.union(second) =~= first);
        a
    } else {
        drop_last_lists(b, second);
        let some = two_listings(a, first, b.drop_last(), second.remove(b.last()));
        assert(b.contains(b.last()));
        assert(first.union(second.remove(b.last())).insert(b.last()) =~= first.union(second));
        one_name_more(some, first.union(second.remove(b.last())), b.last())
    }
}

proof fn nothing_listed() -> (names: Seq<Seq<char>>)
    ensures
        is_listing(names, Set::empty()),
{
    Seq::empty()
}

proof fn columns_of_one(expr: ExprView) -> (names: Seq<Seq<char>>)
    ensures
        is_listing(names, expr.columns()),
    decreases expr,
{
    match expr {
        ExprView::Column(name) => {
            let none = nothing_listed();
            one_name_more(none, Set::empty(), short_name(name))
        },
        ExprView::Binary { left, right, .. } => {
            let a = columns_of_one(*left);
            let b = columns_of_one(*right);
            two_listings(a, left.columns(), b, right.columns())
        },
        ExprView::IsNull { expr: inner, .. } => columns_of_one(*inner),
        ExprView::Cast { expr: inner, .. } => columns_of_one(*inner),
        ExprView::Alias(inner, _) => columns_of_one(*inner),
        ExprView::Aggregate { expr: inner, .. } => columns_of_one(*inner),
        ExprView::Literal(_) | ExprView::Wildcard => nothing_listed(),
    }
}

proof fn columns_of_all(exprs: Seq<ExprView>) -> (names: Seq<Seq<char>>)
    ensures
        is_listing(names, columns_of(exprs)),
    decreases exprs.len(),
{
    if exprs.len() == 0 {
        assert(columns_of(exprs) =~= Set::<Seq<char>>::empty());
        nothing_listed()
    } else {
        let before_last = exprs.drop_last();
        let a = columns_of_all(before_last);
        let b = columns_of_one(exprs.last());
        let both = columns_of(before_last).union(exprs.last().columns());
        assert forall|name: Seq<char>| #[trigger] both.contains(name) <==> columns_of(
            exprs,
        ).contains(name) by {
            if columns_of(before_last).contains(name) {
                let i = choose|i: int|
                    0 <= i < before_last.len() && (#[trigger] before_last[i]).columns().contains(
                        name,
                    );
                assert(exprs[i].columns().contains(name));
            }
            if exprs.last().columns().contains(name) {
                assert(exprs[exprs.len() - 1].columns().contains(name));
            }
            if columns_of(exprs).contains(name) {
                let i = choose|i: int|
                    0 <= i < exprs.len() && (#[trigger] exprs[i]).columns().contains(name);
                if i < before_last.len() {
                    assert(before_last[i].columns().contains(name));
                }
            }
        }
        assert(both =~= columns_of(exprs));
        two_listings(a, columns_of(before_last), b, exprs.last().columns())
    }
}

/// What expressions read can be listed.
pub proof fn columns_can_be_listed(exprs: Seq<ExprView>)
    ensures
        is_listing(listing(columns_of(exprs)), columns_of(exprs)),
{
    let names = columns_of_all(exprs);
    assert(is_listing(names, columns_of(exprs)));
}

proof fn drop_last_lists(names: Seq<Seq<char>>, set: Set<Seq<char>>)
    requires
        is_listing(names, set),
        names.len() > 0,
    ensures
        is_listing(names.drop_last(), set.remove(names.last())),
{
    let rest = names.drop_last();
    let last = names.last();
    assert forall|name: Seq<char>| #[trigger] rest.contains(name) <==> set.remove(last).contains(
        name,
    ) by {
        crate::text::before_is_strict(last, last);
        if rest.contains(name) {
            let i = choose|i: int| 0 <= i < rest.len() && rest[i] == name;
            assert(names[i] == name);
            assert(names.contains(name));
            assert(crate::text::before(names[i], names[names.len() - 1]));
        }
        if set.remove(last).contains(name) {
            assert(names.contains(name));
            let i = choose|i: int| 0 <= i < names.len() && names[i] == name;
            assert(rest[i] == name);
        }
    }
    assert forall|i: int, j: int| 0 <= i < j < rest.len() implies crate::text::before(
        #[trigger] rest[i],
        #[trigger] rest[j],
    ) by {
        assert(crate::text::before(names[i], names[j]));
    }
}

/// The columns that some expressions read, each once, in order.
fn required_columns(exprs: &Vec<Expr>, filters: &Vec<Expr>) -> (r: Vec<String>)
    ensures
        is_listing(text_views(r@), columns_of(expr_views(exprs@) + expr_views(filters@))),
{
    let ghost all = expr_views(exprs@) + expr_views(filters@);
    let mut names: Vec<String> = Vec::new();
    for i in 0..exprs.len()
        invariant
            all == expr_views(exprs@) + expr_views(filters@),
            in_order(text_views(names@)),
            forall|name: Seq<char>| #[trigger]
                text_views(names@).contains(name) <==> exists|k: int|
                    0 <= k < i && (#[trigger] all[k]).columns().contains(name),
    {
        let ghost earlier = text_views(names@);
        proof {
            assert(all[i as int] == exprs@[i as int]@);
        }
        exprs[i].collect_columns(&mut names);
        proof {
            assert forall|name: Seq<char>| #[trigger] text_views(names@).contains(name) <==> exists|
                k: int,
            |
                0 <= k < i + 1 && (#[trigger] all[k]).columns().contains(name) by {
                if earlier.contains(name) {
                    let k = choose|k: int|
                        0 <= k < i && (#[trigger] all[k]).columns().contains(name);
                    assert(0 <= k < i + 1 && all[k].columns().contains(name));
                }
                if all[i as int].columns().contains(name) {
                    assert(text_views(names@).contains(name));
                }
                if exists|k: int| 0 <= k < i + 1 && (#[trigger] all[k]).columns().contains(name) {
                    let k = choose|k: int|
                        0 <= k < i + 1 && (#[trigger] all[k]).columns().contains(name);
                    if k < i {
                        assert(earlier.contains(name));
                    }
                }
            }
        }
    }
    let first: usize = exprs.len();
    for i in 0..filters.len()
        invariant
            first == exprs.len(),
            all == expr_views(exprs@) + expr_views(filters@),
            in_order(text_views(names@)),
            forall|name: Seq<char>| #[trigger]
                text_views(names@).contains(name) <==> exists|k: int|
                    0 <= k < first + i && (#[trigger] all[k]).columns().contains(name),
    {
        let ghost earlier = text_views(names@);
        proof {
            assert(all[first + i] == filters@[i as int]@);
        }
        filters[i].collect_columns(&mut names);
        proof {
            assert forall|name: Seq<char>| #[trigger] text_views(names@).contains(name) <==> exists|
                k: int,
            |
                0 <= k < first + i + 1 && (#[trigger] all[k]).columns().contains(name) by {
                if earlier.contains(name) {
                    let k = choose|k: int|
                        0 <= k < first + i && (#[trigger] all[k]).columns().contains(name);
                    assert(0 <= k < first + i + 1 && all[k].columns().contains(name));
                }
                if all[first + i].columns().contains(name) {
                    assert(text_views(names@).contains(name));
                }
                if exists|k: int|
                    0 <= k < first + i + 1 && (#[trigger] all[k]).columns().contains(name) {
                    let k = choose|k: int|
                        0 <= k < first + i + 1 && (#[trigger] all[k]).columns().contains(name);
                    if k < first + i {
                        assert(earlier.contains(name));
                    }
                }
            }
        }
    }
    names
}

/// The places of named columns.
pub open spec fn places(indices: Seq<usize>) -> Seq<int> {
    Seq::new(indices.len(), |i: int| indices[i] as int)
}

pub(crate) fn projection_indices(schema: &Schema, required: &Vec<String>) -> (r: Result<
    Vec<usize>,
    SparkXError,
>)
    ensures
        match r {
            Ok(indices) => {
                &&& places_of(text_views(required@), schema@, required.len() as int) == Ok::<
                    Seq<int>,
                    ErrorView,
                >(places(indices@))
                &&& forall|i: int|
                    0 <= i < indices.len() ==> #[trigger] indices@[i] < schema.fields.len()
            },
            Err(error) => places_of(text_views(required@), schema@, required.len() as int) == Err::<
                Seq<int>,
                ErrorView,
            >(error@),
        },
{
    let ghost names = text_views(required@);
    let mut indices: Vec<usize> = Vec::new();
    proof {
        assert(places(indices@) =~= Seq::empty());
    }
    for i in 0..required.len()
        invariant
            names == text_views(required@),
            places_of(names, schema@, i as int) == Ok::<Seq<int>, ErrorView>(places(indices@)),
            forall|k: int| 0 <= k < indices.len() ==> #[trigger] indices@[k] < schema.fields.len(),
    {
        let ghost earlier = places(indices@);
        proof {
            assert(names[i as int] == required@[i as int]@);
        }
        match find_column(schema, required[i].as_str()) {
            Ok(index) => {
                indices.push(index);
                proof {
                    assert(places(indices@) =~= earlier.push(index as int));
                }
            },
            Err(error) => {
                proof {
                    places_fail_early(names, schema@, i + 1, required.len() as int);
                }
                return Err(error);
            },
        }
    }
    Ok(indices)
}

/// A scan of some columns.
fn narrow_scan(table: String, filters: Vec<Expr>, schema: &Schema, indices: &Vec<usize>) -> (r:
    LogicalPlan)
    requires
        forall|i: int| 0 <= i < indices.len() ==> #[trigger] indices@[i] < schema.fields.len(),
    ensures
        r@ == narrowed(table@, expr_views(filters@), schema@, places(indices@)),
{
    let mut names: Vec<String> = Vec::new();
    let mut fields: Vec<Field> = Vec::new();
    for i in 0..indices.len()
        invariant
            forall|i: int| 0 <= i < indices.len() ==> #[trigger] indices@[i] < schema.fields.len(),
            names.len() == i,
            fields.len() == i,
            forall|k: int|
                0 <= k < i ==> (#[trigger] names@[k])@ == schema@.fields[indices@[k] as int].name,
            forall|k: int|
                0 <= k < i ==> (#[trigger] fields@[k])@ == schema@.fields[indices@[k] as int],
    {
        names.push(schema.fields[indices[i]].name.clone());
        fields.push(schema.fields[indices[i]].clone());
    }
    proof {
        let at = places(indices@);
        assert(text_views(names@) =~= Seq::new(at.len(), |i: int| schema@.fields[at[i]].name));
        assert(field_views(fields@) =~= Seq::new(at.len(), |i: int| schema@.fields[at[i]]));
    }
    LogicalPlan::Scan { table, projection: Some(names), filters, schema: Schema::new(fields) }
}

fn push_projection_into_scan(plan: LogicalPlan) -> (r: Result<LogicalPlan, SparkXError>)
    ensures
        plan_outcome(r) == projection_pushed(plan@),
{
    proof {
        reveal_with_fuel(crate::logical::logical_view, 3);
    }
    match plan {
        LogicalPlan::Projection { input, exprs, schema: _ } => {
            match *input {
                LogicalPlan::Scan { table, projection, filters, schema } => {
                    let required = required_columns(&exprs, &filters);
                    let ghost set = columns_of(expr_views(exprs@) + expr_views(filters@));
                    let ghost names = text_views(required@);
                    if required.len() == 0 {
                        proof {
                            assert(set =~= Set::<Seq<char>>::empty()) by {
                                assert forall|name: Seq<char>| !set.contains(name) by {
                                    assert(!names.contains(name));
                                }
                            }
                        }
                        return LogicalPlan::project(
                            LogicalPlan::Scan { table, projection, filters, schema },
                            exprs,
                        );
                    }
                    proof {
                        assert(names.contains(names[0]));
                        assert(set.contains(names[0]));
                        assert(is_listing(names, set));
                        listing_is_unique(names, listing(set), set);
                    }
                    match projection_indices(&schema, &required) {
                        Ok(indices) => {
                            let scan = narrow_scan(table, filters, &schema, &indices);
                            LogicalPlan::project(scan, exprs)
                        },
                        Err(error) => Err(error),
                    }
                },
                other => LogicalPlan::project(other, exprs),
            }
        },
        other => Ok(other),
    }
}

// ---- dropping projections that change nothing

/// Whether expressions are the columns of a schema, under their own names and in order.
pub open spec fn is_identity(exprs: Seq<ExprView>, schema: SchemaView) -> bool {
    &&& exprs.len() == schema.fields.len()
    &&& forall|i: int|
        0 <= i < exprs.len() ==> is_column_named(#[trigger] exprs[i], schema.fields[i].name)
}

/// Whether an expression is a column that keeps a name.
pub open spec fn is_column_named(expr: ExprView, name: Seq<char>) -> bool {
    match expr.unalias() {
        ExprView::Column(column) => expr.name() == name && short_name(column) == name,
        _ => false,
    }
}

/// A plan without a projection that changes nothing at its top.
pub open spec fn identity_dropped(plan: LogicalView) -> Result<LogicalView, ErrorView> {
    match plan {
        LogicalView::Projection { input, exprs, .. } => if is_identity(exprs, input.schema()) {
            Ok(*input)
        } else {
            projected(*input, exprs)
        },
        _ => Ok(plan),
    }
}

fn is_identity_projection(exprs: &Vec<Expr>, schema: &Schema) -> (r: bool)
    ensures
        r == is_identity(expr_views(exprs@), schema@),
{
    let ghost views = expr_views(exprs@);
    if exprs.len() != schema.fields.len() {
        return false;
    }
    for i in 0..exprs.len()
        invariant
            exprs.len() == schema.fields.len(),
            views == expr_views(exprs@),
            forall|k: int|
                0 <= k < i ==> is_column_named(#[trigger] views[k], schema@.fields[k].name),
    {
        let name = schema.fields[i].name.as_str();
        proof {
            assert(views[i as int] == exprs@[i as int]@);
            assert(schema@.fields[i as int].name == name@);
        }
        let kept: bool = match exprs[i].unalias() {
            Expr::Column(column) => same_text(exprs[i].name().as_str(), name) && same_text(
                unqualified(column.as_str()),
                name,
            ),
            _ => false,
        };
        if !kept {
            proof {
                assert(!is_column_named(views[i as int], schema@.fields[i as int].name));
            }
            return false;
        }
    }
    true
}

fn eliminate_identity_projection(plan: LogicalPlan) -> (r: Result<LogicalPlan, SparkXError>)
    ensures
        plan_outcome(r) == identity_dropped(plan@),
{
    match plan {
        LogicalPlan::Projection { input, exprs, .. } => {
            if is_identity_projection(&exprs, input.schema()) {
                Ok(*input)
            } else {
                LogicalPlan::project(*input, exprs)
            }
        },
        other => Ok(other),
    }
}

// ---- the whole

/// A plan made better from the leaves up: its expressions made simple, filters and projections
/// moved into scans, and projections that change nothing dropped.
pub open spec fn optimized(plan: LogicalView) -> Result<LogicalView, ErrorView>
    decreases plan, 1int,
{
    match with_optimized_inputs(plan) {
        Err(error) => Err(error),
        Ok(plan) => match simplified_plan(plan) {
            Err(error) => Err(error),
            Ok(plan) => match filter_pushed(plan) {
                Err(error) => Err(error),
                Ok(plan) => match projection_pushed(plan) {
                    Err(error) => Err(error),
                    Ok(plan) => identity_dropped(plan),
                },
            },
        },
    }
}

/// A plan built again over its inputs made better.
pub open spec fn with_optimized_inputs(plan: LogicalView) -> Result<LogicalView, ErrorView>
    decreases plan, 0int,
{
    match plan {
        LogicalView::Scan { .. } => Ok(plan),
        LogicalView::Projection { input, exprs, .. } => match optimized(*input) {
            Err(error) => Err(error),
            Ok(input) => projected(input, exprs),
        },
        LogicalView::Filter { input, predicate, .. } => match optimized(*input) {
            Err(error) => Err(error),
            Ok(input) => filtered(input, predicate),
        },
        LogicalView::Aggregate { input, group_exprs, aggregate_exprs, .. } => match optimized(
            *input,
        ) {
            Err(error) => Err(error),
            Ok(input) => aggregated(input, group_exprs, aggregate_exprs),
        },
        LogicalView::Sort { input, exprs, .. } => match optimized(*input) {
            Err(error) => Err(error),
            Ok(input) => sorted(input, exprs),
        },
        LogicalView::Limit { input, limit, .. } => match optimized(*input) {
            Err(error) => Err(error),
            Ok(input) => Ok(limited(input, limit)),
        },
        LogicalView::Join { left, right, join_type, left_on, right_on, .. } => match optimized(
            *left,
        ) {
            Err(error) => Err(error),
            Ok(left) => match optimized(*right) {
                Err(error) => Err(error),
                Ok(right) => joined(left, right, join_type, left_on, right_on),
            },
        },
    }
}

/// The rewriter of logical plans.
#[derive(Debug, Clone, Copy)]
pub struct Optimizer;

impl Optimizer {
    /// A plan made better: its expressions made simple, and filters and projections moved into scans.
    pub fn optimize(&self, plan: LogicalPlan) -> (r: Result<LogicalPlan, SparkXError>)
        ensures
            plan_outcome(r) == optimized(plan@),
        decreases plan, 1int,
    {
        let plan = match self.optimize_children(plan) {
            Ok(plan) => plan,
            Err(error) => return Err(error),
        };
        let plan = match simplify_expressions(plan) {
            Ok(plan) => plan,
            Err(error) => return Err(error),
        };
        let plan = match push_filter_into_scan(plan) {
            Ok(plan) => plan,
            Err(error) => return Err(error),
        };
        let plan = match push_projection_into_scan(plan) {
            Ok(plan) => plan,
            Err(error) => return Err(error),
        };
        eliminate_identity_projection(plan)
    }

    fn optimize_children(&self, plan: LogicalPlan) -> (r: Result<LogicalPlan, SparkXError>)
        ensures
            plan_outcome(r) == with_optimized_inputs(plan@),
        decreases plan, 0int,
    {
        match plan {
            LogicalPlan::Scan { table, projection, filters, schema } => Ok(
                LogicalPlan::Scan { table, projection, filters, schema },
            ),
            LogicalPlan::Projection { input, exprs, .. } => match self.optimize(*input) {
                Ok(input) => LogicalPlan::project(input, exprs),
                Err(error) => Err(error),
            },
            LogicalPlan::Filter { input, predicate, .. } => match self.optimize(*input) {
                Ok(input) => LogicalPlan::filter(input, predicate),
                Err(error) => Err(error),
            },
            LogicalPlan::Aggregate { input, group_exprs, aggregate_exprs, .. } => {
                match self.optimize(*input) {
                    Ok(input) => LogicalPlan::aggregate(input, group_exprs, aggregate_exprs),
                    Err(error) => Err(error),
                }
            },
            LogicalPlan::Sort { input, exprs, .. } => match self.optimize(*input) {
                Ok(input) => LogicalPlan::sort(input, exprs),
                Err(error) => Err(error),
            },
            LogicalPlan::Limit { input, limit, .. } => match self.optimize(*input) {
                Ok(input) => Ok(LogicalPlan::limit(input, limit)),
                Err(error) => Err(error),
            },
            LogicalPlan::Join { left, right, join_type, left_on, right_on, .. } => {
                let left = match self.optimize(*left) {
                    Ok(plan) => plan,
                    Err(error) => return Err(error),
                };
                match self.optimize(*right) {
                    Ok(right) => LogicalPlan::join(left, right, join_type, left_on, right_on),
                    Err(error) => Err(error),
                }
            },
        }
    }
}

} // verus!

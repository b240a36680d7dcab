//! What makes a query cheaper.

use crate::catalog::{find_table, TableView};
use crate::cells::cell_value;
use crate::error::ErrorView;
use crate::expr::{resolve, ExprView, Operator};
use crate::logical::LogicalView;
use crate::meaning::evaluation::{compares, is_so};
use crate::meaning::tables::{case_does_not_matter, same_name};
use crate::meaning::values::{alike, smaller, values_compare_by_what_they_are};
use crate::optimizer::{
    columns_can_be_listed, columns_of, filter_pushed, is_listing, listing, places_of,
    projection_pushed,
};
use crate::physical::PhysicalView;
use crate::planner::{operator_count, physical_plan};
use crate::pruning::{bounds_admit, field_place, null_may_match, reversed, RowGroupView};
use crate::scalar::ScalarView;
use crate::simplify::{decided, one_row};
use crate::text::short_name;
use crate::types::SchemaView;
use vstd::prelude::*;

verus! {

// ---- simple expressions

/// Whether an expression is a value, as it stands or cast.
pub open spec fn is_value(expr: ExprView) -> bool {
    expr is Literal || expr is Cast && *expr->Cast_expr is Literal
}

/// An expression that reads no column is computed once, and its value takes its place.
pub proof fn constants_are_computed(expr: ExprView, schema: SchemaView, simple: ExprView)
    requires
        expr.simplified_node(schema) == Ok::<ExprView, ErrorView>(simple),
        expr.columns() == Set::<Seq<char>>::empty(),
        !expr.contains_aggregate(),
    ensures
        is_value(simple),
        expr.value(one_row()) is Ok,
        ({
            let value = cell_value(expr.value(one_row())->Ok_0, 0);
            let literal = if simple is Literal {
                simple
            } else {
                *simple->Cast_expr
            };
            value == Ok::<ScalarView, ErrorView>(literal->Literal_0)
        }),
{
}

/// TRUE leaves the other side of an AND and FALSE decides it, and of an OR the other way round.
pub proof fn truths_decide(whole: ExprView, op: Operator, left: ExprView, right: ExprView)
    requires
        op is And || op is Or,
    ensures
        left == ExprView::Literal(ScalarView::Boolean(op is And)) ==> decided(whole, op, left, right)
            == right,
        right == ExprView::Literal(ScalarView::Boolean(op is And)) && !(left is Literal || left
            is Alias) ==> decided(whole, op, left, right) == left,
        left == ExprView::Literal(ScalarView::Boolean(op is Or)) && !(right is Literal || right
            is Alias) ==> decided(whole, op, left, right) == ExprView::Literal(
            ScalarView::Boolean(op is Or),
        ),
        right == ExprView::Literal(ScalarView::Boolean(op is Or)) && !(left is Literal || left
            is Alias) ==> decided(whole, op, left, right) == ExprView::Literal(
            ScalarView::Boolean(op is Or),
        ),
        !(left is Literal || left is Alias) && !(right is Literal || right is Alias) ==> decided(
            whole,
            op,
            left,
            right,
        ) == whole,
{
}

// ---- plans

/// A filter over a scan becomes one of the scan, behind those that the scan has.
pub proof fn filters_move_into_scans(plan: LogicalView, better: LogicalView)
    requires
        plan is Filter,
        *plan->Filter_input is Scan,
        filter_pushed(plan) == Ok::<LogicalView, ErrorView>(better),
    ensures
        better is Scan,
        ({
            let scan = *plan->Filter_input;
            &&& better->Scan_table == scan->Scan_table
            &&& better->Scan_projection == scan->Scan_projection
            &&& better->Scan_schema == scan->Scan_schema
            &&& better->Scan_filters.len() == scan->Scan_filters.len() + 1
            &&& better->Scan_filters.last() == plan->Filter_predicate
            &&& better->Scan_filters.drop_last() == scan->Scan_filters
        }),
{
    let scan = *plan->Filter_input;
    assert(better->Scan_filters.drop_last() =~= scan->Scan_filters);
}

proof fn places_are_found(names: Seq<Seq<char>>, schema: SchemaView, upto: int)
    requires
        0 <= upto <= names.len(),
    ensures
        places_of(names, schema, upto) matches Ok(places) ==> places.len() == upto && forall|i: int|
            0 <= i < upto ==> resolve(schema.names(), names[i]) == Ok::<int, ErrorView>(
                #[trigger] places[i],
            ),
    decreases upto,
{
    if upto > 0 {
        places_are_found(names, schema, upto - 1);
    }
}

/// Whether a column is read by some of the expressions.
pub open spec fn is_read(name: Seq<char>, exprs: Seq<ExprView>) -> bool {
    exists|i: int| 0 <= i < exprs.len() && (#[trigger] exprs[i]).columns().contains(name)
}

/// A scan under a projection reads the columns that the projection or a filter of the scan reads, and no
/// others.
pub proof fn scans_read_what_is_needed(plan: LogicalView, better: LogicalView)
    requires
        plan is Projection,
        *plan->Projection_input is Scan,
        projection_pushed(plan) == Ok::<LogicalView, ErrorView>(better),
        exists|name: Seq<char>| #[trigger]
            is_read(name, plan->Projection_exprs + plan->Projection_input->Scan_filters),
    ensures
        better is Projection,
        *better->Projection_input is Scan,
        ({
            let scan = *plan->Projection_input;
            let narrow = *better->Projection_input;
            let needed = plan->Projection_exprs + scan->Scan_filters;
            &&& narrow->Scan_table == scan->Scan_table
            &&& narrow->Scan_filters == scan->Scan_filters
            &&& narrow->Scan_projection is Some
            &&& exists|names: Seq<Seq<char>>|
                {
                    &&& forall|name: Seq<char>| #[trigger]
                        names.contains(name) <==> is_read(name, needed)
                    &&& #[trigger] are_fields_of(
                        narrow->Scan_projection->Some_0,
                        names,
                        scan->Scan_schema,
                    )
                }
        }),
{
    let scan = *plan->Projection_input;
    let exprs = plan->Projection_exprs;
    let needed = exprs + scan->Scan_filters;
    let required = columns_of(needed);
    columns_can_be_listed(needed);
    let names = listing(required);
    assert(is_listing(names, required));
    let name = choose|name: Seq<char>| #[trigger] is_read(name, needed);
    assert(required.contains(name));
    assert(!(required =~= Set::<Seq<char>>::empty()));
    let places = places_of(names, scan->Scan_schema, names.len() as int)->Ok_0;
    places_are_found(names, scan->Scan_schema, names.len() as int);
    let narrow = *better->Projection_input;
    assert forall|i: int| 0 <= i < names.len() implies resolve(
        scan->Scan_schema.names(),
        #[trigger] names[i],
    ) is Ok && narrow->Scan_projection->Some_0[i] == scan->Scan_schema.fields[resolve(
        scan->Scan_schema.names(),
        names[i],
    )->Ok_0].name by {
        assert(resolve(scan->Scan_schema.names(), names[i]) == Ok::<int, ErrorView>(places[i]));
    }
    assert(are_fields_of(narrow->Scan_projection->Some_0, names, scan->Scan_schema));
    assert forall|name: Seq<char>| #[trigger] names.contains(name) <==> is_read(name, needed) by {
        assert(names.contains(name) <==> required.contains(name));
    }
}

/// Whether names are those of the fields that other names stand for.
pub open spec fn are_fields_of(
    fields: Seq<Seq<char>>,
    names: Seq<Seq<char>>,
    schema: SchemaView,
) -> bool {
    &&& fields.len() == names.len()
    &&& forall|i: int|
        0 <= i < names.len() ==> resolve(schema.names(), #[trigger] names[i]) is Ok && fields[i]
            == schema.fields[resolve(schema.names(), names[i])->Ok_0].name
}

// ---- operators

/// Each operator of a logical plan becomes one that does the same with the same expressions; a limit over
/// a sort becomes one operator that keeps the first rows.
pub proof fn operators_do_what_the_plan_says(
    plan: LogicalView,
    tables: Map<Seq<char>, TableView>,
    id: nat,
    physical: PhysicalView,
)
    requires
        physical_plan(plan, tables, id) == Ok::<PhysicalView, ErrorView>(physical),
    ensures
        plan is Projection ==> physical is Projection && physical->Projection_exprs
            == plan->Projection_exprs && physical->Projection_schema == plan->Projection_schema
            && physical_plan(*plan->Projection_input, tables, id + 1) == Ok::<
            PhysicalView,
            ErrorView,
        >(*physical->Projection_input),
        plan is Filter ==> physical is Filter && physical->Filter_predicate
            == plan->Filter_predicate && physical_plan(*plan->Filter_input, tables, id + 1) == Ok::<
            PhysicalView,
            ErrorView,
        >(*physical->Filter_input),
        plan is Aggregate ==> physical is HashAggregate && physical->HashAggregate_group_exprs
            == plan->Aggregate_group_exprs && physical->HashAggregate_aggregate_exprs
            == plan->Aggregate_aggregate_exprs && physical->HashAggregate_schema
            == plan->Aggregate_schema && physical_plan(*plan->Aggregate_input, tables, id + 1)
            == Ok::<PhysicalView, ErrorView>(*physical->HashAggregate_input),
        plan is Sort ==> physical is Sort && physical->Sort_exprs == plan->Sort_exprs
            && physical_plan(*plan->Sort_input, tables, id + 1) == Ok::<PhysicalView, ErrorView>(
            *physical->Sort_input,
        ),
        plan is Limit && *plan->Limit_input is Sort ==> physical is TopK && physical->TopK_limit
            == plan->Limit_limit && physical->TopK_exprs == plan->Limit_input->Sort_exprs
            && physical_plan(*plan->Limit_input->Sort_input, tables, id + 1) == Ok::<
            PhysicalView,
            ErrorView,
        >(*physical->TopK_input),
        plan is Limit && !(*plan->Limit_input is Sort) ==> physical is Limit
            && physical->Limit_limit == plan->Limit_limit && physical_plan(
            *plan->Limit_input,
            tables,
            id + 1,
        ) == Ok::<PhysicalView, ErrorView>(*physical->Limit_input),
        plan is Join ==> physical is HashJoin && physical->HashJoin_join_type
            == plan->Join_join_type && physical->HashJoin_left_on == plan->Join_left_on
            && physical->HashJoin_right_on == plan->Join_right_on && physical->HashJoin_schema
            == plan->Join_schema && physical_plan(*plan->Join_left, tables, id + 1) == Ok::<
            PhysicalView,
            ErrorView,
        >(*physical->HashJoin_left) && exists|next: nat| #[trigger]
            physical_plan(*plan->Join_right, tables, next) == Ok::<PhysicalView, ErrorView>(
                *physical->HashJoin_right,
            ),
        plan is Scan ==> physical is Scan && physical->Scan_table_name == plan->Scan_table
            && physical->Scan_filters == plan->Scan_filters && physical->Scan_schema
            == plan->Scan_schema && find_table(tables, plan->Scan_table) == Ok::<
            TableView,
            ErrorView,
        >(physical->Scan_provider),
{
    if plan is Join {
        let next = id + 1 + operator_count(*plan->Join_left);
        assert(physical_plan(*plan->Join_right, tables, next) == Ok::<PhysicalView, ErrorView>(
            *physical->HashJoin_right,
        ));
    }
}

// ---- pruning

/// A comparison says the same with its sides exchanged.
pub proof fn sides_can_be_exchanged(op: Operator, a: ScalarView, b: ScalarView)
    requires
        compares(op),
        alike(a, b),
    ensures
        compares(reversed(op)),
        is_so(reversed(op), smaller(b, a), !smaller(a, b) && !smaller(b, a)) == is_so(
            op,
            smaller(a, b),
            !smaller(a, b) && !smaller(b, a),
        ),
{
    values_compare_by_what_they_are(a, b);
}

/// What is between two bounds can be less than a value where the lower bound is, greater where the upper
/// bound is, and the same where the value is between them.
pub proof fn what_bounds_leave_open(
    least: ScalarView,
    most: ScalarView,
    value: ScalarView,
    is_float: bool,
)
    requires
        alike(least, value),
        alike(most, value),
        alike(value, least),
        alike(value, most),
    ensures
        bounds_admit(Some(least), Some(most), Operator::Lt, value, is_float) <==> smaller(
            least,
            value,
        ),
        bounds_admit(Some(least), Some(most), Operator::LtEq, value, is_float) <==> !smaller(
            value,
            least,
        ),
        bounds_admit(Some(least), Some(most), Operator::Gt, value, is_float) <==> smaller(
            value,
            most,
        ),
        bounds_admit(Some(least), Some(most), Operator::GtEq, value, is_float) <==> !smaller(
            most,
            value,
        ),
        bounds_admit(Some(least), Some(most), Operator::Eq, value, is_float) <==> !smaller(
            value,
            least,
        ) && !smaller(most, value),
        bounds_admit(Some(least), Some(most), Operator::NotEq, value, is_float) <==> is_float
            || !(least == value && most == value),
{
    values_compare_by_what_they_are(least, value);
    values_compare_by_what_they_are(value, least);
    values_compare_by_what_they_are(most, value);
    values_compare_by_what_they_are(value, most);
}

/// The field that a name means is the first with the name, in which neither the table nor the case of
/// letters counts.
pub proof fn the_field_of_a_name(schema: SchemaView, name: Seq<char>, from: int)
    requires
        0 <= from,
    ensures
        field_place(schema, name, from) matches Some(place) ==> from <= place < schema.fields.len()
            && same_name(schema.fields[place].name, short_name(name)) && forall|i: int|
            from <= i < place ==> !same_name((#[trigger] schema.fields[i]).name, short_name(name)),
        field_place(schema, name, from) is None ==> forall|i: int|
            from <= i < schema.fields.len() ==> !same_name(
                (#[trigger] schema.fields[i]).name,
                short_name(name),
            ),
    decreases schema.fields.len() - from,
{
    if from < schema.fields.len() {
        case_does_not_matter(schema.fields[from].name, short_name(name));
        the_field_of_a_name(schema, name, from + 1);
    }
}

/// Where nothing is known, everything is possible.
pub proof fn without_bounds_everything_is_possible(
    op: Operator,
    value: ScalarView,
    schema: SchemaView,
    group: RowGroupView,
    name: Seq<char>,
    negated: bool,
)
    requires
        group.columns.len() == 0,
    ensures
        bounds_admit(None, None, op, value, false),
        null_may_match(schema, group, name, negated),
{
    the_field_of_a_name(schema, name, 0);
}

} // verus!

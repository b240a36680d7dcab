//! Queries that are planned can be sent.

use crate::catalog::{find_table, TableView};
use crate::error::ErrorView;
use crate::expr::{any_qualified, resolve, resolve_is_within, ExprView};
use crate::logical::{
    aggregated, expanded, fields_of, filtered, joined, joined_fields, keys_check, limited, projected,
    sorted, sorts_check, JoinType, LogicalView, SortView,
};
use crate::optimizer::{
    all_simplified, columns_of, filter_pushed, identity_dropped, listing, narrowed, optimized,
    places_of, projection_pushed, simplified_plan, sorts_simplified, with_optimized_inputs,
};
use crate::physical::PhysicalView;
use crate::plan_codec::checks::transportable;
use crate::plan_codec::plans::{
    encoded_plan, indices_check, join_keys_check, projected_fields, scan_check, scan_fields_check,
};
use crate::plan_codec::schemas::{all_named, schema_wf};
use crate::plan_codec::{decoded_fragment, encoded_fragment, fragment_check, fragment_survives};
use crate::planner::{operator_count, physical_plan, scan_projection};
use crate::rewriting::{
    names_are_found, nothing_to_expand, places_are_found_again, simple_lists_have_no_wildcards,
    told_apart,
};
use crate::session::{all_plans, PlannedView};
use crate::text::{blank, short_name};
use crate::types::{plain_schema, FieldView, SchemaView};
use crate::wire::fields::RECURSION_LIMIT;
use crate::wire::plans::plan_fits;
use vstd::prelude::*;

verus! {

/// Whether a scan reads columns of its table under their names.
pub open spec fn reads_columns(
    table: Seq<char>,
    provider: TableView,
    projection: Option<Seq<Seq<char>>>,
    schema: SchemaView,
) -> bool {
    scan_projection(projection, provider.schema) matches Ok(indices) && scan_check(
        table,
        provider.schema,
        indices,
        schema,
    ) is Ok
}

/// Whether all sort keys are named.
pub open spec fn sorts_named(sorts: Seq<SortView>) -> bool {
    forall|i: int| 0 <= i < sorts.len() ==> (#[trigger] sorts[i]).expr.is_named()
}

/// Whether a plan is one that the constructors of plans make over the tables of a catalog, with no
/// blank names.
pub open spec fn is_built(plan: LogicalView, catalog: Map<Seq<char>, TableView>) -> bool
    decreases plan,
{
    match plan {
        LogicalView::Scan { table, projection, filters, schema } => {
            &&& !blank(table)
            &&& find_table(catalog, table) is Ok
            &&& schema_wf(schema)
            &&& all_named(filters)
            &&& reads_columns(table, find_table(catalog, table)->Ok_0, projection, schema)
        },
        LogicalView::Projection { input, exprs, .. } => {
            &&& is_built(*input, catalog)
            &&& all_named(exprs)
            &&& projected(*input, exprs) == Ok::<LogicalView, ErrorView>(plan)
        },
        LogicalView::Filter { input, predicate, .. } => {
            &&& is_built(*input, catalog)
            &&& predicate.is_named()
            &&& filtered(*input, predicate) == Ok::<LogicalView, ErrorView>(plan)
        },
        LogicalView::Aggregate { input, group_exprs, aggregate_exprs, .. } => {
            &&& is_built(*input, catalog)
            &&& all_named(group_exprs)
            &&& all_named(aggregate_exprs)
            &&& aggregated(*input, group_exprs, aggregate_exprs) == Ok::<LogicalView, ErrorView>(
                plan,
            )
        },
        LogicalView::Sort { input, exprs, .. } => {
            &&& is_built(*input, catalog)
            &&& sorts_named(exprs)
            &&& exprs.len() > 0
            &&& sorted(*input, exprs) == Ok::<LogicalView, ErrorView>(plan)
        },
        LogicalView::Limit { input, limit, .. } => {
            &&& is_built(*input, catalog)
            &&& plan == limited(*input, limit)
        },
        LogicalView::Join { left, right, join_type, left_on, right_on, .. } => {
            &&& is_built(*left, catalog)
            &&& is_built(*right, catalog)
            &&& all_named(left_on)
            &&& all_named(right_on)
            &&& joined(*left, *right, join_type, left_on, right_on) == Ok::<LogicalView, ErrorView>(
                plan,
            )
        },
    }
}

proof fn fields_are_plain(exprs: Seq<ExprView>, schema: SchemaView, upto: int)
    requires
        0 <= upto,
    ensures
        fields_of(exprs, schema, upto) matches Ok(fields) ==> schema_wf(plain_schema(fields)),
    decreases upto,
{
    if upto > 0 {
        fields_are_plain(exprs, schema, upto - 1);
        if let Ok(fields) = fields_of(exprs, schema, upto) {
            let earlier = fields_of(exprs, schema, upto - 1)->Ok_0;
            assert forall|i: int| 0 <= i < fields.len() implies crate::plan_codec::schemas::keys_in_order(
                (#[trigger] plain_schema(fields).fields[i]).metadata,
            ) by {
                if i < earlier.len() {
                    assert(fields[i] == plain_schema(earlier).fields[i]);
                }
            }
        }
    }
}

proof fn joined_fields_are_sound(
    left: Seq<FieldView>,
    right: Seq<FieldView>,
    join_type: JoinType,
    upto: int,
)
    requires
        0 <= upto <= right.len(),
        schema_wf(plain_schema(left)),
        schema_wf(plain_schema(right)),
    ensures
        schema_wf(plain_schema(joined_fields(left, right, join_type, upto))),
    decreases upto,
{
    if upto > 0 {
        joined_fields_are_sound(left, right, join_type, upto - 1);
        let all = joined_fields(left, right, join_type, upto);
        let earlier = joined_fields(left, right, join_type, upto - 1);
        assert forall|i: int| 0 <= i < all.len() implies crate::plan_codec::schemas::keys_in_order(
            (#[trigger] plain_schema(all).fields[i]).metadata,
        ) by {
            if i < earlier.len() {
                assert(all[i] == plain_schema(earlier).fields[i]);
            } else {
                assert(all[i].metadata == plain_schema(right).fields[upto - 1].metadata);
            }
        }
    }
}

proof fn keys_check_alike(
    left_on: Seq<ExprView>,
    right_on: Seq<ExprView>,
    left: SchemaView,
    right: SchemaView,
    from: int,
)
    requires
        0 <= from,
        keys_check(left_on, right_on, left, right, from) is Ok,
    ensures
        join_keys_check(left_on, left, right_on, right, from) is Ok,
    decreases left_on.len() - from,
{
    if from < left_on.len() {
        keys_check_alike(left_on, right_on, left, right, from + 1);
    }
}

proof fn sorts_have_types(sorts: Seq<SortView>, schema: SchemaView, from: int, at: int)
    requires
        sorts_check(sorts, schema, from) is Ok,
        0 <= from <= at < sorts.len(),
    ensures
        sorts[at].expr.data_type(schema) is Ok,
    decreases at - from,
{
    if from < at {
        sorts_have_types(sorts, schema, from + 1, at);
    }
}

/// A physical plan has the schema of the plan that it was made from.
proof fn schemas_are_planned(plan: LogicalView, catalog: Map<Seq<char>, TableView>, id: nat)
    ensures
        physical_plan(plan, catalog, id) matches Ok(physical) ==> physical.schema()
            == plan.schema(),
{
}

proof fn schemas_are_sound(plan: LogicalView, catalog: Map<Seq<char>, TableView>)
    requires
        is_built(plan, catalog),
    ensures
        schema_wf(plan.schema()),
    decreases plan,
{
    match plan {
        LogicalView::Scan { .. } => {},
        LogicalView::Projection { input, exprs, .. } => {
            let all = expanded(exprs, input.schema(), exprs.len() as int);
            fields_are_plain(all, input.schema(), all.len() as int);
        },
        LogicalView::Filter { input, .. } => schemas_are_sound(*input, catalog),
        LogicalView::Aggregate { input, group_exprs, aggregate_exprs, .. } => {
            let all = group_exprs + aggregate_exprs;
            fields_are_plain(all, input.schema(), all.len() as int);
        },
        LogicalView::Sort { input, .. } => schemas_are_sound(*input, catalog),
        LogicalView::Limit { input, .. } => schemas_are_sound(*input, catalog),
        LogicalView::Join { left, right, join_type, .. } => {
            schemas_are_sound(*left, catalog);
            schemas_are_sound(*right, catalog);
            joined_fields_are_sound(
                left.schema().fields,
                right.schema().fields,
                join_type,
                right.schema().fields.len() as int,
            );
        },
    }
}

proof fn sorts_are_sendable(
    input: LogicalView,
    exprs: Seq<SortView>,
    catalog: Map<Seq<char>, TableView>,
)
    requires
        sorts_named(exprs),
        sorts_check(exprs, input.schema(), 0) is Ok,
    ensures
        crate::plan_codec::schemas::sorts_sendable(exprs, input.schema()),
{
    assert forall|i: int| 0 <= i < exprs.len() implies (#[trigger] exprs[i]).expr.is_named()
        && exprs[i].expr.data_type(input.schema()) is Ok by {
        sorts_have_types(exprs, input.schema(), 0, i);
    }
}

proof fn a_planned_projection(plan: LogicalView, catalog: Map<Seq<char>, TableView>, id: nat)
    requires
        plan is Projection,
        is_built(plan, catalog),
        physical_plan(plan, catalog, id) is Ok,
        transportable(physical_plan(*plan->Projection_input, catalog, id + 1)->Ok_0, catalog),
    ensures
        transportable(physical_plan(plan, catalog, id)->Ok_0, catalog),
{
    schemas_are_sound(plan, catalog);
    schemas_are_planned(*plan->Projection_input, catalog, id + 1);
}

proof fn a_planned_filter(plan: LogicalView, catalog: Map<Seq<char>, TableView>, id: nat)
    requires
        plan is Filter,
        is_built(plan, catalog),
        physical_plan(plan, catalog, id) is Ok,
        transportable(physical_plan(*plan->Filter_input, catalog, id + 1)->Ok_0, catalog),
    ensures
        transportable(physical_plan(plan, catalog, id)->Ok_0, catalog),
{
    schemas_are_sound(plan, catalog);
    schemas_are_planned(*plan->Filter_input, catalog, id + 1);
}

proof fn a_planned_aggregation(plan: LogicalView, catalog: Map<Seq<char>, TableView>, id: nat)
    requires
        plan is Aggregate,
        is_built(plan, catalog),
        physical_plan(plan, catalog, id) is Ok,
        transportable(physical_plan(*plan->Aggregate_input, catalog, id + 1)->Ok_0, catalog),
    ensures
        transportable(physical_plan(plan, catalog, id)->Ok_0, catalog),
{
    schemas_are_sound(plan, catalog);
    schemas_are_planned(*plan->Aggregate_input, catalog, id + 1);
}

proof fn a_planned_sort(plan: LogicalView, catalog: Map<Seq<char>, TableView>, id: nat)
    requires
        plan is Sort,
        is_built(plan, catalog),
        physical_plan(plan, catalog, id) is Ok,
        transportable(physical_plan(*plan->Sort_input, catalog, id + 1)->Ok_0, catalog),
    ensures
        transportable(physical_plan(plan, catalog, id)->Ok_0, catalog),
{
    schemas_are_sound(plan, catalog);
    schemas_are_planned(*plan->Sort_input, catalog, id + 1);
    sorts_are_sendable(*plan->Sort_input, plan->Sort_exprs, catalog);
}

proof fn a_planned_limit(plan: LogicalView, catalog: Map<Seq<char>, TableView>, id: nat)
    requires
        plan is Limit,
        !(*plan->Limit_input is Sort),
        is_built(plan, catalog),
        physical_plan(plan, catalog, id) is Ok,
        transportable(physical_plan(*plan->Limit_input, catalog, id + 1)->Ok_0, catalog),
    ensures
        transportable(physical_plan(plan, catalog, id)->Ok_0, catalog),
{
    schemas_are_sound(plan, catalog);
    schemas_are_planned(*plan->Limit_input, catalog, id + 1);
}

/// The input of the sort under a limit.
spec fn sorted_input(plan: LogicalView) -> LogicalView {
    *(*plan->Limit_input)->Sort_input
}

proof fn a_planned_selection(plan: LogicalView, catalog: Map<Seq<char>, TableView>, id: nat)
    requires
        plan is Limit,
        *plan->Limit_input is Sort,
        is_built(plan, catalog),
        is_built(*plan->Limit_input, catalog),
        physical_plan(plan, catalog, id) is Ok,
        transportable(physical_plan(sorted_input(plan), catalog, id + 1)->Ok_0, catalog),
    ensures
        transportable(physical_plan(plan, catalog, id)->Ok_0, catalog),
{
    schemas_are_sound(plan, catalog);
    schemas_are_planned(sorted_input(plan), catalog, id + 1);
    sorts_are_sendable(sorted_input(plan), (*plan->Limit_input)->Sort_exprs, catalog);
}

proof fn a_planned_join(plan: LogicalView, catalog: Map<Seq<char>, TableView>, id: nat)
    requires
        plan is Join,
        is_built(plan, catalog),
        physical_plan(plan, catalog, id) is Ok,
        transportable(physical_plan(*plan->Join_left, catalog, id + 1)->Ok_0, catalog),
        transportable(
            physical_plan(
                *plan->Join_right,
                catalog,
                id + 1 + operator_count(*plan->Join_left),
            )->Ok_0,
            catalog,
        ),
    ensures
        transportable(physical_plan(plan, catalog, id)->Ok_0, catalog),
{
    let left = *plan->Join_left;
    let right = *plan->Join_right;
    schemas_are_sound(plan, catalog);
    schemas_are_planned(left, catalog, id + 1);
    schemas_are_planned(right, catalog, id + 1 + operator_count(left));
    keys_check_alike(
        plan->Join_left_on,
        plan->Join_right_on,
        left.schema(),
        right.schema(),
        0,
    );
}

proof fn a_planned_scan(plan: LogicalView, catalog: Map<Seq<char>, TableView>, id: nat)
    requires
        plan is Scan,
        is_built(plan, catalog),
        physical_plan(plan, catalog, id) is Ok,
    ensures
        transportable(physical_plan(plan, catalog, id)->Ok_0, catalog),
{
}

proof fn inputs_are_planned(plan: LogicalView, catalog: Map<Seq<char>, TableView>, id: nat)
    requires
        physical_plan(plan, catalog, id) is Ok,
    ensures
        match plan {
            LogicalView::Scan { .. } => true,
            LogicalView::Projection { input, .. } => physical_plan(
                *input,
                catalog,
                id + 1,
            ) is Ok,
            LogicalView::Filter { input, .. } => physical_plan(*input, catalog, id + 1) is Ok,
            LogicalView::Aggregate { input, .. } => physical_plan(*input, catalog, id + 1) is Ok,
            LogicalView::Sort { input, .. } => physical_plan(*input, catalog, id + 1) is Ok,
            LogicalView::Limit { input, .. } => if *input is Sort {
                physical_plan(sorted_input(plan), catalog, id + 1) is Ok
            } else {
                physical_plan(*input, catalog, id + 1) is Ok
            },
            LogicalView::Join { left, right, .. } => {
                &&& physical_plan(*left, catalog, id + 1) is Ok
                &&& physical_plan(*right, catalog, id + 1 + operator_count(*left)) is Ok
            },
        },
{
}

proof fn inputs_are_built(plan: LogicalView, catalog: Map<Seq<char>, TableView>)
    requires
        is_built(plan, catalog),
    ensures
        match plan {
            LogicalView::Scan { .. } => true,
            LogicalView::Projection { input, .. } => is_built(*input, catalog),
            LogicalView::Filter { input, .. } => is_built(*input, catalog),
            LogicalView::Aggregate { input, .. } => is_built(*input, catalog),
            LogicalView::Sort { input, .. } => is_built(*input, catalog),
            LogicalView::Limit { input, .. } => is_built(*input, catalog) && (*input is Sort
                ==> is_built(sorted_input(plan), catalog)),
            LogicalView::Join { left, right, .. } => is_built(*left, catalog) && is_built(
                *right,
                catalog,
            ),
        },
{
    if let LogicalView::Limit { input, .. } = plan {
        assert(is_built(*input, catalog));
    }
}

/// A plan that the constructors of plans make can be sent to a worker with the same tables, once it
/// is planned.
pub proof fn planned_queries_are_transportable(
    plan: LogicalView,
    catalog: Map<Seq<char>, TableView>,
    id: nat,
)
    requires
        is_built(plan, catalog),
        physical_plan(plan, catalog, id) is Ok,
    ensures
        transportable(physical_plan(plan, catalog, id)->Ok_0, catalog),
    decreases plan,
{
    inputs_are_planned(plan, catalog, id);
    inputs_are_built(plan, catalog);
    match plan {
        LogicalView::Scan { .. } => {
            a_planned_scan(plan, catalog, id);
        },
        LogicalView::Projection { input, .. } => {
            planned_queries_are_transportable(*input, catalog, id + 1);
            a_planned_projection(plan, catalog, id);
        },
        LogicalView::Filter { input, .. } => {
            planned_queries_are_transportable(*input, catalog, id + 1);
            a_planned_filter(plan, catalog, id);
        },
        LogicalView::Aggregate { input, .. } => {
            planned_queries_are_transportable(*input, catalog, id + 1);
            a_planned_aggregation(plan, catalog, id);
        },
        LogicalView::Sort { input, .. } => {
            planned_queries_are_transportable(*input, catalog, id + 1);
            a_planned_sort(plan, catalog, id);
        },
        LogicalView::Limit { input, .. } => {
            if *input is Sort {
                planned_queries_are_transportable(sorted_input(plan), catalog, id + 1);
                a_planned_selection(plan, catalog, id);
            } else {
                planned_queries_are_transportable(*input, catalog, id + 1);
                a_planned_limit(plan, catalog, id);
            }
        },
        LogicalView::Join { left, right, .. } => {
            planned_queries_are_transportable(*left, catalog, id + 1);
            planned_queries_are_transportable(
                *right,
                catalog,
                id + 1 + operator_count(*left),
            );
            a_planned_join(plan, catalog, id);
        },
    }
}

/// A planned query that was encoded decodes to the same plan at a worker with the same tables, where
/// its messages do not stand too deep within each other.
pub proof fn planned_queries_survive(
    plan: LogicalView,
    catalog: Map<Seq<char>, TableView>,
    physical: PhysicalView,
)
    requires
        is_built(plan, catalog),
        physical_plan(plan, catalog, 0) == Ok::<PhysicalView, ErrorView>(physical),
        encoded_fragment(physical) is Ok,
        plan_fits(encoded_plan(physical, 0)->Ok_0, (RECURSION_LIMIT - 1) as nat),
    ensures
        fragment_check(encoded_fragment(physical)->Ok_0) is Ok,
        decoded_fragment(encoded_fragment(physical)->Ok_0, catalog) == Ok::<
            PhysicalView,
            ErrorView,
        >(physical),
{
    planned_queries_are_transportable(plan, catalog, 0);
    fragment_survives(physical, catalog);
}

// ---- plans made better

proof fn simple_expressions_are_named(expr: ExprView, schema: SchemaView)
    requires
        expr.is_named(),
    ensures
        expr.simplified(schema) matches Ok(simple) ==> simple.is_named(),
    decreases expr,
{
    reveal_with_fuel(ExprView::is_named, 3);
    match expr {
        ExprView::Binary { left, right, .. } => {
            simple_expressions_are_named(*left, schema);
            simple_expressions_are_named(*right, schema);
        },
        ExprView::IsNull { expr: inner, .. } => simple_expressions_are_named(*inner, schema),
        ExprView::Cast { expr: inner, .. } => simple_expressions_are_named(*inner, schema),
        ExprView::Alias(inner, _) => simple_expressions_are_named(*inner, schema),
        ExprView::Aggregate { expr: inner, .. } => simple_expressions_are_named(*inner, schema),
        _ => {},
    }
}

proof fn simple_lists_are_named(exprs: Seq<ExprView>, schema: SchemaView, upto: int)
    requires
        0 <= upto <= exprs.len(),
        all_named(exprs),
    ensures
        all_simplified(exprs, schema, upto) matches Ok(simple) ==> all_named(simple),
    decreases upto,
{
    if upto > 0 {
        simple_lists_are_named(exprs, schema, upto - 1);
        assert(exprs[upto - 1].is_named());
        simple_expressions_are_named(exprs[upto - 1], schema);
    }
}

proof fn simple_sorts_are_named(sorts: Seq<SortView>, schema: SchemaView, upto: int)
    requires
        0 <= upto <= sorts.len(),
        sorts_named(sorts),
    ensures
        sorts_simplified(sorts, schema, upto) matches Ok(simple) ==> sorts_named(simple)
            && simple.len() == upto,
    decreases upto,
{
    if upto > 0 {
        simple_sorts_are_named(sorts, schema, upto - 1);
        assert(sorts[upto - 1].expr.is_named());
        simple_expressions_are_named(sorts[upto - 1].expr, schema);
    }
}

proof fn nothing_expanded_is_a_wildcard(exprs: Seq<ExprView>, schema: SchemaView, upto: int)
    requires
        0 <= upto <= exprs.len(),
    ensures
        forall|i: int|
            0 <= i < expanded(exprs, schema, upto).len() ==> !((#[trigger] expanded(
                exprs,
                schema,
                upto,
            )[i]) is Wildcard),
    decreases upto,
{
    if upto > 0 {
        nothing_expanded_is_a_wildcard(exprs, schema, upto - 1);
        let earlier = expanded(exprs, schema, upto - 1);
        let all = expanded(exprs, schema, upto);
        assert forall|i: int| 0 <= i < all.len() implies !((#[trigger] all[i]) is Wildcard) by {
            if i < earlier.len() {
                assert(all[i] == earlier[i]);
            }
        }
    }
}

/// A projection of named expressions over a plan that is built is built.
proof fn a_projection_is_built(
    input: LogicalView,
    exprs: Seq<ExprView>,
    catalog: Map<Seq<char>, TableView>,
)
    requires
        is_built(input, catalog),
        all_named(exprs),
        forall|i: int| 0 <= i < exprs.len() ==> !((#[trigger] exprs[i]) is Wildcard),
        projected(input, exprs) is Ok,
    ensures
        is_built(projected(input, exprs)->Ok_0, catalog),
        projected(input, exprs)->Ok_0 is Projection,
        *projected(input, exprs)->Ok_0->Projection_input == input,
        projected(input, exprs)->Ok_0->Projection_exprs == exprs,
{
    nothing_to_expand(exprs, input.schema(), exprs.len() as int);
    assert(exprs.take(exprs.len() as int) =~= exprs);
}

proof fn built_projections_have_no_wildcards(
    plan: LogicalView,
    catalog: Map<Seq<char>, TableView>,
)
    requires
        plan is Projection,
        is_built(plan, catalog),
    ensures
        forall|i: int|
            0 <= i < plan->Projection_exprs.len() ==> !((
            #[trigger] plan->Projection_exprs[i]) is Wildcard),
{
    let exprs = plan->Projection_exprs;
    nothing_expanded_is_a_wildcard(exprs, plan->Projection_input.schema(), exprs.len() as int);
}

/// Whether the columns of every table have names without a stop that are told apart.
pub open spec fn has_plain_names(catalog: Map<Seq<char>, TableView>) -> bool {
    forall|table: Seq<char>|
        (#[trigger] find_table(catalog, table)) matches Ok(provider) ==> told_apart(
            provider.schema.names(),
        ) && !any_qualified(provider.schema.names())
}

proof fn fields_match_at(
    table: Seq<char>,
    expected: Seq<FieldView>,
    actual: Seq<FieldView>,
    from: int,
    at: int,
)
    requires
        scan_fields_check(table, expected, actual, from) is Ok,
        0 <= from <= at < expected.len(),
    ensures
        short_name(expected[at].name) == short_name(actual[at].name),
        expected[at].data_type == actual[at].data_type,
        expected[at].nullable == actual[at].nullable,
        expected[at].metadata == actual[at].metadata,
    decreases at - from,
{
    if from < at {
        fields_match_at(table, expected, actual, from + 1, at);
    }
}

proof fn matching_fields_are_checked(
    table: Seq<char>,
    expected: Seq<FieldView>,
    actual: Seq<FieldView>,
    from: int,
)
    requires
        0 <= from,
        forall|k: int|
            0 <= k < expected.len() ==> short_name((#[trigger] expected[k]).name) == short_name(
                actual[k].name,
            ) && expected[k].data_type == actual[k].data_type && expected[k].nullable
                == actual[k].nullable && expected[k].metadata == actual[k].metadata,
    ensures
        scan_fields_check(table, expected, actual, from) is Ok,
    decreases expected.len() - from,
{
    if from < expected.len() {
        assert(short_name(expected[from].name) == short_name(actual[from].name));
        matching_fields_are_checked(table, expected, actual, from + 1);
    }
}

proof fn places_within_are_checked(
    table: Seq<char>,
    indices: Seq<usize>,
    width: nat,
    from: int,
)
    requires
        0 <= from,
        forall|i: int| 0 <= i < indices.len() ==> #[trigger] indices[i] < width,
    ensures
        indices_check(table, indices, width, from) is Ok,
    decreases indices.len() - from,
{
    if from < indices.len() {
        assert(indices[from] < width);
        places_within_are_checked(table, indices, width, from + 1);
    }
}

proof fn checked_places_are_within(
    table: Seq<char>,
    indices: Seq<usize>,
    width: nat,
    from: int,
    at: int,
)
    requires
        indices_check(table, indices, width, from) is Ok,
        0 <= from <= at < indices.len(),
    ensures
        indices[at] < width,
    decreases at - from,
{
    if from < at {
        checked_places_are_within(table, indices, width, from + 1, at);
    }
}

/// Where a scan's column stands in its table.
spec fn source_of(projection: Option<Seq<usize>>, k: int) -> int {
    match projection {
        None => k,
        Some(indices) => indices[k] as int,
    }
}

/// A scan of fewer columns reads columns of its table.
proof fn a_narrow_scan_is_built(
    scan: LogicalView,
    places: Seq<int>,
    catalog: Map<Seq<char>, TableView>,
)
    requires
        scan is Scan,
        is_built(scan, catalog),
        has_plain_names(catalog),
        find_table(catalog, scan->Scan_table)->Ok_0.schema.fields.len() <= usize::MAX,
        forall|j: int|
            0 <= j < places.len() ==> 0 <= #[trigger] places[j] < scan->Scan_schema.fields.len(),
    ensures
        is_built(
            narrowed(scan->Scan_table, scan->Scan_filters, scan->Scan_schema, places),
            catalog,
        ),
{
    let table = scan->Scan_table;
    let schema = scan->Scan_schema;
    let provider = find_table(catalog, table)->Ok_0;
    let names = provider.schema.names();
    let old_indices = scan_projection(scan->Scan_projection, provider.schema)->Ok_0;
    let actual = projected_fields(provider.schema, old_indices);
    let sources = Seq::new(places.len(), |j: int| source_of(old_indices, places[j]));
    let wanted = Seq::new(places.len(), |j: int| schema.fields[places[j]].name);
    let indices = Seq::new(sources.len(), |j: int| sources[j] as usize);
    let fewer = plain_schema(Seq::new(places.len(), |j: int| schema.fields[places[j]]));
    assert forall|j: int| 0 <= j < places.len() implies {
        &&& 0 <= #[trigger] sources[j] < provider.schema.fields.len()
        &&& resolve(names, wanted[j]) == Ok::<int, ErrorView>(sources[j])
        &&& actual[places[j]] == provider.schema.fields[sources[j]]
        &&& short_name(schema.fields[places[j]].name) == short_name(actual[places[j]].name)
        &&& schema.fields[places[j]].data_type == actual[places[j]].data_type
        &&& schema.fields[places[j]].nullable == actual[places[j]].nullable
        &&& schema.fields[places[j]].metadata == actual[places[j]].metadata
    } by {
        let k = places[j];
        assert(0 <= places[j] < schema.fields.len());
        fields_match_at(table, schema.fields, actual, 0, k);
        if let Some(list) = old_indices {
            checked_places_are_within(table, list, provider.schema.fields.len(), 0, k);
        }
        names_are_found(names, wanted[j], sources[j]);
    }
    assert forall|j: int| 0 <= j < sources.len() implies resolve(names, #[trigger] wanted[j])
        == Ok::<int, ErrorView>(sources[j]) by {
        assert(0 <= sources[j]);
    }
    places_are_found_again(provider.schema, wanted, sources, sources.len() as int);
    assert(sources.take(sources.len() as int) =~= sources);
    assert(scan_projection(Some(wanted), provider.schema) == Ok::<Option<Seq<usize>>, ErrorView>(
        Some(indices),
    ));
    assert forall|j: int| 0 <= j < indices.len() implies #[trigger] indices[j]
        < provider.schema.fields.len() by {
        assert(0 <= sources[j] < provider.schema.fields.len());
    }
    places_within_are_checked(table, indices, provider.schema.fields.len(), 0);
    let found = projected_fields(provider.schema, Some(indices));
    assert forall|k: int| 0 <= k < fewer.fields.len() implies short_name(
        (#[trigger] fewer.fields[k]).name,
    ) == short_name(found[k].name) && fewer.fields[k].data_type == found[k].data_type
        && fewer.fields[k].nullable == found[k].nullable && fewer.fields[k].metadata
        == found[k].metadata by {
        assert(0 <= sources[k] < provider.schema.fields.len());
    }
    matching_fields_are_checked(table, fewer.fields, found, 0);
    assert(schema_wf(fewer)) by {
        assert forall|i: int| 0 <= i < fewer.fields.len() implies crate::plan_codec::schemas::keys_in_order(
            (#[trigger] fewer.fields[i]).metadata,
        ) by {
            assert(0 <= places[i] < schema.fields.len());
            assert(schema.fields[places[i]].metadata == fewer.fields[i].metadata);
        }
    }
}

proof fn places_are_within(names: Seq<Seq<char>>, schema: SchemaView, upto: int)
    requires
        0 <= upto <= names.len(),
    ensures
        places_of(names, schema, upto) matches Ok(places) ==> forall|j: int|
            0 <= j < places.len() ==> 0 <= #[trigger] places[j] < schema.fields.len(),
    decreases upto,
{
    if upto > 0 {
        places_are_within(names, schema, upto - 1);
        resolve_is_within(schema.names(), names[upto - 1]);
    }
}

/// Whether the tables of a catalog have no more columns than can be counted.
pub open spec fn has_countable_columns(catalog: Map<Seq<char>, TableView>) -> bool {
    forall|table: Seq<char>|
        (#[trigger] find_table(catalog, table)) matches Ok(provider)
            ==> provider.schema.fields.len() <= usize::MAX
}

/// Building a plan again over inputs made better keeps it built.
proof fn rebuilt_plans_are_built(plan: LogicalView, catalog: Map<Seq<char>, TableView>)
    requires
        is_built(plan, catalog),
        has_plain_names(catalog),
        has_countable_columns(catalog),
    ensures
        with_optimized_inputs(plan) matches Ok(next) ==> is_built(next, catalog) && (
        plan is Projection ==> next is Projection && next->Projection_exprs
            == plan->Projection_exprs),
    decreases plan, 0int,
{
    inputs_are_built(plan, catalog);
    match plan {
        LogicalView::Scan { .. } => {},
        LogicalView::Projection { input, exprs, .. } => {
            optimizing_keeps_plans_built(*input, catalog);
            built_projections_have_no_wildcards(plan, catalog);
            if let Ok(better) = optimized(*input) {
                if projected(better, exprs) is Ok {
                    a_projection_is_built(better, exprs, catalog);
                }
            }
        },
        LogicalView::Filter { input, .. } => optimizing_keeps_plans_built(*input, catalog),
        LogicalView::Aggregate { input, .. } => optimizing_keeps_plans_built(*input, catalog),
        LogicalView::Sort { input, .. } => optimizing_keeps_plans_built(*input, catalog),
        LogicalView::Limit { input, .. } => optimizing_keeps_plans_built(*input, catalog),
        LogicalView::Join { left, right, .. } => {
            optimizing_keeps_plans_built(*left, catalog);
            optimizing_keeps_plans_built(*right, catalog);
        },
    }
}

proof fn simple_plans_are_built(plan: LogicalView, catalog: Map<Seq<char>, TableView>)
    requires
        is_built(plan, catalog),
    ensures
        simplified_plan(plan) matches Ok(next) ==> is_built(next, catalog),
{
    inputs_are_built(plan, catalog);
    match plan {
        LogicalView::Scan { filters, schema, .. } => {
            simple_lists_are_named(filters, schema, filters.len() as int);
        },
        LogicalView::Projection { input, exprs, .. } => {
            let count = exprs.len() as int;
            built_projections_have_no_wildcards(plan, catalog);
            simple_lists_are_named(exprs, input.schema(), count);
            simple_lists_have_no_wildcards(exprs, input.schema(), count);
            if let Ok(simple) = all_simplified(exprs, input.schema(), count) {
                if projected(*input, simple) is Ok {
                    a_projection_is_built(*input, simple, catalog);
                }
            }
        },
        LogicalView::Filter { input, predicate, .. } => {
            simple_expressions_are_named(predicate, input.schema());
        },
        LogicalView::Aggregate { input, group_exprs, aggregate_exprs, .. } => {
            simple_lists_are_named(group_exprs, input.schema(), group_exprs.len() as int);
            simple_lists_are_named(aggregate_exprs, input.schema(), aggregate_exprs.len() as int);
        },
        LogicalView::Sort { input, exprs, .. } => {
            simple_sorts_are_named(exprs, input.schema(), exprs.len() as int);
        },
        LogicalView::Limit { .. } => {},
        LogicalView::Join { left, right, left_on, right_on, .. } => {
            simple_lists_are_named(left_on, left.schema(), left_on.len() as int);
            simple_lists_are_named(right_on, right.schema(), right_on.len() as int);
        },
    }
}

proof fn pushed_filters_are_built(plan: LogicalView, catalog: Map<Seq<char>, TableView>)
    requires
        is_built(plan, catalog),
    ensures
        filter_pushed(plan) matches Ok(next) ==> is_built(next, catalog),
{
    inputs_are_built(plan, catalog);
}

proof fn pushed_projections_are_built(plan: LogicalView, catalog: Map<Seq<char>, TableView>)
    requires
        is_built(plan, catalog),
        has_plain_names(catalog),
        has_countable_columns(catalog),
    ensures
        projection_pushed(plan) matches Ok(next) ==> is_built(next, catalog),
{
    inputs_are_built(plan, catalog);
    if let LogicalView::Projection { input, exprs, .. } = plan {
        built_projections_have_no_wildcards(plan, catalog);
        if let LogicalView::Scan { table, filters, schema, .. } = *input {
            let names = listing(columns_of(exprs + filters));
            places_are_within(names, schema, names.len() as int);
            if let Ok(places) = places_of(names, schema, names.len() as int) {
                assert(find_table(catalog, table) is Ok);
                a_narrow_scan_is_built(*input, places, catalog);
                let fewer = narrowed(table, filters, schema, places);
                if projected(fewer, exprs) is Ok {
                    a_projection_is_built(fewer, exprs, catalog);
                }
            }
        }
        if projected(*input, exprs) is Ok {
            a_projection_is_built(*input, exprs, catalog);
        }
    }
}

proof fn plans_without_identities_are_built(
    plan: LogicalView,
    catalog: Map<Seq<char>, TableView>,
)
    requires
        is_built(plan, catalog),
    ensures
        identity_dropped(plan) matches Ok(next) ==> is_built(next, catalog),
{
    inputs_are_built(plan, catalog);
    if let LogicalView::Projection { input, exprs, .. } = plan {
        built_projections_have_no_wildcards(plan, catalog);
        if projected(*input, exprs) is Ok {
            a_projection_is_built(*input, exprs, catalog);
        }
    }
}

/// A plan made better is still one that the constructors of plans make, so that it can be sent once
/// it is planned.
pub proof fn optimizing_keeps_plans_built(plan: LogicalView, catalog: Map<Seq<char>, TableView>)
    requires
        is_built(plan, catalog),
        has_plain_names(catalog),
        has_countable_columns(catalog),
    ensures
        optimized(plan) matches Ok(best) ==> is_built(best, catalog),
    decreases plan, 1int,
{
    rebuilt_plans_are_built(plan, catalog);
    if let Ok(first) = with_optimized_inputs(plan) {
        simple_plans_are_built(first, catalog);
        if let Ok(second) = simplified_plan(first) {
            pushed_filters_are_built(second, catalog);
            if let Ok(third) = filter_pushed(second) {
                pushed_projections_are_built(third, catalog);
                if let Ok(fourth) = projection_pushed(third) {
                    plans_without_identities_are_built(fourth, catalog);
                }
            }
        }
    }
}

/// A query that a session plans, made better on the way, decodes to the same plan at a worker with
/// the same tables, once it was encoded.
pub proof fn a_sessions_plan_survives(
    logical: LogicalView,
    catalog: Map<Seq<char>, TableView>,
    planned: PlannedView,
)
    requires
        is_built(logical, catalog),
        has_plain_names(catalog),
        has_countable_columns(catalog),
        all_plans(logical, catalog) == Ok::<PlannedView, ErrorView>(planned),
        encoded_fragment(planned.physical) is Ok,
        plan_fits(encoded_plan(planned.physical, 0)->Ok_0, (RECURSION_LIMIT - 1) as nat),
    ensures
        transportable(planned.physical, catalog),
        fragment_check(encoded_fragment(planned.physical)->Ok_0) is Ok,
        decoded_fragment(encoded_fragment(planned.physical)->Ok_0, catalog) == Ok::<
            PhysicalView,
            ErrorView,
        >(planned.physical),
{
    optimizing_keeps_plans_built(logical, catalog);
    planned_queries_are_transportable(planned.optimized, catalog, 0);
    planned_queries_survive(planned.optimized, catalog, planned.physical);
}

} // verus!

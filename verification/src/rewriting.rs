//! What the optimizer rewrites gives the same rows.

use crate::batch::{made_batch, BatchView};
use crate::column::ColumnView;
use crate::catalog::{find_table, TableView};
use crate::distributed::spreading::{
    all_have, filters_keep_the_schema, local_plans_are_settled, local_result, scans_have_the_schema,
};
use crate::error::ErrorView;
use crate::execution::aggregate::{
    arguments_of, fresh_states, grouped, rows_grouped, CallView, GroupView,
};
use crate::execution::join::{built, joined, probed, right_width_of, KeyedView};
use crate::execution::laws::a_filter_may_move_into_a_scan;
use crate::execution::rows::computed;
use crate::execution::run::{
    all_filtered, all_projected, input_of, produces, runs, scan_added, scan_result, scanned,
    scanned_batch, scanned_batches, Trace,
};
use crate::execution::sort::{descending_flags, is_sorted, nulls_first_flags, sort_exprs};
use crate::execution::stream::filtered_by_all;
use crate::expr::{
    any_qualified, occurrence, occurrence_is_within, resolve, short_names, ExprView, Occurrence,
};
use crate::kernels::MAX_CELLS;
use crate::logical::{expanded, JoinType, LogicalView, SortView};
use crate::optimizer::{
    all_simplified, columns_can_be_listed, columns_of, is_column_named, is_identity, listing, narrowed,
    optimized, places_of, sorts_simplified, with_optimized_inputs,
};
use crate::physical::PhysicalView;
use crate::planner::{physical_plan, scan_projection};
use crate::remote::is_partition_local;
use crate::table::{
    all_valid, projected_batches, scanned_partition, table_place, MemoryTableView, NamedTableView,
};
use crate::text::{
    before, before_is_strict, behind_last_stop, behind_last_stop_is_within, has_stop, in_order,
    short_name,
};
use crate::types::{plain_schema, SchemaView};
use crate::values::{all_typed, simplifying_changes_no_value};
use vstd::prelude::*;

verus! {

/// Whether two lists of batches hold the same rows, whatever their columns are called.
pub open spec fn same_rows(a: Seq<BatchView>, b: Seq<BatchView>) -> bool {
    &&& a.len() == b.len()
    &&& forall|i: int|
        0 <= i < a.len() ==> (#[trigger] a[i]).columns == b[i].columns && a[i].rows == b[i].rows
}

/// Batches over which expressions of a schema can be made simple.
pub open spec fn are_plain(batches: Seq<BatchView>, schema: SchemaView) -> bool {
    &&& all_valid(batches)
    &&& all_have(batches, schema)
    &&& all_typed(schema)
    &&& forall|i: int| 0 <= i < batches.len() ==> (#[trigger] batches[i]).rows <= MAX_CELLS
}

// ---- expressions made simple

/// A filter whose predicate is made simple lets the same rows through.
pub proof fn a_simple_filter_keeps_the_rows(
    batches: Seq<BatchView>,
    schema: SchemaView,
    predicate: ExprView,
    upto: int,
)
    requires
        are_plain(batches, schema),
        0 <= upto <= batches.len(),
        predicate.simplified(schema) is Ok,
        all_filtered(batches, predicate, upto) is Ok,
    ensures
        all_filtered(batches, predicate.simplified(schema)->Ok_0, upto) == all_filtered(
            batches,
            predicate,
            upto,
        ),
    decreases upto,
{
    if upto > 0 {
        a_simple_filter_keeps_the_rows(batches, schema, predicate, upto - 1);
        assert(batches[upto - 1].wf());
        simplifying_changes_no_value(predicate, schema, batches[upto - 1]);
    }
}

proof fn simple_expressions_compute_alike(
    exprs: Seq<ExprView>,
    schema: SchemaView,
    batch: BatchView,
    upto: int,
)
    requires
        batch.wf(),
        batch.schema == schema,
        batch.rows <= MAX_CELLS,
        all_typed(schema),
        0 <= upto <= exprs.len(),
        all_simplified(exprs, schema, upto) is Ok,
        computed(exprs, batch, upto) is Ok,
    ensures
        all_simplified(exprs, schema, upto)->Ok_0.len() == upto,
        computed(all_simplified(exprs, schema, upto)->Ok_0, batch, upto) == computed(
            exprs,
            batch,
            upto,
        ),
    decreases upto,
{
    if upto > 0 {
        simple_expressions_compute_alike(exprs, schema, batch, upto - 1);
        simplifying_changes_no_value(exprs[upto - 1], schema, batch);
        let all = all_simplified(exprs, schema, upto)->Ok_0;
        let before = all_simplified(exprs, schema, upto - 1)->Ok_0;
        computing_reads_a_prefix(all, before, batch, upto - 1);
    }
}

proof fn computing_reads_a_prefix(
    a: Seq<ExprView>,
    b: Seq<ExprView>,
    batch: BatchView,
    upto: int,
)
    requires
        upto <= a.len(),
        upto <= b.len(),
        forall|i: int| 0 <= i < upto ==> a[i] == b[i],
    ensures
        computed(a, batch, upto) == computed(b, batch, upto),
    decreases upto,
{
    if upto > 0 {
        computing_reads_a_prefix(a, b, batch, upto - 1);
    }
}

/// A projection whose expressions are made simple gives the same rows.
pub proof fn a_simple_projection_keeps_the_rows(
    batches: Seq<BatchView>,
    schema: SchemaView,
    exprs: Seq<ExprView>,
    before: SchemaView,
    after: SchemaView,
    upto: int,
)
    requires
        are_plain(batches, schema),
        0 <= upto <= batches.len(),
        all_simplified(exprs, schema, exprs.len() as int) is Ok,
        all_projected(batches, exprs, before, upto) is Ok,
        all_projected(
            batches,
            all_simplified(exprs, schema, exprs.len() as int)->Ok_0,
            after,
            upto,
        ) is Ok,
    ensures
        same_rows(
            all_projected(
                batches,
                all_simplified(exprs, schema, exprs.len() as int)->Ok_0,
                after,
                upto,
            )->Ok_0,
            all_projected(batches, exprs, before, upto)->Ok_0,
        ),
    decreases upto,
{
    if upto > 0 {
        a_simple_projection_keeps_the_rows(batches, schema, exprs, before, after, upto - 1);
        assert(batches[upto - 1].wf());
        simple_expressions_compute_alike(exprs, schema, batches[upto - 1], exprs.len() as int);
    }
}

/// Whether calls are others with their arguments made simple.
pub open spec fn are_simple_calls(
    simple: Seq<CallView>,
    calls: Seq<CallView>,
    schema: SchemaView,
) -> bool {
    &&& simple.len() == calls.len()
    &&& forall|c: int|
        0 <= c < calls.len() ==> {
            &&& (#[trigger] calls[c]).expr.simplified(schema) == Ok::<ExprView, ErrorView>(
                simple[c].expr,
            )
            &&& simple[c].function == calls[c].function
            &&& simple[c].distinct == calls[c].distinct
            &&& simple[c].expr is Wildcard <==> calls[c].expr is Wildcard
        }
}

proof fn simple_arguments_are_alike(
    simple: Seq<CallView>,
    calls: Seq<CallView>,
    schema: SchemaView,
    batch: BatchView,
    upto: int,
)
    requires
        batch.wf(),
        batch.schema == schema,
        batch.rows <= MAX_CELLS,
        all_typed(schema),
        0 <= upto <= calls.len(),
        are_simple_calls(simple, calls, schema),
        arguments_of(calls, batch, upto) is Ok,
    ensures
        arguments_of(simple, batch, upto) == arguments_of(calls, batch, upto),
    decreases upto,
{
    if upto > 0 {
        simple_arguments_are_alike(simple, calls, schema, batch, upto - 1);
        let call = calls[upto - 1];
        if !(call.expr is Wildcard) {
            simplifying_changes_no_value(call.expr, schema, batch);
        }
    }
}

proof fn simple_calls_group_rows_alike(
    groups: Seq<GroupView>,
    simple: Seq<CallView>,
    calls: Seq<CallView>,
    keys: Seq<ColumnView>,
    arguments: Seq<Option<ColumnView>>,
    upto: int,
)
    requires
        fresh_states(simple) == fresh_states(calls),
    ensures
        rows_grouped(groups, simple, keys, arguments, upto) == rows_grouped(
            groups,
            calls,
            keys,
            arguments,
            upto,
        ),
    decreases upto,
{
    if upto > 0 {
        simple_calls_group_rows_alike(groups, simple, calls, keys, arguments, upto - 1);
    }
}

/// An aggregation whose keys and arguments are made simple has the same groups.
pub proof fn a_simple_aggregation_keeps_the_groups(
    batches: Seq<BatchView>,
    schema: SchemaView,
    group_exprs: Seq<ExprView>,
    calls: Seq<CallView>,
    simple: Seq<CallView>,
    upto: int,
)
    requires
        are_plain(batches, schema),
        0 <= upto <= batches.len(),
        all_simplified(group_exprs, schema, group_exprs.len() as int) is Ok,
        all_simplified(group_exprs, schema, group_exprs.len() as int)->Ok_0.len()
            == group_exprs.len(),
        are_simple_calls(simple, calls, schema),
        grouped(batches, calls, group_exprs, upto) is Ok,
    ensures
        grouped(
            batches,
            simple,
            all_simplified(group_exprs, schema, group_exprs.len() as int)->Ok_0,
            upto,
        ) == grouped(batches, calls, group_exprs, upto),
    decreases upto,
{
    assert(fresh_states(simple) =~= fresh_states(calls)) by {
        assert forall|c: int| 0 <= c < calls.len() implies fresh_states(simple)[c]
            == fresh_states(calls)[c] by {
            let call = calls[c];
        }
    }
    if upto > 0 {
        a_simple_aggregation_keeps_the_groups(
            batches,
            schema,
            group_exprs,
            calls,
            simple,
            upto - 1,
        );
        let batch = batches[upto - 1];
        assert(batches[upto - 1].wf());
        let count = group_exprs.len() as int;
        simple_expressions_compute_alike(group_exprs, schema, batch, count);
        simple_arguments_are_alike(simple, calls, schema, batch, calls.len() as int);
        let keys = computed(group_exprs, batch, count)->Ok_0;
        let arguments = arguments_of(calls, batch, calls.len() as int)->Ok_0;
        let groups = grouped(batches, calls, group_exprs, upto - 1)->Ok_0;
        simple_calls_group_rows_alike(groups, simple, calls, keys, arguments, batch.rows as int);
    }
}

proof fn simple_keys_build_alike(
    batches: Seq<BatchView>,
    schema: SchemaView,
    on: Seq<ExprView>,
    upto: int,
)
    requires
        are_plain(batches, schema),
        0 <= upto <= batches.len(),
        all_simplified(on, schema, on.len() as int) is Ok,
        all_simplified(on, schema, on.len() as int)->Ok_0.len() == on.len(),
        built(batches, on, upto) is Ok,
    ensures
        built(batches, all_simplified(on, schema, on.len() as int)->Ok_0, upto) == built(
            batches,
            on,
            upto,
        ),
    decreases upto,
{
    if upto > 0 {
        simple_keys_build_alike(batches, schema, on, upto - 1);
        assert(batches[upto - 1].wf());
        simple_expressions_compute_alike(on, schema, batches[upto - 1], on.len() as int);
    }
}

proof fn simple_keys_probe_alike(
    batches: Seq<BatchView>,
    schema: SchemaView,
    on: Seq<ExprView>,
    right: Seq<KeyedView>,
    join_type: JoinType,
    width: nat,
    upto: int,
)
    requires
        are_plain(batches, schema),
        0 <= upto <= batches.len(),
        all_simplified(on, schema, on.len() as int) is Ok,
        all_simplified(on, schema, on.len() as int)->Ok_0.len() == on.len(),
        probed(batches, on, right, join_type, width, upto) is Ok,
    ensures
        probed(
            batches,
            all_simplified(on, schema, on.len() as int)->Ok_0,
            right,
            join_type,
            width,
            upto,
        ) == probed(batches, on, right, join_type, width, upto),
    decreases upto,
{
    if upto > 0 {
        simple_keys_probe_alike(batches, schema, on, right, join_type, width, upto - 1);
        assert(batches[upto - 1].wf());
        simple_expressions_compute_alike(on, schema, batches[upto - 1], on.len() as int);
    }
}

/// A join whose keys are made simple gives the same batch.
pub proof fn a_simple_join_keeps_the_rows(
    lefts: Seq<BatchView>,
    rights: Seq<BatchView>,
    left: SchemaView,
    right: SchemaView,
    join_type: JoinType,
    left_on: Seq<ExprView>,
    right_on: Seq<ExprView>,
    schema: SchemaView,
)
    requires
        are_plain(lefts, left),
        are_plain(rights, right),
        all_simplified(left_on, left, left_on.len() as int) is Ok,
        all_simplified(right_on, right, right_on.len() as int) is Ok,
        joined(lefts, rights, join_type, left_on, right_on, schema) is Ok,
    ensures
        joined(
            lefts,
            rights,
            join_type,
            all_simplified(left_on, left, left_on.len() as int)->Ok_0,
            all_simplified(right_on, right, right_on.len() as int)->Ok_0,
            schema,
        ) == joined(lefts, rights, join_type, left_on, right_on, schema),
{
    simple_lists_are_as_long(left_on, left, left_on.len() as int);
    simple_lists_are_as_long(right_on, right, right_on.len() as int);
    simple_keys_build_alike(rights, right, right_on, rights.len() as int);
    let keys = built(rights, right_on, rights.len() as int)->Ok_0;
    simple_keys_probe_alike(
        lefts,
        left,
        left_on,
        keys,
        join_type,
        right_width_of(lefts, rights, schema),
        lefts.len() as int,
    );
}

proof fn simple_sorts_compute_alike(
    sorts: Seq<SortView>,
    schema: SchemaView,
    batch: BatchView,
    upto: int,
)
    requires
        batch.wf(),
        batch.schema == schema,
        batch.rows <= MAX_CELLS,
        all_typed(schema),
        0 <= upto <= sorts.len(),
        sorts_simplified(sorts, schema, upto) is Ok,
        computed(sort_exprs(sorts), batch, upto) is Ok,
    ensures
        ({
            let simple = sorts_simplified(sorts, schema, upto)->Ok_0;
            &&& simple.len() == upto
            &&& computed(sort_exprs(simple), batch, upto) == computed(
                sort_exprs(sorts),
                batch,
                upto,
            )
            &&& forall|i: int|
                0 <= i < upto ==> (#[trigger] simple[i]).ascending == sorts[i].ascending
                    && simple[i].nulls_first == sorts[i].nulls_first
        }),
    decreases upto,
{
    if upto > 0 {
        simple_sorts_compute_alike(sorts, schema, batch, upto - 1);
        simplifying_changes_no_value(sorts[upto - 1].expr, schema, batch);
        let all = sorts_simplified(sorts, schema, upto)->Ok_0;
        let before = sorts_simplified(sorts, schema, upto - 1)->Ok_0;
        computing_reads_a_prefix(sort_exprs(all), sort_exprs(before), batch, upto - 1);
    }
}

/// A sort whose keys are made simple can give what it could give before, and nothing else.
pub proof fn a_simple_sort_keeps_the_rows(
    batch: BatchView,
    schema: SchemaView,
    sorts: Seq<SortView>,
    r: Result<BatchView, ErrorView>,
)
    requires
        batch.wf(),
        batch.schema == schema,
        batch.rows <= MAX_CELLS,
        all_typed(schema),
        sorts_simplified(sorts, schema, sorts.len() as int) is Ok,
        computed(sort_exprs(sorts), batch, sorts.len() as int) is Ok,
    ensures
        is_sorted(r, batch, sorts_simplified(sorts, schema, sorts.len() as int)->Ok_0)
            == is_sorted(r, batch, sorts),
{
    let simple = sorts_simplified(sorts, schema, sorts.len() as int)->Ok_0;
    simple_sorts_compute_alike(sorts, schema, batch, sorts.len() as int);
    assert(descending_flags(simple) =~= descending_flags(sorts));
    assert(nulls_first_flags(simple) =~= nulls_first_flags(sorts));
}

pub(crate) proof fn simple_lists_are_as_long(exprs: Seq<ExprView>, schema: SchemaView, upto: int)
    requires
        0 <= upto <= exprs.len(),
    ensures
        all_simplified(exprs, schema, upto) matches Ok(simple) ==> simple.len() == upto,
    decreases upto,
{
    if upto > 0 {
        simple_lists_are_as_long(exprs, schema, upto - 1);
    }
}

// ---- filters moved into scans

proof fn filtering_follows_scanning(
    before: Seq<BatchView>,
    kept: Seq<BatchView>,
    batches: Seq<BatchView>,
    filters: Seq<ExprView>,
    predicate: ExprView,
    schema: SchemaView,
    upto: int,
)
    requires
        0 <= upto <= batches.len(),
        all_filtered(before, predicate, before.len() as int) == Ok::<Seq<BatchView>, ErrorView>(
            kept,
        ),
    ensures
        scanned_batches(before, batches, filters, schema, upto) matches Ok(all) ==> (
        all_filtered(all, predicate, all.len() as int) matches Ok(rest) ==> scanned_batches(
            kept,
            batches,
            filters.push(predicate),
            schema,
            upto,
        ) == Ok::<Seq<BatchView>, ErrorView>(rest)),
    decreases upto,
{
    if upto > 0 {
        filtering_follows_scanning(
            before,
            kept,
            batches,
            filters,
            predicate,
            schema,
            upto - 1,
        );
        if let Ok(all) = scanned_batches(before, batches, filters, schema, upto) {
            let earlier = scanned_batches(before, batches, filters, schema, upto - 1)->Ok_0;
            let batch = batches[upto - 1];
            let last = scanned_batch(batch, filters, schema)->Ok_0;
            assert(all == earlier.push(last));
            filtering_reads_a_prefix(all, earlier, predicate, earlier.len() as int);
            if let Ok(named) = made_batch(schema, batch.columns, Some(batch.rows as usize)) {
                a_filter_may_move_into_a_scan(named, filters, predicate);
            }
        }
    }
}

proof fn filtering_reads_a_prefix(
    a: Seq<BatchView>,
    b: Seq<BatchView>,
    predicate: ExprView,
    upto: int,
)
    requires
        upto <= a.len(),
        upto <= b.len(),
        forall|i: int| 0 <= i < upto ==> a[i] == b[i],
    ensures
        all_filtered(a, predicate, upto) == all_filtered(b, predicate, upto),
    decreases upto,
{
    if upto > 0 {
        filtering_reads_a_prefix(a, b, predicate, upto - 1);
    }
}

proof fn filtering_begins_well(batches: Seq<BatchView>, predicate: ExprView, upto: int, full: int)
    requires
        0 <= upto <= full,
        all_filtered(batches, predicate, full) is Ok,
    ensures
        all_filtered(batches, predicate, upto) is Ok,
    decreases full - upto,
{
    if upto < full {
        filtering_begins_well(batches, predicate, upto, full - 1);
    }
}

proof fn scanning_goes_on_from(
    before: Seq<BatchView>,
    batches: Seq<BatchView>,
    filters: Seq<ExprView>,
    schema: SchemaView,
    upto: int,
)
    requires
        0 <= upto,
    ensures
        scanned_batches(before, batches, filters, schema, upto) matches Ok(all) ==> all.len()
            >= before.len() && forall|i: int|
            0 <= i < before.len() ==> #[trigger] all[i] == before[i],
    decreases upto,
{
    if upto > 0 {
        scanning_goes_on_from(before, batches, filters, schema, upto - 1);
    }
}

proof fn filtering_follows_all_scans(
    table: MemoryTableView,
    projection: Option<Seq<usize>>,
    filters: Seq<ExprView>,
    predicate: ExprView,
    schema: SchemaView,
    upto: int,
)
    requires
        0 <= upto,
    ensures
        scanned(table, projection, filters, schema, upto) matches Ok(all) ==> (all_filtered(
            all,
            predicate,
            all.len() as int,
        ) matches Ok(rest) ==> scanned(table, projection, filters.push(predicate), schema, upto)
            == Ok::<Seq<BatchView>, ErrorView>(rest)),
    decreases upto,
{
    if upto > 0 {
        filtering_follows_all_scans(table, projection, filters, predicate, schema, upto - 1);
        if let Ok(all) = scanned(table, projection, filters, schema, upto) {
            if all_filtered(all, predicate, all.len() as int) is Ok {
                let before = scanned(table, projection, filters, schema, upto - 1)->Ok_0;
                let batches = scanned_partition(table, (upto - 1) as nat, projection)->Ok_0;
                scanning_goes_on_from(before, batches, filters, schema, batches.len() as int);
                filtering_begins_well(all, predicate, before.len() as int, all.len() as int);
                filtering_reads_a_prefix(all, before, predicate, before.len() as int);
                let kept = all_filtered(before, predicate, before.len() as int)->Ok_0;
                filtering_follows_scanning(
                    before,
                    kept,
                    batches,
                    filters,
                    predicate,
                    schema,
                    batches.len() as int,
                );
            }
        }
    }
}

/// A filter over a scan gives what the scan gives that applies the filter itself.
pub proof fn a_filter_in_a_scan_keeps_the_rows(
    tables: Seq<NamedTableView>,
    name: Seq<char>,
    partition: Option<usize>,
    projection: Option<Seq<usize>>,
    filters: Seq<ExprView>,
    predicate: ExprView,
    schema: SchemaView,
)
    ensures
        scan_result(tables, name, partition, projection, filters, schema) matches Ok(all) ==> (
        all_filtered(all, predicate, all.len() as int) matches Ok(rest) ==> scan_result(
            tables,
            name,
            partition,
            projection,
            filters.push(predicate),
            schema,
        ) == Ok::<Seq<BatchView>, ErrorView>(rest)),
{
    if let Ok(place) = table_place(tables, name, 0) {
        let table = tables[place].table;
        match partition {
            None => {
                filtering_follows_all_scans(
                    table,
                    projection,
                    filters,
                    predicate,
                    schema,
                    table.partitions.len() as int,
                );
            },
            Some(partition) => {
                if let Ok(batches) = scanned_partition(table, partition as nat, projection) {
                    let none = Seq::<BatchView>::empty();
                    filtering_follows_scanning(
                        none,
                        none,
                        batches,
                        filters,
                        predicate,
                        schema,
                        batches.len() as int,
                    );
                }
            },
        }
    }
}

// ---- names

proof fn short_names_are_short(name: Seq<char>)
    ensures
        short_name(short_name(name)) == short_name(name),
{
    behind_last_stop_is_within(name);
    let short = short_name(name);
    behind_last_stop_is_within(short);
    assert forall|i: int| 0 <= i < short.len() implies short[i] != '.' by {
        assert(short[i] == name[behind_last_stop(name) + i]);
    }
    assert(short.skip(0) =~= short);
}

proof fn what_occurs_once(names: Seq<Seq<char>>, name: Seq<char>, at: int, upto: int)
    requires
        0 <= at < names.len(),
        0 <= upto <= names.len(),
        names[at] == name,
        forall|i: int| 0 <= i < names.len() && i != at ==> names[i] != name,
    ensures
        occurrence(names, name, upto) == if at < upto {
            Occurrence::Once(at)
        } else {
            Occurrence::Nowhere
        },
    decreases upto,
{
    if upto > 0 {
        what_occurs_once(names, name, at, upto - 1);
    }
}

proof fn what_occurs_nowhere(names: Seq<Seq<char>>, name: Seq<char>, upto: int)
    requires
        0 <= upto <= names.len(),
        forall|i: int| 0 <= i < names.len() ==> names[i] != name,
    ensures
        occurrence(names, name, upto) == Occurrence::Nowhere,
    decreases upto,
{
    if upto > 0 {
        what_occurs_nowhere(names, name, upto - 1);
    }
}

/// Whether no two names are the same once tables are left out.
pub open spec fn told_apart(names: Seq<Seq<char>>) -> bool {
    short_names(names).no_duplicates()
}

/// Whether a name stands for the column at a place.
pub open spec fn stands_for(names: Seq<Seq<char>>, name: Seq<char>, at: int) -> bool {
    &&& 0 <= at < names.len()
    &&& short_name(names[at]) == short_name(name)
    &&& names[at] == name || !(has_stop(name) && any_qualified(names))
}

/// Among names that are told apart, a name is found where it stands for a column.
pub(crate) proof fn names_are_found(names: Seq<Seq<char>>, name: Seq<char>, at: int)
    requires
        told_apart(names),
    ensures
        resolve(names, name) == Ok::<int, ErrorView>(at) <==> stands_for(names, name, at),
{
    let count = names.len() as int;
    let short = short_names(names);
    occurrence_is_within(names, name, count);
    occurrence_is_within(short, short_name(name), count);
    if stands_for(names, name, at) {
        assert(short[at] == short_name(name));
        assert forall|i: int| 0 <= i < count && i != at implies short[i] != short_name(name) by {
            assert(short[i] != short[at]);
        }
        assert forall|i: int| 0 <= i < count && i != at implies names[i] != name by {
            assert(short[i] == short_name(names[i]));
        }
        if names[at] == name {
            what_occurs_once(names, name, at, count);
        } else {
            what_occurs_nowhere(names, name, count);
            what_occurs_once(short, short_name(name), at, count);
        }
    }
    if resolve(names, name) == Ok::<int, ErrorView>(at) {
        assert(short[at] == short_name(names[at]));
    }
}

// ---- projections that change nothing

/// A projection that keeps every column under its name gives the rows that it is given.
pub proof fn an_identity_keeps_the_rows(
    batches: Seq<BatchView>,
    schema: SchemaView,
    exprs: Seq<ExprView>,
    after: SchemaView,
    upto: int,
)
    requires
        all_valid(batches),
        all_have(batches, schema),
        told_apart(schema.names()),
        is_identity(exprs, schema),
        0 <= upto <= batches.len(),
        all_projected(batches, exprs, after, upto) is Ok,
    ensures
        same_rows(all_projected(batches, exprs, after, upto)->Ok_0, batches.take(upto)),
    decreases upto,
{
    if upto > 0 {
        an_identity_keeps_the_rows(batches, schema, exprs, after, upto - 1);
        let batch = batches[upto - 1];
        assert(batches[upto - 1].wf());
        identity_computes_the_columns(exprs, schema, batch, exprs.len() as int);
        let all = all_projected(batches, exprs, after, upto)->Ok_0;
        let before = all_projected(batches, exprs, after, upto - 1)->Ok_0;
        assert(batch.columns.take(exprs.len() as int) =~= batch.columns);
        assert forall|i: int| 0 <= i < all.len() implies (#[trigger] all[i]).columns
            == batches.take(upto)[i].columns && all[i].rows == batches.take(upto)[i].rows by {
            if i < upto - 1 {
                assert(all[i] == before[i]);
                assert(batches.take(upto - 1)[i] == batches[i]);
            } else {
                let columns = batch.columns;
                assert(columns.len() > 0) by {
                    if columns.len() == 0 {
                        assert(made_batch(after, columns, None) is Err);
                    }
                }
                assert(columns[0].len() == batch.rows);
            }
        }
    }
}

proof fn aliases_have_the_value(expr: ExprView, batch: BatchView)
    ensures
        expr.value(batch) == expr.unalias().value(batch),
    decreases expr,
{
    if let ExprView::Alias(inner, _) = expr {
        aliases_have_the_value(*inner, batch);
    }
}

proof fn identity_computes_the_columns(
    exprs: Seq<ExprView>,
    schema: SchemaView,
    batch: BatchView,
    upto: int,
)
    requires
        batch.wf(),
        batch.schema == schema,
        told_apart(schema.names()),
        is_identity(exprs, schema),
        0 <= upto <= exprs.len(),
    ensures
        computed(exprs, batch, upto) matches Ok(columns) ==> columns == batch.columns.take(upto),
    decreases upto,
{
    if upto > 0 {
        identity_computes_the_columns(exprs, schema, batch, upto - 1);
        if let Ok(columns) = computed(exprs, batch, upto) {
            let at = upto - 1;
            let names = schema.names();
            assert(is_column_named(exprs[at], schema.fields[at].name));
            aliases_have_the_value(exprs[at], batch);
            let column = exprs[at].unalias()->Column_0;
            let found = resolve(names, column)->Ok_0;
            names_are_found(names, column, found);
            short_names_are_short(column);
            let short = short_names(names);
            assert(short[found] == short_name(column));
            assert(short[at] == short_name(column));
            assert(found == at);
            assert(batch.columns.take(upto) =~= batch.columns.take(upto - 1).push(
                batch.columns[at],
            ));
        } else {
            assert(computed(exprs, batch, upto) is Err);
        }
    } else {
        assert(batch.columns.take(0) =~= Seq::<ColumnView>::empty());
    }
}

// ---- scans of fewer columns

/// Whether a batch has the columns of another that stand at some places, under the same names.
pub open spec fn narrows(narrow: BatchView, whole: BatchView, places: Seq<int>) -> bool {
    &&& narrow.rows == whole.rows
    &&& narrow.columns.len() == places.len()
    &&& narrow.schema.fields.len() == places.len()
    &&& whole.columns.len() == whole.schema.fields.len()
    &&& forall|j: int|
        0 <= j < places.len() ==> {
            &&& 0 <= #[trigger] places[j] < whole.columns.len()
            &&& narrow.columns[j] == whole.columns[places[j]]
            &&& narrow.schema.fields[j].name == whole.schema.fields[places[j]].name
        }
}

/// Whether places are those of short names among the names of a schema, each name once.
pub open spec fn are_places(
    places: Seq<int>,
    listed: Seq<Seq<char>>,
    schema: SchemaView,
) -> bool {
    &&& places.len() == listed.len()
    &&& listed.no_duplicates()
    &&& forall|j: int|
        0 <= j < places.len() ==> {
            &&& short_name(#[trigger] listed[j]) == listed[j]
            &&& resolve(schema.names(), listed[j]) == Ok::<int, ErrorView>(places[j])
        }
}

/// A listed column is found where only the listed columns are there.
#[verifier::rlimit(40)]
proof fn narrow_names_are_found(
    name: Seq<char>,
    narrow: BatchView,
    whole: BatchView,
    places: Seq<int>,
    listed: Seq<Seq<char>>,
)
    requires
        told_apart(whole.schema.names()),
        narrows(narrow, whole, places),
        are_places(places, listed, whole.schema),
        listed.contains(short_name(name)),
        resolve(whole.schema.names(), name) is Ok,
    ensures
        resolve(narrow.schema.names(), name) is Ok,
        narrow.columns[resolve(narrow.schema.names(), name)->Ok_0] == whole.columns[resolve(
            whole.schema.names(),
            name,
        )->Ok_0],
{
    let names = whole.schema.names();
    let fewer = narrow.schema.names();
    let at = resolve(names, name)->Ok_0;
    names_are_found(names, name, at);
    let short = short_name(name);
    let j = choose|j: int| 0 <= j < listed.len() && listed[j] == short;
    short_names_are_short(name);
    names_are_found(names, listed[j], places[j]);
    assert(short_names(names)[at] == short);
    assert(short_names(names)[places[j]] == short);
    assert(places[j] == at);
    assert forall|a: int, b: int|
        0 <= a < fewer.len() && 0 <= b < fewer.len() && a != b implies #[trigger] short_names(
        fewer,
    )[a] != #[trigger] short_names(fewer)[b] by {
        assert(resolve(names, listed[a]) == Ok::<int, ErrorView>(places[a]));
        assert(resolve(names, listed[b]) == Ok::<int, ErrorView>(places[b]));
        names_are_found(names, listed[a], places[a]);
        names_are_found(names, listed[b], places[b]);
        assert(short_name(fewer[a]) == listed[a]);
        assert(short_name(fewer[b]) == listed[b]);
        assert(listed[a] != listed[b]);
    }
    assert(told_apart(fewer));
    assert(fewer[j] == names[at]);
    assert(any_qualified(fewer) ==> any_qualified(names)) by {
        if any_qualified(fewer) {
            let k = choose|k: int| 0 <= k < fewer.len() && has_stop(#[trigger] fewer[k]);
            assert(0 <= places[k] < whole.columns.len());
            assert(names[places[k]] == fewer[k]);
        }
    }
    names_are_found(fewer, name, j);
}

/// An expression has the same value where only the columns that it reads are there.
proof fn narrow_values_are_the_same(
    expr: ExprView,
    narrow: BatchView,
    whole: BatchView,
    places: Seq<int>,
    listed: Seq<Seq<char>>,
)
    requires
        told_apart(whole.schema.names()),
        narrows(narrow, whole, places),
        are_places(places, listed, whole.schema),
        forall|name: Seq<char>| #[trigger]
            expr.columns().contains(name) ==> listed.contains(name),
        expr.value(whole) is Ok,
    ensures
        expr.value(narrow) == expr.value(whole),
    decreases expr,
{
    match expr {
        ExprView::Column(name) => {
            assert(expr.columns().contains(short_name(name)));
            narrow_names_are_found(name, narrow, whole, places, listed);
        },
        ExprView::Binary { left, op, right } => {
            assert(forall|name: Seq<char>| #[trigger]
                left.columns().contains(name) ==> expr.columns().contains(name));
            assert(forall|name: Seq<char>| #[trigger]
                right.columns().contains(name) ==> expr.columns().contains(name));
            narrow_values_are_the_same(*left, narrow, whole, places, listed);
            narrow_values_are_the_same(*right, narrow, whole, places, listed);
        },
        ExprView::Cast { expr: inner, .. } => {
            assert(inner.columns() == expr.columns());
            narrow_values_are_the_same(*inner, narrow, whole, places, listed);
        },
        ExprView::IsNull { expr: inner, .. } => {
            assert(inner.columns() == expr.columns());
            narrow_values_are_the_same(*inner, narrow, whole, places, listed);
        },
        ExprView::Alias(inner, _) => {
            assert(inner.columns() == expr.columns());
            narrow_values_are_the_same(*inner, narrow, whole, places, listed);
        },
        _ => {},
    }
}

/// Whether some expressions read listed columns only.
pub open spec fn read_listed(exprs: Seq<ExprView>, listed: Seq<Seq<char>>) -> bool {
    forall|i: int, name: Seq<char>|
        0 <= i < exprs.len() && (#[trigger] exprs[i].columns().contains(name)) ==> listed.contains(
            name,
        )
}

proof fn narrow_filters_are_the_same(
    filters: Seq<ExprView>,
    narrow: BatchView,
    whole: BatchView,
    places: Seq<int>,
    listed: Seq<Seq<char>>,
    upto: int,
)
    requires
        told_apart(whole.schema.names()),
        narrows(narrow, whole, places),
        are_places(places, listed, whole.schema),
        read_listed(filters, listed),
        0 <= upto <= filters.len(),
        filtered_by_all(whole, filters, upto) is Ok,
    ensures
        filtered_by_all(narrow, filters, upto) is Ok,
        narrows(
            filtered_by_all(narrow, filters, upto)->Ok_0,
            filtered_by_all(whole, filters, upto)->Ok_0,
            places,
        ),
        filtered_by_all(whole, filters, upto)->Ok_0.schema == whole.schema,
    decreases upto,
{
    if upto > 0 {
        narrow_filters_are_the_same(filters, narrow, whole, places, listed, upto - 1);
        let fewer = filtered_by_all(narrow, filters, upto - 1)->Ok_0;
        let all = filtered_by_all(whole, filters, upto - 1)->Ok_0;
        assert forall|name: Seq<char>| #[trigger]
            filters[upto - 1].columns().contains(name) implies listed.contains(name) by {
            assert(filters[upto - 1].columns().contains(name));
        }
        narrow_values_are_the_same(filters[upto - 1], fewer, all, places, listed);
    }
}

proof fn narrow_expressions_are_the_same(
    exprs: Seq<ExprView>,
    narrow: BatchView,
    whole: BatchView,
    places: Seq<int>,
    listed: Seq<Seq<char>>,
    upto: int,
)
    requires
        told_apart(whole.schema.names()),
        narrows(narrow, whole, places),
        are_places(places, listed, whole.schema),
        read_listed(exprs, listed),
        0 <= upto <= exprs.len(),
        computed(exprs, whole, upto) is Ok,
    ensures
        computed(exprs, narrow, upto) == computed(exprs, whole, upto),
    decreases upto,
{
    if upto > 0 {
        narrow_expressions_are_the_same(exprs, narrow, whole, places, listed, upto - 1);
        assert forall|name: Seq<char>| #[trigger]
            exprs[upto - 1].columns().contains(name) implies listed.contains(name) by {
            assert(exprs[upto - 1].columns().contains(name));
        }
        narrow_values_are_the_same(exprs[upto - 1], narrow, whole, places, listed);
    }
}

/// What a projection and filters read, in the order of names.
pub open spec fn needed(exprs: Seq<ExprView>, filters: Seq<ExprView>) -> Seq<Seq<char>> {
    listing(columns_of(exprs + filters))
}

/// Whether places are those of the columns that a projection and filters read.
pub open spec fn are_needed(
    places: Seq<int>,
    exprs: Seq<ExprView>,
    filters: Seq<ExprView>,
    schema: SchemaView,
) -> bool {
    places_of(needed(exprs, filters), schema, needed(exprs, filters).len() as int) == Ok::<
        Seq<int>,
        ErrorView,
    >(places)
}

/// Places as a scan has them.
pub open spec fn indices_at(places: Seq<int>) -> Seq<usize> {
    Seq::new(places.len(), |i: int| places[i] as usize)
}

/// The schema of the columns at some places.
pub open spec fn schema_at(schema: SchemaView, places: Seq<int>) -> SchemaView {
    plain_schema(Seq::new(places.len(), |i: int| schema.fields[places[i]]))
}

proof fn what_is_needed_is_listed(
    places: Seq<int>,
    exprs: Seq<ExprView>,
    filters: Seq<ExprView>,
    schema: SchemaView,
)
    requires
        are_needed(places, exprs, filters, schema),
    ensures
        are_places(places, needed(exprs, filters), schema),
        read_listed(exprs, needed(exprs, filters)),
        read_listed(filters, needed(exprs, filters)),
{
    let all = exprs + filters;
    let listed = needed(exprs, filters);
    columns_can_be_listed(all);
    in_order_is_strict(listed);
    places_are_by_name(listed, schema, listed.len() as int);
    assert forall|j: int| 0 <= j < listed.len() implies short_name(#[trigger] listed[j])
        == listed[j] by {
        assert(listed.contains(listed[j]));
        let i = choose|i: int|
            0 <= i < all.len() && (#[trigger] all[i]).columns().contains(listed[j]);
        read_names_are_short(all[i], listed[j]);
    }
    assert forall|i: int, name: Seq<char>|
        0 <= i < filters.len() && (#[trigger] filters[i].columns().contains(name)) implies
        listed.contains(name) by {
        assert(all[exprs.len() + i] == filters[i]);
        assert(columns_of(all).contains(name));
    }
    assert forall|i: int, name: Seq<char>|
        0 <= i < exprs.len() && (#[trigger] exprs[i].columns().contains(name)) implies
        listed.contains(name) by {
        assert(all[i] == exprs[i]);
        assert(columns_of(all).contains(name));
    }
}

proof fn a_scanned_batch_narrows(
    batch: BatchView,
    filters: Seq<ExprView>,
    schema: SchemaView,
    places: Seq<int>,
    listed: Seq<Seq<char>>,
)
    requires
        told_apart(schema.names()),
        are_places(places, listed, schema),
        read_listed(filters, listed),
        scanned_batch(batch, filters, schema) is Ok,
        batch.columns.len() == schema.fields.len(),
        schema.fields.len() <= usize::MAX,
        scanned_batch(
            batch.with_columns(indices_at(places)),
            filters,
            schema_at(schema, places),
        ) is Ok,
    ensures
        narrows(
            scanned_batch(
                batch.with_columns(indices_at(places)),
                filters,
                schema_at(schema, places),
            )->Ok_0,
            scanned_batch(batch, filters, schema)->Ok_0,
            places,
        ),
        scanned_batch(batch, filters, schema)->Ok_0.schema == schema,
        scanned_batch(
            batch.with_columns(indices_at(places)),
            filters,
            schema_at(schema, places),
        )->Ok_0.schema == schema_at(schema, places),
{
    let names = schema.names();
    let indices = indices_at(places);
    let fewer = schema_at(schema, places);
    let part = batch.with_columns(indices);
    let first = made_batch(schema, batch.columns, Some(batch.rows as usize))->Ok_0;
    let second = made_batch(fewer, part.columns, Some(part.rows as usize))->Ok_0;
    assert forall|j: int| 0 <= j < places.len() implies {
        &&& 0 <= #[trigger] places[j] < first.columns.len()
        &&& second.columns[j] == first.columns[places[j]]
        &&& second.schema.fields[j].name == first.schema.fields[places[j]].name
    } by {
        assert(resolve(names, listed[j]) == Ok::<int, ErrorView>(places[j]));
        names_are_found(names, listed[j], places[j]);
        assert(indices[j] == places[j]);
    }
    assert(narrows(second, first, places));
    narrow_filters_are_the_same(filters, second, first, places, listed, filters.len() as int);
    filters_keep_the_schema(second, filters, filters.len() as int);
}

/// Whether each of some batches has the columns at some places of the one beside it, which has a
/// schema.
pub open spec fn all_narrow(
    narrow: Seq<BatchView>,
    whole: Seq<BatchView>,
    places: Seq<int>,
    schema: SchemaView,
) -> bool {
    &&& narrow.len() == whole.len()
    &&& forall|i: int|
        0 <= i < whole.len() ==> narrows(#[trigger] narrow[i], whole[i], places)
            && whole[i].schema == schema && narrow[i].schema == schema_at(schema, places)
}

proof fn scanned_batches_narrow(
    fewer: Seq<BatchView>,
    before: Seq<BatchView>,
    batches: Seq<BatchView>,
    filters: Seq<ExprView>,
    schema: SchemaView,
    places: Seq<int>,
    listed: Seq<Seq<char>>,
    upto: int,
)
    requires
        told_apart(schema.names()),
        are_places(places, listed, schema),
        read_listed(filters, listed),
        schema.fields.len() <= usize::MAX,
        0 <= upto <= batches.len(),
        all_narrow(fewer, before, places, schema),
        forall|i: int|
            0 <= i < batches.len() ==> (#[trigger] batches[i]).columns.len()
                == schema.fields.len(),
    ensures
        ({
            let parts = Seq::new(
                batches.len(),
                |i: int| batches[i].with_columns(indices_at(places)),
            );
            scanned_batches(before, batches, filters, schema, upto) matches Ok(whole) ==> (
            scanned_batches(
                fewer,
                parts,
                filters,
                schema_at(schema, places),
                upto,
            ) matches Ok(narrow) ==> all_narrow(narrow, whole, places, schema))
        }),
    decreases upto,
{
    if upto > 0 {
        scanned_batches_narrow(
            fewer,
            before,
            batches,
            filters,
            schema,
            places,
            listed,
            upto - 1,
        );
        let parts = Seq::new(batches.len(), |i: int| batches[i].with_columns(indices_at(places)));
        if scanned_batches(before, batches, filters, schema, upto) is Ok && scanned_batches(
            fewer,
            parts,
            filters,
            schema_at(schema, places),
            upto,
        ) is Ok {
            assert(batches[upto - 1].columns.len() == schema.fields.len());
            a_scanned_batch_narrows(batches[upto - 1], filters, schema, places, listed);
        }
    }
}

proof fn projected_batches_are_parts(batches: Seq<BatchView>, indices: Seq<usize>, upto: int)
    requires
        0 <= upto <= batches.len(),
    ensures
        projected_batches(batches, None, upto) == Ok::<Seq<BatchView>, ErrorView>(
            batches.take(upto),
        ),
        projected_batches(batches, Some(indices), upto) matches Ok(parts) ==> parts == Seq::new(
            upto as nat,
            |i: int| batches[i].with_columns(indices),
        ),
    decreases upto,
{
    if upto > 0 {
        projected_batches_are_parts(batches, indices, upto - 1);
        assert(batches.take(upto) =~= batches.take(upto - 1).push(batches[upto - 1]));
        if let Ok(parts) = projected_batches(batches, Some(indices), upto) {
            assert(parts =~= Seq::new(upto as nat, |i: int| batches[i].with_columns(indices)));
        }
    } else {
        assert(batches.take(0) =~= Seq::<BatchView>::empty());
        assert(Seq::new(0nat, |i: int| batches[i].with_columns(indices)) =~= Seq::<
            BatchView,
        >::empty());
    }
}

/// Whether every batch of a table has as many columns as a schema.
pub open spec fn has_width(table: MemoryTableView, schema: SchemaView) -> bool {
    forall|p: int, i: int|
        0 <= p < table.partitions.len() && 0 <= i < table.partitions[p].len() ==> (
        #[trigger] table.partitions[p][i]).columns.len() == schema.fields.len()
}

proof fn a_partition_narrows(
    fewer: Seq<BatchView>,
    before: Seq<BatchView>,
    table: MemoryTableView,
    partition: nat,
    filters: Seq<ExprView>,
    schema: SchemaView,
    places: Seq<int>,
    listed: Seq<Seq<char>>,
)
    requires
        told_apart(schema.names()),
        are_places(places, listed, schema),
        read_listed(filters, listed),
        schema.fields.len() <= usize::MAX,
        has_width(table, schema),
        all_narrow(fewer, before, places, schema),
    ensures
        scan_added(before, table, partition, None, filters, schema) matches Ok(whole) ==> (
        scan_added(
            fewer,
            table,
            partition,
            Some(indices_at(places)),
            filters,
            schema_at(schema, places),
        ) matches Ok(narrow) ==> all_narrow(narrow, whole, places, schema)),
{
    if partition < table.partitions.len() {
        let batches = table.partitions[partition as int];
        let count = batches.len() as int;
        projected_batches_are_parts(batches, indices_at(places), count);
        assert(batches.take(count) =~= batches);
        assert forall|i: int| 0 <= i < batches.len() implies (
        #[trigger] batches[i]).columns.len() == schema.fields.len() by {
            assert(table.partitions[partition as int][i].columns.len() == schema.fields.len());
        }
        scanned_batches_narrow(fewer, before, batches, filters, schema, places, listed, count);
    }
}

proof fn scans_narrow(
    table: MemoryTableView,
    filters: Seq<ExprView>,
    schema: SchemaView,
    places: Seq<int>,
    listed: Seq<Seq<char>>,
    upto: int,
)
    requires
        told_apart(schema.names()),
        are_places(places, listed, schema),
        read_listed(filters, listed),
        schema.fields.len() <= usize::MAX,
        has_width(table, schema),
        0 <= upto,
    ensures
        scanned(table, None, filters, schema, upto) matches Ok(whole) ==> (scanned(
            table,
            Some(indices_at(places)),
            filters,
            schema_at(schema, places),
            upto,
        ) matches Ok(narrow) ==> all_narrow(narrow, whole, places, schema)),
    decreases upto,
{
    if upto > 0 {
        scans_narrow(table, filters, schema, places, listed, upto - 1);
        let before = scanned(table, None, filters, schema, upto - 1);
        let fewer = scanned(
            table,
            Some(indices_at(places)),
            filters,
            schema_at(schema, places),
            upto - 1,
        );
        if before is Ok && fewer is Ok {
            a_partition_narrows(
                fewer->Ok_0,
                before->Ok_0,
                table,
                (upto - 1) as nat,
                filters,
                schema,
                places,
                listed,
            );
        }
    }
}

proof fn projecting_narrow_batches(
    narrow: Seq<BatchView>,
    whole: Seq<BatchView>,
    exprs: Seq<ExprView>,
    schema: SchemaView,
    places: Seq<int>,
    listed: Seq<Seq<char>>,
    before: SchemaView,
    after: SchemaView,
    upto: int,
)
    requires
        told_apart(schema.names()),
        are_places(places, listed, schema),
        read_listed(exprs, listed),
        all_narrow(narrow, whole, places, schema),
        0 <= upto <= whole.len(),
        all_projected(whole, exprs, before, upto) is Ok,
        all_projected(narrow, exprs, after, upto) is Ok,
    ensures
        same_rows(
            all_projected(narrow, exprs, after, upto)->Ok_0,
            all_projected(whole, exprs, before, upto)->Ok_0,
        ),
    decreases upto,
{
    if upto > 0 {
        projecting_narrow_batches(
            narrow,
            whole,
            exprs,
            schema,
            places,
            listed,
            before,
            after,
            upto - 1,
        );
        assert(narrows(narrow[upto - 1], whole[upto - 1], places));
        narrow_expressions_are_the_same(
            exprs,
            narrow[upto - 1],
            whole[upto - 1],
            places,
            listed,
            exprs.len() as int,
        );
    }
}

/// A projection gives the same rows over a scan that reads only the columns which the projection
/// and the scan's filters need as over one that reads all of them.
pub proof fn a_narrow_scan_keeps_the_rows(
    tables: Seq<NamedTableView>,
    name: Seq<char>,
    partition: Option<usize>,
    filters: Seq<ExprView>,
    exprs: Seq<ExprView>,
    schema: SchemaView,
    places: Seq<int>,
    before: SchemaView,
    after: SchemaView,
    whole: Seq<BatchView>,
    narrow: Seq<BatchView>,
)
    requires
        told_apart(schema.names()),
        schema.fields.len() <= usize::MAX,
        are_needed(places, exprs, filters, schema),
        table_place(tables, name, 0) matches Ok(place) ==> has_width(tables[place].table, schema),
        scan_result(tables, name, partition, None, filters, schema) == Ok::<
            Seq<BatchView>,
            ErrorView,
        >(whole),
        scan_result(
            tables,
            name,
            partition,
            Some(indices_at(places)),
            filters,
            schema_at(schema, places),
        ) == Ok::<Seq<BatchView>, ErrorView>(narrow),
        all_projected(whole, exprs, before, whole.len() as int) is Ok,
        all_projected(narrow, exprs, after, narrow.len() as int) is Ok,
    ensures
        same_rows(
            all_projected(narrow, exprs, after, narrow.len() as int)->Ok_0,
            all_projected(whole, exprs, before, whole.len() as int)->Ok_0,
        ),
{
    let listed = needed(exprs, filters);
    what_is_needed_is_listed(places, exprs, filters, schema);
    let place = table_place(tables, name, 0)->Ok_0;
    let table = tables[place].table;
    match partition {
        None => {
            scans_narrow(
                table,
                filters,
                schema,
                places,
                listed,
                table.partitions.len() as int,
            );
        },
        Some(partition) => {
            let none = Seq::<BatchView>::empty();
            a_partition_narrows(
                none,
                none,
                table,
                partition as nat,
                filters,
                schema,
                places,
                listed,
            );
        },
    }
    projecting_narrow_batches(
        narrow,
        whole,
        exprs,
        schema,
        places,
        listed,
        before,
        after,
        whole.len() as int,
    );
}

proof fn read_names_are_short(expr: ExprView, name: Seq<char>)
    requires
        expr.columns().contains(name),
    ensures
        short_name(name) == name,
    decreases expr,
{
    match expr {
        ExprView::Column(column) => {
            short_names_are_short(column);
        },
        ExprView::Binary { left, right, .. } => {
            if left.columns().contains(name) {
                read_names_are_short(*left, name);
            } else {
                read_names_are_short(*right, name);
            }
        },
        ExprView::Cast { expr: inner, .. } => read_names_are_short(*inner, name),
        ExprView::IsNull { expr: inner, .. } => read_names_are_short(*inner, name),
        ExprView::Alias(inner, _) => read_names_are_short(*inner, name),
        ExprView::Aggregate { expr: inner, .. } => read_names_are_short(*inner, name),
        _ => {},
    }
}

proof fn places_are_by_name(listed: Seq<Seq<char>>, schema: SchemaView, upto: int)
    requires
        0 <= upto <= listed.len(),
        places_of(listed, schema, upto) is Ok,
    ensures
        places_of(listed, schema, upto)->Ok_0.len() == upto,
        forall|j: int|
            0 <= j < upto ==> resolve(schema.names(), #[trigger] listed[j]) == Ok::<int, ErrorView>(
                places_of(listed, schema, upto)->Ok_0[j],
            ),
    decreases upto,
{
    if upto > 0 {
        places_are_by_name(listed, schema, upto - 1);
    }
}

proof fn in_order_is_strict(names: Seq<Seq<char>>)
    requires
        in_order(names),
    ensures
        names.no_duplicates(),
{
    assert forall|i: int, j: int|
        0 <= i < names.len() && 0 <= j < names.len() && i != j implies names[i] != names[j] by {
        before_is_strict(names[i], names[j]);
        before_is_strict(names[j], names[i]);
        if i < j {
            assert(before(names[i], names[j]));
        } else {
            assert(before(names[j], names[i]));
        }
    }
}

// ---- a query made better

pub(crate) proof fn a_scan_has_its_schema(
    table: MemoryTableView,
    projection: Option<Seq<usize>>,
    filters: Seq<ExprView>,
    schema: SchemaView,
    upto: int,
)
    requires
        0 <= upto,
    ensures
        scanned(table, projection, filters, schema, upto) matches Ok(all) ==> all_have(all, schema),
    decreases upto,
{
    if upto > 0 {
        a_scan_has_its_schema(table, projection, filters, schema, upto - 1);
        if let Ok(before) = scanned(table, projection, filters, schema, upto - 1) {
            if let Ok(batches) = scanned_partition(table, (upto - 1) as nat, projection) {
                scans_have_the_schema(before, batches, filters, schema, batches.len() as int);
            }
        }
    }
}

pub(crate) proof fn filters_give_the_schema(batches: Seq<BatchView>, predicate: ExprView, upto: int)
    requires
        0 <= upto <= batches.len(),
    ensures
        all_filtered(batches, predicate, upto) matches Ok(all) ==> all.len() == upto && forall|i: int|
            0 <= i < upto ==> (#[trigger] all[i]).schema == batches[i].schema,
    decreases upto,
{
    if upto > 0 {
        filters_give_the_schema(batches, predicate, upto - 1);
    }
}

proof fn a_simple_projection_is_the_same(
    batches: Seq<BatchView>,
    schema: SchemaView,
    exprs: Seq<ExprView>,
    out: SchemaView,
    upto: int,
)
    requires
        are_plain(batches, schema),
        0 <= upto <= batches.len(),
        all_simplified(exprs, schema, exprs.len() as int) is Ok,
        all_simplified(exprs, schema, exprs.len() as int)->Ok_0.len() == exprs.len(),
        all_projected(batches, exprs, out, upto) is Ok,
    ensures
        all_projected(
            batches,
            all_simplified(exprs, schema, exprs.len() as int)->Ok_0,
            out,
            upto,
        ) == all_projected(batches, exprs, out, upto),
    decreases upto,
{
    if upto > 0 {
        a_simple_projection_is_the_same(batches, schema, exprs, out, upto - 1);
        assert(batches[upto - 1].wf());
        simple_expressions_compute_alike(exprs, schema, batches[upto - 1], exprs.len() as int);
    }
}

proof fn a_narrow_projection_is_the_same(
    narrow: Seq<BatchView>,
    whole: Seq<BatchView>,
    exprs: Seq<ExprView>,
    schema: SchemaView,
    places: Seq<int>,
    listed: Seq<Seq<char>>,
    out: SchemaView,
    upto: int,
)
    requires
        told_apart(schema.names()),
        are_places(places, listed, schema),
        read_listed(exprs, listed),
        all_narrow(narrow, whole, places, schema),
        0 <= upto <= whole.len(),
        all_projected(whole, exprs, out, upto) is Ok,
    ensures
        all_projected(narrow, exprs, out, upto) == all_projected(whole, exprs, out, upto),
    decreases upto,
{
    if upto > 0 {
        a_narrow_projection_is_the_same(
            narrow,
            whole,
            exprs,
            schema,
            places,
            listed,
            out,
            upto - 1,
        );
        assert(narrows(narrow[upto - 1], whole[upto - 1], places));
        narrow_expressions_are_the_same(
            exprs,
            narrow[upto - 1],
            whole[upto - 1],
            places,
            listed,
            exprs.len() as int,
        );
    }
}

proof fn projecting_under_other_names(
    batches: Seq<BatchView>,
    exprs: Seq<ExprView>,
    before: SchemaView,
    after: SchemaView,
    upto: int,
)
    requires
        0 <= upto <= batches.len(),
        all_projected(batches, exprs, before, upto) is Ok,
        all_projected(batches, exprs, after, upto) is Ok,
    ensures
        same_rows(
            all_projected(batches, exprs, after, upto)->Ok_0,
            all_projected(batches, exprs, before, upto)->Ok_0,
        ),
    decreases upto,
{
    if upto > 0 {
        projecting_under_other_names(batches, exprs, before, after, upto - 1);
    }
}

pub(crate) proof fn nothing_becomes_a_wildcard(expr: ExprView, schema: SchemaView)
    requires
        !(expr is Wildcard),
    ensures
        expr.simplified(schema) matches Ok(simple) ==> !(simple is Wildcard),
    decreases expr,
{
    reveal_with_fuel(ExprView::data_type, 2);
    if let ExprView::Binary { left, right, .. } = expr {
        if !(*left is Wildcard) {
            nothing_becomes_a_wildcard(*left, schema);
        }
        if !(*right is Wildcard) {
            nothing_becomes_a_wildcard(*right, schema);
        }
    }
}

pub(crate) proof fn simple_lists_have_no_wildcards(exprs: Seq<ExprView>, schema: SchemaView, upto: int)
    requires
        0 <= upto <= exprs.len(),
        forall|i: int| 0 <= i < exprs.len() ==> !((#[trigger] exprs[i]) is Wildcard),
    ensures
        all_simplified(exprs, schema, upto) matches Ok(simple) ==> simple.len() == upto && forall|
            i: int,
        |
            0 <= i < upto ==> !((#[trigger] simple[i]) is Wildcard),
    decreases upto,
{
    if upto > 0 {
        simple_lists_have_no_wildcards(exprs, schema, upto - 1);
        nothing_becomes_a_wildcard(exprs[upto - 1], schema);
    }
}

pub(crate) proof fn nothing_to_expand(exprs: Seq<ExprView>, schema: SchemaView, upto: int)
    requires
        0 <= upto <= exprs.len(),
        forall|i: int| 0 <= i < exprs.len() ==> !((#[trigger] exprs[i]) is Wildcard),
    ensures
        expanded(exprs, schema, upto) == exprs.take(upto),
    decreases upto,
{
    if upto > 0 {
        nothing_to_expand(exprs, schema, upto - 1);
        assert(exprs.take(upto) =~= exprs.take(upto - 1).push(exprs[upto - 1]));
    } else {
        assert(exprs.take(0) =~= Seq::<ExprView>::empty());
    }
}

/// A query for expressions over the rows of a table of which a predicate holds.
pub open spec fn query_plan(
    table: Seq<char>,
    schema: SchemaView,
    predicate: ExprView,
    exprs: Seq<ExprView>,
    out: SchemaView,
) -> LogicalView {
    LogicalView::Projection {
        input: Box::new(
            LogicalView::Filter {
                input: Box::new(
                    LogicalView::Scan { table, projection: None, filters: Seq::empty(), schema },
                ),
                predicate,
                schema,
            },
        ),
        exprs,
        schema: out,
    }
}

/// The scan of a query, made to filter.
pub open spec fn filtering_scan(
    table: Seq<char>,
    schema: SchemaView,
    predicate: ExprView,
) -> LogicalView {
    LogicalView::Scan {
        table,
        projection: None,
        filters: Seq::<ExprView>::empty().push(predicate),
        schema,
    }
}

/// What comes of making a query better: a projection over a scan that filters and, where any is
/// read, reads only what is needed; or that scan alone, where the projection changes nothing.
proof fn a_query_made_better(
    table: Seq<char>,
    schema: SchemaView,
    predicate: ExprView,
    exprs: Seq<ExprView>,
    out: SchemaView,
    best: LogicalView,
)
    requires
        forall|i: int| 0 <= i < exprs.len() ==> !((#[trigger] exprs[i]) is Wildcard),
        optimized(query_plan(table, schema, predicate, exprs, out)) == Ok::<LogicalView, ErrorView>(
            best,
        ),
    ensures
        predicate.simplified(schema) is Ok,
        all_simplified(exprs, schema, exprs.len() as int) is Ok,
        all_simplified(exprs, schema, exprs.len() as int)->Ok_0.len() == exprs.len(),
        ({
            let simple = all_simplified(exprs, schema, exprs.len() as int)->Ok_0;
            let scan = filtering_scan(table, schema, predicate.simplified(schema)->Ok_0);
            let filters = scan->Scan_filters;
            let listed = needed(simple, filters);
            let chosen = if columns_of(simple + filters) == Set::<Seq<char>>::empty() {
                scan
            } else {
                narrowed(table, filters, schema, places_of(listed, schema, listed.len() as int)->Ok_0)
            };
            &&& columns_of(simple + filters) != Set::<Seq<char>>::empty() ==> places_of(
                listed,
                schema,
                listed.len() as int,
            ) is Ok
            &&& {
                ||| best == chosen && is_identity(simple, chosen.schema())
                ||| best matches LogicalView::Projection { input, exprs: kept, .. } && *input
                    == chosen && kept == simple
            }
        }),
{
    let start = LogicalView::Scan { table, projection: None, filters: Seq::empty(), schema };
    let filter = LogicalView::Filter { input: Box::new(start), predicate, schema };
    assert(all_simplified(Seq::empty(), schema, 0) == Ok::<Seq<ExprView>, ErrorView>(Seq::empty()));
    assert(optimized(start) == Ok::<LogicalView, ErrorView>(start));
    let scan = filtering_scan(table, schema, predicate.simplified(schema)->Ok_0);
    assert(optimized(filter) == Ok::<LogicalView, ErrorView>(scan)) by {
        assert(with_optimized_inputs(filter) == crate::logical::filtered(start, predicate));
    }
    let count = exprs.len() as int;
    nothing_to_expand(exprs, schema, count);
    assert(exprs.take(count) =~= exprs);
    simple_lists_have_no_wildcards(exprs, schema, count);
    let simple = all_simplified(exprs, schema, count)->Ok_0;
    nothing_to_expand(simple, schema, count);
    assert(simple.take(count) =~= simple);
    let filters = scan->Scan_filters;
    let listed = needed(simple, filters);
    let places = places_of(listed, schema, listed.len() as int)->Ok_0;
    let fewer = narrowed(table, filters, schema, places);
    nothing_to_expand(simple, fewer.schema(), count);
}

/// What a plan over another gives comes of what that gives.
pub(crate) proof fn an_input_gives_rows(
    plan: PhysicalView,
    tables: Seq<NamedTableView>,
    partition: Option<usize>,
    rows: Seq<BatchView>,
)
    requires
        plan is Projection || plan is Filter,
        is_partition_local(plan),
        produces(plan, tables, partition, Ok(rows)),
    ensures
        local_result(input_of(plan), tables, partition) is Ok,
        produces(
            input_of(plan),
            tables,
            partition,
            Ok(local_result(input_of(plan), tables, partition)->Ok_0),
        ),
        all_valid(local_result(input_of(plan), tables, partition)->Ok_0),
{
    let trace = choose|trace: Trace| #[trigger]
        runs(plan, tables, partition, trace) && trace.result() == Ok::<Seq<BatchView>, ErrorView>(
            rows,
        );
    let below = *trace->Step_input;
    assert(runs(input_of(plan), tables, partition, below));
    assert(produces(input_of(plan), tables, partition, below.result()));
    local_plans_are_settled(input_of(plan), tables, partition, below.result());
}

/// Whether no batch has more rows than expressions can be computed over.
pub open spec fn all_small(batches: Seq<BatchView>) -> bool {
    forall|i: int| 0 <= i < batches.len() ==> (#[trigger] batches[i]).rows <= MAX_CELLS
}

/// Whether the columns of a scan are found in its table under their names, each at its own place.
pub open spec fn reads_its_table(schema: SchemaView, provider: TableView) -> bool {
    forall|i: int|
        0 <= i < schema.fields.len() ==> resolve(
            provider.schema.names(),
            (#[trigger] schema.fields[i]).name,
        ) == Ok::<int, ErrorView>(i)
}

pub(crate) proof fn places_are_found_again(
    provider: SchemaView,
    names: Seq<Seq<char>>,
    places: Seq<int>,
    upto: int,
)
    requires
        0 <= upto <= places.len(),
        names.len() == places.len(),
        forall|j: int|
            0 <= j < places.len() ==> resolve(provider.names(), #[trigger] names[j]) == Ok::<
                int,
                ErrorView,
            >(places[j]),
    ensures
        places_of(names, provider, upto) == Ok::<Seq<int>, ErrorView>(places.take(upto)),
    decreases upto,
{
    if upto > 0 {
        places_are_found_again(provider, names, places, upto - 1);
        assert(resolve(provider.names(), names[upto - 1]) == Ok::<int, ErrorView>(
            places[upto - 1],
        ));
        assert(places.take(upto) =~= places.take(upto - 1).push(places[upto - 1]));
    } else {
        assert(places.take(0) =~= Seq::<int>::empty());
    }
}

/// The operators of a query.
pub open spec fn query_operators(
    table: Seq<char>,
    provider: TableView,
    schema: SchemaView,
    predicate: ExprView,
    exprs: Seq<ExprView>,
    out: SchemaView,
) -> PhysicalView {
    PhysicalView::Projection {
        id: 0,
        input: Box::new(
            PhysicalView::Filter {
                id: 1,
                input: Box::new(
                    PhysicalView::Scan {
                        id: 2,
                        table_name: table,
                        provider,
                        projection: None,
                        filters: Seq::empty(),
                        schema,
                    },
                ),
                predicate,
                schema,
            },
        ),
        exprs,
        schema: out,
    }
}

proof fn a_query_is_planned(
    table: Seq<char>,
    schema: SchemaView,
    predicate: ExprView,
    exprs: Seq<ExprView>,
    out: SchemaView,
    catalog: Map<Seq<char>, TableView>,
)
    ensures
        physical_plan(query_plan(table, schema, predicate, exprs, out), catalog, 0) matches Ok(plan)
            ==> find_table(catalog, table) is Ok && plan == query_operators(
            table,
            find_table(catalog, table)->Ok_0,
            schema,
            predicate,
            exprs,
            out,
        ),
{
    let scan = LogicalView::Scan { table, projection: None, filters: Seq::empty(), schema };
    let filter = LogicalView::Filter { input: Box::new(scan), predicate, schema };
    let below = physical_plan(scan, catalog, 2);
    let middle = physical_plan(filter, catalog, 1);
    if physical_plan(query_plan(table, schema, predicate, exprs, out), catalog, 0) is Ok {
        assert(middle is Ok);
        assert(below is Ok);
    }
}

/// What the operators of a query give, one after the other.
proof fn the_steps_of_a_query(
    table: Seq<char>,
    provider: TableView,
    schema: SchemaView,
    predicate: ExprView,
    exprs: Seq<ExprView>,
    out: SchemaView,
    tables: Seq<NamedTableView>,
    partition: Option<usize>,
    before: Seq<BatchView>,
) -> (r: (Seq<BatchView>, Seq<BatchView>))
    requires
        produces(
            query_operators(table, provider, schema, predicate, exprs, out),
            tables,
            partition,
            Ok(before),
        ),
    ensures
        ({
            let plan = query_operators(table, provider, schema, predicate, exprs, out);
            &&& local_result(input_of(input_of(plan)), tables, partition) == Ok::<
                Seq<BatchView>,
                ErrorView,
            >(r.0)
            &&& local_result(input_of(plan), tables, partition) == Ok::<Seq<BatchView>, ErrorView>(
                r.1,
            )
        }),
        scan_result(tables, table, partition, None, Seq::empty(), schema) == Ok::<
            Seq<BatchView>,
            ErrorView,
        >(r.0),
        all_filtered(r.0, predicate, r.0.len() as int) == Ok::<Seq<BatchView>, ErrorView>(r.1),
        all_projected(r.1, exprs, out, r.1.len() as int) == Ok::<Seq<BatchView>, ErrorView>(before),
        all_valid(r.0),
        all_valid(r.1),
{
    let plan = query_operators(table, provider, schema, predicate, exprs, out);
    let filter = input_of(plan);
    let scan = input_of(filter);
    assert(is_partition_local(scan));
    assert(is_partition_local(filter));
    assert(is_partition_local(plan));
    local_plans_are_settled(plan, tables, partition, Ok(before));
    an_input_gives_rows(plan, tables, partition, before);
    let found = local_result(filter, tables, partition)->Ok_0;
    an_input_gives_rows(filter, tables, partition, found);
    (local_result(scan, tables, partition)->Ok_0, found)
}

/// What the scan of a query gives that filters, and what the query gives.
proof fn a_query_as_it_is(
    table: Seq<char>,
    schema: SchemaView,
    predicate: ExprView,
    exprs: Seq<ExprView>,
    out: SchemaView,
    catalog: Map<Seq<char>, TableView>,
    tables: Seq<NamedTableView>,
    partition: Option<usize>,
    plan: PhysicalView,
    before: Seq<BatchView>,
) -> (found: Seq<BatchView>)
    requires
        predicate.simplified(schema) is Ok,
        all_simplified(exprs, schema, exprs.len() as int) is Ok,
        all_simplified(exprs, schema, exprs.len() as int)->Ok_0.len() == exprs.len(),
        find_table(catalog, table) is Ok,
        plan == query_operators(
            table,
            find_table(catalog, table)->Ok_0,
            schema,
            predicate,
            exprs,
            out,
        ),
        produces(plan, tables, partition, Ok(before)),
        all_typed(schema),
        local_result(input_of(plan), tables, partition) matches Ok(rows) ==> all_small(rows),
        local_result(input_of(input_of(plan)), tables, partition) matches Ok(rows) ==> all_small(
            rows,
        ),
    ensures
        table_place(tables, table, 0) is Ok,
        scan_result(
            tables,
            table,
            partition,
            None,
            Seq::<ExprView>::empty().push(predicate.simplified(schema)->Ok_0),
            schema,
        ) == Ok::<Seq<BatchView>, ErrorView>(found),
        are_plain(found, schema),
        all_projected(
            found,
            all_simplified(exprs, schema, exprs.len() as int)->Ok_0,
            out,
            found.len() as int,
        ) == Ok::<Seq<BatchView>, ErrorView>(before),
{
    let kept = predicate.simplified(schema)->Ok_0;
    let none = Seq::<ExprView>::empty();
    let (rows, found) = the_steps_of_a_query(
        table,
        find_table(catalog, table)->Ok_0,
        schema,
        predicate,
        exprs,
        out,
        tables,
        partition,
        before,
    );
    let place = table_place(tables, table, 0)->Ok_0;
    match partition {
        None => {
            let source = tables[place].table;
            a_scan_has_its_schema(source, None, none, schema, source.partitions.len() as int);
        },
        Some(number) => {
            let source = tables[place].table;
            let batches = scanned_partition(source, number as nat, None)->Ok_0;
            scans_have_the_schema(Seq::empty(), batches, none, schema, batches.len() as int);
        },
    }
    assert(are_plain(rows, schema));
    a_simple_filter_keeps_the_rows(rows, schema, predicate, rows.len() as int);
    a_filter_in_a_scan_keeps_the_rows(tables, table, partition, None, none, kept, schema);
    filters_give_the_schema(rows, predicate, rows.len() as int);
    assert(are_plain(found, schema));
    let size = found.len() as int;
    a_simple_projection_is_the_same(found, schema, exprs, out, size);
    found
}

/// What a scan gives that filters and reads some places only.
proof fn a_better_query_as_it_is(
    table: Seq<char>,
    filters: Seq<ExprView>,
    exprs: Seq<ExprView>,
    names: Seq<Seq<char>>,
    places: Seq<int>,
    fewer: SchemaView,
    best: LogicalView,
    catalog: Map<Seq<char>, TableView>,
    tables: Seq<NamedTableView>,
    partition: Option<usize>,
    better: PhysicalView,
    after: Seq<BatchView>,
) -> (rows: Seq<BatchView>)
    requires
        find_table(catalog, table) is Ok,
        ({
            let scan = LogicalView::Scan { table, projection: Some(names), filters, schema: fewer };
            ||| best == scan
            ||| best matches LogicalView::Projection { input, exprs: kept, .. } && *input == scan
                && kept == exprs
        }),
        places_of(names, find_table(catalog, table)->Ok_0.schema, names.len() as int) == Ok::<
            Seq<int>,
            ErrorView,
        >(places),
        physical_plan(best, catalog, 0) == Ok::<PhysicalView, ErrorView>(better),
        produces(better, tables, partition, Ok(after)),
    ensures
        scan_result(tables, table, partition, Some(indices_at(places)), filters, fewer) == Ok::<
            Seq<BatchView>,
            ErrorView,
        >(rows),
        all_valid(rows),
        match best {
            LogicalView::Projection { schema: named, .. } => all_projected(
                rows,
                exprs,
                named,
                rows.len() as int,
            ) == Ok::<Seq<BatchView>, ErrorView>(after),
            _ => after == rows,
        },
{
    reveal_with_fuel(physical_plan, 3);
    reveal_with_fuel(local_result, 3);
    reveal_with_fuel(is_partition_local, 3);
    let provider = find_table(catalog, table)->Ok_0;
    assert(scan_projection(Some(names), provider.schema) == Ok::<Option<Seq<usize>>, ErrorView>(
        Some(indices_at(places)),
    ));
    local_plans_are_settled(better, tables, partition, Ok(after));
    if best is Projection {
        an_input_gives_rows(better, tables, partition, after);
        local_result(input_of(better), tables, partition)->Ok_0
    } else {
        after
    }
}

/// What a query gives whose scan filters and reads all columns.
proof fn a_wide_query_as_it_is(
    table: Seq<char>,
    schema: SchemaView,
    filters: Seq<ExprView>,
    exprs: Seq<ExprView>,
    best: LogicalView,
    catalog: Map<Seq<char>, TableView>,
    tables: Seq<NamedTableView>,
    partition: Option<usize>,
    better: PhysicalView,
    after: Seq<BatchView>,
)
    requires
        ({
            let scan = LogicalView::Scan { table, projection: None, filters, schema };
            ||| best == scan
            ||| best matches LogicalView::Projection { input, exprs: kept, .. } && *input == scan
                && kept == exprs
        }),
        scan_result(tables, table, partition, None, filters, schema) is Ok,
        physical_plan(best, catalog, 0) == Ok::<PhysicalView, ErrorView>(better),
        produces(better, tables, partition, Ok(after)),
    ensures
        ({
            let rows = scan_result(tables, table, partition, None, filters, schema)->Ok_0;
            match best {
                LogicalView::Projection { schema: named, .. } => all_projected(
                    rows,
                    exprs,
                    named,
                    rows.len() as int,
                ) == Ok::<Seq<BatchView>, ErrorView>(after),
                _ => after == rows,
            }
        }),
{
    reveal_with_fuel(physical_plan, 3);
    reveal_with_fuel(local_result, 3);
    reveal_with_fuel(is_partition_local, 3);
    local_plans_are_settled(better, tables, partition, Ok(after));
}

/// A query for expressions over the rows of a table of which a predicate holds gives the same rows
/// once it was made better, over any tables over which both plans run, whether over one partition or
/// all of them.
#[verifier::rlimit(80)]
#[verifier::spinoff_prover]
pub proof fn a_better_query_gives_the_same_rows(
    table: Seq<char>,
    schema: SchemaView,
    predicate: ExprView,
    exprs: Seq<ExprView>,
    out: SchemaView,
    best: LogicalView,
    catalog: Map<Seq<char>, TableView>,
    tables: Seq<NamedTableView>,
    partition: Option<usize>,
    plan: PhysicalView,
    better: PhysicalView,
    before: Seq<BatchView>,
    after: Seq<BatchView>,
)
    requires
        forall|i: int| 0 <= i < exprs.len() ==> !((#[trigger] exprs[i]) is Wildcard),
        optimized(query_plan(table, schema, predicate, exprs, out)) == Ok::<LogicalView, ErrorView>(
            best,
        ),
        physical_plan(query_plan(table, schema, predicate, exprs, out), catalog, 0) == Ok::<
            PhysicalView,
            ErrorView,
        >(plan),
        physical_plan(best, catalog, 0) == Ok::<PhysicalView, ErrorView>(better),
        produces(plan, tables, partition, Ok(before)),
        produces(better, tables, partition, Ok(after)),
        told_apart(schema.names()),
        all_typed(schema),
        schema.fields.len() <= usize::MAX,
        find_table(catalog, table) matches Ok(provider) ==> reads_its_table(schema, provider),
        table_place(tables, table, 0) matches Ok(place) ==> has_width(tables[place].table, schema),
        local_result(input_of(plan), tables, partition) matches Ok(rows) ==> all_small(rows),
        local_result(input_of(input_of(plan)), tables, partition) matches Ok(rows) ==> all_small(
            rows,
        ),
    ensures
        same_rows(after, before),
{
    a_query_made_better(table, schema, predicate, exprs, out, best);
    let count = exprs.len() as int;
    let simple = all_simplified(exprs, schema, count)->Ok_0;
    let kept = predicate.simplified(schema)->Ok_0;
    let none = Seq::<ExprView>::empty();
    let filters = none.push(kept);
    a_query_is_planned(table, schema, predicate, exprs, out, catalog);
    let found = a_query_as_it_is(
        table,
        schema,
        predicate,
        exprs,
        out,
        catalog,
        tables,
        partition,
        plan,
        before,
    );
    let size = found.len() as int;
    let place = table_place(tables, table, 0)->Ok_0;
    if columns_of(simple + filters) == Set::<Seq<char>>::empty() {
        a_wide_query_as_it_is(
            table,
            schema,
            filters,
            simple,
            best,
            catalog,
            tables,
            partition,
            better,
            after,
        );
        better_rows_are_the_same(best, found, simple, schema, out, before, after);
    } else {
        let listed = needed(simple, filters);
        let places = places_of(listed, schema, listed.len() as int)->Ok_0;
        let provider = find_table(catalog, table)->Ok_0;
        let names = Seq::new(places.len(), |i: int| schema.fields[places[i]].name);
        what_is_needed_is_listed(places, simple, filters, schema);
        assert forall|j: int| 0 <= j < places.len() implies resolve(
            provider.schema.names(),
            #[trigger] names[j],
        ) == Ok::<int, ErrorView>(places[j]) by {
            assert(resolve(schema.names(), listed[j]) == Ok::<int, ErrorView>(places[j]));
            names_are_found(schema.names(), listed[j], places[j]);
            assert(schema.fields[places[j]].name == names[j]);
        }
        places_are_found_again(provider.schema, names, places, places.len() as int);
        assert(places.take(places.len() as int) =~= places);
        let fewer = schema_at(schema, places);
        let narrow = a_better_query_as_it_is(
            table,
            filters,
            simple,
            names,
            places,
            fewer,
            best,
            catalog,
            tables,
            partition,
            better,
            after,
        );
        let source = tables[place].table;
        match partition {
            None => {
                scans_narrow(
                    source,
                    filters,
                    schema,
                    places,
                    listed,
                    source.partitions.len() as int,
                );
            },
            Some(number) => {
                let start = Seq::<BatchView>::empty();
                a_partition_narrows(
                    start,
                    start,
                    source,
                    number as nat,
                    filters,
                    schema,
                    places,
                    listed,
                );
            },
        }
        assert(all_narrow(narrow, found, places, schema));
        a_narrow_projection_is_the_same(narrow, found, simple, schema, places, listed, out, size);
        narrow_schemas_are_told_apart(schema, places, listed);
        better_rows_are_the_same(best, narrow, simple, fewer, out, before, after);
    }
}

proof fn better_rows_are_the_same(
    best: LogicalView,
    rows: Seq<BatchView>,
    exprs: Seq<ExprView>,
    schema: SchemaView,
    out: SchemaView,
    before: Seq<BatchView>,
    after: Seq<BatchView>,
)
    requires
        all_valid(rows),
        all_have(rows, schema),
        told_apart(schema.names()),
        all_projected(rows, exprs, out, rows.len() as int) == Ok::<Seq<BatchView>, ErrorView>(
            before,
        ),
        match best {
            LogicalView::Projection { schema: named, .. } => all_projected(
                rows,
                exprs,
                named,
                rows.len() as int,
            ) == Ok::<Seq<BatchView>, ErrorView>(after),
            _ => after == rows && is_identity(exprs, schema),
        },
    ensures
        same_rows(after, before),
{
    let size = rows.len() as int;
    if let LogicalView::Projection { schema: named, .. } = best {
        projecting_under_other_names(rows, exprs, out, named, size);
    } else {
        an_identity_keeps_the_rows(rows, schema, exprs, out, size);
        assert(rows.take(size) =~= rows);
        assert forall|i: int| 0 <= i < after.len() implies (#[trigger] after[i]).columns
            == before[i].columns && after[i].rows == before[i].rows by {
            let other = before[i];
        }
    }
}

proof fn narrow_schemas_are_told_apart(
    schema: SchemaView,
    places: Seq<int>,
    listed: Seq<Seq<char>>,
)
    requires
        told_apart(schema.names()),
        are_places(places, listed, schema),
    ensures
        told_apart(schema_at(schema, places).names()),
{
    let names = schema.names();
    let fewer = schema_at(schema, places).names();
    assert forall|a: int, b: int|
        0 <= a < fewer.len() && 0 <= b < fewer.len() && a != b implies #[trigger] short_names(
        fewer,
    )[a] != #[trigger] short_names(fewer)[b] by {
        assert(resolve(names, listed[a]) == Ok::<int, ErrorView>(places[a]));
        assert(resolve(names, listed[b]) == Ok::<int, ErrorView>(places[b]));
        names_are_found(names, listed[a], places[a]);
        names_are_found(names, listed[b], places[b]);
        assert(short_name(fewer[a]) == listed[a]);
        assert(short_name(fewer[b]) == listed[b]);
    }
}

} // verus!

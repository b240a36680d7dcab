//! Where a query runs changes none of its rows.

use crate::batch::BatchView;
use crate::catalog::TableView;
use crate::column::ColumnView;
use crate::distributed::groups::{are_groups_of, has_key, is_group_of, items_of, occurs};
use crate::distributed::laws::{
    a_list_more, aggregation_holds_groups, counts_come_together, extremes_come_together,
    fields_are_by_expr, first_types, item_is_typed, lists_fit, merging_holds_groups, part_of,
    parts_of, prefix_chosen, prefix_items, result_keys,
};
use crate::distributed::local::{
    cluster_gives, partials_of, partition_gives, partitions_meter, schema_of, spread, spread_gives,
    spread_plan, ClusterView,
};
use crate::distributed::merge::{batches_merged, key_types, merge_sorted, merged, MergeGroupView};
use crate::distributed::merging::{
    are_merged_groups, has_row, holds_part, is_merged_group, keys_read_back, merge_value, offset,
    parts_have, read_key, typed_key,
};
use crate::distributed::partials::{
    all_computed, are_partial_calls, calls_are_by_expr, calls_choose_alike, chosen_are_items,
    extremes_are_values, items_are_rows, of_one_type, partial_calls,
};
use crate::distributed::spreading::{
    all_have, joined_lists, local_plans_are_settled, local_result, partitions_have_the_schema,
    partitions_make_the_whole, scanned_partitions,
};
use crate::distributed::written::written;
use crate::error::ErrorView;
use crate::execution::aggregate::{
    aggregated, call_of, calls_of, group_row_values, group_rows, CallView, GroupView,
};
use crate::execution::concat::total_rows;
use crate::execution::rowwise::result_rows;
use crate::execution::laws::count_counts_what_is_present;
use crate::execution::run::{produces, runs, Trace};
use crate::expr::{AggregateFunction, ExprView};
use crate::logical::LogicalView;
use crate::memory::MemoryView;
use crate::metrics::MetricsView;
use crate::physical::PhysicalView;
use crate::plan_codec::checks::transportable;
use crate::plan_codec::planned::{
    has_countable_columns, has_plain_names, is_built, optimizing_keeps_plans_built,
    planned_queries_are_transportable,
};
use crate::plan_codec::plans::encoded_plan;
use crate::plan_codec::stage_runs_its_plan;
use crate::protocol::StageId;
use crate::remote::is_partition_local;
use crate::scalar::ScalarView;
use crate::session::{all_plans, PlannedView};
use crate::table::{all_valid, NamedTableView};
use crate::text::Relation;
use crate::types::SchemaView;
use crate::wire::fields::RECURSION_LIMIT;
use crate::wire::plans::plan_fits;
use vstd::prelude::*;

verus! {

/// What an aggregation works with: the rows of each partition, what is computed of them where they
/// are, and what of all of them together.
pub ghost struct SpreadView {
    pub lists: Seq<Seq<BatchView>>,
    pub group_exprs: Seq<ExprView>,
    pub aggregates: Seq<ExprView>,
    pub partial_exprs: Seq<ExprView>,
    pub input: SchemaView,
    pub schema: SchemaView,
    pub partial_schema: SchemaView,
}

impl SpreadView {
    pub open spec fn rows(self) -> Seq<BatchView> {
        joined_lists(self.lists, self.lists.len() as int)
    }

    pub open spec fn calls(self) -> Seq<CallView> {
        calls_of(self.aggregates, self.aggregates.len() as int)->Ok_0
    }

    pub open spec fn partial_calls(self) -> Seq<CallView> {
        calls_of(self.partial_exprs, self.partial_exprs.len() as int)->Ok_0
    }

    pub open spec fn parts(self) -> Seq<Seq<GroupView>> {
        parts_of(self.lists, self.partial_calls(), self.group_exprs)
    }

    pub open spec fn types(self) -> Seq<crate::types::DataTypeView> {
        first_types(self.schema, self.group_exprs.len())
    }

    pub open spec fn wf(self) -> bool {
        &&& all_valid(self.rows())
        &&& total_rows(self.rows(), self.rows().len() as int) <= u64::MAX
        &&& forall|i: int|
            0 <= i < self.lists.len() ==> all_valid(#[trigger] self.lists[i]) && all_have(
                self.lists[i],
                self.input,
            )
        &&& calls_of(self.aggregates, self.aggregates.len() as int) is Ok
        &&& partials_of(self.aggregates, self.aggregates.len() as int) == Ok::<
            Seq<ExprView>,
            ErrorView,
        >(self.partial_exprs)
        &&& schema_of(self.input, self.group_exprs, self.aggregates) == Ok::<SchemaView, ErrorView>(
            self.schema,
        )
        &&& schema_of(self.input, self.group_exprs, self.partial_exprs) == Ok::<
            SchemaView,
            ErrorView,
        >(self.partial_schema)
        &&& forall|j: int|
            0 <= j < self.group_exprs.len() ==> !((
            #[trigger] self.schema.fields[j]).data_type is Other)
    }

    /// What one aggregation of all rows gives.
    pub open spec fn gives(self, batch: BatchView) -> bool {
        aggregated(self.rows(), self.group_exprs, self.aggregates, self.schema) == Ok::<
            BatchView,
            ErrorView,
        >(batch)
    }

    /// What the partitions give, each by itself.
    pub open spec fn gives_partials(self, partials: Seq<BatchView>) -> bool {
        &&& partials.len() == self.lists.len()
        &&& forall|i: int|
            0 <= i < partials.len() ==> aggregated(
                self.lists[i],
                self.group_exprs,
                self.partial_exprs,
                self.partial_schema,
            ) == Ok::<BatchView, ErrorView>(#[trigger] partials[i])
    }
}

proof fn lists_are_in_the_whole(lists: Seq<Seq<BatchView>>, i: int, k: int, upto: int)
    requires
        0 <= i < upto <= lists.len(),
        0 <= k < lists[i].len(),
    ensures
        joined_lists(lists, upto).contains(lists[i][k]),
    decreases upto,
{
    let before = joined_lists(lists, upto - 1);
    let all = joined_lists(lists, upto);
    if i < upto - 1 {
        lists_are_in_the_whole(lists, i, k, upto - 1);
        let at = choose|at: int| 0 <= at < before.len() && before[at] == lists[i][k];
        assert(all[at] == lists[i][k]);
    } else {
        assert(all[before.len() + k] == lists[i][k]);
    }
}

proof fn the_whole_has_the_schema(lists: Seq<Seq<BatchView>>, schema: SchemaView, upto: int)
    requires
        0 <= upto <= lists.len(),
        forall|i: int| 0 <= i < lists.len() ==> all_have(#[trigger] lists[i], schema),
    ensures
        all_have(joined_lists(lists, upto), schema),
    decreases upto,
{
    if upto > 0 {
        the_whole_has_the_schema(lists, schema, upto - 1);
        assert(all_have(lists[upto - 1], schema));
    }
}

/// What every partition gives, told by its groups.
#[verifier::rlimit(40)]
proof fn partitions_hold_their_groups(s: SpreadView, native: BatchView, partials: Seq<BatchView>)
    requires
        s.wf(),
        s.gives(native),
        s.gives_partials(partials),
    ensures
        lists_fit(s.lists, s.calls(), s.partial_calls(), s.group_exprs),
        forall|i: int|
            0 <= i < partials.len() ==> holds_part(
                #[trigger] partials[i],
                s.parts()[i],
                s.calls(),
                s.types(),
                s.partial_schema.fields,
            ),
        s.calls().len() == 0 ==> s.partial_calls() == s.calls(),
{
    let calls = s.calls();
    let partial = s.partial_calls();
    let keys = s.group_exprs;
    let count = s.aggregates.len() as int;
    partial_calls(s.aggregates, calls, count);
    calls_are_by_expr(s.aggregates, count);
    the_whole_has_the_schema(s.lists, s.input, s.lists.len() as int);
    aggregation_holds_groups(s.rows(), keys, s.aggregates, calls, s.input, s.schema, native);
    let all = keys + s.aggregates;
    let partial_all = keys + s.partial_exprs;
    fields_are_by_expr(all, s.input, all.len() as int);
    fields_are_by_expr(partial_all, s.input, partial_all.len() as int);
    assert forall|j: int| 0 <= j < keys.len() implies (
    #[trigger] s.partial_schema.fields[j]).data_type == s.types()[j] by {
        assert(all[j] == keys[j]);
        assert(partial_all[j] == keys[j]);
        assert(s.schema.fields[j].data_type == s.types()[j]);
    }
    assert forall|i: int| 0 <= i < s.lists.len() implies {
        let items = items_of(#[trigger] s.lists[i], partial, keys, s.lists[i].len() as int);
        &&& all_computed(s.lists[i], calls, keys)
        &&& all_computed(s.lists[i], partial, keys)
        &&& are_groups_of(
            part_of(s.lists[i], partial, keys),
            items,
            partial,
            keys.len() == 0,
            items.len() as int,
        )
        &&& holds_part(partials[i], s.parts()[i], calls, s.types(), s.partial_schema.fields)
    } by {
        let list = s.lists[i];
        assert(partials[i] == partials[i]);
        aggregation_holds_groups(
            list,
            keys,
            s.partial_exprs,
            partial,
            s.input,
            s.partial_schema,
            partials[i],
        );
        assert forall|k: int| 0 <= k < list.len() implies crate::execution::rows::computed(
            keys,
            #[trigger] list[k],
            keys.len() as int,
        ) is Ok && crate::execution::aggregate::arguments_of(
            calls,
            list[k],
            calls.len() as int,
        ) is Ok by {
            lists_are_in_the_whole(s.lists, i, k, s.lists.len() as int);
            let at = choose|at: int| 0 <= at < s.rows().len() && s.rows()[at] == list[k];
            assert(s.rows()[at] == list[k]);
        }
        let part = s.parts()[i];
        assert(first_types(s.partial_schema, keys.len()) =~= s.types());
        assert(holds_part(partials[i], part, calls, s.types(), s.partial_schema.fields));
    }
    if calls.len() == 0 {
        assert(partial =~= calls);
    }
}

/// A key occurs in all rows if and only if it occurs in those of some partition.
proof fn keys_occur_in_a_partition(s: SpreadView, key: Seq<ScalarView>, upto: int)
    requires
        lists_fit(s.lists, s.calls(), s.partial_calls(), s.group_exprs),
        s.calls().len() == 0 ==> s.partial_calls() == s.calls(),
        0 <= upto <= s.lists.len(),
    ensures
        ({
            let items = prefix_items(s.lists, s.calls(), s.group_exprs, upto);
            occurs(items, key, items.len() as int) <==> exists|i: int|
                0 <= i < upto && #[trigger] list_has(s, i, key)
        }),
    decreases upto,
{
    let items = prefix_items(s.lists, s.calls(), s.group_exprs, upto);
    if upto > 0 {
        let last = upto - 1;
        keys_occur_in_a_partition(s, key, last);
        a_list_more(s.lists, s.calls(), s.group_exprs, 0, key, last);
        let before = prefix_items(s.lists, s.calls(), s.group_exprs, last);
        let list = s.lists[last];
        let own = items_of(list, s.calls(), s.group_exprs, list.len() as int);
        let others = items_of(list, s.partial_calls(), s.group_exprs, list.len() as int);
        assert(items == before + own);
        if s.calls().len() > 0 {
            assert(are_partial_calls(s.calls()[0], s.partial_calls(), offset(s.calls(), 0)));
            assert(all_computed(s.lists[last], s.calls(), s.group_exprs));
            calls_choose_alike(
                list,
                s.calls(),
                s.partial_calls(),
                s.group_exprs,
                0,
                offset(s.calls(), 0),
                key,
            );
        }
        assert(occurs(own, key, own.len() as int) == list_has(s, last, key));
        if occurs(items, key, items.len() as int) {
            let k = choose|k: int| 0 <= k < items.len() && (#[trigger] items[k]).key == key;
            if k < before.len() {
                assert(before[k].key == key);
                assert(occurs(before, key, before.len() as int));
                let i = choose|i: int| 0 <= i < last && #[trigger] list_has(s, i, key);
                assert(list_has(s, i, key));
            } else {
                assert(own[k - before.len()].key == key);
                assert(list_has(s, last, key));
            }
        }
        if exists|i: int| 0 <= i < upto && #[trigger] list_has(s, i, key) {
            let i = choose|i: int| 0 <= i < upto && #[trigger] list_has(s, i, key);
            if i < last {
                assert(occurs(before, key, before.len() as int));
                let k = choose|k: int| 0 <= k < before.len() && (#[trigger] before[k]).key == key;
                assert(items[k].key == key);
            } else {
                let k = choose|k: int| 0 <= k < own.len() && (#[trigger] own[k]).key == key;
                assert(items[before.len() + k].key == key);
            }
        }
    }
}

/// Whether a row of a partition has a key.
pub open spec fn list_has(s: SpreadView, i: int, key: Seq<ScalarView>) -> bool {
    let items = items_of(s.lists[i], s.partial_calls(), s.group_exprs, s.lists[i].len() as int);
    occurs(items, key, items.len() as int)
}

/// The groups of all rows have the keys that the merged groups have.
#[verifier::rlimit(40)]
proof fn the_keys_are_the_same(
    s: SpreadView,
    groups: Seq<GroupView>,
    merges: Seq<MergeGroupView>,
)
    requires
        lists_fit(s.lists, s.calls(), s.partial_calls(), s.group_exprs),
        s.calls().len() == 0 ==> s.partial_calls() == s.calls(),
        ({
            let items = prefix_items(s.lists, s.calls(), s.group_exprs, s.lists.len() as int);
            are_groups_of(
                groups,
                items,
                s.calls(),
                s.group_exprs.len() == 0,
                items.len() as int,
            )
        }),
        are_merged_groups(
            merges,
            s.parts(),
            s.calls(),
            s.types(),
            s.group_exprs.len() == 0,
            s.parts().len() as int,
            0,
        ),
    ensures
        forall|h: int|
            0 <= h < groups.len() ==> has_row(
                merges,
                typed_key((#[trigger] groups[h]).key, s.types()),
            ),
        forall|g: int|
            0 <= g < merges.len() ==> has_key(groups, read_key((#[trigger] merges[g]).row)),
{
    let whole = s.group_exprs.len() == 0;
    let all = s.lists.len() as int;
    let items = prefix_items(s.lists, s.calls(), s.group_exprs, all);
    let parts = s.parts();
    assert forall|h: int| 0 <= h < groups.len() implies has_row(
        merges,
        typed_key((#[trigger] groups[h]).key, s.types()),
    ) by {
        let key = groups[h].key;
        if occurs(items, key, items.len() as int) {
            keys_occur_in_a_partition(s, key, all);
            let i = choose|i: int| 0 <= i < all && #[trigger] list_has(s, i, key);
            let list = s.lists[i];
            let others = items_of(list, s.partial_calls(), s.group_exprs, list.len() as int);
            let k = choose|k: int| 0 <= k < others.len() && (#[trigger] others[k]).key == key;
            let part = part_of(list, s.partial_calls(), s.group_exprs);
            assert(parts[i] == part);
            assert(has_key(part, others[k].key));
            let p = choose|p: int| 0 <= p < part.len() && (#[trigger] part[p]).key == key;
            assert(parts[i][p].key == key);
        } else {
            assert(whole && key.len() == 0);
            assert(typed_key(key, s.types()) =~= Seq::<ColumnView>::empty());
        }
    }
    assert forall|g: int| 0 <= g < merges.len() implies has_key(
        groups,
        read_key((#[trigger] merges[g]).row),
    ) by {
        let key = read_key(merges[g].row);
        assert(is_merged_group(merges[g], parts, s.calls(), s.types(), whole, all, 0));
        let empty = Seq::<ScalarView>::empty();
        if parts_have(parts, key, all) {
            let (p, h) = choose|p: int, h: int|
                0 <= p < all && 0 <= h < parts[p].len() && (#[trigger] parts[p][h]).key == key;
            let list = s.lists[p];
            let others = items_of(list, s.partial_calls(), s.group_exprs, list.len() as int);
            let part = part_of(list, s.partial_calls(), s.group_exprs);
            assert(parts[p] == part);
            assert(part[h].key == key);
            if occurs(others, key, others.len() as int) {
                assert(list_has(s, p, key));
                keys_occur_in_a_partition(s, key, all);
                let k = choose|k: int| 0 <= k < items.len() && (#[trigger] items[k]).key == key;
                assert(has_key(groups, items[k].key));
            } else {
                assert(key =~= empty);
            }
        } else {
            assert(key =~= empty);
        }
    }
}

/// Whether a function's results over partitions can be merged into its result over all rows.
pub open spec fn comes_together(function: AggregateFunction) -> bool {
    function == AggregateFunction::Count || function == AggregateFunction::Min || function
        == AggregateFunction::Max
}

/// What is merged for a key is what all its rows give.
#[verifier::rlimit(40)]
proof fn merged_values_are_those_of_all_rows(s: SpreadView, native: BatchView, h: int, a: int)
    requires
        s.wf(),
        s.gives(native),
        lists_fit(s.lists, s.calls(), s.partial_calls(), s.group_exprs),
        0 <= h < part_of(s.rows(), s.calls(), s.group_exprs).len(),
        0 <= a < s.calls().len(),
        !s.calls()[a].distinct,
        comes_together(s.calls()[a].function),
    ensures
        ({
            let group = part_of(s.rows(), s.calls(), s.group_exprs)[h];
            merge_value(s.calls(), s.parts(), a, group.key, s.lists.len() as int).finished()
                == group.states[a].finished()
        }),
{
    let calls = s.calls();
    let keys = s.group_exprs;
    let all = s.lists.len() as int;
    calls_are_by_expr(s.aggregates, s.aggregates.len() as int);
    the_whole_has_the_schema(s.lists, s.input, all);
    aggregation_holds_groups(s.rows(), keys, s.aggregates, calls, s.input, s.schema, native);
    let group = part_of(s.rows(), calls, keys)[h];
    let items = prefix_items(s.lists, calls, keys, all);
    let values = prefix_chosen(s.lists, calls, keys, a, group.key, all);
    assert(is_group_of(group, items, calls, items.len() as int));
    items_are_rows(s.rows(), calls, keys, s.rows().len() as int);
    let state = group.states[a];
    if calls[a].function == AggregateFunction::Count {
        counts_come_together(s.lists, calls, s.partial_calls(), keys, a, group.key, all);
        count_counts_what_is_present(values, values.len() as int);
    } else {
        let wanted = if calls[a].function == AggregateFunction::Min {
            Relation::Less
        } else {
            Relation::Greater
        };
        let exprs = keys + s.aggregates;
        fields_are_by_expr(exprs, s.input, exprs.len() as int);
        assert(exprs[keys.len() + a] == s.aggregates[a]);
        reveal_with_fuel(ExprView::data_type, 3);
        assert(call_of(s.aggregates[a]) == Ok::<CallView, ErrorView>(calls[a]));
        assert(s.schema.fields[keys.len() + a] == s.schema.fields[keys.len() + a]);
        assert(calls[a].expr.data_type(s.input) is Ok);
        assert(of_one_type(values)) by {
            chosen_are_items(items, group.key, a, items.len() as int);
            assert forall|i: int, j: int|
                0 <= i < values.len() && 0 <= j < values.len() && !(values[i] is Null) && !(
                values[j] is Null) implies (#[trigger] values[i]).data_type() == (
            #[trigger] values[j]).data_type() by {
                let p = choose|p: int|
                    0 <= p < items.len() && (#[trigger] items[p]).values[a] == values[i];
                let q = choose|q: int|
                    0 <= q < items.len() && (#[trigger] items[q]).values[a] == values[j];
                assert(item_is_typed(items[p], calls, keys, s.input));
                assert(item_is_typed(items[q], calls, keys, s.input));
            }
        }
        extremes_come_together(
            s.lists,
            calls,
            s.partial_calls(),
            keys,
            a,
            group.key,
            wanted,
            all,
        );
        extremes_are_values(values, wanted, values.len() as int);
    }
}

/// Lists without repetition that have the same members are permutations of each other.
proof fn same_members(a: Seq<Seq<ColumnView>>, b: Seq<Seq<ColumnView>>)
    requires
        a.no_duplicates(),
        b.no_duplicates(),
        forall|i: int| 0 <= i < a.len() ==> b.contains(#[trigger] a[i]),
        forall|i: int| 0 <= i < b.len() ==> a.contains(#[trigger] b[i]),
    ensures
        a.to_multiset() == b.to_multiset(),
{
    a.to_multiset_ensures();
    b.to_multiset_ensures();
    a.lemma_multiset_has_no_duplicates();
    b.lemma_multiset_has_no_duplicates();
    assert forall|x: Seq<ColumnView>| a.to_multiset().count(x) == b.to_multiset().count(x) by {
        if a.contains(x) {
            let i = choose|i: int| 0 <= i < a.len() && a[i] == x;
            assert(b.contains(a[i]));
            assert(a.to_multiset().contains(x) && b.to_multiset().contains(x));
        } else {
            if b.contains(x) {
                let i = choose|i: int| 0 <= i < b.len() && b[i] == x;
                assert(a.contains(b[i]));
            }
            assert(!a.to_multiset().contains(x) && !b.to_multiset().contains(x));
        }
    }
    assert(a.to_multiset() =~= b.to_multiset());
}

/// Whether the merge of a spread aggregation gives what one aggregation of all rows gives.
pub open spec fn same_result(s: SpreadView, native: BatchView, batch: BatchView) -> bool {
    let count = s.group_exprs.len();
    &&& batch.rows == native.rows
    &&& result_keys(batch, count).to_multiset() == result_keys(native, count).to_multiset()
    &&& forall|g: int, h: int, a: int|
        #![trigger result_keys(batch, count)[g], result_keys(native, count)[h], s.calls()[a]]
        0 <= g < batch.rows && 0 <= h < native.rows && 0 <= a < s.calls().len()
            && result_keys(batch, count)[g] == result_keys(native, count)[h] && comes_together(
            s.calls()[a].function,
        ) ==> batch.columns[count + a].taken(seq![g]) == native.columns[count + a].taken(seq![h])
    &&& (forall|a: int|
        0 <= a < s.calls().len() ==> comes_together((#[trigger] s.calls()[a]).function)) ==> (
    result_rows(batch).to_multiset() == result_rows(native).to_multiset())
    &&& forall|g: int, a: int|
        #![trigger result_keys(batch, count)[g], s.calls()[a]]
        0 <= g < batch.rows && 0 <= a < s.calls().len() ==> batch.columns[count + a].taken(seq![g])
            == written(
            merge_value(
                s.calls(),
                s.parts(),
                a,
                read_key(result_keys(batch, count)[g]),
                s.lists.len() as int,
            ).finished(),
            s.schema.fields[count + a].data_type,
        )
}

#[verifier::rlimit(80)]
#[verifier::spinoff_prover]
proof fn merging_gives_the_same(
    s: SpreadView,
    native: BatchView,
    partials: Seq<BatchView>,
    memory: MemoryView,
    batch: BatchView,
)
    requires
        s.wf(),
        s.gives(native),
        s.gives_partials(partials),
        forall|a: int| 0 <= a < s.calls().len() ==> !(#[trigger] s.calls()[a]).distinct,
        merged(partials, s.group_exprs.len(), s.aggregates, s.schema, memory) == Ok::<
            BatchView,
            ErrorView,
        >(batch),
    ensures
        same_result(s, native, batch),
{
    let calls = s.calls();
    let keys = s.group_exprs;
    let count = keys.len();
    let all = s.lists.len() as int;
    let types = s.types();
    let fields = s.schema.fields;
    calls_are_by_expr(s.aggregates, s.aggregates.len() as int);
    partitions_hold_their_groups(s, native, partials);
    the_whole_has_the_schema(s.lists, s.input, all);
    aggregation_holds_groups(s.rows(), keys, s.aggregates, calls, s.input, s.schema, native);
    let groups = part_of(s.rows(), calls, keys);
    let values = group_rows(groups);
    merging_holds_groups(
        partials,
        s.aggregates,
        calls,
        s.schema,
        count,
        memory,
        batch,
        s.parts(),
        s.partial_schema.fields,
    );
    let table = batches_merged(partials, calls, key_types(fields, count), memory, all)->Ok_0;
    let merges = merge_sorted(table.groups, table.groups.len() as int);
    the_keys_are_the_same(s, groups, merges);
    let ours = result_keys(batch, count);
    let theirs = result_keys(native, count);
    assert forall|g: int| 0 <= g < merges.len() implies #[trigger] ours[g] == merges[g].row by {
        assert(is_merged_group(merges[g], s.parts(), calls, types, count == 0, all, 0));
        assert forall|j: int| 0 <= j < count implies ours[g][j] == merges[g].row[j] by {
            assert(batch.columns[j].taken(seq![g]) == merges[g].row[j]);
        }
        assert(ours[g] =~= merges[g].row);
    }
    assert forall|h: int| 0 <= h < groups.len() implies #[trigger] theirs[h] == typed_key(
        groups[h].key,
        types,
    ) by {
        assert(values[h] == group_row_values(groups[h]));
        assert(crate::distributed::merging::key_is_kept(groups[h].key, types));
        assert forall|j: int| 0 <= j < count implies theirs[h][j] == typed_key(
            groups[h].key,
            types,
        )[j] by {
            assert(native.columns[j].taken(seq![h]) == written(values[h][j], fields[j].data_type));
        }
        assert(theirs[h] =~= typed_key(groups[h].key, types));
    }
    assert(ours.no_duplicates()) by {
        assert forall|g: int, h: int| 0 <= g < ours.len() && 0 <= h < ours.len() && g != h implies
            ours[g] != ours[h] by {
            assert(ours[g] == merges[g].row && ours[h] == merges[h].row);
        }
    }
    assert(theirs.no_duplicates()) by {
        assert forall|g: int, h: int|
            0 <= g < theirs.len() && 0 <= h < theirs.len() && g != h implies theirs[g]
            != theirs[h] by {
            assert(theirs[g] == typed_key(groups[g].key, types));
            assert(theirs[h] == typed_key(groups[h].key, types));
            keys_read_back(groups[g].key, types);
            keys_read_back(groups[h].key, types);
            assert(groups[g].key != groups[h].key);
        }
    }
    assert forall|g: int| 0 <= g < ours.len() implies theirs.contains(#[trigger] ours[g]) by {
        assert(ours[g] == merges[g].row);
        assert(has_key(groups, read_key(merges[g].row)));
        let key = read_key(merges[g].row);
        let h = choose|h: int| 0 <= h < groups.len() && (#[trigger] groups[h]).key == key;
        assert(is_merged_group(merges[g], s.parts(), calls, types, count == 0, all, 0));
        assert(theirs[h] == ours[g]);
    }
    assert forall|h: int| 0 <= h < theirs.len() implies ours.contains(#[trigger] theirs[h]) by {
        assert(theirs[h] == typed_key(groups[h].key, types));
        assert(has_row(merges, typed_key(groups[h].key, types)));
        let g = choose|g: int|
            0 <= g < merges.len() && (#[trigger] merges[g]).row == typed_key(groups[h].key, types);
        assert(ours[g] == theirs[h]);
    }
    same_members(ours, theirs);
    ours.to_multiset_ensures();
    theirs.to_multiset_ensures();
    assert forall|g: int, a: int|
        #![trigger ours[g], calls[a]]
        0 <= g < batch.rows && 0 <= a < calls.len() implies batch.columns[count + a].taken(seq![g])
        == written(
        merge_value(calls, s.parts(), a, read_key(ours[g]), all).finished(),
        fields[count + a].data_type,
    ) by {
        assert(ours[g] == merges[g].row);
        assert(is_merged_group(merges[g], s.parts(), calls, types, count == 0, all, 0));
        assert(batch.columns[count + a].taken(seq![g]) == written(
            merges[g].states[a].finished(),
            fields[count + a].data_type,
        ));
    }
    assert forall|g: int, h: int, a: int|
        #![trigger ours[g], theirs[h], calls[a]]
        0 <= g < batch.rows && 0 <= h < native.rows && 0 <= a < calls.len() && ours[g] == theirs[h]
            && comes_together(calls[a].function) implies batch.columns[count + a].taken(seq![g])
        == native.columns[count + a].taken(seq![h]) by {
        assert(ours[g] == merges[g].row);
        assert(theirs[h] == typed_key(groups[h].key, types));
        keys_read_back(groups[h].key, types);
        merged_values_are_those_of_all_rows(s, native, h, a);
        assert(values[h] == group_row_values(groups[h]));
        assert(native.columns[count + a].taken(seq![h]) == written(
            values[h][count + a],
            fields[count + a].data_type,
        ));
        assert(values[h][count + a] == groups[h].states[a].finished());
    }
    if forall|a: int| 0 <= a < calls.len() ==> comes_together((#[trigger] calls[a]).function) {
        rows_follow_keys(s, native, batch);
    }
}

/// Rows whose values follow from their keys are the same where the keys are.
proof fn rows_follow_keys(s: SpreadView, native: BatchView, batch: BatchView)
    requires
        ({
            let count = s.group_exprs.len();
            let ours = result_keys(batch, count);
            let theirs = result_keys(native, count);
            &&& ours.no_duplicates()
            &&& theirs.no_duplicates()
            &&& forall|i: int| 0 <= i < ours.len() ==> theirs.contains(#[trigger] ours[i])
            &&& forall|i: int| 0 <= i < theirs.len() ==> ours.contains(#[trigger] theirs[i])
            &&& batch.columns.len() == count + s.calls().len()
            &&& native.columns.len() == count + s.calls().len()
            &&& forall|g: int, h: int, a: int|
                #![trigger ours[g], theirs[h], s.calls()[a]]
                0 <= g < batch.rows && 0 <= h < native.rows && 0 <= a < s.calls().len() && ours[g]
                    == theirs[h] ==> batch.columns[count + a].taken(seq![g])
                    == native.columns[count + a].taken(seq![h])
        }),
    ensures
        result_rows(batch).to_multiset() == result_rows(native).to_multiset(),
{
    let count = s.group_exprs.len();
    let ours = result_keys(batch, count);
    let theirs = result_keys(native, count);
    let a = result_rows(batch);
    let b = result_rows(native);
    assert forall|g: int, h: int|
        0 <= g < a.len() && 0 <= h < b.len() && #[trigger] ours[g] == #[trigger] theirs[h] implies a[g]
        == b[h] by {
        assert forall|j: int| 0 <= j < a[g].len() implies a[g][j] == b[h][j] by {
            if j < count {
                assert(ours[g][j] == batch.columns[j].taken(seq![g]));
                assert(theirs[h][j] == native.columns[j].taken(seq![h]));
            } else {
                let call = s.calls()[j - count];
                assert(batch.columns[count + (j - count)].taken(seq![g])
                    == native.columns[count + (j - count)].taken(seq![h]));
            }
        }
        assert(a[g] =~= b[h]);
    }
    assert forall|g: int| 0 <= g < a.len() implies #[trigger] a[g].take(count as int)
        == ours[g] by {
        assert(a[g].take(count as int) =~= ours[g]);
    }
    assert forall|h: int| 0 <= h < b.len() implies #[trigger] b[h].take(count as int)
        == theirs[h] by {
        assert(b[h].take(count as int) =~= theirs[h]);
    }
    assert(a.no_duplicates()) by {
        assert forall|g: int, h: int| 0 <= g < a.len() && 0 <= h < a.len() && g != h implies a[g]
            != a[h] by {
            assert(a[g].take(count as int) == ours[g]);
            assert(a[h].take(count as int) == ours[h]);
        }
    }
    assert(b.no_duplicates()) by {
        assert forall|g: int, h: int| 0 <= g < b.len() && 0 <= h < b.len() && g != h implies b[g]
            != b[h] by {
            assert(b[g].take(count as int) == theirs[g]);
            assert(b[h].take(count as int) == theirs[h]);
        }
    }
    assert forall|g: int| 0 <= g < a.len() implies b.contains(#[trigger] a[g]) by {
        assert(theirs.contains(ours[g]));
        let h = choose|h: int| 0 <= h < theirs.len() && theirs[h] == ours[g];
        assert(a[g] == b[h]);
    }
    assert forall|h: int| 0 <= h < b.len() implies a.contains(#[trigger] b[h]) by {
        assert(ours.contains(theirs[h]));
        let g = choose|g: int| 0 <= g < ours.len() && ours[g] == theirs[h];
        assert(a[g] == b[h]);
    }
    same_members(a, b);
}

/// The rows of each partition of a plan that works on each batch by itself.
pub open spec fn partition_rows(
    plan: PhysicalView,
    tables: Seq<NamedTableView>,
    partitions: usize,
) -> Seq<Seq<BatchView>> {
    Seq::new(
        partitions as nat,
        |i: int| local_result(plan, tables, Some(i as usize))->Ok_0,
    )
}

/// What a plan that is spread over partitions works with.
pub open spec fn spread_view(
    plan: PhysicalView,
    tables: Seq<NamedTableView>,
    partitions: usize,
) -> SpreadView {
    let input = *plan->HashAggregate_input;
    let cluster = spread_plan(plan, partitions)->Ok_0;
    SpreadView {
        lists: partition_rows(input, tables, partitions),
        group_exprs: plan->HashAggregate_group_exprs,
        aggregates: plan->HashAggregate_aggregate_exprs,
        partial_exprs: cluster.partial_exprs,
        input: input.schema(),
        schema: plan->HashAggregate_schema,
        partial_schema: cluster.partial_schema,
    }
}

/// Where an aggregation runs changes none of its rows: what a cluster gives that runs it partition
/// by partition and merges what they give, and what one run over all partitions gives, have the same
/// rows, in some order. Where it sums or averages, the groups are the same, and a sum or an average
/// is what the partial sums and counts come to when they are added up in the order of the
/// partitions: adding floating-point numbers in another order can give another number.
pub proof fn placement_changes_no_rows(
    plan: PhysicalView,
    partitions: usize,
    catalog: Map<Seq<char>, TableView>,
    tables: Seq<NamedTableView>,
    memory: MemoryView,
    before: MetricsView,
    after: MetricsView,
    spread_result: ClusterView,
    native: Seq<BatchView>,
)
    requires
        spread(plan) == Some(partitions),
        transportable(plan, catalog),
        is_partition_local(*plan->HashAggregate_input),
        scanned_partitions(*plan->HashAggregate_input, tables) == Some(partitions as nat),
        plan_fits(
            encoded_plan(*plan->HashAggregate_input, 0)->Ok_0,
            (RECURSION_LIMIT - 1) as nat,
        ),
        cluster_gives(plan, catalog, tables, memory, false, before, Ok(spread_result), after),
        produces(plan, tables, None, Ok(native)),
    ensures
        spread_result.batches.len() == 1,
        native.len() == 1,
        same_result(
            spread_view(plan, tables, partitions),
            native[0],
            spread_result.batches[0],
        ),
{
    let input = *plan->HashAggregate_input;
    let keys = plan->HashAggregate_group_exprs;
    let exprs = plan->HashAggregate_aggregate_exprs;
    let schema = plan->HashAggregate_schema;
    let s = spread_view(plan, tables, partitions);
    let cluster = spread_plan(plan, partitions)->Ok_0;
    reveal(spread_gives);
    reveal(partition_gives);
    let (partials, ends) = choose|partials: Seq<BatchView>, ends: Seq<MetricsView>|
        #[trigger] partitions_meter(
            cluster,
            keys,
            catalog,
            tables,
            before,
            partials,
            ends,
            partitions as int,
        ) && (crate::distributed::local::shuffled(
            partials,
            memory,
            partitions as int,
        ) matches Ok(now) && crate::distributed::local::merge_step(plan, partials, now) == Ok::<
            BatchView,
            ErrorView,
        >(spread_result.batches[0]));
    let now = crate::distributed::local::shuffled(partials, memory, partitions as int)->Ok_0;
    stage_runs_its_plan(
        "local-cluster-query"@,
        StageId(0),
        Seq::empty(),
        partitions as u32,
        input,
        catalog,
    );
    assert forall|i: int| 0 <= i < partitions implies {
        &&& local_result(input, tables, Some(i as usize)) == Ok::<Seq<BatchView>, ErrorView>(
            #[trigger] s.lists[i],
        )
        &&& all_valid(s.lists[i])
        &&& all_have(s.lists[i], s.input)
        &&& aggregated(s.lists[i], keys, s.partial_exprs, s.partial_schema) == Ok::<
            BatchView,
            ErrorView,
        >(partials[i])
    } by {
        assert(partition_gives(
            cluster,
            keys,
            catalog,
            tables,
            i as usize,
            Ok(seq![partials[i]]),
        ));
        let rows = choose|rows: Result<Seq<BatchView>, ErrorView>| #[trigger]
            produces(input, tables, Some(i as usize), rows) && Ok::<Seq<BatchView>, ErrorView>(
                seq![partials[i]],
            ) == crate::execution::run::aggregate_step(
                rows,
                keys,
                cluster.partial_exprs,
                cluster.partial_schema,
            );
        local_plans_are_settled(input, tables, Some(i as usize), rows);
        partitions_have_the_schema(input, catalog, tables, i as usize);
        let one = aggregated(s.lists[i], keys, s.partial_exprs, s.partial_schema);
        assert(seq![one->Ok_0][0] == seq![partials[i]][0]);
    }
    partitions_make_the_whole(input, tables, s.lists);
    let trace = choose|trace: Trace| #[trigger]
        runs(plan, tables, None, trace) && trace.result() == Ok::<Seq<BatchView>, ErrorView>(
            native,
        );
    let below = *trace->Step_input;
    assert(produces(input, tables, None, below.result())) by {
        assert(runs(input, tables, None, below));
    }
    local_plans_are_settled(input, tables, None, below.result());
    assert(s.gives(native[0])) by {
        let one = aggregated(s.rows(), keys, exprs, schema);
        assert(native == seq![one->Ok_0]);
    }
    calls_are_by_expr(exprs, exprs.len() as int);
    assert forall|a: int| 0 <= a < s.calls().len() implies !(#[trigger] s.calls()[a]).distinct by {
        assert(call_of(exprs[a]) == Ok::<CallView, ErrorView>(s.calls()[a]));
        assert(!crate::distributed::local::is_distinct(exprs[a]));
    }
    assert(s.wf());
    merging_gives_the_same(s, native[0], partials, now, spread_result.batches[0]);
}

/// Where a session's aggregation runs changes none of its rows: the law of `placement_changes_no_rows`
/// for the plans that a session makes.
pub proof fn placement_changes_no_rows_of_a_session(
    logical: LogicalView,
    planned: PlannedView,
    partitions: usize,
    catalog: Map<Seq<char>, TableView>,
    tables: Seq<NamedTableView>,
    memory: MemoryView,
    before: MetricsView,
    after: MetricsView,
    spread_result: ClusterView,
    native: Seq<BatchView>,
)
    requires
        is_built(logical, catalog),
        has_plain_names(catalog),
        has_countable_columns(catalog),
        all_plans(logical, catalog) == Ok::<PlannedView, ErrorView>(planned),
        spread(planned.physical) == Some(partitions),
        is_partition_local(*planned.physical->HashAggregate_input),
        scanned_partitions(*planned.physical->HashAggregate_input, tables) == Some(
            partitions as nat,
        ),
        plan_fits(
            encoded_plan(*planned.physical->HashAggregate_input, 0)->Ok_0,
            (RECURSION_LIMIT - 1) as nat,
        ),
        cluster_gives(
            planned.physical,
            catalog,
            tables,
            memory,
            false,
            before,
            Ok(spread_result),
            after,
        ),
        produces(planned.physical, tables, None, Ok(native)),
    ensures
        spread_result.batches.len() == 1,
        native.len() == 1,
        same_result(
            spread_view(planned.physical, tables, partitions),
            native[0],
            spread_result.batches[0],
        ),
{
    optimizing_keeps_plans_built(logical, catalog);
    planned_queries_are_transportable(planned.optimized, catalog, 0);
    placement_changes_no_rows(
        planned.physical,
        partitions,
        catalog,
        tables,
        memory,
        before,
        after,
        spread_result,
        native,
    );
}

} // verus!

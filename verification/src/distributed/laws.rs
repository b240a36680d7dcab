//! Spreading an aggregation over partitions changes no rows.

use crate::batch::BatchView;
use crate::cells::{cell_value, column_of};
use crate::column::{cells_make_a_column, ColumnView};
use crate::distributed::groups::{
    are_groups_of, chosen, groups_are_of_items, has_key, is_group_of, item_of, items_of, occurs,
    sorted_groups_are_of_items, ItemView,
};
use crate::distributed::local::schema_of;
use crate::distributed::merge::{
    batches_merged, finished_merges, gathered_keys, key_types, merge_sorted, merged, value_columns,
    MergeGroupView,
};
use crate::distributed::merging::{
    are_merged_groups, batches_are_merged, holds_part, is_merged_group, key_is_kept, merge_value,
    offset, read_key, result_at, sorted_merged_groups,
};
use crate::distributed::partial::MergeView;
use crate::distributed::partials::{
    all_computed, are_partial_calls, arguments_are_by_call, calls_are_by_expr, calls_choose_alike,
    chosen_are_items, chosen_of_two_lists, extreme_function, extreme_of, extremes_are_values,
    extremes_join, groups_are_computed, items_of_two_lists, of_one_type,
    what_does_not_occur_is_not_chosen,
};
use crate::distributed::spreading::{all_have, joined_lists};
use crate::distributed::written::{
    holds_rows, is_kept, rows_are_held, singles_are_read_widened, what_is_read_is_kept, written,
    writing_is_by_value,
};
use crate::error::ErrorView;
use crate::execution::aggregate::{
    aggregated, argument_of, arguments_of, calls_of, group_place, group_place_is_within,
    group_row_values, group_rows, grouped, sorted_groups, CallView, GroupView,
};
use crate::execution::laws::{
    count_counts_what_is_present, folded, present, present_is_bounded, present_splits,
};
use crate::execution::rows::{batch_of_rows, computed, row_values};
use crate::execution::state::StateView;
use crate::expr::{AggregateFunction, ExprView};
use crate::kernels::row_of;
use crate::logical::fields_of;
use crate::memory::MemoryView;
use crate::scalar::ScalarView;
use crate::table::all_valid;
use crate::text::Relation;
use crate::types::{DataTypeView, FieldView, SchemaView};
use crate::values::values_are_typed;
use vstd::prelude::*;

verus! {

// ---- reading

/// Every cell can be read.
pub(crate) proof fn cells_are_read(column: ColumnView, row: int)
    ensures
        cell_value(column, row) is Ok,
{
    if let ColumnView::Float32(cells) = column {
        if !column.null_at(row) {
            singles_are_read_widened(cells[row]->Some_0);
        }
    }
}

pub(crate) proof fn rows_are_read(columns: Seq<ColumnView>, row: int, upto: int)
    requires
        0 <= upto,
    ensures
        row_values(columns, row, upto) is Ok,
        row_values(columns, row, upto)->Ok_0.len() == upto,
        forall|j: int|
            0 <= j < upto ==> cell_value(columns[j], row) == Ok::<ScalarView, ErrorView>(
                #[trigger] row_values(columns, row, upto)->Ok_0[j],
            ),
    decreases upto,
{
    if upto > 0 {
        rows_are_read(columns, row, upto - 1);
        cells_are_read(columns[upto - 1], row);
    }
}

/// The type of the values that are read from columns of a type.
pub open spec fn scalar_type(data_type: DataTypeView) -> DataTypeView {
    match data_type {
        DataTypeView::Int32 => DataTypeView::Int64,
        DataTypeView::UInt32 => DataTypeView::UInt64,
        DataTypeView::Float32 => DataTypeView::Float64,
        other => other,
    }
}

proof fn reading_is_typed(column: ColumnView, row: int)
    ensures
        cell_value(column, row) matches Ok(value) ==> value is Null || value.data_type()
            == scalar_type(column.data_type()),
{
    if let ColumnView::Float32(cells) = column {
        if !column.null_at(row) {
            singles_are_read_widened(cells[row]->Some_0);
        }
    }
}

pub(crate) proof fn computing_is_by_expr(exprs: Seq<ExprView>, batch: BatchView, upto: int)
    requires
        0 <= upto,
    ensures
        computed(exprs, batch, upto) matches Ok(columns) ==> columns.len() == upto && forall|j: int|
            0 <= j < upto ==> exprs[j].value(batch) == Ok::<ColumnView, ErrorView>(
                #[trigger] columns[j],
            ),
    decreases upto,
{
    if upto > 0 {
        computing_is_by_expr(exprs, batch, upto - 1);
    }
}

/// Whether a value can have been read from a column of a type.
pub open spec fn is_read_as(value: ScalarView, data_type: DataTypeView) -> bool {
    &&& !(data_type is Null) && !(data_type is Other) ==> is_kept(value, data_type)
    &&& value is Null || value.data_type() == scalar_type(data_type)
}

/// What the rows of batches of a schema give is of the types of the expressions.
pub open spec fn item_is_typed(
    item: ItemView,
    calls: Seq<CallView>,
    group_exprs: Seq<ExprView>,
    schema: SchemaView,
) -> bool {
    &&& item.key.len() == group_exprs.len()
    &&& forall|j: int|
        0 <= j < group_exprs.len() ==> (group_exprs[j].data_type(schema) matches Ok(t)
            ==> is_read_as(#[trigger] item.key[j], t))
    &&& forall|c: int|
        0 <= c < calls.len() && !(calls[c].expr is Wildcard) ==> (calls[c].expr.data_type(
            schema,
        ) matches Ok(t) ==> is_read_as(#[trigger] item.values[c], t))
}

proof fn a_value_is_read(expr: ExprView, batch: BatchView, column: ColumnView, row: int)
    requires
        batch.wf(),
        expr.value(batch) == Ok::<ColumnView, ErrorView>(column),
        0 <= row < batch.rows,
    ensures
        cell_value(column, row) is Ok,
        expr.data_type(batch.schema) matches Ok(t) ==> is_read_as(cell_value(column, row)->Ok_0, t),
{
    values_are_typed(expr, batch);
    cells_are_read(column, row);
    reading_is_typed(column, row);
    if !(column is Null) {
        what_is_read_is_kept(column, row, cell_value(column, row)->Ok_0);
    }
}

proof fn items_are_typed(
    batches: Seq<BatchView>,
    calls: Seq<CallView>,
    group_exprs: Seq<ExprView>,
    schema: SchemaView,
    upto: int,
)
    requires
        0 <= upto <= batches.len(),
        all_valid(batches),
        all_have(batches, schema),
        all_computed(batches, calls, group_exprs),
    ensures
        forall|i: int|
            0 <= i < items_of(batches, calls, group_exprs, upto).len() ==> item_is_typed(
                #[trigger] items_of(batches, calls, group_exprs, upto)[i],
                calls,
                group_exprs,
                schema,
            ),
    decreases upto,
{
    if upto > 0 {
        items_are_typed(batches, calls, group_exprs, schema, upto - 1);
        let batch = batches[upto - 1];
        assert(computed(group_exprs, batches[upto - 1], group_exprs.len() as int) is Ok);
        let keys = computed(group_exprs, batch, group_exprs.len() as int)->Ok_0;
        let arguments = arguments_of(calls, batch, calls.len() as int)->Ok_0;
        computing_is_by_expr(group_exprs, batch, group_exprs.len() as int);
        arguments_are_by_call(calls, batch, calls.len() as int);
        let all = items_of(batches, calls, group_exprs, upto);
        let before = items_of(batches, calls, group_exprs, upto - 1);
        assert forall|i: int| 0 <= i < all.len() implies item_is_typed(
            #[trigger] all[i],
            calls,
            group_exprs,
            schema,
        ) by {
            if i < before.len() {
                assert(all[i] == before[i]);
            } else {
                let row = i - before.len();
                assert(all[i] == item_of(keys, arguments, row));
                rows_are_read(keys, row, keys.len() as int);
                assert forall|j: int| 0 <= j < group_exprs.len() implies (group_exprs[j].data_type(
                    schema,
                ) matches Ok(t) ==> is_read_as(#[trigger] all[i].key[j], t)) by {
                    assert(group_exprs[j].value(batch) == Ok::<ColumnView, ErrorView>(keys[j]));
                    a_value_is_read(group_exprs[j], batch, keys[j], row);
                }
                assert forall|c: int|
                    0 <= c < calls.len() && !(calls[c].expr is Wildcard) implies (
                calls[c].expr.data_type(schema) matches Ok(t) ==> is_read_as(
                    #[trigger] all[i].values[c],
                    t,
                )) by {
                    assert(argument_of(calls[c], batch) == Ok::<Option<ColumnView>, ErrorView>(
                        arguments[c],
                    ));
                    a_value_is_read(calls[c].expr, batch, arguments[c]->Some_0, row);
                }
            }
        }
    }
}

// ---- what a partition's batch holds

pub(crate) proof fn fields_are_by_expr(exprs: Seq<ExprView>, schema: SchemaView, upto: int)
    requires
        0 <= upto,
    ensures
        fields_of(exprs, schema, upto) matches Ok(fields) ==> fields.len() == upto && forall|j: int|
            0 <= j < upto ==> exprs[j].data_type(schema) == Ok::<DataTypeView, ErrorView>(
                (#[trigger] fields[j]).data_type,
            ),
    decreases upto,
{
    if upto > 0 {
        fields_are_by_expr(exprs, schema, upto - 1);
    }
}

/// A function's state is one of that function, and an extreme is one of the values.
proof fn states_keep_their_function(
    function: AggregateFunction,
    distinct: bool,
    values: Seq<ScalarView>,
    upto: int,
)
    requires
        0 <= upto <= values.len(),
    ensures
        folded(StateView::fresh(function, distinct), values, upto) matches Ok(state) ==> (
        match function {
            AggregateFunction::Count => state is Count,
            AggregateFunction::Sum => state is Sum,
            AggregateFunction::Avg => state is Avg,
            AggregateFunction::Min => state matches StateView::Min(best) && (best matches Some(
                value,
            ) ==> exists|i: int| 0 <= i < upto && #[trigger] values[i] == value),
            AggregateFunction::Max => state matches StateView::Max(best) && (best matches Some(
                value,
            ) ==> exists|i: int| 0 <= i < upto && #[trigger] values[i] == value),
        }),
    decreases upto,
{
    if upto > 0 {
        states_keep_their_function(function, distinct, values, upto - 1);
        let fresh = StateView::fresh(function, distinct);
        if let Ok(state) = folded(fresh, values, upto) {
            let before = folded(fresh, values, upto - 1)->Ok_0;
            let value = values[upto - 1];
            if let StateView::Min(Some(best)) = state {
                if before != state {
                    assert(values[upto - 1] == best);
                } else {
                    let i = choose|i: int| 0 <= i < upto - 1 && #[trigger] values[i] == best;
                    assert(values[i] == best);
                }
            }
            if let StateView::Max(Some(best)) = state {
                if before != state {
                    assert(values[upto - 1] == best);
                } else {
                    let i = choose|i: int| 0 <= i < upto - 1 && #[trigger] values[i] == best;
                    assert(values[i] == best);
                }
            }
        }
    }
}

proof fn results_are_kept(
    group: GroupView,
    items: Seq<ItemView>,
    calls: Seq<CallView>,
    group_exprs: Seq<ExprView>,
    schema: SchemaView,
    call: int,
    field: FieldView,
)
    requires
        0 <= call < calls.len(),
        is_group_of(group, items, calls, items.len() as int),
        forall|i: int|
            0 <= i < items.len() ==> item_is_typed(
                #[trigger] items[i],
                calls,
                group_exprs,
                schema,
            ),
        (ExprView::Aggregate {
            function: calls[call].function,
            expr: Box::new(calls[call].expr),
            distinct: calls[call].distinct,
        }).data_type(schema) == Ok::<DataTypeView, ErrorView>(field.data_type),
        !(field.data_type is Null),
        !(field.data_type is Other),
    ensures
        is_kept(group.states[call].finished(), field.data_type),
{
    reveal_with_fuel(ExprView::data_type, 2);
    let values = chosen(items, group.key, call, items.len() as int);
    let function = calls[call].function;
    let state = group.states[call];
    assert(folded(
        StateView::fresh(function, calls[call].distinct),
        values,
        values.len() as int,
    ) == Ok::<StateView, ErrorView>(state));
    states_keep_their_function(function, calls[call].distinct, values, values.len() as int);
    reveal_with_fuel(crate::cells::all_floats, 2);
    reveal_with_fuel(crate::cells::all_float32s, 2);
    let value = state.finished();
    if function == AggregateFunction::Min || function == AggregateFunction::Max {
        assert(!(calls[call].expr is Wildcard));
        if !(value is Null) {
            let k = choose|k: int| 0 <= k < values.len() && #[trigger] values[k] == value;
            chosen_are_items(items, group.key, call, items.len() as int);
            let i = choose|i: int|
                0 <= i < items.len() && (#[trigger] items[i]).values[call] == values[k];
            assert(item_is_typed(items[i], calls, group_exprs, schema));
            assert(is_read_as(items[i].values[call], field.data_type));
        }
    }
}

/// The groups of a partition.
pub open spec fn part_of(
    rows: Seq<BatchView>,
    calls: Seq<CallView>,
    group_exprs: Seq<ExprView>,
) -> Seq<GroupView> {
    let groups = grouped(rows, calls, group_exprs, rows.len() as int)->Ok_0;
    sorted_groups(groups, groups.len() as int)
}

/// The types of the first columns of a schema.
pub open spec fn first_types(schema: SchemaView, count: nat) -> Seq<DataTypeView> {
    Seq::new(count, |j: int| schema.fields[j].data_type)
}

/// What aggregation gives holds its groups.
pub(crate) proof fn aggregation_holds_groups(
    rows: Seq<BatchView>,
    group_exprs: Seq<ExprView>,
    exprs: Seq<ExprView>,
    calls: Seq<CallView>,
    input: SchemaView,
    schema: SchemaView,
    batch: BatchView,
)
    requires
        all_valid(rows),
        all_have(rows, input),
        schema_of(input, group_exprs, exprs) == Ok::<SchemaView, ErrorView>(schema),
        calls_of(exprs, exprs.len() as int) == Ok::<Seq<CallView>, ErrorView>(calls),
        aggregated(rows, group_exprs, exprs, schema) == Ok::<BatchView, ErrorView>(batch),
    ensures
        ({
            let part = part_of(rows, calls, group_exprs);
            let items = items_of(rows, calls, group_exprs, rows.len() as int);
            &&& grouped(rows, calls, group_exprs, rows.len() as int) is Ok
            &&& all_computed(rows, calls, group_exprs)
            &&& are_groups_of(part, items, calls, group_exprs.len() == 0, items.len() as int)
            &&& holds_rows(batch, group_rows(part), schema.fields)
            &&& schema.fields.len() == group_exprs.len() + exprs.len()
            &&& forall|i: int|
                0 <= i < items.len() ==> item_is_typed(
                    #[trigger] items[i],
                    calls,
                    group_exprs,
                    input,
                )
            &&& forall|h: int|
                0 <= h < part.len() ==> key_is_kept(
                    (#[trigger] part[h]).key,
                    first_types(schema, group_exprs.len()),
                ) && part[h].states.len() == exprs.len()
            &&& forall|h: int, c: int|
                #![trigger part[h].states[c]]
                0 <= h < part.len() && 0 <= c < exprs.len() ==> is_kept(
                    part[h].states[c].finished(),
                    schema.fields[group_exprs.len() + c].data_type,
                )
        }),
{
    let all = group_exprs + exprs;
    let whole = group_exprs.len() == 0;
    let groups = grouped(rows, calls, group_exprs, rows.len() as int)->Ok_0;
    let part = part_of(rows, calls, group_exprs);
    let items = items_of(rows, calls, group_exprs, rows.len() as int);
    let width = schema.fields.len();
    fields_are_by_expr(all, input, all.len() as int);
    calls_are_by_expr(exprs, exprs.len() as int);
    groups_are_of_items(rows, calls, group_exprs, rows.len() as int);
    sorted_groups_are_of_items(groups, items, calls, whole);
    groups_are_computed(rows, calls, group_exprs, rows.len() as int);
    assert(rows.take(rows.len() as int) =~= rows);
    items_are_typed(rows, calls, group_exprs, input, rows.len() as int);
    assert forall|h: int| 0 <= h < part.len() implies (#[trigger] part[h]).key.len()
        == group_exprs.len() && part[h].states.len() == exprs.len() by {
        assert(is_group_of(part[h], items, calls, items.len() as int));
        if occurs(items, part[h].key, items.len() as int) {
            let i = choose|i: int| 0 <= i < items.len() && (#[trigger] items[i]).key
                == part[h].key;
            assert(item_is_typed(items[i], calls, group_exprs, input));
        }
    }
    let values = group_rows(part);
    assert forall|r: int| 0 <= r < values.len() implies (#[trigger] values[r]).len() == width by {
        assert(values[r] == group_row_values(part[r]));
    }
    assert(width > 0) by {
        if width == 0 {
            assert(batch_of_rows(values, 0, schema) is Err);
        }
    }
    rows_are_held(values, schema);
    assert forall|h: int| 0 <= h < part.len() implies key_is_kept(
        (#[trigger] part[h]).key,
        first_types(schema, group_exprs.len()),
    ) by {
        let types = first_types(schema, group_exprs.len());
        assert forall|j: int| 0 <= j < types.len() implies is_kept(
            #[trigger] part[h].key[j],
            types[j],
        ) by {
            let written_cell = batch.columns[j].taken(seq![h]);
            assert(values[h][j] == part[h].key[j]);
            assert(column_of(seq![values[h][j]], schema.fields[j].data_type) is Ok);
            let i = choose|i: int| 0 <= i < items.len() && (#[trigger] items[i]).key
                == part[h].key;
            assert(occurs(items, part[h].key, items.len() as int));
            assert(item_is_typed(items[i], calls, group_exprs, input));
            assert(all[j] == group_exprs[j]);
            assert(group_exprs[j].data_type(input) == Ok::<DataTypeView, ErrorView>(
                schema.fields[j].data_type,
            ));
            assert(is_read_as(items[i].key[j], types[j]));
        }
    }
    assert forall|h: int, c: int|
        #![trigger part[h].states[c]]
        0 <= h < part.len() && 0 <= c < exprs.len() implies is_kept(
        part[h].states[c].finished(),
        schema.fields[group_exprs.len() + c].data_type,
    ) by {
        let place = group_exprs.len() + c;
        let field = schema.fields[place];
        let written_cell = batch.columns[place].taken(seq![h]);
        assert(values[h] == group_row_values(part[h]));
        assert(column_of(seq![values[h][place]], field.data_type) is Ok);
        assert(is_group_of(part[h], items, calls, items.len() as int));
        assert(all[place] == exprs[c]);
        reveal_with_fuel(ExprView::data_type, 3);
        assert(crate::execution::aggregate::call_of(exprs[c]) == Ok::<CallView, ErrorView>(
            calls[c],
        ));
        results_are_kept(part[h], items, calls, group_exprs, input, c, field);
    }
}

// ---- what the merge of all partitions gives for a key

/// The groups of the partial aggregates of each partition.
pub open spec fn parts_of(
    lists: Seq<Seq<BatchView>>,
    calls: Seq<CallView>,
    group_exprs: Seq<ExprView>,
) -> Seq<Seq<GroupView>> {
    Seq::new(lists.len(), |i: int| part_of(lists[i], calls, group_exprs))
}

/// What the rows of the first `upto` lists give.
pub open spec fn prefix_items(
    lists: Seq<Seq<BatchView>>,
    calls: Seq<CallView>,
    group_exprs: Seq<ExprView>,
    upto: int,
) -> Seq<ItemView> {
    let rows = joined_lists(lists, upto);
    items_of(rows, calls, group_exprs, rows.len() as int)
}

/// What one call chooses for a key of the rows of the first `upto` lists.
pub open spec fn prefix_chosen(
    lists: Seq<Seq<BatchView>>,
    calls: Seq<CallView>,
    group_exprs: Seq<ExprView>,
    call: int,
    key: Seq<ScalarView>,
    upto: int,
) -> Seq<ScalarView> {
    let items = prefix_items(lists, calls, group_exprs, upto);
    chosen(items, key, call, items.len() as int)
}

pub(crate) proof fn a_list_more(
    lists: Seq<Seq<BatchView>>,
    calls: Seq<CallView>,
    group_exprs: Seq<ExprView>,
    call: int,
    key: Seq<ScalarView>,
    upto: int,
)
    requires
        0 <= upto < lists.len(),
    ensures
        ({
            let items = items_of(lists[upto], calls, group_exprs, lists[upto].len() as int);
            &&& prefix_items(lists, calls, group_exprs, upto + 1) == prefix_items(
                lists,
                calls,
                group_exprs,
                upto,
            ) + items
            &&& prefix_chosen(lists, calls, group_exprs, call, key, upto + 1) == prefix_chosen(
                lists,
                calls,
                group_exprs,
                call,
                key,
                upto,
            ) + chosen(items, key, call, items.len() as int)
        }),
{
    let before = joined_lists(lists, upto);
    items_of_two_lists(before, lists[upto], calls, group_exprs, lists[upto].len() as int);
    let first = prefix_items(lists, calls, group_exprs, upto);
    let second = items_of(lists[upto], calls, group_exprs, lists[upto].len() as int);
    chosen_of_two_lists(first, second, key, call, second.len() as int);
}

/// The rest of what is chosen, after the first lists.
proof fn later_lists_follow(
    lists: Seq<Seq<BatchView>>,
    calls: Seq<CallView>,
    group_exprs: Seq<ExprView>,
    call: int,
    key: Seq<ScalarView>,
    low: int,
    high: int,
)
    requires
        0 <= low <= high <= lists.len(),
    ensures
        prefix_chosen(lists, calls, group_exprs, call, key, low).len() <= prefix_chosen(
            lists,
            calls,
            group_exprs,
            call,
            key,
            high,
        ).len(),
        prefix_chosen(lists, calls, group_exprs, call, key, low) == prefix_chosen(
            lists,
            calls,
            group_exprs,
            call,
            key,
            high,
        ).take(prefix_chosen(lists, calls, group_exprs, call, key, low).len() as int),
        prefix_items(lists, calls, group_exprs, low).len() <= prefix_items(
            lists,
            calls,
            group_exprs,
            high,
        ).len(),
    decreases high - low,
{
    let first = prefix_chosen(lists, calls, group_exprs, call, key, low);
    if low < high {
        later_lists_follow(lists, calls, group_exprs, call, key, low, high - 1);
        a_list_more(lists, calls, group_exprs, call, key, high - 1);
        let longer = prefix_chosen(lists, calls, group_exprs, call, key, high);
        assert(longer.take(first.len() as int) =~= first);
    } else {
        assert(first.take(first.len() as int) =~= first);
    }
}

/// What is known of the lists of a spread aggregation.
pub open spec fn lists_fit(
    lists: Seq<Seq<BatchView>>,
    calls: Seq<CallView>,
    partial: Seq<CallView>,
    group_exprs: Seq<ExprView>,
) -> bool {
    &&& forall|i: int|
        0 <= i < lists.len() ==> {
            let items = items_of(#[trigger] lists[i], partial, group_exprs, lists[i].len() as int);
            &&& all_computed(lists[i], calls, group_exprs)
            &&& all_computed(lists[i], partial, group_exprs)
            &&& are_groups_of(
                part_of(lists[i], partial, group_exprs),
                items,
                partial,
                group_exprs.len() == 0,
                items.len() as int,
            )
        }
    &&& forall|a: int|
        0 <= a < calls.len() ==> are_partial_calls(#[trigger] calls[a], partial, offset(calls, a))
}

/// What a partition gives for a key: a group where the key occurs, and else nothing to choose.
proof fn a_part_gives(
    lists: Seq<Seq<BatchView>>,
    calls: Seq<CallView>,
    partial: Seq<CallView>,
    group_exprs: Seq<ExprView>,
    a: int,
    key: Seq<ScalarView>,
    i: int,
)
    requires
        lists_fit(lists, calls, partial, group_exprs),
        0 <= i < lists.len(),
        0 <= a < calls.len(),
        calls[a].function != AggregateFunction::Avg,
    ensures
        ({
            let part = part_of(lists[i], partial, group_exprs);
            let place = group_place(part, key, 0);
            let items = items_of(lists[i], calls, group_exprs, lists[i].len() as int);
            let values = chosen(items, key, a, items.len() as int);
            if place < part.len() {
                &&& folded(
                    StateView::fresh(calls[a].function, calls[a].distinct),
                    values,
                    values.len() as int,
                ) is Ok
                &&& result_at(part[place], offset(calls, a)) == folded(
                    StateView::fresh(calls[a].function, calls[a].distinct),
                    values,
                    values.len() as int,
                )->Ok_0.finished()
            } else {
                values == Seq::<ScalarView>::empty()
            }
        }),
{
    let rows = lists[i];
    let part = part_of(rows, partial, group_exprs);
    let place = group_place(part, key, 0);
    let at = offset(calls, a);
    assert(are_partial_calls(calls[a], partial, at));
    let items = items_of(rows, calls, group_exprs, rows.len() as int);
    let others = items_of(rows, partial, group_exprs, rows.len() as int);
    assert(all_computed(lists[i], calls, group_exprs));
    group_place_is_within(part, key, 0);
    calls_choose_alike(rows, calls, partial, group_exprs, a, at, key);
    if place < part.len() {
        assert(is_group_of(part[place], others, partial, others.len() as int));
        assert(part[place].key == key);
        let state = part[place].states[at];
    } else {
        if occurs(items, key, items.len() as int) {
            assert(occurs(others, key, others.len() as int));
            let k = choose|k: int| 0 <= k < others.len() && (#[trigger] others[k]).key == key;
            assert(has_key(part, others[k].key));
            let g = choose|g: int| 0 <= g < part.len() && (#[trigger] part[g]).key == key;
            assert(part[g].key != key);
        }
        what_does_not_occur_is_not_chosen(items, key, a, items.len() as int);
    }
}

/// Counts of partitions that are merged count what is there in all of them.
pub(crate) proof fn counts_come_together(
    lists: Seq<Seq<BatchView>>,
    calls: Seq<CallView>,
    partial: Seq<CallView>,
    group_exprs: Seq<ExprView>,
    a: int,
    key: Seq<ScalarView>,
    upto: int,
)
    requires
        lists_fit(lists, calls, partial, group_exprs),
        0 <= upto <= lists.len(),
        0 <= a < calls.len(),
        calls[a].function == AggregateFunction::Count,
        !calls[a].distinct,
        prefix_items(lists, calls, group_exprs, lists.len() as int).len() <= u64::MAX,
    ensures
        ({
            let values = prefix_chosen(lists, calls, group_exprs, a, key, upto);
            &&& present(values, values.len() as int) <= u64::MAX
            &&& merge_value(calls, parts_of(lists, partial, group_exprs), a, key, upto)
                == MergeView::Count(present(values, values.len() as int) as u64)
        }),
    decreases upto,
{
    let parts = parts_of(lists, partial, group_exprs);
    let values = prefix_chosen(lists, calls, group_exprs, a, key, upto);
    let items = prefix_items(lists, calls, group_exprs, upto);
    later_lists_follow(lists, calls, group_exprs, a, key, upto, lists.len() as int);
    chosen_are_items(items, key, a, items.len() as int);
    present_is_bounded(values, values.len() as int);
    if upto > 0 {
        counts_come_together(lists, calls, partial, group_exprs, a, key, upto - 1);
        a_list_more(lists, calls, group_exprs, a, key, upto - 1);
        a_part_gives(lists, calls, partial, group_exprs, a, key, upto - 1);
        let before = prefix_chosen(lists, calls, group_exprs, a, key, upto - 1);
        let list = lists[upto - 1];
        let own = items_of(list, calls, group_exprs, list.len() as int);
        let more = chosen(own, key, a, own.len() as int);
        present_splits(before, more, more.len() as int);
        count_counts_what_is_present(more, more.len() as int);
    }
}

/// Extremes of partitions that are merged are those of all of them.
pub(crate) proof fn extremes_come_together(
    lists: Seq<Seq<BatchView>>,
    calls: Seq<CallView>,
    partial: Seq<CallView>,
    group_exprs: Seq<ExprView>,
    a: int,
    key: Seq<ScalarView>,
    wanted: Relation,
    upto: int,
)
    requires
        lists_fit(lists, calls, partial, group_exprs),
        0 <= upto <= lists.len(),
        0 <= a < calls.len(),
        wanted == Relation::Less || wanted == Relation::Greater,
        calls[a].function == extreme_function(wanted),
        !calls[a].distinct,
        of_one_type(
            prefix_chosen(lists, calls, group_exprs, a, key, lists.len() as int),
        ),
        folded(
            StateView::fresh(extreme_function(wanted), false),
            prefix_chosen(lists, calls, group_exprs, a, key, lists.len() as int),
            prefix_chosen(lists, calls, group_exprs, a, key, lists.len() as int).len() as int,
        ) is Ok,
    ensures
        ({
            let values = prefix_chosen(lists, calls, group_exprs, a, key, upto);
            &&& of_one_type(values)
            &&& folded(
                StateView::fresh(extreme_function(wanted), false),
                values,
                values.len() as int,
            ) is Ok
            &&& merge_value(calls, parts_of(lists, partial, group_exprs), a, key, upto) == (
            if wanted == Relation::Less {
                MergeView::Min(extreme_of(values, wanted, values.len() as int))
            } else {
                MergeView::Max(extreme_of(values, wanted, values.len() as int))
            })
        }),
    decreases upto,
{
    let fresh = StateView::fresh(extreme_function(wanted), false);
    let all = prefix_chosen(lists, calls, group_exprs, a, key, lists.len() as int);
    let values = prefix_chosen(lists, calls, group_exprs, a, key, upto);
    later_lists_follow(lists, calls, group_exprs, a, key, upto, lists.len() as int);
    assert(of_one_type(values)) by {
        assert forall|i: int, j: int|
            0 <= i < values.len() && 0 <= j < values.len() && !(values[i] is Null) && !(
            values[j] is Null) implies (#[trigger] values[i]).data_type() == (
        #[trigger] values[j]).data_type() by {
            assert(all[i] == values[i] && all[j] == values[j]);
        }
    }
    let rest = all.skip(values.len() as int);
    assert(values + rest =~= all);
    crate::distributed::partials::folding_a_prefix(fresh, values, rest);
    if upto > 0 {
        extremes_come_together(lists, calls, partial, group_exprs, a, key, wanted, upto - 1);
        a_list_more(lists, calls, group_exprs, a, key, upto - 1);
        a_part_gives(lists, calls, partial, group_exprs, a, key, upto - 1);
        let before = prefix_chosen(lists, calls, group_exprs, a, key, upto - 1);
        let list = lists[upto - 1];
        let own = items_of(list, calls, group_exprs, list.len() as int);
        let more = chosen(own, key, a, own.len() as int);
        assert(values == before + more);
        if group_place(part_of(list, partial, group_exprs), key, 0) < part_of(
            list,
            partial,
            group_exprs,
        ).len() {
            extremes_join(before, more, wanted);
            assert(of_one_type(more)) by {
                assert forall|i: int, j: int|
                    0 <= i < more.len() && 0 <= j < more.len() && !(more[i] is Null) && !(
                    more[j] is Null) implies (#[trigger] more[i]).data_type() == (
                #[trigger] more[j]).data_type() by {
                    assert(values[before.len() + i] == more[i]);
                    assert(values[before.len() + j] == more[j]);
                }
            }
            extremes_are_values(more, wanted, more.len() as int);
        } else {
            assert(values =~= before);
        }
    } else {
        assert(values =~= Seq::<ScalarView>::empty());
    }
}

// ---- the rows of the results

/// The keys of the rows of a batch, which stand in its first columns.
pub open spec fn result_keys(batch: BatchView, count: nat) -> Seq<Seq<ColumnView>> {
    Seq::new(batch.rows, |r: int| row_of(batch.columns.take(count as int), r))
}

proof fn gathering_is_by_group(
    groups: Seq<MergeGroupView>,
    place: int,
    data_type: DataTypeView,
    upto: int,
)
    requires
        0 <= upto <= groups.len(),
        !(data_type is Other),
        forall|g: int|
            0 <= g < groups.len() ==> (#[trigger] groups[g]).row[place].data_type() == data_type
                && groups[g].row[place].len() == 1,
    ensures
        gathered_keys(groups, place, data_type, upto).data_type() == data_type,
        gathered_keys(groups, place, data_type, upto).len() == upto,
        forall|g: int|
            0 <= g < upto ==> #[trigger] gathered_keys(groups, place, data_type, upto).cell(g)
                == groups[g].row[place].cell(0),
    decreases upto,
{
    if upto > 0 {
        gathering_is_by_group(groups, place, data_type, upto - 1);
        let before = gathered_keys(groups, place, data_type, upto - 1);
        let more = groups[upto - 1].row[place];
        let all = before.joined(more);
        assert(groups[upto - 1].row[place].data_type() == data_type);
        assert(all.len() == upto);
        assert forall|g: int| 0 <= g < upto implies #[trigger] all.cell(g)
            == groups[g].row[place].cell(0) by {
            if g < upto - 1 {
                assert(all.cell(g) == before.cell(g));
            } else {
                assert(all.cell(g) == more.cell(0));
            }
        }
    }
}

proof fn values_are_by_call(
    groups: Seq<MergeGroupView>,
    fields: Seq<FieldView>,
    group_count: nat,
    upto: int,
)
    requires
        0 <= upto,
    ensures
        value_columns(groups, fields, group_count, upto) matches Ok(columns) ==> {
            &&& columns.len() == group_count + upto
            &&& forall|j: int|
                0 <= j < group_count ==> #[trigger] columns[j] == gathered_keys(
                    groups,
                    j,
                    fields[j].data_type,
                    groups.len() as int,
                )
            &&& forall|a: int|
                0 <= a < upto ==> column_of(
                    finished_merges(groups, a),
                    fields[group_count + a].data_type,
                ) == Ok::<ColumnView, ErrorView>(#[trigger] columns[group_count + a])
        },
    decreases upto,
{
    if upto > 0 {
        values_are_by_call(groups, fields, group_count, upto - 1);
        if let Ok(columns) = value_columns(groups, fields, group_count, upto) {
            let before = value_columns(groups, fields, group_count, upto - 1)->Ok_0;
            assert forall|a: int| 0 <= a < upto implies column_of(
                finished_merges(groups, a),
                fields[group_count + a].data_type,
            ) == Ok::<ColumnView, ErrorView>(#[trigger] columns[group_count + a]) by {
                if a < upto - 1 {
                    assert(columns[group_count + a] == before[group_count + a]);
                }
            }
            assert forall|j: int| 0 <= j < group_count implies #[trigger] columns[j]
                == gathered_keys(groups, j, fields[j].data_type, groups.len() as int) by {
                assert(columns[j] == before[j]);
            }
        }
    }
}

/// Whether a batch holds merged groups: the key of each, and what its states come to.
pub open spec fn holds_merged(
    batch: BatchView,
    groups: Seq<MergeGroupView>,
    schema: SchemaView,
    group_count: nat,
) -> bool {
    &&& batch.rows == groups.len()
    &&& batch.columns.len() == schema.fields.len()
    &&& forall|g: int, j: int|
        #![trigger batch.columns[j].taken(seq![g])]
        0 <= g < groups.len() && 0 <= j < schema.fields.len() ==> batch.columns[j].taken(seq![g])
            == (if j < group_count {
            groups[g].row[j]
        } else {
            written(groups[g].states[j - group_count].finished(), schema.fields[j].data_type)
        })
}

/// What merging gives holds the merged groups.
pub(crate) proof fn merging_holds_groups(
    partials: Seq<BatchView>,
    aggregates: Seq<ExprView>,
    calls: Seq<CallView>,
    schema: SchemaView,
    group_count: nat,
    memory: MemoryView,
    batch: BatchView,
    parts: Seq<Seq<GroupView>>,
    fields: Seq<FieldView>,
)
    requires
        calls_of(aggregates, aggregates.len() as int) == Ok::<Seq<CallView>, ErrorView>(calls),
        schema.fields.len() == group_count + aggregates.len(),
        schema.fields.len() > 0,
        merged(partials, group_count, aggregates, schema, memory) == Ok::<BatchView, ErrorView>(
            batch,
        ),
        partials.len() == parts.len(),
        forall|j: int|
            0 <= j < group_count ==> !((#[trigger] schema.fields[j]).data_type is Other),
        forall|i: int|
            0 <= i < partials.len() ==> holds_part(
                #[trigger] partials[i],
                parts[i],
                calls,
                first_types(schema, group_count),
                fields,
            ),
    ensures
        ({
            let table = batches_merged(
                partials,
                calls,
                key_types(schema.fields, group_count),
                memory,
                partials.len() as int,
            )->Ok_0;
            let groups = merge_sorted(table.groups, table.groups.len() as int);
            &&& are_merged_groups(
                groups,
                parts,
                calls,
                first_types(schema, group_count),
                group_count == 0,
                parts.len() as int,
                0,
            )
            &&& holds_merged(batch, groups, schema, group_count)
        }),
{
    let types = first_types(schema, group_count);
    assert(key_types(schema.fields, group_count) =~= types);
    let table = batches_merged(partials, calls, types, memory, partials.len() as int)->Ok_0;
    let groups = merge_sorted(table.groups, table.groups.len() as int);
    let all = parts.len() as int;
    let whole = group_count == 0;
    batches_are_merged(partials, parts, calls, types, fields, memory, partials.len() as int);
    sorted_merged_groups(table.groups, parts, calls, types, whole);
    values_are_by_call(groups, schema.fields, group_count, aggregates.len() as int);
    let columns = batch.columns;
    calls_are_by_expr(aggregates, aggregates.len() as int);
    assert forall|j: int| 0 <= j < group_count implies {
        &&& (#[trigger] columns[j]).len() == groups.len()
        &&& forall|g: int|
            0 <= g < groups.len() ==> #[trigger] columns[j].taken(seq![g]) == groups[g].row[j]
    } by {
        let t = schema.fields[j].data_type;
        assert forall|g: int| 0 <= g < groups.len() implies (
        #[trigger] groups[g]).row[j].data_type() == t && groups[g].row[j].len() == 1 by {
            assert(is_merged_group(groups[g], parts, calls, types, whole, all, 0));
            let key = read_key(groups[g].row);
            assert(groups[g].row[j] == written(key[j], types[j]));
            assert(is_kept(key[j], types[j]));
            writing_is_by_value(seq![key[j]], types[j]);
        }
        gathering_is_by_group(groups, j, t, groups.len() as int);
        assert forall|g: int| 0 <= g < groups.len() implies #[trigger] columns[j].taken(seq![g])
            == groups[g].row[j] by {
            assert(groups[g].row[j].data_type() == t);
            assert(columns[j].cell(g) == groups[g].row[j].cell(0));
            assert(columns[j].taken(seq![g]).cell(0) == columns[j].cell(g));
            cells_make_a_column(columns[j].taken(seq![g]), groups[g].row[j]);
        }
    }
    assert forall|a: int| 0 <= a < aggregates.len() implies {
        &&& (#[trigger] columns[group_count + a]).len() == groups.len()
        &&& forall|g: int|
            0 <= g < groups.len() ==> #[trigger] columns[group_count + a].taken(seq![g])
                == written(
                groups[g].states[a].finished(),
                schema.fields[group_count + a].data_type,
            )
    } by {
        let values = finished_merges(groups, a);
        let t = schema.fields[group_count + a].data_type;
        writing_is_by_value(values, t);
        assert forall|g: int| 0 <= g < groups.len() implies #[trigger] columns[group_count
            + a].taken(seq![g]) == written(groups[g].states[a].finished(), t) by {
            assert(values[g] == groups[g].states[a].finished());
        }
    }
    assert(columns[0].len() == groups.len()) by {
        if group_count == 0 {
            assert(columns[group_count + 0int].len() == groups.len());
        }
    }
    assert forall|g: int, j: int|
        #![trigger batch.columns[j].taken(seq![g])]
        0 <= g < groups.len() && 0 <= j < schema.fields.len() implies batch.columns[j].taken(
        seq![g],
    ) == (if j < group_count {
        groups[g].row[j]
    } else {
        written(groups[g].states[j - group_count].finished(), schema.fields[j].data_type)
    }) by {
        if j >= group_count {
            let a = j - group_count;
            assert(columns[group_count + a] == columns[j]);
        }
    }
}

} // verus!

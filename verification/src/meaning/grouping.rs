//! What grouping gives.

use crate::batch::BatchView;
use crate::cells::cell_value;
use crate::column::ColumnView;
use crate::distributed::groups::{
    are_groups_of, batch_items, chosen, groups_are_of_items, has_key, is_group_of, item_of,
    items_of, occurs, sorted_groups_are_of_items, ItemView,
};
use crate::distributed::partials::items_are_rows;
use crate::error::ErrorView;
use crate::execution::aggregate::{
    aggregated, arguments_of, calls_of, fed, given_value, group_place, group_rows, grouped,
    keys_relation, place_after, rows_grouped, sorted_groups, with_group, CallView, GroupView,
};
use crate::execution::concat::total_rows;
use crate::execution::rows::{batch_of_rows, computed, row_values};
use crate::execution::run::{produces, runs, Trace};
use crate::execution::state::StateView;
use crate::expr::ExprView;
use crate::meaning::aggregation::{is_run, what_is_folded_is_a_run};
use crate::meaning::joining::{a_row_is_read, are_of_row, place_in};
use crate::meaning::values::{alike, smaller, smaller_is_transitive, values_compare_by_what_they_are};
use crate::physical::PhysicalView;
use crate::scalar::ScalarView;
use crate::table::NamedTableView;
use crate::text::Relation;
use crate::types::SchemaView;
use vstd::prelude::*;

verus! {

// ---- calls

/// Whether a call is what an aggregate expression says, whatever it is called.
pub open spec fn is_call(call: CallView, expr: ExprView) -> bool {
    let aggregate = if expr is Alias {
        *expr->Alias_0
    } else {
        expr
    };
    &&& aggregate is Aggregate
    &&& call.function == aggregate->Aggregate_function
    &&& call.expr == *aggregate->Aggregate_expr
    &&& call.distinct == aggregate->Aggregate_distinct
}

proof fn calls_are_what_they_say(exprs: Seq<ExprView>, upto: int)
    requires
        0 <= upto <= exprs.len(),
    ensures
        calls_of(exprs, upto) matches Ok(calls) ==> calls.len() == upto && forall|c: int|
            0 <= c < upto ==> is_call(#[trigger] calls[c], exprs[c]),
    decreases upto,
{
    if upto > 0 {
        calls_are_what_they_say(exprs, upto - 1);
    }
}

/// Whether a value is what a row gives to a call: the value of its argument, and for a star something
/// that is not NULL.
pub open spec fn is_given(
    value: ScalarView,
    call: CallView,
    batch: BatchView,
    row: int,
) -> bool {
    if call.expr is Wildcard {
        value == ScalarView::Boolean(true)
    } else {
        call.expr.value(batch) is Ok && cell_value(call.expr.value(batch)->Ok_0, row) == Ok::<
            ScalarView,
            ErrorView,
        >(value)
    }
}

// ---- rows

/// Whether values are what some expressions come to in a row.
pub open spec fn is_key(
    key: Seq<ScalarView>,
    batch: BatchView,
    exprs: Seq<ExprView>,
    row: int,
) -> bool {
    &&& key.len() == exprs.len()
    &&& forall|k: int|
        0 <= k < exprs.len() ==> (#[trigger] exprs[k]).value(batch) is Ok && cell_value(
            exprs[k].value(batch)->Ok_0,
            row,
        ) == Ok::<ScalarView, ErrorView>(key[k])
}

/// Whether an item is what a row gives: its key, and a value to each call.
pub open spec fn is_item(
    item: ItemView,
    batch: BatchView,
    calls: Seq<CallView>,
    exprs: Seq<ExprView>,
    row: int,
) -> bool {
    &&& is_key(item.key, batch, exprs, row)
    &&& item.values.len() == calls.len()
    &&& forall|c: int|
        0 <= c < calls.len() ==> is_given(#[trigger] item.values[c], calls[c], batch, row)
}

proof fn feeding_reads(
    states: Seq<StateView>,
    arguments: Seq<Option<ColumnView>>,
    row: int,
    upto: int,
)
    requires
        0 <= upto <= states.len(),
    ensures
        fed(states, arguments, row, upto) matches Ok(next) ==> next.len() == states.len() && forall|
            c: int,
        |
            0 <= c < upto ==> given_value(#[trigger] arguments[c], row) is Ok,
    decreases upto,
{
    if upto > 0 {
        feeding_reads(states, arguments, row, upto - 1);
    }
}

pub open spec fn all_have(groups: Seq<GroupView>, count: nat) -> bool {
    forall|g: int| 0 <= g < groups.len() ==> (#[trigger] groups[g]).states.len() == count
}

pub open spec fn is_readable(
    keys: Seq<ColumnView>,
    arguments: Seq<Option<ColumnView>>,
    row: int,
) -> bool {
    &&& row_values(keys, row, keys.len() as int) is Ok
    &&& forall|c: int|
        0 <= c < arguments.len() ==> given_value(#[trigger] arguments[c], row) is Ok
}

proof fn rows_are_readable(
    groups: Seq<GroupView>,
    calls: Seq<CallView>,
    keys: Seq<ColumnView>,
    arguments: Seq<Option<ColumnView>>,
    upto: int,
)
    requires
        all_have(groups, calls.len()),
        arguments.len() == calls.len(),
    ensures
        rows_grouped(groups, calls, keys, arguments, upto) matches Ok(next) ==> all_have(
            next,
            calls.len(),
        ) && forall|row: int|
            0 <= row < upto ==> #[trigger] is_readable(keys, arguments, row),
    decreases upto,
{
    if upto > 0 {
        rows_are_readable(groups, calls, keys, arguments, upto - 1);
        if let Ok(next) = rows_grouped(groups, calls, keys, arguments, upto) {
            let before = rows_grouped(groups, calls, keys, arguments, upto - 1)->Ok_0;
            let key = row_values(keys, upto - 1, keys.len() as int)->Ok_0;
            let place = group_place(before, key, 0);
            crate::execution::aggregate::group_place_is_within(before, key, 0);
            let ready = with_group(before, calls, key);
            assert(all_have(ready, calls.len()));
            let states = ready[place].states;
            assert(states.len() == calls.len());
            feeding_reads(states, arguments, upto - 1, states.len() as int);
            assert(is_readable(keys, arguments, upto - 1));
        }
    }
}

proof fn arguments_are_as_many(calls: Seq<CallView>, batch: BatchView, upto: int)
    requires
        0 <= upto <= calls.len(),
    ensures
        arguments_of(calls, batch, upto) matches Ok(arguments) ==> arguments.len() == upto
            && forall|c: int|
            0 <= c < upto ==> match calls[c].expr {
                ExprView::Wildcard => (#[trigger] arguments[c]) is None,
                expr => arguments[c] is Some && expr.value(batch) == Ok::<ColumnView, ErrorView>(
                    arguments[c]->Some_0,
                ),
            },
    decreases upto,
{
    if upto > 0 {
        arguments_are_as_many(calls, batch, upto - 1);
    }
}

/// Every row of what is grouped gives an item.
proof fn rows_give_items(
    batches: Seq<BatchView>,
    calls: Seq<CallView>,
    exprs: Seq<ExprView>,
    upto: int,
    b: int,
    r: int,
)
    requires
        0 <= b < upto <= batches.len(),
        0 <= r < batches[b].rows,
        grouped(batches, calls, exprs, upto) is Ok,
    ensures
        is_item(
            items_of(batches, calls, exprs, upto)[place_in(batches, b, r)],
            batches[b],
            calls,
            exprs,
            r,
        ),
        0 <= place_in(batches, b, r) < total_rows(batches, upto),
    decreases upto,
{
    let at = upto - 1;
    let before = items_of(batches, calls, exprs, at);
    items_are_rows(batches, calls, exprs, at);
    crate::execution::concat::total_rows_grow(batches, 0, b);
    if b < at {
        rows_give_items(batches, calls, exprs, at, b, r);
    } else {
        groups_have_states(batches, calls, exprs, at);
        let groups = grouped(batches, calls, exprs, at)->Ok_0;
        let keys = computed(exprs, batches[b], exprs.len() as int)->Ok_0;
        let arguments = arguments_of(calls, batches[b], calls.len() as int)->Ok_0;
        arguments_are_as_many(calls, batches[b], calls.len() as int);
        rows_are_readable(groups, calls, keys, arguments, batches[b].rows as int);
        assert(is_readable(keys, arguments, r));
        let item = items_of(batches, calls, exprs, upto)[place_in(batches, b, r)];
        assert(item == batch_items(batches[b], calls, exprs)[r]);
        assert(item == item_of(keys, arguments, r));
        crate::distributed::laws::computing_is_by_expr(exprs, batches[b], exprs.len() as int);
        a_row_is_read(keys, r, keys.len() as int);
        assert(keys.take(keys.len() as int) =~= keys);
        assert(are_of_row(item.key, keys, r));
        assert forall|k: int| 0 <= k < exprs.len() implies (#[trigger] exprs[k]).value(
            batches[b],
        ) is Ok && cell_value(exprs[k].value(batches[b])->Ok_0, r) == Ok::<ScalarView, ErrorView>(
            item.key[k],
        ) by {
            assert(exprs[k].value(batches[b]) == Ok::<ColumnView, ErrorView>(keys[k]));
            assert(cell_value(keys[k], r) == Ok::<ScalarView, ErrorView>(item.key[k]));
        }
        assert forall|c: int| 0 <= c < calls.len() implies is_given(
            #[trigger] item.values[c],
            calls[c],
            batches[b],
            r,
        ) by {
            assert(given_value(arguments[c], r) is Ok);
        }
    }
}

proof fn groups_have_states(
    batches: Seq<BatchView>,
    calls: Seq<CallView>,
    exprs: Seq<ExprView>,
    upto: int,
)
    requires
        0 <= upto <= batches.len(),
    ensures
        grouped(batches, calls, exprs, upto) matches Ok(groups) ==> all_have(groups, calls.len()),
    decreases upto,
{
    if upto > 0 {
        groups_have_states(batches, calls, exprs, upto - 1);
        if let Ok(groups) = grouped(batches, calls, exprs, upto) {
            let before = grouped(batches, calls, exprs, upto - 1)->Ok_0;
            let batch = batches[upto - 1];
            let keys = computed(exprs, batch, exprs.len() as int)->Ok_0;
            let arguments = arguments_of(calls, batch, calls.len() as int)->Ok_0;
            arguments_are_as_many(calls, batch, calls.len() as int);
            rows_are_readable(before, calls, keys, arguments, batch.rows as int);
        }
    }
}

proof fn every_place_is_of_a_row(batches: Seq<BatchView>, at: int, upto: int) -> (place: (int, int))
    requires
        0 <= upto <= batches.len(),
        0 <= at < total_rows(batches, upto),
    ensures
        0 <= place.0 < upto,
        0 <= place.1 < batches[place.0].rows,
        place_in(batches, place.0, place.1) == at,
    decreases upto,
{
    if at < total_rows(batches, upto - 1) {
        every_place_is_of_a_row(batches, at, upto - 1)
    } else {
        (upto - 1, at - total_rows(batches, upto - 1))
    }
}

// ---- groups

/// Whether values are what the rows with a key give to a call, from the first row to the last, where
/// places are those of the rows among all rows.
pub open spec fn are_given(
    values: Seq<ScalarView>,
    places: Seq<int>,
    batches: Seq<BatchView>,
    exprs: Seq<ExprView>,
    key: Seq<ScalarView>,
    call: CallView,
) -> bool {
    &&& values.len() == places.len()
    &&& forall|k: int, l: int|
        0 <= k < l < places.len() ==> #[trigger] places[k] < #[trigger] places[l]
    &&& forall|k: int|
        0 <= k < places.len() ==> is_given_at(
            #[trigger] values[k],
            places[k],
            batches,
            exprs,
            key,
            call,
        )
    &&& forall|b: int, r: int|
        0 <= b < batches.len() && 0 <= r < batches[b].rows && #[trigger] is_key(
            key,
            batches[b],
            exprs,
            r,
        ) ==> places.contains(place_in(batches, b, r))
}

/// Whether a value is what the row at a place gives to a call, and the row has a key.
pub open spec fn is_given_at(
    value: ScalarView,
    place: int,
    batches: Seq<BatchView>,
    exprs: Seq<ExprView>,
    key: Seq<ScalarView>,
    call: CallView,
) -> bool {
    exists|b: int, r: int|
        0 <= b < batches.len() && 0 <= r < batches[b].rows && place == place_in(batches, b, r)
            && #[trigger] is_key(key, batches[b], exprs, r) && is_given(value, call, batches[b], r)
}

proof fn what_is_chosen(
    items: Seq<ItemView>,
    key: Seq<ScalarView>,
    call: int,
    upto: int,
) -> (places: Seq<int>)
    requires
        0 <= upto <= items.len(),
    ensures
        ({
            let values = chosen(items, key, call, upto);
            &&& values.len() == places.len()
            &&& forall|k: int|
                0 <= k < places.len() ==> 0 <= #[trigger] places[k] < upto && items[places[k]].key
                    == key && values[k] == items[places[k]].values[call]
            &&& forall|k: int, l: int|
                0 <= k < l < places.len() ==> #[trigger] places[k] < #[trigger] places[l]
            &&& forall|i: int|
                0 <= i < upto && (#[trigger] items[i]).key == key ==> places.contains(i)
        }),
    decreases upto,
{
    if upto <= 0 {
        Seq::empty()
    } else {
        let before = what_is_chosen(items, key, call, upto - 1);
        let at = upto - 1;
        let places = if items[at].key == key {
            before.push(at)
        } else {
            before
        };
        let values = chosen(items, key, call, upto);
        assert forall|k: int| 0 <= k < places.len() implies 0 <= #[trigger] places[k] < upto
            && items[places[k]].key == key && values[k] == items[places[k]].values[call] by {
            if k < before.len() {
                assert(places[k] == before[k]);
            }
        }
        assert forall|k: int, l: int| 0 <= k < l < places.len() implies #[trigger] places[k]
            < #[trigger] places[l] by {
            assert(places[k] == before[k]);
            if l < before.len() {
                assert(places[l] == before[l]);
            }
        }
        assert forall|i: int| 0 <= i < upto && (#[trigger] items[i]).key == key implies places.contains(
            i,
        ) by {
            if i < at {
                assert(before.contains(i));
                let k = choose|k: int| 0 <= k < before.len() && before[k] == i;
                assert(places[k] == i);
            } else {
                assert(places[places.len() - 1] == i);
            }
        }
        places
    }
}

proof fn keys_are_unique(
    a: Seq<ScalarView>,
    b: Seq<ScalarView>,
    batch: BatchView,
    exprs: Seq<ExprView>,
    row: int,
)
    requires
        is_key(a, batch, exprs, row),
        is_key(b, batch, exprs, row),
    ensures
        a == b,
{
    assert forall|k: int| 0 <= k < a.len() implies a[k] == b[k] by {
        assert(exprs[k].value(batch) is Ok);
    }
    assert(a =~= b);
}

proof fn the_values_of_a_key(
    batches: Seq<BatchView>,
    calls: Seq<CallView>,
    exprs: Seq<ExprView>,
    key: Seq<ScalarView>,
    c: int,
) -> (places: Seq<int>)
    requires
        grouped(batches, calls, exprs, batches.len() as int) is Ok,
        0 <= c < calls.len(),
    ensures
        ({
            let items = items_of(batches, calls, exprs, batches.len() as int);
            are_given(
                chosen(items, key, c, items.len() as int),
                places,
                batches,
                exprs,
                key,
                calls[c],
            )
        }),
{
    let count = batches.len() as int;
    let items = items_of(batches, calls, exprs, count);
    items_are_rows(batches, calls, exprs, count);
    let places = what_is_chosen(items, key, c, items.len() as int);
    let values = chosen(items, key, c, items.len() as int);
    assert forall|k: int| 0 <= k < places.len() implies is_given_at(
        #[trigger] values[k],
        places[k],
        batches,
        exprs,
        key,
        calls[c],
    ) by {
        let (b, r) = every_place_is_of_a_row(batches, places[k], count);
        rows_give_items(batches, calls, exprs, count, b, r);
        assert(is_key(key, batches[b], exprs, r));
    }
    assert forall|b: int, r: int|
        0 <= b < batches.len() && 0 <= r < batches[b].rows && #[trigger] is_key(
            key,
            batches[b],
            exprs,
            r,
        ) implies places.contains(place_in(batches, b, r)) by {
        rows_give_items(batches, calls, exprs, count, b, r);
        let at = place_in(batches, b, r);
        keys_are_unique(key, items[at].key, batches[b], exprs, r);
    }
    places
}

/// Whether some group has the key of a row.
pub open spec fn has_its_group(
    groups: Seq<Seq<ScalarView>>,
    batch: BatchView,
    exprs: Seq<ExprView>,
    row: int,
) -> bool {
    exists|g: int| 0 <= g < groups.len() && is_key(#[trigger] groups[g], batch, exprs, row)
}

/// Whether a key is that of some row.
pub open spec fn is_of_some_row(
    key: Seq<ScalarView>,
    batches: Seq<BatchView>,
    exprs: Seq<ExprView>,
) -> bool {
    exists|b: int, r: int|
        0 <= b < batches.len() && 0 <= r < batches[b].rows && #[trigger] is_key(
            key,
            batches[b],
            exprs,
            r,
        )
}

/// Whether keys are those of the groups of some rows: no two are the same, each is that of some row,
/// and each row has one of them. Without group expressions there is one group, of all rows.
pub open spec fn are_the_keys(
    keys: Seq<Seq<ScalarView>>,
    batches: Seq<BatchView>,
    exprs: Seq<ExprView>,
) -> bool {
    &&& forall|g: int, h: int| 0 <= g < h < keys.len() ==> #[trigger] keys[g] != #[trigger] keys[h]
    &&& forall|g: int|
        0 <= g < keys.len() ==> (#[trigger] keys[g]).len() == exprs.len() && (exprs.len() == 0
            || is_of_some_row(keys[g], batches, exprs))
    &&& forall|b: int, r: int|
        0 <= b < batches.len() && 0 <= r < batches[b].rows ==> #[trigger] has_its_group(
            keys,
            batches[b],
            exprs,
            r,
        )
    &&& exprs.len() == 0 ==> keys.len() == 1
}

/// Whether a value is what a call comes to over the rows with a key.
pub open spec fn is_aggregate_of(
    value: ScalarView,
    batches: Seq<BatchView>,
    exprs: Seq<ExprView>,
    key: Seq<ScalarView>,
    call: CallView,
) -> bool {
    exists|values: Seq<ScalarView>, places: Seq<int>, states: Seq<StateView>|
        #[trigger] are_given(values, places, batches, exprs, key, call) && #[trigger] is_run(
            call.function,
            call.distinct,
            values,
            states,
        ) && value == states.last().finished()
}

/// Whether a row is that of a group: its key, and then what each call comes to over the rows with the
/// key.
pub open spec fn is_row_of_group(
    row: Seq<ScalarView>,
    batches: Seq<BatchView>,
    exprs: Seq<ExprView>,
    key: Seq<ScalarView>,
    calls: Seq<CallView>,
) -> bool {
    &&& row.len() == exprs.len() + calls.len()
    &&& row.take(exprs.len() as int) == key
    &&& forall|c: int|
        0 <= c < calls.len() ==> is_aggregate_of(
            row[exprs.len() + c],
            batches,
            exprs,
            key,
            #[trigger] calls[c],
        )
}

/// Whether rows are those of the groups of some batches.
pub open spec fn are_rows_of_groups(
    rows: Seq<Seq<ScalarView>>,
    keys: Seq<Seq<ScalarView>>,
    calls: Seq<CallView>,
    batches: Seq<BatchView>,
    exprs: Seq<ExprView>,
    aggregates: Seq<ExprView>,
) -> bool {
    &&& calls.len() == aggregates.len()
    &&& forall|c: int| 0 <= c < calls.len() ==> is_call(#[trigger] calls[c], aggregates[c])
    &&& are_the_keys(keys, batches, exprs)
    &&& rows.len() == keys.len()
    &&& forall|g: int|
        0 <= g < rows.len() ==> is_row_of_group(
            #[trigger] rows[g],
            batches,
            exprs,
            keys[g],
            calls,
        )
}

proof fn groups_have_the_keys(
    batches: Seq<BatchView>,
    calls: Seq<CallView>,
    exprs: Seq<ExprView>,
    groups: Seq<GroupView>,
)
    requires
        grouped(batches, calls, exprs, batches.len() as int) is Ok,
        ({
            let items = items_of(batches, calls, exprs, batches.len() as int);
            are_groups_of(groups, items, calls, exprs.len() == 0, items.len() as int)
        }),
    ensures
        are_the_keys(Seq::new(groups.len(), |g: int| groups[g].key), batches, exprs),
{
    let count = batches.len() as int;
    let items = items_of(batches, calls, exprs, count);
    let keys = Seq::new(groups.len(), |g: int| groups[g].key);
    items_are_rows(batches, calls, exprs, count);
    assert forall|g: int, h: int| 0 <= g < h < keys.len() implies #[trigger] keys[g]
        != #[trigger] keys[h] by {
        assert(groups[g].key != groups[h].key);
    }
    assert forall|g: int| 0 <= g < keys.len() implies (#[trigger] keys[g]).len() == exprs.len() && (
    exprs.len() == 0 || is_of_some_row(keys[g], batches, exprs)) by {
        let key = groups[g].key;
        if occurs(items, key, items.len() as int) {
            let i = choose|i: int| 0 <= i < items.len() && (#[trigger] items[i]).key == key;
            let (b, r) = every_place_is_of_a_row(batches, i, count);
            rows_give_items(batches, calls, exprs, count, b, r);
            assert(is_key(key, batches[b], exprs, r));
        }
    }
    assert forall|b: int, r: int| 0 <= b < batches.len() && 0 <= r < batches[b].rows implies
        #[trigger] has_its_group(keys, batches[b], exprs, r) by {
        rows_give_items(batches, calls, exprs, count, b, r);
        let item = items[place_in(batches, b, r)];
        assert(has_key(groups, item.key));
        let g = choose|g: int| 0 <= g < groups.len() && (#[trigger] groups[g]).key == item.key;
        assert(keys[g] == item.key);
    }
    if exprs.len() == 0 {
        assert(has_key(groups, Seq::empty()));
        if keys.len() > 1 {
            assert(keys[0] =~= keys[1]);
        }
    }
}

/// Grouping gives one row for each key that occurs: the key, and what each aggregate comes to over the
/// rows that have the key, and over no others.
pub proof fn what_grouping_gives(
    batches: Seq<BatchView>,
    exprs: Seq<ExprView>,
    aggregates: Seq<ExprView>,
    schema: SchemaView,
    out: BatchView,
)
    requires
        aggregated(batches, exprs, aggregates, schema) == Ok::<BatchView, ErrorView>(out),
    ensures
        exists|rows: Seq<Seq<ScalarView>>, keys: Seq<Seq<ScalarView>>, calls: Seq<CallView>|
            #[trigger] are_rows_of_groups(rows, keys, calls, batches, exprs, aggregates)
                && batch_of_rows(rows, exprs.len() + aggregates.len(), schema) == Ok::<
                BatchView,
                ErrorView,
            >(out),
{
    let count = batches.len() as int;
    calls_are_what_they_say(aggregates, aggregates.len() as int);
    let calls = calls_of(aggregates, aggregates.len() as int)->Ok_0;
    let found = grouped(batches, calls, exprs, count)->Ok_0;
    let items = items_of(batches, calls, exprs, count);
    groups_are_of_items(batches, calls, exprs, count);
    sorted_groups_are_of_items(found, items, calls, exprs.len() == 0);
    let groups = sorted_groups(found, found.len() as int);
    let keys = Seq::new(groups.len(), |g: int| groups[g].key);
    let rows = group_rows(groups);
    groups_have_the_keys(batches, calls, exprs, groups);
    assert forall|g: int| 0 <= g < rows.len() implies is_row_of_group(
        #[trigger] rows[g],
        batches,
        exprs,
        keys[g],
        calls,
    ) by {
        let group = groups[g];
        assert(is_group_of(group, items, calls, items.len() as int));
        assert(keys[g].len() == exprs.len());
        assert(rows[g].take(exprs.len() as int) =~= keys[g]);
        assert forall|c: int| 0 <= c < calls.len() implies is_aggregate_of(
            rows[g][exprs.len() + c],
            batches,
            exprs,
            keys[g],
            #[trigger] calls[c],
        ) by {
            let values = chosen(items, group.key, c, items.len() as int);
            let places = the_values_of_a_key(batches, calls, exprs, group.key, c);
            assert(are_given(values, places, batches, exprs, keys[g], calls[c]));
            what_is_folded_is_a_run(
                calls[c].function,
                calls[c].distinct,
                values,
                group.states[c],
            );
            let states = choose|states: Seq<StateView>| #[trigger]
                is_run(calls[c].function, calls[c].distinct, values, states) && states.last()
                    == group.states[c];
            assert(is_run(calls[c].function, calls[c].distinct, values, states));
            assert(rows[g][exprs.len() + c] == states.last().finished());
        }
    }
    assert(are_rows_of_groups(rows, keys, calls, batches, exprs, aggregates));
}

/// An aggregation of a plan groups all rows of its input together.
pub proof fn an_aggregation_of_a_plan(
    plan: PhysicalView,
    tables: Seq<NamedTableView>,
    partition: Option<usize>,
    out: Seq<BatchView>,
)
    requires
        plan is HashAggregate,
        produces(plan, tables, partition, Ok(out)),
    ensures
        out.len() == 1,
        exists|input: Seq<BatchView>|
            {
                &&& #[trigger] produces(*plan->HashAggregate_input, tables, partition, Ok(input))
                &&& aggregated(
                    input,
                    plan->HashAggregate_group_exprs,
                    plan->HashAggregate_aggregate_exprs,
                    plan->HashAggregate_schema,
                ) == Ok::<BatchView, ErrorView>(out[0])
            },
{
    let trace = choose|trace: Trace| #[trigger]
        runs(plan, tables, partition, trace) && trace.result() == Ok::<Seq<BatchView>, ErrorView>(
            out,
        );
    let below = *trace->Step_input;
    let input = below.result()->Ok_0;
    assert(runs(*plan->HashAggregate_input, tables, partition, below));
    assert(produces(*plan->HashAggregate_input, tables, partition, Ok(input)));
}

// ---- the order of groups

/// Whether a value has to come before another: NULL before everything else, and the smaller first.
pub open spec fn is_lower(a: ScalarView, b: ScalarView) -> bool {
    a is Null && !(b is Null) || smaller(a, b)
}

/// Whether a key has to come before another: by the first place in which one of them is lower.
pub open spec fn key_is_lower(a: Seq<ScalarView>, b: Seq<ScalarView>) -> bool {
    exists|k: int|
        0 <= k < a.len() && k < b.len() && is_lower(#[trigger] a[k], b[k]) && forall|j: int|
            0 <= j < k ==> !is_lower(#[trigger] a[j], b[j]) && !is_lower(b[j], a[j])
}

/// Whether two keys can be compared: in each place they are of one type, or one is NULL.
pub open spec fn keys_fit(a: Seq<ScalarView>, b: Seq<ScalarView>) -> bool {
    a.len() == b.len() && forall|k: int|
        0 <= k < a.len() ==> (#[trigger] a[k]) is Null || b[k] is Null || alike(a[k], b[k])
}

proof fn keys_relate(a: Seq<ScalarView>, b: Seq<ScalarView>, from: int)
    requires
        keys_fit(a, b),
        0 <= from <= a.len(),
        forall|j: int| 0 <= j < from ==> !is_lower(#[trigger] a[j], b[j]) && !is_lower(b[j], a[j]),
    ensures
        key_is_lower(a, b) <==> keys_relation(a, b, from) == Relation::Less,
        key_is_lower(b, a) <==> keys_relation(a, b, from) == Relation::Greater,
    decreases a.len() - from,
{
    if from < a.len() {
        values_compare_by_what_they_are(a[from], b[from]);
        values_compare_by_what_they_are(b[from], a[from]);
        assert(a[from] is Null || b[from] is Null || alike(a[from], b[from]));
        if keys_relation(a, b, from) == keys_relation(a, b, from + 1) && a[from].compare(b[from])
            == Some(Relation::Same) {
            keys_relate(a, b, from + 1);
        } else {
            assert(is_lower(a[from], b[from]) != is_lower(b[from], a[from]));
            assert forall|j: int| 0 <= j < from implies !is_lower(#[trigger] b[j], a[j])
                && !is_lower(a[j], b[j]) by {
                assert(!is_lower(a[j], b[j]));
            }
            if key_is_lower(a, b) {
                let k = choose|k: int|
                    0 <= k < a.len() && k < b.len() && is_lower(#[trigger] a[k], b[k]) && forall|
                        j: int,
                    |
                        0 <= j < k ==> !is_lower(#[trigger] a[j], b[j]) && !is_lower(b[j], a[j]);
                if k < from {
                    assert(!is_lower(a[k], b[k]));
                } else if k > from {
                    assert(!is_lower(a[from], b[from]) && !is_lower(b[from], a[from]));
                }
            }
            if key_is_lower(b, a) {
                let k = choose|k: int|
                    0 <= k < b.len() && k < a.len() && is_lower(#[trigger] b[k], a[k]) && forall|
                        j: int,
                    |
                        0 <= j < k ==> !is_lower(#[trigger] b[j], a[j]) && !is_lower(a[j], b[j]);
                if k < from {
                    assert(!is_lower(a[k], b[k]));
                } else if k > from {
                    assert(!is_lower(b[from], a[from]) && !is_lower(a[from], b[from]));
                }
            }
        }
    } else {
        if key_is_lower(a, b) {
            let k = choose|k: int|
                0 <= k < a.len() && k < b.len() && is_lower(#[trigger] a[k], b[k]) && forall|j: int|
                    0 <= j < k ==> !is_lower(#[trigger] a[j], b[j]) && !is_lower(b[j], a[j]);
            assert(!is_lower(a[k], b[k]));
        }
        if key_is_lower(b, a) {
            let k = choose|k: int|
                0 <= k < b.len() && k < a.len() && is_lower(#[trigger] b[k], a[k]) && forall|j: int|
                    0 <= j < k ==> !is_lower(#[trigger] b[j], a[j]) && !is_lower(a[j], b[j]);
            assert(!is_lower(a[k], b[k]));
        }
    }
}

proof fn lower_values(a: ScalarView, b: ScalarView, c: ScalarView)
    requires
        a is Null || b is Null || alike(a, b),
        b is Null || c is Null || alike(b, c),
        a is Null || c is Null || alike(a, c),
        !is_lower(b, a),
        !is_lower(c, b),
    ensures
        !is_lower(c, a),
        is_lower(a, b) || is_lower(b, c) ==> is_lower(a, c),
{
    values_compare_by_what_they_are(a, b);
    values_compare_by_what_they_are(b, a);
    values_compare_by_what_they_are(b, c);
    values_compare_by_what_they_are(c, b);
    values_compare_by_what_they_are(a, c);
    values_compare_by_what_they_are(c, a);
    if smaller(c, a) {
        if smaller(a, b) {
            smaller_is_transitive(c, a, b);
        } else if smaller(b, c) {
            smaller_is_transitive(b, c, a);
        } else {
            texts_alike(a, b);
            texts_alike(b, c);
        }
    } else {
        if smaller(a, b) && smaller(b, c) {
            smaller_is_transitive(a, b, c);
        }
        texts_alike(a, b);
        texts_alike(b, c);
        texts_alike(a, c);
    }
}

/// Texts of which neither is smaller are the same.
proof fn texts_alike(a: ScalarView, b: ScalarView)
    ensures
        a is Utf8 && b is Utf8 && !smaller(a, b) && !smaller(b, a) ==> a == b,
{
    values_compare_by_what_they_are(a, b);
}

proof fn lower_keys(a: Seq<ScalarView>, b: Seq<ScalarView>, c: Seq<ScalarView>)
    requires
        keys_fit(a, b),
        keys_fit(b, c),
        keys_fit(a, c),
        key_is_lower(a, b),
        key_is_lower(b, c),
    ensures
        key_is_lower(a, c),
{
    let k = choose|k: int|
        0 <= k < a.len() && k < b.len() && is_lower(#[trigger] a[k], b[k]) && forall|j: int|
            0 <= j < k ==> !is_lower(#[trigger] a[j], b[j]) && !is_lower(b[j], a[j]);
    let l = choose|l: int|
        0 <= l < b.len() && l < c.len() && is_lower(#[trigger] b[l], c[l]) && forall|j: int|
            0 <= j < l ==> !is_lower(#[trigger] b[j], c[j]) && !is_lower(c[j], b[j]);
    let m = if k < l {
        k
    } else {
        l
    };
    assert forall|j: int| 0 <= j <= m implies !is_lower(#[trigger] b[j], a[j]) && !is_lower(
        c[j],
        b[j],
    ) by {
        values_compare_by_what_they_are(a[j], b[j]);
        values_compare_by_what_they_are(b[j], a[j]);
        values_compare_by_what_they_are(b[j], c[j]);
        values_compare_by_what_they_are(c[j], b[j]);
        assert(a[j] is Null || b[j] is Null || alike(a[j], b[j]));
        assert(b[j] is Null || c[j] is Null || alike(b[j], c[j]));
        if j < k {
            assert(!is_lower(a[j], b[j]) && !is_lower(b[j], a[j]));
        }
        if j < l {
            assert(!is_lower(b[j], c[j]) && !is_lower(c[j], b[j]));
        }
    }
    assert forall|j: int| 0 <= j < m implies !is_lower(#[trigger] a[j], c[j]) && !is_lower(
        c[j],
        a[j],
    ) by {
        assert(!is_lower(a[j], b[j]) && !is_lower(b[j], a[j]));
        assert(!is_lower(b[j], c[j]) && !is_lower(c[j], b[j]));
        assert(a[j] is Null || b[j] is Null || alike(a[j], b[j]));
        assert(b[j] is Null || c[j] is Null || alike(b[j], c[j]));
        assert(a[j] is Null || c[j] is Null || alike(a[j], c[j]));
        assert(alike(a[j], b[j]) ==> alike(b[j], a[j]));
        assert(alike(b[j], c[j]) ==> alike(c[j], b[j]));
        assert(alike(a[j], c[j]) ==> alike(c[j], a[j]));
        lower_values(a[j], b[j], c[j]);
        lower_values(c[j], b[j], a[j]);
    }
    assert(a[m] is Null || b[m] is Null || alike(a[m], b[m]));
    assert(b[m] is Null || c[m] is Null || alike(b[m], c[m]));
    assert(a[m] is Null || c[m] is Null || alike(a[m], c[m]));
    assert(!is_lower(b[m], a[m]) && !is_lower(c[m], b[m]));
    lower_values(a[m], b[m], c[m]);
    assert(is_lower(a[m], c[m]));
}

/// Whether no group stands behind one that it has to come before.
pub open spec fn groups_in_order(groups: Seq<GroupView>) -> bool {
    forall|i: int, j: int|
        0 <= i < j < groups.len() ==> !key_is_lower(
            (#[trigger] groups[j]).key,
            (#[trigger] groups[i]).key,
        )
}

/// Whether the keys of any two groups can be compared.
pub open spec fn all_fit(groups: Seq<GroupView>) -> bool {
    forall|i: int, j: int|
        0 <= i < groups.len() && 0 <= j < groups.len() ==> keys_fit(
            (#[trigger] groups[i]).key,
            (#[trigger] groups[j]).key,
        )
}

proof fn the_place_of_a_group(groups: Seq<GroupView>, key: Seq<ScalarView>, from: int)
    requires
        0 <= from <= groups.len(),
    ensures
        ({
            let place = place_after(groups, key, from);
            &&& from <= place <= groups.len()
            &&& forall|i: int|
                from <= i < place ==> keys_relation((#[trigger] groups[i]).key, key, 0)
                    != Relation::Greater
            &&& place < groups.len() ==> keys_relation(groups[place].key, key, 0)
                == Relation::Greater
        }),
    decreases groups.len() - from,
{
    if from < groups.len() {
        the_place_of_a_group(groups, key, from + 1);
    }
}

/// Groups come out in the order of their keys, with NULL first.
pub proof fn groups_come_in_order(groups: Seq<GroupView>, upto: int)
    requires
        0 <= upto <= groups.len(),
        all_fit(groups),
    ensures
        groups_in_order(sorted_groups(groups, upto)),
        sorted_groups(groups, upto).len() == upto,
        forall|i: int|
            0 <= i < upto ==> groups.contains(#[trigger] sorted_groups(groups, upto)[i]),
    decreases upto,
{
    if upto > 0 {
        groups_come_in_order(groups, upto - 1);
        let before = sorted_groups(groups, upto - 1);
        let group = groups[upto - 1];
        let place = place_after(before, group.key, 0);
        the_place_of_a_group(before, group.key, 0);
        let next = before.insert(place, group);
        assert(groups.contains(group));
        assert forall|i: int| 0 <= i < next.len() implies groups.contains(#[trigger] next[i]) by {
            if i < place {
                assert(next[i] == before[i]);
            } else if i > place {
                assert(next[i] == before[i - 1]);
            }
        }
        assert forall|i: int| 0 <= i < before.len() implies keys_fit(
            (#[trigger] before[i]).key,
            group.key,
        ) && keys_fit(group.key, before[i].key) by {
            let j = choose|j: int| 0 <= j < groups.len() && groups[j] == before[i];
            assert(keys_fit(groups[j].key, groups[upto - 1].key));
            assert(keys_fit(groups[upto - 1].key, groups[j].key));
        }
        assert forall|i: int, j: int| 0 <= i < j < next.len() implies !key_is_lower(
            (#[trigger] next[j]).key,
            (#[trigger] next[i]).key,
        ) by {
            if j == place {
                assert(next[i] == before[i]);
                keys_relate(before[i].key, group.key, 0);
            } else if i == place {
                let at = j - 1;
                assert(next[j] == before[at]);
                if key_is_lower(before[at].key, group.key) {
                    keys_relate(before[place].key, group.key, 0);
                    assert(key_is_lower(group.key, before[place].key));
                    let x = choose|x: int| 0 <= x < groups.len() && groups[x] == before[at];
                    let y = choose|y: int| 0 <= y < groups.len() && groups[y] == before[place];
                    assert(groups.contains(before[at]) && groups.contains(before[place]));
                    assert(keys_fit(groups[x].key, groups[y].key));
                    lower_keys(before[at].key, group.key, before[place].key);
                    if at == place {
                        nothing_is_lower_than_itself(before[at].key);
                    } else {
                        assert(!key_is_lower(before[at].key, before[place].key));
                    }
                }
            } else {
                let (x, y) = (
                    if i < place {
                        i
                    } else {
                        i - 1
                    },
                    if j < place {
                        j
                    } else {
                        j - 1
                    },
                );
                assert(next[i] == before[x]);
                assert(next[j] == before[y]);
            }
        }
    }
}

proof fn nothing_is_lower_than_itself(key: Seq<ScalarView>)
    ensures
        !key_is_lower(key, key),
{
    if key_is_lower(key, key) {
        let k = choose|k: int|
            0 <= k < key.len() && k < key.len() && is_lower(#[trigger] key[k], key[k]) && forall|
                j: int,
            |
                0 <= j < k ==> !is_lower(#[trigger] key[j], key[j]) && !is_lower(key[j], key[j]);
        values_compare_by_what_they_are(key[k], key[k]);
    }
}

} // verus!

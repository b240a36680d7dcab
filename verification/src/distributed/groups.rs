//! Groups as what the rows with each key make of them.

use crate::batch::BatchView;
use crate::column::ColumnView;
use crate::error::ErrorView;
use crate::execution::aggregate::{
    arguments_of, fed, given_value, group_place, group_place_is_within, grouped, place_after,
    place_after_is_within, row_grouped, rows_grouped, sorted_groups, with_group, CallView,
    GroupView,
};
use crate::execution::laws::{folded, keys_differ};
use crate::execution::rows::{computed, row_values};
use crate::execution::state::StateView;
use crate::expr::ExprView;
use crate::scalar::ScalarView;
use vstd::prelude::*;

verus! {

/// What a row gives to an aggregation: its key, and a value for each call.
pub struct ItemView {
    pub key: Seq<ScalarView>,
    pub values: Seq<ScalarView>,
}

/// What a row of columns gives.
pub open spec fn item_of(
    keys: Seq<ColumnView>,
    arguments: Seq<Option<ColumnView>>,
    row: int,
) -> ItemView {
    ItemView {
        key: row_values(keys, row, keys.len() as int)->Ok_0,
        values: Seq::new(arguments.len(), |c: int| given_value(arguments[c], row)->Ok_0),
    }
}

/// What the rows of a batch give.
pub open spec fn batch_items(
    batch: BatchView,
    calls: Seq<CallView>,
    group_exprs: Seq<ExprView>,
) -> Seq<ItemView> {
    let keys = computed(group_exprs, batch, group_exprs.len() as int)->Ok_0;
    let arguments = arguments_of(calls, batch, calls.len() as int)->Ok_0;
    Seq::new(batch.rows, |row: int| item_of(keys, arguments, row))
}

/// What the rows of the first `upto` batches give.
pub open spec fn items_of(
    batches: Seq<BatchView>,
    calls: Seq<CallView>,
    group_exprs: Seq<ExprView>,
    upto: int,
) -> Seq<ItemView>
    decreases upto,
{
    if upto <= 0 {
        Seq::empty()
    } else {
        items_of(batches, calls, group_exprs, upto - 1) + batch_items(
            batches[upto - 1],
            calls,
            group_exprs,
        )
    }
}

/// The values that the first `upto` items with a key give to a call.
pub open spec fn chosen(items: Seq<ItemView>, key: Seq<ScalarView>, call: int, upto: int) -> Seq<
    ScalarView,
>
    decreases upto,
{
    if upto <= 0 {
        Seq::empty()
    } else if items[upto - 1].key == key {
        chosen(items, key, call, upto - 1).push(items[upto - 1].values[call])
    } else {
        chosen(items, key, call, upto - 1)
    }
}

/// Whether one of the first `upto` items has a key.
pub open spec fn occurs(items: Seq<ItemView>, key: Seq<ScalarView>, upto: int) -> bool {
    exists|i: int| 0 <= i < upto && (#[trigger] items[i]).key == key
}

pub open spec fn has_key(groups: Seq<GroupView>, key: Seq<ScalarView>) -> bool {
    exists|g: int| 0 <= g < groups.len() && (#[trigger] groups[g]).key == key
}

/// Whether a group is what the first `upto` items with its key make of it.
pub open spec fn is_group_of(
    group: GroupView,
    items: Seq<ItemView>,
    calls: Seq<CallView>,
    upto: int,
) -> bool {
    &&& group.states.len() == calls.len()
    &&& forall|c: int|
        0 <= c < calls.len() ==> folded(
            StateView::fresh(calls[c].function, calls[c].distinct),
            chosen(items, group.key, c, upto),
            chosen(items, group.key, c, upto).len() as int,
        ) == Ok::<StateView, ErrorView>(#[trigger] group.states[c])
}

/// Whether groups are those of the first `upto` items: one for each key that occurs, and one for the
/// empty key in any case where there are no group expressions.
pub open spec fn are_groups_of(
    groups: Seq<GroupView>,
    items: Seq<ItemView>,
    calls: Seq<CallView>,
    whole: bool,
    upto: int,
) -> bool {
    &&& keys_differ(groups)
    &&& forall|g: int|
        0 <= g < groups.len() ==> is_group_of(#[trigger] groups[g], items, calls, upto)
    &&& forall|g: int|
        0 <= g < groups.len() ==> occurs(items, (#[trigger] groups[g]).key, upto) || (whole
            && groups[g].key.len() == 0)
    &&& forall|i: int| 0 <= i < upto ==> has_key(groups, (#[trigger] items[i]).key)
    &&& whole ==> has_key(groups, Seq::empty())
}

pub proof fn folded_of_prefix(state: StateView, a: Seq<ScalarView>, b: Seq<ScalarView>, upto: int)
    requires
        0 <= upto <= a.len(),
        upto <= b.len(),
        forall|i: int| 0 <= i < upto ==> a[i] == b[i],
    ensures
        folded(state, a, upto) == folded(state, b, upto),
    decreases upto,
{
    if upto > 0 {
        folded_of_prefix(state, a, b, upto - 1);
    }
}

proof fn feeding_is_by_call(
    states: Seq<StateView>,
    arguments: Seq<Option<ColumnView>>,
    row: int,
    upto: int,
)
    requires
        0 <= upto <= states.len(),
    ensures
        fed(states, arguments, row, upto) matches Ok(next) ==> {
            &&& next.len() == states.len()
            &&& forall|c: int|
                0 <= c < upto ==> given_value(arguments[c], row) is Ok && states[c].updated(
                    given_value(arguments[c], row)->Ok_0,
                ) == Ok::<StateView, ErrorView>(#[trigger] next[c])
            &&& forall|c: int| upto <= c < states.len() ==> #[trigger] next[c] == states[c]
        },
    decreases upto,
{
    if upto > 0 {
        feeding_is_by_call(states, arguments, row, upto - 1);
    }
}

proof fn a_row_joins_its_group(
    groups: Seq<GroupView>,
    calls: Seq<CallView>,
    keys: Seq<ColumnView>,
    arguments: Seq<Option<ColumnView>>,
    row: int,
    items: Seq<ItemView>,
    whole: bool,
    upto: int,
)
    requires
        0 <= upto < items.len(),
        items[upto] == item_of(keys, arguments, row),
        arguments.len() == calls.len(),
        are_groups_of(groups, items, calls, whole, upto),
    ensures
        row_grouped(groups, calls, keys, arguments, row) matches Ok(next) ==> are_groups_of(
            next,
            items,
            calls,
            whole,
            upto + 1,
        ),
{
    if let Ok(next) = row_grouped(groups, calls, keys, arguments, row) {
        let key = row_values(keys, row, keys.len() as int)->Ok_0;
        let place = group_place(groups, key, 0);
        let ready = with_group(groups, calls, key);
        group_place_is_within(groups, key, 0);
        assert(ready[place].key == key);
        assert(items[upto].key == key);
        assert(is_group_of(ready[place], items, calls, upto)) by {
            if place == groups.len() {
                assert forall|c: int| 0 <= c < calls.len() implies folded(
                    StateView::fresh(calls[c].function, calls[c].distinct),
                    chosen(items, key, c, upto),
                    chosen(items, key, c, upto).len() as int,
                ) == Ok::<StateView, ErrorView>(#[trigger] ready[place].states[c]) by {
                    none_is_chosen(items, key, c, upto, groups);
                }
            }
        }
        feeding_is_by_call(ready[place].states, arguments, row, calls.len() as int);
        assert forall|g: int| 0 <= g < next.len() implies is_group_of(
            #[trigger] next[g],
            items,
            calls,
            upto + 1,
        ) && (occurs(items, next[g].key, upto + 1) || (whole && next[g].key.len() == 0)) by {
            if g == place {
                assert(items[upto].key == next[g].key);
                assert forall|c: int| 0 <= c < calls.len() implies folded(
                    StateView::fresh(calls[c].function, calls[c].distinct),
                    chosen(items, key, c, upto + 1),
                    chosen(items, key, c, upto + 1).len() as int,
                ) == Ok::<StateView, ErrorView>(#[trigger] next[g].states[c]) by {
                    let before = chosen(items, key, c, upto);
                    let value = items[upto].values[c];
                    assert(chosen(items, key, c, upto + 1) == before.push(value));
                    folded_of_prefix(
                        StateView::fresh(calls[c].function, calls[c].distinct),
                        before,
                        before.push(value),
                        before.len() as int,
                    );
                    assert(ready[place].states[c].updated(value) == Ok::<StateView, ErrorView>(
                        next[g].states[c],
                    ));
                }
            } else {
                assert(next[g] == groups[g]);
                assert(groups[g].key != key);
                if occurs(items, groups[g].key, upto) {
                    let i = choose|i: int| 0 <= i < upto && (#[trigger] items[i]).key
                        == groups[g].key;
                    assert(items[i].key == next[g].key);
                }
                assert forall|c: int| 0 <= c < calls.len() implies folded(
                    StateView::fresh(calls[c].function, calls[c].distinct),
                    chosen(items, next[g].key, c, upto + 1),
                    chosen(items, next[g].key, c, upto + 1).len() as int,
                ) == Ok::<StateView, ErrorView>(#[trigger] next[g].states[c]) by {
                    assert(groups[g].states[c] == next[g].states[c]);
                }
            }
        }
        assert forall|g: int, h: int| 0 <= g < h < next.len() implies (
        #[trigger] next[g]).key != (#[trigger] next[h]).key by {
            assert(next[g].key == ready[g].key);
            assert(next[h].key == ready[h].key);
            if h == groups.len() {
                assert(groups[g].key != key);
            }
        }
        assert forall|i: int| 0 <= i < upto + 1 implies has_key(next, (#[trigger] items[i]).key) by {
            if i == upto {
                assert(next[place].key == key);
            } else {
                let g = choose|g: int| 0 <= g < groups.len() && (#[trigger] groups[g]).key
                    == items[i].key;
                assert(next[g].key == groups[g].key);
            }
        }
        if whole {
            let g = choose|g: int| 0 <= g < groups.len() && (#[trigger] groups[g]).key
                == Seq::<ScalarView>::empty();
            assert(next[g].key == groups[g].key);
        }
    }
}

proof fn none_is_chosen(
    items: Seq<ItemView>,
    key: Seq<ScalarView>,
    c: int,
    upto: int,
    groups: Seq<GroupView>,
)
    requires
        forall|i: int| 0 <= i < upto ==> has_key(groups, (#[trigger] items[i]).key),
        forall|g: int| 0 <= g < groups.len() ==> (#[trigger] groups[g]).key != key,
    ensures
        chosen(items, key, c, upto) == Seq::<ScalarView>::empty(),
    decreases upto,
{
    if upto > 0 {
        none_is_chosen(items, key, c, upto - 1, groups);
        assert(has_key(groups, items[upto - 1].key));
    }
}

proof fn rows_join_their_groups(
    groups: Seq<GroupView>,
    calls: Seq<CallView>,
    keys: Seq<ColumnView>,
    arguments: Seq<Option<ColumnView>>,
    items: Seq<ItemView>,
    whole: bool,
    first: int,
    upto: int,
)
    requires
        0 <= first,
        0 <= upto,
        first + upto <= items.len(),
        forall|row: int|
            0 <= row < upto ==> #[trigger] items[first + row] == item_of(keys, arguments, row),
        arguments.len() == calls.len(),
        are_groups_of(groups, items, calls, whole, first),
    ensures
        rows_grouped(groups, calls, keys, arguments, upto) matches Ok(next) ==> are_groups_of(
            next,
            items,
            calls,
            whole,
            first + upto,
        ),
    decreases upto,
{
    if upto > 0 {
        rows_join_their_groups(groups, calls, keys, arguments, items, whole, first, upto - 1);
        if let Ok(before) = rows_grouped(groups, calls, keys, arguments, upto - 1) {
            assert(items[first + (upto - 1)] == item_of(keys, arguments, upto - 1));
            a_row_joins_its_group(
                before,
                calls,
                keys,
                arguments,
                upto - 1,
                items,
                whole,
                first + upto - 1,
            );
        }
    }
}

proof fn arguments_are_as_many(calls: Seq<CallView>, batch: BatchView, upto: int)
    requires
        0 <= upto,
    ensures
        arguments_of(calls, batch, upto) matches Ok(columns) ==> columns.len() == upto,
    decreases upto,
{
    if upto > 0 {
        arguments_are_as_many(calls, batch, upto - 1);
    }
}

proof fn chosen_of_prefix(
    a: Seq<ItemView>,
    b: Seq<ItemView>,
    key: Seq<ScalarView>,
    c: int,
    upto: int,
)
    requires
        forall|i: int| 0 <= i < upto ==> a[i] == b[i],
    ensures
        chosen(a, key, c, upto) == chosen(b, key, c, upto),
    decreases upto,
{
    if upto > 0 {
        chosen_of_prefix(a, b, key, c, upto - 1);
    }
}

/// Groups of a list of items are groups of any longer one, as far as that list goes.
proof fn groups_of_prefix(
    groups: Seq<GroupView>,
    a: Seq<ItemView>,
    b: Seq<ItemView>,
    calls: Seq<CallView>,
    whole: bool,
    upto: int,
)
    requires
        are_groups_of(groups, a, calls, whole, upto),
        upto <= a.len(),
        upto <= b.len(),
        forall|i: int| 0 <= i < upto ==> a[i] == b[i],
    ensures
        are_groups_of(groups, b, calls, whole, upto),
{
    assert forall|g: int| 0 <= g < groups.len() implies is_group_of(
        #[trigger] groups[g],
        b,
        calls,
        upto,
    ) && (occurs(b, groups[g].key, upto) || (whole && groups[g].key.len() == 0)) by {
        assert(is_group_of(groups[g], a, calls, upto));
        assert forall|c: int| 0 <= c < calls.len() implies folded(
            StateView::fresh(calls[c].function, calls[c].distinct),
            chosen(b, groups[g].key, c, upto),
            chosen(b, groups[g].key, c, upto).len() as int,
        ) == Ok::<StateView, ErrorView>(#[trigger] groups[g].states[c]) by {
            chosen_of_prefix(a, b, groups[g].key, c, upto);
        }
        if occurs(a, groups[g].key, upto) {
            let i = choose|i: int| 0 <= i < upto && (#[trigger] a[i]).key == groups[g].key;
            assert(b[i].key == groups[g].key);
        }
    }
    assert forall|i: int| 0 <= i < upto implies has_key(groups, (#[trigger] b[i]).key) by {
        assert(has_key(groups, a[i].key));
    }
}

/// The groups of batches are those of what their rows give.
pub proof fn groups_are_of_items(
    batches: Seq<BatchView>,
    calls: Seq<CallView>,
    group_exprs: Seq<ExprView>,
    upto: int,
)
    requires
        0 <= upto <= batches.len(),
    ensures
        grouped(batches, calls, group_exprs, upto) matches Ok(groups) ==> are_groups_of(
            groups,
            items_of(batches, calls, group_exprs, upto),
            calls,
            group_exprs.len() == 0,
            items_of(batches, calls, group_exprs, upto).len() as int,
        ),
    decreases upto,
{
    let whole = group_exprs.len() == 0;
    let items = items_of(batches, calls, group_exprs, upto);
    if upto > 0 {
        groups_are_of_items(batches, calls, group_exprs, upto - 1);
        if let Ok(next) = grouped(batches, calls, group_exprs, upto) {
            let batch = batches[upto - 1];
            let groups = grouped(batches, calls, group_exprs, upto - 1)->Ok_0;
            let before = items_of(batches, calls, group_exprs, upto - 1);
            let keys = computed(group_exprs, batch, group_exprs.len() as int)->Ok_0;
            let arguments = arguments_of(calls, batch, calls.len() as int)->Ok_0;
            arguments_are_as_many(calls, batch, calls.len() as int);
            groups_of_prefix(groups, before, items, calls, whole, before.len() as int);
            assert forall|row: int| 0 <= row < batch.rows implies #[trigger] items[before.len()
                + row] == item_of(keys, arguments, row) by {}
            rows_join_their_groups(
                groups,
                calls,
                keys,
                arguments,
                items,
                whole,
                before.len() as int,
                batch.rows as int,
            );
        }
    } else {
        let groups = grouped(batches, calls, group_exprs, 0)->Ok_0;
        if whole {
            assert(groups[0].key =~= Seq::<ScalarView>::empty());
            assert(is_group_of(groups[0], items, calls, 0));
        }
    }
}

// ---- sorted groups

/// Whether two lists hold the same groups, each once.
pub open spec fn same_groups(a: Seq<GroupView>, b: Seq<GroupView>) -> bool {
    &&& a.len() == b.len()
    &&& forall|g: int| 0 <= g < a.len() ==> b.contains(#[trigger] a[g])
    &&& forall|g: int| 0 <= g < b.len() ==> a.contains(#[trigger] b[g])
}

proof fn sorting_keeps_groups(groups: Seq<GroupView>, upto: int)
    requires
        0 <= upto <= groups.len(),
        keys_differ(groups),
    ensures
        same_groups(sorted_groups(groups, upto), groups.take(upto)),
        keys_differ(sorted_groups(groups, upto)),
    decreases upto,
{
    let part = groups.take(upto);
    if upto > 0 {
        sorting_keeps_groups(groups, upto - 1);
        let before = sorted_groups(groups, upto - 1);
        let group = groups[upto - 1];
        let place = place_after(before, group.key, 0);
        place_after_is_within(before, group.key, 0);
        let after = before.insert(place, group);
        let shorter = groups.take(upto - 1);
        assert(part =~= shorter.push(group));
        assert forall|g: int| 0 <= g < after.len() implies part.contains(#[trigger] after[g]) by {
            if g < place {
                assert(after[g] == before[g]);
                assert(shorter.contains(before[g]));
                let i = choose|i: int| 0 <= i < shorter.len() && shorter[i] == before[g];
                assert(part[i] == after[g]);
            } else if g == place {
                assert(part[upto - 1] == after[g]);
            } else {
                assert(after[g] == before[g - 1]);
                assert(shorter.contains(before[g - 1]));
                let i = choose|i: int| 0 <= i < shorter.len() && shorter[i] == before[g - 1];
                assert(part[i] == after[g]);
            }
        }
        assert forall|g: int| 0 <= g < part.len() implies after.contains(#[trigger] part[g]) by {
            if g == upto - 1 {
                assert(after[place] == part[g]);
            } else {
                assert(part[g] == shorter[g]);
                assert(before.contains(shorter[g]));
                let i = choose|i: int| 0 <= i < before.len() && before[i] == shorter[g];
                let j = if i < place {
                    i
                } else {
                    i + 1
                };
                assert(after[j] == part[g]);
            }
        }
        assert forall|g: int, h: int| 0 <= g < h < after.len() implies (
        #[trigger] after[g]).key != (#[trigger] after[h]).key by {
            let x = if g < place {
                g
            } else {
                g - 1
            };
            let y = if h < place {
                h
            } else {
                h - 1
            };
            if g == place || h == place {
                let other = if g == place {
                    y
                } else {
                    x
                };
                assert(shorter.contains(before[other]));
                let i = choose|i: int| 0 <= i < shorter.len() && shorter[i] == before[other];
                assert(groups[i].key != groups[upto - 1].key);
            } else {
                assert(before[x].key != before[y].key);
            }
        }
    } else {
        assert(sorted_groups(groups, 0) =~= part);
    }
}

/// The groups of some items are still theirs when they are sorted.
pub proof fn sorted_groups_are_of_items(
    groups: Seq<GroupView>,
    items: Seq<ItemView>,
    calls: Seq<CallView>,
    whole: bool,
)
    requires
        are_groups_of(groups, items, calls, whole, items.len() as int),
    ensures
        are_groups_of(
            sorted_groups(groups, groups.len() as int),
            items,
            calls,
            whole,
            items.len() as int,
        ),
{
    let sorted = sorted_groups(groups, groups.len() as int);
    let upto = items.len() as int;
    sorting_keeps_groups(groups, groups.len() as int);
    assert(groups.take(groups.len() as int) =~= groups);
    assert forall|g: int| 0 <= g < sorted.len() implies is_group_of(
        #[trigger] sorted[g],
        items,
        calls,
        upto,
    ) && (occurs(items, sorted[g].key, upto) || (whole && sorted[g].key.len() == 0)) by {
        assert(groups.contains(sorted[g]));
        let i = choose|i: int| 0 <= i < groups.len() && groups[i] == sorted[g];
        assert(is_group_of(groups[i], items, calls, upto));
    }
    assert forall|key: Seq<ScalarView>| #[trigger] has_key(groups, key) implies has_key(
        sorted,
        key,
    ) by {
        let g = choose|g: int| 0 <= g < groups.len() && (#[trigger] groups[g]).key == key;
        assert(sorted.contains(groups[g]));
        let i = choose|i: int| 0 <= i < sorted.len() && sorted[i] == groups[g];
        assert(sorted[i].key == key);
    }
}

} // verus!

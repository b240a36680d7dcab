//! Partial aggregates, and what becomes of counts and extremes that are merged.

use crate::batch::BatchView;
use crate::column::ColumnView;
use crate::distributed::groups::{batch_items, chosen, items_of, occurs, ItemView};
use crate::distributed::local::{partials_for, partials_of};
use crate::distributed::merging::offset;
use crate::distributed::partial::merged_extreme;
use crate::error::ErrorView;
use crate::execution::aggregate::{argument_of, arguments_of, call_of, calls_of, grouped, CallView};
use crate::execution::concat::total_rows;
use crate::execution::laws::{
    best, comparable, extremes_are_best, folded, present, present_splits, the_best_splits,
};
use crate::execution::rows::computed;
use crate::execution::state::StateView;
use crate::expr::{AggregateFunction, ExprView};
use crate::scalar::{is_nan, ScalarView};
use crate::text::Relation;
use vstd::prelude::*;

verus! {

// ---- calls

pub proof fn calls_are_by_expr(exprs: Seq<ExprView>, upto: int)
    requires
        0 <= upto,
    ensures
        calls_of(exprs, upto) matches Ok(calls) ==> calls.len() == upto && forall|a: int|
            0 <= a < upto ==> call_of(exprs[a]) == Ok::<CallView, ErrorView>(#[trigger] calls[a]),
    decreases upto,
{
    if upto > 0 {
        calls_are_by_expr(exprs, upto - 1);
    }
}

proof fn calls_read_a_prefix(a: Seq<ExprView>, b: Seq<ExprView>, upto: int)
    requires
        upto <= a.len(),
        upto <= b.len(),
        forall|i: int| 0 <= i < upto ==> a[i] == b[i],
    ensures
        calls_of(a, upto) == calls_of(b, upto),
    decreases upto,
{
    if upto > 0 {
        calls_read_a_prefix(a, b, upto - 1);
    }
}

/// Whether the calls at a place are the partial ones of a call.
pub open spec fn are_partial_calls(call: CallView, calls: Seq<CallView>, at: int) -> bool {
    if call.function == AggregateFunction::Avg {
        &&& 0 <= at < calls.len() - 1
        &&& calls[at] == (CallView { function: AggregateFunction::Sum, ..call })
        &&& calls[at + 1] == (CallView { function: AggregateFunction::Count, ..call })
    } else {
        &&& 0 <= at < calls.len()
        &&& calls[at] == call
    }
}

/// The calls of the partial aggregates of one aggregate.
proof fn partial_calls_of_one(aggregate: ExprView, index: nat, call: CallView)
    requires
        call_of(aggregate) == Ok::<CallView, ErrorView>(call),
        partials_for(aggregate, index) is Ok,
    ensures
        ({
            let more = partials_for(aggregate, index)->Ok_0;
            if call.function == AggregateFunction::Avg {
                &&& more.len() == 2
                &&& call_of(more[0]) == Ok::<CallView, ErrorView>(
                    CallView { function: AggregateFunction::Sum, ..call },
                )
                &&& call_of(more[1]) == Ok::<CallView, ErrorView>(
                    CallView { function: AggregateFunction::Count, ..call },
                )
            } else {
                &&& more.len() == 1
                &&& call_of(more[0]) == Ok::<CallView, ErrorView>(call)
            }
        }),
{
}

/// The calls of two lists of expressions, of which the second holds one or two.
proof fn calls_of_a_few_more(before: Seq<ExprView>, more: Seq<ExprView>, first: Seq<CallView>)
    requires
        calls_of(before, before.len() as int) == Ok::<Seq<CallView>, ErrorView>(first),
        first.len() == before.len(),
        1 <= more.len() <= 2,
        call_of(more[0]) is Ok,
        more.len() == 2 ==> call_of(more[1]) is Ok,
    ensures
        ({
            let all = before + more;
            calls_of(all, all.len() as int) == Ok::<Seq<CallView>, ErrorView>(
                if more.len() == 1 {
                    first.push(call_of(more[0])->Ok_0)
                } else {
                    first.push(call_of(more[0])->Ok_0).push(call_of(more[1])->Ok_0)
                },
            )
        }),
{
    let all = before + more;
    let at = before.len() as int;
    calls_read_a_prefix(before, all, at);
    assert(all[at] == more[0]);
    assert(calls_of(all, at + 1) == Ok::<Seq<CallView>, ErrorView>(
        first.push(call_of(more[0])->Ok_0),
    ));
    if more.len() == 2 {
        assert(all[at + 1] == more[1]);
    }
}

/// The calls of the partial aggregates.
pub proof fn partial_calls(aggregates: Seq<ExprView>, calls: Seq<CallView>, upto: int)
    requires
        0 <= upto <= aggregates.len(),
        calls_of(aggregates, aggregates.len() as int) == Ok::<Seq<CallView>, ErrorView>(calls),
        partials_of(aggregates, upto) is Ok,
    ensures
        ({
            let partials = partials_of(aggregates, upto)->Ok_0;
            &&& calls_of(partials, partials.len() as int) is Ok
            &&& calls_of(partials, partials.len() as int)->Ok_0.len() == partials.len()
            &&& partials.len() == offset(calls, upto)
            &&& forall|a: int|
                0 <= a < upto ==> are_partial_calls(
                    #[trigger] calls[a],
                    calls_of(partials, partials.len() as int)->Ok_0,
                    offset(calls, a),
                )
        }),
    decreases upto,
{
    calls_are_by_expr(aggregates, aggregates.len() as int);
    if upto > 0 {
        partial_calls(aggregates, calls, upto - 1);
        let before = partials_of(aggregates, upto - 1)->Ok_0;
        let more = partials_for(aggregates[upto - 1], (upto - 1) as nat)->Ok_0;
        let partials = before + more;
        let call = calls[upto - 1];
        let first = calls_of(before, before.len() as int)->Ok_0;
        assert(call_of(aggregates[upto - 1]) == Ok::<CallView, ErrorView>(call));
        partial_calls_of_one(aggregates[upto - 1], (upto - 1) as nat, call);
        calls_of_a_few_more(before, more, first);
        let all = calls_of(partials, partials.len() as int)->Ok_0;
        assert forall|a: int| 0 <= a < upto implies are_partial_calls(
            #[trigger] calls[a],
            all,
            offset(calls, a),
        ) by {
            if a < upto - 1 {
                assert(are_partial_calls(calls[a], first, offset(calls, a)));
            }
        }
    }
}

// ---- items

pub proof fn arguments_are_by_call(calls: Seq<CallView>, batch: BatchView, upto: int)
    requires
        0 <= upto,
    ensures
        arguments_of(calls, batch, upto) matches Ok(columns) ==> columns.len() == upto && forall|
            c: int,
        |
            0 <= c < upto ==> argument_of(calls[c], batch) == Ok::<
                Option<ColumnView>,
                ErrorView,
            >(#[trigger] columns[c]),
    decreases upto,
{
    if upto > 0 {
        arguments_are_by_call(calls, batch, upto - 1);
    }
}

/// Whether items of two lists of calls come from the same rows: a call of the one at a place reads
/// what one of the other reads at another.
pub open spec fn items_agree(a: Seq<ItemView>, b: Seq<ItemView>, call: int, other: int) -> bool {
    &&& a.len() == b.len()
    &&& forall|i: int|
        0 <= i < a.len() ==> (#[trigger] a[i]).key == b[i].key && a[i].values[call]
            == b[i].values[other]
}

/// Whether the keys and the arguments of some calls can be computed over every batch.
pub open spec fn all_computed(
    batches: Seq<BatchView>,
    calls: Seq<CallView>,
    group_exprs: Seq<ExprView>,
) -> bool {
    forall|i: int|
        0 <= i < batches.len() ==> computed(
            group_exprs,
            #[trigger] batches[i],
            group_exprs.len() as int,
        ) is Ok && arguments_of(calls, batches[i], calls.len() as int) is Ok
}

/// What is grouped was computed.
pub proof fn groups_are_computed(
    batches: Seq<BatchView>,
    calls: Seq<CallView>,
    group_exprs: Seq<ExprView>,
    upto: int,
)
    requires
        0 <= upto <= batches.len(),
        grouped(batches, calls, group_exprs, upto) is Ok,
    ensures
        all_computed(batches.take(upto), calls, group_exprs),
    decreases upto,
{
    if upto > 0 {
        groups_are_computed(batches, calls, group_exprs, upto - 1);
        let part = batches.take(upto);
        let shorter = batches.take(upto - 1);
        assert forall|i: int| 0 <= i < part.len() implies computed(
            group_exprs,
            #[trigger] part[i],
            group_exprs.len() as int,
        ) is Ok && arguments_of(calls, part[i], calls.len() as int) is Ok by {
            if i < upto - 1 {
                assert(part[i] == shorter[i]);
            } else {
                assert(part[i] == batches[upto - 1]);
            }
        }
    }
}

proof fn items_of_calls_agree(
    batches: Seq<BatchView>,
    calls: Seq<CallView>,
    others: Seq<CallView>,
    group_exprs: Seq<ExprView>,
    call: int,
    other: int,
    upto: int,
)
    requires
        0 <= upto <= batches.len(),
        0 <= call < calls.len(),
        0 <= other < others.len(),
        calls[call].expr == others[other].expr,
        all_computed(batches, calls, group_exprs),
        all_computed(batches, others, group_exprs),
    ensures
        items_agree(
            items_of(batches, calls, group_exprs, upto),
            items_of(batches, others, group_exprs, upto),
            call,
            other,
        ),
    decreases upto,
{
    if upto > 0 {
        items_of_calls_agree(batches, calls, others, group_exprs, call, other, upto - 1);
        let batch = batches[upto - 1];
        assert(arguments_of(calls, batches[upto - 1], calls.len() as int) is Ok);
        arguments_are_by_call(calls, batch, calls.len() as int);
        arguments_are_by_call(others, batch, others.len() as int);
        let x = arguments_of(calls, batch, calls.len() as int)->Ok_0;
        let y = arguments_of(others, batch, others.len() as int)->Ok_0;
        assert(x[call] == y[other]);
        let a = items_of(batches, calls, group_exprs, upto);
        let b = items_of(batches, others, group_exprs, upto);
        let first = items_of(batches, calls, group_exprs, upto - 1);
        let second = items_of(batches, others, group_exprs, upto - 1);
        assert forall|i: int| 0 <= i < a.len() implies (#[trigger] a[i]).key == b[i].key
            && a[i].values[call] == b[i].values[other] by {
            if i < first.len() {
                assert(a[i] == first[i]);
                assert(b[i] == second[i]);
            }
        }
    }
}

proof fn agreeing_items_choose_alike(
    a: Seq<ItemView>,
    b: Seq<ItemView>,
    call: int,
    other: int,
    key: Seq<ScalarView>,
    upto: int,
)
    requires
        items_agree(a, b, call, other),
        0 <= upto <= a.len(),
    ensures
        chosen(a, key, call, upto) == chosen(b, key, other, upto),
    decreases upto,
{
    if upto > 0 {
        agreeing_items_choose_alike(a, b, call, other, key, upto - 1);
        assert(a[upto - 1].key == b[upto - 1].key);
    }
}

/// What a call chooses of batches, whichever list of calls it stands in.
pub proof fn calls_choose_alike(
    batches: Seq<BatchView>,
    calls: Seq<CallView>,
    others: Seq<CallView>,
    group_exprs: Seq<ExprView>,
    call: int,
    other: int,
    key: Seq<ScalarView>,
)
    requires
        0 <= call < calls.len(),
        0 <= other < others.len(),
        calls[call].expr == others[other].expr,
        all_computed(batches, calls, group_exprs),
        all_computed(batches, others, group_exprs),
    ensures
        ({
            let a = items_of(batches, calls, group_exprs, batches.len() as int);
            let b = items_of(batches, others, group_exprs, batches.len() as int);
            &&& a.len() == b.len()
            &&& chosen(a, key, call, a.len() as int) == chosen(b, key, other, b.len() as int)
            &&& occurs(a, key, a.len() as int) == occurs(b, key, b.len() as int)
        }),
{
    let a = items_of(batches, calls, group_exprs, batches.len() as int);
    let b = items_of(batches, others, group_exprs, batches.len() as int);
    items_of_calls_agree(
        batches,
        calls,
        others,
        group_exprs,
        call,
        other,
        batches.len() as int,
    );
    agreeing_items_choose_alike(a, b, call, other, key, a.len() as int);
    if occurs(a, key, a.len() as int) {
        let i = choose|i: int| 0 <= i < a.len() && (#[trigger] a[i]).key == key;
        assert(b[i].key == key);
    }
    if occurs(b, key, b.len() as int) {
        let i = choose|i: int| 0 <= i < b.len() && (#[trigger] b[i]).key == key;
        assert(a[i].key == key);
    }
}

pub proof fn items_of_two_lists(
    a: Seq<BatchView>,
    b: Seq<BatchView>,
    calls: Seq<CallView>,
    group_exprs: Seq<ExprView>,
    upto: int,
)
    requires
        0 <= upto <= b.len(),
    ensures
        items_of(a + b, calls, group_exprs, a.len() + upto) == items_of(
            a,
            calls,
            group_exprs,
            a.len() as int,
        ) + items_of(b, calls, group_exprs, upto),
    decreases upto,
{
    let first = items_of(a, calls, group_exprs, a.len() as int);
    if upto > 0 {
        items_of_two_lists(a, b, calls, group_exprs, upto - 1);
        assert((a + b)[a.len() + upto - 1] == b[upto - 1]);
        let second = items_of(b, calls, group_exprs, upto - 1);
        let more = batch_items(b[upto - 1], calls, group_exprs);
        assert((first + second) + more =~= first + (second + more));
    } else {
        items_of_a_prefix(a, a + b, calls, group_exprs, a.len() as int);
        assert(first + Seq::<ItemView>::empty() =~= first);
    }
}

proof fn items_of_a_prefix(
    a: Seq<BatchView>,
    b: Seq<BatchView>,
    calls: Seq<CallView>,
    group_exprs: Seq<ExprView>,
    upto: int,
)
    requires
        upto <= a.len(),
        upto <= b.len(),
        forall|i: int| 0 <= i < upto ==> a[i] == b[i],
    ensures
        items_of(a, calls, group_exprs, upto) == items_of(b, calls, group_exprs, upto),
    decreases upto,
{
    if upto > 0 {
        items_of_a_prefix(a, b, calls, group_exprs, upto - 1);
    }
}

pub proof fn chosen_of_two_lists(
    a: Seq<ItemView>,
    b: Seq<ItemView>,
    key: Seq<ScalarView>,
    call: int,
    upto: int,
)
    requires
        0 <= upto <= b.len(),
    ensures
        chosen(a + b, key, call, a.len() + upto) == chosen(a, key, call, a.len() as int) + chosen(
            b,
            key,
            call,
            upto,
        ),
    decreases upto,
{
    let first = chosen(a, key, call, a.len() as int);
    if upto > 0 {
        chosen_of_two_lists(a, b, key, call, upto - 1);
        assert((a + b)[a.len() + upto - 1] == b[upto - 1]);
        let second = chosen(b, key, call, upto - 1);
        let value = b[upto - 1].values[call];
        assert((first + second).push(value) =~= first + second.push(value));
    } else {
        chosen_of_a_prefix(a, a + b, key, call, a.len() as int);
        assert(first + Seq::<ScalarView>::empty() =~= first);
    }
}

proof fn chosen_of_a_prefix(
    a: Seq<ItemView>,
    b: Seq<ItemView>,
    key: Seq<ScalarView>,
    call: int,
    upto: int,
)
    requires
        upto <= a.len(),
        upto <= b.len(),
        forall|i: int| 0 <= i < upto ==> a[i] == b[i],
    ensures
        chosen(a, key, call, upto) == chosen(b, key, call, upto),
    decreases upto,
{
    if upto > 0 {
        chosen_of_a_prefix(a, b, key, call, upto - 1);
    }
}

pub proof fn what_does_not_occur_is_not_chosen(
    items: Seq<ItemView>,
    key: Seq<ScalarView>,
    call: int,
    upto: int,
)
    requires
        0 <= upto <= items.len(),
        !occurs(items, key, upto),
    ensures
        chosen(items, key, call, upto) == Seq::<ScalarView>::empty(),
    decreases upto,
{
    if upto > 0 {
        assert(items[upto - 1].key != key);
        assert(!occurs(items, key, upto - 1)) by {
            if occurs(items, key, upto - 1) {
                let i = choose|i: int| 0 <= i < upto - 1 && (#[trigger] items[i]).key == key;
                assert(items[i].key == key);
            }
        }
        what_does_not_occur_is_not_chosen(items, key, call, upto - 1);
    }
}

pub proof fn chosen_are_items(items: Seq<ItemView>, key: Seq<ScalarView>, call: int, upto: int)
    requires
        0 <= upto <= items.len(),
    ensures
        chosen(items, key, call, upto).len() <= upto,
        forall|k: int|
            0 <= k < chosen(items, key, call, upto).len() ==> exists|i: int|
                0 <= i < upto && (#[trigger] items[i]).values[call] == #[trigger] chosen(
                    items,
                    key,
                    call,
                    upto,
                )[k],
    decreases upto,
{
    if upto > 0 {
        chosen_are_items(items, key, call, upto - 1);
        let all = chosen(items, key, call, upto);
        let before = chosen(items, key, call, upto - 1);
        assert forall|k: int| 0 <= k < all.len() implies exists|i: int|
            0 <= i < upto && (#[trigger] items[i]).values[call] == #[trigger] all[k] by {
            if k < before.len() {
                assert(all[k] == before[k]);
                let i = choose|i: int|
                    0 <= i < upto - 1 && (#[trigger] items[i]).values[call] == before[k];
                assert(items[i].values[call] == all[k]);
            } else {
                assert(items[upto - 1].values[call] == all[k]);
            }
        }
    }
}

pub proof fn items_are_rows(
    batches: Seq<BatchView>,
    calls: Seq<CallView>,
    group_exprs: Seq<ExprView>,
    upto: int,
)
    requires
        0 <= upto <= batches.len(),
    ensures
        items_of(batches, calls, group_exprs, upto).len() == total_rows(batches, upto),
    decreases upto,
{
    if upto > 0 {
        items_are_rows(batches, calls, group_exprs, upto - 1);
    }
}

// ---- extremes

/// Whether values are NULL or of one type.
pub open spec fn of_one_type(values: Seq<ScalarView>) -> bool {
    forall|i: int, j: int|
        0 <= i < values.len() && 0 <= j < values.len() && !(values[i] is Null) && !(
        values[j] is Null) ==> (#[trigger] values[i]).data_type() == (
        #[trigger] values[j]).data_type()
}

pub open spec fn no_nan(value: ScalarView) -> bool {
    value matches ScalarView::Float64(bits) ==> !is_nan(bits)
}

pub open spec fn extreme_state(value: Option<ScalarView>, wanted: Relation) -> StateView {
    if wanted == Relation::Less {
        StateView::Min(value)
    } else {
        StateView::Max(value)
    }
}

pub open spec fn extreme_function(wanted: Relation) -> AggregateFunction {
    if wanted == Relation::Less {
        AggregateFunction::Min
    } else {
        AggregateFunction::Max
    }
}

/// The extreme of some values, where there is one.
pub open spec fn extreme_of(values: Seq<ScalarView>, wanted: Relation, upto: int) -> Option<
    ScalarView,
> {
    let state = folded(StateView::fresh(extreme_function(wanted), false), values, upto)->Ok_0;
    if wanted == Relation::Less {
        state->Min_0
    } else {
        state->Max_0
    }
}

/// What a search for an extreme says of the values it went through.
pub proof fn extremes_are_values(values: Seq<ScalarView>, wanted: Relation, upto: int)
    requires
        0 <= upto <= values.len(),
        of_one_type(values),
        wanted == Relation::Less || wanted == Relation::Greater,
        folded(StateView::fresh(extreme_function(wanted), false), values, upto) is Ok,
    ensures
        ({
            let best = extreme_of(values, wanted, upto);
            &&& folded(StateView::fresh(extreme_function(wanted), false), values, upto) == Ok::<
                StateView,
                ErrorView,
            >(extreme_state(best, wanted))
            &&& best is None <==> present(values, upto) == 0
            &&& best matches Some(value) ==> !(value is Null) && exists|i: int|
                0 <= i < upto && #[trigger] values[i] == value
            &&& present(values, upto) == 1 ==> forall|i: int|
                0 <= i < upto && !(values[i] is Null) ==> Some(#[trigger] values[i]) == best
            &&& present(values, upto) >= 2 ==> forall|i: int|
                0 <= i < upto ==> no_nan(#[trigger] values[i])
        }),
    decreases upto,
{
    if upto > 0 {
        extremes_are_values(values, wanted, upto - 1);
        let before = extreme_of(values, wanted, upto - 1);
        let best = extreme_of(values, wanted, upto);
        let value = values[upto - 1];
        if let Some(other) = before {
            let i = choose|i: int| 0 <= i < upto - 1 && #[trigger] values[i] == other;
            assert(values[i] == other);
            if !(value is Null) {
                assert(value.data_type() == values[i].data_type());
            }
        }
        if best == Some(value) {
            assert(values[upto - 1] == value);
        }
        if present(values, upto) == 1 {
            assert forall|i: int| 0 <= i < upto && !(values[i] is Null) implies Some(
                #[trigger] values[i],
            ) == best by {
                if i < upto - 1 {
                    no_value_is_present(values, i, upto - 1);
                }
            }
        }
        if present(values, upto) >= 2 {
            assert forall|i: int| 0 <= i < upto implies no_nan(#[trigger] values[i]) by {
                if i < upto - 1 && !(values[i] is Null) && present(values, upto - 1) == 1 {
                    assert(Some(values[i]) == before);
                }
            }
        }
    }
}

proof fn no_value_is_present(values: Seq<ScalarView>, i: int, upto: int)
    requires
        0 <= i < upto <= values.len(),
        !(values[i] is Null),
    ensures
        present(values, upto) >= 1,
    decreases upto,
{
    if i < upto - 1 {
        no_value_is_present(values, i, upto - 1);
    }
}

proof fn folding_fails_early(state: StateView, values: Seq<ScalarView>, upto: int, full: int)
    requires
        0 <= upto <= full,
        folded(state, values, full) is Ok,
    ensures
        folded(state, values, upto) is Ok,
    decreases full - upto,
{
    if upto < full {
        folding_fails_early(state, values, upto, full - 1);
    }
}

pub proof fn folding_a_prefix(state: StateView, a: Seq<ScalarView>, b: Seq<ScalarView>)
    requires
        folded(state, a + b, (a + b).len() as int) is Ok,
    ensures
        folded(state, a, a.len() as int) is Ok,
        folded(state, a + b, a.len() as int) == folded(state, a, a.len() as int),
{
    folding_fails_early(state, a + b, a.len() as int, (a + b).len() as int);
    crate::distributed::groups::folded_of_prefix(state, a, a + b, a.len() as int);
}

/// Values that are NULL change no extreme, and values after nothing but NULL are taken as the first.
proof fn nulls_change_no_extreme(
    a: Seq<ScalarView>,
    b: Seq<ScalarView>,
    wanted: Relation,
    upto: int,
)
    requires
        0 <= upto <= b.len(),
        wanted == Relation::Less || wanted == Relation::Greater,
        of_one_type(a + b),
        of_one_type(a),
        of_one_type(b),
        folded(StateView::fresh(extreme_function(wanted), false), a + b, a.len() + upto) is Ok,
        folded(StateView::fresh(extreme_function(wanted), false), b, upto) is Ok,
        folded(StateView::fresh(extreme_function(wanted), false), a, a.len() as int) is Ok,
    ensures
        present(b, upto) == 0 ==> extreme_of(a + b, wanted, a.len() + upto) == extreme_of(
            a,
            wanted,
            a.len() as int,
        ),
        present(a, a.len() as int) == 0 ==> extreme_of(a + b, wanted, a.len() + upto)
            == extreme_of(b, wanted, upto),
    decreases upto,
{
    let fresh = StateView::fresh(extreme_function(wanted), false);
    let whole = a + b;
    extremes_are_values(a, wanted, a.len() as int);
    extremes_are_values(b, wanted, upto);
    extremes_are_values(whole, wanted, a.len() + upto);
    if upto > 0 {
        folding_fails_early(fresh, whole, a.len() + upto - 1, a.len() + upto);
        folding_fails_early(fresh, b, upto - 1, upto);
        nulls_change_no_extreme(a, b, wanted, upto - 1);
        extremes_are_values(b, wanted, upto - 1);
        extremes_are_values(whole, wanted, a.len() + upto - 1);
        assert(whole[a.len() + upto - 1] == b[upto - 1]);
    } else {
        crate::distributed::groups::folded_of_prefix(fresh, a, whole, a.len() as int);
    }
}

proof fn folds_are_comparable(values: Seq<ScalarView>, wanted: Relation)
    requires
        of_one_type(values),
        wanted == Relation::Less || wanted == Relation::Greater,
        folded(
            StateView::fresh(extreme_function(wanted), false),
            values,
            values.len() as int,
        ) is Ok,
        present(values, values.len() as int) >= 2,
    ensures
        comparable(values),
{
    extremes_are_values(values, wanted, values.len() as int);
    assert forall|i: int, j: int|
        0 <= i < values.len() && 0 <= j < values.len() && !(values[i] is Null) && !(
        values[j] is Null) implies (#[trigger] values[i].compare(#[trigger] values[j])) is Some by {
        assert(values[i].data_type() == values[j].data_type());
        assert(no_nan(values[i]) && no_nan(values[j]));
    }
}

/// The extreme of two lists is the merge of those of each.
pub proof fn extremes_join(a: Seq<ScalarView>, b: Seq<ScalarView>, wanted: Relation)
    requires
        wanted == Relation::Less || wanted == Relation::Greater,
        of_one_type(a + b),
        folded(
            StateView::fresh(extreme_function(wanted), false),
            a + b,
            (a + b).len() as int,
        ) is Ok,
        folded(StateView::fresh(extreme_function(wanted), false), b, b.len() as int) is Ok,
    ensures
        folded(StateView::fresh(extreme_function(wanted), false), a, a.len() as int) is Ok,
        merged_extreme(
            extreme_of(a, wanted, a.len() as int),
            extreme_state(extreme_of(b, wanted, b.len() as int), wanted).finished(),
            wanted,
        ) == Ok::<Option<ScalarView>, ErrorView>(
            extreme_of(a + b, wanted, (a + b).len() as int),
        ),
{
    let fresh = StateView::fresh(extreme_function(wanted), false);
    let whole = a + b;
    folding_a_prefix(fresh, a, b);
    assert(of_one_type(a)) by {
        assert forall|i: int, j: int|
            0 <= i < a.len() && 0 <= j < a.len() && !(a[i] is Null) && !(a[j] is Null) implies (
        #[trigger] a[i]).data_type() == (#[trigger] a[j]).data_type() by {
            assert(whole[i] == a[i] && whole[j] == a[j]);
        }
    }
    assert(of_one_type(b)) by {
        assert forall|i: int, j: int|
            0 <= i < b.len() && 0 <= j < b.len() && !(b[i] is Null) && !(b[j] is Null) implies (
        #[trigger] b[i]).data_type() == (#[trigger] b[j]).data_type() by {
            assert(whole[a.len() + i] == b[i] && whole[a.len() + j] == b[j]);
        }
    }
    extremes_are_values(a, wanted, a.len() as int);
    extremes_are_values(b, wanted, b.len() as int);
    extremes_are_values(whole, wanted, whole.len() as int);
    nulls_change_no_extreme(a, b, wanted, b.len() as int);
    present_splits(a, b, b.len() as int);
    if present(a, a.len() as int) > 0 && present(b, b.len() as int) > 0 {
        folds_are_comparable(whole, wanted);
        assert(comparable(a)) by {
            assert forall|i: int, j: int|
                0 <= i < a.len() && 0 <= j < a.len() && !(a[i] is Null) && !(
                a[j] is Null) implies (#[trigger] a[i].compare(#[trigger] a[j])) is Some by {
                assert(whole[i] == a[i] && whole[j] == a[j]);
                assert(whole[i].compare(whole[j]) is Some);
            }
        }
        assert(comparable(b)) by {
            assert forall|i: int, j: int|
                0 <= i < b.len() && 0 <= j < b.len() && !(b[i] is Null) && !(
                b[j] is Null) implies (#[trigger] b[i].compare(#[trigger] b[j])) is Some by {
                assert(whole[a.len() + i] == b[i] && whole[a.len() + j] == b[j]);
                assert(whole[a.len() + i].compare(whole[a.len() + j]) is Some);
            }
        }
        extremes_are_best(a, a.len() as int);
        extremes_are_best(b, b.len() as int);
        extremes_are_best(whole, whole.len() as int);
        the_best_splits(a, b, wanted, b.len() as int);
        let x = extreme_of(a, wanted, a.len() as int)->Some_0;
        let y = extreme_of(b, wanted, b.len() as int)->Some_0;
        let i = choose|i: int| 0 <= i < a.len() && #[trigger] a[i] == x;
        let j = choose|j: int| 0 <= j < b.len() && #[trigger] b[j] == y;
        assert(whole[i] == x);
        assert(whole[a.len() + j] == y);
        assert(whole[a.len() + j].compare(whole[i]) is Some);
    }
}

} // verus!

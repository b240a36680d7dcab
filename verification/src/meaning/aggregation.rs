//! What the aggregate functions compute.

use crate::error::ErrorView;
use crate::execution::laws::folded;
use crate::execution::state::{StateView, MAX_VALUES};
use crate::expr::AggregateFunction;
use crate::kernels::{float_quotient, float_sum, whole_float};
use crate::meaning::values::{alike, smaller, smaller_is_transitive, values_compare_by_what_they_are};
use crate::scalar::ScalarView;
use vstd::prelude::*;

verus! {

/// Whether states come of each other as a function is given one value after the other, from the
/// first state on.
pub open spec fn is_run(
    function: AggregateFunction,
    distinct: bool,
    values: Seq<ScalarView>,
    states: Seq<StateView>,
) -> bool {
    &&& states.len() == values.len() + 1
    &&& states[0] == StateView::fresh(function, distinct)
    &&& forall|k: int|
        0 <= k < values.len() ==> (#[trigger] states[k]).updated(values[k]) == Ok::<
            StateView,
            ErrorView,
        >(states[k + 1])
}

/// The values that count: those that are not NULL, and each but once where a function takes each
/// value once.
pub open spec fn counting(values: Seq<ScalarView>, distinct: bool) -> Seq<ScalarView>
    decreases values.len(),
{
    if values.len() == 0 {
        Seq::empty()
    } else {
        let before = counting(values.drop_last(), distinct);
        if values.last() is Null || distinct && before.contains(values.last()) {
            before
        } else {
            before.push(values.last())
        }
    }
}

/// With each value once, what counts has no value twice and has every value that is not NULL.
pub proof fn what_counts_once(values: Seq<ScalarView>)
    ensures
        counting(values, true).no_duplicates(),
        forall|v: ScalarView|
            #[trigger] counting(values, true).contains(v) <==> !(v is Null) && values.contains(v),
    decreases values.len(),
{
    if values.len() > 0 {
        let shorter = values.drop_last();
        let before = counting(shorter, true);
        let all = counting(values, true);
        what_counts_once(shorter);
        assert forall|v: ScalarView| #[trigger] all.contains(v) <==> !(v is Null)
            && values.contains(v) by {
            if all.contains(v) {
                let i = choose|i: int| 0 <= i < all.len() && all[i] == v;
                if i < before.len() {
                    assert(before[i] == v);
                    assert(before.contains(v));
                    let j = choose|j: int| 0 <= j < shorter.len() && shorter[j] == v;
                    assert(values[j] == v);
                } else {
                    assert(values[values.len() - 1] == v);
                }
            }
            if !(v is Null) && values.contains(v) {
                let j = choose|j: int| 0 <= j < values.len() && values[j] == v;
                if j < shorter.len() {
                    assert(shorter[j] == v);
                    assert(shorter.contains(v));
                    assert(before.contains(v));
                    let i = choose|i: int| 0 <= i < before.len() && before[i] == v;
                    assert(all[i] == v);
                } else if !before.contains(v) {
                    assert(all[all.len() - 1] == v);
                }
            }
        }
    }
}

/// The sum of the whole numbers among some values.
pub open spec fn sum_of_wholes(values: Seq<ScalarView>) -> int
    decreases values.len(),
{
    if values.len() == 0 {
        0
    } else {
        sum_of_wholes(values.drop_last()) + match values.last() {
            ScalarView::Int64(n) => n as int,
            ScalarView::UInt64(n) => n as int,
            _ => 0,
        }
    }
}

/// The sum of the floating-point numbers among some values, one added after the other.
pub open spec fn sum_of_floats(values: Seq<ScalarView>) -> u64
    decreases values.len(),
{
    if values.len() == 0 {
        0
    } else {
        match values.last() {
            ScalarView::Float64(bits) => float_sum(sum_of_floats(values.drop_last()), bits),
            _ => sum_of_floats(values.drop_last()),
        }
    }
}

/// The sum of numbers that are made floating-point ones first.
pub open spec fn sum_as_floats(values: Seq<ScalarView>) -> u64
    decreases values.len(),
{
    if values.len() == 0 {
        0
    } else {
        let before = sum_as_floats(values.drop_last());
        match values.last() {
            ScalarView::Int64(n) => float_sum(before, whole_float(n as i128)),
            ScalarView::UInt64(n) => float_sum(before, whole_float(n as i128)),
            ScalarView::Float64(bits) => float_sum(before, bits),
            _ => before,
        }
    }
}

pub open spec fn is_number(value: ScalarView) -> bool {
    value is Int64 || value is UInt64 || value is Float64
}

proof fn a_shorter_run(
    function: AggregateFunction,
    distinct: bool,
    values: Seq<ScalarView>,
    states: Seq<StateView>,
)
    requires
        values.len() > 0,
        is_run(function, distinct, values, states),
    ensures
        is_run(function, distinct, values.drop_last(), states.drop_last()),
        states.drop_last().last().updated(values.last()) == Ok::<StateView, ErrorView>(
            states.last(),
        ),
{
    let (shorter, before) = (values.drop_last(), states.drop_last());
    assert forall|k: int| 0 <= k < shorter.len() implies (#[trigger] before[k]).updated(shorter[k])
        == Ok::<StateView, ErrorView>(before[k + 1]) by {
        assert(states[k].updated(values[k]) == Ok::<StateView, ErrorView>(states[k + 1]));
    }
    let last = values.len() - 1;
    assert(states[last].updated(values[last]) == Ok::<StateView, ErrorView>(states[last + 1]));
}

/// A sum of no more whole numbers than a function can be given stays within its bounds.
pub proof fn sums_stay_within(values: Seq<ScalarView>, distinct: bool)
    ensures
        counting(values, distinct).len() <= values.len(),
        -values.len() * u64::MAX <= sum_of_wholes(counting(values, distinct)) <= values.len()
            * u64::MAX,
    decreases values.len(),
{
    if values.len() > 0 {
        let before = counting(values.drop_last(), distinct);
        let count = values.len() as int;
        sums_stay_within(values.drop_last(), distinct);
        assert(before.push(values.last()).drop_last() =~= before);
        assert(count * u64::MAX == (count - 1) * u64::MAX + u64::MAX) by (nonlinear_arith);
        assert(-count * u64::MAX == -(count - 1) * u64::MAX - u64::MAX) by (nonlinear_arith);
    }
}

/// SUM adds up the numbers that it is given: whole numbers exactly, with their signs, and
/// floating-point ones one after the other. What it comes to is the sum of both, and NULL where it was
/// given no number.
pub proof fn sum_adds_the_numbers(
    values: Seq<ScalarView>,
    distinct: bool,
    states: Seq<StateView>,
)
    requires
        is_run(AggregateFunction::Sum, distinct, values, states),
    ensures
        ({
            let numbers = counting(values, distinct);
            &&& states.last() is Sum
            &&& states.last()->Sum_int_sum == sum_of_wholes(numbers)
            &&& states.last()->Sum_float_sum == sum_of_floats(numbers)
            &&& states.last()->Sum_seen <==> numbers.len() > 0
            &&& states.last()->Sum_distinct == (if distinct {
                Some(numbers)
            } else {
                None
            })
            &&& forall|i: int| 0 <= i < numbers.len() ==> is_number(#[trigger] numbers[i])
            &&& numbers.len() == 0 ==> states.last().finished() is Null
            &&& numbers.len() > 0 ==> states.last().finished() == ScalarView::Float64(
                float_sum(sum_of_floats(numbers), whole_float(sum_of_wholes(numbers) as i128)),
            )
        }),
    decreases values.len(),
{
    if values.len() > 0 {
        let shorter = values.drop_last();
        let before = counting(shorter, distinct);
        a_shorter_run(AggregateFunction::Sum, distinct, values, states);
        sum_adds_the_numbers(shorter, distinct, states.drop_last());
        assert(before.push(values.last()).drop_last() =~= before);
    }
}

/// Over whole numbers and NULLs, SUM comes to the sum of the whole numbers.
pub proof fn sum_of_whole_numbers(values: Seq<ScalarView>, states: Seq<StateView>)
    requires
        is_run(AggregateFunction::Sum, false, values, states),
        values.len() <= MAX_VALUES,
        forall|i: int|
            0 <= i < values.len() ==> (#[trigger] values[i]) is Null || values[i] is Int64
                || values[i] is UInt64,
    ensures
        states.last()->Sum_int_sum == sum_of_wholes(values),
        i128::MIN <= sum_of_wholes(values) <= i128::MAX,
        (exists|i: int| 0 <= i < values.len() && !((#[trigger] values[i]) is Null))
            ==> states.last().finished() == ScalarView::Float64(
            float_sum(0, whole_float(sum_of_wholes(values) as i128)),
        ),
        (forall|i: int| 0 <= i < values.len() ==> (#[trigger] values[i]) is Null)
            ==> states.last().finished() is Null,
{
    let numbers = counting(values, false);
    let count = values.len() as int;
    sum_adds_the_numbers(values, false, states);
    sums_stay_within(values, false);
    nulls_add_nothing(values);
    assert(count * u64::MAX <= i128::MAX && -count * u64::MAX >= i128::MIN) by (nonlinear_arith)
        requires
            0 <= count <= 0x7FFF_FFFF_FFFF_FFFF,
    ;
}

proof fn nulls_add_nothing(values: Seq<ScalarView>)
    ensures
        sum_of_wholes(counting(values, false)) == sum_of_wholes(values),
        (forall|i: int| 0 <= i < values.len() ==> !((#[trigger] values[i]) is Float64))
            ==> sum_of_floats(counting(values, false)) == 0,
        counting(values, false).len() > 0 <==> exists|i: int|
            0 <= i < values.len() && !((#[trigger] values[i]) is Null),
    decreases values.len(),
{
    if values.len() > 0 {
        let shorter = values.drop_last();
        let before = counting(shorter, false);
        nulls_add_nothing(shorter);
        assert(before.push(values.last()).drop_last() =~= before);
        assert(forall|i: int| 0 <= i < shorter.len() ==> #[trigger] shorter[i] == values[i]);
        assert(values.last() == values[values.len() - 1]);
        if exists|i: int| 0 <= i < values.len() && !((#[trigger] values[i]) is Null) {
            let i = choose|i: int| 0 <= i < values.len() && !((#[trigger] values[i]) is Null);
            if i < shorter.len() {
                assert(!(shorter[i] is Null));
            }
        }
    }
}

/// SUM and AVG take NULL and every number, and nothing else.
pub proof fn sums_take_numbers(state: StateView, value: ScalarView)
    requires
        state is Sum && state->Sum_distinct is None || state is Avg && state->Avg_distinct is None,
    ensures
        state.updated(value) is Ok <==> value is Null || is_number(value),
{
}

/// COUNT counts what is not NULL.
pub proof fn count_counts(values: Seq<ScalarView>, distinct: bool, states: Seq<StateView>)
    requires
        is_run(AggregateFunction::Count, distinct, values, states),
        values.len() <= MAX_VALUES,
    ensures
        ({
            let numbers = counting(values, distinct);
            &&& states.last() is Count
            &&& states.last()->Count_value == numbers.len()
            &&& states.last()->Count_distinct == (if distinct {
                Some(numbers)
            } else {
                None
            })
            &&& states.last().finished() is UInt64
            &&& states.last().finished()->UInt64_0 == numbers.len()
        }),
    decreases values.len(),
{
    sums_stay_within(values, distinct);
    if values.len() > 0 {
        a_shorter_run(AggregateFunction::Count, distinct, values, states);
        count_counts(values.drop_last(), distinct, states.drop_last());
    }
}

/// COUNT takes every value.
pub proof fn count_takes_everything(state: StateView, value: ScalarView)
    requires
        state is Count,
    ensures
        state.updated(value) is Ok,
{
}

/// AVG divides the sum of the numbers by how many there are.
pub proof fn average_divides(values: Seq<ScalarView>, distinct: bool, states: Seq<StateView>)
    requires
        is_run(AggregateFunction::Avg, distinct, values, states),
        values.len() <= MAX_VALUES,
    ensures
        ({
            let numbers = counting(values, distinct);
            &&& states.last() is Avg
            &&& states.last()->Avg_sum == sum_as_floats(numbers)
            &&& states.last()->Avg_count == numbers.len()
            &&& states.last()->Avg_distinct == (if distinct {
                Some(numbers)
            } else {
                None
            })
            &&& numbers.len() == 0 ==> states.last().finished() is Null
            &&& numbers.len() > 0 ==> states.last().finished() == ScalarView::Float64(
                float_quotient(sum_as_floats(numbers), whole_float(numbers.len() as i128)),
            )
        }),
    decreases values.len(),
{
    sums_stay_within(values, distinct);
    if values.len() > 0 {
        let before = counting(values.drop_last(), distinct);
        a_shorter_run(AggregateFunction::Avg, distinct, values, states);
        average_divides(values.drop_last(), distinct, states.drop_last());
        assert(before.push(values.last()).drop_last() =~= before);
    }
}

/// Whether a value is among those that are not NULL, and none of them is smaller.
pub open spec fn is_smallest(value: ScalarView, values: Seq<ScalarView>) -> bool {
    &&& !(value is Null)
    &&& values.contains(value)
    &&& forall|i: int|
        0 <= i < values.len() && !((#[trigger] values[i]) is Null) ==> !smaller(values[i], value)
}

pub open spec fn is_largest(value: ScalarView, values: Seq<ScalarView>) -> bool {
    &&& !(value is Null)
    &&& values.contains(value)
    &&& forall|i: int|
        0 <= i < values.len() && !((#[trigger] values[i]) is Null) ==> !smaller(value, values[i])
}

pub open spec fn all_null(values: Seq<ScalarView>) -> bool {
    forall|i: int| 0 <= i < values.len() ==> (#[trigger] values[i]) is Null
}

proof fn irreflexive(value: ScalarView)
    ensures
        !smaller(value, value),
{
    values_compare_by_what_they_are(value, value);
}

proof fn a_minimum_with_one_more(state: StateView, value: ScalarView, next: StateView)
    requires
        state is Min,
        state->Min_0 != Some(ScalarView::Null),
        state.updated(value) == Ok::<StateView, ErrorView>(next),
    ensures
        next is Min,
        next->Min_0 == (if value is Null {
            state->Min_0
        } else if state->Min_0 is None || smaller(value, state->Min_0->Some_0) {
            Some(value)
        } else {
            state->Min_0
        }),
{
    if state->Min_0 is Some {
        values_compare_by_what_they_are(value, state->Min_0->Some_0);
    }
}

proof fn the_smallest_with_one_more(values: Seq<ScalarView>, best: Option<ScalarView>, value: ScalarView)
    requires
        best is None ==> all_null(values),
        best is Some ==> is_smallest(best->Some_0, values),
    ensures
        value is Null && best is None ==> all_null(values.push(value)),
        value is Null && best is Some ==> is_smallest(best->Some_0, values.push(value)),
        !(value is Null) && (best is None || smaller(value, best->Some_0)) ==> is_smallest(
            value,
            values.push(value),
        ),
        !(value is Null) && best is Some && !smaller(value, best->Some_0) ==> is_smallest(
            best->Some_0,
            values.push(value),
        ),
{
    let all = values.push(value);
    assert(all[values.len() as int] == value);
    assert(forall|i: int| 0 <= i < values.len() ==> #[trigger] all[i] == values[i]);
    irreflexive(value);
    if let Some(old) = best {
        let j = choose|j: int| 0 <= j < values.len() && values[j] == old;
        assert(all[j] == old);
        if smaller(value, old) {
            assert forall|i: int|
                0 <= i < all.len() && !((#[trigger] all[i]) is Null) implies !smaller(all[i], value) by {
                if i < values.len() && smaller(all[i], value) {
                    assert(!smaller(values[i], old));
                    smaller_is_transitive(all[i], value, old);
                }
            }
        }
    }
}

/// MIN gives the smallest of the values that are not NULL, and NULL where there is none.
pub proof fn minimum_is_smallest(values: Seq<ScalarView>, distinct: bool, states: Seq<StateView>)
    requires
        is_run(AggregateFunction::Min, distinct, values, states),
    ensures
        states.last() is Min,
        states.last()->Min_0 is None <==> all_null(values),
        states.last()->Min_0 is Some ==> is_smallest(states.last()->Min_0->Some_0, values),
        all_null(values) ==> states.last().finished() is Null,
        !all_null(values) ==> is_smallest(states.last().finished(), values),
    decreases values.len(),
{
    if values.len() > 0 {
        let shorter = values.drop_last();
        let value = values.last();
        let before = states.drop_last().last();
        a_shorter_run(AggregateFunction::Min, distinct, values, states);
        minimum_is_smallest(shorter, distinct, states.drop_last());
        assert(values =~= shorter.push(value));
        a_minimum_with_one_more(before, value, states.last());
        the_smallest_with_one_more(shorter, before->Min_0, value);
        if !(value is Null) {
            assert(!(values[values.len() - 1] is Null));
        }
        if !all_null(shorter) {
            let i = choose|i: int| 0 <= i < shorter.len() && !((#[trigger] shorter[i]) is Null);
            assert(!(values[i] is Null));
        }
    }
}

proof fn a_maximum_with_one_more(state: StateView, value: ScalarView, next: StateView)
    requires
        state is Max,
        state->Max_0 != Some(ScalarView::Null),
        state.updated(value) == Ok::<StateView, ErrorView>(next),
    ensures
        next is Max,
        next->Max_0 == (if value is Null {
            state->Max_0
        } else if state->Max_0 is None || smaller(state->Max_0->Some_0, value) {
            Some(value)
        } else {
            state->Max_0
        }),
{
    if state->Max_0 is Some {
        values_compare_by_what_they_are(value, state->Max_0->Some_0);
    }
}

proof fn the_largest_with_one_more(values: Seq<ScalarView>, best: Option<ScalarView>, value: ScalarView)
    requires
        best is None ==> all_null(values),
        best is Some ==> is_largest(best->Some_0, values),
    ensures
        value is Null && best is None ==> all_null(values.push(value)),
        value is Null && best is Some ==> is_largest(best->Some_0, values.push(value)),
        !(value is Null) && (best is None || smaller(best->Some_0, value)) ==> is_largest(
            value,
            values.push(value),
        ),
        !(value is Null) && best is Some && !smaller(best->Some_0, value) ==> is_largest(
            best->Some_0,
            values.push(value),
        ),
{
    let all = values.push(value);
    assert(all[values.len() as int] == value);
    assert(forall|i: int| 0 <= i < values.len() ==> #[trigger] all[i] == values[i]);
    irreflexive(value);
    if let Some(old) = best {
        let j = choose|j: int| 0 <= j < values.len() && values[j] == old;
        assert(all[j] == old);
        if smaller(old, value) {
            assert forall|i: int|
                0 <= i < all.len() && !((#[trigger] all[i]) is Null) implies !smaller(value, all[i]) by {
                if i < values.len() && smaller(value, all[i]) {
                    assert(!smaller(old, values[i]));
                    smaller_is_transitive(old, value, all[i]);
                }
            }
        }
    }
}

/// MAX gives the largest of the values that are not NULL, and NULL where there is none.
pub proof fn maximum_is_largest(values: Seq<ScalarView>, distinct: bool, states: Seq<StateView>)
    requires
        is_run(AggregateFunction::Max, distinct, values, states),
    ensures
        states.last() is Max,
        states.last()->Max_0 is None <==> all_null(values),
        states.last()->Max_0 is Some ==> is_largest(states.last()->Max_0->Some_0, values),
        all_null(values) ==> states.last().finished() is Null,
        !all_null(values) ==> is_largest(states.last().finished(), values),
    decreases values.len(),
{
    if values.len() > 0 {
        let shorter = values.drop_last();
        let value = values.last();
        let before = states.drop_last().last();
        a_shorter_run(AggregateFunction::Max, distinct, values, states);
        maximum_is_largest(shorter, distinct, states.drop_last());
        assert(values =~= shorter.push(value));
        a_maximum_with_one_more(before, value, states.last());
        the_largest_with_one_more(shorter, before->Max_0, value);
        if !(value is Null) {
            assert(!(values[values.len() - 1] is Null));
        }
        if !all_null(shorter) {
            let i = choose|i: int| 0 <= i < shorter.len() && !((#[trigger] shorter[i]) is Null);
            assert(!(values[i] is Null));
        }
    }
}

/// MIN and MAX take NULL, the first value whatever it is, and then every value of its type.
pub proof fn extremes_take_one_type(state: StateView, value: ScalarView)
    requires
        state is Min || state is Max,
    ensures
        ({
            let best = if state is Min {
                state->Min_0
            } else {
                state->Max_0
            };
            best != Some(ScalarView::Null) ==> (state.updated(value) is Ok <==> value is Null
                || best is None || alike(value, best->Some_0))
        }),
{
    let best = if state is Min {
        state->Min_0
    } else {
        state->Max_0
    };
    if best is Some {
        values_compare_by_what_they_are(value, best->Some_0);
    }
}

/// What a function makes of some values, one after the other, comes of a run.
pub proof fn what_is_folded_is_a_run(
    function: AggregateFunction,
    distinct: bool,
    values: Seq<ScalarView>,
    state: StateView,
)
    requires
        folded(StateView::fresh(function, distinct), values, values.len() as int) == Ok::<
            StateView,
            ErrorView,
        >(state),
    ensures
        exists|states: Seq<StateView>| #[trigger]
            is_run(function, distinct, values, states) && states.last() == state,
{
    let fresh = StateView::fresh(function, distinct);
    let states = Seq::new(values.len() + 1, |k: int| folded(fresh, values, k)->Ok_0);
    assert forall|k: int| 0 <= k < values.len() implies (#[trigger] states[k]).updated(values[k])
        == Ok::<StateView, ErrorView>(states[k + 1]) by {
        folds_stay_sound(fresh, values, k + 1, values.len() as int);
        folds_stay_sound(fresh, values, k, values.len() as int);
    }
    assert(is_run(function, distinct, values, states));
}

proof fn folds_stay_sound(state: StateView, values: Seq<ScalarView>, upto: int, full: int)
    requires
        0 <= upto <= full,
        folded(state, values, full) is Ok,
    ensures
        folded(state, values, upto) is Ok,
    decreases full - upto,
{
    if upto < full {
        folds_stay_sound(state, values, upto + 1, full);
    }
}

} // verus!

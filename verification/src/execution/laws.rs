//! What holds of the operators as a whole.

use crate::batch::BatchView;
use crate::column::ColumnView;
use crate::distributed::partial::{count_sum, merged_extreme};
use crate::error::ErrorView;
use crate::execution::aggregate::{
    group_place, group_place_is_within, grouped, place_after, place_after_is_within, row_grouped,
    rows_grouped, sorted_groups, with_group, CallView, GroupView,
};
use crate::execution::rows::{computed, row_values};
use crate::execution::run::topmost;
use crate::execution::state::StateView;
use crate::execution::stream::{
    filtered, filtered_by_all, first_rows, limited, remaining_after, rows_kept,
};
use crate::expr::{AggregateFunction, ExprView};
use crate::scalar::ScalarView;
use crate::text::{before, before_is_strict, before_is_total, before_is_transitive, Relation};
use vstd::prelude::*;

verus! {

/// A predicate that a scan applies after its own is the same as one that is applied to what the
/// scan gives.
pub proof fn a_filter_may_move_into_a_scan(
    batch: BatchView,
    predicates: Seq<ExprView>,
    predicate: ExprView,
)
    ensures
        filtered_by_all(batch, predicates.push(predicate), predicates.len() as int + 1) == (
        match filtered_by_all(batch, predicates, predicates.len() as int) {
            Err(error) => Err(error),
            Ok(rest) => filtered(rest, predicate),
        }),
{
    same_predicates(batch, predicates, predicates.push(predicate), predicates.len() as int);
}

proof fn same_predicates(
    batch: BatchView,
    shorter: Seq<ExprView>,
    longer: Seq<ExprView>,
    upto: int,
)
    requires
        0 <= upto <= shorter.len() <= longer.len(),
        forall|i: int| 0 <= i < shorter.len() ==> #[trigger] longer[i] == shorter[i],
    ensures
        filtered_by_all(batch, longer, upto) == filtered_by_all(batch, shorter, upto),
    decreases upto,
{
    if upto > 0 {
        same_predicates(batch, shorter, longer, upto - 1);
    }
}

/// Whether no two groups have the same key.
pub open spec fn keys_differ(groups: Seq<GroupView>) -> bool {
    forall|i: int, j: int|
        0 <= i < j < groups.len() ==> (#[trigger] groups[i]).key != (#[trigger] groups[j]).key
}

proof fn a_row_keeps_keys_apart(
    groups: Seq<GroupView>,
    calls: Seq<CallView>,
    keys: Seq<ColumnView>,
    arguments: Seq<Option<ColumnView>>,
    row: int,
)
    requires
        keys_differ(groups),
    ensures
        row_grouped(groups, calls, keys, arguments, row) matches Ok(next) ==> keys_differ(next),
{
    if let Ok(key) = row_values(keys, row, keys.len() as int) {
        group_place_is_within(groups, key, 0);
        let place = group_place(groups, key, 0);
        let ready = with_group(groups, calls, key);
        assert(ready[place].key == key);
        if let Ok(next) = row_grouped(groups, calls, keys, arguments, row) {
            assert forall|i: int, j: int| 0 <= i < j < next.len() implies (
            #[trigger] next[i]).key != (#[trigger] next[j]).key by {
                assert(next[i].key == ready[i].key);
                assert(next[j].key == ready[j].key);
                if j == groups.len() {
                    assert(groups[i].key != key);
                }
            }
        }
    }
}

proof fn rows_keep_keys_apart(
    groups: Seq<GroupView>,
    calls: Seq<CallView>,
    keys: Seq<ColumnView>,
    arguments: Seq<Option<ColumnView>>,
    upto: int,
)
    requires
        keys_differ(groups),
    ensures
        rows_grouped(groups, calls, keys, arguments, upto) matches Ok(next) ==> keys_differ(next),
    decreases upto,
{
    if upto > 0 {
        rows_keep_keys_apart(groups, calls, keys, arguments, upto - 1);
        if let Ok(before) = rows_grouped(groups, calls, keys, arguments, upto - 1) {
            a_row_keeps_keys_apart(before, calls, keys, arguments, upto - 1);
        }
    }
}

/// Rows with the same values in the group expressions come into one group, whatever batches they
/// are in.
pub proof fn a_key_has_one_group(
    batches: Seq<BatchView>,
    calls: Seq<CallView>,
    group_exprs: Seq<ExprView>,
    upto: int,
)
    requires
        0 <= upto <= batches.len(),
    ensures
        grouped(batches, calls, group_exprs, upto) matches Ok(groups) ==> keys_differ(groups),
    decreases upto,
{
    if upto > 0 {
        a_key_has_one_group(batches, calls, group_exprs, upto - 1);
        if let Ok(before) = grouped(batches, calls, group_exprs, upto - 1) {
            if let Ok(keys) = computed(group_exprs, batches[upto - 1], group_exprs.len() as int) {
                if let Ok(arguments) = crate::execution::aggregate::arguments_of(
                    calls,
                    batches[upto - 1],
                    calls.len() as int,
                ) {
                    rows_keep_keys_apart(
                        before,
                        calls,
                        keys,
                        arguments,
                        batches[upto - 1].rows as int,
                    );
                }
            }
        }
    }
}

/// Sorting groups loses none and makes none.
pub proof fn sorting_keeps_the_groups(groups: Seq<GroupView>, upto: int)
    requires
        0 <= upto <= groups.len(),
    ensures
        sorted_groups(groups, upto).len() == upto,
        sorted_groups(groups, upto).to_multiset() == groups.take(upto).to_multiset(),
    decreases upto,
{
    broadcast use vstd::seq_lib::group_to_multiset_ensures;

    if upto > 0 {
        sorting_keeps_the_groups(groups, upto - 1);
        let before = sorted_groups(groups, upto - 1);
        let group = groups[upto - 1];
        let place = place_after(before, group.key, 0);
        place_after_is_within(before, group.key, 0);
        let after = before.insert(place, group);
        assert(after =~= before.take(place).push(group) + before.skip(place));
        assert(before =~= before.take(place) + before.skip(place));
        vstd::seq_lib::lemma_multiset_commutative(
            before.take(place).push(group),
            before.skip(place),
        );
        vstd::seq_lib::lemma_multiset_commutative(before.take(place), before.skip(place));
        assert(after.to_multiset() =~= before.to_multiset().insert(group));
        assert(groups.take(upto) =~= groups.take(upto - 1).push(group));
        assert(groups.take(upto).to_multiset() =~= groups.take(upto - 1).to_multiset().insert(
            group,
        ));
    } else {
        assert(sorted_groups(groups, 0) =~= groups.take(0));
    }
}

/// The state of a function after the first `upto` of some values.
pub open spec fn folded(state: StateView, values: Seq<ScalarView>, upto: int) -> Result<
    StateView,
    ErrorView,
>
    decreases upto,
{
    if upto <= 0 {
        Ok(state)
    } else {
        match folded(state, values, upto - 1) {
            Err(error) => Err(error),
            Ok(before) => before.updated(values[upto - 1]),
        }
    }
}

/// How many of the first `upto` values are not NULL.
pub open spec fn present(values: Seq<ScalarView>, upto: int) -> nat
    decreases upto,
{
    if upto <= 0 {
        0
    } else if values[upto - 1] is Null {
        present(values, upto - 1)
    } else {
        present(values, upto - 1) + 1
    }
}

/// COUNT counts the values that are not NULL.
pub proof fn count_counts_what_is_present(values: Seq<ScalarView>, upto: int)
    requires
        0 <= upto <= values.len(),
    ensures
        folded(StateView::fresh(AggregateFunction::Count, false), values, upto) == Ok::<
            StateView,
            ErrorView,
        >(StateView::Count { value: present(values, upto) as int, distinct: None }),
    decreases upto,
{
    if upto > 0 {
        count_counts_what_is_present(values, upto - 1);
    }
}

pub(crate) proof fn present_splits(left: Seq<ScalarView>, right: Seq<ScalarView>, upto: int)
    requires
        0 <= upto <= right.len(),
    ensures
        present(left + right, left.len() + upto) == present(left, left.len() as int) + present(
            right,
            upto,
        ),
    decreases upto,
{
    if upto > 0 {
        present_splits(left, right, upto - 1);
        assert((left + right)[left.len() + upto - 1] == right[upto - 1]);
    } else {
        present_of_prefix(left, right, left.len() as int);
    }
}

proof fn present_of_prefix(left: Seq<ScalarView>, right: Seq<ScalarView>, upto: int)
    requires
        0 <= upto <= left.len(),
    ensures
        present(left + right, upto) == present(left, upto),
    decreases upto,
{
    if upto > 0 {
        present_of_prefix(left, right, upto - 1);
        assert((left + right)[upto - 1] == left[upto - 1]);
    }
}

/// A count over two partitions together is the merge of the counts over each: counting in parts
/// changes nothing.
pub proof fn counts_merge(left: Seq<ScalarView>, right: Seq<ScalarView>)
    requires
        left.len() + right.len() <= u64::MAX,
    ensures
        ({
            let fresh = StateView::fresh(AggregateFunction::Count, false);
            let all = folded(fresh, left + right, (left + right).len() as int)->Ok_0;
            let first = folded(fresh, left, left.len() as int)->Ok_0;
            let second = folded(fresh, right, right.len() as int)->Ok_0;
            &&& first.finished() matches ScalarView::UInt64(count) && count_sum(
                count,
                second.finished(),
            ) == Ok::<u64, ErrorView>(all.finished()->UInt64_0)
            &&& all.finished() is UInt64
        }),
{
    let whole = left + right;
    count_counts_what_is_present(left, left.len() as int);
    count_counts_what_is_present(right, right.len() as int);
    count_counts_what_is_present(whole, whole.len() as int);
    present_splits(left, right, right.len() as int);
    present_is_bounded(left, left.len() as int);
    present_is_bounded(right, right.len() as int);
}

pub(crate) proof fn present_is_bounded(values: Seq<ScalarView>, upto: int)
    requires
        0 <= upto,
    ensures
        present(values, upto) <= upto,
    decreases upto,
{
    if upto > 0 {
        present_is_bounded(values, upto - 1);
    }
}

/// Whether any two of some values that are not NULL can be compared.
pub open spec fn comparable(values: Seq<ScalarView>) -> bool {
    forall|i: int, j: int|
        0 <= i < values.len() && 0 <= j < values.len() && !(values[i] is Null) && !(
        values[j] is Null) ==> (#[trigger] values[i].compare(#[trigger] values[j])) is Some
}

/// Comparing values is transitive, whichever way round.
proof fn compare_is_transitive(a: ScalarView, b: ScalarView, c: ScalarView, wanted: Relation)
    requires
        a.compare(b) is Some,
        b.compare(c) is Some,
        a.compare(c) is Some,
        !(a is Null),
        !(b is Null),
        !(c is Null),
        wanted == Relation::Less || wanted == Relation::Greater,
    ensures
        a.compare(b) == Some(wanted) && b.compare(c) == Some(wanted) ==> a.compare(c) == Some(
            wanted,
        ),
        a.compare(b) != Some(wanted) && b.compare(c) != Some(wanted) ==> a.compare(c) != Some(
            wanted,
        ),
{
    if let (ScalarView::Utf8(x), ScalarView::Utf8(y), ScalarView::Utf8(z)) = (a, b, c) {
        before_is_total(x, y);
        before_is_total(y, z);
        before_is_total(x, z);
        before_is_strict(x, y);
        before_is_strict(y, z);
        before_is_strict(x, z);
        if before(x, y) && before(y, z) {
            before_is_transitive(x, y, z);
        }
        if before(z, y) && before(y, x) {
            before_is_transitive(z, y, x);
        }
        if before(x, z) && before(z, y) {
            before_is_transitive(x, z, y);
        }
        if before(y, x) && before(x, z) {
            before_is_transitive(y, x, z);
        }
        if before(z, x) && before(x, y) {
            before_is_transitive(z, x, y);
        }
        if before(y, z) && before(z, x) {
            before_is_transitive(y, z, x);
        }
    }
}

/// The best of the first `upto` values: the smallest or the largest, and the first of equal ones.
pub open spec fn best(values: Seq<ScalarView>, wanted: Relation, upto: int) -> Option<ScalarView>
    decreases upto,
{
    if upto <= 0 {
        None
    } else {
        let before = best(values, wanted, upto - 1);
        let value = values[upto - 1];
        match before {
            None => if value is Null {
                None
            } else {
                Some(value)
            },
            Some(other) => if !(value is Null) && value.compare(other) == Some(wanted) {
                Some(value)
            } else {
                before
            },
        }
    }
}

pub(crate) proof fn the_best_is_a_value(values: Seq<ScalarView>, wanted: Relation, upto: int)
    requires
        0 <= upto <= values.len(),
    ensures
        best(values, wanted, upto) matches Some(value) ==> !(value is Null) && exists|i: int|
            0 <= i < upto && #[trigger] values[i] == value,
    decreases upto,
{
    if upto > 0 {
        the_best_is_a_value(values, wanted, upto - 1);
        if let Some(value) = best(values, wanted, upto) {
            if best(values, wanted, upto - 1) == Some(value) {
                let i = choose|i: int| 0 <= i < upto - 1 && #[trigger] values[i] == value;
                assert(values[i] == value);
            } else {
                assert(values[upto - 1] == value);
            }
        }
    }
}

/// MIN and MAX give the best of the values, where the values can be compared.
pub proof fn extremes_are_best(values: Seq<ScalarView>, upto: int)
    requires
        0 <= upto <= values.len(),
        comparable(values),
    ensures
        folded(StateView::fresh(AggregateFunction::Min, false), values, upto) == Ok::<
            StateView,
            ErrorView,
        >(StateView::Min(best(values, Relation::Less, upto))),
        folded(StateView::fresh(AggregateFunction::Max, false), values, upto) == Ok::<
            StateView,
            ErrorView,
        >(StateView::Max(best(values, Relation::Greater, upto))),
    decreases upto,
{
    if upto > 0 {
        extremes_are_best(values, upto - 1);
        the_best_is_a_value(values, Relation::Less, upto - 1);
        the_best_is_a_value(values, Relation::Greater, upto - 1);
        let value = values[upto - 1];
        if let Some(other) = best(values, Relation::Less, upto - 1) {
            let i = choose|i: int| 0 <= i < upto - 1 && #[trigger] values[i] == other;
            if !(value is Null) {
                assert(values[upto - 1].compare(values[i]) is Some);
            }
        }
        if let Some(other) = best(values, Relation::Greater, upto - 1) {
            let i = choose|i: int| 0 <= i < upto - 1 && #[trigger] values[i] == other;
            if !(value is Null) {
                assert(values[upto - 1].compare(values[i]) is Some);
            }
        }
    }
}

/// The better of two, the first where they are equal.
pub(crate) open spec fn better(a: Option<ScalarView>, b: Option<ScalarView>, wanted: Relation) -> Option<ScalarView> {
    match (a, b) {
        (None, _) => b,
        (_, None) => a,
        (Some(x), Some(y)) => if y.compare(x) == Some(wanted) {
            b
        } else {
            a
        },
    }
}

pub(crate) proof fn the_best_splits(
    left: Seq<ScalarView>,
    right: Seq<ScalarView>,
    wanted: Relation,
    upto: int,
)
    requires
        0 <= upto <= right.len(),
        comparable(left + right),
        wanted == Relation::Less || wanted == Relation::Greater,
    ensures
        best(left + right, wanted, left.len() + upto) == better(
            best(left, wanted, left.len() as int),
            best(right, wanted, upto),
            wanted,
        ),
    decreases upto,
{
    let whole = left + right;
    let first = best(left, wanted, left.len() as int);
    if upto > 0 {
        the_best_splits(left, right, wanted, upto - 1);
        let value = right[upto - 1];
        assert(whole[left.len() + upto - 1] == value);
        the_best_is_a_value(left, wanted, left.len() as int);
        the_best_is_a_value(right, wanted, upto - 1);
        if let (Some(x), Some(y)) = (first, best(right, wanted, upto - 1)) {
            let i = choose|i: int| 0 <= i < left.len() && #[trigger] left[i] == x;
            let j = choose|j: int| 0 <= j < upto - 1 && #[trigger] right[j] == y;
            assert(whole[i] == x);
            assert(whole[left.len() + j] == y);
            if !(value is Null) {
                assert(whole[left.len() + upto - 1].compare(whole[i]) is Some);
                assert(whole[left.len() + upto - 1].compare(whole[left.len() + j]) is Some);
                assert(whole[left.len() + j].compare(whole[i]) is Some);
                compare_is_transitive(value, y, x, wanted);
            }
        }
    } else {
        the_best_of_a_prefix(left, right, wanted, left.len() as int);
    }
}

proof fn the_best_of_a_prefix(
    left: Seq<ScalarView>,
    right: Seq<ScalarView>,
    wanted: Relation,
    upto: int,
)
    requires
        0 <= upto <= left.len(),
    ensures
        best(left + right, wanted, upto) == best(left, wanted, upto),
    decreases upto,
{
    if upto > 0 {
        the_best_of_a_prefix(left, right, wanted, upto - 1);
        assert((left + right)[upto - 1] == left[upto - 1]);
    }
}

/// The smallest (or largest) value of two partitions together is the merge of those of each, where
/// the values can be compared: looking for it in parts changes nothing.
pub proof fn extremes_merge(left: Seq<ScalarView>, right: Seq<ScalarView>, wanted: Relation)
    requires
        comparable(left + right),
        wanted == Relation::Less || wanted == Relation::Greater,
    ensures
        ({
            let function = if wanted == Relation::Less {
                AggregateFunction::Min
            } else {
                AggregateFunction::Max
            };
            let fresh = StateView::fresh(function, false);
            let all = folded(fresh, left + right, (left + right).len() as int)->Ok_0;
            let first = folded(fresh, left, left.len() as int)->Ok_0;
            let second = folded(fresh, right, right.len() as int)->Ok_0;
            match merged_extreme(None, first.finished(), wanted) {
                Ok(once) => match merged_extreme(once, second.finished(), wanted) {
                    Ok(Some(twice)) => twice == all.finished(),
                    Ok(None) => all.finished() is Null,
                    Err(_) => false,
                },
                Err(_) => false,
            }
        }),
{
    let whole = left + right;
    assert(comparable(left)) by {
        assert forall|i: int, j: int|
            0 <= i < left.len() && 0 <= j < left.len() && !(left[i] is Null) && !(
            left[j] is Null) implies (#[trigger] left[i].compare(#[trigger] left[j])) is Some by {
            assert(whole[i] == left[i] && whole[j] == left[j]);
            assert(whole[i].compare(whole[j]) is Some);
        }
    }
    assert(comparable(right)) by {
        assert forall|i: int, j: int|
            0 <= i < right.len() && 0 <= j < right.len() && !(right[i] is Null) && !(
            right[j] is Null) implies (#[trigger] right[i].compare(
            #[trigger] right[j],
        )) is Some by {
            assert(whole[left.len() + i] == right[i] && whole[left.len() + j] == right[j]);
            assert(whole[left.len() + i].compare(whole[left.len() + j]) is Some);
        }
    }
    extremes_are_best(left, left.len() as int);
    extremes_are_best(right, right.len() as int);
    extremes_are_best(whole, whole.len() as int);
    the_best_splits(left, right, wanted, right.len() as int);
    the_best_is_a_value(left, wanted, left.len() as int);
    the_best_is_a_value(right, wanted, right.len() as int);
    if let (Some(x), Some(y)) = (
        best(left, wanted, left.len() as int),
        best(right, wanted, right.len() as int),
    ) {
        let i = choose|i: int| 0 <= i < left.len() && #[trigger] left[i] == x;
        let j = choose|j: int| 0 <= j < right.len() && #[trigger] right[j] == y;
        assert(whole[i] == x);
        assert(whole[left.len() + j] == y);
        assert(whole[left.len() + j].compare(whole[i]) is Some);
    }
}

/// The topmost rows are those that a limit keeps of the sorted ones. A limit gives no batch where it
/// keeps no row.
pub proof fn the_topmost_are_sorted_and_limited(batch: BatchView, limit: int)
    requires
        limit >= 0,
    ensures
        limit > 0 && batch.rows > 0 ==> topmost(Ok(batch), limit) == Ok::<
            Seq<BatchView>,
            ErrorView,
        >(limited(seq![batch], limit, 1)),
        topmost(Ok(batch), limit) matches Ok(rows) && rows.len() == 1 && rows[0].rows == (
        if batch.rows < limit {
            batch.rows as int
        } else {
            limit
        }),
{
    reveal_with_fuel(limited, 2);
    reveal_with_fuel(remaining_after, 2);
    if limit > 0 && batch.rows > 0 {
        let kept = seq![first_rows(batch, rows_kept(batch, limit))];
        assert(limited(seq![batch], limit, 1) =~= kept);
    }
}

} // verus!

//! What merging makes of the groups of several partitions.

use crate::batch::BatchView;
use crate::cells::cell_value;
use crate::column::ColumnView;
use crate::distributed::merge::{
    absorbed, batches_merged, column_place, fresh_merges, merge_place, merge_place_after,
    merge_sorted, row_merged, rows_merged, states_of_calls, MergeGroupView, MergeTable,
};
use crate::distributed::partial::{as_float, count_sum, merged_extreme, MergeView};
use crate::distributed::written::{holds_rows, is_kept, reading_is_by_row, written};
use crate::error::ErrorView;
use crate::execution::aggregate::{
    finished_states, group_place, group_place_is_within, group_row_values, group_rows, CallView,
    GroupView,
};
use crate::execution::laws::keys_differ;
use crate::kernels::{float_sum, row_of};
use crate::memory::MemoryView;
use crate::scalar::ScalarView;
use crate::text::Relation;
use crate::types::{DataTypeView, FieldView};
use vstd::prelude::*;

verus! {

/// A key as a row of columns.
pub open spec fn typed_key(key: Seq<ScalarView>, types: Seq<DataTypeView>) -> Seq<ColumnView> {
    Seq::new(types.len(), |j: int| written(key[j], types[j]))
}

/// The key in a row of columns.
pub open spec fn read_key(row: Seq<ColumnView>) -> Seq<ScalarView> {
    Seq::new(row.len(), |j: int| cell_value(row[j], 0)->Ok_0)
}

/// Whether a key is kept when it is written into columns.
pub open spec fn key_is_kept(key: Seq<ScalarView>, types: Seq<DataTypeView>) -> bool {
    &&& key.len() == types.len()
    &&& forall|j: int| 0 <= j < types.len() ==> is_kept(#[trigger] key[j], types[j])
}

pub(crate) proof fn keys_read_back(key: Seq<ScalarView>, types: Seq<DataTypeView>)
    requires
        key_is_kept(key, types),
    ensures
        read_key(typed_key(key, types)) == key,
{
    assert forall|j: int| 0 <= j < key.len() implies read_key(typed_key(key, types))[j]
        == key[j] by {
        assert(is_kept(key[j], types[j]));
    }
    assert(read_key(typed_key(key, types)) =~= key);
}

/// The state of a merge after one more partial result, or the two of an average.
pub open spec fn took(state: MergeView, first: ScalarView, second: ScalarView) -> Result<
    MergeView,
    ErrorView,
> {
    match state {
        MergeView::Count(total) => match count_sum(total, first) {
            Err(error) => Err(error),
            Ok(total) => Ok(MergeView::Count(total)),
        },
        MergeView::Sum { value: total, .. } => if first is Null {
            Ok(state)
        } else {
            match as_float(first) {
                Err(error) => Err(error),
                Ok(bits) => Ok(MergeView::Sum { value: float_sum(total, bits), seen: true }),
            }
        },
        MergeView::Min(current) => match merged_extreme(current, first, Relation::Less) {
            Err(error) => Err(error),
            Ok(next) => Ok(MergeView::Min(next)),
        },
        MergeView::Max(current) => match merged_extreme(current, first, Relation::Greater) {
            Err(error) => Err(error),
            Ok(next) => Ok(MergeView::Max(next)),
        },
        MergeView::Avg { sum, count } => match as_float(first) {
            Err(error) => Err(error),
            Ok(bits) => match count_sum(count, second) {
                Err(error) => Err(error),
                Ok(count) => Ok(MergeView::Avg { sum: float_sum(sum, bits), count }),
            },
        },
    }
}

/// Where the partial results of a call stand among those of all.
pub open spec fn offset(calls: Seq<CallView>, call: int) -> int {
    column_place(fresh_merges(calls), 0, call)
}

/// The partial result of a group at a place.
pub open spec fn result_at(group: GroupView, place: int) -> ScalarView {
    finished_states(group.states)[place]
}

/// The state of a call's merge for a key, after the groups of the first `upto` partitions: those that
/// have the key, one after the other.
pub open spec fn merge_value(
    calls: Seq<CallView>,
    parts: Seq<Seq<GroupView>>,
    call: int,
    key: Seq<ScalarView>,
    upto: int,
) -> MergeView
    decreases upto,
{
    if upto <= 0 {
        MergeView::fresh(calls[call].function)
    } else {
        let before = merge_value(calls, parts, call, key, upto - 1);
        let part = parts[upto - 1];
        let place = group_place(part, key, 0);
        if place < part.len() {
            took(
                before,
                result_at(part[place], offset(calls, call)),
                result_at(part[place], offset(calls, call) + 1),
            )->Ok_0
        } else {
            before
        }
    }
}

/// Whether one of the first `upto` partitions has a group with a key.
pub open spec fn parts_have(parts: Seq<Seq<GroupView>>, key: Seq<ScalarView>, upto: int) -> bool {
    exists|p: int, h: int|
        0 <= p < upto && 0 <= h < parts[p].len() && (#[trigger] parts[p][h]).key == key
}

/// Whether one of the first `upto` groups of a partition has a key.
pub open spec fn part_has(part: Seq<GroupView>, key: Seq<ScalarView>, upto: int) -> bool {
    exists|h: int| 0 <= h < upto && (#[trigger] part[h]).key == key
}

pub open spec fn has_row(groups: Seq<MergeGroupView>, row: Seq<ColumnView>) -> bool {
    exists|g: int| 0 <= g < groups.len() && (#[trigger] groups[g]).row == row
}

/// Whether a merged group is what the groups with its key make of it: those of the first `upto`
/// partitions, and of the next one those among its first `row` groups.
pub open spec fn is_merged_group(
    group: MergeGroupView,
    parts: Seq<Seq<GroupView>>,
    calls: Seq<CallView>,
    types: Seq<DataTypeView>,
    whole: bool,
    upto: int,
    row: int,
) -> bool {
    let key = read_key(group.row);
    &&& key_is_kept(key, types)
    &&& group.row == typed_key(key, types)
    &&& states_of_calls(group.states, calls)
    &&& parts_have(parts, key, upto) || (row > 0 && part_has(parts[upto], key, row)) || (whole
        && key.len() == 0)
    &&& forall|a: int|
        0 <= a < calls.len() ==> #[trigger] group.states[a] == merge_value(
            calls,
            parts,
            a,
            key,
            if row > 0 && part_has(parts[upto], key, row) {
                upto + 1
            } else {
                upto
            },
        )
}

pub open spec fn rows_differ(groups: Seq<MergeGroupView>) -> bool {
    forall|g: int, h: int|
        0 <= g < h < groups.len() ==> (#[trigger] groups[g]).row != (#[trigger] groups[h]).row
}

/// Whether merged groups are those of the first `upto` partitions, and of the first `row` groups of
/// the next one.
pub open spec fn are_merged_groups(
    groups: Seq<MergeGroupView>,
    parts: Seq<Seq<GroupView>>,
    calls: Seq<CallView>,
    types: Seq<DataTypeView>,
    whole: bool,
    upto: int,
    row: int,
) -> bool {
    &&& rows_differ(groups)
    &&& forall|g: int|
        0 <= g < groups.len() ==> is_merged_group(
            #[trigger] groups[g],
            parts,
            calls,
            types,
            whole,
            upto,
            row,
        )
    &&& forall|p: int, h: int|
        0 <= p < upto && 0 <= h < parts[p].len() ==> has_row(
            groups,
            typed_key((#[trigger] parts[p][h]).key, types),
        )
    &&& forall|h: int|
        0 <= h < row ==> has_row(groups, typed_key((#[trigger] parts[upto][h]).key, types))
    &&& whole ==> has_row(groups, Seq::empty())
}

/// Whether a batch holds the groups of a partition, in a way that they are read back.
pub open spec fn holds_part(
    batch: BatchView,
    part: Seq<GroupView>,
    calls: Seq<CallView>,
    types: Seq<DataTypeView>,
    fields: Seq<FieldView>,
) -> bool {
    &&& holds_rows(batch, group_rows(part), fields)
    &&& keys_differ(part)
    &&& fields.len() == types.len() + offset(calls, calls.len() as int)
    &&& forall|j: int| 0 <= j < types.len() ==> (#[trigger] fields[j]).data_type == types[j]
    &&& forall|h: int|
        0 <= h < part.len() ==> key_is_kept((#[trigger] part[h]).key, types)
            && part[h].states.len() == offset(calls, calls.len() as int)
    &&& forall|h: int, j: int|
        #![trigger part[h].states[j]]
        0 <= h < part.len() && 0 <= j < part[h].states.len() ==> is_kept(
            part[h].states[j].finished(),
            fields[types.len() + j].data_type,
        )
}

proof fn offsets_grow(calls: Seq<CallView>, low: int, high: int)
    requires
        0 <= low <= high,
    ensures
        offset(calls, low) + (high - low) <= offset(calls, high),
    decreases high - low,
{
    if low < high {
        offsets_grow(calls, low, high - 1);
    }
}

proof fn places_follow_offsets(
    states: Seq<MergeView>,
    calls: Seq<CallView>,
    first: int,
    upto: int,
)
    requires
        states_of_calls(states, calls),
        0 <= upto <= calls.len(),
    ensures
        column_place(states, first, upto) == first + offset(calls, upto),
    decreases upto,
{
    if upto > 0 {
        places_follow_offsets(states, calls, first, upto - 1);
    }
}

proof fn absorbing_is_by_call(
    states: Seq<MergeView>,
    columns: Seq<ColumnView>,
    first: int,
    row: int,
    upto: int,
)
    requires
        0 <= upto <= states.len(),
    ensures
        absorbed(states, columns, first, row, upto) matches Ok(next) ==> {
            &&& next.len() == states.len()
            &&& forall|a: int|
                0 <= a < upto ==> states[a].merged(columns, column_place(states, first, a), row)
                    == Ok::<MergeView, ErrorView>(#[trigger] next[a])
            &&& forall|a: int| upto <= a < states.len() ==> #[trigger] next[a] == states[a]
        },
    decreases upto,
{
    if upto > 0 {
        absorbing_is_by_call(states, columns, first, row, upto - 1);
    }
}

proof fn merge_place_is_within(groups: Seq<MergeGroupView>, row: Seq<ColumnView>, from: int)
    requires
        0 <= from <= groups.len(),
    ensures
        from <= merge_place(groups, row, from) <= groups.len(),
        merge_place(groups, row, from) < groups.len() ==> groups[merge_place(
            groups,
            row,
            from,
        )].row == row,
        forall|g: int|
            from <= g < merge_place(groups, row, from) ==> (#[trigger] groups[g]).row != row,
    decreases groups.len() - from,
{
    if from < groups.len() && groups[from].row != row {
        merge_place_is_within(groups, row, from + 1);
    }
}

proof fn unknown_keys_are_fresh(
    calls: Seq<CallView>,
    parts: Seq<Seq<GroupView>>,
    a: int,
    key: Seq<ScalarView>,
    upto: int,
)
    requires
        0 <= upto <= parts.len(),
        !parts_have(parts, key, upto),
    ensures
        merge_value(calls, parts, a, key, upto) == MergeView::fresh(calls[a].function),
    decreases upto,
{
    if upto > 0 {
        assert(!parts_have(parts, key, upto - 1));
        unknown_keys_are_fresh(calls, parts, a, key, upto - 1);
        let part = parts[upto - 1];
        group_place_is_within(part, key, 0);
        let place = group_place(part, key, 0);
        if place < part.len() {
            assert(parts[upto - 1][place].key == key);
        }
    }
}

/// The row of a batch that holds the groups of a partition: the key first, then the partial results.
proof fn a_row_is_read(
    batch: BatchView,
    part: Seq<GroupView>,
    calls: Seq<CallView>,
    types: Seq<DataTypeView>,
    fields: Seq<FieldView>,
    row: int,
)
    requires
        holds_part(batch, part, calls, types, fields),
        0 <= row < part.len(),
    ensures
        row_of(batch.columns.take(types.len() as int), row) == typed_key(part[row].key, types),
        forall|j: int|
            0 <= j < part[row].states.len() ==> #[trigger] cell_value(
                batch.columns[types.len() + j],
                row,
            ) == Ok::<ScalarView, ErrorView>(result_at(part[row], j)),
{
    let rows = group_rows(part);
    let count = types.len() as int;
    assert(rows[row] == group_row_values(part[row]));
    assert(key_is_kept(part[row].key, types));
    offsets_grow(calls, 0, calls.len() as int);
    let found = row_of(batch.columns.take(count), row);
    assert forall|j: int| 0 <= j < count implies found[j] == typed_key(part[row].key, types)[j] by {
        assert(batch.columns.take(count)[j] == batch.columns[j]);
        assert(batch.columns[j].taken(seq![row]) == written(rows[row][j], fields[j].data_type));
        assert(rows[row][j] == part[row].key[j]);
    }
    assert(found =~= typed_key(part[row].key, types));
    assert forall|j: int| 0 <= j < part[row].states.len() implies #[trigger] cell_value(
        batch.columns[types.len() + j],
        row,
    ) == Ok::<ScalarView, ErrorView>(result_at(part[row], j)) by {
        let column = batch.columns[types.len() + j];
        assert(column.taken(seq![row]) == written(
            rows[row][types.len() + j],
            fields[types.len() + j].data_type,
        ));
        assert(rows[row][types.len() + j] == result_at(part[row], j));
        assert(is_kept(
            part[row].states[j].finished(),
            fields[types.len() + j].data_type,
        ));
        reading_is_by_row(column, row);
    }
}

/// One more row of a partition's batch brings its group into the merge.
#[verifier::rlimit(80)]
#[verifier::spinoff_prover]
proof fn a_row_is_merged(
    table: MergeTable,
    keys: Seq<Seq<u8>>,
    batch: BatchView,
    parts: Seq<Seq<GroupView>>,
    calls: Seq<CallView>,
    types: Seq<DataTypeView>,
    fields: Seq<FieldView>,
    whole: bool,
    upto: int,
    row: int,
)
    requires
        0 <= upto < parts.len(),
        0 <= row < parts[upto].len(),
        holds_part(batch, parts[upto], calls, types, fields),
        are_merged_groups(table.groups, parts, calls, types, whole, upto, row),
    ensures
        row_merged(table, calls, keys, batch.columns, types.len(), row) matches Ok(next)
            ==> are_merged_groups(next.groups, parts, calls, types, whole, upto, row + 1),
{
    if let Ok(result) = row_merged(table, calls, keys, batch.columns, types.len(), row) {
        let part = parts[upto];
        let groups = table.groups;
        let key = part[row].key;
        let typed = typed_key(key, types);
        a_row_is_read(batch, part, calls, types, fields, row);
        keys_read_back(key, types);
        merge_place_is_within(groups, typed, 0);
        let place = merge_place(groups, typed, 0);
        let fresh = MergeGroupView { key: keys[row], row: typed, states: fresh_merges(calls) };
        let ready = if place < groups.len() {
            groups
        } else {
            groups.push(fresh)
        };
        let states = ready[place].states;
        assert(ready[place].row == typed);
        // The key is none of those of the rows before.
        assert forall|h: int| 0 <= h < row implies (#[trigger] part[h]).key != key by {
            assert(part[h].key != part[row].key);
        }
        assert(!part_has(part, key, row));
        assert(states_of_calls(states, calls));
        assert forall|a: int| 0 <= a < calls.len() implies #[trigger] states[a] == merge_value(
            calls,
            parts,
            a,
            key,
            upto,
        ) by {
            if place < groups.len() {
                assert(is_merged_group(groups[place], parts, calls, types, whole, upto, row));
                assert(groups[place].states[a] == states[a]);
            } else {
                if parts_have(parts, key, upto) {
                    let (p, h) = choose|p: int, h: int|
                        0 <= p < upto && 0 <= h < parts[p].len() && (#[trigger] parts[p][h]).key
                            == key;
                    assert(has_row(groups, typed_key(parts[p][h].key, types)));
                    let g = choose|g: int| 0 <= g < groups.len() && (#[trigger] groups[g]).row
                        == typed;
                    assert(groups[g].row != typed);
                }
                unknown_keys_are_fresh(calls, parts, a, key, upto);
            }
        }
        absorbing_is_by_call(
            states,
            batch.columns,
            types.len() as int,
            row,
            states.len() as int,
        );
        let next = result.groups;
        assert(next[place].row == typed);
        group_place_is_within(part, key, 0);
        assert(group_place(part, key, 0) == row) by {
            let found = group_place(part, key, 0);
            if found < part.len() && found != row {
                assert(part[found].key != part[row].key);
            }
        }
        assert(part_has(part, key, row + 1)) by {
            assert(part[row].key == key);
        }
        assert forall|a: int| 0 <= a < calls.len() implies #[trigger] next[place].states[a]
            == merge_value(calls, parts, a, key, upto + 1) by {
            places_follow_offsets(states, calls, types.len() as int, a);
            offsets_grow(calls, a + 1, calls.len() as int);
            let at = offset(calls, a);
            assert(offset(calls, a + 1) == at + MergeView::fresh(calls[a].function).width());
            assert(states[a].width() == MergeView::fresh(calls[a].function).width());
            assert(0 <= at) by {
                offsets_grow(calls, 0, a);
            }
            assert(at < part[row].states.len());
            assert(cell_value(batch.columns[types.len() + at], row) == Ok::<ScalarView, ErrorView>(
                result_at(part[row], at),
            ));
            if states[a] is Avg {
                assert(cell_value(batch.columns[types.len() + (at + 1)], row) == Ok::<
                    ScalarView,
                    ErrorView,
                >(result_at(part[row], at + 1)));
            }
            assert(states[a].merged(batch.columns, types.len() + at, row) == took(
                states[a],
                result_at(part[row], at),
                result_at(part[row], at + 1),
            ));
        }
        assert(states_of_calls(next[place].states, calls)) by {
            assert forall|a: int| 0 <= a < calls.len() implies {
                let state = #[trigger] next[place].states[a];
                state.width() == states[a].width()
            } by {}
        }
        assert forall|g: int| 0 <= g < next.len() implies is_merged_group(
            #[trigger] next[g],
            parts,
            calls,
            types,
            whole,
            upto,
            row + 1,
        ) by {
            if g != place {
                assert(next[g] == groups[g]);
                let other = read_key(groups[g].row);
                assert(is_merged_group(groups[g], parts, calls, types, whole, upto, row));
                assert(groups[g].row != typed) by {
                    if place < groups.len() {
                        if g < place {
                            assert(groups[g].row != groups[place].row);
                        } else {
                            assert(groups[place].row != groups[g].row);
                        }
                    }
                }
                assert(other != key);
                assert(part_has(part, other, row + 1) == part_has(part, other, row)) by {
                    if part_has(part, other, row) {
                        let h = choose|h: int| 0 <= h < row && (#[trigger] part[h]).key == other;
                        assert(part[h].key == other);
                    }
                    if part_has(part, other, row + 1) {
                        let h = choose|h: int|
                            0 <= h < row + 1 && (#[trigger] part[h]).key == other;
                        assert(part[h].key == other);
                    }
                }
                assert(row == 0 ==> !part_has(part, other, row));
            }
        }
        assert(rows_differ(next)) by {
            assert forall|g: int, h: int| 0 <= g < h < next.len() implies (
            #[trigger] next[g]).row != (#[trigger] next[h]).row by {
                assert(next[g].row == ready[g].row);
                assert(next[h].row == ready[h].row);
                if h == groups.len() {
                    assert(groups[g].row != typed);
                } else {
                    assert(groups[g].row != groups[h].row);
                }
            }
        }
        assert forall|other: Seq<ColumnView>| #[trigger] has_row(groups, other) implies has_row(
            next,
            other,
        ) by {
            let g = choose|g: int| 0 <= g < groups.len() && (#[trigger] groups[g]).row == other;
            assert(next[g].row == groups[g].row);
        }
        assert forall|h: int| 0 <= h < row + 1 implies has_row(
            next,
            typed_key((#[trigger] parts[upto][h]).key, types),
        ) by {
            if h == row {
                assert(next[place].row == typed);
            } else {
                assert(has_row(groups, typed_key(parts[upto][h].key, types)));
            }
        }
        assert forall|p: int, h: int| 0 <= p < upto && 0 <= h < parts[p].len() implies has_row(
            next,
            typed_key((#[trigger] parts[p][h]).key, types),
        ) by {
            assert(has_row(groups, typed_key(parts[p][h].key, types)));
        }
    }
}

proof fn rows_are_merged(
    table: MergeTable,
    keys: Seq<Seq<u8>>,
    batch: BatchView,
    parts: Seq<Seq<GroupView>>,
    calls: Seq<CallView>,
    types: Seq<DataTypeView>,
    fields: Seq<FieldView>,
    whole: bool,
    upto: int,
    row: int,
)
    requires
        0 <= upto < parts.len(),
        0 <= row <= parts[upto].len(),
        holds_part(batch, parts[upto], calls, types, fields),
        are_merged_groups(table.groups, parts, calls, types, whole, upto, 0),
    ensures
        rows_merged(table, calls, keys, batch.columns, types.len(), row) matches Ok(next)
            ==> are_merged_groups(next.groups, parts, calls, types, whole, upto, row),
    decreases row,
{
    if row > 0 {
        rows_are_merged(
            table,
            keys,
            batch,
            parts,
            calls,
            types,
            fields,
            whole,
            upto,
            row - 1,
        );
        if let Ok(before) = rows_merged(table, calls, keys, batch.columns, types.len(), row - 1) {
            a_row_is_merged(
                before,
                keys,
                batch,
                parts,
                calls,
                types,
                fields,
                whole,
                upto,
                row - 1,
            );
        }
    }
}

/// After all groups of a partition, its groups count as those of a partition that is done.
proof fn a_partition_is_done(
    groups: Seq<MergeGroupView>,
    parts: Seq<Seq<GroupView>>,
    calls: Seq<CallView>,
    types: Seq<DataTypeView>,
    whole: bool,
    upto: int,
)
    requires
        0 <= upto < parts.len(),
        are_merged_groups(groups, parts, calls, types, whole, upto, parts[upto].len() as int),
    ensures
        are_merged_groups(groups, parts, calls, types, whole, upto + 1, 0),
{
    let part = parts[upto];
    let all = part.len() as int;
    assert forall|g: int| 0 <= g < groups.len() implies is_merged_group(
        #[trigger] groups[g],
        parts,
        calls,
        types,
        whole,
        upto + 1,
        0,
    ) by {
        let key = read_key(groups[g].row);
        assert(is_merged_group(groups[g], parts, calls, types, whole, upto, all));
        if parts_have(parts, key, upto) {
            let (p, h) = choose|p: int, h: int|
                0 <= p < upto && 0 <= h < parts[p].len() && (#[trigger] parts[p][h]).key == key;
            assert(parts[p][h].key == key);
        }
        if part_has(part, key, all) {
            let h = choose|h: int| 0 <= h < all && (#[trigger] part[h]).key == key;
            assert(parts[upto][h].key == key);
        }
        assert forall|a: int| 0 <= a < calls.len() implies #[trigger] groups[g].states[a]
            == merge_value(calls, parts, a, key, upto + 1) by {
            group_place_is_within(part, key, 0);
            let place = group_place(part, key, 0);
            if place < part.len() {
                assert(part[place].key == key);
            }
        }
    }
    assert forall|p: int, h: int| 0 <= p < upto + 1 && 0 <= h < parts[p].len() implies has_row(
        groups,
        typed_key((#[trigger] parts[p][h]).key, types),
    ) by {}
}

/// The groups that merging batches gives are those of what the batches hold.
pub proof fn batches_are_merged(
    batches: Seq<BatchView>,
    parts: Seq<Seq<GroupView>>,
    calls: Seq<CallView>,
    types: Seq<DataTypeView>,
    fields: Seq<FieldView>,
    memory: MemoryView,
    upto: int,
)
    requires
        0 <= upto <= batches.len(),
        batches.len() == parts.len(),
        forall|i: int|
            0 <= i < batches.len() ==> holds_part(
                #[trigger] batches[i],
                parts[i],
                calls,
                types,
                fields,
            ),
    ensures
        batches_merged(batches, calls, types, memory, upto) matches Ok(table)
            ==> are_merged_groups(
            table.groups,
            parts,
            calls,
            types,
            types.len() == 0,
            upto,
            0,
        ),
    decreases upto,
{
    let whole = types.len() == 0;
    if upto > 0 {
        batches_are_merged(batches, parts, calls, types, fields, memory, upto - 1);
        if let Ok(table) = batches_merged(batches, calls, types, memory, upto) {
            let before = batches_merged(batches, calls, types, memory, upto - 1)->Ok_0;
            let batch = batches[upto - 1];
            assert(holds_part(batch, parts[upto - 1], calls, types, fields));
            let keys = crate::row_key::encoded(
                types,
                batch.columns.take(types.len() as int),
                batch.rows,
            )->Ok_0;
            let bytes = crate::distributed::merge::capped(
                crate::distributed::merge::key_bytes(keys, keys.len() as int) as int,
            );
            let start = MergeTable { memory: before.memory.claimed(bytes), ..before };
            rows_are_merged(
                start,
                keys,
                batch,
                parts,
                calls,
                types,
                fields,
                whole,
                upto - 1,
                batch.rows as int,
            );
            a_partition_is_done(table.groups, parts, calls, types, whole, upto - 1);
        }
    } else if let Ok(table) = batches_merged(batches, calls, types, memory, 0) {
        if whole {
            let group = table.groups[0];
            assert(read_key(group.row) =~= Seq::<ScalarView>::empty());
            assert(group.row =~= typed_key(read_key(group.row), types));
            assert(group.row =~= Seq::<ColumnView>::empty());
            assert(is_merged_group(group, parts, calls, types, whole, 0, 0));
        }
    }
}

// ---- sorted groups

proof fn merge_place_after_is_within(groups: Seq<MergeGroupView>, key: Seq<u8>, from: int)
    requires
        0 <= from <= groups.len(),
    ensures
        from <= merge_place_after(groups, key, from) <= groups.len(),
    decreases groups.len() - from,
{
    if from < groups.len() {
        merge_place_after_is_within(groups, key, from + 1);
    }
}

/// Whether two lists hold the same groups.
pub open spec fn same_merged_groups(a: Seq<MergeGroupView>, b: Seq<MergeGroupView>) -> bool {
    &&& a.len() == b.len()
    &&& forall|g: int| 0 <= g < a.len() ==> b.contains(#[trigger] a[g])
    &&& forall|g: int| 0 <= g < b.len() ==> a.contains(#[trigger] b[g])
}

proof fn sorting_keeps_merged_groups(groups: Seq<MergeGroupView>, upto: int)
    requires
        0 <= upto <= groups.len(),
        rows_differ(groups),
    ensures
        same_merged_groups(merge_sorted(groups, upto), groups.take(upto)),
        rows_differ(merge_sorted(groups, upto)),
    decreases upto,
{
    let part = groups.take(upto);
    if upto > 0 {
        sorting_keeps_merged_groups(groups, upto - 1);
        let before = merge_sorted(groups, upto - 1);
        let group = groups[upto - 1];
        let place = merge_place_after(before, group.key, 0);
        merge_place_after_is_within(before, group.key, 0);
        let after = before.insert(place, group);
        let shorter = groups.take(upto - 1);
        assert(part =~= shorter.push(group));
        assert forall|g: int| 0 <= g < after.len() implies part.contains(#[trigger] after[g]) by {
            if g < place {
                assert(after[g] == before[g]);
                assert(shorter.contains(before[g]));
                let i = choose|i: int| 0 <= i < shorter.len() && shorter[i] == before[g];
                assert(part[i] == after[g]);
            } else if g == place {
                assert(part[upto - 1] == after[g]);
            } else {
                assert(after[g] == before[g - 1]);
                assert(shorter.contains(before[g - 1]));
                let i = choose|i: int| 0 <= i < shorter.len() && shorter[i] == before[g - 1];
                assert(part[i] == after[g]);
            }
        }
        assert forall|g: int| 0 <= g < part.len() implies after.contains(#[trigger] part[g]) by {
            if g == upto - 1 {
                assert(after[place] == part[g]);
            } else {
                assert(part[g] == shorter[g]);
                assert(before.contains(shorter[g]));
                let i = choose|i: int| 0 <= i < before.len() && before[i] == shorter[g];
                let j = if i < place {
                    i
                } else {
                    i + 1
                };
                assert(after[j] == part[g]);
            }
        }
        assert forall|g: int, h: int| 0 <= g < h < after.len() implies (
        #[trigger] after[g]).row != (#[trigger] after[h]).row by {
            let x = if g < place {
                g
            } else {
                g - 1
            };
            let y = if h < place {
                h
            } else {
                h - 1
            };
            if g == place || h == place {
                let other = if g == place {
                    y
                } else {
                    x
                };
                assert(shorter.contains(before[other]));
                let i = choose|i: int| 0 <= i < shorter.len() && shorter[i] == before[other];
                assert(groups[i].row != groups[upto - 1].row);
            } else {
                assert(before[x].row != before[y].row);
            }
        }
    } else {
        assert(merge_sorted(groups, 0) =~= part);
    }
}

/// Merged groups are still those of the partitions when they are sorted.
pub proof fn sorted_merged_groups(
    groups: Seq<MergeGroupView>,
    parts: Seq<Seq<GroupView>>,
    calls: Seq<CallView>,
    types: Seq<DataTypeView>,
    whole: bool,
)
    requires
        are_merged_groups(groups, parts, calls, types, whole, parts.len() as int, 0),
    ensures
        are_merged_groups(
            merge_sorted(groups, groups.len() as int),
            parts,
            calls,
            types,
            whole,
            parts.len() as int,
            0,
        ),
{
    let sorted = merge_sorted(groups, groups.len() as int);
    let all = parts.len() as int;
    sorting_keeps_merged_groups(groups, groups.len() as int);
    assert(groups.take(groups.len() as int) =~= groups);
    assert forall|g: int| 0 <= g < sorted.len() implies is_merged_group(
        #[trigger] sorted[g],
        parts,
        calls,
        types,
        whole,
        all,
        0,
    ) by {
        assert(groups.contains(sorted[g]));
        let i = choose|i: int| 0 <= i < groups.len() && groups[i] == sorted[g];
        assert(is_merged_group(groups[i], parts, calls, types, whole, all, 0));
    }
    assert forall|row: Seq<ColumnView>| #[trigger] has_row(groups, row) implies has_row(
        sorted,
        row,
    ) by {
        let i = choose|i: int| 0 <= i < groups.len() && (#[trigger] groups[i]).row == row;
        assert(sorted.contains(groups[i]));
        let g = choose|g: int| 0 <= g < sorted.len() && sorted[g] == groups[i];
        assert(sorted[g].row == row);
    }
    assert forall|p: int, h: int| 0 <= p < all && 0 <= h < parts[p].len() implies has_row(
        sorted,
        typed_key((#[trigger] parts[p][h]).key, types),
    ) by {
        assert(has_row(groups, typed_key(parts[p][h].key, types)));
    }
}

} // verus!

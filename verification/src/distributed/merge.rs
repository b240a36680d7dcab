//! The merge of partial aggregates.

use crate::batch::{batch_outcome, batch_views, made_batch, Batch, BatchView};
use crate::cells::{column_of, scalars_to_array};
use crate::column::{column_views, row_numbers, Column, ColumnView};
use crate::distributed::partial::{MergeState, MergeView};
use crate::error::{ErrorView, SparkXError};
use crate::execution::aggregate::{aggregate_specs, call_views, calls_of, AggregateCall, CallView};
use crate::execution::concat::append_column;
use crate::execution::sort::{empty_column, new_column};
use crate::expr::{expr_views, Expr, ExprView};
use crate::kernels::{is_row_of_types, keys_tell_apart, row_key, row_of};
use crate::memory::{MemoryReservation, MemoryView, QueryMemory};
use crate::row_key::{encode_keys, encoded, key_of, key_views, type_views};
use crate::scalar::{scalar_views, ScalarValue, ScalarView};
use crate::text::{bytes_before, relate_bytes, Relation};
use crate::types::{DataType, DataTypeView, FieldView, Schema, SchemaView};
use vstd::prelude::*;

verus! {

/// A group of partial results: the bytes of its key, its key columns with one row, and what each
/// call made of the results.
pub struct MergeGroup {
    pub key: Vec<u8>,
    pub row: Vec<Column>,
    pub states: Vec<MergeState>,
}

pub struct MergeGroupView {
    pub key: Seq<u8>,
    pub row: Seq<ColumnView>,
    pub states: Seq<MergeView>,
}

pub open spec fn merge_state_views(states: Seq<MergeState>) -> Seq<MergeView> {
    Seq::new(states.len(), |i: int| states[i]@)
}

impl View for MergeGroup {
    type V = MergeGroupView;

    open spec fn view(&self) -> MergeGroupView {
        MergeGroupView {
            key: self.key@,
            row: column_views(self.row@),
            states: merge_state_views(self.states@),
        }
    }
}

pub open spec fn merge_group_views(groups: Seq<MergeGroup>) -> Seq<MergeGroupView> {
    Seq::new(groups.len(), |i: int| groups[i]@)
}

pub open spec fn fresh_merges(calls: Seq<CallView>) -> Seq<MergeView> {
    Seq::new(calls.len(), |i: int| MergeView::fresh(calls[i].function))
}

fn new_merge_states(calls: &Vec<AggregateCall>) -> (r: Vec<MergeState>)
    ensures
        merge_state_views(r@) == fresh_merges(call_views(calls@)),
{
    let mut states: Vec<MergeState> = Vec::new();
    for i in 0..calls.len()
        invariant
            states.len() == i,
            forall|k: int|
                0 <= k < i ==> (#[trigger] states@[k])@ == MergeView::fresh(calls@[k].function),
    {
        states.push(MergeState::new(calls[i].function));
    }
    proof {
        assert(merge_state_views(states@) =~= fresh_merges(call_views(calls@)));
    }
    states
}

/// The column after those of the first `upto` states.
pub open spec fn column_place(states: Seq<MergeView>, first: int, upto: int) -> int
    decreases upto,
{
    if upto <= 0 {
        first
    } else {
        column_place(states, first, upto - 1) + states[upto - 1].width()
    }
}

pub proof fn places_grow(states: Seq<MergeView>, first: int, low: int, high: int)
    requires
        low <= high,
    ensures
        column_place(states, first, low) <= column_place(states, first, high),
    decreases high - low,
{
    if low < high {
        places_grow(states, first, low, high - 1);
    }
}

/// The states after the first `upto` of them took the partial results of a row.
pub open spec fn absorbed(
    states: Seq<MergeView>,
    columns: Seq<ColumnView>,
    first: int,
    row: int,
    upto: int,
) -> Result<Seq<MergeView>, ErrorView>
    decreases upto,
{
    if upto <= 0 {
        Ok(states)
    } else {
        match absorbed(states, columns, first, row, upto - 1) {
            Err(error) => Err(error),
            Ok(next) => match states[upto - 1].merged(
                columns,
                column_place(states, first, upto - 1),
                row,
            ) {
                Err(error) => Err(error),
                Ok(state) => Ok(next.update(upto - 1, state)),
            },
        }
    }
}

proof fn absorbing_fails_early(
    states: Seq<MergeView>,
    columns: Seq<ColumnView>,
    first: int,
    row: int,
    upto: int,
    full: int,
)
    requires
        0 <= upto <= full,
        absorbed(states, columns, first, row, upto) is Err,
    ensures
        absorbed(states, columns, first, row, full) == absorbed(states, columns, first, row, upto),
    decreases full - upto,
{
    if upto < full {
        absorbing_fails_early(states, columns, first, row, upto, full - 1);
    }
}

/// Whether states are of the given calls.
pub open spec fn states_of_calls(states: Seq<MergeView>, calls: Seq<CallView>) -> bool {
    &&& states.len() == calls.len()
    &&& forall|i: int|
        0 <= i < states.len() ==> (#[trigger] states[i]).width() == MergeView::fresh(
            calls[i].function,
        ).width()
}

proof fn places_agree(states: Seq<MergeView>, calls: Seq<CallView>, first: int, upto: int)
    requires
        states_of_calls(states, calls),
        0 <= upto <= calls.len(),
    ensures
        column_place(states, first, upto) == column_place(fresh_merges(calls), first, upto),
    decreases upto,
{
    if upto > 0 {
        places_agree(states, calls, first, upto - 1);
        assert(states[upto - 1].width() == MergeView::fresh(calls[upto - 1].function).width());
    }
}

fn absorb(
    states: Vec<MergeState>,
    columns: &Vec<Column>,
    first: usize,
    row: usize,
    Ghost(calls): Ghost<Seq<CallView>>,
) -> (r: Result<Vec<MergeState>, SparkXError>)
    requires
        states_of_calls(merge_state_views(states@), calls),
        column_place(fresh_merges(calls), first as int, calls.len() as int) <= columns.len(),
        forall|i: int| 0 <= i < columns.len() ==> row < (#[trigger] columns@[i])@.len(),
    ensures
        match r {
            Ok(next) => {
                &&& absorbed(
                    merge_state_views(states@),
                    column_views(columns@),
                    first as int,
                    row as int,
                    states.len() as int,
                ) == Ok::<Seq<MergeView>, ErrorView>(merge_state_views(next@))
                &&& states_of_calls(merge_state_views(next@), calls)
            },
            Err(error) => absorbed(
                merge_state_views(states@),
                column_views(columns@),
                first as int,
                row as int,
                states.len() as int,
            ) == Err::<Seq<MergeView>, ErrorView>(error@),
        },
{
    let ghost old_states = merge_state_views(states@);
    let ghost views = column_views(columns@);
    let count: usize = states.len();
    let mut rest = states;
    let mut next: Vec<MergeState> = Vec::new();
    let mut i: usize = 0;
    let mut place: usize = first;
    proof {
        assert(merge_state_views(next@) + merge_state_views(rest@) =~= old_states);
        places_agree(old_states, calls, first as int, count as int);
    }
    while rest.len() > 0
        invariant
            count == old_states.len(),
            old_states == merge_state_views(states@),
            views == column_views(columns@),
            next.len() == i,
            i + rest.len() == count,
            states_of_calls(old_states, calls),
            place == column_place(old_states, first as int, i as int),
            column_place(old_states, first as int, count as int) <= columns.len(),
            forall|k: int| 0 <= k < rest.len() ==> (#[trigger] rest@[k])@ == old_states[i + k],
            forall|k: int|
                0 <= k < next.len() ==> (#[trigger] next@[k])@.width() == old_states[k].width(),
            forall|i: int| 0 <= i < columns.len() ==> row < (#[trigger] columns@[i])@.len(),
            absorbed(old_states, views, first as int, row as int, i as int) == Ok::<
                Seq<MergeView>,
                ErrorView,
            >(merge_state_views(next@) + merge_state_views(rest@)),
        decreases rest.len(),
    {
        let ghost before = merge_state_views(next@) + merge_state_views(rest@);
        let ghost rest_before = rest@;
        proof {
            assert(rest@[0]@ == old_states[i as int]);
            places_grow(old_states, first as int, i + 1, count as int);
        }
        let state = rest.remove(0);
        let width: usize = state.width();
        match state.merge(columns, place, row) {
            Ok(state) => {
                let ghost view = state@;
                next.push(state);
                proof {
                    assert(merge_state_views(next@) + merge_state_views(rest@) =~= before.update(
                        i as int,
                        view,
                    ));
                    assert forall|k: int| 0 <= k < rest.len() implies (#[trigger] rest@[k])@
                        == old_states[i + 1 + k] by {
                        assert(rest@[k] == rest_before[k + 1]);
                    }
                }
            },
            Err(error) => {
                proof {
                    absorbing_fails_early(
                        old_states,
                        views,
                        first as int,
                        row as int,
                        i + 1,
                        count as int,
                    );
                }
                return Err(error);
            },
        }
        i = i + 1;
        place = place + width;
    }
    proof {
        assert(merge_state_views(next@) + merge_state_views(rest@) =~= merge_state_views(next@));
        let after = merge_state_views(next@);
        assert forall|k: int| 0 <= k < after.len() implies (#[trigger] after[k]).width()
            == MergeView::fresh(calls[k].function).width() by {
            assert(after[k] == next@[k]@);
            assert(old_states[k].width() == MergeView::fresh(calls[k].function).width());
        }
    }
    Ok(next)
}

/// The bytes that a text of bytes takes, up to the most that can be counted.
pub open spec fn capped(bytes: int) -> u64 {
    if bytes > u64::MAX {
        u64::MAX
    } else {
        bytes as u64
    }
}

/// What a group is charged beside its key and its states.
pub const GROUP_BYTES: u64 = 72;

/// What the state of a function is charged.
pub const STATE_BYTES: u64 = 32;

/// What a group is charged for.
pub open spec fn group_charge(key: nat, states: nat) -> u64 {
    capped(GROUP_BYTES + key + states * STATE_BYTES)
}

fn charge_group(key: usize, states: usize) -> (r: u64)
    ensures
        r == group_charge(key as nat, states as nat),
{
    let total: u128 = GROUP_BYTES as u128 + key as u128 + states as u128 * STATE_BYTES as u128;
    if total > u64::MAX as u128 {
        u64::MAX
    } else {
        total as u64
    }
}

/// The bytes of the first `upto` keys.
pub open spec fn key_bytes(keys: Seq<Seq<u8>>, upto: int) -> nat
    decreases upto,
{
    if upto <= 0 {
        0
    } else {
        key_bytes(keys, upto - 1) + keys[upto - 1].len()
    }
}

pub fn measure_keys(keys: &Vec<Vec<u8>>) -> (r: u64)
    ensures
        r == capped(key_bytes(key_views(keys@), keys.len() as int) as int),
{
    let ghost views = key_views(keys@);
    let mut total: u64 = 0;
    for i in 0..keys.len()
        invariant
            views == key_views(keys@),
            total == capped(key_bytes(views, i as int) as int),
    {
        proof {
            assert(views[i as int] == keys@[i as int]@);
        }
        let more: u64 = keys[i].len() as u64;
        total = if more > u64::MAX - total {
            u64::MAX
        } else {
            total + more
        };
    }
    total
}

/// Groups, what they are charged, and the budget.
pub struct MergeTable {
    pub groups: Seq<MergeGroupView>,
    pub held: nat,
    pub memory: MemoryView,
}

/// The budget with more claimed for the groups, or why it cannot be.
pub open spec fn granted(table: MergeTable, bytes: u64) -> Result<MergeTable, ErrorView> {
    if table.held + bytes > u64::MAX {
        Err(ErrorView::ResourceExhausted("memory reservation size overflowed"@))
    } else {
        match table.memory.check(bytes) {
            Err(error) => Err(error),
            Ok(()) => Ok(
                MergeTable {
                    groups: table.groups,
                    held: table.held + bytes as nat,
                    memory: table.memory.claimed(bytes),
                },
            ),
        }
    }
}

/// The table with a fresh group.
pub open spec fn opened(
    table: MergeTable,
    calls: Seq<CallView>,
    key: Seq<u8>,
    row: Seq<ColumnView>,
) -> Result<MergeTable, ErrorView> {
    match granted(table, group_charge(key.len(), calls.len())) {
        Err(error) => Err(error),
        Ok(next) => Ok(
            MergeTable {
                groups: next.groups.push(
                    MergeGroupView { key, row, states: fresh_merges(calls) },
                ),
                ..next
            },
        ),
    }
}

/// The first group from a place on with the given row of keys, or the number of groups.
pub open spec fn merge_place(groups: Seq<MergeGroupView>, row: Seq<ColumnView>, from: int) -> int
    decreases groups.len() - from,
{
    if from >= groups.len() {
        groups.len() as int
    } else if groups[from].row == row {
        from
    } else {
        merge_place(groups, row, from + 1)
    }
}

/// The table after the partial results of one row more.
pub open spec fn row_merged(
    table: MergeTable,
    calls: Seq<CallView>,
    keys: Seq<Seq<u8>>,
    columns: Seq<ColumnView>,
    group_count: nat,
    row: int,
) -> Result<MergeTable, ErrorView> {
    let key = row_of(columns.take(group_count as int), row);
    let place = merge_place(table.groups, key, 0);
    let ready = if place < table.groups.len() {
        Ok(table)
    } else {
        opened(table, calls, keys[row], key)
    };
    match ready {
        Err(error) => Err(error),
        Ok(next) => match absorbed(
            next.groups[place].states,
            columns,
            group_count as int,
            row,
            next.groups[place].states.len() as int,
        ) {
            Err(error) => Err(error),
            Ok(states) => Ok(
                MergeTable {
                    groups: next.groups.update(
                        place,
                        MergeGroupView { states, ..next.groups[place] },
                    ),
                    ..next
                },
            ),
        },
    }
}

/// The table after the first `upto` rows of a batch.
pub open spec fn rows_merged(
    table: MergeTable,
    calls: Seq<CallView>,
    keys: Seq<Seq<u8>>,
    columns: Seq<ColumnView>,
    group_count: nat,
    upto: int,
) -> Result<MergeTable, ErrorView>
    decreases upto,
{
    if upto <= 0 {
        Ok(table)
    } else {
        match rows_merged(table, calls, keys, columns, group_count, upto - 1) {
            Err(error) => Err(error),
            Ok(before) => row_merged(before, calls, keys, columns, group_count, upto - 1),
        }
    }
}

proof fn merging_rows_fails_early(
    table: MergeTable,
    calls: Seq<CallView>,
    keys: Seq<Seq<u8>>,
    columns: Seq<ColumnView>,
    group_count: nat,
    upto: int,
    full: int,
)
    requires
        0 <= upto <= full,
        rows_merged(table, calls, keys, columns, group_count, upto) is Err,
    ensures
        rows_merged(table, calls, keys, columns, group_count, full) == rows_merged(
            table,
            calls,
            keys,
            columns,
            group_count,
            upto,
        ),
    decreases full - upto,
{
    if upto < full {
        merging_rows_fails_early(table, calls, keys, columns, group_count, upto, full - 1);
    }
}

/// The types of the key columns.
pub open spec fn key_types(fields: Seq<FieldView>, group_count: nat) -> Seq<DataTypeView> {
    Seq::new(group_count, |i: int| fields[i].data_type)
}

/// The table after one batch more. The keys of the batch are charged for while it is merged.
pub open spec fn batch_merged(
    table: MergeTable,
    calls: Seq<CallView>,
    types: Seq<DataTypeView>,
    batch: BatchView,
) -> Result<MergeTable, ErrorView> {
    match encoded(types, batch.columns.take(types.len() as int), batch.rows) {
        Err(error) => Err(error),
        Ok(keys) => {
            let bytes = capped(key_bytes(keys, keys.len() as int) as int);
            match table.memory.check(bytes) {
                Err(error) => Err(error),
                Ok(()) => match rows_merged(
                    MergeTable { memory: table.memory.claimed(bytes), ..table },
                    calls,
                    keys,
                    batch.columns,
                    types.len(),
                    batch.rows as int,
                ) {
                    Err(error) => Err(error),
                    Ok(next) => Ok(MergeTable { memory: next.memory.returned(bytes), ..next }),
                },
            }
        },
    }
}

/// The table before any batch: without key columns there is one group, and else there is none.
pub open spec fn first_table(
    memory: MemoryView,
    calls: Seq<CallView>,
    group_count: nat,
) -> Result<MergeTable, ErrorView> {
    let empty = MergeTable { groups: Seq::empty(), held: 0, memory };
    if group_count == 0 {
        opened(empty, calls, Seq::empty(), Seq::empty())
    } else {
        Ok(empty)
    }
}

/// The table after the first `upto` batches.
pub open spec fn batches_merged(
    batches: Seq<BatchView>,
    calls: Seq<CallView>,
    types: Seq<DataTypeView>,
    memory: MemoryView,
    upto: int,
) -> Result<MergeTable, ErrorView>
    decreases upto,
{
    if upto <= 0 {
        first_table(memory, calls, types.len())
    } else {
        match batches_merged(batches, calls, types, memory, upto - 1) {
            Err(error) => Err(error),
            Ok(table) => batch_merged(table, calls, types, batches[upto - 1]),
        }
    }
}

proof fn merging_fails_early(
    batches: Seq<BatchView>,
    calls: Seq<CallView>,
    types: Seq<DataTypeView>,
    memory: MemoryView,
    upto: int,
    full: int,
)
    requires
        0 <= upto <= full,
        batches_merged(batches, calls, types, memory, upto) is Err,
    ensures
        batches_merged(batches, calls, types, memory, full) == batches_merged(
            batches,
            calls,
            types,
            memory,
            upto,
        ),
    decreases full - upto,
{
    if upto < full {
        merging_fails_early(batches, calls, types, memory, upto, full - 1);
    }
}

/// What holds of every group.
pub open spec fn merge_groups_wf(
    groups: Seq<MergeGroupView>,
    calls: Seq<CallView>,
    types: Seq<DataTypeView>,
) -> bool {
    forall|i: int|
        0 <= i < groups.len() ==> {
            &&& states_of_calls((#[trigger] groups[i]).states, calls)
            &&& groups[i].row.len() == types.len()
            &&& groups[i].key == key_of(groups[i].row)
            &&& forall|k: int|
                0 <= k < types.len() ==> (#[trigger] groups[i].row[k]).data_type() == types[k]
                    && groups[i].row[k].len() == 1
        }
}

/// Whether a row is the only one of its types with its bytes.
pub open spec fn key_tells_apart(row: Seq<ColumnView>, types: Seq<DataTypeView>) -> bool {
    forall|other: Seq<ColumnView>|
        is_typed_row(other, types) && #[trigger] key_of(other) == key_of(row) ==> other == row
}

/// Whether some columns are one row of some types.
pub open spec fn is_typed_row(row: Seq<ColumnView>, types: Seq<DataTypeView>) -> bool {
    &&& row.len() == types.len()
    &&& forall|k: int|
        0 <= k < types.len() ==> (#[trigger] row[k]).data_type() == types[k] && row[k].len() == 1
}

fn find_merge_group(
    groups: &Vec<MergeGroup>,
    key: &Vec<u8>,
    Ghost(row): Ghost<Seq<ColumnView>>,
    Ghost(calls): Ghost<Seq<CallView>>,
    Ghost(types): Ghost<Seq<DataTypeView>>,
) -> (r: usize)
    requires
        merge_groups_wf(merge_group_views(groups@), calls, types),
        key@ == key_of(row),
        key_tells_apart(row, types),
    ensures
        r == merge_place(merge_group_views(groups@), row, 0),
        r <= groups.len(),
{
    let ghost views = merge_group_views(groups@);
    let mut i: usize = 0;
    while i < groups.len()
        invariant
            views == merge_group_views(groups@),
            merge_groups_wf(views, calls, types),
            key@ == key_of(row),
            key_tells_apart(row, types),
            i <= groups.len(),
            merge_place(views, row, 0) == merge_place(views, row, i as int),
        decreases groups.len() - i,
    {
        proof {
            assert(views[i as int] == groups@[i as int]@);
            assert(is_typed_row(views[i as int].row, types));
            let other = key_of(views[i as int].row);
        }
        if relate_bytes(groups[i].key.as_slice(), key.as_slice()) == Relation::Same {
            return i;
        }
        i = i + 1;
    }
    i
}

/// A table as groups, a claim and a budget make it.
pub open spec fn table_of(
    groups: Seq<MergeGroup>,
    reservation: MemoryReservation,
    memory: QueryMemory,
) -> MergeTable {
    MergeTable {
        groups: merge_group_views(groups),
        held: reservation@ as nat,
        memory: memory@,
    }
}

/// Whether what is claimed beside a claim stayed as it was.
pub open spec fn rest_is_kept(
    memory: MemoryView,
    held: nat,
    next_memory: MemoryView,
    next_held: nat,
) -> bool {
    &&& next_memory.wf()
    &&& next_memory.limit == memory.limit
    &&& next_memory.reserved - next_held == memory.reserved - held
    &&& next_memory.peak >= memory.peak
}

fn copy_bytes(bytes: &Vec<u8>) -> (r: Vec<u8>)
    ensures
        r@ == bytes@,
{
    let mut copy: Vec<u8> = Vec::new();
    for i in 0..bytes.len()
        invariant
            copy@ == bytes@.take(i as int),
    {
        copy.push(bytes[i]);
        proof {
            assert(copy@ =~= bytes@.take(i + 1));
        }
    }
    proof {
        assert(copy@ =~= bytes@);
    }
    copy
}

fn take_row(columns: &Vec<Column>, count: usize, row: usize) -> (r: Vec<Column>)
    requires
        count <= columns.len(),
        forall|i: int| 0 <= i < columns.len() ==> row < (#[trigger] columns@[i])@.len(),
    ensures
        column_views(r@) == row_of(column_views(columns@).take(count as int), row as int),
        r.len() == count,
{
    let rows: Vec<Option<usize>> = vec![Some(row)];
    proof {
        assert(row_numbers(rows@) =~= seq![row as int]);
    }
    let mut taken: Vec<Column> = Vec::new();
    for i in 0..count
        invariant
            count <= columns.len(),
            rows@.len() == 1,
            rows@[0] == Some(row),
            row_numbers(rows@) == seq![row as int],
            forall|i: int| 0 <= i < columns.len() ==> row < (#[trigger] columns@[i])@.len(),
            taken.len() == i,
            forall|k: int|
                0 <= k < i ==> (#[trigger] taken@[k])@ == columns@[k]@.taken(seq![row as int]),
    {
        taken.push(columns[i].take(&rows));
    }
    proof {
        assert(column_views(taken@) =~= row_of(
            column_views(columns@).take(count as int),
            row as int,
        ));
    }
    taken
}

/// Opens a group for a key.
fn open_group(
    groups: Vec<MergeGroup>,
    reservation: &mut MemoryReservation,
    memory: &mut QueryMemory,
    calls: &Vec<AggregateCall>,
    key: Vec<u8>,
    row: Vec<Column>,
) -> (r: Result<Vec<MergeGroup>, SparkXError>)
    requires
        old(memory).wf(),
        old(reservation)@ <= old(memory)@.reserved,
    ensures
        rest_is_kept(
            old(memory)@,
            old(reservation)@ as nat,
            final(memory)@,
            final(reservation)@ as nat,
        ),
        match r {
            Ok(next) => opened(
                table_of(groups@, *old(reservation), *old(memory)),
                call_views(calls@),
                key@,
                column_views(row@),
            ) == Ok::<MergeTable, ErrorView>(
                table_of(next@, *final(reservation), *final(memory)),
            ),
            Err(error) => opened(
                table_of(groups@, *old(reservation), *old(memory)),
                call_views(calls@),
                key@,
                column_views(row@),
            ) == Err::<MergeTable, ErrorView>(error@),
        },
{
    let ghost before = merge_group_views(groups@);
    match reservation.try_grow(memory, charge_group(key.len(), calls.len())) {
        Ok(()) => {},
        Err(error) => return Err(error),
    }
    let group = MergeGroup { key, row, states: new_merge_states(calls) };
    let ghost view = group@;
    let mut groups = groups;
    groups.push(group);
    proof {
        assert(merge_group_views(groups@) =~= before.push(view));
    }
    Ok(groups)
}

/// Takes the partial results of a row into their group.
fn merge_row(
    groups: Vec<MergeGroup>,
    reservation: &mut MemoryReservation,
    memory: &mut QueryMemory,
    calls: &Vec<AggregateCall>,
    key: &Vec<u8>,
    columns: &Vec<Column>,
    group_count: usize,
    row: usize,
    Ghost(keys): Ghost<Seq<Seq<u8>>>,
    Ghost(types): Ghost<Seq<DataTypeView>>,
) -> (r: Result<Vec<MergeGroup>, SparkXError>)
    requires
        old(memory).wf(),
        old(reservation)@ <= old(memory)@.reserved,
        merge_groups_wf(merge_group_views(groups@), call_views(calls@), types),
        types.len() == group_count,
        column_place(
            fresh_merges(call_views(calls@)),
            group_count as int,
            calls.len() as int,
        ) <= columns.len(),
        group_count <= columns.len(),
        forall|i: int| 0 <= i < columns.len() ==> row < (#[trigger] columns@[i])@.len(),
        forall|i: int|
            0 <= i < group_count ==> (#[trigger] columns@[i])@.data_type() == types[i],
        row < keys.len(),
        key@ == keys[row as int],
        ({
            let first = row_of(column_views(columns@).take(group_count as int), row as int);
            key@ == key_of(first) && key_tells_apart(first, types)
        }),
    ensures
        rest_is_kept(
            old(memory)@,
            old(reservation)@ as nat,
            final(memory)@,
            final(reservation)@ as nat,
        ),
        match r {
            Ok(next) => {
                &&& row_merged(
                    table_of(groups@, *old(reservation), *old(memory)),
                    call_views(calls@),
                    keys,
                    column_views(columns@),
                    group_count as nat,
                    row as int,
                ) == Ok::<MergeTable, ErrorView>(
                    table_of(next@, *final(reservation), *final(memory)),
                )
                &&& merge_groups_wf(merge_group_views(next@), call_views(calls@), types)
            },
            Err(error) => row_merged(
                table_of(groups@, *old(reservation), *old(memory)),
                call_views(calls@),
                keys,
                column_views(columns@),
                group_count as nat,
                row as int,
            ) == Err::<MergeTable, ErrorView>(error@),
        },
{
    let ghost old_groups = merge_group_views(groups@);
    let ghost call_list = call_views(calls@);
    let ghost first = row_of(column_views(columns@).take(group_count as int), row as int);
    let place: usize = find_merge_group(
        &groups,
        key,
        Ghost(first),
        Ghost(call_list),
        Ghost(types),
    );
    let mut current = if place == groups.len() {
        match open_group(
            groups,
            reservation,
            memory,
            calls,
            copy_bytes(key),
            take_row(columns, group_count, row),
        ) {
            Ok(next) => next,
            Err(error) => return Err(error),
        }
    } else {
        groups
    };
    let ghost ready = merge_group_views(current@);
    proof {
        if place == old_groups.len() {
            assert(ready =~= old_groups.push(
                MergeGroupView { key: key@, row: first, states: fresh_merges(call_list) },
            ));
            assert forall|k: int| 0 <= k < types.len() implies (#[trigger] first[k]).data_type()
                == types[k] && first[k].len() == 1 by {
                assert(first[k] == columns@[k]@.taken(seq![row as int]));
            }
        }
        assert(merge_groups_wf(ready, call_list, types));
        assert(ready[place as int] == current@[place as int]@);
        assert(states_of_calls(ready[place as int].states, call_list));
    }
    let MergeGroup { key: group_key, row: group_row, states } = current.remove(place);
    match absorb(states, columns, group_count, row, Ghost(call_list)) {
        Ok(states) => {
            let group = MergeGroup { key: group_key, row: group_row, states };
            let ghost view = group@;
            current.insert(place, group);
            proof {
                let after = ready.update(place as int, view);
                assert(merge_group_views(current@) =~= after);
                assert forall|i: int| 0 <= i < after.len() implies {
                    &&& states_of_calls((#[trigger] after[i]).states, call_list)
                    &&& after[i].row.len() == types.len()
                    &&& after[i].key == key_of(after[i].row)
                    &&& forall|k: int|
                        0 <= k < types.len() ==> (#[trigger] after[i].row[k]).data_type()
                            == types[k] && after[i].row[k].len() == 1
                } by {
                    assert(after[i].row == ready[i].row);
                }
            }
            Ok(current)
        },
        Err(error) => Err(error),
    }
}

/// Takes the partial results of a batch into their groups.
fn merge_batch(
    groups: Vec<MergeGroup>,
    reservation: &mut MemoryReservation,
    memory: &mut QueryMemory,
    calls: &Vec<AggregateCall>,
    types: &Vec<DataType>,
    batch: &Batch,
) -> (r: Result<Vec<MergeGroup>, SparkXError>)
    requires
        batch.wf(),
        old(memory).wf(),
        old(reservation)@ <= old(memory)@.reserved,
        merge_groups_wf(merge_group_views(groups@), call_views(calls@), type_views(types@)),
        types.len() <= batch@.columns.len(),
        column_place(
            fresh_merges(call_views(calls@)),
            types.len() as int,
            calls.len() as int,
        ) <= batch@.columns.len(),
    ensures
        rest_is_kept(
            old(memory)@,
            old(reservation)@ as nat,
            final(memory)@,
            final(reservation)@ as nat,
        ),
        match r {
            Ok(next) => {
                &&& batch_merged(
                    table_of(groups@, *old(reservation), *old(memory)),
                    call_views(calls@),
                    type_views(types@),
                    batch@,
                ) == Ok::<MergeTable, ErrorView>(
                    table_of(next@, *final(reservation), *final(memory)),
                )
                &&& merge_groups_wf(
                    merge_group_views(next@),
                    call_views(calls@),
                    type_views(types@),
                )
            },
            Err(error) => batch_merged(
                table_of(groups@, *old(reservation), *old(memory)),
                call_views(calls@),
                type_views(types@),
                batch@,
            ) == Err::<MergeTable, ErrorView>(error@),
        },
{
    let ghost type_list = type_views(types@);
    let ghost call_list = call_views(calls@);
    let columns = batch.columns();
    let ghost views = column_views(columns@);
    let group_count: usize = types.len();
    let count: usize = batch.num_rows();
    let mut key_columns: Vec<Column> = Vec::new();
    for i in 0..group_count
        invariant
            batch.wf(),
            group_count <= columns.len(),
            views == column_views(columns@),
            views == batch@.columns,
            count == batch@.rows,
            key_columns.len() == i,
            forall|k: int|
                0 <= k < i ==> (#[trigger] key_columns@[k])@ == views[k]
                    && key_columns@[k]@.len() == count,
    {
        proof {
            assert(views[i as int] == columns@[i as int]@);
            assert(batch@.columns[i as int].len() == batch@.rows);
        }
        key_columns.push(columns[i].clone());
    }
    proof {
        assert(column_views(key_columns@) =~= views.take(group_count as int));
    }
    let keys = match encode_keys(types, &key_columns, count) {
        Ok(keys) => keys,
        Err(error) => return Err(error),
    };
    let ghost key_list = key_views(keys@);
    proof {
        assert forall|i: int| 0 <= i < group_count implies (#[trigger] columns@[i])@.data_type()
            == type_list[i] by {
            key_types_are_exact(type_list, views.take(group_count as int), 0);
            assert(views.take(group_count as int)[i] == columns@[i]@);
        }
        assert forall|i: int| 0 <= i < columns.len() implies count == (
        #[trigger] columns@[i])@.len() by {
            assert(views[i] == columns@[i]@);
            assert(batch@.columns[i].len() == batch@.rows);
        }
    }
    let ghost held = reservation@;
    let encoded_reservation = match memory.try_reserve(measure_keys(&keys)) {
        Ok(reservation) => reservation,
        Err(error) => return Err(error),
    };
    let ghost start = table_of(groups@, *reservation, *memory);
    let ghost charge = encoded_reservation@;
    let ghost memory_before = memory@;
    let mut current = groups;
    for row in 0..count
        invariant
            batch.wf(),
            count == batch@.rows,
            keys.len() == count,
            key_list == key_views(keys@),
            views == column_views(columns@),
            views == batch@.columns,
            group_count == types.len(),
            call_list == call_views(calls@),
            type_list == type_views(types@),
            column_place(fresh_merges(call_list), group_count as int, calls.len() as int)
                <= columns.len(),
            group_count <= columns.len(),
            forall|i: int| 0 <= i < columns.len() ==> count == (#[trigger] columns@[i])@.len(),
            forall|i: int|
                0 <= i < group_count ==> (#[trigger] columns@[i])@.data_type() == type_list[i],
            encoded(type_list, views.take(group_count as int), count as nat) == Ok::<
                Seq<Seq<u8>>,
                ErrorView,
            >(key_list),
            charge == capped(key_bytes(key_list, key_list.len() as int) as int),
            group_count > 0 ==> keys_tell_apart(keys@, views.take(group_count as int)),
            memory.wf(),
            charge == encoded_reservation@,
            reservation@ + charge <= memory@.reserved,
            rest_is_kept(memory_before, held as nat, memory@, reservation@ as nat),
            merge_groups_wf(merge_group_views(current@), call_list, type_list),
            rows_merged(start, call_list, key_list, views, group_count as nat, row as int) == Ok::<
                MergeTable,
                ErrorView,
            >(table_of(current@, *reservation, *memory)),
            old(memory)@.check(charge) is Ok,
            start == (MergeTable {
                groups: merge_group_views(groups@),
                held: old(reservation)@ as nat,
                memory: old(memory)@.claimed(charge),
            }),
            memory_before == old(memory)@.claimed(charge),
            held == old(reservation)@,
            old(memory).wf(),
            held <= old(memory)@.reserved,
    {
        proof {
            assert(key_list[row as int] == keys@[row as int]@);
            let part = views.take(group_count as int);
            let first = row_of(part, row as int);
            assert(keys@[row as int]@ == key_of(first));
            assert forall|other: Seq<ColumnView>|
                is_typed_row(other, type_list) && #[trigger] key_of(other) == key_of(
                    first,
                ) implies other == first by {
                if group_count == 0 {
                    assert(other =~= first);
                } else {
                    assert(is_row_of_types(other, part));
                    assert(row_key(other) == keys@[row as int]@);
                }
            }
        }
        match merge_row(
            current,
            reservation,
            memory,
            calls,
            &keys[row],
            columns,
            group_count,
            row,
            Ghost(key_list),
            Ghost(type_list),
        ) {
            Ok(next) => {
                current = next;
            },
            Err(error) => {
                proof {
                    merging_rows_fails_early(
                        start,
                        call_list,
                        key_list,
                        views,
                        group_count as nat,
                        row + 1,
                        count as int,
                    );
                }
                encoded_reservation.release(memory);
                return Err(error);
            },
        }
    }
    encoded_reservation.release(memory);
    Ok(current)
}

proof fn key_types_are_exact(types: Seq<DataTypeView>, columns: Seq<ColumnView>, from: int)
    requires
        0 <= from,
        crate::row_key::key_types_check(types, columns, from) is Ok,
    ensures
        forall|i: int|
            from <= i < columns.len() ==> (#[trigger] columns[i]).data_type() == types[i],
    decreases columns.len() - from,
{
    if from < columns.len() {
        key_types_are_exact(types, columns, from + 1);
    }
}

/// The first place from `from` on whose group comes after a key, or the number of groups.
pub open spec fn merge_place_after(groups: Seq<MergeGroupView>, key: Seq<u8>, from: int) -> int
    decreases groups.len() - from,
{
    if from >= groups.len() {
        groups.len() as int
    } else if bytes_before(key, groups[from].key) {
        from
    } else {
        merge_place_after(groups, key, from + 1)
    }
}

/// The first `upto` groups in the order of their keys.
pub open spec fn merge_sorted(groups: Seq<MergeGroupView>, upto: int) -> Seq<MergeGroupView>
    decreases upto,
{
    if upto <= 0 {
        Seq::empty()
    } else {
        let before = merge_sorted(groups, upto - 1);
        before.insert(merge_place_after(before, groups[upto - 1].key, 0), groups[upto - 1])
    }
}

fn sort_merge_groups(
    groups: Vec<MergeGroup>,
    Ghost(calls): Ghost<Seq<CallView>>,
    Ghost(types): Ghost<Seq<DataTypeView>>,
) -> (r: Vec<MergeGroup>)
    requires
        merge_groups_wf(merge_group_views(groups@), calls, types),
    ensures
        merge_group_views(r@) == merge_sorted(merge_group_views(groups@), groups.len() as int),
        merge_groups_wf(merge_group_views(r@), calls, types),
{
    let ghost views = merge_group_views(groups@);
    let count: usize = groups.len();
    let mut rest = groups;
    let mut sorted: Vec<MergeGroup> = Vec::new();
    let mut done: usize = 0;
    proof {
        assert(merge_group_views(sorted@) =~= merge_sorted(views, 0));
    }
    while rest.len() > 0
        invariant
            count == views.len(),
            done + rest.len() == count,
            forall|k: int| 0 <= k < rest.len() ==> (#[trigger] rest@[k])@ == views[done + k],
            merge_group_views(sorted@) == merge_sorted(views, done as int),
            merge_groups_wf(views, calls, types),
            merge_groups_wf(merge_group_views(sorted@), calls, types),
        decreases rest.len(),
    {
        let ghost before = merge_group_views(sorted@);
        let ghost rest_before = rest@;
        proof {
            assert(rest@[0]@ == views[done as int]);
        }
        let group = rest.remove(0);
        let ghost view = group@;
        let mut place: usize = 0;
        while place < sorted.len() && relate_bytes(
            group.key.as_slice(),
            sorted[place].key.as_slice(),
        ) != Relation::Less
            invariant
                place <= sorted.len(),
                before == merge_group_views(sorted@),
                view == group@,
                merge_place_after(before, view.key, 0) == merge_place_after(
                    before,
                    view.key,
                    place as int,
                ),
            decreases sorted.len() - place,
        {
            proof {
                assert(before[place as int] == sorted@[place as int]@);
            }
            place = place + 1;
        }
        proof {
            if place < sorted.len() {
                assert(before[place as int] == sorted@[place as int]@);
            }
        }
        sorted.insert(place, group);
        done = done + 1;
        proof {
            let after = before.insert(place as int, view);
            assert(merge_group_views(sorted@) =~= after);
            assert forall|k: int| 0 <= k < rest.len() implies (#[trigger] rest@[k])@ == views[done
                + k] by {
                assert(rest@[k] == rest_before[k + 1]);
            }
            assert forall|i: int| 0 <= i < after.len() implies {
                &&& states_of_calls((#[trigger] after[i]).states, calls)
                &&& after[i].row.len() == types.len()
                &&& after[i].key == key_of(after[i].row)
                &&& forall|k: int|
                    0 <= k < types.len() ==> (#[trigger] after[i].row[k]).data_type() == types[k]
                        && after[i].row[k].len() == 1
            } by {
                if i < place {
                    assert(after[i] == before[i]);
                } else if i == place {
                    assert(after[i] == views[done - 1]);
                } else {
                    assert(after[i] == before[i - 1]);
                }
            }
        }
    }
    sorted
}

/// A key column of the first `upto` groups.
pub open spec fn gathered_keys(
    groups: Seq<MergeGroupView>,
    place: int,
    data_type: DataTypeView,
    upto: int,
) -> ColumnView
    decreases upto,
{
    if upto <= 0 {
        empty_column(data_type)
    } else {
        gathered_keys(groups, place, data_type, upto - 1).joined(groups[upto - 1].row[place])
    }
}

fn gather_keys(
    groups: &Vec<MergeGroup>,
    place: usize,
    data_type: &DataType,
    Ghost(calls): Ghost<Seq<CallView>>,
    Ghost(types): Ghost<Seq<DataTypeView>>,
) -> (r: Column)
    requires
        merge_groups_wf(merge_group_views(groups@), calls, types),
        place < types.len(),
        types[place as int] == data_type@,
        !(data_type@ is Other),
    ensures
        r@ == gathered_keys(
            merge_group_views(groups@),
            place as int,
            data_type@,
            groups.len() as int,
        ),
{
    let ghost views = merge_group_views(groups@);
    let mut column = new_column(data_type);
    for i in 0..groups.len()
        invariant
            views == merge_group_views(groups@),
            merge_groups_wf(views, calls, types),
            place < types.len(),
            types[place as int] == data_type@,
            column@ == gathered_keys(views, place as int, data_type@, i as int),
            column@.data_type() == data_type@,
            column@.len() == i,
    {
        proof {
            assert(views[i as int] == groups@[i as int]@);
            assert(views[i as int].row.len() == types.len());
            assert(views[i as int].row[place as int] == groups@[i as int].row@[place as int]@);
            assert(views[i as int].row[place as int].data_type() == types[place as int]);
        }
        column = append_column(column, &groups[i].row[place]);
    }
    column
}

pub open spec fn finished_merges(groups: Seq<MergeGroupView>, place: int) -> Seq<ScalarView> {
    Seq::new(groups.len(), |i: int| groups[i].states[place].finished())
}

fn finish_merges(groups: &Vec<MergeGroup>, place: usize, Ghost(calls): Ghost<Seq<CallView>>) -> (r:
    Vec<ScalarValue>)
    requires
        forall|i: int|
            0 <= i < groups.len() ==> (#[trigger] groups@[i]).states.len() == calls.len(),
        place < calls.len(),
    ensures
        scalar_views(r@) == finished_merges(merge_group_views(groups@), place as int),
{
    let mut values: Vec<ScalarValue> = Vec::new();
    for i in 0..groups.len()
        invariant
            forall|i: int|
                0 <= i < groups.len() ==> (#[trigger] groups@[i]).states.len() == calls.len(),
            place < calls.len(),
            values.len() == i,
            forall|k: int|
                0 <= k < i ==> (#[trigger] values@[k])@
                    == groups@[k].states@[place as int]@.finished(),
    {
        values.push(groups[i].states[place].finish());
    }
    proof {
        assert(scalar_views(values@) =~= finished_merges(
            merge_group_views(groups@),
            place as int,
        ));
    }
    values
}

/// The columns of the first `upto` functions, after the key columns.
pub open spec fn value_columns(
    groups: Seq<MergeGroupView>,
    fields: Seq<FieldView>,
    group_count: nat,
    upto: int,
) -> Result<Seq<ColumnView>, ErrorView>
    decreases upto,
{
    if upto <= 0 {
        Ok(
            Seq::new(
                group_count,
                |i: int| gathered_keys(groups, i, fields[i].data_type, groups.len() as int),
            ),
        )
    } else {
        match value_columns(groups, fields, group_count, upto - 1) {
            Err(error) => Err(error),
            Ok(columns) => match column_of(
                finished_merges(groups, upto - 1),
                fields[group_count + upto - 1].data_type,
            ) {
                Err(error) => Err(error),
                Ok(column) => Ok(columns.push(column)),
            },
        }
    }
}

proof fn value_columns_fail_early(
    groups: Seq<MergeGroupView>,
    fields: Seq<FieldView>,
    group_count: nat,
    upto: int,
    full: int,
)
    requires
        0 <= upto <= full,
        value_columns(groups, fields, group_count, upto) is Err,
    ensures
        value_columns(groups, fields, group_count, full) == value_columns(
            groups,
            fields,
            group_count,
            upto,
        ),
    decreases full - upto,
{
    if upto < full {
        value_columns_fail_early(groups, fields, group_count, upto, full - 1);
    }
}

/// The batch that merging gives, or why there is none: a row for each key, in the order of their
/// bytes.
pub open spec fn merged(
    batches: Seq<BatchView>,
    group_count: nat,
    aggregates: Seq<ExprView>,
    schema: SchemaView,
    memory: MemoryView,
) -> Result<BatchView, ErrorView> {
    match calls_of(aggregates, aggregates.len() as int) {
        Err(error) => Err(error),
        Ok(calls) => match batches_merged(
            batches,
            calls,
            key_types(schema.fields, group_count),
            memory,
            batches.len() as int,
        ) {
            Err(error) => Err(error),
            Ok(table) => {
                let groups = merge_sorted(table.groups, table.groups.len() as int);
                let values = if aggregates.len() < schema.fields.len() - group_count {
                    aggregates.len() as int
                } else {
                    schema.fields.len() - group_count
                };
                match value_columns(groups, schema.fields, group_count, values) {
                    Err(error) => Err(error),
                    Ok(columns) => made_batch(schema, columns, None),
                }
            },
        },
    }
}

/// Whether every batch has the columns of the partial results of the given calls.
pub open spec fn holds_partials(
    batches: Seq<BatchView>,
    group_count: nat,
    aggregates: Seq<ExprView>,
) -> bool {
    calls_of(aggregates, aggregates.len() as int) matches Ok(calls) ==> forall|i: int|
        0 <= i < batches.len() ==> column_place(
            fresh_merges(calls),
            group_count as int,
            calls.len() as int,
        ) <= (#[trigger] batches[i]).columns.len()
}

/// The most that is claimed while partial results are merged, where they can be.
pub open spec fn merged_peak(
    batches: Seq<BatchView>,
    group_count: nat,
    aggregates: Seq<ExprView>,
    schema: SchemaView,
    memory: MemoryView,
) -> nat {
    batches_merged(
        batches,
        calls_of(aggregates, aggregates.len() as int)->Ok_0,
        key_types(schema.fields, group_count),
        memory,
        batches.len() as int,
    )->Ok_0.memory.peak
}

/// Merges batches of partial aggregates, each with the key columns first, into one batch.
pub fn merge_partials(
    batches: &Vec<Batch>,
    group_count: usize,
    aggregates: &Vec<Expr>,
    schema: &Schema,
    memory: &mut QueryMemory,
) -> (r: Result<Batch, SparkXError>)
    requires
        old(memory).wf(),
        forall|i: int| 0 <= i < batches.len() ==> (#[trigger] batches@[i]).wf(),
        group_count <= schema@.fields.len(),
        forall|i: int|
            0 <= i < group_count ==> !((#[trigger] schema@.fields[i]).data_type is Other),
        holds_partials(batch_views(batches@), group_count as nat, expr_views(aggregates@)),
    ensures
        batch_outcome(r) == merged(
            batch_views(batches@),
            group_count as nat,
            expr_views(aggregates@),
            schema@,
            old(memory)@,
        ),
        r matches Ok(batch) ==> batch.wf(),
        final(memory).wf(),
        final(memory)@.limit == old(memory)@.limit,
        final(memory)@.reserved == old(memory)@.reserved,
        final(memory)@.peak >= old(memory)@.peak,
        r is Ok ==> final(memory)@.peak == merged_peak(
            batch_views(batches@),
            group_count as nat,
            expr_views(aggregates@),
            schema@,
            old(memory)@,
        ),
{
    let calls = match aggregate_specs(aggregates) {
        Ok(calls) => calls,
        Err(error) => return Err(error),
    };
    let ghost call_list = call_views(calls@);
    let ghost views = batch_views(batches@);
    let mut types: Vec<DataType> = Vec::new();
    for i in 0..group_count
        invariant
            group_count <= schema@.fields.len(),
            types.len() == i,
            forall|k: int| 0 <= k < i ==> (#[trigger] types@[k])@ == schema@.fields[k].data_type,
    {
        types.push(schema.fields[i].data_type.clone());
    }
    let ghost type_list = type_views(types@);
    proof {
        assert(type_list =~= key_types(schema@.fields, group_count as nat));
    }
    let mut reservation = match memory.try_reserve(0) {
        Ok(reservation) => reservation,
        Err(error) => return Err(error),
    };
    let mut groups: Vec<MergeGroup> = Vec::new();
    proof {
        assert(memory@ == old(memory)@);
        assert(table_of(groups@, reservation, *memory).groups =~= Seq::empty());
    }
    if group_count == 0 {
        let key: Vec<u8> = Vec::new();
        let row: Vec<Column> = Vec::new();
        proof {
            assert(key@ =~= Seq::empty());
            assert(column_views(row@) =~= Seq::empty());
        }
        match open_group(groups, &mut reservation, memory, &calls, key, row) {
            Ok(next) => {
                groups = next;
            },
            Err(error) => {
                proof {
                    assert(batches_merged(views, call_list, type_list, old(memory)@, 0) is Err);
                    merging_fails_early(
                        views,
                        call_list,
                        type_list,
                        old(memory)@,
                        0,
                        batches.len() as int,
                    );
                }
                reservation.release(memory);
                return Err(error);
            },
        }
    }
    for i in 0..batches.len()
        invariant
            forall|i: int| 0 <= i < batches.len() ==> (#[trigger] batches@[i]).wf(),
            views == batch_views(batches@),
            call_list == call_views(calls@),
            type_list == type_views(types@),
            types.len() == group_count,
            calls.len() == aggregates.len(),
            type_list == key_types(schema@.fields, group_count as nat),
            calls_of(expr_views(aggregates@), aggregates.len() as int) == Ok::<
                Seq<CallView>,
                ErrorView,
            >(call_list),
            holds_partials(views, group_count as nat, expr_views(aggregates@)),
            memory.wf(),
            old(memory).wf(),
            reservation@ <= memory@.reserved,
            rest_is_kept(old(memory)@, 0, memory@, reservation@ as nat),
            merge_groups_wf(merge_group_views(groups@), call_list, type_list),
            batches_merged(views, call_list, type_list, old(memory)@, i as int) == Ok::<
                MergeTable,
                ErrorView,
            >(table_of(groups@, reservation, *memory)),
    {
        proof {
            assert(views[i as int] == batches@[i as int]@);
            assert(column_place(
                fresh_merges(call_list),
                group_count as int,
                call_list.len() as int,
            ) <= views[i as int].columns.len());
            places_grow(fresh_merges(call_list), group_count as int, 0, call_list.len() as int);
        }
        match merge_batch(groups, &mut reservation, memory, &calls, &types, &batches[i]) {
            Ok(next) => {
                groups = next;
            },
            Err(error) => {
                proof {
                    merging_fails_early(
                        views,
                        call_list,
                        type_list,
                        old(memory)@,
                        i + 1,
                        batches.len() as int,
                    );
                }
                reservation.release(memory);
                return Err(error);
            },
        }
    }
    let groups = sort_merge_groups(groups, Ghost(call_list), Ghost(type_list));
    let ghost sorted = merge_group_views(groups@);
    reservation.release(memory);
    let mut columns: Vec<Column> = Vec::new();
    for i in 0..group_count
        invariant
            sorted == merge_group_views(groups@),
            merge_groups_wf(sorted, call_list, type_list),
            type_list == type_views(types@),
            types.len() == group_count,
            group_count <= schema@.fields.len(),
            type_list == key_types(schema@.fields, group_count as nat),
            forall|i: int|
                0 <= i < group_count ==> !((#[trigger] schema@.fields[i]).data_type is Other),
            columns.len() == i,
            forall|k: int|
                0 <= k < i ==> (#[trigger] columns@[k])@ == gathered_keys(
                    sorted,
                    k,
                    schema@.fields[k].data_type,
                    sorted.len() as int,
                ),
    {
        proof {
            assert(type_list[i as int] == types@[i as int]@);
            assert(!(schema@.fields[i as int].data_type is Other));
        }
        columns.push(gather_keys(&groups, i, &types[i], Ghost(call_list), Ghost(type_list)));
    }
    let room: usize = schema.fields.len() - group_count;
    let values: usize = if calls.len() < room {
        calls.len()
    } else {
        room
    };
    proof {
        assert(column_views(columns@) =~= Seq::new(
            group_count as nat,
            |i: int|
                gathered_keys(sorted, i, schema@.fields[i].data_type, sorted.len() as int),
        ));
        assert forall|i: int| 0 <= i < groups.len() implies (
        #[trigger] groups@[i]).states.len() == call_list.len() by {
            assert(sorted[i] == groups@[i]@);
            assert(states_of_calls(sorted[i].states, call_list));
        }
    }
    for i in 0..values
        invariant
            sorted == merge_group_views(groups@),
            forall|i: int|
                0 <= i < groups.len() ==> (#[trigger] groups@[i]).states.len()
                    == call_list.len(),
            call_list.len() == calls.len(),
            values <= calls.len(),
            group_count + values <= schema@.fields.len(),
            value_columns(sorted, schema@.fields, group_count as nat, i as int) == Ok::<
                Seq<ColumnView>,
                ErrorView,
            >(column_views(columns@)),
            merged(
                views,
                group_count as nat,
                expr_views(aggregates@),
                schema@,
                old(memory)@,
            ) == (match value_columns(sorted, schema@.fields, group_count as nat, values as int) {
                Err(error) => Err(error),
                Ok(columns) => made_batch(schema@, columns, None),
            }),
            views == batch_views(batches@),
            final(memory)@ == memory@,
            memory.wf(),
            memory@.limit == old(memory)@.limit,
            memory@.reserved == old(memory)@.reserved,
            memory@.peak >= old(memory)@.peak,
            memory@.peak == merged_peak(
                views,
                group_count as nat,
                expr_views(aggregates@),
                schema@,
                old(memory)@,
            ),
    {
        let ghost before = column_views(columns@);
        proof {
            assert(schema@.fields.len() == schema.fields.len());
        }
        let scalars = finish_merges(&groups, i, Ghost(call_list));
        match scalars_to_array(&scalars, &schema.fields[group_count + i].data_type) {
            Ok(column) => {
                let ghost view = column@;
                columns.push(column);
                proof {
                    assert(column_views(columns@) =~= before.push(view));
                }
            },
            Err(error) => {
                proof {
                    value_columns_fail_early(
                        sorted,
                        schema@.fields,
                        group_count as nat,
                        i + 1,
                        values as int,
                    );
                }
                return Err(error);
            },
        }
    }
    Batch::try_new(schema.clone(), columns, None)
}

} // verus!

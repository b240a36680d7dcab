//! A join that is spread over partitions gives the rows of one join.

use crate::batch::{made_batch, BatchView};
use crate::cells::cell_value;
use crate::cluster::hash_exchange::{
    all_received, batches_dealt, columns_at, partition_of, repartitioned, rows_of_partition,
    every_row_goes_to_one_partition, types_at, ExchangeTable, PartitionView,
};
use crate::cluster::join::{key_columns, key_columns_match};
use crate::column::{cells_make_a_column, ColumnView};
use crate::distributed::laws::rows_are_read;
use crate::distributed::spreading::all_have;
use crate::distributed::written::{
    reading_is_by_row, rows_are_held, singles_are_read_widened, written,
};
use crate::error::ErrorView;
use crate::execution::join::{
    built, built_rows, has_null_key, joined, joined_row, pairs, probed, probed_rows, right_width_of,
    KeyedView,
};
use crate::execution::rows::{computed, row_values};
use crate::execution::rowwise::{all_rows, result_rows, rows_in};
use crate::expr::{resolve, resolve_is_within, ExprView};
use crate::floats::{is_single_nan, numbers_stay_numbers, widening_keeps_apart, NO_SINGLE_NUMBER};
use crate::kernels::{row_key, row_of};
use crate::logical::JoinType;
use crate::memory::MemoryView;
use crate::protocol::{HashExchangeView, PartitionId};
use crate::row_key::encoded;
use crate::scalar::ScalarView;
use crate::table::all_valid;
use crate::types::{FieldView, SchemaView};
use vstd::multiset::Multiset;
use vstd::prelude::*;
use vstd::seq_lib::lemma_multiset_commutative;

verus! {

// ---- rows

/// The values in a row of cells.
pub open spec fn values_in(row: Seq<ColumnView>) -> Seq<ScalarView> {
    Seq::new(row.len(), |j: int| cell_value(row[j], 0)->Ok_0)
}

/// The values in a row at some places.
pub open spec fn key_in(row: Seq<ColumnView>, places: Seq<usize>) -> Seq<ScalarView> {
    values_in(columns_at(row, places))
}

/// The partition to which a row is dealt by its cells at some places.
pub open spec fn route(row: Seq<ColumnView>, places: Seq<usize>, count: u32) -> int {
    partition_of(row_key(columns_at(row, places)), count) as int
}

/// The rows that are dealt to a partition.
pub open spec fn routed(
    rows: Seq<Seq<ColumnView>>,
    places: Seq<usize>,
    count: u32,
    partition: int,
) -> Seq<Seq<ColumnView>>
    decreases rows.len(),
{
    if rows.len() == 0 {
        Seq::empty()
    } else {
        let before = routed(rows.drop_last(), places, count, partition);
        if route(rows.last(), places, count) == partition {
            before.push(rows.last())
        } else {
            before
        }
    }
}

/// The rows that can have a partner, with their keys.
pub open spec fn keyed(rows: Seq<Seq<ColumnView>>, places: Seq<usize>) -> Seq<KeyedView>
    decreases rows.len(),
{
    if rows.len() == 0 {
        Seq::empty()
    } else {
        let before = keyed(rows.drop_last(), places);
        let key = key_in(rows.last(), places);
        if has_null_key(key) {
            before
        } else {
            before.push(KeyedView { key, values: values_in(rows.last()) })
        }
    }
}

/// What rows of the left side give.
pub open spec fn matched(
    rows: Seq<Seq<ColumnView>>,
    places: Seq<usize>,
    right: Seq<KeyedView>,
    join_type: JoinType,
    width: nat,
) -> Seq<Seq<ScalarView>>
    decreases rows.len(),
{
    if rows.len() == 0 {
        Seq::empty()
    } else {
        matched(rows.drop_last(), places, right, join_type, width) + joined_row(
            values_in(rows.last()),
            key_in(rows.last(), places),
            right,
            join_type,
            width,
        )
    }
}

/// Rows of values, written into cells of the types of some fields.
pub open spec fn written_rows(rows: Seq<Seq<ScalarView>>, fields: Seq<FieldView>) -> Seq<
    Seq<ColumnView>,
> {
    Seq::new(
        rows.len(),
        |r: int| Seq::new(fields.len(), |j: int| written(rows[r][j], fields[j].data_type)),
    )
}

pub(crate) proof fn routed_of_two(
    a: Seq<Seq<ColumnView>>,
    b: Seq<Seq<ColumnView>>,
    places: Seq<usize>,
    count: u32,
    partition: int,
)
    ensures
        routed(a + b, places, count, partition) == routed(a, places, count, partition) + routed(
            b,
            places,
            count,
            partition,
        ),
    decreases b.len(),
{
    if b.len() == 0 {
        assert(a + b =~= a);
        assert(routed(a, places, count, partition) + Seq::<Seq<ColumnView>>::empty() =~= routed(
            a,
            places,
            count,
            partition,
        ));
    } else {
        assert((a + b).drop_last() =~= a + b.drop_last());
        routed_of_two(a, b.drop_last(), places, count, partition);
        let first = routed(a, places, count, partition);
        let rest = routed(b.drop_last(), places, count, partition);
        assert((first + rest).push(b.last()) =~= first + rest.push(b.last()));
    }
}

proof fn keyed_of_two(a: Seq<Seq<ColumnView>>, b: Seq<Seq<ColumnView>>, places: Seq<usize>)
    ensures
        keyed(a + b, places) == keyed(a, places) + keyed(b, places),
    decreases b.len(),
{
    if b.len() == 0 {
        assert(a + b =~= a);
        assert(keyed(a, places) + Seq::<KeyedView>::empty() =~= keyed(a, places));
    } else {
        assert((a + b).drop_last() =~= a + b.drop_last());
        keyed_of_two(a, b.drop_last(), places);
        let item = KeyedView { key: key_in(b.last(), places), values: values_in(b.last()) };
        assert((keyed(a, places) + keyed(b.drop_last(), places)).push(item) =~= keyed(a, places)
            + keyed(b.drop_last(), places).push(item));
    }
}

proof fn matched_of_two(
    a: Seq<Seq<ColumnView>>,
    b: Seq<Seq<ColumnView>>,
    places: Seq<usize>,
    right: Seq<KeyedView>,
    join_type: JoinType,
    width: nat,
)
    ensures
        matched(a + b, places, right, join_type, width) == matched(
            a,
            places,
            right,
            join_type,
            width,
        ) + matched(b, places, right, join_type, width),
    decreases b.len(),
{
    let first = matched(a, places, right, join_type, width);
    if b.len() == 0 {
        assert(a + b =~= a);
        assert(first + Seq::<Seq<ScalarView>>::empty() =~= first);
    } else {
        assert((a + b).drop_last() =~= a + b.drop_last());
        matched_of_two(a, b.drop_last(), places, right, join_type, width);
        let rest = matched(b.drop_last(), places, right, join_type, width);
        let more = joined_row(
            values_in(b.last()),
            key_in(b.last(), places),
            right,
            join_type,
            width,
        );
        assert((first + rest) + more =~= first + (rest + more));
    }
}

// ---- what a join gives, told by rows

/// Whether a batch has columns of one length for the fields of a schema.
pub open spec fn is_even(batch: BatchView, schema: SchemaView) -> bool {
    &&& batch.schema == schema
    &&& batch.columns.len() == schema.fields.len()
    &&& batch.rows <= usize::MAX
    &&& forall|c: int|
        0 <= c < batch.columns.len() ==> (#[trigger] batch.columns[c]).len() == batch.rows
}

pub open spec fn all_even(batches: Seq<BatchView>, schema: SchemaView) -> bool {
    forall|i: int| 0 <= i < batches.len() ==> is_even(#[trigger] batches[i], schema)
}

/// Whether an expression is the column at a place of a schema.
pub open spec fn is_column_at(expr: ExprView, place: usize, schema: SchemaView) -> bool {
    &&& place < schema.fields.len()
    &&& expr is Column
    &&& resolve(schema.names(), expr->Column_0) == Ok::<int, ErrorView>(place as int)
}

/// Whether expressions are the columns at some places of a schema.
pub open spec fn are_columns(on: Seq<ExprView>, places: Seq<usize>, schema: SchemaView) -> bool {
    &&& on.len() == places.len()
    &&& forall|j: int|
        #![trigger places[j]]
        #![trigger on[j]]
        0 <= j < places.len() ==> is_column_at(on[j], places[j], schema)
}

proof fn keys_are_columns(
    on: Seq<ExprView>,
    places: Seq<usize>,
    schema: SchemaView,
    batch: BatchView,
    upto: int,
)
    requires
        are_columns(on, places, schema),
        batch.schema == schema,
        0 <= upto <= on.len(),
    ensures
        computed(on, batch, upto) == Ok::<Seq<ColumnView>, ErrorView>(
            columns_at(batch.columns, places.take(upto)),
        ),
    decreases upto,
{
    if upto > 0 {
        keys_are_columns(on, places, schema, batch, upto - 1);
        assert(places[upto - 1] < schema.fields.len());
        assert(columns_at(batch.columns, places.take(upto)) =~= columns_at(
            batch.columns,
            places.take(upto - 1),
        ).push(batch.columns[places[upto - 1] as int]));
    } else {
        assert(columns_at(batch.columns, places.take(0)) =~= Seq::<ColumnView>::empty());
    }
}

proof fn rows_have_values(columns: Seq<ColumnView>, row: int)
    requires
        forall|c: int| 0 <= c < columns.len() ==> 0 <= row < (#[trigger] columns[c]).len(),
    ensures
        row_values(columns, row, columns.len() as int) == Ok::<Seq<ScalarView>, ErrorView>(
            values_in(row_of(columns, row)),
        ),
{
    rows_are_read(columns, row, columns.len() as int);
    let values = row_values(columns, row, columns.len() as int)->Ok_0;
    assert forall|c: int| 0 <= c < columns.len() implies values[c] == values_in(
        row_of(columns, row),
    )[c] by {
        assert(0 <= row < columns[c].len());
        assert(cell_value(columns[c], row) == Ok::<ScalarView, ErrorView>(values[c]));
        reading_is_by_row(columns[c], row);
    }
    assert(values =~= values_in(row_of(columns, row)));
}

/// The key and the values of a row of a batch.
proof fn a_row_is_keyed(
    batch: BatchView,
    on: Seq<ExprView>,
    places: Seq<usize>,
    schema: SchemaView,
    row: int,
)
    requires
        is_even(batch, schema),
        are_columns(on, places, schema),
        0 <= row < batch.rows,
    ensures
        ({
            let keys = columns_at(batch.columns, places);
            &&& computed(on, batch, on.len() as int) == Ok::<Seq<ColumnView>, ErrorView>(keys)
            &&& row_values(keys, row, keys.len() as int) == Ok::<Seq<ScalarView>, ErrorView>(
                key_in(row_of(batch.columns, row), places),
            )
            &&& row_values(batch.columns, row, batch.columns.len() as int) == Ok::<
                Seq<ScalarView>,
                ErrorView,
            >(values_in(row_of(batch.columns, row)))
            &&& row_of(keys, row) == columns_at(row_of(batch.columns, row), places)
        }),
{
    let keys = columns_at(batch.columns, places);
    keys_are_columns(on, places, schema, batch, on.len() as int);
    assert(places.take(on.len() as int) =~= places);
    assert forall|c: int| 0 <= c < batch.columns.len() implies 0 <= row < (
    #[trigger] batch.columns[c]).len() by {
        assert(batch.columns[c].len() == batch.rows);
    }
    assert forall|c: int| 0 <= c < keys.len() implies 0 <= row < (#[trigger] keys[c]).len() by {
        assert(places[c] < schema.fields.len());
    }
    rows_have_values(batch.columns, row);
    rows_have_values(keys, row);
    assert forall|c: int| 0 <= c < keys.len() implies row_of(keys, row)[c] == columns_at(
        row_of(batch.columns, row),
        places,
    )[c] by {
        assert(places[c] < schema.fields.len());
    }
    assert(row_of(keys, row) =~= columns_at(row_of(batch.columns, row), places));
}

proof fn building_is_by_row(
    before: Seq<KeyedView>,
    batch: BatchView,
    on: Seq<ExprView>,
    places: Seq<usize>,
    schema: SchemaView,
    upto: int,
)
    requires
        is_even(batch, schema),
        are_columns(on, places, schema),
        0 <= upto <= batch.rows,
    ensures
        built_rows(before, columns_at(batch.columns, places), batch, upto) == Ok::<
            Seq<KeyedView>,
            ErrorView,
        >(before + keyed(result_rows(batch).take(upto), places)),
    decreases upto,
{
    let rows = result_rows(batch);
    if upto > 0 {
        building_is_by_row(before, batch, on, places, schema, upto - 1);
        a_row_is_keyed(batch, on, places, schema, upto - 1);
        assert(rows.take(upto).drop_last() =~= rows.take(upto - 1));
        let earlier = keyed(rows.take(upto - 1), places);
        let row = rows[upto - 1];
        let item = KeyedView { key: key_in(row, places), values: values_in(row) };
        assert((before + earlier).push(item) =~= before + earlier.push(item));
    } else {
        assert(before + keyed(rows.take(0), places) =~= before);
    }
}

/// What is built of the right side is its rows that can have a partner.
proof fn what_is_built(
    batches: Seq<BatchView>,
    on: Seq<ExprView>,
    places: Seq<usize>,
    schema: SchemaView,
    upto: int,
)
    requires
        all_even(batches, schema),
        are_columns(on, places, schema),
        0 <= upto <= batches.len(),
    ensures
        built(batches, on, upto) == Ok::<Seq<KeyedView>, ErrorView>(
            keyed(rows_in(batches, upto), places),
        ),
    decreases upto,
{
    if upto > 0 {
        what_is_built(batches, on, places, schema, upto - 1);
        let batch = batches[upto - 1];
        assert(is_even(batches[upto - 1], schema));
        keys_are_columns(on, places, schema, batch, on.len() as int);
        assert(places.take(on.len() as int) =~= places);
        let before = keyed(rows_in(batches, upto - 1), places);
        building_is_by_row(before, batch, on, places, schema, batch.rows as int);
        let rows = result_rows(batch);
        assert(rows.take(batch.rows as int) =~= rows);
        keyed_of_two(rows_in(batches, upto - 1), rows, places);
    }
}

proof fn probing_is_by_row(
    before: Seq<Seq<ScalarView>>,
    batch: BatchView,
    on: Seq<ExprView>,
    places: Seq<usize>,
    schema: SchemaView,
    right: Seq<KeyedView>,
    join_type: JoinType,
    width: nat,
    upto: int,
)
    requires
        is_even(batch, schema),
        are_columns(on, places, schema),
        0 <= upto <= batch.rows,
    ensures
        probed_rows(
            before,
            columns_at(batch.columns, places),
            batch,
            right,
            join_type,
            width,
            upto,
        ) == Ok::<Seq<Seq<ScalarView>>, ErrorView>(
            before + matched(result_rows(batch).take(upto), places, right, join_type, width),
        ),
    decreases upto,
{
    let rows = result_rows(batch);
    if upto > 0 {
        probing_is_by_row(
            before,
            batch,
            on,
            places,
            schema,
            right,
            join_type,
            width,
            upto - 1,
        );
        a_row_is_keyed(batch, on, places, schema, upto - 1);
        assert(rows.take(upto).drop_last() =~= rows.take(upto - 1));
        let earlier = matched(rows.take(upto - 1), places, right, join_type, width);
        let row = rows[upto - 1];
        let more = joined_row(values_in(row), key_in(row, places), right, join_type, width);
        assert((before + earlier) + more =~= before + (earlier + more));
    } else {
        assert(before + matched(rows.take(0), places, right, join_type, width) =~= before);
    }
}

/// What is found for the left side is what its rows give.
proof fn what_is_probed(
    batches: Seq<BatchView>,
    on: Seq<ExprView>,
    places: Seq<usize>,
    schema: SchemaView,
    right: Seq<KeyedView>,
    join_type: JoinType,
    width: nat,
    upto: int,
)
    requires
        all_even(batches, schema),
        are_columns(on, places, schema),
        0 <= upto <= batches.len(),
    ensures
        probed(batches, on, right, join_type, width, upto) == Ok::<
            Seq<Seq<ScalarView>>,
            ErrorView,
        >(matched(rows_in(batches, upto), places, right, join_type, width)),
    decreases upto,
{
    if upto > 0 {
        what_is_probed(batches, on, places, schema, right, join_type, width, upto - 1);
        let batch = batches[upto - 1];
        assert(is_even(batches[upto - 1], schema));
        keys_are_columns(on, places, schema, batch, on.len() as int);
        assert(places.take(on.len() as int) =~= places);
        let before = matched(rows_in(batches, upto - 1), places, right, join_type, width);
        probing_is_by_row(
            before,
            batch,
            on,
            places,
            schema,
            right,
            join_type,
            width,
            batch.rows as int,
        );
        let rows = result_rows(batch);
        assert(rows.take(batch.rows as int) =~= rows);
        matched_of_two(rows_in(batches, upto - 1), rows, places, right, join_type, width);
    }
}

proof fn pairs_are_wide(
    values: Seq<ScalarView>,
    key: Seq<ScalarView>,
    right: Seq<KeyedView>,
    width: nat,
    upto: int,
)
    requires
        0 <= upto <= right.len(),
        forall|i: int| 0 <= i < right.len() ==> (#[trigger] right[i]).values.len() == width,
    ensures
        forall|r: int|
            0 <= r < pairs(values, key, right, upto).len() ==> (#[trigger] pairs(
                values,
                key,
                right,
                upto,
            )[r]).len() == values.len() + width,
    decreases upto,
{
    if upto > 0 {
        pairs_are_wide(values, key, right, width, upto - 1);
        let before = pairs(values, key, right, upto - 1);
        let all = pairs(values, key, right, upto);
        assert(right[upto - 1].values.len() == width);
        assert forall|r: int| 0 <= r < all.len() implies (#[trigger] all[r]).len() == values.len()
            + width by {
            if r < before.len() {
                assert(all[r] == before[r]);
            }
        }
    }
}

proof fn matches_are_wide(
    rows: Seq<Seq<ColumnView>>,
    places: Seq<usize>,
    right: Seq<KeyedView>,
    join_type: JoinType,
    left_width: nat,
    width: nat,
)
    requires
        forall|i: int| 0 <= i < right.len() ==> (#[trigger] right[i]).values.len() == width,
        forall|i: int| 0 <= i < rows.len() ==> (#[trigger] rows[i]).len() == left_width,
    ensures
        forall|r: int|
            0 <= r < matched(rows, places, right, join_type, width).len() ==> (#[trigger] matched(
                rows,
                places,
                right,
                join_type,
                width,
            )[r]).len() == left_width + width,
    decreases rows.len(),
{
    if rows.len() > 0 {
        matches_are_wide(rows.drop_last(), places, right, join_type, left_width, width);
        let row = rows.last();
        assert(rows[rows.len() - 1].len() == left_width);
        pairs_are_wide(
            values_in(row),
            key_in(row, places),
            right,
            width,
            right.len() as int,
        );
        let before = matched(rows.drop_last(), places, right, join_type, width);
        let more = joined_row(values_in(row), key_in(row, places), right, join_type, width);
        let all = matched(rows, places, right, join_type, width);
        assert forall|r: int| 0 <= r < all.len() implies (#[trigger] all[r]).len() == left_width
            + width by {
            if r < before.len() {
                assert(all[r] == before[r]);
            } else {
                assert(all[r] == more[r - before.len()]);
                let found = pairs(values_in(row), key_in(row, places), right, right.len() as int);
                if found.len() > 0 {
                    assert(more[r - before.len()] == found[r - before.len()]);
                }
            }
        }
    }
}

proof fn keyed_are_wide(rows: Seq<Seq<ColumnView>>, places: Seq<usize>, width: nat)
    requires
        forall|i: int| 0 <= i < rows.len() ==> (#[trigger] rows[i]).len() == width,
    ensures
        forall|i: int|
            0 <= i < keyed(rows, places).len() ==> (#[trigger] keyed(rows, places)[i]).values.len()
                == width,
    decreases rows.len(),
{
    if rows.len() > 0 {
        keyed_are_wide(rows.drop_last(), places, width);
        assert(rows[rows.len() - 1].len() == width);
        let before = keyed(rows.drop_last(), places);
        let all = keyed(rows, places);
        assert forall|i: int| 0 <= i < all.len() implies (#[trigger] all[i]).values.len()
            == width by {
            if i < before.len() {
                assert(all[i] == before[i]);
            }
        }
    }
}

proof fn rows_are_wide(batches: Seq<BatchView>, schema: SchemaView, upto: int)
    requires
        all_even(batches, schema),
        0 <= upto <= batches.len(),
    ensures
        forall|i: int|
            0 <= i < rows_in(batches, upto).len() ==> (#[trigger] rows_in(batches, upto)[i]).len()
                == schema.fields.len(),
    decreases upto,
{
    if upto > 0 {
        rows_are_wide(batches, schema, upto - 1);
        assert(is_even(batches[upto - 1], schema));
        let before = rows_in(batches, upto - 1);
        let all = rows_in(batches, upto);
        assert forall|i: int| 0 <= i < all.len() implies (#[trigger] all[i]).len()
            == schema.fields.len() by {
            if i < before.len() {
                assert(all[i] == before[i]);
            } else {
                assert(all[i] == result_rows(batches[upto - 1])[i - before.len()]);
            }
        }
    }
}

proof fn matching_nothing(
    rows: Seq<Seq<ColumnView>>,
    places: Seq<usize>,
    right: Seq<KeyedView>,
    join_type: JoinType,
    a: nat,
    b: nat,
)
    requires
        rows.len() > 0 ==> a == b,
    ensures
        matched(rows, places, right, join_type, a) == matched(rows, places, right, join_type, b),
{
}

/// The rows that a join gives.
#[verifier::rlimit(30)]
proof fn what_is_joined(
    lefts: Seq<BatchView>,
    rights: Seq<BatchView>,
    left: SchemaView,
    right: SchemaView,
    join_type: JoinType,
    left_on: Seq<ExprView>,
    right_on: Seq<ExprView>,
    left_places: Seq<usize>,
    right_places: Seq<usize>,
    schema: SchemaView,
    batch: BatchView,
)
    requires
        all_even(lefts, left),
        all_even(rights, right),
        are_columns(left_on, left_places, left),
        are_columns(right_on, right_places, right),
        schema.fields.len() == left.fields.len() + right.fields.len(),
        schema.fields.len() > 0,
        joined(lefts, rights, join_type, left_on, right_on, schema) == Ok::<BatchView, ErrorView>(
            batch,
        ),
    ensures
        result_rows(batch) == written_rows(
            matched(
                all_rows(lefts),
                left_places,
                keyed(all_rows(rights), right_places),
                join_type,
                right.fields.len(),
            ),
            schema.fields,
        ),
{
    let width = right_width_of(lefts, rights, schema);
    let keys = keyed(all_rows(rights), right_places);
    let rows = all_rows(lefts);
    what_is_built(rights, right_on, right_places, right, rights.len() as int);
    what_is_probed(
        lefts,
        left_on,
        left_places,
        left,
        keys,
        join_type,
        width,
        lefts.len() as int,
    );
    if lefts.len() > 0 {
        assert(is_even(lefts[0], left));
    }
    if rights.len() > 0 {
        assert(is_even(rights[0], right));
    }
    matching_nothing(rows, left_places, keys, join_type, width, right.fields.len());
    let found = matched(rows, left_places, keys, join_type, right.fields.len());
    rows_are_wide(lefts, left, lefts.len() as int);
    rows_are_wide(rights, right, rights.len() as int);
    keyed_are_wide(all_rows(rights), right_places, right.fields.len());
    matches_are_wide(rows, left_places, keys, join_type, left.fields.len(), right.fields.len());
    rows_are_held(found, schema);
    let made = written_rows(found, schema.fields);
    assert forall|r: int| 0 <= r < found.len() implies result_rows(batch)[r] == made[r] by {
        assert forall|j: int| 0 <= j < schema.fields.len() implies result_rows(batch)[r][j]
            == made[r][j] by {
            assert(batch.columns[j].taken(seq![r]) == written(
                found[r][j],
                schema.fields[j].data_type,
            ));
        }
        assert(result_rows(batch)[r] =~= made[r]);
    }
    assert(result_rows(batch) =~= made);
}

// ---- equal keys meet

/// Whether a cell is not one of the several that are read as the number that is none.
pub open spec fn is_plain_cell(cell: ColumnView) -> bool {
    cell matches ColumnView::Float32(cells) ==> (cells[0] matches Some(bits) ==> (is_single_nan(bits)
        ==> bits == NO_SINGLE_NUMBER))
}

/// Whether a row has a cell of its type for each field, plain ones at some places.
pub open spec fn is_row(row: Seq<ColumnView>, schema: SchemaView, places: Seq<usize>) -> bool {
    &&& row.len() == schema.fields.len()
    &&& forall|c: int|
        0 <= c < row.len() ==> (#[trigger] row[c]).len() == 1 && row[c].data_type()
            == schema.fields[c].data_type
    &&& forall|j: int|
        0 <= j < places.len() ==> is_plain_cell(row[#[trigger] places[j] as int])
}

/// Whether the cells of rows at some places are plain.
pub open spec fn all_plain(rows: Seq<Seq<ColumnView>>, places: Seq<usize>) -> bool {
    forall|i: int, j: int|
        #![trigger rows[i], places[j]]
        0 <= i < rows.len() && 0 <= j < places.len() ==> is_plain_cell(rows[i][places[j] as int])
}

pub open spec fn are_rows(
    rows: Seq<Seq<ColumnView>>,
    schema: SchemaView,
    places: Seq<usize>,
) -> bool {
    forall|i: int| 0 <= i < rows.len() ==> is_row(#[trigger] rows[i], schema, places)
}

proof fn equal_values_are_equal_cells(a: ColumnView, b: ColumnView)
    requires
        a.len() == 1,
        b.len() == 1,
        a.data_type() == b.data_type(),
        is_plain_cell(a),
        is_plain_cell(b),
        cell_value(a, 0) == cell_value(b, 0),
        !(cell_value(a, 0)->Ok_0 is Null),
    ensures
        a == b,
{
    if let (ColumnView::Float32(x), ColumnView::Float32(y)) = (a, b) {
        if !a.null_at(0) && !b.null_at(0) {
            let p = x[0]->Some_0;
            let q = y[0]->Some_0;
            singles_are_read_widened(p);
            singles_are_read_widened(q);
            if is_single_nan(p) && !is_single_nan(q) {
                numbers_stay_numbers(q);
            } else if !is_single_nan(p) && is_single_nan(q) {
                numbers_stay_numbers(p);
            } else if !is_single_nan(p) {
                widening_keeps_apart(p, q);
            }
        }
    }
    assert(a.cell(0) == b.cell(0));
    cells_make_a_column(a, b);
}

/// Whether the columns at two lists of places have the same types, one by one.
pub open spec fn same_types(
    left: SchemaView,
    left_places: Seq<usize>,
    right: SchemaView,
    right_places: Seq<usize>,
) -> bool {
    &&& left_places.len() == right_places.len()
    &&& forall|j: int|
        #![trigger left_places[j]]
        #![trigger right_places[j]]
        0 <= j < left_places.len() ==> {
            &&& left_places[j] < left.fields.len()
            &&& right_places[j] < right.fields.len()
            &&& left.fields[left_places[j] as int].data_type
                == right.fields[right_places[j] as int].data_type
        }
}

/// Rows with equal keys are dealt to the same partition.
proof fn equal_keys_go_together(
    a: Seq<ColumnView>,
    b: Seq<ColumnView>,
    left: SchemaView,
    right: SchemaView,
    left_places: Seq<usize>,
    right_places: Seq<usize>,
    count: u32,
)
    requires
        is_row(a, left, left_places),
        is_row(b, right, right_places),
        same_types(left, left_places, right, right_places),
        key_in(a, left_places) == key_in(b, right_places),
        !has_null_key(key_in(b, right_places)),
    ensures
        route(a, left_places, count) == route(b, right_places, count),
{
    let x = columns_at(a, left_places);
    let y = columns_at(b, right_places);
    assert forall|j: int| 0 <= j < x.len() implies x[j] == y[j] by {
        assert(left_places[j] < left.fields.len());
        assert(right_places[j] < right.fields.len());
        let one = a[left_places[j] as int];
        let other = b[right_places[j] as int];
        assert(one.len() == 1 && other.len() == 1);
        assert(is_plain_cell(a[left_places[j] as int]));
        assert(is_plain_cell(b[right_places[j] as int]));
        assert(key_in(a, left_places)[j] == key_in(b, right_places)[j]);
        assert(!(key_in(b, right_places)[j] is Null));
        crate::distributed::laws::cells_are_read(one, 0);
        crate::distributed::laws::cells_are_read(other, 0);
        equal_values_are_equal_cells(one, other);
    }
    assert(x =~= y);
}

proof fn pairs_of_a_prefix(
    values: Seq<ScalarView>,
    key: Seq<ScalarView>,
    a: Seq<KeyedView>,
    b: Seq<KeyedView>,
    upto: int,
)
    requires
        upto <= a.len(),
        upto <= b.len(),
        forall|i: int| 0 <= i < upto ==> a[i] == b[i],
    ensures
        pairs(values, key, a, upto) == pairs(values, key, b, upto),
    decreases upto,
{
    if upto > 0 {
        pairs_of_a_prefix(values, key, a, b, upto - 1);
    }
}

/// A row finds all its partners in its own partition.
proof fn partners_are_in_the_partition(
    row: Seq<ColumnView>,
    rights: Seq<Seq<ColumnView>>,
    left: SchemaView,
    right: SchemaView,
    left_places: Seq<usize>,
    right_places: Seq<usize>,
    count: u32,
)
    requires
        is_row(row, left, left_places),
        are_rows(rights, right, right_places),
        same_types(left, left_places, right, right_places),
    ensures
        ({
            let key = key_in(row, left_places);
            let part = keyed(
                routed(rights, right_places, count, route(row, left_places, count)),
                right_places,
            );
            let all = keyed(rights, right_places);
            pairs(values_in(row), key, part, part.len() as int) == pairs(
                values_in(row),
                key,
                all,
                all.len() as int,
            )
        }),
    decreases rights.len(),
{
    if rights.len() > 0 {
        let before = rights.drop_last();
        let last = rights.last();
        assert(is_row(rights[rights.len() - 1], right, right_places));
        assert forall|i: int| 0 <= i < before.len() implies is_row(
            #[trigger] before[i],
            right,
            right_places,
        ) by {
            assert(is_row(rights[i], right, right_places));
        }
        partners_are_in_the_partition(
            row,
            before,
            left,
            right,
            left_places,
            right_places,
            count,
        );
        let values = values_in(row);
        let key = key_in(row, left_places);
        let partition = route(row, left_places, count);
        let own = routed(before, right_places, count, partition);
        let part = keyed(own, right_places);
        let all = keyed(before, right_places);
        let item = KeyedView { key: key_in(last, right_places), values: values_in(last) };
        pairs_of_a_prefix(values, key, part.push(item), part, part.len() as int);
        pairs_of_a_prefix(values, key, all.push(item), all, all.len() as int);
        if !has_null_key(item.key) && item.key == key {
            equal_keys_go_together(
                row,
                last,
                left,
                right,
                left_places,
                right_places,
                count,
            );
        }
        assert(own.push(last).drop_last() =~= own);
    }
}

/// What the rows of a partition give among those of the partition is what they give among all.
proof fn a_partition_matches_as_a_whole(
    rows: Seq<Seq<ColumnView>>,
    rights: Seq<Seq<ColumnView>>,
    left: SchemaView,
    right: SchemaView,
    left_places: Seq<usize>,
    right_places: Seq<usize>,
    join_type: JoinType,
    width: nat,
    count: u32,
    partition: int,
)
    requires
        are_rows(rows, left, left_places),
        are_rows(rights, right, right_places),
        same_types(left, left_places, right, right_places),
    ensures
        matched(
            routed(rows, left_places, count, partition),
            left_places,
            keyed(routed(rights, right_places, count, partition), right_places),
            join_type,
            width,
        ) == matched(
            routed(rows, left_places, count, partition),
            left_places,
            keyed(rights, right_places),
            join_type,
            width,
        ),
    decreases rows.len(),
{
    if rows.len() > 0 {
        let before = rows.drop_last();
        let last = rows.last();
        assert(is_row(rows[rows.len() - 1], left, left_places));
        assert forall|i: int| 0 <= i < before.len() implies is_row(
            #[trigger] before[i],
            left,
            left_places,
        ) by {
            assert(is_row(rows[i], left, left_places));
        }
        a_partition_matches_as_a_whole(
            before,
            rights,
            left,
            right,
            left_places,
            right_places,
            join_type,
            width,
            count,
            partition,
        );
        if route(last, left_places, count) == partition {
            partners_are_in_the_partition(
                last,
                rights,
                left,
                right,
                left_places,
                right_places,
                count,
            );
            let own = routed(before, left_places, count, partition);
            assert(own.push(last).drop_last() =~= own);
        }
    }
}

// ---- all partitions together

/// The rows that the first `upto` partitions give, together.
pub open spec fn gathered(
    rows: Seq<Seq<ColumnView>>,
    places: Seq<usize>,
    count: u32,
    right: Seq<KeyedView>,
    join_type: JoinType,
    width: nat,
    fields: Seq<FieldView>,
    upto: int,
) -> Multiset<Seq<ColumnView>>
    decreases upto,
{
    if upto <= 0 {
        Multiset::empty()
    } else {
        gathered(rows, places, count, right, join_type, width, fields, upto - 1).add(
            written_rows(
                matched(routed(rows, places, count, upto - 1), places, right, join_type, width),
                fields,
            ).to_multiset(),
        )
    }
}

proof fn written_of_two(
    a: Seq<Seq<ScalarView>>,
    b: Seq<Seq<ScalarView>>,
    fields: Seq<FieldView>,
)
    ensures
        written_rows(a + b, fields) == written_rows(a, fields) + written_rows(b, fields),
{
    assert(written_rows(a + b, fields) =~= written_rows(a, fields) + written_rows(b, fields));
}

proof fn one_row_more(
    rows: Seq<Seq<ColumnView>>,
    row: Seq<ColumnView>,
    places: Seq<usize>,
    count: u32,
    right: Seq<KeyedView>,
    join_type: JoinType,
    width: nat,
    fields: Seq<FieldView>,
    upto: int,
)
    requires
        0 <= upto,
        0 <= route(row, places, count),
    ensures
        ({
            let more = written_rows(
                joined_row(values_in(row), key_in(row, places), right, join_type, width),
                fields,
            ).to_multiset();
            let before = gathered(rows, places, count, right, join_type, width, fields, upto);
            gathered(rows.push(row), places, count, right, join_type, width, fields, upto) == (
            if route(row, places, count) < upto {
                before.add(more)
            } else {
                before
            })
        }),
    decreases upto,
{
    if upto > 0 {
        one_row_more(rows, row, places, count, right, join_type, width, fields, upto - 1);
        let own = routed(rows, places, count, upto - 1);
        let found = matched(own, places, right, join_type, width);
        let next = joined_row(values_in(row), key_in(row, places), right, join_type, width);
        assert(rows.push(row).drop_last() =~= rows);
        let before = gathered(rows, places, count, right, join_type, width, fields, upto - 1);
        if route(row, places, count) == upto - 1 {
            assert(own.push(row).drop_last() =~= own);
            written_of_two(found, next, fields);
            lemma_multiset_commutative(written_rows(found, fields), written_rows(next, fields));
            let a = written_rows(found, fields).to_multiset();
            let b = written_rows(next, fields).to_multiset();
            assert(before.add(a.add(b)) =~= before.add(a).add(b));
        } else {
            let a = written_rows(found, fields).to_multiset();
            let b = written_rows(next, fields).to_multiset();
            assert(before.add(b).add(a) =~= before.add(a).add(b));
        }
    }
}

/// The partitions together give what all rows give.
proof fn partitions_give_all(
    rows: Seq<Seq<ColumnView>>,
    places: Seq<usize>,
    count: u32,
    right: Seq<KeyedView>,
    join_type: JoinType,
    width: nat,
    fields: Seq<FieldView>,
)
    requires
        count > 0,
    ensures
        gathered(rows, places, count, right, join_type, width, fields, count as int)
            == written_rows(matched(rows, places, right, join_type, width), fields).to_multiset(),
    decreases rows.len(),
{
    if rows.len() == 0 {
        nothing_is_gathered(places, count, right, join_type, width, fields, count as int);
        assert(rows =~= Seq::<Seq<ColumnView>>::empty());
        assert(written_rows(Seq::empty(), fields) =~= Seq::<Seq<ColumnView>>::empty());
        Seq::<Seq<ColumnView>>::empty().to_multiset_ensures();
        assert(Seq::<Seq<ColumnView>>::empty().to_multiset() =~= Multiset::empty());
    } else {
        let before = rows.drop_last();
        let last = rows.last();
        partitions_give_all(before, places, count, right, join_type, width, fields);
        one_row_more(
            before,
            last,
            places,
            count,
            right,
            join_type,
            width,
            fields,
            count as int,
        );
        assert(before.push(last) =~= rows);
        let found = matched(before, places, right, join_type, width);
        let next = joined_row(values_in(last), key_in(last, places), right, join_type, width);
        written_of_two(found, next, fields);
        lemma_multiset_commutative(written_rows(found, fields), written_rows(next, fields));
    }
}

proof fn nothing_is_gathered(
    places: Seq<usize>,
    count: u32,
    right: Seq<KeyedView>,
    join_type: JoinType,
    width: nat,
    fields: Seq<FieldView>,
    upto: int,
)
    ensures
        gathered(Seq::empty(), places, count, right, join_type, width, fields, upto)
            == Multiset::<Seq<ColumnView>>::empty(),
    decreases upto,
{
    if upto > 0 {
        nothing_is_gathered(places, count, right, join_type, width, fields, upto - 1);
        assert(written_rows(Seq::empty(), fields) =~= Seq::<Seq<ColumnView>>::empty());
        Seq::<Seq<ColumnView>>::empty().to_multiset_ensures();
        assert(Seq::<Seq<ColumnView>>::empty().to_multiset() =~= Multiset::empty());
        assert(Multiset::<Seq<ColumnView>>::empty().add(Multiset::empty()) =~= Multiset::empty());
    }
}

/// Whether the rows of a list of batches for each partition are those that some rows are dealt to.
pub open spec fn are_dealt(
    parts: Seq<Seq<BatchView>>,
    rows: Seq<Seq<ColumnView>>,
    places: Seq<usize>,
    count: u32,
    schema: SchemaView,
) -> bool {
    &&& parts.len() == count
    &&& forall|p: int|
        0 <= p < parts.len() ==> all_even(#[trigger] parts[p], schema) && all_rows(parts[p])
            == routed(rows, places, count, p)
}

/// The rows of batches that are dealt, one list for each partition, and what is known of their keys.
pub ghost struct JoinView {
    pub lefts: Seq<BatchView>,
    pub rights: Seq<BatchView>,
    pub left: SchemaView,
    pub right: SchemaView,
    pub join_type: JoinType,
    pub left_on: Seq<ExprView>,
    pub right_on: Seq<ExprView>,
    pub schema: SchemaView,
}

impl JoinView {
    pub open spec fn places(self) -> (Seq<usize>, Seq<usize>) {
        key_columns(
            self.left_on,
            self.right_on,
            self.left,
            self.right,
            self.left_on.len() as int,
        )->Ok_0
    }

    /// Whether this is a join by columns of inputs that are valid, with a column for each of theirs.
    pub open spec fn wf(self) -> bool {
        &&& all_valid(self.lefts)
        &&& all_valid(self.rights)
        &&& all_have(self.lefts, self.left)
        &&& all_have(self.rights, self.right)
        &&& self.left_on.len() == self.right_on.len()
        &&& self.left_on.len() > 0
        &&& self.left.fields.len() <= usize::MAX
        &&& self.right.fields.len() <= usize::MAX
        &&& key_columns(
            self.left_on,
            self.right_on,
            self.left,
            self.right,
            self.left_on.len() as int,
        ) is Ok
        &&& self.schema.fields.len() == self.left.fields.len() + self.right.fields.len()
    }

    /// Whether the key cells in single precision that hold no number all hold the same one: two
    /// that differ are read as one value, and still are dealt by their bits.
    pub open spec fn has_plain_keys(self) -> bool {
        let (lefts, rights) = self.places();
        &&& all_plain(all_rows(self.lefts), lefts)
        &&& all_plain(all_rows(self.rights), rights)
    }
}

proof fn keys_are_at_places(
    left_on: Seq<ExprView>,
    right_on: Seq<ExprView>,
    left: SchemaView,
    right: SchemaView,
    upto: int,
)
    requires
        0 <= upto <= left_on.len(),
        left_on.len() == right_on.len(),
        left.fields.len() <= usize::MAX,
        right.fields.len() <= usize::MAX,
        key_columns(left_on, right_on, left, right, upto) is Ok,
    ensures
        ({
            let (lefts, rights) = key_columns(left_on, right_on, left, right, upto)->Ok_0;
            &&& are_columns(left_on.take(upto), lefts, left)
            &&& are_columns(right_on.take(upto), rights, right)
        }),
    decreases upto,
{
    if upto > 0 {
        keys_are_at_places(left_on, right_on, left, right, upto - 1);
        resolve_is_within(left.names(), left_on[upto - 1]->Column_0);
        resolve_is_within(right.names(), right_on[upto - 1]->Column_0);
        let (lefts, rights) = key_columns(left_on, right_on, left, right, upto)->Ok_0;
        let (first, second) = key_columns(left_on, right_on, left, right, upto - 1)->Ok_0;
        assert forall|j: int|
            #![trigger lefts[j]]
            #![trigger left_on.take(upto)[j]]
            0 <= j < upto implies is_column_at(left_on.take(upto)[j], lefts[j], left) by {
            if j < upto - 1 {
                assert(is_column_at(left_on.take(upto - 1)[j], first[j], left));
            }
        }
        assert forall|j: int|
            #![trigger rights[j]]
            #![trigger right_on.take(upto)[j]]
            0 <= j < upto implies is_column_at(right_on.take(upto)[j], rights[j], right) by {
            if j < upto - 1 {
                assert(is_column_at(right_on.take(upto - 1)[j], second[j], right));
            }
        }
    }
}

pub(crate) proof fn valid_batches_are_even(batches: Seq<BatchView>, schema: SchemaView)
    requires
        all_valid(batches),
        all_have(batches, schema),
    ensures
        all_even(batches, schema),
{
    assert forall|i: int| 0 <= i < batches.len() implies is_even(#[trigger] batches[i], schema) by {
        assert(batches[i].wf());
        assert(batches[i].schema == schema);
    }
}

proof fn valid_batches_have_rows(
    batches: Seq<BatchView>,
    schema: SchemaView,
    places: Seq<usize>,
    upto: int,
)
    requires
        all_valid(batches),
        all_have(batches, schema),
        0 <= upto <= batches.len(),
        all_plain(rows_in(batches, upto), places),
    ensures
        are_rows(rows_in(batches, upto), schema, places),
    decreases upto,
{
    if upto > 0 {
        let before = rows_in(batches, upto - 1);
        let all = rows_in(batches, upto);
        let batch = batches[upto - 1];
        assert(batches[upto - 1].wf() && batches[upto - 1].schema == schema);
        assert(all_plain(before, places)) by {
            assert forall|i: int, j: int|
                #![trigger before[i], places[j]]
                0 <= i < before.len() && 0 <= j < places.len() implies is_plain_cell(
                before[i][places[j] as int],
            ) by {
                assert(all[i] == before[i]);
            }
        }
        valid_batches_have_rows(batches, schema, places, upto - 1);
        assert forall|i: int| 0 <= i < all.len() implies is_row(
            #[trigger] all[i],
            schema,
            places,
        ) by {
            if i < before.len() {
                assert(is_row(before[i], schema, places));
                assert(all[i] == before[i]);
            } else {
                assert(all[i] == row_of(batch.columns, i - before.len()));
                assert forall|c: int| 0 <= c < all[i].len() implies (#[trigger] all[i][c]).len()
                    == 1 && all[i][c].data_type() == schema.fields[c].data_type by {
                    assert(batch.columns[c].data_type() == schema.fields[c].data_type);
                }
            }
        }
    }
}

/// Joining partition by partition gives the rows of one join.
pub(crate) proof fn dealt_joins_give_all(
    j: JoinView,
    count: u32,
    left_parts: Seq<Seq<BatchView>>,
    right_parts: Seq<Seq<BatchView>>,
    whole: BatchView,
    parts: Seq<BatchView>,
    upto: int,
)
    requires
        j.wf(),
        j.has_plain_keys(),
        count > 0,
        are_dealt(left_parts, all_rows(j.lefts), j.places().0, count, j.left),
        are_dealt(right_parts, all_rows(j.rights), j.places().1, count, j.right),
        joined(j.lefts, j.rights, j.join_type, j.left_on, j.right_on, j.schema) == Ok::<
            BatchView,
            ErrorView,
        >(whole),
        parts.len() == count,
        forall|p: int|
            0 <= p < count ==> joined(
                left_parts[p],
                right_parts[p],
                j.join_type,
                j.left_on,
                j.right_on,
                j.schema,
            ) == Ok::<BatchView, ErrorView>(#[trigger] parts[p]),
        0 <= upto <= count,
    ensures
        rows_in(parts, upto).to_multiset() == gathered(
            all_rows(j.lefts),
            j.places().0,
            count,
            keyed(all_rows(j.rights), j.places().1),
            j.join_type,
            j.right.fields.len(),
            j.schema.fields,
            upto,
        ),
        upto == count ==> rows_in(parts, upto).to_multiset() == result_rows(whole).to_multiset(),
    decreases upto,
{
    let (lefts, rights) = j.places();
    let left_rows = all_rows(j.lefts);
    let right_rows = all_rows(j.rights);
    let width = j.right.fields.len();
    let keys = keyed(right_rows, rights);
    keys_are_at_places(j.left_on, j.right_on, j.left, j.right, j.left_on.len() as int);
    assert(j.left_on.take(j.left_on.len() as int) =~= j.left_on);
    assert(j.right_on.take(j.right_on.len() as int) =~= j.right_on);
    key_columns_match(j.left_on, j.right_on, j.left, j.right, j.left_on.len() as int);
    assert(lefts[0] < j.left.fields.len());
    valid_batches_are_even(j.lefts, j.left);
    valid_batches_are_even(j.rights, j.right);
    valid_batches_have_rows(j.lefts, j.left, lefts, j.lefts.len() as int);
    valid_batches_have_rows(j.rights, j.right, rights, j.rights.len() as int);
    if upto > 0 {
        dealt_joins_give_all(j, count, left_parts, right_parts, whole, parts, upto - 1);
        let p = upto - 1;
        assert(all_even(left_parts[p], j.left));
        assert(all_even(right_parts[p], j.right));
        assert(parts[p] == parts[p]);
        what_is_joined(
            left_parts[p],
            right_parts[p],
            j.left,
            j.right,
            j.join_type,
            j.left_on,
            j.right_on,
            lefts,
            rights,
            j.schema,
            parts[p],
        );
        a_partition_matches_as_a_whole(
            left_rows,
            right_rows,
            j.left,
            j.right,
            lefts,
            rights,
            j.join_type,
            width,
            count,
            p,
        );
        lemma_multiset_commutative(rows_in(parts, upto - 1), result_rows(parts[p]));
    } else {
        Seq::<Seq<ColumnView>>::empty().to_multiset_ensures();
        assert(Seq::<Seq<ColumnView>>::empty().to_multiset() =~= Multiset::empty());
    }
    if upto == count {
        what_is_joined(
            j.lefts,
            j.rights,
            j.left,
            j.right,
            j.join_type,
            j.left_on,
            j.right_on,
            lefts,
            rights,
            j.schema,
            whole,
        );
        partitions_give_all(
            left_rows,
            lefts,
            count,
            keys,
            j.join_type,
            width,
            j.schema.fields,
        );
    }
}

// ---- dealing

proof fn picking_is_routing(
    batch: BatchView,
    schema: SchemaView,
    places: Seq<usize>,
    count: u32,
    keys: Seq<Seq<u8>>,
    partition: int,
    upto: int,
)
    requires
        is_even(batch, schema),
        forall|j: int| 0 <= j < places.len() ==> #[trigger] places[j] < schema.fields.len(),
        keys == Seq::new(
            batch.rows,
            |row: int| row_key(row_of(columns_at(batch.columns, places), row)),
        ),
        0 <= upto <= batch.rows,
    ensures
        ({
            let rows = rows_of_partition(keys, count, partition, upto);
            routed(result_rows(batch).take(upto), places, count, partition) == Seq::new(
                rows.len(),
                |k: int| row_of(batch.columns, rows[k]),
            )
        }),
    decreases upto,
{
    let all = result_rows(batch);
    let rows = rows_of_partition(keys, count, partition, upto);
    if upto > 0 {
        picking_is_routing(batch, schema, places, count, keys, partition, upto - 1);
        let row = upto - 1;
        assert forall|j: int| 0 <= j < places.len() implies row_of(
            columns_at(batch.columns, places),
            row,
        )[j] == columns_at(all[row], places)[j] by {
            assert(places[j] < schema.fields.len());
        }
        assert(row_of(columns_at(batch.columns, places), row) =~= columns_at(all[row], places));
        assert(all.take(upto).drop_last() =~= all.take(upto - 1));
        assert(routed(all.take(upto), places, count, partition) =~= Seq::new(
            rows.len(),
            |k: int| row_of(batch.columns, rows[k]),
        ));
    } else {
        assert(routed(all.take(0), places, count, partition) =~= Seq::new(
            rows.len(),
            |k: int| row_of(batch.columns, rows[k]),
        ));
    }
}

/// What a partition receives of a batch.
proof fn a_partition_receives_its_rows(
    batch: BatchView,
    schema: SchemaView,
    places: Seq<usize>,
    count: u32,
    keys: Seq<Seq<u8>>,
    partition: int,
)
    requires
        is_even(batch, schema),
        batch.columns.len() > 0,
        count > 0,
        forall|j: int| 0 <= j < places.len() ==> #[trigger] places[j] < schema.fields.len(),
        keys == Seq::new(
            batch.rows,
            |row: int| row_key(row_of(columns_at(batch.columns, places), row)),
        ),
    ensures
        ({
            let rows = rows_of_partition(keys, count, partition, keys.len() as int);
            let own = routed(result_rows(batch), places, count, partition);
            &&& own.len() == rows.len()
            &&& made_batch(schema, batch.taken(rows).columns, None) matches Ok(output)
                ==> result_rows(output) == own && is_even(output, schema)
        }),
{
    let rows = rows_of_partition(keys, count, partition, keys.len() as int);
    let all = result_rows(batch);
    picking_is_routing(batch, schema, places, count, keys, partition, batch.rows as int);
    assert(all.take(batch.rows as int) =~= all);
    every_row_goes_to_one_partition(keys, count, partition, keys.len() as int);
    let own = routed(all, places, count, partition);
    if let Ok(output) = made_batch(schema, batch.taken(rows).columns, None) {
        assert(output.columns[0] == batch.columns[0].taken(rows));
        assert(output.rows == rows.len());
        assert forall|c: int| 0 <= c < output.columns.len() implies (
        #[trigger] output.columns[c]).len() == output.rows by {
            assert(output.columns[c] == batch.columns[c].taken(rows));
        }
        assert forall|k: int| 0 <= k < rows.len() implies result_rows(output)[k] == own[k] by {
            assert(own[k] == row_of(batch.columns, rows[k]));
            assert forall|c: int| 0 <= c < batch.columns.len() implies result_rows(output)[k][c]
                == own[k][c] by {
                assert(batch.columns[c].len() == batch.rows);
                assert(0 <= rows[k] < keys.len());
                let one = batch.columns[c].taken(rows).taken(seq![k]);
                let other = batch.columns[c].taken(seq![rows[k]]);
                assert(one.cell(0) == other.cell(0));
                cells_make_a_column(one, other);
            }
            assert(result_rows(output)[k] =~= own[k]);
        }
        assert(result_rows(output) =~= own);
    }
}

/// Whether the outputs of an exchange hold the rows that are dealt to each partition.
pub open spec fn outputs_hold(
    outputs: Seq<PartitionView>,
    rows: Seq<Seq<ColumnView>>,
    places: Seq<usize>,
    count: u32,
    schema: SchemaView,
) -> bool {
    &&& outputs.len() == count
    &&& forall|p: int|
        0 <= p < count ==> all_even((#[trigger] outputs[p]).batches, schema) && all_rows(
            outputs[p].batches,
        ) == routed(rows, places, count, p) && outputs[p].partition == PartitionId(p as u32)
}

pub(crate) proof fn rows_of_a_prefix(a: Seq<BatchView>, b: Seq<BatchView>, upto: int)
    requires
        upto <= a.len(),
        upto <= b.len(),
        forall|i: int| 0 <= i < upto ==> a[i] == b[i],
    ensures
        rows_in(a, upto) == rows_in(b, upto),
    decreases upto,
{
    if upto > 0 {
        rows_of_a_prefix(a, b, upto - 1);
    }
}

proof fn a_batch_is_received(
    table: ExchangeTable,
    batch: BatchView,
    before: Seq<Seq<ColumnView>>,
    schema: SchemaView,
    places: Seq<usize>,
    count: u32,
    keys: Seq<Seq<u8>>,
    upto: int,
)
    requires
        is_even(batch, schema),
        batch.columns.len() > 0,
        count > 0,
        forall|j: int| 0 <= j < places.len() ==> #[trigger] places[j] < schema.fields.len(),
        keys == Seq::new(
            batch.rows,
            |row: int| row_key(row_of(columns_at(batch.columns, places), row)),
        ),
        outputs_hold(table.outputs, before, places, count, schema),
        0 <= upto <= count,
    ensures
        all_received(table, schema, batch, keys, count, upto) matches Ok(next) ==> {
            &&& next.outputs.len() == count
            &&& forall|p: int|
                0 <= p < count ==> all_even((#[trigger] next.outputs[p]).batches, schema)
                    && all_rows(next.outputs[p].batches) == routed(before, places, count, p) + (
                if p < upto {
                    routed(result_rows(batch), places, count, p)
                } else {
                    Seq::empty()
                }) && next.outputs[p].partition == PartitionId(p as u32)
        },
    decreases upto,
{
    if upto > 0 {
        a_batch_is_received(table, batch, before, schema, places, count, keys, upto - 1);
        let p = upto - 1;
        a_partition_receives_its_rows(batch, schema, places, count, keys, p);
        if let Ok(next) = all_received(table, schema, batch, keys, count, upto) {
            let earlier = all_received(table, schema, batch, keys, count, upto - 1)->Ok_0;
            let own = routed(result_rows(batch), places, count, p);
            let old_batches = earlier.outputs[p].batches;
            let new_batches = next.outputs[p].batches;
            assert(all_even(earlier.outputs[p].batches, schema));
            if own.len() > 0 {
                let rows = rows_of_partition(keys, count, p, keys.len() as int);
                let output = made_batch(schema, batch.taken(rows).columns, None)->Ok_0;
                assert(new_batches == old_batches.push(output));
                rows_of_a_prefix(new_batches, old_batches, old_batches.len() as int);
                assert(all_rows(old_batches) =~= routed(before, places, count, p));
            } else {
                assert(own =~= Seq::<Seq<ColumnView>>::empty());
            }
            assert forall|q: int| 0 <= q < count implies all_even(
                (#[trigger] next.outputs[q]).batches,
                schema,
            ) && all_rows(next.outputs[q].batches) == routed(before, places, count, q) + (if q
                < upto {
                routed(result_rows(batch), places, count, q)
            } else {
                Seq::empty()
            }) && next.outputs[q].partition == PartitionId(q as u32) by {
                if q != p {
                    assert(next.outputs[q] == earlier.outputs[q]);
                }
            }
        }
    } else {
        assert forall|p: int| 0 <= p < count implies all_rows(
            (#[trigger] table.outputs[p]).batches,
        ) == routed(before, places, count, p) + Seq::empty() by {
            assert(routed(before, places, count, p) + Seq::empty() =~= routed(
                before,
                places,
                count,
                p,
            ));
        }
    }
}

/// Dealing batches gives each partition the rows that are its own.
pub(crate) proof fn batches_are_dealt(
    schema: SchemaView,
    batches: Seq<BatchView>,
    exchange: HashExchangeView,
    memory: MemoryView,
    upto: int,
)
    requires
        all_even(batches, schema),
        crate::cluster::hash_exchange::exchange_is_valid(exchange, schema),
        0 <= upto <= batches.len(),
    ensures
        batches_dealt(schema, batches, exchange, memory, upto) matches Ok(table) ==> outputs_hold(
            table.outputs,
            rows_in(batches, upto),
            exchange.columns,
            exchange.partition_count,
            schema,
        ),
    decreases upto,
{
    let places = exchange.columns;
    let count = exchange.partition_count;
    if upto > 0 {
        batches_are_dealt(schema, batches, exchange, memory, upto - 1);
        if let Ok(next) = batches_dealt(schema, batches, exchange, memory, upto) {
            let table = batches_dealt(schema, batches, exchange, memory, upto - 1)->Ok_0;
            let batch = batches[upto - 1];
            assert(is_even(batches[upto - 1], schema));
            assert(places[0] < schema.fields.len());
            let columns = columns_at(batch.columns, places);
            let keys = encoded(types_at(schema, places), columns, batch.rows)->Ok_0;
            let keys_charge = crate::distributed::merge::capped(
                crate::distributed::merge::key_bytes(keys, keys.len() as int) as int,
            );
            let rows_charge = crate::cluster::hash_exchange::places_charge(batch.rows);
            let start = ExchangeTable {
                memory: table.memory.claimed(keys_charge).claimed(rows_charge),
                ..table
            };
            let before = rows_in(batches, upto - 1);
            a_batch_is_received(start, batch, before, schema, places, count, keys, count as int);
            assert forall|p: int| 0 <= p < count implies all_even(
                (#[trigger] next.outputs[p]).batches,
                schema,
            ) && all_rows(next.outputs[p].batches) == routed(
                rows_in(batches, upto),
                places,
                count,
                p,
            ) && next.outputs[p].partition == PartitionId(p as u32) by {
                routed_of_two(before, result_rows(batch), places, count, p);
            }
        }
    } else {
        let table = batches_dealt(schema, batches, exchange, memory, 0)->Ok_0;
        assert forall|p: int| 0 <= p < count implies all_even(
            (#[trigger] table.outputs[p]).batches,
            schema,
        ) && all_rows(table.outputs[p].batches) == routed(
            rows_in(batches, 0),
            places,
            count,
            p,
        ) by {}
    }
}

/// What each partition received of an exchange.
pub open spec fn received_batches(table: ExchangeTable) -> Seq<Seq<BatchView>> {
    Seq::new(table.outputs.len(), |p: int| table.outputs[p].batches)
}

/// A join that is spread over partitions gives the rows of one join: where both sides are dealt by
/// their key columns into as many partitions, and the rows that a partition received of one side are
/// joined with those that it received of the other, all partitions together give the rows of one
/// join of all rows, in some order. No row is missing and none comes twice, in inner and in left
/// joins, with NULLs in the keys and with nothing on a side.
pub proof fn a_spread_join_gives_the_rows_of_one_join(
    j: JoinView,
    count: u32,
    left_memory: MemoryView,
    right_memory: MemoryView,
    left_table: ExchangeTable,
    right_table: ExchangeTable,
    whole: BatchView,
    parts: Seq<BatchView>,
)
    requires
        j.wf(),
        j.has_plain_keys(),
        repartitioned(
            j.left,
            j.lefts,
            HashExchangeView { columns: j.places().0, partition_count: count },
            left_memory,
            false,
        ) == Ok::<ExchangeTable, ErrorView>(left_table),
        repartitioned(
            j.right,
            j.rights,
            HashExchangeView { columns: j.places().1, partition_count: count },
            right_memory,
            false,
        ) == Ok::<ExchangeTable, ErrorView>(right_table),
        joined(j.lefts, j.rights, j.join_type, j.left_on, j.right_on, j.schema) == Ok::<
            BatchView,
            ErrorView,
        >(whole),
        parts.len() == count,
        forall|p: int|
            0 <= p < count ==> joined(
                received_batches(left_table)[p],
                received_batches(right_table)[p],
                j.join_type,
                j.left_on,
                j.right_on,
                j.schema,
            ) == Ok::<BatchView, ErrorView>(#[trigger] parts[p]),
    ensures
        all_rows(parts).to_multiset() == result_rows(whole).to_multiset(),
{
    let (lefts, rights) = j.places();
    let left_exchange = HashExchangeView { columns: lefts, partition_count: count };
    let right_exchange = HashExchangeView { columns: rights, partition_count: count };
    valid_batches_are_even(j.lefts, j.left);
    valid_batches_are_even(j.rights, j.right);
    batches_are_dealt(j.left, j.lefts, left_exchange, left_memory, j.lefts.len() as int);
    batches_are_dealt(j.right, j.rights, right_exchange, right_memory, j.rights.len() as int);
    dealt_joins_give_all(
        j,
        count,
        received_batches(left_table),
        received_batches(right_table),
        whole,
        parts,
        count as int,
    );
}

} // verus!

//! What a join gives.

use crate::batch::BatchView;
use crate::cells::{cell_value, column_of};
use crate::column::ColumnView;
use crate::distributed::written::{rows_are_held, written};
use crate::error::ErrorView;
use crate::execution::concat::total_rows;
use crate::execution::join::{
    built, built_rows, has_null_key, joined, joined_row, pairs, probed, probed_rows,
    right_width_of, KeyedView,
};
use crate::execution::rows::{batch_of_rows, computed, row_values};
use crate::execution::run::{produces, runs, Trace};
use crate::expr::ExprView;
use crate::logical::JoinType;
use crate::meaning::evaluation::missing;
use crate::physical::PhysicalView;
use crate::scalar::ScalarView;
use crate::table::NamedTableView;
use crate::types::{DataTypeView, SchemaView};
use vstd::prelude::*;

verus! {

// ---- rows of values

/// Whether values are those of a row of columns.
pub open spec fn are_of_row(values: Seq<ScalarView>, columns: Seq<ColumnView>, row: int) -> bool {
    &&& values.len() == columns.len()
    &&& forall|c: int|
        0 <= c < columns.len() ==> cell_value(columns[c], row) == Ok::<ScalarView, ErrorView>(
            #[trigger] values[c],
        )
}

/// Reading a row reads each of its columns.
pub proof fn a_row_is_read(columns: Seq<ColumnView>, row: int, upto: int)
    requires
        0 <= upto <= columns.len(),
    ensures
        row_values(columns, row, upto) matches Ok(values) ==> are_of_row(
            values,
            columns.take(upto),
            row,
        ),
    decreases upto,
{
    if upto > 0 {
        a_row_is_read(columns, row, upto - 1);
        if let Ok(values) = row_values(columns, row, upto) {
            let before = row_values(columns, row, upto - 1)->Ok_0;
            let few = columns.take(upto - 1);
            let more = columns.take(upto);
            assert forall|c: int| 0 <= c < upto implies cell_value(more[c], row) == Ok::<
                ScalarView,
                ErrorView,
            >(#[trigger] values[c]) by {
                if c < upto - 1 {
                    assert(cell_value(few[c], row) == Ok::<ScalarView, ErrorView>(before[c]));
                }
            }
        }
    }
}

/// Whether a column has a value in a row, where it is of the value's type.
pub open spec fn has_value(column: ColumnView, row: int, value: ScalarView) -> bool {
    match (column, value) {
        (_, ScalarView::Null) => missing(column, row),
        (ColumnView::Boolean(cells), ScalarView::Boolean(b)) => cells[row] == Some(b),
        (ColumnView::Int32(cells), ScalarView::Int64(n)) => i32::MIN <= n <= i32::MAX
            ==> cells[row] is Some && cells[row]->Some_0 == n,
        (ColumnView::Int64(cells), ScalarView::Int64(n)) => cells[row] == Some(n),
        (ColumnView::UInt32(cells), ScalarView::UInt64(n)) => n <= u32::MAX ==> cells[row] is Some
            && cells[row]->Some_0 == n,
        (ColumnView::UInt64(cells), ScalarView::UInt64(n)) => cells[row] == Some(n),
        (ColumnView::Float64(cells), ScalarView::Float64(bits)) => cells[row] == Some(bits),
        (ColumnView::Utf8(cells), ScalarView::Utf8(text)) => cells[row] == Some(text),
        _ => true,
    }
}

proof fn a_value_is_written(value: ScalarView, data_type: DataTypeView)
    requires
        column_of(seq![value], data_type) is Ok,
    ensures
        has_value(written(value, data_type), 0, value),
        written(value, data_type).data_type() == data_type,
{
    reveal_with_fuel(crate::cells::all_floats, 2);
    reveal_with_fuel(crate::cells::all_float32s, 2);
}

/// A batch that is made of rows of values has each value in its row and column.
pub proof fn rows_make_a_batch(
    rows: Seq<Seq<ScalarView>>,
    schema: SchemaView,
    batch: BatchView,
    r: int,
    c: int,
)
    requires
        schema.fields.len() > 0,
        forall|r: int| 0 <= r < rows.len() ==> (#[trigger] rows[r]).len() == schema.fields.len(),
        batch_of_rows(rows, schema.fields.len(), schema) == Ok::<BatchView, ErrorView>(batch),
        0 <= r < rows.len(),
        0 <= c < schema.fields.len(),
    ensures
        batch.rows == rows.len(),
        batch.columns.len() == schema.fields.len(),
        has_value(batch.columns[c], r, rows[r][c]),
{
    rows_are_held(rows, schema);
    let column = batch.columns[c];
    let one = column.taken(seq![r]);
    assert(one == written(rows[r][c], schema.fields[c].data_type));
    a_value_is_written(rows[r][c], schema.fields[c].data_type);
    assert(column.len() == rows.len());
    assert(one.data_type() == column.data_type());
    match column {
        ColumnView::Boolean(cells) => {
            assert(one->Boolean_0[0] == cells[r]);
        },
        ColumnView::Int32(cells) => {
            assert(one->Int32_0[0] == cells[r]);
        },
        ColumnView::Int64(cells) => {
            assert(one->Int64_0[0] == cells[r]);
        },
        ColumnView::UInt32(cells) => {
            assert(one->UInt32_0[0] == cells[r]);
        },
        ColumnView::UInt64(cells) => {
            assert(one->UInt64_0[0] == cells[r]);
        },
        ColumnView::Float32(cells) => {
            assert(one->Float32_0[0] == cells[r]);
        },
        ColumnView::Float64(cells) => {
            assert(one->Float64_0[0] == cells[r]);
        },
        ColumnView::Utf8(cells) => {
            assert(one->Utf8_0[0] == cells[r]);
        },
        ColumnView::Null(_) => {},
    }
}

// ---- the right side

/// Whether a row with its key is the one at a place of some batches: a batch and a row of it.
pub open spec fn is_at(
    row: KeyedView,
    batches: Seq<BatchView>,
    on: Seq<ExprView>,
    place: (int, int),
) -> bool {
    &&& 0 <= place.0 < batches.len()
    &&& 0 <= place.1 < batches[place.0].rows
    &&& are_of_row(row.values, batches[place.0].columns, place.1)
    &&& is_key_at(row.key, batches, on, place)
}

/// Whether values are what expressions come to at a place of some batches.
pub open spec fn is_key_at(
    key: Seq<ScalarView>,
    batches: Seq<BatchView>,
    on: Seq<ExprView>,
    place: (int, int),
) -> bool {
    &&& key.len() == on.len()
    &&& forall|k: int|
        0 <= k < on.len() ==> (#[trigger] on[k]).value(batches[place.0]) is Ok && cell_value(
            on[k].value(batches[place.0])->Ok_0,
            place.1,
        ) == Ok::<ScalarView, ErrorView>(key[k])
}

pub open spec fn earlier(a: (int, int), b: (int, int)) -> bool {
    a.0 < b.0 || a.0 == b.0 && a.1 < b.1
}

/// Whether rows are those that can have a partner, in their order, at some places: those before a
/// place of which no key is NULL.
pub open spec fn can_have_partners(
    rows: Seq<KeyedView>,
    batches: Seq<BatchView>,
    on: Seq<ExprView>,
    places: Seq<(int, int)>,
    end: (int, int),
) -> bool {
    &&& rows.len() == places.len()
    &&& forall|k: int|
        0 <= k < rows.len() ==> is_at(#[trigger] rows[k], batches, on, places[k]) && earlier(
            places[k],
            end,
        )
    &&& forall|k: int, i: int|
        0 <= k < rows.len() && 0 <= i < rows[k].key.len() ==> !(#[trigger] rows[k].key[i] is Null)
    &&& forall|k: int, l: int|
        0 <= k < l < places.len() ==> earlier(#[trigger] places[k], #[trigger] places[l])
    &&& forall|key: Seq<ScalarView>, b: int, r: int|
        0 <= b < batches.len() && 0 <= r < batches[b].rows && earlier((b, r), end)
            && #[trigger] is_key_at(key, batches, on, (b, r)) && (forall|i: int|
            0 <= i < key.len() ==> !(#[trigger] key[i] is Null)) ==> places.contains((b, r))
}

proof fn a_key_is_computed(
    batches: Seq<BatchView>,
    on: Seq<ExprView>,
    b: int,
    r: int,
    keys: Seq<ColumnView>,
    key: Seq<ScalarView>,
)
    requires
        0 <= b < batches.len(),
        computed(on, batches[b], on.len() as int) == Ok::<Seq<ColumnView>, ErrorView>(keys),
        row_values(keys, r, keys.len() as int) == Ok::<Seq<ScalarView>, ErrorView>(key),
    ensures
        is_key_at(key, batches, on, (b, r)),
        forall|other: Seq<ScalarView>| #[trigger]
            is_key_at(other, batches, on, (b, r)) ==> other == key,
{
    crate::distributed::laws::computing_is_by_expr(on, batches[b], on.len() as int);
    a_row_is_read(keys, r, keys.len() as int);
    assert(keys.take(keys.len() as int) =~= keys);
    assert forall|k: int| 0 <= k < on.len() implies (#[trigger] on[k]).value(batches[b]) is Ok
        && cell_value(on[k].value(batches[b])->Ok_0, r) == Ok::<ScalarView, ErrorView>(key[k]) by {
        assert(on[k].value(batches[b]) == Ok::<ColumnView, ErrorView>(keys[k]));
        assert(cell_value(keys[k], r) == Ok::<ScalarView, ErrorView>(key[k]));
    }
    assert forall|other: Seq<ScalarView>| #[trigger]
        is_key_at(other, batches, on, (b, r)) implies other == key by {
        assert forall|k: int| 0 <= k < key.len() implies other[k] == key[k] by {
            assert(on[k].value(batches[b]) is Ok);
        }
        assert(other =~= key);
    }
}

proof fn one_row_more(
    rows: Seq<KeyedView>,
    batches: Seq<BatchView>,
    on: Seq<ExprView>,
    places: Seq<(int, int)>,
    b: int,
    r: int,
    keys: Seq<ColumnView>,
    next: Seq<KeyedView>,
) -> (more: Seq<(int, int)>)
    requires
        can_have_partners(rows, batches, on, places, (b, r)),
        0 <= b < batches.len(),
        0 <= r < batches[b].rows,
        computed(on, batches[b], on.len() as int) == Ok::<Seq<ColumnView>, ErrorView>(keys),
        row_values(keys, r, keys.len() as int) is Ok,
        has_null_key(row_values(keys, r, keys.len() as int)->Ok_0) ==> next == rows,
        !has_null_key(row_values(keys, r, keys.len() as int)->Ok_0) ==> row_values(
            batches[b].columns,
            r,
            batches[b].columns.len() as int,
        ) is Ok && next == rows.push(
            KeyedView {
                key: row_values(keys, r, keys.len() as int)->Ok_0,
                values: row_values(batches[b].columns, r, batches[b].columns.len() as int)->Ok_0,
            },
        ),
    ensures
        can_have_partners(next, batches, on, more, (b, r + 1)),
{
    let key = row_values(keys, r, keys.len() as int)->Ok_0;
    a_key_is_computed(batches, on, b, r, keys, key);
    let columns = batches[b].columns;
    a_row_is_read(columns, r, columns.len() as int);
    assert(columns.take(columns.len() as int) =~= columns);
    let more = if has_null_key(key) {
        places
    } else {
        places.push((b, r))
    };
    assert forall|k: int| 0 <= k < next.len() implies is_at(
        #[trigger] next[k],
        batches,
        on,
        more[k],
    ) && earlier(more[k], (b, r + 1)) by {
        if k < rows.len() {
            assert(is_at(rows[k], batches, on, places[k]));
        }
    }
    assert forall|k: int, i: int| 0 <= k < next.len() && 0 <= i < next[k].key.len() implies !(
    #[trigger] next[k].key[i] is Null) by {
        if k < rows.len() {
            assert(!(rows[k].key[i] is Null));
        }
    }
    assert forall|k: int, l: int| 0 <= k < l < more.len() implies earlier(
        #[trigger] more[k],
        #[trigger] more[l],
    ) by {
        assert(more[k] == places[k]);
        assert(is_at(rows[k], batches, on, places[k]) && earlier(places[k], (b, r)));
        if l < places.len() {
            assert(more[l] == places[l]);
        }
    }
    assert forall|other: Seq<ScalarView>, x: int, y: int|
        0 <= x < batches.len() && 0 <= y < batches[x].rows && earlier((x, y), (b, r + 1))
            && #[trigger] is_key_at(other, batches, on, (x, y)) && (forall|i: int|
            0 <= i < other.len() ==> !(#[trigger] other[i] is Null)) implies more.contains(
        (x, y),
    ) by {
        if earlier((x, y), (b, r)) {
            assert(places.contains((x, y)));
            let k = choose|k: int| 0 <= k < places.len() && places[k] == (x, y);
            assert(more[k] == (x, y));
        } else {
            assert(x == b && y == r);
            assert(other == key);
            assert(!has_null_key(key));
            assert(more[more.len() - 1] == (x, y));
        }
    }
    more
}

proof fn rows_that_can(
    before: Seq<KeyedView>,
    batches: Seq<BatchView>,
    on: Seq<ExprView>,
    places: Seq<(int, int)>,
    b: int,
    keys: Seq<ColumnView>,
    upto: int,
) -> (more: Seq<(int, int)>)
    requires
        can_have_partners(before, batches, on, places, (b, 0)),
        0 <= b < batches.len(),
        0 <= upto <= batches[b].rows,
        computed(on, batches[b], on.len() as int) == Ok::<Seq<ColumnView>, ErrorView>(keys),
        built_rows(before, keys, batches[b], upto) is Ok,
    ensures
        can_have_partners(
            built_rows(before, keys, batches[b], upto)->Ok_0,
            batches,
            on,
            more,
            (b, upto),
        ),
    decreases upto,
{
    if upto <= 0 {
        places
    } else {
        let fewer = rows_that_can(before, batches, on, places, b, keys, upto - 1);
        let rows = built_rows(before, keys, batches[b], upto - 1)->Ok_0;
        let next = built_rows(before, keys, batches[b], upto)->Ok_0;
        one_row_more(rows, batches, on, fewer, b, upto - 1, keys, next)
    }
}

proof fn to_the_next_batch(
    rows: Seq<KeyedView>,
    batches: Seq<BatchView>,
    on: Seq<ExprView>,
    places: Seq<(int, int)>,
    b: int,
)
    requires
        0 <= b < batches.len(),
        can_have_partners(rows, batches, on, places, (b, batches[b].rows as int)),
    ensures
        can_have_partners(rows, batches, on, places, (b + 1, 0)),
{
    assert forall|k: int| 0 <= k < rows.len() implies is_at(
        #[trigger] rows[k],
        batches,
        on,
        places[k],
    ) && earlier(places[k], (b + 1, 0)) by {
        assert(is_at(rows[k], batches, on, places[k]));
        assert(earlier(places[k], (b, batches[b].rows as int)));
    }
    assert forall|key: Seq<ScalarView>, x: int, y: int|
        0 <= x < batches.len() && 0 <= y < batches[x].rows && earlier((x, y), (b + 1, 0))
            && #[trigger] is_key_at(key, batches, on, (x, y)) && (forall|i: int|
            0 <= i < key.len() ==> !(#[trigger] key[i] is Null)) implies places.contains((x, y)) by {
        assert(earlier((x, y), (b, batches[b].rows as int)));
    }
}

/// The rows of the right side that can have a partner are those without a NULL among their keys, in
/// their order.
pub proof fn who_can_have_a_partner(
    batches: Seq<BatchView>,
    on: Seq<ExprView>,
    upto: int,
) -> (places: Seq<(int, int)>)
    requires
        0 <= upto <= batches.len(),
        built(batches, on, upto) is Ok,
    ensures
        can_have_partners(built(batches, on, upto)->Ok_0, batches, on, places, (upto, 0)),
    decreases upto,
{
    if upto <= 0 {
        Seq::empty()
    } else {
        let before = who_can_have_a_partner(batches, on, upto - 1);
        let rows = built(batches, on, upto - 1)->Ok_0;
        let keys = computed(on, batches[upto - 1], on.len() as int)->Ok_0;
        let places = rows_that_can(
            rows,
            batches,
            on,
            before,
            upto - 1,
            keys,
            batches[upto - 1].rows as int,
        );
        to_the_next_batch(built(batches, on, upto)->Ok_0, batches, on, places, upto - 1);
        places
    }
}

// ---- the left side

/// Whether rows are a row of the left side put before each row of the right that has its key, at some
/// places, in their order.
pub open spec fn are_pairs(
    found: Seq<Seq<ScalarView>>,
    values: Seq<ScalarView>,
    key: Seq<ScalarView>,
    right: Seq<KeyedView>,
    places: Seq<int>,
    upto: int,
) -> bool {
    &&& found.len() == places.len()
    &&& forall|k: int|
        0 <= k < places.len() ==> 0 <= #[trigger] places[k] < upto && right[places[k]].key == key
            && found[k] == values + right[places[k]].values
    &&& forall|k: int, l: int|
        0 <= k < l < places.len() ==> #[trigger] places[k] < #[trigger] places[l]
    &&& forall|i: int|
        0 <= i < upto && (#[trigger] right[i]).key == key ==> places.contains(i)
}

proof fn pairs_are_made(
    values: Seq<ScalarView>,
    key: Seq<ScalarView>,
    right: Seq<KeyedView>,
    upto: int,
) -> (places: Seq<int>)
    requires
        0 <= upto <= right.len(),
    ensures
        are_pairs(pairs(values, key, right, upto), values, key, right, places, upto),
    decreases upto,
{
    if upto <= 0 {
        Seq::empty()
    } else {
        let before = pairs_are_made(values, key, right, upto - 1);
        let at = upto - 1;
        let places = if right[at].key == key {
            before.push(at)
        } else {
            before
        };
        let found = pairs(values, key, right, upto);
        assert forall|k: int| 0 <= k < places.len() implies 0 <= #[trigger] places[k] < upto
            && right[places[k]].key == key && found[k] == values + right[places[k]].values by {
            if k < before.len() {
                assert(places[k] == before[k]);
            }
        }
        assert forall|k: int, l: int| 0 <= k < l < places.len() implies #[trigger] places[k]
            < #[trigger] places[l] by {
            assert(places[k] == before[k]);
            if l < before.len() {
                assert(places[l] == before[l]);
            }
        }
        assert forall|i: int| 0 <= i < upto && (#[trigger] right[i]).key == key implies places.contains(
            i,
        ) by {
            if i < at {
                assert(before.contains(i));
                let k = choose|k: int| 0 <= k < before.len() && before[k] == i;
                assert(places[k] == i);
            } else {
                assert(places[places.len() - 1] == i);
            }
        }
        places
    }
}

/// Whether rows are what a row of the left side gives: one with each partner, in their order; and
/// where there is no partner nothing, or in a left join the row itself with NULLs.
pub open spec fn is_joined_row(
    found: Seq<Seq<ScalarView>>,
    values: Seq<ScalarView>,
    key: Seq<ScalarView>,
    right: Seq<KeyedView>,
    join_type: JoinType,
    width: nat,
) -> bool {
    if exists|i: int| 0 <= i < right.len() && (#[trigger] right[i]).key == key {
        exists|places: Seq<int>| are_pairs(found, values, key, right, places, right.len() as int)
    } else if join_type is Left {
        &&& found.len() == 1
        &&& found[0].len() == values.len() + width
        &&& found[0].take(values.len() as int) == values
        &&& forall|c: int|
            values.len() <= c < values.len() + width ==> (#[trigger] found[0][c]) is Null
    } else {
        found.len() == 0
    }
}

/// A row of the left side is given with each of its partners; without any it is left out by an inner
/// join, and given with NULLs by a left join.
pub proof fn a_row_is_joined(
    values: Seq<ScalarView>,
    key: Seq<ScalarView>,
    right: Seq<KeyedView>,
    join_type: JoinType,
    width: nat,
)
    ensures
        is_joined_row(
            joined_row(values, key, right, join_type, width),
            values,
            key,
            right,
            join_type,
            width,
        ),
{
    let places = pairs_are_made(values, key, right, right.len() as int);
    let found = joined_row(values, key, right, join_type, width);
    if exists|i: int| 0 <= i < right.len() && (#[trigger] right[i]).key == key {
        let i = choose|i: int| 0 <= i < right.len() && (#[trigger] right[i]).key == key;
        assert(places.contains(i));
        assert(are_pairs(found, values, key, right, places, right.len() as int));
    } else {
        if places.len() > 0 {
            assert(right[places[0]].key == key);
        }
        if join_type is Left {
            assert(found[0].take(values.len() as int) =~= values);
        }
    }
}

/// The place of a row of a batch among the rows of all batches.
pub open spec fn place_in(batches: Seq<BatchView>, b: int, r: int) -> int {
    total_rows(batches, b) + r
}

/// Whether lists of rows are what the rows of the left side give, up to a place.
pub open spec fn are_joined_rows(
    lists: Seq<Seq<Seq<ScalarView>>>,
    batches: Seq<BatchView>,
    on: Seq<ExprView>,
    right: Seq<KeyedView>,
    join_type: JoinType,
    width: nat,
    end: (int, int),
) -> bool {
    &&& lists.len() == total_rows(batches, end.0) + end.1
    &&& forall|b: int, r: int|
        #![trigger place_in(batches, b, r)]
        0 <= b < batches.len() && 0 <= r < batches[b].rows && earlier((b, r), end) ==> {
            &&& place_in(batches, b, r) < lists.len()
            &&& exists|row: KeyedView| #[trigger]
                is_at(row, batches, on, (b, r)) && is_joined_row(
                    lists[place_in(batches, b, r)],
                    row.values,
                    row.key,
                    right,
                    join_type,
                    width,
                )
        }
}

proof fn flattening_one_more(
    lists: Seq<Seq<Seq<ScalarView>>>,
    list: Seq<Seq<ScalarView>>,
)
    ensures
        lists.push(list).flatten() == lists.flatten() + list,
{
    let all = lists.push(list);
    assert(all.drop_last() =~= lists);
    all.lemma_flatten_and_flatten_alt_are_equivalent();
    lists.lemma_flatten_and_flatten_alt_are_equivalent();
}

proof fn totals_grow_by_batch(batches: Seq<BatchView>, b: int, r: int, end: int)
    requires
        0 <= b < end,
        r < batches[b].rows,
    ensures
        total_rows(batches, b) + r < total_rows(batches, end),
{
    crate::execution::concat::total_rows_grow(batches, b + 1, end);
    assert(total_rows(batches, b + 1) == total_rows(batches, b) + batches[b].rows);
}

proof fn rows_are_joined(
    before: Seq<Seq<ScalarView>>,
    batches: Seq<BatchView>,
    on: Seq<ExprView>,
    right: Seq<KeyedView>,
    join_type: JoinType,
    width: nat,
    lists: Seq<Seq<Seq<ScalarView>>>,
    b: int,
    keys: Seq<ColumnView>,
    upto: int,
) -> (more: Seq<Seq<Seq<ScalarView>>>)
    requires
        are_joined_rows(lists, batches, on, right, join_type, width, (b, 0)),
        before == lists.flatten(),
        0 <= b < batches.len(),
        0 <= upto <= batches[b].rows,
        computed(on, batches[b], on.len() as int) == Ok::<Seq<ColumnView>, ErrorView>(keys),
        probed_rows(before, keys, batches[b], right, join_type, width, upto) is Ok,
    ensures
        are_joined_rows(more, batches, on, right, join_type, width, (b, upto)),
        probed_rows(before, keys, batches[b], right, join_type, width, upto)->Ok_0
            == more.flatten(),
    decreases upto,
{
    if upto <= 0 {
        lists
    } else {
        let fewer = rows_are_joined(
            before,
            batches,
            on,
            right,
            join_type,
            width,
            lists,
            b,
            keys,
            upto - 1,
        );
        let key = row_values(keys, upto - 1, keys.len() as int)->Ok_0;
        let columns = batches[b].columns;
        let values = row_values(columns, upto - 1, columns.len() as int)->Ok_0;
        let list = joined_row(values, key, right, join_type, width);
        let more = fewer.push(list);
        let row = KeyedView { key, values };
        a_key_is_computed(batches, on, b, upto - 1, keys, key);
        a_row_is_read(columns, upto - 1, columns.len() as int);
        assert(columns.take(columns.len() as int) =~= columns);
        assert(is_at(row, batches, on, (b, upto - 1)));
        a_row_is_joined(values, key, right, join_type, width);
        flattening_one_more(fewer, list);
        assert forall|x: int, y: int|
            #![trigger place_in(batches, x, y)]
            0 <= x < batches.len() && 0 <= y < batches[x].rows && earlier((x, y), (b, upto)) implies {
            &&& place_in(batches, x, y) < more.len()
            &&& exists|row: KeyedView| #[trigger]
                is_at(row, batches, on, (x, y)) && is_joined_row(
                    more[place_in(batches, x, y)],
                    row.values,
                    row.key,
                    right,
                    join_type,
                    width,
                )
        } by {
            if earlier((x, y), (b, upto - 1)) {
                let at = place_in(batches, x, y);
                let old = fewer[place_in(batches, x, y)];
                assert(at < fewer.len());
                assert(more[at] == old);
            } else {
                assert(x == b && y == upto - 1);
                assert(more[place_in(batches, x, y)] == list);
                assert(is_at(row, batches, on, (x, y)));
            }
        }
        assert(more.len() == total_rows(batches, b) + upto);
        assert(are_joined_rows(more, batches, on, right, join_type, width, (b, upto)));
        more
    }
}

/// A join gives, for each row of the left side in its order, what that row gives.
pub proof fn a_join_goes_through_the_left(
    batches: Seq<BatchView>,
    on: Seq<ExprView>,
    right: Seq<KeyedView>,
    join_type: JoinType,
    width: nat,
    upto: int,
) -> (lists: Seq<Seq<Seq<ScalarView>>>)
    requires
        0 <= upto <= batches.len(),
        probed(batches, on, right, join_type, width, upto) is Ok,
    ensures
        are_joined_rows(lists, batches, on, right, join_type, width, (upto, 0)),
        probed(batches, on, right, join_type, width, upto)->Ok_0 == lists.flatten(),
    decreases upto,
{
    if upto <= 0 {
        let lists = Seq::<Seq<Seq<ScalarView>>>::empty();
        assert(lists.flatten() =~= Seq::empty());
        lists
    } else {
        let fewer = a_join_goes_through_the_left(batches, on, right, join_type, width, upto - 1);
        let before = probed(batches, on, right, join_type, width, upto - 1)->Ok_0;
        let b = upto - 1;
        let keys = computed(on, batches[b], on.len() as int)->Ok_0;
        let lists = rows_are_joined(
            before,
            batches,
            on,
            right,
            join_type,
            width,
            fewer,
            b,
            keys,
            batches[b].rows as int,
        );
        assert(total_rows(batches, upto) == total_rows(batches, b) + batches[b].rows);
        assert forall|x: int, y: int|
            #![trigger place_in(batches, x, y)]
            0 <= x < batches.len() && 0 <= y < batches[x].rows && earlier(
                (x, y),
                (upto, 0),
            ) implies earlier((x, y), (b, batches[b].rows as int)) by {}
        lists
    }
}

/// A join of two inputs: the rows that it gives are those of each row of the left side, in their order,
/// with each row of the right side that has the same keys, of which none is NULL; and a left join gives
/// a row without such a partner with NULLs.
pub proof fn what_a_join_gives(
    left: Seq<BatchView>,
    right: Seq<BatchView>,
    join_type: JoinType,
    left_on: Seq<ExprView>,
    right_on: Seq<ExprView>,
    schema: SchemaView,
    out: BatchView,
)
    requires
        joined(left, right, join_type, left_on, right_on, schema) == Ok::<BatchView, ErrorView>(
            out,
        ),
    ensures
        exists|
            partners: Seq<KeyedView>,
            places: Seq<(int, int)>,
            lists: Seq<Seq<Seq<ScalarView>>>,
        |
            #![trigger can_have_partners(partners, right, right_on, places, (right.len() as int, 0)), lists.flatten()]
            {
                &&& can_have_partners(partners, right, right_on, places, (right.len() as int, 0))
                &&& are_joined_rows(
                    lists,
                    left,
                    left_on,
                    partners,
                    join_type,
                    right_width_of(left, right, schema),
                    (left.len() as int, 0),
                )
                &&& batch_of_rows(lists.flatten(), schema.fields.len(), schema) == Ok::<
                    BatchView,
                    ErrorView,
                >(out)
            },
{
    let width = right_width_of(left, right, schema);
    let partners = built(right, right_on, right.len() as int)->Ok_0;
    let places = who_can_have_a_partner(right, right_on, right.len() as int);
    let lists = a_join_goes_through_the_left(
        left,
        left_on,
        partners,
        join_type,
        width,
        left.len() as int,
    );
    assert(can_have_partners(partners, right, right_on, places, (right.len() as int, 0)));
    assert(batch_of_rows(lists.flatten(), schema.fields.len(), schema) == Ok::<
        BatchView,
        ErrorView,
    >(out));
}

/// A join of a plan joins what its inputs give.
pub proof fn a_join_of_a_plan(
    plan: PhysicalView,
    tables: Seq<NamedTableView>,
    partition: Option<usize>,
    out: Seq<BatchView>,
)
    requires
        plan is HashJoin,
        produces(plan, tables, partition, Ok(out)),
    ensures
        out.len() == 1,
        exists|left: Seq<BatchView>, right: Seq<BatchView>|
            {
                &&& #[trigger] produces(*plan->HashJoin_left, tables, partition, Ok(left))
                &&& #[trigger] produces(*plan->HashJoin_right, tables, partition, Ok(right))
                &&& joined(
                    left,
                    right,
                    plan->HashJoin_join_type,
                    plan->HashJoin_left_on,
                    plan->HashJoin_right_on,
                    plan->HashJoin_schema,
                ) == Ok::<BatchView, ErrorView>(out[0])
            },
{
    let trace = choose|trace: Trace| #[trigger]
        runs(plan, tables, partition, trace) && trace.result() == Ok::<Seq<BatchView>, ErrorView>(
            out,
        );
    let (a, b) = (*trace->Join_left, *trace->Join_right);
    let (left, right) = (a.result()->Ok_0, b.result()->Ok_0);
    assert(runs(*plan->HashJoin_left, tables, partition, a));
    assert(runs(*plan->HashJoin_right, tables, partition, b));
    assert(produces(*plan->HashJoin_left, tables, partition, Ok(left)));
    assert(produces(*plan->HashJoin_right, tables, partition, Ok(right)));
}

} // verus!

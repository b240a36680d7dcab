//! Filters and projections work row by row.

use crate::batch::{made_batch, BatchView};
use crate::column::{cells_make_a_column, ColumnView};
use crate::execution::rows::computed;
use crate::execution::stream::{filtered, projected, true_places, true_places_are_exact};
use crate::expr::ExprView;
use crate::kernels::row_of;
use crate::types::SchemaView;
use crate::values::{values_are_by_row, values_are_typed};
use vstd::prelude::*;
use vstd::seq_lib::lemma_multiset_commutative;

verus! {

/// The rows of a batch, one by one.
pub open spec fn result_rows(batch: BatchView) -> Seq<Seq<ColumnView>> {
    Seq::new(batch.rows, |r: int| row_of(batch.columns, r))
}

/// The rows of the first `upto` batches.
pub open spec fn rows_in(batches: Seq<BatchView>, upto: int) -> Seq<Seq<ColumnView>>
    decreases upto,
{
    if upto <= 0 {
        Seq::empty()
    } else {
        rows_in(batches, upto - 1) + result_rows(batches[upto - 1])
    }
}

/// The rows of some batches.
pub open spec fn all_rows(batches: Seq<BatchView>) -> Seq<Seq<ColumnView>> {
    rows_in(batches, batches.len() as int)
}

/// What a function makes of rows that gives one row or none for each.
pub open spec fn carried(
    rows: Seq<Seq<ColumnView>>,
    f: spec_fn(Seq<ColumnView>) -> Option<Seq<ColumnView>>,
) -> Seq<Seq<ColumnView>>
    decreases rows.len(),
{
    if rows.len() == 0 {
        Seq::empty()
    } else {
        let before = carried(rows.drop_last(), f);
        match f(rows.last()) {
            Some(row) => before.push(row),
            None => before,
        }
    }
}

pub proof fn carried_of_two(
    a: Seq<Seq<ColumnView>>,
    b: Seq<Seq<ColumnView>>,
    f: spec_fn(Seq<ColumnView>) -> Option<Seq<ColumnView>>,
)
    ensures
        carried(a + b, f) == carried(a, f) + carried(b, f),
    decreases b.len(),
{
    if b.len() == 0 {
        assert(a + b =~= a);
        assert(carried(a, f) + carried(b, f) =~= carried(a, f));
    } else {
        assert((a + b).drop_last() =~= a + b.drop_last());
        carried_of_two(a, b.drop_last(), f);
        assert(carried(a + b, f) =~= carried(a, f) + carried(b, f));
    }
}

/// What is made of the same rows in another order is the same, in another order.
pub proof fn carrying_the_same_rows(
    a: Seq<Seq<ColumnView>>,
    b: Seq<Seq<ColumnView>>,
    f: spec_fn(Seq<ColumnView>) -> Option<Seq<ColumnView>>,
)
    requires
        a.to_multiset() == b.to_multiset(),
    ensures
        carried(a, f).to_multiset() == carried(b, f).to_multiset(),
    decreases a.len(),
{
    a.to_multiset_ensures();
    b.to_multiset_ensures();
    if a.len() > 0 {
        let row = a.last();
        assert(a.contains(row));
        assert(b.to_multiset().count(row) > 0);
        assert(b.contains(row));
        let at = choose|at: int| 0 <= at < b.len() && b[at] == row;
        let first = b.take(at);
        let rest = b.skip(at + 1);
        let one = seq![row];
        let fewer = b.remove(at);
        assert(fewer =~= first + rest);
        assert(b =~= (first + one) + rest);
        assert(a =~= a.drop_last() + one);
        assert(a.remove(a.len() - 1) =~= a.drop_last());
        assert(a.drop_last().to_multiset() =~= fewer.to_multiset());
        carrying_the_same_rows(a.drop_last(), fewer, f);
        carried_of_two(a.drop_last(), one, f);
        carried_of_two(first + one, rest, f);
        carried_of_two(first, one, f);
        carried_of_two(first, rest, f);
        let (x, y, z) = (carried(first, f), carried(one, f), carried(rest, f));
        lemma_multiset_commutative(carried(a.drop_last(), f), y);
        lemma_multiset_commutative(x + y, z);
        lemma_multiset_commutative(x, y);
        lemma_multiset_commutative(x, z);
        assert(x.to_multiset().add(y.to_multiset()).add(z.to_multiset()) =~= x.to_multiset().add(
            z.to_multiset(),
        ).add(y.to_multiset()));
    } else {
        assert(b.len() == 0);
        assert(a =~= b);
    }
}

proof fn cells_of_rows(a: BatchView, b: BatchView, row: int, place: int)
    requires
        a.wf(),
        b.wf(),
        a.schema == b.schema,
        0 <= row < a.rows,
        0 <= place < b.rows,
        result_rows(a)[row] == result_rows(b)[place],
    ensures
        forall|c: int|
            0 <= c < a.columns.len() ==> (#[trigger] a.columns[c]).cell(row) == b.columns[c].cell(
                place,
            ),
{
    assert forall|c: int| 0 <= c < a.columns.len() implies (#[trigger] a.columns[c]).cell(row)
        == b.columns[c].cell(place) by {
        assert(result_rows(a)[row][c] == a.columns[c].taken(seq![row]));
        assert(result_rows(b)[place][c] == b.columns[c].taken(seq![place]));
        assert(a.columns[c].len() == a.rows);
        assert(b.columns[c].len() == b.rows);
        assert(a.columns[c].taken(seq![row]).cell(0) == a.columns[c].cell(row));
        assert(b.columns[c].taken(seq![place]).cell(0) == b.columns[c].cell(place));
    }
}

/// Where a row stands in a batch.
pub open spec fn place_of(batch: BatchView, row: Seq<ColumnView>) -> int {
    choose|r: int| 0 <= r < batch.rows && #[trigger] result_rows(batch)[r] == row
}

// ---- filters

/// What a filter makes of a row of a batch.
pub open spec fn filtering(whole: BatchView, predicate: ExprView) -> spec_fn(
    Seq<ColumnView>,
) -> Option<Seq<ColumnView>> {
    |row: Seq<ColumnView>|
        if predicate.value(whole)->Ok_0->Boolean_0[place_of(whole, row)] == Some(true) {
            Some(row)
        } else {
            None
        }
}

proof fn filtering_is_by_row(
    whole: BatchView,
    part: BatchView,
    predicate: ExprView,
    upto: int,
)
    requires
        whole.wf(),
        part.wf(),
        whole.schema == part.schema,
        predicate.value(whole) matches Ok(column) && column is Boolean,
        predicate.value(part) matches Ok(column) && column is Boolean,
        forall|r: int|
            0 <= r < part.rows ==> result_rows(whole).contains(#[trigger] result_rows(part)[r]),
        0 <= upto <= part.rows,
    ensures
        ({
            let cells = predicate.value(part)->Ok_0->Boolean_0;
            let places = true_places(cells, upto);
            carried(result_rows(part).take(upto), filtering(whole, predicate)) == Seq::new(
                places.len(),
                |k: int| result_rows(part)[places[k]],
            )
        }),
    decreases upto,
{
    let rows = result_rows(part);
    let f = filtering(whole, predicate);
    let cells = predicate.value(part)->Ok_0->Boolean_0;
    let places = true_places(cells, upto);
    if upto > 0 {
        filtering_is_by_row(whole, part, predicate, upto - 1);
        assert(rows.take(upto).drop_last() =~= rows.take(upto - 1));
        let row = rows[upto - 1];
        assert(result_rows(whole).contains(rows[upto - 1]));
        let at = place_of(whole, row);
        let some = choose|r: int| 0 <= r < result_rows(whole).len() && result_rows(whole)[r] == row;
        assert(0 <= some < whole.rows && result_rows(whole)[some] == row);
        assert(0 <= at < whole.rows && result_rows(whole)[at] == row);
        cells_of_rows(whole, part, at, upto - 1);
        values_are_by_row(predicate, whole, part, at, upto - 1);
        values_are_typed(predicate, whole);
        values_are_typed(predicate, part);
        let all = predicate.value(whole)->Ok_0;
        assert(all.cell(at) == predicate.value(part)->Ok_0.cell(upto - 1));
        assert(all->Boolean_0[at] == cells[upto - 1]);
        assert(carried(rows.take(upto), f) =~= Seq::new(places.len(), |k: int| rows[places[k]]));
    } else {
        assert(carried(rows.take(0), f) =~= Seq::new(places.len(), |k: int| rows[places[k]]));
    }
}

/// The rows of a batch that come through a filter.
pub proof fn a_filter_carries_rows(whole: BatchView, part: BatchView, predicate: ExprView)
    requires
        whole.wf(),
        part.wf(),
        whole.schema == part.schema,
        filtered(whole, predicate) is Ok,
        filtered(part, predicate) is Ok,
        forall|r: int|
            0 <= r < part.rows ==> result_rows(whole).contains(#[trigger] result_rows(part)[r]),
    ensures
        result_rows(filtered(part, predicate)->Ok_0) == carried(
            result_rows(part),
            filtering(whole, predicate),
        ),
        filtered(part, predicate)->Ok_0.schema == part.schema,
{
    let next = filtered(part, predicate)->Ok_0;
    let cells = predicate.value(part)->Ok_0->Boolean_0;
    let places = true_places(cells, cells.len() as int);
    values_are_typed(predicate, part);
    filtering_is_by_row(whole, part, predicate, part.rows as int);
    true_places_are_exact(cells, cells.len() as int);
    let rows = result_rows(part);
    assert(rows.take(part.rows as int) =~= rows);
    let kept = carried(rows, filtering(whole, predicate));
    assert forall|k: int| 0 <= k < places.len() implies result_rows(next)[k] == kept[k] by {
        assert(kept[k] == rows[places[k]]);
        assert(0 <= places[k] < cells.len());
        assert forall|c: int| 0 <= c < part.columns.len() implies result_rows(next)[k][c]
            == kept[k][c] by {
            assert(part.columns[c].len() == part.rows);
            let one = part.columns[c].taken(places).taken(seq![k]);
            let other = part.columns[c].taken(seq![places[k]]);
            assert(one.cell(0) == other.cell(0));
            cells_make_a_column(one, other);
        }
        assert(result_rows(next)[k] =~= kept[k]);
    }
    assert(result_rows(next) =~= kept);
}

// ---- projections

/// What a projection makes of a row of a batch.
pub open spec fn projecting(whole: BatchView, columns: Seq<ColumnView>) -> spec_fn(
    Seq<ColumnView>,
) -> Option<Seq<ColumnView>> {
    |row: Seq<ColumnView>| Some(row_of(columns, place_of(whole, row)))
}

proof fn computing_is_by_row(
    exprs: Seq<ExprView>,
    whole: BatchView,
    part: BatchView,
    row: int,
    place: int,
    upto: int,
)
    requires
        whole.wf(),
        part.wf(),
        whole.schema == part.schema,
        0 <= upto <= exprs.len(),
        0 <= row < whole.rows,
        0 <= place < part.rows,
        computed(exprs, whole, upto) is Ok,
        computed(exprs, part, upto) is Ok,
        result_rows(whole)[row] == result_rows(part)[place],
    ensures
        row_of(computed(exprs, whole, upto)->Ok_0, row) == row_of(
            computed(exprs, part, upto)->Ok_0,
            place,
        ),
        computed(exprs, part, upto)->Ok_0.len() == upto,
        computed(exprs, whole, upto)->Ok_0.len() == upto,
    decreases upto,
{
    let a = computed(exprs, whole, upto)->Ok_0;
    let b = computed(exprs, part, upto)->Ok_0;
    if upto > 0 {
        computing_is_by_row(exprs, whole, part, row, place, upto - 1);
        let expr = exprs[upto - 1];
        cells_of_rows(whole, part, row, place);
        values_are_by_row(expr, whole, part, row, place);
        values_are_typed(expr, whole);
        values_are_typed(expr, part);
        let x = expr.value(whole)->Ok_0;
        let y = expr.value(part)->Ok_0;
        assert(x.taken(seq![row]).cell(0) == y.taken(seq![place]).cell(0));
        cells_make_a_column(x.taken(seq![row]), y.taken(seq![place]));
        let before = computed(exprs, whole, upto - 1)->Ok_0;
        let other = computed(exprs, part, upto - 1)->Ok_0;
        assert forall|c: int| 0 <= c < upto implies row_of(a, row)[c] == row_of(b, place)[c] by {
            if c < upto - 1 {
                assert(row_of(before, row)[c] == row_of(other, place)[c]);
                assert(a[c] == before[c] && b[c] == other[c]);
            }
        }
        assert(row_of(a, row) =~= row_of(b, place));
    } else {
        assert(row_of(a, row) =~= row_of(b, place));
    }
}

proof fn projecting_is_by_row(
    exprs: Seq<ExprView>,
    whole: BatchView,
    part: BatchView,
    upto: int,
)
    requires
        whole.wf(),
        part.wf(),
        whole.schema == part.schema,
        computed(exprs, whole, exprs.len() as int) is Ok,
        computed(exprs, part, exprs.len() as int) is Ok,
        forall|r: int|
            0 <= r < part.rows ==> result_rows(whole).contains(#[trigger] result_rows(part)[r]),
        0 <= upto <= part.rows,
    ensures
        carried(
            result_rows(part).take(upto),
            projecting(whole, computed(exprs, whole, exprs.len() as int)->Ok_0),
        ) == Seq::new(
            upto as nat,
            |r: int| row_of(computed(exprs, part, exprs.len() as int)->Ok_0, r),
        ),
    decreases upto,
{
    let rows = result_rows(part);
    let count = exprs.len() as int;
    let f = projecting(whole, computed(exprs, whole, count)->Ok_0);
    let columns = computed(exprs, part, count)->Ok_0;
    if upto > 0 {
        projecting_is_by_row(exprs, whole, part, upto - 1);
        assert(rows.take(upto).drop_last() =~= rows.take(upto - 1));
        let row = rows[upto - 1];
        assert(result_rows(whole).contains(rows[upto - 1]));
        let at = place_of(whole, row);
        let some = choose|r: int| 0 <= r < result_rows(whole).len() && result_rows(whole)[r] == row;
        assert(0 <= some < whole.rows && result_rows(whole)[some] == row);
        assert(0 <= at < whole.rows && result_rows(whole)[at] == row);
        computing_is_by_row(exprs, whole, part, at, upto - 1, count);
        assert(carried(rows.take(upto), f) =~= Seq::new(
            upto as nat,
            |r: int| row_of(columns, r),
        ));
    } else {
        assert(carried(rows.take(0), f) =~= Seq::new(upto as nat, |r: int| row_of(columns, r)));
    }
}

/// The rows that a projection gives.
pub proof fn a_projection_carries_rows(
    whole: BatchView,
    part: BatchView,
    exprs: Seq<ExprView>,
    schema: SchemaView,
)
    requires
        whole.wf(),
        part.wf(),
        whole.schema == part.schema,
        projected(whole, exprs, schema) is Ok,
        projected(part, exprs, schema) is Ok,
        forall|r: int|
            0 <= r < part.rows ==> result_rows(whole).contains(#[trigger] result_rows(part)[r]),
    ensures
        result_rows(projected(part, exprs, schema)->Ok_0) == carried(
            result_rows(part),
            projecting(whole, computed(exprs, whole, exprs.len() as int)->Ok_0),
        ),
        projected(part, exprs, schema)->Ok_0.schema == schema,
{
    let next = projected(part, exprs, schema)->Ok_0;
    let columns = computed(exprs, part, exprs.len() as int)->Ok_0;
    projecting_is_by_row(exprs, whole, part, part.rows as int);
    let rows = result_rows(part);
    assert(rows.take(part.rows as int) =~= rows);
    assert(columns.len() > 0) by {
        if columns.len() == 0 {
            assert(made_batch(schema, columns, None) is Err);
        }
    }
    crate::distributed::laws::computing_is_by_expr(exprs, part, exprs.len() as int);
    values_are_typed(exprs[0], part);
    assert(next.rows == part.rows);
    assert(result_rows(next) =~= carried(
        rows,
        projecting(whole, computed(exprs, whole, exprs.len() as int)->Ok_0),
    ));
}

} // verus!

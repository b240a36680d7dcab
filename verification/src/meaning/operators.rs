//! What the operators of a plan do to rows.

use crate::batch::BatchView;
use crate::cells::cell_value;
use crate::column::{cells_make_a_column, ColumnView};
use crate::error::ErrorView;
use crate::execution::concat::{concatenated, joined_column, of_schema, total_rows};
use crate::execution::early::{early_batches, early_filtered, early_projected, fills};
use crate::execution::rows::computed;
use crate::execution::rowwise::{all_rows, result_rows, rows_in};
use crate::execution::run::{
    all_filtered, all_projected, input_of, produces, runs, scanned_batch, stops_early, Trace,
};
use crate::execution::sort::{are_sorted, is_sorted, sort_exprs};
use crate::execution::stream::{
    filtered, first_rows, limited, projected, remaining_after, rows_kept, true_places,
    true_places_are_exact,
};
use crate::expr::ExprView;
use crate::kernels::{is_sort_order, rows_relation, sort_relation};
use crate::logical::SortView;
use crate::meaning::evaluation::{
    bytes_are_in_dictionary_order, comes_first, missing, says, single_stands_before, stands_before,
};
use crate::physical::PhysicalView;
use crate::table::NamedTableView;
use crate::text::Relation;
use crate::types::SchemaView;
use vstd::prelude::*;
use vstd::utf8::encode_utf8;

verus! {

// ---- cells

/// Whether two columns of one type have the same in a row each.
pub open spec fn same_cell(a: ColumnView, i: int, b: ColumnView, j: int) -> bool {
    match (a, b) {
        (ColumnView::Null(_), ColumnView::Null(_)) => true,
        (ColumnView::Boolean(x), ColumnView::Boolean(y)) => x[i] == y[j],
        (ColumnView::Int32(x), ColumnView::Int32(y)) => x[i] == y[j],
        (ColumnView::Int64(x), ColumnView::Int64(y)) => x[i] == y[j],
        (ColumnView::UInt32(x), ColumnView::UInt32(y)) => x[i] == y[j],
        (ColumnView::UInt64(x), ColumnView::UInt64(y)) => x[i] == y[j],
        (ColumnView::Float32(x), ColumnView::Float32(y)) => x[i] == y[j],
        (ColumnView::Float64(x), ColumnView::Float64(y)) => x[i] == y[j],
        (ColumnView::Utf8(x), ColumnView::Utf8(y)) => x[i] == y[j],
        _ => false,
    }
}

/// Whether a batch has the rows of another at some places, in that order.
pub open spec fn has_rows_at(out: BatchView, input: BatchView, places: Seq<int>) -> bool {
    &&& out.rows == places.len()
    &&& out.columns.len() == input.columns.len()
    &&& forall|k: int| 0 <= k < places.len() ==> 0 <= #[trigger] places[k] < input.rows
    &&& forall|c: int, k: int|
        #![trigger out.columns[c], places[k]]
        0 <= c < out.columns.len() && 0 <= k < places.len() ==> same_cell(
            out.columns[c],
            k,
            input.columns[c],
            places[k],
        )
}

/// Taking rows of a batch takes their cells.
pub proof fn taking_rows_takes_their_cells(batch: BatchView, places: Seq<int>)
    requires
        forall|k: int| 0 <= k < places.len() ==> 0 <= #[trigger] places[k] < batch.rows,
    ensures
        has_rows_at(batch.taken(places), batch, places),
{
}

/// The value that is read in a row is the one that the column has there.
pub proof fn values_are_what_columns_have(column: ColumnView, row: int)
    ensures
        missing(column, row) ==> cell_value(column, row) == Ok::<
            crate::scalar::ScalarView,
            ErrorView,
        >(crate::scalar::ScalarView::Null),
        !missing(column, row) ==> match column {
            ColumnView::Boolean(cells) => cell_value(column, row) == Ok::<
                crate::scalar::ScalarView,
                ErrorView,
            >(crate::scalar::ScalarView::Boolean(cells[row]->Some_0)),
            ColumnView::Int32(cells) => cell_value(column, row) == Ok::<
                crate::scalar::ScalarView,
                ErrorView,
            >(crate::scalar::ScalarView::Int64(cells[row]->Some_0 as i64)),
            ColumnView::Int64(cells) => cell_value(column, row) == Ok::<
                crate::scalar::ScalarView,
                ErrorView,
            >(crate::scalar::ScalarView::Int64(cells[row]->Some_0)),
            ColumnView::UInt32(cells) => cell_value(column, row) == Ok::<
                crate::scalar::ScalarView,
                ErrorView,
            >(crate::scalar::ScalarView::UInt64(cells[row]->Some_0 as u64)),
            ColumnView::UInt64(cells) => cell_value(column, row) == Ok::<
                crate::scalar::ScalarView,
                ErrorView,
            >(crate::scalar::ScalarView::UInt64(cells[row]->Some_0)),
            ColumnView::Float64(cells) => cell_value(column, row) == Ok::<
                crate::scalar::ScalarView,
                ErrorView,
            >(crate::scalar::ScalarView::Float64(cells[row]->Some_0)),
            ColumnView::Utf8(cells) => cell_value(column, row) == Ok::<
                crate::scalar::ScalarView,
                ErrorView,
            >(crate::scalar::ScalarView::Utf8(cells[row]->Some_0)),
            _ => true,
        },
{
}

// ---- filters

/// Whether some places are those at which a column says that something is so, from the first to the
/// last.
pub open spec fn are_the_places_of_truth(places: Seq<int>, column: ColumnView) -> bool {
    &&& forall|k: int|
        0 <= k < places.len() ==> 0 <= #[trigger] places[k] < column.len() && says(
            column,
            places[k],
        ) == Some(true)
    &&& forall|row: int|
        0 <= row < column.len() && #[trigger] says(column, row) == Some(true) ==> places.contains(
            row,
        )
    &&& forall|k: int, l: int|
        0 <= k < l < places.len() ==> #[trigger] places[k] < #[trigger] places[l]
}

/// A filter keeps the rows of which its predicate is true, in their order, and no others: not those of
/// which it is false, and not those of which it is NULL.
pub proof fn a_filter_keeps_what_is_true(batch: BatchView, predicate: ExprView, out: BatchView)
    requires
        batch.wf(),
        filtered(batch, predicate) == Ok::<BatchView, ErrorView>(out),
    ensures
        predicate.value(batch) is Ok,
        predicate.value(batch)->Ok_0 is Boolean,
        exists|places: Seq<int>|
            are_the_places_of_truth(places, predicate.value(batch)->Ok_0) && has_rows_at(
                out,
                batch,
                places,
            ),
{
    let column = predicate.value(batch)->Ok_0;
    let cells = column->Boolean_0;
    crate::values::values_are_typed(predicate, batch);
    true_places_are_exact(cells, cells.len() as int);
    let places = true_places(cells, cells.len() as int);
    taking_rows_takes_their_cells(batch, places);
    assert forall|row: int|
        0 <= row < column.len() && #[trigger] says(column, row) == Some(
            true,
        ) implies places.contains(row) by {
        assert(cells[row] == Some(true));
    }
    assert(are_the_places_of_truth(places, column));
}

// ---- projections

/// The columns of a projection are the values of its expressions, in their order.
pub proof fn a_projection_computes_its_expressions(
    batch: BatchView,
    exprs: Seq<ExprView>,
    schema: SchemaView,
    out: BatchView,
)
    requires
        projected(batch, exprs, schema) == Ok::<BatchView, ErrorView>(out),
    ensures
        out.schema == schema,
        out.columns.len() == exprs.len(),
        forall|k: int|
            0 <= k < exprs.len() ==> exprs[k].value(batch) == Ok::<ColumnView, ErrorView>(
                #[trigger] out.columns[k],
            ),
{
    crate::distributed::laws::computing_is_by_expr(exprs, batch, exprs.len() as int);
}

// ---- limits

proof fn the_first_rows_of_a_batch(batch: BatchView, count: int)
    requires
        batch.wf(),
        0 <= count <= batch.rows,
    ensures
        result_rows(first_rows(batch, count)) == result_rows(batch).take(count),
{
    let places = Seq::new(count as nat, |i: int| i);
    let out = first_rows(batch, count);
    assert forall|k: int| 0 <= k < count implies result_rows(out)[k] == result_rows(
        batch,
    )[k] by {
        assert forall|c: int| 0 <= c < batch.columns.len() implies result_rows(out)[k][c]
            == result_rows(batch)[k][c] by {
            assert(batch.columns[c].len() == batch.rows);
            let one = batch.columns[c].taken(places).taken(seq![k]);
            let other = batch.columns[c].taken(seq![k]);
            assert(one.cell(0) == other.cell(0));
            cells_make_a_column(one, other);
        }
        assert(result_rows(out)[k] =~= result_rows(batch)[k]);
    }
    assert(result_rows(out) =~= result_rows(batch).take(count));
}

/// A limit lets the first rows through, as many as it says or all of them, and in their order.
pub proof fn a_limit_lets_the_first_rows_through(batches: Seq<BatchView>, limit: nat, upto: int)
    requires
        crate::table::all_valid(batches),
        0 <= upto <= batches.len(),
    ensures
        ({
            let rows = rows_in(batches, upto);
            all_rows(limited(batches, limit as int, upto)) == rows.take(
                if limit < rows.len() {
                    limit as int
                } else {
                    rows.len() as int
                },
            )
        }),
        remaining_after(batches, limit as int, upto) == (if limit < rows_in(batches, upto).len() {
            0
        } else {
            limit - rows_in(batches, upto).len()
        }),
    decreases upto,
{
    let rows = rows_in(batches, upto);
    if upto > 0 {
        a_limit_lets_the_first_rows_through(batches, limit, upto - 1);
        let batch = batches[upto - 1];
        assert(batches[upto - 1].wf());
        let before = rows_in(batches, upto - 1);
        let remaining = remaining_after(batches, limit as int, upto - 1);
        let kept = rows_kept(batch, remaining);
        let out = limited(batches, limit as int, upto - 1);
        the_first_rows_of_a_batch(batch, kept);
        let all = limited(batches, limit as int, upto);
        if kept > 0 {
            crate::cluster::spread_join::rows_of_a_prefix(all, out, out.len() as int);
            assert(all_rows(all) == all_rows(out) + result_rows(first_rows(batch, kept)));
        }
        let wanted = if limit < rows.len() {
            limit as int
        } else {
            rows.len() as int
        };
        assert(all_rows(all) =~= rows.take(wanted));
    } else {
        assert(rows.take(0) =~= rows);
    }
}

// ---- sorting

/// Whether the value of a column in one row is less than in another, where neither is NULL.
pub open spec fn less(column: ColumnView, a: int, b: int) -> bool {
    match column {
        ColumnView::Null(_) => false,
        ColumnView::Boolean(cells) => cells[a] == Some(false) && cells[b] == Some(true),
        ColumnView::Int32(cells) => cells[a]->Some_0 < cells[b]->Some_0,
        ColumnView::Int64(cells) => cells[a]->Some_0 < cells[b]->Some_0,
        ColumnView::UInt32(cells) => cells[a]->Some_0 < cells[b]->Some_0,
        ColumnView::UInt64(cells) => cells[a]->Some_0 < cells[b]->Some_0,
        ColumnView::Float32(cells) => single_stands_before(cells[a]->Some_0, cells[b]->Some_0),
        ColumnView::Float64(cells) => stands_before(cells[a]->Some_0, cells[b]->Some_0),
        ColumnView::Utf8(cells) => comes_first(
            encode_utf8(cells[a]->Some_0),
            encode_utf8(cells[b]->Some_0),
        ),
    }
}

/// Whether a row has to come before another by one key: the smaller value first where the key ascends
/// and the larger one where it descends, and NULL on the side that the key says.
pub open spec fn comes_before(
    column: ColumnView,
    ascending: bool,
    nulls_first: bool,
    a: int,
    b: int,
) -> bool {
    if missing(column, a) && missing(column, b) {
        false
    } else if missing(column, a) {
        nulls_first
    } else if missing(column, b) {
        !nulls_first
    } else if ascending {
        less(column, a, b)
    } else {
        less(column, b, a)
    }
}

/// Whether a row has to come before another by several keys: by the first of them in which they
/// differ.
pub open spec fn has_to_come_before(
    keys: Seq<ColumnView>,
    sorts: Seq<SortView>,
    a: int,
    b: int,
) -> bool {
    exists|k: int|
        0 <= k < keys.len() && comes_before(
            #[trigger] keys[k],
            sorts[k].ascending,
            sorts[k].nulls_first,
            a,
            b,
        ) && forall|j: int|
            0 <= j < k ==> #[trigger] same_cell(keys[j], a, keys[j], b)
}

proof fn one_key_decides(column: ColumnView, ascending: bool, nulls_first: bool, a: int, b: int)
    requires
        0 <= a < column.len(),
        0 <= b < column.len(),
    ensures
        same_cell(column, a, column, b) ==> sort_relation(column, !ascending, nulls_first, b, a)
            == Relation::Same,
        comes_before(column, ascending, nulls_first, a, b) ==> sort_relation(
            column,
            !ascending,
            nulls_first,
            b,
            a,
        ) == Relation::Greater,
{
    let (x, y) = (column.taken(seq![a]), column.taken(seq![b]));
    match column {
        ColumnView::Null(_) => {},
        ColumnView::Boolean(c) => {
            assert(x->Boolean_0[0] == c[a] && y->Boolean_0[0] == c[b]);
        },
        ColumnView::Int32(c) => {
            assert(x->Int32_0[0] == c[a] && y->Int32_0[0] == c[b]);
        },
        ColumnView::Int64(c) => {
            assert(x->Int64_0[0] == c[a] && y->Int64_0[0] == c[b]);
        },
        ColumnView::UInt32(c) => {
            assert(x->UInt32_0[0] == c[a] && y->UInt32_0[0] == c[b]);
        },
        ColumnView::UInt64(c) => {
            assert(x->UInt64_0[0] == c[a] && y->UInt64_0[0] == c[b]);
        },
        ColumnView::Float32(c) => {
            assert(x->Float32_0[0] == c[a] && y->Float32_0[0] == c[b]);
        },
        ColumnView::Float64(c) => {
            assert(x->Float64_0[0] == c[a] && y->Float64_0[0] == c[b]);
        },
        ColumnView::Utf8(c) => {
            assert(x->Utf8_0[0] == c[a] && y->Utf8_0[0] == c[b]);
        },
    }
    if let ColumnView::Utf8(cells) = column {
        let (x, y) = (cells[a]->Some_0, cells[b]->Some_0);
        bytes_are_in_dictionary_order(encode_utf8(x), encode_utf8(y));
        bytes_are_in_dictionary_order(encode_utf8(y), encode_utf8(x));
        crate::text::before_is_strict(x, y);
        crate::text::before_is_strict(y, x);
    }
}

proof fn keys_decide(
    keys: Seq<ColumnView>,
    sorts: Seq<SortView>,
    a: int,
    b: int,
    k: int,
    from: int,
)
    requires
        keys.len() == sorts.len(),
        0 <= from <= k < keys.len(),
        forall|j: int|
            0 <= j < keys.len() ==> 0 <= a < (#[trigger] keys[j]).len() && 0 <= b < keys[j].len(),
        comes_before(keys[k], sorts[k].ascending, sorts[k].nulls_first, a, b),
        forall|j: int| 0 <= j < k ==> #[trigger] same_cell(keys[j], a, keys[j], b),
    ensures
        rows_relation(
            keys,
            Seq::new(sorts.len(), |i: int| !sorts[i].ascending),
            Seq::new(sorts.len(), |i: int| sorts[i].nulls_first),
            b,
            a,
            from,
        ) == Relation::Greater,
    decreases k - from,
{
    one_key_decides(keys[from], sorts[from].ascending, sorts[from].nulls_first, a, b);
    if from < k {
        assert(same_cell(keys[from], a, keys[from], b));
        keys_decide(keys, sorts, a, b, k, from + 1);
    }
}

/// Whether places are those of all rows, each once.
pub open spec fn are_all_places(places: Seq<int>, rows: nat) -> bool {
    &&& places.len() == rows
    &&& forall|k: int| 0 <= k < rows ==> 0 <= #[trigger] places[k] < rows
    &&& forall|k: int, l: int| 0 <= k < l < rows ==> #[trigger] places[k] != #[trigger] places[l]
}

/// Whether a batch has all rows of another at some places, and none behind one that it has to come
/// before.
pub open spec fn in_order_at(
    places: Seq<int>,
    batch: BatchView,
    sorts: Seq<SortView>,
    out: BatchView,
) -> bool {
    &&& are_all_places(places, batch.rows)
    &&& has_rows_at(out, batch, places)
    &&& forall|keys: Seq<ColumnView>, i: int, j: int|
        keys.len() == sorts.len() && (forall|k: int|
            0 <= k < keys.len() ==> sorts[k].expr.value(batch) == Ok::<ColumnView, ErrorView>(
                #[trigger] keys[k],
            )) && 0 <= i < j < batch.rows ==> !#[trigger] has_to_come_before(
            keys,
            sorts,
            places[j],
            places[i],
        )
}

/// Sorting keeps all rows and puts none before one that has to come before it by the keys: by the first
/// key, of those that are alike in it by the second, and so on.
pub proof fn a_sort_puts_rows_in_order(batch: BatchView, sorts: Seq<SortView>, out: BatchView)
    requires
        batch.wf(),
        is_sorted(Ok(out), batch, sorts),
    ensures
        exists|places: Seq<int>| #[trigger] in_order_at(places, batch, sorts, out),
{
    let count = sorts.len() as int;
    let exprs = sort_exprs(sorts);
    let own = computed(exprs, batch, count)->Ok_0;
    crate::distributed::laws::computing_is_by_expr(exprs, batch, count);
    let descending = Seq::new(sorts.len(), |i: int| !sorts[i].ascending);
    let nulls_first = Seq::new(sorts.len(), |i: int| sorts[i].nulls_first);
    assert(crate::execution::sort::descending_flags(sorts) =~= descending);
    assert(crate::execution::sort::nulls_first_flags(sorts) =~= nulls_first);
    let places = choose|order: Seq<int>|
        #[trigger] is_sort_order(order, own, descending, nulls_first, batch.rows) && Ok::<
            BatchView,
            ErrorView,
        >(out) == Ok::<BatchView, ErrorView>(batch.taken(order));
    taking_rows_takes_their_cells(batch, places);
    assert(are_all_places(places, batch.rows));
    assert forall|keys: Seq<ColumnView>, i: int, j: int|
        keys.len() == sorts.len() && (forall|k: int|
            0 <= k < keys.len() ==> sorts[k].expr.value(batch) == Ok::<ColumnView, ErrorView>(
                #[trigger] keys[k],
            )) && 0 <= i < j < batch.rows implies !#[trigger] has_to_come_before(
        keys,
        sorts,
        places[j],
        places[i],
    ) by {
        assert forall|k: int| 0 <= k < count implies keys[k] == own[k] by {
            assert(exprs[k] == sorts[k].expr);
            assert(exprs[k].value(batch) == Ok::<ColumnView, ErrorView>(own[k]));
            assert(sorts[k].expr.value(batch) == Ok::<ColumnView, ErrorView>(keys[k]));
        }
        assert(keys =~= own);
        if has_to_come_before(keys, sorts, places[j], places[i]) {
            let k = choose|k: int|
                0 <= k < keys.len() && comes_before(
                    #[trigger] keys[k],
                    sorts[k].ascending,
                    sorts[k].nulls_first,
                    places[j],
                    places[i],
                ) && forall|l: int|
                    0 <= l < k ==> #[trigger] same_cell(keys[l], places[j], keys[l], places[i]);
            assert forall|l: int| 0 <= l < keys.len() implies (#[trigger] keys[l]).len()
                == batch.rows by {
                crate::values::values_are_typed(sorts[l].expr, batch);
            }
            keys_decide(keys, sorts, places[j], places[i], k, 0);
        }
    }
    assert(in_order_at(places, batch, sorts, out));
}

proof fn a_joined_column(batches: Seq<BatchView>, place: int, at: int, row: int, upto: int)
    requires
        0 <= at < upto <= batches.len(),
        0 <= row < batches[at].rows,
        forall|i: int|
            0 <= i < batches.len() ==> (#[trigger] batches[i]).columns[place].len()
                == batches[i].rows && batches[i].columns[place].data_type()
                == batches[0].columns[place].data_type(),
    ensures
        joined_column(batches, place, upto).data_type() == batches[0].columns[place].data_type(),
        joined_column(batches, place, upto).len() == total_rows(batches, upto),
        total_rows(batches, at) + row < total_rows(batches, upto),
        same_cell(
            joined_column(batches, place, upto),
            total_rows(batches, at) + row,
            batches[at].columns[place],
            row,
        ),
    decreases upto,
{
    assert(batches[upto - 1].columns[place].len() == batches[upto - 1].rows);
    assert(batches[0].columns[place].len() == batches[0].rows);
    if upto > 1 {
        if at < upto - 1 {
            a_joined_column(batches, place, at, row, upto - 1);
        } else {
            joined_lengths(batches, place, upto - 1);
        }
    } else {
        assert(total_rows(batches, 1) == total_rows(batches, 0) + batches[0].rows);
    }
}

proof fn joined_lengths(batches: Seq<BatchView>, place: int, upto: int)
    requires
        0 < upto <= batches.len(),
        forall|i: int|
            0 <= i < batches.len() ==> (#[trigger] batches[i]).columns[place].len()
                == batches[i].rows && batches[i].columns[place].data_type()
                == batches[0].columns[place].data_type(),
    ensures
        joined_column(batches, place, upto).data_type() == batches[0].columns[place].data_type(),
        joined_column(batches, place, upto).len() == total_rows(batches, upto),
    decreases upto,
{
    assert(batches[upto - 1].columns[place].len() == batches[upto - 1].rows);
    if upto > 1 {
        joined_lengths(batches, place, upto - 1);
    } else {
        assert(total_rows(batches, 1) == total_rows(batches, 0) + batches[0].rows);
    }
}

/// Batches put together have the rows of each, one batch after the other.
pub proof fn batches_are_put_together(
    schema: SchemaView,
    batches: Seq<BatchView>,
    whole: BatchView,
    at: int,
    row: int,
    c: int,
)
    requires
        of_schema(batches, schema),
        concatenated(schema, batches) == Ok::<BatchView, ErrorView>(whole),
        total_rows(batches, batches.len() as int) <= usize::MAX,
        0 <= at < batches.len(),
        0 <= row < batches[at].rows,
        0 <= c < schema.fields.len(),
    ensures
        whole.columns.len() == schema.fields.len(),
        whole.rows == total_rows(batches, batches.len() as int),
        same_cell(
            whole.columns[c],
            total_rows(batches, at) + row,
            batches[at].columns[c],
            row,
        ),
{
    assert forall|i: int| 0 <= i < batches.len() implies (#[trigger] batches[i]).columns[c].len()
        == batches[i].rows && batches[i].columns[c].data_type()
        == batches[0].columns[c].data_type() by {
        assert(batches[i].columns[c].data_type() == schema.fields[c].data_type);
        assert(batches[0].columns[c].data_type() == schema.fields[c].data_type);
        assert(batches[i].wf());
    }
    a_joined_column(batches, c, at, row, batches.len() as int);
}

// ---- plans

/// What a filter of a plan gives comes, batch by batch, of what its input gives.
pub proof fn a_filter_of_a_plan(
    plan: PhysicalView,
    tables: Seq<NamedTableView>,
    partition: Option<usize>,
    out: Seq<BatchView>,
)
    requires
        plan is Filter,
        produces(plan, tables, partition, Ok(out)),
    ensures
        exists|input: Seq<BatchView>| #[trigger]
            produces(*plan->Filter_input, tables, partition, Ok(input)) && input.len() == out.len()
                && forall|i: int|
                0 <= i < out.len() ==> filtered(input[i], plan->Filter_predicate) == Ok::<
                    BatchView,
                    ErrorView,
                >(#[trigger] out[i]),
{
    let trace = choose|trace: Trace| #[trigger]
        runs(plan, tables, partition, trace) && trace.result() == Ok::<Seq<BatchView>, ErrorView>(
            out,
        );
    let below = *trace->Step_input;
    let input = below.result()->Ok_0;
    assert(runs(*plan->Filter_input, tables, partition, below));
    assert(produces(*plan->Filter_input, tables, partition, Ok(input)));
    filters_are_by_batch(input, plan->Filter_predicate, input.len() as int);
}

proof fn filters_are_by_batch(batches: Seq<BatchView>, predicate: ExprView, upto: int)
    requires
        0 <= upto <= batches.len(),
    ensures
        all_filtered(batches, predicate, upto) matches Ok(out) ==> out.len() == upto && forall|i: int|
            0 <= i < upto ==> filtered(batches[i], predicate) == Ok::<BatchView, ErrorView>(
                #[trigger] out[i],
            ),
    decreases upto,
{
    if upto > 0 {
        filters_are_by_batch(batches, predicate, upto - 1);
    }
}

proof fn projections_are_by_batch(
    batches: Seq<BatchView>,
    exprs: Seq<ExprView>,
    schema: SchemaView,
    upto: int,
)
    requires
        0 <= upto <= batches.len(),
    ensures
        all_projected(batches, exprs, schema, upto) matches Ok(out) ==> out.len() == upto && forall|
            i: int,
        |
            0 <= i < upto ==> projected(batches[i], exprs, schema) == Ok::<BatchView, ErrorView>(
                #[trigger] out[i],
            ),
    decreases upto,
{
    if upto > 0 {
        projections_are_by_batch(batches, exprs, schema, upto - 1);
    }
}

/// What a projection of a plan gives comes, batch by batch, of what its input gives.
pub proof fn a_projection_of_a_plan(
    plan: PhysicalView,
    tables: Seq<NamedTableView>,
    partition: Option<usize>,
    out: Seq<BatchView>,
)
    requires
        plan is Projection,
        produces(plan, tables, partition, Ok(out)),
    ensures
        exists|input: Seq<BatchView>| #[trigger]
            produces(*plan->Projection_input, tables, partition, Ok(input)) && input.len()
                == out.len() && forall|i: int|
                0 <= i < out.len() ==> projected(
                    input[i],
                    plan->Projection_exprs,
                    plan->Projection_schema,
                ) == Ok::<BatchView, ErrorView>(#[trigger] out[i]),
{
    let trace = choose|trace: Trace| #[trigger]
        runs(plan, tables, partition, trace) && trace.result() == Ok::<Seq<BatchView>, ErrorView>(
            out,
        );
    let below = *trace->Step_input;
    let input = below.result()->Ok_0;
    assert(runs(*plan->Projection_input, tables, partition, below));
    assert(produces(*plan->Projection_input, tables, partition, Ok(input)));
    projections_are_by_batch(
        input,
        plan->Projection_exprs,
        plan->Projection_schema,
        input.len() as int,
    );
}

/// A limit of a plan gives the first rows of what its input gives, or of what that gives before it
/// fails.
pub proof fn a_limit_of_a_plan(
    plan: PhysicalView,
    tables: Seq<NamedTableView>,
    partition: Option<usize>,
    out: Seq<BatchView>,
)
    requires
        plan is Limit,
        produces(plan, tables, partition, Ok(out)),
    ensures
        (exists|input: Seq<BatchView>|
            #![trigger produces(*plan->Limit_input, tables, partition, Ok(input))]
            {
                let rows = all_rows(input);
                let limit = plan->Limit_limit;
                &&& produces(*plan->Limit_input, tables, partition, Ok(input))
                &&& all_rows(out) == rows.take(
                    if limit < rows.len() {
                        limit as int
                    } else {
                        rows.len() as int
                    },
                )
            }) || exists|error: ErrorView|
            #[trigger] produces(*plan->Limit_input, tables, partition, Err(error)) && fills(
                crate::execution::early::early(*plan->Limit_input, tables, partition),
                plan->Limit_limit,
            ),
{
    let trace = choose|trace: Trace| #[trigger]
        runs(plan, tables, partition, trace) && trace.result() == Ok::<Seq<BatchView>, ErrorView>(
            out,
        );
    let below = *trace->Step_input;
    assert(runs(*plan->Limit_input, tables, partition, below));
    assert(produces(*plan->Limit_input, tables, partition, below.result()));
    if let Ok(input) = below.result() {
        a_limit_lets_the_first_rows_through(
            input,
            plan->Limit_limit as nat,
            input.len() as int,
        );
        assert(produces(*plan->Limit_input, tables, partition, Ok(input)));
    } else {
        let error = below.result()->Err_0;
        assert(produces(*plan->Limit_input, tables, partition, Err(error)));
        assert(stops_early(plan, tables, partition, below.result()));
    }
}

/// A sort of a plan sorts all rows of its input together, and one that is limited gives the first of
/// the sorted rows.
pub proof fn a_sort_of_a_plan(
    plan: PhysicalView,
    tables: Seq<NamedTableView>,
    partition: Option<usize>,
    out: Seq<BatchView>,
)
    requires
        plan is Sort || plan is TopK,
        produces(plan, tables, partition, Ok(out)),
    ensures
        out.len() == 1,
        exists|input: Seq<BatchView>, sorted: BatchView|
            #![trigger produces(input_of(plan), tables, partition, Ok(input)), result_rows(sorted)]
            {
                &&& produces(input_of(plan), tables, partition, Ok(input))
                &&& plan is Sort ==> are_sorted(
                    Ok(sorted),
                    input,
                    plan->Sort_exprs,
                    plan->Sort_schema,
                ) && out[0] == sorted
                &&& plan is TopK ==> are_sorted(
                    Ok(sorted),
                    input,
                    plan->TopK_exprs,
                    plan->TopK_schema,
                ) && (sorted.wf() ==> result_rows(out[0]) == result_rows(sorted).take(
                    if plan->TopK_limit < sorted.rows {
                        plan->TopK_limit as int
                    } else {
                        sorted.rows as int
                    },
                ))
            },
{
    let trace = choose|trace: Trace| #[trigger]
        runs(plan, tables, partition, trace) && trace.result() == Ok::<Seq<BatchView>, ErrorView>(
            out,
        );
    let below = *trace->Step_input;
    let input = below.result()->Ok_0;
    assert(runs(input_of(plan), tables, partition, below));
    assert(produces(input_of(plan), tables, partition, Ok(input)));
    let sorted = trace->Step_sorted->Ok_0;
    if plan is TopK && sorted.wf() {
        the_first_rows_of_a_batch(sorted, rows_kept(sorted, plan->TopK_limit as int));
    }
    assert(result_rows(sorted) == result_rows(sorted));
}

// ---- failures

/// Before it fails a filter has given what it makes of each batch up to the first of which it makes
/// nothing.
pub proof fn what_a_filter_gives_before_it_fails(
    batches: Seq<BatchView>,
    predicate: ExprView,
    upto: int,
)
    requires
        0 <= upto <= batches.len(),
    ensures
        ({
            let out = early_filtered(batches, predicate, upto);
            &&& out.len() <= upto
            &&& forall|i: int|
                0 <= i < out.len() ==> filtered(batches[i], predicate) == Ok::<
                    BatchView,
                    ErrorView,
                >(#[trigger] out[i])
            &&& out.len() < upto ==> filtered(batches[out.len() as int], predicate) is Err
        }),
    decreases upto,
{
    if upto > 0 {
        what_a_filter_gives_before_it_fails(batches, predicate, upto - 1);
    }
}

/// Before it fails a projection has given what it makes of each batch up to the first of which it makes
/// nothing.
pub proof fn what_a_projection_gives_before_it_fails(
    batches: Seq<BatchView>,
    exprs: Seq<ExprView>,
    schema: SchemaView,
    upto: int,
)
    requires
        0 <= upto <= batches.len(),
    ensures
        ({
            let out = early_projected(batches, exprs, schema, upto);
            &&& out.len() <= upto
            &&& forall|i: int|
                0 <= i < out.len() ==> projected(batches[i], exprs, schema) == Ok::<
                    BatchView,
                    ErrorView,
                >(#[trigger] out[i])
            &&& out.len() < upto ==> projected(batches[out.len() as int], exprs, schema) is Err
        }),
    decreases upto,
{
    if upto > 0 {
        what_a_projection_gives_before_it_fails(batches, exprs, schema, upto - 1);
    }
}

/// Before it fails a scan has given what it makes of each batch up to the first of which it makes
/// nothing.
pub proof fn what_a_scan_gives_before_it_fails(
    batches: Seq<BatchView>,
    filters: Seq<ExprView>,
    schema: SchemaView,
    upto: int,
)
    requires
        0 <= upto <= batches.len(),
    ensures
        ({
            let out = early_batches(batches, filters, schema, upto);
            &&& out.len() <= upto
            &&& forall|i: int|
                0 <= i < out.len() ==> scanned_batch(batches[i], filters, schema) == Ok::<
                    BatchView,
                    ErrorView,
                >(#[trigger] out[i])
            &&& out.len() < upto ==> scanned_batch(batches[out.len() as int], filters, schema) is Err
        }),
    decreases upto,
{
    if upto > 0 {
        what_a_scan_gives_before_it_fails(batches, filters, schema, upto - 1);
    }
}

} // verus!

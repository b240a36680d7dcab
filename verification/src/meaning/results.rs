//! What holds of the rows that come out, told of those rows alone.

use crate::batch::{taken_keeps_validity, BatchView};
use crate::column::ColumnView;
use crate::error::ErrorView;
use crate::execution::concat::concatenated;
use crate::execution::rows::computed;
use crate::execution::run::{input_of, produces, runs, Trace};
use crate::execution::sort::{are_sorted, is_sorted, sort_exprs};
use crate::execution::stream::{filtered, first_rows, rows_kept};
use crate::expr::ExprView;
use crate::kernels::is_sort_order;
use crate::logical::SortView;
use crate::meaning::evaluation::says;
use crate::meaning::operators::{
    a_filter_keeps_what_is_true, a_filter_of_a_plan, a_sort_puts_rows_in_order,
    are_the_places_of_truth, comes_before, has_rows_at, has_to_come_before, in_order_at, same_cell,
};
use crate::physical::PhysicalView;
use crate::table::NamedTableView;
use crate::values::{values_are_by_row, values_are_typed};
use vstd::prelude::*;

verus! {

proof fn the_same_cells(a: ColumnView, i: int, b: ColumnView, j: int)
    requires
        same_cell(a, i, b, j),
    ensures
        a.cell(i) == b.cell(j),
{
}

proof fn cells_are_the_same(a: ColumnView, i: int, b: ColumnView, j: int)
    requires
        a.data_type() == b.data_type(),
        a.cell(i) == b.cell(j),
    ensures
        same_cell(a, i, b, j),
{
}

/// An expression has in a row what it has wherever the row came from.
pub proof fn values_go_with_their_rows(
    expr: ExprView,
    out: BatchView,
    input: BatchView,
    places: Seq<int>,
    row: int,
)
    requires
        out.wf(),
        input.wf(),
        out.schema == input.schema,
        has_rows_at(out, input, places),
        0 <= row < out.rows,
        expr.value(out) is Ok,
        expr.value(input) is Ok,
    ensures
        same_cell(expr.value(out)->Ok_0, row, expr.value(input)->Ok_0, places[row]),
{
    let place = places[row];
    assert forall|c: int| 0 <= c < out.columns.len() implies (#[trigger] out.columns[c]).cell(row)
        == input.columns[c].cell(place) by {
        assert(same_cell(out.columns[c], row, input.columns[c], places[row]));
        the_same_cells(out.columns[c], row, input.columns[c], place);
    }
    values_are_by_row(expr, out, input, row, place);
    cells_are_the_same(expr.value(out)->Ok_0, row, expr.value(input)->Ok_0, place);
}

/// Whether a condition is true of every row.
pub open spec fn is_true_of_all(predicate: ExprView, batch: BatchView) -> bool {
    forall|column: ColumnView, row: int|
        #![trigger says(column, row)]
        predicate.value(batch) == Ok::<ColumnView, ErrorView>(column) && 0 <= row < batch.rows
            ==> column is Boolean && says(column, row) == Some(true)
}

/// The condition of a filter is true of every row that it lets through.
pub proof fn what_a_filter_lets_through_is_true(
    batch: BatchView,
    predicate: ExprView,
    out: BatchView,
)
    requires
        batch.wf(),
        filtered(batch, predicate) == Ok::<BatchView, ErrorView>(out),
    ensures
        is_true_of_all(predicate, out),
{
    a_filter_keeps_what_is_true(batch, predicate, out);
    values_are_typed(predicate, batch);
    let truths = predicate.value(batch)->Ok_0;
    let places = choose|places: Seq<int>| #[trigger]
        are_the_places_of_truth(places, truths) && has_rows_at(out, batch, places);
    let cells = truths->Boolean_0;
    let own = crate::execution::stream::true_places(cells, cells.len() as int);
    crate::execution::stream::true_places_are_exact(cells, cells.len() as int);
    few_places(own, batch.rows as int);
    taken_keeps_validity(batch, own);
    assert forall|column: ColumnView, row: int|
        #![trigger says(column, row)]
        predicate.value(out) == Ok::<ColumnView, ErrorView>(column) && 0 <= row
            < out.rows implies column is Boolean && says(column, row) == Some(true) by {
        values_go_with_their_rows(predicate, out, batch, places, row);
        assert(says(truths, places[row]) == Some(true));
    }
}

pub(crate) proof fn few_places(places: Seq<int>, count: int)
    requires
        0 <= count,
        forall|k: int| 0 <= k < places.len() ==> 0 <= #[trigger] places[k] < count,
        forall|k: int, l: int|
            0 <= k < l < places.len() ==> #[trigger] places[k] < #[trigger] places[l],
    ensures
        places.len() <= count,
    decreases count,
{
    if places.len() > 0 {
        let fewer = places.drop_last();
        assert(0 <= places[places.len() - 1] < count);
        assert forall|k: int| 0 <= k < fewer.len() implies 0 <= #[trigger] fewer[k] < count - 1 by {
            assert(places[k] < places[places.len() - 1]);
        }
        few_places(fewer, count - 1);
    }
}

/// Every row that a filter of a plan gives makes its condition true.
pub proof fn the_rows_of_a_filter(
    plan: PhysicalView,
    tables: Seq<NamedTableView>,
    partition: Option<usize>,
    out: Seq<BatchView>,
    i: int,
)
    requires
        plan is Filter,
        produces(plan, tables, partition, Ok(out)),
        0 <= i < out.len(),
    ensures
        is_true_of_all(plan->Filter_predicate, out[i]),
{
    a_filter_of_a_plan(plan, tables, partition, out);
    let input = choose|input: Seq<BatchView>| #[trigger]
        produces(*plan->Filter_input, tables, partition, Ok(input)) && input.len() == out.len()
            && forall|i: int|
            0 <= i < out.len() ==> filtered(input[i], plan->Filter_predicate) == Ok::<
                BatchView,
                ErrorView,
            >(#[trigger] out[i]);
    let below = choose|trace: Trace| #[trigger]
        runs(*plan->Filter_input, tables, partition, trace) && trace.result() == Ok::<
            Seq<BatchView>,
            ErrorView,
        >(input);
    assert(input[i].wf());
    assert(filtered(input[i], plan->Filter_predicate) == Ok::<BatchView, ErrorView>(out[i]));
    what_a_filter_lets_through_is_true(input[i], plan->Filter_predicate, out[i]);
}

/// Whether rows stand in the order of some keys: none has to come before one that it stands behind,
/// by the first key, among those that are alike in it by the second, and so on.
pub open spec fn rows_in_order(batch: BatchView, sorts: Seq<SortView>) -> bool {
    forall|keys: Seq<ColumnView>, i: int, j: int|
        #![trigger has_to_come_before(keys, sorts, j, i)]
        are_keys(keys, sorts, batch) && 0 <= i < j < batch.rows ==> !has_to_come_before(
            keys,
            sorts,
            j,
            i,
        )
}

/// Whether columns are what sort keys come to.
pub open spec fn are_keys(keys: Seq<ColumnView>, sorts: Seq<SortView>, batch: BatchView) -> bool {
    &&& keys.len() == sorts.len()
    &&& forall|k: int|
        0 <= k < keys.len() ==> sorts[k].expr.value(batch) == Ok::<ColumnView, ErrorView>(
            #[trigger] keys[k],
        )
}

proof fn order_of_the_same_cells(
    a: ColumnView,
    b: ColumnView,
    ascending: bool,
    nulls_first: bool,
    i: int,
    j: int,
    p: int,
    q: int,
)
    requires
        same_cell(a, i, b, p),
        same_cell(a, j, b, q),
    ensures
        comes_before(a, ascending, nulls_first, i, j) == comes_before(
            b,
            ascending,
            nulls_first,
            p,
            q,
        ),
        same_cell(a, i, a, j) == same_cell(b, p, b, q),
{
}

proof fn order_goes_with_the_rows(
    out: BatchView,
    input: BatchView,
    sorts: Seq<SortView>,
    own: Seq<ColumnView>,
    places: Seq<int>,
)
    requires
        out.wf(),
        input.wf(),
        out.schema == input.schema,
        has_rows_at(out, input, places),
        are_keys(own, sorts, input),
        forall|i: int, j: int|
            #![trigger places[i], places[j]]
            0 <= i < j < out.rows ==> !has_to_come_before(own, sorts, places[j], places[i]),
    ensures
        rows_in_order(out, sorts),
{
    assert forall|keys: Seq<ColumnView>, i: int, j: int|
        #![trigger has_to_come_before(keys, sorts, j, i)]
        are_keys(keys, sorts, out) && 0 <= i < j < out.rows implies !has_to_come_before(
        keys,
        sorts,
        j,
        i,
    ) by {
        let (p, q) = (places[i], places[j]);
        if has_to_come_before(keys, sorts, j, i) {
            let k = choose|k: int|
                0 <= k < keys.len() && comes_before(
                    #[trigger] keys[k],
                    sorts[k].ascending,
                    sorts[k].nulls_first,
                    j,
                    i,
                ) && forall|l: int| 0 <= l < k ==> #[trigger] same_cell(keys[l], j, keys[l], i);
            assert forall|l: int| 0 <= l <= k implies same_cell(
                #[trigger] keys[l],
                i,
                own[l],
                p,
            ) && same_cell(keys[l], j, own[l], q) by {
                assert(sorts[l].expr.value(out) == Ok::<ColumnView, ErrorView>(keys[l]));
                assert(sorts[l].expr.value(input) == Ok::<ColumnView, ErrorView>(own[l]));
                values_go_with_their_rows(sorts[l].expr, out, input, places, i);
                values_go_with_their_rows(sorts[l].expr, out, input, places, j);
            }
            let (a, n) = (sorts[k].ascending, sorts[k].nulls_first);
            order_of_the_same_cells(keys[k], own[k], a, n, j, i, q, p);
            assert forall|l: int| 0 <= l < k implies #[trigger] same_cell(own[l], q, own[l], p) by {
                assert(same_cell(keys[l], j, keys[l], i));
                order_of_the_same_cells(keys[l], own[l], a, n, j, i, q, p);
            }
            assert(has_to_come_before(own, sorts, q, p));
            assert(!has_to_come_before(own, sorts, places[j], places[i]));
        }
    }
}

proof fn the_keys_of_a_sort(batch: BatchView, sorts: Seq<SortView>, out: BatchView) -> (own: Seq<
    ColumnView,
>)
    requires
        batch.wf(),
        is_sorted(Ok(out), batch, sorts),
    ensures
        are_keys(own, sorts, batch),
        out.wf(),
        out.schema == batch.schema,
{
    let own = computed(sort_exprs(sorts), batch, sorts.len() as int)->Ok_0;
    crate::distributed::laws::computing_is_by_expr(sort_exprs(sorts), batch, sorts.len() as int);
    assert forall|k: int| 0 <= k < own.len() implies sorts[k].expr.value(batch) == Ok::<
        ColumnView,
        ErrorView,
    >(#[trigger] own[k]) by {
        assert(sort_exprs(sorts)[k] == sorts[k].expr);
    }
    let order = choose|order: Seq<int>|
        #[trigger] is_sort_order(
            order,
            own,
            crate::execution::sort::descending_flags(sorts),
            crate::execution::sort::nulls_first_flags(sorts),
            batch.rows,
        ) && Ok::<BatchView, ErrorView>(out) == Ok::<BatchView, ErrorView>(batch.taken(order));
    taken_keeps_validity(batch, order);
    own
}

proof fn keys_are_in_order(
    places: Seq<int>,
    batch: BatchView,
    sorts: Seq<SortView>,
    out: BatchView,
    own: Seq<ColumnView>,
    i: int,
    j: int,
)
    requires
        in_order_at(places, batch, sorts, out),
        are_keys(own, sorts, batch),
        0 <= i < j < out.rows,
    ensures
        !has_to_come_before(own, sorts, places[j], places[i]),
{
}

proof fn the_first_rows_are_at(
    out: BatchView,
    batch: BatchView,
    places: Seq<int>,
    count: int,
)
    requires
        out.wf(),
        has_rows_at(out, batch, places),
        0 <= count <= out.rows,
    ensures
        first_rows(out, count).wf(),
        first_rows(out, count).schema == out.schema,
        has_rows_at(first_rows(out, count), batch, places.take(count)),
{
    let few = places.take(count);
    let part = first_rows(out, count);
    taken_keeps_validity(out, Seq::new(count as nat, |i: int| i));
    assert forall|c: int, k: int|
        #![trigger part.columns[c], few[k]]
        0 <= c < part.columns.len() && 0 <= k < few.len() implies same_cell(
        part.columns[c],
        k,
        batch.columns[c],
        few[k],
    ) by {
        assert(same_cell(out.columns[c], k, batch.columns[c], places[k]));
    }
    assert forall|k: int| 0 <= k < few.len() implies 0 <= #[trigger] few[k] < batch.rows by {
        assert(few[k] == places[k]);
    }
}

/// The rows of a sorted batch stand in the order of the keys, and so do the first of them.
pub proof fn sorted_rows_are_in_order(
    batch: BatchView,
    sorts: Seq<SortView>,
    out: BatchView,
    count: int,
)
    requires
        batch.wf(),
        is_sorted(Ok(out), batch, sorts),
        0 <= count <= out.rows,
    ensures
        out.wf(),
        rows_in_order(out, sorts),
        rows_in_order(first_rows(out, count), sorts),
{
    a_sort_puts_rows_in_order(batch, sorts, out);
    let own = the_keys_of_a_sort(batch, sorts, out);
    let places = choose|places: Seq<int>| #[trigger] in_order_at(places, batch, sorts, out);
    assert(has_rows_at(out, batch, places));
    assert forall|i: int, j: int|
        #![trigger places[i], places[j]]
        0 <= i < j < out.rows implies !has_to_come_before(own, sorts, places[j], places[i]) by {
        keys_are_in_order(places, batch, sorts, out, own, i, j);
    }
    order_goes_with_the_rows(out, batch, sorts, own, places);
    let few = places.take(count);
    let part = first_rows(out, count);
    the_first_rows_are_at(out, batch, places, count);
    assert forall|i: int, j: int|
        #![trigger few[i], few[j]]
        0 <= i < j < part.rows implies !has_to_come_before(own, sorts, few[j], few[i]) by {
        assert(few[i] == places[i] && few[j] == places[j]);
        keys_are_in_order(places, batch, sorts, out, own, i, j);
    }
    order_goes_with_the_rows(part, batch, sorts, own, few);
}

proof fn what_is_put_together_is_valid(
    schema: crate::types::SchemaView,
    batches: Seq<BatchView>,
    whole: BatchView,
)
    requires
        concatenated(schema, batches) == Ok::<BatchView, ErrorView>(whole),
    ensures
        whole.wf(),
{
    crate::batch::nulls_check_is_exact(schema, whole.columns, 0);
    crate::batch::types_check_is_exact(schema, whole.columns, 0);
}

/// What a sort of a plan gives stands in the order of its keys, also where it gives but the first
/// rows.
pub proof fn the_rows_of_a_sort(
    plan: PhysicalView,
    tables: Seq<NamedTableView>,
    partition: Option<usize>,
    out: Seq<BatchView>,
)
    requires
        plan is Sort || plan is TopK,
        produces(plan, tables, partition, Ok(out)),
    ensures
        out.len() == 1,
        plan is Sort ==> rows_in_order(out[0], plan->Sort_exprs),
        plan is TopK ==> rows_in_order(out[0], plan->TopK_exprs),
        plan is TopK ==> out[0].rows <= plan->TopK_limit,
{
    let trace = choose|trace: Trace| #[trigger]
        runs(plan, tables, partition, trace) && trace.result() == Ok::<Seq<BatchView>, ErrorView>(
            out,
        );
    let below = *trace->Step_input;
    assert(runs(input_of(plan), tables, partition, below));
    let input = below.result()->Ok_0;
    let sorted = trace->Step_sorted->Ok_0;
    let (sorts, schema) = if plan is Sort {
        (plan->Sort_exprs, plan->Sort_schema)
    } else {
        (plan->TopK_exprs, plan->TopK_schema)
    };
    assert(are_sorted(Ok(sorted), input, sorts, schema));
    let count = if plan is Sort {
        sorted.rows as int
    } else {
        rows_kept(sorted, plan->TopK_limit as int)
    };
    if input.len() > 0 {
        let whole = concatenated(schema, input)->Ok_0;
        what_is_put_together_is_valid(schema, input, whole);
        sorted_rows_are_in_order(whole, sorts, sorted, count);
    } else {
        assert(sorted.rows == 0);
    }
}

} // verus!

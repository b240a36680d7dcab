//! The operators that take one batch at a time.

use crate::batch::{batch_outcome, made_batch, rows_within, Batch, BatchView};
use crate::column::{row_numbers, Column, ColumnView};
use crate::error::{ErrorView, SparkXError};
use crate::evaluate::evaluate;
use crate::execution::rows::{computed, evaluate_all};
use crate::expr::{expr_views, Expr, ExprView};
use crate::types::{Schema, SchemaView};
use vstd::prelude::*;

verus! {

/// The batch that expressions give over another, or why there is none.
pub open spec fn projected(batch: BatchView, exprs: Seq<ExprView>, schema: SchemaView) -> Result<
    BatchView,
    ErrorView,
> {
    match computed(exprs, batch, exprs.len() as int) {
        Err(error) => Err(error),
        Ok(columns) => made_batch(schema, columns, None),
    }
}

/// The batch of a schema whose columns are the values of expressions over another batch.
pub fn project_batch(batch: &Batch, exprs: &Vec<Expr>, schema: &Schema) -> (r: Result<
    Batch,
    SparkXError,
>)
    requires
        batch.wf(),
    ensures
        batch_outcome(r) == projected(batch@, expr_views(exprs@), schema@),
        r matches Ok(next) ==> next.wf(),
{
    match evaluate_all(exprs, batch) {
        Ok(columns) => Batch::try_new(schema.clone(), columns, None),
        Err(error) => Err(error),
    }
}

/// The places among the first `upto` cells that are true.
pub open spec fn true_places(cells: Seq<Option<bool>>, upto: int) -> Seq<int>
    decreases upto,
{
    if upto <= 0 {
        Seq::empty()
    } else if cells[upto - 1] == Some(true) {
        true_places(cells, upto - 1).push(upto - 1)
    } else {
        true_places(cells, upto - 1)
    }
}

/// A place stands in the list exactly where its cell is true, and the places ascend.
pub proof fn true_places_are_exact(cells: Seq<Option<bool>>, upto: int)
    requires
        0 <= upto <= cells.len(),
    ensures
        true_places(cells, upto).len() <= upto,
        forall|i: int|
            0 <= i < true_places(cells, upto).len() ==> 0 <= #[trigger] true_places(cells, upto)[i]
                < upto && cells[true_places(cells, upto)[i]] == Some(true),
        forall|i: int, j: int|
            0 <= i < j < true_places(cells, upto).len() ==> #[trigger] true_places(cells, upto)[i]
                < #[trigger] true_places(cells, upto)[j],
        forall|row: int|
            0 <= row < upto && #[trigger] cells[row] == Some(true) ==> true_places(
                cells,
                upto,
            ).contains(row),
    decreases upto,
{
    if upto > 0 {
        true_places_are_exact(cells, upto - 1);
        let before = true_places(cells, upto - 1);
        let now = true_places(cells, upto);
        assert forall|row: int| 0 <= row < upto && #[trigger] cells[row] == Some(
            true,
        ) implies now.contains(row) by {
            if row == upto - 1 {
                assert(now[now.len() - 1] == row);
            } else {
                assert(before.contains(row));
                let i = choose|i: int| 0 <= i < before.len() && before[i] == row;
                assert(now[i] == row);
            }
        }
    }
}

/// The rows of a batch of which a predicate is true, or why there are none.
pub open spec fn filtered(batch: BatchView, predicate: ExprView) -> Result<BatchView, ErrorView> {
    match predicate.value(batch) {
        Err(error) => Err(error),
        Ok(ColumnView::Boolean(cells)) => Ok(
            batch.taken(true_places(cells, cells.len() as int)),
        ),
        Ok(_) => Err(
            ErrorView::Execution("filter predicate did not produce Boolean values"@),
        ),
    }
}

fn true_rows(cells: &Vec<Option<bool>>) -> (r: Vec<Option<usize>>)
    ensures
        row_numbers(r@) == true_places(cells@, cells.len() as int),
        rows_within(r@, cells.len() as nat),
{
    let mut rows: Vec<Option<usize>> = Vec::new();
    proof {
        assert(row_numbers(rows@) =~= Seq::empty());
    }
    for i in 0..cells.len()
        invariant
            row_numbers(rows@) == true_places(cells@, i as int),
            rows_within(rows@, cells.len() as nat),
    {
        let ghost before = row_numbers(rows@);
        if let Some(true) = cells[i] {
            rows.push(Some(i));
            proof {
                assert(row_numbers(rows@) =~= before.push(i as int));
            }
        }
    }
    rows
}

/// The rows of a batch of which a predicate is true, in their order.
pub fn filter_batch(batch: &Batch, predicate: &Expr) -> (r: Result<Batch, SparkXError>)
    requires
        batch.wf(),
    ensures
        batch_outcome(r) == filtered(batch@, predicate@),
        r matches Ok(next) ==> next.wf(),
{
    match evaluate(predicate, batch) {
        Err(error) => Err(error),
        Ok(Column::Boolean(cells)) => Ok(batch.take(&true_rows(&cells))),
        Ok(_) => Err(
            SparkXError::execution("filter predicate did not produce Boolean values".to_owned()),
        ),
    }
}

/// The rows of a batch of which the first `upto` predicates are true.
pub open spec fn filtered_by_all(batch: BatchView, predicates: Seq<ExprView>, upto: int) -> Result<
    BatchView,
    ErrorView,
>
    decreases upto,
{
    if upto <= 0 {
        Ok(batch)
    } else {
        match filtered_by_all(batch, predicates, upto - 1) {
            Err(error) => Err(error),
            Ok(rest) => filtered(rest, predicates[upto - 1]),
        }
    }
}

proof fn filtering_fails_early(batch: BatchView, predicates: Seq<ExprView>, upto: int, full: int)
    requires
        0 <= upto <= full,
        filtered_by_all(batch, predicates, upto) is Err,
    ensures
        filtered_by_all(batch, predicates, full) == filtered_by_all(batch, predicates, upto),
    decreases full - upto,
{
    if upto < full {
        filtering_fails_early(batch, predicates, upto, full - 1);
    }
}

/// The rows of a scanned batch of which every predicate is true.
pub fn filter_scanned(batch: &Batch, predicates: &Vec<Expr>) -> (r: Result<Batch, SparkXError>)
    requires
        batch.wf(),
    ensures
        batch_outcome(r) == filtered_by_all(
            batch@,
            expr_views(predicates@),
            predicates.len() as int,
        ),
        r matches Ok(next) ==> next.wf(),
{
    let ghost views = expr_views(predicates@);
    let mut current = batch.clone();
    for i in 0..predicates.len()
        invariant
            views == expr_views(predicates@),
            current.wf(),
            filtered_by_all(batch@, views, i as int) == Ok::<BatchView, ErrorView>(current@),
    {
        proof {
            assert(views[i as int] == predicates@[i as int]@);
        }
        match filter_batch(&current, &predicates[i]) {
            Ok(next) => {
                current = next;
            },
            Err(error) => {
                proof {
                    filtering_fails_early(batch@, views, i + 1, predicates.len() as int);
                }
                return Err(error);
            },
        }
    }
    Ok(current)
}

/// How many rows of a batch stay under a limit.
pub open spec fn rows_kept(batch: BatchView, remaining: int) -> int {
    if remaining < batch.rows {
        remaining
    } else {
        batch.rows as int
    }
}

/// The first rows of a batch.
pub open spec fn first_rows(batch: BatchView, count: int) -> BatchView {
    batch.taken(Seq::new(count as nat, |i: int| i))
}

/// What a limit lets through of a batch, and how many rows more it lets through after that. A
/// batch of which nothing is let through is none.
pub fn limit_batch(batch: &Batch, remaining: usize) -> (r: (Option<Batch>, usize))
    requires
        batch.wf(),
    ensures
        r.1 == remaining - rows_kept(batch@, remaining as int),
        match r.0 {
            Some(next) => {
                &&& next.wf()
                &&& rows_kept(batch@, remaining as int) > 0
                &&& next@ == first_rows(batch@, rows_kept(batch@, remaining as int))
            },
            None => rows_kept(batch@, remaining as int) == 0,
        },
{
    let rows: usize = batch.num_rows();
    let take: usize = if remaining < rows {
        remaining
    } else {
        rows
    };
    if take == 0 {
        return (None, remaining);
    }
    (Some(batch.head(take)), remaining - take)
}

/// The batches that a limit lets through of the first `upto`.
pub open spec fn limited(batches: Seq<BatchView>, limit: int, upto: int) -> Seq<BatchView>
    decreases upto,
{
    if upto <= 0 {
        Seq::empty()
    } else {
        let before = limited(batches, limit, upto - 1);
        let kept = rows_kept(batches[upto - 1], remaining_after(batches, limit, upto - 1));
        if kept > 0 {
            before.push(first_rows(batches[upto - 1], kept))
        } else {
            before
        }
    }
}

/// How many rows a limit lets through after the first `upto` batches.
pub open spec fn remaining_after(batches: Seq<BatchView>, limit: int, upto: int) -> int
    decreases upto,
{
    if upto <= 0 {
        limit
    } else {
        let remaining = remaining_after(batches, limit, upto - 1);
        remaining - rows_kept(batches[upto - 1], remaining)
    }
}

/// A limit lets through as many rows as there are, and no more than the limit.
pub proof fn a_limit_keeps_the_first_rows(batches: Seq<BatchView>, limit: nat, upto: int)
    requires
        0 <= upto <= batches.len(),
    ensures
        ({
            let total = crate::execution::concat::total_rows(batches, upto);
            let out = limited(batches, limit as int, upto);
            let kept = if limit < total {
                limit
            } else {
                total
            };
            &&& crate::execution::concat::total_rows(out, out.len() as int) == kept
            &&& remaining_after(batches, limit as int, upto) == limit - kept
        }),
    decreases upto,
{
    if upto > 0 {
        a_limit_keeps_the_first_rows(batches, limit, upto - 1);
        let before = limited(batches, limit as int, upto - 1);
        let out = limited(batches, limit as int, upto);
        if out.len() > before.len() {
            same_rows(out, before, before.len() as int);
        }
    }
}

proof fn same_rows(longer: Seq<BatchView>, shorter: Seq<BatchView>, upto: int)
    requires
        0 <= upto <= shorter.len() <= longer.len(),
        forall|i: int| 0 <= i < shorter.len() ==> #[trigger] longer[i] == shorter[i],
    ensures
        crate::execution::concat::total_rows(longer, upto)
            == crate::execution::concat::total_rows(shorter, upto),
    decreases upto,
{
    if upto > 0 {
        same_rows(longer, shorter, upto - 1);
    }
}

} // verus!

//! Joining two inputs by equal keys.

use crate::batch::{batch_outcome, batch_views, Batch, BatchView};
use crate::column::{column_views, ColumnView};
use crate::error::{ErrorView, SparkXError};
use crate::execution::aggregate::same_key;
use crate::execution::rows::{
    batch_of_rows, computed, evaluate_all, read_batch_row, read_row, row_values, rows_to_batch,
    rows_views,
};
use crate::expr::{expr_views, Expr, ExprView};
use crate::logical::JoinType;
use crate::scalar::{scalar_views, ScalarValue, ScalarView};
use crate::types::{Schema, SchemaView};
use vstd::prelude::*;

verus! {

/// A row with the values of its keys.
pub struct KeyedRow {
    pub key: Vec<ScalarValue>,
    pub values: Vec<ScalarValue>,
}

pub struct KeyedView {
    pub key: Seq<ScalarView>,
    pub values: Seq<ScalarView>,
}

impl View for KeyedRow {
    type V = KeyedView;

    open spec fn view(&self) -> KeyedView {
        KeyedView { key: scalar_views(self.key@), values: scalar_views(self.values@) }
    }
}

pub open spec fn keyed_views(rows: Seq<KeyedRow>) -> Seq<KeyedView> {
    Seq::new(rows.len(), |i: int| rows[i]@)
}

/// Whether a key holds a NULL, with which no key is equal.
pub open spec fn has_null_key(key: Seq<ScalarView>) -> bool {
    exists|i: int| 0 <= i < key.len() && (#[trigger] key[i]) is Null
}

/// The rows among the first `upto` of a batch that can have a partner, after those before them.
pub open spec fn built_rows(
    before: Seq<KeyedView>,
    keys: Seq<ColumnView>,
    batch: BatchView,
    upto: int,
) -> Result<Seq<KeyedView>, ErrorView>
    decreases upto,
{
    if upto <= 0 {
        Ok(before)
    } else {
        match built_rows(before, keys, batch, upto - 1) {
            Err(error) => Err(error),
            Ok(rows) => match row_values(keys, upto - 1, keys.len() as int) {
                Err(error) => Err(error),
                Ok(key) => if has_null_key(key) {
                    Ok(rows)
                } else {
                    match row_values(batch.columns, upto - 1, batch.columns.len() as int) {
                        Err(error) => Err(error),
                        Ok(values) => Ok(rows.push(KeyedView { key, values })),
                    }
                },
            },
        }
    }
}

proof fn building_rows_fails_early(
    before: Seq<KeyedView>,
    keys: Seq<ColumnView>,
    batch: BatchView,
    upto: int,
    full: int,
)
    requires
        0 <= upto <= full,
        built_rows(before, keys, batch, upto) is Err,
    ensures
        built_rows(before, keys, batch, full) == built_rows(before, keys, batch, upto),
    decreases full - upto,
{
    if upto < full {
        building_rows_fails_early(before, keys, batch, upto, full - 1);
    }
}

/// The rows of the first `upto` batches of the right side that can have a partner.
pub open spec fn built(batches: Seq<BatchView>, on: Seq<ExprView>, upto: int) -> Result<
    Seq<KeyedView>,
    ErrorView,
>
    decreases upto,
{
    if upto <= 0 {
        Ok(Seq::empty())
    } else {
        match built(batches, on, upto - 1) {
            Err(error) => Err(error),
            Ok(rows) => match computed(on, batches[upto - 1], on.len() as int) {
                Err(error) => Err(error),
                Ok(keys) => built_rows(
                    rows,
                    keys,
                    batches[upto - 1],
                    batches[upto - 1].rows as int,
                ),
            },
        }
    }
}

proof fn building_fails_early(batches: Seq<BatchView>, on: Seq<ExprView>, upto: int, full: int)
    requires
        0 <= upto <= full,
        built(batches, on, upto) is Err,
    ensures
        built(batches, on, full) == built(batches, on, upto),
    decreases full - upto,
{
    if upto < full {
        building_fails_early(batches, on, upto, full - 1);
    }
}

/// A row of the left side with each of the first `upto` rows of the right side that has its key.
pub open spec fn pairs(
    values: Seq<ScalarView>,
    key: Seq<ScalarView>,
    right: Seq<KeyedView>,
    upto: int,
) -> Seq<Seq<ScalarView>>
    decreases upto,
{
    if upto <= 0 {
        Seq::empty()
    } else if right[upto - 1].key == key {
        pairs(values, key, right, upto - 1).push(values + right[upto - 1].values)
    } else {
        pairs(values, key, right, upto - 1)
    }
}

pub open spec fn nulls(count: nat) -> Seq<ScalarView> {
    Seq::new(count, |i: int| ScalarView::Null)
}

/// What a row of the left side gives: its pairs, or in a left join without any itself with NULLs.
pub open spec fn joined_row(
    values: Seq<ScalarView>,
    key: Seq<ScalarView>,
    right: Seq<KeyedView>,
    join_type: JoinType,
    right_width: nat,
) -> Seq<Seq<ScalarView>> {
    let found = pairs(values, key, right, right.len() as int);
    if found.len() == 0 && join_type == JoinType::Left {
        seq![values + nulls(right_width)]
    } else {
        found
    }
}

/// What the first `upto` rows of a batch of the left side give, after what came before.
pub open spec fn probed_rows(
    before: Seq<Seq<ScalarView>>,
    keys: Seq<ColumnView>,
    batch: BatchView,
    right: Seq<KeyedView>,
    join_type: JoinType,
    right_width: nat,
    upto: int,
) -> Result<Seq<Seq<ScalarView>>, ErrorView>
    decreases upto,
{
    if upto <= 0 {
        Ok(before)
    } else {
        match probed_rows(before, keys, batch, right, join_type, right_width, upto - 1) {
            Err(error) => Err(error),
            Ok(rows) => match row_values(keys, upto - 1, keys.len() as int) {
                Err(error) => Err(error),
                Ok(key) => match row_values(
                    batch.columns,
                    upto - 1,
                    batch.columns.len() as int,
                ) {
                    Err(error) => Err(error),
                    Ok(values) => Ok(rows + joined_row(values, key, right, join_type, right_width)),
                },
            },
        }
    }
}

proof fn probing_rows_fails_early(
    before: Seq<Seq<ScalarView>>,
    keys: Seq<ColumnView>,
    batch: BatchView,
    right: Seq<KeyedView>,
    join_type: JoinType,
    right_width: nat,
    upto: int,
    full: int,
)
    requires
        0 <= upto <= full,
        probed_rows(before, keys, batch, right, join_type, right_width, upto) is Err,
    ensures
        probed_rows(before, keys, batch, right, join_type, right_width, full) == probed_rows(
            before,
            keys,
            batch,
            right,
            join_type,
            right_width,
            upto,
        ),
    decreases full - upto,
{
    if upto < full {
        probing_rows_fails_early(
            before,
            keys,
            batch,
            right,
            join_type,
            right_width,
            upto,
            full - 1,
        );
    }
}

/// What the first `upto` batches of the left side give.
pub open spec fn probed(
    batches: Seq<BatchView>,
    on: Seq<ExprView>,
    right: Seq<KeyedView>,
    join_type: JoinType,
    right_width: nat,
    upto: int,
) -> Result<Seq<Seq<ScalarView>>, ErrorView>
    decreases upto,
{
    if upto <= 0 {
        Ok(Seq::empty())
    } else {
        match probed(batches, on, right, join_type, right_width, upto - 1) {
            Err(error) => Err(error),
            Ok(rows) => match computed(on, batches[upto - 1], on.len() as int) {
                Err(error) => Err(error),
                Ok(keys) => probed_rows(
                    rows,
                    keys,
                    batches[upto - 1],
                    right,
                    join_type,
                    right_width,
                    batches[upto - 1].rows as int,
                ),
            },
        }
    }
}

proof fn probing_fails_early(
    batches: Seq<BatchView>,
    on: Seq<ExprView>,
    right: Seq<KeyedView>,
    join_type: JoinType,
    right_width: nat,
    upto: int,
    full: int,
)
    requires
        0 <= upto <= full,
        probed(batches, on, right, join_type, right_width, upto) is Err,
    ensures
        probed(batches, on, right, join_type, right_width, full) == probed(
            batches,
            on,
            right,
            join_type,
            right_width,
            upto,
        ),
    decreases full - upto,
{
    if upto < full {
        probing_fails_early(batches, on, right, join_type, right_width, upto, full - 1);
    }
}

/// The number of columns of the first batch.
pub open spec fn first_width(batches: Seq<BatchView>) -> nat {
    if batches.len() == 0 {
        0
    } else {
        batches[0].columns.len()
    }
}

/// How many columns come from the right side.
pub open spec fn right_width_of(
    left: Seq<BatchView>,
    right: Seq<BatchView>,
    schema: SchemaView,
) -> nat {
    if right.len() > 0 {
        first_width(right)
    } else if first_width(left) < schema.fields.len() {
        (schema.fields.len() - first_width(left)) as nat
    } else {
        0
    }
}

/// Whether every pair of rows of two inputs fits a schema.
pub open spec fn rows_fit(
    left: Seq<BatchView>,
    right: Seq<BatchView>,
    join_type: JoinType,
    schema: SchemaView,
) -> bool {
    &&& forall|i: int, k: int|
        0 <= i < left.len() && 0 <= k < right.len() ==> (#[trigger] left[i]).columns.len() + (
        #[trigger] right[k]).columns.len() <= schema.fields.len()
    &&& join_type == JoinType::Left ==> forall|i: int|
        0 <= i < left.len() ==> (#[trigger] left[i]).columns.len() + right_width_of(
            left,
            right,
            schema,
        ) <= schema.fields.len()
}

/// The batch that a join gives, or why there is none: for each row of the left side, in order, a
/// row with each row of the right side that has its key, in order.
pub open spec fn joined(
    left: Seq<BatchView>,
    right: Seq<BatchView>,
    join_type: JoinType,
    left_on: Seq<ExprView>,
    right_on: Seq<ExprView>,
    schema: SchemaView,
) -> Result<BatchView, ErrorView> {
    match built(right, right_on, right.len() as int) {
        Err(error) => Err(error),
        Ok(rows) => match probed(
            left,
            left_on,
            rows,
            join_type,
            right_width_of(left, right, schema),
            left.len() as int,
        ) {
            Err(error) => Err(error),
            Ok(found) => batch_of_rows(found, schema.fields.len(), schema),
        },
    }
}

fn holds_null(key: &Vec<ScalarValue>) -> (r: bool)
    ensures
        r == has_null_key(scalar_views(key@)),
{
    let ghost views = scalar_views(key@);
    for i in 0..key.len()
        invariant
            views == scalar_views(key@),
            forall|k: int| 0 <= k < i ==> !((#[trigger] views[k]) is Null),
    {
        proof {
            assert(views[i as int] == key@[i as int]@);
        }
        if key[i].is_null() {
            return true;
        }
    }
    false
}

pub open spec fn keyed_outcome(r: Result<Vec<KeyedRow>, SparkXError>) -> Result<
    Seq<KeyedView>,
    ErrorView,
> {
    match r {
        Ok(rows) => Ok(keyed_views(rows@)),
        Err(error) => Err(error@),
    }
}

fn build_batch(before: Vec<KeyedRow>, on: &Vec<Expr>, batch: &Batch) -> (r: Result<
    Vec<KeyedRow>,
    SparkXError,
>)
    requires
        batch.wf(),
    ensures
        keyed_outcome(r) == (match computed(expr_views(on@), batch@, on.len() as int) {
            Err(error) => Err(error),
            Ok(keys) => built_rows(keyed_views(before@), keys, batch@, batch@.rows as int),
        }),
{
    let keys = match evaluate_all(on, batch) {
        Ok(keys) => keys,
        Err(error) => return Err(error),
    };
    let ghost first = keyed_views(before@);
    let ghost columns = column_views(keys@);
    let mut rows = before;
    let count: usize = batch.num_rows();
    for row in 0..count
        invariant
            batch.wf(),
            count == batch@.rows,
            columns == column_views(keys@),
            first == keyed_views(before@),
            computed(expr_views(on@), batch@, on.len() as int) == Ok::<Seq<ColumnView>, ErrorView>(
                columns,
            ),
            forall|i: int| 0 <= i < keys.len() ==> (#[trigger] keys@[i])@.len() == count,
            built_rows(first, columns, batch@, row as int) == Ok::<Seq<KeyedView>, ErrorView>(
                keyed_views(rows@),
            ),
    {
        let ghost so_far = keyed_views(rows@);
        let key = match read_row(&keys, row) {
            Ok(key) => key,
            Err(error) => {
                proof {
                    building_rows_fails_early(first, columns, batch@, row + 1, count as int);
                }
                return Err(error);
            },
        };
        if !holds_null(&key) {
            match read_batch_row(batch, row) {
                Ok(values) => {
                    let keyed = KeyedRow { key, values };
                    let ghost view = keyed@;
                    rows.push(keyed);
                    proof {
                        assert(keyed_views(rows@) =~= so_far.push(view));
                    }
                },
                Err(error) => {
                    proof {
                        building_rows_fails_early(first, columns, batch@, row + 1, count as int);
                    }
                    return Err(error);
                },
            }
        }
    }
    Ok(rows)
}

fn build(batches: &Vec<Batch>, on: &Vec<Expr>) -> (r: Result<Vec<KeyedRow>, SparkXError>)
    requires
        forall|i: int| 0 <= i < batches.len() ==> (#[trigger] batches@[i]).wf(),
    ensures
        keyed_outcome(r) == built(batch_views(batches@), expr_views(on@), batches.len() as int),
{
    let ghost views = batch_views(batches@);
    let ghost exprs = expr_views(on@);
    let mut rows: Vec<KeyedRow> = Vec::new();
    proof {
        assert(keyed_views(rows@) =~= Seq::empty());
    }
    for i in 0..batches.len()
        invariant
            forall|i: int| 0 <= i < batches.len() ==> (#[trigger] batches@[i]).wf(),
            views == batch_views(batches@),
            exprs == expr_views(on@),
            built(views, exprs, i as int) == Ok::<Seq<KeyedView>, ErrorView>(keyed_views(rows@)),
    {
        proof {
            assert(views[i as int] == batches@[i as int]@);
        }
        match build_batch(rows, on, &batches[i]) {
            Ok(next) => {
                rows = next;
            },
            Err(error) => {
                proof {
                    building_fails_early(views, exprs, i + 1, batches.len() as int);
                }
                return Err(error);
            },
        }
    }
    Ok(rows)
}

fn paired(left: &Vec<ScalarValue>, right: &Vec<ScalarValue>) -> (r: Vec<ScalarValue>)
    ensures
        scalar_views(r@) == scalar_views(left@) + scalar_views(right@),
{
    let mut row: Vec<ScalarValue> = Vec::new();
    for i in 0..left.len()
        invariant
            row.len() == i,
            forall|k: int| 0 <= k < i ==> (#[trigger] row@[k])@ == left@[k]@,
    {
        row.push(left[i].clone());
    }
    for i in 0..right.len()
        invariant
            row.len() == left.len() + i,
            forall|k: int|
                0 <= k < row.len() ==> (#[trigger] row@[k])@ == (if k < left.len() {
                    left@[k]@
                } else {
                    right@[k - left.len()]@
                }),
    {
        row.push(right[i].clone());
    }
    proof {
        assert(scalar_views(row@) =~= scalar_views(left@) + scalar_views(right@));
    }
    row
}

fn with_nulls(left: &Vec<ScalarValue>, count: usize) -> (r: Vec<ScalarValue>)
    ensures
        scalar_views(r@) == scalar_views(left@) + nulls(count as nat),
{
    let mut more: Vec<ScalarValue> = Vec::new();
    for i in 0..count
        invariant
            more.len() == i,
            forall|k: int| 0 <= k < i ==> (#[trigger] more@[k])@ == ScalarView::Null,
    {
        more.push(ScalarValue::Null);
    }
    proof {
        assert(scalar_views(more@) =~= nulls(count as nat));
    }
    paired(left, &more)
}

pub open spec fn output_outcome(r: Result<Vec<Vec<ScalarValue>>, SparkXError>) -> Result<
    Seq<Seq<ScalarView>>,
    ErrorView,
> {
    match r {
        Ok(rows) => Ok(rows_views(rows@)),
        Err(error) => Err(error@),
    }
}

/// Adds what a row of the left side gives.
fn probe_row(
    output: Vec<Vec<ScalarValue>>,
    values: &Vec<ScalarValue>,
    key: &Vec<ScalarValue>,
    right: &Vec<KeyedRow>,
    join_type: JoinType,
    right_width: usize,
) -> (r: Vec<Vec<ScalarValue>>)
    ensures
        rows_views(r@) == rows_views(output@) + joined_row(
            scalar_views(values@),
            scalar_views(key@),
            keyed_views(right@),
            join_type,
            right_width as nat,
        ),
{
    let ghost first = rows_views(output@);
    let ghost rights = keyed_views(right@);
    let ghost value_views = scalar_views(values@);
    let ghost key_views = scalar_views(key@);
    let mut rows = output;
    let mut found: bool = false;
    proof {
        assert(rows_views(rows@) =~= first + Seq::empty());
    }
    for i in 0..right.len()
        invariant
            rights == keyed_views(right@),
            value_views == scalar_views(values@),
            key_views == scalar_views(key@),
            rows_views(rows@) == first + pairs(value_views, key_views, rights, i as int),
            found == (pairs(value_views, key_views, rights, i as int).len() > 0),
    {
        let ghost before = rows_views(rows@);
        proof {
            assert(rights[i as int] == right@[i as int]@);
        }
        if same_key(&right[i].key, key) {
            let row = paired(values, &right[i].values);
            let ghost view = scalar_views(row@);
            rows.push(row);
            found = true;
            proof {
                assert(rows_views(rows@) =~= before.push(view));
                assert(before.push(view) =~= first + pairs(
                    value_views,
                    key_views,
                    rights,
                    i as int,
                ).push(view));
            }
        }
    }
    if !found && join_type == JoinType::Left {
        let ghost before = rows_views(rows@);
        let row = with_nulls(values, right_width);
        let ghost view = scalar_views(row@);
        rows.push(row);
        proof {
            assert(before =~= first);
            assert(rows_views(rows@) =~= before.push(view));
            assert(before.push(view) =~= first + seq![view]);
        }
    }
    rows
}

fn probe_batch(
    output: Vec<Vec<ScalarValue>>,
    on: &Vec<Expr>,
    batch: &Batch,
    right: &Vec<KeyedRow>,
    join_type: JoinType,
    right_width: usize,
) -> (r: Result<Vec<Vec<ScalarValue>>, SparkXError>)
    requires
        batch.wf(),
    ensures
        output_outcome(r) == (match computed(expr_views(on@), batch@, on.len() as int) {
            Err(error) => Err(error),
            Ok(keys) => probed_rows(
                rows_views(output@),
                keys,
                batch@,
                keyed_views(right@),
                join_type,
                right_width as nat,
                batch@.rows as int,
            ),
        }),
{
    let keys = match evaluate_all(on, batch) {
        Ok(keys) => keys,
        Err(error) => return Err(error),
    };
    let ghost first = rows_views(output@);
    let ghost columns = column_views(keys@);
    let ghost rights = keyed_views(right@);
    let mut rows = output;
    let count: usize = batch.num_rows();
    for row in 0..count
        invariant
            batch.wf(),
            count == batch@.rows,
            columns == column_views(keys@),
            first == rows_views(output@),
            rights == keyed_views(right@),
            computed(expr_views(on@), batch@, on.len() as int) == Ok::<Seq<ColumnView>, ErrorView>(
                columns,
            ),
            forall|i: int| 0 <= i < keys.len() ==> (#[trigger] keys@[i])@.len() == count,
            probed_rows(
                first,
                columns,
                batch@,
                rights,
                join_type,
                right_width as nat,
                row as int,
            ) == Ok::<Seq<Seq<ScalarView>>, ErrorView>(rows_views(rows@)),
    {
        let key = match read_row(&keys, row) {
            Ok(key) => key,
            Err(error) => {
                proof {
                    probing_rows_fails_early(
                        first,
                        columns,
                        batch@,
                        rights,
                        join_type,
                        right_width as nat,
                        row + 1,
                        count as int,
                    );
                }
                return Err(error);
            },
        };
        let values = match read_batch_row(batch, row) {
            Ok(values) => values,
            Err(error) => {
                proof {
                    probing_rows_fails_early(
                        first,
                        columns,
                        batch@,
                        rights,
                        join_type,
                        right_width as nat,
                        row + 1,
                        count as int,
                    );
                }
                return Err(error);
            },
        };
        rows = probe_row(rows, &values, &key, right, join_type, right_width);
    }
    Ok(rows)
}

/// The rows of two inputs with equal keys side by side, as a batch of a schema.
pub fn hash_join(
    left_batches: &Vec<Batch>,
    right_batches: &Vec<Batch>,
    join_type: JoinType,
    left_on: &Vec<Expr>,
    right_on: &Vec<Expr>,
    schema: &Schema,
) -> (r: Result<Batch, SparkXError>)
    requires
        forall|i: int| 0 <= i < left_batches.len() ==> (#[trigger] left_batches@[i]).wf(),
        forall|i: int| 0 <= i < right_batches.len() ==> (#[trigger] right_batches@[i]).wf(),
        rows_fit(batch_views(left_batches@), batch_views(right_batches@), join_type, schema@),
    ensures
        batch_outcome(r) == joined(
            batch_views(left_batches@),
            batch_views(right_batches@),
            join_type,
            expr_views(left_on@),
            expr_views(right_on@),
            schema@,
        ),
        r matches Ok(batch) ==> batch.wf(),
{
    let ghost left = batch_views(left_batches@);
    let ghost right = batch_views(right_batches@);
    let ghost exprs = expr_views(left_on@);
    let right_width: usize = if right_batches.len() > 0 {
        proof {
            assert(right[0] == right_batches@[0]@);
        }
        right_batches[0].num_columns()
    } else {
        let left_width: usize = if left_batches.len() > 0 {
            proof {
                assert(left[0] == left_batches@[0]@);
            }
            left_batches[0].num_columns()
        } else {
            0
        };
        let width: usize = schema.fields.len();
        if left_width < width {
            width - left_width
        } else {
            0
        }
    };
    let build_rows = match build(right_batches, right_on) {
        Ok(rows) => rows,
        Err(error) => return Err(error),
    };
    let ghost rights = keyed_views(build_rows@);
    let mut output: Vec<Vec<ScalarValue>> = Vec::new();
    proof {
        assert(rows_views(output@) =~= Seq::empty());
        assert(right_width == right_width_of(left, right, schema@));
    }
    for i in 0..left_batches.len()
        invariant
            forall|i: int| 0 <= i < left_batches.len() ==> (#[trigger] left_batches@[i]).wf(),
            left == batch_views(left_batches@),
            right == batch_views(right_batches@),
            exprs == expr_views(left_on@),
            rights == keyed_views(build_rows@),
            right_width == right_width_of(left, right, schema@),
            built(right, expr_views(right_on@), right.len() as int) == Ok::<
                Seq<KeyedView>,
                ErrorView,
            >(rights),
            probed(left, exprs, rights, join_type, right_width as nat, i as int) == Ok::<
                Seq<Seq<ScalarView>>,
                ErrorView,
            >(rows_views(output@)),
    {
        proof {
            assert(left[i as int] == left_batches@[i as int]@);
        }
        match probe_batch(output, left_on, &left_batches[i], &build_rows, join_type, right_width) {
            Ok(next) => {
                output = next;
            },
            Err(error) => {
                proof {
                    probing_fails_early(
                        left,
                        exprs,
                        rights,
                        join_type,
                        right_width as nat,
                        i + 1,
                        left_batches.len() as int,
                    );
                }
                return Err(error);
            },
        }
    }
    rows_to_batch(&output, schema.fields.len(), schema)
}

/// A row whose key holds a NULL has no partner.
pub proof fn null_keys_have_no_partner(
    batches: Seq<BatchView>,
    on: Seq<ExprView>,
    values: Seq<ScalarView>,
    key: Seq<ScalarView>,
)
    requires
        has_null_key(key),
    ensures
        built(batches, on, batches.len() as int) matches Ok(rows) ==> pairs(
            values,
            key,
            rows,
            rows.len() as int,
        ).len() == 0,
{
    built_keys_hold_no_null(batches, on, batches.len() as int);
    if let Ok(rows) = built(batches, on, batches.len() as int) {
        no_pairs(values, key, rows, rows.len() as int);
    }
}

proof fn no_pairs(
    values: Seq<ScalarView>,
    key: Seq<ScalarView>,
    right: Seq<KeyedView>,
    upto: int,
)
    requires
        0 <= upto <= right.len(),
        has_null_key(key),
        forall|i: int| 0 <= i < right.len() ==> !has_null_key((#[trigger] right[i]).key),
    ensures
        pairs(values, key, right, upto).len() == 0,
    decreases upto,
{
    if upto > 0 {
        no_pairs(values, key, right, upto - 1);
    }
}

proof fn built_keys_hold_no_null(batches: Seq<BatchView>, on: Seq<ExprView>, upto: int)
    requires
        0 <= upto <= batches.len(),
    ensures
        built(batches, on, upto) matches Ok(rows) ==> forall|i: int|
            0 <= i < rows.len() ==> !has_null_key((#[trigger] rows[i]).key),
    decreases upto,
{
    if upto > 0 {
        built_keys_hold_no_null(batches, on, upto - 1);
        if let Ok(before) = built(batches, on, upto - 1) {
            if let Ok(keys) = computed(on, batches[upto - 1], on.len() as int) {
                built_rows_hold_no_null(
                    before,
                    keys,
                    batches[upto - 1],
                    batches[upto - 1].rows as int,
                );
            }
        }
    }
}

proof fn built_rows_hold_no_null(
    before: Seq<KeyedView>,
    keys: Seq<ColumnView>,
    batch: BatchView,
    upto: int,
)
    requires
        forall|i: int| 0 <= i < before.len() ==> !has_null_key((#[trigger] before[i]).key),
    ensures
        built_rows(before, keys, batch, upto) matches Ok(rows) ==> forall|i: int|
            0 <= i < rows.len() ==> !has_null_key((#[trigger] rows[i]).key),
    decreases upto,
{
    if upto > 0 {
        built_rows_hold_no_null(before, keys, batch, upto - 1);
    }
}

} // verus!

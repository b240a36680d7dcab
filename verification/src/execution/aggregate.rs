//! Aggregation by groups.

use crate::batch::{batch_outcome, batch_views, Batch, BatchView};
use crate::cells::{cell_value, value_at};
use crate::column::{column_views, Column, ColumnView};
use crate::error::{ErrorView, SparkXError};
use crate::evaluate::evaluate;
use crate::execution::concat::{total_rows, total_rows_grow};
use crate::execution::rows::{
    batch_of_rows, computed, evaluate_all, read_row, row_values, rows_to_batch, rows_views,
};
use crate::execution::state::{
    updates_stay_within, AggregateState, StateView, MAX_VALUES,
};
use crate::expr::{expr_views, AggregateFunction, Expr, ExprView};
use crate::scalar::{scalar_views, ScalarValue, ScalarView};
use crate::text::{join, Relation};
use crate::types::{Schema, SchemaView};
use vstd::prelude::*;

verus! {

/// A call of an aggregate function.
pub struct AggregateCall {
    pub function: AggregateFunction,
    pub expr: Expr,
    pub distinct: bool,
}

pub struct CallView {
    pub function: AggregateFunction,
    pub expr: ExprView,
    pub distinct: bool,
}

impl View for AggregateCall {
    type V = CallView;

    open spec fn view(&self) -> CallView {
        CallView { function: self.function, expr: self.expr@, distinct: self.distinct }
    }
}

pub open spec fn call_views(calls: Seq<AggregateCall>) -> Seq<CallView> {
    Seq::new(calls.len(), |i: int| calls[i]@)
}

/// The call that an expression is, or the error where it is none.
pub open spec fn call_of(expr: ExprView) -> Result<CallView, ErrorView> {
    match expr.unalias() {
        ExprView::Aggregate { function, expr: argument, distinct } => Ok(
            CallView { function, expr: *argument, distinct },
        ),
        other => Err(
            ErrorView::Planning("expected aggregate expression, got "@ + other.text()),
        ),
    }
}

/// The calls that the first `upto` expressions are.
pub open spec fn calls_of(exprs: Seq<ExprView>, upto: int) -> Result<Seq<CallView>, ErrorView>
    decreases upto,
{
    if upto <= 0 {
        Ok(Seq::empty())
    } else {
        match calls_of(exprs, upto - 1) {
            Err(error) => Err(error),
            Ok(calls) => match call_of(exprs[upto - 1]) {
                Err(error) => Err(error),
                Ok(call) => Ok(calls.push(call)),
            },
        }
    }
}

proof fn calls_fail_early(exprs: Seq<ExprView>, upto: int, full: int)
    requires
        0 <= upto <= full,
        calls_of(exprs, upto) is Err,
    ensures
        calls_of(exprs, full) == calls_of(exprs, upto),
    decreases full - upto,
{
    if upto < full {
        calls_fail_early(exprs, upto, full - 1);
    }
}

fn aggregate_spec(expr: &Expr) -> (r: Result<AggregateCall, SparkXError>)
    ensures
        match r {
            Ok(call) => call_of(expr@) == Ok::<CallView, ErrorView>(call@),
            Err(error) => call_of(expr@) == Err::<CallView, ErrorView>(error@),
        },
{
    match expr.unalias() {
        Expr::Aggregate { function, expr: argument, distinct } => Ok(
            AggregateCall { function: *function, expr: (**argument).clone(), distinct: *distinct },
        ),
        other => Err(
            SparkXError::planning(
                join("expected aggregate expression, got ", other.to_text().as_str()),
            ),
        ),
    }
}

pub fn aggregate_specs(exprs: &Vec<Expr>) -> (r: Result<Vec<AggregateCall>, SparkXError>)
    ensures
        match r {
            Ok(calls) => calls_of(expr_views(exprs@), exprs.len() as int) == Ok::<
                Seq<CallView>,
                ErrorView,
            >(call_views(calls@)) && calls.len() == exprs.len(),
            Err(error) => calls_of(expr_views(exprs@), exprs.len() as int) == Err::<
                Seq<CallView>,
                ErrorView,
            >(error@),
        },
{
    let ghost views = expr_views(exprs@);
    let mut calls: Vec<AggregateCall> = Vec::new();
    proof {
        assert(call_views(calls@) =~= Seq::empty());
    }
    for i in 0..exprs.len()
        invariant
            views == expr_views(exprs@),
            calls.len() == i,
            calls_of(views, i as int) == Ok::<Seq<CallView>, ErrorView>(call_views(calls@)),
    {
        let ghost before = call_views(calls@);
        proof {
            assert(views[i as int] == exprs@[i as int]@);
        }
        match aggregate_spec(&exprs[i]) {
            Ok(call) => {
                calls.push(call);
                proof {
                    assert(call_views(calls@) =~= before.push(calls@[i as int]@));
                }
            },
            Err(error) => {
                proof {
                    calls_fail_early(views, i + 1, exprs.len() as int);
                }
                return Err(error);
            },
        }
    }
    Ok(calls)
}

/// The column of a call's argument over a batch; `*` has none.
pub open spec fn argument_of(call: CallView, batch: BatchView) -> Result<
    Option<ColumnView>,
    ErrorView,
> {
    match call.expr {
        ExprView::Wildcard => Ok(None),
        expr => match expr.value(batch) {
            Ok(column) => Ok(Some(column)),
            Err(error) => Err(error),
        },
    }
}

/// The columns of the arguments of the first `upto` calls.
pub open spec fn arguments_of(calls: Seq<CallView>, batch: BatchView, upto: int) -> Result<
    Seq<Option<ColumnView>>,
    ErrorView,
>
    decreases upto,
{
    if upto <= 0 {
        Ok(Seq::empty())
    } else {
        match arguments_of(calls, batch, upto - 1) {
            Err(error) => Err(error),
            Ok(columns) => match argument_of(calls[upto - 1], batch) {
                Err(error) => Err(error),
                Ok(column) => Ok(columns.push(column)),
            },
        }
    }
}

proof fn arguments_fail_early(calls: Seq<CallView>, batch: BatchView, upto: int, full: int)
    requires
        0 <= upto <= full,
        arguments_of(calls, batch, upto) is Err,
    ensures
        arguments_of(calls, batch, full) == arguments_of(calls, batch, upto),
    decreases full - upto,
{
    if upto < full {
        arguments_fail_early(calls, batch, upto, full - 1);
    }
}

pub open spec fn argument_view(column: Option<Column>) -> Option<ColumnView> {
    match column {
        Some(column) => Some(column@),
        None => None,
    }
}

pub open spec fn argument_views(columns: Seq<Option<Column>>) -> Seq<Option<ColumnView>> {
    Seq::new(columns.len(), |i: int| argument_view(columns[i]))
}

/// Whether every column has so many rows.
pub open spec fn arguments_reach(columns: Seq<Option<Column>>, rows: nat) -> bool {
    forall|i: int|
        0 <= i < columns.len() ==> (argument_view(#[trigger] columns[i]) matches Some(column)
            ==> column.len() == rows)
}

fn evaluate_arguments(calls: &Vec<AggregateCall>, batch: &Batch) -> (r: Result<
    Vec<Option<Column>>,
    SparkXError,
>)
    requires
        batch.wf(),
    ensures
        match r {
            Ok(columns) => {
                &&& arguments_of(call_views(calls@), batch@, calls.len() as int) == Ok::<
                    Seq<Option<ColumnView>>,
                    ErrorView,
                >(argument_views(columns@))
                &&& columns.len() == calls.len()
                &&& arguments_reach(columns@, batch@.rows)
            },
            Err(error) => arguments_of(call_views(calls@), batch@, calls.len() as int) == Err::<
                Seq<Option<ColumnView>>,
                ErrorView,
            >(error@),
        },
{
    let ghost views = call_views(calls@);
    let mut columns: Vec<Option<Column>> = Vec::new();
    proof {
        assert(argument_views(columns@) =~= Seq::empty());
    }
    for i in 0..calls.len()
        invariant
            batch.wf(),
            views == call_views(calls@),
            columns.len() == i,
            arguments_of(views, batch@, i as int) == Ok::<Seq<Option<ColumnView>>, ErrorView>(
                argument_views(columns@),
            ),
            arguments_reach(columns@, batch@.rows),
    {
        let ghost before = argument_views(columns@);
        proof {
            assert(views[i as int] == calls@[i as int]@);
        }
        let column = match &calls[i].expr {
            Expr::Wildcard => None,
            expr => match evaluate(expr, batch) {
                Ok(column) => Some(column),
                Err(error) => {
                    proof {
                        arguments_fail_early(views, batch@, i + 1, calls.len() as int);
                    }
                    return Err(error);
                },
            },
        };
        let ghost view = argument_view(column);
        columns.push(column);
        proof {
            assert(argument_views(columns@) =~= before.push(view));
        }
    }
    Ok(columns)
}

/// A group: the values that its rows share, and what each call made of those rows.
pub struct Group {
    pub key: Vec<ScalarValue>,
    pub states: Vec<AggregateState>,
}

pub struct GroupView {
    pub key: Seq<ScalarView>,
    pub states: Seq<StateView>,
}

pub open spec fn state_views(states: Seq<AggregateState>) -> Seq<StateView> {
    Seq::new(states.len(), |i: int| states[i]@)
}

impl View for Group {
    type V = GroupView;

    open spec fn view(&self) -> GroupView {
        GroupView { key: scalar_views(self.key@), states: state_views(self.states@) }
    }
}

pub open spec fn group_views(groups: Seq<Group>) -> Seq<GroupView> {
    Seq::new(groups.len(), |i: int| groups[i]@)
}

/// The states of the calls before any row.
pub open spec fn fresh_states(calls: Seq<CallView>) -> Seq<StateView> {
    Seq::new(calls.len(), |i: int| StateView::fresh(calls[i].function, calls[i].distinct))
}

fn new_states(calls: &Vec<AggregateCall>) -> (r: Vec<AggregateState>)
    ensures
        state_views(r@) == fresh_states(call_views(calls@)),
{
    let mut states: Vec<AggregateState> = Vec::new();
    for i in 0..calls.len()
        invariant
            states.len() == i,
            forall|k: int|
                0 <= k < i ==> (#[trigger] states@[k])@ == StateView::fresh(
                    calls@[k].function,
                    calls@[k].distinct,
                ),
    {
        states.push(AggregateState::new(calls[i].function, calls[i].distinct));
    }
    proof {
        assert(state_views(states@) =~= fresh_states(call_views(calls@)));
    }
    states
}

/// What a row gives to a call: the value of its argument, or something that is not NULL for `*`.
pub open spec fn given_value(argument: Option<ColumnView>, row: int) -> Result<
    ScalarView,
    ErrorView,
> {
    match argument {
        None => Ok(ScalarView::Boolean(true)),
        Some(column) => cell_value(column, row),
    }
}

/// The states after the first `upto` of them took a row.
pub open spec fn fed(
    states: Seq<StateView>,
    arguments: Seq<Option<ColumnView>>,
    row: int,
    upto: int,
) -> Result<Seq<StateView>, ErrorView>
    decreases upto,
{
    if upto <= 0 {
        Ok(states)
    } else {
        match fed(states, arguments, row, upto - 1) {
            Err(error) => Err(error),
            Ok(next) => match given_value(arguments[upto - 1], row) {
                Err(error) => Err(error),
                Ok(value) => match states[upto - 1].updated(value) {
                    Err(error) => Err(error),
                    Ok(state) => Ok(next.update(upto - 1, state)),
                },
            },
        }
    }
}

proof fn feeding_fails_early(
    states: Seq<StateView>,
    arguments: Seq<Option<ColumnView>>,
    row: int,
    upto: int,
    full: int,
)
    requires
        0 <= upto <= full,
        fed(states, arguments, row, upto) is Err,
    ensures
        fed(states, arguments, row, full) == fed(states, arguments, row, upto),
    decreases full - upto,
{
    if upto < full {
        feeding_fails_early(states, arguments, row, upto, full - 1);
    }
}

pub open spec fn states_within(states: Seq<StateView>, values: int) -> bool {
    forall|i: int| 0 <= i < states.len() ==> (#[trigger] states[i]).within(values)
}

proof fn more_is_within(state: StateView, values: int)
    requires
        state.within(values),
        0 <= values,
    ensures
        state.within(values + 1),
{
    assert((values + 1) * u64::MAX == values * u64::MAX + u64::MAX) by (nonlinear_arith);
    assert(-(values + 1) * u64::MAX == -values * u64::MAX - u64::MAX) by (nonlinear_arith);
}

proof fn feeding_stays_within(
    states: Seq<StateView>,
    arguments: Seq<Option<ColumnView>>,
    row: int,
    upto: int,
    values: int,
)
    requires
        0 <= upto <= states.len(),
        states_within(states, values),
        0 <= values,
    ensures
        fed(states, arguments, row, upto) matches Ok(next) ==> {
            &&& next.len() == states.len()
            &&& states_within(next, values + 1)
        },
    decreases upto,
{
    if upto > 0 {
        feeding_stays_within(states, arguments, row, upto - 1, values);
        if let Ok(value) = given_value(arguments[upto - 1], row) {
            updates_stay_within(states[upto - 1], value, values);
        }
    } else {
        assert forall|i: int| 0 <= i < states.len() implies (#[trigger] states[i]).within(
            values + 1,
        ) by {
            more_is_within(states[i], values);
        }
    }
}

fn feed(states: Vec<AggregateState>, arguments: &Vec<Option<Column>>, row: usize) -> (r: Result<
    Vec<AggregateState>,
    SparkXError,
>)
    requires
        states.len() == arguments.len(),
        states_within(state_views(states@), MAX_VALUES - 1),
        forall|i: int|
            0 <= i < arguments.len() ==> (argument_view(#[trigger] arguments@[i]) matches Some(
                column,
            ) ==> row < column.len()),
    ensures
        match r {
            Ok(next) => fed(
                state_views(states@),
                argument_views(arguments@),
                row as int,
                states.len() as int,
            ) == Ok::<Seq<StateView>, ErrorView>(state_views(next@)),
            Err(error) => fed(
                state_views(states@),
                argument_views(arguments@),
                row as int,
                states.len() as int,
            ) == Err::<Seq<StateView>, ErrorView>(error@),
        },
{
    let ghost old_states = state_views(states@);
    let ghost views = argument_views(arguments@);
    let count: usize = states.len();
    let mut rest = states;
    let mut next: Vec<AggregateState> = Vec::new();
    let mut i: usize = 0;
    proof {
        assert(state_views(next@) + state_views(rest@) =~= old_states);
    }
    while rest.len() > 0
        invariant
            count == old_states.len(),
            old_states == state_views(states@),
            count == arguments.len(),
            views == argument_views(arguments@),
            next.len() == i,
            i + rest.len() == count,
            states_within(old_states, MAX_VALUES - 1),
            forall|k: int| 0 <= k < rest.len() ==> (#[trigger] rest@[k])@ == old_states[i + k],
            forall|i: int|
                0 <= i < arguments.len() ==> (argument_view(#[trigger] arguments@[i]) matches Some(
                    column,
                ) ==> row < column.len()),
            fed(old_states, views, row as int, i as int) == Ok::<Seq<StateView>, ErrorView>(
                state_views(next@) + state_views(rest@),
            ),
        decreases rest.len(),
    {
        let ghost before = state_views(next@) + state_views(rest@);
        let ghost rest_before = rest@;
        proof {
            assert(views[i as int] == argument_view(arguments@[i as int]));
            assert(rest@[0]@ == old_states[i as int]);
            assert(old_states[i as int].within(MAX_VALUES - 1));
        }
        let state = rest.remove(0);
        let value = match &arguments[i] {
            None => ScalarValue::Boolean(true),
            Some(column) => match value_at(column, row) {
                Ok(value) => value,
                Err(error) => {
                    proof {
                        feeding_fails_early(old_states, views, row as int, i + 1, count as int);
                    }
                    return Err(error);
                },
            },
        };
        match state.update(value) {
            Ok(state) => {
                let ghost view = state@;
                next.push(state);
                proof {
                    assert(state_views(next@) + state_views(rest@) =~= before.update(
                        i as int,
                        view,
                    ));
                    assert forall|k: int| 0 <= k < rest.len() implies (#[trigger] rest@[k])@
                        == old_states[i + 1 + k] by {
                        assert(rest@[k] == rest_before[k + 1]);
                    }
                }
            },
            Err(error) => {
                proof {
                    feeding_fails_early(old_states, views, row as int, i + 1, count as int);
                }
                return Err(error);
            },
        }
        i = i + 1;
    }
    proof {
        assert(state_views(next@) + state_views(rest@) =~= state_views(next@));
    }
    Ok(next)
}

/// The first group from a place on with the given values, or the number of groups.
pub open spec fn group_place(groups: Seq<GroupView>, key: Seq<ScalarView>, from: int) -> int
    decreases groups.len() - from,
{
    if from >= groups.len() {
        groups.len() as int
    } else if groups[from].key == key {
        from
    } else {
        group_place(groups, key, from + 1)
    }
}

pub proof fn group_place_is_within(groups: Seq<GroupView>, key: Seq<ScalarView>, from: int)
    requires
        0 <= from <= groups.len(),
    ensures
        from <= group_place(groups, key, from) <= groups.len(),
        group_place(groups, key, from) < groups.len() ==> groups[group_place(
            groups,
            key,
            from,
        )].key == key,
        forall|i: int|
            from <= i < group_place(groups, key, from) ==> (#[trigger] groups[i]).key != key,
    decreases groups.len() - from,
{
    if from < groups.len() && groups[from].key != key {
        group_place_is_within(groups, key, from + 1);
    }
}

/// The groups, with a fresh one for the given values where there is none yet.
pub open spec fn with_group(
    groups: Seq<GroupView>,
    calls: Seq<CallView>,
    key: Seq<ScalarView>,
) -> Seq<GroupView> {
    if group_place(groups, key, 0) < groups.len() {
        groups
    } else {
        groups.push(GroupView { key, states: fresh_states(calls) })
    }
}

/// The groups after one row more.
pub open spec fn row_grouped(
    groups: Seq<GroupView>,
    calls: Seq<CallView>,
    keys: Seq<ColumnView>,
    arguments: Seq<Option<ColumnView>>,
    row: int,
) -> Result<Seq<GroupView>, ErrorView> {
    match row_values(keys, row, keys.len() as int) {
        Err(error) => Err(error),
        Ok(key) => {
            let place = group_place(groups, key, 0);
            let next = with_group(groups, calls, key);
            match fed(next[place].states, arguments, row, next[place].states.len() as int) {
                Err(error) => Err(error),
                Ok(states) => Ok(next.update(place, GroupView { key, states })),
            }
        },
    }
}

/// The groups after the first `upto` rows of a batch.
pub open spec fn rows_grouped(
    groups: Seq<GroupView>,
    calls: Seq<CallView>,
    keys: Seq<ColumnView>,
    arguments: Seq<Option<ColumnView>>,
    upto: int,
) -> Result<Seq<GroupView>, ErrorView>
    decreases upto,
{
    if upto <= 0 {
        Ok(groups)
    } else {
        match rows_grouped(groups, calls, keys, arguments, upto - 1) {
            Err(error) => Err(error),
            Ok(before) => row_grouped(before, calls, keys, arguments, upto - 1),
        }
    }
}

proof fn grouping_fails_early(
    groups: Seq<GroupView>,
    calls: Seq<CallView>,
    keys: Seq<ColumnView>,
    arguments: Seq<Option<ColumnView>>,
    upto: int,
    full: int,
)
    requires
        0 <= upto <= full,
        rows_grouped(groups, calls, keys, arguments, upto) is Err,
    ensures
        rows_grouped(groups, calls, keys, arguments, full) == rows_grouped(
            groups,
            calls,
            keys,
            arguments,
            upto,
        ),
    decreases full - upto,
{
    if upto < full {
        grouping_fails_early(groups, calls, keys, arguments, upto, full - 1);
    }
}

/// The groups after one batch more.
pub open spec fn batch_grouped(
    groups: Seq<GroupView>,
    calls: Seq<CallView>,
    group_exprs: Seq<ExprView>,
    batch: BatchView,
) -> Result<Seq<GroupView>, ErrorView> {
    match computed(group_exprs, batch, group_exprs.len() as int) {
        Err(error) => Err(error),
        Ok(keys) => match arguments_of(calls, batch, calls.len() as int) {
            Err(error) => Err(error),
            Ok(arguments) => rows_grouped(groups, calls, keys, arguments, batch.rows as int),
        },
    }
}

/// The groups before any row: without group expressions there is one, and else there is none.
pub open spec fn first_groups(calls: Seq<CallView>, group_exprs: Seq<ExprView>) -> Seq<GroupView> {
    if group_exprs.len() == 0 {
        seq![GroupView { key: Seq::empty(), states: fresh_states(calls) }]
    } else {
        Seq::empty()
    }
}

/// The groups of the first `upto` batches, in the order in which their first rows come.
pub open spec fn grouped(
    batches: Seq<BatchView>,
    calls: Seq<CallView>,
    group_exprs: Seq<ExprView>,
    upto: int,
) -> Result<Seq<GroupView>, ErrorView>
    decreases upto,
{
    if upto <= 0 {
        Ok(first_groups(calls, group_exprs))
    } else {
        match grouped(batches, calls, group_exprs, upto - 1) {
            Err(error) => Err(error),
            Ok(groups) => batch_grouped(groups, calls, group_exprs, batches[upto - 1]),
        }
    }
}

proof fn groups_fail_early(
    batches: Seq<BatchView>,
    calls: Seq<CallView>,
    group_exprs: Seq<ExprView>,
    upto: int,
    full: int,
)
    requires
        0 <= upto <= full,
        grouped(batches, calls, group_exprs, upto) is Err,
    ensures
        grouped(batches, calls, group_exprs, full) == grouped(batches, calls, group_exprs, upto),
    decreases full - upto,
{
    if upto < full {
        groups_fail_early(batches, calls, group_exprs, upto, full - 1);
    }
}

/// What holds of groups after so many rows.
pub open spec fn groups_wf(
    groups: Seq<GroupView>,
    key_width: nat,
    call_count: nat,
    rows: int,
) -> bool {
    forall|i: int|
        0 <= i < groups.len() ==> {
            &&& (#[trigger] groups[i]).key.len() == key_width
            &&& groups[i].states.len() == call_count
            &&& states_within(groups[i].states, rows)
        }
}

pub fn same_key(left: &Vec<ScalarValue>, right: &Vec<ScalarValue>) -> (r: bool)
    ensures
        r == (scalar_views(left@) == scalar_views(right@)),
{
    let ghost a = scalar_views(left@);
    let ghost b = scalar_views(right@);
    if left.len() != right.len() {
        proof {
            assert(a.len() != b.len());
        }
        return false;
    }
    for i in 0..left.len()
        invariant
            a == scalar_views(left@),
            b == scalar_views(right@),
            left.len() == right.len(),
            forall|k: int| 0 <= k < i ==> #[trigger] a[k] == b[k],
    {
        proof {
            assert(a[i as int] == left@[i as int]@);
            assert(b[i as int] == right@[i as int]@);
        }
        if !left[i].same(&right[i]) {
            return false;
        }
    }
    proof {
        assert(a =~= b);
    }
    true
}

fn find_group(groups: &Vec<Group>, key: &Vec<ScalarValue>) -> (r: usize)
    ensures
        r == group_place(group_views(groups@), scalar_views(key@), 0),
{
    let ghost views = group_views(groups@);
    let mut i: usize = 0;
    while i < groups.len()
        invariant
            views == group_views(groups@),
            i <= groups.len(),
            group_place(views, scalar_views(key@), 0) == group_place(
                views,
                scalar_views(key@),
                i as int,
            ),
        decreases groups.len() - i,
    {
        proof {
            assert(views[i as int] == groups@[i as int]@);
        }
        if same_key(&groups[i].key, key) {
            return i;
        }
        i = i + 1;
    }
    i
}

pub open spec fn groups_outcome(r: Result<Vec<Group>, SparkXError>) -> Result<
    Seq<GroupView>,
    ErrorView,
> {
    match r {
        Ok(groups) => Ok(group_views(groups@)),
        Err(error) => Err(error@),
    }
}

/// Takes a row into its group.
fn group_row(
    groups: Vec<Group>,
    calls: &Vec<AggregateCall>,
    keys: &Vec<Column>,
    arguments: &Vec<Option<Column>>,
    row: usize,
    Ghost(rows): Ghost<int>,
) -> (r: Result<Vec<Group>, SparkXError>)
    requires
        groups_wf(group_views(groups@), keys.len() as nat, calls.len() as nat, rows),
        0 <= rows < MAX_VALUES,
        calls.len() == arguments.len(),
        forall|i: int| 0 <= i < keys.len() ==> row < (#[trigger] keys@[i])@.len(),
        forall|i: int|
            0 <= i < arguments.len() ==> (argument_view(#[trigger] arguments@[i]) matches Some(
                column,
            ) ==> row < column.len()),
    ensures
        groups_outcome(r) == row_grouped(
            group_views(groups@),
            call_views(calls@),
            column_views(keys@),
            argument_views(arguments@),
            row as int,
        ),
        r matches Ok(next) ==> groups_wf(
            group_views(next@),
            keys.len() as nat,
            calls.len() as nat,
            rows + 1,
        ),
{
    let ghost old_groups = group_views(groups@);
    let mut groups = groups;
    let key = match read_row(keys, row) {
        Ok(key) => key,
        Err(error) => return Err(error),
    };
    let ghost key_view = scalar_views(key@);
    let place: usize = find_group(&groups, &key);
    proof {
        group_place_is_within(old_groups, key_view, 0);
    }
    if place == groups.len() {
        groups.push(Group { key, states: new_states(calls) });
        proof {
            assert(group_views(groups@) =~= with_group(old_groups, call_views(calls@), key_view));
            let fresh = fresh_states(call_views(calls@));
            assert forall|i: int| 0 <= i < fresh.len() implies (#[trigger] fresh[i]).within(
                rows,
            ) by {
                assert(fresh[i].within(0));
            }
        }
    }
    let ghost next = with_group(old_groups, call_views(calls@), key_view);
    proof {
        assert(group_views(groups@) =~= next);
        assert(next[place as int] == groups@[place as int]@);
        assert(next[place as int].key == key_view);
        assert(groups_wf(next, keys.len() as nat, calls.len() as nat, rows));
        let states = next[place as int].states;
        assert forall|i: int| 0 <= i < states.len() implies (#[trigger] states[i]).within(
            MAX_VALUES - 1,
        ) by {
            within_grows(states[i], rows, MAX_VALUES - 1);
        }
        feeding_stays_within(
            states,
            argument_views(arguments@),
            row as int,
            states.len() as int,
            rows,
        );
    }
    let group = groups.remove(place);
    let Group { key, states } = group;
    match feed(states, arguments, row) {
        Ok(states) => {
            let ghost view = GroupView { key: key_view, states: state_views(states@) };
            groups.insert(place, Group { key, states });
            proof {
                let after = next.update(place as int, view);
                assert(group_views(groups@) =~= after);
                assert forall|i: int| 0 <= i < after.len() implies {
                    &&& (#[trigger] after[i]).key.len() == keys.len()
                    &&& after[i].states.len() == calls.len()
                    &&& states_within(after[i].states, rows + 1)
                } by {
                    if i != place {
                        assert(after[i] == next[i]);
                        assert forall|k: int| 0 <= k < after[i].states.len() implies (
                        #[trigger] after[i].states[k]).within(rows + 1) by {
                            more_is_within(after[i].states[k], rows);
                        }
                    }
                }
            }
            Ok(groups)
        },
        Err(error) => Err(error),
    }
}

proof fn within_grows(state: StateView, low: int, high: int)
    requires
        state.within(low),
        0 <= low <= high,
    ensures
        state.within(high),
    decreases high - low,
{
    if low < high {
        more_is_within(state, low);
        within_grows(state, low + 1, high);
    }
}

/// Takes the rows of a batch into their groups.
fn group_batch(
    groups: Vec<Group>,
    calls: &Vec<AggregateCall>,
    group_exprs: &Vec<Expr>,
    batch: &Batch,
    Ghost(rows): Ghost<int>,
) -> (r: Result<Vec<Group>, SparkXError>)
    requires
        batch.wf(),
        groups_wf(group_views(groups@), group_exprs.len() as nat, calls.len() as nat, rows),
        0 <= rows,
        rows + batch@.rows <= MAX_VALUES,
    ensures
        groups_outcome(r) == batch_grouped(
            group_views(groups@),
            call_views(calls@),
            expr_views(group_exprs@),
            batch@,
        ),
        r matches Ok(next) ==> groups_wf(
            group_views(next@),
            group_exprs.len() as nat,
            calls.len() as nat,
            rows + batch@.rows,
        ),
{
    let keys = match evaluate_all(group_exprs, batch) {
        Ok(keys) => keys,
        Err(error) => return Err(error),
    };
    let arguments = match evaluate_arguments(calls, batch) {
        Ok(arguments) => arguments,
        Err(error) => return Err(error),
    };
    let ghost first = group_views(groups@);
    let ghost call_list = call_views(calls@);
    let ghost key_columns = column_views(keys@);
    let ghost argument_columns = argument_views(arguments@);
    let mut current = groups;
    let count: usize = batch.num_rows();
    for row in 0..count
        invariant
            count == batch@.rows,
            rows + count <= MAX_VALUES,
            0 <= rows,
            keys.len() == group_exprs.len(),
            calls.len() == arguments.len(),
            call_list == call_views(calls@),
            key_columns == column_views(keys@),
            argument_columns == argument_views(arguments@),
            forall|i: int| 0 <= i < keys.len() ==> count == (#[trigger] keys@[i])@.len(),
            arguments_reach(arguments@, count as nat),
            rows_grouped(first, call_list, key_columns, argument_columns, row as int) == Ok::<
                Seq<GroupView>,
                ErrorView,
            >(group_views(current@)),
            first == group_views(groups@),
            groups_wf(
                group_views(current@),
                group_exprs.len() as nat,
                calls.len() as nat,
                rows + row,
            ),
            computed(expr_views(group_exprs@), batch@, group_exprs.len() as int) == Ok::<
                Seq<ColumnView>,
                ErrorView,
            >(key_columns),
            arguments_of(call_list, batch@, calls.len() as int) == Ok::<
                Seq<Option<ColumnView>>,
                ErrorView,
            >(argument_columns),
    {
        match group_row(current, calls, &keys, &arguments, row, Ghost(rows + row)) {
            Ok(next) => {
                current = next;
            },
            Err(error) => {
                proof {
                    grouping_fails_early(
                        first,
                        call_list,
                        key_columns,
                        argument_columns,
                        row + 1,
                        count as int,
                    );
                }
                return Err(error);
            },
        }
    }
    Ok(current)
}

/// How two keys stand to each other: by the first values that differ, and then by length. Values in
/// no order leave the keys in no order, which counts as the same.
pub open spec fn keys_relation(left: Seq<ScalarView>, right: Seq<ScalarView>, from: int) -> Relation
    decreases left.len() - from,
{
    if from >= left.len() || from >= right.len() {
        if left.len() < right.len() {
            Relation::Less
        } else if left.len() == right.len() {
            Relation::Same
        } else {
            Relation::Greater
        }
    } else {
        match left[from].compare(right[from]) {
            Some(Relation::Same) => keys_relation(left, right, from + 1),
            Some(relation) => relation,
            None => Relation::Same,
        }
    }
}

fn compare_keys(left: &Vec<ScalarValue>, right: &Vec<ScalarValue>) -> (r: Relation)
    ensures
        r == keys_relation(scalar_views(left@), scalar_views(right@), 0),
{
    let ghost a = scalar_views(left@);
    let ghost b = scalar_views(right@);
    let mut i: usize = 0;
    while i < left.len() && i < right.len()
        invariant
            a == scalar_views(left@),
            b == scalar_views(right@),
            i <= left.len(),
            i <= right.len(),
            keys_relation(a, b, 0) == keys_relation(a, b, i as int),
        decreases left.len() - i,
    {
        proof {
            assert(a[i as int] == left@[i as int]@);
            assert(b[i as int] == right@[i as int]@);
        }
        match left[i].partial_compare(&right[i]) {
            Some(Relation::Same) => {},
            Some(relation) => return relation,
            None => return Relation::Same,
        }
        i = i + 1;
    }
    if left.len() < right.len() {
        Relation::Less
    } else if left.len() == right.len() {
        Relation::Same
    } else {
        Relation::Greater
    }
}

/// The first place from `from` on whose group comes after a key, or the number of groups.
pub open spec fn place_after(groups: Seq<GroupView>, key: Seq<ScalarView>, from: int) -> int
    decreases groups.len() - from,
{
    if from >= groups.len() {
        groups.len() as int
    } else if keys_relation(groups[from].key, key, 0) == Relation::Greater {
        from
    } else {
        place_after(groups, key, from + 1)
    }
}

pub proof fn place_after_is_within(groups: Seq<GroupView>, key: Seq<ScalarView>, from: int)
    requires
        0 <= from <= groups.len(),
    ensures
        from <= place_after(groups, key, from) <= groups.len(),
    decreases groups.len() - from,
{
    if from < groups.len() {
        place_after_is_within(groups, key, from + 1);
    }
}

/// The first `upto` groups in the order of their keys.
pub open spec fn sorted_groups(groups: Seq<GroupView>, upto: int) -> Seq<GroupView>
    decreases upto,
{
    if upto <= 0 {
        Seq::empty()
    } else {
        let before = sorted_groups(groups, upto - 1);
        before.insert(place_after(before, groups[upto - 1].key, 0), groups[upto - 1])
    }
}

fn sort_groups(groups: Vec<Group>) -> (r: Vec<Group>)
    ensures
        group_views(r@) == sorted_groups(group_views(groups@), groups.len() as int),
{
    let ghost views = group_views(groups@);
    let count: usize = groups.len();
    let mut rest = groups;
    let mut sorted: Vec<Group> = Vec::new();
    let mut done: usize = 0;
    proof {
        assert(group_views(sorted@) =~= sorted_groups(views, 0));
    }
    while rest.len() > 0
        invariant
            count == views.len(),
            done + rest.len() == count,
            forall|k: int| 0 <= k < rest.len() ==> (#[trigger] rest@[k])@ == views[done + k],
            group_views(sorted@) == sorted_groups(views, done as int),
        decreases rest.len(),
    {
        let ghost before = group_views(sorted@);
        let ghost rest_before = rest@;
        proof {
            assert(rest@[0]@ == views[done as int]);
        }
        let group = rest.remove(0);
        let ghost view = group@;
        let mut place: usize = 0;
        while place < sorted.len() && compare_keys(&sorted[place].key, &group.key)
            != Relation::Greater
            invariant
                place <= sorted.len(),
                before == group_views(sorted@),
                view == group@,
                place_after(before, view.key, 0) == place_after(before, view.key, place as int),
            decreases sorted.len() - place,
        {
            proof {
                assert(before[place as int] == sorted@[place as int]@);
            }
            place = place + 1;
        }
        proof {
            if place < sorted.len() {
                assert(before[place as int] == sorted@[place as int]@);
            }
        }
        sorted.insert(place, group);
        done = done + 1;
        proof {
            assert(group_views(sorted@) =~= before.insert(place as int, view));
            assert forall|k: int| 0 <= k < rest.len() implies (#[trigger] rest@[k])@ == views[done
                + k] by {
                assert(rest@[k] == rest_before[k + 1]);
            }
        }
    }
    sorted
}

pub open spec fn finished_states(states: Seq<StateView>) -> Seq<ScalarView> {
    Seq::new(states.len(), |i: int| states[i].finished())
}

/// The row of a group: its key and the values of the functions.
pub open spec fn group_row_values(group: GroupView) -> Seq<ScalarView> {
    group.key + finished_states(group.states)
}

pub open spec fn group_rows(groups: Seq<GroupView>) -> Seq<Seq<ScalarView>> {
    Seq::new(groups.len(), |i: int| group_row_values(groups[i]))
}

fn finish_groups(groups: Vec<Group>) -> (r: Vec<Vec<ScalarValue>>)
    ensures
        rows_views(r@) == group_rows(group_views(groups@)),
{
    let mut rows: Vec<Vec<ScalarValue>> = Vec::new();
    for i in 0..groups.len()
        invariant
            rows.len() == i,
            forall|k: int|
                0 <= k < i ==> scalar_views((#[trigger] rows@[k])@) == group_row_values(
                    groups@[k]@,
                ),
    {
        let group = &groups[i];
        let mut row: Vec<ScalarValue> = Vec::new();
        for k in 0..group.key.len()
            invariant
                row.len() == k,
                forall|j: int| 0 <= j < k ==> (#[trigger] row@[j])@ == group.key@[j]@,
        {
            row.push(group.key[k].clone());
        }
        for k in 0..group.states.len()
            invariant
                row.len() == group.key.len() + k,
                forall|j: int|
                    0 <= j < row.len() ==> (#[trigger] row@[j])@ == (if j < group.key.len() {
                        group.key@[j]@
                    } else {
                        group.states@[j - group.key.len()]@.finished()
                    }),
        {
            row.push(group.states[k].finish());
        }
        proof {
            assert(scalar_views(row@) =~= group_row_values(group@));
        }
        rows.push(row);
    }
    proof {
        assert(rows_views(rows@) =~= group_rows(group_views(groups@)));
    }
    rows
}

/// The batch that aggregation gives, or why there is none: a row for each group, in the order of
/// the keys, with the key and then the values of the functions.
pub open spec fn aggregated(
    batches: Seq<BatchView>,
    group_exprs: Seq<ExprView>,
    aggregate_exprs: Seq<ExprView>,
    schema: SchemaView,
) -> Result<BatchView, ErrorView> {
    match calls_of(aggregate_exprs, aggregate_exprs.len() as int) {
        Err(error) => Err(error),
        Ok(calls) => match grouped(batches, calls, group_exprs, batches.len() as int) {
            Err(error) => Err(error),
            Ok(groups) => batch_of_rows(
                group_rows(sorted_groups(groups, groups.len() as int)),
                group_exprs.len() + aggregate_exprs.len(),
                schema,
            ),
        },
    }
}

/// Groups the rows of batches by the values of expressions and computes aggregate functions over
/// each group.
pub fn hash_aggregate(
    batches: &Vec<Batch>,
    group_exprs: &Vec<Expr>,
    aggregate_exprs: &Vec<Expr>,
    schema: &Schema,
) -> (r: Result<Batch, SparkXError>)
    requires
        forall|i: int| 0 <= i < batches.len() ==> (#[trigger] batches@[i]).wf(),
        total_rows(batch_views(batches@), batches.len() as int) <= MAX_VALUES,
        group_exprs.len() + aggregate_exprs.len() <= usize::MAX,
    ensures
        batch_outcome(r) == aggregated(
            batch_views(batches@),
            expr_views(group_exprs@),
            expr_views(aggregate_exprs@),
            schema@,
        ),
        r matches Ok(batch) ==> batch.wf(),
{
    let calls = match aggregate_specs(aggregate_exprs) {
        Ok(calls) => calls,
        Err(error) => return Err(error),
    };
    let ghost call_list = call_views(calls@);
    let ghost keys = expr_views(group_exprs@);
    let ghost views = batch_views(batches@);
    let mut groups: Vec<Group> = Vec::new();
    if group_exprs.len() == 0 {
        groups.push(Group { key: Vec::new(), states: new_states(&calls) });
    }
    proof {
        if group_exprs.len() == 0 {
            assert(scalar_views(groups@[0].key@) =~= Seq::empty());
        }
        assert(group_views(groups@) =~= first_groups(call_list, keys));
    }
    for i in 0..batches.len()
        invariant
            forall|i: int| 0 <= i < batches.len() ==> (#[trigger] batches@[i]).wf(),
            total_rows(views, batches.len() as int) <= MAX_VALUES,
            call_list == call_views(calls@),
            keys == expr_views(group_exprs@),
            views == batch_views(batches@),
            calls.len() == aggregate_exprs.len(),
            calls_of(expr_views(aggregate_exprs@), aggregate_exprs.len() as int) == Ok::<
                Seq<CallView>,
                ErrorView,
            >(call_list),
            grouped(views, call_list, keys, i as int) == Ok::<Seq<GroupView>, ErrorView>(
                group_views(groups@),
            ),
            groups_wf(
                group_views(groups@),
                group_exprs.len() as nat,
                calls.len() as nat,
                total_rows(views, i as int) as int,
            ),
    {
        proof {
            assert(views[i as int] == batches@[i as int]@);
            total_rows_grow(views, i + 1, batches.len() as int);
        }
        match group_batch(
            groups,
            &calls,
            group_exprs,
            &batches[i],
            Ghost(total_rows(views, i as int) as int),
        ) {
            Ok(next) => {
                groups = next;
            },
            Err(error) => {
                proof {
                    groups_fail_early(views, call_list, keys, i + 1, batches.len() as int);
                }
                return Err(error);
            },
        }
    }
    let sorted = sort_groups(groups);
    let rows = finish_groups(sorted);
    rows_to_batch(&rows, group_exprs.len() + aggregate_exprs.len(), schema)
}

} // verus!

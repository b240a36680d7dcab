//! The running value of an aggregate function over partial results.

use crate::cells::{cell_value, value_at};
use crate::column::{column_views, Column, ColumnView};
use crate::error::{ErrorView, SparkXError};
use crate::execution::state::{extreme_view, show, shown};
use crate::expr::AggregateFunction;
use crate::kernels::{
    add_floats, divide_floats, float_quotient, float_sum, whole_float, whole_to_float,
};
use crate::scalar::{ScalarValue, ScalarView};
use crate::text::{join, Relation};
use vstd::prelude::*;

verus! {

/// What an aggregate function keeps of the partial results that it was given.
#[derive(Debug)]
pub enum MergeState {
    Count(u64),
    Sum { value: u64, seen: bool },
    Min(Option<ScalarValue>),
    Max(Option<ScalarValue>),
    Avg { sum: u64, count: u64 },
}

pub enum MergeView {
    Count(u64),
    Sum { value: u64, seen: bool },
    Min(Option<ScalarView>),
    Max(Option<ScalarView>),
    Avg { sum: u64, count: u64 },
}

impl View for MergeState {
    type V = MergeView;

    open spec fn view(&self) -> MergeView {
        match self {
            MergeState::Count(total) => MergeView::Count(*total),
            MergeState::Sum { value, seen } => MergeView::Sum { value: *value, seen: *seen },
            MergeState::Min(value) => MergeView::Min(extreme_view(*value)),
            MergeState::Max(value) => MergeView::Max(extreme_view(*value)),
            MergeState::Avg { sum, count } => MergeView::Avg { sum: *sum, count: *count },
        }
    }
}

/// A partial sum as a double-precision number; NULL counts as zero.
pub open spec fn as_float(value: ScalarView) -> Result<u64, ErrorView> {
    match value {
        ScalarView::Float64(bits) => Ok(bits),
        ScalarView::Int64(n) => Ok(whole_float(n as i128)),
        ScalarView::UInt64(n) => Ok(whole_float(n as i128)),
        ScalarView::Null => Ok(0),
        _ => Err(ErrorView::Execution("expected numeric partial, got "@ + shown(value))),
    }
}

/// A partial count; NULL counts as zero.
pub open spec fn as_count(value: ScalarView) -> Result<u64, ErrorView> {
    match value {
        ScalarView::UInt64(n) => Ok(n),
        ScalarView::Int64(n) if n >= 0 => Ok(n as u64),
        ScalarView::Null => Ok(0),
        _ => Err(ErrorView::Execution("expected unsigned partial, got "@ + shown(value))),
    }
}

/// A count with a partial count added.
pub open spec fn count_sum(total: u64, value: ScalarView) -> Result<u64, ErrorView> {
    match as_count(value) {
        Err(error) => Err(error),
        Ok(n) => if total + n > u64::MAX {
            Err(ErrorView::Execution("merged count overflowed"@))
        } else {
            Ok((total + n) as u64)
        },
    }
}

/// The smaller (or larger) of a partial result and those before it.
pub open spec fn merged_extreme(
    current: Option<ScalarView>,
    value: ScalarView,
    wanted: Relation,
) -> Result<Option<ScalarView>, ErrorView> {
    if value is Null {
        Ok(current)
    } else {
        match current {
            None => Ok(Some(value)),
            Some(best) => match value.compare(best) {
                None => Err(ErrorView::Execution("partial aggregate types cannot be compared"@)),
                Some(relation) => if relation == wanted {
                    Ok(Some(value))
                } else {
                    Ok(current)
                },
            },
        }
    }
}

impl MergeView {
    pub open spec fn fresh(function: AggregateFunction) -> MergeView {
        match function {
            AggregateFunction::Count => MergeView::Count(0),
            AggregateFunction::Sum => MergeView::Sum { value: 0, seen: false },
            AggregateFunction::Min => MergeView::Min(None),
            AggregateFunction::Max => MergeView::Max(None),
            AggregateFunction::Avg => MergeView::Avg { sum: 0, count: 0 },
        }
    }

    /// How many columns hold the function's partial results.
    pub open spec fn width(self) -> int {
        if self is Avg {
            2
        } else {
            1
        }
    }

    /// The state after the partial result in a row, whose first column is at a place.
    pub open spec fn merged(self, columns: Seq<ColumnView>, place: int, row: int) -> Result<
        MergeView,
        ErrorView,
    > {
        match cell_value(columns[place], row) {
            Err(error) => Err(error),
            Ok(value) => match self {
                MergeView::Count(total) => match count_sum(total, value) {
                    Err(error) => Err(error),
                    Ok(total) => Ok(MergeView::Count(total)),
                },
                MergeView::Sum { value: total, .. } => if value is Null {
                    Ok(self)
                } else {
                    match as_float(value) {
                        Err(error) => Err(error),
                        Ok(bits) => Ok(
                            MergeView::Sum { value: float_sum(total, bits), seen: true },
                        ),
                    }
                },
                MergeView::Min(current) => match merged_extreme(current, value, Relation::Less) {
                    Err(error) => Err(error),
                    Ok(next) => Ok(MergeView::Min(next)),
                },
                MergeView::Max(current) => match merged_extreme(
                    current,
                    value,
                    Relation::Greater,
                ) {
                    Err(error) => Err(error),
                    Ok(next) => Ok(MergeView::Max(next)),
                },
                MergeView::Avg { sum, count } => match as_float(value) {
                    Err(error) => Err(error),
                    Ok(bits) => match cell_value(columns[place + 1], row) {
                        Err(error) => Err(error),
                        Ok(rows) => match count_sum(count, rows) {
                            Err(error) => Err(error),
                            Ok(count) => Ok(MergeView::Avg { sum: float_sum(sum, bits), count }),
                        },
                    },
                },
            },
        }
    }

    /// The value of the function.
    pub open spec fn finished(self) -> ScalarView {
        match self {
            MergeView::Count(total) => ScalarView::UInt64(total),
            MergeView::Sum { value, seen } => if seen {
                ScalarView::Float64(value)
            } else {
                ScalarView::Null
            },
            MergeView::Min(value) | MergeView::Max(value) => match value {
                Some(value) => value,
                None => ScalarView::Null,
            },
            MergeView::Avg { sum, count } => if count == 0 {
                ScalarView::Null
            } else {
                ScalarView::Float64(float_quotient(sum, whole_float(count as i128)))
            },
        }
    }
}

fn as_f64(value: &ScalarValue) -> (r: Result<u64, SparkXError>)
    ensures
        crate::error::outcome(r) == as_float(value@),
{
    match value {
        ScalarValue::Float64(bits) => Ok(*bits),
        ScalarValue::Int64(n) => Ok(whole_to_float(*n as i128)),
        ScalarValue::UInt64(n) => Ok(whole_to_float(*n as i128)),
        ScalarValue::Null => Ok(0),
        other => Err(
            SparkXError::execution(join("expected numeric partial, got ", show(other).as_str())),
        ),
    }
}

fn as_u64(value: &ScalarValue) -> (r: Result<u64, SparkXError>)
    ensures
        crate::error::outcome(r) == as_count(value@),
{
    match value {
        ScalarValue::UInt64(n) => Ok(*n),
        ScalarValue::Int64(n) if *n >= 0 => Ok(*n as u64),
        ScalarValue::Null => Ok(0),
        other => Err(
            SparkXError::execution(join("expected unsigned partial, got ", show(other).as_str())),
        ),
    }
}

fn add_count(total: u64, value: &ScalarValue) -> (r: Result<u64, SparkXError>)
    ensures
        crate::error::outcome(r) == count_sum(total, value@),
{
    match as_u64(value) {
        Err(error) => Err(error),
        Ok(n) => match total.checked_add(n) {
            Some(sum) => Ok(sum),
            None => Err(SparkXError::execution("merged count overflowed".to_owned())),
        },
    }
}

fn merge_extreme(
    current: Option<ScalarValue>,
    value: ScalarValue,
    wanted: Relation,
) -> (r: Result<Option<ScalarValue>, SparkXError>)
    ensures
        match r {
            Ok(next) => merged_extreme(extreme_view(current), value@, wanted) == Ok::<
                Option<ScalarView>,
                ErrorView,
            >(extreme_view(next)),
            Err(error) => merged_extreme(extreme_view(current), value@, wanted) == Err::<
                Option<ScalarView>,
                ErrorView,
            >(error@),
        },
{
    if value.is_null() {
        return Ok(current);
    }
    match current {
        None => Ok(Some(value)),
        Some(best) => match value.partial_compare(&best) {
            None => Err(
                SparkXError::execution("partial aggregate types cannot be compared".to_owned()),
            ),
            Some(relation) => {
                if relation == wanted {
                    Ok(Some(value))
                } else {
                    Ok(Some(best))
                }
            },
        },
    }
}

pub open spec fn merge_outcome(r: Result<MergeState, SparkXError>) -> Result<MergeView, ErrorView> {
    match r {
        Ok(state) => Ok(state@),
        Err(error) => Err(error@),
    }
}

impl MergeState {
    pub fn new(function: AggregateFunction) -> (r: Self)
        ensures
            r@ == MergeView::fresh(function),
    {
        match function {
            AggregateFunction::Count => MergeState::Count(0),
            AggregateFunction::Sum => MergeState::Sum { value: 0, seen: false },
            AggregateFunction::Min => MergeState::Min(None),
            AggregateFunction::Max => MergeState::Max(None),
            AggregateFunction::Avg => MergeState::Avg { sum: 0, count: 0 },
        }
    }

    pub fn width(&self) -> (r: usize)
        ensures
            r == self@.width(),
            1 <= r <= 2,
    {
        match self {
            MergeState::Avg { .. } => 2,
            _ => 1,
        }
    }

    /// The state after the partial result in a row, whose first column is at a place.
    pub fn merge(self, columns: &Vec<Column>, place: usize, row: usize) -> (r: Result<
        Self,
        SparkXError,
    >)
        requires
            place + self@.width() <= columns.len(),
            forall|i: int| 0 <= i < columns.len() ==> row < (#[trigger] columns@[i])@.len(),
        ensures
            merge_outcome(r) == self@.merged(column_views(columns@), place as int, row as int),
            r matches Ok(next) ==> next@.width() == self@.width(),
    {
        let ghost views = column_views(columns@);
        proof {
            assert(views[place as int] == columns@[place as int]@);
        }
        let value = match value_at(&columns[place], row) {
            Ok(value) => value,
            Err(error) => return Err(error),
        };
        match self {
            MergeState::Count(total) => match add_count(total, &value) {
                Ok(total) => Ok(MergeState::Count(total)),
                Err(error) => Err(error),
            },
            MergeState::Sum { value: total, seen } => {
                if value.is_null() {
                    return Ok(MergeState::Sum { value: total, seen });
                }
                match as_f64(&value) {
                    Ok(bits) => Ok(MergeState::Sum { value: add_floats(total, bits), seen: true }),
                    Err(error) => Err(error),
                }
            },
            MergeState::Min(current) => match merge_extreme(current, value, Relation::Less) {
                Ok(next) => Ok(MergeState::Min(next)),
                Err(error) => Err(error),
            },
            MergeState::Max(current) => match merge_extreme(current, value, Relation::Greater) {
                Ok(next) => Ok(MergeState::Max(next)),
                Err(error) => Err(error),
            },
            MergeState::Avg { sum, count } => {
                let bits: u64 = match as_f64(&value) {
                    Ok(bits) => bits,
                    Err(error) => return Err(error),
                };
                proof {
                    assert(views[place + 1] == columns@[place + 1]@);
                }
                let rows = match value_at(&columns[place + 1], row) {
                    Ok(rows) => rows,
                    Err(error) => return Err(error),
                };
                match add_count(count, &rows) {
                    Ok(count) => Ok(MergeState::Avg { sum: add_floats(sum, bits), count }),
                    Err(error) => Err(error),
                }
            },
        }
    }

    /// The value of the function over all partial results.
    pub fn finish(&self) -> (r: ScalarValue)
        ensures
            r@ == self@.finished(),
    {
        match self {
            MergeState::Count(total) => ScalarValue::UInt64(*total),
            MergeState::Sum { value, seen } => {
                if *seen {
                    ScalarValue::Float64(*value)
                } else {
                    ScalarValue::Null
                }
            },
            MergeState::Min(value) | MergeState::Max(value) => match value {
                Some(value) => value.clone(),
                None => ScalarValue::Null,
            },
            MergeState::Avg { sum, count } => {
                if *count == 0 {
                    ScalarValue::Null
                } else {
                    ScalarValue::Float64(divide_floats(*sum, whole_to_float(*count as i128)))
                }
            },
        }
    }
}

} // verus!

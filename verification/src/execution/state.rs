//! The running value of an aggregate function.

use crate::error::{ErrorView, SparkXError};
use crate::expr::AggregateFunction;
use crate::kernels::{
    add_floats, divide_floats, float_debug, float_debug_text, float_quotient, float_sum,
    whole_float, whole_to_float,
};
use crate::scalar::{scalar_views, ScalarValue, ScalarView};
use crate::text::{
    decimal, join, numeral, quote, quoted, signed_decimal, signed_numeral, Relation,
};
use vstd::prelude::*;

verus! {

/// What an aggregate function keeps of the values that it was given. Where it takes each value but
/// once, `distinct` lists those that it took.
#[derive(Debug)]
pub enum AggregateState {
    Count { value: u64, distinct: Option<Vec<ScalarValue>> },
    Sum { int_sum: i128, float_sum: u64, seen: bool, distinct: Option<Vec<ScalarValue>> },
    Min(Option<ScalarValue>),
    Max(Option<ScalarValue>),
    Avg { sum: u64, count: u64, distinct: Option<Vec<ScalarValue>> },
}

pub enum StateView {
    Count { value: int, distinct: Option<Seq<ScalarView>> },
    Sum { int_sum: int, float_sum: u64, seen: bool, distinct: Option<Seq<ScalarView>> },
    Min(Option<ScalarView>),
    Max(Option<ScalarView>),
    Avg { sum: u64, count: int, distinct: Option<Seq<ScalarView>> },
}

pub open spec fn distinct_view(distinct: Option<Vec<ScalarValue>>) -> Option<Seq<ScalarView>> {
    match distinct {
        Some(values) => Some(scalar_views(values@)),
        None => None,
    }
}

pub open spec fn extreme_view(value: Option<ScalarValue>) -> Option<ScalarView> {
    match value {
        Some(value) => Some(value@),
        None => None,
    }
}

impl View for AggregateState {
    type V = StateView;

    open spec fn view(&self) -> StateView {
        match self {
            AggregateState::Count { value, distinct } => StateView::Count {
                value: *value as int,
                distinct: distinct_view(*distinct),
            },
            AggregateState::Sum { int_sum, float_sum, seen, distinct } => StateView::Sum {
                int_sum: *int_sum as int,
                float_sum: *float_sum,
                seen: *seen,
                distinct: distinct_view(*distinct),
            },
            AggregateState::Min(value) => StateView::Min(extreme_view(*value)),
            AggregateState::Max(value) => StateView::Max(extreme_view(*value)),
            AggregateState::Avg { sum, count, distinct } => StateView::Avg {
                sum: *sum,
                count: *count as int,
                distinct: distinct_view(*distinct),
            },
        }
    }
}

/// Whether a value was taken already and counts only once.
pub open spec fn is_repeated(distinct: Option<Seq<ScalarView>>, value: ScalarView) -> bool {
    distinct matches Some(values) && values.contains(value)
}

/// The list with one value more, where there is a list.
pub open spec fn with_value(distinct: Option<Seq<ScalarView>>, value: ScalarView) -> Option<
    Seq<ScalarView>,
> {
    match distinct {
        Some(values) => Some(values.push(value)),
        None => None,
    }
}

/// How a value reads in an error.
pub open spec fn shown(value: ScalarView) -> Seq<char> {
    match value {
        ScalarView::Null => "Null"@,
        ScalarView::Boolean(b) => if b {
            "Boolean(true)"@
        } else {
            "Boolean(false)"@
        },
        ScalarView::Int64(n) => "Int64("@ + signed_numeral(n as int) + ")"@,
        ScalarView::UInt64(n) => "UInt64("@ + numeral(n as nat) + ")"@,
        ScalarView::Float64(bits) => "Float64("@ + float_debug_text(bits) + ")"@,
        ScalarView::Utf8(text) => "Utf8("@ + quoted(text) + ")"@,
    }
}

/// A number as a double-precision one, by its bits.
pub open spec fn number_of(value: ScalarView) -> Option<u64> {
    match value {
        ScalarView::Int64(n) => Some(whole_float(n as i128)),
        ScalarView::UInt64(n) => Some(whole_float(n as i128)),
        ScalarView::Float64(bits) => Some(bits),
        _ => None,
    }
}

/// The smaller (or larger) of a value and those before it.
pub open spec fn extreme(current: Option<ScalarView>, value: ScalarView, wanted: Relation) -> Result<
    Option<ScalarView>,
    ErrorView,
> {
    if value is Null {
        Ok(current)
    } else {
        match current {
            None => Ok(Some(value)),
            Some(best) => match value.compare(best) {
                None => Err(
                    ErrorView::Execution("cannot compare values with different types"@),
                ),
                Some(relation) => if relation == wanted {
                    Ok(Some(value))
                } else {
                    Ok(current)
                },
            },
        }
    }
}

impl StateView {
    /// The state before any value.
    pub open spec fn fresh(function: AggregateFunction, distinct: bool) -> StateView {
        let seen = if distinct {
            Some(Seq::<ScalarView>::empty())
        } else {
            None
        };
        match function {
            AggregateFunction::Count => StateView::Count { value: 0, distinct: seen },
            AggregateFunction::Sum => StateView::Sum {
                int_sum: 0,
                float_sum: 0,
                seen: false,
                distinct: seen,
            },
            AggregateFunction::Min => StateView::Min(None),
            AggregateFunction::Max => StateView::Max(None),
            AggregateFunction::Avg => StateView::Avg { sum: 0, count: 0, distinct: seen },
        }
    }

    /// The state after one value more, or why the function cannot take it. NULL is passed over.
    pub open spec fn updated(self, value: ScalarView) -> Result<StateView, ErrorView> {
        match self {
            StateView::Count { value: count, distinct } => Ok(
                if value is Null || is_repeated(distinct, value) {
                    self
                } else {
                    StateView::Count { value: count + 1, distinct: with_value(distinct, value) }
                },
            ),
            StateView::Sum { int_sum, float_sum: floats, seen, distinct } => if value is Null
                || is_repeated(distinct, value) {
                Ok(self)
            } else {
                let distinct = with_value(distinct, value);
                match value {
                    ScalarView::Int64(n) => Ok(
                        StateView::Sum { int_sum: int_sum + n, float_sum: floats, seen: true, distinct },
                    ),
                    ScalarView::UInt64(n) => Ok(
                        StateView::Sum { int_sum: int_sum + n, float_sum: floats, seen: true, distinct },
                    ),
                    ScalarView::Float64(bits) => Ok(
                        StateView::Sum {
                            int_sum,
                            float_sum: float_sum(floats, bits),
                            seen: true,
                            distinct,
                        },
                    ),
                    _ => Err(ErrorView::Execution("SUM does not support "@ + shown(value))),
                }
            },
            StateView::Min(current) => match extreme(current, value, Relation::Less) {
                Ok(next) => Ok(StateView::Min(next)),
                Err(error) => Err(error),
            },
            StateView::Max(current) => match extreme(current, value, Relation::Greater) {
                Ok(next) => Ok(StateView::Max(next)),
                Err(error) => Err(error),
            },
            StateView::Avg { sum, count, distinct } => if value is Null || is_repeated(
                distinct,
                value,
            ) {
                Ok(self)
            } else {
                match number_of(value) {
                    Some(number) => Ok(
                        StateView::Avg {
                            sum: float_sum(sum, number),
                            count: count + 1,
                            distinct: with_value(distinct, value),
                        },
                    ),
                    None => Err(
                        ErrorView::Execution("numeric aggregate does not support "@ + shown(value)),
                    ),
                }
            },
        }
    }

    /// The value of the function.
    pub open spec fn finished(self) -> ScalarView {
        match self {
            StateView::Count { value, .. } => ScalarView::UInt64(value as u64),
            StateView::Sum { int_sum, float_sum: floats, seen, .. } => if seen {
                ScalarView::Float64(float_sum(floats, whole_float(int_sum as i128)))
            } else {
                ScalarView::Null
            },
            StateView::Min(value) | StateView::Max(value) => match value {
                Some(value) => value,
                None => ScalarView::Null,
            },
            StateView::Avg { sum, count, .. } => if count == 0 {
                ScalarView::Null
            } else {
                ScalarView::Float64(float_quotient(sum, whole_float(count as i128)))
            },
        }
    }

    /// Whether the state can stem from so many values: its counters are then no larger.
    pub open spec fn within(self, values: int) -> bool {
        match self {
            StateView::Count { value, .. } => 0 <= value <= values,
            StateView::Sum { int_sum, .. } => -values * u64::MAX <= int_sum <= values * u64::MAX,
            StateView::Min(_) | StateView::Max(_) => true,
            StateView::Avg { count, .. } => 0 <= count <= values,
        }
    }
}

/// The most values that an aggregate function can be given before a counter runs over.
pub const MAX_VALUES: u64 = 0x7FFF_FFFF_FFFF_FFFF;

pub proof fn updates_stay_within(state: StateView, value: ScalarView, values: int)
    requires
        state.within(values),
        0 <= values,
    ensures
        state.updated(value) matches Ok(next) ==> next.within(values + 1),
{
    assert((values + 1) * u64::MAX == values * u64::MAX + u64::MAX) by (nonlinear_arith);
    assert(-(values + 1) * u64::MAX == -values * u64::MAX - u64::MAX) by (nonlinear_arith);
}

pub open spec fn state_outcome(r: Result<AggregateState, SparkXError>) -> Result<
    StateView,
    ErrorView,
> {
    match r {
        Ok(state) => Ok(state@),
        Err(error) => Err(error@),
    }
}

fn holds(values: &Vec<ScalarValue>, value: &ScalarValue) -> (r: bool)
    ensures
        r == scalar_views(values@).contains(value@),
{
    let ghost views = scalar_views(values@);
    for i in 0..values.len()
        invariant
            views == scalar_views(values@),
            forall|k: int| 0 <= k < i ==> #[trigger] views[k] != value@,
    {
        proof {
            assert(views[i as int] == values@[i as int]@);
        }
        if values[i].same(value) {
            return true;
        }
    }
    false
}

fn repeats(distinct: &Option<Vec<ScalarValue>>, value: &ScalarValue) -> (r: bool)
    ensures
        r == is_repeated(distinct_view(*distinct), value@),
{
    match distinct {
        Some(values) => holds(values, value),
        None => false,
    }
}

fn take_note(distinct: Option<Vec<ScalarValue>>, value: &ScalarValue) -> (r: Option<
    Vec<ScalarValue>,
>)
    ensures
        distinct_view(r) == with_value(distinct_view(distinct), value@),
{
    match distinct {
        Some(mut values) => {
            let ghost before = scalar_views(values@);
            values.push(value.clone());
            proof {
                assert(scalar_views(values@) =~= before.push(value@));
            }
            Some(values)
        },
        None => None,
    }
}

pub fn show(value: &ScalarValue) -> (r: String)
    ensures
        r@ == shown(value@),
{
    match value {
        ScalarValue::Null => "Null".to_owned(),
        ScalarValue::Boolean(true) => "Boolean(true)".to_owned(),
        ScalarValue::Boolean(false) => "Boolean(false)".to_owned(),
        ScalarValue::Int64(n) => join(join("Int64(", signed_decimal(*n).as_str()).as_str(), ")"),
        ScalarValue::UInt64(n) => join(join("UInt64(", decimal(*n).as_str()).as_str(), ")"),
        ScalarValue::Float64(bits) => join(
            join("Float64(", float_debug(*bits).as_str()).as_str(),
            ")",
        ),
        ScalarValue::Utf8(text) => join(
            join("Utf8(", quote(text.as_str()).as_str()).as_str(),
            ")",
        ),
    }
}

fn update_extreme(
    current: Option<ScalarValue>,
    value: ScalarValue,
    wanted: Relation,
) -> (r: Result<
    Option<ScalarValue>,
    SparkXError,
>)
    ensures
        match r {
            Ok(next) => extreme(extreme_view(current), value@, wanted) == Ok::<
                Option<ScalarView>,
                ErrorView,
            >(extreme_view(next)),
            Err(error) => extreme(extreme_view(current), value@, wanted) == Err::<
                Option<ScalarView>,
                ErrorView,
            >(error@),
        },
{
    if value.is_null() {
        return Ok(current);
    }
    match current {
        None => Ok(Some(value)),
        Some(best) => match value.partial_compare(&best) {
            None => Err(
                SparkXError::execution("cannot compare values with different types".to_owned()),
            ),
            Some(relation) => {
                if relation == wanted {
                    Ok(Some(value))
                } else {
                    Ok(Some(best))
                }
            },
        },
    }
}

fn numeric_value(value: &ScalarValue) -> (r: Result<u64, SparkXError>)
    requires
        !(value@ is Null),
    ensures
        match number_of(value@) {
            Some(bits) => r == Ok::<u64, SparkXError>(bits),
            None => r matches Err(error) && error@ == ErrorView::Execution(
                "numeric aggregate does not support "@ + shown(value@),
            ),
        },
{
    match value {
        ScalarValue::Int64(n) => Ok(whole_to_float(*n as i128)),
        ScalarValue::UInt64(n) => Ok(whole_to_float(*n as i128)),
        ScalarValue::Float64(bits) => Ok(*bits),
        other => Err(
            SparkXError::execution(
                join("numeric aggregate does not support ", show(other).as_str()),
            ),
        ),
    }
}

impl AggregateState {
    /// The state of a function before any value.
    pub fn new(function: AggregateFunction, distinct: bool) -> (r: Self)
        ensures
            r@ == StateView::fresh(function, distinct),
            r@.within(0),
    {
        let set: Option<Vec<ScalarValue>> = if distinct {
            Some(Vec::new())
        } else {
            None
        };
        proof {
            if set is Some {
                assert(scalar_views(set->Some_0@) =~= Seq::empty());
            }
        }
        match function {
            AggregateFunction::Count => AggregateState::Count { value: 0, distinct: set },
            AggregateFunction::Sum => AggregateState::Sum {
                int_sum: 0,
                float_sum: 0,
                seen: false,
                distinct: set,
            },
            AggregateFunction::Min => AggregateState::Min(None),
            AggregateFunction::Max => AggregateState::Max(None),
            AggregateFunction::Avg => AggregateState::Avg { sum: 0, count: 0, distinct: set },
        }
    }

    /// The state after one value more.
    pub fn update(self, value: ScalarValue) -> (r: Result<Self, SparkXError>)
        requires
            self@.within(MAX_VALUES - 1),
        ensures
            state_outcome(r) == self@.updated(value@),
    {
        match self {
            AggregateState::Count { value: count, distinct } => {
                if value.is_null() || repeats(&distinct, &value) {
                    return Ok(AggregateState::Count { value: count, distinct });
                }
                Ok(
                    AggregateState::Count {
                        value: count + 1,
                        distinct: take_note(distinct, &value),
                    },
                )
            },
            AggregateState::Sum { int_sum, float_sum, seen, distinct } => {
                if value.is_null() || repeats(&distinct, &value) {
                    return Ok(AggregateState::Sum { int_sum, float_sum, seen, distinct });
                }
                let distinct = take_note(distinct, &value);
                match value {
                    ScalarValue::Int64(n) => Ok(
                        AggregateState::Sum {
                            int_sum: int_sum + n as i128,
                            float_sum,
                            seen: true,
                            distinct,
                        },
                    ),
                    ScalarValue::UInt64(n) => Ok(
                        AggregateState::Sum {
                            int_sum: int_sum + n as i128,
                            float_sum,
                            seen: true,
                            distinct,
                        },
                    ),
                    ScalarValue::Float64(bits) => Ok(
                        AggregateState::Sum {
                            int_sum,
                            float_sum: add_floats(float_sum, bits),
                            seen: true,
                            distinct,
                        },
                    ),
                    other => Err(
                        SparkXError::execution(
                            join("SUM does not support ", show(&other).as_str()),
                        ),
                    ),
                }
            },
            AggregateState::Min(current) => match update_extreme(current, value, Relation::Less) {
                Ok(next) => Ok(AggregateState::Min(next)),
                Err(error) => Err(error),
            },
            AggregateState::Max(current) => match update_extreme(
                current,
                value,
                Relation::Greater,
            ) {
                Ok(next) => Ok(AggregateState::Max(next)),
                Err(error) => Err(error),
            },
            AggregateState::Avg { sum, count, distinct } => {
                if value.is_null() || repeats(&distinct, &value) {
                    return Ok(AggregateState::Avg { sum, count, distinct });
                }
                let number: u64 = match numeric_value(&value) {
                    Ok(number) => number,
                    Err(error) => return Err(error),
                };
                Ok(
                    AggregateState::Avg {
                        sum: add_floats(sum, number),
                        count: count + 1,
                        distinct: take_note(distinct, &value),
                    },
                )
            },
        }
    }

    /// The value of the function over all that it was given.
    pub fn finish(&self) -> (r: ScalarValue)
        ensures
            r@ == self@.finished(),
    {
        match self {
            AggregateState::Count { value, .. } => ScalarValue::UInt64(*value),
            AggregateState::Sum { int_sum, float_sum, seen, .. } => {
                if *seen {
                    ScalarValue::Float64(add_floats(*float_sum, whole_to_float(*int_sum)))
                } else {
                    ScalarValue::Null
                }
            },
            AggregateState::Min(value) | AggregateState::Max(value) => match value {
                Some(value) => value.clone(),
                None => ScalarValue::Null,
            },
            AggregateState::Avg { sum, count, .. } => {
                if *count == 0 {
                    ScalarValue::Null
                } else {
                    ScalarValue::Float64(divide_floats(*sum, whole_to_float(*count as i128)))
                }
            },
        }
    }
}

} // verus!

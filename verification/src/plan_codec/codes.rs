//! Operators, functions, join types and data types by their codes.

use crate::error::{ErrorView, SparkXError};
use crate::expr::{AggregateFunction, Operator};
use crate::fragment::{codec_error, codec_failure};
use crate::logical::JoinType;
use crate::text::{join, signed_decimal, signed_numeral};
use crate::types::{DataType, DataTypeView};
use vstd::prelude::*;

verus! {

/// The version of the encoding.
pub const PLAN_CODEC_VERSION: u32 = 1;

pub open spec fn operator_code(operator: Operator) -> i32 {
    match operator {
        Operator::Eq => 0,
        Operator::NotEq => 1,
        Operator::Lt => 2,
        Operator::LtEq => 3,
        Operator::Gt => 4,
        Operator::GtEq => 5,
        Operator::And => 6,
        Operator::Or => 7,
        Operator::Add => 8,
        Operator::Subtract => 9,
        Operator::Multiply => 10,
        Operator::Divide => 11,
    }
}

pub open spec fn operator_of(code: i32) -> Result<Operator, ErrorView> {
    if code == 0 {
        Ok(Operator::Eq)
    } else if code == 1 {
        Ok(Operator::NotEq)
    } else if code == 2 {
        Ok(Operator::Lt)
    } else if code == 3 {
        Ok(Operator::LtEq)
    } else if code == 4 {
        Ok(Operator::Gt)
    } else if code == 5 {
        Ok(Operator::GtEq)
    } else if code == 6 {
        Ok(Operator::And)
    } else if code == 7 {
        Ok(Operator::Or)
    } else if code == 8 {
        Ok(Operator::Add)
    } else if code == 9 {
        Ok(Operator::Subtract)
    } else if code == 10 {
        Ok(Operator::Multiply)
    } else if code == 11 {
        Ok(Operator::Divide)
    } else {
        Err(codec_failure("unknown expression operator code "@ + signed_numeral(code as int)))
    }
}

pub open spec fn function_code(function: AggregateFunction) -> i32 {
    match function {
        AggregateFunction::Count => 0,
        AggregateFunction::Sum => 1,
        AggregateFunction::Min => 2,
        AggregateFunction::Max => 3,
        AggregateFunction::Avg => 4,
    }
}

pub open spec fn function_of(code: i32) -> Result<AggregateFunction, ErrorView> {
    if code == 0 {
        Ok(AggregateFunction::Count)
    } else if code == 1 {
        Ok(AggregateFunction::Sum)
    } else if code == 2 {
        Ok(AggregateFunction::Min)
    } else if code == 3 {
        Ok(AggregateFunction::Max)
    } else if code == 4 {
        Ok(AggregateFunction::Avg)
    } else {
        Err(codec_failure("unknown aggregate function code "@ + signed_numeral(code as int)))
    }
}

pub open spec fn join_code(join_type: JoinType) -> i32 {
    match join_type {
        JoinType::Inner => 0,
        JoinType::Left => 1,
    }
}

pub open spec fn join_of(code: i32) -> Result<JoinType, ErrorView> {
    if code == 0 {
        Ok(JoinType::Inner)
    } else if code == 1 {
        Ok(JoinType::Left)
    } else {
        Err(codec_failure("unknown join type code "@ + signed_numeral(code as int)))
    }
}

/// The code of a type, or the error that it has none.
pub open spec fn type_code(data_type: DataTypeView) -> Result<i32, ErrorView> {
    match data_type {
        DataTypeView::Null => Ok(0),
        DataTypeView::Boolean => Ok(1),
        DataTypeView::Int32 => Ok(2),
        DataTypeView::Int64 => Ok(3),
        DataTypeView::UInt32 => Ok(4),
        DataTypeView::UInt64 => Ok(5),
        DataTypeView::Float32 => Ok(6),
        DataTypeView::Float64 => Ok(7),
        DataTypeView::Utf8 => Ok(8),
        DataTypeView::Other(name) => Err(
            codec_failure(
                "Arrow data type "@ + name + " is not supported by plan codec version 1"@,
            ),
        ),
    }
}

pub open spec fn type_of(code: i32) -> Result<DataTypeView, ErrorView> {
    if code == 0 {
        Ok(DataTypeView::Null)
    } else if code == 1 {
        Ok(DataTypeView::Boolean)
    } else if code == 2 {
        Ok(DataTypeView::Int32)
    } else if code == 3 {
        Ok(DataTypeView::Int64)
    } else if code == 4 {
        Ok(DataTypeView::UInt32)
    } else if code == 5 {
        Ok(DataTypeView::UInt64)
    } else if code == 6 {
        Ok(DataTypeView::Float32)
    } else if code == 7 {
        Ok(DataTypeView::Float64)
    } else if code == 8 {
        Ok(DataTypeView::Utf8)
    } else {
        Err(codec_failure("unknown Arrow data-type code "@ + signed_numeral(code as int)))
    }
}

/// Codes stand for what they were made of.
pub proof fn codes_stand_for_their_origin(
    operator: Operator,
    function: AggregateFunction,
    join_type: JoinType,
    data_type: DataTypeView,
)
    ensures
        operator_of(operator_code(operator)) == Ok::<Operator, ErrorView>(operator),
        function_of(function_code(function)) == Ok::<AggregateFunction, ErrorView>(function),
        join_of(join_code(join_type)) == Ok::<JoinType, ErrorView>(join_type),
        type_code(data_type) matches Ok(code) ==> type_of(code) == Ok::<DataTypeView, ErrorView>(
            data_type,
        ),
{
}

fn unknown(what: &str, code: i32) -> (r: SparkXError)
    ensures
        r@ == codec_failure(what@ + signed_numeral(code as int)),
{
    codec_error(join(what, signed_decimal(code as i64).as_str()).as_str())
}

pub fn encode_operator(operator: Operator) -> (r: i32)
    ensures
        r == operator_code(operator),
{
    match operator {
        Operator::Eq => 0,
        Operator::NotEq => 1,
        Operator::Lt => 2,
        Operator::LtEq => 3,
        Operator::Gt => 4,
        Operator::GtEq => 5,
        Operator::And => 6,
        Operator::Or => 7,
        Operator::Add => 8,
        Operator::Subtract => 9,
        Operator::Multiply => 10,
        Operator::Divide => 11,
    }
}

pub fn decode_operator(code: i32) -> (r: Result<Operator, SparkXError>)
    ensures
        crate::error::outcome(r) == operator_of(code),
{
    if code == 0 {
        Ok(Operator::Eq)
    } else if code == 1 {
        Ok(Operator::NotEq)
    } else if code == 2 {
        Ok(Operator::Lt)
    } else if code == 3 {
        Ok(Operator::LtEq)
    } else if code == 4 {
        Ok(Operator::Gt)
    } else if code == 5 {
        Ok(Operator::GtEq)
    } else if code == 6 {
        Ok(Operator::And)
    } else if code == 7 {
        Ok(Operator::Or)
    } else if code == 8 {
        Ok(Operator::Add)
    } else if code == 9 {
        Ok(Operator::Subtract)
    } else if code == 10 {
        Ok(Operator::Multiply)
    } else if code == 11 {
        Ok(Operator::Divide)
    } else {
        Err(unknown("unknown expression operator code ", code))
    }
}

pub fn encode_aggregate_function(function: AggregateFunction) -> (r: i32)
    ensures
        r == function_code(function),
{
    match function {
        AggregateFunction::Count => 0,
        AggregateFunction::Sum => 1,
        AggregateFunction::Min => 2,
        AggregateFunction::Max => 3,
        AggregateFunction::Avg => 4,
    }
}

pub fn decode_aggregate_function(code: i32) -> (r: Result<AggregateFunction, SparkXError>)
    ensures
        crate::error::outcome(r) == function_of(code),
{
    if code == 0 {
        Ok(AggregateFunction::Count)
    } else if code == 1 {
        Ok(AggregateFunction::Sum)
    } else if code == 2 {
        Ok(AggregateFunction::Min)
    } else if code == 3 {
        Ok(AggregateFunction::Max)
    } else if code == 4 {
        Ok(AggregateFunction::Avg)
    } else {
        Err(unknown("unknown aggregate function code ", code))
    }
}

pub fn encode_join_type(join_type: JoinType) -> (r: i32)
    ensures
        r == join_code(join_type),
{
    match join_type {
        JoinType::Inner => 0,
        JoinType::Left => 1,
    }
}

pub fn decode_join_type(code: i32) -> (r: Result<JoinType, SparkXError>)
    ensures
        crate::error::outcome(r) == join_of(code),
{
    if code == 0 {
        Ok(JoinType::Inner)
    } else if code == 1 {
        Ok(JoinType::Left)
    } else {
        Err(unknown("unknown join type code ", code))
    }
}

pub fn encode_data_type(data_type: &DataType) -> (r: Result<i32, SparkXError>)
    ensures
        crate::error::outcome(r) == type_code(data_type@),
{
    match data_type {
        DataType::Null => Ok(0),
        DataType::Boolean => Ok(1),
        DataType::Int32 => Ok(2),
        DataType::Int64 => Ok(3),
        DataType::UInt32 => Ok(4),
        DataType::UInt64 => Ok(5),
        DataType::Float32 => Ok(6),
        DataType::Float64 => Ok(7),
        DataType::Utf8 => Ok(8),
        DataType::Other(name) => {
            let mut message: String = join("Arrow data type ", name.as_str());
            message.append(" is not supported by plan codec version 1");
            Err(codec_error(message.as_str()))
        },
    }
}

pub fn decode_data_type(code: i32) -> (r: Result<DataType, SparkXError>)
    ensures
        crate::expr::type_outcome(r) == type_of(code),
{
    if code == 0 {
        Ok(DataType::Null)
    } else if code == 1 {
        Ok(DataType::Boolean)
    } else if code == 2 {
        Ok(DataType::Int32)
    } else if code == 3 {
        Ok(DataType::Int64)
    } else if code == 4 {
        Ok(DataType::UInt32)
    } else if code == 5 {
        Ok(DataType::UInt64)
    } else if code == 6 {
        Ok(DataType::Float32)
    } else if code == 7 {
        Ok(DataType::Float64)
    } else if code == 8 {
        Ok(DataType::Utf8)
    } else {
        Err(unknown("unknown Arrow data-type code ", code))
    }
}

} // verus!

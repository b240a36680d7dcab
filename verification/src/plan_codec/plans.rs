//! Plans to and from their messages.

use crate::catalog::{find_table, Catalog, TableView};
use crate::error::{outcome, ErrorView, SparkXError};
use crate::expr::{clone_exprs, expr_views, Expr, ExprView};
use crate::fragment::{codec_error, codec_failure};
use crate::logical::{fields_of, infer_fields, join_fields, joined_fields, JoinType};
use crate::physical::{indices_view, physical_outcome, PhysicalPlan, PhysicalView};
use crate::plan_codec::codes::{decode_join_type, encode_join_type, join_code, join_of};
use crate::plan_codec::exprs::{
    decode_operand, decoded_operand, encode_expr, encoded_expr, missing, missing_error,
};
use crate::plan_codec::schemas::{
    decode_exprs, decode_operator_schema, decode_sorts, decoded_exprs, encode_exprs, encode_schema,
    encode_sorts, encoded_exprs, encoded_schema, encoded_sorts, operator_schema, operator_sorts,
};
use crate::text::{
    blank, decimal, is_blank, join, numeral, same_text, short_name, unqualified,
};
use crate::types::{plain_schema, DataType, FieldView, Schema, SchemaView};
use crate::wire::plans::{WirePlan, WirePlanView};
use vstd::prelude::*;

verus! {

/// How many operators may stand above each other.
pub const MAX_PLAN_DEPTH: usize = 128;

/// What is wrong with the depth of an operator, if anything is.
pub open spec fn depth_check(depth: nat) -> Result<(), ErrorView> {
    if depth >= MAX_PLAN_DEPTH {
        Err(codec_failure("plan exceeds maximum nesting depth 128"@))
    } else {
        Ok(())
    }
}

pub(crate) fn check_depth(depth: usize) -> (r: Result<(), SparkXError>)
    ensures
        outcome(r) == depth_check(depth as nat),
{
    if depth >= MAX_PLAN_DEPTH {
        return Err(codec_error("plan exceeds maximum nesting depth 128"));
    }
    Ok(())
}

// ---- encoding

/// The first `upto` places of columns in 32 bits, or the error that one has more.
pub open spec fn encoded_indices(indices: Seq<usize>, upto: int) -> Result<Seq<u32>, ErrorView>
    decreases upto,
{
    if upto <= 0 {
        Ok(Seq::empty())
    } else {
        match encoded_indices(indices, upto - 1) {
            Err(error) => Err(error),
            Ok(earlier) => if indices[upto - 1] > u32::MAX {
                Err(
                    codec_failure(
                        "scan projection index "@ + numeral(indices[upto - 1] as nat)
                            + " exceeds u32"@,
                    ),
                )
            } else {
                Ok(earlier.push(indices[upto - 1] as u32))
            },
        }
    }
}

pub open spec fn indices_or_none(projection: Option<Seq<usize>>) -> Seq<usize> {
    match projection {
        Some(indices) => indices,
        None => Seq::empty(),
    }
}

/// The message of a plan whose top stands `depth` operators below another's, or the first error.
pub open spec fn encoded_plan(plan: PhysicalView, depth: nat) -> Result<WirePlanView, ErrorView>
    decreases plan,
{
    if depth_check(depth) is Err {
        Err(depth_check(depth)->Err_0)
    } else {
        match plan {
            PhysicalView::Scan { id, table_name, projection, filters, schema, .. } => {
                let indices = indices_or_none(projection);
                match encoded_indices(indices, indices.len() as int) {
                    Err(error) => Err(error),
                    Ok(indices) => match encoded_exprs(filters, filters.len() as int) {
                        Err(error) => Err(error),
                        Ok(filters) => match encoded_schema(schema) {
                            Err(error) => Err(error),
                            Ok(schema) => Ok(
                                WirePlanView::Scan {
                                    id,
                                    table_name,
                                    has_projection: projection is Some,
                                    projection: indices,
                                    filters,
                                    schema: Some(schema),
                                },
                            ),
                        },
                    },
                }
            },
            PhysicalView::Projection { id, input, exprs, schema } => match encoded_plan(
                *input,
                depth + 1,
            ) {
                Err(error) => Err(error),
                Ok(input) => match encoded_exprs(exprs, exprs.len() as int) {
                    Err(error) => Err(error),
                    Ok(exprs) => match encoded_schema(schema) {
                        Err(error) => Err(error),
                        Ok(schema) => Ok(
                            WirePlanView::Projection {
                                id,
                                input: Box::new(input),
                                exprs,
                                schema: Some(schema),
                            },
                        ),
                    },
                },
            },
            PhysicalView::Filter { id, input, predicate, schema } => match encoded_plan(
                *input,
                depth + 1,
            ) {
                Err(error) => Err(error),
                Ok(input) => match encoded_expr(predicate) {
                    Err(error) => Err(error),
                    Ok(predicate) => match encoded_schema(schema) {
                        Err(error) => Err(error),
                        Ok(schema) => Ok(
                            WirePlanView::Filter {
                                id,
                                input: Box::new(input),
                                predicate,
                                schema: Some(schema),
                            },
                        ),
                    },
                },
            },
            PhysicalView::HashAggregate { id, input, group_exprs, aggregate_exprs, schema } => {
                match encoded_plan(*input, depth + 1) {
                    Err(error) => Err(error),
                    Ok(input) => match encoded_exprs(group_exprs, group_exprs.len() as int) {
                        Err(error) => Err(error),
                        Ok(group_exprs) => match encoded_exprs(
                            aggregate_exprs,
                            aggregate_exprs.len() as int,
                        ) {
                            Err(error) => Err(error),
                            Ok(aggregate_exprs) => match encoded_schema(schema) {
                                Err(error) => Err(error),
                                Ok(schema) => Ok(
                                    WirePlanView::HashAggregate {
                                        id,
                                        input: Box::new(input),
                                        group_exprs,
                                        aggregate_exprs,
                                        schema: Some(schema),
                                    },
                                ),
                            },
                        },
                    },
                }
            },
            PhysicalView::Sort { id, input, exprs, schema } => match encoded_plan(
                *input,
                depth + 1,
            ) {
                Err(error) => Err(error),
                Ok(input) => match encoded_sorts(exprs, exprs.len() as int) {
                    Err(error) => Err(error),
                    Ok(exprs) => match encoded_schema(schema) {
                        Err(error) => Err(error),
                        Ok(schema) => Ok(
                            WirePlanView::Sort {
                                id,
                                input: Box::new(input),
                                exprs,
                                schema: Some(schema),
                            },
                        ),
                    },
                },
            },
            PhysicalView::TopK { id, input, exprs, limit, schema } => match encoded_plan(
                *input,
                depth + 1,
            ) {
                Err(error) => Err(error),
                Ok(input) => match encoded_sorts(exprs, exprs.len() as int) {
                    Err(error) => Err(error),
                    Ok(exprs) => match encoded_schema(schema) {
                        Err(error) => Err(error),
                        Ok(schema) => Ok(
                            WirePlanView::TopK {
                                id,
                                input: Box::new(input),
                                exprs,
                                limit: limit as u64,
                                schema: Some(schema),
                            },
                        ),
                    },
                },
            },
            PhysicalView::Limit { id, input, limit, schema } => match encoded_plan(
                *input,
                depth + 1,
            ) {
                Err(error) => Err(error),
                Ok(input) => match encoded_schema(schema) {
                    Err(error) => Err(error),
                    Ok(schema) => Ok(
                        WirePlanView::Limit {
                            id,
                            input: Box::new(input),
                            limit: limit as u64,
                            schema: Some(schema),
                        },
                    ),
                },
            },
            PhysicalView::HashJoin { id, left, right, join_type, left_on, right_on, schema } => {
                match encoded_plan(*left, depth + 1) {
                    Err(error) => Err(error),
                    Ok(left) => match encoded_plan(*right, depth + 1) {
                        Err(error) => Err(error),
                        Ok(right) => match encoded_exprs(left_on, left_on.len() as int) {
                            Err(error) => Err(error),
                            Ok(left_on) => match encoded_exprs(right_on, right_on.len() as int) {
                                Err(error) => Err(error),
                                Ok(right_on) => match encoded_schema(schema) {
                                    Err(error) => Err(error),
                                    Ok(schema) => Ok(
                                        WirePlanView::HashJoin {
                                            id,
                                            left: Box::new(left),
                                            right: Box::new(right),
                                            join_type: join_code(join_type),
                                            left_on,
                                            right_on,
                                            schema: Some(schema),
                                        },
                                    ),
                                },
                            },
                        },
                    },
                }
            },
        }
    }
}

/// A message of a plan, as contracts see it.
pub open spec fn wire_plan_outcome(r: Result<WirePlan, SparkXError>) -> Result<
    WirePlanView,
    ErrorView,
> {
    match r {
        Ok(plan) => Ok(plan@),
        Err(error) => Err(error@),
    }
}

proof fn indices_fail_early(indices: Seq<usize>, upto: int, full: int)
    requires
        0 <= upto <= full,
        encoded_indices(indices, upto) is Err,
    ensures
        encoded_indices(indices, full) == encoded_indices(indices, upto),
    decreases full - upto,
{
    if upto < full {
        indices_fail_early(indices, upto, full - 1);
    }
}

fn encode_indices(projection: &Option<Vec<usize>>) -> (r: Result<Vec<u32>, SparkXError>)
    ensures
        ({
            let indices = indices_or_none(indices_view(*projection));
            match r {
                Ok(list) => encoded_indices(indices, indices.len() as int) == Ok::<
                    Seq<u32>,
                    ErrorView,
                >(list@),
                Err(error) => encoded_indices(indices, indices.len() as int) == Err::<
                    Seq<u32>,
                    ErrorView,
                >(error@),
            }
        }),
{
    let mut list: Vec<u32> = Vec::new();
    proof {
        assert(list@ =~= Seq::empty());
    }
    if let Some(indices) = projection {
        for i in 0..indices.len()
            invariant
                indices@ == indices_or_none(indices_view(*projection)),
                encoded_indices(indices@, i as int) == Ok::<Seq<u32>, ErrorView>(list@),
        {
            proof {
                if encoded_indices(indices@, i + 1) is Err {
                    indices_fail_early(indices@, i + 1, indices.len() as int);
                }
            }
            if indices[i] > 0xFFFF_FFFF {
                let mut message: String = join(
                    "scan projection index ",
                    decimal(indices[i] as u64).as_str(),
                );
                message.append(" exceeds u32");
                return Err(codec_error(message.as_str()));
            }
            list.push(indices[i] as u32);
        }
    }
    Ok(list)
}

pub fn encode_plan(plan: &PhysicalPlan, depth: usize) -> (r: Result<WirePlan, SparkXError>)
    ensures
        wire_plan_outcome(r) == encoded_plan(plan@, depth as nat),
    decreases plan,
{
    match check_depth(depth) {
        Ok(()) => {},
        Err(error) => return Err(error),
    }
    match plan {
        PhysicalPlan::Scan { id, table_name, projection, filters, schema, .. } => {
            let indices = match encode_indices(projection) {
                Ok(indices) => indices,
                Err(error) => return Err(error),
            };
            let filters = match encode_exprs(filters) {
                Ok(exprs) => exprs,
                Err(error) => return Err(error),
            };
            let schema = match encode_schema(schema) {
                Ok(schema) => schema,
                Err(error) => return Err(error),
            };
            Ok(
                WirePlan::Scan {
                    id: *id,
                    table_name: table_name.clone(),
                    has_projection: projection.is_some(),
                    projection: indices,
                    filters,
                    schema: Some(schema),
                },
            )
        },
        PhysicalPlan::Projection { id, input, exprs, schema } => {
            let input = match encode_plan(input, depth + 1) {
                Ok(plan) => plan,
                Err(error) => return Err(error),
            };
            let exprs = match encode_exprs(exprs) {
                Ok(exprs) => exprs,
                Err(error) => return Err(error),
            };
            let schema = match encode_schema(schema) {
                Ok(schema) => schema,
                Err(error) => return Err(error),
            };
            Ok(
                WirePlan::Projection { id: *id, input: Box::new(input), exprs, schema: Some(schema) },
            )
        },
        PhysicalPlan::Filter { id, input, predicate, schema } => {
            let input = match encode_plan(input, depth + 1) {
                Ok(plan) => plan,
                Err(error) => return Err(error),
            };
            let predicate = match encode_expr(predicate) {
                Ok(expr) => expr,
                Err(error) => return Err(error),
            };
            let schema = match encode_schema(schema) {
                Ok(schema) => schema,
                Err(error) => return Err(error),
            };
            Ok(
                WirePlan::Filter { id: *id, input: Box::new(input), predicate, schema: Some(schema) },
            )
        },
        PhysicalPlan::HashAggregate { id, input, group_exprs, aggregate_exprs, schema } => {
            let input = match encode_plan(input, depth + 1) {
                Ok(plan) => plan,
                Err(error) => return Err(error),
            };
            let group_exprs = match encode_exprs(group_exprs) {
                Ok(exprs) => exprs,
                Err(error) => return Err(error),
            };
            let aggregate_exprs = match encode_exprs(aggregate_exprs) {
                Ok(exprs) => exprs,
                Err(error) => return Err(error),
            };
            let schema = match encode_schema(schema) {
                Ok(schema) => schema,
                Err(error) => return Err(error),
            };
            Ok(
                WirePlan::HashAggregate {
                    id: *id,
                    input: Box::new(input),
                    group_exprs,
                    aggregate_exprs,
                    schema: Some(schema),
                },
            )
        },
        PhysicalPlan::Sort { id, input, exprs, schema } => {
            let input = match encode_plan(input, depth + 1) {
                Ok(plan) => plan,
                Err(error) => return Err(error),
            };
            let exprs = match encode_sorts(exprs) {
                Ok(exprs) => exprs,
                Err(error) => return Err(error),
            };
            let schema = match encode_schema(schema) {
                Ok(schema) => schema,
                Err(error) => return Err(error),
            };
            Ok(WirePlan::Sort { id: *id, input: Box::new(input), exprs, schema: Some(schema) })
        },
        PhysicalPlan::TopK { id, input, exprs, limit, schema } => {
            let input = match encode_plan(input, depth + 1) {
                Ok(plan) => plan,
                Err(error) => return Err(error),
            };
            let exprs = match encode_sorts(exprs) {
                Ok(exprs) => exprs,
                Err(error) => return Err(error),
            };
            let schema = match encode_schema(schema) {
                Ok(schema) => schema,
                Err(error) => return Err(error),
            };
            Ok(
                WirePlan::TopK {
                    id: *id,
                    input: Box::new(input),
                    exprs,
                    limit: *limit as u64,
                    schema: Some(schema),
                },
            )
        },
        PhysicalPlan::Limit { id, input, limit, schema } => {
            let input = match encode_plan(input, depth + 1) {
                Ok(plan) => plan,
                Err(error) => return Err(error),
            };
            let schema = match encode_schema(schema) {
                Ok(schema) => schema,
                Err(error) => return Err(error),
            };
            Ok(
                WirePlan::Limit {
                    id: *id,
                    input: Box::new(input),
                    limit: *limit as u64,
                    schema: Some(schema),
                },
            )
        },
        PhysicalPlan::HashJoin { id, left, right, join_type, left_on, right_on, schema } => {
            let left = match encode_plan(left, depth + 1) {
                Ok(plan) => plan,
                Err(error) => return Err(error),
            };
            let right = match encode_plan(right, depth + 1) {
                Ok(plan) => plan,
                Err(error) => return Err(error),
            };
            let left_on = match encode_exprs(left_on) {
                Ok(exprs) => exprs,
                Err(error) => return Err(error),
            };
            let right_on = match encode_exprs(right_on) {
                Ok(exprs) => exprs,
                Err(error) => return Err(error),
            };
            let schema = match encode_schema(schema) {
                Ok(schema) => schema,
                Err(error) => return Err(error),
            };
            Ok(
                WirePlan::HashJoin {
                    id: *id,
                    left: Box::new(left),
                    right: Box::new(right),
                    join_type: encode_join_type(*join_type),
                    left_on,
                    right_on,
                    schema: Some(schema),
                },
            )
        },
    }
}

// ---- what holds of sound operators

/// The fields that a scan of a table gives.
pub open spec fn projected_fields(schema: SchemaView, projection: Option<Seq<usize>>) -> Seq<
    FieldView,
> {
    match projection {
        None => schema.fields,
        Some(indices) => Seq::new(
            indices.len(),
            |i: int| schema.fields[indices[i] as int],
        ),
    }
}

/// The error of the first place at or after `from` that is outside a table's schema.
pub open spec fn indices_check(
    table: Seq<char>,
    indices: Seq<usize>,
    width: nat,
    from: int,
) -> Result<(), ErrorView>
    decreases indices.len() - from,
{
    if from >= indices.len() {
        Ok(())
    } else if indices[from] >= width {
        Err(
            codec_failure(
                "scan projection index "@ + numeral(indices[from] as nat) + " is outside table '"@
                    + table + "' schema"@,
            ),
        )
    } else {
        indices_check(table, indices, width, from + 1)
    }
}

/// The error of the first field at or after `from` that a table does not have as a scan expects it.
pub open spec fn scan_fields_check(
    table: Seq<char>,
    expected: Seq<FieldView>,
    actual: Seq<FieldView>,
    from: int,
) -> Result<(), ErrorView>
    decreases expected.len() - from,
{
    if from >= expected.len() {
        Ok(())
    } else if short_name(expected[from].name) != short_name(actual[from].name)
        || expected[from].data_type != actual[from].data_type || expected[from].nullable
        != actual[from].nullable || expected[from].metadata != actual[from].metadata {
        Err(
            codec_failure(
                "scan field '"@ + expected[from].name + "' does not match worker catalog field '"@
                    + actual[from].name + "' for table '"@ + table + "'"@,
            ),
        )
    } else {
        scan_fields_check(table, expected, actual, from + 1)
    }
}

/// What keeps a scan from reading a table, if anything does.
pub open spec fn scan_check(
    table: Seq<char>,
    provider: SchemaView,
    projection: Option<Seq<usize>>,
    schema: SchemaView,
) -> Result<(), ErrorView> {
    let indices = indices_check(
        table,
        indices_or_none(projection),
        provider.fields.len(),
        0,
    );
    let actual = projected_fields(provider, projection);
    if indices is Err {
        indices
    } else if actual.len() != schema.fields.len() {
        Err(
            codec_failure(
                "scan schema for table '"@ + table + "' has "@ + numeral(schema.fields.len())
                    + " fields but worker catalog provides "@ + numeral(actual.len()),
            ),
        )
    } else {
        scan_fields_check(table, schema.fields, actual, 0)
    }
}

/// What keeps a schema from being the one that is expected, if anything does.
pub open spec fn schema_check(operator: Seq<char>, actual: SchemaView, expected: SchemaView) -> Result<
    (),
    ErrorView,
> {
    if actual != expected {
        Err(
            codec_failure(
                operator + " output schema does not match its decoded expressions or inputs"@,
            ),
        )
    } else {
        Ok(())
    }
}

/// What keeps a schema from being that of some expressions, if anything does.
pub open spec fn exprs_check(
    operator: Seq<char>,
    exprs: Seq<ExprView>,
    input: SchemaView,
    schema: SchemaView,
) -> Result<(), ErrorView> {
    match fields_of(exprs, input, exprs.len() as int) {
        Err(error) => Err(error),
        Ok(fields) => schema_check(operator, schema, plain_schema(fields)),
    }
}

/// What keeps an expression from being a predicate, if anything does.
pub open spec fn predicate_check(predicate: ExprView, input: SchemaView) -> Result<(), ErrorView> {
    match predicate.data_type(input) {
        Err(error) => Err(error),
        Ok(data_type) => if data_type is Boolean {
            Ok(())
        } else {
            Err(codec_failure("filter predicate must be Boolean"@))
        },
    }
}

/// The error of the first pair of join keys at or after `from` that do not fit.
pub open spec fn join_keys_check(
    left_on: Seq<ExprView>,
    left: SchemaView,
    right_on: Seq<ExprView>,
    right: SchemaView,
    from: int,
) -> Result<(), ErrorView>
    decreases left_on.len() - from,
{
    if from >= left_on.len() {
        Ok(())
    } else {
        match left_on[from].data_type(left) {
            Err(error) => Err(error),
            Ok(left_type) => match right_on[from].data_type(right) {
                Err(error) => Err(error),
                Ok(right_type) => if left_type != right_type {
                    Err(
                        codec_failure(
                            "hash join key types differ: "@ + left_type.name() + " versus "@
                                + right_type.name(),
                        ),
                    )
                } else {
                    join_keys_check(left_on, left, right_on, right, from + 1)
                },
            },
        }
    }
}

/// What keeps a join from being sound, if anything does.
pub open spec fn join_check(
    left_on: Seq<ExprView>,
    left: SchemaView,
    right_on: Seq<ExprView>,
    right: SchemaView,
) -> Result<(), ErrorView> {
    if left_on.len() == 0 || left_on.len() != right_on.len() {
        Err(
            codec_failure(
                "hash join requires the same non-zero number of left and right keys"@,
            ),
        )
    } else {
        join_keys_check(left_on, left, right_on, right, 0)
    }
}

/// The schema of a join.
pub open spec fn join_schema(left: SchemaView, right: SchemaView, join_type: JoinType) -> SchemaView {
    plain_schema(joined_fields(left.fields, right.fields, join_type, right.fields.len() as int))
}

// ---- decoding

/// The places of the columns that a scan reads.
pub open spec fn decoded_projection(has_projection: bool, indices: Seq<u32>) -> Result<
    Option<Seq<usize>>,
    ErrorView,
> {
    if has_projection {
        Ok(Some(Seq::new(indices.len(), |i: int| indices[i] as usize)))
    } else if indices.len() > 0 {
        Err(codec_failure("scan projection contains indices while has_projection is false"@))
    } else {
        Ok(None)
    }
}

/// The table of a scan, or the error that there is none.
pub open spec fn scan_table(tables: Map<Seq<char>, TableView>, name: Seq<char>) -> Result<
    TableView,
    ErrorView,
> {
    match find_table(tables, name) {
        Ok(table) => Ok(table),
        Err(error) => Err(
            codec_failure("worker cannot resolve scan table '"@ + name + "': "@ + error.text()),
        ),
    }
}

/// The number of rows that a limit keeps.
pub open spec fn decoded_limit(limit: u64, name: Seq<char>) -> Result<usize, ErrorView> {
    if limit > usize::MAX {
        Err(codec_failure(name + " "@ + numeral(limit as nat) + " exceeds usize"@))
    } else {
        Ok(limit as usize)
    }
}

/// The plan of an input, or the error that there is none.
pub open spec fn decoded_input(
    plan: WirePlanView,
    name: Seq<char>,
    tables: Map<Seq<char>, TableView>,
    depth: nat,
) -> Result<PhysicalView, ErrorView>
    decreases plan, 1int,
{
    if plan is Absent {
        Err(missing(name))
    } else {
        decoded_plan(plan, tables, depth)
    }
}

/// The plan of a message over the tables of a catalog, or the first error.
pub open spec fn decoded_plan(
    plan: WirePlanView,
    tables: Map<Seq<char>, TableView>,
    depth: nat,
) -> Result<PhysicalView, ErrorView>
    decreases plan, 0int,
{
    if depth_check(depth) is Err {
        Err(depth_check(depth)->Err_0)
    } else {
        match plan {
            WirePlanView::Absent | WirePlanView::Empty => Err(missing("plan operator"@)),
            WirePlanView::Scan { id, table_name, has_projection, projection, filters, schema } => {
                if blank(table_name) {
                    Err(codec_failure("scan table name must not be empty"@))
                } else {
                    match scan_table(tables, table_name) {
                        Err(error) => Err(error),
                        Ok(provider) => match decoded_projection(has_projection, projection) {
                            Err(error) => Err(error),
                            Ok(projection) => match operator_schema(schema, "scan"@) {
                                Err(error) => Err(error),
                                Ok(schema) => match scan_check(
                                    table_name,
                                    provider.schema,
                                    projection,
                                    schema,
                                ) {
                                    Err(error) => Err(error),
                                    Ok(()) => match decoded_exprs(filters, filters.len() as int) {
                                        Err(error) => Err(error),
                                        Ok(filters) => Ok(
                                            PhysicalView::Scan {
                                                id,
                                                table_name,
                                                provider,
                                                projection,
                                                filters,
                                                schema,
                                            },
                                        ),
                                    },
                                },
                            },
                        },
                    }
                }
            },
            WirePlanView::Projection { id, input, exprs, schema } => match decoded_input(
                *input,
                "projection input"@,
                tables,
                depth + 1,
            ) {
                Err(error) => Err(error),
                Ok(input) => match decoded_exprs(exprs, exprs.len() as int) {
                    Err(error) => Err(error),
                    Ok(exprs) => match operator_schema(schema, "projection"@) {
                        Err(error) => Err(error),
                        Ok(schema) => match exprs_check(
                            "projection"@,
                            exprs,
                            input.schema(),
                            schema,
                        ) {
                            Err(error) => Err(error),
                            Ok(()) => Ok(
                                PhysicalView::Projection {
                                    id,
                                    input: Box::new(input),
                                    exprs,
                                    schema,
                                },
                            ),
                        },
                    },
                },
            },
            WirePlanView::Filter { id, input, predicate, schema } => match decoded_input(
                *input,
                "filter input"@,
                tables,
                depth + 1,
            ) {
                Err(error) => Err(error),
                Ok(input) => match decoded_operand(predicate, "filter predicate"@) {
                    Err(error) => Err(error),
                    Ok(predicate) => match predicate_check(predicate, input.schema()) {
                        Err(error) => Err(error),
                        Ok(()) => match operator_schema(schema, "filter"@) {
                            Err(error) => Err(error),
                            Ok(schema) => match schema_check(
                                "filter"@,
                                schema,
                                input.schema(),
                            ) {
                                Err(error) => Err(error),
                                Ok(()) => Ok(
                                    PhysicalView::Filter {
                                        id,
                                        input: Box::new(input),
                                        predicate,
                                        schema,
                                    },
                                ),
                            },
                        },
                    },
                },
            },
            WirePlanView::HashAggregate { id, input, group_exprs, aggregate_exprs, schema } => {
                match decoded_input(*input, "hash aggregate input"@, tables, depth + 1) {
                    Err(error) => Err(error),
                    Ok(input) => match decoded_exprs(group_exprs, group_exprs.len() as int) {
                        Err(error) => Err(error),
                        Ok(group_exprs) => match decoded_exprs(
                            aggregate_exprs,
                            aggregate_exprs.len() as int,
                        ) {
                            Err(error) => Err(error),
                            Ok(aggregate_exprs) => match operator_schema(
                                schema,
                                "hash aggregate"@,
                            ) {
                                Err(error) => Err(error),
                                Ok(schema) => match exprs_check(
                                    "hash aggregate"@,
                                    group_exprs + aggregate_exprs,
                                    input.schema(),
                                    schema,
                                ) {
                                    Err(error) => Err(error),
                                    Ok(()) => Ok(
                                        PhysicalView::HashAggregate {
                                            id,
                                            input: Box::new(input),
                                            group_exprs,
                                            aggregate_exprs,
                                            schema,
                                        },
                                    ),
                                },
                            },
                        },
                    },
                }
            },
            WirePlanView::Sort { id, input, exprs, schema } => match decoded_input(
                *input,
                "sort input"@,
                tables,
                depth + 1,
            ) {
                Err(error) => Err(error),
                Ok(input) => match operator_sorts(exprs, input.schema()) {
                    Err(error) => Err(error),
                    Ok(exprs) => match operator_schema(schema, "sort"@) {
                        Err(error) => Err(error),
                        Ok(schema) => match schema_check("sort"@, schema, input.schema()) {
                            Err(error) => Err(error),
                            Ok(()) => Ok(
                                PhysicalView::Sort { id, input: Box::new(input), exprs, schema },
                            ),
                        },
                    },
                },
            },
            WirePlanView::TopK { id, input, exprs, limit, schema } => match decoded_input(
                *input,
                "Top-K input"@,
                tables,
                depth + 1,
            ) {
                Err(error) => Err(error),
                Ok(input) => match operator_sorts(exprs, input.schema()) {
                    Err(error) => Err(error),
                    Ok(exprs) => match operator_schema(schema, "Top-K"@) {
                        Err(error) => Err(error),
                        Ok(schema) => match schema_check("Top-K"@, schema, input.schema()) {
                            Err(error) => Err(error),
                            Ok(()) => match decoded_limit(limit, "Top-K limit"@) {
                                Err(error) => Err(error),
                                Ok(limit) => Ok(
                                    PhysicalView::TopK {
                                        id,
                                        input: Box::new(input),
                                        exprs,
                                        limit,
                                        schema,
                                    },
                                ),
                            },
                        },
                    },
                },
            },
            WirePlanView::Limit { id, input, limit, schema } => match decoded_input(
                *input,
                "limit input"@,
                tables,
                depth + 1,
            ) {
                Err(error) => Err(error),
                Ok(input) => match operator_schema(schema, "limit"@) {
                    Err(error) => Err(error),
                    Ok(schema) => match schema_check("limit"@, schema, input.schema()) {
                        Err(error) => Err(error),
                        Ok(()) => match decoded_limit(limit, "limit"@) {
                            Err(error) => Err(error),
                            Ok(limit) => Ok(
                                PhysicalView::Limit { id, input: Box::new(input), limit, schema },
                            ),
                        },
                    },
                },
            },
            WirePlanView::HashJoin { id, left, right, join_type, left_on, right_on, schema } => {
                match decoded_input(*left, "join left input"@, tables, depth + 1) {
                    Err(error) => Err(error),
                    Ok(left) => match decoded_input(
                        *right,
                        "join right input"@,
                        tables,
                        depth + 1,
                    ) {
                        Err(error) => Err(error),
                        Ok(right) => match join_of(join_type) {
                            Err(error) => Err(error),
                            Ok(join_type) => match decoded_exprs(left_on, left_on.len() as int) {
                                Err(error) => Err(error),
                                Ok(left_on) => match decoded_exprs(
                                    right_on,
                                    right_on.len() as int,
                                ) {
                                    Err(error) => Err(error),
                                    Ok(right_on) => match join_check(
                                        left_on,
                                        left.schema(),
                                        right_on,
                                        right.schema(),
                                    ) {
                                        Err(error) => Err(error),
                                        Ok(()) => match operator_schema(schema, "hash join"@) {
                                            Err(error) => Err(error),
                                            Ok(schema) => match schema_check(
                                                "hash join"@,
                                                schema,
                                                join_schema(
                                                    left.schema(),
                                                    right.schema(),
                                                    join_type,
                                                ),
                                            ) {
                                                Err(error) => Err(error),
                                                Ok(()) => Ok(
                                                    PhysicalView::HashJoin {
                                                        id,
                                                        left: Box::new(left),
                                                        right: Box::new(right),
                                                        join_type,
                                                        left_on,
                                                        right_on,
                                                        schema,
                                                    },
                                                ),
                                            },
                                        },
                                    },
                                },
                            },
                        },
                    },
                }
            },
        }
    }
}

fn validate_scan_schema(
    table: &str,
    provider: &Schema,
    projection: &Option<Vec<usize>>,
    schema: &Schema,
) -> (r: Result<(), SparkXError>)
    ensures
        outcome(r) == scan_check(table@, provider@, indices_view(*projection), schema@),
{
    let ghost indices_now = indices_or_none(indices_view(*projection));
    let width: usize = provider.fields.len();
    let mut count: usize = width;
    if let Some(indices) = projection {
        for i in 0..indices.len()
            invariant
                width == provider@.fields.len(),
                indices@ == indices_now,
                indices_now == indices_or_none(indices_view(*projection)),
                indices_check(table@, indices_now, width as nat, 0) == indices_check(
                    table@,
                    indices_now,
                    width as nat,
                    i as int,
                ),
                forall|k: int| 0 <= k < i ==> #[trigger] indices@[k] < width,
        {
            if indices[i] >= width {
                let mut message: String = join(
                    "scan projection index ",
                    decimal(indices[i] as u64).as_str(),
                );
                message.append(" is outside table '");
                message.append(table);
                message.append("' schema");
                return Err(codec_error(message.as_str()));
            }
        }
        count = indices.len();
    }
    let ghost actual = projected_fields(provider@, indices_view(*projection));
    if count != schema.fields.len() {
        let mut message: String = join("scan schema for table '", table);
        message.append("' has ");
        message.append(decimal(schema.fields.len() as u64).as_str());
        message.append(" fields but worker catalog provides ");
        message.append(decimal(count as u64).as_str());
        return Err(codec_error(message.as_str()));
    }
    for i in 0..count
        invariant
            count == schema.fields.len(),
            count == actual.len(),
            width == provider.fields.len(),
            indices_now == indices_or_none(indices_view(*projection)),
            actual == projected_fields(provider@, indices_view(*projection)),
            projection matches Some(indices) ==> indices.len() == count && forall|k: int|
                0 <= k < count ==> #[trigger] indices@[k] < width,
            projection is None ==> count == width,
            indices_check(table@, indices_now, width as nat, 0) is Ok,
            scan_fields_check(table@, schema@.fields, actual, 0) == scan_fields_check(
                table@,
                schema@.fields,
                actual,
                i as int,
            ),
    {
        let index: usize = match projection {
            Some(indices) => indices[i],
            None => i,
        };
        let expected = &schema.fields[i];
        let found = &provider.fields[index];
        proof {
            assert(schema@.fields[i as int] == expected@);
            assert(actual[i as int] == found@);
        }
        if !same_text(unqualified(expected.name.as_str()), unqualified(found.name.as_str()))
            || !expected.same_kind(found) {
            let mut message: String = join("scan field '", expected.name.as_str());
            message.append("' does not match worker catalog field '");
            message.append(found.name.as_str());
            message.append("' for table '");
            message.append(table);
            message.append("'");
            return Err(codec_error(message.as_str()));
        }
    }
    Ok(())
}

fn validate_schema(operator: &str, actual: &Schema, expected: &Schema) -> (r: Result<
    (),
    SparkXError,
>)
    ensures
        outcome(r) == schema_check(operator@, actual@, expected@),
{
    if !actual.same(expected) {
        return Err(
            codec_error(
                join(
                    operator,
                    " output schema does not match its decoded expressions or inputs",
                ).as_str(),
            ),
        );
    }
    Ok(())
}

fn validate_exprs(operator: &str, exprs: &Vec<Expr>, input: &Schema, schema: &Schema) -> (r: Result<
    (),
    SparkXError,
>)
    ensures
        outcome(r) == exprs_check(operator@, expr_views(exprs@), input@, schema@),
{
    match infer_fields(exprs, input) {
        Ok(fields) => validate_schema(operator, schema, &Schema::new(fields)),
        Err(error) => Err(error),
    }
}

fn validate_join_keys(
    left_on: &Vec<Expr>,
    left: &Schema,
    right_on: &Vec<Expr>,
    right: &Schema,
) -> (r: Result<(), SparkXError>)
    ensures
        outcome(r) == join_check(expr_views(left_on@), left@, expr_views(right_on@), right@),
{
    let ghost left_keys = expr_views(left_on@);
    let ghost right_keys = expr_views(right_on@);
    if left_on.len() == 0 || left_on.len() != right_on.len() {
        return Err(
            codec_error("hash join requires the same non-zero number of left and right keys"),
        );
    }
    for i in 0..left_on.len()
        invariant
            left_on.len() == right_on.len(),
            left_on.len() > 0,
            left_keys == expr_views(left_on@),
            right_keys == expr_views(right_on@),
            join_keys_check(left_keys, left@, right_keys, right@, 0) == join_keys_check(
                left_keys,
                left@,
                right_keys,
                right@,
                i as int,
            ),
    {
        proof {
            assert(left_keys[i as int] == left_on@[i as int]@);
            assert(right_keys[i as int] == right_on@[i as int]@);
        }
        let left_type = match left_on[i].data_type(left) {
            Ok(data_type) => data_type,
            Err(error) => return Err(error),
        };
        let right_type = match right_on[i].data_type(right) {
            Ok(data_type) => data_type,
            Err(error) => return Err(error),
        };
        if !left_type.same(&right_type) {
            let mut message: String = join(
                "hash join key types differ: ",
                left_type.to_text().as_str(),
            );
            message.append(" versus ");
            message.append(right_type.to_text().as_str());
            return Err(codec_error(message.as_str()));
        }
    }
    Ok(())
}

pub(crate) fn decode_projection(has_projection: bool, indices: &Vec<u32>) -> (r: Result<
    Option<Vec<usize>>,
    SparkXError,
>)
    ensures
        match r {
            Ok(projection) => decoded_projection(has_projection, indices@) == Ok::<
                Option<Seq<usize>>,
                ErrorView,
            >(indices_view(projection)),
            Err(error) => decoded_projection(has_projection, indices@) == Err::<
                Option<Seq<usize>>,
                ErrorView,
            >(error@),
        },
{
    if !has_projection {
        if indices.len() > 0 {
            return Err(
                codec_error("scan projection contains indices while has_projection is false"),
            );
        }
        return Ok(None);
    }
    let mut list: Vec<usize> = Vec::new();
    for i in 0..indices.len()
        invariant
            list.len() == i,
            forall|k: int| 0 <= k < i ==> #[trigger] list@[k] == indices@[k] as usize,
    {
        list.push(indices[i] as usize);
    }
    proof {
        assert(list@ =~= Seq::new(indices@.len(), |i: int| indices@[i] as usize));
    }
    Ok(Some(list))
}

pub(crate) fn decode_limit(limit: u64, name: &str) -> (r: Result<usize, SparkXError>)
    ensures
        outcome(r) == decoded_limit(limit, name@),
{
    if limit > usize::MAX as u64 {
        let mut message: String = join(name, " ");
        message.append(decimal(limit).as_str());
        message.append(" exceeds usize");
        return Err(codec_error(message.as_str()));
    }
    Ok(limit as usize)
}

fn decode_input(plan: &WirePlan, name: &str, catalog: &Catalog, depth: usize) -> (r: Result<
    PhysicalPlan,
    SparkXError,
>)
    requires
        catalog.wf(),
    ensures
        physical_outcome(r) == decoded_input(plan@, name@, catalog@, depth as nat),
    decreases plan, 1int,
{
    if let WirePlan::Absent = plan {
        return Err(missing_error(name));
    }
    decode_plan(plan, catalog, depth)
}

/// The plan of a message over the tables of a catalog.
#[verifier::spinoff_prover]
#[verifier::rlimit(40)]
pub fn decode_plan(plan: &WirePlan, catalog: &Catalog, depth: usize) -> (r: Result<
    PhysicalPlan,
    SparkXError,
>)
    requires
        catalog.wf(),
    ensures
        physical_outcome(r) == decoded_plan(plan@, catalog@, depth as nat),
    decreases plan, 0int,
{
    match check_depth(depth) {
        Ok(()) => {},
        Err(error) => return Err(error),
    }
    match plan {
        WirePlan::Absent | WirePlan::Empty => Err(missing_error("plan operator")),
        WirePlan::Scan { id, table_name, has_projection, projection, filters, schema } => {
            if is_blank(table_name.as_str()) {
                return Err(codec_error("scan table name must not be empty"));
            }
            let provider = match catalog.table(table_name.as_str()) {
                Ok(provider) => provider.clone(),
                Err(error) => {
                    let mut message: String = join(
                        "worker cannot resolve scan table '",
                        table_name.as_str(),
                    );
                    message.append("': ");
                    message.append(error.to_text().as_str());
                    return Err(codec_error(message.as_str()));
                },
            };
            let projection = match decode_projection(*has_projection, projection) {
                Ok(projection) => projection,
                Err(error) => return Err(error),
            };
            let schema = match decode_operator_schema(schema, "scan") {
                Ok(schema) => schema,
                Err(error) => return Err(error),
            };
            match validate_scan_schema(
                table_name.as_str(),
                &provider.schema,
                &projection,
                &schema,
            ) {
                Ok(()) => {},
                Err(error) => return Err(error),
            }
            let filters = match decode_exprs(filters) {
                Ok(exprs) => exprs,
                Err(error) => return Err(error),
            };
            Ok(
                PhysicalPlan::Scan {
                    id: *id,
                    table_name: table_name.clone(),
                    provider,
                    projection,
                    filters,
                    schema,
                },
            )
        },
        WirePlan::Projection { id, input, exprs, schema } => {
            let input = match decode_input(input, "projection input", catalog, depth + 1) {
                Ok(plan) => plan,
                Err(error) => return Err(error),
            };
            let exprs = match decode_exprs(exprs) {
                Ok(exprs) => exprs,
                Err(error) => return Err(error),
            };
            let schema = match decode_operator_schema(schema, "projection") {
                Ok(schema) => schema,
                Err(error) => return Err(error),
            };
            match validate_exprs("projection", &exprs, input.schema(), &schema) {
                Ok(()) => {},
                Err(error) => return Err(error),
            }
            Ok(PhysicalPlan::Projection { id: *id, input: Box::new(input), exprs, schema })
        },
        WirePlan::Filter { id, input, predicate, schema } => {
            let input = match decode_input(input, "filter input", catalog, depth + 1) {
                Ok(plan) => plan,
                Err(error) => return Err(error),
            };
            let predicate = match decode_operand(predicate, "filter predicate") {
                Ok(expr) => expr,
                Err(error) => return Err(error),
            };
            match predicate.data_type(input.schema()) {
                Ok(data_type) => {
                    if !data_type.same(&DataType::Boolean) {
                        return Err(codec_error("filter predicate must be Boolean"));
                    }
                },
                Err(error) => return Err(error),
            }
            let schema = match decode_operator_schema(schema, "filter") {
                Ok(schema) => schema,
                Err(error) => return Err(error),
            };
            match validate_schema("filter", &schema, input.schema()) {
                Ok(()) => {},
                Err(error) => return Err(error),
            }
            Ok(PhysicalPlan::Filter { id: *id, input: Box::new(input), predicate, schema })
        },
        WirePlan::HashAggregate { id, input, group_exprs, aggregate_exprs, schema } => {
            let input = match decode_input(input, "hash aggregate input", catalog, depth + 1) {
                Ok(plan) => plan,
                Err(error) => return Err(error),
            };
            let group_exprs = match decode_exprs(group_exprs) {
                Ok(exprs) => exprs,
                Err(error) => return Err(error),
            };
            let aggregate_exprs = match decode_exprs(aggregate_exprs) {
                Ok(exprs) => exprs,
                Err(error) => return Err(error),
            };
            let schema = match decode_operator_schema(schema, "hash aggregate") {
                Ok(schema) => schema,
                Err(error) => return Err(error),
            };
            let mut all = clone_exprs(&group_exprs);
            let mut more = clone_exprs(&aggregate_exprs);
            let ghost first = all@;
            let ghost second = more@;
            all.append(&mut more);
            proof {
                assert(expr_views(all@) =~= expr_views(first) + expr_views(second));
            }
            match validate_exprs("hash aggregate", &all, input.schema(), &schema) {
                Ok(()) => {},
                Err(error) => return Err(error),
            }
            Ok(
                PhysicalPlan::HashAggregate {
                    id: *id,
                    input: Box::new(input),
                    group_exprs,
                    aggregate_exprs,
                    schema,
                },
            )
        },
        WirePlan::Sort { id, input, exprs, schema } => {
            let input = match decode_input(input, "sort input", catalog, depth + 1) {
                Ok(plan) => plan,
                Err(error) => return Err(error),
            };
            let exprs = match decode_sorts(exprs, input.schema()) {
                Ok(exprs) => exprs,
                Err(error) => return Err(error),
            };
            let schema = match decode_operator_schema(schema, "sort") {
                Ok(schema) => schema,
                Err(error) => return Err(error),
            };
            match validate_schema("sort", &schema, input.schema()) {
                Ok(()) => {},
                Err(error) => return Err(error),
            }
            Ok(PhysicalPlan::Sort { id: *id, input: Box::new(input), exprs, schema })
        },
        WirePlan::TopK { id, input, exprs, limit, schema } => {
            let input = match decode_input(input, "Top-K input", catalog, depth + 1) {
                Ok(plan) => plan,
                Err(error) => return Err(error),
            };
            let exprs = match decode_sorts(exprs, input.schema()) {
                Ok(exprs) => exprs,
                Err(error) => return Err(error),
            };
            let schema = match decode_operator_schema(schema, "Top-K") {
                Ok(schema) => schema,
                Err(error) => return Err(error),
            };
            match validate_schema("Top-K", &schema, input.schema()) {
                Ok(()) => {},
                Err(error) => return Err(error),
            }
            let limit: usize = match decode_limit(*limit, "Top-K limit") {
                Ok(limit) => limit,
                Err(error) => return Err(error),
            };
            Ok(PhysicalPlan::TopK { id: *id, input: Box::new(input), exprs, limit, schema })
        },
        WirePlan::Limit { id, input, limit, schema } => {
            let input = match decode_input(input, "limit input", catalog, depth + 1) {
                Ok(plan) => plan,
                Err(error) => return Err(error),
            };
            let schema = match decode_operator_schema(schema, "limit") {
                Ok(schema) => schema,
                Err(error) => return Err(error),
            };
            match validate_schema("limit", &schema, input.schema()) {
                Ok(()) => {},
                Err(error) => return Err(error),
            }
            let limit: usize = match decode_limit(*limit, "limit") {
                Ok(limit) => limit,
                Err(error) => return Err(error),
            };
            Ok(PhysicalPlan::Limit { id: *id, input: Box::new(input), limit, schema })
        },
        WirePlan::HashJoin { id, left, right, join_type, left_on, right_on, schema } => {
            let left = match decode_input(left, "join left input", catalog, depth + 1) {
                Ok(plan) => plan,
                Err(error) => return Err(error),
            };
            let right = match decode_input(right, "join right input", catalog, depth + 1) {
                Ok(plan) => plan,
                Err(error) => return Err(error),
            };
            let join_type = match decode_join_type(*join_type) {
                Ok(join_type) => join_type,
                Err(error) => return Err(error),
            };
            let left_on = match decode_exprs(left_on) {
                Ok(exprs) => exprs,
                Err(error) => return Err(error),
            };
            let right_on = match decode_exprs(right_on) {
                Ok(exprs) => exprs,
                Err(error) => return Err(error),
            };
            match validate_join_keys(&left_on, left.schema(), &right_on, right.schema()) {
                Ok(()) => {},
                Err(error) => return Err(error),
            }
            let schema = match decode_operator_schema(schema, "hash join") {
                Ok(schema) => schema,
                Err(error) => return Err(error),
            };
            let expected = Schema::new(join_fields(left.schema(), right.schema(), join_type));
            match validate_schema("hash join", &schema, &expected) {
                Ok(()) => {},
                Err(error) => return Err(error),
            }
            Ok(
                PhysicalPlan::HashJoin {
                    id: *id,
                    left: Box::new(left),
                    right: Box::new(right),
                    join_type,
                    left_on,
                    right_on,
                    schema,
                },
            )
        },
    }
}

} // verus!

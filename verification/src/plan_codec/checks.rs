//! What makes a message of a plan valid, whatever the tables; and that plans survive the way.

use crate::catalog::{find_table, TableView};
use crate::error::{outcome, ErrorView, SparkXError};
use crate::expr::ExprView;
use crate::fragment::{codec_error, codec_failure};
use crate::physical::PhysicalView;
use crate::plan_codec::codes::{decode_join_type, join_of};
use crate::plan_codec::exprs::{
    decode_operand, decoded_operand, expr_survives, missing, missing_error,
};
use crate::plan_codec::plans::{
    check_depth, decode_limit, decode_projection, decoded_input, decoded_limit, decoded_plan,
    decoded_projection, depth_check, encoded_indices, encoded_plan, exprs_check, indices_or_none,
    join_check, join_schema, predicate_check, scan_check,
};
use crate::plan_codec::schemas::{
    all_named, decode_exprs, decode_operator_schema, decoded_exprs, decoded_sorts, encoded_exprs,
    encoded_sorts, exprs_survive, operator_schema, operator_sorts, schema_survives, schema_wf,
    sorts_fail_early, sorts_sendable, sorts_survive,
};
use crate::text::{blank, decimal, is_blank, join, numeral};
use crate::types::SchemaView;
use crate::wire::exprs::{WireExpr, WireExprView};
use crate::wire::plans::{
    wire_expr_views, wire_sort_views, WirePlan, WirePlanView, WireSort, WireSortView,
};
use vstd::prelude::*;

verus! {

/// The error of a list of expressions, if there is one.
pub open spec fn wire_exprs_check(exprs: Seq<WireExprView>) -> Result<(), ErrorView> {
    match decoded_exprs(exprs, exprs.len() as int) {
        Err(error) => Err(error),
        Ok(_) => Ok(()),
    }
}

/// The error of the first sort key at or after `from`, if there is one.
pub open spec fn sort_exprs_check(sorts: Seq<WireSortView>, from: int) -> Result<(), ErrorView>
    decreases sorts.len() - from,
{
    if from >= sorts.len() {
        Ok(())
    } else {
        match decoded_operand(sorts[from].expr, "sort expression"@) {
            Err(error) => Err(error),
            Ok(_) => sort_exprs_check(sorts, from + 1),
        }
    }
}

/// The error of the sort keys of an operator, if there is one.
pub open spec fn wire_sorts_check(sorts: Seq<WireSortView>) -> Result<(), ErrorView> {
    if sorts.len() == 0 {
        Err(codec_failure("sort operator requires at least one expression"@))
    } else {
        sort_exprs_check(sorts, 0)
    }
}

/// One check behind another.
pub open spec fn and_then(first: Result<(), ErrorView>, second: Result<(), ErrorView>) -> Result<
    (),
    ErrorView,
> {
    if first is Err {
        first
    } else {
        second
    }
}

/// A result as a check.
pub open spec fn check_of<T>(result: Result<T, ErrorView>) -> Result<(), ErrorView> {
    match result {
        Ok(_) => Ok(()),
        Err(error) => Err(error),
    }
}

/// What is wrong with an input, if anything is.
pub open spec fn input_check(plan: WirePlanView, name: Seq<char>, depth: nat) -> Result<
    (),
    ErrorView,
>
    decreases plan, 1int,
{
    if plan is Absent {
        Err(missing(name))
    } else {
        wire_check(plan, depth)
    }
}

/// What is wrong with the message of a plan, if anything is.
pub open spec fn wire_check(plan: WirePlanView, depth: nat) -> Result<(), ErrorView>
    decreases plan, 0int,
{
    if depth_check(depth) is Err {
        depth_check(depth)
    } else {
        match plan {
            WirePlanView::Absent | WirePlanView::Empty => Err(missing("plan operator"@)),
            WirePlanView::Scan { table_name, has_projection, projection, filters, schema, .. } => {
                if blank(table_name) {
                    Err(codec_failure("scan table name must not be empty"@))
                } else {
                    and_then(
                        check_of(decoded_projection(has_projection, projection)),
                        and_then(
                            check_of(operator_schema(schema, "scan"@)),
                            wire_exprs_check(filters),
                        ),
                    )
                }
            },
            WirePlanView::Projection { input, exprs, schema, .. } => and_then(
                input_check(*input, "projection input"@, depth + 1),
                and_then(
                    check_of(operator_schema(schema, "projection"@)),
                    wire_exprs_check(exprs),
                ),
            ),
            WirePlanView::Filter { input, predicate, schema, .. } => and_then(
                input_check(*input, "filter input"@, depth + 1),
                and_then(
                    check_of(operator_schema(schema, "filter"@)),
                    check_of(decoded_operand(predicate, "filter predicate"@)),
                ),
            ),
            WirePlanView::HashAggregate { input, group_exprs, aggregate_exprs, schema, .. } => {
                and_then(
                    input_check(*input, "hash aggregate input"@, depth + 1),
                    and_then(
                        check_of(operator_schema(schema, "hash aggregate"@)),
                        and_then(wire_exprs_check(group_exprs), wire_exprs_check(aggregate_exprs)),
                    ),
                )
            },
            WirePlanView::Sort { input, exprs, schema, .. } => and_then(
                input_check(*input, "sort input"@, depth + 1),
                and_then(check_of(operator_schema(schema, "sort"@)), wire_sorts_check(exprs)),
            ),
            WirePlanView::TopK { input, exprs, limit, schema, .. } => and_then(
                input_check(*input, "Top-K input"@, depth + 1),
                and_then(
                    check_of(operator_schema(schema, "Top-K"@)),
                    and_then(
                        check_of(decoded_limit(limit, "Top-K limit"@)),
                        wire_sorts_check(exprs),
                    ),
                ),
            ),
            WirePlanView::Limit { input, limit, schema, .. } => and_then(
                input_check(*input, "limit input"@, depth + 1),
                and_then(
                    check_of(operator_schema(schema, "limit"@)),
                    check_of(decoded_limit(limit, "limit"@)),
                ),
            ),
            WirePlanView::HashJoin { left, right, join_type, left_on, right_on, schema, .. } => {
                and_then(
                    input_check(*left, "join left input"@, depth + 1),
                    and_then(
                        input_check(*right, "join right input"@, depth + 1),
                        and_then(
                            check_of(join_of(join_type)),
                            and_then(
                                check_of(operator_schema(schema, "hash join"@)),
                                if left_on.len() != right_on.len() {
                                    Err(
                                        codec_failure(
                                            "hash join has "@ + numeral(left_on.len())
                                                + " left keys but "@ + numeral(right_on.len())
                                                + " right keys"@,
                                        ),
                                    )
                                } else {
                                    and_then(
                                        wire_exprs_check(left_on),
                                        wire_exprs_check(right_on),
                                    )
                                },
                            ),
                        ),
                    ),
                )
            },
        }
    }
}

fn validate_wire_exprs(exprs: &Vec<WireExpr>) -> (r: Result<(), SparkXError>)
    ensures
        outcome(r) == wire_exprs_check(wire_expr_views(exprs@)),
{
    match decode_exprs(exprs) {
        Ok(_) => Ok(()),
        Err(error) => Err(error),
    }
}

fn validate_wire_sort_exprs(sorts: &Vec<WireSort>) -> (r: Result<(), SparkXError>)
    ensures
        outcome(r) == wire_sorts_check(wire_sort_views(sorts@)),
{
    let ghost views = wire_sort_views(sorts@);
    if sorts.len() == 0 {
        return Err(codec_error("sort operator requires at least one expression"));
    }
    for i in 0..sorts.len()
        invariant
            views == wire_sort_views(sorts@),
            sorts.len() > 0,
            sort_exprs_check(views, 0) == sort_exprs_check(views, i as int),
    {
        proof {
            assert(views[i as int] == sorts@[i as int]@);
        }
        match decode_operand(&sorts[i].expr, "sort expression") {
            Ok(_) => {},
            Err(error) => return Err(error),
        }
    }
    Ok(())
}

fn validate_input(plan: &WirePlan, name: &str, depth: usize) -> (r: Result<(), SparkXError>)
    ensures
        outcome(r) == input_check(plan@, name@, depth as nat),
    decreases plan, 1int,
{
    if let WirePlan::Absent = plan {
        return Err(missing_error(name));
    }
    validate_wire_plan(plan, depth)
}

/// Checks the message of a plan, whatever the tables.
#[verifier::spinoff_prover]
#[verifier::rlimit(40)]
pub fn validate_wire_plan(plan: &WirePlan, depth: usize) -> (r: Result<(), SparkXError>)
    ensures
        outcome(r) == wire_check(plan@, depth as nat),
    decreases plan, 0int,
{
    match check_depth(depth) {
        Ok(()) => {},
        Err(error) => return Err(error),
    }
    match plan {
        WirePlan::Absent | WirePlan::Empty => Err(missing_error("plan operator")),
        WirePlan::Scan { table_name, has_projection, projection, filters, schema, .. } => {
            if is_blank(table_name.as_str()) {
                return Err(codec_error("scan table name must not be empty"));
            }
            match decode_projection(*has_projection, projection) {
                Ok(_) => {},
                Err(error) => return Err(error),
            }
            match decode_operator_schema(schema, "scan") {
                Ok(_) => {},
                Err(error) => return Err(error),
            }
            validate_wire_exprs(filters)
        },
        WirePlan::Projection { input, exprs, schema, .. } => {
            match validate_input(input, "projection input", depth + 1) {
                Ok(()) => {},
                Err(error) => return Err(error),
            }
            match decode_operator_schema(schema, "projection") {
                Ok(_) => {},
                Err(error) => return Err(error),
            }
            validate_wire_exprs(exprs)
        },
        WirePlan::Filter { input, predicate, schema, .. } => {
            match validate_input(input, "filter input", depth + 1) {
                Ok(()) => {},
                Err(error) => return Err(error),
            }
            match decode_operator_schema(schema, "filter") {
                Ok(_) => {},
                Err(error) => return Err(error),
            }
            match decode_operand(predicate, "filter predicate") {
                Ok(_) => Ok(()),
                Err(error) => Err(error),
            }
        },
        WirePlan::HashAggregate { input, group_exprs, aggregate_exprs, schema, .. } => {
            match validate_input(input, "hash aggregate input", depth + 1) {
                Ok(()) => {},
                Err(error) => return Err(error),
            }
            match decode_operator_schema(schema, "hash aggregate") {
                Ok(_) => {},
                Err(error) => return Err(error),
            }
            match validate_wire_exprs(group_exprs) {
                Ok(()) => {},
                Err(error) => return Err(error),
            }
            validate_wire_exprs(aggregate_exprs)
        },
        WirePlan::Sort { input, exprs, schema, .. } => {
            match validate_input(input, "sort input", depth + 1) {
                Ok(()) => {},
                Err(error) => return Err(error),
            }
            match decode_operator_schema(schema, "sort") {
                Ok(_) => {},
                Err(error) => return Err(error),
            }
            validate_wire_sort_exprs(exprs)
        },
        WirePlan::TopK { input, exprs, limit, schema, .. } => {
            match validate_input(input, "Top-K input", depth + 1) {
                Ok(()) => {},
                Err(error) => return Err(error),
            }
            match decode_operator_schema(schema, "Top-K") {
                Ok(_) => {},
                Err(error) => return Err(error),
            }
            match decode_limit(*limit, "Top-K limit") {
                Ok(_) => {},
                Err(error) => return Err(error),
            }
            validate_wire_sort_exprs(exprs)
        },
        WirePlan::Limit { input, limit, schema, .. } => {
            match validate_input(input, "limit input", depth + 1) {
                Ok(()) => {},
                Err(error) => return Err(error),
            }
            match decode_operator_schema(schema, "limit") {
                Ok(_) => {},
                Err(error) => return Err(error),
            }
            match decode_limit(*limit, "limit") {
                Ok(_) => Ok(()),
                Err(error) => Err(error),
            }
        },
        WirePlan::HashJoin { left, right, join_type, left_on, right_on, schema, .. } => {
            match validate_input(left, "join left input", depth + 1) {
                Ok(()) => {},
                Err(error) => return Err(error),
            }
            match validate_input(right, "join right input", depth + 1) {
                Ok(()) => {},
                Err(error) => return Err(error),
            }
            match decode_join_type(*join_type) {
                Ok(_) => {},
                Err(error) => return Err(error),
            }
            match decode_operator_schema(schema, "hash join") {
                Ok(_) => {},
                Err(error) => return Err(error),
            }
            if left_on.len() != right_on.len() {
                let mut message: String = join(
                    "hash join has ",
                    decimal(left_on.len() as u64).as_str(),
                );
                message.append(" left keys but ");
                message.append(decimal(right_on.len() as u64).as_str());
                message.append(" right keys");
                return Err(codec_error(message.as_str()));
            }
            match validate_wire_exprs(left_on) {
                Ok(()) => {},
                Err(error) => return Err(error),
            }
            validate_wire_exprs(right_on)
        },
    }
}

// ---- laws

proof fn decoded_lengths(exprs: Seq<WireExprView>, upto: int)
    requires
        0 <= upto,
    ensures
        decoded_exprs(exprs, upto) matches Ok(list) ==> list.len() == upto,
    decreases upto,
{
    if upto > 0 {
        decoded_lengths(exprs, upto - 1);
    }
}

/// Sort keys that decode over a schema are sound without one.
proof fn decoded_sorts_are_sound(
    sorts: Seq<WireSortView>,
    schema: SchemaView,
    from: int,
    upto: int,
)
    requires
        0 <= from <= upto == sorts.len(),
        decoded_sorts(sorts, schema, upto) is Ok,
    ensures
        sort_exprs_check(sorts, from) is Ok,
    decreases upto - from,
{
    if from < upto {
        sorts_fail_early(Seq::empty(), sorts, schema, from + 1, upto);
        decoded_sorts_are_sound(sorts, schema, from + 1, upto);
    }
}

/// A fragment that decodes over some catalog is valid.
pub proof fn what_decodes_is_valid(
    plan: WirePlanView,
    tables: Map<Seq<char>, TableView>,
    depth: nat,
)
    requires
        decoded_plan(plan, tables, depth) is Ok,
    ensures
        wire_check(plan, depth) is Ok,
    decreases plan,
{
    match plan {
        WirePlanView::Projection { input, .. } => what_decodes_is_valid(*input, tables, depth + 1),
        WirePlanView::Filter { input, .. } => what_decodes_is_valid(*input, tables, depth + 1),
        WirePlanView::HashAggregate { input, .. } => what_decodes_is_valid(
            *input,
            tables,
            depth + 1,
        ),
        WirePlanView::Sort { input, exprs, .. } => {
            what_decodes_is_valid(*input, tables, depth + 1);
            let schema = decoded_input(*input, "sort input"@, tables, depth + 1)->Ok_0.schema();
            sorts_fail_early(
                Seq::empty(),
                exprs,
                schema,
                exprs.len() as int,
                exprs.len() as int,
            );
            decoded_sorts_are_sound(exprs, schema, 0, exprs.len() as int);
        },
        WirePlanView::TopK { input, exprs, .. } => {
            what_decodes_is_valid(*input, tables, depth + 1);
            let schema = decoded_input(*input, "Top-K input"@, tables, depth + 1)->Ok_0.schema();
            sorts_fail_early(
                Seq::empty(),
                exprs,
                schema,
                exprs.len() as int,
                exprs.len() as int,
            );
            decoded_sorts_are_sound(exprs, schema, 0, exprs.len() as int);
        },
        WirePlanView::Limit { input, .. } => what_decodes_is_valid(*input, tables, depth + 1),
        WirePlanView::HashJoin { left, right, left_on, right_on, .. } => {
            what_decodes_is_valid(*left, tables, depth + 1);
            what_decodes_is_valid(*right, tables, depth + 1);
            decoded_lengths(left_on, left_on.len() as int);
            decoded_lengths(right_on, right_on.len() as int);
        },
        _ => {},
    }
}

/// Whether a plan is one that a worker with these tables takes: every operator is sound over its
/// inputs, every scan reads its table as it is, no name is blank, and metadata stands in order.
pub open spec fn transportable(plan: PhysicalView, tables: Map<Seq<char>, TableView>) -> bool
    decreases plan,
{
    &&& schema_wf(plan.schema())
    &&& match plan {
        PhysicalView::Scan { table_name, provider, projection, filters, schema, .. } => {
            &&& !blank(table_name)
            &&& find_table(tables, table_name) == Ok::<TableView, ErrorView>(provider)
            &&& scan_check(table_name, provider.schema, projection, schema) is Ok
            &&& all_named(filters)
        },
        PhysicalView::Projection { input, exprs, schema, .. } => {
            &&& transportable(*input, tables)
            &&& all_named(exprs)
            &&& exprs_check("projection"@, exprs, input.schema(), schema) is Ok
        },
        PhysicalView::Filter { input, predicate, schema, .. } => {
            &&& transportable(*input, tables)
            &&& predicate.is_named()
            &&& predicate_check(predicate, input.schema()) is Ok
            &&& schema == input.schema()
        },
        PhysicalView::HashAggregate { input, group_exprs, aggregate_exprs, schema, .. } => {
            &&& transportable(*input, tables)
            &&& all_named(group_exprs)
            &&& all_named(aggregate_exprs)
            &&& exprs_check(
                "hash aggregate"@,
                group_exprs + aggregate_exprs,
                input.schema(),
                schema,
            ) is Ok
        },
        PhysicalView::Sort { input, exprs, schema, .. } => {
            &&& transportable(*input, tables)
            &&& sorts_sendable(exprs, input.schema())
            &&& exprs.len() > 0
            &&& schema == input.schema()
        },
        PhysicalView::TopK { input, exprs, schema, .. } => {
            &&& transportable(*input, tables)
            &&& sorts_sendable(exprs, input.schema())
            &&& exprs.len() > 0
            &&& schema == input.schema()
        },
        PhysicalView::Limit { input, schema, .. } => {
            &&& transportable(*input, tables)
            &&& schema == input.schema()
        },
        PhysicalView::HashJoin { left, right, join_type, left_on, right_on, schema, .. } => {
            &&& transportable(*left, tables)
            &&& transportable(*right, tables)
            &&& all_named(left_on)
            &&& all_named(right_on)
            &&& join_check(left_on, left.schema(), right_on, right.schema()) is Ok
            &&& schema == join_schema(left.schema(), right.schema(), join_type)
        },
    }
}

proof fn indices_survive(indices: Seq<usize>, upto: int)
    requires
        0 <= upto <= indices.len(),
        encoded_indices(indices, upto) is Ok,
    ensures
        encoded_indices(indices, upto)->Ok_0.len() == upto,
        forall|i: int|
            0 <= i < upto ==> #[trigger] encoded_indices(indices, upto)->Ok_0[i] == indices[i],
    decreases upto,
{
    if upto > 0 {
        indices_survive(indices, upto - 1);
    }
}

proof fn whole_list_survives(exprs: Seq<ExprView>)
    requires
        encoded_exprs(exprs, exprs.len() as int) is Ok,
        all_named(exprs),
    ensures
        ({
            let sent = encoded_exprs(exprs, exprs.len() as int)->Ok_0;
            decoded_exprs(sent, sent.len() as int) == Ok::<Seq<ExprView>, ErrorView>(exprs)
        }),
{
    exprs_survive(exprs, exprs.len() as int);
    assert(exprs.take(exprs.len() as int) =~= exprs);
}

proof fn whole_sorts_survive(sorts: Seq<crate::logical::SortView>, schema: SchemaView)
    requires
        encoded_sorts(sorts, sorts.len() as int) is Ok,
        sorts_sendable(sorts, schema),
        sorts.len() > 0,
    ensures
        operator_sorts(encoded_sorts(sorts, sorts.len() as int)->Ok_0, schema) == Ok::<
            Seq<crate::logical::SortView>,
            ErrorView,
        >(sorts),
{
    sorts_survive(sorts, schema, sorts.len() as int);
    assert(sorts.take(sorts.len() as int) =~= sorts);
}

/// A plan that was encoded decodes to the same plan.
#[verifier::spinoff_prover]
#[verifier::rlimit(60)]
pub proof fn plan_survives(plan: PhysicalView, tables: Map<Seq<char>, TableView>, depth: nat)
    requires
        transportable(plan, tables),
        encoded_plan(plan, depth) is Ok,
    ensures
        decoded_plan(encoded_plan(plan, depth)->Ok_0, tables, depth) == Ok::<
            PhysicalView,
            ErrorView,
        >(plan),
        !(encoded_plan(plan, depth)->Ok_0 is Absent),
    decreases plan,
{
    schema_survives(plan.schema());
    match plan {
        PhysicalView::Scan { projection, filters, schema, .. } => {
            let indices = indices_or_none(projection);
            indices_survive(indices, indices.len() as int);
            whole_list_survives(filters);
            let sent = encoded_indices(indices, indices.len() as int)->Ok_0;
            if let Some(given) = projection {
                assert(given =~= Seq::new(sent.len(), |i: int| sent[i] as usize)) by {
                    assert forall|i: int| 0 <= i < given.len() implies given[i]
                        == #[trigger] sent[i] as usize by {}
                }
            }
        },
        PhysicalView::Projection { input, exprs, schema, .. } => {
            plan_survives(*input, tables, depth + 1);
            whole_list_survives(exprs);
        },
        PhysicalView::Filter { input, predicate, schema, .. } => {
            plan_survives(*input, tables, depth + 1);
            expr_survives(predicate);
        },
        PhysicalView::HashAggregate { input, group_exprs, aggregate_exprs, schema, .. } => {
            plan_survives(*input, tables, depth + 1);
            whole_list_survives(group_exprs);
            whole_list_survives(aggregate_exprs);
        },
        PhysicalView::Sort { input, exprs, schema, .. } => {
            plan_survives(*input, tables, depth + 1);
            whole_sorts_survive(exprs, input.schema());
        },
        PhysicalView::TopK { input, exprs, schema, .. } => {
            plan_survives(*input, tables, depth + 1);
            whole_sorts_survive(exprs, input.schema());
        },
        PhysicalView::Limit { input, schema, .. } => {
            plan_survives(*input, tables, depth + 1);
        },
        PhysicalView::HashJoin { left, right, join_type, left_on, right_on, schema, .. } => {
            plan_survives(*left, tables, depth + 1);
            plan_survives(*right, tables, depth + 1);
            whole_list_survives(left_on);
            whole_list_survives(right_on);
        },
    }
}

} // verus!

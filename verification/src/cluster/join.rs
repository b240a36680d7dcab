//! Joins over a cluster: two stages spread the rows of their sides over the same partitions by a
//! hash of the keys, and a third joins partition by partition.

use crate::catalog::{Table, TableView};
use crate::error::{ErrorView, SparkXError};
use crate::expr::{clone_exprs, expr_views, find_column, resolve, resolve_is_within, Expr, ExprView};
use crate::physical::{PhysicalPlan, PhysicalView};
use crate::plan_codec::{stage_of, stage_outcome};
use crate::protocol::{
    stage_input_name, stage_input_table_name, HashExchange, HashExchangeView, QueryId, StageId,
    StagePlan, StagePlanView,
};
use crate::types::{Schema, SchemaView};
use vstd::prelude::*;

verus! {

pub open spec fn contains_join(plan: PhysicalView) -> bool
    decreases plan,
{
    match plan {
        PhysicalView::HashJoin { .. } => true,
        PhysicalView::Scan { .. } => false,
        PhysicalView::Projection { input, .. } => contains_join(*input),
        PhysicalView::Filter { input, .. } => contains_join(*input),
        PhysicalView::HashAggregate { input, .. } => contains_join(*input),
        PhysicalView::Sort { input, .. } => contains_join(*input),
        PhysicalView::TopK { input, .. } => contains_join(*input),
        PhysicalView::Limit { input, .. } => contains_join(*input),
    }
}

/// The partitions of a plan that runs on each partition of a table by itself.
pub open spec fn local_partitions(plan: PhysicalView) -> Result<u32, ErrorView>
    decreases plan,
{
    match plan {
        PhysicalView::Scan { provider, .. } => if 0 < provider.partition_count <= u32::MAX {
            Ok(provider.partition_count as u32)
        } else {
            Err(ErrorView::Planning("remote join scan partition count is invalid"@))
        },
        PhysicalView::Projection { input, .. } => local_partitions(*input),
        PhysicalView::Filter { input, .. } => local_partitions(*input),
        _ => Err(
            ErrorView::Unsupported(
                "remote join inputs must be partition-local scans, filters, or projections"@,
            ),
        ),
    }
}

/// The places of the columns of the first `upto` pairs of keys, or the first error.
pub open spec fn key_columns(
    left_on: Seq<ExprView>,
    right_on: Seq<ExprView>,
    left: SchemaView,
    right: SchemaView,
    upto: int,
) -> Result<(Seq<usize>, Seq<usize>), ErrorView>
    decreases upto,
{
    if upto <= 0 {
        Ok((Seq::empty(), Seq::empty()))
    } else {
        match key_columns(left_on, right_on, left, right, upto - 1) {
            Err(error) => Err(error),
            Ok((lefts, rights)) => match (left_on[upto - 1], right_on[upto - 1]) {
                (ExprView::Column(left_name), ExprView::Column(right_name)) => match resolve(
                    left.names(),
                    left_name,
                ) {
                    Err(error) => Err(error),
                    Ok(l) => match resolve(right.names(), right_name) {
                        Err(error) => Err(error),
                        Ok(r) => if left.fields[l].data_type != right.fields[r].data_type {
                            Err(
                                ErrorView::Planning(
                                    "remote join key types must match on both inputs"@,
                                ),
                            )
                        } else {
                            Ok((lefts.push(l as usize), rights.push(r as usize)))
                        },
                    },
                },
                _ => Err(
                    ErrorView::Unsupported(
                        "remote join keys must be columns; key expressions are not supported"@,
                    ),
                ),
            },
        }
    }
}

/// A scan of what a stage put out.
pub open spec fn dependency_scan(input: PhysicalView, stage: StageId) -> PhysicalView {
    PhysicalView::Scan {
        id: input.id(),
        table_name: stage_input_name(stage),
        provider: TableView { schema: input.schema(), partition_count: 1 },
        projection: None,
        filters: Seq::empty(),
        schema: input.schema(),
    }
}

/// The stage that spreads the rows of a side.
pub open spec fn producer(
    query: Seq<char>,
    stage: StageId,
    partitions: u32,
    input: PhysicalView,
    columns: Seq<usize>,
    spread: u32,
) -> Result<StagePlanView, ErrorView> {
    match stage_of(query, stage, Seq::empty(), partitions, input) {
        Err(error) => Err(error),
        Ok(plan) => Ok(
            StagePlanView {
                output_exchange: Some(HashExchangeView { columns, partition_count: spread }),
                ..plan
            },
        ),
    }
}

/// The larger of two counts.
pub open spec fn larger(a: u32, b: u32) -> u32 {
    if a > b {
        a
    } else {
        b
    }
}

/// The two stages that spread the sides of a join.
pub open spec fn producers(
    query: Seq<char>,
    left: PhysicalView,
    right: PhysicalView,
    left_on: Seq<ExprView>,
    right_on: Seq<ExprView>,
) -> Result<Seq<StagePlanView>, ErrorView> {
    match local_partitions(left) {
        Err(error) => Err(error),
        Ok(left_count) => match local_partitions(right) {
            Err(error) => Err(error),
            Ok(right_count) => {
                let spread = larger(left_count, right_count);
                if left_on.len() == 0 || left_on.len() != right_on.len() {
                    Err(
                        ErrorView::Planning(
                            "remote join requires matching nonempty equi-join keys"@,
                        ),
                    )
                } else {
                    match key_columns(
                        left_on,
                        right_on,
                        left.schema(),
                        right.schema(),
                        left_on.len() as int,
                    ) {
                        Err(error) => Err(error),
                        Ok((lefts, rights)) => match producer(
                            query,
                            StageId(0),
                            left_count,
                            left,
                            lefts,
                            spread,
                        ) {
                            Err(error) => Err(error),
                            Ok(first) => match producer(
                                query,
                                StageId(1),
                                right_count,
                                right,
                                rights,
                                spread,
                            ) {
                                Err(error) => Err(error),
                                Ok(second) => Ok(seq![first, second]),
                            },
                        },
                    }
                }
            },
        },
    }
}

/// A plan with the sides of its join read from the stages that spread them, and these stages.
pub open spec fn rewritten(plan: PhysicalView, query: Seq<char>) -> Result<
    (PhysicalView, Seq<StagePlanView>),
    ErrorView,
>
    decreases plan,
{
    match plan {
        PhysicalView::Projection { id, input, exprs, schema } => match rewritten(*input, query) {
            Err(error) => Err(error),
            Ok((input, stages)) => Ok(
                (PhysicalView::Projection { id, input: Box::new(input), exprs, schema }, stages),
            ),
        },
        PhysicalView::Filter { id, input, predicate, schema } => match rewritten(*input, query) {
            Err(error) => Err(error),
            Ok((input, stages)) => Ok(
                (PhysicalView::Filter { id, input: Box::new(input), predicate, schema }, stages),
            ),
        },
        PhysicalView::HashJoin { id, left, right, join_type, left_on, right_on, schema } => {
            match producers(query, *left, *right, left_on, right_on) {
                Err(error) => Err(error),
                Ok(stages) => Ok(
                    (
                        PhysicalView::HashJoin {
                            id,
                            left: Box::new(dependency_scan(*left, StageId(0))),
                            right: Box::new(dependency_scan(*right, StageId(1))),
                            join_type,
                            left_on,
                            right_on,
                            schema,
                        },
                        stages,
                    ),
                ),
            }
        },
        _ => Err(unsupported_shape()),
    }
}

pub open spec fn unsupported_shape() -> ErrorView {
    ErrorView::Unsupported(
        "remote joins support one inner/left equi-join with scan/filter/projection inputs and optional filter/projection output; chained joins, aggregation, sorting, and limits are not supported"@,
    )
}

/// The stages of a plan with a join, nothing for a plan without one, or the first error.
pub open spec fn remote_join(plan: PhysicalView, query: Seq<char>) -> Result<
    Option<Seq<StagePlanView>>,
    ErrorView,
> {
    if !contains_join(plan) {
        Ok(None)
    } else {
        match rewritten(plan, query) {
            Err(error) => Err(error),
            Ok((downstream, stages)) => match stage_of(
                query,
                StageId(2),
                seq![StageId(0), StageId(1)],
                stages[0].output_exchange->Some_0.partition_count,
                downstream,
            ) {
                Err(error) => Err(error),
                Ok(last) => Ok(
                    Some(stages.push(StagePlanView { partitioned_input: true, ..last })),
                ),
            },
        }
    }
}

// ---- laws

/// Both sides of a remote join are dealt by as many columns as there are keys, and the columns of a
/// key have one type.
pub proof fn key_columns_match(
    left_on: Seq<ExprView>,
    right_on: Seq<ExprView>,
    left: SchemaView,
    right: SchemaView,
    upto: int,
)
    requires
        0 <= upto,
        left.fields.len() <= usize::MAX,
        right.fields.len() <= usize::MAX,
    ensures
        key_columns(left_on, right_on, left, right, upto) matches Ok((lefts, rights)) ==> {
            &&& lefts.len() == upto
            &&& rights.len() == upto
            &&& forall|i: int|
                #![trigger lefts[i]]
                #![trigger rights[i]]
                0 <= i < upto ==> {
                    &&& lefts[i] < left.fields.len()
                    &&& rights[i] < right.fields.len()
                    &&& left.fields[lefts[i] as int].data_type
                        == right.fields[rights[i] as int].data_type
                }
        },
    decreases upto,
{
    if upto > 0 {
        key_columns_match(left_on, right_on, left, right, upto - 1);
        if let (ExprView::Column(l), ExprView::Column(r)) = (
            left_on[upto - 1],
            right_on[upto - 1],
        ) {
            resolve_is_within(left.names(), l);
            resolve_is_within(right.names(), r);
        }
    }
}

proof fn rewritten_has_two_producers(plan: PhysicalView, query: Seq<char>)
    ensures
        rewritten(plan, query) matches Ok((_, stages)) ==> {
            &&& stages.len() == 2
            &&& stages[0].stage_id == StageId(0)
            &&& stages[1].stage_id == StageId(1)
            &&& stages[0].input_stages.len() == 0
            &&& stages[1].input_stages.len() == 0
            &&& stages[0].output_exchange matches Some(first)
            &&& stages[1].output_exchange matches Some(second)
            &&& first.partition_count == second.partition_count
            &&& first.partition_count >= stages[0].partition_count
            &&& first.partition_count >= stages[1].partition_count
            &&& first.partition_count > 0
        },
    decreases plan,
{
    match plan {
        PhysicalView::Projection { input, .. } => rewritten_has_two_producers(*input, query),
        PhysicalView::Filter { input, .. } => rewritten_has_two_producers(*input, query),
        PhysicalView::HashJoin { left, .. } => {
            local_partitions_are_some(*left);
        },
        _ => {},
    }
}

proof fn local_partitions_are_some(plan: PhysicalView)
    ensures
        local_partitions(plan) matches Ok(count) ==> count > 0,
    decreases plan,
{
    match plan {
        PhysicalView::Projection { input, .. } => local_partitions_are_some(*input),
        PhysicalView::Filter { input, .. } => local_partitions_are_some(*input),
        _ => {},
    }
}

/// A join takes three stages: two that spread their rows over the same partitions, and one that
/// reads both, partition by partition.
pub proof fn a_join_takes_three_stages(plan: PhysicalView, query: Seq<char>)
    ensures
        remote_join(plan, query) matches Ok(Some(stages)) ==> {
            &&& stages.len() == 3
            &&& stages[2].input_stages == seq![stages[0].stage_id, stages[1].stage_id]
            &&& stages[2].partitioned_input
            &&& stages[0].output_exchange matches Some(first)
            &&& stages[1].output_exchange matches Some(second)
            &&& first.partition_count == second.partition_count
            &&& stages[2].partition_count == first.partition_count
            &&& stages[2].output_exchange is None
        },
{
    rewritten_has_two_producers(plan, query);
}

// ---- doing it

/// Whether a plan joins.
fn has_join(plan: &PhysicalPlan) -> (r: bool)
    ensures
        r == contains_join(plan@),
    decreases plan,
{
    match plan {
        PhysicalPlan::HashJoin { .. } => true,
        PhysicalPlan::Scan { .. } => false,
        PhysicalPlan::Projection { input, .. } => has_join(input),
        PhysicalPlan::Filter { input, .. } => has_join(input),
        PhysicalPlan::HashAggregate { input, .. } => has_join(input),
        PhysicalPlan::Sort { input, .. } => has_join(input),
        PhysicalPlan::TopK { input, .. } => has_join(input),
        PhysicalPlan::Limit { input, .. } => has_join(input),
    }
}

fn partitions_of(plan: &PhysicalPlan) -> (r: Result<u32, SparkXError>)
    ensures
        crate::error::outcome(r) == local_partitions(plan@),
    decreases plan,
{
    match plan {
        PhysicalPlan::Scan { provider, .. } => {
            if 0 < provider.partition_count && provider.partition_count <= 0xFFFF_FFFF {
                Ok(provider.partition_count as u32)
            } else {
                Err(
                    SparkXError::planning(
                        "remote join scan partition count is invalid".to_owned(),
                    ),
                )
            }
        },
        PhysicalPlan::Projection { input, .. } => partitions_of(input),
        PhysicalPlan::Filter { input, .. } => partitions_of(input),
        _ => Err(
            SparkXError::unsupported(
                "remote join inputs must be partition-local scans, filters, or projections".to_owned(),
            ),
        ),
    }
}

proof fn key_columns_fail_early(
    left_on: Seq<ExprView>,
    right_on: Seq<ExprView>,
    left: SchemaView,
    right: SchemaView,
    upto: int,
    full: int,
)
    requires
        0 <= upto <= full,
        key_columns(left_on, right_on, left, right, upto) is Err,
    ensures
        key_columns(left_on, right_on, left, right, full) == key_columns(
            left_on,
            right_on,
            left,
            right,
            upto,
        ),
    decreases full - upto,
{
    if upto < full {
        key_columns_fail_early(left_on, right_on, left, right, upto, full - 1);
    }
}

fn find_key_columns(
    left_on: &Vec<Expr>,
    right_on: &Vec<Expr>,
    left: &Schema,
    right: &Schema,
) -> (r: Result<(Vec<usize>, Vec<usize>), SparkXError>)
    requires
        left_on.len() == right_on.len(),
    ensures
        match r {
            Ok((lefts, rights)) => key_columns(
                expr_views(left_on@),
                expr_views(right_on@),
                left@,
                right@,
                left_on.len() as int,
            ) == Ok::<(Seq<usize>, Seq<usize>), ErrorView>((lefts@, rights@)),
            Err(error) => key_columns(
                expr_views(left_on@),
                expr_views(right_on@),
                left@,
                right@,
                left_on.len() as int,
            ) == Err::<(Seq<usize>, Seq<usize>), ErrorView>(error@),
        },
{
    let ghost left_keys = expr_views(left_on@);
    let ghost right_keys = expr_views(right_on@);
    let mut lefts: Vec<usize> = Vec::new();
    let mut rights: Vec<usize> = Vec::new();
    proof {
        assert(lefts@ =~= Seq::empty());
        assert(rights@ =~= Seq::empty());
    }
    for i in 0..left_on.len()
        invariant
            left_on.len() == right_on.len(),
            left_keys == expr_views(left_on@),
            right_keys == expr_views(right_on@),
            key_columns(left_keys, right_keys, left@, right@, i as int) == Ok::<
                (Seq<usize>, Seq<usize>),
                ErrorView,
            >((lefts@, rights@)),
    {
        proof {
            assert(left_keys[i as int] == left_on@[i as int]@);
            assert(right_keys[i as int] == right_on@[i as int]@);
            if key_columns(left_keys, right_keys, left@, right@, i + 1) is Err {
                key_columns_fail_early(
                    left_keys,
                    right_keys,
                    left@,
                    right@,
                    i + 1,
                    left_on.len() as int,
                );
            }
        }
        match (&left_on[i], &right_on[i]) {
            (Expr::Column(left_name), Expr::Column(right_name)) => {
                let l: usize = match find_column(left, left_name.as_str()) {
                    Ok(l) => l,
                    Err(error) => return Err(error),
                };
                let r: usize = match find_column(right, right_name.as_str()) {
                    Ok(r) => r,
                    Err(error) => return Err(error),
                };
                if !left.fields[l].data_type.same(&right.fields[r].data_type) {
                    return Err(
                        SparkXError::planning(
                            "remote join key types must match on both inputs".to_owned(),
                        ),
                    );
                }
                lefts.push(l);
                rights.push(r);
            },
            _ => {
                return Err(
                    SparkXError::unsupported(
                        "remote join keys must be columns; key expressions are not supported".to_owned(),
                    ),
                );
            },
        }
    }
    Ok((lefts, rights))
}

fn make_producer(
    query: &QueryId,
    stage_id: StageId,
    partitions: u32,
    input: &PhysicalPlan,
    columns: Vec<usize>,
    spread: u32,
) -> (r: Result<StagePlan, SparkXError>)
    ensures
        stage_outcome(r) == producer(query@, stage_id, partitions, input@, columns@, spread),
{
    let none: Vec<StageId> = Vec::new();
    proof {
        assert(none@ =~= Seq::empty());
    }
    match StagePlan::from_physical_plan(query.clone(), stage_id, none, partitions, input) {
        Ok(stage) => {
            let mut stage = stage;
            stage.output_exchange = Some(HashExchange { columns, partition_count: spread });
            Ok(stage)
        },
        Err(error) => Err(error),
    }
}

fn read_stage(input: &PhysicalPlan, stage: StageId) -> (r: PhysicalPlan)
    ensures
        r@ == dependency_scan(input@, stage),
{
    let filters: Vec<Expr> = Vec::new();
    proof {
        assert(expr_views(filters@) =~= Seq::empty());
    }
    PhysicalPlan::Scan {
        id: input.id(),
        table_name: stage_input_table_name(stage),
        provider: Table { schema: input.schema().clone(), partition_count: 1 },
        projection: None,
        filters,
        schema: input.schema().clone(),
    }
}

pub open spec fn stage_views(stages: Seq<StagePlan>) -> Seq<StagePlanView> {
    Seq::new(stages.len(), |i: int| stages[i]@)
}

fn rewrite(plan: &PhysicalPlan, query: &QueryId) -> (r: Result<
    (PhysicalPlan, Vec<StagePlan>),
    SparkXError,
>)
    ensures
        match r {
            Ok((downstream, stages)) => rewritten(plan@, query@) == Ok::<
                (PhysicalView, Seq<StagePlanView>),
                ErrorView,
            >((downstream@, stage_views(stages@))),
            Err(error) => rewritten(plan@, query@) == Err::<
                (PhysicalView, Seq<StagePlanView>),
                ErrorView,
            >(error@),
        },
    decreases plan,
{
    match plan {
        PhysicalPlan::Projection { id, input, exprs, schema } => match rewrite(input, query) {
            Ok((input, stages)) => Ok(
                (
                    PhysicalPlan::Projection {
                        id: *id,
                        input: Box::new(input),
                        exprs: clone_exprs(exprs),
                        schema: schema.clone(),
                    },
                    stages,
                ),
            ),
            Err(error) => Err(error),
        },
        PhysicalPlan::Filter { id, input, predicate, schema } => match rewrite(input, query) {
            Ok((input, stages)) => Ok(
                (
                    PhysicalPlan::Filter {
                        id: *id,
                        input: Box::new(input),
                        predicate: predicate.clone(),
                        schema: schema.clone(),
                    },
                    stages,
                ),
            ),
            Err(error) => Err(error),
        },
        PhysicalPlan::HashJoin { id, left, right, join_type, left_on, right_on, schema } => {
            let left_count: u32 = match partitions_of(left) {
                Ok(count) => count,
                Err(error) => return Err(error),
            };
            let right_count: u32 = match partitions_of(right) {
                Ok(count) => count,
                Err(error) => return Err(error),
            };
            let spread: u32 = if left_count > right_count {
                left_count
            } else {
                right_count
            };
            if left_on.len() == 0 || left_on.len() != right_on.len() {
                return Err(
                    SparkXError::planning(
                        "remote join requires matching nonempty equi-join keys".to_owned(),
                    ),
                );
            }
            let (left_columns, right_columns) = match find_key_columns(
                left_on,
                right_on,
                left.schema(),
                right.schema(),
            ) {
                Ok(columns) => columns,
                Err(error) => return Err(error),
            };
            let first = match make_producer(
                query,
                StageId(0),
                left_count,
                left,
                left_columns,
                spread,
            ) {
                Ok(stage) => stage,
                Err(error) => return Err(error),
            };
            let second = match make_producer(
                query,
                StageId(1),
                right_count,
                right,
                right_columns,
                spread,
            ) {
                Ok(stage) => stage,
                Err(error) => return Err(error),
            };
            let downstream = PhysicalPlan::HashJoin {
                id: *id,
                left: Box::new(read_stage(left, StageId(0))),
                right: Box::new(read_stage(right, StageId(1))),
                join_type: *join_type,
                left_on: clone_exprs(left_on),
                right_on: clone_exprs(right_on),
                schema: schema.clone(),
            };
            let ghost views = seq![first@, second@];
            let mut stages: Vec<StagePlan> = Vec::new();
            stages.push(first);
            stages.push(second);
            proof {
                assert(stage_views(stages@) =~= views);
            }
            Ok((downstream, stages))
        },
        _ => Err(
            SparkXError::unsupported(
                "remote joins support one inner/left equi-join with scan/filter/projection inputs and optional filter/projection output; chained joins, aggregation, sorting, and limits are not supported".to_owned(),
            ),
        ),
    }
}

/// The stages of a plan with a join, and nothing for a plan without one.
pub fn plan_remote_join(plan: &PhysicalPlan, query_id: QueryId) -> (r: Result<
    Option<Vec<StagePlan>>,
    SparkXError,
>)
    ensures
        match r {
            Ok(Some(stages)) => remote_join(plan@, query_id@) == Ok::<
                Option<Seq<StagePlanView>>,
                ErrorView,
            >(Some(stage_views(stages@))),
            Ok(None) => remote_join(plan@, query_id@) == Ok::<
                Option<Seq<StagePlanView>>,
                ErrorView,
            >(None),
            Err(error) => remote_join(plan@, query_id@) == Err::<
                Option<Seq<StagePlanView>>,
                ErrorView,
            >(error@),
        },
{
    if !has_join(plan) {
        return Ok(None);
    }
    let (downstream, stages) = match rewrite(plan, &query_id) {
        Ok(rewritten_plan) => rewritten_plan,
        Err(error) => return Err(error),
    };
    proof {
        rewritten_has_two_producers(plan@, query_id@);
        assert(stage_views(stages@)[0] == stages@[0]@);
    }
    let partitions: u32 = match &stages[0].output_exchange {
        Some(exchange) => exchange.partition_count,
        None => 0,
    };
    let inputs: Vec<StageId> = vec![StageId(0), StageId(1)];
    proof {
        assert(inputs@ =~= seq![StageId(0), StageId(1)]);
    }
    let last = match StagePlan::from_physical_plan(
        query_id,
        StageId(2),
        inputs,
        partitions,
        &downstream,
    ) {
        Ok(stage) => stage,
        Err(error) => return Err(error),
    };
    let mut last = last;
    last.partitioned_input = true;
    let ghost earlier = stage_views(stages@);
    let ghost view = last@;
    let mut stages = stages;
    stages.push(last);
    proof {
        assert(stage_views(stages@) =~= earlier.push(view));
    }
    Ok(Some(stages))
}

} // verus!

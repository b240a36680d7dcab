//! From logical plans to physical ones.

use crate::catalog::{find_table, Catalog, TableView};
use crate::error::{ErrorView, SparkXError};
use crate::expr::clone_exprs;
use crate::logical::{clone_sorts, logical_view, names_view, LogicalPlan, LogicalView};
use crate::optimizer::{places, places_of};
use crate::physical::{indices_view, physical_outcome, OperatorId, PhysicalPlan, PhysicalView};
use crate::types::{Schema, SchemaView};
use vstd::prelude::*;

verus! {

/// How many physical operators a logical plan takes: one for each of its own, but a limit on
/// sorted rows takes one with the sort.
pub open spec fn operator_count(plan: LogicalView) -> nat
    decreases plan,
{
    match plan {
        LogicalView::Scan { .. } => 1,
        LogicalView::Projection { input, .. } => operator_count(*input) + 1,
        LogicalView::Filter { input, .. } => operator_count(*input) + 1,
        LogicalView::Aggregate { input, .. } => operator_count(*input) + 1,
        LogicalView::Sort { input, .. } => operator_count(*input) + 1,
        LogicalView::Limit { input, .. } => match *input {
            LogicalView::Sort { input: sorted, .. } => operator_count(*sorted) + 1,
            _ => operator_count(*input) + 1,
        },
        LogicalView::Join { left, right, .. } => operator_count(*left) + operator_count(*right) + 1,
    }
}

/// The places of the columns that a scan reads, in the table's own schema.
pub open spec fn scan_projection(projection: Option<Seq<Seq<char>>>, schema: SchemaView) -> Result<
    Option<Seq<usize>>,
    ErrorView,
> {
    match projection {
        None => Ok(None),
        Some(names) => match places_of(names, schema, names.len() as int) {
            Err(error) => Err(error),
            Ok(at) => Ok(Some(Seq::new(at.len(), |i: int| at[i] as usize))),
        },
    }
}

/// The physical plan of a logical one, with operators numbered from `id` on in the order in which
/// they are written, or the first error.
pub open spec fn physical_plan(
    plan: LogicalView,
    tables: Map<Seq<char>, TableView>,
    id: nat,
) -> Result<PhysicalView, ErrorView>
    decreases plan,
{
    match plan {
        LogicalView::Scan { table, projection, filters, schema } => match find_table(
            tables,
            table,
        ) {
            Err(error) => Err(error),
            Ok(provider) => match scan_projection(projection, provider.schema) {
                Err(error) => Err(error),
                Ok(projection) => Ok(
                    PhysicalView::Scan {
                        id: id as u32,
                        table_name: table,
                        provider,
                        projection,
                        filters,
                        schema,
                    },
                ),
            },
        },
        LogicalView::Projection { input, exprs, schema } => match physical_plan(
            *input,
            tables,
            id + 1,
        ) {
            Err(error) => Err(error),
            Ok(input) => Ok(
                PhysicalView::Projection { id: id as u32, input: Box::new(input), exprs, schema },
            ),
        },
        LogicalView::Filter { input, predicate, schema } => match physical_plan(
            *input,
            tables,
            id + 1,
        ) {
            Err(error) => Err(error),
            Ok(input) => Ok(
                PhysicalView::Filter { id: id as u32, input: Box::new(input), predicate, schema },
            ),
        },
        LogicalView::Aggregate { input, group_exprs, aggregate_exprs, schema } => {
            match physical_plan(*input, tables, id + 1) {
                Err(error) => Err(error),
                Ok(input) => Ok(
                    PhysicalView::HashAggregate {
                        id: id as u32,
                        input: Box::new(input),
                        group_exprs,
                        aggregate_exprs,
                        schema,
                    },
                ),
            }
        },
        LogicalView::Sort { input, exprs, schema } => match physical_plan(*input, tables, id + 1) {
            Err(error) => Err(error),
            Ok(input) => Ok(
                PhysicalView::Sort { id: id as u32, input: Box::new(input), exprs, schema },
            ),
        },
        LogicalView::Limit { input, limit, schema } => match *input {
            LogicalView::Sort { input: sorted, exprs, .. } => match physical_plan(
                *sorted,
                tables,
                id + 1,
            ) {
                Err(error) => Err(error),
                Ok(input) => Ok(
                    PhysicalView::TopK {
                        id: id as u32,
                        input: Box::new(input),
                        exprs,
                        limit,
                        schema,
                    },
                ),
            },
            _ => match physical_plan(*input, tables, id + 1) {
                Err(error) => Err(error),
                Ok(input) => Ok(
                    PhysicalView::Limit { id: id as u32, input: Box::new(input), limit, schema },
                ),
            },
        },
        LogicalView::Join { left, right, join_type, left_on, right_on, schema } => {
            match physical_plan(*left, tables, id + 1) {
                Err(error) => Err(error),
                Ok(left_plan) => match physical_plan(
                    *right,
                    tables,
                    id + 1 + operator_count(*left),
                ) {
                    Err(error) => Err(error),
                    Ok(right_plan) => Ok(
                        PhysicalView::HashJoin {
                            id: id as u32,
                            left: Box::new(left_plan),
                            right: Box::new(right_plan),
                            join_type,
                            left_on,
                            right_on,
                            schema,
                        },
                    ),
                },
            }
        },
    }
}

/// The planner of physical plans.
#[derive(Debug, Clone, Copy)]
pub struct PhysicalPlanner;

fn scan_indices(projection: &Option<Vec<String>>, schema: &Schema) -> (r: Result<
    Option<Vec<usize>>,
    SparkXError,
>)
    ensures
        match r {
            Ok(indices) => scan_projection(names_view(*projection), schema@) == Ok::<
                Option<Seq<usize>>,
                ErrorView,
            >(indices_view(indices)),
            Err(error) => scan_projection(names_view(*projection), schema@) == Err::<
                Option<Seq<usize>>,
                ErrorView,
            >(error@),
        },
{
    match projection {
        None => Ok(None),
        Some(names) => match crate::optimizer::projection_indices(schema, names) {
            Ok(indices) => {
                proof {
                    let at = places(indices@);
                    assert(indices@ =~= Seq::new(at.len(), |i: int| at[i] as usize));
                }
                Ok(Some(indices))
            },
            Err(error) => Err(error),
        },
    }
}

impl PhysicalPlanner {
    /// The physical plan of a logical one over the tables of a catalog.
    pub fn create_physical_plan(logical: &LogicalPlan, catalog: &Catalog) -> (r: Result<
        PhysicalPlan,
        SparkXError,
    >)
        requires
            catalog.wf(),
            operator_count(logical@) <= u32::MAX,
        ensures
            physical_outcome(r) == physical_plan(logical@, catalog@, 0),
    {
        match Self::build(logical, catalog, 0) {
            Ok((plan, _)) => Ok(plan),
            Err(error) => Err(error),
        }
    }

    /// The physical plan of a logical one with operators numbered from `id` on, and the first
    /// number that is left.
    fn build(logical: &LogicalPlan, catalog: &Catalog, id: OperatorId) -> (r: Result<
        (PhysicalPlan, OperatorId),
        SparkXError,
    >)
        requires
            catalog.wf(),
            id + operator_count(logical@) <= u32::MAX,
        ensures
            match r {
                Ok((plan, next)) => {
                    &&& physical_plan(logical@, catalog@, id as nat) == Ok::<
                        PhysicalView,
                        ErrorView,
                    >(plan@)
                    &&& next == id + operator_count(logical@)
                },
                Err(error) => physical_plan(logical@, catalog@, id as nat) == Err::<
                    PhysicalView,
                    ErrorView,
                >(error@),
            },
        decreases logical,
    {
        match logical {
            LogicalPlan::Scan { table, projection, filters, schema } => {
                let provider = match catalog.table(table.as_str()) {
                    Ok(provider) => provider,
                    Err(error) => return Err(error),
                };
                let projection = match scan_indices(projection, &provider.schema) {
                    Ok(projection) => projection,
                    Err(error) => return Err(error),
                };
                let plan = PhysicalPlan::Scan {
                    id,
                    table_name: table.clone(),
                    provider: provider.clone(),
                    projection,
                    filters: clone_exprs(filters),
                    schema: schema.clone(),
                };
                Ok((plan, id + 1))
            },
            LogicalPlan::Projection { input, exprs, schema } => {
                let (input, next) = match Self::build(input, catalog, id + 1) {
                    Ok(built) => built,
                    Err(error) => return Err(error),
                };
                let plan = PhysicalPlan::Projection {
                    id,
                    input: Box::new(input),
                    exprs: clone_exprs(exprs),
                    schema: schema.clone(),
                };
                Ok((plan, next))
            },
            LogicalPlan::Filter { input, predicate, schema } => {
                let (input, next) = match Self::build(input, catalog, id + 1) {
                    Ok(built) => built,
                    Err(error) => return Err(error),
                };
                let plan = PhysicalPlan::Filter {
                    id,
                    input: Box::new(input),
                    predicate: predicate.clone(),
                    schema: schema.clone(),
                };
                Ok((plan, next))
            },
            LogicalPlan::Aggregate { input, group_exprs, aggregate_exprs, schema } => {
                let (input, next) = match Self::build(input, catalog, id + 1) {
                    Ok(built) => built,
                    Err(error) => return Err(error),
                };
                let plan = PhysicalPlan::HashAggregate {
                    id,
                    input: Box::new(input),
                    group_exprs: clone_exprs(group_exprs),
                    aggregate_exprs: clone_exprs(aggregate_exprs),
                    schema: schema.clone(),
                };
                Ok((plan, next))
            },
            LogicalPlan::Sort { input, exprs, schema } => {
                let (input, next) = match Self::build(input, catalog, id + 1) {
                    Ok(built) => built,
                    Err(error) => return Err(error),
                };
                let plan = PhysicalPlan::Sort {
                    id,
                    input: Box::new(input),
                    exprs: clone_sorts(exprs),
                    schema: schema.clone(),
                };
                Ok((plan, next))
            },
            LogicalPlan::Limit { input, limit, schema } => {
                proof {
                    reveal_with_fuel(logical_view, 2);
                }
                if let LogicalPlan::Sort { input: sorted, exprs, .. } = &**input {
                    let (input, next) = match Self::build(sorted, catalog, id + 1) {
                        Ok(built) => built,
                        Err(error) => return Err(error),
                    };
                    let plan = PhysicalPlan::TopK {
                        id,
                        input: Box::new(input),
                        exprs: clone_sorts(exprs),
                        limit: *limit,
                        schema: schema.clone(),
                    };
                    return Ok((plan, next));
                }
                let (input, next) = match Self::build(input, catalog, id + 1) {
                    Ok(built) => built,
                    Err(error) => return Err(error),
                };
                let plan = PhysicalPlan::Limit {
                    id,
                    input: Box::new(input),
                    limit: *limit,
                    schema: schema.clone(),
                };
                Ok((plan, next))
            },
            LogicalPlan::Join { left, right, join_type, left_on, right_on, schema } => {
                let (left, next) = match Self::build(left, catalog, id + 1) {
                    Ok(built) => built,
                    Err(error) => return Err(error),
                };
                let (right, next) = match Self::build(right, catalog, next) {
                    Ok(built) => built,
                    Err(error) => return Err(error),
                };
                let plan = PhysicalPlan::HashJoin {
                    id,
                    left: Box::new(left),
                    right: Box::new(right),
                    join_type: *join_type,
                    left_on: clone_exprs(left_on),
                    right_on: clone_exprs(right_on),
                    schema: schema.clone(),
                };
                Ok((plan, next))
            },
        }
    }
}

} // verus!

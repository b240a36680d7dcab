//! Physical plans: how a query is run, operator by operator.

use crate::catalog::{Table, TableView};
use crate::error::{ErrorView, SparkXError};
use crate::expr::{clone_exprs, display_exprs, expr_views, exprs_text, Expr, ExprView};
use crate::logical::{
    clone_sorts, display_filters, display_sorts, filters_text, sort_views, sorts_text, JoinType,
    SortExpr, SortView,
};
use crate::text::{comma_list, decimal, join, list, numeral, text_views};
use crate::types::{Schema, SchemaView};
use vstd::prelude::*;

verus! {

/// The number of an operator within its plan.
pub type OperatorId = u32;

/// How a query is run. Every operator has a number and carries the schema of its rows.
#[derive(Debug, PartialEq, Eq)]
#[allow(inconsistent_fields)]
pub enum PhysicalPlan {
    Scan {
        id: OperatorId,
        table_name: String,
        provider: Table,
        projection: Option<Vec<usize>>,
        filters: Vec<Expr>,
        schema: Schema,
    },
    Projection { id: OperatorId, input: Box<PhysicalPlan>, exprs: Vec<Expr>, schema: Schema },
    Filter { id: OperatorId, input: Box<PhysicalPlan>, predicate: Expr, schema: Schema },
    HashAggregate {
        id: OperatorId,
        input: Box<PhysicalPlan>,
        group_exprs: Vec<Expr>,
        aggregate_exprs: Vec<Expr>,
        schema: Schema,
    },
    Sort { id: OperatorId, input: Box<PhysicalPlan>, exprs: Vec<SortExpr>, schema: Schema },
    Limit { id: OperatorId, input: Box<PhysicalPlan>, limit: usize, schema: Schema },
    TopK {
        id: OperatorId,
        input: Box<PhysicalPlan>,
        exprs: Vec<SortExpr>,
        limit: usize,
        schema: Schema,
    },
    HashJoin {
        id: OperatorId,
        left: Box<PhysicalPlan>,
        right: Box<PhysicalPlan>,
        join_type: JoinType,
        left_on: Vec<Expr>,
        right_on: Vec<Expr>,
        schema: Schema,
    },
}

#[allow(inconsistent_fields)]
pub enum PhysicalView {
    Scan {
        id: u32,
        table_name: Seq<char>,
        provider: TableView,
        projection: Option<Seq<usize>>,
        filters: Seq<ExprView>,
        schema: SchemaView,
    },
    Projection { id: u32, input: Box<PhysicalView>, exprs: Seq<ExprView>, schema: SchemaView },
    Filter { id: u32, input: Box<PhysicalView>, predicate: ExprView, schema: SchemaView },
    HashAggregate {
        id: u32,
        input: Box<PhysicalView>,
        group_exprs: Seq<ExprView>,
        aggregate_exprs: Seq<ExprView>,
        schema: SchemaView,
    },
    Sort { id: u32, input: Box<PhysicalView>, exprs: Seq<SortView>, schema: SchemaView },
    Limit { id: u32, input: Box<PhysicalView>, limit: usize, schema: SchemaView },
    TopK {
        id: u32,
        input: Box<PhysicalView>,
        exprs: Seq<SortView>,
        limit: usize,
        schema: SchemaView,
    },
    HashJoin {
        id: u32,
        left: Box<PhysicalView>,
        right: Box<PhysicalView>,
        join_type: JoinType,
        left_on: Seq<ExprView>,
        right_on: Seq<ExprView>,
        schema: SchemaView,
    },
}

pub open spec fn indices_view(indices: Option<Vec<usize>>) -> Option<Seq<usize>> {
    match indices {
        Some(indices) => Some(indices@),
        None => None,
    }
}

pub open spec fn physical_view(plan: PhysicalPlan) -> PhysicalView
    decreases plan,
{
    match plan {
        PhysicalPlan::Scan { id, table_name, provider, projection, filters, schema } => {
            PhysicalView::Scan {
                id,
                table_name: table_name@,
                provider: provider@,
                projection: indices_view(projection),
                filters: expr_views(filters@),
                schema: schema@,
            }
        },
        PhysicalPlan::Projection { id, input, exprs, schema } => PhysicalView::Projection {
            id,
            input: Box::new(physical_view(*input)),
            exprs: expr_views(exprs@),
            schema: schema@,
        },
        PhysicalPlan::Filter { id, input, predicate, schema } => PhysicalView::Filter {
            id,
            input: Box::new(physical_view(*input)),
            predicate: predicate@,
            schema: schema@,
        },
        PhysicalPlan::HashAggregate { id, input, group_exprs, aggregate_exprs, schema } => {
            PhysicalView::HashAggregate {
                id,
                input: Box::new(physical_view(*input)),
                group_exprs: expr_views(group_exprs@),
                aggregate_exprs: expr_views(aggregate_exprs@),
                schema: schema@,
            }
        },
        PhysicalPlan::Sort { id, input, exprs, schema } => PhysicalView::Sort {
            id,
            input: Box::new(physical_view(*input)),
            exprs: sort_views(exprs@),
            schema: schema@,
        },
        PhysicalPlan::Limit { id, input, limit, schema } => PhysicalView::Limit {
            id,
            input: Box::new(physical_view(*input)),
            limit,
            schema: schema@,
        },
        PhysicalPlan::TopK { id, input, exprs, limit, schema } => PhysicalView::TopK {
            id,
            input: Box::new(physical_view(*input)),
            exprs: sort_views(exprs@),
            limit,
            schema: schema@,
        },
        PhysicalPlan::HashJoin { id, left, right, join_type, left_on, right_on, schema } => {
            PhysicalView::HashJoin {
                id,
                left: Box::new(physical_view(*left)),
                right: Box::new(physical_view(*right)),
                join_type,
                left_on: expr_views(left_on@),
                right_on: expr_views(right_on@),
                schema: schema@,
            }
        },
    }
}

impl View for PhysicalPlan {
    type V = PhysicalView;

    open spec fn view(&self) -> PhysicalView {
        physical_view(*self)
    }
}

/// A plan that was made, as contracts see it.
pub open spec fn physical_outcome(r: Result<PhysicalPlan, SparkXError>) -> Result<
    PhysicalView,
    ErrorView,
> {
    match r {
        Ok(plan) => Ok(plan@),
        Err(error) => Err(error@),
    }
}

/// How the places of columns are written.
pub open spec fn indices_text(projection: Option<Seq<usize>>) -> Seq<char> {
    match projection {
        Some(indices) => "Some(["@ + list(
            Seq::new(indices.len(), |i: int| numeral(indices[i] as nat)),
        ) + "])"@,
        None => "None"@,
    }
}

fn display_indices(projection: &Option<Vec<usize>>) -> (r: String)
    ensures
        r@ == indices_text(indices_view(*projection)),
{
    match projection {
        Some(indices) => {
            let mut texts: Vec<String> = Vec::new();
            for i in 0..indices.len()
                invariant
                    texts.len() == i,
                    forall|k: int|
                        0 <= k < i ==> (#[trigger] texts@[k])@ == numeral(indices@[k] as nat),
            {
                texts.push(decimal(indices[i] as u64));
            }
            proof {
                assert(text_views(texts@) =~= Seq::new(
                    indices@.len(),
                    |i: int| numeral(indices@[i] as nat),
                ));
            }
            let mut r: String = join("Some([", comma_list(&texts).as_str());
            r.append("])");
            r
        },
        None => "None".to_owned(),
    }
}

impl PhysicalView {
    pub open spec fn schema(self) -> SchemaView {
        match self {
            PhysicalView::Scan { schema, .. } => schema,
            PhysicalView::Projection { schema, .. } => schema,
            PhysicalView::Filter { schema, .. } => schema,
            PhysicalView::HashAggregate { schema, .. } => schema,
            PhysicalView::Sort { schema, .. } => schema,
            PhysicalView::Limit { schema, .. } => schema,
            PhysicalView::TopK { schema, .. } => schema,
            PhysicalView::HashJoin { schema, .. } => schema,
        }
    }

    pub open spec fn id(self) -> u32 {
        match self {
            PhysicalView::Scan { id, .. } => id,
            PhysicalView::Projection { id, .. } => id,
            PhysicalView::Filter { id, .. } => id,
            PhysicalView::HashAggregate { id, .. } => id,
            PhysicalView::Sort { id, .. } => id,
            PhysicalView::Limit { id, .. } => id,
            PhysicalView::TopK { id, .. } => id,
            PhysicalView::HashJoin { id, .. } => id,
        }
    }

    /// How a plan is written: a line for each operator, its inputs below it and further in.
    pub open spec fn text(self, margin: Seq<char>) -> Seq<char>
        decreases self,
    {
        let inner = margin + "  "@;
        let number = numeral(self.id() as nat);
        margin + match self {
            PhysicalView::Scan { table_name, provider, projection, filters, .. } => {
                "Parquet/Csv/MemoryScanExec#"@ + number + ": "@ + table_name + " partitions="@
                    + numeral(provider.partition_count as nat) + " projection="@ + indices_text(
                    projection,
                ) + filters_text(filters) + "\n"@
            },
            PhysicalView::Projection { input, exprs, .. } => "ProjectionExec#"@ + number + ": ["@
                + exprs_text(exprs) + "]\n"@ + input.text(inner),
            PhysicalView::Filter { input, predicate, .. } => "FilterExec#"@ + number + ": "@
                + predicate.text() + "\n"@ + input.text(inner),
            PhysicalView::HashAggregate { input, group_exprs, aggregate_exprs, .. } => {
                "HashAggregateExec#"@ + number + ": group=["@ + exprs_text(group_exprs)
                    + "] aggr=["@ + exprs_text(aggregate_exprs) + "]\n"@ + input.text(inner)
            },
            PhysicalView::Sort { input, exprs, .. } => "SortExec#"@ + number + ": ["@ + sorts_text(
                exprs,
            ) + "]\n"@ + input.text(inner),
            PhysicalView::Limit { input, limit, .. } => "LimitExec#"@ + number + ": "@ + numeral(
                limit as nat,
            ) + "\n"@ + input.text(inner),
            PhysicalView::TopK { input, exprs, limit, .. } => "TopKExec#"@ + number + ": limit="@
                + numeral(limit as nat) + " ["@ + sorts_text(exprs) + "]\n"@ + input.text(inner),
            PhysicalView::HashJoin { left, right, join_type, left_on, right_on, .. } => {
                "HashJoinExec#"@ + number + ": "@ + join_type.text() + " ["@ + exprs_text(left_on)
                    + " = "@ + exprs_text(right_on) + "]\n"@ + left.text(inner) + right.text(inner)
            },
        }
    }
}

impl PhysicalPlan {
    pub fn schema(&self) -> (r: &Schema)
        ensures
            r@ == self@.schema(),
    {
        match self {
            PhysicalPlan::Scan { schema, .. } => schema,
            PhysicalPlan::Projection { schema, .. } => schema,
            PhysicalPlan::Filter { schema, .. } => schema,
            PhysicalPlan::HashAggregate { schema, .. } => schema,
            PhysicalPlan::Sort { schema, .. } => schema,
            PhysicalPlan::Limit { schema, .. } => schema,
            PhysicalPlan::TopK { schema, .. } => schema,
            PhysicalPlan::HashJoin { schema, .. } => schema,
        }
    }

    /// The number of the operator at the top.
    pub fn id(&self) -> (r: OperatorId)
        ensures
            r == self@.id(),
    {
        match self {
            PhysicalPlan::Scan { id, .. } => *id,
            PhysicalPlan::Projection { id, .. } => *id,
            PhysicalPlan::Filter { id, .. } => *id,
            PhysicalPlan::HashAggregate { id, .. } => *id,
            PhysicalPlan::Sort { id, .. } => *id,
            PhysicalPlan::Limit { id, .. } => *id,
            PhysicalPlan::TopK { id, .. } => *id,
            PhysicalPlan::HashJoin { id, .. } => *id,
        }
    }

    /// How this plan is written.
    pub fn explain(&self) -> (r: String)
        ensures
            r@ == self@.text(Seq::empty()),
    {
        self.formatted(String::new().as_str())
    }

    fn formatted(&self, margin: &str) -> (r: String)
        ensures
            r@ == self@.text(margin@),
        decreases self,
    {
        let inner: String = join(margin, "  ");
        let number: String = decimal(self.id() as u64);
        let mut line: String = String::new();
        match self {
            PhysicalPlan::Scan { table_name, provider, projection, filters, .. } => {
                line = join("Parquet/Csv/MemoryScanExec#", number.as_str());
                line.append(": ");
                line.append(table_name.as_str());
                line.append(" partitions=");
                line.append(decimal(provider.partition_count as u64).as_str());
                line.append(" projection=");
                line.append(display_indices(projection).as_str());
                line.append(display_filters(filters).as_str());
                line.append("\n");
            },
            PhysicalPlan::Projection { input, exprs, .. } => {
                line = join("ProjectionExec#", number.as_str());
                line.append(": [");
                line.append(display_exprs(exprs).as_str());
                line.append("]\n");
                line.append(input.formatted(inner.as_str()).as_str());
            },
            PhysicalPlan::Filter { input, predicate, .. } => {
                line = join("FilterExec#", number.as_str());
                line.append(": ");
                line.append(predicate.to_text().as_str());
                line.append("\n");
                line.append(input.formatted(inner.as_str()).as_str());
            },
            PhysicalPlan::HashAggregate { input, group_exprs, aggregate_exprs, .. } => {
                line = join("HashAggregateExec#", number.as_str());
                line.append(": group=[");
                line.append(display_exprs(group_exprs).as_str());
                line.append("] aggr=[");
                line.append(display_exprs(aggregate_exprs).as_str());
                line.append("]\n");
                line.append(input.formatted(inner.as_str()).as_str());
            },
            PhysicalPlan::Sort { input, exprs, .. } => {
                line = join("SortExec#", number.as_str());
                line.append(": [");
                line.append(display_sorts(exprs).as_str());
                line.append("]\n");
                line.append(input.formatted(inner.as_str()).as_str());
            },
            PhysicalPlan::Limit { input, limit, .. } => {
                line = join("LimitExec#", number.as_str());
                line.append(": ");
                line.append(decimal(*limit as u64).as_str());
                line.append("\n");
                line.append(input.formatted(inner.as_str()).as_str());
            },
            PhysicalPlan::TopK { input, exprs, limit, .. } => {
                line = join("TopKExec#", number.as_str());
                line.append(": limit=");
                line.append(decimal(*limit as u64).as_str());
                line.append(" [");
                line.append(display_sorts(exprs).as_str());
                line.append("]\n");
                line.append(input.formatted(inner.as_str()).as_str());
            },
            PhysicalPlan::HashJoin { left, right, join_type, left_on, right_on, .. } => {
                line = join("HashJoinExec#", number.as_str());
                line.append(": ");
                line.append(join_type.to_text());
                line.append(" [");
                line.append(display_exprs(left_on).as_str());
                line.append(" = ");
                line.append(display_exprs(right_on).as_str());
                line.append("]\n");
                line.append(left.formatted(inner.as_str()).as_str());
                line.append(right.formatted(inner.as_str()).as_str());
            },
        }
        join(margin, line.as_str())
    }

    /// A copy of this plan.
    fn copied(&self) -> (r: PhysicalPlan)
        ensures
            r@ == self@,
        decreases self,
    {
        match self {
            PhysicalPlan::Scan { id, table_name, provider, projection, filters, schema } => {
                PhysicalPlan::Scan {
                    id: *id,
                    table_name: table_name.clone(),
                    provider: provider.clone(),
                    projection: clone_indices(projection),
                    filters: clone_exprs(filters),
                    schema: schema.clone(),
                }
            },
            PhysicalPlan::Projection { id, input, exprs, schema } => PhysicalPlan::Projection {
                id: *id,
                input: Box::new(input.copied()),
                exprs: clone_exprs(exprs),
                schema: schema.clone(),
            },
            PhysicalPlan::Filter { id, input, predicate, schema } => PhysicalPlan::Filter {
                id: *id,
                input: Box::new(input.copied()),
                predicate: predicate.clone(),
                schema: schema.clone(),
            },
            PhysicalPlan::HashAggregate { id, input, group_exprs, aggregate_exprs, schema } => {
                PhysicalPlan::HashAggregate {
                    id: *id,
                    input: Box::new(input.copied()),
                    group_exprs: clone_exprs(group_exprs),
                    aggregate_exprs: clone_exprs(aggregate_exprs),
                    schema: schema.clone(),
                }
            },
            PhysicalPlan::Sort { id, input, exprs, schema } => PhysicalPlan::Sort {
                id: *id,
                input: Box::new(input.copied()),
                exprs: clone_sorts(exprs),
                schema: schema.clone(),
            },
            PhysicalPlan::Limit { id, input, limit, schema } => PhysicalPlan::Limit {
                id: *id,
                input: Box::new(input.copied()),
                limit: *limit,
                schema: schema.clone(),
            },
            PhysicalPlan::TopK { id, input, exprs, limit, schema } => PhysicalPlan::TopK {
                id: *id,
                input: Box::new(input.copied()),
                exprs: clone_sorts(exprs),
                limit: *limit,
                schema: schema.clone(),
            },
            PhysicalPlan::HashJoin { id, left, right, join_type, left_on, right_on, schema } => {
                let left = left.copied();
                let right = right.copied();
                PhysicalPlan::HashJoin {
                    id: *id,
                    left: Box::new(left),
                    right: Box::new(right),
                    join_type: *join_type,
                    left_on: clone_exprs(left_on),
                    right_on: clone_exprs(right_on),
                    schema: schema.clone(),
                }
            },
        }
    }
}

pub fn clone_indices(indices: &Option<Vec<usize>>) -> (r: Option<Vec<usize>>)
    ensures
        indices_view(r) == indices_view(*indices),
{
    match indices {
        Some(indices) => {
            let copy = indices.clone();
            proof {
                assert(copy@ =~= indices@);
            }
            Some(copy)
        },
        None => None,
    }
}

impl Clone for PhysicalPlan {
    fn clone(&self) -> (r: Self)
        ensures
            r@ == self@,
    {
        self.copied()
    }
}

} // verus!

//! Logical plans: what a query asks for, operator by operator.

use crate::error::{ErrorView, SparkXError};
use crate::expr::{
    clone_exprs, display_exprs, expr_views, exprs_text, Expr, ExprView,
};
use crate::text::{
    clone_texts, comma_list, decimal, join, list, numeral, quote, quoted, same_text, text_views,
};
use crate::types::{field_views, plain_schema, DataType, Field, FieldView, Schema, SchemaView};
use vstd::prelude::*;

verus! {

/// Which rows a join keeps.
#[derive(Debug, Clone, Copy, PartialEq, Eq, Structural)]
pub enum JoinType {
    /// The pairs of rows with equal keys.
    Inner,
    /// The same, and each row of the left side that has no partner.
    Left,
}

impl JoinType {
    pub open spec fn text(self) -> Seq<char> {
        match self {
            JoinType::Inner => "Inner"@,
            JoinType::Left => "Left"@,
        }
    }

    /// How this is written.
    pub fn to_text(&self) -> (r: &'static str)
        ensures
            r@ == self.text(),
    {
        match self {
            JoinType::Inner => "Inner",
            JoinType::Left => "Left",
        }
    }
}

/// A key by which rows are put in order.
#[derive(Debug, PartialEq, Eq)]
pub struct SortExpr {
    pub expr: Expr,
    pub ascending: bool,
    pub nulls_first: bool,
}

pub struct SortView {
    pub expr: ExprView,
    pub ascending: bool,
    pub nulls_first: bool,
}

impl View for SortExpr {
    type V = SortView;

    open spec fn view(&self) -> SortView {
        SortView { expr: self.expr@, ascending: self.ascending, nulls_first: self.nulls_first }
    }
}

impl Clone for SortExpr {
    fn clone(&self) -> (r: Self)
        ensures
            r@ == self@,
    {
        SortExpr {
            expr: self.expr.clone(),
            ascending: self.ascending,
            nulls_first: self.nulls_first,
        }
    }
}

pub open spec fn sort_views(exprs: Seq<SortExpr>) -> Seq<SortView> {
    Seq::new(exprs.len(), |i: int| exprs[i]@)
}

pub fn clone_sorts(exprs: &Vec<SortExpr>) -> (r: Vec<SortExpr>)
    ensures
        sort_views(r@) == sort_views(exprs@),
{
    let mut r: Vec<SortExpr> = Vec::new();
    for i in 0..exprs.len()
        invariant
            r.len() == i,
            forall|k: int| 0 <= k < i ==> (#[trigger] r@[k])@ == exprs@[k]@,
    {
        r.push(exprs[i].clone());
    }
    proof {
        assert(sort_views(r@) =~= sort_views(exprs@));
    }
    r
}

impl SortView {
    pub open spec fn text(self) -> Seq<char> {
        self.expr.text() + (if self.ascending {
            " ASC"@
        } else {
            " DESC"@
        })
    }
}

/// How a list of sort keys is written.
pub open spec fn sorts_text(exprs: Seq<SortView>) -> Seq<char> {
    list(Seq::new(exprs.len(), |i: int| exprs[i].text()))
}

/// How a list of sort keys is written.
pub fn display_sorts(exprs: &Vec<SortExpr>) -> (r: String)
    ensures
        r@ == sorts_text(sort_views(exprs@)),
{
    let mut texts: Vec<String> = Vec::new();
    for i in 0..exprs.len()
        invariant
            texts.len() == i,
            forall|k: int| 0 <= k < i ==> (#[trigger] texts@[k])@ == exprs@[k]@.text(),
    {
        let mut text: String = exprs[i].expr.to_text();
        if exprs[i].ascending {
            text.append(" ASC");
        } else {
            text.append(" DESC");
        }
        texts.push(text);
    }
    proof {
        let views = sort_views(exprs@);
        assert(text_views(texts@) =~= Seq::new(views.len(), |i: int| views[i].text()));
    }
    comma_list(&texts)
}

/// What a query asks for. Every operator carries the schema of its rows.
#[derive(Debug, PartialEq, Eq)]
#[allow(inconsistent_fields)]
pub enum LogicalPlan {
    Scan { table: String, projection: Option<Vec<String>>, filters: Vec<Expr>, schema: Schema },
    Projection { input: Box<LogicalPlan>, exprs: Vec<Expr>, schema: Schema },
    Filter { input: Box<LogicalPlan>, predicate: Expr, schema: Schema },
    Aggregate {
        input: Box<LogicalPlan>,
        group_exprs: Vec<Expr>,
        aggregate_exprs: Vec<Expr>,
        schema: Schema,
    },
    Sort { input: Box<LogicalPlan>, exprs: Vec<SortExpr>, schema: Schema },
    Limit { input: Box<LogicalPlan>, limit: usize, schema: Schema },
    Join {
        left: Box<LogicalPlan>,
        right: Box<LogicalPlan>,
        join_type: JoinType,
        left_on: Vec<Expr>,
        right_on: Vec<Expr>,
        schema: Schema,
    },
}

#[allow(inconsistent_fields)]
pub enum LogicalView {
    Scan {
        table: Seq<char>,
        projection: Option<Seq<Seq<char>>>,
        filters: Seq<ExprView>,
        schema: SchemaView,
    },
    Projection { input: Box<LogicalView>, exprs: Seq<ExprView>, schema: SchemaView },
    Filter { input: Box<LogicalView>, predicate: ExprView, schema: SchemaView },
    Aggregate {
        input: Box<LogicalView>,
        group_exprs: Seq<ExprView>,
        aggregate_exprs: Seq<ExprView>,
        schema: SchemaView,
    },
    Sort { input: Box<LogicalView>, exprs: Seq<SortView>, schema: SchemaView },
    Limit { input: Box<LogicalView>, limit: usize, schema: SchemaView },
    Join {
        left: Box<LogicalView>,
        right: Box<LogicalView>,
        join_type: JoinType,
        left_on: Seq<ExprView>,
        right_on: Seq<ExprView>,
        schema: SchemaView,
    },
}

pub open spec fn names_view(names: Option<Vec<String>>) -> Option<Seq<Seq<char>>> {
    match names {
        Some(names) => Some(text_views(names@)),
        None => None,
    }
}

pub open spec fn logical_view(plan: LogicalPlan) -> LogicalView
    decreases plan,
{
    match plan {
        LogicalPlan::Scan { table, projection, filters, schema } => LogicalView::Scan {
            table: table@,
            projection: names_view(projection),
            filters: expr_views(filters@),
            schema: schema@,
        },
        LogicalPlan::Projection { input, exprs, schema } => LogicalView::Projection {
            input: Box::new(logical_view(*input)),
            exprs: expr_views(exprs@),
            schema: schema@,
        },
        LogicalPlan::Filter { input, predicate, schema } => LogicalView::Filter {
            input: Box::new(logical_view(*input)),
            predicate: predicate@,
            schema: schema@,
        },
        LogicalPlan::Aggregate { input, group_exprs, aggregate_exprs, schema } => {
            LogicalView::Aggregate {
                input: Box::new(logical_view(*input)),
                group_exprs: expr_views(group_exprs@),
                aggregate_exprs: expr_views(aggregate_exprs@),
                schema: schema@,
            }
        },
        LogicalPlan::Sort { input, exprs, schema } => LogicalView::Sort {
            input: Box::new(logical_view(*input)),
            exprs: sort_views(exprs@),
            schema: schema@,
        },
        LogicalPlan::Limit { input, limit, schema } => LogicalView::Limit {
            input: Box::new(logical_view(*input)),
            limit,
            schema: schema@,
        },
        LogicalPlan::Join { left, right, join_type, left_on, right_on, schema } => {
            LogicalView::Join {
                left: Box::new(logical_view(*left)),
                right: Box::new(logical_view(*right)),
                join_type,
                left_on: expr_views(left_on@),
                right_on: expr_views(right_on@),
                schema: schema@,
            }
        },
    }
}

impl View for LogicalPlan {
    type V = LogicalView;

    open spec fn view(&self) -> LogicalView {
        logical_view(*self)
    }
}

/// A plan that was made, as contracts see it.
pub open spec fn plan_outcome(r: Result<LogicalPlan, SparkXError>) -> Result<
    LogicalView,
    ErrorView,
> {
    match r {
        Ok(plan) => Ok(plan@),
        Err(error) => Err(error@),
    }
}

impl LogicalView {
    pub open spec fn schema(self) -> SchemaView {
        match self {
            LogicalView::Scan { schema, .. } => schema,
            LogicalView::Projection { schema, .. } => schema,
            LogicalView::Filter { schema, .. } => schema,
            LogicalView::Aggregate { schema, .. } => schema,
            LogicalView::Sort { schema, .. } => schema,
            LogicalView::Limit { schema, .. } => schema,
            LogicalView::Join { schema, .. } => schema,
        }
    }
}

/// The columns of a schema as expressions.
pub open spec fn all_columns(schema: SchemaView) -> Seq<ExprView> {
    Seq::new(schema.fields.len(), |i: int| ExprView::Column(schema.fields[i].name))
}

/// The first `upto` expressions, with every column of the schema in place of a wildcard.
pub open spec fn expanded(exprs: Seq<ExprView>, schema: SchemaView, upto: int) -> Seq<ExprView>
    decreases upto,
{
    if upto <= 0 {
        Seq::empty()
    } else {
        let earlier = expanded(exprs, schema, upto - 1);
        match exprs[upto - 1] {
            ExprView::Wildcard => earlier + all_columns(schema),
            other => earlier.push(other),
        }
    }
}

/// The fields of the first `upto` expressions, or the first error.
pub open spec fn fields_of(exprs: Seq<ExprView>, schema: SchemaView, upto: int) -> Result<
    Seq<FieldView>,
    ErrorView,
>
    decreases upto,
{
    if upto <= 0 {
        Ok(Seq::empty())
    } else {
        match fields_of(exprs, schema, upto - 1) {
            Err(error) => Err(error),
            Ok(fields) => match exprs[upto - 1].field(schema) {
                Err(error) => Err(error),
                Ok(field) => Ok(fields.push(field)),
            },
        }
    }
}

proof fn fields_fail_early(exprs: Seq<ExprView>, schema: SchemaView, upto: int, full: int)
    requires
        0 <= upto <= full,
        fields_of(exprs, schema, upto) is Err,
    ensures
        fields_of(exprs, schema, full) == fields_of(exprs, schema, upto),
    decreases full - upto,
{
    if upto < full {
        fields_fail_early(exprs, schema, upto, full - 1);
    }
}

/// What comes of asking for expressions over the rows of a plan.
pub open spec fn projected(input: LogicalView, exprs: Seq<ExprView>) -> Result<
    LogicalView,
    ErrorView,
> {
    let all = expanded(exprs, input.schema(), exprs.len() as int);
    match fields_of(all, input.schema(), all.len() as int) {
        Err(error) => Err(error),
        Ok(fields) => Ok(
            LogicalView::Projection {
                input: Box::new(input),
                exprs: all,
                schema: plain_schema(fields),
            },
        ),
    }
}

/// What comes of asking for the rows of a plan of which a predicate holds.
pub open spec fn filtered(input: LogicalView, predicate: ExprView) -> Result<
    LogicalView,
    ErrorView,
> {
    match predicate.data_type(input.schema()) {
        Err(error) => Err(error),
        Ok(data_type) => if data_type is Boolean {
            Ok(LogicalView::Filter { input: Box::new(input), predicate, schema: input.schema() })
        } else {
            Err(
                ErrorView::Planning(
                    "filter predicate must be Boolean, got "@ + data_type.name(),
                ),
            )
        },
    }
}

/// What comes of asking for aggregates over groups of rows.
pub open spec fn aggregated(
    input: LogicalView,
    group_exprs: Seq<ExprView>,
    aggregate_exprs: Seq<ExprView>,
) -> Result<LogicalView, ErrorView> {
    let all = group_exprs + aggregate_exprs;
    match fields_of(all, input.schema(), all.len() as int) {
        Err(error) => Err(error),
        Ok(fields) => Ok(
            LogicalView::Aggregate {
                input: Box::new(input),
                group_exprs,
                aggregate_exprs,
                schema: plain_schema(fields),
            },
        ),
    }
}

/// The first error among the types of sort keys at or after `from`.
pub open spec fn sorts_check(exprs: Seq<SortView>, schema: SchemaView, from: int) -> Result<
    (),
    ErrorView,
>
    decreases exprs.len() - from,
{
    if from >= exprs.len() {
        Ok(())
    } else {
        match exprs[from].expr.data_type(schema) {
            Err(error) => Err(error),
            Ok(_) => sorts_check(exprs, schema, from + 1),
        }
    }
}

/// What comes of asking for rows in an order.
pub open spec fn sorted(input: LogicalView, exprs: Seq<SortView>) -> Result<
    LogicalView,
    ErrorView,
> {
    match sorts_check(exprs, input.schema(), 0) {
        Err(error) => Err(error),
        Ok(()) => Ok(
            LogicalView::Sort { input: Box::new(input), exprs, schema: input.schema() },
        ),
    }
}

/// A plan for the first rows of another.
pub open spec fn limited(input: LogicalView, limit: usize) -> LogicalView {
    LogicalView::Limit { input: Box::new(input), limit, schema: input.schema() }
}

/// The first error among the join keys at or after `from`.
pub open spec fn keys_check(
    left_on: Seq<ExprView>,
    right_on: Seq<ExprView>,
    left: SchemaView,
    right: SchemaView,
    from: int,
) -> Result<(), ErrorView>
    decreases left_on.len() - from,
{
    if from >= left_on.len() {
        Ok(())
    } else {
        match left_on[from].data_type(left) {
            Err(error) => Err(error),
            Ok(left_type) => match right_on[from].data_type(right) {
                Err(error) => Err(error),
                Ok(right_type) => if left_type != right_type {
                    Err(
                        ErrorView::Planning(
                            "join key types differ: "@ + left_type.name() + " versus "@
                                + right_type.name(),
                        ),
                    )
                } else {
                    keys_check(left_on, right_on, left, right, from + 1)
                },
            },
        }
    }
}

/// Whether a field has a name.
pub open spec fn has_name(fields: Seq<FieldView>, name: Seq<char>) -> bool {
    exists|i: int| 0 <= i < fields.len() && (#[trigger] fields[i]).name == name
}

/// The fields of a join: those of the left side, then the first `upto` of the right side. A name
/// that is taken is marked as one of the right side, and where rows of the left side are kept
/// without a partner, fields of the right side can be NULL.
pub open spec fn joined_fields(
    left: Seq<FieldView>,
    right: Seq<FieldView>,
    join_type: JoinType,
    upto: int,
) -> Seq<FieldView>
    decreases upto,
{
    if upto <= 0 {
        left
    } else {
        let earlier = joined_fields(left, right, join_type, upto - 1);
        let field = right[upto - 1];
        earlier.push(
            FieldView {
                name: if has_name(earlier, field.name) {
                    "right."@ + field.name
                } else {
                    field.name
                },
                nullable: field.nullable || join_type is Left,
                ..field
            },
        )
    }
}

/// What comes of asking for a join.
pub open spec fn joined(
    left: LogicalView,
    right: LogicalView,
    join_type: JoinType,
    left_on: Seq<ExprView>,
    right_on: Seq<ExprView>,
) -> Result<LogicalView, ErrorView> {
    if left_on.len() != right_on.len() || left_on.len() == 0 {
        Err(
            ErrorView::Planning(
                "joins require the same non-zero number of left and right keys"@,
            ),
        )
    } else {
        match keys_check(left_on, right_on, left.schema(), right.schema(), 0) {
            Err(error) => Err(error),
            Ok(()) => Ok(
                LogicalView::Join {
                    left: Box::new(left),
                    right: Box::new(right),
                    join_type,
                    left_on,
                    right_on,
                    schema: plain_schema(
                        joined_fields(
                            left.schema().fields,
                            right.schema().fields,
                            join_type,
                            right.schema().fields.len() as int,
                        ),
                    ),
                },
            ),
        }
    }
}

fn expand_projection(exprs: Vec<Expr>, schema: &Schema) -> (r: Vec<Expr>)
    ensures
        expr_views(r@) == expanded(expr_views(exprs@), schema@, exprs.len() as int),
{
    let ghost views = expr_views(exprs@);
    let mut r: Vec<Expr> = Vec::new();
    proof {
        assert(expr_views(r@) =~= Seq::empty());
    }
    for i in 0..exprs.len()
        invariant
            views == expr_views(exprs@),
            expr_views(r@) == expanded(views, schema@, i as int),
    {
        let ghost earlier = expr_views(r@);
        proof {
            assert(views[i as int] == exprs@[i as int]@);
        }
        match &exprs[i] {
            Expr::Wildcard => {
                for k in 0..schema.fields.len()
                    invariant
                        expr_views(r@) =~= earlier + all_columns(schema@).take(k as int),
                {
                    let ghost before_push = expr_views(r@);
                    r.push(Expr::column(schema.fields[k].name.clone()));
                    proof {
                        assert(expr_views(r@) =~= before_push.push(
                            all_columns(schema@)[k as int],
                        ));
                    }
                }
                proof {
                    assert(all_columns(schema@).take(schema.fields.len() as int) =~= all_columns(
                        schema@,
                    ));
                }
            },
            other => {
                r.push(other.clone());
                proof {
                    assert(expr_views(r@) =~= earlier.push(views[i as int]));
                }
            },
        }
    }
    r
}

/// The fields of some expressions.
pub(crate) fn infer_fields(exprs: &Vec<Expr>, schema: &Schema) -> (r: Result<Vec<Field>, SparkXError>)
    ensures
        match r {
            Ok(fields) => fields_of(expr_views(exprs@), schema@, exprs.len() as int) == Ok::<
                Seq<FieldView>,
                ErrorView,
            >(field_views(fields@)),
            Err(error) => fields_of(expr_views(exprs@), schema@, exprs.len() as int) == Err::<
                Seq<FieldView>,
                ErrorView,
            >(error@),
        },
{
    let ghost views = expr_views(exprs@);
    let mut fields: Vec<Field> = Vec::new();
    proof {
        assert(field_views(fields@) =~= Seq::empty());
    }
    for i in 0..exprs.len()
        invariant
            views == expr_views(exprs@),
            fields_of(views, schema@, i as int) == Ok::<Seq<FieldView>, ErrorView>(
                field_views(fields@),
            ),
    {
        proof {
            assert(views[i as int] == exprs@[i as int]@);
        }
        let ghost earlier = field_views(fields@);
        match exprs[i].field(schema) {
            Ok(field) => {
                fields.push(field);
                proof {
                    assert(field_views(fields@) =~= earlier.push(field@));
                }
            },
            Err(error) => {
                proof {
                    fields_fail_early(views, schema@, i + 1, exprs.len() as int);
                }
                return Err(error);
            },
        }
    }
    Ok(fields)
}

impl LogicalPlan {
    /// A plan for all rows of a table.
    pub fn scan(table: String, schema: Schema) -> (r: Self)
        ensures
            r@ == (LogicalView::Scan {
                table: table@,
                projection: None,
                filters: Seq::empty(),
                schema: schema@,
            }),
    {
        let filters: Vec<Expr> = Vec::new();
        proof {
            assert(expr_views(filters@) =~= Seq::empty());
        }
        LogicalPlan::Scan { table, projection: None, filters, schema }
    }

    /// A plan for expressions over the rows of another.
    pub fn project(input: LogicalPlan, exprs: Vec<Expr>) -> (r: Result<Self, SparkXError>)
        ensures
            plan_outcome(r) == projected(input@, expr_views(exprs@)),
    {
        let expanded_exprs = expand_projection(exprs, input.schema());
        let fields = match infer_fields(&expanded_exprs, input.schema()) {
            Ok(fields) => fields,
            Err(error) => return Err(error),
        };
        Ok(
            LogicalPlan::Projection {
                input: Box::new(input),
                exprs: expanded_exprs,
                schema: Schema::new(fields),
            },
        )
    }

    /// A plan for the rows of another of which a predicate holds.
    pub fn filter(input: LogicalPlan, predicate: Expr) -> (r: Result<Self, SparkXError>)
        ensures
            plan_outcome(r) == filtered(input@, predicate@),
    {
        let data_type = match predicate.data_type(input.schema()) {
            Ok(data_type) => data_type,
            Err(error) => return Err(error),
        };
        if !data_type.same(&DataType::Boolean) {
            return Err(
                SparkXError::planning(
                    join("filter predicate must be Boolean, got ", data_type.to_text().as_str()),
                ),
            );
        }
        let schema = input.schema().clone();
        Ok(LogicalPlan::Filter { input: Box::new(input), predicate, schema })
    }

    /// A plan for aggregates over groups of rows of another.
    pub fn aggregate(input: LogicalPlan, group_exprs: Vec<Expr>, aggregate_exprs: Vec<Expr>) -> (r:
        Result<Self, SparkXError>)
        ensures
            plan_outcome(r) == aggregated(
                input@,
                expr_views(group_exprs@),
                expr_views(aggregate_exprs@),
            ),
    {
        let mut all = clone_exprs(&group_exprs);
        let mut more = clone_exprs(&aggregate_exprs);
        let ghost first = all@;
        let ghost second = more@;
        all.append(&mut more);
        proof {
            assert(expr_views(all@) =~= expr_views(first) + expr_views(second));
        }
        let fields = match infer_fields(&all, input.schema()) {
            Ok(fields) => fields,
            Err(error) => return Err(error),
        };
        Ok(
            LogicalPlan::Aggregate {
                input: Box::new(input),
                group_exprs,
                aggregate_exprs,
                schema: Schema::new(fields),
            },
        )
    }

    /// A plan for the rows of another in an order.
    pub fn sort(input: LogicalPlan, exprs: Vec<SortExpr>) -> (r: Result<Self, SparkXError>)
        ensures
            plan_outcome(r) == sorted(input@, sort_views(exprs@)),
    {
        let ghost views = sort_views(exprs@);
        for i in 0..exprs.len()
            invariant
                views == sort_views(exprs@),
                sorts_check(views, input@.schema(), 0) == sorts_check(
                    views,
                    input@.schema(),
                    i as int,
                ),
        {
            proof {
                assert(views[i as int] == exprs@[i as int]@);
            }
            match exprs[i].expr.data_type(input.schema()) {
                Ok(_) => {},
                Err(error) => return Err(error),
            }
        }
        let schema = input.schema().clone();
        Ok(LogicalPlan::Sort { input: Box::new(input), exprs, schema })
    }

    /// A plan for the first rows of another.
    pub fn limit(input: LogicalPlan, limit: usize) -> (r: Self)
        ensures
            r@ == limited(input@, limit),
    {
        let schema = input.schema().clone();
        LogicalPlan::Limit { input: Box::new(input), limit, schema }
    }

    /// A plan for the join of two others.
    pub fn join(
        left: LogicalPlan,
        right: LogicalPlan,
        join_type: JoinType,
        left_on: Vec<Expr>,
        right_on: Vec<Expr>,
    ) -> (r: Result<Self, SparkXError>)
        ensures
            plan_outcome(r) == joined(
                left@,
                right@,
                join_type,
                expr_views(left_on@),
                expr_views(right_on@),
            ),
    {
        if left_on.len() != right_on.len() || left_on.len() == 0 {
            return Err(
                SparkXError::planning(
                    "joins require the same non-zero number of left and right keys".to_owned(),
                ),
            );
        }
        let ghost left_keys = expr_views(left_on@);
        let ghost right_keys = expr_views(right_on@);
        for i in 0..left_on.len()
            invariant
                left_on.len() == right_on.len(),
                left_on.len() > 0,
                left_keys == expr_views(left_on@),
                right_keys == expr_views(right_on@),
                keys_check(left_keys, right_keys, left@.schema(), right@.schema(), 0)
                    == keys_check(
                    left_keys,
                    right_keys,
                    left@.schema(),
                    right@.schema(),
                    i as int,
                ),
        {
            proof {
                assert(left_keys[i as int] == left_on@[i as int]@);
                assert(right_keys[i as int] == right_on@[i as int]@);
            }
            let left_type = match left_on[i].data_type(left.schema()) {
                Ok(data_type) => data_type,
                Err(error) => return Err(error),
            };
            let right_type = match right_on[i].data_type(right.schema()) {
                Ok(data_type) => data_type,
                Err(error) => return Err(error),
            };
            if !left_type.same(&right_type) {
                let mut message: String = join(
                    "join key types differ: ",
                    left_type.to_text().as_str(),
                );
                message.append(" versus ");
                message.append(right_type.to_text().as_str());
                return Err(SparkXError::planning(message));
            }
        }
        let fields = join_fields(left.schema(), right.schema(), join_type);
        Ok(
            LogicalPlan::Join {
                left: Box::new(left),
                right: Box::new(right),
                join_type,
                left_on,
                right_on,
                schema: Schema::new(fields),
            },
        )
    }

    pub fn schema(&self) -> (r: &Schema)
        ensures
            r@ == self@.schema(),
    {
        match self {
            LogicalPlan::Scan { schema, .. } => schema,
            LogicalPlan::Projection { schema, .. } => schema,
            LogicalPlan::Filter { schema, .. } => schema,
            LogicalPlan::Aggregate { schema, .. } => schema,
            LogicalPlan::Sort { schema, .. } => schema,
            LogicalPlan::Limit { schema, .. } => schema,
            LogicalPlan::Join { schema, .. } => schema,
        }
    }
}

fn name_is_taken(fields: &Vec<Field>, name: &str) -> (r: bool)
    ensures
        r == has_name(field_views(fields@), name@),
{
    let ghost views = field_views(fields@);
    for i in 0..fields.len()
        invariant
            views == field_views(fields@),
            forall|k: int| 0 <= k < i ==> (#[trigger] views[k]).name != name@,
    {
        proof {
            assert(views[i as int].name == fields@[i as int].name@);
        }
        if same_text(fields[i].name.as_str(), name) {
            return true;
        }
    }
    false
}

pub(crate) fn join_fields(left: &Schema, right: &Schema, join_type: JoinType) -> (r: Vec<Field>)
    ensures
        field_views(r@) == joined_fields(
            left@.fields,
            right@.fields,
            join_type,
            right@.fields.len() as int,
        ),
{
    let mut fields = crate::types::clone_fields(&left.fields);
    for i in 0..right.fields.len()
        invariant
            field_views(fields@) == joined_fields(
                left@.fields,
                right@.fields,
                join_type,
                i as int,
            ),
    {
        let ghost earlier = field_views(fields@);
        proof {
            assert(right@.fields[i as int] == right.fields@[i as int]@);
        }
        let mut field = right.fields[i].clone();
        if let JoinType::Left = join_type {
            field.nullable = true;
        }
        if name_is_taken(&fields, field.name.as_str()) {
            field.name = join("right.", field.name.as_str());
        }
        fields.push(field);
        proof {
            assert(field_views(fields@) =~= earlier.push(field@));
        }
    }
    fields
}

impl LogicalPlan {
    /// A copy of this plan.
    fn copied(&self) -> (r: LogicalPlan)
        ensures
            r@ == self@,
        decreases self,
    {
        match self {
            LogicalPlan::Scan { table, projection, filters, schema } => LogicalPlan::Scan {
                table: table.clone(),
                projection: match projection {
                    Some(names) => Some(clone_texts(names)),
                    None => None,
                },
                filters: clone_exprs(filters),
                schema: schema.clone(),
            },
            LogicalPlan::Projection { input, exprs, schema } => LogicalPlan::Projection {
                input: Box::new(input.copied()),
                exprs: clone_exprs(exprs),
                schema: schema.clone(),
            },
            LogicalPlan::Filter { input, predicate, schema } => LogicalPlan::Filter {
                input: Box::new(input.copied()),
                predicate: predicate.clone(),
                schema: schema.clone(),
            },
            LogicalPlan::Aggregate { input, group_exprs, aggregate_exprs, schema } => {
                LogicalPlan::Aggregate {
                    input: Box::new(input.copied()),
                    group_exprs: clone_exprs(group_exprs),
                    aggregate_exprs: clone_exprs(aggregate_exprs),
                    schema: schema.clone(),
                }
            },
            LogicalPlan::Sort { input, exprs, schema } => LogicalPlan::Sort {
                input: Box::new(input.copied()),
                exprs: clone_sorts(exprs),
                schema: schema.clone(),
            },
            LogicalPlan::Limit { input, limit, schema } => LogicalPlan::Limit {
                input: Box::new(input.copied()),
                limit: *limit,
                schema: schema.clone(),
            },
            LogicalPlan::Join { left, right, join_type, left_on, right_on, schema } => {
                let left = left.copied();
                let right = right.copied();
                LogicalPlan::Join {
                    left: Box::new(left),
                    right: Box::new(right),
                    join_type: *join_type,
                    left_on: clone_exprs(left_on),
                    right_on: clone_exprs(right_on),
                    schema: schema.clone(),
                }
            },
        }
    }
}

impl Clone for LogicalPlan {
    fn clone(&self) -> (r: Self)
        ensures
            r@ == self@,
    {
        self.copied()
    }
}

// ---- explaining

/// How a list of names is written.
pub open spec fn names_text(names: Seq<Seq<char>>) -> Seq<char> {
    "["@ + list(Seq::new(names.len(), |i: int| quoted(names[i]))) + "]"@
}

fn display_names(names: &Vec<String>) -> (r: String)
    ensures
        r@ == names_text(text_views(names@)),
{
    let mut texts: Vec<String> = Vec::new();
    for i in 0..names.len()
        invariant
            texts.len() == i,
            forall|k: int| 0 <= k < i ==> (#[trigger] texts@[k])@ == quoted(names@[k]@),
    {
        texts.push(quote(names[i].as_str()));
    }
    proof {
        let views = text_views(names@);
        assert(text_views(texts@) =~= Seq::new(views.len(), |i: int| quoted(views[i])));
    }
    let mut r: String = join("[", comma_list(&texts).as_str());
    r.append("]");
    r
}

impl LogicalView {
    /// How a plan is written: a line for each operator, its inputs below it and further in.
    pub open spec fn text(self, margin: Seq<char>) -> Seq<char>
        decreases self,
    {
        margin + match self {
            LogicalView::Scan { table, projection, filters, .. } => "Scan: "@ + table + (
            match projection {
                Some(names) => " projection="@ + names_text(names),
                None => Seq::empty(),
            }) + filters_text(filters) + "\n"@,
            LogicalView::Projection { input, exprs, .. } => "Project: ["@ + exprs_text(exprs)
                + "]\n"@ + input.text(margin + "  "@),
            LogicalView::Filter { input, predicate, .. } => "Filter: "@ + predicate.text() + "\n"@
                + input.text(margin + "  "@),
            LogicalView::Aggregate { input, group_exprs, aggregate_exprs, .. } => {
                "Aggregate: group=["@ + exprs_text(group_exprs) + "] aggr=["@ + exprs_text(
                    aggregate_exprs,
                ) + "]\n"@ + input.text(margin + "  "@)
            },
            LogicalView::Sort { input, exprs, .. } => "Sort: ["@ + sorts_text(exprs) + "]\n"@
                + input.text(margin + "  "@),
            LogicalView::Limit { input, limit, .. } => "Limit: "@ + numeral(limit as nat) + "\n"@
                + input.text(margin + "  "@),
            LogicalView::Join { left, right, join_type, left_on, right_on, .. } => "HashJoin: "@
                + join_type.text() + " on ["@ + exprs_text(left_on) + " = "@ + exprs_text(right_on)
                + "]\n"@ + left.text(margin + "  "@) + right.text(margin + "  "@),
        }
    }
}

/// How the filters of a scan are written: nothing where there are none.
pub open spec fn filters_text(filters: Seq<ExprView>) -> Seq<char> {
    if filters.len() == 0 {
        Seq::empty()
    } else {
        " filters=["@ + exprs_text(filters) + "]"@
    }
}

pub(crate) fn display_filters(filters: &Vec<Expr>) -> (r: String)
    ensures
        r@ == filters_text(expr_views(filters@)),
{
    if filters.len() == 0 {
        return String::new();
    }
    let mut r: String = join(" filters=[", display_exprs(filters).as_str());
    r.append("]");
    r
}

impl LogicalPlan {
    /// How this plan is written.
    pub fn explain(&self) -> (r: String)
        ensures
            r@ == self@.text(Seq::empty()),
    {
        self.formatted(String::new().as_str())
    }

    fn formatted(&self, margin: &str) -> (r: String)
        ensures
            r@ == self@.text(margin@),
        decreases self,
    {
        let inner: String = join(margin, "  ");
        let mut line: String = String::new();
        match self {
            LogicalPlan::Scan { table, projection, filters, .. } => {
                line = join("Scan: ", table.as_str());
                if let Some(names) = projection {
                    line.append(join(" projection=", display_names(names).as_str()).as_str());
                } else {
                    proof {
                        assert(line@ + Seq::<char>::empty() =~= line@);
                    }
                }
                line.append(display_filters(filters).as_str());
                line.append("\n");
            },
            LogicalPlan::Projection { input, exprs, .. } => {
                line = join("Project: [", display_exprs(exprs).as_str());
                line.append("]\n");
                line.append(input.formatted(inner.as_str()).as_str());
            },
            LogicalPlan::Filter { input, predicate, .. } => {
                line = join("Filter: ", predicate.to_text().as_str());
                line.append("\n");
                line.append(input.formatted(inner.as_str()).as_str());
            },
            LogicalPlan::Aggregate { input, group_exprs, aggregate_exprs, .. } => {
                line = join("Aggregate: group=[", display_exprs(group_exprs).as_str());
                line.append("] aggr=[");
                line.append(display_exprs(aggregate_exprs).as_str());
                line.append("]\n");
                line.append(input.formatted(inner.as_str()).as_str());
            },
            LogicalPlan::Sort { input, exprs, .. } => {
                line = join("Sort: [", display_sorts(exprs).as_str());
                line.append("]\n");
                line.append(input.formatted(inner.as_str()).as_str());
            },
            LogicalPlan::Limit { input, limit, .. } => {
                line = join("Limit: ", decimal(*limit as u64).as_str());
                line.append("\n");
                line.append(input.formatted(inner.as_str()).as_str());
            },
            LogicalPlan::Join { left, right, join_type, left_on, right_on, .. } => {
                line = join("HashJoin: ", join_type.to_text());
                line.append(" on [");
                line.append(display_exprs(left_on).as_str());
                line.append(" = ");
                line.append(display_exprs(right_on).as_str());
                line.append("]\n");
                line.append(left.formatted(inner.as_str()).as_str());
                line.append(right.formatted(inner.as_str()).as_str());
            },
        }
        join(margin, line.as_str())
    }
}

} // verus!

//! Which parts of a file a filter can pass over, by their statistics.

use crate::expr::{expr_views, Expr, ExprView, Operator};
use crate::scalar::{ScalarValue, ScalarView};
use crate::text::{
    before_is_strict, before_is_total, before_is_transitive, lowercase, same_text, short_name,
    small_letters, unqualified, Relation,
};
use crate::types::{DataType, DataTypeView, Field, Schema, SchemaView};
use vstd::prelude::*;

verus! {

/// What is known of the values of a column in a row group. The least and the greatest value are
/// given only where they are exact and in the engine's order.
#[derive(Debug)]
pub struct ColumnStatistics {
    pub min: Option<ScalarValue>,
    pub max: Option<ScalarValue>,
    pub null_count: Option<u64>,
}

pub struct StatisticsView {
    pub min: Option<ScalarView>,
    pub max: Option<ScalarView>,
    pub null_count: Option<u64>,
}

pub open spec fn bound_view(bound: Option<ScalarValue>) -> Option<ScalarView> {
    match bound {
        Some(value) => Some(value@),
        None => None,
    }
}

impl View for ColumnStatistics {
    type V = StatisticsView;

    open spec fn view(&self) -> StatisticsView {
        StatisticsView {
            min: bound_view(self.min),
            max: bound_view(self.max),
            null_count: self.null_count,
        }
    }
}

/// A row group: the number of its rows, and for each field of the schema what is known of it.
#[derive(Debug)]
pub struct RowGroup {
    pub rows: u64,
    pub columns: Vec<Option<ColumnStatistics>>,
}

pub struct RowGroupView {
    pub rows: u64,
    pub columns: Seq<Option<StatisticsView>>,
}

pub open spec fn statistics_view(statistics: Option<ColumnStatistics>) -> Option<StatisticsView> {
    match statistics {
        Some(statistics) => Some(statistics@),
        None => None,
    }
}

impl View for RowGroup {
    type V = RowGroupView;

    open spec fn view(&self) -> RowGroupView {
        RowGroupView {
            rows: self.rows,
            columns: Seq::new(self.columns.len() as nat, |i: int| statistics_view(self.columns@[i])),
        }
    }
}

/// The place of the first field from `from` on with a name, in which neither the table nor the case
/// counts.
pub open spec fn field_place(schema: SchemaView, name: Seq<char>, from: int) -> Option<int>
    decreases schema.fields.len() - from,
{
    if from >= schema.fields.len() {
        None
    } else if small_letters(schema.fields[from].name) == small_letters(short_name(name)) {
        Some(from)
    } else {
        field_place(schema, name, from + 1)
    }
}

/// The field that a name means, and what is known of it in a row group, where something is.
pub open spec fn known(schema: SchemaView, group: RowGroupView, name: Seq<char>) -> Option<
    (int, StatisticsView),
> {
    match field_place(schema, name, 0) {
        None => None,
        Some(place) => if place < group.columns.len() {
            match group.columns[place] {
                Some(statistics) => Some((place, statistics)),
                None => None,
            }
        } else {
            None
        },
    }
}

/// The operator with its sides exchanged.
pub open spec fn reversed(op: Operator) -> Operator {
    match op {
        Operator::Lt => Operator::Gt,
        Operator::LtEq => Operator::GtEq,
        Operator::Gt => Operator::Lt,
        Operator::GtEq => Operator::LtEq,
        other => other,
    }
}

pub open spec fn is_float_type(data_type: DataTypeView) -> bool {
    data_type is Float32 || data_type is Float64
}

/// Whether some value between two bounds can stand to a literal as an operator says.
pub open spec fn bounds_admit(
    min: Option<ScalarView>,
    max: Option<ScalarView>,
    op: Operator,
    literal: ScalarView,
    is_float: bool,
) -> bool {
    match op {
        Operator::Eq => {
            &&& min matches Some(min) ==> literal.compare(min) != Some(Relation::Less)
            &&& max matches Some(max) ==> literal.compare(max) != Some(Relation::Greater)
        },
        Operator::NotEq => is_float || !(min == Some(literal) && max == Some(literal)),
        Operator::Lt => !(min matches Some(min) && (min.compare(literal) == Some(Relation::Same)
            || min.compare(literal) == Some(Relation::Greater))),
        Operator::LtEq => min matches Some(min) ==> min.compare(literal) != Some(
            Relation::Greater,
        ),
        Operator::Gt => !(max matches Some(max) && (max.compare(literal) == Some(Relation::Same)
            || max.compare(literal) == Some(Relation::Less))),
        Operator::GtEq => max matches Some(max) ==> max.compare(literal) != Some(Relation::Less),
        _ => true,
    }
}

/// Whether a row of a row group can have a column that stands to a literal as an operator says.
pub open spec fn column_may_match(
    schema: SchemaView,
    group: RowGroupView,
    name: Seq<char>,
    op: Operator,
    literal: ScalarView,
) -> bool {
    if literal is Null {
        false
    } else {
        match known(schema, group, name) {
            None => true,
            Some((place, statistics)) => bounds_admit(
                statistics.min,
                statistics.max,
                op,
                literal,
                is_float_type(schema.fields[place].data_type),
            ),
        }
    }
}

/// Whether a row of a row group can have a column that is NULL, or one that is not.
pub open spec fn null_may_match(
    schema: SchemaView,
    group: RowGroupView,
    name: Seq<char>,
    negated: bool,
) -> bool {
    match known(schema, group, name) {
        None => true,
        Some((place, statistics)) => if !schema.fields[place].nullable {
            negated
        } else {
            match statistics.null_count {
                Some(nulls) => if negated {
                    nulls < group.rows
                } else {
                    nulls > 0
                },
                None => true,
            }
        },
    }
}

/// Whether a predicate can be true of a row of a row group.
pub open spec fn may_match(schema: SchemaView, group: RowGroupView, expr: ExprView) -> bool
    decreases expr, 1int,
{
    match expr {
        ExprView::Alias(inner, _) => shallow_may_match(schema, group, *inner),
        _ => shallow_may_match(schema, group, expr),
    }
}

/// The same for an expression whose alias, if it had one, was taken off.
pub open spec fn shallow_may_match(schema: SchemaView, group: RowGroupView, expr: ExprView) -> bool
    decreases expr, 0int,
{
    match expr {
        ExprView::Literal(ScalarView::Boolean(value)) => value,
        ExprView::Literal(ScalarView::Null) => false,
        ExprView::Binary { left, op, right } => match op {
            Operator::And => may_match(schema, group, *left) && may_match(schema, group, *right),
            Operator::Or => may_match(schema, group, *left) || may_match(schema, group, *right),
            _ => if op.is_comparison() {
                match (left.unalias(), right.unalias()) {
                    (ExprView::Column(name), ExprView::Literal(value)) => column_may_match(
                        schema,
                        group,
                        name,
                        op,
                        value,
                    ),
                    (ExprView::Literal(value), ExprView::Column(name)) => column_may_match(
                        schema,
                        group,
                        name,
                        reversed(op),
                        value,
                    ),
                    _ => true,
                }
            } else {
                true
            },
        },
        ExprView::IsNull { expr: inner, negated } => match inner.unalias() {
            ExprView::Column(name) => null_may_match(schema, group, name, negated),
            _ => true,
        },
        _ => true,
    }
}

fn find_field(schema: &Schema, name: &str) -> (r: Option<usize>)
    ensures
        match r {
            Some(place) => field_place(schema@, name@, 0) == Some(place as int) && place
                < schema.fields.len(),
            None => field_place(schema@, name@, 0) is None,
        },
{
    let short = unqualified(name);
    let wanted = lowercase(short);
    for i in 0..schema.fields.len()
        invariant
            wanted@ == small_letters(short_name(name@)),
            field_place(schema@, name@, 0) == field_place(schema@, name@, i as int),
    {
        proof {
            assert(schema@.fields[i as int] == schema.fields@[i as int]@);
        }
        if same_text(lowercase(schema.fields[i].name.as_str()).as_str(), wanted.as_str()) {
            return Some(i);
        }
    }
    None
}

fn lookup<'a>(schema: &Schema, group: &'a RowGroup, name: &str) -> (r: Option<
    (usize, &'a ColumnStatistics),
>)
    ensures
        match r {
            Some((place, statistics)) => known(schema@, group@, name@) == Some(
                (place as int, statistics@),
            ) && place < schema.fields.len(),
            None => known(schema@, group@, name@) is None,
        },
{
    match find_field(schema, name) {
        None => None,
        Some(place) => {
            if place >= group.columns.len() {
                return None;
            }
            proof {
                assert(group@.columns[place as int] == statistics_view(
                    group.columns@[place as int],
                ));
            }
            match &group.columns[place] {
                Some(statistics) => Some((place, statistics)),
                None => None,
            }
        },
    }
}

fn is_relation(found: Option<Relation>, wanted: Relation) -> (r: bool)
    ensures
        r == (found == Some(wanted)),
{
    match found {
        Some(relation) => relation == wanted,
        None => false,
    }
}

fn do_bounds_admit(
    min: &Option<ScalarValue>,
    max: &Option<ScalarValue>,
    op: Operator,
    literal: &ScalarValue,
    is_float: bool,
) -> (r: bool)
    ensures
        r == bounds_admit(bound_view(*min), bound_view(*max), op, literal@, is_float),
{
    match op {
        Operator::Eq => {
            let above: bool = match min {
                Some(min) => !is_relation(literal.partial_compare(min), Relation::Less),
                None => true,
            };
            let below: bool = match max {
                Some(max) => !is_relation(literal.partial_compare(max), Relation::Greater),
                None => true,
            };
            above && below
        },
        Operator::NotEq => {
            let at_min: bool = match min {
                Some(min) => min.same(literal),
                None => false,
            };
            let at_max: bool = match max {
                Some(max) => max.same(literal),
                None => false,
            };
            is_float || !(at_min && at_max)
        },
        Operator::Lt => match min {
            Some(min) => {
                let relation = min.partial_compare(literal);
                !(is_relation(relation, Relation::Same) || is_relation(relation, Relation::Greater))
            },
            None => true,
        },
        Operator::LtEq => match min {
            Some(min) => !is_relation(min.partial_compare(literal), Relation::Greater),
            None => true,
        },
        Operator::Gt => match max {
            Some(max) => {
                let relation = max.partial_compare(literal);
                !(is_relation(relation, Relation::Same) || is_relation(relation, Relation::Less))
            },
            None => true,
        },
        Operator::GtEq => match max {
            Some(max) => !is_relation(max.partial_compare(literal), Relation::Less),
            None => true,
        },
        _ => true,
    }
}

fn column_literal_may_match(
    schema: &Schema,
    group: &RowGroup,
    name: &str,
    op: Operator,
    literal: &ScalarValue,
) -> (r: bool)
    ensures
        r == column_may_match(schema@, group@, name@, op, literal@),
{
    if literal.is_null() {
        return false;
    }
    match lookup(schema, group, name) {
        None => true,
        Some((place, statistics)) => {
            proof {
                assert(schema@.fields[place as int] == schema.fields@[place as int]@);
            }
            let is_float: bool = match &schema.fields[place].data_type {
                DataType::Float32 | DataType::Float64 => true,
                _ => false,
            };
            do_bounds_admit(&statistics.min, &statistics.max, op, literal, is_float)
        },
    }
}

fn column_null_may_match(schema: &Schema, group: &RowGroup, name: &str, negated: bool) -> (r: bool)
    ensures
        r == null_may_match(schema@, group@, name@, negated),
{
    match lookup(schema, group, name) {
        None => true,
        Some((place, statistics)) => {
            proof {
                assert(schema@.fields[place as int] == schema.fields@[place as int]@);
            }
            if !schema.fields[place].nullable {
                return negated;
            }
            match statistics.null_count {
                Some(nulls) => {
                    if negated {
                        nulls < group.rows
                    } else {
                        nulls > 0
                    }
                },
                None => true,
            }
        },
    }
}

fn reverse_comparison(op: Operator) -> (r: Operator)
    ensures
        r == reversed(op),
{
    match op {
        Operator::Lt => Operator::Gt,
        Operator::LtEq => Operator::GtEq,
        Operator::Gt => Operator::Lt,
        Operator::GtEq => Operator::LtEq,
        other => other,
    }
}

fn comparison_may_match(
    schema: &Schema,
    group: &RowGroup,
    left: &Expr,
    op: Operator,
    right: &Expr,
) -> (r: bool)
    ensures
        r == (match (left@.unalias(), right@.unalias()) {
            (ExprView::Column(name), ExprView::Literal(value)) => column_may_match(
                schema@,
                group@,
                name,
                op,
                value,
            ),
            (ExprView::Literal(value), ExprView::Column(name)) => column_may_match(
                schema@,
                group@,
                name,
                reversed(op),
                value,
            ),
            _ => true,
        }),
{
    match (left.unalias(), right.unalias()) {
        (Expr::Column(name), Expr::Literal(value)) => column_literal_may_match(
            schema,
            group,
            name.as_str(),
            op,
            value,
        ),
        (Expr::Literal(value), Expr::Column(name)) => column_literal_may_match(
            schema,
            group,
            name.as_str(),
            reverse_comparison(op),
            value,
        ),
        _ => true,
    }
}

fn expression_may_match(expr: &Expr, schema: &Schema, group: &RowGroup) -> (r: bool)
    ensures
        r == may_match(schema@, group@, expr@),
    decreases expr, 1int,
{
    match expr {
        Expr::Alias(inner, _) => shallow_expression_may_match(inner, schema, group),
        _ => shallow_expression_may_match(expr, schema, group),
    }
}

fn shallow_expression_may_match(expr: &Expr, schema: &Schema, group: &RowGroup) -> (r: bool)
    ensures
        r == shallow_may_match(schema@, group@, expr@),
    decreases expr, 0int,
{
    match expr {
        Expr::Literal(ScalarValue::Boolean(value)) => *value,
        Expr::Literal(ScalarValue::Null) => false,
        Expr::Binary { left, op, right } => match op {
            Operator::And => {
                expression_may_match(left, schema, group) && expression_may_match(
                    right,
                    schema,
                    group,
                )
            },
            Operator::Or => {
                expression_may_match(left, schema, group) || expression_may_match(
                    right,
                    schema,
                    group,
                )
            },
            _ => {
                if op.logical() || op.arithmetic() {
                    true
                } else {
                    comparison_may_match(schema, group, left, *op, right)
                }
            },
        },
        Expr::IsNull { expr: inner, negated } => match inner.unalias() {
            Expr::Column(name) => column_null_may_match(schema, group, name.as_str(), *negated),
            _ => true,
        },
        _ => true,
    }
}

/// Whether all of some predicates can be true of a row of a row group. Where not, no row of it
/// passes them.
pub fn row_group_may_match(schema: &Schema, group: &RowGroup, filters: &Vec<Expr>) -> (r: bool)
    ensures
        r == (forall|i: int|
            0 <= i < filters.len() ==> may_match(schema@, group@, #[trigger] expr_views(filters@)[i])),
{
    let ghost views = expr_views(filters@);
    for i in 0..filters.len()
        invariant
            views == expr_views(filters@),
            forall|k: int| 0 <= k < i ==> may_match(schema@, group@, #[trigger] views[k]),
    {
        proof {
            assert(views[i as int] == filters@[i as int]@);
        }
        if !expression_may_match(&filters[i], schema, group) {
            return false;
        }
    }
    true
}

/// Whether a value stands to a literal as an operator says.
pub open spec fn value_holds(value: ScalarView, op: Operator, literal: ScalarView) -> bool {
    &&& !(value is Null)
    &&& !(literal is Null)
    &&& value.compare(literal) matches Some(relation) && crate::evaluate::comparison_holds(
        op,
        relation,
    )
}

/// Whether a predicate can be true of a row, given by its values for the fields of a schema. Of a
/// predicate that is neither a comparison of a column with a literal nor made of such, nothing is
/// known.
pub open spec fn can_hold(schema: SchemaView, row: Seq<ScalarView>, expr: ExprView) -> bool
    decreases expr, 1int,
{
    match expr {
        ExprView::Alias(inner, _) => shallow_can_hold(schema, row, *inner),
        _ => shallow_can_hold(schema, row, expr),
    }
}

pub open spec fn shallow_can_hold(schema: SchemaView, row: Seq<ScalarView>, expr: ExprView) -> bool
    decreases expr, 0int,
{
    match expr {
        ExprView::Literal(ScalarView::Boolean(value)) => value,
        ExprView::Literal(ScalarView::Null) => false,
        ExprView::Binary { left, op, right } => match op {
            Operator::And => can_hold(schema, row, *left) && can_hold(schema, row, *right),
            Operator::Or => can_hold(schema, row, *left) || can_hold(schema, row, *right),
            _ => if op.is_comparison() {
                match (left.unalias(), right.unalias()) {
                    (ExprView::Column(name), ExprView::Literal(value)) => match field_place(
                        schema,
                        name,
                        0,
                    ) {
                        Some(place) => value_holds(row[place], op, value),
                        None => !(value is Null),
                    },
                    (ExprView::Literal(value), ExprView::Column(name)) => match field_place(
                        schema,
                        name,
                        0,
                    ) {
                        Some(place) => value_holds(row[place], reversed(op), value),
                        None => !(value is Null),
                    },
                    _ => true,
                }
            } else {
                true
            },
        },
        ExprView::IsNull { expr: inner, negated } => match inner.unalias() {
            ExprView::Column(name) => match field_place(schema, name, 0) {
                Some(place) => (row[place] is Null) != negated,
                None => true,
            },
            _ => true,
        },
        _ => true,
    }
}

/// Whether a value comes before another or is the same.
pub open spec fn at_most(a: ScalarView, b: ScalarView) -> bool {
    a.compare(b) == Some(Relation::Less) || a.compare(b) == Some(Relation::Same)
}

/// Whether a row is one that the statistics of a row group speak of.
pub open spec fn is_row_of(row: Seq<ScalarView>, schema: SchemaView, group: RowGroupView) -> bool {
    &&& row.len() == schema.fields.len()
    &&& forall|i: int|
        0 <= i < row.len() && i < group.columns.len() ==> (#[trigger] group.columns[i] matches Some(
            statistics,
        ) ==> if row[i] is Null {
            schema.fields[i].nullable && (statistics.null_count matches Some(nulls) ==> nulls > 0)
        } else {
            &&& statistics.null_count matches Some(nulls) ==> nulls < group.rows
            &&& statistics.min matches Some(min) ==> at_most(min, row[i]) && !(min is Null)
            &&& statistics.max matches Some(max) ==> at_most(row[i], max) && !(max is Null)
            &&& (row[i] is Float64 <==> is_float_type(schema.fields[i].data_type))
        })
}

proof fn order_is_transitive(a: ScalarView, b: ScalarView, c: ScalarView)
    requires
        at_most(a, b),
        at_most(b, c),
    ensures
        at_most(a, c),
        a.compare(b) == Some(Relation::Less) || b.compare(c) == Some(Relation::Less) ==> a.compare(c)
            == Some(Relation::Less),
        a.compare(b) == Some(Relation::Same) && b.compare(c) == Some(Relation::Same) ==> a.compare(c)
            == Some(Relation::Same),
{
    if let (ScalarView::Utf8(x), ScalarView::Utf8(y)) = (a, b) {
        if let ScalarView::Utf8(z) = c {
            if crate::text::before(x, y) && crate::text::before(y, z) {
                before_is_transitive(x, y, z);
            }
            before_is_strict(x, z);
            before_is_total(x, z);
        }
    }
}

proof fn bounds_are_sound(
    min: Option<ScalarView>,
    max: Option<ScalarView>,
    value: ScalarView,
    op: Operator,
    literal: ScalarView,
    is_float: bool,
)
    requires
        value_holds(value, op, literal),
        min matches Some(min) ==> at_most(min, value) && !(min is Null),
        max matches Some(max) ==> at_most(value, max) && !(max is Null),
        value is Float64 <==> is_float,
    ensures
        bounds_admit(min, max, op, literal, is_float),
{
    crate::scalar::compare_is_antisymmetric(value, literal);
    if let Some(low) = min {
        crate::scalar::compare_is_antisymmetric(low, literal);
        crate::scalar::compare_is_antisymmetric(low, value);
        if at_most(value, literal) {
            order_is_transitive(low, value, literal);
        }
    }
    if let Some(high) = max {
        crate::scalar::compare_is_antisymmetric(high, literal);
        crate::scalar::compare_is_antisymmetric(value, high);
        if at_most(literal, value) {
            order_is_transitive(literal, value, high);
        }
    }
    if op == Operator::NotEq && !is_float && min == Some(literal) && max == Some(literal) {
        assert(at_most(literal, value) && at_most(value, literal));
    }
}

/// No row that a predicate can be true of is passed over. Comparisons go by the order of values, in
/// which what is no number stands nowhere.
pub proof fn pruning_loses_no_row(
    schema: SchemaView,
    group: RowGroupView,
    row: Seq<ScalarView>,
    expr: ExprView,
)
    requires
        is_row_of(row, schema, group),
        can_hold(schema, row, expr),
    ensures
        may_match(schema, group, expr),
    decreases expr, 1int,
{
    match expr {
        ExprView::Alias(inner, _) => shallow_pruning_loses_no_row(schema, group, row, *inner),
        _ => shallow_pruning_loses_no_row(schema, group, row, expr),
    }
}

proof fn shallow_pruning_loses_no_row(
    schema: SchemaView,
    group: RowGroupView,
    row: Seq<ScalarView>,
    expr: ExprView,
)
    requires
        is_row_of(row, schema, group),
        shallow_can_hold(schema, row, expr),
    ensures
        shallow_may_match(schema, group, expr),
    decreases expr, 0int,
{
    match expr {
        ExprView::Binary { left, op, right } => match op {
            Operator::And => {
                pruning_loses_no_row(schema, group, row, *left);
                pruning_loses_no_row(schema, group, row, *right);
            },
            Operator::Or => {
                if can_hold(schema, row, *left) {
                    pruning_loses_no_row(schema, group, row, *left);
                } else {
                    pruning_loses_no_row(schema, group, row, *right);
                }
            },
            _ => {
                if op.is_comparison() {
                    match (left.unalias(), right.unalias()) {
                        (ExprView::Column(name), ExprView::Literal(value)) => {
                            columns_are_sound(schema, group, row, name, op, value);
                        },
                        (ExprView::Literal(value), ExprView::Column(name)) => {
                            columns_are_sound(schema, group, row, name, reversed(op), value);
                        },
                        _ => {},
                    }
                }
            },
        },
        ExprView::IsNull { expr: inner, negated } => match inner.unalias() {
            ExprView::Column(name) => {
                field_place_is_within(schema, name, 0);
                if let Some((place, statistics)) = known(schema, group, name) {
                    assert(group.columns[place] == Some(statistics));
                }
            },
            _ => {},
        },
        _ => {},
    }
}

proof fn field_place_is_within(schema: SchemaView, name: Seq<char>, from: int)
    requires
        0 <= from,
    ensures
        field_place(schema, name, from) matches Some(place) ==> from <= place
            < schema.fields.len(),
    decreases schema.fields.len() - from,
{
    if from < schema.fields.len() {
        field_place_is_within(schema, name, from + 1);
    }
}

proof fn columns_are_sound(
    schema: SchemaView,
    group: RowGroupView,
    row: Seq<ScalarView>,
    name: Seq<char>,
    op: Operator,
    literal: ScalarView,
)
    requires
        is_row_of(row, schema, group),
        match field_place(schema, name, 0) {
            Some(place) => value_holds(row[place], op, literal),
            None => !(literal is Null),
        },
    ensures
        column_may_match(schema, group, name, op, literal),
{
    field_place_is_within(schema, name, 0);
    if let Some((place, statistics)) = known(schema, group, name) {
        assert(group.columns[place] == Some(statistics));
        bounds_are_sound(
            statistics.min,
            statistics.max,
            row[place],
            op,
            literal,
            is_float_type(schema.fields[place].data_type),
        );
    }
}

/// The leaf of a file that holds a field, where exactly one has it as its root.
pub open spec fn leaf_of(roots: Seq<String>, name: Seq<char>, from: int) -> Option<int>
    decreases roots.len() - from,
{
    if from >= roots.len() {
        None
    } else if roots[from]@ == name {
        if exists|i: int| from < i < roots.len() && (#[trigger] roots[i])@ == name {
            None
        } else {
            Some(from)
        }
    } else {
        leaf_of(roots, name, from + 1)
    }
}

/// The leaf of a file that holds a field, where exactly one has it as its root.
pub fn find_leaf(roots: &Vec<String>, name: &str) -> (r: Option<usize>)
    ensures
        match r {
            Some(leaf) => leaf_of(roots@, name@, 0) == Some(leaf as int),
            None => leaf_of(roots@, name@, 0) is None,
        },
{
    for i in 0..roots.len()
        invariant
            leaf_of(roots@, name@, 0) == leaf_of(roots@, name@, i as int),
    {
        if same_text(roots[i].as_str(), name) {
            let next: usize = i + 1;
            for k in next..roots.len()
                invariant
                    next == i + 1,
                    i < roots.len(),
                    roots@[i as int]@ == name@,
                    leaf_of(roots@, name@, 0) == leaf_of(roots@, name@, i as int),
                    forall|j: int| i < j < k ==> (#[trigger] roots@[j])@ != name@,
            {
                if same_text(roots[k].as_str(), name) {
                    proof {
                        assert(roots@[k as int]@ == name@);
                    }
                    return None;
                }
            }
            return Some(i);
        }
    }
    None
}

/// The schema with the fields that a projection names.
pub open spec fn projected(schema: SchemaView, projection: Option<Seq<usize>>) -> SchemaView {
    match projection {
        None => schema,
        Some(indices) => crate::types::plain_schema(
            Seq::new(indices.len(), |i: int| schema.fields[indices[i] as int]),
        ),
    }
}

/// The schema with the fields that a projection names.
pub fn projected_schema(schema: &Schema, projection: &Option<Vec<usize>>) -> (r: Schema)
    requires
        projection matches Some(indices) ==> forall|i: int|
            0 <= i < indices.len() ==> #[trigger] indices@[i] < schema@.fields.len(),
    ensures
        r@ == projected(schema@, crate::physical::indices_view(*projection)),
{
    match projection {
        None => schema.clone(),
        Some(indices) => {
            let mut fields: Vec<Field> = Vec::new();
            for i in 0..indices.len()
                invariant
                    forall|i: int|
                        0 <= i < indices.len() ==> #[trigger] indices@[i] < schema@.fields.len(),
                    fields.len() == i,
                    forall|k: int|
                        0 <= k < i ==> (#[trigger] fields@[k])@
                            == schema@.fields[indices@[k] as int],
            {
                fields.push(schema.fields[indices[i]].clone());
            }
            let r = Schema::new(fields);
            proof {
                assert(r@.fields =~= Seq::new(
                    indices@.len(),
                    |i: int| schema@.fields[indices@[i] as int],
                ));
            }
            r
        },
    }
}

} // verus!

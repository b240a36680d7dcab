//! What names and types stand for.

use crate::batch::{has_null, made_batch, nulls_check, types_check};
use crate::column::ColumnView;
use crate::error::ErrorView;
use crate::expr::{
    any_qualified, binary_type, occurrence, resolve, short_names, AggregateFunction, ExprView,
    Occurrence, Operator,
};
use crate::logical::{
    aggregated, expanded, fields_of, filtered, joined, joined_fields, limited, projected, sorted,
    JoinType, LogicalView, SortView,
};
use crate::meaning::evaluation::{compares, missing};
use crate::text::{behind_last_stop, behind_last_stop_is_within, has_stop, short_name};
use crate::types::{common_numeric, DataTypeView, FieldView, SchemaView};
use vstd::prelude::*;

verus! {

// ---- names

/// Whether a place is the only one of a name.
pub open spec fn is_only_place(names: Seq<Seq<char>>, name: Seq<char>, i: int) -> bool {
    &&& 0 <= i < names.len()
    &&& names[i] == name
    &&& forall|j: int| 0 <= j < names.len() && j != i ==> #[trigger] names[j] != name
}

proof fn places_of_a_name(names: Seq<Seq<char>>, name: Seq<char>, upto: int)
    requires
        0 <= upto <= names.len(),
    ensures
        occurrence(names, name, upto) is Nowhere <==> !names.take(upto).contains(name),
        forall|i: int|
            occurrence(names, name, upto) == Occurrence::Once(i) <==> #[trigger] is_only_place(
                names.take(upto),
                name,
                i,
            ),
    decreases upto,
{
    let all = names.take(upto);
    if upto > 0 {
        places_of_a_name(names, name, upto - 1);
        let few = names.take(upto - 1);
        let at = upto - 1;
        assert(all =~= few.push(names[at]));
        assert(all[at] == names[at]);
        assert(forall|j: int| 0 <= j < at ==> #[trigger] all[j] == few[j]);
        if few.contains(name) {
            let j = choose|j: int| 0 <= j < few.len() && few[j] == name;
            assert(all[j] == name);
        }
        assert forall|i: int|
            occurrence(names, name, upto) == Occurrence::Once(i) <==> #[trigger] is_only_place(
                all,
                name,
                i,
            ) by {
            let earlier = occurrence(names, name, at);
            if is_only_place(all, name, i) {
                if i < at {
                    assert(few[i] == name);
                    assert(is_only_place(few, name, i));
                    assert(all[at] != name);
                } else {
                    if few.contains(name) {
                        let j = choose|j: int| 0 <= j < few.len() && few[j] == name;
                        assert(all[j] == name);
                    }
                }
            }
            if occurrence(names, name, upto) == Occurrence::Once(i) {
                if names[at] != name {
                    assert(is_only_place(few, name, i));
                } else {
                    assert(i == at);
                    assert(!few.contains(name));
                    assert forall|j: int| 0 <= j < all.len() && j != i implies #[trigger] all[j]
                        != name by {
                        assert(few[j] == all[j]);
                    }
                }
            }
        }
    }
}

/// A name stands for the one column with that very name. Where there is none it stands for the one column
/// that has the name when tables are left out, unless both the name and some column are qualified. A name
/// that more than one column has stands for none.
pub proof fn what_a_name_stands_for(names: Seq<Seq<char>>, name: Seq<char>, i: int)
    ensures
        resolve(names, name) == Ok::<int, ErrorView>(i) <==> {
            ||| is_only_place(names, name, i)
            ||| {
                &&& !names.contains(name)
                &&& !(name.contains('.') && exists|j: int|
                    0 <= j < names.len() && (#[trigger] names[j]).contains('.'))
                &&& is_only_place(short_names(names), short_name(name), i)
            }
        },
{
    let count = names.len() as int;
    places_of_a_name(names, name, count);
    assert(names.take(count) =~= names);
    let short = short_names(names);
    places_of_a_name(short, short_name(name), count);
    assert(short.take(count) =~= short);
    assert(is_only_place(names, name, i) == is_only_place(names.take(count), name, i));
    assert(is_only_place(short, short_name(name), i) == is_only_place(
        short.take(count),
        short_name(name),
        i,
    ));
    if is_only_place(names, name, i) {
        assert(names.contains(name));
    }
    if occurrence(names, name, count) is Once {
        assert(is_only_place(names.take(count), name, occurrence(names, name, count)->Once_0));
        assert(names.contains(name));
    }
    if exists|j: int| 0 <= j < names.len() && (#[trigger] names[j]).contains('.') {
        let j = choose|j: int| 0 <= j < names.len() && (#[trigger] names[j]).contains('.');
        assert(has_stop(names[j]));
    }
    if any_qualified(names) {
        let j = choose|j: int| 0 <= j < names.len() && has_stop(#[trigger] names[j]);
        assert(names[j].contains('.'));
    }
}

/// Without its table, a qualified name is what stands behind the full stop, and any other is itself.
pub proof fn names_without_tables(table: Seq<char>, name: Seq<char>)
    requires
        !name.contains('.'),
    ensures
        short_name(name) == name,
        short_name(table + "."@ + name) == name,
{
    reveal_strlit(".");
    behind_last_stop_is_within(name);
    let at = behind_last_stop(name);
    if at > 0 {
        assert(name[at - 1] == '.');
        assert(name.contains('.'));
    }
    assert(name.skip(0) =~= name);
    let whole = table + "."@ + name;
    let stop = table.len() as int;
    behind_last_stop_is_within(whole);
    let behind = behind_last_stop(whole);
    assert(whole[stop] == '.');
    if behind > stop + 1 {
        assert(whole[behind - 1] == name[behind - stop - 2]);
        assert(name.contains('.'));
    }
    assert(behind == stop + 1);
    assert(whole.skip(stop + 1) =~= name);
}

// ---- types

pub open spec fn is_whole(data_type: DataTypeView) -> bool {
    data_type is Int32 || data_type is Int64 || data_type is UInt32 || data_type is UInt64
}

pub open spec fn is_floating(data_type: DataTypeView) -> bool {
    data_type is Float32 || data_type is Float64
}

pub open spec fn has_sign(data_type: DataTypeView) -> bool {
    data_type is Int32 || data_type is Int64
}

/// Numbers meet in the widest type of their kind, and in the floating-point one where one of them is
/// such. Whole numbers with and without a sign do not meet, nor does anything that is no number.
pub proof fn where_numbers_meet(left: DataTypeView, right: DataTypeView)
    ensures
        is_whole(left) && is_whole(right) && has_sign(left) && has_sign(right) ==> common_numeric(
            left,
            right,
        ) == Some(DataTypeView::Int64),
        is_whole(left) && is_whole(right) && !has_sign(left) && !has_sign(right) ==> common_numeric(
            left,
            right,
        ) == Some(DataTypeView::UInt64),
        is_whole(left) && is_whole(right) && has_sign(left) != has_sign(right) ==> common_numeric(
            left,
            right,
        ) is None,
        is_floating(left) && (is_floating(right) || is_whole(right)) ==> common_numeric(left, right)
            == Some(DataTypeView::Float64),
        is_floating(right) && (is_floating(left) || is_whole(left)) ==> common_numeric(left, right)
            == Some(DataTypeView::Float64),
        left is Boolean || left is Utf8 || right is Boolean || right is Utf8 ==> common_numeric(
            left,
            right,
        ) is None,
{
}

/// A comparison is a truth, of operands of one type, of numbers that meet, or of NULL; AND and OR take
/// truths and give one; and arithmetic gives the type in which its operands meet.
pub proof fn types_of_operations(op: Operator, left: DataTypeView, right: DataTypeView)
    ensures
        compares(op) ==> {
            let meet = left == right || left is Null || right is Null || common_numeric(
                left,
                right,
            ) is Some;
            &&& meet ==> binary_type(op, left, right) == Ok::<DataTypeView, ErrorView>(
                DataTypeView::Boolean,
            )
            &&& !meet ==> binary_type(op, left, right) is Err
        },
        op is And || op is Or ==> {
            let truths = (left is Boolean || left is Null) && (right is Boolean || right is Null);
            &&& truths ==> binary_type(op, left, right) == Ok::<DataTypeView, ErrorView>(
                DataTypeView::Boolean,
            )
            &&& !truths ==> binary_type(op, left, right) is Err
        },
        op is Add || op is Subtract || op is Multiply || op is Divide ==> {
            &&& common_numeric(left, right) matches Some(meeting) ==> binary_type(op, left, right)
                == Ok::<DataTypeView, ErrorView>(meeting)
            &&& common_numeric(left, right) is None ==> binary_type(op, left, right) is Err
        },
{
}

/// COUNT gives a number without a sign, SUM and AVG a floating-point one of numbers alone, and MIN and
/// MAX a value of their argument's type.
pub proof fn types_of_aggregates(expr: ExprView, schema: SchemaView)
    requires
        expr is Aggregate,
    ensures
        ({
            let given = expr->Aggregate_expr.data_type(schema);
            let r = expr.data_type(schema);
            match expr->Aggregate_function {
                AggregateFunction::Count => r == Ok::<DataTypeView, ErrorView>(
                    DataTypeView::UInt64,
                ),
                AggregateFunction::Min => r == given,
                AggregateFunction::Max => r == given,
                AggregateFunction::Sum => if given is Ok && (is_whole(given->Ok_0) || is_floating(
                    given->Ok_0,
                )) {
                    r == Ok::<DataTypeView, ErrorView>(DataTypeView::Float64)
                } else {
                    r is Err
                },
                AggregateFunction::Avg => if given is Ok && (is_whole(given->Ok_0) || is_floating(
                    given->Ok_0,
                )) {
                    r == Ok::<DataTypeView, ErrorView>(DataTypeView::Float64)
                } else {
                    r is Err
                },
            }
        }),
{
}

// ---- schemas

/// Whether a field is the one that an expression puts out.
pub open spec fn is_field_of(field: FieldView, expr: ExprView, schema: SchemaView) -> bool {
    &&& field.name == expr.name()
    &&& expr.data_type(schema) == Ok::<DataTypeView, ErrorView>(field.data_type)
    &&& field.nullable
}

proof fn fields_are_by_expr(exprs: Seq<ExprView>, schema: SchemaView, upto: int)
    requires
        0 <= upto <= exprs.len(),
    ensures
        fields_of(exprs, schema, upto) matches Ok(fields) ==> fields.len() == upto && forall|k: int|
            0 <= k < upto ==> is_field_of(#[trigger] fields[k], exprs[k], schema),
    decreases upto,
{
    if upto > 0 {
        fields_are_by_expr(exprs, schema, upto - 1);
    }
}

/// A projection has a field for each of its expressions, with the expression's name and type.
pub proof fn the_schema_of_a_projection(
    input: LogicalView,
    exprs: Seq<ExprView>,
    plan: LogicalView,
)
    requires
        projected(input, exprs) == Ok::<LogicalView, ErrorView>(plan),
    ensures
        plan is Projection,
        *plan->Projection_input == input,
        plan->Projection_schema.fields.len() == plan->Projection_exprs.len(),
        forall|k: int|
            0 <= k < plan->Projection_exprs.len() ==> is_field_of(
                #[trigger] plan->Projection_schema.fields[k],
                plan->Projection_exprs[k],
                input.schema(),
            ),
{
    let all = expanded(exprs, input.schema(), exprs.len() as int);
    fields_are_by_expr(all, input.schema(), all.len() as int);
}

/// An aggregation has a field for each group expression and then one for each aggregate.
pub proof fn the_schema_of_an_aggregation(
    input: LogicalView,
    groups: Seq<ExprView>,
    aggregates: Seq<ExprView>,
    plan: LogicalView,
)
    requires
        aggregated(input, groups, aggregates) == Ok::<LogicalView, ErrorView>(plan),
    ensures
        plan is Aggregate,
        *plan->Aggregate_input == input,
        plan->Aggregate_group_exprs == groups,
        plan->Aggregate_aggregate_exprs == aggregates,
        plan->Aggregate_schema.fields.len() == groups.len() + aggregates.len(),
        forall|k: int|
            0 <= k < groups.len() ==> is_field_of(
                #[trigger] plan->Aggregate_schema.fields[k],
                groups[k],
                input.schema(),
            ),
        forall|k: int|
            0 <= k < aggregates.len() ==> is_field_of(
                plan->Aggregate_schema.fields[groups.len() + k],
                #[trigger] aggregates[k],
                input.schema(),
            ),
{
    let all = groups + aggregates;
    fields_are_by_expr(all, input.schema(), all.len() as int);
    let fields = plan->Aggregate_schema.fields;
    assert forall|k: int| 0 <= k < groups.len() implies is_field_of(
        #[trigger] plan->Aggregate_schema.fields[k],
        groups[k],
        input.schema(),
    ) by {
        assert(all[k] == groups[k]);
    }
    assert forall|k: int| 0 <= k < aggregates.len() implies is_field_of(
        plan->Aggregate_schema.fields[groups.len() + k],
        #[trigger] aggregates[k],
        input.schema(),
    ) by {
        assert(all[groups.len() + k] == aggregates[k]);
        assert(is_field_of(fields[groups.len() + k], all[groups.len() + k], input.schema()));
    }
}

/// Filters, sorts and limits have the schema of their input, and what they are made of.
pub proof fn schemas_that_stay(
    input: LogicalView,
    predicate: ExprView,
    sorts: Seq<SortView>,
    limit: usize,
)
    ensures
        filtered(input, predicate) matches Ok(plan) ==> plan is Filter && *plan->Filter_input
            == input && plan->Filter_predicate == predicate && plan.schema() == input.schema()
            && predicate.data_type(input.schema()) == Ok::<DataTypeView, ErrorView>(
            DataTypeView::Boolean,
        ),
        predicate.data_type(input.schema()) == Ok::<DataTypeView, ErrorView>(DataTypeView::Boolean)
            ==> filtered(input, predicate) is Ok,
        sorted(input, sorts) matches Ok(plan) ==> plan is Sort && *plan->Sort_input == input
            && plan->Sort_exprs == sorts && plan.schema() == input.schema(),
        ({
            let plan = limited(input, limit);
            plan is Limit && *plan->Limit_input == input && plan->Limit_limit == limit
                && plan.schema() == input.schema()
        }),
{
}

proof fn fields_of_a_join(
    left: Seq<FieldView>,
    right: Seq<FieldView>,
    join_type: JoinType,
    upto: int,
)
    requires
        0 <= upto <= right.len(),
    ensures
        ({
            let fields = joined_fields(left, right, join_type, upto);
            &&& fields.len() == left.len() + upto
            &&& forall|k: int| 0 <= k < left.len() ==> #[trigger] fields[k] == left[k]
            &&& forall|k: int|
                0 <= k < upto ==> {
                    let field = fields[left.len() + k];
                    &&& field.data_type == (#[trigger] right[k]).data_type
                    &&& field.nullable == (right[k].nullable || join_type is Left)
                    &&& field.name == right[k].name || field.name == "right."@ + right[k].name
                }
        }),
    decreases upto,
{
    if upto > 0 {
        fields_of_a_join(left, right, join_type, upto - 1);
    }
}

/// A join has the fields of its left input and then those of its right one, which can be NULL in a left
/// join.
pub proof fn the_schema_of_a_join(
    left: LogicalView,
    right: LogicalView,
    join_type: JoinType,
    left_on: Seq<ExprView>,
    right_on: Seq<ExprView>,
    plan: LogicalView,
    k: int,
)
    requires
        joined(left, right, join_type, left_on, right_on) == Ok::<LogicalView, ErrorView>(plan),
    ensures
        plan is Join,
        *plan->Join_left == left,
        *plan->Join_right == right,
        plan->Join_join_type == join_type,
        plan->Join_left_on == left_on,
        plan->Join_right_on == right_on,
        left_on.len() == right_on.len(),
        left_on.len() > 0,
        ({
            let (a, b) = (left.schema().fields, right.schema().fields);
            let fields = plan->Join_schema.fields;
            &&& fields.len() == a.len() + b.len()
            &&& 0 <= k < a.len() ==> fields[k] == a[k]
            &&& 0 <= k < b.len() ==> fields[a.len() + k].data_type == b[k].data_type && fields[a.len()
                + k].nullable == (b[k].nullable || join_type is Left)
        }),
{
    let (a, b) = (left.schema().fields, right.schema().fields);
    fields_of_a_join(a, b, join_type, b.len() as int);
    if 0 <= k < b.len() {
        assert(b[k].data_type == b[k].data_type);
    }
}

// ---- batches

/// Columns make a batch of a schema where there is one for each field, of its type and as long as the
/// others, and where a field that does not admit NULL has none; and they make none otherwise.
pub proof fn which_columns_make_a_batch(
    schema: SchemaView,
    columns: Seq<ColumnView>,
    rows: Option<usize>,
)
    ensures
        made_batch(schema, columns, rows) is Ok <==> {
            let count = if rows is Some {
                rows->Some_0 as nat
            } else {
                columns[0].len()
            };
            &&& columns.len() == schema.fields.len()
            &&& rows is Some || columns.len() > 0
            &&& forall|c: int| 0 <= c < columns.len() ==> (#[trigger] columns[c]).len() == count
            &&& forall|c: int|
                0 <= c < columns.len() ==> (#[trigger] columns[c]).data_type()
                    == schema.fields[c].data_type
            &&& forall|c: int|
                0 <= c < columns.len() && !schema.fields[c].nullable ==> admits_no_null(
                    #[trigger] columns[c],
                )
        },
        made_batch(schema, columns, rows) matches Ok(batch) ==> batch.schema == schema
            && batch.columns == columns && batch.rows == (if rows is Some {
            rows->Some_0 as nat
        } else {
            columns[0].len()
        }),
{
    nulls_are_admitted(schema, columns, 0);
    types_are_those_of_fields(schema, columns, 0);
}

/// Whether a column has a value in every row; one of nothing but NULLs marks none as missing.
pub open spec fn admits_no_null(column: ColumnView) -> bool {
    column is Null || forall|row: int| 0 <= row < column.len() ==> !#[trigger] missing(column, row)
}

proof fn nulls_are_admitted(schema: SchemaView, columns: Seq<ColumnView>, from: int)
    requires
        0 <= from,
    ensures
        nulls_check(schema, columns, from) is Ok <==> forall|c: int|
            from <= c < columns.len() && !schema.fields[c].nullable ==> admits_no_null(
                #[trigger] columns[c],
            ),
    decreases columns.len() - from,
{
    if from < columns.len() {
        nulls_are_admitted(schema, columns, from + 1);
        let column = columns[from];
        if has_null(column) {
            let row = choose|row: int| 0 <= row < column.len() && #[trigger] column.null_at(row);
            assert(missing(column, row));
        } else if !(column is Null) {
            assert forall|row: int| 0 <= row < column.len() implies !#[trigger] missing(
                column,
                row,
            ) by {
                assert(!column.null_at(row));
            }
        }
    }
}

proof fn types_are_those_of_fields(schema: SchemaView, columns: Seq<ColumnView>, from: int)
    requires
        0 <= from,
    ensures
        types_check(schema, columns, from) is Ok <==> forall|c: int|
            from <= c < columns.len() ==> (#[trigger] columns[c]).data_type()
                == schema.fields[c].data_type,
    decreases columns.len() - from,
{
    if from < columns.len() {
        types_are_those_of_fields(schema, columns, from + 1);
    }
}

} // verus!

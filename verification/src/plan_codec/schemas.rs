//! Lists of expressions, sort keys and schemas to and from their messages.

use crate::error::{ErrorView, SparkXError};
use crate::expr::{expr_views, Expr, ExprView};
use crate::fragment::{codec_error, codec_failure};
use crate::logical::{sort_views, SortExpr, SortView};
use crate::optimizer::exprs_outcome;
use crate::plan_codec::codes::{decode_data_type, encode_data_type, type_code, type_of};
use crate::plan_codec::exprs::{
    decode_expr, decode_operand, decoded_expr, decoded_operand, encode_expr, encoded_expr,
    expr_survives, missing, missing_error,
};
use crate::text::{before, before_is_strict, join, relate, Relation};
use crate::types::{
    clone_metadata, field_views, metadata_views, Field, FieldView, MetadataEntry, MetadataView,
    Schema, SchemaView,
};
use crate::wire::exprs::{WireExpr, WireExprView};
use crate::wire::plans::{
    schema_view, wire_expr_views, wire_sort_views, WireSort, WireSortView,
};
use crate::wire::schema::{
    wire_field_views, WireField, WireFieldView, WireSchema, WireSchemaView,
};
use vstd::prelude::*;

verus! {

// ---- lists of expressions

/// The messages of the first `upto` expressions, or the first error.
pub open spec fn encoded_exprs(exprs: Seq<ExprView>, upto: int) -> Result<
    Seq<WireExprView>,
    ErrorView,
>
    decreases upto,
{
    if upto <= 0 {
        Ok(Seq::empty())
    } else {
        match encoded_exprs(exprs, upto - 1) {
            Err(error) => Err(error),
            Ok(earlier) => match encoded_expr(exprs[upto - 1]) {
                Err(error) => Err(error),
                Ok(expr) => Ok(earlier.push(expr)),
            },
        }
    }
}

/// The expressions of the first `upto` messages, or the first error.
pub open spec fn decoded_exprs(exprs: Seq<WireExprView>, upto: int) -> Result<
    Seq<ExprView>,
    ErrorView,
>
    decreases upto,
{
    if upto <= 0 {
        Ok(Seq::empty())
    } else {
        match decoded_exprs(exprs, upto - 1) {
            Err(error) => Err(error),
            Ok(earlier) => match decoded_expr(exprs[upto - 1]) {
                Err(error) => Err(error),
                Ok(expr) => Ok(earlier.push(expr)),
            },
        }
    }
}

/// Whether the names in all expressions are such as can be sent.
pub open spec fn all_named(exprs: Seq<ExprView>) -> bool {
    forall|i: int| 0 <= i < exprs.len() ==> (#[trigger] exprs[i]).is_named()
}

proof fn lists_fail_early(
    exprs: Seq<ExprView>,
    messages: Seq<WireExprView>,
    upto: int,
    full: int,
)
    requires
        0 <= upto <= full,
    ensures
        encoded_exprs(exprs, upto) is Err ==> encoded_exprs(exprs, full) == encoded_exprs(
            exprs,
            upto,
        ),
        decoded_exprs(messages, upto) is Err ==> decoded_exprs(messages, full) == decoded_exprs(
            messages,
            upto,
        ),
    decreases full - upto,
{
    if upto < full {
        lists_fail_early(exprs, messages, upto, full - 1);
    }
}

/// Messages in front of others decode alike.
proof fn decoding_of_prefix(a: Seq<WireExprView>, b: Seq<WireExprView>, upto: int)
    requires
        upto <= a.len(),
        upto <= b.len(),
        forall|i: int| 0 <= i < upto ==> a[i] == b[i],
    ensures
        decoded_exprs(a, upto) == decoded_exprs(b, upto),
    decreases upto,
{
    if upto > 0 {
        decoding_of_prefix(a, b, upto - 1);
    }
}

/// Expressions that were sent arrive as they were.
pub proof fn exprs_survive(exprs: Seq<ExprView>, upto: int)
    requires
        0 <= upto <= exprs.len(),
        encoded_exprs(exprs, upto) is Ok,
        all_named(exprs),
    ensures
        encoded_exprs(exprs, upto)->Ok_0.len() == upto,
        decoded_exprs(encoded_exprs(exprs, upto)->Ok_0, upto) == Ok::<Seq<ExprView>, ErrorView>(
            exprs.take(upto),
        ),
    decreases upto,
{
    if upto > 0 {
        exprs_survive(exprs, upto - 1);
        assert(exprs[upto - 1].is_named());
        expr_survives(exprs[upto - 1]);
        let earlier = encoded_exprs(exprs, upto - 1)->Ok_0;
        let all = encoded_exprs(exprs, upto)->Ok_0;
        decoding_of_prefix(earlier, all, upto - 1);
        assert(exprs.take(upto - 1).push(exprs[upto - 1]) =~= exprs.take(upto));
    } else {
        assert(exprs.take(0) =~= Seq::empty());
    }
}

pub fn encode_exprs(exprs: &Vec<Expr>) -> (r: Result<Vec<WireExpr>, SparkXError>)
    ensures
        match r {
            Ok(list) => encoded_exprs(expr_views(exprs@), exprs.len() as int) == Ok::<
                Seq<WireExprView>,
                ErrorView,
            >(wire_expr_views(list@)),
            Err(error) => encoded_exprs(expr_views(exprs@), exprs.len() as int) == Err::<
                Seq<WireExprView>,
                ErrorView,
            >(error@),
        },
{
    let ghost views = expr_views(exprs@);
    let mut list: Vec<WireExpr> = Vec::new();
    proof {
        assert(wire_expr_views(list@) =~= Seq::empty());
    }
    for i in 0..exprs.len()
        invariant
            views == expr_views(exprs@),
            encoded_exprs(views, i as int) == Ok::<Seq<WireExprView>, ErrorView>(
                wire_expr_views(list@),
            ),
    {
        proof {
            lists_fail_early(views, Seq::empty(), i + 1, exprs.len() as int);
            assert(views[i as int] == exprs@[i as int]@);
        }
        let ghost earlier = wire_expr_views(list@);
        match encode_expr(&exprs[i]) {
            Ok(expr) => {
                list.push(expr);
                proof {
                    assert(wire_expr_views(list@) =~= earlier.push(expr@));
                }
            },
            Err(error) => return Err(error),
        }
    }
    Ok(list)
}

pub fn decode_exprs(exprs: &Vec<WireExpr>) -> (r: Result<Vec<Expr>, SparkXError>)
    ensures
        exprs_outcome(r) == decoded_exprs(wire_expr_views(exprs@), exprs.len() as int),
{
    let ghost views = wire_expr_views(exprs@);
    let mut list: Vec<Expr> = Vec::new();
    proof {
        assert(expr_views(list@) =~= Seq::empty());
    }
    for i in 0..exprs.len()
        invariant
            views == wire_expr_views(exprs@),
            decoded_exprs(views, i as int) == Ok::<Seq<ExprView>, ErrorView>(expr_views(list@)),
    {
        proof {
            lists_fail_early(Seq::empty(), views, i + 1, exprs.len() as int);
            assert(views[i as int] == exprs@[i as int]@);
        }
        let ghost earlier = expr_views(list@);
        match decode_expr(&exprs[i]) {
            Ok(expr) => {
                list.push(expr);
                proof {
                    assert(expr_views(list@) =~= earlier.push(expr@));
                }
            },
            Err(error) => return Err(error),
        }
    }
    Ok(list)
}

// ---- lists of sort keys

pub open spec fn encoded_sorts(sorts: Seq<SortView>, upto: int) -> Result<
    Seq<WireSortView>,
    ErrorView,
>
    decreases upto,
{
    if upto <= 0 {
        Ok(Seq::empty())
    } else {
        match encoded_sorts(sorts, upto - 1) {
            Err(error) => Err(error),
            Ok(earlier) => match encoded_expr(sorts[upto - 1].expr) {
                Err(error) => Err(error),
                Ok(expr) => Ok(
                    earlier.push(
                        WireSortView {
                            expr,
                            ascending: sorts[upto - 1].ascending,
                            nulls_first: sorts[upto - 1].nulls_first,
                        },
                    ),
                ),
            },
        }
    }
}

/// The sort keys of the first `upto` messages, or the first error: each must have a type over the
/// columns of a schema.
pub open spec fn decoded_sorts(sorts: Seq<WireSortView>, schema: SchemaView, upto: int) -> Result<
    Seq<SortView>,
    ErrorView,
>
    decreases upto,
{
    if upto <= 0 {
        Ok(Seq::empty())
    } else {
        match decoded_sorts(sorts, schema, upto - 1) {
            Err(error) => Err(error),
            Ok(earlier) => match decoded_operand(sorts[upto - 1].expr, "sort expression"@) {
                Err(error) => Err(error),
                Ok(expr) => match expr.data_type(schema) {
                    Err(error) => Err(error),
                    Ok(_) => Ok(
                        earlier.push(
                            SortView {
                                expr,
                                ascending: sorts[upto - 1].ascending,
                                nulls_first: sorts[upto - 1].nulls_first,
                            },
                        ),
                    ),
                },
            },
        }
    }
}

/// The sort keys of an operator, of which there must be one.
pub open spec fn operator_sorts(sorts: Seq<WireSortView>, schema: SchemaView) -> Result<
    Seq<SortView>,
    ErrorView,
> {
    match decoded_sorts(sorts, schema, sorts.len() as int) {
        Err(error) => Err(error),
        Ok(list) => if list.len() == 0 {
            Err(codec_failure("sort operator requires at least one expression"@))
        } else {
            Ok(list)
        },
    }
}

/// Whether the names in all sort keys are such as can be sent, and each key has a type.
pub open spec fn sorts_sendable(sorts: Seq<SortView>, schema: SchemaView) -> bool {
    forall|i: int|
        0 <= i < sorts.len() ==> (#[trigger] sorts[i]).expr.is_named() && sorts[i].expr.data_type(
            schema,
        ) is Ok
}

pub(crate) proof fn sorts_fail_early(
    sorts: Seq<SortView>,
    messages: Seq<WireSortView>,
    schema: SchemaView,
    upto: int,
    full: int,
)
    requires
        0 <= upto <= full,
    ensures
        encoded_sorts(sorts, upto) is Err ==> encoded_sorts(sorts, full) == encoded_sorts(
            sorts,
            upto,
        ),
        decoded_sorts(messages, schema, upto) is Err ==> decoded_sorts(messages, schema, full)
            == decoded_sorts(messages, schema, upto),
        decoded_sorts(messages, schema, upto) is Ok ==> decoded_sorts(
            messages,
            schema,
            upto,
        )->Ok_0.len() == upto,
    decreases full,
{
    if upto < full {
        sorts_fail_early(sorts, messages, schema, upto, full - 1);
    } else if upto > 0 {
        sorts_fail_early(sorts, messages, schema, upto - 1, upto - 1);
    }
}

proof fn sort_decoding_of_prefix(
    a: Seq<WireSortView>,
    b: Seq<WireSortView>,
    schema: SchemaView,
    upto: int,
)
    requires
        upto <= a.len(),
        upto <= b.len(),
        forall|i: int| 0 <= i < upto ==> a[i] == b[i],
    ensures
        decoded_sorts(a, schema, upto) == decoded_sorts(b, schema, upto),
    decreases upto,
{
    if upto > 0 {
        sort_decoding_of_prefix(a, b, schema, upto - 1);
    }
}

/// Sort keys that were sent arrive as they were.
pub proof fn sorts_survive(sorts: Seq<SortView>, schema: SchemaView, upto: int)
    requires
        0 <= upto <= sorts.len(),
        encoded_sorts(sorts, upto) is Ok,
        sorts_sendable(sorts, schema),
    ensures
        encoded_sorts(sorts, upto)->Ok_0.len() == upto,
        decoded_sorts(encoded_sorts(sorts, upto)->Ok_0, schema, upto) == Ok::<
            Seq<SortView>,
            ErrorView,
        >(sorts.take(upto)),
    decreases upto,
{
    if upto > 0 {
        sorts_survive(sorts, schema, upto - 1);
        assert(sorts[upto - 1].expr.is_named());
        expr_survives(sorts[upto - 1].expr);
        let earlier = encoded_sorts(sorts, upto - 1)->Ok_0;
        let all = encoded_sorts(sorts, upto)->Ok_0;
        sort_decoding_of_prefix(earlier, all, schema, upto - 1);
        assert(sorts.take(upto - 1).push(sorts[upto - 1]) =~= sorts.take(upto));
    } else {
        assert(sorts.take(0) =~= Seq::empty());
    }
}

pub fn encode_sorts(sorts: &Vec<SortExpr>) -> (r: Result<Vec<WireSort>, SparkXError>)
    ensures
        match r {
            Ok(list) => encoded_sorts(sort_views(sorts@), sorts.len() as int) == Ok::<
                Seq<WireSortView>,
                ErrorView,
            >(wire_sort_views(list@)),
            Err(error) => encoded_sorts(sort_views(sorts@), sorts.len() as int) == Err::<
                Seq<WireSortView>,
                ErrorView,
            >(error@),
        },
{
    let ghost views = sort_views(sorts@);
    let mut list: Vec<WireSort> = Vec::new();
    proof {
        assert(wire_sort_views(list@) =~= Seq::empty());
    }
    for i in 0..sorts.len()
        invariant
            views == sort_views(sorts@),
            encoded_sorts(views, i as int) == Ok::<Seq<WireSortView>, ErrorView>(
                wire_sort_views(list@),
            ),
    {
        proof {
            sorts_fail_early(
                views,
                Seq::empty(),
                SchemaView { fields: Seq::empty(), metadata: Seq::empty() },
                i + 1,
                sorts.len() as int,
            );
            assert(views[i as int] == sorts@[i as int]@);
        }
        let ghost earlier = wire_sort_views(list@);
        match encode_expr(&sorts[i].expr) {
            Ok(expr) => {
                let sort = WireSort {
                    expr,
                    ascending: sorts[i].ascending,
                    nulls_first: sorts[i].nulls_first,
                };
                list.push(sort);
                proof {
                    assert(wire_sort_views(list@) =~= earlier.push(sort@));
                }
            },
            Err(error) => return Err(error),
        }
    }
    Ok(list)
}

pub fn decode_sorts(sorts: &Vec<WireSort>, schema: &Schema) -> (r: Result<
    Vec<SortExpr>,
    SparkXError,
>)
    ensures
        match r {
            Ok(list) => operator_sorts(wire_sort_views(sorts@), schema@) == Ok::<
                Seq<SortView>,
                ErrorView,
            >(sort_views(list@)),
            Err(error) => operator_sorts(wire_sort_views(sorts@), schema@) == Err::<
                Seq<SortView>,
                ErrorView,
            >(error@),
        },
{
    let ghost views = wire_sort_views(sorts@);
    let mut list: Vec<SortExpr> = Vec::new();
    proof {
        assert(sort_views(list@) =~= Seq::empty());
    }
    for i in 0..sorts.len()
        invariant
            views == wire_sort_views(sorts@),
            decoded_sorts(views, schema@, i as int) == Ok::<Seq<SortView>, ErrorView>(
                sort_views(list@),
            ),
    {
        proof {
            sorts_fail_early(Seq::empty(), views, schema@, i + 1, sorts.len() as int);
            assert(views[i as int] == sorts@[i as int]@);
        }
        let ghost earlier = sort_views(list@);
        let expr = match decode_operand(&sorts[i].expr, "sort expression") {
            Ok(expr) => expr,
            Err(error) => return Err(error),
        };
        match expr.data_type(schema) {
            Ok(_) => {},
            Err(error) => return Err(error),
        }
        let sort = SortExpr {
            expr,
            ascending: sorts[i].ascending,
            nulls_first: sorts[i].nulls_first,
        };
        list.push(sort);
        proof {
            assert(sort_views(list@) =~= earlier.push(sort@));
        }
    }
    if list.len() == 0 {
        return Err(codec_error("sort operator requires at least one expression"));
    }
    Ok(list)
}

// ---- metadata

/// Whether entries stand in the order of their keys, none twice.
pub open spec fn keys_in_order(entries: Seq<MetadataView>) -> bool {
    forall|i: int, j: int|
        0 <= i < j < entries.len() ==> before(
            (#[trigger] entries[i]).key,
            (#[trigger] entries[j]).key,
        )
}

/// The place of a key among entries in order: behind all that come before it.
pub open spec fn place(entries: Seq<MetadataView>, key: Seq<char>, from: int) -> int
    decreases entries.len() - from,
{
    if from >= entries.len() || !before(entries[from].key, key) {
        from
    } else {
        place(entries, key, from + 1)
    }
}

pub open spec fn has_key(entries: Seq<MetadataView>, key: Seq<char>) -> bool {
    exists|i: int| 0 <= i < entries.len() && (#[trigger] entries[i]).key == key
}

/// The first `upto` entries put in the order of their keys, or the error that one occurs twice.
pub open spec fn decoded_metadata(entries: Seq<MetadataView>, upto: int) -> Result<
    Seq<MetadataView>,
    ErrorView,
>
    decreases upto,
{
    if upto <= 0 {
        Ok(Seq::empty())
    } else {
        match decoded_metadata(entries, upto - 1) {
            Err(error) => Err(error),
            Ok(earlier) => if has_key(earlier, entries[upto - 1].key) {
                Err(
                    codec_failure(
                        "schema metadata key '"@ + entries[upto - 1].key
                            + "' appears more than once"@,
                    ),
                )
            } else {
                Ok(earlier.insert(place(earlier, entries[upto - 1].key, 0), entries[upto - 1]))
            },
        }
    }
}

proof fn place_is_within(entries: Seq<MetadataView>, key: Seq<char>, from: int)
    requires
        0 <= from <= entries.len(),
    ensures
        from <= place(entries, key, from) <= entries.len(),
    decreases entries.len() - from,
{
    if from < entries.len() && before(entries[from].key, key) {
        place_is_within(entries, key, from + 1);
    }
}

proof fn place_behind_all(entries: Seq<MetadataView>, key: Seq<char>, from: int)
    requires
        0 <= from <= entries.len(),
        forall|i: int| 0 <= i < entries.len() ==> before((#[trigger] entries[i]).key, key),
    ensures
        place(entries, key, from) == entries.len(),
    decreases entries.len() - from,
{
    if from < entries.len() {
        place_behind_all(entries, key, from + 1);
    }
}

/// Metadata in order stays as it is.
pub proof fn metadata_survives(entries: Seq<MetadataView>, upto: int)
    requires
        keys_in_order(entries),
        0 <= upto <= entries.len(),
    ensures
        decoded_metadata(entries, upto) == Ok::<Seq<MetadataView>, ErrorView>(entries.take(upto)),
    decreases upto,
{
    if upto > 0 {
        metadata_survives(entries, upto - 1);
        let earlier = entries.take(upto - 1);
        let entry = entries[upto - 1];
        assert forall|i: int| 0 <= i < earlier.len() implies before(
            (#[trigger] earlier[i]).key,
            entry.key,
        ) by {
            assert(before(entries[i].key, entries[upto - 1].key));
        }
        assert(!has_key(earlier, entry.key)) by {
            before_is_strict(entry.key, entry.key);
        }
        place_behind_all(earlier, entry.key, 0);
        assert(earlier.insert(earlier.len() as int, entry) =~= entries.take(upto));
    } else {
        assert(entries.take(0) =~= Seq::empty());
    }
}

proof fn metadata_fails_early(entries: Seq<MetadataView>, upto: int, full: int)
    requires
        0 <= upto <= full,
        decoded_metadata(entries, upto) is Err,
    ensures
        decoded_metadata(entries, full) == decoded_metadata(entries, upto),
    decreases full - upto,
{
    if upto < full {
        metadata_fails_early(entries, upto, full - 1);
    }
}

fn decode_metadata(entries: &Vec<MetadataEntry>) -> (r: Result<Vec<MetadataEntry>, SparkXError>)
    ensures
        match r {
            Ok(list) => decoded_metadata(metadata_views(entries@), entries.len() as int) == Ok::<
                Seq<MetadataView>,
                ErrorView,
            >(metadata_views(list@)),
            Err(error) => decoded_metadata(metadata_views(entries@), entries.len() as int)
                == Err::<Seq<MetadataView>, ErrorView>(error@),
        },
{
    let ghost views = metadata_views(entries@);
    let mut list: Vec<MetadataEntry> = Vec::new();
    proof {
        assert(metadata_views(list@) =~= Seq::empty());
    }
    for i in 0..entries.len()
        invariant
            views == metadata_views(entries@),
            decoded_metadata(views, i as int) == Ok::<Seq<MetadataView>, ErrorView>(
                metadata_views(list@),
            ),
    {
        let ghost earlier = metadata_views(list@);
        let key = entries[i].key.as_str();
        proof {
            assert(views[i as int] == entries@[i as int]@);
            if decoded_metadata(views, i + 1) is Err {
                metadata_fails_early(views, i + 1, entries.len() as int);
            }
        }
        let mut at: usize = 0;
        let mut placed: bool = false;
        for k in 0..list.len()
            invariant
                earlier == metadata_views(list@),
                at <= k,
                placed ==> at < list.len() && at == place(earlier, key@, 0),
                !placed ==> at == k && place(earlier, key@, 0) == place(earlier, key@, k as int),
                forall|j: int| 0 <= j < k ==> (#[trigger] earlier[j]).key != key@,
                views == metadata_views(entries@),
                i < entries.len(),
                key@ == entries@[i as int].key@,
                views[i as int] == entries@[i as int]@,
                decoded_metadata(views, i as int) == Ok::<Seq<MetadataView>, ErrorView>(earlier),
                decoded_metadata(views, i + 1) is Err ==> decoded_metadata(
                    views,
                    entries.len() as int,
                ) == decoded_metadata(views, i + 1),
        {
            proof {
                assert(earlier[k as int] == list@[k as int]@);
            }
            match relate(list[k].key.as_str(), key) {
                Relation::Same => {
                    let mut message: String = join("schema metadata key '", key);
                    message.append("' appears more than once");
                    proof {
                        assert(has_key(earlier, key@));
                    }
                    return Err(codec_error(message.as_str()));
                },
                Relation::Less => {
                    if !placed {
                        at = k + 1;
                    }
                },
                Relation::Greater => {
                    proof {
                        before_is_strict(key@, earlier[k as int].key);
                    }
                    placed = true;
                },
            }
        }
        proof {
            place_is_within(earlier, key@, 0);
        }
        list.insert(at, entries[i].clone());
        proof {
            assert(metadata_views(list@) =~= earlier.insert(at as int, views[i as int]));
        }
    }
    Ok(list)
}

// ---- schemas

pub open spec fn encoded_fields(fields: Seq<FieldView>, upto: int) -> Result<
    Seq<WireFieldView>,
    ErrorView,
>
    decreases upto,
{
    if upto <= 0 {
        Ok(Seq::empty())
    } else {
        match encoded_fields(fields, upto - 1) {
            Err(error) => Err(error),
            Ok(earlier) => match type_code(fields[upto - 1].data_type) {
                Err(error) => Err(error),
                Ok(data_type) => Ok(
                    earlier.push(
                        WireFieldView {
                            name: fields[upto - 1].name,
                            data_type,
                            nullable: fields[upto - 1].nullable,
                            metadata: fields[upto - 1].metadata,
                        },
                    ),
                ),
            },
        }
    }
}

pub open spec fn encoded_schema(schema: SchemaView) -> Result<WireSchemaView, ErrorView> {
    match encoded_fields(schema.fields, schema.fields.len() as int) {
        Err(error) => Err(error),
        Ok(fields) => Ok(WireSchemaView { fields, metadata: schema.metadata }),
    }
}

pub open spec fn decoded_fields(fields: Seq<WireFieldView>, upto: int) -> Result<
    Seq<FieldView>,
    ErrorView,
>
    decreases upto,
{
    if upto <= 0 {
        Ok(Seq::empty())
    } else {
        let field = fields[upto - 1];
        match decoded_fields(fields, upto - 1) {
            Err(error) => Err(error),
            Ok(earlier) => match type_of(field.data_type) {
                Err(error) => Err(error),
                Ok(data_type) => match decoded_metadata(
                    field.metadata,
                    field.metadata.len() as int,
                ) {
                    Err(error) => Err(error),
                    Ok(metadata) => Ok(
                        earlier.push(
                            FieldView {
                                name: field.name,
                                data_type,
                                nullable: field.nullable,
                                metadata,
                            },
                        ),
                    ),
                },
            },
        }
    }
}

pub open spec fn decoded_schema(schema: WireSchemaView) -> Result<SchemaView, ErrorView> {
    match decoded_fields(schema.fields, schema.fields.len() as int) {
        Err(error) => Err(error),
        Ok(fields) => match decoded_metadata(schema.metadata, schema.metadata.len() as int) {
            Err(error) => Err(error),
            Ok(metadata) => Ok(SchemaView { fields, metadata }),
        },
    }
}

/// The schema of an operator, or the error that there is none.
pub open spec fn operator_schema(schema: Option<WireSchemaView>, operator: Seq<char>) -> Result<
    SchemaView,
    ErrorView,
> {
    match schema {
        None => Err(missing(operator + " schema"@)),
        Some(schema) => decoded_schema(schema),
    }
}

/// Whether the metadata of a schema stands in the order of its keys.
pub open spec fn schema_wf(schema: SchemaView) -> bool {
    &&& keys_in_order(schema.metadata)
    &&& forall|i: int|
        0 <= i < schema.fields.len() ==> keys_in_order((#[trigger] schema.fields[i]).metadata)
}

proof fn field_decoding_of_prefix(a: Seq<WireFieldView>, b: Seq<WireFieldView>, upto: int)
    requires
        upto <= a.len(),
        upto <= b.len(),
        forall|i: int| 0 <= i < upto ==> a[i] == b[i],
    ensures
        decoded_fields(a, upto) == decoded_fields(b, upto),
    decreases upto,
{
    if upto > 0 {
        field_decoding_of_prefix(a, b, upto - 1);
    }
}

proof fn fields_survive(schema: SchemaView, upto: int)
    requires
        schema_wf(schema),
        0 <= upto <= schema.fields.len(),
        encoded_fields(schema.fields, upto) is Ok,
    ensures
        encoded_fields(schema.fields, upto)->Ok_0.len() == upto,
        decoded_fields(encoded_fields(schema.fields, upto)->Ok_0, upto) == Ok::<
            Seq<FieldView>,
            ErrorView,
        >(schema.fields.take(upto)),
    decreases upto,
{
    if upto > 0 {
        fields_survive(schema, upto - 1);
        let field = schema.fields[upto - 1];
        assert(keys_in_order(field.metadata));
        metadata_survives(field.metadata, field.metadata.len() as int);
        assert(field.metadata.take(field.metadata.len() as int) =~= field.metadata);
        let earlier = encoded_fields(schema.fields, upto - 1)->Ok_0;
        let all = encoded_fields(schema.fields, upto)->Ok_0;
        field_decoding_of_prefix(earlier, all, upto - 1);
        assert(schema.fields.take(upto - 1).push(field) =~= schema.fields.take(upto));
    } else {
        assert(schema.fields.take(0) =~= Seq::empty());
    }
}

/// A schema that was sent arrives as it was.
pub proof fn schema_survives(schema: SchemaView)
    requires
        schema_wf(schema),
        encoded_schema(schema) is Ok,
    ensures
        decoded_schema(encoded_schema(schema)->Ok_0) == Ok::<SchemaView, ErrorView>(schema),
{
    fields_survive(schema, schema.fields.len() as int);
    assert(schema.fields.take(schema.fields.len() as int) =~= schema.fields);
    metadata_survives(schema.metadata, schema.metadata.len() as int);
    assert(schema.metadata.take(schema.metadata.len() as int) =~= schema.metadata);
}

proof fn fields_fail_early(
    fields: Seq<FieldView>,
    messages: Seq<WireFieldView>,
    upto: int,
    full: int,
)
    requires
        0 <= upto <= full,
    ensures
        encoded_fields(fields, upto) is Err ==> encoded_fields(fields, full) == encoded_fields(
            fields,
            upto,
        ),
        decoded_fields(messages, upto) is Err ==> decoded_fields(messages, full) == decoded_fields(
            messages,
            upto,
        ),
    decreases full - upto,
{
    if upto < full {
        fields_fail_early(fields, messages, upto, full - 1);
    }
}

pub fn encode_schema(schema: &Schema) -> (r: Result<WireSchema, SparkXError>)
    ensures
        match r {
            Ok(message) => encoded_schema(schema@) == Ok::<WireSchemaView, ErrorView>(message@),
            Err(error) => encoded_schema(schema@) == Err::<WireSchemaView, ErrorView>(error@),
        },
{
    let ghost views = schema@.fields;
    let mut list: Vec<WireField> = Vec::new();
    proof {
        assert(wire_field_views(list@) =~= Seq::empty());
    }
    for i in 0..schema.fields.len()
        invariant
            views == schema@.fields,
            encoded_fields(views, i as int) == Ok::<Seq<WireFieldView>, ErrorView>(
                wire_field_views(list@),
            ),
    {
        proof {
            fields_fail_early(views, Seq::empty(), i + 1, schema.fields.len() as int);
            assert(views[i as int] == schema.fields@[i as int]@);
        }
        let ghost earlier = wire_field_views(list@);
        let field = &schema.fields[i];
        let data_type: i32 = match encode_data_type(&field.data_type) {
            Ok(code) => code,
            Err(error) => return Err(error),
        };
        let message = WireField {
            name: field.name.clone(),
            data_type,
            nullable: field.nullable,
            metadata: clone_metadata(&field.metadata),
        };
        list.push(message);
        proof {
            assert(wire_field_views(list@) =~= earlier.push(message@));
        }
    }
    Ok(WireSchema { fields: list, metadata: clone_metadata(&schema.metadata) })
}

pub fn decode_schema(schema: &WireSchema) -> (r: Result<Schema, SparkXError>)
    ensures
        match r {
            Ok(result) => decoded_schema(schema@) == Ok::<SchemaView, ErrorView>(result@),
            Err(error) => decoded_schema(schema@) == Err::<SchemaView, ErrorView>(error@),
        },
{
    let ghost views = schema@.fields;
    let mut list: Vec<Field> = Vec::new();
    proof {
        assert(field_views(list@) =~= Seq::empty());
    }
    for i in 0..schema.fields.len()
        invariant
            views == schema@.fields,
            decoded_fields(views, i as int) == Ok::<Seq<FieldView>, ErrorView>(field_views(list@)),
    {
        proof {
            fields_fail_early(Seq::empty(), views, i + 1, schema.fields.len() as int);
            assert(views[i as int] == schema.fields@[i as int]@);
        }
        let ghost earlier = field_views(list@);
        let message = &schema.fields[i];
        let data_type = match decode_data_type(message.data_type) {
            Ok(data_type) => data_type,
            Err(error) => return Err(error),
        };
        let metadata = match decode_metadata(&message.metadata) {
            Ok(metadata) => metadata,
            Err(error) => return Err(error),
        };
        let field = Field {
            name: message.name.clone(),
            data_type,
            nullable: message.nullable,
            metadata,
        };
        list.push(field);
        proof {
            assert(field_views(list@) =~= earlier.push(field@));
        }
    }
    match decode_metadata(&schema.metadata) {
        Ok(metadata) => Ok(Schema { fields: list, metadata }),
        Err(error) => Err(error),
    }
}

pub fn decode_operator_schema(schema: &Option<WireSchema>, operator: &str) -> (r: Result<
    Schema,
    SparkXError,
>)
    ensures
        match r {
            Ok(result) => operator_schema(schema_view(*schema), operator@) == Ok::<
                SchemaView,
                ErrorView,
            >(result@),
            Err(error) => operator_schema(schema_view(*schema), operator@) == Err::<
                SchemaView,
                ErrorView,
            >(error@),
        },
{
    match schema {
        None => Err(missing_error(join(operator, " schema").as_str())),
        Some(schema) => decode_schema(schema),
    }
}

} // verus!
